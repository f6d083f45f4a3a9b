//! The in-memory backend: a map from keys to values.

use vstd::prelude::*;
use crate::error::Error;
use crate::keys::{check_key, valid_key};
use crate::number::format_uint;
use crate::storage::{
    after_counter, after_delete, after_set, counter_step, counter_value, delete_result, lookup,
    presence, search_keys, Store,
};
use crate::table::{has_prefix, StringMap};

verus! {

/// A store that keeps its keys and values in memory.
pub struct Storage {
    values: StringMap,
}

impl View for Storage {
    type V = Store;

    closed spec fn view(&self) -> Store {
        self.values@
    }
}

impl Storage {
    /// The store's invariant: only valid keys are stored.
    pub closed spec fn wf(&self) -> bool {
        &&& self.values.wf()
        &&& forall|k: Seq<char>| #[trigger] self.values@.contains_key(k) ==> valid_key(k)
    }

    /// An empty store.
    pub fn new() -> (r: Storage)
        ensures
            r.wf(),
            r@ == Store::empty(),
    {
        Storage { values: StringMap::new() }
    }

    /// Writes `value` under `key`.
    pub fn set(&mut self, key: String, value: String) -> (r: Result<(), Error>)
        requires
            old(self).wf(),
        ensures
            final(self).wf(),
            r is Ok <==> valid_key(key@),
            r is Err ==> lookup(old(self)@, key@) == Err::<Seq<char>, Error>(r->Err_0),
            final(self)@ == after_set(old(self)@, key@, value@),
    {
        match check_key(key.as_str()) {
            Err(e) => Err(e),
            Ok(()) => {
                self.values.insert(key, value);
                Ok(())
            },
        }
    }

    /// The value stored under `key`.
    pub fn get(&self, key: String) -> (r: Result<String, Error>)
        requires
            self.wf(),
        ensures
            r is Ok ==> lookup(self@, key@) == Ok::<Seq<char>, Error>(r->Ok_0@),
            r is Err ==> lookup(self@, key@) == Err::<Seq<char>, Error>(r->Err_0),
    {
        check_key(key.as_str())?;
        match self.values.get(key.as_str()) {
            Some(v) => Ok(v),
            None => Err(Error::GetKeyFail),
        }
    }

    /// Removes `key`.
    pub fn delete(&mut self, key: String) -> (r: Result<(), Error>)
        requires
            old(self).wf(),
        ensures
            final(self).wf(),
            r == delete_result(old(self)@, key@),
            final(self)@ == after_delete(old(self)@, key@),
    {
        match check_key(key.as_str()) {
            Err(e) => Err(e),
            Ok(()) => {
                if self.values.remove(key.as_str()) {
                    Ok(())
                } else {
                    Err(Error::DeleteKeyFail)
                }
            },
        }
    }

    /// Whether `key` is stored.
    pub fn key_exists(&self, key: String) -> (r: Result<bool, Error>)
        requires
            self.wf(),
        ensures
            r == presence(self@, key@),
    {
        match check_key(key.as_str()) {
            Err(e) => Err(e),
            Ok(()) => Ok(self.values.contains_key(key.as_str())),
        }
    }

    fn step_counter(&mut self, key: String, num: usize, up: bool) -> (r: Result<usize, Error>)
        requires
            old(self).wf(),
        ensures
            final(self).wf(),
            r is Ok <==> counter_step(old(self)@, key@, num as nat, up) is Ok,
            r is Ok ==> r->Ok_0 as nat == counter_step(old(self)@, key@, num as nat, up)->Ok_0,
            r is Err ==> r->Err_0 == counter_step(old(self)@, key@, num as nat, up)->Err_0,
            final(self)@ == after_counter(old(self)@, key@, num as nat, up),
    {
        let raw = self.get(key.clone())?;
        let new = counter_value(raw.as_str(), num, up)?;
        self.values.insert(key, format_uint(new));
        Ok(new)
    }

    /// Adds `num` to the count stored under `key` and returns the new count.
    pub fn increment(&mut self, key: String, num: usize) -> (r: Result<usize, Error>)
        requires
            old(self).wf(),
        ensures
            final(self).wf(),
            r is Ok <==> counter_step(old(self)@, key@, num as nat, true) is Ok,
            r is Ok ==> r->Ok_0 as nat == counter_step(old(self)@, key@, num as nat, true)->Ok_0,
            r is Err ==> r->Err_0 == counter_step(old(self)@, key@, num as nat, true)->Err_0,
            final(self)@ == after_counter(old(self)@, key@, num as nat, true),
    {
        self.step_counter(key, num, true)
    }

    /// Subtracts `num` from the count stored under `key` and returns the new
    /// count; a count below zero is refused with `UIntParseFail`.
    pub fn decrement(&mut self, key: String, num: usize) -> (r: Result<usize, Error>)
        requires
            old(self).wf(),
        ensures
            final(self).wf(),
            r is Ok <==> counter_step(old(self)@, key@, num as nat, false) is Ok,
            r is Ok ==> r->Ok_0 as nat == counter_step(old(self)@, key@, num as nat, false)->Ok_0,
            r is Err ==> r->Err_0 == counter_step(old(self)@, key@, num as nat, false)->Err_0,
            final(self)@ == after_counter(old(self)@, key@, num as nat, false),
    {
        self.step_counter(key, num, false)
    }

    /// Every stored key that starts with `prefix`, each once.
    pub fn search(&self, prefix: String) -> (r: Result<Vec<String>, Error>)
        requires
            self.wf(),
        ensures
            r is Ok,
            forall|j: int| 0 <= j < r->Ok_0@.len() ==> search_keys(self@, prefix@).contains(#[trigger] r->Ok_0@[j]@),
            forall|k: Seq<char>| #[trigger] search_keys(self@, prefix@).contains(k) ==> exists|j: int| 0 <= j < r->Ok_0@.len() && r->Ok_0@[j]@ == k,
            forall|a: int, b: int|
                0 <= a < r->Ok_0@.len() && 0 <= b < r->Ok_0@.len() && a != b ==> r->Ok_0@[a]@ != r->Ok_0@[b]@,
    {
        let keys = self.values.keys_with_prefix(prefix.as_str());
        assert forall|k: Seq<char>| #[trigger] search_keys(self@, prefix@).contains(k) implies exists|j: int| 0 <= j < keys@.len() && keys@[j]@ == k by {
            assert(self.values@.contains_key(k) && has_prefix(k, prefix@));
        }
        Ok(keys)
    }

    /// Removes every key.
    pub fn flush(&mut self) -> (r: Result<(), Error>)
        ensures
            final(self).wf(),
            r is Ok,
            final(self)@ == Store::empty(),
    {
        self.values.clear();
        Ok(())
    }
}

} // verus!
