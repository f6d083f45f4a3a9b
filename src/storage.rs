//! What every storage operation does, stated over a map from keys to
//! values, and the laws that follow.

use vstd::prelude::*;
use crate::error::Error;
use crate::keys::{key_error, valid_key};
use crate::number::{decimal_of, lemma_format_then_parse, parse_uint, parses_as_uint, uint_value};
use crate::table::has_prefix;

verus! {

pub type Store = Map<Seq<char>, Seq<char>>;

/// What reading `k` gives.
pub open spec fn lookup(m: Store, k: Seq<char>) -> Result<Seq<char>, Error> {
    match key_error(k) {
        Some(e) => Err(e),
        None => if m.contains_key(k) {
            Ok(m[k])
        } else {
            Err(Error::GetKeyFail)
        },
    }
}

/// What asking whether `k` is stored gives.
pub open spec fn presence(m: Store, k: Seq<char>) -> Result<bool, Error> {
    match key_error(k) {
        Some(e) => Err(e),
        None => Ok(m.contains_key(k)),
    }
}

/// The store after writing `v` under `k`; an invalid key changes nothing.
pub open spec fn after_set(m: Store, k: Seq<char>, v: Seq<char>) -> Store {
    if valid_key(k) {
        m.insert(k, v)
    } else {
        m
    }
}

/// What deleting `k` gives.
pub open spec fn delete_result(m: Store, k: Seq<char>) -> Result<(), Error> {
    match key_error(k) {
        Some(e) => Err(e),
        None => if m.contains_key(k) {
            Ok(())
        } else {
            Err(Error::DeleteKeyFail)
        },
    }
}

pub open spec fn after_delete(m: Store, k: Seq<char>) -> Store {
    if valid_key(k) {
        m.remove(k)
    } else {
        m
    }
}

/// A counter's new value from its stored text: the text must read as an
/// unsigned number, and the result must neither overflow nor go below zero.
pub open spec fn counter_result(stored: Seq<char>, n: nat, up: bool) -> Result<nat, Error> {
    if !parses_as_uint(stored) {
        Err(Error::UIntParseFail)
    } else if up {
        if uint_value(stored) + n > usize::MAX {
            Err(Error::UIntParseFail)
        } else {
            Ok(uint_value(stored) + n)
        }
    } else {
        if uint_value(stored) < n {
            Err(Error::UIntParseFail)
        } else {
            Ok((uint_value(stored) - n) as nat)
        }
    }
}

/// What adding (`up`) or subtracting `n` at `k` gives.
pub open spec fn counter_step(m: Store, k: Seq<char>, n: nat, up: bool) -> Result<nat, Error> {
    match lookup(m, k) {
        Err(e) => Err(e),
        Ok(stored) => counter_result(stored, n, up),
    }
}

/// The store after a counter step: on success the key holds the decimal
/// text of the new value.
pub open spec fn after_counter(m: Store, k: Seq<char>, n: nat, up: bool) -> Store {
    match counter_step(m, k, n, up) {
        Ok(v) => m.insert(k, decimal_of(v)),
        Err(_) => m,
    }
}

/// The keys that a search for prefix `p` finds.
pub open spec fn search_keys(m: Store, p: Seq<char>) -> Set<Seq<char>> {
    m.dom().filter(|k: Seq<char>| has_prefix(k, p))
}

/// The store after writing `vs[i]` under `ks[i]` for each `i` in turn.
pub open spec fn set_all(m: Store, ks: Seq<Seq<char>>, vs: Seq<Seq<char>>) -> Store
    decreases ks.len(),
{
    if ks.len() == 0 || vs.len() == 0 {
        m
    } else {
        after_set(set_all(m, ks.drop_last(), vs.drop_last()), ks.last(), vs.last())
    }
}

/// The new value of a counter whose stored text is `stored`.
pub fn counter_value(stored: &str, n: usize, up: bool) -> (r: Result<usize, Error>)
    ensures
        r is Ok <==> counter_result(stored@, n as nat, up) is Ok,
        r is Ok ==> r->Ok_0 as nat == counter_result(stored@, n as nat, up)->Ok_0,
        r is Err ==> r->Err_0 == counter_result(stored@, n as nat, up)->Err_0,
{
    match parse_uint(stored) {
        None => Err(Error::UIntParseFail),
        Some(v) => {
            if up {
                if v > usize::MAX - n {
                    Err(Error::UIntParseFail)
                } else {
                    Ok(v + n)
                }
            } else {
                if v < n {
                    Err(Error::UIntParseFail)
                } else {
                    Ok(v - n)
                }
            }
        },
    }
}

/// A value written under a valid key is what reading it gives.
pub proof fn lemma_set_then_get(m: Store, k: Seq<char>, v: Seq<char>)
    requires
        valid_key(k),
    ensures
        lookup(after_set(m, k, v), k) == Ok::<Seq<char>, Error>(v),
{
}

/// After deleting a valid key it is absent and reading it fails with
/// `GetKeyFail`.
pub proof fn lemma_delete_then_absent(m: Store, k: Seq<char>)
    requires
        valid_key(k),
    ensures
        presence(after_delete(m, k), k) == Ok::<bool, Error>(false),
        lookup(after_delete(m, k), k) == Err::<Seq<char>, Error>(Error::GetKeyFail),
{
}

/// Adding `n` to a stored count `c` gives `c + n` and stores its decimal
/// text; subtracting gives `c - n` when `c >= n`.
pub proof fn lemma_counter_steps(m: Store, k: Seq<char>, n: nat)
    requires
        valid_key(k),
        m.contains_key(k),
        parses_as_uint(m[k]),
    ensures
        uint_value(m[k]) + n <= usize::MAX ==> counter_step(m, k, n, true) == Ok::<nat, Error>(
            uint_value(m[k]) + n,
        ) && after_counter(m, k, n, true)[k] == decimal_of(uint_value(m[k]) + n)
            && lookup(after_counter(m, k, n, true), k) == Ok::<Seq<char>, Error>(decimal_of(uint_value(m[k]) + n)),
        uint_value(m[k]) >= n ==> counter_step(m, k, n, false) == Ok::<nat, Error>(
            (uint_value(m[k]) - n) as nat,
        ) && after_counter(m, k, n, false)[k] == decimal_of((uint_value(m[k]) - n) as nat)
            && lookup(after_counter(m, k, n, false), k) == Ok::<Seq<char>, Error>(decimal_of((uint_value(m[k]) - n) as nat)),
{
}

/// The text a counter step leaves behind reads back as the new count.
pub proof fn lemma_counter_text_reads_back(m: Store, k: Seq<char>, n: nat, up: bool)
    requires
        counter_step(m, k, n, up) is Ok,
    ensures
        parses_as_uint(after_counter(m, k, n, up)[k]),
        uint_value(after_counter(m, k, n, up)[k]) == counter_step(m, k, n, up)->Ok_0,
{
    let v = counter_step(m, k, n, up)->Ok_0;
    lemma_format_then_parse(v as usize);
}

/// Writing values under a list of valid keys into an empty store, a search
/// for any prefix finds exactly the listed keys that start with it.
pub proof fn lemma_search_after_sets(ks: Seq<Seq<char>>, vs: Seq<Seq<char>>, p: Seq<char>)
    requires
        ks.len() == vs.len(),
        forall|i: int| 0 <= i < ks.len() ==> valid_key(#[trigger] ks[i]),
    ensures
        search_keys(set_all(Map::empty(), ks, vs), p) == ks.to_set().filter(
            |k: Seq<char>| has_prefix(k, p),
        ),
{
    lemma_set_all_dom(ks, vs);
    assert(search_keys(set_all(Map::empty(), ks, vs), p) =~= ks.to_set().filter(
        |k: Seq<char>| has_prefix(k, p),
    ));
}

proof fn lemma_set_all_dom(ks: Seq<Seq<char>>, vs: Seq<Seq<char>>)
    requires
        ks.len() == vs.len(),
        forall|i: int| 0 <= i < ks.len() ==> valid_key(#[trigger] ks[i]),
    ensures
        set_all(Map::empty(), ks, vs).dom() == ks.to_set(),
    decreases ks.len(),
{
    if ks.len() == 0 {
        assert(ks.to_set() =~= Set::<Seq<char>>::empty());
        assert(set_all(Map::empty(), ks, vs).dom() =~= Set::<Seq<char>>::empty());
    } else {
        let rest = ks.drop_last();
        assert forall|i: int| 0 <= i < rest.len() implies valid_key(#[trigger] rest[i]) by {
            assert(rest[i] == ks[i]);
        }
        lemma_set_all_dom(rest, vs.drop_last());
        assert(valid_key(ks[ks.len() - 1]));
        assert(ks =~= rest.push(ks.last()));
        assert(ks.to_set() =~= rest.to_set().insert(ks.last())) by {
            assert forall|q: Seq<char>| ks.to_set().contains(q) <==> rest.to_set().insert(ks.last()).contains(q) by {
                if ks.contains(q) {
                    let i = choose|i: int| 0 <= i < ks.len() && ks[i] == q;
                    if i < ks.len() - 1 {
                        assert(rest[i] == q);
                    }
                }
                if rest.contains(q) {
                    let i = choose|i: int| 0 <= i < rest.len() && rest[i] == q;
                    assert(ks[i] == q);
                }
            }
        }
        assert(set_all(Map::empty(), ks, vs).dom() =~= ks.to_set());
    }
}

} // verus!
