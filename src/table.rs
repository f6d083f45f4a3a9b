//! A finite map from strings to strings, kept as a list of distinct keys.

use vstd::prelude::*;
use crate::text::chars_of;

verus! {

pub open spec fn has_prefix(s: Seq<char>, p: Seq<char>) -> bool {
    p.len() <= s.len() && s.subrange(0, p.len() as int) == p
}

/// The index of the last entry with key `k`, or -1.
pub open spec fn find_key(s: Seq<(String, String)>, k: Seq<char>) -> int
    decreases s.len(),
{
    if s.len() == 0 {
        -1
    } else if s.last().0@ == k {
        s.len() - 1
    } else {
        find_key(s.drop_last(), k)
    }
}

pub open spec fn distinct_keys(s: Seq<(String, String)>) -> bool {
    forall|i: int, j: int| 0 <= i < s.len() && 0 <= j < s.len() && i != j ==> s[i].0@ != s[j].0@
}

pub open spec fn entries_map(s: Seq<(String, String)>) -> Map<Seq<char>, Seq<char>> {
    Map::new(|k: Seq<char>| find_key(s, k) >= 0, |k: Seq<char>| s[find_key(s, k)].1@)
}

proof fn lemma_find_key(s: Seq<(String, String)>, k: Seq<char>)
    ensures
        -1 <= find_key(s, k) < s.len(),
        find_key(s, k) >= 0 ==> s[find_key(s, k)].0@ == k,
        find_key(s, k) == -1 <==> forall|i: int| 0 <= i < s.len() ==> s[i].0@ != k,
        forall|i: int| find_key(s, k) < i < s.len() ==> s[i].0@ != k,
    decreases s.len(),
{
    if s.len() > 0 {
        let t = s.drop_last();
        lemma_find_key(t, k);
        assert forall|i: int| 0 <= i < t.len() implies t[i] == s[i] by {}
    }
}

/// With distinct keys, an entry is the one that lookups find.
proof fn lemma_find_distinct(s: Seq<(String, String)>, k: Seq<char>, i: int)
    requires
        distinct_keys(s),
        0 <= i < s.len(),
        s[i].0@ == k,
    ensures
        find_key(s, k) == i,
{
    lemma_find_key(s, k);
}

/// A map from strings to strings.
pub struct StringMap {
    entries: Vec<(String, String)>,
}

impl View for StringMap {
    type V = Map<Seq<char>, Seq<char>>;

    closed spec fn view(&self) -> Map<Seq<char>, Seq<char>> {
        entries_map(self.entries@)
    }
}

/// Whether two strings hold the same characters.
pub(crate) fn same_text(a: &str, b: &str) -> (r: bool)
    ensures
        r == (a@ == b@),
{
    let x = chars_of(a);
    let y = chars_of(b);
    if x.len() != y.len() {
        return false;
    }
    let mut i: usize = 0;
    while i < x.len()
        invariant
            x@ == a@,
            y@ == b@,
            x@.len() == y@.len(),
            0 <= i <= x@.len(),
            forall|j: int| 0 <= j < i ==> x@[j] == y@[j],
        decreases x@.len() - i,
    {
        if x[i] != y[i] {
            return false;
        }
        i = i + 1;
    }
    assert(x@ =~= y@);
    true
}

/// Whether `s` starts with the characters `p`.
pub(crate) fn starts_with_chars(s: &str, p: &Vec<char>) -> (r: bool)
    ensures
        r == has_prefix(s@, p@),
{
    let cs = chars_of(s);
    if p.len() > cs.len() {
        return false;
    }
    let mut i: usize = 0;
    while i < p.len()
        invariant
            p@.len() <= cs@.len(),
            cs@ == s@,
            0 <= i <= p@.len(),
            forall|j: int| 0 <= j < i ==> cs@[j] == p@[j],
        decreases p@.len() - i,
    {
        if cs[i] != p[i] {
            assert(cs@.subrange(0, p@.len() as int)[i as int] != p@[i as int]);
            return false;
        }
        i = i + 1;
    }
    assert(cs@.subrange(0, p@.len() as int) =~= p@);
    true
}

impl StringMap {
    pub closed spec fn wf(&self) -> bool {
        distinct_keys(self.entries@)
    }

    /// An empty map.
    pub fn new() -> (r: StringMap)
        ensures
            r.wf(),
            r@ == Map::<Seq<char>, Seq<char>>::empty(),
    {
        let r = StringMap { entries: Vec::new() };
        assert(r@ =~= Map::<Seq<char>, Seq<char>>::empty());
        r
    }

    fn index_of(&self, key: &str) -> (r: Option<usize>)
        requires
            self.wf(),
        ensures
            r is None <==> !self@.contains_key(key@),
            r is Some ==> r.unwrap() as int == find_key(self.entries@, key@),
            r is Some ==> r.unwrap() < self.entries@.len(),
    {
        proof { lemma_find_key(self.entries@, key@); }
        let mut i: usize = 0;
        while i < self.entries.len()
            invariant
                self.wf(),
                0 <= i <= self.entries@.len(),
                forall|j: int| 0 <= j < i ==> self.entries@[j].0@ != key@,
            decreases self.entries@.len() - i,
        {
            if same_text(self.entries[i].0.as_str(), key) {
                proof { lemma_find_distinct(self.entries@, key@, i as int); }
                return Some(i);
            }
            i = i + 1;
        }
        None
    }

    /// Whether `key` is present.
    pub fn contains_key(&self, key: &str) -> (r: bool)
        requires
            self.wf(),
        ensures
            r == self@.contains_key(key@),
    {
        self.index_of(key).is_some()
    }

    /// The value stored under `key`, if any.
    pub fn get(&self, key: &str) -> (r: Option<String>)
        requires
            self.wf(),
        ensures
            r is Some <==> self@.contains_key(key@),
            r is Some ==> r.unwrap()@ == self@[key@],
    {
        match self.index_of(key) {
            Some(i) => Some(self.entries[i].1.clone()),
            None => None,
        }
    }

    /// Stores `value` under `key`, replacing any earlier value.
    pub fn insert(&mut self, key: String, value: String)
        requires
            old(self).wf(),
        ensures
            final(self).wf(),
            final(self)@ == old(self)@.insert(key@, value@),
    {
        let ghost k = key@;
        let ghost v = value@;
        let ghost before = self.entries@;
        match self.index_of(key.as_str()) {
            Some(i) => {
                self.entries.set(i, (key, value));
                let ghost after = self.entries@;
                proof { lemma_find_key(before, k); }
                assert(after[i as int].0@ == before[i as int].0@);
                assert forall|j: int| 0 <= j < after.len() implies after[j].0@ == before[j].0@ by {
                    if j != i {
                        assert(after[j] == before[j]);
                    }
                }
                assert(distinct_keys(after)) by {
                    assert forall|a: int, b: int|
                        0 <= a < after.len() && 0 <= b < after.len() && a != b implies after[a].0@
                        != after[b].0@ by {
                        lemma_find_key(before, k);
                        assert(after[a].0@ == before[a].0@);
                        assert(after[b].0@ == before[b].0@);
                    }
                }
                assert forall|q: Seq<char>| #![auto] find_key(after, q) == find_key(before, q) by {
                    lemma_find_key(before, q);
                    lemma_find_key(after, q);
                    if find_key(before, q) >= 0 {
                        assert(after.len() == before.len());
                        assert(after[find_key(before, q)].0@ == before[find_key(before, q)].0@);
                        lemma_find_distinct(after, q, find_key(before, q));
                    } else {
                        assert forall|j: int| 0 <= j < after.len() implies after[j].0@ != q by {
                            assert(after[j].0@ == before[j].0@);
                        }
                    }
                }
                assert forall|q: Seq<char>| #![auto] self@.contains_key(q) == old(self)@.insert(k, v).contains_key(q)
                    && (self@.contains_key(q) ==> self@[q] == old(self)@.insert(k, v)[q]) by {
                    lemma_find_key(before, q);
                    if q != k && find_key(before, q) >= 0 {
                        assert(find_key(before, q) != i);
                        assert(after[find_key(before, q)] == before[find_key(before, q)]);
                    }
                }
                assert(self@ =~= old(self)@.insert(k, v));
            },
            None => {
                self.entries.push((key, value));
                let ghost after = self.entries@;
                assert(after.drop_last() =~= before);
                proof { lemma_find_key(before, k); }
                assert(distinct_keys(after));
                assert forall|q: Seq<char>| #![auto] self@.contains_key(q) == old(self)@.insert(k, v).contains_key(q)
                    && (self@.contains_key(q) ==> self@[q] == old(self)@.insert(k, v)[q]) by {
                    lemma_find_key(before, q);
                    if q != k && find_key(before, q) >= 0 {
                        assert(find_key(after, q) == find_key(before, q));
                        assert(after[find_key(before, q)] == before[find_key(before, q)]);
                    }
                }
                assert(self@ =~= old(self)@.insert(k, v));
            },
        }
    }

    /// Removes `key`; tells whether it was present.
    pub fn remove(&mut self, key: &str) -> (r: bool)
        requires
            old(self).wf(),
        ensures
            final(self).wf(),
            r == old(self)@.contains_key(key@),
            final(self)@ == old(self)@.remove(key@),
    {
        let ghost before = self.entries@;
        match self.index_of(key) {
            Some(i) => {
                proof { lemma_find_key(before, key@); }
                self.entries.remove(i);
                let ghost after = self.entries@;
                assert forall|j: int| 0 <= j < after.len() implies after[j] == (if j < i {
                    before[j]
                } else {
                    before[j + 1]
                }) by {}
                assert(distinct_keys(after));
                assert forall|q: Seq<char>| #![auto] q != key@ implies (find_key(after, q) >= 0
                    <==> find_key(before, q) >= 0) && (find_key(after, q) >= 0 ==> after[find_key(
                    after,
                    q,
                )] == before[find_key(before, q)]) by {
                    lemma_find_key(before, q);
                    lemma_find_key(after, q);
                    if find_key(before, q) >= 0 {
                        let j = find_key(before, q);
                        if j < i {
                            lemma_find_distinct(after, q, j);
                        } else {
                            lemma_find_distinct(after, q, j - 1);
                        }
                    } else {
                        if find_key(after, q) >= 0 {
                            let j = find_key(after, q);
                            if j < i {
                                assert(before[j].0@ == q);
                            } else {
                                assert(before[j + 1].0@ == q);
                            }
                        }
                    }
                }
                assert forall|j: int| 0 <= j < after.len() implies after[j].0@ != key@ by {
                    if j < i {
                        assert(before[j].0@ != before[i as int].0@);
                    } else {
                        assert(before[j + 1].0@ != before[i as int].0@);
                    }
                }
                proof { lemma_find_key(after, key@); }
                assert(self@ =~= old(self)@.remove(key@));
                true
            },
            None => {
                assert(self@ =~= old(self)@.remove(key@));
                false
            },
        }
    }

    /// Removes every entry.
    pub fn clear(&mut self)
        ensures
            final(self).wf(),
            final(self)@ == Map::<Seq<char>, Seq<char>>::empty(),
    {
        self.entries = Vec::new();
        assert(self@ =~= Map::<Seq<char>, Seq<char>>::empty());
    }

    /// The number of entries.
    pub fn len(&self) -> (r: usize)
        requires
            self.wf(),
        ensures
            r as nat == self@.dom().len(),
    {
        proof { self.lemma_len(); }
        self.entries.len()
    }

    proof fn lemma_len(&self)
        requires
            self.wf(),
        ensures
            self@.dom().len() == self.entries@.len(),
            self@.dom().finite(),
    {
        let s = self.entries@;
        let keys = Seq::new(s.len(), |i: int| s[i].0@);
        assert forall|q: Seq<char>| #![auto] self@.dom().contains(q) <==> keys.contains(q) by {
            lemma_find_key(s, q);
            if keys.contains(q) {
                let i = choose|i: int| 0 <= i < keys.len() && keys[i] == q;
                assert(s[i].0@ == q);
            }
            if self@.dom().contains(q) {
                let i = find_key(s, q);
                assert(keys[i] == q);
            }
        }
        assert(self@.dom() =~= keys.to_set());
        assert(keys.no_duplicates());
        keys.unique_seq_to_set();
    }

    /// Every key that starts with `prefix`, each once, in no particular
    /// order.
    pub fn keys_with_prefix(&self, prefix: &str) -> (r: Vec<String>)
        requires
            self.wf(),
        ensures
            forall|j: int| 0 <= j < r@.len() ==> self@.contains_key(#[trigger] r@[j]@) && has_prefix(r@[j]@, prefix@),
            forall|k: Seq<char>| #[trigger] self@.contains_key(k) && has_prefix(k, prefix@) ==> exists|j: int| 0 <= j < r@.len() && r@[j]@ == k,
            forall|a: int, b: int| 0 <= a < r@.len() && 0 <= b < r@.len() && a != b ==> r@[a]@ != r@[b]@,
    {
        let p = chars_of(prefix);
        let mut out: Vec<String> = Vec::new();
        let mut idx: Ghost<Seq<int>> = Ghost(Seq::empty());
        let mut i: usize = 0;
        while i < self.entries.len()
            invariant
                0 <= i <= self.entries@.len(),
                self.wf(),
                p@ == prefix@,
                idx@.len() == out@.len(),
                forall|j: int| 0 <= j < out@.len() ==> 0 <= #[trigger] idx@[j] < i && out@[j]@
                    == self.entries@[idx@[j]].0@,
                forall|a: int, b: int| 0 <= a < out@.len() && 0 <= b < out@.len() && a != b ==> idx@[a] != idx@[b],
                forall|e: int| 0 <= e < i && has_prefix(#[trigger] self.entries@[e].0@, prefix@) ==> exists|j: int| 0 <= j < out@.len() && idx@[j] == e,
                forall|j: int| 0 <= j < out@.len() ==> has_prefix(#[trigger] out@[j]@, prefix@),
            decreases self.entries@.len() - i,
        {
            let ghost old_idx = idx@;
            let ghost old_len = out@.len();
            if starts_with_chars(self.entries[i].0.as_str(), &p) {
                out.push(self.entries[i].0.clone());
                idx = Ghost(idx@.push(i as int));
                assert(idx@[out@.len() - 1] == i);
            }
            assert forall|e: int| 0 <= e < i + 1 && has_prefix(#[trigger] self.entries@[e].0@, prefix@)
                implies exists|j: int| 0 <= j < out@.len() && idx@[j] == e by {
                if e < i {
                    let j = choose|j: int| 0 <= j < old_len && old_idx[j] == e;
                    assert(idx@[j] == e);
                } else {
                    assert(idx@[out@.len() - 1] == e);
                }
            }
            i = i + 1;
        }
        let ghost s = self.entries@;
        assert forall|j: int| 0 <= j < out@.len() implies self@.contains_key(#[trigger] out@[j]@) && has_prefix(out@[j]@, prefix@) by {
            lemma_find_key(s, out@[j]@);
            assert(s[idx@[j]].0@ == out@[j]@);
        }
        assert forall|k: Seq<char>| #[trigger] self@.contains_key(k) && has_prefix(k, prefix@) implies exists|j: int| 0 <= j < out@.len() && out@[j]@ == k by {
            lemma_find_key(s, k);
            {
                let e = find_key(s, k);
                assert(has_prefix(s[e].0@, prefix@));
                let j = choose|j: int| 0 <= j < out@.len() && idx@[j] == e;
                assert(out@[j]@ == k);
            }
        }
        assert forall|a: int, b: int| 0 <= a < out@.len() && 0 <= b < out@.len() && a != b implies out@[a]@ != out@[b]@ by {
            assert(s[idx@[a]].0@ != s[idx@[b]].0@);
        }
        out
    }
}

} // verus!
