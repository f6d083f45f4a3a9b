//! Key validation and the layout of keys on disk: a key is split into
//! two-character directory names, and its value lives in a leaf file `$`.

use vstd::prelude::*;
use crate::error::Error;
use crate::table::{has_prefix, starts_with_chars};
use crate::text::{chars_of, string_of};

verus! {

pub open spec fn is_key_char(c: char) -> bool {
    ('a' <= c && c <= 'z') || ('A' <= c && c <= 'Z') || ('0' <= c && c <= '9') || c == '_'
}

pub open spec fn key_chars_ok(k: Seq<char>) -> bool {
    forall|i: int| 0 <= i < k.len() ==> is_key_char(#[trigger] k[i])
}

/// Why `k` is not a valid key, if it is not one.
pub open spec fn key_error(k: Seq<char>) -> Option<Error> {
    if k.len() < 2 {
        Some(Error::KeyTooShort)
    } else if !key_chars_ok(k) {
        Some(Error::KeyWrongFormat)
    } else {
        None
    }
}

pub open spec fn valid_key(k: Seq<char>) -> bool {
    key_error(k) is None
}

/// The directory names of a key: consecutive two-character chunks, the last
/// one a single character when the length is odd.
pub open spec fn shard_segments(k: Seq<char>) -> Seq<Seq<char>>
    decreases k.len(),
{
    if k.len() == 0 {
        Seq::empty()
    } else if k.len() <= 2 {
        seq![k]
    } else {
        seq![k.subrange(0, 2)] + shard_segments(k.subrange(2, k.len() as int))
    }
}

/// The path of a key below the store's root: its directory names, then the
/// leaf file `$`.
pub open spec fn key_path(k: Seq<char>) -> Seq<Seq<char>> {
    shard_segments(k).push(seq!['$'])
}

/// The characters of several names, joined.
pub open spec fn concat_all(ss: Seq<Seq<char>>) -> Seq<char>
    decreases ss.len(),
{
    if ss.len() == 0 {
        Seq::empty()
    } else {
        ss[0] + concat_all(ss.drop_first())
    }
}

pub open spec fn string_views(v: Seq<String>) -> Seq<Seq<char>> {
    v.map_values(|s: String| s@)
}

/// Joining the directory names of a key gives the key back.
pub proof fn lemma_segments_join(k: Seq<char>)
    ensures
        concat_all(shard_segments(k)) == k,
    decreases k.len(),
{
    assert(concat_all(Seq::<Seq<char>>::empty()) == Seq::<char>::empty());
    if k.len() == 0 {
        assert(k =~= Seq::<char>::empty());
    } else if k.len() <= 2 {
        assert(seq![k].drop_first() =~= Seq::<Seq<char>>::empty());
        assert(concat_all(seq![k]) == seq![k][0] + concat_all(seq![k].drop_first()));
        assert(k + Seq::<char>::empty() =~= k);
    } else {
        let rest = k.subrange(2, k.len() as int);
        lemma_segments_join(rest);
        let ss = shard_segments(k);
        assert(ss.drop_first() =~= shard_segments(rest));
        assert(ss[0] == k.subrange(0, 2));
        assert(k.subrange(0, 2) + rest =~= k);
    }
}

/// Every directory name of a key has one or two characters.
pub proof fn lemma_segment_sizes(k: Seq<char>)
    ensures
        forall|i: int| 0 <= i < shard_segments(k).len() ==> 1 <= #[trigger] shard_segments(k)[i].len() <= 2,
        shard_segments(k).len() == (k.len() + 1) / 2,
    decreases k.len(),
{
    if k.len() > 2 {
        lemma_segment_sizes(k.subrange(2, k.len() as int));
    }
}

/// Whether every character is a letter, a digit or `_`.
pub fn validate_key(key: &str) -> (r: bool)
    ensures
        r == key_chars_ok(key@),
{
    let cs = chars_of(key);
    let mut i: usize = 0;
    while i < cs.len()
        invariant
            cs@ == key@,
            0 <= i <= cs@.len(),
            forall|j: int| 0 <= j < i ==> is_key_char(#[trigger] cs@[j]),
        decreases cs@.len() - i,
    {
        let c = cs[i];
        if !(('a' <= c && c <= 'z') || ('A' <= c && c <= 'Z') || ('0' <= c && c <= '9') || c == '_') {
            assert(!is_key_char(cs@[i as int]));
            return false;
        }
        i = i + 1;
    }
    true
}

/// `Ok` for a valid key, else the reason it is not one.
pub fn check_key(key: &str) -> (r: Result<(), Error>)
    ensures
        r is Ok <==> valid_key(key@),
        r is Err ==> key_error(key@) == Some(r->Err_0),
{
    let n = chars_of(key).len();
    if n < 2 {
        Err(Error::KeyTooShort)
    } else if !validate_key(key) {
        Err(Error::KeyWrongFormat)
    } else {
        Ok(())
    }
}

fn push_segments(cs: &Vec<char>, from: usize, out: &mut Vec<String>)
    requires
        from <= cs@.len(),
    ensures
        string_views(final(out)@) == string_views(old(out)@) + shard_segments(
            cs@.subrange(from as int, cs@.len() as int),
        ),
    decreases cs@.len() - from,
{
    let rest = Ghost(cs@.subrange(from as int, cs@.len() as int));
    if from == cs.len() {
        assert(string_views(out@) =~= string_views(out@) + Seq::<Seq<char>>::empty());
        return;
    }
    let end: usize = if cs.len() - from <= 2 { cs.len() } else { from + 2 };
    let mut chunk: Vec<char> = Vec::new();
    let mut i: usize = from;
    while i < end
        invariant
            from <= i <= end <= cs@.len(),
            chunk@ == cs@.subrange(from as int, i as int),
        decreases end - i,
    {
        chunk.push(cs[i]);
        i = i + 1;
        assert(chunk@ =~= cs@.subrange(from as int, i as int));
    }
    let ghost before = string_views(out@);
    out.push(string_of(&chunk));
    assert(string_views(out@) =~= before.push(chunk@));
    if end < cs.len() {
        assert(rest@.subrange(2, rest@.len() as int) =~= cs@.subrange(end as int, cs@.len() as int));
        assert(rest@.subrange(0, 2) =~= chunk@);
        push_segments(cs, end, out);
        assert(string_views(out@) =~= before + shard_segments(rest@));
    } else {
        assert(chunk@ =~= rest@);
        assert(string_views(out@) =~= before + shard_segments(rest@));
    }
}

/// The path of a valid key below the store's root: its two-character
/// directory names, then the leaf file `$`.
pub fn create_path(key: &str) -> (r: Result<Vec<String>, Error>)
    ensures
        r is Ok <==> valid_key(key@),
        r is Err ==> key_error(key@) == Some(r->Err_0),
        r is Ok ==> string_views(r->Ok_0@) == key_path(key@),
{
    match check_key(key) {
        Err(e) => Err(e),
        Ok(()) => {
            let cs = chars_of(key);
            let mut out: Vec<String> = Vec::new();
            push_segments(&cs, 0, &mut out);
            assert(cs@.subrange(0, cs@.len() as int) =~= key@);
            let ghost before = string_views(out@);
            let leaf = vec!['$'];
            assert(leaf@ =~= seq!['$']);
            out.push(string_of(&leaf));
            assert(string_views(out@) =~= before.push(seq!['$']));
            Ok(out)
        },
    }
}

/// Joins the directory names met between the store's root and a leaf file
/// into the key stored there.
pub fn get_file_name(parts: &Vec<String>) -> (r: String)
    ensures
        r@ == concat_all(string_views(parts@)),
{
    let mut i: usize = parts.len();
    let ghost views = string_views(parts@);
    // joined from the back, so that each step prepends one name
    let mut acc: Vec<char> = Vec::new();
    while i > 0
        invariant
            0 <= i <= parts@.len(),
            views == string_views(parts@),
            acc@ == concat_all(views.subrange(i as int, views.len() as int)),
        decreases i,
    {
        i = i - 1;
        let part = chars_of(parts[i].as_str());
        let mut next: Vec<char> = Vec::new();
        let mut j: usize = 0;
        while j < part.len()
            invariant
                0 <= j <= part@.len(),
                next@ == part@.subrange(0, j as int),
            decreases part@.len() - j,
        {
            next.push(part[j]);
            j = j + 1;
            assert(next@ =~= part@.subrange(0, j as int));
        }
        let mut k: usize = 0;
        while k < acc.len()
            invariant
                0 <= k <= acc@.len(),
                next@ == part@ + acc@.subrange(0, k as int),
            decreases acc@.len() - k,
        {
            next.push(acc[k]);
            k = k + 1;
            assert(next@ =~= part@ + acc@.subrange(0, k as int));
        }
        assert(acc@.subrange(0, acc@.len() as int) =~= acc@);
        let ghost tail = views.subrange(i as int, views.len() as int);
        assert(tail.drop_first() =~= views.subrange(i + 1, views.len() as int));
        assert(tail[0] == part@);
        acc = next;
    }
    assert(views.subrange(0, views.len() as int) =~= views);
    string_of(&acc)
}

/// Where a prefix search starts: the directory names of the prefix's whole
/// two-character chunks, the character that names of the next level must
/// start with when the prefix has odd length, and the depth of that level.
pub struct SearchPlan {
    pub dirs: Vec<String>,
    pub first_char: Option<char>,
    pub depth: usize,
}

/// The longest even-length beginning of `p`.
pub open spec fn even_part(p: Seq<char>) -> Seq<char> {
    p.subrange(0, (p.len() - p.len() % 2) as int)
}

/// Plans a prefix search. A prefix with characters outside letters, digits
/// and `_` gives `KeyWrongFormat`; the empty prefix starts at the root.
pub fn search_plan(prefix: &str) -> (r: Result<SearchPlan, Error>)
    ensures
        r is Ok <==> key_chars_ok(prefix@),
        r is Err ==> r->Err_0 == Error::KeyWrongFormat,
        r is Ok ==> string_views(r->Ok_0.dirs@) == shard_segments(even_part(prefix@)),
        r is Ok ==> r->Ok_0.depth == prefix@.len() / 2,
        r is Ok ==> (r->Ok_0.first_char == if prefix@.len() % 2 == 1 {
            Some(prefix@.last())
        } else {
            None::<char>
        }),
{
    if !validate_key(prefix) {
        return Err(Error::KeyWrongFormat);
    }
    let cs = chars_of(prefix);
    let n = cs.len();
    let even = n - n % 2;
    let mut head: Vec<char> = Vec::new();
    let mut i: usize = 0;
    while i < even
        invariant
            even <= n == cs@.len(),
            0 <= i <= even,
            head@ == cs@.subrange(0, i as int),
        decreases even - i,
    {
        head.push(cs[i]);
        i = i + 1;
        assert(head@ =~= cs@.subrange(0, i as int));
    }
    let mut dirs: Vec<String> = Vec::new();
    push_segments(&head, 0, &mut dirs);
    assert(head@.subrange(0, head@.len() as int) =~= head@);
    assert(string_views(Seq::<String>::empty()) =~= Seq::<Seq<char>>::empty());
    assert(Seq::<Seq<char>>::empty() + shard_segments(head@) =~= shard_segments(head@));
    let first_char = if n % 2 == 1 { Some(cs[n - 1]) } else { None };
    Ok(SearchPlan { dirs, first_char, depth: n / 2 })
}

/// The candidates that start with `prefix`, in their order.
pub fn select_matches(candidates: Vec<String>, prefix: &str) -> (r: Vec<String>)
    ensures
        string_views(r@) == string_views(candidates@).filter(|k: Seq<char>| has_prefix(k, prefix@)),
{
    let p = chars_of(prefix);
    let mut out: Vec<String> = Vec::new();
    let mut i: usize = 0;
    let ghost views = string_views(candidates@);
    while i < candidates.len()
        invariant
            0 <= i <= candidates@.len(),
            p@ == prefix@,
            views == string_views(candidates@),
            string_views(out@) == views.subrange(0, i as int).filter(|k: Seq<char>| has_prefix(k, prefix@)),
        decreases candidates@.len() - i,
    {
        let ghost before = string_views(out@);
        assert(views.subrange(0, i + 1) =~= views.subrange(0, i as int).push(views[i as int]));
        proof {
            views.subrange(0, i as int).lemma_filter_push(views[i as int], |k: Seq<char>| has_prefix(k, prefix@));
        }
        if starts_with_chars(candidates[i].as_str(), &p) {
            out.push(candidates[i].clone());
            assert(string_views(out@) =~= before.push(candidates@[i as int]@));
        }
        i = i + 1;
    }
    assert(views.subrange(0, views.len() as int) =~= views);
    out
}

} // verus!
