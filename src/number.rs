//! Decimal text of unsigned integers.

use vstd::prelude::*;
use crate::text::chars_of;

verus! {

pub open spec fn is_digit(c: char) -> bool {
    '0' <= c && c <= '9'
}

pub open spec fn digit_value(c: char) -> nat {
    (c as u32 - '0' as u32) as nat
}

pub open spec fn digit_char(d: nat) -> char {
    seq!['0', '1', '2', '3', '4', '5', '6', '7', '8', '9'][d as int]
}

pub open spec fn all_digits(s: Seq<char>) -> bool {
    forall|i: int| 0 <= i < s.len() ==> is_digit(#[trigger] s[i])
}

/// The value of a string of decimal digits, most significant first.
pub open spec fn decimal_value(s: Seq<char>) -> nat
    decreases s.len(),
{
    if s.len() == 0 {
        0
    } else {
        decimal_value(s.drop_last()) * 10 + digit_value(s.last())
    }
}

/// The shortest decimal text of `n`.
pub open spec fn decimal_of(n: nat) -> Seq<char>
    decreases n,
{
    if n < 10 {
        seq![digit_char(n)]
    } else {
        decimal_of(n / 10).push(digit_char(n % 10))
    }
}

/// The digits of an unsigned number's text: one leading `+` is allowed.
pub open spec fn unsigned_digits(s: Seq<char>) -> Seq<char> {
    if s.len() > 0 && s[0] == '+' {
        s.drop_first()
    } else {
        s
    }
}

/// Whether `s` is the text of a `usize`: an optional `+`, then at least one
/// decimal digit, with a value that fits.
pub open spec fn parses_as_uint(s: Seq<char>) -> bool {
    let d = unsigned_digits(s);
    &&& d.len() > 0
    &&& all_digits(d)
    &&& decimal_value(d) <= usize::MAX
}

pub open spec fn uint_value(s: Seq<char>) -> nat {
    decimal_value(unsigned_digits(s))
}

proof fn lemma_digit_char(d: nat)
    requires
        d < 10,
    ensures
        is_digit(digit_char(d)),
        digit_value(digit_char(d)) == d,
{
    let t = seq!['0', '1', '2', '3', '4', '5', '6', '7', '8', '9'];
    assert(t[0] == '0' && t[1] == '1' && t[2] == '2' && t[3] == '3' && t[4] == '4');
    assert(t[5] == '5' && t[6] == '6' && t[7] == '7' && t[8] == '8' && t[9] == '9');
}

proof fn lemma_prefix_value_le(s: Seq<char>, k: int)
    requires
        0 <= k <= s.len(),
        all_digits(s),
    ensures
        decimal_value(s.subrange(0, k)) <= decimal_value(s),
    decreases s.len(),
{
    if k < s.len() {
        let t = s.drop_last();
        assert(all_digits(t)) by {
            assert forall|i: int| 0 <= i < t.len() implies is_digit(#[trigger] t[i]) by {
                assert(t[i] == s[i]);
            }
        }
        lemma_prefix_value_le(t, k);
        assert(t.subrange(0, k) == s.subrange(0, k));
    } else {
        assert(s.subrange(0, k) == s);
    }
}

/// The decimal text of a number reads back as that number.
pub proof fn lemma_decimal_round_trip(n: nat)
    ensures
        decimal_of(n).len() > 0,
        all_digits(decimal_of(n)),
        decimal_of(n)[0] != '+',
        decimal_value(decimal_of(n)) == n,
    decreases n,
{
    if n < 10 {
        let s = decimal_of(n);
        lemma_digit_char(n);
        assert(s.drop_last() =~= Seq::<char>::empty());
        assert(decimal_value(Seq::<char>::empty()) == 0);
    } else {
        lemma_decimal_round_trip(n / 10);
        let d = n % 10;
        let s = decimal_of(n);
        assert(s.drop_last() == decimal_of(n / 10));
        lemma_digit_char(d);
        assert(s[0] == decimal_of(n / 10)[0]);
        assert forall|i: int| 0 <= i < s.len() implies is_digit(#[trigger] s[i]) by {
            if i < s.len() - 1 {
                assert(s[i] == decimal_of(n / 10)[i]);
            }
        }
    }
}

/// The text of a `usize` parses back to it.
pub proof fn lemma_format_then_parse(n: usize)
    ensures
        parses_as_uint(decimal_of(n as nat)),
        uint_value(decimal_of(n as nat)) == n,
{
    lemma_decimal_round_trip(n as nat);
}

fn digit_char_exec(d: usize) -> (c: char)
    requires
        d < 10,
    ensures
        c == digit_char(d as nat),
{
    let digits = ['0', '1', '2', '3', '4', '5', '6', '7', '8', '9'];
    assert(digits@ == seq!['0', '1', '2', '3', '4', '5', '6', '7', '8', '9']);
    digits[d]
}

fn push_decimal(n: usize, out: &mut Vec<char>)
    ensures
        final(out)@ == old(out)@ + decimal_of(n as nat),
    decreases n,
{
    if n >= 10 {
        push_decimal(n / 10, out);
    }
    out.push(digit_char_exec(n % 10));
}

/// Appends the decimal text of `n` to `out`.
pub(crate) fn append_decimal(out: &mut Vec<char>, n: usize)
    ensures
        final(out)@ == old(out)@ + decimal_of(n as nat),
{
    push_decimal(n, out);
}

/// The decimal text of `n`.
pub fn format_uint(n: usize) -> (r: String)
    ensures
        r@ == decimal_of(n as nat),
{
    let mut out: Vec<char> = Vec::new();
    push_decimal(n, &mut out);
    assert(out@ == decimal_of(n as nat));
    crate::text::string_of(&out)
}

/// Reads an unsigned number the way `str::parse::<usize>` does: an optional
/// `+`, then decimal digits, with no overflow.
pub fn parse_uint(s: &str) -> (r: Option<usize>)
    ensures
        r.is_some() <==> parses_as_uint(s@),
        r.is_some() ==> r.unwrap() as nat == uint_value(s@),
{
    let cs = chars_of(s);
    let start: usize = if cs.len() > 0 && cs[0] == '+' { 1 } else { 0 };
    let ghost d = unsigned_digits(s@);
    assert(d == cs@.subrange(start as int, cs@.len() as int));
    if start >= cs.len() {
        return None;
    }
    let mut acc: usize = 0;
    let mut i: usize = start;
    while i < cs.len()
        invariant
            start <= i <= cs@.len(),
            cs@ == s@,
            d == unsigned_digits(s@),
            d == cs@.subrange(start as int, cs@.len() as int),
            all_digits(d.subrange(0, i - start)),
            acc as nat == decimal_value(d.subrange(0, i - start)),
        decreases cs@.len() - i,
    {
        let c = cs[i];
        let ghost k = i - start;
        assert(d[k] == c);
        if !('0' <= c && c <= '9') {
            assert(!is_digit(d[k]));
            assert(!all_digits(d));
            assert(!parses_as_uint(s@));
            return None;
        }
        let v: u32 = (c as u32) - ('0' as u32);
        assert(d.subrange(0, k + 1).drop_last() == d.subrange(0, k));
        if acc > (usize::MAX - v as usize) / 10 {
            assert(decimal_value(d.subrange(0, k + 1)) > usize::MAX) by (nonlinear_arith)
                requires
                    decimal_value(d.subrange(0, k + 1)) == acc * 10 + v,
                    acc > (usize::MAX - v) / 10,
                    v <= 9,
            ;
            proof {
                if all_digits(d) {
                    lemma_prefix_value_le(d, k + 1);
                    assert(decimal_value(d) > usize::MAX);
                }
            }
            assert(!parses_as_uint(s@));
            return None;
        }
        acc = acc * 10 + v as usize;
        i = i + 1;
        assert(all_digits(d.subrange(0, i - start))) by {
            let t = d.subrange(0, i - start);
            assert forall|j: int| 0 <= j < t.len() implies is_digit(#[trigger] t[j]) by {
                if j < k {
                    assert(t[j] == d.subrange(0, k)[j]);
                }
            }
        }
    }
    assert(d.subrange(0, cs@.len() - start) == d);
    Some(acc)
}

} // verus!
