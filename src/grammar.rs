//! The decimal-number grammar shared by the prosody values and the style degree.
//!
//! A number is an optional sign, a run of decimal digits, and optionally a
//! point followed by another run of digits: `12`, `-0.5`, `+3.25`.
use vstd::prelude::*;

verus! {

/// Whether `c` is an ASCII decimal digit.
pub open spec fn is_digit(c: char) -> bool {
    '0' <= c && c <= '9'
}

/// Whether `c` is a sign character.
pub open spec fn is_sign(c: char) -> bool {
    c == '+' || c == '-'
}

/// A non-empty run made of digits only.
pub open spec fn all_digits(s: Seq<char>) -> bool {
    s.len() > 0 && forall|i: int| 0 <= i < s.len() ==> is_digit(#[trigger] s[i])
}

/// The length of the run of digits that `s` starts with.
pub open spec fn digit_run(s: Seq<char>) -> nat
    decreases s.len(),
{
    if s.len() > 0 && is_digit(s[0]) {
        1 + digit_run(s.drop_first())
    } else {
        0
    }
}

/// Digits, optionally followed by a point and more digits.
pub open spec fn is_unsigned_number(u: Seq<char>) -> bool {
    let k = digit_run(u) as int;
    k > 0 && (k == u.len() || (u[k] == '.' && all_digits(u.skip(k + 1))))
}

/// `s` without its leading sign, if it has one.
pub open spec fn unsigned_part(s: Seq<char>) -> Seq<char> {
    if s.len() > 0 && is_sign(s[0]) {
        s.drop_first()
    } else {
        s
    }
}

/// Whether `s` is a number of the grammar: an optional sign and an unsigned number.
pub open spec fn is_number(s: Seq<char>) -> bool {
    is_unsigned_number(unsigned_part(s))
}

/// The digits before the point of an unsigned number.
pub open spec fn int_digits(u: Seq<char>) -> Seq<char> {
    u.take(digit_run(u) as int)
}

/// The digits after the point of an unsigned number (none if it has no point).
pub open spec fn frac_digits(u: Seq<char>) -> Seq<char> {
    let k = digit_run(u) as int;
    if k < u.len() {
        u.skip(k + 1)
    } else {
        Seq::empty()
    }
}

pub proof fn lemma_digit_run_facts(s: Seq<char>)
    ensures
        digit_run(s) <= s.len(),
        forall|j: int| 0 <= j < digit_run(s) ==> is_digit(#[trigger] s[j]),
        digit_run(s) < s.len() ==> !is_digit(s[digit_run(s) as int]),
    decreases s.len(),
{
    if s.len() > 0 && is_digit(s[0]) {
        lemma_digit_run_facts(s.drop_first());
        assert forall|j: int| 0 <= j < digit_run(s) implies is_digit(#[trigger] s[j]) by {
            if j > 0 {
                assert(s[j] == s.drop_first()[j - 1]);
            }
        }
    }
}

pub proof fn lemma_digit_run_exact(s: Seq<char>, k: int)
    requires
        0 <= k <= s.len(),
        forall|j: int| 0 <= j < k ==> is_digit(#[trigger] s[j]),
        k == s.len() || !is_digit(s[k]),
    ensures
        digit_run(s) == k,
    decreases k,
{
    if k > 0 {
        let t = s.drop_first();
        assert forall|j: int| 0 <= j < k - 1 implies is_digit(#[trigger] t[j]) by {
            assert(t[j] == s[j + 1]);
        }
        if k - 1 < t.len() {
            assert(t[k - 1] == s[k]);
        }
        lemma_digit_run_exact(t, k - 1);
        assert(is_digit(s[0]));
    } else {
        if s.len() > 0 {
            assert(!is_digit(s[0]));
        }
    }
}

pub proof fn lemma_all_digits_run(s: Seq<char>)
    ensures
        all_digits(s) <==> (s.len() > 0 && digit_run(s) == s.len()),
{
    lemma_digit_run_facts(s);
    if all_digits(s) {
        lemma_digit_run_exact(s, s.len() as int);
    }
}

/// Exec test for a digit character.
pub fn is_digit_char(c: char) -> (r: bool)
    ensures
        r == is_digit(c),
{
    '0' <= c && c <= '9'
}

/// The end of the run of digits that starts at `lo`, looking no further than `hi`.
pub fn digit_run_at(s: &str, lo: usize, hi: usize) -> (k: usize)
    requires
        lo <= hi <= s@.len(),
    ensures
        lo <= k <= hi,
        k - lo == digit_run(s@.subrange(lo as int, hi as int)),
{
    let ghost u = s@.subrange(lo as int, hi as int);
    let mut i: usize = lo;
    while i < hi && is_digit_char(s.get_char(i))
        invariant
            lo <= i <= hi <= s@.len(),
            u == s@.subrange(lo as int, hi as int),
            forall|j: int| 0 <= j < i - lo ==> is_digit(#[trigger] u[j]),
        decreases hi - i,
    {
        i = i + 1;
    }
    proof {
        lemma_digit_run_exact(u, i - lo);
    }
    i
}

/// Whether the characters of `s` in `lo..hi` form an unsigned number.
pub fn is_unsigned_at(s: &str, lo: usize, hi: usize) -> (r: bool)
    requires
        lo <= hi <= s@.len(),
    ensures
        r == is_unsigned_number(s@.subrange(lo as int, hi as int)),
{
    let ghost u = s@.subrange(lo as int, hi as int);
    let k = digit_run_at(s, lo, hi);
    if k == lo {
        return false;
    }
    if k == hi {
        return true;
    }
    if s.get_char(k) != '.' {
        assert(u[k - lo] == s@[k as int]);
        return false;
    }
    assert(u[k - lo] == s@[k as int]);
    let e = digit_run_at(s, k + 1, hi);
    proof {
        let v = u.skip(k - lo + 1);
        assert(v =~= s@.subrange(k + 1, hi as int));
        lemma_all_digits_run(v);
    }
    e == hi && e > k + 1
}

/// Whether the characters of `s` in `lo..hi` form a number of the grammar.
pub fn is_number_at(s: &str, lo: usize, hi: usize) -> (r: bool)
    requires
        lo <= hi <= s@.len(),
    ensures
        r == is_number(s@.subrange(lo as int, hi as int)),
{
    let ghost t = s@.subrange(lo as int, hi as int);
    let mut start: usize = lo;
    if lo < hi {
        let c = s.get_char(lo);
        if c == '+' || c == '-' {
            start = lo + 1;
        }
        assert(t[0] == c);
    }
    assert(unsigned_part(t) =~= s@.subrange(start as int, hi as int));
    is_unsigned_at(s, start, hi)
}

} // verus!
