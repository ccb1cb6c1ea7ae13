//! Parsing of the prosody values: pitch and rate.
//!
//! Pitch accepts, as given: a number followed by `Hz` (`+10Hz`), a number
//! followed by `%` (`-20%`), a signed number followed by `st` (`+3st`), or one
//! of `default`, `x-low`, `low`, `medium`, `high`, `x-high`.
//!
//! Rate accepts, as given: a number followed by `%`, or one of `default`,
//! `x-slow`, `slow`, `medium`, `fast`, `x-fast`; a number followed by `f` is
//! a raw multiplier and is stored without the `f`.
//!
//! For both, a bare number is a fraction and becomes a percentage with two
//! decimals, truncated: `0.2` gives `20.00%`, `-0.12345` gives `-12.34%`.
use crate::error::ValidationError;
use crate::grammar::{
    digit_run, digit_run_at, frac_digits, int_digits, is_digit, is_number, is_number_at, is_sign,
    lemma_digit_run_facts, unsigned_part,
};
use vstd::prelude::*;
use vstd::string::*;

verus! {

/// `f` followed by zeros, enough to take two or four digits from it.
pub open spec fn pad_frac(f: Seq<char>) -> Seq<char> {
    f + seq!['0', '0', '0', '0']
}

/// `d` without its leading zeros, keeping at least one digit.
pub open spec fn strip_zeros(d: Seq<char>) -> Seq<char>
    decreases d.len(),
{
    if d.len() > 1 && d[0] == '0' {
        strip_zeros(d.drop_first())
    } else {
        d
    }
}

/// The percentage written for a bare number `s`: `s` times 100, with two
/// decimals, truncated, and with the sign kept only when it is `-`.
pub open spec fn percent_text(s: Seq<char>) -> Seq<char> {
    let u = unsigned_part(s);
    let f = pad_frac(frac_digits(u));
    let sign = if s.len() > 0 && s[0] == '-' {
        seq!['-']
    } else {
        Seq::<char>::empty()
    };
    sign + strip_zeros(int_digits(u) + f.take(2)) + seq!['.'] + f.subrange(2, 4) + seq!['%']
}

/// `s` ends with the character `c`, after a number.
pub open spec fn number_then(s: Seq<char>, c: char) -> bool {
    s.len() > 0 && s[s.len() - 1] == c && is_number(s.drop_last())
}

/// `s` ends with the two characters `a` and `b`, after a number.
pub open spec fn number_then2(s: Seq<char>, a: char, b: char) -> bool {
    s.len() > 1 && s[s.len() - 2] == a && s[s.len() - 1] == b && is_number(s.take(s.len() - 2))
}

pub open spec fn is_pitch_preset(s: Seq<char>) -> bool {
    s == "default"@ || s == "x-low"@ || s == "low"@ || s == "medium"@ || s == "high"@ || s
        == "x-high"@
}

pub open spec fn is_rate_preset(s: Seq<char>) -> bool {
    s == "default"@ || s == "x-slow"@ || s == "slow"@ || s == "medium"@ || s == "fast"@ || s
        == "x-fast"@
}

/// A pitch that is stored as it was given.
pub open spec fn is_pitch_verbatim(s: Seq<char>) -> bool {
    is_pitch_preset(s) || number_then2(s, 'H', 'z') || number_then(s, '%') || (number_then2(
        s,
        's',
        't',
    ) && is_sign(s[0]))
}

/// The stored form of a pitch, or `None` where the grammar rejects it.
pub open spec fn pitch_value(s: Seq<char>) -> Option<Seq<char>> {
    if is_pitch_verbatim(s) {
        Some(s)
    } else if is_number(s) {
        Some(percent_text(s))
    } else {
        None
    }
}

/// The stored form of a rate, or `None` where the grammar rejects it.
pub open spec fn rate_value(s: Seq<char>) -> Option<Seq<char>> {
    if is_rate_preset(s) || number_then(s, '%') {
        Some(s)
    } else if number_then(s, 'f') {
        Some(s.drop_last())
    } else if is_number(s) {
        Some(percent_text(s))
    } else {
        None
    }
}

/// A character that may stand at either end of a stored prosody value.
pub open spec fn is_edge_char(c: char) -> bool {
    is_digit(c) || is_sign(c) || c == '%' || ('a' <= c && c <= 'z') || ('A' <= c && c <= 'Z')
}

/// Non-empty, and neither end is whitespace or punctuation other than a sign or `%`.
pub open spec fn is_trimmed(s: Seq<char>) -> bool {
    s.len() > 0 && is_edge_char(s[0]) && is_edge_char(s[s.len() - 1])
}

pub proof fn lemma_number_edges(s: Seq<char>)
    requires
        is_number(s),
    ensures
        s.len() > 0,
        is_digit(s[0]) || is_sign(s[0]),
        is_digit(s[s.len() - 1]),
{
    let u = unsigned_part(s);
    lemma_digit_run_facts(u);
    let k = digit_run(u) as int;
    if k < u.len() {
        let v = u.skip(k + 1);
        assert(is_digit(v[v.len() - 1]));
        assert(v[v.len() - 1] == u[u.len() - 1]);
    }
    assert(is_digit(u[0]));
    if s.len() > 0 && is_sign(s[0]) {
        assert(u[u.len() - 1] == s[s.len() - 1]);
    }
}

pub proof fn lemma_strip_zeros(d: Seq<char>, z: int)
    requires
        0 <= z < d.len(),
        forall|j: int| 0 <= j < z ==> #[trigger] d[j] == '0',
        z + 1 == d.len() || d[z] != '0',
    ensures
        strip_zeros(d) == d.skip(z),
    decreases z,
{
    if z > 0 {
        let t = d.drop_first();
        assert forall|j: int| 0 <= j < z - 1 implies #[trigger] t[j] == '0' by {
            assert(t[j] == d[j + 1]);
        }
        assert(t[z - 1] == d[z]);
        lemma_strip_zeros(t, z - 1);
        assert(d[0] == '0');
        assert(t.skip(z - 1) =~= d.skip(z));
    } else {
        assert(d.skip(0) =~= d);
    }
}

proof fn lemma_percent_trimmed(s: Seq<char>)
    requires
        is_number(s),
    ensures
        is_trimmed(percent_text(s)),
{
    let u = unsigned_part(s);
    lemma_digit_run_facts(u);
    let d = int_digits(u) + pad_frac(frac_digits(u)).take(2);
    assert(is_digit(d[0]));
    assert(d.len() > 1);
    lemma_strip_nonempty_digit(d);
}

proof fn lemma_strip_nonempty_digit(d: Seq<char>)
    requires
        d.len() > 0,
        forall|j: int| 0 <= j < d.len() ==> is_digit(#[trigger] d[j]),
    ensures
        strip_zeros(d).len() > 0,
        is_digit(strip_zeros(d)[0]),
    decreases d.len(),
{
    if d.len() > 1 && d[0] == '0' {
        let t = d.drop_first();
        assert forall|j: int| 0 <= j < t.len() implies is_digit(#[trigger] t[j]) by {
            assert(t[j] == d[j + 1]);
        }
        lemma_strip_nonempty_digit(t);
    }
}

/// Whether `a` and `b` hold the same characters.
pub fn str_eq(a: &str, b: &str) -> (r: bool)
    ensures
        r == (a@ == b@),
{
    let n = a.unicode_len();
    if n != b.unicode_len() {
        return false;
    }
    let mut i: usize = 0;
    while i < n
        invariant
            n == a@.len() == b@.len(),
            i <= n,
            forall|j: int| 0 <= j < i ==> a@[j] == b@[j],
        decreases n - i,
    {
        if a.get_char(i) != b.get_char(i) {
            return false;
        }
        i = i + 1;
    }
    assert(a@ =~= b@);
    true
}

/// The `j`-th character of the fraction digits in `s[lo..hi]`, padded with zeros.
fn padded_digit(s: &str, lo: usize, hi: usize, j: usize) -> (r: &str)
    requires
        lo <= hi <= s@.len(),
        j < 4,
    ensures
        r@ == seq![pad_frac(s@.subrange(lo as int, hi as int))[j as int]],
{
    let ghost f = s@.subrange(lo as int, hi as int);
    if j < hi - lo {
        let r = s.substring_char(lo + j, lo + j + 1);
        assert(r@ =~= seq![pad_frac(f)[j as int]]);
        r
    } else {
        proof {
            reveal_strlit("0");
        }
        assert("0"@ =~= seq![pad_frac(f)[j as int]]);
        "0"
    }
}

/// The percentage that a bare number stands for.
fn percent_of(s: &str) -> (r: String)
    requires
        is_number(s@),
    ensures
        r@ == percent_text(s@),
{
    let n = s.unicode_len();
    let mut start: usize = 0;
    let mut neg = false;
    if n > 0 {
        let c = s.get_char(0);
        if c == '+' || c == '-' {
            start = 1;
            neg = c == '-';
        }
    }
    let ghost u = unsigned_part(s@);
    assert(u =~= s@.subrange(start as int, n as int));
    let k = digit_run_at(s, start, n);
    let fstart = if k < n {
        k + 1
    } else {
        n
    };
    let ghost f = pad_frac(frac_digits(u));
    assert(s@.subrange(fstart as int, n as int) =~= frac_digits(u));
    let mut d = String::new();
    d.append(s.substring_char(start, k));
    assert(d@ =~= int_digits(u));
    d.append(padded_digit(s, fstart, n, 0));
    d.append(padded_digit(s, fstart, n, 1));
    assert(d@ =~= int_digits(u) + f.take(2));
    let dl = d.as_str().unicode_len();
    let mut z: usize = 0;
    while z + 1 < dl && d.as_str().get_char(z) == '0'
        invariant
            dl == d@.len() >= 2,
            z < dl,
            forall|j: int| 0 <= j < z ==> #[trigger] d@[j] == '0',
        decreases dl - z,
    {
        z = z + 1;
    }
    proof {
        lemma_strip_zeros(d@, z as int);
    }
    let mut r = String::new();
    if neg {
        r.append("-");
        proof {
            reveal_strlit("-");
        }
    }
    r.append(d.as_str().substring_char(z, dl));
    r.append(".");
    r.append(padded_digit(s, fstart, n, 2));
    r.append(padded_digit(s, fstart, n, 3));
    r.append("%");
    proof {
        reveal_strlit(".");
        reveal_strlit("%");
        assert(f.subrange(2, 4) =~= seq![f[2], f[3]]);
        if neg {
            assert(s@[0] == '-');
        } else {
            assert(!(s@.len() > 0 && s@[0] == '-'));
        }
    }
    assert(r@ =~= percent_text(s@));
    r
}

/// Whether `s` ends with `c` after a number.
fn number_then_exec(s: &str, n: usize, c: char) -> (r: bool)
    requires
        n == s@.len(),
    ensures
        r == number_then(s@, c),
{
    if n == 0 || s.get_char(n - 1) != c {
        return false;
    }
    assert(s@.drop_last() =~= s@.subrange(0, n - 1));
    is_number_at(s, 0, n - 1)
}

/// Whether `s` ends with `a` and `b` after a number.
fn number_then2_exec(s: &str, n: usize, a: char, b: char) -> (r: bool)
    requires
        n == s@.len(),
    ensures
        r == number_then2(s@, a, b),
{
    if n < 2 || s.get_char(n - 2) != a || s.get_char(n - 1) != b {
        return false;
    }
    assert(s@.take(n - 2) =~= s@.subrange(0, n - 2));
    is_number_at(s, 0, n - 2)
}

/// Parses a pitch into the form that the document carries.
pub fn parse_pitch(s: &str) -> (r: Result<String, ValidationError>)
    ensures
        match pitch_value(s@) {
            Some(v) => r matches Ok(p) && p@ == v,
            None => r matches Err(ValidationError::InvalidPitch(t)) && t@ == s@,
        },
        r matches Ok(p) ==> is_trimmed(p@),
{
    proof {
        law_prosody_trimmed(s@);
    }
    let n = s.unicode_len();
    let verbatim = str_eq(s, "default") || str_eq(s, "x-low") || str_eq(s, "low") || str_eq(
        s,
        "medium",
    ) || str_eq(s, "high") || str_eq(s, "x-high") || number_then2_exec(s, n, 'H', 'z')
        || number_then_exec(s, n, '%') || (number_then2_exec(s, n, 's', 't') && (s.get_char(0)
        == '+' || s.get_char(0) == '-'));
    if verbatim {
        Ok(String::from_str(s))
    } else if is_number_at(s, 0, n) {
        assert(s@.subrange(0, n as int) =~= s@);
        Ok(percent_of(s))
    } else {
        assert(s@.subrange(0, n as int) =~= s@);
        Err(ValidationError::InvalidPitch(String::from_str(s)))
    }
}

/// Parses a rate into the form that the document carries.
pub fn parse_rate(s: &str) -> (r: Result<String, ValidationError>)
    ensures
        match rate_value(s@) {
            Some(v) => r matches Ok(p) && p@ == v,
            None => r matches Err(ValidationError::InvalidRate(t)) && t@ == s@,
        },
        r matches Ok(p) ==> is_trimmed(p@),
{
    proof {
        law_prosody_trimmed(s@);
    }
    let n = s.unicode_len();
    let verbatim = str_eq(s, "default") || str_eq(s, "x-slow") || str_eq(s, "slow") || str_eq(
        s,
        "medium",
    ) || str_eq(s, "fast") || str_eq(s, "x-fast") || number_then_exec(s, n, '%');
    if verbatim {
        Ok(String::from_str(s))
    } else if number_then_exec(s, n, 'f') {
        Ok(String::from_str(s.substring_char(0, n - 1)))
    } else if is_number_at(s, 0, n) {
        assert(s@.subrange(0, n as int) =~= s@);
        Ok(percent_of(s))
    } else {
        assert(s@.subrange(0, n as int) =~= s@);
        Err(ValidationError::InvalidRate(String::from_str(s)))
    }
}

/// Every pitch and every rate that the grammar accepts is stored in a form
/// that is non-empty and has no whitespace at either end.
pub proof fn law_prosody_trimmed(s: Seq<char>)
    ensures
        pitch_value(s) matches Some(p) ==> is_trimmed(p),
        rate_value(s) matches Some(p) ==> is_trimmed(p),
{
    if is_pitch_verbatim(s) {
        lemma_pitch_verbatim_trimmed(s);
    }
    if is_rate_preset(s) || number_then(s, '%') {
        lemma_rate_verbatim_trimmed(s);
    } else if number_then(s, 'f') {
        lemma_number_edges(s.drop_last());
    }
    if is_number(s) {
        lemma_percent_trimmed(s);
    }
}

proof fn lemma_pitch_verbatim_trimmed(s: Seq<char>)
    requires
        is_pitch_verbatim(s),
    ensures
        is_trimmed(s),
{
    reveal_strlit("default");
    reveal_strlit("x-low");
    reveal_strlit("low");
    reveal_strlit("medium");
    reveal_strlit("high");
    reveal_strlit("x-high");
    if number_then2(s, 'H', 'z') || number_then2(s, 's', 't') {
        lemma_number_edges(s.take(s.len() - 2));
    } else if number_then(s, '%') {
        lemma_number_edges(s.drop_last());
    }
}

proof fn lemma_rate_verbatim_trimmed(s: Seq<char>)
    requires
        is_rate_preset(s) || number_then(s, '%'),
    ensures
        is_trimmed(s),
{
    reveal_strlit("default");
    reveal_strlit("x-slow");
    reveal_strlit("slow");
    reveal_strlit("medium");
    reveal_strlit("fast");
    reveal_strlit("x-fast");
    if number_then(s, '%') {
        lemma_number_edges(s.drop_last());
    }
}

} // verus!
