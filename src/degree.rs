//! The style degree: an exact decimal number, `mantissa / 10^scale`, with a sign.
use crate::grammar::{
    digit_run, digit_run_at, frac_digits, int_digits, is_digit, is_number, is_number_at,
    lemma_digit_run_facts, unsigned_part,
};
use vstd::prelude::*;
use vstd::string::*;

verus! {

/// A decimal number: `-mantissa / 10^scale` when `negative`, else `mantissa / 10^scale`.
#[derive(Clone, Copy, Debug)]
pub struct StyleDegree {
    pub negative: bool,
    pub mantissa: u64,
    pub scale: u32,
}

pub open spec fn pow10(n: nat) -> nat
    decreases n,
{
    if n == 0 {
        1
    } else {
        10 * pow10((n - 1) as nat)
    }
}

/// `0.01 <= d <= 2`, written over the integers: `100 * m >= 10^scale` and `m <= 2 * 10^scale`.
pub open spec fn degree_in_range(d: StyleDegree) -> bool {
    &&& !d.negative
    &&& d.mantissa * 100 >= pow10(d.scale as nat)
    &&& d.mantissa <= 2 * pow10(d.scale as nat)
}

pub open spec fn digit_char(d: nat) -> char {
    if d == 0 {
        '0'
    } else if d == 1 {
        '1'
    } else if d == 2 {
        '2'
    } else if d == 3 {
        '3'
    } else if d == 4 {
        '4'
    } else if d == 5 {
        '5'
    } else if d == 6 {
        '6'
    } else if d == 7 {
        '7'
    } else if d == 8 {
        '8'
    } else {
        '9'
    }
}

/// The decimal digits of `n`, without leading zeros.
pub open spec fn nat_text(n: nat) -> Seq<char>
    decreases n,
{
    if n < 10 {
        seq![digit_char(n)]
    } else {
        nat_text(n / 10).push(digit_char(n % 10))
    }
}

pub open spec fn zeros(n: nat) -> Seq<char> {
    Seq::new(n, |i: int| '0')
}

/// The digits of the mantissa, with zeros in front so that one stands before the point.
pub open spec fn degree_digits(d: StyleDegree) -> Seq<char> {
    let t = nat_text(d.mantissa as nat);
    if t.len() <= d.scale {
        zeros((d.scale + 1 - t.len()) as nat) + t
    } else {
        t
    }
}

/// The decimal text of a style degree: `2`, `1.5`, `0.01`, `-0.5`.
pub open spec fn degree_text(d: StyleDegree) -> Seq<char> {
    let p = degree_digits(d);
    let sign = if d.negative {
        seq!['-']
    } else {
        Seq::<char>::empty()
    };
    if d.scale == 0 {
        sign + p
    } else {
        sign + p.take(p.len() - d.scale) + seq!['.'] + p.skip(p.len() - d.scale)
    }
}

/// The value of a digit character.
pub open spec fn digit_value(c: char) -> int {
    if c == '1' {
        1
    } else if c == '2' {
        2
    } else if c == '3' {
        3
    } else if c == '4' {
        4
    } else if c == '5' {
        5
    } else if c == '6' {
        6
    } else if c == '7' {
        7
    } else if c == '8' {
        8
    } else if c == '9' {
        9
    } else {
        0
    }
}

fn digit_of(c: char) -> (r: u64)
    ensures
        r == digit_value(c),
        r < 10,
{
    if c == '1' {
        1
    } else if c == '2' {
        2
    } else if c == '3' {
        3
    } else if c == '4' {
        4
    } else if c == '5' {
        5
    } else if c == '6' {
        6
    } else if c == '7' {
        7
    } else if c == '8' {
        8
    } else if c == '9' {
        9
    } else {
        0
    }
}

/// The value of the digits of `s` in `start..k` followed by those in
/// `fstart..n`, or `None` where it does not fit in a `u64`.
fn digits_at(s: &str, start: usize, k: usize, fstart: usize, n: usize) -> (r: Option<u64>)
    requires
        start <= k <= fstart <= n == s@.len(),
        forall|i: int| start <= i < k ==> is_digit(#[trigger] s@[i]),
        forall|i: int| fstart <= i < n ==> is_digit(#[trigger] s@[i]),
    ensures
        ({
            let d = s@.subrange(start as int, k as int) + s@.subrange(fstart as int, n as int);
            match r {
                Some(m) => m == digits_value(d),
                None => digits_value(d) > u64::MAX,
            }
        }),
{
    let ghost d = s@.subrange(start as int, k as int) + s@.subrange(fstart as int, n as int);
    let il = k - start;
    let total = il + (n - fstart);
    assert forall|i: int| 0 <= i < d.len() implies is_digit(#[trigger] d[i]) by {
        if i < il {
            assert(d[i] == s@[start + i]);
        } else {
            assert(d[i] == s@[fstart + i - il]);
        }
    }
    let mut m: u64 = 0;
    let mut j: usize = 0;
    while j < total
        invariant
            d == s@.subrange(start as int, k as int) + s@.subrange(fstart as int, n as int),
            start <= k <= fstart <= n == s@.len(),
            d.len() == total,
            il == k - start,
            total == il + (n - fstart),
            j <= total,
            forall|i: int| 0 <= i < d.len() ==> is_digit(#[trigger] d[i]),
            m == digits_value(d.take(j as int)),
        decreases total - j,
    {
        let ch = if j < il {
            s.get_char(start + j)
        } else {
            s.get_char(fstart + (j - il))
        };
        assert(ch == d[j as int]);
        let dv = digit_of(ch);
        assert(d.take(j + 1).drop_last() =~= d.take(j as int));
        assert(d.take(j + 1).last() == ch);
        if m > (18446744073709551615u64 - dv) / 10 {
            proof {
                lemma_digits_value_mono(d, j + 1, d.len() as int);
                assert(d.take(d.len() as int) =~= d);
            }
            return None;
        }
        m = m * 10 + dv;
        j = j + 1;
    }
    assert(d.take(total as int) =~= d);
    Some(m)
}

/// The value of a run of digits, read in base ten.
pub open spec fn digits_value(s: Seq<char>) -> int
    decreases s.len(),
{
    if s.len() == 0 {
        0
    } else {
        digits_value(s.drop_last()) * 10 + digit_value(s.last())
    }
}

/// The style degree that the decimal text `s` stands for: its digits, read
/// without the point, over ten to the number of digits after the point.
/// `None` where `s` is not a number or its digits do not fit.
pub open spec fn parsed_degree(s: Seq<char>) -> Option<StyleDegree> {
    let u = unsigned_part(s);
    let m = digits_value(int_digits(u) + frac_digits(u));
    if is_number(s) && m <= u64::MAX && frac_digits(u).len() <= u32::MAX {
        Some(
            StyleDegree {
                negative: s[0] == '-',
                mantissa: m as u64,
                scale: frac_digits(u).len() as u32,
            },
        )
    } else {
        None
    }
}

proof fn lemma_digits_value_mono(d: Seq<char>, a: int, b: int)
    requires
        0 <= a <= b <= d.len(),
        forall|i: int| 0 <= i < d.len() ==> is_digit(#[trigger] d[i]),
    ensures
        0 <= digits_value(d.take(a)) <= digits_value(d.take(b)),
    decreases b,
{
    if b > 0 {
        assert(d.take(b).drop_last() =~= d.take(b - 1));
        assert(d.take(b).last() == d[b - 1]);
        if a < b {
            lemma_digits_value_mono(d, a, b - 1);
        } else {
            lemma_digits_value_mono(d, b - 1, b - 1);
        }
    } else {
        assert(d.take(0) =~= Seq::<char>::empty());
    }
}

pub proof fn lemma_pow10_mono(a: nat, b: nat)
    requires
        a <= b,
    ensures
        pow10(a) <= pow10(b),
    decreases b,
{
    if a < b {
        lemma_pow10_mono(a, (b - 1) as nat);
    }
}

pub proof fn lemma_nat_text_len(n: nat)
    ensures
        nat_text(n).len() >= 1,
    decreases n,
{
    if n >= 10 {
        lemma_nat_text_len(n / 10);
    }
}

/// A one-character string holding the digit `d`.
fn digit_str(d: u64) -> (r: &'static str)
    requires
        d < 10,
    ensures
        r@ == seq![digit_char(d as nat)],
{
    proof {
        reveal_strlit("0");
        reveal_strlit("1");
        reveal_strlit("2");
        reveal_strlit("3");
        reveal_strlit("4");
        reveal_strlit("5");
        reveal_strlit("6");
        reveal_strlit("7");
        reveal_strlit("8");
        reveal_strlit("9");
    }
    let r = if d == 0 {
        "0"
    } else if d == 1 {
        "1"
    } else if d == 2 {
        "2"
    } else if d == 3 {
        "3"
    } else if d == 4 {
        "4"
    } else if d == 5 {
        "5"
    } else if d == 6 {
        "6"
    } else if d == 7 {
        "7"
    } else if d == 8 {
        "8"
    } else {
        "9"
    };
    assert(r@ =~= seq![digit_char(d as nat)]);
    r
}

/// The decimal digits of `n`.
fn u64_text(n: u64) -> (r: String)
    ensures
        r@ == nat_text(n as nat),
    decreases n,
{
    if n < 10 {
        String::from_str(digit_str(n))
    } else {
        let mut r = u64_text(n / 10);
        r.append(digit_str(n % 10));
        r
    }
}

impl StyleDegree {
    /// The number `mantissa / 10^scale` (negated when `negative`).
    pub fn new(negative: bool, mantissa: u64, scale: u32) -> (r: StyleDegree)
        ensures
            r == (StyleDegree { negative, mantissa, scale }),
    {
        StyleDegree { negative, mantissa, scale }
    }

    /// Reads a decimal number such as `1.5`, `-0.25` or `2`; see `parsed_degree`.
    pub fn parse(s: &str) -> (r: Option<StyleDegree>)
        ensures
            r == parsed_degree(s@),
    {
        let n = s.unicode_len();
        if !is_number_at(s, 0, n) {
            assert(s@.subrange(0, n as int) =~= s@);
            return None;
        }
        assert(s@.subrange(0, n as int) =~= s@);
        let mut start: usize = 0;
        let mut neg = false;
        let c = s.get_char(0);
        if c == '+' || c == '-' {
            start = 1;
            neg = c == '-';
        }
        let ghost u = unsigned_part(s@);
        assert(u =~= s@.subrange(start as int, n as int));
        let k = digit_run_at(s, start, n);
        let fstart = if k < n {
            k + 1
        } else {
            n
        };
        assert(s@.subrange(fstart as int, n as int) =~= frac_digits(u));
        assert(s@.subrange(start as int, k as int) =~= int_digits(u));
        if n - fstart > 4294967295 {
            return None;
        }
        proof {
            lemma_digit_run_facts(u);
            let f = frac_digits(u);
            assert forall|i: int| start <= i < k implies is_digit(#[trigger] s@[i]) by {
                assert(s@[i] == u[i - start]);
            }
            assert forall|i: int| fstart <= i < n implies is_digit(#[trigger] s@[i]) by {
                assert(s@[i] == f[i - fstart]);
            }
        }
        let m = match digits_at(s, start, k, fstart, n) {
            Some(m) => m,
            None => return None,
        };
        Some(StyleDegree::new(neg, m, (n - fstart) as u32))
    }

    /// The decimal text of the number.
    pub fn to_text(&self) -> (r: String)
        ensures
            r@ == degree_text(*self),
    {
        let t = u64_text(self.mantissa);
        proof {
            lemma_nat_text_len(self.mantissa as nat);
        }
        let tl = t.as_str().unicode_len();
        let mut p = String::new();
        if tl <= self.scale as usize {
            let pad: usize = self.scale as usize - tl + 1;
            let mut i: usize = 0;
            while i < pad
                invariant
                    i <= pad,
                    p@ == zeros(i as nat),
                decreases pad - i,
            {
                p.append("0");
                proof {
                    reveal_strlit("0");
                }
                assert(p@ =~= zeros((i + 1) as nat));
                i = i + 1;
            }
        }
        p.append(t.as_str());
        assert(p@ =~= degree_digits(*self));
        let mut r = String::new();
        if self.negative {
            r.append("-");
            proof {
                reveal_strlit("-");
            }
        }
        if self.scale == 0 {
            r.append(p.as_str());
        } else {
            let pl = p.as_str().unicode_len();
            let cut = pl - self.scale as usize;
            r.append(p.as_str().substring_char(0, cut));
            r.append(".");
            r.append(p.as_str().substring_char(cut, pl));
            proof {
                reveal_strlit(".");
            }
        }
        assert(r@ =~= degree_text(*self));
        r
    }
}

/// Whether a style degree lies in `[0.01, 2]`, both ends included.
pub fn validate_style_degree(d: StyleDegree) -> (r: bool)
    ensures
        r == degree_in_range(d),
{
    if d.negative {
        return false;
    }
    let m = d.mantissa as u128;
    if d.scale > 21 {
        proof {
            lemma_pow10_mono(22, d.scale as nat);
            reveal_with_fuel(pow10, 23);
        }
        return false;
    }
    let mut p: u128 = 1;
    let mut i: u32 = 0;
    while i < d.scale
        invariant
            i <= d.scale <= 21,
            p == pow10(i as nat),
            p <= 1000000000000000000000u128,
        decreases d.scale - i,
    {
        proof {
            lemma_pow10_mono((i + 1) as nat, 21);
            reveal_with_fuel(pow10, 22);
        }
        p = p * 10;
        i = i + 1;
    }
    m * 100 >= p && m <= 2 * p
}

} // verus!
