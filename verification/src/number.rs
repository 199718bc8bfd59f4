//! Numbers written in text.
use vstd::prelude::*;

use crate::text::chars_of;

verus! {

/// The digit that stands for `d`.
pub open spec fn digit_char(d: nat) -> char {
    (48 + d) as char
}

/// `n` in decimal, without leading zeros.
pub open spec fn decimal(n: nat) -> Seq<char>
    decreases n,
{
    if n < 10 {
        seq![digit_char(n)]
    } else {
        decimal(n / 10).push(digit_char(n % 10))
    }
}

/// `n` in decimal, with a minus sign when it is negative.
pub open spec fn signed_decimal(n: int) -> Seq<char> {
    if n < 0 {
        "-"@ + decimal((-n) as nat)
    } else {
        decimal(n as nat)
    }
}

/// `c` is an ASCII digit below `radix`.
pub open spec fn is_digit(c: char, radix: nat) -> bool {
    '0' <= c <= '9' && (c as nat - 48) < radix
}

/// `s` holds nothing but digits below `radix`.
pub open spec fn all_digits(s: Seq<char>, radix: nat) -> bool {
    forall|i: int| 0 <= i < s.len() ==> is_digit(#[trigger] s[i], radix)
}

/// The number that the digits of `s` stand for.
pub open spec fn number(s: Seq<char>, radix: nat) -> nat
    decreases s.len(),
{
    if s.len() == 0 {
        0
    } else {
        number(s.drop_last(), radix) * radix + (s.last() as nat - 48) as nat
    }
}

/// What is left of `s` after one leading plus sign.
pub open spec fn unsigned_part(s: Seq<char>) -> Seq<char> {
    if s.len() > 0 && s[0] == '+' {
        s.skip(1)
    } else {
        s
    }
}

/// The number that `s` stands for: at least one digit, with or without a plus
/// sign before the digits, and at most `max`.
pub open spec fn parsed(s: Seq<char>, radix: nat, max: nat) -> Option<nat> {
    let d = unsigned_part(s);
    if d.len() > 0 && all_digits(d, radix) && number(d, radix) <= max {
        Some(number(d, radix))
    } else {
        None
    }
}

proof fn lemma_number_grows(s: Seq<char>, n: int, radix: nat)
    requires
        0 <= n <= s.len(),
        radix >= 1,
    ensures
        number(s.take(n), radix) <= number(s, radix),
    decreases s.len() - n,
{
    if n == s.len() {
        assert(s.take(n) =~= s);
    } else {
        lemma_number_grows(s, n + 1, radix);
        assert(s.take(n + 1).drop_last() =~= s.take(n));
        let a = number(s.take(n), radix);
        assert(a * radix >= a) by (nonlinear_arith)
            requires
                radix >= 1,
        ;
    }
}

/// Reading the decimal form of a number gives the number back.
pub proof fn lemma_decimal_reads_back(n: nat)
    ensures
        decimal(n).len() > 0,
        all_digits(decimal(n), 10),
        number(decimal(n), 10) == n,
        forall|max: nat| n <= max ==> #[trigger] parsed(decimal(n), 10, max) == Some(n),
    decreases n,
{
    if n >= 10 {
        lemma_decimal_reads_back(n / 10);
        assert(decimal(n).drop_last() =~= decimal(n / 10));
        assert(decimal(n).last() == digit_char(n % 10));
    } else {
        assert(decimal(n).drop_last() =~= Seq::empty());
        assert(decimal(n).last() == digit_char(n));
        assert(number(Seq::<char>::empty(), 10) == 0);
    }
    assert(is_digit(decimal(n)[0], 10));
    assert(unsigned_part(decimal(n)) == decimal(n));
}

/// `n` in decimal.
pub fn decimal_of(n: u64) -> (r: String)
    ensures
        r@ == decimal(n as nat),
    decreases n,
{
    let d: u8 = (n % 10) as u8;
    let c = (48u8 + d) as char;
    if n < 10 {
        let mut s = String::new();
        s.push(c);
        assert(s@ =~= seq![digit_char(n as nat)]);
        s
    } else {
        let mut s = decimal_of(n / 10);
        s.push(c);
        s
    }
}

/// `n` in decimal.
pub fn decimal_of_usize(n: usize) -> (r: String)
    ensures
        r@ == decimal(n as nat),
{
    decimal_of(n as u64)
}

/// `n` in decimal, with a minus sign when it is negative.
pub fn decimal_of_signed(n: i64) -> (r: String)
    ensures
        r@ == signed_decimal(n as int),
{
    if n < 0 {
        let magnitude: u64 = (-(n + 1)) as u64 + 1;
        let mut s = "-".to_owned();
        let d = decimal_of(magnitude);
        s.append(d.as_str());
        s
    } else {
        decimal_of(n as u64)
    }
}

/// Reads a number in the given radix.
fn parse_number(s: &str, radix: u64, max: u64) -> (r: Option<u64>)
    requires
        1 <= radix <= 10,
    ensures
        match r {
            Some(n) => parsed(s@, radix as nat, max as nat) == Some(n as nat),
            None => parsed(s@, radix as nat, max as nat) is None,
        },
{
    let cs = chars_of(s);
    let start: usize = if cs.len() > 0 && cs[0] == '+' {
        1
    } else {
        0
    };
    let ghost d = unsigned_part(s@);
    assert(d =~= cs@.skip(start as int));
    if start == cs.len() {
        return None;
    }
    let mut i: usize = start;
    let mut value: u64 = 0;
    while i < cs.len()
        invariant
            1 <= radix <= 10,
            start <= i <= cs@.len(),
            d == cs@.skip(start as int),
            d == unsigned_part(s@),
            all_digits(d.take(i - start), radix as nat),
            value <= max,
            value == number(d.take(i - start), radix as nat),
        decreases cs@.len() - i,
    {
        let c = cs[i];
        let ghost next = d.take(i - start + 1);
        proof {
            assert(next.drop_last() =~= d.take(i - start));
            assert(next.last() == d[i - start]);
        }
        if !('0' <= c && c <= '9') {
            assert(!is_digit(d[i - start], radix as nat));
            return None;
        }
        let v: u64 = (c as u8 - 48u8) as u64;
        if v >= radix {
            assert(!is_digit(d[i - start], radix as nat));
            return None;
        }
        assert(value as int * radix as int <= u64::MAX as int * 10) by (nonlinear_arith)
            requires
                value <= u64::MAX,
                radix <= 10,
        ;
        let wide: u128 = value as u128 * radix as u128 + v as u128;
        if wide > max as u128 {
            proof {
                lemma_number_grows(d, i - start + 1, radix as nat);
            }
            return None;
        }
        value = wide as u64;
        proof {
            assert forall|j: int| 0 <= j < next.len() implies is_digit(
                #[trigger] next[j],
                radix as nat,
            ) by {
                if j < i - start {
                    assert(next[j] == d.take(i - start)[j]);
                }
            }
        }
        i = i + 1;
    }
    assert(d.take(i - start) =~= d);
    Some(value)
}

/// Reads a `usize` in decimal.
pub fn parse_usize(s: &str) -> (r: Option<usize>)
    ensures
        match r {
            Some(n) => parsed(s@, 10, usize::MAX as nat) == Some(n as nat),
            None => parsed(s@, 10, usize::MAX as nat) is None,
        },
{
    match parse_number(s, 10, usize::MAX as u64) {
        Some(n) => Some(n as usize),
        None => None,
    }
}

/// Reads a `u32` in decimal.
pub fn parse_u32(s: &str) -> (r: Option<u32>)
    ensures
        match r {
            Some(n) => parsed(s@, 10, u32::MAX as nat) == Some(n as nat),
            None => parsed(s@, 10, u32::MAX as nat) is None,
        },
{
    match parse_number(s, 10, u32::MAX as u64) {
        Some(n) => Some(n as u32),
        None => None,
    }
}

/// The number that `s` stands for in octal, when it fits a `u32`.
pub open spec fn octal(s: Seq<char>) -> Option<u32> {
    match parsed(s, 8, u32::MAX as nat) {
        Some(n) => Some(n as u32),
        None => None,
    }
}

/// Reads a `u32` in octal.
pub fn parse_octal(s: &str) -> (r: Option<u32>)
    ensures
        r == octal(s@),
{
    match parse_number(s, 8, u32::MAX as u64) {
        Some(n) => Some(n as u32),
        None => None,
    }
}

} // verus!
