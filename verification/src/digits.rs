//! Unsigned integers as ASCII digit strings, in radix 10 and 16.

use vstd::prelude::*;

verus! {

/// The ASCII digit that stands for `d` (lower case above nine).
pub open spec fn digit_byte(d: nat) -> u8 {
    if d < 10 {
        (0x30 + d) as u8
    } else {
        (0x61 + d - 10) as u8
    }
}

/// The value of an ASCII digit in the given radix, if it is one.
/// Letters count in either case.
pub open spec fn digit_value(b: u8, radix: nat) -> Option<nat> {
    let v: int = if 0x30 <= b <= 0x39 {
        b - 0x30
    } else if 0x61 <= b <= 0x7a {
        b - 0x61 + 10
    } else if 0x41 <= b <= 0x5a {
        b - 0x41 + 10
    } else {
        -1
    };
    if 0 <= v < radix {
        Some(v as nat)
    } else {
        None
    }
}

/// The shortest digit string of `n` in the given radix (`"0"` for zero).
pub open spec fn digits(n: nat, radix: nat) -> Seq<u8>
    recommends
        2 <= radix <= 16,
    decreases n,
    via digits_decreases
{
    if n < radix || radix < 2 {
        seq![digit_byte(n)]
    } else {
        digits(n / radix, radix).push(digit_byte(n % radix))
    }
}

#[via_fn]
proof fn digits_decreases(n: nat, radix: nat) {
    if !(n < radix || radix < 2) {
        assert(n / radix < n) by (nonlinear_arith)
            requires
                2 <= radix <= n,
        ;
    }
}

/// Every byte of `s` is a digit of the radix.
pub open spec fn all_digits(s: Seq<u8>, radix: nat) -> bool {
    forall|i: int| 0 <= i < s.len() ==> (#[trigger] digit_value(s[i], radix)) is Some
}

/// The number that a digit string denotes, most significant digit first.
pub open spec fn digits_value(s: Seq<u8>, radix: nat) -> nat
    decreases s.len(),
{
    if s.len() == 0 {
        0
    } else {
        digits_value(s.drop_last(), radix) * radix + match digit_value(s.last(), radix) {
            Some(v) => v,
            None => 0,
        }
    }
}

/// The digits of a numeral: the text without one leading `+`.
pub open spec fn numeral_digits(s: Seq<u8>) -> Seq<u8> {
    if s.len() > 0 && s[0] == 0x2b {
        s.skip(1)
    } else {
        s
    }
}

/// What a text denotes as an unsigned number no larger than `max`:
/// an optional `+`, then one or more digits. Anything else is no number.
pub open spec fn parse_unsigned(s: Seq<u8>, radix: nat, max: nat) -> Option<nat> {
    let d = numeral_digits(s);
    if d.len() > 0 && all_digits(d, radix) && digits_value(d, radix) <= max {
        Some(digits_value(d, radix))
    } else {
        None
    }
}

/// Leaving digits off the end of a digit string never makes it denote more.
pub proof fn lemma_digits_value_prefix(s: Seq<u8>, radix: nat, i: int)
    requires
        1 <= radix,
        0 <= i <= s.len(),
    ensures
        digits_value(s.take(i), radix) <= digits_value(s, radix),
    decreases s.len() - i,
{
    if i == s.len() {
        assert(s.take(i) =~= s);
    } else {
        lemma_digits_value_prefix(s.drop_last(), radix, i);
        assert(s.drop_last().take(i) =~= s.take(i));
        assert(digits_value(s.drop_last(), radix) <= digits_value(s.drop_last(), radix) * radix)
            by (nonlinear_arith)
            requires
                1 <= radix,
        ;
    }
}

/// Reading back the digits of a number gives the number.
pub proof fn lemma_digits_round_trip(n: nat, radix: nat)
    requires
        2 <= radix <= 16,
    ensures
        digits(n, radix).len() > 0,
        all_digits(digits(n, radix), radix),
        digits_value(digits(n, radix), radix) == n,
        numeral_digits(digits(n, radix)) == digits(n, radix),
    decreases n,
{
    let d = digits(n, radix);
    if n < radix {
        assert(digits_value(d.drop_last(), radix) == 0);
    } else {
        let q = n / radix;
        let r = n % radix;
        assert(q < n && q * radix + r == n) by (nonlinear_arith)
            requires
                2 <= radix <= n,
                q == n / radix,
                r == n % radix,
        ;
        lemma_digits_round_trip(q, radix);
        assert(d.drop_last() =~= digits(q, radix));
        assert(all_digits(d, radix));
    }
    assert(d[0] != 0x2b);
}

/// The digits of a number are ASCII, and none is a line break or a space.
pub proof fn lemma_digits_plain(n: nat, radix: nat)
    requires
        2 <= radix <= 16,
    ensures
        forall|i: int|
            0 <= i < digits(n, radix).len() ==> 0x30 <= #[trigger] digits(n, radix)[i] < 0x80,
{
    lemma_digits_round_trip(n, radix);
    let d = digits(n, radix);
    assert forall|i: int| 0 <= i < d.len() implies 0x30 <= #[trigger] d[i] < 0x80 by {
        assert(digit_value(d[i], radix) is Some);
    }
}

/// A number that fits is read back from its digits as itself.
pub proof fn lemma_parse_digits(n: nat, radix: nat, max: nat)
    requires
        2 <= radix <= 16,
        n <= max,
    ensures
        parse_unsigned(digits(n, radix), radix, max) == Some(n),
{
    lemma_digits_round_trip(n, radix);
}

fn digit_of(d: usize) -> (b: u8)
    requires
        d < 16,
    ensures
        b == digit_byte(d as nat),
{
    if d < 10 {
        0x30u8 + d as u8
    } else {
        0x61u8 + (d - 10) as u8
    }
}

fn value_of(b: u8, radix: usize) -> (v: Option<usize>)
    ensures
        v == match digit_value(b, radix as nat) {
            Some(d) => Some(d as usize),
            None => None,
        },
{
    let d: usize = if 0x30 <= b && b <= 0x39 {
        (b - 0x30) as usize
    } else if 0x61 <= b && b <= 0x7a {
        (b - 0x61) as usize + 10
    } else if 0x41 <= b && b <= 0x5a {
        (b - 0x41) as usize + 10
    } else {
        return None;
    };
    if d < radix {
        Some(d)
    } else {
        None
    }
}

fn format_radix(n: usize, radix: usize) -> (text: Vec<u8>)
    requires
        2 <= radix <= 16,
    ensures
        text@ == digits(n as nat, radix as nat),
    decreases n,
{
    if n < radix {
        let mut text: Vec<u8> = Vec::new();
        text.push(digit_of(n));
        text
    } else {
        assert(n / radix < n) by (nonlinear_arith)
            requires
                2 <= radix <= n,
        ;
        let mut text = format_radix(n / radix, radix);
        text.push(digit_of(n % radix));
        text
    }
}

/// The decimal digits of `n`.
pub fn format_decimal(n: usize) -> (text: Vec<u8>)
    ensures
        text@ == digits(n as nat, 10),
{
    format_radix(n, 10)
}

/// The hexadecimal digits of `n`, in lower case.
pub fn format_hex(n: usize) -> (text: Vec<u8>)
    ensures
        text@ == digits(n as nat, 16),
{
    format_radix(n, 16)
}

fn parse_radix(s: &[u8], radix: usize, max: usize) -> (r: Option<usize>)
    requires
        2 <= radix <= 16,
    ensures
        r == match parse_unsigned(s@, radix as nat, max as nat) {
            Some(v) => Some(v as usize),
            None => None,
        },
{
    let start: usize = if s.len() > 0 && s[0] == 0x2b {
        1
    } else {
        0
    };
    if start == s.len() {
        return None;
    }
    let ghost d = numeral_digits(s@);
    let mut acc: usize = 0;
    let mut i: usize = start;
    while i < s.len()
        invariant
            2 <= radix <= 16,
            start <= i <= s.len(),
            d == s@.skip(start as int),
            d == numeral_digits(s@),
            acc == digits_value(d.take(i - start), radix as nat),
            all_digits(d.take(i - start), radix as nat),
            acc <= max,
        decreases s.len() - i,
    {
        let ghost k = i - start;
        proof {
            assert(d.take(k + 1).drop_last() =~= d.take(k));
            lemma_digits_value_prefix(d, radix as nat, k + 1);
        }
        let v = match value_of(s[i], radix) {
            Some(v) => v,
            None => {
                return None;
            },
        };
        if v > max || acc > (max - v) / radix {
            proof {
                assert(acc * radix + v > max) by (nonlinear_arith)
                    requires
                        acc > (max - v) / (radix as int) || v > max,
                        radix >= 2,
                        acc >= 0,
                        v >= 0,
                        max >= 0,
                ;
            }
            return None;
        }
        assert(acc * radix + v <= max) by (nonlinear_arith)
            requires
                acc <= (max - v) / (radix as int),
                v <= max,
                radix >= 2,
        ;
        acc = acc * radix + v;
        i = i + 1;
        assert(all_digits(d.take(k + 1), radix as nat));
    }
    assert(d.take(i - start) =~= d);
    Some(acc)
}

/// Reads a decimal numeral that fits in 16 bits.
pub fn parse_decimal_u16(s: &[u8]) -> (r: Option<u16>)
    ensures
        r == match parse_unsigned(s@, 10, 0xffff) {
            Some(v) => Some(v as u16),
            None => None,
        },
{
    match parse_radix(s, 10, 0xffff) {
        Some(v) => Some(v as u16),
        None => None,
    }
}

/// Reads a decimal numeral that fits in a `usize`.
pub fn parse_decimal(s: &[u8]) -> (r: Option<usize>)
    ensures
        r == match parse_unsigned(s@, 10, usize::MAX as nat) {
            Some(v) => Some(v as usize),
            None => None,
        },
{
    parse_radix(s, 10, usize::MAX)
}

/// Reads a hexadecimal numeral, in either case, that fits in a `usize`.
pub fn parse_hex(s: &[u8]) -> (r: Option<usize>)
    ensures
        r == match parse_unsigned(s@, 16, usize::MAX as nat) {
            Some(v) => Some(v as usize),
            None => None,
        },
{
    parse_radix(s, 16, usize::MAX)
}

} // verus!
