//! Numbers as text: decimal and hexadecimal, read and written.

use vstd::prelude::*;
use vstd::slice::slice_subrange;

verus! {

pub open spec fn is_digit(c: char) -> bool {
    '0' <= c <= '9'
}

pub open spec fn digit_value(c: char) -> nat {
    (c as u32 - '0' as u32) as nat
}

/// The character of a digit below ten.
pub open spec fn digit_char(d: nat) -> char {
    ('0' as u32 + d) as char
}

/// A number in decimal, without leading zeros.
pub open spec fn decimal(n: nat) -> Seq<char>
    decreases n,
{
    if n < 10 {
        seq![digit_char(n)]
    } else {
        decimal(n / 10).push(digit_char(n % 10))
    }
}

/// An integer in decimal, with a sign where it is negative.
pub open spec fn signed_decimal(n: int) -> Seq<char> {
    if n < 0 {
        seq!['-'] + decimal((-n) as nat)
    } else {
        decimal(n as nat)
    }
}

/// The number that a row of digits writes.
pub open spec fn digits_value(s: Seq<char>) -> nat
    decreases s.len(),
{
    if s.len() == 0 {
        0
    } else {
        digits_value(s.drop_last()) * 10 + digit_value(s.last())
    }
}

pub open spec fn all_digits(s: Seq<char>) -> bool {
    forall|i: int| 0 <= i < s.len() ==> is_digit(#[trigger] s[i])
}

/// The digits of an unsigned number: what follows its optional plus sign.
pub open spec fn unsigned_digits(s: Seq<char>) -> Seq<char> {
    if s.len() > 0 && s[0] == '+' {
        s.skip(1)
    } else {
        s
    }
}

/// The number that `s` writes, where it writes one that is no greater than `max`: an
/// optional plus sign, then one digit or more.
pub open spec fn unsigned(s: Seq<char>, max: nat) -> Option<nat> {
    let d = unsigned_digits(s);
    if d.len() > 0 && all_digits(d) && digits_value(d) <= max {
        Some(digits_value(d))
    } else {
        None
    }
}

/// More digits never write a smaller number.
pub proof fn lemma_digits_grow(s: Seq<char>, i: int)
    requires
        0 <= i <= s.len(),
    ensures
        digits_value(s.take(i)) <= digits_value(s),
    decreases s.len() - i,
{
    if i == s.len() {
        assert(s.take(i) =~= s);
    } else {
        lemma_digits_grow(s, i + 1);
        assert(s.take(i + 1).drop_last() =~= s.take(i));
    }
}

/// What `decimal` writes, `digits_value` reads.
pub proof fn lemma_decimal_reads_back(n: nat)
    ensures
        decimal(n).len() > 0,
        all_digits(decimal(n)),
        digits_value(decimal(n)) == n,
        n > 0 ==> decimal(n)[0] != '0',
        unsigned(decimal(n), n) == Some(n),
    decreases n,
{
    if n < 10 {
        let s = decimal(n);
        assert(s.drop_last().len() == 0);
        assert(digits_value(s.drop_last()) == 0);
    } else {
        lemma_decimal_reads_back(n / 10);
        let s = decimal(n);
        assert(s.drop_last() =~= decimal(n / 10));
        assert(s.last() == digit_char(n % 10));
    }
    assert(is_digit(decimal(n)[0]));
}

/// Different numbers have different decimals.
pub proof fn lemma_decimal_injective(a: nat, b: nat)
    requires
        decimal(a) == decimal(b),
    ensures
        a == b,
{
    lemma_decimal_reads_back(a);
    lemma_decimal_reads_back(b);
}

/// Reads a number no greater than `max`.
pub fn parse_unsigned(s: &[char], max: u64) -> (r: Option<u64>)
    ensures
        match r {
            Some(v) => unsigned(s@, max as nat) == Some(v as nat),
            None => unsigned(s@, max as nat) is None,
        },
{
    let n: usize = s.len();
    let mut start: usize = 0;
    if n > 0 && s[0] == '+' {
        start = 1;
    }
    let ghost d = unsigned_digits(s@);
    assert(d =~= s@.skip(start as int));
    if start == n {
        return None;
    }
    let mut i: usize = start;
    let mut v: u64 = 0;
    let mut over: bool = false;
    assert(d.take(0).len() == 0);
    while i < n
        invariant
            start <= i <= n,
            n == s.len(),
            d == s@.skip(start as int),
            forall|j: int| 0 <= j < i - start ==> is_digit(#[trigger] d[j]),
            !over ==> v == digits_value(d.take(i - start)) && v <= max,
            over ==> digits_value(d) > max,
            unsigned_digits(s@) == d,
        decreases n - i,
    {
        let c = s[i];
        assert(c == d[i - start]);
        if c < '0' || c > '9' {
            assert(!all_digits(d));
            return None;
        }
        if !over {
            let w: u128 = v as u128 * 10 + (c as u32 - '0' as u32) as u128;
            proof {
                assert(d.take(i - start + 1).drop_last() =~= d.take(i - start));
                assert(d.take(i - start + 1).last() == c);
                lemma_digits_grow(d, i - start + 1);
            }
            if w > max as u128 {
                over = true;
            } else {
                v = w as u64;
            }
        }
        i += 1;
    }
    assert(d.take(d.len() as int) =~= d);
    if over {
        None
    } else {
        Some(v)
    }
}

/// Writes a number in decimal.
pub fn decimal_text(n: u128) -> (r: String)
    ensures
        r@ == decimal(n as nat),
{
    let mut rev: Vec<char> = Vec::new();
    let mut m: u128 = n;
    loop
        invariant_except_break
            decimal(n as nat) == decimal(m as nat) + rev@.reverse(),
        ensures
            decimal(n as nat) == rev@.reverse(),
        decreases m,
    {
        let d: u8 = (m % 10) as u8;
        let c: char = (48 + d) as char;
        let ghost before = rev@;
        rev.push(c);
        proof {
            assert(c == digit_char(m as nat % 10));
            assert(rev@.reverse() =~= seq![c] + before.reverse());
            if m < 10 {
                assert(decimal(m as nat) + before.reverse() =~= rev@.reverse());
            } else {
                assert(decimal(m as nat / 10) + rev@.reverse() =~= decimal(m as nat)
                    + before.reverse());
            }
        }
        m = m / 10;
        if m == 0 {
            assert(decimal(n as nat) == rev@.reverse());
            break;
        }
    }
    let mut out: String = String::new();
    let mut i: usize = rev.len();
    while i > 0
        invariant
            i <= rev.len(),
            out@ == rev@.reverse().take(rev@.len() - i),
        decreases i,
    {
        i -= 1;
        out.push(rev[i]);
        assert(out@ =~= rev@.reverse().take(rev@.len() - i));
    }
    assert(rev@.reverse().take(rev@.len() as int) =~= rev@.reverse());
    out
}

/// Writes an integer in decimal.
pub fn signed_decimal_text(n: i64) -> (r: String)
    ensures
        r@ == signed_decimal(n as int),
{
    if n < 0 {
        let m: u128 = (-(n as i128)) as u128;
        let mut out: String = String::new();
        out.push('-');
        out.append(decimal_text(m).as_str());
        assert(out@ =~= seq!['-'] + decimal(m as nat));
        out
    } else {
        decimal_text(n as u128)
    }
}

// ---------------------------------------------------------------- hexadecimal

/// The lower-case hexadecimal character of a digit below sixteen.
pub open spec fn hex_char(d: nat) -> char {
    if d < 10 {
        ('0' as u32 + d) as char
    } else {
        ('a' as u32 + d - 10) as char
    }
}

/// The upper-case hexadecimal character of a digit below sixteen.
pub open spec fn upper_hex_char(d: nat) -> char {
    if d < 10 {
        ('0' as u32 + d) as char
    } else {
        ('A' as u32 + d - 10) as char
    }
}

pub fn hex_digit(d: u8) -> (r: char)
    requires
        d < 16,
    ensures
        r == hex_char(d as nat),
{
    if d < 10 {
        (48 + d) as char
    } else {
        (87 + d) as char
    }
}

pub fn upper_hex_digit(d: u8) -> (r: char)
    requires
        d < 16,
    ensures
        r == upper_hex_char(d as nat),
{
    if d < 10 {
        (48 + d) as char
    } else {
        (55 + d) as char
    }
}

/// The value of a hexadecimal digit in either case.
pub open spec fn hex_value(c: char) -> Option<nat> {
    if '0' <= c <= '9' {
        Some((c as u32 - '0' as u32) as nat)
    } else if 'a' <= c <= 'f' {
        Some((c as u32 - 'a' as u32 + 10) as nat)
    } else if 'A' <= c <= 'F' {
        Some((c as u32 - 'A' as u32 + 10) as nat)
    } else {
        None
    }
}

pub fn hex_digit_value(c: char) -> (r: Option<u32>)
    ensures
        match r {
            Some(v) => hex_value(c) == Some(v as nat) && v < 16,
            None => hex_value(c) is None,
        },
{
    if '0' <= c && c <= '9' {
        Some(c as u32 - '0' as u32)
    } else if 'a' <= c && c <= 'f' {
        Some(c as u32 - 'a' as u32 + 10)
    } else if 'A' <= c && c <= 'F' {
        Some(c as u32 - 'A' as u32 + 10)
    } else {
        None
    }
}

/// A number in lower-case hexadecimal, without leading zeros.
pub open spec fn hex(n: nat) -> Seq<char>
    decreases n,
{
    if n < 16 {
        seq![hex_char(n)]
    } else {
        hex(n / 16).push(hex_char(n % 16))
    }
}

/// Writes a group of an IPv6 address.
pub fn hex_text(n: u16) -> (r: String)
    ensures
        r@ == hex(n as nat),
{
    let mut out: String = String::new();
    let a: u8 = (n / 4096) as u8;
    let b: u8 = (n / 256 % 16) as u8;
    let c: u8 = (n / 16 % 16) as u8;
    let d: u8 = (n % 16) as u8;
    proof {
        reveal_with_fuel(hex, 5);
    }
    if n >= 4096 {
        out.push(hex_digit(a));
    }
    if n >= 256 {
        out.push(hex_digit(b));
    }
    if n >= 16 {
        out.push(hex_digit(c));
    }
    out.push(hex_digit(d));
    assert(out@ =~= hex(n as nat));
    out
}

// ---------------------------------------------------------------- signed numbers

/// The number that `s` writes as an `i64`: an optional sign, then one digit or more.
pub open spec fn signed(s: Seq<char>) -> Option<int> {
    if s.len() > 0 && s[0] == '-' {
        let d = s.skip(1);
        if d.len() > 0 && all_digits(d) && digits_value(d) <= 0x8000_0000_0000_0000 {
            Some(-(digits_value(d) as int))
        } else {
            None
        }
    } else {
        match unsigned(s, 0x7fff_ffff_ffff_ffff) {
            Some(n) => Some(n as int),
            None => None,
        }
    }
}

/// Reads an `i64`.
pub fn parse_signed(s: &[char]) -> (r: Option<i64>)
    ensures
        match r {
            Some(v) => signed(s@) == Some(v as int),
            None => signed(s@) is None,
        },
{
    if s.len() > 0 && s[0] == '-' {
        let d: &[char] = slice_subrange(s, 1, s.len());
        assert(d@ =~= s@.skip(1));
        if d.len() > 0 && d[0] == '+' {
            assert(!is_digit(d@[0]));
            return None;
        }
        match parse_unsigned(d, 0x8000_0000_0000_0000) {
            Some(v) => if v == 0x8000_0000_0000_0000 {
                Some(i64::MIN)
            } else {
                Some(-(v as i64))
            },
            None => None,
        }
    } else {
        match parse_unsigned(s, 0x7fff_ffff_ffff_ffff) {
            Some(v) => Some(v as i64),
            None => None,
        }
    }
}

/// A row of digits without a leading zero is how its number is written, and nothing else is.
pub proof fn law_number_is_written_one_way(s: Seq<char>)
    requires
        s.len() > 0,
        all_digits(s),
        s.len() == 1 || s[0] != '0',
    ensures
        decimal(digits_value(s)) == s,
        s[0] != '0' ==> digits_value(s) > 0,
    decreases s.len(),
{
    let c = s.last();
    assert(is_digit(s[s.len() - 1]));
    assert(digit_char(digit_value(c)) == c) by {
        assert('0' as u32 + digit_value(c) == c as u32);
    }
    let before = s.drop_last();
    if s.len() == 1 {
        assert(digits_value(before) == 0);
        assert(digits_value(s) == digit_value(c));
        assert(digit_value(c) < 10);
        assert(seq![c] =~= s);
    } else {
        assert(before[0] == s[0]);
        assert forall|i: int| 0 <= i < before.len() implies is_digit(#[trigger] before[i]) by {
            assert(is_digit(s[i]));
        }
        law_number_is_written_one_way(before);
        let v = digits_value(before);
        let d = digit_value(c);
        let n = digits_value(s);
        assert(n == v * 10 + d);
        assert(v > 0 && d < 10);
        assert(n / 10 == v && n % 10 == d);
        assert(before.push(c) =~= s);
    }
}

} // verus!
