//! IPv4 and IPv6 addresses as text.

use vstd::prelude::*;
use vstd::slice::*;

use crate::num::{self, decimal_text, hex_digit_value, hex_text, parse_unsigned};
use crate::text::{self, chars_of, cut, join_text, one_char, split_text};

verus! {

// ---------------------------------------------------------------- IPv4

/// One to three digits, without a leading zero, up to 255.
pub open spec fn octet(s: Seq<char>) -> Option<nat> {
    if 1 <= s.len() <= 3 && num::all_digits(s) && (s.len() == 1 || s[0] != '0')
        && num::digits_value(s) <= 255 {
        Some(num::digits_value(s))
    } else {
        None
    }
}

/// The address that `s` writes: four octets with dots between them.
pub open spec fn ipv4(s: Seq<char>) -> Option<u32> {
    let p = text::split(s, seq!['.']);
    if p.len() == 4 && octet(p[0]) is Some && octet(p[1]) is Some && octet(p[2]) is Some && octet(
        p[3],
    ) is Some {
        Some(
            (octet(p[0])->0 * 16777216 + octet(p[1])->0 * 65536 + octet(p[2])->0 * 256 + octet(
                p[3],
            )->0) as u32,
        )
    } else {
        None
    }
}

/// An address in dotted decimal.
pub open spec fn ipv4_shown(n: u32) -> Seq<char> {
    text::join(
        seq![
            num::decimal(n as nat / 16777216),
            num::decimal(n as nat / 65536 % 256),
            num::decimal(n as nat / 256 % 256),
            num::decimal(n as nat % 256),
        ],
        seq!['.'],
    )
}

fn parse_octet(s: &[char]) -> (r: Option<u32>)
    ensures
        match r {
            Some(v) => octet(s@) == Some(v as nat) && v <= 255,
            None => octet(s@) is None,
        },
{
    let n: usize = s.len();
    if n == 0 || n > 3 || (n > 1 && s[0] == '0') {
        return None;
    }
    if s[0] == '+' {
        assert(!num::is_digit(s@[0]));
        return None;
    }
    match parse_unsigned(s, 255) {
        Some(v) => Some(v as u32),
        None => None,
    }
}

/// Reads an IPv4 address.
pub fn parse_ipv4(s: &str) -> (r: Option<u32>)
    ensures
        r == ipv4(s@),
{
    let cs: Vec<char> = chars_of(s);
    let dot: Vec<char> = one_char('.');
    let p: Vec<String> = split_text(cs.as_slice(), dot.as_slice());
    if p.len() != 4 {
        return None;
    }
    let mut v: u32 = 0;
    let mut i: usize = 0;
    let ghost pv = text::split(s@, seq!['.']);
    while i < 4
        invariant
            i <= 4,
            p.len() == 4,
            pv == text::texts(p@),
            pv == text::split(s@, seq!['.']),
            forall|k: int| 0 <= k < i ==> octet(#[trigger] pv[k]) is Some,
            forall|k: int| 0 <= k < i ==> octet(#[trigger] pv[k])->0 <= 255,
            i == 0 ==> v == 0,
            i == 1 ==> v == octet(pv[0])->0,
            i == 2 ==> v == octet(pv[0])->0 * 256 + octet(pv[1])->0,
            i == 3 ==> v == octet(pv[0])->0 * 65536 + octet(pv[1])->0 * 256 + octet(pv[2])->0,
            i == 4 ==> v == octet(pv[0])->0 * 16777216 + octet(pv[1])->0 * 65536 + octet(pv[2])->0
                * 256 + octet(pv[3])->0,
        decreases 4 - i,
    {
        let pc: Vec<char> = chars_of(p[i].as_str());
        assert(pv[i as int] == pc@);
        match parse_octet(pc.as_slice()) {
            Some(x) => {
                assert(v <= 16777215);
                v = v * 256 + x;
            },
            None => {
                return None;
            },
        }
        i += 1;
    }
    Some(v)
}

/// Writes an IPv4 address.
pub fn ipv4_text(n: u32) -> (r: String)
    ensures
        r@ == ipv4_shown(n),
{
    let mut parts: Vec<String> = Vec::new();
    parts.push(decimal_text((n / 16777216) as u128));
    parts.push(decimal_text((n / 65536 % 256) as u128));
    parts.push(decimal_text((n / 256 % 256) as u128));
    parts.push(decimal_text((n % 256) as u128));
    assert(text::texts(parts@) =~= seq![
        num::decimal(n as nat / 16777216),
        num::decimal(n as nat / 65536 % 256),
        num::decimal(n as nat / 256 % 256),
        num::decimal(n as nat % 256),
    ]);
    proof {
        reveal_strlit(".");
        assert("."@ =~= seq!['.']);
    }
    join_text(&parts, ".")
}

/// A number below 256 is an octet in decimal.
proof fn lemma_octet(n: nat)
    requires
        n <= 255,
    ensures
        octet(num::decimal(n)) == Some(n),
        !num::decimal(n).contains('.'),
        !num::decimal(n).contains(':'),
{
    num::lemma_decimal_reads_back(n);
    reveal_with_fuel(num::decimal, 4);
    let d = num::decimal(n);
    if n == 0 {
        assert(d.len() == 1);
    }
    if d.contains('.') {
        let j = choose|j: int| 0 <= j < d.len() && d[j] == '.';
        assert(num::is_digit(d[j]));
    }
    if d.contains(':') {
        let j = choose|j: int| 0 <= j < d.len() && d[j] == ':';
        assert(num::is_digit(d[j]));
    }
}

/// A number is put together from its octets.
#[verifier::spinoff_prover]
pub proof fn lemma_octets(n: int)
    requires
        0 <= n < 0x1_0000_0000,
    ensures
        0 <= n / 16777216 < 256,
        n / 16777216 * 16777216 + n / 65536 % 256 * 65536 + n / 256 % 256 * 256 + n % 256 == n,
{
    let x = n / 256;
    let y = x / 256;
    let z = y / 256;
    vstd::arithmetic::div_mod::lemma_div_denominator(n, 256, 256);
    vstd::arithmetic::div_mod::lemma_div_denominator(n, 65536, 256);
    assert(n / 65536 == y);
    assert(n / 16777216 == z);
    assert(n == x * 256 + n % 256);
    assert(x == y * 256 + x % 256);
    assert(y == z * 256 + y % 256);
}

/// What is written of an IPv4 address, read again, gives the address.
#[verifier::spinoff_prover]
pub proof fn law_ipv4_reads_back(n: u32)
    ensures
        ipv4(ipv4_shown(n)) == Some(n),
{
    let a = n as nat / 16777216;
    let b = n as nat / 65536 % 256;
    let c = n as nat / 256 % 256;
    let d = n as nat % 256;
    lemma_octets(n as int);
    lemma_octet(a);
    lemma_octet(b);
    lemma_octet(c);
    lemma_octet(d);
    let parts = seq![num::decimal(a), num::decimal(b), num::decimal(c), num::decimal(d)];
    assert forall|i: int| 0 <= i < parts.len() implies !(#[trigger] parts[i]).contains('.') by {
        if i == 0 {
        } else if i == 1 {
        } else if i == 2 {
        } else {
            assert(i == 3);
        }
    }
    text::lemma_split_of_join(parts, '.');
    assert(a * 16777216 + b * 65536 + c * 256 + d == n);
}

// ---------------------------------------------------------------- IPv6, reading

pub open spec fn all_hex(s: Seq<char>) -> bool {
    forall|i: int| 0 <= i < s.len() ==> num::hex_value(#[trigger] s[i]) is Some
}

/// The number that a row of hexadecimal digits writes.
pub open spec fn hex_digits_value(s: Seq<char>) -> nat
    decreases s.len(),
{
    if s.len() == 0 {
        0
    } else {
        hex_digits_value(s.drop_last()) * 16 + num::hex_value(s.last())->0
    }
}

/// One to four hexadecimal digits.
pub open spec fn group(s: Seq<char>) -> Option<nat> {
    if 1 <= s.len() <= 4 && all_hex(s) {
        Some(hex_digits_value(s))
    } else {
        None
    }
}

/// The groups that the pieces are, where each is one.
pub open spec fn plain_groups(p: Seq<Seq<char>>) -> Option<Seq<nat>>
    decreases p.len(),
{
    if p.len() == 0 {
        Some(Seq::empty())
    } else {
        match plain_groups(p.drop_last()) {
            Some(v) => match group(p.last()) {
                Some(g) => Some(v.push(g)),
                None => None,
            },
            None => None,
        }
    }
}

/// The groups that the pieces are; the last piece may be an IPv4 address, which is two
/// groups, where `v4` allows it.
pub open spec fn groups_of(p: Seq<Seq<char>>, v4: bool) -> Option<Seq<nat>> {
    if plain_groups(p) is Some {
        plain_groups(p)
    } else if v4 && p.len() > 0 && plain_groups(p.drop_last()) is Some && ipv4(p.last()) is Some {
        let n = ipv4(p.last())->0;
        Some(plain_groups(p.drop_last())->0.push(n as nat / 65536).push(n as nat % 65536))
    } else {
        None
    }
}

/// The groups on one side of the double colon.
pub open spec fn side(s: Seq<char>, v4: bool) -> Option<Seq<nat>> {
    if s.len() == 0 {
        Some(Seq::empty())
    } else {
        groups_of(text::split(s, seq![':']), v4)
    }
}

pub open spec fn zeros(n: int) -> Seq<nat> {
    Seq::new(n as nat, |i: int| 0nat)
}

/// The eight groups that `s` writes; a double colon stands for one zero group or more.
pub open spec fn ipv6_groups(s: Seq<char>) -> Option<Seq<nat>> {
    match text::split_once(s, seq![':', ':']) {
        Some((h, t)) => match (side(h, false), side(t, true)) {
            (Some(a), Some(b)) => if a.len() + b.len() <= 7 {
                Some(a + zeros(8 - a.len() - b.len()) + b)
            } else {
                None
            },
            _ => None,
        },
        None => match groups_of(text::split(s, seq![':']), true) {
            Some(g) => if g.len() == 8 {
                Some(g)
            } else {
                None
            },
            None => None,
        },
    }
}

/// The number that groups make, the first one highest.
pub open spec fn groups_value(g: Seq<nat>) -> nat
    decreases g.len(),
{
    if g.len() == 0 {
        0
    } else {
        groups_value(g.drop_last()) * 65536 + g.last()
    }
}

/// The address that `s` writes.
pub open spec fn ipv6(s: Seq<char>) -> Option<nat> {
    match ipv6_groups(s) {
        Some(g) => Some(groups_value(g)),
        None => None,
    }
}

pub open spec fn nats(v: Seq<u16>) -> Seq<nat> {
    Seq::new(v.len(), |i: int| v[i] as nat)
}

/// One more than the greatest number of so many groups.
pub open spec fn group_bound(n: int) -> nat {
    if n <= 0 {
        1
    } else if n == 1 {
        0x1_0000
    } else if n == 2 {
        0x1_0000_0000
    } else if n == 3 {
        0x1_0000_0000_0000
    } else if n == 4 {
        0x1_0000_0000_0000_0000
    } else if n == 5 {
        0x1_0000_0000_0000_0000_0000
    } else if n == 6 {
        0x1_0000_0000_0000_0000_0000_0000
    } else if n == 7 {
        0x1_0000_0000_0000_0000_0000_0000_0000
    } else {
        0x1_0000_0000_0000_0000_0000_0000_0000_0000nat
    }
}

fn parse_group(s: &[char]) -> (r: Option<u16>)
    ensures
        match r {
            Some(v) => group(s@) == Some(v as nat),
            None => group(s@) is None,
        },
{
    let n: usize = s.len();
    if n == 0 || n > 4 {
        return None;
    }
    let mut v: u32 = 0;
    let mut i: usize = 0;
    assert(s@.take(0).len() == 0);
    while i < n
        invariant
            n == s.len(),
            i <= n <= 4,
            forall|j: int| 0 <= j < i ==> num::hex_value(#[trigger] s@[j]) is Some,
            v == hex_digits_value(s@.take(i as int)),
            i == 0 ==> v == 0,
            i == 1 ==> v < 16,
            i == 2 ==> v < 256,
            i == 3 ==> v < 4096,
            i == 4 ==> v < 65536,
        decreases n - i,
    {
        match hex_digit_value(s[i]) {
            Some(d) => {
                assert(s@.take(i as int + 1).drop_last() =~= s@.take(i as int));
                v = v * 16 + d;
            },
            None => {
                assert(!all_hex(s@));
                return None;
            },
        }
        i += 1;
    }
    assert(s@.take(n as int) =~= s@);
    Some(v as u16)
}

/// Pieces whose first ones are not groups are not groups.
proof fn lemma_plain_prefix(p: Seq<Seq<char>>, i: int)
    requires
        0 <= i <= p.len(),
        plain_groups(p.take(i)) is None,
    ensures
        plain_groups(p) is None,
    decreases p.len() - i,
{
    if i == p.len() {
        assert(p.take(i) =~= p);
    } else {
        assert(p.take(i + 1).drop_last() =~= p.take(i));
        lemma_plain_prefix(p, i + 1);
    }
}

fn parse_groups(p: &Vec<String>, v4: bool) -> (r: Option<Vec<u16>>)
    ensures
        match r {
            Some(v) => groups_of(text::texts(p@), v4) == Some(nats(v@)),
            None => groups_of(text::texts(p@), v4) is None,
        },
        r matches Some(v) ==> v@.len() <= p@.len() + 1,
{
    let ghost pv = text::texts(p@);
    let n: usize = p.len();
    let mut out: Vec<u16> = Vec::new();
    let mut i: usize = 0;
    assert(nats(out@) =~= Seq::empty());
    assert(pv.take(0).len() == 0);
    while i < n
        invariant
            i <= n,
            n == p.len(),
            pv == text::texts(p@),
            plain_groups(pv.take(i as int)) == Some(nats(out@)),
            out@.len() == i,
        decreases n - i,
    {
        let pc: Vec<char> = chars_of(p[i].as_str());
        let ghost before = out@;
        assert(pv[i as int] == pc@);
        assert(pv.take(i as int + 1).drop_last() =~= pv.take(i as int));
        match parse_group(pc.as_slice()) {
            Some(g) => {
                out.push(g);
                assert(nats(out@) =~= nats(before).push(g as nat));
            },
            None => {
                proof {
                    lemma_plain_prefix(pv, i as int + 1);
                    if i + 1 < n {
                        assert(pv.drop_last().take(i as int + 1) =~= pv.take(i as int + 1));
                        lemma_plain_prefix(pv.drop_last(), i as int + 1);
                    } else {
                        assert(pv.drop_last() =~= pv.take(i as int));
                    }
                }
                if !v4 || i + 1 < n {
                    return None;
                }
                match parse_ipv4(p[i].as_str()) {
                    Some(a) => {
                        out.push((a / 65536) as u16);
                        out.push((a % 65536) as u16);
                        assert(nats(out@) =~= nats(before).push(a as nat / 65536).push(
                            a as nat % 65536,
                        ));
                        return Some(out);
                    },
                    None => {
                        return None;
                    },
                }
            },
        }
        i += 1;
    }
    assert(pv.take(n as int) =~= pv);
    Some(out)
}

fn parse_side(s: &[char], v4: bool) -> (r: Option<Vec<u16>>)
    ensures
        match r {
            Some(v) => side(s@, v4) == Some(nats(v@)),
            None => side(s@, v4) is None,
        },
{
    if s.len() == 0 {
        let v: Vec<u16> = Vec::new();
        assert(nats(v@) =~= Seq::empty());
        return Some(v);
    }
    let colon: Vec<char> = one_char(':');
    parse_groups(&split_text(s, colon.as_slice()), v4)
}

fn value_of(g: &Vec<u16>) -> (r: u128)
    requires
        g@.len() == 8,
    ensures
        r == groups_value(nats(g@)),
{
    let mut v: u128 = 0;
    let mut i: usize = 0;
    assert(nats(g@).take(0).len() == 0);
    while i < 8
        invariant
            i <= 8,
            g@.len() == 8,
            v == groups_value(nats(g@).take(i as int)),
            v < group_bound(i as int),
        decreases 8 - i,
    {
        assert(nats(g@).take(i as int + 1).drop_last() =~= nats(g@).take(i as int));
        v = v * 65536 + g[i] as u128;
        i += 1;
    }
    assert(nats(g@).take(8) =~= nats(g@));
    v
}

/// Reads an IPv6 address.
pub fn parse_ipv6(s: &str) -> (r: Option<u128>)
    ensures
        match r {
            Some(v) => ipv6(s@) == Some(v as nat),
            None => ipv6(s@) is None,
        },
{
    let cs: Vec<char> = chars_of(s);
    let mut double: Vec<char> = Vec::new();
    double.push(':');
    double.push(':');
    assert(double@ =~= seq![':', ':']);
    match cut(cs.as_slice(), double.as_slice()) {
        Some((h, t)) => {
            let a: Vec<u16> = match parse_side(h, false) {
                Some(a) => a,
                None => {
                    return None;
                },
            };
            let b: Vec<u16> = match parse_side(t, true) {
                Some(b) => b,
                None => {
                    return None;
                },
            };
            if a.len() > 7 || b.len() > 7 - a.len() {
                return None;
            }
            let mut g: Vec<u16> = a.clone();
            let ghost av = nats(a@);
            assert(g@ =~= a@);
            let fill: usize = 8 - a.len() - b.len();
            let mut i: usize = 0;
            assert(nats(g@) =~= av + zeros(0));
            while i < fill
                invariant
                    i <= fill,
                    nats(g@) == av + zeros(i as int),
                    g@.len() == av.len() + i,
                decreases fill - i,
            {
                let ghost before = g@;
                g.push(0);
                assert(nats(g@) =~= nats(before).push(0));
                assert((av + zeros(i as int)).push(0) =~= av + zeros(i as int + 1));
                i += 1;
            }
            let ghost mid = nats(g@);
            i = 0;
            assert(mid + nats(b@).take(0) =~= mid);
            while i < b.len()
                invariant
                    i <= b.len(),
                    nats(g@) == mid + nats(b@).take(i as int),
                    g@.len() == mid.len() + i,
                decreases b.len() - i,
            {
                let ghost before = g@;
                g.push(b[i]);
                assert(nats(g@) =~= nats(before).push(b@[i as int] as nat));
                assert((mid + nats(b@).take(i as int)).push(b@[i as int] as nat) =~= mid + nats(
                    b@,
                ).take(i as int + 1));
                i += 1;
            }
            assert(nats(b@).take(b@.len() as int) =~= nats(b@));
            Some(value_of(&g))
        },
        None => {
            let colon: Vec<char> = one_char(':');
            match parse_groups(&split_text(cs.as_slice(), colon.as_slice()), true) {
                Some(g) => {
                    if g.len() == 8 {
                        Some(value_of(&g))
                    } else {
                        None
                    }
                },
                None => None,
            }
        },
    }
}

// ---------------------------------------------------------------- IPv6, writing

/// The lowest `k` groups of a number, the highest of them first.
pub open spec fn groups(n: nat, k: nat) -> Seq<nat>
    decreases k,
{
    if k == 0 {
        Seq::empty()
    } else {
        groups(n / 65536, (k - 1) as nat).push(n % 65536)
    }
}

/// How many groups from `i` on are zero.
pub open spec fn run_len(g: Seq<nat>, i: int) -> int
    decreases g.len() - i,
{
    if 0 <= i < g.len() && g[i] == 0 {
        1 + run_len(g, i + 1)
    } else {
        0
    }
}

/// The start and the length of the longest run of zeros that starts before `n`, the
/// first one of that length.
pub open spec fn longest_run(g: Seq<nat>, n: int) -> (int, int)
    decreases n,
{
    if n <= 0 {
        (0, 0)
    } else {
        let b = longest_run(g, n - 1);
        if run_len(g, n - 1) > b.1 {
            (n - 1, run_len(g, n - 1))
        } else {
            b
        }
    }
}

pub open spec fn hexes(g: Seq<nat>) -> Seq<Seq<char>> {
    Seq::new(g.len(), |i: int| num::hex(g[i]))
}

/// Groups with colons between them.
pub open spec fn groups_shown(g: Seq<nat>) -> Seq<char> {
    text::join(hexes(g), seq![':'])
}

/// The address of an IPv4 host as IPv6 maps it.
pub open spec fn is_mapped(g: Seq<nat>) -> bool {
    g[0] == 0 && g[1] == 0 && g[2] == 0 && g[3] == 0 && g[4] == 0 && g[5] == 0xffff
}

/// An address as it is written: the longest run of two zero groups or more is a double
/// colon, and a mapped IPv4 address keeps its dots.
pub open spec fn ipv6_shown(n: nat) -> Seq<char> {
    let g = groups(n, 8);
    let (s, l) = longest_run(g, 8);
    if is_mapped(g) {
        "::ffff:"@ + ipv4_shown((n % 0x1_0000_0000) as u32)
    } else if l > 1 {
        groups_shown(g.take(s)) + seq![':', ':'] + groups_shown(g.skip(s + l))
    } else {
        groups_shown(g)
    }
}

proof fn lemma_groups(n: nat, k: nat)
    ensures
        groups(n, k).len() == k,
        forall|i: int| 0 <= i < k ==> (#[trigger] groups(n, k)[i]) < 65536,
    decreases k,
{
    if k > 0 {
        lemma_groups(n / 65536, (k - 1) as nat);
    }
}

proof fn lemma_run_len(g: Seq<nat>, i: int)
    requires
        0 <= i <= g.len(),
    ensures
        0 <= run_len(g, i) <= g.len() - i,
        forall|j: int| i <= j < i + run_len(g, i) ==> #[trigger] g[j] == 0,
    decreases g.len() - i,
{
    if i < g.len() && g[i] == 0 {
        lemma_run_len(g, i + 1);
    }
}

proof fn lemma_longest_run(g: Seq<nat>, n: int)
    requires
        0 <= n <= g.len(),
    ensures
        0 <= longest_run(g, n).0,
        0 <= longest_run(g, n).1,
        longest_run(g, n).0 + longest_run(g, n).1 <= g.len(),
        forall|j: int|
            longest_run(g, n).0 <= j < longest_run(g, n).0 + longest_run(g, n).1
                ==> #[trigger] g[j] == 0,
    decreases n,
{
    if n > 0 {
        lemma_longest_run(g, n - 1);
        lemma_run_len(g, n - 1);
    }
}

fn groups_text(g: &Vec<u16>, from: usize, to: usize) -> (r: String)
    requires
        from <= to <= g@.len(),
    ensures
        r@ == groups_shown(nats(g@).subrange(from as int, to as int)),
{
    let ghost want = nats(g@).subrange(from as int, to as int);
    let mut parts: Vec<String> = Vec::new();
    let mut i: usize = from;
    assert(text::texts(parts@) =~= hexes(want).take(0));
    while i < to
        invariant
            from <= i <= to <= g@.len(),
            want == nats(g@).subrange(from as int, to as int),
            text::texts(parts@) == hexes(want).take(i - from),
        decreases to - i,
    {
        let ghost before = parts@;
        let h: String = hex_text(g[i]);
        parts.push(h);
        assert(text::texts(parts@) =~= text::texts(before).push(h@));
        assert(hexes(want).take(i - from + 1) =~= hexes(want).take(i - from).push(
            num::hex(g@[i as int] as nat),
        ));
        i += 1;
    }
    assert(hexes(want).take(to - from) =~= hexes(want));
    proof {
        reveal_strlit(":");
        assert(":"@ =~= seq![':']);
    }
    join_text(&parts, ":")
}

/// Writes an IPv6 address.
pub fn ipv6_text(n: u128) -> (r: String)
    ensures
        r@ == ipv6_shown(n as nat),
{
    let mut g: Vec<u16> = Vec::new();
    let mut m: u128 = n;
    let mut i: usize = 0;
    let ghost gv = groups(n as nat, 8);
    assert(groups(n as nat, 8) + nats(g@) =~= gv);
    while i < 8
        invariant
            i <= 8,
            g@.len() == i,
            gv == groups(n as nat, 8),
            gv == groups(m as nat, (8 - i) as nat) + nats(g@),
        decreases 8 - i,
    {
        let ghost before = g@;
        let d: u16 = (m % 65536) as u16;
        g.insert(0, d);
        assert(nats(g@) =~= seq![d as nat] + nats(before));
        assert(groups(m as nat / 65536, (7 - i) as nat).push(d as nat) + nats(before) =~= groups(
            m as nat / 65536,
            (7 - i) as nat,
        ) + nats(g@));
        m = m / 65536;
        i += 1;
    }
    assert(nats(g@) =~= gv);
    let mut best: usize = 0;
    let mut len: usize = 0;
    i = 0;
    while i < 8
        invariant
            i <= 8,
            g@.len() == 8,
            gv == nats(g@),
            (best as int, len as int) == longest_run(gv, i as int),
        decreases 8 - i,
    {
        let mut k: usize = i;
        proof {
            lemma_run_len(gv, i as int);
        }
        while k < 8 && g[k] == 0
            invariant
                i <= k <= 8,
                g@.len() == 8,
                gv == nats(g@),
                run_len(gv, i as int) == (k - i) + run_len(gv, k as int),
            decreases 8 - k,
        {
            k += 1;
        }
        assert(run_len(gv, i as int) == k - i);
        if k - i > len {
            best = i;
            len = k - i;
        }
        i += 1;
    }
    proof {
        lemma_longest_run(gv, 8);
    }
    if g[0] == 0 && g[1] == 0 && g[2] == 0 && g[3] == 0 && g[4] == 0 && g[5] == 0xffff {
        let mut s: String = "::ffff:".to_owned();
        s.append(ipv4_text((n % 0x1_0000_0000) as u32).as_str());
        s
    } else if len > 1 {
        let mut s: String = groups_text(&g, 0, best);
        s.push(':');
        s.push(':');
        s.append(groups_text(&g, best + len, 8).as_str());
        assert(gv.subrange(0, best as int) =~= gv.take(best as int));
        assert(gv.subrange(best + len, 8) =~= gv.skip(best + len));
        assert(s@ =~= ipv6_shown(n as nat));
        s
    } else {
        assert(gv.subrange(0, 8) =~= gv);
        groups_text(&g, 0, 8)
    }
}

// ---------------------------------------------------------------- IPv6, round trip

proof fn lemma_group_reads_back(n: nat)
    requires
        n < 65536,
    ensures
        group(num::hex(n)) == Some(n),
        num::hex(n).len() > 0,
        !num::hex(n).contains(':'),
    decreases n,
{
    reveal_with_fuel(num::hex, 5);
    reveal_with_fuel(hex_digits_value, 5);
    let s = num::hex(n);
    assert(1 <= s.len() <= 4);
    assert(all_hex(s));
    if n < 16 {
        assert(s.drop_last() =~= Seq::empty());
    } else if n < 256 {
        assert(s.drop_last() =~= seq![num::hex_char(n / 16)]);
        assert(s.drop_last().drop_last() =~= Seq::empty());
    } else if n < 4096 {
        assert(s.drop_last() =~= seq![num::hex_char(n / 256), num::hex_char(n / 16 % 16)]);
        assert(s.drop_last().drop_last() =~= seq![num::hex_char(n / 256)]);
        assert(s.drop_last().drop_last().drop_last() =~= Seq::empty());
    } else {
        assert(n / 16 / 16 / 16 == n / 4096);
        assert(n / 16 / 16 == n / 256);
        let t = s.drop_last();
        assert(t =~= seq![
            num::hex_char(n / 4096),
            num::hex_char(n / 256 % 16),
            num::hex_char(n / 16 % 16),
        ]);
        assert(t.drop_last() =~= seq![num::hex_char(n / 4096), num::hex_char(n / 256 % 16)]);
        assert(t.drop_last().drop_last() =~= seq![num::hex_char(n / 4096)]);
        assert(t.drop_last().drop_last().drop_last() =~= Seq::empty());
    }
    if s.contains(':') {
        let j = choose|j: int| 0 <= j < s.len() && s[j] == ':';
        assert(num::hex_value(s[j]) is Some);
    }
}

proof fn lemma_plain_of_hexes(g: Seq<nat>)
    requires
        forall|i: int| 0 <= i < g.len() ==> (#[trigger] g[i]) < 65536,
    ensures
        plain_groups(hexes(g)) == Some(g),
    decreases g.len(),
{
    if g.len() == 0 {
        assert(g =~= Seq::empty());
    } else {
        assert forall|i: int| 0 <= i < g.drop_last().len() implies (#[trigger] g.drop_last()[i])
            < 65536 by {
            assert(g.drop_last()[i] == g[i]);
        }
        lemma_plain_of_hexes(g.drop_last());
        assert(hexes(g).drop_last() =~= hexes(g.drop_last()));
        assert(g[g.len() - 1] < 65536);
        lemma_group_reads_back(g.last());
        assert(g.drop_last().push(g.last()) =~= g);
    }
}

spec fn no_double_colon(s: Seq<char>) -> bool {
    forall|i: int, j: int|
        #![trigger s[i], s[j]]
        0 <= i && j == i + 1 && j < s.len() && s[i] == ':' ==> s[j] != ':'
}

/// Pieces that are not empty and hold no colon, with colons between them, hold no two
/// colons in a row, and neither start nor end with one.
proof fn lemma_no_double_colon(parts: Seq<Seq<char>>)
    requires
        parts.len() > 0,
        forall|i: int|
            0 <= i < parts.len() ==> (#[trigger] parts[i]).len() > 0 && !parts[i].contains(':'),
    ensures
        ({
            let s = text::join(parts, seq![':']);
            &&& s.len() > 0
            &&& s[0] != ':'
            &&& s.last() != ':'
            &&& no_double_colon(s)
        }),
    decreases parts.len(),
{
    let s = text::join(parts, seq![':']);
    text::lemma_join_first(parts, seq![':']);
    let p = parts[0];
    assert forall|i: int| 0 <= i < p.len() implies #[trigger] p[i] != ':' by {
        assert(p.contains(p[i]));
    }
    if parts.len() > 1 {
        let rest = parts.skip(1);
        assert forall|i: int| 0 <= i < rest.len() implies (#[trigger] rest[i]).len() > 0
            && !rest[i].contains(':') by {
            assert(rest[i] == parts[i + 1]);
        }
        lemma_no_double_colon(rest);
        let r = text::join(rest, seq![':']);
        assert(s =~= p + seq![':'] + r);
        assert forall|i: int, j: int|
            #![trigger s[i], s[j]]
            0 <= i && j == i + 1 && j < s.len() && s[i] == ':' implies s[j] != ':' by {
            if i < p.len() {
                assert(p[i] != ':');
            } else if i > p.len() {
                assert(r[i - p.len() - 1] == s[i]);
                assert(r[j - p.len() - 1] == s[j]);
            }
        }
    }
}

proof fn lemma_groups_shown(g: Seq<nat>)
    requires
        g.len() > 0,
        forall|i: int| 0 <= i < g.len() ==> (#[trigger] g[i]) < 65536,
    ensures
        text::split(groups_shown(g), seq![':']) == hexes(g),
        ({
            let s = groups_shown(g);
            &&& s.len() > 0
            &&& s.last() != ':'
            &&& no_double_colon(s)
        }),
        side(groups_shown(g), false) == Some(g),
        side(groups_shown(g), true) == Some(g),
{
    assert forall|i: int| 0 <= i < hexes(g).len() implies (#[trigger] hexes(g)[i]).len() > 0
        && !hexes(g)[i].contains(':') by {
        assert(g[i] < 65536);
        lemma_group_reads_back(g[i]);
    }
    lemma_no_double_colon(hexes(g));
    text::lemma_split_of_join(hexes(g), ':');
    lemma_plain_of_hexes(g);
}

proof fn lemma_double_colon(s: Seq<char>, j: int)
    requires
        0 <= j < s.len() - 1,
    ensures
        text::occurs_at(s, seq![':', ':'], j) == (s[j] == ':' && s[j + 1] == ':'),
{
    let w = s.subrange(j, j + 2);
    assert(w[0] == s[j] && w[1] == s[j + 1]);
    if s[j] == ':' && s[j + 1] == ':' {
        assert(w =~= seq![':', ':']);
    } else {
        assert(seq![':', ':'][0] == ':' && seq![':', ':'][1] == ':');
    }
}

/// Where `a` holds no double colon and does not end with a colon, the double colon
/// behind it is the first.
proof fn lemma_double_colon_at(a: Seq<char>, b: Seq<char>)
    requires
        a.len() > 0 ==> a.last() != ':',
        no_double_colon(a),
    ensures
        text::split_once(a + seq![':', ':'] + b, seq![':', ':']) == Some((a, b)),
{
    let s = a + seq![':', ':'] + b;
    let k = a.len() as int;
    let p = seq![':', ':'];
    lemma_double_colon(s, k);
    assert forall|j: int| 0 <= j < k implies !#[trigger] text::occurs_at(s, p, j) by {
        lemma_double_colon(s, j);
        assert(s[j] == a[j]);
        if j + 1 < k {
            assert(s[j + 1] == a[j + 1]);
        }
    }
    text::lemma_found_at(s, p, k);
    assert(s.take(k) =~= a);
    assert(s.skip(k + 2) =~= b);
}

proof fn lemma_groups_value(n: nat, k: nat)
    requires
        k <= 8,
        n < group_bound(k as int),
    ensures
        groups_value(groups(n, k)) == n,
    decreases k,
{
    if k > 0 {
        lemma_groups_value(n / 65536, (k - 1) as nat);
        assert(groups(n, k).drop_last() =~= groups(n / 65536, (k - 1) as nat));
    }
}

/// An IPv4 address holds dots and no colon.
proof fn lemma_ipv4_shape(n: u32)
    ensures
        !ipv4_shown(n).contains(':'),
        !all_hex(ipv4_shown(n)),
{
    let parts = seq![
        num::decimal(n as nat / 16777216),
        num::decimal(n as nat / 65536 % 256),
        num::decimal(n as nat / 256 % 256),
        num::decimal(n as nat % 256),
    ];
    lemma_octet(n as nat / 16777216);
    lemma_octet(n as nat / 65536 % 256);
    lemma_octet(n as nat / 256 % 256);
    lemma_octet(n as nat % 256);
    assert forall|i: int| 0 <= i < parts.len() implies !(#[trigger] parts[i]).contains(':') by {
        if i == 0 {
        } else if i == 1 {
        } else if i == 2 {
        } else {
            assert(i == 3);
        }
    }
    text::lemma_join_without(parts, seq!['.'], ':');
    text::lemma_join_first(parts, seq!['.']);
    assert(ipv4_shown(n)[parts[0].len() as int] == '.');
}

proof fn lemma_ffff()
    ensures
        group(seq!['f', 'f', 'f', 'f']) == Some(0xffffnat),
{
    let f4 = seq!['f', 'f', 'f', 'f'];
    let f3 = f4.drop_last();
    let f2 = f3.drop_last();
    let f1 = f2.drop_last();
    assert(hex_digits_value(f1.drop_last()) == 0);
    assert(hex_digits_value(f1) == 15);
    assert(hex_digits_value(f2) == 255);
    assert(hex_digits_value(f3) == 4095);
    assert(hex_digits_value(f4) == 65535);
}

/// The groups of `ffff` and an IPv4 address.
proof fn lemma_mapped_side(low: u32)
    ensures
        side(seq!['f', 'f', 'f', 'f'] + seq![':'] + ipv4_shown(low), true) == Some(
            seq![0xffffnat, low as nat / 65536, low as nat % 65536],
        ),
{
    let v4 = ipv4_shown(low);
    let ffff = seq!['f', 'f', 'f', 'f'];
    lemma_ipv4_shape(low);
    law_ipv4_reads_back(low);
    lemma_ffff();
    let two = seq![ffff, v4];
    assert(two.drop_last() =~= seq![ffff]);
    assert(text::join(seq![ffff], seq![':']) == ffff);
    let t = ffff + seq![':'] + v4;
    assert(text::join(two, seq![':']) =~= t);
    assert forall|i: int| 0 <= i < two.len() implies !(#[trigger] two[i]).contains(':') by {
        if i == 0 {
        } else {
            assert(i == 1);
        }
    }
    text::lemma_split_of_join(two, ':');
    assert(group(v4) is None);
    assert(plain_groups(two) is None);
    assert(plain_groups(seq![ffff].drop_last()) == Some(Seq::<nat>::empty()));
    assert(plain_groups(seq![ffff]) == Some(Seq::<nat>::empty().push(0xffffnat)));
    assert(Seq::<nat>::empty().push(0xffffnat).push(low as nat / 65536).push(low as nat % 65536)
        =~= seq![0xffffnat, low as nat / 65536, low as nat % 65536]);
}

/// The lowest two words of a number.
#[verifier::spinoff_prover]
proof fn lemma_low_words(n: int)
    requires
        0 <= n,
    ensures
        n % 0x1_0000_0000 % 65536 == n % 65536,
        n % 0x1_0000_0000 / 65536 == n / 65536 % 65536,
{
    let h = n / 0x1_0000_0000;
    let low = n % 0x1_0000_0000;
    let x = n / 65536;
    vstd::arithmetic::div_mod::lemma_div_denominator(n, 65536, 65536);
    assert(x / 65536 == h);
    assert(n == h * 0x1_0000_0000 + low);
    assert(n == x * 65536 + n % 65536);
    assert(x == h * 65536 + x % 65536);
    assert(low == x % 65536 * 65536 + n % 65536);
}

/// The last two groups are the lowest 32 bits.
#[verifier::spinoff_prover]
proof fn lemma_last_groups(n: nat)
    ensures
        groups(n, 8).len() == 8,
        groups(n, 8)[7] == n % 0x1_0000_0000 % 65536,
        groups(n, 8)[6] == n % 0x1_0000_0000 / 65536,
{
    lemma_low_words(n as int);
    lemma_groups(n, 8);
    lemma_groups(n / 65536, 7);
    lemma_groups(n / 65536 / 65536, 6);
    assert(groups(n, 8)[6] == groups(n / 65536, 7)[6]);
}

proof fn lemma_mapped_reads_back(n: nat)
    requires
        is_mapped(groups(n, 8)),
    ensures
        ipv6_groups("::ffff:"@ + ipv4_shown((n % 0x1_0000_0000) as u32)) == Some(groups(n, 8)),
{
    let low = (n % 0x1_0000_0000) as u32;
    let t = seq!['f', 'f', 'f', 'f'] + seq![':'] + ipv4_shown(low);
    let s = "::ffff:"@ + ipv4_shown(low);
    reveal_strlit("::ffff:");
    lemma_mapped_side(low);
    lemma_double_colon_at(Seq::empty(), t);
    assert(s =~= Seq::<char>::empty() + seq![':', ':'] + t);
    let g = groups(n, 8);
    lemma_last_groups(n);
    let b = seq![0xffffnat, low as nat / 65536, low as nat % 65536];
    assert(text::split_once(s, seq![':', ':']) == Some((Seq::<char>::empty(), t)));
    assert(side(Seq::empty(), false) == Some(Seq::<nat>::empty()));
    assert(Seq::<nat>::empty() + zeros(5) + b =~= g);
}

/// What is written of an IPv6 address, read again, gives the address.
pub proof fn law_ipv6_reads_back(n: u128)
    ensures
        ipv6(ipv6_shown(n as nat)) == Some(n as nat),
{
    let g = groups(n as nat, 8);
    lemma_groups(n as nat, 8);
    lemma_groups_value(n as nat, 8);
    let (s, l) = longest_run(g, 8);
    lemma_longest_run(g, 8);
    if is_mapped(g) {
        lemma_mapped_reads_back(n as nat);
    } else if l > 1 {
        let a = g.take(s);
        let b = g.skip(s + l);
        let x = groups_shown(a);
        let y = groups_shown(b);
        assert forall|i: int| 0 <= i < a.len() implies (#[trigger] a[i]) < 65536 by {
            assert(a[i] == g[i]);
        }
        assert forall|i: int| 0 <= i < b.len() implies (#[trigger] b[i]) < 65536 by {
            assert(b[i] == g[s + l + i]);
        }
        if a.len() > 0 {
            lemma_groups_shown(a);
        } else {
            assert(x =~= Seq::empty());
            assert(a =~= Seq::empty());
        }
        if b.len() > 0 {
            lemma_groups_shown(b);
        } else {
            assert(y =~= Seq::empty());
            assert(b =~= Seq::empty());
        }
        lemma_double_colon_at(x, y);
        assert(a + zeros(8 - a.len() - b.len()) + b =~= g);
    } else {
        lemma_groups_shown(g);
        let x = groups_shown(g);
        text::lemma_find_from(x, seq![':', ':'], 0);
        if let Some(k) = text::find(x, seq![':', ':']) {
            let w = x.subrange(k, k + 2);
            assert(w[0] == ':' && w[1] == ':');
            assert(x[k] == ':' && x[k + 1] == ':');
        }
    }
}

/// An IPv4 address holds no slash.
pub proof fn lemma_ipv4_characters(n: u32)
    ensures
        !ipv4_shown(n).contains('/'),
{
    let parts = seq![
        num::decimal(n as nat / 16777216),
        num::decimal(n as nat / 65536 % 256),
        num::decimal(n as nat / 256 % 256),
        num::decimal(n as nat % 256),
    ];
    assert forall|i: int| 0 <= i < parts.len() implies !(#[trigger] parts[i]).contains('/') by {
        if i == 0 {
            lemma_decimal_without_slash(n as nat / 16777216);
        } else if i == 1 {
            lemma_decimal_without_slash(n as nat / 65536 % 256);
        } else if i == 2 {
            lemma_decimal_without_slash(n as nat / 256 % 256);
        } else {
            lemma_decimal_without_slash(n as nat % 256);
        }
    }
    text::lemma_join_without(parts, seq!['.'], '/');
}

proof fn lemma_decimal_without_slash(n: nat)
    ensures
        !num::decimal(n).contains('/'),
{
    num::lemma_decimal_reads_back(n);
    let d = num::decimal(n);
    if d.contains('/') {
        let j = choose|j: int| 0 <= j < d.len() && d[j] == '/';
        assert(num::is_digit(d[j]));
    }
}

proof fn lemma_groups_without_slash(g: Seq<nat>)
    requires
        forall|i: int| 0 <= i < g.len() ==> (#[trigger] g[i]) < 65536,
    ensures
        !groups_shown(g).contains('/'),
{
    assert forall|i: int| 0 <= i < hexes(g).len() implies !(#[trigger] hexes(g)[i]).contains(
        '/',
    ) by {
        assert(g[i] < 65536);
        lemma_group_reads_back(g[i]);
        let h = num::hex(g[i]);
        if h.contains('/') {
            let j = choose|j: int| 0 <= j < h.len() && h[j] == '/';
            assert(num::hex_value(h[j]) is Some);
        }
    }
    text::lemma_join_without(hexes(g), seq![':'], '/');
}

/// An IPv6 address holds no slash.
pub proof fn lemma_ipv6_characters(n: u128)
    ensures
        !ipv6_shown(n as nat).contains('/'),
{
    let g = groups(n as nat, 8);
    lemma_groups(n as nat, 8);
    lemma_longest_run(g, 8);
    let (s, l) = longest_run(g, 8);
    if is_mapped(g) {
        reveal_strlit("::ffff:");
        let low = (n as nat % 0x1_0000_0000) as u32;
        lemma_ipv4_characters(low);
        assert(!"::ffff:"@.contains('/'));
        text::lemma_sum_without("::ffff:"@, ipv4_shown(low), '/');
    } else if l > 1 {
        let a = g.take(s);
        let b = g.skip(s + l);
        assert forall|i: int| 0 <= i < a.len() implies (#[trigger] a[i]) < 65536 by {
            assert(a[i] == g[i]);
        }
        assert forall|i: int| 0 <= i < b.len() implies (#[trigger] b[i]) < 65536 by {
            assert(b[i] == g[s + l + i]);
        }
        lemma_groups_without_slash(a);
        lemma_groups_without_slash(b);
        text::lemma_sum_without(groups_shown(a), seq![':', ':'], '/');
        text::lemma_sum_without(groups_shown(a) + seq![':', ':'], groups_shown(b), '/');
    } else {
        lemma_groups_without_slash(g);
    }
}

/// An IPv4 address is written in one way alone: what is read as one is how it is shown.
pub proof fn law_ipv4_is_written_one_way(s: Seq<char>, n: u32)
    requires
        ipv4(s) == Some(n),
    ensures
        ipv4_shown(n) == s,
{
    let p = text::split(s, seq!['.']);
    text::lemma_split_join(s, seq!['.']);
    num::law_number_is_written_one_way(p[0]);
    num::law_number_is_written_one_way(p[1]);
    num::law_number_is_written_one_way(p[2]);
    num::law_number_is_written_one_way(p[3]);
    let a = octet(p[0])->0;
    let b = octet(p[1])->0;
    let c = octet(p[2])->0;
    let d = octet(p[3])->0;
    let m = n as int;
    assert(m == a * 16777216 + b * 65536 + c * 256 + d);
    assert(m / 16777216 == a);
    assert(m / 65536 == a * 256 + b);
    assert(m / 256 == a * 65536 + b * 256 + c);
    assert((a * 256 + b) % 256 == b);
    assert((a * 65536 + b * 256 + c) % 256 == c);
    assert(m % 256 == d);
    assert(p =~= seq![
        num::decimal(n as nat / 16777216),
        num::decimal(n as nat / 65536 % 256),
        num::decimal(n as nat / 256 % 256),
        num::decimal(n as nat % 256),
    ]);
}

} // verus!
