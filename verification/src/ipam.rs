//! Subnets, and the leases of addresses in them.
//!
//! Every lease names its subnet, so none lies outside: addresses come from the usable
//! range, without the network's own address, its broadcast address and its gateway.

use vstd::arithmetic::power2::pow2;
use vstd::prelude::*;

use crate::addr::{self, ipv4_text, ipv6_text, parse_ipv4, parse_ipv6};
use crate::num::{self, decimal_text, parse_unsigned};
use crate::table::Table;
use crate::text::{self, chars_of, cut_char, same, string_of};
use crate::unicode::{self, quote};

verus! {

// ---------------------------------------------------------------- IPv4 subnets

/// An IPv4 subnet.
#[derive(Debug, Clone, Copy, PartialEq, Eq, Structural)]
pub struct Subnet {
    /// The network's address, its host bits zero.
    pub network: u32,
    pub prefix: u8,
}

/// How many addresses a prefix leaves.
pub open spec fn span(prefix: int) -> nat {
    pow2((32 - prefix) as nat)
}

impl Subnet {
    /// A subnet with two usable addresses at least, its host bits zero.
    pub open spec fn wf(self) -> bool {
        &&& self.prefix <= 30
        &&& self.network as nat % span(self.prefix as int) == 0
    }

    /// The first usable address.
    pub open spec fn first(self) -> int {
        self.network + 1
    }

    /// The last usable address.
    pub open spec fn last(self) -> int {
        self.network + span(self.prefix as int) - 2
    }

    pub open spec fn usable(self, ip: int) -> bool {
        self.first() <= ip <= self.last()
    }

    pub open spec fn shown(self) -> Seq<char> {
        addr::ipv4_shown(self.network) + seq!['/'] + num::decimal(self.prefix as nat)
    }

    /// Some address is usable in both.
    pub open spec fn shares(self, other: Subnet) -> bool {
        exists|ip: int| #[trigger] self.usable(ip) && other.usable(ip)
    }
}

/// The subnet that `ip` lies in.
pub open spec fn masked(ip: u32, prefix: u8) -> Subnet {
    Subnet { network: (ip as nat - ip as nat % span(prefix as int)) as u32, prefix }
}

/// The subnet that `cidr` writes, or why it writes none.
pub open spec fn subnet_of(cidr: Seq<char>) -> Result<Subnet, Seq<char>> {
    match text::split_once(cidr, seq!['/']) {
        Some((a, p)) => match addr::ipv4(a) {
            Some(ip) => match num::unsigned(p, 255) {
                Some(n) => if n > 30 {
                    Err(
                        "invalid subnet "@ + unicode::quoted(cidr)
                            + " (prefix must leave host addresses)"@,
                    )
                } else {
                    Ok(masked(ip, n as u8))
                },
                None => Err("invalid subnet prefix in "@ + unicode::quoted(cidr)),
            },
            None => Err("invalid subnet address in "@ + unicode::quoted(cidr)),
        },
        None => Err("invalid subnet "@ + unicode::quoted(cidr) + " (want a.b.c.d/p)"@),
    }
}

/// The number of addresses under a prefix.
pub proof fn lemma_span(prefix: int)
    requires
        0 <= prefix <= 32,
    ensures
        1 <= span(prefix) <= 0x1_0000_0000,
        prefix <= 30 ==> span(prefix) >= 4,
        prefix > 0 ==> span(prefix - 1) == 2 * span(prefix),
        span(32) == 1,
    decreases 32 - prefix,
{
    vstd::arithmetic::power2::lemma2_to64();
    if prefix > 0 {
        vstd::arithmetic::power2::lemma_pow2_unfold((33 - prefix) as nat);
    }
    if prefix < 32 {
        lemma_span(prefix + 1);
        vstd::arithmetic::power2::lemma_pow2_unfold((32 - prefix) as nat);
    }
    if prefix < 31 {
        vstd::arithmetic::power2::lemma_pow2_unfold((31 - prefix) as nat);
        lemma_span(prefix + 2);
    }
    if prefix == 0 {
        lemma_span_zero();
    }
}

proof fn lemma_span_zero()
    ensures
        span(0) == 0x1_0000_0000,
{
    vstd::arithmetic::power2::lemma2_to64();
}

/// A subnet stays below the end of the address space.
pub proof fn lemma_subnet_fits(s: Subnet)
    requires
        s.wf(),
    ensures
        s.network + span(s.prefix as int) <= 0x1_0000_0000,
        span(s.prefix as int) >= 4,
        s.first() < s.last(),
{
    let p = s.prefix as int;
    let w = span(p) as int;
    lemma_span(p);
    vstd::arithmetic::power2::lemma_pow2_adds((32 - p) as nat, p as nat);
    vstd::arithmetic::power2::lemma2_to64();
    let c = pow2(p as nat) as int;
    let n = s.network as int;
    assert(w * c == 0x1_0000_0000);
    vstd::arithmetic::div_mod::lemma_fundamental_div_mod(n, w);
    let q = n / w;
    assert(n == w * q);
    assert(q < c) by (nonlinear_arith)
        requires
            n == w * q,
            w * c == 0x1_0000_0000,
            n < 0x1_0000_0000,
            w >= 4,
    ;
    assert(w * q + w <= w * c) by (nonlinear_arith)
        requires
            q < c,
            w >= 4,
    ;
}

proof fn lemma_masked(ip: u32, prefix: u8)
    requires
        prefix <= 30,
    ensures
        masked(ip, prefix).wf(),
        masked(ip, prefix).network == ip as nat - ip as nat % span(prefix as int),
        masked(ip, prefix).network <= ip < masked(ip, prefix).network + span(prefix as int),
{
    lemma_span(prefix as int);
    let w = span(prefix as int) as int;
    let n = ip as int;
    vstd::arithmetic::div_mod::lemma_fundamental_div_mod(n, w);
    vstd::arithmetic::div_mod::lemma_mod_multiples_basic(n / w, w);
    assert(n - n % w == (n / w) * w) by (nonlinear_arith)
        requires
            n == w * (n / w) + n % w,
    ;
}

/// What is read as a subnet is one.
pub proof fn lemma_subnet_of(cidr: Seq<char>)
    ensures
        subnet_of(cidr) matches Ok(s) ==> s.wf(),
{
    if let Ok(s) = subnet_of(cidr) {
        let (a, p) = text::split_once(cidr, seq!['/'])->0;
        lemma_masked(addr::ipv4(a)->0, num::unsigned(p, 255)->0 as u8);
    }
}

fn span_of(prefix: u8) -> (r: u64)
    requires
        prefix <= 32,
    ensures
        r == span(prefix as int),
{
    let mut w: u64 = 1;
    let mut p: u8 = 32;
    proof {
        lemma_span(32);
    }
    while p > prefix
        invariant
            prefix <= p <= 32,
            w == span(p as int),
        decreases p,
    {
        proof {
            lemma_span(p as int);
            lemma_span(p - 1);
        }
        w = w * 2;
        p = p - 1;
    }
    w
}

impl Subnet {
    /// Reads `a.b.c.d/p`. Host bits are cleared; a prefix that leaves no usable address
    /// is refused.
    pub fn parse(cidr: &str) -> (r: Result<Subnet, String>)
        ensures
            match r {
                Ok(s) => subnet_of(cidr@) == Ok::<Subnet, Seq<char>>(s) && s.wf(),
                Err(e) => subnet_of(cidr@) == Err::<Subnet, Seq<char>>(e@),
            },
    {
        let cs: Vec<char> = chars_of(cidr);
        match cut_char(cs.as_slice(), '/') {
            Some((a, p)) => {
                let ip: u32 = match parse_ipv4(string_of(a).as_str()) {
                    Some(ip) => ip,
                    None => {
                        let mut e: String = "invalid subnet address in ".to_owned();
                        e.append(quote(cidr).as_str());
                        return Err(e);
                    },
                };
                let prefix: u8 = match parse_unsigned(p, 255) {
                    Some(n) => n as u8,
                    None => {
                        let mut e: String = "invalid subnet prefix in ".to_owned();
                        e.append(quote(cidr).as_str());
                        return Err(e);
                    },
                };
                if prefix > 30 {
                    let mut e: String = "invalid subnet ".to_owned();
                    e.append(quote(cidr).as_str());
                    e.append(" (prefix must leave host addresses)");
                    return Err(e);
                }
                proof {
                    lemma_masked(ip, prefix);
                    lemma_span(prefix as int);
                }
                let w: u64 = span_of(prefix);
                let network: u32 = (ip as u64 - ip as u64 % w) as u32;
                Ok(Subnet { network, prefix })
            },
            None => {
                let mut e: String = "invalid subnet ".to_owned();
                e.append(quote(cidr).as_str());
                e.append(" (want a.b.c.d/p)");
                Err(e)
            },
        }
    }

    /// The first and the last usable address.
    pub fn usable_range(&self) -> (r: (u32, u32))
        requires
            self.wf(),
        ensures
            r.0 == self.first(),
            r.1 == self.last(),
    {
        proof {
            lemma_subnet_fits(*self);
        }
        let w: u64 = span_of(self.prefix);
        (self.network + 1, (self.network as u64 + w - 2) as u32)
    }

    /// Whether an address is usable in the subnet.
    pub fn contains(&self, ip: u32) -> (r: bool)
        requires
            self.wf(),
        ensures
            r == self.usable(ip as int),
    {
        let (lo, hi) = self.usable_range();
        lo <= ip && ip <= hi
    }

    /// Whether some address is usable in both subnets; a shared edge does not count.
    pub fn overlaps(&self, other: &Subnet) -> (r: bool)
        requires
            self.wf(),
            other.wf(),
        ensures
            r == self.shares(*other),
    {
        let (a_lo, a_hi) = self.usable_range();
        let (b_lo, b_hi) = other.usable_range();
        proof {
            lemma_subnet_fits(*self);
            lemma_subnet_fits(*other);
            if a_lo <= b_hi && b_lo <= a_hi {
                let ip = if a_lo <= b_lo {
                    b_lo as int
                } else {
                    a_lo as int
                };
                assert(self.usable(ip) && other.usable(ip));
            }
        }
        a_lo <= b_hi && b_lo <= a_hi
    }

    pub fn cidr(&self) -> (r: String)
        ensures
            r@ == self.shown(),
    {
        let mut s: String = ipv4_text(self.network);
        s.push('/');
        s.append(decimal_text(self.prefix as u128).as_str());
        assert(s@ =~= self.shown());
        s
    }
}

/// The gateway of a subnet where none is given: its first usable address.
pub fn default_gateway(subnet: &Subnet) -> (r: u32)
    requires
        subnet.wf(),
    ensures
        r == subnet.first(),
        subnet.usable(r as int),
{
    proof {
        lemma_subnet_fits(*subnet);
    }
    subnet.usable_range().0
}

// ---------------------------------------------------------------- IPv6 subnets

/// An IPv6 subnet.
#[derive(Debug, Clone, Copy, PartialEq, Eq, Structural)]
pub struct V6Subnet {
    /// The network's address, its host bits zero.
    pub network: u128,
    pub prefix: u8,
}

/// How many addresses a prefix leaves.
pub open spec fn span6(prefix: int) -> nat {
    pow2((128 - prefix) as nat)
}

impl V6Subnet {
    pub open spec fn wf(self) -> bool {
        &&& self.prefix <= 126
        &&& self.network as nat % span6(self.prefix as int) == 0
    }

    pub open spec fn first(self) -> int {
        self.network + 1
    }

    pub open spec fn last(self) -> int {
        self.network + span6(self.prefix as int) - 1
    }

    /// Every address behind the network's own is usable: there is no broadcast.
    pub open spec fn usable(self, ip: int) -> bool {
        self.first() <= ip <= self.last()
    }

    pub open spec fn shown(self) -> Seq<char> {
        addr::ipv6_shown(self.network as nat) + seq!['/'] + num::decimal(self.prefix as nat)
    }

    pub open spec fn shares(self, other: V6Subnet) -> bool {
        exists|ip: int| #[trigger] self.usable(ip) && other.usable(ip)
    }
}

pub open spec fn masked6(ip: nat, prefix: nat) -> V6Subnet {
    V6Subnet { network: (ip - ip % span6(prefix as int)) as u128, prefix: prefix as u8 }
}

/// The subnet that `cidr` writes, or why it writes none.
pub open spec fn subnet6_of(cidr: Seq<char>) -> Result<V6Subnet, Seq<char>> {
    match text::split_once(cidr, seq!['/']) {
        Some((a, p)) => match addr::ipv6(a) {
            Some(ip) => match num::unsigned(p, 255) {
                Some(n) => if n > 126 {
                    Err(
                        "invalid subnet "@ + unicode::quoted(cidr)
                            + " (prefix must leave host addresses)"@,
                    )
                } else {
                    Ok(masked6(ip, n))
                },
                None => Err("invalid subnet prefix in "@ + unicode::quoted(cidr)),
            },
            None => Err("invalid subnet address in "@ + unicode::quoted(cidr)),
        },
        None => Err("invalid subnet "@ + unicode::quoted(cidr) + " (want addr/p)"@),
    }
}

proof fn lemma_span6_step(prefix: int)
    requires
        0 < prefix <= 128,
    ensures
        span6(prefix - 1) == 2 * span6(prefix),
{
    vstd::arithmetic::power2::lemma_pow2_unfold((129 - prefix) as nat);
}

pub proof fn lemma_span6(prefix: int)
    requires
        0 <= prefix <= 128,
    ensures
        1 <= span6(prefix) <= u128::MAX + 1,
        prefix <= 126 ==> span6(prefix) >= 4,
        span6(128) == 1,
        span6(64) == 0x1_0000_0000_0000_0000,
        span6(0) == u128::MAX + 1,
    decreases 128 - prefix,
{
    vstd::arithmetic::power2::lemma2_to64();
    vstd::arithmetic::power2::lemma2_to64_rest();
    vstd::arithmetic::power2::lemma_pow2_adds(64, 64);
    if prefix < 128 {
        lemma_span6(prefix + 1);
        lemma_span6_step(prefix + 1);
    }
    if prefix < 127 {
        lemma_span6_step(prefix + 2);
        vstd::arithmetic::power2::lemma_pow2_pos((126 - prefix) as nat);
    }
    if prefix > 0 {
        vstd::arithmetic::power2::lemma_pow2_strictly_increases((128 - prefix) as nat, 128);
    }
}

/// A subnet stays below the end of the address space.
pub proof fn lemma_subnet6_fits(s: V6Subnet)
    requires
        s.wf(),
    ensures
        s.network + span6(s.prefix as int) <= u128::MAX + 1,
        span6(s.prefix as int) >= 4,
{
    let p = s.prefix as int;
    let w = span6(p) as int;
    lemma_span6(p);
    lemma_span6(0);
    vstd::arithmetic::power2::lemma_pow2_adds((128 - p) as nat, p as nat);
    let c = pow2(p as nat) as int;
    let n = s.network as int;
    let top = u128::MAX + 1;
    assert(w * c == top);
    vstd::arithmetic::div_mod::lemma_fundamental_div_mod(n, w);
    let q = n / w;
    assert(n == w * q);
    assert(q < c) by (nonlinear_arith)
        requires
            n == w * q,
            w * c == top,
            n < top,
            w >= 4,
    ;
    assert(w * q + w <= w * c) by (nonlinear_arith)
        requires
            q < c,
            w >= 4,
    ;
}

proof fn lemma_masked6(ip: u128, prefix: nat)
    requires
        prefix <= 126,
    ensures
        masked6(ip as nat, prefix).wf(),
        masked6(ip as nat, prefix).prefix == prefix,
        masked6(ip as nat, prefix).network == ip as nat - ip as nat % span6(prefix as int),
{
    lemma_span6(prefix as int);
    let w = span6(prefix as int) as int;
    let n = ip as int;
    vstd::arithmetic::div_mod::lemma_fundamental_div_mod(n, w);
    vstd::arithmetic::div_mod::lemma_mod_multiples_basic(n / w, w);
    assert(n - n % w == (n / w) * w) by (nonlinear_arith)
        requires
            n == w * (n / w) + n % w,
    ;
}

/// The greatest offset of an address under a prefix.
fn host_mask(prefix: u8) -> (r: u128)
    requires
        prefix <= 128,
    ensures
        r == span6(prefix as int) - 1,
{
    let mut m: u128 = 0;
    let mut p: u8 = 128;
    proof {
        lemma_span6(128);
    }
    while p > prefix
        invariant
            prefix <= p <= 128,
            m == span6(p as int) - 1,
        decreases p,
    {
        proof {
            lemma_span6_step(p as int);
            lemma_span6(p - 1);
        }
        m = m * 2 + 1;
        p = p - 1;
    }
    m
}

impl V6Subnet {
    /// Reads `addr/p`. Host bits are cleared; a prefix that leaves no usable address is
    /// refused.
    pub fn parse(cidr: &str) -> (r: Result<V6Subnet, String>)
        ensures
            match r {
                Ok(s) => subnet6_of(cidr@) == Ok::<V6Subnet, Seq<char>>(s) && s.wf(),
                Err(e) => subnet6_of(cidr@) == Err::<V6Subnet, Seq<char>>(e@),
            },
    {
        let cs: Vec<char> = chars_of(cidr);
        match cut_char(cs.as_slice(), '/') {
            Some((a, p)) => {
                let ip: u128 = match parse_ipv6(string_of(a).as_str()) {
                    Some(ip) => ip,
                    None => {
                        let mut e: String = "invalid subnet address in ".to_owned();
                        e.append(quote(cidr).as_str());
                        return Err(e);
                    },
                };
                let prefix: u8 = match parse_unsigned(p, 255) {
                    Some(n) => n as u8,
                    None => {
                        let mut e: String = "invalid subnet prefix in ".to_owned();
                        e.append(quote(cidr).as_str());
                        return Err(e);
                    },
                };
                if prefix > 126 {
                    let mut e: String = "invalid subnet ".to_owned();
                    e.append(quote(cidr).as_str());
                    e.append(" (prefix must leave host addresses)");
                    return Err(e);
                }
                let m: u128 = host_mask(prefix);
                proof {
                    lemma_masked6(ip, prefix as nat);
                    lemma_span6(prefix as int);
                }
                let network: u128 = if m == u128::MAX {
                    proof {
                        vstd::arithmetic::div_mod::lemma_small_mod(ip as nat, span6(prefix as int));
                    }
                    0
                } else {
                    ip - ip % (m + 1)
                };
                Ok(V6Subnet { network, prefix })
            },
            None => {
                let mut e: String = "invalid subnet ".to_owned();
                e.append(quote(cidr).as_str());
                e.append(" (want addr/p)");
                Err(e)
            },
        }
    }

    /// The first and the last usable address.
    pub fn usable_range(&self) -> (r: (u128, u128))
        requires
            self.wf(),
        ensures
            r.0 == self.first(),
            r.1 == self.last(),
    {
        proof {
            lemma_subnet6_fits(*self);
        }
        let m: u128 = host_mask(self.prefix);
        (self.network + 1, self.network + m)
    }

    pub fn overlaps(&self, other: &V6Subnet) -> (r: bool)
        requires
            self.wf(),
            other.wf(),
        ensures
            r == self.shares(*other),
    {
        let (a_lo, a_hi) = self.usable_range();
        let (b_lo, b_hi) = other.usable_range();
        proof {
            lemma_subnet6_fits(*self);
            lemma_subnet6_fits(*other);
            if a_lo <= b_hi && b_lo <= a_hi {
                let ip = if a_lo <= b_lo {
                    b_lo as int
                } else {
                    a_lo as int
                };
                assert(self.usable(ip) && other.usable(ip));
            }
        }
        a_lo <= b_hi && b_lo <= a_hi
    }

    pub fn cidr(&self) -> (r: String)
        ensures
            r@ == self.shown(),
    {
        let mut s: String = ipv6_text(self.network);
        s.push('/');
        s.append(decimal_text(self.prefix as u128).as_str());
        assert(s@ =~= self.shown());
        s
    }
}

/// The gateway of an IPv6 subnet: its first usable address.
pub fn default_gateway_v6(subnet: &V6Subnet) -> (r: u128)
    requires
        subnet.wf(),
    ensures
        r == subnet.first(),
{
    proof {
        lemma_subnet6_fits(*subnet);
    }
    subnet.network + 1
}

// ---------------------------------------------------------------- laws of subnets

/// Clearing host bits twice is clearing them once, and the address lies in its subnet.
pub proof fn law_masking(ip: u32, prefix: u8)
    requires
        prefix <= 30,
    ensures
        masked(ip, prefix).wf(),
        masked(masked(ip, prefix).network, prefix) == masked(ip, prefix),
        masked(ip, prefix).network <= ip < masked(ip, prefix).network + span(prefix as int),
{
    lemma_masked(ip, prefix);
    lemma_masked(masked(ip, prefix).network, prefix);
}

/// What is written of a subnet, read again, gives the subnet.
pub proof fn law_cidr_reads_back(s: Subnet)
    requires
        s.wf(),
    ensures
        subnet_of(s.shown()) == Ok::<Subnet, Seq<char>>(s),
{
    let a = addr::ipv4_shown(s.network);
    let p = num::decimal(s.prefix as nat);
    let t = s.shown();
    addr::law_ipv4_reads_back(s.network);
    addr::lemma_ipv4_characters(s.network);
    num::lemma_decimal_reads_back(s.prefix as nat);
    assert forall|j: int| 0 <= j < a.len() implies t[j] != '/' by {
        assert(t[j] == a[j]);
        assert(a.contains(a[j]));
    }
    text::lemma_found_char(t, '/', a.len() as int);
    assert(t.take(a.len() as int) =~= a);
    assert(t.skip(a.len() + 1int) =~= p);
    assert(p[0] != '+') by {
        assert(num::is_digit(p[0]));
    }
    lemma_masked(s.network, s.prefix);
}

/// What is written of an IPv6 subnet, read again, gives the subnet.
pub proof fn law_cidr6_reads_back(s: V6Subnet)
    requires
        s.wf(),
    ensures
        subnet6_of(s.shown()) == Ok::<V6Subnet, Seq<char>>(s),
{
    let a = addr::ipv6_shown(s.network as nat);
    let p = num::decimal(s.prefix as nat);
    let t = s.shown();
    addr::law_ipv6_reads_back(s.network);
    addr::lemma_ipv6_characters(s.network);
    num::lemma_decimal_reads_back(s.prefix as nat);
    assert forall|j: int| 0 <= j < a.len() implies t[j] != '/' by {
        assert(t[j] == a[j]);
        assert(a.contains(a[j]));
    }
    text::lemma_found_char(t, '/', a.len() as int);
    assert(t.take(a.len() as int) =~= a);
    assert(t.skip(a.len() + 1int) =~= p);
    assert(p[0] != '+') by {
        assert(num::is_digit(p[0]));
    }
    lemma_masked6(s.network, s.prefix as nat);
}

/// Overlap does not depend on the order, and a subnet overlaps itself.
pub proof fn law_overlap_symmetric(a: Subnet, b: Subnet)
    requires
        a.wf(),
        b.wf(),
    ensures
        a.shares(b) == b.shares(a),
        a.shares(a),
{
    lemma_subnet_fits(a);
    assert(a.usable(a.first()));
    if a.shares(b) {
        let ip = choose|ip: int| #[trigger] a.usable(ip) && b.usable(ip);
        assert(b.usable(ip) && a.usable(ip));
    }
    if b.shares(a) {
        let ip = choose|ip: int| #[trigger] b.usable(ip) && a.usable(ip);
        assert(a.usable(ip) && b.usable(ip));
    }
}

/// Two subnets of the same size overlap only where they are the same.
pub proof fn law_same_size_overlap(a: Subnet, b: Subnet)
    requires
        a.wf(),
        b.wf(),
        a.prefix == b.prefix,
        a.shares(b),
    ensures
        a == b,
{
    lemma_subnet_fits(a);
    lemma_subnet_fits(b);
    let w = span(a.prefix as int) as int;
    let x = a.network as int;
    let y = b.network as int;
    vstd::arithmetic::div_mod::lemma_fundamental_div_mod(x, w);
    vstd::arithmetic::div_mod::lemma_fundamental_div_mod(y, w);
    let p = x / w;
    let q = y / w;
    assert(-w < x - y < w);
    assert(p == q) by (nonlinear_arith)
        requires
            x == w * p,
            y == w * q,
            -w < x - y < w,
            w >= 4,
    ;
}

// ---------------------------------------------------------------- leases

/// An address that can be leased.
pub trait Address: Copy {
    fn is(self, other: Self) -> (r: bool)
        ensures
            r == (self == other),
    ;
}

impl Address for u32 {
    fn is(self, other: u32) -> (r: bool) {
        self == other
    }
}

impl Address for u128 {
    fn is(self, other: u128) -> (r: bool) {
        self == other
    }
}

/// The addresses that are leased, under the id of their network.
#[derive(Debug, Clone)]
pub struct IpamLeases {
    pub allocated: Table<Vec<u32>>,
    pub allocated_v6: Table<Vec<u128>>,
}

/// The allocator of addresses.
#[derive(Debug, Clone)]
pub struct Ipam {
    pub state: IpamLeases,
}

/// The addresses that are leased on one network.
pub open spec fn leased<A>(t: Table<Vec<A>>, id: Seq<char>) -> Seq<A> {
    match t.at(id) {
        Some(v) => v@,
        None => Seq::empty(),
    }
}

/// Nothing but the leases of one network differs.
pub open spec fn same_elsewhere<A>(a: Table<Vec<A>>, b: Table<Vec<A>>, id: Seq<char>) -> bool {
    forall|x: Seq<char>| x != id ==> #[trigger] leased(a, x) == leased(b, x)
}

/// A network id, and the addresses that are leased under it.
pub open spec fn buckets<A>(t: Table<Vec<A>>) -> Seq<(Seq<char>, Seq<A>)> {
    Seq::new(t.entries@.len(), |i: int| (t.entries@[i].0@, t.entries@[i].1@))
}

/// The leases without one address.
pub open spec fn without<A>(v: Seq<A>, x: A) -> Seq<A>
    decreases v.len(),
{
    if v.len() == 0 {
        v
    } else if v.last() == x {
        without(v.drop_last(), x)
    } else {
        without(v.drop_last(), x).push(v.last())
    }
}

/// The leases that a record still holds.
pub open spec fn live_of<A>(v: Seq<A>, id: Seq<char>, live: Seq<(Seq<char>, A)>) -> Seq<A>
    decreases v.len(),
{
    if v.len() == 0 {
        v
    } else if live.contains((id, v.last())) {
        live_of(v.drop_last(), id, live).push(v.last())
    } else {
        live_of(v.drop_last(), id, live)
    }
}

/// The buckets of known networks, each with its live leases.
pub open spec fn swept<A>(
    b: Seq<(Seq<char>, Seq<A>)>,
    known: Seq<Seq<char>>,
    live: Seq<(Seq<char>, A)>,
) -> Seq<(Seq<char>, Seq<A>)>
    decreases b.len(),
{
    if b.len() == 0 {
        b
    } else if known.contains(b.last().0) {
        swept(b.drop_last(), known, live).push(
            (b.last().0, live_of(b.last().1, b.last().0, live)),
        )
    } else {
        swept(b.drop_last(), known, live)
    }
}

/// How many leases the buckets hold.
pub open spec fn lease_count<A>(b: Seq<(Seq<char>, Seq<A>)>) -> nat
    decreases b.len(),
{
    if b.len() == 0 {
        0
    } else {
        lease_count(b.drop_last()) + b.last().1.len()
    }
}

/// The pairs of network ids and addresses that records hold.
pub open spec fn live_pairs<A>(v: Seq<(String, A)>) -> Seq<(Seq<char>, A)> {
    Seq::new(v.len(), |i: int| (v[i].0@, v[i].1))
}

proof fn lemma_live_of_len<A>(v: Seq<A>, id: Seq<char>, live: Seq<(Seq<char>, A)>)
    ensures
        live_of(v, id, live).len() <= v.len(),
    decreases v.len(),
{
    if v.len() > 0 {
        lemma_live_of_len(v.drop_last(), id, live);
    }
}

proof fn lemma_lease_count_grows<A>(b: Seq<(Seq<char>, Seq<A>)>, i: int)
    requires
        0 <= i <= b.len(),
    ensures
        lease_count(b.take(i)) <= lease_count(b),
    decreases b.len() - i,
{
    if i == b.len() {
        assert(b.take(i) =~= b);
    } else {
        assert(b.take(i + 1).drop_last() =~= b.take(i));
        lemma_lease_count_grows(b, i + 1);
    }
}

fn holds<A: Address>(v: &Vec<A>, x: A) -> (r: bool)
    ensures
        r == v@.contains(x),
{
    let mut i: usize = 0;
    while i < v.len()
        invariant
            i <= v.len(),
            forall|j: int| 0 <= j < i ==> v@[j] != x,
        decreases v.len() - i,
    {
        if v[i].is(x) {
            assert(v@[i as int] == x);
            return true;
        }
        i += 1;
    }
    false
}

fn copy_of<A: Address>(v: &Vec<A>) -> (r: Vec<A>)
    ensures
        r@ == v@,
{
    let mut out: Vec<A> = Vec::new();
    let mut i: usize = 0;
    while i < v.len()
        invariant
            i <= v.len(),
            out@ == v@.take(i as int),
        decreases v.len() - i,
    {
        out.push(v[i]);
        assert(out@ =~= v@.take(i as int + 1));
        i += 1;
    }
    assert(v@.take(v@.len() as int) =~= v@);
    out
}

fn leases_of<A: Address>(t: &Table<Vec<A>>, id: &str) -> (r: Vec<A>)
    ensures
        r@ == leased(*t, id@),
{
    match t.get(id) {
        Some(v) => copy_of(v),
        None => Vec::new(),
    }
}

/// Puts `x` behind the leases of one network.
fn lease<A: Address>(t: &mut Table<Vec<A>>, id: &str, x: A)
    ensures
        leased(*final(t), id@) == leased(*old(t), id@).push(x),
        final(t).at(id@) is Some,
        same_elsewhere(*final(t), *old(t), id@),
{
    let mut used: Vec<A> = leases_of(t, id);
    used.push(x);
    t.insert(id.to_owned(), used);
}

/// Takes `x` out of the leases of one network.
fn unlease<A: Address>(t: &mut Table<Vec<A>>, id: &str, x: A)
    ensures
        leased(*final(t), id@) == without(leased(*old(t), id@), x),
        final(t).at(id@) is Some == old(t).at(id@) is Some,
        same_elsewhere(*final(t), *old(t), id@),
{
    match t.get(id) {
        Some(v) => {
            let mut kept: Vec<A> = Vec::new();
            let mut i: usize = 0;
            assert(v@.take(0).len() == 0);
            while i < v.len()
                invariant
                    i <= v.len(),
                    kept@ == without(v@.take(i as int), x),
                decreases v.len() - i,
            {
                assert(v@.take(i as int + 1).drop_last() =~= v@.take(i as int));
                assert(v@.take(i as int + 1).last() == v@[i as int]);
                if !v[i].is(x) {
                    kept.push(v[i]);
                }
                i += 1;
            }
            assert(v@.take(v@.len() as int) =~= v@);
            t.insert(id.to_owned(), kept);
        },
        None => {},
    }
}

fn known_id(known: &Vec<String>, id: &str) -> (r: bool)
    ensures
        r == text::texts(known@).contains(id@),
{
    let mut i: usize = 0;
    while i < known.len()
        invariant
            i <= known.len(),
            forall|j: int| 0 <= j < i ==> text::texts(known@)[j] != id@,
        decreases known.len() - i,
    {
        if same(known[i].as_str(), id) {
            assert(text::texts(known@)[i as int] == id@);
            return true;
        }
        i += 1;
    }
    false
}

fn is_live<A: Address>(live: &Vec<(String, A)>, id: &str, x: A) -> (r: bool)
    ensures
        r == live_pairs(live@).contains((id@, x)),
{
    let mut i: usize = 0;
    while i < live.len()
        invariant
            i <= live.len(),
            forall|j: int| 0 <= j < i ==> live_pairs(live@)[j] != (id@, x),
        decreases live.len() - i,
    {
        if live[i].1.is(x) && same(live[i].0.as_str(), id) {
            assert(live_pairs(live@)[i as int] == (id@, x));
            return true;
        }
        i += 1;
    }
    false
}

fn sweep<A: Address>(t: &mut Table<Vec<A>>, known: &Vec<String>, live: &Vec<(String, A)>) -> (r: (
    usize,
    usize,
))
    requires
        lease_count(buckets(*old(t))) <= usize::MAX,
    ensures
        buckets(*final(t)) == swept(buckets(*old(t)), text::texts(known@), live_pairs(live@)),
        r.0 == buckets(*old(t)).len() - buckets(*final(t)).len(),
        r.1 == lease_count(buckets(*old(t))) - lease_count(buckets(*final(t))),
{
    let ghost b = buckets(*t);
    let ghost kv = text::texts(known@);
    let ghost lv = live_pairs(live@);
    let mut out: Table<Vec<A>> = Table::new();
    let mut dropped: usize = 0;
    let mut released: usize = 0;
    let mut i: usize = 0;
    assert(b.take(0).len() == 0);
    assert(buckets(out) =~= b.take(0));
    while i < t.entries.len()
        invariant
            i <= t.entries.len(),
            b == buckets(*t),
            kv == text::texts(known@),
            lv == live_pairs(live@),
            lease_count(b) <= usize::MAX,
            buckets(out) == swept(b.take(i as int), kv, lv),
            dropped == i - buckets(out).len(),
            released == lease_count(b.take(i as int)) - lease_count(buckets(out)),
        decreases t.entries.len() - i,
    {
        let ids: &String = &t.entries[i].0;
        let ips: &Vec<A> = &t.entries[i].1;
        let ghost before = buckets(out);
        proof {
            let nx = b.take(i as int + 1);
            assert(nx.drop_last() =~= b.take(i as int));
            assert(nx.last() == (ids@, ips@));
            lemma_lease_count_grows(b, i as int + 1);
        }
        if known_id(known, ids.as_str()) {
            let mut kept: Vec<A> = Vec::new();
            let mut k: usize = 0;
            assert(ips@.take(0).len() == 0);
            while k < ips.len()
                invariant
                    k <= ips.len(),
                    lv == live_pairs(live@),
                    kept@ == live_of(ips@.take(k as int), ids@, lv),
                decreases ips.len() - k,
            {
                assert(ips@.take(k as int + 1).drop_last() =~= ips@.take(k as int));
                if is_live(live, ids.as_str(), ips[k]) {
                    kept.push(ips[k]);
                }
                k += 1;
            }
            assert(ips@.take(ips@.len() as int) =~= ips@);
            proof {
                lemma_live_of_len(ips@, ids@, lv);
            }
            released = released + (ips.len() - kept.len());
            let ghost entries = out.entries@;
            out.entries.push((ids.clone(), kept));
            assert(buckets(out) =~= before.push((ids@, kept@)));
            assert(buckets(out).drop_last() =~= before);
        } else {
            dropped += 1;
            released = released + ips.len();
        }
        i += 1;
    }
    assert(b.take(b.len() as int) =~= b);
    *t = out;
    (dropped, released)
}

/// The lowest address from `c` to `hi` that is neither the gateway nor leased.
pub open spec fn lowest_free(c: int, hi: int, gateway: int, used: Seq<int>) -> Option<int>
    decreases hi - c + 1,
{
    if c > hi {
        None
    } else if c != gateway && !used.contains(c) {
        Some(c)
    } else {
        lowest_free(c + 1, hi, gateway, used)
    }
}

pub open spec fn ints(v: Seq<u32>) -> Seq<int> {
    Seq::new(v.len(), |i: int| v[i] as int)
}

pub open spec fn ints6(v: Seq<u128>) -> Seq<int> {
    Seq::new(v.len(), |i: int| v[i] as int)
}

/// The subnet and the gateway of a request, or what is wrong with them.
pub open spec fn subnet_and_gateway(subnet: Seq<char>, gateway: Seq<char>) -> Result<
    (Subnet, u32),
    Seq<char>,
> {
    match subnet_of(subnet) {
        Ok(s) => match addr::ipv4(gateway) {
            Some(g) => Ok((s, g)),
            None => Err("invalid gateway "@ + gateway + ": invalid IPv4 address syntax"@),
        },
        Err(e) => Err(e),
    }
}

/// The address that is leased next, or why none is.
pub open spec fn next_lease(
    id: Seq<char>,
    subnet: Seq<char>,
    gateway: Seq<char>,
    used: Seq<u32>,
) -> Result<u32, Seq<char>> {
    match subnet_and_gateway(subnet, gateway) {
        Ok((s, g)) => if !s.usable(g as int) {
            Err("invalid gateway "@ + gateway + ": outside subnet "@ + subnet)
        } else {
            match lowest_free(s.first(), s.last(), g as int, ints(used)) {
                Some(c) => Ok(c as u32),
                None => Err("could not find an available IPv4 address on network "@ + id),
            }
        },
        Err(e) => Err(e),
    }
}

/// The address that is asked for, or why it is not to be had.
pub open spec fn wanted_lease(
    subnet: Seq<char>,
    gateway: Seq<char>,
    ip: Seq<char>,
    used: Seq<u32>,
) -> Result<u32, Seq<char>> {
    match subnet_and_gateway(subnet, gateway) {
        Ok((s, g)) => match addr::ipv4(ip) {
            Some(w) => if !s.usable(w as int) {
                Err("requested IP "@ + ip + " is outside subnet "@ + subnet)
            } else if w == g {
                Err("requested IP "@ + ip + " is the gateway address"@)
            } else if used.contains(w) {
                Err("requested IP "@ + ip + " is already allocated"@)
            } else {
                Ok(w)
            },
            None => Err("invalid IP address "@ + ip + ": invalid IPv4 address syntax"@),
        },
        Err(e) => Err(e),
    }
}

/// The IPv6 address that is leased next, or why none is.
pub open spec fn next_lease6(
    id: Seq<char>,
    subnet: Seq<char>,
    gateway: Seq<char>,
    used: Seq<u128>,
) -> Result<u128, Seq<char>> {
    match subnet6_of(subnet) {
        Ok(s) => match addr::ipv6(gateway) {
            Some(g) => if !s.usable(g as int) {
                Err("invalid gateway "@ + gateway + ": outside subnet "@ + subnet)
            } else {
                match lowest_free(s.first(), s.last(), g as int, ints6(used)) {
                    Some(c) => Ok(c as u128),
                    None => Err("could not find an available IPv6 address on network "@ + id),
                }
            },
            None => Err("invalid gateway "@ + gateway + ": invalid IPv6 address syntax"@),
        },
        Err(e) => Err(e),
    }
}

proof fn lemma_lowest_free(c: int, hi: int, gateway: int, used: Seq<int>)
    ensures
        lowest_free(c, hi, gateway, used) matches Some(x) ==> c <= x <= hi && x != gateway
            && !used.contains(x) && (forall|y: int|
            c <= y < x ==> y == gateway || #[trigger] used.contains(y)),
        lowest_free(c, hi, gateway, used) is None ==> forall|y: int|
            c <= y <= hi ==> y == gateway || #[trigger] used.contains(y),
    decreases hi - c + 1,
{
    if c <= hi && !(c != gateway && !used.contains(c)) {
        lemma_lowest_free(c + 1, hi, gateway, used);
    }
}

fn parse_subnet_and_gateway(subnet: &str, gateway: &str) -> (r: Result<(Subnet, u32), String>)
    ensures
        match r {
            Ok(p) => subnet_and_gateway(subnet@, gateway@) == Ok::<(Subnet, u32), Seq<char>>(p)
                && p.0.wf(),
            Err(e) => subnet_and_gateway(subnet@, gateway@) == Err::<(Subnet, u32), Seq<char>>(e@),
        },
{
    let s: Subnet = match Subnet::parse(subnet) {
        Ok(s) => s,
        Err(e) => {
            return Err(e);
        },
    };
    match parse_ipv4(gateway) {
        Some(g) => Ok((s, g)),
        None => {
            let mut e: String = "invalid gateway ".to_owned();
            e.append(gateway);
            e.append(": invalid IPv4 address syntax");
            Err(e)
        },
    }
}

impl Ipam {
    pub fn new(state: IpamLeases) -> (r: Ipam)
        ensures
            r.state == state,
    {
        Ipam { state }
    }

    /// Leases the lowest free address that is not the gateway.
    pub fn allocate(&mut self, network_id: &str, subnet: &str, gateway: &str) -> (r: Result<
        u32,
        String,
    >)
        ensures
            ({
                let used = leased(old(self).state.allocated, network_id@);
                match r {
                    Ok(ip) => {
                        &&& next_lease(network_id@, subnet@, gateway@, used) == Ok::<
                            u32,
                            Seq<char>,
                        >(ip)
                        &&& leased(final(self).state.allocated, network_id@) == used.push(ip)
                        &&& same_elsewhere(
                            final(self).state.allocated,
                            old(self).state.allocated,
                            network_id@,
                        )
                    },
                    Err(e) => {
                        &&& next_lease(network_id@, subnet@, gateway@, used) == Err::<
                            u32,
                            Seq<char>,
                        >(e@)
                        &&& final(self).state.allocated == old(self).state.allocated
                    },
                }
            }),
            final(self).state.allocated_v6 == old(self).state.allocated_v6,
    {
        let (s, gw): (Subnet, u32) = match parse_subnet_and_gateway(subnet, gateway) {
            Ok(p) => p,
            Err(e) => {
                return Err(e);
            },
        };
        if !s.contains(gw) {
            let mut e: String = "invalid gateway ".to_owned();
            e.append(gateway);
            e.append(": outside subnet ");
            e.append(subnet);
            return Err(e);
        }
        let used: Vec<u32> = leases_of(&self.state.allocated, network_id);
        let (lo, hi) = s.usable_range();
        let mut c: u32 = lo;
        proof {
            lemma_subnet_fits(s);
        }
        loop
            invariant
                lo <= c <= hi,
                lo == s.first(),
                hi == s.last(),
                used@ == leased(self.state.allocated, network_id@),
                *self == *old(self),
                s.usable(gw as int),
                subnet_and_gateway(subnet@, gateway@) == Ok::<(Subnet, u32), Seq<char>>((s, gw)),
                lowest_free(lo as int, hi as int, gw as int, ints(used@)) == lowest_free(
                    c as int,
                    hi as int,
                    gw as int,
                    ints(used@),
                ),
            decreases hi - c,
        {
            let taken: bool = holds(&used, c);
            proof {
                if taken {
                    let j = choose|j: int| 0 <= j < used@.len() && used@[j] == c;
                    assert(ints(used@)[j] == c as int);
                } else if ints(used@).contains(c as int) {
                    let j = choose|j: int|
                        0 <= j < ints(used@).len() && ints(used@)[j] == c as int;
                    assert(used@[j] == c);
                }
            }
            if c != gw && !taken {
                lease(&mut self.state.allocated, network_id, c);
                return Ok(c);
            }
            if c == hi {
                assert(lowest_free(c + 1, hi as int, gw as int, ints(used@)) is None);
                let mut e: String = "could not find an available IPv4 address on network ".to_owned();
                e.append(network_id);
                return Err(e);
            }
            c += 1;
        }
    }

    /// Leases one address that is asked for.
    pub fn reserve(&mut self, network_id: &str, subnet: &str, gateway: &str, ip: &str) -> (r:
        Result<u32, String>)
        ensures
            ({
                let used = leased(old(self).state.allocated, network_id@);
                match r {
                    Ok(w) => {
                        &&& wanted_lease(subnet@, gateway@, ip@, used) == Ok::<u32, Seq<char>>(w)
                        &&& leased(final(self).state.allocated, network_id@) == used.push(w)
                        &&& same_elsewhere(
                            final(self).state.allocated,
                            old(self).state.allocated,
                            network_id@,
                        )
                    },
                    Err(e) => {
                        &&& wanted_lease(subnet@, gateway@, ip@, used) == Err::<u32, Seq<char>>(e@)
                        &&& final(self).state.allocated == old(self).state.allocated
                    },
                }
            }),
            final(self).state.allocated_v6 == old(self).state.allocated_v6,
    {
        let (s, gw): (Subnet, u32) = match parse_subnet_and_gateway(subnet, gateway) {
            Ok(p) => p,
            Err(e) => {
                return Err(e);
            },
        };
        let want: u32 = match parse_ipv4(ip) {
            Some(w) => w,
            None => {
                let mut e: String = "invalid IP address ".to_owned();
                e.append(ip);
                e.append(": invalid IPv4 address syntax");
                return Err(e);
            },
        };
        let mut e: String = "requested IP ".to_owned();
        e.append(ip);
        if !s.contains(want) {
            e.append(" is outside subnet ");
            e.append(subnet);
            return Err(e);
        }
        if want == gw {
            e.append(" is the gateway address");
            return Err(e);
        }
        let used: Vec<u32> = leases_of(&self.state.allocated, network_id);
        if holds(&used, want) {
            e.append(" is already allocated");
            return Err(e);
        }
        lease(&mut self.state.allocated, network_id, want);
        Ok(want)
    }

    /// Gives one address back; what is no address gives nothing back.
    pub fn release(&mut self, network_id: &str, ip: &str)
        ensures
            match addr::ipv4(ip@) {
                Some(x) => {
                    &&& leased(final(self).state.allocated, network_id@) == without(
                        leased(old(self).state.allocated, network_id@),
                        x,
                    )
                    &&& same_elsewhere(
                        final(self).state.allocated,
                        old(self).state.allocated,
                        network_id@,
                    )
                },
                None => final(self).state.allocated == old(self).state.allocated,
            },
            final(self).state.allocated_v6 == old(self).state.allocated_v6,
    {
        if let Some(x) = parse_ipv4(ip) {
            unlease(&mut self.state.allocated, network_id, x);
        }
    }

    /// Drops every lease of a network that is gone.
    pub fn reset_bucket(&mut self, network_id: &str)
        ensures
            final(self).state.allocated.at(network_id@) is None,
            same_elsewhere(final(self).state.allocated, old(self).state.allocated, network_id@),
            final(self).state.allocated_v6 == old(self).state.allocated_v6,
    {
        self.state.allocated.remove(network_id);
    }

    /// Drops the buckets of networks that no longer exist and the leases that no record
    /// holds; gives back how many of each went.
    pub fn sweep_orphans(&mut self, known: &Vec<String>, live: &Vec<(String, u32)>) -> (r: (
        usize,
        usize,
    ))
        requires
            lease_count(buckets(old(self).state.allocated)) <= usize::MAX,
        ensures
            ({
                let b = buckets(old(self).state.allocated);
                let a = buckets(final(self).state.allocated);
                &&& a == swept(b, text::texts(known@), live_pairs(live@))
                &&& r.0 == b.len() - a.len()
                &&& r.1 == lease_count(b) - lease_count(a)
            }),
            final(self).state.allocated_v6 == old(self).state.allocated_v6,
    {
        sweep(&mut self.state.allocated, known, live)
    }

    /// Leases the lowest free IPv6 address that is not the gateway.
    pub fn allocate_v6(&mut self, network_id: &str, subnet: &str, gateway: &str) -> (r: Result<
        u128,
        String,
    >)
        ensures
            ({
                let used = leased(old(self).state.allocated_v6, network_id@);
                match r {
                    Ok(ip) => {
                        &&& next_lease6(network_id@, subnet@, gateway@, used) == Ok::<
                            u128,
                            Seq<char>,
                        >(ip)
                        &&& leased(final(self).state.allocated_v6, network_id@) == used.push(ip)
                        &&& same_elsewhere(
                            final(self).state.allocated_v6,
                            old(self).state.allocated_v6,
                            network_id@,
                        )
                    },
                    Err(e) => {
                        &&& next_lease6(network_id@, subnet@, gateway@, used) == Err::<
                            u128,
                            Seq<char>,
                        >(e@)
                        &&& final(self).state.allocated_v6 == old(self).state.allocated_v6
                    },
                }
            }),
            final(self).state.allocated == old(self).state.allocated,
    {
        let s: V6Subnet = match V6Subnet::parse(subnet) {
            Ok(s) => s,
            Err(e) => {
                return Err(e);
            },
        };
        let mut e: String = "invalid gateway ".to_owned();
        e.append(gateway);
        let gw: u128 = match parse_ipv6(gateway) {
            Some(g) => g,
            None => {
                e.append(": invalid IPv6 address syntax");
                return Err(e);
            },
        };
        let (lo, hi) = s.usable_range();
        if gw < lo || gw > hi {
            e.append(": outside subnet ");
            e.append(subnet);
            return Err(e);
        }
        let used: Vec<u128> = leases_of(&self.state.allocated_v6, network_id);
        let mut c: u128 = lo;
        proof {
            lemma_subnet6_fits(s);
        }
        loop
            invariant
                lo <= c <= hi,
                lo == s.first(),
                hi == s.last(),
                used@ == leased(self.state.allocated_v6, network_id@),
                *self == *old(self),
                s.usable(gw as int),
                subnet6_of(subnet@) == Ok::<V6Subnet, Seq<char>>(s),
                addr::ipv6(gateway@) == Some(gw as nat),
                lowest_free(lo as int, hi as int, gw as int, ints6(used@)) == lowest_free(
                    c as int,
                    hi as int,
                    gw as int,
                    ints6(used@),
                ),
            decreases hi - c,
        {
            let taken: bool = holds(&used, c);
            proof {
                if taken {
                    let j = choose|j: int| 0 <= j < used@.len() && used@[j] == c;
                    assert(ints6(used@)[j] == c as int);
                } else if ints6(used@).contains(c as int) {
                    let j = choose|j: int|
                        0 <= j < ints6(used@).len() && ints6(used@)[j] == c as int;
                    assert(used@[j] == c);
                }
            }
            if c != gw && !taken {
                lease(&mut self.state.allocated_v6, network_id, c);
                return Ok(c);
            }
            if c == hi {
                assert(lowest_free(c + 1, hi as int, gw as int, ints6(used@)) is None);
                let mut m: String = "could not find an available IPv6 address on network ".to_owned();
                m.append(network_id);
                return Err(m);
            }
            c += 1;
        }
    }

    /// Gives one IPv6 address back.
    pub fn release_v6(&mut self, network_id: &str, ip: &str)
        ensures
            match addr::ipv6(ip@) {
                Some(x) => {
                    &&& leased(final(self).state.allocated_v6, network_id@) == without(
                        leased(old(self).state.allocated_v6, network_id@),
                        x as u128,
                    )
                    &&& same_elsewhere(
                        final(self).state.allocated_v6,
                        old(self).state.allocated_v6,
                        network_id@,
                    )
                },
                None => final(self).state.allocated_v6 == old(self).state.allocated_v6,
            },
            final(self).state.allocated == old(self).state.allocated,
    {
        if let Some(x) = parse_ipv6(ip) {
            unlease(&mut self.state.allocated_v6, network_id, x);
        }
    }

    /// Drops the IPv6 buckets and leases that nothing holds.
    pub fn sweep_orphans_v6(&mut self, known: &Vec<String>, live: &Vec<(String, u128)>) -> (r: (
        usize,
        usize,
    ))
        requires
            lease_count(buckets(old(self).state.allocated_v6)) <= usize::MAX,
        ensures
            ({
                let b = buckets(old(self).state.allocated_v6);
                let a = buckets(final(self).state.allocated_v6);
                &&& a == swept(b, text::texts(known@), live_pairs(live@))
                &&& r.0 == b.len() - a.len()
                &&& r.1 == lease_count(b) - lease_count(a)
            }),
            final(self).state.allocated == old(self).state.allocated,
    {
        sweep(&mut self.state.allocated_v6, known, live)
    }
}

// ---------------------------------------------------------------- laws of leases

/// A lease is usable in its subnet, is not the gateway and was not leased before; every
/// lower usable address is the gateway or is leased.
pub proof fn law_lease_is_lowest_free(
    id: Seq<char>,
    subnet: Seq<char>,
    gateway: Seq<char>,
    used: Seq<u32>,
)
    requires
        next_lease(id, subnet, gateway, used) is Ok,
    ensures
        ({
            let s = subnet_of(subnet)->Ok_0;
            let g = addr::ipv4(gateway)->0;
            let ip = next_lease(id, subnet, gateway, used)->Ok_0;
            &&& s.usable(ip as int)
            &&& ip != g
            &&& !used.contains(ip)
            &&& forall|y: u32| s.first() <= y < ip ==> y == g || #[trigger] used.contains(y)
        }),
{
    let s = subnet_of(subnet)->Ok_0;
    let g = addr::ipv4(gateway)->0;
    lemma_subnet_of_wf(subnet);
    lemma_subnet_fits(s);
    lemma_lowest_free(s.first(), s.last(), g as int, ints(used));
    let ip = next_lease(id, subnet, gateway, used)->Ok_0;
    if used.contains(ip) {
        let j = choose|j: int| 0 <= j < used.len() && used[j] == ip;
        assert(ints(used)[j] == ip as int);
    }
    assert forall|y: u32| s.first() <= y < ip implies y == g || #[trigger] used.contains(y) by {
        if y != g {
            assert(ints(used).contains(y as int));
            let j = choose|j: int| 0 <= j < ints(used).len() && ints(used)[j] == y as int;
            assert(used[j] == y);
        }
    }
}

proof fn lemma_subnet_of_wf(cidr: Seq<char>)
    requires
        subnet_of(cidr) is Ok,
    ensures
        subnet_of(cidr)->Ok_0.wf(),
{
    let (a, p) = text::split_once(cidr, seq!['/']).unwrap();
    lemma_masked(addr::ipv4(a)->0, num::unsigned(p, 255)->0 as u8);
}

/// Allocation fails for want of an address only where every usable address is the
/// gateway or is leased.
pub proof fn law_exhausted_only_when_full(
    id: Seq<char>,
    subnet: Seq<char>,
    gateway: Seq<char>,
    used: Seq<u32>,
    y: u32,
)
    requires
        subnet_and_gateway(subnet, gateway) matches Ok(p) && p.0.usable(p.1 as int) && p.0.usable(
            y as int,
        ) && y != p.1,
        !used.contains(y),
    ensures
        next_lease(id, subnet, gateway, used) is Ok,
{
    let (s, g) = subnet_and_gateway(subnet, gateway)->Ok_0;
    lemma_lowest_free(s.first(), s.last(), g as int, ints(used));
    if ints(used).contains(y as int) {
        let j = choose|j: int| 0 <= j < ints(used).len() && ints(used)[j] == y as int;
        assert(used[j] == y);
    }
}

proof fn lemma_without<A>(v: Seq<A>, x: A)
    ensures
        !without(v, x).contains(x),
        forall|y: A| y != x ==> (#[trigger] without(v, x).contains(y) == v.contains(y)),
    decreases v.len(),
{
    if v.len() > 0 {
        let d = v.drop_last();
        lemma_without(d, x);
        let w = without(v, x);
        assert forall|y: A| y != x implies (#[trigger] w.contains(y) == v.contains(y)) by {
            if v.contains(y) {
                let j = choose|j: int| 0 <= j < v.len() && v[j] == y;
                if j < d.len() {
                    assert(d[j] == y);
                    assert(without(d, x).contains(y));
                    let k = choose|k: int| 0 <= k < without(d, x).len() && without(d, x)[k] == y;
                    assert(w[k] == y);
                } else {
                    assert(w.last() == y);
                    assert(w[w.len() - 1] == y);
                }
            }
            if w.contains(y) {
                let k = choose|k: int| 0 <= k < w.len() && w[k] == y;
                if k < without(d, x).len() {
                    assert(without(d, x)[k] == y);
                    assert(without(d, x).contains(y));
                    assert(d.contains(y));
                    let j = choose|j: int| 0 <= j < d.len() && d[j] == y;
                    assert(v[j] == y);
                } else {
                    assert(v[v.len() - 1] == y);
                }
            }
        }
        if w.contains(x) {
            let k = choose|k: int| 0 <= k < w.len() && w[k] == x;
            assert(without(d, x)[k] == x);
        }
    }
}

/// An address that is given back can be asked for again, and no other lease is lost.
pub proof fn law_released_can_be_reserved(
    subnet: Seq<char>,
    gateway: Seq<char>,
    ip: Seq<char>,
    used: Seq<u32>,
)
    requires
        subnet_and_gateway(subnet, gateway) matches Ok(p) && addr::ipv4(ip) is Some
            && p.0.usable(addr::ipv4(ip)->0 as int) && addr::ipv4(ip)->0 != p.1,
    ensures
        wanted_lease(subnet, gateway, ip, without(used, addr::ipv4(ip)->0)) == Ok::<
            u32,
            Seq<char>,
        >(addr::ipv4(ip)->0),
        forall|y: u32|
            y != addr::ipv4(ip)->0 ==> (#[trigger] without(used, addr::ipv4(ip)->0).contains(y)
                == used.contains(y)),
{
    lemma_without(used, addr::ipv4(ip)->0);
}

/// No address is leased twice on one network: a lease that is granted was free.
pub proof fn law_leases_stay_distinct(
    id: Seq<char>,
    subnet: Seq<char>,
    gateway: Seq<char>,
    ip: Seq<char>,
    used: Seq<u32>,
)
    requires
        used.no_duplicates(),
    ensures
        next_lease(id, subnet, gateway, used) matches Ok(x) ==> used.push(x).no_duplicates(),
        wanted_lease(subnet, gateway, ip, used) matches Ok(x) ==> used.push(x).no_duplicates(),
{
    if next_lease(id, subnet, gateway, used) is Ok {
        law_lease_is_lowest_free(id, subnet, gateway, used);
        lemma_push_distinct(used, next_lease(id, subnet, gateway, used)->Ok_0);
    }
    if wanted_lease(subnet, gateway, ip, used) is Ok {
        lemma_push_distinct(used, wanted_lease(subnet, gateway, ip, used)->Ok_0);
    }
}

proof fn lemma_push_distinct(used: Seq<u32>, x: u32)
    requires
        used.no_duplicates(),
        !used.contains(x),
    ensures
        used.push(x).no_duplicates(),
{
    let v = used.push(x);
    assert forall|i: int, j: int| 0 <= i < v.len() && 0 <= j < v.len() && i != j implies v[i]
        != v[j] by {
        if i == used.len() {
            assert(used.contains(used[j]));
        } else if j == used.len() {
            assert(used.contains(used[i]));
        }
    }
}

proof fn lemma_live_of<A>(v: Seq<A>, id: Seq<char>, live: Seq<(Seq<char>, A)>, x: A)
    ensures
        live_of(v, id, live).contains(x) == (v.contains(x) && live.contains((id, x))),
    decreases v.len(),
{
    if v.len() > 0 {
        let d = v.drop_last();
        let w = live_of(v, id, live);
        let u = live_of(d, id, live);
        lemma_live_of(d, id, live, x);
        if w.contains(x) {
            let k = choose|k: int| 0 <= k < w.len() && w[k] == x;
            if k < u.len() {
                assert(u[k] == x);
                let j = choose|j: int| 0 <= j < d.len() && d[j] == x;
                assert(v[j] == x);
            } else {
                assert(v[v.len() - 1] == x);
            }
        }
        if v.contains(x) && live.contains((id, x)) {
            let j = choose|j: int| 0 <= j < v.len() && v[j] == x;
            if j < d.len() {
                assert(d[j] == x);
                let k = choose|k: int| 0 <= k < u.len() && u[k] == x;
                assert(w[k] == x);
            } else {
                assert(w[w.len() - 1] == x);
            }
        }
    }
}

/// A sweep keeps exactly the live leases of known networks: each bucket that is left is
/// that of a known network, with the leases of it that a record holds and no others.
pub proof fn law_sweep_keeps_live<A>(
    b: Seq<(Seq<char>, Seq<A>)>,
    known: Seq<Seq<char>>,
    live: Seq<(Seq<char>, A)>,
    i: int,
    x: A,
)
    requires
        0 <= i < b.len(),
    ensures
        known.contains(b[i].0) ==> exists|k: int|
            0 <= k < swept(b, known, live).len() && (#[trigger] swept(b, known, live)[k]).0
                == b[i].0 && (swept(b, known, live)[k].1.contains(x) == (b[i].1.contains(x)
                && live.contains((b[i].0, x)))),
        !known.contains(b[i].0) ==> forall|k: int|
            0 <= k < swept(b, known, live).len() ==> (#[trigger] swept(b, known, live)[k]).0
                != b[i].0,
    decreases b.len(),
{
    let d = b.drop_last();
    let s = swept(b, known, live);
    let t = swept(d, known, live);
    if known.contains(b[i].0) {
        lemma_live_of(b[i].1, b[i].0, live, x);
        if i == b.len() - 1 {
            assert(s[s.len() - 1].0 == b[i].0);
        } else {
            law_sweep_keeps_live(d, known, live, i, x);
            let k = choose|k: int|
                0 <= k < t.len() && (#[trigger] t[k]).0 == d[i].0 && (t[k].1.contains(x) == (
                d[i].1.contains(x) && live.contains((d[i].0, x))));
            assert(s[k] == t[k]);
        }
    } else {
        lemma_swept_known(b, known, live);
    }
}

proof fn lemma_swept_known<A>(
    b: Seq<(Seq<char>, Seq<A>)>,
    known: Seq<Seq<char>>,
    live: Seq<(Seq<char>, A)>,
)
    ensures
        forall|k: int|
            0 <= k < swept(b, known, live).len() ==> known.contains(
                (#[trigger] swept(b, known, live)[k]).0,
            ),
    decreases b.len(),
{
    if b.len() > 0 {
        lemma_swept_known(b.drop_last(), known, live);
        let t = swept(b.drop_last(), known, live);
        let s = swept(b, known, live);
        assert forall|k: int| 0 <= k < s.len() implies known.contains((#[trigger] s[k]).0) by {
            if k < t.len() {
                assert(s[k] == t[k]);
            }
        }
    }
}

/// A range is read from any address in it and the length of its prefix: the network's own
/// address and those up to the next network's. A prefix that leaves no room for hosts is
/// refused.
pub proof fn law_range_is_read_from_any_address(ip: u32, prefix: nat)
    requires
        prefix <= 255,
    ensures
        ({
            let r = subnet_of(addr::ipv4_shown(ip) + seq!['/'] + num::decimal(prefix));
            &&& prefix > 30 ==> r is Err
            &&& prefix <= 30 ==> (r matches Ok(s) && s.prefix == prefix && s.wf() && s.network <= ip
                < s.network + span(prefix as int))
        }),
{
    let a = addr::ipv4_shown(ip);
    let p = num::decimal(prefix);
    let t = a + seq!['/'] + p;
    addr::law_ipv4_reads_back(ip);
    addr::lemma_ipv4_characters(ip);
    num::lemma_decimal_reads_back(prefix);
    assert forall|j: int| 0 <= j < a.len() implies t[j] != '/' by {
        assert(t[j] == a[j]);
        assert(a.contains(a[j]));
    }
    text::lemma_found_char(t, '/', a.len() as int);
    assert(t.take(a.len() as int) =~= a);
    assert(t.skip(a.len() + 1int) =~= p);
    assert(num::is_digit(p[0]));
    assert(num::unsigned_digits(p) == p);
    if prefix <= 30 {
        law_masking(ip, prefix as u8);
    }
}

} // verus!
