//! The embedded DNS server: which name a query asks for, what is answered from a
//! network's own names, and what is passed on.

use vstd::prelude::*;
use vstd::slice::*;
use vstd::utf8::{decode_utf8, valid_utf8};

use crate::addr::{self, parse_ipv4, parse_ipv6};
use crate::dockerfile::{self, lines_text};
use crate::reference;
use crate::table::Table;
use crate::text::{self, chars_of, join_text, lower_ascii, same, string_of, words_text};

verus! {

/// Bytes as text, with the replacement character for what is not UTF-8.
pub uninterp spec fn lossy(b: Seq<u8>) -> Seq<char>;

/// `String::from_utf8_lossy`: the text that the bytes encode where they are UTF-8, and
/// otherwise text with replacement characters in it.
#[verifier::external_body]
pub(crate) fn lossy_text(b: &[u8]) -> (r: String)
    ensures
        r@ == lossy(b@),
        valid_utf8(b@) ==> r@ == decode_utf8(b@),
{
    String::from_utf8_lossy(b).to_string()
}

// ---------------------------------------------------------------- questions

/// The labels of the name at `i`, and the place of the zero byte that ends it; no such
/// place where a label is compressed or cut off, which ends the name before that label. A
/// name that the query's end cuts off between labels ends there.
pub open spec fn labels_at(q: Seq<u8>, i: int) -> (Seq<Seq<u8>>, Option<int>)
    decreases q.len() - i,
{
    if i < 0 || i >= q.len() || q[i] == 0 {
        (Seq::empty(), Some(i))
    } else if q[i] >= 64 || i + 1 + q[i] > q.len() {
        (Seq::empty(), None)
    } else {
        let (rest, end) = labels_at(q, i + 1 + q[i]);
        (seq![q.subrange(i + 1, i + 1 + q[i])] + rest, end)
    }
}

pub open spec fn lossy_all(labels: Seq<Seq<u8>>) -> Seq<Seq<char>> {
    Seq::new(labels.len(), |i: int| lossy(labels[i]))
}

/// The name that labels make: with dots between them, ASCII letters in lower case.
pub open spec fn name_of(labels: Seq<Seq<u8>>) -> Option<Seq<char>> {
    if labels.len() == 0 {
        None
    } else {
        Some(text::ascii_lowered(text::join(lossy_all(labels), seq!['.'])))
    }
}

/// The two bytes behind `end` as a number, or 1 where they are missing.
pub open spec fn type_behind(q: Seq<u8>, end: int) -> int {
    if 0 <= end && end + 2 < q.len() {
        q[end + 1] * 256 + q[end + 2]
    } else {
        1
    }
}

/// The name and the type that a query asks for first. A query that cannot be read to its
/// end asks for the name as far as it goes, with type 1.
pub open spec fn question(q: Seq<u8>) -> (Option<Seq<char>>, int) {
    if q.len() < 12 {
        (None, 1)
    } else {
        let (labels, end) = labels_at(q, 12);
        match end {
            Some(e) => (name_of(labels), type_behind(q, e)),
            None => (name_of(labels), 1),
        }
    }
}

/// The name made of the texts of labels.
pub fn name_from_labels(labels: &Vec<String>) -> (r: Option<String>)
    ensures
        reference::opt_text(r) == if labels@.len() == 0 {
            None
        } else {
            Some(text::ascii_lowered(text::join(text::texts(labels@), seq!['.'])))
        },
{
    if labels.len() == 0 {
        return None;
    }
    proof {
        reveal_strlit(".");
        assert("."@ =~= seq!['.']);
    }
    let joined: String = join_text(labels, ".");
    let cs: Vec<char> = chars_of(joined.as_str());
    Some(string_of(lower_ascii(cs.as_slice()).as_slice()))
}

/// The first name and type that a query asks for.
pub fn extract_query_name_type(query: &[u8]) -> (r: (Option<String>, u16))
    ensures
        reference::opt_text(r.0) == question(query@).0,
        r.1 == question(query@).1,
{
    let n: usize = query.len();
    if n < 12 {
        return (None, 1);
    }
    let ghost q = query@;
    let ghost all = labels_at(q, 12);
    let mut i: usize = 12;
    let mut labels: Vec<String> = Vec::new();
    let ghost mut raw: Seq<Seq<u8>> = Seq::empty();
    assert(text::texts(labels@) =~= lossy_all(raw));
    assert(raw + all.0 =~= all.0);
    while i < n && query[i] != 0
        invariant
            12 <= i <= n,
            n == query.len(),
            q == query@,
            all == labels_at(q, 12),
            text::texts(labels@) == lossy_all(raw),
            all.0 == raw + labels_at(q, i as int).0,
            all.1 == labels_at(q, i as int).1,
        decreases n - i,
    {
        let len: usize = query[i] as usize;
        if len >= 64 || len > n - i - 1 {
            assert(raw + Seq::<Seq<u8>>::empty() =~= raw);
            return (name_from_labels(&labels), 1);
        }
        let piece = slice_subrange(query, i + 1, i + 1 + len);
        let t: String = lossy_text(piece);
        let ghost before = labels@;
        labels.push(t);
        proof {
            let here = q.subrange(i + 1, i + 1 + len);
            assert(piece@ == here);
            let rest = labels_at(q, i + 1 + len).0;
            assert(raw + (seq![here] + rest) =~= raw.push(here) + rest);
            assert(text::texts(labels@) =~= text::texts(before).push(t@));
            assert(lossy_all(raw.push(here)) =~= lossy_all(raw).push(lossy(here)));
            raw = raw.push(here);
        }
        i = i + 1 + len;
    }
    assert(raw + Seq::<Seq<u8>>::empty() =~= raw);
    let qtype: u16 = if n >= 2 && i < n - 2 {
        query[i + 1] as u16 * 256 + query[i + 2] as u16
    } else {
        1
    };
    (name_from_labels(&labels), qtype)
}

// ---------------------------------------------------------------- decisions

/// What is done with a query.
#[derive(Debug, PartialEq, Eq)]
pub enum DnsDecision {
    A(String),
    Aaaa(String),
    Nodata,
    Forward,
}

/// What is done with a query: its kind, and the address that is answered.
pub enum Decision {
    A(Seq<char>),
    Aaaa(Seq<char>),
    Nodata,
    Forward,
}

impl View for DnsDecision {
    type V = Decision;

    open spec fn view(&self) -> Decision {
        match self {
            DnsDecision::A(s) => Decision::A(s@),
            DnsDecision::Aaaa(s) => Decision::Aaaa(s@),
            DnsDecision::Nodata => Decision::Nodata,
            DnsDecision::Forward => Decision::Forward,
        }
    }
}

/// A query for an IPv6 address (type 28) is answered from the IPv6 names and any other
/// from the IPv4 names. A name of ours that has no IPv6 address has no data; only a name
/// that is not ours is passed on.
pub open spec fn decision(qtype: int, v4: Option<Seq<char>>, v6: Option<Seq<char>>) -> Decision {
    if qtype == 28 {
        match v6 {
            Some(ip) => Decision::Aaaa(ip),
            None => if v4 is Some {
                Decision::Nodata
            } else {
                Decision::Forward
            },
        }
    } else {
        match v4 {
            Some(ip) => Decision::A(ip),
            None => Decision::Forward,
        }
    }
}

pub fn decide(qtype: u16, v4: Option<String>, v6: Option<String>) -> (r: DnsDecision)
    ensures
        r@ == decision(qtype as int, reference::opt_text(v4), reference::opt_text(v6)),
{
    if qtype == 28 {
        match v6 {
            Some(ip) => DnsDecision::Aaaa(ip),
            None => {
                if v4.is_some() {
                    DnsDecision::Nodata
                } else {
                    DnsDecision::Forward
                }
            },
        }
    } else {
        match v4 {
            Some(ip) => DnsDecision::A(ip),
            None => DnsDecision::Forward,
        }
    }
}

// ---------------------------------------------------------------- names

/// The address under a name.
pub open spec fn entry(t: Table<String>, k: Seq<char>) -> Option<Seq<char>> {
    reference::opt_text(t.at(k))
}

/// The name under a search domain.
pub open spec fn in_domain(name: Seq<char>, domain: Seq<char>) -> Seq<char> {
    name + seq!['.'] + text::ascii_lowered(domain)
}

/// The address of the name under the first search domain that has it.
pub open spec fn searched(t: Table<String>, domains: Seq<Seq<char>>, name: Seq<char>) -> Option<
    Seq<char>,
>
    decreases domains.len(),
{
    if domains.len() == 0 {
        None
    } else if entry(t, in_domain(name, domains[0])) is Some {
        entry(t, in_domain(name, domains[0]))
    } else {
        searched(t, domains.skip(1), name)
    }
}

/// Looks a name up under each search domain, in order.
pub fn resolve_search(records: &Table<String>, domains: &[String], name: &str) -> (r: Option<
    String,
>)
    ensures
        reference::opt_text(r) == searched(*records, text::texts(domains@), name@),
{
    let ghost dv = text::texts(domains@);
    let mut i: usize = 0;
    assert(dv.skip(0) =~= dv);
    while i < domains.len()
        invariant
            i <= domains.len(),
            dv == text::texts(domains@),
            searched(*records, dv, name@) == searched(*records, dv.skip(i as int), name@),
        decreases domains.len() - i,
    {
        let dc: Vec<char> = chars_of(domains[i].as_str());
        let low: Vec<char> = lower_ascii(dc.as_slice());
        let mut key: String = name.to_owned();
        key.push('.');
        key.append(string_of(low.as_slice()).as_str());
        assert(dv.skip(i as int)[0] == dc@);
        assert(key@ =~= in_domain(name@, dc@));
        assert(dv.skip(i as int).skip(1) =~= dv.skip(i as int + 1));
        if let Some(ip) = records.get(key.as_str()) {
            return Some(ip.clone());
        }
        i += 1;
    }
    assert(dv.skip(i as int).len() == 0);
    None
}

/// The search domains of a client.
pub open spec fn domains_of(s: Table<Vec<String>>, peer: Seq<char>) -> Seq<Seq<char>> {
    match s.at(peer) {
        Some(v) => text::texts(v@),
        None => Seq::empty(),
    }
}

/// The address of a name for a client: as it stands, then under the client's search
/// domains.
pub open spec fn resolved(
    t: Table<String>,
    s: Table<Vec<String>>,
    peer: Seq<char>,
    name: Option<Seq<char>>,
) -> Option<Seq<char>> {
    match name {
        Some(n) => if entry(t, n) is Some {
            entry(t, n)
        } else {
            searched(t, domains_of(s, peer), n)
        },
        None => None,
    }
}

/// Looks a name up for a client.
pub fn resolve_name(
    records: &Table<String>,
    searches: &Table<Vec<String>>,
    peer: &str,
    name: &Option<String>,
) -> (r: Option<String>)
    ensures
        reference::opt_text(r) == resolved(*records, *searches, peer@, reference::opt_text(*name)),
{
    match name {
        Some(n) => {
            match records.get(n.as_str()) {
                Some(ip) => Some(ip.clone()),
                None => {
                    match searches.get(peer) {
                        Some(d) => resolve_search(records, d.as_slice(), n.as_str()),
                        None => None,
                    }
                },
            }
        },
        None => None,
    }
}

// ---------------------------------------------------------------- replies

/// A reply without answers: the query with the response and recursion bits and the
/// response code set. What is too short for a header goes back as it came.
pub open spec fn error_reply(q: Seq<u8>, rcode: u8) -> Seq<u8> {
    if q.len() < 12 {
        q
    } else {
        q.update(2, q[2] | 0x80).update(3, (q[3] & 0xF0) | 0x80 | (rcode & 0x0F))
    }
}

/// The query as the head of a reply with one answer.
pub open spec fn answer_head(q: Seq<u8>) -> Seq<u8> {
    q.update(2, q[2] | 0x80).update(3, q[3] | 0x80).update(7, 1)
}

/// One answer: a pointer to the question's name, type, class IN, no time to live, and
/// the length of the address that follows.
pub open spec fn record_head(rtype: u8, len: u8) -> Seq<u8> {
    seq![0xC0u8, 0x0C, 0, rtype, 0, 1, 0, 0, 0, 0, 0, len]
}

/// The four bytes of an IPv4 address, or zeros where the text is none.
pub open spec fn octets4(ip: Seq<char>) -> Seq<u8> {
    let n = match addr::ipv4(ip) {
        Some(n) => n as nat,
        None => 0,
    };
    seq![(n / 16777216) as u8, (n / 65536 % 256) as u8, (n / 256 % 256) as u8, (n % 256) as u8]
}

/// The lowest `k` bytes of a number, the highest of them first.
pub open spec fn low_bytes(n: nat, k: nat) -> Seq<u8>
    decreases k,
{
    if k == 0 {
        Seq::empty()
    } else {
        low_bytes(n / 256, (k - 1) as nat).push((n % 256) as u8)
    }
}

/// The sixteen bytes of an IPv6 address, or zeros where the text is none.
pub open spec fn octets6(ip: Seq<char>) -> Seq<u8> {
    low_bytes(
        match addr::ipv6(ip) {
            Some(n) => n,
            None => 0,
        },
        16,
    )
}

pub open spec fn answer4(q: Seq<u8>, ip: Seq<char>) -> Seq<u8> {
    if q.len() < 12 {
        q
    } else {
        answer_head(q) + record_head(1, 4) + octets4(ip)
    }
}

pub open spec fn answer6(q: Seq<u8>, ip: Seq<char>) -> Seq<u8> {
    if q.len() < 12 {
        q
    } else {
        answer_head(q) + record_head(28, 16) + octets6(ip)
    }
}

/// A reply with a response code and no answers.
pub fn build_error(query: &[u8], rcode: u8) -> (r: Vec<u8>)
    ensures
        r@ == error_reply(query@, rcode),
{
    let mut out: Vec<u8> = slice_to_vec(query);
    if out.len() < 12 {
        return out;
    }
    let a: u8 = out[2] | 0x80;
    let b: u8 = (out[3] & 0xF0) | 0x80 | (rcode & 0x0F);
    out.set(2, a);
    out.set(3, b);
    out
}

fn answer_start(query: &[u8], rtype: u8, len: u8) -> (r: Vec<u8>)
    requires
        query@.len() >= 12,
    ensures
        r@ == answer_head(query@) + record_head(rtype, len),
{
    let mut out: Vec<u8> = slice_to_vec(query);
    let a: u8 = out[2] | 0x80;
    let b: u8 = out[3] | 0x80;
    out.set(2, a);
    out.set(3, b);
    out.set(7, 1);
    out.push(0xC0);
    out.push(0x0C);
    out.push(0);
    out.push(rtype);
    out.push(0);
    out.push(1);
    out.push(0);
    out.push(0);
    out.push(0);
    out.push(0);
    out.push(0);
    out.push(len);
    assert(out@ =~= answer_head(query@) + record_head(rtype, len));
    out
}

/// A reply with one IPv4 address.
pub fn build_answer(query: &[u8], ip: &str) -> (r: Vec<u8>)
    ensures
        r@ == answer4(query@, ip@),
{
    if query.len() < 12 {
        return slice_to_vec(query);
    }
    let mut out: Vec<u8> = answer_start(query, 1, 4);
    let ghost head = out@;
    let n: u32 = match parse_ipv4(ip) {
        Some(n) => n,
        None => 0,
    };
    out.push((n / 16777216) as u8);
    out.push((n / 65536 % 256) as u8);
    out.push((n / 256 % 256) as u8);
    out.push((n % 256) as u8);
    assert(out@ =~= head + octets4(ip@));
    out
}

/// A reply with one IPv6 address.
pub fn build_aaaa_answer(query: &[u8], ip: &str) -> (r: Vec<u8>)
    ensures
        r@ == answer6(query@, ip@),
{
    if query.len() < 12 {
        return slice_to_vec(query);
    }
    let mut out: Vec<u8> = answer_start(query, 28, 16);
    let ghost head = out@;
    let n: u128 = match parse_ipv6(ip) {
        Some(n) => n,
        None => 0,
    };
    let mut bytes: Vec<u8> = Vec::new();
    let mut m: u128 = n;
    let mut i: usize = 0;
    assert(low_bytes(n as nat, 16) + bytes@ =~= low_bytes(n as nat, 16));
    while i < 16
        invariant
            i <= 16,
            bytes@.len() == i,
            low_bytes(n as nat, 16) == low_bytes(m as nat, (16 - i) as nat) + bytes@,
        decreases 16 - i,
    {
        let ghost before = bytes@;
        let d: u8 = (m % 256) as u8;
        bytes.insert(0, d);
        assert(bytes@ =~= seq![d] + before);
        assert(low_bytes(m as nat / 256, (15 - i) as nat).push(d) + before =~= low_bytes(
            m as nat / 256,
            (15 - i) as nat,
        ) + bytes@);
        m = m / 256;
        i += 1;
    }
    assert(low_bytes(m as nat, 0) + bytes@ =~= bytes@);
    i = 0;
    assert(head + bytes@.take(0) =~= head);
    while i < 16
        invariant
            i <= 16,
            bytes@.len() == 16,
            out@ == head + bytes@.take(i as int),
        decreases 16 - i,
    {
        out.push(bytes[i]);
        assert(out@ =~= head + bytes@.take(i as int + 1));
        i += 1;
    }
    assert(bytes@.take(16) =~= bytes@);
    out
}

/// What the server does with a datagram.
pub enum Reply {
    /// These bytes go back to the client.
    Send(Vec<u8>),
    /// The query goes to the host's nameservers; where none answers,
    /// [`build_error`] with code 2 goes back.
    Forward,
}

/// What the server does with a query from `peer`.
pub open spec fn served(
    q: Seq<u8>,
    peer: Seq<char>,
    t: Table<String>,
    t6: Table<String>,
    s: Table<Vec<String>>,
    upstream: bool,
) -> Option<Seq<u8>> {
    let (name, qtype) = question(q);
    match decision(qtype, resolved(t, s, peer, name), resolved(t6, s, peer, name)) {
        Decision::A(ip) => Some(answer4(q, ip)),
        Decision::Aaaa(ip) => Some(answer6(q, ip)),
        Decision::Nodata => Some(error_reply(q, 0)),
        Decision::Forward => if upstream {
            None
        } else {
            Some(error_reply(q, 2))
        },
    }
}

/// Decides over one datagram: an answer from the network's own names, or the host's
/// nameservers, if there are any.
pub fn serve_query(
    query: &[u8],
    peer: &str,
    records: &Table<String>,
    records_v6: &Table<String>,
    searches: &Table<Vec<String>>,
    upstream: bool,
) -> (r: Reply)
    ensures
        match r {
            Reply::Send(b) => served(query@, peer@, *records, *records_v6, *searches, upstream)
                == Some(b@),
            Reply::Forward => served(query@, peer@, *records, *records_v6, *searches, upstream)
                is None,
        },
{
    let (name, qtype) = extract_query_name_type(query);
    let v4: Option<String> = resolve_name(records, searches, peer, &name);
    let v6: Option<String> = resolve_name(records_v6, searches, peer, &name);
    match decide(qtype, v4, v6) {
        DnsDecision::A(ip) => Reply::Send(build_answer(query, ip.as_str())),
        DnsDecision::Aaaa(ip) => Reply::Send(build_aaaa_answer(query, ip.as_str())),
        DnsDecision::Nodata => Reply::Send(build_error(query, 0)),
        DnsDecision::Forward => {
            if upstream {
                Reply::Forward
            } else {
                Reply::Send(build_error(query, 2))
            }
        },
    }
}

// ---------------------------------------------------------------- nameservers

/// The address on one line of a resolver configuration: its second word.
pub open spec fn line_address(line: Seq<char>) -> Option<u32> {
    let w = text::words(line);
    if w.len() >= 2 {
        addr::ipv4(w[1])
    } else {
        None
    }
}

/// The addresses of the first `n` lines.
pub open spec fn addresses_to(ls: Seq<Seq<char>>, n: int) -> Seq<u32>
    decreases n,
{
    if n <= 0 {
        Seq::empty()
    } else {
        match line_address(ls[n - 1]) {
            Some(a) => addresses_to(ls, n - 1).push(a),
            None => addresses_to(ls, n - 1),
        }
    }
}

/// The nameservers that a resolver configuration gives, in its order; loopback
/// addresses are among them.
pub fn nameservers_of(content: &str) -> (r: Vec<u32>)
    ensures
        r@ == addresses_to(dockerfile::lines(content@), dockerfile::lines(content@).len() as int),
{
    let cs: Vec<char> = chars_of(content);
    let ls: Vec<String> = lines_text(cs.as_slice());
    let ghost lv = dockerfile::lines(content@);
    let mut out: Vec<u32> = Vec::new();
    let mut i: usize = 0;
    while i < ls.len()
        invariant
            i <= ls.len(),
            lv == text::texts(ls@),
            out@ == addresses_to(lv, i as int),
        decreases ls.len() - i,
    {
        let lc: Vec<char> = chars_of(ls[i].as_str());
        assert(lv[i as int] == lc@);
        let w: Vec<String> = words_text(lc.as_slice());
        if w.len() >= 2 {
            assert(text::texts(w@)[1] == w@[1]@);
            if let Some(a) = parse_ipv4(w[1].as_str()) {
                out.push(a);
            }
        }
        i += 1;
    }
    out
}

// ---------------------------------------------------------------- registries

/// The names with their ASCII letters in lower case.
pub open spec fn lowered_keys(keys: Seq<String>) -> Seq<Seq<char>> {
    Seq::new(keys.len(), |i: int| text::ascii_lowered(keys[i]@))
}

fn lower_key(k: &str) -> (r: String)
    ensures
        r@ == text::ascii_lowered(k@),
{
    let kc: Vec<char> = chars_of(k);
    string_of(lower_ascii(kc.as_slice()).as_slice())
}

/// Puts an address under every name, in lower case.
pub fn register(reg: &mut Table<String>, keys: &[String], ip: &str)
    ensures
        forall|x: Seq<char>|
            #[trigger] entry(*final(reg), x) == if lowered_keys(keys@).contains(x) {
                Some(ip@)
            } else {
                entry(*old(reg), x)
            },
{
    let ghost kv = lowered_keys(keys@);
    let mut i: usize = 0;
    while i < keys.len()
        invariant
            i <= keys.len(),
            kv == lowered_keys(keys@),
            forall|x: Seq<char>|
                #[trigger] entry(*reg, x) == if kv.take(i as int).contains(x) {
                    Some(ip@)
                } else {
                    entry(*old(reg), x)
                },
        decreases keys.len() - i,
    {
        let k: String = lower_key(keys[i].as_str());
        let ghost r0 = *reg;
        reg.insert(k, ip.to_owned());
        proof {
            let a = kv.take(i as int);
            let b = kv.take(i as int + 1);
            assert(b =~= a.push(k@));
            assert forall|x: Seq<char>|
                #[trigger] entry(*reg, x) == if b.contains(x) {
                    Some(ip@)
                } else {
                    entry(*old(reg), x)
                } by {
                if x == k@ {
                    assert(b[i as int] == x);
                } else {
                    assert(reg.at(x) == r0.at(x));
                    assert(entry(r0, x) == entry(*reg, x));
                    if a.contains(x) {
                        let j = choose|j: int| 0 <= j < a.len() && a[j] == x;
                        assert(b[j] == x);
                    }
                    if b.contains(x) {
                        let j = choose|j: int| 0 <= j < b.len() && b[j] == x;
                        assert(a[j] == x);
                    }
                }
            }
        }
        i += 1;
    }
    assert(kv.take(keys@.len() as int) =~= kv);
}

/// Takes every name away that still stands for the address, and no other.
pub fn scrub(reg: &mut Table<String>, keys: &[String], want: &str)
    ensures
        forall|x: Seq<char>|
            #[trigger] entry(*final(reg), x) == if lowered_keys(keys@).contains(x) && entry(
                *old(reg),
                x,
            ) == Some(want@) {
                None
            } else {
                entry(*old(reg), x)
            },
{
    let ghost kv = lowered_keys(keys@);
    let mut i: usize = 0;
    while i < keys.len()
        invariant
            i <= keys.len(),
            kv == lowered_keys(keys@),
            forall|x: Seq<char>|
                #[trigger] entry(*reg, x) == if kv.take(i as int).contains(x) && entry(
                    *old(reg),
                    x,
                ) == Some(want@) {
                    None
                } else {
                    entry(*old(reg), x)
                },
        decreases keys.len() - i,
    {
        let k: String = lower_key(keys[i].as_str());
        let hit: bool = match reg.get(k.as_str()) {
            Some(v) => same(v.as_str(), want),
            None => false,
        };
        let ghost r0 = *reg;
        assert(hit == (entry(r0, k@) == Some(want@)));
        if hit {
            reg.remove(k.as_str());
        }
        proof {
            let a = kv.take(i as int);
            let b = kv.take(i as int + 1);
            assert(b =~= a.push(k@));
            assert forall|x: Seq<char>|
                #[trigger] entry(*reg, x) == if b.contains(x) && entry(*old(reg), x) == Some(
                    want@,
                ) {
                    None
                } else {
                    entry(*old(reg), x)
                } by {
                if x == k@ {
                    assert(b[i as int] == x);
                } else {
                    assert(reg.at(x) == r0.at(x));
                    assert(entry(r0, x) == entry(*reg, x));
                    if a.contains(x) {
                        let j = choose|j: int| 0 <= j < a.len() && a[j] == x;
                        assert(b[j] == x);
                    }
                    if b.contains(x) {
                        let j = choose|j: int| 0 <= j < b.len() && b[j] == x;
                        assert(a[j] == x);
                    }
                }
            }
        }
        i += 1;
    }
    assert(kv.take(keys@.len() as int) =~= kv);
}

// ---------------------------------------------------------------- laws

/// Every reply keeps the query's id and its question, and says that it is a response
/// with recursion available.
pub proof fn law_reply_mirrors_query(q: Seq<u8>, rcode: u8, ip: Seq<char>)
    requires
        q.len() >= 12,
    ensures
        forall|r: Seq<u8>|
            r == error_reply(q, rcode) || r == answer4(q, ip) || r == answer6(q, ip) ==> {
                &&& #[trigger] r.len() >= q.len()
                &&& r.subrange(0, 2) == q.subrange(0, 2)
                &&& r.subrange(4, 7) == q.subrange(4, 7)
                &&& r.subrange(8, q.len() as int) == q.subrange(8, q.len() as int)
                &&& r[2] & 0x80 == 0x80
                &&& r[3] & 0x80 == 0x80
            },
{
    let a = q[2];
    let b = q[3];
    assert((a | 0x80u8) & 0x80u8 == 0x80u8) by (bit_vector);
    assert((b | 0x80u8) & 0x80u8 == 0x80u8) by (bit_vector);
    assert(((b & 0xF0u8) | 0x80u8 | (rcode & 0x0Fu8)) & 0x80u8 == 0x80u8) by (bit_vector);
    assert forall|r: Seq<u8>|
        r == error_reply(q, rcode) || r == answer4(q, ip) || r == answer6(q, ip) implies {
        &&& #[trigger] r.len() >= q.len()
        &&& r.subrange(0, 2) == q.subrange(0, 2)
        &&& r.subrange(4, 7) == q.subrange(4, 7)
        &&& r.subrange(8, q.len() as int) == q.subrange(8, q.len() as int)
        &&& r[2] & 0x80 == 0x80
        &&& r[3] & 0x80 == 0x80
    } by {
        assert(r.subrange(0, 2) =~= q.subrange(0, 2));
        assert(r.subrange(4, 7) =~= q.subrange(4, 7));
        assert(r.subrange(8, q.len() as int) =~= q.subrange(8, q.len() as int));
    }
}

/// An error reply carries the code that was asked for and adds no answer.
pub proof fn law_error_reply_code(q: Seq<u8>, rcode: u8)
    requires
        q.len() >= 12,
        rcode < 16,
    ensures
        error_reply(q, rcode)[3] & 0x0F == rcode,
        error_reply(q, rcode).len() == q.len(),
        error_reply(q, rcode)[7] == q[7],
{
    let b = q[3];
    assert(((b & 0xF0u8) | 0x80u8 | (rcode & 0x0Fu8)) & 0x0Fu8 == rcode) by (bit_vector)
        requires
            rcode < 16,
    ;
}

/// A query for the IPv6 address of a name that the network has in either family is
/// never passed on.
pub proof fn law_own_names_stay(v4: Option<Seq<char>>, v6: Option<Seq<char>>)
    ensures
        v4 is Some || v6 is Some ==> !(decision(28, v4, v6) is Forward),
        v4 is Some ==> !(decision(1, v4, v6) is Forward),
        v4 is None && v6 is None ==> decision(28, v4, v6) is Forward && decision(1, v4, v6)
            is Forward,
{
}

/// The name of a question holds no upper-case ASCII letter, so names compare without
/// regard to case.
pub proof fn law_names_are_lower_case(q: Seq<u8>, i: int)
    requires
        question(q).0 matches Some(n) && 0 <= i < n.len(),
    ensures
        !('A' <= question(q).0->0[i] <= 'Z'),
{
}

/// What is registered under a name in any case is found under its lower-case form, and
/// is gone once the address is scrubbed.
pub proof fn law_register_then_scrub(
    before: Table<String>,
    mid: Table<String>,
    after: Table<String>,
    keys: Seq<String>,
    ip: Seq<char>,
    i: int,
)
    requires
        0 <= i < keys.len(),
        forall|x: Seq<char>|
            #[trigger] entry(mid, x) == if lowered_keys(keys).contains(x) {
                Some(ip)
            } else {
                entry(before, x)
            },
        forall|x: Seq<char>|
            #[trigger] entry(after, x) == if lowered_keys(keys).contains(x) && entry(mid, x)
                == Some(ip) {
                None
            } else {
                entry(mid, x)
            },
    ensures
        entry(mid, text::ascii_lowered(keys[i]@)) == Some(ip),
        entry(after, text::ascii_lowered(keys[i]@)) is None,
        forall|x: Seq<char>|
            !lowered_keys(keys).contains(x) ==> #[trigger] entry(after, x) == entry(before, x),
{
    assert(lowered_keys(keys)[i] == text::ascii_lowered(keys[i]@));
}

// ---------------------------------------------------------------- what a resolver reads

/// The two bytes at a place as a number, the higher first.
pub open spec fn pair_at(m: Seq<u8>, i: int) -> int {
    m[i] * 256 + m[i + 1]
}

/// Bytes as a number, the highest first.
pub open spec fn number_of(b: Seq<u8>) -> nat
    decreases b.len(),
{
    if b.len() == 0 {
        0
    } else {
        number_of(b.drop_last()) * 256 + b.last() as nat
    }
}

/// One record stands at a place, and nothing behind it: of the name that the question asks
/// for, which begins behind the header, of a type, of the class of the internet, to be kept
/// for no time, and with data that is a number of so many bytes.
pub open spec fn is_record(m: Seq<u8>, i: int, rtype: int, len: int, value: nat) -> bool {
    &&& m.len() == i + 12 + len
    &&& pair_at(m, i) == 0xC000 + 12
    &&& pair_at(m, i + 2) == rtype
    &&& pair_at(m, i + 4) == 1
    &&& pair_at(m, i + 6) == 0
    &&& pair_at(m, i + 8) == 0
    &&& pair_at(m, i + 10) == len
    &&& number_of(m.skip(i + 12)) == value
}

spec fn bytes_bound(k: nat) -> nat
    decreases k,
{
    if k == 0 {
        1
    } else {
        256 * bytes_bound((k - 1) as nat)
    }
}

proof fn lemma_low_bytes(n: nat, k: nat)
    requires
        n < bytes_bound(k),
    ensures
        low_bytes(n, k).len() == k,
        number_of(low_bytes(n, k)) == n,
    decreases k,
{
    if k > 0 {
        lemma_low_bytes(n / 256, (k - 1) as nat);
        let b = low_bytes(n, k);
        assert(b.drop_last() =~= low_bytes(n / 256, (k - 1) as nat));
    }
}

/// A reply with an address announces exactly one answer, and holds it: to a query that
/// announces none, a resolver reads one record behind the query, of the type of the family,
/// whose data is the address that was given.
pub proof fn law_answer_holds_the_address(q: Seq<u8>, ip: Seq<char>, ip6: Seq<char>)
    requires
        q.len() >= 12,
        q[6] == 0,
        addr::ipv4(ip) is Some,
        addr::ipv6(ip6) matches Some(n) && n <= u128::MAX,
    ensures
        pair_at(answer4(q, ip), 6) == 1,
        is_record(answer4(q, ip), q.len() as int, 1, 4, addr::ipv4(ip)->0 as nat),
        pair_at(answer6(q, ip6), 6) == 1,
        is_record(answer6(q, ip6), q.len() as int, 28, 16, addr::ipv6(ip6)->0),
{
    lemma_answer4(q, ip);
    lemma_answer6(q, ip6);
}

#[verifier::rlimit(40)]
proof fn lemma_answer4(q: Seq<u8>, ip: Seq<char>)
    requires
        q.len() >= 12,
        q[6] == 0,
        addr::ipv4(ip) is Some,
    ensures
        pair_at(answer4(q, ip), 6) == 1,
        is_record(answer4(q, ip), q.len() as int, 1, 4, addr::ipv4(ip)->0 as nat),
{
    let n = addr::ipv4(ip)->0 as nat;
    let a = answer4(q, ip);
    let o = octets4(ip);
    assert(a.skip(q.len() + 12int) =~= o);
    assert(number_of(o) == n) by {
        reveal_with_fuel(number_of, 5);
        addr::lemma_octets(n as int);
        assert(o.drop_last() =~= seq![o[0], o[1], o[2]]);
        assert(o.drop_last().drop_last() =~= seq![o[0], o[1]]);
        assert(o.drop_last().drop_last().drop_last() =~= seq![o[0]]);
        assert(o.drop_last().drop_last().drop_last().drop_last() =~= Seq::empty());
    }
}

#[verifier::rlimit(40)]
proof fn lemma_answer6(q: Seq<u8>, ip6: Seq<char>)
    requires
        q.len() >= 12,
        q[6] == 0,
        addr::ipv6(ip6) matches Some(n) && n <= u128::MAX,
    ensures
        pair_at(answer6(q, ip6), 6) == 1,
        is_record(answer6(q, ip6), q.len() as int, 28, 16, addr::ipv6(ip6)->0),
{
    let n6 = addr::ipv6(ip6)->0;
    let b = answer6(q, ip6);
    assert(number_of(low_bytes(n6, 16)) == n6 && low_bytes(n6, 16).len() == 16) by {
        reveal_with_fuel(bytes_bound, 17);
        lemma_low_bytes(n6, 16);
    }
    assert(b.skip(q.len() + 12int) =~= octets6(ip6));
}

/// A name on the wire: each label behind its length, and a zero byte.
pub open spec fn wire_name(labels: Seq<Seq<u8>>) -> Seq<u8>
    decreases labels.len(),
{
    if labels.len() == 0 {
        seq![0u8]
    } else {
        seq![labels[0].len() as u8] + labels[0] + wire_name(labels.skip(1))
    }
}

/// Labels that a question can hold.
pub open spec fn are_labels(labels: Seq<Seq<u8>>) -> bool {
    forall|i: int| 0 <= i < labels.len() ==> 1 <= (#[trigger] labels[i]).len() <= 63
}

proof fn lemma_labels_are_read(q: Seq<u8>, i: int, labels: Seq<Seq<u8>>)
    requires
        are_labels(labels),
        0 <= i,
        i + wire_name(labels).len() <= q.len(),
        q.subrange(i, i + wire_name(labels).len()) == wire_name(labels),
    ensures
        labels_at(q, i) == (labels, Some(i + wire_name(labels).len() - 1)),
        wire_name(labels).len() >= 1,
    decreases labels.len(),
{
    let w = wire_name(labels);
    let s = q.subrange(i, i + w.len());
    if labels.len() == 0 {
        assert(s[0] == 0);
        assert(labels =~= Seq::empty());
    } else {
        let l = labels[0];
        let rest = wire_name(labels.skip(1));
        assert(1 <= l.len() <= 63);
        assert forall|k: int| 0 <= k < labels.skip(1).len() implies 1 <= (
        #[trigger] labels.skip(1)[k]).len() <= 63 by {
            assert(labels.skip(1)[k] == labels[k + 1]);
        }
        assert(s[0] == q[i]);
        assert(w[0] == l.len() as u8);
        let j = i + 1 + l.len();
        assert(q.subrange(i + 1, j) =~= l) by {
            assert forall|k: int| 0 <= k < l.len() implies q[i + 1 + k] == l[k] by {
                assert(s[1 + k] == w[1 + k]);
            }
        }
        assert(q.subrange(j, j + rest.len()) =~= rest) by {
            assert forall|k: int| 0 <= k < rest.len() implies q[j + k] == rest[k] by {
                assert(s[1 + l.len() + k] == w[1 + l.len() + k]);
            }
        }
        lemma_labels_are_read(q, j, labels.skip(1));
        assert(seq![l] + labels.skip(1) =~= labels);
    }
}

/// The question that a client writes is the question that is read: the labels of its name,
/// with dots between them and in lower case, and its type.
pub proof fn law_question_is_read(q: Seq<u8>, labels: Seq<Seq<u8>>, qtype: int)
    requires
        are_labels(labels),
        labels.len() > 0,
        q.len() >= 12 + wire_name(labels).len() + 2,
        q.subrange(12, 12int + wire_name(labels).len()) == wire_name(labels),
        pair_at(q, 12int + wire_name(labels).len()) == qtype,
    ensures
        question(q).1 == qtype,
        question(q).0 == Some(
            text::ascii_lowered(
                text::join(Seq::new(labels.len(), |i: int| lossy(labels[i])), "."@),
            ),
        ),
{
    lemma_labels_are_read(q, 12, labels);
    reveal_strlit(".");
    assert("."@ =~= seq!['.']);
    assert(lossy_all(labels) =~= Seq::new(labels.len(), |i: int| lossy(labels[i])));
}

/// A name of the network is answered with the address that it was registered with: a query
/// of type 28 with its IPv6 address, any other with its IPv4 address. One that has no IPv6
/// address is answered without data, and never passed on; one that has no address at all is
/// passed on, or refused where there is nobody to pass it on to.
pub proof fn law_names_are_answered(
    q: Seq<u8>,
    peer: Seq<char>,
    t: Table<String>,
    t6: Table<String>,
    s: Table<Vec<String>>,
    upstream: bool,
    name: Seq<char>,
    qtype: int,
)
    requires
        question(q) == (Some(name), qtype),
        s.at(peer) is None,
    ensures
        qtype != 28 && entry(t, name) is Some ==> served(q, peer, t, t6, s, upstream) == Some(
            answer4(q, entry(t, name)->0),
        ),
        qtype == 28 && entry(t6, name) is Some ==> served(q, peer, t, t6, s, upstream) == Some(
            answer6(q, entry(t6, name)->0),
        ),
        qtype == 28 && entry(t6, name) is None && entry(t, name) is Some ==> served(
            q,
            peer,
            t,
            t6,
            s,
            upstream,
        ) == Some(error_reply(q, 0)),
        entry(t, name) is None && entry(t6, name) is None && upstream ==> served(
            q,
            peer,
            t,
            t6,
            s,
            upstream,
        ) is None,
        entry(t, name) is None && entry(t6, name) is None && !upstream ==> served(
            q,
            peer,
            t,
            t6,
            s,
            upstream,
        ) == Some(error_reply(q, 2)),
{
    assert(domains_of(s, peer) =~= Seq::empty());
}

/// A client that asks for a name without a domain of its own finds it under the first of its
/// search domains that has it; a name that is there as it stands needs none.
pub proof fn law_search_domains_are_tried(
    t: Table<String>,
    s: Table<Vec<String>>,
    peer: Seq<char>,
    name: Seq<char>,
    i: int,
)
    requires
        s.at(peer) matches Some(v) && 0 <= i < v@.len(),
        entry(t, name) is None,
        entry(t, name + "."@ + text::ascii_lowered(s.at(peer)->0@[i]@)) is Some,
        forall|j: int|
            0 <= j < i ==> entry(
                t,
                name + "."@ + text::ascii_lowered((#[trigger] s.at(peer)->0@[j])@),
            ) is None,
    ensures
        resolved(t, s, peer, Some(name)) == entry(
            t,
            name + "."@ + text::ascii_lowered(s.at(peer)->0@[i]@),
        ),
{
    let v = text::texts(s.at(peer)->0@);
    reveal_strlit(".");
    assert("."@ =~= seq!['.']);
    assert forall|j: int| 0 <= j < i implies entry(t, in_domain(name, #[trigger] v[j])) is None by {
        assert(v[j] == s.at(peer)->0@[j]@);
        assert(in_domain(name, v[j]) == name + "."@ + text::ascii_lowered(s.at(peer)->0@[j]@));
    }
    assert(in_domain(name, v[i]) == name + "."@ + text::ascii_lowered(s.at(peer)->0@[i]@));
    lemma_searched(t, v, name, i);
}

proof fn lemma_searched(t: Table<String>, v: Seq<Seq<char>>, name: Seq<char>, i: int)
    requires
        0 <= i < v.len(),
        entry(t, in_domain(name, v[i])) is Some,
        forall|j: int| 0 <= j < i ==> entry(t, in_domain(name, #[trigger] v[j])) is None,
    ensures
        searched(t, v, name) == entry(t, in_domain(name, v[i])),
    decreases v.len(),
{
    if i > 0 {
        assert(entry(t, in_domain(name, v[0])) is None);
        assert forall|j: int| 0 <= j < i - 1 implies entry(
            t,
            in_domain(name, #[trigger] v.skip(1)[j]),
        ) is None by {
            assert(v.skip(1)[j] == v[j + 1]);
        }
        lemma_searched(t, v.skip(1), name, i - 1);
    }
}

} // verus!
