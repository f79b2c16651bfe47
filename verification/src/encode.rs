//! Encodings and digests.

use vstd::prelude::*;
use vstd::utf8::encode_utf8;

use crate::num::{self, upper_hex_digit};

verus! {

// ---------------------------------------------------------------- digests

/// The SHA-256 digest of bytes.
pub uninterp spec fn sha256(data: Seq<u8>) -> Seq<u8>;

/// `sha2::Sha256::digest`: the digest, thirty-two bytes.
#[verifier::external_body]
fn sha256_of(data: &[u8]) -> (r: Vec<u8>)
    ensures
        r@ == sha256(data@),
        r@.len() == 32,
{
    <sha2::Sha256 as sha2::Digest>::digest(data).to_vec()
}

/// A hash that is being computed, by `sha2::Sha256`.
#[verifier::external_body]
pub struct Hashing {
    inner: sha2::Sha256,
}

/// The bytes that a hash has been given so far.
pub uninterp spec fn hashed(h: Hashing) -> Seq<u8>;

impl Hashing {
    /// `sha2::Sha256::new`: a hash that has been given no bytes.
    #[verifier::external_body]
    fn new() -> (r: Hashing)
        ensures
            hashed(r) == Seq::<u8>::empty(),
    {
        Hashing { inner: <sha2::Sha256 as sha2::Digest>::new() }
    }

    /// `sha2::Digest::update`: gives the hash more bytes, behind those that it has.
    #[verifier::external_body]
    fn feed(&mut self, b: &[u8])
        ensures
            hashed(*final(self)) == hashed(*old(self)) + b@,
    {
        sha2::Digest::update(&mut self.inner, b);
    }

    /// `sha2::Digest::finalize`: the digest of all bytes that the hash was given, thirty-two
    /// bytes.
    #[verifier::external_body]
    fn finish(self) -> (r: Vec<u8>)
        ensures
            r@ == sha256(hashed(self)),
            r@.len() == 32,
    {
        sha2::Digest::finalize(self.inner).to_vec()
    }
}

/// Bytes that come in parts, as far as their digest goes.
pub struct Received {
    hashing: Hashing,
}

impl Received {
    /// The bytes that have come so far.
    pub closed spec fn bytes(self) -> Seq<u8> {
        hashed(self.hashing)
    }

    pub fn new() -> (r: Received)
        ensures
            r.bytes() == Seq::<u8>::empty(),
    {
        Received { hashing: Hashing::new() }
    }

    /// Takes in what has come.
    pub fn take_in(&mut self, b: &[u8])
        ensures
            final(self).bytes() == old(self).bytes() + b@,
    {
        self.hashing.feed(b);
    }

    /// The digest of all bytes, in hexadecimal.
    pub fn hex(self) -> (r: String)
        ensures
            r@ == sha256_hexed(self.bytes()),
            r@.len() == 64,
    {
        hex_of(self.hashing.finish().as_slice())
    }

    /// The digest of all bytes as references write it.
    pub fn digest(self) -> (r: String)
        ensures
            r@ == digest_text(self.bytes()),
    {
        let mut s: String = "sha256:".to_owned();
        s.append(self.hex().as_str());
        s
    }
}

/// Bytes in lower-case hexadecimal, two characters each.
pub open spec fn hexed(b: Seq<u8>) -> Seq<char> {
    Seq::new(
        2 * b.len(),
        |i: int|
            num::hex_char(
                if i % 2 == 0 {
                    (b[i / 2] / 16) as nat
                } else {
                    (b[i / 2] % 16) as nat
                },
            ),
    )
}

/// `hex::encode`: each byte as two lower-case hexadecimal characters.
#[verifier::external_body]
fn hex_of(b: &[u8]) -> (r: String)
    ensures
        r@ == hexed(b@),
{
    hex::encode(b)
}

/// The digest of bytes in hexadecimal.
pub open spec fn sha256_hexed(data: Seq<u8>) -> Seq<char> {
    hexed(sha256(data))
}

pub fn sha256_hex(data: &[u8]) -> (r: String)
    ensures
        r@ == sha256_hexed(data@),
        r@.len() == 64,
{
    hex_of(sha256_of(data).as_slice())
}

/// The digest of bytes as references write it.
pub open spec fn digest_text(data: Seq<u8>) -> Seq<char> {
    "sha256:"@ + sha256_hexed(data)
}

pub fn digest_of(data: &[u8]) -> (r: String)
    ensures
        r@ == digest_text(data@),
{
    let mut s: String = "sha256:".to_owned();
    s.append(sha256_hex(data).as_str());
    s
}

// ---------------------------------------------------------------- base64

/// Bytes in base64, with padding.
pub uninterp spec fn base64_shown(data: Seq<u8>) -> Seq<char>;

/// The bytes that base64 text writes, where it is that.
pub uninterp spec fn base64_read(s: Seq<char>) -> Option<Seq<u8>>;

/// `base64::engine::general_purpose::STANDARD.encode`: the standard alphabet, padded. What
/// it writes is read back as the same bytes.
#[verifier::external_body]
pub(crate) fn base64_text(data: &[u8]) -> (r: String)
    ensures
        r@ == base64_shown(data@),
        base64_read(r@) == Some(data@),
{
    base64::Engine::encode(&base64::engine::general_purpose::STANDARD, data)
}

/// `base64::engine::general_purpose::STANDARD.decode`: the bytes that the text writes in
/// the standard alphabet, padded; `None` for any other text.
#[verifier::external_body]
pub(crate) fn base64_bytes(s: &str) -> (r: Option<Vec<u8>>)
    ensures
        match r {
            Some(v) => base64_read(s@) == Some(v@),
            None => base64_read(s@) is None,
        },
{
    base64::Engine::decode(&base64::engine::general_purpose::STANDARD, s).ok()
}

// ---------------------------------------------------------------- percent encoding

/// A byte that stands for itself everywhere in a URL.
pub open spec fn is_unreserved(b: u8) -> bool {
    ('A' as u8 <= b <= 'Z' as u8) || ('a' as u8 <= b <= 'z' as u8) || ('0' as u8 <= b <= '9' as u8)
        || b == '-' as u8 || b == '_' as u8 || b == '.' as u8 || b == '~' as u8
}

/// Where text stands in a URL.
#[derive(Debug, Clone, Copy, PartialEq, Eq, Structural)]
pub enum Place {
    /// A value of a query: only unreserved bytes stay.
    Value,
    /// One segment of a path: a colon stays too.
    Segment,
    /// A value that may be a name with a path: a colon and a slash stay too.
    Name,
}

/// The byte stands for itself at the place.
pub open spec fn stays(p: Place, b: u8) -> bool {
    is_unreserved(b) || (b == ':' as u8 && !(p is Value)) || (b == '/' as u8 && p is Name)
}

/// One byte, as itself or as `%` and two upper-case hexadecimal characters.
pub open spec fn escaped_byte(p: Place, b: u8) -> Seq<char> {
    if stays(p, b) {
        seq![b as char]
    } else {
        seq!['%', num::upper_hex_char((b / 16) as nat), num::upper_hex_char((b % 16) as nat)]
    }
}

/// Bytes in percent encoding.
pub open spec fn escaped_bytes(p: Place, b: Seq<u8>) -> Seq<char>
    decreases b.len(),
{
    if b.len() == 0 {
        Seq::empty()
    } else {
        escaped_bytes(p, b.drop_last()) + escaped_byte(p, b.last())
    }
}

/// Text in percent encoding.
pub open spec fn in_url(p: Place, s: Seq<char>) -> Seq<char> {
    escaped_bytes(p, encode_utf8(s))
}

/// Text as the value of a query.
pub open spec fn pct(s: Seq<char>) -> Seq<char> {
    in_url(Place::Value, s)
}

fn push_escaped(p: Place, out: &mut String, b: u8)
    ensures
        final(out)@ == old(out)@ + escaped_byte(p, b),
{
    let unreserved: bool = (b >= 65 && b <= 90) || (b >= 97 && b <= 122) || (b >= 48 && b <= 57)
        || b == 45 || b == 95 || b == 46 || b == 126;
    let also: bool = match p {
        Place::Value => false,
        Place::Segment => b == 58,
        Place::Name => b == 58 || b == 47,
    };
    if unreserved || also {
        out.push(b as char);
    } else {
        out.push('%');
        out.push(upper_hex_digit(b / 16));
        out.push(upper_hex_digit(b % 16));
    }
    assert(out@ =~= old(out)@ + escaped_byte(p, b));
}

fn escape(p: Place, s: &str) -> (r: String)
    ensures
        r@ == in_url(p, s@),
{
    let bytes: &[u8] = s.as_bytes();
    let mut out: String = String::new();
    let mut i: usize = 0;
    assert(bytes@.take(0) =~= Seq::empty());
    while i < bytes.len()
        invariant
            i <= bytes.len(),
            out@ == escaped_bytes(p, bytes@.take(i as int)),
        decreases bytes.len() - i,
    {
        assert(bytes@.take(i as int + 1).drop_last() =~= bytes@.take(i as int));
        push_escaped(p, &mut out, bytes[i]);
        i += 1;
    }
    assert(bytes@.take(bytes@.len() as int) =~= bytes@);
    out
}

/// Text as the value of a query.
pub fn pct_encode(s: &str) -> (r: String)
    ensures
        r@ == pct(s@),
{
    escape(Place::Value, s)
}

/// Text as the value of a query, with its colons and slashes.
pub fn url_escape(s: &str) -> (r: String)
    ensures
        r@ == in_url(Place::Name, s@),
{
    escape(Place::Name, s)
}

/// Text as one segment of a path.
pub fn path_escape(s: &str) -> (r: String)
    ensures
        r@ == in_url(Place::Segment, s@),
{
    escape(Place::Segment, s)
}

/// The bytes that percent-encoded text writes, where it is that.
pub open spec fn unescaped(s: Seq<char>) -> Option<Seq<u8>>
    decreases s.len(),
{
    if s.len() == 0 {
        Some(Seq::empty())
    } else if s[0] == '%' {
        if s.len() < 3 {
            None
        } else {
            match (num::hex_value(s[1]), num::hex_value(s[2]), unescaped(s.skip(3))) {
                (Some(a), Some(b), Some(t)) => Some(seq![(16 * a + b) as u8] + t),
                _ => None,
            }
        }
    } else if (s[0] as u32) < 128 {
        match unescaped(s.skip(1)) {
            Some(t) => Some(seq![s[0] as u8] + t),
            None => None,
        }
    } else {
        None
    }
}

proof fn lemma_unescaped_byte(p: Place, b: u8, t: Seq<char>)
    ensures
        unescaped(escaped_byte(p, b) + t) == match unescaped(t) {
            Some(u) => Some(seq![b] + u),
            None => None,
        },
{
    let s = escaped_byte(p, b) + t;
    if stays(p, b) {
        assert(s.skip(1) =~= t);
    } else {
        assert(s.skip(3) =~= t);
        let x = (b / 16) as nat;
        let y = (b % 16) as nat;
        assert(num::hex_value(num::upper_hex_char(x)) == Some(x));
        assert(num::hex_value(num::upper_hex_char(y)) == Some(y));
        assert(16 * x + y == b);
    }
}

proof fn lemma_unescaped_bytes(p: Place, b: Seq<u8>, t: Seq<char>)
    ensures
        unescaped(escaped_bytes(p, b) + t) == match unescaped(t) {
            Some(u) => Some(b + u),
            None => None,
        },
    decreases b.len(),
{
    if b.len() == 0 {
        assert(escaped_bytes(p, b) + t =~= t);
        if let Some(u) = unescaped(t) {
            assert(b + u =~= u);
        }
    } else {
        let c = escaped_byte(p, b.last());
        assert(escaped_bytes(p, b) + t =~= escaped_bytes(p, b.drop_last()) + (c + t));
        lemma_unescaped_byte(p, b.last(), t);
        lemma_unescaped_bytes(p, b.drop_last(), c + t);
        if let Some(u) = unescaped(t) {
            assert(b.drop_last() + (seq![b.last()] + u) =~= b + u);
        }
    }
}

/// What is percent-encoded decodes to the bytes that it was made of.
pub proof fn law_escaped_reads_back(p: Place, s: Seq<char>)
    ensures
        unescaped(in_url(p, s)) == Some(encode_utf8(s)),
{
    let b = encode_utf8(s);
    lemma_unescaped_bytes(p, b, Seq::empty());
    assert(escaped_bytes(p, b) + Seq::<char>::empty() =~= escaped_bytes(p, b));
    assert(b + Seq::<u8>::empty() =~= b);
}

proof fn lemma_escaped_alphabet(p: Place, b: Seq<u8>, i: int)
    requires
        0 <= i < escaped_bytes(p, b).len(),
    ensures
        escaped_bytes(p, b)[i] == '%' || stays(p, escaped_bytes(p, b)[i] as u8),
        (escaped_bytes(p, b)[i] as u32) < 128,
    decreases b.len(),
{
    if b.len() > 0 {
        let n = escaped_bytes(p, b.drop_last()).len();
        if i < n {
            lemma_escaped_alphabet(p, b.drop_last(), i);
        } else {
            assert(escaped_bytes(p, b)[i] == escaped_byte(p, b.last())[i - n]);
        }
    }
}

/// Percent-encoded text holds nothing but `%` and what may stand at its place: no value
/// ends a query, and no segment ends a path.
pub proof fn law_escaped_alphabet(p: Place, s: Seq<char>, i: int)
    requires
        0 <= i < in_url(p, s).len(),
    ensures
        in_url(p, s)[i] == '%' || stays(p, in_url(p, s)[i] as u8),
        (in_url(p, s)[i] as u32) < 128,
{
    lemma_escaped_alphabet(p, encode_utf8(s), i);
}

} // verus!
