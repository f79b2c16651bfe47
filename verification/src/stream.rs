//! Streams of the API: frames of output, lines of JSON, and a connection that is taken
//! over.

use vstd::prelude::*;
use vstd::slice::slice_subrange;
use vstd::utf8::encode_utf8;

use crate::dns::{self, lossy_text};
use crate::dockerfile::{self, lines_text};
use crate::json::{self, is_document, text_at};
use crate::network::add_word;
use crate::num::{self, decimal_text};
use crate::reference;
use crate::registry::{self, success};
use crate::text::{self, chars_of, str_contains, str_strip_prefix, str_trim};

verus! {

// ---------------------------------------------------------------- frames

/// The number that four bytes write, the highest first.
pub open spec fn be32(a: u8, b: u8, c: u8, d: u8) -> nat {
    (a as nat) * 0x100_0000 + (b as nat) * 0x1_0000 + (c as nat) * 0x100 + (d as nat)
}

/// How many bytes of output the frame at the beginning announces.
pub open spec fn announced(b: Seq<u8>) -> nat {
    be32(b[4], b[5], b[6], b[7])
}

/// There is a whole frame at the beginning.
pub open spec fn has_frame(b: Seq<u8>) -> bool {
    b.len() >= 8 && b.len() >= 8 + announced(b)
}

/// The whole frames at the beginning: for each the number of its stream and its output.
pub open spec fn frames(b: Seq<u8>) -> Seq<(u8, Seq<u8>)>
    decreases b.len(),
{
    if has_frame(b) {
        seq![(b[0], b.subrange(8, 8 + announced(b) as int))] + frames(
            b.skip(8 + announced(b) as int),
        )
    } else {
        Seq::empty()
    }
}

/// What is left behind the whole frames.
pub open spec fn unframed(b: Seq<u8>) -> Seq<u8>
    decreases b.len(),
{
    if has_frame(b) {
        unframed(b.skip(8 + announced(b) as int))
    } else {
        b
    }
}

/// A frame of output.
pub struct Frame {
    /// One is the standard output, two the standard error.
    pub stream: u8,
    pub payload: Vec<u8>,
}

pub open spec fn frame_views(v: Seq<Frame>) -> Seq<(u8, Seq<u8>)> {
    Seq::new(v.len(), |i: int| (v[i].stream, v[i].payload@))
}

fn read_be32(b: &[u8], at: usize) -> (r: usize)
    requires
        at + 8 <= b@.len(),
    ensures
        r == be32(b@[at + 4], b@[at + 5], b@[at + 6], b@[at + 7]),
        r <= 0xffff_ffff,
{
    let _n: usize = b.len();
    (b[at + 4] as usize) * 0x100_0000 + (b[at + 5] as usize) * 0x1_0000 + (b[at + 6] as usize)
        * 0x100 + (b[at + 7] as usize)
}

fn bytes_between(b: &[u8], from: usize, to: usize) -> (r: Vec<u8>)
    requires
        from <= to <= b@.len(),
    ensures
        r@ == b@.subrange(from as int, to as int),
{
    let mut out: Vec<u8> = Vec::new();
    let mut i: usize = from;
    while i < to
        invariant
            from <= i <= to <= b@.len(),
            out@ =~= b@.subrange(from as int, i as int),
        decreases to - i,
    {
        out.push(b[i]);
        i += 1;
    }
    out
}

/// The output of one frame, and its stream. Bytes that are no frame are standard output.
pub open spec fn frame_of(b: Seq<u8>) -> (u8, Seq<u8>) {
    if b.len() < 8 {
        (1, b)
    } else if has_frame(b) {
        (b[0], b.subrange(8, 8 + announced(b) as int))
    } else {
        (b[0], b.skip(8))
    }
}

/// Takes a frame apart.
pub fn demux(buf: &[u8]) -> (r: (u8, &[u8]))
    ensures
        (r.0, r.1@) == frame_of(buf@),
{
    let n: usize = buf.len();
    if n < 8 {
        return (1, buf);
    }
    let len: usize = read_be32(buf, 0);
    let end: usize = if n - 8 < len {
        n
    } else {
        8 + len
    };
    let p: &[u8] = slice_subrange(buf, 8, end);
    assert(p@ =~= frame_of(buf@).1);
    (buf[0], p)
}

/// Takes the whole frames out of what has come so far; the rest stays.
pub fn take_frames(pending: &mut Vec<u8>) -> (r: Vec<Frame>)
    ensures
        frame_views(r@) == frames(old(pending)@),
        final(pending)@ == unframed(old(pending)@),
{
    let ghost all = pending@;
    let n: usize = pending.len();
    let mut out: Vec<Frame> = Vec::new();
    let mut at: usize = 0;
    assert(all.skip(0) =~= all);
    assert(frame_views(out@) + frames(all.skip(0)) =~= frames(all));
    loop
        invariant_except_break
            frames(all) == frame_views(out@) + frames(all.skip(at as int)),
            unframed(all) == unframed(all.skip(at as int)),
        invariant
            pending@ == all,
            n == all.len(),
            at <= n,
        ensures
            frames(all) == frame_views(out@),
            unframed(all) == all.skip(at as int),
        decreases n - at,
    {
        let ghost b = all.skip(at as int);
        if n - at < 8 {
            assert(frame_views(out@) + Seq::<(u8, Seq<u8>)>::empty() =~= frame_views(out@));
            break;
        }
        let len: usize = read_be32(pending.as_slice(), at);
        assert(len == announced(b));
        if n - at - 8 < len {
            assert(frame_views(out@) + Seq::<(u8, Seq<u8>)>::empty() =~= frame_views(out@));
            break;
        }
        let ghost before = out@;
        let f: Frame = Frame {
            stream: pending[at],
            payload: bytes_between(pending.as_slice(), at + 8, at + 8 + len),
        };
        assert(f.payload@ =~= b.subrange(8, 8 + len as int));
        assert(b.skip(8 + len as int) =~= all.skip(at + 8 + len as int));
        out.push(f);
        assert(frame_views(out@) =~= frame_views(before).push((f.stream, f.payload@)));
        assert(frame_views(before) + (seq![(f.stream, f.payload@)] + frames(
            b.skip(8 + len as int),
        )) =~= frame_views(out@) + frames(b.skip(8 + len as int)));
        at = at + 8 + len;
    }
    let rest: Vec<u8> = bytes_between(pending.as_slice(), at, n);
    assert(rest@ =~= all.skip(at as int));
    *pending = rest;
    out
}

/// The bytes of a frame.
pub open spec fn framed(stream: u8, payload: Seq<u8>) -> Seq<u8> {
    let n = payload.len();
    seq![
        stream,
        0u8,
        0u8,
        0u8,
        (n / 0x100_0000) as u8,
        (n / 0x1_0000 % 0x100) as u8,
        (n / 0x100 % 0x100) as u8,
        (n % 0x100) as u8,
    ] + payload
}

/// What is framed is taken out as it was put in, whatever comes behind it.
pub proof fn law_framed_reads_back(stream: u8, payload: Seq<u8>, behind: Seq<u8>)
    requires
        payload.len() <= 0xffff_ffff,
    ensures
        frames(framed(stream, payload) + behind) == seq![(stream, payload)] + frames(behind),
        unframed(framed(stream, payload) + behind) == unframed(behind),
        frame_of(framed(stream, payload)) == (stream, payload),
{
    let n = payload.len();
    let f = framed(stream, payload);
    let b = f + behind;
    assert(announced(b) == n) by {
        assert(n == (n / 0x100_0000) * 0x100_0000 + (n / 0x1_0000 % 0x100) * 0x1_0000 + (n / 0x100
            % 0x100) * 0x100 + n % 0x100);
    }
    assert(announced(f) == announced(b));
    assert(b.subrange(8, 8 + n as int) =~= payload);
    assert(f.subrange(8, 8 + n as int) =~= payload);
    assert(b.skip(8 + n as int) =~= behind);
}

/// How the bytes were cut on their way does not matter: what comes in two parts gives the
/// same frames as what comes at once.
pub proof fn law_frames_in_parts(a: Seq<u8>, b: Seq<u8>)
    ensures
        frames(a + b) == frames(a) + frames(unframed(a) + b),
        unframed(a + b) == unframed(unframed(a) + b),
    decreases a.len(),
{
    if has_frame(a) {
        let n = 8 + announced(a) as int;
        let t = a.skip(n);
        assert(announced(a + b) == announced(a));
        assert((a + b).skip(n) =~= t + b);
        assert((a + b).subrange(8, n) =~= a.subrange(8, n));
        law_frames_in_parts(t, b);
        assert(frames(a) + frames(unframed(a) + b) =~= seq![(a[0], a.subrange(8, n))] + (frames(t)
            + frames(unframed(t) + b)));
    } else {
        assert(frames(a) + frames(unframed(a) + b) =~= frames(a + b));
    }
}

// ---------------------------------------------------------------- lines

/// The place of the first line break at or behind `i`, or the end.
pub open spec fn break_from(b: Seq<u8>, i: int) -> int
    decreases b.len() - i,
{
    if i < 0 || i >= b.len() || b[i] == 10 {
        i
    } else {
        break_from(b, i + 1)
    }
}

proof fn lemma_break_from(b: Seq<u8>, i: int)
    requires
        0 <= i <= b.len(),
    ensures
        i <= break_from(b, i) <= b.len(),
        break_from(b, i) < b.len() ==> b[break_from(b, i)] == 10,
    decreases b.len() - i,
{
    if i < b.len() && b[i] != 10 {
        lemma_break_from(b, i + 1);
    }
}

/// The whole lines at the beginning, each with its line break.
pub open spec fn whole_lines(b: Seq<u8>) -> Seq<Seq<u8>>
    decreases b.len(),
{
    let k = break_from(b, 0);
    if 0 <= k < b.len() {
        seq![b.take(k + 1)] + whole_lines(b.skip(k + 1))
    } else {
        Seq::empty()
    }
}

/// What is left behind the whole lines.
pub open spec fn last_line(b: Seq<u8>) -> Seq<u8>
    decreases b.len(),
{
    let k = break_from(b, 0);
    if 0 <= k < b.len() {
        last_line(b.skip(k + 1))
    } else {
        b
    }
}

pub open spec fn byte_lists(v: Seq<Vec<u8>>) -> Seq<Seq<u8>> {
    Seq::new(v.len(), |i: int| v[i]@)
}

proof fn lemma_break_shift(b: Seq<u8>, at: int, i: int)
    requires
        0 <= at <= i <= b.len(),
    ensures
        break_from(b, i) == at + break_from(b.skip(at), i - at),
    decreases b.len() - i,
{
    if i < b.len() && b[i] != 10 {
        lemma_break_shift(b, at, i + 1);
    }
}

/// Takes the whole lines out of what has come so far; the rest stays.
pub fn take_lines(buffer: &mut Vec<u8>) -> (r: Vec<Vec<u8>>)
    ensures
        byte_lists(r@) == whole_lines(old(buffer)@),
        final(buffer)@ == last_line(old(buffer)@),
{
    let ghost all = buffer@;
    let n: usize = buffer.len();
    let mut out: Vec<Vec<u8>> = Vec::new();
    let mut at: usize = 0;
    let mut i: usize = 0;
    assert(all.skip(0) =~= all);
    assert(byte_lists(out@) + whole_lines(all.skip(0)) =~= whole_lines(all));
    while i < n
        invariant
            buffer@ == all,
            n == all.len(),
            at <= i <= n,
            whole_lines(all) == byte_lists(out@) + whole_lines(all.skip(at as int)),
            last_line(all) == last_line(all.skip(at as int)),
            break_from(all, at as int) == break_from(all, i as int),
        decreases n - i,
    {
        if buffer[i] == 10 {
            let ghost b = all.skip(at as int);
            let ghost before = out@;
            proof {
                lemma_break_shift(all, at as int, at as int);
                assert(break_from(b, 0) == i - at);
            }
            let line: Vec<u8> = bytes_between(buffer.as_slice(), at, i + 1);
            assert(line@ =~= b.take(i - at + 1));
            assert(b.skip(i - at + 1) =~= all.skip(i as int + 1));
            out.push(line);
            assert(byte_lists(out@) =~= byte_lists(before).push(line@));
            assert(byte_lists(before) + (seq![line@] + whole_lines(all.skip(i as int + 1)))
                =~= byte_lists(out@) + whole_lines(all.skip(i as int + 1)));
            at = i + 1;
        }
        i += 1;
    }
    proof {
        let b = all.skip(at as int);
        lemma_break_shift(all, at as int, at as int);
        assert(break_from(b, 0) == b.len());
        assert(byte_lists(out@) + Seq::<Seq<u8>>::empty() =~= byte_lists(out@));
    }
    let rest: Vec<u8> = bytes_between(buffer.as_slice(), at, n);
    assert(rest@ =~= all.skip(at as int));
    *buffer = rest;
    out
}

proof fn lemma_break_prefix(a: Seq<u8>, b: Seq<u8>, i: int)
    requires
        0 <= i <= a.len(),
        break_from(a, i) < a.len(),
    ensures
        break_from(a + b, i) == break_from(a, i),
    decreases a.len() - i,
{
    if i < a.len() && a[i] != 10 {
        assert((a + b)[i] == a[i]);
        lemma_break_prefix(a, b, i + 1);
    } else {
        assert((a + b)[i] == a[i]);
    }
}

/// How the bytes were cut on their way does not matter: what comes in two parts gives the
/// same lines as what comes at once.
pub proof fn law_lines_in_parts(a: Seq<u8>, b: Seq<u8>)
    ensures
        whole_lines(a + b) == whole_lines(a) + whole_lines(last_line(a) + b),
        last_line(a + b) == last_line(last_line(a) + b),
    decreases a.len(),
{
    lemma_break_from(a, 0);
    let k = break_from(a, 0);
    if k < a.len() {
        lemma_break_prefix(a, b, 0);
        let t = a.skip(k + 1);
        assert((a + b).skip(k + 1) =~= t + b);
        assert((a + b).take(k + 1) =~= a.take(k + 1));
        law_lines_in_parts(t, b);
        assert(whole_lines(a) + whole_lines(last_line(a) + b) =~= seq![a.take(k + 1)] + (
        whole_lines(t) + whole_lines(last_line(t) + b)));
    } else {
        assert(whole_lines(a) + whole_lines(last_line(a) + b) =~= whole_lines(a + b));
    }
}

/// The text of a line of JSON: without space around it, and nothing where it is empty or
/// no JSON.
pub open spec fn json_line_of(text_of_line: Seq<char>) -> Option<Seq<char>> {
    let t = text::trim(text_of_line);
    if t.len() > 0 && json::is_json(encode_utf8(t)) {
        Some(t)
    } else {
        None
    }
}

/// The JSON on a line.
pub fn json_line(line: &[u8]) -> (r: Option<String>)
    ensures
        reference::opt_text(r) == json_line_of(dns::lossy(line@)),
{
    let t: String = str_trim(lossy_text(line).as_str());
    if !t.as_str().is_empty() && is_document(t.as_str().as_bytes()) {
        Some(t)
    } else {
        None
    }
}

// ---------------------------------------------------------------- errors

/// What an error of the daemon says.
pub open spec fn daemon_error(status: nat, message: Seq<char>) -> Seq<char> {
    "Error response from daemon ("@ + num::decimal(status) + "): "@ + message
}

/// What a reply with an error says: its message, or all of it.
pub open spec fn refusal(status: nat, bytes: Seq<u8>) -> Seq<char> {
    daemon_error(
        status,
        match json::json_text(bytes, "/message"@) {
            Some(m) => m,
            None => dns::lossy(bytes),
        },
    )
}

/// What a reply with an error says.
pub fn parse_error_body(status: u16, bytes: &[u8]) -> (r: String)
    ensures
        r@ == refusal(status as nat, bytes@),
{
    let m: String = match text_at(bytes, "/message") {
        Some(m) => m,
        None => lossy_text(bytes),
    };
    error_text(status, m.as_str())
}

/// What an error of the daemon says.
pub fn error_text(status: u16, message: &str) -> (r: String)
    ensures
        r@ == daemon_error(status as nat, message@),
{
    let mut e: String = "Error response from daemon (".to_owned();
    e.append(decimal_text(status as u128).as_str());
    e.append("): ");
    e.append(message);
    e
}

// ---------------------------------------------------------------- a stream of JSON lines

/// The JSON on lines, in their order; lines without any are left out.
pub open spec fn json_texts(ls: Seq<Seq<u8>>) -> Seq<Seq<char>>
    decreases ls.len(),
{
    if ls.len() == 0 {
        Seq::empty()
    } else {
        match json_line_of(dns::lossy(ls.last())) {
            Some(t) => json_texts(ls.drop_last()).push(t),
            None => json_texts(ls.drop_last()),
        }
    }
}

/// What a line may hold, as a list.
pub open spec fn json_on(line: Seq<u8>) -> Seq<Seq<char>> {
    json_texts(seq![line])
}

/// A reply that is read line by line: what has come of it and was not handed on yet.
pub struct LineStream {
    pub status: u16,
    pub buffer: Vec<u8>,
}

/// What is handed on as a part arrives: the JSON on the lines that it completes. Nothing
/// of a refusal is handed on.
pub open spec fn handed_on(status: u16, held: Seq<u8>, part: Seq<u8>) -> Seq<Seq<char>> {
    if registry::is_success(status as int) {
        json_texts(whole_lines(held + part))
    } else {
        Seq::empty()
    }
}

/// What is held back as a part arrives.
pub open spec fn held_back(status: u16, held: Seq<u8>, part: Seq<u8>) -> Seq<u8> {
    if registry::is_success(status as int) {
        last_line(held + part)
    } else {
        held + part
    }
}

/// What the end of a reply brings: the JSON on its last line, which has no line break, or
/// the refusal.
pub open spec fn at_end(status: u16, held: Seq<u8>) -> Result<Seq<Seq<char>>, Seq<char>> {
    if registry::is_success(status as int) {
        Ok(json_on(held))
    } else {
        Err(refusal(status as nat, held))
    }
}

fn json_on_lines(ls: &Vec<Vec<u8>>) -> (r: Vec<String>)
    ensures
        text::texts(r@) == json_texts(byte_lists(ls@)),
{
    let ghost lv = byte_lists(ls@);
    let mut out: Vec<String> = Vec::new();
    assert(text::texts(out@) =~= Seq::empty());
    let mut i: usize = 0;
    assert(lv.take(0) =~= Seq::empty());
    while i < ls.len()
        invariant
            i <= ls.len(),
            lv == byte_lists(ls@),
            text::texts(out@) == json_texts(lv.take(i as int)),
        decreases ls.len() - i,
    {
        assert(lv.take(i as int + 1).drop_last() =~= lv.take(i as int));
        assert(lv.take(i as int + 1).last() == ls@[i as int]@);
        if let Some(t) = json_line(ls[i].as_slice()) {
            add_word(&mut out, t.as_str());
        }
        i += 1;
    }
    assert(lv.take(lv.len() as int) =~= lv);
    out
}

impl LineStream {
    /// A reply of which nothing has come but its status.
    pub fn new(status: u16) -> (r: LineStream)
        ensures
            r.status == status,
            r.buffer@.len() == 0,
    {
        LineStream { status, buffer: Vec::new() }
    }

    /// Takes a part in, and gives what is to be handed on.
    pub fn take_in(&mut self, part: &[u8]) -> (r: Vec<String>)
        ensures
            final(self).status == old(self).status,
            final(self).buffer@ == held_back(old(self).status, old(self).buffer@, part@),
            text::texts(r@) == handed_on(old(self).status, old(self).buffer@, part@),
    {
        let ghost held = self.buffer@;
        append_bytes(&mut self.buffer, part);
        if !success(self.status) {
            let none: Vec<String> = Vec::new();
            assert(text::texts(none@) =~= Seq::empty());
            return none;
        }
        let ls: Vec<Vec<u8>> = take_lines(&mut self.buffer);
        json_on_lines(&ls)
    }

    /// Ends the reply: what is still to be handed on, or what was refused.
    pub fn end(self) -> (r: Result<Vec<String>, String>)
        ensures
            match r {
                Ok(v) => at_end(self.status, self.buffer@) == Ok::<Seq<Seq<char>>, Seq<char>>(
                    text::texts(v@),
                ),
                Err(e) => at_end(self.status, self.buffer@) == Err::<Seq<Seq<char>>, Seq<char>>(
                    e@,
                ),
            },
    {
        if !success(self.status) {
            return Err(parse_error_body(self.status, self.buffer.as_slice()));
        }
        let ghost last = self.buffer@;
        let mut ls: Vec<Vec<u8>> = Vec::new();
        ls.push(self.buffer);
        assert(byte_lists(ls@) =~= seq![last]);
        Ok(json_on_lines(&ls))
    }
}

fn append_bytes(to: &mut Vec<u8>, part: &[u8])
    ensures
        final(to)@ == old(to)@ + part@,
{
    let ghost first = to@;
    let mut i: usize = 0;
    assert(first + part@.take(0) =~= first);
    while i < part.len()
        invariant
            i <= part.len(),
            to@ == first + part@.take(i as int),
        decreases part.len() - i,
    {
        to.push(part[i]);
        assert(part@.take(i as int + 1) =~= part@.take(i as int).push(part@[i as int]));
        assert(to@ =~= first + part@.take(i as int + 1));
        i += 1;
    }
    assert(part@.take(part@.len() as int) =~= part@);
}

/// All bytes of a reply that came in parts.
pub open spec fn whole(parts: Seq<Seq<u8>>) -> Seq<u8>
    decreases parts.len(),
{
    if parts.len() == 0 {
        Seq::empty()
    } else {
        whole(parts.drop_last()) + parts.last()
    }
}

/// What is held back once all parts have come.
pub open spec fn held_after(status: u16, parts: Seq<Seq<u8>>) -> Seq<u8>
    decreases parts.len(),
{
    if parts.len() == 0 {
        Seq::empty()
    } else {
        held_back(status, held_after(status, parts.drop_last()), parts.last())
    }
}

/// All that was handed on once all parts have come.
pub open spec fn handed_after(status: u16, parts: Seq<Seq<u8>>) -> Seq<Seq<char>>
    decreases parts.len(),
{
    if parts.len() == 0 {
        Seq::empty()
    } else {
        handed_after(status, parts.drop_last()) + handed_on(
            status,
            held_after(status, parts.drop_last()),
            parts.last(),
        )
    }
}

proof fn lemma_json_texts_sum(a: Seq<Seq<u8>>, b: Seq<Seq<u8>>)
    ensures
        json_texts(a + b) == json_texts(a) + json_texts(b),
    decreases b.len(),
{
    if b.len() == 0 {
        assert(a + b =~= a);
        assert(json_texts(a) + json_texts(b) =~= json_texts(a));
    } else {
        lemma_json_texts_sum(a, b.drop_last());
        assert((a + b).drop_last() =~= a + b.drop_last());
        assert((a + b).last() == b.last());
        if let Some(t) = json_line_of(dns::lossy(b.last())) {
            assert((json_texts(a) + json_texts(b.drop_last())).push(t) =~= json_texts(a)
                + json_texts(b.drop_last()).push(t));
        }
    }
}

/// However a reply is cut into parts, the JSON on each of its lines is handed on once, in
/// the order of the lines; the last line counts without a line break too.
pub proof fn law_each_line_is_handed_on_once(status: u16, parts: Seq<Seq<u8>>)
    requires
        registry::is_success(status as int),
    ensures
        handed_after(status, parts) == json_texts(whole_lines(whole(parts))),
        held_after(status, parts) == last_line(whole(parts)),
        at_end(status, held_after(status, parts)) == Ok::<Seq<Seq<char>>, Seq<char>>(
            json_on(last_line(whole(parts))),
        ),
    decreases parts.len(),
{
    if parts.len() == 0 {
        assert(whole_lines(Seq::<u8>::empty()) =~= Seq::empty());
        assert(last_line(Seq::<u8>::empty()) =~= Seq::empty());
    } else {
        let before = parts.drop_last();
        law_each_line_is_handed_on_once(status, before);
        law_lines_in_parts(whole(before), parts.last());
        lemma_json_texts_sum(
            whole_lines(whole(before)),
            whole_lines(last_line(whole(before)) + parts.last()),
        );
    }
}

/// A refusal hands nothing on, and is reported with all that it says, however it is cut
/// into parts.
pub proof fn law_refusal_hands_nothing_on(status: u16, parts: Seq<Seq<u8>>)
    requires
        !registry::is_success(status as int),
    ensures
        handed_after(status, parts) == Seq::<Seq<char>>::empty(),
        at_end(status, held_after(status, parts)) == Err::<Seq<Seq<char>>, Seq<char>>(
            refusal(status as nat, whole(parts)),
        ),
{
    lemma_refusal_held(status, parts);
}

proof fn lemma_refusal_held(status: u16, parts: Seq<Seq<u8>>)
    requires
        !registry::is_success(status as int),
    ensures
        handed_after(status, parts) == Seq::<Seq<char>>::empty(),
        held_after(status, parts) == whole(parts),
    decreases parts.len(),
{
    if parts.len() > 0 {
        lemma_refusal_held(status, parts.drop_last());
        assert(handed_after(status, parts) =~= Seq::empty());
    }
}

// ---------------------------------------------------------------- taking a connection over

pub open spec fn upgrade_text(path: Seq<char>, body_len: nat) -> Seq<char> {
    "POST "@ + path
        + " HTTP/1.1\r\nHost: ingot\r\nConnection: Upgrade\r\nUpgrade: tcp\r\nContent-Type: application/json\r\nContent-Length: "@
        + num::decimal(body_len) + "\r\n\r\n"@
}

/// The request that takes a connection over.
pub fn upgrade_request(path: &str, body_len: usize) -> (r: String)
    ensures
        r@ == upgrade_text(path@, body_len as nat),
{
    let mut s: String = "POST ".to_owned();
    s.append(path);
    s.append(
        " HTTP/1.1\r\nHost: ingot\r\nConnection: Upgrade\r\nUpgrade: tcp\r\nContent-Type: application/json\r\nContent-Length: ",
    );
    s.append(decimal_text(body_len as u128).as_str());
    s.append("\r\n\r\n");
    s
}

/// The header ends at `i`.
pub open spec fn blank_line_at(b: Seq<u8>, i: int) -> bool {
    0 <= i && i + 4 <= b.len() && b[i] == 13 && b[i + 1] == 10 && b[i + 2] == 13 && b[i + 3] == 10
}

/// The end of the header, behind its blank line.
pub open spec fn header_end_from(b: Seq<u8>, i: int) -> Option<int>
    decreases b.len() - i,
{
    if i < 0 || i + 4 > b.len() {
        None
    } else if blank_line_at(b, i) {
        Some(i + 4)
    } else {
        header_end_from(b, i + 1)
    }
}

/// Where the header ends, once it has come.
pub fn header_end(buf: &[u8]) -> (r: Option<usize>)
    ensures
        match r {
            Some(n) => header_end_from(buf@, 0) == Some(n as int) && n <= buf@.len(),
            None => header_end_from(buf@, 0) is None,
        },
{
    let n: usize = buf.len();
    let mut i: usize = 0;
    while i < n && n - i >= 4
        invariant
            i <= n,
            n == buf@.len(),
            header_end_from(buf@, 0) == header_end_from(buf@, i as int),
        decreases n - i,
    {
        if buf[i] == 13 && buf[i + 1] == 10 && buf[i + 2] == 13 && buf[i + 3] == 10 {
            return Some(i + 4);
        }
        i += 1;
    }
    None
}

/// The first line of a header.
pub open spec fn status_line(header: Seq<char>) -> Seq<char> {
    let ls = dockerfile::lines(header);
    if ls.len() > 0 {
        ls[0]
    } else {
        Seq::empty()
    }
}

/// Whether the connection has been taken over; the error otherwise.
pub open spec fn upgrade_result(header: Seq<char>, rest: Seq<char>) -> Option<Seq<char>> {
    let l = status_line(header);
    if text::contains(l, "101"@) {
        None
    } else {
        Some("upgrade request failed: "@ + l + " - "@ + rest)
    }
}

/// Whether the connection has been taken over, by the texts of the reply's header and of
/// what follows it.
pub fn check_upgrade(header: &str, rest: &str) -> (r: Result<(), String>)
    ensures
        match r {
            Ok(_) => upgrade_result(header@, rest@) is None,
            Err(e) => upgrade_result(header@, rest@) == Some(e@),
        },
{
    let cs: Vec<char> = chars_of(header);
    let ls: Vec<String> = lines_text(cs.as_slice());
    assert(text::texts(ls@).len() == ls@.len());
    let l: String = if ls.len() > 0 {
        assert(text::texts(ls@)[0] == ls@[0]@);
        ls[0].clone()
    } else {
        String::new()
    };
    assert(l@ =~= status_line(header@));
    if str_contains(l.as_str(), "101") {
        return Ok(());
    }
    let mut e: String = "upgrade request failed: ".to_owned();
    e.append(l.as_str());
    e.append(" - ");
    e.append(rest);
    Err(e)
}

/// What follows the header of a reply that takes a connection over.
pub fn upgraded(buf: &[u8], end: usize) -> (r: Result<Vec<u8>, String>)
    requires
        end <= buf@.len(),
    ensures
        ({
            let rest = buf@.skip(end as int);
            let u = upgrade_result(dns::lossy(buf@.take(end as int)), dns::lossy(rest));
            match r {
                Ok(v) => u is None && v@ == rest,
                Err(e) => u == Some(e@),
            }
        }),
{
    let head: &[u8] = slice_subrange(buf, 0, end);
    let tail: &[u8] = slice_subrange(buf, end, buf.len());
    assert(head@ =~= buf@.take(end as int));
    assert(tail@ =~= buf@.skip(end as int));
    match check_upgrade(lossy_text(head).as_str(), lossy_text(tail).as_str()) {
        Ok(_) => {
            let v: Vec<u8> = bytes_between(buf, end, buf.len());
            assert(v@ =~= buf@.skip(end as int));
            Ok(v)
        },
        Err(e) => Err(e),
    }
}

/// The socket that the environment names: the first variable that is a `unix://` address
/// counts.
pub open spec fn socket_named(vars: Seq<Option<Seq<char>>>, i: int) -> Seq<char>
    decreases vars.len() - i,
{
    if i < 0 || i >= vars.len() {
        "/run/ingot/ingot.sock"@
    } else {
        match vars[i] {
            Some(v) => match text::strip_prefix(v, "unix://"@) {
                Some(p) => p,
                None => socket_named(vars, i + 1),
            },
            None => socket_named(vars, i + 1),
        }
    }
}

pub fn default_socket(ingot_host: Option<&str>, docker_host: Option<&str>) -> (r: String)
    ensures
        r@ == socket_named(seq![registry::opt_str(ingot_host), registry::opt_str(docker_host)], 0),
{
    let ghost vars = seq![registry::opt_str(ingot_host), registry::opt_str(docker_host)];
    proof {
        reveal_with_fuel(socket_named, 3);
        assert(vars[0] == registry::opt_str(ingot_host));
        assert(vars[1] == registry::opt_str(docker_host));
    }
    if let Some(v) = ingot_host {
        if let Some(p) = str_strip_prefix(v, "unix://") {
            return p;
        }
    }
    if let Some(v) = docker_host {
        if let Some(p) = str_strip_prefix(v, "unix://") {
            return p;
        }
    }
    "/run/ingot/ingot.sock".to_owned()
}

/// The request for an upgrade asks for the path, gives the length of its body, asks for the
/// connection to be turned into a stream, and ends with a blank line.
#[verifier::rlimit(40)]
pub proof fn law_upgrade_is_asked_for_as_told(path: Seq<char>, body_len: nat)
    ensures
        ({
            let t = upgrade_text(path, body_len);
            &&& text::starts_with(t, "POST "@ + path + " HTTP/1.1\r\n"@)
            &&& text::contains(t, "\r\nConnection: Upgrade\r\n"@)
            &&& text::contains(t, "\r\nUpgrade: tcp\r\n"@)
            &&& text::ends_with(t, "\r\nContent-Length: "@ + num::decimal(body_len) + "\r\n\r\n"@)
        }),
{
    reveal_strlit("POST ");
    reveal_strlit(
        " HTTP/1.1\r\nHost: ingot\r\nConnection: Upgrade\r\nUpgrade: tcp\r\nContent-Type: application/json\r\nContent-Length: ",
    );
    reveal_strlit("\r\n\r\n");
    reveal_strlit(" HTTP/1.1\r\n");
    reveal_strlit("\r\nConnection: Upgrade\r\n");
    reveal_strlit("\r\nUpgrade: tcp\r\n");
    reveal_strlit("\r\nContent-Length: ");
    let t = upgrade_text(path, body_len);
    let head =
        " HTTP/1.1\r\nHost: ingot\r\nConnection: Upgrade\r\nUpgrade: tcp\r\nContent-Type: application/json\r\nContent-Length: "@;
    let n = path.len() + 5int;
    let a = "POST "@ + path + " HTTP/1.1\r\n"@;
    assert(t.subrange(0, a.len() as int) =~= a);
    let c = "\r\nConnection: Upgrade\r\n"@;
    let u = "\r\nUpgrade: tcp\r\n"@;
    assert(c.len() == 23 && u.len() == 16);
    assert(head.subrange(22, 45) =~= c);
    assert(head.subrange(43, 59) =~= u);
    assert(t.subrange(n + 22, n + 45) =~= head.subrange(22, 45));
    assert(t.subrange(n + 43, n + 59) =~= head.subrange(43, 59));
    text::lemma_find_hits(t, c, n + 22);
    text::lemma_find_hits(t, u, n + 43);
    let z = "\r\nContent-Length: "@ + num::decimal(body_len) + "\r\n\r\n"@;
    let k = t.len() - z.len();
    assert(t.subrange(k, t.len() as int) =~= z);
}

} // verus!
