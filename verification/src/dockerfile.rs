//! The Dockerfile grammar: continuations, comments, the JSON exec form, heredocs,
//! flags and variables.

use vstd::prelude::*;
use vstd::slice::*;

use crate::json::{self, strings_from_json};
use crate::reference;
use crate::text::{self, chars_of, cut, cut_char, has_prefix, join_text, occurs, one_char, same, same_chars, string_of, strip_ends_text, strip_starts_text, trim_end_text, trim_start_text, trim_text, white_space};
use crate::unicode::{self, is_alphabetic, is_alphanumeric, to_upper};

verus! {

#[derive(Debug, Clone)]
pub struct Instruction {
    /// The verb in upper case (FROM, RUN, COPY, ...).
    pub verb: String,
    /// The arguments behind the flags, as they stand.
    pub args: String,
    /// The arguments of the JSON exec form, where the instruction has that form.
    pub json_args: Option<Vec<String>>,
    /// Flags such as `--from=stage` at the front of the arguments.
    pub flags: Vec<(String, String)>,
    pub heredocs: Vec<Heredoc>,
    /// The line on which the instruction starts, counted from one.
    pub line: usize,
}

#[derive(Debug, Clone)]
pub struct Heredoc {
    /// Where the document goes; empty for standard input.
    pub target: String,
    pub content: String,
}

#[derive(Debug, Clone)]
pub struct Dockerfile {
    pub instructions: Vec<Instruction>,
}

/// What an [`Instruction`] holds.
#[verifier::ext_equal]
pub struct InstructionView {
    pub verb: Seq<char>,
    pub args: Seq<char>,
    pub json_args: Option<Seq<Seq<char>>>,
    pub flags: Seq<(Seq<char>, Seq<char>)>,
    pub heredocs: Seq<(Seq<char>, Seq<char>)>,
    pub line: int,
}

/// The texts of a list of pairs.
pub open spec fn pair_texts(v: Seq<(String, String)>) -> Seq<(Seq<char>, Seq<char>)> {
    Seq::new(v.len(), |i: int| (v[i].0@, v[i].1@))
}

/// The targets and contents of heredocs.
pub open spec fn heredoc_texts(v: Seq<Heredoc>) -> Seq<(Seq<char>, Seq<char>)> {
    Seq::new(v.len(), |i: int| (v[i].target@, v[i].content@))
}

impl View for Instruction {
    type V = InstructionView;

    open spec fn view(&self) -> InstructionView {
        InstructionView {
            verb: self.verb@,
            args: self.args@,
            json_args: json::opt_texts(self.json_args),
            flags: pair_texts(self.flags@),
            heredocs: heredoc_texts(self.heredocs@),
            line: self.line as int,
        }
    }
}

pub open spec fn instruction_views(v: Seq<Instruction>) -> Seq<InstructionView> {
    Seq::new(v.len(), |i: int| v[i]@)
}

impl View for Dockerfile {
    type V = Seq<InstructionView>;

    open spec fn view(&self) -> Seq<InstructionView> {
        instruction_views(self.instructions@)
    }
}

// ---------------------------------------------------------------- heredoc delimiters

/// The white space that ends an unquoted delimiter.
pub open spec fn is_ascii_space(c: char) -> bool {
    c == ' ' || c == '\t' || c == '\n' || c == '\u{c}' || c == '\r'
}

/// Where a delimiter that starts at `j` ends: at its quote, or at white space.
pub open spec fn delim_end(s: Seq<char>, quote: Option<char>, j: int) -> int
    decreases s.len() - j,
{
    if j < 0 || j >= s.len() {
        j
    } else if match quote {
        Some(q) => s[j] == q,
        None => is_ascii_space(s[j]),
    } {
        j
    } else {
        delim_end(s, quote, j + 1)
    }
}

/// Behind the `<<` at `i`, and behind the dash that may follow.
pub open spec fn after_arrows(s: Seq<char>, i: int) -> int {
    if i + 2 < s.len() && s[i + 2] == '-' {
        i + 3
    } else {
        i + 2
    }
}

/// The quote at `j`.
pub open spec fn quote_at(s: Seq<char>, j: int) -> Option<char> {
    if 0 <= j < s.len() && (s[j] == '"' || s[j] == '\'') {
        Some(s[j])
    } else {
        None
    }
}

/// The delimiters of the heredocs that `s` announces from place `i` on.
pub open spec fn delims_from(s: Seq<char>, i: int) -> Seq<Seq<char>>
    decreases s.len() - i,
{
    if i < 0 || i + 1 >= s.len() {
        Seq::empty()
    } else if s[i] == '<' && s[i + 1] == '<' {
        let j = after_arrows(s, i);
        let quote = quote_at(s, j);
        let start = if quote is Some { j + 1 } else { j };
        let end = delim_end(s, quote, start);
        if end <= i || end > s.len() {
            Seq::empty()
        } else if end > start {
            seq![s.subrange(start, end)] + delims_from(s, end)
        } else {
            delims_from(s, end)
        }
    } else {
        delims_from(s, i + 1)
    }
}

pub open spec fn heredoc_delims(s: Seq<char>) -> Seq<Seq<char>> {
    delims_from(s, 0)
}

fn ascii_space(c: char) -> (r: bool)
    ensures
        r == is_ascii_space(c),
{
    c == ' ' || c == '\t' || c == '\n' || c == '\u{c}' || c == '\r'
}

pub proof fn lemma_delim_end(s: Seq<char>, quote: Option<char>, j: int)
    requires
        0 <= j <= s.len(),
    ensures
        j <= delim_end(s, quote, j) <= s.len(),
    decreases s.len() - j,
{
    if j < s.len() {
        lemma_delim_end(s, quote, j + 1);
    }
}

/// The delimiters of the heredocs that a line announces: `<<EOF`, `<<-EOF`, `<<"EOF"`.
pub fn extract_heredoc_delims(line: &str) -> (r: Vec<String>)
    ensures
        text::texts(r@) == heredoc_delims(line@),
{
    let cs: Vec<char> = chars_of(line);
    let s: &[char] = cs.as_slice();
    let n: usize = s.len();
    let mut out: Vec<String> = Vec::new();
    let mut i: usize = 0;
    assert(text::texts(out@) + heredoc_delims(line@) =~= heredoc_delims(line@));
    while i < n && i + 1 < n
        invariant
            n == s.len(),
            s@ == line@,
            i <= n,
            heredoc_delims(line@) == text::texts(out@) + delims_from(s@, i as int),
        decreases n - i,
    {
        if s[i] == '<' && s[i + 1] == '<' {
            let mut j: usize = i + 2;
            if j < n && s[j] == '-' {
                j += 1;
            }
            assert(j == after_arrows(s@, i as int));
            let quote: Option<char> = if j < n && (s[j] == '"' || s[j] == '\'') {
                Some(s[j])
            } else {
                None
            };
            assert(quote == quote_at(s@, j as int));
            if quote.is_some() {
                j += 1;
            }
            let start: usize = j;
            proof {
                lemma_delim_end(s@, quote, start as int);
            }
            loop
                invariant
                    n == s.len(),
                    start <= j <= n,
                    delim_end(s@, quote, start as int) == delim_end(s@, quote, j as int),
                ensures
                    j == delim_end(s@, quote, start as int),
                decreases n - j,
            {
                if j == n {
                    break;
                }
                let stop: bool = match quote {
                    Some(q) => s[j] == q,
                    None => ascii_space(s[j]),
                };
                if stop {
                    break;
                }
                j += 1;
            }
            if j > start {
                let ghost before = out@;
                let piece = slice_subrange(s, start, j);
                out.push(string_of(piece));
                assert(text::texts(out@) =~= text::texts(before).push(piece@));
                assert(text::texts(before) + (seq![piece@] + delims_from(s@, j as int))
                    =~= text::texts(out@) + delims_from(s@, j as int));
            }
            i = j;
        } else {
            i += 1;
        }
    }
    assert(text::texts(out@) + Seq::<Seq<char>>::empty() =~= text::texts(out@));
    out
}

// ---------------------------------------------------------------- lines

/// The line without the carriage return at its end.
pub open spec fn without_cr(s: Seq<char>) -> Seq<char> {
    if s.len() > 0 && s.last() == '\r' {
        s.drop_last()
    } else {
        s
    }
}

/// The lines of a text, each without its line end; a line end at the very end starts
/// no further line.
pub open spec fn lines(s: Seq<char>) -> Seq<Seq<char>>
    decreases s.len(),
{
    if s.len() == 0 {
        Seq::empty()
    } else {
        match text::find(s, seq!['\n']) {
            Some(i) => if 0 <= i < s.len() {
                seq![without_cr(s.take(i))] + lines(s.skip(i + 1))
            } else {
                Seq::empty()
            },
            None => seq![s],
        }
    }
}

pub fn lines_text(s: &[char]) -> (r: Vec<String>)
    ensures
        text::texts(r@) == lines(s@),
{
    let mut out: Vec<String> = Vec::new();
    let mut rest: &[char] = s;
    assert(text::texts(out@) + lines(s@) =~= lines(s@));
    while rest.len() > 0
        invariant
            lines(s@) == text::texts(out@) + lines(rest@),
        decreases rest@.len(),
    {
        let ghost before = out@;
        proof {
            text::lemma_find_char(rest@, '\n');
        }
        match cut_char(rest, '\n') {
            Some((a, b)) => {
                let m: usize = a.len();
                let line: &[char] = if m > 0 && a[m - 1] == '\r' {
                    slice_subrange(a, 0, m - 1)
                } else {
                    a
                };
                assert(line@ =~= without_cr(a@));
                out.push(string_of(line));
                assert(text::texts(out@) =~= text::texts(before).push(line@));
                assert(text::texts(before) + (seq![line@] + lines(b@)) =~= text::texts(out@)
                    + lines(b@));
                rest = b;
            },
            None => {
                out.push(string_of(rest));
                assert(text::texts(out@) =~= text::texts(before) + seq![rest@]);
                return out;
            },
        }
    }
    assert(text::texts(out@) + Seq::<Seq<char>>::empty() =~= text::texts(out@));
    out
}

// ---------------------------------------------------------------- statements

/// One instruction as it stands in the file: its text without surrounding white space,
/// continued lines put together, and the documents behind it where it announces any.
pub struct Statement {
    pub text: String,
    /// The line on which it starts, counted from one.
    pub line: usize,
    /// Its heredocs stand behind its first line.
    pub heredoc: bool,
}

#[verifier::ext_equal]
pub struct StatementView {
    pub text: Seq<char>,
    pub line: int,
    pub heredoc: bool,
}

impl View for Statement {
    type V = StatementView;

    open spec fn view(&self) -> StatementView {
        StatementView { text: self.text@, line: self.line as int, heredoc: self.heredoc }
    }
}

pub open spec fn statement_views(v: Seq<Statement>) -> Seq<StatementView> {
    Seq::new(v.len(), |i: int| v[i]@)
}

/// What has been read of a file so far.
#[verifier::ext_equal]
pub struct Scan {
    pub done: Seq<StatementView>,
    /// The text of the statement that is being read.
    pub logical: Seq<char>,
    /// Where that statement started; zero between statements.
    pub start: int,
    /// The delimiters of the heredocs that are still open; the first one comes next.
    pub open: Seq<Seq<char>>,
}

/// The statement that has been read, if it is not blank.
pub open spec fn finished(st: Scan, heredoc: bool) -> Seq<StatementView> {
    let t = text::trim(st.logical);
    if t.len() == 0 {
        st.done
    } else {
        st.done.push(StatementView { text: t, line: st.start, heredoc })
    }
}

/// What is still open once a line has been read.
pub open spec fn open_after(open: Seq<Seq<char>>, raw: Seq<char>) -> Seq<Seq<char>> {
    if text::trim_end(raw) == open[0] {
        open.skip(1)
    } else {
        open
    }
}

/// Reads the line `raw`, which has the number `no`.
pub open spec fn scan_line(st: Scan, raw: Seq<char>, no: int) -> Scan {
    let line = text::trim_end(raw);
    if st.open.len() > 0 {
        let inside = Scan {
            done: st.done,
            logical: st.logical.push('\n') + raw,
            start: st.start,
            open: open_after(st.open, raw),
        };
        if inside.open.len() == 0 {
            Scan {
                done: finished(inside, true),
                logical: Seq::empty(),
                start: 0,
                open: Seq::empty(),
            }
        } else {
            inside
        }
    } else if text::trim(line).len() == 0 || text::trim(line)[0] == '#' {
        st
    } else {
        let logical = if st.start == 0 {
            line
        } else {
            st.logical + line
        };
        let start = if st.start == 0 {
            no
        } else {
            st.start
        };
        if text::trim_end(logical).len() > 0 && text::trim_end(logical).last() == '\\' {
            Scan {
                done: st.done,
                logical: logical.drop_last().push(' '),
                start,
                open: Seq::empty(),
            }
        } else {
            let open = heredoc_delims(logical);
            let read = Scan { done: st.done, logical, start, open };
            if open.len() > 0 {
                read
            } else {
                Scan {
                    done: finished(read, false),
                    logical: Seq::empty(),
                    start: 0,
                    open: Seq::empty(),
                }
            }
        }
    }
}

/// What the first `n` lines give.
pub open spec fn scan(ls: Seq<Seq<char>>, n: int) -> Scan
    decreases n,
{
    if n <= 0 {
        Scan { done: Seq::empty(), logical: Seq::empty(), start: 0, open: Seq::empty() }
    } else {
        scan_line(scan(ls, n - 1), ls[n - 1], n)
    }
}

/// The statements of a file; one that the file's end cuts off counts too.
pub open spec fn statements(content: Seq<char>) -> Seq<StatementView> {
    let ls = lines(content);
    let st = scan(ls, ls.len() as int);
    if st.start != 0 {
        finished(st, false)
    } else {
        st.done
    }
}

fn finish(done: &mut Vec<Statement>, logical: &str, start: usize, heredoc: bool)
    ensures
        statement_views(final(done)@) == finished(
            Scan {
                done: statement_views(old(done)@),
                logical: logical@,
                start: start as int,
                open: Seq::empty(),
            },
            heredoc,
        ),
{
    let cs: Vec<char> = chars_of(logical);
    let t: &[char] = trim_text(cs.as_slice());
    if t.len() > 0 {
        let ghost before = done@;
        done.push(Statement { text: string_of(t), line: start, heredoc });
        assert(statement_views(done@) =~= statement_views(before).push(
            StatementView { text: t@, line: start as int, heredoc },
        ));
    }
}

/// Puts the lines of a file together to statements.
pub fn read_statements(content: &str) -> (r: Vec<Statement>)
    ensures
        statement_views(r@) == statements(content@),
{
    let cs: Vec<char> = chars_of(content);
    let ls: Vec<String> = lines_text(cs.as_slice());
    let ghost lv = lines(content@);
    let mut done: Vec<Statement> = Vec::new();
    let mut logical: String = String::new();
    let mut start: usize = 0;
    let mut open: Vec<String> = Vec::new();
    let mut i: usize = 0;
    assert(statement_views(done@) =~= Seq::empty());
    assert(text::texts(open@) =~= Seq::empty());
    while i < ls.len()
        invariant
            i <= ls.len(),
            text::texts(ls@) == lv,
            scan(lv, i as int).done == statement_views(done@),
            scan(lv, i as int).start == start,
            scan(lv, i as int).open == text::texts(open@),
            scan(lv, i as int).logical == logical@,
            open@.len() > 0 ==> start > 0,
        decreases ls.len() - i,
    {
        let ghost st = scan(lv, i as int);
        let ghost next = scan(lv, i as int + 1);
        let raw: &String = &ls[i];
        let rc: Vec<char> = chars_of(raw.as_str());
        let line: &[char] = trim_end_text(rc.as_slice());
        assert(lv[i as int] == raw@);
        assert(next == scan_line(st, raw@, i as int + 1));
        i += 1;
        if open.len() > 0 {
            logical.push('\n');
            logical.append(raw.as_str());
            let first: Vec<char> = chars_of(open[0].as_str());
            assert(text::texts(open@)[0] == first@);
            if same_chars(line, first.as_slice()) {
                let ghost before = open@;
                open.remove(0);
                assert(text::texts(open@) =~= text::texts(before).skip(1));
                if open.len() == 0 {
                    finish(&mut done, logical.as_str(), start, true);
                    logical = String::new();
                    start = 0;
                    assert(text::texts(open@) =~= Seq::empty());
                }
            }
            continue;
        }
        assert(text::texts(open@) =~= Seq::empty());
        let trimmed: &[char] = trim_text(line);
        if trimmed.len() == 0 || trimmed[0] == '#' {
            continue;
        }
        let part: String = string_of(line);
        if start == 0 {
            start = i;
            logical = part;
        } else {
            logical.append(part.as_str());
        }
        let lc: Vec<char> = chars_of(logical.as_str());
        let lt: &[char] = trim_end_text(lc.as_slice());
        let m: usize = lt.len();
        if m > 0 && lt[m - 1] == '\\' {
            let n: usize = lc.len();
            proof {
                text::lemma_trim_end_keeps(lc@);
            }
            let kept = slice_subrange(lc.as_slice(), 0, n - 1);
            assert(kept@ =~= logical@.drop_last());
            logical = string_of(kept);
            logical.push(' ');
            continue;
        }
        let delims: Vec<String> = extract_heredoc_delims(logical.as_str());
        if delims.len() > 0 {
            open = delims;
            continue;
        }
        assert(text::texts(delims@) =~= Seq::empty());
        finish(&mut done, logical.as_str(), start, false);
        logical = String::new();
        start = 0;
    }
    if start != 0 {
        finish(&mut done, logical.as_str(), start, false);
    }
    done
}

// ---------------------------------------------------------------- heredocs

/// The first line at or behind `i` that closes the document of `delim`, or the end.
pub open spec fn block_end(body: Seq<Seq<char>>, delim: Seq<char>, i: int) -> int
    decreases body.len() - i,
{
    if i < 0 || i >= body.len() || text::trim_end(body[i]) == delim {
        i
    } else {
        block_end(body, delim, i + 1)
    }
}

/// The documents that stand in `body`, one for each delimiter, in that order.
pub open spec fn documents(body: Seq<Seq<char>>, delims: Seq<Seq<char>>) -> Seq<
    (Seq<char>, Seq<char>),
>
    decreases delims.len(),
{
    if delims.len() == 0 {
        Seq::empty()
    } else {
        let k = block_end(body, delims[0], 0);
        let rest = if k + 1 <= body.len() {
            body.skip(k + 1)
        } else {
            Seq::empty()
        };
        seq![(Seq::empty(), text::join(body.take(k), seq!['\n']))] + documents(
            rest,
            delims.skip(1),
        )
    }
}

/// The first line of a statement, and the documents behind it.
pub open spec fn head_and_documents(t: Seq<char>) -> (Seq<char>, Seq<(Seq<char>, Seq<char>)>) {
    let ls = lines(t);
    if ls.len() == 0 {
        (Seq::empty(), Seq::empty())
    } else {
        (ls[0], documents(ls.skip(1), heredoc_delims(ls[0])))
    }
}

pub proof fn lemma_block_end(body: Seq<Seq<char>>, delim: Seq<char>, i: int)
    requires
        0 <= i <= body.len(),
    ensures
        i <= block_end(body, delim, i) <= body.len(),
    decreases body.len() - i,
{
    if i < body.len() && text::trim_end(body[i]) != delim {
        lemma_block_end(body, delim, i + 1);
    }
}

/// Takes the documents off a statement.
pub fn split_heredocs(t: &str) -> (r: (String, Vec<Heredoc>))
    ensures
        (r.0@, heredoc_texts(r.1@)) == head_and_documents(t@),
{
    let cs: Vec<char> = chars_of(t);
    let ls: Vec<String> = lines_text(cs.as_slice());
    let ghost lv = lines(t@);
    let mut docs: Vec<Heredoc> = Vec::new();
    assert(heredoc_texts(docs@) =~= Seq::empty());
    if ls.len() == 0 {
        return (String::new(), docs);
    }
    let head: String = ls[0].clone();
    assert(head@ == lv[0]);
    let delims: Vec<String> = extract_heredoc_delims(head.as_str());
    let ghost dv = text::texts(delims@);
    let ghost body = lv.skip(1);
    let ghost all = documents(body, dv);
    let mut pos: usize = 1;
    let mut d: usize = 0;
    assert(body.skip(0) =~= body);
    assert(dv.skip(0) =~= dv);
    assert(heredoc_texts(docs@) + all =~= all);
    while d < delims.len()
        invariant
            d <= delims.len(),
            1 <= pos <= ls.len(),
            text::texts(ls@) == lv,
            dv == text::texts(delims@),
            body == lv.skip(1),
            all == heredoc_texts(docs@) + documents(body.skip(pos - 1), dv.skip(d as int)),
        decreases delims.len() - d,
    {
        let ghost b = body.skip(pos - 1);
        let ghost ds = dv.skip(d as int);
        let dc: Vec<char> = chars_of(delims[d].as_str());
        assert(ds[0] == dc@);
        let mut content: Vec<String> = Vec::new();
        let mut k: usize = pos;
        let mut closed: bool = false;
        assert(text::texts(content@) =~= b.take(0));
        while k < ls.len() && !closed
            invariant
                1 <= pos <= k <= ls.len(),
                text::texts(ls@) == lv,
                b == lv.skip(1).skip(pos - 1),
                text::texts(content@) == b.take(k - pos),
                block_end(b, dc@, 0) == block_end(b, dc@, k - pos),
                closed ==> k < ls.len() && text::trim_end(b[k - pos]) == dc@,
            decreases ls.len() - k, (if closed { 0int } else { 1int }),
        {
            let lc: Vec<char> = chars_of(ls[k].as_str());
            assert(b[k - pos] == lv[k as int]);
            assert(lv[k as int] == lc@);
            if same_chars(trim_end_text(lc.as_slice()), dc.as_slice()) {
                closed = true;
            } else {
                let ghost before = content@;
                content.push(ls[k].clone());
                assert(text::texts(content@) =~= text::texts(before).push(lc@));
                assert(b.take(k - pos + 1) =~= b.take(k - pos).push(b[k - pos]));
                k += 1;
            }
        }
        proof {
            lemma_block_end(b, dc@, 0);
            assert(block_end(b, dc@, 0) == k - pos);
        }
        let joined: String = join_text(&content, "\n");
        proof {
            reveal_strlit("\n");
            assert("\n"@ =~= seq!['\n']);
        }
        let ghost before = docs@;
        docs.push(Heredoc { target: String::new(), content: joined });
        assert(heredoc_texts(docs@) =~= heredoc_texts(before).push((Seq::empty(), joined@)));
        let ghost rest = if k - pos + 1 <= b.len() {
            b.skip(k - pos + 1)
        } else {
            Seq::empty()
        };
        if closed {
            assert(rest =~= body.skip(k as int));
            pos = k + 1;
        } else {
            assert(rest =~= body.skip(k - 1));
            pos = k;
        }
        assert(ds.skip(1) =~= dv.skip(d + 1));
        assert(heredoc_texts(before) + (seq![(Seq::<char>::empty(), joined@)] + documents(
            rest,
            ds.skip(1),
        )) =~= heredoc_texts(docs@) + documents(rest, ds.skip(1)));
        d += 1;
    }
    assert(dv.skip(d as int).len() == 0);
    assert(heredoc_texts(docs@) + Seq::<(Seq<char>, Seq<char>)>::empty() =~= heredoc_texts(docs@));
    (head, docs)
}

// ---------------------------------------------------------------- flags

/// A flag without its dashes: its name, and its value behind the equals sign.
pub open spec fn flag_of(t: Seq<char>) -> (Seq<char>, Seq<char>) {
    match text::split_once(t, seq!['=']) {
        Some((k, v)) => (k, v),
        None => (t, Seq::empty()),
    }
}

/// The flags at the front of `rest`, each ended by white space, and what follows them.
pub open spec fn flags_and_rest(rest: Seq<char>) -> (Seq<(Seq<char>, Seq<char>)>, Seq<char>)
    decreases rest.len(),
{
    let k = text::word_end(rest, 0);
    let next = text::trim(rest.skip(k));
    if text::starts_with(rest, seq!['-', '-']) && 2 <= k < rest.len() && next.len() < rest.len() {
        let (flags, last) = flags_and_rest(next);
        (seq![flag_of(rest.subrange(2, k))] + flags, last)
    } else {
        (Seq::empty(), rest)
    }
}

proof fn lemma_trim_shrinks(s: Seq<char>)
    ensures
        text::trim(s).len() <= s.len(),
{
    text::lemma_trim_start_keeps(s);
    text::lemma_trim_end_keeps(text::trim_start(s));
}

/// Takes the flags off the front of an instruction's arguments.
pub fn split_flags(args: &str) -> (r: (Vec<(String, String)>, String))
    ensures
        (pair_texts(r.0@), r.1@) == flags_and_rest(text::trim(args@)),
{
    let cs: Vec<char> = chars_of(args);
    let mut rest: &[char] = trim_text(cs.as_slice());
    let mut flags: Vec<(String, String)> = Vec::new();
    let mut dashes: Vec<char> = Vec::new();
    dashes.push('-');
    dashes.push('-');
    assert(dashes@ =~= seq!['-', '-']);
    let ghost whole = flags_and_rest(text::trim(args@));
    assert(pair_texts(flags@) + whole.0 =~= whole.0);
    while has_prefix(rest, dashes.as_slice())
        invariant
            dashes@ == seq!['-', '-'],
            whole.0 == pair_texts(flags@) + flags_and_rest(rest@).0,
            whole.1 == flags_and_rest(rest@).1,
        ensures
            whole.0 == pair_texts(flags@),
            whole.1 == rest@,
        decreases rest@.len(),
    {
        let n: usize = rest.len();
        let mut k: usize = 0;
        while k < n && !white_space(rest[k])
            invariant
                k <= n,
                n == rest.len(),
                text::word_end(rest@, 0) == text::word_end(rest@, k as int),
            decreases n - k,
        {
            k += 1;
        }
        proof {
            text::lemma_word_end(rest@, 0);
            let pre = rest@.subrange(0, 2);
            assert(pre == seq!['-', '-']);
            assert(pre[0] == '-' && pre[1] == '-');
            assert(rest@[0] == '-' && rest@[1] == '-');
            lemma_trim_shrinks(rest@.skip(k as int));
        }
        if k == n {
            assert(pair_texts(flags@) + Seq::<(Seq<char>, Seq<char>)>::empty() =~= pair_texts(
                flags@,
            ));
            break;
        }
        assert(k >= 2) by {
            if k == 0 {
                assert(text::is_white_space(rest@[0]));
            } else if k == 1 {
                assert(text::is_white_space(rest@[1]));
            }
        }
        let tok = slice_subrange(rest, 2, k);
        let tail = slice_subrange(rest, k, n);
        assert(tail@ =~= rest@.skip(k as int));
        let ghost before = flags@;
        let flag: (String, String) = match cut_char(tok, '=') {
            Some((a, b)) => (string_of(a), string_of(b)),
            None => (string_of(tok), String::new()),
        };
        assert((flag.0@, flag.1@) == flag_of(tok@));
        flags.push(flag);
        let next: &[char] = trim_text(tail);
        assert(pair_texts(flags@) =~= pair_texts(before).push(flag_of(tok@)));
        assert(pair_texts(before) + (seq![flag_of(tok@)] + flags_and_rest(next@).0) =~= pair_texts(
            flags@,
        ) + flags_and_rest(next@).0);
        rest = next;
    }
    (flags, string_of(rest))
}

// ---------------------------------------------------------------- instructions

/// The JSON exec form: a text that starts with a bracket and is an array of strings.
pub open spec fn json_form(args: Seq<char>) -> Option<Seq<Seq<char>>> {
    let t = text::trim(args);
    if t.len() > 0 && t[0] == '[' {
        json::json_strings(t)
    } else {
        None
    }
}

/// Reads the JSON exec form: `["cmd","arg",...]`.
pub fn parse_json_form(args: &str) -> (r: Option<Vec<String>>)
    ensures
        json::opt_texts(r) == json_form(args@),
{
    let cs: Vec<char> = chars_of(args);
    let t: &[char] = trim_text(cs.as_slice());
    if t.len() == 0 || t[0] != '[' {
        return None;
    }
    strings_from_json(string_of(t).as_str())
}

/// A statement taken apart.
pub struct Parts {
    /// The verb as it stands.
    pub verb: String,
    pub args: String,
    pub flags: Vec<(String, String)>,
    pub heredocs: Vec<Heredoc>,
}

#[verifier::ext_equal]
pub struct PartsView {
    pub verb: Seq<char>,
    pub args: Seq<char>,
    pub flags: Seq<(Seq<char>, Seq<char>)>,
    pub heredocs: Seq<(Seq<char>, Seq<char>)>,
}

impl View for Parts {
    type V = PartsView;

    open spec fn view(&self) -> PartsView {
        PartsView {
            verb: self.verb@,
            args: self.args@,
            flags: pair_texts(self.flags@),
            heredocs: heredoc_texts(self.heredocs@),
        }
    }
}

/// The parts of a statement; one without white space has no arguments and is malformed.
pub open spec fn parts_of(st: StatementView) -> Result<PartsView, Seq<char>> {
    let (head, heredocs) = if st.heredoc {
        head_and_documents(st.text)
    } else {
        (st.text, Seq::empty())
    };
    let k = text::word_end(head, 0);
    if k < head.len() {
        let (flags, args) = flags_and_rest(text::trim(text::trim(head.skip(k + 1))));
        Ok(PartsView { verb: head.take(k), args, flags, heredocs })
    } else {
        Err("malformed instruction: "@ + head)
    }
}

/// The instruction that parts make, given their verb in upper case and their JSON form.
pub open spec fn assembled(
    p: PartsView,
    verb: Seq<char>,
    json_args: Option<Seq<Seq<char>>>,
    line: int,
) -> InstructionView {
    InstructionView {
        verb,
        args: p.args,
        json_args,
        flags: p.flags,
        heredocs: p.heredocs,
        line,
    }
}

/// The instruction that a statement makes.
pub open spec fn instruction(st: StatementView) -> Result<InstructionView, Seq<char>> {
    match parts_of(st) {
        Ok(p) => Ok(assembled(p, unicode::uppered(p.verb), json_form(p.args), st.line)),
        Err(e) => Err(e),
    }
}

/// The instructions that statements make, up to the first that makes none.
pub open spec fn instructions(sts: Seq<StatementView>) -> Result<Seq<InstructionView>, Seq<char>>
    decreases sts.len(),
{
    if sts.len() == 0 {
        Ok(Seq::empty())
    } else {
        match instructions(sts.drop_last()) {
            Ok(v) => match instruction(sts.last()) {
                Ok(i) => Ok(v.push(i)),
                Err(e) => Err(e),
            },
            Err(e) => Err(e),
        }
    }
}

/// A file has at least one instruction, and the first is FROM.
pub open spec fn checked(
    v: Result<Seq<InstructionView>, Seq<char>>,
) -> Result<Seq<InstructionView>, Seq<char>> {
    match v {
        Ok(v) => if v.len() == 0 {
            Err("the Dockerfile contains no instructions"@)
        } else if v[0].verb != "FROM"@ {
            Err("Dockerfile must begin with FROM"@)
        } else {
            Ok(v)
        },
        Err(e) => Err(e),
    }
}

/// Takes a statement apart.
pub fn take_apart(st: &Statement) -> (r: Result<Parts, String>)
    ensures
        match r {
            Ok(p) => parts_of(st@) == Ok::<PartsView, Seq<char>>(p@),
            Err(e) => parts_of(st@) == Err::<PartsView, Seq<char>>(e@),
        },
{
    let none: Vec<Heredoc> = Vec::new();
    assert(heredoc_texts(none@) =~= Seq::empty());
    let (head, heredocs): (String, Vec<Heredoc>) = if st.heredoc {
        split_heredocs(st.text.as_str())
    } else {
        (st.text.clone(), none)
    };
    let hc: Vec<char> = chars_of(head.as_str());
    let n: usize = hc.len();
    let mut k: usize = 0;
    while k < n && !white_space(hc[k])
        invariant
            k <= n,
            n == hc.len(),
            text::word_end(hc@, 0) == text::word_end(hc@, k as int),
        decreases n - k,
    {
        k += 1;
    }
    if k == n {
        let mut e: String = "malformed instruction: ".to_owned();
        e.append(head.as_str());
        return Err(e);
    }
    let verb = slice_subrange(hc.as_slice(), 0, k);
    let tail = slice_subrange(hc.as_slice(), k + 1, n);
    assert(verb@ =~= head@.take(k as int));
    assert(tail@ =~= head@.skip(k as int + 1));
    let (flags, args) = split_flags(string_of(trim_text(tail)).as_str());
    Ok(Parts { verb: string_of(verb), args, flags, heredocs })
}

/// Puts the parts of a statement together again, with the verb in upper case and what
/// the arguments are as JSON.
pub fn assemble(p: Parts, verb: String, json_args: Option<Vec<String>>, line: usize) -> (r:
    Instruction)
    ensures
        r@ == assembled(p@, verb@, json::opt_texts(json_args), line as int),
{
    Instruction {
        verb,
        args: p.args,
        json_args,
        flags: p.flags,
        heredocs: p.heredocs,
        line,
    }
}

/// Reads one statement and puts its instruction behind the others.
pub fn flush(st: &Statement, out: &mut Vec<Instruction>) -> (r: Result<(), String>)
    ensures
        match r {
            Ok(_) => instruction(st@) is Ok && instruction_views(final(out)@)
                == instruction_views(old(out)@).push(instruction(st@)->Ok_0),
            Err(e) => instruction(st@) == Err::<InstructionView, Seq<char>>(e@) && final(out)@
                == old(out)@,
        },
{
    match take_apart(st) {
        Ok(p) => {
            let verb: String = to_upper(p.verb.as_str());
            let json_args: Option<Vec<String>> = parse_json_form(p.args.as_str());
            let i: Instruction = assemble(p, verb, json_args, st.line);
            let ghost before = out@;
            out.push(i);
            assert(instruction_views(out@) =~= instruction_views(before).push(i@));
            Ok(())
        },
        Err(e) => Err(e),
    }
}

/// Whether the instructions make a file: there is one, and the first is FROM.
pub fn check_instructions(v: Vec<Instruction>) -> (r: Result<Dockerfile, String>)
    ensures
        match r {
            Ok(d) => checked(Ok(instruction_views(v@))) == Ok::<Seq<InstructionView>, Seq<char>>(
                d@,
            ),
            Err(e) => checked(Ok(instruction_views(v@))) == Err::<Seq<InstructionView>, Seq<char>>(
                e@,
            ),
        },
{
    if v.len() == 0 {
        return Err("the Dockerfile contains no instructions".to_owned());
    }
    assert(instruction_views(v@)[0].verb == v@[0].verb@);
    if !same(v[0].verb.as_str(), "FROM") {
        return Err("Dockerfile must begin with FROM".to_owned());
    }
    Ok(Dockerfile { instructions: v })
}

/// Reads a Dockerfile.
pub fn parse(content: &str) -> (r: Result<Dockerfile, String>)
    ensures
        match r {
            Ok(d) => checked(instructions(statements(content@))) == Ok::<
                Seq<InstructionView>,
                Seq<char>,
            >(d@),
            Err(e) => checked(instructions(statements(content@))) == Err::<
                Seq<InstructionView>,
                Seq<char>,
            >(e@),
        },
{
    let sts: Vec<Statement> = read_statements(content);
    let ghost sv = statement_views(sts@);
    let mut out: Vec<Instruction> = Vec::new();
    let mut i: usize = 0;
    assert(instruction_views(out@) =~= Seq::empty());
    assert(sv.take(0).len() == 0);
    while i < sts.len()
        invariant
            i <= sts.len(),
            sv == statement_views(sts@),
            sv == statements(content@),
            instructions(sv.take(i as int)) == Ok::<Seq<InstructionView>, Seq<char>>(
                instruction_views(out@),
            ),
        decreases sts.len() - i,
    {
        proof {
            let t = sv.take(i as int + 1);
            assert(t.drop_last() =~= sv.take(i as int));
            assert(t.last() == sts@[i as int]@);
        }
        match flush(&sts[i], &mut out) {
            Ok(_) => {},
            Err(e) => {
                proof {
                    lemma_first_error(sv, i as int + 1);
                }
                return Err(e);
            },
        }
        i += 1;
    }
    assert(sv.take(sv.len() as int) =~= sv);
    check_instructions(out)
}

/// What fails for the first statements fails for all of them.
proof fn lemma_first_error(sts: Seq<StatementView>, n: int)
    requires
        0 <= n <= sts.len(),
        instructions(sts.take(n)) is Err,
    ensures
        instructions(sts) == instructions(sts.take(n)),
    decreases sts.len() - n,
{
    if n == sts.len() {
        assert(sts.take(n) =~= sts);
    } else {
        assert(sts.take(n + 1).drop_last() =~= sts.take(n));
        lemma_first_error(sts, n + 1);
    }
}

/// The place of the first FROM at or behind `i`, or the end.
pub open spec fn first_from(v: Seq<InstructionView>, i: int) -> int
    decreases v.len() - i,
{
    if i < 0 || i >= v.len() || v[i].verb == "FROM"@ {
        i
    } else {
        first_from(v, i + 1)
    }
}

/// The first word of a text, or nothing.
pub open spec fn first_word(s: Seq<char>) -> Seq<char> {
    let w = text::words(s);
    if w.len() > 0 {
        w[0]
    } else {
        Seq::empty()
    }
}

proof fn lemma_first_word(s: Seq<char>)
    ensures
        first_word(s) == text::trim_start(s).take(text::word_end(text::trim_start(s), 0)),
    decreases s.len(),
{
    if s.len() == 0 {
        assert(text::trim_start(s).take(0) =~= Seq::empty());
    } else if text::is_white_space(s[0]) {
        lemma_first_word(s.skip(1));
    } else {
        text::lemma_word_end(s, 1);
        assert(text::word_end(s, 0) == text::word_end(s, 1));
    }
}

/// An ARG that stands before every FROM and gives its default: name and value.
pub open spec fn arg_default(v: Seq<InstructionView>, i: int) -> Option<(Seq<char>, Seq<char>)> {
    if v[i].verb == "ARG"@ && v[i].line != 0 && first_from(v, 0) > i {
        match text::split_once(v[i].args, seq!['=']) {
            Some((k, x)) => Some((text::trim(k), unquoted(text::trim(x)))),
            None => None,
        }
    } else {
        None
    }
}

/// `s` without the double quotes at both ends.
pub open spec fn unquoted(s: Seq<char>) -> Seq<char> {
    text::strip_ends(text::strip_starts(s, seq!['"']), seq!['"'])
}

/// The defaults of the first `n` instructions.
pub open spec fn arg_defaults_to(v: Seq<InstructionView>, n: int) -> Seq<(Seq<char>, Seq<char>)>
    decreases n,
{
    if n <= 0 {
        Seq::empty()
    } else {
        match arg_default(v, n - 1) {
            Some(d) => arg_defaults_to(v, n - 1).push(d),
            None => arg_defaults_to(v, n - 1),
        }
    }
}

proof fn lemma_first_from(v: Seq<InstructionView>, i: int)
    requires
        0 <= i <= v.len(),
    ensures
        i <= first_from(v, i) <= v.len(),
        forall|j: int| i <= j < first_from(v, i) ==> (#[trigger] v[j]).verb != "FROM"@,
        first_from(v, i) < v.len() ==> v[first_from(v, i)].verb == "FROM"@,
    decreases v.len() - i,
{
    if i < v.len() && v[i].verb != "FROM"@ {
        lemma_first_from(v, i + 1);
    }
}

pub fn trim_quotes(s: &[char]) -> (r: String)
    ensures
        r@ == unquoted(s@),
{
    let q: Vec<char> = one_char('"');
    let a: &[char] = strip_starts_text(s, q.as_slice());
    string_of(strip_ends_text(a, q.as_slice()))
}

impl Dockerfile {
    /// The base image of the first FROM: the first word behind it.
    pub fn base_image(&self) -> (r: Option<&str>)
        ensures
            ({
                let k = first_from(self@, 0);
                match r {
                    Some(w) => k < self@.len() && w@ == first_word(self@[k].args),
                    None => k == self@.len(),
                }
            }),
    {
        let mut i: usize = 0;
        while i < self.instructions.len()
            invariant
                i <= self.instructions.len(),
                first_from(self@, 0) == first_from(self@, i as int),
            decreases self.instructions.len() - i,
        {
            assert(self@[i as int] == self.instructions@[i as int]@);
            if same(self.instructions[i].verb.as_str(), "FROM") {
                let args: &str = self.instructions[i].args.as_str();
                let cs: Vec<char> = chars_of(args);
                let t: &[char] = trim_start_text(cs.as_slice());
                let n: usize = t.len();
                let mut k: usize = 0;
                while k < n && !white_space(t[k])
                    invariant
                        k <= n,
                        n == t.len(),
                        text::word_end(t@, 0) == text::word_end(t@, k as int),
                    decreases n - k,
                {
                    k += 1;
                }
                proof {
                    lemma_first_word(args@);
                    text::lemma_trim_start_keeps(args@);
                }
                let a: usize = cs.len() - n;
                let w: &str = args.substring_char(a, a + k);
                assert(w@ =~= t@.take(k as int));
                return Some(w);
            }
            i += 1;
        }
        None
    }

    /// Whether the ARG at `i` is global: no FROM stands before it.
    pub fn is_global_arg(&self, i: usize) -> (r: bool)
        ensures
            r == (i < self@.len() && first_from(self@, 0) > i),
    {
        if i >= self.instructions.len() {
            return false;
        }
        proof {
            lemma_first_from(self@, 0);
        }
        let mut k: usize = 0;
        while k <= i
            invariant
                k <= i + 1,
                i < self.instructions.len(),
                first_from(self@, 0) == first_from(self@, k as int),
            decreases i + 1 - k,
        {
            assert(self@[k as int] == self.instructions@[k as int]@);
            if same(self.instructions[k].verb.as_str(), "FROM") {
                return false;
            }
            k += 1;
        }
        proof {
            lemma_first_from(self@, k as int);
        }
        true
    }

    /// The defaults that the global ARGs give, in order.
    pub fn arg_defaults(&self) -> (r: Vec<(String, String)>)
        ensures
            pair_texts(r@) == arg_defaults_to(self@, self@.len() as int),
    {
        let mut out: Vec<(String, String)> = Vec::new();
        let mut i: usize = 0;
        assert(pair_texts(out@) =~= Seq::empty());
        while i < self.instructions.len()
            invariant
                i <= self.instructions.len(),
                pair_texts(out@) == arg_defaults_to(self@, i as int),
            decreases self.instructions.len() - i,
        {
            let ins: &Instruction = &self.instructions[i];
            assert(self@[i as int] == ins@);
            if same(ins.verb.as_str(), "ARG") && ins.line != 0 && self.is_global_arg(i) {
                let cs: Vec<char> = chars_of(ins.args.as_str());
                if let Some((k, x)) = cut_char(cs.as_slice(), '=') {
                    let ghost before = out@;
                    let d: (String, String) = (string_of(trim_text(k)), trim_quotes(trim_text(x)));
                    out.push(d);
                    assert(pair_texts(out@) =~= pair_texts(before).push((d.0@, d.1@)));
                }
            }
            i += 1;
        }
        out
    }
}

// ---------------------------------------------------------------- variables

/// The value of the first variable called `name`.
pub open spec fn lookup(env: Seq<(Seq<char>, Seq<char>)>, name: Seq<char>) -> Option<Seq<char>>
    decreases env.len(),
{
    if env.len() == 0 {
        None
    } else if env[0].0 == name {
        Some(env[0].1)
    } else {
        lookup(env.skip(1), name)
    }
}

pub open spec fn is_name_char(c: char) -> bool {
    unicode::alphanumeric(c) || c == '_'
}

/// Where a name that starts at `j` ends.
pub open spec fn name_end(s: Seq<char>, j: int) -> int
    decreases s.len() - j,
{
    if j < 0 || j >= s.len() || !is_name_char(s[j]) {
        j
    } else {
        name_end(s, j + 1)
    }
}

/// The value of what stands between braces: a name, with a default behind `:-`.
pub open spec fn braced(inner: Seq<char>, env: Seq<(Seq<char>, Seq<char>)>) -> Seq<char> {
    let (name, default) = match text::split_once(inner, ":-"@) {
        Some((v, d)) => (v, d),
        None => (inner, Seq::empty()),
    };
    match lookup(env, name) {
        Some(v) => v,
        None => default,
    }
}

/// The value of a plain `$name`: nothing where it is not set.
pub open spec fn plain_value(name: Seq<char>, env: Seq<(Seq<char>, Seq<char>)>) -> Seq<char> {
    match lookup(env, name) {
        Some(v) => v,
        None => Seq::empty(),
    }
}

/// `s` from place `i` on, with its variables replaced.
pub open spec fn expanded_from(s: Seq<char>, env: Seq<(Seq<char>, Seq<char>)>, i: int) -> Seq<char>
    decreases s.len() - i,
{
    if i < 0 || i >= s.len() {
        Seq::empty()
    } else if s[i] == '$' && i + 1 < s.len() && s[i + 1] == '{' && (text::find_from(
        s,
        seq!['}'],
        i + 2,
    ) matches Some(c) && i + 2 <= c < s.len()) {
        let c = text::find_from(s, seq!['}'], i + 2)->0;
        braced(s.subrange(i + 2, c), env) + expanded_from(s, env, c + 1)
    } else if s[i] == '$' && i + 1 < s.len() && s[i + 1] != '{' && (unicode::alphabetic(s[i + 1])
        || s[i + 1] == '_') && i + 1 < name_end(s, i + 1) <= s.len() {
        let j = name_end(s, i + 1);
        plain_value(s.subrange(i + 1, j), env) + expanded_from(s, env, j)
    } else {
        seq![s[i]] + expanded_from(s, env, i + 1)
    }
}

/// `s` with `$NAME`, `${NAME}` and `${NAME:-default}` replaced.
pub open spec fn expanded(s: Seq<char>, env: Seq<(Seq<char>, Seq<char>)>) -> Seq<char> {
    expanded_from(s, env, 0)
}

fn look_up(env: &[(String, String)], name: &str) -> (r: Option<String>)
    ensures
        reference::opt_text(r) == lookup(pair_texts(env@), name@),
{
    let ghost ev = pair_texts(env@);
    let mut i: usize = 0;
    assert(ev.skip(0) =~= ev);
    while i < env.len()
        invariant
            i <= env.len(),
            ev == pair_texts(env@),
            lookup(ev, name@) == lookup(ev.skip(i as int), name@),
        decreases env.len() - i,
    {
        assert(ev.skip(i as int)[0] == (env@[i as int].0@, env@[i as int].1@));
        assert(ev.skip(i as int).skip(1) =~= ev.skip(i as int + 1));
        if same(env[i].0.as_str(), name) {
            return Some(env[i].1.clone());
        }
        i += 1;
    }
    assert(ev.skip(i as int).len() == 0);
    None
}

pub proof fn lemma_name_end(s: Seq<char>, j: int)
    requires
        0 <= j <= s.len(),
    ensures
        j <= name_end(s, j) <= s.len(),
        forall|k: int| j <= k < name_end(s, j) ==> is_name_char(#[trigger] s[k]),
    decreases s.len() - j,
{
    if j < s.len() && is_name_char(s[j]) {
        lemma_name_end(s, j + 1);
    }
}

fn expand_braced(inner: &[char], env: &[(String, String)]) -> (r: String)
    ensures
        r@ == braced(inner@, pair_texts(env@)),
{
    let p: Vec<char> = chars_of(":-");
    let (name, default): (String, String) = match cut(inner, p.as_slice()) {
        Some((v, d)) => (string_of(v), string_of(d)),
        None => (string_of(inner), String::new()),
    };
    match look_up(env, name.as_str()) {
        Some(v) => v,
        None => default,
    }
}

/// The first closing brace at or behind `i`.
fn find_close(s: &[char], i: usize) -> (r: Option<usize>)
    requires
        i <= s@.len(),
    ensures
        match r {
            Some(c) => text::find_from(s@, seq!['}'], i as int) == Some(c as int) && i <= c < s@.len(),
            None => text::find_from(s@, seq!['}'], i as int) is None,
        },
{
    let p: Vec<char> = one_char('}');
    let n: usize = s.len();
    let mut k: usize = i;
    while k < n
        invariant
            i <= k <= n,
            n == s.len(),
            p@ == seq!['}'],
            text::find_from(s@, seq!['}'], i as int) == text::find_from(s@, seq!['}'], k as int),
        decreases n - k,
    {
        if occurs(s, p.as_slice(), k) {
            return Some(k);
        }
        k += 1;
    }
    None
}

/// Replaces the variables of a text.
pub fn expand_vars(input: &str, env: &[(String, String)]) -> (r: String)
    ensures
        r@ == expanded(input@, pair_texts(env@)),
{
    let cs: Vec<char> = chars_of(input);
    let s: &[char] = cs.as_slice();
    let n: usize = s.len();
    let ghost ev = pair_texts(env@);
    let mut out: String = String::new();
    let mut i: usize = 0;
    assert(out@ + expanded(s@, ev) =~= expanded(s@, ev));
    while i < n
        invariant
            i <= n,
            n == s.len(),
            s@ == input@,
            ev == pair_texts(env@),
            expanded(input@, ev) == out@ + expanded_from(s@, ev, i as int),
        decreases n - i,
    {
        let ghost before = out@;
        if s[i] == '$' && i + 1 < n {
            if s[i + 1] == '{' {
                if let Some(c) = find_close(s, i + 2) {
                    let inner = slice_subrange(s, i + 2, c);
                    let v: String = expand_braced(inner, env);
                    out.append(v.as_str());
                    i = c + 1;
                    assert(before + (v@ + expanded_from(s@, ev, i as int)) =~= out@
                        + expanded_from(s@, ev, i as int));
                    continue;
                }
            } else if is_alphabetic(s[i + 1]) || s[i + 1] == '_' {
                let mut j: usize = i + 1;
                proof {
                    lemma_name_end(s@, i as int + 2);
                }
                while j < n && (is_alphanumeric(s[j]) || s[j] == '_')
                    invariant
                        i + 1 <= j <= n,
                        n == s.len(),
                        name_end(s@, i as int + 1) == name_end(s@, j as int),
                    decreases n - j,
                {
                    j += 1;
                }
                assert(is_name_char(s@[i as int + 1]));
                let name = slice_subrange(s, i + 1, j);
                let ghost value = plain_value(name@, ev);
                match look_up(env, string_of(name).as_str()) {
                    Some(v) => {
                        out.append(v.as_str());
                    },
                    None => {
                        assert(before + value =~= before);
                    },
                }
                assert(out@ == before + value);
                assert(before + (value + expanded_from(s@, ev, j as int)) =~= out@
                    + expanded_from(s@, ev, j as int));
                i = j;
                continue;
            }
        }
        out.push(s[i]);
        assert(before + (seq![s@[i as int]] + expanded_from(s@, ev, i + 1)) =~= out@
            + expanded_from(s@, ev, i + 1));
        i += 1;
    }
    assert(out@ + Seq::<char>::empty() =~= out@);
    out
}

// ---------------------------------------------------------------- laws

/// What is read of a file has an instruction, and its first is FROM.
pub proof fn law_begins_with_from(content: Seq<char>)
    requires
        checked(instructions(statements(content))) is Ok,
    ensures
        checked(instructions(statements(content)))->Ok_0.len() > 0,
        checked(instructions(statements(content)))->Ok_0[0].verb == "FROM"@,
{
}

/// Outside of a heredoc a blank line or a comment changes nothing, not even between
/// the lines of a continued instruction.
pub proof fn law_comments_change_nothing(st: Scan, raw: Seq<char>, no: int)
    requires
        st.open.len() == 0,
        text::trim(text::trim_end(raw)).len() == 0 || text::trim(text::trim_end(raw))[0] == '#',
    ensures
        scan_line(st, raw, no) == st,
{
}

/// What `scan` keeps: statements have lines that grow, and each line is one of the file.
proof fn lemma_scan(ls: Seq<Seq<char>>, n: int)
    requires
        0 <= n <= ls.len(),
    ensures
        ({
            let st = scan(ls, n);
            &&& 0 <= st.start <= n
            &&& st.open.len() > 0 ==> st.start > 0
            &&& forall|i: int| 0 <= i < st.done.len() ==> 1 <= (#[trigger] st.done[i]).line <= n
            &&& forall|i: int|
                0 <= i < st.done.len() && st.start > 0 ==> (#[trigger] st.done[i]).line < st.start
            &&& forall|i: int, j: int|
                0 <= i < j < st.done.len() ==> (#[trigger] st.done[i]).line < (
                #[trigger] st.done[j]).line
        }),
    decreases n,
{
    if n > 0 {
        lemma_scan(ls, n - 1);
    }
}

/// The statements of a file start on different lines of it, in the order of the file.
pub proof fn law_statements_keep_their_lines(content: Seq<char>, i: int, j: int)
    requires
        0 <= i < j < statements(content).len(),
    ensures
        1 <= statements(content)[i].line < statements(content)[j].line <= lines(content).len(),
{
    lemma_scan(lines(content), lines(content).len() as int);
}

/// Every instruction comes from the statement at its place, and keeps its line.
pub proof fn law_instructions_keep_their_lines(sts: Seq<StatementView>, i: int)
    requires
        instructions(sts) is Ok,
        0 <= i < sts.len(),
    ensures
        instructions(sts)->Ok_0.len() == sts.len(),
        instruction(sts[i]) == Ok::<InstructionView, Seq<char>>(instructions(sts)->Ok_0[i]),
        instructions(sts)->Ok_0[i].line == sts[i].line,
    decreases sts.len(),
{
    if sts.len() > 1 {
        law_instructions_keep_their_lines(sts.drop_last(), if i < sts.len() - 1 { i } else { 0 });
    } else {
        assert(instructions(sts.drop_last()) == Ok::<Seq<InstructionView>, Seq<char>>(Seq::empty()));
    }
}

proof fn lemma_no_dollar(s: Seq<char>, env: Seq<(Seq<char>, Seq<char>)>, i: int)
    requires
        !s.contains('$'),
        0 <= i <= s.len(),
    ensures
        expanded_from(s, env, i) == s.skip(i),
    decreases s.len() - i,
{
    if i < s.len() {
        lemma_no_dollar(s, env, i + 1);
        assert(s.contains(s[i]));
        assert(seq![s[i]] + s.skip(i + 1) =~= s.skip(i));
    } else {
        assert(s.skip(i) =~= Seq::empty());
    }
}

/// A text without a dollar sign stays as it is.
pub proof fn law_expand_without_dollar(s: Seq<char>, env: Seq<(Seq<char>, Seq<char>)>)
    requires
        !s.contains('$'),
    ensures
        expanded(s, env) == s,
{
    lemma_no_dollar(s, env, 0);
    assert(s.skip(0) =~= s);
}

/// A braced name without a colon is replaced by its value, and by nothing where it is
/// not set.
pub proof fn law_expand_braced(name: Seq<char>, env: Seq<(Seq<char>, Seq<char>)>)
    requires
        !name.contains('}'),
        !name.contains(':'),
    ensures
        expanded(seq!['$', '{'] + name + seq!['}'], env) == plain_value(name, env),
{
    let s = seq!['$', '{'] + name + seq!['}'];
    let c: int = name.len() + 2int;
    lemma_close_at(s, 2, c);
    assert(s.subrange(2, c) =~= name);
    reveal_strlit(":-");
    text::lemma_find_from(name, ":-"@, 0);
    if let Some(k) = text::find(name, ":-"@) {
        assert(name.subrange(k, k + 2)[0] == ':');
        assert(name[k] == ':');
    }
    assert(braced(name, env) == plain_value(name, env));
    assert(expanded_from(s, env, c + 1) =~= Seq::empty());
    assert(plain_value(name, env) + Seq::<char>::empty() =~= plain_value(name, env));
}

/// The closing brace at `c` is the first at or behind `i`, where none stands between.
pub proof fn lemma_close_at(s: Seq<char>, i: int, c: int)
    requires
        0 <= i <= c < s.len(),
        s[c] == '}',
        forall|j: int| i <= j < c ==> s[j] != '}',
    ensures
        text::find_from(s, seq!['}'], i) == Some(c),
    decreases c - i,
{
    if i == c {
        assert(s.subrange(i, i + 1) =~= seq!['}']);
    } else {
        assert(s.subrange(i, i + 1)[0] != '}');
        lemma_close_at(s, i + 1, c);
    }
}

// ---------------------------------------------------------------- lines that say nothing

/// A line that says nothing: a blank one, or a comment.
pub open spec fn is_idle(raw: Seq<char>) -> bool {
    text::trim(raw).len() == 0 || text::trim(raw)[0] == '#'
}

proof fn lemma_trim_begins(s: Seq<char>)
    ensures
        text::trim(s).len() == 0 <==> text::trim_start(s).len() == 0,
        text::trim(s).len() > 0 ==> text::trim(s)[0] == text::trim_start(s)[0],
{
    let t = text::trim_start(s);
    text::lemma_trim_start_keeps(s);
    text::lemma_trim_end_keeps(t);
    if t.len() > 0 && text::trim_end(t).len() == 0 {
        lemma_trim_end_stops(t, 0);
    }
}

proof fn lemma_trim_end_stops(s: Seq<char>, i: int)
    requires
        0 <= i < s.len(),
        !text::is_white_space(s[i]),
    ensures
        text::trim_end(s).len() > i,
    decreases s.len(),
{
    if text::is_white_space(s.last()) {
        lemma_trim_end_stops(s.drop_last(), i);
    }
}

proof fn lemma_trim_start_shorter(s: Seq<char>)
    requires
        s.len() > 0,
        text::is_white_space(s.last()),
    ensures
        text::trim_start(s).len() == 0 <==> text::trim_start(s.drop_last()).len() == 0,
        text::trim_start(s).len() > 0 ==> text::trim_start(s)[0] == text::trim_start(
            s.drop_last(),
        )[0],
    decreases s.len(),
{
    if s.len() > 1 && text::is_white_space(s[0]) {
        lemma_trim_start_shorter(s.skip(1));
        assert(s.skip(1).drop_last() =~= s.drop_last().skip(1));
    } else if s.len() == 1 {
        assert(s.skip(1).len() == 0);
        assert(text::trim_start(s.skip(1)) == s.skip(1));
    }
}

proof fn lemma_idle_shorter(s: Seq<char>)
    requires
        s.len() > 0,
        text::is_white_space(s.last()),
    ensures
        is_idle(s) == is_idle(s.drop_last()),
{
    lemma_trim_begins(s);
    lemma_trim_begins(s.drop_last());
    lemma_trim_start_shorter(s);
}

proof fn lemma_idle_trimmed(s: Seq<char>)
    ensures
        is_idle(s) == is_idle(text::trim_end(s)),
    decreases s.len(),
{
    if s.len() > 0 && text::is_white_space(s.last()) {
        lemma_idle_shorter(s);
        lemma_idle_trimmed(s.drop_last());
    }
}

/// The number of a line once one more stands behind the first `k` lines.
pub open spec fn moved_line(line: int, k: int) -> int {
    if line > k {
        line + 1
    } else {
        line
    }
}

pub open spec fn moved_statement(s: StatementView, k: int) -> StatementView {
    StatementView { line: moved_line(s.line, k), ..s }
}

pub open spec fn moved_statements(v: Seq<StatementView>, k: int) -> Seq<StatementView> {
    Seq::new(v.len(), |i: int| moved_statement(v[i], k))
}

/// Instructions that differ in nothing but their lines, which are those of a file with one
/// more line behind the first `k`.
pub open spec fn moved_instructions(v: Seq<InstructionView>, k: int) -> Seq<InstructionView> {
    Seq::new(v.len(), |i: int| InstructionView { line: moved_line(v[i].line, k), ..v[i] })
}

spec fn moved_scan(st: Scan, k: int) -> Scan {
    Scan { done: moved_statements(st.done, k), start: moved_line(st.start, k), ..st }
}

proof fn lemma_finished_moved(st: Scan, heredoc: bool, k: int)
    ensures
        finished(moved_scan(st, k), heredoc) == moved_statements(finished(st, heredoc), k),
{
    assert(finished(moved_scan(st, k), heredoc) =~= moved_statements(finished(st, heredoc), k));
}

proof fn lemma_scan_line_moved(st: Scan, raw: Seq<char>, no: int, k: int)
    requires
        0 <= k < no,
        st.start >= 0,
    ensures
        scan_line(moved_scan(st, k), raw, no + 1) == moved_scan(scan_line(st, raw, no), k),
{
    let line = text::trim_end(raw);
    let m = moved_scan(st, k);
    if st.open.len() > 0 {
        let inside = Scan {
            done: st.done,
            logical: st.logical.push('\n') + raw,
            start: st.start,
            open: open_after(st.open, raw),
        };
        lemma_finished_moved(inside, true, k);
        assert(moved_scan(inside, k) == (Scan {
            done: m.done,
            logical: m.logical.push('\n') + raw,
            start: m.start,
            open: open_after(m.open, raw),
        }));
    } else if text::trim(line).len() == 0 || text::trim(line)[0] == '#' {
    } else {
        let logical = if st.start == 0 {
            line
        } else {
            st.logical + line
        };
        let start = if st.start == 0 {
            no
        } else {
            st.start
        };
        let read = Scan { done: st.done, logical, start, open: heredoc_delims(logical) };
        lemma_finished_moved(read, false, k);
        assert(moved_scan(read, k) == (Scan {
            done: m.done,
            logical,
            start: if m.start == 0 {
                no + 1
            } else {
                m.start
            },
            open: heredoc_delims(logical),
        }));
    }
}

pub proof fn lemma_scan_prefix(a: Seq<Seq<char>>, b: Seq<Seq<char>>, n: int)
    requires
        0 <= n <= a.len(),
        n <= b.len(),
        forall|i: int| 0 <= i < n ==> a[i] == b[i],
    ensures
        scan(a, n) == scan(b, n),
    decreases n,
{
    if n > 0 {
        lemma_scan_prefix(a, b, n - 1);
    }
}

proof fn lemma_scan_with_idle(ls: Seq<Seq<char>>, k: int, raw: Seq<char>, n: int)
    requires
        0 <= k <= n <= ls.len(),
        scan(ls, k).open.len() == 0,
        is_idle(raw),
    ensures
        scan(ls.insert(k, raw), n + 1) == moved_scan(scan(ls, n), k),
    decreases n,
{
    let more = ls.insert(k, raw);
    lemma_scan(ls, n);
    if n == k {
        lemma_scan_prefix(more, ls, k);
        lemma_idle_trimmed(raw);
        law_comments_change_nothing(scan(ls, k), raw, k + 1);
        assert(moved_scan(scan(ls, k), k) =~= scan(ls, k));
    } else {
        lemma_scan_with_idle(ls, k, raw, n - 1);
        lemma_scan(ls, n - 1);
        lemma_scan_line_moved(scan(ls, n - 1), ls[n - 1], n, k);
        assert(more[n] == ls[n - 1]);
    }
}

proof fn lemma_instructions_moved(sts: Seq<StatementView>, k: int)
    ensures
        instructions(moved_statements(sts, k)) == match instructions(sts) {
            Ok(v) => Ok::<Seq<InstructionView>, Seq<char>>(moved_instructions(v, k)),
            Err(e) => Err(e),
        },
    decreases sts.len(),
{
    let m = moved_statements(sts, k);
    if sts.len() > 0 {
        lemma_instructions_moved(sts.drop_last(), k);
        assert(m.drop_last() =~= moved_statements(sts.drop_last(), k));
        if let Ok(v) = instructions(sts.drop_last()) {
            if let Ok(i) = instruction(sts.last()) {
                assert(moved_instructions(v, k).push(
                    InstructionView { line: moved_line(i.line, k), ..i },
                ) =~= moved_instructions(v.push(i), k));
            }
        }
    } else {
        assert(m =~= Seq::empty());
        assert(moved_instructions(Seq::empty(), k) =~= Seq::empty());
    }
}

/// What [`parse`] reads of a file.
pub open spec fn parsed(content: Seq<char>) -> Result<Seq<InstructionView>, Seq<char>> {
    checked(instructions(statements(content)))
}

/// What is read of a file with one more line behind the first `k`.
pub open spec fn moved_result(
    r: Result<Seq<InstructionView>, Seq<char>>,
    k: int,
) -> Result<Seq<InstructionView>, Seq<char>> {
    match r {
        Ok(v) => Ok(moved_instructions(v, k)),
        Err(e) => Err(e),
    }
}

proof fn lemma_find_in_first(a: Seq<char>, b: Seq<char>)
    requires
        a.len() > 0,
        a.last() == '\n',
    ensures
        text::find(a + b, seq!['\n']) == text::find(a, seq!['\n']),
        text::find(a, seq!['\n']) is Some,
        0 <= text::find(a, seq!['\n'])->0 < a.len(),
{
    text::lemma_find_char(a, '\n');
    assert(a[a.len() - 1] == '\n');
    let i = text::find(a, seq!['\n'])->0;
    assert forall|j: int| 0 <= j < i implies (a + b)[j] != '\n' by {
        assert(a[j] != '\n');
    }
    text::lemma_found_char(a + b, '\n', i);
}

/// Lines that end before `b` are read apart from it.
proof fn lemma_lines_of_sum(a: Seq<char>, b: Seq<char>)
    requires
        a.len() == 0 || a.last() == '\n',
    ensures
        lines(a + b) == lines(a) + lines(b),
    decreases a.len(),
{
    if a.len() == 0 {
        assert(a + b =~= b);
        assert(lines(a) + lines(b) =~= lines(b));
    } else {
        lemma_find_in_first(a, b);
        let i = text::find(a, seq!['\n'])->0;
        let rest = a.skip(i + 1);
        assert((a + b).take(i) =~= a.take(i));
        assert((a + b).skip(i + 1) =~= rest + b);
        assert(rest.len() > 0 ==> rest.last() == a.last());
        lemma_lines_of_sum(rest, b);
        assert(seq![without_cr(a.take(i))] + (lines(rest) + lines(b)) =~= (seq![
            without_cr(a.take(i)),
        ] + lines(rest)) + lines(b));
    }
}

proof fn lemma_one_line(raw: Seq<char>)
    requires
        !raw.contains('\n'),
    ensures
        lines(raw.push('\n')) == seq![without_cr(raw)],
{
    let s = raw.push('\n');
    assert forall|j: int| 0 <= j < raw.len() implies s[j] != '\n' by {
        assert(raw.contains(raw[j]));
    }
    text::lemma_found_char(s, '\n', raw.len() as int);
    assert(s.take(raw.len() as int) =~= raw);
    assert(s.skip(raw.len() as int + 1) =~= Seq::empty());
    assert(lines(Seq::<char>::empty()) =~= Seq::empty());
    assert(lines(s) =~= seq![without_cr(raw)]);
}

/// A blank line or a comment between the lines `a` and `b` of a file, outside of a heredoc,
/// changes nothing but the numbers of the lines behind it: the file is read to the same
/// instructions, or refused for the same reason. This holds between the lines of a
/// continued instruction as well.
pub proof fn law_idle_lines_change_nothing(a: Seq<char>, raw: Seq<char>, b: Seq<char>)
    requires
        a.len() == 0 || a.last() == '\n',
        !raw.contains('\n'),
        is_idle(raw),
        scan(lines(a), lines(a).len() as int).open.len() == 0,
    ensures
        parsed(a + raw.push('\n') + b) == moved_result(parsed(a + b), lines(a).len() as int),
{
    let k = lines(a).len() as int;
    let line = without_cr(raw);
    let ls = lines(a + b);
    lemma_lines_of_sum(a, b);
    assert(a + raw.push('\n') + b =~= a + (raw.push('\n') + b));
    lemma_lines_of_sum(a, raw.push('\n') + b);
    lemma_lines_of_sum(raw.push('\n'), b);
    lemma_one_line(raw);
    assert(lines(a + raw.push('\n') + b) =~= ls.insert(k, line));
    if raw.len() > 0 && raw.last() == '\r' {
        lemma_idle_shorter(raw);
    }
    lemma_scan_prefix(ls, lines(a), k);
    let n = ls.len() as int;
    lemma_scan_with_idle(ls, k, line, n);
    let st = scan(ls, n);
    lemma_scan(ls, n);
    lemma_finished_moved(st, false, k);
    let sts = statements(a + b);
    assert(statements(a + raw.push('\n') + b) == moved_statements(sts, k));
    lemma_instructions_moved(sts, k);
}

/// No two `<` stand together.
pub open spec fn no_arrows(s: Seq<char>) -> bool {
    forall|i: int| 0 <= i < s.len() - 1 ==> !(#[trigger] s[i] == '<' && s[i + 1] == '<')
}

pub proof fn lemma_no_delims(s: Seq<char>, i: int)
    requires
        no_arrows(s),
        0 <= i,
    ensures
        delims_from(s, i) == Seq::<Seq<char>>::empty(),
    decreases s.len() - i,
{
    if i + 1 < s.len() {
        assert(!(s[i] == '<' && s[i + 1] == '<'));
        lemma_no_delims(s, i + 1);
    }
}

/// Without arrows in its lines a file opens no heredoc.
proof fn lemma_scan_no_arrows(ls: Seq<Seq<char>>, n: int)
    requires
        0 <= n <= ls.len(),
        forall|i: int| 0 <= i < ls.len() ==> no_arrows(#[trigger] ls[i]),
    ensures
        scan(ls, n).open.len() == 0,
        no_arrows(scan(ls, n).logical),
        scan(ls, n).start != 0 ==> scan(ls, n).logical.len() > 0 && scan(ls, n).logical.last()
            == ' ',
    decreases n,
{
    if n > 0 {
        lemma_scan_no_arrows(ls, n - 1);
        let st = scan(ls, n - 1);
        let raw = ls[n - 1];
        let line = text::trim_end(raw);
        text::lemma_trim_end_keeps(raw);
        assert(no_arrows(line)) by {
            assert forall|i: int| 0 <= i < line.len() - 1 implies !(#[trigger] line[i] == '<'
                && line[i + 1] == '<') by {
                assert(line[i] == raw[i] && line[i + 1] == raw[i + 1]);
            }
        }
        let logical = if st.start == 0 {
            line
        } else {
            st.logical + line
        };
        assert(no_arrows(logical)) by {
            assert forall|i: int| 0 <= i < logical.len() - 1 implies !(#[trigger] logical[i] == '<'
                && logical[i + 1] == '<') by {
                if st.start != 0 {
                    let m = st.logical.len();
                    if i < m - 1 {
                        assert(logical[i] == st.logical[i] && logical[i + 1] == st.logical[i + 1]);
                    } else if i == m - 1 {
                        assert(logical[i] == st.logical.last());
                    } else {
                        assert(logical[i] == line[i - m] && logical[i + 1] == line[i - m + 1]);
                    }
                }
            }
        }
        lemma_no_delims(logical, 0);
        let cont = logical.drop_last().push(' ');
        if logical.len() > 0 {
            assert(no_arrows(cont)) by {
                assert forall|i: int| 0 <= i < cont.len() - 1 implies !(#[trigger] cont[i] == '<'
                    && cont[i + 1] == '<') by {
                    if i < cont.len() - 2 {
                        assert(cont[i] == logical[i] && cont[i + 1] == logical[i + 1]);
                    }
                }
            }
        }
    }
}

proof fn lemma_lines_no_arrows(s: Seq<char>)
    requires
        no_arrows(s),
    ensures
        forall|i: int| 0 <= i < lines(s).len() ==> no_arrows(#[trigger] lines(s)[i]),
    decreases s.len(),
{
    if s.len() > 0 {
        text::lemma_find_char(s, '\n');
        if let Some(i) = text::find(s, seq!['\n']) {
            let first = without_cr(s.take(i));
            let rest = s.skip(i + 1);
            assert(no_arrows(first)) by {
                assert forall|j: int| 0 <= j < first.len() - 1 implies !(#[trigger] first[j] == '<'
                    && first[j + 1] == '<') by {
                    assert(first[j] == s[j] && first[j + 1] == s[j + 1]);
                }
            }
            assert(no_arrows(rest)) by {
                assert forall|j: int| 0 <= j < rest.len() - 1 implies !(#[trigger] rest[j] == '<'
                    && rest[j + 1] == '<') by {
                    assert(rest[j] == s[i + 1 + j] && rest[j + 1] == s[i + 1 + j + 1]);
                }
            }
            lemma_lines_no_arrows(rest);
            assert forall|j: int| 0 <= j < lines(s).len() implies no_arrows(#[trigger] lines(s)[j]) by {
                if j > 0 {
                    assert(lines(s)[j] == lines(rest)[j - 1]);
                }
            }
        }
    }
}

/// In a file that holds no `<<` before it, a blank line or a comment changes nothing but
/// the numbers of the lines behind it, wherever it stands.
pub proof fn law_idle_lines_change_nothing_without_heredocs(
    a: Seq<char>,
    raw: Seq<char>,
    b: Seq<char>,
)
    requires
        a.len() == 0 || a.last() == '\n',
        !raw.contains('\n'),
        is_idle(raw),
        !text::contains(a, "<<"@),
    ensures
        parsed(a + raw.push('\n') + b) == moved_result(parsed(a + b), lines(a).len() as int),
{
    reveal_strlit("<<");
    assert(no_arrows(a)) by {
        assert forall|i: int| 0 <= i < a.len() - 1 implies !(#[trigger] a[i] == '<' && a[i + 1]
            == '<') by {
            if a[i] == '<' && a[i + 1] == '<' {
                assert(a.subrange(i, i + 2) =~= "<<"@);
                assert(text::occurs_at(a, "<<"@, i));
                text::lemma_find_hits(a, "<<"@, i);
            }
        }
    }
    lemma_lines_no_arrows(a);
    lemma_scan_no_arrows(lines(a), lines(a).len() as int);
    law_idle_lines_change_nothing(a, raw, b);
}

// ---------------------------------------------------------------- variables word by word

/// Every `${` in `a` is closed within `a`.
pub open spec fn braces_closed(a: Seq<char>) -> bool {
    forall|i: int|
        0 <= i < a.len() - 1 && #[trigger] a[i] == '$' && a[i + 1] == '{' ==> text::find_from(
            a,
            seq!['}'],
            i + 2,
        ) is Some
}

proof fn lemma_find_further(a: Seq<char>, s: Seq<char>, i: int)
    requires
        0 <= i,
        a.len() <= s.len(),
        s.take(a.len() as int) == a,
        text::find_from(a, seq!['}'], i) is Some,
    ensures
        text::find_from(s, seq!['}'], i) == text::find_from(a, seq!['}'], i),
        i <= text::find_from(a, seq!['}'], i)->0 < a.len(),
    decreases a.len() - i,
{
    assert(a.subrange(i, i + 1) =~= s.subrange(i, i + 1));
    if !text::occurs_at(a, seq!['}'], i) {
        lemma_find_further(a, s, i + 1);
    }
}

proof fn lemma_name_end_further(a: Seq<char>, s: Seq<char>, j: int)
    requires
        0 <= j <= a.len(),
        a.len() < s.len(),
        s.take(a.len() as int) == a,
        !is_name_char(s[a.len() as int]),
    ensures
        name_end(s, j) == name_end(a, j),
        j <= name_end(a, j) <= a.len(),
    decreases a.len() - j,
{
    if j < a.len() {
        assert(a[j] == s[j]);
        if is_name_char(a[j]) {
            lemma_name_end_further(a, s, j + 1);
        }
    }
}

proof fn lemma_expanded_apart(
    a: Seq<char>,
    b: Seq<char>,
    env: Seq<(Seq<char>, Seq<char>)>,
    i: int,
)
    requires
        0 <= i <= a.len(),
        braces_closed(a),
    ensures
        expanded_from(a.push(' ') + b, env, i) == expanded_from(a, env, i) + expanded_from(
            a.push(' ') + b,
            env,
            a.len() as int,
        ),
    decreases a.len() - i,
{
    let s = a.push(' ') + b;
    let tail = expanded_from(s, env, a.len() as int);
    assert(s.take(a.len() as int) =~= a);
    assert(s[a.len() as int] == ' ');
    if i == a.len() {
        assert(expanded_from(a, env, i) =~= Seq::empty());
        assert(Seq::<char>::empty() + tail =~= tail);
    } else {
        assert(s[i] == a[i]);
        if i + 1 < a.len() {
            assert(s[i + 1] == a[i + 1]);
        }
        if a[i] == '$' && i + 1 < a.len() && a[i + 1] == '{' {
            lemma_find_further(a, s, i + 2);
            let c = text::find_from(a, seq!['}'], i + 2)->0;
            lemma_expanded_apart(a, b, env, c + 1);
            assert(s.subrange(i + 2, c) =~= a.subrange(i + 2, c));
            let v = braced(a.subrange(i + 2, c), env);
            assert(v + (expanded_from(a, env, c + 1) + tail) =~= (v + expanded_from(a, env, c + 1))
                + tail);
        } else if a[i] == '$' && i + 1 < a.len() && (unicode::alphabetic(a[i + 1]) || a[i + 1]
            == '_') && i + 1 < name_end(a, i + 1) {
            lemma_name_end_further(a, s, i + 1);
            let j = name_end(a, i + 1);
            lemma_expanded_apart(a, b, env, j);
            assert(s.subrange(i + 1, j) =~= a.subrange(i + 1, j));
            let v = plain_value(a.subrange(i + 1, j), env);
            assert(v + (expanded_from(a, env, j) + tail) =~= (v + expanded_from(a, env, j)) + tail);
        } else {
            if i + 1 < a.len() {
                lemma_name_end_further(a, s, i + 1);
            }
            lemma_expanded_apart(a, b, env, i + 1);
            assert(seq![a[i]] + (expanded_from(a, env, i + 1) + tail) =~= (seq![a[i]]
                + expanded_from(a, env, i + 1)) + tail);
        }
    }
}

proof fn lemma_find_shifted(s: Seq<char>, b: Seq<char>, d: int, i: int)
    requires
        0 <= d,
        d + b.len() == s.len(),
        s.skip(d) == b,
        0 <= i,
    ensures
        text::find_from(s, seq!['}'], d + i) == match text::find_from(b, seq!['}'], i) {
            Some(c) => Some(d + c),
            None => None,
        },
        text::find_from(b, seq!['}'], i) matches Some(c) ==> i <= c < b.len(),
    decreases b.len() - i,
{
    if i + 1 <= b.len() {
        assert(s.subrange(d + i, d + i + 1) =~= b.subrange(i, i + 1));
        if !text::occurs_at(b, seq!['}'], i) {
            assert(!text::occurs_at(s, seq!['}'], d + i));
            lemma_find_shifted(s, b, d, i + 1);
        } else {
            assert(text::occurs_at(s, seq!['}'], d + i));
        }
    }
}

proof fn lemma_name_end_shifted(s: Seq<char>, b: Seq<char>, d: int, j: int)
    requires
        0 <= d,
        d + b.len() == s.len(),
        s.skip(d) == b,
        0 <= j <= b.len(),
    ensures
        name_end(s, d + j) == d + name_end(b, j),
        j <= name_end(b, j) <= b.len(),
    decreases b.len() - j,
{
    if j < b.len() {
        assert(b[j] == s[d + j]);
        if is_name_char(b[j]) {
            lemma_name_end_shifted(s, b, d, j + 1);
        }
    }
}

pub proof fn lemma_expanded_shifted(
    s: Seq<char>,
    b: Seq<char>,
    d: int,
    env: Seq<(Seq<char>, Seq<char>)>,
    i: int,
)
    requires
        0 <= d,
        d + b.len() == s.len(),
        s.skip(d) == b,
        0 <= i <= b.len(),
    ensures
        expanded_from(s, env, d + i) == expanded_from(b, env, i),
    decreases b.len() - i,
{
    if i < b.len() {
        assert(s[d + i] == b[i]);
        if i + 1 < b.len() {
            assert(s[d + i + 1] == b[i + 1]);
            lemma_name_end_shifted(s, b, d, i + 1);
        }
        lemma_find_shifted(s, b, d, i + 2);
        if b[i] == '$' && i + 1 < b.len() && b[i + 1] == '{' && text::find_from(
            b,
            seq!['}'],
            i + 2,
        ) is Some {
            let c = text::find_from(b, seq!['}'], i + 2)->0;
            lemma_expanded_shifted(s, b, d, env, c + 1);
            assert(s.subrange(d + i + 2, d + c) =~= b.subrange(i + 2, c));
        } else if b[i] == '$' && i + 1 < b.len() && b[i + 1] != '{' && (unicode::alphabetic(
            b[i + 1],
        ) || b[i + 1] == '_') && i + 1 < name_end(b, i + 1) {
            let j = name_end(b, i + 1);
            lemma_expanded_shifted(s, b, d, env, j);
            assert(s.subrange(d + i + 1, d + j) =~= b.subrange(i + 1, j));
        } else {
            lemma_expanded_shifted(s, b, d, env, i + 1);
        }
    }
}

/// Variables are replaced word by word: what stands on both sides of a space is expanded
/// apart, where every `${` before the space is closed there.
pub proof fn law_words_expand_apart(
    a: Seq<char>,
    b: Seq<char>,
    env: Seq<(Seq<char>, Seq<char>)>,
)
    requires
        braces_closed(a),
    ensures
        expanded(a.push(' ') + b, env) == expanded(a, env).push(' ') + expanded(b, env),
{
    let s = a.push(' ') + b;
    let n = a.len() as int;
    lemma_expanded_apart(a, b, env, 0);
    assert(s.skip(n + 1) =~= b);
    lemma_expanded_shifted(s, b, n + 1, env, 0);
    assert(s[n] == ' ');
    assert(expanded_from(s, env, n) == seq![' '] + expanded_from(s, env, n + 1));
    assert(expanded(a, env) + (seq![' '] + expanded(b, env)) =~= expanded(a, env).push(' ')
        + expanded(b, env));
}

} // verus!
