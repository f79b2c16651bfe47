//! How the text of a Dockerfile becomes instructions, stated by the lines of the file.

use vstd::prelude::*;

use crate::dockerfile::{self, Scan, StatementView};
use crate::text;
use crate::unicode;

verus! {

/// A line: it holds no line end, and no carriage return stands at its end.
pub open spec fn is_line(l: Seq<char>) -> bool {
    !l.contains('\n') && (l.len() == 0 || l.last() != '\r')
}

pub open spec fn are_lines(v: Seq<Seq<char>>) -> bool {
    forall|i: int| 0 <= i < v.len() ==> is_line(#[trigger] v[i])
}

/// Lines with line ends between them.
pub open spec fn file_of(v: Seq<Seq<char>>) -> Seq<char> {
    text::join(v, seq!['\n'])
}

/// A text of lines, of which the last is not empty, is read as those lines.
pub proof fn lemma_lines_of_file(v: Seq<Seq<char>>)
    requires
        v.len() > 0,
        are_lines(v),
        v.last().len() > 0,
    ensures
        dockerfile::lines(file_of(v)) == v,
        file_of(v).len() > 0,
    decreases v.len(),
{
    let s = file_of(v);
    text::lemma_join_first(v, seq!['\n']);
    let l = v[0];
    assert(is_line(l));
    if v.len() == 1 {
        assert(s == l);
        text::lemma_find_char(s, '\n');
        assert(dockerfile::lines(s) =~= v);
    } else {
        let rest = file_of(v.skip(1));
        assert(v.skip(1).last() == v.last());
        assert forall|i: int| 0 <= i < v.skip(1).len() implies is_line(#[trigger] v.skip(1)[i]) by {
            assert(v.skip(1)[i] == v[i + 1]);
        }
        lemma_lines_of_file(v.skip(1));
        let k = l.len() as int;
        assert forall|j: int| 0 <= j < k implies s[j] != '\n' by {
            assert(s[j] == l[j]);
            assert(l.contains(l[j]));
        }
        assert(s[k] == '\n');
        text::lemma_found_char(s, '\n', k);
        assert(s.take(k) =~= l);
        assert(s.skip(k + 1) =~= rest);
        assert(dockerfile::without_cr(l) == l);
        assert(seq![l] + v.skip(1) =~= v);
    }
}

// ---------------------------------------------------------------- heredocs

/// A word that a heredoc can end at: nothing in it ends it, and it begins with neither a
/// dash nor a quote.
pub open spec fn is_delimiter(d: Seq<char>) -> bool {
    &&& d.len() > 0
    &&& d[0] != '-' && d[0] != '"' && d[0] != '\''
    &&& forall|i: int| 0 <= i < d.len() ==> !text::is_white_space(#[trigger] d[i])
    &&& d.last() != '\\'
}

proof fn lemma_delimiter_end(s: Seq<char>, j: int, e: int)
    requires
        0 <= j <= e == s.len(),
        forall|i: int| j <= i < e ==> !dockerfile::is_ascii_space(#[trigger] s[i]),
    ensures
        dockerfile::delim_end(s, None, j) == e,
    decreases e - j,
{
    if j < e {
        assert(!dockerfile::is_ascii_space(s[j]));
        lemma_delimiter_end(s, j + 1, e);
    }
}

proof fn lemma_announces(before: Seq<char>, d: Seq<char>, i: int)
    requires
        !before.contains('<'),
        is_delimiter(d),
        0 <= i <= before.len(),
    ensures
        dockerfile::delims_from(before + seq!['<', '<'] + d, i) == seq![d],
    decreases before.len() - i,
{
    let s = before + seq!['<', '<'] + d;
    let n = before.len() as int;
    if i < n {
        assert(s[i] == before[i]);
        assert(before.contains(before[i]));
        lemma_announces(before, d, i + 1);
    } else {
        assert(s[n] == '<' && s[n + 1] == '<');
        assert(s[n + 2] == d[0]);
        assert forall|k: int| n + 2 <= k < s.len() implies !dockerfile::is_ascii_space(
            #[trigger] s[k],
        ) by {
            assert(s[k] == d[k - n - 2]);
        }
        lemma_delimiter_end(s, n + 2, s.len() as int);
        assert(s.subrange(n + 2, s.len() as int) =~= d);
        assert(dockerfile::delims_from(s, s.len() as int) =~= Seq::empty());
        assert(seq![d] + Seq::<Seq<char>>::empty() =~= seq![d]);
    }
}

/// The lines of a document hold no line that would end it.
pub open spec fn stays_open(b: Seq<Seq<char>>, d: Seq<char>) -> bool {
    forall|i: int| 0 <= i < b.len() ==> text::trim_end(#[trigger] b[i]) != d
}

proof fn lemma_document_end(b: Seq<Seq<char>>, d: Seq<char>, rest: Seq<Seq<char>>, i: int)
    requires
        stays_open(b, d),
        text::trim_end(d) == d,
        0 <= i <= b.len(),
    ensures
        dockerfile::block_end(b + seq![d] + rest, d, i) == b.len(),
    decreases b.len() - i,
{
    let all = b + seq![d] + rest;
    if i < b.len() {
        assert(all[i] == b[i]);
        assert(text::trim_end(b[i]) != d);
        lemma_document_end(b, d, rest, i + 1);
    } else {
        assert(all[i] == d);
    }
}

/// A content is that of lines: cut at its line ends it gives them back.
pub open spec fn has_lines(content: Seq<char>, b: Seq<Seq<char>>) -> bool {
    if b.len() == 0 {
        content.len() == 0
    } else {
        text::split(content, "\n"@) == b
    }
}

proof fn lemma_has_lines(b: Seq<Seq<char>>)
    requires
        are_lines(b),
    ensures
        has_lines(file_of(b), b),
{
    reveal_strlit("\n");
    assert("\n"@ =~= seq!['\n']);
    if b.len() > 0 {
        assert forall|i: int| 0 <= i < b.len() implies !(#[trigger] b[i]).contains('\n') by {
            assert(is_line(b[i]));
        }
        text::lemma_split_of_join(b, '\n');
    }
}

/// Each document ends at its own delimiter, in the order in which they are announced, and
/// holds the lines before it, verbatim and in order.
pub proof fn law_documents_come_in_order(
    b: Seq<Seq<char>>,
    d: Seq<char>,
    rest: Seq<Seq<char>>,
    more: Seq<Seq<char>>,
)
    requires
        are_lines(b),
        is_delimiter(d),
        stays_open(b, d),
    ensures
        ({
            let docs = dockerfile::documents(b + seq![d] + rest, seq![d] + more);
            &&& docs.len() > 0
            &&& has_lines(docs[0].1, b)
            &&& b.len() > 0 && b.last().len() > 0 ==> dockerfile::lines(docs[0].1) == b
            &&& docs.skip(1) == dockerfile::documents(rest, more)
        }),
{
    let all = b + seq![d] + rest;
    let ds = seq![d] + more;
    assert(!text::is_white_space(d[d.len() - 1]));
    text::lemma_trim_end_keeps(d);
    lemma_document_end(b, d, rest, 0);
    let k = b.len() as int;
    assert(all.take(k) =~= b);
    assert(all.skip(k + 1) =~= rest);
    assert(ds.skip(1) =~= more);
    lemma_has_lines(b);
    if b.len() > 0 && b.last().len() > 0 {
        lemma_lines_of_file(b);
    }
    let docs = dockerfile::documents(all, ds);
    assert(docs.skip(1) =~= dockerfile::documents(rest, more));
}

/// The line that announces a heredoc.
pub open spec fn announcing(before: Seq<char>, d: Seq<char>) -> Seq<char> {
    before + seq!['<', '<'] + d
}

/// A heredoc read from a statement has the lines of the file between the line that announces
/// it and its delimiter, verbatim and in order.
pub proof fn law_heredoc_keeps_its_lines(before: Seq<char>, d: Seq<char>, b: Seq<Seq<char>>)
    requires
        !before.contains('<'),
        !before.contains('\n'),
        is_delimiter(d),
        are_lines(b),
        stays_open(b, d),
    ensures
        ({
            let t = file_of(seq![announcing(before, d)] + b + seq![d]);
            let (head, docs) = dockerfile::head_and_documents(t);
            &&& head == announcing(before, d)
            &&& docs.len() == 1
            &&& has_lines(docs[0].1, b)
            &&& b.len() > 0 && b.last().len() > 0 ==> dockerfile::lines(docs[0].1) == b
        }),
{
    let head = announcing(before, d);
    let v = seq![head] + b + seq![d];
    lemma_head_is_line(before, d);
    assert forall|i: int| 0 <= i < v.len() implies is_line(#[trigger] v[i]) by {
        if 0 < i <= b.len() {
            assert(v[i] == b[i - 1]);
        }
    }
    lemma_lines_of_file(v);
    assert(v.skip(1) =~= b + seq![d]);
    assert(b + seq![d] + Seq::<Seq<char>>::empty() =~= b + seq![d]);
    lemma_announces(before, d, 0);
    assert(seq![d] + Seq::<Seq<char>>::empty() =~= seq![d]);
    law_documents_come_in_order(b, d, Seq::empty(), Seq::empty());
    let docs = dockerfile::documents(b + seq![d], seq![d]);
    assert(docs.skip(1).len() == 0);
}

proof fn lemma_head_is_line(before: Seq<char>, d: Seq<char>)
    requires
        !before.contains('\n'),
        is_delimiter(d),
    ensures
        is_line(announcing(before, d)),
        is_line(d),
        announcing(before, d).last() == d.last(),
        text::trim_end(announcing(before, d)) == announcing(before, d),
        text::trim_end(d) == d,
{
    let head = announcing(before, d);
    let n = before.len() as int;
    assert(!text::is_white_space(d[d.len() - 1]));
    text::lemma_trim_end_keeps(d);
    text::lemma_trim_end_keeps(head);
    if head.contains('\n') {
        let j = choose|j: int| 0 <= j < head.len() && head[j] == '\n';
        if j < n {
            assert(before.contains(before[j]));
        } else if j >= n + 2 {
            assert(!text::is_white_space(d[j - n - 2]));
        }
    }
    if d.contains('\n') {
        let j = choose|j: int| 0 <= j < d.len() && d[j] == '\n';
        assert(!text::is_white_space(d[j]));
    }
}

/// Nothing is open, neither a statement nor a document.
pub open spec fn is_clean(st: Scan) -> bool {
    st.start == 0 && st.open.len() == 0
}

proof fn lemma_scan_document(ls: Seq<Seq<char>>, a: int, head: Seq<char>, d: Seq<char>, b: Seq<Seq<char>>, k: int)
    requires
        0 <= a,
        0 <= k <= b.len(),
        a + 1 + b.len() < ls.len(),
        ls[a] == head,
        forall|i: int| 0 <= i < b.len() ==> ls[a + 1 + i] == #[trigger] b[i],
        is_clean(dockerfile::scan(ls, a)),
        text::trim_end(head) == head,
        head.len() > 0 && !text::is_white_space(head[0]) && head[0] != '#',
        head.last() != '\\',
        !text::is_white_space(head.last()),
        dockerfile::heredoc_delims(head) == seq![d],
        stays_open(b, d),
    ensures
        dockerfile::scan(ls, a + 1 + k) == (Scan {
            done: dockerfile::scan(ls, a).done,
            logical: file_of(seq![head] + b.take(k)),
            start: a + 1,
            open: seq![d],
        }),
    decreases k,
{
    let st = dockerfile::scan(ls, a);
    text::lemma_trim(head);
    if k == 0 {
        assert(b.take(0) =~= Seq::empty());
        assert(seq![head] + b.take(0) =~= seq![head]);
        assert(dockerfile::scan(ls, a + 1) == dockerfile::scan_line(st, ls[a], a + 1));
    } else {
        lemma_scan_document(ls, a, head, d, b, k - 1);
        let before = dockerfile::scan(ls, a + k);
        assert(ls[a + k] == b[k - 1]);
        assert(dockerfile::scan(ls, a + 1 + k) == dockerfile::scan_line(
            before,
            ls[a + k],
            a + 1 + k,
        ));
        assert(text::trim_end(b[k - 1]) != d);
        let v = seq![head] + b.take(k);
        assert(v.drop_last() =~= seq![head] + b.take(k - 1));
        assert(v.last() == b[k - 1]);
        assert(before.logical.push('\n') + b[k - 1] =~= before.logical + seq!['\n'] + b[k - 1]);
    }
}

/// A heredoc in a file belongs to the instruction that announces it: the lines from the
/// announcing one to the delimiter are one statement, which starts on the announcing line;
/// its instruction has the document, with the lines of the file between the two, verbatim
/// and in order, and the verb that the line begins with.
#[verifier::rlimit(40)]
pub proof fn law_heredoc_reaches_its_instruction(
    ls: Seq<Seq<char>>,
    a: int,
    verb: Seq<char>,
    args: Seq<char>,
    d: Seq<char>,
    b: Seq<Seq<char>>,
)
    requires
        0 <= a,
        a + 1 + b.len() < ls.len(),
        is_clean(dockerfile::scan(ls, a)),
        is_word(verb),
        !verb.contains('<') && !args.contains('<') && !args.contains('\n'),
        is_delimiter(d),
        are_lines(b),
        stays_open(b, d),
        ls[a] == announcing(verb + " "@ + args, d),
        forall|i: int| 0 <= i < b.len() ==> ls[a + 1 + i] == #[trigger] b[i],
        ls[a + 1 + b.len()] == d,
    ensures
        ({
            let before = dockerfile::scan(ls, a);
            let after = dockerfile::scan(ls, a + 2 + b.len());
            &&& is_clean(after)
            &&& after.done.len() == before.done.len() + 1
            &&& after.done.drop_last() == before.done
            &&& dockerfile::instruction(after.done.last()) matches Ok(i) && {
                &&& i.line == a + 1
                &&& i.verb == unicode::uppered(verb)
                &&& i.heredocs.len() == 1
                &&& has_lines(i.heredocs[0].1, b)
            }
        }),
{
    reveal_strlit(" ");
    let pre = verb + " "@ + args;
    let head = announcing(pre, d);
    let n = b.len() as int;
    if pre.contains('<') {
        let j = choose|j: int| 0 <= j < pre.len() && pre[j] == '<';
        if j < verb.len() {
            assert(verb.contains(verb[j]));
        } else if j > verb.len() {
            assert(args.contains(args[j - verb.len() - 1]));
        }
    }
    if pre.contains('\n') {
        let j = choose|j: int| 0 <= j < pre.len() && pre[j] == '\n';
        if j < verb.len() {
            assert(!text::is_white_space(verb[j]));
        } else if j > verb.len() {
            assert(args.contains(args[j - verb.len() - 1]));
        }
    }
    lemma_head_is_line(pre, d);
    lemma_announces(pre, d, 0);
    assert(head[0] == verb[0]);
    assert(!text::is_white_space(verb[0]));
    assert(!text::is_white_space(d[d.len() - 1]));
    lemma_scan_document(ls, a, head, d, b, n);
    let mid = dockerfile::scan(ls, a + 1 + n);
    assert(b.take(n) =~= b);
    assert(dockerfile::scan(ls, a + 2 + n) == dockerfile::scan_line(mid, d, a + 2 + n));
    let v = seq![head] + b + seq![d];
    let t = file_of(v);
    assert(v.drop_last() =~= seq![head] + b);
    assert(mid.logical.push('\n') + d =~= mid.logical + seq!['\n'] + d);
    text::lemma_join_first(v, seq!['\n']);
    assert(t[0] == head[0]);
    assert(t.last() == d.last());
    text::lemma_trim(t);
    assert(seq![d].skip(1) =~= Seq::<Seq<char>>::empty());
    let after = dockerfile::scan(ls, a + 2 + n);
    let st = StatementView { text: t, line: a + 1, heredoc: true };
    assert(after.done == dockerfile::scan(ls, a).done.push(st));
    assert(after.done.drop_last() =~= dockerfile::scan(ls, a).done);
    law_heredoc_keeps_its_lines(pre, d, b);
    lemma_word_end_at(head, verb.len() as int, 0);
    assert(head.take(verb.len() as int) =~= verb);
}

/// A word: not empty, and without white space; no comment begins with it.
pub open spec fn is_word(w: Seq<char>) -> bool {
    w.len() > 0 && w[0] != '#' && forall|i: int|
        0 <= i < w.len() ==> !text::is_white_space(#[trigger] w[i])
}

proof fn lemma_word_end_at(s: Seq<char>, k: int, i: int)
    requires
        0 <= i <= k < s.len(),
        text::is_white_space(s[k]),
        forall|j: int| 0 <= j < k ==> !text::is_white_space(#[trigger] s[j]),
    ensures
        text::word_end(s, i) == k,
    decreases k - i,
{
    if i < k {
        assert(!text::is_white_space(s[i]));
        lemma_word_end_at(s, k, i + 1);
    }
}

// ---------------------------------------------------------------- lines

/// A text without white space at its ends.
pub open spec fn is_trim(s: Seq<char>) -> bool {
    s.len() > 0 && !text::is_white_space(s[0]) && !text::is_white_space(s.last())
}

/// A line of its own is one instruction: its first word is the verb, the rest its arguments,
/// and it stands on that line.
#[verifier::rlimit(40)]
pub proof fn law_line_is_one_instruction(
    ls: Seq<Seq<char>>,
    a: int,
    verb: Seq<char>,
    args: Seq<char>,
)
    requires
        0 <= a < ls.len(),
        is_clean(dockerfile::scan(ls, a)),
        is_word(verb),
        is_trim(args),
        !text::starts_with(args, "--"@),
        args.last() != '\\',
        ls[a] == verb + " "@ + args,
        dockerfile::no_arrows(ls[a]),
    ensures
        ({
            let before = dockerfile::scan(ls, a);
            let after = dockerfile::scan(ls, a + 1);
            &&& is_clean(after)
            &&& after.done.len() == before.done.len() + 1
            &&& after.done.drop_last() == before.done
            &&& dockerfile::instruction(after.done.last()) matches Ok(i) && {
                &&& i.line == a + 1
                &&& i.verb == unicode::uppered(verb)
                &&& i.args == args
                &&& i.flags.len() == 0
                &&& i.heredocs.len() == 0
            }
        }),
{
    reveal_strlit(" ");
    reveal_strlit("--");
    let l = verb + " "@ + args;
    let st = dockerfile::scan(ls, a);
    assert(l[0] == verb[0]);
    assert(l.last() == args.last());
    assert(!text::is_white_space(verb[0]));
    text::lemma_trim(l);
    text::lemma_trim_end_keeps(l);
    dockerfile::lemma_no_delims(l, 0);
    assert(dockerfile::scan(ls, a + 1) == dockerfile::scan_line(st, ls[a], a + 1));
    let after = dockerfile::scan(ls, a + 1);
    let s = StatementView { text: l, line: a + 1, heredoc: false };
    assert(after.done == st.done.push(s));
    assert(after.done.drop_last() =~= st.done);
    let k = verb.len() as int;
    assert(l[k] == ' ');
    lemma_word_end_at(l, k, 0);
    assert(l.take(k) =~= verb);
    assert(l.skip(k + 1) =~= args);
    text::lemma_trim(args);
    assert("--"@ =~= seq!['-', '-']);
    assert(dockerfile::flags_and_rest(args) == (Seq::<(Seq<char>, Seq<char>)>::empty(), args));
}

/// A backslash at the end of a line joins it to the next: the two are one statement, with a
/// space in the backslash's place, and it starts on the first of them.
#[verifier::rlimit(40)]
pub proof fn law_backslash_joins_lines(ls: Seq<Seq<char>>, a: int, x: Seq<char>, y: Seq<char>)
    requires
        0 <= a,
        a + 1 < ls.len(),
        is_clean(dockerfile::scan(ls, a)),
        x.len() > 0 && !text::is_white_space(x[0]) && x[0] != '#',
        is_trim(y) && y[0] != '#' && y.last() != '\\',
        ls[a] == x + "\\"@,
        ls[a + 1] == y,
        dockerfile::no_arrows(x + " "@ + y),
    ensures
        ({
            let before = dockerfile::scan(ls, a);
            let after = dockerfile::scan(ls, a + 2);
            &&& is_clean(after)
            &&& after.done == before.done.push(
                StatementView { text: x + " "@ + y, line: a + 1, heredoc: false },
            )
        }),
{
    reveal_strlit(" ");
    reveal_strlit("\\");
    let l = x + "\\"@;
    let st = dockerfile::scan(ls, a);
    assert(l[0] == x[0] && l.last() == '\\');
    text::lemma_trim(l);
    text::lemma_trim_end_keeps(l);
    text::lemma_trim(y);
    text::lemma_trim_end_keeps(y);
    assert(dockerfile::scan(ls, a + 1) == dockerfile::scan_line(st, ls[a], a + 1));
    let mid = dockerfile::scan(ls, a + 1);
    assert(l.drop_last().push(' ') =~= x + " "@);
    assert(mid.logical == x + " "@ && mid.start == a + 1 && mid.open.len() == 0);
    let joined = x + " "@ + y;
    assert(joined[0] == x[0] && joined.last() == y.last());
    text::lemma_trim(joined);
    text::lemma_trim_end_keeps(joined);
    dockerfile::lemma_no_delims(joined, 0);
    assert(dockerfile::scan(ls, a + 2) == dockerfile::scan_line(mid, ls[a + 1], a + 2));
}

proof fn lemma_first_word_is_cut(w: Seq<char>, rest: Seq<char>)
    requires
        forall|i: int| 0 <= i < w.len() ==> !text::is_white_space(#[trigger] w[i]),
        is_trim(rest),
    ensures
        text::word_end(w + seq![' '] + rest, 0) == w.len(),
        text::trim((w + seq![' '] + rest).skip(w.len() as int)) == rest,
{
    let s = w + seq![' '] + rest;
    let e = w.len() as int;
    assert(s[e] == ' ');
    assert forall|j: int| 0 <= j < e implies !text::is_white_space(#[trigger] s[j]) by {
        assert(s[j] == w[j]);
    }
    lemma_word_end_at(s, e, 0);
    let sp = seq![' '] + rest;
    assert(s.skip(e) =~= sp);
    assert(sp.skip(1) =~= rest);
    text::lemma_trim(rest);
    text::lemma_trim_start_keeps(rest);
    assert(text::trim_start(sp) == text::trim_start(rest));
}

proof fn lemma_flag_is_cut(k: Seq<char>, v: Seq<char>)
    requires
        !k.contains('='),
    ensures
        dockerfile::flag_of(k + seq!['='] + v) == (k, v),
{
    let f = k + seq!['='] + v;
    assert forall|j: int| 0 <= j < k.len() implies f[j] != '=' by {
        assert(f[j] == k[j]);
        assert(k.contains(k[j]));
    }
    text::lemma_found_char(f, '=', k.len() as int);
    assert(f.take(k.len() as int) =~= k);
    assert(f.skip(k.len() + 1int) =~= v);
}

/// A flag in front of the arguments is taken off them, with its value.
#[verifier::rlimit(40)]
pub proof fn law_flag_is_taken_off(k: Seq<char>, v: Seq<char>, rest: Seq<char>)
    requires
        !k.contains('='),
        forall|i: int| 0 <= i < k.len() ==> !text::is_white_space(#[trigger] k[i]),
        forall|i: int| 0 <= i < v.len() ==> !text::is_white_space(#[trigger] v[i]),
        is_trim(rest),
    ensures
        ({
            let (flags, args) = dockerfile::flags_and_rest(
                seq!['-', '-'] + k + seq!['='] + v + seq![' '] + rest,
            );
            let (others, last) = dockerfile::flags_and_rest(rest);
            flags == seq![(k, v)] + others && args == last
        }),
{
    let w = seq!['-', '-'] + k + seq!['='] + v;
    let n = k.len() as int;
    assert forall|j: int| 0 <= j < w.len() implies !text::is_white_space(#[trigger] w[j]) by {
        if 2 <= j < n + 2 {
            assert(w[j] == k[j - 2]);
        } else if j > n + 2 {
            assert(w[j] == v[j - n - 3]);
        }
    }
    let s = w + seq![' '] + rest;
    lemma_first_word_is_cut(w, rest);
    let e = w.len() as int;
    assert(s.take(2) =~= seq!['-', '-']);
    assert(s.subrange(2, e) =~= k + seq!['='] + v);
    lemma_flag_is_cut(k, v);
}

// ---------------------------------------------------------------- variables

/// The first pair of a name has a value.
pub open spec fn is_set(env: Seq<(Seq<char>, Seq<char>)>, name: Seq<char>, v: Seq<char>) -> bool {
    exists|i: int|
        0 <= i < env.len() && #[trigger] env[i] == (name, v) && forall|j: int|
            0 <= j < i ==> (#[trigger] env[j]).0 != name
}

pub open spec fn is_unset(env: Seq<(Seq<char>, Seq<char>)>, name: Seq<char>) -> bool {
    forall|j: int| 0 <= j < env.len() ==> (#[trigger] env[j]).0 != name
}

/// A name that is looked up has the value of its first pair, and none where it has no pair.
pub proof fn law_first_value_counts(
    env: Seq<(Seq<char>, Seq<char>)>,
    name: Seq<char>,
    v: Seq<char>,
)
    ensures
        is_set(env, name, v) ==> dockerfile::lookup(env, name) == Some(v),
        is_unset(env, name) ==> dockerfile::lookup(env, name) is None,
    decreases env.len(),
{
    if env.len() > 0 {
        let rest = env.skip(1);
        law_first_value_counts(rest, name, v);
        if is_set(env, name, v) && env[0].0 != name {
            let i = choose|i: int|
                0 <= i < env.len() && #[trigger] env[i] == (name, v) && forall|j: int|
                    0 <= j < i ==> (#[trigger] env[j]).0 != name;
            assert(rest[i - 1] == (name, v));
            assert forall|j: int| 0 <= j < i - 1 implies (#[trigger] rest[j]).0 != name by {
                assert(rest[j] == env[j + 1]);
            }
        } else if is_set(env, name, v) {
            let i = choose|i: int|
                0 <= i < env.len() && #[trigger] env[i] == (name, v) && forall|j: int|
                    0 <= j < i ==> (#[trigger] env[j]).0 != name;
            assert(i == 0) by {
                if i > 0 {
                    assert(env[0].0 != name);
                }
            }
        }
        if is_unset(env, name) {
            assert forall|j: int| 0 <= j < rest.len() implies (#[trigger] rest[j]).0 != name by {
                assert(rest[j] == env[j + 1]);
            }
            assert(env[0].0 != name);
        }
    }
}

proof fn lemma_up_to_dollar(s: Seq<char>, env: Seq<(Seq<char>, Seq<char>)>, n: int, i: int)
    requires
        0 <= i <= n <= s.len(),
        forall|j: int| 0 <= j < n ==> s[j] != '$',
    ensures
        dockerfile::expanded_from(s, env, i) == s.subrange(i, n) + dockerfile::expanded_from(
            s,
            env,
            n,
        ),
    decreases n - i,
{
    if i < n {
        lemma_up_to_dollar(s, env, n, i + 1);
        assert(s.subrange(i, n) =~= seq![s[i]] + s.subrange(i + 1, n));
        let rest = dockerfile::expanded_from(s, env, n);
        assert(seq![s[i]] + (s.subrange(i + 1, n) + rest) =~= s.subrange(i, n) + rest);
    } else {
        let rest = dockerfile::expanded_from(s, env, n);
        assert(s.subrange(i, n) + rest =~= rest);
    }
}

proof fn lemma_braced(
    before: Seq<char>,
    inner: Seq<char>,
    after: Seq<char>,
    env: Seq<(Seq<char>, Seq<char>)>,
)
    requires
        !before.contains('$'),
        !inner.contains('}'),
    ensures
        dockerfile::expanded(before + seq!['$', '{'] + inner + seq!['}'] + after, env) == before
            + dockerfile::braced(inner, env) + dockerfile::expanded(after, env),
{
    let s = before + seq!['$', '{'] + inner + seq!['}'] + after;
    let n = before.len() as int;
    let c = n + 2 + inner.len();
    assert forall|j: int| 0 <= j < n implies s[j] != '$' by {
        assert(before.contains(before[j]));
    }
    lemma_up_to_dollar(s, env, n, 0);
    assert(s.subrange(0, n) =~= before);
    assert(s[n] == '$' && s[n + 1] == '{' && s[c] == '}');
    assert forall|j: int| n + 2 <= j < c implies s[j] != '}' by {
        assert(s[j] == inner[j - n - 2]);
        assert(inner.contains(inner[j - n - 2]));
    }
    dockerfile::lemma_close_at(s, n + 2, c);
    assert(s.subrange(n + 2, c) =~= inner);
    assert(s.skip(c + 1) =~= after);
    dockerfile::lemma_expanded_shifted(s, after, c + 1, env, 0);
    let b = dockerfile::braced(inner, env);
    let rest = dockerfile::expanded(after, env);
    assert(dockerfile::expanded_from(s, env, n) == b + rest);
    assert(before + (b + rest) =~= before + b + rest);
}

/// `${name}` is replaced by the value of the variable, by nothing where it is not set; what
/// stands around it is left and expanded in turn.
pub proof fn law_braced_variable_is_replaced(
    before: Seq<char>,
    name: Seq<char>,
    after: Seq<char>,
    env: Seq<(Seq<char>, Seq<char>)>,
    v: Seq<char>,
)
    requires
        !before.contains('$'),
        !name.contains('}'),
        !name.contains(':'),
    ensures
        is_set(env, name, v) ==> dockerfile::expanded(
            before + seq!['$', '{'] + name + seq!['}'] + after,
            env,
        ) == before + v + dockerfile::expanded(after, env),
        is_unset(env, name) ==> dockerfile::expanded(
            before + seq!['$', '{'] + name + seq!['}'] + after,
            env,
        ) == before + dockerfile::expanded(after, env),
{
    lemma_braced(before, name, after, env);
    law_first_value_counts(env, name, v);
    reveal_strlit(":-");
    text::lemma_find_from(name, ":-"@, 0);
    if let Some(k) = text::find(name, ":-"@) {
        assert(name.subrange(k, k + 2)[0] == ':');
        assert(name[k] == ':');
    }
    if is_unset(env, name) {
        assert(dockerfile::braced(name, env) =~= Seq::empty());
        assert(before + Seq::<char>::empty() =~= before);
    }
}

/// `${name:-default}` is replaced by the value of the variable, and by the default where it
/// is not set.
pub proof fn law_default_stands_in(
    before: Seq<char>,
    name: Seq<char>,
    default: Seq<char>,
    after: Seq<char>,
    env: Seq<(Seq<char>, Seq<char>)>,
    v: Seq<char>,
)
    requires
        !before.contains('$'),
        !name.contains('}'),
        !name.contains(':'),
        !default.contains('}'),
    ensures
        is_set(env, name, v) ==> dockerfile::expanded(
            before + seq!['$', '{'] + (name + ":-"@ + default) + seq!['}'] + after,
            env,
        ) == before + v + dockerfile::expanded(after, env),
        is_unset(env, name) ==> dockerfile::expanded(
            before + seq!['$', '{'] + (name + ":-"@ + default) + seq!['}'] + after,
            env,
        ) == before + default + dockerfile::expanded(after, env),
{
    reveal_strlit(":-");
    let inner = name + ":-"@ + default;
    let n = name.len() as int;
    if inner.contains('}') {
        let j = choose|j: int| 0 <= j < inner.len() && inner[j] == '}';
        if j < n {
            assert(name.contains(name[j]));
        } else if j >= n + 2 {
            assert(default.contains(default[j - n - 2]));
        }
    }
    lemma_braced(before, inner, after, env);
    law_first_value_counts(env, name, v);
    assert(inner.subrange(n, n + 2) =~= ":-"@);
    assert forall|j: int| 0 <= j < n implies !#[trigger] text::occurs_at(inner, ":-"@, j) by {
        assert(inner[j] == name[j]);
        assert(name.contains(name[j]));
        if text::occurs_at(inner, ":-"@, j) {
            assert(inner.subrange(j, j + 2)[0] == ":-"@[0]);
        }
    }
    text::lemma_found_at(inner, ":-"@, n);
    assert(inner.take(n) =~= name);
    assert(inner.skip(n + 2) =~= default);
}

proof fn lemma_whole_name(s: Seq<char>, j: int, e: int)
    requires
        0 <= j <= e <= s.len(),
        forall|i: int| j <= i < e ==> dockerfile::is_name_char(#[trigger] s[i]),
        e == s.len() || !dockerfile::is_name_char(s[e]),
    ensures
        dockerfile::name_end(s, j) == e,
    decreases e - j,
{
    if j < e {
        assert(dockerfile::is_name_char(s[j]));
        lemma_whole_name(s, j + 1, e);
    }
}

/// `$name` is replaced by the value of the variable, by nothing where it is not set; the name
/// reaches as far as letters, digits and underscores do.
pub proof fn law_plain_variable_is_replaced(
    before: Seq<char>,
    name: Seq<char>,
    after: Seq<char>,
    env: Seq<(Seq<char>, Seq<char>)>,
    v: Seq<char>,
)
    requires
        !before.contains('$'),
        name.len() > 0,
        unicode::alphabetic(name[0]) || name[0] == '_',
        name[0] != '{',
        forall|i: int| 0 <= i < name.len() ==> dockerfile::is_name_char(#[trigger] name[i]),
        after.len() == 0 || !dockerfile::is_name_char(after[0]),
    ensures
        is_set(env, name, v) ==> dockerfile::expanded(before + seq!['$'] + name + after, env)
            == before + v + dockerfile::expanded(after, env),
        is_unset(env, name) ==> dockerfile::expanded(before + seq!['$'] + name + after, env)
            == before + dockerfile::expanded(after, env),
{
    law_first_value_counts(env, name, v);
    let s = before + seq!['$'] + name + after;
    let n = before.len() as int;
    let e = n + 1 + name.len();
    assert forall|j: int| 0 <= j < n implies s[j] != '$' by {
        assert(before.contains(before[j]));
    }
    lemma_up_to_dollar(s, env, n, 0);
    assert(s.subrange(0, n) =~= before);
    assert(s[n] == '$' && s[n + 1] == name[0]);
    assert forall|i: int| n + 1 <= i < e implies dockerfile::is_name_char(#[trigger] s[i]) by {
        assert(s[i] == name[i - n - 1]);
    }
    if after.len() > 0 {
        assert(s[e] == after[0]);
    }
    lemma_whole_name(s, n + 1, e);
    assert(s.subrange(n + 1, e) =~= name);
    assert(s.skip(e) =~= after);
    dockerfile::lemma_expanded_shifted(s, after, e, env, 0);
    let p = dockerfile::plain_value(name, env);
    let rest = dockerfile::expanded(after, env);
    assert(dockerfile::expanded_from(s, env, n) == p + rest);
    assert(before + (p + rest) =~= before + p + rest);
    if is_unset(env, name) {
        assert(p =~= Seq::empty());
        assert(before + p =~= before);
    }
}

// ---------------------------------------------------------------- delimiters

proof fn lemma_quoted_end(s: Seq<char>, q: char, j: int, e: int)
    requires
        0 <= j <= e < s.len(),
        s[e] == q,
        forall|i: int| j <= i < e ==> s[i] != q,
    ensures
        dockerfile::delim_end(s, Some(q), j) == e,
    decreases e - j,
{
    if j < e {
        lemma_quoted_end(s, q, j + 1, e);
    }
}

proof fn lemma_no_arrow_up_to(s: Seq<char>, i: int, n: int)
    requires
        0 <= i <= n,
        n + 1 < s.len(),
        forall|j: int| i <= j < n ==> s[j] != '<',
    ensures
        dockerfile::delims_from(s, i) == dockerfile::delims_from(s, n),
    decreases n - i,
{
    if i < n {
        lemma_no_arrow_up_to(s, i + 1, n);
    }
}

/// A delimiter may stand behind a dash, between quotes, or both; neither belongs to it.
#[verifier::rlimit(40)]
pub proof fn law_dash_and_quotes_do_not_count(before: Seq<char>, d: Seq<char>, q: char)
    requires
        !before.contains('<'),
        is_delimiter(d),
        q == '"' || q == '\'',
        !d.contains(q),
    ensures
        dockerfile::heredoc_delims(before + seq!['<', '<', '-'] + d) == seq![d],
        dockerfile::heredoc_delims(before + seq!['<', '<', q] + d + seq![q]) == seq![d],
        dockerfile::heredoc_delims(before + seq!['<', '<', '-', q] + d + seq![q]) == seq![d],
{
    let n = before.len() as int;
    let m = d.len() as int;
    let none = Seq::<Seq<char>>::empty();
    let a = before + seq!['<', '<', '-'] + d;
    let b = before + seq!['<', '<', q] + d + seq![q];
    let c = before + seq!['<', '<', '-', q] + d + seq![q];
    assert forall|j: int| 0 <= j < n implies a[j] != '<' && b[j] != '<' && c[j] != '<' by {
        assert(before.contains(before[j]));
    }
    lemma_no_arrow_up_to(a, 0, n);
    lemma_no_arrow_up_to(b, 0, n);
    lemma_no_arrow_up_to(c, 0, n);
    assert(a[n] == '<' && a[n + 1] == '<' && a[n + 2] == '-' && a[n + 3] == d[0]);
    assert(b[n] == '<' && b[n + 1] == '<' && b[n + 2] == q);
    assert(c[n] == '<' && c[n + 1] == '<' && c[n + 2] == '-' && c[n + 3] == q);
    assert forall|k: int| n + 3 <= k < a.len() implies !dockerfile::is_ascii_space(#[trigger] a[k]) by {
        assert(a[k] == d[k - n - 3]);
    }
    lemma_delimiter_end(a, n + 3, a.len() as int);
    assert(a.subrange(n + 3, a.len() as int) =~= d);
    assert(dockerfile::delims_from(a, a.len() as int) =~= none);
    assert forall|k: int| n + 3 <= k < n + 3 + m implies b[k] != q by {
        assert(b[k] == d[k - n - 3]);
        assert(d.contains(d[k - n - 3]));
    }
    assert(b[n + 3 + m] == q);
    lemma_quoted_end(b, q, n + 3, n + 3 + m);
    assert(b.subrange(n + 3, n + 3 + m) =~= d);
    assert(dockerfile::delims_from(b, n + 3 + m) =~= none);
    assert forall|k: int| n + 4 <= k < n + 4 + m implies c[k] != q by {
        assert(c[k] == d[k - n - 4]);
        assert(d.contains(d[k - n - 4]));
    }
    assert(c[n + 4 + m] == q);
    lemma_quoted_end(c, q, n + 4, n + 4 + m);
    assert(c.subrange(n + 4, n + 4 + m) =~= d);
    assert(dockerfile::delims_from(c, n + 4 + m) =~= none);
    assert(seq![d] + none =~= seq![d]);
}

proof fn lemma_spaced_end(s: Seq<char>, j: int, e: int)
    requires
        0 <= j <= e < s.len(),
        dockerfile::is_ascii_space(s[e]),
        forall|i: int| j <= i < e ==> !dockerfile::is_ascii_space(#[trigger] s[i]),
    ensures
        dockerfile::delim_end(s, None, j) == e,
    decreases e - j,
{
    if j < e {
        assert(!dockerfile::is_ascii_space(s[j]));
        lemma_spaced_end(s, j + 1, e);
    }
}

#[verifier::rlimit(40)]
proof fn lemma_delims_shifted(s: Seq<char>, b: Seq<char>, k: int, i: int)
    requires
        0 <= k,
        k + b.len() == s.len(),
        s.skip(k) == b,
        0 <= i <= b.len(),
    ensures
        dockerfile::delims_from(s, k + i) == dockerfile::delims_from(b, i),
    decreases b.len() - i,
{
    assert forall|j: int| 0 <= j < b.len() implies s[k + j] == #[trigger] b[j] by {
        assert(s.skip(k)[j] == s[k + j]);
    }
    if i + 1 < b.len() {
        assert(s[k + i] == b[i] && s[k + i + 1] == b[i + 1]);
        if b[i] == '<' && b[i + 1] == '<' {
            if i + 2 < b.len() {
                assert(s[k + i + 2] == b[i + 2]);
            }
            let j = dockerfile::after_arrows(b, i);
            assert(dockerfile::after_arrows(s, k + i) == k + j);
            if j < b.len() {
                assert(s[k + j] == b[j]);
            }
            let q = dockerfile::quote_at(b, j);
            assert(dockerfile::quote_at(s, k + j) == q);
            let start = if q is Some {
                j + 1
            } else {
                j
            };
            lemma_delim_end_shifted(s, b, k, q, start);
            let e = dockerfile::delim_end(b, q, start);
            if e <= i || e > b.len() {
            } else {
                assert(start <= e) by {
                    lemma_delim_end_grows(b, q, start);
                }
                if e > start {
                    assert(s.subrange(k + start, k + e) =~= b.subrange(start, e));
                }
                lemma_delims_shifted(s, b, k, e);
            }
        } else {
            lemma_delims_shifted(s, b, k, i + 1);
        }
    }
}

proof fn lemma_delim_end_grows(b: Seq<char>, q: Option<char>, j: int)
    requires
        0 <= j,
    ensures
        dockerfile::delim_end(b, q, j) >= j,
    decreases b.len() - j,
{
    if j < b.len() {
        lemma_delim_end_grows(b, q, j + 1);
    }
}

proof fn lemma_delim_end_shifted(s: Seq<char>, b: Seq<char>, k: int, q: Option<char>, j: int)
    requires
        0 <= k,
        0 <= j,
        k + b.len() == s.len(),
        forall|i: int| 0 <= i < b.len() ==> s[k + i] == #[trigger] b[i],
    ensures
        dockerfile::delim_end(s, q, k + j) == k + dockerfile::delim_end(b, q, j),
    decreases b.len() - j,
{
    if j < b.len() {
        assert(s[k + j] == b[j]);
        lemma_delim_end_shifted(s, b, k, q, j + 1);
    }
}

/// Delimiters are announced one after another: what follows the first is read as if it stood
/// alone.
pub proof fn law_delimiters_follow_each_other(before: Seq<char>, d: Seq<char>, rest: Seq<char>)
    requires
        !before.contains('<'),
        is_delimiter(d),
    ensures
        dockerfile::heredoc_delims(announcing(before, d) + seq![' '] + rest) == seq![d]
            + dockerfile::heredoc_delims(rest),
{
    let n = before.len() as int;
    let m = d.len() as int;
    let s = announcing(before, d) + seq![' '] + rest;
    assert forall|j: int| 0 <= j < n implies s[j] != '<' by {
        assert(before.contains(before[j]));
    }
    assert(s[n] == '<' && s[n + 1] == '<' && s[n + 2] == d[0]);
    lemma_no_arrow_up_to(s, 0, n);
    assert forall|k: int| n + 2 <= k < n + 2 + m implies !dockerfile::is_ascii_space(
        #[trigger] s[k],
    ) by {
        assert(s[k] == d[k - n - 2]);
    }
    assert(s[n + 2 + m] == ' ');
    lemma_spaced_end(s, n + 2, n + 2 + m);
    assert(s.subrange(n + 2, n + 2 + m) =~= d);
    let tail = seq![' '] + rest;
    assert(s.skip(n + 2 + m) =~= tail);
    lemma_delims_shifted(s, tail, n + 2 + m, 0);
    assert(tail.skip(1) =~= rest);
    lemma_delims_shifted(tail, rest, 1, 0);
    assert(tail[0] == ' ');
    if tail.len() >= 2 {
        assert(dockerfile::delims_from(tail, 0) == dockerfile::delims_from(tail, 1));
    } else {
        assert(dockerfile::delims_from(tail, 0) =~= dockerfile::delims_from(rest, 0));
    }
}

} // verus!
