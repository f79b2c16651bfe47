//! Which files of a build context stay behind: the patterns of `.dockerignore`.

use vstd::prelude::*;

use crate::dockerfile::{self, lines_text};
use crate::text::{self, chars_of, same, str_split, str_starts, str_strip_prefix, str_trim, str_trim_char};

verus! {

/// One line of `.dockerignore`.
#[derive(Debug, Clone)]
pub struct Rule {
    /// The parts of the pattern.
    pub parts: Vec<String>,
    /// What the pattern matches comes along after all.
    pub negated: bool,
}

#[verifier::ext_equal]
pub ghost struct IgnoreRule {
    pub parts: Seq<Seq<char>>,
    pub negated: bool,
}

impl View for Rule {
    type V = IgnoreRule;

    open spec fn view(&self) -> IgnoreRule {
        IgnoreRule { parts: text::texts(self.parts@), negated: self.negated }
    }
}

pub open spec fn rule_list(v: Seq<Rule>) -> Seq<IgnoreRule> {
    Seq::new(v.len(), |i: int| v[i]@)
}

/// The rules, in the order of their lines.
#[derive(Debug, Clone)]
pub struct Ignore {
    pub rules: Vec<Rule>,
}

// ---------------------------------------------------------------- reading

/// What a line says: nothing where it is blank or a comment.
pub open spec fn rule_of(line: Seq<char>) -> Option<IgnoreRule> {
    let t = text::trim(line);
    let (negated, p) = match text::strip_prefix(t, "!"@) {
        Some(rest) => (true, text::trim(rest)),
        None => (false, t),
    };
    let q = text::trim_char(p, '/');
    if text::starts_with(t, "#"@) || q.len() == 0 {
        None
    } else {
        Some(IgnoreRule { parts: text::split(q, seq!['/']), negated })
    }
}

/// The rules of the first `n` lines.
pub open spec fn rules_to(ls: Seq<Seq<char>>, n: int) -> Seq<IgnoreRule>
    decreases n,
{
    if n <= 0 {
        Seq::empty()
    } else {
        match rule_of(ls[n - 1]) {
            Some(r) => rules_to(ls, n - 1).push(r),
            None => rules_to(ls, n - 1),
        }
    }
}

pub open spec fn rules_in(content: Seq<char>) -> Seq<IgnoreRule> {
    let ls = dockerfile::lines(content);
    rules_to(ls, ls.len() as int)
}

fn read_rule(line: &str) -> (r: Option<Rule>)
    ensures
        match r {
            Some(x) => rule_of(line@) == Some(x@),
            None => rule_of(line@) is None,
        },
{
    let t: String = str_trim(line);
    let (negated, p): (bool, String) = match str_strip_prefix(t.as_str(), "!") {
        Some(rest) => (true, str_trim(rest.as_str())),
        None => (false, t.clone()),
    };
    let q: String = str_trim_char(p.as_str(), '/');
    if str_starts(t.as_str(), "#") || q.as_str().is_empty() {
        return None;
    }
    Some(Rule { parts: str_split(q.as_str(), '/'), negated })
}

/// Reads `.dockerignore`.
pub fn parse_ignore(content: &str) -> (r: Ignore)
    ensures
        rule_list(r.rules@) == rules_in(content@),
{
    let ls: Vec<String> = lines_text(chars_of(content).as_slice());
    let ghost lv = text::texts(ls@);
    let mut out: Vec<Rule> = Vec::new();
    let mut i: usize = 0;
    assert(rule_list(out@) =~= Seq::empty());
    while i < ls.len()
        invariant
            i <= ls.len(),
            lv == text::texts(ls@),
            rule_list(out@) == rules_to(lv, i as int),
        decreases ls.len() - i,
    {
        assert(lv[i as int] == ls@[i as int]@);
        if let Some(x) = read_rule(ls[i].as_str()) {
            let ghost before = out@;
            out.push(x);
            assert(rule_list(out@) =~= rule_list(before).push(x@));
        }
        i += 1;
    }
    assert(lv.len() == ls@.len());
    Ignore { rules: out }
}

// ---------------------------------------------------------------- matching

/// A part of a pattern matches a part of a path: `*` stands for any characters, `?` for
/// any one.
pub open spec fn glob(p: Seq<char>, s: Seq<char>) -> bool
    decreases p.len() + s.len(),
{
    if p.len() == 0 {
        s.len() == 0
    } else if p[0] == '*' {
        glob(p.skip(1), s) || (s.len() > 0 && glob(p, s.skip(1)))
    } else {
        s.len() > 0 && (p[0] == '?' || p[0] == s[0]) && glob(p.skip(1), s.skip(1))
    }
}

/// A pattern matches a path or a directory that it is below: `**` stands for any
/// directories.
pub open spec fn covers(ps: Seq<Seq<char>>, ss: Seq<Seq<char>>) -> bool
    decreases ps.len() + ss.len(),
{
    if ps.len() == 0 {
        true
    } else if ps[0] == "**"@ {
        covers(ps.skip(1), ss) || (ss.len() > 0 && covers(ps, ss.skip(1)))
    } else {
        ss.len() > 0 && glob(ps[0], ss[0]) && covers(ps.skip(1), ss.skip(1))
    }
}

/// What the last rule that matches says; a path that none matches comes along.
pub open spec fn stays_behind(rules: Seq<IgnoreRule>, path: Seq<Seq<char>>) -> bool
    decreases rules.len(),
{
    if rules.len() == 0 {
        false
    } else if covers(rules.last().parts, path) {
        !rules.last().negated
    } else {
        stays_behind(rules.drop_last(), path)
    }
}

fn glob_at(p: &Vec<char>, i: usize, s: &Vec<char>, j: usize) -> (r: bool)
    requires
        i <= p@.len(),
        j <= s@.len(),
    ensures
        r == glob(p@.skip(i as int), s@.skip(j as int)),
    decreases p@.len() - i + s@.len() - j,
{
    let n: usize = p.len();
    let m: usize = s.len();
    if i >= n {
        return j >= m;
    }
    assert(p@.skip(i as int).skip(1) =~= p@.skip(i as int + 1));
    if j < m {
        assert(s@.skip(j as int).skip(1) =~= s@.skip(j as int + 1));
    }
    if p[i] == '*' {
        return glob_at(p, i + 1, s, j) || (j < m && glob_at(p, i, s, j + 1));
    }
    j < m && (p[i] == '?' || p[i] == s[j]) && glob_at(p, i + 1, s, j + 1)
}

fn covers_at(ps: &Vec<String>, i: usize, ss: &Vec<String>, j: usize) -> (r: bool)
    requires
        i <= ps@.len(),
        j <= ss@.len(),
    ensures
        r == covers(text::texts(ps@).skip(i as int), text::texts(ss@).skip(j as int)),
    decreases ps@.len() - i + ss@.len() - j,
{
    let ghost pv = text::texts(ps@);
    let ghost sv = text::texts(ss@);
    let n: usize = ps.len();
    let m: usize = ss.len();
    if i >= n {
        return true;
    }
    assert(pv.skip(i as int)[0] == ps@[i as int]@);
    assert(pv.skip(i as int).skip(1) =~= pv.skip(i as int + 1));
    if j < m {
        assert(sv.skip(j as int)[0] == ss@[j as int]@);
        assert(sv.skip(j as int).skip(1) =~= sv.skip(j as int + 1));
    }
    if same(ps[i].as_str(), "**") {
        return covers_at(ps, i + 1, ss, j) || (j < m && covers_at(ps, i, ss, j + 1));
    }
    if j >= m {
        return false;
    }
    let p: Vec<char> = chars_of(ps[i].as_str());
    let s: Vec<char> = chars_of(ss[j].as_str());
    assert(p@.skip(0) =~= p@);
    assert(s@.skip(0) =~= s@);
    glob_at(&p, 0, &s, 0) && covers_at(ps, i + 1, ss, j + 1)
}

impl Ignore {
    /// Whether a path stays behind.
    pub fn is_excluded(&self, path: &str) -> (r: bool)
        ensures
            r == stays_behind(rule_list(self.rules@), text::split(path@, seq!['/'])),
    {
        let ss: Vec<String> = str_split(path, '/');
        let ghost sv = text::split(path@, seq!['/']);
        let ghost rv = rule_list(self.rules@);
        let mut n: usize = self.rules.len();
        assert(rv.take(rv.len() as int) =~= rv);
        while n > 0
            invariant
                n <= self.rules.len(),
                text::texts(ss@) == sv,
                sv == text::split(path@, seq!['/']),
                rv == rule_list(self.rules@),
                stays_behind(rv, sv) == stays_behind(rv.take(n as int), sv),
            decreases n,
        {
            assert(rv.take(n as int).drop_last() =~= rv.take(n - 1));
            assert(rv[n - 1] == self.rules@[n - 1]@);
            let ghost pv = text::texts(self.rules@[n - 1].parts@);
            assert(pv.skip(0) =~= pv);
            assert(sv.skip(0) =~= sv);
            if covers_at(&self.rules[n - 1].parts, 0, &ss, 0) {
                return !self.rules[n - 1].negated;
            }
            n -= 1;
        }
        false
    }

    /// Whether any rule lets something come along after all.
    pub fn has_negations(&self) -> (r: bool)
        ensures
            r == exists|i: int| 0 <= i < self.rules@.len() && (#[trigger] self.rules@[i]).negated,
    {
        let mut i: usize = 0;
        while i < self.rules.len()
            invariant
                i <= self.rules.len(),
                forall|j: int| 0 <= j < i ==> !(#[trigger] self.rules@[j]).negated,
            decreases self.rules.len() - i,
        {
            if self.rules[i].negated {
                return true;
            }
            i += 1;
        }
        false
    }
}

proof fn lemma_covers_below(ps: Seq<Seq<char>>, ss: Seq<Seq<char>>, more: Seq<Seq<char>>)
    requires
        covers(ps, ss),
    ensures
        covers(ps, ss + more),
    decreases ps.len() + ss.len(),
{
    if ps.len() > 0 {
        let all = ss + more;
        if ss.len() > 0 {
            assert(all.skip(1) =~= ss.skip(1) + more);
            assert(all[0] == ss[0]);
        }
        if ps[0] == "**"@ {
            if covers(ps.skip(1), ss) {
                lemma_covers_below(ps.skip(1), ss, more);
            } else {
                lemma_covers_below(ps, ss.skip(1), more);
            }
        } else {
            lemma_covers_below(ps.skip(1), ss.skip(1), more);
        }
    }
}

/// With no negation, whatever is below a directory that stays behind stays behind too.
pub proof fn law_below_stays_behind(
    rules: Seq<IgnoreRule>,
    dir: Seq<Seq<char>>,
    more: Seq<Seq<char>>,
)
    requires
        forall|i: int| 0 <= i < rules.len() ==> !(#[trigger] rules[i]).negated,
        stays_behind(rules, dir),
    ensures
        stays_behind(rules, dir + more),
    decreases rules.len(),
{
    let last = rules.last();
    assert(!rules[rules.len() - 1].negated);
    if covers(last.parts, dir) {
        lemma_covers_below(last.parts, dir, more);
    } else if !covers(last.parts, dir + more) {
        assert forall|i: int| 0 <= i < rules.drop_last().len() implies !(
        #[trigger] rules.drop_last()[i]).negated by {
            assert(rules.drop_last()[i] == rules[i]);
        }
        law_below_stays_behind(rules.drop_last(), dir, more);
    }
}

/// The last rule that matches a path decides, whatever stands before it.
pub proof fn law_last_rule_decides(
    before: Seq<IgnoreRule>,
    rule: IgnoreRule,
    path: Seq<Seq<char>>,
)
    requires
        covers(rule.parts, path),
    ensures
        stays_behind(before.push(rule), path) == !rule.negated,
{
    assert(before.push(rule).last() == rule);
}

/// A text without signs that stand for others.
pub open spec fn is_literal(p: Seq<char>) -> bool {
    !p.contains('*') && !p.contains('?')
}

proof fn lemma_literal_tail(p: Seq<char>)
    requires
        is_literal(p),
        p.len() > 0,
    ensures
        is_literal(p.skip(1)),
        p[0] != '*' && p[0] != '?',
{
    assert(p.contains(p[0]));
    if p.skip(1).contains('*') {
        let j = choose|j: int| 0 <= j < p.skip(1).len() && p.skip(1)[j] == '*';
        assert(p[j + 1] == '*');
    }
    if p.skip(1).contains('?') {
        let j = choose|j: int| 0 <= j < p.skip(1).len() && p.skip(1)[j] == '?';
        assert(p[j + 1] == '?');
    }
}

/// A part without signs matches itself and nothing else.
pub proof fn law_literal_matches_itself(p: Seq<char>, s: Seq<char>)
    requires
        is_literal(p),
    ensures
        glob(p, s) <==> p == s,
    decreases p.len(),
{
    if p.len() > 0 {
        lemma_literal_tail(p);
        if s.len() > 0 {
            law_literal_matches_itself(p.skip(1), s.skip(1));
            if p[0] == s[0] && p.skip(1) == s.skip(1) {
                assert(p =~= seq![p[0]] + p.skip(1));
                assert(s =~= seq![s[0]] + s.skip(1));
            }
        }
    } else {
        assert(s.len() == 0 ==> p =~= s);
    }
}

/// `*` stands for any characters: a part with one in it matches what begins as it does and
/// ends as it does, whatever stands between.
pub proof fn law_star_stands_for_anything(a: Seq<char>, b: Seq<char>, s: Seq<char>)
    requires
        is_literal(a),
        is_literal(b),
    ensures
        glob(a + seq!['*'] + b, s) <==> a.len() + b.len() <= s.len() && s.take(a.len() as int) == a
            && s.skip(s.len() - b.len()) == b,
    decreases a.len() + s.len(),
{
    let p = a + seq!['*'] + b;
    if a.len() > 0 {
        lemma_literal_tail(a);
        assert(p[0] == a[0]);
        assert(p.skip(1) =~= a.skip(1) + seq!['*'] + b);
        if s.len() > 0 {
            let t = s.skip(1);
            law_star_stands_for_anything(a.skip(1), b, t);
            if a.len() + b.len() <= s.len() {
                assert(t.skip(t.len() - b.len()) =~= s.skip(s.len() - b.len()));
                assert(t.take(a.len() - 1) =~= s.take(a.len() as int).skip(1));
                if s.take(a.len() as int) == a {
                    assert(s.take(a.len() as int)[0] == s[0]);
                }
                if a[0] == s[0] && t.take(a.len() - 1) == a.skip(1) {
                    assert(s.take(a.len() as int) =~= seq![s[0]] + t.take(a.len() - 1));
                    assert(a =~= seq![a[0]] + a.skip(1));
                }
            }
        }
    } else {
        assert(p[0] == '*');
        assert(p.skip(1) =~= b);
        assert(p =~= seq!['*'] + b);
        law_literal_matches_itself(b, s);
        assert(s.take(0) =~= a);
        if s.len() == b.len() {
            assert(s.skip(0) =~= s);
        }
        if s.len() > 0 {
            let t = s.skip(1);
            law_star_stands_for_anything(a, b, t);
            if b.len() <= t.len() {
                assert(t.skip(t.len() - b.len()) =~= s.skip(s.len() - b.len()));
                assert(t.take(0) =~= a);
            }
        }
    }
}

/// `?` stands for any one character.
pub proof fn law_mark_stands_for_one(b: Seq<char>, s: Seq<char>)
    requires
        is_literal(b),
    ensures
        glob(seq!['?'] + b, s) <==> s.len() == b.len() + 1 && s.skip(1) == b,
{
    let p = seq!['?'] + b;
    assert(p[0] == '?');
    assert(p.skip(1) =~= b);
    if s.len() > 0 {
        law_literal_matches_itself(b, s.skip(1));
    }
}

/// A pattern without signs matches the path that it names and what lies below it, and
/// nothing else.
pub proof fn law_pattern_covers_what_it_names(ps: Seq<Seq<char>>, ss: Seq<Seq<char>>)
    requires
        forall|i: int| 0 <= i < ps.len() ==> is_literal(#[trigger] ps[i]),
    ensures
        covers(ps, ss) <==> ps.len() <= ss.len() && ss.take(ps.len() as int) == ps,
    decreases ps.len(),
{
    reveal_strlit("**");
    if ps.len() > 0 {
        assert(is_literal(ps[0]));
        if ps[0] == "**"@ {
            assert("**"@[0] == '*');
            assert(ps[0].contains(ps[0][0]));
        }
        if ss.len() > 0 {
            law_literal_matches_itself(ps[0], ss[0]);
            assert forall|i: int| 0 <= i < ps.skip(1).len() implies is_literal(
                #[trigger] ps.skip(1)[i],
            ) by {
                assert(ps.skip(1)[i] == ps[i + 1]);
            }
            law_pattern_covers_what_it_names(ps.skip(1), ss.skip(1));
            if ps.len() <= ss.len() {
                let n = ps.len() as int;
                assert(ss.take(n).skip(1) =~= ss.skip(1).take(n - 1));
                if ss.take(n) == ps {
                    assert(ss.take(n)[0] == ss[0]);
                }
                if ps[0] == ss[0] && ss.skip(1).take(n - 1) == ps.skip(1) {
                    assert(ss.take(n) =~= seq![ss[0]] + ss.skip(1).take(n - 1));
                    assert(ps =~= seq![ps[0]] + ps.skip(1));
                }
            }
        }
    } else {
        assert(ss.take(0) =~= ps);
    }
}

/// `**` stands for any directories, also for none.
pub proof fn law_stars_stand_for_directories(ps: Seq<Seq<char>>, ss: Seq<Seq<char>>)
    ensures
        covers(seq!["**"@] + ps, ss) <==> exists|k: int|
            0 <= k <= ss.len() && covers(ps, #[trigger] ss.skip(k)),
    decreases ss.len(),
{
    let all = seq!["**"@] + ps;
    assert(all[0] == "**"@);
    assert(all.skip(1) =~= ps);
    assert(ss.skip(0) =~= ss);
    if ss.len() > 0 {
        let t = ss.skip(1);
        law_stars_stand_for_directories(ps, t);
        if covers(all, t) {
            let k = choose|k: int| 0 <= k <= t.len() && covers(ps, #[trigger] t.skip(k));
            assert(t.skip(k) =~= ss.skip(k + 1));
        }
        if exists|k: int| 0 <= k <= ss.len() && covers(ps, #[trigger] ss.skip(k)) {
            let k = choose|k: int| 0 <= k <= ss.len() && covers(ps, #[trigger] ss.skip(k));
            if k > 0 {
                assert(t.skip(k - 1) =~= ss.skip(k));
            }
        }
    } else if exists|k: int| 0 <= k <= ss.len() && covers(ps, #[trigger] ss.skip(k)) {
        let k = choose|k: int| 0 <= k <= ss.len() && covers(ps, #[trigger] ss.skip(k));
        assert(k == 0);
    }
}

/// A line is a rule with the parts of its pattern; an exclamation mark before it makes it
/// one that lets files come along; a comment is none.
pub proof fn law_line_is_a_rule(p: Seq<char>)
    requires
        p.len() > 0,
        !text::is_white_space(p[0]) && !text::is_white_space(p.last()),
        p[0] != '/' && p.last() != '/' && p[0] != '!' && p[0] != '#',
    ensures
        rule_of(p) == Some(IgnoreRule { parts: text::split(p, seq!['/']), negated: false }),
        rule_of(seq!['!'] + p) == Some(
            IgnoreRule { parts: text::split(p, seq!['/']), negated: true },
        ),
        rule_of(seq!['#'] + p) is None,
{
    reveal_strlit("!");
    reveal_strlit("#");
    let n = seq!['!'] + p;
    let c = seq!['#'] + p;
    text::lemma_trim(p);
    assert(n.last() == p.last() && c.last() == p.last());
    text::lemma_trim(n);
    text::lemma_trim(c);
    let q = seq!['/'];
    if text::starts_with(p, q) {
        assert(p.subrange(0, 1)[0] == q[0]);
    }
    if text::ends_with(p, q) {
        assert(p.subrange(p.len() - 1, p.len() as int)[0] == q[0]);
    }
    assert(text::trim_char(p, '/') == p);
    if text::starts_with(p, "!"@) {
        assert(p.subrange(0, 1)[0] == "!"@[0]);
    }
    if text::starts_with(p, "#"@) {
        assert(p.subrange(0, 1)[0] == "#"@[0]);
    }
    assert(n.subrange(0, 1) =~= "!"@);
    assert(n.skip(1) =~= p);
    if text::starts_with(n, "#"@) {
        assert(n.subrange(0, 1)[0] == "#"@[0]);
    }
    assert(c.subrange(0, 1) =~= "#"@);
}

} // verus!
