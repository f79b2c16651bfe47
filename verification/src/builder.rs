//! Building an image: the stages of a Dockerfile, what each step changes of the image's
//! configuration, what a layer is cached under and the image that comes out.

use vstd::prelude::*;
use vstd::slice::slice_subrange;
use vstd::utf8::encode_utf8;

use crate::api::{self, ENGINE_VERSION};
use crate::api::container::{ContainerConfig, HealthConfig};
use crate::dockerfile::{self, Dockerfile, Instruction, InstructionView, expand_vars, parse_json_form, trim_quotes};
use crate::encode::{self, sha256_hex};
use crate::fsck::{self, CacheEntry, cache_entries};
use crate::inherit::{self, Copied, copy_entries, copy_option};
use crate::json::{self, key_pointer, keys_at, pretty, text_at, write_array, write_object, write_text};
use crate::network::{add_word, copy_strings, words_of};
use crate::num::{self, parse_signed, parse_unsigned, signed_decimal_text};
use crate::order::{self, sort_unique};
use crate::reference;
use crate::registry;
use crate::store::{self, ImageRecord};
use crate::table::{self, Table};
use crate::text::{self, chars_of, cut_char, find_text, has_prefix, has_suffix, has_text, join_text, lower_ascii, one_char, same, same_chars, str_cut, str_starts, str_strip_prefix, str_trim, string_of, strip_ends_text, strip_prefix_text, strip_starts_text, trim_text, white_space, words_text};
use crate::unicode::{self, quote};

verus! {

// ---------------------------------------------------------------- the configuration

/// What the image will run with, as the steps so far leave it.
#[derive(Debug, Clone, Default)]
pub struct ConfigState {
    pub env: Vec<String>,
    pub cmd: Option<Vec<String>>,
    pub entrypoint: Option<Vec<String>>,
    pub workdir: String,
    pub user: String,
    pub labels: Table<String>,
    pub exposed_ports: Table<String>,
    pub volumes: Table<String>,
    pub stop_signal: String,
    pub healthcheck: Option<HealthConfig>,
    /// The shell that commands run in, where `SHELL` has named one.
    pub shell: Option<Vec<String>>,
    /// The variables that `ARG` has declared: they last as long as their stage.
    pub args: Vec<String>,
}

#[verifier::ext_equal]
pub ghost struct HealthView {
    pub test: Seq<Seq<char>>,
    pub interval: Option<i64>,
    pub timeout: Option<i64>,
    pub retries: Option<i64>,
    pub start_period: Option<i64>,
    pub start_interval: Option<i64>,
}

impl View for HealthConfig {
    type V = HealthView;

    open spec fn view(&self) -> HealthView {
        HealthView {
            test: text::texts(self.Test@),
            interval: self.Interval,
            timeout: self.Timeout,
            retries: self.Retries,
            start_period: self.StartPeriod,
            start_interval: self.StartInterval,
        }
    }
}

#[verifier::ext_equal]
pub ghost struct ConfigView {
    pub env: Seq<Seq<char>>,
    pub cmd: Option<Seq<Seq<char>>>,
    pub entrypoint: Option<Seq<Seq<char>>>,
    pub workdir: Seq<char>,
    pub user: Seq<char>,
    pub labels: Seq<(Seq<char>, Seq<char>)>,
    pub exposed_ports: Seq<(Seq<char>, Seq<char>)>,
    pub volumes: Seq<(Seq<char>, Seq<char>)>,
    pub stop_signal: Seq<char>,
    pub healthcheck: Option<HealthView>,
    pub shell: Option<Seq<Seq<char>>>,
    pub args: Seq<Seq<char>>,
}

impl View for ConfigState {
    type V = ConfigView;

    open spec fn view(&self) -> ConfigView {
        ConfigView {
            env: text::texts(self.env@),
            cmd: json::opt_texts(self.cmd),
            entrypoint: json::opt_texts(self.entrypoint),
            workdir: self.workdir@,
            user: self.user@,
            labels: self.labels@,
            exposed_ports: self.exposed_ports@,
            volumes: self.volumes@,
            stop_signal: self.stop_signal@,
            healthcheck: inherit::seen(self.healthcheck),
            shell: json::opt_texts(self.shell),
            args: text::texts(self.args@),
        }
    }
}

/// The variables of an environment.
pub open spec fn env_pairs_of(env: Seq<Seq<char>>) -> Seq<(Seq<char>, Seq<char>)>
    decreases env.len(),
{
    if env.len() == 0 {
        Seq::empty()
    } else {
        match text::split_once(env.last(), seq!['=']) {
            Some(p) => env_pairs_of(env.drop_last()).push(p),
            None => env_pairs_of(env.drop_last()),
        }
    }
}

/// The variables that a step sees: those of the environment, and behind them those that
/// `ARG` has declared.
pub open spec fn variables(c: ConfigView) -> Seq<(Seq<char>, Seq<char>)> {
    env_pairs_of(c.env) + env_pairs_of(c.args)
}

/// Adds the variables of an environment.
pub fn add_pairs(out: &mut Vec<(String, String)>, env: &Vec<String>)
    ensures
        dockerfile::pair_texts(final(out)@) == dockerfile::pair_texts(old(out)@) + env_pairs_of(
            text::texts(env@),
        ),
{
    let ghost first = dockerfile::pair_texts(out@);
    let ghost ev = text::texts(env@);
    let mut i: usize = 0;
    assert(ev.take(0) =~= Seq::empty());
    assert(first + Seq::<(Seq<char>, Seq<char>)>::empty() =~= first);
    while i < env.len()
        invariant
            i <= env.len(),
            ev == text::texts(env@),
            dockerfile::pair_texts(out@) =~= first + env_pairs_of(ev.take(i as int)),
        decreases env.len() - i,
    {
        assert(ev.take(i as int + 1).drop_last() =~= ev.take(i as int));
        assert(ev[i as int] == env@[i as int]@);
        if let Some((k, v)) = str_cut(env[i].as_str(), '=') {
            let ghost before = out@;
            out.push((k, v));
            assert(dockerfile::pair_texts(out@) =~= dockerfile::pair_texts(before).push((k@, v@)));
        }
        i += 1;
    }
    assert(ev.take(ev.len() as int) =~= ev);
}

impl ConfigState {
    /// The variables that a step sees.
    pub fn env_pairs(&self) -> (r: Vec<(String, String)>)
        ensures
            dockerfile::pair_texts(r@) == variables(self@),
    {
        let mut out: Vec<(String, String)> = Vec::new();
        assert(dockerfile::pair_texts(out@) =~= Seq::empty());
        add_pairs(&mut out, &self.env);
        add_pairs(&mut out, &self.args);
        assert(dockerfile::pair_texts(out@) =~= variables(self@));
        out
    }
}

// ---------------------------------------------------------------- variables

/// The environment without a variable.
pub open spec fn env_without(env: Seq<Seq<char>>, k: Seq<char>) -> Seq<Seq<char>>
    decreases env.len(),
{
    if env.len() == 0 {
        Seq::empty()
    } else if text::starts_with(env.last(), k + "="@) {
        env_without(env.drop_last(), k)
    } else {
        env_without(env.drop_last(), k).push(env.last())
    }
}

/// The environment with a variable set, at its end.
pub open spec fn env_with(env: Seq<Seq<char>>, k: Seq<char>, v: Seq<char>) -> Seq<Seq<char>> {
    env_without(env, k).push(k + "="@ + v)
}

/// What `ENV` sets: `key=value`, or a key and a value behind white space.
pub open spec fn env_setting(args: Seq<char>) -> Option<(Seq<char>, Seq<char>)> {
    let t = text::trim(args);
    match text::split_once(t, seq!['=']) {
        Some((k, v)) => Some((text::trim(k), dockerfile::unquoted(text::trim(v)))),
        None => {
            let i = text::word_end(t, 0);
            if 0 <= i < t.len() {
                Some((text::trim(t.take(i)), dockerfile::unquoted(text::trim(t.skip(i + 1)))))
            } else {
                None
            }
        },
    }
}

/// What `ARG` declares: a name, and the value that it has by default.
pub open spec fn arg_setting(args: Seq<char>) -> (Seq<char>, Option<Seq<char>>) {
    let t = text::trim(args);
    match text::split_once(t, seq!['=']) {
        Some((k, v)) => (text::trim(k), Some(dockerfile::unquoted(text::trim(v)))),
        None => (t, None),
    }
}

/// The declared variables with one more: it has the value that was given for it, or its
/// own default; one with neither stays unset.
pub open spec fn args_applied(
    declared: Seq<Seq<char>>,
    args: Seq<char>,
    given: Seq<(Seq<char>, Seq<char>)>,
) -> Seq<Seq<char>> {
    let (k, default) = arg_setting(args);
    match dockerfile::lookup(given, k) {
        Some(v) => env_with(declared, k, v),
        None => match default {
            Some(v) => env_with(declared, k, v),
            None => declared,
        },
    }
}

pub open spec fn env_applied(env: Seq<Seq<char>>, args: Seq<char>) -> Seq<Seq<char>> {
    match env_setting(args) {
        Some((k, v)) => env_with(env, k, v),
        None => env,
    }
}

/// Sets a variable.
pub fn set_env(env: &Vec<String>, k: &str, v: &str) -> (r: Vec<String>)
    ensures
        text::texts(r@) == env_with(text::texts(env@), k@, v@),
{
    let ghost ev = text::texts(env@);
    let mut head: String = k.to_owned();
    head.append("=");
    let mut out: Vec<String> = Vec::new();
    let mut i: usize = 0;
    assert(text::texts(out@) =~= Seq::empty());
    assert(ev.take(0) =~= Seq::empty());
    while i < env.len()
        invariant
            i <= env.len(),
            ev == text::texts(env@),
            head@ == k@ + "="@,
            text::texts(out@) == env_without(ev.take(i as int), k@),
        decreases env.len() - i,
    {
        assert(ev.take(i as int + 1).drop_last() =~= ev.take(i as int));
        assert(ev[i as int] == env@[i as int]@);
        if !str_starts(env[i].as_str(), head.as_str()) {
            add_word(&mut out, env[i].as_str());
        }
        i += 1;
    }
    assert(ev.take(ev.len() as int) =~= ev);
    head.append(v);
    add_word(&mut out, head.as_str());
    out
}

fn trimmed(s: &[char]) -> (r: String)
    ensures
        r@ == text::trim(s@),
{
    string_of(trim_text(s))
}

fn trimmed_value(s: &[char]) -> (r: String)
    ensures
        r@ == dockerfile::unquoted(text::trim(s@)),
{
    trim_quotes(trim_text(s))
}

fn read_env(args: &str) -> (r: Option<(String, String)>)
    ensures
        match r {
            Some((k, v)) => env_setting(args@) == Some((k@, v@)),
            None => env_setting(args@) is None,
        },
{
    let cs: Vec<char> = chars_of(args);
    let t: &[char] = trim_text(cs.as_slice());
    if let Some((k, v)) = cut_char(t, '=') {
        return Some((trimmed(k), trimmed_value(v)));
    }
    let n: usize = t.len();
    let mut i: usize = 0;
    while i < n && !white_space(t[i])
        invariant
            i <= n,
            n == t@.len(),
            text::word_end(t@, 0) == text::word_end(t@, i as int),
        decreases n - i,
    {
        i += 1;
    }
    if i >= n {
        return None;
    }
    let k: &[char] = slice_subrange(t, 0, i);
    let v: &[char] = slice_subrange(t, i + 1, n);
    assert(k@ =~= t@.take(i as int));
    assert(v@ =~= t@.skip(i as int + 1));
    Some((trimmed(k), trimmed_value(v)))
}

// ---------------------------------------------------------------- keys and values

/// The place of the first word at or behind `i` that closes a quotation, or the end.
pub open spec fn closing(ws: Seq<Seq<char>>, i: int) -> int
    decreases ws.len() - i,
{
    if i < 0 || i >= ws.len() || text::ends_with(ws[i], seq!['"']) {
        i
    } else {
        closing(ws, i + 1)
    }
}

/// Behind a value that starts in the word at `i`.
pub open spec fn value_end(ws: Seq<Seq<char>>, v: Seq<char>, i: int) -> int {
    if text::starts_with(v, seq!['"']) && !text::ends_with(v, seq!['"']) {
        let c = closing(ws, i + 1);
        if c < ws.len() {
            c + 1
        } else {
            ws.len() as int
        }
    } else {
        i + 1
    }
}

/// The keys and values among the words from `i` on; a value in quotes may go on over
/// several words.
pub open spec fn key_values_from(ws: Seq<Seq<char>>, i: int) -> Seq<(Seq<char>, Seq<char>)>
    decreases ws.len() - i,
{
    if i < 0 || i >= ws.len() {
        Seq::empty()
    } else {
        match text::split_once(ws[i], seq!['=']) {
            None => key_values_from(ws, i + 1),
            Some((k, v)) => {
                let e = value_end(ws, v, i);
                if i < e <= ws.len() {
                    seq![
                        (
                            k,
                            dockerfile::unquoted(
                                text::join(seq![v] + ws.subrange(i + 1, e), " "@),
                            ),
                        ),
                    ] + key_values_from(ws, e)
                } else {
                    Seq::empty()
                }
            },
        }
    }
}

pub open spec fn key_values(args: Seq<char>) -> Seq<(Seq<char>, Seq<char>)> {
    key_values_from(text::words(args), 0)
}

proof fn lemma_closing(ws: Seq<Seq<char>>, i: int)
    requires
        0 <= i <= ws.len(),
    ensures
        i <= closing(ws, i) <= ws.len(),
    decreases ws.len() - i,
{
    if i < ws.len() && !text::ends_with(ws[i], seq!['"']) {
        lemma_closing(ws, i + 1);
    }
}

fn str_ends(s: &str, c: char) -> (r: bool)
    ensures
        r == text::ends_with(s@, seq![c]),
{
    has_suffix(chars_of(s).as_slice(), one_char(c).as_slice())
}

fn find_value_end(ws: &Vec<String>, v: &str, i: usize) -> (r: usize)
    requires
        i < ws@.len(),
    ensures
        r == value_end(text::texts(ws@), v@, i as int),
        i < r <= ws@.len(),
{
    let ghost wv = text::texts(ws@);
    let _n: usize = ws.len();
    if !has_prefix(chars_of(v).as_slice(), one_char('"').as_slice()) || str_ends(v, '"') {
        return i + 1;
    }
    let mut j: usize = i + 1;
    while j < ws.len()
        invariant
            i < j <= ws@.len(),
            wv == text::texts(ws@),
            closing(wv, i as int + 1) == closing(wv, j as int),
            text::starts_with(v@, seq!['"']),
            !text::ends_with(v@, seq!['"']),
        decreases ws.len() - j,
    {
        assert(wv[j as int] == ws@[j as int]@);
        if str_ends(ws[j].as_str(), '"') {
            return j + 1;
        }
        j += 1;
    }
    j
}

/// Reads keys and values.
pub fn parse_key_values(args: &str) -> (r: Vec<(String, String)>)
    ensures
        dockerfile::pair_texts(r@) == key_values(args@),
{
    let ws: Vec<String> = words_text(chars_of(args).as_slice());
    let ghost wv = text::texts(ws@);
    let mut out: Vec<(String, String)> = Vec::new();
    let mut i: usize = 0;
    assert(dockerfile::pair_texts(out@) + key_values_from(wv, 0) =~= key_values_from(wv, 0));
    while i < ws.len()
        invariant
            i <= ws.len(),
            wv == text::texts(ws@),
            key_values_from(wv, 0) == dockerfile::pair_texts(out@) + key_values_from(
                wv,
                i as int,
            ),
        decreases ws.len() - i,
    {
        assert(wv[i as int] == ws@[i as int]@);
        match str_cut(ws[i].as_str(), '=') {
            None => {
                i += 1;
            },
            Some((k, v)) => {
                let e: usize = find_value_end(&ws, v.as_str(), i);
                let ghost vv = v@;
                let mut parts: Vec<String> = Vec::new();
                parts.push(v);
                let mut j: usize = i + 1;
                assert(text::texts(parts@) =~= seq![vv] + wv.subrange(i as int + 1, j as int));
                while j < e
                    invariant
                        i < j <= e <= ws.len(),
                        wv == text::texts(ws@),
                        text::texts(parts@) == seq![vv] + wv.subrange(i as int + 1, j as int),
                    decreases e - j,
                {
                    add_word(&mut parts, ws[j].as_str());
                    assert(wv.subrange(i as int + 1, j as int + 1) =~= wv.subrange(
                        i as int + 1,
                        j as int,
                    ).push(wv[j as int]));
                    assert(text::texts(parts@) =~= seq![vv] + wv.subrange(
                        i as int + 1,
                        j as int + 1,
                    ));
                    j += 1;
                }
                let whole: String = join_text(&parts, " ");
                let value: String = trim_quotes(chars_of(whole.as_str()).as_slice());
                let ghost before = out@;
                let ghost p = (k@, value@);
                out.push((k, value));
                assert(dockerfile::pair_texts(out@) =~= dockerfile::pair_texts(before).push(p));
                assert(dockerfile::pair_texts(before) + (seq![p] + key_values_from(
                    wv,
                    e as int,
                )) =~= dockerfile::pair_texts(out@) + key_values_from(wv, e as int));
                i = e;
            },
        }
    }
    assert(dockerfile::pair_texts(out@) + key_values_from(wv, i as int)
        =~= dockerfile::pair_texts(out@));
    out
}

/// The strings of a JSON array, or the words.
pub open spec fn json_or_words(args: Seq<char>) -> Seq<Seq<char>> {
    match dockerfile::json_form(args) {
        Some(v) => v,
        None => text::words(args),
    }
}

pub fn parse_json_or_words(args: &str) -> (r: Vec<String>)
    ensures
        text::texts(r@) == json_or_words(args@),
{
    match parse_json_form(args) {
        Some(v) => v,
        None => words_text(chars_of(args).as_slice()),
    }
}

// ---------------------------------------------------------------- tables

/// The place of the first entry under a key at or behind `i`, or the end.
pub open spec fn spot(t: Seq<(Seq<char>, Seq<char>)>, k: Seq<char>, i: int) -> int
    decreases t.len() - i,
{
    if i < 0 || i >= t.len() || t[i].0 == k {
        i
    } else {
        spot(t, k, i + 1)
    }
}

/// A table with a value under a key, in place of what stood there.
pub open spec fn put(t: Seq<(Seq<char>, Seq<char>)>, k: Seq<char>, v: Seq<char>) -> Seq<
    (Seq<char>, Seq<char>),
> {
    let p = spot(t, k, 0);
    if 0 <= p < t.len() {
        t.update(p, (k, v))
    } else {
        t.push((k, v))
    }
}

/// A table with the first `n` pairs put into it.
pub open spec fn put_all(
    t: Seq<(Seq<char>, Seq<char>)>,
    pairs: Seq<(Seq<char>, Seq<char>)>,
    n: int,
) -> Seq<(Seq<char>, Seq<char>)>
    decreases n,
{
    if n <= 0 {
        t
    } else {
        put(put_all(t, pairs, n - 1), pairs[n - 1].0, pairs[n - 1].1)
    }
}

proof fn lemma_spot(e: Seq<(String, String)>, v: Seq<(Seq<char>, Seq<char>)>, k: Seq<char>, i: int)
    requires
        e.len() == v.len(),
        forall|j: int| 0 <= j < e.len() ==> (#[trigger] e[j]).0@ == v[j].0,
        0 <= i <= e.len(),
    ensures
        table::place_from(e, k, i) == spot(v, k, i),
        i <= spot(v, k, i) <= v.len(),
        spot(v, k, i) < v.len() ==> v[spot(v, k, i)].0 == k,
    decreases e.len() - i,
{
    if i < e.len() {
        assert(e[i].0@ == v[i].0);
        if e[i].0@ != k {
            lemma_spot(e, v, k, i + 1);
        }
    }
}

fn put_text(t: &mut Table<String>, k: &str, v: &str)
    ensures
        final(t)@ == put(old(t)@, k@, v@),
{
    let ghost e = t.entries@;
    let ghost before = t@;
    proof {
        assert forall|j: int| 0 <= j < e.len() implies (#[trigger] e[j]).0@ == before[j].0 by {
            assert(before[j] == (e[j].0@, e[j].1@));
        }
        lemma_spot(e, before, k@, 0);
    }
    t.insert(k.to_owned(), v.to_owned());
    assert(t@ =~= put(before, k@, v@));
}

fn put_pairs(t: &mut Table<String>, pairs: &Vec<(String, String)>)
    ensures
        final(t)@ == put_all(old(t)@, dockerfile::pair_texts(pairs@), pairs@.len() as int),
{
    let ghost t0 = t@;
    let ghost pv = dockerfile::pair_texts(pairs@);
    let mut i: usize = 0;
    while i < pairs.len()
        invariant
            i <= pairs.len(),
            pv == dockerfile::pair_texts(pairs@),
            t@ == put_all(t0, pv, i as int),
        decreases pairs.len() - i,
    {
        assert(pv[i as int] == (pairs@[i as int].0@, pairs@[i as int].1@));
        put_text(t, pairs[i].0.as_str(), pairs[i].1.as_str());
        i += 1;
    }
}

/// Keys, each with nothing under it.
pub open spec fn bare_keys(ks: Seq<Seq<char>>) -> Seq<(Seq<char>, Seq<char>)> {
    Seq::new(ks.len(), |i: int| (ks[i], "{}"@))
}

fn put_keys(t: &mut Table<String>, ks: &Vec<String>)
    ensures
        final(t)@ == put_all(old(t)@, bare_keys(text::texts(ks@)), ks@.len() as int),
{
    let ghost t0 = t@;
    let ghost kv = text::texts(ks@);
    let mut i: usize = 0;
    while i < ks.len()
        invariant
            i <= ks.len(),
            kv == text::texts(ks@),
            t@ == put_all(t0, bare_keys(kv), i as int),
        decreases ks.len() - i,
    {
        assert(kv[i as int] == ks@[i as int]@);
        assert(bare_keys(kv)[i as int] == (ks@[i as int]@, "{}"@));
        put_text(t, ks[i].as_str(), "{}");
        i += 1;
    }
}

/// Ports as they are exposed: TCP where no protocol is given.
pub open spec fn port_keys(ws: Seq<Seq<char>>) -> Seq<Seq<char>> {
    Seq::new(
        ws.len(),
        |i: int|
            if text::contains(ws[i], seq!['/']) {
                ws[i]
            } else {
                ws[i] + "/tcp"@
            },
    )
}

fn read_ports(args: &str) -> (r: Vec<String>)
    ensures
        text::texts(r@) == port_keys(text::words(args@)),
{
    let ws: Vec<String> = words_text(chars_of(args).as_slice());
    let ghost wv = text::texts(ws@);
    let ghost pv = port_keys(wv);
    let mut out: Vec<String> = Vec::new();
    let mut i: usize = 0;
    while i < ws.len()
        invariant
            i <= ws.len(),
            wv == text::texts(ws@),
            pv == port_keys(wv),
            text::texts(out@) =~= pv.take(i as int),
        decreases ws.len() - i,
    {
        assert(wv[i as int] == ws@[i as int]@);
        let mut p: String = ws[i].clone();
        if !has_text(chars_of(p.as_str()).as_slice(), one_char('/').as_slice()) {
            p.append("/tcp");
        }
        add_word(&mut out, p.as_str());
        assert(pv.take(i as int + 1) =~= pv.take(i as int).push(pv[i as int]));
        i += 1;
    }
    assert(pv.take(pv.len() as int) =~= pv);
    out
}

// ---------------------------------------------------------------- health checks

/// Seconds, as a flag gives them, in nanoseconds: the nearest number that an `i64` holds.
pub open spec fn nanos_of(v: Seq<char>) -> i64 {
    match num::signed(text::strip_ends(v, seq!['s'])) {
        Some(n) => if n * 1_000_000_000 > i64::MAX {
            i64::MAX
        } else if n * 1_000_000_000 < i64::MIN {
            i64::MIN
        } else {
            (n * 1_000_000_000) as i64
        },
        None => 0,
    }
}

/// The number that a flag gives, where it is one.
pub open spec fn count_of(v: Seq<char>) -> Option<i64> {
    match num::signed(v) {
        Some(n) => Some(n as i64),
        None => None,
    }
}

pub open spec fn no_health() -> HealthView {
    HealthView {
        test: Seq::empty(),
        interval: None,
        timeout: None,
        retries: None,
        start_period: None,
        start_interval: None,
    }
}

/// A health check with one flag more.
pub open spec fn with_flag(h: HealthView, part: Seq<char>) -> HealthView {
    match text::strip_prefix(part, "--"@) {
        None => h,
        Some(rest) => match text::split_once(rest, seq!['=']) {
            None => h,
            Some((k, v)) => if k == "interval"@ {
                HealthView { interval: Some(nanos_of(v)), ..h }
            } else if k == "timeout"@ {
                HealthView { timeout: Some(nanos_of(v)), ..h }
            } else if k == "retries"@ {
                HealthView { retries: count_of(v), ..h }
            } else if k == "start-period"@ {
                HealthView { start_period: Some(nanos_of(v)), ..h }
            } else {
                h
            },
        },
    }
}

pub open spec fn flags_to(ws: Seq<Seq<char>>, n: int) -> HealthView
    decreases n,
{
    if n <= 0 {
        no_health()
    } else {
        with_flag(flags_to(ws, n - 1), ws[n - 1])
    }
}

/// What a health check runs: a JSON array as it is, anything else by the shell.
pub open spec fn health_test(cmd: Seq<char>) -> Seq<Seq<char>> {
    match dockerfile::json_form(cmd) {
        Some(v) => v,
        None => seq!["CMD-SHELL"@, cmd],
    }
}

/// The health check that `HEALTHCHECK` asks for.
pub open spec fn health_of(args: Seq<char>) -> Option<HealthView> {
    if text::starts_with(text::trim(args), "NONE"@) {
        Some(HealthView { test: seq!["NONE"@], ..no_health() })
    } else {
        match text::find(args, "CMD"@) {
            None => None,
            Some(i) => if 0 <= i <= args.len() {
                let ws = text::words(args.take(i));
                match text::strip_prefix(text::trim(args.skip(i)), "CMD"@) {
                    None => None,
                    Some(cmd) => Some(
                        HealthView {
                            test: health_test(text::trim(cmd)),
                            ..flags_to(ws, ws.len() as int)
                        },
                    ),
                }
            } else {
                None
            },
        }
    }
}

fn read_nanos(v: &str) -> (r: i64)
    ensures
        r == nanos_of(v@),
{
    let cs: Vec<char> = chars_of(v);
    match parse_signed(strip_ends_text(cs.as_slice(), one_char('s').as_slice())) {
        Some(n) => {
            let m: i128 = n as i128 * 1_000_000_000;
            if m > i64::MAX as i128 {
                i64::MAX
            } else if m < i64::MIN as i128 {
                i64::MIN
            } else {
                m as i64
            }
        },
        None => 0,
    }
}

fn add_flag(h: &mut HealthConfig, part: &str)
    ensures
        final(h)@ == with_flag(old(h)@, part@),
{
    let rest: String = match str_strip_prefix(part, "--") {
        Some(x) => x,
        None => {
            return;
        },
    };
    let (k, v): (String, String) = match str_cut(rest.as_str(), '=') {
        Some(p) => p,
        None => {
            return;
        },
    };
    if same(k.as_str(), "interval") {
        h.Interval = Some(read_nanos(v.as_str()));
    } else if same(k.as_str(), "timeout") {
        h.Timeout = Some(read_nanos(v.as_str()));
    } else if same(k.as_str(), "retries") {
        h.Retries = parse_signed(chars_of(v.as_str()).as_slice());
    } else if same(k.as_str(), "start-period") {
        h.StartPeriod = Some(read_nanos(v.as_str()));
    }
}

fn empty_health() -> (r: HealthConfig)
    ensures
        r@ == no_health(),
{
    let r: HealthConfig = HealthConfig {
        Test: Vec::new(),
        Interval: None,
        Timeout: None,
        Retries: None,
        StartPeriod: None,
        StartInterval: None,
    };
    assert(r@ =~= no_health());
    r
}

/// Reads a health check.
pub fn parse_healthcheck(args: &str) -> (r: Option<HealthConfig>)
    ensures
        inherit::seen(r) == health_of(args@),
{
    let cs: Vec<char> = chars_of(args);
    let mut h: HealthConfig = empty_health();
    if has_prefix(trim_text(cs.as_slice()), chars_of("NONE").as_slice()) {
        h.Test.push("NONE".to_owned());
        assert(text::texts(h.Test@) =~= seq!["NONE"@]);
        return Some(h);
    }
    let i: usize = match find_text(cs.as_slice(), chars_of("CMD").as_slice()) {
        Some(i) => i,
        None => {
            return None;
        },
    };
    proof {
        text::lemma_find_from(args@, "CMD"@, 0);
    }
    let head: &[char] = slice_subrange(cs.as_slice(), 0, i);
    let tail: &[char] = slice_subrange(cs.as_slice(), i, cs.len());
    assert(head@ =~= args@.take(i as int));
    assert(tail@ =~= args@.skip(i as int));
    let ws: Vec<String> = words_text(head);
    let ghost wv = text::texts(ws@);
    let mut j: usize = 0;
    while j < ws.len()
        invariant
            j <= ws.len(),
            wv == text::texts(ws@),
            h@ == flags_to(wv, j as int),
        decreases ws.len() - j,
    {
        assert(wv[j as int] == ws@[j as int]@);
        add_flag(&mut h, ws[j].as_str());
        j += 1;
    }
    let cmd: &[char] = match strip_prefix_text(trim_text(tail), chars_of("CMD").as_slice()) {
        Some(c) => c,
        None => {
            return None;
        },
    };
    let c: String = string_of(trim_text(cmd));
    h.Test = match parse_json_form(c.as_str()) {
        Some(v) => v,
        None => words_of(&["CMD-SHELL", c.as_str()]),
    };
    assert(text::texts(h.Test@) =~= health_test(c@));
    assert(wv.len() == ws@.len());
    Some(h)
}

// ---------------------------------------------------------------- steps

/// The directory that commands run in, once `WORKDIR` has named one: from the root, or
/// below the one before.
pub open spec fn workdir_after(before: Seq<char>, dir: Seq<char>) -> Seq<char> {
    if text::starts_with(dir, seq!['/']) {
        dir
    } else if before.len() == 0 {
        "/"@ + dir
    } else {
        text::strip_ends(before, seq!['/']) + "/"@ + dir
    }
}

/// A command in JSON, or what the shell is given.
pub open spec fn shell_form(
    json_args: Option<Seq<Seq<char>>>,
    args: Seq<char>,
    shell: Option<Seq<Seq<char>>>,
) -> Seq<Seq<char>> {
    match json_args {
        Some(v) => v,
        None => match shell {
            Some(s) => s.push(args),
            None => seq!["/bin/sh"@, "-c"@, args],
        },
    }
}

/// Flags as they stand before what they belong to.
pub open spec fn flag_words(flags: Seq<(Seq<char>, Seq<char>)>) -> Seq<Seq<char>> {
    Seq::new(flags.len(), |i: int| "--"@ + flags[i].0 + "="@ + flags[i].1)
}

/// The arguments of an instruction behind its flags.
pub open spec fn flagged_args(inst: InstructionView) -> Seq<char> {
    text::join(flag_words(inst.flags).push(inst.args), " "@)
}

/// The configuration behind a step, where `given` are the values that the build was given
/// for its arguments. What a step runs or copies changes layers and not the configuration.
pub open spec fn next_config(
    c: ConfigView,
    inst: InstructionView,
    given: Seq<(Seq<char>, Seq<char>)>,
) -> ConfigView {
    let args = dockerfile::expanded(inst.args, variables(c));
    let kv = key_values(args);
    let ports = bare_keys(port_keys(text::words(inst.args)));
    let volumes = bare_keys(json_or_words(inst.args));
    if inst.verb == "ENV"@ {
        ConfigView { env: env_applied(c.env, args), ..c }
    } else if inst.verb == "ARG"@ {
        ConfigView { args: args_applied(c.args, args, given), ..c }
    } else if inst.verb == "SHELL"@ {
        ConfigView { shell: Some(json_or_words(inst.args)), ..c }
    } else if inst.verb == "WORKDIR"@ {
        ConfigView { workdir: workdir_after(c.workdir, args), ..c }
    } else if inst.verb == "USER"@ {
        ConfigView { user: args, ..c }
    } else if inst.verb == "LABEL"@ {
        ConfigView { labels: put_all(c.labels, kv, kv.len() as int), ..c }
    } else if inst.verb == "EXPOSE"@ {
        ConfigView { exposed_ports: put_all(c.exposed_ports, ports, ports.len() as int), ..c }
    } else if inst.verb == "VOLUME"@ {
        ConfigView { volumes: put_all(c.volumes, volumes, volumes.len() as int), ..c }
    } else if inst.verb == "STOPSIGNAL"@ {
        ConfigView { stop_signal: args, ..c }
    } else if inst.verb == "CMD"@ {
        ConfigView { cmd: Some(shell_form(inst.json_args, args, c.shell)), ..c }
    } else if inst.verb == "ENTRYPOINT"@ {
        ConfigView { entrypoint: Some(shell_form(inst.json_args, args, c.shell)), ..c }
    } else if inst.verb == "HEALTHCHECK"@ {
        ConfigView { healthcheck: health_of(flagged_args(inst)), ..c }
    } else {
        c
    }
}

fn in_shell(
    json_args: &Option<Vec<String>>,
    args: &str,
    shell: &Option<Vec<String>>,
) -> (r: Vec<String>)
    ensures
        text::texts(r@) == shell_form(
            json::opt_texts(*json_args),
            args@,
            json::opt_texts(*shell),
        ),
{
    match json_args {
        Some(v) => copy_strings(v),
        None => {
            if let Some(s) = shell {
                let mut r: Vec<String> = copy_strings(s);
                add_word(&mut r, args);
                return r;
            }
            let r: Vec<String> = words_of(&["/bin/sh", "-c", args]);
            assert(text::texts(r@) =~= seq!["/bin/sh"@, "-c"@, args@]);
            r
        },
    }
}

fn move_to(before: &str, dir: &str) -> (r: String)
    ensures
        r@ == workdir_after(before@, dir@),
{
    let d: Vec<char> = chars_of(dir);
    if has_prefix(d.as_slice(), one_char('/').as_slice()) {
        return dir.to_owned();
    }
    let mut s: String = if before.is_empty() {
        String::new()
    } else {
        string_of(strip_ends_text(chars_of(before).as_slice(), one_char('/').as_slice()))
    };
    let ghost s0 = s@;
    s.append("/");
    s.append(dir);
    proof {
        if before@.len() == 0 {
            assert(s0 + "/"@ =~= "/"@);
        }
    }
    s
}

fn with_flags(inst: &Instruction) -> (r: String)
    ensures
        r@ == flagged_args(inst@),
{
    let ghost fv = flag_words(inst@.flags);
    let mut parts: Vec<String> = Vec::new();
    let mut i: usize = 0;
    while i < inst.flags.len()
        invariant
            i <= inst.flags.len(),
            fv == flag_words(inst@.flags),
            text::texts(parts@) =~= fv.take(i as int),
        decreases inst.flags.len() - i,
    {
        let mut s: String = "--".to_owned();
        s.append(inst.flags[i].0.as_str());
        s.append("=");
        s.append(inst.flags[i].1.as_str());
        add_word(&mut parts, s.as_str());
        assert(fv.take(i as int + 1) =~= fv.take(i as int).push(fv[i as int]));
        i += 1;
    }
    assert(fv.take(fv.len() as int) =~= fv);
    add_word(&mut parts, inst.args.as_str());
    join_text(&parts, " ")
}

/// The declared variables with one more.
pub fn declare(declared: &Vec<String>, args: &str, given: &Vec<(String, String)>) -> (r: Vec<String>)
    ensures
        text::texts(r@) == args_applied(
            text::texts(declared@),
            args@,
            dockerfile::pair_texts(given@),
        ),
{
    let t: String = str_trim(args);
    let (k, default): (String, Option<String>) = match str_cut(t.as_str(), '=') {
        Some((k, v)) => {
            let vc: Vec<char> = chars_of(v.as_str());
            (str_trim(k.as_str()), Some(trim_quotes(trim_text(vc.as_slice()))))
        },
        None => (t, None),
    };
    match flag_value(given, k.as_str()) {
        Some(v) => set_env(declared, k.as_str(), v.as_str()),
        None => match default {
            Some(v) => set_env(declared, k.as_str(), v.as_str()),
            None => copy_strings(declared),
        },
    }
}

/// Takes a step that changes the configuration.
pub fn apply_step(c: &mut ConfigState, inst: &Instruction, given: &Vec<(String, String)>)
    ensures
        final(c)@ == next_config(old(c)@, inst@, dockerfile::pair_texts(given@)),
{
    let ghost c0 = c@;
    let env: Vec<(String, String)> = c.env_pairs();
    let args: String = expand_vars(inst.args.as_str(), env.as_slice());
    let verb: &str = inst.verb.as_str();
    if same(verb, "ENV") {
        if let Some((k, v)) = read_env(args.as_str()) {
            c.env = set_env(&c.env, k.as_str(), v.as_str());
        }
    } else if same(verb, "ARG") {
        c.args = declare(&c.args, args.as_str(), given);
    } else if same(verb, "SHELL") {
        c.shell = Some(parse_json_or_words(inst.args.as_str()));
    } else if same(verb, "WORKDIR") {
        c.workdir = move_to(c.workdir.as_str(), args.as_str());
    } else if same(verb, "USER") {
        c.user = args;
    } else if same(verb, "LABEL") {
        let kv: Vec<(String, String)> = parse_key_values(args.as_str());
        assert(dockerfile::pair_texts(kv@).len() == kv@.len());
        put_pairs(&mut c.labels, &kv);
    } else if same(verb, "EXPOSE") {
        let ports: Vec<String> = read_ports(inst.args.as_str());
        assert(text::texts(ports@).len() == ports@.len());
        put_keys(&mut c.exposed_ports, &ports);
    } else if same(verb, "VOLUME") {
        let volumes: Vec<String> = parse_json_or_words(inst.args.as_str());
        assert(text::texts(volumes@).len() == volumes@.len());
        put_keys(&mut c.volumes, &volumes);
    } else if same(verb, "STOPSIGNAL") {
        c.stop_signal = args;
    } else if same(verb, "CMD") {
        c.cmd = Some(in_shell(&inst.json_args, args.as_str(), &c.shell));
    } else if same(verb, "ENTRYPOINT") {
        c.entrypoint = Some(in_shell(&inst.json_args, args.as_str(), &c.shell));
    } else if same(verb, "HEALTHCHECK") {
        c.healthcheck = parse_healthcheck(with_flags(inst).as_str());
    }
    assert(c@ =~= next_config(c0, inst@, dockerfile::pair_texts(given@)));
}

/// Text that the documents of an instruction write to standard input, over the first `n`.
pub open spec fn stdin_to(docs: Seq<(Seq<char>, Seq<char>)>, n: int) -> Seq<char>
    decreases n,
{
    if n <= 0 {
        Seq::empty()
    } else if docs[n - 1].0.len() == 0 {
        stdin_to(docs, n - 1) + docs[n - 1].1
    } else {
        stdin_to(docs, n - 1)
    }
}

/// The words of the shell that a command runs in: what `SHELL` named, or the variable of
/// that name, or the plain shell.
pub open spec fn shell_words(
    env: Seq<(Seq<char>, Seq<char>)>,
    shell: Option<Seq<Seq<char>>>,
) -> Seq<Seq<char>> {
    match shell {
        Some(s) => s,
        None => match dockerfile::lookup(env, "SHELL"@) {
            Some(s) => text::words(s),
            None => text::words("/bin/sh -c"@),
        },
    }
}

/// The command that `RUN` runs: in JSON as it is; otherwise the shell's words, then the
/// documents that it is given or the command itself.
pub open spec fn argv_of(
    inst: InstructionView,
    env: Seq<(Seq<char>, Seq<char>)>,
    shell: Option<Seq<Seq<char>>>,
) -> Seq<Seq<char>> {
    match inst.json_args {
        Some(v) => v,
        None => {
            let docs = stdin_to(inst.heredocs, inst.heredocs.len() as int);
            shell_words(env, shell).push(
                if docs.len() > 0 {
                    docs
                } else {
                    dockerfile::expanded(inst.args, env)
                },
            )
        },
    }
}

fn shell_of(env: &Vec<(String, String)>) -> (r: String)
    ensures
        r@ == (match dockerfile::lookup(dockerfile::pair_texts(env@), "SHELL"@) {
            Some(s) => s,
            None => "/bin/sh -c"@,
        }),
{
    let ghost ev = dockerfile::pair_texts(env@);
    let mut i: usize = 0;
    assert(ev.skip(0) =~= ev);
    while i < env.len()
        invariant
            i <= env.len(),
            ev == dockerfile::pair_texts(env@),
            dockerfile::lookup(ev, "SHELL"@) == dockerfile::lookup(ev.skip(i as int), "SHELL"@),
        decreases env.len() - i,
    {
        assert(ev.skip(i as int)[0] == (env@[i as int].0@, env@[i as int].1@));
        assert(ev.skip(i as int).skip(1) =~= ev.skip(i as int + 1));
        if same(env[i].0.as_str(), "SHELL") {
            return env[i].1.clone();
        }
        i += 1;
    }
    "/bin/sh -c".to_owned()
}

/// The command that `RUN` runs.
pub fn run_argv(
    inst: &Instruction,
    env: &Vec<(String, String)>,
    shell: &Option<Vec<String>>,
) -> (r: Vec<String>)
    ensures
        text::texts(r@) == argv_of(inst@, dockerfile::pair_texts(env@), json::opt_texts(*shell)),
{
    if let Some(v) = &inst.json_args {
        return copy_strings(v);
    }
    let ghost hv = dockerfile::heredoc_texts(inst.heredocs@);
    let mut docs: String = String::new();
    let mut i: usize = 0;
    while i < inst.heredocs.len()
        invariant
            i <= inst.heredocs.len(),
            hv == dockerfile::heredoc_texts(inst.heredocs@),
            docs@ == stdin_to(hv, i as int),
        decreases inst.heredocs.len() - i,
    {
        assert(hv[i as int] == (inst.heredocs@[i as int].target@, inst.heredocs@[i as int].content@));
        if inst.heredocs[i].target.as_str().is_empty() {
            docs.append(inst.heredocs[i].content.as_str());
        }
        i += 1;
    }
    assert(hv.len() == inst.heredocs@.len());
    let mut parts: Vec<String> = match shell {
        Some(s) => copy_strings(s),
        None => words_text(chars_of(shell_of(env).as_str()).as_slice()),
    };
    if docs.as_str().is_empty() {
        add_word(&mut parts, expand_vars(inst.args.as_str(), env.as_slice()).as_str());
    } else {
        add_word(&mut parts, docs.as_str());
    }
    parts
}

// ---------------------------------------------------------------- stages

/// The places among the first `n` instructions where a stage starts.
pub open spec fn starts_to(v: Seq<InstructionView>, n: int) -> Seq<int>
    decreases n,
{
    if n <= 0 {
        Seq::empty()
    } else if v[n - 1].verb == "FROM"@ {
        starts_to(v, n - 1).push(n - 1)
    } else {
        starts_to(v, n - 1)
    }
}

pub open spec fn stage_starts(v: Seq<InstructionView>) -> Seq<int> {
    starts_to(v, v.len() as int)
}

pub open spec fn places(v: Seq<usize>) -> Seq<int> {
    Seq::new(v.len(), |i: int| v[i] as int)
}

/// Where the stages of a Dockerfile start: each goes on to the start of the next.
pub fn find_stages(df: &Dockerfile) -> (r: Vec<usize>)
    ensures
        places(r@) == stage_starts(dockerfile::instruction_views(df.instructions@)),
        forall|i: int| 0 <= i < r@.len() ==> #[trigger] r@[i] < df.instructions@.len(),
{
    let ghost iv = dockerfile::instruction_views(df.instructions@);
    let mut out: Vec<usize> = Vec::new();
    let mut i: usize = 0;
    assert(places(out@) =~= Seq::empty());
    while i < df.instructions.len()
        invariant
            i <= df.instructions.len(),
            iv == dockerfile::instruction_views(df.instructions@),
            places(out@) == starts_to(iv, i as int),
            forall|j: int| 0 <= j < out@.len() ==> #[trigger] out@[j] < df.instructions@.len(),
        decreases df.instructions.len() - i,
    {
        assert(iv[i as int] == df.instructions@[i as int]@);
        if same(df.instructions[i].verb.as_str(), "FROM") {
            let ghost before = out@;
            out.push(i);
            assert(places(out@) =~= places(before).push(i as int));
        }
        i += 1;
    }
    assert(iv.len() == df.instructions@.len());
    out
}

/// Two words but for the case of their letters.
pub open spec fn alike(a: Seq<char>, b: Seq<char>) -> bool {
    text::ascii_lowered(a) == text::ascii_lowered(b)
}

pub fn are_alike(a: &str, b: &str) -> (r: bool)
    ensures
        r == alike(a@, b@),
{
    same_chars(
        lower_ascii(chars_of(a).as_slice()).as_slice(),
        lower_ascii(chars_of(b).as_slice()).as_slice(),
    )
}

/// The place of the first `AS` at or behind `i`, or the end.
pub open spec fn as_from(ws: Seq<Seq<char>>, i: int) -> int
    decreases ws.len() - i,
{
    if i < 0 || i >= ws.len() || alike(ws[i], "AS"@) {
        i
    } else {
        as_from(ws, i + 1)
    }
}

/// The name that `FROM` gives its stage, from its words.
pub open spec fn stage_name(ws: Seq<Seq<char>>) -> Option<Seq<char>> {
    let p = as_from(ws, 0);
    if 0 <= p && p + 1 < ws.len() {
        Some(ws[p + 1])
    } else {
        None
    }
}

fn name_stage(ws: &Vec<String>) -> (r: Option<String>)
    ensures
        reference::opt_text(r) == stage_name(text::texts(ws@)),
{
    let ghost wv = text::texts(ws@);
    let n: usize = ws.len();
    let mut i: usize = 0;
    while i < n
        invariant
            i <= n,
            n == ws@.len(),
            wv == text::texts(ws@),
            as_from(wv, 0) == as_from(wv, i as int),
        decreases n - i,
    {
        assert(wv[i as int] == ws@[i as int]@);
        if are_alike(ws[i].as_str(), "AS") {
            if i + 1 < n {
                assert(wv[i as int + 1] == ws@[i as int + 1]@);
                return Some(ws[i + 1].clone());
            }
            return None;
        }
        i += 1;
    }
    None
}

/// The image that a stage starts from, and its own name.
pub open spec fn stage_base(args: Seq<char>, env: Seq<(Seq<char>, Seq<char>)>) -> (
    Seq<char>,
    Option<Seq<char>>,
) {
    let ws = text::words(dockerfile::expanded(args, env));
    (
        if ws.len() > 0 {
            ws[0]
        } else {
            Seq::empty()
        },
        stage_name(ws),
    )
}

/// What `FROM` says: the image that the stage starts from, and its own name.
pub fn read_from(args: &str, env: &Vec<(String, String)>) -> (r: (String, Option<String>))
    ensures
        (r.0@, reference::opt_text(r.1)) == stage_base(args@, dockerfile::pair_texts(env@)),
{
    let all: String = expand_vars(args, env.as_slice());
    let ws: Vec<String> = words_text(chars_of(all.as_str()).as_slice());
    let base: String = if ws.len() > 0 {
        assert(text::texts(ws@)[0] == ws@[0]@);
        ws[0].clone()
    } else {
        String::new()
    };
    assert(text::texts(ws@).len() == ws@.len());
    let name: Option<String> = name_stage(&ws);
    (base, name)
}

/// The first stage at or behind `k` that has a name, or the end.
pub open spec fn named_from(
    v: Seq<InstructionView>,
    starts: Seq<int>,
    name: Seq<char>,
    k: int,
) -> int
    decreases starts.len() - k,
{
    if k < 0 || k >= starts.len() {
        k
    } else {
        match stage_name(text::words(v[starts[k]].args)) {
            Some(n) => if alike(n, name) {
                k
            } else {
                named_from(v, starts, name, k + 1)
            },
            None => named_from(v, starts, name, k + 1),
        }
    }
}

/// The last stage that is built: the one that is asked for by its number or its name, or
/// the last one of all.
pub open spec fn last_stage(v: Seq<InstructionView>, target: Option<Seq<char>>) -> int {
    let starts = stage_starts(v);
    let last = if starts.len() > 0 {
        starts.len() - 1
    } else {
        0
    };
    match target {
        None => last,
        Some(t) => {
            let t = text::trim(t);
            let k = named_from(v, starts, t, 0);
            if t.len() == 0 {
                last
            } else if num::unsigned(t, usize::MAX as nat) is Some && num::unsigned(
                t,
                usize::MAX as nat,
            )->0 < starts.len() {
                num::unsigned(t, usize::MAX as nat)->0 as int
            } else if k < starts.len() {
                k
            } else {
                last
            }
        },
    }
}

/// The last stage that is built.
pub fn target_stage(df: &Dockerfile, target: Option<&str>) -> (r: usize)
    ensures
        r == last_stage(
            dockerfile::instruction_views(df.instructions@),
            registry::opt_str(target),
        ),
{
    let ghost iv = dockerfile::instruction_views(df.instructions@);
    let starts: Vec<usize> = find_stages(df);
    let ghost sv = places(starts@);
    assert(sv.len() == starts@.len());
    let n: usize = starts.len();
    let last: usize = if n > 0 {
        n - 1
    } else {
        0
    };
    let t: String = match target {
        Some(t) => str_trim(t),
        None => {
            return last;
        },
    };
    if t.as_str().is_empty() {
        return last;
    }
    if let Some(k) = parse_unsigned(chars_of(t.as_str()).as_slice(), usize::MAX as u64) {
        if k < n as u64 {
            return k as usize;
        }
    }
    let mut k: usize = 0;
    while k < n
        invariant
            k <= n,
            n == starts@.len(),
            iv == dockerfile::instruction_views(df.instructions@),
            sv == places(starts@),
            forall|j: int| 0 <= j < starts@.len() ==> #[trigger] starts@[j]
                < df.instructions@.len(),
            named_from(iv, sv, t@, 0) == named_from(iv, sv, t@, k as int),
            sv == stage_starts(iv),
            t@ == text::trim(target->0@),
            target is Some,
            t@.len() > 0,
            !(num::unsigned(t@, usize::MAX as nat) is Some && num::unsigned(t@, usize::MAX as nat)->0
                < sv.len()),
        decreases n - k,
    {
        let at: usize = starts[k];
        assert(sv[k as int] == at);
        assert(iv[at as int] == df.instructions@[at as int]@);
        let ws: Vec<String> = words_text(chars_of(df.instructions[at].args.as_str()).as_slice());
        if let Some(name) = name_stage(&ws) {
            if are_alike(name.as_str(), t.as_str()) {
                return k;
            }
        }
        k += 1;
    }
    last
}

// ---------------------------------------------------------------- the cache

/// Pairs as a debugger shows them.
pub open spec fn pairs_shown(v: Seq<(Seq<char>, Seq<char>)>) -> Seq<char> {
    "["@ + text::join(
        Seq::new(
            v.len(),
            |i: int| "("@ + unicode::quoted(v[i].0) + ", "@ + unicode::quoted(v[i].1) + ")"@,
        ),
        ", "@,
    ) + "]"@
}

/// Texts as a debugger shows them.
pub open spec fn list_shown(v: Seq<Seq<char>>) -> Seq<char> {
    "["@ + text::join(Seq::new(v.len(), |i: int| unicode::quoted(v[i])), ", "@) + "]"@
}

fn show_pairs(v: &Vec<(String, String)>) -> (r: String)
    ensures
        r@ == pairs_shown(dockerfile::pair_texts(v@)),
{
    let ghost pv = dockerfile::pair_texts(v@);
    let ghost sv = Seq::new(
        pv.len(),
        |i: int| "("@ + unicode::quoted(pv[i].0) + ", "@ + unicode::quoted(pv[i].1) + ")"@,
    );
    let mut parts: Vec<String> = Vec::new();
    let mut i: usize = 0;
    while i < v.len()
        invariant
            i <= v.len(),
            pv == dockerfile::pair_texts(v@),
            sv == Seq::new(
                pv.len(),
                |i: int| "("@ + unicode::quoted(pv[i].0) + ", "@ + unicode::quoted(pv[i].1) + ")"@,
            ),
            text::texts(parts@) =~= sv.take(i as int),
        decreases v.len() - i,
    {
        let mut s: String = "(".to_owned();
        s.append(quote(v[i].0.as_str()).as_str());
        s.append(", ");
        s.append(quote(v[i].1.as_str()).as_str());
        s.append(")");
        add_word(&mut parts, s.as_str());
        assert(sv.take(i as int + 1) =~= sv.take(i as int).push(sv[i as int]));
        i += 1;
    }
    assert(sv.take(sv.len() as int) =~= sv);
    let mut s: String = "[".to_owned();
    s.append(join_text(&parts, ", ").as_str());
    s.append("]");
    s
}

fn show_list(v: &Vec<String>) -> (r: String)
    ensures
        r@ == list_shown(text::texts(v@)),
{
    let ghost tv = text::texts(v@);
    let ghost sv = Seq::new(tv.len(), |i: int| unicode::quoted(tv[i]));
    let mut parts: Vec<String> = Vec::new();
    let mut i: usize = 0;
    while i < v.len()
        invariant
            i <= v.len(),
            tv == text::texts(v@),
            sv == Seq::new(tv.len(), |i: int| unicode::quoted(tv[i])),
            text::texts(parts@) =~= sv.take(i as int),
        decreases v.len() - i,
    {
        add_word(&mut parts, quote(v[i].as_str()).as_str());
        assert(sv.take(i as int + 1) =~= sv.take(i as int).push(sv[i as int]));
        i += 1;
    }
    assert(sv.take(sv.len() as int) =~= sv);
    let mut s: String = "[".to_owned();
    s.append(join_text(&parts, ", ").as_str());
    s.append("]");
    s
}

/// The digest of text in hexadecimal.
pub open spec fn text_hash(s: Seq<char>) -> Seq<char> {
    encode::sha256_hexed(encode_utf8(s))
}

/// A digest that takes in further texts, one by one.
pub open spec fn hash_over(h: Seq<char>, more: Seq<Seq<char>>, n: int) -> Seq<char>
    decreases n,
{
    if n <= 0 {
        h
    } else {
        text_hash(hash_over(h, more, n - 1) + more[n - 1])
    }
}

fn take_in_all(h: String, more: &Vec<String>) -> (r: String)
    ensures
        r@ == hash_over(h@, text::texts(more@), more@.len() as int),
{
    let ghost h0 = h@;
    let ghost mv = text::texts(more@);
    let mut h: String = h;
    let mut i: usize = 0;
    while i < more.len()
        invariant
            i <= more.len(),
            mv == text::texts(more@),
            h@ == hash_over(h0, mv, i as int),
        decreases more.len() - i,
    {
        assert(mv[i as int] == more@[i as int]@);
        h.append(more[i].as_str());
        h = sha256_hex(h.as_str().as_bytes());
        i += 1;
    }
    h
}

/// What a layer that a command makes is cached under: the layers below it, the command,
/// its flags and documents, and the variables, the shell, the directory and the user that
/// it runs with.
pub open spec fn run_key_of(
    chain: Seq<Seq<char>>,
    inst: InstructionView,
    c: ConfigView,
) -> Seq<char> {
    let vars = variables(c);
    let head = list_shown(chain) + "|"@ + unicode::quoted(inst.args) + "|"@ + pairs_shown(vars)
        + "|"@ + list_shown(shell_words(vars, c.shell)) + "|"@ + unicode::quoted(c.workdir) + "|"@
        + unicode::quoted(c.user) + "|"@ + pairs_shown(inst.flags);
    let docs = Seq::new(inst.heredocs.len(), |i: int| inst.heredocs[i].1);
    "run-"@ + hash_over(text_hash(head), docs, docs.len() as int)
}

/// What a layer that files are copied to is cached under: the layer below it, what is
/// copied and how, and the digests of the sources.
pub open spec fn copy_key_of(
    chain: Seq<Seq<char>>,
    inst: InstructionView,
    args: Seq<char>,
    sources: Seq<Seq<char>>,
) -> Seq<char> {
    let last = if chain.len() > 0 {
        chain.last()
    } else {
        Seq::empty()
    };
    let head = "copy|"@ + args + "|"@ + pairs_shown(inst.flags) + "|"@ + unicode::quoted(last);
    "copy-"@ + hash_over(text_hash(head), sources, sources.len() as int)
}

/// What a layer that a command makes is cached under.
pub fn run_key(chain: &Vec<String>, inst: &Instruction, c: &ConfigState) -> (r: String)
    ensures
        r@ == run_key_of(text::texts(chain@), inst@, c@),
{
    let mut head: String = show_list(chain);
    head.append("|");
    head.append(quote(inst.args.as_str()).as_str());
    head.append("|");
    let env: Vec<(String, String)> = c.env_pairs();
    head.append(show_pairs(&env).as_str());
    head.append("|");
    let shell: Vec<String> = match &c.shell {
        Some(s) => copy_strings(s),
        None => words_text(chars_of(shell_of(&env).as_str()).as_slice()),
    };
    head.append(show_list(&shell).as_str());
    head.append("|");
    head.append(quote(c.workdir.as_str()).as_str());
    head.append("|");
    head.append(quote(c.user.as_str()).as_str());
    head.append("|");
    head.append(show_pairs(&inst.flags).as_str());
    let ghost dv = Seq::new(inst@.heredocs.len(), |i: int| inst@.heredocs[i].1);
    let mut docs: Vec<String> = Vec::new();
    let mut i: usize = 0;
    while i < inst.heredocs.len()
        invariant
            i <= inst.heredocs.len(),
            dv == Seq::new(inst@.heredocs.len(), |i: int| inst@.heredocs[i].1),
            text::texts(docs@) =~= dv.take(i as int),
        decreases inst.heredocs.len() - i,
    {
        add_word(&mut docs, inst.heredocs[i].content.as_str());
        assert(dv.take(i as int + 1) =~= dv.take(i as int).push(dv[i as int]));
        i += 1;
    }
    assert(dv.take(dv.len() as int) =~= dv);
    assert(text::texts(docs@).len() == docs@.len());
    let mut s: String = "run-".to_owned();
    s.append(take_in_all(sha256_hex(head.as_str().as_bytes()), &docs).as_str());
    s
}

/// What a layer that files are copied to is cached under.
pub fn copy_key(chain: &Vec<String>, inst: &Instruction, args: &str, sources: &Vec<String>) -> (r:
    String)
    ensures
        r@ == copy_key_of(text::texts(chain@), inst@, args@, text::texts(sources@)),
{
    let mut head: String = "copy|".to_owned();
    head.append(args);
    head.append("|");
    head.append(show_pairs(&inst.flags).as_str());
    head.append("|");
    let last: String = if chain.len() > 0 {
        assert(text::texts(chain@).last() == chain@[chain@.len() - 1]@);
        chain[chain.len() - 1].clone()
    } else {
        proof {
            reveal_strlit("");
        }
        String::new()
    };
    assert(text::texts(chain@).len() == chain@.len());
    head.append(quote(last.as_str()).as_str());
    let mut s: String = "copy-".to_owned();
    s.append(take_in_all(sha256_hex(head.as_str().as_bytes()), sources).as_str());
    assert(text::texts(sources@).len() == sources@.len());
    s
}

/// The cache's file can be read: it is an object, and every entry names its layer.
pub open spec fn cache_reads(doc: Seq<u8>) -> bool {
    &&& json::json_keys(doc, Seq::empty()) is Some
    &&& forall|i: int|
        0 <= i < fsck::cached_in(doc).len() ==> (#[trigger] fsck::cached_in(doc)[i]).diff_id is Some
}

fn can_read_cache(cache_text: &str) -> (r: bool)
    ensures
        r == cache_reads(encode_utf8(cache_text@)),
{
    let doc: &[u8] = cache_text.as_bytes();
    proof {
        reveal_strlit("");
        assert(""@ =~= Seq::empty());
    }
    if keys_at(doc, "").is_none() {
        return false;
    }
    let es: Vec<CacheEntry> = cache_entries(cache_text);
    let ghost ev = fsck::cached_in(doc@);
    assert(ev.len() == es@.len());
    let mut i: usize = 0;
    while i < es.len()
        invariant
            i <= es.len(),
            ev == fsck::entry_views(es@),
            ev == fsck::cached_in(encode_utf8(cache_text@)),
            forall|k: int| 0 <= k < i ==> (#[trigger] ev[k]).diff_id is Some,
        decreases es.len() - i,
    {
        assert(ev[i as int] == es@[i as int]@);
        if es[i].diff_id.is_none() {
            assert(ev[i as int].diff_id is None);
            return false;
        }
        i += 1;
    }
    true
}

/// The layer that is cached under a key, given the cache's file; none where the file cannot
/// be read.
pub fn cached_layer(cache_text: &str, key: &str) -> (r: Option<String>)
    ensures
        reference::opt_text(r) == if cache_reads(encode_utf8(cache_text@)) {
            fsck::cached_under(encode_utf8(cache_text@), key@).diff_id
        } else {
            None
        },
{
    let doc: &[u8] = cache_text.as_bytes();
    proof {
        reveal_strlit("");
        assert(""@ =~= Seq::empty());
    }
    if !can_read_cache(cache_text) {
        return None;
    }
    let mut p: String = key_pointer("", key);
    p.append("/diff_id");
    text_at(doc, p.as_str())
}

/// The entry of a layer in the cache.
pub open spec fn entry_json(diff: Seq<char>) -> Seq<char> {
    json::json_object(seq!["diff_id"@], seq![json::json_quoted(diff)])
}

/// The layer under a key of the cache's file once one more is noted.
pub open spec fn noted_under(doc: Seq<u8>, key: Seq<char>, diff: Seq<char>, k: Seq<char>) -> Seq<
    char,
> {
    if k == key {
        diff
    } else {
        registry::text_or_empty(fsck::cached_under(doc, k).diff_id)
    }
}

/// The cache's file with one more layer noted under a key: the others stay, where the file
/// can be read.
pub open spec fn cache_json(doc: Seq<u8>, key: Seq<char>, diff: Seq<char>) -> Seq<char> {
    let own = if cache_reads(doc) {
        json::json_keys(doc, Seq::empty())->0
    } else {
        Seq::empty()
    };
    let ks = order::sorted_set(own.push(key));
    json::json_object(
        ks,
        Seq::new(ks.len(), |i: int| entry_json(noted_under(doc, key, diff, ks[i]))),
    )
}

/// Notes a layer in the cache's file.
pub fn note_layer(cache_text: &str, key: &str, diff: &str) -> (r: String)
    ensures
        r@ == cache_json(encode_utf8(cache_text@), key@, diff@),
{
    let doc: &[u8] = cache_text.as_bytes();
    proof {
        reveal_strlit("");
        assert(""@ =~= Seq::empty());
    }
    let mut names: Vec<String> = Vec::new();
    assert(text::texts(names@) =~= Seq::empty());
    if can_read_cache(cache_text) {
        if let Some(own) = keys_at(doc, "") {
            names = own;
        }
    }
    add_word(&mut names, key);
    let ks: Vec<String> = sort_unique(&names);
    let ghost kv = text::texts(ks@);
    let ghost mv = Seq::new(kv.len(), |i: int| entry_json(noted_under(doc@, key@, diff@, kv[i])));
    let mut vals: Vec<String> = Vec::new();
    let mut i: usize = 0;
    while i < ks.len()
        invariant
            i <= ks.len(),
            ""@ == Seq::<char>::empty(),
            kv == text::texts(ks@),
            mv == Seq::new(kv.len(), |i: int| entry_json(noted_under(doc@, key@, diff@, kv[i]))),
            text::texts(vals@) =~= mv.take(i as int),
        decreases ks.len() - i,
    {
        let k: &str = ks[i].as_str();
        assert(kv[i as int] == k@);
        let value: String = if same(k, key) {
            diff.to_owned()
        } else {
            let mut p: String = key_pointer("", k);
            p.append("/diff_id");
            match text_at(doc, p.as_str()) {
                Some(d) => d,
                None => String::new(),
            }
        };
        let names_one: Vec<String> = words_of(&["diff_id"]);
        let mut one: Vec<String> = Vec::new();
        one.push(write_text(value.as_str()));
        assert(text::texts(names_one@) =~= seq!["diff_id"@]);
        assert(text::texts(one@) =~= seq![json::json_quoted(value@)]);
        assert(text::texts(names_one@).len() == names_one@.len());
        add_word(&mut vals, write_object(&names_one, &one).as_str());
        assert(mv.take(i as int + 1) =~= mv.take(i as int).push(mv[i as int]));
        i += 1;
    }
    assert(mv.take(mv.len() as int) =~= mv);
    assert(text::texts(vals@).len() == vals@.len());
    assert(kv.len() == ks@.len());
    write_object(&ks, &vals)
}

/// A value that is given for an argument of a build: `name=value`, or a name alone, which has
/// an empty value.
pub open spec fn given_pair(arg: Seq<char>) -> (Seq<char>, Seq<char>) {
    match text::split_once(arg, seq!['=']) {
        Some((k, v)) => (k, v),
        None => (arg, Seq::empty()),
    }
}

/// The values that are given for the arguments of a build.
pub fn read_given(args: &Vec<String>) -> (r: Vec<(String, String)>)
    ensures
        dockerfile::pair_texts(r@) == text::texts(args@).map_values(
            |a: Seq<char>| given_pair(a),
        ),
{
    let ghost all = text::texts(args@).map_values(|a: Seq<char>| given_pair(a));
    let mut out: Vec<(String, String)> = Vec::new();
    let mut i: usize = 0;
    assert(dockerfile::pair_texts(out@) =~= all.take(0));
    while i < args.len()
        invariant
            i <= args.len(),
            all == text::texts(args@).map_values(|a: Seq<char>| given_pair(a)),
            dockerfile::pair_texts(out@) == all.take(i as int),
        decreases args.len() - i,
    {
        let pair: (String, String) = match str_cut(args[i].as_str(), '=') {
            Some((k, v)) => (k, v),
            None => (args[i].clone(), String::new()),
        };
        proof {
            reveal_strlit("");
            assert(pair.1@ =~= given_pair(args@[i as int]@).1);
        }
        let ghost before = out@;
        let ghost both = (pair.0@, pair.1@);
        out.push(pair);
        assert(dockerfile::pair_texts(out@) =~= dockerfile::pair_texts(before).push(both));
        assert(all[i as int] == both);
        assert(all.take(i as int + 1) =~= all.take(i as int).push(both));
        i += 1;
    }
    assert(all.take(all.len() as int) =~= all);
    out
}

/// What stands for a source in the key of its layer: its hash, or a word where there is no
/// such source.
pub fn source_hash(hash: Option<String>) -> (r: String)
    ensures
        r@ == match reference::opt_text(hash) {
            Some(h) => h,
            None => "missing"@,
        },
{
    match hash {
        Some(h) => h,
        None => "missing".to_owned(),
    }
}

/// What the files of a directory are hashed as: the path of each, and its digest where it
/// can be read.
pub open spec fn tree_text(files: Seq<(Seq<char>, Option<Seq<char>>)>) -> Seq<char>
    decreases files.len(),
{
    if files.len() == 0 {
        Seq::empty()
    } else {
        tree_text(files.drop_last()) + files.last().0 + registry::text_or_empty(files.last().1)
    }
}

pub open spec fn file_views(v: Seq<(String, Option<String>)>) -> Seq<
    (Seq<char>, Option<Seq<char>>),
> {
    Seq::new(v.len(), |i: int| (v[i].0@, reference::opt_text(v[i].1)))
}

/// The hash of a directory that is copied, given its files in their order.
pub fn tree_hash(files: &Vec<(String, Option<String>)>) -> (r: String)
    ensures
        r@ == text_hash(tree_text(file_views(files@))),
{
    let ghost fv = file_views(files@);
    let mut all: String = String::new();
    let mut i: usize = 0;
    assert(fv.take(0) =~= Seq::empty());
    proof {
        reveal_strlit("");
        assert(all@ =~= Seq::empty());
    }
    while i < files.len()
        invariant
            i <= files.len(),
            fv == file_views(files@),
            all@ == tree_text(fv.take(i as int)),
        decreases files.len() - i,
    {
        assert(fv.take(i as int + 1).drop_last() =~= fv.take(i as int));
        assert(fv.take(i as int + 1).last() == fv[i as int]);
        let ghost before = all@;
        all.append(files[i].0.as_str());
        match &files[i].1 {
            Some(h) => all.append(h.as_str()),
            None => {
                assert(all@ + Seq::<char>::empty() =~= all@);
            },
        }
        i += 1;
    }
    assert(fv.take(fv.len() as int) =~= fv);
    sha256_hex(all.as_str().as_bytes())
}

// ---------------------------------------------------------------- copying

/// What is copied, and where to.
#[derive(Debug, Clone)]
pub struct CopyStep {
    pub sources: Vec<String>,
    /// The destination below the root.
    pub dest: String,
    /// The sources go into a directory.
    pub into_dir: bool,
    /// The stage that the sources come from, where they do not come from the context.
    pub from: Option<String>,
}

/// What `COPY` or `ADD` copies: all words but the last, to the last.
pub fn copy_step(inst: &Instruction, env: &Vec<(String, String)>) -> (r: Result<CopyStep, String>)
    ensures
        ({
            let ws = text::words(
                dockerfile::expanded(inst@.args, dockerfile::pair_texts(env@)),
            );
            match r {
                Err(e) => ws.len() == 0 && e@ == "COPY needs a destination"@,
                Ok(c) => {
                    &&& ws.len() > 0
                    &&& text::texts(c.sources@) == ws.drop_last()
                    &&& c.dest@ == text::strip_starts(ws.last(), seq!['/'])
                    &&& c.into_dir == (text::ends_with(ws.last(), seq!['/']) || ws.len() > 2)
                    &&& reference::opt_text(c.from) == dockerfile::lookup(inst@.flags, "from"@)
                },
            }
        }),
{
    let all: String = expand_vars(inst.args.as_str(), env.as_slice());
    let mut ws: Vec<String> = words_text(chars_of(all.as_str()).as_slice());
    let ghost wv = text::texts(ws@);
    assert(wv.len() == ws@.len());
    let last: String = match ws.pop() {
        Some(l) => l,
        None => {
            return Err("COPY needs a destination".to_owned());
        },
    };
    assert(wv.last() == last@);
    assert(text::texts(ws@) =~= wv.drop_last());
    let cs: Vec<char> = chars_of(last.as_str());
    let slash: Vec<char> = one_char('/');
    let into_dir: bool = has_suffix(cs.as_slice(), slash.as_slice()) || ws.len() > 1;
    let dest: String = string_of(strip_starts_text(cs.as_slice(), slash.as_slice()));
    Ok(CopyStep { sources: ws, dest, into_dir, from: flag_value(&inst.flags, "from") })
}

pub fn flag_value(flags: &Vec<(String, String)>, name: &str) -> (r: Option<String>)
    ensures
        reference::opt_text(r) == dockerfile::lookup(dockerfile::pair_texts(flags@), name@),
{
    let ghost fv = dockerfile::pair_texts(flags@);
    let mut i: usize = 0;
    assert(fv.skip(0) =~= fv);
    while i < flags.len()
        invariant
            i <= flags.len(),
            fv == dockerfile::pair_texts(flags@),
            dockerfile::lookup(fv, name@) == dockerfile::lookup(fv.skip(i as int), name@),
        decreases flags.len() - i,
    {
        assert(fv.skip(i as int)[0] == (flags@[i as int].0@, flags@[i as int].1@));
        assert(fv.skip(i as int).skip(1) =~= fv.skip(i as int + 1));
        if same(flags[i].0.as_str(), name) {
            return Some(flags[i].1.clone());
        }
        i += 1;
    }
    None
}

// ---------------------------------------------------------------- laws

pub proof fn lemma_lookup_push(
    a: Seq<(Seq<char>, Seq<char>)>,
    p: (Seq<char>, Seq<char>),
    k: Seq<char>,
)
    ensures
        dockerfile::lookup(a.push(p), k) == (match dockerfile::lookup(a, k) {
            Some(v) => Some(v),
            None => if p.0 == k {
                Some(p.1)
            } else {
                None
            },
        }),
    decreases a.len(),
{
    reveal_with_fuel(dockerfile::lookup, 2);
    if a.len() > 0 {
        assert(a.push(p).skip(1) =~= a.skip(1).push(p));
        lemma_lookup_push(a.skip(1), p, k);
    } else {
        assert(a.push(p).skip(1) =~= Seq::<(Seq<char>, Seq<char>)>::empty());
    }
}

proof fn lemma_key_begins(e: Seq<char>, k: Seq<char>, v: Seq<char>)
    requires
        text::split_once(e, seq!['=']) == Some((k, v)),
    ensures
        text::starts_with(e, k + "="@),
{
    reveal_strlit("=");
    text::lemma_find_from(e, seq!['='], 0);
    let i = text::find(e, seq!['='])->0;
    assert(e.subrange(i, i + 1) =~= seq!['=']);
    assert(e[i] == seq!['='][0]);
    assert(e.subrange(0, (k + "="@).len() as int) =~= k + "="@);
}

proof fn lemma_env_without(env: Seq<Seq<char>>, k: Seq<char>)
    ensures
        dockerfile::lookup(env_pairs_of(env_without(env, k)), k) is None,
        forall|x: Seq<char>|
            x != k && !x.contains('=') && !k.contains('=') ==> #[trigger] dockerfile::lookup(
                env_pairs_of(env_without(env, k)),
                x,
            ) == dockerfile::lookup(env_pairs_of(env), x),
    decreases env.len(),
{
    if env.len() > 0 {
        let rest = env.drop_last();
        let e = env.last();
        lemma_env_without(rest, k);
        let w = env_without(rest, k);
        if !text::starts_with(e, k + "="@) {
            assert(w.push(e).drop_last() =~= w);
            if let Some((a, b)) = text::split_once(e, seq!['=']) {
                lemma_key_begins(e, a, b);
                lemma_lookup_push(env_pairs_of(w), (a, b), k);
            }
        }
        assert forall|x: Seq<char>|
            x != k && !x.contains('=') && !k.contains('=') implies #[trigger] dockerfile::lookup(
            env_pairs_of(env_without(env, k)),
            x,
        ) == dockerfile::lookup(env_pairs_of(env), x) by {
            if let Some((a, b)) = text::split_once(e, seq!['=']) {
                lemma_lookup_push(env_pairs_of(w), (a, b), x);
                lemma_lookup_push(env_pairs_of(rest), (a, b), x);
                if text::starts_with(e, k + "="@) {
                    lemma_begins_key(e, k, a, b);
                }
            }
        }
    }
}

proof fn lemma_begins_key(e: Seq<char>, k: Seq<char>, a: Seq<char>, b: Seq<char>)
    requires
        text::starts_with(e, k + "="@),
        !k.contains('='),
        text::split_once(e, seq!['=']) == Some((a, b)),
    ensures
        a == k,
{
    reveal_strlit("=");
    let p = k + "="@;
    let n = k.len() as int;
    assert(e.subrange(0, p.len() as int) =~= p);
    assert(p[n] == '=');
    assert(e[n] == e.subrange(0, p.len() as int)[n]);
    assert forall|j: int| 0 <= j < n implies #[trigger] e[j] != '=' by {
        assert(e[j] == e.subrange(0, p.len() as int)[j]);
        assert(p[j] == k[j]);
        assert(k.contains(k[j]));
    }
    text::lemma_found_char(e, '=', n);
    assert(e.take(n) =~= k) by {
        assert forall|j: int| 0 <= j < n implies e[j] == k[j] by {
            assert(e[j] == e.subrange(0, p.len() as int)[j]);
            assert(p[j] == k[j]);
        }
    }
    assert(e.subrange(0, n) =~= e.take(n));
}

/// A variable that has been set has that value, and the others keep theirs.
pub proof fn law_variable_is_set(env: Seq<Seq<char>>, k: Seq<char>, v: Seq<char>, x: Seq<char>)
    requires
        !k.contains('='),
        !x.contains('='),
    ensures
        dockerfile::lookup(env_pairs_of(env_with(env, k, v)), k) == Some(v),
        x != k ==> dockerfile::lookup(env_pairs_of(env_with(env, k, v)), x) == dockerfile::lookup(
            env_pairs_of(env),
            x,
        ),
{
    reveal_strlit("=");
    let w = env_without(env, k);
    let e = k + "="@ + v;
    let n = k.len() as int;
    assert(w.push(e).drop_last() =~= w);
    assert(e[n] == '=');
    assert forall|j: int| 0 <= j < n implies #[trigger] e[j] != '=' by {
        assert(e[j] == k[j]);
        assert(k.contains(k[j]));
    }
    text::lemma_found_char(e, '=', n);
    assert(e.subrange(0, n) =~= k);
    assert(e.subrange(n + 1, e.len() as int) =~= v);
    assert(text::split_once(e, seq!['=']) == Some((k, v)));
    lemma_env_without(env, k);
    lemma_lookup_push(env_pairs_of(w), (k, v), k);
    lemma_lookup_push(env_pairs_of(w), (k, v), x);
}

// ---------------------------------------------------------------- images

impl Copied for HealthConfig {
    fn copied(&self) -> (r: Self) {
        HealthConfig {
            Test: copy_strings(&self.Test),
            Interval: self.Interval,
            Timeout: self.Timeout,
            Retries: self.Retries,
            StartPeriod: self.StartPeriod,
            StartInterval: self.StartInterval,
        }
    }
}

/// A list, unless it is empty.
pub open spec fn unless_empty(v: Seq<Seq<char>>) -> Option<Seq<Seq<char>>> {
    if v.len() > 0 {
        Some(v)
    } else {
        None
    }
}

/// A table, an empty one where there is none.
pub open spec fn or_no_entries(t: Option<Table<String>>) -> Seq<(Seq<char>, Seq<char>)> {
    match t {
        Some(t) => t@,
        None => Seq::empty(),
    }
}

/// The configuration of an image that a stage starts from.
pub open spec fn config_of(c: ContainerConfig) -> ConfigView {
    ConfigView {
        env: text::texts(c.Env@),
        cmd: unless_empty(text::texts(c.Cmd@)),
        entrypoint: json::opt_texts(c.Entrypoint),
        workdir: c.WorkingDir@,
        user: c.User@,
        labels: c.Labels@,
        exposed_ports: or_no_entries(c.ExposedPorts),
        volumes: or_no_entries(c.Volumes),
        stop_signal: c.StopSignal@,
        healthcheck: inherit::seen(c.Healthcheck),
        shell: json::opt_texts(c.Shell),
        args: Seq::empty(),
    }
}

fn copy_or_empty(t: &Option<Table<String>>) -> (r: Table<String>)
    ensures
        r@ == or_no_entries(*t),
{
    match t {
        Some(t) => copy_entries(t),
        None => {
            let r: Table<String> = Table { entries: Vec::new() };
            assert(r@ =~= Seq::empty());
            r
        },
    }
}

fn copy_list(o: &Option<Vec<String>>) -> (r: Option<Vec<String>>)
    ensures
        json::opt_texts(r) == json::opt_texts(*o),
{
    match o {
        Some(v) => Some(copy_strings(v)),
        None => None,
    }
}

impl Copied for ConfigState {
    fn copied(&self) -> (r: Self) {
        let r: ConfigState = ConfigState {
            env: copy_strings(&self.env),
            cmd: copy_list(&self.cmd),
            entrypoint: copy_list(&self.entrypoint),
            workdir: self.workdir.clone(),
            user: self.user.clone(),
            labels: copy_entries(&self.labels),
            exposed_ports: copy_entries(&self.exposed_ports),
            volumes: copy_entries(&self.volumes),
            stop_signal: self.stop_signal.clone(),
            healthcheck: copy_option(&self.healthcheck),
            shell: copy_list(&self.shell),
            args: copy_strings(&self.args),
        };
        assert(r@ =~= self@);
        r
    }
}

/// The configuration of a stage that starts from nothing.
pub open spec fn empty_config() -> ConfigView {
    ConfigView {
        env: Seq::empty(),
        cmd: None,
        entrypoint: None,
        workdir: Seq::empty(),
        user: Seq::empty(),
        labels: Seq::empty(),
        exposed_ports: Seq::empty(),
        volumes: Seq::empty(),
        stop_signal: Seq::empty(),
        healthcheck: None,
        shell: None,
        args: Seq::empty(),
    }
}

impl ConfigState {
    /// The configuration of a stage that starts from nothing.
    pub fn empty() -> (r: ConfigState)
        ensures
            r@ == empty_config(),
    {
        let r: ConfigState = ConfigState {
            env: Vec::new(),
            cmd: None,
            entrypoint: None,
            workdir: String::new(),
            user: String::new(),
            labels: Table { entries: Vec::new() },
            exposed_ports: Table { entries: Vec::new() },
            volumes: Table { entries: Vec::new() },
            stop_signal: String::new(),
            healthcheck: None,
            shell: None,
            args: Vec::new(),
        };
        proof {
            reveal_strlit("");
            assert(r@.env =~= Seq::empty());
            assert(r@.args =~= Seq::empty());
            assert(r@.labels =~= Seq::empty());
            assert(r@.exposed_ports =~= Seq::empty());
            assert(r@.volumes =~= Seq::empty());
            assert(r@ =~= empty_config());
        }
        r
    }

    /// The configuration of an image that a stage starts from.
    pub fn from_image_record(r: &ImageRecord) -> (s: ConfigState)
        ensures
            s@ == config_of(r.config),
    {
        let c: &ContainerConfig = &r.config;
        let cmd: Option<Vec<String>> = if c.Cmd.len() > 0 {
            Some(copy_strings(&c.Cmd))
        } else {
            None
        };
        assert(text::texts(c.Cmd@).len() == c.Cmd@.len());
        let entrypoint: Option<Vec<String>> = copy_list(&c.Entrypoint);
        let s: ConfigState = ConfigState {
            env: copy_strings(&c.Env),
            cmd,
            entrypoint,
            workdir: c.WorkingDir.clone(),
            user: c.User.clone(),
            labels: copy_entries(&c.Labels),
            exposed_ports: copy_or_empty(&c.ExposedPorts),
            volumes: copy_or_empty(&c.Volumes),
            stop_signal: c.StopSignal.clone(),
            healthcheck: copy_option(&c.Healthcheck),
            shell: copy_list(&c.Shell),
            args: Vec::new(),
        };
        assert(s@.args =~= Seq::empty());
        assert(s@ =~= config_of(r.config));
        s
    }
}

/// Entries, none where there are none.
pub open spec fn none_if_empty(t: Seq<(Seq<char>, Seq<char>)>) -> Option<
    Seq<(Seq<char>, Seq<char>)>,
> {
    if t.len() == 0 {
        None
    } else {
        Some(t)
    }
}

fn drop_if_empty(t: Table<String>) -> (r: Option<Table<String>>)
    ensures
        inherit::seen(r) == none_if_empty(t@),
{
    if t.entries.len() == 0 {
        None
    } else {
        Some(t)
    }
}

/// The configuration of a built image as it is stored. Text that is no JSON document stays
/// as it is.
pub open spec fn built_text(c: ConfigView, created: Seq<char>, chain: Seq<Seq<char>>) -> Seq<char> {
    match json::json_pretty(built_json(c, created, chain)) {
        Some(p) => p,
        None => built_json(c, created, chain),
    }
}

/// The image that a build leaves behind: its id is the digest of its configuration, its
/// layers are stored under their own digests.
pub open spec fn is_built(
    r: ImageRecord,
    tags: Seq<Seq<char>>,
    created: Seq<char>,
    created_unix: i64,
    chain: Seq<Seq<char>>,
    size: i64,
    c: ConfigView,
) -> bool {
    &&& r.id@ == text_hash(built_text(c, created, chain))
    &&& r.manifest_digest@.len() == 0
    &&& text::texts(r.repo_tags@) == tags
    &&& r.repo_digests@.len() == 0
    &&& r.created@ == created
    &&& r.created_unix == created_unix
    &&& r.architecture@ == "amd64"@
    &&& r.os@ == "linux"@
    &&& r.author@.len() == 0
    &&& r.comment@.len() == 0
    &&& r.docker_version@ == "ingot/"@ + api::ENGINE_VERSION@
    &&& text::texts(r.diff_ids@) == chain
    &&& text::texts(r.layer_blobs@) == chain
    &&& r.size == size
    &&& r.history@.len() == 0
    &&& text::texts(r.chain_ids@) == store::chain_ids(chain)
    &&& r.config.Hostname@.len() == 0
    &&& r.config.Domainname@.len() == 0
    &&& r.config.User@ == c.user
    &&& !r.config.AttachStdin && !r.config.AttachStdout && !r.config.AttachStderr
    &&& inherit::seen(r.config.ExposedPorts) == none_if_empty(c.exposed_ports)
    &&& !r.config.Tty && !r.config.OpenStdin && !r.config.StdinOnce
    &&& text::texts(r.config.Env@) == c.env
    &&& text::texts(r.config.Cmd@) == list_or_empty(c.cmd)
    &&& inherit::seen(r.config.Healthcheck) == c.healthcheck
    &&& !r.config.ArgsEscaped
    &&& r.config.Image@.len() == 0
    &&& inherit::seen(r.config.Volumes) == none_if_empty(c.volumes)
    &&& r.config.WorkingDir@ == c.workdir
    &&& json::opt_texts(r.config.Entrypoint) == c.entrypoint
    &&& r.config.OnBuild is None
    &&& r.config.Labels@ == c.labels
    &&& r.config.StopSignal@ == c.stop_signal
    &&& r.config.StopTimeout is None
    &&& json::opt_texts(r.config.Shell) == c.shell
}

/// The image that a build leaves behind.
pub fn built_record(
    tags: &Vec<String>,
    created: &str,
    created_unix: i64,
    chain: &Vec<String>,
    size: i64,
    c: ConfigState,
) -> (r: ImageRecord)
    ensures
        is_built(
            r,
            text::texts(tags@),
            created@,
            created_unix,
            text::texts(chain@),
            size,
            c@,
        ),
{
    let id: String = sha256_hex(built_config(&c, created, chain).as_str().as_bytes());
    let mut version: String = "ingot/".to_owned();
    version.append(ENGINE_VERSION);
    let cmd: Vec<String> = match c.cmd {
        Some(v) => v,
        None => Vec::new(),
    };
    assert(text::texts(cmd@) =~= list_or_empty(c@.cmd));
    ImageRecord {
        id,
        manifest_digest: String::new(),
        repo_tags: copy_strings(tags),
        repo_digests: Vec::new(),
        created: created.to_owned(),
        created_unix,
        architecture: "amd64".to_owned(),
        os: "linux".to_owned(),
        author: String::new(),
        comment: String::new(),
        docker_version: version,
        diff_ids: copy_strings(chain),
        layer_blobs: copy_strings(chain),
        size,
        config: ContainerConfig {
            Hostname: String::new(),
            Domainname: String::new(),
            User: c.user,
            AttachStdin: false,
            AttachStdout: false,
            AttachStderr: false,
            ExposedPorts: drop_if_empty(c.exposed_ports),
            Tty: false,
            OpenStdin: false,
            StdinOnce: false,
            Env: c.env,
            Cmd: cmd,
            Healthcheck: c.healthcheck,
            ArgsEscaped: false,
            Image: String::new(),
            Volumes: drop_if_empty(c.volumes),
            WorkingDir: c.workdir,
            Entrypoint: c.entrypoint,
            OnBuild: None,
            Labels: c.labels,
            StopSignal: c.stop_signal,
            StopTimeout: None,
            Shell: c.shell,
        },
        history: Vec::new(),
        chain_ids: ImageRecord::compute_chain_ids(chain.as_slice()),
    }
}

// ---------------------------------------------------------------- the configuration as JSON

pub open spec fn entry_keys(t: Seq<(Seq<char>, Seq<char>)>) -> Seq<Seq<char>> {
    Seq::new(t.len(), |i: int| t[i].0)
}

/// Texts under their keys.
pub open spec fn texts_json(t: Seq<(Seq<char>, Seq<char>)>) -> Seq<char> {
    json::json_object(entry_keys(t), Seq::new(t.len(), |i: int| json::json_quoted(t[i].1)))
}

/// JSON under its keys, or nothing where there are none.
pub open spec fn entries_json(t: Seq<(Seq<char>, Seq<char>)>) -> Seq<char> {
    if t.len() == 0 {
        "null"@
    } else {
        json::json_object(entry_keys(t), Seq::new(t.len(), |i: int| t[i].1))
    }
}

fn write_entries(t: &Table<String>, quoted: bool) -> (r: String)
    ensures
        quoted ==> r@ == texts_json(t@),
        !quoted && t@.len() > 0 ==> r@ == entries_json(t@),
{
    let ghost tv = t@;
    let ghost kv = entry_keys(tv);
    let ghost wv = Seq::new(
        tv.len(),
        |i: int|
            if quoted {
                json::json_quoted(tv[i].1)
            } else {
                tv[i].1
            },
    );
    let mut ks: Vec<String> = Vec::new();
    let mut vs: Vec<String> = Vec::new();
    let mut i: usize = 0;
    while i < t.entries.len()
        invariant
            i <= t.entries.len(),
            tv == t@,
            tv.len() == t.entries@.len(),
            kv == entry_keys(tv),
            wv == Seq::new(
                tv.len(),
                |i: int|
                    if quoted {
                        json::json_quoted(tv[i].1)
                    } else {
                        tv[i].1
                    },
            ),
            ks@.len() == i,
            vs@.len() == i,
            text::texts(ks@) =~= kv.take(i as int),
            text::texts(vs@) =~= wv.take(i as int),
        decreases t.entries.len() - i,
    {
        assert(tv[i as int] == (t.entries@[i as int].0@, t.entries@[i as int].1@));
        add_word(&mut ks, t.entries[i].0.as_str());
        if quoted {
            add_word(&mut vs, write_text(t.entries[i].1.as_str()).as_str());
        } else {
            add_word(&mut vs, t.entries[i].1.as_str());
        }
        assert(kv.take(i as int + 1) =~= kv.take(i as int).push(kv[i as int]));
        assert(wv.take(i as int + 1) =~= wv.take(i as int).push(wv[i as int]));
        i += 1;
    }
    assert(kv.take(kv.len() as int) =~= kv);
    assert(wv.take(wv.len() as int) =~= wv);
    proof {
        if quoted {
            assert(wv =~= Seq::new(tv.len(), |i: int| json::json_quoted(tv[i].1)));
        } else {
            assert(wv =~= Seq::new(tv.len(), |i: int| tv[i].1));
        }
    }
    write_object(&ks, &vs)
}

fn write_entries_or_null(t: &Table<String>) -> (r: String)
    ensures
        r@ == entries_json(t@),
{
    if t.entries.len() == 0 {
        "null".to_owned()
    } else {
        write_entries(t, false)
    }
}

/// The key of something, where it is there.
pub open spec fn key_if(k: Seq<char>, o: Option<i64>) -> Seq<Seq<char>> {
    match o {
        Some(_) => seq![k],
        None => Seq::empty(),
    }
}

pub open spec fn integer_if(o: Option<i64>) -> Seq<Seq<char>> {
    match o {
        Some(n) => seq![num::signed_decimal(n as int)],
        None => Seq::empty(),
    }
}

/// A health check, without what it leaves open.
pub open spec fn health_json(h: HealthView) -> Seq<char> {
    json::json_object(
        seq!["Test"@] + key_if("Interval"@, h.interval) + key_if("Timeout"@, h.timeout) + key_if(
            "Retries"@,
            h.retries,
        ) + key_if("StartPeriod"@, h.start_period) + key_if("StartInterval"@, h.start_interval),
        seq![json::json_array(h.test)] + integer_if(h.interval) + integer_if(h.timeout)
            + integer_if(h.retries) + integer_if(h.start_period) + integer_if(h.start_interval),
    )
}

fn add_member(ks: &mut Vec<String>, vs: &mut Vec<String>, k: &str, o: Option<i64>)
    requires
        old(ks)@.len() == old(vs)@.len(),
    ensures
        final(ks)@.len() == final(vs)@.len(),
        text::texts(final(ks)@) == text::texts(old(ks)@) + key_if(k@, o),
        text::texts(final(vs)@) == text::texts(old(vs)@) + integer_if(o),
{
    let ghost kv = text::texts(ks@);
    let ghost vv = text::texts(vs@);
    if let Some(n) = o {
        add_word(ks, k);
        add_word(vs, signed_decimal_text(n).as_str());
        assert(kv.push(k@) =~= kv + seq![k@]);
        assert(vv.push(num::signed_decimal(n as int)) =~= vv + seq![
            num::signed_decimal(n as int),
        ]);
        assert(text::texts(ks@).len() == ks@.len());
        assert(text::texts(vs@).len() == vs@.len());
        assert(kv.len() == vv.len());
    } else {
        assert(kv =~= kv + Seq::<Seq<char>>::empty());
        assert(vv =~= vv + Seq::<Seq<char>>::empty());
    }
}

fn write_health(h: &HealthConfig) -> (r: String)
    ensures
        r@ == health_json(h@),
{
    let mut ks: Vec<String> = Vec::new();
    let mut vs: Vec<String> = Vec::new();
    ks.push("Test".to_owned());
    vs.push(write_array(&h.Test));
    assert(text::texts(ks@) =~= seq!["Test"@]);
    assert(text::texts(vs@) =~= seq![json::json_array(h@.test)]);
    add_member(&mut ks, &mut vs, "Interval", h.Interval);
    add_member(&mut ks, &mut vs, "Timeout", h.Timeout);
    add_member(&mut ks, &mut vs, "Retries", h.Retries);
    add_member(&mut ks, &mut vs, "StartPeriod", h.StartPeriod);
    add_member(&mut ks, &mut vs, "StartInterval", h.StartInterval);
    write_object(&ks, &vs)
}

pub open spec fn list_or_empty(o: Option<Seq<Seq<char>>>) -> Seq<Seq<char>> {
    match o {
        Some(v) => v,
        None => Seq::empty(),
    }
}

pub open spec fn list_or_null(o: Option<Seq<Seq<char>>>) -> Seq<char> {
    match o {
        Some(v) => json::json_array(v),
        None => "null"@,
    }
}

pub open spec fn health_or_null(o: Option<HealthView>) -> Seq<char> {
    match o {
        Some(h) => health_json(h),
        None => "null"@,
    }
}

/// What an image runs with.
pub open spec fn runtime_json(c: ConfigView) -> Seq<char> {
    json::json_object(
        seq![
            "Cmd"@,
            "Entrypoint"@,
            "Env"@,
            "ExposedPorts"@,
            "Healthcheck"@,
            "Labels"@,
            "StopSignal"@,
            "User"@,
            "Volumes"@,
            "WorkingDir"@,
        ] + (if c.shell is Some {
            seq!["Shell"@]
        } else {
            Seq::empty()
        }),
        seq![
            json::json_array(list_or_empty(c.cmd)),
            list_or_null(c.entrypoint),
            json::json_array(c.env),
            entries_json(c.exposed_ports),
            health_or_null(c.healthcheck),
            texts_json(c.labels),
            json::json_quoted(c.stop_signal),
            json::json_quoted(c.user),
            entries_json(c.volumes),
            json::json_quoted(c.workdir),
        ] + (match c.shell {
            Some(s) => seq![json::json_array(s)],
            None => Seq::empty(),
        }),
    )
}

fn write_runtime(c: &ConfigState) -> (r: String)
    ensures
        r@ == runtime_json(c@),
{
    let empty: Vec<String> = Vec::new();
    assert(text::texts(empty@) =~= Seq::empty());
    let cmd: String = match &c.cmd {
        Some(v) => write_array(v),
        None => write_array(&empty),
    };
    let entrypoint: String = match &c.entrypoint {
        Some(v) => write_array(v),
        None => "null".to_owned(),
    };
    let health: String = match &c.healthcheck {
        Some(h) => write_health(h),
        None => "null".to_owned(),
    };
    let mut ks: Vec<String> = words_of(
        &[
            "Cmd",
            "Entrypoint",
            "Env",
            "ExposedPorts",
            "Healthcheck",
            "Labels",
            "StopSignal",
            "User",
            "Volumes",
            "WorkingDir",
        ],
    );
    let mut vs: Vec<String> = Vec::new();
    vs.push(cmd);
    vs.push(entrypoint);
    vs.push(write_array(&c.env));
    vs.push(write_entries_or_null(&c.exposed_ports));
    vs.push(health);
    vs.push(write_entries(&c.labels, true));
    vs.push(write_text(c.stop_signal.as_str()));
    vs.push(write_text(c.user.as_str()));
    vs.push(write_entries_or_null(&c.volumes));
    vs.push(write_text(c.workdir.as_str()));
    let ghost k0 = text::texts(ks@);
    let ghost v0 = text::texts(vs@);
    if let Some(s) = &c.shell {
        add_word(&mut ks, "Shell");
        add_word(&mut vs, write_array(s).as_str());
    }
    assert(k0 =~= seq![
        "Cmd"@,
        "Entrypoint"@,
        "Env"@,
        "ExposedPorts"@,
        "Healthcheck"@,
        "Labels"@,
        "StopSignal"@,
        "User"@,
        "Volumes"@,
        "WorkingDir"@,
    ]);
    assert(v0 =~= seq![
        json::json_array(list_or_empty(c@.cmd)),
        list_or_null(c@.entrypoint),
        json::json_array(c@.env),
        entries_json(c@.exposed_ports),
        health_or_null(c@.healthcheck),
        texts_json(c@.labels),
        json::json_quoted(c@.stop_signal),
        json::json_quoted(c@.user),
        entries_json(c@.volumes),
        json::json_quoted(c@.workdir),
    ]);
    proof {
        if c.shell is None {
            assert(k0 + Seq::<Seq<char>>::empty() =~= k0);
            assert(v0 + Seq::<Seq<char>>::empty() =~= v0);
        } else {
            assert(text::texts(ks@) =~= k0 + seq!["Shell"@]);
            assert(text::texts(vs@) =~= v0 + seq![json::json_array(c@.shell->0)]);
        }
        assert(text::texts(ks@).len() == ks@.len());
        assert(text::texts(vs@).len() == vs@.len());
    }
    write_object(&ks, &vs)
}

/// The configuration of a built image, all on one line.
pub open spec fn built_json(c: ConfigView, created: Seq<char>, chain: Seq<Seq<char>>) -> Seq<char> {
    json::json_object(
        seq!["architecture"@, "config"@, "created"@, "history"@, "os"@, "rootfs"@],
        seq![
            json::json_quoted("amd64"@),
            runtime_json(c),
            json::json_quoted(created),
            "[]"@,
            json::json_quoted("linux"@),
            json::json_object(
                seq!["diff_ids"@, "type"@],
                seq![json::json_array(chain), json::json_quoted("layers"@)],
            ),
        ],
    )
}

/// The configuration of a built image, as it is stored: its digest is the image's id.
pub fn built_config(c: &ConfigState, created: &str, chain: &Vec<String>) -> (r: String)
    ensures
        r@ == built_text(c@, created@, text::texts(chain@)),
{
    let rk: Vec<String> = words_of(&["diff_ids", "type"]);
    let mut rv: Vec<String> = Vec::new();
    rv.push(write_array(chain));
    rv.push(write_text("layers"));
    assert(text::texts(rk@) =~= seq!["diff_ids"@, "type"@]);
    assert(text::texts(rv@) =~= seq![
        json::json_array(text::texts(chain@)),
        json::json_quoted("layers"@),
    ]);
    let rootfs: String = write_object(&rk, &rv);
    let ks: Vec<String> = words_of(
        &["architecture", "config", "created", "history", "os", "rootfs"],
    );
    let mut vs: Vec<String> = Vec::new();
    vs.push(write_text("amd64"));
    vs.push(write_runtime(c));
    vs.push(write_text(created));
    vs.push("[]".to_owned());
    vs.push(write_text("linux"));
    vs.push(rootfs);
    assert(text::texts(ks@) =~= seq![
        "architecture"@,
        "config"@,
        "created"@,
        "history"@,
        "os"@,
        "rootfs"@,
    ]);
    assert(text::texts(vs@) =~= seq![
        json::json_quoted("amd64"@),
        runtime_json(c@),
        json::json_quoted(created@),
        "[]"@,
        json::json_quoted("linux"@),
        rootfs@,
    ]);
    let flat: String = write_object(&ks, &vs);
    match pretty(flat.as_str()) {
        Some(p) => p,
        None => flat,
    }
}

} // verus!
