//! What the command line reads and shows, stated by what is read in it.

use vstd::prelude::*;

use crate::commands::{self, CopyView, SecretView};
use crate::compose::{self, DepCondition, DependValue, DependsOnSpec};
use crate::instructions;
use crate::json;
use crate::listing;
use crate::network;
use crate::num;
use crate::order;
use crate::queries;
use crate::registry;
use crate::stream;
use crate::table::Table;
use crate::text;
use crate::unicode;

verus! {

// ---------------------------------------------------------------- what is shown

/// A text says how many of something have passed.
pub open spec fn says(t: Seq<char>, count: nat, unit: Seq<char>) -> bool {
    t == num::decimal(count) + seq![' '] + unit + " ago"@
}

/// An age is given in the largest unit that it fills, rounded down: the count times the unit
/// is no more than it, and one more would be.
pub proof fn law_age_is_given_in_its_largest_unit(secs: nat)
    ensures
        ({
            let t = commands::age(secs as int);
            &&& secs < 60 ==> says(t, secs, "seconds"@)
            &&& 60 <= secs < 3600 ==> exists|c: nat| #[trigger]
                says(t, c, "minutes"@) && 60 * c <= secs < 60 * c + 60
            &&& 3600 <= secs < 86400 ==> exists|c: nat| #[trigger]
                says(t, c, "hours"@) && 3600 * c <= secs < 3600 * c + 3600
            &&& 86400 <= secs ==> exists|c: nat| #[trigger]
                says(t, c, "days"@) && 86400 * c <= secs < 86400 * c + 86400
        }),
{
    reveal_strlit(" seconds ago");
    reveal_strlit(" minutes ago");
    reveal_strlit(" hours ago");
    reveal_strlit(" days ago");
    reveal_strlit("seconds");
    reveal_strlit("minutes");
    reveal_strlit("hours");
    reveal_strlit("days");
    reveal_strlit(" ago");
    let t = commands::age(secs as int);
    if secs < 60 {
        assert(t =~= num::decimal(secs) + seq![' '] + "seconds"@ + " ago"@);
    } else if secs < 3600 {
        let c = secs / 60;
        assert(t =~= num::decimal(c) + seq![' '] + "minutes"@ + " ago"@);
        assert(says(t, c, "minutes"@));
    } else if secs < 86400 {
        let c = secs / 3600;
        assert(t =~= num::decimal(c) + seq![' '] + "hours"@ + " ago"@);
        assert(says(t, c, "hours"@));
    } else {
        let c = secs / 86400;
        assert(t =~= num::decimal(c) + seq![' '] + "days"@ + " ago"@);
        assert(says(t, c, "days"@));
    }
}

/// A text that is too long is cut, and a sign stands for what is missing; a text that fits
/// stays as it is.
pub proof fn law_long_text_is_cut(s: Seq<char>, n: int)
    requires
        0 <= n,
    ensures
        s.len() <= n ==> commands::shortened(s, n) == s,
        s.len() > n ==> ({
            let t = commands::shortened(s, n);
            t.len() == n + 1 && t.take(n) == s.take(n) && t.last() == '…'
        }),
{
    reveal_strlit("…");
    if s.len() > n {
        assert(commands::shortened(s, n).take(n) =~= s.take(n));
    }
}

/// Where a column begins.
pub open spec fn column_start(cells: Seq<Seq<char>>, widths: Seq<int>, i: int) -> int
    decreases i,
{
    if i <= 0 {
        0
    } else {
        column_start(cells, widths, i - 1) + column_width(cells[i - 1], widths[i - 1]) + 1
    }
}

/// A column is as wide as it is told, or as what stands in it where that is wider.
pub open spec fn column_width(cell: Seq<char>, width: int) -> int {
    if cell.len() > width {
        cell.len() as int
    } else {
        width
    }
}

proof fn lemma_column_start(
    cells: Seq<Seq<char>>,
    widths: Seq<int>,
    more: Seq<Seq<char>>,
    others: Seq<int>,
    i: int,
)
    requires
        forall|j: int| 0 <= j < i ==> #[trigger] cells[j] == more[j],
        forall|j: int| 0 <= j < i ==> #[trigger] widths[j] == others[j],
    ensures
        column_start(cells, widths, i) == column_start(more, others, i),
    decreases i,
{
    if i > 0 {
        lemma_column_start(cells, widths, more, others, i - 1);
        assert(cells[i - 1] == more[i - 1] && widths[i - 1] == others[i - 1]);
    }
}

#[verifier::rlimit(40)]
proof fn lemma_row(cells: Seq<Seq<char>>, widths: Seq<int>, i: int)
    requires
        cells.len() == widths.len(),
        0 <= i < cells.len(),
    ensures
        ({
            let r = commands::row(cells, widths);
            let a = column_start(cells, widths, i);
            let n = cells.len() as int;
            &&& 0 <= a && a + cells[i].len() <= r.len()
            &&& r.subrange(a, a + cells[i].len()) == cells[i]
            &&& r.len() == column_start(cells, widths, n) - 1
        }),
    decreases cells.len(),
{
    let n = cells.len() as int;
    let r = commands::row(cells, widths);
    let last = commands::column(cells.last(), widths.last());
    assert(last.len() == column_width(cells[n - 1], widths[n - 1]));
    reveal_strlit(" ");
    if n == 1 {
        assert(r.subrange(0, cells[0].len() as int) =~= cells[0]);
        assert(column_start(cells, widths, 0) == 0);
    } else {
        let before = cells.drop_last();
        let bw = widths.drop_last();
        let b = commands::row(before, bw);
        lemma_column_start(before, bw, cells, widths, n - 1);
        if i < n - 1 {
            lemma_row(before, bw, i);
            lemma_column_start(before, bw, cells, widths, i);
            let a = column_start(cells, widths, i);
            assert(before[i] == cells[i]);
            assert(r.subrange(a, a + cells[i].len()) =~= b.subrange(a, a + cells[i].len()));
        } else {
            lemma_row(before, bw, 0);
            let a = column_start(cells, widths, n - 1);
            assert(b.len() + 1 == a);
            assert(r.subrange(a, a + cells[i].len()) =~= cells[i]);
        }
    }
}

/// Every cell of a row stands in it whole, at the place where its column begins; columns
/// follow each other with a space between.
pub proof fn law_cells_stand_in_their_columns(cells: Seq<Seq<char>>, widths: Seq<int>, i: int)
    requires
        cells.len() == widths.len(),
        0 <= i < cells.len(),
    ensures
        ({
            let r = commands::row(cells, widths);
            let a = column_start(cells, widths, i);
            &&& 0 <= a && a + cells[i].len() <= r.len()
            &&& r.subrange(a, a + cells[i].len()) == cells[i]
        }),
{
    lemma_row(cells, widths, i);
}

/// A tag is shown as the repository and what stands behind the first colon.
pub proof fn law_tag_is_shown_apart(repo: Seq<char>, tag: Seq<char>)
    requires
        !repo.contains(':'),
    ensures
        commands::shown_tag(Some(repo + seq![':'] + tag)) == (repo, tag),
        commands::shown_tag(Some(repo)) == (repo, "latest"@),
{
    let s = repo + seq![':'] + tag;
    assert forall|j: int| 0 <= j < repo.len() implies s[j] != ':' by {
        assert(repo.contains(repo[j]));
    }
    text::lemma_found_char(s, ':', repo.len() as int);
    assert(s.take(repo.len() as int) =~= repo);
    assert(s.skip(repo.len() + 1int) =~= tag);
    text::lemma_find_char(repo, ':');
}

// ---------------------------------------------------------------- what is read

/// A container and a path in it, as they are written.
pub open spec fn is_container_path(c: Seq<char>, p: Seq<char>) -> bool {
    c.len() > 0 && p.len() > 0 && !c.contains(':') && !c.contains('/') && !c.contains('\\')
}

proof fn lemma_cp_spec(c: Seq<char>, p: Seq<char>)
    requires
        is_container_path(c, p),
    ensures
        commands::cp_spec(c + seq![':'] + p) == Some((c, p)),
{
    let s = c + seq![':'] + p;
    assert forall|j: int| 0 <= j < c.len() implies s[j] != ':' by {
        assert(c.contains(c[j]));
    }
    text::lemma_found_char(s, ':', c.len() as int);
    assert(s.take(c.len() as int) =~= c);
    assert(s.skip(c.len() + 1int) =~= p);
    text::lemma_find_char(c, '/');
    text::lemma_find_char(c, '\\');
}

/// Files are copied out of the container that the source names, and into the one that the
/// destination names; the request names the container and the path. With a container on both
/// sides or on neither nothing is copied.
pub proof fn law_copy_goes_the_way_it_is_told(
    c: Seq<char>,
    p: Seq<char>,
    local: Seq<char>,
    d: Seq<char>,
    q: Seq<char>,
    other: Seq<char>,
)
    requires
        is_container_path(c, p),
        is_container_path(d, q),
        !c.contains('?'),
        !local.contains(':'),
        !other.contains(':'),
    ensures
        commands::copying(c + seq![':'] + p, local) matches Ok(CopyView::Download(u))
            && queries::asks(u, "path"@, p) && text::starts_with(u, "/containers/"@ + c + "/"@),
        commands::copying(local, c + seq![':'] + p) matches Ok(CopyView::Upload(u))
            && queries::asks(u, "path"@, p) && text::starts_with(u, "/containers/"@ + c + "/"@),
        commands::copying(c + seq![':'] + p, d + seq![':'] + q) is Err,
        commands::copying(local, other) is Err,
{
    lemma_cp_spec(c, p);
    lemma_cp_spec(d, q);
    text::lemma_find_char(local, ':');
    text::lemma_find_char(other, ':');
    queries::law_archive_is_asked_for_as_told(c, p);
}

/// A secret is read as it is written: its id, and the file or the variable that holds its
/// value, in whichever order they stand.
#[verifier::rlimit(40)]
pub proof fn law_secret_is_read(id: Seq<char>, place: Seq<char>, from_file: bool)
    requires
        id.len() > 0,
        !id.contains(','),
        !place.contains(','),
    ensures
        ({
            let key = if from_file {
                "src"@
            } else {
                "env"@
            };
            let a = "id"@ + seq!['='] + id;
            let b = key + seq!['='] + place;
            let view = if from_file {
                SecretView::File(id, place)
            } else {
                SecretView::Variable(id, place)
            };
            &&& commands::secret_spec(a + seq![','] + b) == Ok::<SecretView, Seq<char>>(view)
            &&& commands::secret_spec(b + seq![','] + a) == Ok::<SecretView, Seq<char>>(view)
            &&& commands::secret_spec(a) is Err
            &&& commands::secret_spec(b) is Err
        }),
{
    reveal_strlit("id");
    reveal_strlit("src");
    reveal_strlit("env");
    assert("id"@.len() == 2 && "src"@[0] == 's' && "env"@[0] == 'e' && "src"@.len() == 3 && "env"@.len()
        == 3);
    let key = if from_file {
        "src"@
    } else {
        "env"@
    };
    let a = "id"@ + seq!['='] + id;
    let b = key + seq!['='] + place;
    lemma_secret_part("id"@, id);
    lemma_secret_part(key, place);
    lemma_pair_of_parts(a, b);
    lemma_pair_of_parts(b, a);
    text::lemma_join_first(seq![a], seq![',']);
    text::lemma_split_of_join(seq![a], ',');
    text::lemma_join_first(seq![b], seq![',']);
    text::lemma_split_of_join(seq![b], ',');
    let ab = seq![a, b];
    let ba = seq![b, a];
    let s = a + seq![','] + b;
    let t = b + seq![','] + a;
    assert(text::split(s, seq![',']) == ab);
    assert(text::split(t, seq![',']) == ba);
    assert(commands::secret_fault(s, ab, 0) is None);
    assert(commands::secret_fault(t, ba, 0) is None);
    assert(commands::secret_value(ab, "id"@, 0) is None);
    assert(commands::secret_value(ba, "id"@, 0) is None);
    assert(commands::secret_fault(s, ab, 1) is None);
    assert(commands::secret_fault(s, ab, 2) is None);
    assert(commands::secret_fault(t, ba, 1) is None);
    assert(commands::secret_fault(t, ba, 2) is None);
    assert(commands::secret_value(ab, "id"@, 1) == Some(id));
    assert(commands::secret_value(ab, "id"@, 2) == Some(id));
    assert(commands::secret_value(ba, "id"@, 2) == Some(id));
    assert(commands::secret_value(ab, key, 2) == Some(place));
    assert(commands::secret_value(ba, key, 1) == Some(place));
    assert(commands::secret_value(ba, key, 2) == Some(place));
    let other = if from_file {
        "env"@
    } else {
        "src"@
    };
    assert(commands::secret_value(ab, other, 0) is None);
    assert(commands::secret_value(ba, other, 0) is None);
    assert(commands::secret_value(ab, other, 1) is None);
    assert(commands::secret_value(ab, other, 2) is None);
    assert(commands::secret_value(ba, other, 1) is None);
    assert(commands::secret_value(ba, other, 2) is None);
    assert(text::split(a, seq![',']) == seq![a]);
    assert(text::split(b, seq![',']) == seq![b]);
    assert(commands::secret_value(seq![a], "src"@, 0) is None);
    assert(commands::secret_value(seq![a], "env"@, 0) is None);
    assert(commands::secret_value(seq![b], "id"@, 0) is None);
    assert(commands::secret_value(seq![a], "src"@, 1) is None);
    assert(commands::secret_value(seq![a], "env"@, 1) is None);
    assert(commands::secret_value(seq![b], "id"@, 1) is None);
}

proof fn lemma_secret_part(k: Seq<char>, v: Seq<char>)
    requires
        k == "id"@ || k == "src"@ || k == "env"@,
        !v.contains(','),
    ensures
        text::split_once(k + seq!['='] + v, seq!['=']) == Some((k, v)),
        !(k + seq!['='] + v).contains(','),
{
    reveal_strlit("id");
    reveal_strlit("src");
    reveal_strlit("env");
    let s = k + seq!['='] + v;
    let n = k.len() as int;
    assert forall|j: int| 0 <= j < n implies s[j] != '=' && s[j] != ',' by {
        assert(j == 0 || j == 1 || j == 2);
        assert(s[j] == k[j]);
    }
    text::lemma_found_char(s, '=', n);
    assert(s.take(n) =~= k);
    assert(s.skip(n + 1) =~= v);
    if s.contains(',') {
        let j = choose|j: int| 0 <= j < s.len() && s[j] == ',';
        if j > n {
            assert(v.contains(v[j - n - 1]));
        }
    }
}

proof fn lemma_pair_of_parts(a: Seq<char>, b: Seq<char>)
    requires
        !a.contains(','),
        !b.contains(','),
    ensures
        text::split(a + seq![','] + b, seq![',']) == seq![a, b],
{
    let parts = seq![a, b];
    text::lemma_join_first(parts, seq![',']);
    assert(parts.skip(1) =~= seq![b]);
    text::lemma_join_first(seq![b], seq![',']);
    text::lemma_split_of_join(parts, ',');
}

// ---------------------------------------------------------------- projects

/// A character that a project's name keeps.
pub open spec fn is_kept(c: char) -> bool {
    unicode::alphanumeric(c) || c == '_' || c == '-'
}

/// A name is cleaned of what it may not hold, and of nothing else: what is left holds only
/// what it may, a clean name stays what it is, and names are cleaned part by part.
pub proof fn law_names_are_cleaned(a: Seq<char>, b: Seq<char>)
    ensures
        forall|i: int| 0 <= i < compose::cleaned(a).len() ==> is_kept(#[trigger] compose::cleaned(a)[i]),
        (forall|i: int| 0 <= i < a.len() ==> is_kept(#[trigger] a[i])) ==> compose::cleaned(a) == a,
        compose::cleaned(a + b) == compose::cleaned(a) + compose::cleaned(b),
        compose::cleaned(a).len() <= a.len(),
    decreases a.len() + b.len(),
{
    if a.len() > 0 {
        law_names_are_cleaned(a.drop_last(), Seq::empty());
        if forall|i: int| 0 <= i < a.len() ==> is_kept(#[trigger] a[i]) {
            assert forall|i: int| 0 <= i < a.drop_last().len() implies is_kept(
                #[trigger] a.drop_last()[i],
            ) by {
                assert(is_kept(a[i]));
            }
            assert(is_kept(a[a.len() - 1]));
            assert(compose::cleaned(a) =~= a);
        }
    } else {
        assert(compose::cleaned(a) =~= a);
    }
    if b.len() > 0 {
        assert((a + b).drop_last() =~= a + b.drop_last());
        law_names_are_cleaned(a, b.drop_last());
        assert(compose::cleaned(a + b) =~= compose::cleaned(a) + compose::cleaned(b));
    } else {
        assert(a + b =~= a);
        assert(compose::cleaned(a + b) =~= compose::cleaned(a) + compose::cleaned(b));
    }
}

/// A project has the name that is asked for, before that of its directory.
pub proof fn law_asked_name_comes_first(asked: Seq<char>, dir: Option<Seq<char>>, d: Seq<char>)
    ensures
        compose::project_name(Some(asked), dir) == compose::cleaned(unicode::lowered(asked)),
        compose::cleaned(unicode::lowered(d)).len() > 0 ==> compose::project_name(None, Some(d))
            == compose::cleaned(unicode::lowered(d)),
        compose::project_name(None, None) == "default"@,
        compose::project_name(None, dir).len() > 0,
{
    reveal_strlit("default");
}

proof fn lemma_profiles_with(v: Seq<Seq<char>>, parts: Seq<Seq<char>>)
    ensures
        forall|x: Seq<char>| #[trigger]
            compose::profiles_with(v, parts).contains(x) <==> v.contains(x) || (x.len() > 0
                && exists|i: int| 0 <= i < parts.len() && x == text::trim(#[trigger] parts[i])),
    decreases parts.len(),
{
    let now = compose::profiles_with(v, parts);
    if parts.len() > 0 {
        let before = parts.drop_last();
        let w = compose::profiles_with(v, before);
        let p = text::trim(parts.last());
        lemma_profiles_with(v, before);
        assert forall|x: Seq<char>| #[trigger] now.contains(x) <==> v.contains(x) || (x.len() > 0
            && exists|i: int| 0 <= i < parts.len() && x == text::trim(#[trigger] parts[i])) by {
            if now.contains(x) {
                let k = choose|k: int| 0 <= k < now.len() && now[k] == x;
                if k < w.len() {
                    assert(w[k] == x);
                    assert(w.contains(x));
                    if !v.contains(x) {
                        let i = choose|i: int|
                            0 <= i < before.len() && x == text::trim(#[trigger] before[i]);
                        assert(parts[i] == before[i]);
                    }
                } else {
                    assert(x == p);
                    assert(x == text::trim(parts[parts.len() - 1]));
                }
            }
            if v.contains(x) {
                assert(w.contains(x));
                let k = choose|k: int| 0 <= k < w.len() && w[k] == x;
                assert(now[k] == x);
            }
            if x.len() > 0 && exists|i: int|
                0 <= i < parts.len() && x == text::trim(#[trigger] parts[i]) {
                let i = choose|i: int| 0 <= i < parts.len() && x == text::trim(#[trigger] parts[i]);
                if i < before.len() {
                    assert(before[i] == parts[i]);
                    assert(w.contains(x));
                    let k = choose|k: int| 0 <= k < w.len() && w[k] == x;
                    assert(now[k] == x);
                } else if w.contains(x) {
                    let k = choose|k: int| 0 <= k < w.len() && w[k] == x;
                    assert(now[k] == x);
                } else {
                    assert(now[w.len() as int] == x);
                }
            }
        }
    }
}

/// The profiles of an environment variable are active: each that it lists, without the white
/// space around it, and no other.
pub proof fn law_listed_profiles_are_active(env: Seq<char>, x: Seq<char>)
    ensures
        compose::profiles_of(Seq::empty(), Some(env)).contains(x) <==> x.len() > 0 && exists|i: int|
            0 <= i < text::split(env, seq![',']).len() && x == text::trim(
                #[trigger] text::split(env, seq![','])[i],
            ),
        compose::profiles_of(Seq::empty(), None).len() == 0,
{
    let none = Seq::<Seq<char>>::empty();
    assert(compose::cli_profiles(none, 0) =~= none);
    lemma_profiles_with(none, text::split(env, seq![',']));
    assert(!none.contains(x));
    assert(compose::profiles_of(none, Some(env)) == compose::profiles_with(
        none,
        text::split(env, seq![',']),
    ));
}

/// A profile of the command line is active whatever the environment says, and both are.
pub proof fn law_asked_profiles_are_active(p: Seq<char>, env: Option<Seq<char>>, x: Seq<char>)
    requires
        !p.contains(','),
        instructions::is_trim(p),
    ensures
        compose::profiles_of(seq![p], env).contains(p),
        compose::profiles_of(Seq::empty(), env).contains(x) ==> compose::profiles_of(
            seq![p],
            env,
        ).contains(x),
        env is None ==> compose::profiles_of(seq![p], env) == seq![p],
{
    let none = Seq::<Seq<char>>::empty();
    let cli = seq![p];
    text::lemma_join_first(cli, seq![',']);
    text::lemma_split_of_join(cli, ',');
    text::lemma_trim(p);
    let parts = text::split(p, seq![',']);
    assert(parts == cli);
    assert(compose::cli_profiles(cli, 0) =~= none);
    assert(cli.drop_last() =~= none);
    assert(compose::profiles_with(none, none) == none);
    assert(!none.contains(p));
    assert(compose::profiles_with(none, cli) =~= cli);
    assert(compose::cli_profiles(cli, 1) == cli);
    assert(compose::cli_profiles(none, 0) =~= none);
    assert(cli[0] == p);
    assert(cli.contains(p));
    if let Some(e) = env {
        let es = text::split(e, seq![',']);
        lemma_profiles_with(cli, es);
        lemma_profiles_with(none, es);
        assert(compose::profiles_of(cli, env) == compose::profiles_with(cli, es));
        assert(compose::profiles_of(none, env) == compose::profiles_with(none, es));
    }
}

/// What a condition asks of a dependency.
pub open spec fn asks_of_dependency(t: Seq<char>, c: DepCondition) -> bool {
    match c {
        DepCondition::Started => t.len() == 0 || t == "service_started"@,
        DepCondition::Healthy => t == "service_healthy"@,
        DepCondition::Completed => t == "service_completed_successfully"@,
    }
}

proof fn lemma_conditions_to(
    t: Table<DependValue>,
    names: Seq<Seq<char>>,
    n: int,
)
    requires
        0 <= n <= names.len(),
        compose::conditions_to(t, names, n) is Ok,
    ensures
        compose::conditions_to(t, names, n)->Ok_0.len() == n,
        forall|i: int|
            0 <= i < n ==> (#[trigger] compose::conditions_to(t, names, n)->Ok_0[i]).0 == names[i]
                && asks_of_dependency(
                compose::condition_text(t.at(names[i])->0),
                compose::conditions_to(t, names, n)->Ok_0[i].1,
            ),
    decreases n,
{
    if n > 0 {
        lemma_conditions_to(t, names, n - 1);
    }
}

/// Every dependency has its condition: those that are only named have to have started, the
/// others what is said of them, each once and in the order of their names.
pub proof fn law_dependencies_have_their_conditions(
    deps: DependsOnSpec,
    v: Seq<(Seq<char>, DepCondition)>,
)
    requires
        compose::conditions(Some(deps)) == Ok::<Seq<(Seq<char>, DepCondition)>, Seq<char>>(v),
    ensures
        match deps {
            DependsOnSpec::List(l) => v.len() == l@.len() && forall|i: int|
                0 <= i < v.len() ==> (#[trigger] v[i]).0 == l@[i]@ && v[i].1
                    == DepCondition::Started,
            DependsOnSpec::Entries(t) => {
                &&& forall|i: int|
                    0 <= i < v.len() ==> asks_of_dependency(
                        compose::condition_text(t.at((#[trigger] v[i]).0)->0),
                        v[i].1,
                    )
                &&& forall|i: int, j: int|
                    0 <= i < j < v.len() ==> (#[trigger] v[i]).0 != (#[trigger] v[j]).0
                &&& forall|k: Seq<char>| #[trigger]
                    t.has(k) ==> exists|i: int| 0 <= i < v.len() && (#[trigger] v[i]).0 == k
            },
        },
{
    if let DependsOnSpec::Entries(t) = deps {
        let ks = compose::keys(t);
        let names = order::sorted_set(ks);
        order::law_sorted_set(ks);
        lemma_conditions_to(t, names, names.len() as int);
        assert forall|i: int, j: int| 0 <= i < j < v.len() implies (#[trigger] v[i]).0 != (
        #[trigger] v[j]).0 by {
            assert(v[i].0 == names[i] && v[j].0 == names[j]);
            order::lemma_less_total(names[i], names[i]);
            assert(order::less(names[i], names[j]));
        }
        assert forall|k: Seq<char>| #[trigger] t.has(k) implies exists|i: int|
            0 <= i < v.len() && (#[trigger] v[i]).0 == k by {
            compose::lemma_key_is_there(t, k);
            assert(names.contains(k));
            let i = choose|i: int| 0 <= i < names.len() && names[i] == k;
            assert(v[i].0 == k);
        }
    }
}

// ---------------------------------------------------------------- lists

/// A cell stands in a row.
pub open spec fn stands_in(r: Seq<char>, cell: Seq<char>, at: int) -> bool {
    0 <= at && at + cell.len() <= r.len() && r.subrange(at, at + cell.len()) == cell
}

/// The text under a name of an item of a reply, empty where there is none.
pub open spec fn told(doc: Seq<u8>, i: int, name: Seq<char>) -> Seq<char> {
    match json::json_text(doc, seq!['/'] + num::decimal(i as nat) + name) {
        Some(t) => t,
        None => Seq::empty(),
    }
}

proof fn lemma_told(doc: Seq<u8>, i: int, name: Seq<char>)
    ensures
        listing::field(doc, listing::item(i) + name) == told(doc, i, name),
{
    assert(listing::item(i) =~= seq!['/'] + num::decimal(i as nat));
}

/// The row of a container begins with its id; its image follows in the column behind.
#[verifier::rlimit(40)]
pub proof fn law_container_row_tells_of_it(doc: Seq<u8>, i: int, now: i64)
    requires
        told(doc, i, "/Id"@).len() <= 14,
        told(doc, i, "/Image"@).len() <= 16,
        told(doc, i, "/Command"@).len() <= 22,
    ensures
        ({
            let r = listing::container_at(doc, i, now, true);
            &&& stands_in(r, told(doc, i, "/Id"@), 0)
            &&& stands_in(r, told(doc, i, "/Image"@), 15)
            &&& stands_in(r, told(doc, i, "/Command"@), 32)
            &&& exists|a: int| #[trigger] stands_in(r, told(doc, i, "/Status"@), a) && a > 56
        }),
{
    lemma_told(doc, i, "/Id"@);
    lemma_told(doc, i, "/Image"@);
    lemma_told(doc, i, "/Command"@);
    lemma_told(doc, i, "/Status"@);
    let p = listing::item(i);
    let cells = seq![
        commands::shown_id(listing::field(doc, p + "/Id"@), true),
        listing::field(doc, p + "/Image"@),
        commands::shortened(listing::field(doc, p + "/Command"@), 22),
        listing::age_at(doc, p + "/Created"@, now),
        listing::field(doc, p + "/Status"@),
        text::strip_starts(listing::field(doc, p + "/Names/0"@), seq!['/']),
    ];
    let w = commands::container_widths();
    law_cells_stand_in_their_columns(cells, w, 0);
    law_cells_stand_in_their_columns(cells, w, 1);
    law_cells_stand_in_their_columns(cells, w, 2);
    law_cells_stand_in_their_columns(cells, w, 4);
    assert(column_start(cells, w, 0) == 0);
    assert(column_start(cells, w, 1) == 15);
    assert(column_start(cells, w, 2) == 32);
    assert(column_start(cells, w, 3) == 57);
    let a = column_start(cells, w, 4);
    let r = listing::container_at(doc, i, now, true);
    assert(stands_in(r, told(doc, i, "/Status"@), a));
}

/// The row of a network tells its name, its driver and its range.
pub proof fn law_network_row_tells_of_it(doc: Seq<u8>, i: int)
    ensures
        ({
            let r = listing::network_at(doc, i);
            &&& exists|a: int| #[trigger] stands_in(r, told(doc, i, "/Name"@), a) && a > 20
            &&& exists|a: int| #[trigger] stands_in(r, told(doc, i, "/Driver"@), a) && a > 33
            &&& exists|a: int|
                #[trigger] stands_in(r, told(doc, i, "/IPAM/Config/0/Subnet"@), a) && a > 52
        }),
{
    lemma_told(doc, i, "/Name"@);
    lemma_told(doc, i, "/Driver"@);
    lemma_told(doc, i, "/IPAM/Config/0/Subnet"@);
    let p = listing::item(i);
    let cells = seq![
        network::byte_prefix(listing::field(doc, p + "/Id"@), 12),
        listing::field(doc, p + "/Name"@),
        listing::field(doc, p + "/Driver"@),
        listing::field(doc, p + "/IPAM/Config/0/Subnet"@),
    ];
    let w = seq![20int, 12, 18, 16];
    law_cells_stand_in_their_columns(cells, w, 1);
    law_cells_stand_in_their_columns(cells, w, 2);
    law_cells_stand_in_their_columns(cells, w, 3);
    assert(column_start(cells, w, 0) == 0);
    let r = listing::network_at(doc, i);
    let a = column_start(cells, w, 1);
    let b = column_start(cells, w, 2);
    let c = column_start(cells, w, 3);
    assert(a >= 21 && b >= a + 13 && c >= b + 19);
    assert(stands_in(r, told(doc, i, "/Name"@), a));
    assert(stands_in(r, told(doc, i, "/Driver"@), b));
    assert(stands_in(r, told(doc, i, "/IPAM/Config/0/Subnet"@), c));
}

/// The row of an image tells its repository, its tag, its id and its size.
#[verifier::rlimit(40)]
pub proof fn law_image_row_tells_of_it(
    doc: Seq<u8>,
    i: int,
    now: i64,
    size: Seq<char>,
    repo: Seq<char>,
    tag: Seq<char>,
)
    requires
        !repo.contains(':'),
        told(doc, i, "/RepoTags/0"@) == repo + seq![':'] + tag,
        repo.len() <= 20,
    ensures
        ({
            let r = listing::image_at(doc, i, now, true, size);
            &&& stands_in(r, repo, 0)
            &&& stands_in(r, tag, 21)
            &&& stands_in(r, size, r.len() - size.len())
        }),
{
    law_tag_is_shown_apart(repo, tag);
    let p = listing::item(i);
    assert(p =~= seq!['/'] + num::decimal(i as nat));
    let t = commands::shown_tag(json::json_text(doc, p + "/RepoTags/0"@));
    assert(told(doc, i, "/RepoTags/0"@).len() > 0);
    let cells = seq![
        t.0,
        t.1,
        commands::shown_id(listing::id_at(doc, i, true), true),
        listing::age_at(doc, p + "/Created"@, now),
        size,
    ];
    let w = commands::image_widths();
    law_cells_stand_in_their_columns(cells, w, 0);
    law_cells_stand_in_their_columns(cells, w, 1);
    law_cells_stand_in_their_columns(cells, w, 4);
    lemma_row(cells, w, 4);
    assert(column_start(cells, w, 0) == 0);
    assert(column_start(cells, w, 1) == 21);
    assert(column_start(cells, w, 5) == column_start(cells, w, 4) + column_width(size, 0) + 1);
}

// ---------------------------------------------------------------- the daemon

/// The socket is the one that the first variable with a `unix://` address names; other
/// addresses are passed over.
pub proof fn law_socket_is_the_one_named(path: Seq<char>, other: Option<Seq<char>>, far: Seq<char>)
    requires
        !text::starts_with(far, "unix://"@),
    ensures
        stream::socket_named(seq![Some("unix://"@ + path), other], 0) == path,
        stream::socket_named(seq![None, Some("unix://"@ + path)], 0) == path,
        stream::socket_named(seq![Some(far), Some("unix://"@ + path)], 0) == path,
        stream::socket_named(seq![Some(far), None], 0) == stream::socket_named(
            seq![None::<Seq<char>>, None],
            0,
        ),
{
    reveal_strlit("unix://");
    reveal_with_fuel(stream::socket_named, 3);
    let s = "unix://"@ + path;
    assert(s.subrange(0, 7) =~= "unix://"@);
    assert(s.skip(7) =~= path);
}

/// An error of the daemon tells its status and ends with its message.
pub proof fn law_error_tells_status_and_message(status: nat, message: Seq<char>)
    ensures
        ({
            let t = stream::daemon_error(status, message);
            &&& t.skip(t.len() - message.len()) == message
            &&& text::contains(t, seq!['('] + num::decimal(status) + seq![')'])
        }),
{
    reveal_strlit("Error response from daemon (");
    reveal_strlit("): ");
    let t = stream::daemon_error(status, message);
    assert(t.skip(t.len() - message.len()) =~= message);
    let d = num::decimal(status);
    let k = "Error response from daemon ("@.len() - 1;
    let p = seq!['('] + d + seq![')'];
    assert(t.subrange(k, k + p.len()) =~= p);
    text::lemma_find_hits(t, p, k);
}

/// A registry that asks for a wait is given it, up to half a minute.
pub proof fn law_wait_is_given_as_asked(n: nat)
    requires
        n <= u64::MAX,
    ensures
        registry::retry_after(Some(num::decimal(n))) == if n < 30 {
            n
        } else {
            30
        },
        registry::retry_after(None) == 0,
{
    num::lemma_decimal_reads_back(n);
    let d = num::decimal(n);
    assert('0' <= d[0] <= '9' && '0' <= d[d.len() - 1] <= '9');
    text::lemma_trim(d);
    assert(num::unsigned_digits(d) == d);
}

} // verus!
