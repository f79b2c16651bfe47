//! The command line: where its requests go, what they carry, and what is shown.

use vstd::prelude::*;
use vstd::slice::slice_subrange;

use crate::auth;
use crate::dockerfile;
use crate::encode::{self, Place, path_escape, url_escape};
use crate::json::{self, integer_at, is_document, items_at, text_at, write_array, write_bool, write_object, write_text};
use crate::network::{self, add_word, first_bytes, words_of};
use crate::num::{self, decimal_text, signed_decimal_text};
use crate::order::{self, sort_unique};
use crate::ports::{self, MappingView, PortMapping, parse_port_spec};
use crate::pushing::{self, abbreviate};
use crate::reference::{self, ImageRef, Reference};
use crate::registry;
use crate::store::{self, bare};
use crate::table::Table;
use crate::text::{self, chars_of, has_char, join_text, lower_ascii, one_char, same, same_chars, str_cut, str_split, str_starts, str_trim, string_of, strip_starts_text};
use crate::unicode::{self, quote};

verus! {

// ---------------------------------------------------------------- showing things

/// How long ago something was, in the largest unit that fits.
pub open spec fn age(secs: int) -> Seq<char> {
    let n = if secs > 0 {
        secs as nat
    } else {
        0
    };
    if n < 60 {
        num::decimal(n) + " seconds ago"@
    } else if n < 3600 {
        num::decimal(n / 60) + " minutes ago"@
    } else if n < 86400 {
        num::decimal(n / 3600) + " hours ago"@
    } else {
        num::decimal(n / 86400) + " days ago"@
    }
}

/// How long ago something was, so many seconds before now; what lies ahead counts as now.
pub fn human_created(secs_ago: i64) -> (r: String)
    ensures
        r@ == age(secs_ago as int),
{
    let n: u64 = if secs_ago > 0 {
        secs_ago as u64
    } else {
        0
    };
    let (v, unit): (u64, &str) = if n < 60 {
        (n, " seconds ago")
    } else if n < 3600 {
        (n / 60, " minutes ago")
    } else if n < 86400 {
        (n / 3600, " hours ago")
    } else {
        (n / 86400, " days ago")
    };
    let mut s: String = decimal_text(v as u128);
    s.append(unit);
    s
}

/// How a list is shown.
#[derive(Debug, Clone, Copy, PartialEq, Eq, Structural)]
pub enum ListFormat {
    Table,
    Json,
}

/// The format that `--format` names.
pub open spec fn list_format(s: Option<Seq<char>>) -> Result<Option<ListFormat>, Seq<char>> {
    match s {
        None => Ok(None),
        Some(f) => if f == "table"@ {
            Ok(Some(ListFormat::Table))
        } else if f == "json"@ {
            Ok(Some(ListFormat::Json))
        } else {
            Err(
                "unsupported --format "@ + unicode::quoted(f)
                    + " (expected \"table\" or \"json\"; Go templates are not supported)"@,
            )
        },
    }
}

pub fn parse_list_format(s: Option<&str>) -> (r: Result<Option<ListFormat>, String>)
    ensures
        match r {
            Ok(f) => list_format(registry::opt_str(s)) == Ok::<Option<ListFormat>, Seq<char>>(f),
            Err(e) => list_format(registry::opt_str(s)) == Err::<Option<ListFormat>, Seq<char>>(e@),
        },
{
    match s {
        None => Ok(None),
        Some(f) => {
            if same(f, "table") {
                return Ok(Some(ListFormat::Table));
            }
            if same(f, "json") {
                return Ok(Some(ListFormat::Json));
            }
            let mut e: String = "unsupported --format ".to_owned();
            e.append(quote(f).as_str());
            e.append(" (expected \"table\" or \"json\"; Go templates are not supported)");
            Err(e)
        },
    }
}

/// The text, cut after `n` characters with an ellipsis where it is longer.
pub open spec fn shortened(s: Seq<char>, n: int) -> Seq<char> {
    if s.len() <= n {
        s
    } else {
        s.take(n) + "…"@
    }
}

pub fn truncate(s: &str, n: usize) -> (r: String)
    ensures
        r@ == shortened(s@, n as int),
{
    let cs: Vec<char> = chars_of(s);
    if cs.len() <= n {
        return s.to_owned();
    }
    let head: &[char] = slice_subrange(cs.as_slice(), 0, n);
    assert(head@ =~= s@.take(n as int));
    let mut r: String = string_of(head);
    r.append("…");
    r
}

/// So many spaces.
pub open spec fn blanks(n: int) -> Seq<char> {
    Seq::new(
        if n > 0 {
            n as nat
        } else {
            0
        },
        |i: int| ' ',
    )
}

/// The text in a column: filled up with spaces where it is narrower.
pub open spec fn column(s: Seq<char>, width: int) -> Seq<char> {
    s + blanks(width - s.len())
}

fn in_column(s: &str, width: usize) -> (r: String)
    ensures
        r@ == column(s@, width as int),
{
    let n: usize = chars_of(s).len();
    let mut r: String = s.to_owned();
    let mut i: usize = n;
    while i < width
        invariant
            n == s@.len(),
            n <= i <= width || (i == n && n > width),
            r@ =~= s@ + blanks(i - n),
        decreases width - i,
    {
        r.push(' ');
        i += 1;
    }
    assert(r@ =~= column(s@, width as int));
    r
}

/// Cells in columns, one space between them; the last cell as it is.
pub open spec fn row(cells: Seq<Seq<char>>, widths: Seq<int>) -> Seq<char>
    decreases cells.len(),
{
    if cells.len() == 0 {
        Seq::empty()
    } else if cells.len() == 1 {
        column(cells[0], widths[0])
    } else {
        row(cells.drop_last(), widths.drop_last()) + " "@ + column(cells.last(), widths.last())
    }
}

pub open spec fn widths_of(v: Seq<usize>) -> Seq<int> {
    Seq::new(v.len(), |i: int| v[i] as int)
}

/// A row of a table: each cell in a column of its width, a width of nought for a cell that
/// is shown as it is.
pub fn table_row(cells: &[&str], widths: &[usize]) -> (r: String)
    requires
        cells@.len() == widths@.len(),
    ensures
        r@ == row(Seq::new(cells@.len(), |i: int| cells@[i]@), widths_of(widths@)),
{
    let ghost cv = Seq::new(cells@.len(), |i: int| cells@[i]@);
    let ghost wv = widths_of(widths@);
    let mut r: String = String::new();
    let mut i: usize = 0;
    assert(cv.take(0) =~= Seq::empty());
    while i < cells.len()
        invariant
            i <= cells.len(),
            cells@.len() == widths@.len(),
            cv == Seq::new(cells@.len(), |i: int| cells@[i]@),
            wv == widths_of(widths@),
            r@ == row(cv.take(i as int), wv.take(i as int)),
        decreases cells.len() - i,
    {
        assert(cv.take(i as int + 1).drop_last() =~= cv.take(i as int));
        assert(wv.take(i as int + 1).drop_last() =~= wv.take(i as int));
        let ghost r0 = r@;
        if i > 0 {
            r.append(" ");
        }
        let c: String = in_column(cells[i], widths[i]);
        r.append(c.as_str());
        if i == 0 {
            assert(r@ =~= c@);
        }
        i += 1;
    }
    assert(cv.take(cv.len() as int) =~= cv);
    assert(wv.take(wv.len() as int) =~= wv);
    r
}

/// The id, whole or its first twelve characters.
pub open spec fn shown_id(id: Seq<char>, whole: bool) -> Seq<char> {
    if whole {
        id
    } else {
        pushing::abbreviated(id)
    }
}

pub fn show_id(id: &str, whole: bool) -> (r: String)
    ensures
        r@ == shown_id(id@, whole),
{
    if whole {
        id.to_owned()
    } else {
        abbreviate(id)
    }
}

/// One container in the list.
pub struct ContainerRow {
    pub id: String,
    pub image: String,
    pub command: String,
    pub age: String,
    pub status: String,
    /// The first name, which may begin with a slash.
    pub name: String,
}

pub open spec fn container_widths() -> Seq<int> {
    seq![14, 16, 24, 12, 16, 0]
}

pub open spec fn container_shown(c: ContainerRow, whole: bool) -> Seq<char> {
    row(
        seq![
            shown_id(c.id@, whole),
            c.image@,
            shortened(c.command@, 22),
            c.age@,
            c.status@,
            text::strip_starts(c.name@, seq!['/']),
        ],
        container_widths(),
    )
}

/// The head of the list of containers.
pub fn container_head() -> (r: String)
    ensures
        r@ == row(
            seq!["CONTAINER ID"@, "IMAGE"@, "COMMAND"@, "CREATED"@, "STATUS"@, "NAMES"@],
            container_widths(),
        ),
{
    let cells: [&str; 6] = ["CONTAINER ID", "IMAGE", "COMMAND", "CREATED", "STATUS", "NAMES"];
    let r: String = table_row(&cells, &[14, 16, 24, 12, 16, 0]);
    proof {
        assert(widths_of(seq![14usize, 16, 24, 12, 16, 0]) =~= container_widths());
        assert(Seq::new(6, |i: int| cells@[i]@) =~= seq![
            "CONTAINER ID"@,
            "IMAGE"@,
            "COMMAND"@,
            "CREATED"@,
            "STATUS"@,
            "NAMES"@,
        ]);
    }
    r
}

/// The line of a container.
pub fn container_line(c: &ContainerRow, whole: bool) -> (r: String)
    ensures
        r@ == container_shown(*c, whole),
{
    let id: String = show_id(c.id.as_str(), whole);
    let command: String = truncate(c.command.as_str(), 22);
    let cs: Vec<char> = chars_of(c.name.as_str());
    let name: String = string_of(strip_starts_text(cs.as_slice(), one_char('/').as_slice()));
    let cells: [&str; 6] = [
        id.as_str(),
        c.image.as_str(),
        command.as_str(),
        c.age.as_str(),
        c.status.as_str(),
        name.as_str(),
    ];
    let r: String = table_row(&cells, &[14, 16, 24, 12, 16, 0]);
    proof {
        assert(widths_of(seq![14usize, 16, 24, 12, 16, 0]) =~= container_widths());
        assert(Seq::new(6, |i: int| cells@[i]@) =~= seq![
            id@,
            c.image@,
            command@,
            c.age@,
            c.status@,
            name@,
        ]);
    }
    r
}

/// The repository and the tag that an image is shown under: its first tag, cut at the
/// first colon.
pub open spec fn shown_tag(first: Option<Seq<char>>) -> (Seq<char>, Seq<char>) {
    match first {
        Some(t) => match text::split_once(t, seq![':']) {
            Some((a, b)) => (a, b),
            None => (t, "latest"@),
        },
        None => ("<none>"@, "<none>"@),
    }
}

pub fn repo_and_tag(first: Option<&str>) -> (r: (String, String))
    ensures
        (r.0@, r.1@) == shown_tag(registry::opt_str(first)),
{
    match first {
        Some(t) => match str_cut(t, ':') {
            Some(p) => p,
            None => (t.to_owned(), "latest".to_owned()),
        },
        None => ("<none>".to_owned(), "<none>".to_owned()),
    }
}

pub open spec fn image_widths() -> Seq<int> {
    seq![20, 10, 16, 20, 0]
}

pub fn image_head() -> (r: String)
    ensures
        r@ == row(seq!["REPOSITORY"@, "TAG"@, "IMAGE ID"@, "CREATED"@, "SIZE"@], image_widths()),
{
    let cells: [&str; 5] = ["REPOSITORY", "TAG", "IMAGE ID", "CREATED", "SIZE"];
    let r: String = table_row(&cells, &[20, 10, 16, 20, 0]);
    proof {
        assert(widths_of(seq![20usize, 10, 16, 20, 0]) =~= image_widths());
        assert(Seq::new(5, |i: int| cells@[i]@) =~= seq![
            "REPOSITORY"@,
            "TAG"@,
            "IMAGE ID"@,
            "CREATED"@,
            "SIZE"@,
        ]);
    }
    r
}

/// The line of an image.
pub fn image_line(first_tag: Option<&str>, id: &str, whole: bool, age: &str, size: &str) -> (r:
    String)
    ensures
        r@ == row(
            seq![
                shown_tag(registry::opt_str(first_tag)).0,
                shown_tag(registry::opt_str(first_tag)).1,
                shown_id(store::bare_id(id@), whole),
                age@,
                size@,
            ],
            image_widths(),
        ),
{
    let (repo, tag): (String, String) = repo_and_tag(first_tag);
    let shown: String = show_id(bare(id).as_str(), whole);
    let cells: [&str; 5] = [repo.as_str(), tag.as_str(), shown.as_str(), age, size];
    let r: String = table_row(&cells, &[20, 10, 16, 20, 0]);
    proof {
        assert(widths_of(seq![20usize, 10, 16, 20, 0]) =~= image_widths());
        assert(Seq::new(5, |i: int| cells@[i]@) =~= seq![repo@, tag@, shown@, age@, size@]);
    }
    r
}

// ---------------------------------------------------------------- pairs of keys and values

/// The keys of the texts that are `key=value`.
pub open spec fn pair_keys(v: Seq<Seq<char>>) -> Seq<Seq<char>>
    decreases v.len(),
{
    if v.len() == 0 {
        Seq::empty()
    } else {
        match text::split_once(v.last(), seq!['=']) {
            Some((k, _)) => pair_keys(v.drop_last()).push(k),
            None => pair_keys(v.drop_last()),
        }
    }
}

/// The value of a key: the last one counts.
pub open spec fn pair_value(v: Seq<Seq<char>>, k: Seq<char>) -> Seq<char>
    decreases v.len(),
{
    if v.len() == 0 {
        Seq::empty()
    } else {
        match text::split_once(v.last(), seq!['=']) {
            Some((a, b)) => if a == k {
                b
            } else {
                pair_value(v.drop_last(), k)
            },
            None => pair_value(v.drop_last(), k),
        }
    }
}

/// The JSON of each value, in a list of its own where that is asked for.
pub open spec fn pair_values(v: Seq<Seq<char>>, ks: Seq<Seq<char>>, listed: bool) -> Seq<Seq<char>> {
    Seq::new(
        ks.len(),
        |i: int|
            if listed {
                json::json_array(seq![pair_value(v, ks[i])])
            } else {
                json::json_quoted(pair_value(v, ks[i]))
            },
    )
}

/// Texts `key=value` as a JSON object, its keys in order; other texts are passed over.
pub open spec fn pairs_json(v: Seq<Seq<char>>, listed: bool) -> Seq<char> {
    let ks = order::sorted_set(pair_keys(v));
    json::json_object(ks, pair_values(v, ks, listed))
}

fn value_of(v: &[String], k: &str) -> (r: String)
    ensures
        r@ == pair_value(text::texts(v@), k@),
{
    let ghost tv = text::texts(v@);
    let mut n: usize = v.len();
    assert(tv.take(tv.len() as int) =~= tv);
    while n > 0
        invariant
            n <= v.len(),
            tv == text::texts(v@),
            pair_value(tv, k@) == pair_value(tv.take(n as int), k@),
        decreases n,
    {
        assert(tv.take(n as int).drop_last() =~= tv.take(n - 1));
        assert(tv.take(n as int).last() == v@[n - 1]@);
        if let Some((a, b)) = str_cut(v[n - 1].as_str(), '=') {
            if same(a.as_str(), k) {
                return b;
            }
        }
        n -= 1;
    }
    String::new()
}

/// Texts `key=value` as a JSON object.
pub fn write_pairs(v: &[String], listed: bool) -> (r: String)
    ensures
        r@ == pairs_json(text::texts(v@), listed),
{
    let ghost tv = text::texts(v@);
    let mut keys: Vec<String> = Vec::new();
    let mut i: usize = 0;
    assert(text::texts(keys@) =~= Seq::empty());
    assert(tv.take(0) =~= Seq::empty());
    while i < v.len()
        invariant
            i <= v.len(),
            tv == text::texts(v@),
            text::texts(keys@) == pair_keys(tv.take(i as int)),
        decreases v.len() - i,
    {
        assert(tv.take(i as int + 1).drop_last() =~= tv.take(i as int));
        if let Some((k, _)) = str_cut(v[i].as_str(), '=') {
            add_word(&mut keys, k.as_str());
        }
        i += 1;
    }
    assert(tv.take(tv.len() as int) =~= tv);
    let ks: Vec<String> = sort_unique(&keys);
    let ghost kv = text::texts(ks@);
    let ghost pv = pair_values(tv, kv, listed);
    let mut vals: Vec<String> = Vec::new();
    let mut j: usize = 0;
    while j < ks.len()
        invariant
            j <= ks.len(),
            tv == text::texts(v@),
            kv == text::texts(ks@),
            pv == pair_values(tv, kv, listed),
            text::texts(vals@) =~= pv.take(j as int),
        decreases ks.len() - j,
    {
        let x: String = value_of(v, ks[j].as_str());
        let w: String = if listed {
            let mut one: Vec<String> = Vec::new();
            one.push(x);
            assert(text::texts(one@) =~= seq![x@]);
            write_array(&one)
        } else {
            write_text(x.as_str())
        };
        add_word(&mut vals, w.as_str());
        assert(pv.take(j as int + 1) =~= pv.take(j as int).push(pv[j as int]));
        j += 1;
    }
    assert(pv.take(pv.len() as int) =~= pv);
    assert(text::texts(vals@).len() == vals@.len());
    write_object(&ks, &vals)
}

pub open spec fn flag(b: bool) -> Seq<char> {
    if b {
        "1"@
    } else {
        "0"@
    }
}

pub open spec fn ps_address(all: bool, filters: Seq<Seq<char>>) -> Seq<char> {
    "/containers/json?all="@ + flag(all) + (if filters.len() > 0 {
        "&filters="@ + encode::in_url(Place::Name, pairs_json(filters, true))
    } else {
        Seq::empty()
    })
}

/// Where the containers are listed.
pub fn ps_url(all: bool, filters: &[String]) -> (r: String)
    ensures
        r@ == ps_address(all, text::texts(filters@)),
{
    let mut u: String = "/containers/json?all=".to_owned();
    if all {
        u.append("1");
    } else {
        u.append("0");
    }
    if filters.len() > 0 {
        u.append("&filters=");
        u.append(url_escape(write_pairs(filters, true).as_str()).as_str());
    }
    assert(u@ =~= "/containers/json?all="@ + flag(all) + (if filters@.len() > 0 {
        "&filters="@ + encode::in_url(Place::Name, pairs_json(text::texts(filters@), true))
    } else {
        Seq::empty()
    }));
    u
}

pub open spec fn images_address(filters: Seq<Seq<char>>) -> Seq<char> {
    "/images/json"@ + (if filters.len() > 0 {
        "?filters="@ + encode::in_url(Place::Name, pairs_json(filters, true))
    } else {
        Seq::empty()
    })
}

/// Where the images are listed.
pub fn images_url(filters: &[String]) -> (r: String)
    ensures
        r@ == images_address(text::texts(filters@)),
{
    let mut u: String = "/images/json".to_owned();
    if filters.len() > 0 {
        u.append("?filters=");
        u.append(url_escape(write_pairs(filters, true).as_str()).as_str());
    }
    assert(u@ =~= "/images/json"@ + (if filters@.len() > 0 {
        "?filters="@ + encode::in_url(Place::Name, pairs_json(text::texts(filters@), true))
    } else {
        Seq::empty()
    }));
    u
}

// ---------------------------------------------------------------- images

/// The repository, with its registry where that is not the default one.
pub open spec fn full_repo(r: Reference) -> Seq<char> {
    if r.registry == "docker.io"@ {
        r.repo
    } else {
        r.registry + "/"@ + r.repo
    }
}

fn full_repo_of(r: &ImageRef) -> (s: String)
    ensures
        s@ == full_repo(r@),
{
    if r.registry_is_default() {
        r.repo.clone()
    } else {
        let mut s: String = r.registry.clone();
        s.append("/");
        s.append(r.repo.as_str());
        s
    }
}

/// What is asked for of a repository: the digest where there is one.
pub open spec fn wanted(r: Reference) -> Seq<char> {
    match r.digest {
        Some(d) => d,
        None => match r.tag {
            Some(t) => t,
            None => "latest"@,
        },
    }
}

pub open spec fn pull_request(r: Reference, platform: Option<Seq<char>>) -> Seq<char> {
    "/images/create?fromImage="@ + encode::in_url(Place::Name, full_repo(r)) + "&tag="@
        + encode::in_url(Place::Name, wanted(r)) + (match platform {
        Some(p) => "&platform="@ + p,
        None => Seq::empty(),
    })
}

/// Where an image is pulled.
pub fn pull_url(image: &str, platform: Option<&str>) -> (r: Result<String, String>)
    ensures
        match reference::parsed(image@) {
            Ok(p) => r matches Ok(u) && u@ == pull_request(p, registry::opt_str(platform)),
            Err(e) => r matches Err(d) && d@ == e,
        },
{
    let p: ImageRef = match ImageRef::parse(image) {
        Ok(p) => p,
        Err(e) => {
            return Err(e);
        },
    };
    let want: String = match &p.digest {
        Some(d) => d.clone(),
        None => match &p.tag {
            Some(t) => t.clone(),
            None => "latest".to_owned(),
        },
    };
    let mut u: String = "/images/create?fromImage=".to_owned();
    u.append(url_escape(full_repo_of(&p).as_str()).as_str());
    u.append("&tag=");
    u.append(url_escape(want.as_str()).as_str());
    if let Some(x) = platform {
        u.append("&platform=");
        u.append(x);
    }
    assert(u@ =~= pull_request(p@, registry::opt_str(platform)));
    Ok(u)
}

/// The name in the path of a push, and the tag, where the reference names one.
pub fn push_path(image: &str) -> (r: Result<(String, Option<String>), String>)
    ensures
        match reference::parsed(image@) {
            Ok(p) => r matches Ok((n, t)) && n@ == encode::in_url(Place::Segment, full_repo(p))
                && reference::opt_text(t) == p.tag,
            Err(e) => r matches Err(d) && d@ == e,
        },
{
    match ImageRef::parse(image) {
        Ok(p) => {
            let n: String = path_escape(full_repo_of(&p).as_str());
            let t: Option<String> = match &p.tag {
                Some(t) => Some(t.clone()),
                None => None,
            };
            Ok((n, t))
        },
        Err(e) => Err(e),
    }
}

pub open spec fn push_address(p: Reference) -> Seq<char> {
    "/images/"@ + encode::in_url(Place::Segment, full_repo(p)) + "/push"@ + (match p.tag {
        Some(t) => "?tag="@ + encode::in_url(Place::Name, t),
        None => Seq::empty(),
    })
}

/// Where an image is pushed.
pub fn push_url(image: &str) -> (r: Result<String, String>)
    ensures
        match reference::parsed(image@) {
            Ok(p) => r matches Ok(u) && u@ == push_address(p),
            Err(e) => r matches Err(d) && d@ == e,
        },
{
    let (n, t): (String, Option<String>) = match push_path(image) {
        Ok(p) => p,
        Err(e) => {
            return Err(e);
        },
    };
    let mut u: String = "/images/".to_owned();
    u.append(n.as_str());
    u.append("/push");
    let ghost base = u@;
    match t {
        Some(x) => {
            u.append("?tag=");
            u.append(url_escape(x.as_str()).as_str());
            assert(u@ =~= base + ("?tag="@ + encode::in_url(Place::Name, x@)));
        },
        None => {
            assert(u@ =~= base + Seq::<char>::empty());
        },
    }
    Ok(u)
}

pub open spec fn tag_address(source: Seq<char>, p: Reference) -> Seq<char> {
    "/images/"@ + source + "/tag?repo="@ + encode::in_url(Place::Name, full_repo(p)) + (match p.tag {
        Some(t) => "&tag="@ + encode::in_url(Place::Name, t),
        None => Seq::empty(),
    })
}

/// Where an image is given a tag.
pub fn tag_url(source: &str, target: &str) -> (r: Result<String, String>)
    ensures
        match reference::parsed(target@) {
            Ok(p) => r matches Ok(u) && u@ == tag_address(source@, p),
            Err(e) => r matches Err(d) && d@ == e,
        },
{
    let p: ImageRef = match ImageRef::parse(target) {
        Ok(p) => p,
        Err(e) => {
            return Err(e);
        },
    };
    let mut u: String = "/images/".to_owned();
    u.append(source);
    u.append("/tag?repo=");
    u.append(url_escape(full_repo_of(&p).as_str()).as_str());
    let ghost base = u@;
    match &p.tag {
        Some(x) => {
            u.append("&tag=");
            u.append(url_escape(x.as_str()).as_str());
            assert(u@ =~= base + ("&tag="@ + encode::in_url(Place::Name, x@)));
        },
        None => {
            assert(u@ =~= base + Seq::<char>::empty());
        },
    }
    Ok(u)
}

/// What is shown of a message about progress.
pub enum ProgressLine {
    /// A line of output.
    Line(String),
    /// Output without a line break.
    Inline(String),
    /// A line of errors.
    Error(String),
    Nothing,
}

#[verifier::ext_equal]
pub enum ProgressLineView {
    Line(Seq<char>),
    Inline(Seq<char>),
    Error(Seq<char>),
    Nothing,
}

impl View for ProgressLine {
    type V = ProgressLineView;

    open spec fn view(&self) -> ProgressLineView {
        match self {
            ProgressLine::Line(s) => ProgressLineView::Line(s@),
            ProgressLine::Inline(s) => ProgressLineView::Inline(s@),
            ProgressLine::Error(s) => ProgressLineView::Error(s@),
            ProgressLine::Nothing => ProgressLineView::Nothing,
        }
    }
}

/// What is shown of a message: its status, with the JSON of its id and its progress where
/// it has an id; else its output; else its error.
pub open spec fn progress_shown(
    status: Option<Seq<char>>,
    id: Option<Seq<char>>,
    progress: Seq<char>,
    stream: Option<Seq<char>>,
    error: Option<Seq<char>>,
) -> ProgressLineView {
    match status {
        Some(s) => match id {
            Some(i) => ProgressLineView::Line(s + " ["@ + i + "] "@ + progress),
            None => ProgressLineView::Line(s),
        },
        None => match stream {
            Some(o) => ProgressLineView::Inline(o),
            None => match error {
                Some(e) => ProgressLineView::Error(e),
                None => ProgressLineView::Nothing,
            },
        },
    }
}

pub fn progress_line(
    status: Option<&str>,
    id_json: Option<&str>,
    progress_json: &str,
    stream: Option<&str>,
    error: Option<&str>,
) -> (r: ProgressLine)
    ensures
        r@ == progress_shown(
            registry::opt_str(status),
            registry::opt_str(id_json),
            progress_json@,
            registry::opt_str(stream),
            registry::opt_str(error),
        ),
{
    if let Some(s) = status {
        let mut l: String = s.to_owned();
        if let Some(i) = id_json {
            l.append(" [");
            l.append(i);
            l.append("] ");
            l.append(progress_json);
        }
        return ProgressLine::Line(l);
    }
    if let Some(o) = stream {
        return ProgressLine::Inline(o.to_owned());
    }
    if let Some(e) = error {
        return ProgressLine::Error(e.to_owned());
    }
    ProgressLine::Nothing
}

/// The id in a list of ids alone: its first twelve bytes, or all of it.
pub fn quiet_id(id: &str, whole: bool) -> (r: String)
    requires
        whole || network::cuts_at(id@, 12),
    ensures
        r@ == if whole {
            id@
        } else {
            network::byte_prefix(id@, 12)
        },
{
    if whole {
        id.to_owned()
    } else {
        first_bytes(id, 12)
    }
}

// ---------------------------------------------------------------- running

/// What is done with a container that has been made for a command.
#[derive(Debug, Clone, Copy, PartialEq, Eq, Structural)]
pub enum RunStep {
    /// Its streams are attached to.
    Attach,
    /// It is started.
    Start,
    /// Its id is shown, and the command is done.
    ShowId,
    /// The streams are passed on until they end.
    Stream,
    /// Its output is followed.
    Follow,
    /// Its end is waited for, and its status is the command's own.
    Wait,
    /// It is removed, whatever state it is in.
    Remove,
}

/// What is done before the command fails, once a step has failed: a container that could
/// not be started is removed.
pub fn on_failure(step: RunStep) -> (r: Option<RunStep>)
    ensures
        r == if step == RunStep::Start {
            Some(RunStep::Remove)
        } else {
            None
        },
{
    match step {
        RunStep::Start => Some(RunStep::Remove),
        _ => None,
    }
}

/// What is done with a container in the background, with one that is talked to, and with
/// any other, in this order.
pub open spec fn run_plan(detach: bool, interactive: bool) -> Seq<RunStep> {
    if detach {
        seq![RunStep::Start, RunStep::ShowId]
    } else if interactive {
        seq![RunStep::Attach, RunStep::Start, RunStep::Stream, RunStep::Wait]
    } else {
        seq![RunStep::Start, RunStep::Follow, RunStep::Wait]
    }
}

pub fn run_steps(detach: bool, interactive: bool) -> (r: Vec<RunStep>)
    ensures
        r@ == run_plan(detach, interactive),
{
    if detach {
        vec![RunStep::Start, RunStep::ShowId]
    } else if interactive {
        vec![RunStep::Attach, RunStep::Start, RunStep::Stream, RunStep::Wait]
    } else {
        vec![RunStep::Start, RunStep::Follow, RunStep::Wait]
    }
}

/// A container is started exactly once, attached to at most before that, and waited for
/// unless it runs in the background.
pub proof fn law_run_starts_once(detach: bool, interactive: bool, i: int, j: int)
    requires
        0 <= i < run_plan(detach, interactive).len(),
        0 <= j < run_plan(detach, interactive).len(),
    ensures
        run_plan(detach, interactive).contains(RunStep::Start),
        run_plan(detach, interactive)[i] == RunStep::Start && run_plan(detach, interactive)[j]
            == RunStep::Start ==> i == j,
        run_plan(detach, interactive)[i] == RunStep::Attach && run_plan(detach, interactive)[j]
            == RunStep::Start ==> i < j,
        run_plan(detach, interactive).contains(RunStep::Wait) <==> !detach,
        !run_plan(detach, interactive).contains(RunStep::Remove),
{
    let v = run_plan(detach, interactive);
    if interactive && !detach {
        assert(v[1] == RunStep::Start);
        assert(v[3] == RunStep::Wait);
    } else {
        assert(v[0] == RunStep::Start);
        if !detach {
            assert(v[2] == RunStep::Wait);
        }
    }
}

/// What a container is run with.
#[derive(Debug, Clone, Default)]
pub struct RunOpts {
    pub detach: bool,
    pub name: Option<String>,
    pub publish: Vec<String>,
    pub env: Vec<String>,
    pub volume: Vec<String>,
    pub network: String,
    pub tty: bool,
    pub interactive: bool,
    pub rm: bool,
    pub workdir: Option<String>,
    pub dns: Vec<String>,
    pub dns_search: Vec<String>,
    pub dns_opt: Vec<String>,
}

/// The mappings of the first `n` specifications, or the first error among them.
pub open spec fn all_mappings(specs: Seq<Seq<char>>, n: int) -> Result<Seq<MappingView>, Seq<char>>
    decreases n,
{
    if n <= 0 {
        Ok(Seq::empty())
    } else {
        match all_mappings(specs, n - 1) {
            Err(e) => Err(e),
            Ok(v) => match ports::spec_mappings(specs[n - 1]) {
                Err(e) => Err(e),
                Ok(w) => Ok(v + w),
            },
        }
    }
}

/// The container's sides of mappings.
pub open spec fn mapping_keys(v: Seq<MappingView>) -> Seq<Seq<char>> {
    Seq::new(v.len(), |i: int| v[i].container_key)
}

/// The host's side of a mapping as JSON.
pub open spec fn binding_json(m: MappingView) -> Seq<char> {
    json::json_object(
        seq!["HostIp"@, "HostPort"@],
        seq![json::json_quoted(m.host_ip), json::json_quoted(m.host_port)],
    )
}

/// The host's sides of the first `n` mappings of one port of the container.
pub open spec fn bindings_of(v: Seq<MappingView>, key: Seq<char>, n: int) -> Seq<Seq<char>>
    decreases n,
{
    if n <= 0 {
        Seq::empty()
    } else if v[n - 1].container_key == key {
        bindings_of(v, key, n - 1).push(binding_json(v[n - 1]))
    } else {
        bindings_of(v, key, n - 1)
    }
}

pub open spec fn binding_lists(v: Seq<MappingView>, ks: Seq<Seq<char>>) -> Seq<Seq<char>> {
    Seq::new(
        ks.len(),
        |i: int| "["@ + text::join(bindings_of(v, ks[i], v.len() as int), ","@) + "]"@,
    )
}

/// Mappings as JSON: under each port of the container, in order, its places on the host.
pub open spec fn bindings_json(v: Seq<MappingView>) -> Seq<char> {
    let ks = order::sorted_set(mapping_keys(v));
    json::json_object(ks, binding_lists(v, ks))
}

fn write_binding(m: &PortMapping) -> (r: String)
    ensures
        r@ == binding_json(m@),
{
    let ks: Vec<String> = words_of(&["HostIp", "HostPort"]);
    let mut vs: Vec<String> = Vec::new();
    vs.push(write_text(m.host_ip.as_str()));
    vs.push(write_text(m.host_port.as_str()));
    assert(text::texts(ks@) =~= seq!["HostIp"@, "HostPort"@]);
    assert(text::texts(vs@) =~= seq![json::json_quoted(m@.host_ip), json::json_quoted(m@.host_port)]);
    write_object(&ks, &vs)
}

/// Mappings as JSON.
pub fn write_bindings(v: &Vec<PortMapping>) -> (r: String)
    ensures
        r@ == bindings_json(ports::mapping_views(v@)),
{
    let ghost mv = ports::mapping_views(v@);
    let mut keys: Vec<String> = Vec::new();
    let mut i: usize = 0;
    while i < v.len()
        invariant
            i <= v.len(),
            mv == ports::mapping_views(v@),
            text::texts(keys@) =~= mapping_keys(mv).take(i as int),
        decreases v.len() - i,
    {
        add_word(&mut keys, v[i].container_key.as_str());
        i += 1;
    }
    assert(mapping_keys(mv).take(mv.len() as int) =~= mapping_keys(mv));
    let ks: Vec<String> = sort_unique(&keys);
    let ghost kv = text::texts(ks@);
    let ghost lv = binding_lists(mv, kv);
    let mut lists: Vec<String> = Vec::new();
    let mut j: usize = 0;
    while j < ks.len()
        invariant
            j <= ks.len(),
            mv == ports::mapping_views(v@),
            kv == text::texts(ks@),
            lv == binding_lists(mv, kv),
            text::texts(lists@) =~= lv.take(j as int),
        decreases ks.len() - j,
    {
        let mut parts: Vec<String> = Vec::new();
        let mut k: usize = 0;
        assert(text::texts(parts@) =~= Seq::empty());
        while k < v.len()
            invariant
                k <= v.len(),
                j < ks.len(),
                mv == ports::mapping_views(v@),
                kv == text::texts(ks@),
                text::texts(parts@) == bindings_of(mv, kv[j as int], k as int),
            decreases v.len() - k,
        {
            assert(mv[k as int] == v@[k as int]@);
            if same(v[k].container_key.as_str(), ks[j].as_str()) {
                add_word(&mut parts, write_binding(&v[k]).as_str());
            }
            k += 1;
        }
        let mut l: String = "[".to_owned();
        l.append(join_text(&parts, ",").as_str());
        l.append("]");
        add_word(&mut lists, l.as_str());
        assert(lv.take(j as int + 1) =~= lv.take(j as int).push(lv[j as int]));
        j += 1;
    }
    assert(lv.take(lv.len() as int) =~= lv);
    assert(text::texts(lists@).len() == lists@.len());
    write_object(&ks, &lists)
}

/// Reads the ports that are to be published.
pub fn read_mappings(specs: &Vec<String>) -> (r: Result<Vec<PortMapping>, String>)
    ensures
        ({
            let a = all_mappings(text::texts(specs@), specs@.len() as int);
            match r {
                Ok(v) => a == Ok::<Seq<MappingView>, Seq<char>>(ports::mapping_views(v@)),
                Err(e) => a == Err::<Seq<MappingView>, Seq<char>>(e@),
            }
        }),
{
    let ghost sv = text::texts(specs@);
    let mut out: Vec<PortMapping> = Vec::new();
    let mut i: usize = 0;
    assert(ports::mapping_views(out@) =~= Seq::empty());
    while i < specs.len()
        invariant
            i <= specs.len(),
            sv == text::texts(specs@),
            all_mappings(sv, i as int) == Ok::<Seq<MappingView>, Seq<char>>(
                ports::mapping_views(out@),
            ),
        decreases specs.len() - i,
    {
        assert(sv[i as int] == specs@[i as int]@);
        match parse_port_spec(specs[i].as_str()) {
            Ok(v) => {
                let ghost before = out@;
                let mut more: Vec<PortMapping> = v;
                out.append(&mut more);
                assert(ports::mapping_views(out@) =~= ports::mapping_views(before)
                    + ports::mapping_views(v@));
            },
            Err(e) => {
                proof {
                    lemma_mappings_fail(sv, i as int + 1, sv.len() as int, e@);
                }
                return Err(e);
            },
        }
        i += 1;
    }
    Ok(out)
}

proof fn lemma_mappings_fail(specs: Seq<Seq<char>>, k: int, n: int, e: Seq<char>)
    requires
        0 < k <= n,
        all_mappings(specs, k) == Err::<Seq<MappingView>, Seq<char>>(e),
    ensures
        all_mappings(specs, n) == Err::<Seq<MappingView>, Seq<char>>(e),
    decreases n - k,
{
    if k < n {
        lemma_mappings_fail(specs, k, n - 1, e);
    }
}

/// The host's part of a request for a container.
pub open spec fn host_config_json(o: RunOpts, bindings: Seq<MappingView>) -> Seq<char> {
    json::json_object(
        seq![
            "AutoRemove"@,
            "Binds"@,
            "Dns"@,
            "DnsOptions"@,
            "DnsSearch"@,
            "NetworkMode"@,
            "PortBindings"@,
        ],
        seq![
            json::json_bool(o.rm),
            json::json_array(text::texts(o.volume@)),
            json::json_array(text::texts(o.dns@)),
            json::json_array(text::texts(o.dns_opt@)),
            json::json_array(text::texts(o.dns_search@)),
            json::json_quoted(o.network@),
            bindings_json(bindings),
        ],
    )
}

/// A request for a container that runs a command in an image.
pub open spec fn run_json(
    o: RunOpts,
    image: Seq<char>,
    cmd: Seq<Seq<char>>,
    bindings: Seq<MappingView>,
) -> Seq<char> {
    json::json_object(
        seq!["Cmd"@, "Env"@, "HostConfig"@, "Image"@, "OpenStdin"@, "Tty"@, "WorkingDir"@],
        seq![
            json::json_array(cmd),
            json::json_array(text::texts(o.env@)),
            host_config_json(o, bindings),
            json::json_quoted(image),
            json::json_bool(o.interactive),
            json::json_bool(o.tty),
            json::json_quoted(registry::text_or_empty(reference::opt_text(o.workdir))),
        ],
    )
}

/// The request for a container that runs a command in an image, or what is wrong with its
/// ports.
pub fn run_body(o: &RunOpts, image: &str, cmd: &Vec<String>) -> (r: Result<String, String>)
    ensures
        match all_mappings(text::texts(o.publish@), o.publish@.len() as int) {
            Ok(m) => r matches Ok(s) && s@ == run_json(*o, image@, text::texts(cmd@), m),
            Err(e) => r matches Err(d) && d@ == e,
        },
{
    let mappings: Vec<PortMapping> = match read_mappings(&o.publish) {
        Ok(m) => m,
        Err(e) => {
            return Err(e);
        },
    };
    let ghost mv = ports::mapping_views(mappings@);
    let hk: Vec<String> = words_of(
        &["AutoRemove", "Binds", "Dns", "DnsOptions", "DnsSearch", "NetworkMode", "PortBindings"],
    );
    let mut hv: Vec<String> = Vec::new();
    hv.push(write_bool(o.rm));
    hv.push(write_array(&o.volume));
    hv.push(write_array(&o.dns));
    hv.push(write_array(&o.dns_opt));
    hv.push(write_array(&o.dns_search));
    hv.push(write_text(o.network.as_str()));
    hv.push(write_bindings(&mappings));
    assert(text::texts(hk@) =~= seq![
        "AutoRemove"@,
        "Binds"@,
        "Dns"@,
        "DnsOptions"@,
        "DnsSearch"@,
        "NetworkMode"@,
        "PortBindings"@,
    ]);
    assert(text::texts(hv@) =~= seq![
        json::json_bool(o.rm),
        json::json_array(text::texts(o.volume@)),
        json::json_array(text::texts(o.dns@)),
        json::json_array(text::texts(o.dns_opt@)),
        json::json_array(text::texts(o.dns_search@)),
        json::json_quoted(o.network@),
        bindings_json(mv),
    ]);
    let host: String = write_object(&hk, &hv);
    let dir: String = match &o.workdir {
        Some(w) => w.clone(),
        None => String::new(),
    };
    let ks: Vec<String> = words_of(
        &["Cmd", "Env", "HostConfig", "Image", "OpenStdin", "Tty", "WorkingDir"],
    );
    let mut vs: Vec<String> = Vec::new();
    vs.push(write_array(cmd));
    vs.push(write_array(&o.env));
    vs.push(host);
    vs.push(write_text(image));
    vs.push(write_bool(o.interactive));
    vs.push(write_bool(o.tty));
    vs.push(write_text(dir.as_str()));
    assert(text::texts(ks@) =~= seq![
        "Cmd"@,
        "Env"@,
        "HostConfig"@,
        "Image"@,
        "OpenStdin"@,
        "Tty"@,
        "WorkingDir"@,
    ]);
    assert(text::texts(vs@) =~= seq![
        json::json_array(text::texts(cmd@)),
        json::json_array(text::texts(o.env@)),
        host_config_json(*o, mv),
        json::json_quoted(image@),
        json::json_bool(o.interactive),
        json::json_bool(o.tty),
        json::json_quoted(registry::text_or_empty(reference::opt_text(o.workdir))),
    ]);
    Ok(write_object(&ks, &vs))
}

pub open spec fn create_address(name: Option<Seq<char>>) -> Seq<char> {
    "/containers/create"@ + (match name {
        Some(n) => "?name="@ + n,
        None => Seq::empty(),
    })
}

/// Where a container is made.
pub fn create_url(name: Option<&str>) -> (r: String)
    ensures
        r@ == create_address(registry::opt_str(name)),
{
    let mut u: String = "/containers/create".to_owned();
    if let Some(n) = name {
        u.append("?name=");
        u.append(n);
    }
    assert(u@ =~= "/containers/create"@ + (match name {
        Some(n) => "?name="@ + n@,
        None => Seq::empty(),
    }));
    u
}

/// Where something is done with a container.
pub fn container_url(id: &str, action: &str) -> (r: String)
    ensures
        r@ == "/containers/"@ + id@ + action@,
{
    let mut u: String = "/containers/".to_owned();
    u.append(id);
    u.append(action);
    u
}

pub open spec fn logs_address(id: Seq<char>, follow: bool, tail: Option<Seq<char>>) -> Seq<char> {
    "/containers/"@ + id + "/logs?stdout=1&stderr=1&follow="@ + flag(follow) + "&tail="@ + (
    match tail {
        Some(t) => t,
        None => "all"@,
    })
}

/// Where a container's output is read.
pub fn logs_url(id: &str, follow: bool, tail: Option<&str>) -> (r: String)
    ensures
        r@ == logs_address(id@, follow, registry::opt_str(tail)),
{
    let mut u: String = container_url(id, "/logs?stdout=1&stderr=1&follow=");
    if follow {
        u.append("1");
    } else {
        u.append("0");
    }
    u.append("&tail=");
    match tail {
        Some(t) => u.append(t),
        None => u.append("all"),
    }
    assert(u@ =~= "/containers/"@ + id@ + "/logs?stdout=1&stderr=1&follow="@ + flag(follow)
        + "&tail="@ + (match tail {
        Some(t) => t@,
        None => "all"@,
    }));
    u
}

pub open spec fn exec_start_json(tty: bool) -> Seq<char> {
    json::json_object(seq!["Detach"@, "Tty"@], seq!["false"@, json::json_bool(tty)])
}

/// The request that starts a command in a container.
pub fn exec_start_body(tty: bool) -> (r: String)
    ensures
        r@ == exec_start_json(tty),
{
    let ks: Vec<String> = words_of(&["Detach", "Tty"]);
    let mut vs: Vec<String> = Vec::new();
    vs.push("false".to_owned());
    vs.push(write_bool(tty));
    assert(text::texts(ks@) =~= seq!["Detach"@, "Tty"@]);
    assert(text::texts(vs@) =~= seq!["false"@, json::json_bool(tty)]);
    assert(text::texts(ks@).len() == ks@.len());
    write_object(&ks, &vs)
}

/// The names of pairs.
pub open spec fn names_of(v: Seq<(Seq<char>, Seq<char>)>) -> Seq<Seq<char>> {
    Seq::new(v.len(), |i: int| v[i].0)
}

/// The last value under a name.
pub open spec fn last_value(v: Seq<(Seq<char>, Seq<char>)>, k: Seq<char>) -> Seq<char>
    decreases v.len(),
{
    if v.len() == 0 {
        Seq::empty()
    } else if v.last().0 == k {
        v.last().1
    } else {
        last_value(v.drop_last(), k)
    }
}

/// The JSON of the last value under each name.
pub open spec fn last_values(v: Seq<(Seq<char>, Seq<char>)>, ks: Seq<Seq<char>>) -> Seq<Seq<char>> {
    Seq::new(ks.len(), |i: int| json::json_quoted(last_value(v, ks[i])))
}

fn find_last(v: &Vec<(String, String)>, k: &str) -> (r: String)
    ensures
        r@ == last_value(dockerfile::pair_texts(v@), k@),
{
    let ghost pv = dockerfile::pair_texts(v@);
    let mut n: usize = v.len();
    assert(pv.take(pv.len() as int) =~= pv);
    while n > 0
        invariant
            n <= v.len(),
            pv == dockerfile::pair_texts(v@),
            last_value(pv, k@) == last_value(pv.take(n as int), k@),
        decreases n,
    {
        assert(pv.take(n as int).drop_last() =~= pv.take(n - 1));
        assert(pv.take(n as int).last() == (v@[n - 1].0@, v@[n - 1].1@));
        if same(v[n - 1].0.as_str(), k) {
            return v[n - 1].1.clone();
        }
        n -= 1;
    }
    String::new()
}

pub open spec fn secrets_json(v: Seq<(Seq<char>, Seq<char>)>) -> Seq<char> {
    let ks = order::sorted_set(names_of(v));
    json::json_object(ks, last_values(v, ks))
}

/// The request that stages the secrets of a build: each id with its value, of which the
/// last one counts.
pub fn secrets_body(v: &Vec<(String, String)>) -> (r: String)
    ensures
        r@ == secrets_json(dockerfile::pair_texts(v@)),
{
    let ghost pv = dockerfile::pair_texts(v@);
    let ghost nv = names_of(pv);
    let mut names: Vec<String> = Vec::new();
    let mut i: usize = 0;
    while i < v.len()
        invariant
            i <= v.len(),
            pv == dockerfile::pair_texts(v@),
            nv == names_of(pv),
            text::texts(names@) =~= nv.take(i as int),
        decreases v.len() - i,
    {
        add_word(&mut names, v[i].0.as_str());
        assert(nv[i as int] == v@[i as int].0@);
        assert(nv.take(i as int + 1) =~= nv.take(i as int).push(nv[i as int]));
        i += 1;
    }
    assert(nv.take(nv.len() as int) =~= nv);
    let ks: Vec<String> = sort_unique(&names);
    let ghost kv = text::texts(ks@);
    let ghost lv = last_values(pv, kv);
    let mut vals: Vec<String> = Vec::new();
    let mut j: usize = 0;
    while j < ks.len()
        invariant
            j <= ks.len(),
            pv == dockerfile::pair_texts(v@),
            kv == text::texts(ks@),
            lv == last_values(pv, kv),
            text::texts(vals@) =~= lv.take(j as int),
        decreases ks.len() - j,
    {
        let value: String = find_last(v, ks[j].as_str());
        add_word(&mut vals, write_text(value.as_str()).as_str());
        assert(lv.take(j as int + 1) =~= lv.take(j as int).push(lv[j as int]));
        j += 1;
    }
    assert(lv.take(lv.len() as int) =~= lv);
    assert(text::texts(vals@).len() == vals@.len());
    assert(kv.len() == ks@.len());
    write_object(&ks, &vals)
}

pub open spec fn exec_json(interactive: bool, tty: bool, cmd: Seq<Seq<char>>) -> Seq<char> {
    json::json_object(
        seq!["AttachStderr"@, "AttachStdin"@, "AttachStdout"@, "Cmd"@, "Tty"@],
        seq![
            "true"@,
            json::json_bool(interactive),
            "true"@,
            json::json_array(cmd),
            json::json_bool(tty),
        ],
    )
}

/// The request for a command in a container that runs.
pub fn exec_body(interactive: bool, tty: bool, cmd: &Vec<String>) -> (r: Result<String, String>)
    ensures
        match r {
            Ok(s) => cmd@.len() > 0 && s@ == exec_json(interactive, tty, text::texts(cmd@)),
            Err(e) => cmd@.len() == 0 && e@ == "no command specified"@,
        },
{
    if cmd.len() == 0 {
        return Err("no command specified".to_owned());
    }
    let ks: Vec<String> = words_of(
        &["AttachStderr", "AttachStdin", "AttachStdout", "Cmd", "Tty"],
    );
    let mut vs: Vec<String> = Vec::new();
    vs.push("true".to_owned());
    vs.push(write_bool(interactive));
    vs.push("true".to_owned());
    vs.push(write_array(cmd));
    vs.push(write_bool(tty));
    assert(text::texts(ks@) =~= seq![
        "AttachStderr"@,
        "AttachStdin"@,
        "AttachStdout"@,
        "Cmd"@,
        "Tty"@,
    ]);
    assert(text::texts(vs@) =~= seq![
        "true"@,
        json::json_bool(interactive),
        "true"@,
        json::json_array(text::texts(cmd@)),
        json::json_bool(tty),
    ]);
    Ok(write_object(&ks, &vs))
}

// ---------------------------------------------------------------- building

/// Where a secret's value is read.
#[derive(Debug)]
pub enum SecretFrom {
    File(String),
    Variable(String),
}

/// A secret as it is written: `id=name,src=path` or `id=name,env=VAR`.
#[derive(Debug)]
pub struct SecretSource {
    pub id: String,
    pub from: SecretFrom,
}

#[verifier::ext_equal]
pub enum SecretView {
    File(Seq<char>, Seq<char>),
    Variable(Seq<char>, Seq<char>),
}

impl View for SecretSource {
    type V = SecretView;

    open spec fn view(&self) -> SecretView {
        match self.from {
            SecretFrom::File(p) => SecretView::File(self.id@, p@),
            SecretFrom::Variable(v) => SecretView::Variable(self.id@, v@),
        }
    }
}

/// What is wrong with the first of `n` parts that is no pair, or has no known key.
pub open spec fn secret_fault(s: Seq<char>, parts: Seq<Seq<char>>, n: int) -> Option<Seq<char>>
    decreases n,
{
    if n <= 0 {
        None
    } else {
        match secret_fault(s, parts, n - 1) {
            Some(e) => Some(e),
            None => match text::split_once(parts[n - 1], seq!['=']) {
                None => Some(
                    "bad --secret "@ + unicode::quoted(s)
                        + " (want id=name,src=path|env=VAR)"@,
                ),
                Some((k, _)) => if k == "id"@ || k == "src"@ || k == "env"@ {
                    None
                } else {
                    Some(
                        "bad --secret "@ + unicode::quoted(s) + " (unknown key "@
                            + unicode::quoted(k) + ")"@,
                    )
                },
            },
        }
    }
}

/// The value of a key among the first `n` parts: the last one counts.
pub open spec fn secret_value(parts: Seq<Seq<char>>, k: Seq<char>, n: int) -> Option<Seq<char>>
    decreases n,
{
    if n <= 0 {
        None
    } else {
        match text::split_once(parts[n - 1], seq!['=']) {
            Some((a, b)) => if a == k {
                Some(b)
            } else {
                secret_value(parts, k, n - 1)
            },
            None => secret_value(parts, k, n - 1),
        }
    }
}

/// What a secret's specification says.
pub open spec fn secret_spec(s: Seq<char>) -> Result<SecretView, Seq<char>> {
    let parts = text::split(s, seq![',']);
    let n = parts.len() as int;
    match secret_fault(s, parts, n) {
        Some(e) => Err(e),
        None => match secret_value(parts, "id"@, n) {
            None => Err("bad --secret "@ + unicode::quoted(s) + " (missing id=)"@),
            Some(id) => if id.len() == 0 {
                Err("bad --secret "@ + unicode::quoted(s) + " (empty id)"@)
            } else {
                match (secret_value(parts, "src"@, n), secret_value(parts, "env"@, n)) {
                    (Some(p), None) => Ok(SecretView::File(id, p)),
                    (None, Some(v)) => Ok(SecretView::Variable(id, v)),
                    _ => Err(
                        "bad --secret "@ + unicode::quoted(id)
                            + " (need exactly one of src=, env=)"@,
                    ),
                }
            },
        },
    }
}

fn secret_value_of(parts: &Vec<String>, k: &str) -> (r: Option<String>)
    ensures
        reference::opt_text(r) == secret_value(text::texts(parts@), k@, parts@.len() as int),
{
    let ghost pv = text::texts(parts@);
    let mut n: usize = parts.len();
    while n > 0
        invariant
            n <= parts.len(),
            pv == text::texts(parts@),
            secret_value(pv, k@, parts@.len() as int) == secret_value(pv, k@, n as int),
        decreases n,
    {
        assert(pv[n - 1] == parts@[n - 1]@);
        if let Some((a, b)) = str_cut(parts[n - 1].as_str(), '=') {
            if same(a.as_str(), k) {
                return Some(b);
            }
        }
        n -= 1;
    }
    None
}

proof fn lemma_secret_fault(s: Seq<char>, parts: Seq<Seq<char>>, k: int, n: int)
    requires
        0 < k <= n,
        secret_fault(s, parts, k) is Some,
    ensures
        secret_fault(s, parts, n) == secret_fault(s, parts, k),
    decreases n - k,
{
    if k < n {
        lemma_secret_fault(s, parts, k, n - 1);
    }
}

/// Reads a secret's specification; its value is read later.
pub fn parse_secret_spec(spec: &str) -> (r: Result<SecretSource, String>)
    ensures
        match r {
            Ok(s) => secret_spec(spec@) == Ok::<SecretView, Seq<char>>(s@),
            Err(e) => secret_spec(spec@) == Err::<SecretView, Seq<char>>(e@),
        },
{
    let parts: Vec<String> = str_split(spec, ',');
    let ghost pv = text::split(spec@, seq![',']);
    assert(pv.len() == parts@.len());
    let mut i: usize = 0;
    while i < parts.len()
        invariant
            i <= parts.len(),
            text::texts(parts@) == pv,
            pv == text::split(spec@, seq![',']),
            pv.len() == parts@.len(),
            secret_fault(spec@, pv, i as int) is None,
        decreases parts.len() - i,
    {
        assert(pv[i as int] == parts@[i as int]@);
        let mut e: String = "bad --secret ".to_owned();
        e.append(quote(spec).as_str());
        match str_cut(parts[i].as_str(), '=') {
            None => {
                e.append(" (want id=name,src=path|env=VAR)");
                proof {
                    lemma_secret_fault(spec@, pv, i as int + 1, pv.len() as int);
                }
                return Err(e);
            },
            Some((k, _)) => {
                if !same(k.as_str(), "id") && !same(k.as_str(), "src") && !same(
                    k.as_str(),
                    "env",
                ) {
                    e.append(" (unknown key ");
                    e.append(quote(k.as_str()).as_str());
                    e.append(")");
                    proof {
                        lemma_secret_fault(spec@, pv, i as int + 1, pv.len() as int);
                    }
                    return Err(e);
                }
            },
        }
        i += 1;
    }
    let mut e: String = "bad --secret ".to_owned();
    let id: String = match secret_value_of(&parts, "id") {
        Some(id) => id,
        None => {
            e.append(quote(spec).as_str());
            e.append(" (missing id=)");
            return Err(e);
        },
    };
    if id.as_str().is_empty() {
        e.append(quote(spec).as_str());
        e.append(" (empty id)");
        return Err(e);
    }
    let src: Option<String> = secret_value_of(&parts, "src");
    let env: Option<String> = secret_value_of(&parts, "env");
    match (src, env) {
        (Some(p), None) => Ok(SecretSource { id, from: SecretFrom::File(p) }),
        (None, Some(v)) => Ok(SecretSource { id, from: SecretFrom::Variable(v) }),
        _ => {
            e.append(quote(id.as_str()).as_str());
            e.append(" (need exactly one of src=, env=)");
            Err(e)
        },
    }
}

/// The path with slashes alone.
pub open spec fn slashed(s: Seq<char>) -> Seq<char> {
    Seq::new(
        s.len(),
        |i: int|
            if s[i] == '\\' {
                '/'
            } else {
                s[i]
            },
    )
}

pub fn with_slashes(s: &str) -> (r: String)
    ensures
        r@ == slashed(s@),
{
    let cs: Vec<char> = chars_of(s);
    let mut out: String = String::new();
    let mut i: usize = 0;
    while i < cs.len()
        invariant
            i <= cs.len(),
            cs@ == s@,
            out@ =~= slashed(s@).take(i as int),
        decreases cs.len() - i,
    {
        if cs[i] == '\\' {
            out.push('/');
        } else {
            out.push(cs[i]);
        }
        i += 1;
    }
    assert(slashed(s@).take(s@.len() as int) =~= slashed(s@));
    out
}

/// The path lies at, above or below one that is always sent.
pub open spec fn touches(rel: Seq<char>, kept: Seq<char>) -> bool {
    rel == kept || text::starts_with(kept, rel + "/"@) || text::starts_with(rel, kept + "/"@)
}

/// The path is sent whatever is ignored: the Dockerfile and the list of what is ignored.
pub open spec fn always_sent(rel: Seq<char>, dockerfile: Seq<char>) -> bool {
    touches(rel, dockerfile) || touches(rel, ".dockerignore"@)
}

fn touches_text(rel: &str, kept: &str) -> (r: bool)
    ensures
        r == touches(rel@, kept@),
{
    let mut a: String = rel.to_owned();
    a.append("/");
    let mut b: String = kept.to_owned();
    b.append("/");
    same(rel, kept) || str_starts(kept, a.as_str()) || str_starts(rel, b.as_str())
}

/// Whether a path is looked into and sent, given what the ignored patterns say of it: what
/// is ignored is left out, except that a directory is still looked into where a pattern
/// takes something back.
pub fn walks_into(
    rel: &str,
    dockerfile: &str,
    is_dir: bool,
    excluded: bool,
    has_negations: bool,
) -> (r: bool)
    ensures
        r == (rel@.len() == 0 || always_sent(rel@, dockerfile@) || !excluded || (is_dir
            && has_negations)),
{
    if rel.is_empty() {
        return true;
    }
    touches_text(rel, dockerfile) || touches_text(rel, ".dockerignore") || !excluded || (is_dir
        && has_negations)
}

/// Whether a path that was looked into is sent: a directory always, a file where it is not
/// ignored.
pub fn is_sent(rel: &str, dockerfile: &str, is_dir: bool, excluded: bool) -> (r: bool)
    ensures
        r == (rel@.len() > 0 && (always_sent(rel@, dockerfile@) || is_dir || !excluded)),
{
    !rel.is_empty() && (touches_text(rel, dockerfile) || touches_text(rel, ".dockerignore")
        || is_dir || !excluded)
}

/// Everything that a build needs reaches it: the Dockerfile is looked into and sent, with
/// every directory above it, whatever is ignored.
pub proof fn law_dockerfile_is_sent(dir: Seq<char>, name: Seq<char>)
    ensures
        always_sent(dir + "/"@ + name, dir + "/"@ + name),
        always_sent(dir, dir + "/"@ + name),
        always_sent(".dockerignore"@, dir + "/"@ + name),
{
    let p = dir + "/"@;
    let f = p + name;
    assert(f.subrange(0, p.len() as int) =~= p);
}

pub open spec fn repeated(key: Seq<char>, v: Seq<Seq<char>>, n: int) -> Seq<char>
    decreases n,
{
    if n <= 0 {
        Seq::empty()
    } else {
        repeated(key, v, n - 1) + key + encode::in_url(Place::Name, v[n - 1])
    }
}

/// What a build is asked for, each parameter behind an ampersand.
pub open spec fn build_parameters(
    tags: Seq<Seq<char>>,
    dockerfile: Seq<char>,
    no_cache: bool,
    no_cache_filter: Seq<Seq<char>>,
    quiet: bool,
) -> Seq<char> {
    repeated("&t="@, tags, tags.len() as int) + "&dockerfile="@ + encode::in_url(
        Place::Name,
        dockerfile,
    ) + (if no_cache {
        "&nocache=1"@
    } else {
        Seq::empty()
    }) + repeated("&nocachefilter="@, no_cache_filter, no_cache_filter.len() as int) + (if quiet {
        "&q=1"@
    } else {
        Seq::empty()
    })
}

fn append_repeated(q: &mut String, key: &str, v: &[String])
    ensures
        final(q)@ == old(q)@ + repeated(key@, text::texts(v@), v@.len() as int),
{
    let ghost tv = text::texts(v@);
    let mut i: usize = 0;
    while i < v.len()
        invariant
            i <= v.len(),
            tv == text::texts(v@),
            q@ =~= old(q)@ + repeated(key@, tv, i as int),
        decreases v.len() - i,
    {
        q.append(key);
        q.append(url_escape(v[i].as_str()).as_str());
        i += 1;
    }
}

pub open spec fn build_address(
    tags: Seq<Seq<char>>,
    dockerfile: Seq<char>,
    no_cache: bool,
    no_cache_filter: Seq<Seq<char>>,
    quiet: bool,
) -> Seq<char> {
    "/build?"@ + text::strip_starts(
        build_parameters(tags, dockerfile, no_cache, no_cache_filter, quiet),
        seq!['&'],
    )
}

/// Where an image is built.
pub fn build_url(
    tags: &[String],
    dockerfile: &str,
    no_cache: bool,
    no_cache_filter: &[String],
    quiet: bool,
) -> (r: String)
    ensures
        r@ == build_address(
            text::texts(tags@),
            dockerfile@,
            no_cache,
            text::texts(no_cache_filter@),
            quiet,
        ),
{
    let mut q: String = String::new();
    append_repeated(&mut q, "&t=", tags);
    q.append("&dockerfile=");
    q.append(url_escape(dockerfile).as_str());
    if no_cache {
        q.append("&nocache=1");
    }
    append_repeated(&mut q, "&nocachefilter=", no_cache_filter);
    if quiet {
        q.append("&q=1");
    }
    assert(q@ =~= build_parameters(
        text::texts(tags@),
        dockerfile@,
        no_cache,
        text::texts(no_cache_filter@),
        quiet,
    ));
    let cs: Vec<char> = chars_of(q.as_str());
    let mut u: String = "/build?".to_owned();
    u.append(
        string_of(strip_starts_text(cs.as_slice(), one_char('&').as_slice())).as_str(),
    );
    u
}

/// The lines about an image that was removed.
pub open spec fn removal_lines(untagged: Option<Seq<char>>, deleted: Option<Seq<char>>) -> Seq<
    Seq<char>,
> {
    (match untagged {
        Some(t) => if t.len() > 0 {
            seq!["Untagged: "@ + t]
        } else {
            Seq::empty()
        },
        None => Seq::empty(),
    }) + (match deleted {
        Some(d) => if d.len() > 0 {
            seq!["Deleted: "@ + d]
        } else {
            Seq::empty()
        },
        None => Seq::empty(),
    })
}

pub fn rmi_lines(untagged: Option<&str>, deleted: Option<&str>) -> (r: Vec<String>)
    ensures
        text::texts(r@) == removal_lines(registry::opt_str(untagged), registry::opt_str(deleted)),
{
    let mut out: Vec<String> = Vec::new();
    assert(text::texts(out@) =~= Seq::empty());
    if let Some(t) = untagged {
        if !t.is_empty() {
            let mut l: String = "Untagged: ".to_owned();
            l.append(t);
            add_word(&mut out, l.as_str());
        }
    }
    if let Some(d) = deleted {
        if !d.is_empty() {
            let mut l: String = "Deleted: ".to_owned();
            l.append(d);
            add_word(&mut out, l.as_str());
        }
    }
    assert(text::texts(out@) =~= removal_lines(
        registry::opt_str(untagged),
        registry::opt_str(deleted),
    ));
    out
}

// ---------------------------------------------------------------- copying

/// The container and the path of `container:path`; none for a path of this host.
pub open spec fn cp_spec(s: Seq<char>) -> Option<(Seq<char>, Seq<char>)> {
    match text::split_once(s, seq![':']) {
        Some((c, p)) => if c.len() == 0 || p.len() == 0 || text::contains(c, seq!['/'])
            || text::contains(c, seq!['\\']) {
            None
        } else {
            Some((c, p))
        },
        None => None,
    }
}

pub fn split_cp_spec(spec: &str) -> (r: Option<(String, String)>)
    ensures
        auth::opt_pair(r) == cp_spec(spec@),
{
    match str_cut(spec, ':') {
        Some((c, p)) => {
            let cs: Vec<char> = chars_of(c.as_str());
            if c.as_str().is_empty() || p.as_str().is_empty() || has_char(cs.as_slice(), '/')
                || has_char(cs.as_slice(), '\\') {
                None
            } else {
                Some((c, p))
            }
        },
        None => None,
    }
}

/// Which way files are copied.
pub enum CopyPlan {
    /// From a container: the URL of its files, and the path of this host.
    Download(String),
    /// Into a container: the URL that they go to.
    Upload(String),
}

#[verifier::ext_equal]
pub enum CopyView {
    Download(Seq<char>),
    Upload(Seq<char>),
}

impl View for CopyPlan {
    type V = CopyView;

    open spec fn view(&self) -> CopyView {
        match self {
            CopyPlan::Download(u) => CopyView::Download(u@),
            CopyPlan::Upload(u) => CopyView::Upload(u@),
        }
    }
}

pub open spec fn archive_path(c: Seq<char>, p: Seq<char>) -> Seq<char> {
    "/containers/"@ + c + "/archive?path="@ + encode::in_url(Place::Name, p)
}

/// Which way files are copied: exactly one side is a container.
pub open spec fn copying(source: Seq<char>, dest: Seq<char>) -> Result<CopyView, Seq<char>> {
    match (cp_spec(source), cp_spec(dest)) {
        (Some((c, p)), None) => Ok(CopyView::Download(archive_path(c, p))),
        (None, Some((c, p))) => Ok(CopyView::Upload(archive_path(c, p))),
        _ => Err("exactly one of SRC and DEST must be a container (form: container:path)"@),
    }
}

fn archive_url(c: &str, p: &str) -> (r: String)
    ensures
        r@ == archive_path(c@, p@),
{
    let mut u: String = container_url(c, "/archive?path=");
    u.append(url_escape(p).as_str());
    u
}

pub fn cp_plan(source: &str, dest: &str) -> (r: Result<CopyPlan, String>)
    ensures
        match r {
            Ok(p) => copying(source@, dest@) == Ok::<CopyView, Seq<char>>(p@),
            Err(e) => copying(source@, dest@) == Err::<CopyView, Seq<char>>(e@),
        },
{
    match (split_cp_spec(source), split_cp_spec(dest)) {
        (Some((c, p)), None) => Ok(CopyPlan::Download(archive_url(c.as_str(), p.as_str()))),
        (None, Some((c, p))) => Ok(CopyPlan::Upload(archive_url(c.as_str(), p.as_str()))),
        _ => Err(
            "exactly one of SRC and DEST must be a container (form: container:path)".to_owned(),
        ),
    }
}

// ---------------------------------------------------------------- networks and volumes

/// The JSON of an address range that is asked for.
pub open spec fn ipam_json(subnet: Option<Seq<char>>, gateway: Option<Seq<char>>) -> Seq<char> {
    match (gateway, subnet) {
        (None, None) => "{}"@,
        (Some(g), None) => "{\"Config\":[{\"Gateway\":"@ + json::json_quoted(g) + "}]}"@,
        (None, Some(s)) => "{\"Config\":[{\"Subnet\":"@ + json::json_quoted(s) + "}]}"@,
        (Some(g), Some(s)) => "{\"Config\":[{\"Gateway\":"@ + json::json_quoted(g)
            + ",\"Subnet\":"@ + json::json_quoted(s) + "}]}"@,
    }
}

fn write_ipam(subnet: Option<&str>, gateway: Option<&str>) -> (r: String)
    ensures
        r@ == ipam_json(registry::opt_str(subnet), registry::opt_str(gateway)),
{
    let mut s: String;
    match (gateway, subnet) {
        (None, None) => {
            s = "{}".to_owned();
        },
        (Some(g), None) => {
            s = "{\"Config\":[{\"Gateway\":".to_owned();
            s.append(write_text(g).as_str());
            s.append("}]}");
        },
        (None, Some(n)) => {
            s = "{\"Config\":[{\"Subnet\":".to_owned();
            s.append(write_text(n).as_str());
            s.append("}]}");
        },
        (Some(g), Some(n)) => {
            s = "{\"Config\":[{\"Gateway\":".to_owned();
            s.append(write_text(g).as_str());
            s.append(",\"Subnet\":");
            s.append(write_text(n).as_str());
            s.append("}]}");
        },
    }
    s
}

/// The request for a network.
pub open spec fn network_json(
    name: Seq<char>,
    subnet: Option<Seq<char>>,
    gateway: Option<Seq<char>>,
    internal: bool,
    labels: Seq<Seq<char>>,
) -> Seq<char> {
    "{\"IPAM\":"@ + ipam_json(subnet, gateway) + ",\"Internal\":"@ + json::json_bool(internal) + (
    if labels.len() > 0 {
        ",\"Labels\":"@ + pairs_json(labels, false)
    } else {
        Seq::empty()
    }) + ",\"Name\":"@ + json::json_quoted(name) + "}"@
}

pub fn network_create_body(
    name: &str,
    subnet: Option<&str>,
    gateway: Option<&str>,
    internal: bool,
    labels: &[String],
) -> (r: String)
    ensures
        r@ == network_json(
            name@,
            registry::opt_str(subnet),
            registry::opt_str(gateway),
            internal,
            text::texts(labels@),
        ),
{
    let mut s: String = "{\"IPAM\":".to_owned();
    s.append(write_ipam(subnet, gateway).as_str());
    s.append(",\"Internal\":");
    s.append(write_bool(internal).as_str());
    if labels.len() > 0 {
        s.append(",\"Labels\":");
        s.append(write_pairs(labels, false).as_str());
    }
    s.append(",\"Name\":");
    s.append(write_text(name).as_str());
    s.append("}");
    assert(text::texts(labels@).len() == labels@.len());
    assert(s@ =~= network_json(
        name@,
        registry::opt_str(subnet),
        registry::opt_str(gateway),
        internal,
        text::texts(labels@),
    ));
    s
}

/// The request for a volume.
pub open spec fn volume_json(name: Option<Seq<char>>, labels: Seq<Seq<char>>) -> Seq<char> {
    "{"@ + text::join(
        (if labels.len() > 0 {
            seq!["\"Labels\":"@ + pairs_json(labels, false)]
        } else {
            Seq::empty()
        }) + (match name {
            Some(n) => seq!["\"Name\":"@ + json::json_quoted(n)],
            None => Seq::empty(),
        }),
        ","@,
    ) + "}"@
}

pub fn volume_create_body(name: Option<&str>, labels: &[String]) -> (r: String)
    ensures
        r@ == volume_json(registry::opt_str(name), text::texts(labels@)),
{
    let mut parts: Vec<String> = Vec::new();
    assert(text::texts(parts@) =~= Seq::empty());
    assert(text::texts(labels@).len() == labels@.len());
    if labels.len() > 0 {
        let mut l: String = "\"Labels\":".to_owned();
        l.append(write_pairs(labels, false).as_str());
        add_word(&mut parts, l.as_str());
    }
    if let Some(n) = name {
        let mut l: String = "\"Name\":".to_owned();
        l.append(write_text(n).as_str());
        add_word(&mut parts, l.as_str());
    }
    assert(text::texts(parts@) =~= (if labels@.len() > 0 {
        seq!["\"Labels\":"@ + pairs_json(text::texts(labels@), false)]
    } else {
        Seq::empty()
    }) + (match name {
        Some(n) => seq!["\"Name\":"@ + json::json_quoted(n@)],
        None => Seq::empty(),
    }));
    let mut s: String = "{".to_owned();
    s.append(join_text(&parts, ",").as_str());
    s.append("}");
    s
}

pub open spec fn connect_json(container: Seq<char>, aliases: Seq<Seq<char>>) -> Seq<char> {
    "{\"Container\":"@ + json::json_quoted(container) + (if aliases.len() > 0 {
        ",\"EndpointConfig\":{\"Aliases\":"@ + json::json_array(aliases) + "}"@
    } else {
        Seq::empty()
    }) + "}"@
}

/// The request that a container joins a network.
pub fn network_connect_body(container: &str, aliases: &Vec<String>) -> (r: String)
    ensures
        r@ == connect_json(container@, text::texts(aliases@)),
{
    let mut s: String = "{\"Container\":".to_owned();
    s.append(write_text(container).as_str());
    if aliases.len() > 0 {
        s.append(",\"EndpointConfig\":{\"Aliases\":");
        s.append(write_array(aliases).as_str());
        s.append("}");
    }
    s.append("}");
    assert(s@ =~= "{\"Container\":"@ + json::json_quoted(container@) + (if aliases@.len() > 0 {
        ",\"EndpointConfig\":{\"Aliases\":"@ + json::json_array(text::texts(aliases@)) + "}"@
    } else {
        Seq::empty()
    }) + "}"@);
    s
}

pub open spec fn disconnect_json(container: Seq<char>, force: bool) -> Seq<char> {
    "{\"Container\":"@ + json::json_quoted(container) + ",\"Force\":"@ + json::json_bool(force) + "}"@
}

/// The request that a container leaves a network.
pub fn network_disconnect_body(container: &str, force: bool) -> (r: String)
    ensures
        r@ == disconnect_json(container@, force),
{
    let mut s: String = "{\"Container\":".to_owned();
    s.append(write_text(container).as_str());
    s.append(",\"Force\":");
    s.append(write_bool(force).as_str());
    s.append("}");
    s
}

/// Whether an answer is a yes.
pub fn confirms(line: &str) -> (r: bool)
    ensures
        r == (text::ascii_lowered(text::trim(line@)) == "y"@),
{
    let t: String = str_trim(line);
    let cs: Vec<char> = chars_of(t.as_str());
    let l: Vec<char> = lower_ascii(cs.as_slice());
    same_chars(l.as_slice(), chars_of("y").as_slice())
}

// ---------------------------------------------------------------- what the daemon says of itself

/// The text at a pointer, or a question mark.
pub open spec fn text_or_mark(doc: Seq<u8>, pointer: Seq<char>) -> Seq<char> {
    match json::json_text(doc, pointer) {
        Some(s) => s,
        None => "?"@,
    }
}

/// The integer at a pointer, or nought.
pub open spec fn integer_or_nought(doc: Seq<u8>, pointer: Seq<char>) -> int {
    match json::json_integer(doc, pointer) {
        Some(n) => n as int,
        None => 0,
    }
}

fn read_text(doc: &[u8], pointer: &str) -> (r: String)
    ensures
        r@ == text_or_mark(doc@, pointer@),
{
    match text_at(doc, pointer) {
        Some(s) => s,
        None => "?".to_owned(),
    }
}

fn read_integer(doc: &[u8], pointer: &str) -> (r: i64)
    ensures
        r == integer_or_nought(doc@, pointer@),
{
    match integer_at(doc, pointer) {
        Some(n) => n,
        None => 0,
    }
}

fn say(head: &str, body: &str) -> (r: String)
    ensures
        r@ == head@ + body@,
{
    let mut s: String = head.to_owned();
    s.append(body);
    s
}

/// What is shown of the daemon's version, from what it answers.
pub open spec fn version_shown(doc: Seq<u8>, socket: Seq<char>) -> Seq<Seq<char>> {
    seq![
        "Server: "@ + socket,
        "  Engine:"@,
        "  Version:   "@ + text_or_mark(doc, "/Version"@),
        "  API ver:   "@ + text_or_mark(doc, "/ApiVersion"@) + " (min "@ + text_or_mark(
            doc,
            "/MinAPIVersion"@,
        ) + ")"@,
        "  OS/Arch:   "@ + text_or_mark(doc, "/Os"@) + "/"@ + text_or_mark(doc, "/Arch"@),
        "  Kernel:    "@ + text_or_mark(doc, "/KernelVersion"@),
    ]
}

pub fn version_lines(doc: &[u8], socket: &str) -> (r: Option<Vec<String>>)
    ensures
        match r {
            Some(v) => json::is_json(doc@) && text::texts(v@) == version_shown(doc@, socket@),
            None => !json::is_json(doc@),
        },
{
    if !is_document(doc) {
        return None;
    }
    let mut api: String = say("  API ver:   ", read_text(doc, "/ApiVersion").as_str());
    api.append(" (min ");
    api.append(read_text(doc, "/MinAPIVersion").as_str());
    api.append(")");
    let mut arch: String = say("  OS/Arch:   ", read_text(doc, "/Os").as_str());
    arch.append("/");
    arch.append(read_text(doc, "/Arch").as_str());
    let mut v: Vec<String> = Vec::new();
    v.push(say("Server: ", socket));
    v.push("  Engine:".to_owned());
    v.push(say("  Version:   ", read_text(doc, "/Version").as_str()));
    v.push(api);
    v.push(arch);
    v.push(say("  Kernel:    ", read_text(doc, "/KernelVersion").as_str()));
    assert(text::texts(v@) =~= version_shown(doc@, socket@));
    Some(v)
}

/// Whole mebibytes, towards nought.
pub open spec fn mebibytes(n: int) -> int {
    if n < 0 {
        -((-n) / 1048576)
    } else {
        n / 1048576
    }
}

fn to_mebibytes(n: i64) -> (r: i64)
    ensures
        r == mebibytes(n as int),
{
    if n < 0 {
        let m: i128 = -(n as i128);
        (-(m / 1048576)) as i64
    } else {
        n / 1048576
    }
}

/// What is shown of the daemon's state, from what it answers.
pub open spec fn info_shown(doc: Seq<u8>) -> Seq<Seq<char>> {
    seq![
        "Containers: "@ + num::signed_decimal(integer_or_nought(doc, "/Containers"@)),
        " Images:    "@ + num::signed_decimal(integer_or_nought(doc, "/Images"@)),
        "Server Version: "@ + text_or_mark(doc, "/ServerVersion"@),
        "Storage Driver: "@ + text_or_mark(doc, "/Driver"@),
        "Cgroup Version: "@ + text_or_mark(doc, "/CgroupVersion"@),
        "Operating System: "@ + text_or_mark(doc, "/OperatingSystem"@),
        "Kernel Version: "@ + text_or_mark(doc, "/KernelVersion"@),
        "NCPU: "@ + num::signed_decimal(integer_or_nought(doc, "/NCPU"@)),
        "MemTotal: "@ + num::signed_decimal(mebibytes(integer_or_nought(doc, "/MemTotal"@)))
            + " MB"@,
    ]
}

pub fn info_lines(doc: &[u8]) -> (r: Option<Vec<String>>)
    ensures
        match r {
            Some(v) => json::is_json(doc@) && text::texts(v@) == info_shown(doc@),
            None => !json::is_json(doc@),
        },
{
    if !is_document(doc) {
        return None;
    }
    let mut mem: String = say(
        "MemTotal: ",
        signed_decimal_text(to_mebibytes(read_integer(doc, "/MemTotal"))).as_str(),
    );
    mem.append(" MB");
    let mut v: Vec<String> = Vec::new();
    v.push(
        say("Containers: ", signed_decimal_text(read_integer(doc, "/Containers")).as_str()),
    );
    v.push(say(" Images:    ", signed_decimal_text(read_integer(doc, "/Images")).as_str()));
    v.push(say("Server Version: ", read_text(doc, "/ServerVersion").as_str()));
    v.push(say("Storage Driver: ", read_text(doc, "/Driver").as_str()));
    v.push(say("Cgroup Version: ", read_text(doc, "/CgroupVersion").as_str()));
    v.push(say("Operating System: ", read_text(doc, "/OperatingSystem").as_str()));
    v.push(say("Kernel Version: ", read_text(doc, "/KernelVersion").as_str()));
    v.push(say("NCPU: ", signed_decimal_text(read_integer(doc, "/NCPU")).as_str()));
    v.push(mem);
    assert(text::texts(v@) =~= info_shown(doc@));
    Some(v)
}

/// How many items the list at a pointer has, none where there is no list.
pub open spec fn count_at(doc: Seq<u8>, pointer: Seq<char>) -> nat {
    match json::json_items(doc, pointer) {
        Some(n) => n as nat,
        None => 0,
    }
}

fn count_text(doc: &[u8], pointer: &str) -> (r: String)
    ensures
        r@ == num::decimal(count_at(doc@, pointer@)),
{
    match items_at(doc, pointer) {
        Some(n) => decimal_text(n as u128),
        None => decimal_text(0),
    }
}

pub open spec fn df_row(name: Seq<char>, total: nat, size: Seq<char>) -> Seq<char> {
    row(
        seq![name, num::decimal(total), "0"@, size, "0B (0%)"@],
        seq![15int, 9, 9, 11, 0],
    )
}

fn df_line(name: &str, total: &str, size: &str) -> (r: String)
    ensures
        forall|n: nat| total@ == #[trigger] num::decimal(n) ==> r@ == df_row(name@, n, size@),
{
    let cells: [&str; 5] = [name, total, "0", size, "0B (0%)"];
    let widths: [usize; 5] = [15, 9, 9, 11, 0];
    assert(Seq::new(5, |i: int| cells@[i]@) =~= seq![name@, total@, "0"@, size@, "0B (0%)"@]);
    assert(widths_of(widths@) =~= seq![15int, 9, 9, 11, 0]);
    table_row(&cells, &widths)
}

/// What is shown of the space that is used; `layers` is the size of all layers as it is
/// shown.
pub open spec fn df_shown(doc: Seq<u8>, layers: Seq<char>) -> Seq<Seq<char>> {
    seq![
        "TYPE            TOTAL     ACTIVE    SIZE        RECLAIMABLE"@,
        df_row("Images"@, count_at(doc, "/Images"@), layers),
        df_row("Containers"@, count_at(doc, "/Containers"@), "0B"@),
        df_row("Local Volumes"@, count_at(doc, "/Volumes"@), "0B"@),
        df_row("Build Cache"@, count_at(doc, "/BuildCache"@), "0B"@),
    ]
}

pub fn df_lines(doc: &[u8], layers: &str) -> (r: Option<Vec<String>>)
    ensures
        match r {
            Some(v) => json::is_json(doc@) && text::texts(v@) == df_shown(doc@, layers@),
            None => !json::is_json(doc@),
        },
{
    if !is_document(doc) {
        return None;
    }
    let mut v: Vec<String> = Vec::new();
    v.push("TYPE            TOTAL     ACTIVE    SIZE        RECLAIMABLE".to_owned());
    v.push(df_line("Images", count_text(doc, "/Images").as_str(), layers));
    v.push(df_line("Containers", count_text(doc, "/Containers").as_str(), "0B"));
    v.push(df_line("Local Volumes", count_text(doc, "/Volumes").as_str(), "0B"));
    v.push(df_line("Build Cache", count_text(doc, "/BuildCache").as_str(), "0B"));
    assert(text::texts(v@) =~= df_shown(doc@, layers@));
    Some(v)
}

/// The size of all layers in what the daemon answers.
pub fn layers_size(doc: &[u8]) -> (r: i64)
    ensures
        r == integer_or_nought(doc@, "/LayersSize"@),
{
    read_integer(doc, "/LayersSize")
}

} // verus!
