//! Lists as the daemon answers them, and as they are shown.

use vstd::prelude::*;

use crate::commands::{self, ContainerRow, container_line, human_created, image_line, quiet_id, table_row};
use crate::json::{self, integer_at, is_document, item_pointer, items_at, text_at};
use crate::network::{self, add_word, can_cut, first_bytes};
use crate::registry;
use crate::store::{self, bare};
use crate::text;

verus! {

// ---------------------------------------------------------------- time

/// A time in seconds since 1970, where it lies between the first second of the year
/// -262143 and the last one of the year 262142; any other counts as 1970.
pub open spec fn instant(epoch: i64) -> i64 {
    if -8_334_601_228_800 <= epoch <= 8_210_266_876_799 {
        epoch
    } else {
        0
    }
}

/// `chrono::DateTime::from_timestamp`, the default where there is no such time, then
/// `DateTime::timestamp`: the seconds of the time that a number of seconds stands for.
/// There is one for every second of the years that `chrono` has, and the default is 1970.
#[verifier::external_body]
fn instant_of(epoch: i64) -> (r: i64)
    ensures
        r == instant(epoch),
{
    chrono::DateTime::from_timestamp(epoch, 0).unwrap_or_default().timestamp()
}

/// For how long something has been there, in seconds that an `i64` holds.
pub open spec fn since(now: int, then: int) -> int {
    let d = now - then;
    if d > i64::MAX {
        i64::MAX as int
    } else if d < i64::MIN {
        i64::MIN as int
    } else {
        d
    }
}

fn seconds_since(now: i64, then: i64) -> (r: i64)
    ensures
        r == since(now as int, then as int),
{
    let d: i128 = now as i128 - then as i128;
    if d > i64::MAX as i128 {
        i64::MAX
    } else if d < i64::MIN as i128 {
        i64::MIN
    } else {
        d as i64
    }
}

// ---------------------------------------------------------------- fields

/// The text at a pointer, empty where there is none.
pub open spec fn field(doc: Seq<u8>, pointer: Seq<char>) -> Seq<char> {
    registry::text_or_empty(json::json_text(doc, pointer))
}

fn read_field(doc: &[u8], base: &str, rest: &str) -> (r: String)
    ensures
        r@ == field(doc@, base@ + rest@),
{
    let mut p: String = base.to_owned();
    p.append(rest);
    match text_at(doc, p.as_str()) {
        Some(s) => s,
        None => String::new(),
    }
}

/// The age that is shown of something made at the time at a pointer.
pub open spec fn age_at(doc: Seq<u8>, pointer: Seq<char>, now: i64) -> Seq<char> {
    commands::age(
        since(
            now as int,
            instant(commands::integer_or_nought(doc, pointer) as i64) as int,
        ),
    )
}

fn read_age(doc: &[u8], base: &str, now: i64) -> (r: String)
    ensures
        r@ == age_at(doc@, base@ + "/Created"@, now),
{
    let mut p: String = base.to_owned();
    p.append("/Created");
    let then: i64 = match integer_at(doc, p.as_str()) {
        Some(n) => n,
        None => 0,
    };
    human_created(seconds_since(now, instant_of(then)))
}

/// The pointer to an item of the list.
pub open spec fn item(i: int) -> Seq<char> {
    json::under_item(Seq::empty(), i)
}

fn item_at(i: usize) -> (r: String)
    ensures
        r@ == item(i as int),
{
    proof {
        reveal_strlit("");
        assert(""@ =~= Seq::empty());
    }
    item_pointer("", i)
}

fn count(doc: &[u8]) -> (r: Option<usize>)
    ensures
        r == json::json_items(doc@, Seq::empty()),
{
    proof {
        reveal_strlit("");
        assert(""@ =~= Seq::empty());
    }
    items_at(doc, "")
}

// ---------------------------------------------------------------- containers

/// The line of a container.
pub open spec fn container_at(doc: Seq<u8>, i: int, now: i64, whole: bool) -> Seq<char> {
    let p = item(i);
    commands::row(
        seq![
            commands::shown_id(field(doc, p + "/Id"@), whole),
            field(doc, p + "/Image"@),
            commands::shortened(field(doc, p + "/Command"@), 22),
            age_at(doc, p + "/Created"@, now),
            field(doc, p + "/Status"@),
            text::strip_starts(field(doc, p + "/Names/0"@), seq!['/']),
        ],
        commands::container_widths(),
    )
}

/// The list of containers, where the answer is a list: a line for each.
pub fn container_lines(doc: &[u8], now: i64, whole: bool) -> (r: Option<Vec<String>>)
    ensures
        match json::json_items(doc@, Seq::empty()) {
            None => r is None,
            Some(n) => r matches Some(v) && text::texts(v@) == Seq::new(
                n as nat,
                |i: int| container_at(doc@, i, now, whole),
            ),
        },
{
    let n: usize = match count(doc) {
        Some(n) => n,
        None => {
            return None;
        },
    };
    let ghost all = Seq::new(n as nat, |i: int| container_at(doc@, i, now, whole));
    let mut out: Vec<String> = Vec::new();
    let mut i: usize = 0;
    while i < n
        invariant
            i <= n,
            all == Seq::new(n as nat, |i: int| container_at(doc@, i, now, whole)),
            text::texts(out@) =~= all.take(i as int),
        decreases n - i,
    {
        let p: String = item_at(i);
        let c: ContainerRow = ContainerRow {
            id: read_field(doc, p.as_str(), "/Id"),
            image: read_field(doc, p.as_str(), "/Image"),
            command: read_field(doc, p.as_str(), "/Command"),
            age: read_age(doc, p.as_str(), now),
            status: read_field(doc, p.as_str(), "/Status"),
            name: read_field(doc, p.as_str(), "/Names/0"),
        };
        add_word(&mut out, container_line(&c, whole).as_str());
        assert(all.take(i as int + 1) =~= all.take(i as int).push(all[i as int]));
        i += 1;
    }
    assert(all.take(n as int) =~= all);
    Some(out)
}

// ---------------------------------------------------------------- ids alone

/// The id of an item, without the algorithm of its digest where it is an image's.
pub open spec fn id_at(doc: Seq<u8>, i: int, of_image: bool) -> Seq<char> {
    if of_image {
        store::bare_id(field(doc, item(i) + "/Id"@))
    } else {
        field(doc, item(i) + "/Id"@)
    }
}

/// Each of the first `n` ids can be cut behind twelve bytes.
pub open spec fn ids_cut(doc: Seq<u8>, n: int, of_image: bool) -> bool {
    forall|i: int| 0 <= i < n ==> network::cuts_at(#[trigger] id_at(doc, i, of_image), 12)
}

/// The ids of a list, whole or their first twelve bytes; nothing where the answer is no
/// list, or where an id cannot be cut there.
pub fn id_lines(doc: &[u8], whole: bool, of_image: bool) -> (r: Option<Vec<String>>)
    ensures
        match json::json_items(doc@, Seq::empty()) {
            None => r is None,
            Some(n) => if whole || ids_cut(doc@, n as int, of_image) {
                r matches Some(v) && text::texts(v@) == Seq::new(
                    n as nat,
                    |i: int|
                        if whole {
                            id_at(doc@, i, of_image)
                        } else {
                            network::byte_prefix(id_at(doc@, i, of_image), 12)
                        },
                )
            } else {
                r is None
            },
        },
{
    let n: usize = match count(doc) {
        Some(n) => n,
        None => {
            return None;
        },
    };
    let ghost all = Seq::new(
        n as nat,
        |i: int|
            if whole {
                id_at(doc@, i, of_image)
            } else {
                network::byte_prefix(id_at(doc@, i, of_image), 12)
            },
    );
    let mut out: Vec<String> = Vec::new();
    let mut i: usize = 0;
    while i < n
        invariant
            i <= n,
            json::json_items(doc@, Seq::empty()) == Some(n),
            all == Seq::new(
                n as nat,
                |i: int|
                    if whole {
                        id_at(doc@, i, of_image)
                    } else {
                        network::byte_prefix(id_at(doc@, i, of_image), 12)
                    },
            ),
            text::texts(out@) =~= all.take(i as int),
            whole || ids_cut(doc@, i as int, of_image),
        decreases n - i,
    {
        let mut id: String = read_field(doc, item_at(i).as_str(), "/Id");
        if of_image {
            id = bare(id.as_str());
        }
        assert(id@ == id_at(doc@, i as int, of_image));
        if !whole && !can_cut(id.as_str(), 12) {
            return None;
        }
        add_word(&mut out, quiet_id(id.as_str(), whole).as_str());
        assert(all.take(i as int + 1) =~= all.take(i as int).push(all[i as int]));
        i += 1;
    }
    assert(all.take(n as int) =~= all);
    Some(out)
}

// ---------------------------------------------------------------- images

/// The size of each image, in bytes.
pub fn image_sizes(doc: &[u8]) -> (r: Option<Vec<i64>>)
    ensures
        match json::json_items(doc@, Seq::empty()) {
            None => r is None,
            Some(n) => {
                &&& r matches Some(v)
                &&& v@.len() == n
                &&& forall|i: int|
                    0 <= i < n ==> #[trigger] v@[i] == commands::integer_or_nought(
                        doc@,
                        item(i) + "/Size"@,
                    )
            },
        },
{
    let n: usize = match count(doc) {
        Some(n) => n,
        None => {
            return None;
        },
    };
    let mut out: Vec<i64> = Vec::new();
    let mut i: usize = 0;
    while i < n
        invariant
            i <= n,
            out@.len() == i,
            forall|j: int|
                0 <= j < i ==> #[trigger] out@[j] == commands::integer_or_nought(
                    doc@,
                    item(j) + "/Size"@,
                ),
        decreases n - i,
    {
        let mut p: String = item_at(i);
        p.append("/Size");
        out.push(
            match integer_at(doc, p.as_str()) {
                Some(s) => s,
                None => 0,
            },
        );
        i += 1;
    }
    Some(out)
}

/// The line of an image; `size` is its size as it is shown.
pub open spec fn image_at(doc: Seq<u8>, i: int, now: i64, whole: bool, size: Seq<char>) -> Seq<char> {
    let p = item(i);
    let tag = commands::shown_tag(json::json_text(doc, p + "/RepoTags/0"@));
    commands::row(
        seq![
            tag.0,
            tag.1,
            commands::shown_id(id_at(doc, i, true), whole),
            age_at(doc, p + "/Created"@, now),
            size,
        ],
        commands::image_widths(),
    )
}

/// The list of images, where the answer is a list with as many items as there are sizes.
pub fn image_lines(doc: &[u8], now: i64, whole: bool, sizes: &Vec<String>) -> (r: Option<
    Vec<String>,
>)
    ensures
        if json::json_items(doc@, Seq::empty()) == Some(sizes.len()) {
            r matches Some(v) && text::texts(v@) == Seq::new(
                sizes@.len(),
                |i: int| image_at(doc@, i, now, whole, sizes@[i]@),
            )
        } else {
            r is None
        },
{
    let n: usize = match count(doc) {
        Some(n) => n,
        None => {
            return None;
        },
    };
    if n != sizes.len() {
        return None;
    }
    let ghost all = Seq::new(sizes@.len(), |i: int| image_at(doc@, i, now, whole, sizes@[i]@));
    let mut out: Vec<String> = Vec::new();
    let mut i: usize = 0;
    while i < n
        invariant
            i <= n,
            n == sizes@.len(),
            all == Seq::new(sizes@.len(), |i: int| image_at(doc@, i, now, whole, sizes@[i]@)),
            text::texts(out@) =~= all.take(i as int),
        decreases n - i,
    {
        let p: String = item_at(i);
        let mut t: String = p.clone();
        t.append("/RepoTags/0");
        let tag: Option<String> = text_at(doc, t.as_str());
        let id: String = read_field(doc, p.as_str(), "/Id");
        let age: String = read_age(doc, p.as_str(), now);
        let line: String = match &tag {
            Some(t) => image_line(
                Some(t.as_str()),
                id.as_str(),
                whole,
                age.as_str(),
                sizes[i].as_str(),
            ),
            None => image_line(None, id.as_str(), whole, age.as_str(), sizes[i].as_str()),
        };
        add_word(&mut out, line.as_str());
        assert(all.take(i as int + 1) =~= all.take(i as int).push(all[i as int]));
        i += 1;
    }
    assert(all.take(n as int) =~= all);
    Some(out)
}

// ---------------------------------------------------------------- networks and volumes

/// The line of a network.
pub open spec fn network_at(doc: Seq<u8>, i: int) -> Seq<char> {
    let p = item(i);
    commands::row(
        seq![
            network::byte_prefix(field(doc, p + "/Id"@), 12),
            field(doc, p + "/Name"@),
            field(doc, p + "/Driver"@),
            field(doc, p + "/IPAM/Config/0/Subnet"@),
        ],
        seq![20int, 12, 18, 16],
    )
}

pub fn network_head() -> (r: String)
    ensures
        r@ == commands::row(
            seq!["NETWORK ID"@, "NAME"@, "DRIVER"@, "SUBNET"@],
            seq![20int, 12, 18, 16],
        ),
{
    let cells: [&str; 4] = ["NETWORK ID", "NAME", "DRIVER", "SUBNET"];
    let widths: [usize; 4] = [20, 12, 18, 16];
    assert(Seq::new(4, |i: int| cells@[i]@) =~= seq!["NETWORK ID"@, "NAME"@, "DRIVER"@, "SUBNET"@]);
    assert(commands::widths_of(widths@) =~= seq![20int, 12, 18, 16]);
    table_row(&cells, &widths)
}

/// Each of the first `n` ids can be cut behind twelve bytes, as it stands.
pub open spec fn whole_ids_cut(doc: Seq<u8>, n: int) -> bool {
    forall|i: int|
        0 <= i < n ==> network::cuts_at(field(doc, #[trigger] item(i) + "/Id"@), 12)
}

/// The list of networks; nothing where the answer is no list, or where an id cannot be
/// cut behind twelve bytes.
pub fn network_lines(doc: &[u8]) -> (r: Option<Vec<String>>)
    ensures
        match json::json_items(doc@, Seq::empty()) {
            None => r is None,
            Some(n) => if whole_ids_cut(doc@, n as int) {
                r matches Some(v) && text::texts(v@) == Seq::new(
                    n as nat,
                    |i: int| network_at(doc@, i),
                )
            } else {
                r is None
            },
        },
{
    let n: usize = match count(doc) {
        Some(n) => n,
        None => {
            return None;
        },
    };
    let ghost all = Seq::new(n as nat, |i: int| network_at(doc@, i));
    let mut out: Vec<String> = Vec::new();
    let mut i: usize = 0;
    while i < n
        invariant
            i <= n,
            json::json_items(doc@, Seq::empty()) == Some(n),
            all == Seq::new(n as nat, |i: int| network_at(doc@, i)),
            text::texts(out@) =~= all.take(i as int),
            whole_ids_cut(doc@, i as int),
        decreases n - i,
    {
        let p: String = item_at(i);
        let id: String = read_field(doc, p.as_str(), "/Id");
        if !can_cut(id.as_str(), 12) {
            assert(!network::cuts_at(field(doc@, item(i as int) + "/Id"@), 12));
            return None;
        }
        let short: String = first_bytes(id.as_str(), 12);
        let name: String = read_field(doc, p.as_str(), "/Name");
        let driver: String = read_field(doc, p.as_str(), "/Driver");
        let subnet: String = read_field(doc, p.as_str(), "/IPAM/Config/0/Subnet");
        let cells: [&str; 4] = [short.as_str(), name.as_str(), driver.as_str(), subnet.as_str()];
        let widths: [usize; 4] = [20, 12, 18, 16];
        let line: String = table_row(&cells, &widths);
        proof {
            assert(Seq::new(4, |i: int| cells@[i]@) =~= seq![short@, name@, driver@, subnet@]);
            assert(commands::widths_of(widths@) =~= seq![20int, 12, 18, 16]);
            assert(line@ == network_at(doc@, i as int));
        }
        add_word(&mut out, line.as_str());
        assert(all.take(i as int + 1) =~= all.take(i as int).push(all[i as int]));
        i += 1;
    }
    assert(all.take(n as int) =~= all);
    Some(out)
}

/// The line of a volume.
pub open spec fn volume_at(doc: Seq<u8>, i: int) -> Seq<char> {
    let p = json::under_item("/Volumes"@, i);
    commands::row(
        seq![
            field(doc, p + "/Name"@),
            field(doc, p + "/Driver"@),
            field(doc, p + "/Mountpoint"@),
        ],
        seq![32int, 12, 16],
    )
}

pub fn volume_head() -> (r: String)
    ensures
        r@ == commands::row(seq!["VOLUME NAME"@, "DRIVER"@, "MOUNTPOINT"@], seq![32int, 12, 16]),
{
    let cells: [&str; 3] = ["VOLUME NAME", "DRIVER", "MOUNTPOINT"];
    let widths: [usize; 3] = [32, 12, 16];
    assert(Seq::new(3, |i: int| cells@[i]@) =~= seq!["VOLUME NAME"@, "DRIVER"@, "MOUNTPOINT"@]);
    assert(commands::widths_of(widths@) =~= seq![32int, 12, 16]);
    table_row(&cells, &widths)
}

/// The list of volumes, empty where the answer holds no list; nothing where the answer is no
/// JSON.
pub fn volume_lines(doc: &[u8]) -> (r: Option<Vec<String>>)
    ensures
        match r {
            Some(v) => json::is_json(doc@) && text::texts(v@) == Seq::new(
                commands::count_at(doc@, "/Volumes"@),
                |i: int| volume_at(doc@, i),
            ),
            None => !json::is_json(doc@),
        },
{
    if !is_document(doc) {
        return None;
    }
    let mut out: Vec<String> = Vec::new();
    let n: usize = match items_at(doc, "/Volumes") {
        Some(n) => n,
        None => 0,
    };
    let ghost all = Seq::new(n as nat, |i: int| volume_at(doc@, i));
    let mut i: usize = 0;
    while i < n
        invariant
            i <= n,
            all == Seq::new(n as nat, |i: int| volume_at(doc@, i)),
            text::texts(out@) =~= all.take(i as int),
        decreases n - i,
    {
        let p: String = item_pointer("/Volumes", i);
        let name: String = read_field(doc, p.as_str(), "/Name");
        let driver: String = read_field(doc, p.as_str(), "/Driver");
        let place: String = read_field(doc, p.as_str(), "/Mountpoint");
        let cells: [&str; 3] = [name.as_str(), driver.as_str(), place.as_str()];
        let widths: [usize; 3] = [32, 12, 16];
        let line: String = table_row(&cells, &widths);
        proof {
            assert(Seq::new(3, |i: int| cells@[i]@) =~= seq![name@, driver@, place@]);
            assert(commands::widths_of(widths@) =~= seq![32int, 12, 16]);
            assert(line@ == volume_at(doc@, i as int));
        }
        add_word(&mut out, line.as_str());
        assert(all.take(i as int + 1) =~= all.take(i as int).push(all[i as int]));
        i += 1;
    }
    assert(all.take(n as int) =~= all);
    Some(out)
}

} // verus!
