//! What the daemon's replies say, from the bytes that it sends.

use vstd::prelude::*;

use crate::commands::{self, ProgressLine, progress_line, rmi_lines};
use crate::json::{self, integer_at, is_document, item_pointer, items_at, pretty, strings_at, text_at, value_at};
use crate::network::{self, add_word, add_words, can_cut, first_bytes};
use crate::num::{self, decimal_text, signed_decimal_text};
use crate::reference;
use crate::registry;
use crate::text::{self, same};

verus! {

// ---------------------------------------------------------------- ids and codes

/// The id of what was made: nothing is known where the reply is no JSON, and what is said
/// where it holds no id is up to the caller.
pub open spec fn id_of_reply(doc: Seq<u8>, missing: Seq<char>) -> Result<Seq<char>, Seq<char>> {
    if !json::is_json(doc) {
        Err("bad JSON from daemon"@)
    } else {
        match json::json_text(doc, "/Id"@) {
            Some(i) => Ok(i),
            None => Err(missing),
        }
    }
}

/// The id of what was made.
pub fn id_in(doc: &[u8], missing: &str) -> (r: Result<String, String>)
    ensures
        match r {
            Ok(i) => id_of_reply(doc@, missing@) == Ok::<Seq<char>, Seq<char>>(i@),
            Err(e) => id_of_reply(doc@, missing@) == Err::<Seq<char>, Seq<char>>(e@),
        },
{
    if !is_document(doc) {
        return Err("bad JSON from daemon".to_owned());
    }
    match text_at(doc, "/Id") {
        Some(i) => Ok(i),
        None => Err(missing.to_owned()),
    }
}

/// The integer at a pointer of a reply, nought where there is none; nothing where the reply
/// is no JSON.
pub open spec fn code_of_reply(doc: Seq<u8>, pointer: Seq<char>) -> Option<int> {
    if json::is_json(doc) {
        Some(commands::integer_or_nought(doc, pointer))
    } else {
        None
    }
}

fn code_at(doc: &[u8], pointer: &str) -> (r: Option<i64>)
    ensures
        match r {
            Some(n) => code_of_reply(doc@, pointer@) == Some(n as int),
            None => code_of_reply(doc@, pointer@) is None,
        },
{
    if !is_document(doc) {
        return None;
    }
    match integer_at(doc, pointer) {
        Some(n) => Some(n),
        None => Some(0),
    }
}

/// The status that a container ended with.
pub fn wait_code(doc: &[u8]) -> (r: Option<i64>)
    ensures
        match r {
            Some(n) => code_of_reply(doc@, "/StatusCode"@) == Some(n as int),
            None => code_of_reply(doc@, "/StatusCode"@) is None,
        },
{
    code_at(doc, "/StatusCode")
}

/// The status that a command in a container ended with.
pub fn exec_code(doc: &[u8]) -> (r: Option<i64>)
    ensures
        match r {
            Some(n) => code_of_reply(doc@, "/ExitCode"@) == Some(n as int),
            None => code_of_reply(doc@, "/ExitCode"@) is None,
        },
{
    code_at(doc, "/ExitCode")
}

/// The token under which the secrets of a build were staged.
pub fn staged_token(doc: &[u8]) -> (r: Option<String>)
    ensures
        reference::opt_text(r) == json::json_text(doc@, "/token"@),
{
    text_at(doc, "/token")
}

/// The text at a pointer of a reply, empty where there is none; nothing where the reply is
/// no JSON.
pub open spec fn text_of_reply(doc: Seq<u8>, pointer: Seq<char>) -> Option<Seq<char>> {
    if json::is_json(doc) {
        Some(registry::text_or_empty(json::json_text(doc, pointer)))
    } else {
        None
    }
}

fn reply_text(doc: &[u8], pointer: &str) -> (r: Option<String>)
    ensures
        reference::opt_text(r) == text_of_reply(doc@, pointer@),
{
    if !is_document(doc) {
        return None;
    }
    match text_at(doc, pointer) {
        Some(s) => Some(s),
        None => Some(String::new()),
    }
}

/// The name of a volume that was made.
pub fn volume_name(doc: &[u8]) -> (r: Option<String>)
    ensures
        reference::opt_text(r) == text_of_reply(doc@, "/Name"@),
{
    reply_text(doc, "/Name")
}

/// The id of a network that was made, as it is shown: its first twelve bytes. Nothing where
/// the reply is no JSON, or where the id cannot be cut there.
pub fn network_id(doc: &[u8]) -> (r: Option<String>)
    ensures
        reference::opt_text(r) == match text_of_reply(doc@, "/Id"@) {
            Some(i) => if network::cuts_at(i, 12) {
                Some(network::byte_prefix(i, 12))
            } else {
                None
            },
            None => None,
        },
{
    match reply_text(doc, "/Id") {
        Some(i) => {
            if can_cut(i.as_str(), 12) {
                Some(first_bytes(i.as_str(), 12))
            } else {
                None
            }
        },
        None => None,
    }
}

// ---------------------------------------------------------------- what was removed

/// What is told of the first `n` things that were removed with an image.
pub open spec fn removed_to(doc: Seq<u8>, n: int) -> Seq<Seq<char>>
    decreases n,
{
    if n <= 0 {
        Seq::empty()
    } else {
        let p = json::under_item(Seq::empty(), n - 1);
        removed_to(doc, n - 1) + commands::removal_lines(
            json::json_text(doc, p + "/Untagged"@),
            json::json_text(doc, p + "/Deleted"@),
        )
    }
}

/// What is told of an image that was removed: nothing where the reply is no JSON, and no
/// line where it is no list.
pub fn removed_lines(doc: &[u8]) -> (r: Option<Vec<String>>)
    ensures
        match r {
            Some(v) => json::is_json(doc@) && text::texts(v@) == removed_to(
                doc@,
                commands::count_at(doc@, Seq::empty()) as int,
            ),
            None => !json::is_json(doc@),
        },
{
    if !is_document(doc) {
        return None;
    }
    proof {
        reveal_strlit("");
        assert(""@ =~= Seq::empty());
    }
    let n: usize = match items_at(doc, "") {
        Some(n) => n,
        None => 0,
    };
    let mut out: Vec<String> = Vec::new();
    let mut i: usize = 0;
    assert(text::texts(out@) =~= Seq::empty());
    while i < n
        invariant
            i <= n,
            ""@ == Seq::<char>::empty(),
            text::texts(out@) == removed_to(doc@, i as int),
        decreases n - i,
    {
        let p: String = item_pointer("", i);
        let mut u: String = p.clone();
        u.append("/Untagged");
        let mut d: String = p;
        d.append("/Deleted");
        let untagged: Option<String> = text_at(doc, u.as_str());
        let deleted: Option<String> = text_at(doc, d.as_str());
        let lines: Vec<String> = rmi_lines(as_str(&untagged), as_str(&deleted));
        add_words(&mut out, &lines);
        i += 1;
    }
    Some(out)
}

fn as_str(o: &Option<String>) -> (r: Option<&str>)
    ensures
        registry::opt_str(r) == reference::opt_text(*o),
{
    match o {
        Some(s) => Some(s.as_str()),
        None => None,
    }
}

fn counted(head: &str, n: &str, tail: &str) -> (r: String)
    ensures
        r@ == head@ + n@ + tail@,
{
    let mut s: String = head.to_owned();
    s.append(n);
    s.append(tail);
    s
}

fn list_length(doc: &[u8], pointer: &str) -> (r: usize)
    ensures
        r == commands::count_at(doc@, pointer@),
{
    match items_at(doc, pointer) {
        Some(n) => n,
        None => 0,
    }
}

/// What is told of networks that were pruned.
pub fn network_prune_line(doc: &[u8]) -> (r: Option<String>)
    ensures
        reference::opt_text(r) == if json::is_json(doc@) {
            Some(
                "Deleted "@ + num::decimal(commands::count_at(doc@, "/NetworksDeleted"@))
                    + " unused network(s)"@,
            )
        } else {
            None
        },
{
    if !is_document(doc) {
        return None;
    }
    let n: usize = list_length(doc, "/NetworksDeleted");
    Some(counted("Deleted ", decimal_text(n as u128).as_str(), " unused network(s)"))
}

/// What is told of volumes that were pruned.
pub fn volume_prune_line(doc: &[u8]) -> (r: Option<String>)
    ensures
        reference::opt_text(r) == match code_of_reply(doc@, "/VolumesDeleted"@) {
            Some(n) => Some("Deleted "@ + num::signed_decimal(n) + " volume(s)"@),
            None => None,
        },
{
    match code_at(doc, "/VolumesDeleted") {
        Some(n) => Some(counted("Deleted ", signed_decimal_text(n).as_str(), " volume(s)")),
        None => None,
    }
}

/// The space that a pruning of everything gave back: of containers, images and volumes.
pub open spec fn reclaimed_in(
    containers: Seq<u8>,
    images: Seq<u8>,
    volumes: Seq<u8>,
) -> Option<int> {
    if json::is_json(containers) && json::is_json(images) && json::is_json(volumes) {
        Some(
            commands::integer_or_nought(containers, "/SpaceReclaimed"@)
                + commands::integer_or_nought(images, "/SpaceReclaimed"@)
                + commands::integer_or_nought(volumes, "/Reclaimable"@),
        )
    } else {
        None
    }
}

/// The space that a pruning of everything gave back; nothing where a reply is no JSON, or
/// where the sum is none that an `i64` holds.
pub fn reclaimed(containers: &[u8], images: &[u8], volumes: &[u8]) -> (r: Option<i64>)
    ensures
        match r {
            Some(n) => reclaimed_in(containers@, images@, volumes@) == Some(n as int),
            None => match reclaimed_in(containers@, images@, volumes@) {
                Some(n) => !(i64::MIN <= n <= i64::MAX),
                None => true,
            },
        },
{
    let a: i64 = match code_at(containers, "/SpaceReclaimed") {
        Some(n) => n,
        None => {
            return None;
        },
    };
    let b: i64 = match code_at(images, "/SpaceReclaimed") {
        Some(n) => n,
        None => {
            return None;
        },
    };
    let c: i64 = match code_at(volumes, "/Reclaimable") {
        Some(n) => n,
        None => {
            return None;
        },
    };
    let sum: i128 = a as i128 + b as i128 + c as i128;
    if sum < i64::MIN as i128 || sum > i64::MAX as i128 {
        return None;
    }
    Some(sum as i64)
}

/// What is told of the networks that a pruning of everything removed.
pub fn pruned_networks_line(doc: &[u8]) -> (r: Option<String>)
    ensures
        reference::opt_text(r) == if json::is_json(doc@) {
            Some(
                "Deleted "@ + num::decimal(commands::count_at(doc@, "/NetworksDeleted"@))
                    + " network(s)"@,
            )
        } else {
            None
        },
{
    if !is_document(doc) {
        return None;
    }
    let n: usize = list_length(doc, "/NetworksDeleted");
    Some(counted("Deleted ", decimal_text(n as u128).as_str(), " network(s)"))
}

// ---------------------------------------------------------------- messages

/// What is at a pointer as JSON, `null` where there is nothing.
pub open spec fn value_or_null(doc: Seq<u8>, pointer: Seq<char>) -> Seq<char> {
    match json::json_value(doc, pointer) {
        Some(v) => v,
        None => "null"@,
    }
}

/// The JSON of a message's id, where it has one.
pub open spec fn message_id(doc: Seq<u8>) -> Option<Seq<char>> {
    if value_or_null(doc, "/id"@) == "null"@ {
        None
    } else {
        Some(value_or_null(doc, "/id"@))
    }
}

fn read_value(doc: &[u8], pointer: &str) -> (r: String)
    ensures
        r@ == value_or_null(doc@, pointer@),
{
    match value_at(doc, pointer) {
        Some(v) => v,
        None => "null".to_owned(),
    }
}

/// What is shown of a message about a pull or a push.
pub fn progress_in(doc: &[u8]) -> (r: ProgressLine)
    ensures
        r@ == commands::progress_shown(
            json::json_text(doc@, "/status"@),
            message_id(doc@),
            value_or_null(doc@, "/progress"@),
            json::json_text(doc@, "/stream"@),
            json::json_text(doc@, "/error"@),
        ),
{
    let status: Option<String> = text_at(doc, "/status");
    let stream: Option<String> = text_at(doc, "/stream");
    let error: Option<String> = text_at(doc, "/error");
    let progress: String = read_value(doc, "/progress");
    let id: String = read_value(doc, "/id");
    if same(id.as_str(), "null") {
        progress_line(
            as_str(&status),
            None,
            progress.as_str(),
            as_str(&stream),
            as_str(&error),
        )
    } else {
        progress_line(
            as_str(&status),
            Some(id.as_str()),
            progress.as_str(),
            as_str(&stream),
            as_str(&error),
        )
    }
}

/// What is shown of a message about a build: its output, or else its error.
pub fn build_message(doc: &[u8]) -> (r: ProgressLine)
    ensures
        r@ == commands::progress_shown(
            None,
            None,
            Seq::empty(),
            json::json_text(doc@, "/stream"@),
            json::json_text(doc@, "/error"@),
        ),
{
    let stream: Option<String> = text_at(doc, "/stream");
    let error: Option<String> = text_at(doc, "/error");
    proof {
        reveal_strlit("");
        assert(""@ =~= Seq::empty());
    }
    progress_line(None, None, "", as_str(&stream), as_str(&error))
}

// ---------------------------------------------------------------- the daemon's state

/// The versions of the engine and of its API; nothing where the reply is no JSON.
pub fn versions_in(doc: &[u8]) -> (r: Option<(Option<String>, Option<String>)>)
    ensures
        match r {
            Some((v, a)) => {
                &&& json::is_json(doc@)
                &&& reference::opt_text(v) == json::json_text(doc@, "/Version"@)
                &&& reference::opt_text(a) == json::json_text(doc@, "/ApiVersion"@)
            },
            None => !json::is_json(doc@),
        },
{
    if !is_document(doc) {
        return None;
    }
    Some((text_at(doc, "/Version"), text_at(doc, "/ApiVersion")))
}

/// Where the daemon keeps its data: where it says so, or where it does by default.
pub open spec fn root_of_reply(doc: Seq<u8>) -> Seq<char> {
    match json::json_text(doc, "/DockerRootDir"@) {
        Some(d) => d,
        None => "/var/lib/ingot"@,
    }
}

/// Where the daemon keeps its data, and the security options that it reports; nothing where
/// the reply is no JSON.
pub fn state_in(doc: &[u8]) -> (r: Option<(String, Vec<String>)>)
    ensures
        match r {
            Some((d, o)) => {
                &&& json::is_json(doc@)
                &&& d@ == root_of_reply(doc@)
                &&& text::texts(o@) == json::strings_to(
                    doc@,
                    "/SecurityOptions"@,
                    commands::count_at(doc@, "/SecurityOptions"@) as int,
                )
            },
            None => !json::is_json(doc@),
        },
{
    if !is_document(doc) {
        return None;
    }
    let root: String = match text_at(doc, "/DockerRootDir") {
        Some(d) => d,
        None => "/var/lib/ingot".to_owned(),
    };
    let n: usize = list_length(doc, "/SecurityOptions");
    Some((root, strings_at(doc, "/SecurityOptions", n)))
}

// ---------------------------------------------------------------- replies as they are

/// A reply laid out as it is shown by an inspection; nothing where it is no JSON.
pub fn inspected(doc: &[u8]) -> (r: Option<String>)
    ensures
        reference::opt_text(r) == match json::json_value(doc@, Seq::empty()) {
            Some(v) => json::json_pretty(v),
            None => None,
        },
{
    proof {
        reveal_strlit("");
        assert(""@ =~= Seq::empty());
    }
    match value_at(doc, "") {
        Some(v) => pretty(v.as_str()),
        None => None,
    }
}

/// The items of a list, each as one line of JSON; nothing where the reply is no list.
pub fn json_lines(doc: &[u8]) -> (r: Option<Vec<String>>)
    ensures
        match json::json_items(doc@, Seq::empty()) {
            None => r is None,
            Some(n) => r matches Some(v) && text::texts(v@) == Seq::new(
                n as nat,
                |i: int| value_or_null(doc@, json::under_item(Seq::empty(), i)),
            ),
        },
{
    proof {
        reveal_strlit("");
        assert(""@ =~= Seq::empty());
    }
    let n: usize = match items_at(doc, "") {
        Some(n) => n,
        None => {
            return None;
        },
    };
    let ghost all = Seq::new(
        n as nat,
        |i: int| value_or_null(doc@, json::under_item(Seq::empty(), i)),
    );
    let mut out: Vec<String> = Vec::new();
    let mut i: usize = 0;
    assert(text::texts(out@) =~= all.take(0));
    while i < n
        invariant
            i <= n,
            ""@ == Seq::<char>::empty(),
            all == Seq::new(
                n as nat,
                |i: int| value_or_null(doc@, json::under_item(Seq::empty(), i)),
            ),
            text::texts(out@) == all.take(i as int),
        decreases n - i,
    {
        let p: String = item_pointer("", i);
        let line: String = read_value(doc, p.as_str());
        add_word(&mut out, line.as_str());
        assert(all.take(i as int + 1) =~= all.take(i as int).push(all[i as int]));
        i += 1;
    }
    assert(all.take(n as int) =~= all);
    Some(out)
}

} // verus!
