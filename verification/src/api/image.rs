//! Images, as the API shows and takes them. Free-form JSON is kept as its text.

use vstd::prelude::*;

use crate::api::container::{ContainerConfig, GraphDriverData};
use crate::json::{self, quote_json, write_object};
use crate::network::{add_word, words_of};
use crate::num::{self, signed_decimal_text};
use crate::reference;
use crate::table::Table;
use crate::text;

verus! {

/// GET /images/json
#[derive(Debug, Clone, Default)]
pub struct ImageSummary {
    pub Id: String,
    pub ParentId: String,
    pub RepoTags: Vec<String>,
    pub RepoDigests: Vec<String>,
    pub Created: i64,
    pub Size: i64,
    pub SharedSize: i64,
    pub VirtualSize: i64,
    pub Labels: Table<String>,
    pub Containers: i64,
}

/// GET /images/{name}/json
#[derive(Debug, Clone, Default)]
pub struct ImageInspect {
    pub Id: String,
    pub RepoTags: Vec<String>,
    pub RepoDigests: Vec<String>,
    pub Parent: String,
    pub Comment: String,
    pub Created: String,
    pub Container: String,
    pub ContainerConfig: ContainerConfig,
    pub DockerVersion: String,
    pub Author: String,
    pub Config: ContainerConfig,
    pub Architecture: String,
    pub Variant: String,
    pub Os: String,
    pub Size: i64,
    pub VirtualSize: i64,
    pub GraphDriver: GraphDriverData,
    pub RootFS: RootFs,
    pub Metadata: ImageMetadata,
}

#[derive(Debug, Clone, Default)]
pub struct RootFs {
    pub typ: String,
    pub Layers: Option<Vec<String>>,
    pub FsLayers: Option<Vec<BlobSummary>>,
}

#[derive(Debug, Clone)]
pub struct BlobSummary {
    pub BlobSum: String,
}

#[derive(Debug, Clone, Default)]
pub struct ImageMetadata {
    pub LastTagTime: Option<String>,
}

/// GET /images/{name}/history
#[derive(Debug, Clone, Default)]
pub struct HistoryResponseItem {
    pub Comment: String,
    pub Created: i64,
    pub CreatedBy: String,
    pub Id: String,
    pub Size: i64,
    pub Tags: Option<Vec<String>>,
}

/// DELETE /images/{name}
#[derive(Debug, Clone, Default)]
pub struct ImageDeleteResponseItem {
    pub Untagged: String,
    pub Deleted: String,
}

/// POST /images/{name}/push or /images/create auth body (X-Registry-Auth).
#[derive(Debug, Clone, Default)]
pub struct PushOptions {
    pub Tag: String,
}

/// Progress/status JSON messages streamed by /images/create, /build, /push.
/// Docker uses newline-delimited JSON with per-message `stream`/`status`/`progress` keys.
#[derive(Debug, Clone, Default)]
pub struct ProgressMessage {
    pub stream: Option<String>,
    pub status: Option<String>,
    pub progress: Option<String>,
    pub progressDetail: Option<ProgressDetail>,
    pub id: Option<String>,
    pub from: Option<String>,
    pub time: Option<String>,
    pub error: Option<String>,
    pub errorDetail: Option<ErrorDetail>,
    pub aux: Option<String>,
}

#[derive(Debug, Clone, Default)]
pub struct ProgressDetail {
    pub current: i64,
    pub total: i64,
}

#[derive(Debug, Clone, Default)]
pub struct ErrorDetail {
    pub message: String,
}

/// POST /images/{name}/tag
#[derive(Debug, Clone, Default)]
pub struct TagRequest {
    pub repo: String,
    pub tag: String,
}

/// GET /images/search
#[derive(Debug, Clone, Default)]
pub struct SearchResultItem {
    pub description: String,
    pub is_official: bool,
    pub name: String,
    pub star_count: i64,
    pub is_automated: bool,
}

/// POST /images/prune
#[derive(Debug, Clone, Default)]
pub struct ImagesPruneReport {
    pub ImagesDeleted: Option<Vec<ImageDeleteResponseItem>>,
    pub SpaceReclaimed: u64,
}

/// What a message is made of.
#[verifier::ext_equal]
pub struct ProgressView {
    pub stream: Option<Seq<char>>,
    pub status: Option<Seq<char>>,
    pub progress: Option<Seq<char>>,
    pub detail: Option<(i64, i64)>,
    pub id: Option<Seq<char>>,
    pub from: Option<Seq<char>>,
    pub time: Option<Seq<char>>,
    pub error: Option<Seq<char>>,
    pub error_detail: Option<Seq<char>>,
    pub aux: Option<Seq<char>>,
}

/// The message that says nothing.
pub open spec fn silence() -> ProgressView {
    ProgressView {
        stream: None,
        status: None,
        progress: None,
        detail: None,
        id: None,
        from: None,
        time: None,
        error: None,
        error_detail: None,
        aux: None,
    }
}

impl View for ProgressMessage {
    type V = ProgressView;

    open spec fn view(&self) -> ProgressView {
        ProgressView {
            stream: reference::opt_text(self.stream),
            status: reference::opt_text(self.status),
            progress: reference::opt_text(self.progress),
            detail: match self.progressDetail {
                Some(d) => Some((d.current, d.total)),
                None => None,
            },
            id: reference::opt_text(self.id),
            from: reference::opt_text(self.from),
            time: reference::opt_text(self.time),
            error: reference::opt_text(self.error),
            error_detail: match self.errorDetail {
                Some(d) => Some(d.message@),
                None => None,
            },
            aux: reference::opt_text(self.aux),
        }
    }
}

/// The keys and the values of an object, with one more member where there is a value.
pub open spec fn given(
    m: (Seq<Seq<char>>, Seq<Seq<char>>),
    key: Seq<char>,
    value: Option<Seq<char>>,
) -> (Seq<Seq<char>>, Seq<Seq<char>>) {
    match value {
        Some(v) => (m.0.push(key), m.1.push(v)),
        None => m,
    }
}

/// Text as JSON, where there is any.
pub open spec fn opt_quoted(s: Option<Seq<char>>) -> Option<Seq<char>> {
    match s {
        Some(t) => Some(json::json_quoted(t)),
        None => None,
    }
}

/// How much of how much, as JSON.
pub open spec fn detail_json(d: Option<(i64, i64)>) -> Option<Seq<char>> {
    match d {
        Some((current, total)) => Some(
            json::json_object(
                seq!["current"@, "total"@],
                seq![num::signed_decimal(current as int), num::signed_decimal(total as int)],
            ),
        ),
        None => None,
    }
}

/// What went wrong, as JSON.
pub open spec fn error_json(e: Option<Seq<char>>) -> Option<Seq<char>> {
    match e {
        Some(m) => Some(json::json_object(seq!["message"@], seq![json::json_quoted(m)])),
        None => None,
    }
}

/// The members of a message: those that it has, in this order.
pub open spec fn progress_members(p: ProgressView) -> (Seq<Seq<char>>, Seq<Seq<char>>) {
    let m = (Seq::empty(), Seq::empty());
    let m = given(m, "stream"@, opt_quoted(p.stream));
    let m = given(m, "status"@, opt_quoted(p.status));
    let m = given(m, "progress"@, opt_quoted(p.progress));
    let m = given(m, "progressDetail"@, detail_json(p.detail));
    let m = given(m, "id"@, opt_quoted(p.id));
    let m = given(m, "from"@, opt_quoted(p.from));
    let m = given(m, "time"@, opt_quoted(p.time));
    let m = given(m, "error"@, opt_quoted(p.error));
    let m = given(m, "errorDetail"@, error_json(p.error_detail));
    given(m, "aux"@, p.aux)
}

/// An object that grows.
struct Members {
    keys: Vec<String>,
    values: Vec<String>,
}

impl Members {
    spec fn both(self) -> (Seq<Seq<char>>, Seq<Seq<char>>) {
        (text::texts(self.keys@), text::texts(self.values@))
    }

    fn give(&mut self, key: &str, value: Option<String>)
        requires
            old(self).keys@.len() == old(self).values@.len(),
        ensures
            final(self).both() == given(old(self).both(), key@, reference::opt_text(value)),
            final(self).keys@.len() == final(self).values@.len(),
    {
        if let Some(v) = value {
            add_word(&mut self.keys, key);
            add_word(&mut self.values, v.as_str());
        }
    }

    fn give_text(&mut self, key: &str, value: &Option<String>)
        requires
            old(self).keys@.len() == old(self).values@.len(),
        ensures
            final(self).both() == given(
                old(self).both(),
                key@,
                opt_quoted(reference::opt_text(*value)),
            ),
            final(self).keys@.len() == final(self).values@.len(),
    {
        if let Some(v) = value {
            let q: String = quote_json(v.as_str());
            self.give(key, Some(q));
        }
    }
}

impl ProgressMessage {
    fn blank() -> (r: ProgressMessage)
        ensures
            r@ == silence(),
    {
        ProgressMessage {
            stream: None,
            status: None,
            progress: None,
            progressDetail: None,
            id: None,
            from: None,
            time: None,
            error: None,
            errorDetail: None,
            aux: None,
        }
    }

    /// Output as it comes.
    pub fn stream(s: String) -> (r: ProgressMessage)
        ensures
            r@ == (ProgressView { stream: Some(s@), ..silence() }),
    {
        let mut m: ProgressMessage = ProgressMessage::blank();
        m.stream = Some(s);
        m
    }

    /// What is going on.
    pub fn status(s: String) -> (r: ProgressMessage)
        ensures
            r@ == (ProgressView { status: Some(s@), ..silence() }),
    {
        let mut m: ProgressMessage = ProgressMessage::blank();
        m.status = Some(s);
        m
    }

    /// What went wrong.
    pub fn error(s: String) -> (r: ProgressMessage)
        ensures
            r@ == (ProgressView { error: Some(s@), error_detail: Some(s@), ..silence() }),
    {
        let mut m: ProgressMessage = ProgressMessage::blank();
        m.errorDetail = Some(ErrorDetail { message: s.clone() });
        m.error = Some(s);
        m
    }

    /// The message as a line of JSON.
    pub fn to_line(&self) -> (r: String)
        ensures
            r@ == json::json_object(progress_members(self@).0, progress_members(self@).1) + "\n"@,
    {
        let mut m: Members = Members { keys: Vec::new(), values: Vec::new() };
        proof {
            assert(m.both().0 =~= Seq::empty());
            assert(m.both().1 =~= Seq::empty());
        }
        m.give_text("stream", &self.stream);
        m.give_text("status", &self.status);
        m.give_text("progress", &self.progress);
        let detail: Option<String> = match &self.progressDetail {
            Some(d) => {
                let ks: Vec<String> = words_of(&["current", "total"]);
                let mut vs: Vec<String> = Vec::new();
                add_word(&mut vs, signed_decimal_text(d.current).as_str());
                add_word(&mut vs, signed_decimal_text(d.total).as_str());
                proof {
                    assert(text::texts(ks@) =~= seq!["current"@, "total"@]);
                    assert(text::texts(vs@) =~= seq![
                        num::signed_decimal(d.current as int),
                        num::signed_decimal(d.total as int),
                    ]);
                }
                Some(write_object(&ks, &vs))
            },
            None => None,
        };
        m.give("progressDetail", detail);
        m.give_text("id", &self.id);
        m.give_text("from", &self.from);
        m.give_text("time", &self.time);
        m.give_text("error", &self.error);
        let wrong: Option<String> = match &self.errorDetail {
            Some(d) => {
                let ks: Vec<String> = words_of(&["message"]);
                let mut vs: Vec<String> = Vec::new();
                add_word(&mut vs, quote_json(d.message.as_str()).as_str());
                proof {
                    assert(text::texts(ks@) =~= seq!["message"@]);
                    assert(text::texts(vs@) =~= seq![json::json_quoted(d.message@)]);
                }
                Some(write_object(&ks, &vs))
            },
            None => None,
        };
        m.give("errorDetail", wrong);
        m.give("aux", self.aux.clone());
        let mut s: String = write_object(&m.keys, &m.values);
        s.append("\n");
        s
    }

    /// What is going on with one layer.
    pub fn layer(id: String, status: &str, detail: Option<(i64, i64)>) -> (r: ProgressMessage)
        ensures
            r@ == (ProgressView { id: Some(id@), status: Some(status@), detail, ..silence() }),
    {
        let mut m: ProgressMessage = ProgressMessage::blank();
        m.id = Some(id);
        m.status = Some(status.to_owned());
        m.progressDetail = match detail {
            Some((current, total)) => Some(ProgressDetail { current, total }),
            None => None,
        };
        m
    }
}

} // verus!
