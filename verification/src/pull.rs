//! Pulling an image: whether its layers are those of its configuration, the record that is
//! made of it, and what is told on the way.

use vstd::prelude::*;
use vstd::utf8::encode_utf8;

use crate::api::container::{ContainerConfig, HealthConfig};
use crate::api::image::{self, ProgressDetail, ProgressMessage, ProgressView};
use crate::api::system::AuthConfig;
use crate::network::add_word;
use crate::pushing::{self, abbreviate};
use crate::reference::{self, ImageRef, Reference};
use crate::registry::{self, Descriptor, DescriptorView, ManifestView, PlatformManifest};
use crate::store::{self, HistoryEntry, ImageRecord, bare};
use crate::table::Table;
use crate::text::{self, same};
use crate::unicode::{self, quote};

verus! {

/// What is pulled, and with which credentials.
pub struct PullHandle {
    pub image_ref: ImageRef,
    pub auth: Option<AuthConfig>,
}

/// The configuration of an image.
#[derive(Debug, Clone, Default)]
pub struct OciImageConfig {
    pub created: Option<String>,
    pub author: Option<String>,
    pub architecture: String,
    pub os: String,
    pub config: OciRuntimeConfig,
    pub rootfs: OciRootFs,
    pub history: Vec<OciHistory>,
    pub docker_version: String,
    pub comment: Option<String>,
}

/// How a container of an image runs.
#[derive(Debug, Clone, Default)]
#[allow(non_snake_case)]
pub struct OciRuntimeConfig {
    pub Env: Vec<String>,
    pub Cmd: Option<Vec<String>>,
    pub Entrypoint: Option<Vec<String>>,
    pub WorkingDir: String,
    pub User: String,
    pub Labels: Table<String>,
    pub ExposedPorts: Option<Table<String>>,
    pub Volumes: Option<Table<String>>,
    pub StopSignal: Option<String>,
    pub ArgsEscaped: Option<bool>,
    pub Healthcheck: Option<HealthConfig>,
    pub Shell: Option<Vec<String>>,
    pub OnBuild: Option<Vec<String>>,
}

/// The layers of an image, the lowest first.
#[derive(Debug, Clone, Default)]
pub struct OciRootFs {
    pub typ: String,
    pub diff_ids: Vec<String>,
}

/// One step of an image's history.
#[derive(Debug, Clone, Default)]
pub struct OciHistory {
    pub created: String,
    pub created_by: String,
    pub author: Option<String>,
    pub comment: Option<String>,
    pub empty_layer: Option<bool>,
    pub created_for: Option<String>,
}

// ---------------------------------------------------------------- time

/// The seconds since 1970 of a time in RFC 3339, where the text is one.
pub uninterp spec fn rfc3339(s: Seq<char>) -> Option<i64>;

/// `chrono::DateTime::parse_from_rfc3339`, then `DateTime::timestamp`: the seconds since
/// 1970 of the time that the text writes; `None` where it writes none.
#[verifier::external_body]
fn rfc3339_seconds(s: &str) -> (r: Option<i64>)
    ensures
        r == rfc3339(s@),
{
    chrono::DateTime::parse_from_rfc3339(s).ok().map(|d| d.timestamp())
}

/// The seconds of a time, none where there is no time.
pub open spec fn seconds_or_zero(s: Option<Seq<char>>) -> i64 {
    match s {
        Some(t) => match rfc3339(t) {
            Some(n) => n,
            None => 0,
        },
        None => 0,
    }
}

pub fn parse_rfc3339_or_zero(s: &Option<String>) -> (r: i64)
    ensures
        r == seconds_or_zero(reference::opt_text(*s)),
{
    match s {
        Some(t) => match rfc3339_seconds(t.as_str()) {
            Some(n) => n,
            None => 0,
        },
        None => 0,
    }
}

// ---------------------------------------------------------------- layers

/// The first place at or behind `j` where the text stands, or the end.
pub open spec fn place_of(want: Seq<Seq<char>>, g: Seq<char>, j: int) -> int
    decreases want.len() - j,
{
    if j < 0 || j >= want.len() || want[j] == g {
        j
    } else {
        place_of(want, g, j + 1)
    }
}

/// The first layer at or behind `i` that does not stand at or behind `j` in the list, each
/// next one behind the one before it; the end where there is none.
pub open spec fn unlisted_from(
    got: Seq<Seq<char>>,
    want: Seq<Seq<char>>,
    i: int,
    j: int,
) -> int
    decreases got.len() - i,
{
    if i < 0 || i >= got.len() {
        i
    } else {
        let k = place_of(want, got[i], j);
        if k >= want.len() {
            i
        } else {
            unlisted_from(got, want, i + 1, k + 1)
        }
    }
}

/// The texts stand in the list, in the same order.
pub open spec fn is_subsequence(got: Seq<Seq<char>>, want: Seq<Seq<char>>) -> bool
    decreases want.len(),
{
    if got.len() == 0 {
        true
    } else if want.len() == 0 {
        false
    } else {
        (got[0] == want[0] && is_subsequence(got.skip(1), want.skip(1))) || is_subsequence(
            got,
            want.skip(1),
        )
    }
}

/// Why the layers that were unpacked are not those of the configuration, if so. The
/// configuration may list more of them.
pub open spec fn rootfs_error(
    image: Seq<char>,
    typ: Seq<char>,
    want: Seq<Seq<char>>,
    got: Seq<Seq<char>>,
) -> Option<Seq<char>> {
    if typ.len() > 0 && typ != "layers"@ {
        Some("unsupported rootfs type "@ + unicode::quoted(typ) + " for "@ + image)
    } else {
        let k = unlisted_from(got, want, 0, 0);
        if want.len() > 0 && k < got.len() {
            Some(
                "layer diffID mismatch for "@ + image + ": unpacked layer "@ + got[k]
                    + " not listed in image config"@,
            )
        } else {
            None
        }
    }
}

fn find_layer(want: &Vec<String>, g: &str, from: usize) -> (r: usize)
    requires
        from <= want@.len(),
    ensures
        r == place_of(text::texts(want@), g@, from as int),
        from <= r <= want@.len(),
{
    let ghost wv = text::texts(want@);
    let mut j: usize = from;
    while j < want.len()
        invariant
            from <= j <= want.len(),
            wv == text::texts(want@),
            place_of(wv, g@, from as int) == place_of(wv, g@, j as int),
        decreases want.len() - j,
    {
        if same(want[j].as_str(), g) {
            return j;
        }
        j += 1;
    }
    j
}

/// Whether the layers that were unpacked are those of the configuration.
pub fn check_rootfs(image: &ImageRef, rootfs: &OciRootFs, diff_ids: &Vec<String>) -> (r: Result<
    (),
    String,
>)
    ensures
        ({
            let e = rootfs_error(
                image@.shown(),
                rootfs.typ@,
                text::texts(rootfs.diff_ids@),
                text::texts(diff_ids@),
            );
            match r {
                Ok(_) => e is None,
                Err(d) => e == Some(d@),
            }
        }),
{
    if !rootfs.typ.as_str().is_empty() && !same(rootfs.typ.as_str(), "layers") {
        let mut e: String = "unsupported rootfs type ".to_owned();
        e.append(quote(rootfs.typ.as_str()).as_str());
        e.append(" for ");
        e.append(image.display_ref().as_str());
        return Err(e);
    }
    let ghost want = text::texts(rootfs.diff_ids@);
    let ghost got = text::texts(diff_ids@);
    assert(want.len() == rootfs.diff_ids@.len());
    if rootfs.diff_ids.len() == 0 {
        return Ok(());
    }
    let mut i: usize = 0;
    let mut j: usize = 0;
    while i < diff_ids.len()
        invariant
            i <= diff_ids.len(),
            j <= rootfs.diff_ids.len(),
            want == text::texts(rootfs.diff_ids@),
            got == text::texts(diff_ids@),
            want.len() > 0,
            !(rootfs.typ@.len() > 0 && rootfs.typ@ != "layers"@),
            unlisted_from(got, want, 0, 0) == unlisted_from(got, want, i as int, j as int),
        decreases diff_ids.len() - i,
    {
        assert(got[i as int] == diff_ids@[i as int]@);
        let k: usize = find_layer(&rootfs.diff_ids, diff_ids[i].as_str(), j);
        if k == rootfs.diff_ids.len() {
            let mut e: String = "layer diffID mismatch for ".to_owned();
            e.append(image.display_ref().as_str());
            e.append(": unpacked layer ");
            e.append(diff_ids[i].as_str());
            e.append(" not listed in image config");
            return Err(e);
        }
        j = k + 1;
        i += 1;
    }
    Ok(())
}

proof fn lemma_place_of(want: Seq<Seq<char>>, g: Seq<char>, j: int)
    requires
        0 <= j <= want.len(),
    ensures
        j <= place_of(want, g, j) <= want.len(),
    decreases want.len() - j,
{
    if j < want.len() && want[j] != g {
        lemma_place_of(want, g, j + 1);
    }
}

proof fn lemma_subsequence_shorter(got: Seq<Seq<char>>, want: Seq<Seq<char>>)
    requires
        got.len() > 0,
        is_subsequence(got, want),
    ensures
        is_subsequence(got.skip(1), want),
    decreases want.len(),
{
    let w = want.skip(1);
    if got.skip(1).len() == 0 {
    } else if got[0] == want[0] && is_subsequence(got.skip(1), w) {
    } else {
        lemma_subsequence_shorter(got, w);
    }
}

proof fn lemma_greedy(got: Seq<Seq<char>>, want: Seq<Seq<char>>, i: int, j: int)
    requires
        0 <= i <= got.len(),
        0 <= j <= want.len(),
    ensures
        i <= unlisted_from(got, want, i, j) <= got.len(),
        (unlisted_from(got, want, i, j) == got.len()) == is_subsequence(
            got.skip(i),
            want.skip(j),
        ),
    decreases got.len() - i, want.len() - j,
{
    let g = got.skip(i);
    let w = want.skip(j);
    if i < got.len() {
        lemma_place_of(want, got[i], j);
        if j < want.len() {
            assert(w.skip(1) =~= want.skip(j + 1));
            assert(g.skip(1) =~= got.skip(i + 1));
            assert(g[0] == got[i] && w[0] == want[j]);
            if want[j] == got[i] {
                lemma_greedy(got, want, i + 1, j + 1);
                if is_subsequence(g, w.skip(1)) {
                    lemma_subsequence_shorter(g, w.skip(1));
                }
            } else {
                lemma_greedy(got, want, i, j + 1);
            }
        }
    }
}

/// Layers are taken exactly where each of them stands in the configuration's list, in
/// order, whether the configuration names its type of root or not.
pub proof fn law_layers_in_order(
    image: Seq<char>,
    typ: Seq<char>,
    want: Seq<Seq<char>>,
    got: Seq<Seq<char>>,
)
    requires
        want.len() > 0,
        typ.len() == 0 || typ == "layers"@,
    ensures
        rootfs_error(image, typ, want, got) is None <==> is_subsequence(got, want),
{
    lemma_greedy(got, want, 0, 0);
    assert(got.skip(0) =~= got);
    assert(want.skip(0) =~= want);
}

// ---------------------------------------------------------------- the record

fn copy_opt(o: &Option<String>) -> (r: Option<String>)
    ensures
        reference::opt_text(r) == reference::opt_text(*o),
{
    match o {
        Some(s) => Some(s.clone()),
        None => None,
    }
}

/// The step of a history says what the configuration's says.
pub open spec fn same_step(h: HistoryEntry, o: OciHistory) -> bool {
    &&& h.created@ == o.created@
    &&& h.created_by@ == o.created_by@
    &&& reference::opt_text(h.created_for) == reference::opt_text(o.created_for)
    &&& reference::opt_text(h.author) == reference::opt_text(o.author)
    &&& reference::opt_text(h.comment) == reference::opt_text(o.comment)
    &&& h.empty_layer == o.empty_layer
}

pub fn to_history(v: &Vec<OciHistory>) -> (r: Vec<HistoryEntry>)
    ensures
        r@.len() == v@.len(),
        forall|i: int| 0 <= i < r@.len() ==> same_step(#[trigger] r@[i], v@[i]),
{
    let mut out: Vec<HistoryEntry> = Vec::new();
    let mut i: usize = 0;
    while i < v.len()
        invariant
            i <= v.len(),
            out@.len() == i,
            forall|j: int| 0 <= j < i ==> same_step(#[trigger] out@[j], v@[j]),
        decreases v.len() - i,
    {
        let h: &OciHistory = &v[i];
        out.push(
            HistoryEntry {
                created: h.created.clone(),
                created_by: h.created_by.clone(),
                created_for: copy_opt(&h.created_for),
                author: copy_opt(&h.author),
                comment: copy_opt(&h.comment),
                empty_layer: h.empty_layer,
            },
        );
        i += 1;
    }
    out
}

/// The container's configuration that an image's gives: what the image does not say is
/// empty.
pub open spec fn configured(r: ContainerConfig, c: OciRuntimeConfig) -> bool {
    &&& r.Hostname@.len() == 0
    &&& r.Domainname@.len() == 0
    &&& r.User == c.User
    &&& !r.AttachStdin
    &&& !r.AttachStdout
    &&& !r.AttachStderr
    &&& r.ExposedPorts == c.ExposedPorts
    &&& !r.Tty
    &&& !r.OpenStdin
    &&& !r.StdinOnce
    &&& r.Env == c.Env
    &&& match c.Cmd {
        Some(v) => r.Cmd == v,
        None => r.Cmd@.len() == 0,
    }
    &&& r.Healthcheck == c.Healthcheck
    &&& r.ArgsEscaped == (c.ArgsEscaped == Some(true))
    &&& r.Image@.len() == 0
    &&& r.Volumes == c.Volumes
    &&& r.WorkingDir == c.WorkingDir
    &&& r.Entrypoint == c.Entrypoint
    &&& r.OnBuild == c.OnBuild
    &&& r.Labels == c.Labels
    &&& match c.StopSignal {
        Some(s) => r.StopSignal == s,
        None => r.StopSignal@.len() == 0,
    }
    &&& r.StopTimeout is None
    &&& r.Shell == c.Shell
}

pub fn to_container_config(c: OciRuntimeConfig) -> (r: ContainerConfig)
    ensures
        configured(r, c),
{
    ContainerConfig {
        Hostname: String::new(),
        Domainname: String::new(),
        User: c.User,
        AttachStdin: false,
        AttachStdout: false,
        AttachStderr: false,
        ExposedPorts: c.ExposedPorts,
        Tty: false,
        OpenStdin: false,
        StdinOnce: false,
        Env: c.Env,
        Cmd: match c.Cmd {
            Some(v) => v,
            None => Vec::new(),
        },
        Healthcheck: c.Healthcheck,
        ArgsEscaped: match c.ArgsEscaped {
            Some(b) => b,
            None => false,
        },
        Image: String::new(),
        Volumes: c.Volumes,
        WorkingDir: c.WorkingDir,
        Entrypoint: c.Entrypoint,
        OnBuild: c.OnBuild,
        Labels: c.Labels,
        StopSignal: match c.StopSignal {
            Some(s) => s,
            None => String::new(),
        },
        StopTimeout: None,
        Shell: c.Shell,
    }
}

/// The sizes of layers, summed up.
pub open spec fn sizes(v: Seq<DescriptorView>) -> int
    decreases v.len(),
{
    if v.len() == 0 {
        0
    } else {
        sizes(v.drop_last()) + v.last().size
    }
}

/// The bytes of the layers; none where they do not fit.
pub fn layers_total(layers: &Vec<Descriptor>) -> (r: Option<i64>)
    ensures
        match r {
            Some(n) => n == sizes(registry::descriptor_views(layers@)),
            None => !(i64::MIN <= sizes(registry::descriptor_views(layers@)) <= i64::MAX),
        },
{
    let ghost lv = registry::descriptor_views(layers@);
    let mut total: i128 = 0;
    let mut i: usize = 0;
    assert(lv.take(0) =~= Seq::empty());
    while i < layers.len()
        invariant
            i <= layers.len(),
            lv == registry::descriptor_views(layers@),
            total == sizes(lv.take(i as int)),
            -(i as int) * 0x8000_0000_0000_0000 <= total <= i * 0x8000_0000_0000_0000,
        decreases layers.len() - i,
    {
        assert(lv.take(i as int + 1).drop_last() =~= lv.take(i as int));
        assert(i < usize::MAX <= 0xffff_ffff_ffff_ffff);
        total = total + layers[i].size as i128;
        i += 1;
    }
    assert(lv.take(lv.len() as int) =~= lv);
    if total >= i64::MIN as i128 && total <= i64::MAX as i128 {
        Some(total as i64)
    } else {
        None
    }
}

/// The size that an image is shown with: its layers, its configuration and the name of its
/// media type; none where that does not fit.
pub fn pulled_size(manifest: &PlatformManifest, config_len: u64) -> (r: Option<i64>)
    ensures
        match r {
            Some(x) => size_fits(manifest@, config_len) && x == shown_size(manifest@, config_len),
            None => !size_fits(manifest@, config_len),
        },
{
    let total: i64 = match layers_total(&manifest.layers) {
        Some(n) => n,
        None => {
            return None;
        },
    };
    let m: usize = manifest.media_type.as_str().as_bytes().len();
    let n: i128 = total as i128 + config_len as i128 + m as i128;
    if n >= i64::MIN as i128 && n <= i64::MAX as i128 {
        Some(n as i64)
    } else {
        None
    }
}

/// The record is that of an image that was pulled.
pub open spec fn is_pulled(
    r: ImageRecord,
    image: Reference,
    manifest: ManifestView,
    top_digest: Seq<char>,
    config: OciImageConfig,
    size: i64,
    diff_ids: Seq<Seq<char>>,
    blobs: Seq<Seq<char>>,
) -> bool {
    &&& r.id@ == store::bare_id(manifest.config_digest)
    &&& r.manifest_digest@ == top_digest
    &&& r.tags() == (match image.tag_key_opt() {
        Some(k) => seq![k],
        None => Seq::empty(),
    })
    &&& text::texts(r.repo_digests@) == seq![image.shown_repo() + "@"@ + top_digest]
    &&& r.created@ == registry::text_or_empty(reference::opt_text(config.created))
    &&& r.created_unix == seconds_or_zero(reference::opt_text(config.created))
    &&& r.architecture@ == config.architecture@
    &&& r.os@ == config.os@
    &&& r.author@ == registry::text_or_empty(reference::opt_text(config.author))
    &&& r.comment@ == registry::text_or_empty(reference::opt_text(config.comment))
    &&& r.docker_version@ == config.docker_version@
    &&& text::texts(r.diff_ids@) == diff_ids
    &&& text::texts(r.layer_blobs@) == blobs
    &&& r.size == size
    &&& configured(r.config, config.config)
    &&& r.history@.len() == config.history@.len()
    &&& forall|i: int|
        0 <= i < r.history@.len() ==> same_step(#[trigger] r.history@[i], config.history@[i])
    &&& text::texts(r.chain_ids@) == store::chain_ids(diff_ids)
}

fn or_empty(o: Option<String>) -> (r: String)
    ensures
        r@ == registry::text_or_empty(reference::opt_text(o)),
{
    match o {
        Some(s) => s,
        None => String::new(),
    }
}

/// The digests of layers, as they were fetched.
pub open spec fn digests_of(v: Seq<DescriptorView>) -> Seq<Seq<char>> {
    Seq::new(v.len(), |i: int| v[i].digest)
}

fn list_digests(layers: &Vec<Descriptor>) -> (r: Vec<String>)
    ensures
        text::texts(r@) == digests_of(registry::descriptor_views(layers@)),
{
    let ghost dv = digests_of(registry::descriptor_views(layers@));
    let mut out: Vec<String> = Vec::new();
    let mut i: usize = 0;
    while i < layers.len()
        invariant
            i <= layers.len(),
            dv == digests_of(registry::descriptor_views(layers@)),
            text::texts(out@) =~= dv.take(i as int),
        decreases layers.len() - i,
    {
        add_word(&mut out, layers[i].digest.as_str());
        assert(dv[i as int] == layers@[i as int].digest@);
        assert(dv.take(i as int + 1) =~= dv.take(i as int).push(dv[i as int]));
        i += 1;
    }
    assert(dv.take(dv.len() as int) =~= dv);
    out
}

/// The size that an image is shown with: its layers, its configuration and the name of its
/// media type.
pub open spec fn shown_size(manifest: ManifestView, config_len: u64) -> int {
    sizes(manifest.layers) + config_len + encode_utf8(manifest.media_type).len()
}

/// The size, and that of the layers alone, are such that an `i64` holds.
pub open spec fn size_fits(manifest: ManifestView, config_len: u64) -> bool {
    i64::MIN <= sizes(manifest.layers) <= i64::MAX && i64::MIN <= shown_size(manifest, config_len)
        <= i64::MAX
}

/// The record of an image whose layers were fetched and unpacked: refused where they are not
/// those of its configuration, or where its size is too large to be shown. Its layers are
/// those of the manifest.
pub fn pulled(
    image: &ImageRef,
    manifest: &PlatformManifest,
    top_digest: &str,
    config: OciImageConfig,
    config_len: u64,
    diff_ids: Vec<String>,
) -> (r: Result<ImageRecord, String>)
    ensures
        ({
            let e = rootfs_error(
                image@.shown(),
                config.rootfs.typ@,
                text::texts(config.rootfs.diff_ids@),
                text::texts(diff_ids@),
            );
            match r {
                Ok(rec) => {
                    &&& e is None
                    &&& size_fits(manifest@, config_len)
                    &&& is_pulled(
                        rec,
                        image@,
                        manifest@,
                        top_digest@,
                        config,
                        shown_size(manifest@, config_len) as i64,
                        text::texts(diff_ids@),
                        digests_of(manifest@.layers),
                    )
                },
                Err(d) => e == Some(d@) || (e is None && !size_fits(manifest@, config_len) && d@
                    == "image too large"@),
            }
        }),
{
    if let Err(e) = check_rootfs(image, &config.rootfs, &diff_ids) {
        return Err(e);
    }
    let size: i64 = match pulled_size(manifest, config_len) {
        Some(n) => n,
        None => {
            return Err("image too large".to_owned());
        },
    };
    let blobs: Vec<String> = list_digests(&manifest.layers);
    Ok(pulled_record(image, manifest, top_digest, config, size, diff_ids, blobs))
}

/// The record of an image that was pulled.
fn pulled_record(
    image: &ImageRef,
    manifest: &PlatformManifest,
    top_digest: &str,
    config: OciImageConfig,
    size: i64,
    diff_ids: Vec<String>,
    blobs: Vec<String>,
) -> (r: ImageRecord)
    ensures
        is_pulled(
            r,
            image@,
            manifest@,
            top_digest@,
            config,
            size,
            text::texts(diff_ids@),
            text::texts(blobs@),
        ),
{
    let mut tags: Vec<String> = Vec::new();
    assert(text::texts(tags@) =~= Seq::empty());
    if let Some(k) = image.tag_key_opt() {
        tags.push(k);
        assert(text::texts(tags@) =~= seq![k@]);
    }
    let mut d: String = image.display_ref_no_tag();
    d.append("@");
    d.append(top_digest);
    let mut digests: Vec<String> = Vec::new();
    digests.push(d);
    assert(text::texts(digests@) =~= seq![d@]);
    let chains: Vec<String> = ImageRecord::compute_chain_ids(diff_ids.as_slice());
    let unix: i64 = parse_rfc3339_or_zero(&config.created);
    let history: Vec<HistoryEntry> = to_history(&config.history);
    ImageRecord {
        id: bare(manifest.config_digest.as_str()),
        manifest_digest: top_digest.to_owned(),
        repo_tags: tags,
        repo_digests: digests,
        created: or_empty(config.created),
        created_unix: unix,
        architecture: config.architecture,
        os: config.os,
        author: or_empty(config.author),
        comment: or_empty(config.comment),
        docker_version: config.docker_version,
        diff_ids,
        layer_blobs: blobs,
        size,
        config: to_container_config(config.config),
        history,
        chain_ids: chains,
    }
}

// ---------------------------------------------------------------- progress

/// What is told as a pull begins.
pub fn pull_begins(image: &ImageRef) -> (r: ProgressMessage)
    ensures
        r@ == (ProgressView {
            status: Some("Pulling from "@ + image@.shown()),
            ..image::silence()
        }),
{
    let mut s: String = "Pulling from ".to_owned();
    s.append(image.display_ref().as_str());
    ProgressMessage::status(s)
}

/// What is told of a layer whose turn it is.
pub fn layer_begins(digest: &str) -> (r: ProgressMessage)
    ensures
        r@ == (ProgressView {
            id: Some("layer-"@ + pushing::abbreviated(digest@)),
            status: Some("Pulling fs layer"@),
            ..image::silence()
        }),
{
    let mut id: String = "layer-".to_owned();
    id.append(abbreviate(digest).as_str());
    ProgressMessage::layer(id, "Pulling fs layer", None)
}

/// What is told of a layer that is downloaded, unpacked or done.
pub fn layer_progress(digest: &str, status: &str, current: i64, total: i64) -> (r: ProgressMessage)
    ensures
        r@ == (ProgressView {
            id: Some(pushing::abbreviated(digest@)),
            status: Some(status@),
            detail: Some((current, total)),
            ..image::silence()
        }),
{
    ProgressMessage::layer(abbreviate(digest), status, Some((current, total)))
}

/// What is told when every layer is there.
pub fn pull_complete(downloaded: i64, total: i64) -> (r: ProgressMessage)
    ensures
        r@ == (ProgressView {
            status: Some("Pull complete"@),
            detail: Some((downloaded, total)),
            ..image::silence()
        }),
{
    let mut m: ProgressMessage = ProgressMessage::status("Pull complete".to_owned());
    m.progressDetail = Some(ProgressDetail { current: downloaded, total });
    m
}

/// What is told at the end of a pull.
pub fn pull_ends(image: &ImageRef) -> (r: ProgressMessage)
    ensures
        r@ == (ProgressView {
            status: Some("Downloaded newer image for "@ + image@.shown()),
            ..image::silence()
        }),
{
    let mut s: String = "Downloaded newer image for ".to_owned();
    s.append(image.display_ref().as_str());
    ProgressMessage::status(s)
}

} // verus!
