//! Pushing an image: the manifest that is sent, and what is told on the way.

use vstd::prelude::*;
use vstd::slice::slice_subrange;

use crate::api::image::{self, ProgressMessage, ProgressView};
use crate::json::{self, quote_json};
use crate::network::add_word;
use crate::num::{self, decimal_text};
use crate::reference::{ImageRef, Reference};
use crate::text::{self, chars_of, join_text, string_of};

verus! {

/// What is pushed is one manifest, never an index.
pub const PUSH_MANIFEST_MEDIA_TYPE: &'static str = "application/vnd.oci.image.manifest.v1+json";

pub const PUSH_CONFIG_MEDIA_TYPE: &'static str = "application/vnd.oci.image.config.v1+json";

/// The media type of a layer, by the bytes that it begins with.
pub open spec fn layer_media(magic: Seq<u8>) -> Seq<char> {
    if magic.len() >= 2 && magic[0] == 0x1f && magic[1] == 0x8b {
        "application/vnd.oci.image.layer.v1.tar+gzip"@
    } else if magic.len() >= 4 && magic[0] == 0x28 && magic[1] == 0xb5 && magic[2] == 0x2f
        && magic[3] == 0xfd {
        "application/vnd.oci.image.layer.v1.tar+zstd"@
    } else {
        "application/vnd.oci.image.layer.v1.tar"@
    }
}

pub fn sniff_layer_media(magic: &[u8]) -> (r: &'static str)
    ensures
        r@ == layer_media(magic@),
{
    if magic.len() >= 2 && magic[0] == 0x1f && magic[1] == 0x8b {
        "application/vnd.oci.image.layer.v1.tar+gzip"
    } else if magic.len() >= 4 && magic[0] == 0x28 && magic[1] == 0xb5 && magic[2] == 0x2f
        && magic[3] == 0xfd {
        "application/vnd.oci.image.layer.v1.tar+zstd"
    } else {
        "application/vnd.oci.image.layer.v1.tar"
    }
}

/// A layer as it is pushed: its digest, its length and the bytes that it begins with.
pub struct PushedLayer {
    pub digest: String,
    pub size: u64,
    pub magic: Vec<u8>,
}

/// A blob as the manifest names it, its keys in order.
pub open spec fn described(digest: Seq<char>, media: Seq<char>, size: nat) -> Seq<char> {
    "{\"digest\":"@ + json::json_quoted(digest) + ",\"mediaType\":"@ + json::json_quoted(media)
        + ",\"size\":"@ + num::decimal(size) + "}"@
}

pub open spec fn layers_described(v: Seq<PushedLayer>) -> Seq<Seq<char>> {
    Seq::new(
        v.len(),
        |i: int| described(v[i].digest@, layer_media(v[i].magic@), v[i].size as nat),
    )
}

/// The manifest as it is sent, its keys in order.
pub open spec fn push_manifest_text(
    config_digest: Seq<char>,
    config_len: nat,
    layers: Seq<PushedLayer>,
) -> Seq<char> {
    "{\"config\":"@ + described(config_digest, PUSH_CONFIG_MEDIA_TYPE@, config_len)
        + ",\"layers\":["@ + text::join(layers_described(layers), ","@) + "],\"mediaType\":"@
        + json::json_quoted(PUSH_MANIFEST_MEDIA_TYPE@) + ",\"schemaVersion\":2}"@
}

fn describe(digest: &str, media: &str, size: u64) -> (r: String)
    ensures
        r@ == described(digest@, media@, size as nat),
{
    let mut s: String = "{\"digest\":".to_owned();
    s.append(quote_json(digest).as_str());
    s.append(",\"mediaType\":");
    s.append(quote_json(media).as_str());
    s.append(",\"size\":");
    s.append(decimal_text(size as u128).as_str());
    s.append("}");
    s
}

/// The manifest of an image: its configuration and its layers, the lowest first.
pub fn build_push_manifest(config_digest: &str, config_len: u64, layers: &Vec<PushedLayer>) -> (r:
    String)
    ensures
        r@ == push_manifest_text(config_digest@, config_len as nat, layers@),
{
    let ghost lv = layers_described(layers@);
    let mut parts: Vec<String> = Vec::new();
    let mut i: usize = 0;
    while i < layers.len()
        invariant
            i <= layers.len(),
            lv == layers_described(layers@),
            text::texts(parts@) =~= lv.take(i as int),
        decreases layers.len() - i,
    {
        let l: &PushedLayer = &layers[i];
        let d: String = describe(
            l.digest.as_str(),
            sniff_layer_media(l.magic.as_slice()),
            l.size,
        );
        add_word(&mut parts, d.as_str());
        assert(lv.take(i as int + 1) =~= lv.take(i as int).push(lv[i as int]));
        i += 1;
    }
    assert(lv.take(lv.len() as int) =~= lv);
    let mut s: String = "{\"config\":".to_owned();
    s.append(describe(config_digest, PUSH_CONFIG_MEDIA_TYPE, config_len).as_str());
    s.append(",\"layers\":[");
    s.append(join_text(&parts, ",").as_str());
    s.append("],\"mediaType\":");
    s.append(quote_json(PUSH_MANIFEST_MEDIA_TYPE).as_str());
    s.append(",\"schemaVersion\":2}");
    s
}

/// The tag that is pushed: `latest` where the reference names none.
pub open spec fn pushed_tag(target: Reference) -> Seq<char> {
    match target.tag {
        Some(t) => t,
        None => "latest"@,
    }
}

pub fn push_tag(target: &ImageRef) -> (r: String)
    ensures
        r@ == pushed_tag(target@),
{
    match &target.tag {
        Some(t) => t.clone(),
        None => "latest".to_owned(),
    }
}

/// The first twelve characters of a digest.
pub open spec fn abbreviated(d: Seq<char>) -> Seq<char> {
    d.take(
        if d.len() < 12 {
            d.len() as int
        } else {
            12
        },
    )
}

pub fn abbreviate(digest: &str) -> (r: String)
    ensures
        r@ == abbreviated(digest@),
{
    let cs: Vec<char> = chars_of(digest);
    let n: usize = if cs.len() < 12 {
        cs.len()
    } else {
        12
    };
    let r: String = string_of(slice_subrange(cs.as_slice(), 0, n));
    assert(r@ =~= abbreviated(digest@));
    r
}

/// What is told as a push begins.
pub fn push_begins(target: &ImageRef) -> (r: ProgressMessage)
    ensures
        r@ == (ProgressView {
            status: Some("The push refers to repository ["@ + target@.shown_repo() + "]"@),
            ..image::silence()
        }),
{
    let mut s: String = "The push refers to repository [".to_owned();
    s.append(target.display_ref_no_tag().as_str());
    s.append("]");
    ProgressMessage::status(s)
}

/// What is told of a blob before it is pushed.
pub fn push_preparing(digest: &str) -> (r: ProgressMessage)
    ensures
        r@ == (ProgressView {
            id: Some(abbreviated(digest@)),
            status: Some("Preparing"@),
            ..image::silence()
        }),
{
    ProgressMessage::layer(abbreviate(digest), "Preparing", None)
}

/// What is told of a blob that was pushed, or that the registry had.
pub fn push_sent(digest: &str, sent: bool) -> (r: ProgressMessage)
    ensures
        r@ == (ProgressView {
            id: Some(abbreviated(digest@)),
            status: Some(
                if sent {
                    "Pushed"@
                } else {
                    "Layer already exists"@
                },
            ),
            ..image::silence()
        }),
{
    if sent {
        ProgressMessage::layer(abbreviate(digest), "Pushed", None)
    } else {
        ProgressMessage::layer(abbreviate(digest), "Layer already exists", None)
    }
}

/// The bytes of the layers.
pub open spec fn layers_size(v: Seq<PushedLayer>) -> nat
    decreases v.len(),
{
    if v.len() == 0 {
        0
    } else {
        layers_size(v.drop_last()) + v.last().size as nat
    }
}

/// The bytes of the whole image: manifest, configuration and layers; none where they do
/// not fit.
pub fn push_total(manifest_len: u64, config_len: u64, layers: &Vec<PushedLayer>) -> (r: Option<u64>)
    ensures
        match r {
            Some(n) => n == manifest_len + config_len + layers_size(layers@),
            None => manifest_len + config_len + layers_size(layers@) > u64::MAX,
        },
{
    let mut total: u128 = manifest_len as u128 + config_len as u128;
    let mut i: usize = 0;
    assert(layers@.take(0) =~= Seq::empty());
    while i < layers.len()
        invariant
            i <= layers.len(),
            total == manifest_len + config_len + layers_size(layers@.take(i as int)),
            total <= (i as u128 + 2) * 0xffff_ffff_ffff_ffff,
        decreases layers.len() - i,
    {
        assert(layers@.take(i as int + 1).drop_last() =~= layers@.take(i as int));
        assert(i < usize::MAX <= 0xffff_ffff_ffff_ffff);
        total = total + layers[i].size as u128;
        i += 1;
    }
    assert(layers@.take(layers@.len() as int) =~= layers@);
    if total <= 0xffff_ffff_ffff_ffff {
        Some(total as u64)
    } else {
        None
    }
}

/// What is told of a push that is done.
pub open spec fn push_summary(tag: Seq<char>, digest: Seq<char>, total: nat) -> ProgressView {
    ProgressView {
        status: Some(tag + ": digest: "@ + digest + " size: "@ + num::decimal(total)),
        aux: Some(
            "{\"Digest\":"@ + json::json_quoted(digest) + ",\"Size\":"@ + num::decimal(total)
                + ",\"Tag\":"@ + json::json_quoted(tag) + "}"@,
        ),
        ..image::silence()
    }
}

pub fn push_done(tag: &str, digest: &str, total: u64) -> (r: ProgressMessage)
    ensures
        r@ == push_summary(tag@, digest@, total as nat),
{
    let n: String = decimal_text(total as u128);
    let mut s: String = tag.to_owned();
    s.append(": digest: ");
    s.append(digest);
    s.append(" size: ");
    s.append(n.as_str());
    let mut a: String = "{\"Digest\":".to_owned();
    a.append(quote_json(digest).as_str());
    a.append(",\"Size\":");
    a.append(n.as_str());
    a.append(",\"Tag\":");
    a.append(quote_json(tag).as_str());
    a.append("}");
    let mut m: ProgressMessage = ProgressMessage::status(s);
    m.aux = Some(a);
    m
}

} // verus!
