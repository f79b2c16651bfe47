//! Unpacking a layer: what its bytes are packed with, how much it may hold, and what the
//! names of its entries mean.

use vstd::prelude::*;

use crate::reference;
use crate::text::{self, chars_of, is_among, one_char, same, str_contains, str_split, str_starts, str_strip_prefix, str_trim, string_of, strip_ends_text};

verus! {

/// How many bytes a packed layer may have: ten gibibytes.
pub const MAX_COMPRESSED_BYTES: u64 = 10_737_418_240;

/// How many bytes a layer may unpack to: twenty gibibytes.
pub const MAX_EXTRACTED_BYTES: u64 = 21_474_836_480;

/// How many entries a layer may have.
pub const MAX_ENTRIES: usize = 500_000;

/// What a layer's bytes are packed with.
#[derive(Debug, Clone, Copy, PartialEq, Eq, Structural)]
pub enum Packing {
    Gzip,
    Zstd,
    Plain,
}

/// What the media type says of a layer's packing.
pub open spec fn packing(media: Seq<char>) -> Packing {
    if text::contains(media, "gzip"@) {
        Packing::Gzip
    } else if text::contains(media, "zstd"@) {
        Packing::Zstd
    } else {
        Packing::Plain
    }
}

pub fn packing_of(media_type: &str) -> (r: Packing)
    ensures
        r == packing(media_type@),
{
    if str_contains(media_type, "gzip") {
        Packing::Gzip
    } else if str_contains(media_type, "zstd") {
        Packing::Zstd
    } else {
        Packing::Plain
    }
}

/// Whether a packed layer is small enough.
pub fn check_compressed(len: u64) -> (r: Result<(), String>)
    ensures
        match r {
            Ok(_) => len <= MAX_COMPRESSED_BYTES,
            Err(e) => len > MAX_COMPRESSED_BYTES && e@
                == "compressed layer blob exceeds budget of 10737418240 bytes"@,
        },
{
    if len > MAX_COMPRESSED_BYTES {
        Err("compressed layer blob exceeds budget of 10737418240 bytes".to_owned())
    } else {
        Ok(())
    }
}

/// What has been unpacked so far.
pub struct Budget {
    pub entries: usize,
    pub bytes: u64,
}

impl Budget {
    /// No more than a layer may hold has been unpacked.
    pub open spec fn wf(self) -> bool {
        self.entries <= MAX_ENTRIES && self.bytes <= MAX_EXTRACTED_BYTES
    }

    pub fn new() -> (r: Budget)
        ensures
            r.wf(),
            r.entries == 0,
            r.bytes == 0,
    {
        Budget { entries: 0, bytes: 0 }
    }

    /// Lets one more entry in, or tells why not.
    pub fn take_in(&mut self, size: u64) -> (r: Result<(), String>)
        requires
            old(self).wf(),
        ensures
            final(self).wf(),
            match r {
                Ok(_) => final(self).entries == old(self).entries + 1 && final(self).bytes
                    == old(self).bytes + size,
                Err(e) => {
                    &&& *final(self) == *old(self)
                    &&& if old(self).entries >= MAX_ENTRIES {
                        e@ == "layer entry count exceeds budget of 500000"@
                    } else if old(self).bytes + size > u64::MAX {
                        e@ == "extracted size overflow"@
                    } else {
                        &&& old(self).bytes + size > MAX_EXTRACTED_BYTES
                        &&& e@ == "layer extracted size exceeds budget of 21474836480 bytes"@
                    }
                },
            },
    {
        if self.entries >= MAX_ENTRIES {
            return Err("layer entry count exceeds budget of 500000".to_owned());
        }
        match self.bytes.checked_add(size) {
            None => Err("extracted size overflow".to_owned()),
            Some(n) => {
                if n > MAX_EXTRACTED_BYTES {
                    return Err(
                        "layer extracted size exceeds budget of 21474836480 bytes".to_owned(),
                    );
                }
                self.entries = self.entries + 1;
                self.bytes = n;
                Ok(())
            },
        }
    }
}

/// What an entry of a layer means.
#[derive(Debug)]
pub enum EntryKind {
    /// Nothing of the layers below shows in the directory.
    Opaque,
    /// The entry of this name is gone.
    Whiteout(String),
    Plain,
}

#[verifier::ext_equal]
pub enum EntryMeaning {
    Opaque,
    Whiteout(Seq<char>),
    Plain,
}

impl View for EntryKind {
    type V = EntryMeaning;

    open spec fn view(&self) -> EntryMeaning {
        match self {
            EntryKind::Opaque => EntryMeaning::Opaque,
            EntryKind::Whiteout(n) => EntryMeaning::Whiteout(n@),
            EntryKind::Plain => EntryMeaning::Plain,
        }
    }
}

/// What the name of an entry means.
pub open spec fn meaning(name: Seq<char>) -> EntryMeaning {
    if name == ".wh..wh..opq"@ {
        EntryMeaning::Opaque
    } else {
        match text::strip_prefix(name, ".wh."@) {
            Some(target) => EntryMeaning::Whiteout(target),
            None => EntryMeaning::Plain,
        }
    }
}

pub fn entry_kind(file_name: &str) -> (r: EntryKind)
    ensures
        r@ == meaning(file_name@),
{
    if same(file_name, ".wh..wh..opq") {
        return EntryKind::Opaque;
    }
    match str_strip_prefix(file_name, ".wh.") {
        Some(t) => EntryKind::Whiteout(t),
        None => EntryKind::Plain,
    }
}

/// A whiteout of a name hides that very name, and no name is plain that begins like one.
pub proof fn law_whiteout_names_its_target(target: Seq<char>)
    requires
        target != ".wh..opq"@,
    ensures
        meaning(".wh."@ + target) == EntryMeaning::Whiteout(target),
{
    let p = ".wh."@;
    let n = p + target;
    reveal_strlit(".wh.");
    reveal_strlit(".wh..opq");
    reveal_strlit(".wh..wh..opq");
    assert(n.subrange(0, 4) =~= p);
    assert(n.skip(4) =~= target);
    if n == ".wh..wh..opq"@ {
        assert(target =~= ".wh..opq"@) by {
            assert(n.skip(4) =~= ".wh..opq"@);
        }
    }
}

/// The digest that a layer is known to unpack to, from the note beside it.
pub open spec fn noted_diff(note: Seq<char>) -> Option<Seq<char>> {
    if text::starts_with(text::trim(note), "sha256:"@) {
        Some(text::trim(note))
    } else {
        None
    }
}

pub fn cached_diff(note: &str) -> (r: Option<String>)
    ensures
        reference::opt_text(r) == noted_diff(note@),
{
    let t: String = str_trim(note);
    if str_starts(t.as_str(), "sha256:") {
        Some(t)
    } else {
        None
    }
}

/// Whether a layer has unpacked to the digest that it is known by.
pub fn check_unpacked(expected: &str, actual: &str) -> (r: Result<(), String>)
    ensures
        match r {
            Ok(_) => actual@ == expected@,
            Err(e) => actual@ != expected@ && e@ == "diffID mismatch: expected "@ + expected@
                + ", unpacked "@ + actual@,
        },
{
    if same(actual, expected) {
        return Ok(());
    }
    let mut e: String = "diffID mismatch: expected ".to_owned();
    e.append(expected);
    e.append(", unpacked ");
    e.append(actual);
    Err(e)
}

/// A path that stays below the root that it is unpacked under: it does not start from the
/// root and never goes up.
pub open spec fn is_inside(path: Seq<char>) -> bool {
    !text::starts_with(path, "/"@) && !text::split(path, seq!['/']).contains(".."@)
}

/// Whether an entry stays below the root that it is unpacked under.
pub fn stays_inside(path: &str) -> (r: bool)
    ensures
        r == is_inside(path@),
{
    !str_starts(path, "/") && !is_among(&str_split(path, '/'), "..")
}

/// How deep below the root the first `n` steps of a walk lead that starts at a depth; none
/// where the walk climbs above the root on its way.
pub open spec fn depth_after(steps: Seq<Seq<char>>, n: int, start: nat) -> Option<nat>
    decreases n,
{
    if n <= 0 {
        Some(start)
    } else {
        match depth_after(steps, n - 1, start) {
            None => None,
            Some(d) => if steps[n - 1].len() == 0 || steps[n - 1] == "."@ {
                Some(d)
            } else if steps[n - 1] != ".."@ {
                Some(d + 1)
            } else if d == 0 {
                None
            } else {
                Some((d - 1) as nat)
            },
        }
    }
}

/// The steps that lead to the directory of an entry.
pub open spec fn steps_to_dir(path: Seq<char>) -> Seq<Seq<char>> {
    text::split(text::strip_ends(path, seq!['/']), seq!['/']).drop_last()
}

/// The target of a link, followed from the directory of the link, never climbs above the
/// root. A target that starts with a slash is followed from the root of the image.
pub open spec fn link_is_inside(path: Seq<char>, target: Seq<char>) -> bool {
    let steps = text::split(target, seq!['/']);
    let dir = steps_to_dir(path);
    if text::starts_with(target, "/"@) {
        depth_after(steps, steps.len() as int, 0) is Some
    } else {
        match depth_after(dir, dir.len() as int, 0) {
            Some(d) => depth_after(steps, steps.len() as int, d) is Some,
            None => false,
        }
    }
}

fn walk(steps: &Vec<String>, n: usize, start: u128) -> (r: Option<u128>)
    requires
        n <= steps@.len(),
        start <= usize::MAX,
    ensures
        match r {
            Some(d) => depth_after(text::texts(steps@), n as int, start as nat) == Some(d as nat)
                && d <= start + n,
            None => depth_after(text::texts(steps@), n as int, start as nat) is None,
        },
{
    let ghost sv = text::texts(steps@);
    proof {
        reveal_strlit(".");
        reveal_strlit("..");
        assert("."@.len() != ".."@.len());
    }
    let mut d: u128 = start;
    let mut i: usize = 0;
    while i < n
        invariant
            i <= n <= steps@.len(),
            start <= usize::MAX,
            d <= start + i,
            sv == text::texts(steps@),
            ".."@.len() == 2,
            "."@.len() == 1,
            depth_after(sv, i as int, start as nat) == Some(d as nat),
        decreases n - i,
    {
        let step: &str = steps[i].as_str();
        assert(sv[i as int] == step@);
        if same(step, "..") {
            if d == 0 {
                proof {
                    lemma_above(sv, i as int + 1, n as int, start as nat);
                }
                return None;
            }
            d -= 1;
        } else if !step.is_empty() && !same(step, ".") {
            d += 1;
        }
        i += 1;
    }
    Some(d)
}

/// A walk that has climbed above the root does not come back.
proof fn lemma_above(steps: Seq<Seq<char>>, i: int, n: int, start: nat)
    requires
        0 <= i <= n,
        depth_after(steps, i, start) is None,
    ensures
        depth_after(steps, n, start) is None,
    decreases n,
{
    if i < n {
        lemma_above(steps, i, n - 1, start);
    }
}

/// Whether the target of a link stays below the root.
pub fn link_stays_inside(path: &str, target: &str) -> (r: bool)
    ensures
        r == link_is_inside(path@, target@),
{
    let slash: Vec<char> = one_char('/');
    let pc: Vec<char> = chars_of(path);
    let entry: String = string_of(strip_ends_text(pc.as_slice(), slash.as_slice()));
    let parts: Vec<String> = str_split(entry.as_str(), '/');
    let steps: Vec<String> = str_split(target, '/');
    let ghost pv = text::texts(parts@);
    proof {
        text::lemma_split_join(entry@, seq!['/']);
        assert(pv.len() == parts@.len());
        assert(text::texts(steps@).len() == steps@.len());
    }
    let start: u128 = if str_starts(target, "/") {
        0
    } else {
        let n: usize = parts.len() - 1;
        proof {
            lemma_fewer_steps(pv, n as int, n as int, 0);
        }
        match walk(&parts, n, 0) {
            Some(d) => d,
            None => {
                return false;
            },
        }
    };
    walk(&steps, steps.len(), start).is_some()
}

proof fn lemma_fewer_steps(steps: Seq<Seq<char>>, k: int, n: int, start: nat)
    requires
        0 <= n <= k <= steps.len(),
    ensures
        depth_after(steps.take(k), n, start) == depth_after(steps, n, start),
    decreases n,
{
    if n > 0 {
        lemma_fewer_steps(steps, k, n - 1, start);
    }
}

/// How many of the first `n` steps go up.
pub open spec fn ups(steps: Seq<Seq<char>>, n: int) -> nat
    decreases n,
{
    if n <= 0 {
        0
    } else if steps[n - 1] == ".."@ {
        ups(steps, n - 1) + 1
    } else {
        ups(steps, n - 1)
    }
}

/// How many of the first `n` steps go down: those that name something.
pub open spec fn downs(steps: Seq<Seq<char>>, n: int) -> nat
    decreases n,
{
    if n <= 0 {
        0
    } else if steps[n - 1].len() > 0 && steps[n - 1] != "."@ && steps[n - 1] != ".."@ {
        downs(steps, n - 1) + 1
    } else {
        downs(steps, n - 1)
    }
}

/// At no point of `n` steps has a walk gone up more often than down from where it started.
pub open spec fn never_climbs_out(steps: Seq<Seq<char>>, n: int, start: nat) -> bool {
    forall|m: int| 0 <= m <= n ==> #[trigger] ups(steps, m) <= start + downs(steps, m)
}

proof fn lemma_depth(steps: Seq<Seq<char>>, n: int, start: nat)
    requires
        0 <= n <= steps.len(),
    ensures
        depth_after(steps, n, start) is Some <==> never_climbs_out(steps, n, start),
        depth_after(steps, n, start) matches Some(d) ==> d == start + downs(steps, n) - ups(
            steps,
            n,
        ),
    decreases n,
{
    reveal_strlit(".");
    reveal_strlit("..");
    assert("."@.len() == 1 && ".."@.len() == 2);
    if n > 0 {
        lemma_depth(steps, n - 1, start);
        if never_climbs_out(steps, n, start) {
            assert(ups(steps, n) <= start + downs(steps, n));
        }
        if depth_after(steps, n, start) is Some {
            assert forall|m: int| 0 <= m <= n implies #[trigger] ups(steps, m) <= start + downs(
                steps,
                m,
            ) by {
                if m < n {
                    assert(never_climbs_out(steps, n - 1, start));
                }
            }
        }
        if never_climbs_out(steps, n, start) {
            assert(never_climbs_out(steps, n - 1, start)) by {
                assert forall|m: int| 0 <= m <= n - 1 implies #[trigger] ups(steps, m) <= start
                    + downs(steps, m) by {}
            }
        }
    } else {
        assert(ups(steps, 0) == 0);
    }
}

proof fn lemma_no_ups(steps: Seq<Seq<char>>, n: int)
    requires
        0 <= n <= steps.len(),
        !steps.contains(".."@),
    ensures
        ups(steps, n) == 0,
    decreases n,
{
    if n > 0 {
        lemma_no_ups(steps, n - 1);
        assert(steps.contains(steps[n - 1]));
    }
}

/// An entry that is let in stays below the root at every step of its path.
pub proof fn law_entry_stays_below_the_root(path: Seq<char>)
    requires
        is_inside(path),
    ensures
        path.len() > 0 ==> path[0] != '/',
        never_climbs_out(
            text::split(path, seq!['/']),
            text::split(path, seq!['/']).len() as int,
            0,
        ),
{
    reveal_strlit("/");
    let steps = text::split(path, seq!['/']);
    if path.len() > 0 && path[0] == '/' {
        assert(path.subrange(0, 1) =~= "/"@);
    }
    assert forall|m: int| 0 <= m <= steps.len() implies #[trigger] ups(steps, m) <= 0 + downs(
        steps,
        m,
    ) by {
        lemma_no_ups(steps, m);
    }
}

/// A link is let in exactly where following it never leads above the root: from the root
/// where its target starts there, else from the directory that the link lies in.
pub proof fn law_link_stays_below_the_root(path: Seq<char>, target: Seq<char>)
    ensures
        ({
            let steps = text::split(target, seq!['/']);
            let dir = steps_to_dir(path);
            let n = steps.len() as int;
            let k = dir.len() as int;
            &&& target.len() > 0 && target[0] == '/' ==> link_is_inside(path, target)
                == never_climbs_out(steps, n, 0)
            &&& (target.len() == 0 || target[0] != '/') ==> link_is_inside(path, target) == (
            never_climbs_out(dir, k, 0) && never_climbs_out(
                steps,
                n,
                (downs(dir, k) - ups(dir, k)) as nat,
            ))
        }),
{
    reveal_strlit("/");
    let steps = text::split(target, seq!['/']);
    let dir = steps_to_dir(path);
    let n = steps.len() as int;
    let k = dir.len() as int;
    if target.len() > 0 {
        assert(target.subrange(0, 1) =~= seq![target[0]]);
        assert(seq![target[0]][0] == target[0] && "/"@[0] == '/' && "/"@.len() == 1);
        if target[0] == '/' {
            assert(target.subrange(0, 1) =~= "/"@);
        }
    }
    assert(text::starts_with(target, "/"@) == (target.len() > 0 && target[0] == '/'));
    lemma_depth(steps, n, 0);
    lemma_depth(dir, k, 0);
    if let Some(d) = depth_after(dir, k, 0) {
        lemma_depth(steps, n, d);
    }
}

/// The packing of a layer goes by its kind.
pub proof fn law_packing_goes_by_the_kind(before: Seq<char>, after: Seq<char>)
    ensures
        packing(before + "gzip"@ + after) == Packing::Gzip,
        !text::contains(before + "zstd"@ + after, "gzip"@) ==> packing(before + "zstd"@ + after)
            == Packing::Zstd,
{
    reveal_strlit("gzip");
    reveal_strlit("zstd");
    let s = before + "gzip"@ + after;
    let t = before + "zstd"@ + after;
    let n = before.len() as int;
    assert(s.subrange(n, n + 4) =~= "gzip"@);
    assert(t.subrange(n, n + 4) =~= "zstd"@);
    text::lemma_find_hits(s, "gzip"@, n);
    text::lemma_find_hits(t, "zstd"@, n);
}

} // verus!
