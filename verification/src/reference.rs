//! Image references as Docker writes them: `[host/]repo[:tag][@digest]`, with
//! `docker.io` as the host and `library/` before an official repository.

use vstd::prelude::*;

use crate::text::{self, chars_of, cut_char, has_char, has_prefix, rcut_char, same, same_chars, string_of, strip_prefix_text, trim_text};

verus! {

/// A reference taken apart.
#[derive(Debug, Clone, PartialEq)]
pub struct ImageRef {
    /// The registry's host, with its port: `docker.io`, `registry.local:5000`.
    pub registry: String,
    /// The repository, qualified: `library/busybox` for an official image.
    pub repo: String,
    pub tag: Option<String>,
    pub digest: Option<String>,
}

/// What an [`ImageRef`] holds.
#[verifier::ext_equal]
pub struct Reference {
    pub registry: Seq<char>,
    pub repo: Seq<char>,
    pub tag: Option<Seq<char>>,
    pub digest: Option<Seq<char>>,
}

/// The text of an optional string.
pub open spec fn opt_text(o: Option<String>) -> Option<Seq<char>> {
    match o {
        Some(s) => Some(s@),
        None => None,
    }
}

impl View for ImageRef {
    type V = Reference;

    open spec fn view(&self) -> Reference {
        Reference {
            registry: self.registry@,
            repo: self.repo@,
            tag: opt_text(self.tag),
            digest: opt_text(self.digest),
        }
    }
}

/// The part of `rest` before its first slash.
pub open spec fn first_segment(rest: Seq<char>) -> Seq<char> {
    match text::find(rest, seq!['/']) {
        Some(i) => rest.take(i),
        None => rest,
    }
}

/// Docker's rule: a first segment names a host where it has a dot or a colon, or is
/// `localhost`.
pub open spec fn looks_like_host(first: Seq<char>) -> bool {
    text::contains(first, seq!['.']) || text::contains(first, seq![':']) || first == "localhost"@
}

/// The names of Docker Hub.
pub open spec fn is_default_host(host: Seq<char>) -> bool {
    host == "docker.io"@ || host == "index.docker.io"@ || host == "registry-1.docker.io"@
}

/// The registry, and the path behind it.
pub open spec fn registry_and_path(rest: Seq<char>) -> (Seq<char>, Seq<char>) {
    match text::split_once(rest, seq!['/']) {
        Some((host, path)) => if looks_like_host(host) {
            (
                if is_default_host(host) {
                    "docker.io"@
                } else {
                    host
                },
                path,
            )
        } else {
            ("docker.io"@, rest)
        },
        None => ("docker.io"@, rest),
    }
}

/// The repository, and the tag behind the last colon, which no slash may follow.
pub open spec fn repo_and_tag(path: Seq<char>) -> (Seq<char>, Option<Seq<char>>) {
    match text::rsplit_once(path, seq![':']) {
        Some((r, t)) => if text::contains(t, seq!['/']) {
            (path, None)
        } else {
            (r, Some(t))
        },
        None => (path, None),
    }
}

/// An official repository of the default registry is qualified with `library/`.
pub open spec fn qualified_repo(repo: Seq<char>, default_registry: bool) -> Seq<char> {
    if default_registry && !text::contains(repo, seq!['/']) {
        "library/"@ + repo
    } else {
        repo
    }
}

/// What stands before the first `@`, and what stands behind it.
pub open spec fn name_and_digest(s: Seq<char>) -> (Seq<char>, Option<Seq<char>>) {
    match text::split_once(s, seq!['@']) {
        Some((r, d)) => (r, Some(d)),
        None => (s, None),
    }
}

/// The reference that a name without surrounding white space and a digest make.
pub open spec fn reference_of(name: Seq<char>, digest: Option<Seq<char>>) -> Reference {
    let (registry, path) = registry_and_path(name);
    let (repo, tag) = repo_and_tag(path);
    Reference {
        registry,
        repo: qualified_repo(repo, registry == "docker.io"@),
        tag: if tag is None && digest is None {
            Some("latest"@)
        } else {
            tag
        },
        digest,
    }
}

/// The reference that `input` writes, or why it writes none.
pub open spec fn parsed(input: Seq<char>) -> Result<Reference, Seq<char>> {
    let (name, digest) = name_and_digest(text::trim(input));
    if text::trim(input).len() == 0 {
        Err("empty image reference"@)
    } else if digest matches Some(d) && !text::starts_with(d, "sha256:"@) {
        Err("unsupported digest algorithm in "@ + digest->0)
    } else if repo_and_tag(registry_and_path(name).1).0.len() == 0 {
        Err("invalid reference "@ + input + ": missing repository"@)
    } else {
        Ok(reference_of(name, digest))
    }
}

impl Reference {
    /// The repository as it is shown: without the default registry and without
    /// `library/` there.
    pub open spec fn shown_repo(self) -> Seq<char> {
        if self.registry == "docker.io"@ {
            if text::starts_with(self.repo, "library/"@) {
                self.repo.skip("library/"@.len() as int)
            } else {
                self.repo
            }
        } else {
            self.registry + seq!['/'] + self.repo
        }
    }

    /// The reference as it is shown.
    pub open spec fn shown(self) -> Seq<char> {
        self.shown_repo() + (match self.tag {
            Some(t) => seq![':'] + t,
            None => Seq::empty(),
        }) + (match self.digest {
            Some(d) => seq!['@'] + d,
            None => Seq::empty(),
        })
    }

    /// The key of the tag index, where the reference names a tag.
    pub open spec fn tag_key_opt(self) -> Option<Seq<char>> {
        match self.tag {
            Some(t) => Some(self.shown_repo() + seq![':'] + t),
            None => None,
        }
    }

    /// The key of the tag index, `latest` where the reference names no tag.
    pub open spec fn tag_key(self) -> Seq<char> {
        match self.tag_key_opt() {
            Some(k) => k,
            None => self.shown_repo() + ":latest"@,
        }
    }
}

fn is_host_name(first: &[char]) -> (r: bool)
    ensures
        r == looks_like_host(first@),
{
    has_char(first, '.') || has_char(first, ':') || same_chars(
        first,
        chars_of("localhost").as_slice(),
    )
}

/// Whether `host` is a name of Docker Hub.
pub fn registry_is_default_host(host: &str) -> (r: bool)
    ensures
        r == is_default_host(host@),
{
    same(host, "docker.io") || same(host, "index.docker.io") || same(host, "registry-1.docker.io")
}

/// Takes the registry off the front of a name.
pub fn split_registry(rest: &str) -> (r: (String, String))
    ensures
        (r.0@, r.1@) == registry_and_path(rest@),
{
    let cs: Vec<char> = chars_of(rest);
    match cut_char(cs.as_slice(), '/') {
        Some((host, path)) => {
            if is_host_name(host) {
                let h: String = string_of(host);
                if registry_is_default_host(h.as_str()) {
                    ("docker.io".to_owned(), string_of(path))
                } else {
                    (h, string_of(path))
                }
            } else {
                ("docker.io".to_owned(), rest.to_owned())
            }
        },
        None => ("docker.io".to_owned(), rest.to_owned()),
    }
}

/// Qualifies an official repository of the default registry.
pub fn normalize_repo(repo: &str, default_registry: &bool) -> (r: String)
    ensures
        r@ == qualified_repo(repo@, *default_registry),
{
    if *default_registry && !has_char(chars_of(repo).as_slice(), '/') {
        let mut s: String = "library/".to_owned();
        s.append(repo);
        s
    } else {
        repo.to_owned()
    }
}

/// Takes the tag off the end of a path.
pub fn split_tag(path: &str) -> (r: (String, Option<String>))
    ensures
        (r.0@, opt_text(r.1)) == repo_and_tag(path@),
{
    let cs: Vec<char> = chars_of(path);
    match rcut_char(cs.as_slice(), ':') {
        Some((r, t)) => {
            if has_char(t, '/') {
                (path.to_owned(), None)
            } else {
                (string_of(r), Some(string_of(t)))
            }
        },
        None => (path.to_owned(), None),
    }
}

impl ImageRef {
    /// Reads a reference.
    pub fn parse(input: &str) -> (r: Result<ImageRef, String>)
        ensures
            match r {
                Ok(v) => parsed(input@) == Ok::<Reference, Seq<char>>(v@),
                Err(e) => parsed(input@) == Err::<Reference, Seq<char>>(e@),
            },
    {
        let cs: Vec<char> = chars_of(input);
        let s: &[char] = trim_text(cs.as_slice());
        if s.len() == 0 {
            return Err("empty image reference".to_owned());
        }
        let (rest, digest): (&[char], Option<String>) = match cut_char(s, '@') {
            Some((r, d)) => {
                if !has_prefix(d, chars_of("sha256:").as_slice()) {
                    let mut e: String = "unsupported digest algorithm in ".to_owned();
                    e.append(string_of(d).as_str());
                    return Err(e);
                }
                (r, Some(string_of(d)))
            },
            None => (s, None),
        };
        let name: String = string_of(rest);
        assert((name@, opt_text(digest)) == name_and_digest(text::trim(input@)));
        let (registry, path) = split_registry(name.as_str());
        let (repo, tag) = split_tag(path.as_str());
        if repo.as_str().is_empty() {
            let mut e: String = "invalid reference ".to_owned();
            e.append(input);
            e.append(": missing repository");
            return Err(e);
        }
        let is_default: bool = same(registry.as_str(), "docker.io");
        let full: String = normalize_repo(repo.as_str(), &is_default);
        let tag: Option<String> = if tag.is_none() && digest.is_none() {
            Some("latest".to_owned())
        } else {
            tag
        };
        Ok(ImageRef { registry, repo: full, tag, digest })
    }

    pub fn registry_is_default(&self) -> (r: bool)
        ensures
            r == (self@.registry == "docker.io"@),
    {
        same(self.registry.as_str(), "docker.io")
    }

    /// The repository as it is shown: `busybox`, `ghcr.io/owner/img`.
    pub fn display_ref_no_tag(&self) -> (r: String)
        ensures
            r@ == self@.shown_repo(),
    {
        if self.registry_is_default() {
            let cs: Vec<char> = chars_of(self.repo.as_str());
            let prefix: Vec<char> = chars_of("library/");
            match strip_prefix_text(cs.as_slice(), prefix.as_slice()) {
                Some(x) => string_of(x),
                None => self.repo.clone(),
            }
        } else {
            let mut s: String = self.registry.clone();
            s.push('/');
            s.append(self.repo.as_str());
            assert(s@ =~= self@.shown_repo());
            s
        }
    }

    /// The reference as it is shown: `user/app:1.0`, `registry:5000/x/y@sha256:...`.
    pub fn display_ref(&self) -> (r: String)
        ensures
            r@ == self@.shown(),
    {
        let mut s: String = self.display_ref_no_tag();
        match &self.tag {
            Some(t) => {
                s.push(':');
                s.append(t.as_str());
            },
            None => {},
        }
        match &self.digest {
            Some(d) => {
                s.push('@');
                s.append(d.as_str());
            },
            None => {},
        }
        assert(s@ =~= self@.shown());
        s
    }

    /// The key of the tag index, or `None` where the reference names no tag: one with
    /// a digest alone must not take `latest` from the image that has it.
    pub fn tag_key_opt(&self) -> (r: Option<String>)
        ensures
            opt_text(r) == self@.tag_key_opt(),
    {
        match &self.tag {
            Some(t) => {
                let mut s: String = self.display_ref_no_tag();
                s.push(':');
                s.append(t.as_str());
                assert(s@ =~= self@.shown_repo() + seq![':'] + t@);
                Some(s)
            },
            None => None,
        }
    }

    /// The key of the tag index, `latest` where the reference names no tag.
    pub fn tag_key(&self) -> (r: String)
        ensures
            r@ == self@.tag_key(),
    {
        match self.tag_key_opt() {
            Some(k) => k,
            None => {
                let mut s: String = self.display_ref_no_tag();
                s.append(":latest");
                s
            },
        }
    }

    /// The repository as it stands in the registry's URLs.
    pub fn api_repo(&self) -> (r: &str)
        ensures
            r@ == self@.repo,
    {
        self.repo.as_str()
    }
}

// ---------------------------------------------------------------- laws

/// Every reference that is read names a tag or a digest, and every digest is of the
/// one algorithm that is supported.
pub proof fn law_tag_or_digest(input: Seq<char>)
    requires
        parsed(input) is Ok,
    ensures
        parsed(input)->Ok_0.tag is Some || parsed(input)->Ok_0.digest is Some,
        parsed(input)->Ok_0.digest matches Some(d) ==> text::starts_with(d, "sha256:"@),
{
}

/// A reference with a digest alone claims no tag in the index.
pub proof fn law_digest_alone_claims_no_tag(input: Seq<char>)
    requires
        parsed(input) is Ok,
        repo_and_tag(registry_and_path(name_and_digest(text::trim(input)).0).1).1 is None,
    ensures
        parsed(input)->Ok_0.tag_key_opt() is None <==> parsed(input)->Ok_0.digest is Some,
{
}

proof fn lemma_names()
    ensures
        "library/"@.len() == 8,
        "library/"@[7] == '/',
        forall|i: int| 0 <= i < 7 ==> #[trigger] "library/"@[i] != '/',
        !"library/"@.contains('@'),
        !"library/"@.contains(':'),
        !"docker.io"@.contains('@'),
        !"docker.io"@.contains('/'),
        "docker.io"@.contains('.'),
        !"latest"@.contains('@'),
        !"latest"@.contains(':'),
        !"latest"@.contains('/'),
{
    reveal_strlit("library/");
    reveal_strlit("docker.io");
    reveal_strlit("latest");
    assert("docker.io"@[6] == '.');
}

/// What the parts of a reference cannot hold.
proof fn lemma_parts(name: Seq<char>, digest: Option<Seq<char>>)
    requires
        !name.contains('@'),
    ensures
        ({
            let r = reference_of(name, digest);
            let (registry, path) = registry_and_path(name);
            let (repo, tag) = repo_and_tag(path);
            &&& !r.registry.contains('@')
            &&& !r.repo.contains('@')
            &&& r.tag matches Some(t) ==> !t.contains('@') && !t.contains(':') && !t.contains('/')
            &&& r.registry != "docker.io"@ ==> !r.registry.contains('/') && looks_like_host(
                r.registry,
            ) && !is_default_host(r.registry)
            &&& !path.contains('@')
            &&& !repo.contains('@')
        }),
{
    lemma_names();
    text::lemma_find_char(name, '/');
    let (registry, path) = registry_and_path(name);
    match text::find(name, seq!['/']) {
        Some(i) => {
            text::lemma_part_without(name, i, '@');
            text::lemma_part_without(name, i + 1, '@');
            let host = name.take(i);
            if host.contains('/') {
                let j = choose|j: int| 0 <= j < host.len() && host[j] == '/';
                assert(name[j] == '/');
            }
        },
        None => {},
    }
    assert(!path.contains('@'));
    text::lemma_rfind_char(path, ':');
    let (repo, tag) = repo_and_tag(path);
    match text::rfind(path, seq![':']) {
        Some(k) => {
            let t = path.skip(k + 1);
            text::lemma_find_char(t, '/');
            text::lemma_part_without(path, k, '@');
            text::lemma_part_without(path, k + 1, '@');
            if t.contains(':') {
                let j = choose|j: int| 0 <= j < t.len() && t[j] == ':';
                assert(path[k + 1 + j] == ':');
            }
        },
        None => {},
    }
    text::lemma_sum_without("library/"@, repo, '@');
}

/// A name put together of a repository and a tag comes apart again.
proof fn lemma_repo_and_tag_again(shown: Seq<char>, tag: Option<Seq<char>>)
    requires
        tag matches Some(t) ==> !t.contains(':') && !t.contains('/'),
        tag is None ==> repo_and_tag(shown) == (shown, None::<Seq<char>>),
    ensures
        repo_and_tag(
            shown + (match tag {
                Some(t) => seq![':'] + t,
                None => Seq::empty(),
            }),
        ) == (shown, tag),
{
    match tag {
        Some(t) => {
            let p = shown + (seq![':'] + t);
            assert forall|j: int| shown.len() < j < p.len() implies p[j] != ':' by {
                assert(p[j] == t[j - shown.len() - 1]);
            }
            text::lemma_rfound_char(p, ':', shown.len() as int);
            assert(p.take(shown.len() as int) =~= shown);
            assert(p.skip(shown.len() + 1int) =~= t);
            text::lemma_find_char(t, '/');
        },
        None => {
            assert(shown + Seq::<char>::empty() =~= shown);
        },
    }
}

/// The references that come back from what is shown of them: a host keeps its whole
/// name, and on the default registry what is shown must read neither as a host nor
/// as another repository.
pub open spec fn reads_back(r: Reference) -> bool {
    let shown = r.shown_repo();
    &&& text::trim(r.shown()) == r.shown()
    &&& {
        ||| r.registry != "docker.io"@
        ||| shown.len() > 0 && !shown.contains('/')
        ||| shown == r.repo && !looks_like_host(first_segment(shown))
    }
}

/// What is shown of a reference, read again, gives the same reference.
pub proof fn law_shown_reads_back(input: Seq<char>)
    requires
        parsed(input) is Ok,
        reads_back(parsed(input)->Ok_0),
    ensures
        parsed(parsed(input)->Ok_0.shown()) == parsed(input),
{
    let s = text::trim(input);
    let (name, digest) = name_and_digest(s);
    let r = reference_of(name, digest);
    assert(parsed(input) == Ok::<Reference, Seq<char>>(r));
    text::lemma_find_char(s, '@');
    if name.contains('@') {
        let j = choose|j: int| 0 <= j < name.len() && name[j] == '@';
        assert(s[j] == '@');
    }
    lemma_names();
    lemma_parts(name, digest);
    let (registry, path) = registry_and_path(name);
    let (repo, tag) = repo_and_tag(path);
    let shown = r.shown_repo();
    let tagged: Seq<char> = match r.tag {
        Some(t) => seq![':'] + t,
        None => Seq::empty(),
    };
    let nm = shown + tagged;
    let d = r.shown();
    // the digest comes off again
    if r.registry == "docker.io"@ {
        if text::starts_with(r.repo, "library/"@) {
            text::lemma_part_without(r.repo, 8, '@');
        }
    } else {
        text::lemma_sum_without(r.registry, seq!['/'], '@');
        text::lemma_sum_without(r.registry + seq!['/'], r.repo, '@');
    }
    if let Some(t) = r.tag {
        text::lemma_sum_without(seq![':'], t, '@');
        text::lemma_sum_without(seq![':'], t, '/');
    }
    text::lemma_sum_without(shown, tagged, '@');
    match digest {
        Some(dg) => {
            assert(d =~= nm + seq!['@'] + dg);
            text::lemma_found_char(d, '@', nm.len() as int);
            assert(d.take(nm.len() as int) =~= nm);
            assert(d.skip(nm.len() + 1int) =~= dg);
        },
        None => {
            assert(d =~= nm);
            text::lemma_find_char(d, '@');
        },
    }
    assert(name_and_digest(d) == (nm, digest));
    // the repository of the path is the one that is shown
    let base = if r.registry == "docker.io"@ { shown } else { r.repo };
    text::lemma_find_char(repo, '/');
    text::lemma_find_char(shown, '/');
    text::lemma_find_char(nm, '/');
    text::lemma_rfind_char(base, ':');
    text::lemma_rfind_char(path, ':');
    if r.registry == "docker.io"@ && !text::contains(repo, seq!['/']) {
        assert(r.repo =~= "library/"@ + repo);
        assert(r.repo.subrange(0, 8) =~= "library/"@);
        assert(shown =~= repo);
    } else if r.registry == "docker.io"@ && text::starts_with(r.repo, "library/"@) {
        assert(r.repo =~= "library/"@ + shown) by {
            assert(r.repo.subrange(0, 8) == "library/"@);
        }
    }
    if r.tag is None {
        assert(repo == path);
        if r.registry == "docker.io"@ && text::contains(repo, seq!['/']) && shown != r.repo {
            // the only slash of the path is that of `library/`
            match text::rfind(path, seq![':']) {
                Some(k) => {
                    let t = path.skip(k + 1);
                    text::lemma_find_char(t, '/');
                    let j = text::find(t, seq!['/'])->0;
                    assert(path[k + 1 + j] == '/');
                    if k + 1 + j >= 8 {
                        assert(shown[k + 1 + j - 8] == '/');
                        assert(shown.contains('/'));
                    } else {
                        assert("library/"@[k] == ':');
                    }
                },
                None => {},
            }
            assert forall|j: int| 0 <= j < shown.len() implies shown[j] != ':' by {
                assert(path[j + 8] == shown[j]);
            }
        }
        assert(repo_and_tag(base) == (base, None::<Seq<char>>));
    }
    lemma_repo_and_tag_again(base, r.tag);
    // the registry comes off again
    if r.registry != "docker.io"@ {
        let n2 = r.registry + seq!['/'] + (r.repo + tagged);
        assert(nm =~= n2);
        assert forall|j: int| 0 <= j < r.registry.len() implies nm[j] != '/' by {
            assert(nm[j] == r.registry[j]);
            assert(r.registry.contains(r.registry[j]));
        }
        text::lemma_found_char(nm, '/', r.registry.len() as int);
        assert(nm.take(r.registry.len() as int) =~= r.registry);
        assert(nm.skip(r.registry.len() + 1int) =~= r.repo + tagged);
        assert(registry_and_path(nm) == (r.registry, base + tagged));
    } else if !shown.contains('/') {
        text::lemma_sum_without(shown, tagged, '/');
        assert(registry_and_path(nm) == ("docker.io"@, nm));
    } else {
        let i = text::find(shown, seq!['/'])->0;
        text::lemma_found_char(nm, '/', i);
        assert(nm.take(i) =~= shown.take(i));
        assert(registry_and_path(nm) == ("docker.io"@, nm));
    }
    assert(registry_and_path(nm) == (r.registry, base + tagged));
    assert(base.len() > 0);
    assert(qualified_repo(base, r.registry == "docker.io"@) == r.repo);
    assert(reference_of(nm, digest) =~= r);
    assert(d.len() > 0);
}

/// An official image is the same under its short name and under its full one.
pub proof fn law_official_names_agree(short: Seq<char>)
    requires
        parsed(short) is Ok,
        text::trim(short) == short,
        !name_and_digest(short).0.contains('/'),
    ensures
        parsed("docker.io/library/"@ + short) == parsed(short),
{
    reveal_strlit("docker.io/library/");
    lemma_names();
    reveal_strlit("docker.io");
    reveal_strlit("library/");
    let full = "docker.io/library/"@ + short;
    let (name, digest) = name_and_digest(short);
    text::lemma_find_char(short, '@');
    text::lemma_trim(short);
    text::lemma_trim(full);
    assert(full[0] == 'd');
    assert(full.last() == short.last());
    assert(text::trim(full) == full);
    let n2 = "docker.io/library/"@ + name;
    match digest {
        Some(dg) => {
            let k = text::find(short, seq!['@'])->0;
            assert forall|j: int| 0 <= j < k + 18 implies full[j] != '@' by {
                if j >= 18 {
                    assert(full[j] == short[j - 18]);
                }
            }
            text::lemma_found_char(full, '@', k + 18);
            assert(full.take(k + 18) =~= n2);
            assert(full.skip(k + 19) =~= dg);
        },
        None => {
            assert forall|j: int| 0 <= j < full.len() implies full[j] != '@' by {
                if j >= 18 {
                    assert(full[j] == short[j - 18]);
                }
            }
            text::lemma_find_char(full, '@');
        },
    }
    assert(name_and_digest(full) == (n2, digest));
    text::lemma_found_char(n2, '/', 9);
    assert(n2.take(9) =~= "docker.io"@);
    let path = "library/"@ + name;
    assert(n2.skip(10) =~= path);
    text::lemma_find_char("docker.io"@, '.');
    assert(registry_and_path(n2) == ("docker.io"@, path));
    text::lemma_find_char(name, '/');
    assert(registry_and_path(name) == ("docker.io"@, name));
    text::lemma_rfind_char(name, ':');
    text::lemma_rfind_char(path, ':');
    match text::rfind(name, seq![':']) {
        Some(k) => {
            assert forall|j: int| k + 8 < j < path.len() implies path[j] != ':' by {
                assert(path[j] == name[j - 8]);
            }
            text::lemma_rfound_char(path, ':', k + 8);
            assert(path.skip(k + 9) =~= name.skip(k + 1));
            assert(path.take(k + 8) =~= "library/"@ + name.take(k));
            let t = name.skip(k + 1);
            text::lemma_find_char(t, '/');
            text::lemma_part_without(name, k + 1, '/');
            text::lemma_find_char(name.take(k), '/');
            text::lemma_part_without(name, k, '/');
        },
        None => {
            assert forall|j: int| 0 <= j < path.len() implies path[j] != ':' by {
                if j >= 8 {
                    assert(path[j] == name[j - 8]);
                }
            }
        },
    }
    let (repo, tag) = repo_and_tag(name);
    assert(repo_and_tag(path) == ("library/"@ + repo, tag));
    let q = "library/"@ + repo;
    assert(q[7] == '/');
    text::lemma_find_char(q, '/');
    assert(q.contains('/'));
    assert(reference_of(n2, digest) =~= reference_of(name, digest));
}

/// A reference as it is commonly written: `[host/]first[/second][:tag][@digest]`.
pub ghost struct PlainName {
    pub host: Option<Seq<char>>,
    pub first: Seq<char>,
    pub second: Option<Seq<char>>,
    pub tag: Option<Seq<char>>,
    pub digest: Option<Seq<char>>,
}

/// A lower-case letter, a digit, `_` or `-`.
pub open spec fn is_plain_char(c: char) -> bool {
    'a' <= c <= 'z' || '0' <= c <= '9' || c == '_' || c == '-'
}

/// One component of a repository.
pub open spec fn is_plain(s: Seq<char>) -> bool {
    s.len() > 0 && forall|i: int| 0 <= i < s.len() ==> is_plain_char(#[trigger] s[i])
}

/// No white space stands in it.
pub open spec fn is_dense(s: Seq<char>) -> bool {
    forall|i: int| 0 <= i < s.len() ==> !text::is_white_space(#[trigger] s[i])
}

impl PlainName {
    pub open spec fn repo(self) -> Seq<char> {
        match self.second {
            Some(x) => self.first + seq!['/'] + x,
            None => self.first,
        }
    }

    pub open spec fn tag_part(self) -> Seq<char> {
        match self.tag {
            Some(t) => seq![':'] + t,
            None => Seq::empty(),
        }
    }

    /// What stands before the digest.
    pub open spec fn name(self) -> Seq<char> {
        match self.host {
            Some(h) => h + seq!['/'] + (self.repo() + self.tag_part()),
            None => self.repo() + self.tag_part(),
        }
    }

    pub open spec fn written(self) -> Seq<char> {
        match self.digest {
            Some(d) => self.name() + seq!['@'] + d,
            None => self.name(),
        }
    }

    /// The parts have the shapes that they are told apart by: components of a repository
    /// are plain and the first is not `localhost`; a host has a dot or a colon, or is
    /// `localhost`; a tag has neither a colon nor a slash; a digest is of the algorithm
    /// that is supported.
    pub open spec fn is_common(self) -> bool {
        &&& is_plain(self.first) && self.first != "localhost"@
        &&& self.second matches Some(x) ==> is_plain(x)
        &&& self.host matches Some(h) ==> is_dense(h) && !h.contains('/') && !h.contains('@') && (
        h.contains('.') || h.contains(':') || h == "localhost"@)
        &&& self.tag matches Some(t) ==> is_dense(t) && !t.contains('/') && !t.contains('@')
            && !t.contains(':')
        &&& self.digest matches Some(d) ==> is_dense(d) && text::starts_with(d, "sha256:"@)
    }

    /// What it names.
    pub open spec fn named(self) -> Reference {
        let registry = match self.host {
            Some(h) => if is_default_host(h) {
                "docker.io"@
            } else {
                h
            },
            None => "docker.io"@,
        };
        Reference {
            registry,
            repo: if registry == "docker.io"@ && self.second is None {
                "library/"@ + self.first
            } else {
                self.repo()
            },
            tag: if self.tag is None && self.digest is None {
                Some("latest"@)
            } else {
                self.tag
            },
            digest: self.digest,
        }
    }
}

proof fn lemma_plain_without(s: Seq<char>, c: char)
    requires
        is_plain(s),
        !is_plain_char(c),
    ensures
        !s.contains(c),
{
    if s.contains(c) {
        let j = choose|j: int| 0 <= j < s.len() && s[j] == c;
        assert(is_plain_char(s[j]));
    }
}

proof fn lemma_plain_is_dense(s: Seq<char>)
    requires
        is_plain(s),
    ensures
        is_dense(s),
{
    assert forall|i: int| 0 <= i < s.len() implies !text::is_white_space(#[trigger] s[i]) by {
        assert(is_plain_char(s[i]));
    }
}

proof fn lemma_dense_sum(a: Seq<char>, b: Seq<char>)
    requires
        is_dense(a),
        is_dense(b),
    ensures
        is_dense(a + b),
{
    let s = a + b;
    assert forall|i: int| 0 <= i < s.len() implies !text::is_white_space(#[trigger] s[i]) by {
        if i < a.len() {
            assert(s[i] == a[i]);
        } else {
            assert(s[i] == b[i - a.len()]);
        }
    }
}

proof fn lemma_dense_trims(s: Seq<char>)
    requires
        is_dense(s),
        s.len() > 0,
    ensures
        text::trim(s) == s,
{
    assert(!text::is_white_space(s[0]));
    assert(!text::is_white_space(s[s.len() - 1]));
    text::lemma_trim(s);
}

/// What the parts of a name do not hold.
proof fn lemma_common_parts(n: PlainName)
    requires
        n.is_common(),
    ensures
        is_dense(n.repo()) && is_dense(n.tag_part()) && is_dense(n.name()),
        n.repo().len() > 0,
        !n.repo().contains('@') && !n.repo().contains(':'),
        !n.tag_part().contains('@') && !n.tag_part().contains('/'),
        !n.name().contains('@'),
        !n.first.contains('/') && !n.first.contains('.') && !n.first.contains(':'),
        n.second matches Some(x) ==> !x.contains('/'),
{
    lemma_plain_without(n.first, '/');
    lemma_plain_without(n.first, '.');
    lemma_plain_without(n.first, ':');
    lemma_plain_without(n.first, '@');
    lemma_plain_is_dense(n.first);
    if let Some(x) = n.second {
        lemma_plain_without(x, '/');
        lemma_plain_without(x, ':');
        lemma_plain_without(x, '@');
        lemma_plain_is_dense(x);
        text::lemma_sum_without(n.first, seq!['/'], '@');
        text::lemma_sum_without(n.first + seq!['/'], x, '@');
        text::lemma_sum_without(n.first, seq!['/'], ':');
        text::lemma_sum_without(n.first + seq!['/'], x, ':');
        lemma_dense_sum(n.first, seq!['/']);
        lemma_dense_sum(n.first + seq!['/'], x);
    }
    if let Some(t) = n.tag {
        text::lemma_sum_without(seq![':'], t, '@');
        text::lemma_sum_without(seq![':'], t, '/');
        lemma_dense_sum(seq![':'], t);
    }
    let rest = n.repo() + n.tag_part();
    text::lemma_sum_without(n.repo(), n.tag_part(), '@');
    lemma_dense_sum(n.repo(), n.tag_part());
    if let Some(h) = n.host {
        text::lemma_sum_without(h, seq!['/'], '@');
        text::lemma_sum_without(h + seq!['/'], rest, '@');
        lemma_dense_sum(h, seq!['/']);
        lemma_dense_sum(h + seq!['/'], rest);
    }
}

/// The registry comes off a name of the common shape.
proof fn lemma_common_registry(n: PlainName)
    requires
        n.is_common(),
    ensures
        registry_and_path(n.name()) == (n.named().registry, n.repo() + n.tag_part()),
{
    lemma_common_parts(n);
    let rest = n.repo() + n.tag_part();
    let name = n.name();
    match n.host {
        Some(h) => {
            assert forall|j: int| 0 <= j < h.len() implies name[j] != '/' by {
                assert(name[j] == h[j]);
                assert(h.contains(h[j]));
            }
            assert(name[h.len() as int] == '/');
            text::lemma_found_char(name, '/', h.len() as int);
            assert(name.take(h.len() as int) =~= h);
            assert(name.skip(h.len() + 1int) =~= rest);
            text::lemma_find_char(h, '.');
            text::lemma_find_char(h, ':');
        },
        None => match n.second {
            Some(x) => {
                let f = n.first;
                assert forall|j: int| 0 <= j < f.len() implies name[j] != '/' by {
                    assert(name[j] == f[j]);
                    assert(f.contains(f[j]));
                }
                assert(name[f.len() as int] == '/');
                text::lemma_found_char(name, '/', f.len() as int);
                assert(name.take(f.len() as int) =~= f);
                text::lemma_find_char(f, '.');
                text::lemma_find_char(f, ':');
            },
            None => {
                text::lemma_sum_without(n.first, n.tag_part(), '/');
                text::lemma_find_char(name, '/');
            },
        },
    }
}

/// References of the common shape are read as they are meant, and what is shown of them
/// gives them back.
pub proof fn law_common_references_read_back(n: PlainName)
    requires
        n.is_common(),
    ensures
        parsed(n.written()) == Ok::<Reference, Seq<char>>(n.named()),
        parsed(n.named().shown()) == Ok::<Reference, Seq<char>>(n.named()),
{
    let w = n.written();
    let name = n.name();
    let repo = n.repo();
    let r = n.named();
    lemma_names();
    lemma_common_parts(n);
    lemma_common_registry(n);
    if let Some(d) = n.digest {
        lemma_dense_sum(name, seq!['@']);
        lemma_dense_sum(name + seq!['@'], d);
        assert forall|j: int| 0 <= j < name.len() implies w[j] != '@' by {
            assert(w[j] == name[j]);
            assert(name.contains(name[j]));
        }
        assert(w[name.len() as int] == '@');
        text::lemma_found_char(w, '@', name.len() as int);
        assert(w.take(name.len() as int) =~= name);
        assert(w.skip(name.len() + 1int) =~= d);
    } else {
        text::lemma_find_char(w, '@');
    }
    lemma_dense_trims(w);
    assert(name_and_digest(w) == (name, n.digest));
    text::lemma_rfind_char(repo, ':');
    if let Some(k) = text::rfind(repo, seq![':']) {
        assert(repo.contains(repo[k]));
    }
    assert(repo_and_tag(repo) == (repo, None::<Seq<char>>));
    lemma_repo_and_tag_again(repo, n.tag);
    text::lemma_find_char(repo, '/');
    if n.second is Some {
        assert(repo[n.first.len() as int] == '/');
        assert(repo.contains('/'));
    }
    assert(qualified_repo(repo, r.registry == "docker.io"@) == r.repo);
    assert(reference_of(name, n.digest) =~= r);
    assert(parsed(w) == Ok::<Reference, Seq<char>>(r));
    // what is shown holds no white space
    reveal_strlit("library/");
    reveal_strlit("latest");
    reveal_strlit("docker.io");
    let shown = r.shown_repo();
    assert(is_dense("latest"@));
    lemma_shown_repo_is_dense(n);
    let tagged: Seq<char> = match r.tag {
        Some(t) => seq![':'] + t,
        None => Seq::empty(),
    };
    let ended: Seq<char> = match r.digest {
        Some(d) => seq!['@'] + d,
        None => Seq::empty(),
    };
    if let Some(t) = r.tag {
        lemma_dense_sum(seq![':'], t);
    }
    if let Some(d) = r.digest {
        lemma_dense_sum(seq!['@'], d);
    }
    lemma_dense_sum(shown, tagged);
    lemma_dense_sum(shown + tagged, ended);
    lemma_dense_trims(r.shown());
    if r.registry == "docker.io"@ && shown.contains('/') {
        assert(shown == r.repo && shown == repo);
        let f = n.first;
        assert forall|j: int| 0 <= j < f.len() implies repo[j] != '/' by {
            assert(repo[j] == f[j]);
            assert(f.contains(f[j]));
        }
        text::lemma_found_char(repo, '/', f.len() as int);
        assert(repo.take(f.len() as int) =~= f);
        text::lemma_find_char(f, '.');
        text::lemma_find_char(f, ':');
    }
    assert(reads_back(r));
    law_shown_reads_back(w);
}

/// What is shown of a repository of the common shape.
proof fn lemma_shown_repo_is_dense(n: PlainName)
    requires
        n.is_common(),
    ensures
        is_dense(n.named().shown_repo()),
        n.named().shown_repo().len() > 0,
        n.named().registry == "docker.io"@ && n.named().shown_repo().contains('/')
            ==> n.named().shown_repo() == n.named().repo && n.second is Some,
{
    let r = n.named();
    let repo = n.repo();
    lemma_common_parts(n);
    reveal_strlit("library/");
    reveal_strlit("docker.io");
    lemma_names();
    if r.registry == "docker.io"@ {
        if text::starts_with(r.repo, "library/"@) {
            let shown = r.repo.skip(8);
            assert(r.shown_repo() == shown);
            if n.second is None {
                assert(shown =~= n.first);
            } else {
                let x = n.second->0;
                // the only slash is the one of `library/`
                assert(r.repo.subrange(0, 8) == "library/"@);
                assert(r.repo[7] == "library/"@[7]);
                if n.first.len() > 7 {
                    assert(r.repo[7] == n.first[7]);
                    assert(n.first.contains('/'));
                } else if n.first.len() < 7 {
                    let k = n.first.len() as int;
                    assert(r.repo[k] == '/');
                    assert(r.repo[k] == "library/"@[k]);
                }
                assert(shown =~= x);
                lemma_plain_is_dense(x);
            }
        } else if n.second is None {
            assert(r.repo.subrange(0, 8) =~= "library/"@);
        }
    } else {
        let h = n.host->0;
        lemma_dense_sum(h, seq!['/']);
        lemma_dense_sum(h + seq!['/'], r.repo);
    }
}

} // verus!
