//! In-memory asset store of the presentation shell, an external
//! collaborator of the kernel: assets are registered once and served by
//! path, with MIME types derived from the file extension.

use vstd::prelude::*;
use vstd::string::{StringExecFns, StrSliceExecFns, StringSliceAdditionalSpecFns};
use crate::text::{str_eq, last_index, lemma_last_index, lemma_last_index_push};

verus! {

/// One stored asset: its path, raw bytes, and MIME type.
pub struct EmbeddedAsset {
    pub path: String,
    pub content: Vec<u8>,
    pub mime_type: String,
}

/// The mathematical content of a stored asset.
pub ghost struct EmbeddedAssetView {
    pub path: Seq<char>,
    pub content: Seq<u8>,
    pub mime_type: Seq<char>,
}

impl View for EmbeddedAsset {
    type V = EmbeddedAssetView;

    open spec fn view(&self) -> EmbeddedAssetView {
        EmbeddedAssetView {
            path: self.path@,
            content: self.content@,
            mime_type: self.mime_type@,
        }
    }
}

/// `p` with every leading slash removed, the form under which assets are
/// stored and looked up.
pub open spec fn spec_trim_slashes(p: Seq<char>) -> Seq<char>
    decreases p.len(),
{
    if p.len() > 0 && p[0] == '/' {
        spec_trim_slashes(p.drop_first())
    } else {
        p
    }
}

proof fn lemma_trim_at(p: Seq<char>, i: int)
    requires
        0 <= i <= p.len(),
        forall|k: int| 0 <= k < i ==> p[k] == '/',
        i < p.len() ==> p[i] != '/',
    ensures
        spec_trim_slashes(p) =~= p.subrange(i, p.len() as int),
    decreases i,
{
    if i == 0 {
        assert(spec_trim_slashes(p) =~= p.subrange(0, p.len() as int));
    } else {
        let q = p.drop_first();
        assert(p[0] == '/');
        assert forall|k: int| 0 <= k < i - 1 implies q[k] == '/' by {
            assert(q[k] == p[k + 1]);
        }
        lemma_trim_at(q, i - 1);
        assert(q.subrange(i - 1, q.len() as int) =~= p.subrange(i, p.len() as int));
    }
}

/// Removes the leading slashes of `path`.
fn trim_slashes<'a>(path: &'a str) -> (r: &'a str)
    ensures
        r@ == spec_trim_slashes(path@),
{
    let n = path.unicode_len();
    let mut i: usize = 0;
    while i < n && path.get_char(i) == '/'
        invariant
            n == path@.len(),
            i <= n,
            forall|k: int| 0 <= k < i ==> path@[k] == '/',
        decreases n - i,
    {
        i += 1;
    }
    proof {
        lemma_trim_at(path@, i as int);
    }
    path.substring_char(i, n)
}

/// The first asset whose path is `p`, scanning in insertion order.
pub open spec fn spec_lookup(s: Seq<EmbeddedAssetView>, p: Seq<char>) -> Option<EmbeddedAssetView>
    decreases s.len(),
{
    if s.len() == 0 {
        None
    } else if s[0].path == p {
        Some(s[0])
    } else {
        spec_lookup(s.drop_first(), p)
    }
}

/// Scanning past a non-matching head leaves the lookup unchanged.
proof fn lemma_lookup_skip(s: Seq<EmbeddedAssetView>, p: Seq<char>, i: int)
    requires
        0 <= i <= s.len(),
        forall|k: int| 0 <= k < i ==> s[k].path != p,
    ensures
        spec_lookup(s, p) == spec_lookup(s.skip(i), p),
    decreases i,
{
    if i > 0 {
        assert(s.skip(0) =~= s);
        assert(s.len() > 0);
        assert(s[0].path != p);
        assert(spec_lookup(s, p) == spec_lookup(s.drop_first(), p));
        let q = s.drop_first();
        assert forall|k: int| 0 <= k < i - 1 implies q[k].path != p by {
            assert(q[k] == s[k + 1]);
        }
        lemma_lookup_skip(q, p, i - 1);
        assert(q.skip(i - 1) =~= s.skip(i));
    } else {
        assert(s.skip(0) =~= s);
    }
}

/// The extension of `p`: what follows the final dot of the part after the
/// final slash, provided that dot neither starts the path nor directly
/// follows a slash.
pub open spec fn spec_extension(p: Seq<char>) -> Option<Seq<char>> {
    let di = last_index(p, '.');
    let si = last_index(p, '/');
    if di >= 0 && di > si + 1 {
        Some(p.subrange(di + 1, p.len() as int))
    } else {
        None
    }
}

/// The MIME type registered for an extension; unknown extensions fall back
/// to the generic byte-stream type.
pub open spec fn mime_of_ext(e: Seq<char>) -> Seq<char> {
    if e == "html"@ {
        "text/html; charset=utf-8"@
    } else if e == "css"@ {
        "text/css; charset=utf-8"@
    } else if e == "js"@ {
        "application/javascript; charset=utf-8"@
    } else if e == "json"@ {
        "application/json; charset=utf-8"@
    } else if e == "png"@ {
        "image/png"@
    } else if e == "jpg"@ || e == "jpeg"@ {
        "image/jpeg"@
    } else if e == "gif"@ {
        "image/gif"@
    } else if e == "svg"@ {
        "image/svg+xml"@
    } else if e == "wasm"@ {
        "application/wasm"@
    } else if e == "ttf"@ {
        "font/ttf"@
    } else if e == "woff"@ {
        "font/woff"@
    } else if e == "woff2"@ {
        "font/woff2"@
    } else if e == "txt"@ {
        "text/plain; charset=utf-8"@
    } else if e == "md"@ {
        "text/markdown; charset=utf-8"@
    } else {
        "application/octet-stream"@
    }
}

/// The MIME type guessed from a path's extension.
pub open spec fn spec_mime(p: Seq<char>) -> Seq<char> {
    match spec_extension(p) {
        Some(e) => mime_of_ext(e),
        None => "application/octet-stream"@,
    }
}

/// The body served when no asset matches a request.
pub open spec fn not_found_bytes() -> Seq<u8> {
    "404 Not Found".spec_bytes()
}

/// A verbatim copy of a byte vector.
fn copy_bytes(v: &Vec<u8>) -> (r: Vec<u8>)
    ensures
        r@ == v@,
{
    let n = v.len();
    let mut out: Vec<u8> = Vec::new();
    let mut i: usize = 0;
    while i < n
        invariant
            n == v@.len(),
            i <= n,
            out@ == v@.subrange(0, i as int),
        decreases n - i,
    {
        out.push(v[i]);
        proof {
            assert(out@ =~= v@.subrange(0, i + 1));
        }
        i += 1;
    }
    proof {
        assert(v@.subrange(0, n as int) =~= v@);
    }
    out
}

/// Central asset store: assets live in memory, keyed by path.
pub struct AssetStore {
    assets: Vec<EmbeddedAsset>,
}

impl View for AssetStore {
    type V = Seq<EmbeddedAssetView>;

    closed spec fn view(&self) -> Seq<EmbeddedAssetView> {
        self.assets@.map_values(|a: EmbeddedAsset| a@)
    }
}

impl AssetStore {
    /// Asset paths are pairwise distinct, so a path names one asset.
    pub open spec fn wf(&self) -> bool {
        forall|i: int, j: int| 0 <= i < j < self@.len() ==> self@[i].path != self@[j].path
    }

    /// An empty store; assets are registered with `add_asset`.
    pub fn new() -> (r: AssetStore)
        ensures
            r.wf(),
            r@ == Seq::<EmbeddedAssetView>::empty(),
    {
        let r = AssetStore { assets: Vec::new() };
        proof {
            assert(r@ =~= Seq::<EmbeddedAssetView>::empty());
        }
        r
    }

    /// The index of the asset stored under the trimmed form of `path`.
    fn find(&self, path: &str) -> (r: Option<usize>)
        requires
            self.wf(),
        ensures
            match r {
                Some(i) => i < self@.len() && self@[i as int].path == spec_trim_slashes(path@)
                    && spec_lookup(self@, spec_trim_slashes(path@)) == Some(self@[i as int]),
                None => spec_lookup(self@, spec_trim_slashes(path@)) is None,
            },
    {
        let wanted = trim_slashes(path);
        let n = self.assets.len();
        let mut i: usize = 0;
        while i < n
            invariant
                n == self@.len(),
                n == self.assets@.len(),
                i <= n,
                wanted@ == spec_trim_slashes(path@),
                forall|k: int| 0 <= k < i ==> self@[k].path != wanted@,
            decreases n - i,
        {
            if str_eq(self.assets[i].path.as_str(), wanted) {
                proof {
                    lemma_lookup_skip(self@, wanted@, i as int);
                    assert(self@.skip(i as int)[0] == self@[i as int]);
                }
                return Some(i);
            }
            i += 1;
        }
        proof {
            lemma_lookup_skip(self@, wanted@, n as int);
            assert(self@.skip(n as int) =~= Seq::<EmbeddedAssetView>::empty());
        }
        None
    }

    /// Registers an asset under the trimmed form of its path, replacing any
    /// asset already stored there.
    pub fn add_asset(&mut self, path: &str, content: Vec<u8>, mime_type: String)
        requires
            old(self).wf(),
        ensures
            final(self).wf(),
            spec_lookup(final(self)@, spec_trim_slashes(path@)) matches Some(a) && a.path
                == spec_trim_slashes(path@) && a.content == content@ && a.mime_type == mime_type@,
            final(self)@.len() <= old(self)@.len() + 1,
            forall|p: Seq<char>|
                p != spec_trim_slashes(path@) ==> #[trigger] spec_lookup(final(self)@, p)
                    == spec_lookup(old(self)@, p),
    {
        let key = trim_slashes(path).to_owned();
        let asset = EmbeddedAsset { path: key, content, mime_type };
        let ghost av = asset@;
        let ghost s0 = self@;
        match self.find(path) {
            Some(i) => {
                let slot = vstd::std_specs::vec::vec_index_mut(&mut self.assets, i);
                *slot = asset;
                proof {
                    assert(self@ =~= s0.update(i as int, av));
                    lemma_update_lookup(s0, i as int, av);
                }
            },
            None => {
                self.assets.push(asset);
                proof {
                    assert(self@ =~= s0.push(av));
                    lemma_push_lookup(s0, av);
                }
            },
        }
    }

    /// The asset stored under `path`, leading slashes ignored.
    pub fn get(&self, path: &str) -> (r: Option<&EmbeddedAsset>)
        requires
            self.wf(),
        ensures
            match r {
                Some(a) => spec_lookup(self@, spec_trim_slashes(path@)) == Some(a@),
                None => spec_lookup(self@, spec_trim_slashes(path@)) is None,
            },
    {
        match self.find(path) {
            Some(i) => Some(&self.assets[i]),
            None => None,
        }
    }

    /// The bytes of the asset stored under `path`, or a not-found body when
    /// no asset matches.
    pub fn get_or_404(&self, path: &str) -> (r: Vec<u8>)
        requires
            self.wf(),
        ensures
            match spec_lookup(self@, spec_trim_slashes(path@)) {
                Some(a) => r@ == a.content,
                None => r@ == not_found_bytes(),
            },
    {
        match self.get(path) {
            Some(asset) => copy_bytes(&asset.content),
            None => "404 Not Found".as_bytes_vec(),
        }
    }

    /// The paths of every stored asset, in insertion order.
    pub fn list_assets(&self) -> (r: Vec<String>)
        ensures
            r@.len() == self@.len(),
            forall|i: int| 0 <= i < r@.len() ==> (#[trigger] r@[i])@ == self@[i].path,
    {
        let n = self.assets.len();
        let mut out: Vec<String> = Vec::new();
        let mut i: usize = 0;
        while i < n
            invariant
                n == self.assets@.len(),
                n == self@.len(),
                i <= n,
                out@.len() == i,
                forall|j: int| 0 <= j < i ==> (#[trigger] out@[j])@ == self@[j].path,
            decreases n - i,
        {
            out.push(self.assets[i].path.clone());
            i += 1;
        }
        out
    }

    /// The MIME type of the asset stored under `path`, or, when no asset
    /// matches, the type guessed from the path's extension.
    pub fn get_mime_type(&self, path: &str) -> (r: String)
        requires
            self.wf(),
        ensures
            r@ == match spec_lookup(self@, spec_trim_slashes(path@)) {
                Some(a) => a.mime_type,
                None => spec_mime(path@),
            },
    {
        match self.get(path) {
            Some(asset) => asset.mime_type.clone(),
            None => Self::guess_mime_type(path).to_owned(),
        }
    }

    /// Guesses the MIME type of a path from its extension alone.
    pub fn guess_mime_type(path: &str) -> (r: &'static str)
        ensures
            r@ == spec_mime(path@),
    {
        let n = path.unicode_len();
        let mut dot: usize = 0;
        let mut has_dot: bool = false;
        let mut slash: usize = 0;
        let mut has_slash: bool = false;
        let mut i: usize = 0;
        while i < n
            invariant
                n == path@.len(),
                i <= n,
                has_dot <==> last_index(path@.subrange(0, i as int), '.') >= 0,
                has_dot ==> dot == last_index(path@.subrange(0, i as int), '.') && dot < i,
                has_slash <==> last_index(path@.subrange(0, i as int), '/') >= 0,
                has_slash ==> slash == last_index(path@.subrange(0, i as int), '/') && slash < i,
            decreases n - i,
        {
            let ghost pre = path@.subrange(0, i as int);
            let c = path.get_char(i);
            proof {
                assert(path@.subrange(0, i + 1) =~= pre.push(path@[i as int]));
                lemma_last_index_push(pre, '.', path@[i as int]);
                lemma_last_index_push(pre, '/', path@[i as int]);
            }
            if c == '.' {
                dot = i;
                has_dot = true;
            } else if c == '/' {
                slash = i;
                has_slash = true;
            }
            i += 1;
        }
        proof {
            assert(path@.subrange(0, n as int) =~= path@);
            lemma_last_index(path@, '.');
            lemma_last_index(path@, '/');
        }
        let past_slash: bool = if has_slash {
            dot > slash + 1
        } else {
            dot > 0
        };
        if has_dot && past_slash {
            let ext = path.substring_char(dot + 1, n);
            if str_eq(ext, "html") {
                "text/html; charset=utf-8"
            } else if str_eq(ext, "css") {
                "text/css; charset=utf-8"
            } else if str_eq(ext, "js") {
                "application/javascript; charset=utf-8"
            } else if str_eq(ext, "json") {
                "application/json; charset=utf-8"
            } else if str_eq(ext, "png") {
                "image/png"
            } else if str_eq(ext, "jpg") || str_eq(ext, "jpeg") {
                "image/jpeg"
            } else if str_eq(ext, "gif") {
                "image/gif"
            } else if str_eq(ext, "svg") {
                "image/svg+xml"
            } else if str_eq(ext, "wasm") {
                "application/wasm"
            } else if str_eq(ext, "ttf") {
                "font/ttf"
            } else if str_eq(ext, "woff") {
                "font/woff"
            } else if str_eq(ext, "woff2") {
                "font/woff2"
            } else if str_eq(ext, "txt") {
                "text/plain; charset=utf-8"
            } else if str_eq(ext, "md") {
                "text/markdown; charset=utf-8"
            } else {
                "application/octet-stream"
            }
        } else {
            "application/octet-stream"
        }
    }
}

/// Replacing the entry at a matching index rebinds lookups of its path and
/// leaves every other path's lookup unchanged.
proof fn lemma_update_lookup(s: Seq<EmbeddedAssetView>, i: int, a: EmbeddedAssetView)
    requires
        forall|x: int, y: int| 0 <= x < y < s.len() ==> s[x].path != s[y].path,
        0 <= i < s.len(),
        s[i].path == a.path,
    ensures
        spec_lookup(s.update(i, a), a.path) == Some(a),
        forall|p: Seq<char>|
            p != a.path ==> #[trigger] spec_lookup(s.update(i, a), p) == spec_lookup(s, p),
        forall|x: int, y: int|
            0 <= x < y < s.update(i, a).len() ==> s.update(i, a)[x].path != s.update(
                i,
                a,
            )[y].path,
    decreases s.len(),
{
    let t = s.update(i, a);
    if i == 0 {
        assert(t[0] == a);
        assert forall|p: Seq<char>| p != a.path implies #[trigger] spec_lookup(t, p)
            == spec_lookup(s, p) by {
            assert(t.drop_first() =~= s.drop_first());
        }
    } else {
        assert(t[0] == s[0]);
        assert(s[0].path != a.path);
        let s1 = s.drop_first();
        let t1 = t.drop_first();
        assert(t1 =~= s1.update(i - 1, a));
        assert forall|x: int, y: int| 0 <= x < y < s1.len() implies s1[x].path != s1[y].path by {
            assert(s1[x] == s[x + 1]);
            assert(s1[y] == s[y + 1]);
        }
        assert(s1[i - 1] == s[i]);
        lemma_update_lookup(s1, i - 1, a);
        assert(spec_lookup(t, a.path) == spec_lookup(t1, a.path));
        assert forall|p: Seq<char>| p != a.path implies #[trigger] spec_lookup(t, p)
            == spec_lookup(s, p) by {
            if s[0].path != p {
                assert(spec_lookup(t, p) == spec_lookup(t1, p));
                assert(spec_lookup(s, p) == spec_lookup(s1, p));
                assert(spec_lookup(s1.update(i - 1, a), p) == spec_lookup(s1, p));
            }
        }
    }
    assert forall|x: int, y: int|
        0 <= x < y < t.len() implies t[x].path != t[y].path by {
        assert(s[i].path == a.path);
        if x != i && y != i {
            assert(t[x] == s[x]);
            assert(t[y] == s[y]);
        }
    }
}

/// Appending an entry under a fresh path makes it the lookup result for
/// that path and leaves every other path's lookup unchanged.
proof fn lemma_push_lookup(s: Seq<EmbeddedAssetView>, a: EmbeddedAssetView)
    requires
        forall|x: int, y: int| 0 <= x < y < s.len() ==> s[x].path != s[y].path,
        spec_lookup(s, a.path) is None,
    ensures
        spec_lookup(s.push(a), a.path) == Some(a),
        forall|p: Seq<char>|
            p != a.path ==> #[trigger] spec_lookup(s.push(a), p) == spec_lookup(s, p),
        forall|x: int, y: int|
            0 <= x < y < s.push(a).len() ==> s.push(a)[x].path != s.push(a)[y].path,
    decreases s.len(),
{
    let t = s.push(a);
    lemma_lookup_none_no_match(s, a.path);
    if s.len() == 0 {
        assert(t[0] == a);
        assert(t.drop_first() =~= Seq::<EmbeddedAssetView>::empty());
        assert forall|p: Seq<char>| p != a.path implies #[trigger] spec_lookup(t, p)
            == spec_lookup(s, p) by {
            assert(spec_lookup(t, p) == spec_lookup(t.drop_first(), p));
        }
    } else {
        assert(t[0] == s[0]);
        assert(s[0].path != a.path);
        let s1 = s.drop_first();
        let t1 = t.drop_first();
        assert(t1 =~= s1.push(a));
        assert forall|x: int, y: int| 0 <= x < y < s1.len() implies s1[x].path != s1[y].path by {
            assert(s1[x] == s[x + 1]);
            assert(s1[y] == s[y + 1]);
        }
        assert(spec_lookup(s1, a.path) is None);
        lemma_push_lookup(s1, a);
        assert(spec_lookup(t, a.path) == spec_lookup(t1, a.path));
        assert forall|p: Seq<char>| p != a.path implies #[trigger] spec_lookup(t, p)
            == spec_lookup(s, p) by {
            if s[0].path != p {
                assert(spec_lookup(t, p) == spec_lookup(t1, p));
                assert(spec_lookup(s, p) == spec_lookup(s1, p));
                assert(spec_lookup(s1.push(a), p) == spec_lookup(s1, p));
            }
        }
    }
    assert forall|x: int, y: int| 0 <= x < y < t.len() implies t[x].path != t[y].path by {
        if y == t.len() - 1 {
            assert(t[x] == s[x]);
            assert(s[x].path != a.path);
        }
    }
}

/// A failed lookup means no entry matches the path.
proof fn lemma_lookup_none_no_match(s: Seq<EmbeddedAssetView>, p: Seq<char>)
    requires
        spec_lookup(s, p) is None,
    ensures
        forall|k: int| 0 <= k < s.len() ==> (#[trigger] s[k]).path != p,
    decreases s.len(),
{
    if s.len() > 0 {
        lemma_lookup_none_no_match(s.drop_first(), p);
        assert forall|k: int| 0 <= k < s.len() implies (#[trigger] s[k]).path != p by {
            if k > 0 {
                assert(s.drop_first()[k - 1] == s[k]);
            }
        }
    }
}

} // verus!
