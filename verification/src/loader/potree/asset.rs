//! Where the files of a Potree dataset are, and how a node's points are read.
use vstd::prelude::*;
use vstd::string::{StrSliceExecFns, StringExecFns};

verus! {

/// A file of a dataset served over HTTP, by its URL.
#[derive(Debug)]
pub struct HttpSource {
    pub url: String,
}

/// A file of a dataset on disk, by its path.
#[derive(Debug)]
pub struct FileSource {
    pub path: String,
}

/// How to reach a per-node file when the dataset uses the "multi-file" octree layout.
#[derive(Debug)]
pub enum NodeFetch {
    Http { base_url: String },
    Fs { base_path: String },
}

/// Which octree storage layout a dataset uses, read from its metadata.
#[derive(Clone, Copy, Debug, PartialEq, Eq, Structural)]
pub enum OctreeLayout {
    /// All node point data lives in one `octree.bin`, addressed by byte ranges.
    SingleFile,
    /// Each node's point data is its own file under `octree/<name>.bin`.
    MultiFile,
}

/// The files of a Potree dataset: its metadata, its hierarchy, its octree data, where the
/// per-node files are, and the octree layout once the metadata was read.
#[derive(Debug)]
pub struct PotreeAssetSource<S> {
    pub metadata: S,
    pub hierarchy: S,
    pub octree: S,
    pub node_fetch: NodeFetch,
    pub layout: Option<OctreeLayout>,
}

/// How to read the point data of one node.
#[derive(Debug)]
pub enum NodeRead {
    /// A byte range of the dataset's octree file.
    OctreeRange { offset: u64, length: usize },
    /// The whole file at this URL.
    HttpWhole { url: String },
    /// The whole file at this path.
    FileWhole { path: String },
}

/// `s` with every trailing `/` removed.
pub open spec fn trim_slashes(s: Seq<char>) -> Seq<char>
    decreases s.len(),
{
    if s.len() > 0 && s.last() == '/' {
        trim_slashes(s.drop_last())
    } else {
        s
    }
}

/// The position of the last `/` in the first `n` characters of `s`, if any.
pub open spec fn last_slash_below(s: Seq<char>, n: int) -> Option<int>
    decreases n,
{
    if n <= 0 {
        None
    } else if s[n - 1] == '/' {
        Some(n - 1)
    } else {
        last_slash_below(s, n - 1)
    }
}

/// Whether `name` is the name of one of the three files at a dataset's root.
pub open spec fn is_dataset_file(name: Seq<char>) -> bool {
    name == "metadata.json"@ || name == "hierarchy.bin"@ || name == "octree.bin"@
}

/// The base URL of a dataset given by `url`: the URL without its trailing slashes when it
/// ends with one; else without its last segment when that segment names one of the
/// dataset's files; else the URL itself.
pub open spec fn base_url_of(url: Seq<char>) -> Seq<char> {
    if url.len() > 0 && url.last() == '/' {
        trim_slashes(url)
    } else {
        match last_slash_below(url, url.len() as int) {
            Some(i) => if is_dataset_file(url.subrange(i + 1, url.len() as int)) {
                url.subrange(0, i)
            } else {
                url
            },
            None => url,
        }
    }
}

/// The layout a dataset's metadata declares: multi-file exactly when its `octreeLayout`
/// is `"multi-file"`.
pub open spec fn declared_layout(octree_layout: Option<Seq<char>>) -> OctreeLayout {
    if octree_layout == Some("multi-file"@) {
        OctreeLayout::MultiFile
    } else {
        OctreeLayout::SingleFile
    }
}

/// Whether `s` equals `lit`.
fn same_str(s: &str, lit: &str) -> (b: bool)
    ensures
        b == (s@ == lit@),
{
    let n = s.unicode_len();
    if n != lit.unicode_len() {
        return false;
    }
    let mut i: usize = 0;
    while i < n
        invariant
            n == s@.len(),
            n == lit@.len(),
            i <= n,
            forall|j: int| 0 <= j < i ==> s@[j] == lit@[j],
        decreases n - i,
    {
        if s.get_char(i) != lit.get_char(i) {
            return false;
        }
        i = i + 1;
    }
    proof {
        assert(s@ =~= lit@);
    }
    true
}

/// `s` followed by `tail`.
fn joined(s: &str, tail: &str) -> (r: String)
    ensures
        r@ == s@ + tail@,
{
    let mut r = String::from_str(s);
    r.append(tail);
    r
}

/// The base URL of a dataset given by `url` (see `base_url_of`).
pub fn base_url(url: &str) -> (r: String)
    ensures
        r@ == base_url_of(url@),
{
    let n = url.unicode_len();
    if n > 0 && url.get_char(n - 1) == '/' {
        let mut k = n;
        proof {
            assert(url@.subrange(0, n as int) =~= url@);
        }
        while k > 0 && url.get_char(k - 1) == '/'
            invariant
                k <= n,
                n == url@.len(),
                url@.last() == '/',
                n > 0,
                trim_slashes(url@.subrange(0, k as int)) == trim_slashes(url@),
            decreases k,
        {
            proof {
                assert(url@.subrange(0, k as int).drop_last() == url@.subrange(0, k - 1));
            }
            k = k - 1;
        }
        proof {
            assert(url@.subrange(0, n as int) == url@);
            if k > 0 {
                assert(url@.subrange(0, k as int).last() == url@[k - 1]);
            } else {
                assert(url@.subrange(0, 0) =~= Seq::<char>::empty());
            }
        }
        return String::from_str(url.substring_char(0, k));
    }
    let mut i = n;
    while i > 0 && url.get_char(i - 1) != '/'
        invariant
            i <= n,
            n == url@.len(),
            last_slash_below(url@, i as int) == last_slash_below(url@, n as int),
        decreases i,
    {
        i = i - 1;
    }
    if i == 0 {
        return String::from_str(url);
    }
    let end = url.substring_char(i, n);
    proof {
        reveal_strlit("metadata.json");
        reveal_strlit("hierarchy.bin");
        reveal_strlit("octree.bin");
    }
    if same_str(end, "metadata.json") || same_str(end, "hierarchy.bin") || same_str(end, "octree.bin") {
        String::from_str(url.substring_char(0, i - 1))
    } else {
        String::from_str(url)
    }
}

/// The layout a dataset's metadata declares (see `declared_layout`).
pub fn layout_from_metadata(octree_layout: Option<&str>) -> (r: OctreeLayout)
    ensures
        r == declared_layout(match octree_layout {
            Some(s) => Some(s@),
            None => None::<Seq<char>>,
        }),
{
    match octree_layout {
        Some(s) => if same_str(s, "multi-file") {
            OctreeLayout::MultiFile
        } else {
            OctreeLayout::SingleFile
        },
        None => OctreeLayout::SingleFile,
    }
}

impl PotreeAssetSource<HttpSource> {
    /// The files of the dataset served at `url`: the URL of the dataset's directory, or of
    /// one of its three root files.
    pub fn from_url(url: &str) -> (r: PotreeAssetSource<HttpSource>)
        ensures
            r.metadata.url@ == base_url_of(url@) + "/metadata.json"@,
            r.hierarchy.url@ == base_url_of(url@) + "/hierarchy.bin"@,
            r.octree.url@ == base_url_of(url@) + "/octree.bin"@,
            r.node_fetch is Http,
            r.node_fetch->base_url@ == base_url_of(url@) + "/octree"@,
            r.layout is None,
    {
        let base_url = base_url(url);
        PotreeAssetSource {
            metadata: HttpSource { url: joined(base_url.as_str(), "/metadata.json") },
            hierarchy: HttpSource { url: joined(base_url.as_str(), "/hierarchy.bin") },
            octree: HttpSource { url: joined(base_url.as_str(), "/octree.bin") },
            node_fetch: NodeFetch::Http { base_url: joined(base_url.as_str(), "/octree") },
            layout: None,
        }
    }
}

/// Whether `name` is a plain relative file name: not empty, not `.` or `..`, and without
/// separator or drive prefix.
pub open spec fn plain_file_name(name: Seq<char>) -> bool {
    &&& name.len() > 0
    &&& name != seq!['.']
    &&& name != seq!['.', '.']
    &&& forall|i: int| 0 <= i < name.len() ==> #[trigger] name[i] != '/' && name[i] != '\\' && name[i] != ':'
}

/// Whether `base` is a Windows verbatim path (starting with two backslashes, `?` and a
/// backslash), which joining normalises.
pub open spec fn verbatim_path(base: Seq<char>) -> bool {
    base.len() >= 4 && base[0] == '\\' && base[1] == '\\' && base[2] == '?' && base[3] == '\\'
}

/// `r` is what joining the plain file name `name` to `base` gives: `name` alone after an
/// empty base, `base` then `name` after a base ending in `/`, and `base`, one separator
/// (a slash or a backslash, as the platform has it) then `name` after a base ending in
/// any other character but a backslash or `:`; in every case `base`, at most one character, then `name`.
pub open spec fn path_joined(base: Seq<char>, name: Seq<char>, r: Seq<char>) -> bool {
    &&& adjoined(base, name, r)
    &&& base.len() == 0 ==> r == name
    &&& base.len() > 0 && base.last() == '/' ==> r == base + name
    &&& base.len() > 0 && base.last() != '/' && base.last() != '\\' && base.last() != ':' ==> {
        &&& r.len() == base.len() + name.len() + 1
        &&& (r[base.len() as int] == '/' || r[base.len() as int] == '\\')
    }
}

/// `r` is `base` with the plain file name `name` adjoined: `base`, then at most one
/// separator character, then `name`.
pub open spec fn adjoined(base: Seq<char>, name: Seq<char>, r: Seq<char>) -> bool {
    &&& (r.len() == base.len() + name.len() || r.len() == base.len() + name.len() + 1)
    &&& r.subrange(0, base.len() as int) == base
    &&& r.subrange(r.len() - name.len(), r.len() as int) == name
}

/// `std::path::Path::join`, on paths given as strings. Its documentation (through
/// `PathBuf::push`) says that a relative path is appended to `base`, after the platform's
/// separator unless `base` is empty or already ends with one. The contract states that
/// much (`path_joined`) for a plain file name and a base that is not a Windows verbatim
/// path, on which `push` normalises; which separator is used is left unsaid, as it
/// depends on the platform, and so is a base ending in a backslash or `:`, which the platforms
/// treat differently.
#[verifier::external_body]
fn join_path(base: &str, name: &str) -> (r: String)
    ensures
        plain_file_name(name@) && !verbatim_path(base@) ==> path_joined(base@, name@, r@),
{
    std::path::Path::new(base).join(name).to_string_lossy().into_owned()
}

impl PotreeAssetSource<FileSource> {
    /// The files of the dataset in the directory at `path`: each joined to `path` (see
    /// `path_joined`; nothing is said of a Windows verbatim `path`).
    pub fn from_path(path: &str) -> (r: PotreeAssetSource<FileSource>)
        ensures
            !verbatim_path(path@) ==> path_joined(path@, "metadata.json"@, r.metadata.path@),
            !verbatim_path(path@) ==> path_joined(path@, "hierarchy.bin"@, r.hierarchy.path@),
            !verbatim_path(path@) ==> path_joined(path@, "octree.bin"@, r.octree.path@),
            r.node_fetch is Fs,
            !verbatim_path(path@) ==> path_joined(path@, "octree"@, r.node_fetch->base_path@),
            r.layout is None,
    {
        proof {
            reveal_strlit("metadata.json");
            reveal_strlit("hierarchy.bin");
            reveal_strlit("octree.bin");
            reveal_strlit("octree");
        }
        PotreeAssetSource {
            metadata: FileSource { path: join_path(path, "metadata.json") },
            hierarchy: FileSource { path: join_path(path, "hierarchy.bin") },
            octree: FileSource { path: join_path(path, "octree.bin") },
            node_fetch: NodeFetch::Fs { base_path: join_path(path, "octree") },
            layout: None,
        }
    }
}

impl<S> PotreeAssetSource<S> {
    /// Records the layout the metadata declares, unless one is recorded already; returns
    /// whether it was recorded.
    pub fn set_layout(&mut self, layout: OctreeLayout) -> (set: bool)
        ensures
            set == (old(self).layout is None),
            final(self).layout == (if set { Some(layout) } else { old(self).layout }),
            final(self).metadata == old(self).metadata,
            final(self).hierarchy == old(self).hierarchy,
            final(self).octree == old(self).octree,
            final(self).node_fetch == old(self).node_fetch,
    {
        if self.layout.is_none() {
            self.layout = Some(layout);
            true
        } else {
            false
        }
    }

    /// How to read the point data of the node `name`, found at `offset` (`length` bytes)
    /// of the octree file: that byte range, unless the metadata declared the multi-file
    /// layout; then the whole file `<name>.bin` under the node directory.
    pub fn node_read(&self, name: &str, offset: u64, length: usize) -> (r: NodeRead)
        ensures
            self.layout != Some(OctreeLayout::MultiFile) ==> r == (NodeRead::OctreeRange { offset, length }),
            self.layout == Some(OctreeLayout::MultiFile) ==> match self.node_fetch {
                NodeFetch::Http { base_url } => r is HttpWhole && r->url@ == base_url@ + "/"@ + name@ + ".bin"@,
                NodeFetch::Fs { base_path } => r is FileWhole && (plain_file_name(name@) && !verbatim_path(base_path@)
                    ==> path_joined(base_path@, name@ + ".bin"@, r->path@)),
            },
    {
        let multi_file = match self.layout {
            Some(layout) => layout == OctreeLayout::MultiFile,
            None => false,
        };
        if !multi_file {
            return NodeRead::OctreeRange { offset, length };
        }
        match &self.node_fetch {
            NodeFetch::Http { base_url } => {
                let mut url = joined(base_url.as_str(), "/");
                url.append(name);
                url.append(".bin");
                NodeRead::HttpWhole { url }
            },
            NodeFetch::Fs { base_path } => {
                let file = joined(name, ".bin");
                proof {
                    reveal_strlit(".bin");
                    if plain_file_name(name@) {
                        assert(file@.len() == name@.len() + 4);
                        assert(file@ != seq!['.']);
                        assert(file@ != seq!['.', '.']);
                        assert(plain_file_name(file@));
                    }
                }
                NodeRead::FileWhole { path: join_path(base_path.as_str(), file.as_str()) }
            },
        }
    }
}

/// Characters `m` to `n` of `s` being no `/`, the last `/` below `n` is the last below `m`.
pub proof fn lemma_last_slash_skip(s: Seq<char>, m: int, n: int)
    requires
        0 <= m <= n <= s.len(),
        forall|k: int| m <= k < n ==> s[k] != '/',
    ensures
        last_slash_below(s, n) == last_slash_below(s, m),
    decreases n - m,
{
    if n > m {
        lemma_last_slash_skip(s, m, n - 1);
    }
}

/// `k` slashes.
pub open spec fn slashes(k: nat) -> Seq<char> {
    Seq::new(k, |i: int| '/')
}

/// Trailing slashes added to a text that does not end with one are trimmed off again.
proof fn lemma_trim_added_slashes(dir: Seq<char>, k: nat)
    requires
        !(dir.len() > 0 && dir.last() == '/'),
    ensures
        trim_slashes(dir + slashes(k)) == dir,
    decreases k,
{
    if k == 0 {
        assert(dir + slashes(0) =~= dir);
    } else {
        let s = dir + slashes(k);
        assert(s.last() == '/');
        assert(s.drop_last() =~= dir + slashes((k - 1) as nat));
        lemma_trim_added_slashes(dir, (k - 1) as nat);
    }
}

/// A dataset's base URL is found the same from the URL of its directory, with or without
/// trailing slashes, and from the URL of any of its three root files, as long as the
/// directory's own last segment does not name one of those files.
pub proof fn law_base_url_of_dataset(dir: Seq<char>, name: Seq<char>, k: nat)
    requires
        !(dir.len() > 0 && dir.last() == '/'),
        match last_slash_below(dir, dir.len() as int) {
            Some(i) => !is_dataset_file(dir.subrange(i + 1, dir.len() as int)),
            None => true,
        },
        is_dataset_file(name),
        k > 0,
    ensures
        base_url_of(dir) == dir,
        base_url_of(dir + slashes(k)) == dir,
        base_url_of(dir + "/"@ + name) == dir,
{
    reveal_strlit("/");
    reveal_strlit("metadata.json");
    reveal_strlit("hierarchy.bin");
    reveal_strlit("octree.bin");
    let d = dir + slashes(k);
    assert(d.last() == '/');
    lemma_trim_added_slashes(dir, k);
    let u = dir + "/"@ + name;
    let n = u.len() as int;
    assert(forall|j: int| 0 <= j < name.len() ==> #[trigger] name[j] != '/');
    assert forall|j: int| dir.len() + 1 <= j < n implies u[j] != '/' by {
        assert(u[j] == name[j - dir.len() - 1]);
    }
    lemma_last_slash_skip(u, dir.len() as int + 1, n);
    assert(u[dir.len() as int] == '/');
    assert(last_slash_below(u, dir.len() as int + 1) == Some(dir.len() as int));
    assert(u.subrange(dir.len() as int + 1, n) =~= name);
    assert(u.subrange(0, dir.len() as int) =~= dir);
    assert(u.last() == name.last());
}

} // verus!
