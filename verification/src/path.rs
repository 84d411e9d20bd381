use vstd::prelude::*;

verus! {

/// A filesystem path, held as the sequence of its components.
///
/// The caller (the unverified shell around this library) splits an OS path
/// into components before handing it in. A leading root directory is itself
/// one component, written `/`: that marker is how the library tells an
/// absolute path from a relative one when it anchors paths against a base.
/// Beyond that the library never re-parses component strings, only compares
/// them.
pub struct RepoPath {
    pub parts: Vec<String>,
}

/// The views of a sequence of components.
pub open spec fn part_views(parts: Seq<String>) -> Seq<Seq<char>> {
    parts.map_values(|s: String| s@)
}

impl View for RepoPath {
    type V = Seq<Seq<char>>;

    open spec fn view(&self) -> Seq<Seq<char>> {
        part_views(self.parts@)
    }
}

pub proof fn lemma_part_views_push(parts: Seq<String>, x: String)
    ensures
        part_views(parts.push(x)) == part_views(parts).push(x@),
{
    assert(part_views(parts.push(x)) =~= part_views(parts).push(x@));
}

/// `prefix` is an ancestor of `whole` (or equal to it): every component of
/// `prefix` stands at the same position in `whole`.
pub open spec fn is_prefix_of(prefix: Seq<Seq<char>>, whole: Seq<Seq<char>>) -> bool {
    &&& prefix.len() <= whole.len()
    &&& forall|i: int| 0 <= i < prefix.len() ==> prefix[i] == whole[i]
}

/// Two ancestors of one path with the same number of components are the same
/// path.
pub proof fn lemma_prefixes_same_len_equal(a: Seq<Seq<char>>, b: Seq<Seq<char>>, whole: Seq<Seq<char>>)
    requires
        is_prefix_of(a, whole),
        is_prefix_of(b, whole),
        a.len() == b.len(),
    ensures
        a == b,
{
    assert(a =~= b);
}

/// A file name with the source-file extension: it ends in `.rs` and has a
/// non-empty stem before the dot, mirroring how `Path::extension` reads a
/// file name.
pub open spec fn is_source_name(name: Seq<char>) -> bool {
    &&& name.len() > 3
    &&& name[name.len() - 3] == '.'
    &&& name[name.len() - 2] == 'r'
    &&& name[name.len() - 1] == 's'
}

/// A build-manifest or lockfile marker name.
pub open spec fn is_marker_name(name: Seq<char>) -> bool {
    name == "Cargo.toml"@ || name == "Cargo.lock"@
}

/// A changed file is relevant to the hook iff its last component is a source
/// file or a marker file.
pub open spec fn is_relevant(path: Seq<Seq<char>>) -> bool {
    path.len() > 0 && (is_source_name(path.last()) || is_marker_name(path.last()))
}

/// Whether a changed file path should trigger a hook run: its file name has
/// the `.rs` extension or is exactly one of the manifest/lockfile names.
pub fn is_rust_file(path: &RepoPath) -> (relevant: bool)
    ensures
        relevant == is_relevant(path@),
{
    if path.parts.len() == 0 {
        return false;
    }
    let name: &String = &path.parts[path.parts.len() - 1];
    assert(name@ == path@.last());
    let n = name.as_str().unicode_len();
    if n > 3 && name.as_str().get_char(n - 3) == '.' && name.as_str().get_char(n - 2) == 'r'
        && name.as_str().get_char(n - 1) == 's' {
        return true;
    }
    let toml: String = String::from_str("Cargo.toml");
    let lock: String = String::from_str("Cargo.lock");
    *name == toml || *name == lock
}

impl RepoPath {
    /// Component-for-component copy.
    pub fn duplicate(&self) -> (copy: RepoPath)
        ensures
            copy@ == self@,
    {
        let mut parts: Vec<String> = Vec::new();
        let mut i: usize = 0;
        while i < self.parts.len()
            invariant
                i <= self.parts.len(),
                part_views(parts@) == part_views(self.parts@.take(i as int)),
            decreases self.parts.len() - i,
        {
            let ghost before = parts@;
            parts.push(self.parts[i].clone());
            proof {
                lemma_part_views_push(before, self.parts@[i as int]);
                assert(part_views(self.parts@.take(i as int)).push(self.parts@[i as int]@)
                    =~= part_views(self.parts@.take(i + 1)));
            }
            i = i + 1;
        }
        assert(self.parts@.take(self.parts@.len() as int) =~= self.parts@);
        RepoPath { parts }
    }

    /// The directory that holds this path: the path without its last
    /// component. The empty path is its own parent.
    pub fn parent(&self) -> (dir: RepoPath)
        ensures
            dir@ == parent_view(self@),
    {
        let mut parts: Vec<String> = Vec::new();
        if self.parts.len() == 0 {
            return RepoPath { parts };
        }
        let end = self.parts.len() - 1;
        let mut i: usize = 0;
        while i < end
            invariant
                i <= end,
                end == self.parts.len() - 1,
                part_views(parts@) == part_views(self.parts@.take(i as int)),
            decreases end - i,
        {
            let ghost before = parts@;
            parts.push(self.parts[i].clone());
            proof {
                lemma_part_views_push(before, self.parts@[i as int]);
                assert(part_views(self.parts@.take(i as int)).push(self.parts@[i as int]@)
                    =~= part_views(self.parts@.take(i + 1)));
            }
            i = i + 1;
        }
        assert(part_views(self.parts@.take(end as int)) =~= self@.take(end as int));
        RepoPath { parts }
    }
}

/// The path without its last component; the empty path stays empty.
pub open spec fn parent_view(path: Seq<Seq<char>>) -> Seq<Seq<char>> {
    if path.len() == 0 {
        path
    } else {
        path.take(path.len() - 1)
    }
}

/// Whether two paths have the same components.
pub fn path_eq(a: &RepoPath, b: &RepoPath) -> (eq: bool)
    ensures
        eq == (a@ == b@),
{
    assert(a@.len() == a.parts@.len() && b@.len() == b.parts@.len());
    if a.parts.len() != b.parts.len() {
        return false;
    }
    let mut i: usize = 0;
    while i < a.parts.len()
        invariant
            i <= a.parts.len(),
            a.parts.len() == b.parts.len(),
            forall|j: int| 0 <= j < i ==> a@[j] == b@[j],
        decreases a.parts.len() - i,
    {
        if !(a.parts[i] == b.parts[i]) {
            assert(a@[i as int] != b@[i as int]);
            return false;
        }
        i = i + 1;
    }
    assert(a@ =~= b@);
    true
}

/// Whether `prefix` is an ancestor of `whole` (or equal to it).
pub fn path_is_prefix(prefix: &RepoPath, whole: &RepoPath) -> (r: bool)
    ensures
        r == is_prefix_of(prefix@, whole@),
{
    if prefix.parts.len() > whole.parts.len() {
        return false;
    }
    let mut i: usize = 0;
    while i < prefix.parts.len()
        invariant
            i <= prefix.parts.len(),
            prefix.parts.len() <= whole.parts.len(),
            forall|j: int| 0 <= j < i ==> prefix@[j] == whole@[j],
        decreases prefix.parts.len() - i,
    {
        if !(prefix.parts[i] == whole.parts[i]) {
            assert(prefix@[i as int] != whole@[i as int]);
            return false;
        }
        i = i + 1;
    }
    true
}

/// A path that is already anchored: its first component is the root
/// directory.
pub open spec fn is_absolute(path: Seq<Seq<char>>) -> bool {
    path.len() > 0 && path[0] == "/"@
}

/// `path` anchored against `base`: an absolute path stands as it is, a
/// relative one names a location under `base`.
pub open spec fn anchor(base: Seq<Seq<char>>, path: Seq<Seq<char>>) -> Seq<Seq<char>> {
    if is_absolute(path) {
        path
    } else {
        base + path
    }
}

/// Anchor `path` against `base`, so that paths supplied relative and paths
/// supplied absolute can be compared componentwise.
pub fn anchor_path(base: &RepoPath, path: &RepoPath) -> (anchored: RepoPath)
    ensures
        anchored@ == anchor(base@, path@),
{
    if path.parts.len() > 0 {
        let slash: String = String::from_str("/");
        if path.parts[0] == slash {
            assert(path@[0] == "/"@);
            return path.duplicate();
        }
        assert(path@[0] != "/"@);
    }
    join(base, path)
}

/// `base` and `rel` joined: the components of `base` followed by those of
/// `rel`.
pub fn join(base: &RepoPath, rel: &RepoPath) -> (joined: RepoPath)
    ensures
        joined@ == base@ + rel@,
{
    let mut joined = base.duplicate();
    let mut i: usize = 0;
    while i < rel.parts.len()
        invariant
            i <= rel.parts.len(),
            joined@ == base@ + rel@.take(i as int),
        decreases rel.parts.len() - i,
    {
        let ghost before = joined.parts@;
        joined.parts.push(rel.parts[i].clone());
        proof {
            lemma_part_views_push(before, rel.parts@[i as int]);
            assert((base@ + rel@.take(i as int)).push(rel@[i as int])
                =~= base@ + rel@.take(i + 1));
        }
        i = i + 1;
    }
    assert(rel@.take(rel@.len() as int) =~= rel@);
    joined
}

} // verus!
