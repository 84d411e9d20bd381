use vstd::prelude::*;
use crate::path::{
    RepoPath, anchor, anchor_path, is_prefix_of, is_relevant, is_rust_file,
    lemma_prefixes_same_len_equal, parent_view, path_eq, path_is_prefix,
};

verus! {

/// The views of a sequence of paths.
pub open spec fn path_seq_views(v: Seq<RepoPath>) -> Seq<Seq<Seq<char>>> {
    v.map_values(|p: RepoPath| p@)
}

/// Every path of `v` anchored against `base`.
pub open spec fn anchored_views(v: Seq<Seq<Seq<char>>>, base: Seq<Seq<char>>) -> Seq<
    Seq<Seq<char>>,
> {
    v.map_values(|p: Seq<Seq<char>>| anchor(base, p))
}

/// Root `r` owns file `f` among the discovered `roots`: `r` is one of them,
/// it is an ancestor of `f`, and no discovered ancestor of `f` is deeper.
pub open spec fn owns(roots: Seq<Seq<Seq<char>>>, f: Seq<Seq<char>>, r: Seq<Seq<char>>) -> bool {
    &&& roots.contains(r)
    &&& is_prefix_of(r, f)
    &&& forall|r2: Seq<Seq<char>>|
        roots.contains(r2) && is_prefix_of(r2, f) ==> r2.len() <= r.len()
}

/// Anchored root `r` is affected: some changed file is relevant, and once
/// the file and every discovered root are anchored against the same `base`,
/// `r` owns the file. Anchoring both sides first is what lets a changed
/// file supplied absolute still find a root that was discovered relative.
pub open spec fn resolves_to(
    files: Seq<Seq<Seq<char>>>,
    roots: Seq<Seq<Seq<char>>>,
    base: Seq<Seq<char>>,
    r: Seq<Seq<char>>,
) -> bool {
    exists|f: Seq<Seq<char>>|
        files.contains(f) && is_relevant(f) && owns(anchored_views(roots, base), anchor(base, f), r)
}

/// A file has at most one owner.
pub proof fn lemma_owner_unique(
    roots: Seq<Seq<Seq<char>>>,
    f: Seq<Seq<char>>,
    r1: Seq<Seq<char>>,
    r2: Seq<Seq<char>>,
)
    requires
        owns(roots, f, r1),
        owns(roots, f, r2),
    ensures
        r1 == r2,
{
    lemma_prefixes_same_len_equal(r1, r2, f);
}

/// An affected root is always one of the discovered roots, anchored:
/// resolution never fabricates a root.
pub proof fn lemma_resolved_is_discovered(
    files: Seq<Seq<Seq<char>>>,
    roots: Seq<Seq<Seq<char>>>,
    base: Seq<Seq<char>>,
    r: Seq<Seq<char>>,
)
    requires
        resolves_to(files, roots, base, r),
    ensures
        anchored_views(roots, base).contains(r),
{
}

/// Of two nested roots that both enclose a file, the shallower one never
/// owns it: ownership always goes to the deepest enclosing root.
pub proof fn lemma_nested_tie_break(
    roots: Seq<Seq<Seq<char>>>,
    f: Seq<Seq<char>>,
    shallow: Seq<Seq<char>>,
    deep: Seq<Seq<char>>,
)
    requires
        roots.contains(deep),
        is_prefix_of(deep, f),
        shallow.len() < deep.len(),
    ensures
        !owns(roots, f, shallow),
{
}

/// A file that does not pass the relevance filter contributes nothing: the
/// affected roots of the extended change set are those of the original one.
pub proof fn lemma_irrelevant_file_contributes_nothing(
    files: Seq<Seq<Seq<char>>>,
    roots: Seq<Seq<Seq<char>>>,
    base: Seq<Seq<char>>,
    extra: Seq<Seq<char>>,
    r: Seq<Seq<char>>,
)
    requires
        !is_relevant(extra),
    ensures
        resolves_to(files.push(extra), roots, base, r) == resolves_to(files, roots, base, r),
{
    let roots_a = anchored_views(roots, base);
    if resolves_to(files.push(extra), roots, base, r) {
        let f = choose|f: Seq<Seq<char>>|
            files.push(extra).contains(f) && is_relevant(f) && owns(roots_a, anchor(base, f), r);
        assert(f != extra);
        let i = choose|i: int| 0 <= i < files.push(extra).len() && files.push(extra)[i] == f;
        assert(files[i] == f);
        assert(files.contains(f));
    }
    if resolves_to(files, roots, base, r) {
        let f = choose|f: Seq<Seq<char>>|
            files.contains(f) && is_relevant(f) && owns(roots_a, anchor(base, f), r);
        let i = choose|i: int| 0 <= i < files.len() && files[i] == f;
        assert(files.push(extra)[i] == f);
        assert(files.push(extra).contains(f));
    }
}

/// The deepest discovered root that is an ancestor of `file`, as an index
/// into `roots`; `None` when no discovered root encloses the file.
fn deepest_root(roots: &Vec<RepoPath>, file: &RepoPath) -> (found: Option<usize>)
    ensures
        match found {
            Some(i) => {
                &&& i < roots.len()
                &&& is_prefix_of(roots@[i as int]@, file@)
                &&& forall|j: int|
                    0 <= j < roots@.len() && is_prefix_of(roots@[j]@, file@)
                        ==> roots@[j]@.len() <= roots@[i as int]@.len()
            },
            None => forall|j: int| 0 <= j < roots@.len() ==> !is_prefix_of(roots@[j]@, file@),
        },
{
    let mut best: Option<usize> = None;
    let mut best_depth: usize = 0;
    let mut j: usize = 0;
    while j < roots.len()
        invariant
            j <= roots.len(),
            match best {
                Some(i) => {
                    &&& i < roots.len()
                    &&& is_prefix_of(roots@[i as int]@, file@)
                    &&& best_depth == roots@[i as int]@.len()
                    &&& forall|k: int|
                        0 <= k < j && is_prefix_of(roots@[k]@, file@)
                            ==> roots@[k]@.len() <= roots@[i as int]@.len()
                },
                None => forall|k: int| 0 <= k < j ==> !is_prefix_of(roots@[k]@, file@),
            },
        decreases roots.len() - j,
    {
        if path_is_prefix(&roots[j], file) {
            let depth = roots[j].parts.len();
            assert(depth == roots@[j as int]@.len());
            match best {
                Some(_) => {
                    if depth > best_depth {
                        best = Some(j);
                        best_depth = depth;
                    }
                },
                None => {
                    best = Some(j);
                    best_depth = depth;
                },
            }
        }
        j = j + 1;
    }
    best
}

/// Whether some entry of `v` has the same components as `p`.
fn contains_path(v: &Vec<RepoPath>, p: &RepoPath) -> (found: bool)
    ensures
        found == exists|k: int| 0 <= k < v@.len() && v@[k]@ == p@,
{
    let mut k: usize = 0;
    while k < v.len()
        invariant
            k <= v.len(),
            forall|m: int| 0 <= m < k ==> v@[m]@ != p@,
        decreases v.len() - k,
    {
        if path_eq(&v[k], p) {
            assert(v@[k as int]@ == p@);
            return true;
        }
        k = k + 1;
    }
    false
}

/// The affected set `affected` is exactly the set of anchored roots that
/// own at least one relevant changed file, with no duplicate entries.
pub open spec fn affected_set_matches(
    affected: Seq<Seq<Seq<char>>>,
    files: Seq<Seq<Seq<char>>>,
    roots: Seq<Seq<Seq<char>>>,
    base: Seq<Seq<char>>,
) -> bool {
    &&& forall|k: int|
        0 <= k < affected.len() ==> resolves_to(files, roots, base, #[trigger] affected[k])
    &&& forall|r: Seq<Seq<char>>| resolves_to(files, roots, base, r) ==> affected.contains(r)
    &&& forall|i: int, j: int| 0 <= i < j < affected.len() ==> affected[i] != affected[j]
}

/// Whether some discovered root encloses `f`.
pub open spec fn has_owner(roots: Seq<Seq<Seq<char>>>, f: Seq<Seq<char>>) -> bool {
    exists|r: Seq<Seq<char>>| owns(roots, f, r)
}

/// The root that owns `f`, when one exists.
pub open spec fn owner_of(roots: Seq<Seq<Seq<char>>>, f: Seq<Seq<char>>) -> Seq<Seq<char>> {
    choose|r: Seq<Seq<char>>| owns(roots, f, r)
}

/// Anchor every changed file and every discovered root against `base`, map
/// each relevant changed file to the deepest root that encloses it, skip
/// files that fail the relevance filter or lie under no root, and return
/// the de-duplicated set of anchored affected roots.
pub fn resolve(changed_files: &Vec<RepoPath>, roots: &Vec<RepoPath>, base: &RepoPath) -> (affected:
    Vec<RepoPath>)
    ensures
        affected_set_matches(
            path_seq_views(affected@),
            path_seq_views(changed_files@),
            path_seq_views(roots@),
            base@,
        ),
{
    let ghost files_v = path_seq_views(changed_files@);
    let ghost roots_v = path_seq_views(roots@);
    let ghost roots_a = anchored_views(roots_v, base@);

    let mut anchored: Vec<RepoPath> = Vec::new();
    let mut ai: usize = 0;
    while ai < roots.len()
        invariant
            ai <= roots.len(),
            roots_v == path_seq_views(roots@),
            anchored@.len() == ai,
            forall|j: int| 0 <= j < ai ==> #[trigger] anchored@[j]@ == anchor(base@, roots_v[j]),
        decreases roots.len() - ai,
    {
        let a = anchor_path(base, &roots[ai]);
        assert(a@ == anchor(base@, roots_v[ai as int]));
        anchored.push(a);
        ai = ai + 1;
    }
    proof {
        assert(path_seq_views(anchored@) =~= roots_a);
    }

    let mut affected: Vec<RepoPath> = Vec::new();
    let mut fi: usize = 0;
    while fi < changed_files.len()
        invariant
            fi <= changed_files.len(),
            files_v == path_seq_views(changed_files@),
            roots_v == path_seq_views(roots@),
            roots_a == anchored_views(roots_v, base@),
            path_seq_views(anchored@) == roots_a,
            anchored@.len() == roots_a.len(),
            forall|k: int|
                0 <= k < affected@.len() ==> resolves_to(
                    files_v,
                    roots_v,
                    base@,
                    #[trigger] affected@[k]@,
                ),
            forall|m: int|
                0 <= m < fi && is_relevant(#[trigger] files_v[m]) && has_owner(
                    roots_a,
                    anchor(base@, files_v[m]),
                ) ==> exists|k: int|
                    0 <= k < affected@.len() && affected@[k]@ == owner_of(
                        roots_a,
                        anchor(base@, files_v[m]),
                    ),
            forall|i: int, j: int| 0 <= i < j < affected@.len() ==> affected@[i]@ != affected@[j]@,
        decreases changed_files.len() - fi,
    {
        let file = &changed_files[fi];
        assert(file@ == files_v[fi as int]);
        let relevant = is_rust_file(file);
        if relevant {
            let af = anchor_path(base, file);
            assert(af@ == anchor(base@, files_v[fi as int]));
            let found = deepest_root(&anchored, &af);
            if let Some(idx) = found {
                let entry = anchored[idx].duplicate();
                let ghost r_new = anchored@[idx as int]@;
                proof {
                    assert(roots_a[idx as int] == r_new);
                    assert(roots_a.contains(r_new));
                    assert(owns(roots_a, af@, r_new)) by {
                        assert forall|r2: Seq<Seq<char>>|
                            roots_a.contains(r2) && is_prefix_of(r2, af@) implies r2.len()
                            <= r_new.len() by {
                            let j = choose|j: int| 0 <= j < roots_a.len() && roots_a[j] == r2;
                            assert(anchored@[j]@ == r2);
                            assert(is_prefix_of(anchored@[j]@, af@));
                        }
                    }
                    assert(has_owner(roots_a, af@));
                    lemma_owner_unique(roots_a, af@, owner_of(roots_a, af@), r_new);
                    assert(resolves_to(files_v, roots_v, base@, r_new)) by {
                        assert(files_v.contains(file@));
                    }
                }
                let already = contains_path(&affected, &entry);
                let ghost before = affected@;
                if !already {
                    affected.push(entry);
                    assert(forall|k: int|
                        0 <= k < before.len() ==> affected@[k]@ == #[trigger] before[k]@);
                    assert(affected@[before.len() as int]@ == r_new);
                }
                proof {
                    assert(exists|k: int| 0 <= k < affected@.len() && affected@[k]@ == r_new);
                    assert forall|m: int|
                        0 <= m < fi + 1 && is_relevant(#[trigger] files_v[m]) && has_owner(
                            roots_a,
                            anchor(base@, files_v[m]),
                        ) implies exists|k: int|
                        0 <= k < affected@.len() && affected@[k]@ == owner_of(
                            roots_a,
                            anchor(base@, files_v[m]),
                        ) by {
                        if m < fi {
                            let k = choose|k: int|
                                0 <= k < before.len() && before[k]@ == owner_of(
                                    roots_a,
                                    anchor(base@, files_v[m]),
                                );
                            assert(affected@[k]@ == owner_of(roots_a, anchor(base@, files_v[m])));
                        } else {
                            assert(owner_of(roots_a, anchor(base@, files_v[m])) == r_new);
                        }
                    }
                }
            } else {
                proof {
                    assert(!has_owner(roots_a, anchor(base@, files_v[fi as int]))) by {
                        if has_owner(roots_a, af@) {
                            let r = choose|r: Seq<Seq<char>>| owns(roots_a, af@, r);
                            let j = choose|j: int| 0 <= j < roots_a.len() && roots_a[j] == r;
                            assert(anchored@[j]@ == r);
                            assert(is_prefix_of(anchored@[j]@, af@));
                        }
                    }
                }
            }
        }
        fi = fi + 1;
    }
    proof {
        let affected_v = path_seq_views(affected@);
        assert(forall|k: int| 0 <= k < affected@.len() ==> #[trigger] affected_v[k] == affected@[k]@);
        assert forall|r: Seq<Seq<char>>|
            resolves_to(files_v, roots_v, base@, r) implies affected_v.contains(r) by {
            let f = choose|f: Seq<Seq<char>>|
                files_v.contains(f) && is_relevant(f) && owns(roots_a, anchor(base@, f), r);
            let m = choose|m: int| 0 <= m < files_v.len() && files_v[m] == f;
            assert(files_v.len() == changed_files@.len());
            assert(has_owner(roots_a, anchor(base@, files_v[m])));
            lemma_owner_unique(roots_a, anchor(base@, f), owner_of(roots_a, anchor(base@, f)), r);
            let k = choose|k: int|
                0 <= k < affected@.len() && affected@[k]@ == owner_of(
                    roots_a,
                    anchor(base@, files_v[m]),
                );
            assert(affected_v[k] == r);
        }
    }
    affected
}

proof fn lemma_matches_implies_subset(
    a1: Seq<Seq<Seq<char>>>,
    a2: Seq<Seq<Seq<char>>>,
    files: Seq<Seq<Seq<char>>>,
    roots: Seq<Seq<Seq<char>>>,
    base: Seq<Seq<char>>,
)
    requires
        affected_set_matches(a1, files, roots, base),
        affected_set_matches(a2, files, roots, base),
    ensures
        forall|p: Seq<Seq<char>>| a1.contains(p) ==> a2.contains(p),
{
    assert forall|p: Seq<Seq<char>>| a1.contains(p) implies a2.contains(p) by {
        let k = choose|k: int| 0 <= k < a1.len() && a1[k] == p;
        assert(resolves_to(files, roots, base, a1[k]));
    }
}

/// Resolution is deterministic: two affected sets built from the same
/// changed files, discovered roots and anchor hold exactly the same paths,
/// and as many of them, whatever order either run produced them in.
pub proof fn lemma_resolution_deterministic(
    a1: Seq<Seq<Seq<char>>>,
    a2: Seq<Seq<Seq<char>>>,
    files: Seq<Seq<Seq<char>>>,
    roots: Seq<Seq<Seq<char>>>,
    base: Seq<Seq<char>>,
)
    requires
        affected_set_matches(a1, files, roots, base),
        affected_set_matches(a2, files, roots, base),
    ensures
        forall|p: Seq<Seq<char>>| a1.contains(p) <==> a2.contains(p),
        a1.len() == a2.len(),
{
    lemma_matches_implies_subset(a1, a2, files, roots, base);
    lemma_matches_implies_subset(a2, a1, files, roots, base);
    assert(a1.no_duplicates()) by {
        assert forall|i: int, j: int|
            0 <= i < a1.len() && 0 <= j < a1.len() && i != j implies a1[i] != a1[j] by {
            if i < j {
                assert(a1[i] != a1[j]);
            }
        }
    }
    assert(a2.no_duplicates()) by {
        assert forall|i: int, j: int|
            0 <= i < a2.len() && 0 <= j < a2.len() && i != j implies a2[i] != a2[j] by {
            if i < j {
                assert(a2[i] != a2[j]);
            }
        }
    }
    a1.unique_seq_to_set();
    a2.unique_seq_to_set();
    assert(a1.to_set() =~= a2.to_set());
}

/// However many changed files lie under one root, the affected set holds at
/// most one entry; exactly one when some relevant file resolves to it.
pub proof fn lemma_one_root_one_entry(
    affected: Seq<Seq<Seq<char>>>,
    files: Seq<Seq<Seq<char>>>,
    roots: Seq<Seq<Seq<char>>>,
    base: Seq<Seq<char>>,
    r0: Seq<Seq<char>>,
)
    requires
        affected_set_matches(affected, files, roots, base),
        forall|f: Seq<Seq<char>>|
            files.contains(f) && is_relevant(f) ==> #[trigger] owns(
                anchored_views(roots, base),
                anchor(base, f),
                r0,
            ),
    ensures
        affected.len() <= 1,
        resolves_to(files, roots, base, r0) ==> affected == seq![r0],
{
    let roots_a = anchored_views(roots, base);
    assert forall|k: int| 0 <= k < affected.len() implies affected[k] == r0 by {
        assert(resolves_to(files, roots, base, affected[k]));
        let f = choose|f: Seq<Seq<char>>|
            files.contains(f) && is_relevant(f) && owns(roots_a, anchor(base, f), affected[k]);
        assert(owns(roots_a, anchor(base, f), r0));
        lemma_owner_unique(roots_a, anchor(base, f), affected[k], r0);
    }
    if affected.len() >= 2 {
        assert(affected[0] == affected[1]);
        assert(false);
    }
    if resolves_to(files, roots, base, r0) {
        assert(affected.contains(r0));
        assert(affected.len() == 1);
        assert(affected =~= seq![r0]);
    }
}

/// A change set with no relevant file, in particular an empty one, yields an
/// empty affected set.
pub proof fn lemma_no_relevant_file_no_roots(
    affected: Seq<Seq<Seq<char>>>,
    files: Seq<Seq<Seq<char>>>,
    roots: Seq<Seq<Seq<char>>>,
    base: Seq<Seq<char>>,
)
    requires
        affected_set_matches(affected, files, roots, base),
        forall|f: Seq<Seq<char>>| files.contains(f) ==> !is_relevant(f),
    ensures
        affected.len() == 0,
{
    if affected.len() > 0 {
        assert(resolves_to(files, roots, base, affected[0]));
        let f = choose|f: Seq<Seq<char>>|
            files.contains(f) && is_relevant(f) && owns(
                anchored_views(roots, base),
                anchor(base, f),
                affected[0],
            );
        assert(!is_relevant(f));
    }
}

/// Parent directory of each discovered marker file: every directory that
/// directly holds a build-manifest marker is a project root.
pub fn find_cargo_root_dirs(marker_paths: &Vec<RepoPath>) -> (dirs: Vec<RepoPath>)
    ensures
        dirs@.len() == marker_paths@.len(),
        forall|k: int| 0 <= k < dirs@.len() ==> dirs@[k]@ == parent_view(marker_paths@[k]@),
{
    let mut dirs: Vec<RepoPath> = Vec::new();
    let mut i: usize = 0;
    while i < marker_paths.len()
        invariant
            i <= marker_paths.len(),
            dirs@.len() == i,
            forall|k: int| 0 <= k < i ==> dirs@[k]@ == parent_view(marker_paths@[k]@),
        decreases marker_paths.len() - i,
    {
        let dir = marker_paths[i].parent();
        dirs.push(dir);
        i = i + 1;
    }
    dirs
}

} // verus!
