//! Mapping a branch of the company directory into a project group's departments.
use crate::ids::{is_short_id, unused_id};
use crate::org::departments::{delete_refusal, department_with_id, not_department_key};
use crate::org::error::{bad_request, OrgError, OrgErrorView};
use crate::org::models::{
    DepartmentRow, DepartmentRowView, DirectoryDepartmentRef, DirectoryDepartmentRefView,
    DirectoryMapReport, UserOrgRowView,
};
use crate::org::service::{OrgService, OrgState};
use crate::table::{any, find_where, first, lemma_filter_step, lemma_no_repeat_len, map_rows, views};
use crate::text::{
    cat, clone_opt, has_text, opt_is, opt_text, same, texts, trim, trimmed_text,
};
use vstd::prelude::*;

verus! {

pub open spec fn entry_of(ext: Seq<char>) -> spec_fn(DirectoryDepartmentRefView) -> bool {
    |d: DirectoryDepartmentRefView| d.external_id == ext
}

/// An entry of the directory that puts `child` directly under `parent`.
pub open spec fn link(parent: Seq<char>, child: Seq<char>) -> spec_fn(
    DirectoryDepartmentRefView,
) -> bool {
    |d: DirectoryDepartmentRefView|
        d.parent_external_id == Some(parent) && d.external_id == child
}

/// Whether the directory puts `child` directly under `parent`.
pub open spec fn edge(
    all: Seq<DirectoryDepartmentRefView>,
    parent: Seq<char>,
    child: Seq<char>,
) -> bool {
    any(all, link(parent, child))
}

/// A way down the directory from the root to `ext`.
pub open spec fn is_path(
    all: Seq<DirectoryDepartmentRefView>,
    root: Seq<char>,
    ext: Seq<char>,
    path: Seq<Seq<char>>,
) -> bool {
    &&& path.len() > 0
    &&& path[0] == root
    &&& path.last() == ext
    &&& forall|k: int| 0 < k < path.len() ==> edge(all, path[k - 1], #[trigger] path[k])
}

/// Whether `ext` is the root or lies below it.
pub open spec fn in_subtree(
    all: Seq<DirectoryDepartmentRefView>,
    root: Seq<char>,
    ext: Seq<char>,
) -> bool {
    exists|path: Seq<Seq<char>>| #[trigger] is_path(all, root, ext, path)
}

/// The external ids of directory entries.
pub open spec fn ext_ids(nodes: Seq<DirectoryDepartmentRefView>) -> Seq<Seq<char>> {
    nodes.map_values(|d: DirectoryDepartmentRefView| d.external_id)
}

/// Some earlier element of the list is directly above the one at `k`.
pub open spec fn has_earlier_parent(
    all: Seq<DirectoryDepartmentRefView>,
    exts: Seq<Seq<char>>,
    k: int,
) -> bool {
    exists|j: int| 0 <= j < k && edge(all, #[trigger] exts[j], exts[k])
}

/// Entry `m` of the directory is the first that puts the element at `k` under the one at `j`, and
/// no earlier element has it directly below.
pub open spec fn found_at(
    all: Seq<DirectoryDepartmentRefView>,
    exts: Seq<Seq<char>>,
    k: int,
    j: int,
    m: int,
) -> bool {
    &&& 0 <= j < k < exts.len()
    &&& 0 <= m < all.len()
    &&& link(exts[j], exts[k])(all[m])
    &&& forall|i: int| 0 <= i < j ==> !edge(all, #[trigger] exts[i], exts[k])
    &&& forall|n: int| 0 <= n < m ==> !link(exts[j], exts[k])(#[trigger] all[n])
}

/// Departments come in the order of the ones that they lie under, and below one of these in the
/// order of the directory.
pub open spec fn breadth_first(
    all: Seq<DirectoryDepartmentRefView>,
    exts: Seq<Seq<char>>,
) -> bool {
    forall|k: int, j: int, m: int, k2: int, j2: int, m2: int|
        k < k2 && #[trigger] found_at(all, exts, k, j, m) && #[trigger] found_at(
            all,
            exts,
            k2,
            j2,
            m2,
        ) ==> j < j2 || (j == j2 && m < m2)
}

/// The branch under the root, each department once, breadth first: the root first and every
/// other department after one that it lies directly under.
pub open spec fn is_branch(
    all: Seq<DirectoryDepartmentRefView>,
    root: Seq<char>,
    exts: Seq<Seq<char>>,
) -> bool {
    &&& exts.len() > 0
    &&& exts[0] == root
    &&& exts.no_duplicates()
    &&& forall|ext: Seq<char>| #[trigger] exts.contains(ext) <==> in_subtree(all, root, ext)
    &&& forall|k: int| 0 < k < exts.len() ==> #[trigger] has_earlier_parent(all, exts, k)
    &&& breadth_first(all, exts)
}

/// The entries of the branch, each the directory's first for its external id.
pub open spec fn is_plan(
    all: Seq<DirectoryDepartmentRefView>,
    root: Seq<char>,
    nodes: Seq<DirectoryDepartmentRefView>,
) -> bool {
    &&& is_branch(all, root, ext_ids(nodes))
    &&& forall|k: int|
        0 <= k < nodes.len() ==> first(all, entry_of((#[trigger] nodes[k]).external_id)) == Some(
            nodes[k],
        )
}

/// A department that the mapping of this root owns.
pub open spec fn owned_by(tenant_id: Seq<char>, root: Seq<char>) -> spec_fn(
    DepartmentRowView,
) -> bool {
    |r: DepartmentRowView|
        r.tenant_id == tenant_id && r.source == Some("directory"@)
            && r.directory_map_root_external_id == Some(root)
}

/// A department that the mapping of this root owns for an external id.
pub open spec fn mapped_to(tenant_id: Seq<char>, root: Seq<char>, ext: Seq<char>) -> spec_fn(
    DepartmentRowView,
) -> bool {
    |r: DepartmentRowView|
        owned_by(tenant_id, root)(r) && r.directory_external_id == Some(ext)
}

/// The department that stands for an external id.
pub open spec fn mapped_id(
    departments: Seq<DepartmentRowView>,
    tenant_id: Seq<char>,
    root: Seq<char>,
    ext: Seq<char>,
) -> Option<Seq<char>> {
    match first(departments, mapped_to(tenant_id, root, ext)) {
        Some(r) => Some(r.id),
        None => None,
    }
}

/// The department that a directory entry goes under: none for the root, whatever the directory
/// has above it.
pub open spec fn local_parent(
    departments: Seq<DepartmentRowView>,
    tenant_id: Seq<char>,
    root: Seq<char>,
    node: DirectoryDepartmentRefView,
) -> Option<Seq<char>> {
    if node.external_id == root {
        None
    } else {
        match node.parent_external_id {
            Some(p) => mapped_id(departments, tenant_id, root, p),
            None => None,
        }
    }
}

/// The departments after one directory entry was written: the department that stands for it is
/// updated in place, or a new one is made.
pub open spec fn written(
    departments: Seq<DepartmentRowView>,
    tenant_id: Seq<char>,
    root: Seq<char>,
    node: DirectoryDepartmentRefView,
    id: Seq<char>,
    now: i64,
) -> Seq<DepartmentRowView> {
    let parent_id = local_parent(departments, tenant_id, root, node);
    match mapped_id(departments, tenant_id, root, node.external_id) {
        Some(existing) => departments.map_values(
            |r: DepartmentRowView|
                if r.id == existing {
                    DepartmentRowView { name: node.name, parent_id, updated_at: now, ..r }
                } else {
                    r
                },
        ),
        None => departments.push(
            DepartmentRowView {
                id,
                tenant_id,
                parent_id,
                name: node.name,
                source: Some("directory"@),
                directory_external_id: Some(node.external_id),
                directory_map_root_external_id: Some(root),
                created_at: now,
                updated_at: now,
            },
        ),
    }
}

/// What writing the entries of a branch leads to.
pub struct MapProgress {
    pub departments: Seq<DepartmentRowView>,
    pub created: Seq<Seq<char>>,
    pub updated: Seq<Seq<char>>,
}

/// The entries written one after the other.
pub open spec fn all_written(
    departments: Seq<DepartmentRowView>,
    tenant_id: Seq<char>,
    root: Seq<char>,
    nodes: Seq<DirectoryDepartmentRefView>,
    ids: Seq<Seq<char>>,
    now: i64,
) -> MapProgress
    decreases nodes.len(),
{
    if nodes.len() == 0 {
        MapProgress { departments, created: Seq::empty(), updated: Seq::empty() }
    } else {
        let so_far = all_written(departments, tenant_id, root, nodes.drop_last(), ids, now);
        let node = nodes.last();
        let after = written(
            so_far.departments,
            tenant_id,
            root,
            node,
            ids[nodes.len() - 1],
            now,
        );
        if mapped_id(so_far.departments, tenant_id, root, node.external_id) is Some {
            MapProgress {
                departments: after,
                created: so_far.created,
                updated: so_far.updated.push(node.name),
            }
        } else {
            MapProgress {
                departments: after,
                created: so_far.created.push(node.name),
                updated: so_far.updated,
            }
        }
    }
}

/// A department that the mapping owns for an external id outside the branch.
pub open spec fn fell_out(tenant_id: Seq<char>, root: Seq<char>, exts: Seq<Seq<char>>) -> spec_fn(
    DepartmentRowView,
) -> bool {
    |r: DepartmentRowView|
        owned_by(tenant_id, root)(r) && (r.directory_external_id matches Some(ext)
            && !exts.contains(ext))
}

/// What removing departments leads to.
pub struct PruneProgress {
    pub departments: Seq<DepartmentRowView>,
    pub removed: Seq<Seq<char>>,
    pub kept: Seq<Seq<char>>,
}

/// The departments deleted one after the other, save those that still hold something.
pub open spec fn all_pruned(
    departments: Seq<DepartmentRowView>,
    members: Seq<UserOrgRowView>,
    tenant_id: Seq<char>,
    stale: Seq<DepartmentRowView>,
) -> PruneProgress
    decreases stale.len(),
{
    if stale.len() == 0 {
        PruneProgress { departments, removed: Seq::empty(), kept: Seq::empty() }
    } else {
        let so_far = all_pruned(departments, members, tenant_id, stale.drop_last());
        let r = stale.last();
        if delete_refusal(so_far.departments, members, tenant_id, r.id) is None {
            PruneProgress {
                departments: so_far.departments.filter(not_department_key(r.id, tenant_id)),
                removed: so_far.removed.push(r.name),
                kept: so_far.kept,
            }
        } else {
            PruneProgress {
                departments: so_far.departments,
                removed: so_far.removed,
                kept: so_far.kept.push(r.name),
            }
        }
    }
}

/// The state and the report after the entries of a branch were mapped.
pub open spec fn branch_mapped(
    before: OrgState,
    after: OrgState,
    report: DirectoryMapReport,
    tenant_id: Seq<char>,
    root: Seq<char>,
    nodes: Seq<DirectoryDepartmentRefView>,
    ids: Seq<Seq<char>>,
    now: i64,
) -> bool {
    let wrote = all_written(before.departments, tenant_id, root, nodes, ids, now);
    let stale = before.departments.filter(fell_out(tenant_id, root, ext_ids(nodes)));
    let pruned = all_pruned(wrote.departments, before.members, tenant_id, stale);
    &&& after == (OrgState { departments: pruned.departments, ..before })
    &&& report@.created == wrote.created
    &&& report@.updated == wrote.updated
    &&& report@.removed == pruned.removed
    &&& report@.kept_with_local_data == pruned.kept
}

proof fn lemma_path_inside(
    all: Seq<DirectoryDepartmentRefView>,
    root: Seq<char>,
    exts: Seq<Seq<char>>,
    ext: Seq<char>,
    path: Seq<Seq<char>>,
)
    requires
        exts.contains(root),
        forall|j: int, c: Seq<char>|
            0 <= j < exts.len() && #[trigger] edge(all, exts[j], c) ==> exts.contains(c),
        is_path(all, root, ext, path),
    ensures
        exts.contains(ext),
    decreases path.len(),
{
    if path.len() > 1 {
        let up = path.drop_last();
        assert forall|k: int| 0 < k < up.len() implies edge(all, up[k - 1], #[trigger] up[k]) by {
            assert(edge(all, path[k - 1], path[k]));
        }
        lemma_path_inside(all, root, exts, up.last(), up);
        let j = choose|j: int| 0 <= j < exts.len() && exts[j] == up.last();
        assert(edge(all, path[path.len() - 2], path[path.len() - 1]));
        assert(edge(all, exts[j], ext));
    }
}

/// The external ids of the branch under the root, breadth first.
pub fn branch_of(all: &Vec<DirectoryDepartmentRef>, root: &str) -> (out: Vec<String>)
    requires
        any(views(all@), entry_of(root@)),
    ensures
        is_branch(views(all@), root@, texts(out@)),
        forall|k: int|
            0 <= k < out.len() ==> any(views(all@), entry_of(#[trigger] texts(out@)[k])),
{
    let ghost dir = views(all@);
    let ghost r = root@;
    let ghost known = ext_ids(dir);
    let mut out: Vec<String> = Vec::new();
    out.push(root.to_owned());
    let mut i: usize = 0;
    proof {
        assert(texts(out@) =~= seq![r]);
        assert(is_path(dir, r, r, seq![r]));
        assert(in_subtree(dir, r, r));
        let m = choose|m: int| 0 <= m < dir.len() && entry_of(r)(#[trigger] dir[m]);
        assert(known[m] == r);
        assert(sound_branch(dir, r, texts(out@)));
    }
    while i < out.len()
        invariant
            dir == views(all@),
            r == root@,
            known == ext_ids(dir),
            i <= out.len() <= dir.len(),
            sound_branch(dir, r, texts(out@)),
            found_before(dir, texts(out@), i as int, 0),
            forall|j: int, c: Seq<char>|
                0 <= j < i && #[trigger] edge(dir, texts(out@)[j], c) ==> texts(out@).contains(c),
        decreases dir.len() - i,
    {
        let parent = out[i].clone();
        let ghost at_start = texts(out@);
        let mut k: usize = 0;
        while k < all.len()
            invariant
                dir == views(all@),
                r == root@,
                known == ext_ids(dir),
                k <= all.len(),
                i < out.len(),
                at_start.len() <= out.len(),
                at_start == texts(out@).take(at_start.len() as int),
                i < at_start.len(),
                parent@ == at_start[i as int],
                sound_branch(dir, r, texts(out@)),
                found_before(dir, texts(out@), i as int, k as int),
                forall|j: int, c: Seq<char>|
                    0 <= j < i && #[trigger] edge(dir, at_start[j], c) ==> at_start.contains(c),
                forall|m: int|
                    0 <= m < k && (#[trigger] dir[m]).parent_external_id == Some(parent@)
                        ==> texts(out@).contains(dir[m].external_id),
            decreases all.len() - k,
        {
            if opt_is(&all[k].parent_external_id, parent.as_str()) && !has_text(
                &out,
                all[k].external_id.as_str(),
            ) {
                let ghost before = texts(out@);
                out.push(all[k].external_id.clone());
                proof {
                    assert(texts(out@) =~= before.push(dir[k as int].external_id));
                    assert(link(parent@, dir[k as int].external_id)(dir[k as int]));
                    assert(before[i as int] == at_start[i as int]);
                    lemma_branch_push(dir, r, before, i as int, k as int);
                    assert forall|j: int| 0 <= j < i implies !edge(
                        dir,
                        #[trigger] before[j],
                        dir[k as int].external_id,
                    ) by {
                        assert(before[j] == at_start[j]);
                        if edge(dir, at_start[j], dir[k as int].external_id) {
                            let q = choose|q: int|
                                0 <= q < at_start.len() && at_start[q]
                                    == dir[k as int].external_id;
                            assert(before[q] == at_start[q]);
                        }
                    }
                    lemma_found_push(dir, before, i as int, k as int);
                    assert(texts(out@).take(at_start.len() as int) =~= at_start);
                    assert forall|m: int|
                        0 <= m < k + 1 && (#[trigger] dir[m]).parent_external_id == Some(
                            parent@,
                        ) implies texts(out@).contains(dir[m].external_id) by {
                        if m < k {
                            let q = choose|q: int|
                                0 <= q < before.len() && before[q] == dir[m].external_id;
                            assert(texts(out@)[q] == dir[m].external_id);
                        } else {
                            assert(texts(out@)[before.len() as int] == dir[m].external_id);
                        }
                    }
                }
            }
            k = k + 1;
        }
        proof {
            let now_out = texts(out@);
            assert forall|j: int, c: Seq<char>|
                0 <= j < i + 1 && #[trigger] edge(dir, now_out[j], c) implies now_out.contains(
                c,
            ) by {
                assert(now_out[j] == at_start[j]);
                if j < i {
                    assert(edge(dir, at_start[j], c));
                    assert(at_start.contains(c));
                    let q = choose|q: int| 0 <= q < at_start.len() && at_start[q] == c;
                    assert(now_out[q] == c);
                } else {
                    let m = choose|m: int|
                        0 <= m < dir.len() && link(parent@, c)(#[trigger] dir[m]);
                    assert(dir[m].parent_external_id == Some(parent@));
                }
            }
            lemma_no_repeat_len(now_out, known);
        }
        i = i + 1;
    }
    proof {
        let exts = texts(out@);
        assert(exts.contains(r)) by {
            assert(exts[0] == r);
        }
        assert forall|ext: Seq<char>| #[trigger] exts.contains(ext) <==> in_subtree(
            dir,
            r,
            ext,
        ) by {
            if exts.contains(ext) {
                let q = choose|q: int| 0 <= q < exts.len() && exts[q] == ext;
                assert(in_subtree(dir, r, exts[q]));
            }
            if in_subtree(dir, r, ext) {
                let path = choose|path: Seq<Seq<char>>| #[trigger] is_path(dir, r, ext, path);
                lemma_path_inside(dir, r, exts, ext, path);
            }
        }
    }
    out
}

/// All that was found so far was found before entry `m` below the element at `j`, in order.
spec fn found_before(
    all: Seq<DirectoryDepartmentRefView>,
    exts: Seq<Seq<char>>,
    j: int,
    m: int,
) -> bool {
    &&& breadth_first(all, exts)
    &&& forall|k: int, j1: int, m1: int| #[trigger]
        found_at(all, exts, k, j1, m1) ==> j1 < j || (j1 == j && m1 < m)
}

proof fn lemma_found_prefix(
    all: Seq<DirectoryDepartmentRefView>,
    exts: Seq<Seq<char>>,
    ext: Seq<char>,
    k: int,
    j: int,
    m: int,
)
    requires
        found_at(all, exts.push(ext), k, j, m),
        k < exts.len(),
    ensures
        found_at(all, exts, k, j, m),
{
    let more = exts.push(ext);
    assert forall|i: int| 0 <= i < j implies !edge(all, #[trigger] exts[i], exts[k]) by {
        assert(!edge(all, more[i], more[k]));
    }
}

/// The first entry below the element at `j` that names something new comes next.
proof fn lemma_found_push(
    all: Seq<DirectoryDepartmentRefView>,
    exts: Seq<Seq<char>>,
    j: int,
    m: int,
)
    requires
        found_before(all, exts, j, m),
        0 <= j < exts.len(),
        0 <= m < all.len(),
        link(exts[j], all[m].external_id)(all[m]),
        forall|i: int| 0 <= i < j ==> !edge(all, #[trigger] exts[i], all[m].external_id),
        forall|n: int|
            0 <= n < m && (#[trigger] all[n]).parent_external_id == Some(exts[j]) ==> exts.contains(
                all[n].external_id,
            ),
        !exts.contains(all[m].external_id),
    ensures
        found_before(all, exts.push(all[m].external_id), j, m + 1),
{
    let ext = all[m].external_id;
    let more = exts.push(ext);
    assert forall|k: int, j1: int, m1: int| #[trigger] found_at(all, more, k, j1, m1) implies j1 < j
        || (j1 == j && m1 < m + 1) by {
        if k < exts.len() {
            lemma_found_prefix(all, exts, ext, k, j1, m1);
        } else {
            lemma_found_last(all, exts, j, m, j1, m1);
        }
    }
    assert forall|k: int, j1: int, m1: int, k2: int, j2: int, m2: int|
        k < k2 && #[trigger] found_at(all, more, k, j1, m1) && #[trigger] found_at(
            all,
            more,
            k2,
            j2,
            m2,
        ) implies j1 < j2 || (j1 == j2 && m1 < m2) by {
        lemma_found_prefix(all, exts, ext, k, j1, m1);
        if k2 < exts.len() {
            lemma_found_prefix(all, exts, ext, k2, j2, m2);
        } else {
            lemma_found_last(all, exts, j, m, j2, m2);
        }
    }
}

proof fn lemma_found_last(
    all: Seq<DirectoryDepartmentRefView>,
    exts: Seq<Seq<char>>,
    j: int,
    m: int,
    j1: int,
    m1: int,
)
    requires
        0 <= j < exts.len(),
        0 <= m < all.len(),
        link(exts[j], all[m].external_id)(all[m]),
        forall|i: int| 0 <= i < j ==> !edge(all, #[trigger] exts[i], all[m].external_id),
        forall|n: int|
            0 <= n < m && (#[trigger] all[n]).parent_external_id == Some(exts[j]) ==> exts.contains(
                all[n].external_id,
            ),
        !exts.contains(all[m].external_id),
        found_at(all, exts.push(all[m].external_id), exts.len() as int, j1, m1),
    ensures
        j1 == j && m1 == m,
{
    let ext = all[m].external_id;
    let more = exts.push(ext);
    let k = exts.len() as int;
    assert(edge(all, exts[j1], ext)) by {
        assert(link(exts[j1], ext)(all[m1]));
    }
    assert(edge(all, more[j], more[k])) by {
        assert(link(exts[j], ext)(all[m]));
    }
    assert(j1 == j);
    if m1 < m {
        assert(exts.contains(all[m1].external_id));
    }
    if m < m1 {
        assert(!link(more[j1], more[k])(all[m]));
    }
}

/// What holds of a branch while it is collected.
spec fn sound_branch(
    all: Seq<DirectoryDepartmentRefView>,
    root: Seq<char>,
    exts: Seq<Seq<char>>,
) -> bool {
    &&& exts.len() > 0
    &&& exts[0] == root
    &&& exts.no_duplicates()
    &&& forall|k: int| 0 <= k < exts.len() ==> in_subtree(all, root, #[trigger] exts[k])
    &&& forall|k: int| 0 <= k < exts.len() ==> any(all, entry_of(#[trigger] exts[k]))
    &&& forall|k: int| 0 <= k < exts.len() ==> ext_ids(all).contains(#[trigger] exts[k])
    &&& forall|k: int| 0 < k < exts.len() ==> #[trigger] has_earlier_parent(all, exts, k)
}

proof fn lemma_branch_push(
    all: Seq<DirectoryDepartmentRefView>,
    root: Seq<char>,
    exts: Seq<Seq<char>>,
    above: int,
    entry: int,
)
    requires
        sound_branch(all, root, exts),
        0 <= above < exts.len(),
        0 <= entry < all.len(),
        link(exts[above], all[entry].external_id)(all[entry]),
        !exts.contains(all[entry].external_id),
    ensures
        sound_branch(all, root, exts.push(all[entry].external_id)),
{
    let ext = all[entry].external_id;
    let more = exts.push(ext);
    assert(edge(all, exts[above], ext));
    assert(in_subtree(all, root, exts[above]));
    let path = choose|path: Seq<Seq<char>>| #[trigger] is_path(all, root, exts[above], path);
    let longer = path.push(ext);
    assert forall|k: int| 0 < k < longer.len() implies edge(
        all,
        longer[k - 1],
        #[trigger] longer[k],
    ) by {
        if k < path.len() {
            assert(edge(all, path[k - 1], path[k]));
        }
    }
    assert(is_path(all, root, ext, longer));
    assert(in_subtree(all, root, ext));
    assert(entry_of(ext)(all[entry]));
    assert(ext_ids(all)[entry] == ext);
    assert forall|k: int| 0 < k < more.len() implies #[trigger] has_earlier_parent(
        all,
        more,
        k,
    ) by {
        if k < exts.len() {
            assert(has_earlier_parent(all, exts, k));
            let j = choose|j: int| 0 <= j < k && edge(all, #[trigger] exts[j], exts[k]);
            assert(edge(all, more[j], more[k]));
        } else {
            assert(edge(all, more[above], more[k]));
        }
    }
    assert forall|i: int, j: int| 0 <= i < more.len() && 0 <= j < more.len() && i != j implies more[i]
        != more[j] by {
        if i == exts.len() {
            assert(exts.contains(exts[j]));
        } else if j == exts.len() {
            assert(exts.contains(exts[i]));
        }
    }
}

/// The message for a branch that another mapping already covers.
pub open spec fn overlap_message(name: Seq<char>) -> Seq<char> {
    "'"@ + name
        + "' is already mapped by a different directory mapping in this project group; overlapping mappings are not supported"@
}

/// No two departments share an identifier.
pub open spec fn unique_ids(departments: Seq<DepartmentRowView>) -> bool {
    forall|i: int, j: int|
        0 <= i < departments.len() && 0 <= j < departments.len() && i != j ==> (
        #[trigger] departments[i]).id != (#[trigger] departments[j]).id
}

/// No department has one of the identifiers.
pub open spec fn ids_unused(departments: Seq<DepartmentRowView>, ids: Seq<Seq<char>>) -> bool {
    forall|k: int| 0 <= k < ids.len() ==> !any(departments, department_with_id(#[trigger] ids[k]))
}

/// Whether identifiers were made for departments.
pub open spec fn department_ids(ids: Seq<Seq<char>>) -> bool {
    forall|k: int| 0 <= k < ids.len() ==> is_short_id("dept"@, #[trigger] ids[k])
}

/// The state and the report after the branch under the root was mapped, with some identifiers that
/// no department had.
pub open spec fn subtree_mapped(
    before: OrgState,
    after: OrgState,
    report: DirectoryMapReport,
    tenant_id: Seq<char>,
    root: Seq<char>,
    all: Seq<DirectoryDepartmentRefView>,
    now: i64,
) -> bool {
    exists|nodes: Seq<DirectoryDepartmentRefView>, ids: Seq<Seq<char>>|
        is_plan(all, root, nodes) && ids.len() == nodes.len() && department_ids(ids)
            && ids.no_duplicates() && ids_unused(before.departments, ids)
            && #[trigger] branch_mapped(before, after, report, tenant_id, root, nodes, ids, now)
}

/// Why a branch of the directory is not mapped.
pub open spec fn map_refusal(
    st: OrgState,
    tenant_id: Seq<char>,
    root: Seq<char>,
    all: Seq<DirectoryDepartmentRefView>,
) -> Option<OrgErrorView> {
    if root.len() == 0 {
        Some(OrgErrorView::BadRequest("a directory department must be selected"@))
    } else if all.len() == 0 {
        Some(
            OrgErrorView::BadRequest(
                "no company directory data to map yet; sync the directory first"@,
            ),
        )
    } else if !any(all, entry_of(root)) {
        Some(OrgErrorView::BadRequest("unknown directory department"@))
    } else {
        match first(st.departments, overlaps(tenant_id, root, all)) {
            Some(r) => Some(OrgErrorView::BadRequest(overlap_message(r.name))),
            None => None,
        }
    }
}

/// A department for the branch under the root that the mapping of another root owns.
pub open spec fn overlaps(
    tenant_id: Seq<char>,
    root: Seq<char>,
    all: Seq<DirectoryDepartmentRefView>,
) -> spec_fn(DepartmentRowView) -> bool {
    |r: DepartmentRowView|
        {
            &&& r.tenant_id == tenant_id
            &&& r.source == Some("directory"@)
            &&& r.directory_map_root_external_id matches Some(other) && other != root
            &&& r.directory_external_id matches Some(ext) && in_subtree(all, root, ext)
        }
}

impl OrgService {
    fn mapped_department(&self, tenant_id: &str, root: &str, ext: &str) -> (r: Option<String>)
        ensures
            opt_text(r) == mapped_id(self@.departments, tenant_id@, root@, ext@),
    {
        let f = |r: &DepartmentRow| -> (b: bool)
            ensures
                b == mapped_to(tenant_id@, root@, ext@)(r@),
            {
                same(r.tenant_id.as_str(), tenant_id) && opt_is(&r.source, "directory") && opt_is(
                    &r.directory_map_root_external_id,
                    root,
                ) && opt_is(&r.directory_external_id, ext)
            };
        match find_where(&self.departments, f, Ghost(mapped_to(tenant_id@, root@, ext@))) {
            Some(i) => Some(self.departments[i].id.clone()),
            None => None,
        }
    }

    /// Writes one directory entry; `true` where that made a department.
    fn write_node(
        &mut self,
        tenant_id: &str,
        root: &str,
        node: &DirectoryDepartmentRef,
        id: &str,
        now: i64,
    ) -> (made: bool)
        ensures
            made == (mapped_id(old(self)@.departments, tenant_id@, root@, node@.external_id)
                is None),
            final(self)@ == (OrgState {
                departments: written(
                    old(self)@.departments,
                    tenant_id@,
                    root@,
                    node@,
                    id@,
                    now,
                ),
                ..old(self)@
            }),
    {
        let parent_id: Option<String> = if same(node.external_id.as_str(), root) {
            None
        } else {
            match &node.parent_external_id {
                Some(p) => self.mapped_department(tenant_id, root, p.as_str()),
                None => None,
            }
        };
        match self.mapped_department(tenant_id, root, node.external_id.as_str()) {
            Some(existing) => {
                let ghost above = opt_text(parent_id);
                let ghost g = |r: DepartmentRowView|
                    if r.id == existing@ {
                        DepartmentRowView {
                            name: node@.name,
                            parent_id: above,
                            updated_at: now,
                            ..r
                        }
                    } else {
                        r
                    };
                let u = |r: &DepartmentRow| -> (y: DepartmentRow)
                    ensures
                        y@ == g(r@),
                    {
                        let mut y = r.copy();
                        if same(r.id.as_str(), existing.as_str()) {
                            y.name = node.name.clone();
                            y.parent_id = clone_opt(&parent_id);
                            y.updated_at = now;
                        }
                        y
                    };
                map_rows(&mut self.departments, u, Ghost(g));
                false
            },
            None => {
                let ghost before = self@.departments;
                let row = DepartmentRow {
                    id: id.to_owned(),
                    tenant_id: tenant_id.to_owned(),
                    parent_id,
                    name: node.name.clone(),
                    source: Some("directory".to_owned()),
                    directory_external_id: Some(node.external_id.clone()),
                    directory_map_root_external_id: Some(root.to_owned()),
                    created_at: now,
                    updated_at: now,
                };
                self.departments.push(row);
                proof {
                    assert(self@.departments =~= before.push(row@));
                }
                true
            },
        }
    }

    /// The departments that the mapping owns outside the branch, with their names.
    fn stale_departments(&self, tenant_id: &str, root: &str, exts: &Vec<String>) -> (out: Vec<
        DepartmentRow,
    >)
        ensures
            views(out@) == self@.departments.filter(fell_out(tenant_id@, root@, texts(exts@))),
    {
        let ghost all = self@.departments;
        let ghost p = fell_out(tenant_id@, root@, texts(exts@));
        let mut out: Vec<DepartmentRow> = Vec::new();
        let mut i: usize = 0;
        proof {
            reveal(Seq::filter);
            assert(all.take(0) =~= Seq::empty());
            assert(views(out@) =~= Seq::empty());
        }
        while i < self.departments.len()
            invariant
                all == self@.departments,
                p == fell_out(tenant_id@, root@, texts(exts@)),
                i <= self.departments.len(),
                views(out@) == all.take(i as int).filter(p),
            decreases self.departments.len() - i,
        {
            let r = &self.departments[i];
            let owned = same(r.tenant_id.as_str(), tenant_id) && opt_is(&r.source, "directory")
                && opt_is(&r.directory_map_root_external_id, root);
            let outside = match &r.directory_external_id {
                Some(ext) => !has_text(exts, ext.as_str()),
                None => false,
            };
            proof {
                lemma_filter_step(all, p, i as int);
                assert(all[i as int] == r@);
            }
            if owned && outside {
                let ghost before = out@;
                out.push(r.copy());
                proof {
                    assert(views(out@) =~= views(before).push(r@));
                }
            }
            i = i + 1;
        }
        proof {
            assert(all.take(i as int) =~= all);
        }
        out
    }

    /// Maps the entries of a branch, parents first. Entry `k` gets the identifier `ids[k]` where
    /// it has no department yet.
    pub fn map_branch(
        &mut self,
        tenant_id: &str,
        root: &str,
        nodes: &Vec<DirectoryDepartmentRef>,
        ids: &Vec<String>,
        now: i64,
    ) -> (report: DirectoryMapReport)
        requires
            ids.len() == nodes.len(),
        ensures
            branch_mapped(
                old(self)@,
                final(self)@,
                report,
                tenant_id@,
                root@,
                views(nodes@),
                texts(ids@),
                now,
            ),
    {
        let ghost start = self@;
        let ghost plan = views(nodes@);
        let ghost fresh = texts(ids@);
        let mut exts: Vec<String> = Vec::new();
        let mut i: usize = 0;
        proof {
            assert(texts(exts@) =~= ext_ids(plan).take(0));
        }
        while i < nodes.len()
            invariant
                plan == views(nodes@),
                i <= nodes.len(),
                texts(exts@) == ext_ids(plan).take(i as int),
            decreases nodes.len() - i,
        {
            let ghost before = exts@;
            exts.push(nodes[i].external_id.clone());
            proof {
                assert(texts(exts@) =~= texts(before).push(plan[i as int].external_id));
                assert(ext_ids(plan).take(i + 1) =~= ext_ids(plan).take(i as int).push(
                    plan[i as int].external_id,
                ));
            }
            i = i + 1;
        }
        proof {
            assert(ext_ids(plan).take(i as int) =~= ext_ids(plan));
        }
        let stale = self.stale_departments(tenant_id, root, &exts);
        let mut created: Vec<String> = Vec::new();
        let mut updated: Vec<String> = Vec::new();
        i = 0;
        proof {
            assert(plan.take(0) =~= Seq::empty());
            assert(texts(created@) =~= Seq::empty());
            assert(texts(updated@) =~= Seq::empty());
        }
        while i < nodes.len()
            invariant
                plan == views(nodes@),
                fresh == texts(ids@),
                ids.len() == nodes.len(),
                i <= nodes.len(),
                self@ == (OrgState { departments: self@.departments, ..start }),
                ({
                    let w = all_written(
                        start.departments,
                        tenant_id@,
                        root@,
                        plan.take(i as int),
                        fresh,
                        now,
                    );
                    &&& self@.departments == w.departments
                    &&& texts(created@) == w.created
                    &&& texts(updated@) == w.updated
                }),
            decreases nodes.len() - i,
        {
            proof {
                assert(plan.take(i + 1).drop_last() =~= plan.take(i as int));
                assert(plan.take(i + 1).last() == nodes@[i as int]@);
                assert(fresh[i as int] == ids@[i as int]@);
            }
            let made = self.write_node(tenant_id, root, &nodes[i], ids[i].as_str(), now);
            if made {
                let ghost before = created@;
                created.push(nodes[i].name.clone());
                proof {
                    assert(texts(created@) =~= texts(before).push(plan[i as int].name));
                }
            } else {
                let ghost before = updated@;
                updated.push(nodes[i].name.clone());
                proof {
                    assert(texts(updated@) =~= texts(before).push(plan[i as int].name));
                }
            }
            i = i + 1;
        }
        proof {
            assert(plan.take(i as int) =~= plan);
        }
        let ghost wrote = self@.departments;
        let ghost gone = views(stale@);
        let mut removed: Vec<String> = Vec::new();
        let mut kept: Vec<String> = Vec::new();
        i = 0;
        proof {
            assert(gone.take(0) =~= Seq::empty());
            assert(texts(removed@) =~= Seq::empty());
            assert(texts(kept@) =~= Seq::empty());
        }
        while i < stale.len()
            invariant
                gone == views(stale@),
                i <= stale.len(),
                self@ == (OrgState { departments: self@.departments, ..start }),
                ({
                    let w = all_pruned(wrote, start.members, tenant_id@, gone.take(i as int));
                    &&& self@.departments == w.departments
                    &&& texts(removed@) == w.removed
                    &&& texts(kept@) == w.kept
                }),
            decreases stale.len() - i,
        {
            proof {
                assert(gone.take(i + 1).drop_last() =~= gone.take(i as int));
                assert(gone.take(i + 1).last() == stale@[i as int]@);
            }
            match self.delete_department(tenant_id, stale[i].id.as_str()) {
                Ok(_) => {
                    let ghost before = removed@;
                    removed.push(stale[i].name.clone());
                    proof {
                        assert(texts(removed@) =~= texts(before).push(gone[i as int].name));
                    }
                },
                Err(_) => {
                    let ghost before = kept@;
                    kept.push(stale[i].name.clone());
                    proof {
                        assert(texts(kept@) =~= texts(before).push(gone[i as int].name));
                    }
                },
            }
            i = i + 1;
        }
        proof {
            assert(gone.take(i as int) =~= gone);
        }
        DirectoryMapReport { created, updated, removed, kept_with_local_data: kept }
    }

    /// Maps the branch of the company directory under a root into the group's departments. The
    /// root becomes a top-level department. Departments from an earlier run of the same root are
    /// updated in place; one that left the branch is deleted unless it still holds something.
    pub fn map_directory_subtree(
        &mut self,
        tenant_id: &str,
        root_external_id: &str,
        all: &Vec<DirectoryDepartmentRef>,
        now: i64,
    ) -> (r: Result<DirectoryMapReport, OrgError>)
        ensures
            ({
                let root = trimmed_text(root_external_id@);
                let dir = views(all@);
                match map_refusal(old(self)@, tenant_id@, root, dir) {
                    Some(why) => (r matches Err(e) && e@ == why) && final(self)@ == old(self)@,
                    None => r matches Ok(report) && subtree_mapped(
                        old(self)@,
                        final(self)@,
                        report,
                        tenant_id@,
                        root,
                        dir,
                        now,
                    ),
                }
            }),
    {
        let root = trim(root_external_id);
        let ghost dir = views(all@);
        if root.as_str().is_empty() {
            return Err(bad_request("a directory department must be selected"));
        }
        if all.len() == 0 {
            return Err(
                bad_request("no company directory data to map yet; sync the directory first"),
            );
        }
        let e = |d: &DirectoryDepartmentRef| -> (b: bool)
            ensures
                b == entry_of(root@)(d@),
            { same(d.external_id.as_str(), root.as_str()) };
        if find_where(all, e, Ghost(entry_of(root@))).is_none() {
            return Err(bad_request("unknown directory department"));
        }
        let exts = branch_of(all, root.as_str());
        let f = |r: &DepartmentRow| -> (b: bool)
            ensures
                b == overlaps(tenant_id@, root@, views(all@))(r@),
            {
                let ours = same(r.tenant_id.as_str(), tenant_id) && opt_is(&r.source, "directory");
                let other = match &r.directory_map_root_external_id {
                    Some(other) => !same(other.as_str(), root.as_str()),
                    None => false,
                };
                let inside = match &r.directory_external_id {
                    Some(ext) => has_text(&exts, ext.as_str()),
                    None => false,
                };
                ours && other && inside
            };
        if let Some(i) = find_where(
            &self.departments,
            f,
            Ghost(overlaps(tenant_id@, root@, dir)),
        ) {
            let a = cat("'", self.departments[i].name.as_str());
            return Err(
                OrgError::BadRequest(
                    cat(
                        a.as_str(),
                        "' is already mapped by a different directory mapping in this project group; overlapping mappings are not supported",
                    ),
                ),
            );
        }
        let mut nodes: Vec<DirectoryDepartmentRef> = Vec::new();
        let mut ids: Vec<String> = Vec::new();
        let mut used = self.department_id_list();
        let ghost known = texts(used@);
        let mut k: usize = 0;
        while k < exts.len()
            invariant
                texts(used@) =~= known + texts(ids@),
                forall|j: int| 0 <= j < k ==> !known.contains(#[trigger] texts(ids@)[j]),
                texts(ids@).no_duplicates(),
                dir == views(all@),
                k <= exts.len(),
                nodes.len() == k,
                ids.len() == k,
                forall|j: int|
                    0 <= j < exts.len() ==> any(dir, entry_of(#[trigger] texts(exts@)[j])),
                forall|j: int|
                    0 <= j < k ==> first(dir, entry_of(texts(exts@)[j])) == Some(
                        #[trigger] views(nodes@)[j],
                    ) && views(nodes@)[j].external_id == texts(exts@)[j],
                forall|j: int| 0 <= j < k ==> is_short_id("dept"@, #[trigger] texts(ids@)[j]),
            decreases exts.len() - k,
        {
            let ghost before = views(nodes@);
            let ghost ids_before = texts(ids@);
            let ext = exts[k].clone();
            let m = |d: &DirectoryDepartmentRef| -> (b: bool)
                ensures
                    b == entry_of(ext@)(d@),
                { same(d.external_id.as_str(), ext.as_str()) };
            proof {
                assert(any(dir, entry_of(texts(exts@)[k as int])));
            }
            match find_where(all, m, Ghost(entry_of(ext@))) {
                Some(at) => {
                    let id = unused_id("dept", &used);
                    let ghost used_before = texts(used@);
                    nodes.push(all[at].copy());
                    used.push(id.clone());
                    ids.push(id);
                    proof {
                        assert(texts(ids@) =~= ids_before.push(id@));
                        assert(texts(used@) =~= used_before.push(id@));
                        assert forall|j: int| 0 <= j < k + 1 implies !known.contains(
                            #[trigger] texts(ids@)[j],
                        ) by {
                            if j < k {
                                assert(texts(ids@)[j] == ids_before[j]);
                            } else if known.contains(id@) {
                                let q = choose|q: int| 0 <= q < known.len() && known[q] == id@;
                                assert(used_before[q] == id@);
                            }
                        }
                        assert forall|i: int, j: int|
                            0 <= i < k + 1 && 0 <= j < k + 1 && i != j implies texts(ids@)[i]
                            != texts(ids@)[j] by {
                            if i == k {
                                assert(used_before[known.len() + j] == ids_before[j]);
                            } else if j == k {
                                assert(used_before[known.len() + i] == ids_before[i]);
                            }
                        }
                    }
                },
                None => {
                    proof {
                        assert(false);
                    }
                    return Err(bad_request("unknown directory department"));
                },
            }
            proof {
                assert(forall|j: int| 0 <= j < k ==> #[trigger] views(nodes@)[j] == before[j]);
                assert(forall|j: int| 0 <= j < k ==> #[trigger] texts(ids@)[j] == ids_before[j]);
            }
            k = k + 1;
        }
        proof {
            let plan = views(nodes@);
            assert(ext_ids(plan) =~= texts(exts@));
            assert forall|j: int| 0 <= j < plan.len() implies first(
                dir,
                entry_of((#[trigger] plan[j]).external_id),
            ) == Some(plan[j]) by {
                assert(texts(exts@)[j] == plan[j].external_id);
            }
            assert(is_plan(dir, root@, plan));
            assert(texts(ids@).len() == plan.len());
            let rows = self@.departments;
            assert forall|j: int| 0 <= j < texts(ids@).len() implies !any(
                rows,
                department_with_id(#[trigger] texts(ids@)[j]),
            ) by {
                let id = texts(ids@)[j];
                if any(rows, department_with_id(id)) {
                    let q = choose|q: int|
                        0 <= q < rows.len() && department_with_id(id)(#[trigger] rows[q]);
                    assert(known[q] == id);
                }
            }
        }
        let ghost plan = views(nodes@);
        let ghost fresh = texts(ids@);
        let report = self.map_branch(tenant_id, root.as_str(), &nodes, &ids, now);
        proof {
            assert(branch_mapped(
                old(self)@,
                self@,
                report,
                tenant_id@,
                root@,
                plan,
                fresh,
                now,
            ));
        }
        Ok(report)
    }
}

} // verus!
