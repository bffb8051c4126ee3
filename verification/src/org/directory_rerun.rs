//! What mapping a branch of the directory twice does, and what it never touches.
use crate::org::departments::{department_with_id, not_department_key};
use crate::org::directory::{
    all_pruned, all_written, branch_mapped, department_ids, edge, ext_ids, fell_out, found_at,
    has_earlier_parent, ids_unused, in_subtree, is_branch, is_plan, link, local_parent, map_refusal,
    mapped_id, mapped_to, overlaps, owned_by, subtree_mapped, unique_ids, written,
};
use crate::org::directory_forest::{lemma_ids_from, lemma_step};
use crate::org::directory_laws::{
    mapping_covers_branch, mapping_leaves_others_alone, names_of, rerun_creates_nothing,
};
use crate::org::models::{
    DepartmentRowView, DirectoryDepartmentRefView, DirectoryMapReport, UserOrgRowView,
};
use crate::org::service::OrgState;
use crate::table::{any, first, lemma_filter_from, lemma_first, lemma_first_kept, lemma_first_map};
use vstd::prelude::*;

verus! {

/// The first entry of a directory with a property that some entry has.
proof fn lemma_least_entry(
    all: Seq<DirectoryDepartmentRefView>,
    p: spec_fn(DirectoryDepartmentRefView) -> bool,
    n: int,
) -> (m: int)
    requires
        0 <= n < all.len(),
        p(all[n]),
    ensures
        0 <= m <= n,
        p(all[m]),
        forall|k: int| 0 <= k < m ==> !p(#[trigger] all[k]),
    decreases n,
{
    if exists|k: int| 0 <= k < n && p(#[trigger] all[k]) {
        let k = choose|k: int| 0 <= k < n && p(#[trigger] all[k]);
        lemma_least_entry(all, p, k)
    } else {
        n
    }
}

/// The first department of a list that stands above another, where some does.
proof fn lemma_least_above(
    all: Seq<DirectoryDepartmentRefView>,
    exts: Seq<Seq<char>>,
    ext: Seq<char>,
    n: int,
) -> (j: int)
    requires
        0 <= n < exts.len(),
        edge(all, exts[n], ext),
    ensures
        0 <= j <= n,
        edge(all, exts[j], ext),
        forall|i: int| 0 <= i < j ==> !edge(all, #[trigger] exts[i], ext),
    decreases n,
{
    if exists|i: int| 0 <= i < n && edge(all, #[trigger] exts[i], ext) {
        let i = choose|i: int| 0 <= i < n && edge(all, #[trigger] exts[i], ext);
        lemma_least_above(all, exts, ext, i)
    } else {
        n
    }
}

/// Every element but the root was found somewhere.
proof fn lemma_found(
    all: Seq<DirectoryDepartmentRefView>,
    exts: Seq<Seq<char>>,
    k: int,
) -> (at: (int, int))
    requires
        0 < k < exts.len(),
        has_earlier_parent(all, exts, k),
    ensures
        found_at(all, exts, k, at.0, at.1),
{
    let n = choose|n: int| 0 <= n < k && edge(all, #[trigger] exts[n], exts[k]);
    let j = lemma_least_above(all, exts, exts[k], n);
    let l = link(exts[j], exts[k]);
    let e = choose|e: int| 0 <= e < all.len() && l(#[trigger] all[e]);
    let m = lemma_least_entry(all, l, e);
    (j, m)
}

/// What was found under an element of a common beginning was found there in both lists.
proof fn lemma_found_alike(
    all: Seq<DirectoryDepartmentRefView>,
    a: Seq<Seq<char>>,
    b: Seq<Seq<char>>,
    k: int,
    q: int,
    at: (int, int),
)
    requires
        0 < k < a.len(),
        k <= q < b.len(),
        forall|i: int| 0 <= i < k ==> #[trigger] a[i] == b[i],
        a[k] == b[q],
        found_at(all, a, k, at.0, at.1),
    ensures
        found_at(all, b, q, at.0, at.1),
{
    assert(a[at.0] == b[at.0]);
    assert forall|i: int| 0 <= i < at.0 implies !edge(all, #[trigger] b[i], b[q]) by {
        assert(!edge(all, a[i], a[k]));
    }
}

/// Where two branches agree up to a position, they agree at it.
proof fn lemma_branch_agrees(
    all: Seq<DirectoryDepartmentRefView>,
    root: Seq<char>,
    a: Seq<Seq<char>>,
    b: Seq<Seq<char>>,
    k: int,
)
    requires
        is_branch(all, root, a),
        is_branch(all, root, b),
        0 <= k < a.len(),
        k < b.len(),
        forall|i: int| 0 <= i < k ==> #[trigger] a[i] == b[i],
    ensures
        a[k] == b[k],
{
    if k > 0 && a[k] != b[k] {
        assert(a.contains(a[k]));
        assert(b.contains(a[k]));
        let q = choose|q: int| 0 <= q < b.len() && b[q] == a[k];
        assert(q > k) by {
            if q < k {
                assert(a[q] == a[k]);
            }
        }
        assert(b.contains(b[k]));
        assert(a.contains(b[k]));
        let r = choose|r: int| 0 <= r < a.len() && a[r] == b[k];
        assert(r > k) by {
            if r < k {
                assert(b[r] == b[k]);
            }
        }
        assert(has_earlier_parent(all, a, k));
        assert(has_earlier_parent(all, b, k));
        let x = lemma_found(all, a, k);
        let y = lemma_found(all, b, k);
        lemma_found_alike(all, a, b, k, q, x);
        lemma_found_alike(all, b, a, k, r, y);
        assert(found_at(all, b, k, y.0, y.1) && found_at(all, b, q, x.0, x.1));
        assert(found_at(all, a, k, x.0, x.1) && found_at(all, a, r, y.0, y.1));
    }
}

proof fn lemma_branch_prefix(
    all: Seq<DirectoryDepartmentRefView>,
    root: Seq<char>,
    a: Seq<Seq<char>>,
    b: Seq<Seq<char>>,
    n: int,
)
    requires
        is_branch(all, root, a),
        is_branch(all, root, b),
        0 <= n <= a.len(),
        n <= b.len(),
    ensures
        forall|i: int| 0 <= i < n ==> #[trigger] a[i] == b[i],
    decreases n,
{
    if n > 0 {
        lemma_branch_prefix(all, root, a, b, n - 1);
        lemma_branch_agrees(all, root, a, b, n - 1);
    }
}

proof fn lemma_no_longer(
    all: Seq<DirectoryDepartmentRefView>,
    root: Seq<char>,
    a: Seq<Seq<char>>,
    b: Seq<Seq<char>>,
)
    requires
        is_branch(all, root, a),
        is_branch(all, root, b),
    ensures
        a.len() <= b.len(),
{
    if a.len() > b.len() {
        let n = b.len() as int;
        lemma_branch_prefix(all, root, a, b, n);
        assert(a.contains(a[n]));
        assert(b.contains(a[n]));
        let q = choose|q: int| 0 <= q < b.len() && b[q] == a[n];
        assert(a[q] == a[n]);
    }
}

/// A root has one branch in a directory, in one order.
pub proof fn one_plan(
    all: Seq<DirectoryDepartmentRefView>,
    root: Seq<char>,
    a: Seq<DirectoryDepartmentRefView>,
    b: Seq<DirectoryDepartmentRefView>,
)
    requires
        is_plan(all, root, a),
        is_plan(all, root, b),
    ensures
        a == b,
{
    lemma_no_longer(all, root, ext_ids(a), ext_ids(b));
    lemma_no_longer(all, root, ext_ids(b), ext_ids(a));
    lemma_branch_prefix(all, root, ext_ids(a), ext_ids(b), a.len() as int);
    assert forall|k: int| 0 <= k < a.len() implies a[k] == b[k] by {
        assert(ext_ids(a)[k] == a[k].external_id);
        assert(ext_ids(b)[k] == b[k].external_id);
    }
    assert(a =~= b);
}

/// Writing the entries names each of them once, as made or as updated.
proof fn lemma_all_named(
    ds: Seq<DepartmentRowView>,
    t: Seq<char>,
    root: Seq<char>,
    nodes: Seq<DirectoryDepartmentRefView>,
    ids: Seq<Seq<char>>,
    now: i64,
)
    ensures
        ({
            let w = all_written(ds, t, root, nodes, ids, now);
            w.created.to_multiset().add(w.updated.to_multiset()) =~= names_of(nodes).to_multiset()
        }),
    decreases nodes.len(),
{
    broadcast use vstd::seq_lib::group_to_multiset_ensures;

    if nodes.len() == 0 {
        assert(names_of(nodes) =~= Seq::empty());
    } else {
        let rest = nodes.drop_last();
        lemma_all_named(ds, t, root, rest, ids, now);
        assert(names_of(nodes) =~= names_of(rest).push(nodes.last().name));
    }
}

/// No two departments of a mapping stand for the same external id.
pub open spec fn unique_mappings(
    departments: Seq<DepartmentRowView>,
    tenant_id: Seq<char>,
    root: Seq<char>,
) -> bool {
    forall|i: int, j: int, ext: Seq<char>|
        0 <= i < departments.len() && 0 <= j < departments.len() && #[trigger] mapped_to(
            tenant_id,
            root,
            ext,
        )(departments[i]) && #[trigger] mapped_to(tenant_id, root, ext)(departments[j]) ==> i == j
}

/// Writing an entry keeps one department for each external id.
proof fn lemma_written_once(
    ds: Seq<DepartmentRowView>,
    t: Seq<char>,
    root: Seq<char>,
    node: DirectoryDepartmentRefView,
    id: Seq<char>,
    now: i64,
)
    requires
        unique_mappings(ds, t, root),
    ensures
        unique_mappings(written(ds, t, root, node, id, now), t, root),
{
    let after = written(ds, t, root, node, id, now);
    let m = mapped_to(t, root, node.external_id);
    lemma_first(ds, m);
    assert forall|i: int, j: int, ext: Seq<char>|
        0 <= i < after.len() && 0 <= j < after.len() && #[trigger] mapped_to(t, root, ext)(
            after[i],
        ) && #[trigger] mapped_to(t, root, ext)(after[j]) implies i == j by {
        if i < ds.len() {
            assert(mapped_to(t, root, ext)(ds[i]));
        }
        if j < ds.len() {
            assert(mapped_to(t, root, ext)(ds[j]));
        }
        if mapped_id(ds, t, root, node.external_id) is None {
            if i < ds.len() {
                assert(!m(ds[i]));
            }
            if j < ds.len() {
                assert(!m(ds[j]));
            }
        }
    }
}

proof fn lemma_all_written_once(
    ds: Seq<DepartmentRowView>,
    t: Seq<char>,
    root: Seq<char>,
    nodes: Seq<DirectoryDepartmentRefView>,
    ids: Seq<Seq<char>>,
    now: i64,
)
    requires
        unique_mappings(ds, t, root),
    ensures
        unique_mappings(all_written(ds, t, root, nodes, ids, now).departments, t, root),
    decreases nodes.len(),
{
    if nodes.len() > 0 {
        let rest = nodes.drop_last();
        lemma_all_written_once(ds, t, root, rest, ids, now);
        let cur = all_written(ds, t, root, rest, ids, now).departments;
        lemma_written_once(cur, t, root, nodes.last(), ids[nodes.len() - 1], now);
    }
}

/// Writing the entries under identifiers that were unused keeps identifiers unique, and a row of
/// the result that the mapping does not own was there before.
pub proof fn lemma_written_rows(
    ds: Seq<DepartmentRowView>,
    t: Seq<char>,
    root: Seq<char>,
    nodes: Seq<DirectoryDepartmentRefView>,
    ids: Seq<Seq<char>>,
    now: i64,
)
    requires
        unique_ids(ds),
        ids_unused(ds, ids),
        ids.no_duplicates(),
        nodes.len() <= ids.len(),
    ensures
        ({
            let after = all_written(ds, t, root, nodes, ids, now).departments;
            &&& unique_ids(after)
            &&& forall|i: int|
                0 <= i < after.len() && !owned_by(t, root)(#[trigger] after[i]) ==> ds.contains(
                    after[i],
                )
        }),
    decreases nodes.len(),
{
    if nodes.len() == 0 {
        assert(forall|i: int| 0 <= i < ds.len() ==> ds.contains(#[trigger] ds[i]));
    } else {
        let rest = nodes.drop_last();
        let node = nodes.last();
        let last = nodes.len() - 1;
        let id = ids[last];
        lemma_written_rows(ds, t, root, rest, ids, now);
        let cur = all_written(ds, t, root, rest, ids, now).departments;
        let after = all_written(ds, t, root, nodes, ids, now).departments;
        if any(cur, department_with_id(id)) {
            lemma_ids_from(ds, t, root, rest, ids, now, id);
            assert(!any(ds, department_with_id(ids[last])));
            let q = choose|q: int| 0 <= q < rest.len() && ids.take(rest.len() as int)[q] == id;
            assert(ids[q] == ids[last]);
        }
        lemma_step(cur, t, root, node, id, now);
        let m = mapped_to(t, root, node.external_id);
        lemma_first(cur, m);
        assert forall|i: int|
            0 <= i < after.len() && !owned_by(t, root)(#[trigger] after[i]) implies ds.contains(
            after[i],
        ) by {
            if i < cur.len() {
                if let Some(existing) = mapped_id(cur, t, root, node.external_id) {
                    let w = first(cur, m)->0;
                    let a = choose|a: int| 0 <= a < cur.len() && cur[a] == w;
                    if cur[i].id == existing {
                        assert(cur[a].id == cur[i].id);
                        assert(a == i);
                        assert(owned_by(t, root)(after[i]));
                    }
                }
                assert(after[i] == cur[i]);
            }
        }
    }
}

/// What is left after departments were deleted was there before, in order and with the same
/// uniqueness.
proof fn lemma_pruned_rows(
    ds: Seq<DepartmentRowView>,
    members: Seq<UserOrgRowView>,
    t: Seq<char>,
    root: Seq<char>,
    stale: Seq<DepartmentRowView>,
)
    requires
        unique_ids(ds),
        unique_mappings(ds, t, root),
    ensures
        ({
            let after = all_pruned(ds, members, t, stale).departments;
            &&& unique_ids(after)
            &&& unique_mappings(after, t, root)
            &&& forall|i: int| 0 <= i < after.len() ==> ds.contains(#[trigger] after[i])
        }),
    decreases stale.len(),
{
    if stale.len() == 0 {
        assert(forall|i: int| 0 <= i < ds.len() ==> ds.contains(#[trigger] ds[i]));
    } else {
        let rest = stale.drop_last();
        lemma_pruned_rows(ds, members, t, root, rest);
        let cur = all_pruned(ds, members, t, rest).departments;
        let after = all_pruned(ds, members, t, stale).departments;
        let keep = not_department_key(stale.last().id, t);
        lemma_filter_unique(cur, keep);
        let kept = cur.filter(keep);
        assert forall|i: int| 0 <= i < kept.len() implies ds.contains(#[trigger] kept[i]) by {
            lemma_filter_from(cur, keep, i);
            let q = choose|q: int| 0 <= q < cur.len() && cur[q] == kept[i];
            assert(ds.contains(cur[q]));
        }
        assert(unique_mappings(kept, t, root)) by {
            assert forall|i: int, j: int, ext: Seq<char>|
                0 <= i < kept.len() && 0 <= j < kept.len() && #[trigger] mapped_to(t, root, ext)(
                    kept[i],
                ) && #[trigger] mapped_to(t, root, ext)(kept[j]) implies i == j by {
                lemma_filter_from(cur, keep, i);
                lemma_filter_from(cur, keep, j);
                let a = choose|a: int| 0 <= a < cur.len() && cur[a] == kept[i];
                let b = choose|b: int| 0 <= b < cur.len() && cur[b] == kept[j];
                assert(mapped_to(t, root, ext)(cur[a]) && mapped_to(t, root, ext)(cur[b]));
                if i != j {
                    assert(kept[i].id != kept[j].id);
                }
            }
        }
    }
}

/// Dropping departments keeps identifiers apart.
pub proof fn lemma_filter_unique(
    ds: Seq<DepartmentRowView>,
    keep: spec_fn(DepartmentRowView) -> bool,
)
    requires
        unique_ids(ds),
    ensures
        unique_ids(ds.filter(keep)),
    decreases ds.len(),
{
    reveal(Seq::filter);
    if ds.len() > 0 {
        let init = ds.drop_last();
        assert forall|i: int, j: int|
            0 <= i < init.len() && 0 <= j < init.len() && i != j implies (#[trigger] init[i]).id
            != (#[trigger] init[j]).id by {
            assert(ds[i].id != ds[j].id);
        }
        lemma_filter_unique(init, keep);
        let kept = init.filter(keep);
        if keep(ds.last()) {
            let whole = kept.push(ds.last());
            assert forall|i: int, j: int|
                0 <= i < whole.len() && 0 <= j < whole.len() && i != j implies (
            #[trigger] whole[i]).id != (#[trigger] whole[j]).id by {
                if i < kept.len() && j >= kept.len() {
                    lemma_filter_from(init, keep, i);
                    let a = choose|a: int| 0 <= a < init.len() && init[a] == kept[i];
                    assert(ds[a].id != ds[ds.len() - 1].id);
                } else if j < kept.len() && i >= kept.len() {
                    lemma_filter_from(init, keep, j);
                    let a = choose|a: int| 0 <= a < init.len() && init[a] == kept[j];
                    assert(ds[a].id != ds[ds.len() - 1].id);
                }
            }
        }
    }
}

/// The same department, but for its name, parent and time of change.
spec fn same_place(a: DepartmentRowView, b: DepartmentRowView) -> bool {
    &&& a.id == b.id
    &&& a.tenant_id == b.tenant_id
    &&& a.source == b.source
    &&& a.directory_external_id == b.directory_external_id
    &&& a.directory_map_root_external_id == b.directory_map_root_external_id
}

/// Where every entry already has its department, writing the entries keeps every row in its place.
proof fn lemma_rewritten(
    ds: Seq<DepartmentRowView>,
    t: Seq<char>,
    root: Seq<char>,
    nodes: Seq<DirectoryDepartmentRefView>,
    ids: Seq<Seq<char>>,
    now: i64,
)
    requires
        forall|k: int|
            0 <= k < nodes.len() ==> any(
                ds,
                mapped_to(t, root, (#[trigger] nodes[k]).external_id),
            ),
    ensures
        ({
            let after = all_written(ds, t, root, nodes, ids, now).departments;
            &&& after.len() == ds.len()
            &&& forall|i: int| 0 <= i < ds.len() ==> same_place(#[trigger] after[i], ds[i])
            &&& forall|ext: Seq<char>| #[trigger]
                mapped_id(after, t, root, ext) == mapped_id(ds, t, root, ext)
        }),
    decreases nodes.len(),
{
    if nodes.len() > 0 {
        let rest = nodes.drop_last();
        let node = nodes.last();
        assert(forall|k: int| 0 <= k < rest.len() ==> #[trigger] rest[k] == nodes[k]);
        lemma_rewritten(ds, t, root, rest, ids, now);
        let cur = all_written(ds, t, root, rest, ids, now).departments;
        let after = all_written(ds, t, root, nodes, ids, now).departments;
        assert(any(ds, mapped_to(t, root, nodes[nodes.len() - 1].external_id)));
        lemma_first(ds, mapped_to(t, root, node.external_id));
        assert(mapped_id(cur, t, root, node.external_id) == mapped_id(
            ds,
            t,
            root,
            node.external_id,
        ));
        let existing = mapped_id(cur, t, root, node.external_id)->0;
        let parent_id = local_parent(cur, t, root, node);
        let g = |r: DepartmentRowView|
            if r.id == existing {
                DepartmentRowView { name: node.name, parent_id, updated_at: now, ..r }
            } else {
                r
            };
        assert(after == cur.map_values(g));
        assert forall|i: int| 0 <= i < ds.len() implies same_place(#[trigger] after[i], ds[i]) by {
            assert(same_place(cur[i], ds[i]));
        }
        assert forall|ext: Seq<char>| #[trigger]
            mapped_id(after, t, root, ext) == mapped_id(ds, t, root, ext) by {
            lemma_first_map(cur, mapped_to(t, root, ext), g);
            assert(mapped_id(cur, t, root, ext) == mapped_id(ds, t, root, ext));
        }
    }
}

/// Deleting departments other than those for an external id does not change which stands for it.
proof fn lemma_pruned_maps(
    ds: Seq<DepartmentRowView>,
    members: Seq<UserOrgRowView>,
    t: Seq<char>,
    root: Seq<char>,
    stale: Seq<DepartmentRowView>,
    ext: Seq<char>,
)
    requires
        unique_ids(ds),
        unique_mappings(ds, t, root),
        forall|k: int, i: int|
            0 <= k < stale.len() && 0 <= i < ds.len() && mapped_to(t, root, ext)(ds[i]) ==> (
            #[trigger] stale[k]).id != (#[trigger] ds[i]).id,
    ensures
        mapped_id(all_pruned(ds, members, t, stale).departments, t, root, ext) == mapped_id(
            ds,
            t,
            root,
            ext,
        ),
    decreases stale.len(),
{
    if stale.len() > 0 {
        let rest = stale.drop_last();
        assert forall|k: int, i: int|
            0 <= k < rest.len() && 0 <= i < ds.len() && mapped_to(t, root, ext)(ds[i]) implies (
        #[trigger] rest[k]).id != (#[trigger] ds[i]).id by {
            assert(rest[k] == stale[k]);
        }
        lemma_pruned_maps(ds, members, t, root, rest, ext);
        lemma_pruned_rows(ds, members, t, root, rest);
        let cur = all_pruned(ds, members, t, rest).departments;
        let p = mapped_to(t, root, ext);
        let keep = not_department_key(stale.last().id, t);
        assert forall|i: int| 0 <= i < cur.len() && p(#[trigger] cur[i]) implies keep(cur[i]) by {
            assert(ds.contains(cur[i]));
            let q = choose|q: int| 0 <= q < ds.len() && ds[q] == cur[i];
            assert(stale[stale.len() - 1].id != ds[q].id);
        }
        lemma_first_kept(cur, p, keep);
    }
}

/// After a run, everything in the branch has its department, identifiers and mappings are unique,
/// and what the mapping does not own was there before.
proof fn lemma_after_run(
    before: OrgState,
    after: OrgState,
    report: DirectoryMapReport,
    tenant_id: Seq<char>,
    root: Seq<char>,
    all: Seq<DirectoryDepartmentRefView>,
    now: i64,
)
    requires
        unique_ids(before.departments),
        unique_mappings(before.departments, tenant_id, root),
        subtree_mapped(before, after, report, tenant_id, root, all, now),
    ensures
        unique_ids(after.departments),
        unique_mappings(after.departments, tenant_id, root),
        forall|ext: Seq<char>| #[trigger]
            in_subtree(all, root, ext) ==> any(
                after.departments,
                mapped_to(tenant_id, root, ext),
            ),
        forall|i: int|
            0 <= i < after.departments.len() && !owned_by(tenant_id, root)(
                #[trigger] after.departments[i],
            ) ==> before.departments.contains(after.departments[i]),
        forall|i: int|
            0 <= i < before.departments.len() && !owned_by(tenant_id, root)(
                #[trigger] before.departments[i],
            ) ==> after.departments.contains(before.departments[i]),
{
    let (nodes, ids) = choose|nodes: Seq<DirectoryDepartmentRefView>, ids: Seq<Seq<char>>|
        is_plan(all, root, nodes) && ids.len() == nodes.len() && department_ids(ids)
            && ids.no_duplicates() && ids_unused(before.departments, ids)
            && #[trigger] branch_mapped(before, after, report, tenant_id, root, nodes, ids, now);
    let ds = before.departments;
    let wrote = all_written(ds, tenant_id, root, nodes, ids, now).departments;
    let stale = ds.filter(fell_out(tenant_id, root, ext_ids(nodes)));
    lemma_written_rows(ds, tenant_id, root, nodes, ids, now);
    lemma_all_written_once(ds, tenant_id, root, nodes, ids, now);
    lemma_pruned_rows(wrote, before.members, tenant_id, root, stale);
    assert forall|ext: Seq<char>| #[trigger] in_subtree(all, root, ext) implies any(
        after.departments,
        mapped_to(tenant_id, root, ext),
    ) by {
        assert(ext_ids(nodes).contains(ext));
        mapping_covers_branch(ds, before.members, tenant_id, root, nodes, ids, now, ext);
    }
    assert forall|i: int|
        0 <= i < after.departments.len() && !owned_by(tenant_id, root)(
            #[trigger] after.departments[i],
        ) implies ds.contains(after.departments[i]) by {
        let r = after.departments[i];
        assert(wrote.contains(r));
        let q = choose|q: int| 0 <= q < wrote.len() && wrote[q] == r;
        assert(ds.contains(wrote[q]));
    }
    assert forall|i: int|
        0 <= i < ds.len() && !owned_by(tenant_id, root)(
            #[trigger] ds[i],
        ) implies after.departments.contains(ds[i]) by {
        mapping_leaves_others_alone(
            ds,
            before.members,
            tenant_id,
            root,
            nodes,
            ids,
            now,
            ds[i],
        );
    }
}

/// A mapping touches no department that it does not own: neither one made by hand, nor one of
/// another mapping, nor one of another project group, whatever its name.
pub proof fn mapping_touches_only_its_own(
    before: OrgState,
    after: OrgState,
    report: DirectoryMapReport,
    tenant_id: Seq<char>,
    root: Seq<char>,
    all: Seq<DirectoryDepartmentRefView>,
    now: i64,
    row: DepartmentRowView,
)
    requires
        unique_ids(before.departments),
        unique_mappings(before.departments, tenant_id, root),
        subtree_mapped(before, after, report, tenant_id, root, all, now),
        !owned_by(tenant_id, root)(row),
    ensures
        after.departments.contains(row) <==> before.departments.contains(row),
{
    lemma_after_run(before, after, report, tenant_id, root, all, now);
    if after.departments.contains(row) {
        let i = choose|i: int| 0 <= i < after.departments.len() && after.departments[i] == row;
        assert(before.departments.contains(after.departments[i]));
    }
    if before.departments.contains(row) {
        let i = choose|i: int| 0 <= i < before.departments.len() && before.departments[i] == row;
        assert(after.departments.contains(before.departments[i]));
    }
}

/// A run makes no two departments alike: identifiers stay unique, and so do the external ids of
/// this mapping and of any other.
pub proof fn mapping_keeps_keys(
    before: OrgState,
    after: OrgState,
    report: DirectoryMapReport,
    tenant_id: Seq<char>,
    root: Seq<char>,
    all: Seq<DirectoryDepartmentRefView>,
    now: i64,
)
    requires
        unique_ids(before.departments),
        unique_mappings(before.departments, tenant_id, root),
        subtree_mapped(before, after, report, tenant_id, root, all, now),
    ensures
        unique_ids(after.departments),
        unique_mappings(after.departments, tenant_id, root),
        forall|t: Seq<char>, r: Seq<char>|
            unique_mappings(before.departments, t, r) ==> #[trigger] unique_mappings(
                after.departments,
                t,
                r,
            ),
{
    lemma_after_run(before, after, report, tenant_id, root, all, now);
    let ds = before.departments;
    let now_there = after.departments;
    assert forall|t: Seq<char>, r: Seq<char>| unique_mappings(ds, t, r) implies #[trigger]
        unique_mappings(now_there, t, r) by {
        if t != tenant_id || r != root {
            assert forall|i: int, j: int, ext: Seq<char>|
                0 <= i < now_there.len() && 0 <= j < now_there.len() && #[trigger] mapped_to(
                    t,
                    r,
                    ext,
                )(now_there[i]) && #[trigger] mapped_to(t, r, ext)(now_there[j]) implies i == j by {
                assert(!owned_by(tenant_id, root)(now_there[i]));
                assert(!owned_by(tenant_id, root)(now_there[j]));
                let a = choose|a: int| 0 <= a < ds.len() && ds[a] == now_there[i];
                let b = choose|b: int| 0 <= b < ds.len() && ds[b] == now_there[j];
                assert(mapped_to(t, r, ext)(ds[a]) && mapped_to(t, r, ext)(ds[b]));
                if i != j {
                    assert(now_there[i].id != now_there[j].id);
                }
            }
        }
    }
}

/// What could be mapped can be mapped again.
pub proof fn mapping_again_is_not_refused(
    before: OrgState,
    after: OrgState,
    report: DirectoryMapReport,
    tenant_id: Seq<char>,
    root: Seq<char>,
    all: Seq<DirectoryDepartmentRefView>,
    now: i64,
)
    requires
        unique_ids(before.departments),
        unique_mappings(before.departments, tenant_id, root),
        map_refusal(before, tenant_id, root, all) is None,
        subtree_mapped(before, after, report, tenant_id, root, all, now),
    ensures
        map_refusal(after, tenant_id, root, all) is None,
{
    lemma_after_run(before, after, report, tenant_id, root, all, now);
    let p = overlaps(tenant_id, root, all);
    lemma_first(before.departments, p);
    lemma_first(after.departments, p);
    if any(after.departments, p) {
        let i = choose|i: int|
            0 <= i < after.departments.len() && p(#[trigger] after.departments[i]);
        let r = after.departments[i];
        assert(!owned_by(tenant_id, root)(after.departments[i]));
        let q = choose|q: int| 0 <= q < before.departments.len() && before.departments[q] == r;
        assert(p(before.departments[q]));
    }
}

/// A second run makes nothing and updates, by name, what the first made or updated. Every
/// department of the branch keeps its identifier, and none is there twice. Neither run touches a
/// department that the mapping does not own.
pub proof fn mapping_again_updates_in_place(
    before: OrgState,
    mid: OrgState,
    after: OrgState,
    one: DirectoryMapReport,
    two: DirectoryMapReport,
    tenant_id: Seq<char>,
    root: Seq<char>,
    all: Seq<DirectoryDepartmentRefView>,
    now: i64,
    later: i64,
)
    requires
        unique_ids(before.departments),
        unique_mappings(before.departments, tenant_id, root),
        subtree_mapped(before, mid, one, tenant_id, root, all, now),
        subtree_mapped(mid, after, two, tenant_id, root, all, later),
    ensures
        two@.created.len() == 0,
        two@.updated.to_multiset() =~= one@.created.to_multiset().add(one@.updated.to_multiset()),
        unique_ids(after.departments),
        unique_mappings(after.departments, tenant_id, root),
        forall|ext: Seq<char>| #[trigger]
            in_subtree(all, root, ext) ==> {
                &&& mapped_id(mid.departments, tenant_id, root, ext) is Some
                &&& mapped_id(after.departments, tenant_id, root, ext) == mapped_id(
                    mid.departments,
                    tenant_id,
                    root,
                    ext,
                )
            },
        forall|row: DepartmentRowView|
            !owned_by(tenant_id, root)(row) ==> {
                &&& mid.departments.contains(row) <==> before.departments.contains(row)
                &&& #[trigger] after.departments.contains(row) <==> before.departments.contains(row)
            },
{
    lemma_after_run(before, mid, one, tenant_id, root, all, now);
    lemma_after_run(mid, after, two, tenant_id, root, all, later);
    assert forall|row: DepartmentRowView| !owned_by(tenant_id, root)(row) implies {
        &&& mid.departments.contains(row) <==> before.departments.contains(row)
        &&& #[trigger] after.departments.contains(row) <==> before.departments.contains(row)
    } by {
        mapping_touches_only_its_own(before, mid, one, tenant_id, root, all, now, row);
        mapping_touches_only_its_own(mid, after, two, tenant_id, root, all, later, row);
    }
    let (nodes, ids) = choose|nodes: Seq<DirectoryDepartmentRefView>, ids: Seq<Seq<char>>|
        is_plan(all, root, nodes) && ids.len() == nodes.len() && department_ids(ids)
            && ids.no_duplicates() && ids_unused(before.departments, ids)
            && #[trigger] branch_mapped(before, mid, one, tenant_id, root, nodes, ids, now);
    let (again, more) = choose|again: Seq<DirectoryDepartmentRefView>, more: Seq<Seq<char>>|
        is_plan(all, root, again) && more.len() == again.len() && department_ids(more)
            && more.no_duplicates() && ids_unused(mid.departments, more)
            && #[trigger] branch_mapped(mid, after, two, tenant_id, root, again, more, later);
    one_plan(all, root, nodes, again);
    lemma_all_named(before.departments, tenant_id, root, nodes, ids, now);
    let exts = ext_ids(again);
    let ds = mid.departments;
    assert forall|k: int| 0 <= k < again.len() implies any(
        ds,
        mapped_to(tenant_id, root, (#[trigger] again[k]).external_id),
    ) by {
        assert(exts[k] == again[k].external_id);
        assert(exts.contains(exts[k]));
        assert(in_subtree(all, root, exts[k]));
    }
    rerun_creates_nothing(ds, tenant_id, root, again, more, later);
    lemma_rewritten(ds, tenant_id, root, again, more, later);
    lemma_written_rows(ds, tenant_id, root, again, more, later);
    lemma_all_written_once(ds, tenant_id, root, again, more, later);
    let wrote = all_written(ds, tenant_id, root, again, more, later).departments;
    let p = fell_out(tenant_id, root, exts);
    let stale = ds.filter(p);
    assert forall|ext: Seq<char>| #[trigger] in_subtree(all, root, ext) implies {
        &&& mapped_id(ds, tenant_id, root, ext) is Some
        &&& mapped_id(after.departments, tenant_id, root, ext) == mapped_id(
            ds,
            tenant_id,
            root,
            ext,
        )
    } by {
        assert(exts.contains(ext));
        lemma_first(ds, mapped_to(tenant_id, root, ext));
        assert forall|k: int, i: int|
            0 <= k < stale.len() && 0 <= i < wrote.len() && mapped_to(tenant_id, root, ext)(
                wrote[i],
            ) implies (#[trigger] stale[k]).id != (#[trigger] wrote[i]).id by {
            assert(same_place(wrote[i], ds[i]));
            lemma_filter_from(ds, p, k);
            let q = choose|q: int| 0 <= q < ds.len() && ds[q] == stale[k];
            ds.lemma_filter_pred(p, k);
            if ds[q].id == ds[i].id {
                assert(q == i);
            }
        }
        lemma_pruned_maps(wrote, mid.members, tenant_id, root, stale, ext);
        assert(mapped_id(wrote, tenant_id, root, ext) == mapped_id(ds, tenant_id, root, ext));
    }
}

} // verus!
