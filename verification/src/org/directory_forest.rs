//! A directory mapping never makes the department tree loop.
use crate::org::departments::{delete_refusal, department_key, department_with_id, parent_of};
use crate::org::directory::{
    all_pruned, all_written, branch_mapped, department_ids, edge, entry_of, ext_ids, fell_out,
    has_earlier_parent, ids_unused, is_plan, link, local_parent, mapped_id, mapped_to,
    subtree_mapped, unique_ids, written,
};
use crate::org::directory_laws::{lemma_fresh_ext, lemma_written_maps};
use crate::org::forest::{
    delete_keeps_forest, forest, lemma_regraft, lemma_same_parents, regrafted, up,
};
use crate::org::models::{
    DepartmentRowView, DirectoryDepartmentRefView, DirectoryMapReport, UserOrgRowView,
};
use crate::org::service::OrgState;
use crate::table::{any, first, lemma_first, lemma_first_map, lemma_first_push};
use vstd::prelude::*;

verus! {

/// No two entries of the directory share an external id.
pub open spec fn distinct_entries(all: Seq<DirectoryDepartmentRefView>) -> bool {
    forall|i: int, j: int|
        0 <= i < all.len() && 0 <= j < all.len() && i != j ==> (#[trigger] all[i]).external_id != (
        #[trigger] all[j]).external_id
}

/// An earlier entry is the parent that the entry at `k` names.
spec fn under_earlier(nodes: Seq<DirectoryDepartmentRefView>, k: int) -> bool {
    exists|j: int|
        0 <= j < k && nodes[k].parent_external_id == Some((#[trigger] nodes[j]).external_id)
}

/// Every entry but the root names an earlier one as its parent.
spec fn parents_first(nodes: Seq<DirectoryDepartmentRefView>, root: Seq<char>) -> bool {
    forall|k: int|
        0 <= k < nodes.len() ==> (#[trigger] nodes[k]).external_id == root || under_earlier(
            nodes,
            k,
        )
}

/// The department for the entry at `j` is at the top or directly under that for an earlier entry.
spec fn hangs_at(
    ds: Seq<DepartmentRowView>,
    t: Seq<char>,
    root: Seq<char>,
    nodes: Seq<DirectoryDepartmentRefView>,
    j: int,
) -> bool {
    match mapped_id(ds, t, root, nodes[j].external_id) {
        Some(d) => parent_of(ds, t, d) is None || exists|i: int|
            0 <= i < j && parent_of(ds, t, d) == mapped_id(
                ds,
                t,
                root,
                (#[trigger] nodes[i]).external_id,
            ),
        None => false,
    }
}

spec fn hangs(
    ds: Seq<DepartmentRowView>,
    t: Seq<char>,
    root: Seq<char>,
    nodes: Seq<DirectoryDepartmentRefView>,
) -> bool {
    forall|j: int| 0 <= j < nodes.len() ==> #[trigger] hangs_at(ds, t, root, nodes, j)
}

/// The way up from the department for an entry meets departments for entries only.
proof fn lemma_chain(
    ds: Seq<DepartmentRowView>,
    t: Seq<char>,
    root: Seq<char>,
    nodes: Seq<DirectoryDepartmentRefView>,
    j: int,
    n: nat,
)
    requires
        hangs(ds, t, root, nodes),
        0 <= j < nodes.len(),
    ensures
        ({
            let d = mapped_id(ds, t, root, nodes[j].external_id)->0;
            up(ds, t, d, n) is None || exists|i: int|
                0 <= i < nodes.len() && up(ds, t, d, n) == mapped_id(
                    ds,
                    t,
                    root,
                    (#[trigger] nodes[i]).external_id,
                )
        }),
    decreases n,
{
    let d = mapped_id(ds, t, root, nodes[j].external_id)->0;
    assert(hangs_at(ds, t, root, nodes, j));
    if n == 0 {
        assert(up(ds, t, d, n) == mapped_id(ds, t, root, nodes[j].external_id));
    } else if parent_of(ds, t, d) is Some {
        let i = choose|i: int|
            0 <= i < j && parent_of(ds, t, d) == mapped_id(
                ds,
                t,
                root,
                (#[trigger] nodes[i]).external_id,
            );
        lemma_chain(ds, t, root, nodes, i, (n - 1) as nat);
    }
}

/// The department that an entry is written to.
pub open spec fn target(
    ds: Seq<DepartmentRowView>,
    t: Seq<char>,
    root: Seq<char>,
    node: DirectoryDepartmentRefView,
    id: Seq<char>,
) -> Seq<char> {
    match mapped_id(ds, t, root, node.external_id) {
        Some(existing) => existing,
        None => id,
    }
}

/// Writing an entry hangs its department under its parent and moves no other.
pub proof fn lemma_step(
    ds: Seq<DepartmentRowView>,
    t: Seq<char>,
    root: Seq<char>,
    node: DirectoryDepartmentRefView,
    id: Seq<char>,
    now: i64,
)
    requires
        unique_ids(ds),
        !any(ds, department_with_id(id)),
    ensures
        ({
            let after = written(ds, t, root, node, id, now);
            let d = target(ds, t, root, node, id);
            &&& unique_ids(after)
            &&& regrafted(ds, after, t, d)
            &&& parent_of(after, t, d) == local_parent(ds, t, root, node)
            &&& mapped_id(after, t, root, node.external_id) == Some(d)
            &&& forall|u: Seq<char>, x: Seq<char>|
                u != t ==> #[trigger] parent_of(after, u, x) == parent_of(ds, u, x)
        }),
{
    let after = written(ds, t, root, node, id, now);
    let d = target(ds, t, root, node, id);
    let parent_id = local_parent(ds, t, root, node);
    let m = mapped_to(t, root, node.external_id);
    lemma_first(ds, m);
    match mapped_id(ds, t, root, node.external_id) {
        Some(existing) => {
            let g = |r: DepartmentRowView|
                if r.id == existing {
                    DepartmentRowView { name: node.name, parent_id, updated_at: now, ..r }
                } else {
                    r
                };
            assert(after == ds.map_values(g));
            assert forall|i: int, j: int|
                0 <= i < after.len() && 0 <= j < after.len() && i != j implies (
            #[trigger] after[i]).id != (#[trigger] after[j]).id by {
                assert(after[i].id == ds[i].id);
                assert(after[j].id == ds[j].id);
            }
            lemma_first_map(ds, m, g);
            let w = first(ds, m)->0;
            let a = choose|a: int| 0 <= a < ds.len() && ds[a] == w;
            assert(department_key(d, t)(ds[a]));
            lemma_first(ds, department_key(d, t));
            lemma_first_map(ds, department_key(d, t), g);
            assert forall|u: Seq<char>, x: Seq<char>| u != t || x != d implies #[trigger] parent_of(
                after,
                u,
                x,
            ) == parent_of(ds, u, x) by {
                let k = department_key(x, u);
                lemma_first_map(ds, k, g);
                lemma_first(ds, k);
                if let Some(r) = first(ds, k) {
                    let b = choose|b: int| 0 <= b < ds.len() && ds[b] == r;
                    if r.id == existing {
                        assert(ds[a].id == ds[b].id);
                        assert(a == b);
                    }
                }
            }
        },
        None => {
            let row = after.last();
            assert(after =~= ds.push(row));
            assert forall|i: int, j: int|
                0 <= i < after.len() && 0 <= j < after.len() && i != j implies (
            #[trigger] after[i]).id != (#[trigger] after[j]).id by {
                if i < ds.len() {
                    assert(!department_with_id(id)(ds[i]));
                }
                if j < ds.len() {
                    assert(!department_with_id(id)(ds[j]));
                }
            }
            lemma_first_push(ds, row, m);
            assert forall|u: Seq<char>, x: Seq<char>| u != t || x != d implies #[trigger] parent_of(
                after,
                u,
                x,
            ) == parent_of(ds, u, x) by {
                lemma_first_push(ds, row, department_key(x, u));
            }
            lemma_first_push(ds, row, department_key(id, t));
            lemma_first(ds, department_key(id, t));
            if any(ds, department_key(id, t)) {
                let i = choose|i: int|
                    0 <= i < ds.len() && department_key(id, t)(#[trigger] ds[i]);
                assert(department_with_id(id)(ds[i]));
            }
        },
    }
}

/// Different external ids have different departments.
proof fn lemma_apart(
    ds: Seq<DepartmentRowView>,
    t: Seq<char>,
    root: Seq<char>,
    a: Seq<char>,
    b: Seq<char>,
)
    requires
        unique_ids(ds),
        a != b,
        mapped_id(ds, t, root, a) is Some,
    ensures
        mapped_id(ds, t, root, a) != mapped_id(ds, t, root, b),
        any(ds, department_with_id(mapped_id(ds, t, root, a)->0)),
{
    let ma = mapped_to(t, root, a);
    let mb = mapped_to(t, root, b);
    lemma_first(ds, ma);
    lemma_first(ds, mb);
    let ra = first(ds, ma)->0;
    let i = choose|i: int| 0 <= i < ds.len() && ds[i] == ra;
    assert(department_with_id(ra.id)(ds[i]));
    if let Some(rb) = first(ds, mb) {
        let j = choose|j: int| 0 <= j < ds.len() && ds[j] == rb;
        assert(i != j);
    }
}

/// Departments are known from before or were made for an entry.
pub proof fn lemma_ids_from(
    ds: Seq<DepartmentRowView>,
    t: Seq<char>,
    root: Seq<char>,
    nodes: Seq<DirectoryDepartmentRefView>,
    ids: Seq<Seq<char>>,
    now: i64,
    x: Seq<char>,
)
    requires
        nodes.len() <= ids.len(),
        any(all_written(ds, t, root, nodes, ids, now).departments, department_with_id(x)),
    ensures
        any(ds, department_with_id(x)) || ids.take(nodes.len() as int).contains(x),
    decreases nodes.len(),
{
    if nodes.len() > 0 {
        let rest = nodes.drop_last();
        let cur = all_written(ds, t, root, rest, ids, now).departments;
        let after = all_written(ds, t, root, nodes, ids, now).departments;
        let p = department_with_id(x);
        let i = choose|i: int| 0 <= i < after.len() && p(#[trigger] after[i]);
        let taken = ids.take(nodes.len() as int);
        if i < cur.len() {
            assert(cur[i].id == after[i].id);
            assert(p(cur[i]));
            lemma_ids_from(ds, t, root, rest, ids, now, x);
            if ids.take(rest.len() as int).contains(x) {
                let q = choose|q: int|
                    0 <= q < rest.len() && ids.take(rest.len() as int)[q] == x;
                assert(taken[q] == x);
            }
        } else {
            assert(taken[nodes.len() - 1] == x);
        }
    }
}

proof fn lemma_written_forest(
    ds: Seq<DepartmentRowView>,
    t: Seq<char>,
    root: Seq<char>,
    nodes: Seq<DirectoryDepartmentRefView>,
    ids: Seq<Seq<char>>,
    now: i64,
    any_tenant: Seq<char>,
)
    requires
        unique_ids(ds),
        ids_unused(ds, ids),
        ids.no_duplicates(),
        nodes.len() <= ids.len(),
        ext_ids(nodes).no_duplicates(),
        parents_first(nodes, root),
        forest(ds, any_tenant),
    ensures
        ({
            let after = all_written(ds, t, root, nodes, ids, now).departments;
            &&& unique_ids(after)
            &&& hangs(after, t, root, nodes)
            &&& forest(after, any_tenant)
        }),
    decreases nodes.len(),
{
    if nodes.len() > 0 {
        let rest = nodes.drop_last();
        let node = nodes.last();
        let last = nodes.len() - 1;
        let id = ids[last];
        lemma_fresh_ext(nodes);
        assert(parents_first(rest, root)) by {
            assert forall|k: int| 0 <= k < rest.len() implies (#[trigger] rest[k]).external_id
                == root || under_earlier(rest, k) by {
                assert(nodes[k] == rest[k]);
                if nodes[k].external_id != root {
                    assert(under_earlier(nodes, k));
                    let j = choose|j: int|
                        0 <= j < k && nodes[k].parent_external_id == Some(
                            (#[trigger] nodes[j]).external_id,
                        );
                    assert(rest[j] == nodes[j]);
                }
            }
        }
        lemma_written_forest(ds, t, root, rest, ids, now, any_tenant);
        let cur = all_written(ds, t, root, rest, ids, now).departments;
        let after = all_written(ds, t, root, nodes, ids, now).departments;
        if any(cur, department_with_id(id)) {
            lemma_ids_from(ds, t, root, rest, ids, now, id);
            assert(!any(ds, department_with_id(ids[last])));
            let q = choose|q: int| 0 <= q < rest.len() && ids.take(rest.len() as int)[q] == id;
            assert(ids[q] == ids[last]);
        }
        lemma_step(cur, t, root, node, id, now);
        let d = target(cur, t, root, node, id);
        assert forall|j: int| 0 <= j < rest.len() implies {
            &&& mapped_id(cur, t, root, (#[trigger] nodes[j]).external_id) is Some
            &&& mapped_id(cur, t, root, nodes[j].external_id) != Some(d)
            &&& mapped_id(after, t, root, nodes[j].external_id) == mapped_id(
                cur,
                t,
                root,
                nodes[j].external_id,
            )
        } by {
            let ext = nodes[j].external_id;
            assert(rest[j] == nodes[j]);
            assert(hangs_at(cur, t, root, rest, j));
            assert(ext_ids(nodes)[j] == ext);
            assert(ext_ids(nodes)[last] == node.external_id);
            lemma_written_maps(cur, t, root, node, id, now, ext);
            lemma_apart(cur, t, root, ext, node.external_id);
        }
        let above = local_parent(cur, t, root, node);
        if node.external_id != root {
            assert(nodes[last].external_id != root);
            assert(under_earlier(nodes, last));
            let j = choose|j: int|
                0 <= j < last && nodes[last].parent_external_id == Some(
                    (#[trigger] nodes[j]).external_id,
                );
            assert(above == mapped_id(cur, t, root, nodes[j].external_id));
            assert(above == mapped_id(after, t, root, nodes[j].external_id));
            assert(rest[j] == nodes[j]);
            assert forall|n: nat| #[trigger] up(cur, t, above->0, n) != Some(d) by {
                lemma_chain(cur, t, root, rest, j, n);
                if up(cur, t, above->0, n) is Some {
                    let i = choose|i: int|
                        0 <= i < rest.len() && up(cur, t, above->0, n) == mapped_id(
                            cur,
                            t,
                            root,
                            (#[trigger] rest[i]).external_id,
                        );
                    assert(nodes[i] == rest[i]);
                }
            }
        }
        assert forall|j: int| 0 <= j < nodes.len() implies #[trigger] hangs_at(
            after,
            t,
            root,
            nodes,
            j,
        ) by {
            if j < last {
                assert(hangs_at(cur, t, root, rest, j));
                assert(rest[j] == nodes[j]);
                let dj = mapped_id(cur, t, root, nodes[j].external_id)->0;
                assert(parent_of(after, t, dj) == parent_of(cur, t, dj));
                if parent_of(cur, t, dj) is Some {
                    let i = choose|i: int|
                        0 <= i < j && parent_of(cur, t, dj) == mapped_id(
                            cur,
                            t,
                            root,
                            (#[trigger] rest[i]).external_id,
                        );
                    assert(nodes[i] == rest[i]);
                    assert(parent_of(after, t, dj) == mapped_id(
                        after,
                        t,
                        root,
                        nodes[i].external_id,
                    ));
                }
            } else {
                assert(nodes[j] == node);
            }
        }
        if any_tenant == t {
            lemma_regraft(cur, after, t, d);
        } else {
            lemma_same_parents(cur, after, any_tenant, d);
        }
    }
}

proof fn lemma_pruned_forest(
    ds: Seq<DepartmentRowView>,
    members: Seq<UserOrgRowView>,
    t: Seq<char>,
    stale: Seq<DepartmentRowView>,
    any_tenant: Seq<char>,
)
    requires
        forest(ds, any_tenant),
    ensures
        forest(all_pruned(ds, members, t, stale).departments, any_tenant),
    decreases stale.len(),
{
    if stale.len() > 0 {
        lemma_pruned_forest(ds, members, t, stale.drop_last(), any_tenant);
        let cur = all_pruned(ds, members, t, stale.drop_last()).departments;
        if delete_refusal(cur, members, t, stale.last().id) is None {
            delete_keeps_forest(cur, members, t, stale.last().id, any_tenant);
        }
    }
}

/// Mapping a branch of a directory whose entries have distinct external ids, under identifiers
/// that were unused, keeps every group's departments a forest.
pub proof fn mapping_keeps_forest(
    departments: Seq<DepartmentRowView>,
    members: Seq<UserOrgRowView>,
    tenant_id: Seq<char>,
    root: Seq<char>,
    all: Seq<DirectoryDepartmentRefView>,
    nodes: Seq<DirectoryDepartmentRefView>,
    ids: Seq<Seq<char>>,
    now: i64,
    any_tenant: Seq<char>,
)
    requires
        forest(departments, any_tenant),
        unique_ids(departments),
        ids_unused(departments, ids),
        ids.no_duplicates(),
        ids.len() == nodes.len(),
        distinct_entries(all),
        is_plan(all, root, nodes),
    ensures
        forest(
            all_pruned(
                all_written(departments, tenant_id, root, nodes, ids, now).departments,
                members,
                tenant_id,
                departments.filter(fell_out(tenant_id, root, ext_ids(nodes))),
            ).departments,
            any_tenant,
        ),
{
    let exts = ext_ids(nodes);
    assert forall|k: int| 0 <= k < nodes.len() implies (#[trigger] nodes[k]).external_id == root
        || under_earlier(nodes, k) by {
        assert(exts[k] == nodes[k].external_id);
        if k > 0 {
            assert(has_earlier_parent(all, exts, k));
            let j = choose|j: int| 0 <= j < k && edge(all, #[trigger] exts[j], exts[k]);
            let l = link(exts[j], exts[k]);
            let m = choose|m: int| 0 <= m < all.len() && l(#[trigger] all[m]);
            lemma_first(all, entry_of(nodes[k].external_id));
            let q = choose|q: int| 0 <= q < all.len() && all[q] == nodes[k];
            if m != q {
                assert(all[m].external_id != all[q].external_id);
            }
            assert(exts[j] == nodes[j].external_id);
        } else {
            assert(exts[0] == root);
        }
    }
    lemma_written_forest(departments, tenant_id, root, nodes, ids, now, any_tenant);
    lemma_pruned_forest(
        all_written(departments, tenant_id, root, nodes, ids, now).departments,
        members,
        tenant_id,
        departments.filter(fell_out(tenant_id, root, exts)),
        any_tenant,
    );
}

/// Mapping a branch of a directory whose entries have distinct external ids keeps every group's
/// departments a forest, whichever identifiers are drawn.
pub proof fn subtree_mapping_keeps_forest(
    before: OrgState,
    after: OrgState,
    report: DirectoryMapReport,
    tenant_id: Seq<char>,
    root: Seq<char>,
    all: Seq<DirectoryDepartmentRefView>,
    now: i64,
    any_tenant: Seq<char>,
)
    requires
        forest(before.departments, any_tenant),
        unique_ids(before.departments),
        distinct_entries(all),
        subtree_mapped(before, after, report, tenant_id, root, all, now),
    ensures
        forest(after.departments, any_tenant),
{
    let (nodes, ids) = choose|nodes: Seq<DirectoryDepartmentRefView>, ids: Seq<Seq<char>>|
        is_plan(all, root, nodes) && ids.len() == nodes.len() && department_ids(ids)
            && ids.no_duplicates() && ids_unused(before.departments, ids)
            && #[trigger] branch_mapped(before, after, report, tenant_id, root, nodes, ids, now);
    mapping_keeps_forest(
        before.departments,
        before.members,
        tenant_id,
        root,
        all,
        nodes,
        ids,
        now,
        any_tenant,
    );
}

} // verus!
