//! What a directory mapping leaves in the group: the branch as the directory has it.
use crate::org::departments::{
    assigned_to, child_of, delete_refusal, department_key, not_department_key,
};
use crate::org::directory::{
    all_pruned, all_written, branch_mapped, department_ids, edge, entry_of, ext_ids, fell_out,
    has_earlier_parent, ids_unused, in_subtree, is_path, is_plan, link, local_parent, map_refusal,
    mapped_to, overlaps, subtree_mapped, unique_ids, written,
};
use crate::org::directory_laws::{lemma_fresh_ext, lemma_pruned_leaves};
use crate::org::directory_rerun::{lemma_filter_unique, lemma_written_rows, unique_mappings};
use crate::org::models::{
    DepartmentRowView, DirectoryDepartmentRefView, DirectoryMapReport, UserOrgRowView,
};
use crate::org::service::OrgState;
use crate::table::{
    any, first, lemma_filter_contains, lemma_filter_from, lemma_first, lemma_found_at,
};
use vstd::prelude::*;

verus! {

/// The root is in its branch, and so is every department that the directory puts below one that
/// is.
pub proof fn branch_holds_what_is_below(
    all: Seq<DirectoryDepartmentRefView>,
    root: Seq<char>,
    above: Seq<char>,
    m: int,
)
    ensures
        in_subtree(all, root, root),
        in_subtree(all, root, above) && 0 <= m < all.len() && all[m].parent_external_id == Some(
            above,
        ) ==> in_subtree(all, root, all[m].external_id),
{
    assert(is_path(all, root, root, seq![root]));
    if in_subtree(all, root, above) && 0 <= m < all.len() && all[m].parent_external_id == Some(
        above,
    ) {
        let path = choose|path: Seq<Seq<char>>| #[trigger] is_path(all, root, above, path);
        let ext = all[m].external_id;
        let longer = path.push(ext);
        assert(link(above, ext)(all[m]));
        assert forall|k: int| 0 < k < longer.len() implies edge(
            all,
            longer[k - 1],
            #[trigger] longer[k],
        ) by {
            if k < path.len() {
                assert(edge(all, path[k - 1], path[k]));
            }
        }
        assert(is_path(all, root, ext, longer));
    }
}

/// What is in a branch and is not its root stands in the directory below another one that is in
/// it.
pub proof fn branch_holds_nothing_else(
    all: Seq<DirectoryDepartmentRefView>,
    root: Seq<char>,
    ext: Seq<char>,
) -> (m: int)
    requires
        in_subtree(all, root, ext),
        ext != root,
    ensures
        0 <= m < all.len(),
        all[m].external_id == ext,
        all[m].parent_external_id is Some,
        in_subtree(all, root, all[m].parent_external_id->0),
{
    let path = choose|path: Seq<Seq<char>>| #[trigger] is_path(all, root, ext, path);
    let shorter = path.drop_last();
    let above = shorter.last();
    let k = path.len() - 1;
    assert(edge(all, path[k - 1], path[k]));
    assert forall|i: int| 0 < i < shorter.len() implies edge(
        all,
        shorter[i - 1],
        #[trigger] shorter[i],
    ) by {
        assert(edge(all, path[i - 1], path[i]));
    }
    assert(is_path(all, root, above, shorter));
    let l = link(above, ext);
    choose|m: int| 0 <= m < all.len() && l(#[trigger] all[m])
}

/// The department at a place stands for an entry: it has its name and was written now, and its
/// parent stands for the entry's parent where that was written before.
spec fn follows(
    rows: Seq<DepartmentRowView>,
    t: Seq<char>,
    root: Seq<char>,
    nodes: Seq<DirectoryDepartmentRefView>,
    k: int,
    now: i64,
    i: int,
) -> bool {
    &&& 0 <= i < rows.len()
    &&& mapped_to(t, root, nodes[k].external_id)(rows[i])
    &&& rows[i].name == nodes[k].name
    &&& rows[i].updated_at == now
    &&& nodes[k].external_id == root ==> rows[i].parent_id is None
    &&& forall|j: int|
        0 <= j < k && nodes[k].external_id != root && nodes[k].parent_external_id == Some(
            (#[trigger] nodes[j]).external_id,
        ) ==> has_parent_for(rows, t, root, nodes[j].external_id, rows[i].parent_id)
}

spec fn has_parent_for(
    rows: Seq<DepartmentRowView>,
    t: Seq<char>,
    root: Seq<char>,
    ext: Seq<char>,
    parent_id: Option<Seq<char>>,
) -> bool {
    exists|a: int|
        0 <= a < rows.len() && mapped_to(t, root, ext)(#[trigger] rows[a]) && parent_id == Some(
            rows[a].id,
        )
}

spec fn some_follows(
    rows: Seq<DepartmentRowView>,
    t: Seq<char>,
    root: Seq<char>,
    nodes: Seq<DirectoryDepartmentRefView>,
    k: int,
    now: i64,
) -> bool {
    exists|i: int| #[trigger] follows(rows, t, root, nodes, k, now, i)
}

/// The rows that were there are there at their places, with what tells them apart.
spec fn in_place(ds: Seq<DepartmentRowView>, rows: Seq<DepartmentRowView>) -> bool {
    &&& ds.len() <= rows.len()
    &&& forall|i: int|
        0 <= i < ds.len() ==> {
            &&& (#[trigger] rows[i]).id == ds[i].id
            &&& rows[i].tenant_id == ds[i].tenant_id
            &&& rows[i].source == ds[i].source
            &&& rows[i].directory_external_id == ds[i].directory_external_id
            &&& rows[i].directory_map_root_external_id == ds[i].directory_map_root_external_id
        }
}

proof fn lemma_in_place(
    ds: Seq<DepartmentRowView>,
    t: Seq<char>,
    root: Seq<char>,
    nodes: Seq<DirectoryDepartmentRefView>,
    ids: Seq<Seq<char>>,
    now: i64,
)
    ensures
        in_place(ds, all_written(ds, t, root, nodes, ids, now).departments),
    decreases nodes.len(),
{
    if nodes.len() > 0 {
        let rest = nodes.drop_last();
        lemma_in_place(ds, t, root, rest, ids, now);
        let cur = all_written(ds, t, root, rest, ids, now).departments;
        let after = written(cur, t, root, nodes.last(), ids[nodes.len() - 1], now);
        assert forall|i: int| 0 <= i < ds.len() implies {
            &&& (#[trigger] after[i]).id == ds[i].id
            &&& after[i].tenant_id == ds[i].tenant_id
            &&& after[i].source == ds[i].source
            &&& after[i].directory_external_id == ds[i].directory_external_id
            &&& after[i].directory_map_root_external_id == ds[i].directory_map_root_external_id
        } by {
            assert(cur[i].id == ds[i].id);
        }
    }
}

proof fn lemma_all_follow(
    ds: Seq<DepartmentRowView>,
    t: Seq<char>,
    root: Seq<char>,
    nodes: Seq<DirectoryDepartmentRefView>,
    ids: Seq<Seq<char>>,
    now: i64,
)
    requires
        unique_ids(ds),
        ids_unused(ds, ids),
        ids.no_duplicates(),
        nodes.len() <= ids.len(),
        ext_ids(nodes).no_duplicates(),
    ensures
        forall|k: int|
            0 <= k < nodes.len() ==> #[trigger] some_follows(
                all_written(ds, t, root, nodes, ids, now).departments,
                t,
                root,
                nodes,
                k,
                now,
            ),
    decreases nodes.len(),
{
    if nodes.len() > 0 {
        let rest = nodes.drop_last();
        let node = nodes.last();
        let last = nodes.len() - 1;
        lemma_fresh_ext(nodes);
        lemma_all_follow(ds, t, root, rest, ids, now);
        lemma_written_rows(ds, t, root, rest, ids, now);
        let cur = all_written(ds, t, root, rest, ids, now).departments;
        let after = all_written(ds, t, root, nodes, ids, now).departments;
        let m = mapped_to(t, root, node.external_id);
        lemma_first(cur, m);
        // Rows for other entries are the same rows in both.
        assert forall|i: int, ext: Seq<char>|
            0 <= i < cur.len() && ext != node.external_id && #[trigger] mapped_to(t, root, ext)(
                cur[i],
            ) implies after[i] == cur[i] by {
            if any(cur, m) {
                let q = choose|q: int| 0 <= q < cur.len() && cur[q] == first(cur, m)->0;
                assert(m(cur[q]));
                if cur[i].id == cur[q].id {
                    assert(i == q);
                }
            }
        }
        assert forall|k: int| 0 <= k < nodes.len() implies #[trigger] some_follows(
            after,
            t,
            root,
            nodes,
            k,
            now,
        ) by {
            if k < last {
                assert(rest[k] == nodes[k]);
                assert(ext_ids(nodes)[k] == nodes[k].external_id && ext_ids(nodes)[last]
                    == node.external_id);
                assert(some_follows(cur, t, root, rest, k, now));
                let i = choose|i: int| #[trigger] follows(cur, t, root, rest, k, now, i);
                assert(mapped_to(t, root, nodes[k].external_id)(cur[i]));
                assert(after[i] == cur[i]);
                assert forall|j: int|
                    0 <= j < k && nodes[k].external_id != root && nodes[k].parent_external_id
                        == Some((#[trigger] nodes[j]).external_id) implies has_parent_for(
                    after,
                    t,
                    root,
                    nodes[j].external_id,
                    after[i].parent_id,
                ) by {
                    assert(rest[j] == nodes[j]);
                    let a = choose|a: int|
                        0 <= a < cur.len() && mapped_to(t, root, nodes[j].external_id)(
                            #[trigger] cur[a],
                        ) && cur[i].parent_id == Some(cur[a].id);
                    assert(ext_ids(nodes)[j] == nodes[j].external_id);
                    assert(after[a] == cur[a]);
                }
                assert(follows(after, t, root, nodes, k, now, i));
            } else {
                lemma_last_follows(cur, t, root, nodes, ids[last], now);
            }
        }
    }
}

/// The entry that was just written is followed.
proof fn lemma_last_follows(
    cur: Seq<DepartmentRowView>,
    t: Seq<char>,
    root: Seq<char>,
    nodes: Seq<DirectoryDepartmentRefView>,
    id: Seq<char>,
    now: i64,
)
    requires
        nodes.len() > 0,
        unique_ids(cur),
        ext_ids(nodes).no_duplicates(),
        forall|k: int|
            0 <= k < nodes.len() - 1 ==> #[trigger] some_follows(
                cur,
                t,
                root,
                nodes.drop_last(),
                k,
                now,
            ),
    ensures
        some_follows(
            written(cur, t, root, nodes.last(), id, now),
            t,
            root,
            nodes,
            nodes.len() - 1,
            now,
        ),
{
    let node = nodes.last();
    let last = nodes.len() - 1;
    let rest = nodes.drop_last();
    let after = written(cur, t, root, node, id, now);
    let m = mapped_to(t, root, node.external_id);
    let parent_id = local_parent(cur, t, root, node);
    lemma_first(cur, m);
    let at = if any(cur, m) {
        choose|q: int| 0 <= q < cur.len() && cur[q] == first(cur, m)->0
    } else {
        cur.len() as int
    };
    assert(m(after[at]));
    assert(after[at].name == node.name && after[at].parent_id == parent_id);
    assert forall|j: int|
        0 <= j < last && node.external_id != root && node.parent_external_id == Some(
            (#[trigger] nodes[j]).external_id,
        ) implies has_parent_for(after, t, root, nodes[j].external_id, after[at].parent_id) by {
        let ext = nodes[j].external_id;
        let p = mapped_to(t, root, ext);
        assert(some_follows(cur, t, root, rest, j, now));
        let i = choose|i: int| #[trigger] follows(cur, t, root, rest, j, now, i);
        assert(rest[j] == nodes[j]);
        assert(p(cur[i]));
        lemma_first(cur, p);
        let a = choose|a: int| 0 <= a < cur.len() && cur[a] == first(cur, p)->0;
        assert(ext_ids(nodes)[j] == ext && ext_ids(nodes)[last] == node.external_id);
        assert(p(cur[a]));
        assert(p(after[a]) && after[a].id == cur[a].id);
    }
    assert(follows(after, t, root, nodes, last, now, at));
}

/// A row of the branch is not one that fell out of it.
proof fn lemma_branch_row_is_not_stale(
    ds: Seq<DepartmentRowView>,
    rows: Seq<DepartmentRowView>,
    t: Seq<char>,
    root: Seq<char>,
    exts: Seq<Seq<char>>,
    i: int,
    ext: Seq<char>,
)
    requires
        in_place(ds, rows),
        unique_ids(rows),
        0 <= i < rows.len(),
        exts.contains(ext),
        mapped_to(t, root, ext)(rows[i]),
    ensures
        forall|k: int|
            0 <= k < ds.filter(fell_out(t, root, exts)).len() ==> (#[trigger] ds.filter(
                fell_out(t, root, exts),
            )[k]).id != rows[i].id,
{
    let p = fell_out(t, root, exts);
    let stale = ds.filter(p);
    assert forall|k: int| 0 <= k < stale.len() implies (#[trigger] stale[k]).id != rows[i].id by {
        ds.lemma_filter_pred(p, k);
        lemma_filter_from(ds, p, k);
        let q = choose|q: int| 0 <= q < ds.len() && ds[q] == stale[k];
        assert(rows[q].id == ds[q].id);
        if q != i {
            assert(rows[q].id != rows[i].id);
        }
    }
}

/// After a mapping, every department that the directory has in the branch stands in the group
/// under the name that the directory gives it, written now. The root of the branch is a root;
/// every other stands below the one that stands for its parent in the directory.
pub proof fn mapping_follows_the_directory(
    before: OrgState,
    after: OrgState,
    report: DirectoryMapReport,
    tenant_id: Seq<char>,
    root: Seq<char>,
    all: Seq<DirectoryDepartmentRefView>,
    now: i64,
    e: int,
) -> (at: (int, int))
    requires
        unique_ids(before.departments),
        unique_mappings(before.departments, tenant_id, root),
        subtree_mapped(before, after, report, tenant_id, root, all, now),
        0 <= e < all.len(),
        in_subtree(all, root, all[e].external_id),
        forall|i: int| 0 <= i < e ==> (#[trigger] all[i]).external_id != all[e].external_id,
    ensures
        0 <= at.0 < after.departments.len(),
        ({
            let row = after.departments[at.0];
            &&& row.tenant_id == tenant_id
            &&& row.source == Some("directory"@)
            &&& row.directory_external_id == Some(all[e].external_id)
            &&& row.directory_map_root_external_id == Some(root)
            &&& row.name == all[e].name
            &&& row.updated_at == now
            &&& all[e].external_id == root ==> row.parent_id is None
        }),
        all[e].external_id != root && (forall|i: int|
            0 <= i < all.len() && i != e ==> (#[trigger] all[i]).external_id != all[e].external_id)
            ==> {
            &&& 0 <= at.1 < after.departments.len()
            &&& after.departments[at.1].tenant_id == tenant_id
            &&& after.departments[at.1].source == Some("directory"@)
            &&& after.departments[at.1].directory_map_root_external_id == Some(root)
            &&& all[e].parent_external_id is Some
            &&& after.departments[at.1].directory_external_id == all[e].parent_external_id
            &&& after.departments[at.0].parent_id == Some(after.departments[at.1].id)
        },
{
    let ds = before.departments;
    let (nodes, ids) = choose|nodes: Seq<DirectoryDepartmentRefView>, ids: Seq<Seq<char>>|
        is_plan(all, root, nodes) && ids.len() == nodes.len() && department_ids(ids)
            && ids.no_duplicates() && ids_unused(ds, ids)
            && #[trigger] branch_mapped(before, after, report, tenant_id, root, nodes, ids, now);
    let exts = ext_ids(nodes);
    let ext = all[e].external_id;
    let rows = all_written(ds, tenant_id, root, nodes, ids, now).departments;
    let stale = ds.filter(fell_out(tenant_id, root, exts));
    lemma_in_place(ds, tenant_id, root, nodes, ids, now);
    lemma_all_follow(ds, tenant_id, root, nodes, ids, now);
    lemma_written_rows(ds, tenant_id, root, nodes, ids, now);
    assert(exts.contains(ext));
    let k = choose|k: int| 0 <= k < exts.len() && exts[k] == ext;
    lemma_found_at(all, entry_of(ext), e);
    assert(nodes[k].external_id == ext);
    assert(nodes[k] == all[e]);
    assert(some_follows(rows, tenant_id, root, nodes, k, now));
    let i = choose|i: int| #[trigger] follows(rows, tenant_id, root, nodes, k, now, i);
    lemma_branch_row_is_not_stale(ds, rows, tenant_id, root, exts, i, ext);
    assert(rows.contains(rows[i]));
    lemma_pruned_leaves(rows, before.members, tenant_id, stale, rows[i]);
    let x = choose|x: int|
        0 <= x < after.departments.len() && after.departments[x] == rows[i];
    if ext != root && (forall|o: int|
        0 <= o < all.len() && o != e ==> (#[trigger] all[o]).external_id != ext) {
        assert(has_earlier_parent(all, exts, k));
        let j = choose|j: int| 0 <= j < k && edge(all, #[trigger] exts[j], exts[k]);
        let l = link(exts[j], exts[k]);
        let n = choose|n: int| 0 <= n < all.len() && l(#[trigger] all[n]);
        assert(all[n].external_id == ext);
        assert(n == e);
        assert(nodes[j].external_id == exts[j]);
        assert(has_parent_for(rows, tenant_id, root, nodes[j].external_id, rows[i].parent_id));
        let a = choose|a: int|
            0 <= a < rows.len() && mapped_to(tenant_id, root, nodes[j].external_id)(
                #[trigger] rows[a],
            ) && rows[i].parent_id == Some(rows[a].id);
        assert(exts.contains(exts[j]));
        lemma_branch_row_is_not_stale(ds, rows, tenant_id, root, exts, a, exts[j]);
        assert(rows.contains(rows[a]));
        lemma_pruned_leaves(rows, before.members, tenant_id, stale, rows[a]);
        let y = choose|y: int|
            0 <= y < after.departments.len() && after.departments[y] == rows[a];
        (x, y)
    } else {
        (x, x)
    }
}

proof fn lemma_member_keeps(
    rows: Seq<DepartmentRowView>,
    members: Seq<UserOrgRowView>,
    t: Seq<char>,
    stale: Seq<DepartmentRowView>,
    row: DepartmentRowView,
)
    requires
        rows.contains(row),
        any(members, assigned_to(row.id, t)),
    ensures
        all_pruned(rows, members, t, stale).departments.contains(row),
        forall|k: int|
            0 <= k < stale.len() && (#[trigger] stale[k]).id == row.id ==> all_pruned(
                rows,
                members,
                t,
                stale,
            ).kept.contains(stale[k].name),
    decreases stale.len(),
{
    if stale.len() > 0 {
        let rest = stale.drop_last();
        lemma_member_keeps(rows, members, t, rest, row);
        let so_far = all_pruned(rows, members, t, rest);
        let done = all_pruned(rows, members, t, stale);
        let r = stale.last();
        lemma_filter_contains(so_far.departments, not_department_key(r.id, t), row);
        if r.id == row.id {
            assert(delete_refusal(so_far.departments, members, t, r.id) is Some);
        }
        assert forall|k: int|
            0 <= k < stale.len() && (#[trigger] stale[k]).id == row.id implies done.kept.contains(
            stale[k].name,
        ) by {
            if k < rest.len() {
                assert(rest[k] == stale[k]);
                let x = choose|x: int|
                    0 <= x < so_far.kept.len() && so_far.kept[x] == stale[k].name;
                assert(done.kept[x] == stale[k].name);
            } else {
                assert(done.kept[so_far.kept.len() as int] == r.name);
            }
        }
    }
}

/// A department that fell out of the branch and still has members stays, and is reported as kept.
pub proof fn fallen_department_with_members_stays(
    before: OrgState,
    after: OrgState,
    report: DirectoryMapReport,
    tenant_id: Seq<char>,
    root: Seq<char>,
    all: Seq<DirectoryDepartmentRefView>,
    now: i64,
    d: int,
    m: int,
) -> (at: int)
    requires
        subtree_mapped(before, after, report, tenant_id, root, all, now),
        0 <= d < before.departments.len(),
        before.departments[d].tenant_id == tenant_id,
        before.departments[d].source == Some("directory"@),
        before.departments[d].directory_map_root_external_id == Some(root),
        before.departments[d].directory_external_id is Some,
        !in_subtree(all, root, before.departments[d].directory_external_id->0),
        0 <= m < before.members.len(),
        before.members[m].tenant_id == tenant_id,
        before.members[m].department_id == Some(before.departments[d].id),
    ensures
        0 <= at < after.departments.len(),
        after.departments[at].id == before.departments[d].id,
        report@.kept_with_local_data.contains(before.departments[d].name),
{
    let ds = before.departments;
    let (nodes, ids) = choose|nodes: Seq<DirectoryDepartmentRefView>, ids: Seq<Seq<char>>|
        is_plan(all, root, nodes) && ids.len() == nodes.len() && department_ids(ids)
            && ids.no_duplicates() && ids_unused(ds, ids)
            && #[trigger] branch_mapped(before, after, report, tenant_id, root, nodes, ids, now);
    let exts = ext_ids(nodes);
    let rows = all_written(ds, tenant_id, root, nodes, ids, now).departments;
    let p = fell_out(tenant_id, root, exts);
    let stale = ds.filter(p);
    lemma_in_place(ds, tenant_id, root, nodes, ids, now);
    assert(rows[d].id == ds[d].id);
    assert(rows.contains(rows[d]));
    assert(assigned_to(rows[d].id, tenant_id)(before.members[m]));
    lemma_member_keeps(rows, before.members, tenant_id, stale, rows[d]);
    lemma_filter_contains(ds, p, ds[d]);
    assert(p(ds[d]));
    let k = choose|k: int| 0 <= k < stale.len() && stale[k] == ds[d];
    assert(stale[k].id == rows[d].id);
    choose|at: int| 0 <= at < after.departments.len() && after.departments[at] == rows[d]
}

/// No department stands below the one with an identifier.
spec fn childless(rows: Seq<DepartmentRowView>, id: Seq<char>) -> bool {
    forall|i: int| 0 <= i < rows.len() ==> (#[trigger] rows[i]).parent_id != Some(id)
}

proof fn lemma_stays_childless(
    ds: Seq<DepartmentRowView>,
    t: Seq<char>,
    root: Seq<char>,
    nodes: Seq<DirectoryDepartmentRefView>,
    ids: Seq<Seq<char>>,
    now: i64,
    d: int,
    ext: Seq<char>,
)
    requires
        unique_ids(ds),
        ids_unused(ds, ids),
        ids.no_duplicates(),
        nodes.len() <= ids.len(),
        0 <= d < ds.len(),
        mapped_to(t, root, ext)(ds[d]),
        !any(ds, child_of(ds[d].id)),
        forall|k: int|
            0 <= k < nodes.len() ==> (#[trigger] nodes[k]).external_id == root
                || nodes[k].parent_external_id != Some(ext),
    ensures
        childless(all_written(ds, t, root, nodes, ids, now).departments, ds[d].id),
    decreases nodes.len(),
{
    let id = ds[d].id;
    if nodes.len() == 0 {
        assert forall|i: int| 0 <= i < ds.len() implies (#[trigger] ds[i]).parent_id != Some(id) by {
            if child_of(id)(ds[i]) {
                assert(any(ds, child_of(id)));
            }
        }
    } else {
        let rest = nodes.drop_last();
        let node = nodes.last();
        assert forall|k: int| 0 <= k < rest.len() implies (#[trigger] rest[k]).external_id == root
            || rest[k].parent_external_id != Some(ext) by {
            assert(rest[k] == nodes[k]);
        }
        lemma_stays_childless(ds, t, root, rest, ids, now, d, ext);
        lemma_in_place(ds, t, root, rest, ids, now);
        lemma_written_rows(ds, t, root, rest, ids, now);
        let cur = all_written(ds, t, root, rest, ids, now).departments;
        let after = all_written(ds, t, root, nodes, ids, now).departments;
        let parent_id = local_parent(cur, t, root, node);
        assert(nodes[nodes.len() - 1].external_id == root || nodes[nodes.len()
            - 1].parent_external_id != Some(ext));
        if parent_id == Some(id) {
            let other = node.parent_external_id->0;
            let p = mapped_to(t, root, other);
            lemma_first(cur, p);
            let a = choose|a: int| 0 <= a < cur.len() && cur[a] == first(cur, p)->0;
            assert(cur[d].id == id);
            assert(a == d);
            assert(false);
        }
        assert forall|i: int| 0 <= i < after.len() implies (#[trigger] after[i]).parent_id != Some(
            id,
        ) by {
            if i < cur.len() {
                assert(cur[i].parent_id != Some(id));
            }
        }
    }
}

proof fn lemma_empty_goes(
    rows: Seq<DepartmentRowView>,
    members: Seq<UserOrgRowView>,
    t: Seq<char>,
    stale: Seq<DepartmentRowView>,
    k: int,
)
    requires
        0 <= k < stale.len(),
        forall|i: int| 0 <= i < rows.len() ==> (#[trigger] rows[i]).parent_id != Some(stale[k].id),
        forall|j: int| 0 <= j < stale.len() && j != k ==> (#[trigger] stale[j]).id != stale[k].id,
        !any(members, assigned_to(stale[k].id, t)),
        exists|i: int|
            0 <= i < rows.len() && (#[trigger] rows[i]).id == stale[k].id && rows[i].tenant_id == t,
    ensures
        forall|i: int|
            0 <= i < all_pruned(rows, members, t, stale).departments.len() ==> !((
            #[trigger] all_pruned(rows, members, t, stale).departments[i]).id == stale[k].id
                && all_pruned(rows, members, t, stale).departments[i].tenant_id == t),
        all_pruned(rows, members, t, stale).removed.contains(stale[k].name),
    decreases stale.len(),
{
    let rest = stale.drop_last();
    let so_far = all_pruned(rows, members, t, rest);
    let done = all_pruned(rows, members, t, stale);
    let r = stale.last();
    let id = stale[k].id;
    let keep = not_department_key(r.id, t);
    if k < rest.len() {
        assert(rest[k] == stale[k]);
        assert forall|j: int| 0 <= j < rest.len() && j != k implies (#[trigger] rest[j]).id
            != rest[k].id by {
            assert(rest[j] == stale[j]);
        }
        lemma_empty_goes(rows, members, t, rest, k);
        assert forall|i: int| 0 <= i < done.departments.len() implies !((
        #[trigger] done.departments[i]).id == id && done.departments[i].tenant_id == t) by {
            if delete_refusal(so_far.departments, members, t, r.id) is None {
                lemma_filter_from(so_far.departments, keep, i);
                let q = choose|q: int|
                    0 <= q < so_far.departments.len() && so_far.departments[q]
                        == done.departments[i];
                assert(!(so_far.departments[q].id == id && so_far.departments[q].tenant_id == t));
            }
        }
        let x = choose|x: int|
            0 <= x < so_far.removed.len() && so_far.removed[x] == stale[k].name;
        assert(done.removed[x] == stale[k].name);
    } else {
        lemma_pruned_from(rows, members, t, rest);
        let i = choose|i: int|
            0 <= i < rows.len() && (#[trigger] rows[i]).id == id && rows[i].tenant_id == t;
        assert forall|j: int| 0 <= j < rest.len() implies (#[trigger] rest[j]).id != rows[i].id by {
            assert(rest[j] == stale[j]);
        }
        assert(rows.contains(rows[i]));
        lemma_pruned_leaves(rows, members, t, rest, rows[i]);
        let q = choose|q: int|
            0 <= q < so_far.departments.len() && so_far.departments[q] == rows[i];
        assert(department_key(id, t)(so_far.departments[q]));
        if any(so_far.departments, child_of(id)) {
            let c = choose|c: int|
                0 <= c < so_far.departments.len() && child_of(id)(#[trigger] so_far.departments[c]);
            assert(rows.contains(so_far.departments[c]));
            let o = choose|o: int| 0 <= o < rows.len() && rows[o] == so_far.departments[c];
            assert(rows[o].parent_id != Some(id));
        }
        assert(delete_refusal(so_far.departments, members, t, r.id) is None);
        assert forall|j: int| 0 <= j < done.departments.len() implies !((
        #[trigger] done.departments[j]).id == id && done.departments[j].tenant_id == t) by {
            so_far.departments.lemma_filter_pred(keep, j);
        }
        assert(done.removed[so_far.removed.len() as int] == r.name);
    }
}

proof fn lemma_pruned_from(
    rows: Seq<DepartmentRowView>,
    members: Seq<UserOrgRowView>,
    t: Seq<char>,
    stale: Seq<DepartmentRowView>,
)
    ensures
        forall|i: int|
            0 <= i < all_pruned(rows, members, t, stale).departments.len() ==> rows.contains(
                #[trigger] all_pruned(rows, members, t, stale).departments[i],
            ),
    decreases stale.len(),
{
    let done = all_pruned(rows, members, t, stale).departments;
    if stale.len() > 0 {
        let rest = stale.drop_last();
        lemma_pruned_from(rows, members, t, rest);
        let cur = all_pruned(rows, members, t, rest).departments;
        let keep = not_department_key(stale.last().id, t);
        assert forall|i: int| 0 <= i < done.len() implies rows.contains(#[trigger] done[i]) by {
            if delete_refusal(cur, members, t, stale.last().id) is None {
                lemma_filter_from(cur, keep, i);
                let q = choose|q: int| 0 <= q < cur.len() && cur[q] == done[i];
                assert(rows.contains(cur[q]));
            } else {
                assert(rows.contains(cur[i]));
            }
        }
    } else {
        assert forall|i: int| 0 <= i < done.len() implies rows.contains(#[trigger] done[i]) by {
            assert(rows[i] == done[i]);
        }
    }
}

/// A department that fell out of the branch, that nobody is assigned to and that no other stands
/// below goes, and is reported as removed.
pub proof fn empty_fallen_department_goes(
    before: OrgState,
    after: OrgState,
    report: DirectoryMapReport,
    tenant_id: Seq<char>,
    root: Seq<char>,
    all: Seq<DirectoryDepartmentRefView>,
    now: i64,
    d: int,
)
    requires
        unique_ids(before.departments),
        unique_mappings(before.departments, tenant_id, root),
        subtree_mapped(before, after, report, tenant_id, root, all, now),
        0 <= d < before.departments.len(),
        before.departments[d].tenant_id == tenant_id,
        before.departments[d].source == Some("directory"@),
        before.departments[d].directory_map_root_external_id == Some(root),
        before.departments[d].directory_external_id is Some,
        !in_subtree(all, root, before.departments[d].directory_external_id->0),
        forall|m: int|
            0 <= m < before.members.len() ==> !((#[trigger] before.members[m]).tenant_id
                == tenant_id && before.members[m].department_id == Some(before.departments[d].id)),
        forall|i: int|
            0 <= i < before.departments.len() ==> (#[trigger] before.departments[i]).parent_id
                != Some(before.departments[d].id),
        forall|e: int|
            0 <= e < all.len() && in_subtree(all, root, (#[trigger] all[e]).external_id)
                ==> all[e].external_id == root || all[e].parent_external_id
                != before.departments[d].directory_external_id,
    ensures
        forall|i: int|
            0 <= i < after.departments.len() ==> !((#[trigger] after.departments[i]).id
                == before.departments[d].id && after.departments[i].tenant_id == tenant_id),
        report@.removed.contains(before.departments[d].name),
{
    let ds = before.departments;
    let ext = ds[d].directory_external_id->0;
    let (nodes, ids) = choose|nodes: Seq<DirectoryDepartmentRefView>, ids: Seq<Seq<char>>|
        is_plan(all, root, nodes) && ids.len() == nodes.len() && department_ids(ids)
            && ids.no_duplicates() && ids_unused(ds, ids)
            && #[trigger] branch_mapped(before, after, report, tenant_id, root, nodes, ids, now);
    let exts = ext_ids(nodes);
    let rows = all_written(ds, tenant_id, root, nodes, ids, now).departments;
    let p = fell_out(tenant_id, root, exts);
    let stale = ds.filter(p);
    assert(mapped_to(tenant_id, root, ext)(ds[d]));
    assert(!any(ds, child_of(ds[d].id)));
    assert forall|k: int| 0 <= k < nodes.len() implies (#[trigger] nodes[k]).external_id == root
        || nodes[k].parent_external_id != Some(ext) by {
        let q = entry_of(nodes[k].external_id);
        lemma_first(all, q);
        let e = choose|e: int| 0 <= e < all.len() && all[e] == nodes[k];
        assert(exts[k] == nodes[k].external_id);
        assert(exts.contains(exts[k]));
        assert(in_subtree(all, root, all[e].external_id));
    }
    lemma_stays_childless(ds, tenant_id, root, nodes, ids, now, d, ext);
    lemma_in_place(ds, tenant_id, root, nodes, ids, now);
    lemma_filter_contains(ds, p, ds[d]);
    let k = choose|k: int| 0 <= k < stale.len() && stale[k] == ds[d];
    lemma_filter_unique(ds, p);
    assert forall|j: int| 0 <= j < stale.len() && j != k implies (#[trigger] stale[j]).id
        != stale[k].id by {}
    assert(rows[d].id == stale[k].id && rows[d].tenant_id == tenant_id);
    assert(!any(before.members, assigned_to(stale[k].id, tenant_id)));
    lemma_empty_goes(rows, before.members, tenant_id, stale, k);
}

/// A branch cannot be mapped where one of its departments stands in the group already for another
/// mapping, where the directory is empty or does not have the root, or without a root.
pub proof fn mapping_is_refused_only_so(
    st: OrgState,
    tenant_id: Seq<char>,
    root: Seq<char>,
    all: Seq<DirectoryDepartmentRefView>,
)
    ensures
        map_refusal(st, tenant_id, root, all) is None <==> root.len() > 0 && (exists|e: int|
            0 <= e < all.len() && (#[trigger] all[e]).external_id == root) && (forall|i: int|
            0 <= i < st.departments.len() ==> !((#[trigger] st.departments[i]).tenant_id
                == tenant_id && st.departments[i].source == Some("directory"@)
                && st.departments[i].directory_map_root_external_id is Some
                && st.departments[i].directory_map_root_external_id != Some(root)
                && st.departments[i].directory_external_id is Some && in_subtree(
                all,
                root,
                st.departments[i].directory_external_id->0,
            ))),
{
    let p = entry_of(root);
    let q = overlaps(tenant_id, root, all);
    lemma_first(st.departments, q);
    if any(all, p) {
        let e = choose|e: int| 0 <= e < all.len() && p(#[trigger] all[e]);
        assert(all[e].external_id == root);
    } else {
        assert forall|e: int| 0 <= e < all.len() implies (#[trigger] all[e]).external_id != root by {
            if p(all[e]) {
                assert(any(all, p));
            }
        }
    }
    if any(st.departments, q) {
        let i = choose|i: int| 0 <= i < st.departments.len() && q(#[trigger] st.departments[i]);
        assert(st.departments[i].tenant_id == tenant_id);
    } else {
        assert forall|i: int| 0 <= i < st.departments.len() implies !((
        #[trigger] st.departments[i]).tenant_id == tenant_id && st.departments[i].source == Some(
            "directory"@,
        ) && st.departments[i].directory_map_root_external_id is Some
            && st.departments[i].directory_map_root_external_id != Some(root)
            && st.departments[i].directory_external_id is Some && in_subtree(
            all,
            root,
            st.departments[i].directory_external_id->0,
        )) by {
            if q(st.departments[i]) {
                assert(any(st.departments, q));
            }
        }
    }
}

} // verus!
