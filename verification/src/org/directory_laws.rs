//! What a directory mapping leaves alone, and what running it again does.
use crate::org::departments::{delete_refusal, department_with_id, not_department_key};
use crate::org::directory::{
    all_pruned, all_written, ext_ids, fell_out, ids_unused, local_parent, mapped_id, mapped_to,
    owned_by, unique_ids, written,
};
use crate::org::models::{DepartmentRowView, DirectoryDepartmentRefView, UserOrgRowView};
use crate::table::{
    any, first, lemma_any_filter, lemma_any_map, lemma_any_push, lemma_filter_from, lemma_first,
    lemma_first_map, lemma_first_push,
};
use vstd::prelude::*;

verus! {

/// Whether an identifier belongs to a department that the mapping owns outside the branch.
spec fn stale_id(
    departments: Seq<DepartmentRowView>,
    tenant_id: Seq<char>,
    root: Seq<char>,
    exts: Seq<Seq<char>>,
    id: Seq<char>,
) -> bool {
    any(
        departments,
        |r: DepartmentRowView| fell_out(tenant_id, root, exts)(r) && r.id == id,
    )
}

/// A department that stands for the external id and does not fall out of the branch.
spec fn staying(
    departments: Seq<DepartmentRowView>,
    tenant_id: Seq<char>,
    root: Seq<char>,
    exts: Seq<Seq<char>>,
    ext: Seq<char>,
) -> spec_fn(DepartmentRowView) -> bool {
    |r: DepartmentRowView|
        mapped_to(tenant_id, root, ext)(r) && !stale_id(departments, tenant_id, root, exts, r.id)
}

/// Writing one entry changes which department stands for that entry's external id only.
pub proof fn lemma_written_maps(
    ds: Seq<DepartmentRowView>,
    t: Seq<char>,
    root: Seq<char>,
    node: DirectoryDepartmentRefView,
    id: Seq<char>,
    now: i64,
    ext: Seq<char>,
)
    requires
        ext != node.external_id,
    ensures
        mapped_id(written(ds, t, root, node, id, now), t, root, ext) == mapped_id(ds, t, root, ext),
{
    let parent_id = local_parent(ds, t, root, node);
    let p = mapped_to(t, root, ext);
    match mapped_id(ds, t, root, node.external_id) {
        Some(existing) => {
            let g = |r: DepartmentRowView|
                if r.id == existing {
                    DepartmentRowView { name: node.name, parent_id, updated_at: now, ..r }
                } else {
                    r
                };
            assert(written(ds, t, root, node, id, now) == ds.map_values(g));
            lemma_first_map(ds, p, g);
        },
        None => {
            let after = written(ds, t, root, node, id, now);
            lemma_first_push(ds, after.last(), p);
            assert(after =~= ds.push(after.last()));
        },
    }
}

proof fn lemma_untouched_maps(
    ds: Seq<DepartmentRowView>,
    t: Seq<char>,
    root: Seq<char>,
    nodes: Seq<DirectoryDepartmentRefView>,
    ids: Seq<Seq<char>>,
    now: i64,
    ext: Seq<char>,
)
    requires
        !ext_ids(nodes).contains(ext),
    ensures
        mapped_id(all_written(ds, t, root, nodes, ids, now).departments, t, root, ext)
            == mapped_id(ds, t, root, ext),
    decreases nodes.len(),
{
    if nodes.len() > 0 {
        let rest = nodes.drop_last();
        assert(!ext_ids(rest).contains(ext)) by {
            if ext_ids(rest).contains(ext) {
                let q = choose|q: int| 0 <= q < rest.len() && ext_ids(rest)[q] == ext;
                assert(ext_ids(nodes)[q] == ext);
            }
        }
        assert(nodes.last().external_id != ext) by {
            assert(ext_ids(nodes)[nodes.len() - 1] == nodes.last().external_id);
        }
        lemma_untouched_maps(ds, t, root, rest, ids, now, ext);
        let so_far = all_written(ds, t, root, rest, ids, now);
        lemma_written_maps(
            so_far.departments,
            t,
            root,
            nodes.last(),
            ids[nodes.len() - 1],
            now,
            ext,
        );
    }
}

pub proof fn lemma_fresh_ext(nodes: Seq<DirectoryDepartmentRefView>)
    requires
        nodes.len() > 0,
        ext_ids(nodes).no_duplicates(),
    ensures
        ext_ids(nodes.drop_last()).no_duplicates(),
        !ext_ids(nodes.drop_last()).contains(nodes.last().external_id),
{
    let rest = nodes.drop_last();
    assert(ext_ids(rest) =~= ext_ids(nodes).drop_last());
    if ext_ids(rest).contains(nodes.last().external_id) {
        let q = choose|q: int| 0 <= q < rest.len() && ext_ids(rest)[q] == nodes.last().external_id;
        assert(ext_ids(nodes)[q] == ext_ids(nodes)[nodes.len() - 1]);
    }
}

proof fn lemma_written_leaves(
    ds: Seq<DepartmentRowView>,
    t: Seq<char>,
    root: Seq<char>,
    nodes: Seq<DirectoryDepartmentRefView>,
    ids: Seq<Seq<char>>,
    now: i64,
    r: DepartmentRowView,
)
    requires
        unique_ids(ds),
        ext_ids(nodes).no_duplicates(),
        ds.contains(r),
        !owned_by(t, root)(r),
    ensures
        all_written(ds, t, root, nodes, ids, now).departments.contains(r),
    decreases nodes.len(),
{
    if nodes.len() > 0 {
        let rest = nodes.drop_last();
        let node = nodes.last();
        lemma_fresh_ext(nodes);
        lemma_written_leaves(ds, t, root, rest, ids, now, r);
        lemma_untouched_maps(ds, t, root, rest, ids, now, node.external_id);
        let cur = all_written(ds, t, root, rest, ids, now).departments;
        let after = written(cur, t, root, node, ids[nodes.len() - 1], now);
        let i = choose|i: int| 0 <= i < cur.len() && cur[i] == r;
        match mapped_id(cur, t, root, node.external_id) {
            Some(existing) => {
                let p = mapped_to(t, root, node.external_id);
                lemma_first(ds, p);
                let q = first(ds, p)->0;
                let a = choose|a: int| 0 <= a < ds.len() && ds[a] == q;
                let b = choose|b: int| 0 <= b < ds.len() && ds[b] == r;
                assert(a != b);
                assert(r.id != existing);
                assert(after[i] == r);
            },
            None => {
                assert(after[i] == r);
            },
        }
    }
}

pub proof fn lemma_pruned_leaves(
    ds: Seq<DepartmentRowView>,
    members: Seq<UserOrgRowView>,
    t: Seq<char>,
    stale: Seq<DepartmentRowView>,
    r: DepartmentRowView,
)
    requires
        ds.contains(r),
        forall|k: int| 0 <= k < stale.len() ==> (#[trigger] stale[k]).id != r.id,
    ensures
        all_pruned(ds, members, t, stale).departments.contains(r),
    decreases stale.len(),
{
    broadcast use vstd::seq_lib::group_filter_ensures;

    if stale.len() > 0 {
        let rest = stale.drop_last();
        assert(forall|k: int| 0 <= k < rest.len() ==> #[trigger] rest[k] == stale[k]);
        lemma_pruned_leaves(ds, members, t, rest, r);
        let cur = all_pruned(ds, members, t, rest).departments;
        let i = choose|i: int| 0 <= i < cur.len() && cur[i] == r;
        assert(stale[stale.len() - 1].id != r.id);
        assert(not_department_key(stale.last().id, t)(cur[i]));
    }
}

/// A mapping never touches a department that it does not own: one made by hand, one of another
/// mapping, or one of another project group.
pub proof fn mapping_leaves_others_alone(
    departments: Seq<DepartmentRowView>,
    members: Seq<UserOrgRowView>,
    tenant_id: Seq<char>,
    root: Seq<char>,
    nodes: Seq<DirectoryDepartmentRefView>,
    ids: Seq<Seq<char>>,
    now: i64,
    other: DepartmentRowView,
)
    requires
        unique_ids(departments),
        ext_ids(nodes).no_duplicates(),
        departments.contains(other),
        !owned_by(tenant_id, root)(other),
    ensures
        all_pruned(
            all_written(departments, tenant_id, root, nodes, ids, now).departments,
            members,
            tenant_id,
            departments.filter(fell_out(tenant_id, root, ext_ids(nodes))),
        ).departments.contains(other),
{
    broadcast use vstd::seq_lib::group_filter_ensures;

    lemma_written_leaves(departments, tenant_id, root, nodes, ids, now, other);
    let p = fell_out(tenant_id, root, ext_ids(nodes));
    let stale = departments.filter(p);
    let b = choose|b: int| 0 <= b < departments.len() && departments[b] == other;
    assert forall|k: int| 0 <= k < stale.len() implies (#[trigger] stale[k]).id != other.id by {
        assert(p(stale[k]));
        lemma_filter_from(departments, p, k);
        let a = choose|a: int| 0 <= a < departments.len() && departments[a] == stale[k];
        assert(a != b);
    }
    lemma_pruned_leaves(
        all_written(departments, tenant_id, root, nodes, ids, now).departments,
        members,
        tenant_id,
        stale,
        other,
    );
}

proof fn lemma_written_stays(
    ds: Seq<DepartmentRowView>,
    t: Seq<char>,
    root: Seq<char>,
    exts: Seq<Seq<char>>,
    nodes: Seq<DirectoryDepartmentRefView>,
    ids: Seq<Seq<char>>,
    now: i64,
    ext: Seq<char>,
)
    requires
        unique_ids(ds),
        ids_unused(ds, ids),
        nodes.len() <= ids.len(),
        ext_ids(nodes).no_duplicates(),
        forall|k: int| 0 <= k < nodes.len() ==> exts.contains((#[trigger] nodes[k]).external_id),
        ext_ids(nodes).contains(ext),
    ensures
        any(
            all_written(ds, t, root, nodes, ids, now).departments,
            staying(ds, t, root, exts, ext),
        ),
    decreases nodes.len(),
{
    let rest = nodes.drop_last();
    let node = nodes.last();
    let cur = all_written(ds, t, root, rest, ids, now).departments;
    let id = ids[nodes.len() - 1];
    let after = written(cur, t, root, node, id, now);
    let p = staying(ds, t, root, exts, ext);
    let parent_id = local_parent(cur, t, root, node);
    lemma_fresh_ext(nodes);
    lemma_untouched_maps(ds, t, root, rest, ids, now, node.external_id);
    if ext != node.external_id {
        let q = choose|q: int| 0 <= q < nodes.len() && ext_ids(nodes)[q] == ext;
        assert(ext_ids(rest)[q] == ext);
        assert(forall|k: int| 0 <= k < rest.len() ==> #[trigger] rest[k] == nodes[k]);
        lemma_written_stays(ds, t, root, exts, rest, ids, now, ext);
    }
    match mapped_id(cur, t, root, node.external_id) {
        Some(existing) => {
            let g = |r: DepartmentRowView|
                if r.id == existing {
                    DepartmentRowView { name: node.name, parent_id, updated_at: now, ..r }
                } else {
                    r
                };
            assert(after == cur.map_values(g));
            if ext == node.external_id {
                let m = mapped_to(t, root, ext);
                lemma_first(cur, m);
                lemma_first(ds, m);
                let w = first(cur, m)->0;
                let q = first(ds, m)->0;
                let i = choose|i: int| 0 <= i < cur.len() && cur[i] == w;
                let a = choose|a: int| 0 <= a < ds.len() && ds[a] == q;
                assert(exts.contains(nodes[nodes.len() - 1].external_id));
                if stale_id(ds, t, root, exts, w.id) {
                    let b = choose|b: int|
                        0 <= b < ds.len() && fell_out(t, root, exts)(#[trigger] ds[b]) && ds[b].id
                            == w.id;
                    assert(ds[a].id == ds[b].id);
                    assert(a == b);
                }
                assert(p(cur[i]));
            }
            lemma_any_map(cur, p, g);
        },
        None => {
            let row = after.last();
            assert(after =~= cur.push(row));
            if ext == node.external_id {
                assert(!any(ds, department_with_id(id)));
                if stale_id(ds, t, root, exts, id) {
                    let b = choose|b: int|
                        0 <= b < ds.len() && fell_out(t, root, exts)(#[trigger] ds[b]) && ds[b].id
                            == id;
                    assert(department_with_id(id)(ds[b]));
                }
                assert(p(row));
            }
            lemma_any_push(cur, row, p);
        },
    }
}

proof fn lemma_pruned_stays(
    ds: Seq<DepartmentRowView>,
    wrote: Seq<DepartmentRowView>,
    members: Seq<UserOrgRowView>,
    t: Seq<char>,
    root: Seq<char>,
    exts: Seq<Seq<char>>,
    stale: Seq<DepartmentRowView>,
    ext: Seq<char>,
)
    requires
        any(wrote, staying(ds, t, root, exts, ext)),
        forall|k: int|
            0 <= k < stale.len() ==> stale_id(ds, t, root, exts, (#[trigger] stale[k]).id),
    ensures
        any(all_pruned(wrote, members, t, stale).departments, staying(ds, t, root, exts, ext)),
    decreases stale.len(),
{
    if stale.len() > 0 {
        let rest = stale.drop_last();
        assert(forall|k: int| 0 <= k < rest.len() ==> #[trigger] rest[k] == stale[k]);
        lemma_pruned_stays(ds, wrote, members, t, root, exts, rest, ext);
        let cur = all_pruned(wrote, members, t, rest).departments;
        let last = stale.last();
        assert(stale_id(ds, t, root, exts, stale[stale.len() - 1].id));
        if delete_refusal(cur, members, t, last.id) is None {
            lemma_any_filter(
                cur,
                not_department_key(last.id, t),
                staying(ds, t, root, exts, ext),
            );
        }
    }
}

/// After a mapping with identifiers that were unused, every department of the branch stands in
/// the group.
pub proof fn mapping_covers_branch(
    departments: Seq<DepartmentRowView>,
    members: Seq<UserOrgRowView>,
    tenant_id: Seq<char>,
    root: Seq<char>,
    nodes: Seq<DirectoryDepartmentRefView>,
    ids: Seq<Seq<char>>,
    now: i64,
    ext: Seq<char>,
)
    requires
        unique_ids(departments),
        ids_unused(departments, ids),
        ids.len() == nodes.len(),
        ext_ids(nodes).no_duplicates(),
        ext_ids(nodes).contains(ext),
    ensures
        any(
            all_pruned(
                all_written(departments, tenant_id, root, nodes, ids, now).departments,
                members,
                tenant_id,
                departments.filter(fell_out(tenant_id, root, ext_ids(nodes))),
            ).departments,
            mapped_to(tenant_id, root, ext),
        ),
{
    broadcast use vstd::seq_lib::group_filter_ensures;

    let exts = ext_ids(nodes);
    let p = fell_out(tenant_id, root, exts);
    let stale = departments.filter(p);
    let wrote = all_written(departments, tenant_id, root, nodes, ids, now).departments;
    assert forall|k: int| 0 <= k < nodes.len() implies exts.contains(
        (#[trigger] nodes[k]).external_id,
    ) by {
        assert(exts[k] == nodes[k].external_id);
    }
    lemma_written_stays(departments, tenant_id, root, exts, nodes, ids, now, ext);
    assert forall|k: int| 0 <= k < stale.len() implies stale_id(
        departments,
        tenant_id,
        root,
        exts,
        (#[trigger] stale[k]).id,
    ) by {
        lemma_filter_from(departments, p, k);
        let a = choose|a: int| 0 <= a < departments.len() && departments[a] == stale[k];
        assert(p(stale[k]));
        assert(fell_out(tenant_id, root, exts)(departments[a]));
    }
    lemma_pruned_stays(departments, wrote, members, tenant_id, root, exts, stale, ext);
    let after = all_pruned(wrote, members, tenant_id, stale).departments;
    let s = staying(departments, tenant_id, root, exts, ext);
    let i = choose|i: int| 0 <= i < after.len() && s(#[trigger] after[i]);
    assert(mapped_to(tenant_id, root, ext)(after[i]));
}

/// The names of directory entries.
pub open spec fn names_of(nodes: Seq<DirectoryDepartmentRefView>) -> Seq<Seq<char>> {
    nodes.map_values(|d: DirectoryDepartmentRefView| d.name)
}

/// Where every entry already has its department, writing the entries makes none and updates all.
pub proof fn rerun_creates_nothing(
    departments: Seq<DepartmentRowView>,
    tenant_id: Seq<char>,
    root: Seq<char>,
    nodes: Seq<DirectoryDepartmentRefView>,
    ids: Seq<Seq<char>>,
    now: i64,
)
    requires
        forall|k: int|
            0 <= k < nodes.len() ==> any(
                departments,
                mapped_to(tenant_id, root, (#[trigger] nodes[k]).external_id),
            ),
    ensures
        all_written(departments, tenant_id, root, nodes, ids, now).created.len() == 0,
        all_written(departments, tenant_id, root, nodes, ids, now).updated == names_of(nodes),
        all_written(departments, tenant_id, root, nodes, ids, now).departments.len()
            == departments.len(),
        forall|ext: Seq<char>|
            any(departments, mapped_to(tenant_id, root, ext)) ==> any(
                all_written(departments, tenant_id, root, nodes, ids, now).departments,
                #[trigger] mapped_to(tenant_id, root, ext),
            ),
    decreases nodes.len(),
{
    if nodes.len() == 0 {
        assert(names_of(nodes) =~= Seq::empty());
    } else {
        let rest = nodes.drop_last();
        let node = nodes.last();
        assert(forall|k: int| 0 <= k < rest.len() ==> #[trigger] rest[k] == nodes[k]);
        rerun_creates_nothing(departments, tenant_id, root, rest, ids, now);
        let cur = all_written(departments, tenant_id, root, rest, ids, now).departments;
        let m = mapped_to(tenant_id, root, node.external_id);
        assert(any(departments, mapped_to(tenant_id, root, nodes[nodes.len() - 1].external_id)));
        assert(any(cur, m));
        lemma_first(cur, m);
        assert(names_of(rest).push(node.name) =~= names_of(nodes));
        let existing = mapped_id(cur, tenant_id, root, node.external_id)->0;
        let parent_id = local_parent(cur, tenant_id, root, node);
        let g = |r: DepartmentRowView|
            if r.id == existing {
                DepartmentRowView { name: node.name, parent_id, updated_at: now, ..r }
            } else {
                r
            };
        assert forall|ext: Seq<char>|
            any(departments, mapped_to(tenant_id, root, ext)) implies any(
            all_written(departments, tenant_id, root, nodes, ids, now).departments,
            #[trigger] mapped_to(tenant_id, root, ext),
        ) by {
            lemma_any_map(cur, mapped_to(tenant_id, root, ext), g);
        }
    }
}

} // verus!
