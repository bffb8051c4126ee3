//! What keeps departments apart: identifiers, and in a mapping external ids.
use crate::org::departments::{department_with_id, manual_department, moved, renamed};
use crate::org::directory::{mapped_to, subtree_mapped, unique_ids};
use crate::org::directory_rerun::{lemma_filter_unique, mapping_keeps_keys, unique_mappings};
use crate::org::models::{DepartmentRowView, DirectoryDepartmentRefView, DirectoryMapReport};
use crate::org::service::OrgState;
use crate::org::tenants::{disbanded, owned_id};
use crate::table::{any, lemma_filter_from};
use vstd::prelude::*;

verus! {

/// No two departments share an identifier, and in no mapping two stand for the same external id.
pub open spec fn unique_departments(departments: Seq<DepartmentRowView>) -> bool {
    &&& unique_ids(departments)
    &&& forall|tenant_id: Seq<char>, root: Seq<char>| #[trigger]
        unique_mappings(departments, tenant_id, root)
}

/// Where there are no departments yet, none are alike.
pub proof fn no_departments_are_unique()
    ensures
        unique_departments(Seq::empty()),
{
}

/// Departments whose identifiers, groups and mappings are those of unique ones are unique.
proof fn lemma_same_keys(ds: Seq<DepartmentRowView>, after: Seq<DepartmentRowView>)
    requires
        unique_departments(ds),
        after.len() == ds.len(),
        forall|i: int|
            0 <= i < ds.len() ==> {
                &&& (#[trigger] after[i]).id == ds[i].id
                &&& after[i].tenant_id == ds[i].tenant_id
                &&& after[i].source == ds[i].source
                &&& after[i].directory_external_id == ds[i].directory_external_id
                &&& after[i].directory_map_root_external_id == ds[i].directory_map_root_external_id
            },
    ensures
        unique_departments(after),
{
    assert forall|i: int, j: int|
        0 <= i < after.len() && 0 <= j < after.len() && i != j implies (#[trigger] after[i]).id != (
    #[trigger] after[j]).id by {
        assert(ds[i].id != ds[j].id);
    }
    assert forall|t: Seq<char>, root: Seq<char>| #[trigger] unique_mappings(after, t, root) by {
        assert(unique_mappings(ds, t, root));
        assert forall|i: int, j: int, ext: Seq<char>|
            0 <= i < after.len() && 0 <= j < after.len() && #[trigger] mapped_to(t, root, ext)(
                after[i],
            ) && #[trigger] mapped_to(t, root, ext)(after[j]) implies i == j by {
            assert(mapped_to(t, root, ext)(ds[i]) && mapped_to(t, root, ext)(ds[j]));
        }
    }
}

/// A department made by hand under an unused identifier is like no other.
pub proof fn making_keeps_unique(
    departments: Seq<DepartmentRowView>,
    id: Seq<char>,
    tenant_id: Seq<char>,
    parent_id: Option<Seq<char>>,
    name: Seq<char>,
    now: i64,
)
    requires
        unique_departments(departments),
        !any(departments, department_with_id(id)),
    ensures
        unique_departments(
            departments.push(manual_department(id, tenant_id, parent_id, name, now)),
        ),
{
    let ds = departments;
    let after = ds.push(manual_department(id, tenant_id, parent_id, name, now));
    assert forall|i: int, j: int|
        0 <= i < after.len() && 0 <= j < after.len() && i != j implies (#[trigger] after[i]).id != (
    #[trigger] after[j]).id by {
        if i < ds.len() {
            assert(!department_with_id(id)(ds[i]));
        }
        if j < ds.len() {
            assert(!department_with_id(id)(ds[j]));
        }
    }
    assert forall|t: Seq<char>, root: Seq<char>| #[trigger] unique_mappings(after, t, root) by {
        assert(unique_mappings(ds, t, root));
        assert forall|i: int, j: int, ext: Seq<char>|
            0 <= i < after.len() && 0 <= j < after.len() && #[trigger] mapped_to(t, root, ext)(
                after[i],
            ) && #[trigger] mapped_to(t, root, ext)(after[j]) implies i == j by {
            assert(mapped_to(t, root, ext)(ds[i]) && mapped_to(t, root, ext)(ds[j]));
        }
    }
}

/// Renaming a department makes no two alike.
pub proof fn renaming_keeps_unique(
    departments: Seq<DepartmentRowView>,
    tenant_id: Seq<char>,
    id: Seq<char>,
    name: Seq<char>,
    now: i64,
)
    requires
        unique_departments(departments),
    ensures
        unique_departments(renamed(departments, tenant_id, id, name, now)),
{
    lemma_same_keys(departments, renamed(departments, tenant_id, id, name, now));
}

/// Moving a department makes no two alike.
pub proof fn moving_keeps_unique(
    departments: Seq<DepartmentRowView>,
    tenant_id: Seq<char>,
    id: Seq<char>,
    new_parent: Option<Seq<char>>,
    now: i64,
)
    requires
        unique_departments(departments),
    ensures
        unique_departments(moved(departments, tenant_id, id, new_parent, now)),
{
    lemma_same_keys(departments, moved(departments, tenant_id, id, new_parent, now));
}

/// Dropping departments, one of them or those of a company's groups, makes no two alike.
pub proof fn dropping_keeps_unique(
    departments: Seq<DepartmentRowView>,
    keep: spec_fn(DepartmentRowView) -> bool,
)
    requires
        unique_departments(departments),
    ensures
        unique_departments(departments.filter(keep)),
{
    let ds = departments;
    let kept = ds.filter(keep);
    lemma_filter_unique(ds, keep);
    assert forall|t: Seq<char>, root: Seq<char>| #[trigger] unique_mappings(kept, t, root) by {
        assert(unique_mappings(ds, t, root));
        assert forall|i: int, j: int, ext: Seq<char>|
            0 <= i < kept.len() && 0 <= j < kept.len() && #[trigger] mapped_to(t, root, ext)(
                kept[i],
            ) && #[trigger] mapped_to(t, root, ext)(kept[j]) implies i == j by {
            lemma_filter_from(ds, keep, i);
            lemma_filter_from(ds, keep, j);
            let a = choose|a: int| 0 <= a < ds.len() && ds[a] == kept[i];
            let b = choose|b: int| 0 <= b < ds.len() && ds[b] == kept[j];
            assert(mapped_to(t, root, ext)(ds[a]) && mapped_to(t, root, ext)(ds[b]));
            if i != j {
                assert(kept[i].id != kept[j].id);
            }
        }
    }
}

/// Disbanding a company's groups makes no two departments alike.
pub proof fn disbanding_keeps_unique(st: OrgState, enterprise_id: Seq<char>)
    requires
        unique_departments(st.departments),
    ensures
        unique_departments(disbanded(st, enterprise_id).departments),
{
    dropping_keeps_unique(
        st.departments,
        |r: DepartmentRowView| !owned_id(st, enterprise_id, r.tenant_id),
    );
}

/// Mapping a branch of the directory makes no two departments alike.
pub proof fn mapping_keeps_unique(
    before: OrgState,
    after: OrgState,
    report: DirectoryMapReport,
    tenant_id: Seq<char>,
    root: Seq<char>,
    all: Seq<DirectoryDepartmentRefView>,
    now: i64,
)
    requires
        unique_departments(before.departments),
        subtree_mapped(before, after, report, tenant_id, root, all, now),
    ensures
        unique_departments(after.departments),
{
    mapping_keeps_keys(before, after, report, tenant_id, root, all, now);
    assert forall|t: Seq<char>, r: Seq<char>| #[trigger]
        unique_mappings(after.departments, t, r) by {
        assert(unique_mappings(before.departments, t, r));
    }
}

} // verus!
