//! What departments hold, and who is assigned to them.
use crate::org::departments::{
    assigned, assigned_to, child_of, create_refusal, department_deleted, department_key,
    department_with_id, departments_of, departments_shown, descends, manual_department,
    member_assigned, move_refusal, moved, not_department_key, oldest_department_first, renamed,
    shown_department,
};
use crate::org::error::OrgErrorView;
use crate::org::membership::is_member;
use crate::org::models::{
    department_dto, DepartmentDtoView, DepartmentRowView, UserOrgRowView,
};
use crate::org::service::OrgState;
use crate::table::{any, lemma_filter_contains, lemma_found_at, listed_rows};
use crate::text::trimmed_text;
use vstd::prelude::*;

verus! {

/// Whether a group has a department.
pub open spec fn has_department(
    departments: Seq<DepartmentRowView>,
    tenant_id: Seq<char>,
    id: Seq<char>,
) -> bool {
    exists|i: int|
        0 <= i < departments.len() && (#[trigger] departments[i]).tenant_id == tenant_id
            && departments[i].id == id
}

proof fn lemma_has_department(
    departments: Seq<DepartmentRowView>,
    tenant_id: Seq<char>,
    id: Seq<char>,
)
    ensures
        has_department(departments, tenant_id, id) <==> any(
            departments,
            department_key(id, tenant_id),
        ),
{
    let p = department_key(id, tenant_id);
    if any(departments, p) {
        let i = choose|i: int| 0 <= i < departments.len() && p(#[trigger] departments[i]);
        assert(departments[i].tenant_id == tenant_id);
    }
    if has_department(departments, tenant_id, id) {
        let i = choose|i: int|
            0 <= i < departments.len() && (#[trigger] departments[i]).tenant_id == tenant_id
                && departments[i].id == id;
        assert(p(departments[i]));
    }
}

/// A department made by hand has the name, the parent and the group given and comes from no
/// directory.
pub proof fn department_is_made_as_asked(
    id: Seq<char>,
    tenant_id: Seq<char>,
    parent_id: Option<Seq<char>>,
    name: Seq<char>,
    now: i64,
)
    ensures
        ({
            let row = manual_department(id, tenant_id, parent_id, name, now);
            &&& row.id == id
            &&& row.tenant_id == tenant_id
            &&& row.parent_id == parent_id
            &&& row.name == name
            &&& row.source is None
            &&& row.directory_external_id is None
            &&& row.directory_map_root_external_id is None
            &&& row.created_at == now
            &&& row.updated_at == now
        }),
{
}

/// A department is shown with what is on record of it.
pub proof fn department_is_shown_as_it_is(row: DepartmentRowView)
    ensures
        department_dto(row).id == row.id,
        department_dto(row).tenant_id == row.tenant_id,
        department_dto(row).parent_id == row.parent_id,
        department_dto(row).name == row.name,
        department_dto(row).created_at == row.created_at,
        department_dto(row).updated_at == row.updated_at,
        department_dto(row).source == row.source,
{
}

/// A department can be made under a name that is not blank and, where a parent is given, under one
/// of the group's own.
pub proof fn making_is_refused_only_so(
    st: OrgState,
    tenant_id: Seq<char>,
    name: Seq<char>,
    parent_id: Option<Seq<char>>,
)
    ensures
        create_refusal(st, tenant_id, name, parent_id) is None <==> trimmed_text(name).len() > 0 && (
        parent_id is None || has_department(st.departments, tenant_id, parent_id->0)),
        trimmed_text(name).len() > 0 && create_refusal(st, tenant_id, name, parent_id) is Some
            ==> create_refusal(st, tenant_id, name, parent_id) == Some(
            OrgErrorView::DepartmentNotFound,
        ),
{
    if let Some(p) = parent_id {
        lemma_has_department(st.departments, tenant_id, p);
    }
}

/// A rename changes the name of one department, and nothing else of any.
pub proof fn rename_is_of_one(
    departments: Seq<DepartmentRowView>,
    tenant_id: Seq<char>,
    id: Seq<char>,
    name: Seq<char>,
    now: i64,
)
    ensures
        renamed(departments, tenant_id, id, name, now).len() == departments.len(),
        forall|i: int|
            0 <= i < departments.len() ==> #[trigger] renamed(
                departments,
                tenant_id,
                id,
                name,
                now,
            )[i] == if departments[i].id == id && departments[i].tenant_id == tenant_id {
                DepartmentRowView { name, updated_at: now, ..departments[i] }
            } else {
                departments[i]
            },
{
}

/// A move changes the parent of one department, and nothing else of any.
pub proof fn move_is_of_one(
    departments: Seq<DepartmentRowView>,
    tenant_id: Seq<char>,
    id: Seq<char>,
    new_parent: Option<Seq<char>>,
    now: i64,
)
    ensures
        moved(departments, tenant_id, id, new_parent, now).len() == departments.len(),
        forall|i: int|
            0 <= i < departments.len() ==> #[trigger] moved(
                departments,
                tenant_id,
                id,
                new_parent,
                now,
            )[i] == if departments[i].id == id && departments[i].tenant_id == tenant_id {
                DepartmentRowView { parent_id: new_parent, updated_at: now, ..departments[i] }
            } else {
                departments[i]
            },
{
}

/// A department can become a root; it can go under another one of the group that does not stand
/// below it, and under no other.
pub proof fn moving_is_refused_only_so(
    st: OrgState,
    tenant_id: Seq<char>,
    id: Seq<char>,
    new_parent: Option<Seq<char>>,
)
    ensures
        move_refusal(st, tenant_id, id, new_parent) is None <==> has_department(
            st.departments,
            tenant_id,
            id,
        ) && (new_parent matches Some(p) ==> p != id && has_department(st.departments, tenant_id, p)
            && !descends(st.departments, tenant_id, p, id, st.departments.len())),
        new_parent == Some(id) ==> move_refusal(st, tenant_id, id, new_parent) is Some,
{
    lemma_has_department(st.departments, tenant_id, id);
    if let Some(p) = new_parent {
        lemma_has_department(st.departments, tenant_id, p);
    }
}

/// A department with others under it or with members in it is not deleted; what is deleted is that
/// department alone.
pub proof fn deletion_takes_one_department(
    before: OrgState,
    after: OrgState,
    tenant_id: Seq<char>,
    department_id: Seq<char>,
    r: Result<(), OrgErrorView>,
    row: DepartmentRowView,
)
    requires
        department_deleted(before, after, tenant_id, department_id, r),
    ensures
        r is Ok <==> has_department(before.departments, tenant_id, department_id) && (forall|i: int|
            0 <= i < before.departments.len() ==> (#[trigger] before.departments[i]).parent_id
                != Some(department_id)) && (forall|i: int|
            0 <= i < before.members.len() ==> !((#[trigger] before.members[i]).tenant_id
                == tenant_id && before.members[i].department_id == Some(department_id))),
        r is Err ==> after == before,
        r is Ok ==> (after.departments.contains(row) <==> before.departments.contains(row) && !(
        row.tenant_id == tenant_id && row.id == department_id)),
        after == (OrgState { departments: after.departments, ..before }),
{
    lemma_has_department(before.departments, tenant_id, department_id);
    lemma_filter_contains(before.departments, not_department_key(department_id, tenant_id), row);
    let p = child_of(department_id);
    let q = assigned_to(department_id, tenant_id);
    if any(before.departments, p) {
        let i = choose|i: int|
            0 <= i < before.departments.len() && p(#[trigger] before.departments[i]);
        assert(before.departments[i].parent_id == Some(department_id));
    } else {
        assert forall|i: int| 0 <= i < before.departments.len() implies (
        #[trigger] before.departments[i]).parent_id != Some(department_id) by {
            if p(before.departments[i]) {
                assert(any(before.departments, p));
            }
        }
        if any(before.members, q) {
            let i = choose|i: int| 0 <= i < before.members.len() && q(#[trigger] before.members[i]);
            assert(before.members[i].tenant_id == tenant_id);
        } else {
            assert forall|i: int| 0 <= i < before.members.len() implies !((
            #[trigger] before.members[i]).tenant_id == tenant_id && before.members[i].department_id
                == Some(department_id)) by {
                if q(before.members[i]) {
                    assert(any(before.members, q));
                }
            }
        }
    }
}

/// A member is assigned to a department of their group, or to none; everyone else stays where they
/// are, and nothing else of anyone changes.
pub proof fn assignment_is_of_one_member(
    before: OrgState,
    after: OrgState,
    tenant_id: Seq<char>,
    user_id: Seq<char>,
    department_id: Option<Seq<char>>,
    now: i64,
    r: Result<(), OrgErrorView>,
)
    requires
        member_assigned(before, after, tenant_id, user_id, department_id, now, r),
    ensures
        r is Ok <==> is_member(before, user_id, tenant_id) && (department_id is None
            || has_department(before.departments, tenant_id, department_id->0)),
        r is Err ==> after == before,
        after == (OrgState { members: after.members, ..before }),
        r is Ok ==> after.members.len() == before.members.len() && forall|i: int|
            0 <= i < before.members.len() ==> #[trigger] after.members[i] == if
                before.members[i].user_id == user_id && before.members[i].tenant_id == tenant_id {
                UserOrgRowView { department_id, updated_at: now, ..before.members[i] }
            } else {
                before.members[i]
            },
{
    if let Some(d) = department_id {
        lemma_has_department(before.departments, tenant_id, d);
    }
}

/// Every department of a group is listed.
pub proof fn group_sees_its_departments(
    st: OrgState,
    tenant_id: Seq<char>,
    out: Seq<DepartmentDtoView>,
    i: int,
) -> (k: int)
    requires
        departments_shown(st, tenant_id, out),
        0 <= i < st.departments.len(),
        st.departments[i].tenant_id == tenant_id,
    ensures
        0 <= k < out.len(),
        out[k].id == st.departments[i].id,
        out[k].tenant_id == tenant_id,
        out[k].parent_id == st.departments[i].parent_id,
        out[k].name == st.departments[i].name,
        out[k].source == st.departments[i].source,
{
    let g = |r: DepartmentRowView| department_dto(r);
    let shown = listed_rows(
        out,
        st.departments,
        departments_of(tenant_id),
        oldest_department_first(),
        g,
    );
    assert(departments_of(tenant_id)(st.departments[i]));
    let k = choose|k: int| 0 <= k < shown.len() && shown[k] == st.departments[i];
    assert(out[k] == g(shown[k]));
    k
}

/// Every department in a listing is one of the group's, and the oldest come first.
pub proof fn departments_are_listed_oldest_first(
    st: OrgState,
    tenant_id: Seq<char>,
    out: Seq<DepartmentDtoView>,
    j: int,
    k: int,
)
    requires
        departments_shown(st, tenant_id, out),
        0 <= j < k < out.len(),
    ensures
        out[j].created_at <= out[k].created_at,
        out[j].tenant_id == tenant_id,
        out[k].tenant_id == tenant_id,
        out.len() == st.departments.filter(|r: DepartmentRowView| r.tenant_id == tenant_id).len(),
{
    let g = |r: DepartmentRowView| department_dto(r);
    let shown = listed_rows(
        out,
        st.departments,
        departments_of(tenant_id),
        oldest_department_first(),
        g,
    );
    assert(departments_of(tenant_id) =~= (|r: DepartmentRowView| r.tenant_id == tenant_id));
    assert(out[j] == g(shown[j]) && out[k] == g(shown[k]));
}

/// The answer to a change shows the department that was changed, as it is now.
pub proof fn changed_department_is_shown(
    departments: Seq<DepartmentRowView>,
    id: Seq<char>,
    at: int,
)
    requires
        0 <= at < departments.len(),
        departments[at].id == id,
        forall|i: int| 0 <= i < at ==> (#[trigger] departments[i]).id != id,
    ensures
        shown_department(departments, id) matches Some(d) && d.id == id && d.tenant_id
            == departments[at].tenant_id && d.name == departments[at].name && d.parent_id
            == departments[at].parent_id,
{
    lemma_found_at(departments, department_with_id(id), at);
}

} // verus!
