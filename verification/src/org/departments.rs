//! The department tree of a project group.
use crate::ids::{is_short_id, unused_id};
use crate::org::error::{bad_request, forbidden, OrgError, OrgErrorView};
use crate::org::membership::{is_member, member_key};
use crate::org::models::{
    department_dto, DepartmentDto, DepartmentDtoView, DepartmentRow, DepartmentRowView, UserOrgRow,
    UserOrgRowView,
};
use crate::org::service::{OrgService, OrgState};
use crate::table::{
    any, any_where, done, find_where, first, keep_where, lemma_first, list_where, lists, map_rows,
    views,
};
use crate::text::{clone_opt, opt_is, opt_str, own_opt, same, texts, trim, trimmed_text};
use vstd::prelude::*;

verus! {

pub open spec fn department_key(id: Seq<char>, tenant_id: Seq<char>) -> spec_fn(
    DepartmentRowView,
) -> bool {
    |r: DepartmentRowView| r.id == id && r.tenant_id == tenant_id
}

pub open spec fn not_department_key(id: Seq<char>, tenant_id: Seq<char>) -> spec_fn(
    DepartmentRowView,
) -> bool {
    |r: DepartmentRowView| !(r.id == id && r.tenant_id == tenant_id)
}

pub open spec fn department_with_id(id: Seq<char>) -> spec_fn(DepartmentRowView) -> bool {
    |r: DepartmentRowView| r.id == id
}

pub open spec fn child_of(id: Seq<char>) -> spec_fn(DepartmentRowView) -> bool {
    |r: DepartmentRowView| r.parent_id == Some(id)
}

pub open spec fn departments_of(tenant_id: Seq<char>) -> spec_fn(DepartmentRowView) -> bool {
    |r: DepartmentRowView| r.tenant_id == tenant_id
}

pub open spec fn oldest_department_first(
) -> spec_fn(DepartmentRowView, DepartmentRowView) -> bool {
    |a: DepartmentRowView, b: DepartmentRowView| a.created_at <= b.created_at
}

/// A member of the group who is assigned to the department.
pub open spec fn assigned_to(
    id: Seq<char>,
    tenant_id: Seq<char>,
) -> spec_fn(UserOrgRowView) -> bool {
    |r: UserOrgRowView| r.department_id == Some(id) && r.tenant_id == tenant_id
}

/// The parent that a department of the group names.
pub open spec fn parent_of(
    departments: Seq<DepartmentRowView>,
    tenant_id: Seq<char>,
    id: Seq<char>,
) -> Option<Seq<char>> {
    match first(departments, department_key(id, tenant_id)) {
        Some(r) => r.parent_id,
        None => None,
    }
}

/// Whether `ancestor` is met within `hops` steps up from `candidate`, itself included.
pub open spec fn descends(
    departments: Seq<DepartmentRowView>,
    tenant_id: Seq<char>,
    candidate: Seq<char>,
    ancestor: Seq<char>,
    hops: nat,
) -> bool
    decreases hops,
{
    candidate == ancestor || (hops > 0 && match parent_of(departments, tenant_id, candidate) {
        Some(p) => descends(departments, tenant_id, p, ancestor, (hops - 1) as nat),
        None => false,
    })
}

/// A top-level or child department made by hand.
pub open spec fn manual_department(
    id: Seq<char>,
    tenant_id: Seq<char>,
    parent_id: Option<Seq<char>>,
    name: Seq<char>,
    now: i64,
) -> DepartmentRowView {
    DepartmentRowView {
        id,
        tenant_id,
        parent_id,
        name,
        source: None,
        directory_external_id: None,
        directory_map_root_external_id: None,
        created_at: now,
        updated_at: now,
    }
}

/// Why a department with this name and parent is not made.
pub open spec fn create_refusal(
    st: OrgState,
    tenant_id: Seq<char>,
    name: Seq<char>,
    parent_id: Option<Seq<char>>,
) -> Option<OrgErrorView> {
    if trimmed_text(name).len() == 0 {
        Some(OrgErrorView::BadRequest("department name is required"@))
    } else if parent_id matches Some(p) && !any(st.departments, department_key(p, tenant_id)) {
        Some(OrgErrorView::DepartmentNotFound)
    } else {
        None
    }
}

/// Why a department is not deleted.
pub open spec fn delete_refusal(
    departments: Seq<DepartmentRowView>,
    members: Seq<UserOrgRowView>,
    tenant_id: Seq<char>,
    id: Seq<char>,
) -> Option<OrgErrorView> {
    if any(departments, child_of(id)) {
        Some(
            OrgErrorView::BadRequest("department has sub-departments; move or delete them first"@),
        )
    } else if any(members, assigned_to(id, tenant_id)) {
        Some(
            OrgErrorView::BadRequest("department still has members assigned; reassign them first"@),
        )
    } else if !any(departments, department_key(id, tenant_id)) {
        Some(OrgErrorView::DepartmentNotFound)
    } else {
        None
    }
}

/// Why a department is not moved.
pub open spec fn move_refusal(
    st: OrgState,
    tenant_id: Seq<char>,
    id: Seq<char>,
    new_parent: Option<Seq<char>>,
) -> Option<OrgErrorView> {
    if new_parent == Some(id) {
        Some(OrgErrorView::BadRequest("a department cannot be its own parent"@))
    } else if new_parent matches Some(p) && !any(st.departments, department_key(p, tenant_id)) {
        Some(OrgErrorView::DepartmentNotFound)
    } else if new_parent matches Some(p) && descends(
        st.departments,
        tenant_id,
        p,
        id,
        st.departments.len(),
    ) {
        Some(OrgErrorView::BadRequest("cannot move a department under its own descendant"@))
    } else if !any(st.departments, department_key(id, tenant_id)) {
        Some(OrgErrorView::DepartmentNotFound)
    } else {
        None
    }
}

/// The departments with one of them moved under another parent.
pub open spec fn moved(
    departments: Seq<DepartmentRowView>,
    tenant_id: Seq<char>,
    id: Seq<char>,
    new_parent: Option<Seq<char>>,
    now: i64,
) -> Seq<DepartmentRowView> {
    departments.map_values(
        |r: DepartmentRowView|
            if department_key(id, tenant_id)(r) {
                DepartmentRowView { parent_id: new_parent, updated_at: now, ..r }
            } else {
                r
            },
    )
}

/// The departments with one of them renamed.
pub open spec fn renamed(
    departments: Seq<DepartmentRowView>,
    tenant_id: Seq<char>,
    id: Seq<char>,
    name: Seq<char>,
    now: i64,
) -> Seq<DepartmentRowView> {
    departments.map_values(
        |r: DepartmentRowView|
            if department_key(id, tenant_id)(r) {
                DepartmentRowView { name, updated_at: now, ..r }
            } else {
                r
            },
    )
}

/// The department that an identifier names, as callers see it.
pub open spec fn shown_department(departments: Seq<DepartmentRowView>, id: Seq<char>) -> Option<
    DepartmentDtoView,
> {
    match first(departments, department_with_id(id)) {
        Some(r) => Some(department_dto(r)),
        None => None,
    }
}

/// The memberships with one person's department set.
pub open spec fn assigned(
    members: Seq<UserOrgRowView>,
    tenant_id: Seq<char>,
    user_id: Seq<char>,
    department_id: Option<Seq<char>>,
    now: i64,
) -> Seq<UserOrgRowView> {
    members.map_values(
        |r: UserOrgRowView|
            if member_key(user_id, tenant_id)(r) {
                UserOrgRowView { department_id, updated_at: now, ..r }
            } else {
                r
            },
    )
}

/// The departments of a group as listed, oldest first.
pub open spec fn departments_shown(
    st: OrgState,
    tenant_id: Seq<char>,
    out: Seq<DepartmentDtoView>,
) -> bool {
    lists(
        out,
        st.departments,
        departments_of(tenant_id),
        oldest_department_first(),
        |r: DepartmentRowView| department_dto(r),
    )
}

/// What assigning a member to a department does and how it is answered.
pub open spec fn member_assigned(
    before: OrgState,
    after: OrgState,
    tenant_id: Seq<char>,
    user_id: Seq<char>,
    department_id: Option<Seq<char>>,
    now: i64,
    r: Result<(), OrgErrorView>,
) -> bool {
    if department_id matches Some(d) && !any(before.departments, department_key(d, tenant_id)) {
        &&& r == Err::<(), OrgErrorView>(OrgErrorView::DepartmentNotFound)
        &&& after == before
    } else if !is_member(before, user_id, tenant_id) {
        &&& r == Err::<(), OrgErrorView>(
            OrgErrorView::Forbidden("user is not a member of this tenant"@),
        )
        &&& after == before
    } else {
        &&& r is Ok
        &&& after == (OrgState {
            members: assigned(before.members, tenant_id, user_id, department_id, now),
            ..before
        })
    }
}

/// What deleting a department does and how it is answered.
pub open spec fn department_deleted(
    before: OrgState,
    after: OrgState,
    tenant_id: Seq<char>,
    department_id: Seq<char>,
    r: Result<(), OrgErrorView>,
) -> bool {
    match delete_refusal(before.departments, before.members, tenant_id, department_id) {
        Some(why) => r == Err::<(), OrgErrorView>(why) && after == before,
        None => r is Ok && after == (OrgState {
            departments: before.departments.filter(not_department_key(department_id, tenant_id)),
            ..before
        }),
    }
}

impl OrgService {
    pub(crate) fn department_at(&self, id: &str, tenant_id: &str) -> (r: Option<usize>)
        ensures
            match r {
                Some(i) => i < self.departments.len() && first(
                    self@.departments,
                    department_key(id@, tenant_id@),
                ) == Some(self.departments@[i as int]@),
                None => first(self@.departments, department_key(id@, tenant_id@)) is None,
            },
            r is Some <==> any(self@.departments, department_key(id@, tenant_id@)),
    {
        let f = |r: &DepartmentRow| -> (b: bool)
            ensures
                b == department_key(id@, tenant_id@)(r@),
            { same(r.id.as_str(), id) && same(r.tenant_id.as_str(), tenant_id) };
        find_where(&self.departments, f, Ghost(department_key(id@, tenant_id@)))
    }

    fn has_parent_in(&self, parent_id: Option<&str>, tenant_id: &str) -> (r: bool)
        ensures
            r == (opt_str(parent_id) matches Some(p) ==> any(
                self@.departments,
                department_key(p, tenant_id@),
            )),
    {
        match parent_id {
            Some(p) => self.department_at(p, tenant_id).is_some(),
            None => true,
        }
    }

    fn department_shown(&self, id: &str) -> (r: Option<DepartmentDto>)
        ensures
            match r {
                Some(d) => shown_department(self@.departments, id@) == Some(d@),
                None => shown_department(self@.departments, id@) is None,
            },
    {
        let f = |r: &DepartmentRow| -> (b: bool)
            ensures
                b == department_with_id(id@)(r@),
            { same(r.id.as_str(), id) };
        match find_where(&self.departments, f, Ghost(department_with_id(id@))) {
            Some(i) => Some(DepartmentDto::of(&self.departments[i])),
            None => None,
        }
    }

    /// Makes a department under the given identifier.
    pub fn insert_department(
        &mut self,
        id: String,
        tenant_id: &str,
        name: &str,
        parent_id: Option<&str>,
        now: i64,
    ) -> (r: Result<DepartmentDto, OrgError>)
        ensures
            match create_refusal(old(self)@, tenant_id@, name@, opt_str(parent_id)) {
                Some(why) => (r matches Err(e) && e@ == why) && final(self)@ == old(self)@,
                None => {
                    let row = manual_department(
                        id@,
                        tenant_id@,
                        opt_str(parent_id),
                        trimmed_text(name@),
                        now,
                    );
                    &&& r matches Ok(d) && d@ == department_dto(row)
                    &&& final(self)@ == (OrgState {
                        departments: old(self)@.departments.push(row),
                        ..old(self)@
                    })
                },
            },
    {
        let name = trim(name);
        if name.as_str().is_empty() {
            return Err(bad_request("department name is required"));
        }
        if !self.has_parent_in(parent_id, tenant_id) {
            return Err(OrgError::DepartmentNotFound);
        }
        let ghost before = self@.departments;
        let row = DepartmentRow {
            id,
            tenant_id: tenant_id.to_owned(),
            parent_id: own_opt(parent_id),
            name,
            source: None,
            directory_external_id: None,
            directory_map_root_external_id: None,
            created_at: now,
            updated_at: now,
        };
        let dto = DepartmentDto::of(&row);
        self.departments.push(row);
        proof {
            assert(self@.departments =~= before.push(row@));
        }
        Ok(dto)
    }

    /// The identifiers of all departments.
    pub(crate) fn department_id_list(&self) -> (out: Vec<String>)
        ensures
            texts(out@) == self@.departments.map_values(|r: DepartmentRowView| r.id),
    {
        let ghost whole = self@.departments.map_values(|r: DepartmentRowView| r.id);
        let mut out: Vec<String> = Vec::new();
        let mut i: usize = 0;
        while i < self.departments.len()
            invariant
                whole == self@.departments.map_values(|r: DepartmentRowView| r.id),
                i <= self.departments.len(),
                texts(out@) =~= whole.take(i as int),
            decreases self.departments.len() - i,
        {
            let ghost before = out@;
            out.push(self.departments[i].id.clone());
            proof {
                assert(texts(out@) =~= texts(before).push(whole[i as int]));
            }
            i = i + 1;
        }
        proof {
            assert(whole.take(i as int) =~= whole);
        }
        out
    }

    /// Makes a department, at the top level or under a parent of the same group, with an
    /// identifier that no department has.
    pub fn create_department(
        &mut self,
        tenant_id: &str,
        name: &str,
        parent_id: Option<&str>,
        now: i64,
    ) -> (r: Result<DepartmentDto, OrgError>)
        ensures
            match create_refusal(old(self)@, tenant_id@, name@, opt_str(parent_id)) {
                Some(why) => (r matches Err(e) && e@ == why) && final(self)@ == old(self)@,
                None => {
                    &&& r matches Ok(d) && is_short_id("dept"@, d@.id) && !any(
                        old(self)@.departments,
                        department_with_id(d@.id),
                    ) && ({
                        let row = manual_department(
                            d@.id,
                            tenant_id@,
                            opt_str(parent_id),
                            trimmed_text(name@),
                            now,
                        );
                        &&& d@ == department_dto(row)
                        &&& final(self)@ == (OrgState {
                            departments: old(self)@.departments.push(row),
                            ..old(self)@
                        })
                    })
                },
            },
    {
        let used = self.department_id_list();
        let id = unused_id("dept", &used);
        proof {
            let ids = self@.departments.map_values(|r: DepartmentRowView| r.id);
            assert forall|i: int| 0 <= i < self@.departments.len() implies !department_with_id(id@)(
                #[trigger] self@.departments[i],
            ) by {
                assert(ids[i] == self@.departments[i].id);
            }
        }
        self.insert_department(id, tenant_id, name, parent_id, now)
    }

    /// The departments of a group, oldest first.
    pub fn list_departments(&self, tenant_id: &str) -> (out: Vec<DepartmentDto>)
        ensures
            departments_shown(self@, tenant_id@, views(out@)),
    {
        let f = |r: &DepartmentRow| -> (b: bool)
            ensures
                b == departments_of(tenant_id@)(r@),
            { same(r.tenant_id.as_str(), tenant_id) };
        let l = |a: &DepartmentRow, b: &DepartmentRow| -> (c: bool)
            ensures
                c == oldest_department_first()(a@, b@),
            { a.created_at <= b.created_at };
        let mk = |r: &DepartmentRow| -> (d: DepartmentDto)
            ensures
                d@ == department_dto(r@),
            { DepartmentDto::of(r) };
        list_where(
            &self.departments,
            f,
            l,
            mk,
            Ghost(departments_of(tenant_id@)),
            Ghost(oldest_department_first()),
            Ghost(|r: DepartmentRowView| department_dto(r)),
        )
    }

    pub fn rename_department(
        &mut self,
        tenant_id: &str,
        department_id: &str,
        name: &str,
        now: i64,
    ) -> (r: Result<DepartmentDto, OrgError>)
        ensures
            if trimmed_text(name@).len() == 0 {
                &&& r matches Err(e) && e@ == OrgErrorView::BadRequest(
                    "department name is required"@,
                )
                &&& final(self)@ == old(self)@
            } else if !any(old(self)@.departments, department_key(department_id@, tenant_id@)) {
                &&& r matches Err(e) && e@ == OrgErrorView::DepartmentNotFound
                &&& final(self)@ == old(self)@
            } else {
                &&& final(self)@ == (OrgState {
                    departments: renamed(
                        old(self)@.departments,
                        tenant_id@,
                        department_id@,
                        trimmed_text(name@),
                        now,
                    ),
                    ..old(self)@
                })
                &&& r matches Ok(d) && shown_department(final(self)@.departments, department_id@)
                    == Some(d@)
            },
    {
        let name = trim(name);
        if name.as_str().is_empty() {
            return Err(bad_request("department name is required"));
        }
        if self.department_at(department_id, tenant_id).is_none() {
            return Err(OrgError::DepartmentNotFound);
        }
        let ghost g = |r: DepartmentRowView|
            if department_key(department_id@, tenant_id@)(r) {
                DepartmentRowView { name: name@, updated_at: now, ..r }
            } else {
                r
            };
        let u = |r: &DepartmentRow| -> (y: DepartmentRow)
            ensures
                y@ == g(r@),
            {
                let mut y = r.copy();
                if same(r.id.as_str(), department_id) && same(r.tenant_id.as_str(), tenant_id) {
                    y.name = name.clone();
                    y.updated_at = now;
                }
                y
            };
        map_rows(&mut self.departments, u, Ghost(g));
        proof {
            lemma_still_shown(old(self)@.departments, g, department_id@, tenant_id@);
        }
        match self.department_shown(department_id) {
            Some(d) => Ok(d),
            None => Err(OrgError::DepartmentNotFound),
        }
    }

    /// Deletes a department that has neither children nor members.
    pub fn delete_department(&mut self, tenant_id: &str, department_id: &str) -> (r: Result<
        (),
        OrgError,
    >)
        ensures
            department_deleted(
                old(self)@,
                final(self)@,
                tenant_id@,
                department_id@,
                done(r),
            ),
    {
        let c = |r: &DepartmentRow| -> (b: bool)
            ensures
                b == child_of(department_id@)(r@),
            { opt_is(&r.parent_id, department_id) };
        if any_where(&self.departments, c, Ghost(child_of(department_id@))) {
            return Err(
                bad_request("department has sub-departments; move or delete them first"),
            );
        }
        let m = |r: &UserOrgRow| -> (b: bool)
            ensures
                b == assigned_to(department_id@, tenant_id@)(r@),
            { opt_is(&r.department_id, department_id) && same(r.tenant_id.as_str(), tenant_id) };
        if any_where(&self.members, m, Ghost(assigned_to(department_id@, tenant_id@))) {
            return Err(
                bad_request("department still has members assigned; reassign them first"),
            );
        }
        if self.department_at(department_id, tenant_id).is_none() {
            return Err(OrgError::DepartmentNotFound);
        }
        let k = |r: &DepartmentRow| -> (b: bool)
            ensures
                b == not_department_key(department_id@, tenant_id@)(r@),
            { !(same(r.id.as_str(), department_id) && same(r.tenant_id.as_str(), tenant_id)) };
        keep_where(
            &mut self.departments,
            k,
            Ghost(not_department_key(department_id@, tenant_id@)),
        );
        Ok(())
    }

    /// Sets or clears a member's department.
    pub fn assign_member_department(
        &mut self,
        tenant_id: &str,
        user_id: &str,
        department_id: Option<&str>,
        now: i64,
    ) -> (r: Result<(), OrgError>)
        ensures
            member_assigned(
                old(self)@,
                final(self)@,
                tenant_id@,
                user_id@,
                opt_str(department_id),
                now,
                done(r),
            ),
    {
        if !self.has_parent_in(department_id, tenant_id) {
            return Err(OrgError::DepartmentNotFound);
        }
        if !self.has_membership(user_id, tenant_id) {
            return Err(forbidden("user is not a member of this tenant"));
        }
        let ghost g = |r: UserOrgRowView|
            if member_key(user_id@, tenant_id@)(r) {
                UserOrgRowView { department_id: opt_str(department_id), updated_at: now, ..r }
            } else {
                r
            };
        let u = |r: &UserOrgRow| -> (y: UserOrgRow)
            ensures
                y@ == g(r@),
            {
                let mut y = r.copy();
                if same(r.user_id.as_str(), user_id) && same(r.tenant_id.as_str(), tenant_id) {
                    y.department_id = own_opt(department_id);
                    y.updated_at = now;
                }
                y
            };
        map_rows(&mut self.members, u, Ghost(g));
        Ok(())
    }

    /// Whether `candidate` is `ancestor` or below it. The walk up takes no more steps than there
    /// are departments.
    pub fn is_descendant_of(&self, tenant_id: &str, candidate: &str, ancestor: &str) -> (r: bool)
        ensures
            r == descends(
                self@.departments,
                tenant_id@,
                candidate@,
                ancestor@,
                self@.departments.len(),
            ),
    {
        let mut current = candidate.to_owned();
        let mut left: usize = self.departments.len();
        loop
            invariant
                descends(
                    self@.departments,
                    tenant_id@,
                    candidate@,
                    ancestor@,
                    self@.departments.len(),
                ) == descends(self@.departments, tenant_id@, current@, ancestor@, left as nat),
            decreases left,
        {
            if same(current.as_str(), ancestor) {
                return true;
            }
            if left == 0 {
                return false;
            }
            let parent = match self.department_at(current.as_str(), tenant_id) {
                Some(i) => clone_opt(&self.departments[i].parent_id),
                None => None,
            };
            match parent {
                Some(p) => {
                    current = p;
                    left = left - 1;
                },
                None => {
                    return false;
                },
            }
        }
    }

    /// Moves a department under another parent, or to the top level.
    pub fn set_department_parent(
        &mut self,
        tenant_id: &str,
        department_id: &str,
        new_parent_id: Option<&str>,
        now: i64,
    ) -> (r: Result<DepartmentDto, OrgError>)
        ensures
            match move_refusal(old(self)@, tenant_id@, department_id@, opt_str(new_parent_id)) {
                Some(why) => (r matches Err(e) && e@ == why) && final(self)@ == old(self)@,
                None => {
                    &&& final(self)@ == (OrgState {
                        departments: moved(
                            old(self)@.departments,
                            tenant_id@,
                            department_id@,
                            opt_str(new_parent_id),
                            now,
                        ),
                        ..old(self)@
                    })
                    &&& r matches Ok(d) && shown_department(
                        final(self)@.departments,
                        department_id@,
                    ) == Some(d@)
                },
            },
    {
        if let Some(p) = new_parent_id {
            if same(department_id, p) {
                return Err(bad_request("a department cannot be its own parent"));
            }
            if self.department_at(p, tenant_id).is_none() {
                return Err(OrgError::DepartmentNotFound);
            }
            if self.is_descendant_of(tenant_id, p, department_id) {
                return Err(bad_request("cannot move a department under its own descendant"));
            }
        }
        if self.department_at(department_id, tenant_id).is_none() {
            return Err(OrgError::DepartmentNotFound);
        }
        let ghost g = |r: DepartmentRowView|
            if department_key(department_id@, tenant_id@)(r) {
                DepartmentRowView { parent_id: opt_str(new_parent_id), updated_at: now, ..r }
            } else {
                r
            };
        let u = |r: &DepartmentRow| -> (y: DepartmentRow)
            ensures
                y@ == g(r@),
            {
                let mut y = r.copy();
                if same(r.id.as_str(), department_id) && same(r.tenant_id.as_str(), tenant_id) {
                    y.parent_id = own_opt(new_parent_id);
                    y.updated_at = now;
                }
                y
            };
        map_rows(&mut self.departments, u, Ghost(g));
        proof {
            lemma_still_shown(old(self)@.departments, g, department_id@, tenant_id@);
        }
        match self.department_shown(department_id) {
            Some(d) => Ok(d),
            None => Err(OrgError::DepartmentNotFound),
        }
    }
}

/// A department is still found after its other columns changed.
proof fn lemma_still_shown(
    departments: Seq<DepartmentRowView>,
    g: spec_fn(DepartmentRowView) -> DepartmentRowView,
    id: Seq<char>,
    tenant_id: Seq<char>,
)
    requires
        any(departments, department_key(id, tenant_id)),
        forall|r: DepartmentRowView| (#[trigger] g(r)).id == r.id,
    ensures
        shown_department(departments.map_values(g), id) is Some,
{
    let i = choose|i: int|
        0 <= i < departments.len() && department_key(id, tenant_id)(#[trigger] departments[i]);
    let after = departments.map_values(g);
    assert(department_with_id(id)(after[i]));
    lemma_first(after, department_with_id(id));
}

} // verus!
