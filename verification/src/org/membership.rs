//! Who belongs to which project group, acts in which, and as what.
use crate::org::error::{OrgError, OrgErrorView};
use crate::org::models::{
    enterprise_tenant, is_enterprise_tenant_id, ActiveTenantRow, ActiveTenantRowView, OrgContextDto,
    OrgContextDtoView, TenantRow, TenantRowView, UserOrgRow, UserOrgRowView, DEFAULT_TENANT_ID,
    ROLE_MEMBER, ROLE_SYSTEM_ADMIN, SYSTEM_DEFAULT_USER_ID,
};
use crate::org::service::{OrgService, OrgState};
use crate::table::{any, any_where, count_where, find_where, first, least, least_where, map_rows};
use crate::text::{le_text, lemma_text_le_total, lemma_text_le_trans, same, text_le};
use vstd::prelude::*;

verus! {

pub open spec fn member_key(user_id: Seq<char>, tenant_id: Seq<char>) -> spec_fn(
    UserOrgRowView,
) -> bool {
    |r: UserOrgRowView| r.user_id == user_id && r.tenant_id == tenant_id
}

pub open spec fn of_user(user_id: Seq<char>) -> spec_fn(UserOrgRowView) -> bool {
    |r: UserOrgRowView| r.user_id == user_id
}

pub open spec fn of_tenant(tenant_id: Seq<char>) -> spec_fn(UserOrgRowView) -> bool {
    |r: UserOrgRowView| r.tenant_id == tenant_id
}

pub open spec fn tenant_with_id(id: Seq<char>) -> spec_fn(TenantRowView) -> bool {
    |r: TenantRowView| r.id == id
}

pub open spec fn active_of(user_id: Seq<char>) -> spec_fn(ActiveTenantRowView) -> bool {
    |r: ActiveTenantRowView| r.user_id == user_id
}

/// The newest membership first; of two as old, the lesser tenant id.
pub open spec fn newest_first() -> spec_fn(UserOrgRowView, UserOrgRowView) -> bool {
    |a: UserOrgRowView, b: UserOrgRowView|
        a.created_at > b.created_at || (a.created_at == b.created_at && text_le(
            a.tenant_id,
            b.tenant_id,
        ))
}

pub open spec fn is_member(st: OrgState, user_id: Seq<char>, tenant_id: Seq<char>) -> bool {
    any(st.members, member_key(user_id, tenant_id))
}

/// The membership that counts where nothing was chosen: the newest.
pub open spec fn newest_membership(st: OrgState, user_id: Seq<char>) -> Option<UserOrgRowView> {
    least(st.members, of_user(user_id), newest_first())
}

/// A pointer of the user that names a group they belong to.
pub open spec fn live_pointer(st: OrgState, user_id: Seq<char>) -> spec_fn(
    ActiveTenantRowView,
) -> bool {
    |r: ActiveTenantRowView| r.user_id == user_id && is_member(st, user_id, r.tenant_id)
}

/// The project group that a person acts in: the chosen one if they belong to it, else the one
/// joined last, else the default.
pub open spec fn active_tenant(st: OrgState, user_id: Seq<char>) -> Seq<char> {
    match first(st.active, live_pointer(st, user_id)) {
        Some(pointer) => pointer.tenant_id,
        None => match newest_membership(st, user_id) {
            Some(m) => m.tenant_id,
            None => DEFAULT_TENANT_ID@,
        },
    }
}

pub open spec fn membership_in(st: OrgState, user_id: Seq<char>, tenant_id: Seq<char>) -> Option<
    UserOrgRowView,
> {
    first(st.members, member_key(user_id, tenant_id))
}

pub open spec fn tenant_named(st: OrgState, tenant_id: Seq<char>) -> Option<TenantRowView> {
    first(st.tenants, tenant_with_id(tenant_id))
}

/// A person's role in the group they act in. Without a membership the built-in operator
/// governs the instance and everyone else is a plain member.
pub open spec fn role_of(st: OrgState, user_id: Seq<char>) -> Seq<char> {
    match membership_in(st, user_id, active_tenant(st, user_id)) {
        Some(m) => m.role,
        None => if user_id == SYSTEM_DEFAULT_USER_ID@ {
            ROLE_SYSTEM_ADMIN@
        } else {
            ROLE_MEMBER@
        },
    }
}

pub open spec fn member_total(st: OrgState, tenant_id: Seq<char>) -> i64 {
    st.members.filter(of_tenant(tenant_id)).len() as i64
}

/// The pointers with the user's set to a tenant.
pub open spec fn pointed(
    active: Seq<ActiveTenantRowView>,
    user_id: Seq<char>,
    tenant_id: Seq<char>,
    now: i64,
) -> Seq<ActiveTenantRowView> {
    if any(active, active_of(user_id)) {
        repointed(active, user_id, tenant_id, now)
    } else {
        active.push(ActiveTenantRowView { user_id, tenant_id, updated_at: now })
    }
}

pub open spec fn repointed(
    active: Seq<ActiveTenantRowView>,
    user_id: Seq<char>,
    tenant_id: Seq<char>,
    now: i64,
) -> Seq<ActiveTenantRowView> {
    active.map_values(
        |r: ActiveTenantRowView|
            if r.user_id == user_id {
                ActiveTenantRowView { tenant_id, updated_at: now, ..r }
            } else {
                r
            },
    )
}

pub proof fn lemma_newest_first_total()
    ensures
        crate::table::total_order(newest_first()),
{
    let le = newest_first();
    assert forall|a: UserOrgRowView, b: UserOrgRowView| #[trigger] le(a, b) || le(b, a) by {
        lemma_text_le_total(a.tenant_id, b.tenant_id);
    }
    assert forall|a: UserOrgRowView, b: UserOrgRowView, c: UserOrgRowView|
        #[trigger] le(a, b) && #[trigger] le(b, c) implies le(a, c) by {
        if a.created_at == b.created_at && b.created_at == c.created_at {
            lemma_text_le_trans(a.tenant_id, b.tenant_id, c.tenant_id);
        }
    }
}

impl OrgService {
    /// The project group that a person acts in.
    pub fn active_tenant_id(&self, user_id: &str) -> (r: String)
        ensures
            r@ == active_tenant(self@, user_id@),
    {
        let live = |r: &ActiveTenantRow| -> (b: bool)
            ensures
                b == live_pointer(self@, user_id@)(r@),
            {
                same(r.user_id.as_str(), user_id) && self.has_membership(
                    user_id,
                    r.tenant_id.as_str(),
                )
            };
        if let Some(i) = find_where(&self.active, live, Ghost(live_pointer(self@, user_id@))) {
            return self.active[i].tenant_id.clone();
        }
        match self.newest_membership_at(user_id) {
            Some(i) => self.members[i].tenant_id.clone(),
            None => DEFAULT_TENANT_ID.to_owned(),
        }
    }

    /// Where the newest membership of a person is stored.
    pub(crate) fn newest_membership_at(&self, user_id: &str) -> (r: Option<usize>)
        ensures
            match r {
                Some(i) => i < self.members.len() && newest_membership(self@, user_id@) == Some(
                    self.members@[i as int]@,
                ),
                None => newest_membership(self@, user_id@) is None,
            },
    {
        let f = |r: &UserOrgRow| -> (b: bool)
            ensures
                b == of_user(user_id@)(r@),
            { same(r.user_id.as_str(), user_id) };
        let l = |a: &UserOrgRow, b: &UserOrgRow| -> (c: bool)
            ensures
                c == newest_first()(a@, b@),
            {
                a.created_at > b.created_at || (a.created_at == b.created_at && le_text(
                    a.tenant_id.as_str(),
                    b.tenant_id.as_str(),
                ))
            };
        least_where(&self.members, f, l, Ghost(of_user(user_id@)), Ghost(newest_first()))
    }

    pub fn has_membership(&self, user_id: &str, tenant_id: &str) -> (r: bool)
        ensures
            r == is_member(self@, user_id@, tenant_id@),
    {
        self.membership_at(user_id, tenant_id).is_some()
    }

    /// Where the membership of a person in a group is stored.
    pub(crate) fn membership_at(&self, user_id: &str, tenant_id: &str) -> (r: Option<usize>)
        ensures
            match r {
                Some(i) => i < self.members.len() && membership_in(self@, user_id@, tenant_id@)
                    == Some(self.members@[i as int]@) && self.members@[i as int]@.user_id
                    == user_id@ && self.members@[i as int]@.tenant_id == tenant_id@,
                None => membership_in(self@, user_id@, tenant_id@) is None,
            },
            r is Some <==> is_member(self@, user_id@, tenant_id@),
    {
        let f = |r: &UserOrgRow| -> (b: bool)
            ensures
                b == member_key(user_id@, tenant_id@)(r@),
            { same(r.user_id.as_str(), user_id) && same(r.tenant_id.as_str(), tenant_id) };
        find_where(&self.members, f, Ghost(member_key(user_id@, tenant_id@)))
    }

    /// A person's membership in one group.
    pub fn membership_row(&self, user_id: &str, tenant_id: &str) -> (r: Option<UserOrgRow>)
        ensures
            match r {
                Some(row) => membership_in(self@, user_id@, tenant_id@) == Some(row@),
                None => membership_in(self@, user_id@, tenant_id@) is None,
            },
    {
        match self.membership_at(user_id, tenant_id) {
            Some(i) => Some(self.members[i].copy()),
            None => None,
        }
    }

    /// A person's membership in the group they act in.
    pub fn membership(&self, user_id: &str) -> (r: Option<UserOrgRow>)
        ensures
            match r {
                Some(row) => membership_in(self@, user_id@, active_tenant(self@, user_id@))
                    == Some(row@),
                None => membership_in(self@, user_id@, active_tenant(self@, user_id@)) is None,
            },
    {
        let tenant_id = self.active_tenant_id(user_id);
        self.membership_row(user_id, tenant_id.as_str())
    }

    pub fn effective_role(&self, user_id: &str) -> (r: String)
        ensures
            r@ == role_of(self@, user_id@),
    {
        if let Some(row) = self.membership(user_id) {
            return row.role;
        }
        if same(user_id, SYSTEM_DEFAULT_USER_ID) {
            return ROLE_SYSTEM_ADMIN.to_owned();
        }
        ROLE_MEMBER.to_owned()
    }

    pub fn tenant_of(&self, user_id: &str) -> (r: String)
        ensures
            r@ == active_tenant(self@, user_id@),
    {
        self.active_tenant_id(user_id)
    }

    pub(crate) fn tenant_at(&self, tenant_id: &str) -> (r: Option<usize>)
        ensures
            match r {
                Some(i) => i < self.tenants.len() && tenant_named(self@, tenant_id@) == Some(
                    self.tenants@[i as int]@,
                ) && self.tenants@[i as int]@.id == tenant_id@,
                None => tenant_named(self@, tenant_id@) is None,
            },
            r is Some <==> any(self@.tenants, tenant_with_id(tenant_id@)),
    {
        let f = |r: &TenantRow| -> (b: bool)
            ensures
                b == tenant_with_id(tenant_id@)(r@),
            { same(r.id.as_str(), tenant_id) };
        find_where(&self.tenants, f, Ghost(tenant_with_id(tenant_id@)))
    }

    pub fn get_tenant(&self, tenant_id: &str) -> (r: Option<TenantRow>)
        ensures
            match r {
                Some(row) => tenant_named(self@, tenant_id@) == Some(row@),
                None => tenant_named(self@, tenant_id@) is None,
            },
    {
        match self.tenant_at(tenant_id) {
            Some(i) => Some(self.tenants[i].copy()),
            None => None,
        }
    }

    pub fn member_count(&self, tenant_id: &str) -> (n: i64)
        ensures
            n == member_total(self@, tenant_id@),
    {
        let f = |r: &UserOrgRow| -> (b: bool)
            ensures
                b == of_tenant(tenant_id@)(r@),
            { same(r.tenant_id.as_str(), tenant_id) };
        count_where(&self.members, f, Ghost(of_tenant(tenant_id@))) as i64
    }

    /// Makes a group the one that a person acts in.
    pub(crate) fn point_active(&mut self, user_id: &str, tenant_id: &str, now: i64)
        ensures
            final(self)@ == (OrgState {
                active: pointed(old(self)@.active, user_id@, tenant_id@, now),
                ..old(self)@
            }),
    {
        let f = |r: &ActiveTenantRow| -> (b: bool)
            ensures
                b == active_of(user_id@)(r@),
            { same(r.user_id.as_str(), user_id) };
        if any_where(&self.active, f, Ghost(active_of(user_id@))) {
            self.repoint_active(user_id, tenant_id, now);
        } else {
            let ghost before = self@.active;
            let row = ActiveTenantRow {
                user_id: user_id.to_owned(),
                tenant_id: tenant_id.to_owned(),
                updated_at: now,
            };
            self.active.push(row);
            proof {
                assert(self@.active =~= before.push(row@));
            }
        }
    }

    pub(crate) fn repoint_active(&mut self, user_id: &str, tenant_id: &str, now: i64)
        ensures
            final(self)@ == (OrgState {
                active: repointed(old(self)@.active, user_id@, tenant_id@, now),
                ..old(self)@
            }),
    {
        let ghost g = |r: ActiveTenantRowView|
            if r.user_id == user_id@ {
                ActiveTenantRowView { tenant_id: tenant_id@, updated_at: now, ..r }
            } else {
                r
            };
        let f = |r: &ActiveTenantRow| -> (y: ActiveTenantRow)
            ensures
                y@ == g(r@),
            {
                if same(r.user_id.as_str(), user_id) {
                    ActiveTenantRow {
                        user_id: r.user_id.clone(),
                        tenant_id: tenant_id.to_owned(),
                        updated_at: now,
                    }
                } else {
                    r.copy()
                }
            };
        map_rows(&mut self.active, f, Ghost(g));
    }

    /// Switches the group that a person acts in to another one that they belong to.
    pub fn set_active_tenant(&mut self, user_id: &str, tenant_id: &str, now: i64) -> (r: Result<
        (),
        OrgError,
    >)
        ensures
            match r {
                Ok(_) => is_member(old(self)@, user_id@, tenant_id@) && final(self)@ == (OrgState {
                    active: pointed(old(self)@.active, user_id@, tenant_id@, now),
                    ..old(self)@
                }),
                Err(e) => !is_member(old(self)@, user_id@, tenant_id@) && final(self)@ == old(
                    self,
                )@ && e@ == OrgErrorView::NotInEnterprise,
            },
    {
        if !self.has_membership(user_id, tenant_id) {
            return Err(OrgError::NotInEnterprise);
        }
        self.point_active(user_id, tenant_id, now);
        Ok(())
    }

    /// What the caller acts in and as.
    pub fn context(&self, user_id: &str) -> (r: OrgContextDto)
        ensures
            r@ == ({
                let tenant_id = active_tenant(self@, user_id@);
                let enterprise = enterprise_tenant(tenant_id);
                OrgContextDtoView {
                    tenant_id,
                    tenant_name: if enterprise {
                        match tenant_named(self@, tenant_id) {
                            Some(t) => Some(t.name),
                            None => None,
                        }
                    } else {
                        None
                    },
                    role: role_of(self@, user_id@),
                    is_enterprise: enterprise,
                    member_count: if enterprise {
                        member_total(self@, tenant_id)
                    } else {
                        0
                    },
                }
            }),
    {
        let tenant_id = self.tenant_of(user_id);
        let role = self.effective_role(user_id);
        if is_enterprise_tenant_id(tenant_id.as_str()) {
            let tenant_name = match self.tenant_at(tenant_id.as_str()) {
                Some(i) => Some(self.tenants[i].name.clone()),
                None => None,
            };
            let member_count: i64 = self.member_count(tenant_id.as_str());
            OrgContextDto { tenant_id, tenant_name, role, is_enterprise: true, member_count }
        } else {
            OrgContextDto {
                tenant_id,
                tenant_name: None,
                role,
                is_enterprise: false,
                member_count: 0,
            }
        }
    }
}

} // verus!
