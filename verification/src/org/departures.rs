//! Leaving a project group, removing members, changing roles and the exit password.
use crate::ids::is_short_id;
use crate::org::error::{bad_request, forbidden, OrgError, OrgErrorView};
use crate::org::membership::{
    active_of, active_tenant, member_key, membership_in, newest_membership, repointed, tenant_named,
    tenant_with_id,
};
use crate::org::models::{
    admin_role, enterprise_tenant, is_admin_role, is_enterprise_tenant_id, is_system_admin_role,
    system_admin_role, ActiveTenantRow, ActiveTenantRowView, TenantRow, TenantRowView, UserOrgRow,
    UserOrgRowView,
};
use crate::org::service::{
    audited, newest_audit_id, session_ended, username_of, OrgService, OrgState,
};
use crate::table::{any, any_where, find_where, first, keep_where, map_rows};
use crate::text::{as_opt_str, cat, clone_opt, opt_is, opt_str, opt_text, same};
use vstd::prelude::*;

verus! {

pub open spec fn not_member_key(user_id: Seq<char>, tenant_id: Seq<char>) -> spec_fn(
    UserOrgRowView,
) -> bool {
    |r: UserOrgRowView| !(r.user_id == user_id && r.tenant_id == tenant_id)
}

pub open spec fn not_active_of(user_id: Seq<char>) -> spec_fn(ActiveTenantRowView) -> bool {
    |r: ActiveTenantRowView| r.user_id != user_id
}

/// A member of the group other than the named person.
pub open spec fn other_member(tenant_id: Seq<char>, user_id: Seq<char>) -> spec_fn(
    UserOrgRowView,
) -> bool {
    |r: UserOrgRowView| r.tenant_id == tenant_id && r.user_id != user_id
}

/// An administrator of the group other than the named person.
pub open spec fn other_admin(tenant_id: Seq<char>, user_id: Seq<char>) -> spec_fn(
    UserOrgRowView,
) -> bool {
    |r: UserOrgRowView| r.tenant_id == tenant_id && r.user_id != user_id && admin_role(r.role)
}

/// Without the named person the group would have members and no administrator.
pub open spec fn would_orphan(st: OrgState, tenant_id: Seq<char>, user_id: Seq<char>) -> bool {
    &&& !any(st.members, other_admin(tenant_id, user_id))
    &&& any(st.members, other_member(tenant_id, user_id))
}

/// The pointers after the person left a group: one that named it moves to their newest other
/// membership, or goes away.
pub open spec fn reselected(st: OrgState, user_id: Seq<char>, left: Seq<char>, now: i64) -> Seq<
    ActiveTenantRowView,
> {
    match first(st.active, active_of(user_id)) {
        Some(pointer) => if pointer.tenant_id == left {
            match newest_membership(st, user_id) {
                Some(m) => repointed(st.active, user_id, m.tenant_id, now),
                None => st.active.filter(not_active_of(user_id)),
            }
        } else {
            st.active
        },
        None => st.active,
    }
}

/// The state after a membership ended and the person's sessions with it.
pub open spec fn departed(
    st: OrgState,
    user_id: Seq<char>,
    tenant_id: Seq<char>,
    now: i64,
) -> OrgState {
    let without = OrgState {
        members: st.members.filter(not_member_key(user_id, tenant_id)),
        ..st
    };
    session_ended(
        OrgState { active: reselected(without, user_id, tenant_id, now), ..without },
        user_id,
    )
}

/// A membership of the person in a group that the company owns.
pub open spec fn seat_under(st: OrgState, user_id: Seq<char>, enterprise_id: Seq<char>) -> spec_fn(
    UserOrgRowView,
) -> bool {
    |r: UserOrgRowView|
        r.user_id == user_id && any(
            st.tenants,
            |t: TenantRowView| t.id == r.tenant_id && t.enterprise_id == Some(enterprise_id),
        )
}

/// The company whose seat is free once a person left a group: the group's company, unless they
/// still belong to another of its groups.
pub open spec fn seat_to_release(st: OrgState, user_id: Seq<char>, left: Seq<char>) -> Option<
    Seq<char>,
> {
    match tenant_named(st, left) {
        Some(t) => match t.enterprise_id {
            Some(enterprise_id) => if any(st.members, seat_under(st, user_id, enterprise_id)) {
                None
            } else {
                Some(enterprise_id)
            },
            None => None,
        },
        None => None,
    }
}

/// The group that a request to leave is about.
pub open spec fn leave_target(
    st: OrgState,
    user_id: Seq<char>,
    tenant_id: Option<Seq<char>>,
) -> Seq<
    char,
> {
    match tenant_id {
        Some(t) => t,
        None => active_tenant(st, user_id),
    }
}

/// The hash of the password that leaving a group takes.
pub open spec fn exit_hash(st: OrgState, tenant_id: Seq<char>) -> Option<Seq<char>> {
    match tenant_named(st, tenant_id) {
        Some(t) => t.exit_password_hash,
        None => None,
    }
}

/// Why a request to leave is refused.
pub open spec fn leave_refusal(
    st: OrgState,
    user_id: Seq<char>,
    target: Seq<char>,
    exit_code_matches: bool,
) -> Option<OrgErrorView> {
    match membership_in(st, user_id, target) {
        None => Some(OrgErrorView::NotInEnterprise),
        Some(m) => if !enterprise_tenant(target) {
            Some(OrgErrorView::NotInEnterprise)
        } else if exit_hash(st, target) is Some && !exit_code_matches {
            Some(OrgErrorView::WrongExitCode)
        } else if admin_role(m.role) && would_orphan(st, target, user_id) {
            Some(OrgErrorView::LastAdminCannotLeave)
        } else {
            None
        },
    }
}

/// Why a request to remove a member is refused.
pub open spec fn remove_refusal(
    st: OrgState,
    tenant_id: Seq<char>,
    actor: Seq<char>,
    target: Seq<char>,
) -> Option<OrgErrorView> {
    if actor == target {
        Some(
            OrgErrorView::BadRequest(
                "cannot remove yourself; use leave to exit the project group"@,
            ),
        )
    } else {
        match membership_in(st, target, tenant_id) {
            None => Some(OrgErrorView::BadRequest(not_in_tenant(target, tenant_id))),
            Some(m) => if system_admin_role(m.role) && !(membership_in(
                st,
                actor,
                tenant_id,
            ) matches Some(a) && system_admin_role(a.role)) {
                Some(OrgErrorView::Forbidden("only system_admin can remove a system_admin"@))
            } else if admin_role(m.role) && would_orphan(st, tenant_id, target) {
                Some(OrgErrorView::LastAdminCannotLeave)
            } else {
                None
            },
        }
    }
}

pub open spec fn not_in_tenant(user_id: Seq<char>, tenant_id: Seq<char>) -> Seq<char> {
    "user "@ + user_id + " not in tenant "@ + tenant_id
}

fn not_in_tenant_text(user_id: &str, tenant_id: &str) -> (r: String)
    ensures
        r@ == not_in_tenant(user_id@, tenant_id@),
{
    let a = cat("user ", user_id);
    let b = cat(a.as_str(), " not in tenant ");
    cat(b.as_str(), tenant_id)
}

/// Why a role change is refused.
pub open spec fn role_refusal(
    st: OrgState,
    tenant_id: Seq<char>,
    target: Seq<char>,
    role: Seq<char>,
) -> Option<OrgErrorView> {
    match membership_in(st, target, tenant_id) {
        None => Some(OrgErrorView::BadRequest(not_in_tenant(target, tenant_id))),
        Some(m) => if admin_role(m.role) && !admin_role(role) && would_orphan(
            st,
            tenant_id,
            target,
        ) {
            Some(OrgErrorView::LastAdminCannotLeave)
        } else {
            None
        },
    }
}

/// The memberships with one person's role in one group changed.
pub open spec fn with_role(
    members: Seq<UserOrgRowView>,
    tenant_id: Seq<char>,
    user_id: Seq<char>,
    role: Seq<char>,
    now: i64,
) -> Seq<UserOrgRowView> {
    members.map_values(
        |r: UserOrgRowView|
            if member_key(user_id, tenant_id)(r) {
                UserOrgRowView { role, updated_at: now, ..r }
            } else {
                r
            },
    )
}

pub open spec fn role_note(user_id: Seq<char>, role: Seq<char>) -> Seq<char> {
    "user="@ + user_id + " role="@ + role
}

/// The groups with one group's exit password hash changed.
pub open spec fn with_exit_hash(
    tenants: Seq<TenantRowView>,
    tenant_id: Seq<char>,
    hash: Option<Seq<char>>,
    now: i64,
) -> Seq<TenantRowView> {
    tenants.map_values(
        |t: TenantRowView|
            if t.id == tenant_id {
                TenantRowView { exit_password_hash: hash, updated_at: now, ..t }
            } else {
                t
            },
    )
}

impl OrgService {
    /// Refuses to take the last administrator from a group that still has other members.
    pub fn ensure_not_last_admin(&self, tenant_id: &str, excluding_user_id: &str) -> (r: Result<
        (),
        OrgError,
    >)
        ensures
            match r {
                Ok(_) => !would_orphan(self@, tenant_id@, excluding_user_id@),
                Err(e) => would_orphan(self@, tenant_id@, excluding_user_id@) && e@
                    == OrgErrorView::LastAdminCannotLeave,
            },
    {
        let f = |r: &UserOrgRow| -> (b: bool)
            ensures
                b == other_admin(tenant_id@, excluding_user_id@)(r@),
            {
                same(r.tenant_id.as_str(), tenant_id) && !same(
                    r.user_id.as_str(),
                    excluding_user_id,
                ) && is_admin_role(r.role.as_str())
            };
        if any_where(&self.members, f, Ghost(other_admin(tenant_id@, excluding_user_id@))) {
            return Ok(());
        }
        let g = |r: &UserOrgRow| -> (b: bool)
            ensures
                b == other_member(tenant_id@, excluding_user_id@)(r@),
            {
                same(r.tenant_id.as_str(), tenant_id) && !same(
                    r.user_id.as_str(),
                    excluding_user_id,
                )
            };
        if !any_where(&self.members, g, Ghost(other_member(tenant_id@, excluding_user_id@))) {
            return Ok(());
        }
        Err(OrgError::LastAdminCannotLeave)
    }

    /// Moves a pointer that names the group just left.
    pub(crate) fn reselect_active_after_leave(
        &mut self,
        user_id: &str,
        left_tenant: &str,
        now: i64,
    )
        ensures
            final(self)@ == (OrgState {
                active: reselected(old(self)@, user_id@, left_tenant@, now),
                ..old(self)@
            }),
    {
        let f = |r: &ActiveTenantRow| -> (b: bool)
            ensures
                b == active_of(user_id@)(r@),
            { same(r.user_id.as_str(), user_id) };
        let at: usize = match find_where(&self.active, f, Ghost(active_of(user_id@))) {
            Some(i) => i,
            None => {
                return ;
            },
        };
        if !same(self.active[at].tenant_id.as_str(), left_tenant) {
            return ;
        }
        match self.newest_membership_at(user_id) {
            Some(i) => {
                let next = self.members[i].tenant_id.clone();
                self.repoint_active(user_id, next.as_str(), now);
            },
            None => {
                let k = |r: &ActiveTenantRow| -> (b: bool)
                    ensures
                        b == not_active_of(user_id@)(r@),
                    { !same(r.user_id.as_str(), user_id) };
                keep_where(&mut self.active, k, Ghost(not_active_of(user_id@)));
            },
        }
    }

    /// Ends a membership: the row goes, a pointer to the group moves on, sessions end.
    pub(crate) fn depart(&mut self, user_id: &str, tenant_id: &str, now: i64)
        ensures
            final(self)@ == departed(old(self)@, user_id@, tenant_id@, now),
    {
        let k = |r: &UserOrgRow| -> (b: bool)
            ensures
                b == not_member_key(user_id@, tenant_id@)(r@),
            { !(same(r.user_id.as_str(), user_id) && same(r.tenant_id.as_str(), tenant_id)) };
        keep_where(&mut self.members, k, Ghost(not_member_key(user_id@, tenant_id@)));
        self.reselect_active_after_leave(user_id, tenant_id, now);
        self.invalidate_user_tokens(user_id);
    }

    /// The company whose seat is free once a person left a group.
    pub fn enterprise_seat_to_release(&self, user_id: &str, left_tenant_id: &str) -> (r: Option<
        String,
    >)
        ensures
            opt_text(r) == seat_to_release(self@, user_id@, left_tenant_id@),
    {
        let at: usize = match self.tenant_at(left_tenant_id) {
            Some(i) => i,
            None => {
                return None;
            },
        };
        let enterprise_id = match &self.tenants[at].enterprise_id {
            Some(e) => e.clone(),
            None => {
                return None;
            },
        };
        let owned = |r: &UserOrgRow| -> (b: bool)
            ensures
                b == seat_under(self@, user_id@, enterprise_id@)(r@),
            {
                same(r.user_id.as_str(), user_id) && self.group_owned_by(
                    r.tenant_id.as_str(),
                    enterprise_id.as_str(),
                )
            };
        if any_where(&self.members, owned, Ghost(seat_under(self@, user_id@, enterprise_id@))) {
            None
        } else {
            Some(enterprise_id)
        }
    }

    fn group_owned_by(&self, tenant_id: &str, enterprise_id: &str) -> (r: bool)
        ensures
            r == any(
                self@.tenants,
                |t: TenantRowView| t.id == tenant_id@ && t.enterprise_id == Some(enterprise_id@),
            ),
    {
        let ghost p = |t: TenantRowView|
            t.id == tenant_id@ && t.enterprise_id == Some(enterprise_id@);
        let f = |t: &TenantRow| -> (b: bool)
            ensures
                b == p(t@),
            { same(t.id.as_str(), tenant_id) && opt_is(&t.enterprise_id, enterprise_id) };
        any_where(&self.tenants, f, Ghost(p))
    }

    /// The hash that the exit code of a person who wants to leave is held against; `None` where
    /// the group takes no exit code.
    pub fn exit_hash_to_check(&self, user_id: &str, tenant_id: Option<&str>) -> (r: Option<String>)
        ensures
            opt_text(r) == exit_hash(self@, leave_target(self@, user_id@, opt_str(tenant_id))),
    {
        let target = match tenant_id {
            Some(t) => t.to_owned(),
            None => self.active_tenant_id(user_id),
        };
        match self.tenant_at(target.as_str()) {
            Some(i) => clone_opt(&self.tenants[i].exit_password_hash),
            None => None,
        }
    }

    /// Leaves a project group, by default the one that the person acts in. `exit_code_matches`
    /// says whether the given code fits the group's exit password; it counts only where the
    /// group has one. The result is the company whose seat is free now.
    pub fn leave(
        &mut self,
        user_id: &str,
        tenant_id: Option<&str>,
        exit_code_matches: bool,
        now: i64,
    ) -> (r: Result<Option<String>, OrgError>)
        ensures
            ({
                let target = leave_target(old(self)@, user_id@, opt_str(tenant_id));
                match leave_refusal(old(self)@, user_id@, target, exit_code_matches) {
                    Some(why) => {
                        &&& r matches Err(e) && e@ == why
                        &&& final(self)@ == old(self)@
                    },
                    None => {
                        &&& final(self)@ == audited(
                            departed(old(self)@, user_id@, target, now),
                            newest_audit_id(final(self)@),
                            target,
                            Some(user_id@),
                            username_of(old(self)@, user_id@),
                            "org.exit"@,
                            None,
                            now,
                        )
                        &&& is_short_id("audit"@, newest_audit_id(final(self)@))
                        &&& r matches Ok(seat) && opt_text(seat) == seat_to_release(
                            final(self)@,
                            user_id@,
                            target,
                        )
                    },
                }
            }),
    {
        let target = match tenant_id {
            Some(t) => t.to_owned(),
            None => self.active_tenant_id(user_id),
        };
        let at: usize = match self.membership_at(user_id, target.as_str()) {
            Some(i) => i,
            None => {
                return Err(OrgError::NotInEnterprise);
            },
        };
        if !is_enterprise_tenant_id(target.as_str()) {
            return Err(OrgError::NotInEnterprise);
        }
        let takes_code = match self.tenant_at(target.as_str()) {
            Some(i) => self.tenants[i].exit_password_hash.is_some(),
            None => false,
        };
        if takes_code && !exit_code_matches {
            return Err(OrgError::WrongExitCode);
        }
        if is_admin_role(self.members[at].role.as_str()) {
            if let Err(e) = self.ensure_not_last_admin(target.as_str(), user_id) {
                return Err(e);
            }
        }
        let username = self.lookup_username(user_id);
        self.depart(user_id, target.as_str(), now);
        self.audit(
            target.as_str(),
            Some(user_id),
            as_opt_str(&username),
            "org.exit",
            None,
            now,
        );
        Ok(self.enterprise_seat_to_release(user_id, target.as_str()))
    }

    /// Removes another member from a project group. The result is the company whose seat is free
    /// now.
    pub fn remove_member(
        &mut self,
        tenant_id: &str,
        actor_user_id: &str,
        target_user_id: &str,
        now: i64,
    ) -> (r: Result<Option<String>, OrgError>)
        ensures
            match remove_refusal(old(self)@, tenant_id@, actor_user_id@, target_user_id@) {
                Some(why) => {
                    &&& r matches Err(e) && e@ == why
                    &&& final(self)@ == old(self)@
                },
                None => {
                    &&& final(self)@ == audited(
                        departed(old(self)@, target_user_id@, tenant_id@, now),
                        newest_audit_id(final(self)@),
                        tenant_id@,
                        Some(actor_user_id@),
                        username_of(old(self)@, actor_user_id@),
                        "org.member.remove"@,
                        Some(target_user_id@),
                        now,
                    )
                    &&& is_short_id("audit"@, newest_audit_id(final(self)@))
                    &&& r matches Ok(seat) && opt_text(seat) == seat_to_release(
                        final(self)@,
                        target_user_id@,
                        tenant_id@,
                    )
                },
            },
    {
        if same(actor_user_id, target_user_id) {
            return Err(
                bad_request("cannot remove yourself; use leave to exit the project group"),
            );
        }
        let at: usize = match self.membership_at(target_user_id, tenant_id) {
            Some(i) => i,
            None => {
                return Err(OrgError::BadRequest(not_in_tenant_text(target_user_id, tenant_id)));
            },
        };
        if is_system_admin_role(self.members[at].role.as_str()) {
            let peer = match self.membership_at(actor_user_id, tenant_id) {
                Some(i) => is_system_admin_role(self.members[i].role.as_str()),
                None => false,
            };
            if !peer {
                return Err(forbidden("only system_admin can remove a system_admin"));
            }
        }
        if is_admin_role(self.members[at].role.as_str()) {
            if let Err(e) = self.ensure_not_last_admin(tenant_id, target_user_id) {
                return Err(e);
            }
        }
        let actor_username = self.lookup_username(actor_user_id);
        self.depart(target_user_id, tenant_id, now);
        self.audit(
            tenant_id,
            Some(actor_user_id),
            as_opt_str(&actor_username),
            "org.member.remove",
            Some(target_user_id),
            now,
        );
        Ok(self.enterprise_seat_to_release(target_user_id, tenant_id))
    }

    /// Changes a member's role. The audit entry names the administrator who did it.
    pub fn set_user_role(
        &mut self,
        tenant_id: &str,
        actor_user_id: &str,
        target_user_id: &str,
        role: &str,
        now: i64,
    ) -> (r: Result<(), OrgError>)
        ensures
            match role_refusal(old(self)@, tenant_id@, target_user_id@, role@) {
                Some(why) => {
                    &&& r matches Err(e) && e@ == why
                    &&& final(self)@ == old(self)@
                },
                None => {
                    &&& r is Ok
                    &&& is_short_id("audit"@, newest_audit_id(final(self)@))
                    &&& final(self)@ == audited(
                        OrgState {
                            members: with_role(
                                old(self)@.members,
                                tenant_id@,
                                target_user_id@,
                                role@,
                                now,
                            ),
                            ..old(self)@
                        },
                        newest_audit_id(final(self)@),
                        tenant_id@,
                        Some(actor_user_id@),
                        username_of(old(self)@, actor_user_id@),
                        "set_role"@,
                        Some(role_note(target_user_id@, role@)),
                        now,
                    )
                },
            },
    {
        let at: usize = match self.membership_at(target_user_id, tenant_id) {
            Some(i) => i,
            None => {
                return Err(OrgError::BadRequest(not_in_tenant_text(target_user_id, tenant_id)));
            },
        };
        if is_admin_role(self.members[at].role.as_str()) && !is_admin_role(role) {
            if let Err(e) = self.ensure_not_last_admin(tenant_id, target_user_id) {
                return Err(e);
            }
        }
        let ghost g = |r: UserOrgRowView|
            if member_key(target_user_id@, tenant_id@)(r) {
                UserOrgRowView { role: role@, updated_at: now, ..r }
            } else {
                r
            };
        let u = |r: &UserOrgRow| -> (y: UserOrgRow)
            ensures
                y@ == g(r@),
            {
                let mut y = r.copy();
                if same(r.user_id.as_str(), target_user_id) && same(
                    r.tenant_id.as_str(),
                    tenant_id,
                ) {
                    y.role = role.to_owned();
                    y.updated_at = now;
                }
                y
            };
        let actor_username = self.lookup_username(actor_user_id);
        map_rows(&mut self.members, u, Ghost(g));
        let a = cat("user=", target_user_id);
        let b = cat(a.as_str(), " role=");
        let note = cat(b.as_str(), role);
        self.audit(
            tenant_id,
            Some(actor_user_id),
            as_opt_str(&actor_username),
            "set_role",
            Some(note.as_str()),
            now,
        );
        Ok(())
    }

    pub fn exit_password_status(&self, tenant_id: &str) -> (r: Result<bool, OrgError>)
        ensures
            match tenant_named(self@, tenant_id@) {
                Some(t) => r == Ok::<bool, OrgError>(t.exit_password_hash is Some),
                None => r matches Err(e) && e@ == OrgErrorView::TenantNotFound,
            },
    {
        match self.tenant_at(tenant_id) {
            Some(i) => Ok(self.tenants[i].exit_password_hash.is_some()),
            None => Err(OrgError::TenantNotFound),
        }
    }

    fn store_exit_hash(&mut self, tenant_id: &str, hash: Option<String>, now: i64) -> (r: Result<
        (),
        OrgError,
    >)
        ensures
            match r {
                Ok(_) => any(old(self)@.tenants, tenant_with_id(tenant_id@)) && final(self)@ == (
                OrgState {
                    tenants: with_exit_hash(
                        old(self)@.tenants,
                        tenant_id@,
                        opt_text(hash),
                        now,
                    ),
                    ..old(self)@
                }),
                Err(e) => !any(old(self)@.tenants, tenant_with_id(tenant_id@)) && e@
                    == OrgErrorView::TenantNotFound && final(self)@ == old(self)@,
            },
    {
        if self.tenant_at(tenant_id).is_none() {
            return Err(OrgError::TenantNotFound);
        }
        let ghost stored = opt_text(hash);
        let ghost g = |t: TenantRowView|
            if t.id == tenant_id@ {
                TenantRowView { exit_password_hash: stored, updated_at: now, ..t }
            } else {
                t
            };
        let u = |t: &TenantRow| -> (y: TenantRow)
            ensures
                y@ == g(t@),
            {
                let mut y = t.copy();
                if same(t.id.as_str(), tenant_id) {
                    y.exit_password_hash = clone_opt(&hash);
                    y.updated_at = now;
                }
                y
            };
        map_rows(&mut self.tenants, u, Ghost(g));
        Ok(())
    }

    /// Sets the password that leaving a group takes, given with its hash.
    pub fn set_exit_password(
        &mut self,
        tenant_id: &str,
        password: &str,
        hash: String,
        now: i64,
    ) -> (r: Result<(), OrgError>)
        ensures
            match r {
                Ok(_) => {
                    &&& password@.len() > 0
                    &&& any(old(self)@.tenants, tenant_with_id(tenant_id@))
                    &&& final(self)@ == (OrgState {
                        tenants: with_exit_hash(
                            old(self)@.tenants,
                            tenant_id@,
                            Some(hash@),
                            now,
                        ),
                        ..old(self)@
                    })
                },
                Err(e) => {
                    &&& final(self)@ == old(self)@
                    &&& if password@.len() == 0 {
                        e@ == OrgErrorView::BadRequest("password is required"@)
                    } else {
                        e@ == OrgErrorView::TenantNotFound && !any(
                            old(self)@.tenants,
                            tenant_with_id(tenant_id@),
                        )
                    }
                },
            },
    {
        if password.is_empty() {
            return Err(bad_request("password is required"));
        }
        self.store_exit_hash(tenant_id, Some(hash), now)
    }

    pub fn clear_exit_password(&mut self, tenant_id: &str, now: i64) -> (r: Result<(), OrgError>)
        ensures
            match r {
                Ok(_) => any(old(self)@.tenants, tenant_with_id(tenant_id@)) && final(self)@ == (
                OrgState {
                    tenants: with_exit_hash(old(self)@.tenants, tenant_id@, None, now),
                    ..old(self)@
                }),
                Err(e) => !any(old(self)@.tenants, tenant_with_id(tenant_id@)) && e@
                    == OrgErrorView::TenantNotFound && final(self)@ == old(self)@,
            },
    {
        self.store_exit_hash(tenant_id, None, now)
    }
}

} // verus!
