//! Listings: members, groups, the audit log, agent tool calls.
use crate::org::error::{OrgError, OrgErrorView};
use crate::org::membership::{active_tenant, is_member, member_total, tenant_named, tenant_with_id};
use crate::org::models::{
    AdminUserDto, AdminUserDtoView, AgentAuditEntry, AgentAuditEntryView, AuditLogRow,
    AuditLogRowView, CompanyMemberRow, CompanyMemberRowView, EnterpriseTenantDto,
    EnterpriseTenantDtoView, LicenseRow, LicenseRowView, MyTenantDto, MyTenantDtoView, TenantRow,
    TenantRowView, TenantSummaryDto, TenantSummaryDtoView, ToolMessageRow, ToolMessageRowView,
    UserOrgRow, UserOrgRowView, UserRow,
};
use crate::org::service::{user_with_id, OrgService, OrgState};
use crate::table::{any, any_where, find_where, first, least, least_where, list_where, lists, views};
use crate::text::{clone_opt, has_text, opt_is, opt_str, opt_text, same, texts};
use vstd::prelude::*;

verus! {

pub open spec fn newest_member_first() -> spec_fn(UserOrgRowView, UserOrgRowView) -> bool {
    |a: UserOrgRowView, b: UserOrgRowView| a.created_at >= b.created_at
}

pub open spec fn oldest_member_first() -> spec_fn(UserOrgRowView, UserOrgRowView) -> bool {
    |a: UserOrgRowView, b: UserOrgRowView| a.created_at <= b.created_at
}

pub open spec fn oldest_tenant_first() -> spec_fn(TenantRowView, TenantRowView) -> bool {
    |a: TenantRowView, b: TenantRowView| a.created_at <= b.created_at
}

/// A membership in the group of somebody who has an account.
pub open spec fn on_roster(st: OrgState, tenant_id: Seq<char>) -> spec_fn(UserOrgRowView) -> bool {
    |r: UserOrgRowView| r.tenant_id == tenant_id && any(st.users, user_with_id(r.user_id))
}

/// A member of the group whose account has no name, and who cannot be shown for that.
pub open spec fn nameless(st: OrgState, tenant_id: Seq<char>) -> spec_fn(UserOrgRowView) -> bool {
    |r: UserOrgRowView|
        r.tenant_id == tenant_id && (first(st.users, user_with_id(r.user_id)) matches Some(u)
            && u.username is None)
}

/// Why the members of a group are not listed.
pub open spec fn roster_refusal(st: OrgState, tenant_id: Seq<char>) -> Option<OrgErrorView> {
    if any(st.members, nameless(st, tenant_id)) {
        Some(OrgErrorView::Internal("a member's account has no username"@))
    } else {
        None
    }
}

/// A member as shown to administrators.
pub open spec fn admin_user(st: OrgState, r: UserOrgRowView) -> AdminUserDtoView {
    let user = first(st.users, user_with_id(r.user_id));
    AdminUserDtoView {
        user_id: r.user_id,
        username: match user {
            Some(u) => match u.username {
                Some(name) => name,
                None => Seq::empty(),
            },
            None => Seq::empty(),
        },
        tenant_id: r.tenant_id,
        role: r.role,
        display_name: r.display_name,
        org_unit_path: r.org_unit_path,
        job_title: r.job_title,
        department_id: r.department_id,
        last_login: match user {
            Some(u) => u.last_login,
            None => None,
        },
        created_at: r.created_at,
    }
}

/// The members of a group, newest first.
pub open spec fn roster(st: OrgState, tenant_id: Seq<char>, out: Seq<AdminUserDtoView>) -> bool {
    lists(
        out,
        st.members,
        on_roster(st, tenant_id),
        newest_member_first(),
        |r: UserOrgRowView| admin_user(st, r),
    )
}

/// A membership in a group that is on record.
pub open spec fn known_membership(st: OrgState, user_id: Seq<char>) -> spec_fn(
    UserOrgRowView,
) -> bool {
    |r: UserOrgRowView| r.user_id == user_id && any(st.tenants, tenant_with_id(r.tenant_id))
}

/// A membership as shown to the member.
pub open spec fn my_tenant(st: OrgState, user_id: Seq<char>, r: UserOrgRowView) -> MyTenantDtoView {
    MyTenantDtoView {
        tenant_id: r.tenant_id,
        name: match tenant_named(st, r.tenant_id) {
            Some(t) => t.name,
            None => Seq::empty(),
        },
        role: r.role,
        member_count: member_total(st, r.tenant_id),
        is_active: r.tenant_id == active_tenant(st, user_id),
    }
}

pub open spec fn every_tenant() -> spec_fn(TenantRowView) -> bool {
    |t: TenantRowView| true
}

pub open spec fn tenant_under(enterprise_id: Seq<char>) -> spec_fn(TenantRowView) -> bool {
    |t: TenantRowView| t.enterprise_id == Some(enterprise_id)
}

pub open spec fn tenant_summary(t: TenantRowView) -> TenantSummaryDtoView {
    TenantSummaryDtoView { tenant_id: t.id, name: t.name }
}

pub open spec fn enterprise_tenant_dto(st: OrgState, t: TenantRowView) -> EnterpriseTenantDtoView {
    EnterpriseTenantDtoView {
        tenant_id: t.id,
        name: t.name,
        member_count: member_total(st, t.id),
        created_at: t.created_at,
    }
}

pub open spec fn logged_for(tenant_id: Seq<char>) -> spec_fn(AuditLogRowView) -> bool {
    |r: AuditLogRowView| r.tenant_id == tenant_id
}

pub open spec fn newest_log_first() -> spec_fn(AuditLogRowView, AuditLogRowView) -> bool {
    |a: AuditLogRowView, b: AuditLogRowView| a.created_at >= b.created_at
}

pub open spec fn clamped(n: i64, low: i64, high: i64) -> i64 {
    if n < low {
        low
    } else if n > high {
        high
    } else {
        n
    }
}

pub fn clamp_i64(n: i64, low: i64, high: i64) -> (r: i64)
    ensures
        r == clamped(n, low, high),
{
    if n < low {
        low
    } else if n > high {
        high
    } else {
        n
    }
}

/// The first rows of an ordered listing, at most `limit` of them.
pub open spec fn lists_up_to<V, U>(
    out: Seq<U>,
    rows: Seq<V>,
    p: spec_fn(V) -> bool,
    le: spec_fn(V, V) -> bool,
    g: spec_fn(V) -> U,
    limit: int,
) -> bool {
    exists|whole: Seq<U>| #[trigger]
        lists(whole, rows, p, le, g) && out == if whole.len() <= limit {
            whole
        } else {
            whole.take(limit)
        }
}

/// A tool call of a member of the group that passes the filters.
pub open spec fn tool_call(
    st: OrgState,
    tenant_id: Seq<char>,
    user_filter: Option<Seq<char>>,
    tool_filter: Option<Seq<char>>,
    since_ms: Option<i64>,
) -> spec_fn(ToolMessageRowView) -> bool {
    |m: ToolMessageRowView|
        {
            &&& m.kind == "tool_call"@ || m.kind == "acp_tool_call"@
            &&& is_member(st, m.user_id, tenant_id)
            &&& user_filter matches Some(u) ==> m.user_id == u
            &&& tool_filter matches Some(t) ==> m.tool_name == t
            &&& since_ms matches Some(s) ==> m.created_at >= s
        }
}

pub open spec fn newest_message_first() -> spec_fn(ToolMessageRowView, ToolMessageRowView) -> bool {
    |a: ToolMessageRowView, b: ToolMessageRowView| a.created_at >= b.created_at
}

pub open spec fn agent_entry(m: ToolMessageRowView) -> AgentAuditEntryView {
    AgentAuditEntryView {
        id: m.id,
        conversation_id: m.conversation_id,
        user_id: Some(m.user_id),
        tool_name: m.tool_name,
        detail: m.detail,
        status: m.status,
        created_at: m.created_at,
    }
}

pub open spec fn company_seat_of(user_id: Seq<char>) -> spec_fn(CompanyMemberRowView) -> bool {
    |r: CompanyMemberRowView| r.user_id == user_id
}

pub open spec fn license_of(enterprise_id: Seq<char>) -> spec_fn(LicenseRowView) -> bool {
    |r: LicenseRowView| r.enterprise_id == enterprise_id
}

/// Whether a person may use a feature that the given plans have. Who belongs to no company may;
/// a company without a license has the free plan.
pub open spec fn feature_allowed(
    st: OrgState,
    user_id: Seq<char>,
    tiers: Seq<Seq<char>>,
) -> bool {
    match first(st.company_members, company_seat_of(user_id)) {
        None => true,
        Some(seat) => tiers.contains(
            match first(st.licenses, license_of(seat.enterprise_id)) {
                Some(l) => l.tier,
                None => "free"@,
            },
        ),
    }
}

/// The groups of a person as listed, the one joined first ahead.
pub open spec fn memberships_shown(
    st: OrgState,
    user_id: Seq<char>,
    out: Seq<MyTenantDtoView>,
) -> bool {
    lists(
        out,
        st.members,
        known_membership(st, user_id),
        oldest_member_first(),
        |r: UserOrgRowView| my_tenant(st, user_id, r),
    )
}

/// All groups as listed, oldest first.
pub open spec fn tenants_shown(st: OrgState, out: Seq<TenantSummaryDtoView>) -> bool {
    lists(
        out,
        st.tenants,
        every_tenant(),
        oldest_tenant_first(),
        |t: TenantRowView| tenant_summary(t),
    )
}

/// The groups of an enterprise as listed, oldest first.
pub open spec fn enterprise_groups_shown(
    st: OrgState,
    enterprise_id: Seq<char>,
    out: Seq<EnterpriseTenantDtoView>,
) -> bool {
    lists(
        out,
        st.tenants,
        tenant_under(enterprise_id),
        oldest_tenant_first(),
        |t: TenantRowView| enterprise_tenant_dto(st, t),
    )
}

/// The log of a group as listed, newest first and up to a limit.
pub open spec fn log_shown(
    st: OrgState,
    tenant_id: Seq<char>,
    limit: i64,
    out: Seq<AuditLogRowView>,
) -> bool {
    lists_up_to(
        out,
        st.audit_log,
        logged_for(tenant_id),
        newest_log_first(),
        |r: AuditLogRowView| r,
        clamped(limit, 1, 500) as int,
    )
}

/// The tool calls of a group's members as listed, newest first and up to a limit.
pub open spec fn calls_shown(
    st: OrgState,
    messages: Seq<ToolMessageRowView>,
    tenant_id: Seq<char>,
    user_filter: Option<Seq<char>>,
    tool_filter: Option<Seq<char>>,
    since_ms: Option<i64>,
    limit: i64,
    out: Seq<AgentAuditEntryView>,
) -> bool {
    lists_up_to(
        out,
        messages,
        tool_call(st, tenant_id, user_filter, tool_filter, since_ms),
        newest_message_first(),
        |m: ToolMessageRowView| agent_entry(m),
        clamped(limit, 1, 2000) as int,
    )
}

impl OrgService {
    fn admin_user_of(&self, r: &UserOrgRow) -> (d: AdminUserDto)
        ensures
            d@ == admin_user(self@, r@),
    {
        let f = |u: &UserRow| -> (b: bool)
            ensures
                b == user_with_id(r@.user_id)(u@),
            { same(u.id.as_str(), r.user_id.as_str()) };
        let at = find_where(&self.users, f, Ghost(user_with_id(r@.user_id)));
        let username = match at {
            Some(i) => match &self.users[i].username {
                Some(name) => name.clone(),
                None => String::new(),
            },
            None => String::new(),
        };
        let last_login: Option<i64> = match at {
            Some(i) => self.users[i].last_login,
            None => None,
        };
        AdminUserDto {
            user_id: r.user_id.clone(),
            username,
            tenant_id: r.tenant_id.clone(),
            role: r.role.clone(),
            display_name: clone_opt(&r.display_name),
            org_unit_path: clone_opt(&r.org_unit_path),
            job_title: clone_opt(&r.job_title),
            department_id: clone_opt(&r.department_id),
            last_login,
            created_at: r.created_at,
        }
    }

    pub fn has_account(&self, user_id: &str) -> (r: bool)
        ensures
            r == any(self@.users, user_with_id(user_id@)),
    {
        let f = |u: &UserRow| -> (b: bool)
            ensures
                b == user_with_id(user_id@)(u@),
            { same(u.id.as_str(), user_id) };
        any_where(&self.users, f, Ghost(user_with_id(user_id@)))
    }

    /// Whether a person has an account, but one without a name.
    fn has_no_name(&self, user_id: &str) -> (r: bool)
        ensures
            r == (first(self@.users, user_with_id(user_id@)) matches Some(u) && u.username is None),
    {
        let f = |u: &UserRow| -> (b: bool)
            ensures
                b == user_with_id(user_id@)(u@),
            { same(u.id.as_str(), user_id) };
        match find_where(&self.users, f, Ghost(user_with_id(user_id@))) {
            Some(i) => self.users[i].username.is_none(),
            None => false,
        }
    }

    /// The members of a group who have an account, newest first.
    pub fn list_users(&self, tenant_id: &str) -> (r: Result<Vec<AdminUserDto>, OrgError>)
        ensures
            match roster_refusal(self@, tenant_id@) {
                Some(why) => r matches Err(e) && e@ == why,
                None => r matches Ok(out) && roster(self@, tenant_id@, views(out@)),
            },
    {
        let n = |r: &UserOrgRow| -> (b: bool)
            ensures
                b == nameless(self@, tenant_id@)(r@),
            { same(r.tenant_id.as_str(), tenant_id) && self.has_no_name(r.user_id.as_str()) };
        if any_where(&self.members, n, Ghost(nameless(self@, tenant_id@))) {
            return Err(OrgError::Internal("a member's account has no username".to_owned()));
        }
        let f = |r: &UserOrgRow| -> (b: bool)
            ensures
                b == on_roster(self@, tenant_id@)(r@),
            { same(r.tenant_id.as_str(), tenant_id) && self.has_account(r.user_id.as_str()) };
        let l = |a: &UserOrgRow, b: &UserOrgRow| -> (c: bool)
            ensures
                c == newest_member_first()(a@, b@),
            { a.created_at >= b.created_at };
        let ghost g = |r: UserOrgRowView| admin_user(self@, r);
        let mk = |r: &UserOrgRow| -> (d: AdminUserDto)
            ensures
                d@ == g(r@),
            { self.admin_user_of(r) };
        Ok(
            list_where(
                &self.members,
                f,
                l,
                mk,
                Ghost(on_roster(self@, tenant_id@)),
                Ghost(newest_member_first()),
                Ghost(g),
            ),
        )
    }

    /// The groups that a person belongs to, in the order they joined them.
    pub fn list_memberships(&self, user_id: &str) -> (out: Vec<MyTenantDto>)
        ensures
            memberships_shown(self@, user_id@, views(out@)),
    {
        let active = self.active_tenant_id(user_id);
        let f = |r: &UserOrgRow| -> (b: bool)
            ensures
                b == known_membership(self@, user_id@)(r@),
            {
                same(r.user_id.as_str(), user_id) && self.tenant_at(r.tenant_id.as_str()).is_some()
            };
        let l = |a: &UserOrgRow, b: &UserOrgRow| -> (c: bool)
            ensures
                c == oldest_member_first()(a@, b@),
            { a.created_at <= b.created_at };
        let ghost g = |r: UserOrgRowView| my_tenant(self@, user_id@, r);
        let mk = |r: &UserOrgRow| -> (d: MyTenantDto)
            ensures
                d@ == g(r@),
            {
                let name = match self.tenant_at(r.tenant_id.as_str()) {
                    Some(i) => self.tenants[i].name.clone(),
                    None => String::new(),
                };
                MyTenantDto {
                    tenant_id: r.tenant_id.clone(),
                    name,
                    role: r.role.clone(),
                    member_count: self.member_count(r.tenant_id.as_str()),
                    is_active: same(r.tenant_id.as_str(), active.as_str()),
                }
            };
        list_where(
            &self.members,
            f,
            l,
            mk,
            Ghost(known_membership(self@, user_id@)),
            Ghost(oldest_member_first()),
            Ghost(g),
        )
    }

    /// Every project group, oldest first.
    pub fn list_all_tenants(&self) -> (out: Vec<TenantSummaryDto>)
        ensures
            tenants_shown(self@, views(out@)),
    {
        let f = |t: &TenantRow| -> (b: bool)
            ensures
                b == every_tenant()(t@),
            { true };
        let l = |a: &TenantRow, b: &TenantRow| -> (c: bool)
            ensures
                c == oldest_tenant_first()(a@, b@),
            { a.created_at <= b.created_at };
        let mk = |t: &TenantRow| -> (d: TenantSummaryDto)
            ensures
                d@ == tenant_summary(t@),
            { TenantSummaryDto { tenant_id: t.id.clone(), name: t.name.clone() } };
        list_where(
            &self.tenants,
            f,
            l,
            mk,
            Ghost(every_tenant()),
            Ghost(oldest_tenant_first()),
            Ghost(|t: TenantRowView| tenant_summary(t)),
        )
    }

    /// The project groups of a company, oldest first.
    pub fn list_tenants_by_enterprise(&self, enterprise_id: &str) -> (out: Vec<EnterpriseTenantDto>)
        ensures
            enterprise_groups_shown(self@, enterprise_id@, views(out@)),
    {
        let f = |t: &TenantRow| -> (b: bool)
            ensures
                b == tenant_under(enterprise_id@)(t@),
            { opt_is(&t.enterprise_id, enterprise_id) };
        let l = |a: &TenantRow, b: &TenantRow| -> (c: bool)
            ensures
                c == oldest_tenant_first()(a@, b@),
            { a.created_at <= b.created_at };
        let ghost g = |t: TenantRowView| enterprise_tenant_dto(self@, t);
        let mk = |t: &TenantRow| -> (d: EnterpriseTenantDto)
            ensures
                d@ == g(t@),
            {
                EnterpriseTenantDto {
                    tenant_id: t.id.clone(),
                    name: t.name.clone(),
                    member_count: self.member_count(t.id.as_str()),
                    created_at: t.created_at,
                }
            };
        list_where(
            &self.tenants,
            f,
            l,
            mk,
            Ghost(tenant_under(enterprise_id@)),
            Ghost(oldest_tenant_first()),
            Ghost(g),
        )
    }

    /// Whether a project group belongs to a company. A standalone group belongs to none.
    pub fn tenant_belongs_to_enterprise(&self, tenant_id: &str, enterprise_id: &str) -> (r: bool)
        ensures
            r == (tenant_named(self@, tenant_id@) matches Some(t) && t.enterprise_id == Some(
                enterprise_id@,
            )),
    {
        match self.tenant_at(tenant_id) {
            Some(i) => opt_is(&self.tenants[i].enterprise_id, enterprise_id),
            None => false,
        }
    }

    /// The name of the oldest project group.
    pub fn public_info(&self) -> (r: Option<String>)
        ensures
            opt_text(r) == match least(self@.tenants, every_tenant(), oldest_tenant_first()) {
                Some(t) => Some(t.name),
                None => None,
            },
    {
        let f = |t: &TenantRow| -> (b: bool)
            ensures
                b == every_tenant()(t@),
            { true };
        let l = |a: &TenantRow, b: &TenantRow| -> (c: bool)
            ensures
                c == oldest_tenant_first()(a@, b@),
            { a.created_at <= b.created_at };
        match least_where(
            &self.tenants,
            f,
            l,
            Ghost(every_tenant()),
            Ghost(oldest_tenant_first()),
        ) {
            Some(i) => Some(self.tenants[i].name.clone()),
            None => None,
        }
    }

    /// The audit log of a group, newest first, between 1 and 500 entries of it.
    pub fn list_audit_logs(&self, tenant_id: &str, limit: i64) -> (out: Vec<AuditLogRow>)
        ensures
            log_shown(self@, tenant_id@, limit, views(out@)),
    {
        let f = |r: &AuditLogRow| -> (b: bool)
            ensures
                b == logged_for(tenant_id@)(r@),
            { same(r.tenant_id.as_str(), tenant_id) };
        let l = |a: &AuditLogRow, b: &AuditLogRow| -> (c: bool)
            ensures
                c == newest_log_first()(a@, b@),
            { a.created_at >= b.created_at };
        let ghost g = |r: AuditLogRowView| r;
        let mk = |r: &AuditLogRow| -> (d: AuditLogRow)
            ensures
                d@ == g(r@),
            { r.copy() };
        let mut out = list_where(
            &self.audit_log,
            f,
            l,
            mk,
            Ghost(logged_for(tenant_id@)),
            Ghost(newest_log_first()),
            Ghost(g),
        );
        let ghost whole = views(out@);
        let limit = clamp_i64(limit, 1, 500) as usize;
        out.truncate(limit);
        proof {
            assert(views(out@) =~= if whole.len() <= limit {
                whole
            } else {
                whole.take(limit as int)
            });
        }
        out
    }

    /// The tool calls of a group's members, newest first, between 1 and 2000 of them.
    pub fn list_agent_audit(
        &self,
        tenant_id: &str,
        user_filter: Option<&str>,
        tool_filter: Option<&str>,
        since_ms: Option<i64>,
        limit: i64,
        messages: &Vec<ToolMessageRow>,
    ) -> (out: Vec<AgentAuditEntry>)
        ensures
            calls_shown(
                self@,
                views(messages@),
                tenant_id@,
                opt_str(user_filter),
                opt_str(tool_filter),
                since_ms,
                limit,
                views(out@),
            ),
    {
        let ghost p = tool_call(
            self@,
            tenant_id@,
            opt_str(user_filter),
            opt_str(tool_filter),
            since_ms,
        );
        let f = |m: &ToolMessageRow| -> (b: bool)
            ensures
                b == p(m@),
            {
                let kind = same(m.kind.as_str(), "tool_call") || same(
                    m.kind.as_str(),
                    "acp_tool_call",
                );
                let by_user = match user_filter {
                    Some(u) => same(m.user_id.as_str(), u),
                    None => true,
                };
                let by_tool = match tool_filter {
                    Some(t) => same(m.tool_name.as_str(), t),
                    None => true,
                };
                let recent = match since_ms {
                    Some(s) => m.created_at >= s,
                    None => true,
                };
                kind && by_user && by_tool && recent && self.has_membership(
                    m.user_id.as_str(),
                    tenant_id,
                )
            };
        let l = |a: &ToolMessageRow, b: &ToolMessageRow| -> (c: bool)
            ensures
                c == newest_message_first()(a@, b@),
            { a.created_at >= b.created_at };
        let ghost g = |m: ToolMessageRowView| agent_entry(m);
        let mk = |m: &ToolMessageRow| -> (d: AgentAuditEntry)
            ensures
                d@ == g(m@),
            {
                AgentAuditEntry {
                    id: m.id.clone(),
                    conversation_id: m.conversation_id.clone(),
                    user_id: Some(m.user_id.clone()),
                    tool_name: m.tool_name.clone(),
                    detail: clone_opt(&m.detail),
                    status: clone_opt(&m.status),
                    created_at: m.created_at,
                }
            };
        let mut out = list_where(
            messages,
            f,
            l,
            mk,
            Ghost(p),
            Ghost(newest_message_first()),
            Ghost(g),
        );
        let ghost whole = views(out@);
        let limit = clamp_i64(limit, 1, 2000) as usize;
        out.truncate(limit);
        proof {
            assert(views(out@) =~= if whole.len() <= limit {
                whole
            } else {
                whole.take(limit as int)
            });
        }
        out
    }

    /// Whether a person's company plan is one of those that have a feature.
    pub fn enterprise_feature_allowed(&self, user_id: &str, tiers: &Vec<String>) -> (r: bool)
        ensures
            r == feature_allowed(self@, user_id@, texts(tiers@)),
    {
        let f = |r: &CompanyMemberRow| -> (b: bool)
            ensures
                b == company_seat_of(user_id@)(r@),
            { same(r.user_id.as_str(), user_id) };
        let at: usize = match find_where(
            &self.company_members,
            f,
            Ghost(company_seat_of(user_id@)),
        ) {
            Some(i) => i,
            None => {
                return true;
            },
        };
        let enterprise_id = self.company_members[at].enterprise_id.clone();
        let l = |r: &LicenseRow| -> (b: bool)
            ensures
                b == license_of(enterprise_id@)(r@),
            { same(r.enterprise_id.as_str(), enterprise_id.as_str()) };
        match find_where(&self.licenses, l, Ghost(license_of(enterprise_id@))) {
            Some(i) => has_text(tiers, self.licenses[i].tier.as_str()),
            None => has_text(tiers, "free"),
        }
    }
}

} // verus!
