//! The organization service: its tables and what every operation shares.
use crate::ids::{is_short_id, short_id};
use crate::org::models::{
    ActiveTenantRow, ActiveTenantRowView, AuditLogRow, AuditLogRowView, CompanyMemberRow,
    CompanyMemberRowView, DepartmentRow, DepartmentRowView, IntegrationRow, IntegrationRowView,
    InviteRow, InviteRowView, LicenseRow, LicenseRowView, NodeReviewRequest, NodeReviewRequestView,
    RuntimeNodeRow, RuntimeNodeRowView, RuntimePolicyRow, RuntimePolicyRowView, SmtpConfigRow,
    SmtpConfigRowView, SsoIdentityRow, SsoIdentityRowView, TenantRow, TenantRowView, UserOrgRow,
    UserOrgRowView, UserRow, UserRowView,
};
use crate::table::{find_where, first, views};
use crate::text::{clone_opt, opt_str, own_opt, same, texts};
use vstd::prelude::*;

verus! {

/// The organization tables, with the work that they leave to the caller: the sessions to
/// end and the access reviews to raise, oldest first.
#[derive(Debug)]
pub struct OrgService {
    pub tenants: Vec<TenantRow>,
    pub members: Vec<UserOrgRow>,
    pub active: Vec<ActiveTenantRow>,
    pub invites: Vec<InviteRow>,
    pub departments: Vec<DepartmentRow>,
    pub nodes: Vec<RuntimeNodeRow>,
    pub node_policies: Vec<RuntimePolicyRow>,
    pub audit_log: Vec<AuditLogRow>,
    pub integrations: Vec<IntegrationRow>,
    pub smtp: Option<SmtpConfigRow>,
    pub users: Vec<UserRow>,
    pub sso_identities: Vec<SsoIdentityRow>,
    pub company_members: Vec<CompanyMemberRow>,
    pub licenses: Vec<LicenseRow>,
    pub ended_sessions: Vec<String>,
    pub node_reviews: Vec<NodeReviewRequest>,
}

/// [`OrgService`] as plain values.
pub struct OrgState {
    pub tenants: Seq<TenantRowView>,
    pub members: Seq<UserOrgRowView>,
    pub active: Seq<ActiveTenantRowView>,
    pub invites: Seq<InviteRowView>,
    pub departments: Seq<DepartmentRowView>,
    pub nodes: Seq<RuntimeNodeRowView>,
    pub node_policies: Seq<RuntimePolicyRowView>,
    pub audit_log: Seq<AuditLogRowView>,
    pub integrations: Seq<IntegrationRowView>,
    pub smtp: Option<SmtpConfigRowView>,
    pub users: Seq<UserRowView>,
    pub sso_identities: Seq<SsoIdentityRowView>,
    pub company_members: Seq<CompanyMemberRowView>,
    pub licenses: Seq<LicenseRowView>,
    pub ended_sessions: Seq<Seq<char>>,
    pub node_reviews: Seq<NodeReviewRequestView>,
}

impl View for OrgService {
    type V = OrgState;

    open spec fn view(&self) -> OrgState {
        OrgState {
            tenants: views(self.tenants@),
            members: views(self.members@),
            active: views(self.active@),
            invites: views(self.invites@),
            departments: views(self.departments@),
            nodes: views(self.nodes@),
            node_policies: views(self.node_policies@),
            audit_log: views(self.audit_log@),
            integrations: views(self.integrations@),
            smtp: match self.smtp {
                Some(row) => Some(row@),
                None => None,
            },
            users: views(self.users@),
            sso_identities: views(self.sso_identities@),
            company_members: views(self.company_members@),
            licenses: views(self.licenses@),
            ended_sessions: texts(self.ended_sessions@),
            node_reviews: views(self.node_reviews@),
        }
    }
}

/// The tables of a deployment in which nothing has happened yet.
pub open spec fn empty_org() -> OrgState {
    OrgState {
        tenants: Seq::empty(),
        members: Seq::empty(),
        active: Seq::empty(),
        invites: Seq::empty(),
        departments: Seq::empty(),
        nodes: Seq::empty(),
        node_policies: Seq::empty(),
        audit_log: Seq::empty(),
        integrations: Seq::empty(),
        smtp: None,
        users: Seq::empty(),
        sso_identities: Seq::empty(),
        company_members: Seq::empty(),
        licenses: Seq::empty(),
        ended_sessions: Seq::empty(),
        node_reviews: Seq::empty(),
    }
}

pub open spec fn user_with_id(id: Seq<char>) -> spec_fn(UserRowView) -> bool {
    |r: UserRowView| r.id == id
}

/// The name to show for an account, where it is known.
pub open spec fn username_of(st: OrgState, user_id: Seq<char>) -> Option<Seq<char>> {
    match first(st.users, user_with_id(user_id)) {
        Some(u) => u.username,
        None => None,
    }
}

/// The state with one more entry in the audit log.
pub open spec fn audited(
    st: OrgState,
    id: Seq<char>,
    tenant_id: Seq<char>,
    user_id: Option<Seq<char>>,
    username: Option<Seq<char>>,
    action: Seq<char>,
    resource: Option<Seq<char>>,
    now: i64,
) -> OrgState {
    OrgState {
        audit_log: st.audit_log.push(
            AuditLogRowView {
                id,
                tenant_id,
                user_id,
                username,
                action,
                resource,
                ip_address: None,
                user_agent: None,
                created_at: now,
            },
        ),
        ..st
    }
}

/// The state with one more account whose sessions are to be ended.
pub open spec fn session_ended(st: OrgState, user_id: Seq<char>) -> OrgState {
    OrgState { ended_sessions: st.ended_sessions.push(user_id), ..st }
}

/// The identifier of the newest entry of the audit log.
pub open spec fn newest_audit_id(st: OrgState) -> Seq<char> {
    st.audit_log.last().id
}

impl OrgService {
    pub fn new() -> (r: Self)
        ensures
            r@ == empty_org(),
    {
        let r = OrgService {
            tenants: Vec::new(),
            members: Vec::new(),
            active: Vec::new(),
            invites: Vec::new(),
            departments: Vec::new(),
            nodes: Vec::new(),
            node_policies: Vec::new(),
            audit_log: Vec::new(),
            integrations: Vec::new(),
            smtp: None,
            users: Vec::new(),
            sso_identities: Vec::new(),
            company_members: Vec::new(),
            licenses: Vec::new(),
            ended_sessions: Vec::new(),
            node_reviews: Vec::new(),
        };
        proof {
            assert(r@.tenants =~= Seq::empty());
            assert(r@.members =~= Seq::empty());
            assert(r@.active =~= Seq::empty());
            assert(r@.invites =~= Seq::empty());
            assert(r@.departments =~= Seq::empty());
            assert(r@.nodes =~= Seq::empty());
            assert(r@.node_policies =~= Seq::empty());
            assert(r@.audit_log =~= Seq::empty());
            assert(r@.integrations =~= Seq::empty());
            assert(r@.users =~= Seq::empty());
            assert(r@.sso_identities =~= Seq::empty());
            assert(r@.company_members =~= Seq::empty());
            assert(r@.licenses =~= Seq::empty());
            assert(r@.ended_sessions =~= Seq::empty());
            assert(r@.node_reviews =~= Seq::empty());
        }
        r
    }

    /// The name to show for an account in the audit log; `None` where it is not known.
    pub fn lookup_username(&self, user_id: &str) -> (r: Option<String>)
        ensures
            crate::text::opt_text(r) == username_of(self@, user_id@),
    {
        let f = |r: &UserRow| -> (b: bool)
            ensures
                b == user_with_id(user_id@)(r@),
            { same(r.id.as_str(), user_id) };
        match find_where(&self.users, f, Ghost(user_with_id(user_id@))) {
            Some(i) => clone_opt(&self.users[i].username),
            None => None,
        }
    }

    /// Appends an entry to the audit log, under a fresh identifier.
    pub fn audit(
        &mut self,
        tenant_id: &str,
        user_id: Option<&str>,
        username: Option<&str>,
        action: &str,
        resource: Option<&str>,
        now: i64,
    )
        ensures
            final(self)@ == audited(
                old(self)@,
                newest_audit_id(final(self)@),
                tenant_id@,
                opt_str(user_id),
                opt_str(username),
                action@,
                opt_str(resource),
                now,
            ),
            is_short_id("audit"@, newest_audit_id(final(self)@)),
    {
        let id = short_id("audit");
        self.audit_as(id, tenant_id, user_id, username, action, resource, now);
    }

    /// Appends an entry to the audit log.
    pub fn audit_as(
        &mut self,
        id: String,
        tenant_id: &str,
        user_id: Option<&str>,
        username: Option<&str>,
        action: &str,
        resource: Option<&str>,
        now: i64,
    )
        ensures
            final(self)@ == audited(
                old(self)@,
                id@,
                tenant_id@,
                opt_str(user_id),
                opt_str(username),
                action@,
                opt_str(resource),
                now,
            ),
    {
        let ghost before = self@.audit_log;
        let row = AuditLogRow {
            id,
            tenant_id: tenant_id.to_owned(),
            user_id: own_opt(user_id),
            username: own_opt(username),
            action: action.to_owned(),
            resource: own_opt(resource),
            ip_address: None,
            user_agent: None,
            created_at: now,
        };
        self.audit_log.push(row);
        proof {
            assert(self@.audit_log =~= before.push(row@));
        }
    }

    /// Ends a person's sessions, and with them the credentials that outlive a session.
    pub fn invalidate_user_tokens(&mut self, user_id: &str)
        ensures
            final(self)@ == session_ended(old(self)@, user_id@),
    {
        let ghost before = self@.ended_sessions;
        self.ended_sessions.push(user_id.to_owned());
        proof {
            assert(self@.ended_sessions =~= before.push(user_id@));
        }
    }
}

} // verus!
