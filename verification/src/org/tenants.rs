//! Founding, disbanding and resetting project groups.
use crate::ids::{is_short_id, short_id};
use crate::org::codes::display_code;
use crate::org::error::{forbidden, OrgError, OrgErrorView};
use crate::org::invites::{
    drew, enrolled, generated_code, invite_with_code, new_invite, plain_member, plain_row,
    profiled_member,
};
use crate::org::membership::{active_tenant, role_of, tenant_with_id};
use crate::org::models::{
    enterprise_tenant, is_enterprise_tenant_id, is_system_admin_role, system_admin_role,
    ActiveTenantRow, ActiveTenantRowView, AdminUserDtoView, ArchiveSnapshot, ArchiveSnapshotView,
    ArchivedTenant, ArchivedTenantView, AuditLogRow, AuditLogRowView, DepartmentRow,
    DepartmentRowView, IntegrationRow, IntegrationRowView, InviteRow, InviteRowView,
    ResetLocalResult, RuntimeNodeRow, RuntimeNodeRowView, TenantRow, TenantRowView, UserOrgRow,
    UserOrgRowView, DEFAULT_TENANT_ID, ROLE_ORG_ADMIN, ROLE_SYSTEM_ADMIN,
};
use crate::org::roster::{roster, roster_refusal, tenant_under};
use crate::org::service::{
    audited, newest_audit_id, user_with_id, username_of, OrgService, OrgState,
};
use crate::table::{
    any, first, keep_where, lemma_filter_step, lemma_first, lemma_first_grows, lemma_first_prefix,
    lemma_first_push, views,
};
use crate::text::{
    as_opt_str, cat3, has_text, opt_is, opt_str, own_opt, signed_decimal, signed_text, texts, trim,
    trimmed_text,
};
use vstd::prelude::*;

verus! {

pub open spec fn new_tenant(
    id: Seq<char>,
    name: Seq<char>,
    enterprise_id: Option<Seq<char>>,
    now: i64,
) -> TenantRowView {
    TenantRowView {
        id,
        name,
        exit_password_hash: None,
        enterprise_id,
        allowed_email_domains: None,
        created_at: now,
        updated_at: now,
    }
}

/// Why a person may not found a standalone group of this name.
pub open spec fn found_refusal(st: OrgState, user_id: Seq<char>, name: Seq<char>) -> Option<
    OrgErrorView,
> {
    if trimmed_text(name).len() == 0 {
        Some(OrgErrorView::NameRequired)
    } else if enterprise_tenant(active_tenant(st, user_id)) {
        Some(OrgErrorView::AlreadyInEnterprise)
    } else if !system_admin_role(role_of(st, user_id)) {
        Some(
            OrgErrorView::Forbidden("Only system administrators can create an enterprise"@),
        )
    } else {
        None
    }
}

/// The state after a person founded a standalone group.
pub open spec fn founded(
    st: OrgState,
    id: Seq<char>,
    user_id: Seq<char>,
    name: Seq<char>,
    now: i64,
    audit_id: Seq<char>,
) -> OrgState {
    let with_tenant = OrgState {
        tenants: st.tenants.push(new_tenant(id, name, None, now)),
        ..st
    };
    audited(
        enrolled(with_tenant, profiled_member(st, user_id, id, ROLE_SYSTEM_ADMIN@, now), now),
        audit_id,
        id,
        Some(user_id),
        username_of(st, user_id),
        "org.create"@,
        Some(name),
        now,
    )
}

/// The state after a company's group was set up, before its first invite.
pub open spec fn group_set_up(
    st: OrgState,
    id: Seq<char>,
    enterprise_id: Seq<char>,
    name: Seq<char>,
    initial_admin: Option<Seq<char>>,
    now: i64,
) -> OrgState {
    OrgState {
        tenants: st.tenants.push(new_tenant(id, name, Some(enterprise_id), now)),
        members: match initial_admin {
            Some(admin) => st.members.push(plain_member(admin, id, ROLE_ORG_ADMIN@, now)),
            None => st.members,
        },
        ..st
    }
}

/// Whether a tenant id names a group of the company.
pub open spec fn owned_id(st: OrgState, enterprise_id: Seq<char>, tenant_id: Seq<char>) -> bool {
    any(
        st.tenants,
        |t: TenantRowView| t.enterprise_id == Some(enterprise_id) && t.id == tenant_id,
    )
}

/// The state without a company's groups and everything in them.
pub open spec fn disbanded(st: OrgState, enterprise_id: Seq<char>) -> OrgState {
    OrgState {
        tenants: st.tenants.filter(|r: TenantRowView| !owned_id(st, enterprise_id, r.id)),
        members: st.members.filter(|r: UserOrgRowView| !owned_id(st, enterprise_id, r.tenant_id)),
        active: st.active.filter(
            |r: ActiveTenantRowView| !owned_id(st, enterprise_id, r.tenant_id),
        ),
        invites: st.invites.filter(|r: InviteRowView| !owned_id(st, enterprise_id, r.tenant_id)),
        departments: st.departments.filter(
            |r: DepartmentRowView| !owned_id(st, enterprise_id, r.tenant_id),
        ),
        nodes: st.nodes.filter(|r: RuntimeNodeRowView| !owned_id(st, enterprise_id, r.tenant_id)),
        audit_log: st.audit_log.filter(
            |r: AuditLogRowView| !owned_id(st, enterprise_id, r.tenant_id),
        ),
        integrations: st.integrations.filter(
            |r: IntegrationRowView| !owned_id(st, enterprise_id, r.tenant_id),
        ),
        ..st
    }
}

/// A membership in one of the company's groups of the named person, who has an account.
pub open spec fn affected_by(st: OrgState, enterprise_id: Seq<char>, user_id: Seq<char>) -> spec_fn(
    UserOrgRowView,
) -> bool {
    |r: UserOrgRowView|
        r.user_id == user_id && owned_id(st, enterprise_id, r.tenant_id) && any(
            st.users,
            user_with_id(user_id),
        )
}

/// The accounts whose sessions end when a company's groups go, each once.
pub open spec fn affected_users(
    st: OrgState,
    enterprise_id: Seq<char>,
    users: Seq<Seq<char>>,
) -> bool {
    &&& users.no_duplicates()
    &&& forall|u: Seq<char>| #[trigger]
        users.contains(u) <==> any(st.members, affected_by(st, enterprise_id, u))
}

/// The groups with their members, as archived.
pub open spec fn archives(
    st: OrgState,
    tenants: Seq<TenantRowView>,
    out: Seq<ArchivedTenantView>,
) -> bool {
    &&& out.len() == tenants.len()
    &&& forall|i: int|
        0 <= i < out.len() ==> {
            &&& (#[trigger] out[i]).id == tenants[i].id
            &&& out[i].name == tenants[i].name
            &&& out[i].created_at == tenants[i].created_at
            &&& out[i].updated_at == tenants[i].updated_at
            &&& roster(st, tenants[i].id, out[i].members)
        }
}

/// Why groups are not archived: the members of the first that cannot be listed.
pub open spec fn archive_refusal(st: OrgState, tenants: Seq<TenantRowView>) -> Option<OrgErrorView> {
    match first(tenants, |t: TenantRowView| roster_refusal(st, t.id) is Some) {
        Some(t) => roster_refusal(st, t.id),
        None => None,
    }
}

/// The accounts of all archived members, group by group.
pub open spec fn archived_users(out: Seq<ArchivedTenantView>) -> Seq<Seq<char>>
    decreases out.len(),
{
    if out.len() == 0 {
        Seq::empty()
    } else {
        archived_users(out.drop_last()) + out.last().members.map_values(
            |m: AdminUserDtoView| m.user_id,
        )
    }
}

/// The state without any group, membership, pointer and invite, and with sessions ended.
pub open spec fn reset(st: OrgState, users: Seq<Seq<char>>) -> OrgState {
    OrgState {
        tenants: Seq::empty(),
        members: Seq::empty(),
        active: Seq::empty(),
        invites: Seq::empty(),
        ended_sessions: st.ended_sessions + users,
        ..st
    }
}

/// The name of the file that an archive is stored in.
pub open spec fn archive_name(archive: ArchiveSnapshotView) -> Seq<char> {
    let time = signed_decimal(archive.archived_at as int);
    match archive.enterprise_id {
        Some(id) => "enterprise-disband-"@ + id + "-"@ + time + ".json"@,
        None => "enterprise-"@ + time + ".json"@,
    }
}

impl ArchiveSnapshot {
    /// The name of the file that the archive is stored in.
    pub fn file_name(&self) -> (r: String)
        ensures
            r@ == archive_name(self@),
    {
        let time = signed_text(self.archived_at);
        match &self.enterprise_id {
            Some(id) => {
                let head = cat3("enterprise-disband-", id.as_str(), "-");
                cat3(head.as_str(), time.as_str(), ".json")
            },
            None => cat3("enterprise-", time.as_str(), ".json"),
        }
    }
}

impl OrgService {
    fn push_tenant(&mut self, id: &str, name: &str, enterprise_id: Option<&str>, now: i64)
        ensures
            final(self)@ == (OrgState {
                tenants: old(self)@.tenants.push(
                    new_tenant(id@, name@, opt_str(enterprise_id), now),
                ),
                ..old(self)@
            }),
    {
        let ghost before = self@.tenants;
        let row = TenantRow {
            id: id.to_owned(),
            name: name.to_owned(),
            exit_password_hash: None,
            enterprise_id: own_opt(enterprise_id),
            allowed_email_domains: None,
            created_at: now,
            updated_at: now,
        };
        self.tenants.push(row);
        proof {
            assert(self@.tenants =~= before.push(row@));
        }
    }

    /// Founds a standalone project group with its founder as system administrator. The result
    /// is the group's identifier and name.
    pub fn create_tenant(&mut self, user_id: &str, name_raw: &str, now: i64) -> (r: Result<
        (String, String),
        OrgError,
    >)
        ensures
            match found_refusal(old(self)@, user_id@, name_raw@) {
                Some(why) => (r matches Err(e) && e@ == why) && final(self)@ == old(self)@,
                None => r matches Ok(v) && {
                    &&& v.1@ == trimmed_text(name_raw@)
                    &&& is_short_id("tenant"@, v.0@)
                    &&& is_short_id("audit"@, newest_audit_id(final(self)@))
                    &&& final(self)@ == founded(
                        old(self)@,
                        v.0@,
                        user_id@,
                        trimmed_text(name_raw@),
                        now,
                        newest_audit_id(final(self)@),
                    )
                },
            },
    {
        let name = trim(name_raw);
        if name.as_str().is_empty() {
            return Err(OrgError::NameRequired);
        }
        let current = self.tenant_of(user_id);
        if is_enterprise_tenant_id(current.as_str()) {
            return Err(OrgError::AlreadyInEnterprise);
        }
        let role = self.effective_role(user_id);
        if !is_system_admin_role(role.as_str()) {
            return Err(forbidden("Only system administrators can create an enterprise"));
        }
        let id = short_id("tenant");
        let row = self.profiled_row(user_id, id.as_str(), ROLE_SYSTEM_ADMIN, now);
        let username = self.lookup_username(user_id);
        self.push_tenant(id.as_str(), name.as_str(), None, now);
        self.enroll(row, now);
        self.audit(
            id.as_str(),
            Some(user_id),
            as_opt_str(&username),
            "org.create",
            Some(name.as_str()),
            now,
        );
        Ok((id, name))
    }

    /// Sets up a project group that a company owns, empty or with one administrator, and makes
    /// its first invite. The result is the group's identifier and name and the invite's display
    /// code.
    pub fn create_tenant_for_enterprise(
        &mut self,
        enterprise_id: &str,
        name_raw: &str,
        created_by: &str,
        initial_admin_user_id: Option<&str>,
        now: i64,
    ) -> (r: Result<(String, String, String), OrgError>)
        ensures
            match r {
                Ok(v) => {
                    let name = trimmed_text(name_raw@);
                    let set_up = group_set_up(
                        old(self)@,
                        v.0@,
                        enterprise_id@,
                        name,
                        opt_str(initial_admin_user_id),
                        now,
                    );
                    let invite = final(self)@.invites.last();
                    &&& name.len() > 0
                    &&& v.1@ == name
                    &&& v.2@ == display_code(invite.code)
                    &&& is_short_id("tenant"@, v.0@)
                    &&& is_short_id("inv"@, invite.id)
                    &&& generated_code(invite.code)
                    &&& !any(old(self)@.invites, invite_with_code(invite.code))
                    &&& drew(old(self)@.invites, Ok(invite.code))
                    &&& is_short_id("audit"@, newest_audit_id(final(self)@))
                    &&& invite == new_invite(
                        invite.id,
                        v.0@,
                        invite.code,
                        created_by@,
                        None,
                        None,
                        now,
                    )
                    &&& final(self)@ == audited(
                        OrgState { invites: old(self)@.invites.push(invite), ..set_up },
                        newest_audit_id(final(self)@),
                        v.0@,
                        Some(created_by@),
                        None,
                        "org.create_for_enterprise"@,
                        Some(name),
                        now,
                    )
                },
                Err(e) => if trimmed_text(name_raw@).len() == 0 {
                    e@ == OrgErrorView::NameRequired && final(self)@ == old(self)@
                } else {
                    &&& drew(old(self)@.invites, Err(e@))
                    &&& is_short_id("tenant"@, final(self)@.tenants.last().id)
                    &&& final(self)@ == group_set_up(
                        old(self)@,
                        final(self)@.tenants.last().id,
                        enterprise_id@,
                        trimmed_text(name_raw@),
                        opt_str(initial_admin_user_id),
                        now,
                    )
                },
            },
            trimmed_text(name_raw@).len() == 0 ==> r is Err,
    {
        let name = trim(name_raw);
        if name.as_str().is_empty() {
            return Err(OrgError::NameRequired);
        }
        let id = short_id("tenant");
        self.push_tenant(id.as_str(), name.as_str(), Some(enterprise_id), now);
        if let Some(admin) = initial_admin_user_id {
            let ghost before = self@.members;
            let row = plain_row(admin, id.as_str(), ROLE_ORG_ADMIN, now);
            self.members.push(row);
            proof {
                assert(self@.members =~= before.push(row@));
            }
        }
        proof {
            let st = self@;
            assert(tenant_with_id(id@)(st.tenants[st.tenants.len() - 1]));
            lemma_first(st.tenants, tenant_with_id(id@));
        }
        let code = match self.create_invite(id.as_str(), created_by, None, None, now) {
            Ok((_, code)) => code,
            Err(e) => {
                return Err(e);
            },
        };
        self.audit(
            id.as_str(),
            Some(created_by),
            None,
            "org.create_for_enterprise",
            Some(name.as_str()),
            now,
        );
        Ok((id, name, code))
    }

    fn archive(&self, tenant: &TenantRow) -> (r: Result<ArchivedTenant, OrgError>)
        ensures
            match roster_refusal(self@, tenant@.id) {
                Some(why) => r matches Err(e) && e@ == why,
                None => r matches Ok(t) && {
                    &&& t@.id == tenant@.id
                    &&& t@.name == tenant@.name
                    &&& t@.created_at == tenant@.created_at
                    &&& t@.updated_at == tenant@.updated_at
                    &&& roster(self@, tenant@.id, t@.members)
                },
            },
    {
        match self.list_users(tenant.id.as_str()) {
            Ok(members) => Ok(
                ArchivedTenant {
                    id: tenant.id.clone(),
                    name: tenant.name.clone(),
                    created_at: tenant.created_at,
                    updated_at: tenant.updated_at,
                    members,
                },
            ),
            Err(e) => Err(e),
        }
    }

    /// What to archive before a company's groups are disbanded. `None` where it has none.
    pub fn disband_archive(&self, enterprise_id: &str, now: i64) -> (r: Result<
        Option<ArchiveSnapshot>,
        OrgError,
    >)
        ensures
            ({
                let owned = self@.tenants.filter(tenant_under(enterprise_id@));
                match archive_refusal(self@, owned) {
                    Some(why) => r matches Err(e) && e@ == why,
                    None => match r {
                        Err(_) => false,
                        Ok(None) => owned.len() == 0,
                        Ok(Some(s)) => {
                            &&& owned.len() > 0
                            &&& s@.archived_at == now
                            &&& s@.enterprise_id == Some(enterprise_id@)
                            &&& archives(self@, owned, s@.tenants)
                        },
                    },
                }
            }),
    {
        let ghost all = self@.tenants;
        let ghost p = tenant_under(enterprise_id@);
        let ghost bad = |t: TenantRowView| roster_refusal(self@, t.id) is Some;
        let mut out: Vec<ArchivedTenant> = Vec::new();
        let mut i: usize = 0;
        proof {
            reveal(Seq::filter);
            assert(all.take(0) =~= Seq::empty());
        }
        while i < self.tenants.len()
            invariant
                all == self@.tenants,
                p == tenant_under(enterprise_id@),
                bad == (|t: TenantRowView| roster_refusal(self@, t.id) is Some),
                i <= self.tenants.len(),
                first(all.take(i as int).filter(p), bad) is None,
                archives(self@, all.take(i as int).filter(p), views(out@)),
            decreases self.tenants.len() - i,
        {
            let ghost so_far = all.take(i as int).filter(p);
            proof {
                lemma_filter_step(all, p, i as int);
                lemma_first_push(so_far, all[i as int], bad);
            }
            if opt_is(&self.tenants[i].enterprise_id, enterprise_id) {
                let ghost before = views(out@);
                match self.archive(&self.tenants[i]) {
                    Ok(one) => {
                        out.push(one);
                        proof {
                            assert(views(out@) =~= before.push(one@));
                        }
                    },
                    Err(e) => {
                        proof {
                            lemma_first_grows(all, p, bad, i + 1);
                        }
                        return Err(e);
                    },
                }
            }
            i = i + 1;
        }
        proof {
            assert(all.take(i as int) =~= all);
            assert(views(out@).len() == out@.len());
        }
        if out.len() == 0 {
            Ok(None)
        } else {
            Ok(
                Some(
                    ArchiveSnapshot {
                        archived_at: now,
                        enterprise_id: Some(enterprise_id.to_owned()),
                        tenants: out,
                    },
                ),
            )
        }
    }

    /// The identifiers of a company's groups.
    fn group_ids(&self, enterprise_id: &str) -> (out: Vec<String>)
        ensures
            texts(out@) == self@.tenants.filter(tenant_under(enterprise_id@)).map_values(
                |t: TenantRowView| t.id,
            ),
            forall|t: Seq<char>|
                #[trigger] texts(out@).contains(t) <==> owned_id(self@, enterprise_id@, t),
    {
        let ghost all = self@.tenants;
        let ghost p = tenant_under(enterprise_id@);
        let ghost id_of = |t: TenantRowView| t.id;
        let mut out: Vec<String> = Vec::new();
        let mut i: usize = 0;
        proof {
            reveal(Seq::filter);
            assert(all.take(0) =~= Seq::empty());
            assert(texts(out@) =~= Seq::<TenantRowView>::empty().map_values(id_of));
        }
        while i < self.tenants.len()
            invariant
                all == self@.tenants,
                p == tenant_under(enterprise_id@),
                id_of == (|t: TenantRowView| t.id),
                i <= self.tenants.len(),
                texts(out@) == all.take(i as int).filter(p).map_values(id_of),
                forall|k: int|
                    0 <= k < texts(out@).len() ==> owned_id(
                        self@,
                        enterprise_id@,
                        #[trigger] texts(out@)[k],
                    ),
                forall|k: int|
                    0 <= k < i && p(#[trigger] all[k]) ==> texts(out@).contains(all[k].id),
            decreases self.tenants.len() - i,
        {
            proof {
                lemma_filter_step(all, p, i as int);
            }
            if opt_is(&self.tenants[i].enterprise_id, enterprise_id) {
                let ghost before = texts(out@);
                let ghost kept = all.take(i as int).filter(p);
                out.push(self.tenants[i].id.clone());
                proof {
                    let row = all[i as int];
                    assert(texts(out@) =~= before.push(row.id));
                    assert(kept.push(row).map_values(id_of) =~= kept.map_values(id_of).push(
                        row.id,
                    ));
                    assert(p(row));
                    assert(owned_id(self@, enterprise_id@, row.id));
                    assert forall|k: int|
                        0 <= k < i + 1 && p(#[trigger] all[k]) implies texts(out@).contains(
                        all[k].id,
                    ) by {
                        if k < i {
                            let q = choose|q: int| 0 <= q < before.len() && before[q] == all[k].id;
                            assert(texts(out@)[q] == all[k].id);
                        } else {
                            assert(texts(out@)[before.len() as int] == all[k].id);
                        }
                    }
                }
            }
            i = i + 1;
        }
        proof {
            assert(all.take(i as int) =~= all);
            assert forall|t: Seq<char>| #[trigger] texts(out@).contains(t) <==> owned_id(
                self@,
                enterprise_id@,
                t,
            ) by {
                if owned_id(self@, enterprise_id@, t) {
                    let k = choose|k: int|
                        0 <= k < all.len() && (#[trigger] all[k]).enterprise_id == Some(
                            enterprise_id@,
                        ) && all[k].id == t;
                    assert(p(all[k]));
                }
                if texts(out@).contains(t) {
                    let q = choose|q: int| 0 <= q < texts(out@).len() && texts(out@)[q] == t;
                    assert(owned_id(self@, enterprise_id@, texts(out@)[q]));
                }
            }
        }
        out
    }

    /// The accounts that disbanding a company's groups logs out.
    fn users_of_groups(&self, enterprise_id: &str, ids: &Vec<String>) -> (out: Vec<String>)
        requires
            forall|t: Seq<char>|
                #[trigger] texts(ids@).contains(t) <==> owned_id(self@, enterprise_id@, t),
        ensures
            affected_users(self@, enterprise_id@, texts(out@)),
    {
        let mut out: Vec<String> = Vec::new();
        let mut i: usize = 0;
        while i < self.members.len()
            invariant
                forall|t: Seq<char>|
                    #[trigger] texts(ids@).contains(t) <==> owned_id(self@, enterprise_id@, t),
                i <= self.members.len(),
                texts(out@).no_duplicates(),
                forall|k: int|
                    0 <= k < texts(out@).len() ==> any(
                        self@.members,
                        affected_by(self@, enterprise_id@, #[trigger] texts(out@)[k]),
                    ),
                forall|k: int|
                    0 <= k < i && affected_by(
                        self@,
                        enterprise_id@,
                        (#[trigger] self@.members[k]).user_id,
                    )(self@.members[k]) ==> texts(out@).contains(self@.members[k].user_id),
            decreases self.members.len() - i,
        {
            let m = &self.members[i];
            proof {
                assert(self@.members[i as int] == m@);
            }
            let hit = has_text(ids, m.tenant_id.as_str()) && self.has_account(m.user_id.as_str());
            if hit && !has_text(&out, m.user_id.as_str()) {
                let ghost before = texts(out@);
                out.push(m.user_id.clone());
                proof {
                    let after = texts(out@);
                    assert(after =~= before.push(m@.user_id));
                    assert(affected_by(self@, enterprise_id@, m@.user_id)(self@.members[i as int]));
                    assert forall|a: int, b: int|
                        0 <= a < after.len() && 0 <= b < after.len() && a != b implies after[a]
                        != after[b] by {
                        if a == before.len() {
                            assert(before.contains(before[b]));
                        } else if b == before.len() {
                            assert(before.contains(before[a]));
                        }
                    }
                    assert forall|k: int|
                        0 <= k < i + 1 && affected_by(
                            self@,
                            enterprise_id@,
                            (#[trigger] self@.members[k]).user_id,
                        )(self@.members[k]) implies after.contains(self@.members[k].user_id) by {
                        let u = self@.members[k].user_id;
                        if k < i {
                            let q = choose|q: int| 0 <= q < before.len() && before[q] == u;
                            assert(after[q] == u);
                        } else {
                            assert(after[before.len() as int] == u);
                        }
                    }
                }
            }
            i = i + 1;
        }
        proof {
            let users = texts(out@);
            assert forall|u: Seq<char>| #[trigger] users.contains(u) <==> any(
                self@.members,
                affected_by(self@, enterprise_id@, u),
            ) by {
                if users.contains(u) {
                    let q = choose|q: int| 0 <= q < users.len() && users[q] == u;
                    assert(any(self@.members, affected_by(self@, enterprise_id@, users[q])));
                }
                if any(self@.members, affected_by(self@, enterprise_id@, u)) {
                    let k = choose|k: int|
                        0 <= k < self@.members.len() && affected_by(self@, enterprise_id@, u)(
                            #[trigger] self@.members[k],
                        );
                    assert(self@.members[k].user_id == u);
                }
            }
        }
        out
    }

    fn end_sessions(&mut self, users: &Vec<String>)
        ensures
            final(self)@ == (OrgState {
                ended_sessions: old(self)@.ended_sessions + texts(users@),
                ..old(self)@
            }),
    {
        let ghost start = self@;
        let mut i: usize = 0;
        proof {
            assert(start.ended_sessions + texts(users@).take(0) =~= start.ended_sessions);
        }
        while i < users.len()
            invariant
                start == old(self)@,
                i <= users.len(),
                self@ == (OrgState {
                    ended_sessions: start.ended_sessions + texts(users@).take(i as int),
                    ..start
                }),
            decreases users.len() - i,
        {
            self.invalidate_user_tokens(users[i].as_str());
            proof {
                assert((start.ended_sessions + texts(users@).take(i as int)).push(
                    users@[i as int]@,
                ) =~= start.ended_sessions + texts(users@).take(i + 1));
            }
            i = i + 1;
        }
        proof {
            assert(texts(users@).take(i as int) =~= texts(users@));
        }
    }

    /// Deletes every project group of a company with all that is in it, and ends the sessions of
    /// everyone who was in one. The result names the groups that went.
    pub fn disband_tenants_for_enterprise(&mut self, enterprise_id: &str) -> (r: Vec<String>)
        ensures
            texts(r@) == old(self)@.tenants.filter(tenant_under(enterprise_id@)).map_values(
                |t: TenantRowView| t.id,
            ),
            ({
                let users = final(self)@.ended_sessions.skip(
                    old(self)@.ended_sessions.len() as int,
                );
                &&& affected_users(old(self)@, enterprise_id@, users)
                &&& final(self)@ == (OrgState {
                    ended_sessions: old(self)@.ended_sessions + users,
                    ..disbanded(old(self)@, enterprise_id@)
                })
            }),
    {
        let ids = self.group_ids(enterprise_id);
        let users = self.users_of_groups(enterprise_id, &ids);
        let ghost st = self@;
        let ghost e = enterprise_id@;
        let ghost pt = |r: TenantRowView| !owned_id(st, e, r.id);
        let ghost pm = |r: UserOrgRowView| !owned_id(st, e, r.tenant_id);
        let ghost pa = |r: ActiveTenantRowView| !owned_id(st, e, r.tenant_id);
        let ghost pi = |r: InviteRowView| !owned_id(st, e, r.tenant_id);
        let ghost pd = |r: DepartmentRowView| !owned_id(st, e, r.tenant_id);
        let ghost pn = |r: RuntimeNodeRowView| !owned_id(st, e, r.tenant_id);
        let ghost pl = |r: AuditLogRowView| !owned_id(st, e, r.tenant_id);
        let ghost pg = |r: IntegrationRowView| !owned_id(st, e, r.tenant_id);
        let f = |r: &InviteRow| -> (b: bool)
            ensures
                b == pi(r@),
            { !has_text(&ids, r.tenant_id.as_str()) };
        keep_where(&mut self.invites, f, Ghost(pi));
        let f = |r: &UserOrgRow| -> (b: bool)
            ensures
                b == pm(r@),
            { !has_text(&ids, r.tenant_id.as_str()) };
        keep_where(&mut self.members, f, Ghost(pm));
        let f = |r: &ActiveTenantRow| -> (b: bool)
            ensures
                b == pa(r@),
            { !has_text(&ids, r.tenant_id.as_str()) };
        keep_where(&mut self.active, f, Ghost(pa));
        let f = |r: &RuntimeNodeRow| -> (b: bool)
            ensures
                b == pn(r@),
            { !has_text(&ids, r.tenant_id.as_str()) };
        keep_where(&mut self.nodes, f, Ghost(pn));
        let f = |r: &AuditLogRow| -> (b: bool)
            ensures
                b == pl(r@),
            { !has_text(&ids, r.tenant_id.as_str()) };
        keep_where(&mut self.audit_log, f, Ghost(pl));
        let f = |r: &DepartmentRow| -> (b: bool)
            ensures
                b == pd(r@),
            { !has_text(&ids, r.tenant_id.as_str()) };
        keep_where(&mut self.departments, f, Ghost(pd));
        let f = |r: &IntegrationRow| -> (b: bool)
            ensures
                b == pg(r@),
            { !has_text(&ids, r.tenant_id.as_str()) };
        keep_where(&mut self.integrations, f, Ghost(pg));
        let f = |r: &TenantRow| -> (b: bool)
            ensures
                b == pt(r@),
            { !has_text(&ids, r.id.as_str()) };
        keep_where(&mut self.tenants, f, Ghost(pt));
        self.end_sessions(&users);
        proof {
            assert(self@.ended_sessions.skip(st.ended_sessions.len() as int) =~= texts(users@));
        }
        ids
    }

    /// What to archive before the local data is reset.
    pub fn reset_archive(&self, user_id: &str, now: i64) -> (r: Result<ArchiveSnapshot, OrgError>)
        ensures
            if !system_admin_role(role_of(self@, user_id@)) {
                r matches Err(e) && e@ == OrgErrorView::Forbidden(
                    "Only system administrators can reset local enterprise data"@,
                )
            } else {
                match archive_refusal(self@, self@.tenants) {
                    Some(why) => r matches Err(e) && e@ == why,
                    None => r matches Ok(s) && {
                        &&& s@.archived_at == now
                        &&& s@.enterprise_id is None
                        &&& archives(self@, self@.tenants, s@.tenants)
                    },
                }
            },
    {
        let role = self.effective_role(user_id);
        if !is_system_admin_role(role.as_str()) {
            return Err(forbidden("Only system administrators can reset local enterprise data"));
        }
        let ghost all = self@.tenants;
        let ghost bad = |t: TenantRowView| roster_refusal(self@, t.id) is Some;
        let mut out: Vec<ArchivedTenant> = Vec::new();
        let mut i: usize = 0;
        while i < self.tenants.len()
            invariant
                system_admin_role(role_of(self@, user_id@)),
                all == self@.tenants,
                bad == (|t: TenantRowView| roster_refusal(self@, t.id) is Some),
                i <= self.tenants.len(),
                first(all.take(i as int), bad) is None,
                archives(self@, all.take(i as int), views(out@)),
            decreases self.tenants.len() - i,
        {
            let ghost before = views(out@);
            proof {
                assert(all.take(i + 1).drop_last() =~= all.take(i as int));
            }
            match self.archive(&self.tenants[i]) {
                Ok(one) => {
                    out.push(one);
                    proof {
                        assert(views(out@) =~= before.push(one@));
                    }
                },
                Err(e) => {
                    proof {
                        lemma_first_prefix(all, bad, i as int);
                    }
                    return Err(e);
                },
            }
            i = i + 1;
        }
        proof {
            assert(all.take(i as int) =~= all);
        }
        Ok(ArchiveSnapshot { archived_at: now, enterprise_id: None, tenants: out })
    }

    /// Deletes every project group, membership, pointer and invite, once the archive of them is
    /// stored at `archive_path`, and ends the sessions of every archived member.
    pub fn reset_local_enterprise(
        &mut self,
        user_id: &str,
        archive: &ArchiveSnapshot,
        archive_path: &str,
        now: i64,
    ) -> (r: Result<ResetLocalResult, OrgError>)
        requires
            archives(old(self)@, old(self)@.tenants, archive@.tenants),
        ensures
            if system_admin_role(role_of(old(self)@, user_id@)) {
                let users = archived_users(archive@.tenants);
                &&& r matches Ok(v) && v@.archived_tenant_count == old(self)@.tenants.len() as i64
                    && v@.archived_member_count == users.len() as i64 && v@.archive_path
                    == archive_path@
                &&& is_short_id("audit"@, newest_audit_id(final(self)@))
                &&& final(self)@ == audited(
                    reset(old(self)@, users),
                    newest_audit_id(final(self)@),
                    DEFAULT_TENANT_ID@,
                    Some(user_id@),
                    username_of(old(self)@, user_id@),
                    "org.reset_local"@,
                    Some(archive_path@),
                    now,
                )
            } else {
                &&& final(self)@ == old(self)@
                &&& r matches Err(e) && e@ == OrgErrorView::Forbidden(
                    "Only system administrators can reset local enterprise data"@,
                )
            },
    {
        let role = self.effective_role(user_id);
        if !is_system_admin_role(role.as_str()) {
            return Err(forbidden("Only system administrators can reset local enterprise data"));
        }
        let ghost groups = archive@.tenants;
        let mut users: Vec<String> = Vec::new();
        let mut i: usize = 0;
        proof {
            assert(groups.take(0) =~= Seq::empty());
            assert(texts(users@) =~= Seq::empty());
        }
        while i < archive.tenants.len()
            invariant
                groups == archive@.tenants,
                i <= archive.tenants.len(),
                texts(users@) == archived_users(groups.take(i as int)),
            decreases archive.tenants.len() - i,
        {
            let group = &archive.tenants[i];
            let ghost ids = group@.members.map_values(|m: AdminUserDtoView| m.user_id);
            let ghost start = texts(users@);
            let mut j: usize = 0;
            proof {
                assert(start + ids.take(0) =~= start);
            }
            while j < group.members.len()
                invariant
                    ids == group@.members.map_values(|m: AdminUserDtoView| m.user_id),
                    j <= group.members.len(),
                    texts(users@) == start + ids.take(j as int),
                decreases group.members.len() - j,
            {
                let ghost before = texts(users@);
                users.push(group.members[j].user_id.clone());
                proof {
                    assert(texts(users@) =~= before.push(ids[j as int]));
                    assert(start + ids.take(j + 1) =~= (start + ids.take(j as int)).push(
                        ids[j as int],
                    ));
                }
                j = j + 1;
            }
            proof {
                assert(ids.take(j as int) =~= ids);
                assert(groups.take(i + 1).drop_last() =~= groups.take(i as int));
                assert(groups.take(i + 1).last() == group@);
            }
            i = i + 1;
        }
        proof {
            assert(groups.take(i as int) =~= groups);
            assert(texts(users@).len() == users@.len());
            assert(groups.len() == archive.tenants@.len());
        }
        let username = self.lookup_username(user_id);
        let ghost before = self@;
        self.members = Vec::new();
        self.active = Vec::new();
        self.tenants = Vec::new();
        self.invites = Vec::new();
        self.end_sessions(&users);
        proof {
            assert(self@.members =~= Seq::empty());
            assert(self@.active =~= Seq::empty());
            assert(self@.tenants =~= Seq::empty());
            assert(self@.invites =~= Seq::empty());
        }
        self.audit(
            DEFAULT_TENANT_ID,
            Some(user_id),
            as_opt_str(&username),
            "org.reset_local",
            Some(archive_path),
            now,
        );
        Ok(
            ResetLocalResult {
                archived_tenant_count: archive.tenants.len() as i64,
                archived_member_count: users.len() as i64,
                archive_path: archive_path.to_owned(),
            },
        )
    }
}

} // verus!
