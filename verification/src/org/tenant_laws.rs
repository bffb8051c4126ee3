//! What founding, setting up, disbanding and resetting groups leaves behind.
use crate::org::error::OrgErrorView;
use crate::org::membership::{active_tenant, role_of};
use crate::org::models::{
    AdminUserDtoView, ArchiveSnapshotView, ArchivedTenantView, TenantRowView,
};
use crate::org::roster::{roster, tenant_under};
use crate::org::service::{user_with_id, username_of, OrgState};
use crate::org::tenants::{
    affected_by, affected_users, archive_name, archived_users, archives, disbanded, found_refusal,
    founded, group_set_up, owned_id, reset,
};
use crate::table::any;
use crate::text::{signed_decimal, trimmed_text};
use vstd::prelude::*;

verus! {

/// A system administrator who acts in no group of an enterprise may found one under a name that is
/// not blank.
pub proof fn founding_is_refused_only_so(st: OrgState, user_id: Seq<char>, name: Seq<char>)
    ensures
        found_refusal(st, user_id, name) is None <==> trimmed_text(name).len() > 0 && (
        active_tenant(st, user_id).len() == 0 || active_tenant(st, user_id) == "default"@)
            && role_of(st, user_id) == "system_admin"@,
        trimmed_text(name).len() == 0 ==> found_refusal(st, user_id, name) == Some(
            OrgErrorView::NameRequired,
        ),
        trimmed_text(name).len() > 0 && active_tenant(st, user_id).len() > 0 && active_tenant(
            st,
            user_id,
        ) != "default"@ ==> found_refusal(st, user_id, name) == Some(
            OrgErrorView::AlreadyInEnterprise,
        ),
{
}

/// Founding adds one group under the name given, with the founder as its administrator, and is
/// logged.
pub proof fn founder_administers_the_group(
    st: OrgState,
    id: Seq<char>,
    user_id: Seq<char>,
    name: Seq<char>,
    now: i64,
    audit_id: Seq<char>,
)
    ensures
        ({
            let after = founded(st, id, user_id, name, now, audit_id);
            let group = after.tenants.last();
            let member = after.members.last();
            let entry = after.audit_log.last();
            &&& after.tenants.drop_last() == st.tenants
            &&& group.id == id
            &&& group.name == name
            &&& group.exit_password_hash is None
            &&& group.enterprise_id is None
            &&& group.allowed_email_domains is None
            &&& group.created_at == now && group.updated_at == now
            &&& after.members.drop_last() == st.members
            &&& member.user_id == user_id
            &&& member.tenant_id == id
            &&& member.role == "system_admin"@
            &&& member.created_at == now
            &&& after.ended_sessions == st.ended_sessions.push(user_id)
            &&& after.audit_log.drop_last() == st.audit_log
            &&& entry.tenant_id == id
            &&& entry.user_id == Some(user_id)
            &&& entry.username == username_of(st, user_id)
            &&& entry.action == "org.create"@
            &&& entry.resource == Some(name)
            &&& entry.created_at == now
            &&& after == (OrgState {
                tenants: after.tenants,
                members: after.members,
                active: after.active,
                ended_sessions: after.ended_sessions,
                audit_log: after.audit_log,
                ..st
            })
        }),
{
    let after = founded(st, id, user_id, name, now, audit_id);
    assert(after.tenants.drop_last() =~= st.tenants);
    assert(after.members.drop_last() =~= st.members);
    assert(after.audit_log.drop_last() =~= st.audit_log);
}

/// Setting a group up for an enterprise adds the group and, where one is named, its first
/// administrator; nobody is moved into it.
pub proof fn group_is_set_up_for_the_enterprise(
    st: OrgState,
    id: Seq<char>,
    enterprise_id: Seq<char>,
    name: Seq<char>,
    initial_admin: Option<Seq<char>>,
    now: i64,
)
    ensures
        ({
            let after = group_set_up(st, id, enterprise_id, name, initial_admin, now);
            let group = after.tenants.last();
            &&& after.tenants.drop_last() == st.tenants
            &&& group.id == id
            &&& group.name == name
            &&& group.enterprise_id == Some(enterprise_id)
            &&& group.exit_password_hash is None
            &&& group.allowed_email_domains is None
            &&& group.created_at == now
            &&& initial_admin is None ==> after.members == st.members
            &&& initial_admin matches Some(admin) ==> {
                let member = after.members.last();
                &&& after.members.drop_last() == st.members
                &&& member.user_id == admin
                &&& member.tenant_id == id
                &&& member.role == "org_admin"@
                &&& member.department_id is None
                &&& member.created_at == now
            }
            &&& after == (OrgState { tenants: after.tenants, members: after.members, ..st })
        }),
{
    let after = group_set_up(st, id, enterprise_id, name, initial_admin, now);
    assert(after.tenants.drop_last() =~= st.tenants);
    if initial_admin is Some {
        assert(after.members.drop_last() =~= st.members);
    }
}

/// What disbanding deletes belongs to a group of the enterprise.
pub proof fn disbanding_is_of_the_enterprise(
    st: OrgState,
    enterprise_id: Seq<char>,
    tenant_id: Seq<char>,
)
    ensures
        owned_id(st, enterprise_id, tenant_id) <==> exists|i: int|
            0 <= i < st.tenants.len() && (#[trigger] st.tenants[i]).id == tenant_id
                && st.tenants[i].enterprise_id == Some(enterprise_id),
        ({
            let after = disbanded(st, enterprise_id);
            &&& after.users == st.users
            &&& after.sso_identities == st.sso_identities
            &&& after.licenses == st.licenses
            &&& after.company_members == st.company_members
            &&& after.ended_sessions == st.ended_sessions
            &&& after.smtp == st.smtp
            &&& after.node_policies == st.node_policies
            &&& after.node_reviews == st.node_reviews
        }),
{
    let p = |t: TenantRowView| t.enterprise_id == Some(enterprise_id) && t.id == tenant_id;
    if any(st.tenants, p) {
        let i = choose|i: int| 0 <= i < st.tenants.len() && p(#[trigger] st.tenants[i]);
        assert(st.tenants[i].id == tenant_id);
    } else {
        assert forall|i: int| 0 <= i < st.tenants.len() implies !((
        #[trigger] st.tenants[i]).id == tenant_id && st.tenants[i].enterprise_id == Some(
            enterprise_id,
        )) by {
            if p(st.tenants[i]) {
                assert(any(st.tenants, p));
            }
        }
    }
}

/// Everyone with an account who was in a group that is disbanded is signed out, once, and nobody
/// else is.
pub proof fn disbanding_signs_its_members_out(
    st: OrgState,
    enterprise_id: Seq<char>,
    users: Seq<Seq<char>>,
    user_id: Seq<char>,
)
    requires
        affected_users(st, enterprise_id, users),
    ensures
        users.no_duplicates(),
        users.contains(user_id) <==> (exists|i: int|
            0 <= i < st.members.len() && (#[trigger] st.members[i]).user_id == user_id && owned_id(
                st,
                enterprise_id,
                st.members[i].tenant_id,
            )) && (exists|i: int|
            0 <= i < st.users.len() && (#[trigger] st.users[i]).id == user_id),
{
    let p = affected_by(st, enterprise_id, user_id);
    let q = user_with_id(user_id);
    if any(st.members, p) {
        let i = choose|i: int| 0 <= i < st.members.len() && p(#[trigger] st.members[i]);
        assert(st.members[i].user_id == user_id);
        let k = choose|k: int| 0 <= k < st.users.len() && q(#[trigger] st.users[k]);
        assert(st.users[k].id == user_id);
    }
    if (exists|i: int|
        0 <= i < st.members.len() && (#[trigger] st.members[i]).user_id == user_id && owned_id(
            st,
            enterprise_id,
            st.members[i].tenant_id,
        )) && (exists|i: int| 0 <= i < st.users.len() && (#[trigger] st.users[i]).id == user_id) {
        let k = choose|k: int| 0 <= k < st.users.len() && (#[trigger] st.users[k]).id == user_id;
        assert(q(st.users[k]));
        let i = choose|i: int|
            0 <= i < st.members.len() && (#[trigger] st.members[i]).user_id == user_id && owned_id(
                st,
                enterprise_id,
                st.members[i].tenant_id,
            );
        assert(p(st.members[i]));
    }
}

/// An archive holds each group that goes, with its name, its times and its roster.
pub proof fn archive_holds_the_groups(
    st: OrgState,
    tenants: Seq<TenantRowView>,
    out: Seq<ArchivedTenantView>,
    i: int,
)
    requires
        archives(st, tenants, out),
        0 <= i < tenants.len(),
    ensures
        out.len() == tenants.len(),
        out[i].id == tenants[i].id,
        out[i].name == tenants[i].name,
        out[i].created_at == tenants[i].created_at,
        out[i].updated_at == tenants[i].updated_at,
        roster(st, tenants[i].id, out[i].members),
{
}

/// The groups that an enterprise's archive holds are those of the enterprise.
pub proof fn groups_of_the_enterprise(t: TenantRowView, enterprise_id: Seq<char>)
    ensures
        tenant_under(enterprise_id)(t) <==> t.enterprise_id == Some(enterprise_id),
{
}

/// Everyone on an archived roster is among the archived people, and nobody else is.
pub proof fn archived_people_are_on_a_roster(out: Seq<ArchivedTenantView>, user_id: Seq<char>)
    ensures
        archived_users(out).contains(user_id) <==> exists|i: int, k: int|
            0 <= i < out.len() && 0 <= k < out[i].members.len() && (
            #[trigger] out[i].members[k]).user_id == user_id,
    decreases out.len(),
{
    if out.len() > 0 {
        let rest = out.drop_last();
        let last = out.last().members.map_values(|m: AdminUserDtoView| m.user_id);
        let all = archived_users(out);
        archived_people_are_on_a_roster(rest, user_id);
        assert(all == archived_users(rest) + last);
        if all.contains(user_id) {
            let j = choose|j: int| 0 <= j < all.len() && all[j] == user_id;
            if j < archived_users(rest).len() {
                assert(archived_users(rest)[j] == user_id);
                let (i, k) = choose|i: int, k: int|
                    0 <= i < rest.len() && 0 <= k < rest[i].members.len() && (
                    #[trigger] rest[i].members[k]).user_id == user_id;
                assert(out[i].members[k].user_id == user_id);
            } else {
                let k = j - archived_users(rest).len();
                assert(last[k] == user_id);
                assert(out[out.len() - 1].members[k].user_id == user_id);
            }
        }
        if exists|i: int, k: int|
            0 <= i < out.len() && 0 <= k < out[i].members.len() && (
            #[trigger] out[i].members[k]).user_id == user_id {
            let (i, k) = choose|i: int, k: int|
                0 <= i < out.len() && 0 <= k < out[i].members.len() && (
                #[trigger] out[i].members[k]).user_id == user_id;
            if i < rest.len() {
                assert(rest[i].members[k].user_id == user_id);
                let j = choose|j: int|
                    0 <= j < archived_users(rest).len() && archived_users(rest)[j] == user_id;
                assert(all[j] == user_id);
            } else {
                assert(last[k] == user_id);
                assert(all[archived_users(rest).len() + k] == user_id);
            }
        }
    }
}

/// A reset leaves no group, no membership, no pointer and no invite, signs everyone out who was
/// archived, and leaves accounts, settings and logs.
pub proof fn reset_leaves_no_group(st: OrgState, users: Seq<Seq<char>>)
    ensures
        ({
            let after = reset(st, users);
            &&& after.tenants.len() == 0
            &&& after.members.len() == 0
            &&& after.active.len() == 0
            &&& after.invites.len() == 0
            &&& after.ended_sessions == st.ended_sessions + users
            &&& after.departments == st.departments
            &&& after.nodes == st.nodes
            &&& after.users == st.users
            &&& after.audit_log == st.audit_log
            &&& after.integrations == st.integrations
            &&& after.smtp == st.smtp
            &&& after.sso_identities == st.sso_identities
            &&& after.company_members == st.company_members
            &&& after.licenses == st.licenses
            &&& after.node_policies == st.node_policies
        }),
{
}

/// An archive is named after the enterprise, where it is of one, and the time.
pub proof fn archive_is_named_by_time(archive: ArchiveSnapshotView)
    ensures
        archive.enterprise_id matches Some(id) ==> archive_name(archive) == "enterprise-disband-"@
            + id + "-"@ + signed_decimal(archive.archived_at as int) + ".json"@,
        archive.enterprise_id is None ==> archive_name(archive) == "enterprise-"@ + signed_decimal(
            archive.archived_at as int,
        ) + ".json"@,
{
}

} // verus!
