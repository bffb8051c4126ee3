//! What holds of the organization as a whole.
use crate::org::departures::{
    departed, leave_refusal, not_member_key, other_admin, other_member, remove_refusal,
    role_refusal, with_role, would_orphan,
};
use crate::org::invites::{claimed, joined, profiled_member};
use crate::org::membership::{
    active_of, active_tenant, is_member, lemma_newest_first_total, live_pointer, member_key,
    membership_in, newest_first, newest_membership, of_tenant, of_user, pointed, tenant_named,
    tenant_with_id,
};
use crate::org::models::{
    admin_role, enterprise_tenant, ActiveTenantRowView, InviteRowView, RuntimeNodeRowView,
    TenantRowView, UserOrgRowView, DEFAULT_TENANT_ID, ROLE_MEMBER,
};
use crate::org::nodes::{node_of_machine, refreshed, registered, HeartbeatView};
use crate::org::onboarding::{clean_domains, stored_domains};
use crate::org::service::OrgState;
use crate::org::tenants::{disbanded, owned_id};
use crate::table::{
    any, first, lemma_filter_contains, lemma_filter_from, lemma_first, lemma_first_map,
    lemma_first_push, lemma_least,
};
use vstd::prelude::*;

verus! {

/// The group that a person acts in is one that they belong to, or the default.
pub proof fn active_tenant_is_own(st: OrgState, user_id: Seq<char>)
    ensures
        active_tenant(st, user_id) == DEFAULT_TENANT_ID@ || is_member(
            st,
            user_id,
            active_tenant(st, user_id),
        ),
{
    lemma_first(st.active, live_pointer(st, user_id));
    if first(st.active, live_pointer(st, user_id)) is None {
        lemma_newest_first_total();
        lemma_least(st.members, of_user(user_id), newest_first());
        if let Some(m) = newest_membership(st, user_id) {
            let i = choose|i: int| 0 <= i < st.members.len() && st.members[i] == m;
            assert(member_key(user_id, m.tenant_id)(st.members[i]));
        }
    }
}

/// Once a person's pointer is set to a group that they belong to, they act in it.
pub proof fn pointing_makes_active(st: OrgState, user_id: Seq<char>, tenant_id: Seq<char>, now: i64)
    requires
        is_member(st, user_id, tenant_id),
    ensures
        active_tenant(
            OrgState { active: pointed(st.active, user_id, tenant_id, now), ..st },
            user_id,
        ) == tenant_id,
{
    let rows = pointed(st.active, user_id, tenant_id, now);
    let after = OrgState { active: rows, ..st };
    let p = live_pointer(after, user_id);
    assert forall|i: int| 0 <= i < rows.len() && (#[trigger] rows[i]).user_id
        == user_id implies rows[i].tenant_id == tenant_id by {
        if !any(st.active, active_of(user_id)) && i < st.active.len() {
            assert(active_of(user_id)(st.active[i]));
        }
    }
    assert(any(rows, p)) by {
        if any(st.active, active_of(user_id)) {
            let i = choose|i: int|
                0 <= i < st.active.len() && active_of(user_id)(#[trigger] st.active[i]);
            assert(rows[i].user_id == user_id);
            assert(p(rows[i]));
        } else {
            let i = st.active.len() as int;
            assert(rows[i].user_id == user_id);
            assert(p(rows[i]));
        }
    }
    lemma_first(rows, p);
    let v = first(rows, p)->0;
    let k = choose|k: int| 0 <= k < rows.len() && rows[k] == v;
    assert(rows[k].user_id == user_id);
}

/// Whoever joins with an invite belongs to its group from then on, and acts in it.
pub proof fn joining_makes_active(
    st: OrgState,
    user_id: Seq<char>,
    invite: InviteRowView,
    now: i64,
    audit_id: Seq<char>,
)
    ensures
        is_member(joined(st, user_id, invite, now, audit_id), user_id, invite.tenant_id),
        active_tenant(joined(st, user_id, invite, now, audit_id), user_id) == invite.tenant_id,
{
    let member = profiled_member(st, user_id, invite.tenant_id, ROLE_MEMBER@, now);
    let after = joined(st, user_id, invite, now, audit_id);
    let mid = OrgState { active: st.active, ..after };
    assert(member_key(user_id, invite.tenant_id)(after.members[st.members.len() as int]));
    assert(is_member(mid, user_id, invite.tenant_id));
    pointing_makes_active(mid, user_id, invite.tenant_id, now);
    assert(after == (OrgState {
        active: pointed(st.active, user_id, invite.tenant_id, now),
        ..mid
    }));
}

/// No invite was used more often than it may be.
pub open spec fn within_limits(invites: Seq<InviteRowView>) -> bool {
    forall|i: int|
        0 <= i < invites.len() ==> ((#[trigger] invites[i]).max_uses matches Some(n)
            ==> invites[i].use_count <= n)
}

/// However often codes are tried, no invite is used more often than it may be.
pub proof fn claiming_stays_within_limits(
    invites: Seq<InviteRowView>,
    invite_id: Seq<char>,
    now: i64,
)
    requires
        within_limits(invites),
    ensures
        within_limits(claimed(invites, invite_id, now)),
{
    let after = claimed(invites, invite_id, now);
    assert forall|i: int| 0 <= i < after.len() implies ((#[trigger] after[i]).max_uses matches Some(
        n,
    ) ==> after[i].use_count <= n) by {
        assert(invites[i].max_uses matches Some(n) ==> invites[i].use_count <= n);
    }
}

/// No one has two memberships in one group.
pub open spec fn unique_members(members: Seq<UserOrgRowView>) -> bool {
    forall|i: int, j: int|
        0 <= i < members.len() && 0 <= j < members.len() && i != j ==> (#[trigger] members[i]).user_id
            != (#[trigger] members[j]).user_id || members[i].tenant_id != members[j].tenant_id
}

pub open spec fn admin_of(tenant_id: Seq<char>) -> spec_fn(UserOrgRowView) -> bool {
    |r: UserOrgRowView| r.tenant_id == tenant_id && admin_role(r.role)
}

/// A group that has members and nobody to administer it.
pub open spec fn orphaned(members: Seq<UserOrgRowView>, tenant_id: Seq<char>) -> bool {
    any(members, of_tenant(tenant_id)) && !any(members, admin_of(tenant_id))
}

proof fn lemma_kept(
    members: Seq<UserOrgRowView>,
    user_id: Seq<char>,
    tenant_id: Seq<char>,
    p: spec_fn(UserOrgRowView) -> bool,
)
    ensures
        any(members.filter(not_member_key(user_id, tenant_id)), p) <==> any(
            members,
            |r: UserOrgRowView| p(r) && not_member_key(user_id, tenant_id)(r),
        ),
{
    broadcast use vstd::seq_lib::group_filter_ensures;

    let keep = not_member_key(user_id, tenant_id);
    let both = |r: UserOrgRowView| p(r) && not_member_key(user_id, tenant_id)(r);
    let kept = members.filter(keep);
    if any(kept, p) {
        let i = choose|i: int| 0 <= i < kept.len() && p(#[trigger] kept[i]);
        lemma_filter_from(members, keep, i);
        let j = choose|j: int| 0 <= j < members.len() && members[j] == kept[i];
        assert(keep(kept[i]));
        assert(both(members[j]));
    }
    if any(members, both) {
        let j = choose|j: int| 0 <= j < members.len() && both(#[trigger] members[j]);
        assert(kept.contains(members[j]));
        let i = choose|i: int| 0 <= i < kept.len() && kept[i] == members[j];
        assert(p(kept[i]));
    }
}

/// A departure that spares a group's last administrator never orphans any group.
pub proof fn departure_never_orphans(
    st: OrgState,
    user_id: Seq<char>,
    tenant_id: Seq<char>,
    now: i64,
    any_tenant: Seq<char>,
)
    requires
        unique_members(st.members),
        membership_in(st, user_id, tenant_id) matches Some(m) && (admin_role(m.role)
            ==> !would_orphan(st, tenant_id, user_id)),
        !orphaned(st.members, any_tenant),
    ensures
        !orphaned(departed(st, user_id, tenant_id, now).members, any_tenant),
{
    let members = st.members;
    let after = departed(st, user_id, tenant_id, now).members;
    lemma_kept(members, user_id, tenant_id, of_tenant(any_tenant));
    lemma_kept(members, user_id, tenant_id, admin_of(any_tenant));
    lemma_first(members, member_key(user_id, tenant_id));
    let m = membership_in(st, user_id, tenant_id)->0;
    let k = choose|k: int| 0 <= k < members.len() && members[k] == m;
    if orphaned(after, any_tenant) {
        let i = choose|i: int|
            0 <= i < members.len() && (of_tenant(any_tenant)(#[trigger] members[i])
                && not_member_key(user_id, tenant_id)(members[i]));
        assert(of_tenant(any_tenant)(members[i]));
        let j = choose|j: int| 0 <= j < members.len() && admin_of(any_tenant)(#[trigger] members[j]);
        let both = |r: UserOrgRowView|
            admin_of(any_tenant)(r) && not_member_key(user_id, tenant_id)(r);
        if not_member_key(user_id, tenant_id)(members[j]) {
            assert(both(members[j]));
        }
        assert(j == k);
        assert(any_tenant == tenant_id);
        assert(other_member(tenant_id, user_id)(members[i]));
        let q = choose|q: int|
            0 <= q < members.len() && other_admin(tenant_id, user_id)(#[trigger] members[q]);
        assert(both(members[q]));
    }
}

/// A person who leaves is let go only where no group is orphaned by it.
pub proof fn leaving_never_orphans(
    st: OrgState,
    user_id: Seq<char>,
    target: Seq<char>,
    exit_code_matches: bool,
    now: i64,
    any_tenant: Seq<char>,
)
    requires
        unique_members(st.members),
        leave_refusal(st, user_id, target, exit_code_matches) is None,
        !orphaned(st.members, any_tenant),
    ensures
        !orphaned(departed(st, user_id, target, now).members, any_tenant),
{
    departure_never_orphans(st, user_id, target, now, any_tenant);
}

/// A member is removed only where no group is orphaned by it.
pub proof fn removing_never_orphans(
    st: OrgState,
    tenant_id: Seq<char>,
    actor: Seq<char>,
    target: Seq<char>,
    now: i64,
    any_tenant: Seq<char>,
)
    requires
        unique_members(st.members),
        remove_refusal(st, tenant_id, actor, target) is None,
        !orphaned(st.members, any_tenant),
    ensures
        !orphaned(departed(st, target, tenant_id, now).members, any_tenant),
{
    departure_never_orphans(st, target, tenant_id, now, any_tenant);
}

/// In a group of several members a role is changed only where no group is orphaned by it.
pub proof fn role_change_never_orphans(
    st: OrgState,
    tenant_id: Seq<char>,
    target: Seq<char>,
    role: Seq<char>,
    now: i64,
    any_tenant: Seq<char>,
)
    requires
        unique_members(st.members),
        role_refusal(st, tenant_id, target, role) is None,
        any(st.members, other_member(tenant_id, target)),
        !orphaned(st.members, any_tenant),
    ensures
        !orphaned(with_role(st.members, tenant_id, target, role, now), any_tenant),
{
    let members = st.members;
    let after = with_role(members, tenant_id, target, role, now);
    lemma_first(members, member_key(target, tenant_id));
    let m = membership_in(st, target, tenant_id)->0;
    let k = choose|k: int| 0 <= k < members.len() && members[k] == m;
    if orphaned(after, any_tenant) {
        let i = choose|i: int| 0 <= i < after.len() && of_tenant(any_tenant)(#[trigger] after[i]);
        assert(of_tenant(any_tenant)(members[i]));
        let j = choose|j: int| 0 <= j < members.len() && admin_of(any_tenant)(#[trigger] members[j]);
        if j != k {
            assert(after[j] == members[j]);
            assert(admin_of(any_tenant)(after[j]));
        }
        assert(after[k].role == role);
        assert(any_tenant == tenant_id);
        if admin_role(role) {
            assert(admin_of(any_tenant)(after[k]));
        }
        let o = choose|o: int|
            0 <= o < members.len() && other_member(tenant_id, target)(#[trigger] members[o]);
        let q = choose|q: int|
            0 <= q < members.len() && other_admin(tenant_id, target)(#[trigger] members[q]);
        assert(after[q] == members[q]);
        assert(admin_of(any_tenant)(after[q]));
    }
}

/// Whoever left a project group is not in it and does not act in it.
pub proof fn departed_is_gone(st: OrgState, user_id: Seq<char>, tenant_id: Seq<char>, now: i64)
    requires
        enterprise_tenant(tenant_id),
    ensures
        !is_member(departed(st, user_id, tenant_id, now), user_id, tenant_id),
        active_tenant(departed(st, user_id, tenant_id, now), user_id) != tenant_id,
{
    let after = departed(st, user_id, tenant_id, now);
    lemma_kept(st.members, user_id, tenant_id, member_key(user_id, tenant_id));
    active_tenant_is_own(after, user_id);
}

/// Disbanding a company's groups deletes what is in them and nothing else.
pub proof fn disbanding_is_exact(st: OrgState, enterprise_id: Seq<char>)
    ensures
        ({
            let after = disbanded(st, enterprise_id);
            &&& forall|r| #[trigger]
                after.tenants.contains(r) <==> st.tenants.contains(r) && !owned_id(
                    st,
                    enterprise_id,
                    r.id,
                )
            &&& forall|r| #[trigger]
                after.members.contains(r) <==> st.members.contains(r) && !owned_id(
                    st,
                    enterprise_id,
                    r.tenant_id,
                )
            &&& forall|r| #[trigger]
                after.active.contains(r) <==> st.active.contains(r) && !owned_id(
                    st,
                    enterprise_id,
                    r.tenant_id,
                )
            &&& forall|r| #[trigger]
                after.invites.contains(r) <==> st.invites.contains(r) && !owned_id(
                    st,
                    enterprise_id,
                    r.tenant_id,
                )
            &&& forall|r| #[trigger]
                after.departments.contains(r) <==> st.departments.contains(r) && !owned_id(
                    st,
                    enterprise_id,
                    r.tenant_id,
                )
            &&& forall|r| #[trigger]
                after.nodes.contains(r) <==> st.nodes.contains(r) && !owned_id(
                    st,
                    enterprise_id,
                    r.tenant_id,
                )
            &&& forall|r| #[trigger]
                after.audit_log.contains(r) <==> st.audit_log.contains(r) && !owned_id(
                    st,
                    enterprise_id,
                    r.tenant_id,
                )
            &&& forall|r| #[trigger]
                after.integrations.contains(r) <==> st.integrations.contains(r) && !owned_id(
                    st,
                    enterprise_id,
                    r.tenant_id,
                )
            &&& after.users == st.users && after.smtp == st.smtp
        }),
{
    let after = disbanded(st, enterprise_id);
    assert forall|r| #[trigger] after.tenants.contains(r) <==> st.tenants.contains(r) && !owned_id(
        st,
        enterprise_id,
        r.id,
    ) by {
        lemma_filter_contains(
            st.tenants,
            |r: TenantRowView| !owned_id(st, enterprise_id, r.id),
            r,
        );
    }
    assert forall|r| #[trigger] after.members.contains(r) <==> st.members.contains(r) && !owned_id(
        st,
        enterprise_id,
        r.tenant_id,
    ) by {
        lemma_filter_contains(
            st.members,
            |r: UserOrgRowView| !owned_id(st, enterprise_id, r.tenant_id),
            r,
        );
    }
    assert forall|r| #[trigger] after.active.contains(r) <==> st.active.contains(r) && !owned_id(
        st,
        enterprise_id,
        r.tenant_id,
    ) by {
        lemma_filter_contains(
            st.active,
            |r: ActiveTenantRowView| !owned_id(st, enterprise_id, r.tenant_id),
            r,
        );
    }
    assert forall|r| #[trigger] after.invites.contains(r) <==> st.invites.contains(r) && !owned_id(
        st,
        enterprise_id,
        r.tenant_id,
    ) by {
        lemma_filter_contains(
            st.invites,
            |r: InviteRowView| !owned_id(st, enterprise_id, r.tenant_id),
            r,
        );
    }
    assert forall|r| #[trigger]
        after.departments.contains(r) <==> st.departments.contains(r) && !owned_id(
        st,
        enterprise_id,
        r.tenant_id,
    ) by {
        lemma_filter_contains(
            st.departments,
            |r: crate::org::models::DepartmentRowView| !owned_id(st, enterprise_id, r.tenant_id),
            r,
        );
    }
    assert forall|r| #[trigger] after.nodes.contains(r) <==> st.nodes.contains(r) && !owned_id(
        st,
        enterprise_id,
        r.tenant_id,
    ) by {
        lemma_filter_contains(
            st.nodes,
            |r: crate::org::models::RuntimeNodeRowView| !owned_id(st, enterprise_id, r.tenant_id),
            r,
        );
    }
    assert forall|r| #[trigger]
        after.audit_log.contains(r) <==> st.audit_log.contains(r) && !owned_id(
        st,
        enterprise_id,
        r.tenant_id,
    ) by {
        lemma_filter_contains(
            st.audit_log,
            |r: crate::org::models::AuditLogRowView| !owned_id(st, enterprise_id, r.tenant_id),
            r,
        );
    }
    assert forall|r| #[trigger]
        after.integrations.contains(r) <==> st.integrations.contains(r) && !owned_id(
        st,
        enterprise_id,
        r.tenant_id,
    ) by {
        lemma_filter_contains(
            st.integrations,
            |r: crate::org::models::IntegrationRowView| !owned_id(st, enterprise_id, r.tenant_id),
            r,
        );
    }
}

/// The domains that a group admits are the ones that were set last.
pub proof fn allowed_domains_read_back(
    st: OrgState,
    tenant_id: Seq<char>,
    stored: Option<Seq<char>>,
    domains: Seq<Seq<char>>,
)
    requires
        any(st.tenants, tenant_with_id(tenant_id)),
        stored_domains(stored) == clean_domains(domains),
    ensures
        ({
            let after = OrgState {
                tenants: st.tenants.map_values(
                    |t: TenantRowView|
                        if t.id == tenant_id {
                            TenantRowView { allowed_email_domains: stored, ..t }
                        } else {
                            t
                        },
                ),
                ..st
            };
            tenant_named(after, tenant_id) matches Some(t) && stored_domains(
                t.allowed_email_domains,
            ) == clean_domains(domains)
        }),
{
    let g = |t: TenantRowView|
        if t.id == tenant_id {
            TenantRowView { allowed_email_domains: stored, ..t }
        } else {
            t
        };
    lemma_first_map(st.tenants, tenant_with_id(tenant_id), g);
    lemma_first(st.tenants, tenant_with_id(tenant_id));
}

/// A report from a known machine neither adds a machine nor changes any machine's identity, status
/// or visibility: a blocked one stays blocked and a pending one pending.
pub proof fn heartbeat_keeps_standing(
    nodes: Seq<RuntimeNodeRowView>,
    tenant_id: Seq<char>,
    beat: HeartbeatView,
    now: i64,
)
    ensures
        refreshed(nodes, tenant_id, beat, now).len() == nodes.len(),
        forall|i: int|
            0 <= i < nodes.len() ==> {
                let after = #[trigger] refreshed(nodes, tenant_id, beat, now)[i];
                &&& after.id == nodes[i].id
                &&& after.machine_id == nodes[i].machine_id
                &&& after.status == nodes[i].status
                &&& after.visibility == nodes[i].visibility
            },
{
}

/// A machine that registered is known from then on, whatever it reports: it is registered, and put
/// up for review, once.
pub proof fn registration_is_once(
    st: OrgState,
    id: Seq<char>,
    tenant_id: Seq<char>,
    beat: HeartbeatView,
    now: i64,
    later: i64,
)
    ensures
        ({
            let after = registered(st, id, tenant_id, beat, now).nodes;
            let known = node_of_machine(tenant_id, beat.machine_id);
            first(after, known) is Some && first(
                refreshed(after, tenant_id, beat, later),
                known,
            ) is Some
        }),
{
    let after = registered(st, id, tenant_id, beat, now).nodes;
    let known = node_of_machine(tenant_id, beat.machine_id);
    lemma_first_push(st.nodes, after.last(), known);
    assert(after =~= st.nodes.push(after.last()));
    let g = |r: RuntimeNodeRowView|
        if known(r) {
            RuntimeNodeRowView {
                user_id: beat.user_id,
                display_name: beat.display_name,
                hostnames: beat.hostnames,
                ip_addresses: beat.ip_addresses,
                installed_agents: beat.installed_agents,
                last_seen_at: later,
                updated_at: later,
                ..r
            }
        } else {
            r
        };
    assert(refreshed(after, tenant_id, beat, later) =~= after.map_values(g));
    lemma_first_map(after, known, g);
}

} // verus!
