//! What the roster of machines shows after what happened to it.
use crate::json::json_normal;
use crate::org::error::OrgErrorView;
use crate::org::models::{
    HeartbeatOutcomeView, RuntimeNodeDtoView, RuntimeNodeRowView, RuntimePolicyRowView,
};
use crate::org::nodes::{
    heartbeat_taken, last_seen_node_first, my_roster_shown, needs_approval, node_deleted, node_dto,
    node_key, node_of_machine, node_seen_by, nodes_of, not_node_key, policy_of, policy_set,
    roster_shown, status_set, visibility_set, HeartbeatView,
};
use crate::org::service::OrgState;
use crate::table::{
    any, lemma_filter_from, lemma_first, lemma_first_map, lemma_first_push, lemma_found_at,
    listed_rows,
};
use vstd::prelude::*;

verus! {

/// A report from a machine that a group knows: the machine is shown with what it reported and as
/// seen at that time, its identity, status and visibility stay, and no other row changes. It is
/// answered with the machine's standing, and refused exactly where the machine is blocked.
pub proof fn known_machine_is_seen_now(
    before: OrgState,
    after: OrgState,
    id: Seq<char>,
    tenant_id: Seq<char>,
    beat: HeartbeatView,
    now: i64,
    r: Result<HeartbeatOutcomeView, OrgErrorView>,
    at: int,
)
    requires
        heartbeat_taken(before, after, id, tenant_id, beat, now, r),
        0 <= at < before.nodes.len(),
        before.nodes[at].tenant_id == tenant_id,
        before.nodes[at].machine_id == beat.machine_id,
        forall|i: int|
            0 <= i < at ==> !((#[trigger] before.nodes[i]).tenant_id == tenant_id
                && before.nodes[i].machine_id == beat.machine_id),
    ensures
        after.nodes.len() == before.nodes.len(),
        after.nodes[at].last_seen_at == now,
        after.nodes[at].updated_at == now,
        after.nodes[at].user_id == beat.user_id,
        after.nodes[at].display_name == beat.display_name,
        after.nodes[at].hostnames == beat.hostnames,
        after.nodes[at].ip_addresses == beat.ip_addresses,
        after.nodes[at].installed_agents == beat.installed_agents,
        after.nodes[at].id == before.nodes[at].id,
        after.nodes[at].tenant_id == tenant_id,
        after.nodes[at].machine_id == beat.machine_id,
        after.nodes[at].status == before.nodes[at].status,
        after.nodes[at].visibility == before.nodes[at].visibility,
        forall|i: int|
            0 <= i < before.nodes.len() && ((#[trigger] before.nodes[i]).tenant_id != tenant_id
                || before.nodes[i].machine_id != beat.machine_id) ==> after.nodes[i]
                == before.nodes[i],
        after == (OrgState { nodes: after.nodes, ..before }),
        r is Err <==> before.nodes[at].status == "blocked"@,
        r matches Err(e) ==> e == OrgErrorView::Forbidden(
            "this machine has been blocked by an administrator"@,
        ),
        r matches Ok(v) ==> v.node_id == before.nodes[at].id && v.status == before.nodes[at].status
            && !v.created && !v.pending,
{
    let p = node_of_machine(tenant_id, beat.machine_id);
    assert(p(before.nodes[at]));
    lemma_first(before.nodes, p);
    lemma_found_at(before.nodes, p, at);
}

/// A report from a machine that a group does not know puts it on the roster once, private, as it
/// reported itself and seen at that time. It waits for approval, with a review asked for, exactly
/// where the group's policy wants that.
pub proof fn unknown_machine_is_registered(
    before: OrgState,
    after: OrgState,
    id: Seq<char>,
    tenant_id: Seq<char>,
    beat: HeartbeatView,
    now: i64,
    r: Result<HeartbeatOutcomeView, OrgErrorView>,
)
    requires
        heartbeat_taken(before, after, id, tenant_id, beat, now, r),
        forall|i: int|
            0 <= i < before.nodes.len() ==> !((#[trigger] before.nodes[i]).tenant_id == tenant_id
                && before.nodes[i].machine_id == beat.machine_id),
    ensures
        ({
            let n = before.nodes.len() as int;
            let row = after.nodes[n];
            let wait = needs_approval(before, tenant_id);
            &&& after.nodes.len() == n + 1
            &&& forall|i: int| 0 <= i < n ==> #[trigger] after.nodes[i] == before.nodes[i]
            &&& row.id == id
            &&& row.tenant_id == tenant_id
            &&& row.user_id == beat.user_id
            &&& row.machine_id == beat.machine_id
            &&& row.display_name == beat.display_name
            &&& row.hostnames == beat.hostnames
            &&& row.ip_addresses == beat.ip_addresses
            &&& row.installed_agents == beat.installed_agents
            &&& row.last_seen_at == now
            &&& row.updated_at == now
            &&& row.visibility == "private"@
            &&& row.status == if wait {
                "pending"@
            } else {
                "approved"@
            }
            &&& r matches Ok(v) && v.node_id == id && v.status == row.status && v.created
                && v.pending == wait
            &&& !wait ==> after.node_reviews == before.node_reviews
            &&& wait ==> after.node_reviews.len() == before.node_reviews.len() + 1
                && after.node_reviews.drop_last() =~= before.node_reviews && ({
                let asked = after.node_reviews.last();
                &&& asked.tenant_id == tenant_id
                &&& asked.node_id == id
                &&& asked.machine_id == beat.machine_id
                &&& asked.display_name == beat.display_name
                &&& asked.user_id == beat.user_id
            })
            &&& after == (OrgState {
                nodes: after.nodes,
                node_reviews: after.node_reviews,
                ..before
            })
        }),
{
    let p = node_of_machine(tenant_id, beat.machine_id);
    lemma_first(before.nodes, p);
}

/// After a group's approval policy was set it is what was set, and every other group's is as it was.
/// A group that never set one wants no approval.
pub proof fn policy_is_read_back(
    before: OrgState,
    after: OrgState,
    tenant_id: Seq<char>,
    require_approval: bool,
    now: i64,
    other: Seq<char>,
)
    requires
        policy_set(before, after, tenant_id, require_approval, now),
    ensures
        needs_approval(after, tenant_id) == require_approval,
        other != tenant_id ==> needs_approval(after, other) == needs_approval(before, other),
        (forall|i: int|
            0 <= i < before.node_policies.len() ==> (#[trigger] before.node_policies[i]).tenant_id
                != other) ==> !needs_approval(before, other),
        after == (OrgState { node_policies: after.node_policies, ..before }),
{
    let rows = before.node_policies;
    let flag: i64 = if require_approval {
        1
    } else {
        0
    };
    let g = |r: RuntimePolicyRowView|
        if r.tenant_id == tenant_id {
            RuntimePolicyRowView { require_approval: flag, updated_at: now, ..r }
        } else {
            r
        };
    lemma_first(rows, policy_of(tenant_id));
    lemma_first(rows, policy_of(other));
    lemma_first_map(rows, policy_of(tenant_id), g);
    lemma_first_map(rows, policy_of(other), g);
    if any(rows, policy_of(tenant_id)) {
        assert(after.node_policies =~= rows.map_values(g));
    } else {
        lemma_first_push(rows, after.node_policies.last(), policy_of(tenant_id));
        lemma_first_push(rows, after.node_policies.last(), policy_of(other));
        assert(after.node_policies =~= rows.push(after.node_policies.last()));
    }
    if forall|i: int| 0 <= i < rows.len() ==> (#[trigger] rows[i]).tenant_id != other {
        assert forall|i: int| 0 <= i < rows.len() implies !policy_of(other)(#[trigger] rows[i]) by {
        }
    }
}

/// Approving or blocking a machine of a group sets its status and nothing else; machines of other
/// groups and under other identifiers stay as they are. Only the two statuses can be set, and only
/// on a machine that is there.
pub proof fn status_is_set_on_one(
    before: OrgState,
    after: OrgState,
    tenant_id: Seq<char>,
    node_id: Seq<char>,
    status: Seq<char>,
    now: i64,
    r: Result<(), OrgErrorView>,
)
    requires
        status_set(before, after, tenant_id, node_id, status, now, r),
    ensures
        after.nodes.len() == before.nodes.len(),
        r is Ok <==> (status == "approved"@ || status == "blocked"@) && exists|i: int|
            0 <= i < before.nodes.len() && (#[trigger] before.nodes[i]).tenant_id == tenant_id
                && before.nodes[i].id == node_id,
        r is Err ==> after == before,
        r is Ok ==> forall|i: int|
            0 <= i < before.nodes.len() && (#[trigger] before.nodes[i]).tenant_id == tenant_id
                && before.nodes[i].id == node_id ==> after.nodes[i] == (RuntimeNodeRowView {
                status,
                updated_at: now,
                ..before.nodes[i]
            }),
        forall|i: int|
            0 <= i < before.nodes.len() && !((#[trigger] before.nodes[i]).tenant_id == tenant_id
                && before.nodes[i].id == node_id) ==> after.nodes[i] == before.nodes[i],
        after == (OrgState { nodes: after.nodes, ..before }),
{
    if exists|i: int|
        0 <= i < before.nodes.len() && (#[trigger] before.nodes[i]).tenant_id == tenant_id
            && before.nodes[i].id == node_id {
        let i = choose|i: int|
            0 <= i < before.nodes.len() && (#[trigger] before.nodes[i]).tenant_id == tenant_id
                && before.nodes[i].id == node_id;
        assert(node_key(tenant_id, node_id)(before.nodes[i]));
    }
}

/// A machine is made private or shared by its owner or by an administrator and by nobody else, and
/// nothing but its visibility changes.
pub proof fn visibility_is_set_by_owner_or_admin(
    before: OrgState,
    after: OrgState,
    tenant_id: Seq<char>,
    node_id: Seq<char>,
    user_id: Seq<char>,
    is_admin: bool,
    visibility: Seq<char>,
    now: i64,
    r: Result<(), OrgErrorView>,
    at: int,
)
    requires
        visibility_set(
            before,
            after,
            tenant_id,
            node_id,
            user_id,
            is_admin,
            visibility,
            now,
            r,
        ),
        0 <= at < before.nodes.len(),
        before.nodes[at].tenant_id == tenant_id,
        before.nodes[at].id == node_id,
        forall|i: int|
            0 <= i < before.nodes.len() && (#[trigger] before.nodes[i]).id == node_id ==> i == at,
    ensures
        r is Ok <==> (visibility == "private"@ || visibility == "shared"@) && (is_admin
            || before.nodes[at].user_id == user_id),
        r is Err ==> after == before,
        r is Ok ==> after.nodes =~= before.nodes.update(
            at,
            RuntimeNodeRowView { visibility, updated_at: now, ..before.nodes[at] },
        ),
        after == (OrgState { nodes: after.nodes, ..before }),
{
    let p = node_key(tenant_id, node_id);
    assert(p(before.nodes[at]));
    assert forall|i: int| 0 <= i < at implies !p(#[trigger] before.nodes[i]) by {
    }
    lemma_found_at(before.nodes, p, at);
}

/// A machine that is not in the group cannot be made visible there.
pub proof fn visibility_needs_a_machine(
    before: OrgState,
    after: OrgState,
    tenant_id: Seq<char>,
    node_id: Seq<char>,
    user_id: Seq<char>,
    is_admin: bool,
    visibility: Seq<char>,
    now: i64,
    r: Result<(), OrgErrorView>,
)
    requires
        visibility_set(
            before,
            after,
            tenant_id,
            node_id,
            user_id,
            is_admin,
            visibility,
            now,
            r,
        ),
        forall|i: int|
            0 <= i < before.nodes.len() ==> !((#[trigger] before.nodes[i]).tenant_id == tenant_id
                && before.nodes[i].id == node_id),
    ensures
        r is Err && after == before,
{
    lemma_first(before.nodes, node_key(tenant_id, node_id));
}

/// Taking a machine off a group's roster takes that one and no other, and is refused where it is
/// not there.
pub proof fn deletion_takes_one(
    before: OrgState,
    after: OrgState,
    tenant_id: Seq<char>,
    node_id: Seq<char>,
    r: Result<(), OrgErrorView>,
    row: RuntimeNodeRowView,
)
    requires
        node_deleted(before, after, tenant_id, node_id, r),
    ensures
        after.nodes.contains(row) <==> before.nodes.contains(row) && !(row.tenant_id == tenant_id
            && row.id == node_id),
        r is Ok <==> exists|i: int|
            0 <= i < before.nodes.len() && (#[trigger] before.nodes[i]).tenant_id == tenant_id
                && before.nodes[i].id == node_id,
        after == (OrgState { nodes: after.nodes, ..before }),
{
    broadcast use vstd::seq_lib::group_filter_ensures;

    let keep = not_node_key(tenant_id, node_id);
    if exists|i: int|
        0 <= i < before.nodes.len() && (#[trigger] before.nodes[i]).tenant_id == tenant_id
            && before.nodes[i].id == node_id {
        let i = choose|i: int|
            0 <= i < before.nodes.len() && (#[trigger] before.nodes[i]).tenant_id == tenant_id
                && before.nodes[i].id == node_id;
        assert(node_key(tenant_id, node_id)(before.nodes[i]));
        if after.nodes.contains(row) {
            let k = choose|k: int| 0 <= k < after.nodes.len() && after.nodes[k] == row;
            lemma_filter_from(before.nodes, keep, k);
            assert(keep(after.nodes[k]));
        }
    } else if before.nodes.contains(row) {
        let k = choose|k: int| 0 <= k < before.nodes.len() && before.nodes[k] == row;
        assert(before.nodes[k] == row);
    }
}

/// The roster of a group shows each of its machines with what is known of it and none of another
/// group, the one seen last first.
pub proof fn roster_shows_the_group(
    st: OrgState,
    tenant_id: Seq<char>,
    out: Seq<RuntimeNodeDtoView>,
)
    requires
        roster_shown(st, tenant_id, out),
    ensures
        forall|i: int|
            0 <= i < st.nodes.len() && (#[trigger] st.nodes[i]).tenant_id == tenant_id ==> exists|
                k: int,
            |
                0 <= k < out.len() && {
                    let d = #[trigger] out[k];
                    let r = st.nodes[i];
                    &&& d.id == r.id
                    &&& d.tenant_id == r.tenant_id
                    &&& d.user_id == r.user_id
                    &&& d.machine_id == r.machine_id
                    &&& d.display_name == r.display_name
                    &&& d.last_seen_at == r.last_seen_at
                    &&& d.updated_at == r.updated_at
                    &&& d.status == r.status
                    &&& d.visibility == r.visibility
                },
        forall|k: int| 0 <= k < out.len() ==> (#[trigger] out[k]).tenant_id == tenant_id,
        out.len() == st.nodes.filter(|r: RuntimeNodeRowView| r.tenant_id == tenant_id).len(),
        forall|j: int, k: int|
            0 <= j < k < out.len() ==> (#[trigger] out[j]).last_seen_at >= (
            #[trigger] out[k]).last_seen_at,
{
    let p = nodes_of(tenant_id);
    let g = |r: RuntimeNodeRowView| node_dto(r);
    let shown = listed_rows(out, st.nodes, p, last_seen_node_first(), g);
    assert(p =~= (|r: RuntimeNodeRowView| r.tenant_id == tenant_id));
    assert forall|i: int| 0 <= i < st.nodes.len() && p(#[trigger] st.nodes[i]) implies exists|k: int|
        0 <= k < out.len() && #[trigger] out[k] == g(st.nodes[i]) by {
        assert(shown.contains(st.nodes[i]));
        let k = choose|k: int| 0 <= k < shown.len() && shown[k] == st.nodes[i];
        assert(out[k] == g(st.nodes[i]));
    }
    assert forall|j: int, k: int| 0 <= j < k < out.len() implies (#[trigger] out[j]).last_seen_at >= (
    #[trigger] out[k]).last_seen_at by {
        assert(last_seen_node_first()(shown[j], shown[k]));
    }
    assert forall|k: int| 0 <= k < out.len() implies (#[trigger] out[k]).tenant_id == tenant_id by {
        assert(p(shown[k]));
    }
    assert forall|i: int|
        0 <= i < st.nodes.len() && (#[trigger] st.nodes[i]).tenant_id == tenant_id implies exists|
        k: int,
    |
        0 <= k < out.len() && {
            let d = #[trigger] out[k];
            let r = st.nodes[i];
            &&& d.id == r.id
            &&& d.tenant_id == r.tenant_id
            &&& d.user_id == r.user_id
            &&& d.machine_id == r.machine_id
            &&& d.display_name == r.display_name
            &&& d.last_seen_at == r.last_seen_at
            &&& d.updated_at == r.updated_at
            &&& d.status == r.status
            &&& d.visibility == r.visibility
        } by {
        assert(p(st.nodes[i]));
        let k = choose|k: int| 0 <= k < out.len() && #[trigger] out[k] == g(st.nodes[i]);
        assert(out[k].id == st.nodes[i].id);
    }
}

/// A member sees their own machines and the shared ones of the group, and no other.
pub proof fn members_see_own_and_shared(
    st: OrgState,
    tenant_id: Seq<char>,
    user_id: Seq<char>,
    out: Seq<RuntimeNodeDtoView>,
)
    requires
        my_roster_shown(st, tenant_id, user_id, out),
    ensures
        forall|k: int|
            0 <= k < out.len() ==> (#[trigger] out[k]).tenant_id == tenant_id && (out[k].user_id
                == user_id || out[k].visibility == "shared"@),
        forall|i: int|
            0 <= i < st.nodes.len() && (#[trigger] st.nodes[i]).tenant_id == tenant_id && (
            st.nodes[i].user_id == user_id || st.nodes[i].visibility == "shared"@) ==> exists|k: int|
                0 <= k < out.len() && (#[trigger] out[k]).id == st.nodes[i].id
                    && out[k].machine_id == st.nodes[i].machine_id && out[k].last_seen_at
                    == st.nodes[i].last_seen_at && out[k].status == st.nodes[i].status,
        forall|j: int, k: int|
            0 <= j < k < out.len() ==> (#[trigger] out[j]).last_seen_at >= (
            #[trigger] out[k]).last_seen_at,
{
    let p = node_seen_by(tenant_id, user_id);
    let g = |r: RuntimeNodeRowView| node_dto(r);
    let shown = listed_rows(out, st.nodes, p, last_seen_node_first(), g);
    assert forall|i: int|
        0 <= i < st.nodes.len() && (#[trigger] st.nodes[i]).tenant_id == tenant_id && (
        st.nodes[i].user_id == user_id || st.nodes[i].visibility == "shared"@) implies exists|k: int|
        0 <= k < out.len() && (#[trigger] out[k]).id == st.nodes[i].id && out[k].machine_id
            == st.nodes[i].machine_id && out[k].last_seen_at == st.nodes[i].last_seen_at
            && out[k].status == st.nodes[i].status by {
        assert(p(st.nodes[i]));
        let k = choose|k: int| 0 <= k < shown.len() && shown[k] == st.nodes[i];
        assert(out[k] == g(shown[k]));
    }
    assert forall|k: int| 0 <= k < out.len() implies (#[trigger] out[k]).tenant_id == tenant_id && (
    out[k].user_id == user_id || out[k].visibility == "shared"@) by {
        assert(p(shown[k]));
    }
    assert forall|j: int, k: int| 0 <= j < k < out.len() implies (#[trigger] out[j]).last_seen_at >= (
    #[trigger] out[k]).last_seen_at by {
        assert(last_seen_node_first()(shown[j], shown[k]));
    }
}

/// What a machine reported is shown in compact form, and as an empty list where it is no JSON.
pub open spec fn shows_list(shown: Seq<char>, reported: Seq<char>) -> bool {
    match json_normal(reported) {
        Some(text) => shown == text,
        None => shown == "[]"@,
    }
}

/// After a report of a known machine, the group's roster shows it as seen at that time, with the
/// owner, name, hosts, addresses and agents that it reported.
pub proof fn report_shows_on_the_roster(
    before: OrgState,
    after: OrgState,
    id: Seq<char>,
    tenant_id: Seq<char>,
    beat: HeartbeatView,
    now: i64,
    r: Result<HeartbeatOutcomeView, OrgErrorView>,
    at: int,
    out: Seq<RuntimeNodeDtoView>,
) -> (k: int)
    requires
        heartbeat_taken(before, after, id, tenant_id, beat, now, r),
        roster_shown(after, tenant_id, out),
        0 <= at < before.nodes.len(),
        before.nodes[at].tenant_id == tenant_id,
        before.nodes[at].machine_id == beat.machine_id,
        forall|i: int|
            0 <= i < at ==> !((#[trigger] before.nodes[i]).tenant_id == tenant_id
                && before.nodes[i].machine_id == beat.machine_id),
    ensures
        0 <= k < out.len(),
        out[k].id == before.nodes[at].id,
        out[k].machine_id == beat.machine_id,
        out[k].last_seen_at == now,
        out[k].user_id == beat.user_id,
        out[k].display_name == beat.display_name,
        shows_list(out[k].hostnames, beat.hostnames),
        shows_list(out[k].ip_addresses, beat.ip_addresses),
        shows_list(out[k].installed_agents, beat.installed_agents),
        out[k].status == before.nodes[at].status,
        out[k].visibility == before.nodes[at].visibility,
{
    known_machine_is_seen_now(before, after, id, tenant_id, beat, now, r, at);
    let p = nodes_of(tenant_id);
    let g = |r: RuntimeNodeRowView| node_dto(r);
    let shown = listed_rows(out, after.nodes, p, last_seen_node_first(), g);
    assert(p(after.nodes[at]));
    let k = choose|k: int| 0 <= k < shown.len() && shown[k] == after.nodes[at];
    assert(out[k] == g(shown[k]));
    k
}

} // verus!
