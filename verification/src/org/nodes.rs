//! The machines on a project group's roster.
use crate::ids::{is_short_id, short_id};
use crate::json::{json_normal, normalize_json};
use crate::org::error::{forbidden, OrgError, OrgErrorView};
use crate::org::models::{
    HeartbeatOutcome, HeartbeatOutcomeView, NodeReviewRequest, NodeReviewRequestView,
    RuntimeNodeDto, RuntimeNodeDtoView, RuntimeNodeRow, RuntimeNodeRowView, RuntimePolicyRow,
    RuntimePolicyRowView,
};
use crate::org::service::{OrgService, OrgState};
use crate::table::{
    answer, any, any_where, done, find_where, first, keep_where, list_where, lists, map_rows, views,
};
use crate::text::{cat3, same};
use vstd::prelude::*;

verus! {

pub open spec fn node_of_machine(tenant_id: Seq<char>, machine_id: Seq<char>) -> spec_fn(
    RuntimeNodeRowView,
) -> bool {
    |r: RuntimeNodeRowView| r.tenant_id == tenant_id && r.machine_id == machine_id
}

pub open spec fn node_key(tenant_id: Seq<char>, node_id: Seq<char>) -> spec_fn(
    RuntimeNodeRowView,
) -> bool {
    |r: RuntimeNodeRowView| r.tenant_id == tenant_id && r.id == node_id
}

pub open spec fn not_node_key(tenant_id: Seq<char>, node_id: Seq<char>) -> spec_fn(
    RuntimeNodeRowView,
) -> bool {
    |r: RuntimeNodeRowView| !(r.tenant_id == tenant_id && r.id == node_id)
}

pub open spec fn nodes_of(tenant_id: Seq<char>) -> spec_fn(RuntimeNodeRowView) -> bool {
    |r: RuntimeNodeRowView| r.tenant_id == tenant_id
}

/// A machine that a member sees: their own, or a shared one.
pub open spec fn node_seen_by(tenant_id: Seq<char>, user_id: Seq<char>) -> spec_fn(
    RuntimeNodeRowView,
) -> bool {
    |r: RuntimeNodeRowView|
        r.tenant_id == tenant_id && (r.user_id == user_id || r.visibility == "shared"@)
}

pub open spec fn last_seen_node_first() -> spec_fn(RuntimeNodeRowView, RuntimeNodeRowView) -> bool {
    |a: RuntimeNodeRowView, b: RuntimeNodeRowView| a.last_seen_at >= b.last_seen_at
}

pub open spec fn policy_of(tenant_id: Seq<char>) -> spec_fn(RuntimePolicyRowView) -> bool {
    |r: RuntimePolicyRowView| r.tenant_id == tenant_id
}

/// Whether a machine seen for the first time waits for approval; by default it does not.
pub open spec fn needs_approval(st: OrgState, tenant_id: Seq<char>) -> bool {
    match first(st.node_policies, policy_of(tenant_id)) {
        Some(p) => p.require_approval != 0,
        None => false,
    }
}

/// A stored list as shown: its compact JSON form, or an empty list where it is no JSON.
pub open spec fn shown_list(text: Seq<char>) -> Seq<char> {
    match json_normal(text) {
        Some(t) => t,
        None => "[]"@,
    }
}

pub open spec fn node_dto(r: RuntimeNodeRowView) -> RuntimeNodeDtoView {
    RuntimeNodeDtoView {
        id: r.id,
        tenant_id: r.tenant_id,
        user_id: r.user_id,
        machine_id: r.machine_id,
        display_name: r.display_name,
        hostnames: shown_list(r.hostnames),
        ip_addresses: shown_list(r.ip_addresses),
        installed_agents: shown_list(r.installed_agents),
        last_seen_at: r.last_seen_at,
        updated_at: r.updated_at,
        status: r.status,
        visibility: r.visibility,
    }
}

/// What a machine reports of itself. The three lists are JSON text.
pub struct Heartbeat {
    pub user_id: String,
    pub machine_id: String,
    pub display_name: String,
    pub hostnames: String,
    pub ip_addresses: String,
    pub installed_agents: String,
}

/// [`Heartbeat`] as plain values.
pub struct HeartbeatView {
    pub user_id: Seq<char>,
    pub machine_id: Seq<char>,
    pub display_name: Seq<char>,
    pub hostnames: Seq<char>,
    pub ip_addresses: Seq<char>,
    pub installed_agents: Seq<char>,
}

impl View for Heartbeat {
    type V = HeartbeatView;

    open spec fn view(&self) -> HeartbeatView {
        HeartbeatView {
            user_id: self.user_id@,
            machine_id: self.machine_id@,
            display_name: self.display_name@,
            hostnames: self.hostnames@,
            ip_addresses: self.ip_addresses@,
            installed_agents: self.installed_agents@,
        }
    }
}

/// The roster with a known machine's report taken in. Its status and visibility stay.
pub open spec fn refreshed(
    nodes: Seq<RuntimeNodeRowView>,
    tenant_id: Seq<char>,
    beat: HeartbeatView,
    now: i64,
) -> Seq<RuntimeNodeRowView> {
    nodes.map_values(
        |r: RuntimeNodeRowView|
            if node_of_machine(tenant_id, beat.machine_id)(r) {
                RuntimeNodeRowView {
                    user_id: beat.user_id,
                    display_name: beat.display_name,
                    hostnames: beat.hostnames,
                    ip_addresses: beat.ip_addresses,
                    installed_agents: beat.installed_agents,
                    last_seen_at: now,
                    updated_at: now,
                    ..r
                }
            } else {
                r
            },
    )
}

/// A machine seen for the first time.
pub open spec fn new_node(
    id: Seq<char>,
    tenant_id: Seq<char>,
    beat: HeartbeatView,
    status: Seq<char>,
    now: i64,
) -> RuntimeNodeRowView {
    RuntimeNodeRowView {
        id,
        tenant_id,
        user_id: beat.user_id,
        machine_id: beat.machine_id,
        display_name: beat.display_name,
        hostnames: beat.hostnames,
        ip_addresses: beat.ip_addresses,
        installed_agents: beat.installed_agents,
        last_seen_at: now,
        updated_at: now,
        status,
        visibility: "private"@,
    }
}

pub open spec fn first_status(approval: bool) -> Seq<char> {
    if approval {
        "pending"@
    } else {
        "approved"@
    }
}

/// The state after a machine was registered, with a review asked for where it needs approval.
pub open spec fn registered(
    st: OrgState,
    id: Seq<char>,
    tenant_id: Seq<char>,
    beat: HeartbeatView,
    now: i64,
) -> OrgState {
    let approval = needs_approval(st, tenant_id);
    OrgState {
        nodes: st.nodes.push(new_node(id, tenant_id, beat, first_status(approval), now)),
        node_reviews: if approval {
            st.node_reviews.push(
                NodeReviewRequestView {
                    tenant_id,
                    node_id: id,
                    machine_id: beat.machine_id,
                    display_name: beat.display_name,
                    user_id: beat.user_id,
                },
            )
        } else {
            st.node_reviews
        },
        ..st
    }
}

/// The roster with one machine's status set.
pub open spec fn with_status(
    nodes: Seq<RuntimeNodeRowView>,
    tenant_id: Seq<char>,
    node_id: Seq<char>,
    status: Seq<char>,
    now: i64,
) -> Seq<RuntimeNodeRowView> {
    nodes.map_values(
        |r: RuntimeNodeRowView|
            if node_key(tenant_id, node_id)(r) {
                RuntimeNodeRowView { status, updated_at: now, ..r }
            } else {
                r
            },
    )
}

/// The roster with the visibility of the machine of that identifier set.
pub open spec fn with_visibility(
    nodes: Seq<RuntimeNodeRowView>,
    node_id: Seq<char>,
    visibility: Seq<char>,
    now: i64,
) -> Seq<RuntimeNodeRowView> {
    nodes.map_values(
        |r: RuntimeNodeRowView|
            if r.id == node_id {
                RuntimeNodeRowView { visibility, updated_at: now, ..r }
            } else {
                r
            },
    )
}

/// The policies with one group's set.
pub open spec fn with_policy(
    policies: Seq<RuntimePolicyRowView>,
    tenant_id: Seq<char>,
    require_approval: i64,
    now: i64,
) -> Seq<RuntimePolicyRowView> {
    if any(policies, policy_of(tenant_id)) {
        policies.map_values(
            |r: RuntimePolicyRowView|
                if r.tenant_id == tenant_id {
                    RuntimePolicyRowView { require_approval, updated_at: now, ..r }
                } else {
                    r
                },
        )
    } else {
        policies.push(RuntimePolicyRowView { tenant_id, require_approval, updated_at: now })
    }
}

/// What a machine's report does and how it is answered. A machine seen for the first time is
/// registered under the given identifier; a blocked one is refused, though its report is taken in.
pub open spec fn heartbeat_taken(
    before: OrgState,
    after: OrgState,
    id: Seq<char>,
    tenant_id: Seq<char>,
    beat: HeartbeatView,
    now: i64,
    r: Result<HeartbeatOutcomeView, OrgErrorView>,
) -> bool {
    match first(before.nodes, node_of_machine(tenant_id, beat.machine_id)) {
        Some(node) => {
            &&& after == (OrgState {
                nodes: refreshed(before.nodes, tenant_id, beat, now),
                ..before
            })
            &&& r == if node.status == "blocked"@ {
                Err(
                    OrgErrorView::Forbidden(
                        "this machine has been blocked by an administrator"@,
                    ),
                )
            } else {
                Ok(
                    HeartbeatOutcomeView {
                        node_id: node.id,
                        status: node.status,
                        created: false,
                        pending: false,
                    },
                )
            }
        },
        None => {
            let approval = needs_approval(before, tenant_id);
            &&& after == registered(before, id, tenant_id, beat, now)
            &&& r == Ok::<HeartbeatOutcomeView, OrgErrorView>(
                HeartbeatOutcomeView {
                    node_id: id,
                    status: first_status(approval),
                    created: true,
                    pending: approval,
                },
            )
        },
    }
}

/// What setting a machine's status does and how it is answered.
pub open spec fn status_set(
    before: OrgState,
    after: OrgState,
    tenant_id: Seq<char>,
    node_id: Seq<char>,
    status: Seq<char>,
    now: i64,
    r: Result<(), OrgErrorView>,
) -> bool {
    if status != "approved"@ && status != "blocked"@ {
        &&& after == before
        &&& r == Err::<(), OrgErrorView>(
            OrgErrorView::BadRequest(
                "node status must be 'approved' or 'blocked', got '"@ + status + "'"@,
            ),
        )
    } else if !any(before.nodes, node_key(tenant_id, node_id)) {
        &&& after == before
        &&& r == Err::<(), OrgErrorView>(OrgErrorView::RuntimeNodeNotFound)
    } else {
        &&& r is Ok
        &&& after == (OrgState {
            nodes: with_status(before.nodes, tenant_id, node_id, status, now),
            ..before
        })
    }
}

/// What setting a machine's visibility does and how it is answered.
pub open spec fn visibility_set(
    before: OrgState,
    after: OrgState,
    tenant_id: Seq<char>,
    node_id: Seq<char>,
    user_id: Seq<char>,
    is_admin: bool,
    visibility: Seq<char>,
    now: i64,
    r: Result<(), OrgErrorView>,
) -> bool {
    if visibility != "private"@ && visibility != "shared"@ {
        &&& after == before
        &&& r == Err::<(), OrgErrorView>(
            OrgErrorView::BadRequest(
                "node visibility must be 'private' or 'shared', got '"@ + visibility + "'"@,
            ),
        )
    } else {
        match first(before.nodes, node_key(tenant_id, node_id)) {
            None => {
                &&& after == before
                &&& r == Err::<(), OrgErrorView>(OrgErrorView::RuntimeNodeNotFound)
            },
            Some(node) => if !is_admin && node.user_id != user_id {
                &&& after == before
                &&& r == Err::<(), OrgErrorView>(
                    OrgErrorView::Forbidden(
                        "only the node's owner or an administrator can change its visibility"@,
                    ),
                )
            } else {
                &&& r is Ok
                &&& after == (OrgState {
                    nodes: with_visibility(before.nodes, node_id, visibility, now),
                    ..before
                })
            },
        }
    }
}

/// What taking a machine off the roster does and how it is answered.
pub open spec fn node_deleted(
    before: OrgState,
    after: OrgState,
    tenant_id: Seq<char>,
    node_id: Seq<char>,
    r: Result<(), OrgErrorView>,
) -> bool {
    if any(before.nodes, node_key(tenant_id, node_id)) {
        &&& r is Ok
        &&& after == (OrgState {
            nodes: before.nodes.filter(not_node_key(tenant_id, node_id)),
            ..before
        })
    } else {
        &&& r == Err::<(), OrgErrorView>(OrgErrorView::RuntimeNodeNotFound)
        &&& after == before
    }
}

/// What setting a group's approval policy does.
pub open spec fn policy_set(
    before: OrgState,
    after: OrgState,
    tenant_id: Seq<char>,
    require_approval: bool,
    now: i64,
) -> bool {
    after == (OrgState {
        node_policies: with_policy(
            before.node_policies,
            tenant_id,
            if require_approval {
                1
            } else {
                0
            },
            now,
        ),
        ..before
    })
}

/// The machines of a group as listed, the last seen first.
pub open spec fn roster_shown(
    st: OrgState,
    tenant_id: Seq<char>,
    out: Seq<RuntimeNodeDtoView>,
) -> bool {
    lists(
        out,
        st.nodes,
        nodes_of(tenant_id),
        last_seen_node_first(),
        |r: RuntimeNodeRowView| node_dto(r),
    )
}

/// The machines that a member sees as listed, the last seen first.
pub open spec fn my_roster_shown(
    st: OrgState,
    tenant_id: Seq<char>,
    user_id: Seq<char>,
    out: Seq<RuntimeNodeDtoView>,
) -> bool {
    lists(
        out,
        st.nodes,
        node_seen_by(tenant_id, user_id),
        last_seen_node_first(),
        |r: RuntimeNodeRowView| node_dto(r),
    )
}

fn show_list(text: &str) -> (r: String)
    ensures
        r@ == shown_list(text@),
{
    match normalize_json(text) {
        Some(t) => t,
        None => "[]".to_owned(),
    }
}

impl RuntimeNodeDto {
    pub fn of(r: &RuntimeNodeRow) -> (d: Self)
        ensures
            d@ == node_dto(r@),
    {
        RuntimeNodeDto {
            id: r.id.clone(),
            tenant_id: r.tenant_id.clone(),
            user_id: r.user_id.clone(),
            machine_id: r.machine_id.clone(),
            display_name: r.display_name.clone(),
            hostnames: show_list(r.hostnames.as_str()),
            ip_addresses: show_list(r.ip_addresses.as_str()),
            installed_agents: show_list(r.installed_agents.as_str()),
            last_seen_at: r.last_seen_at,
            updated_at: r.updated_at,
            status: r.status.clone(),
            visibility: r.visibility.clone(),
        }
    }
}

impl OrgService {
    fn machine_at(&self, tenant_id: &str, machine_id: &str) -> (r: Option<usize>)
        ensures
            match r {
                Some(i) => i < self.nodes.len() && first(
                    self@.nodes,
                    node_of_machine(tenant_id@, machine_id@),
                ) == Some(self.nodes@[i as int]@),
                None => first(self@.nodes, node_of_machine(tenant_id@, machine_id@)) is None,
            },
    {
        let f = |r: &RuntimeNodeRow| -> (b: bool)
            ensures
                b == node_of_machine(tenant_id@, machine_id@)(r@),
            { same(r.tenant_id.as_str(), tenant_id) && same(r.machine_id.as_str(), machine_id) };
        find_where(&self.nodes, f, Ghost(node_of_machine(tenant_id@, machine_id@)))
    }

    fn node_at(&self, tenant_id: &str, node_id: &str) -> (r: Option<usize>)
        ensures
            match r {
                Some(i) => i < self.nodes.len() && first(
                    self@.nodes,
                    node_key(tenant_id@, node_id@),
                ) == Some(self.nodes@[i as int]@),
                None => first(self@.nodes, node_key(tenant_id@, node_id@)) is None,
            },
            r is Some <==> any(self@.nodes, node_key(tenant_id@, node_id@)),
    {
        let f = |r: &RuntimeNodeRow| -> (b: bool)
            ensures
                b == node_key(tenant_id@, node_id@)(r@),
            { same(r.tenant_id.as_str(), tenant_id) && same(r.id.as_str(), node_id) };
        find_where(&self.nodes, f, Ghost(node_key(tenant_id@, node_id@)))
    }

    /// Takes in a machine's report under the given identifier for a machine seen for the first
    /// time. A blocked machine's report is taken in and answered with a refusal.
    pub fn take_heartbeat(&mut self, id: String, tenant_id: &str, beat: &Heartbeat, now: i64) -> (r:
        Result<HeartbeatOutcome, OrgError>)
        ensures
            heartbeat_taken(old(self)@, final(self)@, id@, tenant_id@, beat@, now, answer(r)),
    {
        let known = self.machine_at(tenant_id, beat.machine_id.as_str());
        if let Some(at) = known {
            let ghost p = node_of_machine(tenant_id@, beat@.machine_id);
            let ghost g = |r: RuntimeNodeRowView|
                if p(r) {
                    RuntimeNodeRowView {
                        user_id: beat@.user_id,
                        display_name: beat@.display_name,
                        hostnames: beat@.hostnames,
                        ip_addresses: beat@.ip_addresses,
                        installed_agents: beat@.installed_agents,
                        last_seen_at: now,
                        updated_at: now,
                        ..r
                    }
                } else {
                    r
                };
            let u = |r: &RuntimeNodeRow| -> (y: RuntimeNodeRow)
                ensures
                    y@ == g(r@),
                {
                    let mut y = r.copy();
                    if same(r.tenant_id.as_str(), tenant_id) && same(
                        r.machine_id.as_str(),
                        beat.machine_id.as_str(),
                    ) {
                        y.user_id = beat.user_id.clone();
                        y.display_name = beat.display_name.clone();
                        y.hostnames = beat.hostnames.clone();
                        y.ip_addresses = beat.ip_addresses.clone();
                        y.installed_agents = beat.installed_agents.clone();
                        y.last_seen_at = now;
                        y.updated_at = now;
                    }
                    y
                };
            let node_id = self.nodes[at].id.clone();
            let status = self.nodes[at].status.clone();
            map_rows(&mut self.nodes, u, Ghost(g));
            proof {
                assert(self@.nodes =~= refreshed(old(self)@.nodes, tenant_id@, beat@, now));
            }
            if same(status.as_str(), "blocked") {
                return Err(forbidden("this machine has been blocked by an administrator"));
            }
            return Ok(HeartbeatOutcome { node_id, status, created: false, pending: false });
        }
        let approval = self.get_runtime_node_policy(tenant_id);
        let status: String = if approval {
            "pending".to_owned()
        } else {
            "approved".to_owned()
        };
        let ghost before = self@;
        let row = RuntimeNodeRow {
            id: id.clone(),
            tenant_id: tenant_id.to_owned(),
            user_id: beat.user_id.clone(),
            machine_id: beat.machine_id.clone(),
            display_name: beat.display_name.clone(),
            hostnames: beat.hostnames.clone(),
            ip_addresses: beat.ip_addresses.clone(),
            installed_agents: beat.installed_agents.clone(),
            last_seen_at: now,
            updated_at: now,
            status: status.clone(),
            visibility: "private".to_owned(),
        };
        self.nodes.push(row);
        proof {
            assert(self@.nodes =~= before.nodes.push(row@));
        }
        if approval {
            let review = NodeReviewRequest {
                tenant_id: tenant_id.to_owned(),
                node_id: id.clone(),
                machine_id: beat.machine_id.clone(),
                display_name: beat.display_name.clone(),
                user_id: beat.user_id.clone(),
            };
            self.node_reviews.push(review);
            proof {
                assert(self@.node_reviews =~= before.node_reviews.push(review@));
            }
        }
        Ok(HeartbeatOutcome { node_id: id, status, created: true, pending: approval })
    }

    /// Takes in a machine's report. A machine seen for the first time gets a fresh identifier.
    pub fn heartbeat_runtime_node(
        &mut self,
        tenant_id: &str,
        user_id: &str,
        machine_id: &str,
        display_name: &str,
        hostnames: &str,
        ip_addresses: &str,
        installed_agents: &str,
        now: i64,
    ) -> (r: Result<HeartbeatOutcome, OrgError>)
        ensures
            ({
                let beat = HeartbeatView {
                    user_id: user_id@,
                    machine_id: machine_id@,
                    display_name: display_name@,
                    hostnames: hostnames@,
                    ip_addresses: ip_addresses@,
                    installed_agents: installed_agents@,
                };
                exists|id: Seq<char>|
                    is_short_id("node"@, id) && #[trigger] heartbeat_taken(
                        old(self)@,
                        final(self)@,
                        id,
                        tenant_id@,
                        beat,
                        now,
                        answer(r),
                    )
            }),
    {
        let id = short_id("node");
        let beat = Heartbeat {
            user_id: user_id.to_owned(),
            machine_id: machine_id.to_owned(),
            display_name: display_name.to_owned(),
            hostnames: hostnames.to_owned(),
            ip_addresses: ip_addresses.to_owned(),
            installed_agents: installed_agents.to_owned(),
        };
        let ghost drawn = id@;
        let ghost before = self@;
        let r = self.take_heartbeat(id, tenant_id, &beat, now);
        proof {
            assert(heartbeat_taken(before, self@, drawn, tenant_id@, beat@, now, answer(r)));
        }
        r
    }

    /// Whether machines that a group sees for the first time wait for approval.
    pub fn get_runtime_node_policy(&self, tenant_id: &str) -> (r: bool)
        ensures
            r == needs_approval(self@, tenant_id@),
    {
        let f = |r: &RuntimePolicyRow| -> (b: bool)
            ensures
                b == policy_of(tenant_id@)(r@),
            { same(r.tenant_id.as_str(), tenant_id) };
        match find_where(&self.node_policies, f, Ghost(policy_of(tenant_id@))) {
            Some(i) => self.node_policies[i].require_approval != 0,
            None => false,
        }
    }

    /// Sets whether machines that a group sees for the first time wait for approval. Machines
    /// that are on the roster keep their status.
    pub fn set_runtime_node_policy(&mut self, tenant_id: &str, require_approval: bool, now: i64)
        ensures
            policy_set(old(self)@, final(self)@, tenant_id@, require_approval, now),
    {
        let flag: i64 = if require_approval {
            1
        } else {
            0
        };
        let f = |r: &RuntimePolicyRow| -> (b: bool)
            ensures
                b == policy_of(tenant_id@)(r@),
            { same(r.tenant_id.as_str(), tenant_id) };
        if any_where(&self.node_policies, f, Ghost(policy_of(tenant_id@))) {
            let ghost g = |r: RuntimePolicyRowView|
                if r.tenant_id == tenant_id@ {
                    RuntimePolicyRowView { require_approval: flag, updated_at: now, ..r }
                } else {
                    r
                };
            let u = |r: &RuntimePolicyRow| -> (y: RuntimePolicyRow)
                ensures
                    y@ == g(r@),
                {
                    let mut y = r.copy();
                    if same(r.tenant_id.as_str(), tenant_id) {
                        y.require_approval = flag;
                        y.updated_at = now;
                    }
                    y
                };
            map_rows(&mut self.node_policies, u, Ghost(g));
        } else {
            let ghost before = self@.node_policies;
            let row = RuntimePolicyRow {
                tenant_id: tenant_id.to_owned(),
                require_approval: flag,
                updated_at: now,
            };
            self.node_policies.push(row);
            proof {
                assert(self@.node_policies =~= before.push(row@));
            }
        }
    }

    /// Approves or blocks a machine.
    pub fn set_runtime_node_status(
        &mut self,
        tenant_id: &str,
        node_id: &str,
        status: &str,
        now: i64,
    ) -> (r: Result<(), OrgError>)
        ensures
            status_set(
                old(self)@,
                final(self)@,
                tenant_id@,
                node_id@,
                status@,
                now,
                done(r),
            ),
    {
        if !same(status, "approved") && !same(status, "blocked") {
            return Err(
                OrgError::BadRequest(
                    cat3("node status must be 'approved' or 'blocked', got '", status, "'"),
                ),
            );
        }
        if self.node_at(tenant_id, node_id).is_none() {
            return Err(OrgError::RuntimeNodeNotFound);
        }
        let ghost g = |r: RuntimeNodeRowView|
            if node_key(tenant_id@, node_id@)(r) {
                RuntimeNodeRowView { status: status@, updated_at: now, ..r }
            } else {
                r
            };
        let u = |r: &RuntimeNodeRow| -> (y: RuntimeNodeRow)
            ensures
                y@ == g(r@),
            {
                let mut y = r.copy();
                if same(r.tenant_id.as_str(), tenant_id) && same(r.id.as_str(), node_id) {
                    y.status = status.to_owned();
                    y.updated_at = now;
                }
                y
            };
        map_rows(&mut self.nodes, u, Ghost(g));
        Ok(())
    }

    /// Makes a machine private or shared. Its owner may, and an administrator for any machine.
    pub fn set_runtime_node_visibility(
        &mut self,
        tenant_id: &str,
        node_id: &str,
        user_id: &str,
        is_admin: bool,
        visibility: &str,
        now: i64,
    ) -> (r: Result<(), OrgError>)
        ensures
            visibility_set(
                old(self)@,
                final(self)@,
                tenant_id@,
                node_id@,
                user_id@,
                is_admin,
                visibility@,
                now,
                done(r),
            ),
    {
        if !same(visibility, "private") && !same(visibility, "shared") {
            return Err(
                OrgError::BadRequest(
                    cat3("node visibility must be 'private' or 'shared', got '", visibility, "'"),
                ),
            );
        }
        let at: usize = match self.node_at(tenant_id, node_id) {
            Some(i) => i,
            None => {
                return Err(OrgError::RuntimeNodeNotFound);
            },
        };
        if !is_admin && !same(self.nodes[at].user_id.as_str(), user_id) {
            return Err(
                forbidden("only the node's owner or an administrator can change its visibility"),
            );
        }
        let ghost g = |r: RuntimeNodeRowView|
            if r.id == node_id@ {
                RuntimeNodeRowView { visibility: visibility@, updated_at: now, ..r }
            } else {
                r
            };
        let u = |r: &RuntimeNodeRow| -> (y: RuntimeNodeRow)
            ensures
                y@ == g(r@),
            {
                let mut y = r.copy();
                if same(r.id.as_str(), node_id) {
                    y.visibility = visibility.to_owned();
                    y.updated_at = now;
                }
                y
            };
        map_rows(&mut self.nodes, u, Ghost(g));
        Ok(())
    }

    fn list_nodes<F: Fn(&RuntimeNodeRow) -> bool>(
        &self,
        f: F,
        Ghost(p): Ghost<spec_fn(RuntimeNodeRowView) -> bool>,
    ) -> (out: Vec<RuntimeNodeDto>)
        requires
            forall|x: &RuntimeNodeRow| #[trigger] f.requires((x,)),
            forall|x: &RuntimeNodeRow, b: bool| #[trigger] f.ensures((x,), b) ==> b == p(x@),
        ensures
            lists(
                views(out@),
                self@.nodes,
                p,
                last_seen_node_first(),
                |r: RuntimeNodeRowView| node_dto(r),
            ),
    {
        let l = |a: &RuntimeNodeRow, b: &RuntimeNodeRow| -> (c: bool)
            ensures
                c == last_seen_node_first()(a@, b@),
            { a.last_seen_at >= b.last_seen_at };
        let mk = |r: &RuntimeNodeRow| -> (d: RuntimeNodeDto)
            ensures
                d@ == node_dto(r@),
            { RuntimeNodeDto::of(r) };
        list_where(
            &self.nodes,
            f,
            l,
            mk,
            Ghost(p),
            Ghost(last_seen_node_first()),
            Ghost(|r: RuntimeNodeRowView| node_dto(r)),
        )
    }

    /// Every machine of a group, the last seen first.
    pub fn list_runtime_nodes(&self, tenant_id: &str) -> (out: Vec<RuntimeNodeDto>)
        ensures
            roster_shown(self@, tenant_id@, views(out@)),
    {
        let f = |r: &RuntimeNodeRow| -> (b: bool)
            ensures
                b == nodes_of(tenant_id@)(r@),
            { same(r.tenant_id.as_str(), tenant_id) };
        self.list_nodes(f, Ghost(nodes_of(tenant_id@)))
    }

    /// The machines that a member sees, the last seen first.
    pub fn list_my_runtime_nodes(&self, tenant_id: &str, user_id: &str) -> (out: Vec<
        RuntimeNodeDto,
    >)
        ensures
            my_roster_shown(self@, tenant_id@, user_id@, views(out@)),
    {
        let f = |r: &RuntimeNodeRow| -> (b: bool)
            ensures
                b == node_seen_by(tenant_id@, user_id@)(r@),
            {
                same(r.tenant_id.as_str(), tenant_id) && (same(r.user_id.as_str(), user_id)
                    || same(r.visibility.as_str(), "shared"))
            };
        self.list_nodes(f, Ghost(node_seen_by(tenant_id@, user_id@)))
    }

    /// Takes a machine off a group's roster.
    pub fn delete_runtime_node(&mut self, tenant_id: &str, node_id: &str) -> (r: Result<
        (),
        OrgError,
    >)
        ensures
            node_deleted(old(self)@, final(self)@, tenant_id@, node_id@, done(r)),
    {
        if self.node_at(tenant_id, node_id).is_none() {
            return Err(OrgError::RuntimeNodeNotFound);
        }
        let k = |r: &RuntimeNodeRow| -> (b: bool)
            ensures
                b == not_node_key(tenant_id@, node_id@)(r@),
            { !(same(r.tenant_id.as_str(), tenant_id) && same(r.id.as_str(), node_id)) };
        keep_where(&mut self.nodes, k, Ghost(not_node_key(tenant_id@, node_id@)));
        Ok(())
    }
}

} // verus!
