//! What any number of requests to join with one invite do together. Requests that come at the same
//! time are served one after the other, in some order.
use crate::org::codes::normalized_code;
use crate::org::error::OrgErrorView;
use crate::org::invites::{
    after_join, claimable, claimed, invite_with_code, join_result, joins, profiled_member,
    JoinAttempt,
};
use crate::org::membership::{is_member, member_key, tenant_named};
use crate::org::models::{InviteRowView, TenantRowView, ROLE_MEMBER};
use crate::org::service::OrgState;
use crate::table::{first, lemma_first, lemma_first_prefix};
use vstd::prelude::*;

verus! {

/// The state after requests to join, one after the other.
pub open spec fn after_joins(st: OrgState, attempts: Seq<JoinAttempt>) -> OrgState
    decreases attempts.len(),
{
    if attempts.len() == 0 {
        st
    } else {
        after_join(after_joins(st, attempts.drop_last()), attempts.last())
    }
}

/// What the request at a position is answered.
pub open spec fn nth_result(st: OrgState, attempts: Seq<JoinAttempt>, k: int) -> Result<
    TenantRowView,
    OrgErrorView,
> {
    join_result(after_joins(st, attempts.take(k)), attempts[k])
}

/// How many requests succeed.
pub open spec fn successes(st: OrgState, attempts: Seq<JoinAttempt>) -> nat
    decreases attempts.len(),
{
    if attempts.len() == 0 {
        0
    } else {
        let rest = attempts.drop_last();
        successes(st, rest) + if join_result(after_joins(st, rest), attempts.last()) is Ok {
            1nat
        } else {
            0
        }
    }
}

/// The invite at a position is the one that its code stands for.
pub open spec fn code_names(invites: Seq<InviteRowView>, at: int) -> bool {
    forall|i: int| 0 <= i < at ==> (#[trigger] invites[i]).code != invites[at].code
}

/// Requests with the code of the invite at a position, by different people who are not in its
/// group.
pub open spec fn newcomers(st: OrgState, at: int, attempts: Seq<JoinAttempt>) -> bool {
    let invite = st.invites[at];
    &&& forall|k: int|
        0 <= k < attempts.len() ==> normalized_code((#[trigger] attempts[k]).code) == invite.code
            && !is_member(st, attempts[k].user_id, invite.tenant_id)
    &&& forall|i: int, j: int|
        0 <= i < attempts.len() && 0 <= j < attempts.len() && i != j ==> (
        #[trigger] attempts[i]).user_id != (#[trigger] attempts[j]).user_id
}

/// What requests to join with the invite at a position leave as it was, and what they change.
spec fn joined_so_far(
    st: OrgState,
    at: int,
    attempts: Seq<JoinAttempt>,
    cur: OrgState,
    ok: nat,
) -> bool {
    let invite = st.invites[at];
    &&& cur.invites.len() == st.invites.len()
    &&& forall|i: int|
        0 <= i < st.invites.len() ==> (#[trigger] cur.invites[i]).id == st.invites[i].id
            && cur.invites[i].code == st.invites[i].code
    &&& cur.invites[at] == (InviteRowView { use_count: (invite.use_count + ok) as i64, ..invite })
    &&& cur.tenants == st.tenants
    &&& cur.members.len() == st.members.len() + ok
    &&& forall|u: Seq<char>| #[trigger]
        is_member(cur, u, invite.tenant_id) ==> is_member(st, u, invite.tenant_id) || exists|k: int|
            0 <= k < attempts.len() && (#[trigger] attempts[k]).user_id == u
}

proof fn lemma_found_invite(st: OrgState, cur: OrgState, at: int, code: Seq<char>)
    requires
        0 <= at < st.invites.len(),
        code_names(st.invites, at),
        cur.invites.len() == st.invites.len(),
        forall|i: int|
            0 <= i < st.invites.len() ==> (#[trigger] cur.invites[i]).code == st.invites[i].code,
        code == st.invites[at].code,
    ensures
        first(cur.invites, invite_with_code(code)) == Some(cur.invites[at]),
{
    let p = invite_with_code(code);
    let earlier = cur.invites.take(at);
    lemma_first(earlier, p);
    assert forall|i: int| 0 <= i < earlier.len() implies !p(#[trigger] earlier[i]) by {
        assert(cur.invites[i].code == st.invites[i].code);
    }
    assert(p(cur.invites[at]));
    lemma_first_prefix(cur.invites, p, at);
}

proof fn lemma_join_step(
    st: OrgState,
    at: int,
    attempts: Seq<JoinAttempt>,
    m: i64,
    cur: OrgState,
    ok: nat,
)
    requires
        0 <= at < st.invites.len(),
        code_names(st.invites, at),
        st.invites[at].max_uses == Some(m),
        tenant_named(st, st.invites[at].tenant_id) is Some,
        newcomers(st, at, attempts),
        attempts.len() > 0,
        joined_so_far(st, at, attempts.drop_last(), cur, ok),
        st.invites[at].use_count + ok <= m,
    ensures
        ({
            let a = attempts.last();
            let now_ok: nat = if join_result(cur, a) is Ok {
                ok + 1
            } else {
                ok
            };
            &&& join_result(cur, a) is Err ==> join_result(cur, a)->Err_0
                == OrgErrorView::InvalidCode
            &&& join_result(cur, a) is Ok <==> cur.invites[at].active(a.now)
            &&& st.invites[at].use_count + now_ok <= m
            &&& joined_so_far(st, at, attempts, after_join(cur, a), now_ok)
        }),
{
    let a = attempts.last();
    let rest = attempts.drop_last();
    let invite = st.invites[at];
    let row = cur.invites[at];
    assert(a == attempts[attempts.len() - 1]);
    lemma_found_invite(st, cur, at, invite.code);
    assert(!is_member(cur, a.user_id, invite.tenant_id)) by {
        if is_member(cur, a.user_id, invite.tenant_id) {
            let k = choose|k: int| 0 <= k < rest.len() && (#[trigger] rest[k]).user_id == a.user_id;
            assert(rest[k] == attempts[k]);
        }
    }
    let after = after_join(cur, a);
    if row.active(a.now) {
        assert(joins(cur, a) == Some(row));
        assert(after.invites == claimed(cur.invites, row.id, a.now));
        assert forall|i: int| 0 <= i < st.invites.len() implies (#[trigger] after.invites[i]).id
            == st.invites[i].id && after.invites[i].code == st.invites[i].code by {
            assert(cur.invites[i].id == st.invites[i].id);
        }
        assert(claimable(row.id, a.now)(cur.invites[at]));
        let member = profiled_member(cur, a.user_id, row.tenant_id, ROLE_MEMBER@, a.now);
        assert(after.members == cur.members.push(member));
        assert forall|u: Seq<char>| #[trigger]
            is_member(after, u, invite.tenant_id) implies is_member(st, u, invite.tenant_id)
            || exists|k: int|
            0 <= k < attempts.len() && (#[trigger] attempts[k]).user_id == u by {
            let p = member_key(u, invite.tenant_id);
            let q = choose|q: int| 0 <= q < after.members.len() && p(#[trigger] after.members[q]);
            if q < cur.members.len() {
                assert(p(cur.members[q]));
                assert(is_member(cur, u, invite.tenant_id));
                if !is_member(st, u, invite.tenant_id) {
                    let k = choose|k: int| 0 <= k < rest.len() && (#[trigger] rest[k]).user_id == u;
                    assert(attempts[k].user_id == u);
                }
            } else {
                assert(attempts[attempts.len() - 1].user_id == u);
            }
        }
    } else {
        assert(after == cur);
        assert forall|u: Seq<char>| #[trigger]
            is_member(after, u, invite.tenant_id) implies is_member(st, u, invite.tenant_id)
            || exists|k: int|
            0 <= k < attempts.len() && (#[trigger] attempts[k]).user_id == u by {
            if !is_member(st, u, invite.tenant_id) {
                let k = choose|k: int| 0 <= k < rest.len() && (#[trigger] rest[k]).user_id == u;
                assert(attempts[k].user_id == u);
            }
        }
    }
}

proof fn lemma_joins(st: OrgState, at: int, attempts: Seq<JoinAttempt>, m: i64)
    requires
        0 <= at < st.invites.len(),
        code_names(st.invites, at),
        st.invites[at].max_uses == Some(m),
        st.invites[at].use_count <= m,
        tenant_named(st, st.invites[at].tenant_id) is Some,
        newcomers(st, at, attempts),
    ensures
        joined_so_far(st, at, attempts, after_joins(st, attempts), successes(st, attempts)),
        st.invites[at].use_count + successes(st, attempts) <= m,
        successes(st, attempts) <= attempts.len(),
        forall|k: int|
            0 <= k < attempts.len() && nth_result(st, attempts, k) is Err ==> (
            #[trigger] nth_result(st, attempts, k))->Err_0 == OrgErrorView::InvalidCode,
        (st.invites[at].revoked == 0 && (forall|k: int|
            0 <= k < attempts.len() ==> (st.invites[at].expires_at matches Some(end) ==> end >= (
            #[trigger] attempts[k]).now))) ==> successes(st, attempts) == if attempts.len() <= m
            - st.invites[at].use_count {
            attempts.len() as int
        } else {
            m - st.invites[at].use_count
        },
    decreases attempts.len(),
{
    if attempts.len() > 0 {
        let rest = attempts.drop_last();
        let invite = st.invites[at];
        assert(newcomers(st, at, rest)) by {
            assert(forall|k: int| 0 <= k < rest.len() ==> #[trigger] rest[k] == attempts[k]);
        }
        lemma_joins(st, at, rest, m);
        let cur = after_joins(st, rest);
        lemma_join_step(st, at, attempts, m, cur, successes(st, rest));
        assert forall|k: int| 0 <= k < attempts.len() && nth_result(st, attempts, k) is Err implies (
        #[trigger] nth_result(st, attempts, k))->Err_0 == OrgErrorView::InvalidCode by {
            if k < rest.len() {
                assert(rest.take(k) =~= attempts.take(k));
                assert(nth_result(st, rest, k) == nth_result(st, attempts, k));
            } else {
                assert(attempts.take(k) =~= rest);
            }
        }
        if invite.revoked == 0 && (forall|k: int|
            0 <= k < attempts.len() ==> (invite.expires_at matches Some(end) ==> end >= (
            #[trigger] attempts[k]).now)) {
            assert forall|k: int| 0 <= k < rest.len() implies (invite.expires_at matches Some(end)
                ==> end >= (#[trigger] rest[k]).now) by {
                assert(rest[k] == attempts[k]);
            }
            assert(invite.expires_at matches Some(end) ==> end >= attempts[attempts.len() - 1].now);
        }
    }
}

/// Any number of requests by newcomers with the code of a limited invite: each success counts as
/// one use and brings one membership, no more succeed than uses are left, and every other request
/// is answered that the code is invalid. Where the invite is neither withdrawn nor lapsed, exactly
/// as many succeed as there are uses left for.
pub proof fn joins_stay_within_limit(st: OrgState, at: int, attempts: Seq<JoinAttempt>, m: i64)
    requires
        0 <= at < st.invites.len(),
        code_names(st.invites, at),
        st.invites[at].max_uses == Some(m),
        st.invites[at].use_count <= m,
        tenant_named(st, st.invites[at].tenant_id) is Some,
        newcomers(st, at, attempts),
    ensures
        ({
            let used = st.invites[at].use_count;
            let ok = successes(st, attempts);
            let after = after_joins(st, attempts);
            &&& ok <= m - used
            &&& after.invites[at].use_count == used + ok
            &&& after.invites[at].use_count <= m
            &&& after.members.len() == st.members.len() + ok
            &&& (st.invites[at].revoked == 0 && (forall|k: int|
                0 <= k < attempts.len() ==> (st.invites[at].expires_at matches Some(end) ==> end
                    >= (#[trigger] attempts[k]).now))) ==> ok == if attempts.len() <= m - used {
                attempts.len() as int
            } else {
                m - used
            }
        }),
        forall|k: int|
            0 <= k < attempts.len() && nth_result(st, attempts, k) is Err ==> (
            #[trigger] nth_result(st, attempts, k))->Err_0 == OrgErrorView::InvalidCode,
{
    lemma_joins(st, at, attempts, m);
}

/// Of two newcomers with the code of an invite for one, exactly one joins.
pub proof fn one_of_two_joins(st: OrgState, at: int, attempts: Seq<JoinAttempt>)
    requires
        0 <= at < st.invites.len(),
        code_names(st.invites, at),
        st.invites[at].max_uses == Some(1i64),
        st.invites[at].use_count == 0,
        st.invites[at].revoked == 0,
        tenant_named(st, st.invites[at].tenant_id) is Some,
        newcomers(st, at, attempts),
        attempts.len() == 2,
        forall|k: int|
            0 <= k < 2 ==> (st.invites[at].expires_at matches Some(end) ==> end >= (
            #[trigger] attempts[k]).now),
    ensures
        successes(st, attempts) == 1,
        after_joins(st, attempts).members.len() == st.members.len() + 1,
{
    lemma_joins(st, at, attempts, 1);
}

} // verus!
