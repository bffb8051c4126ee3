//! Who acts where and as what, and what joining and leaving change.
use crate::org::departures::{
    departed, exit_hash, leave_refusal, leave_target, not_active_of, not_member_key, other_admin,
    other_member, remove_refusal, role_refusal, seat_to_release, seat_under, with_exit_hash,
    with_role, would_orphan,
};
use crate::org::error::OrgErrorView;
use crate::org::invites::{
    joined, last_seen_first, profiled_member, sso_of, sso_profile,
};
use crate::org::membership::{
    active_of, active_tenant, is_member, lemma_newest_first_total, live_pointer, member_key,
    member_total, membership_in, newest_first, newest_membership, of_tenant, of_user, pointed,
    repointed, role_of, tenant_named, tenant_with_id,
};
use crate::org::models::{
    admin_role, enterprise_tenant, system_admin_role, ActiveTenantRowView, InviteRowView,
    TenantRowView, UserOrgRowView,
};
use crate::org::service::{user_with_id, username_of, OrgState};
use crate::table::{any, first, lemma_filter_contains, lemma_first, lemma_found_at, lemma_least};
use vstd::prelude::*;

verus! {

/// Which roles administer a group, which administers the system, and which groups are groups of
/// an enterprise.
pub proof fn roles_are_known_by_name(role: Seq<char>, tenant_id: Seq<char>)
    ensures
        admin_role(role) <==> role == "system_admin"@ || role == "org_admin"@ || role == "admin"@,
        system_admin_role(role) <==> role == "system_admin"@,
        enterprise_tenant(tenant_id) <==> tenant_id.len() > 0 && tenant_id != "default"@,
        !admin_role("member"@),
        !enterprise_tenant("default"@),
{
    reveal_strlit("member");
    reveal_strlit("admin");
    reveal_strlit("org_admin");
    reveal_strlit("system_admin");
    assert("member"@.len() == 6 && "admin"@.len() == 5 && "org_admin"@.len() == 9
        && "system_admin"@.len() == 12);
}

/// A person is a member of a group exactly where a membership says so.
pub proof fn membership_is_on_record(st: OrgState, user_id: Seq<char>, tenant_id: Seq<char>)
    ensures
        is_member(st, user_id, tenant_id) <==> exists|i: int|
            0 <= i < st.members.len() && (#[trigger] st.members[i]).user_id == user_id
                && st.members[i].tenant_id == tenant_id,
        membership_in(st, user_id, tenant_id) is Some <==> is_member(st, user_id, tenant_id),
        membership_in(st, user_id, tenant_id) matches Some(m) ==> st.members.contains(m)
            && m.user_id == user_id && m.tenant_id == tenant_id,
        member_total(st, tenant_id) == st.members.filter(
            |r: UserOrgRowView| r.tenant_id == tenant_id,
        ).len() as i64,
{
    let p = member_key(user_id, tenant_id);
    lemma_first(st.members, p);
    assert(of_tenant(tenant_id) =~= (|r: UserOrgRowView| r.tenant_id == tenant_id));
    if any(st.members, p) {
        let i = choose|i: int| 0 <= i < st.members.len() && p(#[trigger] st.members[i]);
        assert(st.members[i].user_id == user_id);
    } else {
        assert forall|i: int| 0 <= i < st.members.len() implies !((
        #[trigger] st.members[i]).user_id == user_id && st.members[i].tenant_id == tenant_id) by {
            if p(st.members[i]) {
                assert(any(st.members, p));
            }
        }
    }
}

/// A person acts in the group that their pointer names, where they are a member of it.
pub proof fn pointer_says_where_one_acts(st: OrgState, user_id: Seq<char>, at: int)
    requires
        0 <= at < st.active.len(),
        st.active[at].user_id == user_id,
        is_member(st, user_id, st.active[at].tenant_id),
        forall|i: int| 0 <= i < at ==> (#[trigger] st.active[i]).user_id != user_id,
    ensures
        active_tenant(st, user_id) == st.active[at].tenant_id,
{
    lemma_found_at(st.active, live_pointer(st, user_id), at);
}

/// A person whose pointer is missing or stale acts in the group that they joined last, and in the
/// default one where they belong to none.
pub proof fn newest_group_is_acted_in(st: OrgState, user_id: Seq<char>, at: int)
    requires
        forall|i: int|
            0 <= i < st.active.len() && (#[trigger] st.active[i]).user_id == user_id ==> !is_member(
                st,
                user_id,
                st.active[i].tenant_id,
            ),
    ensures
        0 <= at < st.members.len() && st.members[at].user_id == user_id && (forall|i: int|
            0 <= i < st.members.len() && i != at && (#[trigger] st.members[i]).user_id == user_id
                ==> st.members[i].created_at < st.members[at].created_at) ==> active_tenant(
            st,
            user_id,
        ) == st.members[at].tenant_id,
        (forall|i: int| 0 <= i < st.members.len() ==> (#[trigger] st.members[i]).user_id != user_id)
            ==> active_tenant(st, user_id) == "default"@,
{
    let p = of_user(user_id);
    lemma_first(st.active, live_pointer(st, user_id));
    if any(st.active, live_pointer(st, user_id)) {
        let i = choose|i: int|
            0 <= i < st.active.len() && live_pointer(st, user_id)(#[trigger] st.active[i]);
        assert(st.active[i].user_id == user_id);
        assert(false);
    }
    lemma_newest_first_total();
    lemma_least(st.members, p, newest_first());
    if 0 <= at < st.members.len() && st.members[at].user_id == user_id && (forall|i: int|
        0 <= i < st.members.len() && i != at && (#[trigger] st.members[i]).user_id == user_id
            ==> st.members[i].created_at < st.members[at].created_at) {
        assert(p(st.members[at]));
        let m = newest_membership(st, user_id)->0;
        let k = choose|k: int| 0 <= k < st.members.len() && st.members[k] == m;
        assert(st.members[k].user_id == user_id);
        assert(newest_first()(m, st.members[at]));
    }
}

/// A person has the role of their membership in the group they act in; without one they are a
/// member, but for the system's own person, who administers it.
pub proof fn role_is_that_of_the_membership(st: OrgState, user_id: Seq<char>, at: int)
    ensures
        0 <= at < st.members.len() && st.members[at].user_id == user_id && st.members[at].tenant_id
            == active_tenant(st, user_id) && (forall|i: int|
            0 <= i < at ==> !((#[trigger] st.members[i]).user_id == user_id
                && st.members[i].tenant_id == active_tenant(st, user_id))) ==> role_of(st, user_id)
            == st.members[at].role,
        (forall|i: int| 0 <= i < st.members.len() ==> (#[trigger] st.members[i]).user_id != user_id)
            ==> role_of(st, user_id) == if user_id == "system_default_user"@ {
            "system_admin"@
        } else {
            "member"@
        },
{
    let tenant_id = active_tenant(st, user_id);
    let p = member_key(user_id, tenant_id);
    if 0 <= at < st.members.len() && p(st.members[at]) && (forall|i: int|
        0 <= i < at ==> !((#[trigger] st.members[i]).user_id == user_id && st.members[i].tenant_id
            == active_tenant(st, user_id))) {
        lemma_found_at(st.members, p, at);
    }
    lemma_first(st.members, p);
}

/// Pointing a person at a group touches nobody else's pointer and gives them one.
pub proof fn pointing_is_personal(
    active: Seq<ActiveTenantRowView>,
    user_id: Seq<char>,
    tenant_id: Seq<char>,
    now: i64,
)
    ensures
        pointed(active, user_id, tenant_id, now).len() >= active.len(),
        forall|i: int|
            0 <= i < active.len() ==> #[trigger] pointed(active, user_id, tenant_id, now)[i] == if
                active[i].user_id == user_id {
                ActiveTenantRowView { user_id, tenant_id, updated_at: now }
            } else {
                active[i]
            },
        pointed(active, user_id, tenant_id, now).len() > active.len() ==> pointed(
            active,
            user_id,
            tenant_id,
            now,
        ) == active.push(ActiveTenantRowView { user_id, tenant_id, updated_at: now }),
        exists|i: int|
            0 <= i < pointed(active, user_id, tenant_id, now).len() && (
            #[trigger] pointed(active, user_id, tenant_id, now)[i]).user_id == user_id,
{
    let rows = pointed(active, user_id, tenant_id, now);
    if any(active, active_of(user_id)) {
        let i = choose|i: int| 0 <= i < active.len() && active_of(user_id)(#[trigger] active[i]);
        assert(rows[i].user_id == user_id);
    } else {
        assert(rows[active.len() as int].user_id == user_id);
        assert forall|i: int| 0 <= i < active.len() implies (#[trigger] rows[i]).user_id
            != user_id by {
            if active_of(user_id)(active[i]) {
                assert(any(active, active_of(user_id)));
            }
        }
    }
}

/// A departure takes the person's membership of the group and no other, ends their session and
/// leaves the pointers of everyone else.
pub proof fn departure_takes_one_membership(
    st: OrgState,
    user_id: Seq<char>,
    tenant_id: Seq<char>,
    now: i64,
    member: UserOrgRowView,
    pointer: ActiveTenantRowView,
)
    ensures
        ({
            let after = departed(st, user_id, tenant_id, now);
            &&& after.members.contains(member) <==> st.members.contains(member) && !(member.user_id
                == user_id && member.tenant_id == tenant_id)
            &&& pointer.user_id != user_id ==> (after.active.contains(pointer)
                <==> st.active.contains(pointer))
            &&& after.ended_sessions == st.ended_sessions.push(user_id)
            &&& after == (OrgState {
                members: after.members,
                active: after.active,
                ended_sessions: after.ended_sessions,
                ..st
            })
        }),
{
    let without = OrgState { members: st.members.filter(not_member_key(user_id, tenant_id)), ..st };
    let after = departed(st, user_id, tenant_id, now);
    lemma_filter_contains(st.members, not_member_key(user_id, tenant_id), member);
    if pointer.user_id != user_id {
        lemma_filter_contains(st.active, not_active_of(user_id), pointer);
        if newest_membership(without, user_id) is Some {
            let moved = repointed(
                st.active,
                user_id,
                newest_membership(without, user_id)->0.tenant_id,
                now,
            );
            if moved.contains(pointer) {
                let i = choose|i: int| 0 <= i < moved.len() && moved[i] == pointer;
                assert(st.active[i] == pointer);
            }
            if st.active.contains(pointer) {
                let i = choose|i: int| 0 <= i < st.active.len() && st.active[i] == pointer;
                assert(moved[i] == pointer);
            }
        }
    }
}

/// Who leaves the group that they act in acts from then on in the group that they joined last of
/// those they still belong to.
pub proof fn next_group_is_acted_in(
    st: OrgState,
    user_id: Seq<char>,
    tenant_id: Seq<char>,
    now: i64,
    pointer: int,
    at: int,
)
    requires
        0 <= pointer < st.active.len(),
        st.active[pointer].user_id == user_id,
        st.active[pointer].tenant_id == tenant_id,
        forall|i: int| 0 <= i < pointer ==> (#[trigger] st.active[i]).user_id != user_id,
        0 <= at < st.members.len(),
        st.members[at].user_id == user_id,
        st.members[at].tenant_id != tenant_id,
        forall|i: int|
            0 <= i < st.members.len() && i != at && (#[trigger] st.members[i]).user_id == user_id
                && st.members[i].tenant_id != tenant_id ==> st.members[i].created_at
                < st.members[at].created_at,
    ensures
        active_tenant(departed(st, user_id, tenant_id, now), user_id) == st.members[at].tenant_id,
{
    let keep = not_member_key(user_id, tenant_id);
    let without = OrgState { members: st.members.filter(keep), ..st };
    let after = departed(st, user_id, tenant_id, now);
    lemma_found_at(st.active, active_of(user_id), pointer);
    lemma_newest_first_total();
    lemma_least(without.members, of_user(user_id), newest_first());
    lemma_filter_contains(st.members, keep, st.members[at]);
    let j = choose|j: int|
        0 <= j < without.members.len() && without.members[j] == st.members[at];
    assert(of_user(user_id)(without.members[j]));
    let m = newest_membership(without, user_id)->0;
    lemma_filter_contains(st.members, keep, m);
    let k = choose|k: int| 0 <= k < st.members.len() && st.members[k] == m;
    assert(st.members[k].user_id == user_id && st.members[k].tenant_id != tenant_id);
    assert(newest_first()(m, st.members[at]));
    assert(m.tenant_id == st.members[at].tenant_id);
    assert(after.active == repointed(st.active, user_id, m.tenant_id, now));
    assert(member_key(user_id, m.tenant_id)(after.members[j]));
    assert(is_member(after, user_id, m.tenant_id));
    assert forall|i: int| 0 <= i < pointer implies (#[trigger] after.active[i]).user_id
        != user_id by {
        assert(st.active[i].user_id != user_id);
    }
    pointer_says_where_one_acts(after, user_id, pointer);
}

/// A group is left without an administrator exactly where nobody else in it administers it and
/// someone else is in it.
pub proof fn orphaning_is_known_by_the_others(
    st: OrgState,
    tenant_id: Seq<char>,
    user_id: Seq<char>,
)
    ensures
        would_orphan(st, tenant_id, user_id) <==> (forall|i: int|
            0 <= i < st.members.len() && (#[trigger] st.members[i]).tenant_id == tenant_id
                && st.members[i].user_id != user_id ==> !admin_role(st.members[i].role)) && (exists|
            i: int,
        |
            0 <= i < st.members.len() && (#[trigger] st.members[i]).tenant_id == tenant_id
                && st.members[i].user_id != user_id),
{
    let p = other_admin(tenant_id, user_id);
    let q = other_member(tenant_id, user_id);
    if any(st.members, p) {
        let i = choose|i: int| 0 <= i < st.members.len() && p(#[trigger] st.members[i]);
        assert(st.members[i].tenant_id == tenant_id);
    } else {
        assert forall|i: int|
            0 <= i < st.members.len() && (#[trigger] st.members[i]).tenant_id == tenant_id
                && st.members[i].user_id != user_id implies !admin_role(st.members[i].role) by {
            if p(st.members[i]) {
                assert(any(st.members, p));
            }
        }
    }
    if any(st.members, q) {
        let i = choose|i: int| 0 <= i < st.members.len() && q(#[trigger] st.members[i]);
        assert(st.members[i].tenant_id == tenant_id);
    } else {
        assert forall|i: int| 0 <= i < st.members.len() implies !((
        #[trigger] st.members[i]).tenant_id == tenant_id && st.members[i].user_id != user_id) by {
            if q(st.members[i]) {
                assert(any(st.members, q));
            }
        }
    }
}

/// A member may leave a group of an enterprise whose exit code, where it has one, they gave,
/// unless they are its last administrator and others are in it.
pub proof fn leaving_is_refused_only_so(
    st: OrgState,
    user_id: Seq<char>,
    target: Seq<char>,
    exit_code_matches: bool,
    at: int,
    group: int,
)
    requires
        0 <= group < st.tenants.len(),
        st.tenants[group].id == target,
        forall|i: int| 0 <= i < group ==> (#[trigger] st.tenants[i]).id != target,
    ensures
        (forall|i: int|
            0 <= i < st.members.len() ==> !((#[trigger] st.members[i]).user_id == user_id
                && st.members[i].tenant_id == target)) ==> leave_refusal(
            st,
            user_id,
            target,
            exit_code_matches,
        ) == Some(OrgErrorView::NotInEnterprise),
        0 <= at < st.members.len() && st.members[at].user_id == user_id && st.members[at].tenant_id
            == target && (forall|i: int|
            0 <= i < at ==> !((#[trigger] st.members[i]).user_id == user_id
                && st.members[i].tenant_id == target)) ==> leave_refusal(
            st,
            user_id,
            target,
            exit_code_matches,
        ) == if target.len() == 0 || target == "default"@ {
            Some(OrgErrorView::NotInEnterprise)
        } else if st.tenants[group].exit_password_hash is Some && !exit_code_matches {
            Some(OrgErrorView::WrongExitCode)
        } else if admin_role(st.members[at].role) && would_orphan(st, target, user_id) {
            Some(OrgErrorView::LastAdminCannotLeave)
        } else {
            None
        },
{
    let p = member_key(user_id, target);
    lemma_found_at(st.tenants, tenant_with_id(target), group);
    lemma_first(st.members, p);
    if 0 <= at < st.members.len() && p(st.members[at]) && (forall|i: int|
        0 <= i < at ==> !((#[trigger] st.members[i]).user_id == user_id && st.members[i].tenant_id
            == target)) {
        lemma_found_at(st.members, p, at);
    }
}

/// An administrator removes anyone but themselves, a system administrator only where they are one
/// too, and nobody whose going would leave the group without an administrator.
pub proof fn removal_is_refused_only_so(
    st: OrgState,
    tenant_id: Seq<char>,
    actor: Seq<char>,
    target: Seq<char>,
    at: int,
    own: int,
)
    requires
        0 <= at < st.members.len(),
        st.members[at].user_id == target,
        st.members[at].tenant_id == tenant_id,
        forall|i: int|
            0 <= i < at ==> !((#[trigger] st.members[i]).user_id == target
                && st.members[i].tenant_id == tenant_id),
        0 <= own < st.members.len(),
        st.members[own].user_id == actor,
        st.members[own].tenant_id == tenant_id,
        forall|i: int|
            0 <= i < own ==> !((#[trigger] st.members[i]).user_id == actor
                && st.members[i].tenant_id == tenant_id),
    ensures
        actor == target ==> remove_refusal(st, tenant_id, actor, target) is Some
            && remove_refusal(st, tenant_id, actor, target)->0 is BadRequest,
        actor != target && st.members[at].role == "system_admin"@ && st.members[own].role
            != "system_admin"@ ==> remove_refusal(st, tenant_id, actor, target) is Some
            && remove_refusal(st, tenant_id, actor, target)->0 is Forbidden,
        remove_refusal(st, tenant_id, actor, target) is None <==> actor != target && (
        st.members[at].role == "system_admin"@ ==> st.members[own].role == "system_admin"@) && !(
        admin_role(st.members[at].role) && would_orphan(st, tenant_id, target)),
{
    lemma_found_at(st.members, member_key(target, tenant_id), at);
    lemma_found_at(st.members, member_key(actor, tenant_id), own);
}

/// A member's role may change unless they administer the group, will not any more, and nobody
/// else would.
pub proof fn role_change_is_refused_only_so(
    st: OrgState,
    tenant_id: Seq<char>,
    target: Seq<char>,
    role: Seq<char>,
    at: int,
)
    ensures
        (forall|i: int|
            0 <= i < st.members.len() ==> !((#[trigger] st.members[i]).user_id == target
                && st.members[i].tenant_id == tenant_id)) ==> role_refusal(
            st,
            tenant_id,
            target,
            role,
        ) is Some,
        0 <= at < st.members.len() && st.members[at].user_id == target && st.members[at].tenant_id
            == tenant_id && (forall|i: int|
            0 <= i < at ==> !((#[trigger] st.members[i]).user_id == target
                && st.members[i].tenant_id == tenant_id)) ==> role_refusal(
            st,
            tenant_id,
            target,
            role,
        ) == if admin_role(st.members[at].role) && !admin_role(role) && would_orphan(
            st,
            tenant_id,
            target,
        ) {
            Some(OrgErrorView::LastAdminCannotLeave)
        } else {
            None
        },
{
    let p = member_key(target, tenant_id);
    lemma_first(st.members, p);
    if 0 <= at < st.members.len() && p(st.members[at]) && (forall|i: int|
        0 <= i < at ==> !((#[trigger] st.members[i]).user_id == target && st.members[i].tenant_id
            == tenant_id)) {
        lemma_found_at(st.members, p, at);
    }
}

/// Setting a role changes it for one person in one group, and nothing else of anyone.
pub proof fn role_is_set_for_one(
    members: Seq<UserOrgRowView>,
    tenant_id: Seq<char>,
    user_id: Seq<char>,
    role: Seq<char>,
    now: i64,
)
    ensures
        with_role(members, tenant_id, user_id, role, now).len() == members.len(),
        forall|i: int|
            0 <= i < members.len() ==> #[trigger] with_role(
                members,
                tenant_id,
                user_id,
                role,
                now,
            )[i] == if members[i].user_id == user_id && members[i].tenant_id == tenant_id {
                UserOrgRowView { role, updated_at: now, ..members[i] }
            } else {
                members[i]
            },
{
}

/// Setting or clearing an exit code changes it for one group, and nothing else of any.
pub proof fn exit_code_is_set_for_one(
    tenants: Seq<TenantRowView>,
    tenant_id: Seq<char>,
    hash: Option<Seq<char>>,
    now: i64,
)
    ensures
        with_exit_hash(tenants, tenant_id, hash, now).len() == tenants.len(),
        forall|i: int|
            0 <= i < tenants.len() ==> #[trigger] with_exit_hash(tenants, tenant_id, hash, now)[i]
                == if tenants[i].id == tenant_id {
                TenantRowView { exit_password_hash: hash, updated_at: now, ..tenants[i] }
            } else {
                tenants[i]
            },
{
}

/// Who leaves a group frees their seat in its enterprise exactly where they are in no group of
/// that enterprise any more.
pub proof fn seat_is_freed_by_the_last_group(
    st: OrgState,
    user_id: Seq<char>,
    left: Seq<char>,
    group: int,
    enterprise_id: Seq<char>,
)
    requires
        0 <= group < st.tenants.len(),
        st.tenants[group].id == left,
        forall|i: int| 0 <= i < group ==> (#[trigger] st.tenants[i]).id != left,
        st.tenants[group].enterprise_id == Some(enterprise_id),
    ensures
        seat_to_release(st, user_id, left) == Some(enterprise_id) || seat_to_release(
            st,
            user_id,
            left,
        ) is None,
        seat_to_release(st, user_id, left) is None <==> exists|i: int, t: int|
            0 <= i < st.members.len() && 0 <= t < st.tenants.len() && (
            #[trigger] st.members[i]).user_id == user_id && (#[trigger] st.tenants[t]).id
                == st.members[i].tenant_id && st.tenants[t].enterprise_id == Some(enterprise_id),
{
    lemma_found_at(st.tenants, tenant_with_id(left), group);
    let p = seat_under(st, user_id, enterprise_id);
    if any(st.members, p) {
        let i = choose|i: int| 0 <= i < st.members.len() && p(#[trigger] st.members[i]);
        let q = |t: TenantRowView|
            t.id == st.members[i].tenant_id && t.enterprise_id == Some(enterprise_id);
        let t = choose|t: int| 0 <= t < st.tenants.len() && q(#[trigger] st.tenants[t]);
        assert(st.members[i].user_id == user_id && st.tenants[t].id == st.members[i].tenant_id);
    } else {
        assert forall|i: int, t: int|
            0 <= i < st.members.len() && 0 <= t < st.tenants.len() && (
            #[trigger] st.members[i]).user_id == user_id && (#[trigger] st.tenants[t]).id
                == st.members[i].tenant_id implies st.tenants[t].enterprise_id != Some(
            enterprise_id,
        ) by {
            let q = |r: TenantRowView|
                r.id == st.members[i].tenant_id && r.enterprise_id == Some(enterprise_id);
            if q(st.tenants[t]) {
                assert(any(st.tenants, q));
                assert(p(st.members[i]));
            }
        }
    }
}

/// Joining adds one membership, as a member of the invite's group from now on, counts one use of
/// the invite, ends the person's session and is logged; every other invite is as before.
pub proof fn joining_adds_one_member(
    st: OrgState,
    user_id: Seq<char>,
    invite: InviteRowView,
    now: i64,
    audit_id: Seq<char>,
)
    ensures
        ({
            let after = joined(st, user_id, invite, now, audit_id);
            let member = after.members.last();
            let entry = after.audit_log.last();
            &&& after.members.len() == st.members.len() + 1
            &&& after.members.drop_last() == st.members
            &&& member.user_id == user_id
            &&& member.tenant_id == invite.tenant_id
            &&& member.role == "member"@
            &&& member.department_id is None
            &&& member.created_at == now && member.updated_at == now
            &&& after.invites.len() == st.invites.len()
            &&& forall|i: int|
                0 <= i < st.invites.len() ==> #[trigger] after.invites[i] == if st.invites[i].id
                    == invite.id && st.invites[i].active(now) {
                    InviteRowView {
                        use_count: (st.invites[i].use_count + 1) as i64,
                        ..st.invites[i]
                    }
                } else {
                    st.invites[i]
                }
            &&& after.ended_sessions == st.ended_sessions.push(user_id)
            &&& after.audit_log.drop_last() == st.audit_log
            &&& entry.tenant_id == invite.tenant_id
            &&& entry.user_id == Some(user_id)
            &&& entry.username == username_of(st, user_id)
            &&& entry.action == "org.join"@
            &&& entry.resource == Some(invite.id)
            &&& entry.created_at == now
            &&& after == (OrgState {
                members: after.members,
                invites: after.invites,
                active: after.active,
                ended_sessions: after.ended_sessions,
                audit_log: after.audit_log,
                ..st
            })
        }),
{
    let after = joined(st, user_id, invite, now, audit_id);
    assert(after.members.drop_last() =~= st.members);
    assert(after.audit_log.drop_last() =~= st.audit_log);
}

/// A new member brings the profile of the identity with which they signed in last.
pub proof fn profile_is_the_newest(
    st: OrgState,
    user_id: Seq<char>,
    tenant_id: Seq<char>,
    role: Seq<char>,
    now: i64,
    at: int,
)
    ensures
        ({
            let m = profiled_member(st, user_id, tenant_id, role, now);
            &&& m.user_id == user_id && m.tenant_id == tenant_id && m.role == role
            &&& m.department_id is None
            &&& m.created_at == now && m.updated_at == now
        }),
        0 <= at < st.sso_identities.len() && st.sso_identities[at].user_id == user_id && (forall|
            i: int,
        |
            0 <= i < st.sso_identities.len() && i != at && (
            #[trigger] st.sso_identities[i]).user_id == user_id
                ==> st.sso_identities[i].last_seen_at < st.sso_identities[at].last_seen_at) ==> {
            let m = profiled_member(st, user_id, tenant_id, role, now);
            &&& m.display_name == st.sso_identities[at].display_name
            &&& m.org_unit_path == st.sso_identities[at].org_unit_path
            &&& m.job_title == st.sso_identities[at].job_title
            &&& m.org_profile_source == Some(st.sso_identities[at].provider)
            &&& m.org_profile_synced_at == Some(now)
        },
        (forall|i: int|
            0 <= i < st.sso_identities.len() ==> (#[trigger] st.sso_identities[i]).user_id
                != user_id) ==> {
            let m = profiled_member(st, user_id, tenant_id, role, now);
            &&& m.display_name is None && m.org_unit_path is None && m.job_title is None
            &&& m.org_profile_source is None && m.org_profile_synced_at is None
        },
{
    let rows = st.sso_identities;
    lemma_least(rows, sso_of(user_id), last_seen_first());
    if 0 <= at < rows.len() && rows[at].user_id == user_id && (forall|i: int|
        0 <= i < rows.len() && i != at && (#[trigger] rows[i]).user_id == user_id
            ==> rows[i].last_seen_at < rows[at].last_seen_at) {
        assert(sso_of(user_id)(rows[at]));
        let p = sso_profile(st, user_id)->0;
        let k = choose|k: int| 0 <= k < rows.len() && rows[k] == p;
        assert(rows[k].user_id == user_id);
        assert(last_seen_first()(p, rows[at]));
    }
}

/// The name of a person is that of the first record of them.
pub proof fn username_is_on_record(st: OrgState, user_id: Seq<char>, at: int)
    requires
        0 <= at < st.users.len(),
        st.users[at].id == user_id,
        forall|i: int| 0 <= i < at ==> (#[trigger] st.users[i]).id != user_id,
    ensures
        username_of(st, user_id) == st.users[at].username,
{
    lemma_found_at(st.users, user_with_id(user_id), at);
}

/// A group is found under its identifier.
pub proof fn group_is_on_record(st: OrgState, tenant_id: Seq<char>, at: int)
    requires
        0 <= at < st.tenants.len(),
        st.tenants[at].id == tenant_id,
        forall|i: int| 0 <= i < at ==> (#[trigger] st.tenants[i]).id != tenant_id,
    ensures
        tenant_named(st, tenant_id) == Some(st.tenants[at]),
{
    lemma_found_at(st.tenants, tenant_with_id(tenant_id), at);
}

/// Who leaves without naming a group leaves the one that they act in, and needs the exit code of
/// the group that they leave.
pub proof fn group_to_leave_is_the_one_named(
    st: OrgState,
    user_id: Seq<char>,
    tenant_id: Seq<char>,
    group: int,
)
    ensures
        leave_target(st, user_id, Some(tenant_id)) == tenant_id,
        leave_target(st, user_id, None) == active_tenant(st, user_id),
        0 <= group < st.tenants.len() && st.tenants[group].id == tenant_id && (forall|i: int|
            0 <= i < group ==> (#[trigger] st.tenants[i]).id != tenant_id) ==> exit_hash(
            st,
            tenant_id,
        ) == st.tenants[group].exit_password_hash,
        (forall|i: int| 0 <= i < st.tenants.len() ==> (#[trigger] st.tenants[i]).id != tenant_id)
            ==> exit_hash(st, tenant_id) is None,
{
    let p = tenant_with_id(tenant_id);
    lemma_first(st.tenants, p);
    if 0 <= group < st.tenants.len() && p(st.tenants[group]) && (forall|i: int|
        0 <= i < group ==> (#[trigger] st.tenants[i]).id != tenant_id) {
        lemma_found_at(st.tenants, p, group);
    }
}

} // verus!
