//! What the listings of members, groups and logs show.
use crate::org::membership::{active_tenant, is_member, tenant_with_id};
use crate::org::models::{
    AdminUserDtoView, AgentAuditEntryView, AuditLogRowView, EnterpriseTenantDtoView,
    MyTenantDtoView, TenantRowView, TenantSummaryDtoView, ToolMessageRowView, UserOrgRowView,
};
use crate::org::roster::{
    admin_user, agent_entry, calls_shown, clamped, company_seat_of, enterprise_groups_shown,
    enterprise_tenant_dto, every_tenant, feature_allowed, known_membership, license_of, lists_up_to,
    log_shown, logged_for, memberships_shown, my_tenant, nameless, newest_log_first,
    newest_member_first, newest_message_first, oldest_member_first, oldest_tenant_first, on_roster,
    roster, roster_refusal, tenant_summary, tenant_under, tenants_shown, tool_call,
};
use crate::org::service::{user_with_id, OrgState};
use crate::table::{any, first, lemma_first, lemma_found_at, listed_rows, lists};
use vstd::prelude::*;

verus! {

/// Every member of a group who has an account is on its roster, with what their membership and
/// their account say.
pub proof fn roster_shows_each_member(
    st: OrgState,
    tenant_id: Seq<char>,
    out: Seq<AdminUserDtoView>,
    i: int,
    account: int,
) -> (k: int)
    requires
        roster(st, tenant_id, out),
        0 <= i < st.members.len(),
        st.members[i].tenant_id == tenant_id,
        0 <= account < st.users.len(),
        st.users[account].id == st.members[i].user_id,
        forall|j: int| 0 <= j < account ==> (#[trigger] st.users[j]).id != st.members[i].user_id,
    ensures
        0 <= k < out.len(),
        out[k].user_id == st.members[i].user_id,
        st.users[account].username matches Some(name) ==> out[k].username == name,
        out[k].tenant_id == tenant_id,
        out[k].role == st.members[i].role,
        out[k].display_name == st.members[i].display_name,
        out[k].org_unit_path == st.members[i].org_unit_path,
        out[k].job_title == st.members[i].job_title,
        out[k].department_id == st.members[i].department_id,
        out[k].last_login == st.users[account].last_login,
        out[k].created_at == st.members[i].created_at,
{
    let g = |r: UserOrgRowView| admin_user(st, r);
    let shown = listed_rows(out, st.members, on_roster(st, tenant_id), newest_member_first(), g);
    assert(user_with_id(st.members[i].user_id)(st.users[account]));
    assert(on_roster(st, tenant_id)(st.members[i]));
    lemma_found_at(st.users, user_with_id(st.members[i].user_id), account);
    let k = choose|k: int| 0 <= k < shown.len() && shown[k] == st.members[i];
    assert(out[k] == g(shown[k]));
    k
}

/// Everyone on a roster is a member of the group with an account.
pub proof fn roster_shows_nobody_else(
    st: OrgState,
    tenant_id: Seq<char>,
    out: Seq<AdminUserDtoView>,
    k: int,
) -> (i: int)
    requires
        roster(st, tenant_id, out),
        0 <= k < out.len(),
    ensures
        0 <= i < st.members.len(),
        st.members[i].tenant_id == tenant_id,
        st.members[i].user_id == out[k].user_id,
        st.members[i].role == out[k].role,
        exists|j: int| 0 <= j < st.users.len() && (#[trigger] st.users[j]).id == out[k].user_id,
        forall|j: int|
            k < j < out.len() ==> out[k].created_at >= (#[trigger] out[j]).created_at,
{
    let g = |r: UserOrgRowView| admin_user(st, r);
    let p = on_roster(st, tenant_id);
    let shown = listed_rows(out, st.members, p, newest_member_first(), g);
    assert(out[k] == g(shown[k]));
    assert forall|j: int| k < j < out.len() implies out[k].created_at >= (
    #[trigger] out[j]).created_at by {
        assert(out[j] == g(shown[j]));
        assert(newest_member_first()(shown[k], shown[j]));
    }
    assert(p(shown[k]));
    let j = choose|j: int|
        0 <= j < st.users.len() && user_with_id(shown[k].user_id)(#[trigger] st.users[j]);
    assert(st.users[j].id == out[k].user_id);
    choose|i: int| 0 <= i < st.members.len() && st.members[i] == shown[k]
}

/// The roster is refused exactly where a member's account has no name.
pub proof fn roster_needs_names(st: OrgState, tenant_id: Seq<char>)
    ensures
        roster_refusal(st, tenant_id) is Some <==> exists|i: int|
            0 <= i < st.members.len() && (#[trigger] st.members[i]).tenant_id == tenant_id && (
            first(st.users, user_with_id(st.members[i].user_id)) matches Some(u)
                && u.username is None),
{
    let p = nameless(st, tenant_id);
    if any(st.members, p) {
        let i = choose|i: int| 0 <= i < st.members.len() && p(#[trigger] st.members[i]);
        assert(st.members[i].tenant_id == tenant_id);
    } else {
        assert forall|i: int| 0 <= i < st.members.len() implies !((
        #[trigger] st.members[i]).tenant_id == tenant_id && (first(
            st.users,
            user_with_id(st.members[i].user_id),
        ) matches Some(u) && u.username is None)) by {
            if p(st.members[i]) {
                assert(any(st.members, p));
            }
        }
    }
}

/// A person sees every group that they are in, with its name, their role, how many are in it, and
/// whether they act in it.
pub proof fn members_see_their_groups(
    st: OrgState,
    user_id: Seq<char>,
    out: Seq<MyTenantDtoView>,
    i: int,
    group: int,
) -> (k: int)
    requires
        memberships_shown(st, user_id, out),
        0 <= i < st.members.len(),
        st.members[i].user_id == user_id,
        0 <= group < st.tenants.len(),
        st.tenants[group].id == st.members[i].tenant_id,
        forall|j: int|
            0 <= j < group ==> (#[trigger] st.tenants[j]).id != st.members[i].tenant_id,
    ensures
        0 <= k < out.len(),
        out[k].tenant_id == st.members[i].tenant_id,
        out[k].name == st.tenants[group].name,
        out[k].role == st.members[i].role,
        out[k].member_count == st.members.filter(
            |r: UserOrgRowView| r.tenant_id == st.members[i].tenant_id,
        ).len() as i64,
        out[k].is_active <==> st.members[i].tenant_id == active_tenant(st, user_id),
{
    let g = |r: UserOrgRowView| my_tenant(st, user_id, r);
    let p = known_membership(st, user_id);
    let shown = listed_rows(out, st.members, p, oldest_member_first(), g);
    assert(tenant_with_id(st.members[i].tenant_id)(st.tenants[group]));
    assert(p(st.members[i]));
    lemma_found_at(st.tenants, tenant_with_id(st.members[i].tenant_id), group);
    crate::org::member_laws::membership_is_on_record(st, user_id, st.members[i].tenant_id);
    let k = choose|k: int| 0 <= k < shown.len() && shown[k] == st.members[i];
    assert(out[k] == g(shown[k]));
    k
}

/// Every group that a person sees is one that they are in; the one joined first comes first.
pub proof fn members_see_no_other_groups(
    st: OrgState,
    user_id: Seq<char>,
    out: Seq<MyTenantDtoView>,
    j: int,
    k: int,
) -> (at: (int, int))
    requires
        memberships_shown(st, user_id, out),
        0 <= j < k < out.len(),
    ensures
        0 <= at.0 < st.members.len(),
        0 <= at.1 < st.members.len(),
        st.members[at.0].user_id == user_id && st.members[at.0].tenant_id == out[j].tenant_id,
        st.members[at.1].user_id == user_id && st.members[at.1].tenant_id == out[k].tenant_id,
        st.members[at.0].created_at <= st.members[at.1].created_at,
{
    let g = |r: UserOrgRowView| my_tenant(st, user_id, r);
    let p = known_membership(st, user_id);
    let shown = listed_rows(out, st.members, p, oldest_member_first(), g);
    assert(out[j] == g(shown[j]) && out[k] == g(shown[k]));
    let a = choose|i: int| 0 <= i < st.members.len() && st.members[i] == shown[j];
    let b = choose|i: int| 0 <= i < st.members.len() && st.members[i] == shown[k];
    (a, b)
}

/// Every group there is appears in the listing of all, with its name.
pub proof fn every_group_is_listed(st: OrgState, out: Seq<TenantSummaryDtoView>, i: int) -> (k: int)
    requires
        tenants_shown(st, out),
        0 <= i < st.tenants.len(),
    ensures
        out.len() == st.tenants.len(),
        0 <= k < out.len(),
        out[k].tenant_id == st.tenants[i].id,
        out[k].name == st.tenants[i].name,
{
    let g = |t: TenantRowView| tenant_summary(t);
    let shown = listed_rows(out, st.tenants, every_tenant(), oldest_tenant_first(), g);
    assert(every_tenant()(st.tenants[i]));
    lemma_filter_every(st.tenants);
    let k = choose|k: int| 0 <= k < shown.len() && shown[k] == st.tenants[i];
    assert(out[k] == g(shown[k]));
    k
}

proof fn lemma_filter_every(rows: Seq<TenantRowView>)
    ensures
        rows.filter(every_tenant()) == rows,
    decreases rows.len(),
{
    reveal(Seq::filter);
    if rows.len() > 0 {
        lemma_filter_every(rows.drop_last());
        assert(rows.filter(every_tenant()) =~= rows);
    } else {
        assert(rows.filter(every_tenant()) =~= rows);
    }
}

/// An enterprise sees each of its groups with how many are in it.
pub proof fn enterprise_sees_its_groups(
    st: OrgState,
    enterprise_id: Seq<char>,
    out: Seq<EnterpriseTenantDtoView>,
    i: int,
) -> (k: int)
    requires
        enterprise_groups_shown(st, enterprise_id, out),
        0 <= i < st.tenants.len(),
        st.tenants[i].enterprise_id == Some(enterprise_id),
    ensures
        0 <= k < out.len(),
        out[k].tenant_id == st.tenants[i].id,
        out[k].name == st.tenants[i].name,
        out[k].created_at == st.tenants[i].created_at,
        out[k].member_count == st.members.filter(
            |r: UserOrgRowView| r.tenant_id == st.tenants[i].id,
        ).len() as i64,
{
    let g = |t: TenantRowView| enterprise_tenant_dto(st, t);
    let p = tenant_under(enterprise_id);
    let shown = listed_rows(out, st.tenants, p, oldest_tenant_first(), g);
    assert(p(st.tenants[i]));
    crate::org::member_laws::membership_is_on_record(st, Seq::empty(), st.tenants[i].id);
    let k = choose|k: int| 0 <= k < shown.len() && shown[k] == st.tenants[i];
    assert(out[k] == g(shown[k]));
    k
}

/// An enterprise sees no group but its own, the oldest first.
pub proof fn enterprise_sees_no_other_groups(
    st: OrgState,
    enterprise_id: Seq<char>,
    out: Seq<EnterpriseTenantDtoView>,
    k: int,
) -> (i: int)
    requires
        enterprise_groups_shown(st, enterprise_id, out),
        0 <= k < out.len(),
    ensures
        0 <= i < st.tenants.len(),
        st.tenants[i].enterprise_id == Some(enterprise_id),
        st.tenants[i].id == out[k].tenant_id,
        forall|j: int|
            k < j < out.len() ==> out[k].created_at <= (#[trigger] out[j]).created_at,
{
    let g = |t: TenantRowView| enterprise_tenant_dto(st, t);
    let p = tenant_under(enterprise_id);
    let shown = listed_rows(out, st.tenants, p, oldest_tenant_first(), g);
    assert(out[k] == g(shown[k]));
    assert forall|j: int| k < j < out.len() implies out[k].created_at <= (
    #[trigger] out[j]).created_at by {
        assert(out[j] == g(shown[j]));
        assert(oldest_tenant_first()(shown[k], shown[j]));
    }
    choose|i: int| 0 <= i < st.tenants.len() && st.tenants[i] == shown[k]
}

/// What a listing up to a limit shows: the first of what the whole listing would.
proof fn lemma_up_to<V, U>(
    out: Seq<U>,
    rows: Seq<V>,
    p: spec_fn(V) -> bool,
    le: spec_fn(V, V) -> bool,
    g: spec_fn(V) -> U,
    limit: int,
) -> (shown: Seq<V>)
    requires
        lists_up_to(out, rows, p, le, g, limit),
        0 <= limit,
    ensures
        out.len() == if rows.filter(p).len() <= limit {
            rows.filter(p).len() as int
        } else {
            limit
        },
        shown.len() == rows.filter(p).len(),
        forall|i: int| 0 <= i < out.len() ==> #[trigger] out[i] == g(shown[i]),
        forall|i: int| 0 <= i < shown.len() ==> p(#[trigger] shown[i]) && rows.contains(shown[i]),
        forall|i: int| 0 <= i < rows.len() && p(#[trigger] rows[i]) ==> shown.contains(rows[i]),
        forall|i: int, j: int|
            0 <= i < j < shown.len() ==> le(#[trigger] shown[i], #[trigger] shown[j]),
{
    let whole = choose|whole: Seq<U>| #[trigger]
        lists(whole, rows, p, le, g) && out == if whole.len() <= limit {
            whole
        } else {
            whole.take(limit)
        };
    let shown = listed_rows(whole, rows, p, le, g);
    assert forall|i: int| 0 <= i < out.len() implies #[trigger] out[i] == g(shown[i]) by {
        assert(out[i] == whole[i]);
    }
    shown
}

/// An entry of a group's log is shown, unless as many as asked for, none of them older, are.
pub proof fn log_shows_the_newest(
    st: OrgState,
    tenant_id: Seq<char>,
    limit: i64,
    out: Seq<AuditLogRowView>,
    i: int,
) -> (k: int)
    requires
        log_shown(st, tenant_id, limit, out),
        0 <= i < st.audit_log.len(),
        st.audit_log[i].tenant_id == tenant_id,
    ensures
        (0 <= k < out.len() && out[k] == st.audit_log[i]) || (out.len() == if limit < 1 {
            1
        } else if limit > 500 {
            500
        } else {
            limit as int
        } && forall|j: int|
            0 <= j < out.len() ==> (#[trigger] out[j]).created_at >= st.audit_log[i].created_at),
{
    let g = |r: AuditLogRowView| r;
    let p = logged_for(tenant_id);
    let n = clamped(limit, 1, 500) as int;
    let shown = lemma_up_to(out, st.audit_log, p, newest_log_first(), g, n);
    assert(p(st.audit_log[i]));
    let k = choose|k: int| 0 <= k < shown.len() && shown[k] == st.audit_log[i];
    if k >= out.len() {
        assert forall|j: int| 0 <= j < out.len() implies (#[trigger] out[j]).created_at
            >= st.audit_log[i].created_at by {
            assert(out[j] == g(shown[j]));
            assert(newest_log_first()(shown[j], shown[k]));
        }
    } else {
        assert(out[k] == g(shown[k]));
    }
    k
}

/// The log of a group holds its own entries only, the newest first, and no more than asked for.
pub proof fn log_is_of_the_group(
    st: OrgState,
    tenant_id: Seq<char>,
    limit: i64,
    out: Seq<AuditLogRowView>,
)
    requires
        log_shown(st, tenant_id, limit, out),
    ensures
        out.len() <= 500,
        1 <= limit ==> out.len() <= limit,
        forall|k: int|
            0 <= k < out.len() ==> (#[trigger] out[k]).tenant_id == tenant_id
                && st.audit_log.contains(out[k]),
        forall|j: int, k: int|
            0 <= j < k < out.len() ==> (#[trigger] out[j]).created_at >= (
            #[trigger] out[k]).created_at,
{
    let g = |r: AuditLogRowView| r;
    let p = logged_for(tenant_id);
    let n = clamped(limit, 1, 500) as int;
    let shown = lemma_up_to(out, st.audit_log, p, newest_log_first(), g, n);
    assert forall|k: int| 0 <= k < out.len() implies (#[trigger] out[k]).tenant_id == tenant_id
        && st.audit_log.contains(out[k]) by {
        assert(out[k] == g(shown[k]));
        assert(p(shown[k]));
    }
    assert forall|j: int, k: int| 0 <= j < k < out.len() implies (#[trigger] out[j]).created_at >= (
    #[trigger] out[k]).created_at by {
        assert(out[j] == g(shown[j]) && out[k] == g(shown[k]));
        assert(newest_log_first()(shown[j], shown[k]));
    }
}

/// A tool call is in the listing of a group's calls only where it is a call of a member and what
/// was asked for; it is shown as it was recorded.
pub proof fn calls_are_what_was_asked_for(
    st: OrgState,
    messages: Seq<ToolMessageRowView>,
    tenant_id: Seq<char>,
    user_filter: Option<Seq<char>>,
    tool_filter: Option<Seq<char>>,
    since_ms: Option<i64>,
    limit: i64,
    out: Seq<AgentAuditEntryView>,
    k: int,
) -> (i: int)
    requires
        calls_shown(
            st,
            messages,
            tenant_id,
            user_filter,
            tool_filter,
            since_ms,
            limit,
            out,
        ),
        0 <= k < out.len(),
    ensures
        out.len() <= 2000,
        1 <= limit ==> out.len() <= limit,
        0 <= i < messages.len(),
        messages[i].kind == "tool_call"@ || messages[i].kind == "acp_tool_call"@,
        is_member(st, messages[i].user_id, tenant_id),
        user_filter is Some ==> messages[i].user_id == user_filter->0,
        tool_filter is Some ==> messages[i].tool_name == tool_filter->0,
        since_ms is Some ==> messages[i].created_at >= since_ms->0,
        out[k].id == messages[i].id,
        out[k].conversation_id == messages[i].conversation_id,
        out[k].user_id == Some(messages[i].user_id),
        out[k].tool_name == messages[i].tool_name,
        out[k].detail == messages[i].detail,
        out[k].status == messages[i].status,
        out[k].created_at == messages[i].created_at,
        forall|j: int|
            k < j < out.len() ==> out[k].created_at >= (#[trigger] out[j]).created_at,
{
    let g = |m: ToolMessageRowView| agent_entry(m);
    let p = tool_call(st, tenant_id, user_filter, tool_filter, since_ms);
    let n = clamped(limit, 1, 2000) as int;
    let shown = lemma_up_to(out, messages, p, newest_message_first(), g, n);
    assert(out[k] == g(shown[k]));
    assert(p(shown[k]));
    assert forall|j: int| k < j < out.len() implies out[k].created_at >= (
    #[trigger] out[j]).created_at by {
        assert(out[j] == g(shown[j]));
        assert(newest_message_first()(shown[k], shown[j]));
    }
    choose|i: int| 0 <= i < messages.len() && messages[i] == shown[k]
}

/// A call of a member that was asked for is shown, unless as many as asked for, none of them
/// older, are.
pub proof fn calls_asked_for_are_shown(
    st: OrgState,
    messages: Seq<ToolMessageRowView>,
    tenant_id: Seq<char>,
    user_filter: Option<Seq<char>>,
    tool_filter: Option<Seq<char>>,
    since_ms: Option<i64>,
    limit: i64,
    out: Seq<AgentAuditEntryView>,
    i: int,
) -> (k: int)
    requires
        calls_shown(
            st,
            messages,
            tenant_id,
            user_filter,
            tool_filter,
            since_ms,
            limit,
            out,
        ),
        0 <= i < messages.len(),
        messages[i].kind == "tool_call"@ || messages[i].kind == "acp_tool_call"@,
        is_member(st, messages[i].user_id, tenant_id),
        user_filter is None || messages[i].user_id == user_filter->0,
        tool_filter is None || messages[i].tool_name == tool_filter->0,
        since_ms is None || messages[i].created_at >= since_ms->0,
    ensures
        (0 <= k < out.len() && out[k].id == messages[i].id && out[k].created_at
            == messages[i].created_at) || (out.len() == if limit < 1 {
            1
        } else if limit > 2000 {
            2000
        } else {
            limit as int
        } && forall|j: int|
            0 <= j < out.len() ==> (#[trigger] out[j]).created_at >= messages[i].created_at),
{
    let g = |m: ToolMessageRowView| agent_entry(m);
    let p = tool_call(st, tenant_id, user_filter, tool_filter, since_ms);
    let n = clamped(limit, 1, 2000) as int;
    let shown = lemma_up_to(out, messages, p, newest_message_first(), g, n);
    assert(p(messages[i]));
    let k = choose|k: int| 0 <= k < shown.len() && shown[k] == messages[i];
    if k >= out.len() {
        assert forall|j: int| 0 <= j < out.len() implies (#[trigger] out[j]).created_at
            >= messages[i].created_at by {
            assert(out[j] == g(shown[j]));
            assert(newest_message_first()(shown[j], shown[k]));
        }
    } else {
        assert(out[k] == g(shown[k]));
    }
    k
}

/// Who has a seat in an enterprise may use what its licence's tier has, an enterprise without a
/// licence being on the free tier; who has none may use everything.
pub proof fn tier_opens_its_features(
    st: OrgState,
    user_id: Seq<char>,
    tiers: Seq<Seq<char>>,
    seat: int,
    licence: int,
)
    ensures
        (forall|i: int|
            0 <= i < st.company_members.len() ==> (#[trigger] st.company_members[i]).user_id
                != user_id) ==> feature_allowed(st, user_id, tiers),
        0 <= seat < st.company_members.len() && st.company_members[seat].user_id == user_id && (
        forall|i: int|
            0 <= i < seat ==> (#[trigger] st.company_members[i]).user_id != user_id) ==> {
            &&& 0 <= licence < st.licenses.len() && st.licenses[licence].enterprise_id
                == st.company_members[seat].enterprise_id && (forall|i: int|
                0 <= i < licence ==> (#[trigger] st.licenses[i]).enterprise_id
                    != st.company_members[seat].enterprise_id) ==> (feature_allowed(
                st,
                user_id,
                tiers,
            ) <==> tiers.contains(st.licenses[licence].tier))
            &&& (forall|i: int|
                0 <= i < st.licenses.len() ==> (#[trigger] st.licenses[i]).enterprise_id
                    != st.company_members[seat].enterprise_id) ==> (feature_allowed(
                st,
                user_id,
                tiers,
            ) <==> tiers.contains("free"@))
        },
{
    let p = company_seat_of(user_id);
    lemma_first(st.company_members, p);
    if 0 <= seat < st.company_members.len() && p(st.company_members[seat]) && (forall|i: int|
        0 <= i < seat ==> (#[trigger] st.company_members[i]).user_id != user_id) {
        lemma_found_at(st.company_members, p, seat);
        let q = license_of(st.company_members[seat].enterprise_id);
        lemma_first(st.licenses, q);
        if 0 <= licence < st.licenses.len() && q(st.licenses[licence]) && (forall|i: int|
            0 <= i < licence ==> (#[trigger] st.licenses[i]).enterprise_id
                != st.company_members[seat].enterprise_id) {
            lemma_found_at(st.licenses, q, licence);
        }
    }
}

} // verus!
