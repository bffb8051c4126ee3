//! Which codes open a group, and for how long.
use crate::ids::upper_hex_char;
use crate::org::codes::{display_normalizes_back, normalized_code, plain_code};
use crate::org::error::OrgErrorView;
use crate::org::invites::{
    bulk_size, in_use, invite_key, invite_previewed, invite_revoked, invite_with_code, invites_of,
    invites_shown, join_result, joins, made_invites, new_invite, newest_invite_first, picked,
    JoinAttempt,
};
use crate::org::membership::is_member;
use crate::org::models::{
    invite_dto, InviteDto, InviteDtoView, InviteRowView, TenantRowView,
};
use crate::org::onboarding::{
    admits_domain, after_last_at, auto_join_target, auto_joined, clean_domain, clean_domains,
    email_domain, stored_domains,
};
use crate::org::service::OrgState;
use crate::table::{
    any, first, lemma_filter_contains, lemma_first, lemma_found_at, listed_rows,
};
use crate::text::{lowered, trimmed_text};
use crate::text_laws::skipping_takes_the_lead;
use vstd::prelude::*;

verus! {

/// A new invite starts unused and not revoked, for the group and under the code given, and runs
/// out as many days from now as was asked for, or never.
pub proof fn invite_starts_unused(
    id: Seq<char>,
    tenant_id: Seq<char>,
    code: Seq<char>,
    created_by: Seq<char>,
    max_uses: Option<i64>,
    expires_in_days: Option<i64>,
    now: i64,
)
    ensures
        ({
            let invite = new_invite(
                id,
                tenant_id,
                code,
                created_by,
                max_uses,
                expires_in_days,
                now,
            );
            &&& invite.id == id
            &&& invite.tenant_id == tenant_id
            &&& invite.code == code
            &&& invite.created_by == created_by
            &&& invite.max_uses == max_uses
            &&& invite.use_count == 0
            &&& invite.created_at == now
            &&& invite.revoked == 0
            &&& expires_in_days is None ==> invite.expires_at is None
            &&& expires_in_days matches Some(days) ==> if days > 0 {
                invite.expires_at == Some((now + days * 24 * 60 * 60 * 1000) as i64)
            } else {
                invite.expires_at is None
            }
        }),
{
    if let Some(days) = expires_in_days {
        assert(days * 24 * 60 * 60 * 1000 == days * 86_400_000) by (nonlinear_arith);
    }
}

/// An invite works while it is not revoked, has not run out and was used less often than it may.
pub proof fn invite_works_while_it_lasts(invite: InviteRowView, now: i64)
    ensures
        invite.active(now) ==> invite.revoked == 0,
        invite.active(now) && invite.expires_at is Some ==> now <= invite.expires_at->0,
        invite.active(now) && invite.max_uses is Some ==> invite.use_count < invite.max_uses->0,
        invite.revoked == 0 && (invite.expires_at is None || now <= invite.expires_at->0) && (
        invite.max_uses is None || invite.use_count < invite.max_uses->0) ==> invite.active(now),
{
}

/// A code joins through the invite that holds it: the person gets into its group where the invite
/// works and they are not in it yet.
pub proof fn code_joins_its_group(st: OrgState, a: JoinAttempt, at: int, group: int)
    requires
        0 <= at < st.invites.len(),
        st.invites[at].code == normalized_code(a.code),
        forall|i: int| 0 <= i < at ==> (#[trigger] st.invites[i]).code != normalized_code(a.code),
        0 <= group < st.tenants.len(),
        st.tenants[group].id == st.invites[at].tenant_id,
        forall|i: int|
            0 <= i < group ==> (#[trigger] st.tenants[i]).id != st.invites[at].tenant_id,
    ensures
        !st.invites[at].active(a.now) ==> join_result(st, a) == Err::<TenantRowView, OrgErrorView>(
            OrgErrorView::InvalidCode,
        ) && joins(st, a) is None,
        st.invites[at].active(a.now) && is_member(st, a.user_id, st.invites[at].tenant_id)
            ==> join_result(st, a) == Err::<TenantRowView, OrgErrorView>(OrgErrorView::AlreadyInEnterprise)
            && joins(st, a) is None,
        st.invites[at].active(a.now) && !is_member(st, a.user_id, st.invites[at].tenant_id)
            ==> join_result(st, a) == Ok::<TenantRowView, OrgErrorView>(st.tenants[group]) && joins(st, a)
            == Some(st.invites[at]),
{
    lemma_found_at(st.invites, invite_with_code(normalized_code(a.code)), at);
    crate::org::member_laws::group_is_on_record(st, st.invites[at].tenant_id, group);
}

/// A code that no invite holds joins nothing.
pub proof fn unknown_code_joins_nothing(st: OrgState, a: JoinAttempt)
    requires
        forall|i: int|
            0 <= i < st.invites.len() ==> (#[trigger] st.invites[i]).code != normalized_code(
                a.code,
            ),
    ensures
        join_result(st, a) == Err::<TenantRowView, OrgErrorView>(OrgErrorView::InvalidCode),
        joins(st, a) is None,
{
    lemma_first(st.invites, invite_with_code(normalized_code(a.code)));
}

/// A look at a code says that it can be used exactly where it is long enough and the invite that
/// holds it works.
pub proof fn preview_tells_what_works(
    st: OrgState,
    raw: Seq<char>,
    now: i64,
    r: Result<(), OrgErrorView>,
    at: int,
)
    requires
        invite_previewed(st, raw, now, r),
    ensures
        0 <= at < st.invites.len() && st.invites[at].code == normalized_code(raw) && (forall|i: int|
            0 <= i < at ==> (#[trigger] st.invites[i]).code != normalized_code(raw)) ==> (r is Ok
            <==> st.invites[at].active(now) && vstd::utf8::encode_utf8(
            normalized_code(raw),
        ).len() as usize >= 6),
        (forall|i: int|
            0 <= i < st.invites.len() ==> (#[trigger] st.invites[i]).code != normalized_code(raw))
            ==> r == Err::<(), OrgErrorView>(OrgErrorView::InvalidCode),
{
    let p = invite_with_code(normalized_code(raw));
    lemma_first(st.invites, p);
    if 0 <= at < st.invites.len() && p(st.invites[at]) && (forall|i: int|
        0 <= i < at ==> (#[trigger] st.invites[i]).code != normalized_code(raw)) {
        lemma_found_at(st.invites, p, at);
    }
}

/// A revoked invite never works again; every other invite is as before, and only the group's own
/// invites can be revoked.
pub proof fn revocation_is_of_one_invite(
    before: OrgState,
    after: OrgState,
    tenant_id: Seq<char>,
    invite_id: Seq<char>,
    r: Result<(), OrgErrorView>,
    later: i64,
)
    requires
        invite_revoked(before, after, tenant_id, invite_id, r),
    ensures
        r is Ok <==> exists|i: int|
            0 <= i < before.invites.len() && (#[trigger] before.invites[i]).tenant_id == tenant_id
                && before.invites[i].id == invite_id,
        r is Err ==> after == before,
        after == (OrgState { invites: after.invites, ..before }),
        after.invites.len() == before.invites.len(),
        forall|i: int|
            0 <= i < before.invites.len() ==> if (#[trigger] before.invites[i]).tenant_id
                == tenant_id && before.invites[i].id == invite_id {
                !after.invites[i].active(later) && after.invites[i] == (InviteRowView {
                    revoked: after.invites[i].revoked,
                    ..before.invites[i]
                }) && invite_dto(after.invites[i]).revoked
            } else {
                after.invites[i] == before.invites[i]
            },
{
    let p = invite_key(invite_id, tenant_id);
    if any(before.invites, p) {
        let i = choose|i: int| 0 <= i < before.invites.len() && p(#[trigger] before.invites[i]);
        assert(before.invites[i].tenant_id == tenant_id);
    } else {
        assert forall|i: int| 0 <= i < before.invites.len() implies !((
        #[trigger] before.invites[i]).tenant_id == tenant_id && before.invites[i].id
            == invite_id) by {
            if p(before.invites[i]) {
                assert(any(before.invites, p));
            }
        }
    }
}

/// Every invite of a group is listed with what is on record of it.
pub proof fn group_sees_its_invites(
    st: OrgState,
    tenant_id: Seq<char>,
    out: Seq<InviteDtoView>,
    i: int,
) -> (k: int)
    requires
        invites_shown(st, tenant_id, out),
        0 <= i < st.invites.len(),
        st.invites[i].tenant_id == tenant_id,
    ensures
        0 <= k < out.len(),
        out[k].id == st.invites[i].id,
        out[k].tenant_id == tenant_id,
        out[k].code == st.invites[i].code,
        out[k].created_by == st.invites[i].created_by,
        out[k].max_uses == st.invites[i].max_uses,
        out[k].use_count == st.invites[i].use_count,
        out[k].expires_at == st.invites[i].expires_at,
        out[k].created_at == st.invites[i].created_at,
        out[k].revoked <==> st.invites[i].revoked != 0,
{
    let g = |r: InviteRowView| invite_dto(r);
    let shown = listed_rows(out, st.invites, invites_of(tenant_id), newest_invite_first(), g);
    assert(invites_of(tenant_id)(st.invites[i]));
    let k = choose|k: int| 0 <= k < shown.len() && shown[k] == st.invites[i];
    assert(out[k] == g(shown[k]));
    k
}

/// Every invite in a listing is one of the group's, and the newest come first.
pub proof fn invites_are_listed_newest_first(
    st: OrgState,
    tenant_id: Seq<char>,
    out: Seq<InviteDtoView>,
    j: int,
    k: int,
)
    requires
        invites_shown(st, tenant_id, out),
        0 <= j < k < out.len(),
    ensures
        out[j].created_at >= out[k].created_at,
        out[j].tenant_id == tenant_id,
        out[k].tenant_id == tenant_id,
        out.len() == st.invites.filter(|r: InviteRowView| r.tenant_id == tenant_id).len(),
{
    let g = |r: InviteRowView| invite_dto(r);
    let shown = listed_rows(out, st.invites, invites_of(tenant_id), newest_invite_first(), g);
    assert(invites_of(tenant_id) =~= (|r: InviteRowView| r.tenant_id == tenant_id));
    assert(out[j] == g(shown[j]) && out[k] == g(shown[k]));
}

/// The code that is picked is the first drawn that no invite holds.
pub proof fn picked_code_is_unused(
    invites: Seq<InviteRowView>,
    drawn: Seq<Option<Seq<char>>>,
    at: int,
)
    requires
        0 <= at < drawn.len(),
        forall|k: int|
            0 <= k < at ==> (#[trigger] drawn[k] matches Some(code) && exists|i: int|
                0 <= i < invites.len() && (#[trigger] invites[i]).code == code),
    ensures
        drawn[at] matches Some(code) ==> (forall|i: int|
            0 <= i < invites.len() ==> (#[trigger] invites[i]).code != code) ==> picked(
            invites,
            drawn,
        ) == Ok::<Seq<char>, OrgErrorView>(code),
        drawn[at] is None ==> picked(invites, drawn) is Err,
        picked(invites, drawn) matches Ok(code) ==> forall|i: int|
            0 <= i < invites.len() ==> (#[trigger] invites[i]).code != code,
{
    let free = |draw: Option<Seq<char>>| !in_use(invites, draw);
    lemma_first(drawn, free);
    assert forall|k: int| 0 <= k < at implies !free(#[trigger] drawn[k]) by {
        let code = drawn[k]->0;
        let i = choose|i: int| 0 <= i < invites.len() && (#[trigger] invites[i]).code == code;
        assert(invite_with_code(code)(invites[i]));
    }
    if drawn[at] is None || (forall|i: int|
        0 <= i < invites.len() ==> (#[trigger] invites[i]).code != drawn[at]->0) {
        assert(free(drawn[at]));
        lemma_found_at(drawn, free, at);
    }
    if let Ok(code) = picked(invites, drawn) {
        assert forall|i: int| 0 <= i < invites.len() implies (#[trigger] invites[i]).code != code by {
            if invite_with_code(code)(invites[i]) {
                assert(any(invites, invite_with_code(code)));
            }
        }
    }
}

/// At least one and at most a hundred invites are made at once, as many as asked for within that.
pub proof fn bulk_is_within_bounds(count: usize)
    ensures
        1 <= bulk_size(count) <= 100,
        1 <= count <= 100 ==> bulk_size(count) == count,
        count == 0 ==> bulk_size(count) == 1,
        count > 100 ==> bulk_size(count) == 100,
{
}

/// The domain of an address is what follows its last at sign, without white space around it and
/// in lower case.
pub proof fn domain_follows_the_last_at(local: Seq<char>, domain: Seq<char>)
    requires
        !domain.contains('@'),
    ensures
        trimmed_text(domain).len() > 0 ==> email_domain(local + seq!['@'] + domain) == Some(
            lowered(trimmed_text(domain)),
        ),
        trimmed_text(domain).len() == 0 ==> email_domain(local + seq!['@'] + domain) is None,
        email_domain(domain) is None,
{
    lemma_after_last_at(local, domain);
    lemma_no_at(domain);
}

proof fn lemma_after_last_at(local: Seq<char>, domain: Seq<char>)
    requires
        !domain.contains('@'),
    ensures
        after_last_at(local + seq!['@'] + domain) == Some(domain),
    decreases domain.len(),
{
    let text = local + seq!['@'] + domain;
    if domain.len() == 0 {
        assert(text.last() == '@');
        assert(domain =~= Seq::empty());
    } else {
        let rest = domain.drop_last();
        assert(domain.contains(domain.last()));
        assert forall|i: int| 0 <= i < rest.len() implies #[trigger] rest[i] != '@' by {
            assert(domain.contains(domain[i]));
        }
        assert(text.last() == domain.last());
        assert(text.drop_last() =~= local + seq!['@'] + rest);
        lemma_after_last_at(local, rest);
        assert(rest.push(domain.last()) =~= domain);
    }
}

proof fn lemma_no_at(text: Seq<char>)
    requires
        !text.contains('@'),
    ensures
        after_last_at(text) is None,
    decreases text.len(),
{
    if text.len() > 0 {
        let rest = text.drop_last();
        assert(text.contains(text.last()));
        assert forall|i: int| 0 <= i < rest.len() implies #[trigger] rest[i] != '@' by {
            assert(text.contains(text[i]));
        }
        lemma_no_at(rest);
    }
}

/// A domain is stored without white space around it, without at signs before it and in lower
/// case; an empty one is not stored, and nothing is that was not given.
pub proof fn domains_are_stored_clean(list: Seq<Seq<char>>, i: int, ats: Seq<char>, bare: Seq<char>)
    requires
        0 <= i < list.len(),
        forall|k: int| 0 <= k < ats.len() ==> #[trigger] ats[k] == '@',
        bare.len() > 0 ==> bare[0] != '@',
        trimmed_text(list[i]) == ats + bare,
    ensures
        clean_domain(list[i]) == lowered(bare),
        bare.len() > 0 ==> clean_domains(list).contains(lowered(bare)),
        !clean_domains(list).contains(Seq::empty()),
{
    let p = |c: char| c == '@';
    skipping_takes_the_lead(ats, bare, p);
    let cleaned = list.map_values(|d: Seq<char>| clean_domain(d));
    let keep = |d: Seq<char>| d.len() > 0;
    assert(cleaned[i] == lowered(bare));
    lemma_filter_contains(cleaned, keep, lowered(bare));
    lemma_filter_contains(cleaned, keep, Seq::empty());
}

/// Every stored domain comes from one that was given.
pub proof fn only_given_domains_are_stored(list: Seq<Seq<char>>, domain: Seq<char>)
    requires
        clean_domains(list).contains(domain),
    ensures
        domain.len() > 0,
        exists|i: int| 0 <= i < list.len() && clean_domain(#[trigger] list[i]) == domain,
{
    let cleaned = list.map_values(|d: Seq<char>| clean_domain(d));
    lemma_filter_contains(cleaned, |d: Seq<char>| d.len() > 0, domain);
    let i = choose|i: int| 0 <= i < cleaned.len() && cleaned[i] == domain;
    assert(clean_domain(list[i]) == domain);
}

/// A group admits a domain exactly where it stores it, whatever the case it is stored in.
pub proof fn group_admits_its_domains(st: OrgState, group: int, domain: Seq<char>)
    requires
        0 <= group < st.tenants.len(),
    ensures
        admits_domain(domain)(st.tenants[group]) <==> st.tenants[group].allowed_email_domains is Some
            && exists|k: int|
            0 <= k < stored_domains(st.tenants[group].allowed_email_domains).len() && lowered(
                #[trigger] stored_domains(st.tenants[group].allowed_email_domains)[k],
            ) == domain,
{
    let list = stored_domains(st.tenants[group].allowed_email_domains);
    let p = |d: Seq<char>| lowered(d) == domain;
    if any(list, p) {
        let k = choose|k: int| 0 <= k < list.len() && p(#[trigger] list[k]);
        assert(lowered(list[k]) == domain);
    } else {
        assert forall|k: int| 0 <= k < list.len() implies lowered(#[trigger] list[k]) != domain by {
            if p(list[k]) {
                assert(any(list, p));
            }
        }
    }
}

/// A person with an address joins the first group that admits its domain, unless they are in it
/// already; an address that no group admits joins nothing.
pub proof fn address_joins_the_group_that_admits_it(
    st: OrgState,
    user_id: Seq<char>,
    email: Seq<char>,
    domain: Seq<char>,
    group: int,
)
    requires
        email_domain(email) == Some(domain),
    ensures
        0 <= group < st.tenants.len() && admits_domain(domain)(st.tenants[group]) && (forall|i: int|
            0 <= i < group ==> !admits_domain(domain)(#[trigger] st.tenants[i]))
            ==> auto_join_target(st, user_id, email) == if is_member(
            st,
            user_id,
            st.tenants[group].id,
        ) {
            None
        } else {
            Some(st.tenants[group].id)
        },
        (forall|i: int|
            0 <= i < st.tenants.len() ==> !admits_domain(domain)(#[trigger] st.tenants[i]))
            ==> auto_join_target(st, user_id, email) is None,
{
    let p = admits_domain(domain);
    lemma_first(st.tenants, p);
    if 0 <= group < st.tenants.len() && p(st.tenants[group]) && (forall|i: int|
        0 <= i < group ==> !admits_domain(domain)(#[trigger] st.tenants[i])) {
        lemma_found_at(st.tenants, p, group);
    }
}

/// Joining by address adds one membership, as a member, and is logged; invites and groups are as
/// before.
pub proof fn joining_by_address_adds_one_member(
    st: OrgState,
    user_id: Seq<char>,
    tenant_id: Seq<char>,
    now: i64,
    audit_id: Seq<char>,
)
    ensures
        ({
            let after = auto_joined(st, user_id, tenant_id, now, audit_id);
            let member = after.members.last();
            let entry = after.audit_log.last();
            &&& after.members.len() == st.members.len() + 1
            &&& after.members.drop_last() == st.members
            &&& member.user_id == user_id
            &&& member.tenant_id == tenant_id
            &&& member.role == "member"@
            &&& member.department_id is None
            &&& member.created_at == now
            &&& after.ended_sessions == st.ended_sessions.push(user_id)
            &&& after.audit_log.drop_last() == st.audit_log
            &&& entry.action == "org.auto_join_domain"@
            &&& entry.tenant_id == tenant_id
            &&& entry.user_id == Some(user_id)
            &&& after == (OrgState {
                members: after.members,
                active: after.active,
                ended_sessions: after.ended_sessions,
                audit_log: after.audit_log,
                ..st
            })
        }),
{
    let after = auto_joined(st, user_id, tenant_id, now, audit_id);
    assert(after.members.drop_last() =~= st.members);
    assert(after.audit_log.drop_last() =~= st.audit_log);
}

/// Every invite of a batch is stored as asked for, unused; its code is held by no other invite, and
/// what is shown of the code, typed in, is the code.
pub proof fn batch_is_made_as_asked(
    stored: Seq<InviteRowView>,
    before: Seq<InviteRowView>,
    made: Seq<(InviteDto, String)>,
    tenant_id: Seq<char>,
    created_by: Seq<char>,
    max_uses: Option<i64>,
    expires_in_days: Option<i64>,
    now: i64,
    i: int,
)
    requires
        made_invites(
            stored,
            before,
            made,
            tenant_id,
            created_by,
            max_uses,
            expires_in_days,
            now,
        ),
        0 <= i < made.len(),
    ensures
        stored.len() == before.len() + made.len(),
        stored.take(before.len() as int) == before,
        ({
            let row = stored[before.len() + i];
            &&& row.tenant_id == tenant_id
            &&& row.created_by == created_by
            &&& row.max_uses == max_uses
            &&& row.use_count == 0
            &&& row.created_at == now
            &&& row.revoked == 0
            &&& row.expires_at is Some <==> expires_in_days is Some && expires_in_days->0 > 0
            &&& made[i].0@.id == row.id
            &&& made[i].0@.code == row.code
            &&& normalized_code(made[i].1@) == row.code
            &&& row.code.len() == 16
        }),
        forall|k: int|
            0 <= k < before.len() + i ==> (#[trigger] stored[k]).code != stored[before.len()
                + i].code,
{
    let at = before.len() + i;
    let code = made[i].0@.code;
    assert(stored.take(before.len() as int) =~= before);
    assert(plain_code(code)) by {
        assert forall|k: int| 0 <= k < code.len() implies upper_hex_char(#[trigger] code[k]) by {}
    }
    display_normalizes_back(code);
    assert forall|k: int| 0 <= k < at implies (#[trigger] stored[k]).code != code by {
        let earlier = stored.take(at);
        if stored[k].code == code {
            assert(earlier[k] == stored[k]);
            assert(invite_with_code(code)(earlier[k]));
            assert(any(earlier, invite_with_code(code)));
        }
    }
}

} // verus!
