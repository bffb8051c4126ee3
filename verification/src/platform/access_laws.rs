//! Who acts as whom on the platform, and who is let in.
use crate::org::membership::{active_of, of_user};
use crate::org::models::UserOrgRowView;
use crate::platform::error::PlatformErrorView;
use crate::platform::rbac::{admin_refusal, member_refusal, GovernanceCaller};
use crate::platform::service::{
    acting_first, acting_membership, actor_of, chosen, PlatformState,
};
use crate::table::{first, lemma_first, lemma_found_at, lemma_least, total_order};
use crate::text::{lemma_text_le_total, lemma_text_le_trans};
use vstd::prelude::*;

verus! {

proof fn lemma_acting_first_total(st: PlatformState)
    ensures
        total_order(acting_first(st)),
{
    let le = acting_first(st);
    assert forall|a: UserOrgRowView, b: UserOrgRowView| #[trigger] le(a, b) || le(b, a) by {
        lemma_text_le_total(a.tenant_id, b.tenant_id);
    }
    assert forall|a: UserOrgRowView, b: UserOrgRowView, c: UserOrgRowView|
        #[trigger] le(a, b) && #[trigger] le(b, c) implies le(a, c) by {
        if a.created_at == b.created_at && b.created_at == c.created_at && chosen(st, a) == chosen(
            st,
            b,
        ) && chosen(st, b) == chosen(st, c) {
            lemma_text_le_trans(a.tenant_id, b.tenant_id, c.tenant_id);
        }
    }
}

/// A person acts in the group that they chose, as what they are there.
pub proof fn choice_says_where_one_acts(
    st: PlatformState,
    user_id: Seq<char>,
    pointer: int,
    at: int,
)
    requires
        0 <= pointer < st.active.len(),
        st.active[pointer].user_id == user_id,
        forall|i: int| 0 <= i < pointer ==> (#[trigger] st.active[i]).user_id != user_id,
        0 <= at < st.members.len(),
        st.members[at].user_id == user_id,
        st.members[at].tenant_id == st.active[pointer].tenant_id,
        forall|i: int|
            0 <= i < st.members.len() && i != at && (#[trigger] st.members[i]).user_id == user_id
                ==> st.members[i].tenant_id != st.members[at].tenant_id,
    ensures
        acting_membership(st, user_id) == Some(st.members[at]),
        actor_of(st, user_id) matches Some(a) && a.tenant_id == st.active[pointer].tenant_id
            && a.role == st.members[at].role,
{
    lemma_found_at(st.active, active_of(user_id), pointer);
    lemma_acting_first_total(st);
    lemma_least(st.members, of_user(user_id), acting_first(st));
    assert(of_user(user_id)(st.members[at]));
    let m = acting_membership(st, user_id)->0;
    let k = choose|k: int| 0 <= k < st.members.len() && st.members[k] == m;
    assert(st.members[k].user_id == user_id);
    assert(acting_first(st)(m, st.members[at]));
    assert(chosen(st, st.members[at]));
}

/// A person who chose no group that they are in acts in the one that they joined last, and in none
/// where they are in none.
pub proof fn newest_membership_is_acted_under(st: PlatformState, user_id: Seq<char>, at: int)
    requires
        forall|i: int, j: int|
            0 <= i < st.active.len() && 0 <= j < st.members.len() && (
            #[trigger] st.active[i]).user_id == user_id && (#[trigger] st.members[j]).user_id
                == user_id ==> st.active[i].tenant_id != st.members[j].tenant_id,
    ensures
        0 <= at < st.members.len() && st.members[at].user_id == user_id && (forall|i: int|
            0 <= i < st.members.len() && i != at && (#[trigger] st.members[i]).user_id == user_id
                ==> st.members[i].created_at < st.members[at].created_at) ==> acting_membership(
            st,
            user_id,
        ) == Some(st.members[at]) && (actor_of(st, user_id) matches Some(a) && a.tenant_id
            == st.members[at].tenant_id && a.role == st.members[at].role),
        (forall|i: int| 0 <= i < st.members.len() ==> (#[trigger] st.members[i]).user_id != user_id)
            ==> actor_of(st, user_id) is None,
{
    lemma_acting_first_total(st);
    lemma_least(st.members, of_user(user_id), acting_first(st));
    lemma_first(st.active, active_of(user_id));
    if 0 <= at < st.members.len() && st.members[at].user_id == user_id && (forall|i: int|
        0 <= i < st.members.len() && i != at && (#[trigger] st.members[i]).user_id == user_id
            ==> st.members[i].created_at < st.members[at].created_at) {
        assert(of_user(user_id)(st.members[at]));
        let m = acting_membership(st, user_id)->0;
        let k = choose|k: int| 0 <= k < st.members.len() && st.members[k] == m;
        assert(st.members[k].user_id == user_id);
        assert(acting_first(st)(m, st.members[at]));
        if chosen(st, m) {
            let pointer = first(st.active, active_of(user_id))->0;
            let p = choose|p: int| 0 <= p < st.active.len() && st.active[p] == pointer;
            assert(st.active[p].user_id == user_id && st.members[k].user_id == user_id);
            assert(false);
        }
        if chosen(st, st.members[at]) {
            let pointer = first(st.active, active_of(user_id))->0;
            let p = choose|p: int| 0 <= p < st.active.len() && st.active[p] == pointer;
            assert(st.active[p].user_id == user_id && st.members[at].user_id == user_id);
            assert(false);
        }
    }
}

/// Administration is open to who is signed in, in a group and an administrator there; who is not
/// is told which of these is missing.
pub proof fn administration_is_for_administrators(
    st: PlatformState,
    user_id: Option<Seq<char>>,
)
    ensures
        admin_refusal(st, user_id) is None <==> user_id is Some && actor_of(st, user_id->0) is Some
            && (actor_of(st, user_id->0)->0.role == "org_admin"@ || actor_of(
            st,
            user_id->0,
        )->0.role == "system_admin"@ || actor_of(st, user_id->0)->0.role == "admin"@),
        user_id is None ==> admin_refusal(st, user_id) == Some(
            PlatformErrorView::Forbidden("Authentication required"@),
        ),
        user_id is Some && actor_of(st, user_id->0) is None ==> admin_refusal(st, user_id) == Some(
            PlatformErrorView::NotInEnterprise,
        ),
{
}

/// The platform is open to who is signed in and in a group, except from a machine that was
/// blocked; a browser is not judged by its machine.
pub proof fn platform_is_for_members(
    st: PlatformState,
    user_id: Option<Seq<char>>,
    caller: GovernanceCaller,
    blocked: bool,
)
    ensures
        member_refusal(st, user_id, caller, blocked) is None <==> user_id is Some && actor_of(
            st,
            user_id->0,
        ) is Some && (caller is BrowserSession || !blocked),
        user_id is Some && actor_of(st, user_id->0) is Some && blocked && !(
        caller is BrowserSession) ==> member_refusal(st, user_id, caller, blocked) is Some
            && member_refusal(st, user_id, caller, blocked)->0 is MachineBlocked,
{
}

} // verus!
