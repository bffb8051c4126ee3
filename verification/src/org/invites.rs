//! Invites, and joining a project group by code or by email domain.
use crate::ids::{generate_invite_code, is_short_id, short_id, upper_hex_char};
use crate::org::codes::{
    display_code, format_invite_code_for_display, normalize_invite_code, normalized_code,
};
use crate::org::error::{OrgError, OrgErrorView};
use crate::org::membership::{is_member, pointed, tenant_named};
use crate::org::models::{
    invite_dto, InviteDto, InviteDtoView, InviteRow, InviteRowView, SsoIdentityRow,
    SsoIdentityRowView, TenantRowView, UserOrgRow, UserOrgRowView, ROLE_MEMBER,
};
use crate::org::service::{
    audited, newest_audit_id, session_ended, username_of, OrgService, OrgState,
};
use crate::table::{
    any, any_where, done, find_where, first, least, least_where, lemma_first, lemma_first_prefix,
    list_where, lists, map_rows, views,
};
use crate::text::{as_opt_str, clone_opt, opt_text, same};
use vstd::prelude::*;
use vstd::string::*;

verus! {

pub open spec fn invite_with_code(code: Seq<char>) -> spec_fn(InviteRowView) -> bool {
    |r: InviteRowView| r.code == code
}

pub open spec fn invite_key(invite_id: Seq<char>, tenant_id: Seq<char>) -> spec_fn(
    InviteRowView,
) -> bool {
    |r: InviteRowView| r.id == invite_id && r.tenant_id == tenant_id
}

pub open spec fn invites_of(tenant_id: Seq<char>) -> spec_fn(InviteRowView) -> bool {
    |r: InviteRowView| r.tenant_id == tenant_id
}

pub open spec fn newest_invite_first() -> spec_fn(InviteRowView, InviteRowView) -> bool {
    |a: InviteRowView, b: InviteRowView| a.created_at >= b.created_at
}

/// An invite with this identifier that still admits someone.
pub open spec fn claimable(invite_id: Seq<char>, now: i64) -> spec_fn(InviteRowView) -> bool {
    |r: InviteRowView| r.id == invite_id && r.active(now)
}

/// The invites after one use of the named one.
pub open spec fn claimed(invites: Seq<InviteRowView>, invite_id: Seq<char>, now: i64) -> Seq<
    InviteRowView,
> {
    invites.map_values(
        |r: InviteRowView|
            if claimable(invite_id, now)(r) {
                InviteRowView { use_count: (r.use_count + 1) as i64, ..r }
            } else {
                r
            },
    )
}

/// The named invite, where it still admits someone, has not been used as often as can be counted.
pub open spec fn uses_countable(
    invites: Seq<InviteRowView>,
    invite_id: Seq<char>,
    now: i64,
) -> bool {
    forall|i: int|
        0 <= i < invites.len() && claimable(invite_id, now)(#[trigger] invites[i])
            ==> invites[i].use_count < i64::MAX
}

/// The invite that a code stands for, if it still admits someone.
pub open spec fn usable_invite(st: OrgState, code: Seq<char>, now: i64) -> Option<InviteRowView> {
    match first(st.invites, invite_with_code(code)) {
        Some(invite) => if invite.active(now) {
            Some(invite)
        } else {
            None
        },
        None => None,
    }
}

/// When an invite made now lapses; a number of days that is not positive means never.
pub open spec fn expiry(now: i64, expires_in_days: Option<i64>) -> Option<i64> {
    match expires_in_days {
        Some(days) => if days > 0 {
            Some((now + days * 86_400_000) as i64)
        } else {
            None
        },
        None => None,
    }
}

/// The expiry time can be counted in milliseconds.
pub open spec fn expiry_fits(now: i64, expires_in_days: Option<i64>) -> bool {
    expires_in_days matches Some(days) ==> days > 0 ==> days * 86_400_000 <= i64::MAX && now + days
        * 86_400_000 <= i64::MAX
}

pub open spec fn new_invite(
    id: Seq<char>,
    tenant_id: Seq<char>,
    code: Seq<char>,
    created_by: Seq<char>,
    max_uses: Option<i64>,
    expires_in_days: Option<i64>,
    now: i64,
) -> InviteRowView {
    InviteRowView {
        id,
        tenant_id,
        code,
        created_by,
        max_uses,
        use_count: 0,
        expires_at: expiry(now, expires_in_days),
        created_at: now,
        revoked: 0,
    }
}

/// Whether a text has the shape of a generated invite code.
pub open spec fn generated_code(code: Seq<char>) -> bool {
    code.len() == 16 && forall|i: int| 0 <= i < 16 ==> upper_hex_char(#[trigger] code[i])
}

/// No two invites share a code.
pub open spec fn unique_codes(invites: Seq<InviteRowView>) -> bool {
    forall|i: int, j: int|
        0 <= i < invites.len() && 0 <= j < invites.len() && i != j ==> (#[trigger] invites[i]).code
            != (#[trigger] invites[j]).code
}

/// A drawn code that an invite has already. `None` is a draw for which there was no entropy.
pub open spec fn in_use(invites: Seq<InviteRowView>, draw: Option<Seq<char>>) -> bool {
    draw matches Some(code) && any(invites, invite_with_code(code))
}

/// The code that a series of draws gives: the first that is not in use. A draw without entropy
/// before that ends the search, and so does the end of the series.
pub open spec fn picked(invites: Seq<InviteRowView>, drawn: Seq<Option<Seq<char>>>) -> Result<
    Seq<char>,
    OrgErrorView,
> {
    match first(drawn, |draw: Option<Seq<char>>| !in_use(invites, draw)) {
        Some(Some(code)) => Ok(code),
        Some(None) => Err(OrgErrorView::Internal("OS entropy source unavailable"@)),
        None => Err(OrgErrorView::Internal("no unused invite code was drawn"@)),
    }
}

/// A series of draws as it is made: a code is drawn again while it is in use, and no more than six
/// times.
pub open spec fn drawn_for(invites: Seq<InviteRowView>, drawn: Seq<Option<Seq<char>>>) -> bool {
    &&& 0 < drawn.len() <= 6
    &&& forall|k: int|
        0 <= k < drawn.len() ==> (#[trigger] drawn[k] matches Some(code) ==> generated_code(code))
    &&& forall|k: int| 0 <= k < drawn.len() - 1 ==> in_use(invites, #[trigger] drawn[k])
    &&& drawn.len() < 6 ==> !in_use(invites, drawn.last())
}

/// A result that some series of draws gives.
pub open spec fn drew(invites: Seq<InviteRowView>, r: Result<Seq<char>, OrgErrorView>) -> bool {
    exists|drawn: Seq<Option<Seq<char>>>|
        drawn_for(invites, drawn) && #[trigger] picked(invites, drawn) == r
}

/// Draws, each taken by its view.
pub open spec fn draws(drawn: Seq<Option<String>>) -> Seq<Option<Seq<char>>> {
    drawn.map_values(|draw: Option<String>| opt_text(draw))
}

pub open spec fn sso_of(user_id: Seq<char>) -> spec_fn(SsoIdentityRowView) -> bool {
    |r: SsoIdentityRowView| r.user_id == user_id
}

pub open spec fn last_seen_first() -> spec_fn(SsoIdentityRowView, SsoIdentityRowView) -> bool {
    |a: SsoIdentityRowView, b: SsoIdentityRowView| a.last_seen_at >= b.last_seen_at
}

/// The profile that an identity provider reported last for a person.
pub open spec fn sso_profile(st: OrgState, user_id: Seq<char>) -> Option<SsoIdentityRowView> {
    least(st.sso_identities, sso_of(user_id), last_seen_first())
}

/// A new membership that carries the person's identity-provider profile, where there is one.
pub open spec fn profiled_member(
    st: OrgState,
    user_id: Seq<char>,
    tenant_id: Seq<char>,
    role: Seq<char>,
    now: i64,
) -> UserOrgRowView {
    match sso_profile(st, user_id) {
        Some(p) => UserOrgRowView {
            user_id,
            tenant_id,
            role,
            display_name: p.display_name,
            org_unit_path: p.org_unit_path,
            job_title: p.job_title,
            org_profile_source: Some(p.provider),
            org_profile_synced_at: Some(now),
            department_id: None,
            created_at: now,
            updated_at: now,
        },
        None => plain_member(user_id, tenant_id, role, now),
    }
}

/// A new membership without a profile.
pub open spec fn plain_member(
    user_id: Seq<char>,
    tenant_id: Seq<char>,
    role: Seq<char>,
    now: i64,
) -> UserOrgRowView {
    UserOrgRowView {
        user_id,
        tenant_id,
        role,
        display_name: None,
        org_unit_path: None,
        job_title: None,
        org_profile_source: None,
        org_profile_synced_at: None,
        department_id: None,
        created_at: now,
        updated_at: now,
    }
}

/// The state with a new membership, which becomes the group that the person acts in, and with
/// that person's sessions ended.
pub open spec fn enrolled(st: OrgState, member: UserOrgRowView, now: i64) -> OrgState {
    session_ended(
        OrgState {
            members: st.members.push(member),
            active: pointed(st.active, member.user_id, member.tenant_id, now),
            ..st
        },
        member.user_id,
    )
}

/// The state after a person used an invite.
pub open spec fn joined(
    st: OrgState,
    user_id: Seq<char>,
    invite: InviteRowView,
    now: i64,
    audit_id: Seq<char>,
) -> OrgState {
    let member = profiled_member(st, user_id, invite.tenant_id, ROLE_MEMBER@, now);
    let used = OrgState { invites: claimed(st.invites, invite.id, now), ..st };
    audited(
        enrolled(used, member, now),
        audit_id,
        invite.tenant_id,
        Some(user_id),
        username_of(st, user_id),
        "org.join"@,
        Some(invite.id),
        now,
    )
}

/// A request to join with an invite code, at a time, and the identifier of the entry that it makes
/// in the audit log.
pub struct JoinAttempt {
    pub user_id: Seq<char>,
    pub code: Seq<char>,
    pub now: i64,
    pub audit_id: Seq<char>,
}

/// The invite that a request to join uses, if it uses one.
pub open spec fn joins(st: OrgState, a: JoinAttempt) -> Option<InviteRowView> {
    match usable_invite(st, normalized_code(a.code), a.now) {
        Some(invite) => if is_member(st, a.user_id, invite.tenant_id) {
            None
        } else {
            Some(invite)
        },
        None => None,
    }
}

/// The state after a request to join.
pub open spec fn after_join(st: OrgState, a: JoinAttempt) -> OrgState {
    match joins(st, a) {
        Some(invite) => joined(st, a.user_id, invite, a.now, a.audit_id),
        None => st,
    }
}

/// The group that a request to join leads to, or why it fails.
pub open spec fn join_result(st: OrgState, a: JoinAttempt) -> Result<
    TenantRowView,
    OrgErrorView,
> {
    match usable_invite(st, normalized_code(a.code), a.now) {
        None => Err(OrgErrorView::InvalidCode),
        Some(invite) => if is_member(st, a.user_id, invite.tenant_id) {
            Err(OrgErrorView::AlreadyInEnterprise)
        } else {
            match tenant_named(st, invite.tenant_id) {
                Some(t) => Ok(t),
                None => Err(OrgErrorView::TenantNotFound),
            }
        },
    }
}

/// The invites of a group as listed, newest first.
pub open spec fn invites_shown(
    st: OrgState,
    tenant_id: Seq<char>,
    out: Seq<InviteDtoView>,
) -> bool {
    lists(
        out,
        st.invites,
        invites_of(tenant_id),
        newest_invite_first(),
        |r: InviteRowView| invite_dto(r),
    )
}

/// What revoking an invite does and how it is answered.
pub open spec fn invite_revoked(
    before: OrgState,
    after: OrgState,
    tenant_id: Seq<char>,
    invite_id: Seq<char>,
    r: Result<(), OrgErrorView>,
) -> bool {
    match r {
        Ok(_) => {
            &&& any(before.invites, invite_key(invite_id, tenant_id))
            &&& after == (OrgState {
                invites: before.invites.map_values(
                    |r: InviteRowView|
                        if invite_key(invite_id, tenant_id)(r) {
                            InviteRowView { revoked: 1, ..r }
                        } else {
                            r
                        },
                ),
                ..before
            })
        },
        Err(e) => {
            &&& !any(before.invites, invite_key(invite_id, tenant_id))
            &&& e == OrgErrorView::InvalidCode
            &&& after == before
        },
    }
}

/// How a look at a code is answered.
pub open spec fn invite_previewed(
    st: OrgState,
    raw: Seq<char>,
    now: i64,
    r: Result<(), OrgErrorView>,
) -> bool {
    let code = normalized_code(raw);
    let usable = vstd::utf8::encode_utf8(code).len() as usize >= 6 && usable_invite(
        st,
        code,
        now,
    ) is Some;
    match r {
        Ok(_) => usable,
        Err(e) => !usable && e == OrgErrorView::InvalidCode,
    }
}

impl OrgService {
    pub(crate) fn find_active_invite_by_code(&self, code: &str, now: i64) -> (r: Option<usize>)
        ensures
            match r {
                Some(i) => i < self.invites.len() && usable_invite(self@, code@, now) == Some(
                    self.invites@[i as int]@,
                ),
                None => usable_invite(self@, code@, now) is None,
            },
    {
        let f = |r: &InviteRow| -> (b: bool)
            ensures
                b == invite_with_code(code@)(r@),
            { same(r.code.as_str(), code) };
        match find_where(&self.invites, f, Ghost(invite_with_code(code@))) {
            Some(i) => if self.invites[i].is_active(now) {
                Some(i)
            } else {
                None
            },
            None => None,
        }
    }

    /// Says whether a code could be used, and nothing about what it admits to.
    pub fn preview_invite(&self, code_raw: &str, now: i64) -> (r: Result<(), OrgError>)
        ensures
            invite_previewed(self@, code_raw@, now, done(r)),
    {
        let code = normalize_invite_code(code_raw);
        if code.as_str().len() < 6 {
            return Err(OrgError::InvalidCode);
        }
        match self.find_active_invite_by_code(code.as_str(), now) {
            Some(_) => Ok(()),
            None => Err(OrgError::InvalidCode),
        }
    }

    pub fn has_code(&self, code: &str) -> (r: bool)
        ensures
            r == any(self@.invites, invite_with_code(code@)),
    {
        let f = |r: &InviteRow| -> (b: bool)
            ensures
                b == invite_with_code(code@)(r@),
            { same(r.code.as_str(), code) };
        any_where(&self.invites, f, Ghost(invite_with_code(code@)))
    }

    /// The code to use of a series of draws.
    pub fn pick_code(&self, drawn: &Vec<Option<String>>) -> (r: Result<String, OrgError>)
        ensures
            match picked(self@.invites, draws(drawn@)) {
                Ok(code) => r matches Ok(c) && c@ == code,
                Err(why) => r matches Err(e) && e@ == why,
            },
    {
        let ghost all = draws(drawn@);
        let ghost invites = self@.invites;
        let ghost open = |draw: Option<Seq<char>>| !in_use(invites, draw);
        let mut i: usize = 0;
        while i < drawn.len()
            invariant
                invites == self@.invites,
                open == (|draw: Option<Seq<char>>| !in_use(invites, draw)),
                all == draws(drawn@),
                i <= drawn.len(),
                first(all.take(i as int), open) is None,
            decreases drawn.len() - i,
        {
            proof {
                assert(all.take(i + 1).drop_last() =~= all.take(i as int));
                if open(all[i as int]) {
                    lemma_first_prefix(all, open, i as int);
                }
            }
            match &drawn[i] {
                Some(code) => {
                    if !self.has_code(code.as_str()) {
                        return Ok(code.clone());
                    }
                },
                None => {
                    return Err(OrgError::Internal("OS entropy source unavailable".to_owned()));
                },
            }
            i = i + 1;
        }
        proof {
            assert(all.take(i as int) =~= all);
        }
        Err(OrgError::Internal("no unused invite code was drawn".to_owned()))
    }

    /// Draws codes until one is not in use, at most six.
    fn draw_codes(&self) -> (drawn: Vec<Option<String>>)
        ensures
            drawn_for(self@.invites, draws(drawn@)),
    {
        let mut drawn: Vec<Option<String>> = Vec::new();
        loop
            invariant
                drawn.len() < 6,
                forall|k: int|
                    0 <= k < drawn.len() ==> ((#[trigger] draws(drawn@)[k]) matches Some(code)
                        ==> generated_code(code)),
                forall|k: int|
                    0 <= k < drawn.len() ==> in_use(
                        self@.invites,
                        #[trigger] draws(drawn@)[k],
                    ),
            decreases 6 - drawn.len(),
        {
            let draw = generate_invite_code();
            let done = match &draw {
                Some(code) => !self.has_code(code.as_str()),
                None => true,
            };
            let ghost before = draws(drawn@);
            drawn.push(draw);
            proof {
                assert(draws(drawn@) =~= before.push(opt_text(draw)));
            }
            if done || drawn.len() == 6 {
                return drawn;
            }
        }
    }

    /// A random code that no invite has.
    fn fresh_code(&self) -> (r: Result<String, OrgError>)
        ensures
            match r {
                Ok(code) => {
                    &&& generated_code(code@)
                    &&& !any(self@.invites, invite_with_code(code@))
                    &&& drew(self@.invites, Ok(code@))
                },
                Err(e) => drew(self@.invites, Err(e@)),
            },
    {
        let drawn = self.draw_codes();
        proof {
            let invites = self@.invites;
            let all = draws(drawn@);
            let open = |draw: Option<Seq<char>>| !in_use(invites, draw);
            lemma_first(all, open);
            assert(picked(invites, all) == picked(invites, draws(drawn@)));
        }
        self.pick_code(&drawn)
    }

    /// Stores an invite under the given identifier and code.
    pub fn insert_invite(
        &mut self,
        id: String,
        tenant_id: &str,
        code: String,
        created_by: &str,
        max_uses: Option<i64>,
        expires_in_days: Option<i64>,
        now: i64,
    ) -> (r: (InviteDto, String))
        requires
            expiry_fits(now, expires_in_days),
        ensures
            ({
                let row = new_invite(
                    id@,
                    tenant_id@,
                    code@,
                    created_by@,
                    max_uses,
                    expires_in_days,
                    now,
                );
                &&& final(self)@ == (OrgState {
                    invites: old(self)@.invites.push(row),
                    ..old(self)@
                })
                &&& r.0@ == invite_dto(row)
                &&& r.1@ == display_code(code@)
            }),
    {
        let expires_at: Option<i64> = match expires_in_days {
            Some(days) => if days > 0 {
                Some(now + days * 86_400_000)
            } else {
                None
            },
            None => None,
        };
        let ghost before = self@.invites;
        let row = InviteRow {
            id,
            tenant_id: tenant_id.to_owned(),
            code,
            created_by: created_by.to_owned(),
            max_uses,
            use_count: 0,
            expires_at,
            created_at: now,
            revoked: 0,
        };
        let dto = InviteDto::of(&row);
        let display = format_invite_code_for_display(row.code.as_str());
        self.invites.push(row);
        proof {
            assert(self@.invites =~= before.push(row@));
        }
        (dto, display)
    }

    /// Makes an invite for a project group, under a fresh identifier and a random code.
    pub fn create_invite(
        &mut self,
        tenant_id: &str,
        created_by: &str,
        max_uses: Option<i64>,
        expires_in_days: Option<i64>,
        now: i64,
    ) -> (r: Result<(InviteDto, String), OrgError>)
        requires
            expiry_fits(now, expires_in_days),
        ensures
            match r {
                Ok((dto, display)) => {
                    let row = new_invite(
                        dto@.id,
                        tenant_id@,
                        dto@.code,
                        created_by@,
                        max_uses,
                        expires_in_days,
                        now,
                    );
                    &&& tenant_named(old(self)@, tenant_id@) is Some
                    &&& is_short_id("inv"@, dto@.id)
                    &&& generated_code(dto@.code)
                    &&& !any(old(self)@.invites, invite_with_code(dto@.code))
                    &&& drew(old(self)@.invites, Ok(dto@.code))
                    &&& dto@ == invite_dto(row)
                    &&& display@ == display_code(dto@.code)
                    &&& final(self)@ == (OrgState {
                        invites: old(self)@.invites.push(row),
                        ..old(self)@
                    })
                },
                Err(e) => {
                    &&& final(self)@ == old(self)@
                    &&& if tenant_named(old(self)@, tenant_id@) is None {
                        e@ == OrgErrorView::TenantNotFound
                    } else {
                        drew(old(self)@.invites, Err(e@))
                    }
                },
            },
            tenant_named(old(self)@, tenant_id@) is None ==> r is Err,
            unique_codes(old(self)@.invites) ==> unique_codes(final(self)@.invites),
    {
        if self.tenant_at(tenant_id).is_none() {
            return Err(OrgError::TenantNotFound);
        }
        let code = match self.fresh_code() {
            Ok(code) => code,
            Err(e) => {
                return Err(e);
            },
        };
        let id = short_id("inv");
        proof {
            assert forall|i: int| 0 <= i < self@.invites.len() implies (
            #[trigger] self@.invites[i]).code != code@ by {
                assert(!invite_with_code(code@)(self@.invites[i]));
            }
        }
        Ok(self.insert_invite(id, tenant_id, code, created_by, max_uses, expires_in_days, now))
    }

    /// Makes several invites at once, at least one and at most a hundred, each with its own code.
    pub fn create_invites_bulk(
        &mut self,
        tenant_id: &str,
        created_by: &str,
        count: usize,
        max_uses: Option<i64>,
        expires_in_days: Option<i64>,
        now: i64,
    ) -> (r: Result<Vec<(InviteDto, String)>, OrgError>)
        requires
            expiry_fits(now, expires_in_days),
        ensures
            final(self)@ == (OrgState { invites: final(self)@.invites, ..old(self)@ }),
            match r {
                Ok(list) => {
                    &&& tenant_named(old(self)@, tenant_id@) is Some
                    &&& list.len() == bulk_size(count)
                    &&& made_invites(
                        final(self)@.invites,
                        old(self)@.invites,
                        list@,
                        tenant_id@,
                        created_by@,
                        max_uses,
                        expires_in_days,
                        now,
                    )
                },
                Err(e) => if tenant_named(old(self)@, tenant_id@) is None {
                    e@ == OrgErrorView::TenantNotFound && final(self)@ == old(self)@
                } else {
                    drew(final(self)@.invites, Err(e@)) && exists|
                        list: Seq<(InviteDto, String)>,
                    |
                        list.len() < bulk_size(count) && #[trigger] made_invites(
                            final(self)@.invites,
                            old(self)@.invites,
                            list,
                            tenant_id@,
                            created_by@,
                            max_uses,
                            expires_in_days,
                            now,
                        )
                },
            },
            tenant_named(old(self)@, tenant_id@) is None ==> r is Err,
            unique_codes(old(self)@.invites) ==> unique_codes(final(self)@.invites),
    {
        let total: usize = if count < 1 {
            1
        } else if count > 100 {
            100
        } else {
            count
        };
        let mut out: Vec<(InviteDto, String)> = Vec::new();
        let ghost start = self@;
        while out.len() < total
            invariant
                expiry_fits(now, expires_in_days),
                start == old(self)@,
                total == bulk_size(count),
                out.len() <= total,
                out.len() > 0 ==> tenant_named(start, tenant_id@) is Some,
                unique_codes(start.invites) ==> unique_codes(self@.invites),
                self@ == (OrgState { invites: self@.invites, ..start }),
                made_invites(
                    self@.invites,
                    start.invites,
                    out@,
                    tenant_id@,
                    created_by@,
                    max_uses,
                    expires_in_days,
                    now,
                ),
            decreases total - out.len(),
        {
            let ghost before = self@.invites;
            match self.create_invite(tenant_id, created_by, max_uses, expires_in_days, now) {
                Ok(pair) => {
                    out.push(pair);
                    proof {
                        assert(forall|i: int|
                            0 <= i < start.invites.len() ==> #[trigger] self@.invites[i]
                                == before[i]);
                        assert(self@.invites.take(before.len() as int) =~= before);
                        assert forall|i: int| 0 <= i < out@.len() - 1 implies self@.invites.take(
                            start.invites.len() + i,
                        ) == #[trigger] before.take(start.invites.len() + i) by {
                            assert(self@.invites.take(start.invites.len() + i) =~= before.take(
                                start.invites.len() + i,
                            ));
                        }
                    }
                },
                Err(e) => {
                    proof {
                        if tenant_named(start, tenant_id@) is None {
                            assert(self@.invites =~= start.invites);
                        }
                        assert(made_invites(
                            self@.invites,
                            start.invites,
                            out@,
                            tenant_id@,
                            created_by@,
                            max_uses,
                            expires_in_days,
                            now,
                        ));
                    }
                    return Err(e);
                },
            }
        }
        Ok(out)
    }

    /// The invites of a project group, newest first.
    pub fn list_invites(&self, tenant_id: &str) -> (out: Vec<InviteDto>)
        ensures
            invites_shown(self@, tenant_id@, views(out@)),
    {
        let f = |r: &InviteRow| -> (b: bool)
            ensures
                b == invites_of(tenant_id@)(r@),
            { same(r.tenant_id.as_str(), tenant_id) };
        let l = |a: &InviteRow, b: &InviteRow| -> (c: bool)
            ensures
                c == newest_invite_first()(a@, b@),
            { a.created_at >= b.created_at };
        let mk = |r: &InviteRow| -> (d: InviteDto)
            ensures
                d@ == invite_dto(r@),
            { InviteDto::of(r) };
        list_where(
            &self.invites,
            f,
            l,
            mk,
            Ghost(invites_of(tenant_id@)),
            Ghost(newest_invite_first()),
            Ghost(|r: InviteRowView| invite_dto(r)),
        )
    }

    /// Withdraws an invite of a project group.
    pub fn revoke_invite(&mut self, tenant_id: &str, invite_id: &str) -> (r: Result<(), OrgError>)
        ensures
            invite_revoked(old(self)@, final(self)@, tenant_id@, invite_id@, done(r)),
    {
        let f = |r: &InviteRow| -> (b: bool)
            ensures
                b == invite_key(invite_id@, tenant_id@)(r@),
            { same(r.id.as_str(), invite_id) && same(r.tenant_id.as_str(), tenant_id) };
        if !any_where(&self.invites, f, Ghost(invite_key(invite_id@, tenant_id@))) {
            return Err(OrgError::InvalidCode);
        }
        let ghost g = |r: InviteRowView|
            if invite_key(invite_id@, tenant_id@)(r) {
                InviteRowView { revoked: 1, ..r }
            } else {
                r
            };
        let u = |r: &InviteRow| -> (y: InviteRow)
            ensures
                y@ == g(r@),
            {
                let mut y = r.copy();
                if same(r.id.as_str(), invite_id) && same(r.tenant_id.as_str(), tenant_id) {
                    y.revoked = 1;
                }
                y
            };
        map_rows(&mut self.invites, u, Ghost(g));
        Ok(())
    }

    /// Counts one use of an invite that still admits someone. `false` where it does not: it was
    /// used up, withdrawn or lapsed in the meantime.
    pub fn claim_invite(&mut self, invite_id: &str, now: i64) -> (r: bool)
        requires
            uses_countable(old(self)@.invites, invite_id@, now),
        ensures
            r == any(old(self)@.invites, claimable(invite_id@, now)),
            final(self)@ == (OrgState {
                invites: claimed(old(self)@.invites, invite_id@, now),
                ..old(self)@
            }),
    {
        let f = |r: &InviteRow| -> (b: bool)
            ensures
                b == claimable(invite_id@, now)(r@),
            { same(r.id.as_str(), invite_id) && r.is_active(now) };
        let found = any_where(&self.invites, f, Ghost(claimable(invite_id@, now)));
        let ghost before = self@.invites;
        let mut i: usize = 0;
        while i < self.invites.len()
            invariant
                uses_countable(before, invite_id@, now),
                i <= self.invites.len(),
                self.invites.len() == before.len(),
                self@ == (OrgState { invites: self@.invites, ..old(self)@ }),
                forall|j: int|
                    0 <= j < i ==> #[trigger] self@.invites[j] == claimed(
                        before,
                        invite_id@,
                        now,
                    )[j],
                forall|j: int| i <= j < before.len() ==> #[trigger] self@.invites[j] == before[j],
            decreases self.invites.len() - i,
        {
            proof {
                assert(self@.invites[i as int] == before[i as int]);
            }
            let hit = same(self.invites[i].id.as_str(), invite_id) && self.invites[i].is_active(
                now,
            );
            if hit {
                proof {
                    assert(claimable(invite_id@, now)(before[i as int]));
                }
                let ghost was = self@.invites;
                let mut row = self.invites[i].copy();
                row.use_count = row.use_count + 1;
                self.invites[i] = row;
                proof {
                    assert(self@.invites =~= was.update(i as int, row@));
                }
            }
            i = i + 1;
        }
        proof {
            assert(self@.invites =~= claimed(before, invite_id@, now));
        }
        found
    }

    /// A new membership with the person's identity-provider profile.
    pub(crate) fn profiled_row(
        &self,
        user_id: &str,
        tenant_id: &str,
        role: &str,
        now: i64,
    ) -> (r: UserOrgRow)
        ensures
            r@ == profiled_member(self@, user_id@, tenant_id@, role@, now),
    {
        let f = |r: &SsoIdentityRow| -> (b: bool)
            ensures
                b == sso_of(user_id@)(r@),
            { same(r.user_id.as_str(), user_id) };
        let l = |a: &SsoIdentityRow, b: &SsoIdentityRow| -> (c: bool)
            ensures
                c == last_seen_first()(a@, b@),
            { a.last_seen_at >= b.last_seen_at };
        let at = least_where(
            &self.sso_identities,
            f,
            l,
            Ghost(sso_of(user_id@)),
            Ghost(last_seen_first()),
        );
        let mut row = plain_row(user_id, tenant_id, role, now);
        if let Some(i) = at {
            let profile = &self.sso_identities[i];
            row.display_name = clone_opt(&profile.display_name);
            row.org_unit_path = clone_opt(&profile.org_unit_path);
            row.job_title = clone_opt(&profile.job_title);
            row.org_profile_source = Some(profile.provider.clone());
            row.org_profile_synced_at = Some(now);
        }
        row
    }

    /// Stores a membership, makes it the one the person acts in and ends their sessions.
    pub(crate) fn enroll(&mut self, row: UserOrgRow, now: i64)
        ensures
            final(self)@ == enrolled(old(self)@, row@, now),
    {
        let user_id = row.user_id.clone();
        let tenant_id = row.tenant_id.clone();
        let ghost before = self@.members;
        self.members.push(row);
        proof {
            assert(self@.members =~= before.push(row@));
        }
        self.point_active(user_id.as_str(), tenant_id.as_str(), now);
        self.invalidate_user_tokens(user_id.as_str());
    }

    /// Joins a project group with an invite code. The result names the group and the company
    /// that owns it.
    pub fn join_with_invite(&mut self, user_id: &str, code_raw: &str, now: i64) -> (r: Result<
        (String, String, Option<String>),
        OrgError,
    >)
        requires
            usable_invite(old(self)@, normalized_code(code_raw@), now) matches Some(invite)
                ==> uses_countable(old(self)@.invites, invite.id, now),
        ensures
            ({
                let attempt = JoinAttempt {
                    user_id: user_id@,
                    code: code_raw@,
                    now,
                    audit_id: newest_audit_id(final(self)@),
                };
                &&& final(self)@ == after_join(old(self)@, attempt)
                &&& joins(old(self)@, attempt) is Some ==> is_short_id(
                    "audit"@,
                    newest_audit_id(final(self)@),
                )
                &&& match join_result(old(self)@, attempt) {
                    Ok(t) => r matches Ok(v) && v.0@ == t.id && v.1@ == t.name && opt_text(v.2)
                        == t.enterprise_id,
                    Err(why) => r matches Err(e) && e@ == why,
                }
            }),
    {
        let code = normalize_invite_code(code_raw);
        let at: usize = match self.find_active_invite_by_code(code.as_str(), now) {
            Some(i) => i,
            None => {
                return Err(OrgError::InvalidCode);
            },
        };
        let ghost invite = self.invites@[at as int]@;
        let invite_id = self.invites[at].id.clone();
        let tenant_id = self.invites[at].tenant_id.clone();
        if self.has_membership(user_id, tenant_id.as_str()) {
            return Err(OrgError::AlreadyInEnterprise);
        }
        let row = self.profiled_row(user_id, tenant_id.as_str(), ROLE_MEMBER, now);
        let username = self.lookup_username(user_id);
        proof {
            crate::table::lemma_first(old(self)@.invites, invite_with_code(code@));
            assert(claimable(invite.id, now)(self@.invites[at as int]));
        }
        if !self.claim_invite(invite_id.as_str(), now) {
            return Err(OrgError::InvalidCode);
        }
        self.enroll(row, now);
        self.audit(
            tenant_id.as_str(),
            Some(user_id),
            as_opt_str(&username),
            "org.join",
            Some(invite_id.as_str()),
            now,
        );
        match self.tenant_at(tenant_id.as_str()) {
            Some(i) => Ok(
                (
                    self.tenants[i].id.clone(),
                    self.tenants[i].name.clone(),
                    clone_opt(&self.tenants[i].enterprise_id),
                ),
            ),
            None => Err(OrgError::TenantNotFound),
        }
    }
}

/// How many invites a bulk request makes.
pub open spec fn bulk_size(count: usize) -> int {
    if count < 1 {
        1
    } else if count > 100 {
        100
    } else {
        count as int
    }
}

/// The invites are those from before and, in order, the ones that were handed out, each with a
/// code that was drawn for it and that no earlier invite has.
pub open spec fn made_invites(
    now_stored: Seq<InviteRowView>,
    before: Seq<InviteRowView>,
    made: Seq<(InviteDto, String)>,
    tenant_id: Seq<char>,
    created_by: Seq<char>,
    max_uses: Option<i64>,
    expires_in_days: Option<i64>,
    now: i64,
) -> bool {
    &&& now_stored.len() == before.len() + made.len()
    &&& forall|i: int| 0 <= i < before.len() ==> #[trigger] now_stored[i] == before[i]
    &&& forall|i: int|
        0 <= i < made.len() ==> {
            let dto = (#[trigger] made[i]).0@;
            &&& now_stored[before.len() + i] == new_invite(
                dto.id,
                tenant_id,
                dto.code,
                created_by,
                max_uses,
                expires_in_days,
                now,
            )
            &&& dto == invite_dto(now_stored[before.len() + i])
            &&& made[i].1@ == display_code(dto.code)
            &&& is_short_id("inv"@, dto.id)
            &&& generated_code(dto.code)
            &&& !any(now_stored.take(before.len() + i), invite_with_code(dto.code))
            &&& drew(now_stored.take(before.len() + i), Ok(dto.code))
        }
}

pub(crate) fn plain_row(user_id: &str, tenant_id: &str, role: &str, now: i64) -> (r: UserOrgRow)
    ensures
        r@ == plain_member(user_id@, tenant_id@, role@, now),
{
    UserOrgRow {
        user_id: user_id.to_owned(),
        tenant_id: tenant_id.to_owned(),
        role: role.to_owned(),
        display_name: None,
        org_unit_path: None,
        job_title: None,
        org_profile_source: None,
        org_profile_synced_at: None,
        department_id: None,
        created_at: now,
        updated_at: now,
    }
}

} // verus!
