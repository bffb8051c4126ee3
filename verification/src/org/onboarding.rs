//! Joining a project group by email domain.
use crate::ids::is_short_id;
use crate::json::{json_texts, parse_texts, render_texts, texts_json};
use crate::org::error::{OrgError, OrgErrorView};
use crate::org::invites::{enrolled, plain_member, plain_row};
use crate::org::membership::{is_member, tenant_named, tenant_with_id};
use crate::org::models::{TenantRow, TenantRowView, ROLE_MEMBER};
use crate::org::service::{audited, newest_audit_id, username_of, OrgService, OrgState};
use crate::table::{any, find_where, first, map_rows};
use crate::text::{
    as_opt_str, lowered, opt_text, same, skip_while, slice_text, strip_leading, texts,
    to_ascii_lowercase, to_chars, trim, trimmed_text,
};
use vstd::prelude::*;

verus! {

/// What follows the last `@` of a text that has one.
pub open spec fn after_last_at(text: Seq<char>) -> Option<Seq<char>>
    decreases text.len(),
{
    if text.len() == 0 {
        None
    } else if text.last() == '@' {
        Some(Seq::empty())
    } else {
        match after_last_at(text.drop_last()) {
            Some(rest) => Some(rest.push(text.last())),
            None => None,
        }
    }
}

/// The domain of an email address, in lower case and without white space around it.
pub open spec fn email_domain(email: Seq<char>) -> Option<Seq<char>> {
    match after_last_at(email) {
        Some(rest) => if trimmed_text(rest).len() > 0 {
            Some(lowered(trimmed_text(rest)))
        } else {
            None
        },
        None => None,
    }
}

/// The domains that a stored list names.
pub open spec fn stored_domains(json: Option<Seq<char>>) -> Seq<Seq<char>> {
    match json {
        Some(text) => match json_texts(text) {
            Some(list) => list,
            None => Seq::empty(),
        },
        None => Seq::empty(),
    }
}

/// A tenant that admits people of the (lower-case) domain, whatever the case it is listed in.
pub open spec fn admits_domain(domain: Seq<char>) -> spec_fn(TenantRowView) -> bool {
    |t: TenantRowView|
        t.allowed_email_domains is Some && any(
            stored_domains(t.allowed_email_domains),
            |d: Seq<char>| lowered(d) == domain,
        )
}

/// A domain as it is stored: without white space and leading `@`, in lower case.
pub open spec fn clean_domain(raw: Seq<char>) -> Seq<char> {
    lowered(skip_while(trimmed_text(raw), |c: char| c == '@'))
}

/// The domains of a list that are not empty, as they are stored.
pub open spec fn clean_domains(list: Seq<Seq<char>>) -> Seq<Seq<char>> {
    list.map_values(|d: Seq<char>| clean_domain(d)).filter(|d: Seq<char>| d.len() > 0)
}

/// The state after a person was admitted by their email domain.
pub open spec fn auto_joined(
    st: OrgState,
    user_id: Seq<char>,
    tenant_id: Seq<char>,
    now: i64,
    audit_id: Seq<char>,
) -> OrgState {
    audited(
        enrolled(st, plain_member(user_id, tenant_id, ROLE_MEMBER@, now), now),
        audit_id,
        tenant_id,
        Some(user_id),
        username_of(st, user_id),
        "org.auto_join_domain"@,
        None,
        now,
    )
}

/// The part of an email address after its last `@`.
fn after_at(email: &str) -> (r: Option<String>)
    ensures
        opt_text(r) == after_last_at(email@),
{
    let chars = to_chars(email);
    let mut i: usize = chars.len();
    proof {
        assert(chars@.subrange(0, chars@.len() as int) =~= email@);
        assert(chars@.subrange(chars@.len() as int, chars@.len() as int) =~= Seq::empty());
        lemma_after_at_suffix(email@, Seq::empty());
    }
    while i > 0
        invariant
            chars@ == email@,
            i <= chars.len(),
            forall|j: int| i <= j < chars.len() ==> chars@[j] != '@',
        decreases i,
    {
        if chars[i - 1] == '@' {
            proof {
                let head = email@.take(i as int);
                let tail = email@.skip(i as int);
                assert(head + tail =~= email@);
                assert forall|j: int| 0 <= j < tail.len() implies tail[j] != '@' by {
                    assert(tail[j] == chars@[j + i]);
                }
                lemma_after_at_suffix(head, tail);
                assert(Seq::<char>::empty() + tail =~= tail);
                assert(chars@.subrange(i as int, chars@.len() as int) =~= tail);
            }
            return Some(slice_text(&chars, i, chars.len()));
        }
        i = i - 1;
    }
    proof {
        assert(Seq::<char>::empty() + email@ =~= email@);
        lemma_after_at_suffix(Seq::empty(), email@);
    }
    None
}

/// Characters other than `@` at the end stay what they are.
proof fn lemma_after_at_suffix(head: Seq<char>, tail: Seq<char>)
    requires
        forall|j: int| 0 <= j < tail.len() ==> tail[j] != '@',
    ensures
        after_last_at(head + tail) == match after_last_at(head) {
            Some(rest) => Some(rest + tail),
            None => None,
        },
    decreases tail.len(),
{
    if tail.len() == 0 {
        assert(head + tail =~= head);
        if let Some(rest) = after_last_at(head) {
            assert(rest + tail =~= rest);
        }
    } else {
        let all = head + tail;
        assert(all.drop_last() =~= head + tail.drop_last());
        assert(all.last() == tail.last());
        lemma_after_at_suffix(head, tail.drop_last());
        if let Some(rest) = after_last_at(head) {
            assert((rest + tail.drop_last()).push(tail.last()) =~= rest + tail);
        }
    }
}

/// The domain of an email address, for matching.
pub fn domain_of(email: &str) -> (r: Option<String>)
    ensures
        opt_text(r) == email_domain(email@),
{
    match after_at(email) {
        Some(rest) => {
            let domain = trim(rest.as_str());
            if domain.as_str().is_empty() {
                None
            } else {
                Some(to_ascii_lowercase(domain.as_str()))
            }
        },
        None => None,
    }
}

fn read_domains(json: &Option<String>) -> (r: Vec<String>)
    ensures
        texts(r@) == stored_domains(opt_text(*json)),
{
    if let Some(text) = json {
        if let Some(list) = parse_texts(text.as_str()) {
            return list;
        }
    }
    let none: Vec<String> = Vec::new();
    proof {
        assert(texts(none@) =~= Seq::empty());
    }
    none
}

fn tenant_admits(tenant: &TenantRow, domain: &str) -> (r: bool)
    ensures
        r == admits_domain(domain@)(tenant@),
{
    if tenant.allowed_email_domains.is_none() {
        return false;
    }
    let list = read_domains(&tenant.allowed_email_domains);
    let ghost all = stored_domains(tenant@.allowed_email_domains);
    let ghost p = |d: Seq<char>| lowered(d) == domain@;
    let mut i: usize = 0;
    while i < list.len()
        invariant
            texts(list@) == all,
            all == stored_domains(tenant@.allowed_email_domains),
            tenant@.allowed_email_domains is Some,
            p == (|d: Seq<char>| lowered(d) == domain@),
            i <= list.len(),
            forall|j: int| 0 <= j < i ==> !p(#[trigger] all[j]),
        decreases list.len() - i,
    {
        let low = to_ascii_lowercase(list[i].as_str());
        proof {
            assert(all[i as int] == list@[i as int]@);
        }
        if same(low.as_str(), domain) {
            proof {
                assert(p(all[i as int]));
            }
            return true;
        }
        i = i + 1;
    }
    false
}

fn clean_list(domains: &Vec<String>) -> (r: Vec<String>)
    ensures
        texts(r@) == clean_domains(texts(domains@)),
{
    let ghost all = texts(domains@).map_values(|d: Seq<char>| clean_domain(d));
    let ghost p = |d: Seq<char>| d.len() > 0;
    let mut out: Vec<String> = Vec::new();
    let mut i: usize = 0;
    proof {
        reveal(Seq::filter);
        assert(all.take(0) =~= Seq::empty());
        assert(texts(out@) =~= Seq::empty());
    }
    while i < domains.len()
        invariant
            all == texts(domains@).map_values(|d: Seq<char>| clean_domain(d)),
            p == (|d: Seq<char>| d.len() > 0),
            i <= domains.len(),
            texts(out@) == all.take(i as int).filter(p),
        decreases domains.len() - i,
    {
        let trimmed = trim(domains[i].as_str());
        let bare = strip_leading(trimmed.as_str(), '@');
        let clean = to_ascii_lowercase(bare.as_str());
        proof {
            crate::table::lemma_filter_step(all, p, i as int);
            assert(all[i as int] == clean@);
        }
        if !clean.as_str().is_empty() {
            let ghost before = out@;
            out.push(clean);
            proof {
                assert(texts(out@) =~= texts(before).push(clean@));
            }
        }
        i = i + 1;
    }
    proof {
        assert(all.take(i as int) =~= all);
    }
    out
}

impl OrgService {
    /// Sets the email domains whose people may join a group without an invite; an empty list
    /// admits nobody that way.
    pub fn set_tenant_allowed_domains(&mut self, tenant_id: &str, domains: &Vec<String>) -> (r:
        Result<(), OrgError>)
        ensures
            match r {
                Ok(_) => {
                    let clean = clean_domains(texts(domains@));
                    let stored = if clean.len() == 0 {
                        None
                    } else {
                        Some(texts_json(clean))
                    };
                    &&& any(old(self)@.tenants, tenant_with_id(tenant_id@))
                    &&& final(self)@ == (OrgState {
                        tenants: old(self)@.tenants.map_values(
                            |t: TenantRowView|
                                if t.id == tenant_id@ {
                                    TenantRowView { allowed_email_domains: stored, ..t }
                                } else {
                                    t
                                },
                        ),
                        ..old(self)@
                    })
                    &&& stored_domains(stored) == clean
                },
                Err(e) => {
                    &&& !any(old(self)@.tenants, tenant_with_id(tenant_id@))
                    &&& e@ == OrgErrorView::TenantNotFound
                    &&& final(self)@ == old(self)@
                },
            },
    {
        let clean = clean_list(domains);
        let stored: Option<String> = if clean.len() == 0 {
            None
        } else {
            Some(render_texts(&clean))
        };
        proof {
            assert(texts(clean@).len() == clean@.len());
            if clean@.len() == 0 {
                assert(texts(clean@) =~= Seq::empty());
            }
        }
        if self.tenant_at(tenant_id).is_none() {
            return Err(OrgError::TenantNotFound);
        }
        let ghost kept = opt_text(stored);
        let ghost g = |t: TenantRowView|
            if t.id == tenant_id@ {
                TenantRowView { allowed_email_domains: kept, ..t }
            } else {
                t
            };
        let u = |t: &TenantRow| -> (y: TenantRow)
            ensures
                y@ == g(t@),
            {
                let mut y = t.copy();
                if same(t.id.as_str(), tenant_id) {
                    y.allowed_email_domains = crate::text::clone_opt(&stored);
                }
                y
            };
        map_rows(&mut self.tenants, u, Ghost(g));
        Ok(())
    }

    /// The email domains whose people may join a group without an invite.
    pub fn tenant_allowed_domains(&self, tenant_id: &str) -> (r: Vec<String>)
        ensures
            texts(r@) == match tenant_named(self@, tenant_id@) {
                Some(t) => stored_domains(t.allowed_email_domains),
                None => Seq::empty(),
            },
    {
        match self.tenant_at(tenant_id) {
            Some(i) => read_domains(&self.tenants[i].allowed_email_domains),
            None => read_domains(&None),
        }
    }

    /// Admits a person to the first group that lists their email domain. `None` where no group
    /// does or the person is in it already.
    pub fn auto_join_by_email(&mut self, user_id: &str, email: &str, now: i64) -> (r: Option<
        String,
    >)
        ensures
            match auto_join_target(old(self)@, user_id@, email@) {
                Some(tenant_id) => {
                    &&& opt_text(r) == Some(tenant_id)
                    &&& final(self)@ == auto_joined(
                        old(self)@,
                        user_id@,
                        tenant_id,
                        now,
                        newest_audit_id(final(self)@),
                    )
                    &&& is_short_id("audit"@, newest_audit_id(final(self)@))
                },
                None => r is None && final(self)@ == old(self)@,
            },
    {
        let domain = match domain_of(email) {
            Some(domain) => domain,
            None => {
                return None;
            },
        };
        let f = |t: &TenantRow| -> (b: bool)
            ensures
                b == admits_domain(domain@)(t@),
            { tenant_admits(t, domain.as_str()) };
        let at: usize = match find_where(&self.tenants, f, Ghost(admits_domain(domain@))) {
            Some(i) => i,
            None => {
                return None;
            },
        };
        let tenant_id = self.tenants[at].id.clone();
        if self.has_membership(user_id, tenant_id.as_str()) {
            return None;
        }
        let username = self.lookup_username(user_id);
        let row = plain_row(user_id, tenant_id.as_str(), ROLE_MEMBER, now);
        self.enroll(row, now);
        self.audit(
            tenant_id.as_str(),
            Some(user_id),
            as_opt_str(&username),
            "org.auto_join_domain",
            None,
            now,
        );
        Some(tenant_id)
    }
}

/// The group that a person is admitted to by their email domain.
pub open spec fn auto_join_target(st: OrgState, user_id: Seq<char>, email: Seq<char>) -> Option<
    Seq<char>,
> {
    match email_domain(email) {
        Some(domain) => match first(st.tenants, admits_domain(domain)) {
            Some(t) => if is_member(st, user_id, t.id) {
                None
            } else {
                Some(t.id)
            },
            None => None,
        },
        None => None,
    }
}

} // verus!
