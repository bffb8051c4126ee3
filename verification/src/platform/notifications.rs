//! Messages to the members of a group.
use crate::org::membership::{member_key, of_tenant};
use crate::org::models::UserOrgRow;
use crate::platform::error::{bad_request, not_found, PlatformError, PlatformErrorView};
use crate::platform::models::{
    MyNotificationDto, MyNotificationDtoView, MyNotificationsDto, MyNotificationsDtoView,
    NotificationDto, NotificationDtoView, NotificationRow, NotificationRowView, ReadRow,
    ReadRowView, RecipientRow, RecipientRowView,
};
use crate::platform::service::{PlatformService, PlatformState};
use crate::table::{
    answer, any, any_where, count_where, done, find_where, first, keep_where, lemma_filter_step,
    list_where, lists, views,
};
use crate::text::{cat3, same, texts, trim, trimmed_text};
use vstd::prelude::*;

verus! {

/// How many messages an inbox shows.
pub const MY_NOTIFICATIONS_LIMIT: i64 = 200;

pub open spec fn notification_key(tenant_id: Seq<char>, id: Seq<char>) -> spec_fn(
    NotificationRowView,
) -> bool {
    |n: NotificationRowView| n.tenant_id == tenant_id && n.id == id
}

pub open spec fn not_notification_key(tenant_id: Seq<char>, id: Seq<char>) -> spec_fn(
    NotificationRowView,
) -> bool {
    |n: NotificationRowView| !(n.tenant_id == tenant_id && n.id == id)
}

pub open spec fn notifications_of(tenant_id: Seq<char>) -> spec_fn(NotificationRowView) -> bool {
    |n: NotificationRowView| n.tenant_id == tenant_id
}

pub open spec fn newest_notification_first() -> spec_fn(
    NotificationRowView,
    NotificationRowView,
) -> bool {
    |a: NotificationRowView, b: NotificationRowView| a.created_at >= b.created_at
}

pub open spec fn addressed(id: Seq<char>, user_id: Seq<char>) -> spec_fn(RecipientRowView) -> bool {
    |r: RecipientRowView| r.notification_id == id && r.user_id == user_id
}

pub open spec fn addressees_of(id: Seq<char>) -> spec_fn(RecipientRowView) -> bool {
    |r: RecipientRowView| r.notification_id == id
}

pub open spec fn not_addressees_of(id: Seq<char>) -> spec_fn(RecipientRowView) -> bool {
    |r: RecipientRowView| r.notification_id != id
}

pub open spec fn read_by(id: Seq<char>, user_id: Seq<char>) -> spec_fn(ReadRowView) -> bool {
    |r: ReadRowView| r.notification_id == id && r.user_id == user_id
}

pub open spec fn not_reads_of(id: Seq<char>) -> spec_fn(ReadRowView) -> bool {
    |r: ReadRowView| r.notification_id != id
}

/// Somebody's reading of a broadcast who is a member of the group.
pub open spec fn read_by_member(st: PlatformState, tenant_id: Seq<char>, id: Seq<char>) -> spec_fn(
    ReadRowView,
) -> bool {
    |r: ReadRowView|
        r.notification_id == id && any(st.members, member_key(r.user_id, tenant_id))
}

/// Somebody's reading of a message that it is for.
pub open spec fn read_by_addressee(
    st: PlatformState,
    id: Seq<char>,
) -> spec_fn(ReadRowView) -> bool {
    |r: ReadRowView| r.notification_id == id && any(st.recipients, addressed(id, r.user_id))
}

/// How many people a message is for: a broadcast is for whoever is a member now.
pub open spec fn audience(
    st: PlatformState,
    tenant_id: Seq<char>,
    id: Seq<char>,
    kind: Seq<char>,
) -> i64 {
    if kind == "broadcast"@ {
        st.members.filter(of_tenant(tenant_id)).len() as i64
    } else {
        st.recipients.filter(addressees_of(id)).len() as i64
    }
}

/// How many of them have read it.
pub open spec fn readers(
    st: PlatformState,
    tenant_id: Seq<char>,
    id: Seq<char>,
    kind: Seq<char>,
) -> i64 {
    if kind == "broadcast"@ {
        st.reads.filter(read_by_member(st, tenant_id, id)).len() as i64
    } else {
        st.reads.filter(read_by_addressee(st, id)).len() as i64
    }
}

pub open spec fn notification_dto(
    st: PlatformState,
    tenant_id: Seq<char>,
    n: NotificationRowView,
) -> NotificationDtoView {
    NotificationDtoView {
        id: n.id,
        kind: n.kind,
        category: n.category,
        title: n.title,
        body: n.body,
        recipient_count: audience(st, tenant_id, n.id, n.kind),
        read_count: readers(st, tenant_id, n.id, n.kind),
        created_by: n.created_by,
        created_at: n.created_at,
    }
}

/// A message that a member of the group sees: a broadcast, or one that is for them.
pub open spec fn seen_by(st: PlatformState, tenant_id: Seq<char>, user_id: Seq<char>) -> spec_fn(
    NotificationRowView,
) -> bool {
    |n: NotificationRowView|
        n.tenant_id == tenant_id && (n.kind == "broadcast"@ || any(
            st.recipients,
            addressed(n.id, user_id),
        ))
}

/// A message that a member sees and has not read.
pub open spec fn unread_by(st: PlatformState, tenant_id: Seq<char>, user_id: Seq<char>) -> spec_fn(
    NotificationRowView,
) -> bool {
    |n: NotificationRowView|
        seen_by(st, tenant_id, user_id)(n) && !any(st.reads, read_by(n.id, user_id))
}

/// A message by this identifier that a member sees.
pub open spec fn seen_under(
    st: PlatformState,
    tenant_id: Seq<char>,
    user_id: Seq<char>,
    id: Seq<char>,
) -> spec_fn(NotificationRowView) -> bool {
    |n: NotificationRowView| n.id == id && seen_by(st, tenant_id, user_id)(n)
}

pub open spec fn my_notification(
    st: PlatformState,
    user_id: Seq<char>,
    n: NotificationRowView,
) -> MyNotificationDtoView {
    MyNotificationDtoView {
        id: n.id,
        kind: n.kind,
        category: n.category,
        title: n.title,
        body: n.body,
        created_by: n.created_by,
        created_at: n.created_at,
        read_at: match first(st.reads, read_by(n.id, user_id)) {
            Some(r) => Some(r.read_at),
            None => None,
        },
    }
}

pub open spec fn shown_to(st: PlatformState, user_id: Seq<char>) -> spec_fn(
    NotificationRowView,
) -> MyNotificationDtoView {
    |n: NotificationRowView| my_notification(st, user_id, n)
}

/// The messages that a member sees, newest first, as far as the limit goes.
pub open spec fn inbox(
    st: PlatformState,
    tenant_id: Seq<char>,
    user_id: Seq<char>,
    limit: i64,
    out: Seq<MyNotificationDtoView>,
) -> bool {
    exists|whole: Seq<MyNotificationDtoView>| #[trigger]
        lists(
            whole,
            st.notifications,
            seen_by(st, tenant_id, user_id),
            newest_notification_first(),
            shown_to(st, user_id),
        ) && out == page(whole, limit)
}

/// Where the first recipient who is no member stands.
pub open spec fn stranger_from(
    st: PlatformState,
    tenant_id: Seq<char>,
    recipients: Seq<Seq<char>>,
    i: int,
) -> Option<Seq<char>>
    decreases recipients.len() - i,
{
    if i >= recipients.len() {
        None
    } else if any(st.members, member_key(recipients[i], tenant_id)) {
        stranger_from(st, tenant_id, recipients, i + 1)
    } else {
        Some(recipients[i])
    }
}

/// Why a message is not sent.
pub open spec fn send_refusal(
    st: PlatformState,
    tenant_id: Seq<char>,
    kind: Seq<char>,
    title: Seq<char>,
    body: Seq<char>,
    recipients: Seq<Seq<char>>,
) -> Option<PlatformErrorView> {
    if kind != "broadcast"@ && kind != "targeted"@ {
        Some(PlatformErrorView::BadRequest("unknown notification kind '"@ + kind + "'"@))
    } else if trimmed_text(title).len() == 0 {
        Some(PlatformErrorView::BadRequest("notification title must not be empty"@))
    } else if trimmed_text(body).len() == 0 {
        Some(PlatformErrorView::BadRequest("notification body must not be empty"@))
    } else if kind == "targeted"@ && recipients.len() == 0 {
        Some(
            PlatformErrorView::BadRequest(
                "a targeted notification requires at least one recipient"@,
            ),
        )
    } else if kind == "targeted"@ && stranger_from(st, tenant_id, recipients, 0) is Some {
        Some(
            PlatformErrorView::BadRequest(
                "recipient '"@ + stranger_from(st, tenant_id, recipients, 0)->0
                    + "' is not a member of this tenant"@,
            ),
        )
    } else {
        None
    }
}

/// The recipients with those of a message added, each once.
pub open spec fn with_addressees(
    rows: Seq<RecipientRowView>,
    id: Seq<char>,
    recipients: Seq<Seq<char>>,
) -> Seq<RecipientRowView>
    decreases recipients.len(),
{
    if recipients.len() == 0 {
        rows
    } else {
        let so_far = with_addressees(rows, id, recipients.drop_last());
        if any(so_far, addressed(id, recipients.last())) {
            so_far
        } else {
            so_far.push(RecipientRowView { notification_id: id, user_id: recipients.last() })
        }
    }
}

/// The state after a message was sent.
pub open spec fn sent(
    st: PlatformState,
    row: NotificationRowView,
    recipients: Seq<Seq<char>>,
) -> PlatformState {
    PlatformState {
        notifications: st.notifications.push(row),
        recipients: if row.kind == "targeted"@ {
            with_addressees(st.recipients, row.id, recipients)
        } else {
            st.recipients
        },
        ..st
    }
}

/// The readings with one user's of some messages added; what was read stays as it was.
pub open spec fn with_reads(
    rows: Seq<ReadRowView>,
    user_id: Seq<char>,
    ids: Seq<Seq<char>>,
    now: i64,
) -> Seq<ReadRowView>
    decreases ids.len(),
{
    if ids.len() == 0 {
        rows
    } else {
        let so_far = with_reads(rows, user_id, ids.drop_last(), now);
        if any(so_far, read_by(ids.last(), user_id)) {
            so_far
        } else {
            so_far.push(
                ReadRowView { notification_id: ids.last(), user_id, read_at: now },
            )
        }
    }
}

/// The messages that a request marks as read: those it names that the member sees, or all unread
/// ones where it names none.
pub open spec fn to_mark(
    st: PlatformState,
    tenant_id: Seq<char>,
    user_id: Seq<char>,
    ids: Seq<Seq<char>>,
) -> Seq<Seq<char>> {
    if ids.len() == 0 {
        st.notifications.filter(unread_by(st, tenant_id, user_id)).map_values(
            |n: NotificationRowView| n.id,
        )
    } else {
        ids.filter(
            |id: Seq<char>| any(st.notifications, seen_under(st, tenant_id, user_id, id)),
        )
    }
}

/// The state without a message.
pub open spec fn withdrawn(
    st: PlatformState,
    tenant_id: Seq<char>,
    id: Seq<char>,
) -> PlatformState {
    PlatformState {
        notifications: st.notifications.filter(not_notification_key(tenant_id, id)),
        recipients: st.recipients.filter(not_addressees_of(id)),
        reads: st.reads.filter(not_reads_of(id)),
        ..st
    }
}

/// A page of an inbox; a negative limit is none.
pub open spec fn page<U>(whole: Seq<U>, limit: i64) -> Seq<U> {
    if limit < 0 || whole.len() <= limit {
        whole
    } else {
        whole.take(limit as int)
    }
}

/// What sending a message does and how it is answered.
pub open spec fn message_sent(
    before: PlatformState,
    after: PlatformState,
    id: Seq<char>,
    tenant_id: Seq<char>,
    kind: Seq<char>,
    category: Seq<char>,
    title: Seq<char>,
    body: Seq<char>,
    recipients: Seq<Seq<char>>,
    created_by: Seq<char>,
    now: i64,
    r: Result<NotificationDtoView, PlatformErrorView>,
) -> bool {
    match send_refusal(before, tenant_id, kind, title, body, recipients) {
        Some(why) => r == Err::<NotificationDtoView, PlatformErrorView>(why) && after == before,
        None => {
            let row = NotificationRowView {
                id,
                tenant_id,
                kind,
                category: trimmed_text(category),
                title: trimmed_text(title),
                body: trimmed_text(body),
                created_by,
                created_at: now,
            };
            &&& after == sent(before, row, recipients)
            &&& r == Ok::<NotificationDtoView, PlatformErrorView>(
                notification_dto(after, tenant_id, row),
            )
        },
    }
}

/// The messages of a group as listed for its administrators, newest first.
pub open spec fn messages_shown(
    st: PlatformState,
    tenant_id: Seq<char>,
    out: Seq<NotificationDtoView>,
) -> bool {
    lists(
        out,
        st.notifications,
        notifications_of(tenant_id),
        newest_notification_first(),
        |n: NotificationRowView| notification_dto(st, tenant_id, n),
    )
}

/// What withdrawing a message does and how it is answered.
pub open spec fn message_withdrawn(
    before: PlatformState,
    after: PlatformState,
    tenant_id: Seq<char>,
    id: Seq<char>,
    r: Result<(), PlatformErrorView>,
) -> bool {
    if any(before.notifications, notification_key(tenant_id, id)) {
        r is Ok && after == withdrawn(before, tenant_id, id)
    } else {
        &&& r == Err::<(), PlatformErrorView>(PlatformErrorView::NotFound("notification not found"@))
        &&& after == before
    }
}

/// What a member is shown of their messages.
pub open spec fn inbox_shown(
    st: PlatformState,
    tenant_id: Seq<char>,
    user_id: Seq<char>,
    limit: i64,
    r: MyNotificationsDtoView,
) -> bool {
    &&& r.unread_count == st.notifications.filter(unread_by(st, tenant_id, user_id)).len() as i64
    &&& inbox(st, tenant_id, user_id, limit, r.notifications)
}

/// What marking messages as read does. Without any named, all are.
pub open spec fn marked_read(
    before: PlatformState,
    after: PlatformState,
    tenant_id: Seq<char>,
    user_id: Seq<char>,
    ids: Seq<Seq<char>>,
    now: i64,
) -> bool {
    after == (PlatformState {
        reads: with_reads(before.reads, user_id, to_mark(before, tenant_id, user_id, ids), now),
        ..before
    })
}

impl PlatformService {
    fn is_tenant_member(&self, tenant_id: &str, user_id: &str) -> (r: bool)
        ensures
            r == any(self@.members, member_key(user_id@, tenant_id@)),
    {
        let f = |m: &UserOrgRow| -> (b: bool)
            ensures
                b == member_key(user_id@, tenant_id@)(m@),
            { same(m.user_id.as_str(), user_id) && same(m.tenant_id.as_str(), tenant_id) };
        any_where(&self.members, f, Ghost(member_key(user_id@, tenant_id@)))
    }

    fn is_addressed(&self, id: &str, user_id: &str) -> (r: bool)
        ensures
            r == any(self@.recipients, addressed(id@, user_id@)),
    {
        let f = |m: &RecipientRow| -> (b: bool)
            ensures
                b == addressed(id@, user_id@)(m@),
            { same(m.notification_id.as_str(), id) && same(m.user_id.as_str(), user_id) };
        any_where(&self.recipients, f, Ghost(addressed(id@, user_id@)))
    }

    fn read_at(&self, id: &str, user_id: &str) -> (r: Option<i64>)
        ensures
            r == match first(self@.reads, read_by(id@, user_id@)) {
                Some(row) => Some(row.read_at),
                None => None,
            },
            r is Some <==> any(self@.reads, read_by(id@, user_id@)),
    {
        let f = |m: &ReadRow| -> (b: bool)
            ensures
                b == read_by(id@, user_id@)(m@),
            { same(m.notification_id.as_str(), id) && same(m.user_id.as_str(), user_id) };
        match find_where(&self.reads, f, Ghost(read_by(id@, user_id@))) {
            Some(i) => Some(self.reads[i].read_at),
            None => None,
        }
    }

    /// How many people a message is for, and how many of them have read it.
    pub fn notification_audience_counts(&self, tenant_id: &str, id: &str, kind: &str) -> (r: (
        i64,
        i64,
    ))
        ensures
            r.0 == audience(self@, tenant_id@, id@, kind@),
            r.1 == readers(self@, tenant_id@, id@, kind@),
    {
        if same(kind, "broadcast") {
            let f = |m: &UserOrgRow| -> (b: bool)
                ensures
                    b == of_tenant(tenant_id@)(m@),
                { same(m.tenant_id.as_str(), tenant_id) };
            let total = count_where(&self.members, f, Ghost(of_tenant(tenant_id@)));
            let ghost p = read_by_member(self@, tenant_id@, id@);
            let g = |m: &ReadRow| -> (b: bool)
                ensures
                    b == p(m@),
                {
                    same(m.notification_id.as_str(), id) && self.is_tenant_member(
                        tenant_id,
                        m.user_id.as_str(),
                    )
                };
            let read = count_where(&self.reads, g, Ghost(p));
            (total as i64, read as i64)
        } else {
            let f = |m: &RecipientRow| -> (b: bool)
                ensures
                    b == addressees_of(id@)(m@),
                { same(m.notification_id.as_str(), id) };
            let total = count_where(&self.recipients, f, Ghost(addressees_of(id@)));
            let ghost p = read_by_addressee(self@, id@);
            let g = |m: &ReadRow| -> (b: bool)
                ensures
                    b == p(m@),
                {
                    same(m.notification_id.as_str(), id) && self.is_addressed(
                        id,
                        m.user_id.as_str(),
                    )
                };
            let read = count_where(&self.reads, g, Ghost(p));
            (total as i64, read as i64)
        }
    }

    fn notification_dto_of(&self, tenant_id: &str, n: &NotificationRow) -> (d: NotificationDto)
        ensures
            d@ == notification_dto(self@, tenant_id@, n@),
    {
        let (recipient_count, read_count) = self.notification_audience_counts(
            tenant_id,
            n.id.as_str(),
            n.kind.as_str(),
        );
        NotificationDto {
            id: n.id.clone(),
            kind: n.kind.clone(),
            category: n.category.clone(),
            title: n.title.clone(),
            body: n.body.clone(),
            recipient_count,
            read_count,
            created_by: n.created_by.clone(),
            created_at: n.created_at,
        }
    }

    fn find_stranger(&self, tenant_id: &str, recipients: &Vec<String>) -> (r: Option<usize>)
        ensures
            match r {
                Some(i) => i < recipients.len() && stranger_from(
                    self@,
                    tenant_id@,
                    texts(recipients@),
                    0,
                ) == Some(recipients@[i as int]@),
                None => stranger_from(self@, tenant_id@, texts(recipients@), 0) is None,
            },
    {
        let mut i: usize = 0;
        while i < recipients.len()
            invariant
                i <= recipients.len(),
                stranger_from(self@, tenant_id@, texts(recipients@), 0) == stranger_from(
                    self@,
                    tenant_id@,
                    texts(recipients@),
                    i as int,
                ),
            decreases recipients.len() - i,
        {
            proof {
                assert(texts(recipients@)[i as int] == recipients@[i as int]@);
            }
            if !self.is_tenant_member(tenant_id, recipients[i].as_str()) {
                return Some(i);
            }
            i = i + 1;
        }
        None
    }

    fn add_addressees(&mut self, id: &str, recipients: &Vec<String>)
        ensures
            final(self)@ == (PlatformState {
                recipients: with_addressees(old(self)@.recipients, id@, texts(recipients@)),
                ..old(self)@
            }),
    {
        let ghost all = texts(recipients@);
        let ghost start = self@;
        let mut i: usize = 0;
        proof {
            assert(all.take(0) =~= Seq::empty());
        }
        while i < recipients.len()
            invariant
                all == texts(recipients@),
                i <= recipients.len(),
                self@ == (PlatformState {
                    recipients: with_addressees(start.recipients, id@, all.take(i as int)),
                    ..start
                }),
            decreases recipients.len() - i,
        {
            proof {
                assert(all.take(i + 1).drop_last() =~= all.take(i as int));
                assert(all.take(i + 1).last() == recipients@[i as int]@);
            }
            if !self.is_addressed(id, recipients[i].as_str()) {
                let ghost before = self@.recipients;
                let row = RecipientRow {
                    notification_id: id.to_owned(),
                    user_id: recipients[i].clone(),
                };
                self.recipients.push(row);
                proof {
                    assert(self@.recipients =~= before.push(row@));
                }
            }
            i = i + 1;
        }
        proof {
            assert(all.take(i as int) =~= all);
        }
    }

    /// Sends a message under the given identifier: a broadcast to every member, now or later, or a
    /// targeted one to the listed members.
    pub fn create_notification(
        &mut self,
        id: String,
        tenant_id: &str,
        kind: &str,
        category: &str,
        title: &str,
        body: &str,
        recipient_ids: &Vec<String>,
        created_by: &str,
        now: i64,
    ) -> (r: Result<NotificationDto, PlatformError>)
        ensures
            message_sent(
                old(self)@,
                final(self)@,
                id@,
                tenant_id@,
                kind@,
                category@,
                title@,
                body@,
                texts(recipient_ids@),
                created_by@,
                now,
                answer(r),
            ),
    {
        let targeted = same(kind, "targeted");
        if !targeted && !same(kind, "broadcast") {
            return Err(PlatformError::BadRequest(cat3("unknown notification kind '", kind, "'")));
        }
        let title = trim(title);
        let body = trim(body);
        if title.as_str().is_empty() {
            return Err(bad_request("notification title must not be empty"));
        }
        if body.as_str().is_empty() {
            return Err(bad_request("notification body must not be empty"));
        }
        proof {
            assert(texts(recipient_ids@).len() == recipient_ids@.len());
        }
        if targeted {
            if recipient_ids.len() == 0 {
                return Err(bad_request("a targeted notification requires at least one recipient"));
            }
            if let Some(i) = self.find_stranger(tenant_id, recipient_ids) {
                return Err(
                    PlatformError::BadRequest(
                        cat3(
                            "recipient '",
                            recipient_ids[i].as_str(),
                            "' is not a member of this tenant",
                        ),
                    ),
                );
            }
        }
        let row = NotificationRow {
            id,
            tenant_id: tenant_id.to_owned(),
            kind: kind.to_owned(),
            category: trim(category),
            title,
            body,
            created_by: created_by.to_owned(),
            created_at: now,
        };
        let kept = row.copy();
        let ghost before = self@.notifications;
        self.notifications.push(row);
        proof {
            assert(self@.notifications =~= before.push(row@));
        }
        if targeted {
            self.add_addressees(kept.id.as_str(), recipient_ids);
        }
        Ok(self.notification_dto_of(tenant_id, &kept))
    }

    /// The messages that a group sent, newest first.
    pub fn list_notifications(&self, tenant_id: &str) -> (out: Vec<NotificationDto>)
        ensures
            messages_shown(self@, tenant_id@, views(out@)),
    {
        let f = |n: &NotificationRow| -> (b: bool)
            ensures
                b == notifications_of(tenant_id@)(n@),
            { same(n.tenant_id.as_str(), tenant_id) };
        let l = |a: &NotificationRow, b: &NotificationRow| -> (c: bool)
            ensures
                c == newest_notification_first()(a@, b@),
            { a.created_at >= b.created_at };
        let ghost g = |n: NotificationRowView| notification_dto(self@, tenant_id@, n);
        let mk = |n: &NotificationRow| -> (d: NotificationDto)
            ensures
                d@ == g(n@),
            { self.notification_dto_of(tenant_id, n) };
        list_where(
            &self.notifications,
            f,
            l,
            mk,
            Ghost(notifications_of(tenant_id@)),
            Ghost(newest_notification_first()),
            Ghost(g),
        )
    }

    /// Withdraws a message of a group, for everyone.
    pub fn delete_notification(&mut self, tenant_id: &str, id: &str) -> (r: Result<
        (),
        PlatformError,
    >)
        ensures
            message_withdrawn(old(self)@, final(self)@, tenant_id@, id@, done(r)),
    {
        let f = |n: &NotificationRow| -> (b: bool)
            ensures
                b == notification_key(tenant_id@, id@)(n@),
            { same(n.tenant_id.as_str(), tenant_id) && same(n.id.as_str(), id) };
        if !any_where(&self.notifications, f, Ghost(notification_key(tenant_id@, id@))) {
            return Err(not_found("notification not found"));
        }
        let k = |n: &NotificationRow| -> (b: bool)
            ensures
                b == not_notification_key(tenant_id@, id@)(n@),
            { !(same(n.tenant_id.as_str(), tenant_id) && same(n.id.as_str(), id)) };
        keep_where(&mut self.notifications, k, Ghost(not_notification_key(tenant_id@, id@)));
        let k = |r: &RecipientRow| -> (b: bool)
            ensures
                b == not_addressees_of(id@)(r@),
            { !same(r.notification_id.as_str(), id) };
        keep_where(&mut self.recipients, k, Ghost(not_addressees_of(id@)));
        let k = |r: &ReadRow| -> (b: bool)
            ensures
                b == not_reads_of(id@)(r@),
            { !same(r.notification_id.as_str(), id) };
        keep_where(&mut self.reads, k, Ghost(not_reads_of(id@)));
        Ok(())
    }

    fn sees(&self, tenant_id: &str, user_id: &str, n: &NotificationRow) -> (r: bool)
        ensures
            r == seen_by(self@, tenant_id@, user_id@)(n@),
    {
        same(n.tenant_id.as_str(), tenant_id) && (same(n.kind.as_str(), "broadcast")
            || self.is_addressed(n.id.as_str(), user_id))
    }

    /// A member's inbox, newest first, with the number of all unread messages. The limit caps the
    /// listed messages only.
    pub fn list_my_notifications(&self, tenant_id: &str, user_id: &str, limit: i64) -> (r:
        MyNotificationsDto)
        ensures
            inbox_shown(self@, tenant_id@, user_id@, limit, r@),
    {
        let ghost p = seen_by(self@, tenant_id@, user_id@);
        let f = |n: &NotificationRow| -> (b: bool)
            ensures
                b == p(n@),
            { self.sees(tenant_id, user_id, n) };
        let l = |a: &NotificationRow, b: &NotificationRow| -> (c: bool)
            ensures
                c == newest_notification_first()(a@, b@),
            { a.created_at >= b.created_at };
        let ghost g = shown_to(self@, user_id@);
        let mk = |n: &NotificationRow| -> (d: MyNotificationDto)
            ensures
                d@ == g(n@),
            {
                MyNotificationDto {
                    id: n.id.clone(),
                    kind: n.kind.clone(),
                    category: n.category.clone(),
                    title: n.title.clone(),
                    body: n.body.clone(),
                    created_by: n.created_by.clone(),
                    created_at: n.created_at,
                    read_at: self.read_at(n.id.as_str(), user_id),
                }
            };
        let mut out = list_where(
            &self.notifications,
            f,
            l,
            mk,
            Ghost(p),
            Ghost(newest_notification_first()),
            Ghost(g),
        );
        let ghost q = unread_by(self@, tenant_id@, user_id@);
        let h = |n: &NotificationRow| -> (b: bool)
            ensures
                b == q(n@),
            {
                self.sees(tenant_id, user_id, n) && self.read_at(n.id.as_str(), user_id).is_none()
            };
        let unread = count_where(&self.notifications, h, Ghost(q));
        let ghost whole = views(out@);
        if limit >= 0 && (out.len() as u128) > (limit as u128) {
            out.truncate(limit as usize);
        }
        proof {
            assert(views(out@) =~= page(whole, limit));
            assert(lists(
                whole,
                self@.notifications,
                seen_by(self@, tenant_id@, user_id@),
                newest_notification_first(),
                shown_to(self@, user_id@),
            ));
            assert(inbox(self@, tenant_id@, user_id@, limit, views(out@)));
        }
        MyNotificationsDto { notifications: out, unread_count: unread as i64 }
    }

    fn ids_to_mark(&self, tenant_id: &str, user_id: &str, ids: &Vec<String>) -> (out: Vec<String>)
        ensures
            texts(out@) == to_mark(self@, tenant_id@, user_id@, texts(ids@)),
    {
        let mut out: Vec<String> = Vec::new();
        let mut i: usize = 0;
        proof {
            reveal(Seq::filter);
            assert(texts(ids@).len() == ids@.len());
            assert(texts(out@) =~= Seq::empty());
        }
        if ids.len() == 0 {
            let ghost all = self@.notifications;
            let ghost p = unread_by(self@, tenant_id@, user_id@);
            let ghost g = |n: NotificationRowView| n.id;
            proof {
                assert(all.take(0) =~= Seq::empty());
                assert(Seq::<NotificationRowView>::empty().map_values(g) =~= Seq::empty());
            }
            while i < self.notifications.len()
                invariant
                    all == self@.notifications,
                    p == unread_by(self@, tenant_id@, user_id@),
                    g == (|n: NotificationRowView| n.id),
                    i <= self.notifications.len(),
                    texts(out@) == all.take(i as int).filter(p).map_values(g),
                decreases self.notifications.len() - i,
            {
                let n = &self.notifications[i];
                proof {
                    lemma_filter_step(all, p, i as int);
                    assert(all[i as int] == n@);
                }
                if self.sees(tenant_id, user_id, n) && self.read_at(
                    n.id.as_str(),
                    user_id,
                ).is_none() {
                    let ghost before = texts(out@);
                    let ghost kept = all.take(i as int).filter(p);
                    out.push(n.id.clone());
                    proof {
                        assert(texts(out@) =~= before.push(n@.id));
                        assert(kept.push(n@).map_values(g) =~= kept.map_values(g).push(n@.id));
                    }
                }
                i = i + 1;
            }
            proof {
                assert(all.take(i as int) =~= all);
            }
        } else {
            let ghost all = texts(ids@);
            let ghost p = |id: Seq<char>|
                any(self@.notifications, seen_under(self@, tenant_id@, user_id@, id));
            proof {
                assert(all.take(0) =~= Seq::empty());
            }
            while i < ids.len()
                invariant
                    all == texts(ids@),
                    p == (|id: Seq<char>|
                        any(self@.notifications, seen_under(self@, tenant_id@, user_id@, id))),
                    i <= ids.len(),
                    texts(out@) == all.take(i as int).filter(p),
                decreases ids.len() - i,
            {
                let id = ids[i].as_str();
                proof {
                    lemma_filter_step(all, p, i as int);
                    assert(all[i as int] == id@);
                }
                let f = |n: &NotificationRow| -> (b: bool)
                    ensures
                        b == seen_under(self@, tenant_id@, user_id@, id@)(n@),
                    { same(n.id.as_str(), id) && self.sees(tenant_id, user_id, n) };
                if any_where(
                    &self.notifications,
                    f,
                    Ghost(seen_under(self@, tenant_id@, user_id@, id@)),
                ) {
                    let ghost before = texts(out@);
                    out.push(ids[i].clone());
                    proof {
                        assert(texts(out@) =~= before.push(id@));
                    }
                }
                i = i + 1;
            }
            proof {
                assert(all.take(i as int) =~= all);
            }
        }
        out
    }

    /// Marks messages as read for one member: the named ones that they see, or every unread one
    /// where none is named.
    pub fn mark_notifications_read(
        &mut self,
        tenant_id: &str,
        user_id: &str,
        ids: &Vec<String>,
        now: i64,
    )
        ensures
            marked_read(old(self)@, final(self)@, tenant_id@, user_id@, texts(ids@), now),
    {
        let list = self.ids_to_mark(tenant_id, user_id, ids);
        let ghost all = texts(list@);
        let ghost start = self@;
        let mut i: usize = 0;
        proof {
            assert(all.take(0) =~= Seq::empty());
        }
        while i < list.len()
            invariant
                all == texts(list@),
                i <= list.len(),
                self@ == (PlatformState {
                    reads: with_reads(start.reads, user_id@, all.take(i as int), now),
                    ..start
                }),
            decreases list.len() - i,
        {
            proof {
                assert(all.take(i + 1).drop_last() =~= all.take(i as int));
                assert(all.take(i + 1).last() == list@[i as int]@);
            }
            if self.read_at(list[i].as_str(), user_id).is_none() {
                let ghost before = self@.reads;
                let row = ReadRow {
                    notification_id: list[i].clone(),
                    user_id: user_id.to_owned(),
                    read_at: now,
                };
                self.reads.push(row);
                proof {
                    assert(self@.reads =~= before.push(row@));
                }
            }
            i = i + 1;
        }
        proof {
            assert(all.take(i as int) =~= all);
        }
    }
}

} // verus!
