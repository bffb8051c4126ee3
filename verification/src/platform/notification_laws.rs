//! What messages reach whom, and what reading them does.
use crate::org::membership::{member_key, of_tenant};
use crate::org::models::UserOrgRowView;
use crate::platform::error::PlatformErrorView;
use crate::platform::models::{
    MyNotificationDtoView, MyNotificationsDtoView, NotificationDtoView, NotificationRowView,
    ReadRowView, RecipientRowView,
};
use crate::platform::notifications::{
    addressed, addressees_of, inbox_shown, marked_read, message_sent, message_withdrawn,
    messages_shown, my_notification, newest_notification_first, not_addressees_of,
    not_notification_key, not_reads_of, notification_dto, notification_key, notifications_of, page,
    read_by, seen_by, seen_under, shown_to, stranger_from, to_mark, unread_by, with_addressees,
    with_reads,
};
use crate::platform::service::PlatformState;
use crate::table::{any, first, lemma_filter_from, lemma_first, lists, listed_rows};
use crate::text::trimmed_text;
use vstd::prelude::*;

verus! {

/// Whether a message is for a member: it is for everyone in the group, or names them.
pub open spec fn is_for(
    st: PlatformState,
    tenant_id: Seq<char>,
    user_id: Seq<char>,
    n: NotificationRowView,
) -> bool {
    n.tenant_id == tenant_id && (n.kind == "broadcast"@ || exists|i: int|
        0 <= i < st.recipients.len() && (#[trigger] st.recipients[i]).notification_id == n.id
            && st.recipients[i].user_id == user_id)
}

/// Whether a member has read a message.
pub open spec fn has_read(st: PlatformState, user_id: Seq<char>, id: Seq<char>) -> bool {
    exists|i: int|
        0 <= i < st.reads.len() && (#[trigger] st.reads[i]).notification_id == id
            && st.reads[i].user_id == user_id
}

proof fn lemma_is_for(
    st: PlatformState,
    tenant_id: Seq<char>,
    user_id: Seq<char>,
    n: NotificationRowView,
)
    ensures
        seen_by(st, tenant_id, user_id)(n) <==> is_for(st, tenant_id, user_id, n),
        any(st.reads, read_by(n.id, user_id)) <==> has_read(st, user_id, n.id),
{
    let p = addressed(n.id, user_id);
    if any(st.recipients, p) {
        let i = choose|i: int| 0 <= i < st.recipients.len() && p(#[trigger] st.recipients[i]);
        assert(st.recipients[i].user_id == user_id);
    }
    if exists|i: int|
        0 <= i < st.recipients.len() && (#[trigger] st.recipients[i]).notification_id == n.id
            && st.recipients[i].user_id == user_id {
        let i = choose|i: int|
            0 <= i < st.recipients.len() && (#[trigger] st.recipients[i]).notification_id == n.id
                && st.recipients[i].user_id == user_id;
        assert(p(st.recipients[i]));
    }
    let q = read_by(n.id, user_id);
    if any(st.reads, q) {
        let i = choose|i: int| 0 <= i < st.reads.len() && q(#[trigger] st.reads[i]);
        assert(st.reads[i].user_id == user_id);
    }
    if has_read(st, user_id, n.id) {
        let i = choose|i: int|
            0 <= i < st.reads.len() && (#[trigger] st.reads[i]).notification_id == n.id
                && st.reads[i].user_id == user_id;
        assert(q(st.reads[i]));
    }
}

/// A member is shown every message that is for them as it was sent, and as unread exactly where
/// they have not read it.
pub proof fn inbox_shows_what_is_for_me(
    st: PlatformState,
    tenant_id: Seq<char>,
    user_id: Seq<char>,
    limit: i64,
    r: MyNotificationsDtoView,
    i: int,
) -> (k: int)
    requires
        inbox_shown(st, tenant_id, user_id, limit, r),
        limit < 0 || limit >= st.notifications.len(),
        0 <= i < st.notifications.len(),
        is_for(st, tenant_id, user_id, st.notifications[i]),
    ensures
        0 <= k < r.notifications.len(),
        r.notifications[k].id == st.notifications[i].id,
        r.notifications[k].kind == st.notifications[i].kind,
        r.notifications[k].category == st.notifications[i].category,
        r.notifications[k].title == st.notifications[i].title,
        r.notifications[k].body == st.notifications[i].body,
        r.notifications[k].created_by == st.notifications[i].created_by,
        r.notifications[k].created_at == st.notifications[i].created_at,
        r.notifications[k].read_at is Some <==> has_read(st, user_id, st.notifications[i].id),
        r.notifications[k].read_at matches Some(at) ==> exists|j: int|
            0 <= j < st.reads.len() && (#[trigger] st.reads[j]).notification_id
                == st.notifications[i].id && st.reads[j].user_id == user_id && st.reads[j].read_at
                == at,
{
    let out = r.notifications;
    let p = seen_by(st, tenant_id, user_id);
    let whole = choose|whole: Seq<MyNotificationDtoView>| #[trigger]
        lists(whole, st.notifications, p, newest_notification_first(), shown_to(st, user_id))
            && out == page(whole, limit);
    st.notifications.lemma_filter_len(p);
    let shown = listed_rows(
        whole,
        st.notifications,
        p,
        newest_notification_first(),
        shown_to(st, user_id),
    );
    let n = st.notifications[i];
    lemma_is_for(st, tenant_id, user_id, n);
    assert(p(st.notifications[i]));
    let k = choose|k: int| 0 <= k < shown.len() && shown[k] == n;
    assert(out[k] == my_notification(st, user_id, shown[k]));
    let q = read_by(n.id, user_id);
    lemma_first(st.reads, q);
    if first(st.reads, q) is Some {
        let v = first(st.reads, q)->0;
        let j = choose|j: int| 0 <= j < st.reads.len() && st.reads[j] == v;
        assert(st.reads[j].read_at == v.read_at && q(st.reads[j]));
    }
    k
}

/// A member is shown nothing that is not for them, the newest first, no more than asked for, and
/// how many there are that they have not read.
pub proof fn inbox_shows_nothing_else(
    st: PlatformState,
    tenant_id: Seq<char>,
    user_id: Seq<char>,
    limit: i64,
    r: MyNotificationsDtoView,
    j: int,
    k: int,
) -> (i: int)
    requires
        inbox_shown(st, tenant_id, user_id, limit, r),
        0 <= j <= k < r.notifications.len(),
        st.notifications.len() <= i64::MAX,
    ensures
        limit >= 0 ==> r.notifications.len() <= limit,
        r.notifications[j].created_at >= r.notifications[k].created_at,
        0 <= i < st.notifications.len(),
        is_for(st, tenant_id, user_id, st.notifications[i]),
        st.notifications[i].id == r.notifications[k].id,
        r.unread_count == st.notifications.filter(
            |n: NotificationRowView|
                is_for(st, tenant_id, user_id, n) && !has_read(st, user_id, n.id),
        ).len(),
{
    let out = r.notifications;
    let p = seen_by(st, tenant_id, user_id);
    let whole = choose|whole: Seq<MyNotificationDtoView>| #[trigger]
        lists(whole, st.notifications, p, newest_notification_first(), shown_to(st, user_id))
            && out == page(whole, limit);
    let shown = listed_rows(
        whole,
        st.notifications,
        p,
        newest_notification_first(),
        shown_to(st, user_id),
    );
    assert(out[j] == whole[j] && out[k] == whole[k]);
    assert(whole[j] == my_notification(st, user_id, shown[j]));
    assert(whole[k] == my_notification(st, user_id, shown[k]));
    if j < k {
        assert(newest_notification_first()(shown[j], shown[k]));
    }
    let u = |n: NotificationRowView|
        is_for(st, tenant_id, user_id, n) && !has_read(st, user_id, n.id);
    let w = unread_by(st, tenant_id, user_id);
    assert forall|n: NotificationRowView| #[trigger] u(n) == w(n) by {
        lemma_is_for(st, tenant_id, user_id, n);
    }
    assert(u =~= w);
    st.notifications.lemma_filter_len(u);
    let i = choose|i: int| 0 <= i < st.notifications.len() && st.notifications[i] == shown[k];
    assert(p(shown[k]));
    lemma_is_for(st, tenant_id, user_id, shown[k]);
    i
}

proof fn lemma_added(
    rows: Seq<RecipientRowView>,
    id: Seq<char>,
    recipients: Seq<Seq<char>>,
)
    ensures
        ({
            let after = with_addressees(rows, id, recipients);
            &&& after.len() >= rows.len()
            &&& forall|i: int| 0 <= i < rows.len() ==> #[trigger] after[i] == rows[i]
            &&& forall|i: int|
                rows.len() <= i < after.len() ==> (#[trigger] after[i]).notification_id == id
                    && recipients.contains(after[i].user_id)
            &&& forall|u: Seq<char>|
                recipients.contains(u) ==> #[trigger] any(after, addressed(id, u))
        }),
    decreases recipients.len(),
{
    if recipients.len() > 0 {
        let rest = recipients.drop_last();
        let last = recipients.last();
        lemma_added(rows, id, rest);
        let so_far = with_addressees(rows, id, rest);
        let after = with_addressees(rows, id, recipients);
        assert(recipients[recipients.len() - 1] == last);
        assert forall|i: int| rows.len() <= i < after.len() implies (
        #[trigger] after[i]).notification_id == id && recipients.contains(after[i].user_id) by {
            if i < so_far.len() {
                assert(after[i] == so_far[i]);
                let q = choose|q: int| 0 <= q < rest.len() && rest[q] == after[i].user_id;
                assert(recipients[q] == after[i].user_id);
            }
        }
        assert forall|u: Seq<char>| recipients.contains(u) implies #[trigger] any(
            after,
            addressed(id, u),
        ) by {
            let p = addressed(id, u);
            if u == last {
                if !any(so_far, p) {
                    assert(p(after[so_far.len() as int]));
                }
            } else {
                let q = choose|q: int| 0 <= q < recipients.len() && recipients[q] == u;
                assert(rest[q] == u);
                assert(any(so_far, p));
                let k = choose|k: int| 0 <= k < so_far.len() && p(#[trigger] so_far[k]);
                assert(p(after[k]));
            }
        }
    }
}

/// A message is sent as it was written, without white space around it. A broadcast is for everyone
/// in the group and a targeted one exactly for those it names; for other messages nothing changes.
pub proof fn sent_message_is_for_its_audience(
    before: PlatformState,
    after: PlatformState,
    id: Seq<char>,
    tenant_id: Seq<char>,
    kind: Seq<char>,
    category: Seq<char>,
    title: Seq<char>,
    body: Seq<char>,
    recipients: Seq<Seq<char>>,
    created_by: Seq<char>,
    now: i64,
    d: NotificationDtoView,
    user_id: Seq<char>,
)
    requires
        message_sent(
            before,
            after,
            id,
            tenant_id,
            kind,
            category,
            title,
            body,
            recipients,
            created_by,
            now,
            Ok(d),
        ),
        forall|i: int|
            0 <= i < before.recipients.len() ==> (#[trigger] before.recipients[i]).notification_id
                != id,
    ensures
        ({
            let n = after.notifications.last();
            &&& after.notifications.len() == before.notifications.len() + 1
            &&& after.notifications.drop_last() =~= before.notifications
            &&& n.id == id && n.tenant_id == tenant_id && n.kind == kind
            &&& n.title == trimmed_text(title) && n.body == trimmed_text(body)
            &&& n.category == trimmed_text(category)
            &&& n.created_by == created_by && n.created_at == now
            &&& d.id == id && d.kind == kind && d.title == n.title && d.body == n.body
                && d.category == n.category && d.created_by == created_by && d.created_at == now
            &&& is_for(after, tenant_id, user_id, n) <==> kind == "broadcast"@
                || recipients.contains(user_id)
            &&& after.reads == before.reads
            &&& forall|i: int|
                0 <= i < before.notifications.len() && (#[trigger] before.notifications[i]).id != id
                    ==> is_for(after, tenant_id, user_id, before.notifications[i]) == is_for(
                    before,
                    tenant_id,
                    user_id,
                    before.notifications[i],
                )
        }),
{
    reveal_strlit("broadcast");
    reveal_strlit("targeted");
    assert("broadcast"@.len() == 9 && "targeted"@.len() == 8);
    let n = after.notifications.last();
    lemma_added(before.recipients, id, recipients);
    let p = addressed(id, user_id);
    if kind != "broadcast"@ {
        if recipients.contains(user_id) {
            assert(any(after.recipients, p));
            let i = choose|i: int|
                0 <= i < after.recipients.len() && p(#[trigger] after.recipients[i]);
            assert(after.recipients[i].user_id == user_id);
        }
    }
    assert forall|i: int|
        0 <= i < before.notifications.len() && (#[trigger] before.notifications[i]).id
            != id implies is_for(after, tenant_id, user_id, before.notifications[i]) == is_for(
        before,
        tenant_id,
        user_id,
        before.notifications[i],
    ) by {
        let m = before.notifications[i];
        if exists|j: int|
            0 <= j < before.recipients.len() && (#[trigger] before.recipients[j]).notification_id
                == m.id && before.recipients[j].user_id == user_id {
            let j = choose|j: int|
                0 <= j < before.recipients.len() && (
                #[trigger] before.recipients[j]).notification_id == m.id
                    && before.recipients[j].user_id == user_id;
            assert(after.recipients[j] == before.recipients[j]);
        }
    }
}

proof fn lemma_strangers(
    st: PlatformState,
    tenant_id: Seq<char>,
    recipients: Seq<Seq<char>>,
    i: int,
)
    requires
        0 <= i <= recipients.len(),
    ensures
        stranger_from(st, tenant_id, recipients, i) is None <==> forall|k: int|
            i <= k < recipients.len() ==> any(
                st.members,
                member_key(#[trigger] recipients[k], tenant_id),
            ),
    decreases recipients.len() - i,
{
    if i < recipients.len() {
        lemma_strangers(st, tenant_id, recipients, i + 1);
    }
}

/// A message is sent exactly where it is a broadcast or a targeted one, has a title and a body, and
/// where it is targeted names somebody and only members.
pub proof fn message_needs_words_and_members(
    before: PlatformState,
    after: PlatformState,
    id: Seq<char>,
    tenant_id: Seq<char>,
    kind: Seq<char>,
    category: Seq<char>,
    title: Seq<char>,
    body: Seq<char>,
    recipients: Seq<Seq<char>>,
    created_by: Seq<char>,
    now: i64,
    r: Result<NotificationDtoView, PlatformErrorView>,
)
    requires
        message_sent(
            before,
            after,
            id,
            tenant_id,
            kind,
            category,
            title,
            body,
            recipients,
            created_by,
            now,
            r,
        ),
    ensures
        r is Ok <==> (kind == "broadcast"@ || kind == "targeted"@) && trimmed_text(title).len() > 0
            && trimmed_text(body).len() > 0 && (kind == "targeted"@ ==> recipients.len() > 0
            && forall|k: int|
            0 <= k < recipients.len() ==> exists|i: int|
                0 <= i < before.members.len() && (#[trigger] before.members[i]).user_id == (
                #[trigger] recipients[k]) && before.members[i].tenant_id == tenant_id),
        r is Err ==> after == before,
{
    lemma_strangers(before, tenant_id, recipients, 0);
    assert forall|k: int| 0 <= k < recipients.len() implies any(
        before.members,
        member_key(#[trigger] recipients[k], tenant_id),
    ) == exists|i: int|
        0 <= i < before.members.len() && (#[trigger] before.members[i]).user_id == recipients[k]
            && before.members[i].tenant_id == tenant_id by {
        let p = member_key(recipients[k], tenant_id);
        if any(before.members, p) {
            let i = choose|i: int| 0 <= i < before.members.len() && p(#[trigger] before.members[i]);
            assert(before.members[i].user_id == recipients[k]);
        }
        if exists|i: int|
            0 <= i < before.members.len() && (#[trigger] before.members[i]).user_id == recipients[k]
                && before.members[i].tenant_id == tenant_id {
            let i = choose|i: int|
                0 <= i < before.members.len() && (#[trigger] before.members[i]).user_id
                    == recipients[k] && before.members[i].tenant_id == tenant_id;
            assert(p(before.members[i]));
        }
    }
}

proof fn lemma_reads(rows: Seq<ReadRowView>, user_id: Seq<char>, ids: Seq<Seq<char>>, now: i64)
    ensures
        ({
            let after = with_reads(rows, user_id, ids, now);
            &&& after.len() >= rows.len()
            &&& forall|i: int| 0 <= i < rows.len() ==> #[trigger] after[i] == rows[i]
            &&& forall|i: int|
                rows.len() <= i < after.len() ==> (#[trigger] after[i]).user_id == user_id
                    && ids.contains(after[i].notification_id) && after[i].read_at == now
            &&& forall|id: Seq<char>|
                ids.contains(id) ==> #[trigger] any(after, read_by(id, user_id))
        }),
    decreases ids.len(),
{
    if ids.len() > 0 {
        let rest = ids.drop_last();
        let last = ids.last();
        lemma_reads(rows, user_id, rest, now);
        let so_far = with_reads(rows, user_id, rest, now);
        let after = with_reads(rows, user_id, ids, now);
        assert(ids[ids.len() - 1] == last);
        assert forall|i: int| rows.len() <= i < after.len() implies (#[trigger] after[i]).user_id
            == user_id && ids.contains(after[i].notification_id) && after[i].read_at == now by {
            if i < so_far.len() {
                assert(after[i] == so_far[i]);
                let q = choose|q: int| 0 <= q < rest.len() && rest[q] == after[i].notification_id;
                assert(ids[q] == after[i].notification_id);
            }
        }
        assert forall|id: Seq<char>| ids.contains(id) implies #[trigger] any(
            after,
            read_by(id, user_id),
        ) by {
            let p = read_by(id, user_id);
            if id == last {
                if !any(so_far, p) {
                    assert(p(after[so_far.len() as int]));
                }
            } else {
                let q = choose|q: int| 0 <= q < ids.len() && ids[q] == id;
                assert(rest[q] == id);
                assert(any(so_far, p));
                let k = choose|k: int| 0 <= k < so_far.len() && p(#[trigger] so_far[k]);
                assert(p(after[k]));
            }
        }
    }
}

/// Marking reads the messages that are named and are for the member, and all that are for them
/// where none is named. Nothing else is read by it, nobody else's reading changes, and what was read
/// keeps its time.
pub proof fn marking_reads_what_is_named(
    before: PlatformState,
    after: PlatformState,
    tenant_id: Seq<char>,
    user_id: Seq<char>,
    ids: Seq<Seq<char>>,
    now: i64,
    i: int,
)
    requires
        marked_read(before, after, tenant_id, user_id, ids, now),
        0 <= i < before.notifications.len(),
        is_for(before, tenant_id, user_id, before.notifications[i]),
    ensures
        ids.len() == 0 || ids.contains(before.notifications[i].id) ==> has_read(
            after,
            user_id,
            before.notifications[i].id,
        ),
        forall|j: int| 0 <= j < before.reads.len() ==> #[trigger] after.reads[j] == before.reads[j],
        after.reads.len() >= before.reads.len(),
        forall|j: int|
            before.reads.len() <= j < after.reads.len() ==> (#[trigger] after.reads[j]).user_id
                == user_id && after.reads[j].read_at == now && (ids.len() == 0 || ids.contains(
                after.reads[j].notification_id,
            )) && exists|m: int|
                0 <= m < before.notifications.len() && (#[trigger] before.notifications[m]).id
                    == after.reads[j].notification_id && is_for(
                    before,
                    tenant_id,
                    user_id,
                    before.notifications[m],
                ),
        after == (PlatformState { reads: after.reads, ..before }),
{
    broadcast use vstd::seq_lib::group_filter_ensures;

    let marks = to_mark(before, tenant_id, user_id, ids);
    lemma_reads(before.reads, user_id, marks, now);
    let n = before.notifications[i];
    lemma_is_for(before, tenant_id, user_id, n);
    lemma_is_for(after, tenant_id, user_id, n);
    let w = unread_by(before, tenant_id, user_id);
    let unread = before.notifications.filter(w);
    let keep = |id: Seq<char>| any(before.notifications, seen_under(before, tenant_id, user_id, id));
    if ids.len() == 0 {
        if any(before.reads, read_by(n.id, user_id)) {
            let k = choose|k: int|
                0 <= k < before.reads.len() && read_by(n.id, user_id)(#[trigger] before.reads[k]);
            assert(read_by(n.id, user_id)(after.reads[k]));
        } else {
            assert(w(before.notifications[i]));
            assert(unread.contains(before.notifications[i]));
            let k = choose|k: int| 0 <= k < unread.len() && unread[k] == n;
            assert(marks[k] == n.id);
            assert(any(after.reads, read_by(n.id, user_id)));
        }
    } else if ids.contains(n.id) {
        assert(seen_under(before, tenant_id, user_id, n.id)(before.notifications[i]));
        assert(keep(n.id));
        let k = choose|k: int| 0 <= k < ids.len() && ids[k] == n.id;
        assert(ids.filter(keep).contains(ids[k]));
        assert(any(after.reads, read_by(n.id, user_id)));
    }
    assert forall|j: int| before.reads.len() <= j < after.reads.len() implies (
    #[trigger] after.reads[j]).user_id == user_id && after.reads[j].read_at == now && (ids.len() == 0
        || ids.contains(after.reads[j].notification_id)) && exists|m: int|
        0 <= m < before.notifications.len() && (#[trigger] before.notifications[m]).id
            == after.reads[j].notification_id && is_for(
            before,
            tenant_id,
            user_id,
            before.notifications[m],
        ) by {
        let x = after.reads[j].notification_id;
        let k = choose|k: int| 0 <= k < marks.len() && marks[k] == x;
        if ids.len() == 0 {
            lemma_filter_from(before.notifications, w, k);
            before.notifications.lemma_filter_pred(w, k);
            let m = choose|m: int|
                0 <= m < before.notifications.len() && before.notifications[m] == unread[k];
            lemma_is_for(before, tenant_id, user_id, before.notifications[m]);
            assert(before.notifications[m].id == x);
        } else {
            lemma_filter_from(ids, keep, k);
            ids.lemma_filter_pred(keep, k);
            let s = seen_under(before, tenant_id, user_id, x);
            let m = choose|m: int|
                0 <= m < before.notifications.len() && s(#[trigger] before.notifications[m]);
            lemma_is_for(before, tenant_id, user_id, before.notifications[m]);
            assert(before.notifications[m].id == x);
        }
    }
}

/// Administrators are shown each message of the group as it was sent, with how many it is for and
/// how many of those have read it.
pub proof fn administrators_see_the_audience(
    st: PlatformState,
    tenant_id: Seq<char>,
    out: Seq<NotificationDtoView>,
    i: int,
) -> (k: int)
    requires
        messages_shown(st, tenant_id, out),
        0 <= i < st.notifications.len(),
        st.notifications[i].tenant_id == tenant_id,
        st.members.len() <= i64::MAX,
        st.recipients.len() <= i64::MAX,
        st.reads.len() <= i64::MAX,
    ensures
        0 <= k < out.len(),
        out[k].id == st.notifications[i].id,
        out[k].kind == st.notifications[i].kind,
        out[k].title == st.notifications[i].title,
        out[k].body == st.notifications[i].body,
        out[k].category == st.notifications[i].category,
        out[k].created_by == st.notifications[i].created_by,
        out[k].created_at == st.notifications[i].created_at,
        st.notifications[i].kind == "broadcast"@ ==> out[k].recipient_count == st.members.filter(
            |m: UserOrgRowView| m.tenant_id == tenant_id,
        ).len(),
        st.notifications[i].kind != "broadcast"@ ==> out[k].recipient_count == st.recipients.filter(
            |r: RecipientRowView| r.notification_id == st.notifications[i].id,
        ).len(),
        0 <= out[k].read_count <= st.reads.filter(
            |r: ReadRowView| r.notification_id == st.notifications[i].id,
        ).len(),
{
    let p = notifications_of(tenant_id);
    let g = |n: NotificationRowView| notification_dto(st, tenant_id, n);
    let shown = listed_rows(out, st.notifications, p, newest_notification_first(), g);
    let n = st.notifications[i];
    assert(p(st.notifications[i]));
    let k = choose|k: int| 0 <= k < shown.len() && shown[k] == n;
    assert(out[k] == notification_dto(st, tenant_id, shown[k]));
    let pm = |m: UserOrgRowView| m.tenant_id == tenant_id;
    let pr = |r: RecipientRowView| r.notification_id == n.id;
    let pd = |r: ReadRowView| r.notification_id == n.id;
    assert(of_tenant(tenant_id) =~= pm);
    assert(addressees_of(n.id) =~= pr);
    st.members.lemma_filter_len(pm);
    st.recipients.lemma_filter_len(pr);
    st.reads.lemma_filter_len(pd);
    let a = crate::platform::notifications::read_by_member(st, tenant_id, n.id);
    let b = crate::platform::notifications::read_by_addressee(st, n.id);
    lemma_filter_fewer(st.reads, a, pd);
    lemma_filter_fewer(st.reads, b, pd);
    k
}

proof fn lemma_filter_fewer(
    rows: Seq<ReadRowView>,
    a: spec_fn(ReadRowView) -> bool,
    b: spec_fn(ReadRowView) -> bool,
)
    requires
        forall|r: ReadRowView| #[trigger] a(r) ==> b(r),
    ensures
        rows.filter(a).len() <= rows.filter(b).len(),
    decreases rows.len(),
{
    reveal(Seq::filter);
    if rows.len() > 0 {
        lemma_filter_fewer(rows.drop_last(), a, b);
    }
}

/// A reader counts exactly where they are of the audience: a member of the group for a broadcast,
/// and somebody that the message names for a targeted one.
pub proof fn readers_are_of_the_audience(
    st: PlatformState,
    tenant_id: Seq<char>,
    n: NotificationRowView,
    r: ReadRowView,
)
    requires
        st.reads.len() <= i64::MAX,
    ensures
        n.kind == "broadcast"@ ==> notification_dto(st, tenant_id, n).read_count == st.reads.filter(
            |r: ReadRowView|
                r.notification_id == n.id && exists|i: int|
                    0 <= i < st.members.len() && (#[trigger] st.members[i]).user_id == r.user_id
                        && st.members[i].tenant_id == tenant_id,
        ).len(),
        n.kind != "broadcast"@ ==> notification_dto(st, tenant_id, n).read_count == st.reads.filter(
            |r: ReadRowView|
                r.notification_id == n.id && exists|i: int|
                    0 <= i < st.recipients.len() && (#[trigger] st.recipients[i]).notification_id
                        == n.id && st.recipients[i].user_id == r.user_id,
        ).len(),
{
    let a = crate::platform::notifications::read_by_member(st, tenant_id, n.id);
    let b = crate::platform::notifications::read_by_addressee(st, n.id);
    let pa = |r: ReadRowView|
        r.notification_id == n.id && exists|i: int|
            0 <= i < st.members.len() && (#[trigger] st.members[i]).user_id == r.user_id
                && st.members[i].tenant_id == tenant_id;
    let pb = |r: ReadRowView|
        r.notification_id == n.id && exists|i: int|
            0 <= i < st.recipients.len() && (#[trigger] st.recipients[i]).notification_id == n.id
                && st.recipients[i].user_id == r.user_id;
    assert forall|r: ReadRowView| #[trigger] a(r) == pa(r) by {
        let p = member_key(r.user_id, tenant_id);
        assert(any(st.members, p) <==> exists|i: int|
            0 <= i < st.members.len() && (#[trigger] st.members[i]).user_id == r.user_id
                && st.members[i].tenant_id == tenant_id) by {
            if any(st.members, p) {
                let i = choose|i: int| 0 <= i < st.members.len() && p(#[trigger] st.members[i]);
                assert(st.members[i].user_id == r.user_id);
            }
            if exists|i: int|
                0 <= i < st.members.len() && (#[trigger] st.members[i]).user_id == r.user_id
                    && st.members[i].tenant_id == tenant_id {
                let i = choose|i: int|
                    0 <= i < st.members.len() && (#[trigger] st.members[i]).user_id == r.user_id
                        && st.members[i].tenant_id == tenant_id;
                assert(p(st.members[i]));
            }
        }
    }
    assert forall|r: ReadRowView| #[trigger] b(r) == pb(r) by {
        let p = addressed(n.id, r.user_id);
        assert(any(st.recipients, p) <==> exists|i: int|
            0 <= i < st.recipients.len() && (#[trigger] st.recipients[i]).notification_id == n.id
                && st.recipients[i].user_id == r.user_id) by {
            if any(st.recipients, p) {
                let i = choose|i: int|
                    0 <= i < st.recipients.len() && p(#[trigger] st.recipients[i]);
                assert(st.recipients[i].user_id == r.user_id);
            }
            if exists|i: int|
                0 <= i < st.recipients.len() && (#[trigger] st.recipients[i]).notification_id
                    == n.id && st.recipients[i].user_id == r.user_id {
                let i = choose|i: int|
                    0 <= i < st.recipients.len() && (
                    #[trigger] st.recipients[i]).notification_id == n.id && st.recipients[i].user_id
                        == r.user_id;
                assert(p(st.recipients[i]));
            }
        }
    }
    assert(a =~= pa);
    assert(b =~= pb);
    st.reads.lemma_filter_len(pa);
    st.reads.lemma_filter_len(pb);
}

/// A message that is withdrawn goes, with whom it was for and who read it, and no other does.
pub proof fn withdrawal_takes_one_message(
    before: PlatformState,
    after: PlatformState,
    tenant_id: Seq<char>,
    id: Seq<char>,
    r: Result<(), PlatformErrorView>,
    n: NotificationRowView,
    c: RecipientRowView,
    d: ReadRowView,
)
    requires
        message_withdrawn(before, after, tenant_id, id, r),
    ensures
        r is Ok <==> exists|i: int|
            0 <= i < before.notifications.len() && (#[trigger] before.notifications[i]).tenant_id
                == tenant_id && before.notifications[i].id == id,
        r is Err ==> after == before,
        r is Ok ==> {
            &&& after.notifications.contains(n) <==> before.notifications.contains(n) && !(
            n.tenant_id == tenant_id && n.id == id)
            &&& after.recipients.contains(c) <==> before.recipients.contains(c)
                && c.notification_id != id
            &&& after.reads.contains(d) <==> before.reads.contains(d) && d.notification_id != id
        },
{
    let p = notification_key(tenant_id, id);
    if exists|i: int|
        0 <= i < before.notifications.len() && (#[trigger] before.notifications[i]).tenant_id
            == tenant_id && before.notifications[i].id == id {
        let i = choose|i: int|
            0 <= i < before.notifications.len() && (#[trigger] before.notifications[i]).tenant_id
                == tenant_id && before.notifications[i].id == id;
        assert(p(before.notifications[i]));
    }
    crate::table::lemma_filter_contains(
        before.notifications,
        not_notification_key(tenant_id, id),
        n,
    );
    crate::table::lemma_filter_contains(before.recipients, not_addressees_of(id), c);
    crate::table::lemma_filter_contains(before.reads, not_reads_of(id), d);
}

} // verus!
