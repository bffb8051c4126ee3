//! What registering, changing and listing storages does.
use crate::parse::split_at_each;
use crate::platform::error::PlatformErrorView;
use crate::platform::models::{
    ObjectStorageConfigDtoView, ObjectStorageConfigInputView, ObjectStorageRowView,
};
use crate::platform::object_storage::{
    default_first, driver_plan, made_default, not_storage_key, prefix_shape, probe_told,
    shown_listing, storage_created, storage_dto, storage_key, storage_removed, storage_updated,
    storages_of, storages_shown, stored_prefix, traverses,
};
use crate::platform::service::PlatformState;
use crate::platform::storage_driver::DriverListingView;
use crate::table::{any, first, lemma_first, lemma_found_at, listed_rows};
use crate::text::{text_le, trimmed_text, white_space};
use crate::text_laws::{
    all_of, dropping_takes_the_end, skipping_takes_the_lead, trimming_takes_white_space,
};
use vstd::prelude::*;

verus! {

/// Whether a text that was given says something.
pub open spec fn says(given: Option<Seq<char>>) -> bool {
    given matches Some(t) && trimmed_text(t).len() > 0
}

/// A new registration holds what was given, without white space around it, and where nothing was
/// given the S3 protocol and its first region. It is refused without a key, a bucket or an endpoint,
/// for a protocol that there is none of, and for a key that the group uses already.
pub proof fn registration_holds_what_was_given(
    before: PlatformState,
    after: PlatformState,
    id: Seq<char>,
    tenant_id: Seq<char>,
    created_by: Seq<char>,
    input: ObjectStorageConfigInputView,
    sealed: Seq<char>,
    now: i64,
    r: Result<ObjectStorageConfigDtoView, PlatformErrorView>,
)
    requires
        storage_created(before, after, id, tenant_id, created_by, input, sealed, now, r),
    ensures
        r is Ok <==> says(input.config_key) && says(input.bucket) && says(input.endpoint) && (says(
            input.protocol,
        ) ==> trimmed_text(input.protocol->0) == "s3"@ || trimmed_text(input.protocol->0)
            == "webdav"@) && forall|i: int|
            0 <= i < before.storages.len() ==> !((#[trigger] before.storages[i]).tenant_id
                == tenant_id && before.storages[i].config_key == trimmed_text(
                input.config_key->0,
            )),
        r is Err ==> after == before,
        after == (PlatformState { storages: after.storages, ..before }),
        r matches Ok(d) ==> {
            let n = before.storages.len() as int;
            let row = after.storages[n];
            &&& after.storages.len() == n + 1
            &&& row.id == id && d.id == id
            &&& row.tenant_id == tenant_id
            &&& row.config_key == trimmed_text(input.config_key->0) && d.config_key
                == row.config_key
            &&& row.bucket == trimmed_text(input.bucket->0) && d.bucket == row.bucket
            &&& row.endpoint == trimmed_text(input.endpoint->0) && d.endpoint == row.endpoint
            &&& row.protocol == if says(input.protocol) {
                trimmed_text(input.protocol->0)
            } else {
                "s3"@
            }
            &&& d.protocol == row.protocol
            &&& row.region == if says(input.region) {
                trimmed_text(input.region->0)
            } else {
                "us-east-1"@
            }
            &&& d.region == row.region
            &&& row.access_key_id == if says(input.access_key_id) {
                Some(trimmed_text(input.access_key_id->0))
            } else {
                None
            }
            &&& d.access_key_id == row.access_key_id
            &&& row.secret_access_key_encrypted == if says(input.secret_access_key) {
                Some(sealed)
            } else {
                None
            }
            &&& d.has_secret == says(input.secret_access_key)
            &&& d.force_path_style == (input.force_path_style != Some(false))
            &&& (row.force_path_style != 0) == d.force_path_style
            &&& (row.is_default != 0) == d.is_default
            &&& input.is_default == Some(true) ==> d.is_default
            &&& row.created_by == created_by && d.created_by == created_by
            &&& row.created_at == now && row.updated_at == now
            &&& forall|i: int|
                0 <= i < n ==> #[trigger] after.storages[i] == before.storages[i]
                    || after.storages[i] == (ObjectStorageRowView {
                    is_default: 0,
                    ..before.storages[i]
                })
            &&& forall|i: int|
                0 <= i < n && (#[trigger] before.storages[i]).tenant_id != tenant_id
                    ==> after.storages[i] == before.storages[i]
        },
{
    let key = trimmed_text(input.config_key->0);
    let p = crate::platform::object_storage::keyed(tenant_id, key);
    assert forall|i: int| 0 <= i < before.storages.len() implies p(#[trigger] before.storages[i])
        == (before.storages[i].tenant_id == tenant_id && before.storages[i].config_key == key) by {
    }
}

/// A change sets what is given and keeps what is not. The secret stays where none is given, goes
/// where a blank one is, and is replaced by any other. Who registered it, when and under what key
/// never changes, and neither does any other registration, but for the mark of the default.
pub proof fn change_sets_what_is_given(
    before: PlatformState,
    after: PlatformState,
    tenant_id: Seq<char>,
    id: Seq<char>,
    input: ObjectStorageConfigInputView,
    sealed: Seq<char>,
    now: i64,
    r: Result<ObjectStorageConfigDtoView, PlatformErrorView>,
    at: int,
)
    requires
        storage_updated(before, after, tenant_id, id, input, sealed, now, r),
        0 <= at < before.storages.len(),
        before.storages[at].tenant_id == tenant_id,
        before.storages[at].id == id,
        forall|i: int|
            0 <= i < at ==> !((#[trigger] before.storages[i]).tenant_id == tenant_id
                && before.storages[i].id == id),
    ensures
        r is Ok <==> (says(input.protocol) ==> trimmed_text(input.protocol->0) == "s3"@
            || trimmed_text(input.protocol->0) == "webdav"@),
        r is Err ==> after == before,
        after == (PlatformState { storages: after.storages, ..before }),
        after.storages.len() == before.storages.len(),
        r matches Ok(d) ==> {
            let old_row = before.storages[at];
            let row = after.storages[at];
            &&& row.id == id && row.tenant_id == tenant_id && row.config_key == old_row.config_key
            &&& row.created_by == old_row.created_by && row.created_at == old_row.created_at
            &&& row.updated_at == now
            &&& row.bucket == if says(input.bucket) {
                trimmed_text(input.bucket->0)
            } else {
                old_row.bucket
            }
            &&& row.endpoint == if says(input.endpoint) {
                trimmed_text(input.endpoint->0)
            } else {
                old_row.endpoint
            }
            &&& row.protocol == if says(input.protocol) {
                trimmed_text(input.protocol->0)
            } else {
                old_row.protocol
            }
            &&& row.region == if says(input.region) {
                trimmed_text(input.region->0)
            } else {
                old_row.region
            }
            &&& input.prefix is None ==> row.prefix == old_row.prefix
            &&& input.access_key_id is None ==> row.access_key_id == old_row.access_key_id
            &&& says(input.access_key_id) ==> row.access_key_id == Some(
                trimmed_text(input.access_key_id->0),
            )
            &&& input.access_key_id is Some && !says(input.access_key_id) ==> row.access_key_id
                is None
            &&& input.secret_access_key is None ==> row.secret_access_key_encrypted
                == old_row.secret_access_key_encrypted
            &&& says(input.secret_access_key) ==> row.secret_access_key_encrypted == Some(sealed)
            &&& input.secret_access_key is Some && !says(input.secret_access_key)
                ==> row.secret_access_key_encrypted is None
            &&& (row.force_path_style != 0) == match input.force_path_style {
                Some(b) => b,
                None => old_row.force_path_style != 0,
            }
            &&& (row.is_default != 0) == (input.is_default == Some(true) || old_row.is_default != 0)
            &&& d.is_default == (row.is_default != 0)
            &&& forall|i: int|
                0 <= i < before.storages.len() && ((#[trigger] before.storages[i]).tenant_id
                    != tenant_id || before.storages[i].id != id) ==> after.storages[i] == if
                    row.is_default != 0 && before.storages[i].tenant_id == tenant_id {
                    ObjectStorageRowView { is_default: 0, ..before.storages[i] }
                } else {
                    before.storages[i]
                }
            &&& d.bucket == row.bucket && d.endpoint == row.endpoint && d.region == row.region
            &&& d.has_secret == (row.secret_access_key_encrypted is Some)
            &&& forall|i: int|
                0 <= i < before.storages.len() && ((#[trigger] before.storages[i]).tenant_id
                    != tenant_id || before.storages[i].id != id) ==> after.storages[i]
                    == before.storages[i] || after.storages[i] == (ObjectStorageRowView {
                    is_default: 0,
                    ..before.storages[i]
                })
        },
{
    let p = storage_key(tenant_id, id);
    assert(p(before.storages[at]));
    lemma_found_at(before.storages, p, at);
}

/// A registration that is not there can be neither changed nor deleted.
pub proof fn only_what_is_there_changes(
    before: PlatformState,
    after: PlatformState,
    tenant_id: Seq<char>,
    id: Seq<char>,
    input: ObjectStorageConfigInputView,
    sealed: Seq<char>,
    now: i64,
    r: Result<ObjectStorageConfigDtoView, PlatformErrorView>,
    gone: PlatformState,
    d: Result<(), PlatformErrorView>,
)
    requires
        storage_updated(before, after, tenant_id, id, input, sealed, now, r),
        storage_removed(before, gone, tenant_id, id, now, d),
        forall|i: int|
            0 <= i < before.storages.len() ==> !((#[trigger] before.storages[i]).tenant_id
                == tenant_id && before.storages[i].id == id),
    ensures
        r is Err && after == before && d is Err && gone == before,
{
    lemma_first(before.storages, storage_key(tenant_id, id));
}

/// Deleting a registration takes that one; all others are still there, but for the mark of the
/// default and the time of change.
pub proof fn deletion_takes_one_storage(
    before: PlatformState,
    after: PlatformState,
    tenant_id: Seq<char>,
    id: Seq<char>,
    now: i64,
    r: Result<(), PlatformErrorView>,
)
    requires
        storage_removed(before, after, tenant_id, id, now, r),
    ensures
        r is Ok ==> forall|i: int|
            0 <= i < after.storages.len() ==> !((#[trigger] after.storages[i]).tenant_id
                == tenant_id && after.storages[i].id == id),
        r is Ok ==> after.storages.len() == before.storages.filter(
            |s: ObjectStorageRowView| !(s.tenant_id == tenant_id && s.id == id),
        ).len(),
        r is Ok ==> forall|i: int|
            0 <= i < after.storages.len() ==> {
                let kept = before.storages.filter(
                    |s: ObjectStorageRowView| !(s.tenant_id == tenant_id && s.id == id),
                )[i];
                let s = #[trigger] after.storages[i];
                s == (ObjectStorageRowView {
                    is_default: s.is_default,
                    updated_at: s.updated_at,
                    ..kept
                })
            },
        after == (PlatformState { storages: after.storages, ..before }),
{
    let q = |s: ObjectStorageRowView| !(s.tenant_id == tenant_id && s.id == id);
    let p = not_storage_key(tenant_id, id);
    assert(p =~= q);
    let rest = before.storages.filter(q);
    if r is Ok {
        assert forall|i: int| 0 <= i < after.storages.len() implies !((
        #[trigger] after.storages[i]).tenant_id == tenant_id && after.storages[i].id == id) by {
            before.storages.lemma_filter_pred(q, i);
            assert(after.storages[i].id == rest[i].id && after.storages[i].tenant_id
                == rest[i].tenant_id);
        }
    }
}

/// A group sees each of its registrations as it is held, but for the secret.
pub proof fn group_sees_its_storages(
    st: PlatformState,
    tenant_id: Seq<char>,
    out: Seq<ObjectStorageConfigDtoView>,
    i: int,
) -> (k: int)
    requires
        storages_shown(st, tenant_id, out),
        0 <= i < st.storages.len(),
        st.storages[i].tenant_id == tenant_id,
    ensures
        0 <= k < out.len(),
        out[k].id == st.storages[i].id,
        out[k].protocol == st.storages[i].protocol,
        out[k].config_key == st.storages[i].config_key,
        out[k].bucket == st.storages[i].bucket,
        out[k].endpoint == st.storages[i].endpoint,
        out[k].region == st.storages[i].region,
        out[k].prefix == st.storages[i].prefix,
        out[k].access_key_id == st.storages[i].access_key_id,
        out[k].has_secret == (st.storages[i].secret_access_key_encrypted is Some),
        out[k].force_path_style == (st.storages[i].force_path_style != 0),
        out[k].is_default == (st.storages[i].is_default != 0),
        out[k].created_by == st.storages[i].created_by,
        out[k].created_at == st.storages[i].created_at,
        out[k].updated_at == st.storages[i].updated_at,
{
    let p = storages_of(tenant_id);
    let shown = listed_rows(
        out,
        st.storages,
        p,
        default_first(),
        |r: ObjectStorageRowView| storage_dto(r),
    );
    assert(p(st.storages[i]));
    let k = choose|k: int| 0 <= k < shown.len() && shown[k] == st.storages[i];
    assert(out[k] == storage_dto(shown[k]));
    k
}

/// A group sees no registration of another, the default first and the others in the order of their
/// keys.
pub proof fn storages_are_shown_in_order(
    st: PlatformState,
    tenant_id: Seq<char>,
    out: Seq<ObjectStorageConfigDtoView>,
    j: int,
    k: int,
) -> (i: int)
    requires
        storages_shown(st, tenant_id, out),
        0 <= j < k < out.len(),
        forall|i: int|
            0 <= i < st.storages.len() ==> 0 <= (#[trigger] st.storages[i]).is_default <= 1,
    ensures
        out.len() == st.storages.filter(
            |r: ObjectStorageRowView| r.tenant_id == tenant_id,
        ).len(),
        0 <= i < st.storages.len(),
        st.storages[i].tenant_id == tenant_id,
        st.storages[i].id == out[k].id,
        out[k].is_default ==> out[j].is_default,
        out[j].is_default == out[k].is_default ==> text_le(out[j].config_key, out[k].config_key),
{
    let p = storages_of(tenant_id);
    let shown = listed_rows(
        out,
        st.storages,
        p,
        default_first(),
        |r: ObjectStorageRowView| storage_dto(r),
    );
    assert(p =~= (|r: ObjectStorageRowView| r.tenant_id == tenant_id));
    assert(p(shown[k]));
    let a = choose|i: int| 0 <= i < st.storages.len() && st.storages[i] == shown[j];
    let b = choose|i: int| 0 <= i < st.storages.len() && st.storages[i] == shown[k];
    assert(out[j] == storage_dto(shown[j]) && out[k] == storage_dto(shown[k]));
    assert(default_first()(shown[j], shown[k]));
    assert(0 <= st.storages[a].is_default <= 1 && 0 <= st.storages[b].is_default <= 1);
    b
}

/// A prefix is kept as the path it names, with one slash after it and none before, however many
/// slashes and whatever white space stand around it.
pub proof fn prefix_is_the_path(
    lead: Seq<char>,
    front: Seq<char>,
    path: Seq<char>,
    back: Seq<char>,
    end: Seq<char>,
)
    requires
        all_of(lead, |c: char| white_space(c)),
        all_of(end, |c: char| white_space(c)),
        all_of(front, |c: char| c == '/'),
        all_of(back, |c: char| c == '/'),
        path.len() > 0,
        path[0] != '/' && path.last() != '/',
        !white_space(path[0]) && !white_space(path.last()),
    ensures
        prefix_shape(lead + (front + path + back) + end) =~= path + seq!['/'],
{
    let core = front + path + back;
    let p = |c: char| c == '/';
    if front.len() > 0 {
        assert(p(front[0]));
        assert(core[0] == front[0]);
    } else {
        assert(core[0] == path[0]);
    }
    if back.len() > 0 {
        assert(p(back[back.len() - 1]));
        assert(core.last() == back.last());
    } else {
        assert(core.last() == path.last());
    }
    trimming_takes_white_space(lead, core, end);
    assert(core =~= front + (path + back));
    assert((path + back)[0] == path[0]);
    skipping_takes_the_lead(front, path + back, p);
    dropping_takes_the_end(path, back, p);
}

/// The pieces of a text that is put together from two at a separator are the pieces of the two.
pub proof fn lemma_split_join(a: Seq<char>, b: Seq<char>, sep: char)
    ensures
        split_at_each(a, sep).len() > 0,
        split_at_each(a + seq![sep] + b, sep) == split_at_each(a, sep) + split_at_each(b, sep),
    decreases b.len(),
{
    lemma_split_some(a, sep);
    lemma_split_some(b, sep);
    let text = a + seq![sep] + b;
    if b.len() == 0 {
        assert(text.drop_last() =~= a);
        assert(text.last() == sep);
        assert(split_at_each(text, sep) =~= split_at_each(a, sep) + split_at_each(b, sep));
    } else {
        let c = b.drop_last();
        lemma_split_join(a, c, sep);
        lemma_split_some(c, sep);
        assert(text.drop_last() =~= a + seq![sep] + c);
        assert(text.last() == b.last());
        assert(split_at_each(text, sep) =~= split_at_each(a, sep) + split_at_each(b, sep));
    }
}

proof fn lemma_split_some(a: Seq<char>, sep: char)
    ensures
        split_at_each(a, sep).len() > 0,
    decreases a.len(),
{
    if a.len() > 0 {
        lemma_split_some(a.drop_last(), sep);
    }
}

pub proof fn lemma_split_bare(a: Seq<char>, sep: char)
    requires
        forall|i: int| 0 <= i < a.len() ==> #[trigger] a[i] != sep,
    ensures
        split_at_each(a, sep) =~= seq![a],
    decreases a.len(),
{
    if a.len() > 0 {
        lemma_split_bare(a.drop_last(), sep);
        assert(a.last() == a[a.len() - 1]);
        assert(a.drop_last().push(a.last()) =~= a);
    } else {
        assert(a =~= Seq::empty());
    }
}

/// A path with a segment that leads elsewhere is refused, wherever in the path it stands.
pub proof fn traversal_is_seen(head: Seq<char>, dots: Seq<char>, tail: Seq<char>)
    requires
        dots == ".."@ || dots == "."@,
    ensures
        traverses(dots),
        traverses(head + seq!['/'] + dots),
        traverses(dots + seq!['/'] + tail),
        traverses(head + seq!['/'] + dots + seq!['/'] + tail),
{
    reveal_strlit("..");
    reveal_strlit(".");
    assert(forall|i: int| 0 <= i < dots.len() ==> #[trigger] dots[i] != '/');
    lemma_split_bare(dots, '/');
    assert(split_at_each(dots, '/')[0] == dots);
    lemma_split_join(head, dots, '/');
    let n = split_at_each(head, '/').len() as int;
    assert(split_at_each(head + seq!['/'] + dots, '/')[n] == dots);
    lemma_split_join(dots, tail, '/');
    assert(split_at_each(dots + seq!['/'] + tail, '/')[0] == dots);
    lemma_split_join(head + seq!['/'] + dots, tail, '/');
    assert(split_at_each(head + seq!['/'] + dots + seq!['/'] + tail, '/')[n] == dots);
}

/// A path of plain segments is not refused.
pub proof fn plain_path_is_let_through(a: Seq<char>, b: Seq<char>)
    requires
        forall|i: int| 0 <= i < a.len() ==> #[trigger] a[i] != '/' && a[i] != '.',
        !traverses(b),
    ensures
        !traverses(a),
        !traverses(a + seq!['/'] + b),
{
    reveal_strlit("..");
    reveal_strlit(".");
    lemma_split_bare(a, '/');
    assert(split_at_each(a, '/') == seq![a]);
    assert(".."@[0] == '.' && "."@[0] == '.');
    assert(a != ".."@ && a != "."@) by {
        if a.len() > 0 {
            assert(a[0] != '.');
        }
    }
    lemma_split_join(a, b, '/');
    let all = split_at_each(a + seq!['/'] + b, '/');
    assert forall|i: int| 0 <= i < all.len() implies #[trigger] all[i] != ".."@ && all[i] != "."@ by {
        if i > 0 {
            assert(all[i] == split_at_each(b, '/')[i - 1]);
        }
    }
}

/// A storage is asked as it is registered, and only where it has an access key and a secret.
pub proof fn storage_is_asked_as_registered(
    st: PlatformState,
    tenant_id: Seq<char>,
    id: Seq<char>,
    secret: Option<Seq<char>>,
    at: int,
)
    requires
        0 <= at < st.storages.len(),
        st.storages[at].tenant_id == tenant_id,
        st.storages[at].id == id,
        forall|i: int|
            0 <= i < at ==> !((#[trigger] st.storages[i]).tenant_id == tenant_id
                && st.storages[i].id == id),
    ensures
        driver_plan(st, tenant_id, id, secret) is Ok <==> st.storages[at].access_key_id is Some
            && secret is Some && (st.storages[at].protocol == "s3"@ || st.storages[at].protocol
            == "webdav"@),
        driver_plan(st, tenant_id, id, secret) matches Ok(plan) ==> {
            let s = st.storages[at];
            &&& plan.protocol == s.protocol
            &&& plan.config.endpoint == s.endpoint
            &&& plan.config.bucket == s.bucket
            &&& plan.config.region == s.region
            &&& Some(plan.config.access_key_id) == s.access_key_id
            &&& Some(plan.config.secret_access_key) == secret
            &&& plan.config.force_path_style == (s.force_path_style != 0)
            &&& s.prefix matches Some(p) ==> plan.base == p
            &&& s.prefix is None ==> plan.base.len() == 0
        },
{
    lemma_found_at(st.storages, storage_key(tenant_id, id), at);
}

/// A probe that the storage refuses is an answer and no error; only a reachable one is fine.
pub proof fn refusal_is_an_answer(reply: Result<Seq<char>, PlatformErrorView>)
    ensures
        reply matches Ok(m) ==> (probe_told(reply) matches Ok(d) && d.ok && d.message == m),
        reply matches Err(PlatformErrorView::BadRequest(m)) ==> (probe_told(reply) matches Ok(d)
            && !d.ok && d.message == m),
        probe_told(reply) matches Ok(d) ==> d.ok == (reply is Ok),
{
}

/// A listing is shown entry by entry, in order, with the prefix and the token to go on from.
pub proof fn listing_is_shown_whole(prefix: Seq<char>, listing: DriverListingView)
    ensures
        ({
            let d = shown_listing(prefix, listing);
            &&& d.prefix == prefix
            &&& d.next_token == listing.next_token
            &&& d.entries.len() == listing.entries.len()
            &&& forall|i: int|
                0 <= i < listing.entries.len() ==> {
                    let e = #[trigger] listing.entries[i];
                    &&& d.entries[i].key == e.key
                    &&& d.entries[i].name == e.name
                    &&& d.entries[i].is_prefix == e.is_prefix
                    &&& d.entries[i].size_bytes == e.size_bytes
                    &&& d.entries[i].last_modified == e.last_modified
                }
        }),
{
}

/// A registration that becomes the default is marked so from now on; every other is as before. A
/// prefix is stored where there is one.
pub proof fn one_becomes_the_default(
    rows: Seq<ObjectStorageRowView>,
    tenant_id: Seq<char>,
    id: Seq<char>,
    now: i64,
    raw: Seq<char>,
)
    ensures
        made_default(rows, tenant_id, id, now).len() == rows.len(),
        forall|i: int|
            0 <= i < rows.len() ==> #[trigger] made_default(rows, tenant_id, id, now)[i] == if
                rows[i].tenant_id == tenant_id && rows[i].id == id {
                ObjectStorageRowView { is_default: 1, updated_at: now, ..rows[i] }
            } else {
                rows[i]
            },
        stored_prefix(raw) is Some <==> prefix_shape(raw).len() > 0,
        stored_prefix(raw) matches Some(prefix) ==> prefix == prefix_shape(raw),
{
}

} // verus!
