//! What holds of the platform as a whole.
use crate::platform::grants::{
    granted, not_grant_key, reaches, reaches_all, reaches_resource, same_grant,
    GRANT_ALL_RESOURCES,
};
use crate::platform::models::{
    DiskFileView, FileVaultReconcileEntryView, NotificationRowView, ObjectStorageConfigInputView,
    ObjectStorageRowView, ReadRowView, RecipientRowView, ResourceGrantRowView, SceneRowView,
    VaultObjectRowView, VaultSettingsRowView,
};
use crate::platform::notifications::{
    addressed, not_addressees_of, not_notification_key, not_reads_of, notification_key, read_by,
    seen_by, sent, to_mark, unread_by, withdrawn, with_addressees, with_reads,
};
use crate::platform::object_storage::{
    changed_storage, default_first, made_default, new_storage, not_storage_key, others_cleared,
    settled, storage_changed, storage_deleted, storage_key, storages_of,
};
use crate::platform::scenes::{
    not_granted_to_scene, not_roster_of, roster_of, scene_deleted, scene_named, seeded,
    BuiltinSceneView,
};
use crate::platform::service::PlatformState;
use crate::platform::vault::{
    by_id, disagreement, disagreements, disagrees, disk_of, either_side, kept_name, last_name,
    ledgers_of, live, live_object, not_in_ledger, not_on_disk, object_id, of_other_size,
    on_either_side, reconciled, recorded_as, settings_of, stored_as, tombstoned, unfit,
    upload_refusal, usage, vault_state, with_quota, with_status,
};
use crate::table::{
    any, first, least, lemma_any_push, lemma_filter_contains, lemma_filter_from, lemma_first,
    lemma_first_map, lemma_first_push, lemma_least, sorted_from,
};
use vstd::prelude::*;

verus! {

/// Granting what is granted already changes nothing, whatever identifier it would have had.
pub proof fn granting_twice_is_granting_once(
    grants: Seq<ResourceGrantRowView>,
    row: ResourceGrantRowView,
    again: ResourceGrantRowView,
)
    requires
        same_grant(
            row.tenant_id,
            row.subject_type,
            row.subject_id,
            row.resource_type,
            row.resource_id,
        )(again),
    ensures
        granted(granted(grants, row), again) == granted(grants, row),
{
    let p = same_grant(
        row.tenant_id,
        row.subject_type,
        row.subject_id,
        row.resource_type,
        row.resource_id,
    );
    if !any(grants, p) {
        assert(p(row));
        lemma_any_push(grants, row, p);
    }
}

/// A resource that was granted to a member is one that they may reach.
pub proof fn granted_is_reached(st: PlatformState, row: ResourceGrantRowView)
    requires
        row.subject_type == "member"@,
    ensures
        ({
            let after = PlatformState { grants: granted(st.grants, row), ..st };
            any(
                after.grants,
                reaches_resource(
                    after,
                    row.tenant_id,
                    row.subject_id,
                    row.resource_type,
                    row.resource_id,
                ),
            )
        }),
{
    let after = PlatformState { grants: granted(st.grants, row), ..st };
    let p = same_grant(
        row.tenant_id,
        row.subject_type,
        row.subject_id,
        row.resource_type,
        row.resource_id,
    );
    let q = reaches_resource(
        after,
        row.tenant_id,
        row.subject_id,
        row.resource_type,
        row.resource_id,
    );
    if any(st.grants, p) {
        let i = choose|i: int| 0 <= i < st.grants.len() && p(#[trigger] st.grants[i]);
        assert(q(after.grants[i]));
    } else {
        assert(q(after.grants[st.grants.len() as int]));
    }
}

/// A grant of everything that reaches a member opens every resource of the type to them.
pub proof fn wildcard_reaches_everything(
    st: PlatformState,
    tenant_id: Seq<char>,
    user_id: Seq<char>,
    resource_type: Seq<char>,
    i: int,
)
    requires
        0 <= i < st.grants.len(),
        reaches(st, tenant_id, user_id, resource_type)(st.grants[i]),
        st.grants[i].resource_id == GRANT_ALL_RESOURCES@,
    ensures
        reaches_all(st, tenant_id, user_id, resource_type),
{
    assert(reaches_resource(st, tenant_id, user_id, resource_type, GRANT_ALL_RESOURCES@)(
        st.grants[i],
    ));
}

/// Revoking a grant takes that one and no other, least of all another group's.
pub proof fn revoking_is_exact(
    grants: Seq<ResourceGrantRowView>,
    tenant_id: Seq<char>,
    id: Seq<char>,
    row: ResourceGrantRowView,
)
    ensures
        grants.filter(not_grant_key(tenant_id, id)).contains(row) <==> grants.contains(row) && !(
        row.tenant_id == tenant_id && row.id == id),
{
    lemma_filter_contains(grants, not_grant_key(tenant_id, id), row);
}

/// A deleted scene has neither members nor grants left.
pub proof fn scene_deletion_cascades(st: PlatformState, tenant_id: Seq<char>, id: Seq<char>)
    ensures
        !any(scene_deleted(st, tenant_id, id).scene_members, roster_of(id)),
        !any(
            scene_deleted(st, tenant_id, id).grants,
            |r: ResourceGrantRowView|
                r.tenant_id == tenant_id && r.subject_type == "scene"@ && r.subject_id == id,
        ),
{
    broadcast use vstd::seq_lib::group_filter_ensures;

    let after = scene_deleted(st, tenant_id, id);
    if any(after.scene_members, roster_of(id)) {
        let i = choose|i: int|
            0 <= i < after.scene_members.len() && roster_of(id)(
                #[trigger] after.scene_members[i],
            );
        assert(not_roster_of(id)(after.scene_members[i]));
    }
    let q = |r: ResourceGrantRowView|
        r.tenant_id == tenant_id && r.subject_type == "scene"@ && r.subject_id == id;
    if any(after.grants, q) {
        let i = choose|i: int| 0 <= i < after.grants.len() && q(#[trigger] after.grants[i]);
        assert(not_granted_to_scene(tenant_id, id)(after.grants[i]));
    }
}

/// Seeding leaves every scene that was there as it was, and every built-in scene is there after.
pub proof fn seeding_completes(
    scenes: Seq<SceneRowView>,
    tenant_id: Seq<char>,
    builtins: Seq<BuiltinSceneView>,
    ids: Seq<Seq<char>>,
    now: i64,
)
    ensures
        scenes.is_prefix_of(seeded(scenes, tenant_id, builtins, ids, now)),
        forall|k: int|
            0 <= k < builtins.len() ==> any(
                seeded(scenes, tenant_id, builtins, ids, now),
                scene_named(tenant_id, (#[trigger] builtins[k]).name),
            ),
    decreases builtins.len(),
{
    if builtins.len() > 0 {
        let rest = builtins.drop_last();
        let so_far = seeded(scenes, tenant_id, rest, ids, now);
        let after = seeded(scenes, tenant_id, builtins, ids, now);
        seeding_completes(scenes, tenant_id, rest, ids, now);
        assert forall|k: int| 0 <= k < builtins.len() implies any(
            after,
            scene_named(tenant_id, (#[trigger] builtins[k]).name),
        ) by {
            let p = scene_named(tenant_id, builtins[k].name);
            if k < rest.len() {
                assert(rest[k] == builtins[k]);
                let i = choose|i: int| 0 <= i < so_far.len() && p(#[trigger] so_far[i]);
                assert(p(after[i]));
            } else if !any(so_far, p) {
                assert(p(after[so_far.len() as int]));
            }
        }
    }
}

/// Seeding again adds nothing.
pub proof fn seeding_twice_is_seeding_once(
    scenes: Seq<SceneRowView>,
    tenant_id: Seq<char>,
    builtins: Seq<BuiltinSceneView>,
    ids: Seq<Seq<char>>,
    now: i64,
    more_ids: Seq<Seq<char>>,
    later: i64,
)
    ensures
        seeded(
            seeded(scenes, tenant_id, builtins, ids, now),
            tenant_id,
            builtins,
            more_ids,
            later,
        ) == seeded(scenes, tenant_id, builtins, ids, now),
{
    seeding_completes(scenes, tenant_id, builtins, ids, now);
    lemma_nothing_to_seed(
        seeded(scenes, tenant_id, builtins, ids, now),
        tenant_id,
        builtins,
        more_ids,
        later,
    );
}

proof fn lemma_nothing_to_seed(
    scenes: Seq<SceneRowView>,
    tenant_id: Seq<char>,
    builtins: Seq<BuiltinSceneView>,
    ids: Seq<Seq<char>>,
    now: i64,
)
    requires
        forall|k: int|
            0 <= k < builtins.len() ==> any(
                scenes,
                scene_named(tenant_id, (#[trigger] builtins[k]).name),
            ),
    ensures
        seeded(scenes, tenant_id, builtins, ids, now) == scenes,
    decreases builtins.len(),
{
    if builtins.len() > 0 {
        let rest = builtins.drop_last();
        assert forall|k: int| 0 <= k < rest.len() implies any(
            scenes,
            scene_named(tenant_id, (#[trigger] rest[k]).name),
        ) by {
            assert(rest[k] == builtins[k]);
        }
        lemma_nothing_to_seed(scenes, tenant_id, rest, ids, now);
        assert(any(scenes, scene_named(tenant_id, builtins[builtins.len() - 1].name)));
    }
}

/// Everyone in the group sees a broadcast.
pub proof fn broadcast_is_seen_by_all(
    st: PlatformState,
    row: NotificationRowView,
    recipients: Seq<Seq<char>>,
    user_id: Seq<char>,
)
    requires
        row.kind == "broadcast"@,
    ensures
        any(
            sent(st, row, recipients).notifications,
            seen_by(sent(st, row, recipients), row.tenant_id, user_id),
        ),
{
    let after = sent(st, row, recipients);
    let n = after.notifications[st.notifications.len() as int];
    assert(seen_by(after, row.tenant_id, user_id)(n));
}

proof fn lemma_addressees(
    rows: Seq<RecipientRowView>,
    id: Seq<char>,
    recipients: Seq<Seq<char>>,
    user_id: Seq<char>,
)
    ensures
        any(with_addressees(rows, id, recipients), addressed(id, user_id)) <==> any(
            rows,
            addressed(id, user_id),
        ) || recipients.contains(user_id),
    decreases recipients.len(),
{
    if recipients.len() > 0 {
        let rest = recipients.drop_last();
        let last = recipients.last();
        let so_far = with_addressees(rows, id, rest);
        let after = with_addressees(rows, id, recipients);
        let p = addressed(id, user_id);
        lemma_addressees(rows, id, rest, user_id);
        if recipients.contains(user_id) && last != user_id {
            let k = choose|k: int| 0 <= k < recipients.len() && recipients[k] == user_id;
            assert(rest[k] == user_id);
        }
        if rest.contains(user_id) {
            let k = choose|k: int| 0 <= k < rest.len() && rest[k] == user_id;
            assert(recipients[k] == user_id);
        }
        if last == user_id {
            assert(recipients[recipients.len() - 1] == user_id);
        }
        if !any(so_far, addressed(id, last)) {
            let row = RecipientRowView { notification_id: id, user_id: last };
            if any(so_far, p) || p(row) {
                lemma_any_push(so_far, row, p);
            }
            if any(after, p) {
                let k = choose|k: int| 0 <= k < after.len() && p(#[trigger] after[k]);
                if k < so_far.len() {
                    assert(p(so_far[k]));
                }
            }
        }
    }
}

/// Only those whom a targeted message is for see it.
pub proof fn targeted_is_seen_by_recipients(
    st: PlatformState,
    row: NotificationRowView,
    recipients: Seq<Seq<char>>,
    user_id: Seq<char>,
)
    requires
        row.kind == "targeted"@,
        forall|k: int|
            0 <= k < st.recipients.len() ==> (#[trigger] st.recipients[k]).notification_id
                != row.id,
    ensures
        seen_by(sent(st, row, recipients), row.tenant_id, user_id)(row) <==> recipients.contains(
            user_id,
        ),
{
    lemma_addressees(st.recipients, row.id, recipients, user_id);
    if any(st.recipients, addressed(row.id, user_id)) {
        let k = choose|k: int|
            0 <= k < st.recipients.len() && addressed(row.id, user_id)(
                #[trigger] st.recipients[k],
            );
        assert(st.recipients[k].notification_id == row.id);
    }
    reveal_strlit("targeted");
    reveal_strlit("broadcast");
    assert("targeted"@.len() != "broadcast"@.len());
}

proof fn lemma_reads_cover(
    rows: Seq<ReadRowView>,
    user_id: Seq<char>,
    ids: Seq<Seq<char>>,
    now: i64,
    id: Seq<char>,
)
    ensures
        any(with_reads(rows, user_id, ids, now), read_by(id, user_id)) <==> any(
            rows,
            read_by(id, user_id),
        ) || ids.contains(id),
    decreases ids.len(),
{
    if ids.len() > 0 {
        let rest = ids.drop_last();
        let last = ids.last();
        let so_far = with_reads(rows, user_id, rest, now);
        let after = with_reads(rows, user_id, ids, now);
        let p = read_by(id, user_id);
        lemma_reads_cover(rows, user_id, rest, now, id);
        if ids.contains(id) && last != id {
            let k = choose|k: int| 0 <= k < ids.len() && ids[k] == id;
            assert(rest[k] == id);
        }
        if rest.contains(id) {
            let k = choose|k: int| 0 <= k < rest.len() && rest[k] == id;
            assert(ids[k] == id);
        }
        if last == id {
            assert(ids[ids.len() - 1] == id);
        }
        if !any(so_far, read_by(last, user_id)) {
            let row = ReadRowView { notification_id: last, user_id, read_at: now };
            if any(so_far, p) || p(row) {
                lemma_any_push(so_far, row, p);
            }
            if any(after, p) {
                let k = choose|k: int| 0 <= k < after.len() && p(#[trigger] after[k]);
                if k < so_far.len() {
                    assert(p(so_far[k]));
                }
            }
        }
    }
}

/// Marking what is read changes nothing: a message keeps the time it was first read.
pub proof fn marking_twice_is_marking_once(
    rows: Seq<ReadRowView>,
    user_id: Seq<char>,
    ids: Seq<Seq<char>>,
    now: i64,
    later: i64,
)
    ensures
        with_reads(with_reads(rows, user_id, ids, now), user_id, ids, later) == with_reads(
            rows,
            user_id,
            ids,
            now,
        ),
{
    let once = with_reads(rows, user_id, ids, now);
    assert forall|k: int| 0 <= k < ids.len() implies any(once, read_by(#[trigger] ids[k], user_id)) by {
        lemma_reads_cover(rows, user_id, ids, now, ids[k]);
        assert(ids.contains(ids[k]));
    }
    lemma_all_read(once, user_id, ids, later);
}

proof fn lemma_all_read(rows: Seq<ReadRowView>, user_id: Seq<char>, ids: Seq<Seq<char>>, now: i64)
    requires
        forall|k: int| 0 <= k < ids.len() ==> any(rows, read_by(#[trigger] ids[k], user_id)),
    ensures
        with_reads(rows, user_id, ids, now) == rows,
    decreases ids.len(),
{
    if ids.len() > 0 {
        let rest = ids.drop_last();
        assert(forall|k: int| 0 <= k < rest.len() ==> #[trigger] rest[k] == ids[k]);
        lemma_all_read(rows, user_id, rest, now);
        assert(any(rows, read_by(ids[ids.len() - 1], user_id)));
    }
}

/// One member's reading does not count as another's.
pub proof fn reading_is_personal(
    rows: Seq<ReadRowView>,
    user_id: Seq<char>,
    ids: Seq<Seq<char>>,
    now: i64,
    id: Seq<char>,
    other: Seq<char>,
)
    requires
        other != user_id,
    ensures
        any(with_reads(rows, user_id, ids, now), read_by(id, other)) <==> any(
            rows,
            read_by(id, other),
        ),
    decreases ids.len(),
{
    if ids.len() > 0 {
        let so_far = with_reads(rows, user_id, ids.drop_last(), now);
        let after = with_reads(rows, user_id, ids, now);
        let p = read_by(id, other);
        reading_is_personal(rows, user_id, ids.drop_last(), now, id, other);
        if after != so_far {
            if any(so_far, p) {
                let k = choose|k: int| 0 <= k < so_far.len() && p(#[trigger] so_far[k]);
                assert(p(after[k]));
            }
            if any(after, p) {
                let k = choose|k: int| 0 <= k < after.len() && p(#[trigger] after[k]);
                assert(p(so_far[k]));
            }
        }
    }
}

/// After a member marked everything as read, nothing is unread for them.
pub proof fn marking_all_leaves_none_unread(
    st: PlatformState,
    tenant_id: Seq<char>,
    user_id: Seq<char>,
    now: i64,
)
    ensures
        ({
            let after = PlatformState {
                reads: with_reads(
                    st.reads,
                    user_id,
                    to_mark(st, tenant_id, user_id, Seq::empty()),
                    now,
                ),
                ..st
            };
            after.notifications.filter(unread_by(after, tenant_id, user_id)).len() == 0
        }),
{
    broadcast use vstd::seq_lib::group_filter_ensures;

    let ids = to_mark(st, tenant_id, user_id, Seq::empty());
    let after = PlatformState { reads: with_reads(st.reads, user_id, ids, now), ..st };
    let p = unread_by(after, tenant_id, user_id);
    let q = unread_by(st, tenant_id, user_id);
    let left = after.notifications.filter(p);
    let unread = st.notifications.filter(q);
    if left.len() > 0 {
        let n = left[0];
        assert(p(left[0]));
        lemma_filter_from(after.notifications, p, 0);
        lemma_reads_cover(st.reads, user_id, ids, now, n.id);
        assert(q(n));
        lemma_filter_contains(st.notifications, q, n);
        let k = choose|k: int| 0 <= k < unread.len() && unread[k] == n;
        assert(ids[k] == n.id);
        assert(ids.contains(n.id));
    }
}

/// A withdrawn message is gone for everyone, with its recipients and what was read of it.
pub proof fn withdrawn_is_gone(
    st: PlatformState,
    tenant_id: Seq<char>,
    id: Seq<char>,
    user_id: Seq<char>,
)
    ensures
        ({
            let after = withdrawn(st, tenant_id, id);
            &&& !any(after.notifications, notification_key(tenant_id, id))
            &&& !any(after.recipients, addressed(id, user_id))
            &&& !any(after.reads, read_by(id, user_id))
        }),
{
    broadcast use vstd::seq_lib::group_filter_ensures;

    let after = withdrawn(st, tenant_id, id);
    if any(after.notifications, notification_key(tenant_id, id)) {
        let i = choose|i: int|
            0 <= i < after.notifications.len() && notification_key(tenant_id, id)(
                #[trigger] after.notifications[i],
            );
        assert(not_notification_key(tenant_id, id)(after.notifications[i]));
    }
    if any(after.recipients, addressed(id, user_id)) {
        let i = choose|i: int|
            0 <= i < after.recipients.len() && addressed(id, user_id)(
                #[trigger] after.recipients[i],
            );
        assert(not_addressees_of(id)(after.recipients[i]));
    }
    if any(after.reads, read_by(id, user_id)) {
        let i = choose|i: int|
            0 <= i < after.reads.len() && read_by(id, user_id)(#[trigger] after.reads[i]);
        assert(not_reads_of(id)(after.reads[i]));
    }
}

/// The name that a file is kept under holds nothing that could lead out of its directory.
pub proof fn kept_name_stays_put(raw: Seq<char>)
    ensures
        forall|i: int| 0 <= i < kept_name(raw).len() ==> !unfit(#[trigger] kept_name(raw)[i]),
{
    let mapped = last_name(raw).map_values(
        |c: char|
            if unfit(c) {
                '_'
            } else {
                c
            },
    );
    let kept = kept_name(raw);
    crate::text::lemma_trimmed_within(mapped);
    assert forall|i: int| 0 <= i < kept.len() implies !unfit(#[trigger] kept[i]) by {
        assert(mapped.contains(kept[i]));
        let j = choose|j: int| 0 <= j < mapped.len() && mapped[j] == kept[i];
        assert(!unfit(mapped[j]));
    }
}

/// A quota edit does not unfreeze a vault.
pub proof fn quota_keeps_status(
    st: PlatformState,
    tenant_id: Seq<char>,
    user_id: Seq<char>,
    quota_bytes: Option<i64>,
    now: i64,
)
    ensures
        ({
            let after = PlatformState {
                vaults: with_quota(st.vaults, tenant_id, user_id, quota_bytes, now),
                ..st
            };
            vault_state(after, tenant_id, user_id) == (
                vault_state(st, tenant_id, user_id).0,
                quota_bytes,
            )
        }),
{
    let p = settings_of(tenant_id, user_id);
    lemma_first(st.vaults, p);
    if any(st.vaults, p) {
        let g = |r: VaultSettingsRowView|
            if p(r) {
                VaultSettingsRowView { quota_bytes, updated_at: now, ..r }
            } else {
                r
            };
        assert(with_quota(st.vaults, tenant_id, user_id, quota_bytes, now)
            =~= st.vaults.map_values(g));
        lemma_first_map(st.vaults, p, g);
    } else {
        lemma_first_push(
            st.vaults,
            VaultSettingsRowView {
                tenant_id,
                user_id,
                status: "available"@,
                quota_bytes,
                updated_at: now,
            },
            p,
        );
    }
}

/// Freezing a vault, or making it available, keeps its quota.
pub proof fn status_keeps_quota(
    st: PlatformState,
    tenant_id: Seq<char>,
    user_id: Seq<char>,
    status: Seq<char>,
    now: i64,
)
    ensures
        ({
            let after = PlatformState {
                vaults: with_status(st.vaults, tenant_id, user_id, status, now),
                ..st
            };
            vault_state(after, tenant_id, user_id) == (
                status,
                vault_state(st, tenant_id, user_id).1,
            )
        }),
{
    let p = settings_of(tenant_id, user_id);
    lemma_first(st.vaults, p);
    if any(st.vaults, p) {
        let g = |r: VaultSettingsRowView|
            if p(r) {
                VaultSettingsRowView { status, updated_at: now, ..r }
            } else {
                r
            };
        assert(with_status(st.vaults, tenant_id, user_id, status, now) =~= st.vaults.map_values(
            g,
        ));
        lemma_first_map(st.vaults, p, g);
    } else {
        lemma_first_push(
            st.vaults,
            VaultSettingsRowView {
                tenant_id,
                user_id,
                status,
                quota_bytes: None,
                updated_at: now,
            },
            p,
        );
    }
}

/// A frozen vault takes no file in, whatever its size.
pub proof fn frozen_vault_refuses(
    st: PlatformState,
    tenant_id: Seq<char>,
    user_id: Seq<char>,
    file_name: Seq<char>,
    size: int,
    storage_configured: bool,
)
    requires
        vault_state(st, tenant_id, user_id).0 == "frozen"@,
    ensures
        upload_refusal(st, tenant_id, user_id, file_name, size, storage_configured) is Some,
{
}

/// A vault never holds more than its quota through uploads: after a file was taken in, all files
/// together are within it.
pub proof fn uploads_respect_quota(
    st: PlatformState,
    tenant_id: Seq<char>,
    user_id: Seq<char>,
    file_name: Seq<char>,
    storage_configured: bool,
    row: VaultObjectRowView,
)
    requires
        upload_refusal(
            st,
            tenant_id,
            user_id,
            file_name,
            row.size_bytes as int,
            storage_configured,
        ) is None,
        live(tenant_id, user_id)(row),
    ensures
        ({
            let after = PlatformState { vault_objects: st.vault_objects.push(row), ..st };
            &&& usage(after, tenant_id, user_id) == usage(st, tenant_id, user_id) + row.size_bytes
            &&& vault_state(st, tenant_id, user_id).1 matches Some(q) ==> usage(
                after,
                tenant_id,
                user_id,
            ) <= q
        }),
{
    let p = live(tenant_id, user_id);
    let all = st.vault_objects.push(row);
    reveal(Seq::filter);
    assert(all.drop_last() =~= st.vault_objects);
    assert(all.last() == row);
    let kept = st.vault_objects.filter(p);
    assert(all.filter(p) == kept.push(row));
    assert(kept.push(row).drop_last() =~= kept);
}

/// A deleted file is not found again and does not count.
pub proof fn deleted_file_is_gone(
    rows: Seq<VaultObjectRowView>,
    tenant_id: Seq<char>,
    user_id: Seq<char>,
    id: Seq<char>,
    now: i64,
)
    ensures
        !any(tombstoned(rows, id, now), live_object(tenant_id, user_id, id)),
{
    let after = tombstoned(rows, id, now);
    let p = live_object(tenant_id, user_id, id);
    if any(after, p) {
        let i = choose|i: int| 0 <= i < after.len() && p(#[trigger] after[i]);
        assert(rows[i].id == id);
    }
}

/// The records of a group's vaults and the stored files agree: every record has its bytes, of the
/// right size, and all bytes have a record.
pub open spec fn vaults_agree(
    st: PlatformState,
    tenant_id: Seq<char>,
    disk: Seq<DiskFileView>,
) -> bool {
    &&& forall|i: int|
        0 <= i < st.vault_objects.len() && live(tenant_id, st.vault_objects[i].user_id)(
            #[trigger] st.vault_objects[i],
        ) ==> {
            let r = st.vault_objects[i];
            first(disk.filter(disk_of(r.user_id)), stored_as(r.id)) matches Some(f) && f.size
                == r.size_bytes as u64
        }
    &&& forall|i: int|
        0 <= i < disk.len() ==> any(
            st.vault_objects,
            live_object(tenant_id, (#[trigger] disk[i]).user_id, object_id(disk[i].name)),
        )
}

proof fn lemma_sorted_contains<V>(out: Seq<V>, rows: Seq<V>, le: spec_fn(V, V) -> bool, v: V)
    requires
        sorted_from(out, rows, le),
    ensures
        out.contains(v) <==> rows.contains(v),
{
    out.to_multiset_ensures();
    rows.to_multiset_ensures();
    assert(out.contains(v) <==> out.to_multiset().count(v) > 0);
    assert(rows.contains(v) <==> rows.to_multiset().count(v) > 0);
}

proof fn lemma_disagreements_empty(
    users: Seq<Seq<char>>,
    ledgers: Seq<Seq<VaultObjectRowView>>,
    disk: Seq<DiskFileView>,
)
    requires
        users.len() <= ledgers.len(),
    ensures
        disagreements(users, ledgers, disk).len() == 0 <==> forall|k: int|
            0 <= k < users.len() ==> !disagrees(
                #[trigger] disagreement(users[k], ledgers[k], disk.filter(disk_of(users[k]))),
            ),
    decreases users.len(),
{
    if users.len() > 0 {
        let rest = users.drop_last();
        lemma_disagreements_empty(rest, ledgers, disk);
        let n = users.len() - 1;
        let e = disagreement(users[n], ledgers[n], disk.filter(disk_of(users[n])));
        assert(users.last() == users[n]);
        if disagreements(users, ledgers, disk).len() == 0 {
            assert forall|k: int| 0 <= k < users.len() implies !disagrees(
                #[trigger] disagreement(users[k], ledgers[k], disk.filter(disk_of(users[k]))),
            ) by {
                if k < n {
                    assert(rest[k] == users[k]);
                    assert(!disagrees(
                        disagreement(rest[k], ledgers[k], disk.filter(disk_of(rest[k]))),
                    ));
                }
            }
        }
        if forall|k: int|
            0 <= k < users.len() ==> !disagrees(
                #[trigger] disagreement(users[k], ledgers[k], disk.filter(disk_of(users[k]))),
            ) {
            assert forall|k: int| 0 <= k < rest.len() implies !disagrees(
                #[trigger] disagreement(rest[k], ledgers[k], disk.filter(disk_of(rest[k]))),
            ) by {
                assert(rest[k] == users[k]);
                assert(!disagrees(
                    disagreement(users[k], ledgers[k], disk.filter(disk_of(users[k]))),
                ));
            }
            assert(!disagrees(e));
        }
    }
}

proof fn lemma_filter_none<V>(rows: Seq<V>, p: spec_fn(V) -> bool)
    ensures
        rows.filter(p).len() == 0 <==> !any(rows, p),
{
    broadcast use vstd::seq_lib::group_filter_ensures;

    let kept = rows.filter(p);
    if kept.len() > 0 {
        lemma_filter_from(rows, p, 0);
        let k = choose|k: int| 0 <= k < rows.len() && rows[k] == kept[0];
        assert(p(kept[0]));
        assert(p(rows[k]));
    }
    if any(rows, p) {
        let k = choose|k: int| 0 <= k < rows.len() && p(#[trigger] rows[k]);
        assert(kept.contains(rows[k]));
    }
}

/// A reconciliation reports nothing exactly where the records and the stored files agree.
pub proof fn empty_report_means_agreement(
    st: PlatformState,
    tenant_id: Seq<char>,
    disk: Seq<DiskFileView>,
    out: Seq<FileVaultReconcileEntryView>,
)
    requires
        reconciled(st, tenant_id, disk, out),
    ensures
        out.len() == 0 <==> vaults_agree(st, tenant_id, disk),
{
    let (users, ledgers) = choose|
        users: Seq<Seq<char>>,
        ledgers: Seq<Seq<VaultObjectRowView>>,
    |
        either_side(st, tenant_id, disk, users) && #[trigger] ledgers_of(
            st,
            tenant_id,
            users,
            ledgers,
        ) && out == disagreements(users, ledgers, disk);
    lemma_disagreements_empty(users, ledgers, disk);
    if out.len() == 0 {
        lemma_silence_is_agreement(st, tenant_id, disk, users, ledgers);
    }
    if vaults_agree(st, tenant_id, disk) {
        assert forall|k: int| 0 <= k < users.len() implies !disagrees(
            #[trigger] disagreement(users[k], ledgers[k], disk.filter(disk_of(users[k]))),
        ) by {
            lemma_agreement_is_silence(st, tenant_id, disk, users, ledgers, k);
        }
    }
}

proof fn lemma_agreement_is_silence(
    st: PlatformState,
    tenant_id: Seq<char>,
    disk: Seq<DiskFileView>,
    users: Seq<Seq<char>>,
    ledgers: Seq<Seq<VaultObjectRowView>>,
    k: int,
)
    requires
        vaults_agree(st, tenant_id, disk),
        ledgers_of(st, tenant_id, users, ledgers),
        0 <= k < users.len(),
    ensures
        !disagrees(disagreement(users[k], ledgers[k], disk.filter(disk_of(users[k])))),
{
    let u = users[k];
    let ledger = ledgers[k];
    let mine = disk.filter(disk_of(u));
    let recorded = st.vault_objects.filter(live(tenant_id, u));
    assert(sorted_from(ledger, recorded, by_id()));
    assert forall|i: int| 0 <= i < ledger.len() implies !not_on_disk(mine)(
        #[trigger] ledger[i],
    ) && !of_other_size(mine)(ledger[i]) by {
        let r = ledger[i];
        lemma_sorted_contains(ledger, recorded, by_id(), r);
        assert(ledger.contains(r));
        lemma_filter_contains(st.vault_objects, live(tenant_id, u), r);
        let j = choose|j: int| 0 <= j < st.vault_objects.len() && st.vault_objects[j] == r;
        assert(live(tenant_id, st.vault_objects[j].user_id)(st.vault_objects[j]));
        lemma_first(mine, stored_as(r.id));
    }
    assert forall|i: int| 0 <= i < mine.len() implies !not_in_ledger(ledger)(
        #[trigger] mine[i],
    ) by {
        let f = mine[i];
        lemma_filter_contains(disk, disk_of(u), f);
        assert(mine.contains(f));
        let j = choose|j: int| 0 <= j < disk.len() && disk[j] == f;
        let q = live_object(tenant_id, disk[j].user_id, object_id(disk[j].name));
        assert(any(st.vault_objects, q));
        let m = choose|m: int|
            0 <= m < st.vault_objects.len() && q(#[trigger] st.vault_objects[m]);
        let r = st.vault_objects[m];
        lemma_filter_contains(st.vault_objects, live(tenant_id, u), r);
        assert(st.vault_objects.contains(r));
        lemma_sorted_contains(ledger, recorded, by_id(), r);
        let n = choose|n: int| 0 <= n < ledger.len() && ledger[n] == r;
        assert(recorded_as(object_id(f.name))(ledger[n]));
    }
    lemma_filter_none(ledger, not_on_disk(mine));
    lemma_filter_none(ledger, of_other_size(mine));
    lemma_filter_none(mine, not_in_ledger(ledger));
}

proof fn lemma_silence_is_agreement(
    st: PlatformState,
    tenant_id: Seq<char>,
    disk: Seq<DiskFileView>,
    users: Seq<Seq<char>>,
    ledgers: Seq<Seq<VaultObjectRowView>>,
)
    requires
        either_side(st, tenant_id, disk, users),
        ledgers_of(st, tenant_id, users, ledgers),
        forall|k: int|
            0 <= k < users.len() ==> !disagrees(
                #[trigger] disagreement(users[k], ledgers[k], disk.filter(disk_of(users[k]))),
            ),
    ensures
        vaults_agree(st, tenant_id, disk),
{
    assert forall|i: int|
        0 <= i < st.vault_objects.len() && live(tenant_id, st.vault_objects[i].user_id)(
            #[trigger] st.vault_objects[i],
        ) implies ({
        let r = st.vault_objects[i];
        first(disk.filter(disk_of(r.user_id)), stored_as(r.id)) matches Some(f) && f.size
            == r.size_bytes as u64
    }) by {
        let r = st.vault_objects[i];
        let u = r.user_id;
        assert(any(st.vault_objects, live(tenant_id, u)));
        assert(on_either_side(st, tenant_id, disk, u));
        assert(users.contains(u));
        let k = choose|k: int| 0 <= k < users.len() && users[k] == u;
        let ledger = ledgers[k];
        let mine = disk.filter(disk_of(u));
        let recorded = st.vault_objects.filter(live(tenant_id, u));
        assert(sorted_from(ledger, recorded, by_id()));
        assert(!disagrees(disagreement(users[k], ledgers[k], disk.filter(disk_of(users[k])))));
        lemma_filter_contains(st.vault_objects, live(tenant_id, u), r);
        assert(st.vault_objects.contains(r));
        lemma_sorted_contains(ledger, recorded, by_id(), r);
        let n = choose|n: int| 0 <= n < ledger.len() && ledger[n] == r;
        lemma_filter_none(ledger, not_on_disk(mine));
        lemma_filter_none(ledger, of_other_size(mine));
        assert(!not_on_disk(mine)(ledger[n]));
        assert(!of_other_size(mine)(ledger[n]));
        lemma_first(mine, stored_as(r.id));
    }
    assert forall|i: int| 0 <= i < disk.len() implies any(
        st.vault_objects,
        live_object(tenant_id, (#[trigger] disk[i]).user_id, object_id(disk[i].name)),
    ) by {
        let f = disk[i];
        let u = f.user_id;
        assert(disk_of(u)(disk[i]));
        assert(any(disk, disk_of(u)));
        assert(on_either_side(st, tenant_id, disk, u));
        assert(users.contains(u));
        let k = choose|k: int| 0 <= k < users.len() && users[k] == u;
        let ledger = ledgers[k];
        let mine = disk.filter(disk_of(u));
        let recorded = st.vault_objects.filter(live(tenant_id, u));
        assert(sorted_from(ledger, recorded, by_id()));
        assert(!disagrees(disagreement(users[k], ledgers[k], disk.filter(disk_of(users[k])))));
        lemma_filter_contains(disk, disk_of(u), f);
        assert(disk.contains(f));
        let m = choose|m: int| 0 <= m < mine.len() && mine[m] == f;
        lemma_filter_none(mine, not_in_ledger(ledger));
        assert(!not_in_ledger(ledger)(mine[m]));
        let p = recorded_as(object_id(f.name));
        let n = choose|n: int| 0 <= n < ledger.len() && p(#[trigger] ledger[n]);
        let r = ledger[n];
        assert(ledger.contains(r));
        lemma_sorted_contains(ledger, recorded, by_id(), r);
        lemma_filter_contains(st.vault_objects, live(tenant_id, u), r);
        let j = choose|j: int| 0 <= j < st.vault_objects.len() && st.vault_objects[j] == r;
        assert(live_object(tenant_id, u, object_id(f.name))(st.vault_objects[j]));
    }
}

pub open spec fn default_of(tenant_id: Seq<char>) -> spec_fn(ObjectStorageRowView) -> bool {
    |r: ObjectStorageRowView| r.tenant_id == tenant_id && r.is_default != 0
}

/// No two registrations share an identifier.
pub open spec fn unique_storages(rows: Seq<ObjectStorageRowView>) -> bool {
    forall|i: int, j: int|
        0 <= i < rows.len() && 0 <= j < rows.len() && i != j ==> (#[trigger] rows[i]).id != (
        #[trigger] rows[j]).id
}

/// A group has at most one default registration.
pub open spec fn at_most_one_default(
    rows: Seq<ObjectStorageRowView>,
    tenant_id: Seq<char>,
) -> bool {
    forall|i: int, j: int|
        0 <= i < rows.len() && 0 <= j < rows.len() && default_of(tenant_id)(#[trigger] rows[i])
            && default_of(tenant_id)(#[trigger] rows[j]) ==> i == j
}

/// A group that has registrations has exactly one default among them.
pub open spec fn one_default(rows: Seq<ObjectStorageRowView>, tenant_id: Seq<char>) -> bool {
    &&& at_most_one_default(rows, tenant_id)
    &&& any(rows, storages_of(tenant_id)) ==> any(rows, default_of(tenant_id))
}

/// Registrations with the identifiers of distinct ones are distinct.
proof fn lemma_same_ids(rows: Seq<ObjectStorageRowView>, after: Seq<ObjectStorageRowView>)
    requires
        unique_storages(rows),
        after.len() == rows.len(),
        forall|i: int| 0 <= i < rows.len() ==> (#[trigger] after[i]).id == rows[i].id,
    ensures
        unique_storages(after),
{
    assert forall|i: int, j: int|
        0 <= i < after.len() && 0 <= j < after.len() && i != j implies (#[trigger] after[i]).id != (
    #[trigger] after[j]).id by {
        assert(rows[i].id != rows[j].id);
    }
}

proof fn lemma_cleared_one(
    rows: Seq<ObjectStorageRowView>,
    tenant_id: Seq<char>,
    id: Seq<char>,
)
    requires
        unique_storages(rows),
        any(
            rows,
            |r: ObjectStorageRowView| storage_key(tenant_id, id)(r) && r.is_default != 0,
        ),
    ensures
        one_default(others_cleared(rows, tenant_id, id), tenant_id),
        unique_storages(others_cleared(rows, tenant_id, id)),
{
    let after = others_cleared(rows, tenant_id, id);
    lemma_same_ids(rows, after);
    let p = |r: ObjectStorageRowView| storage_key(tenant_id, id)(r) && r.is_default != 0;
    let k = choose|k: int| 0 <= k < rows.len() && p(#[trigger] rows[k]);
    assert(default_of(tenant_id)(after[k]));
    assert forall|i: int, j: int|
        0 <= i < after.len() && 0 <= j < after.len() && default_of(tenant_id)(#[trigger] after[i])
            && default_of(tenant_id)(#[trigger] after[j]) implies i == j by {
        assert(rows[i].id == id);
        assert(rows[j].id == id);
    }
}

/// A new registration under a fresh identifier leaves its group exactly one default, and
/// identifiers unique.
pub proof fn creating_keeps_one_default(
    st: PlatformState,
    id: Seq<char>,
    tenant_id: Seq<char>,
    created_by: Seq<char>,
    input: ObjectStorageConfigInputView,
    sealed: Seq<char>,
    now: i64,
)
    requires
        unique_storages(st.storages),
        forall|i: int| 0 <= i < st.storages.len() ==> (#[trigger] st.storages[i]).id != id,
        one_default(st.storages, tenant_id),
    ensures
        ({
            let row = new_storage(st, id, tenant_id, created_by, input, sealed, now);
            let after = settled(st.storages.push(row), tenant_id, id, row.is_default != 0);
            one_default(after, tenant_id) && unique_storages(after)
        }),
{
    let row = new_storage(st, id, tenant_id, created_by, input, sealed, now);
    let rows = st.storages.push(row);
    let n = st.storages.len() as int;
    assert(rows[n] == row);
    assert(unique_storages(rows));
    if row.is_default != 0 {
        let p = |r: ObjectStorageRowView| storage_key(tenant_id, id)(r) && r.is_default != 0;
        assert(p(rows[n]));
        lemma_cleared_one(rows, tenant_id, id);
    } else {
        let d = default_of(tenant_id);
        let k = choose|k: int| 0 <= k < st.storages.len() && d(#[trigger] st.storages[k]);
        assert(d(rows[k]));
        assert forall|i: int, j: int|
            0 <= i < rows.len() && 0 <= j < rows.len() && d(#[trigger] rows[i]) && d(
                #[trigger] rows[j],
            ) implies i == j by {
            assert(i < n && j < n);
            assert(st.storages[i] == rows[i]);
            assert(st.storages[j] == rows[j]);
        }
    }
}

/// Making a registration the default leaves its group exactly one, and identifiers unique.
pub proof fn setting_default_leaves_one(
    rows: Seq<ObjectStorageRowView>,
    tenant_id: Seq<char>,
    id: Seq<char>,
    now: i64,
)
    requires
        unique_storages(rows),
        any(rows, storage_key(tenant_id, id)),
    ensures
        ({
            let after = others_cleared(made_default(rows, tenant_id, id, now), tenant_id, id);
            one_default(after, tenant_id) && unique_storages(after)
        }),
{
    let mid = made_default(rows, tenant_id, id, now);
    let p = |r: ObjectStorageRowView| storage_key(tenant_id, id)(r) && r.is_default != 0;
    let k = choose|k: int| 0 <= k < rows.len() && storage_key(tenant_id, id)(#[trigger] rows[k]);
    assert(p(mid[k]));
    lemma_same_ids(rows, mid);
    lemma_cleared_one(mid, tenant_id, id);
}

/// Changing a registration leaves its group exactly one default, also where the request would take
/// the mark off the default, and identifiers unique.
pub proof fn updating_keeps_one_default(
    st: PlatformState,
    tenant_id: Seq<char>,
    id: Seq<char>,
    input: ObjectStorageConfigInputView,
    sealed: Seq<char>,
    now: i64,
)
    requires
        unique_storages(st.storages),
        any(st.storages, storage_key(tenant_id, id)),
        one_default(st.storages, tenant_id),
    ensures
        ({
            let current = first(st.storages, storage_key(tenant_id, id))->0;
            let row = changed_storage(current, current, input, sealed, now);
            let after = settled(
                storage_changed(st.storages, tenant_id, id, current, input, sealed, now),
                tenant_id,
                id,
                row.is_default != 0,
            );
            one_default(after, tenant_id) && unique_storages(after)
        }),
{
    let rows = st.storages;
    let key = storage_key(tenant_id, id);
    lemma_first(rows, key);
    let current = first(rows, key)->0;
    let row = changed_storage(current, current, input, sealed, now);
    let mid = storage_changed(rows, tenant_id, id, current, input, sealed, now);
    let c = choose|c: int| 0 <= c < rows.len() && rows[c] == current;
    assert forall|i: int| 0 <= i < rows.len() && i != c implies #[trigger] mid[i] == rows[i] by {
        assert(rows[i].id != rows[c].id);
    }
    assert(mid[c] == row);
    lemma_same_ids(rows, mid);
    let d = default_of(tenant_id);
    if row.is_default != 0 {
        let p = |r: ObjectStorageRowView| key(r) && r.is_default != 0;
        assert(p(mid[c]));
        lemma_cleared_one(mid, tenant_id, id);
    } else {
        assert(storages_of(tenant_id)(rows[c]));
        let k = choose|k: int| 0 <= k < rows.len() && d(#[trigger] rows[k]);
        assert(d(mid[k]));
        assert forall|i: int, j: int|
            0 <= i < mid.len() && 0 <= j < mid.len() && d(#[trigger] mid[i]) && d(
                #[trigger] mid[j],
            ) implies i == j by {
            assert(d(rows[i]));
            assert(d(rows[j]));
        }
    }
}

/// Deleting a registration, even the default, leaves its group exactly one default among the rest,
/// and identifiers unique.
pub proof fn deleting_keeps_one_default(
    rows: Seq<ObjectStorageRowView>,
    tenant_id: Seq<char>,
    id: Seq<char>,
    now: i64,
)
    requires
        unique_storages(rows),
        any(rows, storage_key(tenant_id, id)),
        one_default(rows, tenant_id),
    ensures
        ({
            let after = storage_deleted(
                rows,
                tenant_id,
                id,
                first(rows, storage_key(tenant_id, id))->0.is_default != 0,
                now,
            );
            one_default(after, tenant_id) && unique_storages(after)
        }),
{
    broadcast use vstd::seq_lib::group_filter_ensures;

    let key = storage_key(tenant_id, id);
    let keep = not_storage_key(tenant_id, id);
    let rest = rows.filter(keep);
    let d = default_of(tenant_id);
    lemma_first(rows, key);
    let current = first(rows, key)->0;
    let c = choose|c: int| 0 <= c < rows.len() && rows[c] == current;
    lemma_filter_distinct(rows, keep);
    assert forall|i: int| 0 <= i < rest.len() implies #[trigger] rest[i] != current && rows.contains(
        rest[i],
    ) by {
        lemma_filter_from(rows, keep, i);
        assert(keep(rest[i]));
    }
    if current.is_default != 0 {
        assert forall|i: int| 0 <= i < rest.len() implies !d(#[trigger] rest[i]) by {
            let j = choose|j: int| 0 <= j < rows.len() && rows[j] == rest[i];
            if d(rest[i]) {
                assert(d(rows[j]) && d(rows[c]));
            }
        }
        crate::platform::object_storage::lemma_default_first_total();
        lemma_least(rest, storages_of(tenant_id), default_first());
        match least(rest, storages_of(tenant_id), default_first()) {
            Some(next) => {
                let after = made_default(rest, tenant_id, next.id, now);
                lemma_same_ids(rest, after);
                let n = choose|n: int| 0 <= n < rest.len() && rest[n] == next;
                assert(d(after[n]));
                assert forall|i: int, j: int|
                    0 <= i < after.len() && 0 <= j < after.len() && d(#[trigger] after[i]) && d(
                        #[trigger] after[j],
                    ) implies i == j by {
                    assert(!d(rest[i]) && !d(rest[j]));
                    assert(rest[i].id == next.id);
                    assert(rest[j].id == next.id);
                }
            },
            None => {},
        }
    } else {
        assert forall|i: int, j: int|
            0 <= i < rest.len() && 0 <= j < rest.len() && d(#[trigger] rest[i]) && d(
                #[trigger] rest[j],
            ) implies i == j by {
            let a = choose|a: int| 0 <= a < rows.len() && rows[a] == rest[i];
            let b = choose|b: int| 0 <= b < rows.len() && rows[b] == rest[j];
            assert(d(rows[a]) && d(rows[b]));
            assert(rest[i].id == rest[j].id);
        }
        assert(storages_of(tenant_id)(rows[c]));
        let k = choose|k: int| 0 <= k < rows.len() && d(#[trigger] rows[k]);
        assert(rows[k].id != current.id) by {
            if k != c {
                assert(rows[k].id != rows[c].id);
            }
        }
        assert(keep(rows[k]));
        assert(rest.contains(rows[k]));
        let m = choose|m: int| 0 <= m < rest.len() && rest[m] == rows[k];
        assert(d(rest[m]));
    }
}

/// What is left of registrations with distinct identifiers has distinct identifiers.
proof fn lemma_filter_distinct(
    rows: Seq<ObjectStorageRowView>,
    keep: spec_fn(ObjectStorageRowView) -> bool,
)
    requires
        unique_storages(rows),
    ensures
        unique_storages(rows.filter(keep)),
    decreases rows.len(),
{
    reveal(Seq::filter);
    if rows.len() > 0 {
        let init = rows.drop_last();
        assert(unique_storages(init)) by {
            assert forall|i: int, j: int|
                0 <= i < init.len() && 0 <= j < init.len() && i != j implies (
            #[trigger] init[i]).id != (#[trigger] init[j]).id by {
                assert(rows[i].id != rows[j].id);
            }
        }
        lemma_filter_distinct(init, keep);
        let kept = init.filter(keep);
        if keep(rows.last()) {
            let all = kept.push(rows.last());
            assert forall|i: int, j: int|
                0 <= i < all.len() && 0 <= j < all.len() && i != j implies (#[trigger] all[i]).id
                != (#[trigger] all[j]).id by {
                if i < kept.len() && j < kept.len() {
                } else if i < kept.len() {
                    lemma_filter_from(init, keep, i);
                    let a = choose|a: int| 0 <= a < init.len() && init[a] == kept[i];
                    assert(rows[a].id != rows[rows.len() - 1].id);
                } else {
                    lemma_filter_from(init, keep, j);
                    let a = choose|a: int| 0 <= a < init.len() && init[a] == kept[j];
                    assert(rows[a].id != rows[rows.len() - 1].id);
                }
            }
        }
    }
}

} // verus!
