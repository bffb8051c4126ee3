//! What members find in their file vaults after what happened to them.
use crate::parse::split_at_each;
use crate::platform::api_keys::sha256_hex;
use crate::number_laws::separator_parts_pieces;
use crate::platform::error::PlatformErrorView;
use crate::platform::models::{
    DiskFileView, FileVaultDtoView, FileVaultObjectDtoView, VaultObjectRowView,
    VaultSettingsRowView,
};
use crate::platform::service::PlatformState;
use crate::platform::vault::{
    disagreement, disposition, file_deleted, file_read, files_shown, kept_name, last_name, live,
    live_object, naming_segment, newest_object_first, not_object_id, object_dto, object_id,
    objects_of, quotable, settings_of, total_size, unfit, upload_taken_back, uploaded, usage,
    vault_dto, vault_listing, vault_quota_set, vault_status_set,
};
use crate::table::{
    any, first, lemma_filter_contains, lemma_filter_from, lemma_first, lemma_first_map,
    lemma_first_push, listed_rows,
};
use crate::text::white_space;
use crate::text_laws::trimming_takes_white_space;
use vstd::prelude::*;

verus! {

/// A file that was taken in can be read by its owner, as it was given: its kept name, its size, the
/// digest of its bytes and the time, from where it was stored. Nobody else's files change.
pub proof fn uploaded_file_is_read_back(
    before: PlatformState,
    after: PlatformState,
    id: Seq<char>,
    tenant_id: Seq<char>,
    user_id: Seq<char>,
    file_name: Seq<char>,
    bytes: Seq<u8>,
    now: i64,
    d: FileVaultObjectDtoView,
    key: Seq<char>,
    other_tenant: Seq<char>,
    other_user: Seq<char>,
    other_id: Seq<char>,
)
    requires
        uploaded(
            before,
            after,
            id,
            tenant_id,
            user_id,
            file_name,
            bytes,
            true,
            now,
            Ok((d, key)),
        ),
        bytes.len() <= i64::MAX,
        forall|i: int|
            0 <= i < before.vault_objects.len() ==> (#[trigger] before.vault_objects[i]).id != id,
    ensures
        file_read(after, tenant_id, user_id, id, true) == Ok::<
            (FileVaultObjectDtoView, Seq<char>),
            PlatformErrorView,
        >((d, key)),
        d.id == id,
        d.file_name == kept_name(file_name),
        d.size_bytes == bytes.len(),
        d.sha256 == sha256_hex(bytes),
        d.created_at == now,
        d.deleted_at is None,
        key == tenant_id + "/"@ + user_id + "/"@ + (id + "__"@ + d.file_name),
        other_tenant != tenant_id || other_user != user_id || other_id != id ==> file_read(
            after,
            other_tenant,
            other_user,
            other_id,
            true,
        ) == file_read(before, other_tenant, other_user, other_id, true),
        after == (PlatformState { vault_objects: after.vault_objects, ..before }),
{
    let rows = before.vault_objects;
    let row = after.vault_objects.last();
    assert(after.vault_objects =~= rows.push(row));
    let p = live_object(tenant_id, user_id, id);
    lemma_first(rows, p);
    lemma_first_push(rows, row, p);
    lemma_first_push(rows, row, live_object(other_tenant, other_user, other_id));
}

/// An upload is refused exactly where the vault is frozen, the file does not fit the quota with
/// what is there, no name is left of what was given, or there is nowhere to store it.
pub proof fn upload_needs_room_and_a_name(
    before: PlatformState,
    after: PlatformState,
    id: Seq<char>,
    tenant_id: Seq<char>,
    user_id: Seq<char>,
    file_name: Seq<char>,
    bytes: Seq<u8>,
    storage_configured: bool,
    now: i64,
    r: Result<(FileVaultObjectDtoView, Seq<char>), PlatformErrorView>,
)
    requires
        uploaded(
            before,
            after,
            id,
            tenant_id,
            user_id,
            file_name,
            bytes,
            storage_configured,
            now,
            r,
        ),
        bytes.len() <= i64::MAX,
        i64::MIN <= usage(before, tenant_id, user_id) <= i64::MAX,
    ensures
        ({
            let v = vault_dto(before, tenant_id, user_id);
            r is Ok <==> v.status != "frozen"@ && (v.quota_bytes matches Some(q) ==> v.usage_bytes
                + bytes.len() <= q) && kept_name(file_name).len() > 0 && storage_configured
        }),
        r is Err ==> after == before,
{
}

proof fn lemma_usage_push(
    rows: Seq<VaultObjectRowView>,
    row: VaultObjectRowView,
    p: spec_fn(VaultObjectRowView) -> bool,
)
    ensures
        rows.push(row).filter(p) == if p(row) {
            rows.filter(p).push(row)
        } else {
            rows.filter(p)
        },
        total_size(rows.push(row).filter(p)) == total_size(rows.filter(p)) + if p(row) {
            row.size_bytes as int
        } else {
            0
        },
{
    reveal(Seq::filter);
    assert(rows.push(row).drop_last() =~= rows);
    if p(row) {
        assert(rows.filter(p).push(row).drop_last() =~= rows.filter(p));
    }
}

/// An upload adds the file's size and one file to its owner's vault, and nothing to any other.
pub proof fn upload_counts_once(
    before: PlatformState,
    after: PlatformState,
    id: Seq<char>,
    tenant_id: Seq<char>,
    user_id: Seq<char>,
    file_name: Seq<char>,
    bytes: Seq<u8>,
    now: i64,
    r: Result<(FileVaultObjectDtoView, Seq<char>), PlatformErrorView>,
    t: Seq<char>,
    u: Seq<char>,
)
    requires
        uploaded(before, after, id, tenant_id, user_id, file_name, bytes, true, now, r),
        r is Ok,
        bytes.len() <= i64::MAX,
        before.vault_objects.len() < i64::MAX,
        i64::MIN <= usage(before, t, u) <= i64::MAX - bytes.len(),
    ensures
        ({
            let a = vault_dto(before, t, u);
            let b = vault_dto(after, t, u);
            let own = t == tenant_id && u == user_id;
            &&& b.usage_bytes == a.usage_bytes + if own {
                bytes.len() as int
            } else {
                0
            }
            &&& b.object_count == a.object_count + if own {
                1int
            } else {
                0
            }
            &&& b.status == a.status && b.quota_bytes == a.quota_bytes && b.user_id == u
        }),
{
    let row = after.vault_objects.last();
    assert(after.vault_objects =~= before.vault_objects.push(row));
    lemma_usage_push(before.vault_objects, row, live(t, u));
    before.vault_objects.lemma_filter_len(live(t, u));
}

/// A file that was deleted can no longer be read and no longer counts. What else the owner and
/// everybody else has stays readable as it was.
pub proof fn deleted_file_is_not_read(
    before: PlatformState,
    after: PlatformState,
    tenant_id: Seq<char>,
    user_id: Seq<char>,
    id: Seq<char>,
    now: i64,
    r: Result<Seq<char>, PlatformErrorView>,
    other_tenant: Seq<char>,
    other_user: Seq<char>,
    other_id: Seq<char>,
)
    requires
        file_deleted(before, after, tenant_id, user_id, id, now, r),
    ensures
        file_read(after, tenant_id, user_id, id, true) is Err,
        r is Ok <==> file_read(before, tenant_id, user_id, id, true) is Ok,
        r matches Ok(key) ==> (file_read(before, tenant_id, user_id, id, true) matches Ok(f) && f.1
            == key),
        r is Err ==> after == before,
        other_id != id ==> file_read(after, other_tenant, other_user, other_id, true) == file_read(
            before,
            other_tenant,
            other_user,
            other_id,
            true,
        ),
        r is Ok ==> after.vault_objects.len() == before.vault_objects.len() && forall|i: int|
            0 <= i < before.vault_objects.len() ==> #[trigger] after.vault_objects[i]
                == if before.vault_objects[i].id == id {
                VaultObjectRowView { deleted_at: Some(now), ..before.vault_objects[i] }
            } else {
                before.vault_objects[i]
            },
        after == (PlatformState { vault_objects: after.vault_objects, ..before }),
{
    let p = live_object(tenant_id, user_id, id);
    let q = live_object(other_tenant, other_user, other_id);
    lemma_first(before.vault_objects, p);
    lemma_first(after.vault_objects, p);
    if r is Ok {
        assert forall|i: int| 0 <= i < after.vault_objects.len() implies !p(
            #[trigger] after.vault_objects[i],
        ) by {
            assert(after.vault_objects[i].id == before.vault_objects[i].id);
        }
        if other_id != id {
            lemma_same_found(before.vault_objects, after.vault_objects, q);
        }
    }
}

proof fn lemma_same_found(
    a: Seq<VaultObjectRowView>,
    b: Seq<VaultObjectRowView>,
    q: spec_fn(VaultObjectRowView) -> bool,
)
    requires
        a.len() == b.len(),
        forall|i: int| 0 <= i < a.len() ==> q(#[trigger] a[i]) == q(b[i]) && (q(a[i]) ==> a[i]
            == b[i]),
    ensures
        first(a, q) == first(b, q),
    decreases a.len(),
{
    if a.len() > 0 {
        assert forall|i: int| 0 <= i < a.len() - 1 implies q(#[trigger] a.drop_last()[i]) == q(
            b.drop_last()[i],
        ) && (q(a.drop_last()[i]) ==> a.drop_last()[i] == b.drop_last()[i]) by {
            assert(a.drop_last()[i] == a[i] && b.drop_last()[i] == b[i]);
        }
        lemma_same_found(a.drop_last(), b.drop_last(), q);
        assert(a.last() == a[a.len() - 1] && b.last() == b[b.len() - 1]);
    }
}

/// A member finds each of their files in the list, deleted ones included, as it was recorded.
pub proof fn member_finds_their_files(
    st: PlatformState,
    tenant_id: Seq<char>,
    user_id: Seq<char>,
    out: Seq<FileVaultObjectDtoView>,
    i: int,
) -> (k: int)
    requires
        files_shown(st, tenant_id, user_id, out),
        0 <= i < st.vault_objects.len(),
        st.vault_objects[i].tenant_id == tenant_id,
        st.vault_objects[i].user_id == user_id,
    ensures
        0 <= k < out.len(),
        out[k].id == st.vault_objects[i].id,
        out[k].file_name == st.vault_objects[i].file_name,
        out[k].size_bytes == st.vault_objects[i].size_bytes,
        out[k].sha256 == st.vault_objects[i].sha256,
        out[k].created_at == st.vault_objects[i].created_at,
        out[k].deleted_at == st.vault_objects[i].deleted_at,
{
    let p = objects_of(tenant_id, user_id);
    let shown = listed_rows(
        out,
        st.vault_objects,
        p,
        newest_object_first(),
        |r: VaultObjectRowView| object_dto(r),
    );
    assert(p(st.vault_objects[i]));
    let k = choose|k: int| 0 <= k < shown.len() && shown[k] == st.vault_objects[i];
    assert(out[k] == object_dto(shown[k]));
    k
}

/// The list of a member's files has no file of anybody else, and the newest first.
pub proof fn files_are_listed_newest_first(
    st: PlatformState,
    tenant_id: Seq<char>,
    user_id: Seq<char>,
    out: Seq<FileVaultObjectDtoView>,
    j: int,
    k: int,
) -> (i: int)
    requires
        files_shown(st, tenant_id, user_id, out),
        0 <= j <= k < out.len(),
    ensures
        out.len() == st.vault_objects.filter(
            |r: VaultObjectRowView| r.tenant_id == tenant_id && r.user_id == user_id,
        ).len(),
        out[j].created_at >= out[k].created_at,
        0 <= i < st.vault_objects.len(),
        st.vault_objects[i].tenant_id == tenant_id,
        st.vault_objects[i].user_id == user_id,
        st.vault_objects[i].id == out[k].id,
{
    let p = objects_of(tenant_id, user_id);
    let shown = listed_rows(
        out,
        st.vault_objects,
        p,
        newest_object_first(),
        |r: VaultObjectRowView| object_dto(r),
    );
    assert(p =~= (|r: VaultObjectRowView| r.tenant_id == tenant_id && r.user_id == user_id));
    assert(p(shown[k]));
    assert(out[j] == object_dto(shown[j]) && out[k] == object_dto(shown[k]));
    if j < k {
        assert(newest_object_first()(shown[j], shown[k]));
    }
    choose|i: int| 0 <= i < st.vault_objects.len() && st.vault_objects[i] == shown[k]
}

/// A status that is set is the status of that vault and of no other. Only two can be set.
pub proof fn vault_status_is_read_back(
    before: PlatformState,
    after: PlatformState,
    tenant_id: Seq<char>,
    user_id: Seq<char>,
    status: Seq<char>,
    now: i64,
    r: Result<(), PlatformErrorView>,
    t: Seq<char>,
    u: Seq<char>,
)
    requires
        vault_status_set(before, after, tenant_id, user_id, status, now, r),
    ensures
        r is Ok <==> status == "available"@ || status == "frozen"@,
        r is Err ==> after == before,
        r is Ok ==> vault_dto(after, tenant_id, user_id).status == status,
        vault_dto(after, tenant_id, user_id).quota_bytes == vault_dto(
            before,
            tenant_id,
            user_id,
        ).quota_bytes,
        t != tenant_id || u != user_id ==> vault_dto(after, t, u) == vault_dto(before, t, u),
        after == (PlatformState { vaults: after.vaults, ..before }),
{
    let rows = before.vaults;
    let p = settings_of(tenant_id, user_id);
    let q = settings_of(t, u);
    let g = |r: VaultSettingsRowView|
        if p(r) {
            VaultSettingsRowView { status, updated_at: now, ..r }
        } else {
            r
        };
    lemma_first(rows, p);
    lemma_first(rows, q);
    lemma_first_map(rows, p, g);
    lemma_first_map(rows, q, g);
    if r is Ok {
        if any(rows, p) {
            assert(after.vaults =~= rows.map_values(g));
        } else {
            assert(after.vaults =~= rows.push(after.vaults.last()));
            lemma_first_push(rows, after.vaults.last(), p);
            lemma_first_push(rows, after.vaults.last(), q);
        }
    }
}

/// A quota that is set is the quota of that vault and of no other. None can be negative.
pub proof fn vault_quota_is_read_back(
    before: PlatformState,
    after: PlatformState,
    tenant_id: Seq<char>,
    user_id: Seq<char>,
    quota_bytes: Option<i64>,
    now: i64,
    r: Result<(), PlatformErrorView>,
    t: Seq<char>,
    u: Seq<char>,
)
    requires
        vault_quota_set(before, after, tenant_id, user_id, quota_bytes, now, r),
    ensures
        r is Ok <==> (quota_bytes matches Some(q) ==> q >= 0),
        r is Err ==> after == before,
        r is Ok ==> vault_dto(after, tenant_id, user_id).quota_bytes == quota_bytes,
        vault_dto(after, tenant_id, user_id).status == vault_dto(before, tenant_id, user_id).status,
        t != tenant_id || u != user_id ==> vault_dto(after, t, u) == vault_dto(before, t, u),
        after == (PlatformState { vaults: after.vaults, ..before }),
{
    let rows = before.vaults;
    let p = settings_of(tenant_id, user_id);
    let q = settings_of(t, u);
    let g = |r: VaultSettingsRowView|
        if p(r) {
            VaultSettingsRowView { quota_bytes, updated_at: now, ..r }
        } else {
            r
        };
    lemma_first(rows, p);
    lemma_first(rows, q);
    lemma_first_map(rows, p, g);
    lemma_first_map(rows, q, g);
    if r is Ok {
        if any(rows, p) {
            assert(after.vaults =~= rows.map_values(g));
        } else {
            assert(after.vaults =~= rows.push(after.vaults.last()));
            lemma_first_push(rows, after.vaults.last(), p);
            lemma_first_push(rows, after.vaults.last(), q);
        }
    }
}

/// A vault that nothing was set for is available and has no quota.
pub proof fn untouched_vault_is_open(st: PlatformState, tenant_id: Seq<char>, user_id: Seq<char>)
    requires
        forall|i: int|
            0 <= i < st.vaults.len() ==> !((#[trigger] st.vaults[i]).tenant_id == tenant_id
                && st.vaults[i].user_id == user_id),
    ensures
        vault_dto(st, tenant_id, user_id).status == "available"@,
        vault_dto(st, tenant_id, user_id).quota_bytes is None,
{
    lemma_first(st.vaults, settings_of(tenant_id, user_id));
}

/// The list of a group's vaults has one for every member and for everyone with a file, each once
/// and in order, as its owner sees it.
pub proof fn every_vault_is_listed(
    st: PlatformState,
    tenant_id: Seq<char>,
    out: Seq<FileVaultDtoView>,
    user_id: Seq<char>,
)
    requires
        vault_listing(st, tenant_id, out),
    ensures
        (exists|k: int| 0 <= k < out.len() && (#[trigger] out[k]).user_id == user_id) <==> (exists|
            i: int,
        |
            0 <= i < st.members.len() && (#[trigger] st.members[i]).user_id == user_id
                && st.members[i].tenant_id == tenant_id) || (exists|i: int|
            0 <= i < st.vault_objects.len() && (#[trigger] st.vault_objects[i]).user_id == user_id
                && st.vault_objects[i].tenant_id == tenant_id),
        forall|k: int|
            0 <= k < out.len() && (#[trigger] out[k]).user_id == user_id ==> out[k] == vault_dto(
                st,
                tenant_id,
                user_id,
            ),
        forall|j: int, k: int|
            0 <= j < k < out.len() ==> (#[trigger] out[j]).user_id != (#[trigger] out[k]).user_id,
{
    let users = out.map_values(|d: FileVaultDtoView| d.user_id);
    let pm = crate::org::membership::member_key(user_id, tenant_id);
    let po = objects_of(tenant_id, user_id);
    assert(users.contains(user_id) <==> any(st.members, pm) || any(st.vault_objects, po));
    if exists|k: int| 0 <= k < out.len() && (#[trigger] out[k]).user_id == user_id {
        let k = choose|k: int| 0 <= k < out.len() && (#[trigger] out[k]).user_id == user_id;
        assert(users[k] == user_id);
        if any(st.members, pm) {
            let i = choose|i: int| 0 <= i < st.members.len() && pm(#[trigger] st.members[i]);
            assert(st.members[i].user_id == user_id);
        } else {
            let i = choose|i: int|
                0 <= i < st.vault_objects.len() && po(#[trigger] st.vault_objects[i]);
            assert(st.vault_objects[i].user_id == user_id);
        }
    }
    if exists|i: int|
        0 <= i < st.members.len() && (#[trigger] st.members[i]).user_id == user_id
            && st.members[i].tenant_id == tenant_id {
        let i = choose|i: int|
            0 <= i < st.members.len() && (#[trigger] st.members[i]).user_id == user_id
                && st.members[i].tenant_id == tenant_id;
        assert(pm(st.members[i]));
        assert(users.contains(user_id));
    }
    if exists|i: int|
        0 <= i < st.vault_objects.len() && (#[trigger] st.vault_objects[i]).user_id == user_id
            && st.vault_objects[i].tenant_id == tenant_id {
        let i = choose|i: int|
            0 <= i < st.vault_objects.len() && (#[trigger] st.vault_objects[i]).user_id == user_id
                && st.vault_objects[i].tenant_id == tenant_id;
        assert(po(st.vault_objects[i]));
        assert(users.contains(user_id));
    }
    if users.contains(user_id) {
        let k = choose|k: int| 0 <= k < users.len() && users[k] == user_id;
        assert(out[k].user_id == user_id);
    }
    assert forall|j: int, k: int| 0 <= j < k < out.len() implies (#[trigger] out[j]).user_id != (
    #[trigger] out[k]).user_id by {
        assert(users[j] != users[k]);
    }
}

/// Of a member's files, exactly those that are recorded and not on disk, on disk and not recorded,
/// or on disk with another size are reported, each in its place.
pub proof fn disagreements_are_told_apart(
    user_id: Seq<char>,
    ledger: Seq<VaultObjectRowView>,
    disk: Seq<DiskFileView>,
    r: VaultObjectRowView,
    f: DiskFileView,
)
    requires
        ledger.contains(r),
        disk.contains(f),
    ensures
        disagreement(user_id, ledger, disk).user_id == user_id,
        (forall|i: int| 0 <= i < disk.len() ==> object_id((#[trigger] disk[i]).name) != r.id)
            ==> disagreement(user_id, ledger, disk).missing_on_disk.contains(
            r.file_name + " ("@ + r.id + ")"@,
        ),
        (forall|i: int| 0 <= i < ledger.len() ==> (#[trigger] ledger[i]).id != object_id(f.name))
            ==> disagreement(user_id, ledger, disk).missing_in_ledger.contains(object_id(f.name)),
        (object_id(f.name) == r.id && f.size != r.size_bytes as u64 && forall|i: int|
            0 <= i < disk.len() && object_id((#[trigger] disk[i]).name) == r.id ==> disk[i] == f)
            ==> disagreement(user_id, ledger, disk).size_mismatches.contains(
            r.file_name + " ("@ + r.id + ")"@,
        ),
{
    broadcast use vstd::seq_lib::group_filter_ensures;

    let e = disagreement(user_id, ledger, disk);
    let label = r.file_name + " ("@ + r.id + ")"@;
    let at = choose|at: int| 0 <= at < ledger.len() && ledger[at] == r;
    let df = choose|df: int| 0 <= df < disk.len() && disk[df] == f;
    let p = crate::platform::vault::not_on_disk(disk);
    let q = crate::platform::vault::of_other_size(disk);
    let w = crate::platform::vault::not_in_ledger(ledger);
    let s = crate::platform::vault::stored_as(r.id);
    lemma_first(disk, s);
    if forall|i: int| 0 <= i < disk.len() ==> object_id((#[trigger] disk[i]).name) != r.id {
        assert(p(ledger[at]));
        let rows = ledger.filter(p);
        assert(rows.contains(ledger[at]));
        let k = choose|k: int| 0 <= k < rows.len() && rows[k] == r;
        assert(e.missing_on_disk[k] == label);
    }
    if forall|i: int| 0 <= i < ledger.len() ==> (#[trigger] ledger[i]).id != object_id(f.name) {
        assert(w(disk[df]));
        let files = disk.filter(w);
        assert(files.contains(disk[df]));
        let k = choose|k: int| 0 <= k < files.len() && files[k] == f;
        assert(e.missing_in_ledger[k] == object_id(f.name));
    }
    if object_id(f.name) == r.id && f.size != r.size_bytes as u64 && forall|i: int|
        0 <= i < disk.len() && object_id((#[trigger] disk[i]).name) == r.id ==> disk[i] == f {
        assert(s(disk[df]));
        let found = first(disk, s)->0;
        let i = choose|i: int| 0 <= i < disk.len() && disk[i] == found;
        assert(disk[i] == f);
        assert(q(ledger[at]));
        let rows = ledger.filter(q);
        assert(rows.contains(ledger[at]));
        let k = choose|k: int| 0 <= k < rows.len() && rows[k] == r;
        assert(e.size_mismatches[k] == label);
    }
}

/// Files that agree on both sides are not reported: where every recorded file is on disk with its
/// size and every file on disk is recorded, there is nothing to tell.
pub proof fn agreement_is_silent(
    user_id: Seq<char>,
    ledger: Seq<VaultObjectRowView>,
    disk: Seq<DiskFileView>,
)
    requires
        forall|i: int|
            0 <= i < ledger.len() ==> exists|j: int|
                0 <= j < disk.len() && object_id((#[trigger] disk[j]).name) == (
                #[trigger] ledger[i]).id,
        forall|i: int, j: int|
            0 <= i < ledger.len() && 0 <= j < disk.len() && object_id((#[trigger] disk[j]).name)
                == (#[trigger] ledger[i]).id ==> disk[j].size == ledger[i].size_bytes as u64,
        forall|j: int|
            0 <= j < disk.len() ==> exists|i: int|
                0 <= i < ledger.len() && (#[trigger] ledger[i]).id == object_id(
                    (#[trigger] disk[j]).name,
                ),
    ensures
        disagreement(user_id, ledger, disk).missing_on_disk.len() == 0,
        disagreement(user_id, ledger, disk).missing_in_ledger.len() == 0,
        disagreement(user_id, ledger, disk).size_mismatches.len() == 0,
{
    let p = crate::platform::vault::not_on_disk(disk);
    let q = crate::platform::vault::of_other_size(disk);
    let w = crate::platform::vault::not_in_ledger(ledger);
    if ledger.filter(p).len() > 0 {
        lemma_filter_from(ledger, p, 0);
        ledger.lemma_filter_pred(p, 0);
        let r = ledger.filter(p)[0];
        let i = choose|i: int| 0 <= i < ledger.len() && ledger[i] == r;
        let j = choose|j: int|
            0 <= j < disk.len() && object_id((#[trigger] disk[j]).name) == ledger[i].id;
        assert(crate::platform::vault::stored_as(r.id)(disk[j]));
    }
    if ledger.filter(q).len() > 0 {
        lemma_filter_from(ledger, q, 0);
        ledger.lemma_filter_pred(q, 0);
        let r = ledger.filter(q)[0];
        let i = choose|i: int| 0 <= i < ledger.len() && ledger[i] == r;
        let s = crate::platform::vault::stored_as(r.id);
        lemma_first(disk, s);
        let f = first(disk, s)->0;
        let j = choose|j: int| 0 <= j < disk.len() && disk[j] == f;
        assert(object_id(disk[j].name) == ledger[i].id);
    }
    if disk.filter(w).len() > 0 {
        lemma_filter_from(disk, w, 0);
        disk.lemma_filter_pred(w, 0);
        let f = disk.filter(w)[0];
        let j = choose|j: int| 0 <= j < disk.len() && disk[j] == f;
        let i = choose|i: int|
            0 <= i < ledger.len() && (#[trigger] ledger[i]).id == object_id(disk[j].name);
        assert(crate::platform::vault::recorded_as(object_id(f.name))(ledger[i]));
    }
}

/// What a file is kept under has nothing in it that a path or a shell could take for more, and a
/// name without any of that is kept as it is.
pub proof fn plain_name_is_kept(name: Seq<char>)
    requires
        name.len() > 0,
        !white_space(name[0]) && !white_space(name.last()),
        name != "."@ && name != ".."@,
        forall|i: int|
            0 <= i < name.len() ==> !((#[trigger] name[i]) == '/' || name[i] == '\\' || name[i] == ':'
                || name[i] == '*' || name[i] == '?' || name[i] == '"' || name[i] == '<' || name[i]
                == '>' || name[i] == '|' || name[i] < ' ' || '\u{7f}' <= name[i] <= '\u{9f}'),
    ensures
        kept_name(name) == name,
{
    let p = |s: Seq<char>| naming_segment(s);
    crate::platform::storage_config_laws::lemma_split_bare(name, '/');
    assert(split_at_each(name, '/') == seq![name]);
    reveal(Seq::filter);
    assert(seq![name].drop_last() =~= Seq::<Seq<char>>::empty());
    assert(seq![name].last() == name);
    assert(p(name));
    assert(seq![name].filter(p) =~= seq![name]);
    let mapped = last_name(name).map_values(
        |c: char|
            if unfit(c) {
                '_'
            } else {
                c
            },
    );
    assert(mapped =~= name);
    let e = Seq::<char>::empty();
    assert(e + name + e =~= name);
    trimming_takes_white_space(e, name, e);
}

/// A file is kept under a name without any character that a path or a shell could take for more.
pub proof fn kept_names_are_harmless(raw: Seq<char>, i: int)
    requires
        0 <= i < kept_name(raw).len(),
    ensures
        ({
            let c = kept_name(raw)[i];
            !(c == '/' || c == '\\' || c == ':' || c == '*' || c == '?' || c == '"' || c == '<' || c
                == '>' || c == '|' || c < ' ' || '\u{7f}' <= c <= '\u{9f}')
        }),
{
    crate::platform::laws::kept_name_stays_put(raw);
}

/// The name that a file is handed out under cannot end the header it stands in, and a plain name
/// stands in it as it is.
pub proof fn header_holds_the_name(name: Seq<char>)
    ensures
        disposition(name) == "attachment; filename=\""@ + quotable(name) + "\""@,
        quotable(name).len() == name.len(),
        forall|i: int|
            0 <= i < name.len() ==> (#[trigger] quotable(name)[i]) != '"' && quotable(name)[i]
                != '\\' && quotable(name)[i] != '\r' && quotable(name)[i] != '\n',
        forall|i: int|
            0 <= i < name.len() && name[i] != '"' && name[i] != '\\' && name[i] != '\r' && name[i]
                != '\n' ==> #[trigger] quotable(name)[i] == name[i],
{
}

/// An upload that is taken back leaves no record, and every other record stays.
pub proof fn upload_taken_back_leaves_nothing(
    before: PlatformState,
    after: PlatformState,
    id: Seq<char>,
    reason: Seq<char>,
    e: PlatformErrorView,
    row: VaultObjectRowView,
)
    requires
        upload_taken_back(before, after, id, reason, e),
    ensures
        after.vault_objects.contains(row) <==> before.vault_objects.contains(row) && row.id != id,
        after == (PlatformState { vault_objects: after.vault_objects, ..before }),
        e is Internal,
{
    lemma_filter_contains(before.vault_objects, not_object_id(id), row);
}

/// The name of a path is its last part that names something; what leads upward names nothing.
pub proof fn name_is_the_last_part(path: Seq<char>, part: Seq<char>)
    requires
        !part.contains('/'),
    ensures
        part.len() == 0 || part == "."@ ==> last_name(path + seq!['/'] + part) == last_name(path),
        part == ".."@ ==> last_name(path + seq!['/'] + part).len() == 0,
        part.len() > 0 && part != "."@ && part != ".."@ ==> last_name(path + seq!['/'] + part)
            == part && last_name(part) == part,
        last_name(Seq::empty()).len() == 0,
{
    reveal_strlit(".");
    reveal_strlit("..");
    assert("."@.len() == 1 && ".."@.len() == 2);
    let p = |s: Seq<char>| naming_segment(s);
    let pieces = split_at_each(path, '/');
    separator_parts_pieces(path, part, '/');
    separator_parts_pieces(part, Seq::empty(), '/');
    assert(split_at_each(path + seq!['/'] + part, '/') =~= pieces.push(part));
    assert(pieces.push(part).drop_last() =~= pieces);
    reveal(Seq::filter);
    assert(pieces.push(part).filter(p) == if p(part) {
        pieces.filter(p).push(part)
    } else {
        pieces.filter(p)
    });
    let alone = seq![part];
    assert(alone.drop_last() =~= Seq::empty());
    assert(alone.drop_last().filter(p) =~= Seq::empty());
    let none = seq![Seq::<char>::empty()];
    assert(none.drop_last() =~= Seq::empty());
    assert(none.drop_last().filter(p) =~= Seq::empty());
}

} // verus!
