//! Personal file vaults: status, quota, files and their reconciliation with the disk.
use crate::org::membership::member_key;
use crate::parse::{split, split_at_each};
use crate::platform::api_keys::{sha256_hex, sha256_text};
use crate::platform::error::{bad_request, not_found, PlatformError, PlatformErrorView};
use crate::platform::http_probe::{find_text, text_from};
use crate::platform::models::{
    DiskFile, DiskFileView, FileVaultDto, FileVaultDtoView, FileVaultObjectDto,
    FileVaultObjectDtoView, FileVaultReconcileEntry, FileVaultReconcileEntryView, VaultObjectRow,
    VaultObjectRowView, VaultSettingsRow, VaultSettingsRowView,
};
use crate::platform::service::{PlatformService, PlatformState};
use crate::table::{
    answer, any, any_where, count_where, done, find_where, first, keep_where, lemma_any_step,
    lemma_filter_step, lemma_first, list_where, lists, map_rows, order_where, pick, sorted_from,
    total_order, views,
};
use crate::text::{
    cat, cat3, has_text, le_text, lemma_text_le_total, lemma_text_le_trans, same, slice_text,
    text_le, texts, to_chars, trim, trimmed_text,
};
use vstd::prelude::*;

verus! {

pub open spec fn settings_of(tenant_id: Seq<char>, user_id: Seq<char>) -> spec_fn(
    VaultSettingsRowView,
) -> bool {
    |r: VaultSettingsRowView| r.tenant_id == tenant_id && r.user_id == user_id
}

pub open spec fn objects_of(tenant_id: Seq<char>, user_id: Seq<char>) -> spec_fn(
    VaultObjectRowView,
) -> bool {
    |r: VaultObjectRowView| r.tenant_id == tenant_id && r.user_id == user_id
}

/// A file of the member's vault that was not deleted.
pub open spec fn live(
    tenant_id: Seq<char>,
    user_id: Seq<char>,
) -> spec_fn(VaultObjectRowView) -> bool {
    |r: VaultObjectRowView|
        r.tenant_id == tenant_id && r.user_id == user_id && r.deleted_at is None
}

pub open spec fn live_object(tenant_id: Seq<char>, user_id: Seq<char>, id: Seq<char>) -> spec_fn(
    VaultObjectRowView,
) -> bool {
    |r: VaultObjectRowView| live(tenant_id, user_id)(r) && r.id == id
}

pub open spec fn newest_object_first() -> spec_fn(VaultObjectRowView, VaultObjectRowView) -> bool {
    |a: VaultObjectRowView, b: VaultObjectRowView| a.created_at >= b.created_at
}

/// The status and the quota of a vault; one that was never touched is available and unlimited.
pub open spec fn vault_state(st: PlatformState, tenant_id: Seq<char>, user_id: Seq<char>) -> (
    Seq<char>,
    Option<i64>,
) {
    match first(st.vaults, settings_of(tenant_id, user_id)) {
        Some(r) => (r.status, r.quota_bytes),
        None => ("available"@, None),
    }
}

pub open spec fn total_size(rows: Seq<VaultObjectRowView>) -> int
    decreases rows.len(),
{
    if rows.len() == 0 {
        0
    } else {
        total_size(rows.drop_last()) + rows.last().size_bytes
    }
}

/// The size of all files of a vault. Deleted files do not count.
pub open spec fn usage(st: PlatformState, tenant_id: Seq<char>, user_id: Seq<char>) -> int {
    total_size(st.vault_objects.filter(live(tenant_id, user_id)))
}

/// The sizes of a group's vaults can be counted.
pub open spec fn usage_countable(st: PlatformState, tenant_id: Seq<char>) -> bool {
    forall|u: Seq<char>| i64::MIN <= #[trigger] usage(st, tenant_id, u) <= i64::MAX
}

pub open spec fn vault_dto(
    st: PlatformState,
    tenant_id: Seq<char>,
    user_id: Seq<char>,
) -> FileVaultDtoView {
    FileVaultDtoView {
        user_id,
        status: vault_state(st, tenant_id, user_id).0,
        quota_bytes: vault_state(st, tenant_id, user_id).1,
        usage_bytes: usage(st, tenant_id, user_id) as i64,
        object_count: st.vault_objects.filter(live(tenant_id, user_id)).len() as i64,
    }
}

pub open spec fn object_dto(r: VaultObjectRowView) -> FileVaultObjectDtoView {
    FileVaultObjectDtoView {
        id: r.id,
        file_name: r.file_name,
        size_bytes: r.size_bytes,
        sha256: r.sha256,
        created_at: r.created_at,
        deleted_at: r.deleted_at,
    }
}

/// A character that cannot stand in a stored file's name.
pub open spec fn unfit(c: char) -> bool {
    ||| c == '/'
    ||| c == '\\'
    ||| c == ':'
    ||| c == '*'
    ||| c == '?'
    ||| c == '"'
    ||| c == '<'
    ||| c == '>'
    ||| c == '|'
    ||| c <= '\u{1f}'
    ||| '\u{7f}' <= c <= '\u{9f}'
}

/// A segment of a path that names something.
pub open spec fn naming_segment(s: Seq<char>) -> bool {
    s.len() > 0 && s != "."@
}

/// The last part of a path, without what names nothing; none where it leads upward.
pub open spec fn last_name(raw: Seq<char>) -> Seq<char> {
    let parts = split_at_each(raw, '/').filter(|s: Seq<char>| naming_segment(s));
    if parts.len() == 0 || parts.last() == ".."@ {
        Seq::empty()
    } else {
        parts.last()
    }
}

/// The name that an uploaded file is kept under.
pub open spec fn kept_name(raw: Seq<char>) -> Seq<char> {
    trimmed_text(
        last_name(raw).map_values(
            |c: char|
                if unfit(c) {
                    '_'
                } else {
                    c
                },
        ),
    )
}

fn path_file_name(raw: &str) -> (r: String)
    ensures
        r@ == last_name(raw@),
{
    let parts = split(raw, '/');
    let ghost all = texts(parts@);
    let ghost p = |s: Seq<char>| naming_segment(s);
    let mut found: Option<usize> = None;
    let mut i: usize = 0;
    proof {
        reveal(Seq::filter);
        assert(all.take(0) =~= Seq::empty());
    }
    while i < parts.len()
        invariant
            all == texts(parts@),
            p == (|s: Seq<char>| naming_segment(s)),
            i <= parts.len(),
            match found {
                Some(k) => k < parts.len() && all.take(i as int).filter(p).len() > 0 && all.take(
                    i as int,
                ).filter(p).last() == parts@[k as int]@,
                None => all.take(i as int).filter(p).len() == 0,
            },
        decreases parts.len() - i,
    {
        proof {
            lemma_filter_step(all, p, i as int);
            assert(all[i as int] == parts@[i as int]@);
        }
        let s = parts[i].as_str();
        if !s.is_empty() && !same(s, ".") {
            found = Some(i);
        }
        i = i + 1;
    }
    proof {
        assert(all.take(i as int) =~= all);
    }
    match found {
        Some(k) => if same(parts[k].as_str(), "..") {
            String::new()
        } else {
            parts[k].clone()
        },
        None => String::new(),
    }
}

/// Keeps the last part of a file's name and replaces what cannot stand in it.
pub fn sanitize_vault_file_name(raw: &str) -> (r: String)
    ensures
        r@ == kept_name(raw@),
{
    let name = path_file_name(raw);
    let chars = to_chars(name.as_str());
    let ghost mapped = name@.map_values(
        |c: char|
            if unfit(c) {
                '_'
            } else {
                c
            },
    );
    let mut out: String = String::new();
    let mut i: usize = 0;
    while i < chars.len()
        invariant
            chars@ == name@,
            mapped == name@.map_values(
                |c: char|
                    if unfit(c) {
                        '_'
                    } else {
                        c
                    },
            ),
            i <= chars.len(),
            out@ =~= mapped.take(i as int),
        decreases chars.len() - i,
    {
        let c = chars[i];
        let bad = c == '/' || c == '\\' || c == ':' || c == '*' || c == '?' || c == '"' || c == '<'
            || c == '>' || c == '|' || c <= '\u{1f}' || ('\u{7f}' <= c && c <= '\u{9f}');
        if bad {
            out.push('_');
        } else {
            out.push(c);
        }
        i = i + 1;
    }
    proof {
        assert(mapped.take(i as int) =~= mapped);
    }
    trim(out.as_str())
}

/// A file's name as it can stand in quotes in a header.
pub open spec fn quotable(name: Seq<char>) -> Seq<char> {
    name.map_values(
        |c: char|
            if c == '"' || c == '\\' || c == '\r' || c == '\n' {
                '_'
            } else {
                c
            },
    )
}

/// The header that offers a file for download under its name.
pub fn content_disposition(file_name: &str) -> (r: String)
    ensures
        r@ == disposition(file_name@),
{
    let chars = to_chars(file_name);
    let ghost whole = quotable(file_name@);
    let mut out: String = String::new();
    let mut i: usize = 0;
    while i < chars.len()
        invariant
            chars@ == file_name@,
            whole == quotable(file_name@),
            i <= chars.len(),
            out@ =~= whole.take(i as int),
        decreases chars.len() - i,
    {
        let c = chars[i];
        if c == '"' || c == '\\' || c == '\r' || c == '\n' {
            out.push('_');
        } else {
            out.push(c);
        }
        i = i + 1;
    }
    proof {
        assert(whole.take(i as int) =~= whole);
    }
    cat3("attachment; filename=\"", out.as_str(), "\"")
}

/// The file of an upload, which must carry one.
pub fn require_upload(uploaded: Option<(String, Vec<u8>)>) -> (r: Result<
    (String, Vec<u8>),
    PlatformError,
>)
    ensures
        match uploaded {
            Some(file) => r == Ok::<(String, Vec<u8>), PlatformError>(file),
            None => r matches Err(e) && e@ == PlatformErrorView::BadRequest(
                "multipart body must carry a 'file' field"@,
            ),
        },
{
    match uploaded {
        Some(file) => Ok(file),
        None => Err(PlatformError::BadRequest("multipart body must carry a 'file' field".to_owned())),
    }
}

/// Where the bytes of a file are kept.
pub open spec fn storage_key(
    tenant_id: Seq<char>,
    user_id: Seq<char>,
    id: Seq<char>,
    name: Seq<char>,
) -> Seq<
    char,
> {
    tenant_id + "/"@ + user_id + "/"@ + (id + "__"@ + name)
}

/// Why a file is not taken in.
pub open spec fn upload_refusal(
    st: PlatformState,
    tenant_id: Seq<char>,
    user_id: Seq<char>,
    file_name: Seq<char>,
    size: int,
    storage_configured: bool,
) -> Option<PlatformErrorView> {
    let (status, quota) = vault_state(st, tenant_id, user_id);
    if status == "frozen"@ {
        Some(PlatformErrorView::Forbidden("file vault is frozen"@))
    } else if quota matches Some(q) && usage(st, tenant_id, user_id) + size > q {
        Some(PlatformErrorView::BadRequest("file vault quota exceeded"@))
    } else if kept_name(file_name).len() == 0 {
        Some(PlatformErrorView::BadRequest("file name must not be empty"@))
    } else if !storage_configured {
        Some(PlatformErrorView::Internal("file vault storage root is not configured"@))
    } else {
        None
    }
}

/// The files with one of them deleted: its record stays.
pub open spec fn tombstoned(rows: Seq<VaultObjectRowView>, id: Seq<char>, now: i64) -> Seq<
    VaultObjectRowView,
> {
    rows.map_values(
        |r: VaultObjectRowView|
            if r.id == id {
                VaultObjectRowView { deleted_at: Some(now), ..r }
            } else {
                r
            },
    )
}

pub open spec fn not_object_id(id: Seq<char>) -> spec_fn(VaultObjectRowView) -> bool {
    |r: VaultObjectRowView| r.id != id
}

/// The vault settings with one vault's status set. The quota stays.
pub open spec fn with_status(
    rows: Seq<VaultSettingsRowView>,
    tenant_id: Seq<char>,
    user_id: Seq<char>,
    status: Seq<char>,
    now: i64,
) -> Seq<VaultSettingsRowView> {
    if any(rows, settings_of(tenant_id, user_id)) {
        rows.map_values(
            |r: VaultSettingsRowView|
                if settings_of(tenant_id, user_id)(r) {
                    VaultSettingsRowView { status, updated_at: now, ..r }
                } else {
                    r
                },
        )
    } else {
        rows.push(
            VaultSettingsRowView {
                tenant_id,
                user_id,
                status,
                quota_bytes: None,
                updated_at: now,
            },
        )
    }
}

/// The vault settings with one vault's quota set. The status stays.
pub open spec fn with_quota(
    rows: Seq<VaultSettingsRowView>,
    tenant_id: Seq<char>,
    user_id: Seq<char>,
    quota_bytes: Option<i64>,
    now: i64,
) -> Seq<VaultSettingsRowView> {
    if any(rows, settings_of(tenant_id, user_id)) {
        rows.map_values(
            |r: VaultSettingsRowView|
                if settings_of(tenant_id, user_id)(r) {
                    VaultSettingsRowView { quota_bytes, updated_at: now, ..r }
                } else {
                    r
                },
        )
    } else {
        rows.push(
            VaultSettingsRowView {
                tenant_id,
                user_id,
                status: "available"@,
                quota_bytes,
                updated_at: now,
            },
        )
    }
}

/// Texts in order, each once.
pub open spec fn ordered_set(list: Seq<Seq<char>>) -> bool {
    forall|i: int, j: int|
        0 <= i < j < list.len() ==> text_le(#[trigger] list[i], #[trigger] list[j]) && list[i]
            != list[j]
}

/// Adds a text to an ordered list that lacks it.
pub fn add_ordered(list: &mut Vec<String>, text: &str)
    requires
        ordered_set(texts(old(list)@)),
    ensures
        ordered_set(texts(final(list)@)),
        forall|u: Seq<char>| #[trigger]
            texts(final(list)@).contains(u) <==> texts(old(list)@).contains(u) || u == text@,
{
    if has_text(list, text) {
        return ;
    }
    let ghost before = texts(list@);
    let mut at: usize = 0;
    while at < list.len() && le_text(list[at].as_str(), text)
        invariant
            before == texts(list@),
            at <= list.len(),
            forall|j: int| 0 <= j < at ==> text_le(#[trigger] before[j], text@),
        decreases list.len() - at,
    {
        proof {
            assert(before[at as int] == list@[at as int]@);
        }
        at = at + 1;
    }
    list.insert(at, text.to_owned());
    proof {
        let after = texts(list@);
        assert(after =~= before.insert(at as int, text@));
        assert(forall|j: int| at <= j < before.len() ==> text_le(text@, #[trigger] before[j])) by {
            assert forall|j: int| at <= j < before.len() implies text_le(
                text@,
                #[trigger] before[j],
            ) by {
                lemma_text_le_total(before[at as int], text@);
                if j > at {
                    assert(text_le(before[at as int], before[j]));
                    lemma_text_le_trans(text@, before[at as int], before[j]);
                }
            }
        }
        assert forall|i: int, j: int| 0 <= i < j < after.len() implies text_le(
            #[trigger] after[i],
            #[trigger] after[j],
        ) && after[i] != after[j] by {
            let i0 = if i < at { i } else { i - 1 };
            let j0 = if j < at { j } else { j - 1 };
            if i == at {
                assert(after[j] == before[j0]);
                assert(before.contains(before[j0]));
            } else if j == at {
                assert(after[i] == before[i0]);
                assert(before.contains(before[i0]));
            } else {
                assert(after[i] == before[i0]);
                assert(after[j] == before[j0]);
            }
        }
        assert forall|u: Seq<char>| #[trigger] after.contains(u) <==> before.contains(u) || u
            == text@ by {
            if after.contains(u) {
                let k = choose|k: int| 0 <= k < after.len() && after[k] == u;
                if k != at {
                    let k0 = if k < at { k } else { k - 1 };
                    assert(before[k0] == u);
                }
            }
            if before.contains(u) {
                let k = choose|k: int| 0 <= k < before.len() && before[k] == u;
                let k1 = if k < at { k } else { k + 1 };
                assert(after[k1] == u);
            }
            if u == text@ {
                assert(after[at as int] == u);
            }
        }
    }
}

/// Somebody whose vault an administrator sees: a member, or who ever stored a file.
pub open spec fn has_vault(st: PlatformState, tenant_id: Seq<char>, user_id: Seq<char>) -> bool {
    any(st.members, member_key(user_id, tenant_id)) || any(
        st.vault_objects,
        objects_of(tenant_id, user_id),
    )
}

/// Everyone whose vault an administrator sees, in order.
pub open spec fn vault_owners(
    st: PlatformState,
    tenant_id: Seq<char>,
    users: Seq<Seq<char>>,
) -> bool {
    &&& ordered_set(users)
    &&& forall|u: Seq<char>| #[trigger] users.contains(u) <==> has_vault(st, tenant_id, u)
}

/// The vaults that an administrator sees.
pub open spec fn vault_listing(
    st: PlatformState,
    tenant_id: Seq<char>,
    out: Seq<FileVaultDtoView>,
) -> bool {
    &&& vault_owners(st, tenant_id, out.map_values(|d: FileVaultDtoView| d.user_id))
    &&& forall|i: int|
        0 <= i < out.len() ==> #[trigger] out[i] == vault_dto(st, tenant_id, out[i].user_id)
}

/// The identifier of the file whose bytes are stored under a name.
pub open spec fn object_id(name: Seq<char>) -> Seq<char> {
    match text_from(name, "__"@, 0) {
        Some(i) => name.take(i),
        None => name,
    }
}

pub open spec fn disk_of(user_id: Seq<char>) -> spec_fn(DiskFileView) -> bool {
    |f: DiskFileView| f.user_id == user_id
}

pub open spec fn stored_as(id: Seq<char>) -> spec_fn(DiskFileView) -> bool {
    |f: DiskFileView| object_id(f.name) == id
}

pub open spec fn recorded_as(id: Seq<char>) -> spec_fn(VaultObjectRowView) -> bool {
    |r: VaultObjectRowView| r.id == id
}

pub open spec fn by_id() -> spec_fn(VaultObjectRowView, VaultObjectRowView) -> bool {
    |a: VaultObjectRowView, b: VaultObjectRowView| text_le(a.id, b.id)
}

/// How a file is named in a report.
pub open spec fn labelled(r: VaultObjectRowView) -> Seq<char> {
    r.file_name + " ("@ + r.id + ")"@
}

/// A record whose bytes are not stored.
pub open spec fn not_on_disk(disk: Seq<DiskFileView>) -> spec_fn(VaultObjectRowView) -> bool {
    |r: VaultObjectRowView| !any(disk, stored_as(r.id))
}

/// A record whose bytes are stored with another size.
pub open spec fn of_other_size(disk: Seq<DiskFileView>) -> spec_fn(VaultObjectRowView) -> bool {
    |r: VaultObjectRowView|
        first(disk, stored_as(r.id)) matches Some(f) && f.size != r.size_bytes as u64
}

/// Stored bytes without a record.
pub open spec fn not_in_ledger(ledger: Seq<VaultObjectRowView>) -> spec_fn(DiskFileView) -> bool {
    |f: DiskFileView| !any(ledger, recorded_as(object_id(f.name)))
}

/// Where a member's records and stored files disagree.
pub open spec fn disagreement(
    user_id: Seq<char>,
    ledger: Seq<VaultObjectRowView>,
    disk: Seq<DiskFileView>,
) -> FileVaultReconcileEntryView {
    FileVaultReconcileEntryView {
        user_id,
        missing_on_disk: ledger.filter(not_on_disk(disk)).map_values(
            |r: VaultObjectRowView| labelled(r),
        ),
        missing_in_ledger: disk.filter(not_in_ledger(ledger)).map_values(
            |f: DiskFileView| object_id(f.name),
        ),
        size_mismatches: ledger.filter(of_other_size(disk)).map_values(
            |r: VaultObjectRowView| labelled(r),
        ),
    }
}

pub open spec fn disagrees(e: FileVaultReconcileEntryView) -> bool {
    e.missing_on_disk.len() > 0 || e.missing_in_ledger.len() > 0 || e.size_mismatches.len() > 0
}

/// The disagreements of some members, those who have any.
pub open spec fn disagreements(
    users: Seq<Seq<char>>,
    ledgers: Seq<Seq<VaultObjectRowView>>,
    disk: Seq<DiskFileView>,
) -> Seq<FileVaultReconcileEntryView>
    decreases users.len(),
{
    if users.len() == 0 {
        Seq::empty()
    } else {
        let so_far = disagreements(users.drop_last(), ledgers, disk);
        let u = users.last();
        let e = disagreement(u, ledgers[users.len() - 1], disk.filter(disk_of(u)));
        if disagrees(e) {
            so_far.push(e)
        } else {
            so_far
        }
    }
}

/// Somebody with a record or stored bytes.
pub open spec fn on_either_side(
    st: PlatformState,
    tenant_id: Seq<char>,
    disk: Seq<DiskFileView>,
    user_id: Seq<char>,
) -> bool {
    any(st.vault_objects, live(tenant_id, user_id)) || any(disk, disk_of(user_id))
}

/// Everyone with a record or stored bytes, in order.
pub open spec fn either_side(
    st: PlatformState,
    tenant_id: Seq<char>,
    disk: Seq<DiskFileView>,
    users: Seq<Seq<char>>,
) -> bool {
    &&& ordered_set(users)
    &&& forall|u: Seq<char>| #[trigger]
        users.contains(u) <==> on_either_side(st, tenant_id, disk, u)
}

/// The records of some members' vaults, each member's in the order of the identifiers.
pub open spec fn ledgers_of(
    st: PlatformState,
    tenant_id: Seq<char>,
    users: Seq<Seq<char>>,
    ledgers: Seq<Seq<VaultObjectRowView>>,
) -> bool {
    &&& ledgers.len() == users.len()
    &&& forall|k: int|
        0 <= k < users.len() ==> sorted_from(
            #[trigger] ledgers[k],
            st.vault_objects.filter(live(tenant_id, users[k])),
            by_id(),
        )
}

/// The reconciliation of a group's vaults with the stored files.
pub open spec fn reconciled(
    st: PlatformState,
    tenant_id: Seq<char>,
    disk: Seq<DiskFileView>,
    out: Seq<FileVaultReconcileEntryView>,
) -> bool {
    exists|users: Seq<Seq<char>>, ledgers: Seq<Seq<VaultObjectRowView>>|
        either_side(st, tenant_id, disk, users) && #[trigger] ledgers_of(
            st,
            tenant_id,
            users,
            ledgers,
        ) && out == disagreements(users, ledgers, disk)
}

/// What an upload does and how it is answered: the file as recorded, and where it is to be stored.
pub open spec fn uploaded(
    before: PlatformState,
    after: PlatformState,
    id: Seq<char>,
    tenant_id: Seq<char>,
    user_id: Seq<char>,
    file_name: Seq<char>,
    bytes: Seq<u8>,
    storage_configured: bool,
    now: i64,
    r: Result<(FileVaultObjectDtoView, Seq<char>), PlatformErrorView>,
) -> bool {
    match upload_refusal(
        before,
        tenant_id,
        user_id,
        file_name,
        bytes.len() as i64 as int,
        storage_configured,
    ) {
        Some(why) => r == Err::<(FileVaultObjectDtoView, Seq<char>), PlatformErrorView>(why)
            && after == before,
        None => {
            let row = VaultObjectRowView {
                id,
                tenant_id,
                user_id,
                file_name: kept_name(file_name),
                size_bytes: bytes.len() as i64,
                sha256: sha256_hex(bytes),
                storage_key: storage_key(tenant_id, user_id, id, kept_name(file_name)),
                created_at: now,
                deleted_at: None,
            };
            &&& after == (PlatformState {
                vault_objects: before.vault_objects.push(row),
                ..before
            })
            &&& r == Ok::<(FileVaultObjectDtoView, Seq<char>), PlatformErrorView>(
                (object_dto(row), row.storage_key),
            )
        },
    }
}

/// What reading a file is answered: the file as recorded, and where it is stored.
pub open spec fn file_read(
    st: PlatformState,
    tenant_id: Seq<char>,
    user_id: Seq<char>,
    id: Seq<char>,
    storage_configured: bool,
) -> Result<(FileVaultObjectDtoView, Seq<char>), PlatformErrorView> {
    match first(st.vault_objects, live_object(tenant_id, user_id, id)) {
        None => Err(PlatformErrorView::NotFound("vault object not found"@)),
        Some(row) => if storage_configured {
            Ok((object_dto(row), row.storage_key))
        } else {
            Err(PlatformErrorView::Internal("file vault storage root is not configured"@))
        },
    }
}

/// What deleting a file does and how it is answered: where it was stored.
pub open spec fn file_deleted(
    before: PlatformState,
    after: PlatformState,
    tenant_id: Seq<char>,
    user_id: Seq<char>,
    id: Seq<char>,
    now: i64,
    r: Result<Seq<char>, PlatformErrorView>,
) -> bool {
    match first(before.vault_objects, live_object(tenant_id, user_id, id)) {
        None => {
            &&& after == before
            &&& r == Err::<Seq<char>, PlatformErrorView>(
                PlatformErrorView::NotFound("vault object not found"@),
            )
        },
        Some(row) => {
            &&& after == (PlatformState {
                vault_objects: tombstoned(before.vault_objects, id, now),
                ..before
            })
            &&& r == Ok::<Seq<char>, PlatformErrorView>(row.storage_key)
        },
    }
}

/// What taking back the record of an upload does and how it is answered.
pub open spec fn upload_taken_back(
    before: PlatformState,
    after: PlatformState,
    id: Seq<char>,
    reason: Seq<char>,
    e: PlatformErrorView,
) -> bool {
    &&& after == (PlatformState {
        vault_objects: before.vault_objects.filter(not_object_id(id)),
        ..before
    })
    &&& e == PlatformErrorView::Internal("failed to store vault object: "@ + reason)
}

/// The files of a member as listed, newest first.
pub open spec fn files_shown(
    st: PlatformState,
    tenant_id: Seq<char>,
    user_id: Seq<char>,
    out: Seq<FileVaultObjectDtoView>,
) -> bool {
    lists(
        out,
        st.vault_objects,
        objects_of(tenant_id, user_id),
        newest_object_first(),
        |r: VaultObjectRowView| object_dto(r),
    )
}

/// What setting the status of a vault does and how it is answered.
pub open spec fn vault_status_set(
    before: PlatformState,
    after: PlatformState,
    tenant_id: Seq<char>,
    user_id: Seq<char>,
    status: Seq<char>,
    now: i64,
    r: Result<(), PlatformErrorView>,
) -> bool {
    if status == "available"@ || status == "frozen"@ {
        &&& r is Ok
        &&& after == (PlatformState {
            vaults: with_status(before.vaults, tenant_id, user_id, status, now),
            ..before
        })
    } else {
        &&& after == before
        &&& r == Err::<(), PlatformErrorView>(
            PlatformErrorView::BadRequest("unknown vault status '"@ + status + "'"@),
        )
    }
}

/// What setting the quota of a vault does and how it is answered.
pub open spec fn vault_quota_set(
    before: PlatformState,
    after: PlatformState,
    tenant_id: Seq<char>,
    user_id: Seq<char>,
    quota_bytes: Option<i64>,
    now: i64,
    r: Result<(), PlatformErrorView>,
) -> bool {
    if quota_bytes matches Some(q) && q < 0 {
        &&& after == before
        &&& r == Err::<(), PlatformErrorView>(
            PlatformErrorView::BadRequest("quota must not be negative"@),
        )
    } else {
        &&& r is Ok
        &&& after == (PlatformState {
            vaults: with_quota(before.vaults, tenant_id, user_id, quota_bytes, now),
            ..before
        })
    }
}

/// The header that a file is handed out with.
pub open spec fn disposition(file_name: Seq<char>) -> Seq<char> {
    "attachment; filename=\""@ + quotable(file_name) + "\""@
}

fn object_id_of(name: &str) -> (r: String)
    ensures
        r@ == object_id(name@),
{
    let chars = to_chars(name);
    let mark = to_chars("__");
    match find_text(&chars, &mark) {
        Some(i) => {
            proof {
                assert(chars@.subrange(0, i as int) =~= chars@.take(i as int));
            }
            slice_text(&chars, 0, i)
        },
        None => name.to_owned(),
    }
}

proof fn lemma_by_id_total()
    ensures
        total_order(by_id()),
{
    let le = by_id();
    assert forall|a: VaultObjectRowView, b: VaultObjectRowView| #[trigger] le(a, b) || le(b, a) by {
        lemma_text_le_total(a.id, b.id);
    }
    assert forall|a: VaultObjectRowView, b: VaultObjectRowView, c: VaultObjectRowView|
        #[trigger] le(a, b) && #[trigger] le(b, c) implies le(a, c) by {
        lemma_text_le_trans(a.id, b.id, c.id);
    }
}

fn label(r: &VaultObjectRow) -> (t: String)
    ensures
        t@ == labelled(r@),
{
    let head = cat3(r.file_name.as_str(), " (", r.id.as_str());
    cat(head.as_str(), ")")
}

/// Compares the records of a member's vault with their stored files.
fn compare(user_id: &str, ledger: &Vec<VaultObjectRow>, disk: &Vec<DiskFile>) -> (e:
    FileVaultReconcileEntry)
    ensures
        e@ == disagreement(user_id@, views(ledger@), views(disk@)),
{
    let ghost rows = views(ledger@);
    let ghost files = views(disk@);
    let ghost pm = not_on_disk(files);
    let ghost ps = of_other_size(files);
    let ghost pl = not_in_ledger(rows);
    let ghost g = |r: VaultObjectRowView| labelled(r);
    let ghost h = |f: DiskFileView| object_id(f.name);
    let mut missing_on_disk: Vec<String> = Vec::new();
    let mut size_mismatches: Vec<String> = Vec::new();
    let mut missing_in_ledger: Vec<String> = Vec::new();
    let mut i: usize = 0;
    proof {
        reveal(Seq::filter);
        assert(rows.take(0) =~= Seq::empty());
        assert(files.take(0) =~= Seq::empty());
        assert(texts(missing_on_disk@) =~= Seq::<VaultObjectRowView>::empty().map_values(g));
        assert(texts(size_mismatches@) =~= Seq::<VaultObjectRowView>::empty().map_values(g));
        assert(texts(missing_in_ledger@) =~= Seq::<DiskFileView>::empty().map_values(h));
    }
    while i < ledger.len()
        invariant
            rows == views(ledger@),
            files == views(disk@),
            pm == not_on_disk(files),
            ps == of_other_size(files),
            g == (|r: VaultObjectRowView| labelled(r)),
            i <= ledger.len(),
            texts(missing_on_disk@) == rows.take(i as int).filter(pm).map_values(g),
            texts(size_mismatches@) == rows.take(i as int).filter(ps).map_values(g),
        decreases ledger.len() - i,
    {
        let r = &ledger[i];
        proof {
            lemma_filter_step(rows, pm, i as int);
            lemma_filter_step(rows, ps, i as int);
            assert(rows[i as int] == r@);
            lemma_first(files, stored_as(r@.id));
        }
        let f = |d: &DiskFile| -> (b: bool)
            ensures
                b == stored_as(r@.id)(d@),
            {
                let id = object_id_of(d.name.as_str());
                same(id.as_str(), r.id.as_str())
            };
        match find_where(disk, f, Ghost(stored_as(r@.id))) {
            None => {
                let ghost before = texts(missing_on_disk@);
                let ghost kept = rows.take(i as int).filter(pm);
                let text = label(r);
                missing_on_disk.push(text);
                proof {
                    assert(texts(missing_on_disk@) =~= before.push(labelled(r@)));
                    assert(kept.push(r@).map_values(g) =~= kept.map_values(g).push(labelled(r@)));
                }
            },
            Some(k) => {
                if disk[k].size != r.size_bytes as u64 {
                    let ghost before = texts(size_mismatches@);
                    let ghost kept = rows.take(i as int).filter(ps);
                    let text = label(r);
                    size_mismatches.push(text);
                    proof {
                        assert(texts(size_mismatches@) =~= before.push(labelled(r@)));
                        assert(kept.push(r@).map_values(g) =~= kept.map_values(g).push(
                            labelled(r@),
                        ));
                    }
                }
            },
        }
        i = i + 1;
    }
    proof {
        assert(rows.take(i as int) =~= rows);
    }
    i = 0;
    while i < disk.len()
        invariant
            rows == views(ledger@),
            files == views(disk@),
            pl == not_in_ledger(rows),
            h == (|f: DiskFileView| object_id(f.name)),
            i <= disk.len(),
            texts(missing_in_ledger@) == files.take(i as int).filter(pl).map_values(h),
        decreases disk.len() - i,
    {
        let d = &disk[i];
        let id = object_id_of(d.name.as_str());
        proof {
            lemma_filter_step(files, pl, i as int);
            assert(files[i as int] == d@);
        }
        let f = |r: &VaultObjectRow| -> (b: bool)
            ensures
                b == recorded_as(id@)(r@),
            { same(r.id.as_str(), id.as_str()) };
        if !any_where(ledger, f, Ghost(recorded_as(id@))) {
            let ghost before = texts(missing_in_ledger@);
            let ghost kept = files.take(i as int).filter(pl);
            missing_in_ledger.push(id);
            proof {
                assert(texts(missing_in_ledger@) =~= before.push(object_id(d@.name)));
                assert(kept.push(d@).map_values(h) =~= kept.map_values(h).push(
                    object_id(d@.name),
                ));
            }
        }
        i = i + 1;
    }
    proof {
        assert(files.take(i as int) =~= files);
    }
    FileVaultReconcileEntry {
        user_id: user_id.to_owned(),
        missing_on_disk,
        missing_in_ledger,
        size_mismatches,
    }
}

impl FileVaultObjectDto {
    pub fn of(r: &VaultObjectRow) -> (d: Self)
        ensures
            d@ == object_dto(r@),
    {
        FileVaultObjectDto {
            id: r.id.clone(),
            file_name: r.file_name.clone(),
            size_bytes: r.size_bytes,
            sha256: r.sha256.clone(),
            created_at: r.created_at,
            deleted_at: r.deleted_at,
        }
    }
}

impl PlatformService {
    fn settings_at(&self, tenant_id: &str, user_id: &str) -> (r: Option<usize>)
        ensures
            match r {
                Some(i) => i < self.vaults.len() && first(
                    self@.vaults,
                    settings_of(tenant_id@, user_id@),
                ) == Some(self.vaults@[i as int]@),
                None => first(self@.vaults, settings_of(tenant_id@, user_id@)) is None,
            },
            r is Some <==> any(self@.vaults, settings_of(tenant_id@, user_id@)),
    {
        let f = |r: &VaultSettingsRow| -> (b: bool)
            ensures
                b == settings_of(tenant_id@, user_id@)(r@),
            { same(r.tenant_id.as_str(), tenant_id) && same(r.user_id.as_str(), user_id) };
        find_where(&self.vaults, f, Ghost(settings_of(tenant_id@, user_id@)))
    }

    /// The status and the quota of a vault.
    pub fn vault_settings(&self, tenant_id: &str, user_id: &str) -> (r: (String, Option<i64>))
        ensures
            r.0@ == vault_state(self@, tenant_id@, user_id@).0,
            r.1 == vault_state(self@, tenant_id@, user_id@).1,
    {
        match self.settings_at(tenant_id, user_id) {
            Some(i) => (self.vaults[i].status.clone(), self.vaults[i].quota_bytes),
            None => ("available".to_owned(), None),
        }
    }

    fn is_live(&self, tenant_id: &str, user_id: &str, r: &VaultObjectRow) -> (b: bool)
        ensures
            b == live(tenant_id@, user_id@)(r@),
    {
        same(r.tenant_id.as_str(), tenant_id) && same(r.user_id.as_str(), user_id)
            && r.deleted_at.is_none()
    }

    fn usage_of(&self, tenant_id: &str, user_id: &str) -> (n: i128)
        ensures
            n == usage(self@, tenant_id@, user_id@),
            -0x7fff_ffff_ffff_ffff_8000_0000_0000_0000 <= n
                <= 0x7fff_ffff_ffff_ffff_8000_0000_0000_0000,
    {
        let ghost all = self@.vault_objects;
        let ghost p = live(tenant_id@, user_id@);
        let mut n: i128 = 0;
        let mut i: usize = 0;
        proof {
            reveal(Seq::filter);
            assert(all.take(0) =~= Seq::empty());
        }
        while i < self.vault_objects.len()
            invariant
                all == self@.vault_objects,
                p == live(tenant_id@, user_id@),
                i <= self.vault_objects.len(),
                n == total_size(all.take(i as int).filter(p)),
                -(i as int * 0x8000_0000_0000_0000) <= n <= i as int * 0x8000_0000_0000_0000,
            decreases self.vault_objects.len() - i,
        {
            let r = &self.vault_objects[i];
            proof {
                lemma_filter_step(all, p, i as int);
                assert(all[i as int] == r@);
                let kept = all.take(i as int).filter(p);
                assert(kept.push(r@).drop_last() =~= kept);
            }
            if self.is_live(tenant_id, user_id, r) {
                n = n + r.size_bytes as i128;
            }
            i = i + 1;
        }
        proof {
            assert(all.take(i as int) =~= all);
        }
        n
    }

    /// A member's own vault.
    pub fn my_vault(&self, tenant_id: &str, user_id: &str) -> (d: FileVaultDto)
        requires
            i64::MIN <= usage(self@, tenant_id@, user_id@) <= i64::MAX,
        ensures
            d@ == vault_dto(self@, tenant_id@, user_id@),
    {
        let (status, quota_bytes) = self.vault_settings(tenant_id, user_id);
        let f = |r: &VaultObjectRow| -> (b: bool)
            ensures
                b == live(tenant_id@, user_id@)(r@),
            { self.is_live(tenant_id, user_id, r) };
        let count = count_where(&self.vault_objects, f, Ghost(live(tenant_id@, user_id@)));
        FileVaultDto {
            user_id: user_id.to_owned(),
            status,
            quota_bytes,
            usage_bytes: self.usage_of(tenant_id, user_id) as i64,
            object_count: count as i64,
        }
    }

    /// Takes a file in under the given identifier: notes it, and says where its bytes are to be
    /// kept.
    pub fn upload_vault_object(
        &mut self,
        id: String,
        tenant_id: &str,
        user_id: &str,
        file_name: &str,
        bytes: &Vec<u8>,
        storage_configured: bool,
        now: i64,
    ) -> (r: Result<(FileVaultObjectDto, String), PlatformError>)
        ensures
            uploaded(
                old(self)@,
                final(self)@,
                id@,
                tenant_id@,
                user_id@,
                file_name@,
                bytes@,
                storage_configured,
                now,
                answer(r),
            ),
    {
        let (status, quota_bytes) = self.vault_settings(tenant_id, user_id);
        if same(status.as_str(), "frozen") {
            return Err(PlatformError::Forbidden("file vault is frozen".to_owned()));
        }
        let size: i64 = bytes.len() as i64;
        if let Some(quota) = quota_bytes {
            let used = self.usage_of(tenant_id, user_id);
            if used + size as i128 > quota as i128 {
                return Err(bad_request("file vault quota exceeded"));
            }
        }
        let name = sanitize_vault_file_name(file_name);
        if name.as_str().is_empty() {
            return Err(bad_request("file name must not be empty"));
        }
        if !storage_configured {
            return Err(
                PlatformError::Internal("file vault storage root is not configured".to_owned()),
            );
        }
        let stored = cat3(id.as_str(), "__", name.as_str());
        let head = cat3(tenant_id, "/", user_id);
        let key = cat3(head.as_str(), "/", stored.as_str());
        let row = VaultObjectRow {
            id,
            tenant_id: tenant_id.to_owned(),
            user_id: user_id.to_owned(),
            file_name: name,
            size_bytes: size,
            sha256: sha256_text(bytes.as_slice()),
            storage_key: key.clone(),
            created_at: now,
            deleted_at: None,
        };
        let d = FileVaultObjectDto::of(&row);
        let ghost before = self@.vault_objects;
        self.vault_objects.push(row);
        proof {
            assert(self@.vault_objects =~= before.push(row@));
        }
        Ok((d, key))
    }

    /// Takes back the record of a file whose bytes could not be stored, and says why.
    pub fn abort_vault_upload(&mut self, id: &str, reason: &str) -> (e: PlatformError)
        ensures
            upload_taken_back(old(self)@, final(self)@, id@, reason@, e@),
    {
        let k = |r: &VaultObjectRow| -> (b: bool)
            ensures
                b == not_object_id(id@)(r@),
            { !same(r.id.as_str(), id) };
        keep_where(&mut self.vault_objects, k, Ghost(not_object_id(id@)));
        PlatformError::Internal(cat("failed to store vault object: ", reason))
    }

    /// The files of a vault, newest first, deleted ones too.
    pub fn list_vault_objects(&self, tenant_id: &str, user_id: &str) -> (out: Vec<
        FileVaultObjectDto,
    >)
        ensures
            files_shown(self@, tenant_id@, user_id@, views(out@)),
    {
        let f = |r: &VaultObjectRow| -> (b: bool)
            ensures
                b == objects_of(tenant_id@, user_id@)(r@),
            { same(r.tenant_id.as_str(), tenant_id) && same(r.user_id.as_str(), user_id) };
        let l = |a: &VaultObjectRow, b: &VaultObjectRow| -> (c: bool)
            ensures
                c == newest_object_first()(a@, b@),
            { a.created_at >= b.created_at };
        let mk = |r: &VaultObjectRow| -> (d: FileVaultObjectDto)
            ensures
                d@ == object_dto(r@),
            { FileVaultObjectDto::of(r) };
        list_where(
            &self.vault_objects,
            f,
            l,
            mk,
            Ghost(objects_of(tenant_id@, user_id@)),
            Ghost(newest_object_first()),
            Ghost(|r: VaultObjectRowView| object_dto(r)),
        )
    }

    /// A member's own files, newest first, deleted ones too.
    pub fn list_my_vault_objects(&self, tenant_id: &str, user_id: &str) -> (out: Vec<
        FileVaultObjectDto,
    >)
        ensures
            files_shown(self@, tenant_id@, user_id@, views(out@)),
    {
        self.list_vault_objects(tenant_id, user_id)
    }

    /// A member's files as an administrator sees them, newest first, deleted ones too.
    pub fn admin_list_vault_objects(&self, tenant_id: &str, user_id: &str) -> (out: Vec<
        FileVaultObjectDto,
    >)
        ensures
            files_shown(self@, tenant_id@, user_id@, views(out@)),
    {
        self.list_vault_objects(tenant_id, user_id)
    }

    fn live_object_at(&self, tenant_id: &str, user_id: &str, id: &str) -> (r: Option<usize>)
        ensures
            match r {
                Some(i) => i < self.vault_objects.len() && first(
                    self@.vault_objects,
                    live_object(tenant_id@, user_id@, id@),
                ) == Some(self.vault_objects@[i as int]@),
                None => first(self@.vault_objects, live_object(tenant_id@, user_id@, id@)) is None,
            },
    {
        let f = |r: &VaultObjectRow| -> (b: bool)
            ensures
                b == live_object(tenant_id@, user_id@, id@)(r@),
            { self.is_live(tenant_id, user_id, r) && same(r.id.as_str(), id) };
        find_where(&self.vault_objects, f, Ghost(live_object(tenant_id@, user_id@, id@)))
    }

    /// A member's own file and where its bytes are kept.
    pub fn read_vault_object(
        &self,
        tenant_id: &str,
        user_id: &str,
        id: &str,
        storage_configured: bool,
    ) -> (r: Result<(FileVaultObjectDto, String), PlatformError>)
        ensures
            answer(r) == file_read(self@, tenant_id@, user_id@, id@, storage_configured),
    {
        let at: usize = match self.live_object_at(tenant_id, user_id, id) {
            Some(i) => i,
            None => {
                return Err(not_found("vault object not found"));
            },
        };
        if !storage_configured {
            return Err(
                PlatformError::Internal("file vault storage root is not configured".to_owned()),
            );
        }
        let row = &self.vault_objects[at];
        Ok((FileVaultObjectDto::of(row), row.storage_key.clone()))
    }

    /// Deletes a member's own file: its record stays, and the result says where its bytes were
    /// kept.
    pub fn delete_vault_object(&mut self, tenant_id: &str, user_id: &str, id: &str, now: i64) -> (r:
        Result<String, PlatformError>)
        ensures
            file_deleted(old(self)@, final(self)@, tenant_id@, user_id@, id@, now, answer(r)),
    {
        let at: usize = match self.live_object_at(tenant_id, user_id, id) {
            Some(i) => i,
            None => {
                return Err(not_found("vault object not found"));
            },
        };
        let key = self.vault_objects[at].storage_key.clone();
        let ghost g = |r: VaultObjectRowView|
            if r.id == id@ {
                VaultObjectRowView { deleted_at: Some(now), ..r }
            } else {
                r
            };
        let u = |r: &VaultObjectRow| -> (y: VaultObjectRow)
            ensures
                y@ == g(r@),
            {
                let mut y = r.copy();
                if same(r.id.as_str(), id) {
                    y.deleted_at = Some(now);
                }
                y
            };
        map_rows(&mut self.vault_objects, u, Ghost(g));
        Ok(key)
    }

    /// Every vault that an administrator sees, by user.
    pub fn admin_list_vaults(&self, tenant_id: &str) -> (out: Vec<FileVaultDto>)
        requires
            usage_countable(self@, tenant_id@),
        ensures
            vault_listing(self@, tenant_id@, views(out@)),
    {
        let mut users: Vec<String> = Vec::new();
        let mut i: usize = 0;
        while i < self.members.len()
            invariant
                i <= self.members.len(),
                ordered_set(texts(users@)),
                forall|u: Seq<char>| #[trigger]
                    texts(users@).contains(u) <==> any(
                        self@.members.take(i as int),
                        member_key(u, tenant_id@),
                    ),
            decreases self.members.len() - i,
        {
            let m = &self.members[i];
            let ghost before = texts(users@);
            let ghost seen = self@.members.take(i as int);
            let ghost now = self@.members.take(i + 1);
            if same(m.tenant_id.as_str(), tenant_id) {
                add_ordered(&mut users, m.user_id.as_str());
            }
            proof {
                assert forall|u: Seq<char>| #[trigger] texts(users@).contains(u) <==> any(
                    now,
                    member_key(u, tenant_id@),
                ) by {
                    lemma_any_step(self@.members, member_key(u, tenant_id@), i as int);
                    assert(before.contains(u) <==> any(seen, member_key(u, tenant_id@)));
                    assert(self@.members[i as int] == m@);
                }
            }
            i = i + 1;
        }
        proof {
            assert(self@.members.take(i as int) =~= self@.members);
        }
        i = 0;
        while i < self.vault_objects.len()
            invariant
                i <= self.vault_objects.len(),
                ordered_set(texts(users@)),
                forall|u: Seq<char>| #[trigger]
                    texts(users@).contains(u) <==> any(self@.members, member_key(u, tenant_id@))
                        || any(
                        self@.vault_objects.take(i as int),
                        objects_of(tenant_id@, u),
                    ),
            decreases self.vault_objects.len() - i,
        {
            let o = &self.vault_objects[i];
            let ghost before = texts(users@);
            let ghost seen = self@.vault_objects.take(i as int);
            let ghost now = self@.vault_objects.take(i + 1);
            if same(o.tenant_id.as_str(), tenant_id) {
                add_ordered(&mut users, o.user_id.as_str());
            }
            proof {
                assert forall|u: Seq<char>| #[trigger] texts(users@).contains(u) <==> any(
                    self@.members,
                    member_key(u, tenant_id@),
                ) || any(now, objects_of(tenant_id@, u)) by {
                    lemma_any_step(self@.vault_objects, objects_of(tenant_id@, u), i as int);
                    assert(before.contains(u) <==> any(self@.members, member_key(u, tenant_id@))
                        || any(seen, objects_of(tenant_id@, u)));
                    assert(self@.vault_objects[i as int] == o@);
                }
            }
            i = i + 1;
        }
        proof {
            assert(self@.vault_objects.take(i as int) =~= self@.vault_objects);
        }
        let mut out: Vec<FileVaultDto> = Vec::new();
        i = 0;
        while i < users.len()
            invariant
                usage_countable(self@, tenant_id@),
                i <= users.len(),
                out.len() == i,
                forall|k: int|
                    0 <= k < i ==> #[trigger] out@[k]@ == vault_dto(
                        self@,
                        tenant_id@,
                        users@[k]@,
                    ),
            decreases users.len() - i,
        {
            let d = self.my_vault(tenant_id, users[i].as_str());
            out.push(d);
            i = i + 1;
        }
        proof {
            let list = views(out@);
            let owners = list.map_values(|d: FileVaultDtoView| d.user_id);
            assert(owners =~= texts(users@));
            assert forall|u: Seq<char>| #[trigger] owners.contains(u) <==> has_vault(
                self@,
                tenant_id@,
                u,
            ) by {
                assert(texts(users@).contains(u) == owners.contains(u));
            }
        }
        out
    }

    /// Freezes a vault, or makes it available again. A frozen vault takes no new files in.
    pub fn admin_set_vault_status(
        &mut self,
        tenant_id: &str,
        user_id: &str,
        status: &str,
        now: i64,
    ) -> (r: Result<(), PlatformError>)
        ensures
            vault_status_set(
                old(self)@,
                final(self)@,
                tenant_id@,
                user_id@,
                status@,
                now,
                done(r),
            ),
    {
        if !same(status, "available") && !same(status, "frozen") {
            return Err(PlatformError::BadRequest(cat3("unknown vault status '", status, "'")));
        }
        if self.settings_at(tenant_id, user_id).is_some() {
            let ghost g = |r: VaultSettingsRowView|
                if settings_of(tenant_id@, user_id@)(r) {
                    VaultSettingsRowView { status: status@, updated_at: now, ..r }
                } else {
                    r
                };
            let u = |r: &VaultSettingsRow| -> (y: VaultSettingsRow)
                ensures
                    y@ == g(r@),
                {
                    let mut y = r.copy();
                    if same(r.tenant_id.as_str(), tenant_id) && same(r.user_id.as_str(), user_id) {
                        y.status = status.to_owned();
                        y.updated_at = now;
                    }
                    y
                };
            map_rows(&mut self.vaults, u, Ghost(g));
        } else {
            let ghost before = self@.vaults;
            let row = VaultSettingsRow {
                tenant_id: tenant_id.to_owned(),
                user_id: user_id.to_owned(),
                status: status.to_owned(),
                quota_bytes: None,
                updated_at: now,
            };
            self.vaults.push(row);
            proof {
                assert(self@.vaults =~= before.push(row@));
            }
        }
        Ok(())
    }

    /// Sets or clears a vault's quota. A frozen vault stays frozen.
    pub fn admin_set_vault_quota(
        &mut self,
        tenant_id: &str,
        user_id: &str,
        quota_bytes: Option<i64>,
        now: i64,
    ) -> (r: Result<(), PlatformError>)
        ensures
            vault_quota_set(
                old(self)@,
                final(self)@,
                tenant_id@,
                user_id@,
                quota_bytes,
                now,
                done(r),
            ),
    {
        if let Some(q) = quota_bytes {
            if q < 0 {
                return Err(bad_request("quota must not be negative"));
            }
        }
        if self.settings_at(tenant_id, user_id).is_some() {
            let ghost g = |r: VaultSettingsRowView|
                if settings_of(tenant_id@, user_id@)(r) {
                    VaultSettingsRowView { quota_bytes, updated_at: now, ..r }
                } else {
                    r
                };
            let u = |r: &VaultSettingsRow| -> (y: VaultSettingsRow)
                ensures
                    y@ == g(r@),
                {
                    let mut y = r.copy();
                    if same(r.tenant_id.as_str(), tenant_id) && same(r.user_id.as_str(), user_id) {
                        y.quota_bytes = quota_bytes;
                        y.updated_at = now;
                    }
                    y
                };
            map_rows(&mut self.vaults, u, Ghost(g));
        } else {
            let ghost before = self@.vaults;
            let row = VaultSettingsRow {
                tenant_id: tenant_id.to_owned(),
                user_id: user_id.to_owned(),
                status: "available".to_owned(),
                quota_bytes,
                updated_at: now,
            };
            self.vaults.push(row);
            proof {
                assert(self@.vaults =~= before.push(row@));
            }
        }
        Ok(())
    }

    /// The records of a member's vault in the order of the identifiers.
    fn ledger_of(&self, tenant_id: &str, user_id: &str) -> (out: Vec<VaultObjectRow>)
        ensures
            sorted_from(
                views(out@),
                self@.vault_objects.filter(live(tenant_id@, user_id@)),
                by_id(),
            ),
    {
        let f = |r: &VaultObjectRow| -> (b: bool)
            ensures
                b == live(tenant_id@, user_id@)(r@),
            { self.is_live(tenant_id, user_id, r) };
        let l = |a: &VaultObjectRow, b: &VaultObjectRow| -> (c: bool)
            ensures
                c == by_id()(a@, b@),
            { le_text(a.id.as_str(), b.id.as_str()) };
        proof {
            lemma_by_id_total();
        }
        let order = order_where(
            &self.vault_objects,
            f,
            l,
            Ghost(live(tenant_id@, user_id@)),
            Ghost(by_id()),
        );
        let ghost picked = pick(self@.vault_objects, order@);
        let mut out: Vec<VaultObjectRow> = Vec::new();
        let mut i: usize = 0;
        while i < order.len()
            invariant
                forall|j: int|
                    0 <= j < order.len() ==> #[trigger] order@[j] < self.vault_objects.len(),
                picked == pick(self@.vault_objects, order@),
                i <= order.len(),
                views(out@) =~= picked.take(i as int),
            decreases order.len() - i,
        {
            let ghost before = views(out@);
            let row = self.vault_objects[order[i]].copy();
            out.push(row);
            proof {
                assert(views(out@) =~= before.push(row@));
            }
            i = i + 1;
        }
        proof {
            assert(picked.take(i as int) =~= picked);
        }
        out
    }

    /// Compares the records of a group's vaults with the stored files. The result holds a member
    /// only where the two disagree.
    pub fn admin_reconcile_vaults(
        &self,
        tenant_id: &str,
        storage_configured: bool,
        disk: &Vec<DiskFile>,
    ) -> (r: Result<Vec<FileVaultReconcileEntry>, PlatformError>)
        ensures
            if storage_configured {
                r matches Ok(out) && reconciled(self@, tenant_id@, views(disk@), views(out@))
            } else {
                r matches Err(e) && e@ == PlatformErrorView::Internal(
                    "file vault storage root is not configured"@,
                )
            },
    {
        if !storage_configured {
            return Err(
                PlatformError::Internal("file vault storage root is not configured".to_owned()),
            );
        }
        let ghost files = views(disk@);
        let mut users: Vec<String> = Vec::new();
        let mut i: usize = 0;
        while i < self.vault_objects.len()
            invariant
                i <= self.vault_objects.len(),
                ordered_set(texts(users@)),
                forall|u: Seq<char>| #[trigger]
                    texts(users@).contains(u) <==> any(
                        self@.vault_objects.take(i as int),
                        live(tenant_id@, u),
                    ),
            decreases self.vault_objects.len() - i,
        {
            let o = &self.vault_objects[i];
            let ghost before = texts(users@);
            let ghost seen = self@.vault_objects.take(i as int);
            let ghost now = self@.vault_objects.take(i + 1);
            if same(o.tenant_id.as_str(), tenant_id) && o.deleted_at.is_none() {
                add_ordered(&mut users, o.user_id.as_str());
            }
            proof {
                assert forall|u: Seq<char>| #[trigger] texts(users@).contains(u) <==> any(
                    now,
                    live(tenant_id@, u),
                ) by {
                    lemma_any_step(self@.vault_objects, live(tenant_id@, u), i as int);
                    assert(before.contains(u) <==> any(seen, live(tenant_id@, u)));
                    assert(self@.vault_objects[i as int] == o@);
                }
            }
            i = i + 1;
        }
        proof {
            assert(self@.vault_objects.take(i as int) =~= self@.vault_objects);
        }
        i = 0;
        while i < disk.len()
            invariant
                files == views(disk@),
                i <= disk.len(),
                ordered_set(texts(users@)),
                forall|u: Seq<char>| #[trigger]
                    texts(users@).contains(u) <==> any(self@.vault_objects, live(tenant_id@, u))
                        || any(files.take(i as int), disk_of(u)),
            decreases disk.len() - i,
        {
            let ghost before = texts(users@);
            let ghost seen = files.take(i as int);
            let ghost now = files.take(i + 1);
            add_ordered(&mut users, disk[i].user_id.as_str());
            proof {
                assert forall|u: Seq<char>| #[trigger] texts(users@).contains(u) <==> any(
                    self@.vault_objects,
                    live(tenant_id@, u),
                ) || any(now, disk_of(u)) by {
                    lemma_any_step(files, disk_of(u), i as int);
                    assert(before.contains(u) <==> any(self@.vault_objects, live(tenant_id@, u))
                        || any(seen, disk_of(u)));
                    assert(files[i as int] == disk@[i as int]@);
                }
            }
            i = i + 1;
        }
        proof {
            assert(files.take(i as int) =~= files);
        }
        let ghost people = texts(users@);
        let ghost mut ledgers: Seq<Seq<VaultObjectRowView>> = Seq::empty();
        let mut out: Vec<FileVaultReconcileEntry> = Vec::new();
        i = 0;
        proof {
            assert(people.take(0) =~= Seq::empty());
            assert(views(out@) =~= Seq::empty());
        }
        while i < users.len()
            invariant
                people == texts(users@),
                files == views(disk@),
                i <= users.len(),
                ledgers.len() == i,
                forall|k: int|
                    0 <= k < i ==> sorted_from(
                        #[trigger] ledgers[k],
                        self@.vault_objects.filter(live(tenant_id@, people[k])),
                        by_id(),
                    ),
                views(out@) == disagreements(people.take(i as int), ledgers, files),
            decreases users.len() - i,
        {
            let user = users[i].as_str();
            let ledger = self.ledger_of(tenant_id, user);
            let mine = files_of(disk, user);
            let entry = compare(user, &ledger, &mine);
            let ghost rows = views(ledger@);
            let ghost grown = ledgers.push(rows);
            proof {
                assert(people[i as int] == user@);
                assert(people.take(i + 1).drop_last() =~= people.take(i as int));
                assert(people.take(i + 1).last() == user@);
                lemma_disagreements_prefix(people.take(i as int), ledgers, grown, files);
                assert(forall|k: int| 0 <= k < i ==> #[trigger] grown[k] == ledgers[k]);
                ledgers = grown;
                assert(ledgers[i as int] == rows);
                assert(entry@.missing_on_disk.len() == entry.missing_on_disk@.len());
                assert(entry@.missing_in_ledger.len() == entry.missing_in_ledger@.len());
                assert(entry@.size_mismatches.len() == entry.size_mismatches@.len());
            }
            if entry.missing_on_disk.len() > 0 || entry.missing_in_ledger.len() > 0
                || entry.size_mismatches.len() > 0 {
                let ghost before = views(out@);
                out.push(entry);
                proof {
                    assert(views(out@) =~= before.push(entry@));
                }
            }
            i = i + 1;
        }
        proof {
            assert(people.take(i as int) =~= people);
            assert(either_side(self@, tenant_id@, files, people));
            assert(ledgers_of(self@, tenant_id@, people, ledgers));
        }
        Ok(out)
    }
}

fn files_of(disk: &Vec<DiskFile>, user_id: &str) -> (out: Vec<DiskFile>)
    ensures
        views(out@) == views(disk@).filter(disk_of(user_id@)),
{
    let ghost all = views(disk@);
    let ghost p = disk_of(user_id@);
    let mut out: Vec<DiskFile> = Vec::new();
    let mut i: usize = 0;
    proof {
        reveal(Seq::filter);
        assert(all.take(0) =~= Seq::empty());
        assert(views(out@) =~= Seq::empty());
    }
    while i < disk.len()
        invariant
            all == views(disk@),
            p == disk_of(user_id@),
            i <= disk.len(),
            views(out@) == all.take(i as int).filter(p),
        decreases disk.len() - i,
    {
        proof {
            lemma_filter_step(all, p, i as int);
        }
        if same(disk[i].user_id.as_str(), user_id) {
            let ghost before = views(out@);
            let one = DiskFile {
                user_id: disk[i].user_id.clone(),
                name: disk[i].name.clone(),
                size: disk[i].size,
            };
            out.push(one);
            proof {
                assert(views(out@) =~= before.push(one@));
                assert(one@ == all[i as int]);
            }
        }
        i = i + 1;
    }
    proof {
        assert(all.take(i as int) =~= all);
    }
    out
}

/// What was found of some members does not change with more of them.
proof fn lemma_disagreements_prefix(
    users: Seq<Seq<char>>,
    a: Seq<Seq<VaultObjectRowView>>,
    b: Seq<Seq<VaultObjectRowView>>,
    disk: Seq<DiskFileView>,
)
    requires
        users.len() <= a.len(),
        users.len() <= b.len(),
        forall|k: int| 0 <= k < users.len() ==> #[trigger] a[k] == b[k],
    ensures
        disagreements(users, a, disk) == disagreements(users, b, disk),
    decreases users.len(),
{
    if users.len() > 0 {
        lemma_disagreements_prefix(users.drop_last(), a, b, disk);
        assert(a[users.len() - 1] == b[users.len() - 1]);
    }
}

} // verus!
