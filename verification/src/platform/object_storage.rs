//! Buckets that a group registers, tests and browses.
//!
//! The secret of a bucket is write-only, and browsing stays under the prefix that a registration
//! pins.
use crate::http::{filled, trim_filled};
use crate::parse::{split, split_at_each};
use crate::platform::error::{bad_request, PlatformError, PlatformErrorView};
use crate::platform::models::{
    ObjectEntryDto, ObjectEntryDtoView, ObjectListingDto, ObjectListingDtoView,
    ObjectStorageConfigDto, ObjectStorageConfigDtoView, ObjectStorageConfigInput,
    ObjectStorageConfigInputView, ObjectStorageRow, ObjectStorageRowView, StorageProbeDto,
    StorageProbeDtoView,
};
use crate::platform::service::{PlatformService, PlatformState};
use crate::platform::storage_driver::{
    driver_for, known_protocol, validate_protocol, DriverConfig, DriverConfigView, DriverEntryView,
    DriverKind, DriverListing, DriverListingView,
};
use crate::table::{
    answer, any, any_where, done, find_where, first, keep_where, least, least_where, list_where,
    lists, map_rows, total_order, views,
};
use crate::text::{
    as_opt_str, begins_with, cat, cat3, clone_opt, drop_while, le_text, lemma_text_le_total,
    lemma_text_le_trans, opt_str, opt_text, same, skip_while, strip_leading, strip_trailing,
    text_le, texts, trim, trimmed_text, white_space,
};
use vstd::prelude::*;

verus! {

/// A given text without white space around it; an empty one counts as not given.
pub fn trimmed(raw: Option<&str>) -> (r: Option<String>)
    ensures
        opt_text(r) == filled(opt_str(raw)),
{
    trim_filled(raw)
}

impl ObjectStorageConfigInput {
    /// The secret to encrypt and store: the one given, without white space around it.
    pub fn secret_to_seal(&self) -> (r: Option<String>)
        ensures
            opt_text(r) == filled(self@.secret_access_key),
    {
        trimmed(as_opt_str(&self.secret_access_key))
    }
}

/// A prefix in its one shape: no slash in front, one at the end unless it is empty.
pub open spec fn prefix_shape(raw: Seq<char>) -> Seq<char> {
    let bare = skip_while(trimmed_text(raw), |c: char| c == '/');
    if bare.len() == 0 {
        Seq::empty()
    } else {
        drop_while(bare, |c: char| c == '/') + seq!['/']
    }
}

pub fn normalize_prefix(raw: &str) -> (r: String)
    ensures
        r@ == prefix_shape(raw@),
{
    let text = trim(raw);
    let bare = strip_leading(text.as_str(), '/');
    if bare.as_str().is_empty() {
        return String::new();
    }
    let mut out = strip_trailing(bare.as_str(), '/');
    let ghost before = out@;
    out.push('/');
    proof {
        assert(out@ =~= before + seq!['/']);
    }
    out
}

proof fn lemma_trim_fixed(text: Seq<char>)
    requires
        text.len() > 0,
        !white_space(text[0]),
        !white_space(text.last()),
    ensures
        trimmed_text(text) == text,
{
    let p = |c: char| white_space(c);
    assert(skip_while(text, p) == text);
    assert(drop_while(text, p) == text);
}

proof fn lemma_drop_bare(text: Seq<char>, p: spec_fn(char) -> bool)
    ensures
        drop_while(text, p).len() > 0 ==> !p(drop_while(text, p).last()),
        drop_while(text, p).len() <= text.len(),
        drop_while(text, p) == text.take(drop_while(text, p).len() as int),
    decreases text.len(),
{
    if text.len() > 0 && p(text.last()) {
        lemma_drop_bare(text.drop_last(), p);
        let n = drop_while(text, p).len() as int;
        assert(text.drop_last().take(n) =~= text.take(n));
    } else {
        assert(text.take(text.len() as int) =~= text);
    }
}

proof fn lemma_skip_bare(text: Seq<char>, p: spec_fn(char) -> bool)
    ensures
        skip_while(text, p).len() > 0 ==> !p(skip_while(text, p)[0]),
    decreases text.len(),
{
    if text.len() > 0 && p(text[0]) {
        lemma_skip_bare(text.drop_first(), p);
    }
}

proof fn lemma_drop_nonempty(text: Seq<char>, p: spec_fn(char) -> bool)
    requires
        text.len() > 0,
        !p(text[0]),
    ensures
        drop_while(text, p).len() > 0,
    decreases text.len(),
{
    if p(text.last()) {
        assert(text.len() > 1);
        assert(text.drop_last()[0] == text[0]);
        lemma_drop_nonempty(text.drop_last(), p);
    }
}

/// A prefix in its one shape keeps it, unless white space follows the slashes in front.
pub proof fn prefix_shape_is_stable(raw: Seq<char>)
    requires
        ({
            let bare = skip_while(trimmed_text(raw), |c: char| c == '/');
            bare.len() > 0 ==> !white_space(bare[0])
        }),
    ensures
        prefix_shape(prefix_shape(raw)) == prefix_shape(raw),
{
    let slash = |c: char| c == '/';
    let bare = skip_while(trimmed_text(raw), slash);
    let once = prefix_shape(raw);
    if bare.len() == 0 {
        assert(trimmed_text(once) =~= Seq::empty());
        assert(skip_while(trimmed_text(once), slash) =~= Seq::empty());
    } else {
        lemma_skip_bare(trimmed_text(raw), slash);
        lemma_drop_nonempty(bare, slash);
        lemma_drop_bare(bare, slash);
        let body = drop_while(bare, slash);
        assert(body[0] == bare[0]);
        assert(once[0] == bare[0]);
        assert(once.last() == '/');
        lemma_trim_fixed(once);
        assert(skip_while(once, slash) == once);
        assert(once.drop_last() =~= body);
        assert(drop_while(once, slash) == drop_while(body, slash));
        assert(drop_while(body, slash) == body);
    }
}

/// Whether a path has a segment that leads upward or nowhere.
pub open spec fn traverses(sub: Seq<char>) -> bool {
    exists|i: int|
        0 <= i < split_at_each(sub, '/').len() && {
            let s = #[trigger] split_at_each(sub, '/')[i];
            s == ".."@ || s == "."@
        }
}

pub open spec fn traversal_error() -> PlatformErrorView {
    PlatformErrorView::BadRequest("prefix may not contain \"..\" or \".\" path segments"@)
}

pub fn reject_traversal(sub: &str) -> (r: Result<(), PlatformError>)
    ensures
        match r {
            Ok(_) => !traverses(sub@),
            Err(e) => traverses(sub@) && e@ == traversal_error(),
        },
{
    let parts = split(sub, '/');
    let ghost all = split_at_each(sub@, '/');
    let mut i: usize = 0;
    while i < parts.len()
        invariant
            texts(parts@) == all,
            all == split_at_each(sub@, '/'),
            i <= parts.len(),
            forall|j: int| 0 <= j < i ==> #[trigger] all[j] != ".."@ && all[j] != "."@,
        decreases parts.len() - i,
    {
        proof {
            assert(all[i as int] == parts@[i as int]@);
        }
        if same(parts[i].as_str(), "..") || same(parts[i].as_str(), ".") {
            return Err(bad_request("prefix may not contain \"..\" or \".\" path segments"));
        }
        i = i + 1;
    }
    proof {
        assert(texts(parts@).len() == parts@.len());
    }
    Ok(())
}

pub open spec fn storage_key(tenant_id: Seq<char>, id: Seq<char>) -> spec_fn(
    ObjectStorageRowView,
) -> bool {
    |r: ObjectStorageRowView| r.tenant_id == tenant_id && r.id == id
}

pub open spec fn not_storage_key(tenant_id: Seq<char>, id: Seq<char>) -> spec_fn(
    ObjectStorageRowView,
) -> bool {
    |r: ObjectStorageRowView| !(r.tenant_id == tenant_id && r.id == id)
}

pub open spec fn storages_of(tenant_id: Seq<char>) -> spec_fn(ObjectStorageRowView) -> bool {
    |r: ObjectStorageRowView| r.tenant_id == tenant_id
}

pub open spec fn keyed(tenant_id: Seq<char>, config_key: Seq<char>) -> spec_fn(
    ObjectStorageRowView,
) -> bool {
    |r: ObjectStorageRowView| r.tenant_id == tenant_id && r.config_key == config_key
}

/// The default first, then by key.
pub open spec fn default_first() -> spec_fn(ObjectStorageRowView, ObjectStorageRowView) -> bool {
    |a: ObjectStorageRowView, b: ObjectStorageRowView|
        if a.is_default != b.is_default {
            a.is_default > b.is_default
        } else {
            text_le(a.config_key, b.config_key)
        }
}

pub open spec fn storage_dto(r: ObjectStorageRowView) -> ObjectStorageConfigDtoView {
    ObjectStorageConfigDtoView {
        id: r.id,
        protocol: r.protocol,
        config_key: r.config_key,
        bucket: r.bucket,
        endpoint: r.endpoint,
        region: r.region,
        prefix: r.prefix,
        access_key_id: r.access_key_id,
        has_secret: r.secret_access_key_encrypted is Some,
        force_path_style: r.force_path_style != 0,
        is_default: r.is_default != 0,
        created_by: r.created_by,
        created_at: r.created_at,
        updated_at: r.updated_at,
    }
}

pub open spec fn flag(b: bool) -> i64 {
    if b {
        1
    } else {
        0
    }
}

/// A prefix as it is stored: an empty one is none.
pub open spec fn stored_prefix(raw: Seq<char>) -> Option<Seq<char>> {
    if prefix_shape(raw).len() > 0 {
        Some(prefix_shape(raw))
    } else {
        None
    }
}

/// The protocol that a new registration speaks.
pub open spec fn chosen_protocol(input: ObjectStorageConfigInputView) -> Seq<char> {
    match filled(input.protocol) {
        Some(p) => p,
        None => "s3"@,
    }
}

pub open spec fn protocol_error(protocol: Seq<char>) -> PlatformErrorView {
    PlatformErrorView::BadRequest(
        "unsupported storage protocol "@ + protocol + "; expected one of s3, webdav"@,
    )
}

/// Why a registration is not made.
pub open spec fn create_refusal(
    st: PlatformState,
    tenant_id: Seq<char>,
    input: ObjectStorageConfigInputView,
) -> Option<PlatformErrorView> {
    if filled(input.config_key) is None {
        Some(PlatformErrorView::BadRequest("config key is required"@))
    } else if filled(input.bucket) is None {
        Some(PlatformErrorView::BadRequest("bucket is required"@))
    } else if filled(input.endpoint) is None {
        Some(PlatformErrorView::BadRequest("endpoint is required"@))
    } else if !known_protocol(chosen_protocol(input)) {
        Some(protocol_error(chosen_protocol(input)))
    } else if any(st.storages, keyed(tenant_id, filled(input.config_key)->0)) {
        Some(
            PlatformErrorView::BadRequest(
                "storage config key "@ + filled(input.config_key)->0
                    + " is already used in this tenant"@,
            ),
        )
    } else {
        None
    }
}

/// A new registration. The first of a group is its default.
pub open spec fn new_storage(
    st: PlatformState,
    id: Seq<char>,
    tenant_id: Seq<char>,
    created_by: Seq<char>,
    input: ObjectStorageConfigInputView,
    sealed: Seq<char>,
    now: i64,
) -> ObjectStorageRowView {
    ObjectStorageRowView {
        id,
        tenant_id,
        protocol: chosen_protocol(input),
        config_key: filled(input.config_key)->0,
        bucket: filled(input.bucket)->0,
        endpoint: filled(input.endpoint)->0,
        region: match filled(input.region) {
            Some(r) => r,
            None => "us-east-1"@,
        },
        prefix: match input.prefix {
            Some(p) => stored_prefix(p),
            None => None,
        },
        access_key_id: filled(input.access_key_id),
        secret_access_key_encrypted: if filled(input.secret_access_key) is Some {
            Some(sealed)
        } else {
            None
        },
        force_path_style: flag(input.force_path_style != Some(false)),
        is_default: flag(
            input.is_default == Some(true) || !any(st.storages, storages_of(tenant_id)),
        ),
        created_by,
        created_at: now,
        updated_at: now,
    }
}

/// The registrations with one left as the group's only default.
pub open spec fn others_cleared(
    rows: Seq<ObjectStorageRowView>,
    tenant_id: Seq<char>,
    keep_id: Seq<char>,
) -> Seq<ObjectStorageRowView> {
    rows.map_values(
        |r: ObjectStorageRowView|
            if r.tenant_id == tenant_id && r.id != keep_id {
                ObjectStorageRowView { is_default: 0, ..r }
            } else {
                r
            },
    )
}

/// The registrations, with others cleared where one becomes the default.
pub open spec fn settled(
    rows: Seq<ObjectStorageRowView>,
    tenant_id: Seq<char>,
    id: Seq<char>,
    is_default: bool,
) -> Seq<ObjectStorageRowView> {
    if is_default {
        others_cleared(rows, tenant_id, id)
    } else {
        rows
    }
}

/// A given text, or else the stored one.
pub open spec fn given_or(given: Option<Seq<char>>, stored: Seq<char>) -> Seq<char> {
    match filled(given) {
        Some(g) => g,
        None => stored,
    }
}

/// A registration with what a request sets of it. A secret that is not given stays, an empty one
/// clears it. The default stays the default, whatever the request says of it: it changes only when
/// another registration becomes it.
pub open spec fn changed_storage(
    r: ObjectStorageRowView,
    current: ObjectStorageRowView,
    input: ObjectStorageConfigInputView,
    sealed: Seq<char>,
    now: i64,
) -> ObjectStorageRowView {
    ObjectStorageRowView {
        protocol: given_or(input.protocol, current.protocol),
        bucket: given_or(input.bucket, current.bucket),
        endpoint: given_or(input.endpoint, current.endpoint),
        region: given_or(input.region, current.region),
        prefix: match input.prefix {
            Some(p) => stored_prefix(p),
            None => current.prefix,
        },
        access_key_id: match input.access_key_id {
            Some(_) => filled(input.access_key_id),
            None => current.access_key_id,
        },
        force_path_style: match input.force_path_style {
            Some(b) => flag(b),
            None => flag(current.force_path_style != 0),
        },
        is_default: flag(input.is_default == Some(true) || current.is_default != 0),
        secret_access_key_encrypted: match input.secret_access_key {
            None => r.secret_access_key_encrypted,
            Some(_) => if filled(input.secret_access_key) is Some {
                Some(sealed)
            } else {
                None
            },
        },
        updated_at: now,
        ..r
    }
}

pub open spec fn missing(id: Seq<char>) -> PlatformErrorView {
    PlatformErrorView::NotFound("object storage config "@ + id)
}

/// Why a registration is not changed.
pub open spec fn update_refusal(
    st: PlatformState,
    tenant_id: Seq<char>,
    id: Seq<char>,
    input: ObjectStorageConfigInputView,
) -> Option<PlatformErrorView> {
    if !any(st.storages, storage_key(tenant_id, id)) {
        Some(missing(id))
    } else if filled(input.protocol) matches Some(p) && !known_protocol(p) {
        Some(protocol_error(filled(input.protocol)->0))
    } else {
        None
    }
}

/// The registrations with one of them made the default.
pub open spec fn made_default(
    rows: Seq<ObjectStorageRowView>,
    tenant_id: Seq<char>,
    id: Seq<char>,
    now: i64,
) -> Seq<ObjectStorageRowView> {
    rows.map_values(
        |r: ObjectStorageRowView|
            if storage_key(tenant_id, id)(r) {
                ObjectStorageRowView { is_default: 1, updated_at: now, ..r }
            } else {
                r
            },
    )
}

/// The registrations without one of them. Where that was the default, another one becomes it.
pub open spec fn storage_deleted(
    rows: Seq<ObjectStorageRowView>,
    tenant_id: Seq<char>,
    id: Seq<char>,
    was_default: bool,
    now: i64,
) -> Seq<ObjectStorageRowView> {
    let rest = rows.filter(not_storage_key(tenant_id, id));
    if was_default {
        match least(rest, storages_of(tenant_id), default_first()) {
            Some(next) => made_default(rest, tenant_id, next.id, now),
            None => rest,
        }
    } else {
        rest
    }
}

pub proof fn lemma_default_first_total()
    ensures
        total_order(default_first()),
{
    let le = default_first();
    assert forall|a: ObjectStorageRowView, b: ObjectStorageRowView| #[trigger] le(a, b) || le(
        b,
        a,
    ) by {
        lemma_text_le_total(a.config_key, b.config_key);
    }
    assert forall|a: ObjectStorageRowView, b: ObjectStorageRowView, c: ObjectStorageRowView|
        #[trigger] le(a, b) && #[trigger] le(b, c) implies le(a, c) by {
        if text_le(a.config_key, b.config_key) && text_le(b.config_key, c.config_key) {
            lemma_text_le_trans(a.config_key, b.config_key, c.config_key);
        }
    }
}

/// What registering a storage does and how it is answered.
pub open spec fn storage_created(
    before: PlatformState,
    after: PlatformState,
    id: Seq<char>,
    tenant_id: Seq<char>,
    created_by: Seq<char>,
    input: ObjectStorageConfigInputView,
    sealed: Seq<char>,
    now: i64,
    r: Result<ObjectStorageConfigDtoView, PlatformErrorView>,
) -> bool {
    match create_refusal(before, tenant_id, input) {
        Some(why) => r == Err::<ObjectStorageConfigDtoView, PlatformErrorView>(why) && after
            == before,
        None => {
            let row = new_storage(before, id, tenant_id, created_by, input, sealed, now);
            &&& after == (PlatformState {
                storages: settled(
                    before.storages.push(row),
                    tenant_id,
                    id,
                    row.is_default != 0,
                ),
                ..before
            })
            &&& r == Ok::<ObjectStorageConfigDtoView, PlatformErrorView>(storage_dto(row))
        },
    }
}

/// What changing a registration does and how it is answered.
pub open spec fn storage_updated(
    before: PlatformState,
    after: PlatformState,
    tenant_id: Seq<char>,
    id: Seq<char>,
    input: ObjectStorageConfigInputView,
    sealed: Seq<char>,
    now: i64,
    r: Result<ObjectStorageConfigDtoView, PlatformErrorView>,
) -> bool {
    match update_refusal(before, tenant_id, id, input) {
        Some(why) => r == Err::<ObjectStorageConfigDtoView, PlatformErrorView>(why) && after
            == before,
        None => {
            let current = first(before.storages, storage_key(tenant_id, id))->0;
            let row = changed_storage(current, current, input, sealed, now);
            &&& after == (PlatformState {
                storages: settled(
                    storage_changed(
                        before.storages,
                        tenant_id,
                        id,
                        current,
                        input,
                        sealed,
                        now,
                    ),
                    tenant_id,
                    id,
                    row.is_default != 0,
                ),
                ..before
            })
            &&& r == Ok::<ObjectStorageConfigDtoView, PlatformErrorView>(storage_dto(row))
        },
    }
}

/// What deleting a registration does and how it is answered.
pub open spec fn storage_removed(
    before: PlatformState,
    after: PlatformState,
    tenant_id: Seq<char>,
    id: Seq<char>,
    now: i64,
    r: Result<(), PlatformErrorView>,
) -> bool {
    match first(before.storages, storage_key(tenant_id, id)) {
        None => after == before && r == Err::<(), PlatformErrorView>(missing(id)),
        Some(row) => r is Ok && after == (PlatformState {
            storages: storage_deleted(before.storages, tenant_id, id, row.is_default != 0, now),
            ..before
        }),
    }
}

/// The registrations of a group as listed, the default first.
pub open spec fn storages_shown(
    st: PlatformState,
    tenant_id: Seq<char>,
    out: Seq<ObjectStorageConfigDtoView>,
) -> bool {
    lists(
        out,
        st.storages,
        storages_of(tenant_id),
        default_first(),
        |r: ObjectStorageRowView| storage_dto(r),
    )
}

/// What the answer to a probe says.
pub open spec fn probe_told(reply: Result<Seq<char>, PlatformErrorView>) -> Result<
    StorageProbeDtoView,
    PlatformErrorView,
> {
    match reply {
        Ok(message) => Ok(StorageProbeDtoView { ok: true, message }),
        Err(PlatformErrorView::BadRequest(message)) => Ok(
            StorageProbeDtoView { ok: false, message },
        ),
        Err(e) => Err(e),
    }
}

/// A listing as shown.
pub open spec fn shown_listing(
    prefix: Seq<char>,
    listing: DriverListingView,
) -> ObjectListingDtoView {
    ObjectListingDtoView {
        entries: listing.entries.map_values(|e: DriverEntryView| shown_entry(e)),
        prefix,
        next_token: listing.next_token,
    }
}

fn as_flag(b: bool) -> (n: i64)
    ensures
        n == flag(b),
{
    if b {
        1
    } else {
        0
    }
}

fn shape_prefix(raw: &str) -> (r: Option<String>)
    ensures
        opt_text(r) == stored_prefix(raw@),
{
    let p = normalize_prefix(raw);
    if p.as_str().is_empty() {
        None
    } else {
        Some(p)
    }
}

fn or_stored(given: &Option<String>, stored: &String) -> (r: String)
    ensures
        r@ == given_or(opt_text(*given), stored@),
{
    match trimmed(as_opt_str(given)) {
        Some(g) => g,
        None => stored.clone(),
    }
}

impl ObjectStorageConfigDto {
    pub fn of(r: &ObjectStorageRow) -> (d: Self)
        ensures
            d@ == storage_dto(r@),
    {
        ObjectStorageConfigDto {
            id: r.id.clone(),
            protocol: r.protocol.clone(),
            config_key: r.config_key.clone(),
            bucket: r.bucket.clone(),
            endpoint: r.endpoint.clone(),
            region: r.region.clone(),
            prefix: clone_opt(&r.prefix),
            access_key_id: clone_opt(&r.access_key_id),
            has_secret: r.secret_access_key_encrypted.is_some(),
            force_path_style: r.force_path_style != 0,
            is_default: r.is_default != 0,
            created_by: r.created_by.clone(),
            created_at: r.created_at,
            updated_at: r.updated_at,
        }
    }
}

fn change_row(
    r: &ObjectStorageRow,
    current: &ObjectStorageRow,
    input: &ObjectStorageConfigInput,
    sealed: &str,
    now: i64,
) -> (y: ObjectStorageRow)
    ensures
        y@ == changed_storage(r@, current@, input@, sealed@, now),
{
    let mut y = r.copy();
    y.protocol = or_stored(&input.protocol, &current.protocol);
    y.bucket = or_stored(&input.bucket, &current.bucket);
    y.endpoint = or_stored(&input.endpoint, &current.endpoint);
    y.region = or_stored(&input.region, &current.region);
    y.prefix = match &input.prefix {
        Some(p) => shape_prefix(p.as_str()),
        None => clone_opt(&current.prefix),
    };
    y.access_key_id = match &input.access_key_id {
        Some(k) => trimmed(Some(k.as_str())),
        None => clone_opt(&current.access_key_id),
    };
    y.force_path_style = match input.force_path_style {
        Some(b) => as_flag(b),
        None => as_flag(current.force_path_style != 0),
    };
    let asked = match input.is_default {
        Some(b) => b,
        None => false,
    };
    y.is_default = as_flag(asked || current.is_default != 0);
    y.secret_access_key_encrypted = match &input.secret_access_key {
        None => clone_opt(&r.secret_access_key_encrypted),
        Some(s) => match trimmed(Some(s.as_str())) {
            Some(_) => Some(sealed.to_owned()),
            None => None,
        },
    };
    y.updated_at = now;
    y
}

impl PlatformService {
    fn storage_at(&self, tenant_id: &str, id: &str) -> (r: Option<usize>)
        ensures
            match r {
                Some(i) => i < self.storages.len() && first(
                    self@.storages,
                    storage_key(tenant_id@, id@),
                ) == Some(self.storages@[i as int]@),
                None => first(self@.storages, storage_key(tenant_id@, id@)) is None,
            },
            r is Some <==> any(self@.storages, storage_key(tenant_id@, id@)),
    {
        let f = |r: &ObjectStorageRow| -> (b: bool)
            ensures
                b == storage_key(tenant_id@, id@)(r@),
            { same(r.tenant_id.as_str(), tenant_id) && same(r.id.as_str(), id) };
        find_where(&self.storages, f, Ghost(storage_key(tenant_id@, id@)))
    }

    /// The registrations of a group, the default first, then by key.
    pub fn list_object_storage_configs(&self, tenant_id: &str) -> (out: Vec<ObjectStorageConfigDto>)
        ensures
            storages_shown(self@, tenant_id@, views(out@)),
    {
        let f = |r: &ObjectStorageRow| -> (b: bool)
            ensures
                b == storages_of(tenant_id@)(r@),
            { same(r.tenant_id.as_str(), tenant_id) };
        let l = |a: &ObjectStorageRow, b: &ObjectStorageRow| -> (c: bool)
            ensures
                c == default_first()(a@, b@),
            {
                if a.is_default != b.is_default {
                    a.is_default > b.is_default
                } else {
                    le_text(a.config_key.as_str(), b.config_key.as_str())
                }
            };
        let mk = |r: &ObjectStorageRow| -> (d: ObjectStorageConfigDto)
            ensures
                d@ == storage_dto(r@),
            { ObjectStorageConfigDto::of(r) };
        proof {
            lemma_default_first_total();
        }
        list_where(
            &self.storages,
            f,
            l,
            mk,
            Ghost(storages_of(tenant_id@)),
            Ghost(default_first()),
            Ghost(|r: ObjectStorageRowView| storage_dto(r)),
        )
    }

    fn clear_other_defaults(&mut self, tenant_id: &str, keep_id: &str)
        ensures
            final(self)@ == (PlatformState {
                storages: others_cleared(old(self)@.storages, tenant_id@, keep_id@),
                ..old(self)@
            }),
    {
        let ghost g = |r: ObjectStorageRowView|
            if r.tenant_id == tenant_id@ && r.id != keep_id@ {
                ObjectStorageRowView { is_default: 0, ..r }
            } else {
                r
            };
        let u = |r: &ObjectStorageRow| -> (y: ObjectStorageRow)
            ensures
                y@ == g(r@),
            {
                let mut y = r.copy();
                if same(r.tenant_id.as_str(), tenant_id) && !same(r.id.as_str(), keep_id) {
                    y.is_default = 0;
                }
                y
            };
        map_rows(&mut self.storages, u, Ghost(g));
    }

    fn mark_default(&mut self, tenant_id: &str, id: &str, now: i64)
        ensures
            final(self)@ == (PlatformState {
                storages: made_default(old(self)@.storages, tenant_id@, id@, now),
                ..old(self)@
            }),
    {
        let ghost g = |r: ObjectStorageRowView|
            if storage_key(tenant_id@, id@)(r) {
                ObjectStorageRowView { is_default: 1, updated_at: now, ..r }
            } else {
                r
            };
        let u = |r: &ObjectStorageRow| -> (y: ObjectStorageRow)
            ensures
                y@ == g(r@),
            {
                let mut y = r.copy();
                if same(r.tenant_id.as_str(), tenant_id) && same(r.id.as_str(), id) {
                    y.is_default = 1;
                    y.updated_at = now;
                }
                y
            };
        map_rows(&mut self.storages, u, Ghost(g));
    }

    /// Registers a bucket under the given identifier. `sealed` is the encrypted form of
    /// the secret to seal.
    pub fn create_object_storage_config(
        &mut self,
        id: String,
        tenant_id: &str,
        created_by: &str,
        input: &ObjectStorageConfigInput,
        sealed: &str,
        now: i64,
    ) -> (r: Result<ObjectStorageConfigDto, PlatformError>)
        ensures
            storage_created(
                old(self)@,
                final(self)@,
                id@,
                tenant_id@,
                created_by@,
                input@,
                sealed@,
                now,
                answer(r),
            ),
    {
        let config_key = match trimmed(as_opt_str(&input.config_key)) {
            Some(k) => k,
            None => {
                return Err(bad_request("config key is required"));
            },
        };
        let bucket = match trimmed(as_opt_str(&input.bucket)) {
            Some(b) => b,
            None => {
                return Err(bad_request("bucket is required"));
            },
        };
        let endpoint = match trimmed(as_opt_str(&input.endpoint)) {
            Some(e) => e,
            None => {
                return Err(bad_request("endpoint is required"));
            },
        };
        let protocol = match trimmed(as_opt_str(&input.protocol)) {
            Some(p) => p,
            None => "s3".to_owned(),
        };
        if let Err(e) = validate_protocol(protocol.as_str()) {
            return Err(e);
        }
        let f = |r: &ObjectStorageRow| -> (b: bool)
            ensures
                b == keyed(tenant_id@, config_key@)(r@),
            {
                same(r.tenant_id.as_str(), tenant_id) && same(
                    r.config_key.as_str(),
                    config_key.as_str(),
                )
            };
        if any_where(&self.storages, f, Ghost(keyed(tenant_id@, config_key@))) {
            return Err(
                PlatformError::BadRequest(
                    cat3(
                        "storage config key ",
                        config_key.as_str(),
                        " is already used in this tenant",
                    ),
                ),
            );
        }
        let g = |r: &ObjectStorageRow| -> (b: bool)
            ensures
                b == storages_of(tenant_id@)(r@),
            { same(r.tenant_id.as_str(), tenant_id) };
        let is_first = !any_where(&self.storages, g, Ghost(storages_of(tenant_id@)));
        let asked = match input.is_default {
            Some(b) => b,
            None => false,
        };
        let is_default = asked || is_first;
        let path_style = match input.force_path_style {
            Some(b) => b,
            None => true,
        };
        let region = match trimmed(as_opt_str(&input.region)) {
            Some(r) => r,
            None => "us-east-1".to_owned(),
        };
        let prefix = match &input.prefix {
            Some(p) => shape_prefix(p.as_str()),
            None => None,
        };
        let secret = match input.secret_to_seal() {
            Some(_) => Some(sealed.to_owned()),
            None => None,
        };
        let keep_id = id.clone();
        let row = ObjectStorageRow {
            id,
            tenant_id: tenant_id.to_owned(),
            protocol,
            config_key,
            bucket,
            endpoint,
            region,
            prefix,
            access_key_id: trimmed(as_opt_str(&input.access_key_id)),
            secret_access_key_encrypted: secret,
            force_path_style: as_flag(path_style),
            is_default: as_flag(is_default),
            created_by: created_by.to_owned(),
            created_at: now,
            updated_at: now,
        };
        let d = ObjectStorageConfigDto::of(&row);
        let ghost before = self@.storages;
        self.storages.push(row);
        proof {
            assert(self@.storages =~= before.push(row@));
        }
        if is_default {
            self.clear_other_defaults(tenant_id, keep_id.as_str());
        }
        Ok(d)
    }

    /// Changes a registration. `sealed` is the encrypted form of the secret to seal, where there
    /// is one.
    pub fn update_object_storage_config(
        &mut self,
        tenant_id: &str,
        id: &str,
        input: &ObjectStorageConfigInput,
        sealed: &str,
        now: i64,
    ) -> (r: Result<ObjectStorageConfigDto, PlatformError>)
        ensures
            storage_updated(
                old(self)@,
                final(self)@,
                tenant_id@,
                id@,
                input@,
                sealed@,
                now,
                answer(r),
            ),
    {
        let at: usize = match self.storage_at(tenant_id, id) {
            Some(i) => i,
            None => {
                return Err(PlatformError::NotFound(cat("object storage config ", id)));
            },
        };
        if let Some(p) = trimmed(as_opt_str(&input.protocol)) {
            if let Err(e) = validate_protocol(p.as_str()) {
                return Err(e);
            }
        }
        let current = self.storages[at].copy();
        let row = change_row(&current, &current, input, sealed, now);
        let ghost cur = current@;
        let ghost inp = input@;
        let ghost g = |r: ObjectStorageRowView|
            if storage_key(tenant_id@, id@)(r) {
                changed_storage(r, cur, inp, sealed@, now)
            } else {
                r
            };
        let u = |r: &ObjectStorageRow| -> (y: ObjectStorageRow)
            ensures
                y@ == g(r@),
            {
                if same(r.tenant_id.as_str(), tenant_id) && same(r.id.as_str(), id) {
                    change_row(r, &current, input, sealed, now)
                } else {
                    r.copy()
                }
            };
        map_rows(&mut self.storages, u, Ghost(g));
        proof {
            assert(self@.storages =~= storage_changed(
                old(self)@.storages,
                tenant_id@,
                id@,
                cur,
                inp,
                sealed@,
                now,
            ));
        }
        if row.is_default != 0 {
            self.clear_other_defaults(tenant_id, id);
        }
        Ok(ObjectStorageConfigDto::of(&row))
    }

    /// Deletes a registration. Where it was the default, the next one becomes it.
    pub fn delete_object_storage_config(
        &mut self,
        tenant_id: &str,
        id: &str,
        now: i64,
    ) -> (r: Result<
        (),
        PlatformError,
    >)
        ensures
            storage_removed(old(self)@, final(self)@, tenant_id@, id@, now, done(r)),
    {
        let at: usize = match self.storage_at(tenant_id, id) {
            Some(i) => i,
            None => {
                return Err(PlatformError::NotFound(cat("object storage config ", id)));
            },
        };
        let was_default = self.storages[at].is_default != 0;
        let k = |r: &ObjectStorageRow| -> (b: bool)
            ensures
                b == not_storage_key(tenant_id@, id@)(r@),
            { !(same(r.tenant_id.as_str(), tenant_id) && same(r.id.as_str(), id)) };
        keep_where(&mut self.storages, k, Ghost(not_storage_key(tenant_id@, id@)));
        if was_default {
            let f = |r: &ObjectStorageRow| -> (b: bool)
                ensures
                    b == storages_of(tenant_id@)(r@),
                { same(r.tenant_id.as_str(), tenant_id) };
            let l = |a: &ObjectStorageRow, b: &ObjectStorageRow| -> (c: bool)
                ensures
                    c == default_first()(a@, b@),
                {
                    if a.is_default != b.is_default {
                        a.is_default > b.is_default
                    } else {
                        le_text(a.config_key.as_str(), b.config_key.as_str())
                    }
                };
            if let Some(i) = least_where(
                &self.storages,
                f,
                l,
                Ghost(storages_of(tenant_id@)),
                Ghost(default_first()),
            ) {
                let next = self.storages[i].id.clone();
                self.mark_default(tenant_id, next.as_str(), now);
            }
        }
        Ok(())
    }

    /// Makes a registration the group's default.
    pub fn set_default_object_storage_config(&mut self, tenant_id: &str, id: &str, now: i64) -> (r:
        Result<ObjectStorageConfigDto, PlatformError>)
        ensures
            match first(old(self)@.storages, storage_key(tenant_id@, id@)) {
                None => {
                    &&& final(self)@ == old(self)@
                    &&& r matches Err(e) && e@ == missing(id@)
                },
                Some(row) => {
                    &&& final(self)@ == (PlatformState {
                        storages: others_cleared(
                            made_default(old(self)@.storages, tenant_id@, id@, now),
                            tenant_id@,
                            id@,
                        ),
                        ..old(self)@
                    })
                    &&& r matches Ok(d) && d@ == storage_dto(
                        ObjectStorageRowView { is_default: 1, updated_at: now, ..row },
                    )
                },
            },
    {
        let at: usize = match self.storage_at(tenant_id, id) {
            Some(i) => i,
            None => {
                return Err(PlatformError::NotFound(cat("object storage config ", id)));
            },
        };
        let mut row = self.storages[at].copy();
        row.is_default = 1;
        row.updated_at = now;
        self.mark_default(tenant_id, id, now);
        self.clear_other_defaults(tenant_id, id);
        Ok(ObjectStorageConfigDto::of(&row))
    }

    /// The stored secret of a registration, encrypted.
    pub fn storage_secret(&self, tenant_id: &str, id: &str) -> (r: Result<
        Option<String>,
        PlatformError,
    >)
        ensures
            match first(self@.storages, storage_key(tenant_id@, id@)) {
                None => r matches Err(e) && e@ == missing(id@),
                Some(row) => r matches Ok(s) && opt_text(s) == row.secret_access_key_encrypted,
            },
    {
        match self.storage_at(tenant_id, id) {
            Some(i) => Ok(clone_opt(&self.storages[i].secret_access_key_encrypted)),
            None => Err(PlatformError::NotFound(cat("object storage config ", id))),
        }
    }

    /// What reaches a registered storage: the driver, its settings with the decrypted secret, and
    /// the prefix that the registration pins.
    pub fn driver_for_config(&self, tenant_id: &str, id: &str, secret: Option<&str>) -> (r: Result<
        (DriverKind, DriverConfig, String),
        PlatformError,
    >)
        ensures
            match driver_plan(self@, tenant_id@, id@, opt_str(secret)) {
                Ok(plan) => r matches Ok(v) && (v.0 == DriverKind::S3 <==> plan.protocol == "s3"@)
                    && v.1@ == plan.config && v.2@ == plan.base,
                Err(why) => r matches Err(e) && e@ == why,
            },
    {
        let at: usize = match self.storage_at(tenant_id, id) {
            Some(i) => i,
            None => {
                return Err(PlatformError::NotFound(cat("object storage config ", id)));
            },
        };
        let row = &self.storages[at];
        let key_id = match &row.access_key_id {
            Some(k) => k.clone(),
            None => {
                return Err(
                    bad_request("this storage config has no access key and secret configured"),
                );
            },
        };
        let secret = match secret {
            Some(s) => s.to_owned(),
            None => {
                return Err(
                    bad_request("this storage config has no access key and secret configured"),
                );
            },
        };
        let kind = match driver_for(row.protocol.as_str()) {
            Ok(kind) => kind,
            Err(e) => {
                return Err(e);
            },
        };
        let base = match &row.prefix {
            Some(p) => p.clone(),
            None => String::new(),
        };
        let cfg = DriverConfig {
            endpoint: row.endpoint.clone(),
            bucket: row.bucket.clone(),
            region: row.region.clone(),
            access_key_id: key_id,
            secret_access_key: secret,
            force_path_style: row.force_path_style != 0,
        };
        Ok((kind, cfg, base))
    }

    /// How a registered storage is probed. A registration that cannot be used is an answer, not an
    /// error.
    pub fn probe_object_storage(
        &self,
        tenant_id: &str,
        id: &str,
        secret: Option<&str>,
    ) -> (r: Result<
        StorageStep,
        PlatformError,
    >)
        ensures
            match driver_plan(self@, tenant_id@, id@, opt_str(secret)) {
                Ok(plan) => r matches Ok(StorageStep::Ask(kind, cfg)) && (kind == DriverKind::S3
                    <==> plan.protocol == "s3"@) && cfg@ == plan.config,
                Err(PlatformErrorView::BadRequest(m)) => r matches Ok(StorageStep::Done(d)) && d@
                    == (StorageProbeDtoView { ok: false, message: m }),
                Err(why) => r matches Err(e) && e@ == why,
            },
    {
        match self.driver_for_config(tenant_id, id, secret) {
            Ok((kind, cfg, _)) => Ok(StorageStep::Ask(kind, cfg)),
            Err(PlatformError::BadRequest(message)) => Ok(
                StorageStep::Done(StorageProbeDto { ok: false, message }),
            ),
            Err(e) => Err(e),
        }
    }

    /// What to list of a registered storage: the prefix that the registration pins, followed by the
    /// one that was asked for.
    pub fn list_object_storage_entries(
        &self,
        tenant_id: &str,
        id: &str,
        secret: Option<&str>,
        sub_prefix: Option<&str>,
    ) -> (r: Result<(DriverKind, DriverConfig, String), PlatformError>)
        ensures
            match driver_plan(self@, tenant_id@, id@, opt_str(secret)) {
                Err(why) => r matches Err(e) && e@ == why,
                Ok(plan) => if opt_str(sub_prefix) matches Some(s) && traverses(s) {
                    r matches Err(e) && e@ == traversal_error()
                } else {
                    r matches Ok(v) && (v.0 == DriverKind::S3 <==> plan.protocol == "s3"@) && v.1@
                        == plan.config && v.2@ == listed_prefix(plan.base, opt_str(sub_prefix))
                },
            },
    {
        let (kind, cfg, base) = match self.driver_for_config(tenant_id, id, secret) {
            Ok(v) => v,
            Err(e) => {
                return Err(e);
            },
        };
        let sub = match sub_prefix {
            Some(raw) => {
                if let Err(e) = reject_traversal(raw) {
                    return Err(e);
                }
                normalize_prefix(raw)
            },
            None => String::new(),
        };
        let prefix = cat(base.as_str(), sub.as_str());
        Ok((kind, cfg, prefix))
    }
}

/// The registrations with one of them changed.
pub open spec fn storage_changed(
    rows: Seq<ObjectStorageRowView>,
    tenant_id: Seq<char>,
    id: Seq<char>,
    current: ObjectStorageRowView,
    input: ObjectStorageConfigInputView,
    sealed: Seq<char>,
    now: i64,
) -> Seq<ObjectStorageRowView> {
    rows.map_values(
        |r: ObjectStorageRowView|
            if storage_key(tenant_id, id)(r) {
                changed_storage(r, current, input, sealed, now)
            } else {
                r
            },
    )
}

/// What a probe of a storage does next.
pub enum StorageStep {
    /// The answer is known.
    Done(StorageProbeDto),
    /// The driver decides.
    Ask(DriverKind, DriverConfig),
}

/// What reaches a storage.
pub struct DriverPlan {
    pub protocol: Seq<char>,
    pub config: DriverConfigView,
    pub base: Seq<char>,
}

/// What reaches a registered storage, or why nothing does.
pub open spec fn driver_plan(
    st: PlatformState,
    tenant_id: Seq<char>,
    id: Seq<char>,
    secret: Option<Seq<char>>,
) -> Result<DriverPlan, PlatformErrorView> {
    match first(st.storages, storage_key(tenant_id, id)) {
        None => Err(missing(id)),
        Some(row) => if row.access_key_id is None || secret is None {
            Err(
                PlatformErrorView::BadRequest(
                    "this storage config has no access key and secret configured"@,
                ),
            )
        } else if !known_protocol(row.protocol) {
            Err(PlatformErrorView::BadRequest("unsupported storage protocol "@ + row.protocol))
        } else {
            Ok(
                DriverPlan {
                    protocol: row.protocol,
                    config: DriverConfigView {
                        endpoint: row.endpoint,
                        bucket: row.bucket,
                        region: row.region,
                        access_key_id: row.access_key_id->0,
                        secret_access_key: secret->0,
                        force_path_style: row.force_path_style != 0,
                    },
                    base: match row.prefix {
                        Some(p) => p,
                        None => Seq::empty(),
                    },
                },
            )
        },
    }
}

/// The prefix that is listed: the pinned one and, after it, the one that was asked for.
pub open spec fn listed_prefix(base: Seq<char>, sub: Option<Seq<char>>) -> Seq<char> {
    match sub {
        Some(s) => base + prefix_shape(s),
        None => base + Seq::empty(),
    }
}

/// Browsing never leaves the prefix that a registration pins, whatever is asked for.
pub proof fn listing_stays_under_prefix(base: Seq<char>, sub: Option<Seq<char>>)
    ensures
        begins_with(listed_prefix(base, sub), base),
{
    let all = listed_prefix(base, sub);
    assert(all.take(base.len() as int) =~= base);
}

/// What an answer to a probe says. A refusal is an answer, not an error.
pub fn probe_answer(reply: Result<String, PlatformError>) -> (r: Result<
    StorageProbeDto,
    PlatformError,
>)
    ensures
        answer(r) == probe_told(answer(reply)),
        reply matches Err(e) ==> !(e is BadRequest) ==> r == Err::<StorageProbeDto, PlatformError>(
            e,
        ),
{
    match reply {
        Ok(message) => Ok(StorageProbeDto { ok: true, message }),
        Err(PlatformError::BadRequest(message)) => Ok(StorageProbeDto { ok: false, message }),
        Err(e) => Err(e),
    }
}

pub open spec fn shown_entry(e: DriverEntryView) -> ObjectEntryDtoView {
    ObjectEntryDtoView {
        key: e.key,
        name: e.name,
        is_prefix: e.is_prefix,
        size_bytes: e.size_bytes,
        last_modified: e.last_modified,
    }
}

/// A driver's listing as shown.
pub fn show_listing(prefix: &str, listing: &DriverListing) -> (r: ObjectListingDto)
    ensures
        r@ == shown_listing(prefix@, listing@),
{
    let ghost all = listing@.entries.map_values(|e: DriverEntryView| shown_entry(e));
    let mut entries: Vec<ObjectEntryDto> = Vec::new();
    let mut i: usize = 0;
    while i < listing.entries.len()
        invariant
            all == listing@.entries.map_values(|e: DriverEntryView| shown_entry(e)),
            i <= listing.entries.len(),
            views(entries@) =~= all.take(i as int),
        decreases listing.entries.len() - i,
    {
        let e = &listing.entries[i];
        let ghost before = views(entries@);
        let one = ObjectEntryDto {
            key: e.key.clone(),
            name: e.name.clone(),
            is_prefix: e.is_prefix,
            size_bytes: e.size_bytes,
            last_modified: e.last_modified,
        };
        entries.push(one);
        proof {
            assert(views(entries@) =~= before.push(one@));
        }
        i = i + 1;
    }
    proof {
        assert(all.take(i as int) =~= all);
    }
    ObjectListingDto {
        entries,
        prefix: prefix.to_owned(),
        next_token: clone_opt(&listing.next_token),
    }
}

} // verus!
