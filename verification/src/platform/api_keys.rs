//! Keys that outside programs authenticate with.
use crate::ids::lower_hex;
use crate::json::{render_texts, texts_json};
use crate::platform::error::{bad_request, not_found, PlatformError, PlatformErrorView};
use crate::platform::models::{
    ApiKeyDto, ApiKeyDtoView, ApiKeyRow, ApiKeyRowView, NewApiKeyDto, NewApiKeyDtoView,
};
use crate::platform::scenes::{json_list, read_json_list};
use crate::platform::service::{PlatformService, PlatformState};
use crate::table::{
    answer, any, count_where, done, find_where, first, lemma_first, list_where, lists, map_rows,
    views,
};
use crate::text::{
    begins_with, cat, same, slice_text, starts_with, texts, to_chars, trim, trimmed_text,
};
use vstd::prelude::*;
use vstd::string::*;
use vstd::utf8::encode_utf8;

verus! {

/// What every key begins with.
pub const API_KEY_TOKEN_PREFIX: &'static str = "sk_live_";

/// How many characters of a key are kept to tell keys apart by.
pub const API_KEY_PREFIX_LEN: usize = 12;

/// The SHA-256 digest of bytes in lower-case hexadecimal digits.
pub uninterp spec fn sha256_hex(bytes: Seq<u8>) -> Seq<char>;

/// `sha2::Sha256::digest`, written in hexadecimal: it depends on the bytes alone and has 64
/// lower-case digits.
#[verifier::external_body]
pub(crate) fn sha256_text(bytes: &[u8]) -> (r: String)
    ensures
        r@ == sha256_hex(bytes@),
        r@.len() == 64,
        forall|i: int| 0 <= i < 64 ==> lower_hex(#[trigger] r@[i]),
{
    format!("{:x}", <sha2::Sha256 as sha2::Digest>::digest(bytes))
}

/// What a presented key leads to.
#[derive(Debug, Clone, PartialEq, Eq)]
pub enum ApiKeyAuthOutcome {
    /// No active key is this one.
    Invalid,
    /// The key is not for this path.
    PathNotAllowed,
    /// The key stands for this user.
    Authenticated { user_id: String },
}

/// [`ApiKeyAuthOutcome`] as plain values.
pub enum AuthOutcomeView {
    Invalid,
    PathNotAllowed,
    Authenticated { user_id: Seq<char> },
}

impl View for ApiKeyAuthOutcome {
    type V = AuthOutcomeView;

    open spec fn view(&self) -> AuthOutcomeView {
        match *self {
            ApiKeyAuthOutcome::Invalid => AuthOutcomeView::Invalid,
            ApiKeyAuthOutcome::PathNotAllowed => AuthOutcomeView::PathNotAllowed,
            ApiKeyAuthOutcome::Authenticated { user_id } => AuthOutcomeView::Authenticated {
                user_id: user_id@,
            },
        }
    }
}

/// Whether a pattern covers a path: a pattern that ends in a star covers what begins with the
/// rest of it, any other only itself.
pub open spec fn pattern_covers(pattern: Seq<char>, path: Seq<char>) -> bool {
    if pattern.len() > 0 && pattern.last() == '*' {
        begins_with(path, pattern.drop_last())
    } else {
        path == pattern
    }
}

/// Whether one of the patterns covers a path. No patterns cover nothing.
pub open spec fn path_allowed(path: Seq<char>, patterns: Seq<Seq<char>>) -> bool {
    exists|i: int| 0 <= i < patterns.len() && pattern_covers(#[trigger] patterns[i], path)
}

pub fn api_key_path_allowed(request_path: &str, allowed_paths: &Vec<String>) -> (r: bool)
    ensures
        r == path_allowed(request_path@, texts(allowed_paths@)),
{
    let mut i: usize = 0;
    while i < allowed_paths.len()
        invariant
            i <= allowed_paths.len(),
            forall|j: int|
                0 <= j < i ==> !pattern_covers(
                    #[trigger] texts(allowed_paths@)[j],
                    request_path@,
                ),
        decreases allowed_paths.len() - i,
    {
        let pattern = allowed_paths[i].as_str();
        proof {
            assert(texts(allowed_paths@)[i as int] == pattern@);
        }
        let chars = to_chars(pattern);
        let n = chars.len();
        let hit = if n > 0 && chars[n - 1] == '*' {
            let prefix = slice_text(&chars, 0, n - 1);
            proof {
                assert(prefix@ =~= pattern@.drop_last());
            }
            starts_with(request_path, prefix.as_str())
        } else {
            same(request_path, pattern)
        };
        if hit {
            return true;
        }
        i = i + 1;
    }
    false
}

/// An active key with this hash.
pub open spec fn active_key(hash: Seq<char>) -> spec_fn(ApiKeyRowView) -> bool {
    |r: ApiKeyRowView| r.key_hash == hash && r.status == "active"@
}

pub open spec fn key_of(tenant_id: Seq<char>, id: Seq<char>) -> spec_fn(ApiKeyRowView) -> bool {
    |r: ApiKeyRowView| r.tenant_id == tenant_id && r.id == id
}

pub open spec fn keys_of(tenant_id: Seq<char>) -> spec_fn(ApiKeyRowView) -> bool {
    |r: ApiKeyRowView| r.tenant_id == tenant_id
}

/// An active key that the user made.
pub open spec fn active_key_by(user_id: Seq<char>) -> spec_fn(ApiKeyRowView) -> bool {
    |r: ApiKeyRowView| r.created_by == user_id && r.status == "active"@
}

pub open spec fn newest_key_first() -> spec_fn(ApiKeyRowView, ApiKeyRowView) -> bool {
    |a: ApiKeyRowView, b: ApiKeyRowView| a.created_at >= b.created_at
}

pub open spec fn key_dto(r: ApiKeyRowView) -> ApiKeyDtoView {
    ApiKeyDtoView {
        id: r.id,
        name: r.name,
        key_prefix: r.key_prefix,
        allowed_paths: json_list(r.allowed_paths),
        rate_limit_per_minute: r.rate_limit_per_minute,
        status: r.status,
        created_by: r.created_by,
        created_at: r.created_at,
        revoked_at: r.revoked_at,
        last_used_at: r.last_used_at,
    }
}

/// The first characters of a key.
pub open spec fn shown_part(secret: Seq<char>) -> Seq<char> {
    if secret.len() <= API_KEY_PREFIX_LEN {
        secret
    } else {
        secret.take(API_KEY_PREFIX_LEN as int)
    }
}

/// What a key with this hash leads to at a path.
pub open spec fn auth_outcome(
    st: PlatformState,
    hash: Seq<char>,
    path: Seq<char>,
) -> AuthOutcomeView {
    match first(st.api_keys, active_key(hash)) {
        None => AuthOutcomeView::Invalid,
        Some(k) => if path_allowed(path, json_list(k.allowed_paths)) {
            AuthOutcomeView::Authenticated { user_id: k.created_by }
        } else {
            AuthOutcomeView::PathNotAllowed
        },
    }
}

/// The keys with the last use of one noted.
pub open spec fn used(keys: Seq<ApiKeyRowView>, id: Seq<char>, now: i64) -> Seq<ApiKeyRowView> {
    keys.map_values(
        |r: ApiKeyRowView|
            if r.id == id {
                ApiKeyRowView { last_used_at: Some(now), ..r }
            } else {
                r
            },
    )
}

/// The state after a key with this hash was presented at a path: where it authenticates, its last
/// use is noted.
pub open spec fn after_auth(
    st: PlatformState,
    hash: Seq<char>,
    path: Seq<char>,
    now: i64,
) -> PlatformState {
    match auth_outcome(st, hash, path) {
        AuthOutcomeView::Authenticated { user_id } => PlatformState {
            api_keys: used(st.api_keys, first(st.api_keys, active_key(hash))->0.id, now),
            ..st
        },
        _ => st,
    }
}

/// The keys with those that satisfy the predicate revoked.
pub open spec fn revoked_where(
    keys: Seq<ApiKeyRowView>,
    p: spec_fn(ApiKeyRowView) -> bool,
    now: i64,
) -> Seq<ApiKeyRowView> {
    keys.map_values(
        |r: ApiKeyRowView|
            if p(r) {
                ApiKeyRowView { status: "revoked"@, revoked_at: Some(now), ..r }
            } else {
                r
            },
    )
}

/// What making a key does and how it is answered: the key as shown, and the secret, once.
pub open spec fn key_made(
    before: PlatformState,
    after: PlatformState,
    id: Seq<char>,
    random: Seq<char>,
    tenant_id: Seq<char>,
    name: Seq<char>,
    allowed_paths: Seq<Seq<char>>,
    rate_limit_per_minute: Option<i64>,
    created_by: Seq<char>,
    now: i64,
    r: Result<NewApiKeyDtoView, PlatformErrorView>,
) -> bool {
    if trimmed_text(name).len() == 0 {
        &&& after == before
        &&& r == Err::<NewApiKeyDtoView, PlatformErrorView>(
            PlatformErrorView::BadRequest("API key name must not be empty"@),
        )
    } else {
        let secret = API_KEY_TOKEN_PREFIX@ + random;
        let row = ApiKeyRowView {
            id,
            tenant_id,
            name: trimmed_text(name),
            key_prefix: shown_part(secret),
            key_hash: sha256_hex(encode_utf8(secret)),
            allowed_paths: texts_json(allowed_paths),
            rate_limit_per_minute,
            status: "active"@,
            created_by,
            created_at: now,
            revoked_at: None,
            last_used_at: None,
        };
        &&& after == (PlatformState { api_keys: before.api_keys.push(row), ..before })
        &&& json_list(row.allowed_paths) == allowed_paths
        &&& r == Ok::<NewApiKeyDtoView, PlatformErrorView>(
            NewApiKeyDtoView { key: key_dto(row), secret },
        )
    }
}

/// What showing a secret at a path does and how it is answered.
pub open spec fn secret_shown(
    before: PlatformState,
    after: PlatformState,
    secret: Seq<char>,
    path: Seq<char>,
    now: i64,
    r: AuthOutcomeView,
) -> bool {
    let hash = sha256_hex(encode_utf8(secret));
    r == auth_outcome(before, hash, path) && after == after_auth(before, hash, path, now)
}

/// The keys of a group as listed, newest first.
pub open spec fn keys_shown(
    st: PlatformState,
    tenant_id: Seq<char>,
    out: Seq<ApiKeyDtoView>,
) -> bool {
    lists(
        out,
        st.api_keys,
        keys_of(tenant_id),
        newest_key_first(),
        |r: ApiKeyRowView| key_dto(r),
    )
}

/// What revoking the keys of a person does, and how many they were.
pub open spec fn user_keys_revoked(
    before: PlatformState,
    after: PlatformState,
    user_id: Seq<char>,
    now: i64,
    n: u64,
) -> bool {
    &&& n == before.api_keys.filter(active_key_by(user_id)).len() as u64
    &&& after == (PlatformState {
        api_keys: revoked_where(before.api_keys, active_key_by(user_id), now),
        ..before
    })
}

/// What revoking a key does and how it is answered.
pub open spec fn key_revoked(
    before: PlatformState,
    after: PlatformState,
    tenant_id: Seq<char>,
    id: Seq<char>,
    now: i64,
    r: Result<(), PlatformErrorView>,
) -> bool {
    match first(before.api_keys, key_of(tenant_id, id)) {
        None => {
            &&& after == before
            &&& r == Err::<(), PlatformErrorView>(PlatformErrorView::NotFound("API key not found"@))
        },
        Some(k) => r is Ok && after == if k.status == "revoked"@ {
            before
        } else {
            PlatformState {
                api_keys: revoked_where(before.api_keys, key_of(tenant_id, id), now),
                ..before
            }
        },
    }
}

impl ApiKeyDto {
    pub fn of(r: &ApiKeyRow) -> (d: Self)
        ensures
            d@ == key_dto(r@),
    {
        ApiKeyDto {
            id: r.id.clone(),
            name: r.name.clone(),
            key_prefix: r.key_prefix.clone(),
            allowed_paths: read_json_list(r.allowed_paths.as_str()),
            rate_limit_per_minute: r.rate_limit_per_minute,
            status: r.status.clone(),
            created_by: r.created_by.clone(),
            created_at: r.created_at,
            revoked_at: r.revoked_at,
            last_used_at: r.last_used_at,
        }
    }
}

impl PlatformService {
    /// What is stored of a key in place of it.
    pub fn hash_api_key_secret(secret: &str) -> (r: String)
        ensures
            r@ == sha256_hex(encode_utf8(secret@)),
            r@.len() == 64,
    {
        sha256_text(secret.as_bytes())
    }

    /// Makes a key under the given identifier out of the given random characters. Of the secret
    /// only a hash and the beginning are stored.
    pub fn create_api_key(
        &mut self,
        id: String,
        random: &str,
        tenant_id: &str,
        name: &str,
        allowed_paths: &Vec<String>,
        rate_limit_per_minute: Option<i64>,
        created_by: &str,
        now: i64,
    ) -> (r: Result<NewApiKeyDto, PlatformError>)
        ensures
            key_made(
                old(self)@,
                final(self)@,
                id@,
                random@,
                tenant_id@,
                name@,
                texts(allowed_paths@),
                rate_limit_per_minute,
                created_by@,
                now,
                answer(r),
            ),
    {
        let name = trim(name);
        if name.as_str().is_empty() {
            return Err(bad_request("API key name must not be empty"));
        }
        let secret = cat(API_KEY_TOKEN_PREFIX, random);
        let chars = to_chars(secret.as_str());
        let shown: usize = if chars.len() <= API_KEY_PREFIX_LEN {
            chars.len()
        } else {
            API_KEY_PREFIX_LEN
        };
        let key_prefix = slice_text(&chars, 0, shown);
        proof {
            assert(key_prefix@ =~= shown_part(secret@));
        }
        let row = ApiKeyRow {
            id,
            tenant_id: tenant_id.to_owned(),
            name,
            key_prefix,
            key_hash: PlatformService::hash_api_key_secret(secret.as_str()),
            allowed_paths: render_texts(allowed_paths),
            rate_limit_per_minute,
            status: "active".to_owned(),
            created_by: created_by.to_owned(),
            created_at: now,
            revoked_at: None,
            last_used_at: None,
        };
        let key = ApiKeyDto::of(&row);
        let ghost before = self@.api_keys;
        self.api_keys.push(row);
        proof {
            assert(self@.api_keys =~= before.push(row@));
        }
        Ok(NewApiKeyDto { key, secret })
    }

    /// Says what a key with this hash leads to at a path, and notes its use.
    pub fn authenticate_hash(&mut self, key_hash: &str, request_path: &str, now: i64) -> (r:
        ApiKeyAuthOutcome)
        ensures
            r@ == auth_outcome(old(self)@, key_hash@, request_path@),
            final(self)@ == after_auth(old(self)@, key_hash@, request_path@, now),
    {
        let f = |r: &ApiKeyRow| -> (b: bool)
            ensures
                b == active_key(key_hash@)(r@),
            { same(r.key_hash.as_str(), key_hash) && same(r.status.as_str(), "active") };
        let at: usize = match find_where(&self.api_keys, f, Ghost(active_key(key_hash@))) {
            Some(i) => i,
            None => {
                return ApiKeyAuthOutcome::Invalid;
            },
        };
        let patterns = read_json_list(self.api_keys[at].allowed_paths.as_str());
        if !api_key_path_allowed(request_path, &patterns) {
            return ApiKeyAuthOutcome::PathNotAllowed;
        }
        let user_id = self.api_keys[at].created_by.clone();
        let id = self.api_keys[at].id.clone();
        let ghost g = |r: ApiKeyRowView|
            if r.id == id@ {
                ApiKeyRowView { last_used_at: Some(now), ..r }
            } else {
                r
            };
        let u = |r: &ApiKeyRow| -> (y: ApiKeyRow)
            ensures
                y@ == g(r@),
            {
                let mut y = r.copy();
                if same(r.id.as_str(), id.as_str()) {
                    y.last_used_at = Some(now);
                }
                y
            };
        map_rows(&mut self.api_keys, u, Ghost(g));
        proof {
            assert(self@.api_keys =~= used(old(self)@.api_keys, id@, now));
        }
        ApiKeyAuthOutcome::Authenticated { user_id }
    }

    /// Says what a presented key leads to at a path, and notes its use. A key stands for the user
    /// who made it, whatever the group.
    pub fn authenticate_api_key(&mut self, secret: &str, request_path: &str, now: i64) -> (r:
        ApiKeyAuthOutcome)
        ensures
            secret_shown(old(self)@, final(self)@, secret@, request_path@, now, r@),
    {
        let key_hash = PlatformService::hash_api_key_secret(secret);
        self.authenticate_hash(key_hash.as_str(), request_path, now)
    }

    /// The keys of a group, newest first.
    pub fn list_api_keys(&self, tenant_id: &str) -> (out: Vec<ApiKeyDto>)
        ensures
            keys_shown(self@, tenant_id@, views(out@)),
    {
        let f = |r: &ApiKeyRow| -> (b: bool)
            ensures
                b == keys_of(tenant_id@)(r@),
            { same(r.tenant_id.as_str(), tenant_id) };
        let l = |a: &ApiKeyRow, b: &ApiKeyRow| -> (c: bool)
            ensures
                c == newest_key_first()(a@, b@),
            { a.created_at >= b.created_at };
        let mk = |r: &ApiKeyRow| -> (d: ApiKeyDto)
            ensures
                d@ == key_dto(r@),
            { ApiKeyDto::of(r) };
        list_where(
            &self.api_keys,
            f,
            l,
            mk,
            Ghost(keys_of(tenant_id@)),
            Ghost(newest_key_first()),
            Ghost(|r: ApiKeyRowView| key_dto(r)),
        )
    }

    /// Revokes every active key that a user made, whatever the group. The result is how many.
    pub fn revoke_api_keys_for_user(&mut self, user_id: &str, now: i64) -> (n: u64)
        ensures
            user_keys_revoked(old(self)@, final(self)@, user_id@, now, n),
    {
        let f = |r: &ApiKeyRow| -> (b: bool)
            ensures
                b == active_key_by(user_id@)(r@),
            { same(r.created_by.as_str(), user_id) && same(r.status.as_str(), "active") };
        let n = count_where(&self.api_keys, f, Ghost(active_key_by(user_id@)));
        let ghost p = active_key_by(user_id@);
        let ghost g = |r: ApiKeyRowView|
            if p(r) {
                ApiKeyRowView { status: "revoked"@, revoked_at: Some(now), ..r }
            } else {
                r
            };
        let u = |r: &ApiKeyRow| -> (y: ApiKeyRow)
            ensures
                y@ == g(r@),
            {
                let mut y = r.copy();
                if same(r.created_by.as_str(), user_id) && same(r.status.as_str(), "active") {
                    y.status = "revoked".to_owned();
                    y.revoked_at = Some(now);
                }
                y
            };
        map_rows(&mut self.api_keys, u, Ghost(g));
        proof {
            assert(self@.api_keys =~= revoked_where(old(self)@.api_keys, p, now));
        }
        n as u64
    }

    /// Revokes a key of a group. A key that is revoked stays as it is.
    pub fn revoke_api_key(&mut self, tenant_id: &str, id: &str, now: i64) -> (r: Result<
        (),
        PlatformError,
    >)
        ensures
            key_revoked(old(self)@, final(self)@, tenant_id@, id@, now, done(r)),
    {
        let f = |r: &ApiKeyRow| -> (b: bool)
            ensures
                b == key_of(tenant_id@, id@)(r@),
            { same(r.tenant_id.as_str(), tenant_id) && same(r.id.as_str(), id) };
        let at: usize = match find_where(&self.api_keys, f, Ghost(key_of(tenant_id@, id@))) {
            Some(i) => i,
            None => {
                return Err(not_found("API key not found"));
            },
        };
        if same(self.api_keys[at].status.as_str(), "revoked") {
            return Ok(());
        }
        let ghost p = key_of(tenant_id@, id@);
        let ghost g = |r: ApiKeyRowView|
            if p(r) {
                ApiKeyRowView { status: "revoked"@, revoked_at: Some(now), ..r }
            } else {
                r
            };
        let u = |r: &ApiKeyRow| -> (y: ApiKeyRow)
            ensures
                y@ == g(r@),
            {
                let mut y = r.copy();
                if same(r.tenant_id.as_str(), tenant_id) && same(r.id.as_str(), id) {
                    y.status = "revoked".to_owned();
                    y.revoked_at = Some(now);
                }
                y
            };
        map_rows(&mut self.api_keys, u, Ghost(g));
        proof {
            assert(self@.api_keys =~= revoked_where(old(self)@.api_keys, p, now));
        }
        Ok(())
    }
}

/// A key without paths authorizes nothing.
pub proof fn no_paths_authorize_nothing(path: Seq<char>)
    ensures
        !path_allowed(path, Seq::empty()),
{
}

/// Once every key with a hash is revoked, it does not authenticate at any path.
pub proof fn revoked_never_authenticates(
    st: PlatformState,
    hash: Seq<char>,
    path: Seq<char>,
    p: spec_fn(ApiKeyRowView) -> bool,
    now: i64,
)
    requires
        forall|i: int|
            0 <= i < st.api_keys.len() && active_key(hash)(#[trigger] st.api_keys[i]) ==> p(
                st.api_keys[i],
            ),
    ensures
        auth_outcome(
            PlatformState { api_keys: revoked_where(st.api_keys, p, now), ..st },
            hash,
            path,
        ) is Invalid,
{
    let after = revoked_where(st.api_keys, p, now);
    lemma_first(after, active_key(hash));
    if any(after, active_key(hash)) {
        let i = choose|i: int| 0 <= i < after.len() && active_key(hash)(#[trigger] after[i]);
        reveal_strlit("active");
        reveal_strlit("revoked");
        assert("active"@.len() != "revoked"@.len());
        assert(active_key(hash)(st.api_keys[i]));
    }
}

/// A user whose keys were all revoked has no active key left in any group.
pub proof fn departed_user_has_no_active_key(st: PlatformState, user_id: Seq<char>, now: i64)
    ensures
        !any(
            revoked_where(st.api_keys, active_key_by(user_id), now),
            active_key_by(user_id),
        ),
{
    let after = revoked_where(st.api_keys, active_key_by(user_id), now);
    if any(after, active_key_by(user_id)) {
        let i = choose|i: int| 0 <= i < after.len() && active_key_by(user_id)(#[trigger] after[i]);
        reveal_strlit("active");
        reveal_strlit("revoked");
        assert("active"@.len() != "revoked"@.len());
        assert(after[i].status == "active"@);
    }
}

} // verus!
