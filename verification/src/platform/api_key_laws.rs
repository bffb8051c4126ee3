//! What keys open, and to whom.
use crate::platform::api_keys::{
    active_key, active_key_by, key_dto, key_made, key_of, key_revoked, keys_of, keys_shown,
    newest_key_first, path_allowed, pattern_covers, secret_shown, sha256_hex, user_keys_revoked,
    AuthOutcomeView,
};
use crate::platform::error::PlatformErrorView;
use crate::platform::models::{ApiKeyDtoView, ApiKeyRowView, NewApiKeyDtoView};
use crate::platform::scenes::json_list;
use crate::platform::service::PlatformState;
use crate::table::{any, first, lemma_first, lemma_found_at, listed_rows};
use crate::text::trimmed_text;
use vstd::prelude::*;
use vstd::utf8::encode_utf8;

verus! {

/// A path is allowed by a pattern that is the path itself, and by one that is its beginning with a
/// star behind.
pub proof fn pattern_opens_its_paths(
    patterns: Seq<Seq<char>>,
    i: int,
    stem: Seq<char>,
    rest: Seq<char>,
)
    requires
        0 <= i < patterns.len(),
    ensures
        patterns[i] == stem ==> path_allowed(stem, patterns),
        patterns[i] == stem.push('*') ==> path_allowed(stem + rest, patterns),
{
    if patterns[i] == stem {
        if stem.len() > 0 && stem.last() == '*' {
            assert(stem.take(stem.len() - 1) =~= stem.drop_last());
        }
        assert(pattern_covers(patterns[i], stem));
    }
    if patterns[i] == stem.push('*') {
        assert(patterns[i].drop_last() =~= stem);
        assert((stem + rest).take(stem.len() as int) =~= stem);
        assert(pattern_covers(patterns[i], stem + rest));
    }
}

/// A path that is allowed is one of the patterns, or begins with what stands before the star of
/// one.
pub proof fn only_patterns_open_paths(patterns: Seq<Seq<char>>, path: Seq<char>) -> (i: int)
    requires
        path_allowed(path, patterns),
    ensures
        0 <= i < patterns.len(),
        patterns[i] == path || (patterns[i].len() > 0 && patterns[i].last() == '*'
            && patterns[i].len() - 1 <= path.len() && forall|k: int|
            0 <= k < patterns[i].len() - 1 ==> path[k] == #[trigger] patterns[i][k]),
{
    let i = choose|i: int| 0 <= i < patterns.len() && pattern_covers(#[trigger] patterns[i], path);
    let pattern = patterns[i];
    if pattern.len() > 0 && pattern.last() == '*' {
        let stem = pattern.drop_last();
        assert forall|k: int| 0 <= k < pattern.len() - 1 implies path[k] == #[trigger] pattern[k] by {
            assert(path.take(stem.len() as int)[k] == stem[k]);
        }
    }
    i
}

/// A key is made under the name given, for the group and the paths given; its secret is the mark
/// of keys and the random text, is not on record, and only its first twelve characters are shown.
pub proof fn key_is_made_as_asked(
    before: PlatformState,
    after: PlatformState,
    id: Seq<char>,
    random: Seq<char>,
    tenant_id: Seq<char>,
    name: Seq<char>,
    allowed_paths: Seq<Seq<char>>,
    rate_limit_per_minute: Option<i64>,
    created_by: Seq<char>,
    now: i64,
    r: Result<NewApiKeyDtoView, PlatformErrorView>,
)
    requires
        key_made(
            before,
            after,
            id,
            random,
            tenant_id,
            name,
            allowed_paths,
            rate_limit_per_minute,
            created_by,
            now,
            r,
        ),
    ensures
        r is Ok <==> trimmed_text(name).len() > 0,
        r is Err ==> after == before && r->Err_0 is BadRequest,
        after == (PlatformState { api_keys: after.api_keys, ..before }),
        r matches Ok(made) ==> {
            let row = after.api_keys.last();
            &&& after.api_keys.len() == before.api_keys.len() + 1
            &&& after.api_keys.drop_last() == before.api_keys
            &&& made.secret == "sk_live_"@ + random
            &&& row.key_hash == sha256_hex(encode_utf8(made.secret))
            &&& row.tenant_id == tenant_id
            &&& row.status == "active"@
            &&& row.created_by == created_by
            &&& json_list(row.allowed_paths) == allowed_paths
            &&& row.rate_limit_per_minute == rate_limit_per_minute
            &&& row.id == id
            &&& row.revoked_at is None
            &&& made.key.id == id
            &&& made.key.name == trimmed_text(name)
            &&& made.key.allowed_paths == allowed_paths
            &&& made.key.rate_limit_per_minute == rate_limit_per_minute
            &&& made.key.status == "active"@
            &&& made.key.created_by == created_by
            &&& made.key.created_at == now
            &&& made.key.revoked_at is None
            &&& made.key.last_used_at is None
            &&& made.key.key_prefix.len() == if made.secret.len() <= 12 {
                made.secret.len()
            } else {
                12
            }
            &&& made.key.key_prefix == made.secret.take(made.key.key_prefix.len() as int)
        },
{
    if let Ok(made) = r {
        assert(after.api_keys.drop_last() =~= before.api_keys);
        assert(made.secret.take(made.secret.len() as int) =~= made.secret);
    }
}

/// The secret of a key that was just made lets its maker in at every path that the key was made
/// for and nowhere else, as long as no other active key has the same fingerprint.
pub proof fn new_key_lets_its_maker_in(
    before: PlatformState,
    made: PlatformState,
    after: PlatformState,
    id: Seq<char>,
    random: Seq<char>,
    tenant_id: Seq<char>,
    name: Seq<char>,
    allowed_paths: Seq<Seq<char>>,
    rate_limit_per_minute: Option<i64>,
    created_by: Seq<char>,
    now: i64,
    new: NewApiKeyDtoView,
    path: Seq<char>,
    later: i64,
    r: AuthOutcomeView,
)
    requires
        key_made(
            before,
            made,
            id,
            random,
            tenant_id,
            name,
            allowed_paths,
            rate_limit_per_minute,
            created_by,
            now,
            Ok(new),
        ),
        secret_shown(made, after, new.secret, path, later, r),
    ensures
        (forall|i: int|
            0 <= i < before.api_keys.len() ==> !((#[trigger] before.api_keys[i]).status
                == "active"@ && before.api_keys[i].key_hash == sha256_hex(
                encode_utf8(new.secret),
            ))) ==> r == if path_allowed(path, allowed_paths) {
            AuthOutcomeView::Authenticated { user_id: created_by }
        } else {
            AuthOutcomeView::PathNotAllowed
        },
{
    let at = before.api_keys.len() as int;
    let p = active_key(sha256_hex(encode_utf8(new.secret)));
    if forall|i: int|
        0 <= i < before.api_keys.len() ==> !((#[trigger] before.api_keys[i]).status == "active"@
            && before.api_keys[i].key_hash == sha256_hex(encode_utf8(new.secret))) {
        assert forall|i: int| 0 <= i < at implies !p(#[trigger] made.api_keys[i]) by {
            assert(made.api_keys[i] == before.api_keys[i]);
        }
        lemma_found_at(made.api_keys, p, at);
    }
}

/// A secret lets in only who made a key that is active, has its fingerprint and allows the path;
/// it is invalid exactly where no active key has its fingerprint. Nothing changes but the time at
/// which a key that let someone in was last used.
pub proof fn only_active_keys_let_in(
    before: PlatformState,
    after: PlatformState,
    secret: Seq<char>,
    path: Seq<char>,
    now: i64,
    r: AuthOutcomeView,
)
    requires
        secret_shown(before, after, secret, path, now, r),
    ensures
        r is Invalid <==> forall|i: int|
            0 <= i < before.api_keys.len() ==> !((#[trigger] before.api_keys[i]).status
                == "active"@ && before.api_keys[i].key_hash == sha256_hex(encode_utf8(secret))),
        r matches AuthOutcomeView::Authenticated { user_id } ==> exists|i: int|
            0 <= i < before.api_keys.len() && (#[trigger] before.api_keys[i]).status == "active"@
                && before.api_keys[i].key_hash == sha256_hex(encode_utf8(secret))
                && before.api_keys[i].created_by == user_id && path_allowed(
                path,
                json_list(before.api_keys[i].allowed_paths),
            ) && after.api_keys[i].last_used_at == Some(now),
        !(r is Authenticated) ==> after == before,
        after.api_keys.len() == before.api_keys.len(),
        forall|i: int|
            0 <= i < before.api_keys.len() ==> #[trigger] after.api_keys[i] == (ApiKeyRowView {
                last_used_at: after.api_keys[i].last_used_at,
                ..before.api_keys[i]
            }) && (after.api_keys[i].last_used_at == before.api_keys[i].last_used_at
                || after.api_keys[i].last_used_at == Some(now)),
        after == (PlatformState { api_keys: after.api_keys, ..before }),
{
    let p = active_key(sha256_hex(encode_utf8(secret)));
    lemma_first(before.api_keys, p);
    if !(r is Invalid) {
        let k = first(before.api_keys, p)->0;
        let i = choose|i: int| 0 <= i < before.api_keys.len() && before.api_keys[i] == k;
        assert(before.api_keys[i].status == "active"@);
        if r is Authenticated {
            assert(after.api_keys[i].last_used_at == Some(now));
        }
    } else {
        assert forall|i: int| 0 <= i < before.api_keys.len() implies !((
        #[trigger] before.api_keys[i]).status == "active"@ && before.api_keys[i].key_hash
            == sha256_hex(encode_utf8(secret))) by {
            if p(before.api_keys[i]) {
                assert(any(before.api_keys, p));
            }
        }
    }
}

/// Every key of a group is listed with what is on record of it.
pub proof fn group_sees_its_keys(
    st: PlatformState,
    tenant_id: Seq<char>,
    out: Seq<ApiKeyDtoView>,
    i: int,
) -> (k: int)
    requires
        keys_shown(st, tenant_id, out),
        0 <= i < st.api_keys.len(),
        st.api_keys[i].tenant_id == tenant_id,
    ensures
        0 <= k < out.len(),
        out[k].id == st.api_keys[i].id,
        out[k].name == st.api_keys[i].name,
        out[k].key_prefix == st.api_keys[i].key_prefix,
        out[k].allowed_paths == json_list(st.api_keys[i].allowed_paths),
        out[k].rate_limit_per_minute == st.api_keys[i].rate_limit_per_minute,
        out[k].status == st.api_keys[i].status,
        out[k].created_by == st.api_keys[i].created_by,
        out[k].created_at == st.api_keys[i].created_at,
        out[k].revoked_at == st.api_keys[i].revoked_at,
        out[k].last_used_at == st.api_keys[i].last_used_at,
{
    let g = |r: ApiKeyRowView| key_dto(r);
    let shown = listed_rows(out, st.api_keys, keys_of(tenant_id), newest_key_first(), g);
    assert(keys_of(tenant_id)(st.api_keys[i]));
    let k = choose|k: int| 0 <= k < shown.len() && shown[k] == st.api_keys[i];
    assert(out[k] == g(shown[k]));
    k
}

/// Every key in a listing is one of the group's, and the newest come first.
pub proof fn keys_are_listed_newest_first(
    st: PlatformState,
    tenant_id: Seq<char>,
    out: Seq<ApiKeyDtoView>,
    j: int,
    k: int,
) -> (i: int)
    requires
        keys_shown(st, tenant_id, out),
        0 <= j < k < out.len(),
    ensures
        out[j].created_at >= out[k].created_at,
        0 <= i < st.api_keys.len(),
        st.api_keys[i].tenant_id == tenant_id,
        st.api_keys[i].id == out[k].id,
        st.api_keys[i].name == out[k].name,
        st.api_keys[i].status == out[k].status,
        st.api_keys[i].created_by == out[k].created_by,
        out.len() == st.api_keys.filter(|r: ApiKeyRowView| r.tenant_id == tenant_id).len(),
{
    let g = |r: ApiKeyRowView| key_dto(r);
    let shown = listed_rows(out, st.api_keys, keys_of(tenant_id), newest_key_first(), g);
    assert(keys_of(tenant_id) =~= (|r: ApiKeyRowView| r.tenant_id == tenant_id));
    assert(out[j] == g(shown[j]) && out[k] == g(shown[k]));
    choose|i: int| 0 <= i < st.api_keys.len() && st.api_keys[i] == shown[k]
}

/// A key of the group that is not revoked yet is revoked from now on; one that is stays as it is.
/// A key that the group does not have is refused, and every other key is as before.
pub proof fn revocation_is_of_one_key(
    before: PlatformState,
    after: PlatformState,
    tenant_id: Seq<char>,
    id: Seq<char>,
    now: i64,
    r: Result<(), PlatformErrorView>,
)
    requires
        key_revoked(before, after, tenant_id, id, now, r),
    ensures
        r is Ok <==> exists|i: int|
            0 <= i < before.api_keys.len() && (#[trigger] before.api_keys[i]).tenant_id == tenant_id
                && before.api_keys[i].id == id,
        r is Err ==> r->Err_0 is NotFound && after == before,
        after == (PlatformState { api_keys: after.api_keys, ..before }),
        after.api_keys.len() == before.api_keys.len(),
        forall|i: int|
            0 <= i < before.api_keys.len() && !((#[trigger] before.api_keys[i]).tenant_id
                == tenant_id && before.api_keys[i].id == id) ==> after.api_keys[i]
                == before.api_keys[i],
        forall|i: int|
            0 <= i < before.api_keys.len() && (#[trigger] before.api_keys[i]).tenant_id == tenant_id
                && before.api_keys[i].id == id && (forall|j: int|
                0 <= j < before.api_keys.len() && (#[trigger] before.api_keys[j]).tenant_id
                    == tenant_id && before.api_keys[j].id == id ==> j == i)
                ==> after.api_keys[i].status == "revoked"@ && after.api_keys[i] == (ApiKeyRowView {
                status: "revoked"@,
                revoked_at: if before.api_keys[i].status == "revoked"@ {
                    before.api_keys[i].revoked_at
                } else {
                    Some(now)
                },
                ..before.api_keys[i]
            }),
{
    let p = key_of(tenant_id, id);
    lemma_first(before.api_keys, p);
    match first(before.api_keys, p) {
        None => {
            assert forall|i: int| 0 <= i < before.api_keys.len() implies !((
            #[trigger] before.api_keys[i]).tenant_id == tenant_id && before.api_keys[i].id == id) by {
                if p(before.api_keys[i]) {
                    assert(any(before.api_keys, p));
                }
            }
        },
        Some(k) => {
            let i = choose|i: int| 0 <= i < before.api_keys.len() && before.api_keys[i] == k;
            assert(before.api_keys[i].tenant_id == tenant_id);
        },
    }
}

/// Every active key that a person made is revoked from now on, as many as are counted, and every
/// other key is as before.
pub proof fn revocation_is_of_all_a_persons_keys(
    before: PlatformState,
    after: PlatformState,
    user_id: Seq<char>,
    now: i64,
    n: u64,
)
    requires
        user_keys_revoked(before, after, user_id, now, n),
    ensures
        n == before.api_keys.filter(
            |r: ApiKeyRowView| r.created_by == user_id && r.status == "active"@,
        ).len() as u64,
        after == (PlatformState { api_keys: after.api_keys, ..before }),
        after.api_keys.len() == before.api_keys.len(),
        forall|i: int|
            0 <= i < before.api_keys.len() ==> #[trigger] after.api_keys[i] == if
                before.api_keys[i].created_by == user_id && before.api_keys[i].status == "active"@ {
                ApiKeyRowView {
                    status: "revoked"@,
                    revoked_at: Some(now),
                    ..before.api_keys[i]
                }
            } else {
                before.api_keys[i]
            },
{
    assert(active_key_by(user_id) =~= (|r: ApiKeyRowView|
        r.created_by == user_id && r.status == "active"@));
}

} // verus!
