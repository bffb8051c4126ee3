//! What connectors keep, show and ask for.
use crate::http::{filled, success, with_scheme, HttpReplyView};
use crate::json::json_normal;
use crate::org::integration::{
    by_provider, integration_dto, integration_key, integration_saved, integration_tested,
    integrations_of, integrations_shown, probe_outcome, sealed_secret, shown_config,
    shown_integration, sync_address, sync_outcome, with_integration, IntegrationCredentialsView,
    ProbeStepView,
};
use crate::org::models::{IntegrationDtoView, IntegrationRowView};
use crate::org::service::OrgState;
use crate::table::{any, first, lemma_first, lemma_found_at, listed_rows};
use crate::text::{text_le, trimmed_text};
use vstd::prelude::*;

verus! {

/// What was saved of a connector is what is read of it: its address, whether it is enabled, when
/// it was saved, and the new secret where one was given, else the one that was kept.
pub proof fn saved_connector_is_read_back(
    before: OrgState,
    after: OrgState,
    tenant_id: Seq<char>,
    provider: Seq<char>,
    base_url: Option<Seq<char>>,
    config: Seq<char>,
    secret: Option<Seq<char>>,
    sealed: Seq<char>,
    enabled: bool,
    now: i64,
    d: IntegrationDtoView,
)
    requires
        integration_saved(
            before,
            after,
            tenant_id,
            provider,
            base_url,
            config,
            secret,
            sealed,
            enabled,
            now,
            d,
        ),
    ensures
        d == shown_integration(after, tenant_id, provider),
        d.provider == provider,
        d.base_url == base_url,
        d.config == shown_config(Some(config)),
        d.enabled == enabled,
        d.updated_at == Some(now),
        d.has_secret <==> sealed_secret(after, tenant_id, provider) is Some,
        sealed_secret(after, tenant_id, provider) == if secret is Some && secret->0.len() > 0 {
            Some(sealed)
        } else {
            sealed_secret(before, tenant_id, provider)
        },
        after == (OrgState { integrations: after.integrations, ..before }),
        forall|row: IntegrationRowView|
            !(row.tenant_id == tenant_id && row.provider == provider) ==> (
            #[trigger] after.integrations.contains(row) <==> before.integrations.contains(row)),
{
    let row = IntegrationRowView {
        tenant_id,
        provider,
        base_url,
        config_json: Some(config),
        secret_encrypted: if secret is Some && secret->0.len() > 0 {
            Some(sealed)
        } else {
            sealed_secret(before, tenant_id, provider)
        },
        enabled,
        updated_at: now,
    };
    let p = integration_key(tenant_id, provider);
    let rows = after.integrations;
    assert(rows == with_integration(before.integrations, row));
    lemma_first(before.integrations, p);
    lemma_first(rows, p);
    if any(before.integrations, p) {
        let i = choose|i: int|
            0 <= i < before.integrations.len() && p(#[trigger] before.integrations[i]);
        assert(p(rows[i]));
        let k = choose|k: int| 0 <= k < rows.len() && rows[k] == first(rows, p)->0;
        assert(rows[k] == row);
        assert forall|other: IntegrationRowView|
            !(other.tenant_id == tenant_id && other.provider == provider) implies (
        #[trigger] rows.contains(other) <==> before.integrations.contains(other)) by {
            if rows.contains(other) {
                let j = choose|j: int| 0 <= j < rows.len() && rows[j] == other;
                assert(before.integrations[j] == other);
            }
            if before.integrations.contains(other) {
                let j = choose|j: int|
                    0 <= j < before.integrations.len() && before.integrations[j] == other;
                assert(rows[j] == other);
            }
        }
    } else {
        let at = before.integrations.len() as int;
        assert(rows[at] == row);
        assert(p(rows[at]));
        assert forall|i: int| 0 <= i < at implies !p(#[trigger] rows[i]) by {
            assert(rows[i] == before.integrations[i]);
        }
        lemma_found_at(rows, p, at);
        assert forall|other: IntegrationRowView|
            !(other.tenant_id == tenant_id && other.provider == provider) implies (
        #[trigger] rows.contains(other) <==> before.integrations.contains(other)) by {
            if rows.contains(other) {
                let j = choose|j: int| 0 <= j < rows.len() && rows[j] == other;
                assert(before.integrations[j] == other);
            }
            if before.integrations.contains(other) {
                let j = choose|j: int|
                    0 <= j < before.integrations.len() && before.integrations[j] == other;
                assert(rows[j] == other);
            }
        }
    }
}

/// A connector that was never saved is shown empty and disabled.
pub proof fn unsaved_connector_is_off(st: OrgState, tenant_id: Seq<char>, provider: Seq<char>)
    requires
        forall|i: int|
            0 <= i < st.integrations.len() ==> !((#[trigger] st.integrations[i]).tenant_id
                == tenant_id && st.integrations[i].provider == provider),
    ensures
        ({
            let d = shown_integration(st, tenant_id, provider);
            &&& d.provider == provider
            &&& d.base_url is None
            &&& d.config == "{}"@
            &&& !d.has_secret
            &&& !d.enabled
            &&& d.updated_at is None
        }),
        sealed_secret(st, tenant_id, provider) is None,
{
    lemma_first(st.integrations, integration_key(tenant_id, provider));
}

/// Every connector of a group is listed, with whether it has a secret and not with the secret.
pub proof fn group_sees_its_connectors(
    st: OrgState,
    tenant_id: Seq<char>,
    out: Seq<IntegrationDtoView>,
    i: int,
) -> (k: int)
    requires
        integrations_shown(st, tenant_id, out),
        0 <= i < st.integrations.len(),
        st.integrations[i].tenant_id == tenant_id,
    ensures
        0 <= k < out.len(),
        out[k].provider == st.integrations[i].provider,
        out[k].base_url == st.integrations[i].base_url,
        out[k].has_secret <==> st.integrations[i].secret_encrypted is Some,
        out[k].enabled == st.integrations[i].enabled,
        out[k].updated_at == Some(st.integrations[i].updated_at),
{
    let g = |r: IntegrationRowView| integration_dto(r);
    let shown = listed_rows(out, st.integrations, integrations_of(tenant_id), by_provider(), g);
    assert(integrations_of(tenant_id)(st.integrations[i]));
    let k = choose|k: int| 0 <= k < shown.len() && shown[k] == st.integrations[i];
    assert(out[k] == g(shown[k]));
    k
}

/// The connectors of a group are listed in the order of their providers, and no others are.
pub proof fn connectors_are_listed_in_order(
    st: OrgState,
    tenant_id: Seq<char>,
    out: Seq<IntegrationDtoView>,
    j: int,
    k: int,
) -> (i: int)
    requires
        integrations_shown(st, tenant_id, out),
        0 <= j < k < out.len(),
    ensures
        text_le(out[j].provider, out[k].provider),
        0 <= i < st.integrations.len(),
        st.integrations[i].tenant_id == tenant_id,
        st.integrations[i].provider == out[k].provider,
        out.len() == st.integrations.filter(
            |r: IntegrationRowView| r.tenant_id == tenant_id,
        ).len(),
{
    let g = |r: IntegrationRowView| integration_dto(r);
    let shown = listed_rows(out, st.integrations, integrations_of(tenant_id), by_provider(), g);
    assert(integrations_of(tenant_id) =~= (|r: IntegrationRowView| r.tenant_id == tenant_id));
    assert(out[j] == g(shown[j]) && out[k] == g(shown[k]));
    choose|i: int| 0 <= i < st.integrations.len() && st.integrations[i] == shown[k]
}

/// An address keeps its scheme where it has one and gets the secure one where it has none.
pub proof fn address_gets_a_scheme(rest: Seq<char>)
    ensures
        with_scheme("http://"@ + rest) == "http://"@ + rest,
        with_scheme("https://"@ + rest) == "https://"@ + rest,
        (rest.len() > 0 && rest[0] != 'h') || rest.len() < 7 ==> with_scheme(rest) == "https://"@
            + rest,
{
    reveal_strlit("http://");
    reveal_strlit("https://");
    assert("http://"@.len() == 7 && "https://"@.len() == 8);
    assert(("http://"@ + rest).take(7) =~= "http://"@);
    assert(("https://"@ + rest).take(8) =~= "https://"@);
    if rest.len() >= 7 && rest[0] != 'h' {
        assert("http://"@[0] == 'h' && "https://"@[0] == 'h');
        assert(rest.take(7)[0] == rest[0]);
        if rest.len() >= 8 {
            assert(rest.take(8)[0] == rest[0]);
        }
    }
}

/// A blank text counts as not given; another one counts without the white space around it.
pub proof fn blank_counts_as_not_given(text: Seq<char>)
    ensures
        filled(None) is None,
        filled(Some(text)) is None <==> trimmed_text(text).len() == 0,
        filled(Some(text)) matches Some(t) ==> t == trimmed_text(text),
{
}

/// A test of a connector asks its own address with its own secret, where it is enabled and has an
/// address; otherwise nothing is asked and it counts as not configured.
pub proof fn enabled_connector_is_asked(
    st: OrgState,
    tenant_id: Seq<char>,
    provider: Seq<char>,
    secret: Option<Seq<char>>,
    at: int,
)
    requires
        0 <= at < st.integrations.len(),
        st.integrations[at].tenant_id == tenant_id,
        st.integrations[at].provider == provider,
        forall|i: int|
            0 <= i < at ==> !((#[trigger] st.integrations[i]).tenant_id == tenant_id
                && st.integrations[i].provider == provider),
    ensures
        ({
            let step = integration_tested(st, tenant_id, provider, secret);
            if st.integrations[at].enabled && filled(st.integrations[at].base_url) is Some {
                step matches ProbeStepView::Get(request) && request.url == with_scheme(
                    filled(st.integrations[at].base_url)->0,
                ) && request.bearer == filled(secret)
            } else {
                step matches ProbeStepView::Done(result) && result.status == "not_configured"@
            }
        }),
{
    lemma_found_at(st.integrations, integration_key(tenant_id, provider), at);
}

/// A connector is reached where the address answers with success, or that it wants a sign-in or
/// does not know the page; another status or a failure is an error that names the cause.
pub proof fn answers_tell_whether_it_is_reached(
    provider: Seq<char>,
    url: Seq<char>,
    code: u16,
    why: Seq<char>,
)
    ensures
        probe_outcome(provider, url, HttpReplyView::Status(code)).status == if (200 <= code && code
            <= 299) || code == 401 || code == 403 || code == 404 {
            "ok"@
        } else {
            "error"@
        },
        probe_outcome(provider, url, HttpReplyView::Failed(why)).status == "error"@,
        probe_outcome(provider, url, HttpReplyView::Failed(why)).message == "Could not reach "@ + url
            + ": "@ + why,
        probe_outcome(provider, url, HttpReplyView::NoClient(why)).status == "error"@,
        probe_outcome(provider, url, HttpReplyView::NoClient(why)).message == why,
{
}

/// Syncing asks the page of the provider below the connector's address; a provider without one, or
/// a connector without an address, is not asked.
pub proof fn sync_asks_the_providers_page(creds: IntegrationCredentialsView)
    ensures
        filled(creds.base_url) is None ==> sync_address(creds) is None,
        filled(creds.base_url) matches Some(base) ==> {
            &&& creds.provider == "github"@ ==> sync_address(creds) == Some(
                with_scheme(base) + "/user/repos?per_page=5"@,
            )
            &&& creds.provider == "gitlab"@ ==> sync_address(creds) == Some(
                with_scheme(base) + "/api/v4/projects?membership=true&per_page=5"@,
            )
            &&& creds.provider == "jira"@ ==> sync_address(creds) == Some(
                with_scheme(base) + "/rest/api/3/myself"@,
            )
            &&& creds.provider == "feishu"@ ==> sync_address(creds) == Some(
                with_scheme(base) + "/open-apis/auth/v3/tenant_access_token/internal"@,
            )
            &&& creds.provider != "github"@ && creds.provider != "gitlab"@ && creds.provider
                != "jira"@ && creds.provider != "feishu"@ ==> sync_address(creds) is None
        },
{
    reveal_strlit("github");
    reveal_strlit("gitlab");
    reveal_strlit("jira");
    reveal_strlit("feishu");
    assert("github"@.len() == 6 && "gitlab"@.len() == 6 && "jira"@.len() == 4 && "feishu"@.len()
        == 6);
    assert("github"@[3] == 'h' && "gitlab"@[3] == 'l' && "feishu"@[0] == 'f');
    assert("github"@[0] == 'g' && "gitlab"@[0] == 'g');
}

/// A sync counts one item where the page was reached and none where it was not, and keeps the
/// place it was at.
pub proof fn sync_counts_what_was_reached(
    provider: Seq<char>,
    url: Seq<char>,
    reply: HttpReplyView,
    cursor: Option<Seq<char>>,
)
    ensures
        ({
            let out = sync_outcome(provider, url, reply, cursor);
            &&& out.cursor == cursor
            &&& out.status == "ok"@ <==> (reply matches HttpReplyView::Status(code) && ((200 <= code
                && code <= 299) || code == 401 || code == 403))
            &&& out.status == "ok"@ ==> out.items_synced == 1
            &&& out.status != "ok"@ ==> out.items_synced == 0 && out.status == "error"@
        }),
{
    reveal_strlit("ok");
    reveal_strlit("error");
    assert("ok"@.len() == 2 && "error"@.len() == 5);
}

/// The configuration of a connector is shown in compact form, and as an empty object where it is
/// blank or no JSON.
pub proof fn configuration_is_shown_compact(text: Seq<char>)
    ensures
        trimmed_text(text).len() > 0 && json_normal(text) is Some ==> shown_config(Some(text))
            == json_normal(text)->0,
        trimmed_text(text).len() == 0 || json_normal(text) is None ==> shown_config(Some(text))
            == "{}"@,
        shown_config(None) == "{}"@,
{
}

} // verus!
