//! Connectors of a project group to outside services, and their probes.
use crate::http::{add_scheme, filled, success, trim_filled, with_scheme, HttpReply, HttpReplyView};
use crate::json::{json_normal, normalize_json};
use crate::org::models::{IntegrationDto, IntegrationDtoView, IntegrationRow, IntegrationRowView};
use crate::org::service::{OrgService, OrgState};
use crate::table::{any, find_where, first, list_where, lists, map_rows, total_order, views};
use crate::text::{
    as_opt_str, cat, cat3, clone_opt, decimal, decimal_text, le_text, lemma_text_le_total,
    lemma_text_le_trans, opt_str, opt_text, own_opt, same, text_le, trim, trimmed_text,
};
use vstd::prelude::*;

verus! {

/// The outside services that connectors are known for.
pub const KNOWN_PROVIDERS: [&'static str; 4] = ["github", "gitlab", "jira", "feishu"];

/// What a probe of a connector found.
#[derive(Debug, Clone)]
pub struct IntegrationTestResult {
    /// `not_configured`, `ok` or `error`.
    pub status: String,
    pub message: String,
}

/// [`IntegrationTestResult`] as plain values.
pub struct IntegrationTestResultView {
    pub status: Seq<char>,
    pub message: Seq<char>,
}

impl View for IntegrationTestResult {
    type V = IntegrationTestResultView;

    open spec fn view(&self) -> IntegrationTestResultView {
        IntegrationTestResultView {
            status: self.status@,
            message: self.message@,
        }
    }
}

/// What a run of a connector did.
#[derive(Debug, Clone)]
pub struct IntegrationSyncResult {
    pub status: String,
    pub message: String,
    pub items_synced: u32,
    pub cursor: Option<String>,
}

/// [`IntegrationSyncResult`] as plain values.
pub struct IntegrationSyncResultView {
    pub status: Seq<char>,
    pub message: Seq<char>,
    pub items_synced: u32,
    pub cursor: Option<Seq<char>>,
}

impl View for IntegrationSyncResult {
    type V = IntegrationSyncResultView;

    open spec fn view(&self) -> IntegrationSyncResultView {
        IntegrationSyncResultView {
            status: self.status@,
            message: self.message@,
            items_synced: self.items_synced,
            cursor: opt_text(self.cursor),
        }
    }
}

/// What a connector is run with. `config` is JSON text.
#[derive(Debug, Clone)]
pub struct IntegrationCredentials {
    pub provider: String,
    pub base_url: Option<String>,
    pub config: String,
    pub secret: Option<String>,
}

/// [`IntegrationCredentials`] as plain values.
pub struct IntegrationCredentialsView {
    pub provider: Seq<char>,
    pub base_url: Option<Seq<char>>,
    pub config: Seq<char>,
    pub secret: Option<Seq<char>>,
}

impl View for IntegrationCredentials {
    type V = IntegrationCredentialsView;

    open spec fn view(&self) -> IntegrationCredentialsView {
        IntegrationCredentialsView {
            provider: self.provider@,
            base_url: opt_text(self.base_url),
            config: self.config@,
            secret: opt_text(self.secret),
        }
    }
}

/// A GET request, with a bearer token where there is one.
#[derive(Debug, Clone)]
pub struct WebRequest {
    pub url: String,
    pub bearer: Option<String>,
}

/// [`WebRequest`] as plain values.
pub struct WebRequestView {
    pub url: Seq<char>,
    pub bearer: Option<Seq<char>>,
}

impl View for WebRequest {
    type V = WebRequestView;

    open spec fn view(&self) -> WebRequestView {
        WebRequestView {
            url: self.url@,
            bearer: opt_text(self.bearer),
        }
    }
}

/// What a probe does next.
#[derive(Debug)]
pub enum ProbeStep {
    /// The answer is known.
    Done(IntegrationTestResult),
    /// The request decides.
    Get(WebRequest),
}

/// [`ProbeStep`] as plain values.
pub enum ProbeStepView {
    Done(IntegrationTestResultView),
    Get(WebRequestView),
}

impl View for ProbeStep {
    type V = ProbeStepView;

    open spec fn view(&self) -> ProbeStepView {
        match *self {
            ProbeStep::Done(r) => ProbeStepView::Done(r@),
            ProbeStep::Get(r) => ProbeStepView::Get(r@),
        }
    }
}

pub open spec fn unconfigured() -> IntegrationTestResultView {
    IntegrationTestResultView {
        status: "not_configured"@,
        message: "Save a base URL for this connector, then test again."@,
    }
}

/// How a connector is probed: not at all without an address, else by a request to it.
pub open spec fn probe_step(creds: IntegrationCredentialsView) -> ProbeStepView {
    match filled(creds.base_url) {
        None => ProbeStepView::Done(unconfigured()),
        Some(raw) => ProbeStepView::Get(
            WebRequestView { url: with_scheme(raw), bearer: filled(creds.secret) },
        ),
    }
}

/// What the answer to a probe says. An answer that asks for authorization, or that finds nothing
/// at the address, shows that the service is there.
pub open spec fn probe_outcome(
    provider: Seq<char>,
    url: Seq<char>,
    reply: HttpReplyView,
) -> IntegrationTestResultView {
    match reply {
        HttpReplyView::Status(code) => if success(code) || code == 401 || code == 403 || code
            == 404 {
            IntegrationTestResultView {
                status: "ok"@,
                message: provider + " reached "@ + url + " (HTTP "@ + decimal(code as nat) + ")"@,
            }
        } else {
            IntegrationTestResultView {
                status: "error"@,
                message: url + " returned HTTP "@ + decimal(code as nat),
            }
        },
        HttpReplyView::Failed(why) => IntegrationTestResultView {
            status: "error"@,
            message: "Could not reach "@ + url + ": "@ + why,
        },
        HttpReplyView::NoClient(why) => IntegrationTestResultView {
            status: "error"@,
            message: why,
        },
    }
}

/// Probes the address of a connector by a plain GET request.
pub struct StubIntegrationProvider;

impl StubIntegrationProvider {
    /// How a connector is probed.
    pub fn test_connection(&self, creds: &IntegrationCredentials) -> (r: ProbeStep)
        ensures
            r@ == probe_step(creds@),
    {
        match trim_filled(as_opt_str(&creds.base_url)) {
            None => ProbeStep::Done(
                IntegrationTestResult {
                    status: "not_configured".to_owned(),
                    message: "Save a base URL for this connector, then test again.".to_owned(),
                },
            ),
            Some(raw) => ProbeStep::Get(
                WebRequest {
                    url: add_scheme(raw.as_str()),
                    bearer: trim_filled(as_opt_str(&creds.secret)),
                },
            ),
        }
    }
}

pub fn connection_result(provider: &str, url: &str, reply: &HttpReply) -> (r: IntegrationTestResult)
    ensures
        r@ == probe_outcome(provider@, url@, reply@),
{
    match reply {
        HttpReply::Status(code) => {
            let number = decimal_text(*code as u64);
            if (200 <= *code && *code <= 299) || *code == 401 || *code == 403 || *code == 404 {
                let head = cat3(provider, " reached ", url);
                let middle = cat3(head.as_str(), " (HTTP ", number.as_str());
                IntegrationTestResult {
                    status: "ok".to_owned(),
                    message: cat(middle.as_str(), ")"),
                }
            } else {
                IntegrationTestResult {
                    status: "error".to_owned(),
                    message: cat3(url, " returned HTTP ", number.as_str()),
                }
            }
        },
        HttpReply::Failed(why) => {
            let head = cat3("Could not reach ", url, ": ");
            IntegrationTestResult {
                status: "error".to_owned(),
                message: cat(head.as_str(), why.as_str()),
            }
        },
        HttpReply::NoClient(why) => IntegrationTestResult {
            status: "error".to_owned(),
            message: why.clone(),
        },
    }
}

/// A probe reported as a run: one item where the service is there, and the cursor unchanged.
pub fn probe_as_sync(
    probe: IntegrationTestResult,
    cursor: Option<&str>,
) -> (r: IntegrationSyncResult)
    ensures
        r@ == (IntegrationSyncResultView {
            status: probe@.status,
            message: probe@.message,
            items_synced: if probe@.status == "ok"@ {
                1
            } else {
                0
            },
            cursor: opt_str(cursor),
        }),
{
    let items_synced: u32 = if same(probe.status.as_str(), "ok") {
        1
    } else {
        0
    };
    IntegrationSyncResult {
        status: probe.status,
        message: probe.message,
        items_synced,
        cursor: own_opt(cursor),
    }
}

/// The path that a run asks for at a known service.
pub open spec fn sync_path(provider: Seq<char>) -> Option<Seq<char>> {
    if provider == "github"@ {
        Some("/user/repos?per_page=5"@)
    } else if provider == "gitlab"@ {
        Some("/api/v4/projects?membership=true&per_page=5"@)
    } else if provider == "jira"@ {
        Some("/rest/api/3/myself"@)
    } else if provider == "feishu"@ {
        Some("/open-apis/auth/v3/tenant_access_token/internal"@)
    } else {
        None
    }
}

/// The address that a run asks, for a known service with a base address.
pub open spec fn sync_address(creds: IntegrationCredentialsView) -> Option<Seq<char>> {
    match (filled(creds.base_url), sync_path(creds.provider)) {
        (Some(base), Some(path)) => Some(with_scheme(base) + path),
        _ => None,
    }
}

/// A connector provider that runs over HTTP.
pub struct HttpConnectorProvider {}

impl HttpConnectorProvider {
    pub fn sync_url(creds: &IntegrationCredentials) -> (r: Option<String>)
        ensures
            opt_text(r) == sync_address(creds@),
    {
        let base = match trim_filled(as_opt_str(&creds.base_url)) {
            Some(base) => add_scheme(base.as_str()),
            None => {
                return None;
            },
        };
        let provider = creds.provider.as_str();
        let path = if same(provider, "github") {
            "/user/repos?per_page=5"
        } else if same(provider, "gitlab") {
            "/api/v4/projects?membership=true&per_page=5"
        } else if same(provider, "jira") {
            "/rest/api/3/myself"
        } else if same(provider, "feishu") {
            "/open-apis/auth/v3/tenant_access_token/internal"
        } else {
            return None;
        };
        Some(cat(base.as_str(), path))
    }

    /// The request that a run makes; without one the run has failed, with the reason.
    pub fn sync(creds: &IntegrationCredentials, cursor: Option<&str>) -> (r: Result<
        WebRequest,
        IntegrationSyncResult,
    >)
        ensures
            match sync_address(creds@) {
                Some(url) => r matches Ok(w) && w@ == (WebRequestView {
                    url,
                    bearer: filled(creds@.secret),
                }),
                None => r matches Err(e) && e@ == (IntegrationSyncResultView {
                    status: "error"@,
                    message: "Unknown provider "@ + creds@.provider,
                    items_synced: 0,
                    cursor: opt_str(cursor),
                }),
            },
    {
        match HttpConnectorProvider::sync_url(creds) {
            Some(url) => Ok(WebRequest { url, bearer: trim_filled(as_opt_str(&creds.secret)) }),
            None => Err(
                IntegrationSyncResult {
                    status: "error".to_owned(),
                    message: cat("Unknown provider ", creds.provider.as_str()),
                    items_synced: 0,
                    cursor: own_opt(cursor),
                },
            ),
        }
    }
}

/// What the answer to a run says.
pub open spec fn sync_outcome(
    provider: Seq<char>,
    url: Seq<char>,
    reply: HttpReplyView,
    cursor: Option<Seq<char>>,
) -> IntegrationSyncResultView {
    match reply {
        HttpReplyView::Status(code) => {
            let ok = success(code) || code == 401 || code == 403;
            IntegrationSyncResultView {
                status: if ok {
                    "ok"@
                } else {
                    "error"@
                },
                message: provider + " sync GET "@ + url + " (HTTP "@ + decimal(code as nat) + ")"@,
                items_synced: if ok {
                    1
                } else {
                    0
                },
                cursor,
            }
        },
        HttpReplyView::Failed(why) => IntegrationSyncResultView {
            status: "error"@,
            message: "sync failed: "@ + why,
            items_synced: 0,
            cursor,
        },
        HttpReplyView::NoClient(why) => IntegrationSyncResultView {
            status: "error"@,
            message: why,
            items_synced: 0,
            cursor,
        },
    }
}

pub fn sync_result(provider: &str, url: &str, reply: &HttpReply, cursor: Option<&str>) -> (r:
    IntegrationSyncResult)
    ensures
        r@ == sync_outcome(provider@, url@, reply@, opt_str(cursor)),
{
    match reply {
        HttpReply::Status(code) => {
            let ok = (200 <= *code && *code <= 299) || *code == 401 || *code == 403;
            let number = decimal_text(*code as u64);
            let head = cat3(provider, " sync GET ", url);
            let middle = cat3(head.as_str(), " (HTTP ", number.as_str());
            IntegrationSyncResult {
                status: if ok {
                    "ok".to_owned()
                } else {
                    "error".to_owned()
                },
                message: cat(middle.as_str(), ")"),
                items_synced: if ok {
                    1
                } else {
                    0
                },
                cursor: own_opt(cursor),
            }
        },
        HttpReply::Failed(why) => IntegrationSyncResult {
            status: "error".to_owned(),
            message: cat("sync failed: ", why.as_str()),
            items_synced: 0,
            cursor: own_opt(cursor),
        },
        HttpReply::NoClient(why) => IntegrationSyncResult {
            status: "error".to_owned(),
            message: why.clone(),
            items_synced: 0,
            cursor: own_opt(cursor),
        },
    }
}

pub open spec fn integration_key(tenant_id: Seq<char>, provider: Seq<char>) -> spec_fn(
    IntegrationRowView,
) -> bool {
    |r: IntegrationRowView| r.tenant_id == tenant_id && r.provider == provider
}

pub open spec fn integrations_of(tenant_id: Seq<char>) -> spec_fn(IntegrationRowView) -> bool {
    |r: IntegrationRowView| r.tenant_id == tenant_id
}

pub open spec fn by_provider() -> spec_fn(IntegrationRowView, IntegrationRowView) -> bool {
    |a: IntegrationRowView, b: IntegrationRowView| text_le(a.provider, b.provider)
}

/// The settings of a connector as shown: their compact JSON form, or an empty object where
/// nothing readable is stored.
pub open spec fn shown_config(config_json: Option<Seq<char>>) -> Seq<char> {
    match config_json {
        Some(text) => if trimmed_text(text).len() > 0 {
            match json_normal(text) {
                Some(t) => t,
                None => "{}"@,
            }
        } else {
            "{}"@
        },
        None => "{}"@,
    }
}

pub open spec fn integration_dto(r: IntegrationRowView) -> IntegrationDtoView {
    IntegrationDtoView {
        provider: r.provider,
        base_url: r.base_url,
        config: shown_config(r.config_json),
        has_secret: r.secret_encrypted is Some,
        enabled: r.enabled,
        updated_at: Some(r.updated_at),
    }
}

/// A connector as shown; one that was never set up is shown empty and disabled.
pub open spec fn shown_integration(
    st: OrgState,
    tenant_id: Seq<char>,
    provider: Seq<char>,
) -> IntegrationDtoView {
    match first(st.integrations, integration_key(tenant_id, provider)) {
        Some(r) => integration_dto(r),
        None => IntegrationDtoView {
            provider,
            base_url: None,
            config: "{}"@,
            has_secret: false,
            enabled: false,
            updated_at: None,
        },
    }
}

/// The stored secret of a connector, encrypted.
pub open spec fn sealed_secret(st: OrgState, tenant_id: Seq<char>, provider: Seq<char>) -> Option<
    Seq<char>,
> {
    match first(st.integrations, integration_key(tenant_id, provider)) {
        Some(r) => r.secret_encrypted,
        None => None,
    }
}

/// The secret to store: the new one, encrypted, where one was given that is not empty, else the
/// one that is stored.
pub open spec fn kept_secret(
    given: Option<Seq<char>>,
    sealed: Seq<char>,
    stored: Option<Seq<char>>,
) -> Option<Seq<char>> {
    match given {
        Some(g) => if g.len() > 0 {
            Some(sealed)
        } else {
            stored
        },
        None => stored,
    }
}

pub fn keep_secret(given: Option<&str>, sealed: &str, stored: Option<String>) -> (r: Option<String>)
    ensures
        opt_text(r) == kept_secret(opt_str(given), sealed@, opt_text(stored)),
{
    match given {
        Some(g) => if g.is_empty() {
            stored
        } else {
            Some(sealed.to_owned())
        },
        None => stored,
    }
}

/// The connectors with one of them set.
pub open spec fn with_integration(
    rows: Seq<IntegrationRowView>,
    row: IntegrationRowView,
) -> Seq<IntegrationRowView> {
    if any(rows, integration_key(row.tenant_id, row.provider)) {
        rows.map_values(
            |r: IntegrationRowView|
                if integration_key(row.tenant_id, row.provider)(r) {
                    row
                } else {
                    r
                },
        )
    } else {
        rows.push(row)
    }
}

fn show_config(config_json: &Option<String>) -> (r: String)
    ensures
        r@ == shown_config(opt_text(*config_json)),
{
    if let Some(text) = config_json {
        let bare = trim(text.as_str());
        if !bare.as_str().is_empty() {
            if let Some(t) = normalize_json(text.as_str()) {
                return t;
            }
        }
    }
    "{}".to_owned()
}

proof fn lemma_by_provider_total()
    ensures
        total_order(by_provider()),
{
    let le = by_provider();
    assert forall|a: IntegrationRowView, b: IntegrationRowView| #[trigger] le(a, b) || le(b, a) by {
        lemma_text_le_total(a.provider, b.provider);
    }
    assert forall|a: IntegrationRowView, b: IntegrationRowView, c: IntegrationRowView|
        #[trigger] le(a, b) && #[trigger] le(b, c) implies le(a, c) by {
        lemma_text_le_trans(a.provider, b.provider, c.provider);
    }
}

impl IntegrationDto {
    pub fn of(r: &IntegrationRow) -> (d: Self)
        ensures
            d@ == integration_dto(r@),
    {
        IntegrationDto {
            provider: r.provider.clone(),
            base_url: clone_opt(&r.base_url),
            config: show_config(&r.config_json),
            has_secret: r.secret_encrypted.is_some(),
            enabled: r.enabled,
            updated_at: Some(r.updated_at),
        }
    }
}

/// The connectors of a group as listed, in the order of their providers.
pub open spec fn integrations_shown(
    st: OrgState,
    tenant_id: Seq<char>,
    out: Seq<IntegrationDtoView>,
) -> bool {
    lists(
        out,
        st.integrations,
        integrations_of(tenant_id),
        by_provider(),
        |r: IntegrationRowView| integration_dto(r),
    )
}

/// What saving a connector does and how it is answered.
pub open spec fn integration_saved(
    before: OrgState,
    after: OrgState,
    tenant_id: Seq<char>,
    provider: Seq<char>,
    base_url: Option<Seq<char>>,
    config: Seq<char>,
    secret: Option<Seq<char>>,
    sealed: Seq<char>,
    enabled: bool,
    now: i64,
    d: IntegrationDtoView,
) -> bool {
    let row = IntegrationRowView {
        tenant_id,
        provider,
        base_url,
        config_json: Some(config),
        secret_encrypted: kept_secret(secret, sealed, sealed_secret(before, tenant_id, provider)),
        enabled,
        updated_at: now,
    };
    &&& after == (OrgState {
        integrations: with_integration(before.integrations, row),
        ..before
    })
    &&& d == integration_dto(row)
}

/// What testing a connector asks for.
pub open spec fn integration_tested(
    st: OrgState,
    tenant_id: Seq<char>,
    provider: Seq<char>,
    secret: Option<Seq<char>>,
) -> ProbeStepView {
    let dto = shown_integration(st, tenant_id, provider);
    if dto.enabled {
        probe_step(
            IntegrationCredentialsView {
                provider,
                base_url: dto.base_url,
                config: dto.config,
                secret,
            },
        )
    } else {
        ProbeStepView::Done(unconfigured())
    }
}

impl OrgService {
    fn integration_at(&self, tenant_id: &str, provider: &str) -> (r: Option<usize>)
        ensures
            match r {
                Some(i) => i < self.integrations.len() && first(
                    self@.integrations,
                    integration_key(tenant_id@, provider@),
                ) == Some(self.integrations@[i as int]@),
                None => first(self@.integrations, integration_key(tenant_id@, provider@)) is None,
            },
            r is Some <==> any(self@.integrations, integration_key(tenant_id@, provider@)),
    {
        let f = |r: &IntegrationRow| -> (b: bool)
            ensures
                b == integration_key(tenant_id@, provider@)(r@),
            { same(r.tenant_id.as_str(), tenant_id) && same(r.provider.as_str(), provider) };
        find_where(&self.integrations, f, Ghost(integration_key(tenant_id@, provider@)))
    }

    /// The connectors of a group, by service.
    pub fn list_integrations(&self, tenant_id: &str) -> (out: Vec<IntegrationDto>)
        ensures
            integrations_shown(self@, tenant_id@, views(out@)),
    {
        let f = |r: &IntegrationRow| -> (b: bool)
            ensures
                b == integrations_of(tenant_id@)(r@),
            { same(r.tenant_id.as_str(), tenant_id) };
        let l = |a: &IntegrationRow, b: &IntegrationRow| -> (c: bool)
            ensures
                c == by_provider()(a@, b@),
            { le_text(a.provider.as_str(), b.provider.as_str()) };
        let mk = |r: &IntegrationRow| -> (d: IntegrationDto)
            ensures
                d@ == integration_dto(r@),
            { IntegrationDto::of(r) };
        proof {
            lemma_by_provider_total();
        }
        list_where(
            &self.integrations,
            f,
            l,
            mk,
            Ghost(integrations_of(tenant_id@)),
            Ghost(by_provider()),
            Ghost(|r: IntegrationRowView| integration_dto(r)),
        )
    }

    pub fn get_integration(&self, tenant_id: &str, provider: &str) -> (d: IntegrationDto)
        ensures
            d@ == shown_integration(self@, tenant_id@, provider@),
    {
        match self.integration_at(tenant_id, provider) {
            Some(i) => {
                let d = IntegrationDto::of(&self.integrations[i]);
                d
            },
            None => IntegrationDto {
                provider: provider.to_owned(),
                base_url: None,
                config: "{}".to_owned(),
                has_secret: false,
                enabled: false,
                updated_at: None,
            },
        }
    }

    /// The stored secret of a connector, encrypted.
    pub fn integration_secret(&self, tenant_id: &str, provider: &str) -> (r: Option<String>)
        ensures
            opt_text(r) == sealed_secret(self@, tenant_id@, provider@),
    {
        match self.integration_at(tenant_id, provider) {
            Some(i) => clone_opt(&self.integrations[i].secret_encrypted),
            None => None,
        }
    }

    /// Sets up a connector. `sealed` is the encrypted form of the secret; without a secret, or
    /// with an empty one, the stored secret stays. `config` is JSON text.
    pub fn set_integration(
        &mut self,
        tenant_id: &str,
        provider: &str,
        base_url: Option<&str>,
        config: &str,
        secret: Option<&str>,
        sealed: &str,
        enabled: bool,
        now: i64,
    ) -> (d: IntegrationDto)
        ensures
            integration_saved(
                old(self)@,
                final(self)@,
                tenant_id@,
                provider@,
                opt_str(base_url),
                config@,
                opt_str(secret),
                sealed@,
                enabled,
                now,
                d@,
            ),
    {
        let stored = self.integration_secret(tenant_id, provider);
        let row = IntegrationRow {
            tenant_id: tenant_id.to_owned(),
            provider: provider.to_owned(),
            base_url: own_opt(base_url),
            config_json: Some(config.to_owned()),
            secret_encrypted: keep_secret(secret, sealed, stored),
            enabled,
            updated_at: now,
        };
        let d = IntegrationDto::of(&row);
        if self.integration_at(tenant_id, provider).is_some() {
            let ghost new = row@;
            let ghost g = |r: IntegrationRowView|
                if integration_key(new.tenant_id, new.provider)(r) {
                    new
                } else {
                    r
                };
            let u = |r: &IntegrationRow| -> (y: IntegrationRow)
                ensures
                    y@ == g(r@),
                {
                    if same(r.tenant_id.as_str(), tenant_id) && same(
                        r.provider.as_str(),
                        provider,
                    ) {
                        row.copy()
                    } else {
                        r.copy()
                    }
                };
            map_rows(&mut self.integrations, u, Ghost(g));
            proof {
                assert(self@.integrations =~= with_integration(old(self)@.integrations, new));
            }
        } else {
            let ghost before = self@.integrations;
            self.integrations.push(row);
            proof {
                assert(self@.integrations =~= before.push(row@));
            }
        }
        d
    }

    /// How a stored connector is probed, with its decrypted secret. A connector that is disabled
    /// or has no address is not configured.
    pub fn test_integration(&self, tenant_id: &str, provider: &str, secret: Option<&str>) -> (r:
        ProbeStep)
        ensures
            r@ == integration_tested(self@, tenant_id@, provider@, opt_str(secret)),
    {
        let dto = self.get_integration(tenant_id, provider);
        let base_url = if dto.enabled {
            dto.base_url
        } else {
            None
        };
        let creds = IntegrationCredentials {
            provider: provider.to_owned(),
            base_url,
            config: dto.config,
            secret: own_opt(secret),
        };
        StubIntegrationProvider.test_connection(&creds)
    }
}

} // verus!
