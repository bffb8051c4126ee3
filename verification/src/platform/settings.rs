//! Settings of a group: container runtime, collaboration, address allowlist, log export.
use crate::json::{json_texts, parse_texts, render_texts, texts_json};
use crate::org::integration::{keep_secret, kept_secret};
use crate::platform::collaboration::{CollaborationSettings, NoopCollaborationProvider};
use crate::platform::container::{ContainerSettings, NoopContainerRuntime};
use crate::platform::http_probe::{
    http_probe, no_endpoint, probe_http_endpoint, HttpProbe, HttpProbeView,
};
use crate::platform::ip_allowlist::{ip_allowed, list_covers};
use crate::platform::models::{
    CollaborationConfigDto, CollaborationConfigDtoView, CollaborationConfigRow,
    CollaborationConfigRowView, ContainerConfigDto, ContainerConfigDtoView, ContainerConfigRow,
    ContainerConfigRowView, IpAllowlistConfigDto, IpAllowlistConfigDtoView, IpAllowlistRow,
    IpAllowlistRowView, SiemConfigDto, SiemConfigDtoView, SiemConfigRow, SiemConfigRowView,
};
use crate::platform::service::{PlatformService, PlatformState};
use crate::platform::siem::{siem_probe, NoopSiemExporter, SiemProbe, SiemProbeView, SiemSettings};
use crate::table::{any, find_where, first, lemma_put, lemma_put_other, put, put_row};
use crate::text::{
    as_opt_str, clone_opt, opt_str, opt_text, own_opt, same, texts, trim, trimmed_text,
};
use vstd::prelude::*;

verus! {

pub open spec fn container_of(tenant_id: Seq<char>) -> spec_fn(ContainerConfigRowView) -> bool {
    |r: ContainerConfigRowView| r.tenant_id == tenant_id
}

/// The stored settings with one group's set.
pub open spec fn with_container(
    rows: Seq<ContainerConfigRowView>,
    row: ContainerConfigRowView,
) -> Seq<ContainerConfigRowView> {
    put(rows, container_of(row.tenant_id), row)
}

pub open spec fn collaboration_of(
    tenant_id: Seq<char>,
) -> spec_fn(CollaborationConfigRowView) -> bool {
    |r: CollaborationConfigRowView| r.tenant_id == tenant_id
}

/// The stored settings with one group's set.
pub open spec fn with_collaboration(
    rows: Seq<CollaborationConfigRowView>,
    row: CollaborationConfigRowView,
) -> Seq<CollaborationConfigRowView> {
    put(rows, collaboration_of(row.tenant_id), row)
}

pub open spec fn allowlist_of(tenant_id: Seq<char>) -> spec_fn(IpAllowlistRowView) -> bool {
    |r: IpAllowlistRowView| r.tenant_id == tenant_id
}

/// The stored settings with one group's set.
pub open spec fn with_allowlist(
    rows: Seq<IpAllowlistRowView>,
    row: IpAllowlistRowView,
) -> Seq<IpAllowlistRowView> {
    put(rows, allowlist_of(row.tenant_id), row)
}

pub open spec fn siem_of(tenant_id: Seq<char>) -> spec_fn(SiemConfigRowView) -> bool {
    |r: SiemConfigRowView| r.tenant_id == tenant_id
}

/// The stored settings with one group's set.
pub open spec fn with_siem(
    rows: Seq<SiemConfigRowView>,
    row: SiemConfigRowView,
) -> Seq<SiemConfigRowView> {
    put(rows, siem_of(row.tenant_id), row)
}

pub open spec fn shown_container(
    st: PlatformState,
    tenant_id: Seq<char>,
) -> ContainerConfigDtoView {
    match first(st.containers, container_of(tenant_id)) {
        Some(r) => ContainerConfigDtoView {
            runtime_kind: r.runtime_kind,
            endpoint: r.endpoint,
            default_image: r.default_image,
            registry: r.registry,
            has_registry_secret: r.registry_secret_encrypted is Some,
            enabled: r.enabled,
            updated_at: Some(r.updated_at),
        },
        None => ContainerConfigDtoView {
            runtime_kind: None,
            endpoint: None,
            default_image: None,
            registry: None,
            has_registry_secret: false,
            enabled: false,
            updated_at: None,
        },
    }
}

pub open spec fn sealed_container(st: PlatformState, tenant_id: Seq<char>) -> Option<Seq<char>> {
    match first(st.containers, container_of(tenant_id)) {
        Some(r) => r.registry_secret_encrypted,
        None => None,
    }
}

pub open spec fn shown_collaboration(
    st: PlatformState,
    tenant_id: Seq<char>,
) -> CollaborationConfigDtoView {
    match first(st.collaborations, collaboration_of(tenant_id)) {
        Some(r) => CollaborationConfigDtoView {
            provider: r.provider,
            endpoint: r.endpoint,
            has_secret: r.secret_encrypted is Some,
            presence: r.presence,
            enabled: r.enabled,
            updated_at: Some(r.updated_at),
        },
        None => CollaborationConfigDtoView {
            provider: None,
            endpoint: None,
            has_secret: false,
            presence: false,
            enabled: false,
            updated_at: None,
        },
    }
}

pub open spec fn sealed_collaboration(
    st: PlatformState,
    tenant_id: Seq<char>,
) -> Option<Seq<char>> {
    match first(st.collaborations, collaboration_of(tenant_id)) {
        Some(r) => r.secret_encrypted,
        None => None,
    }
}

pub open spec fn shown_siem(st: PlatformState, tenant_id: Seq<char>) -> SiemConfigDtoView {
    match first(st.siems, siem_of(tenant_id)) {
        Some(r) => SiemConfigDtoView {
            kind: r.kind,
            endpoint: r.endpoint,
            has_secret: r.secret_encrypted is Some,
            enabled: r.enabled,
            updated_at: Some(r.updated_at),
        },
        None => SiemConfigDtoView {
            kind: None,
            endpoint: None,
            has_secret: false,
            enabled: false,
            updated_at: None,
        },
    }
}

pub open spec fn sealed_siem(st: PlatformState, tenant_id: Seq<char>) -> Option<Seq<char>> {
    match first(st.siems, siem_of(tenant_id)) {
        Some(r) => r.secret_encrypted,
        None => None,
    }
}

/// The strings of a stored JSON list; nothing readable is no strings.
pub open spec fn stored_list(json: Option<Seq<char>>) -> Seq<Seq<char>> {
    match json {
        Some(text) => if trimmed_text(text).len() > 0 {
            match json_texts(text) {
                Some(list) => list,
                None => Seq::empty(),
            }
        } else {
            Seq::empty()
        },
        None => Seq::empty(),
    }
}

pub open spec fn shown_allowlist(
    st: PlatformState,
    tenant_id: Seq<char>,
) -> IpAllowlistConfigDtoView {
    match first(st.allowlists, allowlist_of(tenant_id)) {
        Some(r) => IpAllowlistConfigDtoView {
            cidrs: stored_list(r.cidrs),
            enabled: r.enabled,
            updated_at: Some(r.updated_at),
        },
        None => IpAllowlistConfigDtoView {
            cidrs: Seq::empty(),
            enabled: false,
            updated_at: None,
        },
    }
}

fn read_list(json: &Option<String>) -> (r: Vec<String>)
    ensures
        texts(r@) == stored_list(opt_text(*json)),
{
    if let Some(text) = json {
        let bare = trim(text.as_str());
        if !bare.as_str().is_empty() {
            if let Some(list) = parse_texts(text.as_str()) {
                return list;
            }
        }
    }
    let none: Vec<String> = Vec::new();
    proof {
        assert(texts(none@) =~= Seq::empty());
    }
    none
}

/// What was set for a group is what is stored for it, and nothing else changed.
pub proof fn container_read_back(
    rows: Seq<ContainerConfigRowView>,
    row: ContainerConfigRowView,
    other: Seq<char>,
)
    ensures
        first(with_container(rows, row), container_of(row.tenant_id)) == Some(row),
        other != row.tenant_id ==> first(with_container(rows, row), container_of(other)) == first(
            rows,
            container_of(other),
        ),
{
    lemma_put(rows, container_of(row.tenant_id), row);
    if other != row.tenant_id {
        lemma_put_other(rows, container_of(row.tenant_id), row, container_of(other));
    }
}

/// What was set for a group is what is stored for it, and nothing else changed.
pub proof fn collaboration_read_back(
    rows: Seq<CollaborationConfigRowView>,
    row: CollaborationConfigRowView,
    other: Seq<char>,
)
    ensures
        first(with_collaboration(rows, row), collaboration_of(row.tenant_id)) == Some(row),
        other != row.tenant_id ==> first(with_collaboration(rows, row), collaboration_of(other)) == first(
            rows,
            collaboration_of(other),
        ),
{
    lemma_put(rows, collaboration_of(row.tenant_id), row);
    if other != row.tenant_id {
        lemma_put_other(rows, collaboration_of(row.tenant_id), row, collaboration_of(other));
    }
}

/// What was set for a group is what is stored for it, and nothing else changed.
pub proof fn allowlist_read_back(
    rows: Seq<IpAllowlistRowView>,
    row: IpAllowlistRowView,
    other: Seq<char>,
)
    ensures
        first(with_allowlist(rows, row), allowlist_of(row.tenant_id)) == Some(row),
        other != row.tenant_id ==> first(with_allowlist(rows, row), allowlist_of(other)) == first(
            rows,
            allowlist_of(other),
        ),
{
    lemma_put(rows, allowlist_of(row.tenant_id), row);
    if other != row.tenant_id {
        lemma_put_other(rows, allowlist_of(row.tenant_id), row, allowlist_of(other));
    }
}

/// What was set for a group is what is stored for it, and nothing else changed.
pub proof fn siem_read_back(
    rows: Seq<SiemConfigRowView>,
    row: SiemConfigRowView,
    other: Seq<char>,
)
    ensures
        first(with_siem(rows, row), siem_of(row.tenant_id)) == Some(row),
        other != row.tenant_id ==> first(with_siem(rows, row), siem_of(other)) == first(
            rows,
            siem_of(other),
        ),
{
    lemma_put(rows, siem_of(row.tenant_id), row);
    if other != row.tenant_id {
        lemma_put_other(rows, siem_of(row.tenant_id), row, siem_of(other));
    }
}

/// What setting up containers does.
pub open spec fn container_set(
    before: PlatformState,
    after: PlatformState,
    tenant_id: Seq<char>,
    runtime_kind: Option<Seq<char>>,
    endpoint: Option<Seq<char>>,
    default_image: Option<Seq<char>>,
    registry: Option<Seq<char>>,
    registry_secret: Option<Seq<char>>,
    sealed: Seq<char>,
    enabled: bool,
    now: i64,
) -> bool {
    after == (PlatformState {
        containers: with_container(
            before.containers,
            ContainerConfigRowView {
                tenant_id,
                runtime_kind,
                endpoint,
                default_image,
                registry,
                registry_secret_encrypted: kept_secret(
                    registry_secret,
                    sealed,
                    sealed_container(before, tenant_id),
                ),
                enabled,
                updated_at: now,
            },
        ),
        ..before
    })
}

/// What setting up collaboration does.
pub open spec fn collaboration_set(
    before: PlatformState,
    after: PlatformState,
    tenant_id: Seq<char>,
    provider: Option<Seq<char>>,
    endpoint: Option<Seq<char>>,
    secret: Option<Seq<char>>,
    sealed: Seq<char>,
    presence: bool,
    enabled: bool,
    now: i64,
) -> bool {
    after == (PlatformState {
        collaborations: with_collaboration(
            before.collaborations,
            CollaborationConfigRowView {
                tenant_id,
                provider,
                endpoint,
                secret_encrypted: kept_secret(
                    secret,
                    sealed,
                    sealed_collaboration(before, tenant_id),
                ),
                presence,
                enabled,
                updated_at: now,
            },
        ),
        ..before
    })
}

/// What setting up the export of events does.
pub open spec fn siem_set(
    before: PlatformState,
    after: PlatformState,
    tenant_id: Seq<char>,
    kind: Option<Seq<char>>,
    endpoint: Option<Seq<char>>,
    secret: Option<Seq<char>>,
    sealed: Seq<char>,
    enabled: bool,
    now: i64,
) -> bool {
    after == (PlatformState {
        siems: with_siem(
            before.siems,
            SiemConfigRowView {
                tenant_id,
                kind,
                endpoint,
                secret_encrypted: kept_secret(secret, sealed, sealed_siem(before, tenant_id)),
                enabled,
                updated_at: now,
            },
        ),
        ..before
    })
}

/// What setting the list of allowed addresses does.
pub open spec fn allowlist_set(
    before: PlatformState,
    after: PlatformState,
    tenant_id: Seq<char>,
    cidrs: Seq<Seq<char>>,
    enabled: bool,
    now: i64,
) -> bool {
    &&& after == (PlatformState {
        allowlists: with_allowlist(
            before.allowlists,
            IpAllowlistRowView {
                tenant_id,
                cidrs: Some(texts_json(cidrs)),
                enabled,
                updated_at: now,
            },
        ),
        ..before
    })
    &&& json_texts(texts_json(cidrs)) == Some(cidrs)
}

/// Whether a group lets an address in.
pub open spec fn lets_in(st: PlatformState, tenant_id: Seq<char>, ip: Seq<char>) -> bool {
    let cfg = shown_allowlist(st, tenant_id);
    !cfg.enabled || list_covers(cfg.cidrs, ip)
}

/// What a probe of the group's collaboration service asks for.
pub open spec fn collaboration_probe(
    st: PlatformState,
    tenant_id: Seq<char>,
    secret: Option<Seq<char>>,
) -> HttpProbeView {
    let cfg = shown_collaboration(st, tenant_id);
    if cfg.enabled {
        http_probe(cfg.endpoint, secret)
    } else {
        HttpProbeView::Done(no_endpoint())
    }
}

/// What a probe of the group's event sink asks for.
pub open spec fn sink_probe(
    st: PlatformState,
    tenant_id: Seq<char>,
    secret: Option<Seq<char>>,
) -> SiemProbeView {
    let cfg = shown_siem(st, tenant_id);
    if cfg.enabled {
        siem_probe(cfg.kind, cfg.endpoint, secret)
    } else {
        SiemProbeView::Http(HttpProbeView::Done(no_endpoint()))
    }
}

impl PlatformService {
    fn container_at(&self, tenant_id: &str) -> (r: Option<usize>)
        ensures
            match r {
                Some(i) => i < self.containers.len() && first(self@.containers, container_of(tenant_id@))
                    == Some(self.containers@[i as int]@),
                None => first(self@.containers, container_of(tenant_id@)) is None,
            },
            r is Some <==> any(self@.containers, container_of(tenant_id@)),
    {
        let f = |r: &ContainerConfigRow| -> (b: bool)
            ensures
                b == container_of(tenant_id@)(r@),
            { same(r.tenant_id.as_str(), tenant_id) };
        find_where(&self.containers, f, Ghost(container_of(tenant_id@)))
    }

    pub(crate) fn put_container(&mut self, row: ContainerConfigRow)
        ensures
            final(self)@ == (PlatformState {
                containers: with_container(old(self)@.containers, row@),
                ..old(self)@
            }),
    {
        let tenant_id = row.tenant_id.clone();
        let f = |r: &ContainerConfigRow| -> (b: bool)
            ensures
                b == container_of(tenant_id@)(r@),
            { same(r.tenant_id.as_str(), tenant_id.as_str()) };
        let c = |r: &ContainerConfigRow| -> (y: ContainerConfigRow)
            ensures
                y@ == r@,
            { r.copy() };
        put_row(&mut self.containers, row, f, c, Ghost(container_of(tenant_id@)));
    }

    fn collaboration_at(&self, tenant_id: &str) -> (r: Option<usize>)
        ensures
            match r {
                Some(i) => i < self.collaborations.len() && first(self@.collaborations, collaboration_of(tenant_id@))
                    == Some(self.collaborations@[i as int]@),
                None => first(self@.collaborations, collaboration_of(tenant_id@)) is None,
            },
            r is Some <==> any(self@.collaborations, collaboration_of(tenant_id@)),
    {
        let f = |r: &CollaborationConfigRow| -> (b: bool)
            ensures
                b == collaboration_of(tenant_id@)(r@),
            { same(r.tenant_id.as_str(), tenant_id) };
        find_where(&self.collaborations, f, Ghost(collaboration_of(tenant_id@)))
    }

    pub(crate) fn put_collaboration(&mut self, row: CollaborationConfigRow)
        ensures
            final(self)@ == (PlatformState {
                collaborations: with_collaboration(old(self)@.collaborations, row@),
                ..old(self)@
            }),
    {
        let tenant_id = row.tenant_id.clone();
        let f = |r: &CollaborationConfigRow| -> (b: bool)
            ensures
                b == collaboration_of(tenant_id@)(r@),
            { same(r.tenant_id.as_str(), tenant_id.as_str()) };
        let c = |r: &CollaborationConfigRow| -> (y: CollaborationConfigRow)
            ensures
                y@ == r@,
            { r.copy() };
        put_row(&mut self.collaborations, row, f, c, Ghost(collaboration_of(tenant_id@)));
    }

    fn allowlist_at(&self, tenant_id: &str) -> (r: Option<usize>)
        ensures
            match r {
                Some(i) => i < self.allowlists.len() && first(self@.allowlists, allowlist_of(tenant_id@))
                    == Some(self.allowlists@[i as int]@),
                None => first(self@.allowlists, allowlist_of(tenant_id@)) is None,
            },
            r is Some <==> any(self@.allowlists, allowlist_of(tenant_id@)),
    {
        let f = |r: &IpAllowlistRow| -> (b: bool)
            ensures
                b == allowlist_of(tenant_id@)(r@),
            { same(r.tenant_id.as_str(), tenant_id) };
        find_where(&self.allowlists, f, Ghost(allowlist_of(tenant_id@)))
    }

    pub(crate) fn put_allowlist(&mut self, row: IpAllowlistRow)
        ensures
            final(self)@ == (PlatformState {
                allowlists: with_allowlist(old(self)@.allowlists, row@),
                ..old(self)@
            }),
    {
        let tenant_id = row.tenant_id.clone();
        let f = |r: &IpAllowlistRow| -> (b: bool)
            ensures
                b == allowlist_of(tenant_id@)(r@),
            { same(r.tenant_id.as_str(), tenant_id.as_str()) };
        let c = |r: &IpAllowlistRow| -> (y: IpAllowlistRow)
            ensures
                y@ == r@,
            { r.copy() };
        put_row(&mut self.allowlists, row, f, c, Ghost(allowlist_of(tenant_id@)));
    }

    fn siem_at(&self, tenant_id: &str) -> (r: Option<usize>)
        ensures
            match r {
                Some(i) => i < self.siems.len() && first(self@.siems, siem_of(tenant_id@))
                    == Some(self.siems@[i as int]@),
                None => first(self@.siems, siem_of(tenant_id@)) is None,
            },
            r is Some <==> any(self@.siems, siem_of(tenant_id@)),
    {
        let f = |r: &SiemConfigRow| -> (b: bool)
            ensures
                b == siem_of(tenant_id@)(r@),
            { same(r.tenant_id.as_str(), tenant_id) };
        find_where(&self.siems, f, Ghost(siem_of(tenant_id@)))
    }

    pub(crate) fn put_siem(&mut self, row: SiemConfigRow)
        ensures
            final(self)@ == (PlatformState {
                siems: with_siem(old(self)@.siems, row@),
                ..old(self)@
            }),
    {
        let tenant_id = row.tenant_id.clone();
        let f = |r: &SiemConfigRow| -> (b: bool)
            ensures
                b == siem_of(tenant_id@)(r@),
            { same(r.tenant_id.as_str(), tenant_id.as_str()) };
        let c = |r: &SiemConfigRow| -> (y: SiemConfigRow)
            ensures
                y@ == r@,
            { r.copy() };
        put_row(&mut self.siems, row, f, c, Ghost(siem_of(tenant_id@)));
    }

    pub fn get_container_config(&self, tenant_id: &str) -> (d: ContainerConfigDto)
        ensures
            d@ == shown_container(self@, tenant_id@),
    {
        match self.container_at(tenant_id) {
            Some(i) => {
                let r = &self.containers[i];
                ContainerConfigDto {
                    runtime_kind: clone_opt(&r.runtime_kind),
                    endpoint: clone_opt(&r.endpoint),
                    default_image: clone_opt(&r.default_image),
                    registry: clone_opt(&r.registry),
                    has_registry_secret: r.registry_secret_encrypted.is_some(),
                    enabled: r.enabled,
                    updated_at: Some(r.updated_at),
                }
            },
            None => ContainerConfigDto {
                runtime_kind: None,
                endpoint: None,
                default_image: None,
                registry: None,
                has_registry_secret: false,
                enabled: false,
                updated_at: None,
            },
        }
    }

    /// The stored registry secret, encrypted.
    pub fn container_registry_secret(&self, tenant_id: &str) -> (r: Option<String>)
        ensures
            opt_text(r) == sealed_container(self@, tenant_id@),
    {
        match self.container_at(tenant_id) {
            Some(i) => clone_opt(&self.containers[i].registry_secret_encrypted),
            None => None,
        }
    }

    /// Sets the container runtime settings. `sealed` is the encrypted form of the secret; without
    /// a secret, or with an empty one, the stored secret stays.
    pub fn set_container_config(
        &mut self,
        tenant_id: &str,
        runtime_kind: Option<&str>,
        endpoint: Option<&str>,
        default_image: Option<&str>,
        registry: Option<&str>,
        registry_secret: Option<&str>,
        sealed: &str,
        enabled: bool,
        now: i64,
    ) -> (d: ContainerConfigDto)
        ensures
            container_set(
                old(self)@,
                final(self)@,
                tenant_id@,
                opt_str(runtime_kind),
                opt_str(endpoint),
                opt_str(default_image),
                opt_str(registry),
                opt_str(registry_secret),
                sealed@,
                enabled,
                now,
            ),
            d@ == shown_container(final(self)@, tenant_id@),
    {
        let stored = self.container_registry_secret(tenant_id);
        self.put_container(
            ContainerConfigRow {
                tenant_id: tenant_id.to_owned(),
                runtime_kind: own_opt(runtime_kind),
                endpoint: own_opt(endpoint),
                default_image: own_opt(default_image),
                registry: own_opt(registry),
                registry_secret_encrypted: keep_secret(registry_secret, sealed, stored),
                enabled,
                updated_at: now,
            },
        );
        self.get_container_config(tenant_id)
    }

    /// How the container runtime is probed, with its decrypted secret.
    pub fn probe_container(&self, tenant_id: &str, secret: Option<&str>) -> (r: HttpProbe)
        ensures
            r@ == http_probe(shown_container(self@, tenant_id@).endpoint, opt_str(secret)),
    {
        let cfg = self.get_container_config(tenant_id);
        NoopContainerRuntime.probe(
            ContainerSettings {
                runtime_kind: as_opt_str(&cfg.runtime_kind),
                endpoint: as_opt_str(&cfg.endpoint),
                default_image: as_opt_str(&cfg.default_image),
                registry: as_opt_str(&cfg.registry),
                registry_secret: secret,
            },
        )
    }

    pub fn get_collaboration_config(&self, tenant_id: &str) -> (d: CollaborationConfigDto)
        ensures
            d@ == shown_collaboration(self@, tenant_id@),
    {
        match self.collaboration_at(tenant_id) {
            Some(i) => {
                let r = &self.collaborations[i];
                CollaborationConfigDto {
                    provider: clone_opt(&r.provider),
                    endpoint: clone_opt(&r.endpoint),
                    has_secret: r.secret_encrypted.is_some(),
                    presence: r.presence,
                    enabled: r.enabled,
                    updated_at: Some(r.updated_at),
                }
            },
            None => CollaborationConfigDto {
                provider: None,
                endpoint: None,
                has_secret: false,
                presence: false,
                enabled: false,
                updated_at: None,
            },
        }
    }

    /// The stored collaboration secret, encrypted.
    pub fn collaboration_secret(&self, tenant_id: &str) -> (r: Option<String>)
        ensures
            opt_text(r) == sealed_collaboration(self@, tenant_id@),
    {
        match self.collaboration_at(tenant_id) {
            Some(i) => clone_opt(&self.collaborations[i].secret_encrypted),
            None => None,
        }
    }

    /// Sets the collaboration settings. `sealed` is the encrypted form of the secret; without a
    /// secret, or with an empty one, the stored secret stays.
    pub fn set_collaboration_config(
        &mut self,
        tenant_id: &str,
        provider: Option<&str>,
        endpoint: Option<&str>,
        secret: Option<&str>,
        sealed: &str,
        presence: bool,
        enabled: bool,
        now: i64,
    ) -> (d: CollaborationConfigDto)
        ensures
            collaboration_set(
                old(self)@,
                final(self)@,
                tenant_id@,
                opt_str(provider),
                opt_str(endpoint),
                opt_str(secret),
                sealed@,
                presence,
                enabled,
                now,
            ),
            d@ == shown_collaboration(final(self)@, tenant_id@),
    {
        let stored = self.collaboration_secret(tenant_id);
        self.put_collaboration(
            CollaborationConfigRow {
                tenant_id: tenant_id.to_owned(),
                provider: own_opt(provider),
                endpoint: own_opt(endpoint),
                secret_encrypted: keep_secret(secret, sealed, stored),
                presence,
                enabled,
                updated_at: now,
            },
        );
        self.get_collaboration_config(tenant_id)
    }

    /// How the collaboration backend is probed, with its decrypted secret. What is disabled is not
    /// configured.
    pub fn probe_collaboration(&self, tenant_id: &str, secret: Option<&str>) -> (r: HttpProbe)
        ensures
            r@ == collaboration_probe(self@, tenant_id@, opt_str(secret)),
    {
        let cfg = self.get_collaboration_config(tenant_id);
        let endpoint = if cfg.enabled {
            as_opt_str(&cfg.endpoint)
        } else {
            None
        };
        NoopCollaborationProvider.probe(
            CollaborationSettings {
                provider: as_opt_str(&cfg.provider),
                endpoint,
                secret,
                presence: cfg.presence,
            },
        )
    }

    pub fn get_ip_allowlist(&self, tenant_id: &str) -> (d: IpAllowlistConfigDto)
        ensures
            d@ == shown_allowlist(self@, tenant_id@),
    {
        match self.allowlist_at(tenant_id) {
            Some(i) => IpAllowlistConfigDto {
                cidrs: read_list(&self.allowlists[i].cidrs),
                enabled: self.allowlists[i].enabled,
                updated_at: Some(self.allowlists[i].updated_at),
            },
            None => IpAllowlistConfigDto {
                cidrs: read_list(&None),
                enabled: false,
                updated_at: None,
            },
        }
    }

    pub fn set_ip_allowlist(
        &mut self,
        tenant_id: &str,
        cidrs: &Vec<String>,
        enabled: bool,
        now: i64,
    ) -> (d: IpAllowlistConfigDto)
        ensures
            allowlist_set(
                old(self)@,
                final(self)@,
                tenant_id@,
                texts(cidrs@),
                enabled,
                now,
            ),
            d@ == shown_allowlist(final(self)@, tenant_id@),
    {
        self.put_allowlist(
            IpAllowlistRow {
                tenant_id: tenant_id.to_owned(),
                cidrs: Some(render_texts(cidrs)),
                enabled,
                updated_at: now,
            },
        );
        self.get_ip_allowlist(tenant_id)
    }

    /// Whether an address may reach the group's server. A disabled allowlist lets everyone in.
    pub fn is_ip_allowed(&self, tenant_id: &str, ip: &str) -> (r: bool)
        ensures
            r == lets_in(self@, tenant_id@, ip@),
    {
        let cfg = self.get_ip_allowlist(tenant_id);
        !cfg.enabled || ip_allowed(&cfg.cidrs, ip)
    }

    pub fn get_siem_config(&self, tenant_id: &str) -> (d: SiemConfigDto)
        ensures
            d@ == shown_siem(self@, tenant_id@),
    {
        match self.siem_at(tenant_id) {
            Some(i) => {
                let r = &self.siems[i];
                SiemConfigDto {
                    kind: clone_opt(&r.kind),
                    endpoint: clone_opt(&r.endpoint),
                    has_secret: r.secret_encrypted.is_some(),
                    enabled: r.enabled,
                    updated_at: Some(r.updated_at),
                }
            },
            None => SiemConfigDto {
                kind: None,
                endpoint: None,
                has_secret: false,
                enabled: false,
                updated_at: None,
            },
        }
    }

    /// The stored log export token, encrypted.
    pub fn siem_secret(&self, tenant_id: &str) -> (r: Option<String>)
        ensures
            opt_text(r) == sealed_siem(self@, tenant_id@),
    {
        match self.siem_at(tenant_id) {
            Some(i) => clone_opt(&self.siems[i].secret_encrypted),
            None => None,
        }
    }

    /// Sets the log export settings. `sealed` is the encrypted form of the token; without a token,
    /// or with an empty one, the stored token stays.
    pub fn set_siem_config(
        &mut self,
        tenant_id: &str,
        kind: Option<&str>,
        endpoint: Option<&str>,
        secret: Option<&str>,
        sealed: &str,
        enabled: bool,
        now: i64,
    ) -> (d: SiemConfigDto)
        ensures
            siem_set(
                old(self)@,
                final(self)@,
                tenant_id@,
                opt_str(kind),
                opt_str(endpoint),
                opt_str(secret),
                sealed@,
                enabled,
                now,
            ),
            d@ == shown_siem(final(self)@, tenant_id@),
    {
        let stored = self.siem_secret(tenant_id);
        self.put_siem(
            SiemConfigRow {
                tenant_id: tenant_id.to_owned(),
                kind: own_opt(kind),
                endpoint: own_opt(endpoint),
                secret_encrypted: keep_secret(secret, sealed, stored),
                enabled,
                updated_at: now,
            },
        );
        self.get_siem_config(tenant_id)
    }

    /// How the log export is probed, with its decrypted token: over TCP for `syslog`, else over
    /// HTTP. What is disabled is not configured.
    pub fn probe_siem(&self, tenant_id: &str, secret: Option<&str>) -> (r: SiemProbe)
        ensures
            r@ == sink_probe(self@, tenant_id@, opt_str(secret)),
    {
        let cfg = self.get_siem_config(tenant_id);
        if !cfg.enabled {
            return SiemProbe::Http(probe_http_endpoint(None, secret));
        }
        NoopSiemExporter.probe(
            SiemSettings {
                kind: as_opt_str(&cfg.kind),
                endpoint: as_opt_str(&cfg.endpoint),
                secret,
            },
        )
    }
}

} // verus!
