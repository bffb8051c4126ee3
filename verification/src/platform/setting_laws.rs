//! What was set is what is read, and probes ask for what was set.
use crate::http::{filled, HttpReplyView};
use crate::json::texts_json;
use crate::platform::error::PlatformErrorView;
use crate::platform::http_probe::{
    http_probe, http_report, local_socket, probe_url, tcp_target, HttpProbeView, ProbeRequestView,
};
use crate::platform::ip_allowlist::{covers, list_covers};
use crate::platform::models::{
    CollaborationConfigRowView, ContainerConfigRowView, IpAllowlistRowView, SecurityPolicyDtoView,
    SiemConfigRowView,
};
use crate::platform::policy::{
    policy_of, policy_read_back, policy_row, policy_set, preset, shown_policy, tier_applied,
};
use crate::platform::service::PlatformState;
use crate::platform::settings::{
    allowlist_of, allowlist_read_back, allowlist_set, collaboration_of, collaboration_probe,
    collaboration_read_back, collaboration_set, container_of, container_read_back, container_set,
    lets_in, sealed_collaboration, sealed_container, sealed_siem, shown_allowlist,
    shown_collaboration, shown_container, shown_siem, siem_of, siem_read_back, siem_set, sink_probe,
    with_allowlist, with_collaboration, with_container, with_siem,
};
use crate::platform::siem::SiemProbeView;
use crate::table::lemma_first;
use crate::text::{lowered, trimmed_text};
use vstd::prelude::*;

verus! {

/// What was set up for containers is what is read: a new secret replaces the kept one, and without
/// one the kept one stays. Other groups and other settings are as before.
pub proof fn container_setting_is_read_back(
    before: PlatformState,
    after: PlatformState,
    tenant_id: Seq<char>,
    runtime_kind: Option<Seq<char>>,
    endpoint: Option<Seq<char>>,
    default_image: Option<Seq<char>>,
    registry: Option<Seq<char>>,
    registry_secret: Option<Seq<char>>,
    sealed: Seq<char>,
    enabled: bool,
    now: i64,
    other: Seq<char>,
)
    requires
        container_set(
            before,
            after,
            tenant_id,
            runtime_kind,
            endpoint,
            default_image,
            registry,
            registry_secret,
            sealed,
            enabled,
            now,
        ),
    ensures
        ({
            let d = shown_container(after, tenant_id);
            &&& d.runtime_kind == runtime_kind
            &&& d.endpoint == endpoint
            &&& d.default_image == default_image
            &&& d.registry == registry
            &&& d.enabled == enabled
            &&& d.updated_at == Some(now)
            &&& d.has_registry_secret <==> sealed_container(after, tenant_id) is Some
        }),
        sealed_container(after, tenant_id) == if registry_secret is Some && registry_secret->0.len()
            > 0 {
            Some(sealed)
        } else {
            sealed_container(before, tenant_id)
        },
        other != tenant_id ==> shown_container(after, other) == shown_container(before, other)
            && sealed_container(after, other) == sealed_container(before, other),
        after == (PlatformState { containers: after.containers, ..before }),
{
    let row = choose|row: ContainerConfigRowView|
        row.tenant_id == tenant_id && #[trigger] with_container(
            before.containers,
            row,
        ) == after.containers && row.runtime_kind == runtime_kind && row.endpoint == endpoint
            && row.default_image == default_image && row.registry == registry && row.enabled
            == enabled && row.updated_at == now && row.registry_secret_encrypted == if
            registry_secret is Some && registry_secret->0.len() > 0 {
            Some(sealed)
        } else {
            sealed_container(before, tenant_id)
        };
    container_read_back(before.containers, row, other);
}

/// What was set up for collaboration is what is read: a new secret replaces the kept one, and
/// without one the kept one stays. Other groups and other settings are as before.
pub proof fn collaboration_setting_is_read_back(
    before: PlatformState,
    after: PlatformState,
    tenant_id: Seq<char>,
    provider: Option<Seq<char>>,
    endpoint: Option<Seq<char>>,
    secret: Option<Seq<char>>,
    sealed: Seq<char>,
    presence: bool,
    enabled: bool,
    now: i64,
    other: Seq<char>,
)
    requires
        collaboration_set(
            before,
            after,
            tenant_id,
            provider,
            endpoint,
            secret,
            sealed,
            presence,
            enabled,
            now,
        ),
    ensures
        ({
            let d = shown_collaboration(after, tenant_id);
            &&& d.provider == provider
            &&& d.endpoint == endpoint
            &&& d.presence == presence
            &&& d.enabled == enabled
            &&& d.updated_at == Some(now)
            &&& d.has_secret <==> sealed_collaboration(after, tenant_id) is Some
        }),
        sealed_collaboration(after, tenant_id) == if secret is Some && secret->0.len() > 0 {
            Some(sealed)
        } else {
            sealed_collaboration(before, tenant_id)
        },
        other != tenant_id ==> shown_collaboration(after, other) == shown_collaboration(
            before,
            other,
        ) && sealed_collaboration(after, other) == sealed_collaboration(before, other),
        after == (PlatformState { collaborations: after.collaborations, ..before }),
{
    let row = choose|row: CollaborationConfigRowView|
        row.tenant_id == tenant_id && #[trigger] with_collaboration(
            before.collaborations,
            row,
        ) == after.collaborations && row.provider == provider && row.endpoint == endpoint
            && row.presence == presence && row.enabled == enabled && row.updated_at == now
            && row.secret_encrypted == if secret is Some && secret->0.len() > 0 {
            Some(sealed)
        } else {
            sealed_collaboration(before, tenant_id)
        };
    collaboration_read_back(before.collaborations, row, other);
}

/// What was set up for the export of events is what is read: a new secret replaces the kept one,
/// and without one the kept one stays. Other groups and other settings are as before.
pub proof fn siem_setting_is_read_back(
    before: PlatformState,
    after: PlatformState,
    tenant_id: Seq<char>,
    kind: Option<Seq<char>>,
    endpoint: Option<Seq<char>>,
    secret: Option<Seq<char>>,
    sealed: Seq<char>,
    enabled: bool,
    now: i64,
    other: Seq<char>,
)
    requires
        siem_set(before, after, tenant_id, kind, endpoint, secret, sealed, enabled, now),
    ensures
        ({
            let d = shown_siem(after, tenant_id);
            &&& d.kind == kind
            &&& d.endpoint == endpoint
            &&& d.enabled == enabled
            &&& d.updated_at == Some(now)
            &&& d.has_secret <==> sealed_siem(after, tenant_id) is Some
        }),
        sealed_siem(after, tenant_id) == if secret is Some && secret->0.len() > 0 {
            Some(sealed)
        } else {
            sealed_siem(before, tenant_id)
        },
        other != tenant_id ==> shown_siem(after, other) == shown_siem(before, other) && sealed_siem(
            after,
            other,
        ) == sealed_siem(before, other),
        after == (PlatformState { siems: after.siems, ..before }),
{
    let row = choose|row: SiemConfigRowView|
        row.tenant_id == tenant_id && #[trigger] with_siem(
            before.siems,
            row,
        ) == after.siems && row.kind == kind && row.endpoint == endpoint && row.enabled == enabled
            && row.updated_at == now && row.secret_encrypted == if secret is Some && secret->0.len()
            > 0 {
            Some(sealed)
        } else {
            sealed_siem(before, tenant_id)
        };
    siem_read_back(before.siems, row, other);
}

/// The list of addresses that was set is the one that is read, and the one that decides who is let
/// in: everyone while it is disabled, else who an entry covers.
pub proof fn allowlist_setting_decides(
    before: PlatformState,
    after: PlatformState,
    tenant_id: Seq<char>,
    cidrs: Seq<Seq<char>>,
    enabled: bool,
    now: i64,
    other: Seq<char>,
    ip: Seq<char>,
)
    requires
        allowlist_set(before, after, tenant_id, cidrs, enabled, now),
    ensures
        trimmed_text(texts_json(cidrs)).len() > 0 ==> shown_allowlist(after, tenant_id).cidrs
            == cidrs,
        shown_allowlist(after, tenant_id).enabled == enabled,
        shown_allowlist(after, tenant_id).updated_at == Some(now),
        !enabled ==> lets_in(after, tenant_id, ip),
        enabled && trimmed_text(texts_json(cidrs)).len() > 0 ==> (lets_in(after, tenant_id, ip)
            <==> exists|i: int|
            0 <= i < cidrs.len() && covers(trimmed_text(#[trigger] cidrs[i]), trimmed_text(ip))),
        other != tenant_id ==> shown_allowlist(after, other) == shown_allowlist(before, other)
            && lets_in(after, other, ip) == lets_in(before, other, ip),
        after == (PlatformState { allowlists: after.allowlists, ..before }),
{
    let row = choose|row: IpAllowlistRowView|
        row.tenant_id == tenant_id && #[trigger] with_allowlist(
            before.allowlists,
            row,
        ) == after.allowlists && row.cidrs == Some(texts_json(cidrs)) && row.enabled
            == enabled && row.updated_at == now;
    allowlist_read_back(before.allowlists, row, other);
}

/// A group that set nothing up has everything off, and lets everyone in.
pub proof fn nothing_set_is_off(st: PlatformState, tenant_id: Seq<char>, ip: Seq<char>)
    requires
        forall|i: int|
            0 <= i < st.containers.len() ==> (#[trigger] st.containers[i]).tenant_id != tenant_id,
        forall|i: int|
            0 <= i < st.collaborations.len() ==> (#[trigger] st.collaborations[i]).tenant_id
                != tenant_id,
        forall|i: int| 0 <= i < st.siems.len() ==> (#[trigger] st.siems[i]).tenant_id != tenant_id,
        forall|i: int|
            0 <= i < st.allowlists.len() ==> (#[trigger] st.allowlists[i]).tenant_id != tenant_id,
        forall|i: int|
            0 <= i < st.policies.len() ==> (#[trigger] st.policies[i]).tenant_id != tenant_id,
    ensures
        !shown_container(st, tenant_id).enabled && shown_container(st, tenant_id).endpoint is None,
        !shown_collaboration(st, tenant_id).enabled && !shown_collaboration(st, tenant_id).presence
            && shown_collaboration(st, tenant_id).endpoint is None,
        !shown_siem(st, tenant_id).enabled && shown_siem(st, tenant_id).endpoint is None,
        !shown_container(st, tenant_id).has_registry_secret,
        !shown_collaboration(st, tenant_id).has_secret,
        !shown_siem(st, tenant_id).has_secret,
        shown_allowlist(st, tenant_id).cidrs.len() == 0 && !shown_allowlist(st, tenant_id).enabled,
        lets_in(st, tenant_id, ip),
        shown_policy(st, tenant_id).tier == "relaxed"@,
        shown_policy(st, tenant_id).updated_at is None,
{
    lemma_first(st.containers, container_of(tenant_id));
    lemma_first(st.collaborations, collaboration_of(tenant_id));
    lemma_first(st.siems, siem_of(tenant_id));
    lemma_first(st.allowlists, allowlist_of(tenant_id));
    lemma_first(st.policies, policy_of(tenant_id));
}

/// The three tiers of policy: relaxed asks for nothing, standard for approvals and a limit, strict
/// for everything and a lower limit. There is no other.
pub proof fn tiers_grow_stricter(tier: Seq<char>)
    ensures
        preset(tier) is Some <==> tier == "relaxed"@ || tier == "standard"@ || tier == "strict"@,
        ({
            let p = preset("relaxed"@)->0;
            &&& !p.terminal_tools_require_approval && !p.destructive_commands_blocked
            &&& p.blocked_command_patterns.len() == 0
            &&& !p.external_network_denied_by_default
            &&& !p.message_scan_enabled && !p.message_redact_enabled
            &&& p.send_rate_limit_per_minute is None
        }),
        ({
            let p = preset("standard"@)->0;
            &&& p.terminal_tools_require_approval && p.destructive_commands_blocked
            &&& p.blocked_command_patterns == seq![
                "rm -rf"@,
                "shutdown"@,
                "mkfs"@,
                "sudo"@,
                "kubectl delete"@,
            ]
            &&& !p.external_network_denied_by_default
            &&& !p.message_scan_enabled && !p.message_redact_enabled
            &&& p.send_rate_limit_per_minute == Some(30i64)
        }),
        ({
            let p = preset("strict"@)->0;
            &&& p.terminal_tools_require_approval && p.destructive_commands_blocked
            &&& p.blocked_command_patterns == preset("standard"@)->0.blocked_command_patterns
            &&& p.external_network_denied_by_default
            &&& p.message_scan_enabled && p.message_redact_enabled
            &&& p.send_rate_limit_per_minute == Some(20i64)
        }),
        preset(tier) matches Some(p) ==> p.tier == tier && p.updated_at is None,
{
    reveal_strlit("relaxed");
    reveal_strlit("standard");
    reveal_strlit("strict");
    assert("relaxed"@.len() == 7 && "standard"@.len() == 8 && "strict"@.len() == 6);
}

/// A policy that was set by hand is read back as it was set, as a custom one; other groups keep
/// theirs.
pub proof fn policy_setting_is_read_back(
    before: PlatformState,
    after: PlatformState,
    tenant_id: Seq<char>,
    terminal_tools_require_approval: bool,
    destructive_commands_blocked: bool,
    blocked_command_patterns: Seq<Seq<char>>,
    external_network_denied_by_default: bool,
    message_scan_enabled: bool,
    message_redact_enabled: bool,
    send_rate_limit_per_minute: Option<i64>,
    now: i64,
    d: SecurityPolicyDtoView,
    other: Seq<char>,
)
    requires
        policy_set(
            before,
            after,
            tenant_id,
            terminal_tools_require_approval,
            destructive_commands_blocked,
            blocked_command_patterns,
            external_network_denied_by_default,
            message_scan_enabled,
            message_redact_enabled,
            send_rate_limit_per_minute,
            now,
            d,
        ),
    ensures
        shown_policy(after, tenant_id) == d,
        d.tier == "custom"@,
        d.terminal_tools_require_approval == terminal_tools_require_approval,
        d.destructive_commands_blocked == destructive_commands_blocked,
        d.blocked_command_patterns == blocked_command_patterns,
        d.external_network_denied_by_default == external_network_denied_by_default,
        d.message_scan_enabled == message_scan_enabled,
        d.message_redact_enabled == message_redact_enabled,
        d.send_rate_limit_per_minute == send_rate_limit_per_minute,
        d.updated_at == Some(now),
        other != tenant_id ==> shown_policy(after, other) == shown_policy(before, other),
        after == (PlatformState { policies: after.policies, ..before }),
{
    policy_read_back(before.policies, policy_row(tenant_id, d, now));
}

/// A tier that was chosen is read back; an unknown one is refused and changes nothing.
pub proof fn tier_choice_is_read_back(
    before: PlatformState,
    after: PlatformState,
    tenant_id: Seq<char>,
    tier: Seq<char>,
    now: i64,
    r: Result<SecurityPolicyDtoView, PlatformErrorView>,
    other: Seq<char>,
)
    requires
        tier_applied(before, after, tenant_id, tier, now, r),
    ensures
        r is Ok <==> tier == "relaxed"@ || tier == "standard"@ || tier == "strict"@,
        r matches Ok(d) ==> shown_policy(after, tenant_id) == d && d.tier == tier && d.updated_at
            == Some(now),
        r is Err ==> after == before && r->Err_0 is BadRequest,
        other != tenant_id ==> shown_policy(after, other) == shown_policy(before, other),
        after == (PlatformState { policies: after.policies, ..before }),
{
    tiers_grow_stricter(tier);
    if let Some(p) = preset(tier) {
        policy_read_back(before.policies, policy_row(tenant_id, p, now));
    }
}

/// An address for a probe keeps its scheme, a socket's being that of the page it is opened from,
/// and gets the plain one where it has none.
pub proof fn probe_address_gets_a_scheme(rest: Seq<char>)
    ensures
        probe_url("http://"@ + rest) == "http://"@ + rest,
        probe_url("https://"@ + rest) == "https://"@ + rest,
        probe_url("ws://"@ + rest) == "http://"@ + rest,
        probe_url("wss://"@ + rest) == "https://"@ + rest,
        rest.len() > 0 && rest[0] != 'h' && rest[0] != 'w' ==> probe_url(rest) == "http://"@ + rest,
{
    reveal_strlit("http://");
    reveal_strlit("https://");
    reveal_strlit("ws://");
    reveal_strlit("wss://");
    let http = "http://"@ + rest;
    let https = "https://"@ + rest;
    let ws = "ws://"@ + rest;
    let wss = "wss://"@ + rest;
    assert(http.take(7) =~= "http://"@);
    assert(https.take(8) =~= "https://"@);
    assert(ws.take(5) =~= "ws://"@);
    assert(wss.take(6) =~= "wss://"@);
    assert(ws.skip(5) =~= rest);
    assert(wss.skip(6) =~= rest);
    assert("wss://"@[0] == 'w' && "ws://"@[0] == 'w' && "http://"@[0] == 'h' && "https://"@[0]
        == 'h');
    assert(http.take(5)[0] == 'h' && http.take(6)[0] == 'h');
    assert(https.take(5)[0] == 'h' && https.take(6)[0] == 'h');
    assert("wss://"@[2] == 's' && "ws://"@[2] == ':');
    if ws.len() >= 6 {
        assert(ws.take(6)[2] == ':');
    }
    if rest.len() > 0 && rest[0] != 'h' && rest[0] != 'w' {
        if rest.len() >= 5 {
            assert(rest.take(5)[0] == rest[0]);
        }
        if rest.len() >= 6 {
            assert(rest.take(6)[0] == rest[0]);
        }
        if rest.len() >= 7 {
            assert(rest.take(7)[0] == rest[0]);
        }
        if rest.len() >= 8 {
            assert(rest.take(8)[0] == rest[0]);
        }
    }
}

/// A probe asks the address that was given with the secret that was given; without an address it
/// asks nothing, and a socket of the machine itself is refused.
pub proof fn probe_asks_the_endpoint(endpoint: Option<Seq<char>>, secret: Option<Seq<char>>)
    ensures
        filled(endpoint) is None ==> (http_probe(endpoint, secret) matches HttpProbeView::Done(
            report,
        ) && report.status == "not_configured"@),
        filled(endpoint) matches Some(raw) ==> if local_socket(raw) {
            http_probe(endpoint, secret) matches HttpProbeView::Done(report) && report.status
                == "error"@
        } else {
            http_probe(endpoint, secret) == HttpProbeView::Get(
                ProbeRequestView { url: probe_url(raw), bearer: filled(secret) },
            )
        },
{
}

/// A service is reached where it answers with success, or that it wants a sign-in or does not know
/// the page.
pub proof fn answer_tells_whether_it_is_reached(url: Seq<char>, code: u16, why: Seq<char>)
    ensures
        http_report(url, HttpReplyView::Status(code)).status == if (200 <= code && code <= 299)
            || code == 401 || code == 403 || code == 404 {
            "ok"@
        } else {
            "error"@
        },
        http_report(url, HttpReplyView::Failed(why)).status == "error"@,
        http_report(url, HttpReplyView::Failed(why)).message == "Could not reach "@ + url + ": "@
            + why,
        http_report(url, HttpReplyView::NoClient(why)).status == "error"@,
{
}

/// A disabled service is not probed; an enabled one is probed at its endpoint, a log sink of the
/// old kind over a plain connection at its usual port.
pub proof fn enabled_services_are_probed(
    st: PlatformState,
    tenant_id: Seq<char>,
    secret: Option<Seq<char>>,
)
    ensures
        !shown_collaboration(st, tenant_id).enabled ==> (collaboration_probe(
            st,
            tenant_id,
            secret,
        ) matches HttpProbeView::Done(report) && report.status == "not_configured"@),
        shown_collaboration(st, tenant_id).enabled ==> collaboration_probe(st, tenant_id, secret)
            == http_probe(shown_collaboration(st, tenant_id).endpoint, secret),
        !shown_siem(st, tenant_id).enabled ==> (sink_probe(
            st,
            tenant_id,
            secret,
        ) matches SiemProbeView::Http(HttpProbeView::Done(report)) && report.status
            == "not_configured"@),
        shown_siem(st, tenant_id).enabled ==> {
            let cfg = shown_siem(st, tenant_id);
            if cfg.kind is Some && lowered(cfg.kind->0) == "syslog"@ {
                filled(cfg.endpoint) matches Some(raw) ==> sink_probe(st, tenant_id, secret)
                    == SiemProbeView::Tcp(tcp_target(raw, 514))
            } else {
                sink_probe(st, tenant_id, secret) == SiemProbeView::Http(
                    http_probe(cfg.endpoint, secret),
                )
            }
        },
{
}

/// An entry of a list that covers an address lets it in, and a longer list lets in no fewer.
pub proof fn longer_list_lets_in_more(
    entries: Seq<Seq<char>>,
    entry: Seq<char>,
    ip: Seq<char>,
)
    ensures
        !list_covers(Seq::empty(), ip),
        list_covers(entries.push(entry), ip) <==> list_covers(entries, ip) || covers(
            trimmed_text(entry),
            trimmed_text(ip),
        ),
{
    let more = entries.push(entry);
    assert(more[entries.len() as int] == entry);
    if list_covers(entries, ip) {
        let i = choose|i: int|
            0 <= i < entries.len() && covers(trimmed_text(#[trigger] entries[i]), trimmed_text(ip));
        assert(more[i] == entries[i]);
    }
    if list_covers(more, ip) {
        let i = choose|i: int|
            0 <= i < more.len() && covers(trimmed_text(#[trigger] more[i]), trimmed_text(ip));
        if i < entries.len() {
            assert(more[i] == entries[i]);
        }
    }
}

} // verus!
