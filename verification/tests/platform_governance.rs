//! Settings, grants, scenes, policy, keys and messages.
use dream_domain::http::HttpReply;
use dream_domain::org::models::{ActiveTenantRow, DepartmentRow, UserOrgRow};
use dream_domain::platform::api_keys::{api_key_path_allowed, ApiKeyAuthOutcome};
use dream_domain::platform::collaboration::CollaborationStatus;
use dream_domain::platform::container::ContainerStatus;
use dream_domain::platform::error::PlatformError;
use dream_domain::platform::grants::GRANT_ALL_RESOURCES;
use dream_domain::platform::http_probe::{
    http_probe_result, normalize_probe_url, probe_http_endpoint, probe_tcp_host, tcp_probe_result,
    HttpProbe, TcpReply, TcpTarget,
};
use dream_domain::platform::ip_allowlist::{
    cidr_contains, exact_match, ip_allowed, parse_v4, parse_v6,
};
use dream_domain::platform::policy::{default_policy_template_tier, security_policy_preset};
use dream_domain::platform::rbac::{GovernanceCaller, RequirePlatformAdmin, RequirePlatformMember};
use dream_domain::platform::service::PlatformService;
use dream_domain::platform::siem::{SiemProbe, SiemStatus};
use std::collections::HashSet;

fn setup() -> PlatformService {
    PlatformService::new()
}

fn seed_membership(service: &mut PlatformService, user_id: &str, tenant_id: &str, role: &str) {
    service.members.push(UserOrgRow {
        user_id: user_id.to_owned(),
        tenant_id: tenant_id.to_owned(),
        role: role.to_owned(),
        display_name: None,
        org_unit_path: None,
        job_title: None,
        org_profile_source: None,
        org_profile_synced_at: None,
        department_id: None,
        created_at: 0,
        updated_at: 0,
    });
}

fn seed_department(service: &mut PlatformService, tenant_id: &str, id: &str, parent_id: Option<&str>, name: &str) {
    service.departments.push(DepartmentRow {
        id: id.to_owned(),
        tenant_id: tenant_id.to_owned(),
        parent_id: parent_id.map(str::to_owned),
        name: name.to_owned(),
        source: None,
        directory_external_id: None,
        directory_map_root_external_id: None,
        created_at: 0,
        updated_at: 0,
    });
}

fn assign_department(service: &mut PlatformService, user_id: &str, tenant_id: &str, department_id: &str) {
    for m in service.members.iter_mut() {
        if m.user_id == user_id && m.tenant_id == tenant_id {
            m.department_id = Some(department_id.to_owned());
        }
    }
}

fn known(probe: HttpProbe) -> String {
    match probe {
        HttpProbe::Done(report) => report.status,
        HttpProbe::Get(request) => panic!("asked {request:?}"),
    }
}

fn ids(stem: &str) -> Vec<String> {
    (0..5).map(|i| format!("{stem}_{i}")).collect()
}

fn list(texts: &[&str]) -> Vec<String> {
    texts.iter().map(|t| (*t).to_owned()).collect()
}

fn user_of(outcome: ApiKeyAuthOutcome) -> Option<String> {
    match outcome {
        ApiKeyAuthOutcome::Authenticated { user_id } => Some(user_id),
        _ => None,
    }
}

#[test]
fn personal_edition_has_no_membership_and_is_gated() {
    let service = setup();
    assert!(service.resolve_actor("nobody").is_none());
    assert_eq!(service.require_admin("nobody").unwrap_err().code(), "NOT_IN_ENTERPRISE");
}

#[test]
fn admin_gate_accepts_admin_rejects_member() {
    let mut service = setup();
    seed_membership(&mut service, "admin1", "t1", "org_admin");
    seed_membership(&mut service, "member1", "t1", "member");
    assert_eq!(service.require_admin("admin1").unwrap().tenant_id, "t1");
    assert_eq!(service.require_admin("member1").unwrap_err().code(), "FORBIDDEN");
}

#[test]
fn container_config_roundtrips_redacts_and_stubs_probe() {
    let mut service = setup();
    let cfg = service.get_container_config("t1");
    assert!(!cfg.enabled && !cfg.has_registry_secret);

    let saved = service.set_container_config(
        "t1",
        Some("docker"),
        Some("unix:///var/run/docker.sock"),
        Some("ghcr.io/acme/agent:latest"),
        Some("ghcr.io"),
        Some("reg_secret"),
        "sealed(reg_secret)",
        true,
        1,
    );
    assert_eq!(saved.runtime_kind.as_deref(), Some("docker"));
    assert!(saved.has_registry_secret);
    assert!(!format!("{saved:?}").contains("reg_secret"));

    let updated = service.set_container_config(
        "t1",
        Some("docker"),
        None,
        None,
        Some("ghcr.io"),
        None,
        "sealed()",
        false,
        2,
    );
    assert!(updated.has_registry_secret && !updated.enabled);
    assert_eq!(
        service.container_registry_secret("t1").as_deref(),
        Some("sealed(reg_secret)")
    );

    assert_eq!(known(service.probe_container("t1", Some("reg_secret"))), "not_configured");
}

#[test]
fn collaboration_config_roundtrips_redacts_and_stubs_probe() {
    let mut service = setup();
    let cfg = service.get_collaboration_config("t1");
    assert!(!cfg.enabled && !cfg.has_secret && !cfg.presence);

    let saved = service.set_collaboration_config(
        "t1",
        Some("external"),
        Some("wss://collab.acme.com"),
        Some("relay_tok"),
        "sealed(relay_tok)",
        true,
        true,
        1,
    );
    assert_eq!(saved.provider.as_deref(), Some("external"));
    assert!(saved.has_secret && saved.presence);
    assert!(!format!("{saved:?}").contains("relay_tok"));

    let updated = service.set_collaboration_config(
        "t1",
        Some("external"),
        Some("wss://collab.acme.com"),
        None,
        "sealed()",
        false,
        false,
        2,
    );
    assert!(updated.has_secret && !updated.presence && !updated.enabled);
    assert_eq!(service.collaboration_secret("t1").as_deref(), Some("sealed(relay_tok)"));

    assert_eq!(known(service.probe_collaboration("t1", Some("relay_tok"))), "not_configured");
}

#[test]
fn ip_allowlist_roundtrips_and_enforces_when_enabled() {
    let mut service = setup();
    assert!(service.is_ip_allowed("t1", "8.8.8.8"));

    let saved = service.set_ip_allowlist("t1", &list(&["10.0.0.0/8", "192.168.1.5"]), true, 1);
    assert_eq!(saved.cidrs.len(), 2);
    assert!(saved.enabled);

    assert!(service.is_ip_allowed("t1", "10.3.4.5"));
    assert!(service.is_ip_allowed("t1", "192.168.1.5"));
    assert!(!service.is_ip_allowed("t1", "8.8.8.8"));

    service.set_ip_allowlist("t1", &list(&["10.0.0.0/8"]), false, 2);
    assert!(service.is_ip_allowed("t1", "8.8.8.8"));
}

#[test]
fn siem_config_roundtrips_redacts_and_stubs_probe() {
    let mut service = setup();
    let cfg = service.get_siem_config("t1");
    assert!(!cfg.enabled && !cfg.has_secret);

    let saved = service.set_siem_config(
        "t1",
        Some("splunk"),
        Some("https://splunk.acme.com:8088"),
        Some("hec_token"),
        "sealed(hec_token)",
        true,
        1,
    );
    assert_eq!(saved.kind.as_deref(), Some("splunk"));
    assert!(saved.has_secret);
    assert!(!format!("{saved:?}").contains("hec_token"));

    let updated = service.set_siem_config(
        "t1",
        Some("splunk"),
        Some("https://splunk.acme.com:8088"),
        None,
        "sealed()",
        false,
        2,
    );
    assert!(updated.has_secret && !updated.enabled);
    assert_eq!(service.siem_secret("t1").as_deref(), Some("sealed(hec_token)"));

    match service.probe_siem("t1", Some("hec_token")) {
        SiemProbe::Http(probe) => assert_eq!(known(probe), "not_configured"),
        SiemProbe::Tcp(target) => panic!("connected to {target:?}"),
    }
}

#[test]
fn grant_resource_is_idempotent_and_lists() {
    let mut service = setup();
    let first = service
        .grant_resource("g1".to_owned(), "t1", "member", "alice", "skill", "sk_1", "admin1", 1)
        .unwrap();
    let second = service
        .grant_resource("g2".to_owned(), "t1", "member", "alice", "skill", "sk_1", "admin1", 2)
        .unwrap();
    assert_eq!(first.id, second.id, "re-granting the same tuple must not duplicate it");

    let grants = service.list_grants("t1", None, None, None);
    assert_eq!(grants.len(), 1);
    assert_eq!(grants[0].resource_id, "sk_1");
    assert_eq!(grants[0].granted_by, "admin1");
}

#[test]
fn knowledge_is_a_valid_grant_resource_type() {
    let mut service = setup();
    let grant = service
        .grant_resource("g1".to_owned(), "t1", "member", "alice", "knowledge", "doc_1", "admin1", 1)
        .unwrap();
    assert_eq!(grant.resource_type, "knowledge");
}

#[test]
fn grant_resource_rejects_unknown_kinds() {
    let mut service = setup();
    assert_eq!(
        service
            .grant_resource("g1".to_owned(), "t1", "robot", "alice", "skill", "sk_1", "admin1", 1)
            .unwrap_err()
            .code(),
        "BAD_REQUEST"
    );
    assert_eq!(
        service
            .grant_resource("g1".to_owned(), "t1", "member", "alice", "spaceship", "sk_1", "admin1", 1)
            .unwrap_err()
            .code(),
        "BAD_REQUEST"
    );
}

#[test]
fn grant_resource_rejects_employee_with_a_distinct_message() {
    let mut service = setup();
    let err = service
        .grant_resource("g1".to_owned(), "t1", "member", "alice", "employee", "emp_1", "admin1", 1)
        .unwrap_err();
    assert_eq!(err.code(), "BAD_REQUEST");
    assert_eq!(
        err.message(),
        "Bad request: resource type 'employee' is not supported yet"
    );
    assert_ne!(
        err.message(),
        "Bad request: unknown resource type 'employee'",
        "employee must not be reported as merely unknown"
    );
    assert!(service.list_grants("t1", None, None, None).is_empty());

    for resource_type in ["skill", "mcp", "knowledge", "model_channel"] {
        service
            .grant_resource(format!("g_{resource_type}"), "t1", "member", "alice", resource_type, "res_1", "admin1", 1)
            .unwrap_or_else(|e| panic!("{resource_type} must still be grantable: {e:?}"));
    }
}

#[test]
fn revoke_resource_removes_it_and_404s_on_a_second_attempt() {
    let mut service = setup();
    let grant = service
        .grant_resource("g1".to_owned(), "t1", "member", "alice", "mcp", "mcp_1", "admin1", 1)
        .unwrap();

    service.revoke_resource("t1", &grant.id).unwrap();
    assert!(service.list_grants("t1", None, None, None).is_empty());

    assert_eq!(service.revoke_resource("t1", &grant.id).unwrap_err().code(), "NOT_FOUND");
}

#[test]
fn revoke_resource_is_scoped_to_tenant() {
    let mut service = setup();
    let grant = service
        .grant_resource("g1".to_owned(), "t1", "member", "alice", "mcp", "mcp_1", "admin1", 1)
        .unwrap();
    assert_eq!(service.revoke_resource("t2", &grant.id).unwrap_err().code(), "NOT_FOUND");
    assert_eq!(service.list_grants("t1", None, None, None).len(), 1);
}

#[test]
fn effective_resource_ids_resolves_a_direct_member_grant() {
    let mut service = setup();
    seed_membership(&mut service, "alice", "t1", "member");
    service
        .grant_resource("g1".to_owned(), "t1", "member", "alice", "model_channel", "ch_1", "admin1", 1)
        .unwrap();

    let effective = service.effective_resource_ids("t1", "alice", "model_channel").unwrap();
    assert!(!effective.all);
    assert_eq!(effective.resource_ids, vec!["ch_1".to_owned()]);

    let none = service.effective_resource_ids("t1", "alice", "skill").unwrap();
    assert!(!none.all && none.resource_ids.is_empty());
}

#[test]
fn effective_resource_ids_resolves_through_department_ancestry() {
    let mut service = setup();
    seed_membership(&mut service, "alice", "t1", "member");
    seed_department(&mut service, "t1", "d_company", None, "总公司");
    seed_department(&mut service, "t1", "d_eng", Some("d_company"), "研发中心");
    seed_department(&mut service, "t1", "d_backend", Some("d_eng"), "后端组");
    assign_department(&mut service, "alice", "t1", "d_backend");

    service
        .grant_resource("g1".to_owned(), "t1", "department", "d_company", "skill", "sk_1", "admin1", 1)
        .unwrap();

    let effective = service.effective_resource_ids("t1", "alice", "skill").unwrap();
    assert!(!effective.all);
    assert_eq!(effective.resource_ids, vec!["sk_1".to_owned()]);

    seed_membership(&mut service, "bob", "t1", "member");
    seed_department(&mut service, "t1", "d_sales", None, "销售部");
    assign_department(&mut service, "bob", "t1", "d_sales");
    let bob_view = service.effective_resource_ids("t1", "bob", "skill").unwrap();
    assert!(bob_view.resource_ids.is_empty());
    assert_eq!(service.department_ancestry("t1", "alice"), vec!["d_backend", "d_eng", "d_company"]);
}

#[test]
fn effective_resource_ids_wildcard_short_circuits_the_explicit_list() {
    let mut service = setup();
    seed_membership(&mut service, "alice", "t1", "member");
    service
        .grant_resource("g1".to_owned(), "t1", "member", "alice", "skill", "sk_1", "admin1", 1)
        .unwrap();
    service
        .grant_resource("g2".to_owned(), "t1", "member", "alice", "skill", GRANT_ALL_RESOURCES, "admin1", 2)
        .unwrap();

    let effective = service.effective_resource_ids("t1", "alice", "skill").unwrap();
    assert!(effective.all, "a wildcard grant means every resource of this type");
    assert!(
        effective.resource_ids.is_empty(),
        "the explicit list is moot once `all` is true"
    );
}

#[test]
fn grant_resource_stores_trimmed_ids() {
    let mut service = setup();
    seed_membership(&mut service, "alice", "t1", "member");
    let grant = service
        .grant_resource("g1".to_owned(), "t1", "member", "  alice  ", "skill", "  *  ", "admin1", 1)
        .unwrap();
    assert_eq!(grant.subject_id, "alice");
    assert_eq!(grant.resource_id, GRANT_ALL_RESOURCES);

    let effective = service.effective_resource_ids("t1", "alice", "skill").unwrap();
    assert!(effective.all, "a trimmed '*' must resolve as a wildcard grant");
}

#[test]
fn list_scenes_seeds_the_five_builtins_idempotently() {
    let mut service = setup();
    let first = service.list_scenes("t1", &ids("a"), 1);
    assert_eq!(first.len(), 5);
    assert!(first.iter().all(|s| s.built_in && s.member_count == 0));
    let names: HashSet<&str> = first.iter().map(|s| s.name.as_str()).collect();
    for expected in ["办公", "IT运维", "网络安全", "新媒体运营", "市场营销"] {
        assert!(names.contains(expected), "missing built-in scene {expected}");
    }

    let t2 = service.list_scenes("t2", &ids("b"), 2);
    assert_eq!(t2.len(), 5);

    let second = service.list_scenes("t1", &ids("c"), 3);
    assert_eq!(second.len(), 5);
}

#[test]
fn create_scene_rejects_a_duplicate_name_and_empty_name() {
    let mut service = setup();
    service
        .create_scene("s1".to_owned(), "t1", "Sales Team", Some("desc"), &list(&["销售"]), 1)
        .unwrap();
    assert_eq!(
        service
            .create_scene("s2".to_owned(), "t1", "Sales Team", None, &vec![], 2)
            .unwrap_err()
            .code(),
        "BAD_REQUEST"
    );
    assert_eq!(
        service
            .create_scene("s3".to_owned(), "t1", "   ", None, &vec![], 3)
            .unwrap_err()
            .code(),
        "BAD_REQUEST"
    );
}

#[test]
fn update_and_delete_scene_roundtrip_and_protect_builtins() {
    let mut service = setup();
    let custom = service
        .create_scene("s1".to_owned(), "t1", "Custom", None, &vec![], 1)
        .unwrap();

    let updated = service
        .update_scene("t1", &custom.id, "Custom Renamed", Some("new desc"), &list(&["tag1"]), 2)
        .unwrap();
    assert_eq!(updated.name, "Custom Renamed");
    assert_eq!(updated.description.as_deref(), Some("new desc"));
    assert_eq!(updated.job_functions, vec!["tag1".to_owned()]);

    service.delete_scene("t1", &custom.id).unwrap();
    assert_eq!(
        service
            .update_scene("t1", &custom.id, "x", None, &vec![], 3)
            .unwrap_err()
            .code(),
        "NOT_FOUND",
        "deleted scene should be gone"
    );

    let builtins = service.list_scenes("t1", &ids("a"), 4);
    let builtin_id = &builtins[0].id;
    assert_eq!(
        service.delete_scene("t1", builtin_id).unwrap_err().code(),
        "BAD_REQUEST",
        "a built-in scene must not be deletable"
    );
}

#[test]
fn scene_membership_is_idempotent_and_listable() {
    let mut service = setup();
    let scene = service
        .create_scene("s1".to_owned(), "t1", "Ops", None, &vec![], 1)
        .unwrap();

    service.add_scene_member("t1", &scene.id, "alice", 2).unwrap();
    service.add_scene_member("t1", &scene.id, "alice", 3).unwrap();
    service.add_scene_member("t1", &scene.id, "bob", 4).unwrap();

    let members = service.list_scene_members("t1", &scene.id).unwrap();
    assert_eq!(members, vec!["alice".to_owned(), "bob".to_owned()]);
    assert_eq!(
        service
            .list_scenes("t1", &ids("a"), 5)
            .iter()
            .find(|s| s.id == scene.id)
            .unwrap()
            .member_count,
        2
    );

    service.remove_scene_member("t1", &scene.id, "alice").unwrap();
    assert_eq!(
        service.list_scene_members("t1", &scene.id).unwrap(),
        vec!["bob".to_owned()]
    );
}

#[test]
fn effective_resource_ids_resolves_through_scene_membership() {
    let mut service = setup();
    seed_membership(&mut service, "alice", "t1", "member");
    let scene = service
        .create_scene("s1".to_owned(), "t1", "Ops", None, &vec![], 1)
        .unwrap();
    service
        .grant_resource("g1".to_owned(), "t1", "scene", &scene.id, "mcp", "mcp_1", "admin1", 2)
        .unwrap();

    let before = service.effective_resource_ids("t1", "alice", "mcp").unwrap();
    assert!(before.resource_ids.is_empty());

    service.add_scene_member("t1", &scene.id, "alice", 3).unwrap();
    let after = service.effective_resource_ids("t1", "alice", "mcp").unwrap();
    assert_eq!(after.resource_ids, vec!["mcp_1".to_owned()]);

    service.remove_scene_member("t1", &scene.id, "alice").unwrap();
    let gone = service.effective_resource_ids("t1", "alice", "mcp").unwrap();
    assert!(gone.resource_ids.is_empty());
}

#[test]
fn delete_scene_cascades_members_and_grants() {
    let mut service = setup();
    seed_membership(&mut service, "alice", "t1", "member");
    let scene = service
        .create_scene("s1".to_owned(), "t1", "Ops", None, &vec![], 1)
        .unwrap();
    service.add_scene_member("t1", &scene.id, "alice", 2).unwrap();
    service
        .grant_resource("g1".to_owned(), "t1", "scene", &scene.id, "mcp", "mcp_1", "admin1", 3)
        .unwrap();

    service.delete_scene("t1", &scene.id).unwrap();

    assert!(
        service.list_scene_members("t1", &scene.id).is_err(),
        "scene itself is gone"
    );
    let remaining_grants = service.list_grants("t1", Some("scene"), Some(&scene.id), None);
    assert!(
        remaining_grants.is_empty(),
        "grants on the deleted scene must be cleaned up too"
    );
}

#[test]
fn get_security_policy_defaults_to_relaxed_when_unset() {
    let service = setup();
    let policy = service.get_security_policy("t1");
    assert_eq!(policy.tier, "relaxed");
    assert!(!policy.terminal_tools_require_approval);
    assert!(!policy.destructive_commands_blocked);
    assert!(policy.blocked_command_patterns.is_empty());
    assert!(!policy.external_network_denied_by_default);
    assert!(!policy.message_scan_enabled);
    assert_eq!(policy.send_rate_limit_per_minute, None);
    assert_eq!(policy.updated_at, None, "no row was ever written for this tenant");
}

#[test]
fn apply_security_policy_tier_sets_the_standard_and_strict_presets() {
    let mut service = setup();

    let standard = service.apply_security_policy_tier("t1", "standard", 1).unwrap();
    assert_eq!(standard.tier, "standard");
    assert!(standard.terminal_tools_require_approval);
    assert!(standard.destructive_commands_blocked);
    assert!(!standard.blocked_command_patterns.is_empty());
    assert!(!standard.external_network_denied_by_default, "strict-only check");
    assert!(!standard.message_scan_enabled, "strict-only check");
    assert!(standard.updated_at.is_some());

    let strict = service.apply_security_policy_tier("t1", "strict", 2).unwrap();
    assert_eq!(strict.tier, "strict");
    assert!(strict.external_network_denied_by_default);
    assert!(strict.message_scan_enabled);
    assert!(strict.message_redact_enabled);
    assert!(
        strict.send_rate_limit_per_minute < standard.send_rate_limit_per_minute,
        "strict must rate-limit at least as tightly as standard"
    );
}

#[test]
fn apply_security_policy_tier_rejects_an_unknown_tier() {
    let mut service = setup();
    assert_eq!(
        service
            .apply_security_policy_tier("t1", "paranoid", 1)
            .unwrap_err()
            .code(),
        "BAD_REQUEST"
    );
}

#[test]
fn set_security_policy_is_a_custom_override_independent_of_any_tier() {
    let mut service = setup();
    service.apply_security_policy_tier("t1", "strict", 1).unwrap();

    let custom = service.set_security_policy(
        "t1",
        true,
        false,
        &list(&["custom-pattern"]),
        true,
        true,
        true,
        Some(99),
        2,
    );
    assert_eq!(custom.tier, "custom");
    assert!(!custom.destructive_commands_blocked);
    assert_eq!(custom.blocked_command_patterns, vec!["custom-pattern".to_owned()]);
    assert_eq!(custom.send_rate_limit_per_minute, Some(99));

    let reread = service.get_security_policy("t1");
    assert_eq!(reread.tier, "custom");
    assert_eq!(reread.blocked_command_patterns, vec!["custom-pattern".to_owned()]);
}

#[test]
fn security_policy_is_scoped_per_tenant() {
    let mut service = setup();
    service.apply_security_policy_tier("t1", "strict", 1).unwrap();
    let t2 = service.get_security_policy("t2");
    assert_eq!(
        t2.tier, "relaxed",
        "an untouched tenant must not inherit another tenant's tier"
    );
}

#[test]
fn create_api_key_returns_the_secret_once_and_never_again() {
    let mut service = setup();
    let created = service
        .create_api_key("k1".to_owned(), "0123456789abcdef", "t1", "CI bot", &list(&["/api/one/devops/*"]), Some(60), "admin1", 1)
        .unwrap();
    assert!(created.secret.starts_with("sk_live_"));
    assert!(
        created.secret.starts_with(&created.key.key_prefix),
        "the shown prefix must actually be a prefix of the real secret"
    );
    assert_eq!(created.key.status, "active");
    assert_eq!(created.key.allowed_paths, vec!["/api/one/devops/*".to_owned()]);
    assert_eq!(created.key.rate_limit_per_minute, Some(60));
    assert_eq!(created.key.created_by, "admin1");

    let listed = service.list_api_keys("t1");
    assert_eq!(listed.len(), 1);
    let shown = format!("{:?}", listed[0]);
    assert!(
        !shown.contains(&created.secret),
        "the list view must never carry the plaintext secret"
    );
    assert!(
        !shown.to_lowercase().contains("hash"),
        "the list view must never carry the hash either"
    );
}

#[test]
fn hash_api_key_secret_is_deterministic_and_distinguishes_inputs() {
    let a = PlatformService::hash_api_key_secret("secret-a");
    let b = PlatformService::hash_api_key_secret("secret-a");
    let c = PlatformService::hash_api_key_secret("secret-b");
    assert_eq!(a, b, "hashing the same secret twice must produce the same hash");
    assert_ne!(a, c);
    assert_eq!(
        PlatformService::hash_api_key_secret("abc"),
        "ba7816bf8f01cfea414140de5dae2223b00361a396177a9cb410ff61f20015ad"
    );
}

#[test]
fn create_api_key_rejects_an_empty_name() {
    let mut service = setup();
    assert_eq!(
        service
            .create_api_key("k1".to_owned(), "r", "t1", "   ", &vec![], None, "admin1", 1)
            .unwrap_err()
            .code(),
        "BAD_REQUEST"
    );
}

#[test]
fn revoke_api_key_is_idempotent_and_404s_only_for_a_truly_unknown_id() {
    let mut service = setup();
    let created = service
        .create_api_key("k1".to_owned(), "r", "t1", "Key", &vec![], None, "admin1", 1)
        .unwrap();

    service.revoke_api_key("t1", &created.key.id, 2).unwrap();
    let after = service.list_api_keys("t1");
    assert_eq!(after[0].status, "revoked");
    assert!(after[0].revoked_at.is_some());

    service.revoke_api_key("t1", &created.key.id, 3).unwrap();

    assert_eq!(
        service.revoke_api_key("t1", "no-such-key", 4).unwrap_err().code(),
        "NOT_FOUND"
    );
}

#[test]
fn api_keys_are_scoped_per_tenant() {
    let mut service = setup();
    service
        .create_api_key("k1".to_owned(), "r", "t1", "Key", &vec![], None, "admin1", 1)
        .unwrap();
    assert!(service.list_api_keys("t2").is_empty());
}

#[test]
fn authenticate_api_key_accepts_a_matching_secret_on_an_allowed_path() {
    let mut service = setup();
    let created = service
        .create_api_key("k1".to_owned(), "r", "t1", "CI bot", &list(&["/api/one/devops/*"]), None, "admin1", 1)
        .unwrap();

    let outcome = service.authenticate_api_key(&created.secret, "/api/one/devops/skills", 2);
    assert_eq!(user_of(outcome).as_deref(), Some("admin1"));
}

#[test]
fn authenticate_api_key_rejects_an_unknown_secret() {
    let mut service = setup();
    let outcome = service.authenticate_api_key("sk_live_not-a-real-key", "/api/one/devops/skills", 1);
    assert!(matches!(outcome, ApiKeyAuthOutcome::Invalid));
}

#[test]
fn authenticate_api_key_rejects_a_revoked_key() {
    let mut service = setup();
    let created = service
        .create_api_key("k1".to_owned(), "r", "t1", "CI bot", &list(&["/api/one/devops/*"]), None, "admin1", 1)
        .unwrap();
    service.revoke_api_key("t1", &created.key.id, 2).unwrap();

    let outcome = service.authenticate_api_key(&created.secret, "/api/one/devops/skills", 3);
    assert!(matches!(outcome, ApiKeyAuthOutcome::Invalid));
}

#[test]
fn authenticate_api_key_rejects_a_path_outside_allowed_paths() {
    let mut service = setup();
    let created = service
        .create_api_key("k1".to_owned(), "r", "t1", "CI bot", &list(&["/api/one/devops/*"]), None, "admin1", 1)
        .unwrap();

    let outcome = service.authenticate_api_key(&created.secret, "/api/one/billing/usage", 2);
    assert!(matches!(outcome, ApiKeyAuthOutcome::PathNotAllowed));
}

#[test]
fn authenticate_api_key_with_no_allowed_paths_authorizes_nothing() {
    let mut service = setup();
    let created = service
        .create_api_key("k1".to_owned(), "r", "t1", "Key", &vec![], None, "admin1", 1)
        .unwrap();

    let outcome = service.authenticate_api_key(&created.secret, "/api/one/devops/skills", 2);
    assert!(matches!(outcome, ApiKeyAuthOutcome::PathNotAllowed));
}

#[test]
fn revoking_a_users_api_keys_stops_them_authenticating() {
    let mut service = setup();
    let mine = service
        .create_api_key("k1".to_owned(), "r1", "t1", "leaver key", &list(&["/api/one/devops/*"]), None, "leaver", 1)
        .unwrap();
    let theirs = service
        .create_api_key("k2".to_owned(), "r2", "t1", "stayer key", &list(&["/api/one/devops/*"]), None, "stayer", 2)
        .unwrap();

    assert_eq!(service.revoke_api_keys_for_user("leaver", 3), 1);

    let outcome = service.authenticate_api_key(&mine.secret, "/api/one/devops/skills", 4);
    assert!(matches!(outcome, ApiKeyAuthOutcome::Invalid));
    let outcome = service.authenticate_api_key(&theirs.secret, "/api/one/devops/skills", 5);
    assert_eq!(user_of(outcome).as_deref(), Some("stayer"));
}

#[test]
fn revoking_a_users_api_keys_spans_tenants_and_is_idempotent() {
    let mut service = setup();
    service
        .create_api_key("k1".to_owned(), "r1", "t1", "k1", &vec![], None, "leaver", 1)
        .unwrap();
    service
        .create_api_key("k2".to_owned(), "r2", "t2", "k2", &vec![], None, "leaver", 2)
        .unwrap();

    assert_eq!(service.revoke_api_keys_for_user("leaver", 3), 2);
    assert_eq!(service.revoke_api_keys_for_user("leaver", 4), 0);
    assert_eq!(service.revoke_api_keys_for_user("never-existed", 5), 0);
}

#[test]
fn authenticate_api_key_matches_an_exact_path_without_a_wildcard() {
    let mut service = setup();
    let created = service
        .create_api_key("k1".to_owned(), "r", "t1", "Key", &list(&["/api/one/billing/usage"]), None, "admin1", 1)
        .unwrap();

    let outcome = service.authenticate_api_key(&created.secret, "/api/one/billing/usage", 2);
    assert_eq!(user_of(outcome).as_deref(), Some("admin1"));
    let outcome = service.authenticate_api_key(&created.secret, "/api/one/billing/usage/extra", 3);
    assert!(matches!(outcome, ApiKeyAuthOutcome::PathNotAllowed));
}

#[test]
fn broadcast_reaches_every_member_and_late_joiners_too() {
    let mut service = setup();
    seed_membership(&mut service, "admin1", "t1", "org_admin");
    seed_membership(&mut service, "alice", "t1", "member");
    let sent = service
        .create_notification("n1".to_owned(), "t1", "broadcast", "公告", "维护窗口", "周六 02:00-04:00", &vec![], "admin1", 1)
        .unwrap();
    assert_eq!(sent.recipient_count, 2);

    let alice = service.list_my_notifications("t1", "alice", 100);
    assert_eq!(alice.notifications.len(), 1);
    assert_eq!(alice.unread_count, 1);

    seed_membership(&mut service, "bob", "t1", "member");
    let bob = service.list_my_notifications("t1", "bob", 100);
    assert_eq!(bob.notifications.len(), 1);
    assert_eq!(bob.unread_count, 1);
}

#[test]
fn targeted_reaches_only_its_recipients_and_rejects_non_members() {
    let mut service = setup();
    seed_membership(&mut service, "admin1", "t1", "org_admin");
    seed_membership(&mut service, "alice", "t1", "member");
    seed_membership(&mut service, "mallory", "t2", "member");

    let sent = service
        .create_notification(
            "n1".to_owned(),
            "t1",
            "targeted",
            "安全",
            "凭证轮换",
            "请轮换你的 API Key",
            &list(&["alice"]),
            "admin1",
            1,
        )
        .unwrap();
    assert_eq!(sent.recipient_count, 1);

    let alice = service.list_my_notifications("t1", "alice", 100);
    assert_eq!(alice.unread_count, 1);
    let carol = service.list_my_notifications("t1", "carol", 100);
    assert!(carol.notifications.is_empty());
    let err = service
        .create_notification("n2".to_owned(), "t1", "targeted", "", "hi", "body", &list(&["mallory"]), "admin1", 2)
        .unwrap_err();
    assert_eq!(err.code(), "BAD_REQUEST");
    assert_eq!(
        service
            .create_notification("n3".to_owned(), "t1", "targeted", "", "hi", "body", &vec![], "admin1", 3)
            .unwrap_err()
            .code(),
        "BAD_REQUEST"
    );
    assert_eq!(
        service
            .create_notification("n4".to_owned(), "t1", "wallpaper", "", "hi", "body", &vec![], "admin1", 4)
            .unwrap_err()
            .code(),
        "BAD_REQUEST"
    );
}

#[test]
fn read_marks_are_per_user_and_mark_all_is_scoped_to_visibility() {
    let mut service = setup();
    seed_membership(&mut service, "admin1", "t1", "org_admin");
    seed_membership(&mut service, "alice", "t1", "member");
    seed_membership(&mut service, "bob", "t1", "member");
    service
        .create_notification("n1".to_owned(), "t1", "broadcast", "", "one", "body", &vec![], "admin1", 1)
        .unwrap();
    service
        .create_notification("n2".to_owned(), "t1", "broadcast", "", "two", "body", &vec![], "admin1", 2)
        .unwrap();

    service.mark_notifications_read("t1", "alice", &vec![], 3);
    let alice = service.list_my_notifications("t1", "alice", 100);
    assert_eq!(alice.unread_count, 0);
    let bob = service.list_my_notifications("t1", "bob", 100);
    assert_eq!(bob.unread_count, 2);
    service.mark_notifications_read("t1", "alice", &vec![], 4);
    assert_eq!(service.list_my_notifications("t1", "alice", 100).unread_count, 0);
    let history = service.list_notifications("t1");
    assert_eq!(history.len(), 2);
    assert_eq!(history[0].read_count, 1);
    assert_eq!(history[0].recipient_count, 3);
}

#[test]
fn deleting_a_notification_removes_it_for_everyone() {
    let mut service = setup();
    seed_membership(&mut service, "admin1", "t1", "org_admin");
    seed_membership(&mut service, "alice", "t1", "member");
    let sent = service
        .create_notification("n1".to_owned(), "t1", "broadcast", "", "oops", "wrong message", &vec![], "admin1", 1)
        .unwrap();
    service.mark_notifications_read("t1", "alice", &vec![], 2);

    service.delete_notification("t1", &sent.id).unwrap();
    assert!(service.list_notifications("t1").is_empty());
    let alice = service.list_my_notifications("t1", "alice", 100);
    assert!(alice.notifications.is_empty() && alice.unread_count == 0);
    assert_eq!(
        service.delete_notification("t1", "ntf_missing").unwrap_err().code(),
        "NOT_FOUND"
    );
}

#[test]
fn notification_title_and_body_must_not_be_blank() {
    let mut service = setup();
    assert_eq!(
        service
            .create_notification("n1".to_owned(), "t1", "broadcast", "", "  ", "body", &vec![], "admin1", 1)
            .unwrap_err()
            .code(),
        "BAD_REQUEST"
    );
    assert_eq!(
        service
            .create_notification("n1".to_owned(), "t1", "broadcast", "", "title", "   ", &vec![], "admin1", 1)
            .unwrap_err()
            .code(),
        "BAD_REQUEST"
    );
}

#[test]
fn cidr_and_exact_matching() {
    let list = vec![
        "10.0.0.0/8".to_owned(),
        "192.168.1.5".to_owned(),
        "2001:db8::/32".to_owned(),
    ];
    assert!(ip_allowed(&list, "10.3.4.5"));
    assert!(!ip_allowed(&list, "11.0.0.1"));
    assert!(ip_allowed(&list, "192.168.1.5"));
    assert!(!ip_allowed(&list, "192.168.1.6"));
    assert!(ip_allowed(&list, "2001:db8:1234::1"));
    assert!(!ip_allowed(&list, "2001:dead::1"));
    assert!(!ip_allowed(&vec![], "10.0.0.1"));
    assert!(!ip_allowed(&vec!["not-an-ip".to_owned()], "10.0.0.1"));
}

#[test]
fn addresses_are_read_as_numbers() {
    assert_eq!(parse_v4("1.2.3.4"), Some(0x0102_0304));
    assert_eq!(parse_v4("255.255.255.255"), Some(0xffff_ffff));
    for bad in ["", "1.2.3", "1.2.3.4.5", "256.1.1.1", "01.2.3.4", "1.2.3.4 ", "+1.2.3.4"] {
        assert_eq!(parse_v4(bad), None, "{bad}");
    }
    assert_eq!(parse_v6("::"), Some(0));
    assert_eq!(parse_v6("::1"), Some(1));
    assert_eq!(parse_v6("1:2:3:4:5:6:7:8"), Some(0x0001_0002_0003_0004_0005_0006_0007_0008));
    assert_eq!(parse_v6("::ffff:1.2.3.4"), Some(0xffff_0102_0304));
    assert_eq!(parse_v6("FE80::"), Some(0xfe80 << 112));
    for bad in ["", ":", ":::", "1::2::3", "12345::", "g::", "1:2:3:4:5:6:7", "1:2:3:4:5:6:7:8:9", "1.2.3.4", "1:2:3:4:5:6:7::8"] {
        assert_eq!(parse_v6(bad), None, "{bad}");
    }
}

#[test]
fn only_well_formed_addresses_are_read() {
    for good in ["::1.2.3.4", "1::", "1:2:3:4:5:6:1.2.3.4", "1:2:3:4:5:6:7::", "::2:3:4:5:6:7:8", "0001::00ff", "0:0:0:0:0:0:0:0"] {
        assert!(parse_v6(good).is_some(), "{good}");
    }
    for bad in [
        "1:2:3:4:5:6:7:1.2.3.4",
        "1.2.3.4::",
        "00001::",
        "1:::2",
        "::1::",
        " ::1",
        "fe80::1%eth0",
        "1:2:3:4::5:6:7:8",
        "::255.255.255.256",
    ] {
        assert_eq!(parse_v6(bad), None, "{bad}");
    }
}

#[test]
fn prefixes_reach_from_everything_to_one_address() {
    assert!(cidr_contains("10.0.0.0", 0, "200.1.2.3"));
    assert!(cidr_contains("10.0.0.1", 32, "10.0.0.1"));
    assert!(!cidr_contains("10.0.0.1", 32, "10.0.0.2"));
    assert!(!cidr_contains("10.0.0.1", 33, "10.0.0.1"));
    assert!(cidr_contains("::", 0, "ffff::1"));
    assert!(cidr_contains("2001:db8::1", 128, "2001:db8::1"));
    assert!(!cidr_contains("2001:db8::1", 129, "2001:db8::1"));
    assert!(!cidr_contains("::", 0, "10.0.0.1"));
    assert!(exact_match("::0", "0::"));
    assert!(!exact_match("::1", "0.0.0.1"));
    assert!(ip_allowed(&list(&[" 10.0.0.0 / 8 "]), " 10.9.9.9 "));
    assert!(!ip_allowed(&list(&["10.0.0.0/x"]), "10.9.9.9"));
}

#[test]
fn everyone_acts_in_the_group_they_chose() {
    let mut service = setup();
    seed_membership(&mut service, "ann", "t1", "member");
    seed_membership(&mut service, "ann", "t2", "org_admin");
    service.members[1].created_at = 5;
    assert_eq!(service.resolve_actor("ann").unwrap().tenant_id, "t2");
    service.active.push(ActiveTenantRow {
        user_id: "ann".to_owned(),
        tenant_id: "t1".to_owned(),
        updated_at: 6,
    });
    assert_eq!(service.resolve_actor("ann").unwrap().tenant_id, "t1");
    assert_eq!(service.require_member("ann").unwrap().role, "member");
}

#[test]
fn blocked_machines_are_turned_away_but_not_the_console() {
    let mut service = setup();
    seed_membership(&mut service, "ann", "t1", "org_admin");
    let client = GovernanceCaller::Identified("m1".to_owned());
    let err = RequirePlatformMember::let_in(&service, Some("ann"), &client, true).unwrap_err();
    assert_eq!(err.code(), "MACHINE_BLOCKED");
    assert_eq!(err.status(), 403);
    assert!(RequirePlatformMember::let_in(&service, Some("ann"), &client, false).is_ok());
    let unknown = GovernanceCaller::UnidentifiedRemoteClient;
    assert_eq!(unknown.machine_to_judge(), Some(None));
    assert!(RequirePlatformMember::let_in(&service, Some("ann"), &unknown, true).is_err());
    let console = GovernanceCaller::BrowserSession;
    assert_eq!(console.machine_to_judge(), None);
    assert!(RequirePlatformMember::let_in(&service, Some("ann"), &console, true).is_ok());
    assert_eq!(
        RequirePlatformMember::let_in(&service, None, &console, false).unwrap_err().message(),
        "Authentication required"
    );
    assert_eq!(RequirePlatformAdmin::let_in(&service, Some("ann")).unwrap().0.tenant_id, "t1");
    assert_eq!(RequirePlatformAdmin::let_in(&service, None).unwrap_err().code(), "FORBIDDEN");
    assert_eq!(
        RequirePlatformAdmin::let_in(&service, Some("bob")).unwrap_err().code(),
        "NOT_IN_ENTERPRISE"
    );
}

#[test]
fn errors_have_a_status() {
    assert_eq!(PlatformError::NotInEnterprise.status(), 400);
    assert_eq!(PlatformError::BadRequest("x".to_owned()).status(), 400);
    assert_eq!(PlatformError::NotFound("x".to_owned()).status(), 404);
    assert_eq!(PlatformError::Internal("x".to_owned()).status(), 500);
    assert_eq!(PlatformError::Internal("x".to_owned()).code(), "INTERNAL_ERROR");
}

#[test]
fn endpoints_are_probed_where_they_are() {
    assert_eq!(normalize_probe_url("wss://a/b"), "https://a/b");
    assert_eq!(normalize_probe_url("ws://a"), "http://a");
    assert_eq!(normalize_probe_url("a:2375"), "http://a:2375");
    assert_eq!(normalize_probe_url("https://a"), "https://a");
    assert_eq!(known(probe_http_endpoint(Some("  "), None)), "not_configured");
    assert_eq!(known(probe_http_endpoint(Some("unix:///var/run/docker.sock"), None)), "error");
    match probe_http_endpoint(Some(" a "), Some(" tok ")) {
        HttpProbe::Get(request) => {
            assert_eq!(request.url, "http://a");
            assert_eq!(request.bearer.as_deref(), Some("tok"));
        }
        HttpProbe::Done(report) => panic!("{report:?}"),
    }
    let ok = http_probe_result("http://a", &HttpReply::Status(204));
    assert_eq!(ContainerStatus::of(ok).status, "ok");
    let bad = http_probe_result("http://a", &HttpReply::Status(503));
    assert_eq!(CollaborationStatus::of(bad).status, "error");
    let lost = http_probe_result("http://a", &HttpReply::Failed("no route".to_owned()));
    assert_eq!(SiemStatus::of(lost).status, "error");
}

#[test]
fn log_servers_are_probed_over_tcp() {
    let mut service = setup();
    service.set_siem_config("t1", Some("SysLog"), Some("udp://logs.acme.com:6514"), None, "", true, 1);
    match service.probe_siem("t1", None) {
        SiemProbe::Tcp(target) => {
            assert_eq!(target.host, "logs.acme.com");
            assert_eq!(target.port, 6514);
        }
        SiemProbe::Http(probe) => panic!("{probe:?}"),
    }
    let target = probe_tcp_host(Some("logs.acme.com"), 514).unwrap();
    assert_eq!((target.host.as_str(), target.port), ("logs.acme.com", 514));
    assert_eq!(probe_tcp_host(None, 514).unwrap_err().status, "not_configured");
    let target = TcpTarget { host: "h".to_owned(), port: 1 };
    assert_eq!(tcp_probe_result(&target, &TcpReply::Connected).status, "ok");
    assert_eq!(tcp_probe_result(&target, &TcpReply::Refused("no".to_owned())).status, "error");
    assert_eq!(tcp_probe_result(&target, &TcpReply::NoAddress).status, "error");
    assert_eq!(tcp_probe_result(&target, &TcpReply::NameFailed("x".to_owned())).status, "error");
}

#[test]
fn paths_are_matched_whole_or_by_prefix() {
    assert!(!api_key_path_allowed("/a", &vec![]));
    assert!(api_key_path_allowed("/a/b", &list(&["/a/*"])));
    assert!(!api_key_path_allowed("/a", &list(&["/a/*"])));
    assert!(api_key_path_allowed("/anything", &list(&["*"])));
    assert!(api_key_path_allowed("/a", &list(&["/b", "/a"])));
}

#[test]
fn presets_are_named() {
    assert!(security_policy_preset("nothing").is_none());
    assert_eq!(security_policy_preset("relaxed").unwrap().send_rate_limit_per_minute, None);
    assert_eq!(default_policy_template_tier(), "custom");
}

#[test]
fn a_bare_address_stands_for_itself_alone() {
    let list = |entry: &str| vec![entry.to_owned()];
    for (bare, narrow, other) in [
        ("192.168.1.5", "192.168.1.5/32", "192.168.1.4"),
        ("2001:db8::1", "2001:db8::1/128", "2001:db8::2"),
        ("::", "::/128", "0.0.0.0"),
    ] {
        for entry in [bare, narrow] {
            assert!(ip_allowed(&list(entry), bare));
            assert!(!ip_allowed(&list(entry), other));
        }
    }
    assert!(ip_allowed(&list("2001:db8::1"), "2001:0DB8:0:0:0:0:0:1"));
    assert!(!ip_allowed(&list("0.0.0.0/0"), "::1"));
    assert!(!ip_allowed(&list("::/0"), "10.0.0.1"));
}
