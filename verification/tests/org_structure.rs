//! Departments, the directory, runtime nodes, connectors, mail and audit.
use dream_domain::http::HttpReply;
use dream_domain::org::email::{
    build_transport, compose_invite_email, send_result, write_invite_email, StubEmailSender,
};
use dream_domain::org::error::OrgError;
use dream_domain::org::integration::{
    connection_result, probe_as_sync, sync_result, HttpConnectorProvider, IntegrationCredentials,
    IntegrationTestResult, ProbeStep, StubIntegrationProvider, KNOWN_PROVIDERS,
};
use dream_domain::org::models::{
    CompanyMemberRow, DirectoryDepartmentRef, LicenseRow, ToolMessageRow, UserOrgRow, UserRow,
    ROLE_ORG_ADMIN, ROLE_SYSTEM_ADMIN, SYSTEM_DEFAULT_USER_ID,
};
use dream_domain::org::rbac::{
    default_agent_audit_limit, default_audit_limit, ensure_company_governor, require_group,
    requested_machine, requested_role, OrgActor, RequireOrgAdmin, RequireSystemAdmin,
};
use dream_domain::org::service::OrgService;
use std::collections::HashSet;

/// More departments than a directory usually has.
const WRITE_CHUNK: usize = 2_000;

fn setup() -> OrgService {
    let mut service = OrgService::new();
    service.users.push(UserRow {
        id: SYSTEM_DEFAULT_USER_ID.to_owned(),
        username: Some("admin".to_owned()),
        last_login: None,
    });
    service
}

fn create_user(service: &mut OrgService, username: &str) -> String {
    let id = format!("user_{username}");
    service.users.push(UserRow { id: id.clone(), username: Some(username.to_owned()), last_login: None });
    id
}

fn acme(service: &mut OrgService) -> String {
    service.create_tenant(SYSTEM_DEFAULT_USER_ID, "Acme", 0).unwrap().0
}

fn dref(external_id: &str, parent: Option<&str>, name: &str) -> DirectoryDepartmentRef {
    DirectoryDepartmentRef {
        external_id: external_id.to_owned(),
        parent_external_id: parent.map(str::to_owned),
        name: name.to_owned(),
    }
}

fn actor(tenant_id: &str, role: &str) -> OrgActor {
    OrgActor {
        user_id: "u".to_owned(),
        username: "U".to_owned(),
        tenant_id: tenant_id.to_owned(),
        role: role.to_owned(),
    }
}

#[test]
fn department_tree_crud_and_member_assignment() {
    let mut service = setup();
    let tenant_id = acme(&mut service);

    let eng = service.create_department(&tenant_id, "Engineering", None, 1).unwrap();
    assert_eq!(eng.parent_id, None);
    let backend = service.create_department(&tenant_id, "Backend", Some(&eng.id), 2).unwrap();
    assert_eq!(backend.parent_id.as_deref(), Some(eng.id.as_str()));

    assert_eq!(
        service.create_department(&tenant_id, "Ghost", Some("nope"), 3).unwrap_err().code(),
        "DEPARTMENT_NOT_FOUND"
    );
    assert_eq!(
        service.create_department(&tenant_id, "  ", None, 3).unwrap_err().code(),
        "BAD_REQUEST"
    );

    let all = service.list_departments(&tenant_id);
    assert_eq!(all.len(), 2);

    let renamed = service.rename_department(&tenant_id, &backend.id, "Platform", 4).unwrap();
    assert_eq!(renamed.name, "Platform");

    assert_eq!(
        service.delete_department(&tenant_id, &eng.id).unwrap_err().code(),
        "BAD_REQUEST"
    );

    let alice = create_user(&mut service, "alice");
    let (_, code) = service
        .create_invite(&tenant_id, SYSTEM_DEFAULT_USER_ID, None, None, 5)
        .unwrap();
    service.join_with_invite(&alice, &code, 6).unwrap();
    service
        .assign_member_department(&tenant_id, &alice, Some(&backend.id), 7)
        .unwrap();
    assert_eq!(
        service.delete_department(&tenant_id, &backend.id).unwrap_err().code(),
        "BAD_REQUEST"
    );
    let users = service.list_users(&tenant_id).unwrap();
    let alice_row = users.iter().find(|u| u.user_id == alice).unwrap();
    assert_eq!(alice_row.department_id.as_deref(), Some(backend.id.as_str()));

    service.assign_member_department(&tenant_id, &alice, None, 8).unwrap();
    service.delete_department(&tenant_id, &backend.id).unwrap();
    service.delete_department(&tenant_id, &eng.id).unwrap();
    assert!(service.list_departments(&tenant_id).is_empty());

    assert_eq!(
        service
            .assign_member_department(&tenant_id, &alice, Some("nope"), 9)
            .unwrap_err()
            .code(),
        "DEPARTMENT_NOT_FOUND"
    );
    let bob = create_user(&mut service, "bob");
    assert_eq!(
        service.assign_member_department(&tenant_id, &bob, None, 9).unwrap_err().code(),
        "FORBIDDEN"
    );
}

#[test]
fn set_department_parent_moves_and_rejects_cycles() {
    let mut service = setup();
    let tenant_id = acme(&mut service);
    let eng = service.create_department(&tenant_id, "Engineering", None, 1).unwrap();
    let backend = service.create_department(&tenant_id, "Backend", Some(&eng.id), 2).unwrap();
    let sales = service.create_department(&tenant_id, "Sales", None, 3).unwrap();

    let moved = service
        .set_department_parent(&tenant_id, &backend.id, Some(&sales.id), 4)
        .unwrap();
    assert_eq!(moved.parent_id.as_deref(), Some(sales.id.as_str()));

    let top = service.set_department_parent(&tenant_id, &backend.id, None, 5).unwrap();
    assert_eq!(top.parent_id, None);

    assert_eq!(
        service
            .set_department_parent(&tenant_id, &eng.id, Some(&eng.id), 6)
            .unwrap_err()
            .code(),
        "BAD_REQUEST"
    );

    service
        .set_department_parent(&tenant_id, &backend.id, Some(&eng.id), 7)
        .unwrap();
    assert_eq!(
        service
            .set_department_parent(&tenant_id, &eng.id, Some(&backend.id), 8)
            .unwrap_err()
            .code(),
        "BAD_REQUEST"
    );

    assert_eq!(
        service
            .set_department_parent(&tenant_id, &eng.id, Some("nope"), 9)
            .unwrap_err()
            .code(),
        "DEPARTMENT_NOT_FOUND"
    );
}

#[test]
fn map_directory_subtree_builds_the_tree_with_root_as_top_level() {
    let mut service = setup();
    let tenant_id = acme(&mut service);

    let all = vec![
        dref("od_company", None, "总公司"),
        dref("od_root", Some("od_company"), "研发中心"),
        dref("od_child", Some("od_root"), "后端组"),
        dref("od_other", None, "不相关的部门"),
    ];

    let report = service.map_directory_subtree(&tenant_id, "od_root", &all, 1).unwrap();
    assert_eq!(report.created, vec!["研发中心", "后端组"]);
    assert!(report.updated.is_empty());

    let depts = service.list_departments(&tenant_id);
    assert_eq!(depts.len(), 2, "only the mapped subtree, not od_company or od_other");
    let root = depts.iter().find(|d| d.name == "研发中心").unwrap();
    assert_eq!(root.parent_id, None, "the mapping root is always top-level locally");
    assert_eq!(root.source.as_deref(), Some("directory"));
    let child = depts.iter().find(|d| d.name == "后端组").unwrap();
    assert_eq!(child.parent_id.as_deref(), Some(root.id.as_str()));
}

#[test]
fn map_directory_subtree_is_rerunnable_updates_in_place() {
    let mut service = setup();
    let tenant_id = acme(&mut service);

    let first = vec![
        dref("od_root", None, "研发中心"),
        dref("od_child", Some("od_root"), "后端组"),
    ];
    service.map_directory_subtree(&tenant_id, "od_root", &first, 1).unwrap();
    let ids_before: HashSet<String> =
        service.list_departments(&tenant_id).into_iter().map(|d| d.id).collect();

    let renamed = vec![
        dref("od_root", None, "研发中心"),
        dref("od_child", Some("od_root"), "后端与平台组"),
    ];
    let report = service.map_directory_subtree(&tenant_id, "od_root", &renamed, 2).unwrap();
    assert_eq!(report.updated, vec!["研发中心", "后端与平台组"]);
    assert!(report.created.is_empty(), "re-sync must not duplicate");

    let depts = service.list_departments(&tenant_id);
    assert_eq!(depts.len(), 2);
    let ids_after: HashSet<String> = depts.iter().map(|d| d.id.clone()).collect();
    assert_eq!(ids_before, ids_after, "same rows, just updated");
    assert!(depts.iter().any(|d| d.name == "后端与平台组"));
}

#[test]
fn map_directory_subtree_spans_multiple_write_chunks() {
    let mut service = setup();
    let tenant_id = acme(&mut service);

    let child_count = WRITE_CHUNK + 1;
    let mut all = vec![dref("od_root", None, "研发中心")];
    all.extend((0..child_count).map(|i| dref(&format!("od_child_{i}"), Some("od_root"), &format!("小组{i}"))));

    let report = service.map_directory_subtree(&tenant_id, "od_root", &all, 1).unwrap();
    assert_eq!(report.created.len(), child_count + 1, "root + every child created");
    assert!(report.updated.is_empty());

    let depts = service.list_departments(&tenant_id);
    assert_eq!(depts.len(), child_count + 1);
    let root = depts.iter().find(|d| d.name == "研发中心").unwrap();
    assert_eq!(
        depts
            .iter()
            .filter(|d| d.parent_id.as_deref() == Some(root.id.as_str()))
            .count(),
        child_count,
        "every child resolved to the root's local id"
    );

    let report = service.map_directory_subtree(&tenant_id, "od_root", &all, 2).unwrap();
    assert_eq!(report.updated.len(), child_count + 1);
    assert!(report.created.is_empty());
    assert_eq!(service.list_departments(&tenant_id).len(), child_count + 1);
}

#[test]
fn map_directory_subtree_keeps_stale_rows_that_have_local_data() {
    let mut service = setup();
    let tenant_id = acme(&mut service);

    let with_two = vec![
        dref("od_root", None, "研发中心"),
        dref("od_child", Some("od_root"), "后端组"),
    ];
    service.map_directory_subtree(&tenant_id, "od_root", &with_two, 1).unwrap();
    let backend_id = service
        .list_departments(&tenant_id)
        .into_iter()
        .find(|d| d.name == "后端组")
        .unwrap()
        .id;

    let alice = create_user(&mut service, "alice");
    let (_, code) = service
        .create_invite(&tenant_id, SYSTEM_DEFAULT_USER_ID, None, None, 2)
        .unwrap();
    service.join_with_invite(&alice, &code, 3).unwrap();
    service
        .assign_member_department(&tenant_id, &alice, Some(&backend_id), 4)
        .unwrap();

    let root_only = vec![dref("od_root", None, "研发中心")];
    let report = service.map_directory_subtree(&tenant_id, "od_root", &root_only, 5).unwrap();
    assert_eq!(report.kept_with_local_data, vec!["后端组"]);
    assert!(report.removed.is_empty());

    let depts = service.list_departments(&tenant_id);
    assert!(depts.iter().any(|d| d.id == backend_id));
    let alice_row = service
        .list_users(&tenant_id)
        .unwrap()
        .into_iter()
        .find(|u| u.user_id == alice)
        .unwrap();
    assert_eq!(alice_row.department_id.as_deref(), Some(backend_id.as_str()));
}

#[test]
fn map_directory_subtree_removes_empty_stale_rows() {
    let mut service = setup();
    let tenant_id = acme(&mut service);
    let with_two = vec![
        dref("od_root", None, "研发中心"),
        dref("od_child", Some("od_root"), "后端组"),
    ];
    service.map_directory_subtree(&tenant_id, "od_root", &with_two, 1).unwrap();

    let root_only = vec![dref("od_root", None, "研发中心")];
    let report = service.map_directory_subtree(&tenant_id, "od_root", &root_only, 2).unwrap();
    assert_eq!(report.removed, vec!["后端组"]);
    assert_eq!(service.list_departments(&tenant_id).len(), 1);
}

#[test]
fn map_directory_subtree_never_touches_manual_departments() {
    let mut service = setup();
    let tenant_id = acme(&mut service);
    let manual = service.create_department(&tenant_id, "研发中心", None, 1).unwrap();

    let all = vec![dref("od_root", None, "研发中心")];
    let report = service.map_directory_subtree(&tenant_id, "od_root", &all, 2).unwrap();
    assert_eq!(report.created, vec!["研发中心"]);

    let depts = service.list_departments(&tenant_id);
    assert_eq!(depts.len(), 2, "the manual row and the mapped row are separate");
    let manual_row = depts.iter().find(|d| d.id == manual.id).unwrap();
    assert_eq!(manual_row.source, None, "untouched by the sync");

    service.map_directory_subtree(&tenant_id, "od_root", &all, 3).unwrap();
    assert_eq!(service.list_departments(&tenant_id).len(), 2);
}

#[test]
fn map_directory_subtree_rejects_empty_or_unknown_root() {
    let mut service = setup();
    let tenant_id = acme(&mut service);

    assert_eq!(
        service
            .map_directory_subtree(&tenant_id, "od_root", &vec![], 1)
            .unwrap_err()
            .code(),
        "BAD_REQUEST"
    );

    let all = vec![dref("od_root", None, "研发中心")];
    assert_eq!(
        service
            .map_directory_subtree(&tenant_id, "od_ghost", &all, 1)
            .unwrap_err()
            .code(),
        "BAD_REQUEST"
    );
}

#[test]
fn two_independent_directory_mappings_coexist() {
    let mut service = setup();
    let tenant_id = acme(&mut service);

    let all = vec![dref("od_eng", None, "研发中心"), dref("od_sales", None, "销售中心")];

    service.map_directory_subtree(&tenant_id, "od_eng", &all, 1).unwrap();
    let after_first = service.list_departments(&tenant_id);
    assert_eq!(after_first.len(), 1);

    let report = service.map_directory_subtree(&tenant_id, "od_sales", &all, 2).unwrap();
    assert_eq!(report.created, vec!["销售中心"]);
    assert!(
        report.removed.is_empty(),
        "an unrelated mapping's departments must never be reported as removed"
    );

    let after_second = service.list_departments(&tenant_id);
    assert_eq!(after_second.len(), 2, "both mappings must coexist");
    assert!(after_second.iter().any(|d| d.name == "研发中心"));
    assert!(after_second.iter().any(|d| d.name == "销售中心"));

    let report2 = service.map_directory_subtree(&tenant_id, "od_eng", &all, 3).unwrap();
    assert_eq!(report2.updated, vec!["研发中心"]);
    assert!(report2.removed.is_empty());
    assert_eq!(service.list_departments(&tenant_id).len(), 2);
}

#[test]
fn overlapping_directory_mappings_are_rejected() {
    let mut service = setup();
    let tenant_id = acme(&mut service);

    let all = vec![
        dref("od_company", None, "总公司"),
        dref("od_eng", Some("od_company"), "研发中心"),
    ];

    service.map_directory_subtree(&tenant_id, "od_company", &all, 1).unwrap();

    let err = service
        .map_directory_subtree(&tenant_id, "od_eng", &all, 2)
        .unwrap_err();
    assert_eq!(err.code(), "BAD_REQUEST");

    assert_eq!(service.list_departments(&tenant_id).len(), 2);
}

#[test]
fn smtp_config_roundtrips_and_redacts_password() {
    let mut service = setup();
    let cfg = service.get_smtp_config();
    assert!(!cfg.enabled);
    assert!(!cfg.has_password);

    let saved = service.set_smtp_config(
        "smtp.acme.com",
        587,
        Some("bot"),
        Some("s3cret"),
        "sealed(s3cret)",
        "noreply@acme.com",
        true,
        1,
    );
    assert_eq!(saved.host.as_deref(), Some("smtp.acme.com"));
    assert!(saved.has_password, "password presence is reported...");
    let shown = format!("{saved:?}");
    assert!(!shown.contains("s3cret"));

    let updated = service.set_smtp_config(
        "smtp.acme.com",
        465,
        Some("bot"),
        None,
        "sealed()",
        "noreply@acme.com",
        true,
        2,
    );
    assert!(updated.has_password);
    assert_eq!(service.smtp_password().as_deref(), Some("sealed(s3cret)"));
}

#[test]
fn invite_email_is_not_configured_by_default() {
    let mut service = setup();
    let tenant_id = acme(&mut service);
    let (invite, display) = service
        .create_invite(&tenant_id, SYSTEM_DEFAULT_USER_ID, None, None, 1)
        .unwrap();
    let (code, name) = service.send_invite_email(&tenant_id, &invite.id).unwrap();
    assert_eq!(code, display);
    assert_eq!(name, "Acme");
    assert!(service.smtp_server().is_none());
    let result = StubEmailSender {}.send_invite("new-hire@acme.com", &code, &name);
    assert_eq!(result.status, "not_configured");
    assert_eq!(
        service.send_invite_email(&tenant_id, "no such invite").unwrap_err().code(),
        "INVALID_CODE"
    );
    assert_eq!(
        service.send_invite_email("elsewhere", &invite.id).unwrap_err().code(),
        "INVALID_CODE"
    );
}

#[test]
fn integration_connector_roundtrips_redacts_and_stubs_test() {
    let mut service = setup();
    let tenant_id = acme(&mut service);

    let empty = service.list_integrations(&tenant_id);
    assert!(empty.is_empty());
    let default = service.get_integration(&tenant_id, "github");
    assert!(!default.enabled && !default.has_secret);

    let config = "{ \"org\": \"acme\" }";
    let saved = service.set_integration(
        &tenant_id,
        "github",
        Some("https://api.github.com"),
        config,
        Some("ghp_secret"),
        "sealed(ghp_secret)",
        true,
        1,
    );
    assert_eq!(saved.base_url.as_deref(), Some("https://api.github.com"));
    assert!(saved.has_secret);
    let shown: serde_json::Value = serde_json::from_str(&saved.config).unwrap();
    assert_eq!(shown["org"], "acme");
    let printed = format!("{saved:?}");
    assert!(!printed.contains("ghp_secret"));

    let updated = service.set_integration(
        &tenant_id,
        "github",
        Some("https://ghe.acme.com"),
        config,
        None,
        "sealed()",
        false,
        2,
    );
    assert!(updated.has_secret);
    assert!(!updated.enabled);
    assert_eq!(updated.base_url.as_deref(), Some("https://ghe.acme.com"));
    assert_eq!(
        service.integration_secret(&tenant_id, "github").as_deref(),
        Some("sealed(ghp_secret)")
    );

    service.set_integration(
        &tenant_id,
        "jira",
        None,
        "{}",
        Some("jira_tok"),
        "sealed(jira_tok)",
        true,
        3,
    );
    let all = service.list_integrations(&tenant_id);
    assert_eq!(all.len(), 2);

    match service.test_integration(&tenant_id, "github", Some("ghp_secret")) {
        ProbeStep::Done(result) => assert_eq!(result.status, "not_configured"),
        ProbeStep::Get(request) => panic!("asked {request:?}"),
    }
}

#[test]
fn agent_audit_reconstructs_tool_calls_from_messages() {
    let mut service = setup();
    let uid = create_user(&mut service, "alice");
    service.members.push(UserOrgRow {
        user_id: uid.clone(),
        tenant_id: "t1".to_owned(),
        role: "member".to_owned(),
        display_name: None,
        org_unit_path: None,
        job_title: None,
        org_profile_source: None,
        org_profile_synced_at: None,
        department_id: None,
        created_at: 0,
        updated_at: 0,
    });
    let message = |id: &str, kind: &str, tool: &str, detail: Option<&str>, at: i64| ToolMessageRow {
        id: id.to_owned(),
        conversation_id: "c1".to_owned(),
        user_id: uid.clone(),
        kind: kind.to_owned(),
        tool_name: tool.to_owned(),
        detail: detail.map(str::to_owned),
        status: None,
        created_at: at,
    };
    let messages = vec![
        message("m1", "tool_call", "Read", Some("/tmp/a.txt"), 10),
        message("m2", "acp_tool_call", "Bash", Some("ls -la"), 20),
        message("m3", "text", "", None, 5),
    ];

    let all = service.list_agent_audit("t1", None, None, None, 100, &messages);
    assert_eq!(all.len(), 2);
    assert_eq!(all[0].tool_name, "Bash");
    assert_eq!(all[0].detail.as_deref(), Some("ls -la"));
    assert_eq!(all[0].user_id.as_deref(), Some(uid.as_str()));
    assert_eq!(all[1].tool_name, "Read");
    assert_eq!(all[1].detail.as_deref(), Some("/tmp/a.txt"));

    assert_eq!(
        service.list_agent_audit("t1", None, Some("Read"), None, 100, &messages).len(),
        1
    );
    assert!(service
        .list_agent_audit("t1", Some("bob"), None, None, 100, &messages)
        .is_empty());
    assert_eq!(
        service.list_agent_audit("t1", None, None, Some(15), 100, &messages).len(),
        1
    );

    assert!(service
        .list_agent_audit("t2-other-tenant", None, None, None, 100, &messages)
        .is_empty());
}

#[test]
fn delete_runtime_node_removes_it_from_the_roster() {
    let mut service = setup();
    let alice = create_user(&mut service, "alice");
    let node = service
        .heartbeat_runtime_node("t1", &alice, "m1", "My Machine", "[]", "[]", "[]", 1)
        .unwrap();
    assert_eq!(service.list_runtime_nodes("t1").len(), 1);

    service.delete_runtime_node("t1", &node.node_id).unwrap();

    assert!(service.list_runtime_nodes("t1").is_empty());
}

#[test]
fn delete_runtime_node_rejects_a_node_from_another_tenant() {
    let mut service = setup();
    let alice = create_user(&mut service, "alice");
    let node = service
        .heartbeat_runtime_node("t1", &alice, "m1", "My Machine", "[]", "[]", "[]", 1)
        .unwrap();

    let result = service.delete_runtime_node("t2", &node.node_id);
    assert!(matches!(result, Err(OrgError::RuntimeNodeNotFound)));
    assert_eq!(service.list_runtime_nodes("t1").len(), 1);
}

#[test]
fn delete_runtime_node_unknown_id_returns_not_found() {
    let mut service = setup();
    let result = service.delete_runtime_node("t1", "does-not-exist");
    assert!(matches!(result, Err(OrgError::RuntimeNodeNotFound)));
}

#[test]
fn heartbeat_under_open_policy_auto_approves_the_first_seen_machine() {
    let mut service = setup();
    let alice = create_user(&mut service, "alice");

    let outcome = service
        .heartbeat_runtime_node("t1", &alice, "m1", "My Machine", "[]", "[]", "[]", 1)
        .unwrap();
    assert!(outcome.created);
    assert_eq!(outcome.status, "approved");
    assert!(!outcome.pending, "open policy is the default");

    let again = service
        .heartbeat_runtime_node("t1", &alice, "m1", "My Machine", "[]", "[]", "[]", 2)
        .unwrap();
    assert!(!again.created && !again.pending);
}

#[test]
fn approval_required_policy_registers_first_seen_machines_as_pending() {
    let mut service = setup();
    let alice = create_user(&mut service, "alice");

    service.set_runtime_node_policy("t1", true, 1);
    assert!(service.get_runtime_node_policy("t1"));

    let outcome = service
        .heartbeat_runtime_node("t1", &alice, "m1", "My Machine", "[]", "[]", "[]", 2)
        .unwrap();
    assert!(outcome.created && outcome.pending);
    assert_eq!(outcome.status, "pending");
    assert_eq!(service.node_reviews.len(), 1);
    assert_eq!(service.node_reviews[0].machine_id, "m1");

    let again = service
        .heartbeat_runtime_node("t1", &alice, "m1", "My Machine", "[]", "[]", "[]", 3)
        .unwrap();
    assert!(
        !again.created && !again.pending,
        "the review task is raised exactly once"
    );
    assert_eq!(service.node_reviews.len(), 1);

    service.set_runtime_node_policy("t1", false, 4);
    service
        .heartbeat_runtime_node("t1", &alice, "m1", "My Machine", "[]", "[]", "[]", 5)
        .unwrap();
    let roster = service.list_runtime_nodes("t1");
    assert_eq!(roster[0].status, "pending");
}

#[test]
fn a_blocked_machine_cannot_rejoin_the_roster_by_heartbeating() {
    let mut service = setup();
    let alice = create_user(&mut service, "alice");
    let node_id = service
        .heartbeat_runtime_node("t1", &alice, "m1", "My Machine", "[]", "[]", "[]", 1)
        .unwrap()
        .node_id;

    service.set_runtime_node_status("t1", &node_id, "blocked", 2).unwrap();
    let err = service
        .heartbeat_runtime_node("t1", &alice, "m1", "My Machine", "[]", "[]", "[]", 3)
        .unwrap_err();
    assert!(matches!(err, OrgError::Forbidden(_)));

    let roster = service.list_runtime_nodes("t1");
    assert_eq!(roster.len(), 1);
    assert_eq!(roster[0].status, "blocked");

    service.set_runtime_node_status("t1", &node_id, "approved", 4).unwrap();
    assert!(service
        .heartbeat_runtime_node("t1", &alice, "m1", "My Machine", "[]", "[]", "[]", 5)
        .is_ok());
    assert_eq!(
        service
            .set_runtime_node_status("t1", &node_id, "pending", 6)
            .unwrap_err()
            .code(),
        "BAD_REQUEST"
    );
    assert_eq!(
        service
            .set_runtime_node_status("t1", "node_missing", "approved", 6)
            .unwrap_err()
            .code(),
        "RUNTIME_NODE_NOT_FOUND"
    );
}

#[test]
fn member_roster_shows_own_and_shared_nodes_only() {
    let mut service = setup();
    let alice = create_user(&mut service, "alice");
    let bob = create_user(&mut service, "bob");

    let a1 = service
        .heartbeat_runtime_node("t1", &alice, "ma1", "Alice 1", "[]", "[]", "[]", 1)
        .unwrap()
        .node_id;
    service
        .heartbeat_runtime_node("t1", &alice, "ma2", "Alice 2", "[]", "[]", "[]", 2)
        .unwrap();
    let b1 = service
        .heartbeat_runtime_node("t1", &bob, "mb1", "Bob 1", "[]", "[]", "[]", 3)
        .unwrap()
        .node_id;

    let alice_view = service.list_my_runtime_nodes("t1", &alice);
    assert_eq!(alice_view.len(), 2);

    service
        .set_runtime_node_visibility("t1", &a1, &alice, false, "shared", 4)
        .unwrap();
    let bob_view = service.list_my_runtime_nodes("t1", &bob);
    assert_eq!(bob_view.len(), 2, "own + shared: {bob_view:?}");
    assert!(bob_view.iter().any(|n| n.id == a1));

    assert!(matches!(
        service.set_runtime_node_visibility("t1", &b1, &alice, false, "shared", 5),
        Err(OrgError::Forbidden(_))
    ));
    service
        .set_runtime_node_visibility("t1", &b1, &alice, true, "shared", 6)
        .unwrap();
    assert_eq!(service.list_my_runtime_nodes("t1", &alice).len(), 3);
    assert_eq!(
        service
            .set_runtime_node_visibility("t1", &b1, &alice, true, "public", 7)
            .unwrap_err()
            .code(),
        "BAD_REQUEST"
    );
}

fn github(base_url: Option<&str>, secret: Option<&str>) -> IntegrationCredentials {
    IntegrationCredentials {
        provider: "github".to_owned(),
        base_url: base_url.map(str::to_owned),
        config: "{}".to_owned(),
        secret: secret.map(str::to_owned),
    }
}

#[test]
fn github_sync_url_is_repo_list() {
    let url = HttpConnectorProvider::sync_url(&github(Some("https://api.github.com"), None));
    assert!(url.unwrap().contains("/user/repos"));
}

#[test]
fn connectors_are_asked_at_their_address() {
    let request = HttpConnectorProvider::sync(&github(Some(" ghe.acme.com "), Some(" tok ")), None).unwrap();
    assert_eq!(request.url, "https://ghe.acme.com/user/repos?per_page=5");
    assert_eq!(request.bearer.as_deref(), Some("tok"));
    assert_eq!(KNOWN_PROVIDERS.len(), 4);
    let mut unknown = github(Some("https://x"), None);
    unknown.provider = "myspace".to_owned();
    let err = HttpConnectorProvider::sync(&unknown, Some("7")).unwrap_err();
    assert_eq!(err.status, "error");
    assert_eq!(err.message, "Unknown provider myspace");
    assert_eq!(err.cursor.as_deref(), Some("7"));
    match StubIntegrationProvider.test_connection(&github(None, None)) {
        ProbeStep::Done(result) => assert_eq!(result.status, "not_configured"),
        ProbeStep::Get(request) => panic!("asked {request:?}"),
    }
}

#[test]
fn probes_are_judged_by_their_reply() {
    let url = "https://ghe.acme.com";
    let ok = connection_result("github", url, &HttpReply::Status(401));
    assert_eq!(ok.status, "ok");
    assert_eq!(ok.message, "github reached https://ghe.acme.com (HTTP 401)");
    let broken = connection_result("github", url, &HttpReply::Status(500));
    assert_eq!(broken.message, "https://ghe.acme.com returned HTTP 500");
    let lost = connection_result("github", url, &HttpReply::Failed("timed out".to_owned()));
    assert_eq!(lost.message, "Could not reach https://ghe.acme.com: timed out");
    let none = connection_result("github", url, &HttpReply::NoClient("no TLS".to_owned()));
    assert_eq!((none.status.as_str(), none.message.as_str()), ("error", "no TLS"));

    let found = IntegrationTestResult { status: "ok".to_owned(), message: "there".to_owned() };
    assert_eq!(probe_as_sync(found, Some("c")).items_synced, 1);
    let missing = IntegrationTestResult { status: "error".to_owned(), message: "gone".to_owned() };
    assert_eq!(probe_as_sync(missing, Some("c")).items_synced, 0);
    assert_eq!(sync_result("github", url, &HttpReply::Status(500), None).status, "error");
}

#[test]
fn invite_emails_are_written_and_sent_securely() {
    let email = compose_invite_email("noreply@acme.com", "ann@acme.com", "AB12-CD34", "Acme").unwrap();
    assert_eq!(email.subject, "Invitation to join Acme");
    assert_eq!(email.body, "You have been invited to Acme.\n\nInvite code: AB12-CD34\n");
    let refused = compose_invite_email("noreply@acme.com", "not an address", "C", "Acme").unwrap_err();
    assert_eq!(refused.message, "Invalid recipient: not an address");
    let refused = write_invite_email(false, true, "x", "y", "C", "Acme").unwrap_err();
    assert_eq!(refused.message, "Invalid From address: x");

    let plan = build_transport(465, Some("bot"), Some("pw"));
    assert!(plan.implicit_tls);
    assert_eq!(plan.login.unwrap().username, "bot");
    let plan = build_transport(587, Some("bot"), Some(""));
    assert!(!plan.implicit_tls);
    assert!(plan.login.is_none());

    assert_eq!(send_result("a@b", Ok(())).message, "Invite email sent to a@b");
    assert_eq!(send_result("a@b", Err("refused".to_owned())).status, "error");
}

#[test]
fn mail_goes_to_an_enabled_host() {
    let mut service = setup();
    service.set_smtp_config("smtp.acme.com", 587, None, None, "", "a@b.c", false, 1);
    assert_eq!(service.smtp_server(), None);
    service.set_smtp_config("", 587, None, None, "", "a@b.c", true, 2);
    assert_eq!(service.smtp_server(), None);
    service.set_smtp_config("smtp.acme.com", 70_000, None, None, "", "a@b.c", true, 3);
    assert_eq!(service.smtp_server(), None);
    service.set_smtp_config("smtp.acme.com", 465, None, None, "", "a@b.c", true, 4);
    assert_eq!(service.smtp_server(), Some(("smtp.acme.com".to_owned(), 465)));
}

#[test]
fn callers_are_let_in_by_group_and_role() {
    assert_eq!(
        RequireOrgAdmin::let_in(actor("default", ROLE_ORG_ADMIN)).unwrap_err().code(),
        "NOT_IN_ENTERPRISE"
    );
    assert_eq!(RequireOrgAdmin::let_in(actor("t1", "member")).unwrap_err().code(), "FORBIDDEN");
    assert_eq!(RequireOrgAdmin::let_in(actor("t1", ROLE_ORG_ADMIN)).unwrap().0.tenant_id, "t1");
    assert!(RequireSystemAdmin::let_in(actor("t1", ROLE_ORG_ADMIN)).is_err());
    assert!(RequireSystemAdmin::let_in(actor("default", ROLE_SYSTEM_ADMIN)).is_ok());
    assert!(require_group(&actor("default", "member")).is_err());
    assert!(require_group(&actor("t1", "member")).is_ok());
    assert!(ensure_company_governor(&actor("t1", "member"), true).is_ok());
    assert!(ensure_company_governor(&actor("t1", ROLE_SYSTEM_ADMIN), false).is_ok());
    assert!(ensure_company_governor(&actor("t1", ROLE_ORG_ADMIN), false).is_err());
    assert_eq!(default_audit_limit(), 100);
    assert_eq!(default_agent_audit_limit(), 500);
}

#[test]
fn a_company_governs_its_own_groups_only() {
    let mut service = setup();
    let (tenant_id, _, _) = service
        .create_tenant_for_enterprise("ent-a", "Group A", "creator", None, 0)
        .unwrap();
    let governor = actor("t1", "member");
    assert!(service.ensure_company_owns_tenant(&governor, true, "ent-a", &tenant_id).is_ok());
    assert_eq!(
        service
            .ensure_company_owns_tenant(&governor, true, "ent-b", &tenant_id)
            .unwrap_err()
            .code(),
        "TENANT_NOT_FOUND"
    );
    assert_eq!(
        service
            .ensure_company_owns_tenant(&governor, false, "ent-a", &tenant_id)
            .unwrap_err()
            .code(),
        "FORBIDDEN"
    );
}

#[test]
fn only_known_roles_can_be_asked_for() {
    assert_eq!(requested_role(ROLE_SYSTEM_ADMIN, " org_admin ").unwrap(), ROLE_ORG_ADMIN);
    assert_eq!(requested_role(ROLE_SYSTEM_ADMIN, "emperor").unwrap_err().code(), "BAD_REQUEST");
    assert_eq!(requested_role(ROLE_ORG_ADMIN, "system_admin").unwrap_err().code(), "FORBIDDEN");
    assert_eq!(requested_machine(&actor("t1", "member"), " m1 ").unwrap(), "m1");
    assert!(requested_machine(&actor("t1", "member"), "  ").is_err());
}

#[test]
fn an_actor_is_resolved_from_the_active_group() {
    let mut service = setup();
    let tenant_id = acme(&mut service);
    let who = service.actor(SYSTEM_DEFAULT_USER_ID, "admin");
    assert_eq!(who.tenant_id, tenant_id);
    assert_eq!(who.role, ROLE_SYSTEM_ADMIN);
    assert_eq!(service.public_info().as_deref(), Some("Acme"));
    assert_eq!(service.list_all_tenants().len(), 1);
}

#[test]
fn features_follow_the_licence_of_the_company() {
    let mut service = setup();
    let paid = vec!["pro".to_owned()];
    service.company_members.push(CompanyMemberRow {
        user_id: "ann".to_owned(),
        enterprise_id: "ent1".to_owned(),
    });
    assert!(!service.enterprise_feature_allowed("ann", &paid));
    service.licenses.push(LicenseRow { enterprise_id: "ent1".to_owned(), tier: "pro".to_owned() });
    assert!(service.enterprise_feature_allowed("ann", &paid));
    assert!(service.require_feature("ann", &paid, "the audit log").is_ok());
    match service.require_feature("ann", &vec![], "the audit log") {
        Err(OrgError::Forbidden(m)) => {
            assert_eq!(m, "the audit log is not included in the current plan");
        }
        other => panic!("{other:?}"),
    }
    assert!(service.require_feature("bob", &vec![], "the audit log").is_ok());
}
