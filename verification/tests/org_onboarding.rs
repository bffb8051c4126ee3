//! Groups, invites, joining and leaving.
use dream_domain::ids::{generate_invite_code, unused_id};
use dream_domain::org::codes::{format_invite_code_for_display, normalize_invite_code};
use dream_domain::org::error::OrgError;
use dream_domain::org::models::{
    is_admin_role, is_enterprise_tenant_id, is_system_admin_role, InviteRow, SsoIdentityRow,
    UserRow, DEFAULT_TENANT_ID, ROLE_MEMBER, ROLE_ORG_ADMIN, ROLE_SYSTEM_ADMIN,
    SYSTEM_DEFAULT_USER_ID,
};
use dream_domain::org::service::OrgService;
use std::collections::HashSet;

const DAY: i64 = 86_400_000;

fn setup() -> OrgService {
    let mut service = OrgService::new();
    service.users.push(UserRow {
        id: SYSTEM_DEFAULT_USER_ID.to_owned(),
        username: Some("admin".to_owned()),
        last_login: None,
    });
    service
}

fn create_user(service: &mut OrgService, username: &str) -> String {
    let id = format!("user_{username}");
    service.users.push(UserRow { id: id.clone(), username: Some(username.to_owned()), last_login: None });
    id
}

/// Leaves with a code that is compared with the stored one in plain form.
fn leave_with(service: &mut OrgService, user: &str, tenant: Option<&str>, code: &str, now: i64) -> Result<Option<String>, String> {
    let matches = match service.exit_hash_to_check(user, tenant) {
        Some(hash) => hash == format!("hash of {code}"),
        None => false,
    };
    service.leave(user, tenant, matches, now).map_err(|e| e.code().to_owned())
}

fn setup_two_groups(service: &mut OrgService) -> (String, String, String) {
    let (g1, _) = service.create_tenant(SYSTEM_DEFAULT_USER_ID, "Group One", 1).unwrap();
    let (g2, _, code2) = service
        .create_tenant_for_enterprise("ent1", "Group Two", SYSTEM_DEFAULT_USER_ID, None, 2)
        .unwrap();
    let (_, code1) = service.create_invite(&g1, SYSTEM_DEFAULT_USER_ID, None, None, 3).unwrap();
    let member = create_user(service, "multi");
    service.join_with_invite(&member, &code1, 4).unwrap();
    service.join_with_invite(&member, &code2, 5).unwrap();
    (g1, g2, member)
}

#[test]
fn bulk_invite_generates_unique_codes_and_clamps() {
    let mut service = setup();
    let (tenant_id, _) = service.create_tenant(SYSTEM_DEFAULT_USER_ID, "Acme", 0).unwrap();
    let batch = service
        .create_invites_bulk(&tenant_id, SYSTEM_DEFAULT_USER_ID, 5, Some(1), Some(7), 0)
        .unwrap();
    assert_eq!(batch.len(), 5);
    let displays: HashSet<String> = batch.iter().map(|(_, d)| d.clone()).collect();
    assert_eq!(displays.len(), 5, "all codes unique");
    assert_eq!(batch[0].0.expires_at, Some(7 * DAY));
    assert_eq!(
        service
            .create_invites_bulk(&tenant_id, SYSTEM_DEFAULT_USER_ID, 0, None, None, 0)
            .unwrap()
            .len(),
        1
    );
    assert_eq!(
        service
            .create_invites_bulk(&tenant_id, SYSTEM_DEFAULT_USER_ID, 500, None, None, 0)
            .unwrap()
            .len(),
        100
    );
}

#[test]
fn domain_auto_join_matches_case_insensitively_and_is_idempotent() {
    let mut service = setup();
    let (tenant_id, _) = service.create_tenant(SYSTEM_DEFAULT_USER_ID, "Acme", 0).unwrap();
    service.set_tenant_allowed_domains(&tenant_id, &vec!["Acme.com".to_owned()]).unwrap();
    assert_eq!(service.tenant_allowed_domains(&tenant_id), vec!["acme.com"]);

    let alice = create_user(&mut service, "alice");
    let joined = service.auto_join_by_email(&alice, "Alice@ACME.COM", 1);
    assert_eq!(joined, Some(tenant_id.clone()));

    assert_eq!(service.auto_join_by_email(&alice, "alice@acme.com", 2), None);

    let bob = create_user(&mut service, "bob");
    assert_eq!(service.auto_join_by_email(&bob, "bob@other.com", 3), None);

    assert_eq!(service.auto_join_by_email(&bob, "not-an-email", 4), None);

    service.set_tenant_allowed_domains(&tenant_id, &vec![]).unwrap();
    assert!(service.tenant_allowed_domains(&tenant_id).is_empty());
    let carol = create_user(&mut service, "carol");
    assert_eq!(service.auto_join_by_email(&carol, "carol@acme.com", 5), None);
}

#[test]
fn context_in_personal_edition_is_empty() {
    let mut service = setup();
    let user = create_user(&mut service, "solo");
    let ctx = service.context(&user);
    assert_eq!(ctx.tenant_id, DEFAULT_TENANT_ID);
    assert!(!ctx.is_enterprise);
    assert_eq!(ctx.member_count, 0);
}

#[test]
fn normalize_strips_dashes_and_uppercases() {
    assert_eq!(normalize_invite_code(" ab-12 cd\t"), "AB12CD");
}

#[test]
fn display_format_splits_after_four() {
    assert_eq!(format_invite_code_for_display("AB12CD34"), "AB12-CD34");
    assert_eq!(format_invite_code_for_display("AB12"), "AB12");
    assert_eq!(
        format_invite_code_for_display("0123456789ABCDEF"),
        "0123-4567-89AB-CDEF"
    );
    assert_eq!(normalize_invite_code("0123-4567-89AB-CDEF"), "0123456789ABCDEF");
}

#[test]
fn generated_invite_code_is_16_hex() {
    let code = generate_invite_code().unwrap();
    assert_eq!(code.len(), 16, "8 CSPRNG bytes → 16 hex chars");
    assert!(code.chars().all(|c| c.is_ascii_hexdigit() && !c.is_lowercase()));
}

#[test]
fn create_join_exit_full_cycle() {
    let mut service = setup();

    let (tenant_id, tenant_name) = service
        .create_tenant(SYSTEM_DEFAULT_USER_ID, "  Acme Inc  ", 10)
        .unwrap();
    assert!(tenant_id.starts_with("tenant_"));
    assert_eq!(tenant_name, "Acme Inc");
    assert_eq!(service.effective_role(SYSTEM_DEFAULT_USER_ID), ROLE_SYSTEM_ADMIN);

    let err = service
        .create_tenant(SYSTEM_DEFAULT_USER_ID, "Другая", 11)
        .unwrap_err();
    assert_eq!(err.code(), "ALREADY_IN_ENTERPRISE");

    let (invite, display) = service
        .create_invite(&tenant_id, SYSTEM_DEFAULT_USER_ID, Some(2), Some(1), 12)
        .unwrap();
    assert_eq!(invite.use_count, 0);
    assert!(display.contains('-'));
    service.preview_invite(&display, 13).unwrap();

    let member = create_user(&mut service, "member1");
    let member = member.as_str();
    let (joined_tenant, joined_name, joined_enterprise_id) =
        service.join_with_invite(member, &display, 14).unwrap();
    assert_eq!(joined_tenant, tenant_id);
    assert_eq!(joined_name, "Acme Inc");
    assert_eq!(
        joined_enterprise_id, None,
        "a standalone tenant (create_tenant, no company) must not report an enterprise_id"
    );
    assert_eq!(service.effective_role(member), ROLE_MEMBER);
    assert_eq!(service.member_count(&tenant_id), 2);

    let err = service.join_with_invite(member, &display, 15).unwrap_err();
    assert_eq!(err.code(), "ALREADY_IN_ENTERPRISE");

    leave_with(&mut service, member, None, "", 16).unwrap();
    assert_eq!(service.member_count(&tenant_id), 1);

    service.preview_invite(&display, 17).unwrap();
    service.join_with_invite(member, &display, 18).unwrap();
    assert_eq!(service.member_count(&tenant_id), 2);

    service
        .set_exit_password(&tenant_id, "s3cret", "hash of s3cret".to_owned(), 19)
        .unwrap();
    assert!(service.exit_password_status(&tenant_id).unwrap());

    let err = leave_with(&mut service, member, None, "wrong", 20).unwrap_err();
    assert_eq!(err, "WRONG_EXIT_CODE");

    leave_with(&mut service, member, None, "s3cret", 21).unwrap();
    assert_eq!(service.member_count(&tenant_id), 1);
    let err = leave_with(&mut service, member, None, "s3cret", 22).unwrap_err();
    assert_eq!(err, "NOT_IN_ENTERPRISE");
}

#[test]
fn join_with_invite_reports_the_owning_company_for_a_company_tenant() {
    let mut service = setup();
    let (tenant_id, _tenant_name, invite_code) = service
        .create_tenant_for_enterprise("ent_test1", "Acme R&D", SYSTEM_DEFAULT_USER_ID, None, 0)
        .unwrap();

    let member = create_user(&mut service, "member1");
    let (joined_tenant, _joined_name, joined_enterprise_id) =
        service.join_with_invite(&member, &invite_code, 1).unwrap();

    assert_eq!(joined_tenant, tenant_id);
    assert_eq!(
        joined_enterprise_id.as_deref(),
        Some("ent_test1"),
        "a company-owned tenant must report its owning enterprise_id on join"
    );
}

#[test]
fn join_with_invite_copies_the_joiner_sso_profile_onto_the_membership_row() {
    let mut service = setup();
    let (tenant_id, _) = service.create_tenant(SYSTEM_DEFAULT_USER_ID, "Acme Inc", 0).unwrap();
    let (_, display) = service
        .create_invite(&tenant_id, SYSTEM_DEFAULT_USER_ID, None, None, 1)
        .unwrap();

    let member = create_user(&mut service, "member1");
    service.sso_identities.push(SsoIdentityRow {
        user_id: member.clone(),
        provider: "feishu".to_owned(),
        display_name: Some("张三".to_owned()),
        org_unit_path: Some("研发中心".to_owned()),
        job_title: Some("高级工程师".to_owned()),
        last_seen_at: 0,
    });

    service.join_with_invite(&member, &display, 2).unwrap();

    let users = service.list_users(&tenant_id).unwrap();
    let joined = users
        .iter()
        .find(|u| u.user_id == member)
        .expect("member should be listed");
    assert_eq!(joined.display_name.as_deref(), Some("张三"));
    assert_eq!(joined.org_unit_path.as_deref(), Some("研发中心"));
    assert_eq!(joined.job_title.as_deref(), Some("高级工程师"));
}

#[test]
fn join_with_invite_leaves_the_profile_null_for_a_locally_created_member() {
    let mut service = setup();
    let (tenant_id, _) = service.create_tenant(SYSTEM_DEFAULT_USER_ID, "Acme Inc", 0).unwrap();
    let (_, display) = service
        .create_invite(&tenant_id, SYSTEM_DEFAULT_USER_ID, None, None, 1)
        .unwrap();

    let member = create_user(&mut service, "local_member");
    service.join_with_invite(&member, &display, 2).unwrap();

    let users = service.list_users(&tenant_id).unwrap();
    let joined = users
        .iter()
        .find(|u| u.user_id == member)
        .expect("member should be listed");
    assert_eq!(joined.display_name, None);
    assert_eq!(joined.org_unit_path, None);
    assert_eq!(joined.job_title, None);
}

#[test]
fn non_admin_cannot_create_tenant() {
    let mut service = setup();
    let user = create_user(&mut service, "random_user");
    let err = service.create_tenant(&user, "Evil Corp", 0).unwrap_err();
    assert_eq!(err.code(), "FORBIDDEN");
}

#[test]
fn a_server_can_host_multiple_standalone_tenants() {
    let mut service = setup();
    let (first_id, _) = service.create_tenant(SYSTEM_DEFAULT_USER_ID, "Acme", 0).unwrap();

    service.members.retain(|m| m.user_id != SYSTEM_DEFAULT_USER_ID);

    let (second_id, second_name) = service
        .create_tenant(SYSTEM_DEFAULT_USER_ID, "SecondCorp", 1)
        .unwrap();
    assert_ne!(second_id, first_id);
    assert_eq!(second_name, "SecondCorp");
    assert_eq!(service.tenants.len(), 2);
}

#[test]
fn tenant_belongs_to_enterprise_matches_only_its_own_owner() {
    let mut service = setup();
    let (tenant_id, _, _) = service
        .create_tenant_for_enterprise("ent-a", "Group A", "creator", None, 0)
        .unwrap();

    assert!(service.tenant_belongs_to_enterprise(&tenant_id, "ent-a"));
    assert!(!service.tenant_belongs_to_enterprise(&tenant_id, "ent-b"));
    let (standalone_id, _) = service.create_tenant(SYSTEM_DEFAULT_USER_ID, "Solo", 1).unwrap();
    assert!(!service.tenant_belongs_to_enterprise(&standalone_id, "ent-a"));
    assert!(!service.tenant_belongs_to_enterprise("tenant_nonexistent", "ent-a"));
}

#[test]
fn reset_local_enterprise_clears_stale_tenant_and_allows_recreate() {
    let mut service = setup();
    let (tenant_id, _) = service.create_tenant(SYSTEM_DEFAULT_USER_ID, "Acme", 0).unwrap();
    let member = create_user(&mut service, "member1");
    let (_invite, code) = service
        .create_invite(&tenant_id, SYSTEM_DEFAULT_USER_ID, None, None, 1)
        .unwrap();
    service.join_with_invite(&member, &code, 2).unwrap();

    service.members.retain(|m| m.user_id != SYSTEM_DEFAULT_USER_ID);

    let archive = service.reset_archive(SYSTEM_DEFAULT_USER_ID, 3).unwrap();
    let result = service
        .reset_local_enterprise(SYSTEM_DEFAULT_USER_ID, &archive, "archives/enterprise-3.json", 3)
        .unwrap();
    assert_eq!(result.archived_tenant_count, 1);
    assert_eq!(result.archived_member_count, 1);
    assert_eq!(result.archive_path, "archives/enterprise-3.json");
    assert_eq!(archive.archived_at, 3);
    assert_eq!(archive.enterprise_id, None);
    assert_eq!(archive.file_name(), "enterprise-3.json");
    assert_eq!(archive.tenants[0].name, "Acme");
    assert_eq!(archive.tenants[0].members[0].user_id, member);

    assert_eq!(service.tenants.len(), 0);
    assert_eq!(service.members.len(), 0);

    let (new_tenant_id, new_name) = service
        .create_tenant(SYSTEM_DEFAULT_USER_ID, "SecondCorp", 4)
        .unwrap();
    assert_ne!(new_tenant_id, tenant_id);
    assert_eq!(new_name, "SecondCorp");
}

#[test]
fn reset_local_enterprise_requires_system_admin() {
    let mut service = setup();
    let (tenant_id, _) = service.create_tenant(SYSTEM_DEFAULT_USER_ID, "Acme", 0).unwrap();
    let (_, code) = service
        .create_invite(&tenant_id, SYSTEM_DEFAULT_USER_ID, None, None, 1)
        .unwrap();
    let member = create_user(&mut service, "member1");
    service.join_with_invite(&member, &code, 2).unwrap();

    let err = service.reset_archive(&member, 3).unwrap_err();
    assert_eq!(err.code(), "FORBIDDEN");
    let archive = service.reset_archive(SYSTEM_DEFAULT_USER_ID, 3).unwrap();
    let err = service
        .reset_local_enterprise(&member, &archive, "archives/enterprise-3.json", 3)
        .unwrap_err();
    assert_eq!(err.code(), "FORBIDDEN");

    assert_eq!(service.tenants.len(), 1);
}

#[test]
fn invite_exhaustion_and_revoke() {
    let mut service = setup();
    let (tenant_id, _) = service.create_tenant(SYSTEM_DEFAULT_USER_ID, "Acme", 0).unwrap();

    let (_invite, code) = service
        .create_invite(&tenant_id, SYSTEM_DEFAULT_USER_ID, Some(1), None, 1)
        .unwrap();
    let u1 = create_user(&mut service, "u1");
    let u2 = create_user(&mut service, "u2");
    service.join_with_invite(&u1, &code, 2).unwrap();
    let err = service.join_with_invite(&u2, &code, 3).unwrap_err();
    assert_eq!(err.code(), "INVALID_CODE");

    let (invite2, code2) = service
        .create_invite(&tenant_id, SYSTEM_DEFAULT_USER_ID, None, None, 4)
        .unwrap();
    service.revoke_invite(&tenant_id, &invite2.id).unwrap();
    let err = service.preview_invite(&code2, 5).unwrap_err();
    assert_eq!(err.code(), "INVALID_CODE");

    let listed = service.list_invites(&tenant_id);
    assert_eq!(listed.len(), 2);
}

#[test]
fn concurrent_joins_cannot_exceed_max_uses() {
    let mut service = setup();
    let (tenant_id, _) = service.create_tenant(SYSTEM_DEFAULT_USER_ID, "Acme", 0).unwrap();
    let (_, code) = service
        .create_invite(&tenant_id, SYSTEM_DEFAULT_USER_ID, Some(1), None, 1)
        .unwrap();
    let u1 = create_user(&mut service, "racer1");
    let u2 = create_user(&mut service, "racer2");

    let r1 = service.join_with_invite(&u1, &code, 2);
    let r2 = service.join_with_invite(&u2, &code, 2);

    let successes = [&r1, &r2].iter().filter(|r| r.is_ok()).count();
    assert_eq!(successes, 1);
    let loser = if r1.is_ok() { &r2 } else { &r1 };
    assert_eq!(loser.as_ref().unwrap_err().code(), "INVALID_CODE");
    assert_eq!(service.member_count(&tenant_id), 2);
}

#[test]
fn an_invite_is_claimed_no_more_often_than_allowed() {
    let mut service = setup();
    let (tenant_id, _) = service.create_tenant(SYSTEM_DEFAULT_USER_ID, "Acme", 0).unwrap();
    let (invite, code) = service
        .create_invite(&tenant_id, SYSTEM_DEFAULT_USER_ID, Some(1), None, 1)
        .unwrap();
    // Both saw a usable invite before either claimed it.
    service.preview_invite(&code, 2).unwrap();
    service.preview_invite(&code, 2).unwrap();
    assert!(service.claim_invite(&invite.id, 2));
    assert!(!service.claim_invite(&invite.id, 2));
    assert_eq!(service.invites[0].use_count, 1);
}

#[test]
fn last_admin_cannot_leave_while_other_members_remain() {
    let mut service = setup();
    let (tenant_id, _) = service.create_tenant(SYSTEM_DEFAULT_USER_ID, "Acme", 0).unwrap();
    let (_, code) = service
        .create_invite(&tenant_id, SYSTEM_DEFAULT_USER_ID, None, None, 1)
        .unwrap();
    let member = create_user(&mut service, "member1");
    service.join_with_invite(&member, &code, 2).unwrap();

    let err = leave_with(&mut service, SYSTEM_DEFAULT_USER_ID, None, "", 3).unwrap_err();
    assert_eq!(err, "LAST_ADMIN_CANNOT_LEAVE");
    assert_eq!(service.member_count(&tenant_id), 2);
}

#[test]
fn admin_can_leave_when_another_admin_remains() {
    let mut service = setup();
    let (tenant_id, _) = service.create_tenant(SYSTEM_DEFAULT_USER_ID, "Acme", 0).unwrap();
    let (_, code) = service
        .create_invite(&tenant_id, SYSTEM_DEFAULT_USER_ID, None, None, 1)
        .unwrap();
    let member = create_user(&mut service, "member1");
    service.join_with_invite(&member, &code, 2).unwrap();
    service
        .set_user_role(&tenant_id, SYSTEM_DEFAULT_USER_ID, &member, ROLE_ORG_ADMIN, 3)
        .unwrap();

    leave_with(&mut service, SYSTEM_DEFAULT_USER_ID, None, "", 4).unwrap();
    assert_eq!(service.member_count(&tenant_id), 1);
}

#[test]
fn last_admin_can_leave_when_no_other_members_remain() {
    let mut service = setup();
    service.create_tenant(SYSTEM_DEFAULT_USER_ID, "Acme", 0).unwrap();
    leave_with(&mut service, SYSTEM_DEFAULT_USER_ID, None, "", 1).unwrap();
}

#[test]
fn cannot_demote_last_admin_to_member() {
    let mut service = setup();
    let (tenant_id, _) = service.create_tenant(SYSTEM_DEFAULT_USER_ID, "Acme", 0).unwrap();
    let (_, code) = service
        .create_invite(&tenant_id, SYSTEM_DEFAULT_USER_ID, None, None, 1)
        .unwrap();
    let member = create_user(&mut service, "member1");
    service.join_with_invite(&member, &code, 2).unwrap();

    let err = service
        .set_user_role(&tenant_id, SYSTEM_DEFAULT_USER_ID, SYSTEM_DEFAULT_USER_ID, ROLE_MEMBER, 3)
        .unwrap_err();
    assert_eq!(err.code(), "LAST_ADMIN_CANNOT_LEAVE");
    assert_eq!(service.effective_role(SYSTEM_DEFAULT_USER_ID), ROLE_SYSTEM_ADMIN);
}

#[test]
fn can_demote_admin_when_another_admin_remains() {
    let mut service = setup();
    let (tenant_id, _) = service.create_tenant(SYSTEM_DEFAULT_USER_ID, "Acme", 0).unwrap();
    let (_, code) = service
        .create_invite(&tenant_id, SYSTEM_DEFAULT_USER_ID, None, None, 1)
        .unwrap();
    let member = create_user(&mut service, "member1");
    service.join_with_invite(&member, &code, 2).unwrap();
    service
        .set_user_role(&tenant_id, SYSTEM_DEFAULT_USER_ID, &member, ROLE_ORG_ADMIN, 3)
        .unwrap();

    service
        .set_user_role(&tenant_id, SYSTEM_DEFAULT_USER_ID, &member, ROLE_MEMBER, 4)
        .unwrap();
    assert_eq!(service.effective_role(&member), ROLE_MEMBER);
}

#[test]
fn audit_log_records_actor_username() {
    let mut service = setup();
    let (tenant_id, _) = service.create_tenant(SYSTEM_DEFAULT_USER_ID, "Acme", 0).unwrap();

    let logs = service.list_audit_logs(&tenant_id, 10);
    let create_entry = logs.iter().find(|l| l.action == "org.create").unwrap();
    assert_eq!(create_entry.user_id.as_deref(), Some(SYSTEM_DEFAULT_USER_ID));
    assert_eq!(create_entry.username.as_deref(), Some("admin"));
}

#[test]
fn set_user_role_audit_attributes_to_actor_not_target() {
    let mut service = setup();
    let (tenant_id, _) = service.create_tenant(SYSTEM_DEFAULT_USER_ID, "Acme", 0).unwrap();
    let (_, code) = service
        .create_invite(&tenant_id, SYSTEM_DEFAULT_USER_ID, None, None, 1)
        .unwrap();
    let member = create_user(&mut service, "member1");
    service.join_with_invite(&member, &code, 2).unwrap();

    service
        .set_user_role(&tenant_id, SYSTEM_DEFAULT_USER_ID, &member, ROLE_ORG_ADMIN, 3)
        .unwrap();

    let logs = service.list_audit_logs(&tenant_id, 10);
    let role_entry = logs.iter().find(|l| l.action == "set_role").unwrap();
    assert_eq!(role_entry.user_id.as_deref(), Some(SYSTEM_DEFAULT_USER_ID));
    assert_eq!(role_entry.username.as_deref(), Some("admin"));
    assert_ne!(role_entry.user_id.as_deref(), Some(member.as_str()));
    let resource = role_entry.resource.as_deref().unwrap();
    assert!(
        resource.contains(&member),
        "resource should name the target: {resource}"
    );
    assert!(
        resource.contains(ROLE_ORG_ADMIN),
        "resource should name the new role: {resource}"
    );
}

#[test]
fn create_for_enterprise_allows_multiple_under_same_company() {
    let mut service = setup();
    let (t1, _, code1) = service
        .create_tenant_for_enterprise("ent1", "Group A", SYSTEM_DEFAULT_USER_ID, None, 0)
        .unwrap();
    let (t2, _, _) = service
        .create_tenant_for_enterprise("ent1", "Group B", SYSTEM_DEFAULT_USER_ID, None, 1)
        .unwrap();
    assert_ne!(t1, t2);
    assert!(!code1.is_empty(), "an invite is auto-generated");
    let list = service.list_tenants_by_enterprise("ent1");
    assert_eq!(list.len(), 2);
    assert_eq!(list.iter().map(|t| t.member_count).sum::<i64>(), 0);
}

#[test]
fn create_for_enterprise_does_not_auto_join_creator() {
    let mut service = setup();
    let op = create_user(&mut service, "op");
    service
        .create_tenant_for_enterprise("ent1", "Group A", &op, None, 0)
        .unwrap();
    assert!(service.membership(&op).is_none());
}

#[test]
fn create_for_enterprise_seeds_initial_admin_across_multiple_groups() {
    let mut service = setup();
    let admin = create_user(&mut service, "grpadmin");
    service
        .create_tenant_for_enterprise("ent1", "Group A", SYSTEM_DEFAULT_USER_ID, Some(&admin), 0)
        .unwrap();
    service
        .create_tenant_for_enterprise("ent1", "Group B", SYSTEM_DEFAULT_USER_ID, Some(&admin), 1)
        .unwrap();
    let mine = service.list_memberships(&admin);
    assert_eq!(mine.len(), 2);
    assert!(mine.iter().all(|m| m.role == ROLE_ORG_ADMIN));
    assert_eq!(mine.iter().filter(|m| m.is_active).count(), 1);
}

#[test]
fn join_second_group_auto_activates_and_lists_both() {
    let mut service = setup();
    let (g1, g2, member) = setup_two_groups(&mut service);

    let mine = service.list_memberships(&member);
    assert_eq!(mine.len(), 2);
    assert_eq!(service.active_tenant_id(&member), g2);
    assert_eq!(service.tenant_of(&member), g2);
    assert!(mine.iter().find(|m| m.tenant_id == g2).unwrap().is_active);
    assert!(!mine.iter().find(|m| m.tenant_id == g1).unwrap().is_active);
}

#[test]
fn switch_active_tenant_changes_resolution() {
    let mut service = setup();
    let (g1, g2, member) = setup_two_groups(&mut service);
    assert_eq!(service.active_tenant_id(&member), g2);

    service.set_active_tenant(&member, &g1, 6).unwrap();
    assert_eq!(service.active_tenant_id(&member), g1);
    assert_eq!(service.tenant_of(&member), g1);
    let ctx = service.context(&member);
    assert_eq!(ctx.tenant_id, g1);

    let err = service.set_active_tenant(&member, "tenant_bogus", 7).unwrap_err();
    assert_eq!(err.code(), "NOT_IN_ENTERPRISE");
}

#[test]
fn effective_role_follows_active_tenant() {
    let mut service = setup();
    let (g1, g2, member) = setup_two_groups(&mut service);
    service
        .set_user_role(&g1, SYSTEM_DEFAULT_USER_ID, &member, ROLE_ORG_ADMIN, 6)
        .unwrap();

    assert_eq!(service.active_tenant_id(&member), g2);
    assert_eq!(service.effective_role(&member), ROLE_MEMBER);
    service.set_active_tenant(&member, &g1, 7).unwrap();
    assert_eq!(service.effective_role(&member), ROLE_ORG_ADMIN);
}

#[test]
fn leave_active_group_reselects_remaining_and_is_scoped() {
    let mut service = setup();
    let (g1, g2, member) = setup_two_groups(&mut service);
    assert_eq!(service.active_tenant_id(&member), g2);

    leave_with(&mut service, &member, Some(&g2), "", 6).unwrap();
    let mine = service.list_memberships(&member);
    assert_eq!(mine.len(), 1);
    assert_eq!(mine[0].tenant_id, g1);
    assert_eq!(service.active_tenant_id(&member), g1);

    leave_with(&mut service, &member, None, "", 7).unwrap();
    assert!(service.list_memberships(&member).is_empty());
    assert_eq!(service.active_tenant_id(&member), DEFAULT_TENANT_ID);
}

#[test]
fn active_tenant_defaults_when_no_membership() {
    let mut service = setup();
    let solo = create_user(&mut service, "solo");
    assert_eq!(service.active_tenant_id(&solo), DEFAULT_TENANT_ID);
    assert_eq!(service.tenant_of(&solo), DEFAULT_TENANT_ID);
    assert!(service.list_memberships(&solo).is_empty());
}

#[test]
fn disbanding_an_enterprise_deletes_its_project_groups_and_everything_scoped_to_them() {
    let mut service = setup();
    let alice = create_user(&mut service, "alice");
    let (tenant_id, _name, _code) = service
        .create_tenant_for_enterprise("ent1", "Group A", SYSTEM_DEFAULT_USER_ID, Some(&alice), 0)
        .unwrap();
    let (other_tenant, _, _) = service
        .create_tenant_for_enterprise("ent2", "Group Z", SYSTEM_DEFAULT_USER_ID, None, 1)
        .unwrap();

    service
        .heartbeat_runtime_node(&tenant_id, &alice, "m1", "My Machine", "[]", "[]", "[]", 0)
        .unwrap();
    service.create_department(&tenant_id, "Eng", None, 0).unwrap();

    let archive = service.disband_archive("ent1", 2).unwrap().unwrap();
    assert_eq!(archive.enterprise_id.as_deref(), Some("ent1"));
    assert_eq!(archive.tenants.len(), 1);
    assert_eq!(archive.tenants[0].members[0].user_id, alice);
    assert_eq!(archive.file_name(), "enterprise-disband-ent1-2.json");

    let deleted = service.disband_tenants_for_enterprise("ent1");
    assert_eq!(deleted, vec![tenant_id.clone()]);

    assert_eq!(service.tenants.iter().filter(|t| t.id == tenant_id).count(), 0);
    assert_eq!(service.members.iter().filter(|m| m.tenant_id == tenant_id).count(), 0);
    assert_eq!(service.invites.iter().filter(|i| i.tenant_id == tenant_id).count(), 0);
    assert_eq!(service.nodes.iter().filter(|n| n.tenant_id == tenant_id).count(), 0);
    assert_eq!(service.departments.iter().filter(|d| d.tenant_id == tenant_id).count(), 0);

    assert_eq!(
        service.tenants.iter().filter(|t| t.id == other_tenant).count(),
        1,
        "an unrelated company's project group must survive"
    );

    assert_eq!(service.disband_tenants_for_enterprise("ent1"), Vec::<String>::new());
    assert!(service.disband_archive("ent1", 3).unwrap().is_none());
}

// The rest is not told as a story but case by case.

#[test]
fn roles_and_groups_are_recognised() {
    assert!(is_admin_role("org_admin"));
    assert!(is_admin_role("system_admin"));
    assert!(!is_admin_role("member"));
    assert!(!is_admin_role("ORG_ADMIN"));
    assert!(is_system_admin_role("system_admin"));
    assert!(!is_system_admin_role("org_admin"));
    assert!(is_enterprise_tenant_id("tenant_1"));
    assert!(!is_enterprise_tenant_id("default"));
}

#[test]
fn an_invite_is_active_until_it_is_revoked_expired_or_used_up() {
    let invite = InviteRow {
        id: "i".to_owned(),
        tenant_id: "t".to_owned(),
        code: "C".to_owned(),
        created_by: "u".to_owned(),
        max_uses: Some(2),
        use_count: 1,
        expires_at: Some(100),
        created_at: 0,
        revoked: 0,
    };
    assert!(invite.is_active(99));
    assert!(!invite.is_active(101));
    let mut used = invite.copy();
    used.use_count = 2;
    assert!(!used.is_active(99));
    let mut revoked = invite.copy();
    revoked.revoked = 1;
    assert!(!revoked.is_active(99));
    let mut open = invite.copy();
    open.max_uses = None;
    open.expires_at = None;
    open.use_count = 1_000;
    assert!(open.is_active(i64::MAX));
}

#[test]
fn codes_survive_being_displayed() {
    for raw in ["", "A", "ABCD", "ABCDE", "0123456789ABCDEF"] {
        assert_eq!(normalize_invite_code(&format_invite_code_for_display(raw)), raw);
    }
    assert_eq!(normalize_invite_code("straße-1"), "STRASSE1");
}

#[test]
fn a_blank_group_name_is_refused() {
    let mut service = setup();
    let err = service.create_tenant(SYSTEM_DEFAULT_USER_ID, "  \t", 0).unwrap_err();
    assert_eq!(err.code(), "NAME_REQUIRED");
    let err = service
        .create_tenant_for_enterprise("ent1", "", SYSTEM_DEFAULT_USER_ID, None, 0)
        .unwrap_err();
    assert_eq!(err.code(), "NAME_REQUIRED");
    assert!(service.tenants.is_empty());
}

#[test]
fn an_expired_invite_opens_nothing() {
    let mut service = setup();
    let (tenant_id, _) = service.create_tenant(SYSTEM_DEFAULT_USER_ID, "Acme", 0).unwrap();
    let (invite, code) = service
        .create_invite(&tenant_id, SYSTEM_DEFAULT_USER_ID, None, Some(1), 1_000)
        .unwrap();
    assert_eq!(invite.expires_at, Some(1_000 + DAY));
    assert!(service.preview_invite(&code, 1_000 + DAY - 1).is_ok());
    assert_eq!(service.preview_invite(&code, 1_001 + DAY).unwrap_err().code(), "INVALID_CODE");
}

#[test]
fn a_seat_is_released_with_the_last_group_of_the_company() {
    let mut service = setup();
    let alice = create_user(&mut service, "alice");
    let (a, _, _) = service
        .create_tenant_for_enterprise("ent1", "A", SYSTEM_DEFAULT_USER_ID, Some(&alice), 0)
        .unwrap();
    let (b, _, _) = service
        .create_tenant_for_enterprise("ent1", "B", SYSTEM_DEFAULT_USER_ID, Some(&alice), 1)
        .unwrap();
    assert_eq!(leave_with(&mut service, &alice, Some(&a), "", 2), Ok(None));
    assert_eq!(leave_with(&mut service, &alice, Some(&b), "", 3), Ok(Some("ent1".to_owned())));
}

#[test]
fn a_removed_member_is_out_and_their_sessions_end() {
    let mut service = setup();
    let (tenant_id, _) = service.create_tenant(SYSTEM_DEFAULT_USER_ID, "Acme", 0).unwrap();
    let (_, code) = service
        .create_invite(&tenant_id, SYSTEM_DEFAULT_USER_ID, None, None, 1)
        .unwrap();
    let bob = create_user(&mut service, "bob");
    service.join_with_invite(&bob, &code, 2).unwrap();
    service.ended_sessions.clear();
    service.remove_member(&tenant_id, SYSTEM_DEFAULT_USER_ID, &bob, 3).unwrap();
    assert!(!service.has_membership(&bob, &tenant_id));
    assert_eq!(service.ended_sessions, vec![bob.clone()]);
    assert_eq!(service.active_tenant_id(&bob), DEFAULT_TENANT_ID);
}

#[test]
fn exit_passwords_are_set_and_cleared() {
    let mut service = setup();
    let (tenant_id, _) = service.create_tenant(SYSTEM_DEFAULT_USER_ID, "Acme", 0).unwrap();
    assert!(!service.exit_password_status(&tenant_id).unwrap());
    let refused = service.set_exit_password(&tenant_id, "", "h".to_owned(), 1).unwrap_err();
    assert_eq!(refused.code(), "BAD_REQUEST");
    service.set_exit_password(&tenant_id, "long enough", "h".to_owned(), 1).unwrap();
    assert!(service.exit_password_status(&tenant_id).unwrap());
    service.clear_exit_password(&tenant_id, 2).unwrap();
    assert!(!service.exit_password_status(&tenant_id).unwrap());
    assert_eq!(service.exit_password_status("nowhere").unwrap_err().code(), "TENANT_NOT_FOUND");
}

#[test]
fn a_code_is_the_same_however_it_is_typed() {
    for typed in ["ab12cd34", "AB12-CD34", " ab-12 cd-34 ", "Ab12\tcD34\n", "--AB12CD34--"] {
        let code = normalize_invite_code(typed);
        assert_eq!(code, "AB12CD34");
        assert_eq!(normalize_invite_code(&code), code);
    }
    assert_eq!(normalize_invite_code(" - "), "");
}

#[test]
fn drawn_ids_are_unused() {
    let mut used: Vec<String> = Vec::new();
    for _ in 0..50 {
        let id = unused_id("dept", &used);
        assert!(id.starts_with("dept_"));
        assert!(!used.contains(&id));
        used.push(id);
    }
}

#[test]
fn a_limited_invite_admits_as_many_as_it_is_for() {
    let mut service = setup();
    let (tenant_id, _) = service.create_tenant(SYSTEM_DEFAULT_USER_ID, "Acme", 0).unwrap();
    let (invite, code) = service
        .create_invite(&tenant_id, SYSTEM_DEFAULT_USER_ID, Some(3), None, 1)
        .unwrap();
    let mut answers = Vec::new();
    for name in ["u1", "u2", "u3", "u4", "u5"] {
        let user = create_user(&mut service, name);
        answers.push(match service.join_with_invite(&user, &code, 2) {
            Ok(_) => "OK".to_owned(),
            Err(e) => e.code().to_owned(),
        });
    }
    assert_eq!(answers, ["OK", "OK", "OK", "INVALID_CODE", "INVALID_CODE"]);
    let row = service.invites.iter().find(|i| i.id == invite.id).unwrap();
    assert_eq!(row.use_count, 3);
    assert_eq!(service.member_count(&tenant_id), 4);
}

#[test]
fn the_first_unused_draw_becomes_the_code() {
    let mut service = setup();
    let (tenant_id, _) = service.create_tenant(SYSTEM_DEFAULT_USER_ID, "Acme", 0).unwrap();
    let used = "0123456789ABCDEF".to_owned();
    let free = "FEDCBA9876543210".to_owned();
    service.insert_invite(
        "inv_1".to_owned(),
        &tenant_id,
        used.clone(),
        SYSTEM_DEFAULT_USER_ID,
        None,
        None,
        1,
    );
    let draw = |code: &String| Some(code.clone());
    let ok = |drawn: Vec<Option<String>>| service.pick_code(&drawn).unwrap();
    let why = |drawn: Vec<Option<String>>| match service.pick_code(&drawn) {
        Err(OrgError::Internal(message)) => message,
        other => panic!("{other:?}"),
    };
    assert_eq!(ok(vec![draw(&free)]), free);
    assert_eq!(ok(vec![draw(&used), draw(&used), draw(&free), None]), free);
    assert_eq!(why(vec![draw(&used), None, draw(&free)]), "OS entropy source unavailable");
    assert_eq!(why(vec![draw(&used); 6]), "no unused invite code was drawn");
    assert_eq!(why(vec![]), "no unused invite code was drawn");
}

#[test]
fn members_without_a_username_are_not_listed() {
    let mut service = setup();
    let (tenant_id, _, code) = service
        .create_tenant_for_enterprise("ent1", "Acme", SYSTEM_DEFAULT_USER_ID, None, 0)
        .unwrap();
    let member = create_user(&mut service, "member1");
    service.join_with_invite(&member, &code, 1).unwrap();
    assert_eq!(service.list_users(&tenant_id).unwrap()[0].username, "member1");

    service.users.iter_mut().find(|u| u.id == member).unwrap().username = None;
    assert_eq!(service.list_users(&tenant_id).unwrap_err().code(), "INTERNAL_ERROR");
    assert!(service.list_users("another").unwrap().is_empty());
    assert!(service.reset_archive(SYSTEM_DEFAULT_USER_ID, 2).is_err());
    assert!(service.disband_archive("ent1", 2).is_err());
    assert!(service.disband_archive("ent2", 2).unwrap().is_none());
}
