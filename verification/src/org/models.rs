//! Rows of the organization tables, what callers are shown of them, and the
//! role and tenant rules.
use crate::table::views;
use crate::text::{clone_opt, opt_text, same, texts};
use vstd::prelude::*;

verus! {

/// The tenant of everyone who belongs to no project group.
pub const DEFAULT_TENANT_ID: &'static str = "default";

/// The built-in operator account.
pub const SYSTEM_DEFAULT_USER_ID: &'static str = "system_default_user";

pub const ROLE_MEMBER: &'static str = "member";

pub const ROLE_ORG_ADMIN: &'static str = "org_admin";

pub const ROLE_SYSTEM_ADMIN: &'static str = "system_admin";

/// A tenant id that names a project group.
pub open spec fn enterprise_tenant(tenant_id: Seq<char>) -> bool {
    tenant_id.len() > 0 && tenant_id != DEFAULT_TENANT_ID@
}

/// The roles that administer a project group; `admin` is the older name of `org_admin`.
pub open spec fn admin_role(role: Seq<char>) -> bool {
    role == ROLE_SYSTEM_ADMIN@ || role == ROLE_ORG_ADMIN@ || role == "admin"@
}

pub open spec fn system_admin_role(role: Seq<char>) -> bool {
    role == ROLE_SYSTEM_ADMIN@
}

pub fn is_enterprise_tenant_id(tenant_id: &str) -> (r: bool)
    ensures
        r == enterprise_tenant(tenant_id@),
{
    !tenant_id.is_empty() && !same(tenant_id, DEFAULT_TENANT_ID)
}

pub fn is_admin_role(role: &str) -> (r: bool)
    ensures
        r == admin_role(role@),
{
    same(role, ROLE_SYSTEM_ADMIN) || same(role, ROLE_ORG_ADMIN) || same(role, "admin")
}

pub fn is_system_admin_role(role: &str) -> (r: bool)
    ensures
        r == system_admin_role(role@),
{
    same(role, ROLE_SYSTEM_ADMIN)
}

/// A project group.
#[derive(Debug, Clone)]
pub struct TenantRow {
    pub id: String,
    pub name: String,
    pub exit_password_hash: Option<String>,
    /// The owning company; `None` for a standalone group.
    pub enterprise_id: Option<String>,
    /// JSON list of the email domains that may join without an invite.
    pub allowed_email_domains: Option<String>,
    pub created_at: i64,
    pub updated_at: i64,
}

/// [`TenantRow`] as plain values.
pub struct TenantRowView {
    pub id: Seq<char>,
    pub name: Seq<char>,
    pub exit_password_hash: Option<Seq<char>>,
    pub enterprise_id: Option<Seq<char>>,
    pub allowed_email_domains: Option<Seq<char>>,
    pub created_at: i64,
    pub updated_at: i64,
}

impl View for TenantRow {
    type V = TenantRowView;

    open spec fn view(&self) -> TenantRowView {
        TenantRowView {
            id: self.id@,
            name: self.name@,
            exit_password_hash: opt_text(self.exit_password_hash),
            enterprise_id: opt_text(self.enterprise_id),
            allowed_email_domains: opt_text(self.allowed_email_domains),
            created_at: self.created_at,
            updated_at: self.updated_at,
        }
    }
}

impl TenantRow {
    /// A second copy of the value.
    pub fn copy(&self) -> (r: Self)
        ensures
            r@ == self@,
    {
        TenantRow {
            id: self.id.clone(),
            name: self.name.clone(),
            exit_password_hash: clone_opt(&self.exit_password_hash),
            enterprise_id: clone_opt(&self.enterprise_id),
            allowed_email_domains: clone_opt(&self.allowed_email_domains),
            created_at: self.created_at,
            updated_at: self.updated_at,
        }
    }
}

/// A project group as shown in pickers.
#[derive(Debug, Clone)]
pub struct TenantSummaryDto {
    pub tenant_id: String,
    pub name: String,
}

/// [`TenantSummaryDto`] as plain values.
pub struct TenantSummaryDtoView {
    pub tenant_id: Seq<char>,
    pub name: Seq<char>,
}

impl View for TenantSummaryDto {
    type V = TenantSummaryDtoView;

    open spec fn view(&self) -> TenantSummaryDtoView {
        TenantSummaryDtoView {
            tenant_id: self.tenant_id@,
            name: self.name@,
        }
    }
}

/// A company's project group with its number of members.
#[derive(Debug, Clone)]
pub struct EnterpriseTenantDto {
    pub tenant_id: String,
    pub name: String,
    pub member_count: i64,
    pub created_at: i64,
}

/// [`EnterpriseTenantDto`] as plain values.
pub struct EnterpriseTenantDtoView {
    pub tenant_id: Seq<char>,
    pub name: Seq<char>,
    pub member_count: i64,
    pub created_at: i64,
}

impl View for EnterpriseTenantDto {
    type V = EnterpriseTenantDtoView;

    open spec fn view(&self) -> EnterpriseTenantDtoView {
        EnterpriseTenantDtoView {
            tenant_id: self.tenant_id@,
            name: self.name@,
            member_count: self.member_count,
            created_at: self.created_at,
        }
    }
}

/// A project group as seen by one of its members.
#[derive(Debug, Clone)]
pub struct MyTenantDto {
    pub tenant_id: String,
    pub name: String,
    pub role: String,
    pub member_count: i64,
    pub is_active: bool,
}

/// [`MyTenantDto`] as plain values.
pub struct MyTenantDtoView {
    pub tenant_id: Seq<char>,
    pub name: Seq<char>,
    pub role: Seq<char>,
    pub member_count: i64,
    pub is_active: bool,
}

impl View for MyTenantDto {
    type V = MyTenantDtoView;

    open spec fn view(&self) -> MyTenantDtoView {
        MyTenantDtoView {
            tenant_id: self.tenant_id@,
            name: self.name@,
            role: self.role@,
            member_count: self.member_count,
            is_active: self.is_active,
        }
    }
}

/// An invite code.
#[derive(Debug, Clone)]
pub struct InviteRow {
    pub id: String,
    pub tenant_id: String,
    pub code: String,
    pub created_by: String,
    /// `None` for no limit.
    pub max_uses: Option<i64>,
    pub use_count: i64,
    pub expires_at: Option<i64>,
    pub created_at: i64,
    pub revoked: i64,
}

/// [`InviteRow`] as plain values.
pub struct InviteRowView {
    pub id: Seq<char>,
    pub tenant_id: Seq<char>,
    pub code: Seq<char>,
    pub created_by: Seq<char>,
    pub max_uses: Option<i64>,
    pub use_count: i64,
    pub expires_at: Option<i64>,
    pub created_at: i64,
    pub revoked: i64,
}

impl View for InviteRow {
    type V = InviteRowView;

    open spec fn view(&self) -> InviteRowView {
        InviteRowView {
            id: self.id@,
            tenant_id: self.tenant_id@,
            code: self.code@,
            created_by: self.created_by@,
            max_uses: self.max_uses,
            use_count: self.use_count,
            expires_at: self.expires_at,
            created_at: self.created_at,
            revoked: self.revoked,
        }
    }
}

impl InviteRow {
    /// A second copy of the value.
    pub fn copy(&self) -> (r: Self)
        ensures
            r@ == self@,
    {
        InviteRow {
            id: self.id.clone(),
            tenant_id: self.tenant_id.clone(),
            code: self.code.clone(),
            created_by: self.created_by.clone(),
            max_uses: self.max_uses,
            use_count: self.use_count,
            expires_at: self.expires_at,
            created_at: self.created_at,
            revoked: self.revoked,
        }
    }
}

impl InviteRowView {
    /// Whether the invite still admits someone at the given time.
    pub open spec fn active(self, now_ms: i64) -> bool {
        &&& self.revoked == 0
        &&& self.expires_at matches Some(at) ==> at >= now_ms
        &&& self.max_uses matches Some(n) ==> self.use_count < n
    }
}

impl InviteRow {
    pub fn is_active(&self, now_ms: i64) -> (r: bool)
        ensures
            r == self@.active(now_ms),
    {
        if self.revoked != 0 {
            return false;
        }
        if let Some(expires_at) = self.expires_at {
            if expires_at < now_ms {
                return false;
            }
        }
        if let Some(max_uses) = self.max_uses {
            if self.use_count >= max_uses {
                return false;
            }
        }
        true
    }
}

/// An invite as shown to administrators.
#[derive(Debug, Clone)]
pub struct InviteDto {
    pub id: String,
    pub tenant_id: String,
    pub code: String,
    pub created_by: String,
    pub max_uses: Option<i64>,
    pub use_count: i64,
    pub expires_at: Option<i64>,
    pub created_at: i64,
    pub revoked: bool,
}

/// [`InviteDto`] as plain values.
pub struct InviteDtoView {
    pub id: Seq<char>,
    pub tenant_id: Seq<char>,
    pub code: Seq<char>,
    pub created_by: Seq<char>,
    pub max_uses: Option<i64>,
    pub use_count: i64,
    pub expires_at: Option<i64>,
    pub created_at: i64,
    pub revoked: bool,
}

impl View for InviteDto {
    type V = InviteDtoView;

    open spec fn view(&self) -> InviteDtoView {
        InviteDtoView {
            id: self.id@,
            tenant_id: self.tenant_id@,
            code: self.code@,
            created_by: self.created_by@,
            max_uses: self.max_uses,
            use_count: self.use_count,
            expires_at: self.expires_at,
            created_at: self.created_at,
            revoked: self.revoked,
        }
    }
}

/// What an invite is shown as.
pub open spec fn invite_dto(row: InviteRowView) -> InviteDtoView {
    InviteDtoView {
        id: row.id,
        tenant_id: row.tenant_id,
        code: row.code,
        created_by: row.created_by,
        max_uses: row.max_uses,
        use_count: row.use_count,
        expires_at: row.expires_at,
        created_at: row.created_at,
        revoked: row.revoked != 0,
    }
}

impl InviteDto {
    pub fn of(row: &InviteRow) -> (r: Self)
        ensures
            r@ == invite_dto(row@),
    {
        InviteDto {
            id: row.id.clone(),
            tenant_id: row.tenant_id.clone(),
            code: row.code.clone(),
            created_by: row.created_by.clone(),
            max_uses: row.max_uses,
            use_count: row.use_count,
            expires_at: row.expires_at,
            created_at: row.created_at,
            revoked: row.revoked != 0,
        }
    }
}

/// One person's membership in one project group.
#[derive(Debug, Clone)]
pub struct UserOrgRow {
    pub user_id: String,
    pub tenant_id: String,
    pub role: String,
    pub display_name: Option<String>,
    pub org_unit_path: Option<String>,
    pub job_title: Option<String>,
    pub org_profile_source: Option<String>,
    pub org_profile_synced_at: Option<i64>,
    pub department_id: Option<String>,
    pub created_at: i64,
    pub updated_at: i64,
}

/// [`UserOrgRow`] as plain values.
pub struct UserOrgRowView {
    pub user_id: Seq<char>,
    pub tenant_id: Seq<char>,
    pub role: Seq<char>,
    pub display_name: Option<Seq<char>>,
    pub org_unit_path: Option<Seq<char>>,
    pub job_title: Option<Seq<char>>,
    pub org_profile_source: Option<Seq<char>>,
    pub org_profile_synced_at: Option<i64>,
    pub department_id: Option<Seq<char>>,
    pub created_at: i64,
    pub updated_at: i64,
}

impl View for UserOrgRow {
    type V = UserOrgRowView;

    open spec fn view(&self) -> UserOrgRowView {
        UserOrgRowView {
            user_id: self.user_id@,
            tenant_id: self.tenant_id@,
            role: self.role@,
            display_name: opt_text(self.display_name),
            org_unit_path: opt_text(self.org_unit_path),
            job_title: opt_text(self.job_title),
            org_profile_source: opt_text(self.org_profile_source),
            org_profile_synced_at: self.org_profile_synced_at,
            department_id: opt_text(self.department_id),
            created_at: self.created_at,
            updated_at: self.updated_at,
        }
    }
}

impl UserOrgRow {
    /// A second copy of the value.
    pub fn copy(&self) -> (r: Self)
        ensures
            r@ == self@,
    {
        UserOrgRow {
            user_id: self.user_id.clone(),
            tenant_id: self.tenant_id.clone(),
            role: self.role.clone(),
            display_name: clone_opt(&self.display_name),
            org_unit_path: clone_opt(&self.org_unit_path),
            job_title: clone_opt(&self.job_title),
            org_profile_source: clone_opt(&self.org_profile_source),
            org_profile_synced_at: self.org_profile_synced_at,
            department_id: clone_opt(&self.department_id),
            created_at: self.created_at,
            updated_at: self.updated_at,
        }
    }
}

/// Which project group a person acts in.
#[derive(Debug, Clone)]
pub struct ActiveTenantRow {
    pub user_id: String,
    pub tenant_id: String,
    pub updated_at: i64,
}

/// [`ActiveTenantRow`] as plain values.
pub struct ActiveTenantRowView {
    pub user_id: Seq<char>,
    pub tenant_id: Seq<char>,
    pub updated_at: i64,
}

impl View for ActiveTenantRow {
    type V = ActiveTenantRowView;

    open spec fn view(&self) -> ActiveTenantRowView {
        ActiveTenantRowView {
            user_id: self.user_id@,
            tenant_id: self.tenant_id@,
            updated_at: self.updated_at,
        }
    }
}

impl ActiveTenantRow {
    /// A second copy of the value.
    pub fn copy(&self) -> (r: Self)
        ensures
            r@ == self@,
    {
        ActiveTenantRow {
            user_id: self.user_id.clone(),
            tenant_id: self.tenant_id.clone(),
            updated_at: self.updated_at,
        }
    }
}

/// An account as far as the organization reads it.
#[derive(Debug, Clone)]
pub struct UserRow {
    pub id: String,
    pub username: Option<String>,
    pub last_login: Option<i64>,
}

/// [`UserRow`] as plain values.
pub struct UserRowView {
    pub id: Seq<char>,
    pub username: Option<Seq<char>>,
    pub last_login: Option<i64>,
}

impl View for UserRow {
    type V = UserRowView;

    open spec fn view(&self) -> UserRowView {
        UserRowView {
            id: self.id@,
            username: opt_text(self.username),
            last_login: self.last_login,
        }
    }
}

impl UserRow {
    /// A second copy of the value.
    pub fn copy(&self) -> (r: Self)
        ensures
            r@ == self@,
    {
        UserRow {
            id: self.id.clone(),
            username: clone_opt(&self.username),
            last_login: self.last_login,
        }
    }
}

/// A profile reported by an identity provider at login.
#[derive(Debug, Clone)]
pub struct SsoIdentityRow {
    pub user_id: String,
    pub provider: String,
    pub display_name: Option<String>,
    pub org_unit_path: Option<String>,
    pub job_title: Option<String>,
    pub last_seen_at: i64,
}

/// [`SsoIdentityRow`] as plain values.
pub struct SsoIdentityRowView {
    pub user_id: Seq<char>,
    pub provider: Seq<char>,
    pub display_name: Option<Seq<char>>,
    pub org_unit_path: Option<Seq<char>>,
    pub job_title: Option<Seq<char>>,
    pub last_seen_at: i64,
}

impl View for SsoIdentityRow {
    type V = SsoIdentityRowView;

    open spec fn view(&self) -> SsoIdentityRowView {
        SsoIdentityRowView {
            user_id: self.user_id@,
            provider: self.provider@,
            display_name: opt_text(self.display_name),
            org_unit_path: opt_text(self.org_unit_path),
            job_title: opt_text(self.job_title),
            last_seen_at: self.last_seen_at,
        }
    }
}

impl SsoIdentityRow {
    /// A second copy of the value.
    pub fn copy(&self) -> (r: Self)
        ensures
            r@ == self@,
    {
        SsoIdentityRow {
            user_id: self.user_id.clone(),
            provider: self.provider.clone(),
            display_name: clone_opt(&self.display_name),
            org_unit_path: clone_opt(&self.org_unit_path),
            job_title: clone_opt(&self.job_title),
            last_seen_at: self.last_seen_at,
        }
    }
}

/// What the caller acts in and as.
#[derive(Debug, Clone)]
pub struct OrgContextDto {
    pub tenant_id: String,
    pub tenant_name: Option<String>,
    pub role: String,
    pub is_enterprise: bool,
    pub member_count: i64,
}

/// [`OrgContextDto`] as plain values.
pub struct OrgContextDtoView {
    pub tenant_id: Seq<char>,
    pub tenant_name: Option<Seq<char>>,
    pub role: Seq<char>,
    pub is_enterprise: bool,
    pub member_count: i64,
}

impl View for OrgContextDto {
    type V = OrgContextDtoView;

    open spec fn view(&self) -> OrgContextDtoView {
        OrgContextDtoView {
            tenant_id: self.tenant_id@,
            tenant_name: opt_text(self.tenant_name),
            role: self.role@,
            is_enterprise: self.is_enterprise,
            member_count: self.member_count,
        }
    }
}

/// A member as shown to administrators.
#[derive(Debug, Clone)]
pub struct AdminUserDto {
    pub user_id: String,
    pub username: String,
    pub tenant_id: String,
    pub role: String,
    pub display_name: Option<String>,
    pub org_unit_path: Option<String>,
    pub job_title: Option<String>,
    pub department_id: Option<String>,
    pub last_login: Option<i64>,
    pub created_at: i64,
}

/// [`AdminUserDto`] as plain values.
pub struct AdminUserDtoView {
    pub user_id: Seq<char>,
    pub username: Seq<char>,
    pub tenant_id: Seq<char>,
    pub role: Seq<char>,
    pub display_name: Option<Seq<char>>,
    pub org_unit_path: Option<Seq<char>>,
    pub job_title: Option<Seq<char>>,
    pub department_id: Option<Seq<char>>,
    pub last_login: Option<i64>,
    pub created_at: i64,
}

impl View for AdminUserDto {
    type V = AdminUserDtoView;

    open spec fn view(&self) -> AdminUserDtoView {
        AdminUserDtoView {
            user_id: self.user_id@,
            username: self.username@,
            tenant_id: self.tenant_id@,
            role: self.role@,
            display_name: opt_text(self.display_name),
            org_unit_path: opt_text(self.org_unit_path),
            job_title: opt_text(self.job_title),
            department_id: opt_text(self.department_id),
            last_login: self.last_login,
            created_at: self.created_at,
        }
    }
}

impl AdminUserDto {
    /// A second copy of the value.
    pub fn copy(&self) -> (r: Self)
        ensures
            r@ == self@,
    {
        AdminUserDto {
            user_id: self.user_id.clone(),
            username: self.username.clone(),
            tenant_id: self.tenant_id.clone(),
            role: self.role.clone(),
            display_name: clone_opt(&self.display_name),
            org_unit_path: clone_opt(&self.org_unit_path),
            job_title: clone_opt(&self.job_title),
            department_id: clone_opt(&self.department_id),
            last_login: self.last_login,
            created_at: self.created_at,
        }
    }
}

/// What a directory mapping did, by department name.
#[derive(Debug, Clone)]
pub struct DirectoryMapReport {
    pub created: Vec<String>,
    pub updated: Vec<String>,
    pub removed: Vec<String>,
    /// Departments that left the directory subtree and still hold local structure.
    pub kept_with_local_data: Vec<String>,
}

/// [`DirectoryMapReport`] as plain values.
pub struct DirectoryMapReportView {
    pub created: Seq<Seq<char>>,
    pub updated: Seq<Seq<char>>,
    pub removed: Seq<Seq<char>>,
    pub kept_with_local_data: Seq<Seq<char>>,
}

impl View for DirectoryMapReport {
    type V = DirectoryMapReportView;

    open spec fn view(&self) -> DirectoryMapReportView {
        DirectoryMapReportView {
            created: texts(self.created@),
            updated: texts(self.updated@),
            removed: texts(self.removed@),
            kept_with_local_data: texts(self.kept_with_local_data@),
        }
    }
}

/// A department of a project group.
#[derive(Debug, Clone)]
pub struct DepartmentRow {
    pub id: String,
    pub tenant_id: String,
    pub parent_id: Option<String>,
    pub name: String,
    /// `directory` for a mapped department, `None` for a manual one.
    pub source: Option<String>,
    pub directory_external_id: Option<String>,
    pub directory_map_root_external_id: Option<String>,
    pub created_at: i64,
    pub updated_at: i64,
}

/// [`DepartmentRow`] as plain values.
pub struct DepartmentRowView {
    pub id: Seq<char>,
    pub tenant_id: Seq<char>,
    pub parent_id: Option<Seq<char>>,
    pub name: Seq<char>,
    pub source: Option<Seq<char>>,
    pub directory_external_id: Option<Seq<char>>,
    pub directory_map_root_external_id: Option<Seq<char>>,
    pub created_at: i64,
    pub updated_at: i64,
}

impl View for DepartmentRow {
    type V = DepartmentRowView;

    open spec fn view(&self) -> DepartmentRowView {
        DepartmentRowView {
            id: self.id@,
            tenant_id: self.tenant_id@,
            parent_id: opt_text(self.parent_id),
            name: self.name@,
            source: opt_text(self.source),
            directory_external_id: opt_text(self.directory_external_id),
            directory_map_root_external_id: opt_text(self.directory_map_root_external_id),
            created_at: self.created_at,
            updated_at: self.updated_at,
        }
    }
}

impl DepartmentRow {
    /// A second copy of the value.
    pub fn copy(&self) -> (r: Self)
        ensures
            r@ == self@,
    {
        DepartmentRow {
            id: self.id.clone(),
            tenant_id: self.tenant_id.clone(),
            parent_id: clone_opt(&self.parent_id),
            name: self.name.clone(),
            source: clone_opt(&self.source),
            directory_external_id: clone_opt(&self.directory_external_id),
            directory_map_root_external_id: clone_opt(&self.directory_map_root_external_id),
            created_at: self.created_at,
            updated_at: self.updated_at,
        }
    }
}

/// A department as shown to callers.
#[derive(Debug, Clone)]
pub struct DepartmentDto {
    pub id: String,
    pub tenant_id: String,
    pub parent_id: Option<String>,
    pub name: String,
    pub created_at: i64,
    pub updated_at: i64,
    pub source: Option<String>,
}

/// [`DepartmentDto`] as plain values.
pub struct DepartmentDtoView {
    pub id: Seq<char>,
    pub tenant_id: Seq<char>,
    pub parent_id: Option<Seq<char>>,
    pub name: Seq<char>,
    pub created_at: i64,
    pub updated_at: i64,
    pub source: Option<Seq<char>>,
}

impl View for DepartmentDto {
    type V = DepartmentDtoView;

    open spec fn view(&self) -> DepartmentDtoView {
        DepartmentDtoView {
            id: self.id@,
            tenant_id: self.tenant_id@,
            parent_id: opt_text(self.parent_id),
            name: self.name@,
            created_at: self.created_at,
            updated_at: self.updated_at,
            source: opt_text(self.source),
        }
    }
}

/// What a department is shown as.
pub open spec fn department_dto(row: DepartmentRowView) -> DepartmentDtoView {
    DepartmentDtoView {
        id: row.id,
        tenant_id: row.tenant_id,
        parent_id: row.parent_id,
        name: row.name,
        created_at: row.created_at,
        updated_at: row.updated_at,
        source: row.source,
    }
}

impl DepartmentDto {
    pub fn of(row: &DepartmentRow) -> (r: Self)
        ensures
            r@ == department_dto(row@),
    {
        DepartmentDto {
            id: row.id.clone(),
            tenant_id: row.tenant_id.clone(),
            parent_id: clone_opt(&row.parent_id),
            name: row.name.clone(),
            created_at: row.created_at,
            updated_at: row.updated_at,
            source: clone_opt(&row.source),
        }
    }
}

/// A department of the company directory.
#[derive(Debug, Clone)]
pub struct DirectoryDepartmentRef {
    pub external_id: String,
    pub parent_external_id: Option<String>,
    pub name: String,
}

/// [`DirectoryDepartmentRef`] as plain values.
pub struct DirectoryDepartmentRefView {
    pub external_id: Seq<char>,
    pub parent_external_id: Option<Seq<char>>,
    pub name: Seq<char>,
}

impl View for DirectoryDepartmentRef {
    type V = DirectoryDepartmentRefView;

    open spec fn view(&self) -> DirectoryDepartmentRefView {
        DirectoryDepartmentRefView {
            external_id: self.external_id@,
            parent_external_id: opt_text(self.parent_external_id),
            name: self.name@,
        }
    }
}

impl DirectoryDepartmentRef {
    /// A second copy of the value.
    pub fn copy(&self) -> (r: Self)
        ensures
            r@ == self@,
    {
        DirectoryDepartmentRef {
            external_id: self.external_id.clone(),
            parent_external_id: clone_opt(&self.parent_external_id),
            name: self.name.clone(),
        }
    }
}

/// A machine on a project group's roster. The three lists are JSON text.
#[derive(Debug, Clone)]
pub struct RuntimeNodeRow {
    pub id: String,
    pub tenant_id: String,
    pub user_id: String,
    pub machine_id: String,
    pub display_name: String,
    pub hostnames: String,
    pub ip_addresses: String,
    pub installed_agents: String,
    pub last_seen_at: i64,
    pub updated_at: i64,
    pub status: String,
    pub visibility: String,
}

/// [`RuntimeNodeRow`] as plain values.
pub struct RuntimeNodeRowView {
    pub id: Seq<char>,
    pub tenant_id: Seq<char>,
    pub user_id: Seq<char>,
    pub machine_id: Seq<char>,
    pub display_name: Seq<char>,
    pub hostnames: Seq<char>,
    pub ip_addresses: Seq<char>,
    pub installed_agents: Seq<char>,
    pub last_seen_at: i64,
    pub updated_at: i64,
    pub status: Seq<char>,
    pub visibility: Seq<char>,
}

impl View for RuntimeNodeRow {
    type V = RuntimeNodeRowView;

    open spec fn view(&self) -> RuntimeNodeRowView {
        RuntimeNodeRowView {
            id: self.id@,
            tenant_id: self.tenant_id@,
            user_id: self.user_id@,
            machine_id: self.machine_id@,
            display_name: self.display_name@,
            hostnames: self.hostnames@,
            ip_addresses: self.ip_addresses@,
            installed_agents: self.installed_agents@,
            last_seen_at: self.last_seen_at,
            updated_at: self.updated_at,
            status: self.status@,
            visibility: self.visibility@,
        }
    }
}

impl RuntimeNodeRow {
    /// A second copy of the value.
    pub fn copy(&self) -> (r: Self)
        ensures
            r@ == self@,
    {
        RuntimeNodeRow {
            id: self.id.clone(),
            tenant_id: self.tenant_id.clone(),
            user_id: self.user_id.clone(),
            machine_id: self.machine_id.clone(),
            display_name: self.display_name.clone(),
            hostnames: self.hostnames.clone(),
            ip_addresses: self.ip_addresses.clone(),
            installed_agents: self.installed_agents.clone(),
            last_seen_at: self.last_seen_at,
            updated_at: self.updated_at,
            status: self.status.clone(),
            visibility: self.visibility.clone(),
        }
    }
}

/// A machine as shown to callers. The three lists are JSON text that parses.
#[derive(Debug, Clone)]
pub struct RuntimeNodeDto {
    pub id: String,
    pub tenant_id: String,
    pub user_id: String,
    pub machine_id: String,
    pub display_name: String,
    pub hostnames: String,
    pub ip_addresses: String,
    pub installed_agents: String,
    pub last_seen_at: i64,
    pub updated_at: i64,
    pub status: String,
    pub visibility: String,
}

/// [`RuntimeNodeDto`] as plain values.
pub struct RuntimeNodeDtoView {
    pub id: Seq<char>,
    pub tenant_id: Seq<char>,
    pub user_id: Seq<char>,
    pub machine_id: Seq<char>,
    pub display_name: Seq<char>,
    pub hostnames: Seq<char>,
    pub ip_addresses: Seq<char>,
    pub installed_agents: Seq<char>,
    pub last_seen_at: i64,
    pub updated_at: i64,
    pub status: Seq<char>,
    pub visibility: Seq<char>,
}

impl View for RuntimeNodeDto {
    type V = RuntimeNodeDtoView;

    open spec fn view(&self) -> RuntimeNodeDtoView {
        RuntimeNodeDtoView {
            id: self.id@,
            tenant_id: self.tenant_id@,
            user_id: self.user_id@,
            machine_id: self.machine_id@,
            display_name: self.display_name@,
            hostnames: self.hostnames@,
            ip_addresses: self.ip_addresses@,
            installed_agents: self.installed_agents@,
            last_seen_at: self.last_seen_at,
            updated_at: self.updated_at,
            status: self.status@,
            visibility: self.visibility@,
        }
    }
}

/// Whether new machines of a project group need approval.
#[derive(Debug, Clone)]
pub struct RuntimePolicyRow {
    pub tenant_id: String,
    pub require_approval: i64,
    pub updated_at: i64,
}

/// [`RuntimePolicyRow`] as plain values.
pub struct RuntimePolicyRowView {
    pub tenant_id: Seq<char>,
    pub require_approval: i64,
    pub updated_at: i64,
}

impl View for RuntimePolicyRow {
    type V = RuntimePolicyRowView;

    open spec fn view(&self) -> RuntimePolicyRowView {
        RuntimePolicyRowView {
            tenant_id: self.tenant_id@,
            require_approval: self.require_approval,
            updated_at: self.updated_at,
        }
    }
}

impl RuntimePolicyRow {
    /// A second copy of the value.
    pub fn copy(&self) -> (r: Self)
        ensures
            r@ == self@,
    {
        RuntimePolicyRow {
            tenant_id: self.tenant_id.clone(),
            require_approval: self.require_approval,
            updated_at: self.updated_at,
        }
    }
}

/// A machine that awaits an access review.
#[derive(Debug, Clone)]
pub struct NodeReviewRequest {
    pub tenant_id: String,
    pub node_id: String,
    pub machine_id: String,
    pub display_name: String,
    pub user_id: String,
}

/// [`NodeReviewRequest`] as plain values.
pub struct NodeReviewRequestView {
    pub tenant_id: Seq<char>,
    pub node_id: Seq<char>,
    pub machine_id: Seq<char>,
    pub display_name: Seq<char>,
    pub user_id: Seq<char>,
}

impl View for NodeReviewRequest {
    type V = NodeReviewRequestView;

    open spec fn view(&self) -> NodeReviewRequestView {
        NodeReviewRequestView {
            tenant_id: self.tenant_id@,
            node_id: self.node_id@,
            machine_id: self.machine_id@,
            display_name: self.display_name@,
            user_id: self.user_id@,
        }
    }
}

/// What a heartbeat did.
#[derive(Debug, Clone)]
pub struct HeartbeatOutcome {
    pub node_id: String,
    pub status: String,
    pub created: bool,
    /// This heartbeat registered the machine and left it awaiting approval.
    pub pending: bool,
}

/// [`HeartbeatOutcome`] as plain values.
pub struct HeartbeatOutcomeView {
    pub node_id: Seq<char>,
    pub status: Seq<char>,
    pub created: bool,
    pub pending: bool,
}

impl View for HeartbeatOutcome {
    type V = HeartbeatOutcomeView;

    open spec fn view(&self) -> HeartbeatOutcomeView {
        HeartbeatOutcomeView {
            node_id: self.node_id@,
            status: self.status@,
            created: self.created,
            pending: self.pending,
        }
    }
}

/// What a local reset archived.
#[derive(Debug, Clone)]
pub struct ResetLocalResult {
    pub archived_tenant_count: i64,
    pub archived_member_count: i64,
    pub archive_path: String,
}

/// [`ResetLocalResult`] as plain values.
pub struct ResetLocalResultView {
    pub archived_tenant_count: i64,
    pub archived_member_count: i64,
    pub archive_path: Seq<char>,
}

impl View for ResetLocalResult {
    type V = ResetLocalResultView;

    open spec fn view(&self) -> ResetLocalResultView {
        ResetLocalResultView {
            archived_tenant_count: self.archived_tenant_count,
            archived_member_count: self.archived_member_count,
            archive_path: self.archive_path@,
        }
    }
}

/// An entry of the audit log.
#[derive(Debug, Clone)]
pub struct AuditLogRow {
    pub id: String,
    pub tenant_id: String,
    pub user_id: Option<String>,
    pub username: Option<String>,
    pub action: String,
    pub resource: Option<String>,
    pub ip_address: Option<String>,
    pub user_agent: Option<String>,
    pub created_at: i64,
}

/// [`AuditLogRow`] as plain values.
pub struct AuditLogRowView {
    pub id: Seq<char>,
    pub tenant_id: Seq<char>,
    pub user_id: Option<Seq<char>>,
    pub username: Option<Seq<char>>,
    pub action: Seq<char>,
    pub resource: Option<Seq<char>>,
    pub ip_address: Option<Seq<char>>,
    pub user_agent: Option<Seq<char>>,
    pub created_at: i64,
}

impl View for AuditLogRow {
    type V = AuditLogRowView;

    open spec fn view(&self) -> AuditLogRowView {
        AuditLogRowView {
            id: self.id@,
            tenant_id: self.tenant_id@,
            user_id: opt_text(self.user_id),
            username: opt_text(self.username),
            action: self.action@,
            resource: opt_text(self.resource),
            ip_address: opt_text(self.ip_address),
            user_agent: opt_text(self.user_agent),
            created_at: self.created_at,
        }
    }
}

impl AuditLogRow {
    /// A second copy of the value.
    pub fn copy(&self) -> (r: Self)
        ensures
            r@ == self@,
    {
        AuditLogRow {
            id: self.id.clone(),
            tenant_id: self.tenant_id.clone(),
            user_id: clone_opt(&self.user_id),
            username: clone_opt(&self.username),
            action: self.action.clone(),
            resource: clone_opt(&self.resource),
            ip_address: clone_opt(&self.ip_address),
            user_agent: clone_opt(&self.user_agent),
            created_at: self.created_at,
        }
    }
}

/// One tool call of an agent.
#[derive(Debug, Clone)]
pub struct AgentAuditEntry {
    pub id: String,
    pub conversation_id: String,
    pub user_id: Option<String>,
    pub tool_name: String,
    pub detail: Option<String>,
    pub status: Option<String>,
    pub created_at: i64,
}

/// [`AgentAuditEntry`] as plain values.
pub struct AgentAuditEntryView {
    pub id: Seq<char>,
    pub conversation_id: Seq<char>,
    pub user_id: Option<Seq<char>>,
    pub tool_name: Seq<char>,
    pub detail: Option<Seq<char>>,
    pub status: Option<Seq<char>>,
    pub created_at: i64,
}

impl View for AgentAuditEntry {
    type V = AgentAuditEntryView;

    open spec fn view(&self) -> AgentAuditEntryView {
        AgentAuditEntryView {
            id: self.id@,
            conversation_id: self.conversation_id@,
            user_id: opt_text(self.user_id),
            tool_name: self.tool_name@,
            detail: opt_text(self.detail),
            status: opt_text(self.status),
            created_at: self.created_at,
        }
    }
}

/// The stored mail settings.
#[derive(Debug, Clone)]
pub struct SmtpConfigRow {
    pub host: Option<String>,
    pub port: Option<i64>,
    pub username: Option<String>,
    pub password_encrypted: Option<String>,
    pub from_address: Option<String>,
    pub enabled: bool,
    pub updated_at: i64,
}

/// [`SmtpConfigRow`] as plain values.
pub struct SmtpConfigRowView {
    pub host: Option<Seq<char>>,
    pub port: Option<i64>,
    pub username: Option<Seq<char>>,
    pub password_encrypted: Option<Seq<char>>,
    pub from_address: Option<Seq<char>>,
    pub enabled: bool,
    pub updated_at: i64,
}

impl View for SmtpConfigRow {
    type V = SmtpConfigRowView;

    open spec fn view(&self) -> SmtpConfigRowView {
        SmtpConfigRowView {
            host: opt_text(self.host),
            port: self.port,
            username: opt_text(self.username),
            password_encrypted: opt_text(self.password_encrypted),
            from_address: opt_text(self.from_address),
            enabled: self.enabled,
            updated_at: self.updated_at,
        }
    }
}

/// The mail settings as shown to administrators: never the password.
#[derive(Debug, Clone)]
pub struct SmtpConfigDto {
    pub host: Option<String>,
    pub port: Option<i64>,
    pub username: Option<String>,
    pub has_password: bool,
    pub from_address: Option<String>,
    pub enabled: bool,
    pub updated_at: Option<i64>,
}

/// [`SmtpConfigDto`] as plain values.
pub struct SmtpConfigDtoView {
    pub host: Option<Seq<char>>,
    pub port: Option<i64>,
    pub username: Option<Seq<char>>,
    pub has_password: bool,
    pub from_address: Option<Seq<char>>,
    pub enabled: bool,
    pub updated_at: Option<i64>,
}

impl View for SmtpConfigDto {
    type V = SmtpConfigDtoView;

    open spec fn view(&self) -> SmtpConfigDtoView {
        SmtpConfigDtoView {
            host: opt_text(self.host),
            port: self.port,
            username: opt_text(self.username),
            has_password: self.has_password,
            from_address: opt_text(self.from_address),
            enabled: self.enabled,
            updated_at: self.updated_at,
        }
    }
}

/// A stored connector of a project group.
#[derive(Debug, Clone)]
pub struct IntegrationRow {
    pub tenant_id: String,
    pub provider: String,
    pub base_url: Option<String>,
    pub config_json: Option<String>,
    pub secret_encrypted: Option<String>,
    pub enabled: bool,
    pub updated_at: i64,
}

/// [`IntegrationRow`] as plain values.
pub struct IntegrationRowView {
    pub tenant_id: Seq<char>,
    pub provider: Seq<char>,
    pub base_url: Option<Seq<char>>,
    pub config_json: Option<Seq<char>>,
    pub secret_encrypted: Option<Seq<char>>,
    pub enabled: bool,
    pub updated_at: i64,
}

impl View for IntegrationRow {
    type V = IntegrationRowView;

    open spec fn view(&self) -> IntegrationRowView {
        IntegrationRowView {
            tenant_id: self.tenant_id@,
            provider: self.provider@,
            base_url: opt_text(self.base_url),
            config_json: opt_text(self.config_json),
            secret_encrypted: opt_text(self.secret_encrypted),
            enabled: self.enabled,
            updated_at: self.updated_at,
        }
    }
}

impl IntegrationRow {
    /// A second copy of the value.
    pub fn copy(&self) -> (r: Self)
        ensures
            r@ == self@,
    {
        IntegrationRow {
            tenant_id: self.tenant_id.clone(),
            provider: self.provider.clone(),
            base_url: clone_opt(&self.base_url),
            config_json: clone_opt(&self.config_json),
            secret_encrypted: clone_opt(&self.secret_encrypted),
            enabled: self.enabled,
            updated_at: self.updated_at,
        }
    }
}

/// A connector as shown to administrators: never the secret. `config` is JSON text.
#[derive(Debug, Clone)]
pub struct IntegrationDto {
    pub provider: String,
    pub base_url: Option<String>,
    pub config: String,
    pub has_secret: bool,
    pub enabled: bool,
    pub updated_at: Option<i64>,
}

/// [`IntegrationDto`] as plain values.
pub struct IntegrationDtoView {
    pub provider: Seq<char>,
    pub base_url: Option<Seq<char>>,
    pub config: Seq<char>,
    pub has_secret: bool,
    pub enabled: bool,
    pub updated_at: Option<i64>,
}

impl View for IntegrationDto {
    type V = IntegrationDtoView;

    open spec fn view(&self) -> IntegrationDtoView {
        IntegrationDtoView {
            provider: self.provider@,
            base_url: opt_text(self.base_url),
            config: self.config@,
            has_secret: self.has_secret,
            enabled: self.enabled,
            updated_at: self.updated_at,
        }
    }
}

/// A seat in a company.
#[derive(Debug, Clone)]
pub struct CompanyMemberRow {
    pub user_id: String,
    pub enterprise_id: String,
}

/// [`CompanyMemberRow`] as plain values.
pub struct CompanyMemberRowView {
    pub user_id: Seq<char>,
    pub enterprise_id: Seq<char>,
}

impl View for CompanyMemberRow {
    type V = CompanyMemberRowView;

    open spec fn view(&self) -> CompanyMemberRowView {
        CompanyMemberRowView {
            user_id: self.user_id@,
            enterprise_id: self.enterprise_id@,
        }
    }
}

impl CompanyMemberRow {
    /// A second copy of the value.
    pub fn copy(&self) -> (r: Self)
        ensures
            r@ == self@,
    {
        CompanyMemberRow {
            user_id: self.user_id.clone(),
            enterprise_id: self.enterprise_id.clone(),
        }
    }
}

/// A company's plan.
#[derive(Debug, Clone)]
pub struct LicenseRow {
    pub enterprise_id: String,
    pub tier: String,
}

/// [`LicenseRow`] as plain values.
pub struct LicenseRowView {
    pub enterprise_id: Seq<char>,
    pub tier: Seq<char>,
}

impl View for LicenseRow {
    type V = LicenseRowView;

    open spec fn view(&self) -> LicenseRowView {
        LicenseRowView {
            enterprise_id: self.enterprise_id@,
            tier: self.tier@,
        }
    }
}

impl LicenseRow {
    /// A second copy of the value.
    pub fn copy(&self) -> (r: Self)
        ensures
            r@ == self@,
    {
        LicenseRow {
            enterprise_id: self.enterprise_id.clone(),
            tier: self.tier.clone(),
        }
    }
}

/// A stored agent message with the owner of its conversation. The tool name and the
/// detail are what the message content gave for them.
#[derive(Debug, Clone)]
pub struct ToolMessageRow {
    pub id: String,
    pub conversation_id: String,
    pub user_id: String,
    pub kind: String,
    pub tool_name: String,
    pub detail: Option<String>,
    pub status: Option<String>,
    pub created_at: i64,
}

/// [`ToolMessageRow`] as plain values.
pub struct ToolMessageRowView {
    pub id: Seq<char>,
    pub conversation_id: Seq<char>,
    pub user_id: Seq<char>,
    pub kind: Seq<char>,
    pub tool_name: Seq<char>,
    pub detail: Option<Seq<char>>,
    pub status: Option<Seq<char>>,
    pub created_at: i64,
}

impl View for ToolMessageRow {
    type V = ToolMessageRowView;

    open spec fn view(&self) -> ToolMessageRowView {
        ToolMessageRowView {
            id: self.id@,
            conversation_id: self.conversation_id@,
            user_id: self.user_id@,
            kind: self.kind@,
            tool_name: self.tool_name@,
            detail: opt_text(self.detail),
            status: opt_text(self.status),
            created_at: self.created_at,
        }
    }
}

impl ToolMessageRow {
    /// A second copy of the value.
    pub fn copy(&self) -> (r: Self)
        ensures
            r@ == self@,
    {
        ToolMessageRow {
            id: self.id.clone(),
            conversation_id: self.conversation_id.clone(),
            user_id: self.user_id.clone(),
            kind: self.kind.clone(),
            tool_name: self.tool_name.clone(),
            detail: clone_opt(&self.detail),
            status: clone_opt(&self.status),
            created_at: self.created_at,
        }
    }
}

/// A project group and its members, as archived before they are deleted.
#[derive(Debug, Clone)]
pub struct ArchivedTenant {
    pub id: String,
    pub name: String,
    pub created_at: i64,
    pub updated_at: i64,
    pub members: Vec<AdminUserDto>,
}

/// [`ArchivedTenant`] as plain values.
pub struct ArchivedTenantView {
    pub id: Seq<char>,
    pub name: Seq<char>,
    pub created_at: i64,
    pub updated_at: i64,
    pub members: Seq<AdminUserDtoView>,
}

impl View for ArchivedTenant {
    type V = ArchivedTenantView;

    open spec fn view(&self) -> ArchivedTenantView {
        ArchivedTenantView {
            id: self.id@,
            name: self.name@,
            created_at: self.created_at,
            updated_at: self.updated_at,
            members: views(self.members@),
        }
    }
}

/// What is archived before project groups are deleted.
#[derive(Debug, Clone)]
pub struct ArchiveSnapshot {
    pub archived_at: i64,
    pub enterprise_id: Option<String>,
    pub tenants: Vec<ArchivedTenant>,
}

/// [`ArchiveSnapshot`] as plain values.
pub struct ArchiveSnapshotView {
    pub archived_at: i64,
    pub enterprise_id: Option<Seq<char>>,
    pub tenants: Seq<ArchivedTenantView>,
}

impl View for ArchiveSnapshot {
    type V = ArchiveSnapshotView;

    open spec fn view(&self) -> ArchiveSnapshotView {
        ArchiveSnapshotView {
            archived_at: self.archived_at,
            enterprise_id: opt_text(self.enterprise_id),
            tenants: views(self.tenants@),
        }
    }
}

} // verus!
