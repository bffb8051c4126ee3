//! Rows of the platform tables and what callers are shown of them.
use crate::table::views;
use crate::text::{clone_opt, opt_text, texts};
use vstd::prelude::*;

verus! {

/// The stored container runtime settings of a group.
#[derive(Debug, Clone)]
pub struct ContainerConfigRow {
    pub tenant_id: String,
    pub runtime_kind: Option<String>,
    pub endpoint: Option<String>,
    pub default_image: Option<String>,
    pub registry: Option<String>,
    pub registry_secret_encrypted: Option<String>,
    pub enabled: bool,
    pub updated_at: i64,
}

/// [`ContainerConfigRow`] as plain values.
pub struct ContainerConfigRowView {
    pub tenant_id: Seq<char>,
    pub runtime_kind: Option<Seq<char>>,
    pub endpoint: Option<Seq<char>>,
    pub default_image: Option<Seq<char>>,
    pub registry: Option<Seq<char>>,
    pub registry_secret_encrypted: Option<Seq<char>>,
    pub enabled: bool,
    pub updated_at: i64,
}

impl View for ContainerConfigRow {
    type V = ContainerConfigRowView;

    open spec fn view(&self) -> ContainerConfigRowView {
        ContainerConfigRowView {
            tenant_id: self.tenant_id@,
            runtime_kind: opt_text(self.runtime_kind),
            endpoint: opt_text(self.endpoint),
            default_image: opt_text(self.default_image),
            registry: opt_text(self.registry),
            registry_secret_encrypted: opt_text(self.registry_secret_encrypted),
            enabled: self.enabled,
            updated_at: self.updated_at,
        }
    }
}

impl ContainerConfigRow {
    /// A second copy of the value.
    pub fn copy(&self) -> (r: Self)
        ensures
            r@ == self@,
    {
        ContainerConfigRow {
            tenant_id: self.tenant_id.clone(),
            runtime_kind: clone_opt(&self.runtime_kind),
            endpoint: clone_opt(&self.endpoint),
            default_image: clone_opt(&self.default_image),
            registry: clone_opt(&self.registry),
            registry_secret_encrypted: clone_opt(&self.registry_secret_encrypted),
            enabled: self.enabled,
            updated_at: self.updated_at,
        }
    }
}

/// The container runtime settings as shown: never the secret.
#[derive(Debug, Clone)]
pub struct ContainerConfigDto {
    pub runtime_kind: Option<String>,
    pub endpoint: Option<String>,
    pub default_image: Option<String>,
    pub registry: Option<String>,
    pub has_registry_secret: bool,
    pub enabled: bool,
    pub updated_at: Option<i64>,
}

/// [`ContainerConfigDto`] as plain values.
pub struct ContainerConfigDtoView {
    pub runtime_kind: Option<Seq<char>>,
    pub endpoint: Option<Seq<char>>,
    pub default_image: Option<Seq<char>>,
    pub registry: Option<Seq<char>>,
    pub has_registry_secret: bool,
    pub enabled: bool,
    pub updated_at: Option<i64>,
}

impl View for ContainerConfigDto {
    type V = ContainerConfigDtoView;

    open spec fn view(&self) -> ContainerConfigDtoView {
        ContainerConfigDtoView {
            runtime_kind: opt_text(self.runtime_kind),
            endpoint: opt_text(self.endpoint),
            default_image: opt_text(self.default_image),
            registry: opt_text(self.registry),
            has_registry_secret: self.has_registry_secret,
            enabled: self.enabled,
            updated_at: self.updated_at,
        }
    }
}

/// The stored collaboration settings of a group.
#[derive(Debug, Clone)]
pub struct CollaborationConfigRow {
    pub tenant_id: String,
    pub provider: Option<String>,
    pub endpoint: Option<String>,
    pub secret_encrypted: Option<String>,
    pub presence: bool,
    pub enabled: bool,
    pub updated_at: i64,
}

/// [`CollaborationConfigRow`] as plain values.
pub struct CollaborationConfigRowView {
    pub tenant_id: Seq<char>,
    pub provider: Option<Seq<char>>,
    pub endpoint: Option<Seq<char>>,
    pub secret_encrypted: Option<Seq<char>>,
    pub presence: bool,
    pub enabled: bool,
    pub updated_at: i64,
}

impl View for CollaborationConfigRow {
    type V = CollaborationConfigRowView;

    open spec fn view(&self) -> CollaborationConfigRowView {
        CollaborationConfigRowView {
            tenant_id: self.tenant_id@,
            provider: opt_text(self.provider),
            endpoint: opt_text(self.endpoint),
            secret_encrypted: opt_text(self.secret_encrypted),
            presence: self.presence,
            enabled: self.enabled,
            updated_at: self.updated_at,
        }
    }
}

impl CollaborationConfigRow {
    /// A second copy of the value.
    pub fn copy(&self) -> (r: Self)
        ensures
            r@ == self@,
    {
        CollaborationConfigRow {
            tenant_id: self.tenant_id.clone(),
            provider: clone_opt(&self.provider),
            endpoint: clone_opt(&self.endpoint),
            secret_encrypted: clone_opt(&self.secret_encrypted),
            presence: self.presence,
            enabled: self.enabled,
            updated_at: self.updated_at,
        }
    }
}

/// The collaboration settings as shown: never the secret.
#[derive(Debug, Clone)]
pub struct CollaborationConfigDto {
    pub provider: Option<String>,
    pub endpoint: Option<String>,
    pub has_secret: bool,
    pub presence: bool,
    pub enabled: bool,
    pub updated_at: Option<i64>,
}

/// [`CollaborationConfigDto`] as plain values.
pub struct CollaborationConfigDtoView {
    pub provider: Option<Seq<char>>,
    pub endpoint: Option<Seq<char>>,
    pub has_secret: bool,
    pub presence: bool,
    pub enabled: bool,
    pub updated_at: Option<i64>,
}

impl View for CollaborationConfigDto {
    type V = CollaborationConfigDtoView;

    open spec fn view(&self) -> CollaborationConfigDtoView {
        CollaborationConfigDtoView {
            provider: opt_text(self.provider),
            endpoint: opt_text(self.endpoint),
            has_secret: self.has_secret,
            presence: self.presence,
            enabled: self.enabled,
            updated_at: self.updated_at,
        }
    }
}

/// The stored address allowlist of a group; the list is JSON text.
#[derive(Debug, Clone)]
pub struct IpAllowlistRow {
    pub tenant_id: String,
    pub cidrs: Option<String>,
    pub enabled: bool,
    pub updated_at: i64,
}

/// [`IpAllowlistRow`] as plain values.
pub struct IpAllowlistRowView {
    pub tenant_id: Seq<char>,
    pub cidrs: Option<Seq<char>>,
    pub enabled: bool,
    pub updated_at: i64,
}

impl View for IpAllowlistRow {
    type V = IpAllowlistRowView;

    open spec fn view(&self) -> IpAllowlistRowView {
        IpAllowlistRowView {
            tenant_id: self.tenant_id@,
            cidrs: opt_text(self.cidrs),
            enabled: self.enabled,
            updated_at: self.updated_at,
        }
    }
}

impl IpAllowlistRow {
    /// A second copy of the value.
    pub fn copy(&self) -> (r: Self)
        ensures
            r@ == self@,
    {
        IpAllowlistRow {
            tenant_id: self.tenant_id.clone(),
            cidrs: clone_opt(&self.cidrs),
            enabled: self.enabled,
            updated_at: self.updated_at,
        }
    }
}

/// The address allowlist as shown.
#[derive(Debug, Clone)]
pub struct IpAllowlistConfigDto {
    pub cidrs: Vec<String>,
    pub enabled: bool,
    pub updated_at: Option<i64>,
}

/// [`IpAllowlistConfigDto`] as plain values.
pub struct IpAllowlistConfigDtoView {
    pub cidrs: Seq<Seq<char>>,
    pub enabled: bool,
    pub updated_at: Option<i64>,
}

impl View for IpAllowlistConfigDto {
    type V = IpAllowlistConfigDtoView;

    open spec fn view(&self) -> IpAllowlistConfigDtoView {
        IpAllowlistConfigDtoView {
            cidrs: texts(self.cidrs@),
            enabled: self.enabled,
            updated_at: self.updated_at,
        }
    }
}

/// The stored log export settings of a group.
#[derive(Debug, Clone)]
pub struct SiemConfigRow {
    pub tenant_id: String,
    pub kind: Option<String>,
    pub endpoint: Option<String>,
    pub secret_encrypted: Option<String>,
    pub enabled: bool,
    pub updated_at: i64,
}

/// [`SiemConfigRow`] as plain values.
pub struct SiemConfigRowView {
    pub tenant_id: Seq<char>,
    pub kind: Option<Seq<char>>,
    pub endpoint: Option<Seq<char>>,
    pub secret_encrypted: Option<Seq<char>>,
    pub enabled: bool,
    pub updated_at: i64,
}

impl View for SiemConfigRow {
    type V = SiemConfigRowView;

    open spec fn view(&self) -> SiemConfigRowView {
        SiemConfigRowView {
            tenant_id: self.tenant_id@,
            kind: opt_text(self.kind),
            endpoint: opt_text(self.endpoint),
            secret_encrypted: opt_text(self.secret_encrypted),
            enabled: self.enabled,
            updated_at: self.updated_at,
        }
    }
}

impl SiemConfigRow {
    /// A second copy of the value.
    pub fn copy(&self) -> (r: Self)
        ensures
            r@ == self@,
    {
        SiemConfigRow {
            tenant_id: self.tenant_id.clone(),
            kind: clone_opt(&self.kind),
            endpoint: clone_opt(&self.endpoint),
            secret_encrypted: clone_opt(&self.secret_encrypted),
            enabled: self.enabled,
            updated_at: self.updated_at,
        }
    }
}

/// The log export settings as shown: never the token.
#[derive(Debug, Clone)]
pub struct SiemConfigDto {
    pub kind: Option<String>,
    pub endpoint: Option<String>,
    pub has_secret: bool,
    pub enabled: bool,
    pub updated_at: Option<i64>,
}

/// [`SiemConfigDto`] as plain values.
pub struct SiemConfigDtoView {
    pub kind: Option<Seq<char>>,
    pub endpoint: Option<Seq<char>>,
    pub has_secret: bool,
    pub enabled: bool,
    pub updated_at: Option<i64>,
}

impl View for SiemConfigDto {
    type V = SiemConfigDtoView;

    open spec fn view(&self) -> SiemConfigDtoView {
        SiemConfigDtoView {
            kind: opt_text(self.kind),
            endpoint: opt_text(self.endpoint),
            has_secret: self.has_secret,
            enabled: self.enabled,
            updated_at: self.updated_at,
        }
    }
}

/// A subject that may reach a resource.
#[derive(Debug, Clone)]
pub struct ResourceGrantRow {
    pub id: String,
    pub tenant_id: String,
    pub subject_type: String,
    pub subject_id: String,
    pub resource_type: String,
    pub resource_id: String,
    pub granted_by: String,
    pub created_at: i64,
}

/// [`ResourceGrantRow`] as plain values.
pub struct ResourceGrantRowView {
    pub id: Seq<char>,
    pub tenant_id: Seq<char>,
    pub subject_type: Seq<char>,
    pub subject_id: Seq<char>,
    pub resource_type: Seq<char>,
    pub resource_id: Seq<char>,
    pub granted_by: Seq<char>,
    pub created_at: i64,
}

impl View for ResourceGrantRow {
    type V = ResourceGrantRowView;

    open spec fn view(&self) -> ResourceGrantRowView {
        ResourceGrantRowView {
            id: self.id@,
            tenant_id: self.tenant_id@,
            subject_type: self.subject_type@,
            subject_id: self.subject_id@,
            resource_type: self.resource_type@,
            resource_id: self.resource_id@,
            granted_by: self.granted_by@,
            created_at: self.created_at,
        }
    }
}

impl ResourceGrantRow {
    /// A second copy of the value.
    pub fn copy(&self) -> (r: Self)
        ensures
            r@ == self@,
    {
        ResourceGrantRow {
            id: self.id.clone(),
            tenant_id: self.tenant_id.clone(),
            subject_type: self.subject_type.clone(),
            subject_id: self.subject_id.clone(),
            resource_type: self.resource_type.clone(),
            resource_id: self.resource_id.clone(),
            granted_by: self.granted_by.clone(),
            created_at: self.created_at,
        }
    }
}

/// A grant as shown.
#[derive(Debug, Clone)]
pub struct ResourceGrantDto {
    pub id: String,
    pub subject_type: String,
    pub subject_id: String,
    pub resource_type: String,
    pub resource_id: String,
    pub granted_by: String,
    pub created_at: i64,
}

/// [`ResourceGrantDto`] as plain values.
pub struct ResourceGrantDtoView {
    pub id: Seq<char>,
    pub subject_type: Seq<char>,
    pub subject_id: Seq<char>,
    pub resource_type: Seq<char>,
    pub resource_id: Seq<char>,
    pub granted_by: Seq<char>,
    pub created_at: i64,
}

impl View for ResourceGrantDto {
    type V = ResourceGrantDtoView;

    open spec fn view(&self) -> ResourceGrantDtoView {
        ResourceGrantDtoView {
            id: self.id@,
            subject_type: self.subject_type@,
            subject_id: self.subject_id@,
            resource_type: self.resource_type@,
            resource_id: self.resource_id@,
            granted_by: self.granted_by@,
            created_at: self.created_at,
        }
    }
}

/// What a member may reach of one type of resource. Where `all` holds, everything; else the
/// listed resources.
#[derive(Debug, Clone)]
pub struct EffectiveGrantDto {
    pub all: bool,
    pub resource_ids: Vec<String>,
}

/// [`EffectiveGrantDto`] as plain values.
pub struct EffectiveGrantDtoView {
    pub all: bool,
    pub resource_ids: Seq<Seq<char>>,
}

impl View for EffectiveGrantDto {
    type V = EffectiveGrantDtoView;

    open spec fn view(&self) -> EffectiveGrantDtoView {
        EffectiveGrantDtoView {
            all: self.all,
            resource_ids: texts(self.resource_ids@),
        }
    }
}

/// The stored security policy of a group; the patterns are JSON text.
#[derive(Debug, Clone)]
pub struct SecurityPolicyRow {
    pub tenant_id: String,
    pub tier: String,
    pub terminal_tools_require_approval: bool,
    pub destructive_commands_blocked: bool,
    pub blocked_command_patterns: String,
    pub external_network_denied_by_default: bool,
    pub message_scan_enabled: bool,
    pub message_redact_enabled: bool,
    pub send_rate_limit_per_minute: Option<i64>,
    pub updated_at: i64,
}

/// [`SecurityPolicyRow`] as plain values.
pub struct SecurityPolicyRowView {
    pub tenant_id: Seq<char>,
    pub tier: Seq<char>,
    pub terminal_tools_require_approval: bool,
    pub destructive_commands_blocked: bool,
    pub blocked_command_patterns: Seq<char>,
    pub external_network_denied_by_default: bool,
    pub message_scan_enabled: bool,
    pub message_redact_enabled: bool,
    pub send_rate_limit_per_minute: Option<i64>,
    pub updated_at: i64,
}

impl View for SecurityPolicyRow {
    type V = SecurityPolicyRowView;

    open spec fn view(&self) -> SecurityPolicyRowView {
        SecurityPolicyRowView {
            tenant_id: self.tenant_id@,
            tier: self.tier@,
            terminal_tools_require_approval: self.terminal_tools_require_approval,
            destructive_commands_blocked: self.destructive_commands_blocked,
            blocked_command_patterns: self.blocked_command_patterns@,
            external_network_denied_by_default: self.external_network_denied_by_default,
            message_scan_enabled: self.message_scan_enabled,
            message_redact_enabled: self.message_redact_enabled,
            send_rate_limit_per_minute: self.send_rate_limit_per_minute,
            updated_at: self.updated_at,
        }
    }
}

impl SecurityPolicyRow {
    /// A second copy of the value.
    pub fn copy(&self) -> (r: Self)
        ensures
            r@ == self@,
    {
        SecurityPolicyRow {
            tenant_id: self.tenant_id.clone(),
            tier: self.tier.clone(),
            terminal_tools_require_approval: self.terminal_tools_require_approval,
            destructive_commands_blocked: self.destructive_commands_blocked,
            blocked_command_patterns: self.blocked_command_patterns.clone(),
            external_network_denied_by_default: self.external_network_denied_by_default,
            message_scan_enabled: self.message_scan_enabled,
            message_redact_enabled: self.message_redact_enabled,
            send_rate_limit_per_minute: self.send_rate_limit_per_minute,
            updated_at: self.updated_at,
        }
    }
}

/// The security policy of a group.
#[derive(Debug, Clone)]
pub struct SecurityPolicyDto {
    pub tier: String,
    pub terminal_tools_require_approval: bool,
    pub destructive_commands_blocked: bool,
    pub blocked_command_patterns: Vec<String>,
    pub external_network_denied_by_default: bool,
    pub message_scan_enabled: bool,
    pub message_redact_enabled: bool,
    pub send_rate_limit_per_minute: Option<i64>,
    pub updated_at: Option<i64>,
}

/// [`SecurityPolicyDto`] as plain values.
pub struct SecurityPolicyDtoView {
    pub tier: Seq<char>,
    pub terminal_tools_require_approval: bool,
    pub destructive_commands_blocked: bool,
    pub blocked_command_patterns: Seq<Seq<char>>,
    pub external_network_denied_by_default: bool,
    pub message_scan_enabled: bool,
    pub message_redact_enabled: bool,
    pub send_rate_limit_per_minute: Option<i64>,
    pub updated_at: Option<i64>,
}

impl View for SecurityPolicyDto {
    type V = SecurityPolicyDtoView;

    open spec fn view(&self) -> SecurityPolicyDtoView {
        SecurityPolicyDtoView {
            tier: self.tier@,
            terminal_tools_require_approval: self.terminal_tools_require_approval,
            destructive_commands_blocked: self.destructive_commands_blocked,
            blocked_command_patterns: texts(self.blocked_command_patterns@),
            external_network_denied_by_default: self.external_network_denied_by_default,
            message_scan_enabled: self.message_scan_enabled,
            message_redact_enabled: self.message_redact_enabled,
            send_rate_limit_per_minute: self.send_rate_limit_per_minute,
            updated_at: self.updated_at,
        }
    }
}

/// A named snapshot of policy fields.
#[derive(Debug, Clone)]
pub struct SecurityPolicyTemplateDto {
    pub id: String,
    pub name: String,
    pub description: String,
    pub tier: String,
    pub terminal_tools_require_approval: bool,
    pub destructive_commands_blocked: bool,
    pub blocked_command_patterns: Vec<String>,
    pub external_network_denied_by_default: bool,
    pub message_scan_enabled: bool,
    pub message_redact_enabled: bool,
    pub send_rate_limit_per_minute: Option<i64>,
    pub created_by: String,
    pub created_at: i64,
    pub updated_at: i64,
    pub binding_count: i64,
}

/// A template's assignment to a member or a department.
#[derive(Debug, Clone)]
pub struct PolicyTemplateBindingDto {
    pub id: String,
    pub template_id: String,
    pub subject_type: String,
    pub subject_id: String,
    pub note: Option<String>,
    pub bound_by: String,
    pub bound_at: i64,
}

/// A stored key; of its secret only the beginning and a hash. The paths are JSON text.
#[derive(Debug, Clone)]
pub struct ApiKeyRow {
    pub id: String,
    pub tenant_id: String,
    pub name: String,
    pub key_prefix: String,
    pub key_hash: String,
    pub allowed_paths: String,
    pub rate_limit_per_minute: Option<i64>,
    pub status: String,
    pub created_by: String,
    pub created_at: i64,
    pub revoked_at: Option<i64>,
    pub last_used_at: Option<i64>,
}

/// [`ApiKeyRow`] as plain values.
pub struct ApiKeyRowView {
    pub id: Seq<char>,
    pub tenant_id: Seq<char>,
    pub name: Seq<char>,
    pub key_prefix: Seq<char>,
    pub key_hash: Seq<char>,
    pub allowed_paths: Seq<char>,
    pub rate_limit_per_minute: Option<i64>,
    pub status: Seq<char>,
    pub created_by: Seq<char>,
    pub created_at: i64,
    pub revoked_at: Option<i64>,
    pub last_used_at: Option<i64>,
}

impl View for ApiKeyRow {
    type V = ApiKeyRowView;

    open spec fn view(&self) -> ApiKeyRowView {
        ApiKeyRowView {
            id: self.id@,
            tenant_id: self.tenant_id@,
            name: self.name@,
            key_prefix: self.key_prefix@,
            key_hash: self.key_hash@,
            allowed_paths: self.allowed_paths@,
            rate_limit_per_minute: self.rate_limit_per_minute,
            status: self.status@,
            created_by: self.created_by@,
            created_at: self.created_at,
            revoked_at: self.revoked_at,
            last_used_at: self.last_used_at,
        }
    }
}

impl ApiKeyRow {
    /// A second copy of the value.
    pub fn copy(&self) -> (r: Self)
        ensures
            r@ == self@,
    {
        ApiKeyRow {
            id: self.id.clone(),
            tenant_id: self.tenant_id.clone(),
            name: self.name.clone(),
            key_prefix: self.key_prefix.clone(),
            key_hash: self.key_hash.clone(),
            allowed_paths: self.allowed_paths.clone(),
            rate_limit_per_minute: self.rate_limit_per_minute,
            status: self.status.clone(),
            created_by: self.created_by.clone(),
            created_at: self.created_at,
            revoked_at: self.revoked_at,
            last_used_at: self.last_used_at,
        }
    }
}

/// A key as shown: neither its secret nor the hash.
#[derive(Debug, Clone)]
pub struct ApiKeyDto {
    pub id: String,
    pub name: String,
    pub key_prefix: String,
    pub allowed_paths: Vec<String>,
    pub rate_limit_per_minute: Option<i64>,
    pub status: String,
    pub created_by: String,
    pub created_at: i64,
    pub revoked_at: Option<i64>,
    pub last_used_at: Option<i64>,
}

/// [`ApiKeyDto`] as plain values.
pub struct ApiKeyDtoView {
    pub id: Seq<char>,
    pub name: Seq<char>,
    pub key_prefix: Seq<char>,
    pub allowed_paths: Seq<Seq<char>>,
    pub rate_limit_per_minute: Option<i64>,
    pub status: Seq<char>,
    pub created_by: Seq<char>,
    pub created_at: i64,
    pub revoked_at: Option<i64>,
    pub last_used_at: Option<i64>,
}

impl View for ApiKeyDto {
    type V = ApiKeyDtoView;

    open spec fn view(&self) -> ApiKeyDtoView {
        ApiKeyDtoView {
            id: self.id@,
            name: self.name@,
            key_prefix: self.key_prefix@,
            allowed_paths: texts(self.allowed_paths@),
            rate_limit_per_minute: self.rate_limit_per_minute,
            status: self.status@,
            created_by: self.created_by@,
            created_at: self.created_at,
            revoked_at: self.revoked_at,
            last_used_at: self.last_used_at,
        }
    }
}

/// A new key with its secret, which is shown this once.
#[derive(Debug, Clone)]
pub struct NewApiKeyDto {
    pub key: ApiKeyDto,
    pub secret: String,
}

/// [`NewApiKeyDto`] as plain values.
pub struct NewApiKeyDtoView {
    pub key: ApiKeyDtoView,
    pub secret: Seq<char>,
}

impl View for NewApiKeyDto {
    type V = NewApiKeyDtoView;

    open spec fn view(&self) -> NewApiKeyDtoView {
        NewApiKeyDtoView {
            key: self.key@,
            secret: self.secret@,
        }
    }
}

/// A messaging bot of a member.
#[derive(Debug, Clone)]
pub struct ImChannelPluginDto {
    pub platform: String,
    pub name: String,
    pub enabled: bool,
    pub status: Option<String>,
    pub last_connected: Option<i64>,
    pub authorized_user_count: i64,
}

/// The messaging bots of a member.
#[derive(Debug, Clone)]
pub struct ImChannelMemberDto {
    pub user_id: String,
    pub display_name: String,
    pub plugins: Vec<ImChannelPluginDto>,
}

/// A scene of a group: a named bundle of grants. The job functions are JSON text.
#[derive(Debug, Clone)]
pub struct SceneRow {
    pub id: String,
    pub tenant_id: String,
    pub name: String,
    pub description: Option<String>,
    pub job_functions: String,
    pub built_in: bool,
    pub created_at: i64,
    pub updated_at: i64,
}

/// [`SceneRow`] as plain values.
pub struct SceneRowView {
    pub id: Seq<char>,
    pub tenant_id: Seq<char>,
    pub name: Seq<char>,
    pub description: Option<Seq<char>>,
    pub job_functions: Seq<char>,
    pub built_in: bool,
    pub created_at: i64,
    pub updated_at: i64,
}

impl View for SceneRow {
    type V = SceneRowView;

    open spec fn view(&self) -> SceneRowView {
        SceneRowView {
            id: self.id@,
            tenant_id: self.tenant_id@,
            name: self.name@,
            description: opt_text(self.description),
            job_functions: self.job_functions@,
            built_in: self.built_in,
            created_at: self.created_at,
            updated_at: self.updated_at,
        }
    }
}

impl SceneRow {
    /// A second copy of the value.
    pub fn copy(&self) -> (r: Self)
        ensures
            r@ == self@,
    {
        SceneRow {
            id: self.id.clone(),
            tenant_id: self.tenant_id.clone(),
            name: self.name.clone(),
            description: clone_opt(&self.description),
            job_functions: self.job_functions.clone(),
            built_in: self.built_in,
            created_at: self.created_at,
            updated_at: self.updated_at,
        }
    }
}

/// A member of a scene.
#[derive(Debug, Clone)]
pub struct SceneMemberRow {
    pub scene_id: String,
    pub tenant_id: String,
    pub user_id: String,
    pub added_at: i64,
}

/// [`SceneMemberRow`] as plain values.
pub struct SceneMemberRowView {
    pub scene_id: Seq<char>,
    pub tenant_id: Seq<char>,
    pub user_id: Seq<char>,
    pub added_at: i64,
}

impl View for SceneMemberRow {
    type V = SceneMemberRowView;

    open spec fn view(&self) -> SceneMemberRowView {
        SceneMemberRowView {
            scene_id: self.scene_id@,
            tenant_id: self.tenant_id@,
            user_id: self.user_id@,
            added_at: self.added_at,
        }
    }
}

impl SceneMemberRow {
    /// A second copy of the value.
    pub fn copy(&self) -> (r: Self)
        ensures
            r@ == self@,
    {
        SceneMemberRow {
            scene_id: self.scene_id.clone(),
            tenant_id: self.tenant_id.clone(),
            user_id: self.user_id.clone(),
            added_at: self.added_at,
        }
    }
}

/// A scene as shown.
#[derive(Debug, Clone)]
pub struct SceneDto {
    pub id: String,
    pub name: String,
    pub description: Option<String>,
    pub job_functions: Vec<String>,
    pub built_in: bool,
    pub member_count: i64,
    pub created_at: i64,
    pub updated_at: i64,
}

/// [`SceneDto`] as plain values.
pub struct SceneDtoView {
    pub id: Seq<char>,
    pub name: Seq<char>,
    pub description: Option<Seq<char>>,
    pub job_functions: Seq<Seq<char>>,
    pub built_in: bool,
    pub member_count: i64,
    pub created_at: i64,
    pub updated_at: i64,
}

impl View for SceneDto {
    type V = SceneDtoView;

    open spec fn view(&self) -> SceneDtoView {
        SceneDtoView {
            id: self.id@,
            name: self.name@,
            description: opt_text(self.description),
            job_functions: texts(self.job_functions@),
            built_in: self.built_in,
            member_count: self.member_count,
            created_at: self.created_at,
            updated_at: self.updated_at,
        }
    }
}

/// A message to members of a group.
#[derive(Debug, Clone)]
pub struct NotificationRow {
    pub id: String,
    pub tenant_id: String,
    pub kind: String,
    pub category: String,
    pub title: String,
    pub body: String,
    pub created_by: String,
    pub created_at: i64,
}

/// [`NotificationRow`] as plain values.
pub struct NotificationRowView {
    pub id: Seq<char>,
    pub tenant_id: Seq<char>,
    pub kind: Seq<char>,
    pub category: Seq<char>,
    pub title: Seq<char>,
    pub body: Seq<char>,
    pub created_by: Seq<char>,
    pub created_at: i64,
}

impl View for NotificationRow {
    type V = NotificationRowView;

    open spec fn view(&self) -> NotificationRowView {
        NotificationRowView {
            id: self.id@,
            tenant_id: self.tenant_id@,
            kind: self.kind@,
            category: self.category@,
            title: self.title@,
            body: self.body@,
            created_by: self.created_by@,
            created_at: self.created_at,
        }
    }
}

impl NotificationRow {
    /// A second copy of the value.
    pub fn copy(&self) -> (r: Self)
        ensures
            r@ == self@,
    {
        NotificationRow {
            id: self.id.clone(),
            tenant_id: self.tenant_id.clone(),
            kind: self.kind.clone(),
            category: self.category.clone(),
            title: self.title.clone(),
            body: self.body.clone(),
            created_by: self.created_by.clone(),
            created_at: self.created_at,
        }
    }
}

/// Somebody a targeted message is for.
#[derive(Debug, Clone)]
pub struct RecipientRow {
    pub notification_id: String,
    pub user_id: String,
}

/// [`RecipientRow`] as plain values.
pub struct RecipientRowView {
    pub notification_id: Seq<char>,
    pub user_id: Seq<char>,
}

impl View for RecipientRow {
    type V = RecipientRowView;

    open spec fn view(&self) -> RecipientRowView {
        RecipientRowView {
            notification_id: self.notification_id@,
            user_id: self.user_id@,
        }
    }
}

impl RecipientRow {
    /// A second copy of the value.
    pub fn copy(&self) -> (r: Self)
        ensures
            r@ == self@,
    {
        RecipientRow {
            notification_id: self.notification_id.clone(),
            user_id: self.user_id.clone(),
        }
    }
}

/// When somebody read a message.
#[derive(Debug, Clone)]
pub struct ReadRow {
    pub notification_id: String,
    pub user_id: String,
    pub read_at: i64,
}

/// [`ReadRow`] as plain values.
pub struct ReadRowView {
    pub notification_id: Seq<char>,
    pub user_id: Seq<char>,
    pub read_at: i64,
}

impl View for ReadRow {
    type V = ReadRowView;

    open spec fn view(&self) -> ReadRowView {
        ReadRowView {
            notification_id: self.notification_id@,
            user_id: self.user_id@,
            read_at: self.read_at,
        }
    }
}

impl ReadRow {
    /// A second copy of the value.
    pub fn copy(&self) -> (r: Self)
        ensures
            r@ == self@,
    {
        ReadRow {
            notification_id: self.notification_id.clone(),
            user_id: self.user_id.clone(),
            read_at: self.read_at,
        }
    }
}

/// A message as its sender sees it.
#[derive(Debug, Clone)]
pub struct NotificationDto {
    pub id: String,
    pub kind: String,
    pub category: String,
    pub title: String,
    pub body: String,
    pub recipient_count: i64,
    pub read_count: i64,
    pub created_by: String,
    pub created_at: i64,
}

/// [`NotificationDto`] as plain values.
pub struct NotificationDtoView {
    pub id: Seq<char>,
    pub kind: Seq<char>,
    pub category: Seq<char>,
    pub title: Seq<char>,
    pub body: Seq<char>,
    pub recipient_count: i64,
    pub read_count: i64,
    pub created_by: Seq<char>,
    pub created_at: i64,
}

impl View for NotificationDto {
    type V = NotificationDtoView;

    open spec fn view(&self) -> NotificationDtoView {
        NotificationDtoView {
            id: self.id@,
            kind: self.kind@,
            category: self.category@,
            title: self.title@,
            body: self.body@,
            recipient_count: self.recipient_count,
            read_count: self.read_count,
            created_by: self.created_by@,
            created_at: self.created_at,
        }
    }
}

/// A message as its reader sees it.
#[derive(Debug, Clone)]
pub struct MyNotificationDto {
    pub id: String,
    pub kind: String,
    pub category: String,
    pub title: String,
    pub body: String,
    pub created_by: String,
    pub created_at: i64,
    pub read_at: Option<i64>,
}

/// [`MyNotificationDto`] as plain values.
pub struct MyNotificationDtoView {
    pub id: Seq<char>,
    pub kind: Seq<char>,
    pub category: Seq<char>,
    pub title: Seq<char>,
    pub body: Seq<char>,
    pub created_by: Seq<char>,
    pub created_at: i64,
    pub read_at: Option<i64>,
}

impl View for MyNotificationDto {
    type V = MyNotificationDtoView;

    open spec fn view(&self) -> MyNotificationDtoView {
        MyNotificationDtoView {
            id: self.id@,
            kind: self.kind@,
            category: self.category@,
            title: self.title@,
            body: self.body@,
            created_by: self.created_by@,
            created_at: self.created_at,
            read_at: self.read_at,
        }
    }
}

/// A member's inbox.
#[derive(Debug, Clone)]
pub struct MyNotificationsDto {
    pub notifications: Vec<MyNotificationDto>,
    pub unread_count: i64,
}

/// [`MyNotificationsDto`] as plain values.
pub struct MyNotificationsDtoView {
    pub notifications: Seq<MyNotificationDtoView>,
    pub unread_count: i64,
}

impl View for MyNotificationsDto {
    type V = MyNotificationsDtoView;

    open spec fn view(&self) -> MyNotificationsDtoView {
        MyNotificationsDtoView {
            notifications: views(self.notifications@),
            unread_count: self.unread_count,
        }
    }
}

/// The stored state of a member's file vault.
#[derive(Debug, Clone)]
pub struct VaultSettingsRow {
    pub tenant_id: String,
    pub user_id: String,
    pub status: String,
    pub quota_bytes: Option<i64>,
    pub updated_at: i64,
}

/// [`VaultSettingsRow`] as plain values.
pub struct VaultSettingsRowView {
    pub tenant_id: Seq<char>,
    pub user_id: Seq<char>,
    pub status: Seq<char>,
    pub quota_bytes: Option<i64>,
    pub updated_at: i64,
}

impl View for VaultSettingsRow {
    type V = VaultSettingsRowView;

    open spec fn view(&self) -> VaultSettingsRowView {
        VaultSettingsRowView {
            tenant_id: self.tenant_id@,
            user_id: self.user_id@,
            status: self.status@,
            quota_bytes: self.quota_bytes,
            updated_at: self.updated_at,
        }
    }
}

impl VaultSettingsRow {
    /// A second copy of the value.
    pub fn copy(&self) -> (r: Self)
        ensures
            r@ == self@,
    {
        VaultSettingsRow {
            tenant_id: self.tenant_id.clone(),
            user_id: self.user_id.clone(),
            status: self.status.clone(),
            quota_bytes: self.quota_bytes,
            updated_at: self.updated_at,
        }
    }
}

/// A file of a vault, or what is left on record of one.
#[derive(Debug, Clone)]
pub struct VaultObjectRow {
    pub id: String,
    pub tenant_id: String,
    pub user_id: String,
    pub file_name: String,
    pub size_bytes: i64,
    pub sha256: String,
    pub storage_key: String,
    pub created_at: i64,
    pub deleted_at: Option<i64>,
}

/// [`VaultObjectRow`] as plain values.
pub struct VaultObjectRowView {
    pub id: Seq<char>,
    pub tenant_id: Seq<char>,
    pub user_id: Seq<char>,
    pub file_name: Seq<char>,
    pub size_bytes: i64,
    pub sha256: Seq<char>,
    pub storage_key: Seq<char>,
    pub created_at: i64,
    pub deleted_at: Option<i64>,
}

impl View for VaultObjectRow {
    type V = VaultObjectRowView;

    open spec fn view(&self) -> VaultObjectRowView {
        VaultObjectRowView {
            id: self.id@,
            tenant_id: self.tenant_id@,
            user_id: self.user_id@,
            file_name: self.file_name@,
            size_bytes: self.size_bytes,
            sha256: self.sha256@,
            storage_key: self.storage_key@,
            created_at: self.created_at,
            deleted_at: self.deleted_at,
        }
    }
}

impl VaultObjectRow {
    /// A second copy of the value.
    pub fn copy(&self) -> (r: Self)
        ensures
            r@ == self@,
    {
        VaultObjectRow {
            id: self.id.clone(),
            tenant_id: self.tenant_id.clone(),
            user_id: self.user_id.clone(),
            file_name: self.file_name.clone(),
            size_bytes: self.size_bytes,
            sha256: self.sha256.clone(),
            storage_key: self.storage_key.clone(),
            created_at: self.created_at,
            deleted_at: self.deleted_at,
        }
    }
}

/// A member's file vault as shown.
#[derive(Debug, Clone)]
pub struct FileVaultDto {
    pub user_id: String,
    pub status: String,
    pub quota_bytes: Option<i64>,
    pub usage_bytes: i64,
    pub object_count: i64,
}

/// [`FileVaultDto`] as plain values.
pub struct FileVaultDtoView {
    pub user_id: Seq<char>,
    pub status: Seq<char>,
    pub quota_bytes: Option<i64>,
    pub usage_bytes: i64,
    pub object_count: i64,
}

impl View for FileVaultDto {
    type V = FileVaultDtoView;

    open spec fn view(&self) -> FileVaultDtoView {
        FileVaultDtoView {
            user_id: self.user_id@,
            status: self.status@,
            quota_bytes: self.quota_bytes,
            usage_bytes: self.usage_bytes,
            object_count: self.object_count,
        }
    }
}

/// A file of a vault as shown.
#[derive(Debug, Clone)]
pub struct FileVaultObjectDto {
    pub id: String,
    pub file_name: String,
    pub size_bytes: i64,
    pub sha256: String,
    pub created_at: i64,
    pub deleted_at: Option<i64>,
}

/// [`FileVaultObjectDto`] as plain values.
pub struct FileVaultObjectDtoView {
    pub id: Seq<char>,
    pub file_name: Seq<char>,
    pub size_bytes: i64,
    pub sha256: Seq<char>,
    pub created_at: i64,
    pub deleted_at: Option<i64>,
}

impl View for FileVaultObjectDto {
    type V = FileVaultObjectDtoView;

    open spec fn view(&self) -> FileVaultObjectDtoView {
        FileVaultObjectDtoView {
            id: self.id@,
            file_name: self.file_name@,
            size_bytes: self.size_bytes,
            sha256: self.sha256@,
            created_at: self.created_at,
            deleted_at: self.deleted_at,
        }
    }
}

/// Where the records of a member's vault and the stored files disagree.
#[derive(Debug, Clone)]
pub struct FileVaultReconcileEntry {
    pub user_id: String,
    pub missing_on_disk: Vec<String>,
    pub missing_in_ledger: Vec<String>,
    pub size_mismatches: Vec<String>,
}

/// [`FileVaultReconcileEntry`] as plain values.
pub struct FileVaultReconcileEntryView {
    pub user_id: Seq<char>,
    pub missing_on_disk: Seq<Seq<char>>,
    pub missing_in_ledger: Seq<Seq<char>>,
    pub size_mismatches: Seq<Seq<char>>,
}

impl View for FileVaultReconcileEntry {
    type V = FileVaultReconcileEntryView;

    open spec fn view(&self) -> FileVaultReconcileEntryView {
        FileVaultReconcileEntryView {
            user_id: self.user_id@,
            missing_on_disk: texts(self.missing_on_disk@),
            missing_in_ledger: texts(self.missing_in_ledger@),
            size_mismatches: texts(self.size_mismatches@),
        }
    }
}

/// A stored file as found: whose it is, its name and its size.
#[derive(Debug, Clone)]
pub struct DiskFile {
    pub user_id: String,
    pub name: String,
    pub size: u64,
}

/// [`DiskFile`] as plain values.
pub struct DiskFileView {
    pub user_id: Seq<char>,
    pub name: Seq<char>,
    pub size: u64,
}

impl View for DiskFile {
    type V = DiskFileView;

    open spec fn view(&self) -> DiskFileView {
        DiskFileView {
            user_id: self.user_id@,
            name: self.name@,
            size: self.size,
        }
    }
}

/// What stands in place of a sensitive value.
pub const SENSITIVE_PLACEHOLDER: &'static str = "<sensitive>";

/// A named set of settings.
#[derive(Debug, Clone)]
pub struct ConfigSetDto {
    pub id: String,
    pub name: String,
    pub description: String,
    pub created_by: String,
    pub created_at: i64,
    pub updated_at: i64,
    pub entry_count: i64,
    pub ref_count: i64,
}

/// An entry of a set; a sensitive value is shown as [`SENSITIVE_PLACEHOLDER`].
#[derive(Debug, Clone)]
pub struct ConfigEntryDto {
    pub id: String,
    pub set_id: String,
    pub key: String,
    pub value: String,
    pub sensitive: bool,
    pub has_value: bool,
}

/// A skill that refers to a set.
#[derive(Debug, Clone)]
pub struct ConfigSetReference {
    pub skill_id: String,
    pub skill_name: String,
}

/// The skills that refer to a set.
#[derive(Debug, Clone)]
pub struct ConfigSetReferencesDto {
    pub set_id: String,
    pub set_name: String,
    pub count: i64,
    pub references: Vec<ConfigSetReference>,
}

/// What a bulk import did.
#[derive(Debug, Clone)]
pub struct ConfigBulkImportDto {
    pub imported: i64,
    pub skipped: i64,
}

/// A stored bucket registration; the secret is encrypted.
#[derive(Debug, Clone)]
pub struct ObjectStorageRow {
    pub id: String,
    pub tenant_id: String,
    pub protocol: String,
    pub config_key: String,
    pub bucket: String,
    pub endpoint: String,
    pub region: String,
    pub prefix: Option<String>,
    pub access_key_id: Option<String>,
    pub secret_access_key_encrypted: Option<String>,
    pub force_path_style: i64,
    pub is_default: i64,
    pub created_by: String,
    pub created_at: i64,
    pub updated_at: i64,
}

/// [`ObjectStorageRow`] as plain values.
pub struct ObjectStorageRowView {
    pub id: Seq<char>,
    pub tenant_id: Seq<char>,
    pub protocol: Seq<char>,
    pub config_key: Seq<char>,
    pub bucket: Seq<char>,
    pub endpoint: Seq<char>,
    pub region: Seq<char>,
    pub prefix: Option<Seq<char>>,
    pub access_key_id: Option<Seq<char>>,
    pub secret_access_key_encrypted: Option<Seq<char>>,
    pub force_path_style: i64,
    pub is_default: i64,
    pub created_by: Seq<char>,
    pub created_at: i64,
    pub updated_at: i64,
}

impl View for ObjectStorageRow {
    type V = ObjectStorageRowView;

    open spec fn view(&self) -> ObjectStorageRowView {
        ObjectStorageRowView {
            id: self.id@,
            tenant_id: self.tenant_id@,
            protocol: self.protocol@,
            config_key: self.config_key@,
            bucket: self.bucket@,
            endpoint: self.endpoint@,
            region: self.region@,
            prefix: opt_text(self.prefix),
            access_key_id: opt_text(self.access_key_id),
            secret_access_key_encrypted: opt_text(self.secret_access_key_encrypted),
            force_path_style: self.force_path_style,
            is_default: self.is_default,
            created_by: self.created_by@,
            created_at: self.created_at,
            updated_at: self.updated_at,
        }
    }
}

impl ObjectStorageRow {
    /// A second copy of the value.
    pub fn copy(&self) -> (r: Self)
        ensures
            r@ == self@,
    {
        ObjectStorageRow {
            id: self.id.clone(),
            tenant_id: self.tenant_id.clone(),
            protocol: self.protocol.clone(),
            config_key: self.config_key.clone(),
            bucket: self.bucket.clone(),
            endpoint: self.endpoint.clone(),
            region: self.region.clone(),
            prefix: clone_opt(&self.prefix),
            access_key_id: clone_opt(&self.access_key_id),
            secret_access_key_encrypted: clone_opt(&self.secret_access_key_encrypted),
            force_path_style: self.force_path_style,
            is_default: self.is_default,
            created_by: self.created_by.clone(),
            created_at: self.created_at,
            updated_at: self.updated_at,
        }
    }
}

/// A registered bucket as shown: never the secret.
#[derive(Debug, Clone)]
pub struct ObjectStorageConfigDto {
    pub id: String,
    pub protocol: String,
    pub config_key: String,
    pub bucket: String,
    pub endpoint: String,
    pub region: String,
    pub prefix: Option<String>,
    pub access_key_id: Option<String>,
    pub has_secret: bool,
    pub force_path_style: bool,
    pub is_default: bool,
    pub created_by: String,
    pub created_at: i64,
    pub updated_at: i64,
}

/// [`ObjectStorageConfigDto`] as plain values.
pub struct ObjectStorageConfigDtoView {
    pub id: Seq<char>,
    pub protocol: Seq<char>,
    pub config_key: Seq<char>,
    pub bucket: Seq<char>,
    pub endpoint: Seq<char>,
    pub region: Seq<char>,
    pub prefix: Option<Seq<char>>,
    pub access_key_id: Option<Seq<char>>,
    pub has_secret: bool,
    pub force_path_style: bool,
    pub is_default: bool,
    pub created_by: Seq<char>,
    pub created_at: i64,
    pub updated_at: i64,
}

impl View for ObjectStorageConfigDto {
    type V = ObjectStorageConfigDtoView;

    open spec fn view(&self) -> ObjectStorageConfigDtoView {
        ObjectStorageConfigDtoView {
            id: self.id@,
            protocol: self.protocol@,
            config_key: self.config_key@,
            bucket: self.bucket@,
            endpoint: self.endpoint@,
            region: self.region@,
            prefix: opt_text(self.prefix),
            access_key_id: opt_text(self.access_key_id),
            has_secret: self.has_secret,
            force_path_style: self.force_path_style,
            is_default: self.is_default,
            created_by: self.created_by@,
            created_at: self.created_at,
            updated_at: self.updated_at,
        }
    }
}

/// What a request sets of a bucket registration.
#[derive(Debug, Clone)]
pub struct ObjectStorageConfigInput {
    pub config_key: Option<String>,
    pub protocol: Option<String>,
    pub bucket: Option<String>,
    pub endpoint: Option<String>,
    pub region: Option<String>,
    pub prefix: Option<String>,
    pub access_key_id: Option<String>,
    /// `None` keeps the stored secret, an empty one clears it.
    pub secret_access_key: Option<String>,
    pub force_path_style: Option<bool>,
    pub is_default: Option<bool>,
}

/// [`ObjectStorageConfigInput`] as plain values.
pub struct ObjectStorageConfigInputView {
    pub config_key: Option<Seq<char>>,
    pub protocol: Option<Seq<char>>,
    pub bucket: Option<Seq<char>>,
    pub endpoint: Option<Seq<char>>,
    pub region: Option<Seq<char>>,
    pub prefix: Option<Seq<char>>,
    pub access_key_id: Option<Seq<char>>,
    pub secret_access_key: Option<Seq<char>>,
    pub force_path_style: Option<bool>,
    pub is_default: Option<bool>,
}

impl View for ObjectStorageConfigInput {
    type V = ObjectStorageConfigInputView;

    open spec fn view(&self) -> ObjectStorageConfigInputView {
        ObjectStorageConfigInputView {
            config_key: opt_text(self.config_key),
            protocol: opt_text(self.protocol),
            bucket: opt_text(self.bucket),
            endpoint: opt_text(self.endpoint),
            region: opt_text(self.region),
            prefix: opt_text(self.prefix),
            access_key_id: opt_text(self.access_key_id),
            secret_access_key: opt_text(self.secret_access_key),
            force_path_style: self.force_path_style,
            is_default: self.is_default,
        }
    }
}

/// An object or a folder as shown.
#[derive(Debug, Clone)]
pub struct ObjectEntryDto {
    pub key: String,
    pub name: String,
    pub is_prefix: bool,
    pub size_bytes: Option<i64>,
    pub last_modified: Option<i64>,
}

/// [`ObjectEntryDto`] as plain values.
pub struct ObjectEntryDtoView {
    pub key: Seq<char>,
    pub name: Seq<char>,
    pub is_prefix: bool,
    pub size_bytes: Option<i64>,
    pub last_modified: Option<i64>,
}

impl View for ObjectEntryDto {
    type V = ObjectEntryDtoView;

    open spec fn view(&self) -> ObjectEntryDtoView {
        ObjectEntryDtoView {
            key: self.key@,
            name: self.name@,
            is_prefix: self.is_prefix,
            size_bytes: self.size_bytes,
            last_modified: self.last_modified,
        }
    }
}

/// One level of a storage as shown.
#[derive(Debug, Clone)]
pub struct ObjectListingDto {
    pub entries: Vec<ObjectEntryDto>,
    pub prefix: String,
    pub next_token: Option<String>,
}

/// [`ObjectListingDto`] as plain values.
pub struct ObjectListingDtoView {
    pub entries: Seq<ObjectEntryDtoView>,
    pub prefix: Seq<char>,
    pub next_token: Option<Seq<char>>,
}

impl View for ObjectListingDto {
    type V = ObjectListingDtoView;

    open spec fn view(&self) -> ObjectListingDtoView {
        ObjectListingDtoView {
            entries: views(self.entries@),
            prefix: self.prefix@,
            next_token: opt_text(self.next_token),
        }
    }
}

/// Whether a storage can be reached.
#[derive(Debug, Clone)]
pub struct StorageProbeDto {
    pub ok: bool,
    pub message: String,
}

/// [`StorageProbeDto`] as plain values.
pub struct StorageProbeDtoView {
    pub ok: bool,
    pub message: Seq<char>,
}

impl View for StorageProbeDto {
    type V = StorageProbeDtoView;

    open spec fn view(&self) -> StorageProbeDtoView {
        StorageProbeDtoView {
            ok: self.ok,
            message: self.message@,
        }
    }
}

} // verus!
