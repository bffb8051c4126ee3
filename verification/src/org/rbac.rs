//! Who may make a request, and what requests may ask for.
use crate::org::error::{bad_request, forbidden, OrgError, OrgErrorView};
use crate::org::membership::{active_tenant, role_of, tenant_named};
use crate::org::models::{
    admin_role, enterprise_tenant, is_admin_role, is_enterprise_tenant_id, is_system_admin_role,
    system_admin_role, ROLE_MEMBER, ROLE_ORG_ADMIN, ROLE_SYSTEM_ADMIN,
};
use crate::org::roster::feature_allowed;
use crate::org::service::OrgService;
use crate::text::{cat, same, texts, trim, trimmed_text};
use vstd::prelude::*;

verus! {

/// The caller with the group they act in and their role there.
#[derive(Debug, Clone)]
pub struct OrgActor {
    pub user_id: String,
    pub username: String,
    pub tenant_id: String,
    pub role: String,
}

/// [`OrgActor`] as plain values.
pub struct OrgActorView {
    pub user_id: Seq<char>,
    pub username: Seq<char>,
    pub tenant_id: Seq<char>,
    pub role: Seq<char>,
}

impl View for OrgActor {
    type V = OrgActorView;

    open spec fn view(&self) -> OrgActorView {
        OrgActorView {
            user_id: self.user_id@,
            username: self.username@,
            tenant_id: self.tenant_id@,
            role: self.role@,
        }
    }
}

/// Why a caller is not let through to a group's administration.
pub open spec fn admin_refusal(actor: OrgActorView) -> Option<OrgErrorView> {
    if !enterprise_tenant(actor.tenant_id) {
        Some(OrgErrorView::NotInEnterprise)
    } else if !admin_role(actor.role) {
        Some(OrgErrorView::Forbidden("Administrator role required"@))
    } else {
        None
    }
}

/// The roles that can be asked for.
pub open spec fn assignable_role(role: Seq<char>) -> bool {
    role == ROLE_MEMBER@ || role == ROLE_ORG_ADMIN@ || role == ROLE_SYSTEM_ADMIN@
}

/// A caller who administers the project group that they act in.
#[derive(Debug)]
pub struct RequireOrgAdmin(pub OrgActor);

/// A caller who administers the instance.
#[derive(Debug)]
pub struct RequireSystemAdmin(pub OrgActor);

impl RequireOrgAdmin {
    pub fn let_in(actor: OrgActor) -> (r: Result<Self, OrgError>)
        ensures
            match admin_refusal(actor@) {
                Some(why) => r matches Err(e) && e@ == why,
                None => r matches Ok(v) && v.0 == actor,
            },
    {
        if !is_enterprise_tenant_id(actor.tenant_id.as_str()) {
            return Err(OrgError::NotInEnterprise);
        }
        if !is_admin_role(actor.role.as_str()) {
            return Err(forbidden("Administrator role required"));
        }
        Ok(RequireOrgAdmin(actor))
    }
}

impl RequireSystemAdmin {
    pub fn let_in(actor: OrgActor) -> (r: Result<Self, OrgError>)
        ensures
            if system_admin_role(actor@.role) {
                r matches Ok(v) && v.0 == actor
            } else {
                r matches Err(e) && e@ == OrgErrorView::Forbidden(
                    "System administrator role required"@,
                )
            },
    {
        if !is_system_admin_role(actor.role.as_str()) {
            return Err(forbidden("System administrator role required"));
        }
        Ok(RequireSystemAdmin(actor))
    }
}

/// Lets a caller through who acts in a project group.
pub fn require_group(actor: &OrgActor) -> (r: Result<(), OrgError>)
    ensures
        match r {
            Ok(_) => enterprise_tenant(actor@.tenant_id),
            Err(e) => !enterprise_tenant(actor@.tenant_id) && e@ == OrgErrorView::NotInEnterprise,
        },
{
    if is_enterprise_tenant_id(actor.tenant_id.as_str()) {
        Ok(())
    } else {
        Err(OrgError::NotInEnterprise)
    }
}

/// Lets a system administrator through, and an administrator of the company.
pub fn ensure_company_governor(actor: &OrgActor, is_company_admin: bool) -> (r: Result<
    (),
    OrgError,
>)
    ensures
        match r {
            Ok(_) => system_admin_role(actor@.role) || is_company_admin,
            Err(e) => !(system_admin_role(actor@.role) || is_company_admin) && e@
                == OrgErrorView::Forbidden("Company administrator role required"@),
        },
{
    if is_system_admin_role(actor.role.as_str()) || is_company_admin {
        Ok(())
    } else {
        Err(forbidden("Company administrator role required"))
    }
}

/// The role that a request asks for, where it can be given by a caller of this role. Only a system
/// administrator makes another.
pub fn requested_role(actor_role: &str, raw: &str) -> (r: Result<String, OrgError>)
    ensures
        ({
            let role = trimmed_text(raw@);
            match r {
                Ok(v) => v@ == role && assignable_role(role) && (system_admin_role(role)
                    ==> system_admin_role(actor_role@)),
                Err(e) => if !assignable_role(role) {
                    e@ == OrgErrorView::BadRequest("invalid role: "@ + role)
                } else {
                    &&& system_admin_role(role) && !system_admin_role(actor_role@)
                    &&& e@ == OrgErrorView::Forbidden(
                        "only system_admin can promote to system_admin"@,
                    )
                },
            }
        }),
{
    let role = trim(raw);
    if !same(role.as_str(), ROLE_MEMBER) && !same(role.as_str(), ROLE_ORG_ADMIN) && !same(
        role.as_str(),
        ROLE_SYSTEM_ADMIN,
    ) {
        return Err(OrgError::BadRequest(cat("invalid role: ", role.as_str())));
    }
    if is_system_admin_role(role.as_str()) && !is_system_admin_role(actor_role) {
        return Err(forbidden("only system_admin can promote to system_admin"));
    }
    Ok(role)
}

/// The machine that a heartbeat is about.
pub fn requested_machine(actor: &OrgActor, raw: &str) -> (r: Result<String, OrgError>)
    ensures
        match r {
            Ok(v) => enterprise_tenant(actor@.tenant_id) && v@ == trimmed_text(raw@) && v@.len()
                > 0,
            Err(e) => e@ == if !enterprise_tenant(actor@.tenant_id) {
                OrgErrorView::NotInEnterprise
            } else {
                OrgErrorView::BadRequest("machineId is required"@)
            } && (enterprise_tenant(actor@.tenant_id) ==> trimmed_text(raw@).len() == 0),
        },
{
    if !is_enterprise_tenant_id(actor.tenant_id.as_str()) {
        return Err(OrgError::NotInEnterprise);
    }
    let machine_id = trim(raw);
    if machine_id.as_str().is_empty() {
        return Err(bad_request("machineId is required"));
    }
    Ok(machine_id)
}

/// How many audit entries are shown unless a request says otherwise.
pub fn default_audit_limit() -> (n: i64)
    ensures
        n == 100,
{
    100
}

/// How many agent tool calls are shown unless a request says otherwise.
pub fn default_agent_audit_limit() -> (n: i64)
    ensures
        n == 500,
{
    500
}

impl OrgService {
    /// The caller with the group they act in and their role there.
    pub fn actor(&self, user_id: &str, username: &str) -> (r: OrgActor)
        ensures
            r@ == (OrgActorView {
                user_id: user_id@,
                username: username@,
                tenant_id: active_tenant(self@, user_id@),
                role: role_of(self@, user_id@),
            }),
    {
        OrgActor {
            user_id: user_id.to_owned(),
            username: username.to_owned(),
            tenant_id: self.tenant_of(user_id),
            role: self.effective_role(user_id),
        }
    }

    /// Lets a caller through whose plan is among `tiers`, and everyone outside a company; others
    /// are told that `feature` is missing.
    pub fn require_feature(&self, user_id: &str, tiers: &Vec<String>, feature: &str) -> (r: Result<
        (),
        OrgError,
    >)
        ensures
            match r {
                Ok(_) => feature_allowed(self@, user_id@, texts(tiers@)),
                Err(e) => !feature_allowed(self@, user_id@, texts(tiers@)) && e@
                    == OrgErrorView::Forbidden(
                    feature@ + " is not included in the current plan"@,
                ),
            },
    {
        if self.enterprise_feature_allowed(user_id, tiers) {
            Ok(())
        } else {
            Err(OrgError::Forbidden(cat(feature, " is not included in the current plan")))
        }
    }

    /// Lets a caller through to a group of a company that they govern.
    pub fn ensure_company_owns_tenant(
        &self,
        actor: &OrgActor,
        is_company_admin: bool,
        enterprise_id: &str,
        tenant_id: &str,
    ) -> (r: Result<(), OrgError>)
        ensures
            ({
                let governs = system_admin_role(actor@.role) || is_company_admin;
                let owns = tenant_named(self@, tenant_id@) matches Some(t) && t.enterprise_id
                    == Some(enterprise_id@);
                match r {
                    Ok(_) => governs && owns,
                    Err(e) => if governs {
                        !owns && e@ == OrgErrorView::TenantNotFound
                    } else {
                        e@ == OrgErrorView::Forbidden("Company administrator role required"@)
                    },
                }
            }),
    {
        if let Err(e) = ensure_company_governor(actor, is_company_admin) {
            return Err(e);
        }
        if self.tenant_belongs_to_enterprise(tenant_id, enterprise_id) {
            Ok(())
        } else {
            Err(OrgError::TenantNotFound)
        }
    }
}

} // verus!
