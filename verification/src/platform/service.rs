//! The platform service: its tables, and who may use it.
use crate::org::membership::active_of;
use crate::org::models::{
    ActiveTenantRow, ActiveTenantRowView, DepartmentRow, DepartmentRowView, UserOrgRow,
    UserOrgRowView,
};
use crate::platform::error::{PlatformError, PlatformErrorView};
use crate::platform::models::{
    ApiKeyRow, ApiKeyRowView, CollaborationConfigRow, CollaborationConfigRowView,
    ContainerConfigRow, ContainerConfigRowView, IpAllowlistRow, IpAllowlistRowView,
    NotificationRow, NotificationRowView, ObjectStorageRow, ObjectStorageRowView, ReadRow,
    ReadRowView, RecipientRow, RecipientRowView, ResourceGrantRow, ResourceGrantRowView,
    SceneMemberRow, SceneMemberRowView, SceneRow, SceneRowView, SecurityPolicyRow,
    SecurityPolicyRowView, SiemConfigRow, SiemConfigRowView, VaultObjectRow, VaultObjectRowView,
    VaultSettingsRow, VaultSettingsRowView,
};
use crate::table::{find_where, first, least, least_where, views};
use crate::text::{le_text, same, text_le};
use vstd::prelude::*;

verus! {

/// The platform tables, and the membership tables of the organization that they are read with.
#[derive(Debug)]
pub struct PlatformService {
    pub members: Vec<UserOrgRow>,
    pub active: Vec<ActiveTenantRow>,
    pub departments: Vec<DepartmentRow>,
    pub containers: Vec<ContainerConfigRow>,
    pub collaborations: Vec<CollaborationConfigRow>,
    pub allowlists: Vec<IpAllowlistRow>,
    pub siems: Vec<SiemConfigRow>,
    pub grants: Vec<ResourceGrantRow>,
    pub scenes: Vec<SceneRow>,
    pub scene_members: Vec<SceneMemberRow>,
    pub policies: Vec<SecurityPolicyRow>,
    pub api_keys: Vec<ApiKeyRow>,
    pub notifications: Vec<NotificationRow>,
    pub recipients: Vec<RecipientRow>,
    pub reads: Vec<ReadRow>,
    pub vaults: Vec<VaultSettingsRow>,
    pub vault_objects: Vec<VaultObjectRow>,
    pub storages: Vec<ObjectStorageRow>,
}

/// [`PlatformService`] as plain values.
pub struct PlatformState {
    pub members: Seq<UserOrgRowView>,
    pub active: Seq<ActiveTenantRowView>,
    pub departments: Seq<DepartmentRowView>,
    pub containers: Seq<ContainerConfigRowView>,
    pub collaborations: Seq<CollaborationConfigRowView>,
    pub allowlists: Seq<IpAllowlistRowView>,
    pub siems: Seq<SiemConfigRowView>,
    pub grants: Seq<ResourceGrantRowView>,
    pub scenes: Seq<SceneRowView>,
    pub scene_members: Seq<SceneMemberRowView>,
    pub policies: Seq<SecurityPolicyRowView>,
    pub api_keys: Seq<ApiKeyRowView>,
    pub notifications: Seq<NotificationRowView>,
    pub recipients: Seq<RecipientRowView>,
    pub reads: Seq<ReadRowView>,
    pub vaults: Seq<VaultSettingsRowView>,
    pub vault_objects: Seq<VaultObjectRowView>,
    pub storages: Seq<ObjectStorageRowView>,
}

impl View for PlatformService {
    type V = PlatformState;

    open spec fn view(&self) -> PlatformState {
        PlatformState {
            members: views(self.members@),
            active: views(self.active@),
            departments: views(self.departments@),
            containers: views(self.containers@),
            collaborations: views(self.collaborations@),
            allowlists: views(self.allowlists@),
            siems: views(self.siems@),
            grants: views(self.grants@),
            scenes: views(self.scenes@),
            scene_members: views(self.scene_members@),
            policies: views(self.policies@),
            api_keys: views(self.api_keys@),
            notifications: views(self.notifications@),
            recipients: views(self.recipients@),
            reads: views(self.reads@),
            vaults: views(self.vaults@),
            vault_objects: views(self.vault_objects@),
            storages: views(self.storages@),
        }
    }
}

/// The tables of a deployment in which nothing has happened yet.
pub open spec fn empty_platform() -> PlatformState {
    PlatformState {
        members: Seq::empty(),
        active: Seq::empty(),
        departments: Seq::empty(),
        containers: Seq::empty(),
        collaborations: Seq::empty(),
        allowlists: Seq::empty(),
        siems: Seq::empty(),
        grants: Seq::empty(),
        scenes: Seq::empty(),
        scene_members: Seq::empty(),
        policies: Seq::empty(),
        api_keys: Seq::empty(),
        notifications: Seq::empty(),
        recipients: Seq::empty(),
        reads: Seq::empty(),
        vaults: Seq::empty(),
        vault_objects: Seq::empty(),
        storages: Seq::empty(),
    }
}

/// The caller's group and role.
#[derive(Debug, Clone)]
pub struct PlatformActor {
    pub tenant_id: String,
    pub role: String,
}

/// [`PlatformActor`] as plain values.
pub struct PlatformActorView {
    pub tenant_id: Seq<char>,
    pub role: Seq<char>,
}

impl View for PlatformActor {
    type V = PlatformActorView;

    open spec fn view(&self) -> PlatformActorView {
        PlatformActorView {
            tenant_id: self.tenant_id@,
            role: self.role@,
        }
    }
}

/// Whether a membership is in the group that its holder chose to act in.
pub open spec fn chosen(st: PlatformState, r: UserOrgRowView) -> bool {
    first(st.active, active_of(r.user_id)) matches Some(pointer) && pointer.tenant_id == r.tenant_id
}

/// The chosen membership first, then the newest; of two as old, the lesser tenant id.
pub open spec fn acting_first(
    st: PlatformState,
) -> spec_fn(UserOrgRowView, UserOrgRowView) -> bool {
    |a: UserOrgRowView, b: UserOrgRowView|
        {
            let ca = chosen(st, a);
            let cb = chosen(st, b);
            if ca != cb {
                ca
            } else {
                a.created_at > b.created_at || (a.created_at == b.created_at && text_le(
                    a.tenant_id,
                    b.tenant_id,
                ))
            }
        }
}

/// The membership that a person acts under.
pub open spec fn acting_membership(
    st: PlatformState,
    user_id: Seq<char>,
) -> Option<UserOrgRowView> {
    least(st.members, crate::org::membership::of_user(user_id), acting_first(st))
}

/// The group and the role that a person acts in and as.
pub open spec fn actor_of(st: PlatformState, user_id: Seq<char>) -> Option<PlatformActorView> {
    match acting_membership(st, user_id) {
        Some(m) => Some(PlatformActorView { tenant_id: m.tenant_id, role: m.role }),
        None => None,
    }
}

pub open spec fn platform_admin(role: Seq<char>) -> bool {
    role == "org_admin"@ || role == "system_admin"@ || role == "admin"@
}

pub fn is_admin_role(role: &str) -> (r: bool)
    ensures
        r == platform_admin(role@),
{
    same(role, "org_admin") || same(role, "system_admin") || same(role, "admin")
}

impl PlatformService {
    pub fn new() -> (r: Self)
        ensures
            r@ == empty_platform(),
    {
        let r = PlatformService {
            members: Vec::new(),
            active: Vec::new(),
            departments: Vec::new(),
            containers: Vec::new(),
            collaborations: Vec::new(),
            allowlists: Vec::new(),
            siems: Vec::new(),
            grants: Vec::new(),
            scenes: Vec::new(),
            scene_members: Vec::new(),
            policies: Vec::new(),
            api_keys: Vec::new(),
            notifications: Vec::new(),
            recipients: Vec::new(),
            reads: Vec::new(),
            vaults: Vec::new(),
            vault_objects: Vec::new(),
            storages: Vec::new(),
        };
        proof {
            assert(r@.members =~= Seq::empty());
            assert(r@.active =~= Seq::empty());
            assert(r@.departments =~= Seq::empty());
            assert(r@.containers =~= Seq::empty());
            assert(r@.collaborations =~= Seq::empty());
            assert(r@.allowlists =~= Seq::empty());
            assert(r@.siems =~= Seq::empty());
            assert(r@.grants =~= Seq::empty());
            assert(r@.scenes =~= Seq::empty());
            assert(r@.scene_members =~= Seq::empty());
            assert(r@.policies =~= Seq::empty());
            assert(r@.api_keys =~= Seq::empty());
            assert(r@.notifications =~= Seq::empty());
            assert(r@.recipients =~= Seq::empty());
            assert(r@.reads =~= Seq::empty());
            assert(r@.vaults =~= Seq::empty());
            assert(r@.vault_objects =~= Seq::empty());
            assert(r@.storages =~= Seq::empty());
        }
        r
    }

    fn is_chosen(&self, r: &UserOrgRow) -> (b: bool)
        ensures
            b == chosen(self@, r@),
    {
        let f = |p: &ActiveTenantRow| -> (b: bool)
            ensures
                b == active_of(r@.user_id)(p@),
            { same(p.user_id.as_str(), r.user_id.as_str()) };
        match find_where(&self.active, f, Ghost(active_of(r@.user_id))) {
            Some(i) => same(self.active[i].tenant_id.as_str(), r.tenant_id.as_str()),
            None => false,
        }
    }

    /// The group and the role that a person acts in and as; `None` without a membership.
    pub fn resolve_actor(&self, user_id: &str) -> (r: Option<PlatformActor>)
        ensures
            match r {
                Some(a) => actor_of(self@, user_id@) == Some(a@),
                None => actor_of(self@, user_id@) is None,
            },
    {
        let f = |r: &UserOrgRow| -> (b: bool)
            ensures
                b == crate::org::membership::of_user(user_id@)(r@),
            { same(r.user_id.as_str(), user_id) };
        let l = |a: &UserOrgRow, b: &UserOrgRow| -> (c: bool)
            ensures
                c == acting_first(self@)(a@, b@),
            {
                let ca = self.is_chosen(a);
                let cb = self.is_chosen(b);
                if ca != cb {
                    ca
                } else {
                    a.created_at > b.created_at || (a.created_at == b.created_at && le_text(
                        a.tenant_id.as_str(),
                        b.tenant_id.as_str(),
                    ))
                }
            };
        match least_where(
            &self.members,
            f,
            l,
            Ghost(crate::org::membership::of_user(user_id@)),
            Ghost(acting_first(self@)),
        ) {
            Some(i) => Some(
                PlatformActor {
                    tenant_id: self.members[i].tenant_id.clone(),
                    role: self.members[i].role.clone(),
                },
            ),
            None => None,
        }
    }

    /// Lets an administrator of the group that they act in through.
    pub fn require_admin(&self, user_id: &str) -> (r: Result<PlatformActor, PlatformError>)
        ensures
            match actor_of(self@, user_id@) {
                None => r matches Err(e) && e@ == PlatformErrorView::NotInEnterprise,
                Some(a) => if platform_admin(a.role) {
                    r matches Ok(v) && v@ == a
                } else {
                    r matches Err(e) && e@ == PlatformErrorView::Forbidden(
                        "Administrator role required"@,
                    )
                },
            },
    {
        match self.resolve_actor(user_id) {
            None => Err(PlatformError::NotInEnterprise),
            Some(actor) => if is_admin_role(actor.role.as_str()) {
                Ok(actor)
            } else {
                Err(PlatformError::Forbidden("Administrator role required".to_owned()))
            },
        }
    }

    /// Lets a member of a group through.
    pub fn require_member(&self, user_id: &str) -> (r: Result<PlatformActor, PlatformError>)
        ensures
            match actor_of(self@, user_id@) {
                None => r matches Err(e) && e@ == PlatformErrorView::NotInEnterprise,
                Some(a) => r matches Ok(v) && v@ == a,
            },
    {
        match self.resolve_actor(user_id) {
            None => Err(PlatformError::NotInEnterprise),
            Some(actor) => Ok(actor),
        }
    }
}

} // verus!
