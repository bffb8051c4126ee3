//! Who may make a request of the platform.
use crate::platform::error::{PlatformError, PlatformErrorView};
use crate::platform::service::{
    actor_of, platform_admin, PlatformActor, PlatformService, PlatformState,
};
use crate::text::opt_str;
use vstd::prelude::*;

verus! {

/// What a request says of the machine that it comes from.
#[derive(Debug)]
pub enum GovernanceCaller {
    /// The client gave its machine id.
    Identified(String),
    /// A client that gave none.
    UnidentifiedRemoteClient,
    /// The console in a browser.
    BrowserSession,
}

impl GovernanceCaller {
    /// Whether the machine is judged. The console is not, or an administrator whose own machine is
    /// blocked could not reach the page that unblocks it.
    pub open spec fn judged(&self) -> bool {
        !(self is BrowserSession)
    }

    /// The machine to judge, by its id where the client gave one.
    pub fn machine_to_judge(&self) -> (r: Option<Option<&str>>)
        ensures
            r is Some <==> self.judged(),
            r matches Some(id) ==> opt_str(id) == match *self {
                GovernanceCaller::Identified(given) => Some(given@),
                _ => None,
            },
    {
        match self {
            GovernanceCaller::Identified(id) => Some(Some(id.as_str())),
            GovernanceCaller::UnidentifiedRemoteClient => Some(None),
            GovernanceCaller::BrowserSession => None,
        }
    }
}

/// Why a caller is not let through to the administration of the platform.
pub open spec fn admin_refusal(st: PlatformState, user_id: Option<Seq<char>>) -> Option<
    PlatformErrorView,
> {
    match user_id {
        None => Some(PlatformErrorView::Forbidden("Authentication required"@)),
        Some(id) => match actor_of(st, id) {
            None => Some(PlatformErrorView::NotInEnterprise),
            Some(a) => if platform_admin(a.role) {
                None
            } else {
                Some(PlatformErrorView::Forbidden("Administrator role required"@))
            },
        },
    }
}

/// Why a caller is not let through as a member.
pub open spec fn member_refusal(
    st: PlatformState,
    user_id: Option<Seq<char>>,
    caller: GovernanceCaller,
    blocked: bool,
) -> Option<PlatformErrorView> {
    match user_id {
        None => Some(PlatformErrorView::Forbidden("Authentication required"@)),
        Some(id) => if actor_of(st, id) is None {
            Some(PlatformErrorView::NotInEnterprise)
        } else if caller.judged() && blocked {
            Some(
                PlatformErrorView::MachineBlocked(
                    "this machine has been blocked by an administrator"@,
                ),
            )
        } else {
            None
        },
    }
}

/// A caller who administers the project group that they act in. Whether their machine is blocked
/// does not matter: an administrator must be able to undo it.
#[derive(Debug, Clone)]
pub struct RequirePlatformAdmin(pub PlatformActor);

impl RequirePlatformAdmin {
    pub fn let_in(service: &PlatformService, user_id: Option<&str>) -> (r: Result<
        Self,
        PlatformError,
    >)
        ensures
            match admin_refusal(service@, opt_str(user_id)) {
                Some(why) => r matches Err(e) && e@ == why,
                None => r matches Ok(v) && Some(v.0@) == actor_of(service@, user_id->0@),
            },
    {
        match user_id {
            None => Err(PlatformError::Forbidden("Authentication required".to_owned())),
            Some(id) => match service.require_admin(id) {
                Ok(actor) => Ok(RequirePlatformAdmin(actor)),
                Err(e) => Err(e),
            },
        }
    }
}

/// A caller who belongs to a project group, on a machine that is not blocked there.
#[derive(Debug, Clone)]
pub struct RequirePlatformMember(pub PlatformActor);

impl RequirePlatformMember {
    /// `blocked` says whether the caller's machine is blocked in the group that they act in.
    pub fn let_in(
        service: &PlatformService,
        user_id: Option<&str>,
        caller: &GovernanceCaller,
        blocked: bool,
    ) -> (r: Result<Self, PlatformError>)
        ensures
            match member_refusal(service@, opt_str(user_id), *caller, blocked) {
                Some(why) => r matches Err(e) && e@ == why,
                None => r matches Ok(v) && Some(v.0@) == actor_of(service@, user_id->0@),
            },
    {
        match user_id {
            None => Err(PlatformError::Forbidden("Authentication required".to_owned())),
            Some(id) => match service.require_member(id) {
                Ok(actor) => if caller.machine_to_judge().is_some() && blocked {
                    Err(
                        PlatformError::MachineBlocked(
                            "this machine has been blocked by an administrator".to_owned(),
                        ),
                    )
                } else {
                    Ok(RequirePlatformMember(actor))
                },
                Err(e) => Err(e),
            },
        }
    }
}

} // verus!
