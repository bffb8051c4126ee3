//! Errors of the organization services.
use vstd::prelude::*;

verus! {

#[derive(Debug, Clone)]
pub enum OrgError {
    InvalidCode,
    AlreadyInEnterprise,
    NotInEnterprise,
    TenantNotFound,
    NameRequired,
    Forbidden(String),
    WrongExitCode,
    LastAdminCannotLeave,
    BadRequest(String),
    DepartmentNotFound,
    RuntimeNodeNotFound,
    Internal(String),
}

/// [`OrgError`] as plain values.
pub enum OrgErrorView {
    InvalidCode,
    AlreadyInEnterprise,
    NotInEnterprise,
    TenantNotFound,
    NameRequired,
    Forbidden(Seq<char>),
    WrongExitCode,
    LastAdminCannotLeave,
    BadRequest(Seq<char>),
    DepartmentNotFound,
    RuntimeNodeNotFound,
    Internal(Seq<char>),
}

impl View for OrgError {
    type V = OrgErrorView;

    open spec fn view(&self) -> OrgErrorView {
        match *self {
            OrgError::InvalidCode => OrgErrorView::InvalidCode,
            OrgError::AlreadyInEnterprise => OrgErrorView::AlreadyInEnterprise,
            OrgError::NotInEnterprise => OrgErrorView::NotInEnterprise,
            OrgError::TenantNotFound => OrgErrorView::TenantNotFound,
            OrgError::NameRequired => OrgErrorView::NameRequired,
            OrgError::Forbidden(m) => OrgErrorView::Forbidden(m@),
            OrgError::WrongExitCode => OrgErrorView::WrongExitCode,
            OrgError::LastAdminCannotLeave => OrgErrorView::LastAdminCannotLeave,
            OrgError::BadRequest(m) => OrgErrorView::BadRequest(m@),
            OrgError::DepartmentNotFound => OrgErrorView::DepartmentNotFound,
            OrgError::RuntimeNodeNotFound => OrgErrorView::RuntimeNodeNotFound,
            OrgError::Internal(m) => OrgErrorView::Internal(m@),
        }
    }
}

impl OrgError {
    /// The code that a client tells errors apart by.
    pub fn code(&self) -> (r: &'static str)
        ensures
            r@ == match self@ {
                OrgErrorView::InvalidCode => "INVALID_CODE"@,
                OrgErrorView::AlreadyInEnterprise => "ALREADY_IN_ENTERPRISE"@,
                OrgErrorView::NotInEnterprise => "NOT_IN_ENTERPRISE"@,
                OrgErrorView::TenantNotFound => "TENANT_NOT_FOUND"@,
                OrgErrorView::NameRequired => "NAME_REQUIRED"@,
                OrgErrorView::Forbidden(_) => "FORBIDDEN"@,
                OrgErrorView::WrongExitCode => "WRONG_EXIT_CODE"@,
                OrgErrorView::LastAdminCannotLeave => "LAST_ADMIN_CANNOT_LEAVE"@,
                OrgErrorView::BadRequest(_) => "BAD_REQUEST"@,
                OrgErrorView::DepartmentNotFound => "DEPARTMENT_NOT_FOUND"@,
                OrgErrorView::RuntimeNodeNotFound => "RUNTIME_NODE_NOT_FOUND"@,
                OrgErrorView::Internal(_) => "INTERNAL_ERROR"@,
            },
    {
        match self {
            OrgError::InvalidCode => "INVALID_CODE",
            OrgError::AlreadyInEnterprise => "ALREADY_IN_ENTERPRISE",
            OrgError::NotInEnterprise => "NOT_IN_ENTERPRISE",
            OrgError::TenantNotFound => "TENANT_NOT_FOUND",
            OrgError::NameRequired => "NAME_REQUIRED",
            OrgError::Forbidden(_) => "FORBIDDEN",
            OrgError::WrongExitCode => "WRONG_EXIT_CODE",
            OrgError::LastAdminCannotLeave => "LAST_ADMIN_CANNOT_LEAVE",
            OrgError::BadRequest(_) => "BAD_REQUEST",
            OrgError::DepartmentNotFound => "DEPARTMENT_NOT_FOUND",
            OrgError::RuntimeNodeNotFound => "RUNTIME_NODE_NOT_FOUND",
            OrgError::Internal(_) => "INTERNAL_ERROR",
        }
    }
}

/// A request that was malformed, with the reason.
pub(crate) fn bad_request(message: &str) -> (e: OrgError)
    ensures
        e@ == OrgErrorView::BadRequest(message@),
{
    OrgError::BadRequest(message.to_owned())
}

/// A request that the caller may not make, with the reason.
pub(crate) fn forbidden(message: &str) -> (e: OrgError)
    ensures
        e@ == OrgErrorView::Forbidden(message@),
{
    OrgError::Forbidden(message.to_owned())
}

} // verus!
