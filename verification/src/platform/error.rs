//! Errors of the platform services.
use crate::text::cat;
use vstd::prelude::*;

verus! {

#[derive(Debug, Clone)]
pub enum PlatformError {
    NotInEnterprise,
    Forbidden(String),
    MachineBlocked(String),
    BadRequest(String),
    NotFound(String),
    Internal(String),
}

/// [`PlatformError`] as plain values.
pub enum PlatformErrorView {
    NotInEnterprise,
    Forbidden(Seq<char>),
    MachineBlocked(Seq<char>),
    BadRequest(Seq<char>),
    NotFound(Seq<char>),
    Internal(Seq<char>),
}

impl View for PlatformError {
    type V = PlatformErrorView;

    open spec fn view(&self) -> PlatformErrorView {
        match *self {
            PlatformError::NotInEnterprise => PlatformErrorView::NotInEnterprise,
            PlatformError::Forbidden(m) => PlatformErrorView::Forbidden(m@),
            PlatformError::MachineBlocked(m) => PlatformErrorView::MachineBlocked(m@),
            PlatformError::BadRequest(m) => PlatformErrorView::BadRequest(m@),
            PlatformError::NotFound(m) => PlatformErrorView::NotFound(m@),
            PlatformError::Internal(m) => PlatformErrorView::Internal(m@),
        }
    }
}

impl PlatformError {
    /// The code that callers tell errors apart by.
    pub fn code(&self) -> (r: &'static str)
        ensures
            r@ == match self@ {
                PlatformErrorView::NotInEnterprise => "NOT_IN_ENTERPRISE"@,
                PlatformErrorView::Forbidden(_) => "FORBIDDEN"@,
                PlatformErrorView::MachineBlocked(_) => "MACHINE_BLOCKED"@,
                PlatformErrorView::BadRequest(_) => "BAD_REQUEST"@,
                PlatformErrorView::NotFound(_) => "NOT_FOUND"@,
                PlatformErrorView::Internal(_) => "INTERNAL_ERROR"@,
            },
    {
        match self {
            PlatformError::NotInEnterprise => "NOT_IN_ENTERPRISE",
            PlatformError::Forbidden(_) => "FORBIDDEN",
            PlatformError::MachineBlocked(_) => "MACHINE_BLOCKED",
            PlatformError::BadRequest(_) => "BAD_REQUEST",
            PlatformError::NotFound(_) => "NOT_FOUND",
            PlatformError::Internal(_) => "INTERNAL_ERROR",
        }
    }

    /// The HTTP status that an error is answered with.
    pub fn status(&self) -> (r: u16)
        ensures
            r == match self@ {
                PlatformErrorView::Forbidden(_) => 403u16,
                PlatformErrorView::MachineBlocked(_) => 403u16,
                PlatformErrorView::NotFound(_) => 404u16,
                PlatformErrorView::Internal(_) => 500u16,
                PlatformErrorView::NotInEnterprise => 400u16,
                PlatformErrorView::BadRequest(_) => 400u16,
            },
    {
        match self {
            PlatformError::Forbidden(_) | PlatformError::MachineBlocked(_) => 403,
            PlatformError::NotFound(_) => 404,
            PlatformError::Internal(_) => 500,
            PlatformError::NotInEnterprise | PlatformError::BadRequest(_) => 400,
        }
    }

    /// The error in words.
    pub fn message(&self) -> (r: String)
        ensures
            r@ == match self@ {
                PlatformErrorView::NotInEnterprise => "Not currently in an enterprise"@,
                PlatformErrorView::Forbidden(m) => m,
                PlatformErrorView::MachineBlocked(m) => "Machine blocked: "@ + m,
                PlatformErrorView::BadRequest(m) => "Bad request: "@ + m,
                PlatformErrorView::NotFound(m) => m,
                PlatformErrorView::Internal(m) => "Internal error: "@ + m,
            },
    {
        match self {
            PlatformError::NotInEnterprise => "Not currently in an enterprise".to_owned(),
            PlatformError::Forbidden(m) => m.clone(),
            PlatformError::MachineBlocked(m) => cat("Machine blocked: ", m.as_str()),
            PlatformError::BadRequest(m) => cat("Bad request: ", m.as_str()),
            PlatformError::NotFound(m) => m.clone(),
            PlatformError::Internal(m) => cat("Internal error: ", m.as_str()),
        }
    }
}

/// A request that was malformed, with the reason.
pub(crate) fn bad_request(message: &str) -> (e: PlatformError)
    ensures
        e@ == PlatformErrorView::BadRequest(message@),
{
    PlatformError::BadRequest(message.to_owned())
}

/// Something that is not there.
pub(crate) fn not_found(message: &str) -> (e: PlatformError)
    ensures
        e@ == PlatformErrorView::NotFound(message@),
{
    PlatformError::NotFound(message.to_owned())
}

} // verus!
