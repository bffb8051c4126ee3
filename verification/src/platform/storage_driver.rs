//! What the storage drivers share.
use crate::platform::error::{PlatformError, PlatformErrorView};
use crate::table::views;
use crate::text::{cat, cat3, opt_text, same};
use vstd::prelude::*;

verus! {

/// An object or a folder of a storage.
#[derive(Debug, Clone)]
pub struct DriverEntry {
    pub key: String,
    pub name: String,
    pub is_prefix: bool,
    pub size_bytes: Option<i64>,
    pub last_modified: Option<i64>,
}

/// [`DriverEntry`] as plain values.
pub struct DriverEntryView {
    pub key: Seq<char>,
    pub name: Seq<char>,
    pub is_prefix: bool,
    pub size_bytes: Option<i64>,
    pub last_modified: Option<i64>,
}

impl View for DriverEntry {
    type V = DriverEntryView;

    open spec fn view(&self) -> DriverEntryView {
        DriverEntryView {
            key: self.key@,
            name: self.name@,
            is_prefix: self.is_prefix,
            size_bytes: self.size_bytes,
            last_modified: self.last_modified,
        }
    }
}

/// One level of a storage.
#[derive(Debug, Clone)]
pub struct DriverListing {
    pub entries: Vec<DriverEntry>,
    pub next_token: Option<String>,
}

/// [`DriverListing`] as plain values.
pub struct DriverListingView {
    pub entries: Seq<DriverEntryView>,
    pub next_token: Option<Seq<char>>,
}

impl View for DriverListing {
    type V = DriverListingView;

    open spec fn view(&self) -> DriverListingView {
        DriverListingView {
            entries: views(self.entries@),
            next_token: opt_text(self.next_token),
        }
    }
}

/// What a driver needs to reach a storage.
pub struct DriverConfig {
    pub endpoint: String,
    pub bucket: String,
    pub region: String,
    pub access_key_id: String,
    pub secret_access_key: String,
    pub force_path_style: bool,
}

/// [`DriverConfig`] as plain values.
pub struct DriverConfigView {
    pub endpoint: Seq<char>,
    pub bucket: Seq<char>,
    pub region: Seq<char>,
    pub access_key_id: Seq<char>,
    pub secret_access_key: Seq<char>,
    pub force_path_style: bool,
}

impl View for DriverConfig {
    type V = DriverConfigView;

    open spec fn view(&self) -> DriverConfigView {
        DriverConfigView {
            endpoint: self.endpoint@,
            bucket: self.bucket@,
            region: self.region@,
            access_key_id: self.access_key_id@,
            secret_access_key: self.secret_access_key@,
            force_path_style: self.force_path_style,
        }
    }
}

/// The protocols that there is a driver for.
pub const PROTOCOLS: [&'static str; 2] = ["s3", "webdav"];

/// A driver.
#[derive(Debug, Clone, Copy, PartialEq, Eq)]
pub enum DriverKind {
    S3,
    WebDav,
}

pub open spec fn known_protocol(protocol: Seq<char>) -> bool {
    protocol == "s3"@ || protocol == "webdav"@
}

pub fn validate_protocol(protocol: &str) -> (r: Result<(), PlatformError>)
    ensures
        match r {
            Ok(_) => known_protocol(protocol@),
            Err(e) => !known_protocol(protocol@) && e@ == PlatformErrorView::BadRequest(
                "unsupported storage protocol "@ + protocol@ + "; expected one of s3, webdav"@,
            ),
        },
{
    if same(protocol, "s3") || same(protocol, "webdav") {
        return Ok(());
    }
    Err(
        PlatformError::BadRequest(
            cat3("unsupported storage protocol ", protocol, "; expected one of s3, webdav"),
        ),
    )
}

/// The driver for a protocol.
pub fn driver_for(protocol: &str) -> (r: Result<DriverKind, PlatformError>)
    ensures
        match r {
            Ok(DriverKind::S3) => protocol@ == "s3"@,
            Ok(DriverKind::WebDav) => protocol@ == "webdav"@ && protocol@ != "s3"@,
            Err(e) => !known_protocol(protocol@) && e@ == PlatformErrorView::BadRequest(
                "unsupported storage protocol "@ + protocol@,
            ),
        },
{
    if same(protocol, "s3") {
        Ok(DriverKind::S3)
    } else if same(protocol, "webdav") {
        Ok(DriverKind::WebDav)
    } else {
        Err(PlatformError::BadRequest(cat("unsupported storage protocol ", protocol)))
    }
}

} // verus!
