//! Platform governance: infrastructure settings, authorization, keys, messages, files.
pub mod access_laws;
pub mod api_key_laws;
pub mod api_keys;
pub mod collaboration;
pub mod container;
pub mod error;
pub mod grant_laws;
pub mod grants;
pub mod http_date;
pub mod http_probe;
pub mod ip_allowlist;
pub mod ip_laws;
pub mod laws;
pub mod models;
pub mod notification_laws;
pub mod notifications;
pub mod object_storage;
pub mod policy;
pub mod probe_laws;
pub mod rbac;
pub mod scene_laws;
pub mod scenes;
pub mod service;
pub mod setting_laws;
pub mod settings;
pub mod siem;
pub mod storage_config_laws;
pub mod storage_driver;
pub mod storage_laws;
pub mod storage_s3;
pub mod storage_webdav;
pub mod vault;
pub mod vault_laws;
