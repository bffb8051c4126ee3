//! Project groups: membership, invites, departments, machines, backup.
pub mod backup;
pub mod backup_laws;
pub mod codes;
pub mod department_keys;
pub mod department_laws;
pub mod departments;
pub mod departures;
pub mod directory;
pub mod directory_forest;
pub mod directory_laws;
pub mod directory_rerun;
pub mod directory_result_laws;
pub mod error;
pub mod email;
pub mod email_laws;
pub mod forest;
pub mod integration;
pub mod integration_laws;
pub mod invite_laws;
pub mod invites;
pub mod join_laws;
pub mod laws;
pub mod member_laws;
pub mod membership;
pub mod models;
pub mod node_laws;
pub mod nodes;
pub mod onboarding;
pub mod rbac;
pub mod roster;
pub mod roster_laws;
pub mod service;
pub mod tenant_laws;
pub mod tenants;
