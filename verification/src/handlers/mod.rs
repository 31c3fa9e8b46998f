//! What the server does for each of its pages and for the phones.

pub mod admin;
pub mod auth;
pub mod backups;
pub mod browser_history;
pub mod device_api;
pub mod devices;
pub mod dns_filter;
pub mod journal;
pub mod locate;
pub mod provisioning;
pub mod releases;
pub mod schedules;
pub mod settings;
pub mod system_maintenance;
pub mod system_update;
pub mod tracked_apps;
