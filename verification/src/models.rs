//! The records that the server keeps and the messages that it exchanges with
//! the phones.

use vstd::prelude::*;

verus! {

/// An administrator's account.
pub struct AdminUser {
    pub id: i64,
    pub username: String,
    pub password_hash: String,
    pub must_change_password: bool,
    pub totp_secret: Option<String>,
    pub totp_enabled: bool,
    pub failed_login_attempts: i64,
    pub locked_until: Option<String>,
}

/// A phone that is, or is about to be, enrolled.
pub struct Device {
    pub id: i64,
    pub name: String,
    pub enrollment_code: Option<String>,
    pub enrollment_code_expires_at: Option<String>,
    pub token_hash: Option<String>,
    pub enrolled_at: Option<String>,
    pub last_seen_at: Option<String>,
}

/// What a parent has set for one phone.
pub struct DevicePolicy {
    pub device_id: i64,
    pub allowlist_json: Option<String>,
    /// Whether this phone keeps its own hours instead of the common ones.
    pub custom_schedule_enabled: bool,
    pub weekday_start_minutes: Option<i64>,
    pub weekday_end_minutes: Option<i64>,
    pub weekend_start_minutes: Option<i64>,
    pub weekend_end_minutes: Option<i64>,
    pub bedtime_start_minutes: Option<i64>,
    pub bedtime_end_minutes: Option<i64>,
    pub kiosk_desired: bool,
    pub lock_task_features: Option<i64>,
    pub wifi_mode: String,
    pub bluetooth_mode: String,
    pub override_pin_hash: Option<String>,
    pub override_pin_salt: Option<String>,
    pub quick_controls_mask: i64,
    pub vpn_filter_enabled: bool,
}

/// The hours that hold for every phone without hours of its own.
pub struct GlobalSchedule {
    pub weekday_start_minutes: Option<i64>,
    pub weekday_end_minutes: Option<i64>,
    pub weekend_start_minutes: Option<i64>,
    pub weekend_end_minutes: Option<i64>,
    pub bedtime_start_minutes: Option<i64>,
    pub bedtime_end_minutes: Option<i64>,
}

/// What a phone last said of itself.
pub struct DeviceStatus {
    pub id: i64,
    pub device_id: i64,
    pub lock_reason: String,
    pub kiosk_engaged: bool,
    pub installed_apps_json: Option<String>,
    pub app_version: Option<String>,
    pub app_version_code: Option<i64>,
    pub offline_override_used: bool,
    pub reported_at: String,
}

/// A line of the security log.
pub struct SecurityEvent {
    pub id: i64,
    pub event_type: String,
    pub username: Option<String>,
    pub ip_address: Option<String>,
    pub detail: Option<String>,
    pub created_at: String,
}

/// An address that may not reach the login page for a while.
pub struct BannedIp {
    pub ip_address: String,
    pub banned_until: String,
    pub reason: Option<String>,
}

/// An app whose releases the server hands to the phones.
pub struct TrackedApp {
    pub id: i64,
    pub name: String,
    pub package_name: String,
    /// "github" or "manual".
    pub source_type: String,
    /// Empty for an app whose releases are uploaded by hand.
    pub github_repo: String,
    pub asset_pattern: Option<String>,
    pub include_prereleases: bool,
    pub enabled: bool,
    pub latest_release_tag: Option<String>,
    pub latest_release_asset_id: Option<i64>,
    pub latest_release_file_path: Option<String>,
    pub last_checked_at: Option<String>,
    pub created_at: String,
    /// Marks the launcher itself, which can be neither deleted nor taken off
    /// a phone.
    pub is_launcher: bool,
}

/// A build of the launcher that was uploaded for provisioning.
pub struct LauncherRelease {
    pub id: i64,
    pub version_code: i64,
    pub version_name: String,
    pub file_path: String,
}

/// What a newly provisioned phone is told of the server.
pub struct ProvisioningSettings {
    pub server_url: String,
    pub tailscale_auth_key: String,
}

/// The one row of settings of the DNS filter.
pub struct DnsFilterSettings {
    pub id: i64,
    pub upstream: String,
    pub updated_at: String,
}

/// A curated feed of domains to block.
pub struct DnsBlocklist {
    pub id: i64,
    pub name: String,
    pub url: String,
    pub enabled: bool,
    pub created_at: String,
}

/// A domain that a parent has listed by hand.
pub struct DnsCustomDomain {
    pub id: i64,
    pub domain: String,
    pub list_type: String,
    /// The one phone that this holds for; nothing if it holds for all.
    pub device_id: Option<i64>,
    pub created_at: String,
}

/// Turns a feed on or off for one phone, whatever holds for the others.
pub struct DeviceBlocklistOverride {
    pub device_id: i64,
    pub blocklist_id: i64,
    pub enabled: bool,
    pub updated_at: String,
}

/// A blocked look-up, as a phone reported it.
pub struct DeviceDnsEvent {
    pub id: i64,
    pub device_id: i64,
    pub domain: String,
    pub category: String,
    pub blocked_at: String,
    pub received_at: String,
}

/// A command for a phone, from the moment that a parent asks for it.
pub struct DeviceCommand {
    pub id: i64,
    pub device_id: i64,
    pub command: String,
    pub requested_at: String,
    pub delivered_at: Option<String>,
    pub acknowledged_at: Option<String>,
    pub result: Option<String>,
}

/// An app that a phone says it has.
pub struct InstalledApp {
    pub package_name: String,
    pub label: String,
    /// Whether the app came with the phone.
    pub preinstalled: bool,
}

/// A conversation of the message journal, as its list shows it.
pub struct JournalThreadSummary {
    pub thread_id: i64,
    pub display_name: Option<String>,
    pub preview: String,
    pub last_occurred_at: i64,
}

/// What a phone sends to be enrolled.
pub struct EnrollRequest {
    pub enrollment_code: String,
}

/// What an enrolled phone is given, once.
pub struct EnrollResponse {
    pub device_id: i64,
    pub device_token: String,
}

/// All that a phone has to enforce.
pub struct PolicyResponse {
    pub allowlist: Option<Vec<String>>,
    pub weekday_start_minutes: Option<i64>,
    pub weekday_end_minutes: Option<i64>,
    pub weekend_start_minutes: Option<i64>,
    pub weekend_end_minutes: Option<i64>,
    pub bedtime_start_minutes: Option<i64>,
    pub bedtime_end_minutes: Option<i64>,
    pub kiosk_desired: bool,
    pub lock_task_features: i64,
    pub wifi_mode: String,
    pub bluetooth_mode: String,
    pub override_pin_hash: Option<String>,
    pub override_pin_salt: Option<String>,
    pub quick_controls_mask: i64,
    pub pending_command: Option<PendingCommand>,
    pub vpn_filter_enabled: bool,
    /// Stands for the phone's whole blocklist: a phone fetches the list anew
    /// only when this has changed.
    pub dns_filter_version: String,
    /// The resolver for the names that are not blocked.
    pub dns_upstream_provider: String,
}

/// The command that a phone is handed with its policy.
pub struct PendingCommand {
    pub id: i64,
    pub command: String,
}

/// What a phone says came of a command.
pub struct CommandResultRequest {
    pub command_id: i64,
    pub success: bool,
    pub message: Option<String>,
}

/// A blocked look-up, as a phone reports it.
pub struct DnsEventReport {
    pub domain: String,
    pub category: String,
    pub blocked_at: String,
}

/// The blocked domains of one category.
pub struct DnsBlocklistCategory {
    pub category: String,
    pub domains: Vec<String>,
}

/// A release that a phone may have to install.
pub struct TrackedAppUpdate {
    pub id: i64,
    /// Kept for older clients; may be empty.
    pub package_name: String,
    pub release_tag: String,
    pub download_url: String,
    pub is_launcher: bool,
}

} // verus!
