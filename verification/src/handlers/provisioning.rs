//! The QR code that a phone is set up with.

use crate::models::ProvisioningSettings;
use crate::outside::{qr_drawing, qr_svg};
use crate::security::{generate_enrollment_code, is_enrollment_code};
use crate::text::{opt_view, trim, trimmed};
use vstd::prelude::*;
use vstd::utf8::encode_utf8;

verus! {

/// The receiver that manages a phone.
pub const ADMIN_COMPONENT: &'static str =
    "com.kidslauncher.mdm.debug/com.kidslauncher.mdm.server.MdmDeviceAdminReceiver";

/// The digest of the certificate that every build is signed with, in base64
/// for URLs without padding.
pub const SIGNATURE_CHECKSUM: &'static str = "TLXcVaskQBZyh0S88O29PvHa9RaiCCl-7TybpGlbmkg";

/// Where the newest build is found.
pub const APK_DOWNLOAD_URL: &'static str =
    "https://github.com/siesta5787/kids-launcher-mdm/releases/download/pre-release/app-debug.apk";

/// What the setup hands to the launcher unopened.
pub struct AdminExtras {
    pub server_url: String,
    pub tailscale_auth_key: String,
    pub enrollment_code: String,
}

/// What a phone is told when it is set up.
pub struct ProvisioningPayload {
    pub admin_component: &'static str,
    pub signature_checksum: &'static str,
    pub download_location: &'static str,
    pub wifi_ssid: Option<String>,
    pub wifi_password: Option<String>,
    pub wifi_security_type: Option<&'static str>,
    pub admin_extras: AdminExtras,
}

/// The wireless network to join, from a query string.
pub struct ProvisionQueryParams {
    pub wifi_ssid: String,
    pub wifi_password: String,
}

/// The payload tells a phone to join no network: none was named.
pub open spec fn joins_none(p: ProvisioningPayload) -> bool {
    p.wifi_ssid is None && p.wifi_password is None && p.wifi_security_type is None
}

/// The payload tells a phone to join an open network.
pub open spec fn joins_open(p: ProvisioningPayload, ssid: Seq<char>) -> bool {
    opt_view(p.wifi_ssid) == Some(ssid) && p.wifi_password is None && p.wifi_security_type is None
}

/// The payload tells a phone to join a network with a password.
pub open spec fn joins(p: ProvisioningPayload, ssid: Seq<char>, password: Seq<char>) -> bool {
    &&& opt_view(p.wifi_ssid) == Some(ssid)
    &&& opt_view(p.wifi_password) == Some(password)
    &&& p.wifi_security_type matches Some(t) && t@ == "WPA"@
}

/// What a phone is told when it is set up with a code.
pub fn provisioning_payload(
    params: &ProvisionQueryParams,
    settings: &ProvisioningSettings,
    enrollment_code: String,
) -> (r: ProvisioningPayload)
    ensures
        r.admin_component@ == ADMIN_COMPONENT@,
        r.signature_checksum@ == SIGNATURE_CHECKSUM@,
        r.download_location@ == APK_DOWNLOAD_URL@,
        r.admin_extras.server_url@ == settings.server_url@,
        r.admin_extras.tailscale_auth_key@ == settings.tailscale_auth_key@,
        r.admin_extras.enrollment_code@ == enrollment_code@,
        ({
            let ssid = trimmed(params.wifi_ssid@);
            let password = trimmed(params.wifi_password@);
            if ssid.len() == 0 {
                joins_none(r)
            } else if password.len() == 0 {
                joins_open(r, ssid)
            } else {
                joins(r, ssid, password)
            }
        }),
{
    let ssid = trim(params.wifi_ssid.as_str());
    let password = trim(params.wifi_password.as_str());
    let (wifi_ssid, wifi_password, wifi_security_type) = if ssid.as_str().is_empty() {
        (None, None, None)
    } else if password.as_str().is_empty() {
        (Some(ssid), None, None)
    } else {
        (Some(ssid), Some(password), Some("WPA"))
    };
    ProvisioningPayload {
        admin_component: ADMIN_COMPONENT,
        signature_checksum: SIGNATURE_CHECKSUM,
        download_location: APK_DOWNLOAD_URL,
        wifi_ssid,
        wifi_password,
        wifi_security_type,
        admin_extras: AdminExtras {
            server_url: settings.server_url.clone(),
            tailscale_auth_key: settings.tailscale_auth_key.clone(),
            enrollment_code,
        },
    }
}

/// What a phone is told when it is set up now, under a fresh code.
pub fn provision_form(params: &ProvisionQueryParams, settings: &ProvisioningSettings) -> (r:
    ProvisioningPayload)
    ensures
        is_enrollment_code(r.admin_extras.enrollment_code@),
        r.admin_component@ == ADMIN_COMPONENT@,
        r.signature_checksum@ == SIGNATURE_CHECKSUM@,
        r.download_location@ == APK_DOWNLOAD_URL@,
        r.admin_extras.server_url@ == settings.server_url@,
        r.admin_extras.tailscale_auth_key@ == settings.tailscale_auth_key@,
        ({
            let ssid = trimmed(params.wifi_ssid@);
            let password = trimmed(params.wifi_password@);
            if ssid.len() == 0 {
                joins_none(r)
            } else if password.len() == 0 {
                joins_open(r, ssid)
            } else {
                joins(r, ssid, password)
            }
        }),
{
    provisioning_payload(params, settings, generate_enrollment_code())
}

/// The least width and height of the QR code.
pub const QR_SIZE: u32 = 320;

/// The colours of the QR code.
pub const QR_DARK: &'static str = "#000000";

pub const QR_LIGHT: &'static str = "#ffffff";

/// The drawing of the QR code for a payload that was written out; nothing if
/// it is too long for one.
pub fn payload_qr(payload: &str) -> (r: Option<String>)
    ensures
        opt_view(r) == qr_drawing(encode_utf8(payload@), QR_SIZE, QR_DARK@, QR_LIGHT@),
{
    qr_svg(payload.as_bytes(), QR_SIZE, QR_DARK, QR_LIGHT)
}

/// The title of the page.
pub fn provision_title(device_name: &str) -> (r: String)
    ensures
        r@ == "Provision "@ + device_name@,
{
    let mut r = "Provision ".to_owned();
    r.append(device_name);
    r
}

/// A phone is told of a network only where one was named, of a password only
/// together with the network, and of the kind of protection only together with
/// the password.
pub proof fn law_networks_come_whole(p: ProvisioningPayload, ssid: Seq<char>, password: Seq<char>)
    ensures
        joins_none(p) ==> p.wifi_ssid is None && p.wifi_password is None
            && p.wifi_security_type is None,
        joins_open(p, ssid) ==> (p.wifi_ssid matches Some(s) && s@ == ssid) && p.wifi_password
            is None && p.wifi_security_type is None,
        joins(p, ssid, password) ==> (p.wifi_ssid matches Some(s) && s@ == ssid) && (
        p.wifi_password matches Some(s) && s@ == password) && (p.wifi_security_type matches Some(t)
            && t@ == "WPA"@),
{
}

} // verus!
