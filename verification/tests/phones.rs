use kid_phone_server::forms::FormFields;
use kid_phone_server::handlers::admin::unban_ip;
use kid_phone_server::handlers::browser_history::show_history;
use kid_phone_server::handlers::device_api::{
    enroll, nudges, policy, tracked_app_download, tracked_app_updates,
};
use kid_phone_server::handlers::devices::unset_policy;
use kid_phone_server::handlers::journal::{
    download_media, preview, selected_thread, show_journal, JournalMedia, JournalThreadRow,
};
use kid_phone_server::handlers::locate::{
    command_result, deliver_next, locate_url, queue_command, wipe,
};
use kid_phone_server::handlers::provisioning::{
    payload_qr, provision_form, provision_title, provisioning_payload, ProvisionQueryParams,
};
use kid_phone_server::handlers::settings::update_provisioning_settings;
use kid_phone_server::models::{
    CommandResultRequest, Device, DeviceCommand, EnrollRequest, GlobalSchedule,
    ProvisioningSettings, TrackedApp,
};
use kid_phone_server::security::{hash_token, require_device_token};

const NOW: &str = "2026-07-14 10:00:00";

fn form(pairs: &[(&str, &str)]) -> FormFields {
    FormFields { pairs: pairs.iter().map(|(k, v)| (k.to_string(), v.to_string())).collect() }
}

fn device(id: i64, code: Option<&str>, until: Option<&str>) -> Device {
    Device {
        id,
        name: format!("phone {id}"),
        enrollment_code: code.map(String::from),
        enrollment_code_expires_at: until.map(String::from),
        token_hash: None,
        enrolled_at: None,
        last_seen_at: None,
    }
}

fn ask(code: &str) -> EnrollRequest {
    EnrollRequest { enrollment_code: code.into() }
}

#[test]
fn a_code_enrolls_one_phone_once() {
    let mut devices = vec![
        device(1, Some("AAAA2222"), Some("2026-07-14 10:30:00")),
        device(2, Some("BBBB3333"), Some("2026-07-14 10:30:00")),
    ];
    let response = enroll(&mut devices, &ask("BBBB3333"), NOW).ok().unwrap();
    assert_eq!(response.device_id, 2);
    assert_eq!(response.device_token.len(), 64);
    assert_eq!(devices[1].enrollment_code, None);
    assert_eq!(devices[1].enrollment_code_expires_at, None);
    assert_eq!(devices[1].enrolled_at.as_deref(), Some(NOW));
    assert_eq!(devices[1].name, "phone 2");
    assert_eq!(devices[0].enrollment_code.as_deref(), Some("AAAA2222"));
    let error = enroll(&mut devices, &ask("BBBB3333"), NOW).err().unwrap();
    assert_eq!(error, "invalid or expired enrollment code");
}

#[test]
fn a_token_leads_back_to_its_phone() {
    let mut devices = vec![device(2, Some("BBBB3333"), Some("2026-07-14 10:30:00"))];
    let token = enroll(&mut devices, &ask("BBBB3333"), NOW).ok().unwrap().device_token;
    let digest = require_device_token(Some(&format!("Bearer {token}"))).unwrap();
    assert_eq!(devices[0].token_hash.as_deref(), Some(digest.as_str()));
    assert_eq!(digest, hash_token(&token));
    assert_ne!(digest, token);
}

#[test]
fn an_expired_or_unknown_code_enrolls_nothing() {
    let mut devices =
        vec![device(1, Some("AAAA2222"), Some(NOW)), device(2, Some("BBBB3333"), None)];
    for code in ["AAAA2222", "BBBB3333", "CCCC4444", ""] {
        assert!(enroll(&mut devices, &ask(code), NOW).is_err(), "{code}");
    }
    assert!(devices.iter().all(|d| d.token_hash.is_none()));
}

fn command(id: i64, device_id: i64, at: &str, delivered: bool) -> DeviceCommand {
    DeviceCommand {
        id,
        device_id,
        command: format!("c{id}"),
        requested_at: at.into(),
        delivered_at: if delivered { Some("then".into()) } else { None },
        acknowledged_at: None,
        result: None,
    }
}

#[test]
fn the_oldest_waiting_command_is_handed_out_once() {
    let mut queue = vec![
        command(1, 5, "10:02", false),
        command(2, 5, "10:01", true),
        command(3, 6, "10:00", false),
        command(4, 5, "10:01", false),
        command(5, 5, "10:01", false),
    ];
    let mut next = || deliver_next(&mut queue, 5, NOW).map(|p| (p.id, p.command));
    assert_eq!(next(), Some((4, "c4".into())));
    assert_eq!(next(), Some((5, "c5".into())));
    assert_eq!(next(), Some((1, "c1".into())));
    assert_eq!(next(), None);
    assert_eq!(queue[3].delivered_at.as_deref(), Some(NOW));
    assert_eq!(queue[1].delivered_at.as_deref(), Some("then"));
    assert!(queue[2].delivered_at.is_none());
}

#[test]
fn the_last_action_wins() {
    let mut queue = vec![
        command(1, 5, "10:00", true),
        command(2, 5, "10:01", false),
        command(3, 6, "10:01", false),
    ];
    queue_command(&mut queue, 9, 5, "ring", NOW);
    let ids: Vec<i64> = queue.iter().map(|c| c.id).collect();
    assert_eq!(ids, [1, 3, 9]);
    assert_eq!(queue[2].requested_at, NOW);
    assert_eq!(deliver_next(&mut queue, 5, NOW).unwrap().command, "ring");
    assert!(deliver_next(&mut queue, 5, NOW).is_none());
    assert_eq!(deliver_next(&mut queue, 6, NOW).unwrap().id, 3);
}

#[test]
fn a_phone_answers_only_for_itself() {
    let answer = |success: bool, message: Option<&str>| CommandResultRequest {
        command_id: 1,
        success,
        message: message.map(String::from),
    };
    let mut queue = vec![command(1, 5, "10:00", true), command(2, 5, "10:00", true)];
    command_result(&mut queue, 6, answer(true, None), NOW);
    assert!(queue[0].acknowledged_at.is_none());
    command_result(&mut queue, 5, answer(true, None), NOW);
    assert_eq!(queue[0].acknowledged_at.as_deref(), Some(NOW));
    assert_eq!(queue[0].result.as_deref(), Some("ok"));
    assert!(queue[1].acknowledged_at.is_none());
    command_result(&mut queue, 5, answer(false, None), NOW);
    assert_eq!(queue[0].result.as_deref(), Some("failed"));
    command_result(&mut queue, 5, answer(false, Some("no sound")), NOW);
    assert_eq!(queue[0].result.as_deref(), Some("no sound"));
}

#[test]
fn a_wipe_takes_the_exact_name() {
    let phone = device(5, None, None);
    assert_eq!(wipe(&phone, &form(&[("confirm_name", " phone 5 ")])), Ok(()));
    let refused = Err("That didn't match the device name - nothing was wiped.".to_string());
    assert_eq!(wipe(&phone, &form(&[("confirm_name", "Phone 5")])), refused);
    assert_eq!(wipe(&phone, &form(&[])), refused);
    assert_eq!(locate_url(5), "/devices/locate?device=5");
}

fn hours(base: i64) -> GlobalSchedule {
    GlobalSchedule {
        weekday_start_minutes: Some(base),
        weekday_end_minutes: Some(base + 1),
        weekend_start_minutes: Some(base + 2),
        weekend_end_minutes: None,
        bedtime_start_minutes: Some(base + 4),
        bedtime_end_minutes: Some(base + 5),
    }
}

#[test]
fn a_phone_without_a_policy_gets_the_common_hours_and_no_restrictions() {
    let mut queue = vec![command(1, 5, "10:00", false)];
    let p = policy(5, None, &hours(100), &mut queue, NOW, "v1".into(), "quad9".into());
    assert!(p.allowlist.is_none());
    assert_eq!((p.weekday_start_minutes, p.weekend_end_minutes), (Some(100), None));
    assert_eq!(p.bedtime_end_minutes, Some(105));
    assert!(!p.kiosk_desired && p.vpn_filter_enabled);
    assert_eq!((p.lock_task_features, p.quick_controls_mask), (0, 0));
    assert_eq!((p.wifi_mode.as_str(), p.bluetooth_mode.as_str()), ("open", "open"));
    assert_eq!((p.dns_filter_version.as_str(), p.dns_upstream_provider.as_str()), ("v1", "quad9"));
    assert_eq!(p.pending_command.unwrap().command, "c1");
    let again = policy(5, None, &hours(100), &mut queue, NOW, "v1".into(), "quad9".into());
    assert!(again.pending_command.is_none());
}

#[test]
fn a_phone_gets_the_policy_that_is_stored() {
    let stored = || {
        let mut s = unset_policy(5);
        s.allowlist_json = Some("[\"a\",\"b\"]".into());
        s.weekday_start_minutes = Some(7);
        s.kiosk_desired = true;
        s.lock_task_features = Some(63);
        s.wifi_mode = "restricted".into();
        s.override_pin_hash = Some("h".into());
        s.override_pin_salt = Some("s".into());
        s.quick_controls_mask = 3;
        s.vpn_filter_enabled = false;
        s
    };
    let mut queue = Vec::new();
    let p = policy(5, Some(stored()), &hours(100), &mut queue, NOW, String::new(), String::new());
    assert_eq!(p.allowlist.unwrap(), ["a", "b"]);
    assert_eq!(p.weekday_start_minutes, Some(100));
    assert!(p.kiosk_desired && !p.vpn_filter_enabled);
    assert_eq!((p.lock_task_features, p.quick_controls_mask), (63, 3));
    assert_eq!(p.wifi_mode, "restricted");
    assert_eq!((p.override_pin_hash.as_deref(), p.override_pin_salt.as_deref()), (Some("h"), Some("s")));
    let mut own = stored();
    own.custom_schedule_enabled = true;
    own.allowlist_json = Some("broken".into());
    let p = policy(5, Some(own), &hours(100), &mut queue, NOW, String::new(), String::new());
    assert_eq!((p.weekday_start_minutes, p.weekday_end_minutes), (Some(7), None));
    assert!(p.allowlist.is_none());
}

fn release(id: i64, enabled: bool, tag: Option<&str>, asset: Option<i64>) -> TrackedApp {
    TrackedApp {
        id,
        name: "App".into(),
        package_name: "com.app".into(),
        source_type: "github".into(),
        github_repo: "o/r".into(),
        asset_pattern: None,
        include_prereleases: false,
        enabled,
        latest_release_tag: tag.map(String::from),
        latest_release_asset_id: asset,
        latest_release_file_path: Some("data/file.apk".into()),
        last_checked_at: None,
        created_at: String::new(),
        is_launcher: id == 1,
    }
}

#[test]
fn releases_are_offered_by_tag_and_file() {
    let offers = tracked_app_updates(&vec![
        release(1, true, Some("pre-release"), Some(77)),
        release(2, false, Some("v1"), None),
        release(3, true, None, None),
        release(4, true, Some("v2"), None),
    ]);
    assert_eq!(offers.len(), 2);
    assert_eq!((offers[0].id, offers[0].is_launcher), (1, true));
    assert_eq!(offers[0].package_name, "com.app");
    assert_eq!(offers[0].release_tag, "pre-release@77");
    assert_eq!(offers[0].download_url, "/api/devices/apps/1/download");
    assert_eq!(offers[1].release_tag, "v2");
    let next = tracked_app_updates(&vec![release(1, true, Some("pre-release"), Some(78))]);
    assert_ne!(next[0].release_tag, offers[0].release_tag);
    assert_eq!(tracked_app_download(Some(release(1, true, None, None))).as_deref(), Some("data/file.apk"));
    assert_eq!(tracked_app_download(None), None);
}

#[test]
fn a_nudge_is_for_one_phone() {
    assert!(nudges(Some(5), 5));
    assert!(!nudges(Some(6), 5));
    assert!(!nudges(None, 5));
}

#[test]
fn conversations_are_previewed() {
    let said = |kind: &str, body: Option<&str>| preview(kind, &body.map(String::from));
    assert_eq!(said("MESSAGE", Some("hello")), "hello");
    assert_eq!(said("MESSAGE", None), "");
    assert_eq!(said("MEDIA", Some("x")), "\u{1F4CE} Photo/video");
    assert_eq!(said("CALL", None), "\u{1F4DE} Call");
    assert_eq!(said("OTHER", Some("x")), "");
    let row = |id: i64| JournalThreadRow {
        thread_id: id,
        display_name: Some("Kim".into()),
        entry_type: "MESSAGE".into(),
        body: Some(format!("m{id}")),
        last_occurred_at: 10 - id,
    };
    let page = show_journal("Phone", &vec![row(3), row(4)], &form(&[]));
    assert_eq!(page.title, "Phone - Conversations");
    assert_eq!(page.selected_thread_id, Some(3));
    assert_eq!((page.threads[1].preview.as_str(), page.threads[1].last_occurred_at), ("m4", 6));
    assert_eq!(page.threads[1].display_name.as_deref(), Some("Kim"));
    assert_eq!(selected_thread(&form(&[("thread_id", "4")]), &page.threads), Some(4));
    assert_eq!(selected_thread(&form(&[("thread_id", "x")]), &page.threads), Some(3));
    assert_eq!(selected_thread(&form(&[]), &Vec::new()), None);
    assert_eq!(show_history("Phone"), "Phone - Browsing history");
    assert_eq!(unban_ip("1.2.3.4"), "1.2.3.4 was unbanned.");
}

#[test]
fn media_are_handed_out_with_their_type() {
    let entry = |path: Option<&str>, kind: Option<&str>| JournalMedia {
        media_path: path.map(String::from),
        media_content_type: kind.map(String::from),
    };
    assert_eq!(
        download_media(Some(entry(Some("p"), Some("image/png")))),
        Some(("p".into(), "image/png".into()))
    );
    assert_eq!(
        download_media(Some(entry(Some("p"), None))),
        Some(("p".into(), "application/octet-stream".into()))
    );
    assert_eq!(download_media(Some(entry(None, Some("image/png")))), None);
    assert_eq!(download_media(None), None);
}

#[test]
fn a_phone_is_told_the_network_to_join() {
    let settings = || ProvisioningSettings {
        server_url: "https://server.example".into(),
        tailscale_auth_key: "key".into(),
    };
    let told = |ssid: &str, password: &str| {
        let params =
            ProvisionQueryParams { wifi_ssid: ssid.into(), wifi_password: password.into() };
        let p = provisioning_payload(&params, &settings(), "AAAA2222".into());
        (p.wifi_ssid, p.wifi_password, p.wifi_security_type)
    };
    assert_eq!(told(" ", "secret"), (None, None, None));
    assert_eq!(told(" Home ", " "), (Some("Home".into()), None, None));
    assert_eq!(told("Home", " secret "), (Some("Home".into()), Some("secret".into()), Some("WPA")));
    let params = ProvisionQueryParams { wifi_ssid: String::new(), wifi_password: String::new() };
    let p = provision_form(&params, &settings());
    assert_eq!(p.admin_extras.enrollment_code.len(), 8);
    assert_eq!(p.admin_extras.server_url, "https://server.example");
    assert_eq!(p.admin_extras.tailscale_auth_key, "key");
    assert!(p.admin_component.ends_with(".MdmDeviceAdminReceiver"));
    assert_eq!(p.signature_checksum.len(), 43);
    assert!(p.download_location.ends_with("/app-debug.apk"));
    assert_eq!(provision_title("Phone"), "Provision Phone");
}

#[test]
fn a_payload_is_drawn_as_a_qr_code() {
    let svg = payload_qr("{\"a\":1}").unwrap();
    assert!(svg.contains("<svg") && svg.contains("#000000") && svg.contains("#ffffff"));
    assert_eq!(payload_qr("{\"a\":1}").unwrap(), svg);
    assert_ne!(payload_qr("{\"a\":2}").unwrap(), svg);
    assert_eq!(payload_qr(&"x".repeat(5000)), None);
}

#[test]
fn provisioning_settings_are_trimmed() {
    let s = update_provisioning_settings(&form(&[("server_url", " https://x "), ("other", "y")]));
    assert_eq!((s.server_url.as_str(), s.tailscale_auth_key.as_str()), ("https://x", ""));
}
