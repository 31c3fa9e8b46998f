use kid_phone_server::forms::FormFields;
use kid_phone_server::handlers::devices::{
    add_to_allowlist, allow_package, code_span, create_device, device_detail_text, device_url,
    disallow_package, installed_app_status, is_valid_pin, list_devices, read_allowlist,
    regenerate_code, remove_from_allowlist, toggle_app, unified_apps, unset_policy, update_policy,
    view_device, CreateDeviceForm, InstallProgress, UnifiedAppRow, DEFAULT_LOCK_TASK_FEATURES,
};
use kid_phone_server::models::{Device, InstalledApp, TrackedApp};
use kid_phone_server::security::hash_pin_with_salt;

fn form(pairs: &[(&str, &str)]) -> FormFields {
    FormFields { pairs: pairs.iter().map(|(k, v)| (k.to_string(), v.to_string())).collect() }
}

fn device(enrolled_at: Option<&str>, last_seen_at: Option<&str>) -> Device {
    Device {
        id: 4,
        name: "Kim's phone".into(),
        enrollment_code: None,
        enrollment_code_expires_at: None,
        token_hash: None,
        enrolled_at: enrolled_at.map(String::from),
        last_seen_at: last_seen_at.map(String::from),
    }
}

fn app(package: &str, label: &str, preinstalled: bool) -> InstalledApp {
    InstalledApp { package_name: package.into(), label: label.into(), preinstalled }
}

fn listed(id: i64, name: &str, package: &str, tag: Option<&str>, is_launcher: bool) -> TrackedApp {
    TrackedApp {
        id,
        name: name.into(),
        package_name: package.into(),
        source_type: "github".into(),
        github_repo: "o/r".into(),
        asset_pattern: None,
        include_prereleases: false,
        enabled: true,
        latest_release_tag: tag.map(String::from),
        latest_release_asset_id: None,
        latest_release_file_path: None,
        last_checked_at: None,
        created_at: String::new(),
        is_launcher,
    }
}

fn strings(v: &[&str]) -> Vec<String> {
    v.iter().map(|s| s.to_string()).collect()
}

#[test]
fn the_list_of_phones_says_when_they_were_seen() {
    let rows = list_devices(&vec![
        device(None, Some("yesterday")),
        device(Some("then"), Some("today")),
        device(Some("then"), None),
    ]);
    let said: Vec<_> = rows.iter().map(|r| r.status_text.as_str()).collect();
    assert_eq!(said, ["Not enrolled yet", "Last seen today", "Enrolled, not seen yet"]);
    assert_eq!((rows[0].id, rows[0].name.as_str()), (4, "Kim's phone"));
    assert_eq!(device_url(4), "/devices/4");
    assert_eq!(device_detail_text(4), "device 4");
}

#[test]
fn a_new_phone_starts_pinned_with_a_fresh_code() {
    let new = create_device(CreateDeviceForm { name: "Kim".into() });
    assert_eq!(new.name, "Kim");
    assert_eq!(new.enrollment_code.len(), 8);
    assert_eq!(new.code_span, "+30 minutes");
    assert!(new.kiosk_desired);
    assert_eq!(new.lock_task_features, 63);
    assert_eq!(DEFAULT_LOCK_TASK_FEATURES, 63);
    assert_eq!(regenerate_code().1, code_span());
    assert_eq!(regenerate_code().0.len(), 8);
}

#[test]
fn packages_are_put_on_the_allowlist_and_taken_off() {
    assert_eq!(add_to_allowlist(None, "b").as_deref(), Some("[\"b\"]"));
    assert_eq!(add_to_allowlist(Some("[\"a\"]"), "b").as_deref(), Some("[\"a\",\"b\"]"));
    assert_eq!(add_to_allowlist(Some("[\"a\",\"b\"]"), "b"), None);
    assert_eq!(add_to_allowlist(Some("not json"), "b").as_deref(), Some("[\"b\"]"));
    assert_eq!(add_to_allowlist(Some("[1]"), "q\"\n").as_deref(), Some("[\"q\\\"\\n\"]"));
    assert_eq!(remove_from_allowlist(Some("[\"b\",\"a\",\"b\"]"), "b").as_deref(), Some("[\"a\"]"));
    assert_eq!(remove_from_allowlist(Some("[\"a\"]"), "b"), None);
    assert_eq!(remove_from_allowlist(None, "b"), None);
    assert_eq!(read_allowlist(Some(" [ \"x\" , \"y\" ] ")), ["x", "y"]);
    assert!(read_allowlist(Some("{}")).is_empty());
}

#[test]
fn disallowing_undoes_allowing() {
    let list = strings(&["a", "c"]);
    let with = allow_package(list.clone(), "b").unwrap();
    assert_eq!(with, ["a", "c", "b"]);
    assert_eq!(disallow_package(&with, "b").unwrap(), list);
    assert_eq!(disallow_package(&list, "b"), None);
    assert_eq!(allow_package(list, "a"), None);
}

fn catalog() -> Vec<TrackedApp> {
    vec![
        listed(1, "Launcher", "com.launcher", Some("v1"), true),
        listed(2, "maps", "com.maps", None, false),
        listed(3, "Chat", "com.chat", Some("v2"), false),
        listed(4, "By hand", "", Some("v3"), false),
        listed(5, "zeta", "com.zeta", Some("v3"), false),
    ]
}

fn list() -> Vec<UnifiedAppRow> {
    unified_apps(
        &vec![
            app("com.chat", "Chat app", false),
            app("com.launcher", "Kids Launcher", false),
            app("com.camera", "camera", true),
        ],
        &catalog(),
        &strings(&["com.camera"]),
        &vec![4, 5],
        &vec![
            InstallProgress { tracked_app_id: 5, percent: 7, failed: true },
            InstallProgress { tracked_app_id: 5, percent: 42, failed: false },
            InstallProgress { tracked_app_id: 4, percent: 0, failed: true },
        ],
    )
}

#[test]
fn the_list_of_apps_has_the_launcher_first_and_the_rest_by_label() {
    let labels: Vec<String> = list().iter().map(|r| r.label.clone()).collect();
    assert_eq!(labels, ["Launcher", "By hand", "camera", "Chat app", "maps", "zeta"]);
}

#[test]
fn every_app_has_one_line() {
    let rows = list();
    for package in ["com.launcher", "com.chat", "com.camera", "com.maps", "com.zeta"] {
        assert_eq!(rows.iter().filter(|r| r.package_name == package).count(), 1, "{package}");
    }
}

#[test]
fn the_lines_say_how_an_app_stands() {
    let rows = list();
    let row = |label: &str| rows.iter().find(|r| r.label == label).unwrap();
    let launcher = row("Launcher");
    assert!(launcher.is_launcher && launcher.checked && !launcher.show_no_release_hint);
    assert_eq!((launcher.status_label.as_str(), launcher.tracked_app_id), ("Installed", Some(1)));
    let chat = row("Chat app");
    assert_eq!((chat.status_label.as_str(), chat.tracked_app_id), ("Installed", Some(3)));
    assert!(!chat.checked);
    let camera = row("camera");
    assert_eq!((camera.status_label.as_str(), camera.tracked_app_id), ("Preinstalled", None));
    assert!(camera.checked);
    let maps = row("maps");
    assert_eq!(maps.status_label, "Not installed");
    assert!(!maps.checked && maps.show_no_release_hint && !maps.is_installing);
    let hand = row("By hand");
    assert_eq!(hand.status_label, "Install failed");
    assert!(hand.checked && hand.install_failed && !hand.is_installing);
    let zeta = row("zeta");
    assert_eq!(zeta.status_label, "Installing 42%");
    assert!(zeta.is_installing && !zeta.install_failed);
}

#[test]
fn lines_with_the_same_label_keep_their_order() {
    let rows = unified_apps(
        &vec![app("p1", "Same", false), app("p2", "SAME", false), app("p0", "a", false)],
        &vec![listed(9, "same", "p3", None, false)],
        &Vec::new(),
        &Vec::new(),
        &Vec::new(),
    );
    let packages: Vec<_> = rows.iter().map(|r| r.package_name.as_str()).collect();
    assert_eq!(packages, ["p0", "p1", "p2", "p3"]);
}

#[test]
fn the_page_of_a_phone_without_a_policy_has_the_filter_on() {
    let page = view_device(
        &device(None, None),
        None,
        &Vec::new(),
        None,
        &Vec::new(),
        &Vec::new(),
        &Vec::new(),
    );
    assert_eq!(page.title, "Kim's phone");
    assert!(page.vpn_filter_enabled && !page.kiosk_desired);
    assert!(!page.pin_configured && !page.offline_override_used && !page.any_app_installing);
    assert!(!page.quick_control_wifi && !page.quick_control_bluetooth);
    assert!(page.apps.is_empty());
    let unset = unset_policy(4);
    assert_eq!((unset.wifi_mode.as_str(), unset.bluetooth_mode.as_str()), ("open", "open"));
}

#[test]
fn the_page_of_a_phone_shows_its_policy() {
    let mut policy = unset_policy(4);
    policy.allowlist_json = Some("[\"com.camera\"]".into());
    policy.override_pin_hash = Some("h".into());
    policy.quick_controls_mask = 5;
    policy.vpn_filter_enabled = false;
    policy.kiosk_desired = true;
    let page = view_device(
        &device(None, None),
        Some(policy),
        &vec![app("com.camera", "Camera", true)],
        Some(true),
        &vec![listed(5, "zeta", "com.zeta", None, false)],
        &Vec::new(),
        &vec![InstallProgress { tracked_app_id: 5, percent: 1, failed: false }],
    );
    assert!(page.apps[0].checked);
    assert!(page.pin_configured && page.offline_override_used && page.any_app_installing);
    assert!(page.quick_control_wifi && !page.quick_control_bluetooth);
    assert!(page.quick_control_brightness && !page.vpn_filter_enabled && page.kiosk_desired);
}

#[test]
fn switching_an_app_on_pushes_and_allows_it() {
    let plan = toggle_app(
        &form(&[("selected", "on"), ("package_name", "com.chat"), ("tracked_app_id", "3")]),
        Some("[]"),
        &vec![app("com.chat", "Chat", false)],
        &catalog(),
    );
    assert_eq!((plan.track, plan.untrack), (Some(3), None));
    assert_eq!(plan.allowlist.as_deref(), Some("[\"com.chat\"]"));
    assert_eq!(plan.uninstall, None);
}

#[test]
fn switching_an_app_off_uninstalls_it_unless_it_came_with_the_phone() {
    let installed = vec![app("com.chat", "Chat", false), app("com.camera", "Camera", true)];
    let off = |package: &str| {
        toggle_app(
            &form(&[("package_name", package), ("tracked_app_id", "x")]),
            Some("[\"com.chat\",\"com.camera\"]"),
            &installed,
            &catalog(),
        )
    };
    let chat = off("com.chat");
    assert_eq!((chat.track, chat.untrack), (None, None));
    assert_eq!(chat.allowlist.as_deref(), Some("[\"com.camera\"]"));
    assert_eq!(chat.uninstall.as_deref(), Some("com.chat"));
    assert_eq!(off("com.camera").uninstall, None);
    assert_eq!(off("com.camera").allowlist.as_deref(), Some("[\"com.chat\"]"));
    let other = off("com.other");
    assert_eq!((other.allowlist, other.uninstall), (None, None));
    let nothing = toggle_app(&form(&[]), Some("[\"\"]"), &installed, &catalog());
    assert_eq!((nothing.allowlist, nothing.uninstall), (None, None));
    assert_eq!(installed_app_status(&installed, "com.chat"), (true, false));
    assert_eq!(installed_app_status(&installed, "com.camera"), (true, true));
    assert_eq!(installed_app_status(&installed, "com.other"), (false, false));
}

#[test]
fn the_launcher_cannot_be_switched_off() {
    let installed = vec![app("com.launcher", "Kids Launcher", false)];
    let toggle = |pairs: &[(&str, &str)]| {
        toggle_app(&form(pairs), Some("[\"com.launcher\"]"), &installed, &catalog())
    };
    let launcher = [("tracked_app_id", "1"), ("package_name", "com.launcher")];
    for pairs in [&launcher[..], &launcher[..1], &launcher[1..]] {
        let plan = toggle(pairs);
        assert_eq!((plan.track, plan.untrack), (None, None));
        assert_eq!((plan.allowlist, plan.uninstall), (None, None));
    }
    let on = toggle(&[("tracked_app_id", "1"), ("selected", "on")]);
    assert_eq!((on.track, on.untrack), (Some(1), None));
    let other = toggle(&[("tracked_app_id", "4"), ("package_name", "")]);
    assert_eq!(other.untrack, Some(4));
}

#[test]
fn a_pin_has_six_digits_or_more() {
    assert!(is_valid_pin("123456") && is_valid_pin("0000000"));
    for bad in ["", "12345", "12345x", "123 456", "\u{661}\u{661}\u{661}\u{661}\u{661}\u{661}"] {
        assert!(!is_valid_pin(bad), "{bad}");
    }
}

#[test]
fn the_policy_form_sets_switches_and_keeps_the_pin() {
    let update = update_policy(
        &form(&[("quick_control_wifi", "1"), ("quick_control_brightness", "1"), ("new_pin", "12")]),
        Some("hash".into()),
        Some("salt".into()),
    );
    assert!(!update.kiosk_desired && !update.vpn_filter_enabled);
    assert_eq!((update.lock_task_features, update.quick_controls_mask), (63, 5));
    assert_eq!(update.override_pin_hash.as_deref(), Some("hash"));
    assert_eq!(update.override_pin_salt.as_deref(), Some("salt"));
    assert_eq!(update.pin_event, None);
    let all = update_policy(
        &form(&[
            ("quick_control_wifi", ""),
            ("quick_control_bluetooth", ""),
            ("quick_control_brightness", ""),
            ("vpn_filter_enabled", ""),
            ("kiosk_desired", "on"),
        ]),
        None,
        None,
    );
    assert!(all.vpn_filter_enabled && all.kiosk_desired);
    assert_eq!(all.quick_controls_mask, 7);
    assert_eq!(all.override_pin_hash, None);
}

#[test]
fn the_policy_form_changes_and_clears_the_pin() {
    let update = update_policy(&form(&[("new_pin", " 123456 ")]), None, None);
    assert_eq!(update.pin_event, Some("override_pin_changed"));
    let salt = hex::decode(update.override_pin_salt.unwrap()).unwrap();
    assert_eq!(update.override_pin_hash.unwrap(), hash_pin_with_salt("123456", &salt).0);
    let cleared = update_policy(
        &form(&[("clear_pin", "1"), ("new_pin", "123456")]),
        Some("hash".into()),
        Some("salt".into()),
    );
    assert_eq!((cleared.override_pin_hash, cleared.override_pin_salt), (None, None));
    assert_eq!(cleared.pin_event, Some("override_pin_cleared"));
}
