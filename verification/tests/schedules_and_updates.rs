use kid_phone_server::forms::FormFields;
use kid_phone_server::handlers::devices::unset_policy;
use kid_phone_server::handlers::schedules::{
    effective_schedule, minutes_to_time_input, save_device_schedule, save_global_schedule,
    schedule_form_fits, schedules_url, show_schedules, time_input_fits, time_input_to_minutes,
};
use kid_phone_server::handlers::system_maintenance::{
    apt_upgradable_count, gather, request_action, save_schedule, schedule_saved_message,
    tailscale_versions, trigger_os_check, trigger_os_upgrade, trigger_reboot,
    trigger_tailscale_update, ScheduleConfig, ScheduleForm,
};
use kid_phone_server::handlers::system_update::{
    gather as gather_app, run_scheduled_app_update_check, save_app_update_schedule,
    schedule_saved_message as app_schedule_saved_message, trigger_restart, trigger_update,
    update_available, AppUpdateScheduleConfig, AppUpdateScheduleForm, LoopEvent, LoopStep,
};
use kid_phone_server::models::{Device, GlobalSchedule};
use kid_phone_server::schedule::Clock;

fn form(pairs: &[(&str, &str)]) -> FormFields {
    FormFields { pairs: pairs.iter().map(|(k, v)| (k.to_string(), v.to_string())).collect() }
}

#[test]
fn times_are_shown_as_a_form_expects_them() {
    assert_eq!(minutes_to_time_input(None), "");
    for m in [0i64, 5, 59, 60, 61, 1439, 1440, 6000, -1, -59, -60, -61, i64::MAX, i64::MIN] {
        assert_eq!(minutes_to_time_input(Some(m)), format!("{:02}:{:02}", m / 60, m % 60), "{m}");
    }
}

#[test]
fn a_time_that_is_shown_is_read_back() {
    for m in [None, Some(0), Some(479), Some(1439), Some(-61), Some(i64::MAX), Some(i64::MIN)] {
        let shown = minutes_to_time_input(m);
        assert!(time_input_fits(&shown));
        assert_eq!(time_input_to_minutes(&shown), m);
    }
}

#[test]
fn times_are_read_from_a_form() {
    assert_eq!(time_input_to_minutes("07:30"), Some(450));
    assert_eq!(time_input_to_minutes("7:5"), Some(425));
    for bad in ["", "0730", "x:00", "07:", ":30", "07:30:00", " 07:30"] {
        assert!(time_input_fits(bad));
        assert_eq!(time_input_to_minutes(bad), None, "{bad}");
    }
    assert!(!time_input_fits("9223372036854775807:0"));
    assert!(!time_input_fits("-9223372036854775808:0"));
    assert!(time_input_fits("153722867280912930:7"));
    assert!(!time_input_fits("153722867280912930:8"));
}

fn hours(base: i64) -> GlobalSchedule {
    GlobalSchedule {
        weekday_start_minutes: Some(base),
        weekday_end_minutes: Some(base + 60),
        weekend_start_minutes: None,
        weekend_end_minutes: Some(base + 1),
        bedtime_start_minutes: Some(base + 2),
        bedtime_end_minutes: Some(base + 3),
    }
}

#[test]
fn schedules_are_saved_from_a_form() {
    let given = form(&[
        ("weekday_start", "07:00"),
        ("weekday_end", "20:00"),
        ("weekend_start", ""),
        ("bedtime_start", "21:30"),
        ("bedtime_end", "06:30"),
        ("custom_schedule_enabled", "on"),
    ]);
    assert!(schedule_form_fits(&given));
    let s = save_global_schedule(&given);
    assert_eq!((s.weekday_start_minutes, s.weekday_end_minutes), (Some(420), Some(1200)));
    assert_eq!((s.weekend_start_minutes, s.weekend_end_minutes), (None, None));
    assert_eq!((s.bedtime_start_minutes, s.bedtime_end_minutes), (Some(1290), Some(390)));
    let (custom, s) = save_device_schedule(&given);
    assert!(custom);
    assert_eq!(s.weekday_start_minutes, Some(420));
    assert!(!save_device_schedule(&form(&[])).0);
    assert!(!schedule_form_fits(&form(&[("bedtime_end", "9223372036854775807:0")])));
}

#[test]
fn the_common_hours_hold_unless_a_phone_has_its_own() {
    let mut policy = unset_policy(1);
    policy.weekday_start_minutes = Some(7);
    assert_eq!(effective_schedule(&policy, &hours(100)).weekday_start_minutes, Some(100));
    policy.custom_schedule_enabled = true;
    let own = effective_schedule(&policy, &hours(100));
    assert_eq!((own.weekday_start_minutes, own.bedtime_end_minutes), (Some(7), None));
}

#[test]
fn the_page_shows_the_hours_of_the_chosen_phone() {
    let device = |id: i64| Device {
        id,
        name: format!("phone {id}"),
        enrollment_code: None,
        enrollment_code_expires_at: None,
        token_hash: None,
        enrolled_at: None,
        last_seen_at: None,
    };
    let devices = vec![device(3), device(8)];
    let mut policy = unset_policy(8);
    policy.custom_schedule_enabled = true;
    policy.bedtime_start_minutes = Some(1290);
    let page = show_schedules(&form(&[("device", "8")]), &hours(60), &devices, &policy);
    assert_eq!((page.global.weekday_start.as_str(), page.global.weekend_start.as_str()), ("01:00", ""));
    assert_eq!(page.devices.iter().map(|d| d.selected).collect::<Vec<_>>(), [false, true]);
    let chosen = page.selected.unwrap();
    assert_eq!((chosen.id, chosen.name.as_str(), chosen.custom_enabled), (8, "phone 8", true));
    assert_eq!((chosen.inputs.bedtime_start.as_str(), chosen.inputs.bedtime_end.as_str()), ("21:30", ""));
    assert!(show_schedules(&form(&[]), &hours(60), &devices, &policy).selected.is_none());
    assert_eq!(schedules_url(8), "/schedules?device=8");
}

#[test]
fn upgradable_packages_are_counted() {
    let printed = "Listing... Done\nbash/stable 5.2 arm64 [upgradable from: 5.1]\n\n  \nzsh/stable 1\n";
    assert_eq!(apt_upgradable_count(Some(printed)), Some(2));
    assert_eq!(apt_upgradable_count(Some("")), Some(0));
    assert_eq!(apt_upgradable_count(None), None);
}

#[test]
fn versions_of_the_network_client_are_found() {
    let pair = |a: &str, b: &str| Some((a.to_string(), b.to_string()));
    assert_eq!(
        tailscale_versions(Some(" 1.80.0 \n  commit: x\n"), Some("1.80.0\n  upstream: 1.82.5\n  go: 1\n")),
        pair("1.80.0", "1.82.5")
    );
    assert_eq!(tailscale_versions(Some("1.80.0"), Some("upstream:1.82upstream:9")), pair("1.80.0", "1.82"));
    assert_eq!(tailscale_versions(Some("1.80.0"), Some("no label")), pair("1.80.0", ""));
    assert_eq!(tailscale_versions(Some("1.80.0"), Some("upstream: ")), pair("1.80.0", ""));
    assert_eq!(tailscale_versions(Some("1.80.0"), None), pair("1.80.0", ""));
    assert_eq!(tailscale_versions(Some("\n1.80.0"), None), None);
    assert_eq!(tailscale_versions(None, Some("upstream: 1")), None);
}

#[test]
fn the_page_shows_the_systems_updates_unless_an_action_runs() {
    let data = gather(
        false,
        Some("Listing...\na\n"),
        Some("1.0"),
        Some("upstream: 1.1"),
        true,
        Some("AUTO_REBOOT=true\n"),
    );
    assert!(!data.watcher_busy && data.reboot_required && data.tailscale_update_available);
    assert_eq!(data.os_update_count, Some(1));
    assert_eq!(data.tailscale_current.as_deref(), Some("1.0"));
    assert_eq!(data.tailscale_upstream.as_deref(), Some("1.1"));
    assert!(data.schedule.auto_reboot);
    assert_eq!(data.schedule_summary, data.schedule.summary());
    let same = gather(false, None, Some("1.0"), Some("upstream: 1.0"), false, None);
    assert!(!same.tailscale_update_available && same.os_update_count.is_none());
    assert!(!gather(false, None, Some("1.0"), None, false, None).tailscale_update_available);
    let none = gather(false, None, None, None, false, None);
    assert!(none.tailscale_current.is_none() && none.tailscale_upstream.is_none());
    let busy = gather(true, Some("a\n"), Some("1.0"), Some("upstream: 1.1"), false, None);
    assert!(busy.watcher_busy && busy.os_update_count.is_none());
    assert!(busy.tailscale_current.is_none() && !busy.tailscale_update_available);
}

#[test]
fn the_update_schedule_is_saved_and_read_back() {
    assert_eq!(
        ScheduleConfig::defaults().summary(),
        "Checking for updates daily at 03:00. Auto-install OS updates: off. Auto-update Tailscale: off. Auto-reboot if needed: off."
    );
    let c = save_schedule(ScheduleForm {
        frequency: "monthly".into(),
        day_of_week: "2".into(),
        day_of_month: "40".into(),
        check_time: "".into(),
        auto_apply_os: Some("on".into()),
        auto_apply_tailscale: None,
        auto_reboot: Some("on".into()),
    })
    .ok()
    .unwrap();
    let text = c.to_file_contents();
    assert_eq!(
        text,
        "FREQUENCY=monthly\nDAY_OF_WEEK=2\nDAY_OF_MONTH=28\nCHECK_TIME=03:00\nAUTO_APPLY_OS=true\nAUTO_APPLY_TAILSCALE=false\nAUTO_REBOOT=true\n"
    );
    assert_eq!(ScheduleConfig::load(Some(&text)).to_file_contents(), text);
    assert_eq!(
        c.summary(),
        "Checking for updates on day 28 of the month at 03:00. Auto-install OS updates: on. Auto-update Tailscale: off. Auto-reboot if needed: on."
    );
    let bad = ScheduleForm {
        frequency: "never".into(),
        day_of_week: "".into(),
        day_of_month: "".into(),
        check_time: "".into(),
        auto_apply_os: None,
        auto_apply_tailscale: None,
        auto_reboot: None,
    };
    assert_eq!(save_schedule(bad).err().unwrap(), "Invalid frequency.");
    assert_eq!(schedule_saved_message(true), "Schedule saved.");
    assert_eq!(schedule_saved_message(false), "Couldn't save the schedule.");
}

#[test]
fn actions_are_asked_for_by_one_word() {
    let words: Vec<_> = [
        trigger_os_check(),
        trigger_os_upgrade(),
        trigger_tailscale_update(),
        trigger_reboot(),
        trigger_update(),
        trigger_restart(),
    ]
    .iter()
    .map(|a| (a.word, a.event_type))
    .collect();
    assert_eq!(
        words,
        [
            ("os_check", "os_check_triggered"),
            ("os_upgrade", "os_upgrade_triggered"),
            ("tailscale_update", "tailscale_update_triggered"),
            ("reboot", "reboot_triggered"),
            ("update", "system_update_triggered"),
            ("restart", "system_restart_triggered"),
        ]
    );
    assert_eq!(request_action(&trigger_reboot(), true), trigger_reboot().started);
    assert_eq!(
        request_action(&trigger_reboot(), false),
        "Couldn't write the request file - the update watcher may not be set up on this install."
    );
}

#[test]
fn the_app_update_schedule_is_saved_and_read_back() {
    let c = save_app_update_schedule(AppUpdateScheduleForm {
        frequency: "sometimes".into(),
        day_of_week: "1".into(),
        day_of_month: "2".into(),
        check_time: " 05:15 ".into(),
        auto_install_enabled: Some("on".into()),
    });
    let text = c.to_file_contents();
    assert_eq!(
        text,
        "FREQUENCY=daily\nDAY_OF_WEEK=1\nDAY_OF_MONTH=2\nCHECK_TIME=05:15\nAUTO_INSTALL_ENABLED=true\n"
    );
    assert_eq!(AppUpdateScheduleConfig::load(Some(&text)).to_file_contents(), text);
    assert_eq!(c.summary(), "Checking for a new version daily at 05:15. Auto-install: on.");
    assert_eq!(
        AppUpdateScheduleConfig::defaults().summary(),
        "Checking for a new version daily at 04:00. Auto-install: off."
    );
    assert_eq!(app_schedule_saved_message(true), "Update-check schedule saved.");
    assert_eq!(app_schedule_saved_message(false), "Couldn't save the schedule.");
}

#[test]
fn a_new_version_is_looked_for_when_due_and_wanted() {
    let clock = Clock { today: "2026-07-14".into(), weekday: 2, day: 14, hour: 4, minute: 2 };
    let mut c = AppUpdateScheduleConfig::defaults();
    assert!(c.is_due("", &clock));
    assert!(!c.checks_now("", &clock));
    c.auto_install_enabled = true;
    assert!(c.checks_now("2026-07-13", &clock));
    assert!(!c.checks_now("2026-07-14", &clock));
}

#[test]
fn the_page_shows_the_servers_own_updates() {
    assert!(update_available(&Some("v2".into()), "v1"));
    assert!(!update_available(&Some("v1".into()), "v1"));
    assert!(!update_available(&None, "v1"));
    let data = gather_app("v1", Some("v2".into()), Some("v1\n"), Some("1"), None);
    assert!(data.update_available && !data.check_failed && data.watcher_needs_update);
    assert_eq!((data.current_version.as_str(), data.latest_version.as_deref()), ("v1", Some("v2")));
    assert_eq!(data.watcher_version.as_deref(), Some("v1"));
    assert_eq!(data.schedule_summary, data.schedule.summary());
    assert!(data.reinstall_hint.starts_with("curl"));
    let data = gather_app("v1", None, None, Some("2"), None);
    assert!(data.check_failed && !data.update_available && !data.watcher_needs_update);
    assert!(data.watcher_version.is_none());
}

#[test]
fn new_versions_are_installed_by_themselves_only_when_wanted() {
    let now = Clock { today: "2026-07-14".into(), weekday: 2, day: 14, hour: 4, minute: 0 };
    let mut c = AppUpdateScheduleConfig::defaults();
    let step = |c: &AppUpdateScheduleConfig, last: &str, event| {
        run_scheduled_app_update_check(c, last, &now, "v1", event)
    };
    assert!(matches!(step(&c, "", LoopEvent::Woke), LoopStep::Wait));
    c.auto_install_enabled = true;
    let LoopStep::Mark(day) = step(&c, "", LoopEvent::Woke) else {
        panic!("a new version is to be looked for");
    };
    assert_eq!(day, "2026-07-14");
    assert!(matches!(step(&c, &day, LoopEvent::Woke), LoopStep::Wait));
    assert!(matches!(step(&c, "", LoopEvent::Marked(true)), LoopStep::Ask));
    assert!(matches!(step(&c, "", LoopEvent::Marked(false)), LoopStep::Wait));
    assert!(matches!(step(&c, "", LoopEvent::Answered(Some("v2".into()))), LoopStep::Install));
    assert!(matches!(step(&c, "", LoopEvent::Answered(Some("v1".into()))), LoopStep::Wait));
    assert!(matches!(step(&c, "", LoopEvent::Answered(None)), LoopStep::Wait));
}
