use kid_phone_server::handlers::backups::{
    backup_path, backup_rows, base_device_of, build_backup_zip, create_backup, delete_backup,
    download_backup, format_drive, human_size, is_safe_backup_filename, list_backup_filenames,
    list_removable_drives, perform_backup, plan_backup, prune_old_backups, restore_backup,
    run_live_mirror, run_scheduled_backups, save_backup_schedule, schedule_saved_message,
    sectors_of, upload_backup, uploaded_file_verdict, uploaded_filename, uploaded_message,
    BackupFile, BackupScheduleConfig, BackupScheduleForm, BackupStep, BlockDevice, FormatDriveForm,
    LoopEvent, LoopStep, MirrorEvent, MirrorStep, RemovableDrive, RestoreBackupForm,
    RestoreRefusal, UploadedFile,
};
use kid_phone_server::schedule::{day_of_week_name, Clock};

fn clock(today: &str, weekday: u32, day: u32, hour: u32, minute: u32) -> Clock {
    Clock { today: today.into(), weekday, day, hour, minute }
}

fn strings(v: &[&str]) -> Vec<String> {
    v.iter().map(|s| s.to_string()).collect()
}

#[test]
fn the_default_schedule_is_daily_at_two() {
    let d = BackupScheduleConfig::defaults();
    assert_eq!(
        d.to_file_contents(),
        "FREQUENCY=daily\nDAY_OF_WEEK=0\nDAY_OF_MONTH=1\nBACKUP_TIME=02:00\nRETENTION_COUNT=14\nEXTERNAL_COPY_ENABLED=false\nCONTINUOUS_MIRROR_ENABLED=false\n"
    );
    assert_eq!(
        d.summary(),
        "Backing up daily at 02:00, keeping the last 14. Copy to external drive: off. Continuous mirror: off."
    );
    assert_eq!(BackupScheduleConfig::load(None).to_file_contents(), d.to_file_contents());
}

#[test]
fn a_saved_schedule_is_read_back() {
    let saved = BackupScheduleConfig {
        frequency: "weekly".into(),
        day_of_week: "3".into(),
        day_of_month: "9".into(),
        backup_time: "23:45".into(),
        retention_count: "0".into(),
        external_copy_enabled: true,
        continuous_mirror_enabled: true,
    };
    let read = BackupScheduleConfig::load(Some(&saved.to_file_contents()));
    assert_eq!(read.to_file_contents(), saved.to_file_contents());
    assert_eq!(read.retention_count(), None);
    assert_eq!(
        read.summary(),
        "Backing up every Wednesday at 23:45, keeping all of them (no automatic deletion). Copy to external drive: on. Continuous mirror: on."
    );
}

#[test]
fn a_settings_file_is_read_leniently() {
    let read = BackupScheduleConfig::load(Some(
        "# a comment\r\n FREQUENCY = monthly \r\nDAY_OF_MONTH=7\nDAY_OF_MONTH=8\nUNKNOWN=1\nEXTERNAL_COPY_ENABLED=TRUE\nCONTINUOUS_MIRROR_ENABLED= true\nRETENTION_COUNT=many",
    ));
    assert_eq!(read.frequency, "monthly");
    assert_eq!(read.day_of_month, "8");
    assert!(!read.external_copy_enabled);
    assert!(read.continuous_mirror_enabled);
    assert_eq!(read.retention_count(), None);
    assert_eq!(read.backup_time, "02:00");
    assert!(read.summary().starts_with("Backing up on day 8 of the month at 02:00, "));
}

#[test]
fn weekdays_have_names() {
    let names: Vec<&str> =
        ["0", "1", "2", "3", "4", "5", "6", "7", ""].iter().map(|d| day_of_week_name(d)).collect();
    assert_eq!(
        names,
        [
            "Sunday", "Monday", "Tuesday", "Wednesday", "Thursday", "Friday", "Saturday", "Sunday",
            "Sunday"
        ]
    );
}

#[test]
fn a_backup_is_due_in_the_five_minutes_from_its_time_once_a_day() {
    let mut s = BackupScheduleConfig::defaults();
    let at = |hour, minute| clock("2026-07-14", 2, 14, hour, minute);
    assert!(!s.is_due("", &at(1, 59)));
    assert!(s.is_due("", &at(2, 0)));
    assert!(s.is_due("2026-07-13\n", &at(2, 4)));
    assert!(!s.is_due("", &at(2, 5)));
    assert!(!s.is_due(" 2026-07-14\n", &at(2, 0)));
    s.frequency = "weekly".into();
    assert!(!s.is_due("", &at(2, 0)));
    s.day_of_week = "2".into();
    assert!(s.is_due("", &at(2, 0)));
    s.day_of_week = "nonsense".into();
    assert!(s.is_due("", &clock("2026-07-12", 0, 12, 2, 0)));
    s.frequency = "monthly".into();
    s.day_of_month = "14".into();
    assert!(s.is_due("", &at(2, 0)));
    s.day_of_month = "15".into();
    assert!(!s.is_due("", &at(2, 0)));
    s.frequency = "daily".into();
    for bad in ["", "two", "2", "2:x", "9999999999999999999:0", "9223372036854775807:0"] {
        s.backup_time = bad.into();
        assert!(!s.is_due("", &at(2, 0)), "{bad}");
    }
    s.backup_time = " 2 : 03 ".into();
    assert!(s.is_due("", &at(2, 7)));
}

fn schedule_form(frequency: &str, week: &str, month: &str, time: &str, keep: &str) -> BackupScheduleForm {
    BackupScheduleForm {
        frequency: frequency.into(),
        day_of_week: week.into(),
        day_of_month: month.into(),
        backup_time: time.into(),
        retention_count: keep.into(),
        external_copy_enabled: Some("on".into()),
        continuous_mirror_enabled: None,
    }
}

#[test]
fn the_schedule_form_is_brought_within_bounds() {
    let c = save_backup_schedule(schedule_form("weekly", " 9 ", "0", "  ", "99999")).ok().unwrap();
    assert_eq!(
        c.to_file_contents(),
        "FREQUENCY=weekly\nDAY_OF_WEEK=6\nDAY_OF_MONTH=1\nBACKUP_TIME=02:00\nRETENTION_COUNT=3650\nEXTERNAL_COPY_ENABLED=true\nCONTINUOUS_MIRROR_ENABLED=false\n"
    );
    assert_eq!(
        BackupScheduleConfig::load(Some(&c.to_file_contents())).to_file_contents(),
        c.to_file_contents()
    );
    let c = save_backup_schedule(schedule_form("daily", "x", "31", " 04:30 ", "-2")).ok().unwrap();
    assert_eq!((c.day_of_week.as_str(), c.day_of_month.as_str()), ("0", "28"));
    assert_eq!((c.backup_time.as_str(), c.retention_count.as_str()), ("04:30", "0"));
    let c = save_backup_schedule(schedule_form("monthly", "1", "y", "1:00", "some")).ok().unwrap();
    assert_eq!((c.day_of_month.as_str(), c.retention_count.as_str()), ("1", "14"));
    assert_eq!(
        save_backup_schedule(schedule_form("hourly", "", "", "", "")).err().unwrap(),
        "Invalid frequency."
    );
    assert_eq!(schedule_saved_message(true), "Backup schedule saved.");
    assert_eq!(schedule_saved_message(false), "Couldn't save the schedule.");
}

fn by_floating_point(bytes: u64) -> String {
    let units = ["B", "KB", "MB", "GB"];
    let mut size = bytes as f64;
    let mut unit = 0;
    while size >= 1024.0 && unit < 3 {
        size /= 1024.0;
        unit += 1;
    }
    if unit == 0 { format!("{bytes} B") } else { format!("{size:.1} {}", units[unit]) }
}

#[test]
fn sizes_are_those_of_floating_point() {
    assert_eq!(human_size(0), "0 B");
    assert_eq!(human_size(1023), "1023 B");
    assert_eq!(human_size(1024), "1.0 KB");
    assert_eq!(human_size(1024 + 256), "1.2 KB");
    assert_eq!(human_size(1024 + 768), "1.8 KB");
    assert_eq!(human_size(1024 * 1024 - 1), "1024.0 KB");
    assert_eq!(human_size(u64::MAX), "17179869184.0 GB");
    for n in 0..20_000u64 {
        assert_eq!(human_size(n), by_floating_point(n));
    }
    let mut n: u64 = 12345;
    for _ in 0..20_000 {
        n = n.wrapping_mul(6364136223846793005).wrapping_add(1442695040888963407);
        for shift in [0, 10, 11, 12, 20, 34, 44] {
            assert_eq!(human_size(n >> shift), by_floating_point(n >> shift));
        }
    }
    for k in 0..64 {
        for d in 0..40u64 {
            let near = (1u64 << k).wrapping_add(d << (k / 2)).wrapping_sub(20 << (k / 2));
            assert_eq!(human_size(near), by_floating_point(near));
        }
    }
}

#[test]
fn only_names_of_backups_are_safe() {
    assert!(is_safe_backup_filename("backup-20260714-140000.zip"));
    assert!(is_safe_backup_filename("backup-.zip"));
    for bad in [
        "backup.zip", "backup-1.tar", "xbackup-1.zip", "backup-a/b.zip", "backup-a\\b.zip",
        "backup-..zip", "backup-../x.zip", "", "backup-1.zip ",
    ] {
        assert!(!is_safe_backup_filename(bad), "{bad}");
    }
}

#[test]
fn backups_are_listed_in_order_and_pruned_from_the_oldest() {
    let entries = strings(&[
        "backup-20260102-000000.zip", "notes.txt", "backup-20260101-000000.zip",
        "tmp-20260101-000000.db", "backup-20260103-000000.zip",
    ]);
    let all = [
        "backup-20260101-000000.zip", "backup-20260102-000000.zip", "backup-20260103-000000.zip",
    ];
    assert_eq!(list_backup_filenames(&entries), all);
    assert_eq!(prune_old_backups(&entries, 2), all[..1]);
    assert_eq!(prune_old_backups(&entries, 0), all);
    assert!(prune_old_backups(&entries, 3).is_empty());
    assert!(prune_old_backups(&entries, 9).is_empty());
}

#[test]
fn a_backup_is_named_by_its_time() {
    let plan = plan_backup("20260714-140000");
    assert_eq!(plan.snapshot_path, "data/backups/tmp-20260714-140000.db");
    assert_eq!(plan.zip_filename, "backup-20260714-140000.zip");
    assert_eq!(plan.zip_path, "data/backups/backup-20260714-140000.zip");
    assert!(is_safe_backup_filename(&plan.zip_filename));
    assert_eq!(backup_path("x"), "data/backups/x");
    let failed = |step: BackupStep| perform_backup(plan_backup("t"), step).unwrap_err();
    assert_eq!(failed(BackupStep::NoFolder), "Couldn't create the backups folder.");
    assert_eq!(failed(BackupStep::SnapshotFailed("e".into())), "Snapshot failed: e");
    assert_eq!(failed(BackupStep::ZipFailed("e".into())), "Failed to build backup zip: e");
    assert_eq!(failed(BackupStep::TaskFailed("e".into())), "Backup zip task panicked: e");
    assert_eq!(perform_backup(plan, BackupStep::Done).unwrap(), "backup-20260714-140000.zip");
    assert_eq!(create_backup(true), Ok("Backup created."));
    assert_eq!(create_backup(false), Err("Something went wrong creating the backup."));
}

#[test]
fn the_list_of_backups_has_the_newest_first() {
    let file = |name: &str, meta: Option<(u64, &str)>| BackupFile {
        filename: name.into(),
        meta: meta.map(|(n, t)| (n, t.to_string())),
    };
    let rows = backup_rows(&vec![
        file("backup-1.zip", Some((10, "one"))),
        file("backup-3.zip", Some((2048, "three"))),
        file("other.zip", Some((1, "x"))),
        file("backup-4.zip", None),
        file("backup-2.zip", Some((1, "two"))),
    ]);
    let shown: Vec<_> = rows
        .iter()
        .map(|r| (r.filename.as_str(), r.size_display.as_str(), r.created_display.as_str()))
        .collect();
    assert_eq!(
        shown,
        [
            ("backup-3.zip", "2.0 KB", "three"),
            ("backup-2.zip", "1 B", "two"),
            ("backup-1.zip", "10 B", "one")
        ]
    );
}

#[test]
fn names_are_in_order_of_time_whether_made_or_uploaded() {
    let made = |time: &str| plan_backup(time).zip_filename;
    let mut names = vec![
        uploaded_filename("20260714-140001", 5),
        made("20260714-140002"),
        uploaded_filename("20260714-140000", 999),
        made("20260713-235959"),
    ];
    names = list_backup_filenames(&names);
    assert_eq!(
        names,
        [
            "backup-20260713-235959.zip",
            "backup-20260714-140000-uploaded-999.zip",
            "backup-20260714-140001-uploaded-5.zip",
            "backup-20260714-140002.zip"
        ]
    );
    assert_eq!(prune_old_backups(&names, 2), names[..2]);
}

#[test]
fn backups_are_handed_out_and_deleted_by_safe_names_only() {
    let d = download_backup("backup-1.zip").unwrap();
    assert_eq!(d.path, "data/backups/backup-1.zip");
    assert_eq!(d.content_type, "application/zip");
    assert_eq!(d.content_disposition, "attachment; filename=\"backup-1.zip\"");
    assert!(download_backup("../etc/passwd").is_none());
    assert_eq!(delete_backup("backup-1.zip").as_deref(), Some("data/backups/backup-1.zip"));
    assert_eq!(delete_backup("backup-/1.zip"), None);
}

#[test]
fn a_backup_that_was_made_can_be_uploaded_again() {
    let database = b"SQLite format 3\0 and more".repeat(100);
    let bytes = build_backup_zip(&database).unwrap();
    assert_ne!(bytes, database);
    let mut archive = zip::ZipArchive::new(std::io::Cursor::new(bytes.clone())).unwrap();
    let mut unpacked = Vec::new();
    std::io::Read::read_to_end(&mut archive.by_name("kidphone.db").unwrap(), &mut unpacked).unwrap();
    assert_eq!(unpacked, database);
    assert_eq!(bytes, build_backup_zip(&database).unwrap());
    assert_eq!(upload_backup(&UploadedFile::Read(bytes)), Ok(()));
}

#[test]
fn what_is_no_backup_is_refused() {
    let error = |file: UploadedFile| upload_backup(&file).unwrap_err();
    let other = "That doesn't look like a Kids Device MDM backup (couldn't find kidphone.db inside the zip).";
    assert_eq!(error(UploadedFile::Missing), "No file was uploaded.");
    assert_eq!(error(UploadedFile::Unreadable), "Couldn't read the uploaded file.");
    assert_eq!(error(UploadedFile::Read(Vec::new())), "That file is empty.");
    assert_eq!(error(UploadedFile::Read(b"plain text".to_vec())), other);
    let mut writer = zip::ZipWriter::new(std::io::Cursor::new(Vec::new()));
    writer.start_file("other.db", zip::write::SimpleFileOptions::default()).unwrap();
    let bytes = writer.finish().unwrap().into_inner();
    assert_eq!(error(UploadedFile::Read(bytes)), other);
    assert_eq!(uploaded_file_verdict(1, None).unwrap_err(), other);
    assert_eq!(uploaded_file_verdict(1, Some(false)).unwrap_err(), other);
    assert!(uploaded_file_verdict(1, Some(true)).is_ok());
    assert_eq!(uploaded_file_verdict(0, Some(true)).unwrap_err(), "That file is empty.");
}

#[test]
fn uploads_get_a_safe_name() {
    let name = uploaded_filename("20260714-140000", 123);
    assert_eq!(name, "backup-20260714-140000-uploaded-123.zip");
    assert!(is_safe_backup_filename(&name));
    assert_eq!(
        uploaded_message(&name, true),
        "Uploaded and added to the list below as backup-20260714-140000-uploaded-123.zip."
    );
    assert_eq!(uploaded_message(&name, false), "Couldn't save the uploaded file.");
}

fn block_device(name: &str) -> BlockDevice {
    BlockDevice { name: name.into(), removable: "1\n".into(), size: Some("2097152\n".into()) }
}

#[test]
fn the_drive_behind_a_source() {
    let devices = vec![block_device("mmcblk0"), block_device("nvme0n1"), block_device("sdp")];
    let base = |s: &str| base_device_of(Some(s), &devices);
    assert_eq!(base("/dev/mmcblk0p2\n").as_deref(), Some("/dev/mmcblk0"));
    assert_eq!(base("/dev/sda1").as_deref(), Some("/dev/sda"));
    assert_eq!(base("/dev/nvme0n1p12").as_deref(), Some("/dev/nvme0n1"));
    assert_eq!(base("/dev/sda").as_deref(), Some("/dev/sda"));
    assert_eq!(base("/dev/sdp1\n").as_deref(), Some("/dev/sdp"));
    assert_eq!(base("/dev/sdp").as_deref(), Some("/dev/sdp"));
    assert_eq!(base("/dev/mmcblk0\n").as_deref(), Some("/dev/mmcblk0"));
    assert_eq!(base("/dev/nvme0n1").as_deref(), Some("/dev/nvme0n1"));
    assert_eq!(base(" \n"), None);
    assert_eq!(base_device_of(None, &devices), None);
}

#[test]
fn the_drive_that_the_server_runs_from_is_not_listed() {
    let devices = vec![block_device("mmcblk0"), block_device("sdp"), block_device("sda")];
    let listed = |root: &str, boot: Option<&str>| -> Vec<String> {
        list_removable_drives(&devices, Some(root), boot).into_iter().map(|d| d.device).collect()
    };
    assert_eq!(listed("/dev/sdp1\n", None), ["/dev/mmcblk0", "/dev/sda"]);
    assert_eq!(listed("/dev/mmcblk0\n", Some("/dev/sdp\n")), ["/dev/sda"]);
    assert_eq!(listed("/dev/mmcblk0p2\n", Some("/dev/mmcblk0p1\n")), ["/dev/sdp", "/dev/sda"]);
}

#[test]
fn only_removable_drives_that_are_not_the_servers_own_are_listed() {
    let device = |name: &str, removable: &str, size: Option<&str>| BlockDevice {
        name: name.into(),
        removable: removable.into(),
        size: size.map(String::from),
    };
    let devices = vec![
        device("sda", "1\n", Some("2097152\n")),
        device("sdb", "0\n", Some("2097152\n")),
        device("mmcblk0", "1\n", Some("2097152\n")),
        device("sdc", "1\n", Some("2097152\n")),
        device("sdd", "1\n", Some("0\n")),
        device("sde", "1\n", None),
        device("sdf", "", Some("8\n")),
    ];
    assert_eq!(sectors_of(&devices[0]), 2097152);
    assert_eq!(sectors_of(&devices[5]), 0);
    let drives =
        list_removable_drives(&devices, Some("/dev/mmcblk0p2\n"), Some("/dev/sdc1\n"));
    assert_eq!(drives.len(), 1);
    assert_eq!((drives[0].device.as_str(), drives[0].size_display.as_str()), ("/dev/sda", "1.0 GB"));
    assert_eq!(list_removable_drives(&devices, None, None).len(), 3);
}

#[test]
fn a_drive_is_formatted_only_when_listed_and_confirmed() {
    let drives = vec![RemovableDrive { device: "/dev/sda".into(), size_display: "1.0 GB".into() }];
    let form = |device: &str, size: &str| FormatDriveForm {
        device: device.into(),
        confirm_size: size.into(),
    };
    let request = format_drive(&drives, &form("/dev/sda", " 1.0 GB ")).ok().unwrap();
    assert_eq!(request.flag, "format_drive /dev/sda");
    assert_eq!(request.detail, "/dev/sda");
    assert_eq!(
        request.started,
        "Formatting /dev/sda now - this can take a minute. Refresh this page shortly."
    );
    assert_eq!(
        format_drive(&drives, &form("/dev/sdb", "1.0 GB")).err().unwrap(),
        "That drive is no longer detected - nothing was formatted."
    );
    assert_eq!(
        format_drive(&drives, &form("/dev/sda", "1 GB")).err().unwrap(),
        "Confirmation text didn't match the drive size - nothing was formatted."
    );
}

#[test]
fn a_backup_is_restored_only_when_there_and_confirmed() {
    let entries = strings(&["backup-1.zip"]);
    let form = |name: &str| RestoreBackupForm { confirm_filename: name.into() };
    let request = restore_backup("backup-1.zip", &entries, &form(" backup-1.zip\n")).ok().unwrap();
    assert_eq!(request.flag, "restore_backup backup-1.zip");
    assert_eq!(request.detail, "backup-1.zip");
    assert!(request.started.starts_with("Restoring now - the app will stop"));
    assert!(matches!(
        restore_backup("../x", &entries, &form("../x")),
        Err(RestoreRefusal::NotFound)
    ));
    assert!(matches!(
        restore_backup("backup-2.zip", &entries, &form("backup-2.zip")),
        Err(RestoreRefusal::Message(m))
            if m == "That backup is no longer there - nothing was restored."
    ));
    assert!(matches!(
        restore_backup("backup-1.zip", &entries, &form("backup-2.zip")),
        Err(RestoreRefusal::Message(m))
            if m == "Confirmation text didn't match the filename - nothing was restored."
    ));
}

#[test]
fn backups_by_themselves_note_the_day_first_and_prune_last() {
    let mut c = BackupScheduleConfig::defaults();
    let now = clock("2026-07-14", 2, 14, 2, 3);
    let step = |c: &BackupScheduleConfig, last: &str, event| run_scheduled_backups(c, last, &now, event);
    let LoopStep::Mark(day) = step(&c, "2026-07-13\n", LoopEvent::Woke) else {
        panic!("a backup is due");
    };
    assert_eq!(day, "2026-07-14");
    assert!(matches!(step(&c, &day, LoopEvent::Woke), LoopStep::Wait));
    assert!(matches!(step(&c, "", LoopEvent::Marked(true)), LoopStep::BackUp));
    assert!(matches!(step(&c, "", LoopEvent::Marked(false)), LoopStep::Wait));
    assert!(matches!(step(&c, "", LoopEvent::BackedUp(true)), LoopStep::Prune(14)));
    assert!(matches!(step(&c, "", LoopEvent::BackedUp(false)), LoopStep::Wait));
    c.retention_count = "0".into();
    assert!(matches!(step(&c, "", LoopEvent::BackedUp(true)), LoopStep::Wait));
    c.backup_time = "02:04".into();
    assert!(matches!(step(&c, "", LoopEvent::Woke), LoopStep::Wait));
}

#[test]
fn the_mirror_is_replaced_by_whole_snapshots_only() {
    let mut c = BackupScheduleConfig::defaults();
    assert!(matches!(run_live_mirror(&c, MirrorEvent::Woke), MirrorStep::Wait));
    c.continuous_mirror_enabled = true;
    assert!(matches!(run_live_mirror(&c, MirrorEvent::Woke), MirrorStep::Snapshot));
    assert!(matches!(run_live_mirror(&c, MirrorEvent::Snapshotted(true)), MirrorStep::Replace));
    assert!(matches!(run_live_mirror(&c, MirrorEvent::Snapshotted(false)), MirrorStep::Discard));
}
