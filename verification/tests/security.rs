use kid_phone_server::handlers::auth::{
    change_password, change_password_form, check_new_password, login, login_outcome,
    refused_event, setup_2fa, setup_2fa_form, ChangePasswordForm,
};
use kid_phone_server::models::{AdminUser, Device};
use kid_phone_server::security::{
    authed_device, bootstrap_admin, check_and_ban_ip_if_needed, checked_totp, client_ip,
    device_token_from, enrollment_code_from, failure_window, gate_redirect,
    generate_device_token, generate_enrollment_code, generate_totp_secret_base32, hash_password,
    hash_pin, hash_pin_with_salt, hash_token, installed_watcher_schema, installed_watcher_version,
    is_account_locked, is_ip_banned, lockout_span, record_failed_login, require_device_token,
    require_full_auth, require_session, reset_failed_login, totp_for_secret, verify_code,
    verify_password, watcher_needs_update, CurrentAdmin, Gate, MAX_FAILED_ATTEMPTS, MIN_PASSWORD_LEN,
    REINSTALL_HINT,
};

fn admin() -> AdminUser {
    AdminUser {
        id: 7,
        username: "parent".into(),
        password_hash: String::new(),
        must_change_password: false,
        totp_secret: None,
        totp_enabled: true,
        failed_login_attempts: 0,
        locked_until: None,
    }
}

fn device() -> Device {
    Device {
        id: 3,
        name: "Phone".into(),
        enrollment_code: None,
        enrollment_code_expires_at: None,
        token_hash: None,
        enrolled_at: None,
        last_seen_at: None,
    }
}

#[test]
fn a_password_fits_its_hash_and_no_other() {
    let hash = hash_password("correct horse battery");
    assert!(hash.starts_with("$argon2"));
    assert!(verify_password("correct horse battery", &hash));
    assert!(!verify_password("correct horse batterz", &hash));
    assert!(!verify_password("correct horse battery", "no hash at all"));
    assert!(!verify_password("correct horse battery", "correct horse battery"));
    assert!(!verify_password("", ""));
    let lanes = |p: &str| hash.replace(",p=1$", &format!(",p={p}$"));
    assert!(verify_password("correct horse battery", &lanes("1")));
    for p in ["2", "16777216", "99999999", "100000000", "536870912", "4294967295", "99999999999"] {
        assert!(!verify_password("correct horse battery", &lanes(p)), "{p}");
    }
    assert_ne!(hash, hash_password("correct horse battery"));
}

#[test]
fn enrollment_codes_are_picked_from_unambiguous_letters() {
    let letters = "23456789ABCDEFGHJKMNPQRSTUVWXYZ";
    assert_eq!(enrollment_code_from(&vec![0, 7, 8, 30, 31, 61, 62, u32::MAX]), "29AZ2Z25");
    for _ in 0..20 {
        let code = generate_enrollment_code();
        assert_eq!(code.len(), 8);
        assert!(code.chars().all(|c| letters.contains(c)));
        assert!(!code.contains(['0', 'O', '1', 'I', 'L']));
    }
}

#[test]
fn tokens_are_random_and_stored_as_digests() {
    assert_eq!(device_token_from(&vec![0x00, 0xff, 0x1a, 0xb0]), "00ff1ab0");
    let a = generate_device_token();
    assert_eq!(a.len(), 64);
    assert!(a.chars().all(|c| c.is_ascii_hexdigit() && !c.is_ascii_uppercase()));
    assert_ne!(a, generate_device_token());
    assert_eq!(
        hash_token("abc"),
        "ba7816bf8f01cfea414140de5dae2223b00361a396177a9cb410ff61f20015ad"
    );
}

#[test]
fn the_client_address_is_the_first_forwarded_one() {
    assert_eq!(client_ip(Some(" 1.2.3.4 , 5.6.7.8"), "9.9.9.9"), "1.2.3.4");
    assert_eq!(client_ip(Some(" , 5.6.7.8"), "9.9.9.9"), "9.9.9.9");
    assert_eq!(client_ip(Some(""), "9.9.9.9"), "9.9.9.9");
    assert_eq!(client_ip(None, "9.9.9.9"), "9.9.9.9");
}

#[test]
fn an_address_is_banned_after_fifteen_failures() {
    assert!(check_and_ban_ip_if_needed(14).is_none());
    let ban = check_and_ban_ip_if_needed(15).unwrap();
    assert_eq!(ban.until, "+1 hours");
    assert_eq!(ban.reason, "15 failed login attempts within 15 minutes");
    assert_eq!(ban.detail, "15 failed attempts");
    assert_eq!(failure_window(), "-15 minutes");
    assert!(is_ip_banned(Some("2026-01-01 10:00:00"), "2026-01-01 09:59:59"));
    assert!(!is_ip_banned(Some("2026-01-01 10:00:00"), "2026-01-01 10:00:00"));
    assert!(!is_ip_banned(None, "2026-01-01 10:00:00"));
}

#[test]
fn an_account_locks_at_the_last_allowed_attempt_and_the_lock_is_not_prolonged() {
    let mut a = admin();
    for n in 1..MAX_FAILED_ATTEMPTS {
        record_failed_login(&mut a, "2026-01-01 10:00:00", "2026-01-01 10:15:00");
        assert_eq!(a.failed_login_attempts, n);
        assert!(!is_account_locked(&a, "2026-01-01 10:00:00"));
    }
    record_failed_login(&mut a, "2026-01-01 10:01:00", "2026-01-01 10:16:00");
    assert_eq!(a.failed_login_attempts, 5);
    assert_eq!(a.locked_until.as_deref(), Some("2026-01-01 10:16:00"));
    assert!(is_account_locked(&a, "2026-01-01 10:15:59"));
    record_failed_login(&mut a, "2026-01-01 10:10:00", "2026-01-01 10:25:00");
    assert_eq!(a.failed_login_attempts, 5);
    assert_eq!(a.locked_until.as_deref(), Some("2026-01-01 10:16:00"));
    assert!(!is_account_locked(&a, "2026-01-01 10:16:00"));
    record_failed_login(&mut a, "2026-01-01 10:20:00", "2026-01-01 10:35:00");
    assert_eq!(a.failed_login_attempts, 6);
    assert_eq!(a.locked_until.as_deref(), Some("2026-01-01 10:35:00"));
    reset_failed_login(&mut a);
    assert_eq!(a.failed_login_attempts, 0);
    assert!(a.locked_until.is_none());
    assert_eq!(lockout_span(), "+15 minutes");
}

#[test]
fn a_fresh_secret_makes_one_time_passwords() {
    let secret = generate_totp_secret_base32();
    assert_eq!(secret.len(), 32);
    let totp = totp_for_secret(&secret, "parent");
    assert_eq!(totp.get_secret_base32(), secret);
    assert_eq!(totp.issuer.as_deref(), Some("Kids Device MDM"));
    assert_eq!(totp.account_name, "parent");
    assert_eq!((totp.digits, totp.skew, totp.step), (6, 1, 30));
}

#[test]
fn one_time_passwords_follow_the_published_example() {
    let totp = checked_totp("GEZDGNBVGY3TQOJQGEZDGNBVGY3TQOJQ", "parent").unwrap();
    assert_eq!(totp.generate(59), "287082");
    assert_eq!(totp.generate(1111111109), "081804");
}

#[test]
fn a_secret_or_a_name_that_cannot_be_used_makes_none() {
    assert!(checked_totp("not base32 !", "parent").is_none());
    assert!(checked_totp("GEZDGNBV", "parent").is_none());
    assert!(checked_totp("GEZDGNBVGY3TQOJQGEZDGNBVGY3TQOJQ", "a:b").is_none());
}

#[test]
fn a_pin_is_hashed_under_its_salt() {
    let salt = vec![7u8; 16];
    let (hash, salt_hex) = hash_pin_with_salt("123456", &salt);
    assert_eq!(salt_hex, "07".repeat(16));
    assert_eq!(hash.len(), 64);
    assert_eq!(hash_pin_with_salt("123456", &salt).0, hash);
    assert_ne!(hash_pin_with_salt("123457", &salt).0, hash);
    let mut key = [0u8; 32];
    pbkdf2::pbkdf2_hmac::<sha2::Sha256>(b"123456", &salt, 210_000, &mut key);
    assert_eq!(hash, hex::encode(key));
    let (fresh, fresh_salt) = hash_pin("123456");
    assert_eq!((fresh.len(), fresh_salt.len()), (64, 32));
    assert_eq!(hash_pin_with_salt("123456", &hex::decode(&fresh_salt).unwrap()).0, fresh);
}

#[test]
fn the_installers_markers_are_read() {
    assert_eq!(installed_watcher_version(Some(" v1.2.3\n")).as_deref(), Some("v1.2.3"));
    assert_eq!(installed_watcher_version(Some("  \n")), None);
    assert_eq!(installed_watcher_version(None), None);
    assert_eq!(installed_watcher_schema(Some(" 2\n")), Some(2));
    assert_eq!(installed_watcher_schema(Some("two")), None);
    assert!(watcher_needs_update(None));
    assert!(watcher_needs_update(Some("x")));
    assert!(watcher_needs_update(Some("1")));
    assert!(!watcher_needs_update(Some("2")));
    assert!(!watcher_needs_update(Some("3")));
    assert!(REINSTALL_HINT.ends_with("install.sh | sudo bash"));
}

#[test]
fn the_first_account_is_made_once() {
    assert!(bootstrap_admin(1, Some("me"), None).is_none());
    let made = bootstrap_admin(0, None, Some("first password")).unwrap();
    assert_eq!(made.username, "admin");
    assert!(made.must_change_password);
    assert!(verify_password("first password", &made.password_hash));
    assert_eq!(bootstrap_admin(0, Some("me"), Some("x")).unwrap().username, "me");
}

#[test]
fn the_pages_open_only_once_everything_is_set_up() {
    let page = |gate: &Gate| gate_redirect(gate);
    assert_eq!(page(&require_session(None)).as_deref(), Some("/login"));
    assert_eq!(page(&require_full_auth(None)).as_deref(), Some("/login"));
    let mut a = admin();
    a.must_change_password = true;
    assert_eq!(page(&require_full_auth(Some(a))).as_deref(), Some("/auth/change-password"));
    let mut a = admin();
    a.totp_enabled = false;
    assert_eq!(page(&require_full_auth(Some(a))).as_deref(), Some("/auth/setup-2fa"));
    let mut a = admin();
    a.must_change_password = true;
    assert!(matches!(require_session(Some(a)), Gate::Admit(CurrentAdmin(a)) if a.id == 7));
    let gate = require_full_auth(Some(admin()));
    assert_eq!(page(&gate), None);
    assert!(matches!(gate, Gate::Admit(CurrentAdmin(a)) if a.username == "parent"));
}

#[test]
fn a_bearer_token_leads_to_its_digest() {
    assert_eq!(require_device_token(Some("Bearer abc")), Ok(hash_token("abc")));
    assert_eq!(require_device_token(Some("bearer abc")), Err("missing bearer token".into()));
    assert_eq!(require_device_token(None), Err("missing bearer token".into()));
    assert_eq!(authed_device(Some(device())).ok().unwrap().0.id, 3);
    assert_eq!(authed_device(None).err().unwrap(), "invalid device token");
}

const SECRET: &str = "GEZDGNBVGY3TQOJQGEZDGNBVGY3TQOJQ";

#[test]
fn logging_in_takes_the_right_password_and_no_bar() {
    let mut a = admin();
    a.totp_enabled = false;
    a.password_hash = hash_password("right password");
    let wrong = Err("Incorrect username or password.".to_string());
    assert_eq!(login(Some(&a), "right password", None, 59, false), Ok(7));
    assert_eq!(login(Some(&a), "wrong password", None, 59, false), wrong);
    assert_eq!(login(Some(&a), "right password", None, 59, true), wrong);
    assert_eq!(login(None, "right password", None, 59, false), wrong);
    assert_eq!(login_outcome(Some(&a), true, true, false), Ok(7));
    assert_eq!(login_outcome(Some(&a), true, false, false), wrong);
    assert_eq!(login_outcome(None, true, true, false), wrong);
}

#[test]
fn with_a_second_factor_a_password_alone_is_not_enough() {
    let mut a = admin();
    a.password_hash = hash_password("right password");
    a.totp_secret = Some(SECRET.into());
    let wrong = Err("Incorrect username or password.".to_string());
    assert_eq!(login(Some(&a), "right password", None, 59, false), wrong);
    assert_eq!(login(Some(&a), "right password", Some(""), 59, false), wrong);
    assert_eq!(login(Some(&a), "right password", Some("287083"), 59, false), wrong);
    assert_eq!(login(Some(&a), "wrong password", Some("287082"), 59, false), wrong);
    assert_eq!(login(Some(&a), "right password", Some("287082"), 59, true), wrong);
    assert_eq!(login(Some(&a), "right password", Some("287082"), 59, false), Ok(7));
    assert_eq!(refused_event(Some(&a), "right password", false), "totp_failed");
    assert_eq!(refused_event(Some(&a), "wrong password", false), "login_failed");
    assert_eq!(refused_event(Some(&a), "right password", true), "login_failed");
    assert_eq!(refused_event(None, "right password", false), "login_failed");
    a.totp_secret = None;
    assert_eq!(login(Some(&a), "right password", Some("287082"), 59, false), wrong);
}

#[test]
fn codes_are_accepted_one_step_early_and_late() {
    let mut a = admin();
    a.totp_secret = Some(SECRET.into());
    for now in [30, 59, 60, 89] {
        assert!(verify_code(&a, "287082", now), "{now}");
    }
    assert!(!verify_code(&a, "287082", 90));
    assert!(verify_code(&a, "755224", 30) && !verify_code(&a, "755224", 60));
    assert!(!verify_code(&a, "28708", 59) && !verify_code(&a, " 287082", 59));
    a.username = "a:b".into();
    assert!(!verify_code(&a, "287082", 59));
}

#[test]
fn the_second_factor_is_switched_on_by_a_code_that_fits() {
    let mut a = admin();
    assert_eq!(setup_2fa_form(&a), Some("/"));
    a.totp_enabled = false;
    assert_eq!(setup_2fa_form(&a), None);
    assert_eq!(setup_2fa(&a, "287082", 59), Err("That code didn't match.".into()));
    a.totp_secret = Some(SECRET.into());
    assert_eq!(setup_2fa(&a, "287082", 59), Ok(()));
    assert_eq!(setup_2fa(&a, "000000", 59), Err("That code didn't match.".into()));
}

#[test]
fn a_password_is_changed_only_to_a_good_one() {
    let mut a = admin();
    a.password_hash = hash_password("old password!");
    let form = |current: &str, new: &str, confirm: &str| ChangePasswordForm {
        current_password: current.into(),
        new_password: new.into(),
        confirm_password: confirm.into(),
    };
    assert_eq!(
        change_password(&a, &form("x", "new password!", "new password!")),
        Err("Current password is incorrect.".into())
    );
    assert_eq!(
        change_password(&a, &form("old password!", "short", "short")),
        Err("New password must be at least 12 characters.".into())
    );
    assert_eq!(
        change_password(&a, &form("old password!", "new password!", "new password?")),
        Err("New passwords don't match.".into())
    );
    let hash = change_password(&a, &form("old password!", "new password!", "new password!"));
    assert!(verify_password("new password!", &hash.unwrap()));
    assert_eq!(MIN_PASSWORD_LEN, 12);
    assert_eq!(check_new_password(true, "twelve bytes", "twelve bytes"), None);
    assert!(check_new_password(true, "eleven byte", "eleven byte").is_some());
    assert_eq!(check_new_password(true, "\u{e9}\u{e9}\u{e9}\u{e9}\u{e9}\u{e9}", "\u{e9}\u{e9}\u{e9}\u{e9}\u{e9}\u{e9}"), None);
}

#[test]
fn the_change_password_page_is_for_those_who_must() {
    let mut a = admin();
    assert_eq!(change_password_form(&a), Some("/"));
    a.must_change_password = true;
    assert_eq!(change_password_form(&a), None);
}
