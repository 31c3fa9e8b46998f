//! Logging in and changing the password.

use crate::models::AdminUser;
use crate::security::{
    code_fits, codes_have_a_time, full_gate, hash_password, hashable, is_hash_of, password_fits,
    verify_code, verify_password, MIN_PASSWORD_LEN,
};
use crate::text::{opt_str_view, opt_view, same_text};
use vstd::prelude::*;
use vstd::utf8::encode_utf8;

verus! {

/// The login form. The code is that of an authenticator app.
pub struct LoginForm {
    pub username: String,
    pub password: String,
    pub code: Option<String>,
}

/// The second factor of an account was given: the code fits, or the account
/// has no second factor yet.
pub open spec fn second_factor_given(admin: AdminUser, code: Option<Seq<char>>, now: u64) -> bool {
    admin.totp_enabled ==> code is Some && code_fits(
        opt_view(admin.totp_secret),
        admin.username@,
        code->0,
        now,
    )
}

/// The visitor is logged in: the account is there and nothing bars it, the
/// password fits, and so does the code once the account has a second factor.
pub open spec fn logs_in(
    admin: Option<AdminUser>,
    password: Seq<char>,
    code: Option<Seq<char>>,
    now: u64,
    barred: bool,
) -> bool {
    &&& !barred
    &&& admin is Some
    &&& password_fits(password, admin->0.password_hash@)
    &&& second_factor_given(admin->0, code, now)
}

/// What an optional reference points to.
pub open spec fn pointed_at(admin: Option<&AdminUser>) -> Option<AdminUser> {
    match admin {
        Some(a) => Some(*a),
        None => None,
    }
}

/// The number of the account that a visitor is logged in to, or what the page
/// says. `admin` is the account with the given name, if there is one; `now` is
/// the time in seconds since 1970; `barred` tells whether the account is
/// locked or the visitor's address banned. The message does not tell what was
/// wrong.
pub fn login(
    admin: Option<&AdminUser>,
    password: &str,
    code: Option<&str>,
    now: u64,
    barred: bool,
) -> (r: Result<i64, String>)
    requires
        codes_have_a_time(now),
    ensures
        match r {
            Ok(id) => logs_in(pointed_at(admin), password@, opt_str_view(code), now, barred) && id
                == admin->0.id,
            Err(message) => {
                &&& !logs_in(pointed_at(admin), password@, opt_str_view(code), now, barred)
                &&& message@ == "Incorrect username or password."@
            },
        },
{
    let (valid, passed) = match admin {
        Some(a) => {
            let passed = if a.totp_enabled {
                match code {
                    Some(text) => verify_code(a, text, now),
                    None => false,
                }
            } else {
                true
            };
            (verify_password(password, a.password_hash.as_str()), passed)
        },
        None => (false, false),
    };
    login_outcome(admin, valid, passed, barred)
}

/// The outcome of a login, given whether the password fits and whether the
/// second factor was given.
pub fn login_outcome(admin: Option<&AdminUser>, valid: bool, passed: bool, barred: bool) -> (r:
    Result<i64, String>)
    ensures
        match r {
            Ok(id) => !barred && valid && passed && admin is Some && id == admin->0.id,
            Err(message) => (barred || !valid || !passed || admin is None) && message@
                == "Incorrect username or password."@,
        },
{
    match admin {
        Some(a) => if valid && passed && !barred {
            Ok(a.id)
        } else {
            Err("Incorrect username or password.".to_owned())
        },
        None => Err("Incorrect username or password.".to_owned()),
    }
}

/// What the security log says of a login that was refused, by whether it was
/// the second factor alone that failed.
pub fn refused_event(admin: Option<&AdminUser>, password: &str, barred: bool) -> (r: &'static str)
    ensures
        r@ == if !barred && admin is Some && password_fits(password@, admin->0.password_hash@) {
            "totp_failed"@
        } else {
            "login_failed"@
        },
{
    let valid = match admin {
        Some(a) => verify_password(password, a.password_hash.as_str()),
        None => false,
    };
    if valid && !barred {
        "totp_failed"
    } else {
        "login_failed"
    }
}

/// A password alone never opens the admin pages: whoever is let through to
/// them has logged in to an account with a second factor and given a code that
/// fits.
pub proof fn law_password_alone_opens_nothing(
    admin: AdminUser,
    password: Seq<char>,
    code: Option<Seq<char>>,
    now: u64,
    barred: bool,
)
    requires
        logs_in(Some(admin), password, code, now, barred),
        full_gate(Some(admin)) is Admit,
    ensures
        code is Some,
        code_fits(opt_view(admin.totp_secret), admin.username@, code->0, now),
{
}

// ----- setting up the second factor -----

/// Where a visitor to the page that sets up the second factor is sent instead;
/// nothing for one who has none yet.
pub fn setup_2fa_form(admin: &AdminUser) -> (r: Option<&'static str>)
    ensures
        match r {
            Some(page) => admin.totp_enabled && page@ == "/"@,
            None => !admin.totp_enabled,
        },
{
    if admin.totp_enabled {
        Some("/")
    } else {
        None
    }
}

/// Whether the second factor of an account is switched on, or what the page
/// says: the code has to be one that the account's new secret gives.
pub fn setup_2fa(admin: &AdminUser, code: &str, now: u64) -> (r: Result<(), String>)
    requires
        codes_have_a_time(now),
    ensures
        match r {
            Ok(_) => code_fits(opt_view(admin.totp_secret), admin.username@, code@, now),
            Err(message) => {
                &&& !code_fits(opt_view(admin.totp_secret), admin.username@, code@, now)
                &&& message@ == "That code didn't match."@
            },
        },
{
    if verify_code(admin, code, now) {
        Ok(())
    } else {
        Err("That code didn't match.".to_owned())
    }
}

// ----- changing the password -----

/// Where a visitor to the change-password page is sent instead; nothing for
/// one who has to change the password.
pub fn change_password_form(admin: &AdminUser) -> (r: Option<&'static str>)
    ensures
        match r {
            Some(page) => !admin.must_change_password && page@ == "/"@,
            None => admin.must_change_password,
        },
{
    if admin.must_change_password {
        None
    } else {
        Some("/")
    }
}

/// The form that changes a password.
pub struct ChangePasswordForm {
    pub current_password: String,
    pub new_password: String,
    pub confirm_password: String,
}

/// What is wrong with a new password, given whether the current one was right.
pub open spec fn password_fault(
    current_fits: bool,
    new_password: Seq<char>,
    confirm_password: Seq<char>,
) -> Option<Seq<char>> {
    if !current_fits {
        Some("Current password is incorrect."@)
    } else if encode_utf8(new_password).len() < MIN_PASSWORD_LEN {
        Some("New password must be at least 12 characters."@)
    } else if new_password != confirm_password {
        Some("New passwords don't match."@)
    } else {
        None
    }
}

/// What is wrong with a new password, given whether the current one was right.
pub fn check_new_password(current_fits: bool, new_password: &str, confirm_password: &str) -> (r:
    Option<&'static str>)
    ensures
        crate::text::opt_str_view(r) == password_fault(
            current_fits,
            new_password@,
            confirm_password@,
        ),
{
    if !current_fits {
        return Some("Current password is incorrect.");
    }
    if new_password.as_bytes().len() < MIN_PASSWORD_LEN {
        return Some("New password must be at least 12 characters.");
    }
    if !same_text(new_password, confirm_password) {
        return Some("New passwords don't match.");
    }
    None
}

/// The hash to store for a new password, or what is wrong with the form. The
/// new password fits the hash.
pub fn change_password(admin: &AdminUser, form: &ChangePasswordForm) -> (r: Result<String, String>)
    requires
        hashable(form.new_password@),
    ensures
        match password_fault(
            password_fits(form.current_password@, admin.password_hash@),
            form.new_password@,
            form.confirm_password@,
        ) {
            Some(fault) => r is Err && r->Err_0@ == fault,
            None => {
                &&& r is Ok
                &&& is_hash_of(form.new_password@, r->Ok_0@)
                &&& password_fits(form.new_password@, r->Ok_0@)
            },
        },
{
    let current_fits = verify_password(
        form.current_password.as_str(),
        admin.password_hash.as_str(),
    );
    match check_new_password(
        current_fits,
        form.new_password.as_str(),
        form.confirm_password.as_str(),
    ) {
        Some(fault) => Err(fault.to_owned()),
        None => Ok(hash_password(form.new_password.as_str())),
    }
}

// ----- what holds of these -----

/// Who is not barred and gives the right password is logged in just if the
/// account has no second factor or a code is given that fits. A wrong password,
/// an account that is not there or a bar lets no one in.
pub proof fn law_who_is_logged_in(
    admin: AdminUser,
    password: Seq<char>,
    code: Seq<char>,
    now: u64,
    barred: bool,
)
    ensures
        !barred && password_fits(password, admin.password_hash@) && !admin.totp_enabled ==> logs_in(
            Some(admin),
            password,
            Some(code),
            now,
            barred,
        ) && logs_in(Some(admin), password, None, now, barred),
        !barred && password_fits(password, admin.password_hash@) && admin.totp_enabled ==> {
            &&& logs_in(Some(admin), password, Some(code), now, barred) <==> code_fits(
                opt_view(admin.totp_secret),
                admin.username@,
                code,
                now,
            )
            &&& !logs_in(Some(admin), password, None, now, barred)
        },
        barred || !password_fits(password, admin.password_hash@) ==> !logs_in(
            Some(admin),
            password,
            Some(code),
            now,
            barred,
        ) && !logs_in(Some(admin), password, None, now, barred),
        !logs_in(None, password, Some(code), now, barred),
{
}

/// A new password is taken just if the current one was right, the new one has at
/// least twelve bytes, and it was given the same way twice. What is said otherwise
/// is the first of these that fails.
pub proof fn law_new_passwords_are_long_and_confirmed(
    current_fits: bool,
    new_password: Seq<char>,
    confirm_password: Seq<char>,
)
    ensures
        password_fault(current_fits, new_password, confirm_password) is None <==> current_fits
            && encode_utf8(new_password).len() >= 12 && confirm_password == new_password,
        !current_fits ==> password_fault(current_fits, new_password, confirm_password) == Some(
            "Current password is incorrect."@,
        ),
        current_fits && encode_utf8(new_password).len() < 12 ==> password_fault(
            current_fits,
            new_password,
            confirm_password,
        ) == Some("New password must be at least 12 characters."@),
        current_fits && encode_utf8(new_password).len() >= 12 && confirm_password != new_password
            ==> password_fault(current_fits, new_password, confirm_password) == Some(
            "New passwords don't match."@,
        ),
{
}

} // verus!
