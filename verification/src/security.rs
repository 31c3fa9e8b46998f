//! Passwords, tokens, PINs and one-time passwords, and who is let in.

use crate::models::{AdminUser, Device};
use crate::numbers::{as_u32, i64_text, lemma_number_text, number_text, parse_u32};
use crate::order::{lemma_text_trichotomy, less_text, text_less};
use crate::outside::{
    argon2_hash, argon2_phc, argon2_verdict, argon2_verify, base32_decode, base32_decoded,
    base32_encode, base32_encoded, hex_encode, hex_text, is_code, is_hex, lanes_fit, lemma_hex_text,
    many_lanes_at, may_be_phc, pbkdf2_key, pbkdf2_sha256, random_bytes, random_totp_secret, random_u32,
    sha256, sha256_of, totp_accepts, totp_of, totp_sha1_check, totp_sha1_new,
};
use crate::text::{
    before, before_first, behind_prefix, chars_of, contains_char, digit, is_digit,
    lemma_position_is, opt_str_view, opt_view, strip_prefix, trim, trimmed,
};
use vstd::prelude::*;
use vstd::utf8::encode_utf8;

verus! {

/// The shortest password that is accepted, in bytes.
pub const MIN_PASSWORD_LEN: usize = 12;

/// Failed attempts against one account before it locks.
pub const MAX_FAILED_ATTEMPTS: i64 = 5;

/// How long a locked account stays locked.
pub const LOCKOUT_MINUTES: i64 = 15;

/// Failed attempts from one address, against any account, before the address
/// is banned.
pub const MAX_FAILED_PER_IP: i64 = 15;

/// How far back failed attempts from one address count.
pub const IP_FAILURE_WINDOW_MINUTES: i64 = 15;

/// How long a ban lasts.
pub const IP_BAN_HOURS: i64 = 1;

/// Rounds of PBKDF2 for a PIN.
pub const PIN_PBKDF2_ROUNDS: u32 = 210_000;

/// Bytes of salt for a PIN.
pub const PIN_SALT_LEN: usize = 16;

/// The set of privileged actions that the root-side scripts must know.
pub const REQUIRED_WATCHER_SCHEMA: u32 = 2;

/// How to bring the root-side scripts up to date.
pub const REINSTALL_HINT: &'static str =
    "curl -sSL https://raw.githubusercontent.com/siesta5787/kid-phone-server/master/deploy/install.sh | sudo bash";

// ----- passwords -----

/// The password fits the stored hash. Nothing fits a hash with more lanes than
/// Argon2 has.
pub open spec fn password_fits(password: Seq<char>, hash: Seq<char>) -> bool {
    lanes_fit(hash) && argon2_verdict(encode_utf8(password), hash) == Some(true)
}

/// The text is an Argon2 hash of the password under some salt.
pub open spec fn is_hash_of(password: Seq<char>, hash: Seq<char>) -> bool {
    exists|salt: Seq<u8>|
        salt.len() == 16 && hash == #[trigger] argon2_phc(encode_utf8(password), salt)
}

/// A password that is short enough to be hashed: hashing fails on one that is
/// longer than a `u32` can count.
pub open spec fn hashable(password: Seq<char>) -> bool {
    encode_utf8(password).len() <= 0xFFFF_FFFF
}

/// Hashes a password under a fresh salt. The password fits the hash.
pub fn hash_password(password: &str) -> (r: String)
    requires
        hashable(password@),
    ensures
        is_hash_of(password@, r@),
        password_fits(password@, r@),
{
    let salt = random_bytes(16);
    let r = argon2_hash(password, salt.as_slice());
    proof {
        assert(r@ == argon2_phc(encode_utf8(password@), salt@));
    }
    r
}

/// Two passwords are told apart by their hashes under a salt. Argon2 is meant
/// to do so for any two; that it does is a matter of chance.
pub open spec fn told_apart(a: Seq<char>, b: Seq<char>, salt: Seq<u8>) -> bool {
    argon2_phc(encode_utf8(a), salt) == argon2_phc(encode_utf8(b), salt) ==> a == b
}

/// Whether a hash has no more lanes than Argon2 can have.
fn has_few_lanes(hash: &str) -> (r: bool)
    ensures
        r == lanes_fit(hash@),
{
    let chars = chars_of(hash);
    let mut i: usize = 0;
    while i < chars.len()
        invariant
            chars@ == hash@,
            i <= chars@.len(),
            forall|k: int| 0 <= k < i ==> !#[trigger] many_lanes_at(hash@, k),
        decreases chars@.len() - i,
    {
        if chars.len() - i >= 11 && chars[i] == 'p' && chars[i + 1] == '=' {
            let end: usize = i + 11;
            let mut j: usize = i + 2;
            while j < end && digit(chars[j])
                invariant
                    chars@ == hash@,
                    i + 2 <= j <= end <= chars@.len(),
                    forall|k: int| i + 2 <= k < j ==> is_digit(#[trigger] hash@[k]),
                decreases end - j,
            {
                j += 1;
            }
            if j == end {
                proof {
                    assert(many_lanes_at(hash@, i as int));
                }
                return false;
            }
            proof {
                assert(!is_digit(hash@[j as int]));
                assert(!many_lanes_at(hash@, i as int));
            }
        }
        i += 1;
    }
    true
}

/// Whether a password fits a stored hash. Nothing fits what is no hash, such
/// as a text that does not start with a dollar sign. The hash of a password is
/// fitted by that password and, as far as hashes tell passwords apart, by no
/// other.
pub fn verify_password(password: &str, hash: &str) -> (r: bool)
    ensures
        r == password_fits(password@, hash@),
        r ==> may_be_phc(hash@),
        forall|other: Seq<char>, salt: Seq<u8>|
            hash@ == #[trigger] argon2_phc(encode_utf8(other), salt) && lanes_fit(hash@)
                && salt.len() == 16 && hashable(other) && told_apart(password@, other, salt) ==> r
                == (password@ == other),
{
    if !has_few_lanes(hash) {
        return false;
    }
    match argon2_verify(password, hash) {
        Some(fits) => fits,
        None => false,
    }
}

// ----- codes and tokens -----

/// The characters of an enrollment code: none that is easily taken for
/// another.
pub open spec fn code_letters() -> Seq<char> {
    "23456789ABCDEFGHJKMNPQRSTUVWXYZ"@
}

/// The enrollment code that eight numbers pick.
pub open spec fn code_of(picks: Seq<u32>) -> Seq<char> {
    Seq::new(picks.len(), |i: int| code_letters()[picks[i] as int % 31])
}

/// A code of eight characters, all of them code letters.
pub open spec fn is_enrollment_code(code: Seq<char>) -> bool {
    code.len() == 8 && forall|i: int|
        0 <= i < code.len() ==> code_letters().contains(#[trigger] code[i])
}

/// The enrollment code that some numbers pick.
pub fn enrollment_code_from(picks: &Vec<u32>) -> (r: String)
    ensures
        r@ == code_of(picks@),
{
    proof {
        reveal_strlit("23456789ABCDEFGHJKMNPQRSTUVWXYZ");
    }
    let letters = chars_of("23456789ABCDEFGHJKMNPQRSTUVWXYZ");
    let mut code = String::new();
    let mut i: usize = 0;
    proof {
        assert(code@ =~= code_of(picks@).take(0));
    }
    while i < picks.len()
        invariant
            letters@ == code_letters(),
            letters@.len() == 31,
            i <= picks@.len(),
            code@ == code_of(picks@).take(i as int),
        decreases picks@.len() - i,
    {
        let k: u32 = picks[i] % 31;
        code.push(letters[k as usize]);
        proof {
            assert(code@ =~= code_of(picks@).take(i + 1));
        }
        i += 1;
    }
    proof {
        assert(code_of(picks@).take(i as int) =~= code_of(picks@));
    }
    code
}

/// A fresh enrollment code, to be typed into the phone.
pub fn generate_enrollment_code() -> (r: String)
    ensures
        is_enrollment_code(r@),
{
    let mut picks: Vec<u32> = Vec::new();
    let mut i: usize = 0;
    while i < 8
        invariant
            i <= 8,
            picks@.len() == i,
        decreases 8 - i,
    {
        picks.push(random_u32());
        i += 1;
    }
    proof {
        reveal_strlit("23456789ABCDEFGHJKMNPQRSTUVWXYZ");
        assert forall|k: int| 0 <= k < code_of(picks@).len() implies code_letters().contains(
            #[trigger] code_of(picks@)[k],
        ) by {
            assert(code_letters()[picks@[k] as int % 31] == code_of(picks@)[k]);
        }
    }
    enrollment_code_from(&picks)
}

/// An enrollment code holds no character that could be taken for another.
pub proof fn law_codes_are_unambiguous(code: Seq<char>, i: int)
    requires
        is_enrollment_code(code),
        0 <= i < code.len(),
    ensures
        code[i] != '0',
        code[i] != 'O',
        code[i] != '1',
        code[i] != 'I',
        code[i] != 'L',
{
    reveal_strlit("23456789ABCDEFGHJKMNPQRSTUVWXYZ");
    assert(code_letters().contains(code[i]));
}

/// Sixty-four hexadecimal digits.
pub open spec fn is_device_token(token: Seq<char>) -> bool {
    exists|bytes: Seq<u8>| bytes.len() == 32 && token == #[trigger] hex_text(bytes)
}

/// The token that some random bytes make.
pub fn device_token_from(bytes: &Vec<u8>) -> (r: String)
    ensures
        r@ == hex_text(bytes@),
{
    hex_encode(bytes.as_slice())
}

/// A fresh token for a phone. Only its digest is stored.
pub fn generate_device_token() -> (r: String)
    ensures
        is_device_token(r@),
{
    device_token_from(&random_bytes(32))
}

/// The digest under which a token is stored.
pub open spec fn token_digest(token: Seq<char>) -> Seq<char> {
    hex_text(sha256_of(encode_utf8(token)))
}

/// The digest under which a token is stored.
pub fn hash_token(token: &str) -> (r: String)
    ensures
        r@ == token_digest(token@),
{
    hex_encode(sha256(token.as_bytes()).as_slice())
}

// ----- addresses -----

/// The address of a client: what a reverse proxy put first into the
/// forwarding header, or else the peer.
pub open spec fn client_address(forwarded: Option<Seq<char>>, peer: Seq<char>) -> Seq<char> {
    match forwarded {
        Some(list) => {
            let first = trimmed(before_first(list, ','));
            if first.len() == 0 {
                peer
            } else {
                first
            }
        },
        None => peer,
    }
}

/// The address of a client. `forwarded` is the forwarding header, if there is
/// one that can be read as text.
pub fn client_ip(forwarded: Option<&str>, peer: &str) -> (r: String)
    ensures
        r@ == client_address(opt_str_view(forwarded), peer@),
{
    match forwarded {
        Some(list) => {
            let first = trim(before(list, ',').as_str());
            if first.as_str().is_empty() {
                peer.to_owned()
            } else {
                first
            }
        },
        None => peer.to_owned(),
    }
}

/// A ban that is about to be entered.
pub struct IpBan {
    /// How far from now the ban ends, as the database takes it.
    pub until: String,
    pub reason: String,
    /// What the security log says.
    pub detail: String,
}

/// How far back failed attempts count, as the database takes it.
pub fn failure_window() -> (r: String)
    ensures
        r@ == "-"@ + number_text(IP_FAILURE_WINDOW_MINUTES as int) + " minutes"@,
{
    let mut r = "-".to_owned();
    r.append(i64_text(IP_FAILURE_WINDOW_MINUTES).as_str());
    r.append(" minutes");
    r
}

/// Whether an address is to be banned, after so many recent failures.
pub fn check_and_ban_ip_if_needed(recent_failures: i64) -> (r: Option<IpBan>)
    ensures
        r is Some <==> recent_failures >= MAX_FAILED_PER_IP,
        r matches Some(ban) ==> {
            &&& ban.until@ == "+"@ + number_text(IP_BAN_HOURS as int) + " hours"@
            &&& ban.reason@ == number_text(recent_failures as int)
                + " failed login attempts within "@ + number_text(
                IP_FAILURE_WINDOW_MINUTES as int,
            ) + " minutes"@
            &&& ban.detail@ == number_text(recent_failures as int) + " failed attempts"@
        },
{
    if recent_failures < MAX_FAILED_PER_IP {
        return None;
    }
    let mut until = "+".to_owned();
    until.append(i64_text(IP_BAN_HOURS).as_str());
    until.append(" hours");
    let mut reason = i64_text(recent_failures);
    reason.append(" failed login attempts within ");
    reason.append(i64_text(IP_FAILURE_WINDOW_MINUTES).as_str());
    reason.append(" minutes");
    let mut detail = i64_text(recent_failures);
    detail.append(" failed attempts");
    Some(IpBan { until, reason, detail })
}

/// Whether a ban, if there is one, still holds. Times are texts of one form,
/// so that the later one is the greater text.
pub fn is_ip_banned(banned_until: Option<&str>, now: &str) -> (r: bool)
    ensures
        r == still_ahead(opt_str_view(banned_until), now@),
{
    match banned_until {
        Some(end) => less_text(now, end),
        None => false,
    }
}

// ----- account lockout -----

/// There is a time and it has not come yet.
pub open spec fn still_ahead(time: Option<Seq<char>>, now: Seq<char>) -> bool {
    match time {
        Some(end) => text_less(now, end),
        None => false,
    }
}

/// What an account remembers of failed attempts.
pub struct Lockout {
    pub attempts: int,
    pub locked_until: Option<Seq<char>>,
}

impl AdminUser {
    /// What this account remembers of failed attempts.
    pub open spec fn lockout(&self) -> Lockout {
        Lockout {
            attempts: self.failed_login_attempts as int,
            locked_until: opt_view(self.locked_until),
        }
    }

    /// The two accounts differ at most in what they remember of failed
    /// attempts.
    pub open spec fn same_but_lockout(&self, other: &AdminUser) -> bool {
        &&& self.id == other.id
        &&& self.username == other.username
        &&& self.password_hash == other.password_hash
        &&& self.must_change_password == other.must_change_password
        &&& self.totp_secret == other.totp_secret
        &&& self.totp_enabled == other.totp_enabled
    }
}

/// What an account remembers after one more failed attempt. A locked account
/// is left alone, so that no amount of attempts prolongs the lock.
pub open spec fn after_failure(s: Lockout, now: Seq<char>, lock_end: Seq<char>) -> Lockout {
    if still_ahead(s.locked_until, now) {
        s
    } else if s.attempts + 1 >= MAX_FAILED_ATTEMPTS {
        Lockout { attempts: s.attempts + 1, locked_until: Some(lock_end) }
    } else {
        Lockout { attempts: s.attempts + 1, ..s }
    }
}

/// What an account remembers after several failed attempts, each with its
/// time and with the end of a lock that would start then.
pub open spec fn after_failures(s: Lockout, tries: Seq<(Seq<char>, Seq<char>)>) -> Lockout
    decreases tries.len(),
{
    if tries.len() == 0 {
        s
    } else {
        after_failure(after_failures(s, tries.drop_last()), tries.last().0, tries.last().1)
    }
}

/// Whether an account is locked at this time.
pub fn is_account_locked(admin: &AdminUser, now: &str) -> (r: bool)
    ensures
        r == still_ahead(admin.lockout().locked_until, now@),
{
    match &admin.locked_until {
        Some(end) => less_text(now, end.as_str()),
        None => false,
    }
}

/// How long an account is locked, as the database takes it.
pub fn lockout_span() -> (r: String)
    ensures
        r@ == "+"@ + number_text(LOCKOUT_MINUTES as int) + " minutes"@,
{
    let mut r = "+".to_owned();
    r.append(i64_text(LOCKOUT_MINUTES).as_str());
    r.append(" minutes");
    r
}

/// Records one failed attempt. `lock_end` is the time at which a lock that
/// starts now is over.
pub fn record_failed_login(admin: &mut AdminUser, now: &str, lock_end: &str)
    requires
        old(admin).failed_login_attempts < i64::MAX,
    ensures
        final(admin).lockout() == after_failure(old(admin).lockout(), now@, lock_end@),
        final(admin).same_but_lockout(old(admin)),
{
    if is_account_locked(admin, now) {
        return;
    }
    admin.failed_login_attempts = admin.failed_login_attempts + 1;
    if admin.failed_login_attempts >= MAX_FAILED_ATTEMPTS {
        admin.locked_until = Some(lock_end.to_owned());
    }
}

/// Forgets all failed attempts.
pub fn reset_failed_login(admin: &mut AdminUser)
    ensures
        final(admin).lockout() == (Lockout { attempts: 0, locked_until: None }),
        final(admin).same_but_lockout(old(admin)),
{
    admin.failed_login_attempts = 0;
    admin.locked_until = None;
}

/// However many attempts fail while an account is locked, it remembers
/// nothing of them: the lock ends when it would have.
pub proof fn law_lock_is_not_prolonged(s: Lockout, tries: Seq<(Seq<char>, Seq<char>)>)
    requires
        forall|i: int| 0 <= i < tries.len() ==> still_ahead(s.locked_until, #[trigger] tries[i].0),
    ensures
        after_failures(s, tries) == s,
    decreases tries.len(),
{
    if tries.len() > 0 {
        let fewer = tries.drop_last();
        assert forall|i: int| 0 <= i < fewer.len() implies still_ahead(
            s.locked_until,
            #[trigger] fewer[i].0,
        ) by {
            assert(fewer[i] == tries[i]);
        }
        law_lock_is_not_prolonged(s, fewer);
        assert(still_ahead(s.locked_until, tries[tries.len() - 1].0));
    }
}

/// An account without failed attempts stays open through fewer than the
/// allowed number of them and is locked by the last allowed one, for as long
/// as a lock that starts then.
pub proof fn law_locks_after_the_allowed_attempts(tries: Seq<(Seq<char>, Seq<char>)>)
    requires
        tries.len() <= MAX_FAILED_ATTEMPTS,
    ensures
        ({
            let fresh = Lockout { attempts: 0, locked_until: None };
            after_failures(fresh, tries) == Lockout {
                attempts: tries.len() as int,
                locked_until: if tries.len() == MAX_FAILED_ATTEMPTS {
                    Some(tries.last().1)
                } else {
                    None
                },
            }
        }),
    decreases tries.len(),
{
    if tries.len() > 0 {
        law_locks_after_the_allowed_attempts(tries.drop_last());
    }
}

// ----- one-time passwords -----

/// The name under which an authenticator app shows the accounts.
pub open spec fn totp_issuer() -> Seq<char> {
    "Kids Device MDM"@
}

/// The secret is base32 and long enough.
pub open spec fn usable_secret(secret: Seq<char>) -> bool {
    base32_decoded(secret) is Some && base32_decoded(secret)->0.len() >= 16
}

/// The digits of a code.
pub const TOTP_DIGITS: usize = 6;

/// By how many steps a code may be early or late.
pub const TOTP_SKEW: u8 = 1;

/// How long a code is shown, in seconds.
pub const TOTP_STEP: u64 = 30;

/// The time is one that codes can be checked at: not within the first step of
/// 1970, nor at the very end of what can be counted.
pub open spec fn codes_have_a_time(now: u64) -> bool {
    TOTP_STEP <= now <= u64::MAX - 2 * TOTP_STEP
}

/// The one-time passwords of an account, from its stored secret.
pub open spec fn account_totp(secret: Seq<char>, username: Seq<char>) -> totp_rs::TOTP {
    totp_of(
        base32_decoded(secret)->0,
        totp_issuer(),
        username,
        TOTP_DIGITS,
        TOTP_SKEW,
        TOTP_STEP,
    )
}

/// The one-time passwords of an account, from its stored secret.
pub fn totp_for_secret(secret_base32: &str, username: &str) -> (r: totp_rs::TOTP)
    requires
        usable_secret(secret_base32@),
        !username@.contains(':'),
    ensures
        r == account_totp(secret_base32@, username@),
{
    proof {
        reveal_strlit("Kids Device MDM");
    }
    let bytes = base32_decode(secret_base32).unwrap();
    totp_sha1_new(bytes, "Kids Device MDM", username, TOTP_DIGITS, TOTP_SKEW, TOTP_STEP).unwrap()
}

/// The one-time passwords of an account; nothing where the secret or the name
/// allows of none.
pub fn checked_totp(secret_base32: &str, username: &str) -> (r: Option<totp_rs::TOTP>)
    ensures
        r is Some <==> usable_secret(secret_base32@) && !username@.contains(':'),
        r matches Some(totp) ==> totp == account_totp(secret_base32@, username@),
{
    match base32_decode(secret_base32) {
        Some(bytes) => if bytes.len() >= 16 && !contains_char(username, ':') {
            Some(totp_for_secret(secret_base32, username))
        } else {
            None
        },
        None => None,
    }
}

/// The code is one that an account's secret gives at a time.
pub open spec fn code_fits(
    secret: Option<Seq<char>>,
    username: Seq<char>,
    code: Seq<char>,
    now: u64,
) -> bool {
    &&& secret is Some
    &&& usable_secret(secret->0)
    &&& !username.contains(':')
    &&& totp_accepts(
        base32_decoded(secret->0)->0,
        TOTP_DIGITS,
        TOTP_SKEW,
        TOTP_STEP,
        code,
        now,
    )
}

/// Whether a code is one that an account's secret gives at a time, in seconds
/// since 1970. An account without a secret that can be used has no codes.
pub fn verify_code(admin: &AdminUser, code: &str, now: u64) -> (r: bool)
    requires
        codes_have_a_time(now),
    ensures
        r == code_fits(opt_view(admin.totp_secret), admin.username@, code@, now),
        r ==> is_code(code@, TOTP_DIGITS),
{
    let bytes = match &admin.totp_secret {
        Some(secret) => match base32_decode(secret.as_str()) {
            Some(bytes) => bytes,
            None => {
                return false;
            },
        },
        None => {
            return false;
        },
    };
    proof {
        reveal_strlit("Kids Device MDM");
        assert(now as int / 30 >= 1 && (now as int / 30 + 1) * 30 <= u64::MAX) by (nonlinear_arith)
            requires
                30 <= now <= u64::MAX - 60,
        ;
    }
    match totp_sha1_check(
        bytes,
        "Kids Device MDM",
        admin.username.as_str(),
        TOTP_DIGITS,
        TOTP_SKEW,
        TOTP_STEP,
        code,
        now,
    ) {
        Some(accepted) => accepted,
        None => false,
    }
}

/// A fresh secret, which is one that can be used.
pub fn generate_totp_secret_base32() -> (r: String)
    ensures
        exists|bytes: Seq<u8>| bytes.len() == 20 && r@ == #[trigger] base32_encoded(bytes),
        usable_secret(r@),
{
    let bytes = random_totp_secret();
    let ghost raw = bytes@;
    let r = base32_encode(bytes);
    proof {
        assert(r@ == base32_encoded(raw));
    }
    r
}

// ----- PINs -----

/// The hash and the salt of a PIN, both in hexadecimal.
pub open spec fn is_pin_hash(pin: Seq<char>, hash: Seq<char>, salt: Seq<char>) -> bool {
    exists|bytes: Seq<u8>|
        bytes.len() == PIN_SALT_LEN && salt == #[trigger] hex_text(bytes) && hash == hex_text(
            pbkdf2_key(encode_utf8(pin), bytes, PIN_PBKDF2_ROUNDS),
        ) && pbkdf2_key(encode_utf8(pin), bytes, PIN_PBKDF2_ROUNDS).len() == 32
}

/// The hash of a PIN under a given salt, and the salt.
pub fn hash_pin_with_salt(pin: &str, salt: &Vec<u8>) -> (r: (String, String))
    ensures
        r.0@ == hex_text(pbkdf2_key(encode_utf8(pin@), salt@, PIN_PBKDF2_ROUNDS)),
        pbkdf2_key(encode_utf8(pin@), salt@, PIN_PBKDF2_ROUNDS).len() == 32,
        r.0@.len() == 64 && is_hex(r.0@),
        r.1@ == hex_text(salt@),
{
    let key = pbkdf2_sha256(pin, salt.as_slice(), PIN_PBKDF2_ROUNDS);
    proof {
        lemma_hex_text(key@);
    }
    (hex_encode(key.as_slice()), hex_encode(salt.as_slice()))
}

/// Hashes a PIN under a fresh salt. The phone checks a PIN by itself, with
/// the hash and the salt that its policy carries.
pub fn hash_pin(pin: &str) -> (r: (String, String))
    ensures
        is_pin_hash(pin@, r.0@, r.1@),
        r.0@.len() == 64 && is_hex(r.0@),
        r.1@.len() == 32 && is_hex(r.1@),
{
    let salt = random_bytes(PIN_SALT_LEN);
    let r = hash_pin_with_salt(pin, &salt);
    proof {
        lemma_hex_text(salt@);
        assert(r.1@ == hex_text(salt@));
    }
    r
}

// ----- the root-side scripts -----

/// A text without the white space around it, unless nothing is left of it.
pub open spec fn filled(text: Option<Seq<char>>) -> Option<Seq<char>> {
    match text {
        Some(s) => if trimmed(s).len() == 0 {
            None
        } else {
            Some(trimmed(s))
        },
        None => None,
    }
}

/// The version that the installer left in its marker file, given what the
/// file holds.
pub fn installed_watcher_version(contents: Option<&str>) -> (r: Option<String>)
    ensures
        opt_view(r) == filled(opt_str_view(contents)),
{
    match contents {
        Some(s) => {
            let installed = trim(s);
            if installed.as_str().is_empty() {
                None
            } else {
                Some(installed)
            }
        },
        None => None,
    }
}

/// The number in the schema marker, if there is one.
pub open spec fn schema_in(contents: Option<Seq<char>>) -> Option<int> {
    match contents {
        Some(s) => as_u32(trimmed(s)),
        None => None,
    }
}

/// The number in the schema marker, given what the file holds.
pub fn installed_watcher_schema(contents: Option<&str>) -> (r: Option<u32>)
    ensures
        match r {
            Some(v) => schema_in(opt_str_view(contents)) == Some(v as int),
            None => schema_in(opt_str_view(contents)) is None,
        },
{
    match contents {
        Some(s) => parse_u32(trim(s).as_str()),
        None => None,
    }
}

/// Whether the root-side scripts lack an action that may be needed. Scripts
/// of an unknown version do.
pub fn watcher_needs_update(contents: Option<&str>) -> (r: bool)
    ensures
        r == match schema_in(opt_str_view(contents)) {
            Some(v) => v < REQUIRED_WATCHER_SCHEMA,
            None => true,
        },
{
    match installed_watcher_schema(contents) {
        Some(v) => v < REQUIRED_WATCHER_SCHEMA,
        None => true,
    }
}

// ----- the first account -----

/// An account that is about to be created.
pub struct NewAdmin {
    pub username: String,
    pub password_hash: String,
    pub must_change_password: bool,
}

/// The first account, from the configured name and password. There is none
/// to create once any account exists.
pub fn bootstrap_admin(count: i64, username: Option<&str>, password: Option<&str>) -> (r: Option<
    NewAdmin,
>)
    requires
        count <= 0 ==> password is Some && hashable(password->0@),
    ensures
        r is Some <==> count <= 0,
        r matches Some(admin) ==> {
            &&& admin.username@ == match username {
                Some(name) => name@,
                None => "admin"@,
            }
            &&& is_hash_of(password->0@, admin.password_hash@)
            &&& password_fits(password->0@, admin.password_hash@)
            &&& admin.must_change_password
        },
{
    if count > 0 {
        return None;
    }
    let username = match username {
        Some(name) => name.to_owned(),
        None => "admin".to_owned(),
    };
    let password_hash = hash_password(password.unwrap());
    Some(NewAdmin { username, password_hash, must_change_password: true })
}

// ----- who is let in -----

/// The administrator on whose behalf a request runs.
pub struct CurrentAdmin(pub AdminUser);

/// The phone on whose behalf a request runs.
pub struct AuthedDevice(pub Device);

/// What becomes of a request to the admin pages.
pub enum Gate {
    /// The session is dropped and the visitor sent to the login page.
    Login,
    /// The password has to be changed first.
    ChangePassword,
    /// A second factor has to be set up first.
    SetUp2fa,
    /// The request goes through.
    Admit(CurrentAdmin),
}

/// Lets in everyone who is logged in.
pub fn require_session(admin: Option<AdminUser>) -> (r: Gate)
    ensures
        r == match admin {
            Some(a) => Gate::Admit(CurrentAdmin(a)),
            None => Gate::Login,
        },
{
    match admin {
        Some(a) => Gate::Admit(CurrentAdmin(a)),
        None => Gate::Login,
    }
}

/// What becomes of a request to the admin pages from whoever is logged in.
pub open spec fn full_gate(admin: Option<AdminUser>) -> Gate {
    match admin {
        Some(a) => if a.must_change_password {
            Gate::ChangePassword
        } else if !a.totp_enabled {
            Gate::SetUp2fa
        } else {
            Gate::Admit(CurrentAdmin(a))
        },
        None => Gate::Login,
    }
}

/// Lets in everyone who is logged in, has changed the first password and has
/// a second factor.
pub fn require_full_auth(admin: Option<AdminUser>) -> (r: Gate)
    ensures
        r == full_gate(admin),
{
    match admin {
        Some(a) => if a.must_change_password {
            Gate::ChangePassword
        } else if !a.totp_enabled {
            Gate::SetUp2fa
        } else {
            Gate::Admit(CurrentAdmin(a))
        },
        None => Gate::Login,
    }
}

/// The page that a visitor is sent to; nothing for one who is let in.
pub fn gate_redirect(gate: &Gate) -> (r: Option<String>)
    ensures
        opt_view(r) == match gate {
            Gate::Login => Some("/login"@),
            Gate::ChangePassword => Some("/auth/change-password"@),
            Gate::SetUp2fa => Some("/auth/setup-2fa"@),
            Gate::Admit(_) => None,
        },
{
    match gate {
        Gate::Login => Some("/login".to_owned()),
        Gate::ChangePassword => Some("/auth/change-password".to_owned()),
        Gate::SetUp2fa => Some("/auth/setup-2fa".to_owned()),
        Gate::Admit(_) => None,
    }
}

/// The token in an authorization header, if it holds one.
pub open spec fn bearer_token(header: Option<Seq<char>>) -> Option<Seq<char>> {
    match header {
        Some(h) => behind_prefix(h, "Bearer "@),
        None => None,
    }
}

/// The digest by which the phone that sent a request is looked up, or why the
/// request is refused. `header` is the authorization header, if there is one
/// that can be read as text.
pub fn require_device_token(header: Option<&str>) -> (r: Result<String, String>)
    ensures
        match bearer_token(opt_str_view(header)) {
            Some(token) => r is Ok && r->Ok_0@ == token_digest(token),
            None => r is Err && r->Err_0@ == "missing bearer token"@,
        },
{
    let token = match header {
        Some(h) => strip_prefix(h, "Bearer "),
        None => None,
    };
    match token {
        Some(t) => Ok(hash_token(t.as_str())),
        None => Err("missing bearer token".to_owned()),
    }
}

/// The phone that a request comes from, given what was found for its digest,
/// or why the request is refused.
pub fn authed_device(found: Option<Device>) -> (r: Result<AuthedDevice, String>)
    ensures
        match found {
            Some(device) => r is Ok && r->Ok_0 == AuthedDevice(device),
            None => r is Err && r->Err_0@ == "invalid device token"@,
        },
{
    match found {
        Some(device) => Ok(AuthedDevice(device)),
        None => Err("invalid device token".to_owned()),
    }
}

/// A phone that sends its token as a bearer token is looked up by the digest
/// of that token.
pub proof fn law_token_is_found_by_its_digest(token: Seq<char>)
    ensures
        bearer_token(Some("Bearer "@ + token)) == Some(token),
{
    let header = "Bearer "@ + token;
    assert("Bearer "@.is_prefix_of(header));
    assert(header.skip("Bearer "@.len() as int) =~= token);
}

// ----- what holds of these -----

/// Behind a reverse proxy the address of a client is the first one in the
/// forwarding header; without the header, or where it starts with nothing, it
/// is the peer's.
pub proof fn law_first_forwarded_address_counts(
    first: Seq<char>,
    rest: Seq<char>,
    peer: Seq<char>,
)
    requires
        !first.contains(','),
    ensures
        client_address(None, peer) == peer,
        trimmed(first).len() > 0 ==> {
            &&& client_address(Some(first), peer) == trimmed(first)
            &&& client_address(Some(first + seq![','] + rest), peer) == trimmed(first)
        },
        trimmed(first).len() == 0 ==> {
            &&& client_address(Some(first), peer) == peer
            &&& client_address(Some(first + seq![','] + rest), peer) == peer
        },
{
    let list = first + seq![','] + rest;
    assert forall|j: int| 0 <= j < first.len() implies list[j] != ',' && first[j] != ',' by {
        assert(first.contains(first[j]));
        assert(list[j] == first[j]);
    }
    lemma_position_is(list, ',', first.len() as int);
    lemma_position_is(first, ',', first.len() as int);
    assert(list.take(first.len() as int) =~= first);
    assert(first.take(first.len() as int) =~= first);
}

/// A lock, a ban or a code holds strictly until its end, and not at all where
/// there is none.
pub proof fn law_ends_are_exclusive(end: Seq<char>, now: Seq<char>)
    ensures
        still_ahead(Some(end), now) <==> text_less(now, end),
        !still_ahead(Some(end), end),
        !still_ahead(None, now),
{
    lemma_text_trichotomy(end, end);
}

/// Every failed attempt counts while the account is not locked; one that makes
/// it five or more locks the account until the given end, also after an
/// earlier lock has run out.
pub proof fn law_failures_count_and_lock(s: Lockout, now: Seq<char>, lock_end: Seq<char>)
    requires
        s.locked_until is None || !text_less(now, s.locked_until->0),
    ensures
        after_failure(s, now, lock_end).attempts == s.attempts + 1,
        s.attempts >= 4 ==> after_failure(s, now, lock_end).locked_until == Some(lock_end),
        s.attempts < 4 ==> after_failure(s, now, lock_end).locked_until == s.locked_until,
{
}

/// Only who is logged in, has changed the first password and has a second
/// factor is let through to the admin pages; everyone else is sent to where the
/// first of these is mended.
pub proof fn law_gate_wants_everything(admin: AdminUser)
    ensures
        full_gate(None) is Login,
        admin.must_change_password ==> full_gate(Some(admin)) is ChangePassword,
        !admin.must_change_password && !admin.totp_enabled ==> full_gate(Some(admin)) is SetUp2fa,
        !admin.must_change_password && admin.totp_enabled ==> full_gate(Some(admin))
            == Gate::Admit(CurrentAdmin(admin)),
{
}

/// A header holds a token just if it is the token behind the word for it.
pub proof fn law_only_bearer_headers_hold_tokens(header: Seq<char>, token: Seq<char>)
    ensures
        bearer_token(Some(header)) == Some(token) <==> header == "Bearer "@ + token,
        bearer_token(None) is None,
{
    law_token_is_found_by_its_digest(token);
    if bearer_token(Some(header)) == Some(token) {
        assert(header =~= "Bearer "@ + token);
    }
}

/// A code fits just if it is one of six digits that the account's secret gives
/// now or in the thirty seconds before or after.
pub proof fn law_codes_come_from_the_secret(
    secret: Seq<char>,
    username: Seq<char>,
    code: Seq<char>,
    now: u64,
)
    ensures
        !code_fits(None, username, code, now),
        code_fits(Some(secret), username, code, now) <==> {
            &&& base32_decoded(secret) matches Some(bytes)
            &&& bytes.len() >= 16
            &&& !username.contains(':')
            &&& totp_accepts(bytes, 6, 1, 30, code, now)
        },
{
}

/// The marker of the root-side scripts is read whatever white space stands
/// around it, and a blank one is none.
pub proof fn law_markers_are_read(text: Seq<char>, n: int)
    requires
        0 <= n <= u32::MAX,
    ensures
        trimmed(text) == number_text(n) ==> schema_in(Some(text)) == Some(n),
        trimmed(text).len() > 0 ==> filled(Some(text)) == Some(trimmed(text)),
        trimmed(text).len() == 0 ==> filled(Some(text)) is None,
        schema_in(None) is None,
        filled(None) is None,
{
    lemma_number_text(n);
}

/// A PIN is stored as the key that 210000 rounds derive of it under sixteen
/// bytes of salt, and the salt, both in hexadecimal.
pub proof fn law_pins_are_stored_as_keys(pin: Seq<char>, hash: Seq<char>, salt: Seq<char>)
    requires
        is_pin_hash(pin, hash, salt),
    ensures
        salt.len() == 32,
        hash.len() == 64,
        exists|bytes: Seq<u8>|
            bytes.len() == 16 && salt == #[trigger] hex_text(bytes) && hash == hex_text(
                pbkdf2_key(encode_utf8(pin), bytes, 210_000),
            ),
{
    let bytes = choose|bytes: Seq<u8>|
        bytes.len() == PIN_SALT_LEN && salt == #[trigger] hex_text(bytes) && hash == hex_text(
            pbkdf2_key(encode_utf8(pin), bytes, PIN_PBKDF2_ROUNDS),
        ) && pbkdf2_key(encode_utf8(pin), bytes, PIN_PBKDF2_ROUNDS).len() == 32;
    lemma_hex_text(bytes);
    lemma_hex_text(pbkdf2_key(encode_utf8(pin), bytes, PIN_PBKDF2_ROUNDS));
    assert(salt == hex_text(bytes));
}

/// A token is 32 random bytes in hexadecimal, and is stored as the SHA-256 of
/// its text, in hexadecimal.
pub proof fn law_tokens_are_long_and_stored_as_digests(token: Seq<char>)
    requires
        is_device_token(token),
    ensures
        token.len() == 64,
        is_hex(token),
        token_digest(token) == hex_text(sha256_of(encode_utf8(token))),
{
    let bytes = choose|bytes: Seq<u8>| bytes.len() == 32 && token == #[trigger] hex_text(bytes);
    lemma_hex_text(bytes);
}

/// A code has a letter for each number, by the remainder that the number leaves,
/// and no two remainders share a letter.
pub proof fn law_codes_follow_their_numbers(picks: Seq<u32>, i: int, j: int)
    requires
        0 <= i < picks.len(),
        0 <= j < picks.len(),
    ensures
        code_of(picks).len() == picks.len(),
        code_of(picks)[i] == code_of(picks)[j] <==> picks[i] % 31 == picks[j] % 31,
        picks[i] % 31 < 8 ==> code_of(picks)[i] as int == '2' as int + picks[i] % 31,
        picks[i] % 31 >= 8 ==> 'A' <= code_of(picks)[i] <= 'Z',
{
    reveal_strlit("23456789ABCDEFGHJKMNPQRSTUVWXYZ");
    let letters = code_letters();
    assert(letters.len() == 31);
    let a = picks[i] as int % 31;
    let b = picks[j] as int % 31;
    assert(letters[0] == '2' && letters[1] == '3' && letters[2] == '4' && letters[3] == '5'
        && letters[4] == '6' && letters[5] == '7' && letters[6] == '8' && letters[7] == '9');
    assert(letters[8] == 'A' && letters[9] == 'B' && letters[10] == 'C' && letters[11] == 'D'
        && letters[12] == 'E' && letters[13] == 'F' && letters[14] == 'G' && letters[15] == 'H');
    assert(letters[16] == 'J' && letters[17] == 'K' && letters[18] == 'M' && letters[19] == 'N'
        && letters[20] == 'P' && letters[21] == 'Q' && letters[22] == 'R' && letters[23] == 'S');
    assert(letters[24] == 'T' && letters[25] == 'U' && letters[26] == 'V' && letters[27] == 'W'
        && letters[28] == 'X' && letters[29] == 'Y' && letters[30] == 'Z');
}

/// A failed attempt touches nothing of an account but the count of attempts and
/// the lock.
pub proof fn law_failures_touch_only_the_lockout(before: AdminUser, after: AdminUser)
    requires
        after.same_but_lockout(&before),
    ensures
        after.id == before.id,
        after.username@ == before.username@,
        after.password_hash@ == before.password_hash@,
        after.must_change_password == before.must_change_password,
        after.totp_secret == before.totp_secret,
        after.totp_enabled == before.totp_enabled,
        after.lockout().attempts == after.failed_login_attempts,
        after.lockout().locked_until is Some <==> after.locked_until is Some,
        after.locked_until matches Some(end) ==> after.lockout().locked_until == Some(end@),
{
}

/// A password opens an account only where Argon2 says that it gave the stored
/// hash.
pub proof fn law_only_the_password_fits(password: Seq<char>, hash: Seq<char>)
    ensures
        argon2_verdict(encode_utf8(password), hash) != Some(true) ==> !password_fits(
            password,
            hash,
        ),
        argon2_verdict(encode_utf8(password), hash) == Some(true) && lanes_fit(hash)
            ==> password_fits(password, hash),
{
}

/// The one-time passwords of an account are those of its own secret: six digits,
/// a new code every thirty seconds, and one code to either side.
pub proof fn law_one_time_passwords_are_the_accounts(secret: Seq<char>, username: Seq<char>)
    ensures
        base32_decoded(secret) matches Some(bytes) ==> account_totp(secret, username) == totp_of(
            bytes,
            "Kids Device MDM"@,
            username,
            6,
            1,
            30,
        ),
        usable_secret(secret) <==> (base32_decoded(secret) matches Some(bytes) && bytes.len()
            >= 16),
{
}

} // verus!
