//! The calls into other crates, and the parts of the standard library that
//! have no specification.
//!
//! Nothing here is proved. Each function makes one call; its contract says
//! what is believed of that call. Where the result takes too much to state,
//! it has a name: a specification function that is the same for the same
//! arguments, and of which nothing is known but what a contract here says.

use crate::text::{is_digit, opt_view, views};
use argon2::password_hash::rand_core::{OsRng, RngCore};
use argon2::password_hash::{PasswordHash, PasswordHasher, PasswordVerifier, SaltString};
use sha2::Digest;
use std::io::Write;
use vstd::prelude::*;
use vstd::utf8::encode_utf8;

verus! {

/// The text with every upper-case character replaced by its lower-case form.
pub uninterp spec fn lowercase(s: Seq<char>) -> Seq<char>;

/// The text is made of ASCII characters.
pub open spec fn is_ascii(s: Seq<char>) -> bool {
    forall|i: int| 0 <= i < s.len() ==> (#[trigger] s[i]) as int <= 127
}

/// The text with every letter from A to Z replaced by its small form.
pub open spec fn ascii_lowered(s: Seq<char>) -> Seq<char> {
    Seq::new(
        s.len(),
        |i: int|
            if 'A' <= s[i] <= 'Z' {
                (s[i] as int + 32) as char
            } else {
                s[i]
            },
    )
}

/// The text holds a letter from A to Z.
pub open spec fn has_capital(s: Seq<char>) -> bool {
    exists|i: int| 0 <= i < s.len() && 'A' <= #[trigger] s[i] <= 'Z'
}

/// The last character is a dot.
pub open spec fn ends_in_dot(s: Seq<char>) -> bool {
    s.len() > 0 && s.last() == '.'
}

/// `str::to_lowercase`: the lower-case form that Unicode gives of a text. No
/// letter from A to Z is left in it, and a text of ASCII characters changes in
/// these letters alone. Nothing vanishes, and a dot, which has no case, stays
/// where it is: the form is empty, or ends in a dot, where the text does.
#[verifier::external_body]
pub(crate) fn to_lowercase(s: &str) -> (r: String)
    ensures
        r@ == lowercase(s@),
        (r@.len() == 0) == (s@.len() == 0),
        ends_in_dot(r@) == ends_in_dot(s@),
        !has_capital(r@),
        is_ascii(s@) ==> r@ == ascii_lowered(s@),
{
    s.to_lowercase()
}

/// The hexadecimal digit for a number below sixteen, in lower case.
pub open spec fn hex_digit(n: int) -> char {
    if n < 10 {
        ('0' as int + n) as char
    } else {
        ('a' as int + n - 10) as char
    }
}

/// Two hexadecimal digits for each byte, the high half first.
pub open spec fn hex_text(bytes: Seq<u8>) -> Seq<char> {
    Seq::new(
        2 * bytes.len(),
        |i: int|
            if i % 2 == 0 {
                hex_digit(bytes[i / 2] as int / 16)
            } else {
                hex_digit(bytes[i / 2] as int % 16)
            },
    )
}

/// The text is made of hexadecimal digits in lower case.
pub open spec fn is_hex(s: Seq<char>) -> bool {
    forall|i: int| 0 <= i < s.len() ==> '0' <= #[trigger] s[i] <= '9' || 'a' <= s[i] <= 'f'
}

/// Bytes in hexadecimal are twice as many hexadecimal digits.
pub proof fn lemma_hex_text(bytes: Seq<u8>)
    ensures
        hex_text(bytes).len() == 2 * bytes.len(),
        is_hex(hex_text(bytes)),
{
    assert forall|i: int| 0 <= i < hex_text(bytes).len() implies '0' <= #[trigger] hex_text(
        bytes,
    )[i] <= '9' || 'a' <= hex_text(bytes)[i] <= 'f' by {
        let n = bytes[i / 2] as int;
        assert(0 <= n / 16 < 16 && 0 <= n % 16 < 16);
    }
}

/// Bytes are told by their hexadecimal digits.
pub proof fn lemma_same_hex_text(a: Seq<u8>, b: Seq<u8>)
    requires
        hex_text(a) == hex_text(b),
    ensures
        a == b,
{
    assert(hex_text(a).len() == 2 * a.len() && hex_text(b).len() == 2 * b.len());
    assert forall|i: int| 0 <= i < a.len() implies a[i] == b[i] by {
        assert(hex_text(a)[2 * i] == hex_digit(a[i] as int / 16));
        assert(hex_text(b)[2 * i] == hex_digit(b[i] as int / 16));
        assert(hex_text(a)[2 * i + 1] == hex_digit(a[i] as int % 16));
        assert(hex_text(b)[2 * i + 1] == hex_digit(b[i] as int % 16));
        assert(0 <= a[i] as int / 16 < 16 && 0 <= b[i] as int / 16 < 16);
    }
    assert(a =~= b);
}

/// `hex::encode`: two lower-case hexadecimal digits for each byte, in order.
#[verifier::external_body]
pub(crate) fn hex_encode(bytes: &[u8]) -> (r: String)
    ensures
        r@ == hex_text(bytes@),
{
    hex::encode(bytes)
}

/// The SHA-256 digest of some bytes.
pub uninterp spec fn sha256_of(bytes: Seq<u8>) -> Seq<u8>;

/// `sha2::Sha256`, fed once and finished: the digest, which has 32 bytes.
#[verifier::external_body]
pub(crate) fn sha256(bytes: &[u8]) -> (r: Vec<u8>)
    ensures
        r@ == sha256_of(bytes@),
        r@.len() == 32,
{
    let mut hasher = sha2::Sha256::new();
    hasher.update(bytes);
    hasher.finalize().to_vec()
}

/// `OsRng::fill_bytes`: as many bytes as were asked for. Which ones is up to
/// the operating system.
#[verifier::external_body]
pub(crate) fn random_bytes(n: usize) -> (r: Vec<u8>)
    requires
        n <= 1024,
    ensures
        r@.len() == n,
{
    let mut bytes = vec![0u8; n];
    OsRng.fill_bytes(&mut bytes);
    bytes
}

/// `OsRng::next_u32`: a number that the operating system picks.
#[verifier::external_body]
pub(crate) fn random_u32() -> (r: u32) {
    OsRng.next_u32()
}

/// The Argon2 hash of a password under a salt, as a PHC string.
pub uninterp spec fn argon2_phc(password: Seq<u8>, salt: Seq<u8>) -> Seq<char>;

/// Whether a password fits an Argon2 hash; nothing if the hash is no PHC
/// string.
pub uninterp spec fn argon2_verdict(password: Seq<u8>, phc: Seq<char>) -> Option<bool>;

/// A number of lanes of nine digits or more stands at an index of the text.
pub open spec fn many_lanes_at(s: Seq<char>, i: int) -> bool {
    &&& 0 <= i <= s.len() - 11
    &&& s[i] == 'p'
    &&& s[i + 1] == '='
    &&& forall|j: int| i + 2 <= j < i + 11 ==> is_digit(#[trigger] s[j])
}

/// Nowhere does the text ask for a number of lanes of nine digits or more.
/// Argon2 has no such number of lanes.
pub open spec fn lanes_fit(s: Seq<char>) -> bool {
    forall|i: int| !#[trigger] many_lanes_at(s, i)
}

/// `Argon2::hash_password` with the default parameters. It fails only on a
/// password longer than a `u32` can count or a salt shorter than eight bytes
/// or longer than 48, all of which are left out here. The hash that it gives
/// is one that the password fits, and names one lane.
#[verifier::external_body]
pub(crate) fn argon2_hash(password: &str, salt: &[u8]) -> (r: String)
    requires
        encode_utf8(password@).len() <= 0xFFFF_FFFF,
        salt@.len() == 16,
    ensures
        r@ == argon2_phc(encode_utf8(password@), salt@),
        argon2_verdict(encode_utf8(password@), r@) == Some(true),
        lanes_fit(r@),
{
    let salt = SaltString::encode_b64(salt).expect("sixteen bytes make a salt");
    argon2::Argon2::default()
        .hash_password(password.as_bytes(), &salt)
        .expect("the password and the salt have an accepted length")
        .to_string()
}

/// The text can be a PHC string: it starts with a dollar sign.
pub open spec fn may_be_phc(s: Seq<char>) -> bool {
    s.len() > 0 && s[0] == '$'
}

/// `PasswordHash::new` on the hash, then `Argon2::verify_password`: whether
/// the password fits, or nothing if the hash is no PHC string. A PHC string
/// starts with a dollar sign. The password is hashed again, under the salt and
/// the parameters of the hash, and what comes out is compared: a hash of
/// another password is fitted by this one just if both have the same hash
/// under its salt. A password longer than a `u32` can count fits nothing. The
/// crate multiplies the number of lanes by eight before it looks whether there
/// are too many, which overflows from nine digits on; texts with so many lanes
/// are left out here.
#[verifier::external_body]
pub(crate) fn argon2_verify(password: &str, phc: &str) -> (r: Option<bool>)
    requires
        lanes_fit(phc@),
    ensures
        r == argon2_verdict(encode_utf8(password@), phc@),
        r is Some ==> may_be_phc(phc@),
        encode_utf8(password@).len() > 0xFFFF_FFFF ==> r != Some(true),
        forall|other: Seq<u8>, salt: Seq<u8>|
            phc@ == #[trigger] argon2_phc(other, salt) && salt.len() == 16 && other.len()
                <= 0xFFFF_FFFF && encode_utf8(password@).len() <= 0xFFFF_FFFF ==> r == Some(
                argon2_phc(encode_utf8(password@), salt) == phc@,
            ),
{
    match PasswordHash::new(phc) {
        Ok(hash) => Some(
            argon2::Argon2::default().verify_password(password.as_bytes(), &hash).is_ok(),
        ),
        Err(_) => None,
    }
}

/// The key of 32 bytes that PBKDF2 with HMAC-SHA-256 derives.
pub uninterp spec fn pbkdf2_key(secret: Seq<u8>, salt: Seq<u8>, rounds: u32) -> Seq<u8>;

/// `pbkdf2::pbkdf2_hmac` with SHA-256 and room for 32 bytes.
#[verifier::external_body]
pub(crate) fn pbkdf2_sha256(secret: &str, salt: &[u8], rounds: u32) -> (r: Vec<u8>)
    ensures
        r@ == pbkdf2_key(encode_utf8(secret@), salt@, rounds),
        r@.len() == 32,
{
    let mut key = vec![0u8; 32];
    pbkdf2::pbkdf2_hmac::<sha2::Sha256>(secret.as_bytes(), salt, rounds, &mut key);
    key
}

/// The bytes that a base32 text stands for, if it is base32.
pub uninterp spec fn base32_decoded(s: Seq<char>) -> Option<Seq<u8>>;

/// The base32 text of some bytes.
pub uninterp spec fn base32_encoded(bytes: Seq<u8>) -> Seq<char>;

/// The view of optional bytes.
pub open spec fn opt_bytes(o: Option<Vec<u8>>) -> Option<Seq<u8>> {
    match o {
        Some(v) => Some(v@),
        None => None,
    }
}

/// `totp_rs::Secret::to_bytes` of an encoded secret.
#[verifier::external_body]
pub(crate) fn base32_decode(s: &str) -> (r: Option<Vec<u8>>)
    ensures
        opt_bytes(r) == base32_decoded(s@),
{
    totp_rs::Secret::Encoded(s.to_string()).to_bytes().ok()
}

/// `totp_rs::Secret::to_encoded` of a raw secret. Decoding its text gives the
/// bytes back.
#[verifier::external_body]
pub(crate) fn base32_encode(bytes: Vec<u8>) -> (r: String)
    ensures
        r@ == base32_encoded(bytes@),
        base32_decoded(r@) == Some(bytes@),
{
    match totp_rs::Secret::Raw(bytes).to_encoded() {
        totp_rs::Secret::Encoded(s) => s,
        totp_rs::Secret::Raw(_) => String::new(),
    }
}

/// `totp_rs::Secret::generate_secret`: twenty random bytes.
#[verifier::external_body]
pub(crate) fn random_totp_secret() -> (r: Vec<u8>)
    ensures
        r@.len() == 20,
{
    match totp_rs::Secret::generate_secret() {
        totp_rs::Secret::Raw(bytes) => bytes,
        totp_rs::Secret::Encoded(_) => Vec::new(),
    }
}

/// A one-time-password generator of `totp_rs`.
#[verifier::external_type_specification]
#[verifier::external_body]
pub struct ExTotp(totp_rs::TOTP);

/// Whether a generator can be made of a secret and two names, for codes of so
/// many digits.
pub open spec fn totp_parts_fit(
    secret: Seq<u8>,
    issuer: Seq<char>,
    account: Seq<char>,
    digits: usize,
) -> bool {
    &&& secret.len() >= 16
    &&& !issuer.contains(':')
    &&& !account.contains(':')
    &&& 6 <= digits <= 8
}

/// The generator of SHA-1 codes of so many digits that change after so many
/// seconds and are accepted so many changes early or late.
pub uninterp spec fn totp_of(
    secret: Seq<u8>,
    issuer: Seq<char>,
    account: Seq<char>,
    digits: usize,
    skew: u8,
    step: u64,
) -> totp_rs::TOTP;

/// `totp_rs::TOTP::new` with SHA-1. It refuses a secret below sixteen bytes, a
/// colon in the issuer or the account name, and fewer than six or more than
/// eight digits, and nothing else.
#[verifier::external_body]
pub(crate) fn totp_sha1_new(
    secret: Vec<u8>,
    issuer: &str,
    account: &str,
    digits: usize,
    skew: u8,
    step: u64,
) -> (r: Option<totp_rs::TOTP>)
    ensures
        (r is Some) == totp_parts_fit(secret@, issuer@, account@, digits),
        r matches Some(totp) ==> totp == totp_of(
            secret@,
            issuer@,
            account@,
            digits,
            skew,
            step,
        ),
{
    let issuer = Some(issuer.to_string());
    let account = account.to_string();
    totp_rs::TOTP::new(totp_rs::Algorithm::SHA1, digits, skew, step, secret, issuer, account).ok()
}

/// Whether a code is one that a generator accepts at a time.
pub uninterp spec fn totp_accepts(
    secret: Seq<u8>,
    digits: usize,
    skew: u8,
    step: u64,
    code: Seq<char>,
    now: u64,
) -> bool;

/// The time can be checked against: no step early or late is out of range.
pub open spec fn totp_time_fits(skew: u8, step: u64, now: u64) -> bool {
    &&& step > 0
    &&& skew as int <= now as int / step as int
    &&& (now as int / step as int + skew) * step <= u64::MAX
}

/// The text is made of so many digits.
pub open spec fn is_code(s: Seq<char>, digits: usize) -> bool {
    s.len() == digits && forall|i: int| 0 <= i < s.len() ==> '0' <= #[trigger] s[i] <= '9'
}

/// `totp_rs::TOTP::new` with SHA-1, then `check` at a time, in seconds since
/// 1970; nothing if no generator can be made. The two names play no part in
/// the codes. Only a text of as many digits as a code has is accepted. The
/// crate divides by the step and computes the steps early and late without
/// looking for an overflow; such times are left out here.
#[verifier::external_body]
pub(crate) fn totp_sha1_check(
    secret: Vec<u8>,
    issuer: &str,
    account: &str,
    digits: usize,
    skew: u8,
    step: u64,
    code: &str,
    now: u64,
) -> (r: Option<bool>)
    requires
        totp_time_fits(skew, step, now),
    ensures
        (r is Some) == totp_parts_fit(secret@, issuer@, account@, digits),
        r matches Some(accepted) ==> accepted == totp_accepts(
            secret@,
            digits,
            skew,
            step,
            code@,
            now,
        ),
        r == Some(true) ==> is_code(code@, digits),
{
    let issuer = Some(issuer.to_string());
    let account = account.to_string();
    match totp_rs::TOTP::new(
        totp_rs::Algorithm::SHA1,
        digits,
        skew,
        step,
        secret,
        issuer,
        account,
    ) {
        Ok(totp) => Some(totp.check(code, now)),
        Err(_) => None,
    }
}

/// The texts that a JSON array of strings holds, if the text is one.
pub uninterp spec fn json_texts(json: Seq<char>) -> Option<Seq<Seq<char>>>;

/// A JSON array of strings.
pub uninterp spec fn texts_json(texts: Seq<Seq<char>>) -> Seq<char>;

/// The views of an optional list of texts.
pub open spec fn opt_views(o: Option<Vec<String>>) -> Option<Seq<Seq<char>>> {
    match o {
        Some(v) => Some(views(v@)),
        None => None,
    }
}

/// `serde_json::from_str` into a list of strings.
#[verifier::external_body]
pub(crate) fn json_to_texts(json: &str) -> (r: Option<Vec<String>>)
    ensures
        opt_views(r) == json_texts(json@),
{
    serde_json::from_str::<Vec<String>>(json).ok()
}

/// `serde_json::to_string` of a list of strings. Reading its text gives the
/// list back.
#[verifier::external_body]
pub(crate) fn texts_to_json(texts: &Vec<String>) -> (r: String)
    ensures
        r@ == texts_json(views(texts@)),
        json_texts(r@) == Some(views(texts@)),
{
    serde_json::to_string(texts).expect("strings always serialise")
}

/// The SVG drawing of the QR code for some bytes, if they fit into one: of at
/// least the given width and height, in two colours.
pub uninterp spec fn qr_drawing(
    bytes: Seq<u8>,
    size: u32,
    dark: Seq<char>,
    light: Seq<char>,
) -> Option<Seq<char>>;

/// `qrcode::QrCode::new`, drawn in two colours at the given size or more. A
/// size that comes near to what a `u32` can hold would overflow in the crate
/// and is left out here.
#[verifier::external_body]
pub(crate) fn qr_svg(bytes: &[u8], size: u32, dark: &str, light: &str) -> (r: Option<String>)
    requires
        size <= 0xFFFF,
    ensures
        opt_view(r) == qr_drawing(bytes@, size, dark@, light@),
{
    match qrcode::QrCode::new(bytes) {
        Ok(code) => Some(
            code.render()
                .min_dimensions(size, size)
                .dark_color(qrcode::render::svg::Color(dark))
                .light_color(qrcode::render::svg::Color(light))
                .build(),
        ),
        Err(_) => None,
    }
}

/// Whether a ZIP archive has a readable entry of a name; nothing if the bytes
/// are no ZIP archive.
pub uninterp spec fn zip_entry(bytes: Seq<u8>, name: Seq<char>) -> Option<bool>;

/// `zip::ZipArchive::new`, then `by_name`.
#[verifier::external_body]
pub(crate) fn zip_has_entry(bytes: &[u8], name: &str) -> (r: Option<bool>)
    ensures
        r == zip_entry(bytes@, name@),
{
    match zip::ZipArchive::new(std::io::Cursor::new(bytes)) {
        Ok(mut archive) => Some(archive.by_name(name).is_ok()),
        Err(_) => None,
    }
}

/// The ZIP archive of one deflated entry; nothing if the data do not fit into
/// one.
pub uninterp spec fn zip_deflated(name: Seq<char>, data: Seq<u8>) -> Option<Seq<u8>>;

/// `zip::ZipWriter`: an archive of one deflated entry. The archive has that
/// entry. Without the `time` feature of the crate the entry's time is always
/// the same, so that the bytes are a matter of the name and the data. The text
/// of an error is left open. The crate panics on a name of more bytes than a
/// `u16` can count, which is left out here.
#[verifier::external_body]
pub(crate) fn zip_deflated_entry(name: &str, data: &[u8]) -> (r: Result<Vec<u8>, String>)
    requires
        name@.len() <= 0x3FFF,
    ensures
        match r {
            Ok(bytes) => zip_deflated(name@, data@) == Some(bytes@) && bytes@.len() > 0
                && zip_entry(bytes@, name@) == Some(true),
            Err(_) => zip_deflated(name@, data@) is None,
        },
{
    let options = zip::write::SimpleFileOptions::default().compression_method(
        zip::CompressionMethod::Deflated,
    );
    let mut writer = zip::ZipWriter::new(std::io::Cursor::new(Vec::new()));
    writer.start_file(name, options).map_err(|e| e.to_string())?;
    writer.write_all(data).map_err(|e| e.to_string())?;
    Ok(writer.finish().map_err(|e| e.to_string())?.into_inner())
}

} // verus!
