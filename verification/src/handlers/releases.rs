//! The builds of the launcher that were uploaded.

use crate::models::LauncherRelease;
use crate::numbers::{as_i64, lemma_number_text, number_text, parse_i64};
use crate::security::{generate_device_token, is_device_token};
use crate::text::{opt_str_view, trim, trimmed};
use vstd::prelude::*;

verus! {

/// A random name for a file, so that no name is taken from a browser.
pub fn random_filename() -> (r: String)
    ensures
        exists|token: Seq<char>| #[trigger] is_device_token(token) && r@ == token + ".apk"@,
{
    let mut r = generate_device_token();
    let ghost token = r@;
    r.append(".apk");
    proof {
        assert(is_device_token(token));
    }
    r
}

/// A build that is about to be entered.
pub struct ReleasePlan {
    pub version_code: i64,
    pub version_name: String,
    pub file_path: String,
}

/// The version code that a field gives.
pub open spec fn code_in(field: Option<Seq<char>>) -> Option<int> {
    match field {
        Some(text) => as_i64(trimmed(text)),
        None => None,
    }
}

/// An upload is complete: a version code, a version name that is not blank,
/// and a file that is not empty.
pub open spec fn upload_complete(
    version_code: Option<Seq<char>>,
    version_name: Option<Seq<char>>,
    apk: Option<Vec<u8>>,
) -> bool {
    &&& code_in(version_code) is Some
    &&& version_name is Some && trimmed(version_name->0).len() > 0
    &&& apk is Some && apk->0@.len() > 0
}

/// The build that was uploaded, or what is missing. `filename` is a random
/// one.
pub fn upload_release(
    version_code: Option<&str>,
    version_name: Option<&str>,
    apk: &Option<Vec<u8>>,
    filename: &str,
) -> (r: Result<ReleasePlan, String>)
    ensures
        match r {
            Ok(plan) => {
                &&& upload_complete(opt_str_view(version_code), opt_str_view(version_name), *apk)
                &&& Some(plan.version_code as int) == code_in(opt_str_view(version_code))
                &&& plan.version_name@ == trimmed(version_name->0@)
                &&& plan.file_path@ == "data/launcher_releases/"@ + filename@
            },
            Err(message) => {
                &&& !upload_complete(opt_str_view(version_code), opt_str_view(version_name), *apk)
                &&& message@ == "Fill in the version code, version name, and choose a file."@
            },
        },
{
    let code = match version_code {
        Some(text) => parse_i64(trim(text).as_str()),
        None => None,
    };
    let name = match version_name {
        Some(text) => trim(text),
        None => String::new(),
    };
    let size: usize = match apk {
        Some(bytes) => bytes.len(),
        None => 0,
    };
    match code {
        Some(version_code) => {
            if name.as_str().is_empty() || size == 0 {
                return Err(
                    "Fill in the version code, version name, and choose a file.".to_owned(),
                );
            }
            let mut file_path = "data/launcher_releases/".to_owned();
            file_path.append(filename);
            Ok(ReleasePlan { version_code, version_name: name, file_path })
        },
        None => Err("Fill in the version code, version name, and choose a file.".to_owned()),
    }
}

/// The build that phones are given and those before it, from all builds with
/// the newest first.
pub fn list_releases(releases: Vec<LauncherRelease>) -> (r: (
    Option<LauncherRelease>,
    Vec<LauncherRelease>,
))
    ensures
        releases@.len() == 0 ==> r.0 is None && r.1@.len() == 0,
        releases@.len() > 0 ==> r.0 == Some(releases@[0]) && r.1@ == releases@.skip(1),
{
    let mut rest = releases;
    if rest.len() == 0 {
        return (None, rest);
    }
    let ghost given = rest@;
    let current = rest.remove(0);
    proof {
        assert(rest@ =~= given.skip(1));
    }
    (Some(current), rest)
}

/// A version code is read whatever white space stands around it.
pub proof fn law_version_codes_are_read(text: Seq<char>, n: i64)
    ensures
        trimmed(text) == number_text(n as int) ==> code_in(Some(text)) == Some(n as int),
        trimmed(text).len() == 0 ==> code_in(Some(text)) is None,
        code_in(None) is None,
{
    lemma_number_text(n as int);
}

/// An upload with a version code is complete just if it has a name that is not
/// blank and a file that is not empty. Without any of the three it is not.
pub proof fn law_uploads_need_all_three(
    code: Seq<char>,
    name: Seq<char>,
    apk: Vec<u8>,
    n: i64,
)
    requires
        trimmed(code) == number_text(n as int),
    ensures
        upload_complete(Some(code), Some(name), Some(apk)) <==> trimmed(name).len() > 0
            && apk@.len() > 0,
        !upload_complete(None, Some(name), Some(apk)),
        !upload_complete(Some(code), None, Some(apk)),
        !upload_complete(Some(code), Some(name), None),
{
    law_version_codes_are_read(code, n);
}

} // verus!
