//! The apps that are pushed to the phones, and where their releases come from.

use crate::forms::{field_or, FormFields};
use crate::models::TrackedApp;
use crate::numbers::{i64_text, lemma_number_text, number_text};
use crate::security::{generate_device_token, is_device_token};
use crate::text::{
    before_suffix, behind_prefix, contains_text, ends_with, holds, is_white_space,
    law_parts_stand_between, law_texts_are_cut_at_the_first_mark, lemma_position_is, lemma_trimmed, opt_str_view, opt_view, pieces, same_text, split,
    strip_prefix, strip_suffix, trim, trim_end_matches, trimmed, views, without_trailing,
};
use vstd::prelude::*;

verus! {

/// A file of a release.
pub struct GithubAsset {
    pub id: i64,
    pub name: String,
    pub browser_download_url: String,
}

/// A release of a repository.
pub struct GithubRelease {
    pub tag_name: String,
    pub prerelease: bool,
    pub draft: bool,
    pub assets: Vec<GithubAsset>,
}

/// The address that lists the releases of a repository, the newest first.
pub fn releases_url(github_repo: &str) -> (r: String)
    ensures
        r@ == "https://api.github.com/repos/"@ + github_repo@ + "/releases"@,
{
    let mut r = "https://api.github.com/repos/".to_owned();
    r.append(github_repo);
    r.append("/releases");
    r
}

/// The release can be pushed: it is no draft, and no prerelease unless those
/// are wanted.
pub open spec fn wanted(release: GithubRelease, include_prereleases: bool) -> bool {
    !release.draft && (include_prereleases || !release.prerelease)
}

/// The index is that of the first release that can be pushed.
pub open spec fn is_latest(
    releases: Seq<GithubRelease>,
    include_prereleases: bool,
    i: int,
) -> bool {
    &&& 0 <= i < releases.len()
    &&& wanted(releases[i], include_prereleases)
    &&& forall|j: int| 0 <= j < i ==> !wanted(#[trigger] releases[j], include_prereleases)
}

/// No release can be pushed.
pub open spec fn none_wanted(releases: Seq<GithubRelease>, include_prereleases: bool) -> bool {
    forall|j: int| 0 <= j < releases.len() ==> !wanted(#[trigger] releases[j], include_prereleases)
}

/// The newest release that can be pushed.
pub fn fetch_latest_release(releases: &Vec<GithubRelease>, include_prereleases: bool) -> (r: Result<
    usize,
    String,
>)
    ensures
        match r {
            Ok(i) => is_latest(releases@, include_prereleases, i as int),
            Err(message) => none_wanted(releases@, include_prereleases) && message@
                == "no matching release found"@,
        },
{
    let mut i: usize = 0;
    while i < releases.len()
        invariant
            i <= releases@.len(),
            forall|j: int|
                0 <= j < i ==> !wanted(#[trigger] releases@[j], include_prereleases),
        decreases releases@.len() - i,
    {
        if !releases[i].draft && (include_prereleases || !releases[i].prerelease) {
            return Ok(i);
        }
        i += 1;
    }
    Err("no matching release found".to_owned())
}

/// The newest release that is no draft is taken where prereleases are wanted,
/// and the newest that is neither draft nor prerelease where they are not.
pub proof fn law_newest_release_is_taken(releases: Seq<GithubRelease>, i: int)
    ensures
        is_latest(releases, true, i) <==> {
            &&& 0 <= i < releases.len()
            &&& !releases[i].draft
            &&& forall|j: int| 0 <= j < i ==> (#[trigger] releases[j]).draft
        },
        is_latest(releases, false, i) <==> {
            &&& 0 <= i < releases.len()
            &&& !releases[i].draft
            &&& !releases[i].prerelease
            &&& forall|j: int|
                0 <= j < i ==> (#[trigger] releases[j]).draft || releases[j].prerelease
        },
        none_wanted(releases, true) <==> forall|j: int|
            0 <= j < releases.len() ==> (#[trigger] releases[j]).draft,
        none_wanted(releases, false) <==> forall|j: int|
            0 <= j < releases.len() ==> (#[trigger] releases[j]).draft || releases[j].prerelease,
{
    assert forall|j: int| 0 <= j < releases.len() implies wanted(#[trigger] releases[j], true)
        == !releases[j].draft by {}
    assert forall|j: int| 0 <= j < releases.len() implies wanted(#[trigger] releases[j], false) == (
    !releases[j].draft && !releases[j].prerelease) by {}
}

/// The file is the one to push: its name holds the pattern or, where there is
/// none, ends as packages do.
pub open spec fn asset_fits(name: Seq<char>, pattern: Option<Seq<char>>) -> bool {
    match pattern {
        Some(part) => if part.len() > 0 {
            holds(name, part)
        } else {
            ".apk"@.is_suffix_of(name)
        },
        None => ".apk"@.is_suffix_of(name),
    }
}

/// The index is that of the first file that fits.
pub open spec fn is_pick(
    assets: Seq<GithubAsset>,
    pattern: Option<Seq<char>>,
    i: int,
) -> bool {
    &&& 0 <= i < assets.len()
    &&& asset_fits(assets[i].name@, pattern)
    &&& forall|j: int| 0 <= j < i ==> !asset_fits((#[trigger] assets[j]).name@, pattern)
}

/// No file fits.
pub open spec fn none_fits(assets: Seq<GithubAsset>, pattern: Option<Seq<char>>) -> bool {
    forall|j: int| 0 <= j < assets.len() ==> !asset_fits((#[trigger] assets[j]).name@, pattern)
}

/// The file of a release to push.
pub fn pick_asset<'a>(release: &'a GithubRelease, asset_pattern: Option<&str>) -> (r: Option<
    &'a GithubAsset,
>)
    ensures
        match r {
            Some(asset) => exists|i: int|
                #[trigger] is_pick(release.assets@, opt_str_view(asset_pattern), i) && *asset
                    == release.assets@[i],
            None => none_fits(release.assets@, opt_str_view(asset_pattern)),
        },
{
    let mut i: usize = 0;
    while i < release.assets.len()
        invariant
            i <= release.assets@.len(),
            forall|j: int|
                0 <= j < i ==> !asset_fits(
                    (#[trigger] release.assets@[j]).name@,
                    opt_str_view(asset_pattern),
                ),
        decreases release.assets@.len() - i,
    {
        let name = release.assets[i].name.as_str();
        let fits = match asset_pattern {
            Some(part) => if !part.is_empty() {
                contains_text(name, part)
            } else {
                ends_with(name, ".apk")
            },
            None => ends_with(name, ".apk"),
        };
        if fits {
            proof {
                assert(is_pick(release.assets@, opt_str_view(asset_pattern), i as int));
            }
            return Some(&release.assets[i]);
        }
        i += 1;
    }
    None
}

/// A build that is to be downloaded.
pub struct SyncPlan {
    pub tag: String,
    pub asset_id: i64,
    pub url: String,
    pub folder: String,
    pub file_path: String,
    /// The file of the build before, which goes.
    pub remove: Option<String>,
}

/// The folder for the builds of an app.
pub open spec fn app_folder(id: int) -> Seq<char> {
    "data/tracked_apps/"@ + number_text(id)
}

/// The file for a build.
pub open spec fn build_path(id: int, tag: Seq<char>, asset_id: int) -> Seq<char> {
    app_folder(id) + "/"@ + tag + "-"@ + number_text(asset_id) + ".apk"@
}

/// The file of the build before, unless the new one takes its place.
pub open spec fn outdated(old_path: Option<Seq<char>>, new_path: Seq<char>) -> Option<Seq<char>> {
    match old_path {
        Some(path) => if path != new_path {
            Some(path)
        } else {
            None
        },
        None => None,
    }
}

/// The build is the one that is already here: its tag and its file are.
pub open spec fn is_cached(app: TrackedApp, tag: Seq<char>, asset_id: i64) -> bool {
    opt_view(app.latest_release_tag) == Some(tag) && app.latest_release_asset_id == Some(asset_id)
}

/// The plan fetches a file of a release for an app.
pub open spec fn fetches(
    plan: SyncPlan,
    app: TrackedApp,
    release: GithubRelease,
    asset: GithubAsset,
) -> bool {
    let path = build_path(app.id as int, release.tag_name@, asset.id as int);
    &&& plan.tag@ == release.tag_name@
    &&& plan.asset_id == asset.id
    &&& plan.url@ == asset.browser_download_url@
    &&& plan.folder@ == app_folder(app.id as int)
    &&& plan.file_path@ == path
    &&& opt_view(plan.remove) == outdated(opt_view(app.latest_release_file_path), path)
}

fn folder_of(id: i64) -> (r: String)
    ensures
        r@ == app_folder(id as int),
{
    let mut r = "data/tracked_apps/".to_owned();
    r.append(i64_text(id).as_str());
    r
}

fn outdated_file(old_path: &Option<String>, new_path: &str) -> (r: Option<String>)
    ensures
        opt_view(r) == outdated(opt_view(*old_path), new_path@),
{
    match old_path {
        Some(path) => if !same_text(path.as_str(), new_path) {
            Some(path.clone())
        } else {
            None
        },
        None => None,
    }
}

/// What the releases of an app's repository come to: nothing where the app
/// has no repository.
pub open spec fn sync_outcome(
    app: TrackedApp,
    releases: Seq<GithubRelease>,
    r: Result<Option<SyncPlan>, String>,
) -> bool {
    if app.source_type@ != "github"@ {
        r == Ok::<Option<SyncPlan>, String>(None)
    } else if none_wanted(releases, app.include_prereleases) {
        r is Err && r->Err_0@ == "no matching release found"@
    } else {
        exists|i: int|
            #[trigger] is_latest(releases, app.include_prereleases, i) && asset_outcome(
                app,
                releases[i],
                r,
            )
    }
}

/// What the files of an app's newest release come to: nothing where the build
/// is already here.
pub open spec fn asset_outcome(
    app: TrackedApp,
    release: GithubRelease,
    r: Result<Option<SyncPlan>, String>,
) -> bool {
    if none_fits(release.assets@, opt_view(app.asset_pattern)) {
        r is Err && r->Err_0@ == "no matching .apk asset in the latest release"@
    } else {
        exists|k: int|
            #[trigger] is_pick(release.assets@, opt_view(app.asset_pattern), k) && if is_cached(
                app,
                release.tag_name@,
                release.assets@[k].id,
            ) {
                r == Ok::<Option<SyncPlan>, String>(None)
            } else {
                r matches Ok(Some(plan)) && fetches(plan, app, release, release.assets@[k])
            }
    }
}

/// What to do about an app, given the releases of its repository.
pub fn sync_one_app(app: &TrackedApp, releases: &Vec<GithubRelease>) -> (r: Result<
    Option<SyncPlan>,
    String,
>)
    ensures
        sync_outcome(*app, releases@, r),
{
    if !same_text(app.source_type.as_str(), "github") {
        return Ok(None);
    }
    let i = match fetch_latest_release(releases, app.include_prereleases) {
        Ok(i) => i,
        Err(message) => {
            return Err(message);
        },
    };
    let release = &releases[i];
    let pattern = match &app.asset_pattern {
        Some(text) => Some(text.as_str()),
        None => None,
    };
    proof {
        assert(is_latest(releases@, app.include_prereleases, i as int));
        assert(wanted(releases@[i as int], app.include_prereleases));
        assert(opt_str_view(pattern) == opt_view(app.asset_pattern));
    }
    let asset = match pick_asset(release, pattern) {
        Some(asset) => asset,
        None => {
            let r = Err("no matching .apk asset in the latest release".to_owned());
            proof {
                assert(asset_outcome(*app, *release, r));
            }
            return r;
        },
    };
    let ghost k = choose|k: int|
        #[trigger] is_pick(release.assets@, opt_str_view(pattern), k) && *asset
            == release.assets@[k];
    proof {
        assert(is_pick(release.assets@, opt_view(app.asset_pattern), k));
        assert(asset_fits(release.assets@[k].name@, opt_view(app.asset_pattern)));
    }
    let same_tag = match &app.latest_release_tag {
        Some(tag) => same_text(tag.as_str(), release.tag_name.as_str()),
        None => false,
    };
    let same_asset = match app.latest_release_asset_id {
        Some(id) => id == asset.id,
        None => false,
    };
    if same_tag && same_asset {
        let r: Result<Option<SyncPlan>, String> = Ok(None);
        proof {
            assert(asset_outcome(*app, *release, r));
        }
        return r;
    }
    let folder = folder_of(app.id);
    let mut file_path = folder.clone();
    file_path.append("/");
    file_path.append(release.tag_name.as_str());
    file_path.append("-");
    file_path.append(i64_text(asset.id).as_str());
    file_path.append(".apk");
    let remove = outdated_file(&app.latest_release_file_path, file_path.as_str());
    let plan = SyncPlan {
        tag: release.tag_name.clone(),
        asset_id: asset.id,
        url: asset.browser_download_url.clone(),
        folder,
        file_path,
        remove,
    };
    let r = Ok(Some(plan));
    proof {
        assert(fetches(plan, *app, *release, release.assets@[k]));
        assert(asset_outcome(*app, *release, r));
    }
    r
}

/// After a build was downloaded, the same releases come to nothing more.
pub proof fn law_synced_apps_are_left_alone(
    app: TrackedApp,
    releases: Seq<GithubRelease>,
    i: int,
    k: int,
    r: Result<Option<SyncPlan>, String>,
)
    requires
        app.source_type@ == "github"@,
        is_latest(releases, app.include_prereleases, i),
        is_pick(releases[i].assets@, opt_view(app.asset_pattern), k),
        is_cached(app, releases[i].tag_name@, releases[i].assets@[k].id),
        sync_outcome(app, releases, r),
    ensures
        r == Ok::<Option<SyncPlan>, String>(None),
{
    assert(wanted(releases[i], app.include_prereleases));
    let i2 = choose|i2: int|
        #[trigger] is_latest(releases, app.include_prereleases, i2) && asset_outcome(
            app,
            releases[i2],
            r,
        );
    assert(wanted(releases[i2], app.include_prereleases));
    assert(i2 == i);
    let assets = releases[i].assets@;
    assert(asset_fits(assets[k].name@, opt_view(app.asset_pattern)));
    let k2 = choose|k2: int|
        #[trigger] is_pick(assets, opt_view(app.asset_pattern), k2) && if is_cached(
            app,
            releases[i].tag_name@,
            assets[k2].id,
        ) {
            r == Ok::<Option<SyncPlan>, String>(None)
        } else {
            r matches Ok(Some(plan)) && fetches(plan, app, releases[i], assets[k2])
        };
    assert(asset_fits(assets[k2].name@, opt_view(app.asset_pattern)));
    assert(k2 == k);
}

/// A random part of a file's name, so that no name is taken from a browser.
pub fn random_label() -> (r: String)
    ensures
        is_device_token(r@),
{
    generate_device_token()
}

// ----- naming a repository -----

/// What stands behind a prefix, or the whole text if it does not start so.
pub open spec fn dropped(s: Seq<char>, prefix: Seq<char>) -> Seq<char> {
    match behind_prefix(s, prefix) {
        Some(rest) => rest,
        None => s,
    }
}

/// What stands before a suffix, or the whole text if it does not end so.
pub open spec fn cut(s: Seq<char>, suffix: Seq<char>) -> Seq<char> {
    match before_suffix(s, suffix) {
        Some(rest) => rest,
        None => s,
    }
}

/// An address without its protocol and without the name of the host.
pub open spec fn path_in_host(input: Seq<char>) -> Seq<char> {
    dropped(
        dropped(dropped(dropped(trimmed(input), "https://"@), "http://"@), "www.github.com/"@),
        "github.com/"@,
    )
}

/// The parts of a path that are not empty.
pub open spec fn path_parts(path: Seq<char>) -> Seq<Seq<char>> {
    pieces(path, '/').filter(|part: Seq<char>| part.len() > 0)
}

/// The repository that an address names, as owner and name. What names none is
/// left as it is, but for slashes at its end.
pub open spec fn repo_of(input: Seq<char>) -> Seq<char> {
    let path = path_in_host(input);
    let parts = path_parts(path);
    if parts.len() >= 2 {
        parts[0] + "/"@ + cut(parts[1], ".git"@)
    } else {
        without_trailing(path, '/')
    }
}

fn drop_prefix(s: String, prefix: &str) -> (r: String)
    ensures
        r@ == dropped(s@, prefix@),
{
    match strip_prefix(s.as_str(), prefix) {
        Some(rest) => rest,
        None => s,
    }
}

fn full_parts(path: &str) -> (r: Vec<String>)
    ensures
        views(r@) == path_parts(path@),
{
    broadcast use crate::text::lemma_views_push;

    let all = split(path, '/');
    let ghost parts = pieces(path@, '/');
    let ghost pred = |part: Seq<char>| part.len() > 0;
    let mut full: Vec<String> = Vec::new();
    let mut i: usize = 0;
    proof {
        reveal(Seq::filter);
        assert(views(full@) =~= parts.take(0).filter(pred));
    }
    while i < all.len()
        invariant
            i <= all@.len(),
            parts == views(all@),
            pred == (|part: Seq<char>| part.len() > 0),
            views(full@) == parts.take(i as int).filter(pred),
        decreases all@.len() - i,
    {
        proof {
            reveal(Seq::filter);
            assert(parts.take(i + 1).drop_last() =~= parts.take(i as int));
            assert(parts.take(i + 1).last() == all@[i as int]@);
        }
        if !all[i].as_str().is_empty() {
            full.push(all[i].clone());
        }
        i += 1;
    }
    proof {
        assert(parts.take(i as int) =~= parts);
    }
    full
}

/// The repository that an address names.
pub fn normalize_github_repo(input: &str) -> (r: String)
    ensures
        r@ == repo_of(input@),
{
    let path = drop_prefix(
        drop_prefix(
            drop_prefix(drop_prefix(trim(input), "https://"), "http://"),
            "www.github.com/",
        ),
        "github.com/",
    );
    let parts = full_parts(path.as_str());
    if parts.len() >= 2 {
        let mut r = parts[0].clone();
        r.append("/");
        proof {
            assert(views(parts@)[0] == parts@[0]@);
            assert(views(parts@)[1] == parts@[1]@);
        }
        match strip_suffix(parts[1].as_str(), ".git") {
            Some(rest) => r.append(rest.as_str()),
            None => r.append(parts[1].as_str()),
        }
        r
    } else {
        trim_end_matches(path.as_str(), '/')
    }
}

/// A name that a repository's owner can have.
pub open spec fn owner_name(s: Seq<char>) -> bool {
    s.len() > 0 && forall|i: int|
        0 <= i < s.len() ==> #[trigger] s[i] != '/' && s[i] != '.' && s[i] != ':'
            && !is_white_space(s[i])
}

/// A name that a repository can have.
pub open spec fn repo_name(s: Seq<char>) -> bool {
    &&& s.len() > 0
    &&& forall|i: int| 0 <= i < s.len() ==> #[trigger] s[i] != '/' && !is_white_space(s[i])
    &&& !".git"@.is_suffix_of(s)
}

/// What can follow a repository in an address: nothing, or a slash and more.
pub open spec fn address_tail(s: Seq<char>) -> bool {
    s.len() > 0 ==> s[0] == '/' && !is_white_space(s.last())
}

/// A path that starts with an owner does not start with a protocol or a host:
/// `k` is where the prefix has a character that an owner's name cannot have.
proof fn lemma_no_prefix(owner: Seq<char>, rest: Seq<char>, prefix: Seq<char>, k: int)
    requires
        owner_name(owner),
        0 <= k < prefix.len(),
        prefix[k] == '.' || prefix[k] == ':',
        forall|j: int| 0 <= j <= k ==> #[trigger] prefix[j] != '/',
    ensures
        behind_prefix(owner + seq!['/'] + rest, prefix) is None,
{
    let s = owner + seq!['/'] + rest;
    if prefix.is_prefix_of(s) {
        assert forall|j: int| 0 <= j < prefix.len() implies prefix[j] == s[j] by {
            assert(s.subrange(0, prefix.len() as int)[j] == s[j]);
        }
        if k < owner.len() {
            assert(s[k] == owner[k]);
        } else {
            assert(s[owner.len() as int] == '/');
            assert(prefix[owner.len() as int] != '/');
        }
    }
}

proof fn lemma_dropped(prefix: Seq<char>, rest: Seq<char>)
    ensures
        dropped(prefix + rest, prefix) == rest,
{
    assert(prefix =~= (prefix + rest).subrange(0, prefix.len() as int));
    assert(prefix.is_prefix_of(prefix + rest));
    assert((prefix + rest).skip(prefix.len() as int) =~= rest);
}

/// The protocols and hosts that an address can start with, or leave out.
pub open spec fn is_protocol(s: Seq<char>) -> bool {
    s == ""@ || s == "https://"@ || s == "http://"@
}

pub open spec fn is_host(s: Seq<char>) -> bool {
    s == ""@ || s == "www.github.com/"@ || s == "github.com/"@
}

/// What is left of an address without protocol and host.
proof fn lemma_path_in_host(
    protocol: Seq<char>,
    host: Seq<char>,
    owner: Seq<char>,
    rest: Seq<char>,
)
    requires
        is_protocol(protocol),
        is_host(host),
        owner_name(owner),
    ensures
        ({
            let path = owner + seq!['/'] + rest;
            dropped(
                dropped(
                    dropped(dropped(protocol + host + path, "https://"@), "http://"@),
                    "www.github.com/"@,
                ),
                "github.com/"@,
            ) == path
        }),
{
    let path = owner + seq!['/'] + rest;
    reveal_strlit("");
    reveal_strlit("https://");
    reveal_strlit("http://");
    reveal_strlit("www.github.com/");
    reveal_strlit("github.com/");
    lemma_no_prefix(owner, rest, "https://"@, 5);
    lemma_no_prefix(owner, rest, "http://"@, 4);
    lemma_no_prefix(owner, rest, "www.github.com/"@, 3);
    lemma_no_prefix(owner, rest, "github.com/"@, 6);
    let whole = protocol + host + path;
    let at_host = host + path;
    // Neither host starts with a protocol, and none starts with another.
    assert(behind_prefix(at_host, "https://"@) is None) by {
        if "https://"@.is_prefix_of(at_host) {
            assert(at_host.subrange(0, 8)[0] == 'h');
            if host == ""@ {
                assert(at_host =~= path);
            }
        }
    }
    assert(behind_prefix(at_host, "http://"@) is None) by {
        if "http://"@.is_prefix_of(at_host) {
            assert(at_host.subrange(0, 7)[0] == 'h');
            if host == ""@ {
                assert(at_host =~= path);
            }
        }
    }
    assert(dropped(dropped(whole, "https://"@), "http://"@) == at_host) by {
        if protocol == "https://"@ {
            assert(whole =~= "https://"@ + at_host);
            lemma_dropped("https://"@, at_host);
        } else if protocol == "http://"@ {
            assert(whole =~= "http://"@ + at_host);
            assert(behind_prefix(whole, "https://"@) is None) by {
                if "https://"@.is_prefix_of(whole) {
                    assert(whole.subrange(0, 8)[4] == 's');
                }
            }
            lemma_dropped("http://"@, at_host);
        } else {
            assert(whole =~= at_host);
        }
    }
    assert(dropped(dropped(at_host, "www.github.com/"@), "github.com/"@) == path) by {
        if host == "www.github.com/"@ {
            lemma_dropped("www.github.com/"@, path);
        } else if host == "github.com/"@ {
            assert(behind_prefix(at_host, "www.github.com/"@) is None) by {
                if "www.github.com/"@.is_prefix_of(at_host) {
                    assert(at_host.subrange(0, 15)[0] == 'w');
                }
            }
            lemma_dropped("github.com/"@, path);
        } else {
            assert(at_host =~= path);
        }
    }
}

/// The parts of a path that starts with two full parts.
proof fn lemma_two_parts(owner: Seq<char>, name: Seq<char>, tail: Seq<char>)
    requires
        owner.len() > 0,
        !owner.contains('/'),
        name.len() > 0,
        !name.contains('/'),
        tail.len() > 0 ==> tail[0] == '/',
    ensures
        ({
            let parts = path_parts(owner + seq!['/'] + (name + tail));
            parts.len() >= 2 && parts[0] == owner && parts[1] == name
        }),
{
    let rest = name + tail;
    let s = owner + seq!['/'] + rest;
    assert forall|j: int| 0 <= j < owner.len() implies s[j] != '/' by {
        assert(owner.contains(owner[j]));
    }
    lemma_position_is(s, '/', owner.len() as int);
    assert(s.take(owner.len() as int) =~= owner);
    assert(s.skip(owner.len() as int + 1) =~= rest);
    assert forall|j: int| 0 <= j < name.len() implies rest[j] != '/' by {
        assert(name.contains(name[j]));
    }
    lemma_position_is(rest, '/', name.len() as int);
    assert(rest.take(name.len() as int) =~= name);
    let more = if tail.len() > 0 {
        pieces(rest.skip(name.len() as int + 1), '/')
    } else {
        Seq::empty()
    };
    if tail.len() == 0 {
        assert(rest =~= name);
    }
    assert(pieces(rest, '/') =~= seq![name] + more);
    assert(pieces(s, '/') =~= seq![owner, name] + more);
    let pred = |part: Seq<char>| part.len() > 0;
    lemma_filter_two(owner, name, more, pred);
}

proof fn lemma_filter_two(
    a: Seq<char>,
    b: Seq<char>,
    more: Seq<Seq<char>>,
    pred: spec_fn(Seq<char>) -> bool,
)
    requires
        pred(a),
        pred(b),
    ensures
        (seq![a, b] + more).filter(pred) == seq![a, b] + more.filter(pred),
    decreases more.len(),
{
    reveal(Seq::filter);
    if more.len() == 0 {
        let s = seq![a, b];
        assert(s + more =~= s);
        assert(s.drop_last() =~= seq![a]);
        assert(seq![a].drop_last() =~= Seq::empty());
        assert(Seq::<Seq<char>>::empty().filter(pred) =~= Seq::empty());
        assert(seq![a].filter(pred) =~= seq![a]);
        assert(s.filter(pred) =~= s);
        assert(more.filter(pred) =~= Seq::empty());
    } else {
        lemma_filter_two(a, b, more.drop_last(), pred);
        assert((seq![a, b] + more).drop_last() =~= seq![a, b] + more.drop_last());
        assert((seq![a, b] + more).filter(pred) =~= seq![a, b] + more.filter(pred));
    }
}

/// However a repository's address is given, with or without protocol, host,
/// `.git` and whatever page of it follows, it names the same repository.
#[verifier::spinoff_prover]
#[verifier::rlimit(40)]
pub proof fn law_addresses_name_the_repository(
    protocol: Seq<char>,
    host: Seq<char>,
    owner: Seq<char>,
    name: Seq<char>,
    git: bool,
    tail: Seq<char>,
)
    requires
        is_protocol(protocol),
        is_host(host),
        owner_name(owner),
        repo_name(name),
        address_tail(tail),
    ensures
        ({
            let full = if git {
                name + ".git"@
            } else {
                name
            };
            repo_of(protocol + host + (owner + seq!['/'] + (full + tail))) == owner + "/"@ + name
        }),
{
    reveal_strlit(".git");
    reveal_strlit("");
    reveal_strlit("https://");
    reveal_strlit("http://");
    reveal_strlit("www.github.com/");
    reveal_strlit("github.com/");
    let full = if git {
        name + ".git"@
    } else {
        name
    };
    let path = owner + seq!['/'] + (full + tail);
    let input = protocol + host + path;
    assert(!is_white_space(input[0])) by {
        assert(!is_white_space(owner[0]));
        if protocol == ""@ && host == ""@ {
            assert(input =~= path);
            assert(input[0] == owner[0]);
        } else if protocol == ""@ {
            assert(input[0] == host[0]);
        } else {
            assert(input[0] == protocol[0]);
        }
    }
    assert(!is_white_space(input.last())) by {
        if tail.len() > 0 {
            assert(input.last() == tail.last());
        } else {
            assert(input.last() == full.last());
            assert(!is_white_space(name[name.len() - 1]));
        }
    }
    lemma_trimmed(input);
    lemma_path_in_host(protocol, host, owner, full + tail);
    assert(path_in_host(input) == path);
    assert(!owner.contains('/'));
    assert(!full.contains('/')) by {
        assert forall|i: int| 0 <= i < full.len() implies full[i] != '/' by {
            if i < name.len() {
                assert(full[i] == name[i]);
            }
        }
    }
    lemma_two_parts(owner, full, tail);
    if git {
        assert(".git"@ =~= full.subrange(full.len() - 4, full.len() as int));
        assert(".git"@.is_suffix_of(full));
        assert(full.take(full.len() - 4) =~= name);
    }
}

// ----- forms -----

/// An app that is about to be entered.
pub struct NewTrackedApp {
    pub name: String,
    pub package_name: String,
    pub source_type: &'static str,
    pub github_repo: String,
    pub asset_pattern: Option<String>,
    pub include_prereleases: bool,
}

/// The field of a form without the white space around it.
pub open spec fn trimmed_field(form: Map<Seq<char>, Seq<char>>, name: Seq<char>) -> Seq<char> {
    trimmed(field_or(form, name, ""@))
}

/// A field that was left empty gives no pattern.
pub open spec fn form_pattern(form: Map<Seq<char>, Seq<char>>) -> Option<Seq<char>> {
    if trimmed_field(form, "asset_pattern"@).len() == 0 {
        None
    } else {
        Some(trimmed_field(form, "asset_pattern"@))
    }
}

fn trim_field(form: &FormFields, name: &str) -> (r: String)
    ensures
        r@ == trimmed_field(form@, name@),
{
    trim(form.get_or(name, "").as_str())
}

fn pattern_field(form: &FormFields) -> (r: Option<String>)
    ensures
        opt_view(r) == form_pattern(form@),
{
    let pattern = trim_field(form, "asset_pattern");
    if pattern.as_str().is_empty() {
        None
    } else {
        Some(pattern)
    }
}

/// The app that a form adds. Where its releases are uploaded by hand, there is
/// no repository to watch.
pub fn create_tracked_app(form: &FormFields) -> (r: NewTrackedApp)
    ensures
        ({
            let by_hand = field_or(form@, "source_type"@, ""@) == "manual"@;
            &&& r.name@ == trimmed_field(form@, "name"@)
            &&& r.package_name@ == trimmed_field(form@, "package_name"@)
            &&& by_hand ==> {
                &&& r.source_type@ == "manual"@
                &&& r.github_repo@.len() == 0
                &&& r.asset_pattern is None
                &&& !r.include_prereleases
            }
            &&& !by_hand ==> {
                &&& r.source_type@ == "github"@
                &&& r.github_repo@ == repo_of(trimmed_field(form@, "github_repo"@))
                &&& opt_view(r.asset_pattern) == form_pattern(form@)
                &&& r.include_prereleases == form@.contains_key("include_prereleases"@)
            }
        }),
{
    let name = trim_field(form, "name");
    let package_name = trim_field(form, "package_name");
    if same_text(form.get_or("source_type", "").as_str(), "manual") {
        NewTrackedApp {
            name,
            package_name,
            source_type: "manual",
            github_repo: String::new(),
            asset_pattern: None,
            include_prereleases: false,
        }
    } else {
        NewTrackedApp {
            name,
            package_name,
            source_type: "github",
            github_repo: normalize_github_repo(trim_field(form, "github_repo").as_str()),
            asset_pattern: pattern_field(form),
            include_prereleases: form.contains_key("include_prereleases"),
        }
    }
}

/// What a form changes of an app.
pub struct TrackedAppChange {
    pub name: String,
    pub package_name: String,
    pub github_repo: String,
    pub asset_pattern: Option<String>,
}

/// What a form changes of an app. Where its releases are uploaded by hand, the
/// fields that speak of a repository stay as they are.
pub fn update_tracked_app(form: &FormFields, app: &TrackedApp) -> (r: TrackedAppChange)
    ensures
        r.name@ == trimmed_field(form@, "name"@),
        r.package_name@ == trimmed_field(form@, "package_name"@),
        app.source_type@ == "github"@ ==> {
            &&& r.github_repo@ == repo_of(trimmed_field(form@, "github_repo"@))
            &&& opt_view(r.asset_pattern) == form_pattern(form@)
        },
        app.source_type@ != "github"@ ==> {
            &&& r.github_repo@ == app.github_repo@
            &&& opt_view(r.asset_pattern) == opt_view(app.asset_pattern)
        },
{
    let name = trim_field(form, "name");
    let package_name = trim_field(form, "package_name");
    if same_text(app.source_type.as_str(), "github") {
        TrackedAppChange {
            name,
            package_name,
            github_repo: normalize_github_repo(trim_field(form, "github_repo").as_str()),
            asset_pattern: pattern_field(form),
        }
    } else {
        TrackedAppChange {
            name,
            package_name,
            github_repo: app.github_repo.clone(),
            asset_pattern: match &app.asset_pattern {
                Some(text) => Some(text.clone()),
                None => None,
            },
        }
    }
}

/// The page of an app.
pub fn app_url(id: i64) -> (r: String)
    ensures
        r@ == "/apps/tracked/"@ + number_text(id as int),
{
    let mut r = "/apps/tracked/".to_owned();
    r.append(i64_text(id).as_str());
    r
}

/// A build that was uploaded.
pub struct UploadPlan {
    pub label: String,
    pub folder: String,
    pub file_path: String,
    /// The file of the build before, which goes.
    pub remove: Option<String>,
}

/// The file that an uploaded build is kept in, under a random name.
pub open spec fn upload_path(id: int, label: Seq<char>) -> Seq<char> {
    app_folder(id) + "/"@ + label + ".apk"@
}

/// Whether an upload is complete: a label that is not blank, and a file that
/// is not empty.
pub open spec fn upload_complete(label: Option<Seq<char>>, apk: Option<Vec<u8>>) -> bool {
    label is Some && trimmed(label->0).len() > 0 && apk is Some && apk->0@.len() > 0
}

/// What to do with an uploaded build, or what is missing. `file_label` is a
/// random one.
pub fn upload_tracked_app_release(
    app: &TrackedApp,
    release_label: Option<&str>,
    apk: &Option<Vec<u8>>,
    file_label: &str,
) -> (r: Result<UploadPlan, String>)
    ensures
        match r {
            Ok(plan) => {
                let path = upload_path(app.id as int, file_label@);
                &&& upload_complete(opt_str_view(release_label), *apk)
                &&& plan.label@ == trimmed(release_label->0@)
                &&& plan.folder@ == app_folder(app.id as int)
                &&& plan.file_path@ == path
                &&& opt_view(plan.remove) == outdated(opt_view(app.latest_release_file_path), path)
            },
            Err(message) => !upload_complete(opt_str_view(release_label), *apk) && message@
                == "Fill in a release label and choose a file."@,
        },
{
    let label = match release_label {
        Some(text) => trim(text),
        None => {
            return Err("Fill in a release label and choose a file.".to_owned());
        },
    };
    let size: usize = match apk {
        Some(bytes) => bytes.len(),
        None => 0,
    };
    if label.as_str().is_empty() || size == 0 {
        return Err("Fill in a release label and choose a file.".to_owned());
    }
    let folder = folder_of(app.id);
    let mut file_path = folder.clone();
    file_path.append("/");
    file_path.append(file_label);
    file_path.append(".apk");
    let remove = outdated_file(&app.latest_release_file_path, file_path.as_str());
    Ok(UploadPlan { label, folder, file_path, remove })
}

/// What becomes of an app that is to be deleted.
pub struct DeletePlan {
    pub delete: bool,
    pub remove: Option<String>,
    pub redirect_to: String,
}

/// What becomes of the app with a number that is to be deleted. The launcher
/// stays.
pub fn delete_tracked_app(id: i64, app: Option<TrackedApp>) -> (r: DeletePlan)
    ensures
        r.delete <==> app is Some && !app->0.is_launcher,
        opt_view(r.remove) == if app is Some && !app->0.is_launcher {
            opt_view(app->0.latest_release_file_path)
        } else {
            None
        },
        r.redirect_to@ == if app is Some && app->0.is_launcher {
            "/apps/tracked/"@ + number_text(id as int)
        } else {
            "/apps"@
        },
{
    match app {
        Some(a) => if a.is_launcher {
            DeletePlan { delete: false, remove: None, redirect_to: app_url(id) }
        } else {
            DeletePlan {
                delete: true,
                remove: a.latest_release_file_path,
                redirect_to: "/apps".to_owned(),
            }
        },
        None => DeletePlan { delete: false, remove: None, redirect_to: "/apps".to_owned() },
    }
}

// ----- what holds of these -----

/// A pattern fits the names that it stands in. Without one, a name fits that
/// ends as packages do.
pub proof fn law_files_fit_by_their_names(name: Seq<char>, part: Seq<char>)
    requires
        part.len() > 0,
    ensures
        asset_fits(name, Some(part)) <==> exists|a: Seq<char>, b: Seq<char>|
            name == #[trigger] (a + part + b),
        asset_fits(name, Some(Seq::empty())) <==> exists|a: Seq<char>|
            name == #[trigger] (a + ".apk"@),
        asset_fits(name, None) <==> exists|a: Seq<char>| name == #[trigger] (a + ".apk"@),
{
    law_parts_stand_between(name, part);
    let n = name.len() - ".apk"@.len();
    if asset_fits(name, None) {
        assert(name =~= name.take(n) + ".apk"@);
    }
    if exists|a: Seq<char>| name == #[trigger] (a + ".apk"@) {
        let a = choose|a: Seq<char>| name == #[trigger] (a + ".apk"@);
        assert(name.subrange(n, name.len() as int) =~= ".apk"@);
    }
}

/// The file that is picked fits, and none that fits stands before it. A file is
/// picked just if any fits.
pub proof fn law_first_fitting_file_is_picked(
    assets: Seq<GithubAsset>,
    pattern: Option<Seq<char>>,
    i: int,
    j: int,
)
    requires
        0 <= j < assets.len(),
        asset_fits(assets[j].name@, pattern),
    ensures
        is_pick(assets, pattern, i) ==> 0 <= i <= j && asset_fits(assets[i].name@, pattern),
        !none_fits(assets, pattern),
        exists|k: int| 0 <= k <= j && #[trigger] is_pick(assets, pattern, k),
    decreases j,
{
    if is_pick(assets, pattern, i) && j < i {
        assert(!asset_fits(assets[j].name@, pattern));
    }
    if exists|k: int| 0 <= k < j && asset_fits((#[trigger] assets[k]).name@, pattern) {
        let k = choose|k: int| 0 <= k < j && asset_fits((#[trigger] assets[k]).name@, pattern);
        law_first_fitting_file_is_picked(assets, pattern, i, k);
    } else {
        assert(is_pick(assets, pattern, j));
    }
}

/// Where the newest release has a file that fits, that file is fetched to a
/// place that is named after the app, the release and the file, and the build
/// before goes. Nothing is done where the release and the file are the ones
/// that are already here.
pub proof fn law_new_builds_are_fetched(
    app: TrackedApp,
    releases: Seq<GithubRelease>,
    r: Result<Option<SyncPlan>, String>,
    i: int,
    k: int,
)
    requires
        sync_outcome(app, releases, r),
        app.source_type@ == "github"@,
        0 <= i < releases.len(),
        !releases[i].draft,
        !releases[i].prerelease || app.include_prereleases,
        forall|j: int|
            0 <= j < i ==> (#[trigger] releases[j]).draft || (releases[j].prerelease
                && !app.include_prereleases),
        0 <= k < releases[i].assets@.len(),
        asset_fits(releases[i].assets@[k].name@, opt_view(app.asset_pattern)),
        forall|j: int|
            0 <= j < k ==> !asset_fits(
                (#[trigger] releases[i].assets@[j]).name@,
                opt_view(app.asset_pattern),
            ),
    ensures
        ({
            let release = releases[i];
            let asset = releases[i].assets@[k];
            let here = app.latest_release_tag is Some && app.latest_release_tag->0@
                == release.tag_name@ && app.latest_release_asset_id == Some(asset.id);
            let path = "data/tracked_apps/"@ + number_text(app.id as int) + "/"@ + release.tag_name@
                + "-"@ + number_text(asset.id as int) + ".apk"@;
            &&& here ==> r == Ok::<Option<SyncPlan>, String>(None)
            &&& !here ==> (r matches Ok(Some(plan)) && {
                &&& plan.tag@ == release.tag_name@
                &&& plan.asset_id == asset.id
                &&& plan.url@ == asset.browser_download_url@
                &&& plan.folder@ == "data/tracked_apps/"@ + number_text(app.id as int)
                &&& plan.file_path@ == path
                &&& plan.remove is Some <==> app.latest_release_file_path is Some
                    && app.latest_release_file_path->0@ != path
                &&& plan.remove matches Some(gone) ==> gone@ == app.latest_release_file_path->0@
            })
        }),
{
    let pattern = opt_view(app.asset_pattern);
    assert forall|j: int| 0 <= j < i implies !wanted(
        #[trigger] releases[j],
        app.include_prereleases,
    ) by {
        assert(releases[j].draft || (releases[j].prerelease && !app.include_prereleases));
    }
    assert(wanted(releases[i], app.include_prereleases));
    assert(is_latest(releases, app.include_prereleases, i));
    let a = choose|a: int|
        #[trigger] is_latest(releases, app.include_prereleases, a) && asset_outcome(
            app,
            releases[a],
            r,
        );
    assert(a == i) by {
        if a < i {
            assert(!wanted(releases[a], app.include_prereleases));
        }
        if i < a {
            assert(!wanted(releases[i], app.include_prereleases));
        }
    }
    let assets = releases[i].assets@;
    assert(is_pick(assets, pattern, k));
    assert(!none_fits(assets, pattern));
    assert forall|b: int| #[trigger] is_pick(assets, pattern, b) implies b == k by {
        if b < k {
            assert(!asset_fits(assets[b].name@, pattern));
        }
        if k < b {
            assert(!asset_fits(assets[k].name@, pattern));
        }
    }
}

/// Where no release can be pushed, or the newest has no file that fits, that is
/// what is said; and an app without a repository is left alone.
pub proof fn law_what_cannot_be_fetched_is_said(
    app: TrackedApp,
    releases: Seq<GithubRelease>,
    r: Result<Option<SyncPlan>, String>,
)
    requires
        sync_outcome(app, releases, r),
    ensures
        app.source_type@ != "github"@ ==> r == Ok::<Option<SyncPlan>, String>(None),
        app.source_type@ == "github"@ && (forall|j: int|
            0 <= j < releases.len() ==> (#[trigger] releases[j]).draft || (releases[j].prerelease
                && !app.include_prereleases)) ==> r is Err && r->Err_0@
            == "no matching release found"@,
        app.source_type@ == "github"@ && releases.len() > 0 && !releases[0].draft && (
        !releases[0].prerelease || app.include_prereleases) && (forall|k: int|
            0 <= k < releases[0].assets@.len() ==> !asset_fits(
                (#[trigger] releases[0].assets@[k]).name@,
                opt_view(app.asset_pattern),
            )) ==> r is Err && r->Err_0@ == "no matching .apk asset in the latest release"@,
{
    if releases.len() > 0 && wanted(releases[0], app.include_prereleases) {
        assert(is_latest(releases, app.include_prereleases, 0));
        assert forall|a: int| #[trigger]
            is_latest(releases, app.include_prereleases, a) implies a == 0 by {
            if a > 0 {
                assert(!wanted(releases[0], app.include_prereleases));
            }
        }
        assert(!none_wanted(releases, app.include_prereleases));
    }
}

/// A pattern is taken from a form without the white space around it, and a blank
/// one is none.
pub proof fn law_patterns_are_taken_trimmed(form: Map<Seq<char>, Seq<char>>, text: Seq<char>)
    requires
        form.contains_key("asset_pattern"@),
        form["asset_pattern"@] == text,
    ensures
        trimmed(text).len() > 0 ==> form_pattern(form) == Some(trimmed(text)),
        trimmed(text).len() == 0 ==> form_pattern(form) is None,
{
}

/// An upload is complete just if its label is not blank and its file not empty.
pub proof fn law_uploads_need_a_label_and_a_file(label: Seq<char>, apk: Vec<u8>)
    ensures
        upload_complete(Some(label), Some(apk)) <==> trimmed(label).len() > 0 && apk@.len() > 0,
        !upload_complete(None, Some(apk)),
        !upload_complete(Some(label), None),
{
}

/// The builds of different apps lie in different folders.
pub proof fn law_apps_have_folders_of_their_own(a: int, b: int)
    ensures
        app_folder(a) == app_folder(b) <==> a == b,
{
    lemma_number_text(a);
    lemma_number_text(b);
    if app_folder(a) == app_folder(b) {
        let n = "data/tracked_apps/"@.len() as int;
        assert(app_folder(a).skip(n) =~= number_text(a));
        assert(app_folder(b).skip(n) =~= number_text(b));
    }
}

/// What names no owner and repository is left as it is, but for the slashes at its
/// end, the protocol and the host.
pub proof fn law_other_addresses_are_left(word: Seq<char>, slashes: nat)
    requires
        owner_name(word),
    ensures
        repo_of(word + Seq::new(slashes, |i: int| '/')) == word,
    decreases slashes,
{
    let tail = Seq::new(slashes, |i: int| '/');
    let input = word + tail;
    reveal_strlit("https://");
    reveal_strlit("http://");
    reveal_strlit("www.github.com/");
    reveal_strlit("github.com/");
    assert(input[0] == word[0]);
    assert(!is_white_space(word[0]));
    assert(!is_white_space(input.last())) by {
        if slashes > 0 {
            assert(input.last() == '/');
        } else {
            assert(input =~= word);
            assert(!is_white_space(word[word.len() - 1]));
        }
    }
    lemma_trimmed(input);
    lemma_word_has_no_prefix(word, slashes, "https://"@, 5);
    lemma_word_has_no_prefix(word, slashes, "http://"@, 4);
    lemma_word_has_no_prefix(word, slashes, "www.github.com/"@, 3);
    lemma_word_has_no_prefix(word, slashes, "github.com/"@, 6);
    assert(path_in_host(input) == input);
    lemma_slash_parts(word, slashes);
    lemma_slashes_fall_off(word, slashes);
}

proof fn lemma_word_has_no_prefix(word: Seq<char>, slashes: nat, prefix: Seq<char>, at: int)
    requires
        owner_name(word),
        0 <= at < prefix.len(),
        prefix[at] == ':' || prefix[at] == '.',
    ensures
        !prefix.is_prefix_of(word + Seq::new(slashes, |i: int| '/')),
{
    let input = word + Seq::new(slashes, |i: int| '/');
    if prefix.is_prefix_of(input) {
        assert(input.subrange(0, prefix.len() as int)[at] == input[at]);
        if at < word.len() {
            assert(input[at] == word[at]);
        } else {
            assert(input[at] == '/');
        }
    }
}

proof fn lemma_slashes_fall_off(word: Seq<char>, slashes: nat)
    requires
        owner_name(word),
    ensures
        without_trailing(word + Seq::new(slashes, |i: int| '/'), '/') == word,
    decreases slashes,
{
    let input = word + Seq::new(slashes, |i: int| '/');
    if slashes > 0 {
        lemma_slashes_fall_off(word, (slashes - 1) as nat);
        assert(input.drop_last() =~= word + Seq::new((slashes - 1) as nat, |i: int| '/'));
        assert(input.last() == '/');
    } else {
        assert(input =~= word);
        assert(word[word.len() - 1] != '/');
    }
}

/// Slashes by themselves make no part of a path.
proof fn lemma_no_parts(slashes: nat)
    ensures
        path_parts(Seq::new(slashes, |i: int| '/')).len() == 0,
    decreases slashes,
{
    let tail = Seq::new(slashes, |i: int| '/');
    let keep = |part: Seq<char>| part.len() > 0;
    let none = Seq::<char>::empty();
    if slashes > 0 {
        let rest = Seq::new((slashes - 1) as nat, |i: int| '/');
        lemma_no_parts((slashes - 1) as nat);
        assert(tail =~= none + seq!['/'] + rest);
        law_texts_are_cut_at_the_first_mark(none, '/', rest);
        lemma_filter_first(none, pieces(rest, '/'), keep);
    } else {
        assert(tail =~= none);
        law_texts_are_cut_at_the_first_mark(none, '/', none);
        reveal(Seq::filter);
        assert(seq![none].drop_last() =~= Seq::empty());
        assert(seq![none].drop_last().filter(keep).len() == 0);
        assert(seq![none].filter(keep).len() == 0);
    }
}

proof fn lemma_slash_parts(word: Seq<char>, slashes: nat)
    requires
        owner_name(word),
    ensures
        path_parts(word + Seq::new(slashes, |i: int| '/')).len() < 2,
{
    let input = word + Seq::new(slashes, |i: int| '/');
    let keep = |part: Seq<char>| part.len() > 0;
    assert(!word.contains('/')) by {
        assert forall|i: int| 0 <= i < word.len() implies word[i] != '/' by {}
    }
    if slashes > 0 {
        let rest = Seq::new((slashes - 1) as nat, |i: int| '/');
        assert(input =~= word + seq!['/'] + rest);
        law_texts_are_cut_at_the_first_mark(word, '/', rest);
        lemma_no_parts((slashes - 1) as nat);
        lemma_filter_first(word, pieces(rest, '/'), keep);
    } else {
        assert(input =~= word);
        law_texts_are_cut_at_the_first_mark(word, '/', Seq::empty());
        seq![word].lemma_filter_len(keep);
    }
}

/// The first of a list is kept just if it fits, and so are the others.
proof fn lemma_filter_first(
    first: Seq<char>,
    rest: Seq<Seq<char>>,
    keep: spec_fn(Seq<char>) -> bool,
)
    ensures
        (seq![first] + rest).filter(keep).len() == rest.filter(keep).len() + (if keep(first) {
            1nat
        } else {
            0nat
        }),
    decreases rest.len(),
{
    reveal(Seq::filter);
    let all = seq![first] + rest;
    if rest.len() > 0 {
        lemma_filter_first(first, rest.drop_last(), keep);
        assert(all.drop_last() =~= seq![first] + rest.drop_last());
        assert(all.last() == rest.last());
    } else {
        assert(all =~= seq![first]);
        assert(all.drop_last() =~= Seq::empty());
        assert(all.drop_last().filter(keep).len() == 0);
    }
}

} // verus!
