use kid_phone_server::forms::FormFields;
use kid_phone_server::handlers::releases::{list_releases, random_filename, upload_release};
use kid_phone_server::handlers::tracked_apps::{
    app_url, create_tracked_app, delete_tracked_app, fetch_latest_release, normalize_github_repo,
    pick_asset, random_label, releases_url, sync_one_app, update_tracked_app,
    upload_tracked_app_release, GithubAsset, GithubRelease,
};
use kid_phone_server::models::{LauncherRelease, TrackedApp};

fn form(pairs: &[(&str, &str)]) -> FormFields {
    FormFields { pairs: pairs.iter().map(|(k, v)| (k.to_string(), v.to_string())).collect() }
}

fn app() -> TrackedApp {
    TrackedApp {
        id: 6,
        name: "App".into(),
        package_name: "com.app".into(),
        source_type: "github".into(),
        github_repo: "o/r".into(),
        asset_pattern: None,
        include_prereleases: false,
        enabled: true,
        latest_release_tag: None,
        latest_release_asset_id: None,
        latest_release_file_path: None,
        last_checked_at: None,
        created_at: String::new(),
        is_launcher: false,
    }
}

fn asset(id: i64, name: &str) -> GithubAsset {
    GithubAsset { id, name: name.into(), browser_download_url: format!("https://dl/{name}") }
}

fn release(tag: &str, prerelease: bool, draft: bool, assets: Vec<GithubAsset>) -> GithubRelease {
    GithubRelease { tag_name: tag.into(), prerelease, draft, assets }
}

#[test]
fn the_newest_release_that_is_wanted_is_taken() {
    let releases = vec![
        release("d", false, true, Vec::new()),
        release("p", true, false, Vec::new()),
        release("v", false, false, Vec::new()),
    ];
    assert_eq!(fetch_latest_release(&releases, false), Ok(2));
    assert_eq!(fetch_latest_release(&releases, true), Ok(1));
    assert_eq!(
        fetch_latest_release(&Vec::new(), true),
        Err("no matching release found".to_string())
    );
    assert_eq!(releases_url("o/r"), "https://api.github.com/repos/o/r/releases");
}

#[test]
fn the_first_file_that_fits_is_picked() {
    let r = release(
        "v",
        false,
        false,
        vec![asset(1, "notes.txt"), asset(2, "app-x86.apk"), asset(3, "app-arm64.apk.zip")],
    );
    let picked = |pattern: Option<&str>| pick_asset(&r, pattern).map(|a| a.id);
    assert_eq!(picked(None), Some(2));
    assert_eq!(picked(Some("")), Some(2));
    assert_eq!(picked(Some("arm64")), Some(3));
    assert_eq!(picked(Some("mips")), None);
}

#[test]
fn a_new_build_is_fetched() {
    let mut a = app();
    a.latest_release_tag = Some("rolling".into());
    a.latest_release_asset_id = Some(1);
    a.latest_release_file_path = Some("data/tracked_apps/6/rolling-1.apk".into());
    let releases = vec![release("rolling", false, false, vec![asset(2, "a.apk")])];
    let plan = sync_one_app(&a, &releases).ok().unwrap().unwrap();
    assert_eq!((plan.tag.as_str(), plan.asset_id, plan.url.as_str()), ("rolling", 2, "https://dl/a.apk"));
    assert_eq!(plan.folder, "data/tracked_apps/6");
    assert_eq!(plan.file_path, "data/tracked_apps/6/rolling-2.apk");
    assert_eq!(plan.remove.as_deref(), Some("data/tracked_apps/6/rolling-1.apk"));
    a.latest_release_asset_id = Some(2);
    assert!(matches!(sync_one_app(&a, &releases), Ok(None)));
    a.latest_release_tag = Some("older".into());
    a.latest_release_file_path = Some("data/tracked_apps/6/rolling-2.apk".into());
    let plan = sync_one_app(&a, &releases).ok().unwrap().unwrap();
    assert_eq!(plan.remove, None);
}

#[test]
fn nothing_is_fetched_where_there_is_nothing() {
    let mut a = app();
    assert_eq!(sync_one_app(&a, &Vec::new()).err().unwrap(), "no matching release found");
    assert_eq!(
        sync_one_app(&a, &vec![release("v", false, false, Vec::new())]).err().unwrap(),
        "no matching .apk asset in the latest release"
    );
    a.source_type = "manual".into();
    assert!(matches!(sync_one_app(&a, &Vec::new()), Ok(None)));
}

#[test]
fn addresses_name_their_repository() {
    for address in [
        "owner/repo",
        " owner/repo/ ",
        "https://github.com/owner/repo",
        "http://github.com/owner/repo.git",
        "https://www.github.com/owner/repo/releases",
        "www.github.com/owner/repo/",
        "github.com/owner/repo.git/",
        "https://github.com/owner/repo/releases/tag/v1",
        "https://github.com//owner//repo",
    ] {
        assert_eq!(normalize_github_repo(address), "owner/repo", "{address}");
    }
    assert_eq!(normalize_github_repo("owner"), "owner");
    assert_eq!(normalize_github_repo("https://github.com/owner///"), "owner");
    assert_eq!(normalize_github_repo(""), "");
}

#[test]
fn an_app_is_added_from_a_form() {
    let new = create_tracked_app(&form(&[
        ("name", " App "),
        ("package_name", " com.app "),
        ("github_repo", "https://github.com/o/r"),
        ("asset_pattern", " arm64 "),
        ("include_prereleases", "on"),
    ]));
    assert_eq!((new.name.as_str(), new.package_name.as_str()), ("App", "com.app"));
    assert_eq!((new.source_type, new.github_repo.as_str()), ("github", "o/r"));
    assert_eq!(new.asset_pattern.as_deref(), Some("arm64"));
    assert!(new.include_prereleases);
    let new = create_tracked_app(&form(&[
        ("source_type", "manual"),
        ("github_repo", "o/r"),
        ("asset_pattern", "arm64"),
        ("include_prereleases", "on"),
    ]));
    assert_eq!((new.source_type, new.github_repo.as_str()), ("manual", ""));
    assert!(new.asset_pattern.is_none() && !new.include_prereleases);
    assert_eq!(create_tracked_app(&form(&[("asset_pattern", " ")])).asset_pattern, None);
}

#[test]
fn an_app_is_changed_by_a_form() {
    let given = form(&[("name", "New"), ("github_repo", "a/b"), ("asset_pattern", "p")]);
    let change = update_tracked_app(&given, &app());
    assert_eq!((change.name.as_str(), change.package_name.as_str()), ("New", ""));
    assert_eq!((change.github_repo.as_str(), change.asset_pattern.as_deref()), ("a/b", Some("p")));
    let mut manual = app();
    manual.source_type = "manual".into();
    manual.github_repo = String::new();
    manual.asset_pattern = Some("kept".into());
    let change = update_tracked_app(&given, &manual);
    assert_eq!((change.github_repo.as_str(), change.asset_pattern.as_deref()), ("", Some("kept")));
    assert_eq!(app_url(6), "/apps/tracked/6");
}

#[test]
fn an_uploaded_build_takes_the_place_of_the_one_before() {
    let mut a = app();
    a.latest_release_file_path = Some("data/old.apk".into());
    let plan =
        upload_tracked_app_release(&a, Some(" v1 "), &Some(vec![1]), "abc").ok().unwrap();
    assert_eq!((plan.label.as_str(), plan.folder.as_str()), ("v1", "data/tracked_apps/6"));
    assert_eq!(plan.file_path, "data/tracked_apps/6/abc.apk");
    assert_eq!(plan.remove.as_deref(), Some("data/old.apk"));
    let missing = "Fill in a release label and choose a file.";
    for (label, apk) in [
        (None, Some(vec![1])),
        (Some("v1"), None),
        (Some(" "), Some(vec![1])),
        (Some("v1"), Some(Vec::new())),
    ] {
        assert_eq!(upload_tracked_app_release(&a, label, &apk, "abc").err().unwrap(), missing);
    }
    assert_eq!(random_label().len(), 64);
}

#[test]
fn the_launcher_is_not_deleted() {
    let mut launcher = app();
    launcher.is_launcher = true;
    let plan = delete_tracked_app(6, Some(launcher));
    assert!(!plan.delete && plan.remove.is_none());
    assert_eq!(plan.redirect_to, "/apps/tracked/6");
    let mut other = app();
    other.latest_release_file_path = Some("data/old.apk".into());
    let plan = delete_tracked_app(6, Some(other));
    assert!(plan.delete);
    assert_eq!((plan.remove.as_deref(), plan.redirect_to.as_str()), (Some("data/old.apk"), "/apps"));
    let plan = delete_tracked_app(6, None);
    assert!(!plan.delete);
    assert_eq!(plan.redirect_to, "/apps");
}

#[test]
fn builds_of_the_launcher_are_uploaded_under_random_names() {
    let name = random_filename();
    assert_eq!(name.len(), 68);
    assert!(name.ends_with(".apk"));
    let plan = upload_release(Some(" 12 "), Some(" 1.2 "), &Some(vec![1]), &name).ok().unwrap();
    assert_eq!((plan.version_code, plan.version_name.as_str()), (12, "1.2"));
    assert_eq!(plan.file_path, format!("data/launcher_releases/{name}"));
    let missing = "Fill in the version code, version name, and choose a file.";
    for (code, version, apk) in [
        (None, Some("1"), Some(vec![1])),
        (Some("x"), Some("1"), Some(vec![1])),
        (Some("1"), None, Some(vec![1])),
        (Some("1"), Some(" "), Some(vec![1])),
        (Some("1"), Some("1"), None),
        (Some("1"), Some("1"), Some(Vec::new())),
    ] {
        assert_eq!(upload_release(code, version, &apk, "f").err().unwrap(), missing);
    }
}

#[test]
fn the_newest_build_is_the_current_one() {
    let build = |id: i64| LauncherRelease {
        id,
        version_code: id,
        version_name: String::new(),
        file_path: String::new(),
    };
    let (current, history) = list_releases(vec![build(3), build(2), build(1)]);
    assert_eq!(current.unwrap().id, 3);
    assert_eq!(history.iter().map(|r| r.id).collect::<Vec<_>>(), [2, 1]);
    assert!(list_releases(Vec::new()).0.is_none());
}
