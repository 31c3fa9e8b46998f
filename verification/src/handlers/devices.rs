//! The phones: enrolling them, the list of their apps, and their policy.

use crate::forms::{field, field_or, FormFields};
use crate::models::{Device, DevicePolicy, InstalledApp, TrackedApp};
use crate::numbers::{all_digits, as_i64, i64_text, lemma_number_text, number_text, parse_i64};
use crate::order::{
    all_views, arrange, in_order, lemma_in_order, lemma_in_order_members, lemma_tally_concat,
    lemma_tally_in_order, lemma_text_trichotomy, lemma_texts_coherent, less_text, tally, text_at_most, text_less, Placed,
};
use crate::outside::{json_texts, json_to_texts, lowercase, texts_json, texts_to_json, to_lowercase};
use crate::security::{generate_enrollment_code, hash_pin, is_enrollment_code, is_pin_hash};
use crate::text::{
    chars_of, digit, is_digit, opt_str_view, opt_view, same_text, trim, trimmed, views,
};
use vstd::prelude::*;

verus! {

/// How long an enrollment code can be used.
pub const ENROLLMENT_CODE_MINUTES: i64 = 30;

/// What stays available on a phone that is pinned to its allowed apps.
pub const LOCK_FEATURE_SYSTEM_INFO: i64 = 1;

pub const LOCK_FEATURE_NOTIFICATIONS: i64 = 2;

pub const LOCK_FEATURE_HOME: i64 = 4;

pub const LOCK_FEATURE_OVERVIEW: i64 = 8;

pub const LOCK_FEATURE_GLOBAL_ACTIONS: i64 = 16;

pub const LOCK_FEATURE_KEYGUARD: i64 = 32;

/// All of them: none can be switched off.
pub const DEFAULT_LOCK_TASK_FEATURES: i64 = LOCK_FEATURE_SYSTEM_INFO | LOCK_FEATURE_HOME
    | LOCK_FEATURE_OVERVIEW | LOCK_FEATURE_KEYGUARD | LOCK_FEATURE_NOTIFICATIONS
    | LOCK_FEATURE_GLOBAL_ACTIONS;

/// The switches that a phone shows its user.
pub const QUICK_CONTROL_WIFI: i64 = 1;

pub const QUICK_CONTROL_BLUETOOTH: i64 = 2;

pub const QUICK_CONTROL_BRIGHTNESS: i64 = 4;

// ----- the list of phones -----

/// What the list says of a phone.
pub open spec fn status_of(device: Device) -> Seq<char> {
    if device.enrolled_at is None {
        "Not enrolled yet"@
    } else {
        match device.last_seen_at {
            Some(t) => "Last seen "@ + t@,
            None => "Enrolled, not seen yet"@,
        }
    }
}

/// A line of the list of phones.
pub struct DeviceListRow {
    pub id: i64,
    pub name: String,
    pub status_text: String,
}

/// The list of phones.
pub fn list_devices(devices: &Vec<Device>) -> (r: Vec<DeviceListRow>)
    ensures
        r@.len() == devices@.len(),
        forall|i: int|
            0 <= i < r@.len() ==> {
                &&& (#[trigger] r@[i]).id == devices@[i].id
                &&& r@[i].name@ == devices@[i].name@
                &&& r@[i].status_text@ == status_of(devices@[i])
            },
{
    let mut rows: Vec<DeviceListRow> = Vec::new();
    let mut i: usize = 0;
    while i < devices.len()
        invariant
            i <= devices@.len(),
            rows@.len() == i,
            forall|j: int|
                0 <= j < i ==> {
                    &&& (#[trigger] rows@[j]).id == devices@[j].id
                    &&& rows@[j].name@ == devices@[j].name@
                    &&& rows@[j].status_text@ == status_of(devices@[j])
                },
        decreases devices@.len() - i,
    {
        let d = &devices[i];
        let status_text = if d.enrolled_at.is_none() {
            "Not enrolled yet".to_owned()
        } else {
            match &d.last_seen_at {
                Some(t) => {
                    let mut text = "Last seen ".to_owned();
                    text.append(t.as_str());
                    text
                },
                None => "Enrolled, not seen yet".to_owned(),
            }
        };
        rows.push(DeviceListRow { id: d.id, name: d.name.clone(), status_text });
        i += 1;
    }
    rows
}

/// The page of a phone.
pub open spec fn device_page(id: int) -> Seq<char> {
    "/devices/"@ + number_text(id)
}

/// The page of a phone.
pub fn device_url(id: i64) -> (r: String)
    ensures
        r@ == device_page(id as int),
{
    let mut r = "/devices/".to_owned();
    r.append(i64_text(id).as_str());
    r
}

/// The form for a new phone.
pub struct CreateDeviceForm {
    pub name: String,
}

/// A phone that is about to be entered.
pub struct NewDevice {
    pub name: String,
    pub enrollment_code: String,
    /// How long the code can be used, as the database takes it.
    pub code_span: String,
    pub kiosk_desired: bool,
    pub lock_task_features: i64,
}

/// How long an enrollment code can be used, as the database takes it.
pub fn code_span() -> (r: String)
    ensures
        r@ == "+"@ + number_text(ENROLLMENT_CODE_MINUTES as int) + " minutes"@,
{
    let mut r = "+".to_owned();
    r.append(i64_text(ENROLLMENT_CODE_MINUTES).as_str());
    r.append(" minutes");
    r
}

/// A new phone, with a fresh code. It starts pinned to its allowed apps.
pub fn create_device(form: CreateDeviceForm) -> (r: NewDevice)
    ensures
        r.name@ == form.name@,
        is_enrollment_code(r.enrollment_code@),
        r.code_span@ == "+"@ + number_text(ENROLLMENT_CODE_MINUTES as int) + " minutes"@,
        r.kiosk_desired,
        r.lock_task_features == DEFAULT_LOCK_TASK_FEATURES,
{
    NewDevice {
        name: form.name,
        enrollment_code: generate_enrollment_code(),
        code_span: code_span(),
        kiosk_desired: true,
        lock_task_features: DEFAULT_LOCK_TASK_FEATURES,
    }
}

/// A fresh code for a phone, and how long it can be used.
pub fn regenerate_code() -> (r: (String, String))
    ensures
        is_enrollment_code(r.0@),
        r.1@ == "+"@ + number_text(ENROLLMENT_CODE_MINUTES as int) + " minutes"@,
{
    (generate_enrollment_code(), code_span())
}

// ----- the allowlist -----

/// The packages of a stored allowlist: none where there is no list, or none
/// that can be read.
pub open spec fn allowed_packages(json: Option<Seq<char>>) -> Seq<Seq<char>> {
    match json {
        Some(text) => match json_texts(text) {
            Some(packages) => packages,
            None => Seq::empty(),
        },
        None => Seq::empty(),
    }
}

/// A list of packages with one more, unless it is there already.
pub open spec fn with_package(packages: Seq<Seq<char>>, package: Seq<char>) -> Seq<Seq<char>> {
    if packages.contains(package) {
        packages
    } else {
        packages.push(package)
    }
}

/// A list of packages without one.
pub open spec fn without_package(packages: Seq<Seq<char>>, package: Seq<char>) -> Seq<Seq<char>> {
    packages.filter(|p: Seq<char>| p != package)
}

/// Whether a package is on a list.
pub fn is_listed(packages: &Vec<String>, package: &str) -> (r: bool)
    ensures
        r == views(packages@).contains(package@),
{
    let ghost all = views(packages@);
    let mut i: usize = 0;
    while i < packages.len()
        invariant
            i <= packages@.len(),
            all == views(packages@),
            forall|j: int| 0 <= j < i ==> #[trigger] all[j] != package@,
        decreases packages@.len() - i,
    {
        if same_text(packages[i].as_str(), package) {
            proof {
                assert(all[i as int] == package@);
            }
            return true;
        }
        proof {
            assert(all[i as int] != package@);
        }
        i += 1;
    }
    false
}

/// The list with a package put behind it; nothing if it is there already.
pub fn allow_package(packages: Vec<String>, package: &str) -> (r: Option<Vec<String>>)
    ensures
        r is None <==> views(packages@).contains(package@),
        r matches Some(list) ==> views(list@) == with_package(views(packages@), package@),
{
    broadcast use crate::text::lemma_views_push;

    if is_listed(&packages, package) {
        return None;
    }
    let mut list = packages;
    list.push(package.to_owned());
    Some(list)
}

/// The list without a package; nothing if it was not there.
pub fn disallow_package(packages: &Vec<String>, package: &str) -> (r: Option<Vec<String>>)
    ensures
        r is None <==> !views(packages@).contains(package@),
        r matches Some(list) ==> views(list@) == without_package(views(packages@), package@),
{
    broadcast use crate::text::lemma_views_push;

    if !is_listed(packages, package) {
        return None;
    }
    let ghost all = views(packages@);
    let ghost pred = |p: Seq<char>| p != package@;
    let mut list: Vec<String> = Vec::new();
    let mut i: usize = 0;
    proof {
        reveal(Seq::filter);
        assert(views(list@) =~= all.take(0).filter(pred));
    }
    while i < packages.len()
        invariant
            i <= packages@.len(),
            all == views(packages@),
            pred == (|p: Seq<char>| p != package@),
            views(list@) == all.take(i as int).filter(pred),
        decreases packages@.len() - i,
    {
        proof {
            reveal(Seq::filter);
            assert(all.take(i + 1).drop_last() =~= all.take(i as int));
            assert(all.take(i + 1).last() == packages@[i as int]@);
        }
        if !same_text(packages[i].as_str(), package) {
            list.push(packages[i].clone());
        }
        i += 1;
    }
    proof {
        assert(all.take(i as int) =~= all);
    }
    Some(list)
}

/// The packages of a stored allowlist.
pub fn read_allowlist(json: Option<&str>) -> (r: Vec<String>)
    ensures
        views(r@) == allowed_packages(opt_str_view(json)),
{
    let read = match json {
        Some(text) => json_to_texts(text),
        None => None,
    };
    match read {
        Some(packages) => packages,
        None => {
            let r: Vec<String> = Vec::new();
            proof {
                assert(views(r@) =~= Seq::empty());
            }
            r
        },
    }
}

/// The allowlist to store so that a package is on it; nothing if it is there
/// already.
pub fn add_to_allowlist(json: Option<&str>, package: &str) -> (r: Option<String>)
    ensures
        ({
            let packages = allowed_packages(opt_str_view(json));
            &&& r is None <==> packages.contains(package@)
            &&& r matches Some(list) ==> list@ == texts_json(with_package(packages, package@))
                && allowed_packages(Some(list@)) == with_package(packages, package@)
        }),
{
    match allow_package(read_allowlist(json), package) {
        Some(list) => Some(texts_to_json(&list)),
        None => None,
    }
}

/// The allowlist to store so that a package is not on it; nothing if it was
/// not there.
pub fn remove_from_allowlist(json: Option<&str>, package: &str) -> (r: Option<String>)
    ensures
        ({
            let packages = allowed_packages(opt_str_view(json));
            &&& r is None <==> !packages.contains(package@)
            &&& r matches Some(list) ==> list@ == texts_json(without_package(packages, package@))
                && allowed_packages(Some(list@)) == without_package(packages, package@)
        }),
{
    match disallow_package(&read_allowlist(json), package) {
        Some(list) => Some(texts_to_json(&list)),
        None => None,
    }
}

/// A package that was allowed is on the list, and every other is on it just
/// as before.
pub proof fn law_allowing(packages: Seq<Seq<char>>, package: Seq<char>, other: Seq<char>)
    ensures
        with_package(packages, package).contains(package),
        other != package ==> (with_package(packages, package).contains(other)
            <==> packages.contains(other)),
{
    crate::order::lemma_contains_after_push(packages, package);
}

/// A package that was disallowed is not on the list, and every other is on it
/// just as before.
pub proof fn law_disallowing(packages: Seq<Seq<char>>, package: Seq<char>, other: Seq<char>)
    ensures
        !without_package(packages, package).contains(package),
        other != package ==> (without_package(packages, package).contains(other)
            <==> packages.contains(other)),
    decreases packages.len(),
{
    reveal(Seq::filter);
    if packages.len() > 0 {
        let fewer = packages.drop_last();
        law_disallowing(fewer, package, other);
        assert(packages =~= fewer.push(packages.last()));
        crate::order::lemma_contains_after_push(fewer, packages.last());
        crate::order::lemma_contains_after_push(without_package(fewer, package), packages.last());
    }
}

/// Allowing a package and disallowing it again leaves the list without it,
/// and otherwise as it was.
pub proof fn law_disallowing_undoes_allowing(packages: Seq<Seq<char>>, package: Seq<char>)
    ensures
        without_package(with_package(packages, package), package) == without_package(
            packages,
            package,
        ),
{
    reveal(Seq::filter);
    if !packages.contains(package) {
        assert(packages.push(package).drop_last() =~= packages);
    }
}

// ----- the list of apps -----

/// How far the install of an app has come on a phone.
pub struct InstallProgress {
    pub tracked_app_id: i64,
    pub percent: i64,
    pub failed: bool,
}

/// A line of the list of apps: one for each app that the phone has or that it
/// could be given.
pub struct UnifiedAppRow {
    pub package_name: String,
    pub label: String,
    pub tracked_app_id: Option<i64>,
    pub is_launcher: bool,
    pub checked: bool,
    pub status_label: String,
    pub is_installing: bool,
    pub install_failed: bool,
    /// The app is to be pushed but has no release yet.
    pub show_no_release_hint: bool,
}

/// A line of the list of apps, as a value.
pub struct AppRowView {
    pub package_name: Seq<char>,
    pub label: Seq<char>,
    pub tracked_app_id: Option<i64>,
    pub is_launcher: bool,
    pub checked: bool,
    pub status_label: Seq<char>,
    pub is_installing: bool,
    pub install_failed: bool,
    pub show_no_release_hint: bool,
}

impl View for UnifiedAppRow {
    type V = AppRowView;

    open spec fn view(&self) -> AppRowView {
        AppRowView {
            package_name: self.package_name@,
            label: self.label@,
            tracked_app_id: self.tracked_app_id,
            is_launcher: self.is_launcher,
            checked: self.checked,
            status_label: self.status_label@,
            is_installing: self.is_installing,
            install_failed: self.install_failed,
            show_no_release_hint: self.show_no_release_hint,
        }
    }
}

impl Placed for UnifiedAppRow {
    /// Lines stand in the order of their labels, whatever their case.
    open spec fn overtakes(later: AppRowView, earlier: AppRowView) -> bool {
        text_less(lowercase(later.label), lowercase(earlier.label))
    }

    fn passes(&self, earlier: &UnifiedAppRow) -> (r: bool) {
        let a = to_lowercase(self.label.as_str());
        let b = to_lowercase(earlier.label.as_str());
        less_text(a.as_str(), b.as_str())
    }

    proof fn coherent(a: AppRowView, b: AppRowView, c: AppRowView) {
        lemma_texts_coherent(lowercase(a.label), lowercase(b.label), lowercase(c.label));
    }
}

/// The app that phones are managed by: the first that is marked as such.
pub open spec fn launcher_of(catalog: Seq<TrackedApp>) -> Option<TrackedApp>
    decreases catalog.len(),
{
    if catalog.len() == 0 {
        None
    } else if catalog[0].is_launcher {
        Some(catalog[0])
    } else {
        launcher_of(catalog.skip(1))
    }
}

/// The first app of the catalog with a package name. An app without one is
/// never meant.
pub open spec fn tracked_match(catalog: Seq<TrackedApp>, package: Seq<char>) -> Option<i64>
    decreases catalog.len(),
{
    if catalog.len() == 0 {
        None
    } else if catalog[0].package_name@.len() > 0 && catalog[0].package_name@ == package {
        Some(catalog[0].id)
    } else {
        tracked_match(catalog.skip(1), package)
    }
}

/// The package is the launcher's.
pub open spec fn is_launcher_package(catalog: Seq<TrackedApp>, package: Seq<char>) -> bool {
    package.len() > 0 && launcher_of(catalog) is Some && launcher_of(catalog)->0.package_name@
        == package
}

/// The line for an app that the phone has.
pub open spec fn installed_row(
    app: InstalledApp,
    catalog: Seq<TrackedApp>,
    allowed: Seq<Seq<char>>,
) -> AppRowView {
    AppRowView {
        package_name: app.package_name@,
        label: app.label@,
        tracked_app_id: tracked_match(catalog, app.package_name@),
        is_launcher: false,
        checked: allowed.contains(app.package_name@),
        status_label: if app.preinstalled {
            "Preinstalled"@
        } else {
            "Installed"@
        },
        is_installing: false,
        install_failed: false,
        show_no_release_hint: false,
    }
}

/// The lines for the apps that the phone has. The launcher has a line of its
/// own.
pub open spec fn installed_rows(
    installed: Seq<InstalledApp>,
    catalog: Seq<TrackedApp>,
    allowed: Seq<Seq<char>>,
) -> Seq<AppRowView>
    decreases installed.len(),
{
    if installed.len() == 0 {
        Seq::empty()
    } else {
        let rows = installed_rows(installed.drop_last(), catalog, allowed);
        if is_launcher_package(catalog, installed.last().package_name@) {
            rows
        } else {
            rows.push(installed_row(installed.last(), catalog, allowed))
        }
    }
}

/// What was last said of an install.
pub open spec fn progress_of(progress: Seq<InstallProgress>, id: i64) -> Option<InstallProgress>
    decreases progress.len(),
{
    if progress.len() == 0 {
        None
    } else if progress.last().tracked_app_id == id {
        Some(progress.last())
    } else {
        progress_of(progress.drop_last(), id)
    }
}

/// The line for an app of the catalog that the phone does not have.
pub open spec fn catalog_row(
    app: TrackedApp,
    selected: Seq<i64>,
    progress: Seq<InstallProgress>,
) -> AppRowView {
    let last = progress_of(progress, app.id);
    AppRowView {
        package_name: app.package_name@,
        label: app.name@,
        tracked_app_id: Some(app.id),
        is_launcher: false,
        checked: selected.contains(app.id),
        status_label: match last {
            Some(p) => if p.failed {
                "Install failed"@
            } else {
                "Installing "@ + number_text(p.percent as int) + "%"@
            },
            None => "Not installed"@,
        },
        is_installing: last is Some && !last->0.failed,
        install_failed: last is Some && last->0.failed,
        show_no_release_hint: app.latest_release_tag is None,
    }
}

/// The phone has a package.
pub open spec fn has_package(installed: Seq<InstalledApp>, package: Seq<char>) -> bool {
    exists|i: int| 0 <= i < installed.len() && (#[trigger] installed[i]).package_name@ == package
}

/// The app of the catalog has a line of its own: the phone does not have it,
/// and it is not the launcher.
pub open spec fn stands_in_catalog(app: TrackedApp, installed: Seq<InstalledApp>) -> bool {
    !app.is_launcher && (app.package_name@.len() == 0 || !has_package(installed, app.package_name@))
}

/// The lines for the apps of the catalog that the phone does not have.
pub open spec fn catalog_rows(
    catalog: Seq<TrackedApp>,
    installed: Seq<InstalledApp>,
    selected: Seq<i64>,
    progress: Seq<InstallProgress>,
) -> Seq<AppRowView>
    decreases catalog.len(),
{
    if catalog.len() == 0 {
        Seq::empty()
    } else {
        let rows = catalog_rows(catalog.drop_last(), installed, selected, progress);
        if stands_in_catalog(catalog.last(), installed) {
            rows.push(catalog_row(catalog.last(), selected, progress))
        } else {
            rows
        }
    }
}

/// The line for the launcher.
pub open spec fn launcher_row(app: TrackedApp) -> AppRowView {
    AppRowView {
        package_name: app.package_name@,
        label: app.name@,
        tracked_app_id: Some(app.id),
        is_launcher: true,
        checked: true,
        status_label: "Installed"@,
        is_installing: false,
        install_failed: false,
        show_no_release_hint: false,
    }
}

/// The list of apps: the launcher, then all the others by their labels.
pub open spec fn app_list(
    installed: Seq<InstalledApp>,
    catalog: Seq<TrackedApp>,
    allowed: Seq<Seq<char>>,
    selected: Seq<i64>,
    progress: Seq<InstallProgress>,
) -> Seq<AppRowView> {
    let others = in_order::<UnifiedAppRow>(
        installed_rows(installed, catalog, allowed) + catalog_rows(
            catalog,
            installed,
            selected,
            progress,
        ),
    );
    match launcher_of(catalog) {
        Some(launcher) => seq![launcher_row(launcher)] + others,
        None => others,
    }
}

/// No two apps that the phone has are the same package.
pub open spec fn distinct_packages(installed: Seq<InstalledApp>) -> bool {
    forall|i: int, j: int|
        0 <= i < j < installed.len() ==> (#[trigger] installed[i]).package_name@ != (
        #[trigger] installed[j]).package_name@
}

/// No two apps of the catalog are the same package, and no two are marked as
/// the launcher.
pub open spec fn distinct_catalog(catalog: Seq<TrackedApp>) -> bool {
    forall|i: int, j: int|
        0 <= i < j < catalog.len() ==> {
            &&& (#[trigger] catalog[i]).package_name@.len() > 0 ==> catalog[i].package_name@ != (
            #[trigger] catalog[j]).package_name@
            &&& !(catalog[i].is_launcher && catalog[j].is_launcher)
        }
}

/// The catalog has a package.
pub open spec fn in_catalog(catalog: Seq<TrackedApp>, package: Seq<char>) -> bool {
    exists|i: int| 0 <= i < catalog.len() && (#[trigger] catalog[i]).package_name@ == package
}

/// The line is for a package.
pub open spec fn row_for(package: Seq<char>) -> spec_fn(AppRowView) -> bool {
    |row: AppRowView| row.package_name == package
}

proof fn lemma_installed_rows(
    installed: Seq<InstalledApp>,
    catalog: Seq<TrackedApp>,
    allowed: Seq<Seq<char>>,
    package: Seq<char>,
)
    requires
        distinct_packages(installed),
    ensures
        tally(installed_rows(installed, catalog, allowed), row_for(package)) == (if has_package(
            installed,
            package,
        ) && !is_launcher_package(catalog, package) {
            1nat
        } else {
            0nat
        }),
    decreases installed.len(),
{
    if installed.len() > 0 {
        let fewer = installed.drop_last();
        let last = installed.last();
        assert forall|i: int, j: int| 0 <= i < j < fewer.len() implies (
        #[trigger] fewer[i]).package_name@ != (#[trigger] fewer[j]).package_name@ by {
            assert(installed[i].package_name@ != installed[j].package_name@);
        }
        lemma_installed_rows(fewer, catalog, allowed, package);
        if last.package_name@ == package {
            if has_package(fewer, package) {
                let i = choose|i: int|
                    0 <= i < fewer.len() && (#[trigger] fewer[i]).package_name@ == package;
                assert(installed[i].package_name@ != installed[installed.len()
                    - 1].package_name@);
            }
            assert(installed[installed.len() - 1].package_name@ == package);
        } else {
            if has_package(fewer, package) {
                let i = choose|i: int|
                    0 <= i < fewer.len() && (#[trigger] fewer[i]).package_name@ == package;
                assert(installed[i].package_name@ == package);
            }
            if has_package(installed, package) {
                let i = choose|i: int|
                    0 <= i < installed.len() && (#[trigger] installed[i]).package_name@ == package;
                assert(fewer[i].package_name@ == package);
            }
        }
        let rows = installed_rows(fewer, catalog, allowed);
        let row = installed_row(last, catalog, allowed);
        assert(rows.push(row).drop_last() =~= rows);
    }
}

/// The catalog has a package that is not the launcher.
pub open spec fn other_in_catalog(catalog: Seq<TrackedApp>, package: Seq<char>) -> bool {
    exists|i: int|
        0 <= i < catalog.len() && (#[trigger] catalog[i]).package_name@ == package
            && !catalog[i].is_launcher
}

proof fn lemma_catalog_rows(
    catalog: Seq<TrackedApp>,
    installed: Seq<InstalledApp>,
    selected: Seq<i64>,
    progress: Seq<InstallProgress>,
    package: Seq<char>,
)
    requires
        distinct_catalog(catalog),
        package.len() > 0,
    ensures
        tally(catalog_rows(catalog, installed, selected, progress), row_for(package)) == (
        if other_in_catalog(catalog, package) && !has_package(installed, package) {
            1nat
        } else {
            0nat
        }),
    decreases catalog.len(),
{
    if catalog.len() > 0 {
        let fewer = catalog.drop_last();
        let last = catalog.last();
        let n = catalog.len() - 1;
        assert forall|i: int, j: int| 0 <= i < j < fewer.len() implies {
            &&& (#[trigger] fewer[i]).package_name@.len() > 0 ==> fewer[i].package_name@ != (
            #[trigger] fewer[j]).package_name@
            &&& !(fewer[i].is_launcher && fewer[j].is_launcher)
        } by {
            assert(catalog[i] == fewer[i] && catalog[j] == fewer[j]);
        }
        lemma_catalog_rows(fewer, installed, selected, progress, package);
        if other_in_catalog(fewer, package) {
            let i = choose|i: int|
                0 <= i < fewer.len() && (#[trigger] fewer[i]).package_name@ == package
                    && !fewer[i].is_launcher;
            assert(catalog[i].package_name@ == package && !catalog[i].is_launcher);
            assert(catalog[i].package_name@ != catalog[n].package_name@);
        }
        if last.package_name@ == package && !last.is_launcher {
            assert(catalog[n].package_name@ == package && !catalog[n].is_launcher);
        } else if other_in_catalog(catalog, package) {
            let i = choose|i: int|
                0 <= i < catalog.len() && (#[trigger] catalog[i]).package_name@ == package
                    && !catalog[i].is_launcher;
            assert(fewer[i].package_name@ == package && !fewer[i].is_launcher);
        }
        let rows = catalog_rows(fewer, installed, selected, progress);
        let row = catalog_row(last, selected, progress);
        assert(rows.push(row).drop_last() =~= rows);
    }
}

/// The launcher stands in the catalog, and only the launcher is marked.
proof fn lemma_launcher(catalog: Seq<TrackedApp>, i: int)
    requires
        distinct_catalog(catalog),
        0 <= i < catalog.len(),
        catalog[i].is_launcher,
    ensures
        launcher_of(catalog) == Some(catalog[i]),
    decreases catalog.len(),
{
    if i > 0 {
        assert(!(catalog[0].is_launcher && catalog[i].is_launcher));
        let rest = catalog.skip(1);
        assert forall|a: int, b: int| 0 <= a < b < rest.len() implies {
            &&& (#[trigger] rest[a]).package_name@.len() > 0 ==> rest[a].package_name@ != (
            #[trigger] rest[b]).package_name@
            &&& !(rest[a].is_launcher && rest[b].is_launcher)
        } by {
            assert(catalog[a + 1] == rest[a] && catalog[b + 1] == rest[b]);
        }
        lemma_launcher(rest, i - 1);
    }
}

proof fn lemma_launcher_stands(catalog: Seq<TrackedApp>)
    requires
        launcher_of(catalog) is Some,
    ensures
        exists|i: int|
            0 <= i < catalog.len() && #[trigger] catalog[i] == launcher_of(catalog)->0
                && catalog[i].is_launcher,
    decreases catalog.len(),
{
    if catalog[0].is_launcher {
        assert(catalog[0] == launcher_of(catalog)->0);
    } else {
        lemma_launcher_stands(catalog.skip(1));
        let i = choose|i: int|
            0 <= i < catalog.skip(1).len() && #[trigger] catalog.skip(1)[i] == launcher_of(
                catalog.skip(1),
            )->0 && catalog.skip(1)[i].is_launcher;
        assert(catalog[i + 1] == launcher_of(catalog)->0);
    }
}

/// Every package that the phone has or that the catalog offers has exactly
/// one line, and nothing else has one.
pub proof fn law_one_line_for_each_package(
    installed: Seq<InstalledApp>,
    catalog: Seq<TrackedApp>,
    allowed: Seq<Seq<char>>,
    selected: Seq<i64>,
    progress: Seq<InstallProgress>,
    package: Seq<char>,
)
    requires
        distinct_packages(installed),
        distinct_catalog(catalog),
        package.len() > 0,
    ensures
        tally(app_list(installed, catalog, allowed, selected, progress), row_for(package)) == (
        if has_package(installed, package) || in_catalog(catalog, package) {
            1nat
        } else {
            0nat
        }),
{
    let kind = row_for(package);
    let a = installed_rows(installed, catalog, allowed);
    let b = catalog_rows(catalog, installed, selected, progress);
    let others = in_order::<UnifiedAppRow>(a + b);
    lemma_installed_rows(installed, catalog, allowed, package);
    lemma_catalog_rows(catalog, installed, selected, progress, package);
    lemma_tally_concat(a, b, kind);
    lemma_tally_in_order::<UnifiedAppRow>(a + b, kind);
    match launcher_of(catalog) {
        Some(launcher) => {
            let first = seq![launcher_row(launcher)];
            lemma_tally_concat(first, others, kind);
            assert(first.drop_last() =~= Seq::<AppRowView>::empty());
            assert(tally(first.drop_last(), kind) == 0);
            lemma_launcher_stands(catalog);
            let k = choose|k: int|
                0 <= k < catalog.len() && #[trigger] catalog[k] == launcher
                    && catalog[k].is_launcher;
            if launcher.package_name@ == package {
                assert(catalog[k].package_name@ == package);
                if other_in_catalog(catalog, package) {
                    let i = choose|i: int|
                        0 <= i < catalog.len() && (#[trigger] catalog[i]).package_name@ == package
                            && !catalog[i].is_launcher;
                    if i < k {
                        assert(catalog[i].package_name@ != catalog[k].package_name@);
                    } else {
                        assert(catalog[k].package_name@ != catalog[i].package_name@);
                    }
                }
            }
        },
        None => {},
    }
    if in_catalog(catalog, package) && !other_in_catalog(catalog, package) {
        let i = choose|i: int|
            0 <= i < catalog.len() && (#[trigger] catalog[i]).package_name@ == package;
        assert(catalog[i].is_launcher);
        lemma_launcher(catalog, i);
    }
    if other_in_catalog(catalog, package) {
        let i = choose|i: int|
            0 <= i < catalog.len() && (#[trigger] catalog[i]).package_name@ == package
                && !catalog[i].is_launcher;
        assert(catalog[i].package_name@ == package);
    }
}

/// The launcher's line, if there is one, comes first; the others follow in
/// the order of their labels, whatever their case.
pub proof fn law_apps_are_in_order(
    installed: Seq<InstalledApp>,
    catalog: Seq<TrackedApp>,
    allowed: Seq<Seq<char>>,
    selected: Seq<i64>,
    progress: Seq<InstallProgress>,
    i: int,
    j: int,
)
    requires
        0 <= i < j < app_list(installed, catalog, allowed, selected, progress).len(),
    ensures
        ({
            let list = app_list(installed, catalog, allowed, selected, progress);
            if i == 0 && launcher_of(catalog) is Some {
                list[0] == launcher_row(launcher_of(catalog)->0)
            } else {
                text_at_most(lowercase(list[i].label), lowercase(list[j].label))
            }
        }),
{
    let rows = installed_rows(installed, catalog, allowed) + catalog_rows(
        catalog,
        installed,
        selected,
        progress,
    );
    let others = in_order::<UnifiedAppRow>(rows);
    lemma_in_order::<UnifiedAppRow>(rows);
    let list = app_list(installed, catalog, allowed, selected, progress);
    let d = if launcher_of(catalog) is Some {
        1int
    } else {
        0int
    };
    if i >= d {
        assert(list[i] == others[i - d] && list[j] == others[j - d]);
        assert(!UnifiedAppRow::overtakes(others[j - d], others[i - d]));
        lemma_text_trichotomy(lowercase(list[i].label), lowercase(list[j].label));
    }
}

/// The first app of the catalog that is marked as the launcher.
fn find_launcher(catalog: &Vec<TrackedApp>) -> (r: Option<usize>)
    ensures
        match r {
            Some(i) => i < catalog@.len() && launcher_of(catalog@) == Some(catalog@[i as int]),
            None => launcher_of(catalog@) is None,
        },
{
    let mut i: usize = 0;
    proof {
        assert(catalog@.skip(0) =~= catalog@);
    }
    while i < catalog.len()
        invariant
            i <= catalog@.len(),
            launcher_of(catalog@) == launcher_of(catalog@.skip(i as int)),
        decreases catalog@.len() - i,
    {
        proof {
            assert(catalog@.skip(i as int).skip(1) =~= catalog@.skip(i + 1));
        }
        if catalog[i].is_launcher {
            return Some(i);
        }
        i += 1;
    }
    None
}

fn find_match(catalog: &Vec<TrackedApp>, package: &str) -> (r: Option<i64>)
    ensures
        r == tracked_match(catalog@, package@),
{
    let mut i: usize = 0;
    proof {
        assert(catalog@.skip(0) =~= catalog@);
    }
    while i < catalog.len()
        invariant
            i <= catalog@.len(),
            tracked_match(catalog@, package@) == tracked_match(catalog@.skip(i as int), package@),
        decreases catalog@.len() - i,
    {
        proof {
            assert(catalog@.skip(i as int).skip(1) =~= catalog@.skip(i + 1));
        }
        if !catalog[i].package_name.as_str().is_empty() && same_text(
            catalog[i].package_name.as_str(),
            package,
        ) {
            return Some(catalog[i].id);
        }
        i += 1;
    }
    None
}

fn find_progress(progress: &Vec<InstallProgress>, id: i64) -> (r: Option<(i64, bool)>)
    ensures
        r == match progress_of(progress@, id) {
            Some(p) => Some((p.percent, p.failed)),
            None => None,
        },
{
    let mut i: usize = progress.len();
    proof {
        assert(progress@.take(i as int) =~= progress@);
    }
    while i > 0
        invariant
            i <= progress@.len(),
            progress_of(progress@, id) == progress_of(progress@.take(i as int), id),
        decreases i,
    {
        proof {
            assert(progress@.take(i as int).drop_last() =~= progress@.take(i - 1));
            assert(progress@.take(i as int).last() == progress@[i - 1]);
        }
        i -= 1;
        if progress[i].tracked_app_id == id {
            return Some((progress[i].percent, progress[i].failed));
        }
    }
    None
}

fn is_selected(selected: &Vec<i64>, id: i64) -> (r: bool)
    ensures
        r == selected@.contains(id),
{
    let mut i: usize = 0;
    while i < selected.len()
        invariant
            i <= selected@.len(),
            forall|j: int| 0 <= j < i ==> selected@[j] != id,
        decreases selected@.len() - i,
    {
        if selected[i] == id {
            return true;
        }
        i += 1;
    }
    false
}

/// Whether the phone has a package, and whether it came with the phone: the
/// first app of that name says so.
pub open spec fn app_status(installed: Seq<InstalledApp>, package: Seq<char>) -> (bool, bool)
    decreases installed.len(),
{
    if installed.len() == 0 {
        (false, false)
    } else if installed[0].package_name@ == package {
        (true, installed[0].preinstalled)
    } else {
        app_status(installed.skip(1), package)
    }
}

/// Whether the phone has a package, and whether it came with the phone.
pub fn installed_app_status(installed: &Vec<InstalledApp>, package: &str) -> (r: (bool, bool))
    ensures
        r == app_status(installed@, package@),
        r.0 == has_package(installed@, package@),
{
    let mut i: usize = 0;
    proof {
        assert(installed@.skip(0) =~= installed@);
    }
    while i < installed.len()
        invariant
            i <= installed@.len(),
            app_status(installed@, package@) == app_status(installed@.skip(i as int), package@),
            forall|j: int| 0 <= j < i ==> (#[trigger] installed@[j]).package_name@ != package@,
        decreases installed@.len() - i,
    {
        proof {
            assert(installed@.skip(i as int).skip(1) =~= installed@.skip(i + 1));
            assert(installed@.skip(i as int)[0] == installed@[i as int]);
        }
        if same_text(installed[i].package_name.as_str(), package) {
            return (true, installed[i].preinstalled);
        }
        i += 1;
    }
    (false, false)
}

/// The list of apps of a phone. Progress is what was said of installs in the
/// last minutes.
pub fn unified_apps(
    installed: &Vec<InstalledApp>,
    catalog: &Vec<TrackedApp>,
    allowed: &Vec<String>,
    selected: &Vec<i64>,
    progress: &Vec<InstallProgress>,
) -> (r: Vec<UnifiedAppRow>)
    ensures
        all_views(r@) == app_list(
            installed@,
            catalog@,
            views(allowed@),
            selected@,
            progress@,
        ),
{
    let launcher = find_launcher(catalog);
    let mut rows: Vec<UnifiedAppRow> = Vec::new();
    let mut i: usize = 0;
    proof {
        assert(all_views(rows@) =~= installed_rows(installed@.take(0), catalog@, views(allowed@)));
    }
    while i < installed.len()
        invariant
            match launcher {
                Some(k) => k < catalog@.len() && launcher_of(catalog@) == Some(catalog@[k as int]),
                None => launcher_of(catalog@) is None,
            },
            i <= installed@.len(),
            all_views(rows@) == installed_rows(
                installed@.take(i as int),
                catalog@,
                views(allowed@),
            ),
        decreases installed@.len() - i,
    {
        let ghost before = rows@;
        let app = &installed[i];
        proof {
            assert(installed@.take(i + 1).drop_last() =~= installed@.take(i as int));
            assert(installed@.take(i + 1).last() == *app);
        }
        let own = match launcher {
            Some(k) => !app.package_name.as_str().is_empty() && same_text(
                catalog[k].package_name.as_str(),
                app.package_name.as_str(),
            ),
            None => false,
        };
        if !own {
            let row = UnifiedAppRow {
                package_name: app.package_name.clone(),
                label: app.label.clone(),
                tracked_app_id: find_match(catalog, app.package_name.as_str()),
                is_launcher: false,
                checked: is_listed(allowed, app.package_name.as_str()),
                status_label: if app.preinstalled {
                    "Preinstalled".to_owned()
                } else {
                    "Installed".to_owned()
                },
                is_installing: false,
                install_failed: false,
                show_no_release_hint: false,
            };
            rows.push(row);
            proof {
                assert(row@ == installed_row(*app, catalog@, views(allowed@)));
                assert(all_views(rows@) =~= all_views(before).push(row@));
            }
        }
        i += 1;
    }
    let ghost first = installed_rows(installed@, catalog@, views(allowed@));
    proof {
        assert(installed@.take(i as int) =~= installed@);
        assert(first =~= first + catalog_rows(
            catalog@.take(0),
            installed@,
            selected@,
            progress@,
        ));
    }
    let mut k: usize = 0;
    while k < catalog.len()
        invariant
            k <= catalog@.len(),
            all_views(rows@) == first + catalog_rows(
                catalog@.take(k as int),
                installed@,
                selected@,
                progress@,
            ),
        decreases catalog@.len() - k,
    {
        let ghost before = rows@;
        let app = &catalog[k];
        proof {
            assert(catalog@.take(k + 1).drop_last() =~= catalog@.take(k as int));
            assert(catalog@.take(k + 1).last() == *app);
        }
        let present = !app.package_name.as_str().is_empty() && installed_app_status(
            installed,
            app.package_name.as_str(),
        ).0;
        if !app.is_launcher && !present {
            let last = find_progress(progress, app.id);
            let (status_label, is_installing, install_failed) = match last {
                Some((_, true)) => ("Install failed".to_owned(), false, true),
                Some((percent, false)) => {
                    let mut text = "Installing ".to_owned();
                    text.append(i64_text(percent).as_str());
                    text.append("%");
                    (text, true, false)
                },
                None => ("Not installed".to_owned(), false, false),
            };
            let row = UnifiedAppRow {
                package_name: app.package_name.clone(),
                label: app.name.clone(),
                tracked_app_id: Some(app.id),
                is_launcher: false,
                checked: is_selected(selected, app.id),
                status_label,
                is_installing,
                install_failed,
                show_no_release_hint: app.latest_release_tag.is_none(),
            };
            rows.push(row);
            proof {
                assert(row@ == catalog_row(*app, selected@, progress@));
                assert(all_views(rows@) =~= all_views(before).push(row@));
            }
        }
        k += 1;
    }
    proof {
        assert(catalog@.take(k as int) =~= catalog@);
    }
    let mut list = arrange(rows);
    match launcher {
        Some(k) => {
            let ghost others = list@;
            let row = UnifiedAppRow {
                package_name: catalog[k].package_name.clone(),
                label: catalog[k].name.clone(),
                tracked_app_id: Some(catalog[k].id),
                is_launcher: true,
                checked: true,
                status_label: "Installed".to_owned(),
                is_installing: false,
                install_failed: false,
                show_no_release_hint: false,
            };
            list.insert(0, row);
            proof {
                assert(row@ == launcher_row(catalog@[k as int]));
                assert(all_views(list@) =~= seq![row@] + all_views(others));
            }
        },
        None => {},
    }
    list
}

// ----- the page of a phone -----

/// The policy of a phone for which none was set yet: no schedule, no
/// restrictions on the radios, and the filter on.
pub fn unset_policy(device_id: i64) -> (r: DevicePolicy)
    ensures
        r.device_id == device_id,
        r.allowlist_json is None,
        !r.custom_schedule_enabled,
        r.weekday_start_minutes is None,
        r.weekday_end_minutes is None,
        r.weekend_start_minutes is None,
        r.weekend_end_minutes is None,
        r.bedtime_start_minutes is None,
        r.bedtime_end_minutes is None,
        !r.kiosk_desired,
        r.lock_task_features is None,
        r.wifi_mode@ == "open"@,
        r.bluetooth_mode@ == "open"@,
        r.override_pin_hash is None,
        r.override_pin_salt is None,
        r.quick_controls_mask == 0,
        r.vpn_filter_enabled,
{
    DevicePolicy {
        device_id,
        allowlist_json: None,
        custom_schedule_enabled: false,
        weekday_start_minutes: None,
        weekday_end_minutes: None,
        weekend_start_minutes: None,
        weekend_end_minutes: None,
        bedtime_start_minutes: None,
        bedtime_end_minutes: None,
        kiosk_desired: false,
        lock_task_features: None,
        wifi_mode: "open".to_owned(),
        bluetooth_mode: "open".to_owned(),
        override_pin_hash: None,
        override_pin_salt: None,
        quick_controls_mask: 0,
        vpn_filter_enabled: true,
    }
}

/// What the page of a phone shows.
pub struct DeviceDetail {
    pub title: String,
    pub apps: Vec<UnifiedAppRow>,
    pub any_app_installing: bool,
    pub pin_configured: bool,
    pub offline_override_used: bool,
    /// Whether the phone is pinned to its allowed apps.
    pub kiosk_desired: bool,
    pub vpn_filter_enabled: bool,
    pub quick_control_wifi: bool,
    pub quick_control_bluetooth: bool,
    pub quick_control_brightness: bool,
}

/// The switches of a mask.
pub open spec fn shows(mask: i64, control: i64) -> bool {
    mask & control != 0
}

/// What the page of a phone shows. The apps that it has and whether its
/// override was used are taken from its last report, if there is one.
pub fn view_device(
    device: &Device,
    policy: Option<DevicePolicy>,
    installed: &Vec<InstalledApp>,
    offline_override_used: Option<bool>,
    catalog: &Vec<TrackedApp>,
    selected: &Vec<i64>,
    progress: &Vec<InstallProgress>,
) -> (r: DeviceDetail)
    ensures
        r.title@ == device.name@,
        ({
            let json = match policy {
                Some(p) => opt_view(p.allowlist_json),
                None => None,
            };
            all_views(r.apps@) == app_list(
                installed@,
                catalog@,
                allowed_packages(json),
                selected@,
                progress@,
            )
        }),
        r.any_app_installing <==> exists|i: int|
            0 <= i < r.apps@.len() && (#[trigger] r.apps@[i]).is_installing,
        r.pin_configured <==> policy is Some && policy->0.override_pin_hash is Some,
        r.offline_override_used <==> offline_override_used == Some(true),
        r.kiosk_desired <==> policy is Some && policy->0.kiosk_desired,
        r.vpn_filter_enabled <==> policy is None || policy->0.vpn_filter_enabled,
        r.quick_control_wifi <==> policy is Some && shows(
            policy->0.quick_controls_mask,
            QUICK_CONTROL_WIFI,
        ),
        r.quick_control_bluetooth <==> policy is Some && shows(
            policy->0.quick_controls_mask,
            QUICK_CONTROL_BLUETOOTH,
        ),
        r.quick_control_brightness <==> policy is Some && shows(
            policy->0.quick_controls_mask,
            QUICK_CONTROL_BRIGHTNESS,
        ),
{
    let set = match policy {
        Some(p) => p,
        None => unset_policy(device.id),
    };
    proof {
        assert(0i64 & 1i64 == 0i64 && 0i64 & 2i64 == 0i64 && 0i64 & 4i64 == 0i64) by (bit_vector);
    }
    let json = match &set.allowlist_json {
        Some(text) => Some(text.as_str()),
        None => None,
    };
    let allowed = read_allowlist(json);
    let apps = unified_apps(installed, catalog, &allowed, selected, progress);
    let mut any_app_installing = false;
    let mut i: usize = 0;
    while i < apps.len()
        invariant
            i <= apps@.len(),
            any_app_installing <==> exists|j: int|
                0 <= j < i && (#[trigger] apps@[j]).is_installing,
        decreases apps@.len() - i,
    {
        if apps[i].is_installing {
            any_app_installing = true;
        }
        i += 1;
    }
    DeviceDetail {
        title: device.name.clone(),
        apps,
        any_app_installing,
        pin_configured: set.override_pin_hash.is_some(),
        offline_override_used: match offline_override_used {
            Some(used) => used,
            None => false,
        },
        kiosk_desired: set.kiosk_desired,
        vpn_filter_enabled: set.vpn_filter_enabled,
        quick_control_wifi: set.quick_controls_mask & QUICK_CONTROL_WIFI != 0,
        quick_control_bluetooth: set.quick_controls_mask & QUICK_CONTROL_BLUETOOTH != 0,
        quick_control_brightness: set.quick_controls_mask & QUICK_CONTROL_BRIGHTNESS != 0,
    }
}

// ----- switching an app on or off -----

/// What has to be done when an app is switched on or off for a phone.
pub struct TogglePlan {
    /// The app of the catalog to push to the phone.
    pub track: Option<i64>,
    /// The app of the catalog to push no longer.
    pub untrack: Option<i64>,
    /// The allowlist to store, if it changes.
    pub allowlist: Option<String>,
    /// The package to uninstall.
    pub uninstall: Option<String>,
}

/// The app that a form names by its number.
pub open spec fn named_app(form: Map<Seq<char>, Seq<char>>) -> Option<int> {
    match field(form, "tracked_app_id"@) {
        Some(text) => as_i64(text),
        None => None,
    }
}

/// A number, as an integer.
pub open spec fn opt_int(n: Option<i64>) -> Option<int> {
    match n {
        Some(v) => Some(v as int),
        None => None,
    }
}

/// The field of a form as a number.
pub fn number_field(form: &FormFields, name: &str) -> (r: Option<i64>)
    ensures
        opt_int(r) == match field(form@, name@) {
            Some(text) => as_i64(text),
            None => None,
        },
{
    match form.get(name) {
        Some(text) => parse_i64(text),
        None => None,
    }
}

/// The launcher is among what a form names: its number, or its package.
pub open spec fn names_launcher(form: Map<Seq<char>, Seq<char>>, catalog: Seq<TrackedApp>) -> bool {
    exists|i: int|
        0 <= i < catalog.len() && (#[trigger] catalog[i]).is_launcher && (named_app(form) == Some(
            catalog[i].id as int,
        ) || (catalog[i].package_name@.len() > 0 && field_or(form, "package_name"@, ""@)
            == catalog[i].package_name@))
}

/// The plan is what has to be done when a form switches a line of the list.
pub open spec fn is_toggle_plan(
    form: Map<Seq<char>, Seq<char>>,
    allowlist_json: Option<Seq<char>>,
    installed: Seq<InstalledApp>,
    catalog: Seq<TrackedApp>,
    plan: TogglePlan,
) -> bool {
    let on = form.contains_key("selected"@);
    let package = field_or(form, "package_name"@, ""@);
    let packages = allowed_packages(allowlist_json);
    if !on && names_launcher(form, catalog) {
        &&& plan.track is None
        &&& plan.untrack is None
        &&& plan.allowlist is None
        &&& plan.uninstall is None
    } else {
        &&& opt_int(plan.track) == if on {
            named_app(form)
        } else {
            None
        }
        &&& opt_int(plan.untrack) == if on {
            None
        } else {
            named_app(form)
        }
        &&& plan.allowlist is Some <==> package.len() > 0 && (packages.contains(package) != on)
        &&& plan.allowlist matches Some(list) ==> {
            let wanted = if on {
                with_package(packages, package)
            } else {
                without_package(packages, package)
            };
            list@ == texts_json(wanted) && allowed_packages(Some(list@)) == wanted
        }
        &&& opt_view(plan.uninstall) == if !on && package.len() > 0 && app_status(
            installed,
            package,
        ) == (true, false) {
            Some(package)
        } else {
            None
        }
    }
}

/// Whether the launcher is among what a form names.
fn launcher_is_named(form: &FormFields, catalog: &Vec<TrackedApp>) -> (r: bool)
    ensures
        r == names_launcher(form@, catalog@),
{
    let package = form.get_or("package_name", "");
    let app = number_field(form, "tracked_app_id");
    let mut i: usize = 0;
    while i < catalog.len()
        invariant
            package@ == field_or(form@, "package_name"@, ""@),
            opt_int(app) == named_app(form@),
            i <= catalog@.len(),
            forall|j: int|
                0 <= j < i && (#[trigger] catalog@[j]).is_launcher ==> named_app(form@) != Some(
                    catalog@[j].id as int,
                ) && (catalog@[j].package_name@.len() == 0 || package@ != catalog@[j].package_name@),
        decreases catalog@.len() - i,
    {
        let by_number = match app {
            Some(id) => id == catalog[i].id,
            None => false,
        };
        let by_package = !catalog[i].package_name.as_str().is_empty() && same_text(
            package.as_str(),
            catalog[i].package_name.as_str(),
        );
        if catalog[i].is_launcher && (by_number || by_package) {
            proof {
                assert(catalog@[i as int].is_launcher);
            }
            return true;
        }
        i += 1;
    }
    false
}

/// What has to be done when a line of the list of apps is switched. A line
/// names an app of the catalog, a package, or both. Switching it on pushes the
/// app and allows the package; switching it off stops both and uninstalls the
/// package, if the phone has it and it did not come with the phone. The
/// launcher cannot be switched off.
pub fn toggle_app(
    form: &FormFields,
    allowlist_json: Option<&str>,
    installed: &Vec<InstalledApp>,
    catalog: &Vec<TrackedApp>,
) -> (r: TogglePlan)
    ensures
        is_toggle_plan(
            form@,
            opt_str_view(allowlist_json),
            installed@,
            catalog@,
            r,
        ),
{
    let on = form.contains_key("selected");
    let package = form.get_or("package_name", "");
    let app = number_field(form, "tracked_app_id");
    let named = !package.as_str().is_empty();
    if on {
        TogglePlan {
            track: app,
            untrack: None,
            allowlist: if named {
                add_to_allowlist(allowlist_json, package.as_str())
            } else {
                None
            },
            uninstall: None,
        }
    } else if launcher_is_named(form, catalog) {
        TogglePlan { track: None, untrack: None, allowlist: None, uninstall: None }
    } else {
        let (present, preinstalled) = installed_app_status(installed, package.as_str());
        TogglePlan {
            track: None,
            untrack: app,
            allowlist: if named {
                remove_from_allowlist(allowlist_json, package.as_str())
            } else {
                None
            },
            uninstall: if named && present && !preinstalled {
                Some(package)
            } else {
                None
            },
        }
    }
}

/// The launcher is not deselected on any phone: a form that switches it off
/// changes nothing.
pub proof fn law_launcher_stays(
    form: Map<Seq<char>, Seq<char>>,
    allowlist_json: Option<Seq<char>>,
    installed: Seq<InstalledApp>,
    catalog: Seq<TrackedApp>,
    plan: TogglePlan,
)
    requires
        is_toggle_plan(form, allowlist_json, installed, catalog, plan),
        names_launcher(form, catalog),
        !form.contains_key("selected"@),
    ensures
        plan.track is None,
        plan.untrack is None,
        plan.allowlist is None,
        plan.uninstall is None,
{
}

/// An app that came with the phone is never uninstalled, and nothing is
/// uninstalled that the phone does not have.
pub proof fn law_preinstalled_apps_stay(installed: Seq<InstalledApp>, package: Seq<char>)
    requires
        distinct_packages(installed),
        app_status(installed, package) == (true, false),
    ensures
        exists|i: int|
            0 <= i < installed.len() && (#[trigger] installed[i]).package_name@ == package
                && !installed[i].preinstalled,
        forall|i: int|
            0 <= i < installed.len() && (#[trigger] installed[i]).package_name@ == package
                ==> !installed[i].preinstalled,
    decreases installed.len(),
{
    if installed[0].package_name@ == package {
        assert forall|i: int|
            0 <= i < installed.len() && (#[trigger] installed[i]).package_name@
                == package implies !installed[i].preinstalled by {
            if i > 0 {
                assert(installed[0].package_name@ != installed[i].package_name@);
            }
        }
    } else {
        let rest = installed.skip(1);
        assert forall|i: int, j: int| 0 <= i < j < rest.len() implies (
        #[trigger] rest[i]).package_name@ != (#[trigger] rest[j]).package_name@ by {
            assert(installed[i + 1].package_name@ != installed[j + 1].package_name@);
        }
        law_preinstalled_apps_stay(rest, package);
        let k = choose|k: int|
            0 <= k < rest.len() && (#[trigger] rest[k]).package_name@ == package
                && !rest[k].preinstalled;
        assert(installed[k + 1].package_name@ == package);
        assert forall|i: int|
            0 <= i < installed.len() && (#[trigger] installed[i]).package_name@
                == package implies !installed[i].preinstalled by {
            assert(rest[i - 1] == installed[i]);
        }
    }
}

// ----- the policy form -----

/// The policy that a form asks for.
pub struct PolicyUpdate {
    pub kiosk_desired: bool,
    pub lock_task_features: i64,
    pub override_pin_hash: Option<String>,
    pub override_pin_salt: Option<String>,
    pub quick_controls_mask: i64,
    pub vpn_filter_enabled: bool,
    /// What the security log says of the PIN.
    pub pin_event: Option<&'static str>,
}

/// The mask with the given switches.
pub open spec fn mask_of(wifi: bool, bluetooth: bool, brightness: bool) -> int {
    (if wifi {
        1int
    } else {
        0
    }) + (if bluetooth {
        2int
    } else {
        0
    }) + (if brightness {
        4int
    } else {
        0
    })
}

/// A PIN has six digits or more, and nothing else.
pub open spec fn valid_pin(pin: Seq<char>) -> bool {
    pin.len() >= 6 && all_digits(pin)
}

/// Whether a text is a PIN.
pub fn is_valid_pin(pin: &str) -> (r: bool)
    ensures
        r == valid_pin(pin@),
{
    let chars = chars_of(pin);
    if chars.len() < 6 {
        return false;
    }
    let mut i: usize = 0;
    while i < chars.len()
        invariant
            chars@ == pin@,
            i <= chars@.len(),
            forall|j: int| 0 <= j < i ==> is_digit(#[trigger] pin@[j]),
        decreases chars@.len() - i,
    {
        if !digit(chars[i]) {
            proof {
                assert(!is_digit(pin@[i as int]));
            }
            return false;
        }
        i += 1;
    }
    true
}

/// What becomes of a phone's PIN.
pub enum PinChange {
    Cleared,
    Replaced,
    Kept,
}

/// A form clears the PIN, sets another one or, where it gives none or none
/// that is valid, keeps what there is.
pub open spec fn pin_change(form: Map<Seq<char>, Seq<char>>) -> PinChange {
    if form.contains_key("clear_pin"@) {
        PinChange::Cleared
    } else if valid_pin(trimmed(field_or(form, "new_pin"@, ""@))) {
        PinChange::Replaced
    } else {
        PinChange::Kept
    }
}

/// The policy that a form asks for: a phone is pinned to its allowed apps just
/// if the box for it is ticked. `pin_hash` and `pin_salt` are what is stored
/// now.
pub fn update_policy(
    form: &FormFields,
    pin_hash: Option<String>,
    pin_salt: Option<String>,
) -> (r: PolicyUpdate)
    ensures
        r.kiosk_desired == form@.contains_key("kiosk_desired"@),
        r.lock_task_features == DEFAULT_LOCK_TASK_FEATURES,
        r.quick_controls_mask == mask_of(
            form@.contains_key("quick_control_wifi"@),
            form@.contains_key("quick_control_bluetooth"@),
            form@.contains_key("quick_control_brightness"@),
        ),
        r.vpn_filter_enabled == form@.contains_key("vpn_filter_enabled"@),
        match pin_change(form@) {
            PinChange::Cleared => {
                &&& r.override_pin_hash is None
                &&& r.override_pin_salt is None
                &&& r.pin_event matches Some(e) && e@ == "override_pin_cleared"@
            },
            PinChange::Replaced => {
                &&& r.override_pin_hash matches Some(hash) && r.override_pin_salt matches Some(salt)
                    && is_pin_hash(trimmed(field_or(form@, "new_pin"@, ""@)), hash@, salt@)
                &&& r.pin_event matches Some(e) && e@ == "override_pin_changed"@
            },
            PinChange::Kept => {
                &&& r.override_pin_hash == pin_hash
                &&& r.override_pin_salt == pin_salt
                &&& r.pin_event is None
            },
        },
{
    let wifi: i64 = if form.contains_key("quick_control_wifi") {
        QUICK_CONTROL_WIFI
    } else {
        0
    };
    let bluetooth: i64 = if form.contains_key("quick_control_bluetooth") {
        QUICK_CONTROL_BLUETOOTH
    } else {
        0
    };
    let brightness: i64 = if form.contains_key("quick_control_brightness") {
        QUICK_CONTROL_BRIGHTNESS
    } else {
        0
    };
    let quick_controls_mask: i64 = wifi | bluetooth | brightness;
    proof {
        assert(wifi | bluetooth | brightness == wifi + bluetooth + brightness) by (bit_vector)
            requires
                wifi == 0 || wifi == 1,
                bluetooth == 0 || bluetooth == 2,
                brightness == 0 || brightness == 4,
        ;
    }
    let vpn_filter_enabled = form.contains_key("vpn_filter_enabled");
    let new_pin = trim(form.get_or("new_pin", "").as_str());
    let (override_pin_hash, override_pin_salt, pin_event) = if form.contains_key("clear_pin") {
        (None, None, Some("override_pin_cleared"))
    } else if is_valid_pin(new_pin.as_str()) {
        let (hash, salt) = hash_pin(new_pin.as_str());
        (Some(hash), Some(salt), Some("override_pin_changed"))
    } else {
        (pin_hash, pin_salt, None)
    };
    PolicyUpdate {
        kiosk_desired: form.contains_key("kiosk_desired"),
        lock_task_features: DEFAULT_LOCK_TASK_FEATURES,
        override_pin_hash,
        override_pin_salt,
        quick_controls_mask,
        vpn_filter_enabled,
        pin_event,
    }
}

/// What the security log says of a phone.
pub fn device_detail_text(id: i64) -> (r: String)
    ensures
        r@ == "device "@ + number_text(id as int),
{
    let mut r = "device ".to_owned();
    r.append(i64_text(id).as_str());
    r
}

/// A phone's page shows the switches that were saved.
pub proof fn law_saved_switches_are_shown(
    mask: i64,
    wifi: bool,
    bluetooth: bool,
    brightness: bool,
)
    requires
        mask == mask_of(wifi, bluetooth, brightness),
    ensures
        shows(mask, QUICK_CONTROL_WIFI) == wifi,
        shows(mask, QUICK_CONTROL_BLUETOOTH) == bluetooth,
        shows(mask, QUICK_CONTROL_BRIGHTNESS) == brightness,
{
    assert(0 <= mask <= 7);
    assert(mask & 1 != 0 <==> mask % 2 == 1) by (bit_vector)
        requires
            0 <= mask <= 7,
    ;
    assert(mask & 2 != 0 <==> (mask / 2) % 2 == 1) by (bit_vector)
        requires
            0 <= mask <= 7,
    ;
    assert(mask & 4 != 0 <==> mask >= 4) by (bit_vector)
        requires
            0 <= mask <= 7,
    ;
}

/// A form that neither clears the PIN nor gives a valid one leaves it alone.
pub proof fn law_blank_pin_is_kept(form: Map<Seq<char>, Seq<char>>)
    requires
        !form.contains_key("clear_pin"@),
        !valid_pin(trimmed(field_or(form, "new_pin"@, ""@))),
    ensures
        pin_change(form) == PinChange::Kept,
{
}

// ----- what holds of these -----

/// The list says of a phone when it was last seen, and that it was not seen or
/// not even enrolled where that is so.
pub proof fn law_phones_say_when_they_were_seen(device: Device)
    ensures
        device.enrolled_at is None ==> status_of(device) == "Not enrolled yet"@,
        device.enrolled_at is Some && device.last_seen_at is None ==> status_of(device)
            == "Enrolled, not seen yet"@,
        device.enrolled_at is Some && device.last_seen_at is Some ==> status_of(device)
            == "Last seen "@ + device.last_seen_at->0@,
{
}

/// An allowlist holds what its text holds, and nothing where there is no text
/// or none that can be read.
pub proof fn law_allowlists_hold_their_packages(text: Seq<char>, packages: Seq<Seq<char>>)
    ensures
        json_texts(text) == Some(packages) ==> allowed_packages(Some(text)) == packages,
        json_texts(text) is None ==> allowed_packages(Some(text)).len() == 0,
        allowed_packages(None).len() == 0,
{
}

/// The first app that is marked is the launcher, and without a marked app there
/// is none.
pub proof fn law_first_marked_app_is_the_launcher(catalog: Seq<TrackedApp>, k: int)
    requires
        0 <= k <= catalog.len(),
        forall|i: int| 0 <= i < k ==> !(#[trigger] catalog[i]).is_launcher,
        k < catalog.len() ==> catalog[k].is_launcher,
    ensures
        launcher_of(catalog) == if k < catalog.len() {
            Some(catalog[k])
        } else {
            None
        },
    decreases catalog.len(),
{
    if k > 0 {
        assert(!catalog[0].is_launcher);
        let rest = catalog.skip(1);
        assert forall|i: int| 0 <= i < k - 1 implies !(#[trigger] rest[i]).is_launcher by {
            assert(!catalog[i + 1].is_launcher);
        }
        law_first_marked_app_is_the_launcher(rest, k - 1);
    }
}

/// A package belongs to the first app of the catalog that has its name, and to
/// none where no app has.
pub proof fn law_packages_belong_to_their_app(catalog: Seq<TrackedApp>, package: Seq<char>, k: int)
    requires
        0 <= k <= catalog.len(),
        package.len() > 0,
        forall|i: int| 0 <= i < k ==> (#[trigger] catalog[i]).package_name@ != package,
        k < catalog.len() ==> catalog[k].package_name@ == package,
    ensures
        tracked_match(catalog, package) == if k < catalog.len() {
            Some(catalog[k].id)
        } else {
            None
        },
    decreases catalog.len(),
{
    if k > 0 {
        assert(catalog[0].package_name@ != package);
        let rest = catalog.skip(1);
        assert forall|i: int| 0 <= i < k - 1 implies (#[trigger] rest[i]).package_name@
            != package by {
            assert(catalog[i + 1].package_name@ != package);
        }
        law_packages_belong_to_their_app(rest, package, k - 1);
    }
}

/// The phone has a package just if it reports it, and the first report says
/// whether it came with the phone.
pub proof fn law_reports_say_what_is_installed(
    installed: Seq<InstalledApp>,
    package: Seq<char>,
    k: int,
)
    requires
        0 <= k <= installed.len(),
        forall|i: int| 0 <= i < k ==> (#[trigger] installed[i]).package_name@ != package,
        k < installed.len() ==> installed[k].package_name@ == package,
    ensures
        app_status(installed, package) == if k < installed.len() {
            (true, installed[k].preinstalled)
        } else {
            (false, false)
        },
    decreases installed.len(),
{
    if k > 0 {
        assert(installed[0].package_name@ != package);
        let rest = installed.skip(1);
        assert forall|i: int| 0 <= i < k - 1 implies (#[trigger] rest[i]).package_name@
            != package by {
            assert(installed[i + 1].package_name@ != package);
        }
        law_reports_say_what_is_installed(rest, package, k - 1);
    }
}

proof fn lemma_installed_row_stands(
    installed: Seq<InstalledApp>,
    catalog: Seq<TrackedApp>,
    allowed: Seq<Seq<char>>,
    i: int,
)
    requires
        0 <= i < installed.len(),
        !is_launcher_package(catalog, installed[i].package_name@),
    ensures
        installed_rows(installed, catalog, allowed).contains(
            installed_row(installed[i], catalog, allowed),
        ),
    decreases installed.len(),
{
    let fewer = installed.drop_last();
    let rows = installed_rows(fewer, catalog, allowed);
    let row = installed_row(installed[i], catalog, allowed);
    let all = installed_rows(installed, catalog, allowed);
    if i < fewer.len() {
        lemma_installed_row_stands(fewer, catalog, allowed, i);
        let k = choose|k: int| 0 <= k < rows.len() && rows[k] == row;
        assert(all[k] == row);
    } else {
        assert(all.last() == row);
    }
}

proof fn lemma_catalog_row_stands(
    catalog: Seq<TrackedApp>,
    installed: Seq<InstalledApp>,
    selected: Seq<i64>,
    progress: Seq<InstallProgress>,
    i: int,
)
    requires
        0 <= i < catalog.len(),
        stands_in_catalog(catalog[i], installed),
    ensures
        catalog_rows(catalog, installed, selected, progress).contains(
            catalog_row(catalog[i], selected, progress),
        ),
    decreases catalog.len(),
{
    let fewer = catalog.drop_last();
    let rows = catalog_rows(fewer, installed, selected, progress);
    let row = catalog_row(catalog[i], selected, progress);
    let all = catalog_rows(catalog, installed, selected, progress);
    if i < fewer.len() {
        lemma_catalog_row_stands(fewer, installed, selected, progress, i);
        let k = choose|k: int| 0 <= k < rows.len() && rows[k] == row;
        assert(all[k] == row);
    } else {
        assert(all.last() == row);
    }
}

proof fn lemma_listed_row(
    installed: Seq<InstalledApp>,
    catalog: Seq<TrackedApp>,
    allowed: Seq<Seq<char>>,
    selected: Seq<i64>,
    progress: Seq<InstallProgress>,
    row: AppRowView,
)
    requires
        installed_rows(installed, catalog, allowed).contains(row) || catalog_rows(
            catalog,
            installed,
            selected,
            progress,
        ).contains(row),
    ensures
        app_list(installed, catalog, allowed, selected, progress).contains(row),
{
    let a = installed_rows(installed, catalog, allowed);
    let b = catalog_rows(catalog, installed, selected, progress);
    let others = in_order::<UnifiedAppRow>(a + b);
    let all = app_list(installed, catalog, allowed, selected, progress);
    if a.contains(row) {
        let k = choose|k: int| 0 <= k < a.len() && a[k] == row;
        assert((a + b)[k] == row);
    } else {
        let k = choose|k: int| 0 <= k < b.len() && b[k] == row;
        assert((a + b)[a.len() + k] == row);
    }
    lemma_in_order_members::<UnifiedAppRow>(a + b, row);
    let k = choose|k: int| 0 <= k < others.len() && others[k] == row;
    if launcher_of(catalog) is Some {
        assert(all[k + 1] == row);
    } else {
        assert(all[k] == row);
    }
}

/// An app that the phone has is listed as it was reported, and is ticked just if
/// it is on the allowlist. The launcher alone has another line.
pub proof fn law_installed_apps_are_listed(
    installed: Seq<InstalledApp>,
    catalog: Seq<TrackedApp>,
    allowed: Seq<Seq<char>>,
    selected: Seq<i64>,
    progress: Seq<InstallProgress>,
    i: int,
)
    requires
        0 <= i < installed.len(),
        forall|k: int|
            0 <= k < catalog.len() && (#[trigger] catalog[k]).is_launcher
                ==> catalog[k].package_name@ != installed[i].package_name@,
    ensures
        exists|k: int|
            0 <= k < app_list(installed, catalog, allowed, selected, progress).len() && ({
                let row = #[trigger] app_list(installed, catalog, allowed, selected, progress)[k];
                let app = installed[i];
                &&& row.package_name == app.package_name@
                &&& row.label == app.label@
                &&& row.tracked_app_id == tracked_match(catalog, app.package_name@)
                &&& row.checked <==> exists|a: int|
                    0 <= a < allowed.len() && #[trigger] allowed[a] == app.package_name@
                &&& row.status_label == if app.preinstalled {
                    "Preinstalled"@
                } else {
                    "Installed"@
                }
                &&& !row.is_launcher && !row.is_installing && !row.install_failed
                    && !row.show_no_release_hint
            }),
{
    let app = installed[i];
    if launcher_of(catalog) is Some {
        lemma_launcher_stands(catalog);
    }
    let row = installed_row(app, catalog, allowed);
    lemma_installed_row_stands(installed, catalog, allowed, i);
    lemma_listed_row(installed, catalog, allowed, selected, progress, row);
    let all = app_list(installed, catalog, allowed, selected, progress);
    let k = choose|k: int| 0 <= k < all.len() && all[k] == row;
    assert(all[k] == row);
    assert(allowed.contains(app.package_name@) <==> exists|a: int|
        0 <= a < allowed.len() && #[trigger] allowed[a] == app.package_name@);
}

/// What was last said of an install counts, whatever was said before.
pub proof fn law_last_word_on_an_install_counts(progress: Seq<InstallProgress>, id: i64, k: int)
    requires
        -1 <= k < progress.len(),
        forall|i: int| k < i < progress.len() ==> (#[trigger] progress[i]).tracked_app_id != id,
        k >= 0 ==> progress[k].tracked_app_id == id,
    ensures
        progress_of(progress, id) == if k >= 0 {
            Some(progress[k])
        } else {
            None
        },
    decreases progress.len(),
{
    if k < progress.len() - 1 {
        let fewer = progress.drop_last();
        assert(progress[progress.len() - 1].tracked_app_id != id);
        assert forall|i: int| k < i < fewer.len() implies (#[trigger] fewer[i]).tracked_app_id
            != id by {
            assert(progress[i].tracked_app_id != id);
        }
        law_last_word_on_an_install_counts(fewer, id, k);
    }
}

/// An app of the catalog that the phone does not have is listed under its name,
/// ticked just if it was selected for the phone, with how its install goes.
pub proof fn law_missing_apps_are_offered(
    installed: Seq<InstalledApp>,
    catalog: Seq<TrackedApp>,
    allowed: Seq<Seq<char>>,
    selected: Seq<i64>,
    progress: Seq<InstallProgress>,
    i: int,
)
    requires
        0 <= i < catalog.len(),
        !catalog[i].is_launcher,
        catalog[i].package_name@.len() > 0 ==> forall|k: int|
            0 <= k < installed.len() ==> (#[trigger] installed[k]).package_name@
                != catalog[i].package_name@,
    ensures
        exists|k: int|
            0 <= k < app_list(installed, catalog, allowed, selected, progress).len() && ({
                let row = #[trigger] app_list(installed, catalog, allowed, selected, progress)[k];
                let app = catalog[i];
                let last = progress_of(progress, app.id);
                &&& row.package_name == app.package_name@
                &&& row.label == app.name@
                &&& row.tracked_app_id == Some(app.id)
                &&& row.checked <==> exists|a: int|
                    0 <= a < selected.len() && #[trigger] selected[a] == app.id
                &&& last is None ==> row.status_label == "Not installed"@ && !row.is_installing
                    && !row.install_failed
                &&& last is Some && last->0.failed ==> row.status_label == "Install failed"@
                    && !row.is_installing && row.install_failed
                &&& last is Some && !last->0.failed ==> row.status_label == "Installing "@
                    + number_text(last->0.percent as int) + "%"@ && row.is_installing
                    && !row.install_failed
                &&& row.show_no_release_hint <==> app.latest_release_tag is None
                &&& !row.is_launcher
            }),
{
    let app = catalog[i];
    let row = catalog_row(app, selected, progress);
    lemma_catalog_row_stands(catalog, installed, selected, progress, i);
    lemma_listed_row(installed, catalog, allowed, selected, progress, row);
    let all = app_list(installed, catalog, allowed, selected, progress);
    let k = choose|k: int| 0 <= k < all.len() && all[k] == row;
    assert(all[k] == row);
    assert(selected.contains(app.id) <==> exists|a: int|
        0 <= a < selected.len() && #[trigger] selected[a] == app.id);
}

/// The launcher heads the list, always ticked and installed.
pub proof fn law_launcher_heads_the_list(
    installed: Seq<InstalledApp>,
    catalog: Seq<TrackedApp>,
    allowed: Seq<Seq<char>>,
    selected: Seq<i64>,
    progress: Seq<InstallProgress>,
    k: int,
)
    requires
        0 <= k < catalog.len(),
        forall|i: int| 0 <= i < k ==> !(#[trigger] catalog[i]).is_launcher,
        catalog[k].is_launcher,
    ensures
        ({
            let list = app_list(installed, catalog, allowed, selected, progress);
            &&& list.len() > 0
            &&& list[0].package_name == catalog[k].package_name@
            &&& list[0].label == catalog[k].name@
            &&& list[0].tracked_app_id == Some(catalog[k].id)
            &&& list[0].is_launcher && list[0].checked && list[0].status_label == "Installed"@
            &&& !list[0].is_installing && !list[0].install_failed && !list[0].show_no_release_hint
        }),
{
    law_first_marked_app_is_the_launcher(catalog, k);
}

/// Ticking an app allows its package and pushes the app to the phone. All that
/// was allowed stays allowed, and nothing is taken off the phone.
pub proof fn law_ticking_an_app(
    form: Map<Seq<char>, Seq<char>>,
    allowlist_json: Option<Seq<char>>,
    installed: Seq<InstalledApp>,
    catalog: Seq<TrackedApp>,
    plan: TogglePlan,
    id: i64,
    other: Seq<char>,
)
    requires
        is_toggle_plan(form, allowlist_json, installed, catalog, plan),
        form.contains_key("selected"@),
    ensures
        field(form, "tracked_app_id"@) == Some(number_text(id as int)) ==> plan.track == Some(id),
        field(form, "tracked_app_id"@) is None ==> plan.track is None,
        plan.untrack is None,
        plan.uninstall is None,
        field(form, "package_name"@) matches Some(package) ==> package.len() > 0 ==> {
            let before = allowed_packages(allowlist_json);
            &&& plan.allowlist is Some <==> !before.contains(package)
            &&& plan.allowlist matches Some(list) ==> (allowed_packages(Some(list@)).contains(other)
                <==> before.contains(other) || other == package)
        },
{
    lemma_number_text(id as int);
    let package = field_or(form, "package_name"@, ""@);
    law_allowing(allowed_packages(allowlist_json), package, other);
}

/// Unticking an app that is not the launcher disallows its package and stops
/// pushing the app. It is uninstalled just if the phone has it and it did not
/// come with the phone. All the others stay allowed.
pub proof fn law_unticking_an_app(
    form: Map<Seq<char>, Seq<char>>,
    allowlist_json: Option<Seq<char>>,
    installed: Seq<InstalledApp>,
    catalog: Seq<TrackedApp>,
    plan: TogglePlan,
    id: i64,
    package: Seq<char>,
    other: Seq<char>,
)
    requires
        is_toggle_plan(form, allowlist_json, installed, catalog, plan),
        !form.contains_key("selected"@),
        field(form, "tracked_app_id"@) == Some(number_text(id as int)),
        field(form, "package_name"@) == Some(package),
        package.len() > 0,
        forall|k: int|
            0 <= k < catalog.len() && (#[trigger] catalog[k]).is_launcher ==> catalog[k].id != id
                && catalog[k].package_name@ != package,
    ensures
        plan.track is None,
        plan.untrack == Some(id),
        plan.uninstall is Some <==> app_status(installed, package) == (true, false),
        plan.uninstall matches Some(p) ==> p@ == package,
        ({
            let before = allowed_packages(allowlist_json);
            &&& plan.allowlist is Some <==> before.contains(package)
            &&& plan.allowlist matches Some(list) ==> (allowed_packages(Some(list@)).contains(other)
                <==> before.contains(other) && other != package)
        }),
{
    lemma_number_text(id as int);
    assert(!names_launcher(form, catalog));
    law_disallowing(allowed_packages(allowlist_json), package, other);
}

/// A form that names the launcher by its number, or by its package, does not
/// untick it.
pub proof fn law_launcher_is_named_either_way(
    form: Map<Seq<char>, Seq<char>>,
    allowlist_json: Option<Seq<char>>,
    installed: Seq<InstalledApp>,
    catalog: Seq<TrackedApp>,
    plan: TogglePlan,
    k: int,
)
    requires
        is_toggle_plan(form, allowlist_json, installed, catalog, plan),
        !form.contains_key("selected"@),
        0 <= k < catalog.len(),
        catalog[k].is_launcher,
        field(form, "tracked_app_id"@) == Some(number_text(catalog[k].id as int)) || (
        catalog[k].package_name@.len() > 0 && field(form, "package_name"@) == Some(
            catalog[k].package_name@,
        )),
    ensures
        plan.track is None && plan.untrack is None && plan.allowlist is None
            && plan.uninstall is None,
{
    lemma_number_text(catalog[k].id as int);
    assert(names_launcher(form, catalog));
}

/// A PIN is valid just if it has at least six characters, all of them decimal
/// digits.
pub proof fn law_pins_are_six_digits_or_more(pin: Seq<char>)
    ensures
        valid_pin(pin) <==> pin.len() >= 6 && forall|i: int|
            0 <= i < pin.len() ==> '0' <= #[trigger] pin[i] <= '9',
{
    if valid_pin(pin) {
        assert forall|i: int| 0 <= i < pin.len() implies '0' <= #[trigger] pin[i] <= '9' by {
            assert(is_digit(pin[i]));
        }
    }
}

/// Asking for the PIN to be cleared clears it whatever else is given. Otherwise
/// a PIN of at least six digits replaces it, and anything else leaves it.
pub proof fn law_pins_change_as_asked(form: Map<Seq<char>, Seq<char>>, text: Seq<char>)
    requires
        field(form, "new_pin"@) == Some(text),
    ensures
        form.contains_key("clear_pin"@) ==> pin_change(form) is Cleared,
        !form.contains_key("clear_pin"@) && trimmed(text).len() >= 6 && (forall|i: int|
            0 <= i < trimmed(text).len() ==> '0' <= #[trigger] trimmed(text)[i] <= '9')
            ==> pin_change(form) is Replaced,
        !form.contains_key("clear_pin"@) && trimmed(text).len() < 6 ==> pin_change(form) is Kept,
        !form.contains_key("clear_pin"@) && (exists|i: int|
            0 <= i < trimmed(text).len() && !('0' <= #[trigger] trimmed(text)[i] <= '9'))
            ==> pin_change(form) is Kept,
{
    law_pins_are_six_digits_or_more(trimmed(text));
}

/// Each of the three switches is a bit of its own.
pub proof fn law_switches_do_not_touch_each_other(wifi: bool, bluetooth: bool, brightness: bool)
    ensures
        mask_of(wifi, bluetooth, brightness) % 2 == if wifi {
            1int
        } else {
            0
        },
        mask_of(wifi, bluetooth, brightness) / 2 % 2 == if bluetooth {
            1int
        } else {
            0
        },
        mask_of(wifi, bluetooth, brightness) / 4 == if brightness {
            1int
        } else {
            0
        },
{
}

/// The page of a phone stands under its number, so that no two share one.
pub proof fn law_phones_have_pages_of_their_own(a: int, b: int)
    ensures
        device_page(a) == "/devices/"@ + number_text(a),
        device_page(a) == device_page(b) <==> a == b,
{
    lemma_number_text(a);
    lemma_number_text(b);
    if device_page(a) == device_page(b) {
        let n = "/devices/"@.len() as int;
        assert(device_page(a).skip(n) =~= number_text(a));
        assert(device_page(b).skip(n) =~= number_text(b));
    }
}

} // verus!
