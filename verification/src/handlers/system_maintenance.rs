//! Updates of the operating system and of the private network, and when they
//! are looked for.

use crate::numbers::{as_i32, number_text};
use crate::schedule::{
    day_field, day_setting, flag_setting, flag_text, flag_word, is_valid_frequency,
    last_value, law_days_are_kept_within_bounds, law_settings_are_read_back,
    law_written_settings_hold, lemma_flag_text, lemma_last_value, lemma_plain_when,
    lemma_settings_text, on_off, on_off_word, plain_key, plain_pairs, plain_value, push_setting,
    settings_joined, settings_text, text_setting, time_field, time_setting, valid_frequency, when_text, when_words,
    Settings, WhenView,
};
use crate::text::{
    after_text, before_text, behind_first, first_place, first_word, first_word_of, holds,
    is_white_space, law_lines_end_at_line_feeds, law_parts_are_found_where_they_first_stand,
    law_words_stand_between_white_space, lemma_trimmed, lines, lines_of, opt_str_view, opt_view,
    same_text, stands_at, starts_with, trim, trimmed, up_to_first, views,
};
use vstd::prelude::*;

verus! {

// ----- what the system says -----

/// The line names a package that can be upgraded.
pub open spec fn names_package(line: Seq<char>) -> bool {
    !"Listing..."@.is_prefix_of(line) && trimmed(line).len() > 0
}

/// How many packages can be upgraded, given the list that was printed.
pub fn apt_upgradable_count(printed: Option<&str>) -> (r: Option<usize>)
    ensures
        match printed {
            Some(text) => r is Some && r->0 == lines_of(text@).filter(
                |line: Seq<char>| names_package(line),
            ).len(),
            None => r is None,
        },
{
    match printed {
        Some(text) => {
            let all = lines(text);
            let ghost given = lines_of(text@);
            let ghost pred = |line: Seq<char>| names_package(line);
            let mut count: usize = 0;
            let mut i: usize = 0;
            proof {
                reveal(Seq::filter);
            }
            while i < all.len()
                invariant
                    i <= all@.len(),
                    given == views(all@),
                    pred == (|line: Seq<char>| names_package(line)),
                    count == given.take(i as int).filter(pred).len(),
                    count <= i,
                decreases all@.len() - i,
            {
                proof {
                    reveal(Seq::filter);
                    assert(given.take(i + 1).drop_last() =~= given.take(i as int));
                    assert(given.take(i + 1).last() == all@[i as int]@);
                }
                let line = all[i].as_str();
                if !starts_with(line, "Listing...") && !trim(line).as_str().is_empty() {
                    count += 1;
                }
                i += 1;
            }
            proof {
                assert(given.take(i as int) =~= given);
            }
            Some(count)
        },
        None => None,
    }
}

/// The version on the first line that was printed.
pub open spec fn current_version(printed: Seq<char>) -> Seq<char> {
    if lines_of(printed).len() > 0 {
        trimmed(lines_of(printed)[0])
    } else {
        Seq::empty()
    }
}

/// The version that is named as the newest one: the first word behind the
/// label, before the label is given again. Empty where there is none.
pub open spec fn upstream_version(printed: Option<Seq<char>>) -> Seq<char> {
    match printed {
        Some(text) => match behind_first(text, "upstream:"@) {
            Some(rest) => first_word_of(up_to_first(rest, "upstream:"@)),
            None => Seq::empty(),
        },
        None => Seq::empty(),
    }
}

/// The version that is installed and the newest one, given what the network's
/// client printed when asked for either.
pub fn tailscale_versions(current: Option<&str>, upstream: Option<&str>) -> (r: Option<
    (String, String),
>)
    ensures
        match r {
            Some((c, u)) => current is Some && c@ == current_version(current->0@) && c@.len() > 0
                && u@ == upstream_version(opt_str_view(upstream)),
            None => current is None || current_version(current->0@).len() == 0,
        },
{
    let installed = match current {
        Some(text) => {
            let all = lines(text);
            if all.len() > 0 {
                proof {
                    assert(views(all@)[0] == all@[0]@);
                }
                trim(all[0].as_str())
            } else {
                String::new()
            }
        },
        None => {
            return None;
        },
    };
    let newest = match upstream {
        Some(text) => match after_text(text, "upstream:") {
            Some(rest) => first_word(before_text(rest.as_str(), "upstream:").as_str()),
            None => String::new(),
        },
        None => String::new(),
    };
    if installed.as_str().is_empty() {
        None
    } else {
        Some((installed, newest))
    }
}

// ----- the schedule -----

/// When updates are looked for, and what is done about them.
pub struct ScheduleConfig {
    pub frequency: String,
    pub day_of_week: String,
    pub day_of_month: String,
    pub check_time: String,
    pub auto_apply_os: bool,
    pub auto_apply_tailscale: bool,
    pub auto_reboot: bool,
}

/// An update schedule as a value.
pub struct ScheduleView {
    pub when: WhenView,
    pub auto_apply_os: bool,
    pub auto_apply_tailscale: bool,
    pub auto_reboot: bool,
}

impl View for ScheduleConfig {
    type V = ScheduleView;

    open spec fn view(&self) -> ScheduleView {
        ScheduleView {
            when: WhenView {
                frequency: self.frequency@,
                day_of_week: self.day_of_week@,
                day_of_month: self.day_of_month@,
                time: self.check_time@,
            },
            auto_apply_os: self.auto_apply_os,
            auto_apply_tailscale: self.auto_apply_tailscale,
            auto_reboot: self.auto_reboot,
        }
    }
}

/// The schedule that a settings file gives: daily at three, nothing by itself,
/// where it gives nothing else.
pub open spec fn loaded(contents: Option<Seq<char>>) -> ScheduleView {
    ScheduleView {
        when: WhenView {
            frequency: text_setting(contents, "FREQUENCY"@, "daily"@),
            day_of_week: text_setting(contents, "DAY_OF_WEEK"@, "0"@),
            day_of_month: text_setting(contents, "DAY_OF_MONTH"@, "1"@),
            time: text_setting(contents, "CHECK_TIME"@, "03:00"@),
        },
        auto_apply_os: flag_setting(contents, "AUTO_APPLY_OS"@),
        auto_apply_tailscale: flag_setting(contents, "AUTO_APPLY_TAILSCALE"@),
        auto_reboot: flag_setting(contents, "AUTO_REBOOT"@),
    }
}

/// The settings of a schedule.
pub open spec fn settings_of(s: ScheduleView) -> Seq<(Seq<char>, Seq<char>)> {
    seq![
        ("FREQUENCY"@, s.when.frequency),
        ("DAY_OF_WEEK"@, s.when.day_of_week),
        ("DAY_OF_MONTH"@, s.when.day_of_month),
        ("CHECK_TIME"@, s.when.time),
        ("AUTO_APPLY_OS"@, flag_text(s.auto_apply_os)),
        ("AUTO_APPLY_TAILSCALE"@, flag_text(s.auto_apply_tailscale)),
        ("AUTO_REBOOT"@, flag_text(s.auto_reboot)),
    ]
}

/// The schedule in words.
pub open spec fn summary_text(s: ScheduleView) -> Seq<char> {
    "Checking for updates "@ + when_text(s.when) + ". Auto-install OS updates: "@ + on_off(
        s.auto_apply_os,
    ) + ". Auto-update Tailscale: "@ + on_off(s.auto_apply_tailscale)
        + ". Auto-reboot if needed: "@ + on_off(s.auto_reboot) + "."@
}

impl ScheduleConfig {
    /// The schedule that holds before any was saved.
    pub fn defaults() -> (r: ScheduleConfig)
        ensures
            r@ == (ScheduleView {
                when: WhenView {
                    frequency: "daily"@,
                    day_of_week: "0"@,
                    day_of_month: "1"@,
                    time: "03:00"@,
                },
                auto_apply_os: false,
                auto_apply_tailscale: false,
                auto_reboot: false,
            }),
    {
        ScheduleConfig {
            frequency: "daily".to_owned(),
            day_of_week: "0".to_owned(),
            day_of_month: "1".to_owned(),
            check_time: "03:00".to_owned(),
            auto_apply_os: false,
            auto_apply_tailscale: false,
            auto_reboot: false,
        }
    }

    /// The schedule that a settings file gives; `None` if there is no file.
    pub fn load(contents: Option<&str>) -> (r: ScheduleConfig)
        ensures
            r@ == loaded(opt_str_view(contents)),
    {
        let settings = Settings::read(contents);
        let otherwise = ScheduleConfig::defaults();
        ScheduleConfig {
            frequency: settings.text("FREQUENCY", otherwise.frequency.as_str()),
            day_of_week: settings.text("DAY_OF_WEEK", otherwise.day_of_week.as_str()),
            day_of_month: settings.text("DAY_OF_MONTH", otherwise.day_of_month.as_str()),
            check_time: settings.text("CHECK_TIME", otherwise.check_time.as_str()),
            auto_apply_os: settings.flag("AUTO_APPLY_OS"),
            auto_apply_tailscale: settings.flag("AUTO_APPLY_TAILSCALE"),
            auto_reboot: settings.flag("AUTO_REBOOT"),
        }
    }

    /// The settings file for this schedule.
    pub fn to_file_contents(&self) -> (r: String)
        ensures
            r@ == settings_text(settings_of(self@)),
    {
        let mut out = String::new();
        push_setting(&mut out, "FREQUENCY", self.frequency.as_str());
        push_setting(&mut out, "DAY_OF_WEEK", self.day_of_week.as_str());
        push_setting(&mut out, "DAY_OF_MONTH", self.day_of_month.as_str());
        push_setting(&mut out, "CHECK_TIME", self.check_time.as_str());
        push_setting(&mut out, "AUTO_APPLY_OS", flag_word(self.auto_apply_os));
        push_setting(&mut out, "AUTO_APPLY_TAILSCALE", flag_word(self.auto_apply_tailscale));
        push_setting(&mut out, "AUTO_REBOOT", flag_word(self.auto_reboot));
        proof {
            lemma_settings_text(settings_of(self@));
            assert(out@ =~= settings_text(settings_of(self@))) by {
                reveal_with_fuel(settings_joined, 8);
            }
        }
        out
    }

    /// The schedule in words.
    pub fn summary(&self) -> (r: String)
        ensures
            r@ == summary_text(self@),
    {
        let mut r = "Checking for updates ".to_owned();
        r.append(
            when_words(
                self.frequency.as_str(),
                self.day_of_week.as_str(),
                self.day_of_month.as_str(),
                self.check_time.as_str(),
            ).as_str(),
        );
        r.append(". Auto-install OS updates: ");
        r.append(on_off_word(self.auto_apply_os));
        r.append(". Auto-update Tailscale: ");
        r.append(on_off_word(self.auto_apply_tailscale));
        r.append(". Auto-reboot if needed: ");
        r.append(on_off_word(self.auto_reboot));
        r.append(".");
        r
    }
}

/// The names of the settings can stand in a settings file, and no two are
/// the same.
proof fn lemma_keys(s: ScheduleView)
    ensures
        forall|i: int|
            0 <= i < settings_of(s).len() ==> plain_key((#[trigger] settings_of(s)[i]).0),
        forall|i: int, j: int|
            0 <= i < j < settings_of(s).len() ==> (#[trigger] settings_of(s)[i]).0 != (
            #[trigger] settings_of(s)[j]).0,
{
    reveal_strlit("FREQUENCY");
    reveal_strlit("DAY_OF_WEEK");
    reveal_strlit("DAY_OF_MONTH");
    reveal_strlit("CHECK_TIME");
    reveal_strlit("AUTO_APPLY_OS");
    reveal_strlit("AUTO_APPLY_TAILSCALE");
    reveal_strlit("AUTO_REBOOT");
    lemma_trimmed("FREQUENCY"@);
    lemma_trimmed("DAY_OF_WEEK"@);
    lemma_trimmed("DAY_OF_MONTH"@);
    lemma_trimmed("CHECK_TIME"@);
    lemma_trimmed("AUTO_APPLY_OS"@);
    lemma_trimmed("AUTO_APPLY_TAILSCALE"@);
    lemma_trimmed("AUTO_REBOOT"@);
    assert("DAY_OF_WEEK"@[0] != "AUTO_REBOOT"@[0]);
}

/// A schedule that was saved is the one that is loaded, as long as its texts
/// stay on their lines and have no white space around them.
pub proof fn law_schedule_is_read_back(s: ScheduleView)
    requires
        plain_value(s.when.frequency),
        plain_value(s.when.day_of_week),
        plain_value(s.when.day_of_month),
        plain_value(s.when.time),
    ensures
        loaded(Some(settings_text(settings_of(s)))) == s,
{
    let pairs = settings_of(s);
    lemma_keys(s);
    lemma_flag_text(s.auto_apply_os);
    lemma_flag_text(s.auto_apply_tailscale);
    lemma_flag_text(s.auto_reboot);
    assert forall|i: int| 0 <= i < pairs.len() implies plain_key((#[trigger] pairs[i]).0)
        && plain_value(pairs[i].1) by {
        assert(plain_key(settings_of(s)[i].0));
    }
    assert forall|i: int| 0 <= i < pairs.len() implies last_value(pairs, #[trigger] pairs[i].0)
        == Some(pairs[i].1) by {
        lemma_last_value(pairs, i);
    }
    law_settings_are_read_back(pairs, pairs[0].0);
    law_settings_are_read_back(pairs, pairs[1].0);
    law_settings_are_read_back(pairs, pairs[2].0);
    law_settings_are_read_back(pairs, pairs[3].0);
    law_settings_are_read_back(pairs, pairs[4].0);
    law_settings_are_read_back(pairs, pairs[5].0);
    law_settings_are_read_back(pairs, pairs[6].0);
}

/// The schedule form.
pub struct ScheduleForm {
    pub frequency: String,
    pub day_of_week: String,
    pub day_of_month: String,
    pub check_time: String,
    pub auto_apply_os: Option<String>,
    pub auto_apply_tailscale: Option<String>,
    pub auto_reboot: Option<String>,
}

/// The schedule that a form asks for.
pub open spec fn requested_schedule(form: ScheduleForm) -> ScheduleView {
    ScheduleView {
        when: WhenView {
            frequency: form.frequency@,
            day_of_week: day_setting(form.day_of_week@, 0, 0, 6),
            day_of_month: day_setting(form.day_of_month@, 1, 1, 28),
            time: time_setting(form.check_time@, "03:00"@),
        },
        auto_apply_os: form.auto_apply_os is Some,
        auto_apply_tailscale: form.auto_apply_tailscale is Some,
        auto_reboot: form.auto_reboot is Some,
    }
}

/// The schedule that a form asked for is the one that is loaded, as long as
/// the time stays on its line.
pub proof fn law_saved_schedule_is_loaded(form: ScheduleForm)
    requires
        valid_frequency(form.frequency@),
        !trimmed(form.check_time@).contains('\n'),
    ensures
        loaded(Some(settings_text(settings_of(requested_schedule(form))))) == requested_schedule(
            form,
        ),
{
    reveal_strlit("03:00");
    lemma_trimmed("03:00"@);
    lemma_plain_when(
        form.frequency@,
        form.day_of_week@,
        form.day_of_month@,
        form.check_time@,
        "03:00"@,
    );
    law_schedule_is_read_back(requested_schedule(form));
}

/// The schedule that a form asks for, or what is wrong with the form.
pub fn save_schedule(form: ScheduleForm) -> (r: Result<ScheduleConfig, String>)
    ensures
        match r {
            Ok(config) => valid_frequency(form.frequency@) && config@ == requested_schedule(form),
            Err(message) => !valid_frequency(form.frequency@) && message@ == "Invalid frequency."@,
        },
{
    if !is_valid_frequency(form.frequency.as_str()) {
        return Err("Invalid frequency.".to_owned());
    }
    Ok(
        ScheduleConfig {
            day_of_week: day_field(form.day_of_week.as_str(), 0, 0, 6),
            day_of_month: day_field(form.day_of_month.as_str(), 1, 1, 28),
            check_time: time_field(form.check_time.as_str(), "03:00"),
            auto_apply_os: form.auto_apply_os.is_some(),
            auto_apply_tailscale: form.auto_apply_tailscale.is_some(),
            auto_reboot: form.auto_reboot.is_some(),
            frequency: form.frequency,
        },
    )
}

/// The message after the schedule form, by whether the file could be written.
pub fn schedule_saved_message(written: bool) -> (r: &'static str)
    ensures
        r@ == if written {
            "Schedule saved."@
        } else {
            "Couldn't save the schedule."@
        },
{
    if written {
        "Schedule saved."
    } else {
        "Couldn't save the schedule."
    }
}

// ----- the page -----

/// What the page shows of the system's updates.
pub struct OsUpdateData {
    pub watcher_busy: bool,
    pub os_update_count: Option<usize>,
    pub reboot_required: bool,
    pub tailscale_current: Option<String>,
    pub tailscale_upstream: Option<String>,
    pub tailscale_update_available: bool,
    pub schedule: ScheduleConfig,
    pub schedule_summary: String,
}

/// What the page shows of the system's updates. While an action runs, nothing
/// that was printed counts.
pub fn gather(
    busy: bool,
    packages: Option<&str>,
    current: Option<&str>,
    upstream: Option<&str>,
    reboot_required: bool,
    settings: Option<&str>,
) -> (r: OsUpdateData)
    ensures
        r.watcher_busy == busy,
        r.reboot_required == reboot_required,
        r.schedule@ == loaded(opt_str_view(settings)),
        r.schedule_summary@ == summary_text(r.schedule@),
        busy ==> {
            &&& r.os_update_count is None
            &&& r.tailscale_current is None
            &&& r.tailscale_upstream is None
            &&& !r.tailscale_update_available
        },
        !busy ==> {
            &&& match packages {
                Some(text) => r.os_update_count is Some && r.os_update_count->0 == lines_of(
                    text@,
                ).filter(|line: Seq<char>| names_package(line)).len(),
                None => r.os_update_count is None,
            }
            &&& if current is Some && current_version(current->0@).len() > 0 {
                let c = current_version(current->0@);
                let u = upstream_version(opt_str_view(upstream));
                &&& opt_view(r.tailscale_current) == Some(c)
                &&& opt_view(r.tailscale_upstream) == Some(u)
                &&& r.tailscale_update_available == (u.len() > 0 && c != u)
            } else {
                &&& r.tailscale_current is None
                &&& r.tailscale_upstream is None
                &&& !r.tailscale_update_available
            }
        },
{
    let schedule = ScheduleConfig::load(settings);
    let schedule_summary = schedule.summary();
    if busy {
        return OsUpdateData {
            watcher_busy: true,
            os_update_count: None,
            reboot_required,
            tailscale_current: None,
            tailscale_upstream: None,
            tailscale_update_available: false,
            schedule,
            schedule_summary,
        };
    }
    let os_update_count = apt_upgradable_count(packages);
    let (tailscale_current, tailscale_upstream, tailscale_update_available) =
        match tailscale_versions(current, upstream) {
        Some((c, u)) => {
            let available = !u.as_str().is_empty() && !same_text(c.as_str(), u.as_str());
            (Some(c), Some(u), available)
        },
        None => (None, None, false),
    };
    OsUpdateData {
        watcher_busy: false,
        os_update_count,
        reboot_required,
        tailscale_current,
        tailscale_upstream,
        tailscale_update_available,
        schedule,
        schedule_summary,
    }
}

/// An action that the root-side scripts are asked for.
pub struct Action {
    /// The word that is written into the request file.
    pub word: &'static str,
    /// What the security log says.
    pub event_type: &'static str,
    /// What the page says once the file is written.
    pub started: &'static str,
}

/// Looks for new packages.
pub fn trigger_os_check() -> (r: Action)
    ensures
        r.word@ == "os_check"@,
        r.event_type@ == "os_check_triggered"@,
        r.started@ == "Refreshing the package list now. Refresh this page in a few seconds."@,
{
    Action {
        word: "os_check",
        event_type: "os_check_triggered",
        started: "Refreshing the package list now. Refresh this page in a few seconds.",
    }
}

/// Installs new packages.
pub fn trigger_os_upgrade() -> (r: Action)
    ensures
        r.word@ == "os_upgrade"@,
        r.event_type@ == "os_upgrade_triggered"@,
        r.started@
            == "Installing OS updates now - this can take a long time on a Pi's first upgrade. This page will show \"still working\" until it's done - feel free to check back later."@,
{
    Action {
        word: "os_upgrade",
        event_type: "os_upgrade_triggered",
        started: "Installing OS updates now - this can take a long time on a Pi's first upgrade. This page will show \"still working\" until it's done - feel free to check back later.",
    }
}

/// Updates the private network's client.
pub fn trigger_tailscale_update() -> (r: Action)
    ensures
        r.word@ == "tailscale_update"@,
        r.event_type@ == "tailscale_update_triggered"@,
        r.started@ == "Updating Tailscale now. Refresh this page in a few seconds."@,
{
    Action {
        word: "tailscale_update",
        event_type: "tailscale_update_triggered",
        started: "Updating Tailscale now. Refresh this page in a few seconds.",
    }
}

/// Restarts the machine.
pub fn trigger_reboot() -> (r: Action)
    ensures
        r.word@ == "reboot"@,
        r.event_type@ == "reboot_triggered"@,
        r.started@ == "Rebooting now - the app will be unreachable for about a minute."@,
{
    Action {
        word: "reboot",
        event_type: "reboot_triggered",
        started: "Rebooting now - the app will be unreachable for about a minute.",
    }
}

/// What the page says after an action was asked for, by whether the request
/// could be written.
pub fn request_action(action: &Action, written: bool) -> (r: &'static str)
    ensures
        r@ == if written {
            action.started@
        } else {
            "Couldn't write the request file - the update watcher may not be set up on this install."@
        },
{
    if written {
        action.started
    } else {
        "Couldn't write the request file - the update watcher may not be set up on this install."
    }
}

// ----- what holds of these -----

/// Each part of the schedule is found in the settings file under its own name, and
/// has its usual value where the file does not name it.
pub proof fn law_settings_have_their_names(pairs: Seq<(Seq<char>, Seq<char>)>)
    requires
        plain_pairs(pairs),
    ensures
        ({
            let r = loaded(Some(settings_text(pairs)));
            &&& r.when.frequency == match last_value(pairs, "FREQUENCY"@) {
                Some(value) => value,
                None => "daily"@,
            }
            &&& r.when.day_of_week == match last_value(pairs, "DAY_OF_WEEK"@) {
                Some(value) => value,
                None => "0"@,
            }
            &&& r.when.day_of_month == match last_value(pairs, "DAY_OF_MONTH"@) {
                Some(value) => value,
                None => "1"@,
            }
            &&& r.when.time == match last_value(pairs, "CHECK_TIME"@) {
                Some(value) => value,
                None => "03:00"@,
            }
            &&& r.auto_apply_os <==> last_value(pairs, "AUTO_APPLY_OS"@) == Some("true"@)
            &&& r.auto_apply_tailscale <==> last_value(pairs, "AUTO_APPLY_TAILSCALE"@) == Some("true"@)
            &&& r.auto_reboot <==> last_value(pairs, "AUTO_REBOOT"@) == Some("true"@)
        }),
        ({
            let r = loaded(None);
            &&& r.when.frequency == "daily"@
            &&& r.when.day_of_week == "0"@
            &&& r.when.day_of_month == "1"@
            &&& r.when.time == "03:00"@
            &&& !r.auto_apply_os
            &&& !r.auto_apply_tailscale
            &&& !r.auto_reboot
        }),
{
    law_written_settings_hold(pairs, "FREQUENCY"@, "daily"@);
    law_written_settings_hold(pairs, "DAY_OF_WEEK"@, "0"@);
    law_written_settings_hold(pairs, "DAY_OF_MONTH"@, "1"@);
    law_written_settings_hold(pairs, "CHECK_TIME"@, "03:00"@);
    law_written_settings_hold(pairs, "AUTO_APPLY_OS"@, ""@);
    law_written_settings_hold(pairs, "AUTO_APPLY_TAILSCALE"@, ""@);
    law_written_settings_hold(pairs, "AUTO_REBOOT"@, ""@);
}

/// What a form asks for is what is saved: the frequency as it is, days that lie
/// within their bounds unchanged, and a switch just if its box was ticked.
pub proof fn law_forms_are_taken_as_given(form: ScheduleForm, weekday: int, day: int)
    requires
        0 <= weekday <= 6,
        1 <= day <= 28,
        trimmed(form.day_of_week@) == number_text(weekday),
        trimmed(form.day_of_month@) == number_text(day),
        trimmed(form.check_time@).len() > 0,
    ensures
        requested_schedule(form).when.frequency == form.frequency@,
        requested_schedule(form).when.day_of_week == number_text(weekday),
        requested_schedule(form).when.day_of_month == number_text(day),
        requested_schedule(form).when.time == trimmed(form.check_time@),
        requested_schedule(form).auto_apply_os <==> form.auto_apply_os is Some,
        requested_schedule(form).auto_apply_tailscale <==> form.auto_apply_tailscale is Some,
        requested_schedule(form).auto_reboot <==> form.auto_reboot is Some,
{
    law_days_are_kept_within_bounds(form.day_of_week@, weekday, 0, 0, 6);
    law_days_are_kept_within_bounds(form.day_of_month@, day, 1, 1, 28);
}

/// What a form leaves open gets the usual values: the first day of the week and
/// of the month, three at night.
pub proof fn law_open_fields_get_the_usual(form: ScheduleForm)
    requires
        as_i32(trimmed(form.day_of_week@)) is None,
        as_i32(trimmed(form.day_of_month@)) is None,
        trimmed(form.check_time@).len() == 0,
    ensures
        requested_schedule(form).when.day_of_week == number_text(0),
        requested_schedule(form).when.day_of_month == number_text(1),
        requested_schedule(form).when.time == "03:00"@,
{
}

/// Every line that is printed names a package, but for blank ones and the
/// heading.
pub proof fn law_printed_lines_name_packages(line: Seq<char>)
    ensures
        names_package(line) <==> trimmed(line).len() > 0 && !exists|rest: Seq<char>|
            line == #[trigger] ("Listing..."@ + rest),
{
    if "Listing..."@.is_prefix_of(line) {
        assert(line =~= "Listing..."@ + line.skip("Listing..."@.len() as int));
    }
}

/// The version of the private network is the first line that was printed,
/// whatever follows.
pub proof fn law_version_is_the_first_line(line: Seq<char>, rest: Seq<char>)
    requires
        !line.contains('\n'),
        line.len() > 0 ==> line.last() != '\r',
    ensures
        current_version(line + seq!['\n'] + rest) == trimmed(line),
        line.len() > 0 ==> current_version(line) == trimmed(line),
        current_version(Seq::empty()).len() == 0,
{
    law_lines_end_at_line_feeds(line, rest);
    assert(lines_of(line + seq!['\n'] + rest)[0] == line);
}

/// The newest version is the word behind the first label; without a label there
/// is none.
pub proof fn law_newest_version_follows_its_label(
    a: Seq<char>,
    blank: Seq<char>,
    word: Seq<char>,
    rest: Seq<char>,
)
    requires
        first_place(a + "upstream:"@ + (blank + word + rest), "upstream:"@) == Some(a.len() as int),
        first_place(blank + word + rest, "upstream:"@) is None,
        forall|i: int| 0 <= i < blank.len() ==> is_white_space(#[trigger] blank[i]),
        word.len() > 0,
        forall|i: int| 0 <= i < word.len() ==> !is_white_space(#[trigger] word[i]),
        rest.len() > 0 ==> is_white_space(rest[0]),
    ensures
        upstream_version(Some(a + "upstream:"@ + (blank + word + rest))) == word,
{
    let text = a + "upstream:"@ + (blank + word + rest);
    assert(text.skip(a.len() as int + "upstream:"@.len()) =~= blank + word + rest);
    law_words_stand_between_white_space(blank, word, rest);
}

/// Where the label does not stand, or nothing was printed, no version is known.
pub proof fn law_no_label_no_version(text: Seq<char>)
    ensures
        !holds(text, "upstream:"@) ==> upstream_version(Some(text)).len() == 0,
        upstream_version(None).len() == 0,
{
    if first_place(text, "upstream:"@) is Some {
        law_parts_are_found_where_they_first_stand(text, "upstream:"@, 0);
        assert(stands_at(text, "upstream:"@, first_place(text, "upstream:"@)->0));
    }
}

/// The summary names each switch with its own state.
pub proof fn law_summary_names_each_switch(s: ScheduleView)
    ensures
        summary_text(s) == "Checking for updates "@ + when_text(s.when)
            + ". Auto-install OS updates: "@ + (if s.auto_apply_os {
            "on"@
        } else {
            "off"@
        }) + ". Auto-update Tailscale: "@ + (if s.auto_apply_tailscale {
            "on"@
        } else {
            "off"@
        }) + ". Auto-reboot if needed: "@ + (if s.auto_reboot {
            "on"@
        } else {
            "off"@
        }) + "."@,
{
}

/// Where the label is given again, only what stands before that counts.
pub proof fn law_second_label_ends_the_version(
    a: Seq<char>,
    word: Seq<char>,
    rest: Seq<char>,
)
    requires
        first_place(a + "upstream:"@ + (word + "upstream:"@ + rest), "upstream:"@) == Some(
            a.len() as int,
        ),
        first_place(word + "upstream:"@ + rest, "upstream:"@) == Some(word.len() as int),
        word.len() > 0,
        forall|i: int| 0 <= i < word.len() ==> !is_white_space(#[trigger] word[i]),
    ensures
        upstream_version(Some(a + "upstream:"@ + (word + "upstream:"@ + rest))) == word,
{
    let text = a + "upstream:"@ + (word + "upstream:"@ + rest);
    let none = Seq::<char>::empty();
    assert(text.skip(a.len() as int + "upstream:"@.len()) =~= word + "upstream:"@ + rest);
    assert((word + "upstream:"@ + rest).take(word.len() as int) =~= word);
    law_words_stand_between_white_space(none, word, none);
    assert(none + word + none =~= word);
}

} // verus!
