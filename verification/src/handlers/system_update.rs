//! The server's own updates, and when they are looked for.

use crate::handlers::system_maintenance::Action;
use crate::numbers::{as_i32, number_text};
use crate::schedule::{
    comes_up, day_field, day_setting, due, flag_setting, flag_text, flag_word, is_valid_frequency,
    last_value, law_days_are_kept_within_bounds, law_runs_once_a_day, law_settings_are_read_back,
    law_written_settings_hold, lemma_flag_text, lemma_last_value, lemma_plain_when,
    lemma_settings_text, on_off, on_off_word, plain_key, plain_pairs, plain_value, push_setting,
    settings_joined, settings_text, text_setting, time_field, time_setting, valid_frequency,
    when_text, when_words, Clock, Settings, WhenView,
};
use crate::security::{
    filled, installed_watcher_version, schema_in, watcher_needs_update, REINSTALL_HINT,
    REQUIRED_WATCHER_SCHEMA,
};
use crate::text::{lemma_trimmed, opt_str_view, opt_view, same_text, trimmed};
use vstd::prelude::*;

verus! {

/// When a new version is looked for, and whether it is installed.
pub struct AppUpdateScheduleConfig {
    pub frequency: String,
    pub day_of_week: String,
    pub day_of_month: String,
    pub check_time: String,
    pub auto_install_enabled: bool,
}

/// An update schedule as a value.
pub struct AppUpdateScheduleView {
    pub when: WhenView,
    pub auto_install_enabled: bool,
}

impl View for AppUpdateScheduleConfig {
    type V = AppUpdateScheduleView;

    open spec fn view(&self) -> AppUpdateScheduleView {
        AppUpdateScheduleView {
            when: WhenView {
                frequency: self.frequency@,
                day_of_week: self.day_of_week@,
                day_of_month: self.day_of_month@,
                time: self.check_time@,
            },
            auto_install_enabled: self.auto_install_enabled,
        }
    }
}

/// The schedule that a settings file gives: daily at four, nothing by itself,
/// where it gives nothing else.
pub open spec fn loaded(contents: Option<Seq<char>>) -> AppUpdateScheduleView {
    AppUpdateScheduleView {
        when: WhenView {
            frequency: text_setting(contents, "FREQUENCY"@, "daily"@),
            day_of_week: text_setting(contents, "DAY_OF_WEEK"@, "0"@),
            day_of_month: text_setting(contents, "DAY_OF_MONTH"@, "1"@),
            time: text_setting(contents, "CHECK_TIME"@, "04:00"@),
        },
        auto_install_enabled: flag_setting(contents, "AUTO_INSTALL_ENABLED"@),
    }
}

/// The settings of a schedule.
pub open spec fn settings_of(s: AppUpdateScheduleView) -> Seq<(Seq<char>, Seq<char>)> {
    seq![
        ("FREQUENCY"@, s.when.frequency),
        ("DAY_OF_WEEK"@, s.when.day_of_week),
        ("DAY_OF_MONTH"@, s.when.day_of_month),
        ("CHECK_TIME"@, s.when.time),
        ("AUTO_INSTALL_ENABLED"@, flag_text(s.auto_install_enabled)),
    ]
}

/// The schedule in words.
pub open spec fn summary_text(s: AppUpdateScheduleView) -> Seq<char> {
    "Checking for a new version "@ + when_text(s.when) + ". Auto-install: "@ + on_off(
        s.auto_install_enabled,
    ) + "."@
}

impl AppUpdateScheduleConfig {
    /// The schedule that holds before any was saved.
    pub fn defaults() -> (r: AppUpdateScheduleConfig)
        ensures
            r@ == (AppUpdateScheduleView {
                when: WhenView {
                    frequency: "daily"@,
                    day_of_week: "0"@,
                    day_of_month: "1"@,
                    time: "04:00"@,
                },
                auto_install_enabled: false,
            }),
    {
        AppUpdateScheduleConfig {
            frequency: "daily".to_owned(),
            day_of_week: "0".to_owned(),
            day_of_month: "1".to_owned(),
            check_time: "04:00".to_owned(),
            auto_install_enabled: false,
        }
    }

    /// The schedule that a settings file gives; `None` if there is no file.
    pub fn load(contents: Option<&str>) -> (r: AppUpdateScheduleConfig)
        ensures
            r@ == loaded(opt_str_view(contents)),
    {
        let settings = Settings::read(contents);
        let otherwise = AppUpdateScheduleConfig::defaults();
        AppUpdateScheduleConfig {
            frequency: settings.text("FREQUENCY", otherwise.frequency.as_str()),
            day_of_week: settings.text("DAY_OF_WEEK", otherwise.day_of_week.as_str()),
            day_of_month: settings.text("DAY_OF_MONTH", otherwise.day_of_month.as_str()),
            check_time: settings.text("CHECK_TIME", otherwise.check_time.as_str()),
            auto_install_enabled: settings.flag("AUTO_INSTALL_ENABLED"),
        }
    }

    /// The settings file for this schedule.
    pub fn to_file_contents(&self) -> (r: String)
        ensures
            r@ == settings_text(settings_of(self@)),
    {
        let mut out = String::new();
        push_setting(&mut out, "FREQUENCY", self.frequency.as_str());
        push_setting(&mut out, "DAY_OF_WEEK", self.day_of_week.as_str());
        push_setting(&mut out, "DAY_OF_MONTH", self.day_of_month.as_str());
        push_setting(&mut out, "CHECK_TIME", self.check_time.as_str());
        push_setting(&mut out, "AUTO_INSTALL_ENABLED", flag_word(self.auto_install_enabled));
        proof {
            lemma_settings_text(settings_of(self@));
            assert(out@ =~= settings_text(settings_of(self@))) by {
                reveal_with_fuel(settings_joined, 6);
            }
        }
        out
    }

    /// The schedule in words.
    pub fn summary(&self) -> (r: String)
        ensures
            r@ == summary_text(self@),
    {
        let mut r = "Checking for a new version ".to_owned();
        r.append(
            when_words(
                self.frequency.as_str(),
                self.day_of_week.as_str(),
                self.day_of_month.as_str(),
                self.check_time.as_str(),
            ).as_str(),
        );
        r.append(". Auto-install: ");
        r.append(on_off_word(self.auto_install_enabled));
        r.append(".");
        r
    }

    /// Whether a new version is to be looked for now.
    pub fn is_due(&self, last_check: &str, clock: &Clock) -> (r: bool)
        ensures
            r == due(self@.when, last_check@, *clock),
    {
        comes_up(
            self.frequency.as_str(),
            self.day_of_week.as_str(),
            self.day_of_month.as_str(),
            self.check_time.as_str(),
            last_check,
            clock,
        )
    }
}

/// The names of the settings can stand in a settings file, and no two are
/// the same.
proof fn lemma_keys(s: AppUpdateScheduleView)
    ensures
        forall|i: int|
            0 <= i < settings_of(s).len() ==> plain_key((#[trigger] settings_of(s)[i]).0),
        forall|i: int, j: int|
            0 <= i < j < settings_of(s).len() ==> (#[trigger] settings_of(s)[i]).0 != (
            #[trigger] settings_of(s)[j]).0,
{
    reveal_strlit("FREQUENCY");
    reveal_strlit("DAY_OF_WEEK");
    reveal_strlit("DAY_OF_MONTH");
    reveal_strlit("CHECK_TIME");
    reveal_strlit("AUTO_INSTALL_ENABLED");
    lemma_trimmed("FREQUENCY"@);
    lemma_trimmed("DAY_OF_WEEK"@);
    lemma_trimmed("DAY_OF_MONTH"@);
    lemma_trimmed("CHECK_TIME"@);
    lemma_trimmed("AUTO_INSTALL_ENABLED"@);
}

/// A schedule that was saved is the one that is loaded, as long as its texts
/// stay on their lines and have no white space around them.
pub proof fn law_schedule_is_read_back(s: AppUpdateScheduleView)
    requires
        plain_value(s.when.frequency),
        plain_value(s.when.day_of_week),
        plain_value(s.when.day_of_month),
        plain_value(s.when.time),
    ensures
        loaded(Some(settings_text(settings_of(s)))) == s,
{
    let pairs = settings_of(s);
    lemma_keys(s);
    lemma_flag_text(s.auto_install_enabled);
    assert forall|i: int| 0 <= i < pairs.len() implies plain_key((#[trigger] pairs[i]).0)
        && plain_value(pairs[i].1) by {
        assert(plain_key(settings_of(s)[i].0));
    }
    assert forall|i: int| 0 <= i < pairs.len() implies last_value(pairs, #[trigger] pairs[i].0)
        == Some(pairs[i].1) by {
        lemma_last_value(pairs, i);
    }
    law_settings_are_read_back(pairs, pairs[0].0);
    law_settings_are_read_back(pairs, pairs[1].0);
    law_settings_are_read_back(pairs, pairs[2].0);
    law_settings_are_read_back(pairs, pairs[3].0);
    law_settings_are_read_back(pairs, pairs[4].0);
}

/// The schedule form.
pub struct AppUpdateScheduleForm {
    pub frequency: String,
    pub day_of_week: String,
    pub day_of_month: String,
    pub check_time: String,
    pub auto_install_enabled: Option<String>,
}

/// The schedule that a form asks for. A frequency that there is not counts as
/// daily.
pub open spec fn requested_schedule(form: AppUpdateScheduleForm) -> AppUpdateScheduleView {
    AppUpdateScheduleView {
        when: WhenView {
            frequency: if valid_frequency(form.frequency@) {
                form.frequency@
            } else {
                "daily"@
            },
            day_of_week: day_setting(form.day_of_week@, 0, 0, 6),
            day_of_month: day_setting(form.day_of_month@, 1, 1, 28),
            time: time_setting(form.check_time@, "04:00"@),
        },
        auto_install_enabled: form.auto_install_enabled is Some,
    }
}

/// The schedule that a form asked for is the one that is loaded, as long as
/// the time stays on its line.
pub proof fn law_saved_schedule_is_loaded(form: AppUpdateScheduleForm)
    requires
        !trimmed(form.check_time@).contains('\n'),
    ensures
        loaded(Some(settings_text(settings_of(requested_schedule(form))))) == requested_schedule(
            form,
        ),
{
    reveal_strlit("04:00");
    lemma_trimmed("04:00"@);
    lemma_plain_when(
        requested_schedule(form).when.frequency,
        form.day_of_week@,
        form.day_of_month@,
        form.check_time@,
        "04:00"@,
    );
    law_schedule_is_read_back(requested_schedule(form));
}

/// The schedule that a form asks for.
pub fn save_app_update_schedule(form: AppUpdateScheduleForm) -> (r: AppUpdateScheduleConfig)
    ensures
        r@ == requested_schedule(form),
{
    AppUpdateScheduleConfig {
        day_of_week: day_field(form.day_of_week.as_str(), 0, 0, 6),
        day_of_month: day_field(form.day_of_month.as_str(), 1, 1, 28),
        check_time: time_field(form.check_time.as_str(), "04:00"),
        auto_install_enabled: form.auto_install_enabled.is_some(),
        frequency: if is_valid_frequency(form.frequency.as_str()) {
            form.frequency
        } else {
            "daily".to_owned()
        },
    }
}

/// The message after the schedule form, by whether the file could be written.
pub fn schedule_saved_message(written: bool) -> (r: &'static str)
    ensures
        r@ == if written {
            "Update-check schedule saved."@
        } else {
            "Couldn't save the schedule."@
        },
{
    if written {
        "Update-check schedule saved."
    } else {
        "Couldn't save the schedule."
    }
}

impl AppUpdateScheduleConfig {
    /// Whether a new version is to be looked for now, to be installed by
    /// itself.
    pub fn checks_now(&self, last_check: &str, clock: &Clock) -> (r: bool)
        ensures
            r == (self.auto_install_enabled && due(self@.when, last_check@, *clock)),
    {
        self.auto_install_enabled && self.is_due(last_check, clock)
    }
}

/// There is a version to update to: one is known, and it is not this one.
pub open spec fn is_update(latest: Option<Seq<char>>, current: Seq<char>) -> bool {
    latest is Some && latest->0 != current
}

/// Whether there is a version to update to.
pub fn update_available(latest: &Option<String>, current: &str) -> (r: bool)
    ensures
        r == is_update(opt_view(*latest), current@),
{
    match latest {
        Some(version) => !same_text(version.as_str(), current),
        None => false,
    }
}

/// What has just come about in the loop that looks for new versions.
pub enum LoopEvent {
    /// It is time to look at the schedule again.
    Woke,
    /// The day was noted, or could not be.
    Marked(bool),
    /// This is the newest version; nothing if it could not be learnt.
    Answered(Option<String>),
}

/// What the loop that looks for new versions does next.
pub enum LoopStep {
    /// Nothing until it is time to look again.
    Wait,
    /// Notes this day as the one that a new version was last looked for on.
    Mark(String),
    /// Asks for the newest version.
    Ask,
    /// Has the newest version installed.
    Install,
}

/// The step is the one to take in a server of the given version. The day is
/// noted before anything is asked.
pub open spec fn is_loop_step(
    s: AppUpdateScheduleView,
    last_check: Seq<char>,
    clock: Clock,
    current: Seq<char>,
    event: LoopEvent,
    step: LoopStep,
) -> bool {
    match event {
        LoopEvent::Woke => if s.auto_install_enabled && due(s.when, last_check, clock) {
            step matches LoopStep::Mark(day) && day@ == clock.today@
        } else {
            step is Wait
        },
        LoopEvent::Marked(written) => if written {
            step is Ask
        } else {
            step is Wait
        },
        LoopEvent::Answered(latest) => if is_update(opt_view(latest), current) {
            step is Install
        } else {
            step is Wait
        },
    }
}

/// What the loop that looks for new versions does next. `last_check` is the
/// day that was last noted, and `current` this server's version.
pub fn run_scheduled_app_update_check(
    schedule: &AppUpdateScheduleConfig,
    last_check: &str,
    clock: &Clock,
    current: &str,
    event: LoopEvent,
) -> (r: LoopStep)
    ensures
        is_loop_step(schedule@, last_check@, *clock, current@, event, r),
{
    match event {
        LoopEvent::Woke => if schedule.checks_now(last_check, clock) {
            LoopStep::Mark(clock.today.clone())
        } else {
            LoopStep::Wait
        },
        LoopEvent::Marked(written) => if written {
            LoopStep::Ask
        } else {
            LoopStep::Wait
        },
        LoopEvent::Answered(latest) => if update_available(&latest, current) {
            LoopStep::Install
        } else {
            LoopStep::Wait
        },
    }
}

/// Once a day was noted, nothing more is asked on that day, whatever the
/// schedule is changed to. A date has no white space around it.
pub proof fn law_noted_days_are_over(
    s: AppUpdateScheduleView,
    noted: Seq<char>,
    clock: Clock,
    current: Seq<char>,
    step: LoopStep,
)
    requires
        trimmed(clock.today@) == clock.today@,
        is_loop_step(s, noted, clock, current, LoopEvent::Woke, step),
        noted == clock.today@,
    ensures
        step is Wait,
{
    law_runs_once_a_day(s.when, noted, clock);
}

/// Nothing is installed by itself unless that is switched on, and never the
/// version that runs.
pub proof fn law_only_new_versions_are_installed(
    s: AppUpdateScheduleView,
    last_check: Seq<char>,
    clock: Clock,
    current: Seq<char>,
    event: LoopEvent,
    step: LoopStep,
)
    requires
        is_loop_step(s, last_check, clock, current, event, step),
    ensures
        event is Woke && !s.auto_install_enabled ==> step is Wait,
        step is Install ==> (event matches LoopEvent::Answered(Some(latest)) && latest@
            != current),
{
}

/// What the page shows of the server's own updates.
pub struct AppUpdateData {
    pub current_version: String,
    pub latest_version: Option<String>,
    pub update_available: bool,
    pub check_failed: bool,
    pub watcher_version: Option<String>,
    pub watcher_needs_update: bool,
    pub reinstall_hint: &'static str,
    pub schedule: AppUpdateScheduleConfig,
    pub schedule_summary: String,
}

/// What the page shows of the server's own updates. `version_marker` and
/// `schema_marker` are what the installer left.
pub fn gather(
    current: &str,
    latest: Option<String>,
    version_marker: Option<&str>,
    schema_marker: Option<&str>,
    settings: Option<&str>,
) -> (r: AppUpdateData)
    ensures
        r.current_version@ == current@,
        r.latest_version == latest,
        r.update_available == is_update(opt_view(latest), current@),
        r.check_failed == latest is None,
        opt_view(r.watcher_version) == filled(opt_str_view(version_marker)),
        r.watcher_needs_update == match schema_in(opt_str_view(schema_marker)) {
            Some(v) => v < REQUIRED_WATCHER_SCHEMA,
            None => true,
        },
        r.reinstall_hint@ == REINSTALL_HINT@,
        r.schedule@ == loaded(opt_str_view(settings)),
        r.schedule_summary@ == summary_text(r.schedule@),
{
    let schedule = AppUpdateScheduleConfig::load(settings);
    let schedule_summary = schedule.summary();
    AppUpdateData {
        current_version: current.to_owned(),
        update_available: update_available(&latest, current),
        check_failed: latest.is_none(),
        latest_version: latest,
        watcher_version: installed_watcher_version(version_marker),
        watcher_needs_update: watcher_needs_update(schema_marker),
        reinstall_hint: REINSTALL_HINT,
        schedule,
        schedule_summary,
    }
}

/// Installs the newest version.
pub fn trigger_update() -> (r: Action)
    ensures
        r.word@ == "update"@,
        r.event_type@ == "system_update_triggered"@,
        r.started@
            == "Update started. The app will download the new version and restart automatically - this can take about a minute. Refresh this page shortly."@,
{
    Action {
        word: "update",
        event_type: "system_update_triggered",
        started: "Update started. The app will download the new version and restart automatically - this can take about a minute. Refresh this page shortly.",
    }
}

/// Restarts the server.
pub fn trigger_restart() -> (r: Action)
    ensures
        r.word@ == "restart"@,
        r.event_type@ == "system_restart_triggered"@,
        r.started@ == "Restarting now. Refresh this page in a few seconds."@,
{
    Action {
        word: "restart",
        event_type: "system_restart_triggered",
        started: "Restarting now. Refresh this page in a few seconds.",
    }
}

// ----- what holds of these -----

/// Each part of the schedule is found in the settings file under its own name, and
/// has its usual value where the file does not name it.
pub proof fn law_settings_have_their_names(pairs: Seq<(Seq<char>, Seq<char>)>)
    requires
        plain_pairs(pairs),
    ensures
        ({
            let r = loaded(Some(settings_text(pairs)));
            &&& r.when.frequency == match last_value(pairs, "FREQUENCY"@) {
                Some(value) => value,
                None => "daily"@,
            }
            &&& r.when.day_of_week == match last_value(pairs, "DAY_OF_WEEK"@) {
                Some(value) => value,
                None => "0"@,
            }
            &&& r.when.day_of_month == match last_value(pairs, "DAY_OF_MONTH"@) {
                Some(value) => value,
                None => "1"@,
            }
            &&& r.when.time == match last_value(pairs, "CHECK_TIME"@) {
                Some(value) => value,
                None => "04:00"@,
            }
            &&& r.auto_install_enabled <==> last_value(pairs, "AUTO_INSTALL_ENABLED"@) == Some("true"@)
        }),
        ({
            let r = loaded(None);
            &&& r.when.frequency == "daily"@
            &&& r.when.day_of_week == "0"@
            &&& r.when.day_of_month == "1"@
            &&& r.when.time == "04:00"@
            &&& !r.auto_install_enabled
        }),
{
    law_written_settings_hold(pairs, "FREQUENCY"@, "daily"@);
    law_written_settings_hold(pairs, "DAY_OF_WEEK"@, "0"@);
    law_written_settings_hold(pairs, "DAY_OF_MONTH"@, "1"@);
    law_written_settings_hold(pairs, "CHECK_TIME"@, "04:00"@);
    law_written_settings_hold(pairs, "AUTO_INSTALL_ENABLED"@, ""@);
}

/// What a form asks for is what is saved: a frequency that there is as it is and
/// any other as daily, days that lie within their bounds unchanged, and the switch
/// just if its box was ticked.
pub proof fn law_forms_are_taken_as_given(form: AppUpdateScheduleForm, weekday: int, day: int)
    requires
        0 <= weekday <= 6,
        1 <= day <= 28,
        trimmed(form.day_of_week@) == number_text(weekday),
        trimmed(form.day_of_month@) == number_text(day),
        trimmed(form.check_time@).len() > 0,
    ensures
        form.frequency@ == "daily"@ || form.frequency@ == "weekly"@ || form.frequency@ == "monthly"@
            ==> requested_schedule(form).when.frequency == form.frequency@,
        form.frequency@ != "daily"@ && form.frequency@ != "weekly"@ && form.frequency@ != "monthly"@
            ==> requested_schedule(form).when.frequency == "daily"@,
        requested_schedule(form).when.day_of_week == number_text(weekday),
        requested_schedule(form).when.day_of_month == number_text(day),
        requested_schedule(form).when.time == trimmed(form.check_time@),
        requested_schedule(form).auto_install_enabled <==> form.auto_install_enabled is Some,
{
    law_days_are_kept_within_bounds(form.day_of_week@, weekday, 0, 0, 6);
    law_days_are_kept_within_bounds(form.day_of_month@, day, 1, 1, 28);
}

/// What a form leaves open gets the usual values: the first day of the week and
/// of the month, four at night.
pub proof fn law_open_fields_get_the_usual(form: AppUpdateScheduleForm)
    requires
        as_i32(trimmed(form.day_of_week@)) is None,
        as_i32(trimmed(form.day_of_month@)) is None,
        trimmed(form.check_time@).len() == 0,
    ensures
        requested_schedule(form).when.day_of_week == number_text(0),
        requested_schedule(form).when.day_of_month == number_text(1),
        requested_schedule(form).when.time == "04:00"@,
{
}

/// A version is asked for only once the day was noted, and installed only where
/// it is known and another than the one that runs. Nothing starts by itself while
/// the switch is off.
pub proof fn law_steps_follow_each_other(
    s: AppUpdateScheduleView,
    last_check: Seq<char>,
    clock: Clock,
    current: Seq<char>,
    event: LoopEvent,
    step: LoopStep,
)
    requires
        is_loop_step(s, last_check, clock, current, event, step),
    ensures
        step is Mark <==> event is Woke && s.auto_install_enabled && due(s.when, last_check, clock),
        step matches LoopStep::Mark(day) ==> day@ == clock.today@,
        step is Ask <==> event == LoopEvent::Marked(true),
        step is Install <==> (event matches LoopEvent::Answered(latest) && (latest matches Some(
            version,
        ) && version@ != current)),
{
}

/// A version is new just if it is known and is not the one that runs.
pub proof fn law_other_versions_are_new(version: Seq<char>, current: Seq<char>)
    ensures
        is_update(Some(version), current) <==> version != current,
        !is_update(None, current),
{
}

/// The summary says when, and whether new versions are installed by themselves.
pub proof fn law_summary_says_what_is_set(s: AppUpdateScheduleView)
    ensures
        summary_text(s) == "Checking for a new version "@ + when_text(s.when) + ". Auto-install: "@
            + (if s.auto_install_enabled {
            "on"@
        } else {
            "off"@
        }) + "."@,
{
}

} // verus!
