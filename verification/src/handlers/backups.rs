//! Backups: snapshots of the database, zipped and kept in a folder of their
//! own, made by hand or on a schedule, and pruned, restored and uploaded.

use crate::numbers::{
    all_digits, as_i32, as_i64, as_u64, as_usize, decimal, i64_text, lemma_decimal,
    lemma_number_text, number_text, parse_i64, parse_u64, parse_usize, u64_text,
};
use crate::order::{
    all_views, arrange, in_order, lemma_common_start, lemma_filter_members, lemma_followed,
    lemma_in_order, lemma_sorted, lemma_text_trichotomy, lemma_texts_coherent, less_text,
    sort_texts, sorted, text_at_most, text_less, Placed,
};
use crate::outside::{zip_deflated, zip_deflated_entry, zip_entry, zip_has_entry};
use crate::schedule::{
    clamped, comes_up, day_field, day_setting, due, flag_setting, flag_text, flag_word,
    is_valid_frequency, last_value, law_runs_once_a_day, law_settings_are_read_back,
    law_written_settings_hold, lemma_flag_text, lemma_last_value, lemma_plain_number,
    lemma_plain_when, number_or, on_off, on_off_word, plain_key, plain_pairs, plain_value,
    push_setting, settings_text, text_setting, time_field, time_setting, valid_frequency, when_text,
    when_words, Clock, Settings, WhenView,
};
use crate::text::{
    chars_of, contains_char, contains_text, digit, ends_with, holds, is_digit,
    law_parts_stand_between, lemma_trimmed,
    opt_str_view, opt_view, same_text, stands_at, starts_with, text_between, trim, trim_end_digits,
    trimmed, views, without_trailing_digits,
};
use vstd::prelude::*;

verus! {

// ----- the schedule -----

/// When backups are made, and how many are kept.
pub struct BackupScheduleConfig {
    pub frequency: String,
    pub day_of_week: String,
    pub day_of_month: String,
    pub backup_time: String,
    pub retention_count: String,
    pub external_copy_enabled: bool,
    pub continuous_mirror_enabled: bool,
}

/// A backup schedule as a value.
pub struct BackupScheduleView {
    pub when: WhenView,
    pub retention_count: Seq<char>,
    pub external_copy_enabled: bool,
    pub continuous_mirror_enabled: bool,
}

impl View for BackupScheduleConfig {
    type V = BackupScheduleView;

    open spec fn view(&self) -> BackupScheduleView {
        BackupScheduleView {
            when: WhenView {
                frequency: self.frequency@,
                day_of_week: self.day_of_week@,
                day_of_month: self.day_of_month@,
                time: self.backup_time@,
            },
            retention_count: self.retention_count@,
            external_copy_enabled: self.external_copy_enabled,
            continuous_mirror_enabled: self.continuous_mirror_enabled,
        }
    }
}

/// The schedule that a settings file gives: daily at two, keeping fourteen,
/// where it gives nothing else.
pub open spec fn loaded(contents: Option<Seq<char>>) -> BackupScheduleView {
    BackupScheduleView {
        when: WhenView {
            frequency: text_setting(contents, "FREQUENCY"@, "daily"@),
            day_of_week: text_setting(contents, "DAY_OF_WEEK"@, "0"@),
            day_of_month: text_setting(contents, "DAY_OF_MONTH"@, "1"@),
            time: text_setting(contents, "BACKUP_TIME"@, "02:00"@),
        },
        retention_count: text_setting(contents, "RETENTION_COUNT"@, "14"@),
        external_copy_enabled: flag_setting(contents, "EXTERNAL_COPY_ENABLED"@),
        continuous_mirror_enabled: flag_setting(contents, "CONTINUOUS_MIRROR_ENABLED"@),
    }
}

/// The settings of a schedule.
pub open spec fn settings_of(s: BackupScheduleView) -> Seq<(Seq<char>, Seq<char>)> {
    seq![
        ("FREQUENCY"@, s.when.frequency),
        ("DAY_OF_WEEK"@, s.when.day_of_week),
        ("DAY_OF_MONTH"@, s.when.day_of_month),
        ("BACKUP_TIME"@, s.when.time),
        ("RETENTION_COUNT"@, s.retention_count),
        ("EXTERNAL_COPY_ENABLED"@, flag_text(s.external_copy_enabled)),
        ("CONTINUOUS_MIRROR_ENABLED"@, flag_text(s.continuous_mirror_enabled)),
    ]
}

/// How many backups are kept; nothing if all of them are.
pub open spec fn kept(s: BackupScheduleView) -> Option<int> {
    match as_usize(trimmed(s.retention_count)) {
        Some(n) => if n > 0 {
            Some(n)
        } else {
            None
        },
        None => None,
    }
}

/// The schedule in words.
pub open spec fn summary_text(s: BackupScheduleView) -> Seq<char> {
    "Backing up "@ + when_text(s.when) + ", "@ + (match kept(s) {
        Some(n) => "keeping the last "@ + number_text(n),
        None => "keeping all of them (no automatic deletion)"@,
    }) + ". Copy to external drive: "@ + on_off(s.external_copy_enabled)
        + ". Continuous mirror: "@ + on_off(s.continuous_mirror_enabled) + "."@
}

impl BackupScheduleConfig {
    /// The schedule that holds before any was saved.
    pub fn defaults() -> (r: BackupScheduleConfig)
        ensures
            r@ == (BackupScheduleView {
                when: WhenView {
                    frequency: "daily"@,
                    day_of_week: "0"@,
                    day_of_month: "1"@,
                    time: "02:00"@,
                },
                retention_count: "14"@,
                external_copy_enabled: false,
                continuous_mirror_enabled: false,
            }),
    {
        BackupScheduleConfig {
            frequency: "daily".to_owned(),
            day_of_week: "0".to_owned(),
            day_of_month: "1".to_owned(),
            backup_time: "02:00".to_owned(),
            retention_count: "14".to_owned(),
            external_copy_enabled: false,
            continuous_mirror_enabled: false,
        }
    }

    /// The schedule that a settings file gives; `None` if there is no file.
    pub fn load(contents: Option<&str>) -> (r: BackupScheduleConfig)
        ensures
            r@ == loaded(opt_str_view(contents)),
    {
        let settings = Settings::read(contents);
        let otherwise = BackupScheduleConfig::defaults();
        BackupScheduleConfig {
            frequency: settings.text("FREQUENCY", otherwise.frequency.as_str()),
            day_of_week: settings.text("DAY_OF_WEEK", otherwise.day_of_week.as_str()),
            day_of_month: settings.text("DAY_OF_MONTH", otherwise.day_of_month.as_str()),
            backup_time: settings.text("BACKUP_TIME", otherwise.backup_time.as_str()),
            retention_count: settings.text("RETENTION_COUNT", otherwise.retention_count.as_str()),
            external_copy_enabled: settings.flag("EXTERNAL_COPY_ENABLED"),
            continuous_mirror_enabled: settings.flag("CONTINUOUS_MIRROR_ENABLED"),
        }
    }

    /// The settings file for this schedule.
    pub fn to_file_contents(&self) -> (r: String)
        ensures
            r@ == settings_text(settings_of(self@)),
    {
        let mut out = String::new();
        push_setting(&mut out, "FREQUENCY", self.frequency.as_str());
        push_setting(&mut out, "DAY_OF_WEEK", self.day_of_week.as_str());
        push_setting(&mut out, "DAY_OF_MONTH", self.day_of_month.as_str());
        push_setting(&mut out, "BACKUP_TIME", self.backup_time.as_str());
        push_setting(&mut out, "RETENTION_COUNT", self.retention_count.as_str());
        push_setting(&mut out, "EXTERNAL_COPY_ENABLED", flag_word(self.external_copy_enabled));
        push_setting(
            &mut out,
            "CONTINUOUS_MIRROR_ENABLED",
            flag_word(self.continuous_mirror_enabled),
        );
        proof {
            crate::schedule::lemma_settings_text(settings_of(self@));
            assert(out@ =~= settings_text(settings_of(self@))) by {
                reveal_with_fuel(crate::schedule::settings_joined, 8);
            }
        }
        out
    }

    /// How many backups are kept; nothing if all of them are.
    pub fn retention_count(&self) -> (r: Option<usize>)
        ensures
            match r {
                Some(n) => kept(self@) == Some(n as int),
                None => kept(self@) is None,
            },
    {
        match parse_usize(trim(self.retention_count.as_str()).as_str()) {
            Some(n) => if n > 0 {
                Some(n)
            } else {
                None
            },
            None => None,
        }
    }

    /// The schedule in words.
    pub fn summary(&self) -> (r: String)
        ensures
            r@ == summary_text(self@),
    {
        let mut r = "Backing up ".to_owned();
        r.append(
            when_words(
                self.frequency.as_str(),
                self.day_of_week.as_str(),
                self.day_of_month.as_str(),
                self.backup_time.as_str(),
            ).as_str(),
        );
        r.append(", ");
        let retention = match self.retention_count() {
            Some(n) => {
                let mut words = "keeping the last ".to_owned();
                words.append(u64_text(n as u64).as_str());
                words
            },
            None => "keeping all of them (no automatic deletion)".to_owned(),
        };
        r.append(retention.as_str());
        r.append(". Copy to external drive: ");
        r.append(on_off_word(self.external_copy_enabled));
        r.append(". Continuous mirror: ");
        r.append(on_off_word(self.continuous_mirror_enabled));
        r.append(".");
        r
    }

    /// Whether a backup is to be made now.
    pub fn is_due(&self, last_run: &str, clock: &Clock) -> (r: bool)
        ensures
            r == due(self@.when, last_run@, *clock),
    {
        comes_up(
            self.frequency.as_str(),
            self.day_of_week.as_str(),
            self.day_of_month.as_str(),
            self.backup_time.as_str(),
            last_run,
            clock,
        )
    }
}

/// The names of the settings can stand in a settings file, and no two are
/// the same.
proof fn lemma_keys(s: BackupScheduleView)
    ensures
        forall|i: int|
            0 <= i < settings_of(s).len() ==> plain_key((#[trigger] settings_of(s)[i]).0),
        forall|i: int, j: int|
            0 <= i < j < settings_of(s).len() ==> (#[trigger] settings_of(s)[i]).0 != (
            #[trigger] settings_of(s)[j]).0,
{
    reveal_strlit("FREQUENCY");
    reveal_strlit("DAY_OF_WEEK");
    reveal_strlit("DAY_OF_MONTH");
    reveal_strlit("BACKUP_TIME");
    reveal_strlit("RETENTION_COUNT");
    reveal_strlit("EXTERNAL_COPY_ENABLED");
    reveal_strlit("CONTINUOUS_MIRROR_ENABLED");
    lemma_trimmed("FREQUENCY"@);
    lemma_trimmed("DAY_OF_WEEK"@);
    lemma_trimmed("DAY_OF_MONTH"@);
    lemma_trimmed("BACKUP_TIME"@);
    lemma_trimmed("RETENTION_COUNT"@);
    lemma_trimmed("EXTERNAL_COPY_ENABLED"@);
    lemma_trimmed("CONTINUOUS_MIRROR_ENABLED"@);
    assert("DAY_OF_WEEK"@[0] != "BACKUP_TIME"@[0]);
}

/// A schedule that was saved is the one that is loaded, as long as its texts
/// stay on their lines and have no white space around them.
pub proof fn law_schedule_is_read_back(s: BackupScheduleView)
    requires
        plain_value(s.when.frequency),
        plain_value(s.when.day_of_week),
        plain_value(s.when.day_of_month),
        plain_value(s.when.time),
        plain_value(s.retention_count),
    ensures
        loaded(Some(settings_text(settings_of(s)))) == s,
{
    let pairs = settings_of(s);
    lemma_keys(s);
    lemma_flag_text(s.external_copy_enabled);
    lemma_flag_text(s.continuous_mirror_enabled);
    assert forall|i: int| 0 <= i < pairs.len() implies plain_key((#[trigger] pairs[i]).0)
        && plain_value(pairs[i].1) by {
        assert(plain_key(settings_of(s)[i].0));
    }
    assert forall|i: int| 0 <= i < pairs.len() implies last_value(pairs, #[trigger] pairs[i].0)
        == Some(pairs[i].1) by {
        lemma_last_value(pairs, i);
    }
    law_settings_are_read_back(pairs, pairs[0].0);
    law_settings_are_read_back(pairs, pairs[1].0);
    law_settings_are_read_back(pairs, pairs[2].0);
    law_settings_are_read_back(pairs, pairs[3].0);
    law_settings_are_read_back(pairs, pairs[4].0);
    law_settings_are_read_back(pairs, pairs[5].0);
    law_settings_are_read_back(pairs, pairs[6].0);
}

/// The schedule form.
pub struct BackupScheduleForm {
    pub frequency: String,
    pub day_of_week: String,
    pub day_of_month: String,
    pub backup_time: String,
    pub retention_count: String,
    pub external_copy_enabled: Option<String>,
    pub continuous_mirror_enabled: Option<String>,
}

/// The schedule that a form asks for: days and counts within their bounds,
/// and the usual time where it was left empty.
pub open spec fn requested_schedule(form: BackupScheduleForm) -> BackupScheduleView {
    BackupScheduleView {
        when: WhenView {
            frequency: form.frequency@,
            day_of_week: day_setting(form.day_of_week@, 0, 0, 6),
            day_of_month: day_setting(form.day_of_month@, 1, 1, 28),
            time: time_setting(form.backup_time@, "02:00"@),
        },
        retention_count: number_text(
            clamped(number_or(as_i64(trimmed(form.retention_count@)), 14), 0, 3650),
        ),
        external_copy_enabled: form.external_copy_enabled is Some,
        continuous_mirror_enabled: form.continuous_mirror_enabled is Some,
    }
}

/// The schedule that a form asked for is the one that is loaded, as long as
/// the time stays on its line.
pub proof fn law_saved_schedule_is_loaded(form: BackupScheduleForm)
    requires
        valid_frequency(form.frequency@),
        !trimmed(form.backup_time@).contains('\n'),
    ensures
        loaded(Some(settings_text(settings_of(requested_schedule(form))))) == requested_schedule(
            form,
        ),
{
    reveal_strlit("02:00");
    lemma_trimmed("02:00"@);
    lemma_plain_when(
        form.frequency@,
        form.day_of_week@,
        form.day_of_month@,
        form.backup_time@,
        "02:00"@,
    );
    lemma_plain_number(clamped(number_or(as_i64(trimmed(form.retention_count@)), 14), 0, 3650));
    law_schedule_is_read_back(requested_schedule(form));
}

/// The schedule that a form asks for, or what is wrong with the form.
pub fn save_backup_schedule(form: BackupScheduleForm) -> (r: Result<BackupScheduleConfig, String>)
    ensures
        match r {
            Ok(config) => valid_frequency(form.frequency@) && config@ == requested_schedule(form),
            Err(message) => !valid_frequency(form.frequency@) && message@ == "Invalid frequency."@,
        },
{
    if !is_valid_frequency(form.frequency.as_str()) {
        return Err("Invalid frequency.".to_owned());
    }
    let retention: i64 = match parse_i64(trim(form.retention_count.as_str()).as_str()) {
        Some(n) => n,
        None => 14,
    };
    let retention: i64 = if retention < 0 {
        0
    } else if retention > 3650 {
        3650
    } else {
        retention
    };
    Ok(
        BackupScheduleConfig {
            day_of_week: day_field(form.day_of_week.as_str(), 0, 0, 6),
            day_of_month: day_field(form.day_of_month.as_str(), 1, 1, 28),
            backup_time: time_field(form.backup_time.as_str(), "02:00"),
            retention_count: i64_text(retention),
            external_copy_enabled: form.external_copy_enabled.is_some(),
            continuous_mirror_enabled: form.continuous_mirror_enabled.is_some(),
            frequency: form.frequency,
        },
    )
}

/// The message after the schedule form, by whether the file could be written.
pub fn schedule_saved_message(written: bool) -> (r: &'static str)
    ensures
        r@ == if written {
            "Backup schedule saved."@
        } else {
            "Couldn't save the schedule."@
        },
{
    if written {
        "Backup schedule saved."
    } else {
        "Couldn't save the schedule."
    }
}

// ----- sizes -----

/// The quotient to the nearest whole number, to the even one of two.
pub open spec fn half_even(n: int, d: int) -> int {
    let q = n / d;
    let r = n % d;
    if 2 * r < d || (2 * r == d && q % 2 == 0) {
        q
    } else {
        q + 1
    }
}

/// The step between the numbers of 53 binary digits around `n`.
pub open spec fn double_step(n: int) -> int
    decreases n,
{
    if n < 0x20_0000_0000_0000 {
        1
    } else {
        2 * double_step(n / 2)
    }
}

/// The number of 53 binary digits that is nearest to `n`.
pub open spec fn as_double(n: int) -> int {
    half_even(n, double_step(n)) * double_step(n)
}

/// A number in tenths, as text.
pub open spec fn tenths_text(tenths: int) -> Seq<char> {
    number_text(tenths / 10) + "."@ + number_text(tenths % 10)
}

/// A number of bytes for people: in bytes, or with one decimal in the largest
/// unit up to gigabytes of which there is at least one. The number is first
/// brought to 53 binary digits, and a tie goes to the even digit.
pub open spec fn size_text(bytes: int) -> Seq<char> {
    let size = as_double(bytes);
    if size < 1024 {
        number_text(bytes) + " B"@
    } else if size < 1_048_576 {
        tenths_text(half_even(size * 10, 1024)) + " KB"@
    } else if size < 1_073_741_824 {
        tenths_text(half_even(size * 10, 1_048_576)) + " MB"@
    } else {
        tenths_text(half_even(size * 10, 1_073_741_824)) + " GB"@
    }
}

fn half_even_of(n: u128, d: u128) -> (r: u128)
    requires
        0 < d < 0x1_0000_0000_0000_0000,
        n < 0x1_0000_0000_0000_0000_0000,
    ensures
        r == half_even(n as int, d as int),
{
    let q: u128 = n / d;
    let rest: u128 = n % d;
    proof {
        vstd::arithmetic::div_mod::lemma_div_is_ordered_by_denominator(n as int, 1, d as int);
    }
    if 2 * rest < d || (2 * rest == d && q % 2 == 0) {
        q
    } else {
        q + 1
    }
}

proof fn lemma_double_step(n: int)
    requires
        0 <= n,
    ensures
        double_step(n) >= 1,
        double_step(n) == 1 || double_step(n) * 0x10_0000_0000_0000 <= n,
    decreases n,
{
    if n >= 0x20_0000_0000_0000 {
        lemma_double_step(n / 2);
    }
}

fn double_step_of(n: u64) -> (r: u64)
    ensures
        r == double_step(n as int),
    decreases n,
{
    if n < 0x20_0000_0000_0000 {
        1
    } else {
        proof {
            lemma_double_step(n as int / 2);
        }
        let half = double_step_of(n / 2);
        2 * half
    }
}

fn push_tenths(tenths: u128, unit: &str) -> (r: String)
    requires
        tenths < 0x1_0000_0000_0000_0000,
    ensures
        r@ == tenths_text(tenths as int) + unit@,
{
    let mut r = u64_text((tenths / 10) as u64);
    r.append(".");
    r.append(u64_text((tenths % 10) as u64).as_str());
    r.append(unit);
    r
}

/// A number of bytes for people.
pub fn human_size(bytes: u64) -> (r: String)
    ensures
        r@ == size_text(bytes as int),
{
    let step: u64 = double_step_of(bytes);
    proof {
        lemma_double_step(bytes as int);
    }
    let count: u128 = half_even_of(bytes as u128, step as u128);
    proof {
        lemma_as_double(bytes as int);
    }
    let size: u128 = count * step as u128;
    if size < 1024 {
        let mut r = u64_text(bytes);
        r.append(" B");
        r
    } else if size < 1_048_576 {
        push_tenths(half_even_of(size * 10, 1024), " KB")
    } else if size < 1_073_741_824 {
        push_tenths(half_even_of(size * 10, 1_048_576), " MB")
    } else {
        push_tenths(half_even_of(size * 10, 1_073_741_824), " GB")
    }
}

/// Rounding to 53 binary digits at most doubles a number.
proof fn lemma_as_double(n: int)
    requires
        0 <= n <= u64::MAX,
    ensures
        0 <= as_double(n) <= 2 * n,
        half_even(n, double_step(n)) <= n + 1,
{
    lemma_double_step(n);
    let d = double_step(n);
    let q = n / d;
    if n < 0x20_0000_0000_0000 {
        assert(n / 1 == n && n % 1 == 0);
        assert(as_double(n) == n);
    } else {
        assert(q * d <= n && q <= n && 0 <= q && (q + 1) * d <= n + d) by (nonlinear_arith)
            requires
                d >= 1,
                n >= 0,
                q == n / d,
        ;
    }
}

// ----- the files -----

/// The folder that backups are kept in.
pub const BACKUP_DIR: &'static str = "data/backups";

/// The name is one that a backup can have: it cannot lead out of the folder.
pub open spec fn safe_name(name: Seq<char>) -> bool {
    &&& "backup-"@.is_prefix_of(name)
    &&& ".zip"@.is_suffix_of(name)
    &&& !name.contains('/')
    &&& !name.contains('\\')
    &&& !holds(name, ".."@)
}

/// Whether a name is one that a backup can have.
pub fn is_safe_backup_filename(name: &str) -> (r: bool)
    ensures
        r == safe_name(name@),
{
    starts_with(name, "backup-") && ends_with(name, ".zip") && !contains_char(name, '/')
        && !contains_char(name, '\\') && !contains_text(name, "..")
}

/// A name between the usual start and end is safe if it holds no dot and no
/// separator.
proof fn lemma_safe_name(middle: Seq<char>)
    requires
        !middle.contains('.'),
        !middle.contains('/'),
        !middle.contains('\\'),
    ensures
        safe_name("backup-"@ + middle + ".zip"@),
{
    let name = "backup-"@ + middle + ".zip"@;
    reveal_strlit("backup-");
    reveal_strlit(".zip");
    reveal_strlit("..");
    let n = middle.len() as int;
    assert forall|i: int| 0 <= i < n implies name[7 + i] == middle[i] && middle.contains(
        #[trigger] name[7 + i],
    ) by {
        assert(middle.contains(middle[i]));
    }
    assert forall|i: int| 0 <= i < name.len() implies #[trigger] name[i] != '/' && name[i] != '\\'
        && (name[i] == '.' ==> i == 7 + n) by {
        if 7 <= i < 7 + n {
            assert(middle.contains(name[7 + (i - 7)]));
        }
    }
    if holds(name, ".."@) {
        let at = choose|at: int| stands_at(name, ".."@, at);
        let part = name.subrange(at, at + 2);
        assert(part[0] == ".."@[0] && part[1] == ".."@[1]);
        assert(name[at] == '.' && name[at + 1] == '.');
    }
    assert("backup-"@ =~= name.subrange(0, 7));
    assert(".zip"@ =~= name.subrange(name.len() - 4, name.len() as int));
}

/// The path of a backup.
pub fn backup_path(filename: &str) -> (r: String)
    ensures
        r@ == "data/backups/"@ + filename@,
{
    let mut r = "data/backups/".to_owned();
    r.append(filename);
    r
}

/// The names of a folder that are names of backups.
pub open spec fn backup_names(entries: Seq<Seq<char>>) -> Seq<Seq<char>> {
    sorted(entries.filter(|name: Seq<char>| safe_name(name)))
}

/// The backups among the names of a folder, in order.
pub fn list_backup_filenames(entries: &Vec<String>) -> (r: Vec<String>)
    ensures
        views(r@) == backup_names(views(entries@)),
{
    broadcast use crate::text::lemma_views_push;

    let ghost all = views(entries@);
    let ghost pred = |name: Seq<char>| safe_name(name);
    let mut names: Vec<String> = Vec::new();
    let mut i: usize = 0;
    proof {
        reveal(Seq::filter);
        assert(views(names@) =~= all.take(0).filter(pred));
    }
    while i < entries.len()
        invariant
            i <= entries@.len(),
            all == views(entries@),
            pred == (|name: Seq<char>| safe_name(name)),
            views(names@) == all.take(i as int).filter(pred),
        decreases entries@.len() - i,
    {
        proof {
            reveal(Seq::filter);
            assert(all.take(i + 1).drop_last() =~= all.take(i as int));
            assert(all.take(i + 1).last() == entries@[i as int]@);
        }
        if is_safe_backup_filename(entries[i].as_str()) {
            names.push(entries[i].clone());
        }
        i += 1;
    }
    proof {
        assert(all.take(i as int) =~= all);
    }
    sort_texts(names)
}

/// How many of so many backups are too many.
pub open spec fn too_many(len: nat, retention_count: nat) -> int {
    if len <= retention_count {
        0
    } else {
        len - retention_count
    }
}

/// The backups to delete, so that no more than the given number is left: the
/// first in order, which are the oldest.
pub fn prune_old_backups(entries: &Vec<String>, retention_count: usize) -> (r: Vec<String>)
    ensures
        views(r@) == backup_names(views(entries@)).take(
            too_many(backup_names(views(entries@)).len(), retention_count as nat),
        ),
{
    let mut names = list_backup_filenames(entries);
    let ghost all = views(names@);
    let n: usize = if names.len() <= retention_count {
        0
    } else {
        names.len() - retention_count
    };
    names.truncate(n);
    proof {
        assert(views(names@) =~= all.take(n as int));
    }
    names
}

/// Of the backups as many are left as are to be kept, or all of them if there
/// are fewer; and none that is deleted stands behind one that is left.
pub proof fn law_pruning_keeps_the_last(entries: Seq<Seq<char>>, retention_count: nat)
    ensures
        ({
            let all = backup_names(entries);
            let n = too_many(all.len(), retention_count);
            &&& all.skip(n).len() == if all.len() < retention_count {
                all.len()
            } else {
                retention_count
            }
            &&& forall|i: int, j: int|
                0 <= i < n && 0 <= j < all.skip(n).len() ==> text_at_most(
                    #[trigger] all.take(n)[i],
                    #[trigger] all.skip(n)[j],
                )
        }),
{
    let all = backup_names(entries);
    let n = too_many(all.len(), retention_count);
    lemma_sorted(entries.filter(|name: Seq<char>| safe_name(name)));
    assert forall|i: int, j: int| 0 <= i < n && 0 <= j < all.skip(n).len() implies text_at_most(
        #[trigger] all.take(n)[i],
        #[trigger] all.skip(n)[j],
    ) by {
        assert(text_at_most(all[i], all[n + j]));
    }
}

// ----- backups by themselves -----

/// What has just come about in the loop that makes backups by itself.
pub enum LoopEvent {
    /// It is time to look at the schedule again.
    Woke,
    /// The day was noted, or could not be.
    Marked(bool),
    /// A backup was made, or could not be.
    BackedUp(bool),
}

/// What the loop that makes backups by itself does next.
pub enum LoopStep {
    /// Nothing until it is time to look again.
    Wait,
    /// Notes this day as the one that a backup was last made on.
    Mark(String),
    /// Makes a backup.
    BackUp,
    /// Deletes the oldest backups, so that no more than this many are left.
    Prune(usize),
}

/// The step is the one to take. The day is noted before anything is done, and
/// backups are deleted only once a new one is there.
pub open spec fn is_loop_step(
    s: BackupScheduleView,
    last_run: Seq<char>,
    clock: Clock,
    event: LoopEvent,
    step: LoopStep,
) -> bool {
    match event {
        LoopEvent::Woke => if due(s.when, last_run, clock) {
            step matches LoopStep::Mark(day) && day@ == clock.today@
        } else {
            step is Wait
        },
        LoopEvent::Marked(written) => if written {
            step is BackUp
        } else {
            step is Wait
        },
        LoopEvent::BackedUp(made) => match kept(s) {
            Some(n) => if made {
                step matches LoopStep::Prune(count) && count == n
            } else {
                step is Wait
            },
            None => step is Wait,
        },
    }
}

/// What the loop that makes backups by itself does next. `last_run` is the day
/// that was last noted.
pub fn run_scheduled_backups(
    schedule: &BackupScheduleConfig,
    last_run: &str,
    clock: &Clock,
    event: LoopEvent,
) -> (r: LoopStep)
    ensures
        is_loop_step(schedule@, last_run@, *clock, event, r),
{
    match event {
        LoopEvent::Woke => if schedule.is_due(last_run, clock) {
            LoopStep::Mark(clock.today.clone())
        } else {
            LoopStep::Wait
        },
        LoopEvent::Marked(written) => if written {
            LoopStep::BackUp
        } else {
            LoopStep::Wait
        },
        LoopEvent::BackedUp(made) => match schedule.retention_count() {
            Some(n) => if made {
                LoopStep::Prune(n)
            } else {
                LoopStep::Wait
            },
            None => LoopStep::Wait,
        },
    }
}

/// Once a day was noted, the loop does nothing more on that day, whatever the
/// schedule is changed to. A date has no white space around it.
pub proof fn law_noted_days_are_over(
    s: BackupScheduleView,
    noted: Seq<char>,
    clock: Clock,
    step: LoopStep,
)
    requires
        trimmed(clock.today@) == clock.today@,
        is_loop_step(s, noted, clock, LoopEvent::Woke, step),
        noted == clock.today@,
    ensures
        step is Wait,
{
    law_runs_once_a_day(s.when, noted, clock);
}

/// What has just come about in the loop that mirrors the database.
pub enum MirrorEvent {
    /// It is time to look at the schedule again.
    Woke,
    /// A snapshot was written beside the mirror, or could not be.
    Snapshotted(bool),
}

/// What the loop that mirrors the database does next.
pub enum MirrorStep {
    /// Nothing until it is time to look again.
    Wait,
    /// Writes a snapshot beside the mirror.
    Snapshot,
    /// Puts the snapshot in the mirror's place.
    Replace,
    /// Removes what was written of the snapshot; the mirror stays.
    Discard,
}

/// What the loop that mirrors the database does next. The mirror is replaced
/// by whole snapshots only.
pub fn run_live_mirror(schedule: &BackupScheduleConfig, event: MirrorEvent) -> (r: MirrorStep)
    ensures
        match event {
            MirrorEvent::Woke => if schedule@.continuous_mirror_enabled {
                r is Snapshot
            } else {
                r is Wait
            },
            MirrorEvent::Snapshotted(whole) => if whole {
                r is Replace
            } else {
                r is Discard
            },
        },
{
    match event {
        MirrorEvent::Woke => if schedule.continuous_mirror_enabled {
            MirrorStep::Snapshot
        } else {
            MirrorStep::Wait
        },
        MirrorEvent::Snapshotted(whole) => if whole {
            MirrorStep::Replace
        } else {
            MirrorStep::Discard
        },
    }
}

/// Where a backup is put together.
pub struct BackupPlan {
    pub snapshot_path: String,
    pub zip_filename: String,
    pub zip_path: String,
}

/// The name of a backup made at a time.
pub open spec fn backup_name(timestamp: Seq<char>) -> Seq<char> {
    "backup-"@ + timestamp + ".zip"@
}

/// Where a backup made at this time is put together. The time is written with
/// the year first.
pub fn plan_backup(timestamp: &str) -> (r: BackupPlan)
    ensures
        r.snapshot_path@ == "data/backups/tmp-"@ + timestamp@ + ".db"@,
        r.zip_filename@ == backup_name(timestamp@),
        r.zip_path@ == "data/backups/"@ + backup_name(timestamp@),
{
    let mut snapshot_path = "data/backups/tmp-".to_owned();
    snapshot_path.append(timestamp);
    snapshot_path.append(".db");
    let mut zip_filename = "backup-".to_owned();
    zip_filename.append(timestamp);
    zip_filename.append(".zip");
    let zip_path = backup_path(zip_filename.as_str());
    BackupPlan { snapshot_path, zip_filename, zip_path }
}

/// Digits and hyphens, as in the times that backups are named by.
pub open spec fn plain_timestamp(timestamp: Seq<char>) -> bool {
    forall|i: int|
        0 <= i < timestamp.len() ==> is_digit(#[trigger] timestamp[i]) || timestamp[i] == '-'
}

/// A backup that was made has a safe name.
pub proof fn law_new_names_are_safe(timestamp: Seq<char>)
    requires
        plain_timestamp(timestamp),
    ensures
        safe_name(backup_name(timestamp)),
{
    lemma_safe_name(timestamp);
}

/// Names of backups are in the order of the times that they were made or
/// uploaded at.
pub proof fn law_names_are_in_order_of_time(
    earlier: Seq<char>,
    later: Seq<char>,
    nanos: int,
    more_nanos: int,
)
    requires
        earlier.len() == later.len(),
        text_less(earlier, later),
    ensures
        text_less(backup_name(earlier), backup_name(later)),
        text_less(backup_name(earlier), uploaded_name(later, more_nanos)),
        text_less(uploaded_name(earlier, nanos), backup_name(later)),
        text_less(uploaded_name(earlier, nanos), uploaded_name(later, more_nanos)),
{
    let made = ".zip"@;
    let uploaded = "-uploaded-"@ + number_text(nanos) + ".zip"@;
    let uploaded_later = "-uploaded-"@ + number_text(more_nanos) + ".zip"@;
    assert(backup_name(earlier) =~= "backup-"@ + (earlier + made));
    assert(backup_name(later) =~= "backup-"@ + (later + made));
    assert(uploaded_name(earlier, nanos) =~= "backup-"@ + (earlier + uploaded));
    assert(uploaded_name(later, more_nanos) =~= "backup-"@ + (later + uploaded_later));
    lemma_names_in_order(earlier, later, made, made);
    lemma_names_in_order(earlier, later, made, uploaded_later);
    lemma_names_in_order(earlier, later, uploaded, made);
    lemma_names_in_order(earlier, later, uploaded, uploaded_later);
}

proof fn lemma_names_in_order(
    earlier: Seq<char>,
    later: Seq<char>,
    s: Seq<char>,
    t: Seq<char>,
)
    requires
        earlier.len() == later.len(),
        text_less(earlier, later),
    ensures
        text_less("backup-"@ + (earlier + s), "backup-"@ + (later + t)),
{
    lemma_followed(earlier, later, s, t);
    lemma_common_start("backup-"@, earlier + s, later + t);
}

/// The bytes are a backup: a ZIP archive with a database in it.
pub open spec fn is_backup(bytes: Seq<u8>) -> bool {
    bytes.len() > 0 && zip_entry(bytes, "kidphone.db"@) == Some(true)
}

/// Packs a database into a backup, which is one that can be uploaded again.
pub fn build_backup_zip(database: &Vec<u8>) -> (r: Result<Vec<u8>, String>)
    ensures
        match r {
            Ok(bytes) => zip_deflated("kidphone.db"@, database@) == Some(bytes@) && is_backup(bytes@),
            Err(_) => zip_deflated("kidphone.db"@, database@) is None,
        },
{
    proof {
        reveal_strlit("kidphone.db");
    }
    zip_deflated_entry("kidphone.db", database.as_slice())
}

/// How far the making of a backup came.
pub enum BackupStep {
    NoFolder,
    SnapshotFailed(String),
    ZipFailed(String),
    TaskFailed(String),
    Done,
}

/// The name of the backup that was made, or why there is none.
pub fn perform_backup(plan: BackupPlan, step: BackupStep) -> (r: Result<String, String>)
    ensures
        match step {
            BackupStep::NoFolder => r is Err && r->Err_0@ == "Couldn't create the backups folder."@,
            BackupStep::SnapshotFailed(e) => r is Err && r->Err_0@ == "Snapshot failed: "@ + e@,
            BackupStep::ZipFailed(e) => r is Err && r->Err_0@ == "Failed to build backup zip: "@
                + e@,
            BackupStep::TaskFailed(e) => r is Err && r->Err_0@ == "Backup zip task panicked: "@
                + e@,
            BackupStep::Done => r is Ok && r->Ok_0@ == plan.zip_filename@,
        },
{
    match step {
        BackupStep::NoFolder => Err("Couldn't create the backups folder.".to_owned()),
        BackupStep::SnapshotFailed(e) => {
            let mut message = "Snapshot failed: ".to_owned();
            message.append(e.as_str());
            Err(message)
        },
        BackupStep::ZipFailed(e) => {
            let mut message = "Failed to build backup zip: ".to_owned();
            message.append(e.as_str());
            Err(message)
        },
        BackupStep::TaskFailed(e) => {
            let mut message = "Backup zip task panicked: ".to_owned();
            message.append(e.as_str());
            Err(message)
        },
        BackupStep::Done => Ok(plan.zip_filename),
    }
}

/// A file of the backups folder. Its size and time may not be known.
pub struct BackupFile {
    pub filename: String,
    pub meta: Option<(u64, String)>,
}

/// A line of the list of backups.
pub struct BackupRow {
    pub filename: String,
    pub size_display: String,
    pub created_display: String,
}

/// A line of the list of backups, as a value.
pub struct BackupRowView {
    pub filename: Seq<char>,
    pub size_display: Seq<char>,
    pub created_display: Seq<char>,
}

impl View for BackupRow {
    type V = BackupRowView;

    open spec fn view(&self) -> BackupRowView {
        BackupRowView {
            filename: self.filename@,
            size_display: self.size_display@,
            created_display: self.created_display@,
        }
    }
}

impl Placed for BackupRow {
    /// The last name stands first.
    open spec fn overtakes(later: BackupRowView, earlier: BackupRowView) -> bool {
        text_less(earlier.filename, later.filename)
    }

    fn passes(&self, earlier: &BackupRow) -> (r: bool) {
        less_text(earlier.filename.as_str(), self.filename.as_str())
    }

    proof fn coherent(a: BackupRowView, b: BackupRowView, c: BackupRowView) {
        lemma_texts_coherent(b.filename, a.filename, c.filename);
        lemma_texts_coherent(c.filename, b.filename, a.filename);
    }
}

/// The lines for the files that are backups and whose size is known.
pub open spec fn rows_of(files: Seq<BackupFile>) -> Seq<BackupRowView>
    decreases files.len(),
{
    if files.len() == 0 {
        Seq::empty()
    } else {
        let rows = rows_of(files.drop_last());
        let file = files.last();
        match file.meta {
            Some((size, created)) => if safe_name(file.filename@) {
                rows.push(
                    BackupRowView {
                        filename: file.filename@,
                        size_display: size_text(size as int),
                        created_display: created@,
                    },
                )
            } else {
                rows
            },
            None => rows,
        }
    }
}

/// The last name comes first in the list of backups.
pub proof fn law_newest_backup_first(files: Seq<BackupFile>, i: int, j: int)
    requires
        0 <= i < j < in_order::<BackupRow>(rows_of(files)).len(),
    ensures
        text_at_most(
            in_order::<BackupRow>(rows_of(files))[j].filename,
            in_order::<BackupRow>(rows_of(files))[i].filename,
        ),
{
    let rows = in_order::<BackupRow>(rows_of(files));
    lemma_in_order::<BackupRow>(rows_of(files));
    assert(!BackupRow::overtakes(rows[j], rows[i]));
    lemma_text_trichotomy(rows[i].filename, rows[j].filename);
}

/// The list of backups, the newest first.
pub fn backup_rows(files: &Vec<BackupFile>) -> (r: Vec<BackupRow>)
    ensures
        all_views(r@) == in_order::<BackupRow>(rows_of(files@)),
{
    let mut rows: Vec<BackupRow> = Vec::new();
    let mut i: usize = 0;
    proof {
        assert(all_views(rows@) =~= rows_of(files@.take(0)));
    }
    while i < files.len()
        invariant
            i <= files@.len(),
            all_views(rows@) == rows_of(files@.take(i as int)),
        decreases files@.len() - i,
    {
        let ghost before = rows@;
        proof {
            assert(files@.take(i + 1).drop_last() =~= files@.take(i as int));
            assert(files@.take(i + 1).last() == files@[i as int]);
        }
        match &files[i].meta {
            Some((size, created)) => {
                if is_safe_backup_filename(files[i].filename.as_str()) {
                    let row = BackupRow {
                        filename: files[i].filename.clone(),
                        size_display: human_size(*size),
                        created_display: created.clone(),
                    };
                    rows.push(row);
                    proof {
                        assert(all_views(rows@) =~= all_views(before).push(row@));
                    }
                }
            },
            None => {},
        }
        i += 1;
    }
    proof {
        assert(files@.take(i as int) =~= files@);
    }
    arrange(rows)
}

/// What the page says after a backup was asked for: a success or an error.
pub fn create_backup(made: bool) -> (r: Result<&'static str, &'static str>)
    ensures
        made ==> r is Ok && r->Ok_0@ == "Backup created."@,
        !made ==> r is Err && r->Err_0@ == "Something went wrong creating the backup."@,
{
    if made {
        Ok("Backup created.")
    } else {
        Err("Something went wrong creating the backup.")
    }
}

/// A file that is handed out.
pub struct Download {
    pub path: String,
    pub content_type: &'static str,
    pub content_disposition: String,
}

/// The backup to hand out; nothing for a name that no backup can have.
pub fn download_backup(filename: &str) -> (r: Option<Download>)
    ensures
        r is Some <==> safe_name(filename@),
        r matches Some(d) ==> {
            &&& d.path@ == "data/backups/"@ + filename@
            &&& d.content_type@ == "application/zip"@
            &&& d.content_disposition@ == "attachment; filename=\""@ + filename@ + "\""@
        },
{
    if !is_safe_backup_filename(filename) {
        return None;
    }
    let mut content_disposition = "attachment; filename=\"".to_owned();
    content_disposition.append(filename);
    content_disposition.append("\"");
    Some(
        Download {
            path: backup_path(filename),
            content_type: "application/zip",
            content_disposition,
        },
    )
}

/// The file to delete; nothing for a name that no backup can have.
pub fn delete_backup(filename: &str) -> (r: Option<String>)
    ensures
        opt_view(r) == if safe_name(filename@) {
            Some("data/backups/"@ + filename@)
        } else {
            None
        },
{
    if is_safe_backup_filename(filename) {
        Some(backup_path(filename))
    } else {
        None
    }
}

// ----- removable drives -----

/// A drive that may be formatted for backups.
pub struct RemovableDrive {
    pub device: String,
    pub size_display: String,
}

/// What the system says of a block device.
pub struct BlockDevice {
    pub name: String,
    /// What its `removable` file holds; empty if it cannot be read.
    pub removable: String,
    /// What its `size` file holds.
    pub size: Option<String>,
}

/// The path of a block device.
pub open spec fn device_path(name: Seq<char>) -> Seq<char> {
    "/dev/"@ + name
}

/// The path is that of one of the block devices.
pub open spec fn is_drive(path: Seq<char>, devices: Seq<BlockDevice>) -> bool {
    exists|i: int| 0 <= i < devices.len() && device_path((#[trigger] devices[i]).name@) == path
}

/// The path without the number of a partition at its end. A `p` between a
/// digit and the number belongs to the number.
pub open spec fn without_partition(path: Seq<char>) -> Seq<char> {
    let base = without_trailing_digits(path);
    if base.len() >= 2 && base.last() == 'p' && is_digit(base[base.len() - 2]) {
        base.drop_last()
    } else {
        base
    }
}

/// The drive behind a source: the source itself where it is a drive as a
/// whole, or else what is left of it without the number of a partition.
pub open spec fn base_device(source: Seq<char>, devices: Seq<BlockDevice>) -> Option<Seq<char>> {
    if trimmed(source).len() == 0 {
        None
    } else if is_drive(trimmed(source), devices) {
        Some(trimmed(source))
    } else {
        Some(without_partition(trimmed(source)))
    }
}

/// The path of a drive's partition: its number is set off by a `p` where the
/// drive's own name ends in a digit.
pub open spec fn partition_of(drive: Seq<char>, number: nat) -> Seq<char> {
    if is_digit(drive.last()) {
        drive + "p"@ + decimal(number)
    } else {
        drive + decimal(number)
    }
}

proof fn lemma_without_digits(s: Seq<char>, digits: Seq<char>)
    requires
        s.len() == 0 || !is_digit(s.last()),
        all_digits(digits),
    ensures
        without_trailing_digits(s + digits) == s,
    decreases digits.len(),
{
    if digits.len() == 0 {
        assert(s + digits =~= s);
    } else {
        assert(is_digit(digits[digits.len() - 1]));
        assert((s + digits).drop_last() =~= s + digits.drop_last());
        lemma_without_digits(s, digits.drop_last());
    }
}

/// A partition leads to its drive. No drive has the path of a partition, and
/// none has a name that ends like the start of a partition's number, in a digit
/// and a `p`.
pub proof fn law_partitions_lead_to_their_drive(
    drive: Seq<char>,
    number: nat,
    printed: Seq<char>,
    devices: Seq<BlockDevice>,
)
    requires
        drive.len() > 0,
        drive.last() == 'p' ==> drive.len() == 1 || !is_digit(drive[drive.len() - 2]),
        trimmed(printed) == partition_of(drive, number),
        !is_drive(partition_of(drive, number), devices),
    ensures
        base_device(printed, devices) == Some(drive),
{
    reveal_strlit("p");
    lemma_decimal(number);
    if is_digit(drive.last()) {
        let base = drive + "p"@;
        assert(base.last() == 'p');
        lemma_without_digits(base, decimal(number));
        assert(base[base.len() - 2] == drive.last());
        assert(base.drop_last() =~= drive);
    } else {
        lemma_without_digits(drive, decimal(number));
    }
}

/// A drive that holds a file system as a whole leads to itself, whatever its
/// name ends in.
pub proof fn law_whole_drives_lead_to_themselves(
    printed: Seq<char>,
    devices: Seq<BlockDevice>,
    i: int,
)
    requires
        0 <= i < devices.len(),
        trimmed(printed) == device_path(devices[i].name@),
    ensures
        base_device(printed, devices) == Some(device_path(devices[i].name@)),
{
    reveal_strlit("/dev/");
    assert(is_drive(trimmed(printed), devices));
}

fn path_of(device: &BlockDevice) -> (r: String)
    ensures
        r@ == device_path(device.name@),
{
    let mut path = "/dev/".to_owned();
    path.append(device.name.as_str());
    path
}

fn names_drive(path: &str, devices: &Vec<BlockDevice>) -> (r: bool)
    ensures
        r == is_drive(path@, devices@),
{
    let mut i: usize = 0;
    while i < devices.len()
        invariant
            i <= devices@.len(),
            forall|j: int|
                0 <= j < i ==> device_path((#[trigger] devices@[j]).name@) != path@,
        decreases devices@.len() - i,
    {
        if same_text(path_of(&devices[i]).as_str(), path) {
            proof {
                assert(device_path(devices@[i as int].name@) == path@);
            }
            return true;
        }
        i += 1;
    }
    false
}

/// The drive behind a mount point, given what the system says of its source
/// and the block devices that there are; `None` if it could not say.
pub fn base_device_of(source: Option<&str>, devices: &Vec<BlockDevice>) -> (r: Option<String>)
    ensures
        opt_view(r) == match opt_str_view(source) {
            Some(s) => base_device(s, devices@),
            None => None,
        },
{
    match source {
        Some(s) => {
            let source = trim(s);
            if source.as_str().is_empty() {
                return None;
            }
            if names_drive(source.as_str(), devices) {
                return Some(source);
            }
            let base = trim_end_digits(source.as_str());
            let chars = chars_of(base.as_str());
            let n = chars.len();
            if n >= 2 && chars[n - 1] == 'p' && digit(chars[n - 2]) {
                let shorter = text_between(&chars, 0, n - 1);
                proof {
                    assert(shorter@ =~= base@.drop_last());
                }
                Some(shorter)
            } else {
                Some(base)
            }
        },
        None => None,
    }
}

/// The sectors of a block device; none where the system does not say.
pub open spec fn sectors(device: BlockDevice) -> int {
    match device.size {
        Some(text) => number_or(as_u64(trimmed(text@)), 0),
        None => 0,
    }
}

/// The sectors of a block device; none where the system does not say.
pub fn sectors_of(device: &BlockDevice) -> (r: u64)
    ensures
        r == sectors(*device),
{
    match &device.size {
        Some(text) => match parse_u64(trim(text.as_str()).as_str()) {
            Some(n) => n,
            None => 0,
        },
        None => 0,
    }
}

/// The device can be formatted: it is removable, holds anything at all, and
/// is neither the root nor the boot drive.
pub open spec fn may_format(
    device: BlockDevice,
    root: Option<Seq<char>>,
    boot: Option<Seq<char>>,
) -> bool {
    &&& trimmed(device.removable@) == "1"@
    &&& Some(device_path(device.name@)) != root
    &&& Some(device_path(device.name@)) != boot
    &&& sectors(device) != 0
}

/// A drive that may be formatted, as a value: its path and its size in words.
pub open spec fn drive_of(device: BlockDevice) -> (Seq<char>, Seq<char>) {
    (device_path(device.name@), size_text(sectors(device) * 512))
}

/// The drives that may be formatted.
pub open spec fn drives_of(
    devices: Seq<BlockDevice>,
    root: Option<Seq<char>>,
    boot: Option<Seq<char>>,
) -> Seq<(Seq<char>, Seq<char>)>
    decreases devices.len(),
{
    if devices.len() == 0 {
        Seq::empty()
    } else {
        let drives = drives_of(devices.drop_last(), root, boot);
        if may_format(devices.last(), root, boot) {
            drives.push(drive_of(devices.last()))
        } else {
            drives
        }
    }
}

/// The drives of a list, as values.
pub open spec fn drive_views(drives: Seq<RemovableDrive>) -> Seq<(Seq<char>, Seq<char>)> {
    Seq::new(drives.len(), |i: int| (drives[i].device@, drives[i].size_display@))
}

fn is_same(a: &Option<String>, b: &str) -> (r: bool)
    ensures
        r == (opt_view(*a) == Some(b@)),
{
    match a {
        Some(text) => same_text(text.as_str(), b),
        None => false,
    }
}

/// The drive behind what the system says of a file system's source.
pub open spec fn drive_behind(source: Option<Seq<char>>, devices: Seq<BlockDevice>) -> Option<
    Seq<char>,
> {
    match source {
        Some(s) => base_device(s, devices),
        None => None,
    }
}

/// The drives that may be formatted. `root` and `boot` are what the system
/// says of the sources of the root and the boot file system: partitions, or
/// drives as a whole.
pub fn list_removable_drives(
    devices: &Vec<BlockDevice>,
    root: Option<&str>,
    boot: Option<&str>,
) -> (r: Vec<RemovableDrive>)
    requires
        forall|i: int|
            0 <= i < devices@.len() ==> sectors(#[trigger] devices@[i]) * 512 <= u64::MAX,
    ensures
        drive_views(r@) == drives_of(
            devices@,
            drive_behind(opt_str_view(root), devices@),
            drive_behind(opt_str_view(boot), devices@),
        ),
{
    let root = base_device_of(root, devices);
    let boot = base_device_of(boot, devices);
    let mut drives: Vec<RemovableDrive> = Vec::new();
    let mut i: usize = 0;
    proof {
        assert(drive_views(drives@) =~= drives_of(
            devices@.take(0),
            opt_view(root),
            opt_view(boot),
        ));
    }
    while i < devices.len()
        invariant
            forall|i: int|
                0 <= i < devices@.len() ==> sectors(#[trigger] devices@[i]) * 512 <= u64::MAX,
            i <= devices@.len(),
            drive_views(drives@) == drives_of(
                devices@.take(i as int),
                opt_view(root),
                opt_view(boot),
            ),
        decreases devices@.len() - i,
    {
        let ghost before = drives@;
        let device = &devices[i];
        proof {
            assert(devices@.take(i + 1).drop_last() =~= devices@.take(i as int));
            assert(devices@.take(i + 1).last() == *device);
            assert(sectors(devices@[i as int]) * 512 <= u64::MAX);
        }
        let path = path_of(device);
        let size: u64 = sectors_of(device);
        if same_text(trim(device.removable.as_str()).as_str(), "1") && !is_same(&root, path.as_str())
            && !is_same(&boot, path.as_str()) && size != 0 {
            let drive = RemovableDrive { device: path, size_display: human_size(size * 512) };
            let ghost view = (drive.device@, drive.size_display@);
            drives.push(drive);
            proof {
                assert(drive_views(drives@) =~= drive_views(before).push(view));
            }
        }
        i += 1;
    }
    proof {
        assert(devices@.take(i as int) =~= devices@);
    }
    drives
}

proof fn lemma_not_listed(
    devices: Seq<BlockDevice>,
    root: Option<Seq<char>>,
    boot: Option<Seq<char>>,
    i: int,
)
    requires
        0 <= i < drives_of(devices, root, boot).len(),
    ensures
        Some(drives_of(devices, root, boot)[i].0) != root,
        Some(drives_of(devices, root, boot)[i].0) != boot,
    decreases devices.len(),
{
    let fewer = drives_of(devices.drop_last(), root, boot);
    if i < fewer.len() {
        lemma_not_listed(devices.drop_last(), root, boot, i);
    }
}

/// The source is a partition of the drive, or the drive as a whole.
pub open spec fn lies_on(source: Seq<char>, drive: BlockDevice, number: nat) -> bool {
    trimmed(source) == device_path(drive.name@) || trimmed(source) == partition_of(
        device_path(drive.name@),
        number,
    )
}

/// The drives that the server runs from are never among those that may be
/// formatted, whether the root and the boot file system lie on a partition or
/// on a drive as a whole. No drive has the path of a partition, and none has a
/// name that ends like the start of a partition's number, in a digit and a `p`.
pub proof fn law_own_drives_are_not_listed(
    devices: Seq<BlockDevice>,
    root: Option<Seq<char>>,
    boot: Option<Seq<char>>,
    k: int,
    number: nat,
    i: int,
)
    requires
        0 <= k < devices.len(),
        ({
            let path = device_path(devices[k].name@);
            &&& path.last() == 'p' ==> !is_digit(path[path.len() - 2])
            &&& !is_drive(partition_of(path, number), devices)
        }),
        (root is Some && lies_on(root->0, devices[k], number)) || (boot is Some && lies_on(
            boot->0,
            devices[k],
            number,
        )),
        0 <= i < drives_of(
            devices,
            drive_behind(root, devices),
            drive_behind(boot, devices),
        ).len(),
    ensures
        drives_of(devices, drive_behind(root, devices), drive_behind(boot, devices))[i].0
            != device_path(devices[k].name@),
{
    reveal_strlit("/dev/");
    let path = device_path(devices[k].name@);
    lemma_not_listed(devices, drive_behind(root, devices), drive_behind(boot, devices), i);
    if root is Some && lies_on(root->0, devices[k], number) {
        lemma_source_leads_to_drive(root->0, devices, k, number);
    } else {
        lemma_source_leads_to_drive(boot->0, devices, k, number);
    }
}

proof fn lemma_source_leads_to_drive(
    source: Seq<char>,
    devices: Seq<BlockDevice>,
    k: int,
    number: nat,
)
    requires
        0 <= k < devices.len(),
        ({
            let path = device_path(devices[k].name@);
            &&& path.last() == 'p' ==> !is_digit(path[path.len() - 2])
            &&& !is_drive(partition_of(path, number), devices)
        }),
        lies_on(source, devices[k], number),
    ensures
        base_device(source, devices) == Some(device_path(devices[k].name@)),
{
    reveal_strlit("/dev/");
    let path = device_path(devices[k].name@);
    if trimmed(source) == path {
        law_whole_drives_lead_to_themselves(source, devices, k);
    } else {
        law_partitions_lead_to_their_drive(path, number, source, devices);
    }
}

/// The form that confirms formatting.
pub struct FormatDriveForm {
    pub device: String,
    pub confirm_size: String,
}

/// The first drive of a list with the given path.
pub open spec fn drive_at(drives: Seq<(Seq<char>, Seq<char>)>, device: Seq<char>) -> Option<
    (Seq<char>, Seq<char>),
>
    decreases drives.len(),
{
    if drives.len() == 0 {
        None
    } else if drives[0].0 == device {
        Some(drives[0])
    } else {
        drive_at(drives.skip(1), device)
    }
}

/// A request to the root-side scripts.
pub struct PrivilegedRequest {
    /// What is written into the request file.
    pub flag: String,
    /// What the security log says.
    pub detail: String,
    /// What the page says once the file is written.
    pub started: String,
}

/// The request to format a drive, or why nothing is formatted: the drive must
/// be among those just found, and its size must have been typed exactly.
pub fn format_drive(drives: &Vec<RemovableDrive>, form: &FormatDriveForm) -> (r: Result<
    PrivilegedRequest,
    String,
>)
    ensures
        match drive_at(drive_views(drives@), form.device@) {
            None => r is Err && r->Err_0@
                == "That drive is no longer detected - nothing was formatted."@,
            Some((device, size)) => if trimmed(form.confirm_size@) != size {
                r is Err && r->Err_0@
                    == "Confirmation text didn't match the drive size - nothing was formatted."@
            } else {
                &&& r is Ok
                &&& r->Ok_0.flag@ == "format_drive "@ + device
                &&& r->Ok_0.detail@ == device
                &&& r->Ok_0.started@ == "Formatting "@ + device
                    + " now - this can take a minute. Refresh this page shortly."@
            },
        },
{
    let ghost all = drive_views(drives@);
    let mut i: usize = 0;
    proof {
        assert(all.skip(0) =~= all);
    }
    while i < drives.len()
        invariant
            i <= drives@.len(),
            all == drive_views(drives@),
            drive_at(all, form.device@) == drive_at(all.skip(i as int), form.device@),
        decreases drives@.len() - i,
    {
        let drive = &drives[i];
        proof {
            assert(all.skip(i as int)[0] == (drive.device@, drive.size_display@));
            assert(all.skip(i as int).skip(1) =~= all.skip(i + 1));
        }
        if same_text(drive.device.as_str(), form.device.as_str()) {
            if !same_text(trim(form.confirm_size.as_str()).as_str(), drive.size_display.as_str()) {
                return Err(
                    "Confirmation text didn't match the drive size - nothing was formatted.".to_owned(),
                );
            }
            let mut flag = "format_drive ".to_owned();
            flag.append(drive.device.as_str());
            let mut started = "Formatting ".to_owned();
            started.append(drive.device.as_str());
            started.append(" now - this can take a minute. Refresh this page shortly.");
            return Ok(PrivilegedRequest { flag, detail: drive.device.clone(), started });
        }
        i += 1;
    }
    Err("That drive is no longer detected - nothing was formatted.".to_owned())
}

/// Only a drive that is on the list is ever formatted.
pub proof fn law_only_listed_drives_are_formatted(
    drives: Seq<(Seq<char>, Seq<char>)>,
    device: Seq<char>,
)
    requires
        drive_at(drives, device) is Some,
    ensures
        drives.contains(drive_at(drives, device)->0),
        (drive_at(drives, device)->0).0 == device,
    decreases drives.len(),
{
    if drives[0].0 == device {
        assert(drives.contains(drives[0]));
    } else {
        law_only_listed_drives_are_formatted(drives.skip(1), device);
        let found = drive_at(drives, device)->0;
        let i = choose|i: int| 0 <= i < drives.skip(1).len() && drives.skip(1)[i] == found;
        assert(drives[i + 1] == found);
    }
}

// ----- restoring and uploading -----

/// The form that confirms a restore.
pub struct RestoreBackupForm {
    pub confirm_filename: String,
}

/// Why a backup is not restored.
pub enum RestoreRefusal {
    /// No backup can have this name.
    NotFound,
    /// What the page says.
    Message(String),
}

/// The request to restore a backup, or why nothing is restored: the backup
/// must be among those in the folder now, and its name must have been typed
/// exactly.
pub fn restore_backup(filename: &str, entries: &Vec<String>, form: &RestoreBackupForm) -> (r: Result<
    PrivilegedRequest,
    RestoreRefusal,
>)
    ensures
        if !safe_name(filename@) {
            r == Err::<PrivilegedRequest, RestoreRefusal>(RestoreRefusal::NotFound)
        } else if !backup_names(views(entries@)).contains(filename@) {
            r matches Err(RestoreRefusal::Message(m)) && m@
                == "That backup is no longer there - nothing was restored."@
        } else if trimmed(form.confirm_filename@) != filename@ {
            r matches Err(RestoreRefusal::Message(m)) && m@
                == "Confirmation text didn't match the filename - nothing was restored."@
        } else {
            r matches Ok(request) && request.flag@ == "restore_backup "@ + filename@
                && request.detail@ == filename@ && request.started@
                == "Restoring now - the app will stop, swap in the backup, and restart. This can take a minute; the app will be unreachable until it's done."@
        },
{
    if !is_safe_backup_filename(filename) {
        return Err(RestoreRefusal::NotFound);
    }
    let names = list_backup_filenames(entries);
    let mut found = false;
    let mut i: usize = 0;
    while i < names.len()
        invariant
            i <= names@.len(),
            found <==> exists|j: int| 0 <= j < i && #[trigger] views(names@)[j] == filename@,
        decreases names@.len() - i,
    {
        if same_text(names[i].as_str(), filename) {
            proof {
                assert(views(names@)[i as int] == filename@);
            }
            found = true;
        }
        i += 1;
    }
    if !found {
        return Err(
            RestoreRefusal::Message(
                "That backup is no longer there - nothing was restored.".to_owned(),
            ),
        );
    }
    if !same_text(trim(form.confirm_filename.as_str()).as_str(), filename) {
        return Err(
            RestoreRefusal::Message(
                "Confirmation text didn't match the filename - nothing was restored.".to_owned(),
            ),
        );
    }
    let mut flag = "restore_backup ".to_owned();
    flag.append(filename);
    Ok(
        PrivilegedRequest {
            flag,
            detail: filename.to_owned(),
            started: "Restoring now - the app will stop, swap in the backup, and restart. This can take a minute; the app will be unreachable until it's done.".to_owned(),
        },
    )
}

/// What an uploaded file is, given whether it has a readable database entry:
/// nothing if it is no archive at all.
pub fn uploaded_file_verdict(size: usize, has_database: Option<bool>) -> (r: Result<(), String>)
    ensures
        if size == 0 {
            r is Err && r->Err_0@ == "That file is empty."@
        } else if has_database != Some(true) {
            r is Err && r->Err_0@
                == "That doesn't look like a Kids Device MDM backup (couldn't find kidphone.db inside the zip)."@
        } else {
            r is Ok
        },
{
    if size == 0 {
        return Err("That file is empty.".to_owned());
    }
    match has_database {
        Some(true) => Ok(()),
        _ => Err(
            "That doesn't look like a Kids Device MDM backup (couldn't find kidphone.db inside the zip).".to_owned(),
        ),
    }
}

/// What came of an upload.
pub enum UploadedFile {
    Missing,
    Unreadable,
    Read(Vec<u8>),
}

/// Whether an uploaded file is a backup, or what is wrong with it. The archive
/// is opened and looked into; its name is not trusted.
pub fn upload_backup(file: &UploadedFile) -> (r: Result<(), String>)
    ensures
        match file {
            UploadedFile::Missing => r is Err && r->Err_0@ == "No file was uploaded."@,
            UploadedFile::Unreadable => r is Err && r->Err_0@ == "Couldn't read the uploaded file."@,
            UploadedFile::Read(bytes) => if bytes@.len() == 0 {
                r is Err && r->Err_0@ == "That file is empty."@
            } else if !is_backup(bytes@) {
                r is Err && r->Err_0@
                    == "That doesn't look like a Kids Device MDM backup (couldn't find kidphone.db inside the zip)."@
            } else {
                r is Ok
            },
        },
{
    match file {
        UploadedFile::Missing => Err("No file was uploaded.".to_owned()),
        UploadedFile::Unreadable => Err("Couldn't read the uploaded file.".to_owned()),
        UploadedFile::Read(bytes) => {
            let has_database = if bytes.len() == 0 {
                None
            } else {
                zip_has_entry(bytes.as_slice(), "kidphone.db")
            };
            uploaded_file_verdict(bytes.len(), has_database)
        },
    }
}

/// The name under which a backup uploaded at a time is kept.
pub open spec fn uploaded_name(timestamp: Seq<char>, nanos: int) -> Seq<char> {
    "backup-"@ + (timestamp + "-uploaded-"@ + number_text(nanos)) + ".zip"@
}

/// The name under which a backup uploaded now is kept.
pub fn uploaded_filename(timestamp: &str, nanos: u32) -> (r: String)
    ensures
        r@ == uploaded_name(timestamp@, nanos as int),
{
    let mut r = "backup-".to_owned();
    r.append(timestamp);
    r.append("-uploaded-");
    r.append(u64_text(nanos as u64).as_str());
    r.append(".zip");
    proof {
        assert(r@ =~= uploaded_name(timestamp@, nanos as int));
    }
    r
}

/// A backup that was uploaded has a safe name.
pub proof fn law_uploaded_names_are_safe(timestamp: Seq<char>, nanos: int)
    requires
        plain_timestamp(timestamp),
        nanos >= 0,
    ensures
        safe_name(uploaded_name(timestamp, nanos)),
{
    let middle = timestamp + "-uploaded-"@ + number_text(nanos);
    reveal_strlit("-uploaded-");
    lemma_number_text(nanos);
    assert forall|i: int| 0 <= i < middle.len() implies #[trigger] middle[i] != '.' && middle[i]
        != '/' && middle[i] != '\\' by {
        if i < timestamp.len() {
            assert(middle[i] == timestamp[i]);
        } else if i >= timestamp.len() + 10 {
            assert(middle[i] == number_text(nanos)[i - timestamp.len() - 10]);
        }
    }
    lemma_safe_name(middle);
}

/// What the page says after an upload, by whether the file could be kept.
pub fn uploaded_message(filename: &str, written: bool) -> (r: String)
    ensures
        r@ == if written {
            "Uploaded and added to the list below as "@ + filename@ + "."@
        } else {
            "Couldn't save the uploaded file."@
        },
{
    if written {
        let mut r = "Uploaded and added to the list below as ".to_owned();
        r.append(filename);
        r.append(".");
        r
    } else {
        "Couldn't save the uploaded file.".to_owned()
    }
}

// ----- what holds of these -----

/// A count above nothing is how many backups are kept. A count of nothing, or
/// one that is no number, keeps them all.
pub proof fn law_count_is_kept(s: BackupScheduleView, n: int)
    requires
        0 <= n <= u32::MAX,
    ensures
        trimmed(s.retention_count) == number_text(n) && n > 0 ==> kept(s) == Some(n),
        trimmed(s.retention_count) == number_text(n) && n == 0 ==> kept(s) is None,
        as_usize(trimmed(s.retention_count)) is None ==> kept(s) is None,
{
    lemma_number_text(n);
}

/// What a form asks for is what is saved: the frequency as it is, days and
/// counts that lie within their bounds unchanged, and a switch just if its box
/// was ticked.
pub proof fn law_forms_are_taken_as_given(
    form: BackupScheduleForm,
    weekday: int,
    day: int,
    count: int,
)
    requires
        0 <= weekday <= 6,
        1 <= day <= 28,
        0 <= count <= 3650,
        trimmed(form.day_of_week@) == number_text(weekday),
        trimmed(form.day_of_month@) == number_text(day),
        trimmed(form.retention_count@) == number_text(count),
        trimmed(form.backup_time@).len() > 0,
    ensures
        requested_schedule(form).when.frequency == form.frequency@,
        requested_schedule(form).when.day_of_week == number_text(weekday),
        requested_schedule(form).when.day_of_month == number_text(day),
        requested_schedule(form).when.time == trimmed(form.backup_time@),
        requested_schedule(form).retention_count == number_text(count),
        requested_schedule(form).external_copy_enabled <==> form.external_copy_enabled is Some,
        requested_schedule(form).continuous_mirror_enabled
            <==> form.continuous_mirror_enabled is Some,
{
    lemma_number_text(weekday);
    lemma_number_text(day);
    lemma_number_text(count);
}

/// What a form leaves open gets the usual values: the first day of the week and
/// of the month, two at night, fourteen backups.
pub proof fn law_open_fields_get_the_usual(form: BackupScheduleForm)
    requires
        as_i32(trimmed(form.day_of_week@)) is None,
        as_i32(trimmed(form.day_of_month@)) is None,
        as_i64(trimmed(form.retention_count@)) is None,
        trimmed(form.backup_time@).len() == 0,
    ensures
        requested_schedule(form).when.day_of_week == number_text(0),
        requested_schedule(form).when.day_of_month == number_text(1),
        requested_schedule(form).when.time == "02:00"@,
        requested_schedule(form).retention_count == number_text(14),
{
}

/// The rounded quotient is a nearest whole number, and of two that are equally
/// near the even one.
pub proof fn law_quotients_are_nearest(n: int, d: int)
    requires
        n >= 0,
        d > 0,
    ensures
        -d <= 2 * (n - half_even(n, d) * d) <= d,
        2 * (n - half_even(n, d) * d) == d || 2 * (n - half_even(n, d) * d) == -d ==> half_even(
            n,
            d,
        ) % 2 == 0,
{
    let q = n / d;
    let r = n % d;
    assert(n == q * d + r && 0 <= r < d) by (nonlinear_arith)
        requires
            d > 0,
            q == n / d,
            r == n % d,
    ;
    assert((q + 1) * d == q * d + d) by (nonlinear_arith);
}

/// Sizes are shown in bytes below a kilobyte, and otherwise in the largest unit
/// of which there is at least one, to the nearest tenth.
pub proof fn law_sizes_are_shown_to_a_tenth(bytes: int)
    requires
        0 <= bytes < 0x20_0000_0000_0000,
    ensures
        bytes < 1024 ==> size_text(bytes) == number_text(bytes) + " B"@,
        1024 <= bytes < 1_048_576 ==> exists|t: int|
            -1024 <= 2 * (bytes * 10 - t * 1024) <= 1024 && size_text(bytes)
                == #[trigger] number_text(t / 10) + "."@ + number_text(t % 10) + " KB"@,
        1_048_576 <= bytes < 1_073_741_824 ==> exists|t: int|
            -1_048_576 <= 2 * (bytes * 10 - t * 1_048_576) <= 1_048_576 && size_text(bytes)
                == #[trigger] number_text(t / 10) + "."@ + number_text(t % 10) + " MB"@,
        1_073_741_824 <= bytes ==> exists|t: int|
            -1_073_741_824 <= 2 * (bytes * 10 - t * 1_073_741_824) <= 1_073_741_824 && size_text(
                bytes,
            ) == #[trigger] number_text(t / 10) + "."@ + number_text(t % 10) + " GB"@,
{
    assert(double_step(bytes) == 1);
    assert(half_even(bytes, 1) == bytes);
    assert(as_double(bytes) == bytes);
    law_quotients_are_nearest(bytes * 10, 1024);
    law_quotients_are_nearest(bytes * 10, 1_048_576);
    law_quotients_are_nearest(bytes * 10, 1_073_741_824);
    if 1024 <= bytes < 1_048_576 {
        let t = half_even(bytes * 10, 1024);
        assert(size_text(bytes) == number_text(t / 10) + "."@ + number_text(t % 10) + " KB"@);
    }
    if 1_048_576 <= bytes < 1_073_741_824 {
        let t = half_even(bytes * 10, 1_048_576);
        assert(size_text(bytes) == number_text(t / 10) + "."@ + number_text(t % 10) + " MB"@);
    }
    if 1_073_741_824 <= bytes {
        let t = half_even(bytes * 10, 1_073_741_824);
        assert(size_text(bytes) == number_text(t / 10) + "."@ + number_text(t % 10) + " GB"@);
    }
}

/// A name is that of a backup just if it starts with `backup-`, ends in `.zip`,
/// and has neither a slash of any kind nor two dots in a row in it.
pub proof fn law_safe_names_stay_in_the_folder(name: Seq<char>)
    ensures
        safe_name(name) <==> {
            &&& exists|rest: Seq<char>| name == #[trigger] ("backup-"@ + rest)
            &&& exists|start: Seq<char>| name == #[trigger] (start + ".zip"@)
            &&& forall|i: int|
                0 <= i < name.len() ==> #[trigger] name[i] != '/' && name[i] != '\\'
            &&& !exists|a: Seq<char>, b: Seq<char>| name == #[trigger] (a + ".."@ + b)
        },
{
    law_parts_stand_between(name, ".."@);
    lemma_begins(name, "backup-"@);
    lemma_ends(name, ".zip"@);
    assert(name.contains('/') || name.contains('\\') <==> !forall|i: int|
        0 <= i < name.len() ==> #[trigger] name[i] != '/' && name[i] != '\\') by {
        if forall|i: int| 0 <= i < name.len() ==> #[trigger] name[i] != '/' && name[i] != '\\' {
            assert(!name.contains('/') && !name.contains('\\'));
        }
    }
}

proof fn lemma_begins(name: Seq<char>, start: Seq<char>)
    ensures
        start.is_prefix_of(name) <==> exists|rest: Seq<char>| name == #[trigger] (start + rest),
{
    if start.is_prefix_of(name) {
        assert(name =~= start + name.skip(start.len() as int));
    }
}

proof fn lemma_ends(name: Seq<char>, end: Seq<char>)
    ensures
        end.is_suffix_of(name) <==> exists|start: Seq<char>| name == #[trigger] (start + end),
{
    if end.is_suffix_of(name) {
        assert(name =~= name.take(name.len() - end.len()) + end);
    }
    if exists|start: Seq<char>| name == #[trigger] (start + end) {
        let start = choose|start: Seq<char>| name == #[trigger] (start + end);
        assert(name.subrange(name.len() - end.len(), name.len() as int) =~= end);
    }
}

/// The names that are found in a folder are those of its entries that are names
/// of backups, each as often as it is there, in ascending order.
pub proof fn law_backups_are_found_by_name(entries: Seq<Seq<char>>, name: Seq<char>)
    ensures
        backup_names(entries).contains(name) <==> entries.contains(name) && safe_name(name),
        forall|i: int, j: int|
            0 <= i < j < backup_names(entries).len() ==> !text_less(
                #[trigger] backup_names(entries)[j],
                #[trigger] backup_names(entries)[i],
            ),
{
    let found = entries.filter(|name: Seq<char>| safe_name(name));
    lemma_sorted(found);
    found.to_multiset_ensures();
    backup_names(entries).to_multiset_ensures();
    assert(found.contains(name) <==> found.to_multiset().count(name) > 0);
    assert(backup_names(entries).contains(name) <==> backup_names(entries).to_multiset().count(name)
        > 0);
    lemma_filter_members(entries, |name: Seq<char>| safe_name(name), name);
    assert forall|i: int, j: int| 0 <= i < j < backup_names(entries).len() implies !text_less(
        #[trigger] backup_names(entries)[j],
        #[trigger] backup_names(entries)[i],
    ) by {
        lemma_text_trichotomy(backup_names(entries)[i], backup_names(entries)[j]);
        assert(text_at_most(backup_names(entries)[i], backup_names(entries)[j]));
    }
}

/// A backup is made only once the day was noted, and old backups are deleted
/// only once a new one was made and a count says how many stay.
pub proof fn law_steps_follow_each_other(
    s: BackupScheduleView,
    last_run: Seq<char>,
    clock: Clock,
    event: LoopEvent,
    step: LoopStep,
)
    requires
        is_loop_step(s, last_run, clock, event, step),
    ensures
        step is BackUp <==> event == LoopEvent::Marked(true),
        step is Mark <==> event is Woke && due(s.when, last_run, clock),
        step is Prune <==> event == LoopEvent::BackedUp(true) && kept(s) is Some,
        step matches LoopStep::Mark(day) ==> day@ == clock.today@,
        step matches LoopStep::Prune(count) ==> kept(s) == Some(count as int),
{
}

/// A file is listed just if its size is known and its name is that of a backup,
/// with its own name, size and time.
pub proof fn law_files_are_listed_as_they_are(files: Seq<BackupFile>, row: BackupRowView)
    ensures
        rows_of(files).contains(row) <==> exists|i: int|
            0 <= i < files.len() && (#[trigger] files[i]).filename@ == row.filename && safe_name(
                row.filename,
            ) && (files[i].meta matches Some((size, created)) && row.size_display == size_text(
                size as int,
            ) && row.created_display == created@),
    decreases files.len(),
{
    if files.len() > 0 {
        let fewer = files.drop_last();
        let file = files.last();
        law_files_are_listed_as_they_are(fewer, row);
        assert forall|i: int| 0 <= i < fewer.len() implies fewer[i] == files[i] by {}
        assert(files[files.len() - 1] == file);
        let rows = rows_of(fewer);
        if rows_of(files).contains(row) {
            let k = choose|k: int| 0 <= k < rows_of(files).len() && rows_of(files)[k] == row;
            if k < rows.len() {
                assert(rows[k] == row);
                let i = choose|i: int|
                    0 <= i < fewer.len() && (#[trigger] fewer[i]).filename@ == row.filename
                        && safe_name(row.filename) && (fewer[i].meta matches Some((size, created))
                        && row.size_display == size_text(size as int) && row.created_display
                        == created@);
                assert(files[i].filename@ == row.filename);
            }
        }
        if exists|i: int|
            0 <= i < files.len() && (#[trigger] files[i]).filename@ == row.filename && safe_name(
                row.filename,
            ) && (files[i].meta matches Some((size, created)) && row.size_display == size_text(
                size as int,
            ) && row.created_display == created@) {
            let i = choose|i: int|
                0 <= i < files.len() && (#[trigger] files[i]).filename@ == row.filename
                    && safe_name(row.filename) && (files[i].meta matches Some((size, created))
                    && row.size_display == size_text(size as int) && row.created_display
                    == created@);
            if i < fewer.len() {
                assert(fewer[i].filename@ == row.filename);
                let k = choose|k: int| 0 <= k < rows.len() && rows[k] == row;
                assert(rows_of(files)[k] == row);
            } else {
                assert(rows_of(files).last() == row);
            }
        }
    }
}

/// A drive may be formatted just if the system calls it removable, says that it
/// has sectors, and the server does not run from it. It is offered under its
/// path, with its size in sectors of 512 bytes.
pub proof fn law_drives_are_offered_by_what_the_system_says(
    device: BlockDevice,
    root: Option<Seq<char>>,
    boot: Option<Seq<char>>,
    n: int,
)
    requires
        0 <= n <= u64::MAX,
        device.size is Some,
        trimmed(device.size->0@) == number_text(n),
    ensures
        may_format(device, root, boot) <==> {
            &&& trimmed(device.removable@) == "1"@
            &&& n > 0
            &&& root != Some("/dev/"@ + device.name@)
            &&& boot != Some("/dev/"@ + device.name@)
        },
        drive_of(device) == ("/dev/"@ + device.name@, size_text(n * 512)),
        drives_of(seq![device], root, boot) == if may_format(device, root, boot) {
            seq![("/dev/"@ + device.name@, size_text(n * 512))]
        } else {
            Seq::empty()
        },
{
    lemma_number_text(n);
    assert(seq![device].drop_last() =~= Seq::empty());
    assert(seq![device].last() == device);
    reveal_with_fuel(drives_of, 2);
}

/// The drives of a longer list are those of its parts, in their order.
pub proof fn law_drives_are_offered_one_by_one(
    a: Seq<BlockDevice>,
    b: Seq<BlockDevice>,
    root: Option<Seq<char>>,
    boot: Option<Seq<char>>,
)
    ensures
        drives_of(a + b, root, boot) == drives_of(a, root, boot) + drives_of(b, root, boot),
    decreases b.len(),
{
    if b.len() == 0 {
        assert(a + b =~= a);
        assert(drives_of(b, root, boot) =~= Seq::empty());
    } else {
        law_drives_are_offered_one_by_one(a, b.drop_last(), root, boot);
        assert((a + b).drop_last() =~= a + b.drop_last());
        assert((a + b).last() == b.last());
    }
}

/// Backups made at different times have different names, and an uploaded one has
/// the name of none that was made.
pub proof fn law_names_tell_times_apart(a: Seq<char>, b: Seq<char>, nanos: int)
    requires
        plain_timestamp(a),
        plain_timestamp(b),
    ensures
        backup_name(a) == backup_name(b) <==> a == b,
        backup_name(a) != uploaded_name(b, nanos),
{
    reveal_strlit("backup-");
    reveal_strlit("-uploaded-");
    let x = backup_name(a);
    let y = backup_name(b);
    reveal_strlit(".zip");
    if x == y {
        assert(x.subrange(7, x.len() - 4) =~= a);
        assert(y.subrange(7, y.len() - 4) =~= b);
    }
    let z = uploaded_name(b, nanos);
    if x == z {
        let k = b.len() as int + 1;
        assert(z[7 + k] == 'u') by {
            assert(z[7 + k] == (b + "-uploaded-"@ + number_text(nanos))[k]);
            assert("-uploaded-"@[1] == 'u');
        }
        assert(x.len() == 11 + a.len());
        assert(z.len() == 11 + b.len() + 10 + number_text(nanos).len());
        assert(x[7 + k] == a[k]);
    }
}

/// Each part of the schedule is found in the settings file under its own name, and
/// has its usual value where the file does not name it.
pub proof fn law_settings_have_their_names(pairs: Seq<(Seq<char>, Seq<char>)>)
    requires
        plain_pairs(pairs),
    ensures
        ({
            let r = loaded(Some(settings_text(pairs)));
            &&& r.when.frequency == match last_value(pairs, "FREQUENCY"@) {
                Some(value) => value,
                None => "daily"@,
            }
            &&& r.when.day_of_week == match last_value(pairs, "DAY_OF_WEEK"@) {
                Some(value) => value,
                None => "0"@,
            }
            &&& r.when.day_of_month == match last_value(pairs, "DAY_OF_MONTH"@) {
                Some(value) => value,
                None => "1"@,
            }
            &&& r.when.time == match last_value(pairs, "BACKUP_TIME"@) {
                Some(value) => value,
                None => "02:00"@,
            }
            &&& r.retention_count == match last_value(pairs, "RETENTION_COUNT"@) {
                Some(value) => value,
                None => "14"@,
            }
            &&& r.external_copy_enabled <==> last_value(pairs, "EXTERNAL_COPY_ENABLED"@) == Some("true"@)
            &&& r.continuous_mirror_enabled <==> last_value(pairs, "CONTINUOUS_MIRROR_ENABLED"@) == Some("true"@)
        }),
        ({
            let r = loaded(None);
            &&& r.when.frequency == "daily"@
            &&& r.when.day_of_week == "0"@
            &&& r.when.day_of_month == "1"@
            &&& r.when.time == "02:00"@
            &&& r.retention_count == "14"@
            &&& !r.external_copy_enabled
            &&& !r.continuous_mirror_enabled
        }),
{
    law_written_settings_hold(pairs, "FREQUENCY"@, "daily"@);
    law_written_settings_hold(pairs, "DAY_OF_WEEK"@, "0"@);
    law_written_settings_hold(pairs, "DAY_OF_MONTH"@, "1"@);
    law_written_settings_hold(pairs, "BACKUP_TIME"@, "02:00"@);
    law_written_settings_hold(pairs, "RETENTION_COUNT"@, "14"@);
    law_written_settings_hold(pairs, "EXTERNAL_COPY_ENABLED"@, ""@);
    law_written_settings_hold(pairs, "CONTINUOUS_MIRROR_ENABLED"@, ""@);
}

/// The summary says when, how many are kept, and which switches are on.
pub proof fn law_summary_says_what_is_set(s: BackupScheduleView, n: int)
    requires
        0 <= n <= u32::MAX,
        trimmed(s.retention_count) == number_text(n),
    ensures
        n > 0 && s.external_copy_enabled && !s.continuous_mirror_enabled ==> summary_text(s)
            == "Backing up "@ + when_text(s.when) + ", "@ + ("keeping the last "@ + number_text(n))
            + ". Copy to external drive: "@ + "on"@ + ". Continuous mirror: "@ + "off"@ + "."@,
        n == 0 && !s.external_copy_enabled && s.continuous_mirror_enabled ==> summary_text(s)
            == "Backing up "@ + when_text(s.when) + ", "@
            + "keeping all of them (no automatic deletion)"@ + ". Copy to external drive: "@
            + "off"@ + ". Continuous mirror: "@ + "on"@ + "."@,
{
    law_count_is_kept(s, n);
}

/// Bytes are a backup just if they are a ZIP archive that has the database in it.
pub proof fn law_backups_hold_the_database(bytes: Seq<u8>)
    requires
        bytes.len() > 0,
    ensures
        zip_entry(bytes, "kidphone.db"@) is None ==> !is_backup(bytes),
        zip_entry(bytes, "kidphone.db"@) == Some(false) ==> !is_backup(bytes),
        zip_entry(bytes, "kidphone.db"@) == Some(true) ==> is_backup(bytes),
        !is_backup(Seq::empty()),
{
}

/// The numbers that a size is brought to have 53 binary digits at most: below
/// nine quadrillion that is every number, and above it the steps between them
/// double whenever the number does. The nearest of them is taken.
pub proof fn law_large_sizes_are_rounded(n: int)
    requires
        0 <= n,
    ensures
        n < 0x20_0000_0000_0000 ==> as_double(n) == n,
        n >= 0x10_0000_0000_0000 ==> double_step(2 * n) == 2 * double_step(n),
        n >= 0x20_0000_0000_0000 ==> double_step(n) * 0x10_0000_0000_0000 <= n
            < double_step(n) * 0x20_0000_0000_0000,
        -double_step(n) <= 2 * (n - as_double(n)) <= double_step(n),
    decreases n,
{
    lemma_double_step(n);
    law_quotients_are_nearest(n, double_step(n));
    if n < 0x20_0000_0000_0000 {
        assert(half_even(n, 1) == n);
        if n >= 0x10_0000_0000_0000 {
            assert((2 * n) / 2 == n);
            assert(double_step(2 * n) == 2 * double_step(n));
        }
    } else {
        assert((2 * n) / 2 == n);
        law_large_sizes_are_rounded(n / 2);
        if n / 2 < 0x20_0000_0000_0000 {
            assert(double_step(n / 2) == 1);
        }
    }
}

} // verus!
