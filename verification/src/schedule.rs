//! Settings files and the schedules that are kept in them.

use crate::numbers::{
    as_i32, as_i64, as_u32, i64_text, lemma_number_text, lemma_two_digits, number_text, parse_i32,
    parse_i64, parse_u32, two_digits,
};
use crate::text::{
    halves, is_digit, is_white_space, law_texts_are_cut_at_the_first_mark, lemma_lines_concat,
    lemma_one_line, lemma_position_is, lemma_trimmed, lemma_trimmed_twice, lines, lines_of,
    opt_str_view, opt_view, same_text, split_once, trim, trimmed, views,
};
use vstd::prelude::*;

verus! {

// ----- settings files -----

/// The name and the value on a line of a settings file.
pub open spec fn setting_of_line(line: Seq<char>) -> Option<(Seq<char>, Seq<char>)> {
    match halves(line, '=') {
        Some((key, value)) => Some((trimmed(key), trimmed(value))),
        None => None,
    }
}

/// The value that the last line with this name gives.
pub open spec fn last_setting(lines: Seq<Seq<char>>, key: Seq<char>) -> Option<Seq<char>>
    decreases lines.len(),
{
    if lines.len() == 0 {
        None
    } else {
        match setting_of_line(lines.last()) {
            Some((k, value)) => if k == key {
                Some(value)
            } else {
                last_setting(lines.drop_last(), key)
            },
            None => last_setting(lines.drop_last(), key),
        }
    }
}

/// The lines of a settings file; none if there is no file.
pub open spec fn settings_lines(contents: Option<Seq<char>>) -> Seq<Seq<char>> {
    match contents {
        Some(text) => lines_of(text),
        None => Seq::empty(),
    }
}

/// The value of a setting, or what holds where the file does not give it.
pub open spec fn text_setting(
    contents: Option<Seq<char>>,
    key: Seq<char>,
    fallback: Seq<char>,
) -> Seq<char> {
    match last_setting(settings_lines(contents), key) {
        Some(value) => value,
        None => fallback,
    }
}

/// Whether a setting is switched on.
pub open spec fn flag_setting(contents: Option<Seq<char>>, key: Seq<char>) -> bool {
    last_setting(settings_lines(contents), key) == Some("true"@)
}

/// How a switch is written in a settings file.
pub open spec fn flag_text(flag: bool) -> Seq<char> {
    if flag {
        "true"@
    } else {
        "false"@
    }
}

/// A settings file with the given names and values, one to a line.
pub open spec fn settings_text(pairs: Seq<(Seq<char>, Seq<char>)>) -> Seq<char>
    decreases pairs.len(),
{
    if pairs.len() == 0 {
        Seq::empty()
    } else {
        settings_text(pairs.drop_last()) + (pairs.last().0 + seq!['='] + pairs.last().1).push('\n')
    }
}

/// The same settings file, put together from its first line on.
pub open spec fn settings_joined(pairs: Seq<(Seq<char>, Seq<char>)>, n: nat) -> Seq<char>
    decreases n,
{
    if n == 0 {
        Seq::empty()
    } else {
        settings_joined(pairs, (n - 1) as nat) + (pairs[n - 1].0 + seq!['='] + pairs[n
            - 1].1).push('\n')
    }
}

proof fn lemma_settings_joined(pairs: Seq<(Seq<char>, Seq<char>)>, n: nat)
    requires
        n <= pairs.len(),
    ensures
        settings_text(pairs.take(n as int)) == settings_joined(pairs, n),
    decreases n,
{
    if n > 0 {
        lemma_settings_joined(pairs, (n - 1) as nat);
        assert(pairs.take(n as int).drop_last() =~= pairs.take(n - 1));
    }
}

/// Both ways give the same settings file.
pub proof fn lemma_settings_text(pairs: Seq<(Seq<char>, Seq<char>)>)
    ensures
        settings_text(pairs) == settings_joined(pairs, pairs.len()),
{
    lemma_settings_joined(pairs, pairs.len());
    assert(pairs.take(pairs.len() as int) =~= pairs);
}

/// A name that can stand in a settings file.
pub open spec fn plain_key(key: Seq<char>) -> bool {
    !key.contains('=') && !key.contains('\n') && trimmed(key) == key
}

/// A value that a settings file gives back as it is: it stays on its line and
/// has no white space around it.
pub open spec fn plain_value(value: Seq<char>) -> bool {
    !value.contains('\n') && trimmed(value) == value
}

/// The last value that a list of names and values gives for a name.
pub open spec fn last_value(pairs: Seq<(Seq<char>, Seq<char>)>, key: Seq<char>) -> Option<Seq<char>>
    decreases pairs.len(),
{
    if pairs.len() == 0 {
        None
    } else if pairs.last().0 == key {
        Some(pairs.last().1)
    } else {
        last_value(pairs.drop_last(), key)
    }
}

/// Every name and every value can stand in a settings file.
pub open spec fn plain_pairs(pairs: Seq<(Seq<char>, Seq<char>)>) -> bool {
    forall|i: int|
        0 <= i < pairs.len() ==> plain_key((#[trigger] pairs[i]).0) && plain_value(pairs[i].1)
}

/// The value at an index holds if its name is not given again further on.
pub proof fn lemma_last_value(pairs: Seq<(Seq<char>, Seq<char>)>, i: int)
    requires
        0 <= i < pairs.len(),
        forall|j: int| i < j < pairs.len() ==> (#[trigger] pairs[j]).0 != pairs[i].0,
    ensures
        last_value(pairs, pairs[i].0) == Some(pairs[i].1),
    decreases pairs.len(),
{
    if i < pairs.len() - 1 {
        assert(pairs[pairs.len() - 1].0 != pairs[i].0);
        lemma_last_value(pairs.drop_last(), i);
    }
}

/// How a switch is written can stand in a settings file, and tells the switch.
pub proof fn lemma_flag_text(flag: bool)
    ensures
        plain_value(flag_text(flag)),
        flag_text(flag) == "true"@ <==> flag,
{
    reveal_strlit("true");
    reveal_strlit("false");
    lemma_trimmed(flag_text(flag));
}

proof fn lemma_settings_end(pairs: Seq<(Seq<char>, Seq<char>)>)
    ensures
        settings_text(pairs).len() == 0 || settings_text(pairs).last() == '\n',
{
}

/// A settings file gives back the values that were written into it.
pub proof fn law_settings_are_read_back(pairs: Seq<(Seq<char>, Seq<char>)>, key: Seq<char>)
    requires
        plain_pairs(pairs),
    ensures
        last_setting(settings_lines(Some(settings_text(pairs))), key) == last_value(pairs, key),
    decreases pairs.len(),
{
    if pairs.len() > 0 {
        let fewer = pairs.drop_last();
        let (k, v) = pairs.last();
        let line = k + seq!['='] + v;
        assert(plain_key(pairs[pairs.len() - 1].0) && plain_value(pairs[pairs.len() - 1].1));
        assert forall|i: int| 0 <= i < fewer.len() implies plain_key((#[trigger] fewer[i]).0)
            && plain_value(fewer[i].1) by {
            assert(fewer[i] == pairs[i]);
        }
        law_settings_are_read_back(fewer, key);
        lemma_settings_end(fewer);
        lemma_lines_concat(settings_text(fewer), line.push('\n'));
        lemma_trimmed(v);
        assert(!line.contains('\n')) by {
            assert forall|i: int| 0 <= i < line.len() implies line[i] != '\n' by {
                if i < k.len() {
                    assert(k.contains(k[i]));
                } else if i > k.len() {
                    assert(v.contains(v[i - k.len() - 1]));
                }
            }
        }
        lemma_one_line(line);
        let lines = lines_of(settings_text(pairs));
        assert(lines == lines_of(settings_text(fewer)) + seq![line]);
        assert(lines.last() == line);
        assert(lines.drop_last() =~= lines_of(settings_text(fewer)));
        assert forall|j: int| 0 <= j < k.len() implies line[j] != '=' by {
            assert(k.contains(k[j]));
        }
        lemma_position_is(line, '=', k.len() as int);
        assert(line.take(k.len() as int) =~= k);
        assert(line.skip(k.len() as int + 1) =~= v);
    } else {
        assert(settings_text(pairs) =~= Seq::<char>::empty());
    }
}

/// The lines of a settings file.
pub struct Settings {
    pub lines: Vec<String>,
}

impl Settings {
    /// Reads a settings file; `None` if there is none.
    pub fn read(contents: Option<&str>) -> (r: Settings)
        ensures
            views(r.lines@) == settings_lines(opt_str_view(contents)),
    {
        match contents {
            Some(text) => Settings { lines: lines(text) },
            None => {
                let r = Settings { lines: Vec::new() };
                proof {
                    assert(views(r.lines@) =~= Seq::empty());
                }
                r
            },
        }
    }

    /// The value that the last line with this name gives.
    pub fn get(&self, key: &str) -> (r: Option<String>)
        ensures
            opt_view(r) == last_setting(views(self.lines@), key@),
    {
        let ghost all = views(self.lines@);
        let mut i: usize = self.lines.len();
        proof {
            assert(all.take(i as int) =~= all);
        }
        while i > 0
            invariant
                i <= self.lines@.len(),
                all == views(self.lines@),
                last_setting(all, key@) == last_setting(all.take(i as int), key@),
            decreases i,
        {
            proof {
                assert(all.take(i as int).drop_last() =~= all.take(i - 1));
                assert(all.take(i as int).last() == self.lines@[i - 1]@);
            }
            i -= 1;
            match split_once(self.lines[i].as_str(), '=') {
                Some((k, value)) => {
                    if same_text(trim(k.as_str()).as_str(), key) {
                        return Some(trim(value.as_str()));
                    }
                },
                None => {},
            }
        }
        None
    }

    /// The value of a setting, or the given text where the file does not give
    /// it.
    pub fn text(&self, key: &str, fallback: &str) -> (r: String)
        ensures
            r@ == match last_setting(views(self.lines@), key@) {
                Some(value) => value,
                None => fallback@,
            },
    {
        match self.get(key) {
            Some(value) => value,
            None => fallback.to_owned(),
        }
    }

    /// Whether a setting is switched on.
    pub fn flag(&self, key: &str) -> (r: bool)
        ensures
            r == (last_setting(views(self.lines@), key@) == Some("true"@)),
    {
        match self.get(key) {
            Some(value) => same_text(value.as_str(), "true"),
            None => false,
        }
    }
}

/// Writes one setting behind a settings file.
pub fn push_setting(out: &mut String, key: &str, value: &str)
    ensures
        final(out)@ == old(out)@ + (key@ + seq!['='] + value@).push('\n'),
{
    let ghost start = out@;
    out.append(key);
    out.push('=');
    out.append(value);
    out.push('\n');
    proof {
        assert(out@ =~= start + (key@ + seq!['='] + value@).push('\n'));
    }
}

/// How a switch is written in a settings file.
pub fn flag_word(flag: bool) -> (r: &'static str)
    ensures
        r@ == flag_text(flag),
{
    if flag {
        "true"
    } else {
        "false"
    }
}

// ----- schedules -----

/// The name of a weekday, counted from Sunday as zero.
pub open spec fn weekday_name(day_of_week: Seq<char>) -> Seq<char> {
    if day_of_week == "1"@ {
        "Monday"@
    } else if day_of_week == "2"@ {
        "Tuesday"@
    } else if day_of_week == "3"@ {
        "Wednesday"@
    } else if day_of_week == "4"@ {
        "Thursday"@
    } else if day_of_week == "5"@ {
        "Friday"@
    } else if day_of_week == "6"@ {
        "Saturday"@
    } else {
        "Sunday"@
    }
}

/// The name of a weekday. What is no weekday is taken for Sunday.
pub fn day_of_week_name(day_of_week: &str) -> (r: &'static str)
    ensures
        r@ == weekday_name(day_of_week@),
{
    if same_text(day_of_week, "1") {
        "Monday"
    } else if same_text(day_of_week, "2") {
        "Tuesday"
    } else if same_text(day_of_week, "3") {
        "Wednesday"
    } else if same_text(day_of_week, "4") {
        "Thursday"
    } else if same_text(day_of_week, "5") {
        "Friday"
    } else if same_text(day_of_week, "6") {
        "Saturday"
    } else {
        "Sunday"
    }
}

/// When a schedule comes up, as a value.
pub struct WhenView {
    pub frequency: Seq<char>,
    pub day_of_week: Seq<char>,
    pub day_of_month: Seq<char>,
    pub time: Seq<char>,
}

/// When a schedule comes up, in words.
pub open spec fn when_text(when: WhenView) -> Seq<char> {
    if when.frequency == "weekly"@ {
        "every "@ + weekday_name(when.day_of_week) + " at "@ + when.time
    } else if when.frequency == "monthly"@ {
        "on day "@ + when.day_of_month + " of the month at "@ + when.time
    } else {
        "daily at "@ + when.time
    }
}

/// When a schedule comes up, in words.
pub fn when_words(frequency: &str, day_of_week: &str, day_of_month: &str, time: &str) -> (r: String)
    ensures
        r@ == when_text(
            WhenView {
                frequency: frequency@,
                day_of_week: day_of_week@,
                day_of_month: day_of_month@,
                time: time@,
            },
        ),
{
    if same_text(frequency, "weekly") {
        let mut r = "every ".to_owned();
        r.append(day_of_week_name(day_of_week));
        r.append(" at ");
        r.append(time);
        r
    } else if same_text(frequency, "monthly") {
        let mut r = "on day ".to_owned();
        r.append(day_of_month);
        r.append(" of the month at ");
        r.append(time);
        r
    } else {
        let mut r = "daily at ".to_owned();
        r.append(time);
        r
    }
}

/// A switch in words.
pub open spec fn on_off(flag: bool) -> Seq<char> {
    if flag {
        "on"@
    } else {
        "off"@
    }
}

/// A switch in words.
pub fn on_off_word(flag: bool) -> (r: &'static str)
    ensures
        r@ == on_off(flag),
{
    if flag {
        "on"
    } else {
        "off"
    }
}

/// The local time, as far as schedules look at it.
pub struct Clock {
    /// The date, year first.
    pub today: String,
    /// The weekday, counted from Sunday as zero.
    pub weekday: u32,
    /// The day of the month.
    pub day: u32,
    pub hour: u32,
    pub minute: u32,
}

/// The minutes since midnight that a time of day stands for.
pub open spec fn minutes_of(time: Seq<char>) -> Option<int> {
    match halves(time, ':') {
        Some((hour, minute)) => match (as_i64(trimmed(hour)), as_i64(trimmed(minute))) {
            (Some(h), Some(m)) => Some(h * 60 + m),
            _ => None,
        },
        None => None,
    }
}

/// A number, or what holds where the text is none.
pub open spec fn number_or(value: Option<int>, fallback: int) -> int {
    match value {
        Some(v) => v,
        None => fallback,
    }
}

/// The schedule comes up on this day.
pub open spec fn day_fits(when: WhenView, weekday: int, day: int) -> bool {
    if when.frequency == "weekly"@ {
        weekday == number_or(as_u32(when.day_of_week), 0)
    } else if when.frequency == "monthly"@ {
        day == number_or(as_u32(when.day_of_month), 1)
    } else {
        true
    }
}

/// The schedule comes up now: it has not run today, this is its day, and its
/// time came less than five minutes ago.
pub open spec fn due(when: WhenView, last_run: Seq<char>, clock: Clock) -> bool {
    &&& trimmed(last_run) != clock.today@
    &&& day_fits(when, clock.weekday as int, clock.day as int)
    &&& match minutes_of(when.time) {
        Some(target) => 0 <= clock.hour * 60 + clock.minute - target < 5,
        None => false,
    }
}

/// Whether a schedule comes up now.
pub fn comes_up(
    frequency: &str,
    day_of_week: &str,
    day_of_month: &str,
    time: &str,
    last_run: &str,
    clock: &Clock,
) -> (r: bool)
    ensures
        r == due(
            WhenView {
                frequency: frequency@,
                day_of_week: day_of_week@,
                day_of_month: day_of_month@,
                time: time@,
            },
            last_run@,
            *clock,
        ),
{
    if same_text(trim(last_run).as_str(), clock.today.as_str()) {
        return false;
    }
    if same_text(frequency, "weekly") {
        let configured: u32 = match parse_u32(day_of_week) {
            Some(v) => v,
            None => 0,
        };
        if clock.weekday != configured {
            return false;
        }
    } else if same_text(frequency, "monthly") {
        let configured: u32 = match parse_u32(day_of_month) {
            Some(v) => v,
            None => 1,
        };
        if clock.day != configured {
            return false;
        }
    }
    match split_once(time, ':') {
        Some((hour, minute)) => {
            match (parse_i64(trim(hour.as_str()).as_str()), parse_i64(trim(minute.as_str()).as_str())) {
                (Some(h), Some(m)) => {
                    let target: i128 = h as i128 * 60 + m as i128;
                    let now: i128 = clock.hour as i128 * 60 + clock.minute as i128;
                    let diff: i128 = now - target;
                    0 <= diff && diff < 5
                },
                _ => false,
            }
        },
        None => false,
    }
}

/// A schedule that has run today does not come up again today.
pub proof fn law_runs_once_a_day(when: WhenView, last_run: Seq<char>, clock: Clock)
    requires
        trimmed(last_run) == clock.today@,
    ensures
        !due(when, last_run, clock),
{
}

/// On a day that fits, a schedule comes up in the five minutes from its time
/// on, and at no other time of the day.
pub proof fn law_comes_up_in_its_five_minutes(
    when: WhenView,
    last_run: Seq<char>,
    clock: Clock,
    target: int,
)
    requires
        minutes_of(when.time) == Some(target),
        trimmed(last_run) != clock.today@,
        day_fits(when, clock.weekday as int, clock.day as int),
    ensures
        due(when, last_run, clock) <==> target <= clock.hour * 60 + clock.minute < target + 5,
{
}

/// A weekly schedule comes up on its weekday, in the five minutes from its time
/// on, and on no other day of the week.
pub proof fn law_weekly_comes_up_on_its_weekday(
    rule: WhenView,
    last_run: Seq<char>,
    clock: Clock,
    weekday: int,
    hour: int,
    minute: int,
)
    requires
        rule.frequency == "weekly"@,
        0 <= weekday <= 6,
        rule.day_of_week == number_text(weekday),
        0 <= hour < 24,
        0 <= minute < 60,
        rule.time == two_digits(hour) + seq![':'] + two_digits(minute),
        trimmed(last_run) != clock.today@,
    ensures
        due(rule, last_run, clock) <==> clock.weekday == weekday && hour * 60 + minute <= clock.hour
            * 60 + clock.minute < hour * 60 + minute + 5,
{
    lemma_number_text(weekday);
    lemma_time_of_day(rule.time, hour, minute);
}

/// A monthly schedule comes up on its day of the month, in the five minutes
/// from its time on, and on no other day of the month.
pub proof fn law_monthly_comes_up_on_its_day(
    rule: WhenView,
    last_run: Seq<char>,
    clock: Clock,
    day: int,
    hour: int,
    minute: int,
)
    requires
        rule.frequency == "monthly"@,
        1 <= day <= 31,
        rule.day_of_month == number_text(day),
        0 <= hour < 24,
        0 <= minute < 60,
        rule.time == two_digits(hour) + seq![':'] + two_digits(minute),
        trimmed(last_run) != clock.today@,
    ensures
        due(rule, last_run, clock) <==> clock.day == day && hour * 60 + minute <= clock.hour * 60
            + clock.minute < hour * 60 + minute + 5,
{
    reveal_strlit("weekly");
    reveal_strlit("monthly");
    assert("weekly"@[0] != "monthly"@[0]);
    lemma_number_text(day);
    lemma_time_of_day(rule.time, hour, minute);
}

/// A daily schedule comes up on every day, in the five minutes from its time
/// on.
pub proof fn law_daily_comes_up_every_day(
    rule: WhenView,
    last_run: Seq<char>,
    clock: Clock,
    hour: int,
    minute: int,
)
    requires
        rule.frequency == "daily"@,
        0 <= hour < 24,
        0 <= minute < 60,
        rule.time == two_digits(hour) + seq![':'] + two_digits(minute),
        trimmed(last_run) != clock.today@,
    ensures
        due(rule, last_run, clock) <==> hour * 60 + minute <= clock.hour * 60 + clock.minute < hour
            * 60 + minute + 5,
{
    reveal_strlit("daily");
    reveal_strlit("weekly");
    reveal_strlit("monthly");
    assert("daily"@[0] != "weekly"@[0] && "daily"@[0] != "monthly"@[0]);
    lemma_time_of_day(rule.time, hour, minute);
}

/// A time of day that is written with two digits each reads as its minutes
/// since midnight.
proof fn lemma_time_of_day(time: Seq<char>, hour: int, minute: int)
    requires
        0 <= hour < 24,
        0 <= minute < 60,
        time == two_digits(hour) + seq![':'] + two_digits(minute),
    ensures
        minutes_of(time) == Some(hour * 60 + minute),
{
    let a = two_digits(hour);
    let b = two_digits(minute);
    lemma_two_digits(hour);
    lemma_two_digits(minute);
    assert forall|j: int| 0 <= j < a.len() implies time[j] != ':' by {
        assert(time[j] == a[j]);
    }
    lemma_position_is(time, ':', a.len() as int);
    assert(time.take(a.len() as int) =~= a);
    assert(time.skip(a.len() as int + 1) =~= b);
    assert(a[0] == '-' || is_digit(a[0]));
    assert(a[a.len() - 1] == '-' || is_digit(a[a.len() - 1]));
    assert(b[0] == '-' || is_digit(b[0]));
    assert(b[b.len() - 1] == '-' || is_digit(b[b.len() - 1]));
    lemma_trimmed(a);
    lemma_trimmed(b);
}

/// A number within bounds: the nearer bound where it is out of them.
pub open spec fn clamped(n: int, lo: int, hi: int) -> int {
    if n < lo {
        lo
    } else if n > hi {
        hi
    } else {
        n
    }
}

/// A number is brought to the nearest that lies within the bounds.
pub proof fn law_nearest_within_bounds(n: int, lo: int, hi: int, other: int)
    requires
        lo <= hi,
        lo <= other <= hi,
    ensures
        lo <= clamped(n, lo, hi) <= hi,
        lo <= n <= hi ==> clamped(n, lo, hi) == n,
        n < lo ==> clamped(n, lo, hi) - n <= other - n,
        n > hi ==> n - clamped(n, lo, hi) <= n - other,
{
}

/// The frequencies that a schedule can have.
pub open spec fn valid_frequency(frequency: Seq<char>) -> bool {
    frequency == "daily"@ || frequency == "weekly"@ || frequency == "monthly"@
}

/// Whether a schedule can have this frequency.
pub fn is_valid_frequency(frequency: &str) -> (r: bool)
    ensures
        r == valid_frequency(frequency@),
{
    same_text(frequency, "daily") || same_text(frequency, "weekly") || same_text(
        frequency,
        "monthly",
    )
}

/// The number of a form field, within bounds, as text.
pub open spec fn day_setting(field: Seq<char>, fallback: int, lo: int, hi: int) -> Seq<char> {
    number_text(clamped(number_or(as_i32(trimmed(field)), fallback), lo, hi))
}

/// The number of a form field, within bounds, as text.
pub fn day_field(field: &str, fallback: i32, lo: i32, hi: i32) -> (r: String)
    requires
        lo <= hi,
    ensures
        r@ == day_setting(field@, fallback as int, lo as int, hi as int),
{
    let n: i32 = match parse_i32(trim(field).as_str()) {
        Some(v) => v,
        None => fallback,
    };
    let n: i32 = if n < lo {
        lo
    } else if n > hi {
        hi
    } else {
        n
    };
    i64_text(n as i64)
}

/// The time of a form field, or what holds where it was left empty.
pub open spec fn time_setting(field: Seq<char>, fallback: Seq<char>) -> Seq<char> {
    if trimmed(field).len() == 0 {
        fallback
    } else {
        trimmed(field)
    }
}

/// A number can stand in a settings file.
pub proof fn lemma_plain_number(n: int)
    ensures
        plain_value(number_text(n)),
{
    lemma_number_text(n);
    lemma_trimmed(number_text(n));
    assert forall|i: int| 0 <= i < number_text(n).len() implies number_text(n)[i] != '\n'
        && !is_white_space(number_text(n)[i]) by {}
}

/// When a schedule that was asked for by a form comes up can stand in a
/// settings file, as long as the time stays on its line.
pub proof fn lemma_plain_when(
    frequency: Seq<char>,
    day_of_week: Seq<char>,
    day_of_month: Seq<char>,
    time: Seq<char>,
    usual_time: Seq<char>,
)
    requires
        valid_frequency(frequency),
        !trimmed(time).contains('\n'),
        plain_value(usual_time),
    ensures
        plain_value(frequency),
        plain_value(day_setting(day_of_week, 0, 0, 6)),
        plain_value(day_setting(day_of_month, 1, 1, 28)),
        plain_value(time_setting(time, usual_time)),
{
    lemma_plain_number(clamped(number_or(as_i32(trimmed(day_of_week)), 0), 0, 6));
    lemma_plain_number(clamped(number_or(as_i32(trimmed(day_of_month)), 1), 1, 28));
    reveal_strlit("daily");
    reveal_strlit("weekly");
    reveal_strlit("monthly");
    lemma_trimmed(frequency);
    lemma_trimmed_twice(time);
}

/// The time of a form field, or the given one where it was left empty.
pub fn time_field(field: &str, fallback: &str) -> (r: String)
    ensures
        r@ == time_setting(field@, fallback@),
{
    let time = trim(field);
    if time.as_str().is_empty() {
        fallback.to_owned()
    } else {
        time
    }
}

/// A day that a form gives is kept where it lies within the bounds, and is the
/// nearest day within them where it does not; white space around it does not
/// matter. What is no number gives the day that holds otherwise.
pub proof fn law_days_are_kept_within_bounds(
    field: Seq<char>,
    day: int,
    fallback: int,
    lo: int,
    hi: int,
)
    requires
        lo <= fallback <= hi,
    ensures
        i32::MIN <= day <= i32::MAX && trimmed(field) == number_text(day) ==> {
            &&& lo <= day <= hi ==> day_setting(field, fallback, lo, hi) == number_text(day)
            &&& day < lo ==> day_setting(field, fallback, lo, hi) == number_text(lo)
            &&& day > hi ==> day_setting(field, fallback, lo, hi) == number_text(hi)
        },
        as_i32(trimmed(field)) is None ==> day_setting(field, fallback, lo, hi) == number_text(
            fallback,
        ),
{
    lemma_number_text(day);
}

/// A time that a form gives is kept without the white space around it, and a
/// field that was left blank gives the time that holds otherwise.
pub proof fn law_times_are_kept(field: Seq<char>, fallback: Seq<char>)
    ensures
        trimmed(field).len() > 0 ==> time_setting(field, fallback) == trimmed(field),
        trimmed(field).len() == 0 ==> time_setting(field, fallback) == fallback,
{
}

/// The words for a schedule name the weekday on which a weekly one comes up,
/// the day of the month of a monthly one, and always the time.
pub proof fn law_words_say_when(rule: WhenView, weekday: int)
    requires
        0 <= weekday <= 6,
    ensures
        rule.frequency == "daily"@ ==> when_text(rule) == "daily at "@ + rule.time,
        rule.frequency == "weekly"@ && rule.day_of_week == number_text(weekday) ==> when_text(rule)
            == "every "@ + (if weekday == 0 {
            "Sunday"@
        } else if weekday == 1 {
            "Monday"@
        } else if weekday == 2 {
            "Tuesday"@
        } else if weekday == 3 {
            "Wednesday"@
        } else if weekday == 4 {
            "Thursday"@
        } else if weekday == 5 {
            "Friday"@
        } else {
            "Saturday"@
        }) + " at "@ + rule.time,
        rule.frequency == "monthly"@ ==> when_text(rule) == "on day "@ + rule.day_of_month
            + " of the month at "@ + rule.time,
{
    reveal_strlit("daily");
    reveal_strlit("weekly");
    reveal_strlit("monthly");
    reveal_strlit("1");
    reveal_strlit("2");
    reveal_strlit("3");
    reveal_strlit("4");
    reveal_strlit("5");
    reveal_strlit("6");
    assert("daily"@[0] != "weekly"@[0] && "daily"@[0] != "monthly"@[0]);
    assert("weekly"@[0] != "monthly"@[0]);
    let text = number_text(weekday);
    assert(text =~= seq![crate::numbers::digit_char(weekday)]);
    assert("1"@ =~= seq!['1'] && "2"@ =~= seq!['2'] && "3"@ =~= seq!['3'] && "4"@ =~= seq!['4']
        && "5"@ =~= seq!['5'] && "6"@ =~= seq!['6']);
    assert(text[0] == crate::numbers::digit_char(weekday));
    assert("1"@[0] == '1' && "2"@[0] == '2' && "3"@[0] == '3' && "4"@[0] == '4' && "5"@[0] == '5'
        && "6"@[0] == '6');
}

/// A line gives what stands behind its first equals sign to the name before it,
/// both without the white space around them. Other lines give nothing.
pub proof fn law_lines_give_values_to_names(key: Seq<char>, value: Seq<char>)
    requires
        !key.contains('='),
    ensures
        setting_of_line(key + seq!['='] + value) == Some((trimmed(key), trimmed(value))),
        setting_of_line(key) is None,
{
    law_texts_are_cut_at_the_first_mark(key, '=', value);
}

/// Of several lines with a name the last one counts, and lines with other names
/// do not matter.
pub proof fn law_last_line_counts(
    lines: Seq<Seq<char>>,
    name: Seq<char>,
    value: Seq<char>,
    key: Seq<char>,
)
    requires
        !name.contains('='),
    ensures
        ({
            let more = lines.push(name + seq!['='] + value);
            &&& trimmed(name) == key ==> last_setting(more, key) == Some(trimmed(value))
            &&& trimmed(name) != key ==> last_setting(more, key) == last_setting(lines, key)
        }),
        last_setting(lines.push(name), key) == last_setting(lines, key),
        last_setting(Seq::empty(), key) is None,
{
    law_lines_give_values_to_names(name, value);
    assert(lines.push(name + seq!['='] + value).drop_last() =~= lines);
    assert(lines.push(name).drop_last() =~= lines);
}

/// A setting has the value that was last written for it, and where none was
/// written, or there is no file, what holds otherwise. A switch is on just if
/// that value is `true`.
pub proof fn law_written_settings_hold(
    pairs: Seq<(Seq<char>, Seq<char>)>,
    key: Seq<char>,
    fallback: Seq<char>,
)
    requires
        plain_pairs(pairs),
    ensures
        last_value(pairs, key) matches Some(value) ==> {
            &&& text_setting(Some(settings_text(pairs)), key, fallback) == value
            &&& flag_setting(Some(settings_text(pairs)), key) <==> value == "true"@
        },
        last_value(pairs, key) is None ==> {
            &&& text_setting(Some(settings_text(pairs)), key, fallback) == fallback
            &&& !flag_setting(Some(settings_text(pairs)), key)
        },
        text_setting(None, key, fallback) == fallback,
        !flag_setting(None, key),
{
    law_settings_are_read_back(pairs, key);
}

/// Of several values for a name the last one counts.
pub proof fn law_last_value_counts(
    pairs: Seq<(Seq<char>, Seq<char>)>,
    name: Seq<char>,
    value: Seq<char>,
    key: Seq<char>,
)
    ensures
        last_value(pairs.push((name, value)), key) == if name == key {
            Some(value)
        } else {
            last_value(pairs, key)
        },
        last_value(Seq::empty(), key) is None,
{
    assert(pairs.push((name, value)).drop_last() =~= pairs);
}

/// A weekly schedule whose day cannot be read comes up on Sundays, and a monthly
/// one on the first; a schedule that is neither comes up every day.
pub proof fn law_unreadable_days_are_the_first(rule: WhenView, weekday: int, day: int)
    ensures
        rule.frequency == "weekly"@ && as_u32(rule.day_of_week) is None ==> (day_fits(
            rule,
            weekday,
            day,
        ) <==> weekday == 0),
        rule.frequency == "monthly"@ && as_u32(rule.day_of_month) is None ==> (day_fits(
            rule,
            weekday,
            day,
        ) <==> day == 1),
        rule.frequency != "weekly"@ && rule.frequency != "monthly"@ ==> day_fits(
            rule,
            weekday,
            day,
        ),
{
    reveal_strlit("weekly");
    reveal_strlit("monthly");
    assert("weekly"@[0] != "monthly"@[0]);
}

/// A schedule without a time that can be read never comes up.
pub proof fn law_unreadable_times_never_come(rule: WhenView, last_run: Seq<char>, clock: Clock)
    requires
        !rule.time.contains(':'),
    ensures
        !due(rule, last_run, clock),
{
    law_texts_are_cut_at_the_first_mark(rule.time, ':', Seq::empty());
}

} // verus!
