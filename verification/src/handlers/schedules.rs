//! Screen-time schedules: hours that hold for every phone, and hours of its
//! own for the phone that needs them.

use crate::forms::{field, field_or, FormFields};
use crate::handlers::devices::{number_field, opt_int};
use crate::handlers::dns_filter::{chosen_device, selected_device};
use crate::models::{Device, DevicePolicy, GlobalSchedule};
use crate::numbers::{
    as_i64, i64_text, lemma_two_digits, number_text, parse_i64, two_digit_text, two_digits,
};
use crate::text::{halves, lemma_position_is, split_once};
use vstd::prelude::*;

verus! {

/// The quotient by sixty, rounded toward zero.
pub open spec fn hours_of(minutes: int) -> int {
    if minutes >= 0 {
        minutes / 60
    } else {
        -((-minutes) / 60)
    }
}

/// A number of minutes since midnight as a time of day; empty if there is
/// none.
pub open spec fn time_input(minutes: Option<i64>) -> Seq<char> {
    match minutes {
        Some(m) => two_digits(hours_of(m as int)) + seq![':'] + two_digits(
            m - 60 * hours_of(m as int),
        ),
        None => Seq::empty(),
    }
}

/// The minutes since midnight of a time of day; nothing for what is none.
pub open spec fn input_minutes(value: Seq<char>) -> Option<int> {
    match halves(value, ':') {
        Some((h, m)) => match (as_i64(h), as_i64(m)) {
            (Some(hours), Some(minutes)) => Some(hours * 60 + minutes),
            _ => None,
        },
        None => None,
    }
}

/// The minutes of a time of day, and those of its full hours, can be held.
pub open spec fn input_fits(value: Seq<char>) -> bool {
    match halves(value, ':') {
        Some((h, m)) => match (as_i64(h), as_i64(m)) {
            (Some(hours), Some(minutes)) => i64::MIN <= hours * 60 <= i64::MAX && i64::MIN <= hours
                * 60 + minutes <= i64::MAX,
            _ => true,
        },
        None => true,
    }
}

/// A number of minutes since midnight as a form shows it.
pub fn minutes_to_time_input(minutes: Option<i64>) -> (r: String)
    ensures
        r@ == time_input(minutes),
{
    match minutes {
        Some(m) => {
            let (h, rest): (i64, i64) = if m >= 0 {
                (m / 60, m % 60)
            } else {
                let positive: u64 = if m == i64::MIN {
                    0x8000_0000_0000_0000
                } else {
                    (-m) as u64
                };
                (-((positive / 60) as i64), -((positive % 60) as i64))
            };
            let mut r = two_digit_text(h);
            r.push(':');
            r.append(two_digit_text(rest).as_str());
            proof {
                assert(r@ =~= time_input(minutes));
            }
            r
        },
        None => String::new(),
    }
}

/// The minutes since midnight of what a form gave.
pub fn time_input_to_minutes(value: &str) -> (r: Option<i64>)
    requires
        input_fits(value@),
    ensures
        opt_int(r) == input_minutes(value@),
{
    match split_once(value, ':') {
        Some((h, m)) => match (parse_i64(h.as_str()), parse_i64(m.as_str())) {
            (Some(hours), Some(minutes)) => Some(hours * 60 + minutes),
            _ => None,
        },
        None => None,
    }
}

/// Whether the minutes of what a form gave can be held.
pub fn time_input_fits(value: &str) -> (r: bool)
    ensures
        r == input_fits(value@),
{
    match split_once(value, ':') {
        Some((h, m)) => match (parse_i64(h.as_str()), parse_i64(m.as_str())) {
            (Some(hours), Some(minutes)) => {
                let full: i128 = hours as i128 * 60;
                let all: i128 = full + minutes as i128;
                i64::MIN as i128 <= full && full <= i64::MAX as i128 && i64::MIN as i128 <= all
                    && all <= i64::MAX as i128
            },
            _ => true,
        },
        None => true,
    }
}

/// A time that is shown in a form and sent back is the same time.
pub proof fn law_shown_times_are_read_back(minutes: Option<i64>)
    ensures
        input_fits(time_input(minutes)),
        input_minutes(time_input(minutes)) == opt_int(minutes),
{
    match minutes {
        Some(m) => {
            let q = hours_of(m as int);
            let r = m - 60 * q;
            let a = two_digits(q);
            let b = two_digits(r);
            let s = time_input(minutes);
            lemma_two_digits(q);
            lemma_two_digits(r);
            assert forall|j: int| 0 <= j < a.len() implies s[j] != ':' by {
                assert(s[j] == a[j]);
            }
            lemma_position_is(s, ':', a.len() as int);
            assert(s.take(a.len() as int) =~= a);
            assert(s.skip(a.len() as int + 1) =~= b);
        },
        None => {},
    }
}

/// The six times of a schedule, as a form shows them.
pub struct ScheduleInputs {
    pub weekday_start: String,
    pub weekday_end: String,
    pub weekend_start: String,
    pub weekend_end: String,
    pub bedtime_start: String,
    pub bedtime_end: String,
}

/// The times of a schedule, as a form shows them.
pub fn schedule_inputs(s: &GlobalSchedule) -> (r: ScheduleInputs)
    ensures
        shows_times(r, *s),
{
    ScheduleInputs {
        weekday_start: minutes_to_time_input(s.weekday_start_minutes),
        weekday_end: minutes_to_time_input(s.weekday_end_minutes),
        weekend_start: minutes_to_time_input(s.weekend_start_minutes),
        weekend_end: minutes_to_time_input(s.weekend_end_minutes),
        bedtime_start: minutes_to_time_input(s.bedtime_start_minutes),
        bedtime_end: minutes_to_time_input(s.bedtime_end_minutes),
    }
}

/// The time that a form gives under a name.
pub open spec fn form_minutes(form: Map<Seq<char>, Seq<char>>, name: Seq<char>) -> Option<int> {
    input_minutes(field_or(form, name, ""@))
}

/// All the times that a form gives can be held.
pub open spec fn form_fits(form: Map<Seq<char>, Seq<char>>) -> bool {
    &&& input_fits(field_or(form, "weekday_start"@, ""@))
    &&& input_fits(field_or(form, "weekday_end"@, ""@))
    &&& input_fits(field_or(form, "weekend_start"@, ""@))
    &&& input_fits(field_or(form, "weekend_end"@, ""@))
    &&& input_fits(field_or(form, "bedtime_start"@, ""@))
    &&& input_fits(field_or(form, "bedtime_end"@, ""@))
}

/// Whether all the times that a form gives can be held.
pub fn schedule_form_fits(form: &FormFields) -> (r: bool)
    ensures
        r == form_fits(form@),
{
    time_input_fits(form.get_or("weekday_start", "").as_str()) && time_input_fits(
        form.get_or("weekday_end", "").as_str(),
    ) && time_input_fits(form.get_or("weekend_start", "").as_str()) && time_input_fits(
        form.get_or("weekend_end", "").as_str(),
    ) && time_input_fits(form.get_or("bedtime_start", "").as_str()) && time_input_fits(
        form.get_or("bedtime_end", "").as_str(),
    )
}

/// The schedule is the one that a form gives.
pub open spec fn is_form_schedule(s: GlobalSchedule, form: Map<Seq<char>, Seq<char>>) -> bool {
    &&& opt_int(s.weekday_start_minutes) == form_minutes(form, "weekday_start"@)
    &&& opt_int(s.weekday_end_minutes) == form_minutes(form, "weekday_end"@)
    &&& opt_int(s.weekend_start_minutes) == form_minutes(form, "weekend_start"@)
    &&& opt_int(s.weekend_end_minutes) == form_minutes(form, "weekend_end"@)
    &&& opt_int(s.bedtime_start_minutes) == form_minutes(form, "bedtime_start"@)
    &&& opt_int(s.bedtime_end_minutes) == form_minutes(form, "bedtime_end"@)
}

/// The hours for all phones that a form gives.
pub fn save_global_schedule(form: &FormFields) -> (r: GlobalSchedule)
    requires
        form_fits(form@),
    ensures
        is_form_schedule(r, form@),
{
    GlobalSchedule {
        weekday_start_minutes: time_input_to_minutes(form.get_or("weekday_start", "").as_str()),
        weekday_end_minutes: time_input_to_minutes(form.get_or("weekday_end", "").as_str()),
        weekend_start_minutes: time_input_to_minutes(form.get_or("weekend_start", "").as_str()),
        weekend_end_minutes: time_input_to_minutes(form.get_or("weekend_end", "").as_str()),
        bedtime_start_minutes: time_input_to_minutes(form.get_or("bedtime_start", "").as_str()),
        bedtime_end_minutes: time_input_to_minutes(form.get_or("bedtime_end", "").as_str()),
    }
}

/// The hours of a phone's own that a form gives, and whether they hold.
pub fn save_device_schedule(form: &FormFields) -> (r: (bool, GlobalSchedule))
    requires
        form_fits(form@),
    ensures
        r.0 == form@.contains_key("custom_schedule_enabled"@),
        is_form_schedule(r.1, form@),
{
    (form.contains_key("custom_schedule_enabled"), save_global_schedule(form))
}

/// The hours in a phone's policy, whether they hold or not.
pub open spec fn own_hours(policy: DevicePolicy) -> GlobalSchedule {
    GlobalSchedule {
        weekday_start_minutes: policy.weekday_start_minutes,
        weekday_end_minutes: policy.weekday_end_minutes,
        weekend_start_minutes: policy.weekend_start_minutes,
        weekend_end_minutes: policy.weekend_end_minutes,
        bedtime_start_minutes: policy.bedtime_start_minutes,
        bedtime_end_minutes: policy.bedtime_end_minutes,
    }
}

/// The hours that hold for a phone.
pub open spec fn hours_for(policy: DevicePolicy, global: GlobalSchedule) -> GlobalSchedule {
    if policy.custom_schedule_enabled {
        own_hours(policy)
    } else {
        global
    }
}

/// The hours in a phone's policy, whether they hold or not.
pub fn own_schedule(policy: &DevicePolicy) -> (r: GlobalSchedule)
    ensures
        r == own_hours(*policy),
{
    GlobalSchedule {
        weekday_start_minutes: policy.weekday_start_minutes,
        weekday_end_minutes: policy.weekday_end_minutes,
        weekend_start_minutes: policy.weekend_start_minutes,
        weekend_end_minutes: policy.weekend_end_minutes,
        bedtime_start_minutes: policy.bedtime_start_minutes,
        bedtime_end_minutes: policy.bedtime_end_minutes,
    }
}

/// The hours that hold for a phone: those for all, unless it has its own.
pub fn effective_schedule(policy: &DevicePolicy, global: &GlobalSchedule) -> (r: GlobalSchedule)
    ensures
        r == hours_for(*policy, *global),
{
    if policy.custom_schedule_enabled {
        own_schedule(policy)
    } else {
        GlobalSchedule {
            weekday_start_minutes: global.weekday_start_minutes,
            weekday_end_minutes: global.weekday_end_minutes,
            weekend_start_minutes: global.weekend_start_minutes,
            weekend_end_minutes: global.weekend_end_minutes,
            bedtime_start_minutes: global.bedtime_start_minutes,
            bedtime_end_minutes: global.bedtime_end_minutes,
        }
    }
}

/// A phone in the list to choose from.
pub struct DeviceOption {
    pub id: i64,
    pub name: String,
    pub selected: bool,
}

/// The phone that was chosen, with its own hours.
pub struct SelectedDevice {
    pub id: i64,
    pub name: String,
    pub custom_enabled: bool,
    pub inputs: ScheduleInputs,
}

/// The phones to choose from. The one with the chosen number is marked.
pub fn device_options(devices: &Vec<Device>, chosen: Option<i64>) -> (r: Vec<DeviceOption>)
    ensures
        offers_devices(r@, devices@, opt_int(chosen)),
{
    let mut options: Vec<DeviceOption> = Vec::new();
    let mut i: usize = 0;
    while i < devices.len()
        invariant
            i <= devices@.len(),
            options@.len() == i,
            forall|j: int|
                0 <= j < i ==> {
                    &&& (#[trigger] options@[j]).id == devices@[j].id
                    &&& options@[j].name@ == devices@[j].name@
                    &&& options@[j].selected == (Some(devices@[j].id as int) == opt_int(chosen))
                },
        decreases devices@.len() - i,
    {
        let selected = match chosen {
            Some(id) => devices[i].id == id,
            None => false,
        };
        options.push(DeviceOption { id: devices[i].id, name: devices[i].name.clone(), selected });
        i += 1;
    }
    options
}

/// The form shows the times of a schedule.
pub open spec fn shows_times(inputs: ScheduleInputs, s: GlobalSchedule) -> bool {
    &&& inputs.weekday_start@ == time_input(s.weekday_start_minutes)
    &&& inputs.weekday_end@ == time_input(s.weekday_end_minutes)
    &&& inputs.weekend_start@ == time_input(s.weekend_start_minutes)
    &&& inputs.weekend_end@ == time_input(s.weekend_end_minutes)
    &&& inputs.bedtime_start@ == time_input(s.bedtime_start_minutes)
    &&& inputs.bedtime_end@ == time_input(s.bedtime_end_minutes)
}

/// The options are the phones; the one with the chosen number is marked.
pub open spec fn offers_devices(
    options: Seq<DeviceOption>,
    devices: Seq<Device>,
    chosen: Option<int>,
) -> bool {
    &&& options.len() == devices.len()
    &&& forall|i: int|
        0 <= i < options.len() ==> {
            &&& (#[trigger] options[i]).id == devices[i].id
            &&& options[i].name@ == devices[i].name@
            &&& options[i].selected == (Some(devices[i].id as int) == chosen)
        }
}

/// What the page of the schedules shows.
pub struct SchedulesPage {
    pub global: ScheduleInputs,
    pub devices: Vec<DeviceOption>,
    pub selected: Option<SelectedDevice>,
}

/// What the page of the schedules shows: the hours for all, and those of the
/// phone that a query string chooses. `policy` is that phone's.
pub fn show_schedules(
    params: &FormFields,
    global: &GlobalSchedule,
    devices: &Vec<Device>,
    policy: &DevicePolicy,
) -> (r: SchedulesPage)
    ensures
        shows_times(r.global, *global),
        offers_devices(
            r.devices@,
            devices@,
            match field(params@, "device"@) {
                Some(text) => as_i64(text),
                None => None,
            },
        ),
        match chosen_device(params@, devices@) {
            Some(i) => {
                &&& r.selected matches Some(s)
                &&& s.id == devices@[i].id
                &&& s.name@ == devices@[i].name@
                &&& s.custom_enabled == policy.custom_schedule_enabled
                &&& shows_times(s.inputs, own_hours(*policy))
            },
            None => r.selected is None,
        },
{
    let selected = match selected_device(params, devices) {
        Some(i) => Some(
            SelectedDevice {
                id: devices[i].id,
                name: devices[i].name.clone(),
                custom_enabled: policy.custom_schedule_enabled,
                inputs: schedule_inputs(&own_schedule(policy)),
            },
        ),
        None => None,
    };
    SchedulesPage {
        global: schedule_inputs(global),
        devices: device_options(devices, number_field(params, "device")),
        selected,
    }
}

/// The page of the schedules with a phone chosen.
pub fn schedules_url(device_id: i64) -> (r: String)
    ensures
        r@ == "/schedules?device="@ + number_text(device_id as int),
{
    let mut r = "/schedules?device=".to_owned();
    r.append(i64_text(device_id).as_str());
    r
}

/// Hours of its own hold for a phone under their own names, once they are
/// switched on.
pub proof fn law_own_hours_hold_under_their_names(policy: DevicePolicy, global: GlobalSchedule)
    requires
        policy.custom_schedule_enabled,
    ensures
        ({
            let hours = hours_for(policy, global);
            &&& hours.weekday_start_minutes == policy.weekday_start_minutes
            &&& hours.weekday_end_minutes == policy.weekday_end_minutes
            &&& hours.weekend_start_minutes == policy.weekend_start_minutes
            &&& hours.weekend_end_minutes == policy.weekend_end_minutes
            &&& hours.bedtime_start_minutes == policy.bedtime_start_minutes
            &&& hours.bedtime_end_minutes == policy.bedtime_end_minutes
        }),
{
}

/// The page shows a phone's own hours, each under its own name: what a form
/// with these texts gives is what is stored.
pub proof fn law_shown_hours_are_saved_unchanged(
    inputs: ScheduleInputs,
    policy: DevicePolicy,
    form: Map<Seq<char>, Seq<char>>,
    saved: GlobalSchedule,
)
    requires
        shows_times(inputs, own_hours(policy)),
        field(form, "weekday_start"@) == Some(inputs.weekday_start@),
        field(form, "weekday_end"@) == Some(inputs.weekday_end@),
        field(form, "weekend_start"@) == Some(inputs.weekend_start@),
        field(form, "weekend_end"@) == Some(inputs.weekend_end@),
        field(form, "bedtime_start"@) == Some(inputs.bedtime_start@),
        field(form, "bedtime_end"@) == Some(inputs.bedtime_end@),
        is_form_schedule(saved, form),
    ensures
        form_fits(form),
        saved.weekday_start_minutes == policy.weekday_start_minutes,
        saved.weekday_end_minutes == policy.weekday_end_minutes,
        saved.weekend_start_minutes == policy.weekend_start_minutes,
        saved.weekend_end_minutes == policy.weekend_end_minutes,
        saved.bedtime_start_minutes == policy.bedtime_start_minutes,
        saved.bedtime_end_minutes == policy.bedtime_end_minutes,
{
    law_shown_times_are_read_back(policy.weekday_start_minutes);
    law_shown_times_are_read_back(policy.weekday_end_minutes);
    law_shown_times_are_read_back(policy.weekend_start_minutes);
    law_shown_times_are_read_back(policy.weekend_end_minutes);
    law_shown_times_are_read_back(policy.bedtime_start_minutes);
    law_shown_times_are_read_back(policy.bedtime_end_minutes);
}

/// A time of day that a form gives stands for its minutes since midnight.
pub proof fn law_times_are_minutes_since_midnight(hour: int, minute: int, text: Seq<char>)
    requires
        0 <= hour < 24,
        0 <= minute < 60,
        text == two_digits(hour) + seq![':'] + two_digits(minute),
    ensures
        input_minutes(text) == Some(hour * 60 + minute),
        forall|m: i64| m == hour * 60 + minute ==> #[trigger] time_input(Some(m)) == text,
{
    let a = two_digits(hour);
    let b = two_digits(minute);
    lemma_two_digits(hour);
    lemma_two_digits(minute);
    assert forall|j: int| 0 <= j < a.len() implies text[j] != ':' by {
        assert(text[j] == a[j]);
    }
    lemma_position_is(text, ':', a.len() as int);
    assert(text.take(a.len() as int) =~= a);
    assert(text.skip(a.len() as int + 1) =~= b);
    assert forall|m: i64| m == hour * 60 + minute implies #[trigger] time_input(Some(m)) == text by {
        assert(hours_of(m as int) == hour);
    }
}

/// A phone without hours of its own keeps the common ones, whatever its
/// policy holds.
pub proof fn law_common_hours_hold_by_default(
    a: DevicePolicy,
    b: DevicePolicy,
    global: GlobalSchedule,
)
    requires
        !a.custom_schedule_enabled,
        !b.custom_schedule_enabled,
    ensures
        hours_for(a, global) == hours_for(b, global),
        hours_for(a, global) == global,
{
}

/// Each time that a form gives is saved under its own name, as minutes since
/// midnight.
pub proof fn law_form_times_are_saved_under_their_names(
    saved: GlobalSchedule,
    form: Map<Seq<char>, Seq<char>>,
    hour: int,
    minute: int,
    text: Seq<char>,
)
    requires
        is_form_schedule(saved, form),
        0 <= hour < 24,
        0 <= minute < 60,
        text == two_digits(hour) + seq![':'] + two_digits(minute),
    ensures
        field(form, "weekday_start"@) == Some(text) ==> saved.weekday_start_minutes == Some(
            (hour * 60 + minute) as i64,
        ),
        field(form, "weekday_end"@) == Some(text) ==> saved.weekday_end_minutes == Some(
            (hour * 60 + minute) as i64,
        ),
        field(form, "weekend_start"@) == Some(text) ==> saved.weekend_start_minutes == Some(
            (hour * 60 + minute) as i64,
        ),
        field(form, "weekend_end"@) == Some(text) ==> saved.weekend_end_minutes == Some(
            (hour * 60 + minute) as i64,
        ),
        field(form, "bedtime_start"@) == Some(text) ==> saved.bedtime_start_minutes == Some(
            (hour * 60 + minute) as i64,
        ),
        field(form, "bedtime_end"@) == Some(text) ==> saved.bedtime_end_minutes == Some(
            (hour * 60 + minute) as i64,
        ),
{
    law_times_are_minutes_since_midnight(hour, minute, text);
}

/// What has no colon is no time, so that a time that was left out is saved as
/// none.
pub proof fn law_left_out_times_are_none(saved: GlobalSchedule, form: Map<Seq<char>, Seq<char>>)
    requires
        is_form_schedule(saved, form),
    ensures
        field(form, "weekday_start"@) is None ==> saved.weekday_start_minutes is None,
        field(form, "weekday_end"@) is None ==> saved.weekday_end_minutes is None,
        field(form, "weekend_start"@) is None ==> saved.weekend_start_minutes is None,
        field(form, "weekend_end"@) is None ==> saved.weekend_end_minutes is None,
        field(form, "bedtime_start"@) is None ==> saved.bedtime_start_minutes is None,
        field(form, "bedtime_end"@) is None ==> saved.bedtime_end_minutes is None,
{
    reveal_strlit("");
    lemma_position_is(""@, ':', 0);
}

/// A form shows each time of a schedule under its own name.
pub proof fn law_times_are_shown_under_their_names(
    inputs: ScheduleInputs,
    s: GlobalSchedule,
    hour: int,
    minute: int,
    text: Seq<char>,
)
    requires
        shows_times(inputs, s),
        0 <= hour < 24,
        0 <= minute < 60,
        text == two_digits(hour) + seq![':'] + two_digits(minute),
    ensures
        s.weekday_start_minutes == Some((hour * 60 + minute) as i64) ==> inputs.weekday_start@
            == text,
        s.weekday_end_minutes == Some((hour * 60 + minute) as i64) ==> inputs.weekday_end@ == text,
        s.weekend_start_minutes == Some((hour * 60 + minute) as i64) ==> inputs.weekend_start@
            == text,
        s.weekend_end_minutes == Some((hour * 60 + minute) as i64) ==> inputs.weekend_end@ == text,
        s.bedtime_start_minutes == Some((hour * 60 + minute) as i64) ==> inputs.bedtime_start@
            == text,
        s.bedtime_end_minutes == Some((hour * 60 + minute) as i64) ==> inputs.bedtime_end@ == text,
        s.weekday_start_minutes is None ==> inputs.weekday_start@.len() == 0,
        s.weekend_start_minutes is None ==> inputs.weekend_start@.len() == 0,
        s.bedtime_start_minutes is None ==> inputs.bedtime_start@.len() == 0,
{
    law_times_are_minutes_since_midnight(hour, minute, text);
    let m = (hour * 60 + minute) as i64;
    assert(time_input(Some(m)) == text);
}

/// Every phone can be chosen, under its number and its name, and the chosen one
/// alone is marked.
pub proof fn law_phones_are_offered(
    options: Seq<DeviceOption>,
    devices: Seq<Device>,
    chosen: Option<int>,
    i: int,
)
    requires
        offers_devices(options, devices, chosen),
        0 <= i < devices.len(),
    ensures
        options.len() == devices.len(),
        options[i].id == devices[i].id,
        options[i].name@ == devices[i].name@,
        chosen is None ==> !options[i].selected,
        chosen matches Some(id) ==> (options[i].selected <==> devices[i].id == id),
{
    assert(options[i].id == devices[i].id);
}

} // verus!
