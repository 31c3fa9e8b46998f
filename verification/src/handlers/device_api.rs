//! What the phones themselves ask of the server.

use crate::dns_engine::{
    content_hash_of, content_text, custom_domains, custom_set, domains_of, feed_ids,
    law_same_hash_same_lists, lemma_custom_in_order, lemma_domains_of, listed_for, together,
    told_apart, without, CompiledBlocklist, FeedView,
};
use crate::handlers::devices::unset_policy;
use crate::handlers::dns_filter::{effective, is_effective, override_of};
use crate::handlers::locate::{deliver_next, delivers, is_next, nothing_waits};
use crate::handlers::schedules::{effective_schedule, hours_for};
use crate::models::{
    Device, DeviceBlocklistOverride, DeviceCommand, DevicePolicy, DnsBlocklist,
    DnsBlocklistCategory, DnsCustomDomain, EnrollRequest, EnrollResponse, GlobalSchedule,
    PolicyResponse, TrackedApp, TrackedAppUpdate,
};
use crate::numbers::{i64_text, lemma_number_text, number_text, u64_text};
use crate::order::{
    all_views, in_text_order, lemma_in_text_order, lemma_sorted_numbers, lemma_sorted_numbers_same,
    less_text, numbers, sort_numbers, sorted_numbers, text_less,
};
use crate::outside::{hex_text, lemma_hex_text, lowercase, opt_views, sha256_of};
use crate::packing::{lemma_same_numbers, lemma_same_packed, packed, push_packed};
use crate::schedule::{flag_text, flag_word, lemma_flag_text};
use crate::security::{
    bearer_token, generate_device_token, hash_token, is_device_token,
    law_token_is_found_by_its_digest, still_ahead, token_digest,
};
use crate::text::{joined, lemma_joined_first, lemma_same_halves, opt_view, same_text, views};
use vstd::prelude::*;
use vstd::utf8::encode_utf8;

verus! {

// ----- enrolling -----

/// The code enrolls the phone: it is the phone's, and its time is not over.
pub open spec fn code_fits(device: Device, code: Seq<char>, now: Seq<char>) -> bool {
    opt_view(device.enrollment_code) == Some(code) && still_ahead(
        opt_view(device.enrollment_code_expires_at),
        now,
    )
}

/// The code enrolls the phone at this index, and none before it.
pub open spec fn enrolls(devices: Seq<Device>, i: int, code: Seq<char>, now: Seq<char>) -> bool {
    &&& 0 <= i < devices.len()
    &&& code_fits(devices[i], code, now)
    &&& forall|j: int| 0 <= j < i ==> !code_fits(#[trigger] devices[j], code, now)
}

/// The code enrolls no phone.
pub open spec fn enrolls_none(devices: Seq<Device>, code: Seq<char>, now: Seq<char>) -> bool {
    forall|j: int| 0 <= j < devices.len() ==> !code_fits(#[trigger] devices[j], code, now)
}

/// A phone as it was enrolled: it has a token's digest, and its code is gone.
pub open spec fn enrolled(before: Device, after: Device, token: Seq<char>, now: Seq<char>) -> bool {
    &&& after.id == before.id
    &&& after.name == before.name
    &&& after.enrollment_code is None
    &&& after.enrollment_code_expires_at is None
    &&& opt_view(after.token_hash) == Some(token_digest(token))
    &&& opt_view(after.enrolled_at) == Some(now)
    &&& after.last_seen_at == before.last_seen_at
}

/// The phones after the one at an index was enrolled.
pub open spec fn enrolled_at(
    before: Seq<Device>,
    after: Seq<Device>,
    i: int,
    response: EnrollResponse,
    now: Seq<char>,
) -> bool {
    &&& response.device_id == before[i].id
    &&& is_device_token(response.device_token@)
    &&& after.len() == before.len()
    &&& enrolled(before[i], after[i], response.device_token@, now)
    &&& forall|j: int| 0 <= j < before.len() && j != i ==> #[trigger] after[j] == before[j]
}

/// Enrolls the phone that a code is for, and gives it its token.
pub fn enroll(devices: &mut Vec<Device>, req: &EnrollRequest, now: &str) -> (r: Result<
    EnrollResponse,
    String,
>)
    ensures
        match r {
            Ok(response) => exists|i: int|
                #[trigger] enrolls(old(devices)@, i, req.enrollment_code@, now@) && enrolled_at(
                    old(devices)@,
                    final(devices)@,
                    i,
                    response,
                    now@,
                ),
            Err(message) => {
                &&& enrolls_none(old(devices)@, req.enrollment_code@, now@)
                &&& message@ == "invalid or expired enrollment code"@
                &&& final(devices)@ == old(devices)@
            },
        },
{
    let ghost given = devices@;
    let mut i: usize = 0;
    while i < devices.len()
        invariant
            devices@ == given,
            given == old(devices)@,
            i <= given.len(),
            forall|j: int|
                0 <= j < i ==> !code_fits(#[trigger] given[j], req.enrollment_code@, now@),
        decreases given.len() - i,
    {
        let same = match &devices[i].enrollment_code {
            Some(code) => same_text(code.as_str(), req.enrollment_code.as_str()),
            None => false,
        };
        let ahead = match &devices[i].enrollment_code_expires_at {
            Some(end) => less_text(now, end.as_str()),
            None => false,
        };
        if same && ahead {
            let token = generate_device_token();
            let token_hash = hash_token(token.as_str());
            let device = devices.remove(i);
            let response = EnrollResponse { device_id: device.id, device_token: token };
            let changed = Device {
                token_hash: Some(token_hash),
                enrollment_code: None,
                enrollment_code_expires_at: None,
                enrolled_at: Some(now.to_owned()),
                ..device
            };
            devices.insert(i, changed);
            proof {
                assert(enrolls(given, i as int, req.enrollment_code@, now@));
                assert(given.remove(i as int).insert(i as int, changed) =~= given.update(
                    i as int,
                    changed,
                ));
                assert(enrolled_at(given, devices@, i as int, response, now@));
            }
            return Ok(response);
        }
        i += 1;
    }
    Err("invalid or expired enrollment code".to_owned())
}

/// No two phones have the same enrollment code.
pub open spec fn distinct_codes(devices: Seq<Device>) -> bool {
    forall|i: int, j: int|
        0 <= i < j < devices.len() && (#[trigger] devices[i]).enrollment_code is Some ==> opt_view(
            devices[i].enrollment_code,
        ) != opt_view((#[trigger] devices[j]).enrollment_code)
}

/// A code enrolls once: after that it enrolls no phone, at any time.
pub proof fn law_codes_are_one_shot(
    before: Seq<Device>,
    after: Seq<Device>,
    i: int,
    code: Seq<char>,
    response: EnrollResponse,
    now: Seq<char>,
    later: Seq<char>,
)
    requires
        distinct_codes(before),
        enrolls(before, i, code, now),
        enrolled_at(before, after, i, response, now),
    ensures
        enrolls_none(after, code, later),
{
    assert forall|j: int| 0 <= j < after.len() implies !code_fits(
        #[trigger] after[j],
        code,
        later,
    ) by {
        if j != i {
            assert(after[j] == before[j]);
            if j < i {
                assert(before[j].enrollment_code is Some ==> opt_view(before[j].enrollment_code)
                    != opt_view(before[i].enrollment_code));
            } else {
                assert(opt_view(before[i].enrollment_code) != opt_view(before[j].enrollment_code));
            }
        }
    }
}

/// The token that a phone was given is the one that it is known by: sent as a
/// bearer token it leads to the digest that is stored for the phone.
pub proof fn law_token_leads_to_the_phone(
    before: Seq<Device>,
    after: Seq<Device>,
    i: int,
    response: EnrollResponse,
    now: Seq<char>,
)
    requires
        0 <= i < before.len(),
        enrolled_at(before, after, i, response, now),
    ensures
        bearer_token(Some("Bearer "@ + response.device_token@)) == Some(response.device_token@),
        opt_view(after[i].token_hash) == Some(token_digest(response.device_token@)),
{
    law_token_is_found_by_its_digest(response.device_token@);
}

// ----- the policy -----

/// A stored allowlist that can be read; nothing for one that cannot.
pub open spec fn readable_allowlist(json: Option<Seq<char>>) -> Option<Seq<Seq<char>>> {
    match json {
        Some(text) => crate::outside::json_texts(text),
        None => None,
    }
}

/// The parts of a phone's policy that come straight from what is stored, as
/// they go out to the phone.
pub open spec fn carries(r: PolicyResponse, policy: DevicePolicy, global: GlobalSchedule) -> bool {
    let hours = hours_for(policy, global);
    &&& opt_views(r.allowlist) == readable_allowlist(opt_view(policy.allowlist_json))
    &&& r.weekday_start_minutes == hours.weekday_start_minutes
    &&& r.weekday_end_minutes == hours.weekday_end_minutes
    &&& r.weekend_start_minutes == hours.weekend_start_minutes
    &&& r.weekend_end_minutes == hours.weekend_end_minutes
    &&& r.bedtime_start_minutes == hours.bedtime_start_minutes
    &&& r.bedtime_end_minutes == hours.bedtime_end_minutes
    &&& r.kiosk_desired == policy.kiosk_desired
    &&& r.lock_task_features == match policy.lock_task_features {
        Some(features) => features,
        None => 0,
    }
    &&& r.wifi_mode@ == policy.wifi_mode@
    &&& r.bluetooth_mode@ == policy.bluetooth_mode@
    &&& opt_view(r.override_pin_hash) == opt_view(policy.override_pin_hash)
    &&& opt_view(r.override_pin_salt) == opt_view(policy.override_pin_salt)
    &&& r.quick_controls_mask == policy.quick_controls_mask
    &&& r.vpn_filter_enabled == policy.vpn_filter_enabled
}

/// A policy of a phone for which none was set.
pub open spec fn is_unset(policy: DevicePolicy) -> bool {
    &&& policy.allowlist_json is None
    &&& !policy.custom_schedule_enabled
    &&& !policy.kiosk_desired
    &&& policy.lock_task_features is None
    &&& policy.wifi_mode@ == "open"@
    &&& policy.bluetooth_mode@ == "open"@
    &&& policy.override_pin_hash is None
    &&& policy.override_pin_salt is None
    &&& policy.quick_controls_mask == 0
    &&& policy.vpn_filter_enabled
}

/// The policy that a phone is to enforce. The oldest command that waits for it
/// goes out with it, and is handed out by that.
pub fn policy(
    device_id: i64,
    stored: Option<DevicePolicy>,
    global: &GlobalSchedule,
    commands: &mut Vec<DeviceCommand>,
    now: &str,
    dns_filter_version: String,
    dns_upstream_provider: String,
) -> (r: PolicyResponse)
    ensures
        match stored {
            Some(p) => carries(r, p, *global),
            None => exists|p: DevicePolicy| is_unset(p) && #[trigger] carries(r, p, *global),
        },
        match r.pending_command {
            Some(p) => exists|i: int|
                #[trigger] is_next(all_views(old(commands)@), device_id as int, i) && delivers(
                    all_views(old(commands)@),
                    i,
                    now@,
                    p,
                    all_views(final(commands)@),
                ),
            None => nothing_waits(all_views(old(commands)@), device_id as int)
                && final(commands)@ == old(commands)@,
        },
        r.dns_filter_version@ == dns_filter_version@,
        r.dns_upstream_provider@ == dns_upstream_provider@,
{
    let set = match stored {
        Some(p) => p,
        None => unset_policy(device_id),
    };
    let hours = effective_schedule(&set, global);
    let allowlist = match &set.allowlist_json {
        Some(text) => crate::outside::json_to_texts(text.as_str()),
        None => None,
    };
    let pending_command = deliver_next(commands, device_id, now);
    let ghost policy = set;
    let r = PolicyResponse {
        allowlist,
        weekday_start_minutes: hours.weekday_start_minutes,
        weekday_end_minutes: hours.weekday_end_minutes,
        weekend_start_minutes: hours.weekend_start_minutes,
        weekend_end_minutes: hours.weekend_end_minutes,
        bedtime_start_minutes: hours.bedtime_start_minutes,
        bedtime_end_minutes: hours.bedtime_end_minutes,
        kiosk_desired: set.kiosk_desired,
        lock_task_features: match set.lock_task_features {
            Some(features) => features,
            None => 0,
        },
        wifi_mode: set.wifi_mode,
        bluetooth_mode: set.bluetooth_mode,
        override_pin_hash: set.override_pin_hash,
        override_pin_salt: set.override_pin_salt,
        quick_controls_mask: set.quick_controls_mask,
        pending_command,
        vpn_filter_enabled: set.vpn_filter_enabled,
        dns_filter_version,
        dns_upstream_provider,
    };
    proof {
        assert(carries(r, policy, *global));
    }
    r
}

/// A phone with hours of its own is sent these, each under its own name; any
/// other is sent the common ones.
pub proof fn law_hours_are_sent_under_their_names(
    r: PolicyResponse,
    policy: DevicePolicy,
    global: GlobalSchedule,
)
    requires
        carries(r, policy, global),
    ensures
        policy.custom_schedule_enabled ==> {
            &&& r.weekday_start_minutes == policy.weekday_start_minutes
            &&& r.weekday_end_minutes == policy.weekday_end_minutes
            &&& r.weekend_start_minutes == policy.weekend_start_minutes
            &&& r.weekend_end_minutes == policy.weekend_end_minutes
            &&& r.bedtime_start_minutes == policy.bedtime_start_minutes
            &&& r.bedtime_end_minutes == policy.bedtime_end_minutes
        },
        !policy.custom_schedule_enabled ==> {
            &&& r.weekday_start_minutes == global.weekday_start_minutes
            &&& r.weekday_end_minutes == global.weekday_end_minutes
            &&& r.weekend_start_minutes == global.weekend_start_minutes
            &&& r.weekend_end_minutes == global.weekend_end_minutes
            &&& r.bedtime_start_minutes == global.bedtime_start_minutes
            &&& r.bedtime_end_minutes == global.bedtime_end_minutes
        },
{
}

/// What a parent has set for a phone is what the phone is sent: what it is
/// pinned to, how its radios may be used, its offline PIN and its switches. A
/// phone for which no features were set is sent none.
pub proof fn law_settings_are_sent_as_stored(
    r: PolicyResponse,
    policy: DevicePolicy,
    global: GlobalSchedule,
)
    requires
        carries(r, policy, global),
    ensures
        r.kiosk_desired == policy.kiosk_desired,
        policy.lock_task_features matches Some(features) ==> r.lock_task_features == features,
        policy.lock_task_features is None ==> r.lock_task_features == 0,
        r.wifi_mode@ == policy.wifi_mode@,
        r.bluetooth_mode@ == policy.bluetooth_mode@,
        opt_view(r.override_pin_hash) == opt_view(policy.override_pin_hash),
        opt_view(r.override_pin_salt) == opt_view(policy.override_pin_salt),
        r.quick_controls_mask == policy.quick_controls_mask,
        r.vpn_filter_enabled == policy.vpn_filter_enabled,
        policy.allowlist_json is None ==> r.allowlist is None,
        policy.allowlist_json matches Some(json) ==> opt_views(r.allowlist)
            == crate::outside::json_texts(json@),
{
}

/// A phone for which nothing was set keeps the common hours, is not pinned,
/// has open radios and no PIN, and has its filter on.
pub proof fn law_unset_phones_are_open_and_filtered(
    r: PolicyResponse,
    policy: DevicePolicy,
    global: GlobalSchedule,
)
    requires
        is_unset(policy),
        carries(r, policy, global),
    ensures
        r.allowlist is None,
        r.weekday_start_minutes == global.weekday_start_minutes,
        r.weekday_end_minutes == global.weekday_end_minutes,
        r.weekend_start_minutes == global.weekend_start_minutes,
        r.weekend_end_minutes == global.weekend_end_minutes,
        r.bedtime_start_minutes == global.bedtime_start_minutes,
        r.bedtime_end_minutes == global.bedtime_end_minutes,
        !r.kiosk_desired,
        r.lock_task_features == 0,
        r.wifi_mode@ == "open"@,
        r.bluetooth_mode@ == "open"@,
        r.override_pin_hash is None,
        r.override_pin_salt is None,
        r.quick_controls_mask == 0,
        r.vpn_filter_enabled,
{
}

/// Whether a nudge, if one came through, is meant for a phone.
pub fn nudges(sent_to: Option<i64>, device_id: i64) -> (r: bool)
    ensures
        r == (sent_to == Some(device_id)),
{
    match sent_to {
        Some(id) => id == device_id,
        None => false,
    }
}

// ----- releases -----

/// The release that a phone is told of. A build is known by its tag and, if it
/// has one, the number of its file: a tag alone may stay the same from build
/// to build.
pub open spec fn release_name(tag: Seq<char>, asset_id: Option<i64>) -> Seq<char> {
    match asset_id {
        Some(id) => tag + "@"@ + number_text(id as int),
        None => tag,
    }
}

/// The app has a release to offer.
pub open spec fn offers(app: TrackedApp) -> bool {
    app.enabled && app.latest_release_tag is Some
}

/// The offer of an app's release.
pub open spec fn offer_of(update: TrackedAppUpdate, app: TrackedApp) -> bool {
    &&& update.id == app.id
    &&& update.package_name@ == app.package_name@
    &&& update.release_tag@ == release_name(
        app.latest_release_tag->0@,
        app.latest_release_asset_id,
    )
    &&& update.download_url@ == "/api/devices/apps/"@ + number_text(app.id as int) + "/download"@
    &&& update.is_launcher == app.is_launcher
}

/// The releases of all apps that are switched on and have one.
pub fn tracked_app_updates(apps: &Vec<TrackedApp>) -> (r: Vec<TrackedAppUpdate>)
    ensures
        ({
            let offered = apps@.filter(|app: TrackedApp| offers(app));
            &&& r@.len() == offered.len()
            &&& forall|i: int| 0 <= i < r@.len() ==> offer_of(#[trigger] r@[i], offered[i])
        }),
{
    let ghost pred = |app: TrackedApp| offers(app);
    let mut updates: Vec<TrackedAppUpdate> = Vec::new();
    let mut i: usize = 0;
    proof {
        reveal(Seq::filter);
    }
    while i < apps.len()
        invariant
            pred == (|app: TrackedApp| offers(app)),
            i <= apps@.len(),
            updates@.len() == apps@.take(i as int).filter(pred).len(),
            forall|j: int|
                0 <= j < updates@.len() ==> offer_of(
                    #[trigger] updates@[j],
                    apps@.take(i as int).filter(pred)[j],
                ),
        decreases apps@.len() - i,
    {
        let app = &apps[i];
        proof {
            reveal(Seq::filter);
            assert(apps@.take(i + 1).drop_last() =~= apps@.take(i as int));
            assert(apps@.take(i + 1).last() == *app);
        }
        match &app.latest_release_tag {
            Some(tag) => {
                if app.enabled {
                    let mut release_tag = tag.clone();
                    match app.latest_release_asset_id {
                        Some(id) => {
                            release_tag.append("@");
                            release_tag.append(i64_text(id).as_str());
                        },
                        None => {},
                    }
                    let mut download_url = "/api/devices/apps/".to_owned();
                    download_url.append(i64_text(app.id).as_str());
                    download_url.append("/download");
                    let update = TrackedAppUpdate {
                        id: app.id,
                        package_name: app.package_name.clone(),
                        release_tag,
                        download_url,
                        is_launcher: app.is_launcher,
                    };
                    proof {
                        assert(offer_of(update, *app));
                    }
                    updates.push(update);
                }
            },
            None => {},
        }
        i += 1;
    }
    proof {
        assert(apps@.take(i as int) =~= apps@);
    }
    updates
}

/// A new build is told from the one before even where the tag stays the same.
pub proof fn law_new_builds_have_new_names(tag: Seq<char>, a: i64, b: i64)
    requires
        a != b,
    ensures
        release_name(tag, Some(a)) != release_name(tag, Some(b)),
{
    let x = release_name(tag, Some(a));
    let y = release_name(tag, Some(b));
    let n = (tag + "@"@).len() as int;
    lemma_number_text(a as int);
    lemma_number_text(b as int);
    assert(x.skip(n) =~= number_text(a as int));
    assert(y.skip(n) =~= number_text(b as int));
}

/// The file of an app's release; nothing if there is no such app or it has no
/// release.
pub fn tracked_app_download(app: Option<TrackedApp>) -> (r: Option<String>)
    ensures
        r == match app {
            Some(a) => a.latest_release_file_path,
            None => None,
        },
{
    match app {
        Some(a) => a.latest_release_file_path,
        None => None,
    }
}

// ----- the blocklist of a phone -----

/// The first feed with the given number.
pub open spec fn feed_with(feeds: Seq<DnsBlocklist>, id: int) -> Option<DnsBlocklist>
    decreases feeds.len(),
{
    if feeds.len() == 0 {
        None
    } else if feeds[0].id == id {
        Some(feeds[0])
    } else {
        feed_with(feeds.skip(1), id)
    }
}

/// The feed is on for a phone. A feed that is no longer there is off.
pub open spec fn is_on(
    feeds: Seq<DnsBlocklist>,
    overrides: Seq<DeviceBlocklistOverride>,
    device_id: i64,
    id: int,
) -> bool {
    match feed_with(feeds, id) {
        Some(feed) => effective(feed, overrides, device_id),
        None => false,
    }
}

/// Whether a feed is on for a phone.
pub fn feed_is_on(
    feeds: &Vec<DnsBlocklist>,
    overrides: &Vec<DeviceBlocklistOverride>,
    device_id: i64,
    id: i64,
) -> (r: bool)
    ensures
        r == is_on(feeds@, overrides@, device_id, id as int),
{
    let mut i: usize = 0;
    proof {
        assert(feeds@.skip(0) =~= feeds@);
    }
    while i < feeds.len()
        invariant
            i <= feeds@.len(),
            feed_with(feeds@, id as int) == feed_with(feeds@.skip(i as int), id as int),
        decreases feeds@.len() - i,
    {
        proof {
            assert(feeds@.skip(i as int).skip(1) =~= feeds@.skip(i + 1));
            assert(feeds@.skip(i as int)[0] == feeds@[i as int]);
        }
        if feeds[i].id == id {
            return is_effective(&feeds[i], overrides, device_id);
        }
        i += 1;
    }
    false
}

/// The categories of the feeds that are on for a phone, without the domains
/// that are allowed for it.
pub open spec fn feed_categories(
    compiled: Seq<FeedView>,
    feeds: Seq<DnsBlocklist>,
    overrides: Seq<DeviceBlocklistOverride>,
    device_id: i64,
    allow: Set<Seq<char>>,
) -> Seq<(Seq<char>, Set<Seq<char>>)>
    decreases compiled.len(),
{
    if compiled.len() == 0 {
        Seq::empty()
    } else {
        let fewer = feed_categories(compiled.drop_last(), feeds, overrides, device_id, allow);
        let feed = compiled.last();
        if is_on(feeds, overrides, device_id, feed.id) {
            fewer.push((feed.category, feed.domains.difference(allow)))
        } else {
            fewer
        }
    }
}

/// The domains that are blocked by hand, for a phone or for all, without
/// those that are allowed for it.
pub open spec fn hand_blocked(
    global_block: Set<Seq<char>>,
    custom: Seq<DnsCustomDomain>,
    device_id: i64,
) -> Set<Seq<char>> {
    global_block.union(custom_domains(custom, Some(device_id), "block"@)).difference(
        custom_domains(custom, Some(device_id), "allow"@),
    )
}

/// The blocklist of a phone by category: the feeds that are on for it, then
/// what is blocked by hand, if anything is.
pub open spec fn phone_blocklist(
    compiled: Seq<FeedView>,
    global_block: Set<Seq<char>>,
    feeds: Seq<DnsBlocklist>,
    overrides: Seq<DeviceBlocklistOverride>,
    custom: Seq<DnsCustomDomain>,
    device_id: i64,
) -> Seq<(Seq<char>, Set<Seq<char>>)> {
    let allow = custom_domains(custom, Some(device_id), "allow"@);
    let listed = feed_categories(compiled, feeds, overrides, device_id, allow);
    let by_hand = hand_blocked(global_block, custom, device_id);
    if by_hand == Set::<Seq<char>>::empty() {
        listed
    } else {
        listed.push(("Custom"@, by_hand))
    }
}

/// The category holds exactly these domains, in order.
pub open spec fn lists(c: DnsBlocklistCategory, value: (Seq<char>, Set<Seq<char>>)) -> bool {
    c.category@ == value.0 && views(c.domains@) == in_text_order(value.1)
}

/// The blocklist of a phone.
pub fn dns_blocklist(
    compiled: &CompiledBlocklist,
    feeds: &Vec<DnsBlocklist>,
    overrides: &Vec<DeviceBlocklistOverride>,
    custom: &Vec<DnsCustomDomain>,
    device_id: i64,
) -> (r: Vec<DnsBlocklistCategory>)
    requires
        compiled.wf(),
    ensures
        ({
            let wanted = phone_blocklist(
                compiled@.feeds,
                compiled@.block,
                feeds@,
                overrides@,
                custom@,
                device_id,
            );
            &&& r@.len() == wanted.len()
            &&& forall|i: int| 0 <= i < r@.len() ==> lists(#[trigger] r@[i], wanted[i])
        }),
{
    let allow = custom_set(custom, Some(device_id), "allow");
    let ghost all = compiled@.feeds;
    let mut r: Vec<DnsBlocklistCategory> = Vec::new();
    let mut i: usize = 0;
    while i < compiled.lists.len()
        invariant
            compiled.wf(),
            allow.wf(),
            all == compiled@.feeds,
            i <= compiled.lists@.len(),
            ({
                let wanted = feed_categories(
                    all.take(i as int),
                    feeds@,
                    overrides@,
                    device_id,
                    allow@,
                );
                &&& r@.len() == wanted.len()
                &&& forall|j: int| 0 <= j < r@.len() ==> lists(#[trigger] r@[j], wanted[j])
            }),
        decreases compiled.lists@.len() - i,
    {
        let list = &compiled.lists[i];
        proof {
            assert(all.take(i + 1).drop_last() =~= all.take(i as int));
            assert(all.take(i + 1).last() == list@);
        }
        if feed_is_on(feeds, overrides, device_id, list.blocklist_id) {
            let left = without(&list.domains, &allow);
            proof {
                lemma_in_text_order(left);
            }
            r.push(DnsBlocklistCategory { category: list.category.clone(), domains: left.to_list() });
        }
        i += 1;
    }
    proof {
        assert(all.take(i as int) =~= all);
    }
    let mine = custom_set(custom, Some(device_id), "block");
    let by_hand = without(&together(&compiled.global_custom_block, &mine), &allow);
    proof {
        lemma_in_text_order(by_hand);
        if by_hand.listed().len() > 0 {
            assert(by_hand@.contains(by_hand.listed()[0]));
        } else {
            assert(by_hand@ =~= Set::empty());
        }
    }
    if by_hand.len() > 0 {
        r.push(DnsBlocklistCategory { category: "Custom".to_owned(), domains: by_hand.to_list() });
    }
    r
}

/// What is allowed for a phone is in none of the categories of its blocklist.
pub proof fn law_allowed_for_the_phone_is_not_blocked(
    compiled: Seq<FeedView>,
    global_block: Set<Seq<char>>,
    feeds: Seq<DnsBlocklist>,
    overrides: Seq<DeviceBlocklistOverride>,
    custom: Seq<DnsCustomDomain>,
    device_id: i64,
    domain: Seq<char>,
    i: int,
)
    requires
        custom_domains(custom, Some(device_id), "allow"@).contains(domain),
        0 <= i < phone_blocklist(
            compiled,
            global_block,
            feeds,
            overrides,
            custom,
            device_id,
        ).len(),
    ensures
        !phone_blocklist(
            compiled,
            global_block,
            feeds,
            overrides,
            custom,
            device_id,
        )[i].1.contains(domain),
{
    let allow = custom_domains(custom, Some(device_id), "allow"@);
    let listed = feed_categories(compiled, feeds, overrides, device_id, allow);
    if i < listed.len() {
        lemma_categories(compiled, feeds, overrides, device_id, allow, i);
    }
}

proof fn lemma_categories(
    compiled: Seq<FeedView>,
    feeds: Seq<DnsBlocklist>,
    overrides: Seq<DeviceBlocklistOverride>,
    device_id: i64,
    allow: Set<Seq<char>>,
    i: int,
)
    requires
        0 <= i < feed_categories(compiled, feeds, overrides, device_id, allow).len(),
    ensures
        forall|d: Seq<char>| #[trigger]
            feed_categories(compiled, feeds, overrides, device_id, allow)[i].1.contains(d)
                ==> !allow.contains(d),
    decreases compiled.len(),
{
    let fewer = feed_categories(compiled.drop_last(), feeds, overrides, device_id, allow);
    if i < fewer.len() {
        lemma_categories(compiled.drop_last(), feeds, overrides, device_id, allow, i);
    }
}

/// A feed that is on for a phone is in its blocklist, even if it is off for
/// all others.
pub proof fn law_feeds_that_are_on_are_served(
    compiled: Seq<FeedView>,
    global_block: Set<Seq<char>>,
    feeds: Seq<DnsBlocklist>,
    overrides: Seq<DeviceBlocklistOverride>,
    custom: Seq<DnsCustomDomain>,
    device_id: i64,
    k: int,
)
    requires
        0 <= k < compiled.len(),
        is_on(feeds, overrides, device_id, compiled[k].id),
    ensures
        phone_blocklist(compiled, global_block, feeds, overrides, custom, device_id).contains(
            (
                compiled[k].category,
                compiled[k].domains.difference(
                    custom_domains(custom, Some(device_id), "allow"@),
                ),
            ),
        ),
{
    let allow = custom_domains(custom, Some(device_id), "allow"@);
    let listed = feed_categories(compiled, feeds, overrides, device_id, allow);
    let value = (compiled[k].category, compiled[k].domains.difference(allow));
    lemma_served(compiled, feeds, overrides, device_id, allow, k);
    let i = choose|i: int| 0 <= i < listed.len() && listed[i] == value;
    assert(phone_blocklist(compiled, global_block, feeds, overrides, custom, device_id)[i] == value);
}

proof fn lemma_served(
    compiled: Seq<FeedView>,
    feeds: Seq<DnsBlocklist>,
    overrides: Seq<DeviceBlocklistOverride>,
    device_id: i64,
    allow: Set<Seq<char>>,
    k: int,
)
    requires
        0 <= k < compiled.len(),
        is_on(feeds, overrides, device_id, compiled[k].id),
    ensures
        feed_categories(compiled, feeds, overrides, device_id, allow).contains(
            (compiled[k].category, compiled[k].domains.difference(allow)),
        ),
    decreases compiled.len(),
{
    let value = (compiled[k].category, compiled[k].domains.difference(allow));
    let listed = feed_categories(compiled, feeds, overrides, device_id, allow);
    if k == compiled.len() - 1 {
        assert(listed[listed.len() - 1] == value);
    } else {
        let fewer = feed_categories(compiled.drop_last(), feeds, overrides, device_id, allow);
        lemma_served(compiled.drop_last(), feeds, overrides, device_id, allow, k);
        let i = choose|i: int| 0 <= i < fewer.len() && fewer[i] == value;
        assert(listed[i] == value);
    }
}

/// The numbers of the feeds.
pub open spec fn blocklist_ids(feeds: Seq<DnsBlocklist>) -> Seq<int> {
    Seq::new(feeds.len(), |i: int| feeds[i].id as int)
}

/// Which feeds are on for a phone, by number.
pub open spec fn switches(
    feeds: Seq<DnsBlocklist>,
    overrides: Seq<DeviceBlocklistOverride>,
    device_id: i64,
    ids: Seq<int>,
) -> Seq<(int, bool)> {
    Seq::new(ids.len(), |i: int| (ids[i], is_on(feeds, overrides, device_id, ids[i])))
}

/// A switch on a line of its own.
pub open spec fn switch_line(switch: (int, bool)) -> Seq<char> {
    number_text(switch.0) + seq!['='] + (flag_text(switch.1) + seq!['\n'])
}

/// A list of switches, behind the number of them.
pub open spec fn switches_text(switches: Seq<(int, bool)>) -> Seq<char> {
    number_text(switches.len() as int) + seq![';'] + joined(
        switches.map_values(|switch: (int, bool)| switch_line(switch)),
    )
}

/// What the version of a phone's blocklist is taken of: everything that the
/// blocklist is made of.
pub open spec fn version_text(
    content_hash: Seq<char>,
    feeds: Seq<DnsBlocklist>,
    overrides: Seq<DeviceBlocklistOverride>,
    custom: Seq<DnsCustomDomain>,
    device_id: i64,
) -> Seq<char> {
    content_hash + seq!['\n'] + (switches_text(
        switches(feeds, overrides, device_id, sorted_numbers(blocklist_ids(feeds))),
    ) + (packed(in_text_order(custom_domains(custom, Some(device_id), "allow"@))) + packed(
        in_text_order(custom_domains(custom, Some(device_id), "block"@)),
    )))
}

/// The version of a phone's blocklist. It takes in the compiled feeds, which
/// of them are on for the phone, and the domains listed by hand for it.
pub fn dns_filter_version(
    content_hash: &str,
    feeds: &Vec<DnsBlocklist>,
    overrides: &Vec<DeviceBlocklistOverride>,
    custom: &Vec<DnsCustomDomain>,
    device_id: i64,
) -> (r: String)
    ensures
        r@ == token_digest(version_text(content_hash@, feeds@, overrides@, custom@, device_id)),
{
    let mut ids: Vec<i64> = Vec::new();
    let mut i: usize = 0;
    while i < feeds.len()
        invariant
            i <= feeds@.len(),
            ids@.len() == i,
            forall|j: int| 0 <= j < i ==> ids@[j] == (#[trigger] feeds@[j]).id,
        decreases feeds@.len() - i,
    {
        ids.push(feeds[i].id);
        i += 1;
    }
    proof {
        assert(numbers(ids@) =~= blocklist_ids(feeds@));
    }
    let in_order = sort_numbers(&ids);
    let ghost ordered = numbers(in_order@);
    let ghost on = switches(feeds@, overrides@, device_id, ordered);
    let ghost lines = on.map_values(|switch: (int, bool)| switch_line(switch));
    let mut out = content_hash.to_owned();
    out.push('\n');
    out.append(u64_text(in_order.len() as u64).as_str());
    out.push(';');
    let ghost start = out@;
    let mut k: usize = 0;
    proof {
        assert(start =~= content_hash@ + seq!['\n'] + (number_text(on.len() as int) + seq![';']));
        assert(out@ =~= start + joined(lines.take(0)));
    }
    while k < in_order.len()
        invariant
            ordered == numbers(in_order@),
            on == switches(feeds@, overrides@, device_id, ordered),
            lines == on.map_values(|switch: (int, bool)| switch_line(switch)),
            k <= in_order@.len(),
            out@ == start + joined(lines.take(k as int)),
        decreases in_order@.len() - k,
    {
        let id = in_order[k];
        let ghost before = out@;
        out.append(i64_text(id).as_str());
        out.push('=');
        out.append(flag_word(feed_is_on(feeds, overrides, device_id, id)));
        out.push('\n');
        proof {
            let next = lines.take(k + 1);
            assert(next.drop_last() =~= lines.take(k as int));
            assert(ordered[k as int] == id as int);
            assert(next.last() == switch_line(on[k as int]));
            assert(out@ =~= before + switch_line(on[k as int]));
            assert(out@ =~= start + joined(next));
        }
        k += 1;
    }
    let ghost head = out@;
    proof {
        assert(lines.take(k as int) =~= lines);
        assert(head =~= content_hash@ + seq!['\n'] + switches_text(on));
    }
    push_packed(&mut out, &custom_set(custom, Some(device_id), "allow"));
    push_packed(&mut out, &custom_set(custom, Some(device_id), "block"));
    proof {
        assert(out@ =~= version_text(content_hash@, feeds@, overrides@, custom@, device_id));
    }
    hash_token(out.as_str())
}

// ----- what the version tells -----

proof fn lemma_same_switch_lines(
    s: Seq<(int, bool)>,
    t: Seq<(int, bool)>,
    x: Seq<char>,
    y: Seq<char>,
)
    requires
        s.len() == t.len(),
        joined(s.map_values(|switch: (int, bool)| switch_line(switch))) + x == joined(
            t.map_values(|switch: (int, bool)| switch_line(switch)),
        ) + y,
    ensures
        s == t,
        x == y,
    decreases s.len(),
{
    let line = |switch: (int, bool)| switch_line(switch);
    let a = s.map_values(line);
    let b = t.map_values(line);
    if s.len() == 0 {
        assert(joined(a) + x =~= x);
        assert(joined(b) + y =~= y);
        assert(s =~= t);
    } else {
        lemma_joined_first(a);
        lemma_joined_first(b);
        let rest_a = joined(a.skip(1)) + x;
        let rest_b = joined(b.skip(1)) + y;
        let flag_a = flag_text(s[0].1);
        let flag_b = flag_text(t[0].1);
        assert(joined(a) + x =~= number_text(s[0].0) + seq!['='] + (flag_a + seq!['\n'] + rest_a));
        assert(joined(b) + y =~= number_text(t[0].0) + seq!['='] + (flag_b + seq!['\n'] + rest_b));
        lemma_same_numbers(
            s[0].0,
            t[0].0,
            '=',
            flag_a + seq!['\n'] + rest_a,
            flag_b + seq!['\n'] + rest_b,
        );
        lemma_flag_text(s[0].1);
        lemma_flag_text(t[0].1);
        lemma_same_halves(flag_a, flag_b, '\n', rest_a, rest_b);
        assert(a.skip(1) =~= s.skip(1).map_values(line));
        assert(b.skip(1) =~= t.skip(1).map_values(line));
        lemma_same_switch_lines(s.skip(1), t.skip(1), x, y);
        assert(s =~= seq![s[0]] + s.skip(1));
        assert(t =~= seq![t[0]] + t.skip(1));
    }
}

proof fn lemma_same_switches(
    s: Seq<(int, bool)>,
    t: Seq<(int, bool)>,
    x: Seq<char>,
    y: Seq<char>,
)
    requires
        switches_text(s) + x == switches_text(t) + y,
    ensures
        s == t,
        x == y,
{
    let a = joined(s.map_values(|switch: (int, bool)| switch_line(switch)));
    let b = joined(t.map_values(|switch: (int, bool)| switch_line(switch)));
    assert(switches_text(s) + x =~= number_text(s.len() as int) + seq![';'] + (a + x));
    assert(switches_text(t) + y =~= number_text(t.len() as int) + seq![';'] + (b + y));
    lemma_same_numbers(s.len() as int, t.len() as int, ';', a + x, b + y);
    lemma_same_switch_lines(s, t, x, y);
}

/// A feed that is on is among the feeds.
proof fn lemma_on_is_listed(
    feeds: Seq<DnsBlocklist>,
    overrides: Seq<DeviceBlocklistOverride>,
    device_id: i64,
    id: int,
)
    requires
        is_on(feeds, overrides, device_id, id),
    ensures
        blocklist_ids(feeds).contains(id),
    decreases feeds.len(),
{
    if feeds[0].id == id {
        assert(blocklist_ids(feeds)[0] == id);
    } else {
        let rest = feeds.skip(1);
        assert(feed_with(feeds, id) == feed_with(rest, id));
        lemma_on_is_listed(rest, overrides, device_id, id);
        let i = choose|i: int| 0 <= i < rest.len() && blocklist_ids(rest)[i] == id;
        assert(blocklist_ids(feeds)[i + 1] == id);
    }
}

/// What the list of switches says of a feed that is on.
proof fn lemma_switch_of(
    feeds: Seq<DnsBlocklist>,
    overrides: Seq<DeviceBlocklistOverride>,
    device_id: i64,
    id: int,
)
    requires
        is_on(feeds, overrides, device_id, id),
    ensures
        switches(feeds, overrides, device_id, sorted_numbers(blocklist_ids(feeds))).contains(
            (id, true),
        ),
{
    let ids = blocklist_ids(feeds);
    let ordered = sorted_numbers(ids);
    lemma_on_is_listed(feeds, overrides, device_id, id);
    lemma_sorted_numbers(ids);
    vstd::seq_lib::to_multiset_contains(ids, id);
    vstd::seq_lib::to_multiset_contains(ordered, id);
    assert(ordered.contains(id));
    let i = choose|i: int| 0 <= i < ordered.len() && ordered[i] == id;
    assert(switches(feeds, overrides, device_id, ordered)[i] == (id, true));
}

proof fn lemma_same_categories(
    compiled: Seq<FeedView>,
    feeds_a: Seq<DnsBlocklist>,
    overrides_a: Seq<DeviceBlocklistOverride>,
    feeds_b: Seq<DnsBlocklist>,
    overrides_b: Seq<DeviceBlocklistOverride>,
    device_id: i64,
    allow: Set<Seq<char>>,
)
    requires
        forall|id: int|
            is_on(feeds_a, overrides_a, device_id, id) == #[trigger] is_on(
                feeds_b,
                overrides_b,
                device_id,
                id,
            ),
    ensures
        feed_categories(compiled, feeds_a, overrides_a, device_id, allow) == feed_categories(
            compiled,
            feeds_b,
            overrides_b,
            device_id,
            allow,
        ),
    decreases compiled.len(),
{
    if compiled.len() > 0 {
        lemma_same_categories(
            compiled.drop_last(),
            feeds_a,
            overrides_a,
            feeds_b,
            overrides_b,
            device_id,
            allow,
        );
        assert(is_on(feeds_a, overrides_a, device_id, compiled.last().id) == is_on(
            feeds_b,
            overrides_b,
            device_id,
            compiled.last().id,
        ));
    }
}

/// What the version is taken of tells everything that it is made of.
proof fn lemma_same_version(
    hash_a: Seq<char>,
    feeds_a: Seq<DnsBlocklist>,
    overrides_a: Seq<DeviceBlocklistOverride>,
    custom_a: Seq<DnsCustomDomain>,
    hash_b: Seq<char>,
    feeds_b: Seq<DnsBlocklist>,
    overrides_b: Seq<DeviceBlocklistOverride>,
    custom_b: Seq<DnsCustomDomain>,
    device_id: i64,
)
    requires
        !hash_a.contains('\n'),
        !hash_b.contains('\n'),
        version_text(hash_a, feeds_a, overrides_a, custom_a, device_id) == version_text(
            hash_b,
            feeds_b,
            overrides_b,
            custom_b,
            device_id,
        ),
    ensures
        hash_a == hash_b,
        forall|id: int|
            is_on(feeds_a, overrides_a, device_id, id) == #[trigger] is_on(
                feeds_b,
                overrides_b,
                device_id,
                id,
            ),
        custom_domains(custom_a, Some(device_id), "allow"@) == custom_domains(
            custom_b,
            Some(device_id),
            "allow"@,
        ),
        custom_domains(custom_a, Some(device_id), "block"@) == custom_domains(
            custom_b,
            Some(device_id),
            "block"@,
        ),
{
    let on_a = switches(feeds_a, overrides_a, device_id, sorted_numbers(blocklist_ids(feeds_a)));
    let on_b = switches(feeds_b, overrides_b, device_id, sorted_numbers(blocklist_ids(feeds_b)));
    let allow_a = custom_domains(custom_a, Some(device_id), "allow"@);
    let allow_b = custom_domains(custom_b, Some(device_id), "allow"@);
    let block_a = custom_domains(custom_a, Some(device_id), "block"@);
    let block_b = custom_domains(custom_b, Some(device_id), "block"@);
    let allow_text_a = packed(in_text_order(allow_a));
    let allow_text_b = packed(in_text_order(allow_b));
    let block_text_a = packed(in_text_order(block_a));
    let block_text_b = packed(in_text_order(block_b));
    lemma_same_halves(
        hash_a,
        hash_b,
        '\n',
        switches_text(on_a) + (allow_text_a + block_text_a),
        switches_text(on_b) + (allow_text_b + block_text_b),
    );
    lemma_same_switches(on_a, on_b, allow_text_a + block_text_a, allow_text_b + block_text_b);
    lemma_same_packed(
        in_text_order(allow_a),
        in_text_order(allow_b),
        block_text_a,
        block_text_b,
    );
    assert(block_text_a + Seq::<char>::empty() =~= block_text_b + Seq::<char>::empty());
    lemma_same_packed(
        in_text_order(block_a),
        in_text_order(block_b),
        Seq::empty(),
        Seq::empty(),
    );
    lemma_custom_in_order(custom_a, Some(device_id), "allow"@);
    lemma_custom_in_order(custom_b, Some(device_id), "allow"@);
    lemma_custom_in_order(custom_a, Some(device_id), "block"@);
    lemma_custom_in_order(custom_b, Some(device_id), "block"@);
    assert forall|id: int|
        is_on(feeds_a, overrides_a, device_id, id) == #[trigger] is_on(
            feeds_b,
            overrides_b,
            device_id,
            id,
        ) by {
        if is_on(feeds_a, overrides_a, device_id, id) {
            lemma_switch_of(feeds_a, overrides_a, device_id, id);
            let i = choose|i: int| 0 <= i < on_b.len() && on_b[i] == (id, true);
            assert(on_b[i].0 == id);
        }
        if is_on(feeds_b, overrides_b, device_id, id) {
            lemma_switch_of(feeds_b, overrides_b, device_id, id);
            let i = choose|i: int| 0 <= i < on_a.len() && on_a[i] == (id, true);
            assert(on_a[i].0 == id);
        }
    }
}

/// A phone whose version has not changed has the blocklist that it would be
/// served from the same compiled lists: the version takes in everything else
/// that the blocklist is made of.
pub proof fn law_same_version_same_blocklist(
    compiled: Seq<FeedView>,
    global_block: Set<Seq<char>>,
    hash_a: Seq<char>,
    feeds_a: Seq<DnsBlocklist>,
    overrides_a: Seq<DeviceBlocklistOverride>,
    custom_a: Seq<DnsCustomDomain>,
    hash_b: Seq<char>,
    feeds_b: Seq<DnsBlocklist>,
    overrides_b: Seq<DeviceBlocklistOverride>,
    custom_b: Seq<DnsCustomDomain>,
    device_id: i64,
)
    requires
        !hash_a.contains('\n'),
        !hash_b.contains('\n'),
        version_text(hash_a, feeds_a, overrides_a, custom_a, device_id) == version_text(
            hash_b,
            feeds_b,
            overrides_b,
            custom_b,
            device_id,
        ),
    ensures
        hash_a == hash_b,
        phone_blocklist(compiled, global_block, feeds_a, overrides_a, custom_a, device_id)
            == phone_blocklist(compiled, global_block, feeds_b, overrides_b, custom_b, device_id),
{
    lemma_same_version(
        hash_a,
        feeds_a,
        overrides_a,
        custom_a,
        hash_b,
        feeds_b,
        overrides_b,
        custom_b,
        device_id,
    );
    lemma_same_categories(
        compiled,
        feeds_a,
        overrides_a,
        feeds_b,
        overrides_b,
        device_id,
        custom_domains(custom_a, Some(device_id), "allow"@),
    );
}

/// All the domains of a phone's blocklist, whatever their category.
pub open spec fn all_blocked(list: Seq<(Seq<char>, Set<Seq<char>>)>) -> Set<Seq<char>> {
    Set::new(|d: Seq<char>| exists|i: int| 0 <= i < list.len() && (#[trigger] list[i]).1.contains(d))
}

/// The domain is in a feed that is on for a phone.
pub open spec fn in_a_feed(
    compiled: Seq<FeedView>,
    feeds: Seq<DnsBlocklist>,
    overrides: Seq<DeviceBlocklistOverride>,
    device_id: i64,
    d: Seq<char>,
) -> bool {
    exists|k: int|
        0 <= k < compiled.len() && (#[trigger] compiled[k]).domains.contains(d) && is_on(
            feeds,
            overrides,
            device_id,
            compiled[k].id,
        )
}

proof fn lemma_feeds_block(
    compiled: Seq<FeedView>,
    feeds: Seq<DnsBlocklist>,
    overrides: Seq<DeviceBlocklistOverride>,
    device_id: i64,
    allow: Set<Seq<char>>,
    d: Seq<char>,
)
    ensures
        all_blocked(feed_categories(compiled, feeds, overrides, device_id, allow)).contains(d)
            <==> !allow.contains(d) && in_a_feed(compiled, feeds, overrides, device_id, d),
    decreases compiled.len(),
{
    let listed = feed_categories(compiled, feeds, overrides, device_id, allow);
    if compiled.len() > 0 {
        let fewer = compiled.drop_last();
        let before = feed_categories(fewer, feeds, overrides, device_id, allow);
        let feed = compiled.last();
        lemma_feeds_block(fewer, feeds, overrides, device_id, allow, d);
        if in_a_feed(fewer, feeds, overrides, device_id, d) {
            let k = choose|k: int|
                0 <= k < fewer.len() && (#[trigger] fewer[k]).domains.contains(d) && is_on(
                    feeds,
                    overrides,
                    device_id,
                    fewer[k].id,
                );
            assert(compiled[k] == fewer[k]);
        }
        if in_a_feed(compiled, feeds, overrides, device_id, d) {
            let k = choose|k: int|
                0 <= k < compiled.len() && (#[trigger] compiled[k]).domains.contains(d) && is_on(
                    feeds,
                    overrides,
                    device_id,
                    compiled[k].id,
                );
            if k < fewer.len() {
                assert(fewer[k] == compiled[k]);
            } else if !allow.contains(d) {
                assert(listed[listed.len() - 1].1.contains(d));
            }
        }
        if all_blocked(before).contains(d) {
            let i = choose|i: int| 0 <= i < before.len() && (#[trigger] before[i]).1.contains(d);
            assert(listed[i] == before[i]);
        }
        if all_blocked(listed).contains(d) {
            let i = choose|i: int| 0 <= i < listed.len() && (#[trigger] listed[i]).1.contains(d);
            if i < before.len() {
                assert(before[i] == listed[i]);
            } else {
                assert(compiled[compiled.len() - 1].domains.contains(d));
            }
        }
    }
}

proof fn lemma_phone_blocks(
    compiled: Seq<FeedView>,
    global_block: Set<Seq<char>>,
    feeds: Seq<DnsBlocklist>,
    overrides: Seq<DeviceBlocklistOverride>,
    custom: Seq<DnsCustomDomain>,
    device_id: i64,
    d: Seq<char>,
)
    ensures
        all_blocked(
            phone_blocklist(compiled, global_block, feeds, overrides, custom, device_id),
        ).contains(d) <==> hand_blocked(global_block, custom, device_id).contains(d) || (
        !custom_domains(custom, Some(device_id), "allow"@).contains(d) && in_a_feed(
            compiled,
            feeds,
            overrides,
            device_id,
            d,
        )),
{
    let allow = custom_domains(custom, Some(device_id), "allow"@);
    let listed = feed_categories(compiled, feeds, overrides, device_id, allow);
    let by_hand = hand_blocked(global_block, custom, device_id);
    let list = phone_blocklist(compiled, global_block, feeds, overrides, custom, device_id);
    lemma_feeds_block(compiled, feeds, overrides, device_id, allow, d);
    if by_hand != Set::<Seq<char>>::empty() {
        assert(list[listed.len() as int].1 == by_hand);
        if all_blocked(listed).contains(d) {
            let i = choose|i: int| 0 <= i < listed.len() && (#[trigger] listed[i]).1.contains(d);
            assert(list[i] == listed[i]);
        }
        if all_blocked(list).contains(d) {
            let i = choose|i: int| 0 <= i < list.len() && (#[trigger] list[i]).1.contains(d);
            if i < listed.len() {
                assert(listed[i] == list[i]);
            }
        }
    }
}

/// A phone blocks what is blocked by hand for every phone, what is blocked by
/// hand for it, and what is in a feed that is on for it, but for what is
/// allowed by hand for it; and nothing else.
pub proof fn law_what_a_phone_blocks(
    compiled: Seq<FeedView>,
    global_block: Set<Seq<char>>,
    feeds: Seq<DnsBlocklist>,
    overrides: Seq<DeviceBlocklistOverride>,
    custom: Seq<DnsCustomDomain>,
    device_id: i64,
    d: Seq<char>,
)
    ensures
        ({
            let list = phone_blocklist(
                compiled,
                global_block,
                feeds,
                overrides,
                custom,
                device_id,
            );
            let blocked = exists|i: int| 0 <= i < list.len() && (#[trigger] list[i]).1.contains(d);
            let allowed_by_hand = exists|i: int|
                0 <= i < custom.len() && (#[trigger] custom[i]).device_id == Some(device_id)
                    && custom[i].list_type@ == "allow"@ && lowercase(custom[i].domain@) == d;
            let blocked_by_hand = exists|i: int|
                0 <= i < custom.len() && (#[trigger] custom[i]).device_id == Some(device_id)
                    && custom[i].list_type@ == "block"@ && lowercase(custom[i].domain@) == d;
            let listed_by_a_feed = exists|k: int|
                0 <= k < compiled.len() && (#[trigger] compiled[k]).domains.contains(d) && is_on(
                    feeds,
                    overrides,
                    device_id,
                    compiled[k].id,
                );
            blocked <==> !allowed_by_hand && (global_block.contains(d) || blocked_by_hand
                || listed_by_a_feed)
        }),
{
    let list = phone_blocklist(compiled, global_block, feeds, overrides, custom, device_id);
    lemma_phone_blocks(compiled, global_block, feeds, overrides, custom, device_id, d);
    assert(all_blocked(list).contains(d) <==> exists|i: int|
        0 <= i < list.len() && (#[trigger] list[i]).1.contains(d));
    lemma_by_hand(custom, device_id, "allow"@, d);
    lemma_by_hand(custom, device_id, "block"@, d);
}

proof fn lemma_by_hand(
    custom: Seq<DnsCustomDomain>,
    device_id: i64,
    kind: Seq<char>,
    d: Seq<char>,
)
    ensures
        custom_domains(custom, Some(device_id), kind).contains(d) <==> exists|i: int|
            0 <= i < custom.len() && (#[trigger] custom[i]).device_id == Some(device_id)
                && custom[i].list_type@ == kind && lowercase(custom[i].domain@) == d,
{
    if exists|i: int|
        0 <= i < custom.len() && (#[trigger] custom[i]).device_id == Some(device_id)
            && custom[i].list_type@ == kind && lowercase(custom[i].domain@) == d {
        let i = choose|i: int|
            0 <= i < custom.len() && (#[trigger] custom[i]).device_id == Some(device_id)
                && custom[i].list_type@ == kind && lowercase(custom[i].domain@) == d;
        assert(listed_for(custom[i], Some(device_id), kind));
    }
}

/// A feed is on for a phone as it was last set for that phone or, where it was
/// not, as it is for all.
pub proof fn law_feeds_are_on_as_set(
    feeds: Seq<DnsBlocklist>,
    overrides: Seq<DeviceBlocklistOverride>,
    device_id: i64,
    k: int,
)
    requires
        0 <= k < feeds.len(),
        blocklist_ids(feeds).no_duplicates(),
    ensures
        (forall|i: int|
            0 <= i < overrides.len() ==> !((#[trigger] overrides[i]).device_id == device_id
                && overrides[i].blocklist_id == feeds[k].id)) ==> is_on(
            feeds,
            overrides,
            device_id,
            feeds[k].id as int,
        ) == feeds[k].enabled,
        forall|m: int|
            0 <= m < overrides.len() && (#[trigger] overrides[m]).device_id == device_id
                && overrides[m].blocklist_id == feeds[k].id && (forall|i: int|
                m < i < overrides.len() ==> !((#[trigger] overrides[i]).device_id == device_id
                    && overrides[i].blocklist_id == feeds[k].id)) ==> is_on(
                feeds,
                overrides,
                device_id,
                feeds[k].id as int,
            ) == overrides[m].enabled,
{
    lemma_feed_with(feeds, k);
    assert forall|m: int|
        0 <= m < overrides.len() && (#[trigger] overrides[m]).device_id == device_id
            && overrides[m].blocklist_id == feeds[k].id && (forall|i: int|
            m < i < overrides.len() ==> !((#[trigger] overrides[i]).device_id == device_id
                && overrides[i].blocklist_id == feeds[k].id)) implies is_on(
        feeds,
        overrides,
        device_id,
        feeds[k].id as int,
    ) == overrides[m].enabled by {
        lemma_last_override(overrides, device_id, feeds[k].id, m);
    }
    if forall|i: int|
        0 <= i < overrides.len() ==> !((#[trigger] overrides[i]).device_id == device_id
            && overrides[i].blocklist_id == feeds[k].id) {
        lemma_no_override(overrides, device_id, feeds[k].id);
    }
}

/// A feed that is no longer there is off.
pub proof fn law_missing_feeds_are_off(
    feeds: Seq<DnsBlocklist>,
    overrides: Seq<DeviceBlocklistOverride>,
    device_id: i64,
    id: int,
)
    requires
        forall|i: int| 0 <= i < feeds.len() ==> (#[trigger] feeds[i]).id != id,
    ensures
        !is_on(feeds, overrides, device_id, id),
{
    if is_on(feeds, overrides, device_id, id) {
        lemma_on_is_listed(feeds, overrides, device_id, id);
        let i = choose|i: int| 0 <= i < feeds.len() && blocklist_ids(feeds)[i] == id;
        assert(feeds[i].id == id);
    }
}

proof fn lemma_feed_with(feeds: Seq<DnsBlocklist>, k: int)
    requires
        0 <= k < feeds.len(),
        blocklist_ids(feeds).no_duplicates(),
    ensures
        feed_with(feeds, feeds[k].id as int) == Some(feeds[k]),
    decreases feeds.len(),
{
    let ids = blocklist_ids(feeds);
    if k > 0 {
        assert(ids[0] != ids[k]);
        let rest = feeds.skip(1);
        assert forall|x: int, y: int| 0 <= x < rest.len() && 0 <= y < rest.len() && x
            != y implies blocklist_ids(rest)[x] != blocklist_ids(rest)[y] by {
            assert(blocklist_ids(rest)[x] == ids[x + 1]);
            assert(blocklist_ids(rest)[y] == ids[y + 1]);
        }
        lemma_feed_with(rest, k - 1);
    }
}

proof fn lemma_no_override(
    overrides: Seq<DeviceBlocklistOverride>,
    device_id: i64,
    blocklist_id: i64,
)
    requires
        forall|i: int|
            0 <= i < overrides.len() ==> !((#[trigger] overrides[i]).device_id == device_id
                && overrides[i].blocklist_id == blocklist_id),
    ensures
        override_of(overrides, device_id, blocklist_id) is None,
    decreases overrides.len(),
{
    if overrides.len() > 0 {
        let fewer = overrides.drop_last();
        assert forall|i: int| 0 <= i < fewer.len() implies !((#[trigger] fewer[i]).device_id
            == device_id && fewer[i].blocklist_id == blocklist_id) by {
            assert(fewer[i] == overrides[i]);
        }
        lemma_no_override(fewer, device_id, blocklist_id);
        assert(overrides.last() == overrides[overrides.len() - 1]);
    }
}

proof fn lemma_last_override(
    overrides: Seq<DeviceBlocklistOverride>,
    device_id: i64,
    blocklist_id: i64,
    m: int,
)
    requires
        0 <= m < overrides.len(),
        overrides[m].device_id == device_id,
        overrides[m].blocklist_id == blocklist_id,
        forall|i: int|
            m < i < overrides.len() ==> !((#[trigger] overrides[i]).device_id == device_id
                && overrides[i].blocklist_id == blocklist_id),
    ensures
        override_of(overrides, device_id, blocklist_id) == Some(overrides[m].enabled),
    decreases overrides.len(),
{
    assert(overrides.last() == overrides[overrides.len() - 1]);
    if m < overrides.len() - 1 {
        let fewer = overrides.drop_last();
        assert forall|i: int| m < i < fewer.len() implies !((#[trigger] fewer[i]).device_id
            == device_id && fewer[i].blocklist_id == blocklist_id) by {
            assert(fewer[i] == overrides[i]);
        }
        lemma_last_override(fewer, device_id, blocklist_id, m);
    }
}

/// The domain is in a feed of one compiled blocklist that is on, if it is in
/// one of another with the same domains under each number.
proof fn lemma_same_feeds_block(
    a: Seq<FeedView>,
    feeds_a: Seq<DnsBlocklist>,
    overrides_a: Seq<DeviceBlocklistOverride>,
    b: Seq<FeedView>,
    feeds_b: Seq<DnsBlocklist>,
    overrides_b: Seq<DeviceBlocklistOverride>,
    device_id: i64,
    d: Seq<char>,
)
    requires
        feed_ids(a).no_duplicates(),
        feed_ids(b).no_duplicates(),
        forall|id: int| #[trigger] feed_ids(a).contains(id) <==> feed_ids(b).contains(id),
        forall|id: int| #[trigger] domains_of(a, id) == domains_of(b, id),
        forall|id: int|
            is_on(feeds_a, overrides_a, device_id, id) == #[trigger] is_on(
                feeds_b,
                overrides_b,
                device_id,
                id,
            ),
        in_a_feed(a, feeds_a, overrides_a, device_id, d),
    ensures
        in_a_feed(b, feeds_b, overrides_b, device_id, d),
{
    let k = choose|k: int|
        0 <= k < a.len() && (#[trigger] a[k]).domains.contains(d) && is_on(
            feeds_a,
            overrides_a,
            device_id,
            a[k].id,
        );
    assert(feed_ids(a)[k] == a[k].id);
    assert(feed_ids(a).contains(a[k].id));
    let j = choose|j: int| 0 <= j < b.len() && feed_ids(b)[j] == a[k].id;
    lemma_domains_of(a, k);
    lemma_domains_of(b, j);
    assert(domains_of(a, a[k].id) == domains_of(b, b[j].id));
    assert(is_on(feeds_b, overrides_b, device_id, b[j].id));
    assert(b[j].domains.contains(d));
}

/// A phone whose version has not changed blocks what it would be told to
/// block, also after the feeds were compiled anew, as far as SHA-256 tells the
/// two contents apart.
pub proof fn law_same_version_same_domains(
    a: CompiledBlocklist,
    feeds_a: Seq<DnsBlocklist>,
    overrides_a: Seq<DeviceBlocklistOverride>,
    custom_a: Seq<DnsCustomDomain>,
    b: CompiledBlocklist,
    feeds_b: Seq<DnsBlocklist>,
    overrides_b: Seq<DeviceBlocklistOverride>,
    custom_b: Seq<DnsCustomDomain>,
    device_id: i64,
)
    requires
        feed_ids(a@.feeds).no_duplicates(),
        feed_ids(b@.feeds).no_duplicates(),
        a@.content_hash == content_hash_of(a@.feeds, a@.block),
        b@.content_hash == content_hash_of(b@.feeds, b@.block),
        told_apart(content_text(a@.feeds, a@.block), content_text(b@.feeds, b@.block)),
        version_text(a@.content_hash, feeds_a, overrides_a, custom_a, device_id) == version_text(
            b@.content_hash,
            feeds_b,
            overrides_b,
            custom_b,
            device_id,
        ),
    ensures
        all_blocked(
            phone_blocklist(a@.feeds, a@.block, feeds_a, overrides_a, custom_a, device_id),
        ) == all_blocked(
            phone_blocklist(b@.feeds, b@.block, feeds_b, overrides_b, custom_b, device_id),
        ),
{
    lemma_hex_text(sha256_of(encode_utf8(content_text(a@.feeds, a@.block))));
    lemma_hex_text(sha256_of(encode_utf8(content_text(b@.feeds, b@.block))));
    lemma_same_version(
        a@.content_hash,
        feeds_a,
        overrides_a,
        custom_a,
        b@.content_hash,
        feeds_b,
        overrides_b,
        custom_b,
        device_id,
    );
    law_same_hash_same_lists(a, b);
    let list_a = phone_blocklist(a@.feeds, a@.block, feeds_a, overrides_a, custom_a, device_id);
    let list_b = phone_blocklist(b@.feeds, b@.block, feeds_b, overrides_b, custom_b, device_id);
    assert forall|d: Seq<char>| all_blocked(list_a).contains(d) <==> all_blocked(list_b).contains(
        d,
    ) by {
        lemma_phone_blocks(a@.feeds, a@.block, feeds_a, overrides_a, custom_a, device_id, d);
        lemma_phone_blocks(b@.feeds, b@.block, feeds_b, overrides_b, custom_b, device_id, d);
        if in_a_feed(a@.feeds, feeds_a, overrides_a, device_id, d) {
            lemma_same_feeds_block(
                a@.feeds,
                feeds_a,
                overrides_a,
                b@.feeds,
                feeds_b,
                overrides_b,
                device_id,
                d,
            );
        }
        if in_a_feed(b@.feeds, feeds_b, overrides_b, device_id, d) {
            lemma_same_feeds_block(
                b@.feeds,
                feeds_b,
                overrides_b,
                a@.feeds,
                feeds_a,
                overrides_a,
                device_id,
                d,
            );
        }
    }
    assert(all_blocked(list_a) =~= all_blocked(list_b));
}

/// The version stays as long as what the blocklist is made of does: the order
/// in which the feeds and the domains were stored does not matter for it.
pub proof fn law_version_is_stable(
    content_hash: Seq<char>,
    feeds_a: Seq<DnsBlocklist>,
    overrides_a: Seq<DeviceBlocklistOverride>,
    custom_a: Seq<DnsCustomDomain>,
    feeds_b: Seq<DnsBlocklist>,
    overrides_b: Seq<DeviceBlocklistOverride>,
    custom_b: Seq<DnsCustomDomain>,
    device_id: i64,
)
    requires
        blocklist_ids(feeds_a).to_multiset() == blocklist_ids(feeds_b).to_multiset(),
        forall|id: int|
            is_on(feeds_a, overrides_a, device_id, id) == #[trigger] is_on(
                feeds_b,
                overrides_b,
                device_id,
                id,
            ),
        custom_domains(custom_a, Some(device_id), "allow"@) == custom_domains(
            custom_b,
            Some(device_id),
            "allow"@,
        ),
        custom_domains(custom_a, Some(device_id), "block"@) == custom_domains(
            custom_b,
            Some(device_id),
            "block"@,
        ),
    ensures
        version_text(content_hash, feeds_a, overrides_a, custom_a, device_id) == version_text(
            content_hash,
            feeds_b,
            overrides_b,
            custom_b,
            device_id,
        ),
{
    lemma_sorted_numbers_same(blocklist_ids(feeds_a), blocklist_ids(feeds_b));
    let ids = sorted_numbers(blocklist_ids(feeds_a));
    assert forall|i: int| 0 <= i < ids.len() implies is_on(
        feeds_a,
        overrides_a,
        device_id,
        ids[i],
    ) == is_on(feeds_b, overrides_b, device_id, ids[i]) by {}
    assert(switches(feeds_a, overrides_a, device_id, ids) =~= switches(
        feeds_b,
        overrides_b,
        device_id,
        ids,
    ));
}

// ----- what holds of these -----

/// A code enrolls the first phone that it was made for, and only strictly before
/// its time is over.
pub proof fn law_codes_enroll_in_their_time(
    devices: Seq<Device>,
    i: int,
    j: int,
    code: Seq<char>,
    now: Seq<char>,
    end: Seq<char>,
)
    requires
        0 <= j < devices.len(),
        devices[j].enrollment_code is Some,
        devices[j].enrollment_code_expires_at is Some,
        devices[j].enrollment_code_expires_at->0@ == end,
    ensures
        code_fits(devices[j], code, now) <==> devices[j].enrollment_code->0@ == code && text_less(
            now,
            end,
        ),
        devices[j].enrollment_code->0@ == code && text_less(now, end) ==> !enrolls_none(
            devices,
            code,
            now,
        ) && (enrolls(devices, i, code, now) ==> 0 <= i <= j),
        enrolls(devices, i, code, now) ==> devices[i].enrollment_code is Some
            && devices[i].enrollment_code->0@ == code
            && devices[i].enrollment_code_expires_at is Some && text_less(
            now,
            devices[i].enrollment_code_expires_at->0@,
        ),
{
}

/// A phone that was enrolled keeps its number and its name, has the digest of its
/// token and the time of its enrollment, and has no code any more.
pub proof fn law_enrolling_leaves_the_rest(
    before: Seq<Device>,
    after: Seq<Device>,
    i: int,
    j: int,
    response: EnrollResponse,
    now: Seq<char>,
)
    requires
        0 <= i < before.len(),
        0 <= j < before.len(),
        enrolled_at(before, after, i, response, now),
    ensures
        after.len() == before.len(),
        response.device_id == before[i].id,
        after[i].id == before[i].id,
        after[i].name@ == before[i].name@,
        after[i].enrollment_code is None,
        after[i].enrollment_code_expires_at is None,
        after[i].token_hash is Some && after[i].token_hash->0@ == hex_text(
            sha256_of(encode_utf8(response.device_token@)),
        ),
        after[i].enrolled_at is Some && after[i].enrolled_at->0@ == now,
        after[i].last_seen_at == before[i].last_seen_at,
        j != i ==> after[j] == before[j],
{
}

/// The apps that are switched on and have a release are offered, under their
/// number, with the tag and, if there is one, the number of the file.
pub proof fn law_releases_are_offered(app: TrackedApp, update: TrackedAppUpdate, tag: Seq<char>)
    requires
        app.latest_release_tag is Some,
        app.latest_release_tag->0@ == tag,
    ensures
        offers(app) <==> app.enabled,
        offer_of(update, app) ==> {
            &&& update.id == app.id
            &&& update.package_name@ == app.package_name@
            &&& update.is_launcher == app.is_launcher
            &&& update.download_url@ == "/api/devices/apps/"@ + number_text(app.id as int)
                + "/download"@
            &&& app.latest_release_asset_id is None ==> update.release_tag@ == tag
            &&& app.latest_release_asset_id matches Some(id) ==> update.release_tag@ == tag + "@"@
                + number_text(id as int)
        },
{
}

/// Without a release there is nothing to offer.
pub proof fn law_nothing_to_offer(app: TrackedApp)
    ensures
        app.latest_release_tag is None || !app.enabled ==> !offers(app),
{
}

/// What is blocked by hand, for all phones or for this one, stands at the end of
/// the list in a category of its own, and each feed that is on in a category
/// that bears its name.
pub proof fn law_categories_bear_their_names(
    compiled: Seq<FeedView>,
    global_block: Set<Seq<char>>,
    feeds: Seq<DnsBlocklist>,
    overrides: Seq<DeviceBlocklistOverride>,
    custom: Seq<DnsCustomDomain>,
    device_id: i64,
    d: Seq<char>,
)
    requires
        global_block.contains(d) || custom_domains(custom, Some(device_id), "block"@).contains(d),
        !custom_domains(custom, Some(device_id), "allow"@).contains(d),
    ensures
        ({
            let list = phone_blocklist(compiled, global_block, feeds, overrides, custom, device_id);
            list.len() > 0 && list.last().0 == "Custom"@ && list.last().1.contains(d)
        }),
        compiled.len() > 0 && is_on(feeds, overrides, device_id, compiled.last().id) ==> ({
            let list = phone_blocklist(compiled, global_block, feeds, overrides, custom, device_id);
            list.len() > 1 && list[list.len() - 2].0 == compiled.last().category
        }),
{
    assert(hand_blocked(global_block, custom, device_id).contains(d));
}

} // verus!
