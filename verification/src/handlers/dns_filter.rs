//! The pages of the DNS filter: feeds, hand-listed domains, and what is on or
//! off for a phone.

use crate::dns_engine::{normal_domain, normalize_domain};
use crate::forms::{field, field_or, FormFields};
use crate::handlers::devices::{number_field, opt_int};
use crate::models::{Device, DeviceBlocklistOverride, DnsBlocklist, DnsCustomDomain};
use crate::numbers::{as_i64, i64_text, lemma_number_text, number_text};
use crate::order::lemma_filter_members;
use crate::security::filled;
use crate::text::{opt_str_view, opt_view, same_text, trim, trimmed};
use vstd::prelude::*;

verus! {

// ----- what is on for a phone -----

/// What was last set for a feed on a phone; nothing if the feed is left as it
/// is for all.
pub open spec fn override_of(
    overrides: Seq<DeviceBlocklistOverride>,
    device_id: i64,
    blocklist_id: i64,
) -> Option<bool>
    decreases overrides.len(),
{
    if overrides.len() == 0 {
        None
    } else if overrides.last().device_id == device_id && overrides.last().blocklist_id
        == blocklist_id {
        Some(overrides.last().enabled)
    } else {
        override_of(overrides.drop_last(), device_id, blocklist_id)
    }
}

/// Whether a feed is on for a phone.
pub open spec fn effective(
    feed: DnsBlocklist,
    overrides: Seq<DeviceBlocklistOverride>,
    device_id: i64,
) -> bool {
    match override_of(overrides, device_id, feed.id) {
        Some(enabled) => enabled,
        None => feed.enabled,
    }
}

/// What was last set for a feed on a phone.
pub fn find_override(
    overrides: &Vec<DeviceBlocklistOverride>,
    device_id: i64,
    blocklist_id: i64,
) -> (r: Option<bool>)
    ensures
        r == override_of(overrides@, device_id, blocklist_id),
{
    let mut i: usize = overrides.len();
    proof {
        assert(overrides@.take(i as int) =~= overrides@);
    }
    while i > 0
        invariant
            i <= overrides@.len(),
            override_of(overrides@, device_id, blocklist_id) == override_of(
                overrides@.take(i as int),
                device_id,
                blocklist_id,
            ),
        decreases i,
    {
        proof {
            assert(overrides@.take(i as int).drop_last() =~= overrides@.take(i - 1));
            assert(overrides@.take(i as int).last() == overrides@[i - 1]);
        }
        i -= 1;
        if overrides[i].device_id == device_id && overrides[i].blocklist_id == blocklist_id {
            return Some(overrides[i].enabled);
        }
    }
    None
}

/// Whether a feed is on for a phone.
pub fn is_effective(
    feed: &DnsBlocklist,
    overrides: &Vec<DeviceBlocklistOverride>,
    device_id: i64,
) -> (r: bool)
    ensures
        r == effective(*feed, overrides@, device_id),
{
    match find_override(overrides, device_id, feed.id) {
        Some(enabled) => enabled,
        None => feed.enabled,
    }
}

/// A feed as the page of a phone shows it.
pub struct BlocklistRow {
    pub blocklist_id: i64,
    pub name: String,
    pub url: String,
    pub effective_enabled: bool,
    pub is_override: bool,
}

/// The lines show the feeds as they are for a phone.
pub open spec fn shows_feeds(
    rows: Seq<BlocklistRow>,
    blocklists: Seq<DnsBlocklist>,
    overrides: Seq<DeviceBlocklistOverride>,
    device_id: i64,
) -> bool {
    &&& rows.len() == blocklists.len()
    &&& forall|i: int|
        0 <= i < rows.len() ==> shows_feed(
            #[trigger] rows[i],
            blocklists[i],
            overrides,
            device_id,
        )
}

/// The line shows a feed as it is for a phone.
pub open spec fn shows_feed(
    row: BlocklistRow,
    feed: DnsBlocklist,
    overrides: Seq<DeviceBlocklistOverride>,
    device_id: i64,
) -> bool {
    &&& row.blocklist_id == feed.id
    &&& row.name@ == feed.name@
    &&& row.url@ == feed.url@
    &&& row.effective_enabled == effective(feed, overrides, device_id)
    &&& row.is_override == override_of(overrides, device_id, feed.id) is Some
}

/// The feeds as the page of a phone shows them.
pub fn blocklist_rows(
    blocklists: &Vec<DnsBlocklist>,
    overrides: &Vec<DeviceBlocklistOverride>,
    device_id: i64,
) -> (r: Vec<BlocklistRow>)
    ensures
        shows_feeds(r@, blocklists@, overrides@, device_id),
{
    let mut rows: Vec<BlocklistRow> = Vec::new();
    let mut i: usize = 0;
    while i < blocklists.len()
        invariant
            i <= blocklists@.len(),
            rows@.len() == i,
            forall|j: int|
                0 <= j < i ==> shows_feed(
                    #[trigger] rows@[j],
                    blocklists@[j],
                    overrides@,
                    device_id,
                ),
        decreases blocklists@.len() - i,
    {
        let feed = &blocklists[i];
        let row = BlocklistRow {
            blocklist_id: feed.id,
            name: feed.name.clone(),
            url: feed.url.clone(),
            effective_enabled: is_effective(feed, overrides, device_id),
            is_override: find_override(overrides, device_id, feed.id).is_some(),
        };
        proof {
            assert(shows_feed(row, *feed, overrides@, device_id));
        }
        rows.push(row);
        i += 1;
    }
    rows
}

/// A phone can have a feed on that is off for all, and the other way round.
pub proof fn law_override_decides(
    feed: DnsBlocklist,
    overrides: Seq<DeviceBlocklistOverride>,
    last: DeviceBlocklistOverride,
)
    requires
        last.blocklist_id == feed.id,
    ensures
        effective(feed, overrides.push(last), last.device_id) == last.enabled,
        forall|other: i64|
            other != last.device_id ==> #[trigger] effective(feed, overrides.push(last), other)
                == effective(feed, overrides, other),
{
    assert(overrides.push(last).drop_last() =~= overrides);
}

/// What a form asks for: an override, or that there be none.
pub fn set_device_blocklist_override(form: &FormFields) -> (r: Option<bool>)
    ensures
        r == if form@.contains_key("clear"@) {
            None::<bool>
        } else {
            Some(form@.contains_key("enabled"@))
        },
{
    if form.contains_key("clear") {
        None
    } else {
        Some(form.contains_key("enabled"))
    }
}

// ----- choosing a phone -----

/// The first phone with the given number.
pub open spec fn device_with(devices: Seq<Device>, id: int) -> Option<int>
    decreases devices.len(),
{
    if devices.len() == 0 {
        None
    } else if devices[0].id == id {
        Some(0)
    } else {
        match device_with(devices.skip(1), id) {
            Some(i) => Some(i + 1),
            None => None,
        }
    }
}

/// The phone that a query string chooses.
pub open spec fn chosen_device(params: Map<Seq<char>, Seq<char>>, devices: Seq<Device>) -> Option<
    int,
> {
    match field(params, "device"@) {
        Some(text) => match as_i64(text) {
            Some(id) => device_with(devices, id),
            None => None,
        },
        None => None,
    }
}

/// The index of the first phone with the given number.
pub fn find_device(devices: &Vec<Device>, id: i64) -> (r: Option<usize>)
    ensures
        match r {
            Some(i) => device_with(devices@, id as int) == Some(i as int) && i < devices@.len()
                && devices@[i as int].id == id,
            None => device_with(devices@, id as int) is None,
        },
{
    let mut i: usize = 0;
    proof {
        assert(devices@.skip(0) =~= devices@);
    }
    while i < devices.len()
        invariant
            i <= devices@.len(),
            device_with(devices@, id as int) == match device_with(
                devices@.skip(i as int),
                id as int,
            ) {
                Some(k) => Some(i + k),
                None => None,
            },
        decreases devices@.len() - i,
    {
        proof {
            assert(devices@.skip(i as int).skip(1) =~= devices@.skip(i + 1));
            assert(devices@.skip(i as int)[0] == devices@[i as int]);
        }
        if devices[i].id == id {
            return Some(i);
        }
        i += 1;
    }
    None
}

/// The index of the phone that a query string chooses.
pub fn selected_device(params: &FormFields, devices: &Vec<Device>) -> (r: Option<usize>)
    ensures
        match r {
            Some(i) => chosen_device(params@, devices@) == Some(i as int) && i < devices@.len(),
            None => chosen_device(params@, devices@) is None,
        },
{
    match number_field(params, "device") {
        Some(id) => find_device(devices, id),
        None => None,
    }
}

/// The number of the phone that a query string chooses; zero if it chooses
/// none.
pub fn selected_id(params: &FormFields, devices: &Vec<Device>) -> (r: i64)
    ensures
        r == match chosen_device(params@, devices@) {
            Some(i) => devices@[i].id as int,
            None => 0,
        },
{
    match selected_device(params, devices) {
        Some(i) => devices[i].id,
        None => 0,
    }
}

// ----- hand-listed domains -----

/// The domains of a list that are blocked, and those that are not.
pub fn partition_custom(custom: Vec<DnsCustomDomain>) -> (r: (
    Vec<DnsCustomDomain>,
    Vec<DnsCustomDomain>,
))
    ensures
        r.0@ == blocked_ones(custom@),
        r.1@ == other_ones(custom@),
{
    let ghost all = custom@;
    let ghost is_block = |d: DnsCustomDomain| d.list_type@ == "block"@;
    let ghost is_other = |d: DnsCustomDomain| d.list_type@ != "block"@;
    let mut rest = custom;
    let mut blocked: Vec<DnsCustomDomain> = Vec::new();
    let mut allowed: Vec<DnsCustomDomain> = Vec::new();
    let n = rest.len();
    let mut i: usize = 0;
    proof {
        reveal(Seq::filter);
        assert(blocked@ =~= all.take(0).filter(is_block));
        assert(allowed@ =~= all.take(0).filter(is_other));
    }
    while i < n
        invariant
            i <= n == all.len(),
            is_block == (|d: DnsCustomDomain| d.list_type@ == "block"@),
            is_other == (|d: DnsCustomDomain| d.list_type@ != "block"@),
            rest@ == all.skip(i as int),
            blocked@ == all.take(i as int).filter(is_block),
            allowed@ == all.take(i as int).filter(is_other),
        decreases n - i,
    {
        let d = rest.remove(0);
        proof {
            reveal(Seq::filter);
            assert(all.take(i + 1).drop_last() =~= all.take(i as int));
            assert(all.take(i + 1).last() == d);
            assert(rest@ =~= all.skip(i + 1));
        }
        if same_text(d.list_type.as_str(), "block") {
            blocked.push(d);
        } else {
            allowed.push(d);
        }
        i += 1;
    }
    proof {
        assert(all.take(i as int) =~= all);
    }
    (blocked, allowed)
}

/// What the page of the filter shows.
pub struct DnsFilterPage {
    pub blocked_domains: Vec<DnsCustomDomain>,
    pub allowed_domains: Vec<DnsCustomDomain>,
    pub tailscale_ip: Option<String>,
    /// The index of the phone that was chosen.
    pub selected: Option<usize>,
    pub selected_id: i64,
    pub device_blocklist_rows: Vec<BlocklistRow>,
    pub device_blocked_domains: Vec<DnsCustomDomain>,
    pub device_allowed_domains: Vec<DnsCustomDomain>,
}

/// The domains that are listed for all phones, or for one.
pub open spec fn scoped(custom: Seq<DnsCustomDomain>, device_id: Option<i64>) -> Seq<
    DnsCustomDomain,
> {
    custom.filter(|d: DnsCustomDomain| d.device_id == device_id)
}

/// The blocked ones of a list of domains.
pub open spec fn blocked_ones(custom: Seq<DnsCustomDomain>) -> Seq<DnsCustomDomain> {
    custom.filter(|d: DnsCustomDomain| d.list_type@ == "block"@)
}

/// The other ones of a list of domains.
pub open spec fn other_ones(custom: Seq<DnsCustomDomain>) -> Seq<DnsCustomDomain> {
    custom.filter(|d: DnsCustomDomain| d.list_type@ != "block"@)
}

/// Takes the domains for all phones and those for one out of a list.
fn split_scopes(custom: Vec<DnsCustomDomain>, device_id: i64) -> (r: (
    Vec<DnsCustomDomain>,
    Vec<DnsCustomDomain>,
))
    ensures
        r.0@ == scoped(custom@, None),
        r.1@ == scoped(custom@, Some(device_id)),
{
    let ghost all = custom@;
    let ghost for_all = |d: DnsCustomDomain| d.device_id == None::<i64>;
    let ghost for_one = |d: DnsCustomDomain| d.device_id == Some(device_id);
    let mut rest = custom;
    let mut common: Vec<DnsCustomDomain> = Vec::new();
    let mut own: Vec<DnsCustomDomain> = Vec::new();
    let n = rest.len();
    let mut i: usize = 0;
    proof {
        reveal(Seq::filter);
        assert(common@ =~= all.take(0).filter(for_all));
        assert(own@ =~= all.take(0).filter(for_one));
    }
    while i < n
        invariant
            i <= n == all.len(),
            for_all == (|d: DnsCustomDomain| d.device_id == None::<i64>),
            for_one == (|d: DnsCustomDomain| d.device_id == Some(device_id)),
            rest@ == all.skip(i as int),
            common@ == all.take(i as int).filter(for_all),
            own@ == all.take(i as int).filter(for_one),
        decreases n - i,
    {
        let d = rest.remove(0);
        proof {
            reveal(Seq::filter);
            assert(all.take(i + 1).drop_last() =~= all.take(i as int));
            assert(all.take(i + 1).last() == d);
            assert(rest@ =~= all.skip(i + 1));
        }
        match d.device_id {
            None => {
                common.push(d);
            },
            Some(id) => {
                if id == device_id {
                    own.push(d);
                }
            },
        }
        i += 1;
    }
    proof {
        assert(all.take(i as int) =~= all);
    }
    (common, own)
}

/// What the page of the filter shows: the domains for all phones and, if one
/// was chosen, its feeds and its own domains. `printed` is what the private
/// network's client printed.
pub fn show_dns_filter(
    params: &FormFields,
    blocklists: &Vec<DnsBlocklist>,
    custom: Vec<DnsCustomDomain>,
    devices: &Vec<Device>,
    overrides: &Vec<DeviceBlocklistOverride>,
    printed: Option<&str>,
) -> (r: DnsFilterPage)
    ensures
        r.blocked_domains@ == blocked_ones(scoped(custom@, None)),
        r.allowed_domains@ == other_ones(scoped(custom@, None)),
        opt_view(r.tailscale_ip) == filled(opt_str_view(printed)),
        match chosen_device(params@, devices@) {
            Some(i) => {
                let id = devices@[i].id;
                &&& r.selected == Some(i as usize)
                &&& r.selected_id == id
                &&& shows_feeds(r.device_blocklist_rows@, blocklists@, overrides@, id)
                &&& r.device_blocked_domains@ == blocked_ones(scoped(custom@, Some(id)))
                &&& r.device_allowed_domains@ == other_ones(scoped(custom@, Some(id)))
            },
            None => {
                &&& r.selected is None
                &&& r.selected_id == 0
                &&& r.device_blocklist_rows@.len() == 0
                &&& r.device_blocked_domains@.len() == 0
                &&& r.device_allowed_domains@.len() == 0
            },
        },
{
    let selected = selected_device(params, devices);
    let tailscale_ip = tailscale_self_ip(printed);
    match selected {
        Some(i) => {
            let id = devices[i].id;
            let (common, own) = split_scopes(custom, id);
            let (blocked_domains, allowed_domains) = partition_custom(common);
            let (device_blocked_domains, device_allowed_domains) = partition_custom(own);
            DnsFilterPage {
                blocked_domains,
                allowed_domains,
                tailscale_ip,
                selected,
                selected_id: id,
                device_blocklist_rows: blocklist_rows(blocklists, overrides, id),
                device_blocked_domains,
                device_allowed_domains,
            }
        },
        None => {
            let (common, _) = split_scopes(custom, 0);
            let (blocked_domains, allowed_domains) = partition_custom(common);
            DnsFilterPage {
                blocked_domains,
                allowed_domains,
                tailscale_ip,
                selected,
                selected_id: 0,
                device_blocklist_rows: Vec::new(),
                device_blocked_domains: Vec::new(),
                device_allowed_domains: Vec::new(),
            }
        },
    }
}

/// The page of the filter, for one phone or for all.
pub open spec fn filter_page(device_id: Option<int>) -> Seq<char> {
    match device_id {
        Some(id) => "/dns?device="@ + number_text(id),
        None => "/dns"@,
    }
}

/// The page of the filter, for one phone or for all.
pub fn dns_url(device_id: Option<i64>) -> (r: String)
    ensures
        r@ == filter_page(opt_int(device_id)),
{
    match device_id {
        Some(id) => {
            let mut r = "/dns?device=".to_owned();
            r.append(i64_text(id).as_str());
            r
        },
        None => "/dns".to_owned(),
    }
}

/// A domain that is about to be listed by hand.
pub struct NewCustomDomain {
    /// Nothing if the form gave no domain.
    pub domain: Option<String>,
    pub list_type: &'static str,
    pub device_id: Option<i64>,
    pub redirect_to: String,
}

/// The domain that a form lists. It is blocked unless it is to be allowed, and
/// for all phones unless the form names one.
pub fn create_custom_domain(form: &FormFields) -> (r: NewCustomDomain)
    ensures
        opt_view(r.domain) == normal_domain(trimmed(field_or(form@, "domain"@, ""@))),
        r.list_type@ == if field(form@, "list_type"@) == Some("allow"@) {
            "allow"@
        } else {
            "block"@
        },
        opt_int(r.device_id) == match field(form@, "device_id"@) {
            Some(text) => as_i64(text),
            None => None,
        },
        r.redirect_to@ == filter_page(opt_int(r.device_id)),
{
    let given = form.get_or("domain", "");
    let domain = normalize_domain(trim(given.as_str()).as_str());
    let list_type = match form.get("list_type") {
        Some(text) => if same_text(text, "allow") {
            "allow"
        } else {
            "block"
        },
        None => "block",
    };
    let device_id = number_field(form, "device_id");
    NewCustomDomain { domain, list_type, device_id, redirect_to: dns_url(device_id) }
}

// ----- settings -----

/// The resolver that a form chooses.
pub fn set_upstream(form: &FormFields) -> (r: &'static str)
    ensures
        r@ == if field(form@, "upstream"@) == Some("quad9"@) {
            "quad9"@
        } else {
            "cloudflare"@
        },
{
    match form.get("upstream") {
        Some(text) => if same_text(text, "quad9") {
            "quad9"
        } else {
            "cloudflare"
        },
        None => "cloudflare",
    }
}

/// The name and the address of the feed that a form adds; nothing if either
/// was left empty.
pub fn create_blocklist(form: &FormFields) -> (r: Option<(String, String)>)
    ensures
        ({
            let name = trimmed(field_or(form@, "name"@, ""@));
            let url = trimmed(field_or(form@, "url"@, ""@));
            match r {
                Some((n, u)) => n@ == name && u@ == url && name.len() > 0 && url.len() > 0,
                None => name.len() == 0 || url.len() == 0,
            }
        }),
{
    let name = trim(form.get_or("name", "").as_str());
    let url = trim(form.get_or("url", "").as_str());
    if name.as_str().is_empty() || url.as_str().is_empty() {
        None
    } else {
        Some((name, url))
    }
}

/// The action that the root-side scripts are asked for when the filter is
/// switched.
pub fn toggle_enabled(form: &FormFields) -> (r: (bool, &'static str))
    ensures
        r.0 == form@.contains_key("enabled"@),
        r.1@ == if r.0 {
            "dns_filter_enable"@
        } else {
            "dns_filter_disable"@
        },
{
    let enabled = form.contains_key("enabled");
    (
        enabled,
        if enabled {
            "dns_filter_enable"
        } else {
            "dns_filter_disable"
        },
    )
}

/// The server's own address in the private network, given what the network's
/// client printed; `None` if it failed.
pub fn tailscale_self_ip(printed: Option<&str>) -> (r: Option<String>)
    ensures
        opt_view(r) == filled(opt_str_view(printed)),
{
    match printed {
        Some(text) => {
            let ip = trim(text);
            if ip.as_str().is_empty() {
                None
            } else {
                Some(ip)
            }
        },
        None => None,
    }
}

// ----- what holds of these -----

/// What was last set for a feed on a phone is what holds there, and is marked as
/// set. Where nothing was set, the feed is as it is for all.
pub proof fn law_lines_show_what_was_last_set(
    rows: Seq<BlocklistRow>,
    blocklists: Seq<DnsBlocklist>,
    overrides: Seq<DeviceBlocklistOverride>,
    device_id: i64,
    i: int,
    k: int,
)
    requires
        shows_feeds(rows, blocklists, overrides, device_id),
        0 <= i < blocklists.len(),
        -1 <= k < overrides.len(),
        k >= 0 ==> overrides[k].device_id == device_id && overrides[k].blocklist_id
            == blocklists[i].id,
        forall|j: int|
            k < j < overrides.len() ==> (#[trigger] overrides[j]).device_id != device_id
                || overrides[j].blocklist_id != blocklists[i].id,
    ensures
        rows.len() == blocklists.len(),
        rows[i].blocklist_id == blocklists[i].id,
        rows[i].name@ == blocklists[i].name@,
        rows[i].url@ == blocklists[i].url@,
        k >= 0 ==> rows[i].effective_enabled == overrides[k].enabled && rows[i].is_override,
        k < 0 ==> rows[i].effective_enabled == blocklists[i].enabled && !rows[i].is_override,
{
    assert(shows_feed(rows[i], blocklists[i], overrides, device_id));
    lemma_last_set(overrides, device_id, blocklists[i].id, k);
}

proof fn lemma_last_set(
    overrides: Seq<DeviceBlocklistOverride>,
    device_id: i64,
    blocklist_id: i64,
    k: int,
)
    requires
        -1 <= k < overrides.len(),
        k >= 0 ==> overrides[k].device_id == device_id && overrides[k].blocklist_id == blocklist_id,
        forall|j: int|
            k < j < overrides.len() ==> (#[trigger] overrides[j]).device_id != device_id
                || overrides[j].blocklist_id != blocklist_id,
    ensures
        override_of(overrides, device_id, blocklist_id) == if k >= 0 {
            Some(overrides[k].enabled)
        } else {
            None
        },
    decreases overrides.len(),
{
    if k < overrides.len() - 1 {
        let fewer = overrides.drop_last();
        let last = overrides[overrides.len() - 1];
        assert(last.device_id != device_id || last.blocklist_id != blocklist_id);
        assert forall|j: int| k < j < fewer.len() implies (#[trigger] fewer[j]).device_id
            != device_id || fewer[j].blocklist_id != blocklist_id by {
            assert(fewer[j] == overrides[j]);
        }
        lemma_last_set(fewer, device_id, blocklist_id, k);
    }
}

/// A query string chooses the first phone that has the number in it, and none
/// where no phone has.
pub proof fn law_phones_are_chosen_by_number(
    params: Map<Seq<char>, Seq<char>>,
    devices: Seq<Device>,
    id: i64,
    k: int,
)
    requires
        field(params, "device"@) == Some(number_text(id as int)),
        0 <= k <= devices.len(),
        k < devices.len() ==> devices[k].id == id,
        forall|j: int| 0 <= j < k ==> (#[trigger] devices[j]).id != id,
    ensures
        chosen_device(params, devices) == if k < devices.len() {
            Some(k)
        } else {
            None
        },
{
    lemma_number_text(id as int);
    lemma_first_with(devices, id, k);
}

proof fn lemma_first_with(devices: Seq<Device>, id: i64, k: int)
    requires
        0 <= k <= devices.len(),
        k < devices.len() ==> devices[k].id == id,
        forall|j: int| 0 <= j < k ==> (#[trigger] devices[j]).id != id,
    ensures
        device_with(devices, id as int) == if k < devices.len() {
            Some(k)
        } else {
            None
        },
    decreases devices.len(),
{
    if k > 0 {
        let rest = devices.skip(1);
        assert(devices[0].id != id);
        assert forall|j: int| 0 <= j < k - 1 implies (#[trigger] rest[j]).id != id by {
            assert(devices[j + 1].id != id);
        }
        lemma_first_with(rest, id, k - 1);
    }
}

/// Without a number there is no phone chosen.
pub proof fn law_no_number_no_phone(params: Map<Seq<char>, Seq<char>>, devices: Seq<Device>)
    requires
        field(params, "device"@) is None || as_i64(field(params, "device"@)->0) is None,
    ensures
        chosen_device(params, devices) is None,
{
}

/// A hand-listed domain is shown where it belongs: with the phone that it is for,
/// or with those for all, and either with the blocked ones or with the others.
pub proof fn law_domains_are_shown_where_they_belong(
    custom: Seq<DnsCustomDomain>,
    device_id: Option<i64>,
    d: DnsCustomDomain,
)
    ensures
        blocked_ones(scoped(custom, device_id)).contains(d) <==> custom.contains(d) && d.device_id
            == device_id && d.list_type@ == "block"@,
        other_ones(scoped(custom, device_id)).contains(d) <==> custom.contains(d) && d.device_id
            == device_id && d.list_type@ != "block"@,
{
    lemma_filter_members(custom, |d: DnsCustomDomain| d.device_id == device_id, d);
    lemma_filter_members(
        scoped(custom, device_id),
        |d: DnsCustomDomain| d.list_type@ == "block"@,
        d,
    );
    lemma_filter_members(
        scoped(custom, device_id),
        |d: DnsCustomDomain| d.list_type@ != "block"@,
        d,
    );
}

/// Every phone has a page of its own, and none that of all phones.
pub proof fn law_pages_are_told_apart(a: int, b: int)
    ensures
        filter_page(Some(a)) == filter_page(Some(b)) <==> a == b,
        filter_page(Some(a)) != filter_page(None),
{
    reveal_strlit("/dns?device=");
    reveal_strlit("/dns");
    lemma_number_text(a);
    lemma_number_text(b);
    if filter_page(Some(a)) == filter_page(Some(b)) {
        assert(filter_page(Some(a)).skip(12) =~= number_text(a));
        assert(filter_page(Some(b)).skip(12) =~= number_text(b));
    }
    assert(filter_page(None).len() == 4);
}

} // verus!
