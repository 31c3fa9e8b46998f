use kid_phone_server::dns_engine::{
    compile_blocklist, content_hash, custom_set, domain_of_line, domains_of_feed,
    empty_compiled_blocklist, normalize_domain, together, without, CompiledBlocklist, CompiledList,
};
use kid_phone_server::forms::FormFields;
use kid_phone_server::handlers::device_api::{dns_blocklist, dns_filter_version, feed_is_on};
use kid_phone_server::handlers::dns_filter::{
    blocklist_rows, create_blocklist, create_custom_domain, dns_url, find_override, is_effective,
    partition_custom, selected_device, selected_id, set_device_blocklist_override, set_upstream,
    show_dns_filter, tailscale_self_ip, toggle_enabled,
};
use kid_phone_server::models::{Device, DeviceBlocklistOverride, DnsBlocklist, DnsCustomDomain};
use kid_phone_server::order::TextSet;
use kid_phone_server::security::hash_token;

fn feed(id: i64, name: &str, enabled: bool) -> DnsBlocklist {
    DnsBlocklist {
        id,
        name: name.into(),
        url: format!("https://feeds.example/{id}"),
        enabled,
        created_at: String::new(),
    }
}

fn listed(domain: &str, list_type: &str, device_id: Option<i64>) -> DnsCustomDomain {
    DnsCustomDomain {
        id: 0,
        domain: domain.into(),
        list_type: list_type.into(),
        device_id,
        created_at: String::new(),
    }
}

fn switch(device_id: i64, blocklist_id: i64, enabled: bool) -> DeviceBlocklistOverride {
    DeviceBlocklistOverride { device_id, blocklist_id, enabled, updated_at: String::new() }
}

fn form(pairs: &[(&str, &str)]) -> FormFields {
    FormFields { pairs: pairs.iter().map(|(k, v)| (k.to_string(), v.to_string())).collect() }
}

fn device(id: i64) -> Device {
    Device {
        id,
        name: format!("phone {id}"),
        enrollment_code: None,
        enrollment_code_expires_at: None,
        token_hash: None,
        enrolled_at: None,
        last_seen_at: None,
    }
}

fn set(texts: &[&str]) -> TextSet {
    TextSet::from_texts(texts.iter().map(|s| s.to_string()).collect())
}

#[test]
fn lines_of_a_feed_list_domains() {
    let line = |s: &str| domain_of_line(s);
    assert_eq!(line("example.org").as_deref(), Some("example.org"));
    assert_eq!(line("  Example.ORG.  # why").as_deref(), Some("example.org"));
    assert_eq!(line("0.0.0.0 ads.example").as_deref(), Some("ads.example"));
    assert_eq!(line("0.0.0.0   ads.example.. ").as_deref(), Some("ads.example"));
    assert_eq!(line("127.0.0.1 localhost"), None);
    assert_eq!(line("# only a comment"), None);
    assert_eq!(line("   "), None);
    assert_eq!(line("..."), None);
    assert_eq!(line("0.0.0.0 ."), None);
    assert_eq!(line("0.0.0.0\tads.example").as_deref(), Some("0.0.0.0\tads.example"));
}

#[test]
fn domains_are_stored_in_lower_case_without_dots_at_the_end() {
    assert_eq!(normalize_domain("B\u{dc}CHER.Example..").as_deref(), Some("b\u{fc}cher.example"));
    assert_eq!(normalize_domain("..."), None);
}

#[test]
fn a_feed_gives_each_domain_once_without_the_allowed_ones() {
    let got = domains_of_feed("b.org\na.org\nB.org\nok.org\n", &set(&["ok.org"]));
    assert_eq!(got.to_list(), ["a.org", "b.org"]);
    assert_eq!(without(&set(&["a", "b"]), &set(&["b"])).to_list(), ["a"]);
    assert_eq!(together(&set(&["b"]), &set(&["a", "b"])).to_list(), ["a", "b"]);
}

fn compile(bodies: Vec<Option<&str>>, previous: CompiledBlocklist) -> CompiledBlocklist {
    compile_blocklist(
        &vec![feed(2, "ads", false), feed(1, "games", true)],
        &vec![
            listed("Block.org", "block", None),
            listed("Both.org", "block", None),
            listed("both.org", "allow", None),
            listed("mine.org", "block", Some(5)),
        ],
        &bodies.into_iter().map(|b| b.map(String::from)).collect(),
        previous,
    )
}

#[test]
fn feeds_and_custom_domains_are_compiled_and_allowing_wins() {
    let got = compile(
        vec![Some("z.org\nboth.org\n"), Some("0.0.0.0 a.org\n")],
        empty_compiled_blocklist(),
    );
    assert_eq!(got.lists.len(), 2);
    assert_eq!((got.lists[0].blocklist_id, got.lists[0].category.as_str()), (2, "ads"));
    assert_eq!(got.lists[0].domains.to_list(), ["z.org"]);
    assert_eq!(got.lists[1].domains.to_list(), ["a.org"]);
    assert_eq!(got.global_custom_block.to_list(), ["block.org"]);
    assert_eq!(got.global_custom_allow.to_list(), ["both.org"]);
    assert_eq!(got.content_hash, hash_token("2;1:1;5:a.org2:1;5:z.org1;9:block.org"));
}

#[test]
fn an_outage_keeps_the_previous_list() {
    let first = compile(vec![Some("z.org"), None], empty_compiled_blocklist());
    assert_eq!(first.lists[1].domains.len(), 0);
    let hash = first.content_hash.clone();
    let second = compile(vec![None, None], first);
    assert_eq!(second.content_hash, hash);
    assert_eq!(second.lists[0].domains.to_list(), ["z.org"]);
}

#[test]
fn a_feed_that_was_downloaded_takes_effect_though_nothing_is_left_of_it() {
    let feeds = vec![feed(1, "Ads", true)];
    let body = vec![Some("ads.example.com\n".to_string())];
    let before = compile_blocklist(&feeds, &Vec::new(), &body, empty_compiled_blocklist());
    assert_eq!(before.lists[0].domains.to_list(), ["ads.example.com"]);
    let custom = vec![listed("ads.example.com", "allow", None)];
    let after = compile_blocklist(&feeds, &custom, &body, before);
    assert_eq!(after.lists.len(), 1);
    assert_eq!((after.lists[0].blocklist_id, after.lists[0].category.as_str()), (1, "Ads"));
    assert_eq!(after.lists[0].domains.len(), 0);
    assert_eq!(after.global_custom_allow.to_list(), ["ads.example.com"]);
    let emptied = compile(vec![Some("# nothing\n"), None], after);
    assert_eq!(emptied.lists[0].domains.len(), 0);
    assert_eq!(emptied.global_custom_allow.to_list(), ["both.org"]);
}

#[test]
fn without_feeds_the_custom_domains_are_compiled() {
    let got = compile_blocklist(
        &Vec::new(),
        &vec![listed("x.org", "block", None)],
        &Vec::new(),
        empty_compiled_blocklist(),
    );
    assert_eq!(got.content_hash, hash_token("0;1;5:x.org"));
}

#[test]
fn the_content_hash_does_not_depend_on_the_order_of_feeds_or_lines() {
    let list = |id: i64, domains: &[&str]| CompiledList {
        blocklist_id: id,
        category: String::new(),
        domains: set(domains),
    };
    let a = content_hash(&vec![list(1, &["a", "b"]), list(10, &["c"])], &set(&["x"]));
    let b = content_hash(&vec![list(10, &["c"]), list(1, &["b", "a", "b"])], &set(&["x"]));
    assert_eq!(a, b);
    assert_ne!(a, content_hash(&vec![list(1, &["a"]), list(10, &["c"])], &set(&["x"])));
    assert_eq!(a.len(), 64);
    assert!(a.chars().all(|c| c.is_ascii_digit() || ('a'..='f').contains(&c)));
}

#[test]
fn the_content_hash_tells_lists_apart() {
    let list = |id: i64, name: &str, domains: &[&str]| CompiledList {
        blocklist_id: id,
        category: name.into(),
        domains: set(domains),
    };
    let hash = |lists: Vec<CompiledList>, block: &[&str]| content_hash(&lists, &set(block));
    assert_ne!(
        hash(vec![list(1, "", &["a.com"])], &["b.com"]),
        hash(vec![list(1, "", &["a.com", "b.com"])], &[])
    );
    assert_ne!(
        hash(vec![list(1, "", &["list:2"])], &[]),
        hash(vec![list(1, "", &[]), list(2, "", &[])], &[])
    );
    assert_eq!(hash(vec![list(1, "Ads", &["a"])], &[]), hash(vec![list(1, "Games", &["a"])], &[]));
}

#[test]
fn compiled_domains_are_in_lower_case_and_end_in_no_dot() {
    let got = compile(
        vec![Some("ADS.Example.COM.\n\u{c9}t\u{e9}.FR..\n...\n"), None],
        empty_compiled_blocklist(),
    );
    assert_eq!(got.lists[0].domains.to_list(), ["ads.example.com", "\u{e9}t\u{e9}.fr"]);
}

#[test]
fn custom_domains_are_taken_by_kind_and_phone() {
    let custom = vec![
        listed("A.org", "block", None),
        listed("b.org", "allow", None),
        listed("c.org", "block", Some(1)),
        listed("d.org", "block", Some(2)),
    ];
    assert_eq!(custom_set(&custom, None, "block").to_list(), ["a.org"]);
    assert_eq!(custom_set(&custom, Some(1), "block").to_list(), ["c.org"]);
    assert_eq!(custom_set(&custom, Some(1), "allow").len(), 0);
}

#[test]
fn a_phone_gets_the_feeds_that_are_on_for_it() {
    let compiled = compile(vec![Some("z.org\nq.org"), Some("a.org")], empty_compiled_blocklist());
    let feeds = vec![feed(2, "ads", false), feed(1, "games", true)];
    let overrides = vec![switch(5, 2, true), switch(5, 1, false), switch(6, 1, true)];
    let custom = vec![
        listed("mine.org", "block", Some(5)),
        listed("q.org", "allow", Some(5)),
        listed("block.org", "allow", Some(5)),
    ];
    assert!(feed_is_on(&feeds, &overrides, 5, 2));
    assert!(!feed_is_on(&feeds, &overrides, 5, 1));
    assert!(!feed_is_on(&feeds, &overrides, 5, 99));
    let got = dns_blocklist(&compiled, &feeds, &overrides, &custom, 5);
    assert_eq!(got.len(), 2);
    assert_eq!((got[0].category.as_str(), got[0].domains.clone()), ("ads", vec!["z.org".into()]));
    assert_eq!(got[1].category, "Custom");
    assert_eq!(got[1].domains, ["mine.org"]);
    let other = dns_blocklist(&compiled, &feeds, &overrides, &custom, 6);
    assert_eq!(other[0].category, "games");
    assert_eq!(other[1].domains, ["block.org"]);
}

#[test]
fn the_version_of_a_phones_list_takes_in_all_it_is_made_of() {
    let feeds = vec![feed(2, "ads", false), feed(1, "games", true)];
    let custom = vec![listed("mine.org", "block", Some(5)), listed("q.org", "allow", Some(5))];
    let plain = dns_filter_version("hash", &feeds, &Vec::new(), &custom, 5);
    assert_eq!(plain, hash_token("hash\n2;1=true\n2=false\n1;5:q.org1;8:mine.org"));
    assert_ne!(plain, dns_filter_version("other", &feeds, &Vec::new(), &custom, 5));
    assert_ne!(plain, dns_filter_version("hash", &feeds, &vec![switch(5, 2, true)], &custom, 5));
    assert_ne!(plain, dns_filter_version("hash", &feeds, &Vec::new(), &Vec::new(), 5));
}

#[test]
fn the_version_of_a_phones_list_tells_lists_apart_but_not_orders() {
    let feeds = vec![feed(2, "ads", false), feed(1, "games", true)];
    let back = vec![feed(1, "games", true), feed(2, "ads", false)];
    let version = |feeds: &Vec<DnsBlocklist>, custom: Vec<DnsCustomDomain>| {
        dns_filter_version("hash", feeds, &Vec::new(), &custom, 5)
    };
    let allow = |domain: &str| listed(domain, "allow", Some(5));
    let block = |domain: &str| listed(domain, "block", Some(5));
    assert_eq!(
        version(&feeds, vec![allow("a"), block("c"), allow("b")]),
        version(&back, vec![allow("b"), allow("A"), block("c")])
    );
    assert_ne!(version(&feeds, vec![allow("block")]), version(&feeds, vec![block("block")]));
    assert_ne!(version(&feeds, vec![allow("a"), block("b")]), version(&feeds, vec![allow("a"), allow("b")]));
    assert_ne!(version(&feeds, vec![block("a"), block("b")]), version(&feeds, vec![block("ab")]));
    assert_eq!(
        version(&feeds, vec![allow("a")]),
        version(&feeds, vec![allow("a"), listed("d", "block", Some(6)), listed("e", "block", None)])
    );
}

#[test]
fn overrides_decide_for_one_phone() {
    let ads = feed(2, "ads", false);
    let overrides = vec![switch(5, 2, false), switch(5, 2, true)];
    assert_eq!(find_override(&overrides, 5, 2), Some(true));
    assert!(is_effective(&ads, &overrides, 5));
    assert!(!is_effective(&ads, &overrides, 6));
    let rows = blocklist_rows(&vec![ads, feed(1, "games", true)], &overrides, 5);
    assert!(rows[0].effective_enabled && rows[0].is_override);
    assert!(rows[1].effective_enabled && !rows[1].is_override);
    assert_eq!((rows[1].name.as_str(), rows[1].blocklist_id), ("games", 1));
    assert_eq!(rows[1].url, "https://feeds.example/1");
    assert_eq!(set_device_blocklist_override(&form(&[("clear", "1"), ("enabled", "on")])), None);
    assert_eq!(set_device_blocklist_override(&form(&[("enabled", "on")])), Some(true));
    assert_eq!(set_device_blocklist_override(&form(&[])), Some(false));
}

#[test]
fn a_query_string_chooses_a_phone() {
    let devices = vec![device(4), device(9)];
    assert_eq!(selected_device(&form(&[("device", "9")]), &devices), Some(1));
    assert_eq!(selected_device(&form(&[("device", "9"), ("device", "4")]), &devices), Some(0));
    assert_eq!(selected_device(&form(&[("device", "5")]), &devices), None);
    assert_eq!(selected_device(&form(&[("device", "x")]), &devices), None);
    assert_eq!(selected_device(&form(&[]), &devices), None);
    assert_eq!(selected_id(&form(&[("device", "9")]), &devices), 9);
    assert_eq!(selected_id(&form(&[]), &devices), 0);
}

#[test]
fn the_page_shows_the_common_domains_and_those_of_the_chosen_phone() {
    let custom = || {
        vec![
            listed("a.org", "block", None),
            listed("b.org", "allow", None),
            listed("c.org", "block", Some(9)),
            listed("d.org", "allow", Some(9)),
            listed("e.org", "block", Some(4)),
        ]
    };
    let names = |v: &Vec<DnsCustomDomain>| v.iter().map(|d| d.domain.clone()).collect::<Vec<_>>();
    let feeds = vec![feed(1, "games", true)];
    let devices = vec![device(4), device(9)];
    let page = show_dns_filter(
        &form(&[("device", "9")]),
        &feeds,
        custom(),
        &devices,
        &vec![switch(9, 1, false)],
        Some("100.64.0.1\n"),
    );
    assert_eq!(names(&page.blocked_domains), ["a.org"]);
    assert_eq!(names(&page.allowed_domains), ["b.org"]);
    assert_eq!(names(&page.device_blocked_domains), ["c.org"]);
    assert_eq!(names(&page.device_allowed_domains), ["d.org"]);
    assert_eq!((page.selected, page.selected_id), (Some(1), 9));
    assert!(!page.device_blocklist_rows[0].effective_enabled);
    assert_eq!(page.tailscale_ip.as_deref(), Some("100.64.0.1"));
    let page = show_dns_filter(&form(&[]), &feeds, custom(), &devices, &Vec::new(), None);
    assert_eq!(names(&page.blocked_domains), ["a.org"]);
    assert_eq!((page.selected, page.selected_id), (None, 0));
    assert!(page.device_blocklist_rows.is_empty());
    assert!(page.device_blocked_domains.is_empty());
    let (blocked, rest) = partition_custom(custom());
    assert_eq!((blocked.len(), rest.len()), (3, 2));
}

#[test]
fn forms_of_the_filter() {
    assert_eq!(set_upstream(&form(&[("upstream", "quad9")])), "quad9");
    assert_eq!(set_upstream(&form(&[("upstream", "other")])), "cloudflare");
    assert_eq!(set_upstream(&form(&[])), "cloudflare");
    assert_eq!(
        create_blocklist(&form(&[("name", " Ads "), ("url", " https://x ")])),
        Some(("Ads".into(), "https://x".into()))
    );
    assert_eq!(create_blocklist(&form(&[("name", "Ads"), ("url", "  ")])), None);
    assert_eq!(create_blocklist(&form(&[("url", "https://x")])), None);
    assert_eq!(toggle_enabled(&form(&[("enabled", "on")])), (true, "dns_filter_enable"));
    assert_eq!(toggle_enabled(&form(&[])), (false, "dns_filter_disable"));
    assert_eq!(tailscale_self_ip(Some(" \n")), None);
    assert_eq!(dns_url(Some(4)), "/dns?device=4");
    assert_eq!(dns_url(None), "/dns");
}

#[test]
fn a_custom_domain_is_blocked_for_all_unless_said_otherwise() {
    let new = create_custom_domain(&form(&[("domain", " Example.ORG. ")]));
    assert_eq!(new.domain.as_deref(), Some("example.org"));
    assert_eq!((new.list_type, new.device_id), ("block", None));
    assert_eq!(new.redirect_to, "/dns");
    let new = create_custom_domain(&form(&[
        ("domain", " . "),
        ("list_type", "allow"),
        ("device_id", "12"),
    ]));
    assert_eq!(new.domain, None);
    assert_eq!((new.list_type, new.device_id), ("allow", Some(12)));
    assert_eq!(new.redirect_to, "/dns?device=12");
    assert_eq!(create_custom_domain(&form(&[("device_id", "")])).device_id, None);
}
