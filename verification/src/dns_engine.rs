//! Compiles the blocklist feeds and the hand-listed domains into what every
//! phone's own DNS filter is served from.

use crate::models::{DnsBlocklist, DnsCustomDomain};
use crate::numbers::{i64_text, number_text, u64_text};
use crate::order::{
    all_views, in_text_order, lemma_sorted_numbers, lemma_sorted_numbers_same,
    lemma_texts_in_order, numbers, sort_numbers, sorted_numbers, TextSet,
};
use crate::outside::{
    ends_in_dot, has_capital, hex_encode, hex_text, is_hex, lemma_hex_text, lemma_same_hex_text,
    lowercase, sha256, sha256_of, to_lowercase,
};
use crate::packing::{lemma_same_numbers, lemma_same_packed, packed, push_packed};
use crate::text::{
    before, before_first, halves, is_white_space, joined, lemma_blank, lemma_joined_first,
    lemma_position_is, lemma_trimmed, lines, lines_of, opt_view, same_text, split_once, trim,
    trim_end_matches, trimmed, views, without_trailing,
};
use vstd::prelude::*;
use vstd::utf8::{encode_utf8, encode_utf8_decode_utf8};

verus! {

/// The domains of one feed. Feeds are kept apart, so that a phone can have a
/// feed on that is off for the others.
pub struct CompiledList {
    pub blocklist_id: i64,
    pub category: String,
    pub domains: TextSet,
}

/// Everything that a phone's filter could block.
pub struct CompiledBlocklist {
    /// Every feed, whether it is on or off by default.
    pub lists: Vec<CompiledList>,
    /// The hand-listed domains that are blocked for every phone.
    pub global_custom_block: TextSet,
    /// The hand-listed domains that are allowed for every phone.
    pub global_custom_allow: TextSet,
    /// Tells whether the feeds or the domains that are blocked for every phone
    /// have changed.
    pub content_hash: String,
}

/// A compiled feed as a value.
pub struct FeedView {
    pub id: int,
    pub category: Seq<char>,
    pub domains: Set<Seq<char>>,
}

/// A compiled blocklist as a value.
pub struct BlocklistView {
    pub feeds: Seq<FeedView>,
    pub block: Set<Seq<char>>,
    pub allow: Set<Seq<char>>,
    pub content_hash: Seq<char>,
}

impl View for CompiledList {
    type V = FeedView;

    open spec fn view(&self) -> FeedView {
        FeedView {
            id: self.blocklist_id as int,
            category: self.category@,
            domains: self.domains@,
        }
    }
}

impl View for CompiledBlocklist {
    type V = BlocklistView;

    open spec fn view(&self) -> BlocklistView {
        BlocklistView {
            feeds: all_views(self.lists@),
            block: self.global_custom_block@,
            allow: self.global_custom_allow@,
            content_hash: self.content_hash@,
        }
    }
}

impl CompiledBlocklist {
    /// All the sets of domains are well-formed.
    pub open spec fn wf(&self) -> bool {
        &&& forall|i: int| 0 <= i < self.lists@.len() ==> (#[trigger] self.lists@[i]).domains.wf()
        &&& self.global_custom_block.wf()
        &&& self.global_custom_allow.wf()
    }
}

/// A domain name as it is stored: lower case, without dots at its end.
/// Nothing is left of a name that is made of dots.
pub open spec fn normal_domain(name: Seq<char>) -> Option<Seq<char>> {
    let domain = lowercase(without_trailing(name, '.'));
    if domain.len() == 0 {
        None
    } else {
        Some(domain)
    }
}

/// The domain that a line of a feed lists. A line is a bare domain or, as in
/// a hosts file, the address 0.0.0.0 and a domain. What stands behind a `#`
/// is a comment.
pub open spec fn feed_domain(line: Seq<char>) -> Option<Seq<char>> {
    let entry = trimmed(before_first(line, '#'));
    if entry.len() == 0 {
        None
    } else {
        match halves(entry, ' ') {
            Some((address, name)) => if trimmed(address) == "0.0.0.0"@ {
                normal_domain(trimmed(name))
            } else {
                None
            },
            None => normal_domain(entry),
        }
    }
}

/// The domains that some line of a feed lists, but for the allowed ones.
pub open spec fn feed_domains(body: Seq<char>, allow: Set<Seq<char>>) -> Set<Seq<char>> {
    Set::new(
        |d: Seq<char>|
            !allow.contains(d) && exists|i: int|
                0 <= i < lines_of(body).len() && feed_domain(#[trigger] lines_of(body)[i]) == Some(
                    d,
                ),
    )
}

/// The domains of a feed that may not have been downloaded.
pub open spec fn body_domains(body: Option<Seq<char>>, allow: Set<Seq<char>>) -> Set<Seq<char>> {
    match body {
        Some(text) => feed_domains(text, allow),
        None => Set::empty(),
    }
}

/// The entry is of the given kind and holds for the given phone, or for all.
pub open spec fn listed_for(
    entry: DnsCustomDomain,
    device_id: Option<i64>,
    list_type: Seq<char>,
) -> bool {
    entry.device_id == device_id && entry.list_type@ == list_type
}

/// The hand-listed domains of one kind for one phone, or for all.
pub open spec fn custom_domains(
    custom: Seq<DnsCustomDomain>,
    device_id: Option<i64>,
    list_type: Seq<char>,
) -> Set<Seq<char>> {
    Set::new(
        |d: Seq<char>|
            exists|i: int|
                0 <= i < custom.len() && listed_for(#[trigger] custom[i], device_id, list_type)
                    && lowercase(custom[i].domain@) == d,
    )
}

/// The hand-listed domains in ascending order are those domains.
pub proof fn lemma_custom_in_order(
    custom: Seq<DnsCustomDomain>,
    device_id: Option<i64>,
    list_type: Seq<char>,
)
    ensures
        in_text_order(custom_domains(custom, device_id, list_type)).to_set() == custom_domains(
            custom,
            device_id,
            list_type,
        ),
{
    let fits = |entry: DnsCustomDomain| listed_for(entry, device_id, list_type);
    let fitting = custom.filter(fits);
    let texts = fitting.map_values(|entry: DnsCustomDomain| lowercase(entry.domain@));
    let domains = custom_domains(custom, device_id, list_type);
    assert forall|d: Seq<char>| texts.to_set().contains(d) implies domains.contains(d) by {
        let i = choose|i: int| 0 <= i < texts.len() && texts[i] == d;
        custom.lemma_filter_pred(fits, i);
        custom.lemma_filter_contains_rev(fits, fitting[i]);
        let j = choose|j: int| 0 <= j < custom.len() && custom[j] == fitting[i];
        assert(listed_for(custom[j], device_id, list_type));
    }
    assert forall|d: Seq<char>| domains.contains(d) implies texts.to_set().contains(d) by {
        let j = choose|j: int|
            0 <= j < custom.len() && listed_for(#[trigger] custom[j], device_id, list_type)
                && lowercase(custom[j].domain@) == d;
        custom.lemma_filter_contains(fits, j);
        let i = choose|i: int| 0 <= i < fitting.len() && fitting[i] == custom[j];
        assert(texts[i] == d);
    }
    assert(texts.to_set() =~= domains);
    lemma_texts_in_order(texts);
}

/// The domains that are allowed for every phone.
pub open spec fn global_allow(custom: Seq<DnsCustomDomain>) -> Set<Seq<char>> {
    custom_domains(custom, None, "allow"@)
}

/// The domains that are blocked for every phone. Allowing wins.
pub open spec fn global_block(custom: Seq<DnsCustomDomain>) -> Set<Seq<char>> {
    custom_domains(custom, None, "block"@).difference(global_allow(custom))
}

/// The domains of the first feed with the given number.
pub open spec fn domains_of(feeds: Seq<FeedView>, id: int) -> Set<Seq<char>>
    decreases feeds.len(),
{
    if feeds.len() == 0 {
        Set::empty()
    } else if feeds[0].id == id {
        feeds[0].domains
    } else {
        domains_of(feeds.skip(1), id)
    }
}

/// The numbers of the feeds.
pub open spec fn feed_ids(feeds: Seq<FeedView>) -> Seq<int> {
    Seq::new(feeds.len(), |i: int| feeds[i].id)
}

/// A feed behind its number, with its domains in order.
pub open spec fn feed_text(feeds: Seq<FeedView>, id: int) -> Seq<char> {
    number_text(id) + seq![':'] + packed(in_text_order(domains_of(feeds, id)))
}

/// The feeds with the given numbers, one behind the other.
pub open spec fn feed_texts(feeds: Seq<FeedView>, ids: Seq<int>) -> Seq<Seq<char>> {
    ids.map_values(|id: int| feed_text(feeds, id))
}

/// What the content hash is taken of: how many feeds there are, the feeds by
/// number, and the domains that are blocked for every phone.
pub open spec fn content_text(feeds: Seq<FeedView>, block: Set<Seq<char>>) -> Seq<char> {
    let ids = sorted_numbers(feed_ids(feeds));
    number_text(ids.len() as int) + seq![';'] + (joined(feed_texts(feeds, ids)) + packed(
        in_text_order(block),
    ))
}

/// The content hash of the feeds and the blocked domains.
pub open spec fn content_hash_of(feeds: Seq<FeedView>, block: Set<Seq<char>>) -> Seq<char> {
    hex_text(sha256_of(encode_utf8(content_text(feeds, block))))
}

/// The feeds with the domains that were downloaded for them.
pub open spec fn compiled_feeds(
    blocklists: Seq<DnsBlocklist>,
    bodies: Seq<Option<String>>,
    allow: Set<Seq<char>>,
) -> Seq<FeedView> {
    Seq::new(
        blocklists.len(),
        |i: int|
            FeedView {
                id: blocklists[i].id as int,
                category: blocklists[i].name@,
                domains: body_domains(opt_view(bodies[i]), allow),
            },
    )
}

/// There are feeds, and not one of them could be downloaded, as when the
/// network is down.
pub open spec fn is_outage(bodies: Seq<Option<String>>) -> bool {
    bodies.len() > 0 && forall|i: int| 0 <= i < bodies.len() ==> (#[trigger] bodies[i]) is None
}

/// What the feeds and the hand-listed domains compile to. In an outage the
/// previous blocklist stays.
pub open spec fn recompiled(
    blocklists: Seq<DnsBlocklist>,
    custom: Seq<DnsCustomDomain>,
    bodies: Seq<Option<String>>,
    previous: BlocklistView,
) -> BlocklistView {
    let feeds = compiled_feeds(blocklists, bodies, global_allow(custom));
    if is_outage(bodies) {
        previous
    } else {
        BlocklistView {
            feeds,
            block: global_block(custom),
            allow: global_allow(custom),
            content_hash: content_hash_of(feeds, global_block(custom)),
        }
    }
}

/// The text is the lower-case form of some text.
pub open spec fn in_lower_case(s: Seq<char>) -> bool {
    !has_capital(s) && exists|t: Seq<char>| s == #[trigger] lowercase(t)
}

/// A domain name as a feed's are stored: in lower case, with no dot at its
/// end, and not empty.
pub open spec fn is_stored_name(s: Seq<char>) -> bool {
    s.len() > 0 && !ends_in_dot(s) && in_lower_case(s)
}

/// A blocklist as it is compiled: the domains of the feeds are stored names,
/// the hand-listed ones are in lower case, and what is allowed for every phone
/// is neither in a feed nor blocked by hand.
pub open spec fn is_compiled(list: BlocklistView) -> bool {
    &&& forall|i: int, d: Seq<char>|
        0 <= i < list.feeds.len() && #[trigger] list.feeds[i].domains.contains(d)
            ==> is_stored_name(d) && !list.allow.contains(d)
    &&& forall|d: Seq<char>| #[trigger]
        list.block.contains(d) ==> in_lower_case(d) && !list.allow.contains(d)
    &&& forall|d: Seq<char>| #[trigger] list.allow.contains(d) ==> in_lower_case(d)
}

/// The blocklist before anything was compiled.
pub fn empty_compiled_blocklist() -> (r: CompiledBlocklist)
    ensures
        r.wf(),
        r.lists@.len() == 0,
        r@.block == Set::<Seq<char>>::empty(),
        r@.allow == Set::<Seq<char>>::empty(),
        r@.content_hash.len() == 0,
{
    CompiledBlocklist {
        lists: Vec::new(),
        global_custom_block: TextSet::new(),
        global_custom_allow: TextSet::new(),
        content_hash: String::new(),
    }
}

proof fn lemma_no_dot_at_the_end(s: Seq<char>)
    ensures
        !ends_in_dot(without_trailing(s, '.')),
    decreases s.len(),
{
    if s.len() > 0 {
        lemma_no_dot_at_the_end(s.drop_last());
    }
}

/// A domain name as it is stored; nothing if nothing is left of it.
pub fn normalize_domain(name: &str) -> (r: Option<String>)
    ensures
        opt_view(r) == normal_domain(name@),
        r matches Some(domain) ==> is_stored_name(domain@),
{
    let bare = trim_end_matches(name, '.');
    let domain = to_lowercase(bare.as_str());
    proof {
        lemma_no_dot_at_the_end(name@);
        assert(domain@ == lowercase(bare@));
    }
    if domain.as_str().is_empty() {
        None
    } else {
        Some(domain)
    }
}

/// The domain that a line of a feed lists.
pub fn domain_of_line(line: &str) -> (r: Option<String>)
    ensures
        opt_view(r) == feed_domain(line@),
        r matches Some(domain) ==> is_stored_name(domain@),
{
    let entry = trim(before(line, '#').as_str());
    if entry.as_str().is_empty() {
        return None;
    }
    match split_once(entry.as_str(), ' ') {
        Some((address, name)) => if same_text(trim(address.as_str()).as_str(), "0.0.0.0") {
            normalize_domain(trim(name.as_str()).as_str())
        } else {
            None
        },
        None => normalize_domain(entry.as_str()),
    }
}

/// The domains that a downloaded feed lists, but for the allowed ones.
pub fn domains_of_feed(body: &str, allow: &TextSet) -> (r: TextSet)
    requires
        allow.wf(),
    ensures
        r.wf(),
        r@ == feed_domains(body@, allow@),
        forall|d: Seq<char>| #[trigger] r@.contains(d) ==> is_stored_name(d),
{
    broadcast use crate::text::lemma_views_push;

    let all = lines(body);
    let mut found: Vec<String> = Vec::new();
    let mut i: usize = 0;
    while i < all.len()
        invariant
            allow.wf(),
            i <= all@.len(),
            views(all@) == lines_of(body@),
            forall|d: Seq<char>|
                #![trigger views(found@).contains(d)]
                views(found@).contains(d) <==> !allow@.contains(d) && exists|j: int|
                    0 <= j < i && feed_domain(#[trigger] lines_of(body@)[j]) == Some(d),
            forall|d: Seq<char>| #[trigger] views(found@).contains(d) ==> is_stored_name(d),
        decreases all@.len() - i,
    {
        let ghost before = views(found@);
        let ghost line = lines_of(body@)[i as int];
        match domain_of_line(all[i].as_str()) {
            Some(domain) => {
                if !allow.contains(domain.as_str()) {
                    let ghost name = domain@;
                    found.push(domain);
                    proof {
                        crate::order::lemma_contains_after_push(before, name);
                        assert(views(found@) == before.push(name));
                    }
                }
            },
            None => {},
        }
        i += 1;
    }
    let r = TextSet::from_texts(found);
    proof {
        assert(r@ =~= feed_domains(body@, allow@));
    }
    r
}

/// The hand-listed domains of one kind for one phone, or for all.
pub fn custom_set(
    custom: &Vec<DnsCustomDomain>,
    device_id: Option<i64>,
    list_type: &str,
) -> (r: TextSet)
    ensures
        r.wf(),
        r@ == custom_domains(custom@, device_id, list_type@),
        forall|d: Seq<char>| #[trigger] r@.contains(d) ==> in_lower_case(d),
{
    broadcast use crate::text::lemma_views_push;

    let mut found: Vec<String> = Vec::new();
    let mut i: usize = 0;
    while i < custom.len()
        invariant
            i <= custom@.len(),
            forall|d: Seq<char>|
                #![trigger views(found@).contains(d)]
                views(found@).contains(d) <==> exists|j: int|
                    0 <= j < i && listed_for(#[trigger] custom@[j], device_id, list_type@)
                        && lowercase(custom@[j].domain@) == d,
            forall|d: Seq<char>| #[trigger] views(found@).contains(d) ==> in_lower_case(d),
        decreases custom@.len() - i,
    {
        let ghost before = views(found@);
        let same_scope = match (custom[i].device_id, device_id) {
            (Some(a), Some(b)) => a == b,
            (None, None) => true,
            _ => false,
        };
        if same_scope && same_text(custom[i].list_type.as_str(), list_type) {
            let domain = to_lowercase(custom[i].domain.as_str());
            let ghost name = domain@;
            found.push(domain);
            proof {
                crate::order::lemma_contains_after_push(before, name);
                assert(views(found@) == before.push(name));
                assert(listed_for(custom@[i as int], device_id, list_type@));
            }
        } else {
            proof {
                assert(!listed_for(custom@[i as int], device_id, list_type@));
            }
        }
        i += 1;
    }
    let r = TextSet::from_texts(found);
    proof {
        assert(r@ =~= custom_domains(custom@, device_id, list_type@));
    }
    r
}

/// The members of `a` that are not in `b`.
pub fn without(a: &TextSet, b: &TextSet) -> (r: TextSet)
    requires
        b.wf(),
    ensures
        r.wf(),
        r@ == a@.difference(b@),
{
    broadcast use crate::text::lemma_views_push;

    let mut kept: Vec<String> = Vec::new();
    let mut i: usize = 0;
    while i < a.len()
        invariant
            b.wf(),
            i <= a.listed().len(),
            forall|d: Seq<char>|
                #![trigger views(kept@).contains(d)]
                views(kept@).contains(d) <==> !b@.contains(d) && a.listed().take(
                    i as int,
                ).contains(d),
        decreases a.listed().len() - i,
    {
        let ghost before = views(kept@);
        let x = a.at(i);
        proof {
            assert(a.listed().take(i + 1) =~= a.listed().take(i as int).push(x@));
            crate::order::lemma_contains_after_push(a.listed().take(i as int), x@);
            crate::order::lemma_contains_after_push(before, x@);
        }
        if !b.contains(x.as_str()) {
            kept.push(x.clone());
            proof {
                assert(views(kept@) == before.push(x@));
            }
        }
        i += 1;
    }
    proof {
        assert(a.listed().take(i as int) =~= a.listed());
    }
    let r = TextSet::from_texts(kept);
    proof {
        assert(r@ =~= a@.difference(b@));
    }
    r
}

/// The members of either set.
pub fn together(a: &TextSet, b: &TextSet) -> (r: TextSet)
    ensures
        r.wf(),
        r@ == a@.union(b@),
{
    let mut all = a.to_list();
    let mut more = b.to_list();
    let ghost x = views(all@);
    let ghost y = views(more@);
    all.append(&mut more);
    let r = TextSet::from_texts(all);
    proof {
        assert(views(all@) =~= x + y);
        assert forall|d: Seq<char>| (x + y).contains(d) <==> x.contains(d) || y.contains(d) by {
            if x.contains(d) {
                let i = choose|i: int| 0 <= i < x.len() && x[i] == d;
                assert((x + y)[i] == d);
            }
            if y.contains(d) {
                let i = choose|i: int| 0 <= i < y.len() && y[i] == d;
                assert((x + y)[x.len() + i] == d);
            }
        }
        assert(r@ =~= a@.union(b@));
    }
    r
}

/// The content hash of the feeds and the blocked domains.
pub fn content_hash(lists: &Vec<CompiledList>, block: &TextSet) -> (r: String)
    requires
        forall|i: int| 0 <= i < lists@.len() ==> (#[trigger] lists@[i]).domains.wf(),
        block.wf(),
    ensures
        r@ == content_hash_of(all_views(lists@), block@),
        r@.len() == 64 && is_hex(r@),
{
    let ghost feeds = all_views(lists@);
    let mut ids: Vec<i64> = Vec::new();
    let mut i: usize = 0;
    while i < lists.len()
        invariant
            i <= lists@.len(),
            ids@.len() == i,
            forall|j: int| 0 <= j < i ==> ids@[j] == (#[trigger] lists@[j]).blocklist_id,
        decreases lists@.len() - i,
    {
        ids.push(lists[i].blocklist_id);
        i += 1;
    }
    proof {
        assert(numbers(ids@) =~= feed_ids(feeds));
    }
    let in_order = sort_numbers(&ids);
    let ghost ordered = numbers(in_order@);
    let ghost texts = feed_texts(feeds, ordered);
    proof {
        lemma_sorted_numbers(feed_ids(feeds));
    }
    let mut out = u64_text(in_order.len() as u64);
    out.push(';');
    let ghost start = out@;
    let mut k: usize = 0;
    proof {
        assert(out@ =~= start + joined(texts.take(0)));
    }
    while k < in_order.len()
        invariant
            forall|i: int| 0 <= i < lists@.len() ==> (#[trigger] lists@[i]).domains.wf(),
            feeds == all_views(lists@),
            ordered == numbers(in_order@),
            ordered.to_multiset() == feed_ids(feeds).to_multiset(),
            texts == feed_texts(feeds, ordered),
            k <= in_order@.len(),
            out@ == start + joined(texts.take(k as int)),
        decreases in_order@.len() - k,
    {
        let id = in_order[k];
        let ghost before = out@;
        proof {
            vstd::seq_lib::to_multiset_contains(ordered, id as int);
            vstd::seq_lib::to_multiset_contains(feed_ids(feeds), id as int);
            assert(ordered[k as int] == id as int);
            assert(feed_ids(feeds).contains(id as int));
            let m = choose|m: int| 0 <= m < feeds.len() && feed_ids(feeds)[m] == id as int;
            assert(lists@[m].blocklist_id == id);
            assert(feeds.skip(0) =~= feeds);
        }
        let mut j: usize = 0;
        let n = lists.len();
        while lists[j].blocklist_id != id
            invariant
                feeds == all_views(lists@),
                j < lists@.len() == n,
                exists|m: int| j <= m < lists@.len() && (#[trigger] lists@[m]).blocklist_id == id,
                domains_of(feeds, id as int) == domains_of(feeds.skip(j as int), id as int),
            decreases lists@.len() - j,
        {
            proof {
                assert(feeds.skip(j as int).skip(1) =~= feeds.skip(j + 1));
            }
            j += 1;
        }
        out.append(i64_text(id).as_str());
        out.push(':');
        push_packed(&mut out, &lists[j].domains);
        proof {
            let next = texts.take(k + 1);
            assert(next.drop_last() =~= texts.take(k as int));
            assert(feeds.skip(j as int)[0] == lists@[j as int]@);
            assert(next.last() == feed_text(feeds, id as int));
            assert(out@ =~= before + feed_text(feeds, id as int));
            assert(out@ =~= start + joined(next));
        }
        k += 1;
    }
    proof {
        assert(texts.take(k as int) =~= texts);
    }
    push_packed(&mut out, block);
    proof {
        assert(out@ =~= content_text(feeds, block@));
    }
    let digest = sha256(out.as_str().as_bytes());
    proof {
        lemma_hex_text(digest@);
    }
    hex_encode(digest.as_slice())
}

/// Compiles the feeds and the hand-listed domains. `bodies` holds what was
/// downloaded for each feed, or nothing where the download failed.
pub fn compile_blocklist(
    blocklists: &Vec<DnsBlocklist>,
    custom: &Vec<DnsCustomDomain>,
    bodies: &Vec<Option<String>>,
    previous: CompiledBlocklist,
) -> (r: CompiledBlocklist)
    requires
        bodies@.len() == blocklists@.len(),
        previous.wf(),
    ensures
        r.wf(),
        r@ == recompiled(blocklists@, custom@, bodies@, previous@),
        !is_outage(bodies@) ==> {
            &&& is_compiled(r@)
            &&& r@.content_hash.len() == 64
            &&& is_hex(r@.content_hash)
        },
{
    let allow = custom_set(custom, None, "allow");
    let block = without(&custom_set(custom, None, "block"), &allow);
    let ghost feeds = compiled_feeds(blocklists@, bodies@, allow@);
    let mut lists: Vec<CompiledList> = Vec::new();
    let mut downloaded = false;
    let mut i: usize = 0;
    while i < blocklists.len()
        invariant
            bodies@.len() == blocklists@.len(),
            allow.wf(),
            i <= blocklists@.len(),
            feeds == compiled_feeds(blocklists@, bodies@, allow@),
            lists@.len() == i,
            forall|j: int|
                0 <= j < i ==> (#[trigger] lists@[j]).domains.wf() && lists@[j]@ == feeds[j],
            forall|j: int, d: Seq<char>|
                0 <= j < i && #[trigger] feeds[j].domains.contains(d) ==> is_stored_name(d)
                    && !allow@.contains(d),
            downloaded <==> exists|j: int| 0 <= j < i && (#[trigger] bodies@[j]) is Some,
        decreases blocklists@.len() - i,
    {
        let domains = match &bodies[i] {
            Some(text) => {
                downloaded = true;
                domains_of_feed(text.as_str(), &allow)
            },
            None => TextSet::new(),
        };
        proof {
            assert(feeds[i as int].domains == domains@);
        }
        lists.push(
            CompiledList {
                blocklist_id: blocklists[i].id,
                category: blocklists[i].name.clone(),
                domains,
            },
        );
        i += 1;
    }
    proof {
        assert(all_views(lists@) =~= feeds);
    }
    if !downloaded && blocklists.len() > 0 {
        return previous;
    }
    let content_hash = content_hash(&lists, &block);
    CompiledBlocklist {
        lists,
        global_custom_block: block,
        global_custom_allow: allow,
        content_hash,
    }
}

/// What stands behind a `#` on a line of a feed does not matter.
pub proof fn law_comments_do_not_matter(line: Seq<char>, comment: Seq<char>)
    requires
        !line.contains('#'),
    ensures
        feed_domain(line + seq!['#'] + comment) == feed_domain(line),
{
    let whole = line + seq!['#'] + comment;
    assert forall|j: int| 0 <= j < line.len() implies whole[j] != '#' && line[j] != '#' by {
        assert(line.contains(line[j]));
        assert(whole[j] == line[j]);
    }
    lemma_position_is(whole, '#', line.len() as int);
    lemma_position_is(line, '#', line.len() as int);
    assert(whole.take(line.len() as int) =~= line);
    assert(line.take(line.len() as int) =~= line);
}

/// A name as a feed lists it: nothing in it ends it, and no dot stands at its
/// end.
pub open spec fn is_listed_name(name: Seq<char>) -> bool {
    &&& name.len() > 0
    &&& name.last() != '.'
    &&& forall|i: int| 0 <= i < name.len() ==> #[trigger] name[i] != '#' && !is_white_space(name[i])
}

/// A line with a bare name, a line with the address 0.0.0.0 in front of it, as
/// in a hosts file, and either with dots at the end or white space around it
/// all list the name in lower case.
pub proof fn law_lines_list_their_name(name: Seq<char>, dots: nat)
    requires
        is_listed_name(name),
        lowercase(name).len() > 0,
    ensures
        feed_domain(name) == Some(lowercase(name)),
        feed_domain("0.0.0.0 "@ + name) == Some(lowercase(name)),
        feed_domain(name + Seq::new(dots, |i: int| '.')) == Some(lowercase(name)),
        feed_domain("0.0.0.0 "@ + (name + Seq::new(dots, |i: int| '.'))) == Some(lowercase(name)),
{
    let none = Seq::new(0, |i: int| '.');
    let run = Seq::new(dots, |i: int| '.');
    assert(name + none =~= name);
    lemma_listed_line(name, 0);
    lemma_listed_line(name, dots);
}

proof fn lemma_listed_line(name: Seq<char>, dots: nat)
    requires
        is_listed_name(name),
        lowercase(name).len() > 0,
    ensures
        feed_domain(name + Seq::new(dots, |i: int| '.')) == Some(lowercase(name)),
        feed_domain("0.0.0.0 "@ + (name + Seq::new(dots, |i: int| '.'))) == Some(lowercase(name)),
{
    let full = name + Seq::new(dots, |i: int| '.');
    lemma_dots_fall_off(name, dots);
    assert forall|i: int| 0 <= i < full.len() implies #[trigger] full[i] != '#' && !is_white_space(
        full[i],
    ) by {
        if i < name.len() {
            assert(full[i] == name[i]);
        }
    }
    assert(!is_white_space(full[0]) && !is_white_space(full[full.len() - 1]));
    lemma_trimmed(full);
    lemma_position_is(full, '#', full.len() as int);
    assert(full.take(full.len() as int) =~= full);
    assert forall|i: int| 0 <= i < full.len() implies full[i] != ' ' by {
        assert(!is_white_space(full[i]));
    }
    lemma_position_is(full, ' ', full.len() as int);
    let line = "0.0.0.0 "@ + full;
    reveal_strlit("0.0.0.0 ");
    reveal_strlit("0.0.0.0");
    assert forall|i: int| 0 <= i < line.len() implies line[i] != '#' by {
        if i >= 8 {
            assert(line[i] == full[i - 8]);
        }
    }
    lemma_position_is(line, '#', line.len() as int);
    assert(line.take(line.len() as int) =~= line);
    assert(line.last() == full.last());
    lemma_trimmed(line);
    lemma_position_is(line, ' ', 7);
    assert(line.take(7) =~= "0.0.0.0"@);
    assert(line.skip(8) =~= full);
    lemma_trimmed("0.0.0.0"@);
}

proof fn lemma_dots_fall_off(name: Seq<char>, dots: nat)
    requires
        name.len() > 0,
        name.last() != '.',
    ensures
        without_trailing(name + Seq::new(dots, |i: int| '.'), '.') == name,
    decreases dots,
{
    let full = name + Seq::new(dots, |i: int| '.');
    if dots == 0 {
        assert(full =~= name);
    } else {
        let fewer = (dots - 1) as nat;
        assert(full.drop_last() =~= name + Seq::new(fewer, |i: int| '.'));
        lemma_dots_fall_off(name, fewer);
    }
}

/// A line with any other address in front of the name lists nothing, and
/// neither does a line that is empty but for white space.
pub proof fn law_other_lines_list_nothing(address: Seq<char>, name: Seq<char>, blank: Seq<char>)
    requires
        is_listed_name(name),
        address.len() > 0,
        address != "0.0.0.0"@,
        forall|i: int|
            0 <= i < address.len() ==> #[trigger] address[i] != '#' && !is_white_space(address[i]),
        forall|i: int| 0 <= i < blank.len() ==> is_white_space(#[trigger] blank[i]),
    ensures
        feed_domain(address + seq![' '] + name) is None,
        feed_domain(blank) is None,
{
    let line = address + seq![' '] + name;
    let n = address.len() as int;
    assert forall|i: int| 0 <= i < line.len() implies line[i] != '#' by {
        if i < n {
            assert(line[i] == address[i]);
        } else if i > n {
            assert(line[i] == name[i - n - 1]);
        }
    }
    lemma_position_is(line, '#', line.len() as int);
    assert(line.take(line.len() as int) =~= line);
    assert(line[0] == address[0] && line.last() == name.last());
    assert(!is_white_space(name[name.len() - 1]));
    lemma_trimmed(line);
    assert forall|i: int| 0 <= i < n implies line[i] != ' ' by {
        assert(line[i] == address[i]);
        assert(!is_white_space(address[i]));
    }
    lemma_position_is(line, ' ', n);
    assert(line.take(n) =~= address);
    assert(!is_white_space(address[n - 1]));
    lemma_trimmed(address);
    assert forall|i: int| 0 <= i < blank.len() implies blank[i] != '#' by {
        assert(is_white_space(blank[i]));
    }
    lemma_position_is(blank, '#', blank.len() as int);
    assert(blank.take(blank.len() as int) =~= blank);
    lemma_blank(blank);
}

/// What every line of a feed lists is in the feed unless it is allowed for
/// every phone, and nothing else is: the order of the lines and how often one
/// occurs do not matter.
pub proof fn law_feed_lists_its_lines(body: Seq<char>, allow: Set<Seq<char>>, d: Seq<char>)
    ensures
        body_domains(Some(body), allow).contains(d) <==> !allow.contains(d) && exists|i: int|
            0 <= i < lines_of(body).len() && feed_domain(#[trigger] lines_of(body)[i]) == Some(d),
        body_domains(None, allow) == Set::<Seq<char>>::empty(),
{
}

/// What is allowed by hand for every phone, and what is blocked by hand for
/// every phone and not allowed, is listed by entries that name no phone.
pub proof fn law_common_domains_are_by_entry(custom: Seq<DnsCustomDomain>, d: Seq<char>)
    ensures
        ({
            let allowed = exists|i: int|
                0 <= i < custom.len() && (#[trigger] custom[i]).device_id is None
                    && custom[i].list_type@ == "allow"@ && lowercase(custom[i].domain@) == d;
            let blocked = exists|i: int|
                0 <= i < custom.len() && (#[trigger] custom[i]).device_id is None
                    && custom[i].list_type@ == "block"@ && lowercase(custom[i].domain@) == d;
            &&& global_allow(custom).contains(d) <==> allowed
            &&& global_block(custom).contains(d) <==> blocked && !allowed
        }),
{
    lemma_common(custom, "allow"@, d);
    lemma_common(custom, "block"@, d);
}

proof fn lemma_common(custom: Seq<DnsCustomDomain>, kind: Seq<char>, d: Seq<char>)
    ensures
        custom_domains(custom, None, kind).contains(d) <==> exists|i: int|
            0 <= i < custom.len() && (#[trigger] custom[i]).device_id is None
                && custom[i].list_type@ == kind && lowercase(custom[i].domain@) == d,
{
    if exists|i: int|
        0 <= i < custom.len() && (#[trigger] custom[i]).device_id is None && custom[i].list_type@
            == kind && lowercase(custom[i].domain@) == d {
        let i = choose|i: int|
            0 <= i < custom.len() && (#[trigger] custom[i]).device_id is None
                && custom[i].list_type@ == kind && lowercase(custom[i].domain@) == d;
        assert(listed_for(custom[i], None, kind));
    }
}

/// A domain that is allowed for every phone is in no compiled feed and is not
/// blocked by hand either, but in an outage.
pub proof fn law_allowing_wins(
    blocklists: Seq<DnsBlocklist>,
    custom: Seq<DnsCustomDomain>,
    bodies: Seq<Option<String>>,
    previous: BlocklistView,
    domain: Seq<char>,
)
    requires
        bodies.len() == blocklists.len(),
        !is_outage(bodies),
        global_allow(custom).contains(domain),
    ensures
        ({
            let r = recompiled(blocklists, custom, bodies, previous);
            !r.block.contains(domain) && forall|i: int|
                0 <= i < r.feeds.len() ==> !(#[trigger] r.feeds[i]).domains.contains(domain)
        }),
{
    let r = recompiled(blocklists, custom, bodies, previous);
    assert forall|i: int| 0 <= i < r.feeds.len() implies !(
    #[trigger] r.feeds[i]).domains.contains(domain) by {
        assert(r.feeds[i].domains == body_domains(opt_view(bodies[i]), global_allow(custom)));
    }
}

/// When no feed could be downloaded, the previous blocklist stays.
pub proof fn law_outage_keeps_the_list(
    blocklists: Seq<DnsBlocklist>,
    custom: Seq<DnsCustomDomain>,
    bodies: Seq<Option<String>>,
    previous: BlocklistView,
)
    requires
        bodies.len() == blocklists.len(),
        blocklists.len() > 0,
        forall|i: int| 0 <= i < bodies.len() ==> (#[trigger] bodies[i]) is None,
    ensures
        recompiled(blocklists, custom, bodies, previous) == previous,
{
}

/// As soon as one feed was downloaded the new blocklist takes the place of the
/// previous one, whatever is left of the feeds: there is one compiled feed for
/// each feed, on or off, in the same order and under the same number and name.
pub proof fn law_every_feed_is_compiled(
    blocklists: Seq<DnsBlocklist>,
    custom: Seq<DnsCustomDomain>,
    bodies: Seq<Option<String>>,
    previous: BlocklistView,
    k: int,
)
    requires
        bodies.len() == blocklists.len(),
        0 <= k < bodies.len(),
        bodies[k] is Some,
    ensures
        ({
            let r = recompiled(blocklists, custom, bodies, previous);
            &&& r.allow == global_allow(custom)
            &&& r.block == global_block(custom)
            &&& r.feeds.len() == blocklists.len()
            &&& forall|i: int|
                0 <= i < r.feeds.len() ==> {
                    &&& (#[trigger] r.feeds[i]).id == blocklists[i].id
                    &&& r.feeds[i].category == blocklists[i].name@
                    &&& r.feeds[i].domains == body_domains(
                        opt_view(bodies[i]),
                        global_allow(custom),
                    )
                }
        }),
{
}

/// Whether a feed is on or off by default does not matter for what is
/// compiled.
pub proof fn law_switches_do_not_matter(
    a: Seq<DnsBlocklist>,
    b: Seq<DnsBlocklist>,
    custom: Seq<DnsCustomDomain>,
    bodies: Seq<Option<String>>,
    previous: BlocklistView,
)
    requires
        a.len() == b.len(),
        forall|i: int|
            0 <= i < a.len() ==> (#[trigger] a[i]).id == (#[trigger] b[i]).id && a[i].name@
                == b[i].name@,
    ensures
        recompiled(a, custom, bodies, previous) == recompiled(b, custom, bodies, previous),
{
    let fa = compiled_feeds(a, bodies, global_allow(custom));
    let fb = compiled_feeds(b, bodies, global_allow(custom));
    assert forall|i: int| 0 <= i < fa.len() implies fa[i] == fb[i] by {
        assert(a[i].id == b[i].id);
    }
    assert(fa =~= fb);
}

/// A feed's number leads to its domains.
pub proof fn lemma_domains_of(feeds: Seq<FeedView>, i: int)
    requires
        feed_ids(feeds).no_duplicates(),
        0 <= i < feeds.len(),
    ensures
        domains_of(feeds, feeds[i].id) == feeds[i].domains,
    decreases feeds.len(),
{
    let ids = feed_ids(feeds);
    if i > 0 {
        assert(ids[0] != ids[i]);
        let rest = feeds.skip(1);
        assert forall|x: int, y: int| 0 <= x < rest.len() && 0 <= y < rest.len() && x
            != y implies feed_ids(rest)[x] != feed_ids(rest)[y] by {
            assert(feed_ids(rest)[x] == ids[x + 1]);
            assert(feed_ids(rest)[y] == ids[y + 1]);
        }
        lemma_domains_of(rest, i - 1);
    }
}

/// The content hash is a matter of which feeds there are and what they list:
/// neither their order nor their names change it.
pub proof fn law_content_hash_is_stable(
    a: Seq<FeedView>,
    b: Seq<FeedView>,
    block: Set<Seq<char>>,
)
    requires
        feed_ids(a).no_duplicates(),
        feed_ids(b).no_duplicates(),
        forall|id: int| #[trigger] feed_ids(a).contains(id) <==> feed_ids(b).contains(id),
        forall|i: int, j: int|
            0 <= i < a.len() && 0 <= j < b.len() && (#[trigger] a[i]).id == (#[trigger] b[j]).id
                ==> a[i].domains == b[j].domains,
    ensures
        content_hash_of(a, block) == content_hash_of(b, block),
{
    let x = feed_ids(a);
    let y = feed_ids(b);
    assert forall|id: int| #[trigger] x.contains(id) implies domains_of(a, id) == domains_of(
        b,
        id,
    ) by {
        let i = choose|i: int| 0 <= i < x.len() && x[i] == id;
        assert(y.contains(id));
        let j = choose|j: int| 0 <= j < y.len() && y[j] == id;
        assert(a[i].id == b[j].id);
        lemma_domains_of(a, i);
        lemma_domains_of(b, j);
    }
    x.lemma_multiset_has_no_duplicates();
    y.lemma_multiset_has_no_duplicates();
    assert forall|id: int| x.to_multiset().count(id) == y.to_multiset().count(id) by {
        vstd::seq_lib::to_multiset_contains(x, id);
        vstd::seq_lib::to_multiset_contains(y, id);
        assert(x.contains(id) == y.contains(id));
        assert(x.contains(id) ==> x.to_multiset().contains(id));
        assert(y.contains(id) ==> y.to_multiset().contains(id));
    }
    assert(x.to_multiset() =~= y.to_multiset());
    lemma_sorted_numbers_same(x, y);
    lemma_sorted_numbers(x);
    let ids = sorted_numbers(x);
    assert forall|i: int| 0 <= i < ids.len() implies feed_texts(a, ids)[i] == feed_texts(b, ids)[i] by {
        vstd::seq_lib::to_multiset_contains(ids, ids[i]);
        vstd::seq_lib::to_multiset_contains(x, ids[i]);
        assert(ids.contains(ids[i]));
        assert(x.contains(ids[i]));
    }
    assert(feed_texts(a, ids) =~= feed_texts(b, ids));
}

/// The texts of some feeds, and what follows them, are all that a text is made
/// of.
proof fn lemma_same_feed_texts(
    a: Seq<FeedView>,
    b: Seq<FeedView>,
    s: Seq<int>,
    t: Seq<int>,
    x: Seq<char>,
    y: Seq<char>,
)
    requires
        s.len() == t.len(),
        joined(feed_texts(a, s)) + x == joined(feed_texts(b, t)) + y,
    ensures
        s == t,
        x == y,
        forall|i: int|
            0 <= i < s.len() ==> in_text_order(domains_of(a, #[trigger] s[i])) == in_text_order(
                domains_of(b, s[i]),
            ),
    decreases s.len(),
{
    let p = feed_texts(a, s);
    let q = feed_texts(b, t);
    if s.len() == 0 {
        assert(joined(p) + x =~= x);
        assert(joined(q) + y =~= y);
        assert(s =~= t);
    } else {
        lemma_joined_first(p);
        lemma_joined_first(q);
        let rest_a = joined(p.skip(1)) + x;
        let rest_b = joined(q.skip(1)) + y;
        let list_a = in_text_order(domains_of(a, s[0]));
        let list_b = in_text_order(domains_of(b, t[0]));
        assert(joined(p) + x =~= number_text(s[0]) + seq![':'] + (packed(list_a) + rest_a));
        assert(joined(q) + y =~= number_text(t[0]) + seq![':'] + (packed(list_b) + rest_b));
        lemma_same_numbers(s[0], t[0], ':', packed(list_a) + rest_a, packed(list_b) + rest_b);
        lemma_same_packed(list_a, list_b, rest_a, rest_b);
        assert(p.skip(1) =~= feed_texts(a, s.skip(1)));
        assert(q.skip(1) =~= feed_texts(b, t.skip(1)));
        lemma_same_feed_texts(a, b, s.skip(1), t.skip(1), x, y);
        assert(s =~= seq![s[0]] + s.skip(1));
        assert(t =~= seq![t[0]] + t.skip(1));
        assert forall|i: int| 0 <= i < s.len() implies in_text_order(domains_of(a, #[trigger] s[i]))
            == in_text_order(domains_of(b, s[i])) by {
            if i > 0 {
                assert(s.skip(1)[i - 1] == s[i]);
            }
        }
    }
}

/// A set that is kept is the set of what it lists in order.
proof fn lemma_kept_set(set: TextSet)
    ensures
        in_text_order(set@).to_set() == set@,
{
    assert(set.listed().to_set() =~= set@);
    lemma_texts_in_order(set.listed());
}

/// The domains that a feed's number leads to are those of some feed, or none.
proof fn lemma_kept_domains(lists: Seq<CompiledList>, id: int)
    ensures
        in_text_order(domains_of(all_views(lists), id)).to_set() == domains_of(
            all_views(lists),
            id,
        ),
        !feed_ids(all_views(lists)).contains(id) ==> domains_of(all_views(lists), id) == Set::<
            Seq<char>,
        >::empty(),
    decreases lists.len(),
{
    let feeds = all_views(lists);
    if lists.len() == 0 {
        let nothing = Seq::<Seq<char>>::empty();
        assert(nothing.to_set() =~= Set::empty());
        lemma_texts_in_order(nothing);
    } else if feeds[0].id == id {
        assert(feeds[0] == lists[0]@);
        lemma_kept_set(lists[0].domains);
        assert(feed_ids(feeds)[0] == id);
    } else {
        assert(feeds.skip(1) =~= all_views(lists.skip(1)));
        lemma_kept_domains(lists.skip(1), id);
        if feed_ids(feeds.skip(1)).contains(id) {
            let i = choose|i: int| 0 <= i < feeds.skip(1).len() && feed_ids(feeds.skip(1))[i] == id;
            assert(feed_ids(feeds)[i + 1] == id);
        }
    }
}

/// What the content hash is taken of tells the feeds and the blocked domains:
/// two blocklists for which it is the same have the same feeds by number, the
/// same domains under each number, and the same domains blocked for every
/// phone.
pub proof fn law_same_content_same_lists(a: CompiledBlocklist, b: CompiledBlocklist)
    requires
        content_text(a@.feeds, a@.block) == content_text(b@.feeds, b@.block),
    ensures
        forall|id: int|
            #[trigger] feed_ids(a@.feeds).contains(id) <==> feed_ids(b@.feeds).contains(id),
        forall|id: int| #[trigger] domains_of(a@.feeds, id) == domains_of(b@.feeds, id),
        a@.block == b@.block,
{
    let x = feed_ids(a@.feeds);
    let y = feed_ids(b@.feeds);
    let s = sorted_numbers(x);
    let t = sorted_numbers(y);
    let block_a = packed(in_text_order(a@.block));
    let block_b = packed(in_text_order(b@.block));
    let texts_a = joined(feed_texts(a@.feeds, s));
    let texts_b = joined(feed_texts(b@.feeds, t));
    lemma_same_numbers(
        s.len() as int,
        t.len() as int,
        ';',
        texts_a + block_a,
        texts_b + block_b,
    );
    lemma_same_feed_texts(a@.feeds, b@.feeds, s, t, block_a, block_b);
    assert(block_a + Seq::<char>::empty() =~= block_b + Seq::<char>::empty());
    lemma_same_packed(
        in_text_order(a@.block),
        in_text_order(b@.block),
        Seq::empty(),
        Seq::empty(),
    );
    lemma_kept_set(a.global_custom_block);
    lemma_kept_set(b.global_custom_block);
    lemma_sorted_numbers(x);
    lemma_sorted_numbers(y);
    assert forall|id: int| #[trigger] x.contains(id) <==> y.contains(id) by {
        vstd::seq_lib::to_multiset_contains(x, id);
        vstd::seq_lib::to_multiset_contains(y, id);
        vstd::seq_lib::to_multiset_contains(s, id);
        vstd::seq_lib::to_multiset_contains(t, id);
    }
    assert forall|id: int| #[trigger] domains_of(a@.feeds, id) == domains_of(b@.feeds, id) by {
        lemma_kept_domains(a.lists@, id);
        lemma_kept_domains(b.lists@, id);
        assert(x.contains(id) == y.contains(id));
        if x.contains(id) {
            vstd::seq_lib::to_multiset_contains(x, id);
            vstd::seq_lib::to_multiset_contains(s, id);
            let i = choose|i: int| 0 <= i < s.len() && s[i] == id;
            assert(in_text_order(domains_of(a@.feeds, s[i])) == in_text_order(
                domains_of(b@.feeds, s[i]),
            ));
        }
    }
}

/// SHA-256 tells two texts apart. It is meant to do so for any two; that it
/// does is a matter of chance.
pub open spec fn told_apart(a: Seq<char>, b: Seq<char>) -> bool {
    sha256_of(encode_utf8(a)) == sha256_of(encode_utf8(b)) ==> encode_utf8(a) == encode_utf8(b)
}

/// The content hash tells whether the feeds or the domains that are blocked for
/// every phone have changed: two blocklists with the same content hash have the
/// same feeds by number, the same domains under each number, and the same
/// domains blocked for every phone, as far as SHA-256 tells their contents
/// apart.
pub proof fn law_same_hash_same_lists(a: CompiledBlocklist, b: CompiledBlocklist)
    requires
        told_apart(content_text(a@.feeds, a@.block), content_text(b@.feeds, b@.block)),
        content_hash_of(a@.feeds, a@.block) == content_hash_of(b@.feeds, b@.block),
    ensures
        forall|id: int|
            #[trigger] feed_ids(a@.feeds).contains(id) <==> feed_ids(b@.feeds).contains(id),
        forall|id: int| #[trigger] domains_of(a@.feeds, id) == domains_of(b@.feeds, id),
        a@.block == b@.block,
{
    let x = content_text(a@.feeds, a@.block);
    let y = content_text(b@.feeds, b@.block);
    lemma_same_hex_text(sha256_of(encode_utf8(x)), sha256_of(encode_utf8(y)));
    encode_utf8_decode_utf8(x);
    encode_utf8_decode_utf8(y);
    law_same_content_same_lists(a, b);
}

/// Without any feed there is nothing that could be missing, so that what is
/// listed by hand takes effect.
pub proof fn law_without_feeds_the_hand_lists_hold(
    custom: Seq<DnsCustomDomain>,
    previous: BlocklistView,
)
    ensures
        ({
            let r = recompiled(Seq::empty(), custom, Seq::empty(), previous);
            &&& r.feeds.len() == 0
            &&& r.block == global_block(custom)
            &&& r.allow == global_allow(custom)
        }),
{
}

} // verus!
