//! The order of texts, sorted lists of texts and sets of texts.

use crate::text::{chars_of, same_text, views};
use vstd::multiset::Multiset;
use vstd::prelude::*;

verus! {

/// `a` stands before `b` when texts are compared character by character.
pub open spec fn text_less(a: Seq<char>, b: Seq<char>) -> bool
    decreases a.len(),
{
    &&& b.len() > 0
    &&& a.len() == 0 || a[0] < b[0] || (a[0] == b[0] && text_less(
        a.skip(1),
        b.skip(1),
    ))
}

/// `a` stands before `b` or is `b`.
pub open spec fn text_at_most(a: Seq<char>, b: Seq<char>) -> bool {
    a == b || text_less(a, b)
}

/// What two texts start with in common does not matter for their order.
pub proof fn lemma_common_start(p: Seq<char>, a: Seq<char>, b: Seq<char>)
    ensures
        text_less(p + a, p + b) == text_less(a, b),
    decreases p.len(),
{
    if p.len() == 0 {
        assert(p + a =~= a);
        assert(p + b =~= b);
    } else {
        assert((p + a).skip(1) =~= p.skip(1) + a);
        assert((p + b).skip(1) =~= p.skip(1) + b);
        lemma_common_start(p.skip(1), a, b);
    }
}

/// What follows two texts of the same length does not matter for their order.
pub proof fn lemma_followed(a: Seq<char>, b: Seq<char>, s: Seq<char>, t: Seq<char>)
    requires
        a.len() == b.len(),
        text_less(a, b),
    ensures
        text_less(a + s, b + t),
    decreases a.len(),
{
    assert((a + s)[0] == a[0]);
    assert((b + t)[0] == b[0]);
    if a[0] == b[0] {
        assert((a + s).skip(1) =~= a.skip(1) + s);
        assert((b + t).skip(1) =~= b.skip(1) + t);
        lemma_followed(a.skip(1), b.skip(1), s, t);
    }
}

/// Where two texts first differ, the smaller character decides which of them
/// stands first; and a text stands before every longer one that starts with it.
pub proof fn law_first_difference_decides(
    start: Seq<char>,
    a: char,
    b: char,
    x: Seq<char>,
    y: Seq<char>,
)
    requires
        a < b,
    ensures
        text_less(start + (seq![a] + x), start + (seq![b] + y)),
        !text_less(start + (seq![b] + y), start + (seq![a] + x)),
        text_less(start, start + (seq![a] + x)),
        !text_less(start, start),
{
    let p = seq![a] + x;
    let q = seq![b] + y;
    assert(p[0] == a && q[0] == b);
    lemma_common_start(start, p, q);
    lemma_common_start(start, q, p);
    lemma_common_start(start, Seq::empty(), p);
    lemma_common_start(start, Seq::empty(), Seq::empty());
    assert(start + Seq::<char>::empty() =~= start);
}

/// No later text stands before an earlier one.
pub open spec fn ascending(s: Seq<Seq<char>>) -> bool {
    forall|i: int, j: int| 0 <= i <= j < s.len() ==> text_at_most(#[trigger] s[i], #[trigger] s[j])
}

/// Every text stands before the ones behind it; so none occurs twice.
pub open spec fn strictly_ascending(s: Seq<Seq<char>>) -> bool {
    forall|i: int, j: int| 0 <= i < j < s.len() ==> text_less(#[trigger] s[i], #[trigger] s[j])
}

/// The texts of `s` in ascending order.
pub open spec fn sorted(s: Seq<Seq<char>>) -> Seq<Seq<char>> {
    s.sort_by(|a: Seq<char>, b: Seq<char>| text_at_most(a, b))
}

/// Of two texts exactly one of three holds: the first stands before the
/// second, they are the same, or the second stands before the first.
pub proof fn lemma_text_trichotomy(a: Seq<char>, b: Seq<char>)
    ensures
        text_less(a, b) ==> a != b && !text_less(b, a),
        !text_less(a, b) && !text_less(b, a) ==> a == b,
    decreases a.len(),
{
    if a.len() > 0 && b.len() > 0 && a[0] == b[0] {
        lemma_text_trichotomy(a.skip(1), b.skip(1));
        if a.skip(1) == b.skip(1) {
            assert(a =~= seq![a[0]] + a.skip(1));
            assert(b =~= seq![b[0]] + b.skip(1));
        }
    } else if a.len() == 0 && b.len() == 0 {
        assert(a =~= b);
    }
}

/// The order of texts is transitive.
pub proof fn lemma_text_transitive(a: Seq<char>, b: Seq<char>, c: Seq<char>)
    requires
        text_less(a, b),
        text_less(b, c),
    ensures
        text_less(a, c),
    decreases a.len(),
{
    if a.len() > 0 && a[0] == b[0] && b[0] == c[0] {
        lemma_text_transitive(a.skip(1), b.skip(1), c.skip(1));
    }
}

proof fn lemma_at_most_transitive(a: Seq<char>, b: Seq<char>, c: Seq<char>)
    requires
        text_at_most(a, b),
        text_at_most(b, c),
    ensures
        text_at_most(a, c),
{
    if a != b && b != c {
        lemma_text_transitive(a, b, c);
    }
}

/// The order of texts is total.
proof fn lemma_at_most_total()
    ensures
        vstd::relations::total_ordering(|a: Seq<char>, b: Seq<char>| text_at_most(a, b)),
{
    let le = |a: Seq<char>, b: Seq<char>| text_at_most(a, b);
    assert forall|a: Seq<char>, b: Seq<char>| #[trigger] le(a, b) && #[trigger] le(b, a) implies a
        == b by {
        lemma_text_trichotomy(a, b);
    }
    assert forall|a: Seq<char>, b: Seq<char>, c: Seq<char>| #[trigger]
        le(a, b) && #[trigger] le(b, c) implies le(a, c) by {
        lemma_at_most_transitive(a, b, c);
    }
    assert forall|a: Seq<char>, b: Seq<char>| #[trigger] le(a, b) || #[trigger] le(b, a) by {
        lemma_text_trichotomy(a, b);
    }
}

/// A list in ascending order with the same members is the sorted list.
pub proof fn lemma_sorted_is(s: Seq<Seq<char>>, t: Seq<Seq<char>>)
    requires
        ascending(t),
        t.to_multiset() == s.to_multiset(),
    ensures
        t == sorted(s),
{
    let le = |a: Seq<char>, b: Seq<char>| text_at_most(a, b);
    lemma_at_most_total();
    s.lemma_sort_by_ensures(le);
    assert(vstd::relations::sorted_by(t, le)) by {
        assert forall|i: int, j: int| 0 <= i < j < t.len() implies #[trigger] le(t[i], t[j]) by {
            assert(text_at_most(t[i], t[j]));
        }
    }
    vstd::seq_lib::lemma_sorted_unique(t, sorted(s), le);
}

/// The sorted list is in ascending order and has the members it was made of.
pub proof fn lemma_sorted(s: Seq<Seq<char>>)
    ensures
        ascending(sorted(s)),
        sorted(s).to_multiset() == s.to_multiset(),
        sorted(s).len() == s.len(),
{
    let le = |a: Seq<char>, b: Seq<char>| text_at_most(a, b);
    lemma_at_most_total();
    s.lemma_sort_by_ensures(le);
    let t = sorted(s);
    assert forall|i: int, j: int| 0 <= i <= j < t.len() implies text_at_most(
        #[trigger] t[i],
        #[trigger] t[j],
    ) by {
        if i < j {
            assert(le(t[i], t[j]));
        }
    }
    t.to_multiset_ensures();
    s.to_multiset_ensures();
}

/// Whether `a` stands before `b`.
pub fn less_text(a: &str, b: &str) -> (r: bool)
    ensures
        r == text_less(a@, b@),
{
    let x = chars_of(a);
    let y = chars_of(b);
    let mut i: usize = 0;
    proof {
        assert(a@.skip(0) == a@);
        assert(b@.skip(0) == b@);
    }
    while i < x.len() && i < y.len() && x[i] == y[i]
        invariant
            x@ == a@,
            y@ == b@,
            i <= x@.len(),
            i <= y@.len(),
            text_less(a@, b@) == text_less(a@.skip(i as int), b@.skip(i as int)),
        decreases x@.len() - i,
    {
        proof {
            assert(a@.skip(i as int).skip(1) == a@.skip(i + 1));
            assert(b@.skip(i as int).skip(1) == b@.skip(i + 1));
        }
        i += 1;
    }
    i < y.len() && (i == x.len() || x[i] < y[i])
}

/// In ascending order if `up`, else in descending order.
spec fn one_way(s: Seq<Seq<char>>, up: bool) -> bool {
    forall|i: int, j: int|
        0 <= i <= j < s.len() ==> if up {
            text_at_most(#[trigger] s[i], #[trigger] s[j])
        } else {
            text_at_most(s[j], s[i])
        }
}

/// Nothing in `t` has to stand on this side of what is in `s`.
spec fn no_nearer(s: Seq<Seq<char>>, t: Seq<Seq<char>>, up: bool) -> bool {
    forall|i: int, j: int|
        0 <= i < s.len() && 0 <= j < t.len() ==> if up {
            text_at_most(#[trigger] s[i], #[trigger] t[j])
        } else {
            text_at_most(t[j], s[i])
        }
}

proof fn lemma_views_drop_last(v: Seq<String>)
    requires
        v.len() > 0,
    ensures
        views(v) == views(v.drop_last()).push(v.last()@),
        views(v).to_multiset() == views(v.drop_last()).to_multiset().insert(v.last()@),
{
    assert(views(v) =~= views(v.drop_last()).push(v.last()@));
    views(v.drop_last()).to_multiset_ensures();
}

/// Moves the last text of `from` behind `out`.
proof fn lemma_moved(
    out: Seq<Seq<char>>,
    from: Seq<Seq<char>>,
    other: Seq<Seq<char>>,
    up: bool,
)
    requires
        from.len() > 0,
        one_way(out, up),
        one_way(from, !up),
        one_way(other, !up),
        no_nearer(out, from, up),
        no_nearer(out, other, up),
        other.len() > 0 ==> if up {
            text_at_most(from.last(), other.last())
        } else {
            text_at_most(other.last(), from.last())
        },
    ensures
        one_way(out.push(from.last()), up),
        one_way(from.drop_last(), !up),
        no_nearer(out.push(from.last()), from.drop_last(), up),
        no_nearer(out.push(from.last()), other, up),
{
    let x = from.last();
    let out2 = out.push(x);
    assert forall|i: int, j: int| 0 <= i <= j < out2.len() implies if up {
        text_at_most(#[trigger] out2[i], #[trigger] out2[j])
    } else {
        text_at_most(out2[j], out2[i])
    } by {
        if j == out.len() && i < out.len() {
            assert(out2[i] == out[i]);
            assert(x == from[from.len() - 1]);
        }
    }
    assert forall|i: int, j: int| 0 <= i < out2.len() && 0 <= j < other.len() implies if up {
        text_at_most(#[trigger] out2[i], #[trigger] other[j])
    } else {
        text_at_most(other[j], out2[i])
    } by {
        if i == out.len() {
            let y = other[other.len() - 1];
            if up {
                assert(text_at_most(y, other[j]));
                lemma_at_most_transitive(x, y, other[j]);
            } else {
                assert(text_at_most(other[j], y));
                lemma_at_most_transitive(other[j], y, x);
            }
        }
    }
    let rest = from.drop_last();
    assert forall|i: int, j: int| 0 <= i < out2.len() && 0 <= j < rest.len() implies if up {
        text_at_most(#[trigger] out2[i], #[trigger] rest[j])
    } else {
        text_at_most(rest[j], out2[i])
    } by {
        assert(rest[j] == from[j]);
        if i == out.len() {
            assert(x == from[from.len() - 1]);
        }
    }
}

/// Merges two lists that run one way into one that runs the other way.
fn merge(a: Vec<String>, b: Vec<String>, up: bool) -> (r: Vec<String>)
    requires
        one_way(views(a@), !up),
        one_way(views(b@), !up),
    ensures
        one_way(views(r@), up),
        views(r@).to_multiset() == views(a@).to_multiset().add(views(b@).to_multiset()),
{
    broadcast use crate::text::lemma_views_push;

    let mut left = a;
    let mut right = b;
    let mut out: Vec<String> = Vec::new();
    let ghost all = views(a@).to_multiset().add(views(b@).to_multiset());
    proof {
        views(out@).to_multiset_ensures();
        assert(views(out@) =~= Seq::empty());
        assert(views(out@).to_multiset() =~= Multiset::empty());
        assert(all =~= views(out@).to_multiset().add(views(left@).to_multiset()).add(
            views(right@).to_multiset(),
        ));
    }
    while left.len() > 0 || right.len() > 0
        invariant
            one_way(views(left@), !up),
            one_way(views(right@), !up),
            one_way(views(out@), up),
            no_nearer(views(out@), views(left@), up),
            no_nearer(views(out@), views(right@), up),
            all == views(out@).to_multiset().add(views(left@).to_multiset()).add(
                views(right@).to_multiset(),
            ),
        decreases left@.len() + right@.len(),
    {
        let take_left = if left.len() == 0 {
            false
        } else if right.len() == 0 {
            true
        } else {
            let x = left[left.len() - 1].as_str();
            let y = right[right.len() - 1].as_str();
            proof {
                lemma_text_trichotomy(x@, y@);
            }
            if up {
                !less_text(y, x)
            } else {
                !less_text(x, y)
            }
        };
        let ghost l = views(left@);
        let ghost r = views(right@);
        let ghost o = views(out@);
        proof {
            o.to_multiset_ensures();
            if left@.len() > 0 {
                lemma_views_drop_last(left@);
            }
            if right@.len() > 0 {
                lemma_views_drop_last(right@);
            }
            if take_left {
                lemma_moved(o, l, r, up);
            } else {
                lemma_moved(o, r, l, up);
            }
        }
        if take_left {
            if let Some(x) = left.pop() {
                out.push(x);
                proof {
                    assert(l.last() == x@);
                    assert(views(out@) == o.push(x@));
                    assert(views(left@) =~= l.drop_last());
                    assert(all =~= views(out@).to_multiset().add(views(left@).to_multiset()).add(
                        views(right@).to_multiset(),
                    ));
                }
            }
        } else {
            if let Some(x) = right.pop() {
                out.push(x);
                proof {
                    assert(r.last() == x@);
                    assert(views(out@) == o.push(x@));
                    assert(views(right@) =~= r.drop_last());
                    assert(all =~= views(out@).to_multiset().add(views(left@).to_multiset()).add(
                        views(right@).to_multiset(),
                    ));
                }
            }
        }
    }
    proof {
        views(left@).to_multiset_ensures();
        views(right@).to_multiset_ensures();
        assert(views(left@) =~= Seq::empty());
        assert(views(right@) =~= Seq::empty());
        assert(all =~= views(out@).to_multiset());
    }
    out
}

/// The texts of `v`, in ascending order if `up`, else in descending order.
fn sort_one_way(v: Vec<String>, up: bool) -> (r: Vec<String>)
    ensures
        one_way(views(r@), up),
        views(r@).to_multiset() == views(v@).to_multiset(),
    decreases v@.len(),
{
    if v.len() <= 1 {
        return v;
    }
    let ghost all = v@;
    let mut left = v;
    let mid = left.len() / 2;
    let right = left.split_off(mid);
    proof {
        assert(views(all) =~= views(left@) + views(right@));
        vstd::seq_lib::lemma_multiset_commutative(views(left@), views(right@));
    }
    merge(sort_one_way(left, !up), sort_one_way(right, !up), up)
}

/// The texts of `v` in ascending order.
pub fn sort_texts(v: Vec<String>) -> (r: Vec<String>)
    ensures
        views(r@) == sorted(views(v@)),
{
    let ghost before = views(v@);
    let r = sort_one_way(v, true);
    proof {
        lemma_sorted_is(before, views(r@));
    }
    r
}

/// A set of texts, kept as a list in strictly ascending order.
pub struct TextSet {
    items: Vec<String>,
}

impl View for TextSet {
    type V = Set<Seq<char>>;

    open spec fn view(&self) -> Set<Seq<char>> {
        self.listed().to_set()
    }
}

/// Two lists in strictly ascending order with the same members are the same.
pub proof fn lemma_strictly_ascending_unique(s: Seq<Seq<char>>, t: Seq<Seq<char>>)
    requires
        strictly_ascending(s),
        strictly_ascending(t),
        s.to_set() == t.to_set(),
    ensures
        s == t,
    decreases s.len(),
{
    if s.len() == 0 {
        if t.len() > 0 {
            assert(t.to_set().contains(t[0]));
        }
        assert(s =~= t);
    } else {
        assert(s.to_set().contains(s.last()));
        assert(t.to_set().contains(s.last()));
        let k = choose|k: int| 0 <= k < t.len() && t[k] == s.last();
        assert(s.to_set().contains(t.last()));
        let m = choose|m: int| 0 <= m < s.len() && s[m] == t.last();
        if k < t.len() - 1 {
            assert(text_less(t[k], t[t.len() - 1]));
            if m < s.len() - 1 {
                assert(text_less(s[m], s[s.len() - 1]));
            }
            lemma_text_trichotomy(s.last(), t.last());
        }
        assert(s.last() == t.last());
        let s1 = s.drop_last();
        let t1 = t.drop_last();
        assert forall|x: Seq<char>| s1.to_set().contains(x) implies t1.to_set().contains(x) by {
            let i = choose|i: int| 0 <= i < s1.len() && s1[i] == x;
            assert(s[i] == x);
            assert(text_less(s[i], s[s.len() - 1]));
            lemma_text_trichotomy(s[i], s.last());
            assert(s.to_set().contains(x));
            let j = choose|j: int| 0 <= j < t.len() && t[j] == x;
            assert(t1[j] == x);
        }
        assert forall|x: Seq<char>| t1.to_set().contains(x) implies s1.to_set().contains(x) by {
            let i = choose|i: int| 0 <= i < t1.len() && t1[i] == x;
            assert(t[i] == x);
            assert(text_less(t[i], t[t.len() - 1]));
            lemma_text_trichotomy(t[i], t.last());
            assert(t.to_set().contains(x));
            let j = choose|j: int| 0 <= j < s.len() && s[j] == x;
            assert(s1[j] == x);
        }
        assert(s1.to_set() =~= t1.to_set());
        lemma_strictly_ascending_unique(s1, t1);
        assert(s =~= s1.push(s.last()));
        assert(t =~= t1.push(t.last()));
    }
}

impl TextSet {
    /// The members, in the order in which they are kept.
    pub closed spec fn listed(&self) -> Seq<Seq<char>> {
        views(self.items@)
    }

    /// The members stand in strictly ascending order.
    pub open spec fn wf(&self) -> bool {
        strictly_ascending(self.listed())
    }

    /// The set without members.
    pub fn new() -> (r: TextSet)
        ensures
            r.wf(),
            r.listed().len() == 0,
            r@ == Set::<Seq<char>>::empty(),
    {
        let r = TextSet { items: Vec::new() };
        proof {
            assert(r@ =~= Set::empty());
        }
        r
    }

    /// The set of the texts in `v`.
    pub fn from_texts(v: Vec<String>) -> (r: TextSet)
        ensures
            r.wf(),
            r@ == views(v@).to_set(),
    {
        broadcast use crate::text::lemma_views_push;

        let ghost given = views(v@);
        let all = sort_texts(v);
        let ghost s = views(all@);
        proof {
            lemma_sorted(given);
        }
        let mut items: Vec<String> = Vec::new();
        let mut i: usize = 0;
        while i < all.len()
            invariant
                i <= all@.len(),
                s == views(all@),
                ascending(s),
                strictly_ascending(views(items@)),
                items@.len() > 0 <==> i > 0,
                i > 0 ==> views(items@).last() == s[i - 1],
                forall|x: Seq<char>|
                    views(items@).contains(x) <==> #[trigger] s.take(i as int).contains(x),
            decreases all@.len() - i,
        {
            let ghost before = views(items@);
            let fresh = i == 0 || !same_text(all[i - 1].as_str(), all[i].as_str());
            proof {
                assert(s.take(i + 1) =~= s.take(i as int).push(s[i as int]));
                if i > 0 {
                    assert(text_at_most(s[i - 1], s[i as int]));
                }
            }
            if fresh {
                let x = all[i].clone();
                items.push(x);
                proof {
                    let now = views(items@);
                    assert(now == before.push(s[i as int]));
                    assert forall|a: int, b: int| 0 <= a < b < now.len() implies text_less(
                        #[trigger] now[a],
                        #[trigger] now[b],
                    ) by {
                        if b == before.len() && a < b - 1 {
                            assert(text_less(before[a], before[b - 1]));
                            lemma_text_transitive(before[a], s[i - 1], s[i as int]);
                        }
                    }
                    assert forall|x: Seq<char>|
                        now.contains(x) <==> #[trigger] s.take(i + 1).contains(x) by {
                        lemma_contains_push(before, s[i as int], x);
                        lemma_contains_push(s.take(i as int), s[i as int], x);
                    }
                }
            } else {
                proof {
                    assert forall|x: Seq<char>|
                        before.contains(x) <==> #[trigger] s.take(i + 1).contains(x) by {
                        lemma_contains_push(s.take(i as int), s[i as int], x);
                        assert(before.contains(before.last()));
                    }
                }
            }
            i += 1;
        }
        let r = TextSet { items };
        proof {
            assert(s.take(i as int) =~= s);
            assert forall|x: Seq<char>| r@.contains(x) <==> given.to_set().contains(x) by {
                assert(s.take(i as int).contains(x) == s.contains(x));
                broadcast use vstd::seq_lib::group_to_multiset_ensures;

                assert(s.contains(x) <==> s.to_multiset().count(x) > 0);
                assert(given.contains(x) <==> given.to_multiset().count(x) > 0);
            }
            assert(r@ =~= given.to_set());
        }
        r
    }

    /// How many members the set has.
    pub fn len(&self) -> (r: usize)
        ensures
            r == self.listed().len(),
    {
        self.items.len()
    }

    /// The member at index `i`.
    pub fn at(&self, i: usize) -> (r: &String)
        requires
            i < self.listed().len(),
        ensures
            r@ == self.listed()[i as int],
    {
        &self.items[i]
    }

    /// The members, in order.
    pub fn to_list(&self) -> (r: Vec<String>)
        ensures
            views(r@) == self.listed(),
    {
        broadcast use crate::text::lemma_views_push;

        let mut r: Vec<String> = Vec::new();
        let mut i: usize = 0;
        proof {
            assert(views(r@) =~= self.listed().take(0));
        }
        while i < self.items.len()
            invariant
                i <= self.items@.len(),
                views(r@) == self.listed().take(i as int),
            decreases self.items@.len() - i,
        {
            let ghost before = r@;
            let x = self.items[i].clone();
            r.push(x);
            proof {
                assert(views(r@) == views(before).push(x@));
                assert(self.listed()[i as int] == x@);
                assert(views(r@) =~= self.listed().take(i + 1));
            }
            i += 1;
        }
        proof {
            assert(self.listed().take(i as int) =~= self.listed());
        }
        r
    }

    /// Whether `x` is a member.
    pub fn contains(&self, x: &str) -> (r: bool)
        requires
            self.wf(),
        ensures
            r == self@.contains(x@),
    {
        let ghost s = self.listed();
        let mut lo: usize = 0;
        let mut hi: usize = self.items.len();
        while lo < hi
            invariant
                lo <= hi <= self.items@.len(),
                s == views(self.items@),
                strictly_ascending(s),
                forall|j: int| 0 <= j < lo ==> text_less(#[trigger] s[j], x@),
                forall|j: int| hi <= j < s.len() ==> text_less(x@, #[trigger] s[j]),
            decreases hi - lo,
        {
            let mid: usize = lo + (hi - lo) / 2;
            let m = self.items[mid].as_str();
            proof {
                lemma_text_trichotomy(x@, m@);
                assert(s[mid as int] == m@);
            }
            if less_text(m, x) {
                proof {
                    assert forall|j: int| 0 <= j <= mid implies text_less(
                        #[trigger] s[j],
                        x@,
                    ) by {
                        if j < mid {
                            lemma_text_transitive(s[j], s[mid as int], x@);
                        }
                    }
                }
                lo = mid + 1;
            } else if less_text(x, m) {
                proof {
                    assert forall|j: int| mid <= j < s.len() implies text_less(
                        x@,
                        #[trigger] s[j],
                    ) by {
                        if j > mid {
                            lemma_text_transitive(x@, s[mid as int], s[j]);
                        }
                    }
                }
                hi = mid;
            } else {
                proof {
                    assert(s.contains(x@));
                }
                return true;
            }
        }
        proof {
            if s.contains(x@) {
                let j = choose|j: int| 0 <= j < s.len() && s[j] == x@;
                lemma_text_trichotomy(x@, s[j]);
            }
        }
        false
    }
}

proof fn lemma_contains_push(s: Seq<Seq<char>>, a: Seq<char>, x: Seq<char>)
    ensures
        s.push(a).contains(x) <==> s.contains(x) || x == a,
{
    if s.contains(x) {
        let i = choose|i: int| 0 <= i < s.len() && s[i] == x;
        assert(s.push(a)[i] == x);
    }
    if x == a {
        assert(s.push(a)[s.len() as int] == x);
    }
    if s.push(a).contains(x) {
        let i = choose|i: int| 0 <= i < s.push(a).len() && s.push(a)[i] == x;
        if i < s.len() {
            assert(s[i] == x);
        }
    }
}

/// What a list holds once a text has been put behind it.
pub proof fn lemma_contains_after_push(s: Seq<Seq<char>>, a: Seq<char>)
    ensures
        forall|x: Seq<char>| #[trigger] s.push(a).contains(x) <==> s.contains(x) || x == a,
{
    assert forall|x: Seq<char>| #[trigger] s.push(a).contains(x) <==> s.contains(x) || x
        == a by {
        lemma_contains_push(s, a, x);
    }
}

/// The members of a set of texts in ascending order.
pub open spec fn in_text_order(s: Set<Seq<char>>) -> Seq<Seq<char>> {
    choose|l: Seq<Seq<char>>| strictly_ascending(l) && #[trigger] l.to_set() == s
}

/// A well-formed set lists its members in ascending order.
pub proof fn lemma_in_text_order(a: TextSet)
    requires
        a.wf(),
    ensures
        a.listed() == in_text_order(a@),
{
    assert(a.listed().to_set() == a@);
    lemma_strictly_ascending_unique(a.listed(), in_text_order(a@));
}

/// The list with `x` where it belongs, unless it holds `x` already.
spec fn spliced(l: Seq<Seq<char>>, x: Seq<char>) -> Seq<Seq<char>>
    decreases l.len(),
{
    if l.len() == 0 || text_less(l.last(), x) {
        l.push(x)
    } else if l.last() == x {
        l
    } else {
        spliced(l.drop_last(), x).push(l.last())
    }
}

proof fn lemma_spliced(l: Seq<Seq<char>>, x: Seq<char>)
    requires
        strictly_ascending(l),
    ensures
        strictly_ascending(spliced(l, x)),
        forall|y: Seq<char>| #[trigger] spliced(l, x).contains(y) <==> l.contains(y) || y == x,
    decreases l.len(),
{
    lemma_contains_after_push(l, x);
    if l.len() == 0 {
    } else if text_less(l.last(), x) {
        let r = l.push(x);
        assert forall|i: int, j: int| 0 <= i < j < r.len() implies text_less(
            #[trigger] r[i],
            #[trigger] r[j],
        ) by {
            if j == l.len() && i < l.len() - 1 {
                assert(text_less(l[i], l[l.len() - 1]));
                lemma_text_transitive(l[i], l.last(), x);
            }
        }
    } else if l.last() == x {
        assert(l.contains(l[l.len() - 1]));
    } else {
        let fewer = l.drop_last();
        let shorter = spliced(fewer, x);
        let last = l.last();
        lemma_spliced(fewer, x);
        lemma_text_trichotomy(last, x);
        lemma_contains_after_push(shorter, last);
        lemma_contains_after_push(fewer, last);
        assert(l =~= fewer.push(last));
        let r = shorter.push(last);
        assert forall|i: int, j: int| 0 <= i < j < r.len() implies text_less(
            #[trigger] r[i],
            #[trigger] r[j],
        ) by {
            if j == shorter.len() {
                assert(shorter.contains(shorter[i]));
                if shorter[i] != x {
                    assert(fewer.contains(shorter[i]));
                    let k = choose|k: int| 0 <= k < fewer.len() && fewer[k] == shorter[i];
                    assert(text_less(l[k], l[l.len() - 1]));
                }
            } else {
                assert(text_less(shorter[i], shorter[j]));
            }
        }
    }
}

proof fn lemma_listable(texts: Seq<Seq<char>>) -> (l: Seq<Seq<char>>)
    ensures
        strictly_ascending(l),
        l.to_set() == texts.to_set(),
    decreases texts.len(),
{
    if texts.len() == 0 {
        assert(texts.to_set() =~= Seq::<Seq<char>>::empty().to_set());
        Seq::empty()
    } else {
        let fewer = texts.drop_last();
        let x = texts.last();
        let l = lemma_listable(fewer);
        lemma_spliced(l, x);
        lemma_contains_after_push(fewer, x);
        assert(texts =~= fewer.push(x));
        assert forall|y: Seq<char>| spliced(l, x).to_set().contains(y)
            <==> texts.to_set().contains(y) by {
            assert(l.to_set().contains(y) == fewer.to_set().contains(y));
            assert(spliced(l, x).contains(y) <==> l.contains(y) || y == x);
        }
        assert(spliced(l, x).to_set() =~= texts.to_set());
        spliced(l, x)
    }
}

/// The members of some texts in ascending order are those texts.
pub proof fn lemma_texts_in_order(texts: Seq<Seq<char>>)
    ensures
        strictly_ascending(in_text_order(texts.to_set())),
        in_text_order(texts.to_set()).to_set() == texts.to_set(),
{
    let l = lemma_listable(texts);
    assert(strictly_ascending(l) && l.to_set() == texts.to_set());
}

/// Numbers in ascending order; a number that occurs twice stays twice.
pub open spec fn sorted_numbers(s: Seq<int>) -> Seq<int> {
    s.sort_by(|a: int, b: int| a <= b)
}

/// The numbers of a list, as integers.
pub open spec fn numbers(s: Seq<i64>) -> Seq<int> {
    Seq::new(s.len(), |i: int| s[i] as int)
}

/// A list in ascending order with the same members is the sorted list.
proof fn lemma_sorted_numbers_is(s: Seq<int>, t: Seq<int>)
    requires
        forall|i: int, j: int| 0 <= i < j < t.len() ==> t[i] <= t[j],
        t.to_multiset() == s.to_multiset(),
    ensures
        t == sorted_numbers(s),
{
    let le = |a: int, b: int| a <= b;
    s.lemma_sort_by_ensures(le);
    vstd::seq_lib::lemma_sorted_unique(t, sorted_numbers(s), le);
}

/// Lists with the same members sort to the same list.
pub proof fn lemma_sorted_numbers_same(s: Seq<int>, t: Seq<int>)
    requires
        s.to_multiset() == t.to_multiset(),
    ensures
        sorted_numbers(s) == sorted_numbers(t),
{
    let le = |a: int, b: int| a <= b;
    s.lemma_sort_by_ensures(le);
    t.lemma_sort_by_ensures(le);
    vstd::seq_lib::lemma_sorted_unique(sorted_numbers(s), sorted_numbers(t), le);
}

/// The sorted list has the members it was made of.
pub proof fn lemma_sorted_numbers(s: Seq<int>)
    ensures
        sorted_numbers(s).to_multiset() == s.to_multiset(),
        sorted_numbers(s).len() == s.len(),
{
    let le = |a: int, b: int| a <= b;
    s.lemma_sort_by_ensures(le);
    s.to_multiset_ensures();
    sorted_numbers(s).to_multiset_ensures();
}

/// The numbers of `v` in ascending order.
pub fn sort_numbers(v: &Vec<i64>) -> (r: Vec<i64>)
    ensures
        numbers(r@) == sorted_numbers(numbers(v@)),
{
    broadcast use vstd::seq_lib::group_to_multiset_ensures;

    let ghost s = numbers(v@);
    let mut r: Vec<i64> = Vec::new();
    let mut i: usize = 0;
    proof {
        assert(numbers(r@) =~= s.take(0));
    }
    while i < v.len()
        invariant
            i <= v@.len(),
            s == numbers(v@),
            numbers(r@).to_multiset() == s.take(i as int).to_multiset(),
            forall|a: int, b: int| 0 <= a < b < r@.len() ==> r@[a] <= r@[b],
        decreases v@.len() - i,
    {
        let x = v[i];
        let ghost before = r@;
        let mut k: usize = r.len();
        while k > 0 && x < r[k - 1]
            invariant
                r@ == before,
                k <= before.len(),
                forall|a: int, b: int| 0 <= a < b < before.len() ==> before[a] <= before[b],
                forall|j: int| k <= j < before.len() ==> x < before[j],
            decreases k,
        {
            k -= 1;
        }
        r.insert(k, x);
        proof {
            assert(s.take(i + 1) =~= s.take(i as int).push(x as int));
            assert(numbers(r@) =~= numbers(before).insert(k as int, x as int));
            vstd::seq_lib::to_multiset_insert(numbers(before), k as int, x as int);
            vstd::seq_lib::to_multiset_build(s.take(i as int), x as int);
        }
        i += 1;
    }
    proof {
        assert(s.take(i as int) =~= s);
        lemma_sorted_numbers_is(s, numbers(r@));
    }
    r
}

/// A thing that stands in a list in an order of its own.
pub trait Placed: View + Sized {
    /// `later` has to stand before `earlier`, though it came after it.
    spec fn overtakes(later: Self::V, earlier: Self::V) -> bool;

    /// Whether this thing has to stand before `earlier`.
    fn passes(&self, earlier: &Self) -> (r: bool)
        ensures
            r == Self::overtakes(self@, earlier@),
    ;

    /// Two things do not both have to stand before each other, and what need
    /// not stand before a second that need not stand before a third need not
    /// stand before the third.
    proof fn coherent(a: Self::V, b: Self::V, c: Self::V)
        ensures
            Self::overtakes(a, b) ==> !Self::overtakes(b, a),
            !Self::overtakes(b, a) && !Self::overtakes(c, b) ==> !Self::overtakes(c, a),
    ;
}

/// Texts overtake each other in a coherent way.
pub proof fn lemma_texts_coherent(a: Seq<char>, b: Seq<char>, c: Seq<char>)
    ensures
        text_less(a, b) ==> !text_less(b, a),
        !text_less(b, a) && !text_less(c, b) ==> !text_less(c, a),
{
    lemma_text_trichotomy(a, b);
    lemma_text_trichotomy(b, c);
    lemma_text_trichotomy(c, a);
    if text_less(a, b) && text_less(b, c) {
        lemma_text_transitive(a, b, c);
    }
}

/// Nothing in the list has to stand before something in front of it.
pub open spec fn ordered<T: Placed>(s: Seq<T::V>) -> bool {
    forall|i: int, j: int| 0 <= i < j < s.len() ==> !T::overtakes(#[trigger] s[j], #[trigger] s[i])
}

/// The views of a list of things.
pub open spec fn all_views<T: View>(s: Seq<T>) -> Seq<T::V> {
    Seq::new(s.len(), |i: int| s[i]@)
}

/// The list `s` with `x` put behind everything that it does not overtake.
pub open spec fn placed<T: Placed>(s: Seq<T::V>, x: T::V) -> Seq<T::V>
    decreases s.len(),
{
    if s.len() > 0 && T::overtakes(x, s.last()) {
        placed::<T>(s.drop_last(), x).push(s.last())
    } else {
        s.push(x)
    }
}

/// The list `s` in order; things that do not overtake each other stay in the
/// order in which they came.
pub open spec fn in_order<T: Placed>(s: Seq<T::V>) -> Seq<T::V>
    decreases s.len(),
{
    if s.len() == 0 {
        s
    } else {
        placed::<T>(in_order::<T>(s.drop_last()), s.last())
    }
}

/// `placed` inserts at one index and keeps the rest.
proof fn lemma_placed<T: Placed>(s: Seq<T::V>, x: T::V, k: int)
    requires
        0 <= k <= s.len(),
        forall|j: int| k <= j < s.len() ==> T::overtakes(x, #[trigger] s[j]),
        k > 0 ==> !T::overtakes(x, s[k - 1]),
    ensures
        placed::<T>(s, x) == s.insert(k, x),
    decreases s.len(),
{
    if k < s.len() {
        assert(T::overtakes(x, s[s.len() - 1]));
        lemma_placed::<T>(s.drop_last(), x, k);
        assert(s.drop_last().insert(k, x).push(s.last()) =~= s.insert(k, x));
    } else {
        assert(s.insert(k, x) =~= s.push(x));
    }
}

/// A list stays in order when a thing is put where it belongs, and holds that
/// thing and what it held before.
proof fn lemma_placed_ordered<T: Placed>(s: Seq<T::V>, x: T::V)
    requires
        ordered::<T>(s),
    ensures
        ordered::<T>(placed::<T>(s, x)),
        placed::<T>(s, x).len() == s.len() + 1,
        forall|i: int|
            0 <= i < placed::<T>(s, x).len() ==> #[trigger] placed::<T>(s, x)[i] == x
                || s.contains(placed::<T>(s, x)[i]),
    decreases s.len(),
{
    let r = placed::<T>(s, x);
    if s.len() > 0 && T::overtakes(x, s.last()) {
        let fewer = s.drop_last();
        assert forall|i: int, j: int| 0 <= i < j < fewer.len() implies !T::overtakes(
            #[trigger] fewer[j],
            #[trigger] fewer[i],
        ) by {
            assert(!T::overtakes(s[j], s[i]));
        }
        lemma_placed_ordered::<T>(fewer, x);
        let shorter = placed::<T>(fewer, x);
        assert forall|i: int| 0 <= i < r.len() implies #[trigger] r[i] == x || s.contains(r[i]) by {
            if i < shorter.len() {
                if shorter[i] != x {
                    assert(fewer.contains(shorter[i]));
                    let k = choose|k: int| 0 <= k < fewer.len() && fewer[k] == shorter[i];
                    assert(s[k] == r[i]);
                }
            } else {
                assert(s[s.len() - 1] == r[i]);
            }
        }
        assert forall|i: int, j: int| 0 <= i < j < r.len() implies !T::overtakes(
            #[trigger] r[j],
            #[trigger] r[i],
        ) by {
            if j < shorter.len() {
                assert(!T::overtakes(shorter[j], shorter[i]));
            } else {
                T::coherent(x, s.last(), x);
                if shorter[i] != x {
                    assert(fewer.contains(shorter[i]));
                    let k = choose|k: int| 0 <= k < fewer.len() && fewer[k] == shorter[i];
                    assert(!T::overtakes(s[s.len() - 1], s[k]));
                }
            }
        }
    } else {
        assert forall|i: int, j: int| 0 <= i < j < r.len() implies !T::overtakes(
            #[trigger] r[j],
            #[trigger] r[i],
        ) by {
            if j < s.len() {
                assert(!T::overtakes(s[j], s[i]));
            } else if i < s.len() - 1 {
                assert(!T::overtakes(s[s.len() - 1], s[i]));
                T::coherent(s[i], s.last(), x);
            }
        }
        assert forall|i: int| 0 <= i < r.len() implies #[trigger] r[i] == x || s.contains(r[i]) by {
            if i < s.len() {
                assert(s[i] == r[i]);
            }
        }
    }
}

/// A list that was put in order is in order and as long as before.
pub proof fn lemma_in_order<T: Placed>(s: Seq<T::V>)
    ensures
        ordered::<T>(in_order::<T>(s)),
        in_order::<T>(s).len() == s.len(),
    decreases s.len(),
{
    if s.len() > 0 {
        lemma_in_order::<T>(s.drop_last());
        lemma_placed_ordered::<T>(in_order::<T>(s.drop_last()), s.last());
    }
}

/// How many things of a list are of a kind.
pub open spec fn tally<V>(s: Seq<V>, kind: spec_fn(V) -> bool) -> nat
    decreases s.len(),
{
    if s.len() == 0 {
        0
    } else {
        tally(s.drop_last(), kind) + (if kind(s.last()) {
            1nat
        } else {
            0nat
        })
    }
}

/// One more thing counts if it is of the kind.
proof fn lemma_tally_push<V>(s: Seq<V>, x: V, kind: spec_fn(V) -> bool)
    ensures
        tally(s.push(x), kind) == tally(s, kind) + (if kind(x) {
            1nat
        } else {
            0nat
        }),
{
    assert(s.push(x).drop_last() =~= s);
}

proof fn lemma_tally_placed<T: Placed>(s: Seq<T::V>, x: T::V, kind: spec_fn(T::V) -> bool)
    ensures
        tally(placed::<T>(s, x), kind) == tally(s.push(x), kind),
    decreases s.len(),
{
    if s.len() > 0 && T::overtakes(x, s.last()) {
        let fewer = s.drop_last();
        lemma_tally_placed::<T>(fewer, x, kind);
        lemma_tally_push(fewer, x, kind);
        lemma_tally_push(placed::<T>(fewer, x), s.last(), kind);
        lemma_tally_push(s, x, kind);
    }
}

/// Putting a list in order neither adds nor drops anything.
pub proof fn lemma_tally_in_order<T: Placed>(s: Seq<T::V>, kind: spec_fn(T::V) -> bool)
    ensures
        tally(in_order::<T>(s), kind) == tally(s, kind),
    decreases s.len(),
{
    if s.len() > 0 {
        let fewer = s.drop_last();
        lemma_tally_in_order::<T>(fewer, kind);
        lemma_tally_placed::<T>(in_order::<T>(fewer), s.last(), kind);
        assert(in_order::<T>(fewer).push(s.last()).drop_last() =~= in_order::<T>(fewer));
    }
}

/// The things of two lists together.
pub proof fn lemma_tally_concat<V>(a: Seq<V>, b: Seq<V>, kind: spec_fn(V) -> bool)
    ensures
        tally(a + b, kind) == tally(a, kind) + tally(b, kind),
    decreases b.len(),
{
    if b.len() == 0 {
        assert(a + b =~= a);
    } else {
        lemma_tally_concat(a, b.drop_last(), kind);
        assert((a + b).drop_last() =~= a + b.drop_last());
    }
}

/// Puts `x` into a list, behind everything that it does not overtake.
pub fn place<T: Placed>(list: &mut Vec<T>, x: T)
    ensures
        all_views(final(list)@) == placed::<T>(all_views(old(list)@), x@),
{
    let ghost before = list@;
    let mut k: usize = list.len();
    while k > 0 && x.passes(&list[k - 1])
        invariant
            list@ == before,
            k <= before.len(),
            forall|j: int| k <= j < before.len() ==> T::overtakes(x@, (#[trigger] before[j])@),
        decreases k,
    {
        k -= 1;
    }
    proof {
        let s = all_views(before);
        assert forall|j: int| k <= j < s.len() implies T::overtakes(x@, #[trigger] s[j]) by {
            assert(s[j] == before[j]@);
        }
        lemma_placed::<T>(s, x@, k as int);
        assert(all_views(before.insert(k as int, x)) =~= s.insert(k as int, x@));
    }
    list.insert(k, x);
}

/// The things of a list in order.
pub fn arrange<T: Placed>(list: Vec<T>) -> (r: Vec<T>)
    ensures
        all_views(r@) == in_order::<T>(all_views(list@)),
{
    let ghost given = all_views(list@);
    let ghost whole = list@;
    let mut rest = list;
    let mut r: Vec<T> = Vec::new();
    let n = rest.len();
    let mut i: usize = 0;
    proof {
        assert(all_views(r@) =~= given.take(0));
        assert(given.take(0).len() == 0);
    }
    while i < n
        invariant
            i <= n == whole.len(),
            given == all_views(whole),
            rest@ == whole.skip(i as int),
            all_views(r@) == in_order::<T>(given.take(i as int)),
        decreases n - i,
    {
        let x = rest.remove(0);
        proof {
            assert(given.take(i + 1).drop_last() =~= given.take(i as int));
            assert(given.take(i + 1).last() == x@);
            assert(rest@ =~= whole.skip(i + 1));
        }
        place(&mut r, x);
        i += 1;
    }
    proof {
        assert(given.take(i as int) =~= given);
    }
    r
}

/// The members of a list that fit are the members of the list that was cut down
/// to them.
pub proof fn lemma_filter_members<T>(s: Seq<T>, fits: spec_fn(T) -> bool, x: T)
    ensures
        s.filter(fits).contains(x) <==> s.contains(x) && fits(x),
    decreases s.len(),
{
    reveal(Seq::filter);
    if s.len() > 0 {
        let fewer = s.drop_last();
        let cut = fewer.filter(fits);
        lemma_filter_members(fewer, fits, x);
        assert(s[s.len() - 1] == s.last());
        if fewer.contains(x) {
            let i = choose|i: int| 0 <= i < fewer.len() && fewer[i] == x;
            assert(s[i] == x);
        }
        if s.contains(x) && x != s.last() {
            let i = choose|i: int| 0 <= i < s.len() && s[i] == x;
            assert(fewer[i] == x);
        }
        if cut.contains(x) {
            let i = choose|i: int| 0 <= i < cut.len() && cut[i] == x;
            assert(s.filter(fits)[i] == x);
        }
        if fits(s.last()) {
            assert(s.filter(fits)[cut.len() as int] == s.last());
            if s.filter(fits).contains(x) && x != s.last() {
                let i = choose|i: int| 0 <= i < s.filter(fits).len() && s.filter(fits)[i] == x;
                assert(cut[i] == x);
            }
        }
    }
}

/// There is something of a kind in a list just if some of its things are.
pub proof fn lemma_tally_some<V>(s: Seq<V>, kind: spec_fn(V) -> bool)
    ensures
        tally(s, kind) > 0 <==> exists|i: int| 0 <= i < s.len() && kind(#[trigger] s[i]),
    decreases s.len(),
{
    if s.len() > 0 {
        let fewer = s.drop_last();
        lemma_tally_some(fewer, kind);
        assert(s[s.len() - 1] == s.last());
        if exists|i: int| 0 <= i < fewer.len() && kind(#[trigger] fewer[i]) {
            let i = choose|i: int| 0 <= i < fewer.len() && kind(#[trigger] fewer[i]);
            assert(kind(s[i]));
        }
        if exists|i: int| 0 <= i < s.len() && kind(#[trigger] s[i]) {
            let i = choose|i: int| 0 <= i < s.len() && kind(#[trigger] s[i]);
            if i < fewer.len() {
                assert(kind(fewer[i]));
            }
        }
    }
}

/// Putting a list in order keeps its members.
pub proof fn lemma_in_order_members<T: Placed>(s: Seq<T::V>, x: T::V)
    ensures
        in_order::<T>(s).contains(x) <==> s.contains(x),
{
    let kind = |y: T::V| y == x;
    lemma_tally_in_order::<T>(s, kind);
    lemma_tally_some(s, kind);
    lemma_tally_some(in_order::<T>(s), kind);
    let t = in_order::<T>(s);
    if s.contains(x) {
        let i = choose|i: int| 0 <= i < s.len() && s[i] == x;
        assert(kind(s[i]));
    }
    if t.contains(x) {
        let i = choose|i: int| 0 <= i < t.len() && t[i] == x;
        assert(kind(t[i]));
    }
}

} // verus!
