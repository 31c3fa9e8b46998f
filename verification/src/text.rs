//! Text as a sequence of characters: trimming, searching, splitting, joining.
//!
//! The functions here take `&str` and give back owned text. Their contracts
//! speak of the characters (`s@`), never of byte offsets.

use vstd::prelude::*;

verus! {

/// `String::push` puts one character behind the text that is already there.
pub assume_specification[ String::push ](s: &mut String, c: char)
    ensures
        final(s)@ == old(s)@.push(c),
;

/// The characters with Unicode's `White_Space` property.
pub open spec fn is_white_space(c: char) -> bool {
    ||| '\u{9}' <= c <= '\u{D}'
    ||| c == '\u{20}'
    ||| c == '\u{85}'
    ||| c == '\u{A0}'
    ||| c == '\u{1680}'
    ||| '\u{2000}' <= c <= '\u{200A}'
    ||| c == '\u{2028}'
    ||| c == '\u{2029}'
    ||| c == '\u{202F}'
    ||| c == '\u{205F}'
    ||| c == '\u{3000}'
}

/// One of the ten ASCII digits.
pub open spec fn is_digit(c: char) -> bool {
    '0' <= c <= '9'
}

/// The text without the white space in front of it.
pub open spec fn trimmed_start(s: Seq<char>) -> Seq<char>
    decreases s.len(),
{
    if s.len() > 0 && is_white_space(s[0]) {
        trimmed_start(s.skip(1))
    } else {
        s
    }
}

/// The text without the white space behind it.
pub open spec fn trimmed_end(s: Seq<char>) -> Seq<char>
    decreases s.len(),
{
    if s.len() > 0 && is_white_space(s.last()) {
        trimmed_end(s.drop_last())
    } else {
        s
    }
}

/// The text without the white space around it.
pub open spec fn trimmed(s: Seq<char>) -> Seq<char> {
    trimmed_end(trimmed_start(s))
}

/// The text without the run of `c` at its end.
pub open spec fn without_trailing(s: Seq<char>, c: char) -> Seq<char>
    decreases s.len(),
{
    if s.len() > 0 && s.last() == c {
        without_trailing(s.drop_last(), c)
    } else {
        s
    }
}

/// The text without the run of digits at its end.
pub open spec fn without_trailing_digits(s: Seq<char>) -> Seq<char>
    decreases s.len(),
{
    if s.len() > 0 && is_digit(s.last()) {
        without_trailing_digits(s.drop_last())
    } else {
        s
    }
}

/// Where `c` first stands in `s`, or the length of `s` if it does not.
pub open spec fn position(s: Seq<char>, c: char) -> int
    decreases s.len(),
{
    if s.len() == 0 || s[0] == c {
        0
    } else {
        1 + position(s.skip(1), c)
    }
}

/// What stands before and behind the first `c`, if there is one.
pub open spec fn halves(s: Seq<char>, c: char) -> Option<(Seq<char>, Seq<char>)> {
    let i = position(s, c);
    if i < s.len() {
        Some((s.take(i), s.skip(i + 1)))
    } else {
        None
    }
}

/// What stands before the first `c`: all of `s` if there is none.
pub open spec fn before_first(s: Seq<char>, c: char) -> Seq<char> {
    s.take(position(s, c))
}

/// The pieces of `s` between the occurrences of `c`.
pub open spec fn pieces(s: Seq<char>, c: char) -> Seq<Seq<char>>
    decreases s.len(),
    via pieces_decreases
{
    let i = position(s, c);
    if i < s.len() {
        seq![s.take(i)] + pieces(s.skip(i + 1), c)
    } else {
        seq![s]
    }
}

#[via_fn]
proof fn pieces_decreases(s: Seq<char>, c: char) {
    lemma_position(s, c);
}

/// The line without a carriage return at its end.
pub open spec fn without_carriage_return(s: Seq<char>) -> Seq<char> {
    if s.len() > 0 && s.last() == '\r' {
        s.drop_last()
    } else {
        s
    }
}

/// The lines of `s`. A line ends at a line feed, or at a carriage return and
/// a line feed; the end of the last line is optional.
pub open spec fn lines_of(s: Seq<char>) -> Seq<Seq<char>>
    decreases s.len(),
    via lines_decreases
{
    let i = position(s, '\n');
    if s.len() == 0 {
        Seq::empty()
    } else if i < s.len() {
        seq![without_carriage_return(s.take(i))] + lines_of(s.skip(i + 1))
    } else {
        seq![s]
    }
}

#[via_fn]
proof fn lines_decreases(s: Seq<char>) {
    lemma_position(s, '\n');
}

/// Where a text ends with a line, what follows it makes lines of its own.
pub proof fn lemma_lines_concat(a: Seq<char>, b: Seq<char>)
    requires
        a.len() == 0 || a.last() == '\n',
    ensures
        lines_of(a + b) == lines_of(a) + lines_of(b),
    decreases a.len(),
{
    if a.len() == 0 {
        assert(a + b =~= b);
        assert(lines_of(a) + lines_of(b) =~= lines_of(b));
    } else {
        lemma_position(a, '\n');
        let i = position(a, '\n');
        assert(a[a.len() - 1] == '\n');
        assert(i < a.len());
        lemma_position_is(a + b, '\n', i);
        let rest = a.skip(i + 1);
        assert((a + b).skip(i + 1) =~= rest + b);
        assert((a + b).take(i) =~= a.take(i));
        if rest.len() > 0 {
            assert(rest.last() == a.last());
        }
        lemma_lines_concat(rest, b);
        assert(lines_of(a + b) =~= lines_of(a) + lines_of(b));
    }
}

/// A line by itself.
pub proof fn lemma_one_line(line: Seq<char>)
    requires
        !line.contains('\n'),
        line.len() > 0 ==> line.last() != '\r',
    ensures
        lines_of(line.push('\n')) == seq![line],
{
    let s = line.push('\n');
    assert forall|j: int| 0 <= j < line.len() implies s[j] != '\n' by {
        assert(line.contains(line[j]));
    }
    lemma_position_is(s, '\n', line.len() as int);
    assert(s.take(line.len() as int) =~= line);
    assert(s.skip(line.len() as int + 1) =~= Seq::<char>::empty());
    assert(lines_of(Seq::<char>::empty()) =~= Seq::<Seq<char>>::empty());
    assert(lines_of(s) =~= seq![line]);
}

proof fn lemma_trimmed_len(s: Seq<char>)
    ensures
        trimmed_start(s).len() <= s.len(),
        trimmed_end(s).len() <= s.len(),
    decreases s.len(),
{
    if s.len() > 0 {
        lemma_trimmed_len(s.skip(1));
        lemma_trimmed_len(s.drop_last());
    }
}

/// A text is trimmed when there is no white space at its ends.
pub proof fn lemma_trimmed(s: Seq<char>)
    ensures
        trimmed(s) == s <==> s.len() == 0 || (!is_white_space(s[0]) && !is_white_space(s.last())),
{
    lemma_trimmed_len(s);
    lemma_trimmed_len(trimmed_start(s));
    if s.len() > 0 {
        lemma_trimmed_len(s.skip(1));
        lemma_trimmed_len(s.drop_last());
    }
}

proof fn lemma_trimmed_start(s: Seq<char>)
    ensures
        trimmed_start(s).len() > 0 ==> !is_white_space(trimmed_start(s)[0]),
    decreases s.len(),
{
    if s.len() > 0 && is_white_space(s[0]) {
        lemma_trimmed_start(s.skip(1));
    }
}

proof fn lemma_trimmed_end(s: Seq<char>)
    ensures
        trimmed_end(s).len() > 0 ==> !is_white_space(trimmed_end(s).last()) && trimmed_end(s)[0]
            == s[0],
    decreases s.len(),
{
    if s.len() > 0 && is_white_space(s.last()) {
        lemma_trimmed_end(s.drop_last());
        lemma_trimmed_len(s.drop_last());
    }
}

/// Nothing is left of white space.
pub proof fn lemma_blank(s: Seq<char>)
    requires
        forall|i: int| 0 <= i < s.len() ==> is_white_space(#[trigger] s[i]),
    ensures
        trimmed(s).len() == 0,
    decreases s.len(),
{
    if s.len() > 0 {
        assert(is_white_space(s[0]));
        lemma_blank(s.skip(1));
    }
}

/// Nothing is left to be trimmed of a text that was trimmed.
pub proof fn lemma_trimmed_twice(s: Seq<char>)
    ensures
        trimmed(trimmed(s)) == trimmed(s),
{
    lemma_trimmed_start(s);
    lemma_trimmed_end(trimmed_start(s));
    lemma_trimmed(trimmed(s));
}

/// `part` stands in `s` from index `at` on.
pub open spec fn stands_at(s: Seq<char>, part: Seq<char>, at: int) -> bool {
    &&& 0 <= at <= s.len() - part.len()
    &&& s.subrange(at, at + part.len()) == part
}

/// `part` stands somewhere in `s`.
pub open spec fn holds(s: Seq<char>, part: Seq<char>) -> bool {
    exists|at: int| stands_at(s, part, at)
}

/// The views of a list of texts.
pub open spec fn views(v: Seq<String>) -> Seq<Seq<char>> {
    Seq::new(v.len(), |i: int| v[i]@)
}

/// The view of an optional text.
pub open spec fn opt_view(o: Option<String>) -> Option<Seq<char>> {
    match o {
        Some(s) => Some(s@),
        None => None,
    }
}

/// The view of an optional borrowed text.
pub open spec fn opt_str_view(o: Option<&str>) -> Option<Seq<char>> {
    match o {
        Some(s) => Some(s@),
        None => None,
    }
}

/// What `position` finds: the first occurrence, or none.
pub proof fn lemma_position(s: Seq<char>, c: char)
    ensures
        0 <= position(s, c) <= s.len(),
        position(s, c) < s.len() ==> s[position(s, c)] == c,
        forall|j: int| 0 <= j < position(s, c) ==> s[j] != c,
    decreases s.len(),
{
    if s.len() == 0 || s[0] == c {
    } else {
        let rest = s.skip(1);
        lemma_position(rest, c);
        assert forall|j: int| 0 <= j < position(s, c) implies s[j] != c by {
            if j > 0 {
                assert(s[j] == rest[j - 1]);
            }
        }
    }
}

/// An index before which `c` does not stand, and at which it does or the text
/// ends, is `position`.
pub proof fn lemma_position_is(s: Seq<char>, c: char, i: int)
    requires
        0 <= i <= s.len(),
        i < s.len() ==> s[i] == c,
        forall|j: int| 0 <= j < i ==> s[j] != c,
    ensures
        position(s, c) == i,
{
    lemma_position(s, c);
}

/// Texts, one behind the other.
pub open spec fn joined(texts: Seq<Seq<char>>) -> Seq<char>
    decreases texts.len(),
{
    if texts.len() == 0 {
        Seq::empty()
    } else {
        joined(texts.drop_last()) + texts.last()
    }
}

/// The first of the joined texts stands in front.
pub proof fn lemma_joined_first(texts: Seq<Seq<char>>)
    requires
        texts.len() > 0,
    ensures
        joined(texts) == texts[0] + joined(texts.skip(1)),
    decreases texts.len(),
{
    if texts.len() == 1 {
        assert(texts.drop_last() =~= Seq::<Seq<char>>::empty());
        assert(texts.skip(1) =~= Seq::<Seq<char>>::empty());
        assert(joined(texts) =~= texts[0] + joined(texts.skip(1)));
    } else {
        lemma_joined_first(texts.drop_last());
        assert(texts.drop_last().skip(1) =~= texts.skip(1).drop_last());
        assert(joined(texts) =~= texts[0] + joined(texts.skip(1)));
    }
}

/// What stands before the first `c`, and what stands behind it, is all that a
/// text is made of.
pub proof fn lemma_same_halves(a: Seq<char>, b: Seq<char>, c: char, x: Seq<char>, y: Seq<char>)
    requires
        !a.contains(c),
        !b.contains(c),
        a + seq![c] + x == b + seq![c] + y,
    ensures
        a == b,
        x == y,
{
    let s = a + seq![c] + x;
    assert forall|j: int| 0 <= j < a.len() implies s[j] != c by {
        assert(a.contains(a[j]));
    }
    lemma_position_is(s, c, a.len() as int);
    assert forall|j: int| 0 <= j < b.len() implies s[j] != c by {
        assert(s[j] == (b + seq![c] + y)[j]);
        assert(b.contains(b[j]));
    }
    assert(s[b.len() as int] == (b + seq![c] + y)[b.len() as int]);
    lemma_position_is(s, c, b.len() as int);
    assert(a =~= s.take(a.len() as int));
    assert(b =~= (b + seq![c] + y).take(b.len() as int));
    assert(x =~= s.skip(a.len() as int + 1));
    assert(y =~= (b + seq![c] + y).skip(b.len() as int + 1));
}

/// The characters of a text, one by one.
pub fn chars_of(s: &str) -> (r: Vec<char>)
    ensures
        r@ == s@,
{
    let mut r: Vec<char> = Vec::new();
    for c in it: s.chars()
        invariant
            it.seq() == s@,
            r@ == s@.take(it.index() as int),
    {
        proof {
            assert(s@.take(it.index() as int + 1) == s@.take(it.index() as int).push(c));
        }
        r.push(c);
    }
    proof {
        assert(s@.take(s@.len() as int) == s@);
    }
    r
}

/// The text made of `chars` from index `from` up to index `to`.
pub fn text_between(chars: &Vec<char>, from: usize, to: usize) -> (r: String)
    requires
        from <= to <= chars@.len(),
    ensures
        r@ == chars@.subrange(from as int, to as int),
{
    let mut r = String::new();
    let mut i: usize = from;
    while i < to
        invariant
            from <= i <= to <= chars@.len(),
            r@ == chars@.subrange(from as int, i as int),
        decreases to - i,
    {
        r.push(chars[i]);
        proof {
            assert(chars@.subrange(from as int, i + 1) == chars@.subrange(from as int, i as int).push(
                chars@[i as int],
            ));
        }
        i += 1;
    }
    r
}

/// Whether two texts hold the same characters.
pub fn same_text(a: &str, b: &str) -> (r: bool)
    ensures
        r == (a@ == b@),
{
    a.to_owned() == b.to_owned()
}

/// Whether `c` has Unicode's `White_Space` property.
pub fn white_space(c: char) -> (r: bool)
    ensures
        r == is_white_space(c),
{
    ('\u{9}' <= c && c <= '\u{D}') || c == '\u{20}' || c == '\u{85}' || c == '\u{A0}' || c
        == '\u{1680}' || ('\u{2000}' <= c && c <= '\u{200A}') || c == '\u{2028}' || c
        == '\u{2029}' || c == '\u{202F}' || c == '\u{205F}' || c == '\u{3000}'
}

/// Whether `c` is an ASCII digit.
pub fn digit(c: char) -> (r: bool)
    ensures
        r == is_digit(c),
{
    '0' <= c && c <= '9'
}

/// The text without the white space around it.
pub fn trim(s: &str) -> (r: String)
    ensures
        r@ == trimmed(s@),
{
    let chars = chars_of(s);
    let mut from: usize = 0;
    proof {
        assert(s@.skip(0) == s@);
    }
    while from < chars.len() && white_space(chars[from])
        invariant
            chars@ == s@,
            from <= chars@.len(),
            trimmed_start(s@) == trimmed_start(s@.skip(from as int)),
        decreases chars@.len() - from,
    {
        proof {
            assert(s@.skip(from as int).skip(1) == s@.skip(from + 1));
        }
        from += 1;
    }
    let ghost head = s@.skip(from as int);
    let mut to: usize = chars.len();
    proof {
        assert(trimmed_start(s@) == head);
        assert(s@.subrange(from as int, to as int) == head);
    }
    while to > from && white_space(chars[to - 1])
        invariant
            chars@ == s@,
            from <= to <= chars@.len(),
            trimmed_end(head) == trimmed_end(s@.subrange(from as int, to as int)),
        decreases to,
    {
        proof {
            assert(s@.subrange(from as int, to as int).drop_last() == s@.subrange(
                from as int,
                to - 1,
            ));
            assert(s@.subrange(from as int, to as int).last() == s@[to - 1]);
        }
        to -= 1;
    }
    proof {
        let rest = s@.subrange(from as int, to as int);
        if to > from {
            assert(rest.last() == s@[to - 1]);
        }
    }
    text_between(&chars, from, to)
}

/// The text without the run of `c` at its end.
pub fn trim_end_matches(s: &str, c: char) -> (r: String)
    ensures
        r@ == without_trailing(s@, c),
{
    let chars = chars_of(s);
    let mut to: usize = chars.len();
    proof {
        assert(s@.take(to as int) == s@);
    }
    while to > 0 && chars[to - 1] == c
        invariant
            chars@ == s@,
            to <= chars@.len(),
            without_trailing(s@, c) == without_trailing(s@.take(to as int), c),
        decreases to,
    {
        proof {
            assert(s@.take(to as int).drop_last() == s@.take(to - 1));
        }
        to -= 1;
    }
    text_between(&chars, 0, to)
}

/// The text without the run of digits at its end.
pub fn trim_end_digits(s: &str) -> (r: String)
    ensures
        r@ == without_trailing_digits(s@),
{
    let chars = chars_of(s);
    let mut to: usize = chars.len();
    proof {
        assert(s@.take(to as int) == s@);
    }
    while to > 0 && digit(chars[to - 1])
        invariant
            chars@ == s@,
            to <= chars@.len(),
            without_trailing_digits(s@) == without_trailing_digits(s@.take(to as int)),
        decreases to,
    {
        proof {
            assert(s@.take(to as int).drop_last() == s@.take(to - 1));
        }
        to -= 1;
    }
    text_between(&chars, 0, to)
}

/// Where `c` first stands at or behind index `from`.
fn find_from(chars: &Vec<char>, from: usize, c: char) -> (r: usize)
    requires
        from <= chars@.len(),
    ensures
        from <= r <= chars@.len(),
        r == from + position(chars@.skip(from as int), c),
{
    let mut i: usize = from;
    while i < chars.len() && chars[i] != c
        invariant
            from <= i <= chars@.len(),
            forall|j: int| from <= j < i ==> chars@[j] != c,
        decreases chars@.len() - i,
    {
        i += 1;
    }
    proof {
        let rest = chars@.skip(from as int);
        assert forall|j: int| 0 <= j < i - from implies rest[j] != c by {
            assert(rest[j] == chars@[j + from]);
        }
        lemma_position_is(rest, c, i - from);
    }
    i
}

/// What stands before the first `c`: all of `s` if there is none.
pub fn before(s: &str, c: char) -> (r: String)
    ensures
        r@ == before_first(s@, c),
{
    let chars = chars_of(s);
    let i = find_from(&chars, 0, c);
    proof {
        assert(chars@.skip(0) == s@);
    }
    text_between(&chars, 0, i)
}

/// What stands before and behind the first `c`, if there is one.
pub fn split_once(s: &str, c: char) -> (r: Option<(String, String)>)
    ensures
        match r {
            Some((a, b)) => halves(s@, c) == Some((a@, b@)),
            None => halves(s@, c) is None,
        },
{
    let chars = chars_of(s);
    let i = find_from(&chars, 0, c);
    proof {
        assert(chars@.skip(0) == s@);
    }
    if i < chars.len() {
        let a = text_between(&chars, 0, i);
        let b = text_between(&chars, i + 1, chars.len());
        Some((a, b))
    } else {
        None
    }
}

/// Putting one more text behind a list puts its view behind the views.
pub broadcast proof fn lemma_views_push(v: Seq<String>, s: String)
    ensures
        #[trigger] views(v.push(s)) == views(v).push(s@),
{
    assert(views(v.push(s)) =~= views(v).push(s@));
}

/// The pieces of the text between the occurrences of `c`.
pub fn split(s: &str, c: char) -> (r: Vec<String>)
    ensures
        views(r@) == pieces(s@, c),
{
    broadcast use lemma_views_push;

    let chars = chars_of(s);
    let mut r: Vec<String> = Vec::new();
    let mut from: usize = 0;
    proof {
        assert(s@.skip(0) == s@);
        assert(pieces(s@, c) =~= views(r@) + pieces(s@.skip(0), c));
    }
    loop
        invariant
            chars@ == s@,
            from <= chars@.len(),
            pieces(s@, c) == views(r@) + pieces(s@.skip(from as int), c),
        decreases chars@.len() - from,
    {
        let ghost rest = s@.skip(from as int);
        let i = find_from(&chars, from, c);
        let piece = text_between(&chars, from, i);
        proof {
            assert(piece@ == rest.take(i - from));
        }
        if i < chars.len() {
            proof {
                assert(rest.skip(i - from + 1) == s@.skip(i + 1));
                assert(views(r@) + (seq![piece@] + pieces(s@.skip(i + 1), c)) =~= views(r@).push(
                    piece@,
                ) + pieces(s@.skip(i + 1), c));
            }
            r.push(piece);
            from = i + 1;
        } else {
            proof {
                assert(piece@ == rest);
                assert(views(r@) + seq![rest] =~= views(r@).push(piece@));
            }
            r.push(piece);
            return r;
        }
    }
}

/// The lines of the text.
pub fn lines(s: &str) -> (r: Vec<String>)
    ensures
        views(r@) == lines_of(s@),
{
    broadcast use lemma_views_push;

    let chars = chars_of(s);
    let mut r: Vec<String> = Vec::new();
    let mut from: usize = 0;
    proof {
        assert(s@.skip(0) == s@);
        assert(lines_of(s@) =~= views(r@) + lines_of(s@.skip(0)));
    }
    while from < chars.len()
        invariant
            chars@ == s@,
            from <= chars@.len(),
            lines_of(s@) == views(r@) + lines_of(s@.skip(from as int)),
        decreases chars@.len() - from,
    {
        let ghost rest = s@.skip(from as int);
        let i = find_from(&chars, from, '\n');
        if i < chars.len() {
            let end = if i > from && chars[i - 1] == '\r' {
                i - 1
            } else {
                i
            };
            let line = text_between(&chars, from, end);
            proof {
                let whole = rest.take(i - from);
                assert(whole == s@.subrange(from as int, i as int));
                if i > from {
                    assert(whole.last() == s@[i - 1]);
                }
                assert(line@ == without_carriage_return(whole));
                assert(rest.skip(i - from + 1) == s@.skip(i + 1));
                assert(views(r@) + (seq![line@] + lines_of(s@.skip(i + 1))) =~= views(r@).push(
                    line@,
                ) + lines_of(s@.skip(i + 1)));
            }
            r.push(line);
            from = i + 1;
        } else {
            let line = text_between(&chars, from, i);
            proof {
                assert(line@ == rest);
                assert(s@.skip(i as int).len() == 0);
                assert(views(r@) + seq![rest] =~= views(r@).push(line@) + lines_of(
                    s@.skip(i as int),
                ));
            }
            r.push(line);
            from = i;
        }
    }
    proof {
        assert(s@.skip(from as int).len() == 0);
        assert(views(r@) + lines_of(s@.skip(from as int)) =~= views(r@));
    }
    r
}

/// Whether `part` stands in `chars` from index `at` on.
fn part_at(chars: &Vec<char>, part: &Vec<char>, at: usize) -> (r: bool)
    requires
        at + part@.len() <= chars@.len(),
    ensures
        r == stands_at(chars@, part@, at as int),
{
    let n = chars.len();
    let mut i: usize = 0;
    while i < part.len()
        invariant
            at + part@.len() <= chars@.len() == n,
            i <= part@.len(),
            forall|j: int| 0 <= j < i ==> chars@[at + j] == part@[j],
        decreases part@.len() - i,
    {
        if chars[at + i] != part[i] {
            proof {
                assert(chars@.subrange(at as int, at + part@.len())[i as int] != part@[i as int]);
            }
            return false;
        }
        i += 1;
    }
    proof {
        assert(chars@.subrange(at as int, at + part@.len()) =~= part@);
    }
    true
}

/// Where `part` first stands in `s`.
pub fn find_text(s: &str, part: &str) -> (r: Option<usize>)
    ensures
        match r {
            Some(i) => stands_at(s@, part@, i as int) && forall|j: int|
                0 <= j < i ==> !#[trigger] stands_at(s@, part@, j),
            None => !holds(s@, part@),
        },
{
    let chars = chars_of(s);
    let wanted = chars_of(part);
    if wanted.len() > chars.len() {
        return None;
    }
    let last = chars.len() - wanted.len();
    let mut i: usize = 0;
    loop
        invariant
            chars@ == s@,
            wanted@ == part@,
            i <= last == chars@.len() - wanted@.len(),
            forall|j: int| 0 <= j < i ==> !#[trigger] stands_at(s@, part@, j),
        decreases last - i,
    {
        if part_at(&chars, &wanted, i) {
            return Some(i);
        }
        if i == last {
            return None;
        }
        i += 1;
    }
}

/// Whether `part` stands somewhere in the text.
pub fn contains_text(s: &str, part: &str) -> (r: bool)
    ensures
        r == holds(s@, part@),
{
    find_text(s, part).is_some()
}

/// Whether `c` stands somewhere in the text.
pub fn contains_char(s: &str, c: char) -> (r: bool)
    ensures
        r == s@.contains(c),
{
    let chars = chars_of(s);
    let i = find_from(&chars, 0, c);
    proof {
        assert(chars@.skip(0) == s@);
        lemma_position(s@, c);
        if i < chars@.len() {
            assert(s@[i as int] == c);
        }
    }
    i < chars.len()
}

/// Whether the text begins with `part`.
pub fn starts_with(s: &str, part: &str) -> (r: bool)
    ensures
        r == part@.is_prefix_of(s@),
{
    let chars = chars_of(s);
    let wanted = chars_of(part);
    wanted.len() <= chars.len() && part_at(&chars, &wanted, 0)
}

/// Whether the text ends with `part`.
pub fn ends_with(s: &str, part: &str) -> (r: bool)
    ensures
        r == part@.is_suffix_of(s@),
{
    let chars = chars_of(s);
    let wanted = chars_of(part);
    wanted.len() <= chars.len() && part_at(&chars, &wanted, chars.len() - wanted.len())
}

/// What stands behind `prefix`, if the text begins with it.
pub open spec fn behind_prefix(s: Seq<char>, prefix: Seq<char>) -> Option<Seq<char>> {
    if prefix.is_prefix_of(s) {
        Some(s.skip(prefix.len() as int))
    } else {
        None
    }
}

/// What stands before `suffix`, if the text ends with it.
pub open spec fn before_suffix(s: Seq<char>, suffix: Seq<char>) -> Option<Seq<char>> {
    if suffix.is_suffix_of(s) {
        Some(s.take(s.len() - suffix.len()))
    } else {
        None
    }
}

/// What stands behind `prefix`, if the text begins with it.
pub fn strip_prefix(s: &str, prefix: &str) -> (r: Option<String>)
    ensures
        opt_view(r) == behind_prefix(s@, prefix@),
{
    let chars = chars_of(s);
    let wanted = chars_of(prefix);
    if wanted.len() <= chars.len() && part_at(&chars, &wanted, 0) {
        Some(text_between(&chars, wanted.len(), chars.len()))
    } else {
        None
    }
}

/// What stands before `suffix`, if the text ends with it.
pub fn strip_suffix(s: &str, suffix: &str) -> (r: Option<String>)
    ensures
        opt_view(r) == before_suffix(s@, suffix@),
{
    let chars = chars_of(s);
    let wanted = chars_of(suffix);
    if wanted.len() <= chars.len() && part_at(&chars, &wanted, chars.len() - wanted.len()) {
        Some(text_between(&chars, 0, chars.len() - wanted.len()))
    } else {
        None
    }
}

/// Where `part` first stands in `s`.
pub open spec fn first_place(s: Seq<char>, part: Seq<char>) -> Option<int>
    decreases s.len(),
{
    if stands_at(s, part, 0) {
        Some(0)
    } else if s.len() == 0 {
        None
    } else {
        match first_place(s.skip(1), part) {
            Some(i) => Some(i + 1),
            None => None,
        }
    }
}

/// The least place is the first one.
proof fn lemma_first_place(s: Seq<char>, part: Seq<char>, i: int)
    requires
        stands_at(s, part, i),
        forall|j: int| 0 <= j < i ==> !#[trigger] stands_at(s, part, j),
    ensures
        first_place(s, part) == Some(i),
    decreases s.len(),
{
    if i > 0 {
        let rest = s.skip(1);
        assert(!stands_at(s, part, 0));
        assert(rest.subrange(i - 1, i - 1 + part.len()) =~= s.subrange(i, i + part.len()));
        assert forall|j: int| 0 <= j < i - 1 implies !#[trigger] stands_at(rest, part, j) by {
            if stands_at(rest, part, j) {
                assert(rest.subrange(j, j + part.len()) =~= s.subrange(j + 1, j + 1 + part.len()));
                assert(stands_at(s, part, j + 1));
            }
        }
        lemma_first_place(rest, part, i - 1);
    }
}

proof fn lemma_no_place(s: Seq<char>, part: Seq<char>)
    requires
        !holds(s, part),
    ensures
        first_place(s, part) is None,
    decreases s.len(),
{
    assert(!stands_at(s, part, 0));
    if s.len() > 0 {
        let rest = s.skip(1);
        if holds(rest, part) {
            let j = choose|j: int| stands_at(rest, part, j);
            assert(rest.subrange(j, j + part.len()) =~= s.subrange(j + 1, j + 1 + part.len()));
            assert(stands_at(s, part, j + 1));
        }
        lemma_no_place(rest, part);
    }
}

/// What stands behind the first `part`.
pub open spec fn behind_first(s: Seq<char>, part: Seq<char>) -> Option<Seq<char>> {
    match first_place(s, part) {
        Some(i) => Some(s.skip(i + part.len())),
        None => None,
    }
}

/// What stands before the first `part`: all of `s` if there is none.
pub open spec fn up_to_first(s: Seq<char>, part: Seq<char>) -> Seq<char> {
    match first_place(s, part) {
        Some(i) => s.take(i),
        None => s,
    }
}

/// What stands behind the first `part`, if it stands there at all.
pub fn after_text(s: &str, part: &str) -> (r: Option<String>)
    ensures
        opt_view(r) == behind_first(s@, part@),
{
    match find_text(s, part) {
        Some(i) => {
            let chars = chars_of(s);
            let wanted = chars_of(part);
            let n = chars.len();
            proof {
                lemma_first_place(s@, part@, i as int);
                assert(i + wanted@.len() <= n);
            }
            let r = text_between(&chars, i + wanted.len(), n);
            proof {
                assert(r@ =~= s@.skip(i + part@.len()));
            }
            Some(r)
        },
        None => {
            proof {
                lemma_no_place(s@, part@);
            }
            None
        },
    }
}

/// What stands before the first `part`: all of `s` if there is none.
pub fn before_text(s: &str, part: &str) -> (r: String)
    ensures
        r@ == up_to_first(s@, part@),
{
    match find_text(s, part) {
        Some(i) => {
            let chars = chars_of(s);
            proof {
                lemma_first_place(s@, part@, i as int);
            }
            let r = text_between(&chars, 0, i);
            proof {
                assert(r@ =~= s@.take(i as int));
            }
            r
        },
        None => {
            proof {
                lemma_no_place(s@, part@);
            }
            s.to_owned()
        },
    }
}

/// The characters before the first white space.
pub open spec fn up_to_white_space(s: Seq<char>) -> Seq<char>
    decreases s.len(),
{
    if s.len() == 0 || is_white_space(s[0]) {
        Seq::empty()
    } else {
        seq![s[0]] + up_to_white_space(s.skip(1))
    }
}

/// The first word of a text: empty if it has none.
pub open spec fn first_word_of(s: Seq<char>) -> Seq<char> {
    up_to_white_space(trimmed_start(s))
}

/// The first word of a text: empty if it has none.
pub fn first_word(s: &str) -> (r: String)
    ensures
        r@ == first_word_of(s@),
{
    let chars = chars_of(s);
    let mut from: usize = 0;
    proof {
        assert(s@.skip(0) =~= s@);
    }
    while from < chars.len() && white_space(chars[from])
        invariant
            chars@ == s@,
            from <= chars@.len(),
            trimmed_start(s@) == trimmed_start(s@.skip(from as int)),
        decreases chars@.len() - from,
    {
        proof {
            assert(s@.skip(from as int).skip(1) =~= s@.skip(from + 1));
        }
        from += 1;
    }
    let ghost rest = s@.skip(from as int);
    proof {
        assert(trimmed_start(s@) == rest);
    }
    let mut word = String::new();
    let mut to: usize = from;
    proof {
        assert(word@ + up_to_white_space(rest) =~= up_to_white_space(rest));
    }
    while to < chars.len() && !white_space(chars[to])
        invariant
            chars@ == s@,
            from <= to <= chars@.len(),
            up_to_white_space(rest) == word@ + up_to_white_space(s@.skip(to as int)),
        decreases chars@.len() - to,
    {
        let ghost before = word@;
        let c = chars[to];
        word.push(c);
        proof {
            let here = s@.skip(to as int);
            assert(here.skip(1) =~= s@.skip(to + 1));
            assert(before + up_to_white_space(here) =~= word@ + up_to_white_space(
                s@.skip(to + 1),
            ));
        }
        to += 1;
    }
    proof {
        assert(up_to_white_space(s@.skip(to as int)) =~= Seq::<char>::empty());
        assert(word@ =~= up_to_white_space(rest));
    }
    word
}

// ----- what holds of these -----

/// The characters that count as white space, by their numbers.
pub proof fn law_white_space_by_number(c: char)
    ensures
        is_white_space(c) <==> {
            let n = c as int;
            ||| 0x9 <= n <= 0xD
            ||| 0x2000 <= n <= 0x200A
            ||| n == 0x20 || n == 0x85 || n == 0xA0 || n == 0x1680 || n == 0x2028 || n == 0x2029
                || n == 0x202F || n == 0x205F || n == 0x3000
        },
{
}

/// White space around a text falls off, and nothing else does.
pub proof fn law_white_space_falls_off(before: Seq<char>, s: Seq<char>, behind: Seq<char>)
    requires
        forall|i: int| 0 <= i < before.len() ==> is_white_space(#[trigger] before[i]),
        forall|i: int| 0 <= i < behind.len() ==> is_white_space(#[trigger] behind[i]),
        s.len() > 0 ==> !is_white_space(s[0]) && !is_white_space(s.last()),
    ensures
        trimmed(before + s + behind) == s,
{
    if s.len() == 0 {
        let all = before + s + behind;
        assert forall|i: int| 0 <= i < all.len() implies is_white_space(#[trigger] all[i]) by {
            if i < before.len() {
                assert(all[i] == before[i]);
            } else {
                assert(all[i] == behind[i - before.len()]);
            }
        }
        lemma_blank(all);
        assert(trimmed(all) =~= s);
    } else {
        assert(before + s + behind =~= before + (s + behind));
        lemma_start_falls_off(before, s + behind);
        lemma_end_falls_off(s, behind);
    }
}

pub proof fn lemma_start_falls_off(before: Seq<char>, s: Seq<char>)
    requires
        forall|i: int| 0 <= i < before.len() ==> is_white_space(#[trigger] before[i]),
        s.len() > 0 ==> !is_white_space(s[0]),
    ensures
        trimmed_start(before + s) == s,
    decreases before.len(),
{
    if before.len() > 0 {
        assert(is_white_space(before[0]));
        let rest = before.skip(1);
        assert forall|i: int| 0 <= i < rest.len() implies is_white_space(#[trigger] rest[i]) by {
            assert(is_white_space(before[i + 1]));
        }
        lemma_start_falls_off(rest, s);
        assert((before + s).skip(1) =~= rest + s);
    } else {
        assert(before + s =~= s);
    }
}

proof fn lemma_end_falls_off(s: Seq<char>, behind: Seq<char>)
    requires
        forall|i: int| 0 <= i < behind.len() ==> is_white_space(#[trigger] behind[i]),
        s.len() > 0 ==> !is_white_space(s.last()),
    ensures
        trimmed_end(s + behind) == s,
    decreases behind.len(),
{
    if behind.len() > 0 {
        assert(is_white_space(behind[behind.len() - 1]));
        let fewer = behind.drop_last();
        assert forall|i: int| 0 <= i < fewer.len() implies is_white_space(#[trigger] fewer[i]) by {
            assert(is_white_space(behind[i]));
        }
        lemma_end_falls_off(s, fewer);
        assert((s + behind).drop_last() =~= s + fewer);
    } else {
        assert(s + behind =~= s);
    }
}

/// A text is cut at the first mark: what stands before it and all that stands
/// behind it. A text without the mark is not cut.
pub proof fn law_texts_are_cut_at_the_first_mark(a: Seq<char>, c: char, b: Seq<char>)
    requires
        !a.contains(c),
    ensures
        halves(a + seq![c] + b, c) == Some((a, b)),
        halves(a, c) is None,
        before_first(a + seq![c] + b, c) == a,
        before_first(a, c) == a,
        pieces(a + seq![c] + b, c) == seq![a] + pieces(b, c),
        pieces(a, c) == seq![a],
{
    let s = a + seq![c] + b;
    assert forall|j: int| 0 <= j < a.len() implies s[j] != c && a[j] != c by {
        assert(a.contains(a[j]));
        assert(s[j] == a[j]);
    }
    lemma_position_is(s, c, a.len() as int);
    lemma_position_is(a, c, a.len() as int);
    assert(s.take(a.len() as int) =~= a);
    assert(s.skip(a.len() as int + 1) =~= b);
    assert(a.take(a.len() as int) =~= a);
}

/// A line ends at its line feed, with or without a carriage return before it,
/// and the end of the last line is optional.
pub proof fn law_lines_end_at_line_feeds(line: Seq<char>, rest: Seq<char>)
    requires
        !line.contains('\n'),
        line.len() > 0 ==> line.last() != '\r',
    ensures
        lines_of(line + seq!['\n'] + rest) == seq![line] + lines_of(rest),
        lines_of(line + seq!['\r', '\n'] + rest) == seq![line] + lines_of(rest),
        line.len() > 0 ==> lines_of(line) == seq![line],
{
    let s = line + seq!['\n'] + rest;
    let t = line + seq!['\r', '\n'] + rest;
    let ended = line.push('\r');
    assert forall|j: int| 0 <= j < line.len() implies s[j] != '\n' && t[j] != '\n' && line[j]
        != '\n' by {
        assert(line.contains(line[j]));
        assert(s[j] == line[j] && t[j] == line[j]);
    }
    lemma_position_is(s, '\n', line.len() as int);
    lemma_position_is(t, '\n', line.len() as int + 1);
    lemma_position_is(line, '\n', line.len() as int);
    assert(s.take(line.len() as int) =~= line);
    assert(s.skip(line.len() as int + 1) =~= rest);
    assert(t.take(line.len() as int + 1) =~= ended);
    assert(t.skip(line.len() as int + 2) =~= rest);
    assert(ended.drop_last() =~= line);
}

/// A part is found where it first stands, and is not found only where it stands
/// nowhere.
pub proof fn law_parts_are_found_where_they_first_stand(s: Seq<char>, part: Seq<char>, at: int)
    ensures
        first_place(s, part) is None ==> !stands_at(s, part, at),
        first_place(s, part) matches Some(i) ==> stands_at(s, part, i) && (stands_at(s, part, at)
            ==> i <= at),
    decreases s.len(),
{
    if !stands_at(s, part, 0) && s.len() > 0 {
        let rest = s.skip(1);
        law_parts_are_found_where_they_first_stand(rest, part, at - 1);
        if stands_at(s, part, at) {
            assert(rest.subrange(at - 1, at - 1 + part.len()) =~= s.subrange(at, at + part.len()));
            assert(stands_at(rest, part, at - 1));
        }
        if first_place(rest, part) is Some {
            let i = first_place(rest, part)->0;
            assert(rest.subrange(i, i + part.len()) =~= s.subrange(i + 1, i + 1 + part.len()));
        }
    }
}

/// The first word of a text is what stands behind the white space in front and
/// before the white space that follows.
pub proof fn law_words_stand_between_white_space(
    before: Seq<char>,
    word: Seq<char>,
    behind: Seq<char>,
)
    requires
        forall|i: int| 0 <= i < before.len() ==> is_white_space(#[trigger] before[i]),
        word.len() > 0,
        forall|i: int| 0 <= i < word.len() ==> !is_white_space(#[trigger] word[i]),
        behind.len() > 0 ==> is_white_space(behind[0]),
    ensures
        first_word_of(before + word + behind) == word,
{
    assert(before + word + behind =~= before + (word + behind));
    lemma_start_falls_off(before, word + behind);
    lemma_up_to_white_space(word, behind);
}

proof fn lemma_up_to_white_space(word: Seq<char>, behind: Seq<char>)
    requires
        forall|i: int| 0 <= i < word.len() ==> !is_white_space(#[trigger] word[i]),
        behind.len() > 0 ==> is_white_space(behind[0]),
    ensures
        up_to_white_space(word + behind) == word,
    decreases word.len(),
{
    if word.len() > 0 {
        let rest = word.skip(1);
        assert(!is_white_space(word[0]));
        assert forall|i: int| 0 <= i < rest.len() implies !is_white_space(#[trigger] rest[i]) by {
            assert(!is_white_space(word[i + 1]));
        }
        lemma_up_to_white_space(rest, behind);
        assert((word + behind).skip(1) =~= rest + behind);
        assert(seq![word[0]] + rest =~= word);
    } else {
        assert(word + behind =~= behind);
    }
}

/// What stands behind a beginning, and what stands before an ending.
pub proof fn law_beginnings_and_endings_come_off(s: Seq<char>, part: Seq<char>, rest: Seq<char>)
    ensures
        behind_prefix(s, part) == Some(rest) <==> s == part + rest,
        before_suffix(s, part) == Some(rest) <==> s == rest + part,
{
    if behind_prefix(s, part) == Some(rest) {
        assert(s =~= part + rest);
    }
    if s == part + rest {
        assert(s.skip(part.len() as int) =~= rest);
    }
    if before_suffix(s, part) == Some(rest) {
        assert(s =~= rest + part);
    }
    if s == rest + part {
        assert(s.take(s.len() - part.len()) =~= rest);
        assert(s.subrange(s.len() - part.len(), s.len() as int) =~= part);
    }
}

/// A part stands in a text just if the text is the part with something, or
/// nothing, before and behind it.
pub proof fn law_parts_stand_between(s: Seq<char>, part: Seq<char>)
    ensures
        holds(s, part) <==> exists|a: Seq<char>, b: Seq<char>| s == #[trigger] (a + part + b),
{
    if holds(s, part) {
        let at = choose|at: int| stands_at(s, part, at);
        let a = s.take(at);
        let b = s.skip(at + part.len());
        assert(s =~= a + s.subrange(at, at + part.len()) + b);
        assert(s == a + part + b);
    }
    if exists|a: Seq<char>, b: Seq<char>| s == #[trigger] (a + part + b) {
        let (a, b) = choose|a: Seq<char>, b: Seq<char>| s == #[trigger] (a + part + b);
        assert(s.subrange(a.len() as int, a.len() as int + part.len()) =~= part);
        assert(stands_at(s, part, a.len() as int));
    }
}

/// A last line without a line feed is taken as it is, with a carriage return at
/// its end if it has one. An empty text has no lines.
pub proof fn law_last_line_is_taken_as_it_is(line: Seq<char>)
    requires
        !line.contains('\n'),
    ensures
        line.len() > 0 ==> lines_of(line) == seq![line],
        line.len() == 0 ==> lines_of(line).len() == 0,
{
    assert forall|j: int| 0 <= j < line.len() implies line[j] != '\n' by {
        assert(line.contains(line[j]));
    }
    lemma_position_is(line, '\n', line.len() as int);
}

} // verus!
