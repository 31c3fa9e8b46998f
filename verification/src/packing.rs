//! Lists of texts, written into one text from which they can be told again.

use crate::numbers::{lemma_number_text, number_text, u64_text};
use crate::order::{in_text_order, lemma_in_text_order, TextSet};
use crate::text::{chars_of, is_digit, joined, lemma_joined_first, lemma_same_halves};
use vstd::prelude::*;

verus! {

/// A text behind its length.
pub open spec fn measured(text: Seq<char>) -> Seq<char> {
    number_text(text.len() as int) + seq![':'] + text
}

/// A list of texts, behind the number of them.
pub open spec fn packed(texts: Seq<Seq<char>>) -> Seq<char> {
    number_text(texts.len() as int) + seq![';'] + joined(
        texts.map_values(|text: Seq<char>| measured(text)),
    )
}

/// Writes a set of texts behind a text.
pub fn push_packed(out: &mut String, set: &TextSet)
    requires
        set.wf(),
    ensures
        final(out)@ == old(out)@ + packed(in_text_order(set@)),
{
    let ghost given = out@;
    let ghost lines = set.listed().map_values(|text: Seq<char>| measured(text));
    proof {
        lemma_in_text_order(*set);
    }
    out.append(u64_text(set.len() as u64).as_str());
    out.push(';');
    let ghost start = out@;
    let mut i: usize = 0;
    proof {
        assert(start =~= given + (number_text(set.listed().len() as int) + seq![';']));
        assert(out@ =~= start + joined(lines.take(0)));
    }
    while i < set.len()
        invariant
            lines == set.listed().map_values(|text: Seq<char>| measured(text)),
            i <= set.listed().len(),
            out@ == start + joined(lines.take(i as int)),
        decreases set.listed().len() - i,
    {
        let text = set.at(i);
        let ghost before = out@;
        out.append(u64_text(chars_of(text.as_str()).len() as u64).as_str());
        out.push(':');
        out.append(text.as_str());
        proof {
            let next = lines.take(i + 1);
            assert(next.drop_last() =~= lines.take(i as int));
            assert(next.last() == measured(text@));
            assert(out@ =~= before + measured(text@));
            assert(out@ =~= start + joined(next));
        }
        i += 1;
    }
    proof {
        assert(lines.take(i as int) =~= lines);
        assert(out@ =~= given + packed(set.listed()));
    }
}

/// A number behind which `c` stands is told from any other.
pub proof fn lemma_same_numbers(a: int, b: int, c: char, x: Seq<char>, y: Seq<char>)
    requires
        c != '-',
        !is_digit(c),
        number_text(a) + seq![c] + x == number_text(b) + seq![c] + y,
    ensures
        a == b,
        x == y,
{
    lemma_number_text(a);
    lemma_number_text(b);
    assert(!number_text(a).contains(c));
    assert(!number_text(b).contains(c));
    lemma_same_halves(number_text(a), number_text(b), c, x, y);
}

proof fn lemma_same_measured(s: Seq<Seq<char>>, t: Seq<Seq<char>>, x: Seq<char>, y: Seq<char>)
    requires
        s.len() == t.len(),
        joined(s.map_values(|text: Seq<char>| measured(text))) + x == joined(
            t.map_values(|text: Seq<char>| measured(text)),
        ) + y,
    ensures
        s == t,
        x == y,
    decreases s.len(),
{
    let line = |text: Seq<char>| measured(text);
    let a = s.map_values(line);
    let b = t.map_values(line);
    if s.len() == 0 {
        assert(joined(a) + x =~= x);
        assert(joined(b) + y =~= y);
        assert(s =~= t);
    } else {
        lemma_joined_first(a);
        lemma_joined_first(b);
        let rest_a = joined(a.skip(1)) + x;
        let rest_b = joined(b.skip(1)) + y;
        let n = s[0].len() as int;
        assert(joined(a) + x =~= number_text(n) + seq![':'] + (s[0] + rest_a));
        assert(joined(b) + y =~= number_text(t[0].len() as int) + seq![':'] + (t[0] + rest_b));
        lemma_same_numbers(n, t[0].len() as int, ':', s[0] + rest_a, t[0] + rest_b);
        assert(s[0] =~= (s[0] + rest_a).take(n));
        assert(t[0] =~= (t[0] + rest_b).take(n));
        assert(rest_a =~= (s[0] + rest_a).skip(n));
        assert(rest_b =~= (t[0] + rest_b).skip(n));
        assert(a.skip(1) =~= s.skip(1).map_values(line));
        assert(b.skip(1) =~= t.skip(1).map_values(line));
        lemma_same_measured(s.skip(1), t.skip(1), x, y);
        assert(s =~= seq![s[0]] + s.skip(1));
        assert(t =~= seq![t[0]] + t.skip(1));
    }
}

/// A packed list, and what follows it, is all that a text is made of.
pub proof fn lemma_same_packed(s: Seq<Seq<char>>, t: Seq<Seq<char>>, x: Seq<char>, y: Seq<char>)
    requires
        packed(s) + x == packed(t) + y,
    ensures
        s == t,
        x == y,
{
    let a = joined(s.map_values(|text: Seq<char>| measured(text)));
    let b = joined(t.map_values(|text: Seq<char>| measured(text)));
    assert(packed(s) + x =~= number_text(s.len() as int) + seq![';'] + (a + x));
    assert(packed(t) + y =~= number_text(t.len() as int) + seq![';'] + (b + y));
    lemma_same_numbers(s.len() as int, t.len() as int, ';', a + x, b + y);
    lemma_same_measured(s, t, x, y);
}

} // verus!
