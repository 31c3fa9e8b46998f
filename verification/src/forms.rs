//! The fields of a submitted form or a query string.

use crate::text::{opt_str_view, same_text};
use vstd::prelude::*;

verus! {

/// Fields by name. Where a name was given twice, the last value holds.
pub struct FormFields {
    pub pairs: Vec<(String, String)>,
}

/// The values that a list of names and values gives.
pub open spec fn fields_of(pairs: Seq<(String, String)>) -> Map<Seq<char>, Seq<char>>
    decreases pairs.len(),
{
    if pairs.len() == 0 {
        Map::empty()
    } else {
        fields_of(pairs.drop_last()).insert(pairs.last().0@, pairs.last().1@)
    }
}

/// The value of a field, if it was given.
pub open spec fn field(form: Map<Seq<char>, Seq<char>>, name: Seq<char>) -> Option<Seq<char>> {
    if form.contains_key(name) {
        Some(form[name])
    } else {
        None
    }
}

/// The value of a field, or the given text if it was left out.
pub open spec fn field_or(
    form: Map<Seq<char>, Seq<char>>,
    name: Seq<char>,
    fallback: Seq<char>,
) -> Seq<char> {
    if form.contains_key(name) {
        form[name]
    } else {
        fallback
    }
}

impl View for FormFields {
    type V = Map<Seq<char>, Seq<char>>;

    open spec fn view(&self) -> Map<Seq<char>, Seq<char>> {
        fields_of(self.pairs@)
    }
}

impl FormFields {
    /// The value of a field, if it was given.
    pub fn get(&self, name: &str) -> (r: Option<&str>)
        ensures
            opt_str_view(r) == field(self@, name@),
    {
        let mut i: usize = self.pairs.len();
        proof {
            assert(self.pairs@.take(i as int) =~= self.pairs@);
        }
        while i > 0
            invariant
                i <= self.pairs@.len(),
                field(self@, name@) == field(fields_of(self.pairs@.take(i as int)), name@),
            decreases i,
        {
            let ghost shorter = self.pairs@.take(i - 1);
            proof {
                assert(self.pairs@.take(i as int).drop_last() =~= shorter);
            }
            i -= 1;
            if same_text(self.pairs[i].0.as_str(), name) {
                return Some(self.pairs[i].1.as_str());
            }
        }
        None
    }

    /// Whether a field was given.
    pub fn contains_key(&self, name: &str) -> (r: bool)
        ensures
            r == self@.contains_key(name@),
    {
        self.get(name).is_some()
    }

    /// The value of a field, or the given text if it was left out.
    pub fn get_or(&self, name: &str, fallback: &str) -> (r: String)
        ensures
            r@ == field_or(self@, name@, fallback@),
    {
        match self.get(name) {
            Some(value) => value.to_owned(),
            None => fallback.to_owned(),
        }
    }
}

/// Where a name is given again the last value holds, and no other name is
/// touched.
pub proof fn law_last_value_holds(pairs: Seq<(String, String)>, name: Seq<char>)
    ensures
        field(fields_of(pairs), name) is Some <==> exists|i: int|
            0 <= i < pairs.len() && (#[trigger] pairs[i]).0@ == name,
        forall|i: int|
            0 <= i < pairs.len() && (#[trigger] pairs[i]).0@ == name && (forall|j: int|
                i < j < pairs.len() ==> (#[trigger] pairs[j]).0@ != name) ==> field(
                fields_of(pairs),
                name,
            ) == Some(pairs[i].1@),
    decreases pairs.len(),
{
    if pairs.len() > 0 {
        let fewer = pairs.drop_last();
        law_last_value_holds(fewer, name);
        assert(pairs.last() == pairs[pairs.len() - 1]);
        assert forall|i: int| 0 <= i < fewer.len() implies fewer[i] == pairs[i] by {}
        if exists|i: int| 0 <= i < pairs.len() && (#[trigger] pairs[i]).0@ == name {
            let i = choose|i: int| 0 <= i < pairs.len() && (#[trigger] pairs[i]).0@ == name;
            if i < fewer.len() {
                assert(fewer[i].0@ == name);
            }
        }
        if exists|i: int| 0 <= i < fewer.len() && (#[trigger] fewer[i]).0@ == name {
            let i = choose|i: int| 0 <= i < fewer.len() && (#[trigger] fewer[i]).0@ == name;
            assert(pairs[i].0@ == name);
        }
        assert forall|i: int|
            0 <= i < pairs.len() && (#[trigger] pairs[i]).0@ == name && (forall|j: int|
                i < j < pairs.len() ==> (#[trigger] pairs[j]).0@ != name) implies field(
            fields_of(pairs),
            name,
        ) == Some(pairs[i].1@) by {
            if i < fewer.len() {
                assert(pairs[pairs.len() - 1].0@ != name);
                assert(fewer[i].0@ == name);
                assert forall|j: int| i < j < fewer.len() implies (#[trigger] fewer[j]).0@
                    != name by {
                    assert(pairs[j].0@ != name);
                }
            }
        }
    }
}

/// A field that was given has its value, and one that was left out has what
/// was asked for instead.
pub proof fn law_fallback_is_for_missing_fields(
    form: Map<Seq<char>, Seq<char>>,
    name: Seq<char>,
    fallback: Seq<char>,
)
    ensures
        field(form, name) matches Some(value) ==> field_or(form, name, fallback) == value
            && form.contains_key(name) && form[name] == value,
        field(form, name) is None ==> field_or(form, name, fallback) == fallback
            && !form.contains_key(name),
{
}

} // verus!
