//! Records: keyed structures from field names to values.

use crate::assoc::{
    distinct_keys,
    has_key,
    keyed,
    lemma_keyed_at,
    lemma_keyed_dom,
    lemma_keyed_len,
    lemma_keyed_push,
    lemma_keyed_update,
};
use crate::text::same_text;
use crate::value::Value;
use vstd::prelude::*;
use vstd::std_specs::cmp::PartialEqSpecImpl;

verus! {

/// One field of a record: a name and the value under it.
#[derive(Debug)]
struct Field {
    name: String,
    value: Value,
}

impl View for Field {
    type V = (Seq<char>, Seq<char>);

    /// The field's name and the compact JSON text of its value.
    closed spec fn view(&self) -> (Seq<char>, Seq<char>) {
        (self.name@, self.value@)
    }
}

impl Clone for Field {
    fn clone(&self) -> (r: Self)
        ensures
            r@ == self@,
    {
        Field { name: self.name.clone(), value: self.value.clone() }
    }
}

/// A record: a value for each of a set of field names. The fields are kept in
/// the order in which they were first set; that order carries no meaning.
#[derive(Debug)]
pub struct Record {
    fields: Vec<Field>,
}

impl View for Record {
    type V = Map<Seq<char>, Seq<char>>;

    /// The compact JSON text of each field's value, by field name.
    open spec fn view(&self) -> Map<Seq<char>, Seq<char>> {
        keyed(self.pairs())
    }
}

impl Record {
    /// The fields as pairs of name and value text, in the order kept.
    pub closed spec fn pairs(&self) -> Seq<(Seq<char>, Seq<char>)> {
        self.fields@.map_values(|f: Field| f@)
    }

    /// No field name occurs twice.
    #[verifier::type_invariant]
    spec fn names_distinct(&self) -> bool {
        distinct_keys(self.pairs())
    }

    /// The record without fields.
    pub fn new() -> (r: Record)
        ensures
            r@ == Map::<Seq<char>, Seq<char>>::empty(),
            r.pairs().len() == 0,
    {
        let r = Record { fields: Vec::new() };
        assert(r.pairs() =~= Seq::empty());
        r
    }

    /// Where the field `name` stands among the fields.
    fn position(&self, name: &str) -> (r: Option<usize>)
        ensures
            match r {
                Some(i) => i < self.pairs().len() && self.pairs()[i as int].0 == name@,
                None => !has_key(self.pairs(), name@),
            },
    {
        let mut i: usize = 0;
        while i < self.fields.len()
            invariant
                i <= self.fields.len(),
                forall|j: int| 0 <= j < i ==> (#[trigger] self.pairs()[j]).0 != name@,
            decreases self.fields.len() - i,
        {
            if same_text(self.fields[i].name.as_str(), name) {
                return Some(i);
            }
            i = i + 1;
        }
        None
    }

    /// The value of the field `name`, if the record has that field.
    pub fn get(&self, name: &str) -> (r: Option<&Value>)
        ensures
            match r {
                Some(v) => self@.contains_key(name@) && v@ == self@[name@],
                None => !self@.contains_key(name@),
            },
    {
        proof {
            use_type_invariant(self);
            lemma_keyed_dom(self.pairs(), name@);
        }
        match self.position(name) {
            Some(i) => {
                proof {
                    lemma_keyed_at(self.pairs(), i as int);
                }
                Some(&self.fields[i].value)
            },
            None => None,
        }
    }

    /// Sets the field `name` to `value`: overwrites the field where the
    /// record has it and adds it where not. No other field changes.
    pub fn set(&mut self, name: &str, value: Value)
        ensures
            final(self)@ == old(self)@.insert(name@, value@),
    {
        proof {
            use_type_invariant(&*self);
        }
        let ghost before = self.pairs();
        let found = self.position(name);
        let mut fields: Vec<Field> = Vec::new();
        std::mem::swap(&mut fields, &mut self.fields);
        let field = Field { name: name.to_owned(), value };
        match found {
            Some(i) => {
                proof {
                    lemma_keyed_update(before, i as int, value@);
                }
                fields.set(i, field);
                assert(fields@.map_values(|f: Field| f@) =~= before.update(
                    i as int,
                    (name@, value@),
                ));
            },
            None => {
                proof {
                    lemma_keyed_push(before, name@, value@);
                }
                fields.push(field);
                assert(fields@.map_values(|f: Field| f@) =~= before.push((name@, value@)));
            },
        }
        self.fields = fields;
    }

    /// Lays `patch` over the record: each field of `patch` overwrites the
    /// field of the same name or is added; fields that `patch` does not name
    /// stay as they are.
    pub fn merge(&mut self, patch: &Record)
        ensures
            final(self)@ == old(self)@.union_prefer_right(patch@),
    {
        let ghost start = self@;
        let mut i: usize = 0;
        assert(self@ =~= start.union_prefer_right(keyed(patch.pairs().subrange(0, 0))));
        while i < patch.fields.len()
            invariant
                i <= patch.fields.len(),
                self@ == start.union_prefer_right(keyed(patch.pairs().subrange(0, i as int))),
            decreases patch.fields.len() - i,
        {
            let field = &patch.fields[i];
            let ghost done = patch.pairs().subrange(0, i as int);
            let ghost next = patch.pairs().subrange(0, i + 1);
            self.set(field.name.as_str(), field.value.clone());
            proof {
                assert(next.drop_last() =~= done);
                assert(next.last() == field@);
                assert(self@ =~= start.union_prefer_right(keyed(next)));
            }
            i = i + 1;
        }
        assert(patch.pairs().subrange(0, patch.fields.len() as int) =~= patch.pairs());
    }

    /// Whether every field of the record stands in `other` with the same
    /// value.
    fn within(&self, other: &Record) -> (r: bool)
        ensures
            r == (forall|k: Seq<char>| #[trigger]
                self@.contains_key(k) ==> other@.contains_key(k) && other@[k] == self@[k]),
    {
        proof {
            use_type_invariant(self);
        }
        let mut i: usize = 0;
        while i < self.fields.len()
            invariant
                i <= self.fields.len(),
                distinct_keys(self.pairs()),
                forall|j: int|
                    0 <= j < i ==> other@.contains_key((#[trigger] self.pairs()[j]).0) && other@[self.pairs()[j].0]
                        == self.pairs()[j].1,
            decreases self.fields.len() - i,
        {
            let field = &self.fields[i];
            proof {
                lemma_keyed_at(self.pairs(), i as int);
            }
            let same = match other.get(field.name.as_str()) {
                Some(v) => same_text(v.as_json(), field.value.as_json()),
                None => false,
            };
            if !same {
                assert(self@.contains_key(field@.0));
                return false;
            }
            i = i + 1;
        }
        proof {
            assert forall|k: Seq<char>| #[trigger] self@.contains_key(k) implies other@.contains_key(k)
                && other@[k] == self@[k] by {
                lemma_keyed_dom(self.pairs(), k);
                let j = choose|j: int| 0 <= j < self.pairs().len() && (#[trigger] self.pairs()[j]).0 == k;
                lemma_keyed_at(self.pairs(), j);
            }
        }
        true
    }

    /// The number of fields. Each name occurs once among them.
    pub fn len(&self) -> (n: usize)
        ensures
            n == self.pairs().len(),
            n == self@.dom().len(),
            distinct_keys(self.pairs()),
    {
        proof {
            use_type_invariant(self);
            lemma_keyed_len(self.pairs());
        }
        self.fields.len()
    }

    /// The field at `i`: its name and its value. `None` where `i` is not
    /// below `len`.
    pub fn field_at(&self, i: usize) -> (r: Option<(&str, &Value)>)
        ensures
            match r {
                Some((name, value)) => i < self.pairs().len() && name@ == self.pairs()[i as int].0
                    && value@ == self.pairs()[i as int].1,
                None => i >= self.pairs().len(),
            },
    {
        if i < self.fields.len() {
            Some((self.fields[i].name.as_str(), &self.fields[i].value))
        } else {
            None
        }
    }
}

impl Clone for Record {
    fn clone(&self) -> (r: Self)
        ensures
            r.pairs() == self.pairs(),
            r@ == self@,
    {
        proof {
            use_type_invariant(self);
        }
        let fields = self.fields.clone();
        assert(fields@.map_values(|f: Field| f@) =~= self.pairs());
        Record { fields }
    }
}

impl PartialEq for Record {
    /// Two records are equal where they have the same fields with the same
    /// values, in whatever order.
    fn eq(&self, other: &Record) -> (r: bool) {
        let r = self.within(other) && other.within(self);
        proof {
            if r {
                assert(self@ =~= other@);
            }
        }
        r
    }
}

impl PartialEqSpecImpl for Record {
    open spec fn obeys_eq_spec() -> bool {
        true
    }

    open spec fn eq_spec(&self, other: &Record) -> bool {
        self@ == other@
    }
}

} // verus!
