//! The store: named collections of records and the operations on them.

use crate::assoc::{
    distinct_keys,
    has_key,
    keyed,
    lemma_keyed_at,
    lemma_keyed_dom,
    lemma_keyed_len,
    lemma_keyed_push,
    lemma_keyed_update,
};
use crate::model::{
    self,
    after_create,
    after_delete,
    after_replace,
    after_update,
    answers_to,
    coerced_id,
    find_index,
    id_field,
    lemma_find_index_first,
    lemma_find_index_some,
    located,
    read_one,
    records_of,
    replace_outcome,
    update_outcome,
    CollectionModel,
    RecordModel,
    StoreError,
    StoreModel,
};
use crate::number::parse_i32;
use crate::record::Record;
use crate::text::same_text;
use crate::value::{id_kind_of, json_string_text, IdKind, Value};
use vstd::prelude::*;

verus! {

/// The records of `records` as the model sees them.
pub open spec fn records_view(records: Seq<Record>) -> CollectionModel {
    records.map_values(|r: Record| r@)
}

/// Finds the first record of `list` whose `id` field is written `id`.
///
/// A string is written by its characters, every other value as its compact
/// JSON text: the string `abc` answers to `abc`, the number 1 to `1` and not
/// to `01`. A record without an `id` field answers to nothing.
pub fn find_by_id(list: &Vec<Record>, id: &str) -> (r: Option<usize>)
    ensures
        match r {
            Some(i) => i < list.len() && find_index(records_view(list@), id@) == Some(i as int),
            None => find_index(records_view(list@), id@) is None,
        },
{
    proof {
        reveal_strlit("id");
        assert("id"@ =~= id_field());
    }
    let ghost records = records_view(list@);
    let quoted = Value::string(id);
    let mut i: usize = 0;
    while i < list.len()
        invariant
            i <= list.len(),
            records == records_view(list@),
            "id"@ == id_field(),
            quoted@ == json_string_text(id@),
            forall|j: int| 0 <= j < i ==> !answers_to(#[trigger] records[j], id@),
        decreases list.len() - i,
    {
        let answers = match list[i].get("id") {
            Some(value) => match value.id_kind() {
                Some(IdKind::Textual) => same_text(value.as_json(), quoted.as_json()),
                _ => same_text(value.as_json(), id),
            },
            None => false,
        };
        if answers {
            proof {
                lemma_find_index_first(records, id@, i as int);
            }
            return Some(i);
        }
        i = i + 1;
    }
    proof {
        if find_index(records, id@) is Some {
            lemma_find_index_some(records, id@);
        }
    }
    None
}

/// What an operation answered, as the model sees it.
pub open spec fn outcome_view(outcome: Result<Record, StoreError>) -> Result<
    RecordModel,
    StoreError,
> {
    match outcome {
        Ok(record) => Ok(record@),
        Err(e) => Err(e),
    }
}

/// The identifier for a replacement of a record identified by `existing`,
/// where the request names `id`. A string stays a string: the new identifier
/// is the JSON string of `id`, which for a record found by `id` is the
/// identifier it has. A number stays a number: the new identifier is the
/// `i32` that `id` writes. Where `id` writes no `i32`, or `existing` is
/// neither string nor number, there is none.
pub fn coerce_id(existing: &Value, id: &str) -> (r: Option<Value>)
    ensures
        match r {
            Some(v) => coerced_id(existing@, id@) == Some(v@) && id_kind_of(v@) == id_kind_of(
                existing@,
            ),
            None => coerced_id(existing@, id@) is None,
        },
{
    match existing.id_kind() {
        Some(IdKind::Textual) => Some(Value::string(id)),
        Some(IdKind::Numeric) => match parse_i32(id) {
            Some(n) => Some(Value::number(n)),
            None => None,
        },
        None => None,
    }
}

/// One named collection.
#[derive(Debug)]
struct Collection {
    name: String,
    records: Vec<Record>,
}

impl View for Collection {
    type V = (Seq<char>, CollectionModel);

    /// The collection's name and its records in order.
    closed spec fn view(&self) -> (Seq<char>, CollectionModel) {
        (self.name@, records_view(self.records@))
    }
}

/// The store: every collection by name, each in insertion order. The
/// collections themselves are kept in the order in which they were made.
#[derive(Debug)]
pub struct Store {
    collections: Vec<Collection>,
}

impl View for Store {
    type V = StoreModel;

    open spec fn view(&self) -> StoreModel {
        keyed(self.entries())
    }
}

impl Store {
    /// The collections as pairs of name and records, in the order kept.
    pub closed spec fn entries(&self) -> Seq<(Seq<char>, CollectionModel)> {
        self.collections@.map_values(|c: Collection| c@)
    }

    /// No collection name occurs twice.
    #[verifier::type_invariant]
    spec fn names_distinct(&self) -> bool {
        distinct_keys(self.entries())
    }

    /// The store without collections.
    pub fn new() -> (s: Store)
        ensures
            s@ == Map::<Seq<char>, CollectionModel>::empty(),
            s.entries().len() == 0,
    {
        let s = Store { collections: Vec::new() };
        assert(s.entries() =~= Seq::empty());
        s
    }

    /// Where the collection `name` stands among the collections.
    fn position(&self, name: &str) -> (r: Option<usize>)
        ensures
            match r {
                Some(i) => i < self.entries().len() && self.entries()[i as int].0 == name@
                    && self@.contains_key(name@) && self@[name@] == self.entries()[i as int].1,
                None => !has_key(self.entries(), name@) && !self@.contains_key(name@),
            },
    {
        proof {
            use_type_invariant(self);
            lemma_keyed_dom(self.entries(), name@);
        }
        let mut i: usize = 0;
        while i < self.collections.len()
            invariant
                i <= self.collections.len(),
                distinct_keys(self.entries()),
                forall|j: int| 0 <= j < i ==> (#[trigger] self.entries()[j]).0 != name@,
            decreases self.collections.len() - i,
        {
            if same_text(self.collections[i].name.as_str(), name) {
                proof {
                    lemma_keyed_at(self.entries(), i as int);
                }
                return Some(i);
            }
            i = i + 1;
        }
        None
    }

    /// Puts `records` in the place of the records of the collection at `i`
    /// and hands back the records that stood there.
    fn exchange(&mut self, i: usize, records: Vec<Record>) -> (taken: Vec<Record>)
        requires
            i < old(self).entries().len(),
        ensures
            taken@.len() == old(self).entries()[i as int].1.len(),
            records_view(taken@) == old(self).entries()[i as int].1,
            final(self).entries() == old(self).entries().update(
                i as int,
                (old(self).entries()[i as int].0, records_view(records@)),
            ),
            final(self)@ == old(self)@.insert(
                old(self).entries()[i as int].0,
                records_view(records@),
            ),
    {
        proof {
            use_type_invariant(&*self);
            lemma_keyed_update(self.entries(), i as int, records_view(records@));
        }
        let ghost before = self.entries();
        let mut taken = records;
        let mut collections: Vec<Collection> = Vec::new();
        std::mem::swap(&mut collections, &mut self.collections);
        std::mem::swap(&mut taken, &mut collections[i].records);
        assert(collections@.map_values(|c: Collection| c@) =~= before.update(
            i as int,
            (before[i as int].0, records_view(records@)),
        ));
        self.collections = collections;
        taken
    }

    /// Adds the collection `name` with `records` behind the others.
    fn add_collection(&mut self, name: &str, records: Vec<Record>)
        requires
            !has_key(old(self).entries(), name@),
        ensures
            final(self).entries() == old(self).entries().push((name@, records_view(records@))),
            final(self)@ == old(self)@.insert(name@, records_view(records@)),
    {
        proof {
            use_type_invariant(&*self);
            lemma_keyed_push(self.entries(), name@, records_view(records@));
        }
        let ghost before = self.entries();
        let mut collections: Vec<Collection> = Vec::new();
        std::mem::swap(&mut collections, &mut self.collections);
        collections.push(Collection { name: name.to_owned(), records });
        assert(collections@.map_values(|c: Collection| c@) =~= before.push(
            (name@, records_view(records@)),
        ));
        self.collections = collections;
    }

    /// Every record of the collection `route`, in insertion order; none
    /// where the store has no such collection.
    pub fn get_all(&self, route: &str) -> (list: Vec<Record>)
        ensures
            records_view(list@) == records_of(self@, route@),
    {
        match self.position(route) {
            Some(i) => {
                let list = self.collections[i].records.clone();
                assert(records_view(list@) =~= records_view(self.collections[i as int].records@));
                list
            },
            None => {
                let list: Vec<Record> = Vec::new();
                assert(records_view(list@) =~= Seq::empty());
                list
            },
        }
    }

    /// Appends `record` to the collection `route` as it is, making the
    /// collection where the store has none of that name, and answers the
    /// record. Nothing is asked of the record: not that it has an `id`, not
    /// that its `id` is new.
    pub fn create(&mut self, route: &str, record: Record) -> (created: Record)
        ensures
            final(self)@ == after_create(old(self)@, route@, record@),
            created@ == record@,
    {
        let created = record.clone();
        match self.position(route) {
            Some(i) => {
                let mut list = self.exchange(i, Vec::new());
                list.push(record);
                assert(records_view(list@) =~= records_of(old(self)@, route@).push(record@));
                self.exchange(i, list);
            },
            None => {
                let mut list: Vec<Record> = Vec::new();
                list.push(record);
                assert(records_view(list@) =~= records_of(old(self)@, route@).push(record@));
                self.add_collection(route, list);
            },
        }
        assert(self@ =~= after_create(old(self)@, route@, record@));
        created
    }

    /// The first record of the collection `route` that answers to `id`.
    pub fn get_by_id(&self, route: &str, id: &str) -> (r: Result<Record, StoreError>)
        ensures
            outcome_view(r) == read_one(self@, route@, id@),
    {
        match self.position(route) {
            Some(i) => {
                let list = &self.collections[i].records;
                match find_by_id(list, id) {
                    Some(at) => Ok(list[at].clone()),
                    None => Err(StoreError::NotFound),
                }
            },
            None => Err(StoreError::NotFound),
        }
    }

    /// Where the first record that answers to `id` stands: the place of the
    /// collection `route` among the collections, and the place of the record
    /// in it.
    fn locate(&self, route: &str, id: &str) -> (r: Option<(usize, usize)>)
        ensures
            match r {
                Some((i, at)) => i < self.entries().len() && self.entries()[i as int].0 == route@
                    && self@.contains_key(route@) && self@[route@] == self.entries()[i as int].1
                    && at < self@[route@].len() && model::locate(self@, route@, id@) == Some(at as int),
                None => model::locate(self@, route@, id@) is None,
            },
    {
        match self.position(route) {
            Some(i) => match find_by_id(&self.collections[i].records, id) {
                Some(at) => Some((i, at)),
                None => None,
            },
            None => None,
        }
    }

    /// Puts `record` in the place of the record at `at` of the collection at
    /// `i`.
    fn put(&mut self, i: usize, at: usize, record: Record)
        requires
            i < old(self).entries().len(),
            at < old(self).entries()[i as int].1.len(),
        ensures
            final(self)@ == old(self)@.insert(
                old(self).entries()[i as int].0,
                old(self).entries()[i as int].1.update(at as int, record@),
            ),
    {
        let mut list = self.exchange(i, Vec::new());
        list.set(at, record);
        assert(records_view(list@) =~= old(self).entries()[i as int].1.update(at as int, record@));
        self.exchange(i, list);
        assert(self@ =~= old(self)@.insert(
            old(self).entries()[i as int].0,
            old(self).entries()[i as int].1.update(at as int, record@),
        ));
    }

    /// Puts `body` in the place of the first record of the collection
    /// `route` that answers to `id`, and answers what it put there.
    ///
    /// The `id` field of what is put there is not taken from `body`: it is
    /// `id` coerced to the kind of the identifier that the record found has
    /// (see `coerce_id`). Where that cannot be done the replace fails with
    /// `InvalidIdentifierType`; where no record answers, with `NotFound`. A
    /// replace that fails changes nothing.
    pub fn replace(&mut self, route: &str, id: &str, body: Record) -> (r: Result<
        Record,
        StoreError,
    >)
        ensures
            outcome_view(r) == replace_outcome(old(self)@, route@, id@, body@),
            final(self)@ == after_replace(old(self)@, route@, id@, body@),
            r matches Ok(record) ==> record@.contains_key(id_field()) && id_kind_of(
                record@[id_field()],
            ) == id_kind_of(located(old(self)@, route@, id@)[id_field()]),
    {
        proof {
            reveal_strlit("id");
            assert("id"@ =~= id_field());
        }
        let (i, at) = match self.locate(route, id) {
            Some(place) => place,
            None => {
                return Err(StoreError::NotFound);
            },
        };
        proof {
            lemma_find_index_some(self@[route@], id@);
        }
        let identifier = match self.collections[i].records[at].get("id") {
            Some(existing) => match coerce_id(existing, id) {
                Some(identifier) => identifier,
                None => {
                    return Err(StoreError::InvalidIdentifierType);
                },
            },
            None => {
                return Err(StoreError::InvalidIdentifierType);
            },
        };
        let mut record = body;
        record.set("id", identifier);
        let answer = record.clone();
        self.put(i, at, record);
        Ok(answer)
    }

    /// Lays `patch` over the first record of the collection `route` that
    /// answers to `id`, and answers the record as it then stands. Fields
    /// that `patch` names are overwritten or added, the others stay. Where
    /// no record answers the update fails with `NotFound` and changes
    /// nothing.
    pub fn update(&mut self, route: &str, id: &str, patch: &Record) -> (r: Result<
        Record,
        StoreError,
    >)
        ensures
            outcome_view(r) == update_outcome(old(self)@, route@, id@, patch@),
            final(self)@ == after_update(old(self)@, route@, id@, patch@),
    {
        let (i, at) = match self.locate(route, id) {
            Some(place) => place,
            None => {
                return Err(StoreError::NotFound);
            },
        };
        let mut record = self.collections[i].records[at].clone();
        record.merge(patch);
        let answer = record.clone();
        self.put(i, at, record);
        Ok(answer)
    }

    /// Takes the first record of the collection `route` that answers to
    /// `id` out of the collection and answers it. The records behind it
    /// move up by one; their order stays. Where no record answers the
    /// delete fails with `NotFound` and changes nothing.
    pub fn delete(&mut self, route: &str, id: &str) -> (r: Result<Record, StoreError>)
        ensures
            outcome_view(r) == read_one(old(self)@, route@, id@),
            final(self)@ == after_delete(old(self)@, route@, id@),
    {
        let (i, at) = match self.locate(route, id) {
            Some(place) => place,
            None => {
                return Err(StoreError::NotFound);
            },
        };
        let mut list = self.exchange(i, Vec::new());
        let removed = list.remove(at);
        assert(records_view(list@) =~= old(self)@[route@].remove(at as int));
        self.exchange(i, list);
        assert(self@ =~= after_delete(old(self)@, route@, id@));
        Ok(removed)
    }

    /// Makes `records` the collection `name`, in the place of any collection
    /// that had the name.
    pub fn insert_collection(&mut self, name: &str, records: Vec<Record>)
        ensures
            final(self)@ == old(self)@.insert(name@, records_view(records@)),
    {
        match self.position(name) {
            Some(i) => {
                self.exchange(i, records);
            },
            None => {
                self.add_collection(name, records);
            },
        }
    }

    /// The number of collections. Each name occurs once among them.
    pub fn len(&self) -> (n: usize)
        ensures
            n == self.entries().len(),
            n == self@.dom().len(),
            distinct_keys(self.entries()),
    {
        proof {
            use_type_invariant(self);
            lemma_keyed_len(self.entries());
        }
        self.collections.len()
    }

    /// The collection at `i`: its name and its records. `None` where `i` is
    /// not below `len`.
    pub fn collection_at(&self, i: usize) -> (r: Option<(&str, &Vec<Record>)>)
        ensures
            match r {
                Some((name, records)) => i < self.entries().len() && name@ == self.entries()[i as int].0
                    && records_view(records@) == self.entries()[i as int].1,
                None => i >= self.entries().len(),
            },
    {
        if i < self.collections.len() {
            Some((self.collections[i].name.as_str(), &self.collections[i].records))
        } else {
            None
        }
    }
}

} // verus!
