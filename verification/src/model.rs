//! What the store's operations mean, over maps and sequences.
//!
//! A record is a map from field names to the compact JSON text of their
//! values, a collection a sequence of records, a store a map from collection
//! names to collections. Each operation is a function on these.

use crate::number::{decimal_text, i32_literal};
use crate::value::{id_kind_of, json_string_text, IdKind};
use vstd::prelude::*;

verus! {

/// A record: the compact JSON text of each field's value, by field name.
pub type RecordModel = Map<Seq<char>, Seq<char>>;

/// A collection: its records in insertion order.
pub type CollectionModel = Seq<Map<Seq<char>, Seq<char>>>;

/// A store: its collections by name.
pub type StoreModel = Map<Seq<char>, Seq<Map<Seq<char>, Seq<char>>>>;

/// Why an operation on one record did not happen.
#[derive(Debug, PartialEq, Eq, Structural)]
pub enum StoreError {
    /// The collection does not exist or none of its records has the
    /// identifier asked for.
    NotFound,
    /// The identifier asked for cannot take the kind of the identifier that
    /// the record to replace has.
    InvalidIdentifierType,
}

impl Clone for StoreError {
    fn clone(&self) -> (r: Self)
        ensures
            r == *self,
    {
        match self {
            StoreError::NotFound => StoreError::NotFound,
            StoreError::InvalidIdentifierType => StoreError::InvalidIdentifierType,
        }
    }
}

impl Copy for StoreError {

}

/// The name of the field that identifies a record: `id`.
pub open spec fn id_field() -> Seq<char> {
    seq!['i', 'd']
}

/// Whether the identifier with the compact JSON text `value` is written
/// `id`. A string is written by its characters: it answers where its text is
/// the JSON string of `id`. Every other value is written as its compact JSON
/// text: the number 1 answers to `1` and not to `01`.
pub open spec fn written_as(value: Seq<char>, id: Seq<char>) -> bool {
    if id_kind_of(value) == Some(IdKind::Textual) {
        value == json_string_text(id)
    } else {
        value == id
    }
}

/// Whether `record` answers to the identifier `id`: it has an `id` field and
/// the value of that field is written `id`.
pub open spec fn answers_to(record: RecordModel, id: Seq<char>) -> bool {
    record.contains_key(id_field()) && written_as(record[id_field()], id)
}

/// The position of the first record of `records` that answers to `id`.
pub open spec fn find_index(records: CollectionModel, id: Seq<char>) -> Option<int>
    decreases records.len(),
{
    if records.len() == 0 {
        None
    } else if answers_to(records[0], id) {
        Some(0)
    } else {
        match find_index(records.drop_first(), id) {
            Some(i) => Some(i + 1),
            None => None,
        }
    }
}

/// The records of the collection `name`; none where the store has no such
/// collection.
pub open spec fn records_of(store: StoreModel, name: Seq<char>) -> CollectionModel {
    if store.contains_key(name) {
        store[name]
    } else {
        Seq::empty()
    }
}

/// The position in the collection `name` of the first record that answers to
/// `id`.
pub open spec fn locate(store: StoreModel, name: Seq<char>, id: Seq<char>) -> Option<int> {
    find_index(records_of(store, name), id)
}

/// The record at that position, where there is one.
pub open spec fn located(store: StoreModel, name: Seq<char>, id: Seq<char>) -> RecordModel
    recommends
        locate(store, name, id) is Some,
{
    records_of(store, name)[locate(store, name, id)->0]
}

/// The record that a read of `id` in the collection `name` gives.
pub open spec fn read_one(store: StoreModel, name: Seq<char>, id: Seq<char>) -> Result<
    RecordModel,
    StoreError,
> {
    match locate(store, name, id) {
        Some(i) => Ok(records_of(store, name)[i]),
        None => Err(StoreError::NotFound),
    }
}

/// The store after `record` was appended to the collection `name`.
pub open spec fn after_create(store: StoreModel, name: Seq<char>, record: RecordModel)
    -> StoreModel {
    store.insert(name, records_of(store, name).push(record))
}

/// The identifier that a replacement gets where the record to replace has an
/// identifier with the text `existing` and the request names `id`: the JSON
/// string of `id` where the existing one is a string; the number that `id`
/// writes where it is a number and `id` writes an `i32`; none otherwise.
/// For a record that answers to `id` with a string, that is the identifier
/// it has.
pub open spec fn coerced_id(existing: Seq<char>, id: Seq<char>) -> Option<Seq<char>> {
    match id_kind_of(existing) {
        Some(IdKind::Textual) => Some(json_string_text(id)),
        Some(IdKind::Numeric) => match i32_literal(id) {
            Some(n) => Some(decimal_text(n as int)),
            None => None,
        },
        None => None,
    }
}

/// What a replace of `id` in the collection `name` by `body` answers: the
/// body with its `id` field set to the coerced identifier.
pub open spec fn replace_outcome(
    store: StoreModel,
    name: Seq<char>,
    id: Seq<char>,
    body: RecordModel,
) -> Result<RecordModel, StoreError> {
    match locate(store, name, id) {
        Some(i) => match coerced_id(records_of(store, name)[i][id_field()], id) {
            Some(text) => Ok(body.insert(id_field(), text)),
            None => Err(StoreError::InvalidIdentifierType),
        },
        None => Err(StoreError::NotFound),
    }
}

/// The store after that replace: the record found gives way to the answer;
/// a replace that fails changes nothing.
pub open spec fn after_replace(
    store: StoreModel,
    name: Seq<char>,
    id: Seq<char>,
    body: RecordModel,
) -> StoreModel {
    match (locate(store, name, id), replace_outcome(store, name, id, body)) {
        (Some(i), Ok(record)) => store.insert(name, store[name].update(i, record)),
        _ => store,
    }
}

/// What an update of `id` in the collection `name` by `patch` answers: the
/// record found with the fields of `patch` laid over it.
pub open spec fn update_outcome(
    store: StoreModel,
    name: Seq<char>,
    id: Seq<char>,
    patch: RecordModel,
) -> Result<RecordModel, StoreError> {
    match locate(store, name, id) {
        Some(i) => Ok(records_of(store, name)[i].union_prefer_right(patch)),
        None => Err(StoreError::NotFound),
    }
}

/// The store after that update.
pub open spec fn after_update(
    store: StoreModel,
    name: Seq<char>,
    id: Seq<char>,
    patch: RecordModel,
) -> StoreModel {
    match (locate(store, name, id), update_outcome(store, name, id, patch)) {
        (Some(i), Ok(record)) => store.insert(name, store[name].update(i, record)),
        _ => store,
    }
}

/// The store after a delete of `id` in the collection `name`: the record
/// found is gone and those behind it have moved up; a delete that finds
/// nothing changes nothing. What the delete answers is `read_one`.
pub open spec fn after_delete(store: StoreModel, name: Seq<char>, id: Seq<char>) -> StoreModel {
    match locate(store, name, id) {
        Some(i) => store.insert(name, store[name].remove(i)),
        None => store,
    }
}

/// Where `find_index` finds a record, it is the first that answers.
pub proof fn lemma_find_index_some(records: CollectionModel, id: Seq<char>)
    requires
        find_index(records, id) is Some,
    ensures
        0 <= find_index(records, id)->0 < records.len(),
        answers_to(records[find_index(records, id)->0], id),
        forall|j: int| 0 <= j < find_index(records, id)->0 ==> !answers_to(#[trigger] records[j], id),
    decreases records.len(),
{
    if records.len() > 0 && !answers_to(records[0], id) {
        let rest = records.drop_first();
        lemma_find_index_some(rest, id);
        let i = find_index(rest, id)->0;
        assert(records[i + 1] == rest[i]);
        assert forall|j: int| 0 <= j < i + 1 implies !answers_to(#[trigger] records[j], id) by {
            if j > 0 {
                assert(records[j] == rest[j - 1]);
            }
        }
    }
}

/// Where `find_index` finds none, no record answers.
pub proof fn lemma_find_index_none(records: CollectionModel, id: Seq<char>)
    requires
        find_index(records, id) is None,
    ensures
        forall|j: int| 0 <= j < records.len() ==> !answers_to(#[trigger] records[j], id),
    decreases records.len(),
{
    if records.len() > 0 {
        let rest = records.drop_first();
        lemma_find_index_none(rest, id);
        assert forall|j: int| 0 <= j < records.len() implies !answers_to(#[trigger] records[j], id) by {
            if j > 0 {
                assert(records[j] == rest[j - 1]);
            }
        }
    }
}

/// The first record that answers is what `find_index` finds.
pub proof fn lemma_find_index_first(records: CollectionModel, id: Seq<char>, i: int)
    requires
        0 <= i < records.len(),
        answers_to(records[i], id),
        forall|j: int| 0 <= j < i ==> !answers_to(#[trigger] records[j], id),
    ensures
        find_index(records, id) == Some(i),
    decreases records.len(),
{
    if i > 0 {
        let rest = records.drop_first();
        assert(!answers_to(records[0], id));
        assert(rest[i - 1] == records[i]);
        assert forall|j: int| 0 <= j < i - 1 implies !answers_to(#[trigger] rest[j], id) by {
            assert(rest[j] == records[j + 1]);
        }
        lemma_find_index_first(rest, id, i - 1);
    }
}

} // verus!
