//! Laws of the store: what holds of its operations on every store.
//!
//! Each law is stated over the functions of `model`, in whose terms the
//! operations of `Store` are specified, so each holds of every run of those
//! operations.

use crate::model::{
    after_create,
    after_delete,
    after_replace,
    after_update,
    answers_to,
    find_index,
    id_field,
    lemma_find_index_first,
    lemma_find_index_none,
    lemma_find_index_some,
    locate,
    located,
    read_one,
    records_of,
    replace_outcome,
    update_outcome,
    RecordModel,
    StoreError,
    StoreModel,
};
use crate::number::{decimal_text, i32_literal, lemma_decimal_round_trip};
use crate::value::{id_kind_of, json_string_text, IdKind};
use vstd::prelude::*;

verus! {

/// Whether no record of the collection `name` answers to `id`.
pub open spec fn absent(store: StoreModel, name: Seq<char>, id: Seq<char>) -> bool {
    forall|j: int|
        0 <= j < records_of(store, name).len() ==> !answers_to(
            #[trigger] records_of(store, name)[j],
            id,
        )
}

/// An identifier that no record of a collection answers to is not found:
/// reading it, replacing it, updating it and deleting it each fail with
/// `NotFound`, and none of them changes the store.
pub proof fn law_absent_is_not_found(
    store: StoreModel,
    name: Seq<char>,
    id: Seq<char>,
    body: RecordModel,
    patch: RecordModel,
)
    requires
        absent(store, name, id),
    ensures
        read_one(store, name, id) == Err::<RecordModel, StoreError>(StoreError::NotFound),
        replace_outcome(store, name, id, body) == Err::<RecordModel, StoreError>(
            StoreError::NotFound,
        ),
        update_outcome(store, name, id, patch) == Err::<RecordModel, StoreError>(
            StoreError::NotFound,
        ),
        after_replace(store, name, id, body) == store,
        after_update(store, name, id, patch) == store,
        after_delete(store, name, id) == store,
{
    if locate(store, name, id) is Some {
        lemma_find_index_some(records_of(store, name), id);
    }
}

/// An operation on one record fails with `NotFound` only where no record of
/// the collection answers to the identifier.
pub proof fn law_not_found_is_absent(store: StoreModel, name: Seq<char>, id: Seq<char>)
    requires
        read_one(store, name, id) == Err::<RecordModel, StoreError>(StoreError::NotFound),
    ensures
        absent(store, name, id),
{
    lemma_find_index_none(records_of(store, name), id);
}

/// After a create the collection is what it was with the created record
/// behind it, field for field as it was handed in, and every other
/// collection is what it was.
pub proof fn law_create_appends(
    store: StoreModel,
    name: Seq<char>,
    record: RecordModel,
    other: Seq<char>,
)
    ensures
        records_of(after_create(store, name, record), name) == records_of(store, name).push(
            record,
        ),
        records_of(after_create(store, name, record), name).len() == records_of(store, name).len()
            + 1,
        records_of(after_create(store, name, record), name).last() == record,
        other != name ==> records_of(after_create(store, name, record), other) == records_of(
            store,
            other,
        ),
{
}

/// After the create of a record that the collection did not hold, the
/// collection holds it exactly once: at the end.
pub proof fn law_create_once(store: StoreModel, name: Seq<char>, record: RecordModel, j: int)
    requires
        !records_of(store, name).contains(record),
        0 <= j < records_of(after_create(store, name, record), name).len(),
    ensures
        records_of(after_create(store, name, record), name)[j] == record <==> j == records_of(
            store,
            name,
        ).len(),
{
    let old_list = records_of(store, name);
    if j < old_list.len() {
        assert(old_list.contains(old_list[j]));
    }
}

/// A record that was created with an identifier is found by it: a read of
/// that identifier succeeds.
pub proof fn law_create_then_read(
    store: StoreModel,
    name: Seq<char>,
    record: RecordModel,
    id: Seq<char>,
)
    requires
        answers_to(record, id),
    ensures
        read_one(after_create(store, name, record), name, id) is Ok,
        absent(store, name, id) ==> read_one(after_create(store, name, record), name, id) == Ok::<
            RecordModel,
            StoreError,
        >(record),
{
    let old_list = records_of(store, name);
    let new_list = old_list.push(record);
    assert(new_list[old_list.len() as int] == record);
    if find_index(new_list, id) is None {
        lemma_find_index_none(new_list, id);
    }
    if absent(store, name, id) {
        assert forall|j: int| 0 <= j < old_list.len() implies !answers_to(
            #[trigger] new_list[j],
            id,
        ) by {
            assert(new_list[j] == old_list[j]);
        }
        lemma_find_index_first(new_list, id, old_list.len() as int);
    }
}

/// A replace that succeeds puts its answer in the place of the record found
/// and leaves every other record, and the length of the collection, as they
/// were. The answer is the body with only its `id` field decided by the
/// store.
pub proof fn law_replace_in_place(
    store: StoreModel,
    name: Seq<char>,
    id: Seq<char>,
    body: RecordModel,
    field: Seq<char>,
)
    requires
        replace_outcome(store, name, id, body) is Ok,
    ensures
        locate(store, name, id) is Some,
        records_of(after_replace(store, name, id, body), name) == records_of(store, name).update(
            locate(store, name, id)->0,
            replace_outcome(store, name, id, body)->Ok_0,
        ),
        field != id_field() ==> (replace_outcome(
            store,
            name,
            id,
            body,
        )->Ok_0.contains_key(field) <==> body.contains_key(field)),
        field != id_field() && body.contains_key(field) ==> replace_outcome(
            store,
            name,
            id,
            body,
        )->Ok_0[field] == body[field],
{
    lemma_find_index_some(records_of(store, name), id);
}

/// A replace that fails, for whichever reason, leaves the store as it was.
pub proof fn law_failed_replace_changes_nothing(
    store: StoreModel,
    name: Seq<char>,
    id: Seq<char>,
    body: RecordModel,
)
    requires
        replace_outcome(store, name, id, body) is Err,
    ensures
        after_replace(store, name, id, body) == store,
{
}

/// A replace of a record whose identifier is a number fails with
/// `InvalidIdentifierType` where the identifier asked for writes no `i32`,
/// and the record stays as it was.
pub proof fn law_replace_needs_a_number(
    store: StoreModel,
    name: Seq<char>,
    id: Seq<char>,
    body: RecordModel,
)
    requires
        locate(store, name, id) is Some,
        id_kind_of(located(store, name, id)[id_field()]) == Some(
            IdKind::Numeric,
        ),
        i32_literal(id) is None,
    ensures
        replace_outcome(store, name, id, body) == Err::<RecordModel, StoreError>(
            StoreError::InvalidIdentifierType,
        ),
        after_replace(store, name, id, body) == store,
{
}

/// A replace that puts back the identifier that the record found had can be
/// made again: the record it put answers to the same identifier, a read of
/// it gives that record, and a second replace with the same body answers the
/// same and leaves the store as the first left it.
proof fn lemma_replace_settles(store: StoreModel, name: Seq<char>, id: Seq<char>, body: RecordModel)
    requires
        locate(store, name, id) is Some,
        replace_outcome(store, name, id, body) == Ok::<RecordModel, StoreError>(
            body.insert(id_field(), located(store, name, id)[id_field()]),
        ),
    ensures
        read_one(after_replace(store, name, id, body), name, id) == replace_outcome(
            store,
            name,
            id,
            body,
        ),
        replace_outcome(after_replace(store, name, id, body), name, id, body) == replace_outcome(
            store,
            name,
            id,
            body,
        ),
        after_replace(after_replace(store, name, id, body), name, id, body) == after_replace(
            store,
            name,
            id,
            body,
        ),
{
    let list = records_of(store, name);
    lemma_find_index_some(list, id);
    let i = locate(store, name, id)->0;
    let record = body.insert(id_field(), list[i][id_field()]);
    let after = list.update(i, record);
    let next = after_replace(store, name, id, body);
    assert(records_of(next, name) == after);
    assert(answers_to(after[i], id));
    assert forall|j: int| 0 <= j < i implies !answers_to(#[trigger] after[j], id) by {
        assert(after[j] == list[j]);
    }
    lemma_find_index_first(after, id, i);
    assert(after.update(i, record) =~= after);
    assert(next.insert(name, after) =~= next);
}

/// A replace leaves a whole-number identifier as it is written: where the
/// record found is identified by a number and the identifier asked for is
/// the decimal text of an `i32`, the answer is the body with exactly that
/// identifier. A read of the identifier then gives the answer, and the same
/// replace made again answers the same and changes nothing more.
pub proof fn law_replace_keeps_whole_number(
    store: StoreModel,
    name: Seq<char>,
    id: Seq<char>,
    body: RecordModel,
    n: i32,
)
    requires
        locate(store, name, id) is Some,
        id_kind_of(located(store, name, id)[id_field()]) == Some(IdKind::Numeric),
        id == decimal_text(n as int),
    ensures
        replace_outcome(store, name, id, body) == Ok::<RecordModel, StoreError>(
            body.insert(id_field(), id),
        ),
        read_one(after_replace(store, name, id, body), name, id) == replace_outcome(
            store,
            name,
            id,
            body,
        ),
        replace_outcome(after_replace(store, name, id, body), name, id, body) == replace_outcome(
            store,
            name,
            id,
            body,
        ),
        after_replace(after_replace(store, name, id, body), name, id, body) == after_replace(
            store,
            name,
            id,
            body,
        ),
{
    lemma_find_index_some(records_of(store, name), id);
    lemma_decimal_round_trip(n);
    lemma_replace_settles(store, name, id, body);
}

/// A replace leaves a string identifier as it is: where the record found is
/// identified by a string, the replace succeeds and the answer is the body
/// with the identifier that the record had, which is the JSON string of the
/// identifier asked for. A read of the identifier then gives the answer, and
/// the same replace made again answers the same and changes nothing more.
pub proof fn law_replace_keeps_string(
    store: StoreModel,
    name: Seq<char>,
    id: Seq<char>,
    body: RecordModel,
)
    requires
        locate(store, name, id) is Some,
        id_kind_of(located(store, name, id)[id_field()]) == Some(IdKind::Textual),
    ensures
        located(store, name, id)[id_field()] == json_string_text(id),
        replace_outcome(store, name, id, body) == Ok::<RecordModel, StoreError>(
            body.insert(id_field(), located(store, name, id)[id_field()]),
        ),
        read_one(after_replace(store, name, id, body), name, id) == replace_outcome(
            store,
            name,
            id,
            body,
        ),
        replace_outcome(after_replace(store, name, id, body), name, id, body) == replace_outcome(
            store,
            name,
            id,
            body,
        ),
        after_replace(after_replace(store, name, id, body), name, id, body) == after_replace(
            store,
            name,
            id,
            body,
        ),
{
    lemma_find_index_some(records_of(store, name), id);
    lemma_replace_settles(store, name, id, body);
}

/// An update keeps what it does not name: in the answer every field of the
/// patch has the patch's value, every other field of the record found has
/// the value it had, and there are no further fields. The answer stands in
/// the place of the record found; the collection is otherwise as it was.
pub proof fn law_update_merges(
    store: StoreModel,
    name: Seq<char>,
    id: Seq<char>,
    patch: RecordModel,
    field: Seq<char>,
)
    requires
        locate(store, name, id) is Some,
    ensures
        update_outcome(store, name, id, patch) is Ok,
        patch.contains_key(field) ==> update_outcome(store, name, id, patch)->Ok_0.contains_key(
            field,
        ) && update_outcome(store, name, id, patch)->Ok_0[field] == patch[field],
        !patch.contains_key(field) && located(store, name, id).contains_key(field)
            ==> update_outcome(store, name, id, patch)->Ok_0.contains_key(field) && update_outcome(
            store,
            name,
            id,
            patch,
        )->Ok_0[field] == located(store, name, id)[field],
        !patch.contains_key(field) && !located(store, name, id).contains_key(field)
            ==> !update_outcome(store, name, id, patch)->Ok_0.contains_key(field),
        records_of(after_update(store, name, id, patch), name) == records_of(store, name).update(
            locate(store, name, id)->0,
            update_outcome(store, name, id, patch)->Ok_0,
        ),
{
    lemma_find_index_some(records_of(store, name), id);
}

/// A delete that finds its record removes exactly one: the collection is
/// shorter by one, and the delete answers the record that a read would have
/// given.
pub proof fn law_delete_removes_one(store: StoreModel, name: Seq<char>, id: Seq<char>)
    requires
        locate(store, name, id) is Some,
    ensures
        records_of(after_delete(store, name, id), name).len() == records_of(store, name).len() - 1,
        records_of(after_delete(store, name, id), name) == records_of(store, name).remove(
            locate(store, name, id)->0,
        ),
        read_one(store, name, id) == Ok::<RecordModel, StoreError>(located(store, name, id)),
{
    lemma_find_index_some(records_of(store, name), id);
}

/// A delete keeps the other records in their order: those before the one
/// found stay where they were, those behind it move up by one.
pub proof fn law_delete_keeps_order(store: StoreModel, name: Seq<char>, id: Seq<char>, j: int)
    requires
        locate(store, name, id) is Some,
        0 <= j < records_of(store, name).len() - 1,
    ensures
        j < locate(store, name, id)->0 ==> records_of(after_delete(store, name, id), name)[j]
            == records_of(store, name)[j],
        j >= locate(store, name, id)->0 ==> records_of(after_delete(store, name, id), name)[j]
            == records_of(store, name)[j + 1],
{
    lemma_find_index_some(records_of(store, name), id);
}

/// A delete undoes a create: where a collection holds no record that answers
/// to an identifier, the create of a record that does and the delete of that
/// identifier leave the store as it was, and the delete answers the record
/// created.
pub proof fn law_delete_undoes_create(
    store: StoreModel,
    name: Seq<char>,
    record: RecordModel,
    id: Seq<char>,
)
    requires
        store.contains_key(name),
        answers_to(record, id),
        absent(store, name, id),
    ensures
        read_one(after_create(store, name, record), name, id) == Ok::<RecordModel, StoreError>(
            record,
        ),
        after_delete(after_create(store, name, record), name, id) == store,
{
    let list = records_of(store, name);
    let longer = list.push(record);
    assert forall|j: int| 0 <= j < list.len() implies !answers_to(#[trigger] longer[j], id) by {
        assert(longer[j] == list[j]);
    }
    lemma_find_index_first(longer, id, list.len() as int);
    assert(longer.remove(list.len() as int) =~= list);
    assert(after_create(store, name, record).insert(name, list) =~= store);
}

/// Whether the record at `i` is the only one of the collection `name` that
/// answers to `id`.
pub open spec fn only_answer(store: StoreModel, name: Seq<char>, id: Seq<char>, i: int) -> bool {
    0 <= i < records_of(store, name).len() && forall|j: int|
        0 <= j < records_of(store, name).len() ==> (answers_to(
            #[trigger] records_of(store, name)[j],
            id,
        ) <==> j == i)
}

/// After the delete of an identifier that one record answered to, no record
/// answers to it: a read of it fails with `NotFound`.
pub proof fn law_delete_then_read(store: StoreModel, name: Seq<char>, id: Seq<char>, i: int)
    requires
        only_answer(store, name, id, i),
    ensures
        locate(store, name, id) == Some(i),
        read_one(after_delete(store, name, id), name, id) == Err::<RecordModel, StoreError>(
            StoreError::NotFound,
        ),
{
    let list = records_of(store, name);
    assert(answers_to(list[i], id));
    lemma_find_index_first(list, id, i);
    let rest = list.remove(i);
    assert(records_of(after_delete(store, name, id), name) == rest);
    if find_index(rest, id) is Some {
        lemma_find_index_some(rest, id);
        let k = find_index(rest, id)->0;
        if k < i {
            assert(rest[k] == list[k]);
        } else {
            assert(rest[k] == list[k + 1]);
        }
    }
}

/// An operation on one collection leaves every other collection as it was.
pub proof fn law_other_collections_untouched(
    store: StoreModel,
    name: Seq<char>,
    id: Seq<char>,
    body: RecordModel,
    other: Seq<char>,
)
    requires
        other != name,
    ensures
        records_of(after_create(store, name, body), other) == records_of(store, other),
        records_of(after_replace(store, name, id, body), other) == records_of(store, other),
        records_of(after_update(store, name, id, body), other) == records_of(store, other),
        records_of(after_delete(store, name, id), other) == records_of(store, other),
{
}

} // verus!
