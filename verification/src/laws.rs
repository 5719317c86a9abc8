//! Laws the repository obeys, stated over the model transitions that the
//! operations in [`crate::db`] promise, and proved once and for all.

use vstd::prelude::*;
use crate::model::{
    group_as_stored, group_created, group_deleted, group_row_updated, group_update_fn,
    group_updated, in_group_pred, job_as_stored, job_created, job_deleted, job_row_updated,
    job_update_fn, job_updated, keep_group_pred, keep_job_pred, keep_person_pred,
    lemma_filter_keeps_all, person_as_stored, person_created, person_deleted,
    person_in_group, person_row_taken_from_group, person_row_updated, person_placed_in_group,
    person_taken_from_group, person_update_fn, person_updated, persons_in_group,
    persons_taken_from_group, place_in_group_fn, person_row_placed_in_group,
    take_from_group_fn, StoreModel,
};
use crate::models::{Group, Job, Person};

verus! {

// ---------------------------------------------------------------------------
// Creation is visible in a subsequent listing
// ---------------------------------------------------------------------------

/// Creating a person and then listing all persons shows the created record,
/// carrying the store-assigned identifier.
pub proof fn lemma_create_then_list_person(pre: StoreModel, post: StoreModel, payload: Person)
    requires
        person_created(pre, post, payload),
    ensures
        post.persons.len() == pre.persons.len() + 1,
        post.persons.last() == person_as_stored(payload, pre.last_person_id),
        post.persons.last().id == Some((pre.last_person_id + 1) as i64),
        post.persons.contains(person_as_stored(payload, pre.last_person_id)),
{
    assert(post.persons[pre.persons.len() as int] == person_as_stored(
        payload,
        pre.last_person_id,
    ));
}

/// Creating a group and then listing all groups shows the created record,
/// carrying the store-assigned identifier.
pub proof fn lemma_create_then_list_group(pre: StoreModel, post: StoreModel, payload: Group)
    requires
        group_created(pre, post, payload),
    ensures
        post.groups.len() == pre.groups.len() + 1,
        post.groups.last() == group_as_stored(payload, pre.last_group_id),
        post.groups.last().id == Some((pre.last_group_id + 1) as i64),
        post.groups.contains(group_as_stored(payload, pre.last_group_id)),
{
    assert(post.groups[pre.groups.len() as int] == group_as_stored(payload, pre.last_group_id));
}

/// Creating a job and then listing all jobs shows the created record,
/// carrying the store-assigned identifier.
pub proof fn lemma_create_then_list_job(pre: StoreModel, post: StoreModel, payload: Job)
    requires
        job_created(pre, post, payload),
    ensures
        post.jobs.len() == pre.jobs.len() + 1,
        post.jobs.last() == job_as_stored(payload, pre.last_job_id),
        post.jobs.last().id == Some((pre.last_job_id + 1) as i64),
        post.jobs.contains(job_as_stored(payload, pre.last_job_id)),
{
    assert(post.jobs[pre.jobs.len() as int] == job_as_stored(payload, pre.last_job_id));
}

// ---------------------------------------------------------------------------
// An update is visible in a subsequent read, and touches nothing else
// ---------------------------------------------------------------------------

/// After an update by identifier, the matching row carries the new payload
/// fields; its identifier, and every other row, are unaffected.
pub proof fn lemma_update_then_read_person(
    pre: StoreModel,
    post: StoreModel,
    target: i64,
    payload: Person,
)
    requires
        person_updated(pre, post, target, payload),
    ensures
        post.persons.len() == pre.persons.len(),
        forall|k: int|
            0 <= k < pre.persons.len() && pre.persons[k].id == Some(target)
                ==> #[trigger] post.persons[k] == (Person {
                id: Some(target),
                name: payload.name,
                group_id: payload.group_id,
            }),
        forall|k: int|
            0 <= k < pre.persons.len() && pre.persons[k].id != Some(target)
                ==> #[trigger] post.persons[k] == pre.persons[k],
        forall|k: int|
            0 <= k < pre.persons.len() ==> (#[trigger] post.persons[k]).id == pre.persons[k].id,
{
    assert forall|k: int| 0 <= k < pre.persons.len() implies #[trigger] post.persons[k]
        == person_row_updated(pre.persons[k], target, payload) by {
        assert(post.persons[k] == person_update_fn(target, payload)(pre.persons[k]));
    }
}

/// After an update by identifier, the matching group row carries the new
/// payload fields; its identifier, and every other row, are unaffected.
pub proof fn lemma_update_then_read_group(
    pre: StoreModel,
    post: StoreModel,
    target: i64,
    payload: Group,
)
    requires
        group_updated(pre, post, target, payload),
    ensures
        post.groups.len() == pre.groups.len(),
        forall|k: int|
            0 <= k < pre.groups.len() && pre.groups[k].id == Some(target)
                ==> #[trigger] post.groups[k] == (Group {
                id: Some(target),
                name: payload.name,
                description: payload.description,
            }),
        forall|k: int|
            0 <= k < pre.groups.len() && pre.groups[k].id != Some(target)
                ==> #[trigger] post.groups[k] == pre.groups[k],
        forall|k: int|
            0 <= k < pre.groups.len() ==> (#[trigger] post.groups[k]).id == pre.groups[k].id,
{
    assert forall|k: int| 0 <= k < pre.groups.len() implies #[trigger] post.groups[k]
        == group_row_updated(pre.groups[k], target, payload) by {
        assert(post.groups[k] == group_update_fn(target, payload)(pre.groups[k]));
    }
}

/// After an update by identifier, the matching job row carries the new
/// payload fields; its identifier, and every other row, are unaffected.
pub proof fn lemma_update_then_read_job(
    pre: StoreModel,
    post: StoreModel,
    target: i64,
    payload: Job,
)
    requires
        job_updated(pre, post, target, payload),
    ensures
        post.jobs.len() == pre.jobs.len(),
        forall|k: int|
            0 <= k < pre.jobs.len() && pre.jobs[k].id == Some(target) ==> #[trigger] post.jobs[k]
                == (Job {
                id: Some(target),
                title: payload.title,
                description: payload.description,
                start_date: payload.start_date,
                end_date: payload.end_date,
                group_id: payload.group_id,
                person_id: payload.person_id,
            }),
        forall|k: int|
            0 <= k < pre.jobs.len() && pre.jobs[k].id != Some(target) ==> #[trigger] post.jobs[k]
                == pre.jobs[k],
        forall|k: int| 0 <= k < pre.jobs.len() ==> (#[trigger] post.jobs[k]).id == pre.jobs[k].id,
{
    assert forall|k: int| 0 <= k < pre.jobs.len() implies #[trigger] post.jobs[k]
        == job_row_updated(pre.jobs[k], target, payload) by {
        assert(post.jobs[k] == job_update_fn(target, payload)(pre.jobs[k]));
    }
}

// ---------------------------------------------------------------------------
// Deletion is visible in a subsequent listing; deleting a missing
// identifier changes nothing
// ---------------------------------------------------------------------------

/// After a delete by identifier, no listed person row carries that
/// identifier; and when no row carried it, the table is unchanged.
pub proof fn lemma_delete_then_list_person(pre: StoreModel, post: StoreModel, target: i64)
    requires
        person_deleted(pre, post, target),
    ensures
        forall|k: int|
            0 <= k < post.persons.len() ==> (#[trigger] post.persons[k]).id != Some(target),
        (forall|k: int|
            0 <= k < pre.persons.len() ==> (#[trigger] pre.persons[k]).id != Some(target))
            ==> post == pre,
{
    assert forall|k: int|
        0 <= k < post.persons.len() implies (#[trigger] post.persons[k]).id != Some(target) by {
        pre.persons.lemma_filter_pred(keep_person_pred(target), k);
        assert(keep_person_pred(target)(post.persons[k]));
    }
    if forall|k: int|
        0 <= k < pre.persons.len() ==> (#[trigger] pre.persons[k]).id != Some(target) {
        assert forall|k: int|
            0 <= k < pre.persons.len() implies keep_person_pred(target)(
            #[trigger] pre.persons[k],
        ) by {}
        lemma_filter_keeps_all(pre.persons, keep_person_pred(target));
        assert(post =~= pre);
    }
}

/// After a delete by identifier, no listed group row carries that
/// identifier; and when no row carried it, the table is unchanged.
pub proof fn lemma_delete_then_list_group(pre: StoreModel, post: StoreModel, target: i64)
    requires
        group_deleted(pre, post, target),
    ensures
        forall|k: int|
            0 <= k < post.groups.len() ==> (#[trigger] post.groups[k]).id != Some(target),
        (forall|k: int|
            0 <= k < pre.groups.len() ==> (#[trigger] pre.groups[k]).id != Some(target)) ==> post
            == pre,
{
    assert forall|k: int|
        0 <= k < post.groups.len() implies (#[trigger] post.groups[k]).id != Some(target) by {
        pre.groups.lemma_filter_pred(keep_group_pred(target), k);
        assert(keep_group_pred(target)(post.groups[k]));
    }
    if forall|k: int| 0 <= k < pre.groups.len() ==> (#[trigger] pre.groups[k]).id != Some(target) {
        assert forall|k: int|
            0 <= k < pre.groups.len() implies keep_group_pred(target)(#[trigger] pre.groups[k]) by {}
        lemma_filter_keeps_all(pre.groups, keep_group_pred(target));
        assert(post =~= pre);
    }
}

/// After a delete by identifier, no listed job row carries that identifier;
/// and when no row carried it, the table is unchanged.
pub proof fn lemma_delete_then_list_job(pre: StoreModel, post: StoreModel, target: i64)
    requires
        job_deleted(pre, post, target),
    ensures
        forall|k: int| 0 <= k < post.jobs.len() ==> (#[trigger] post.jobs[k]).id != Some(target),
        (forall|k: int| 0 <= k < pre.jobs.len() ==> (#[trigger] pre.jobs[k]).id != Some(target))
            ==> post == pre,
{
    assert forall|k: int|
        0 <= k < post.jobs.len() implies (#[trigger] post.jobs[k]).id != Some(target) by {
        pre.jobs.lemma_filter_pred(keep_job_pred(target), k);
        assert(keep_job_pred(target)(post.jobs[k]));
    }
    if forall|k: int| 0 <= k < pre.jobs.len() ==> (#[trigger] pre.jobs[k]).id != Some(target) {
        assert forall|k: int|
            0 <= k < pre.jobs.len() implies keep_job_pred(target)(#[trigger] pre.jobs[k]) by {}
        lemma_filter_keeps_all(pre.jobs, keep_job_pred(target));
        assert(post =~= pre);
    }
}

// ---------------------------------------------------------------------------
// Group membership
// ---------------------------------------------------------------------------

/// Removing a person from a group is a no-op when the person's current group
/// is not that group: no row changes at all.
pub proof fn lemma_remove_from_other_group_is_noop(
    pre: StoreModel,
    post: StoreModel,
    group_id: i64,
    person_id: i64,
)
    requires
        person_taken_from_group(pre, post, group_id, person_id),
        forall|k: int|
            0 <= k < pre.persons.len() && (#[trigger] pre.persons[k]).id == Some(person_id)
                ==> pre.persons[k].group_id != Some(group_id),
    ensures
        post == pre,
{
    let out = persons_taken_from_group(pre.persons, person_id, group_id);
    assert forall|k: int| 0 <= k < out.len() implies #[trigger] out[k] == pre.persons[k] by {
        assert(out[k] == take_from_group_fn(person_id, group_id)(pre.persons[k]));
        assert(out[k] == person_row_taken_from_group(pre.persons[k], person_id, group_id));
    }
    assert(out =~= pre.persons);
    assert(post =~= pre);
}

/// Adding a person to a group and then querying that group's persons shows
/// the person: the row keeps its identifier and now names the group.
/// `k` is the person's position in the table.
pub proof fn lemma_add_then_query_includes_person(
    pre: StoreModel,
    post: StoreModel,
    group_id: i64,
    person_id: i64,
    k: int,
)
    requires
        person_placed_in_group(pre, post, group_id, person_id),
        0 <= k < pre.persons.len(),
        pre.persons[k].id == Some(person_id),
    ensures
        post.persons[k].id == Some(person_id),
        post.persons[k].group_id == Some(group_id),
        persons_in_group(post.persons, group_id).contains(post.persons[k]),
{
    assert(post.persons[k] == place_in_group_fn(person_id, group_id)(pre.persons[k]));
    assert(post.persons[k] == person_row_placed_in_group(pre.persons[k], person_id, group_id));
    assert(person_in_group(post.persons[k], group_id));
    assert(in_group_pred(group_id)(post.persons[k]));
    post.persons.lemma_filter_contains(in_group_pred(group_id), k);
}

} // verus!
