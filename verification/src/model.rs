//! The mathematical model of the store.
//!
//! A [`StoreModel`] is one sequence per table, in physical row order, together
//! with the largest identifier each of the three entity tables has handed out.
//! The spec functions here describe every table transformation and every query
//! the repository performs; the executable operations in [`crate::db`] promise
//! exactly these in their contracts.

use vstd::prelude::*;
use crate::models::{DbError, Group, Job, Person};

verus! {

/// The abstract contents of the store.
#[verifier::ext_equal]
pub ghost struct StoreModel {
    pub persons: Seq<Person>,
    pub groups: Seq<Group>,
    pub jobs: Seq<Job>,
    /// Association rows `(person id, job id)`.
    pub person_jobs: Seq<(i64, i64)>,
    /// Association rows `(person id, group id)`.
    pub person_groups: Seq<(i64, i64)>,
    /// Association rows `(group id, job id)`.
    pub group_jobs: Seq<(i64, i64)>,
    /// Largest identifier the person table has assigned; 0 before any insert.
    pub last_person_id: i64,
    pub last_group_id: i64,
    pub last_job_id: i64,
}

/// `m` with its person table (and that table's id counter) replaced.
pub open spec fn with_persons(m: StoreModel, rows: Seq<Person>, last: i64) -> StoreModel {
    StoreModel {
        persons: rows,
        groups: m.groups,
        jobs: m.jobs,
        person_jobs: m.person_jobs,
        person_groups: m.person_groups,
        group_jobs: m.group_jobs,
        last_person_id: last,
        last_group_id: m.last_group_id,
        last_job_id: m.last_job_id,
    }
}

/// `m` with its group table (and that table's id counter) replaced.
pub open spec fn with_groups(m: StoreModel, rows: Seq<Group>, last: i64) -> StoreModel {
    StoreModel {
        persons: m.persons,
        groups: rows,
        jobs: m.jobs,
        person_jobs: m.person_jobs,
        person_groups: m.person_groups,
        group_jobs: m.group_jobs,
        last_person_id: m.last_person_id,
        last_group_id: last,
        last_job_id: m.last_job_id,
    }
}

/// `m` with its job table (and that table's id counter) replaced.
pub open spec fn with_jobs(m: StoreModel, rows: Seq<Job>, last: i64) -> StoreModel {
    StoreModel {
        persons: m.persons,
        groups: m.groups,
        jobs: rows,
        person_jobs: m.person_jobs,
        person_groups: m.person_groups,
        group_jobs: m.group_jobs,
        last_person_id: m.last_person_id,
        last_group_id: m.last_group_id,
        last_job_id: last,
    }
}

// ---------------------------------------------------------------------------
// Table integrity
// ---------------------------------------------------------------------------

/// Every stored person row carries an identifier, no two rows share one, and
/// none exceeds the table's counter.
pub open spec fn persons_wf(rows: Seq<Person>, last: i64) -> bool {
    &&& forall|k: int|
        0 <= k < rows.len() ==> (#[trigger] rows[k].id) is Some && rows[k].id->0 <= last
    &&& forall|k: int, l: int|
        0 <= k < l < rows.len() ==> rows[k].id != rows[l].id
}

pub open spec fn groups_wf(rows: Seq<Group>, last: i64) -> bool {
    &&& forall|k: int|
        0 <= k < rows.len() ==> (#[trigger] rows[k].id) is Some && rows[k].id->0 <= last
    &&& forall|k: int, l: int|
        0 <= k < l < rows.len() ==> rows[k].id != rows[l].id
}

pub open spec fn jobs_wf(rows: Seq<Job>, last: i64) -> bool {
    &&& forall|k: int|
        0 <= k < rows.len() ==> (#[trigger] rows[k].id) is Some && rows[k].id->0 <= last
    &&& forall|k: int, l: int|
        0 <= k < l < rows.len() ==> rows[k].id != rows[l].id
}

/// The integrity the store keeps of itself. The association tables are not
/// constrained: their schema and population lie outside the repository.
pub open spec fn store_wf(m: StoreModel) -> bool {
    &&& persons_wf(m.persons, m.last_person_id)
    &&& groups_wf(m.groups, m.last_group_id)
    &&& jobs_wf(m.jobs, m.last_job_id)
}

// ---------------------------------------------------------------------------
// Largest identifier in a loaded table
// ---------------------------------------------------------------------------

/// The largest identifier among the rows, but never below 0, so that the
/// first identifier a fresh or loaded table assigns is positive.
pub open spec fn max_person_id(rows: Seq<Person>) -> int
    decreases rows.len(),
{
    if rows.len() == 0 {
        0
    } else {
        let rest = max_person_id(rows.drop_last());
        match rows.last().id {
            Some(v) => if v > rest { v as int } else { rest },
            None => rest,
        }
    }
}

pub open spec fn max_group_id(rows: Seq<Group>) -> int
    decreases rows.len(),
{
    if rows.len() == 0 {
        0
    } else {
        let rest = max_group_id(rows.drop_last());
        match rows.last().id {
            Some(v) => if v > rest { v as int } else { rest },
            None => rest,
        }
    }
}

pub open spec fn max_job_id(rows: Seq<Job>) -> int
    decreases rows.len(),
{
    if rows.len() == 0 {
        0
    } else {
        let rest = max_job_id(rows.drop_last());
        match rows.last().id {
            Some(v) => if v > rest { v as int } else { rest },
            None => rest,
        }
    }
}

/// `max_person_id` is never negative and bounds every assigned identifier.
pub proof fn lemma_max_person_id_bound(rows: Seq<Person>)
    ensures
        0 <= max_person_id(rows),
        forall|k: int|
            0 <= k < rows.len() ==> ((#[trigger] rows[k].id) is Some ==> rows[k].id->0
                <= max_person_id(rows)),
    decreases rows.len(),
{
    if rows.len() > 0 {
        lemma_max_person_id_bound(rows.drop_last());
        assert(forall|k: int| 0 <= k < rows.len() - 1 ==> rows[k] == rows.drop_last()[k]);
    }
}

pub proof fn lemma_max_group_id_bound(rows: Seq<Group>)
    ensures
        0 <= max_group_id(rows),
        forall|k: int|
            0 <= k < rows.len() ==> ((#[trigger] rows[k].id) is Some ==> rows[k].id->0
                <= max_group_id(rows)),
    decreases rows.len(),
{
    if rows.len() > 0 {
        lemma_max_group_id_bound(rows.drop_last());
        assert(forall|k: int| 0 <= k < rows.len() - 1 ==> rows[k] == rows.drop_last()[k]);
    }
}

pub proof fn lemma_max_job_id_bound(rows: Seq<Job>)
    ensures
        0 <= max_job_id(rows),
        forall|k: int|
            0 <= k < rows.len() ==> ((#[trigger] rows[k].id) is Some ==> rows[k].id->0
                <= max_job_id(rows)),
    decreases rows.len(),
{
    if rows.len() > 0 {
        lemma_max_job_id_bound(rows.drop_last());
        assert(forall|k: int| 0 <= k < rows.len() - 1 ==> rows[k] == rows.drop_last()[k]);
    }
}

// ---------------------------------------------------------------------------
// Conditions on tables handed to `load`
// ---------------------------------------------------------------------------

pub open spec fn person_ids_assigned(rows: Seq<Person>) -> bool {
    forall|k: int| 0 <= k < rows.len() ==> (#[trigger] rows[k].id) is Some
}

pub open spec fn person_ids_distinct(rows: Seq<Person>) -> bool {
    forall|k: int, l: int| 0 <= k < l < rows.len() ==> rows[k].id != rows[l].id
}

pub open spec fn group_ids_assigned(rows: Seq<Group>) -> bool {
    forall|k: int| 0 <= k < rows.len() ==> (#[trigger] rows[k].id) is Some
}

pub open spec fn group_ids_distinct(rows: Seq<Group>) -> bool {
    forall|k: int, l: int| 0 <= k < l < rows.len() ==> rows[k].id != rows[l].id
}

pub open spec fn job_ids_assigned(rows: Seq<Job>) -> bool {
    forall|k: int| 0 <= k < rows.len() ==> (#[trigger] rows[k].id) is Some
}

pub open spec fn job_ids_distinct(rows: Seq<Job>) -> bool {
    forall|k: int, l: int| 0 <= k < l < rows.len() ==> rows[k].id != rows[l].id
}

/// Why a person table cannot be loaded, if it cannot: a missing identifier is
/// reported before a duplicated one.
pub open spec fn person_table_refusal(rows: Seq<Person>) -> Option<DbError> {
    if !person_ids_assigned(rows) {
        Some(DbError::MissingId)
    } else if !person_ids_distinct(rows) {
        Some(DbError::DuplicateId)
    } else {
        None
    }
}

pub open spec fn group_table_refusal(rows: Seq<Group>) -> Option<DbError> {
    if !group_ids_assigned(rows) {
        Some(DbError::MissingId)
    } else if !group_ids_distinct(rows) {
        Some(DbError::DuplicateId)
    } else {
        None
    }
}

pub open spec fn job_table_refusal(rows: Seq<Job>) -> Option<DbError> {
    if !job_ids_assigned(rows) {
        Some(DbError::MissingId)
    } else if !job_ids_distinct(rows) {
        Some(DbError::DuplicateId)
    } else {
        None
    }
}

/// Why a `load` call fails, if it fails: tables are examined in person,
/// group, job order.
pub open spec fn load_refusal(
    persons: Seq<Person>,
    groups: Seq<Group>,
    jobs: Seq<Job>,
) -> Option<DbError> {
    if person_table_refusal(persons) is Some {
        person_table_refusal(persons)
    } else if group_table_refusal(groups) is Some {
        group_table_refusal(groups)
    } else {
        job_table_refusal(jobs)
    }
}

// ---------------------------------------------------------------------------
// Row transformations
// ---------------------------------------------------------------------------

/// The row stored when `payload` is inserted into a person table whose largest
/// assigned identifier is `last`: the store assigns the next identifier and
/// discards any identifier the payload carried.
pub open spec fn person_as_stored(payload: Person, last: i64) -> Person {
    Person { id: Some((last + 1) as i64), name: payload.name, group_id: payload.group_id }
}

pub open spec fn group_as_stored(payload: Group, last: i64) -> Group {
    Group { id: Some((last + 1) as i64), name: payload.name, description: payload.description }
}

pub open spec fn job_as_stored(payload: Job, last: i64) -> Job {
    Job {
        id: Some((last + 1) as i64),
        title: payload.title,
        description: payload.description,
        start_date: payload.start_date,
        end_date: payload.end_date,
        group_id: payload.group_id,
        person_id: payload.person_id,
    }
}

/// An update by identifier rewrites every payload field of the matching row
/// and leaves the identifier, and every other row, untouched.
pub open spec fn person_row_updated(row: Person, target: i64, payload: Person) -> Person {
    if row.id == Some(target) {
        Person { id: row.id, name: payload.name, group_id: payload.group_id }
    } else {
        row
    }
}

pub open spec fn group_row_updated(row: Group, target: i64, payload: Group) -> Group {
    if row.id == Some(target) {
        Group { id: row.id, name: payload.name, description: payload.description }
    } else {
        row
    }
}

pub open spec fn job_row_updated(row: Job, target: i64, payload: Job) -> Job {
    if row.id == Some(target) {
        Job {
            id: row.id,
            title: payload.title,
            description: payload.description,
            start_date: payload.start_date,
            end_date: payload.end_date,
            group_id: payload.group_id,
            person_id: payload.person_id,
        }
    } else {
        row
    }
}

/// Placing a person into a group sets the matching row's group column,
/// whatever it held before.
pub open spec fn person_row_placed_in_group(row: Person, person_id: i64, group_id: i64) -> Person {
    if row.id == Some(person_id) {
        Person { id: row.id, name: row.name, group_id: Some(group_id) }
    } else {
        row
    }
}

/// Removing a person from a group clears the matching row's group column only
/// when that column currently names the given group.
pub open spec fn person_row_taken_from_group(row: Person, person_id: i64, group_id: i64) -> Person {
    if row.id == Some(person_id) && row.group_id == Some(group_id) {
        Person { id: row.id, name: row.name, group_id: None }
    } else {
        row
    }
}

// ---------------------------------------------------------------------------
// Queries and rewrites of whole tables
// ---------------------------------------------------------------------------

pub open spec fn person_in_group(row: Person, group_id: i64) -> bool {
    row.group_id == Some(group_id)
}

pub open spec fn job_in_group(row: Job, group_id: i64) -> bool {
    row.group_id == Some(group_id)
}

pub open spec fn in_group_pred(group_id: i64) -> spec_fn(Person) -> bool {
    |row: Person| person_in_group(row, group_id)
}

pub open spec fn job_in_group_pred(group_id: i64) -> spec_fn(Job) -> bool {
    |row: Job| job_in_group(row, group_id)
}

/// The person rows whose group column names `group_id`, in table order.
pub open spec fn persons_in_group(rows: Seq<Person>, group_id: i64) -> Seq<Person> {
    rows.filter(in_group_pred(group_id))
}

/// The job rows whose group column names `group_id`, in table order.
pub open spec fn jobs_in_group(rows: Seq<Job>, group_id: i64) -> Seq<Job> {
    rows.filter(job_in_group_pred(group_id))
}

pub open spec fn keep_person_pred(target: i64) -> spec_fn(Person) -> bool {
    |row: Person| row.id != Some(target)
}

pub open spec fn keep_group_pred(target: i64) -> spec_fn(Group) -> bool {
    |row: Group| row.id != Some(target)
}

pub open spec fn keep_job_pred(target: i64) -> spec_fn(Job) -> bool {
    |row: Job| row.id != Some(target)
}

/// The table after deleting by identifier: every row but the matching ones.
pub open spec fn persons_without(rows: Seq<Person>, target: i64) -> Seq<Person> {
    rows.filter(keep_person_pred(target))
}

pub open spec fn groups_without(rows: Seq<Group>, target: i64) -> Seq<Group> {
    rows.filter(keep_group_pred(target))
}

pub open spec fn jobs_without(rows: Seq<Job>, target: i64) -> Seq<Job> {
    rows.filter(keep_job_pred(target))
}

pub open spec fn person_update_fn(target: i64, payload: Person) -> spec_fn(Person) -> Person {
    |row: Person| person_row_updated(row, target, payload)
}

pub open spec fn group_update_fn(target: i64, payload: Group) -> spec_fn(Group) -> Group {
    |row: Group| group_row_updated(row, target, payload)
}

pub open spec fn job_update_fn(target: i64, payload: Job) -> spec_fn(Job) -> Job {
    |row: Job| job_row_updated(row, target, payload)
}

pub open spec fn persons_updated(rows: Seq<Person>, target: i64, payload: Person) -> Seq<Person> {
    rows.map_values(person_update_fn(target, payload))
}

pub open spec fn groups_updated(rows: Seq<Group>, target: i64, payload: Group) -> Seq<Group> {
    rows.map_values(group_update_fn(target, payload))
}

pub open spec fn jobs_updated(rows: Seq<Job>, target: i64, payload: Job) -> Seq<Job> {
    rows.map_values(job_update_fn(target, payload))
}

pub open spec fn place_in_group_fn(person_id: i64, group_id: i64) -> spec_fn(Person) -> Person {
    |row: Person| person_row_placed_in_group(row, person_id, group_id)
}

pub open spec fn take_from_group_fn(person_id: i64, group_id: i64) -> spec_fn(Person) -> Person {
    |row: Person| person_row_taken_from_group(row, person_id, group_id)
}

pub open spec fn persons_placed_in_group(
    rows: Seq<Person>,
    person_id: i64,
    group_id: i64,
) -> Seq<Person> {
    rows.map_values(place_in_group_fn(person_id, group_id))
}

pub open spec fn persons_taken_from_group(
    rows: Seq<Person>,
    person_id: i64,
    group_id: i64,
) -> Seq<Person> {
    rows.map_values(take_from_group_fn(person_id, group_id))
}

// ---------------------------------------------------------------------------
// Association-table queries
// ---------------------------------------------------------------------------

/// Whether the association table holds the pair `(a, b)`.
pub open spec fn links_has(links: Seq<(i64, i64)>, a: i64, b: i64) -> bool {
    exists|k: int| 0 <= k < links.len() && #[trigger] links[k] == (a, b)
}

pub open spec fn job_of_person_pred(links: Seq<(i64, i64)>, person_id: i64) -> spec_fn(Job) -> bool {
    |row: Job| row.id is Some && links_has(links, person_id, row.id->0)
}

pub open spec fn person_of_job_pred(links: Seq<(i64, i64)>, job_id: i64) -> spec_fn(
    Person,
) -> bool {
    |row: Person| row.id is Some && links_has(links, row.id->0, job_id)
}

pub open spec fn group_of_person_pred(links: Seq<(i64, i64)>, person_id: i64) -> spec_fn(
    Group,
) -> bool {
    |row: Group| row.id is Some && links_has(links, person_id, row.id->0)
}

pub open spec fn group_of_job_pred(links: Seq<(i64, i64)>, job_id: i64) -> spec_fn(Group) -> bool {
    |row: Group| row.id is Some && links_has(links, row.id->0, job_id)
}

/// The job rows tied to `person_id` through `(person id, job id)` rows.
pub open spec fn jobs_linked_to_person(
    jobs: Seq<Job>,
    links: Seq<(i64, i64)>,
    person_id: i64,
) -> Seq<Job> {
    jobs.filter(job_of_person_pred(links, person_id))
}

/// The person rows tied to `job_id` through `(person id, job id)` rows.
pub open spec fn persons_linked_to_job(
    persons: Seq<Person>,
    links: Seq<(i64, i64)>,
    job_id: i64,
) -> Seq<Person> {
    persons.filter(person_of_job_pred(links, job_id))
}

/// The group rows tied to `person_id` through `(person id, group id)` rows.
pub open spec fn groups_linked_to_person(
    groups: Seq<Group>,
    links: Seq<(i64, i64)>,
    person_id: i64,
) -> Seq<Group> {
    groups.filter(group_of_person_pred(links, person_id))
}

/// The group rows tied to `job_id` through `(group id, job id)` rows.
pub open spec fn groups_linked_to_job(
    groups: Seq<Group>,
    links: Seq<(i64, i64)>,
    job_id: i64,
) -> Seq<Group> {
    groups.filter(group_of_job_pred(links, job_id))
}

// ---------------------------------------------------------------------------
// Transitions: what each write operation does to the whole store
// ---------------------------------------------------------------------------

pub open spec fn person_created(pre: StoreModel, post: StoreModel, payload: Person) -> bool {
    &&& pre.last_person_id < i64::MAX
    &&& post == with_persons(
        pre,
        pre.persons.push(person_as_stored(payload, pre.last_person_id)),
        (pre.last_person_id + 1) as i64,
    )
}

pub open spec fn group_created(pre: StoreModel, post: StoreModel, payload: Group) -> bool {
    &&& pre.last_group_id < i64::MAX
    &&& post == with_groups(
        pre,
        pre.groups.push(group_as_stored(payload, pre.last_group_id)),
        (pre.last_group_id + 1) as i64,
    )
}

pub open spec fn job_created(pre: StoreModel, post: StoreModel, payload: Job) -> bool {
    &&& pre.last_job_id < i64::MAX
    &&& post == with_jobs(
        pre,
        pre.jobs.push(job_as_stored(payload, pre.last_job_id)),
        (pre.last_job_id + 1) as i64,
    )
}

pub open spec fn person_updated(
    pre: StoreModel,
    post: StoreModel,
    target: i64,
    payload: Person,
) -> bool {
    post == with_persons(pre, persons_updated(pre.persons, target, payload), pre.last_person_id)
}

pub open spec fn group_updated(
    pre: StoreModel,
    post: StoreModel,
    target: i64,
    payload: Group,
) -> bool {
    post == with_groups(pre, groups_updated(pre.groups, target, payload), pre.last_group_id)
}

pub open spec fn job_updated(pre: StoreModel, post: StoreModel, target: i64, payload: Job) -> bool {
    post == with_jobs(pre, jobs_updated(pre.jobs, target, payload), pre.last_job_id)
}

pub open spec fn person_deleted(pre: StoreModel, post: StoreModel, target: i64) -> bool {
    post == with_persons(pre, persons_without(pre.persons, target), pre.last_person_id)
}

pub open spec fn group_deleted(pre: StoreModel, post: StoreModel, target: i64) -> bool {
    post == with_groups(pre, groups_without(pre.groups, target), pre.last_group_id)
}

pub open spec fn job_deleted(pre: StoreModel, post: StoreModel, target: i64) -> bool {
    post == with_jobs(pre, jobs_without(pre.jobs, target), pre.last_job_id)
}

pub open spec fn person_placed_in_group(
    pre: StoreModel,
    post: StoreModel,
    group_id: i64,
    person_id: i64,
) -> bool {
    post == with_persons(
        pre,
        persons_placed_in_group(pre.persons, person_id, group_id),
        pre.last_person_id,
    )
}

pub open spec fn person_taken_from_group(
    pre: StoreModel,
    post: StoreModel,
    group_id: i64,
    person_id: i64,
) -> bool {
    post == with_persons(
        pre,
        persons_taken_from_group(pre.persons, person_id, group_id),
        pre.last_person_id,
    )
}

// ---------------------------------------------------------------------------
// Facts about filtered tables
// ---------------------------------------------------------------------------

/// Filtering a table with one more row keeps the filtered prefix and appends
/// the new row exactly when the predicate admits it.
pub proof fn lemma_filter_push<A>(rows: Seq<A>, x: A, pred: spec_fn(A) -> bool)
    ensures
        rows.push(x).filter(pred) == if pred(x) {
            rows.filter(pred).push(x)
        } else {
            rows.filter(pred)
        },
{
    reveal(Seq::filter);
    assert(rows.push(x).drop_last() =~= rows);
    assert(rows.push(x).last() == x);
}

/// Every row of a filtered table equals some row of the original.
pub proof fn lemma_filter_in_source<A>(rows: Seq<A>, pred: spec_fn(A) -> bool)
    ensures
        forall|i: int|
            0 <= i < rows.filter(pred).len() ==> rows.contains(#[trigger] rows.filter(pred)[i]),
    decreases rows.len(),
{
    reveal(Seq::filter);
    if rows.len() > 0 {
        let prefix = rows.drop_last();
        lemma_filter_in_source(prefix, pred);
        let f = rows.filter(pred);
        let fp = prefix.filter(pred);
        assert forall|i: int| 0 <= i < f.len() implies rows.contains(#[trigger] f[i]) by {
            if i < fp.len() {
                assert(fp[i] == f[i]);
                assert(prefix.contains(fp[i]));
                let k = choose|k: int| 0 <= k < prefix.len() && prefix[k] == fp[i];
                assert(rows[k] == f[i]);
            } else {
                assert(f[i] == rows.last());
                assert(rows[rows.len() - 1] == f[i]);
            }
        }
    }
}

/// Two rows of a filtered table, in order, equal two rows of the original
/// table in the same order: filtering keeps order and never repeats a row.
pub proof fn lemma_filter_embeds<A>(rows: Seq<A>, pred: spec_fn(A) -> bool, i: int, j: int)
    requires
        0 <= i < j < rows.filter(pred).len(),
    ensures
        exists|k: int, l: int|
            0 <= k < l < rows.len() && rows[k] == rows.filter(pred)[i] && rows[l]
                == rows.filter(pred)[j],
    decreases rows.len(),
{
    reveal(Seq::filter);
    let f = rows.filter(pred);
    let prefix = rows.drop_last();
    let fp = prefix.filter(pred);
    if pred(rows.last()) {
        assert(f == fp.push(rows.last()));
        if j < fp.len() {
            lemma_filter_embeds(prefix, pred, i, j);
            let (k, l) = choose|k: int, l: int|
                0 <= k < l < prefix.len() && prefix[k] == fp[i] && prefix[l] == fp[j];
            assert(rows[k] == f[i] && rows[l] == f[j]);
        } else {
            lemma_filter_in_source(prefix, pred);
            assert(prefix.contains(fp[i]));
            let k = choose|k: int| 0 <= k < prefix.len() && prefix[k] == fp[i];
            let l = rows.len() - 1;
            assert(rows[k] == f[i] && rows[l] == f[j]);
        }
    } else {
        assert(f == fp);
        lemma_filter_embeds(prefix, pred, i, j);
        let (k, l) = choose|k: int, l: int|
            0 <= k < l < prefix.len() && prefix[k] == fp[i] && prefix[l] == fp[j];
        assert(rows[k] == f[i] && rows[l] == f[j]);
    }
}

/// A filter that admits every row returns the table unchanged.
pub proof fn lemma_filter_keeps_all<A>(rows: Seq<A>, pred: spec_fn(A) -> bool)
    requires
        forall|k: int| 0 <= k < rows.len() ==> pred(#[trigger] rows[k]),
    ensures
        rows.filter(pred) == rows,
    decreases rows.len(),
{
    reveal(Seq::filter);
    if rows.len() == 0 {
        assert(rows.filter(pred) =~= rows);
    } else {
        assert(forall|k: int|
            0 <= k < rows.drop_last().len() ==> pred(#[trigger] rows.drop_last()[k]));
        lemma_filter_keeps_all(rows.drop_last(), pred);
        assert(pred(rows.last()));
        assert(rows.filter(pred) == rows.drop_last().push(rows.last()));
        assert(rows.drop_last().push(rows.last()) =~= rows);
    }
}

// ---------------------------------------------------------------------------
// Integrity is preserved by every rewrite
// ---------------------------------------------------------------------------

/// A row map that never touches identifiers keeps a person table well formed.
pub proof fn lemma_persons_mapped_wf(rows: Seq<Person>, f: spec_fn(Person) -> Person, last: i64)
    requires
        persons_wf(rows, last),
        forall|p: Person| (#[trigger] f(p)).id == p.id,
    ensures
        persons_wf(rows.map_values(f), last),
{
    let out = rows.map_values(f);
    assert(forall|k: int| 0 <= k < out.len() ==> (#[trigger] out[k]) == f(rows[k]));
}

pub proof fn lemma_groups_mapped_wf(rows: Seq<Group>, f: spec_fn(Group) -> Group, last: i64)
    requires
        groups_wf(rows, last),
        forall|g: Group| (#[trigger] f(g)).id == g.id,
    ensures
        groups_wf(rows.map_values(f), last),
{
    let out = rows.map_values(f);
    assert(forall|k: int| 0 <= k < out.len() ==> (#[trigger] out[k]) == f(rows[k]));
}

pub proof fn lemma_jobs_mapped_wf(rows: Seq<Job>, f: spec_fn(Job) -> Job, last: i64)
    requires
        jobs_wf(rows, last),
        forall|j: Job| (#[trigger] f(j)).id == j.id,
    ensures
        jobs_wf(rows.map_values(f), last),
{
    let out = rows.map_values(f);
    assert(forall|k: int| 0 <= k < out.len() ==> (#[trigger] out[k]) == f(rows[k]));
}

/// Deleting by identifier keeps a person table well formed.
pub proof fn lemma_persons_without_wf(rows: Seq<Person>, target: i64, last: i64)
    requires
        persons_wf(rows, last),
    ensures
        persons_wf(persons_without(rows, target), last),
{
    let out = persons_without(rows, target);
    lemma_filter_in_source(rows, keep_person_pred(target));
    assert forall|i: int|
        0 <= i < out.len() implies (#[trigger] out[i].id) is Some && out[i].id->0 <= last by {
        assert(rows.contains(out[i]));
        let k = choose|k: int| 0 <= k < rows.len() && rows[k] == out[i];
        assert(rows[k].id is Some && rows[k].id->0 <= last);
    }
    assert forall|i: int, j: int| 0 <= i < j < out.len() implies out[i].id != out[j].id by {
        lemma_filter_embeds(rows, keep_person_pred(target), i, j);
        let (k, l) = choose|k: int, l: int|
            0 <= k < l < rows.len() && rows[k] == out[i] && rows[l] == out[j];
        assert(rows[k].id != rows[l].id);
    }
}

pub proof fn lemma_groups_without_wf(rows: Seq<Group>, target: i64, last: i64)
    requires
        groups_wf(rows, last),
    ensures
        groups_wf(groups_without(rows, target), last),
{
    let out = groups_without(rows, target);
    lemma_filter_in_source(rows, keep_group_pred(target));
    assert forall|i: int|
        0 <= i < out.len() implies (#[trigger] out[i].id) is Some && out[i].id->0 <= last by {
        assert(rows.contains(out[i]));
        let k = choose|k: int| 0 <= k < rows.len() && rows[k] == out[i];
        assert(rows[k].id is Some && rows[k].id->0 <= last);
    }
    assert forall|i: int, j: int| 0 <= i < j < out.len() implies out[i].id != out[j].id by {
        lemma_filter_embeds(rows, keep_group_pred(target), i, j);
        let (k, l) = choose|k: int, l: int|
            0 <= k < l < rows.len() && rows[k] == out[i] && rows[l] == out[j];
        assert(rows[k].id != rows[l].id);
    }
}

pub proof fn lemma_jobs_without_wf(rows: Seq<Job>, target: i64, last: i64)
    requires
        jobs_wf(rows, last),
    ensures
        jobs_wf(jobs_without(rows, target), last),
{
    let out = jobs_without(rows, target);
    lemma_filter_in_source(rows, keep_job_pred(target));
    assert forall|i: int|
        0 <= i < out.len() implies (#[trigger] out[i].id) is Some && out[i].id->0 <= last by {
        assert(rows.contains(out[i]));
        let k = choose|k: int| 0 <= k < rows.len() && rows[k] == out[i];
        assert(rows[k].id is Some && rows[k].id->0 <= last);
    }
    assert forall|i: int, j: int| 0 <= i < j < out.len() implies out[i].id != out[j].id by {
        lemma_filter_embeds(rows, keep_job_pred(target), i, j);
        let (k, l) = choose|k: int, l: int|
            0 <= k < l < rows.len() && rows[k] == out[i] && rows[l] == out[j];
        assert(rows[k].id != rows[l].id);
    }
}

} // verus!

