//! The repository: an in-memory relational store over the three entity
//! tables and their association tables.
//!
//! Every operation mirrors one single-statement query or rewrite; its
//! contract states the result, or the whole rewritten store, in terms of
//! [`crate::model`]. Reads never fail; writes fail only where the model says
//! so, and each error names its exact condition.

use vstd::prelude::*;
use crate::model::{
    group_created, group_deleted, group_ids_assigned, group_ids_distinct, group_of_job_pred,
    group_of_person_pred, group_row_updated, group_table_refusal, group_update_fn, group_updated,
    groups_linked_to_job, groups_linked_to_person, groups_updated, groups_without,
    group_as_stored, in_group_pred, job_as_stored, job_created, job_deleted, job_ids_assigned, job_ids_distinct, job_in_group,
    job_in_group_pred, job_of_person_pred, job_row_updated, job_table_refusal, job_update_fn,
    job_updated, jobs_in_group, jobs_linked_to_person, jobs_updated, jobs_without,
    keep_group_pred, keep_job_pred, keep_person_pred, lemma_filter_push, lemma_groups_mapped_wf,
    lemma_groups_without_wf, lemma_jobs_mapped_wf, lemma_jobs_without_wf,
    lemma_max_group_id_bound, lemma_max_job_id_bound, lemma_max_person_id_bound,
    lemma_persons_mapped_wf, lemma_persons_without_wf, links_has, load_refusal, max_group_id,
    max_job_id, max_person_id, person_as_stored, person_created, person_deleted,
    person_ids_assigned, person_ids_distinct, person_in_group, person_of_job_pred,
    person_placed_in_group, person_row_placed_in_group, person_row_taken_from_group,
    person_row_updated, person_table_refusal, person_taken_from_group, person_update_fn,
    person_updated, persons_in_group, persons_linked_to_job, persons_placed_in_group,
    persons_taken_from_group, persons_updated, persons_without, place_in_group_fn,
    store_wf, take_from_group_fn, with_groups, with_jobs, with_persons, StoreModel,
};
use crate::models::{DbError, Group, Job, Person};

verus! {

/// The store: one vector per table, in physical row order, and the largest
/// identifier each entity table has assigned.
pub struct Database {
    persons: Vec<Person>,
    groups: Vec<Group>,
    jobs: Vec<Job>,
    person_jobs: Vec<(i64, i64)>,
    person_groups: Vec<(i64, i64)>,
    group_jobs: Vec<(i64, i64)>,
    last_person_id: i64,
    last_group_id: i64,
    last_job_id: i64,
}

impl View for Database {
    type V = StoreModel;

    closed spec fn view(&self) -> StoreModel {
        StoreModel {
            persons: self.persons@,
            groups: self.groups@,
            jobs: self.jobs@,
            person_jobs: self.person_jobs@,
            person_groups: self.person_groups@,
            group_jobs: self.group_jobs@,
            last_person_id: self.last_person_id,
            last_group_id: self.last_group_id,
            last_job_id: self.last_job_id,
        }
    }
}

/// Whether the association table holds the pair `(a, b)`.
fn links_contain(links: &Vec<(i64, i64)>, a: i64, b: i64) -> (r: bool)
    ensures
        r == links_has(links@, a, b),
{
    let mut k: usize = 0;
    while k < links.len()
        invariant
            k <= links.len(),
            forall|j: int| 0 <= j < k ==> links@[j] != (a, b),
        decreases links.len() - k,
    {
        if links[k].0 == a && links[k].1 == b {
            proof {
                assert(links@[k as int] == (a, b));
            }
            return true;
        }
        k = k + 1;
    }
    proof {
        if links_has(links@, a, b) {
            let j = choose|j: int| 0 <= j < links@.len() && links@[j] == (a, b);
            assert(false);
        }
    }
    false
}

/// Checks that every person row carries an identifier, that no two share one,
/// and reports the largest (never below 0).
fn scan_person_table(rows: &Vec<Person>) -> (r: Result<i64, DbError>)
    ensures
        match r {
            Ok(last) => person_ids_assigned(rows@) && person_ids_distinct(rows@) && last as int
                == max_person_id(rows@),
            Err(e) => Some(e) == person_table_refusal(rows@),
        },
{
    let mut k: usize = 0;
    while k < rows.len()
        invariant
            k <= rows.len(),
            forall|i: int| 0 <= i < k ==> (#[trigger] rows@[i].id) is Some,
        decreases rows.len() - k,
    {
        if rows[k].id.is_none() {
            return Err(DbError::MissingId);
        }
        k = k + 1;
    }
    let mut last: i64 = 0;
    k = 0;
    while k < rows.len()
        invariant
            k <= rows.len(),
            person_ids_assigned(rows@),
            forall|i: int, j: int| 0 <= i < j < k ==> rows@[i].id != rows@[j].id,
            last as int == max_person_id(rows@.take(k as int)),
        decreases rows.len() - k,
    {
        let id_k = rows[k].id.unwrap();
        let mut j: usize = 0;
        while j < k
            invariant
                j <= k,
                k < rows.len(),
                person_ids_assigned(rows@),
                id_k as int == rows@[k as int].id->0,
                forall|i: int| 0 <= i < j ==> rows@[i].id != rows@[k as int].id,
            decreases k - j,
        {
            if rows[j].id.unwrap() == id_k {
                proof {
                    assert(rows@[j as int].id == rows@[k as int].id);
                    assert(!person_ids_distinct(rows@));
                }
                return Err(DbError::DuplicateId);
            }
            j = j + 1;
        }
        if id_k > last {
            last = id_k;
        }
        proof {
            assert(rows@.take(k as int + 1).drop_last() =~= rows@.take(k as int));
            assert(rows@.take(k as int + 1).last() == rows@[k as int]);
        }
        k = k + 1;
    }
    proof {
        assert(rows@.take(rows@.len() as int) =~= rows@);
    }
    Ok(last)
}

fn scan_group_table(rows: &Vec<Group>) -> (r: Result<i64, DbError>)
    ensures
        match r {
            Ok(last) => group_ids_assigned(rows@) && group_ids_distinct(rows@) && last as int
                == max_group_id(rows@),
            Err(e) => Some(e) == group_table_refusal(rows@),
        },
{
    let mut k: usize = 0;
    while k < rows.len()
        invariant
            k <= rows.len(),
            forall|i: int| 0 <= i < k ==> (#[trigger] rows@[i].id) is Some,
        decreases rows.len() - k,
    {
        if rows[k].id.is_none() {
            return Err(DbError::MissingId);
        }
        k = k + 1;
    }
    let mut last: i64 = 0;
    k = 0;
    while k < rows.len()
        invariant
            k <= rows.len(),
            group_ids_assigned(rows@),
            forall|i: int, j: int| 0 <= i < j < k ==> rows@[i].id != rows@[j].id,
            last as int == max_group_id(rows@.take(k as int)),
        decreases rows.len() - k,
    {
        let id_k = rows[k].id.unwrap();
        let mut j: usize = 0;
        while j < k
            invariant
                j <= k,
                k < rows.len(),
                group_ids_assigned(rows@),
                id_k as int == rows@[k as int].id->0,
                forall|i: int| 0 <= i < j ==> rows@[i].id != rows@[k as int].id,
            decreases k - j,
        {
            if rows[j].id.unwrap() == id_k {
                proof {
                    assert(rows@[j as int].id == rows@[k as int].id);
                    assert(!group_ids_distinct(rows@));
                }
                return Err(DbError::DuplicateId);
            }
            j = j + 1;
        }
        if id_k > last {
            last = id_k;
        }
        proof {
            assert(rows@.take(k as int + 1).drop_last() =~= rows@.take(k as int));
            assert(rows@.take(k as int + 1).last() == rows@[k as int]);
        }
        k = k + 1;
    }
    proof {
        assert(rows@.take(rows@.len() as int) =~= rows@);
    }
    Ok(last)
}

fn scan_job_table(rows: &Vec<Job>) -> (r: Result<i64, DbError>)
    ensures
        match r {
            Ok(last) => job_ids_assigned(rows@) && job_ids_distinct(rows@) && last as int
                == max_job_id(rows@),
            Err(e) => Some(e) == job_table_refusal(rows@),
        },
{
    let mut k: usize = 0;
    while k < rows.len()
        invariant
            k <= rows.len(),
            forall|i: int| 0 <= i < k ==> (#[trigger] rows@[i].id) is Some,
        decreases rows.len() - k,
    {
        if rows[k].id.is_none() {
            return Err(DbError::MissingId);
        }
        k = k + 1;
    }
    let mut last: i64 = 0;
    k = 0;
    while k < rows.len()
        invariant
            k <= rows.len(),
            job_ids_assigned(rows@),
            forall|i: int, j: int| 0 <= i < j < k ==> rows@[i].id != rows@[j].id,
            last as int == max_job_id(rows@.take(k as int)),
        decreases rows.len() - k,
    {
        let id_k = rows[k].id.unwrap();
        let mut j: usize = 0;
        while j < k
            invariant
                j <= k,
                k < rows.len(),
                job_ids_assigned(rows@),
                id_k as int == rows@[k as int].id->0,
                forall|i: int| 0 <= i < j ==> rows@[i].id != rows@[k as int].id,
            decreases k - j,
        {
            if rows[j].id.unwrap() == id_k {
                proof {
                    assert(rows@[j as int].id == rows@[k as int].id);
                    assert(!job_ids_distinct(rows@));
                }
                return Err(DbError::DuplicateId);
            }
            j = j + 1;
        }
        if id_k > last {
            last = id_k;
        }
        proof {
            assert(rows@.take(k as int + 1).drop_last() =~= rows@.take(k as int));
            assert(rows@.take(k as int + 1).last() == rows@[k as int]);
        }
        k = k + 1;
    }
    proof {
        assert(rows@.take(rows@.len() as int) =~= rows@);
    }
    Ok(last)
}

impl Database {
    /// Whether the store keeps its integrity: identifiers assigned, unique,
    /// and not beyond the tables' counters.
    pub open spec fn wf(&self) -> bool {
        store_wf(self@)
    }

    /// An empty store. The first identifier each table assigns is 1.
    pub fn new() -> (db: Database)
        ensures
            db@.persons == Seq::<Person>::empty(),
            db@.groups == Seq::<Group>::empty(),
            db@.jobs == Seq::<Job>::empty(),
            db@.person_jobs == Seq::<(i64, i64)>::empty(),
            db@.person_groups == Seq::<(i64, i64)>::empty(),
            db@.group_jobs == Seq::<(i64, i64)>::empty(),
            db@.last_person_id == 0,
            db@.last_group_id == 0,
            db@.last_job_id == 0,
            db.wf(),
    {
        Database {
            persons: Vec::new(),
            groups: Vec::new(),
            jobs: Vec::new(),
            person_jobs: Vec::new(),
            person_groups: Vec::new(),
            group_jobs: Vec::new(),
            last_person_id: 0,
            last_group_id: 0,
            last_job_id: 0,
        }
    }

    /// A store over tables read back from persisted state. The entity tables
    /// must carry assigned, pairwise distinct identifiers; each table's
    /// counter resumes from its largest identifier. The association tables
    /// are taken as they come: their schema lies outside the repository.
    pub fn load(
        persons: Vec<Person>,
        groups: Vec<Group>,
        jobs: Vec<Job>,
        person_jobs: Vec<(i64, i64)>,
        person_groups: Vec<(i64, i64)>,
        group_jobs: Vec<(i64, i64)>,
    ) -> (r: Result<Database, DbError>)
        ensures
            match r {
                Ok(db) => {
                    &&& load_refusal(persons@, groups@, jobs@) is None
                    &&& db@ == (StoreModel {
                        persons: persons@,
                        groups: groups@,
                        jobs: jobs@,
                        person_jobs: person_jobs@,
                        person_groups: person_groups@,
                        group_jobs: group_jobs@,
                        last_person_id: max_person_id(persons@) as i64,
                        last_group_id: max_group_id(groups@) as i64,
                        last_job_id: max_job_id(jobs@) as i64,
                    })
                    &&& db.wf()
                },
                Err(e) => Some(e) == load_refusal(persons@, groups@, jobs@),
            },
    {
        let last_person_id = match scan_person_table(&persons) {
            Ok(v) => v,
            Err(e) => {
                return Err(e);
            },
        };
        let last_group_id = match scan_group_table(&groups) {
            Ok(v) => v,
            Err(e) => {
                return Err(e);
            },
        };
        let last_job_id = match scan_job_table(&jobs) {
            Ok(v) => v,
            Err(e) => {
                return Err(e);
            },
        };
        proof {
            lemma_max_person_id_bound(persons@);
            lemma_max_group_id_bound(groups@);
            lemma_max_job_id_bound(jobs@);
        }
        Ok(
            Database {
                persons,
                groups,
                jobs,
                person_jobs,
                person_groups,
                group_jobs,
                last_person_id,
                last_group_id,
                last_job_id,
            },
        )
    }

    // -----------------------------------------------------------------------
    // Persons
    // -----------------------------------------------------------------------

    /// All person rows, in table order.
    pub fn fetch_all_persons(&self) -> (r: Vec<Person>)
        ensures
            r@ == self@.persons,
    {
        let mut out: Vec<Person> = Vec::new();
        let mut k: usize = 0;
        while k < self.persons.len()
            invariant
                k <= self.persons.len(),
                out@ == self@.persons.take(k as int),
            decreases self.persons.len() - k,
        {
            proof {
                assert(self@.persons.take(k as int + 1) =~= self@.persons.take(k as int).push(
                    self@.persons[k as int],
                ));
            }
            out.push(self.persons[k].duplicate());
            k = k + 1;
        }
        proof {
            assert(self@.persons.take(self.persons@.len() as int) =~= self@.persons);
        }
        out
    }

    /// The person rows whose group column names `group_id`, in table order.
    pub fn fetch_group_persons(&self, group_id: i64) -> (r: Vec<Person>)
        ensures
            r@ == persons_in_group(self@.persons, group_id),
    {
        let mut out: Vec<Person> = Vec::new();
        let mut k: usize = 0;
        while k < self.persons.len()
            invariant
                k <= self.persons.len(),
                out@ == persons_in_group(self@.persons.take(k as int), group_id),
            decreases self.persons.len() - k,
        {
            let row = &self.persons[k];
            proof {
                assert(self@.persons.take(k as int + 1) =~= self@.persons.take(k as int).push(
                    self@.persons[k as int],
                ));
                lemma_filter_push(
                    self@.persons.take(k as int),
                    self@.persons[k as int],
                    in_group_pred(group_id),
                );
                assert(in_group_pred(group_id)(self@.persons[k as int]) == person_in_group(
                    self@.persons[k as int],
                    group_id,
                ));
            }
            let matched = match row.group_id {
                Some(g) => g == group_id,
                None => false,
            };
            if matched {
                out.push(row.duplicate());
            }
            k = k + 1;
        }
        proof {
            assert(self@.persons.take(self.persons@.len() as int) =~= self@.persons);
        }
        out
    }

    /// Inserts the payload as a new person row under the next identifier;
    /// any identifier the payload carries is ignored.
    pub fn create_person(&mut self, person: Person) -> (r: Result<(), DbError>)
        ensures
            old(self)@.last_person_id < i64::MAX ==> r is Ok && person_created(
                old(self)@,
                final(self)@,
                person,
            ),
            old(self)@.last_person_id == i64::MAX ==> r == Err::<(), DbError>(
                DbError::IdSpaceExhausted,
            ) && final(self)@ == old(self)@,
            old(self).wf() ==> final(self).wf(),
    {
        if self.last_person_id == i64::MAX {
            return Err(DbError::IdSpaceExhausted);
        }
        let id = self.last_person_id + 1;
        self.persons.push(Person { id: Some(id), name: person.name, group_id: person.group_id });
        self.last_person_id = id;
        proof {
            assert(self@ =~= with_persons(
                old(self)@,
                old(self)@.persons.push(person_as_stored(person, old(self)@.last_person_id)),
                id,
            ));
            if old(self).wf() {
                let pre = old(self)@.persons;
                let post = self@.persons;
                assert forall|k: int|
                    0 <= k < post.len() implies (#[trigger] post[k].id) is Some && post[k].id->0
                    <= id by {
                    if k < pre.len() {
                        assert(post[k] == pre[k]);
                    }
                }
                assert forall|k: int, l: int|
                    0 <= k < l < post.len() implies post[k].id != post[l].id by {
                    if l < pre.len() {
                        assert(post[k] == pre[k] && post[l] == pre[l]);
                    } else {
                        assert(post[l].id == Some(id));
                        assert(post[k] == pre[k]);
                    }
                }
            }
        }
        Ok(())
    }

    /// Rewrites every payload field of the person row with the given
    /// identifier; a missing identifier leaves the table unchanged, silently.
    pub fn update_person(&mut self, person_id: i64, person: Person) -> (r: Result<(), DbError>)
        ensures
            r is Ok,
            person_updated(old(self)@, final(self)@, person_id, person),
            old(self).wf() ==> final(self).wf(),
    {
        let ghost pre = self@.persons;
        let mut out: Vec<Person> = Vec::new();
        let mut k: usize = 0;
        while k < self.persons.len()
            invariant
                k <= self.persons.len(),
                pre == self@.persons,
                out@ == persons_updated(pre.take(k as int), person_id, person),
            decreases self.persons.len() - k,
        {
            let row = &self.persons[k];
            proof {
                pre.lemma_map_take_succ(person_update_fn(person_id, person), k as int);
                assert(person_update_fn(person_id, person)(pre[k as int]) == person_row_updated(
                    pre[k as int],
                    person_id,
                    person,
                ));
            }
            let matched = match row.id {
                Some(i) => i == person_id,
                None => false,
            };
            if matched {
                out.push(
                    Person { id: row.id, name: person.name.clone(), group_id: person.group_id },
                );
            } else {
                out.push(row.duplicate());
            }
            k = k + 1;
        }
        proof {
            assert(pre.take(self.persons@.len() as int) =~= pre);
        }
        self.persons = out;
        proof {
            assert(self@ =~= with_persons(
                old(self)@,
                persons_updated(pre, person_id, person),
                old(self)@.last_person_id,
            ));
            if old(self).wf() {
                assert forall|p: Person|
                    (#[trigger] person_update_fn(person_id, person)(p)).id == p.id by {
                    assert(person_update_fn(person_id, person)(p) == person_row_updated(
                        p,
                        person_id,
                        person,
                    ));
                }
                lemma_persons_mapped_wf(
                    pre,
                    person_update_fn(person_id, person),
                    old(self)@.last_person_id,
                );
            }
        }
        Ok(())
    }

    /// Removes the person row with the given identifier; a missing identifier
    /// removes nothing, silently.
    pub fn delete_person(&mut self, person_id: i64) -> (r: Result<(), DbError>)
        ensures
            r is Ok,
            person_deleted(old(self)@, final(self)@, person_id),
            old(self).wf() ==> final(self).wf(),
    {
        let ghost pre = self@.persons;
        let mut out: Vec<Person> = Vec::new();
        let mut k: usize = 0;
        while k < self.persons.len()
            invariant
                k <= self.persons.len(),
                pre == self@.persons,
                out@ == persons_without(pre.take(k as int), person_id),
            decreases self.persons.len() - k,
        {
            let row = &self.persons[k];
            proof {
                assert(pre.take(k as int + 1) =~= pre.take(k as int).push(pre[k as int]));
                lemma_filter_push(pre.take(k as int), pre[k as int], keep_person_pred(person_id));
                assert(keep_person_pred(person_id)(pre[k as int]) == (pre[k as int].id != Some(
                    person_id,
                )));
            }
            let keep = match row.id {
                Some(i) => i != person_id,
                None => true,
            };
            if keep {
                out.push(row.duplicate());
            }
            k = k + 1;
        }
        proof {
            assert(pre.take(self.persons@.len() as int) =~= pre);
        }
        self.persons = out;
        proof {
            assert(self@ =~= with_persons(
                old(self)@,
                persons_without(pre, person_id),
                old(self)@.last_person_id,
            ));
            if old(self).wf() {
                lemma_persons_without_wf(pre, person_id, old(self)@.last_person_id);
            }
        }
        Ok(())
    }

    // -----------------------------------------------------------------------
    // Groups
    // -----------------------------------------------------------------------

    /// All group rows, in table order.
    pub fn fetch_all_groups(&self) -> (r: Vec<Group>)
        ensures
            r@ == self@.groups,
    {
        let mut out: Vec<Group> = Vec::new();
        let mut k: usize = 0;
        while k < self.groups.len()
            invariant
                k <= self.groups.len(),
                out@ == self@.groups.take(k as int),
            decreases self.groups.len() - k,
        {
            proof {
                assert(self@.groups.take(k as int + 1) =~= self@.groups.take(k as int).push(
                    self@.groups[k as int],
                ));
            }
            out.push(self.groups[k].duplicate());
            k = k + 1;
        }
        proof {
            assert(self@.groups.take(self.groups@.len() as int) =~= self@.groups);
        }
        out
    }

    /// Inserts the payload as a new group row under the next identifier.
    pub fn create_group(&mut self, group: Group) -> (r: Result<(), DbError>)
        ensures
            old(self)@.last_group_id < i64::MAX ==> r is Ok && group_created(
                old(self)@,
                final(self)@,
                group,
            ),
            old(self)@.last_group_id == i64::MAX ==> r == Err::<(), DbError>(
                DbError::IdSpaceExhausted,
            ) && final(self)@ == old(self)@,
            old(self).wf() ==> final(self).wf(),
    {
        if self.last_group_id == i64::MAX {
            return Err(DbError::IdSpaceExhausted);
        }
        let id = self.last_group_id + 1;
        self.groups.push(
            Group { id: Some(id), name: group.name, description: group.description },
        );
        self.last_group_id = id;
        proof {
            assert(self@ =~= with_groups(
                old(self)@,
                old(self)@.groups.push(
                    group_as_stored(group, old(self)@.last_group_id),
                ),
                id,
            ));
            if old(self).wf() {
                let pre = old(self)@.groups;
                let post = self@.groups;
                assert forall|k: int|
                    0 <= k < post.len() implies (#[trigger] post[k].id) is Some && post[k].id->0
                    <= id by {
                    if k < pre.len() {
                        assert(post[k] == pre[k]);
                    }
                }
                assert forall|k: int, l: int|
                    0 <= k < l < post.len() implies post[k].id != post[l].id by {
                    if l < pre.len() {
                        assert(post[k] == pre[k] && post[l] == pre[l]);
                    } else {
                        assert(post[l].id == Some(id));
                        assert(post[k] == pre[k]);
                    }
                }
            }
        }
        Ok(())
    }

    /// Rewrites every payload field of the group row with the given
    /// identifier; a missing identifier leaves the table unchanged, silently.
    pub fn update_group(&mut self, group_id: i64, group: Group) -> (r: Result<(), DbError>)
        ensures
            r is Ok,
            group_updated(old(self)@, final(self)@, group_id, group),
            old(self).wf() ==> final(self).wf(),
    {
        let ghost pre = self@.groups;
        let mut out: Vec<Group> = Vec::new();
        let mut k: usize = 0;
        while k < self.groups.len()
            invariant
                k <= self.groups.len(),
                pre == self@.groups,
                out@ == groups_updated(pre.take(k as int), group_id, group),
            decreases self.groups.len() - k,
        {
            let row = &self.groups[k];
            proof {
                pre.lemma_map_take_succ(group_update_fn(group_id, group), k as int);
                assert(group_update_fn(group_id, group)(pre[k as int]) == group_row_updated(
                    pre[k as int],
                    group_id,
                    group,
                ));
            }
            let matched = match row.id {
                Some(i) => i == group_id,
                None => false,
            };
            if matched {
                out.push(
                    Group {
                        id: row.id,
                        name: group.name.clone(),
                        description: group.description.clone(),
                    },
                );
            } else {
                out.push(row.duplicate());
            }
            k = k + 1;
        }
        proof {
            assert(pre.take(self.groups@.len() as int) =~= pre);
        }
        self.groups = out;
        proof {
            assert(self@ =~= with_groups(
                old(self)@,
                groups_updated(pre, group_id, group),
                old(self)@.last_group_id,
            ));
            if old(self).wf() {
                assert forall|g: Group|
                    (#[trigger] group_update_fn(group_id, group)(g)).id == g.id by {
                    assert(group_update_fn(group_id, group)(g) == group_row_updated(
                        g,
                        group_id,
                        group,
                    ));
                }
                lemma_groups_mapped_wf(
                    pre,
                    group_update_fn(group_id, group),
                    old(self)@.last_group_id,
                );
            }
        }
        Ok(())
    }

    /// Removes the group row with the given identifier; a missing identifier
    /// removes nothing, silently. Members keep their group column: no cascade.
    pub fn delete_group(&mut self, group_id: i64) -> (r: Result<(), DbError>)
        ensures
            r is Ok,
            group_deleted(old(self)@, final(self)@, group_id),
            old(self).wf() ==> final(self).wf(),
    {
        let ghost pre = self@.groups;
        let mut out: Vec<Group> = Vec::new();
        let mut k: usize = 0;
        while k < self.groups.len()
            invariant
                k <= self.groups.len(),
                pre == self@.groups,
                out@ == groups_without(pre.take(k as int), group_id),
            decreases self.groups.len() - k,
        {
            let row = &self.groups[k];
            proof {
                assert(pre.take(k as int + 1) =~= pre.take(k as int).push(pre[k as int]));
                lemma_filter_push(pre.take(k as int), pre[k as int], keep_group_pred(group_id));
                assert(keep_group_pred(group_id)(pre[k as int]) == (pre[k as int].id != Some(
                    group_id,
                )));
            }
            let keep = match row.id {
                Some(i) => i != group_id,
                None => true,
            };
            if keep {
                out.push(row.duplicate());
            }
            k = k + 1;
        }
        proof {
            assert(pre.take(self.groups@.len() as int) =~= pre);
        }
        self.groups = out;
        proof {
            assert(self@ =~= with_groups(
                old(self)@,
                groups_without(pre, group_id),
                old(self)@.last_group_id,
            ));
            if old(self).wf() {
                lemma_groups_without_wf(pre, group_id, old(self)@.last_group_id);
            }
        }
        Ok(())
    }

    // -----------------------------------------------------------------------
    // Group membership of persons
    // -----------------------------------------------------------------------

    /// Sets the group column of the person row with the given identifier,
    /// whatever it held before; the group need not exist (no foreign key).
    pub fn add_person_to_group(&mut self, group_id: i64, person_id: i64) -> (r: Result<
        (),
        DbError,
    >)
        ensures
            r is Ok,
            person_placed_in_group(old(self)@, final(self)@, group_id, person_id),
            old(self).wf() ==> final(self).wf(),
    {
        let ghost pre = self@.persons;
        let mut out: Vec<Person> = Vec::new();
        let mut k: usize = 0;
        while k < self.persons.len()
            invariant
                k <= self.persons.len(),
                pre == self@.persons,
                out@ == persons_placed_in_group(pre.take(k as int), person_id, group_id),
            decreases self.persons.len() - k,
        {
            let row = &self.persons[k];
            proof {
                pre.lemma_map_take_succ(place_in_group_fn(person_id, group_id), k as int);
                assert(place_in_group_fn(person_id, group_id)(pre[k as int])
                    == person_row_placed_in_group(pre[k as int], person_id, group_id));
            }
            let matched = match row.id {
                Some(i) => i == person_id,
                None => false,
            };
            if matched {
                out.push(Person { id: row.id, name: row.name.clone(), group_id: Some(group_id) });
            } else {
                out.push(row.duplicate());
            }
            k = k + 1;
        }
        proof {
            assert(pre.take(self.persons@.len() as int) =~= pre);
        }
        self.persons = out;
        proof {
            assert(self@ =~= with_persons(
                old(self)@,
                persons_placed_in_group(pre, person_id, group_id),
                old(self)@.last_person_id,
            ));
            if old(self).wf() {
                assert forall|p: Person|
                    (#[trigger] place_in_group_fn(person_id, group_id)(p)).id == p.id by {
                    assert(place_in_group_fn(person_id, group_id)(p) == person_row_placed_in_group(
                        p,
                        person_id,
                        group_id,
                    ));
                }
                lemma_persons_mapped_wf(
                    pre,
                    place_in_group_fn(person_id, group_id),
                    old(self)@.last_person_id,
                );
            }
        }
        Ok(())
    }

    /// Clears the group column of the person row with the given identifier,
    /// but only when that column currently names the given group; otherwise
    /// no row changes.
    pub fn remove_person_from_group(&mut self, group_id: i64, person_id: i64) -> (r: Result<
        (),
        DbError,
    >)
        ensures
            r is Ok,
            person_taken_from_group(old(self)@, final(self)@, group_id, person_id),
            old(self).wf() ==> final(self).wf(),
    {
        let ghost pre = self@.persons;
        let mut out: Vec<Person> = Vec::new();
        let mut k: usize = 0;
        while k < self.persons.len()
            invariant
                k <= self.persons.len(),
                pre == self@.persons,
                out@ == persons_taken_from_group(pre.take(k as int), person_id, group_id),
            decreases self.persons.len() - k,
        {
            let row = &self.persons[k];
            proof {
                pre.lemma_map_take_succ(take_from_group_fn(person_id, group_id), k as int);
                assert(take_from_group_fn(person_id, group_id)(pre[k as int])
                    == person_row_taken_from_group(pre[k as int], person_id, group_id));
            }
            let id_matched = match row.id {
                Some(i) => i == person_id,
                None => false,
            };
            let group_matched = match row.group_id {
                Some(g) => g == group_id,
                None => false,
            };
            if id_matched && group_matched {
                out.push(Person { id: row.id, name: row.name.clone(), group_id: None });
            } else {
                out.push(row.duplicate());
            }
            k = k + 1;
        }
        proof {
            assert(pre.take(self.persons@.len() as int) =~= pre);
        }
        self.persons = out;
        proof {
            assert(self@ =~= with_persons(
                old(self)@,
                persons_taken_from_group(pre, person_id, group_id),
                old(self)@.last_person_id,
            ));
            if old(self).wf() {
                assert forall|p: Person|
                    (#[trigger] take_from_group_fn(person_id, group_id)(p)).id == p.id by {
                    assert(take_from_group_fn(person_id, group_id)(p) == person_row_taken_from_group(
                        p,
                        person_id,
                        group_id,
                    ));
                }
                lemma_persons_mapped_wf(
                    pre,
                    take_from_group_fn(person_id, group_id),
                    old(self)@.last_person_id,
                );
            }
        }
        Ok(())
    }

    // -----------------------------------------------------------------------
    // Jobs
    // -----------------------------------------------------------------------

    /// All job rows, in table order.
    pub fn fetch_all_jobs(&self) -> (r: Vec<Job>)
        ensures
            r@ == self@.jobs,
    {
        let mut out: Vec<Job> = Vec::new();
        let mut k: usize = 0;
        while k < self.jobs.len()
            invariant
                k <= self.jobs.len(),
                out@ == self@.jobs.take(k as int),
            decreases self.jobs.len() - k,
        {
            proof {
                assert(self@.jobs.take(k as int + 1) =~= self@.jobs.take(k as int).push(
                    self@.jobs[k as int],
                ));
            }
            out.push(self.jobs[k].duplicate());
            k = k + 1;
        }
        proof {
            assert(self@.jobs.take(self.jobs@.len() as int) =~= self@.jobs);
        }
        out
    }

    /// The job rows whose group column names `group_id`, in table order.
    pub fn fetch_group_jobs(&self, group_id: i64) -> (r: Vec<Job>)
        ensures
            r@ == jobs_in_group(self@.jobs, group_id),
    {
        let mut out: Vec<Job> = Vec::new();
        let mut k: usize = 0;
        while k < self.jobs.len()
            invariant
                k <= self.jobs.len(),
                out@ == jobs_in_group(self@.jobs.take(k as int), group_id),
            decreases self.jobs.len() - k,
        {
            let row = &self.jobs[k];
            proof {
                assert(self@.jobs.take(k as int + 1) =~= self@.jobs.take(k as int).push(
                    self@.jobs[k as int],
                ));
                lemma_filter_push(
                    self@.jobs.take(k as int),
                    self@.jobs[k as int],
                    job_in_group_pred(group_id),
                );
                assert(job_in_group_pred(group_id)(self@.jobs[k as int]) == job_in_group(
                    self@.jobs[k as int],
                    group_id,
                ));
            }
            let matched = match row.group_id {
                Some(g) => g == group_id,
                None => false,
            };
            if matched {
                out.push(row.duplicate());
            }
            k = k + 1;
        }
        proof {
            assert(self@.jobs.take(self.jobs@.len() as int) =~= self@.jobs);
        }
        out
    }

    /// Inserts the payload as a new job row under the next identifier.
    pub fn create_job(&mut self, job: Job) -> (r: Result<(), DbError>)
        ensures
            old(self)@.last_job_id < i64::MAX ==> r is Ok && job_created(old(self)@, final(self)@, job),
            old(self)@.last_job_id == i64::MAX ==> r == Err::<(), DbError>(
                DbError::IdSpaceExhausted,
            ) && final(self)@ == old(self)@,
            old(self).wf() ==> final(self).wf(),
    {
        if self.last_job_id == i64::MAX {
            return Err(DbError::IdSpaceExhausted);
        }
        let id = self.last_job_id + 1;
        self.jobs.push(
            Job {
                id: Some(id),
                title: job.title,
                description: job.description,
                start_date: job.start_date,
                end_date: job.end_date,
                group_id: job.group_id,
                person_id: job.person_id,
            },
        );
        self.last_job_id = id;
        proof {
            assert(self@ =~= with_jobs(
                old(self)@,
                old(self)@.jobs.push(job_as_stored(job, old(self)@.last_job_id)),
                id,
            ));
            if old(self).wf() {
                let pre = old(self)@.jobs;
                let post = self@.jobs;
                assert forall|k: int|
                    0 <= k < post.len() implies (#[trigger] post[k].id) is Some && post[k].id->0
                    <= id by {
                    if k < pre.len() {
                        assert(post[k] == pre[k]);
                    }
                }
                assert forall|k: int, l: int|
                    0 <= k < l < post.len() implies post[k].id != post[l].id by {
                    if l < pre.len() {
                        assert(post[k] == pre[k] && post[l] == pre[l]);
                    } else {
                        assert(post[l].id == Some(id));
                        assert(post[k] == pre[k]);
                    }
                }
            }
        }
        Ok(())
    }

    /// Rewrites every payload field of the job row with the given identifier;
    /// a missing identifier leaves the table unchanged, silently.
    pub fn update_job(&mut self, job_id: i64, job: Job) -> (r: Result<(), DbError>)
        ensures
            r is Ok,
            job_updated(old(self)@, final(self)@, job_id, job),
            old(self).wf() ==> final(self).wf(),
    {
        let ghost pre = self@.jobs;
        let mut out: Vec<Job> = Vec::new();
        let mut k: usize = 0;
        while k < self.jobs.len()
            invariant
                k <= self.jobs.len(),
                pre == self@.jobs,
                out@ == jobs_updated(pre.take(k as int), job_id, job),
            decreases self.jobs.len() - k,
        {
            let row = &self.jobs[k];
            proof {
                pre.lemma_map_take_succ(job_update_fn(job_id, job), k as int);
                assert(job_update_fn(job_id, job)(pre[k as int]) == job_row_updated(
                    pre[k as int],
                    job_id,
                    job,
                ));
            }
            let matched = match row.id {
                Some(i) => i == job_id,
                None => false,
            };
            if matched {
                out.push(
                    Job {
                        id: row.id,
                        title: job.title.clone(),
                        description: job.description.clone(),
                        start_date: job.start_date.clone(),
                        end_date: job.end_date.clone(),
                        group_id: job.group_id,
                        person_id: job.person_id,
                    },
                );
            } else {
                out.push(row.duplicate());
            }
            k = k + 1;
        }
        proof {
            assert(pre.take(self.jobs@.len() as int) =~= pre);
        }
        self.jobs = out;
        proof {
            assert(self@ =~= with_jobs(
                old(self)@,
                jobs_updated(pre, job_id, job),
                old(self)@.last_job_id,
            ));
            if old(self).wf() {
                assert forall|j: Job| (#[trigger] job_update_fn(job_id, job)(j)).id == j.id by {
                    assert(job_update_fn(job_id, job)(j) == job_row_updated(j, job_id, job));
                }
                lemma_jobs_mapped_wf(pre, job_update_fn(job_id, job), old(self)@.last_job_id);
            }
        }
        Ok(())
    }

    /// Removes the job row with the given identifier; a missing identifier
    /// removes nothing, silently.
    pub fn delete_job(&mut self, job_id: i64) -> (r: Result<(), DbError>)
        ensures
            r is Ok,
            job_deleted(old(self)@, final(self)@, job_id),
            old(self).wf() ==> final(self).wf(),
    {
        let ghost pre = self@.jobs;
        let mut out: Vec<Job> = Vec::new();
        let mut k: usize = 0;
        while k < self.jobs.len()
            invariant
                k <= self.jobs.len(),
                pre == self@.jobs,
                out@ == jobs_without(pre.take(k as int), job_id),
            decreases self.jobs.len() - k,
        {
            let row = &self.jobs[k];
            proof {
                assert(pre.take(k as int + 1) =~= pre.take(k as int).push(pre[k as int]));
                lemma_filter_push(pre.take(k as int), pre[k as int], keep_job_pred(job_id));
                assert(keep_job_pred(job_id)(pre[k as int]) == (pre[k as int].id != Some(job_id)));
            }
            let keep = match row.id {
                Some(i) => i != job_id,
                None => true,
            };
            if keep {
                out.push(row.duplicate());
            }
            k = k + 1;
        }
        proof {
            assert(pre.take(self.jobs@.len() as int) =~= pre);
        }
        self.jobs = out;
        proof {
            assert(self@ =~= with_jobs(
                old(self)@,
                jobs_without(pre, job_id),
                old(self)@.last_job_id,
            ));
            if old(self).wf() {
                lemma_jobs_without_wf(pre, job_id, old(self)@.last_job_id);
            }
        }
        Ok(())
    }

    // -----------------------------------------------------------------------
    // Association-table queries
    // -----------------------------------------------------------------------

    /// The job rows tied to the person through `(person id, job id)` rows,
    /// in job-table order.
    pub fn fetch_person_jobs(&self, person_id: i64) -> (r: Vec<Job>)
        ensures
            r@ == jobs_linked_to_person(self@.jobs, self@.person_jobs, person_id),
    {
        let mut out: Vec<Job> = Vec::new();
        let mut k: usize = 0;
        while k < self.jobs.len()
            invariant
                k <= self.jobs.len(),
                out@ == jobs_linked_to_person(
                    self@.jobs.take(k as int),
                    self@.person_jobs,
                    person_id,
                ),
            decreases self.jobs.len() - k,
        {
            let row = &self.jobs[k];
            proof {
                assert(self@.jobs.take(k as int + 1) =~= self@.jobs.take(k as int).push(
                    self@.jobs[k as int],
                ));
                lemma_filter_push(
                    self@.jobs.take(k as int),
                    self@.jobs[k as int],
                    job_of_person_pred(self@.person_jobs, person_id),
                );
            }
            let linked = match row.id {
                Some(jid) => links_contain(&self.person_jobs, person_id, jid),
                None => false,
            };
            proof {
                assert(job_of_person_pred(self@.person_jobs, person_id)(self@.jobs[k as int])
                    == linked);
            }
            if linked {
                out.push(row.duplicate());
            }
            k = k + 1;
        }
        proof {
            assert(self@.jobs.take(self.jobs@.len() as int) =~= self@.jobs);
        }
        out
    }

    /// The group rows tied to the person through `(person id, group id)`
    /// rows, in group-table order.
    pub fn fetch_person_groups(&self, person_id: i64) -> (r: Vec<Group>)
        ensures
            r@ == groups_linked_to_person(self@.groups, self@.person_groups, person_id),
    {
        let mut out: Vec<Group> = Vec::new();
        let mut k: usize = 0;
        while k < self.groups.len()
            invariant
                k <= self.groups.len(),
                out@ == groups_linked_to_person(
                    self@.groups.take(k as int),
                    self@.person_groups,
                    person_id,
                ),
            decreases self.groups.len() - k,
        {
            let row = &self.groups[k];
            proof {
                assert(self@.groups.take(k as int + 1) =~= self@.groups.take(k as int).push(
                    self@.groups[k as int],
                ));
                lemma_filter_push(
                    self@.groups.take(k as int),
                    self@.groups[k as int],
                    group_of_person_pred(self@.person_groups, person_id),
                );
            }
            let linked = match row.id {
                Some(gid) => links_contain(&self.person_groups, person_id, gid),
                None => false,
            };
            proof {
                assert(group_of_person_pred(self@.person_groups, person_id)(
                    self@.groups[k as int],
                ) == linked);
            }
            if linked {
                out.push(row.duplicate());
            }
            k = k + 1;
        }
        proof {
            assert(self@.groups.take(self.groups@.len() as int) =~= self@.groups);
        }
        out
    }

    /// The person rows tied to the job through `(person id, job id)` rows,
    /// in person-table order.
    pub fn fetch_job_persons(&self, job_id: i64) -> (r: Vec<Person>)
        ensures
            r@ == persons_linked_to_job(self@.persons, self@.person_jobs, job_id),
    {
        let mut out: Vec<Person> = Vec::new();
        let mut k: usize = 0;
        while k < self.persons.len()
            invariant
                k <= self.persons.len(),
                out@ == persons_linked_to_job(
                    self@.persons.take(k as int),
                    self@.person_jobs,
                    job_id,
                ),
            decreases self.persons.len() - k,
        {
            let row = &self.persons[k];
            proof {
                assert(self@.persons.take(k as int + 1) =~= self@.persons.take(k as int).push(
                    self@.persons[k as int],
                ));
                lemma_filter_push(
                    self@.persons.take(k as int),
                    self@.persons[k as int],
                    person_of_job_pred(self@.person_jobs, job_id),
                );
            }
            let linked = match row.id {
                Some(pid) => links_contain(&self.person_jobs, pid, job_id),
                None => false,
            };
            proof {
                assert(person_of_job_pred(self@.person_jobs, job_id)(self@.persons[k as int])
                    == linked);
            }
            if linked {
                out.push(row.duplicate());
            }
            k = k + 1;
        }
        proof {
            assert(self@.persons.take(self.persons@.len() as int) =~= self@.persons);
        }
        out
    }

    /// The group rows tied to the job through `(group id, job id)` rows,
    /// in group-table order.
    pub fn fetch_job_groups(&self, job_id: i64) -> (r: Vec<Group>)
        ensures
            r@ == groups_linked_to_job(self@.groups, self@.group_jobs, job_id),
    {
        let mut out: Vec<Group> = Vec::new();
        let mut k: usize = 0;
        while k < self.groups.len()
            invariant
                k <= self.groups.len(),
                out@ == groups_linked_to_job(
                    self@.groups.take(k as int),
                    self@.group_jobs,
                    job_id,
                ),
            decreases self.groups.len() - k,
        {
            let row = &self.groups[k];
            proof {
                assert(self@.groups.take(k as int + 1) =~= self@.groups.take(k as int).push(
                    self@.groups[k as int],
                ));
                lemma_filter_push(
                    self@.groups.take(k as int),
                    self@.groups[k as int],
                    group_of_job_pred(self@.group_jobs, job_id),
                );
            }
            let linked = match row.id {
                Some(gid) => links_contain(&self.group_jobs, gid, job_id),
                None => false,
            };
            proof {
                assert(group_of_job_pred(self@.group_jobs, job_id)(self@.groups[k as int])
                    == linked);
            }
            if linked {
                out.push(row.duplicate());
            }
            k = k + 1;
        }
        proof {
            assert(self@.groups.take(self.groups@.len() as int) =~= self@.groups);
        }
        out
    }
}

} // verus!
