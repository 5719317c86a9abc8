//! The three entity records the store manages, and the store's error type.
//!
//! Each record carries an optional identifier: `None` on a payload that has
//! not been inserted yet, `Some` on every stored row (the store assigns the
//! identifier on insert and never changes it afterwards).

use vstd::prelude::*;
use vstd::string::StringExecFns;

verus! {

/// Why a store operation was refused.
#[derive(Debug, PartialEq, Eq)]
pub enum DbError {
    /// A row handed to `Database::load` carries no identifier.
    MissingId,
    /// Two rows of one table handed to `Database::load` carry the same
    /// identifier.
    DuplicateId,
    /// A table has assigned the largest representable identifier and cannot
    /// assign another.
    IdSpaceExhausted,
}

impl DbError {
    /// A descriptive sentence for the failure, for a boundary that reports
    /// errors as text.
    pub fn message(&self) -> (r: String)
        ensures
            *self == DbError::MissingId ==> r@ == "a loaded row carries no identifier"@,
            *self == DbError::DuplicateId ==> r@ == "two loaded rows carry the same identifier"@,
            *self == DbError::IdSpaceExhausted ==> r@ == "the identifier space is exhausted"@,
    {
        match self {
            DbError::MissingId => String::from_str("a loaded row carries no identifier"),
            DbError::DuplicateId => String::from_str("two loaded rows carry the same identifier"),
            DbError::IdSpaceExhausted => String::from_str("the identifier space is exhausted"),
        }
    }
}

/// An individual, optionally belonging to one group.
#[derive(Debug, PartialEq, Eq)]
pub struct Person {
    pub id: Option<i64>,
    pub name: String,
    pub group_id: Option<i64>,
}

/// A named collection that persons may belong to.
#[derive(Debug, PartialEq, Eq)]
pub struct Group {
    pub id: Option<i64>,
    pub name: String,
    pub description: String,
}

/// A task record, optionally tied to one group and one person.
/// Dates are kept as text, exactly as the store holds them.
#[derive(Debug, PartialEq, Eq)]
pub struct Job {
    pub id: Option<i64>,
    pub title: String,
    pub description: String,
    pub start_date: String,
    pub end_date: String,
    pub group_id: Option<i64>,
    pub person_id: Option<i64>,
}

impl Person {
    /// An exact copy of the record.
    pub fn duplicate(&self) -> (r: Person)
        ensures
            r == *self,
    {
        Person { id: self.id, name: self.name.clone(), group_id: self.group_id }
    }
}

impl Group {
    /// An exact copy of the record.
    pub fn duplicate(&self) -> (r: Group)
        ensures
            r == *self,
    {
        Group { id: self.id, name: self.name.clone(), description: self.description.clone() }
    }
}

impl Job {
    /// An exact copy of the record.
    pub fn duplicate(&self) -> (r: Job)
        ensures
            r == *self,
    {
        Job {
            id: self.id,
            title: self.title.clone(),
            description: self.description.clone(),
            start_date: self.start_date.clone(),
            end_date: self.end_date.clone(),
            group_id: self.group_id,
            person_id: self.person_id,
        }
    }
}

} // verus!
