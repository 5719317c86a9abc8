use ofis::db::Database;
use ofis::models::{DbError, Group, Job, Person};

fn person(name: &str) -> Person {
    Person { id: None, name: String::from(name), group_id: None }
}

fn group(name: &str, description: &str) -> Group {
    Group { id: None, name: String::from(name), description: String::from(description) }
}

fn job(title: &str) -> Job {
    Job {
        id: None,
        title: String::from(title),
        description: String::from("desc"),
        start_date: String::from("2024-01-01"),
        end_date: String::from("2024-12-31"),
        group_id: None,
        person_id: None,
    }
}

#[test]
fn empty_store_lists_nothing() {
    let db = Database::new();
    assert!(db.fetch_all_persons().is_empty());
    assert!(db.fetch_all_groups().is_empty());
    assert!(db.fetch_all_jobs().is_empty());
    assert!(db.fetch_group_persons(1).is_empty());
    assert!(db.fetch_group_jobs(1).is_empty());
    assert!(db.fetch_person_jobs(1).is_empty());
    assert!(db.fetch_person_groups(1).is_empty());
    assert!(db.fetch_job_persons(1).is_empty());
    assert!(db.fetch_job_groups(1).is_empty());
}

#[test]
fn create_person_then_list_includes_record() {
    let mut db = Database::new();
    assert!(db.create_person(person("Alice")).is_ok());
    assert!(db.create_person(person("Bora")).is_ok());
    let all = db.fetch_all_persons();
    assert_eq!(all.len(), 2);
    assert_eq!(all[0].id, Some(1));
    assert_eq!(all[0].name, "Alice");
    assert_eq!(all[1].id, Some(2));
    assert_eq!(all[1].name, "Bora");
}

#[test]
fn create_person_ignores_payload_id() {
    let mut db = Database::new();
    let payload = Person { id: Some(42), name: String::from("Alice"), group_id: None };
    assert!(db.create_person(payload).is_ok());
    let all = db.fetch_all_persons();
    assert_eq!(all[0].id, Some(1));
}

#[test]
fn create_group_then_list_includes_record() {
    let mut db = Database::new();
    assert!(db.create_group(group("Sales", "sells things")).is_ok());
    let all = db.fetch_all_groups();
    assert_eq!(all.len(), 1);
    assert_eq!(all[0].id, Some(1));
    assert_eq!(all[0].name, "Sales");
    assert_eq!(all[0].description, "sells things");
}

#[test]
fn create_job_then_list_includes_record() {
    let mut db = Database::new();
    let mut j = job("Audit");
    j.group_id = Some(3);
    j.person_id = Some(9);
    assert!(db.create_job(j).is_ok());
    let all = db.fetch_all_jobs();
    assert_eq!(all.len(), 1);
    assert_eq!(all[0].id, Some(1));
    assert_eq!(all[0].title, "Audit");
    assert_eq!(all[0].start_date, "2024-01-01");
    assert_eq!(all[0].end_date, "2024-12-31");
    assert_eq!(all[0].group_id, Some(3));
    assert_eq!(all[0].person_id, Some(9));
}

#[test]
fn update_person_reflects_new_fields() {
    let mut db = Database::new();
    db.create_person(person("Alice")).unwrap();
    db.create_person(person("Bora")).unwrap();
    let newer = Person { id: None, name: String::from("Alicia"), group_id: Some(5) };
    assert!(db.update_person(1, newer).is_ok());
    let all = db.fetch_all_persons();
    assert_eq!(all[0].id, Some(1));
    assert_eq!(all[0].name, "Alicia");
    assert_eq!(all[0].group_id, Some(5));
    assert_eq!(all[1].id, Some(2));
    assert_eq!(all[1].name, "Bora");
    assert_eq!(all[1].group_id, None);
}

#[test]
fn update_group_reflects_new_fields() {
    let mut db = Database::new();
    db.create_group(group("Sales", "old")).unwrap();
    assert!(db.update_group(1, group("Marketing", "new")).is_ok());
    let all = db.fetch_all_groups();
    assert_eq!(all[0].id, Some(1));
    assert_eq!(all[0].name, "Marketing");
    assert_eq!(all[0].description, "new");
}

#[test]
fn update_job_reflects_new_fields() {
    let mut db = Database::new();
    db.create_job(job("Audit")).unwrap();
    let mut newer = job("Review");
    newer.start_date = String::from("2025-02-02");
    assert!(db.update_job(1, newer).is_ok());
    let all = db.fetch_all_jobs();
    assert_eq!(all[0].id, Some(1));
    assert_eq!(all[0].title, "Review");
    assert_eq!(all[0].start_date, "2025-02-02");
}

#[test]
fn update_missing_identifier_changes_nothing() {
    let mut db = Database::new();
    db.create_person(person("Alice")).unwrap();
    assert!(db.update_person(99, person("Ghost")).is_ok());
    let all = db.fetch_all_persons();
    assert_eq!(all.len(), 1);
    assert_eq!(all[0].name, "Alice");
}

#[test]
fn delete_person_then_list_excludes_identifier() {
    let mut db = Database::new();
    db.create_person(person("Alice")).unwrap();
    db.create_person(person("Bora")).unwrap();
    assert!(db.delete_person(1).is_ok());
    let all = db.fetch_all_persons();
    assert_eq!(all.len(), 1);
    assert_eq!(all[0].id, Some(2));
}

#[test]
fn delete_missing_identifier_succeeds_silently() {
    let mut db = Database::new();
    db.create_person(person("Alice")).unwrap();
    assert!(db.delete_person(99).is_ok());
    assert_eq!(db.fetch_all_persons().len(), 1);
    assert!(db.delete_group(99).is_ok());
    assert!(db.delete_job(99).is_ok());
}

#[test]
fn deleted_identifier_is_not_reused_for_next_insert() {
    let mut db = Database::new();
    db.create_person(person("Alice")).unwrap();
    db.delete_person(1).unwrap();
    db.create_person(person("Bora")).unwrap();
    let all = db.fetch_all_persons();
    assert_eq!(all[0].id, Some(2));
}

#[test]
fn delete_group_keeps_members_column() {
    let mut db = Database::new();
    db.create_group(group("Sales", "d")).unwrap();
    db.create_person(person("Alice")).unwrap();
    db.add_person_to_group(1, 1).unwrap();
    db.delete_group(1).unwrap();
    let all = db.fetch_all_persons();
    assert_eq!(all[0].group_id, Some(1));
}

#[test]
fn add_person_then_group_members_include_person() {
    let mut db = Database::new();
    db.create_group(group("Sales", "d")).unwrap();
    db.create_person(person("Alice")).unwrap();
    db.create_person(person("Bora")).unwrap();
    assert!(db.add_person_to_group(1, 2).is_ok());
    let members = db.fetch_group_persons(1);
    assert_eq!(members.len(), 1);
    assert_eq!(members[0].id, Some(2));
    assert_eq!(members[0].name, "Bora");
    assert_eq!(members[0].group_id, Some(1));
}

#[test]
fn remove_person_from_matching_group_clears_column() {
    let mut db = Database::new();
    db.create_person(person("Alice")).unwrap();
    db.add_person_to_group(4, 1).unwrap();
    assert!(db.remove_person_from_group(4, 1).is_ok());
    let all = db.fetch_all_persons();
    assert_eq!(all[0].group_id, None);
}

#[test]
fn remove_person_from_other_group_changes_no_row() {
    let mut db = Database::new();
    db.create_person(person("Alice")).unwrap();
    db.add_person_to_group(4, 1).unwrap();
    assert!(db.remove_person_from_group(5, 1).is_ok());
    let all = db.fetch_all_persons();
    assert_eq!(all[0].group_id, Some(4));
}

#[test]
fn fetch_group_jobs_filters_by_group_column() {
    let mut db = Database::new();
    let mut a = job("A");
    a.group_id = Some(1);
    let b = job("B");
    let mut c = job("C");
    c.group_id = Some(1);
    db.create_job(a).unwrap();
    db.create_job(b).unwrap();
    db.create_job(c).unwrap();
    let jobs = db.fetch_group_jobs(1);
    assert_eq!(jobs.len(), 2);
    assert_eq!(jobs[0].title, "A");
    assert_eq!(jobs[1].title, "C");
}

#[test]
fn association_tables_drive_junction_queries() {
    let persons = vec![
        Person { id: Some(1), name: String::from("Alice"), group_id: None },
        Person { id: Some(2), name: String::from("Bora"), group_id: None },
    ];
    let groups = vec![Group {
        id: Some(1),
        name: String::from("Sales"),
        description: String::from("d"),
    }];
    let jobs = vec![
        Job {
            id: Some(1),
            title: String::from("Audit"),
            description: String::from("d"),
            start_date: String::from("s"),
            end_date: String::from("e"),
            group_id: None,
            person_id: None,
        },
        Job {
            id: Some(2),
            title: String::from("Review"),
            description: String::from("d"),
            start_date: String::from("s"),
            end_date: String::from("e"),
            group_id: None,
            person_id: None,
        },
    ];
    let person_jobs = vec![(1, 2), (2, 1)];
    let person_groups = vec![(1, 1)];
    let group_jobs = vec![(1, 1)];
    let db = Database::load(persons, groups, jobs, person_jobs, person_groups, group_jobs)
        .unwrap();

    let jobs_of_alice = db.fetch_person_jobs(1);
    assert_eq!(jobs_of_alice.len(), 1);
    assert_eq!(jobs_of_alice[0].title, "Review");

    let persons_of_audit = db.fetch_job_persons(1);
    assert_eq!(persons_of_audit.len(), 1);
    assert_eq!(persons_of_audit[0].name, "Bora");

    let groups_of_alice = db.fetch_person_groups(1);
    assert_eq!(groups_of_alice.len(), 1);
    assert_eq!(groups_of_alice[0].name, "Sales");

    let groups_of_audit = db.fetch_job_groups(1);
    assert_eq!(groups_of_audit.len(), 1);
    assert_eq!(groups_of_audit[0].name, "Sales");

    let groups_of_review = db.fetch_job_groups(2);
    assert!(groups_of_review.is_empty());
}

#[test]
fn load_resumes_identifier_assignment_after_largest() {
    let persons = vec![
        Person { id: Some(7), name: String::from("Alice"), group_id: None },
        Person { id: Some(3), name: String::from("Bora"), group_id: None },
    ];
    let mut db =
        Database::load(persons, Vec::new(), Vec::new(), Vec::new(), Vec::new(), Vec::new())
            .unwrap();
    db.create_person(person("Ceren")).unwrap();
    let all = db.fetch_all_persons();
    assert_eq!(all[2].id, Some(8));
}

#[test]
fn load_refuses_missing_identifier() {
    let persons = vec![person("Alice")];
    let r = Database::load(persons, Vec::new(), Vec::new(), Vec::new(), Vec::new(), Vec::new());
    assert_eq!(r.err(), Some(DbError::MissingId));
}

#[test]
fn load_refuses_duplicate_identifier() {
    let groups = vec![
        Group { id: Some(1), name: String::from("A"), description: String::from("d") },
        Group { id: Some(1), name: String::from("B"), description: String::from("d") },
    ];
    let r = Database::load(Vec::new(), groups, Vec::new(), Vec::new(), Vec::new(), Vec::new());
    assert_eq!(r.err(), Some(DbError::DuplicateId));
}

#[test]
fn exhausted_identifier_space_is_reported() {
    let persons = vec![Person { id: Some(i64::MAX), name: String::from("Last"), group_id: None }];
    let mut db =
        Database::load(persons, Vec::new(), Vec::new(), Vec::new(), Vec::new(), Vec::new())
            .unwrap();
    let r = db.create_person(person("One too many"));
    assert_eq!(r.err(), Some(DbError::IdSpaceExhausted));
    assert_eq!(db.fetch_all_persons().len(), 1);
}

#[test]
fn error_messages_describe_each_failure() {
    assert_eq!(DbError::MissingId.message(), "a loaded row carries no identifier");
    assert_eq!(DbError::DuplicateId.message(), "two loaded rows carry the same identifier");
    assert_eq!(DbError::IdSpaceExhausted.message(), "the identifier space is exhausted");
}

#[test]
fn ayse_joins_satis_and_is_its_only_member() {
    let mut db = Database::new();
    db.create_person(Person { id: None, name: String::from("Ayşe"), group_id: None }).unwrap();
    let listed = db.fetch_all_persons();
    assert_eq!(listed.len(), 1);
    assert_eq!(listed[0].name, "Ayşe");
    assert!(listed[0].id.is_some());

    db.create_group(Group {
        id: None,
        name: String::from("Satış"),
        description: String::from("desc"),
    })
    .unwrap();
    let the_group = &db.fetch_all_groups()[0];
    let group_id = the_group.id.unwrap();
    let person_id = listed[0].id.unwrap();
    db.add_person_to_group(group_id, person_id).unwrap();

    let members = db.fetch_group_persons(group_id);
    assert_eq!(members.len(), 1);
    assert_eq!(members[0].id, Some(person_id));
    assert_eq!(members[0].name, "Ayşe");
}
