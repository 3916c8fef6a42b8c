use roster_store::record::Employee;
use roster_store::store::Database;

fn sample(name: &str) -> Employee {
    Employee {
        full_name: name.to_string(),
        salary: 50000,
        bonus: 10000,
        rating_centi: 80,
    }
}

#[test]
fn fresh_store_first_add_gets_zero() {
    let mut db = Database::temporary().unwrap();
    let record = sample("Ivanov");
    let id = db.add(&record).unwrap();
    assert_eq!(id, 0);
    let all = db.get_all().unwrap();
    assert_eq!(all.len(), 1);
    assert_eq!(all[0].0, 0);
    assert_eq!(all[0].1, record);
}

#[test]
fn second_add_gets_one() {
    let mut db = Database::temporary().unwrap();
    assert_eq!(db.add(&sample("Ivanov")).unwrap(), 0);
    let other = Employee {
        full_name: "Petrov".to_string(),
        salary: 1,
        bonus: 2,
        rating_centi: 3,
    };
    assert_eq!(db.add(&other).unwrap(), 1);
}

#[test]
fn remove_returns_record_then_absent() {
    let mut db = Database::temporary().unwrap();
    let record = sample("Ivanov");
    assert_eq!(db.add(&record).unwrap(), 0);
    assert_eq!(db.add(&sample("Petrov")).unwrap(), 1);
    let removed = db.remove(0).unwrap();
    assert_eq!(removed, Some(record));
    let all = db.get_all().unwrap();
    assert_eq!(all.len(), 1);
    assert_eq!(all[0].0, 1);
    assert_eq!(db.remove(0).unwrap(), None);
}

#[test]
fn fifty_adds_yield_distinct_identifiers_zero_to_fortynine() {
    let mut db = Database::temporary().unwrap();
    let mut ids = Vec::new();
    for i in 0..50u32 {
        let record = Employee {
            full_name: format!("employee {i}"),
            salary: i,
            bonus: i * 2,
            rating_centi: i % 101,
        };
        ids.push(db.add(&record).unwrap());
    }
    let mut sorted = ids.clone();
    sorted.sort();
    sorted.dedup();
    assert_eq!(sorted, (0..50u32).collect::<Vec<u32>>());
    let all = db.get_all().unwrap();
    assert_eq!(all.len(), 50);
    let listed: Vec<u32> = all.iter().map(|p| p.0).collect();
    assert_eq!(listed, (0..50u32).collect::<Vec<u32>>());
}

#[test]
fn listing_is_sorted_ascending_after_removals() {
    let mut db = Database::temporary().unwrap();
    for i in 0..10u32 {
        db.add(&sample(&format!("e{i}"))).unwrap();
    }
    db.remove(3).unwrap();
    db.remove(7).unwrap();
    let all = db.get_all().unwrap();
    let ids: Vec<u32> = all.iter().map(|p| p.0).collect();
    assert_eq!(ids, vec![0, 1, 2, 4, 5, 6, 8, 9]);
}

#[test]
fn round_trip_preserves_every_field() {
    let mut db = Database::temporary().unwrap();
    let record = Employee {
        full_name: "Анна Каренина".to_string(),
        salary: 2_000_000_000,
        bonus: 0,
        rating_centi: 100,
    };
    let id = db.add(&record).unwrap();
    let all = db.get_all().unwrap();
    let found = all.iter().find(|p| p.0 == id).unwrap();
    assert_eq!(found.1.full_name, record.full_name);
    assert_eq!(found.1.salary, record.salary);
    assert_eq!(found.1.bonus, record.bonus);
    assert_eq!(found.1.rating_centi, record.rating_centi);
}

#[test]
fn identifiers_grow_monotonically_and_are_never_reissued() {
    let mut db = Database::temporary().unwrap();
    assert_eq!(db.add(&sample("a")).unwrap(), 0);
    assert_eq!(db.add(&sample("b")).unwrap(), 1);
    assert_eq!(db.remove(1).unwrap().is_some(), true);
    assert_eq!(db.add(&sample("c")).unwrap(), 2);
    assert_eq!(db.remove(0).unwrap().is_some(), true);
    assert_eq!(db.add(&sample("d")).unwrap(), 3);
}

#[test]
fn remove_of_never_assigned_identifier_is_absent_not_error() {
    let mut db = Database::temporary().unwrap();
    assert_eq!(db.remove(12345).unwrap(), None);
    assert_eq!(db.remove(12345).unwrap(), None);
}

#[test]
fn checksum_changes_on_add_and_remove() {
    let mut db = Database::temporary().unwrap();
    let before = db.checksum().unwrap();
    db.add(&sample("Ivanov")).unwrap();
    let after_add = db.checksum().unwrap();
    assert_ne!(before, after_add);
    db.remove(0).unwrap();
    let after_remove = db.checksum().unwrap();
    assert_ne!(after_add, after_remove);
}

#[test]
fn checksum_is_stable_without_mutation() {
    let mut db = Database::temporary().unwrap();
    db.add(&sample("Ivanov")).unwrap();
    let first = db.checksum().unwrap();
    let second = db.checksum().unwrap();
    assert_eq!(first, second);
    db.get_all().unwrap();
    assert_eq!(db.checksum().unwrap(), first);
}

#[test]
fn checksum_unchanged_by_ineffective_remove() {
    let mut db = Database::temporary().unwrap();
    db.add(&sample("Ivanov")).unwrap();
    let before = db.checksum().unwrap();
    assert_eq!(db.remove(999).unwrap(), None);
    assert_eq!(db.checksum().unwrap(), before);
}

#[test]
fn store_accepts_records_beyond_form_bounds() {
    let mut db = Database::temporary().unwrap();
    let record = Employee {
        full_name: String::new(),
        salary: u32::MAX,
        bonus: u32::MAX,
        rating_centi: 10_000,
    };
    let id = db.add(&record).unwrap();
    let all = db.get_all().unwrap();
    assert_eq!(all, vec![(id, record)]);
}
