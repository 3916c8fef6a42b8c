use roster_store::mutation::{
    create_response, delete_response, export_json, validate_record, STATUS_CREATED, STATUS_OK,
    STATUS_SERVER_ERROR,
};
use roster_store::record::{total, Employee};
use roster_store::store::StoreError;

#[test]
fn total_is_salary_plus_bonus_times_rating() {
    assert_eq!(total(50000, 10000, 80), 58000);
    assert_eq!(total(1, 3, 50), 2);
    assert_eq!(total(2_000_000_000, 2_000_000_000, 100), 4_000_000_000);
}

#[test]
fn total_is_zero_for_zero_pay_at_full_rating() {
    assert_eq!(total(0, 0, 100), 0);
}

#[test]
fn validation_checks_the_form_bounds() {
    let ok = Employee {
        full_name: "Ivanov".to_string(),
        salary: 2_000_000_000,
        bonus: 2_000_000_000,
        rating_centi: 100,
    };
    assert!(validate_record(&ok));
    let mut high_salary = ok.clone();
    high_salary.salary = 2_000_000_001;
    assert!(!validate_record(&high_salary));
    let mut high_bonus = ok.clone();
    high_bonus.bonus = 2_000_000_001;
    assert!(!validate_record(&high_bonus));
    let mut high_rating = ok.clone();
    high_rating.rating_centi = 101;
    assert!(!validate_record(&high_rating));
}

#[test]
fn create_outcome_maps_to_status_and_signals() {
    let created = create_response(&Ok(0));
    assert_eq!(created.status, STATUS_CREATED);
    assert!(created.refresh_roster);
    assert!(created.clear_form);
    let failed = create_response(&Err(StoreError::Storage));
    assert_eq!(failed.status, STATUS_SERVER_ERROR);
    assert!(!failed.refresh_roster);
    assert!(!failed.clear_form);
}

#[test]
fn delete_outcome_maps_to_status() {
    assert_eq!(delete_response(&Ok(None)), STATUS_OK);
    assert_eq!(delete_response(&Err(StoreError::Encoding)), STATUS_SERVER_ERROR);
}

#[test]
fn export_document_is_exact() {
    let entries = vec![
        (
            0u32,
            Employee {
                full_name: "Ivanov".to_string(),
                salary: 50000,
                bonus: 10000,
                rating_centi: 80,
            },
        ),
        (
            3u32,
            Employee {
                full_name: String::new(),
                salary: 0,
                bonus: 0,
                rating_centi: 0,
            },
        ),
    ];
    let document = String::from_utf8(export_json(&entries)).unwrap();
    assert_eq!(
        document,
        "[[0,{\"full_name\":\"Ivanov\",\"salary\":50000,\"bonus\":10000,\"rating_centi\":80}],\
         [3,{\"full_name\":\"\",\"salary\":0,\"bonus\":0,\"rating_centi\":0}]]"
    );
}

#[test]
fn export_escapes_quotes_backslashes_and_controls() {
    let entries = vec![(
        7u32,
        Employee {
            full_name: "A\"B\\C\nD".to_string(),
            salary: 1,
            bonus: 2,
            rating_centi: 3,
        },
    )];
    let document = String::from_utf8(export_json(&entries)).unwrap();
    assert_eq!(
        document,
        "[[7,{\"full_name\":\"A\\\"B\\\\C\\u000aD\",\"salary\":1,\"bonus\":2,\"rating_centi\":3}]]"
    );
}

#[test]
fn export_of_empty_listing_is_empty_array() {
    let entries: Vec<(u32, Employee)> = Vec::new();
    assert_eq!(export_json(&entries), b"[]".to_vec());
}

#[test]
fn exported_document_parses_back() {
    let entries = vec![(
        5u32,
        Employee {
            full_name: "Мария".to_string(),
            salary: 123,
            bonus: 456,
            rating_centi: 99,
        },
    )];
    let document = export_json(&entries);
    let value: serde_json::Value = serde_json::from_slice(&document).unwrap();
    assert_eq!(value[0][0], 5);
    assert_eq!(value[0][1]["full_name"], "Мария");
    assert_eq!(value[0][1]["salary"], 123);
    assert_eq!(value[0][1]["bonus"], 456);
    assert_eq!(value[0][1]["rating_centi"], 99);
}
