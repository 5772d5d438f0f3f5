use medoxido::datastore::Datastore;
use medoxido::ident::parse_id;
use medoxido::model::{Medication, MedicationId};

#[test]
fn parses_plain_decimal() {
    assert_eq!(parse_id("0"), Some(0));
    assert_eq!(parse_id("42"), Some(42));
    assert_eq!(parse_id("18446744073709551615"), Some(u64::MAX));
}

#[test]
fn rejects_empty_malformed_and_out_of_range() {
    assert_eq!(parse_id(""), None);
    assert_eq!(parse_id("12a"), None);
    assert_eq!(parse_id("-5"), None);
    assert_eq!(parse_id(" 7"), None);
    assert_eq!(parse_id("18446744073709551616"), None);
}

#[test]
fn read_by_body_identifier() {
    let mut db = Datastore::new();
    let rec = db
        .create_medication(Medication {
            user: 1,
            name: String::from("ibuprofen"),
            active: true,
        })
        .unwrap();
    let id = MedicationId {
        id: rec.meta.id.to_string(),
    };
    assert_eq!(id.get_string(), rec.meta.id.to_string());
    let back = db.read_medication_body(&id).unwrap();
    assert_eq!(back, rec);
    let bad = MedicationId {
        id: String::from("not-a-number"),
    };
    assert!(db.read_medication_body(&bad).is_none());
}
