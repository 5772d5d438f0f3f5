use medoxido::datastore::Datastore;
use medoxido::model::{Dose, EntityKind, Medication, Note, Quantity, Store, TargetRef};

fn seed(db: &mut Datastore) -> (u64, u64, u64) {
    let m = db
        .create_medication(Medication {
            user: 1,
            name: String::from("ibuprofen"),
            active: true,
        })
        .unwrap();
    let s = db
        .create_store(Store {
            user: 1,
            medication: m.meta.id,
            production_date: 20_240_101,
            expiration_date: None,
            lot_number: String::from("L1"),
            quantity: Quantity::from_whole(100),
            unit: String::from("mg"),
            active: true,
        })
        .unwrap();
    let d = db
        .create_dose(Dose {
            user: 1,
            medication: m.meta.id,
            store: s.meta.id,
            quantity: Quantity::from_whole(5),
            unit: String::from("mg"),
        })
        .unwrap();
    (m.meta.id, s.meta.id, d.meta.id)
}

fn note_on(db: &mut Datastore, kind: EntityKind, id: u64, content: &str) -> u64 {
    db.create_note(Note {
        user: 1,
        target: TargetRef { kind, id },
        content: String::from(content),
    })
    .unwrap()
    .meta
    .id
}

#[test]
fn dose_with_no_notes_yields_empty_list() {
    let mut db = Datastore::new();
    let (_m, _s, d) = seed(&mut db);
    assert!(db.list_notes_for_dose(d).is_empty());
    assert!(db.list_all_dose_notes().is_empty());
}

#[test]
fn dose_note_joins_dose_store_and_medication() {
    let mut db = Datastore::new();
    let (m, s, d) = seed(&mut db);
    let n = note_on(&mut db, EntityKind::Dose, d, "taken late");
    let rows = db.list_notes_for_dose(d);
    assert_eq!(rows.len(), 1);
    let row = &rows[0];
    assert_eq!(row.id, n);
    assert_eq!(row.content, "taken late");
    assert_eq!(row.note_table, EntityKind::Dose);
    assert_eq!(row.note_thing, d);
    assert_eq!(row.dose_id, d);
    assert_eq!(row.dose_quantity, Quantity::from_whole(5));
    assert_eq!(row.unit, "mg");
    assert_eq!(row.store_id, s);
    assert_eq!(row.store_start_quantity, Quantity::from_whole(100));
    assert_eq!(row.medication_id, m);
    assert_eq!(row.medication_name, "ibuprofen");
    assert_eq!(db.list_all_dose_notes(), rows);
}

#[test]
fn dose_note_report_filters_by_dose() {
    let mut db = Datastore::new();
    let (m, s, d1) = seed(&mut db);
    let d2 = db
        .create_dose(Dose {
            user: 1,
            medication: m,
            store: s,
            quantity: Quantity::from_whole(10),
            unit: String::from("mg"),
        })
        .unwrap()
        .meta
        .id;
    note_on(&mut db, EntityKind::Dose, d1, "first");
    note_on(&mut db, EntityKind::Dose, d2, "second");
    note_on(&mut db, EntityKind::Medication, m, "not a dose note");
    assert_eq!(db.list_all_dose_notes().len(), 2);
    let rows = db.list_notes_for_dose(d2);
    assert_eq!(rows.len(), 1);
    assert_eq!(rows[0].content, "second");
}

#[test]
fn orphan_dose_note_is_left_out() {
    let mut db = Datastore::new();
    let (_m, _s, d) = seed(&mut db);
    note_on(&mut db, EntityKind::Dose, d, "about to be orphaned");
    db.delete_dose(d).unwrap();
    assert!(db.list_all_dose_notes().is_empty());
    assert!(db.list_notes_for_dose(d).is_empty());
    assert_eq!(db.list_notes().len(), 1);
}

#[test]
fn medication_note_joins_medication() {
    let mut db = Datastore::new();
    let (m, _s, _d) = seed(&mut db);
    let n = note_on(&mut db, EntityKind::Medication, m, "take with food");
    let rows = db.list_notes_for_medication(m);
    assert_eq!(rows.len(), 1);
    assert_eq!(rows[0].id, n);
    assert_eq!(rows[0].medication_id, m);
    assert_eq!(rows[0].medication_name, "ibuprofen");
    assert!(rows[0].medication_active);
    assert_eq!(db.list_all_medication_notes(), rows);
    assert!(db.list_notes_for_medication(m + 100).is_empty());
}

#[test]
fn store_note_joins_store_and_medication() {
    let mut db = Datastore::new();
    let (m, s, _d) = seed(&mut db);
    let n = note_on(&mut db, EntityKind::Store, s, "keep refrigerated");
    let rows = db.list_notes_for_store(s);
    assert_eq!(rows.len(), 1);
    assert_eq!(rows[0].id, n);
    assert_eq!(rows[0].store_id, s);
    assert_eq!(rows[0].unit, "mg");
    assert_eq!(rows[0].store_start_quantity, Quantity::from_whole(100));
    assert_eq!(rows[0].medication_id, m);
    assert_eq!(rows[0].medication_name, "ibuprofen");
    assert_eq!(db.list_all_store_notes(), rows);
    assert!(db.list_notes_for_store(s + 100).is_empty());
}
