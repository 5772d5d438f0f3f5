use medoxido::datastore::Datastore;
use medoxido::error::Error;
use medoxido::model::{
    Dose, EntityKind, Medication, Note, Quantity, Reminder, Store, TargetRef, UnitOfMeasure,
};

fn medication(user: u64, name: &str) -> Medication {
    Medication {
        user,
        name: String::from(name),
        active: true,
    }
}

fn store(user: u64, medication: u64) -> Store {
    Store {
        user,
        medication,
        production_date: 20_240_101,
        expiration_date: Some(20_260_101),
        lot_number: String::from("L1"),
        quantity: Quantity::from_whole(100),
        unit: String::from("mg"),
        active: true,
    }
}

fn dose(user: u64, medication: u64, store: u64) -> Dose {
    Dose {
        user,
        medication,
        store,
        quantity: Quantity::from_whole(5),
        unit: String::from("mg"),
    }
}

fn reminder(user: u64, medication: u64, active: bool) -> Reminder {
    Reminder {
        user,
        medication,
        start: 1,
        end: 30,
        days: String::from("MWF"),
        times: String::from("08:00,20:00"),
        active,
    }
}

fn note(user: u64, kind: EntityKind, id: u64, content: &str) -> Note {
    Note {
        user,
        target: TargetRef { kind, id },
        content: String::from(content),
    }
}

#[test]
fn create_then_read_medication_round_trip() {
    let mut db = Datastore::new();
    let rec = db.create_medication(medication(1, "ibuprofen")).unwrap();
    let back = db.read_medication(rec.meta.id).unwrap();
    assert_eq!(back, rec);
    assert_eq!(back.content.name, "ibuprofen");
    assert_eq!(back.content.user, 1);
    assert_eq!(back.meta.created, back.meta.updated);
}

#[test]
fn create_medication_rejects_invalid_name() {
    let mut db = Datastore::new();
    let r = db.create_medication(medication(1, "x"));
    match r {
        Err(Error::UnprocessableEntity { .. }) => {}
        other => panic!("expected a validation error, got {:?}", other),
    }
    assert!(db.list_medications().is_empty());
}

#[test]
fn update_then_read_reflects_new_content() {
    let mut db = Datastore::new();
    let rec = db.create_medication(medication(1, "ibuprofen")).unwrap();
    let updated = db
        .update_medication(rec.meta.id, medication(1, "naproxen"))
        .unwrap()
        .unwrap();
    assert_eq!(updated.meta.id, rec.meta.id);
    assert_eq!(updated.meta.created, rec.meta.created);
    assert!(updated.meta.updated >= rec.meta.updated);
    let back = db.read_medication(rec.meta.id).unwrap();
    assert_eq!(back.content.name, "naproxen");
}

#[test]
fn update_medication_rejects_invalid_name() {
    let mut db = Datastore::new();
    let rec = db.create_medication(medication(1, "ibuprofen")).unwrap();
    assert!(db
        .update_medication(rec.meta.id, medication(1, "fuck"))
        .is_err());
    assert_eq!(
        db.read_medication(rec.meta.id).unwrap().content.name,
        "ibuprofen"
    );
}

#[test]
fn update_of_absent_medication_is_absent() {
    let mut db = Datastore::new();
    let r = db.update_medication(99, medication(1, "naproxen")).unwrap();
    assert!(r.is_none());
}

#[test]
fn delete_then_read_is_absent() {
    let mut db = Datastore::new();
    let rec = db.create_medication(medication(1, "ibuprofen")).unwrap();
    let removed = db.delete_medication(rec.meta.id).unwrap();
    assert_eq!(removed, rec);
    assert!(db.read_medication(rec.meta.id).is_none());
    assert!(db.delete_medication(rec.meta.id).is_none());
}

#[test]
fn identifiers_are_unique_across_tables() {
    let mut db = Datastore::new();
    let m = db.create_medication(medication(1, "ibuprofen")).unwrap();
    let s = db.create_store(store(1, m.meta.id)).unwrap();
    let d = db.create_dose(dose(1, m.meta.id, s.meta.id)).unwrap();
    assert_ne!(m.meta.id, s.meta.id);
    assert_ne!(s.meta.id, d.meta.id);
    assert_ne!(m.meta.id, d.meta.id);
}

#[test]
fn deactivate_medication_flips_flag_and_keeps_name() {
    let mut db = Datastore::new();
    let rec = db.create_medication(medication(7, "ibuprofen")).unwrap();
    let off = db.deactivate_medication(rec.meta.id, 7).unwrap();
    assert!(!off.content.active);
    assert_eq!(off.content.name, "ibuprofen");
    assert_eq!(off.meta.created, rec.meta.created);
    assert!(!db.read_medication(rec.meta.id).unwrap().content.active);
}

#[test]
fn deactivate_medication_of_other_user_is_absent() {
    let mut db = Datastore::new();
    let rec = db.create_medication(medication(7, "ibuprofen")).unwrap();
    assert!(db.deactivate_medication(rec.meta.id, 8).is_none());
    assert!(db.read_medication(rec.meta.id).unwrap().content.active);
}

#[test]
fn list_medications_filters_by_user_and_status() {
    let mut db = Datastore::new();
    let a = db.create_medication(medication(1, "ibuprofen")).unwrap();
    let b = db.create_medication(medication(1, "naproxen")).unwrap();
    let c = db.create_medication(medication(2, "aspirin")).unwrap();
    db.deactivate_medication(b.meta.id, 1).unwrap();
    let of_one = db.list_medications_for_user(1);
    assert_eq!(of_one.len(), 2);
    assert_eq!(of_one[0].meta.id, a.meta.id);
    assert_eq!(of_one[1].meta.id, b.meta.id);
    let active_of_one = db.list_medications_by_status(1, true);
    assert_eq!(active_of_one.len(), 1);
    assert_eq!(active_of_one[0].meta.id, a.meta.id);
    let of_two = db.list_medications_for_user(2);
    assert_eq!(of_two.len(), 1);
    assert_eq!(of_two[0].meta.id, c.meta.id);
    assert_eq!(db.list_medications().len(), 3);
}

#[test]
fn store_crud_round_trip() {
    let mut db = Datastore::new();
    let m = db.create_medication(medication(1, "ibuprofen")).unwrap();
    let s = db.create_store(store(1, m.meta.id)).unwrap();
    assert_eq!(db.read_store(s.meta.id).unwrap(), s);
    assert_eq!(s.content.quantity.thousandths, 100_000);
    let mut replacement = store(1, m.meta.id);
    replacement.lot_number = String::from("L2");
    let updated = db.update_store(s.meta.id, replacement).unwrap();
    assert_eq!(updated.content.lot_number, "L2");
    assert_eq!(db.read_store(s.meta.id).unwrap().content.lot_number, "L2");
    let removed = db.delete_store(s.meta.id).unwrap();
    assert_eq!(removed.content.lot_number, "L2");
    assert!(db.read_store(s.meta.id).is_none());
}

#[test]
fn store_lists_filter_by_medication_user_and_status() {
    let mut db = Datastore::new();
    let m1 = db.create_medication(medication(1, "ibuprofen")).unwrap();
    let m2 = db.create_medication(medication(1, "naproxen")).unwrap();
    let s1 = db.create_store(store(1, m1.meta.id)).unwrap();
    let s2 = db.create_store(store(1, m1.meta.id)).unwrap();
    let _other_med = db.create_store(store(1, m2.meta.id)).unwrap();
    let _other_user = db.create_store(store(2, m1.meta.id)).unwrap();
    db.deactivate_store(s2.meta.id).unwrap();
    let all = db.list_all_stores_for_medication(1, m1.meta.id);
    assert_eq!(all.len(), 2);
    assert_eq!(all[0].meta.id, s1.meta.id);
    assert_eq!(all[1].meta.id, s2.meta.id);
    let active = db.list_stores_for_medication(1, m1.meta.id, true);
    assert_eq!(active.len(), 1);
    assert_eq!(active[0].meta.id, s1.meta.id);
    let inactive = db.list_stores_for_medication(1, m1.meta.id, false);
    assert_eq!(inactive.len(), 1);
    assert_eq!(inactive[0].meta.id, s2.meta.id);
}

#[test]
fn dose_crud_round_trip() {
    let mut db = Datastore::new();
    let m = db.create_medication(medication(1, "ibuprofen")).unwrap();
    let s = db.create_store(store(1, m.meta.id)).unwrap();
    let d = db.create_dose(dose(1, m.meta.id, s.meta.id)).unwrap();
    assert_eq!(db.read_dose(d.meta.id).unwrap(), d);
    assert_eq!(d.content.quantity.thousandths, 5_000);
    let removed = db.delete_dose(d.meta.id).unwrap();
    assert_eq!(removed.meta.id, d.meta.id);
    assert!(db.read_dose(d.meta.id).is_none());
    assert!(db.list_doses().is_empty());
}

#[test]
fn reminder_deactivate_and_active_list() {
    let mut db = Datastore::new();
    let m = db.create_medication(medication(1, "ibuprofen")).unwrap();
    let r1 = db.create_reminder(reminder(1, m.meta.id, true)).unwrap();
    let r2 = db.create_reminder(reminder(1, m.meta.id, true)).unwrap();
    db.deactivate_reminder(r1.meta.id).unwrap();
    let active = db.list_active_reminders();
    assert_eq!(active.len(), 1);
    assert_eq!(active[0].meta.id, r2.meta.id);
    let off = db.read_reminder(r1.meta.id).unwrap();
    assert!(!off.content.active);
    assert_eq!(off.content.days, "MWF");
    assert_eq!(off.content.times, "08:00,20:00");
}

#[test]
fn note_crud_round_trip() {
    let mut db = Datastore::new();
    let m = db.create_medication(medication(1, "ibuprofen")).unwrap();
    let n = db
        .create_note(note(1, EntityKind::Medication, m.meta.id, "with food"))
        .unwrap();
    assert_eq!(db.read_note(n.meta.id).unwrap(), n);
    let updated = db
        .update_note(
            n.meta.id,
            note(1, EntityKind::Medication, m.meta.id, "before sleep"),
        )
        .unwrap();
    assert_eq!(updated.content.content, "before sleep");
    assert_eq!(db.read_note(n.meta.id).unwrap().content.content, "before sleep");
    let removed = db.delete_note(n.meta.id).unwrap();
    assert_eq!(removed.content.content, "before sleep");
    assert!(db.read_note(n.meta.id).is_none());
}

#[test]
fn uom_crud_round_trip() {
    let mut db = Datastore::new();
    let u = db
        .create_uom(UnitOfMeasure {
            name: String::from("milligram"),
            abbreviation: String::from("mg"),
            active: true,
        })
        .unwrap();
    assert_eq!(u.content.name, "milligram");
    assert_eq!(u.content.abbreviation, "mg");
    assert_eq!(db.read_uom(u.meta.id).unwrap(), u);
    let updated = db
        .update_uom(
            u.meta.id,
            UnitOfMeasure {
                name: String::from("millilitre"),
                abbreviation: String::from("mL"),
                active: true,
            },
        )
        .unwrap();
    assert_eq!(updated.content.abbreviation, "mL");
    assert_eq!(db.list_uoms().len(), 1);
    assert!(db.delete_uom(u.meta.id).is_some());
    assert!(db.list_uoms().is_empty());
}

#[test]
fn quantity_keeps_thousandths_exactly() {
    let q = Quantity::from_whole(100);
    assert_eq!(q.thousandths, 100_000);
    assert_eq!(q.whole_units(), 100);
    let third = Quantity { thousandths: 333 };
    assert_eq!(third.whole_units(), 0);
}
