use medoxido::datastore::Datastore;
use medoxido::model::{Dose, Medication, Quantity, Store, UnitOfMeasure};

#[test]
fn full_tracking_scenario() {
    let mut db = Datastore::new();

    let uom = db
        .create_uom(UnitOfMeasure {
            name: String::from("milligram"),
            abbreviation: String::from("mg"),
            active: true,
        })
        .unwrap();
    assert_eq!(uom.content.name, "milligram");
    assert_eq!(uom.content.abbreviation, "mg");
    assert_eq!(db.read_uom(uom.meta.id).unwrap(), uom);

    let med = db
        .create_medication(Medication {
            user: 1,
            name: String::from("ibuprofen"),
            active: true,
        })
        .unwrap();
    assert_eq!(med.content.name, "ibuprofen");

    let store = db
        .create_store(Store {
            user: 1,
            medication: med.meta.id,
            production_date: 20_240_601,
            expiration_date: Some(20_260_601),
            lot_number: String::from("L1"),
            quantity: Quantity::from_whole(100),
            unit: String::from("mg"),
            active: true,
        })
        .unwrap();
    assert_eq!(store.content.lot_number, "L1");
    assert_eq!(store.content.quantity, Quantity::from_whole(100));

    let dose = db
        .create_dose(Dose {
            user: 1,
            medication: med.meta.id,
            store: store.meta.id,
            quantity: Quantity::from_whole(5),
            unit: String::from("mg"),
        })
        .unwrap();

    let doses = db.list_doses();
    assert_eq!(doses.len(), 1);
    assert_eq!(doses[0], dose);
    assert_eq!(doses[0].content.medication, med.meta.id);
    assert_eq!(doses[0].content.store, store.meta.id);
}
