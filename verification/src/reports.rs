//! The aggregate query layer: read-only join queries that combine fields of
//! two or three entities into flat report rows.
//!
//! A note joins with the entity its target points at; a dose-note row further
//! joins the dose's store and medication, and a store-note row the store's
//! medication. A row is produced only when every referenced record resolves;
//! a note whose target does not resolve is left out rather than reported as
//! an error, and an identifier with no notes yields an empty list.

use vstd::prelude::*;
use crate::datastore::{Datastore, Rec, contains_id, idx_of, lemma_filter_push,
    lemma_filter_all_false};
use crate::model::{EntityKind, Note, Quantity};

verus! {

/// A note on a dose, joined with the dose, its store and its medication.
#[derive(Debug, PartialEq, Eq)]
pub struct DoseNote {
    pub id: u64,
    pub user: u64,
    pub content: String,
    pub created: u64,
    pub updated: u64,
    pub note_table: EntityKind,
    pub note_thing: u64,
    pub dose_id: u64,
    pub dose_created: u64,
    pub dose_updated: u64,
    pub dose_quantity: Quantity,
    pub medication_id: u64,
    pub medication_name: String,
    pub store_id: u64,
    pub store_production_date: u64,
    pub store_start_quantity: Quantity,
    pub unit: String,
}

/// A note on a medication, joined with the medication.
#[derive(Debug, PartialEq, Eq)]
pub struct MedicationNote {
    pub id: u64,
    pub user: u64,
    pub content: String,
    pub created: u64,
    pub updated: u64,
    pub note_table: EntityKind,
    pub note_thing: u64,
    pub medication_id: u64,
    pub medication_name: String,
    pub medication_active: bool,
}

/// A note on an inventory store, joined with the store and its medication.
#[derive(Debug, PartialEq, Eq)]
pub struct StoreNote {
    pub id: u64,
    pub user: u64,
    pub content: String,
    pub created: u64,
    pub updated: u64,
    pub note_table: EntityKind,
    pub note_thing: u64,
    pub store_id: u64,
    pub store_active: bool,
    pub store_created: u64,
    pub store_updated: u64,
    pub store_production_date: u64,
    pub store_start_quantity: Quantity,
    pub unit: String,
    pub medication_id: u64,
    pub medication_name: String,
}

/// The note targets a dose whose store and medication both resolve.
pub open spec fn dose_note_resolves(s: Datastore, n: Rec<Note>) -> bool {
    &&& n.content.target.kind == EntityKind::Dose
    &&& contains_id(s.doses(), n.content.target.id)
    &&& ({
        let d = s.doses()[idx_of(s.doses(), n.content.target.id)];
        &&& contains_id(s.stores(), d.content.store)
        &&& contains_id(s.medications(), d.content.medication)
    })
}

/// The report row for a resolving dose note.
pub open spec fn dose_note_row(s: Datastore, n: Rec<Note>) -> DoseNote {
    let d = s.doses()[idx_of(s.doses(), n.content.target.id)];
    let st = s.stores()[idx_of(s.stores(), d.content.store)];
    let m = s.medications()[idx_of(s.medications(), d.content.medication)];
    DoseNote {
        id: n.meta.id,
        user: n.content.user,
        content: n.content.content,
        created: n.meta.created,
        updated: n.meta.updated,
        note_table: EntityKind::Dose,
        note_thing: n.content.target.id,
        dose_id: d.meta.id,
        dose_created: d.meta.created,
        dose_updated: d.meta.updated,
        dose_quantity: d.content.quantity,
        medication_id: m.meta.id,
        medication_name: m.content.name,
        store_id: st.meta.id,
        store_production_date: st.content.production_date,
        store_start_quantity: st.content.quantity,
        unit: d.content.unit,
    }
}

/// The dose-note report over every note, in note insertion order.
pub open spec fn dose_notes_spec(s: Datastore) -> Seq<DoseNote> {
    s.notes().filter(|n: Rec<Note>| dose_note_resolves(s, n)).map_values(
        |n: Rec<Note>| dose_note_row(s, n),
    )
}

/// The dose-note report restricted to the notes of one dose.
pub open spec fn dose_notes_for_spec(s: Datastore, dose: u64) -> Seq<DoseNote> {
    s.notes().filter(
        |n: Rec<Note>| dose_note_resolves(s, n) && n.content.target.id == dose,
    ).map_values(|n: Rec<Note>| dose_note_row(s, n))
}

/// The note targets a medication that resolves.
pub open spec fn medication_note_resolves(s: Datastore, n: Rec<Note>) -> bool {
    &&& n.content.target.kind == EntityKind::Medication
    &&& contains_id(s.medications(), n.content.target.id)
}

/// The report row for a resolving medication note.
pub open spec fn medication_note_row(s: Datastore, n: Rec<Note>) -> MedicationNote {
    let m = s.medications()[idx_of(s.medications(), n.content.target.id)];
    MedicationNote {
        id: n.meta.id,
        user: n.content.user,
        content: n.content.content,
        created: n.meta.created,
        updated: n.meta.updated,
        note_table: EntityKind::Medication,
        note_thing: n.content.target.id,
        medication_id: m.meta.id,
        medication_name: m.content.name,
        medication_active: m.content.active,
    }
}

/// The medication-note report over every note, in note insertion order.
pub open spec fn medication_notes_spec(s: Datastore) -> Seq<MedicationNote> {
    s.notes().filter(|n: Rec<Note>| medication_note_resolves(s, n)).map_values(
        |n: Rec<Note>| medication_note_row(s, n),
    )
}

/// The medication-note report restricted to the notes of one medication.
pub open spec fn medication_notes_for_spec(s: Datastore, medication: u64) -> Seq<MedicationNote> {
    s.notes().filter(
        |n: Rec<Note>| medication_note_resolves(s, n) && n.content.target.id == medication,
    ).map_values(|n: Rec<Note>| medication_note_row(s, n))
}

/// The note targets an inventory store whose medication also resolves.
pub open spec fn store_note_resolves(s: Datastore, n: Rec<Note>) -> bool {
    &&& n.content.target.kind == EntityKind::Store
    &&& contains_id(s.stores(), n.content.target.id)
    &&& ({
        let st = s.stores()[idx_of(s.stores(), n.content.target.id)];
        contains_id(s.medications(), st.content.medication)
    })
}

/// The report row for a resolving store note.
pub open spec fn store_note_row(s: Datastore, n: Rec<Note>) -> StoreNote {
    let st = s.stores()[idx_of(s.stores(), n.content.target.id)];
    let m = s.medications()[idx_of(s.medications(), st.content.medication)];
    StoreNote {
        id: n.meta.id,
        user: n.content.user,
        content: n.content.content,
        created: n.meta.created,
        updated: n.meta.updated,
        note_table: EntityKind::Store,
        note_thing: n.content.target.id,
        store_id: st.meta.id,
        store_active: st.content.active,
        store_created: st.meta.created,
        store_updated: st.meta.updated,
        store_production_date: st.content.production_date,
        store_start_quantity: st.content.quantity,
        unit: st.content.unit,
        medication_id: m.meta.id,
        medication_name: m.content.name,
    }
}

/// The store-note report over every note, in note insertion order.
pub open spec fn store_notes_spec(s: Datastore) -> Seq<StoreNote> {
    s.notes().filter(|n: Rec<Note>| store_note_resolves(s, n)).map_values(
        |n: Rec<Note>| store_note_row(s, n),
    )
}

/// The store-note report restricted to the notes of one store.
pub open spec fn store_notes_for_spec(s: Datastore, store: u64) -> Seq<StoreNote> {
    s.notes().filter(
        |n: Rec<Note>| store_note_resolves(s, n) && n.content.target.id == store,
    ).map_values(|n: Rec<Note>| store_note_row(s, n))
}

/// A dose identifier that no note points at yields an empty report, not an
/// error.
pub proof fn lemma_no_notes_for_dose(s: Datastore, dose: u64)
    requires
        forall|i: int|
            0 <= i < s.notes().len() ==> !((#[trigger] s.notes()[i]).content.target.kind
                == EntityKind::Dose && s.notes()[i].content.target.id == dose),
    ensures
        dose_notes_for_spec(s, dose) == Seq::<DoseNote>::empty(),
{
    let pred = |n: Rec<Note>| dose_note_resolves(s, n) && n.content.target.id == dose;
    assert forall|i: int| 0 <= i < s.notes().len() implies !pred(#[trigger] s.notes()[i]) by {
        assert(!(s.notes()[i].content.target.kind == EntityKind::Dose
            && s.notes()[i].content.target.id == dose));
    }
    lemma_filter_all_false(s.notes(), pred);
    assert(dose_notes_for_spec(s, dose) =~= Seq::<DoseNote>::empty());
}

impl Datastore {
    /// Reports every note attached to a dose, joined with the dose, its store
    /// and its medication.
    pub fn list_all_dose_notes(&self) -> (r: Vec<DoseNote>)
        requires
            self.wf(),
        ensures
            r@ == dose_notes_spec(*self),
    {
        let ghost pred = |n: Rec<Note>| dose_note_resolves(*self, n);
        let ghost row = |n: Rec<Note>| dose_note_row(*self, n);
        let n = self.note_count();
        let mut out: Vec<DoseNote> = Vec::new();
        let mut i: usize = 0;
        proof {
            lemma_filter_all_false(self.notes().subrange(0, 0), pred);
            assert(self.notes().subrange(0, 0).filter(pred).map_values(row) =~= Seq::empty());
        }
        while i < n
            invariant
                self.wf(),
                pred == (|n: Rec<Note>| dose_note_resolves(*self, n)),
                row == (|n: Rec<Note>| dose_note_row(*self, n)),
                n == self.notes().len(),
                i <= n,
                out@ == self.notes().subrange(0, i as int).filter(pred).map_values(row),
            decreases n - i,
        {
            proof {
                assert(self.notes().subrange(0, i + 1) =~= self.notes().subrange(0, i as int).push(
                    self.notes()[i as int],
                ));
                lemma_filter_push(self.notes().subrange(0, i as int), self.notes()[i as int], pred);
                assert(self.notes().subrange(0, i as int).filter(pred).push(
                    self.notes()[i as int],
                ).map_values(row) =~= self.notes().subrange(0, i as int).filter(pred).map_values(
                    row,
                ).push(row(self.notes()[i as int])));
            }
            let note = self.note_at(i);
            if note.content.target.kind == EntityKind::Dose {
                if let Some(d) = self.read_dose(note.content.target.id) {
                    if let Some(st) = self.read_store(d.content.store) {
                        if let Some(m) = self.read_medication(d.content.medication) {
                            out.push(DoseNote {
                                id: note.meta.id,
                                user: note.content.user,
                                content: note.content.content,
                                created: note.meta.created,
                                updated: note.meta.updated,
                                note_table: EntityKind::Dose,
                                note_thing: note.content.target.id,
                                dose_id: d.meta.id,
                                dose_created: d.meta.created,
                                dose_updated: d.meta.updated,
                                dose_quantity: d.content.quantity,
                                medication_id: m.meta.id,
                                medication_name: m.content.name,
                                store_id: st.meta.id,
                                store_production_date: st.content.production_date,
                                store_start_quantity: st.content.quantity,
                                unit: d.content.unit,
                            });
                        }
                    }
                }
            }
            i = i + 1;
        }
        proof {
            assert(self.notes().subrange(0, n as int) =~= self.notes());
        }
        out
    }

    /// Reports the notes attached to one dose, joined with the dose, its
    /// store and its medication; a dose with no notes yields an empty list.
    pub fn list_notes_for_dose(&self, dose: u64) -> (r: Vec<DoseNote>)
        requires
            self.wf(),
        ensures
            r@ == dose_notes_for_spec(*self, dose),
    {
        let ghost pred = |n: Rec<Note>|
            dose_note_resolves(*self, n) && n.content.target.id == dose;
        let ghost row = |n: Rec<Note>| dose_note_row(*self, n);
        let n = self.note_count();
        let mut out: Vec<DoseNote> = Vec::new();
        let mut i: usize = 0;
        proof {
            lemma_filter_all_false(self.notes().subrange(0, 0), pred);
            assert(self.notes().subrange(0, 0).filter(pred).map_values(row) =~= Seq::empty());
        }
        while i < n
            invariant
                self.wf(),
                pred == (|n: Rec<Note>|
                    dose_note_resolves(*self, n) && n.content.target.id == dose),
                row == (|n: Rec<Note>| dose_note_row(*self, n)),
                n == self.notes().len(),
                i <= n,
                out@ == self.notes().subrange(0, i as int).filter(pred).map_values(row),
            decreases n - i,
        {
            proof {
                assert(self.notes().subrange(0, i + 1) =~= self.notes().subrange(0, i as int).push(
                    self.notes()[i as int],
                ));
                lemma_filter_push(self.notes().subrange(0, i as int), self.notes()[i as int], pred);
                assert(self.notes().subrange(0, i as int).filter(pred).push(
                    self.notes()[i as int],
                ).map_values(row) =~= self.notes().subrange(0, i as int).filter(pred).map_values(
                    row,
                ).push(row(self.notes()[i as int])));
            }
            let note = self.note_at(i);
            if note.content.target.kind == EntityKind::Dose && note.content.target.id == dose {
                if let Some(d) = self.read_dose(note.content.target.id) {
                    if let Some(st) = self.read_store(d.content.store) {
                        if let Some(m) = self.read_medication(d.content.medication) {
                            out.push(DoseNote {
                                id: note.meta.id,
                                user: note.content.user,
                                content: note.content.content,
                                created: note.meta.created,
                                updated: note.meta.updated,
                                note_table: EntityKind::Dose,
                                note_thing: note.content.target.id,
                                dose_id: d.meta.id,
                                dose_created: d.meta.created,
                                dose_updated: d.meta.updated,
                                dose_quantity: d.content.quantity,
                                medication_id: m.meta.id,
                                medication_name: m.content.name,
                                store_id: st.meta.id,
                                store_production_date: st.content.production_date,
                                store_start_quantity: st.content.quantity,
                                unit: d.content.unit,
                            });
                        }
                    }
                }
            }
            i = i + 1;
        }
        proof {
            assert(self.notes().subrange(0, n as int) =~= self.notes());
        }
        out
    }

    /// Reports every note attached to a medication, joined with the
    /// medication.
    pub fn list_all_medication_notes(&self) -> (r: Vec<MedicationNote>)
        requires
            self.wf(),
        ensures
            r@ == medication_notes_spec(*self),
    {
        let ghost pred = |n: Rec<Note>| medication_note_resolves(*self, n);
        let ghost row = |n: Rec<Note>| medication_note_row(*self, n);
        let n = self.note_count();
        let mut out: Vec<MedicationNote> = Vec::new();
        let mut i: usize = 0;
        proof {
            lemma_filter_all_false(self.notes().subrange(0, 0), pred);
            assert(self.notes().subrange(0, 0).filter(pred).map_values(row) =~= Seq::empty());
        }
        while i < n
            invariant
                self.wf(),
                pred == (|n: Rec<Note>| medication_note_resolves(*self, n)),
                row == (|n: Rec<Note>| medication_note_row(*self, n)),
                n == self.notes().len(),
                i <= n,
                out@ == self.notes().subrange(0, i as int).filter(pred).map_values(row),
            decreases n - i,
        {
            proof {
                assert(self.notes().subrange(0, i + 1) =~= self.notes().subrange(0, i as int).push(
                    self.notes()[i as int],
                ));
                lemma_filter_push(self.notes().subrange(0, i as int), self.notes()[i as int], pred);
                assert(self.notes().subrange(0, i as int).filter(pred).push(
                    self.notes()[i as int],
                ).map_values(row) =~= self.notes().subrange(0, i as int).filter(pred).map_values(
                    row,
                ).push(row(self.notes()[i as int])));
            }
            let note = self.note_at(i);
            if note.content.target.kind == EntityKind::Medication {
                if let Some(m) = self.read_medication(note.content.target.id) {
                    out.push(MedicationNote {
                        id: note.meta.id,
                        user: note.content.user,
                        content: note.content.content,
                        created: note.meta.created,
                        updated: note.meta.updated,
                        note_table: EntityKind::Medication,
                        note_thing: note.content.target.id,
                        medication_id: m.meta.id,
                        medication_name: m.content.name,
                        medication_active: m.content.active,
                    });
                }
            }
            i = i + 1;
        }
        proof {
            assert(self.notes().subrange(0, n as int) =~= self.notes());
        }
        out
    }

    /// Reports the notes attached to one medication, joined with the
    /// medication; a medication with no notes yields an empty list.
    pub fn list_notes_for_medication(&self, medication: u64) -> (r: Vec<MedicationNote>)
        requires
            self.wf(),
        ensures
            r@ == medication_notes_for_spec(*self, medication),
    {
        let ghost pred = |n: Rec<Note>|
            medication_note_resolves(*self, n) && n.content.target.id == medication;
        let ghost row = |n: Rec<Note>| medication_note_row(*self, n);
        let n = self.note_count();
        let mut out: Vec<MedicationNote> = Vec::new();
        let mut i: usize = 0;
        proof {
            lemma_filter_all_false(self.notes().subrange(0, 0), pred);
            assert(self.notes().subrange(0, 0).filter(pred).map_values(row) =~= Seq::empty());
        }
        while i < n
            invariant
                self.wf(),
                pred == (|n: Rec<Note>|
                    medication_note_resolves(*self, n) && n.content.target.id == medication),
                row == (|n: Rec<Note>| medication_note_row(*self, n)),
                n == self.notes().len(),
                i <= n,
                out@ == self.notes().subrange(0, i as int).filter(pred).map_values(row),
            decreases n - i,
        {
            proof {
                assert(self.notes().subrange(0, i + 1) =~= self.notes().subrange(0, i as int).push(
                    self.notes()[i as int],
                ));
                lemma_filter_push(self.notes().subrange(0, i as int), self.notes()[i as int], pred);
                assert(self.notes().subrange(0, i as int).filter(pred).push(
                    self.notes()[i as int],
                ).map_values(row) =~= self.notes().subrange(0, i as int).filter(pred).map_values(
                    row,
                ).push(row(self.notes()[i as int])));
            }
            let note = self.note_at(i);
            if note.content.target.kind == EntityKind::Medication && note.content.target.id
                == medication {
                if let Some(m) = self.read_medication(note.content.target.id) {
                    out.push(MedicationNote {
                        id: note.meta.id,
                        user: note.content.user,
                        content: note.content.content,
                        created: note.meta.created,
                        updated: note.meta.updated,
                        note_table: EntityKind::Medication,
                        note_thing: note.content.target.id,
                        medication_id: m.meta.id,
                        medication_name: m.content.name,
                        medication_active: m.content.active,
                    });
                }
            }
            i = i + 1;
        }
        proof {
            assert(self.notes().subrange(0, n as int) =~= self.notes());
        }
        out
    }

    /// Reports every note attached to an inventory store, joined with the
    /// store and its medication.
    pub fn list_all_store_notes(&self) -> (r: Vec<StoreNote>)
        requires
            self.wf(),
        ensures
            r@ == store_notes_spec(*self),
    {
        let ghost pred = |n: Rec<Note>| store_note_resolves(*self, n);
        let ghost row = |n: Rec<Note>| store_note_row(*self, n);
        let n = self.note_count();
        let mut out: Vec<StoreNote> = Vec::new();
        let mut i: usize = 0;
        proof {
            lemma_filter_all_false(self.notes().subrange(0, 0), pred);
            assert(self.notes().subrange(0, 0).filter(pred).map_values(row) =~= Seq::empty());
        }
        while i < n
            invariant
                self.wf(),
                pred == (|n: Rec<Note>| store_note_resolves(*self, n)),
                row == (|n: Rec<Note>| store_note_row(*self, n)),
                n == self.notes().len(),
                i <= n,
                out@ == self.notes().subrange(0, i as int).filter(pred).map_values(row),
            decreases n - i,
        {
            proof {
                assert(self.notes().subrange(0, i + 1) =~= self.notes().subrange(0, i as int).push(
                    self.notes()[i as int],
                ));
                lemma_filter_push(self.notes().subrange(0, i as int), self.notes()[i as int], pred);
                assert(self.notes().subrange(0, i as int).filter(pred).push(
                    self.notes()[i as int],
                ).map_values(row) =~= self.notes().subrange(0, i as int).filter(pred).map_values(
                    row,
                ).push(row(self.notes()[i as int])));
            }
            let note = self.note_at(i);
            if note.content.target.kind == EntityKind::Store {
                if let Some(st) = self.read_store(note.content.target.id) {
                    if let Some(m) = self.read_medication(st.content.medication) {
                        out.push(StoreNote {
                            id: note.meta.id,
                            user: note.content.user,
                            content: note.content.content,
                            created: note.meta.created,
                            updated: note.meta.updated,
                            note_table: EntityKind::Store,
                            note_thing: note.content.target.id,
                            store_id: st.meta.id,
                            store_active: st.content.active,
                            store_created: st.meta.created,
                            store_updated: st.meta.updated,
                            store_production_date: st.content.production_date,
                            store_start_quantity: st.content.quantity,
                            unit: st.content.unit,
                            medication_id: m.meta.id,
                            medication_name: m.content.name,
                        });
                    }
                }
            }
            i = i + 1;
        }
        proof {
            assert(self.notes().subrange(0, n as int) =~= self.notes());
        }
        out
    }

    /// Reports the notes attached to one inventory store, joined with the
    /// store and its medication; a store with no notes yields an empty list.
    pub fn list_notes_for_store(&self, store: u64) -> (r: Vec<StoreNote>)
        requires
            self.wf(),
        ensures
            r@ == store_notes_for_spec(*self, store),
    {
        let ghost pred = |n: Rec<Note>|
            store_note_resolves(*self, n) && n.content.target.id == store;
        let ghost row = |n: Rec<Note>| store_note_row(*self, n);
        let n = self.note_count();
        let mut out: Vec<StoreNote> = Vec::new();
        let mut i: usize = 0;
        proof {
            lemma_filter_all_false(self.notes().subrange(0, 0), pred);
            assert(self.notes().subrange(0, 0).filter(pred).map_values(row) =~= Seq::empty());
        }
        while i < n
            invariant
                self.wf(),
                pred == (|n: Rec<Note>|
                    store_note_resolves(*self, n) && n.content.target.id == store),
                row == (|n: Rec<Note>| store_note_row(*self, n)),
                n == self.notes().len(),
                i <= n,
                out@ == self.notes().subrange(0, i as int).filter(pred).map_values(row),
            decreases n - i,
        {
            proof {
                assert(self.notes().subrange(0, i + 1) =~= self.notes().subrange(0, i as int).push(
                    self.notes()[i as int],
                ));
                lemma_filter_push(self.notes().subrange(0, i as int), self.notes()[i as int], pred);
                assert(self.notes().subrange(0, i as int).filter(pred).push(
                    self.notes()[i as int],
                ).map_values(row) =~= self.notes().subrange(0, i as int).filter(pred).map_values(
                    row,
                ).push(row(self.notes()[i as int])));
            }
            let note = self.note_at(i);
            if note.content.target.kind == EntityKind::Store && note.content.target.id == store {
                if let Some(st) = self.read_store(note.content.target.id) {
                    if let Some(m) = self.read_medication(st.content.medication) {
                        out.push(StoreNote {
                            id: note.meta.id,
                            user: note.content.user,
                            content: note.content.content,
                            created: note.meta.created,
                            updated: note.meta.updated,
                            note_table: EntityKind::Store,
                            note_thing: note.content.target.id,
                            store_id: st.meta.id,
                            store_active: st.content.active,
                            store_created: st.meta.created,
                            store_updated: st.meta.updated,
                            store_production_date: st.content.production_date,
                            store_start_quantity: st.content.quantity,
                            unit: st.content.unit,
                            medication_id: m.meta.id,
                            medication_name: m.content.name,
                        });
                    }
                }
            }
            i = i + 1;
        }
        proof {
            assert(self.notes().subrange(0, n as int) =~= self.notes());
        }
        out
    }
}

} // verus!
