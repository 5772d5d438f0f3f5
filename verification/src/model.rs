//! The entity model.
//!
//! Every entity is a plain record of values. References between entities are
//! carried as the identifier of the referenced record; a note points at any
//! entity through a typed [`TargetRef`]. Identifiers and timestamps are
//! assigned by the data store, not by the caller, so the types here describe
//! only the caller-supplied content.

use vstd::prelude::*;

verus! {

/// The kinds of entity the store keeps; a note names one of these as the kind
/// of its target.
#[derive(Clone, Copy, PartialEq, Eq, Structural, Debug)]
pub enum EntityKind {
    Medication,
    Store,
    Dose,
    Reminder,
    Note,
    UnitOfMeasure,
    User,
}

/// A typed polymorphic reference: the kind of the entity pointed at together
/// with its identifier.
#[derive(Clone, Copy, PartialEq, Eq, Structural, Debug)]
pub struct TargetRef {
    pub kind: EntityKind,
    pub id: u64,
}

/// A decimal-precision quantity, kept exactly as a whole number of
/// thousandths of a unit.
#[derive(Clone, Copy, PartialEq, Eq, Structural, Debug)]
pub struct Quantity {
    pub thousandths: u64,
}

impl Quantity {
    /// The quantity of `whole` units.
    pub fn from_whole(whole: u64) -> (q: Quantity)
        requires
            whole * 1000 <= u64::MAX,
        ensures
            q.thousandths == whole * 1000,
    {
        Quantity { thousandths: whole * 1000 }
    }

    /// The number of whole units, rounded towards zero.
    pub fn whole_units(&self) -> (w: u64)
        ensures
            w == self.thousandths / 1000,
    {
        self.thousandths / 1000
    }
}

/// A medication owned by a user; its name obeys the validation rules.
#[derive(Debug, PartialEq, Eq)]
pub struct Medication {
    pub user: u64,
    pub name: String,
    pub active: bool,
}

/// An inventory lot of a medication: a received batch with quantity,
/// expiration tracking and a lot number.
#[derive(Debug, PartialEq, Eq)]
pub struct Store {
    pub user: u64,
    pub medication: u64,
    pub production_date: u64,
    pub expiration_date: Option<u64>,
    pub lot_number: String,
    pub quantity: Quantity,
    pub unit: String,
    pub active: bool,
}

/// A recorded dose taken from a store of a medication.
#[derive(Debug, PartialEq, Eq)]
pub struct Dose {
    pub user: u64,
    pub medication: u64,
    pub store: u64,
    pub quantity: Quantity,
    pub unit: String,
}

/// A scheduled reminder definition for a medication. The days of the week
/// and the times of day are carried as encoded strings, as the client sends
/// them.
#[derive(Debug, PartialEq, Eq)]
pub struct Reminder {
    pub user: u64,
    pub medication: u64,
    pub start: u64,
    pub end: u64,
    pub days: String,
    pub times: String,
    pub active: bool,
}

/// A free-text note attached to any entity through a typed reference.
#[derive(Debug, PartialEq, Eq)]
pub struct Note {
    pub user: u64,
    pub target: TargetRef,
    pub content: String,
}

/// A unit of measure offered to clients for medications and doses.
#[derive(Debug, PartialEq, Eq)]
pub struct UnitOfMeasure {
    pub name: String,
    pub abbreviation: String,
    pub active: bool,
}

impl Clone for Medication {
    /// An equal copy of the record content.
    fn clone(&self) -> (r: Self)
        ensures
            r == *self,
    {
        Medication { user: self.user, name: self.name.clone(), active: self.active }
    }
}

impl Clone for Store {
    /// An equal copy of the record content.
    fn clone(&self) -> (r: Self)
        ensures
            r == *self,
    {
        Store {
            user: self.user,
            medication: self.medication,
            production_date: self.production_date,
            expiration_date: self.expiration_date,
            lot_number: self.lot_number.clone(),
            quantity: self.quantity,
            unit: self.unit.clone(),
            active: self.active,
        }
    }
}

impl Clone for Dose {
    /// An equal copy of the record content.
    fn clone(&self) -> (r: Self)
        ensures
            r == *self,
    {
        Dose {
            user: self.user,
            medication: self.medication,
            store: self.store,
            quantity: self.quantity,
            unit: self.unit.clone(),
        }
    }
}

impl Clone for Reminder {
    /// An equal copy of the record content.
    fn clone(&self) -> (r: Self)
        ensures
            r == *self,
    {
        Reminder {
            user: self.user,
            medication: self.medication,
            start: self.start,
            end: self.end,
            days: self.days.clone(),
            times: self.times.clone(),
            active: self.active,
        }
    }
}

impl Clone for Note {
    /// An equal copy of the record content.
    fn clone(&self) -> (r: Self)
        ensures
            r == *self,
    {
        Note { user: self.user, target: self.target, content: self.content.clone() }
    }
}

impl Clone for UnitOfMeasure {
    /// An equal copy of the record content.
    fn clone(&self) -> (r: Self)
        ensures
            r == *self,
    {
        UnitOfMeasure {
            name: self.name.clone(),
            abbreviation: self.abbreviation.clone(),
            active: self.active,
        }
    }
}

/// A status filter for medication queries: the user whose records are asked
/// for, and optionally a single record and an active-flag value.
#[derive(Debug, PartialEq, Eq)]
pub struct MedicationBool {
    pub active: Option<bool>,
    pub id: Option<u64>,
    pub user: u64,
}

/// A medication identifier carried in a request body rather than in the path.
#[derive(Debug, PartialEq, Eq)]
pub struct MedicationId {
    pub id: String,
}

impl MedicationId {
    /// The identifier as an owned string.
    pub fn get_string(&self) -> (r: String)
        ensures
            r@ == self.id@,
    {
        self.id.clone()
    }
}

} // verus!
