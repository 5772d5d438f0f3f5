//! The data-operations contract: an in-memory document store over the entity
//! model.
//!
//! Each entity lives in its own table of records. The store assigns every
//! record a fresh identifier and creation / last-update stamps from a logical
//! clock; the identifier is the sole lookup key for read, update and delete.
//! A read of an absent identifier yields an absent value, not an error;
//! update replaces stored content without creating; delete removes
//! unconditionally and returns the last-known content. Every operation
//! touches exactly one table.

use vstd::prelude::*;
use crate::error::Error;
use crate::model::{Medication, Store, Dose, Reminder, Note, UnitOfMeasure, EntityKind, MedicationId};
use crate::ident::{parse_id, parse_spec};
use crate::validation::{is_valid, valid_name};

verus! {

/// Store-assigned bookkeeping of a record: its identifier and its creation
/// and last-update stamps from the store's logical clock.
#[derive(Clone, Copy, PartialEq, Eq, Structural, Debug)]
pub struct Meta {
    pub id: u64,
    pub created: u64,
    pub updated: u64,
}

/// A stored record: the store-assigned meta data plus the caller's content.
#[derive(Debug, PartialEq, Eq)]
pub struct Rec<T> {
    pub meta: Meta,
    pub content: T,
}

/// The table holds a record with identifier `id`.
pub open spec fn contains_id<T>(s: Seq<Rec<T>>, id: u64) -> bool {
    exists|i: int| 0 <= i < s.len() && (#[trigger] s[i]).meta.id == id
}

/// The position of the record with identifier `id` (meaningful only when the
/// table holds one).
pub open spec fn idx_of<T>(s: Seq<Rec<T>>, id: u64) -> int {
    choose|i: int| 0 <= i < s.len() && (#[trigger] s[i]).meta.id == id
}

/// The record with identifier `id`, when the table holds one.
pub open spec fn find_rec<T>(s: Seq<Rec<T>>, id: u64) -> Option<Rec<T>> {
    if contains_id(s, id) {
        Some(s[idx_of(s, id)])
    } else {
        None
    }
}

/// The identifiers of a table are pairwise distinct.
pub open spec fn distinct_ids<T>(s: Seq<Rec<T>>) -> bool {
    forall|i: int, j: int|
        0 <= i < j < s.len() ==> (#[trigger] s[i]).meta.id != (#[trigger] s[j]).meta.id
}

/// A well-formed table: distinct identifiers, all below the store's next
/// fresh identifier, and stamps no later than the store's clock.
pub open spec fn table_wf<T>(s: Seq<Rec<T>>, id_bound: u64, clock: u64) -> bool {
    &&& distinct_ids(s)
    &&& forall|i: int| 0 <= i < s.len() ==> (#[trigger] s[i]).meta.id < id_bound
    &&& forall|i: int|
        0 <= i < s.len() ==> (#[trigger] s[i]).meta.created <= s[i].meta.updated <= clock
}

/// In a table with distinct identifiers, looking up the identifier of the
/// record at position `i` yields exactly that record.
pub proof fn lemma_find_hit<T>(s: Seq<Rec<T>>, i: int)
    requires
        distinct_ids(s),
        0 <= i < s.len(),
    ensures
        find_rec(s, s[i].meta.id) == Some(s[i]),
        idx_of(s, s[i].meta.id) == i,
{
    assert(contains_id(s, s[i].meta.id));
    let j = idx_of(s, s[i].meta.id);
    if i < j {
        assert(s[i].meta.id != s[j].meta.id);
    } else if j < i {
        assert(s[j].meta.id != s[i].meta.id);
    }
}

/// Looking up an identifier that no record of the table carries yields
/// absent.
pub proof fn lemma_find_miss<T>(s: Seq<Rec<T>>, id: u64)
    requires
        forall|i: int| 0 <= i < s.len() ==> (#[trigger] s[i]).meta.id != id,
    ensures
        find_rec(s, id) is None,
{
    if contains_id(s, id) {
        let i = idx_of(s, id);
        assert(s[i].meta.id != id);
    }
}

/// A table whose identifiers all lie below `bound` holds no record with
/// identifier `bound`.
proof fn lemma_fresh_not_contained<T>(s: Seq<Rec<T>>, bound: u64)
    requires
        forall|i: int| 0 <= i < s.len() ==> (#[trigger] s[i]).meta.id < bound,
    ensures
        !contains_id(s, bound),
{
    if contains_id(s, bound) {
        let i = idx_of(s, bound);
        assert(s[i].meta.id < bound);
    }
}

/// A well-formed table stays well-formed when the identifier bound and the
/// clock grow.
proof fn lemma_table_grow<T>(s: Seq<Rec<T>>, b1: u64, c1: u64, b2: u64, c2: u64)
    requires
        table_wf(s, b1, c1),
        b1 <= b2,
        c1 <= c2,
    ensures
        table_wf(s, b2, c2),
{
}

/// Appending a record carrying the old identifier bound as its identifier
/// keeps the table well-formed under a strictly larger bound.
proof fn lemma_table_push<T>(s: Seq<Rec<T>>, rec: Rec<T>, b1: u64, c1: u64, b2: u64, c2: u64)
    requires
        table_wf(s, b1, c1),
        rec.meta.id == b1,
        b1 < b2,
        c1 <= c2,
        rec.meta.created <= rec.meta.updated <= c2,
    ensures
        table_wf(s.push(rec), b2, c2),
{
    let t = s.push(rec);
    assert forall|i: int, j: int| 0 <= i < j < t.len() implies (#[trigger] t[i]).meta.id != (
    #[trigger] t[j]).meta.id by {
        if j == s.len() {
            assert(t[i] == s[i]);
        } else {
            assert(t[i] == s[i] && t[j] == s[j]);
        }
    }
    assert forall|i: int| 0 <= i < t.len() implies (#[trigger] t[i]).meta.id < b2 by {
        if i < s.len() {
            assert(t[i] == s[i]);
        }
    }
    assert forall|i: int| 0 <= i < t.len() implies (#[trigger] t[i]).meta.created
        <= t[i].meta.updated <= c2 by {
        if i < s.len() {
            assert(t[i] == s[i]);
        }
    }
}

/// Replacing the record at position `i` with one carrying the same
/// identifier keeps the table well-formed.
proof fn lemma_table_update<T>(s: Seq<Rec<T>>, i: int, rec: Rec<T>, b: u64, c1: u64, c2: u64)
    requires
        table_wf(s, b, c1),
        0 <= i < s.len(),
        rec.meta.id == s[i].meta.id,
        c1 <= c2,
        rec.meta.created <= rec.meta.updated <= c2,
    ensures
        table_wf(s.update(i, rec), b, c2),
{
    let t = s.update(i, rec);
    assert forall|p: int, q: int| 0 <= p < q < t.len() implies (#[trigger] t[p]).meta.id != (
    #[trigger] t[q]).meta.id by {
        assert(s[p].meta.id != s[q].meta.id);
    }
}

/// Removing a record keeps the table well-formed.
proof fn lemma_table_remove<T>(s: Seq<Rec<T>>, i: int, b: u64, c: u64)
    requires
        table_wf(s, b, c),
        0 <= i < s.len(),
    ensures
        table_wf(s.remove(i), b, c),
{
    let t = s.remove(i);
    assert forall|p: int, q: int| 0 <= p < q < t.len() implies (#[trigger] t[p]).meta.id != (
    #[trigger] t[q]).meta.id by {
        let p0 = if p < i {
            p
        } else {
            p + 1
        };
        let q0 = if q < i {
            q
        } else {
            q + 1
        };
        assert(t[p] == s[p0] && t[q] == s[q0]);
        assert(s[p0].meta.id != s[q0].meta.id);
    }
    assert forall|p: int| 0 <= p < t.len() implies (#[trigger] t[p]).meta.id < b && t[p].meta.created
        <= t[p].meta.updated <= c by {
        let p0 = if p < i {
            p
        } else {
            p + 1
        };
        assert(t[p] == s[p0]);
    }
}

/// Appending an element to a sequence filters to the old result, extended by
/// the element exactly when it satisfies the predicate.
pub proof fn lemma_filter_push<T>(s: Seq<T>, x: T, pred: spec_fn(T) -> bool)
    ensures
        s.push(x).filter(pred) == if pred(x) {
            s.filter(pred).push(x)
        } else {
            s.filter(pred)
        },
{
    reveal(Seq::filter);
    assert(s.push(x).drop_last() =~= s);
}

/// The in-memory document store: one table per entity kind, a fresh-identifier
/// counter and a logical clock for the stamps.
pub struct Datastore {
    next_id: u64,
    clock: u64,
    medications: Vec<Rec<Medication>>,
    stores: Vec<Rec<Store>>,
    doses: Vec<Rec<Dose>>,
    reminders: Vec<Rec<Reminder>>,
    notes: Vec<Rec<Note>>,
    units: Vec<Rec<UnitOfMeasure>>,
}

impl Datastore {
    /// The medication table.
    pub closed spec fn medications(&self) -> Seq<Rec<Medication>> {
        self.medications@
    }

    /// The inventory-store table.
    pub closed spec fn stores(&self) -> Seq<Rec<Store>> {
        self.stores@
    }

    /// The dose table.
    pub closed spec fn doses(&self) -> Seq<Rec<Dose>> {
        self.doses@
    }

    /// The reminder table.
    pub closed spec fn reminders(&self) -> Seq<Rec<Reminder>> {
        self.reminders@
    }

    /// The note table.
    pub closed spec fn notes(&self) -> Seq<Rec<Note>> {
        self.notes@
    }

    /// The unit-of-measure table.
    pub closed spec fn units(&self) -> Seq<Rec<UnitOfMeasure>> {
        self.units@
    }

    /// The store's logical clock.
    pub closed spec fn now(&self) -> u64 {
        self.clock
    }

    /// The identifier the next created record will carry.
    pub closed spec fn fresh_id(&self) -> u64 {
        self.next_id
    }

    /// Whether the identifier space is not yet exhausted.
    pub closed spec fn can_insert(&self) -> bool {
        self.next_id < u64::MAX
    }

    /// The store's invariant: every table is well-formed under the shared
    /// identifier bound and clock.
    pub closed spec fn wf(&self) -> bool {
        &&& table_wf(self.medications@, self.next_id, self.clock)
        &&& table_wf(self.stores@, self.next_id, self.clock)
        &&& table_wf(self.doses@, self.next_id, self.clock)
        &&& table_wf(self.reminders@, self.next_id, self.clock)
        &&& table_wf(self.notes@, self.next_id, self.clock)
        &&& table_wf(self.units@, self.next_id, self.clock)
    }

    /// The invariant seen from outside: every table carries pairwise distinct
    /// identifiers.
    pub proof fn lemma_wf_tables(&self)
        requires
            self.wf(),
        ensures
            distinct_ids(self.medications()),
            distinct_ids(self.stores()),
            distinct_ids(self.doses()),
            distinct_ids(self.reminders()),
            distinct_ids(self.notes()),
            distinct_ids(self.units()),
    {
    }

    /// An empty store.
    pub fn new() -> (s: Datastore)
        ensures
            s.wf(),
            s.medications() == Seq::<Rec<Medication>>::empty(),
            s.stores() == Seq::<Rec<Store>>::empty(),
            s.doses() == Seq::<Rec<Dose>>::empty(),
            s.reminders() == Seq::<Rec<Reminder>>::empty(),
            s.notes() == Seq::<Rec<Note>>::empty(),
            s.units() == Seq::<Rec<UnitOfMeasure>>::empty(),
            s.can_insert(),
            s.now() == 0,
    {
        let s = Datastore {
            next_id: 0,
            clock: 0,
            medications: Vec::new(),
            stores: Vec::new(),
            doses: Vec::new(),
            reminders: Vec::new(),
            notes: Vec::new(),
            units: Vec::new(),
        };
        proof {
            assert(s.medications@ =~= Seq::<Rec<Medication>>::empty());
            assert(s.stores@ =~= Seq::<Rec<Store>>::empty());
            assert(s.doses@ =~= Seq::<Rec<Dose>>::empty());
            assert(s.reminders@ =~= Seq::<Rec<Reminder>>::empty());
            assert(s.notes@ =~= Seq::<Rec<Note>>::empty());
            assert(s.units@ =~= Seq::<Rec<UnitOfMeasure>>::empty());
        }
        s
    }

    /// Advances the logical clock, holding at the top of its range.
    fn tick(&mut self)
        ensures
            old(self).clock <= final(self).clock <= u64::MAX,
            final(self).clock as int == if old(self).clock < u64::MAX {
                old(self).clock + 1
            } else {
                old(self).clock as int
            },
            final(self).next_id == old(self).next_id,
            final(self).medications@ == old(self).medications@,
            final(self).stores@ == old(self).stores@,
            final(self).doses@ == old(self).doses@,
            final(self).reminders@ == old(self).reminders@,
            final(self).notes@ == old(self).notes@,
            final(self).units@ == old(self).units@,
    {
        if self.clock < u64::MAX {
            self.clock = self.clock + 1;
        }
    }
}

impl Datastore {
    /// Builds the validation error reported for an invalid medication name.
    fn name_error() -> (e: Error)
        ensures
            e is UnprocessableEntity,
    {
        let mut pairs: Vec<(String, String)> = Vec::new();
        pairs.push(
            (String::from_str("name"), String::from_str("medication name is not valid")),
        );
        Error::unprocessable_entity(pairs)
    }

    /// Creates a medication: validates the name, assigns a fresh identifier
    /// and stamps, appends the record and returns it.
    pub fn create_medication(&mut self, m: Medication) -> (r: Result<Rec<Medication>, Error>)
        requires
            old(self).wf(),
        ensures
            final(self).wf(),
            valid_name(m.name@) && old(self).can_insert() ==> r is Ok,
            (match r {
                Ok(rec) => {
                    &&& valid_name(m.name@)
                    &&& old(self).can_insert()
                    &&& rec.content == m
                    &&& rec.meta.id == old(self).fresh_id()
                    &&& !contains_id(old(self).medications(), rec.meta.id)
                    &&& rec.meta.created == rec.meta.updated
                    &&& final(self).medications() == old(self).medications().push(rec)
                    &&& final(self).fresh_id() > old(self).fresh_id()
                    &&& tables_unchanged_except(*old(self), *final(self), EntityKind::Medication)
                },
                Err(e) => {
                    &&& *final(self) == *old(self)
                    &&& (e is UnprocessableEntity <==> !valid_name(m.name@))
                    &&& (e is Db <==> valid_name(m.name@) && !old(self).can_insert())
                    &&& (e is UnprocessableEntity || e is Db)
                },
            }),
    {
        if !is_valid(self.medication_name_of(&m)) {
            return Err(Self::name_error());
        }
        if self.next_id == u64::MAX {
            return Err(Error::Db);
        }
        proof {
            lemma_fresh_not_contained(self.medications@, self.next_id);
        }
        let ghost pre = *self;
        let id = self.next_id;
        self.next_id = self.next_id + 1;
        self.tick();
        let meta = Meta { id, created: self.clock, updated: self.clock };
        let stored = Rec { meta, content: m.clone() };
        self.medications.push(stored);
        proof {
            let rec = Rec { meta, content: m };
            assert(self.medications@ =~= pre.medications@.push(rec));
            lemma_table_push(pre.medications@, rec, pre.next_id, pre.clock, self.next_id, self.clock);
            lemma_table_grow(pre.stores@, pre.next_id, pre.clock, self.next_id, self.clock);
            lemma_table_grow(pre.doses@, pre.next_id, pre.clock, self.next_id, self.clock);
            lemma_table_grow(pre.reminders@, pre.next_id, pre.clock, self.next_id, self.clock);
            lemma_table_grow(pre.notes@, pre.next_id, pre.clock, self.next_id, self.clock);
            lemma_table_grow(pre.units@, pre.next_id, pre.clock, self.next_id, self.clock);
        }
        Ok(Rec { meta, content: m })
    }

    /// A borrow of a medication's name, for validation.
    fn medication_name_of<'a>(&self, m: &'a Medication) -> (r: &'a str)
        ensures
            r@ == m.name@,
    {
        m.name.as_str()
    }

    /// Reads the medication with the given identifier, or absent when the
    /// store holds none.
    pub fn read_medication(&self, id: u64) -> (r: Option<Rec<Medication>>)
        requires
            self.wf(),
        ensures
            r == find_rec(self.medications(), id),
    {
        let n = self.medications.len();
        let mut i: usize = 0;
        while i < n
            invariant
                self.wf(),
                n == self.medications@.len(),
                i <= n,
                forall|p: int| 0 <= p < i ==> (#[trigger] self.medications@[p]).meta.id != id,
            decreases n - i,
        {
            if self.medications[i].meta.id == id {
                proof {
                    lemma_find_hit(self.medications@, i as int);
                }
                let rec = &self.medications[i];
                return Some(Rec { meta: rec.meta, content: rec.content.clone() });
            }
            i = i + 1;
        }
        proof {
            lemma_find_miss(self.medications@, id);
        }
        None
    }

    /// Replaces the content stored at the given identifier: validates the
    /// name, keeps the creation stamp, renews the update stamp, and returns
    /// the updated record; absent when no record carries the identifier (no
    /// implicit creation).
    pub fn update_medication(&mut self, id: u64, m: Medication) -> (r: Result<
        Option<Rec<Medication>>,
        Error,
    >)
        requires
            old(self).wf(),
        ensures
            final(self).wf(),
            valid_name(m.name@) ==> r is Ok,
            (match r {
                Ok(opt) => {
                    &&& valid_name(m.name@)
                    &&& (match opt {
                        Some(rec) => {
                            &&& contains_id(old(self).medications(), id)
                            &&& rec.meta.id == id
                            &&& rec.content == m
                            &&& rec.meta.created == old(self).medications()[idx_of(
                                old(self).medications(),
                                id,
                            )].meta.created
                            &&& rec.meta.created <= rec.meta.updated
                            &&& final(self).medications() == old(self).medications().update(
                                idx_of(old(self).medications(), id),
                                rec,
                            )
                            &&& tables_unchanged_except(
                                *old(self),
                                *final(self),
                                EntityKind::Medication,
                            )
                        },
                        None => {
                            &&& !contains_id(old(self).medications(), id)
                            &&& *final(self) == *old(self)
                        },
                    })
                },
                Err(e) => {
                    &&& !valid_name(m.name@)
                    &&& e is UnprocessableEntity
                    &&& *final(self) == *old(self)
                },
            }),
    {
        if !is_valid(self.medication_name_of(&m)) {
            return Err(Self::name_error());
        }
        let n = self.medications.len();
        let mut i: usize = 0;
        while i < n
            invariant
                *self == *old(self),
                self.wf(),
                valid_name(m.name@),
                n == self.medications@.len(),
                i <= n,
                forall|p: int| 0 <= p < i ==> (#[trigger] self.medications@[p]).meta.id != id,
            decreases n - i,
        {
            if self.medications[i].meta.id == id {
                proof {
                    lemma_find_hit(self.medications@, i as int);
                }
                let ghost pre = *self;
                let created = self.medications[i].meta.created;
                self.tick();
                let meta = Meta { id, created, updated: self.clock };
                let stored = Rec { meta, content: m.clone() };
                self.medications[i] = stored;
                proof {
                    let rec = Rec { meta, content: m };
                    assert(self.medications@ =~= pre.medications@.update(i as int, rec));
                    lemma_table_update(
                        pre.medications@,
                        i as int,
                        rec,
                        pre.next_id,
                        pre.clock,
                        self.clock,
                    );
                    lemma_table_grow(pre.stores@, pre.next_id, pre.clock, self.next_id, self.clock);
                    lemma_table_grow(pre.doses@, pre.next_id, pre.clock, self.next_id, self.clock);
                    lemma_table_grow(
                        pre.reminders@,
                        pre.next_id,
                        pre.clock,
                        self.next_id,
                        self.clock,
                    );
                    lemma_table_grow(pre.notes@, pre.next_id, pre.clock, self.next_id, self.clock);
                    lemma_table_grow(pre.units@, pre.next_id, pre.clock, self.next_id, self.clock);
                }
                return Ok(Some(Rec { meta, content: m }));
            }
            i = i + 1;
        }
        proof {
            lemma_find_miss(self.medications@, id);
        }
        Ok(None)
    }

    /// Removes the record at the given identifier unconditionally and returns
    /// its last-known content; absent when no record carries the identifier.
    pub fn delete_medication(&mut self, id: u64) -> (r: Option<Rec<Medication>>)
        requires
            old(self).wf(),
        ensures
            final(self).wf(),
            (match r {
                Some(rec) => {
                    &&& find_rec(old(self).medications(), id) == Some(rec)
                    &&& final(self).medications() == old(self).medications().remove(
                        idx_of(old(self).medications(), id),
                    )
                    &&& tables_unchanged_except(*old(self), *final(self), EntityKind::Medication)
                },
                None => {
                    &&& !contains_id(old(self).medications(), id)
                    &&& *final(self) == *old(self)
                },
            }),
    {
        let n = self.medications.len();
        let mut i: usize = 0;
        while i < n
            invariant
                *self == *old(self),
                self.wf(),
                n == self.medications@.len(),
                i <= n,
                forall|p: int| 0 <= p < i ==> (#[trigger] self.medications@[p]).meta.id != id,
            decreases n - i,
        {
            if self.medications[i].meta.id == id {
                proof {
                    lemma_find_hit(self.medications@, i as int);
                    lemma_table_remove(self.medications@, i as int, self.next_id, self.clock);
                }
                let rec = self.medications.remove(i);
                return Some(rec);
            }
            i = i + 1;
        }
        proof {
            lemma_find_miss(self.medications@, id);
        }
        None
    }

    /// Lists every medication record, in insertion order.
    pub fn list_medications(&self) -> (r: Vec<Rec<Medication>>)
        ensures
            r@ == self.medications(),
    {
        let n = self.medications.len();
        let mut out: Vec<Rec<Medication>> = Vec::new();
        let mut i: usize = 0;
        while i < n
            invariant
                n == self.medications@.len(),
                i <= n,
                out@ == self.medications@.subrange(0, i as int),
            decreases n - i,
        {
            let rec = &self.medications[i];
            out.push(Rec { meta: rec.meta, content: rec.content.clone() });
            proof {
                assert(self.medications@.subrange(0, i + 1) =~= self.medications@.subrange(
                    0,
                    i as int,
                ).push(self.medications@[i as int]));
            }
            i = i + 1;
        }
        proof {
            assert(self.medications@.subrange(0, n as int) =~= self.medications@);
        }
        out
    }
}


impl Datastore {
    /// Creates an inventory store: assigns a fresh identifier and stamps, appends the
    /// record and returns it; fails only when the identifier space is
    /// exhausted.
    pub fn create_store(&mut self, c: Store) -> (r: Result<Rec<Store>, Error>)
        requires
            old(self).wf(),
        ensures
            final(self).wf(),
            old(self).can_insert() ==> r is Ok,
            (match r {
                Ok(rec) => {
                    &&& old(self).can_insert()
                    &&& rec.content == c
                    &&& rec.meta.id == old(self).fresh_id()
                    &&& !contains_id(old(self).stores(), rec.meta.id)
                    &&& rec.meta.created == rec.meta.updated
                    &&& final(self).stores() == old(self).stores().push(rec)
                    &&& final(self).fresh_id() > old(self).fresh_id()
                    &&& tables_unchanged_except(*old(self), *final(self), EntityKind::Store)
                },
                Err(e) => {
                    &&& !old(self).can_insert()
                    &&& e is Db
                    &&& *final(self) == *old(self)
                },
            }),
    {
        if self.next_id == u64::MAX {
            return Err(Error::Db);
        }
        proof {
            lemma_fresh_not_contained(self.stores@, self.next_id);
        }
        let ghost pre = *self;
        let id = self.next_id;
        self.next_id = self.next_id + 1;
        self.tick();
        let meta = Meta { id, created: self.clock, updated: self.clock };
        let stored = Rec { meta, content: c.clone() };
        self.stores.push(stored);
        proof {
            let rec = Rec { meta, content: c };
            assert(self.stores@ =~= pre.stores@.push(rec));
            lemma_table_push(pre.stores@, rec, pre.next_id, pre.clock, self.next_id, self.clock);
            lemma_table_grow(pre.medications@, pre.next_id, pre.clock, self.next_id, self.clock);
            lemma_table_grow(pre.doses@, pre.next_id, pre.clock, self.next_id, self.clock);
            lemma_table_grow(pre.reminders@, pre.next_id, pre.clock, self.next_id, self.clock);
            lemma_table_grow(pre.notes@, pre.next_id, pre.clock, self.next_id, self.clock);
            lemma_table_grow(pre.units@, pre.next_id, pre.clock, self.next_id, self.clock);
        }
        Ok(Rec { meta, content: c })
    }

    /// Reads the record of an inventory store with the given identifier, or absent when
    /// the store holds none.
    pub fn read_store(&self, id: u64) -> (r: Option<Rec<Store>>)
        requires
            self.wf(),
        ensures
            r == find_rec(self.stores(), id),
    {
        let n = self.stores.len();
        let mut i: usize = 0;
        while i < n
            invariant
                self.wf(),
                n == self.stores@.len(),
                i <= n,
                forall|p: int| 0 <= p < i ==> (#[trigger] self.stores@[p]).meta.id != id,
            decreases n - i,
        {
            if self.stores[i].meta.id == id {
                proof {
                    lemma_find_hit(self.stores@, i as int);
                }
                let rec = &self.stores[i];
                return Some(Rec { meta: rec.meta, content: rec.content.clone() });
            }
            i = i + 1;
        }
        proof {
            lemma_find_miss(self.stores@, id);
        }
        None
    }

    /// Replaces the content stored at the given identifier, keeping the
    /// creation stamp and renewing the update stamp, and returns the updated
    /// record; absent when no record carries the identifier (no implicit
    /// creation).
    pub fn update_store(&mut self, id: u64, c: Store) -> (r: Option<Rec<Store>>)
        requires
            old(self).wf(),
        ensures
            final(self).wf(),
            (match r {
                Some(rec) => {
                    &&& contains_id(old(self).stores(), id)
                    &&& rec.meta.id == id
                    &&& rec.content == c
                    &&& rec.meta.created == old(self).stores()[idx_of(
                        old(self).stores(),
                        id,
                    )].meta.created
                    &&& rec.meta.created <= rec.meta.updated
                    &&& final(self).stores() == old(self).stores().update(
                        idx_of(old(self).stores(), id),
                        rec,
                    )
                    &&& tables_unchanged_except(*old(self), *final(self), EntityKind::Store)
                },
                None => {
                    &&& !contains_id(old(self).stores(), id)
                    &&& *final(self) == *old(self)
                },
            }),
    {
        let n = self.stores.len();
        let mut i: usize = 0;
        while i < n
            invariant
                *self == *old(self),
                self.wf(),
                n == self.stores@.len(),
                i <= n,
                forall|p: int| 0 <= p < i ==> (#[trigger] self.stores@[p]).meta.id != id,
            decreases n - i,
        {
            if self.stores[i].meta.id == id {
                proof {
                    lemma_find_hit(self.stores@, i as int);
                }
                let ghost pre = *self;
                let created = self.stores[i].meta.created;
                self.tick();
                let meta = Meta { id, created, updated: self.clock };
                let stored = Rec { meta, content: c.clone() };
                self.stores[i] = stored;
                proof {
                    let rec = Rec { meta, content: c };
                    assert(self.stores@ =~= pre.stores@.update(i as int, rec));
                    lemma_table_update(
                        pre.stores@,
                        i as int,
                        rec,
                        pre.next_id,
                        pre.clock,
                        self.clock,
                    );
            lemma_table_grow(pre.medications@, pre.next_id, pre.clock, self.next_id, self.clock);
            lemma_table_grow(pre.doses@, pre.next_id, pre.clock, self.next_id, self.clock);
            lemma_table_grow(pre.reminders@, pre.next_id, pre.clock, self.next_id, self.clock);
            lemma_table_grow(pre.notes@, pre.next_id, pre.clock, self.next_id, self.clock);
            lemma_table_grow(pre.units@, pre.next_id, pre.clock, self.next_id, self.clock);
                }
                return Some(Rec { meta, content: c });
            }
            i = i + 1;
        }
        proof {
            lemma_find_miss(self.stores@, id);
        }
        None
    }

    /// Removes the record at the given identifier unconditionally and returns
    /// its last-known content; absent when no record carries the identifier.
    pub fn delete_store(&mut self, id: u64) -> (r: Option<Rec<Store>>)
        requires
            old(self).wf(),
        ensures
            final(self).wf(),
            (match r {
                Some(rec) => {
                    &&& find_rec(old(self).stores(), id) == Some(rec)
                    &&& final(self).stores() == old(self).stores().remove(
                        idx_of(old(self).stores(), id),
                    )
                    &&& tables_unchanged_except(*old(self), *final(self), EntityKind::Store)
                },
                None => {
                    &&& !contains_id(old(self).stores(), id)
                    &&& *final(self) == *old(self)
                },
            }),
    {
        let n = self.stores.len();
        let mut i: usize = 0;
        while i < n
            invariant
                *self == *old(self),
                self.wf(),
                n == self.stores@.len(),
                i <= n,
                forall|p: int| 0 <= p < i ==> (#[trigger] self.stores@[p]).meta.id != id,
            decreases n - i,
        {
            if self.stores[i].meta.id == id {
                proof {
                    lemma_find_hit(self.stores@, i as int);
                    lemma_table_remove(self.stores@, i as int, self.next_id, self.clock);
                }
                let rec = self.stores.remove(i);
                return Some(rec);
            }
            i = i + 1;
        }
        proof {
            lemma_find_miss(self.stores@, id);
        }
        None
    }

    /// Lists every record of the table, in insertion order.
    pub fn list_stores(&self) -> (r: Vec<Rec<Store>>)
        ensures
            r@ == self.stores(),
    {
        let n = self.stores.len();
        let mut out: Vec<Rec<Store>> = Vec::new();
        let mut i: usize = 0;
        while i < n
            invariant
                n == self.stores@.len(),
                i <= n,
                out@ == self.stores@.subrange(0, i as int),
            decreases n - i,
        {
            let rec = &self.stores[i];
            out.push(Rec { meta: rec.meta, content: rec.content.clone() });
            proof {
                assert(self.stores@.subrange(0, i + 1) =~= self.stores@.subrange(
                    0,
                    i as int,
                ).push(self.stores@[i as int]));
            }
            i = i + 1;
        }
        proof {
            assert(self.stores@.subrange(0, n as int) =~= self.stores@);
        }
        out
    }
}

impl Datastore {
    /// Creates a dose: assigns a fresh identifier and stamps, appends the
    /// record and returns it; fails only when the identifier space is
    /// exhausted.
    pub fn create_dose(&mut self, c: Dose) -> (r: Result<Rec<Dose>, Error>)
        requires
            old(self).wf(),
        ensures
            final(self).wf(),
            old(self).can_insert() ==> r is Ok,
            (match r {
                Ok(rec) => {
                    &&& old(self).can_insert()
                    &&& rec.content == c
                    &&& rec.meta.id == old(self).fresh_id()
                    &&& !contains_id(old(self).doses(), rec.meta.id)
                    &&& rec.meta.created == rec.meta.updated
                    &&& final(self).doses() == old(self).doses().push(rec)
                    &&& final(self).fresh_id() > old(self).fresh_id()
                    &&& tables_unchanged_except(*old(self), *final(self), EntityKind::Dose)
                },
                Err(e) => {
                    &&& !old(self).can_insert()
                    &&& e is Db
                    &&& *final(self) == *old(self)
                },
            }),
    {
        if self.next_id == u64::MAX {
            return Err(Error::Db);
        }
        proof {
            lemma_fresh_not_contained(self.doses@, self.next_id);
        }
        let ghost pre = *self;
        let id = self.next_id;
        self.next_id = self.next_id + 1;
        self.tick();
        let meta = Meta { id, created: self.clock, updated: self.clock };
        let stored = Rec { meta, content: c.clone() };
        self.doses.push(stored);
        proof {
            let rec = Rec { meta, content: c };
            assert(self.doses@ =~= pre.doses@.push(rec));
            lemma_table_push(pre.doses@, rec, pre.next_id, pre.clock, self.next_id, self.clock);
            lemma_table_grow(pre.medications@, pre.next_id, pre.clock, self.next_id, self.clock);
            lemma_table_grow(pre.stores@, pre.next_id, pre.clock, self.next_id, self.clock);
            lemma_table_grow(pre.reminders@, pre.next_id, pre.clock, self.next_id, self.clock);
            lemma_table_grow(pre.notes@, pre.next_id, pre.clock, self.next_id, self.clock);
            lemma_table_grow(pre.units@, pre.next_id, pre.clock, self.next_id, self.clock);
        }
        Ok(Rec { meta, content: c })
    }

    /// Reads the record of a dose with the given identifier, or absent when
    /// the store holds none.
    pub fn read_dose(&self, id: u64) -> (r: Option<Rec<Dose>>)
        requires
            self.wf(),
        ensures
            r == find_rec(self.doses(), id),
    {
        let n = self.doses.len();
        let mut i: usize = 0;
        while i < n
            invariant
                self.wf(),
                n == self.doses@.len(),
                i <= n,
                forall|p: int| 0 <= p < i ==> (#[trigger] self.doses@[p]).meta.id != id,
            decreases n - i,
        {
            if self.doses[i].meta.id == id {
                proof {
                    lemma_find_hit(self.doses@, i as int);
                }
                let rec = &self.doses[i];
                return Some(Rec { meta: rec.meta, content: rec.content.clone() });
            }
            i = i + 1;
        }
        proof {
            lemma_find_miss(self.doses@, id);
        }
        None
    }

    /// Replaces the content stored at the given identifier, keeping the
    /// creation stamp and renewing the update stamp, and returns the updated
    /// record; absent when no record carries the identifier (no implicit
    /// creation).
    pub fn update_dose(&mut self, id: u64, c: Dose) -> (r: Option<Rec<Dose>>)
        requires
            old(self).wf(),
        ensures
            final(self).wf(),
            (match r {
                Some(rec) => {
                    &&& contains_id(old(self).doses(), id)
                    &&& rec.meta.id == id
                    &&& rec.content == c
                    &&& rec.meta.created == old(self).doses()[idx_of(
                        old(self).doses(),
                        id,
                    )].meta.created
                    &&& rec.meta.created <= rec.meta.updated
                    &&& final(self).doses() == old(self).doses().update(
                        idx_of(old(self).doses(), id),
                        rec,
                    )
                    &&& tables_unchanged_except(*old(self), *final(self), EntityKind::Dose)
                },
                None => {
                    &&& !contains_id(old(self).doses(), id)
                    &&& *final(self) == *old(self)
                },
            }),
    {
        let n = self.doses.len();
        let mut i: usize = 0;
        while i < n
            invariant
                *self == *old(self),
                self.wf(),
                n == self.doses@.len(),
                i <= n,
                forall|p: int| 0 <= p < i ==> (#[trigger] self.doses@[p]).meta.id != id,
            decreases n - i,
        {
            if self.doses[i].meta.id == id {
                proof {
                    lemma_find_hit(self.doses@, i as int);
                }
                let ghost pre = *self;
                let created = self.doses[i].meta.created;
                self.tick();
                let meta = Meta { id, created, updated: self.clock };
                let stored = Rec { meta, content: c.clone() };
                self.doses[i] = stored;
                proof {
                    let rec = Rec { meta, content: c };
                    assert(self.doses@ =~= pre.doses@.update(i as int, rec));
                    lemma_table_update(
                        pre.doses@,
                        i as int,
                        rec,
                        pre.next_id,
                        pre.clock,
                        self.clock,
                    );
            lemma_table_grow(pre.medications@, pre.next_id, pre.clock, self.next_id, self.clock);
            lemma_table_grow(pre.stores@, pre.next_id, pre.clock, self.next_id, self.clock);
            lemma_table_grow(pre.reminders@, pre.next_id, pre.clock, self.next_id, self.clock);
            lemma_table_grow(pre.notes@, pre.next_id, pre.clock, self.next_id, self.clock);
            lemma_table_grow(pre.units@, pre.next_id, pre.clock, self.next_id, self.clock);
                }
                return Some(Rec { meta, content: c });
            }
            i = i + 1;
        }
        proof {
            lemma_find_miss(self.doses@, id);
        }
        None
    }

    /// Removes the record at the given identifier unconditionally and returns
    /// its last-known content; absent when no record carries the identifier.
    pub fn delete_dose(&mut self, id: u64) -> (r: Option<Rec<Dose>>)
        requires
            old(self).wf(),
        ensures
            final(self).wf(),
            (match r {
                Some(rec) => {
                    &&& find_rec(old(self).doses(), id) == Some(rec)
                    &&& final(self).doses() == old(self).doses().remove(
                        idx_of(old(self).doses(), id),
                    )
                    &&& tables_unchanged_except(*old(self), *final(self), EntityKind::Dose)
                },
                None => {
                    &&& !contains_id(old(self).doses(), id)
                    &&& *final(self) == *old(self)
                },
            }),
    {
        let n = self.doses.len();
        let mut i: usize = 0;
        while i < n
            invariant
                *self == *old(self),
                self.wf(),
                n == self.doses@.len(),
                i <= n,
                forall|p: int| 0 <= p < i ==> (#[trigger] self.doses@[p]).meta.id != id,
            decreases n - i,
        {
            if self.doses[i].meta.id == id {
                proof {
                    lemma_find_hit(self.doses@, i as int);
                    lemma_table_remove(self.doses@, i as int, self.next_id, self.clock);
                }
                let rec = self.doses.remove(i);
                return Some(rec);
            }
            i = i + 1;
        }
        proof {
            lemma_find_miss(self.doses@, id);
        }
        None
    }

    /// Lists every record of the table, in insertion order.
    pub fn list_doses(&self) -> (r: Vec<Rec<Dose>>)
        ensures
            r@ == self.doses(),
    {
        let n = self.doses.len();
        let mut out: Vec<Rec<Dose>> = Vec::new();
        let mut i: usize = 0;
        while i < n
            invariant
                n == self.doses@.len(),
                i <= n,
                out@ == self.doses@.subrange(0, i as int),
            decreases n - i,
        {
            let rec = &self.doses[i];
            out.push(Rec { meta: rec.meta, content: rec.content.clone() });
            proof {
                assert(self.doses@.subrange(0, i + 1) =~= self.doses@.subrange(
                    0,
                    i as int,
                ).push(self.doses@[i as int]));
            }
            i = i + 1;
        }
        proof {
            assert(self.doses@.subrange(0, n as int) =~= self.doses@);
        }
        out
    }
}

impl Datastore {
    /// Creates a reminder: assigns a fresh identifier and stamps, appends the
    /// record and returns it; fails only when the identifier space is
    /// exhausted.
    pub fn create_reminder(&mut self, c: Reminder) -> (r: Result<Rec<Reminder>, Error>)
        requires
            old(self).wf(),
        ensures
            final(self).wf(),
            old(self).can_insert() ==> r is Ok,
            (match r {
                Ok(rec) => {
                    &&& old(self).can_insert()
                    &&& rec.content == c
                    &&& rec.meta.id == old(self).fresh_id()
                    &&& !contains_id(old(self).reminders(), rec.meta.id)
                    &&& rec.meta.created == rec.meta.updated
                    &&& final(self).reminders() == old(self).reminders().push(rec)
                    &&& final(self).fresh_id() > old(self).fresh_id()
                    &&& tables_unchanged_except(*old(self), *final(self), EntityKind::Reminder)
                },
                Err(e) => {
                    &&& !old(self).can_insert()
                    &&& e is Db
                    &&& *final(self) == *old(self)
                },
            }),
    {
        if self.next_id == u64::MAX {
            return Err(Error::Db);
        }
        proof {
            lemma_fresh_not_contained(self.reminders@, self.next_id);
        }
        let ghost pre = *self;
        let id = self.next_id;
        self.next_id = self.next_id + 1;
        self.tick();
        let meta = Meta { id, created: self.clock, updated: self.clock };
        let stored = Rec { meta, content: c.clone() };
        self.reminders.push(stored);
        proof {
            let rec = Rec { meta, content: c };
            assert(self.reminders@ =~= pre.reminders@.push(rec));
            lemma_table_push(pre.reminders@, rec, pre.next_id, pre.clock, self.next_id, self.clock);
            lemma_table_grow(pre.medications@, pre.next_id, pre.clock, self.next_id, self.clock);
            lemma_table_grow(pre.stores@, pre.next_id, pre.clock, self.next_id, self.clock);
            lemma_table_grow(pre.doses@, pre.next_id, pre.clock, self.next_id, self.clock);
            lemma_table_grow(pre.notes@, pre.next_id, pre.clock, self.next_id, self.clock);
            lemma_table_grow(pre.units@, pre.next_id, pre.clock, self.next_id, self.clock);
        }
        Ok(Rec { meta, content: c })
    }

    /// Reads the record of a reminder with the given identifier, or absent when
    /// the store holds none.
    pub fn read_reminder(&self, id: u64) -> (r: Option<Rec<Reminder>>)
        requires
            self.wf(),
        ensures
            r == find_rec(self.reminders(), id),
    {
        let n = self.reminders.len();
        let mut i: usize = 0;
        while i < n
            invariant
                self.wf(),
                n == self.reminders@.len(),
                i <= n,
                forall|p: int| 0 <= p < i ==> (#[trigger] self.reminders@[p]).meta.id != id,
            decreases n - i,
        {
            if self.reminders[i].meta.id == id {
                proof {
                    lemma_find_hit(self.reminders@, i as int);
                }
                let rec = &self.reminders[i];
                return Some(Rec { meta: rec.meta, content: rec.content.clone() });
            }
            i = i + 1;
        }
        proof {
            lemma_find_miss(self.reminders@, id);
        }
        None
    }

    /// Replaces the content stored at the given identifier, keeping the
    /// creation stamp and renewing the update stamp, and returns the updated
    /// record; absent when no record carries the identifier (no implicit
    /// creation).
    pub fn update_reminder(&mut self, id: u64, c: Reminder) -> (r: Option<Rec<Reminder>>)
        requires
            old(self).wf(),
        ensures
            final(self).wf(),
            (match r {
                Some(rec) => {
                    &&& contains_id(old(self).reminders(), id)
                    &&& rec.meta.id == id
                    &&& rec.content == c
                    &&& rec.meta.created == old(self).reminders()[idx_of(
                        old(self).reminders(),
                        id,
                    )].meta.created
                    &&& rec.meta.created <= rec.meta.updated
                    &&& final(self).reminders() == old(self).reminders().update(
                        idx_of(old(self).reminders(), id),
                        rec,
                    )
                    &&& tables_unchanged_except(*old(self), *final(self), EntityKind::Reminder)
                },
                None => {
                    &&& !contains_id(old(self).reminders(), id)
                    &&& *final(self) == *old(self)
                },
            }),
    {
        let n = self.reminders.len();
        let mut i: usize = 0;
        while i < n
            invariant
                *self == *old(self),
                self.wf(),
                n == self.reminders@.len(),
                i <= n,
                forall|p: int| 0 <= p < i ==> (#[trigger] self.reminders@[p]).meta.id != id,
            decreases n - i,
        {
            if self.reminders[i].meta.id == id {
                proof {
                    lemma_find_hit(self.reminders@, i as int);
                }
                let ghost pre = *self;
                let created = self.reminders[i].meta.created;
                self.tick();
                let meta = Meta { id, created, updated: self.clock };
                let stored = Rec { meta, content: c.clone() };
                self.reminders[i] = stored;
                proof {
                    let rec = Rec { meta, content: c };
                    assert(self.reminders@ =~= pre.reminders@.update(i as int, rec));
                    lemma_table_update(
                        pre.reminders@,
                        i as int,
                        rec,
                        pre.next_id,
                        pre.clock,
                        self.clock,
                    );
            lemma_table_grow(pre.medications@, pre.next_id, pre.clock, self.next_id, self.clock);
            lemma_table_grow(pre.stores@, pre.next_id, pre.clock, self.next_id, self.clock);
            lemma_table_grow(pre.doses@, pre.next_id, pre.clock, self.next_id, self.clock);
            lemma_table_grow(pre.notes@, pre.next_id, pre.clock, self.next_id, self.clock);
            lemma_table_grow(pre.units@, pre.next_id, pre.clock, self.next_id, self.clock);
                }
                return Some(Rec { meta, content: c });
            }
            i = i + 1;
        }
        proof {
            lemma_find_miss(self.reminders@, id);
        }
        None
    }

    /// Removes the record at the given identifier unconditionally and returns
    /// its last-known content; absent when no record carries the identifier.
    pub fn delete_reminder(&mut self, id: u64) -> (r: Option<Rec<Reminder>>)
        requires
            old(self).wf(),
        ensures
            final(self).wf(),
            (match r {
                Some(rec) => {
                    &&& find_rec(old(self).reminders(), id) == Some(rec)
                    &&& final(self).reminders() == old(self).reminders().remove(
                        idx_of(old(self).reminders(), id),
                    )
                    &&& tables_unchanged_except(*old(self), *final(self), EntityKind::Reminder)
                },
                None => {
                    &&& !contains_id(old(self).reminders(), id)
                    &&& *final(self) == *old(self)
                },
            }),
    {
        let n = self.reminders.len();
        let mut i: usize = 0;
        while i < n
            invariant
                *self == *old(self),
                self.wf(),
                n == self.reminders@.len(),
                i <= n,
                forall|p: int| 0 <= p < i ==> (#[trigger] self.reminders@[p]).meta.id != id,
            decreases n - i,
        {
            if self.reminders[i].meta.id == id {
                proof {
                    lemma_find_hit(self.reminders@, i as int);
                    lemma_table_remove(self.reminders@, i as int, self.next_id, self.clock);
                }
                let rec = self.reminders.remove(i);
                return Some(rec);
            }
            i = i + 1;
        }
        proof {
            lemma_find_miss(self.reminders@, id);
        }
        None
    }

    /// Lists every record of the table, in insertion order.
    pub fn list_reminders(&self) -> (r: Vec<Rec<Reminder>>)
        ensures
            r@ == self.reminders(),
    {
        let n = self.reminders.len();
        let mut out: Vec<Rec<Reminder>> = Vec::new();
        let mut i: usize = 0;
        while i < n
            invariant
                n == self.reminders@.len(),
                i <= n,
                out@ == self.reminders@.subrange(0, i as int),
            decreases n - i,
        {
            let rec = &self.reminders[i];
            out.push(Rec { meta: rec.meta, content: rec.content.clone() });
            proof {
                assert(self.reminders@.subrange(0, i + 1) =~= self.reminders@.subrange(
                    0,
                    i as int,
                ).push(self.reminders@[i as int]));
            }
            i = i + 1;
        }
        proof {
            assert(self.reminders@.subrange(0, n as int) =~= self.reminders@);
        }
        out
    }
}

impl Datastore {
    /// Creates a note: assigns a fresh identifier and stamps, appends the
    /// record and returns it; fails only when the identifier space is
    /// exhausted.
    pub fn create_note(&mut self, c: Note) -> (r: Result<Rec<Note>, Error>)
        requires
            old(self).wf(),
        ensures
            final(self).wf(),
            old(self).can_insert() ==> r is Ok,
            (match r {
                Ok(rec) => {
                    &&& old(self).can_insert()
                    &&& rec.content == c
                    &&& rec.meta.id == old(self).fresh_id()
                    &&& !contains_id(old(self).notes(), rec.meta.id)
                    &&& rec.meta.created == rec.meta.updated
                    &&& final(self).notes() == old(self).notes().push(rec)
                    &&& final(self).fresh_id() > old(self).fresh_id()
                    &&& tables_unchanged_except(*old(self), *final(self), EntityKind::Note)
                },
                Err(e) => {
                    &&& !old(self).can_insert()
                    &&& e is Db
                    &&& *final(self) == *old(self)
                },
            }),
    {
        if self.next_id == u64::MAX {
            return Err(Error::Db);
        }
        proof {
            lemma_fresh_not_contained(self.notes@, self.next_id);
        }
        let ghost pre = *self;
        let id = self.next_id;
        self.next_id = self.next_id + 1;
        self.tick();
        let meta = Meta { id, created: self.clock, updated: self.clock };
        let stored = Rec { meta, content: c.clone() };
        self.notes.push(stored);
        proof {
            let rec = Rec { meta, content: c };
            assert(self.notes@ =~= pre.notes@.push(rec));
            lemma_table_push(pre.notes@, rec, pre.next_id, pre.clock, self.next_id, self.clock);
            lemma_table_grow(pre.medications@, pre.next_id, pre.clock, self.next_id, self.clock);
            lemma_table_grow(pre.stores@, pre.next_id, pre.clock, self.next_id, self.clock);
            lemma_table_grow(pre.doses@, pre.next_id, pre.clock, self.next_id, self.clock);
            lemma_table_grow(pre.reminders@, pre.next_id, pre.clock, self.next_id, self.clock);
            lemma_table_grow(pre.units@, pre.next_id, pre.clock, self.next_id, self.clock);
        }
        Ok(Rec { meta, content: c })
    }

    /// Reads the record of a note with the given identifier, or absent when
    /// the store holds none.
    pub fn read_note(&self, id: u64) -> (r: Option<Rec<Note>>)
        requires
            self.wf(),
        ensures
            r == find_rec(self.notes(), id),
    {
        let n = self.notes.len();
        let mut i: usize = 0;
        while i < n
            invariant
                self.wf(),
                n == self.notes@.len(),
                i <= n,
                forall|p: int| 0 <= p < i ==> (#[trigger] self.notes@[p]).meta.id != id,
            decreases n - i,
        {
            if self.notes[i].meta.id == id {
                proof {
                    lemma_find_hit(self.notes@, i as int);
                }
                let rec = &self.notes[i];
                return Some(Rec { meta: rec.meta, content: rec.content.clone() });
            }
            i = i + 1;
        }
        proof {
            lemma_find_miss(self.notes@, id);
        }
        None
    }

    /// Replaces the content stored at the given identifier, keeping the
    /// creation stamp and renewing the update stamp, and returns the updated
    /// record; absent when no record carries the identifier (no implicit
    /// creation).
    pub fn update_note(&mut self, id: u64, c: Note) -> (r: Option<Rec<Note>>)
        requires
            old(self).wf(),
        ensures
            final(self).wf(),
            (match r {
                Some(rec) => {
                    &&& contains_id(old(self).notes(), id)
                    &&& rec.meta.id == id
                    &&& rec.content == c
                    &&& rec.meta.created == old(self).notes()[idx_of(
                        old(self).notes(),
                        id,
                    )].meta.created
                    &&& rec.meta.created <= rec.meta.updated
                    &&& final(self).notes() == old(self).notes().update(
                        idx_of(old(self).notes(), id),
                        rec,
                    )
                    &&& tables_unchanged_except(*old(self), *final(self), EntityKind::Note)
                },
                None => {
                    &&& !contains_id(old(self).notes(), id)
                    &&& *final(self) == *old(self)
                },
            }),
    {
        let n = self.notes.len();
        let mut i: usize = 0;
        while i < n
            invariant
                *self == *old(self),
                self.wf(),
                n == self.notes@.len(),
                i <= n,
                forall|p: int| 0 <= p < i ==> (#[trigger] self.notes@[p]).meta.id != id,
            decreases n - i,
        {
            if self.notes[i].meta.id == id {
                proof {
                    lemma_find_hit(self.notes@, i as int);
                }
                let ghost pre = *self;
                let created = self.notes[i].meta.created;
                self.tick();
                let meta = Meta { id, created, updated: self.clock };
                let stored = Rec { meta, content: c.clone() };
                self.notes[i] = stored;
                proof {
                    let rec = Rec { meta, content: c };
                    assert(self.notes@ =~= pre.notes@.update(i as int, rec));
                    lemma_table_update(
                        pre.notes@,
                        i as int,
                        rec,
                        pre.next_id,
                        pre.clock,
                        self.clock,
                    );
            lemma_table_grow(pre.medications@, pre.next_id, pre.clock, self.next_id, self.clock);
            lemma_table_grow(pre.stores@, pre.next_id, pre.clock, self.next_id, self.clock);
            lemma_table_grow(pre.doses@, pre.next_id, pre.clock, self.next_id, self.clock);
            lemma_table_grow(pre.reminders@, pre.next_id, pre.clock, self.next_id, self.clock);
            lemma_table_grow(pre.units@, pre.next_id, pre.clock, self.next_id, self.clock);
                }
                return Some(Rec { meta, content: c });
            }
            i = i + 1;
        }
        proof {
            lemma_find_miss(self.notes@, id);
        }
        None
    }

    /// Removes the record at the given identifier unconditionally and returns
    /// its last-known content; absent when no record carries the identifier.
    pub fn delete_note(&mut self, id: u64) -> (r: Option<Rec<Note>>)
        requires
            old(self).wf(),
        ensures
            final(self).wf(),
            (match r {
                Some(rec) => {
                    &&& find_rec(old(self).notes(), id) == Some(rec)
                    &&& final(self).notes() == old(self).notes().remove(
                        idx_of(old(self).notes(), id),
                    )
                    &&& tables_unchanged_except(*old(self), *final(self), EntityKind::Note)
                },
                None => {
                    &&& !contains_id(old(self).notes(), id)
                    &&& *final(self) == *old(self)
                },
            }),
    {
        let n = self.notes.len();
        let mut i: usize = 0;
        while i < n
            invariant
                *self == *old(self),
                self.wf(),
                n == self.notes@.len(),
                i <= n,
                forall|p: int| 0 <= p < i ==> (#[trigger] self.notes@[p]).meta.id != id,
            decreases n - i,
        {
            if self.notes[i].meta.id == id {
                proof {
                    lemma_find_hit(self.notes@, i as int);
                    lemma_table_remove(self.notes@, i as int, self.next_id, self.clock);
                }
                let rec = self.notes.remove(i);
                return Some(rec);
            }
            i = i + 1;
        }
        proof {
            lemma_find_miss(self.notes@, id);
        }
        None
    }

    /// Lists every record of the table, in insertion order.
    pub fn list_notes(&self) -> (r: Vec<Rec<Note>>)
        ensures
            r@ == self.notes(),
    {
        let n = self.notes.len();
        let mut out: Vec<Rec<Note>> = Vec::new();
        let mut i: usize = 0;
        while i < n
            invariant
                n == self.notes@.len(),
                i <= n,
                out@ == self.notes@.subrange(0, i as int),
            decreases n - i,
        {
            let rec = &self.notes[i];
            out.push(Rec { meta: rec.meta, content: rec.content.clone() });
            proof {
                assert(self.notes@.subrange(0, i + 1) =~= self.notes@.subrange(
                    0,
                    i as int,
                ).push(self.notes@[i as int]));
            }
            i = i + 1;
        }
        proof {
            assert(self.notes@.subrange(0, n as int) =~= self.notes@);
        }
        out
    }
}

impl Datastore {
    /// Creates a unit of measure: assigns a fresh identifier and stamps, appends the
    /// record and returns it; fails only when the identifier space is
    /// exhausted.
    pub fn create_uom(&mut self, c: UnitOfMeasure) -> (r: Result<Rec<UnitOfMeasure>, Error>)
        requires
            old(self).wf(),
        ensures
            final(self).wf(),
            old(self).can_insert() ==> r is Ok,
            (match r {
                Ok(rec) => {
                    &&& old(self).can_insert()
                    &&& rec.content == c
                    &&& rec.meta.id == old(self).fresh_id()
                    &&& !contains_id(old(self).units(), rec.meta.id)
                    &&& rec.meta.created == rec.meta.updated
                    &&& final(self).units() == old(self).units().push(rec)
                    &&& final(self).fresh_id() > old(self).fresh_id()
                    &&& tables_unchanged_except(*old(self), *final(self), EntityKind::UnitOfMeasure)
                },
                Err(e) => {
                    &&& !old(self).can_insert()
                    &&& e is Db
                    &&& *final(self) == *old(self)
                },
            }),
    {
        if self.next_id == u64::MAX {
            return Err(Error::Db);
        }
        proof {
            lemma_fresh_not_contained(self.units@, self.next_id);
        }
        let ghost pre = *self;
        let id = self.next_id;
        self.next_id = self.next_id + 1;
        self.tick();
        let meta = Meta { id, created: self.clock, updated: self.clock };
        let stored = Rec { meta, content: c.clone() };
        self.units.push(stored);
        proof {
            let rec = Rec { meta, content: c };
            assert(self.units@ =~= pre.units@.push(rec));
            lemma_table_push(pre.units@, rec, pre.next_id, pre.clock, self.next_id, self.clock);
            lemma_table_grow(pre.medications@, pre.next_id, pre.clock, self.next_id, self.clock);
            lemma_table_grow(pre.stores@, pre.next_id, pre.clock, self.next_id, self.clock);
            lemma_table_grow(pre.doses@, pre.next_id, pre.clock, self.next_id, self.clock);
            lemma_table_grow(pre.reminders@, pre.next_id, pre.clock, self.next_id, self.clock);
            lemma_table_grow(pre.notes@, pre.next_id, pre.clock, self.next_id, self.clock);
        }
        Ok(Rec { meta, content: c })
    }

    /// Reads the record of a unit of measure with the given identifier, or absent when
    /// the store holds none.
    pub fn read_uom(&self, id: u64) -> (r: Option<Rec<UnitOfMeasure>>)
        requires
            self.wf(),
        ensures
            r == find_rec(self.units(), id),
    {
        let n = self.units.len();
        let mut i: usize = 0;
        while i < n
            invariant
                self.wf(),
                n == self.units@.len(),
                i <= n,
                forall|p: int| 0 <= p < i ==> (#[trigger] self.units@[p]).meta.id != id,
            decreases n - i,
        {
            if self.units[i].meta.id == id {
                proof {
                    lemma_find_hit(self.units@, i as int);
                }
                let rec = &self.units[i];
                return Some(Rec { meta: rec.meta, content: rec.content.clone() });
            }
            i = i + 1;
        }
        proof {
            lemma_find_miss(self.units@, id);
        }
        None
    }

    /// Replaces the content stored at the given identifier, keeping the
    /// creation stamp and renewing the update stamp, and returns the updated
    /// record; absent when no record carries the identifier (no implicit
    /// creation).
    pub fn update_uom(&mut self, id: u64, c: UnitOfMeasure) -> (r: Option<Rec<UnitOfMeasure>>)
        requires
            old(self).wf(),
        ensures
            final(self).wf(),
            (match r {
                Some(rec) => {
                    &&& contains_id(old(self).units(), id)
                    &&& rec.meta.id == id
                    &&& rec.content == c
                    &&& rec.meta.created == old(self).units()[idx_of(
                        old(self).units(),
                        id,
                    )].meta.created
                    &&& rec.meta.created <= rec.meta.updated
                    &&& final(self).units() == old(self).units().update(
                        idx_of(old(self).units(), id),
                        rec,
                    )
                    &&& tables_unchanged_except(*old(self), *final(self), EntityKind::UnitOfMeasure)
                },
                None => {
                    &&& !contains_id(old(self).units(), id)
                    &&& *final(self) == *old(self)
                },
            }),
    {
        let n = self.units.len();
        let mut i: usize = 0;
        while i < n
            invariant
                *self == *old(self),
                self.wf(),
                n == self.units@.len(),
                i <= n,
                forall|p: int| 0 <= p < i ==> (#[trigger] self.units@[p]).meta.id != id,
            decreases n - i,
        {
            if self.units[i].meta.id == id {
                proof {
                    lemma_find_hit(self.units@, i as int);
                }
                let ghost pre = *self;
                let created = self.units[i].meta.created;
                self.tick();
                let meta = Meta { id, created, updated: self.clock };
                let stored = Rec { meta, content: c.clone() };
                self.units[i] = stored;
                proof {
                    let rec = Rec { meta, content: c };
                    assert(self.units@ =~= pre.units@.update(i as int, rec));
                    lemma_table_update(
                        pre.units@,
                        i as int,
                        rec,
                        pre.next_id,
                        pre.clock,
                        self.clock,
                    );
            lemma_table_grow(pre.medications@, pre.next_id, pre.clock, self.next_id, self.clock);
            lemma_table_grow(pre.stores@, pre.next_id, pre.clock, self.next_id, self.clock);
            lemma_table_grow(pre.doses@, pre.next_id, pre.clock, self.next_id, self.clock);
            lemma_table_grow(pre.reminders@, pre.next_id, pre.clock, self.next_id, self.clock);
            lemma_table_grow(pre.notes@, pre.next_id, pre.clock, self.next_id, self.clock);
                }
                return Some(Rec { meta, content: c });
            }
            i = i + 1;
        }
        proof {
            lemma_find_miss(self.units@, id);
        }
        None
    }

    /// Removes the record at the given identifier unconditionally and returns
    /// its last-known content; absent when no record carries the identifier.
    pub fn delete_uom(&mut self, id: u64) -> (r: Option<Rec<UnitOfMeasure>>)
        requires
            old(self).wf(),
        ensures
            final(self).wf(),
            (match r {
                Some(rec) => {
                    &&& find_rec(old(self).units(), id) == Some(rec)
                    &&& final(self).units() == old(self).units().remove(
                        idx_of(old(self).units(), id),
                    )
                    &&& tables_unchanged_except(*old(self), *final(self), EntityKind::UnitOfMeasure)
                },
                None => {
                    &&& !contains_id(old(self).units(), id)
                    &&& *final(self) == *old(self)
                },
            }),
    {
        let n = self.units.len();
        let mut i: usize = 0;
        while i < n
            invariant
                *self == *old(self),
                self.wf(),
                n == self.units@.len(),
                i <= n,
                forall|p: int| 0 <= p < i ==> (#[trigger] self.units@[p]).meta.id != id,
            decreases n - i,
        {
            if self.units[i].meta.id == id {
                proof {
                    lemma_find_hit(self.units@, i as int);
                    lemma_table_remove(self.units@, i as int, self.next_id, self.clock);
                }
                let rec = self.units.remove(i);
                return Some(rec);
            }
            i = i + 1;
        }
        proof {
            lemma_find_miss(self.units@, id);
        }
        None
    }

    /// Lists every record of the table, in insertion order.
    pub fn list_uoms(&self) -> (r: Vec<Rec<UnitOfMeasure>>)
        ensures
            r@ == self.units(),
    {
        let n = self.units.len();
        let mut out: Vec<Rec<UnitOfMeasure>> = Vec::new();
        let mut i: usize = 0;
        while i < n
            invariant
                n == self.units@.len(),
                i <= n,
                out@ == self.units@.subrange(0, i as int),
            decreases n - i,
        {
            let rec = &self.units[i];
            out.push(Rec { meta: rec.meta, content: rec.content.clone() });
            proof {
                assert(self.units@.subrange(0, i + 1) =~= self.units@.subrange(
                    0,
                    i as int,
                ).push(self.units@[i as int]));
            }
            i = i + 1;
        }
        proof {
            assert(self.units@.subrange(0, n as int) =~= self.units@);
        }
        out
    }
}


/// Medication records of one user.
pub open spec fn med_by_user(user: u64) -> spec_fn(Rec<Medication>) -> bool {
    |r: Rec<Medication>| r.content.user == user
}

/// Medication records of one user with the given active flag.
pub open spec fn med_by_user_status(user: u64, active: bool) -> spec_fn(Rec<Medication>) -> bool {
    |r: Rec<Medication>| r.content.user == user && r.content.active == active
}

/// Active reminder records.
pub open spec fn reminder_is_active() -> spec_fn(Rec<Reminder>) -> bool {
    |r: Rec<Reminder>| r.content.active
}

/// Store records of one user for one medication.
pub open spec fn store_of_medication(user: u64, medication: u64) -> spec_fn(Rec<Store>) -> bool {
    |r: Rec<Store>| r.content.user == user && r.content.medication == medication
}

/// Store records of one user for one medication with the given active flag.
pub open spec fn store_of_medication_status(user: u64, medication: u64, active: bool) -> spec_fn(
    Rec<Store>,
) -> bool {
    |r: Rec<Store>|
        r.content.user == user && r.content.medication == medication && r.content.active == active
}

impl Datastore {
    /// Flips the active flag of a medication to false, provided the record
    /// exists and belongs to the given user; everything else of the record is
    /// kept and the update stamp is renewed.
    pub fn deactivate_medication(&mut self, id: u64, user: u64) -> (r: Option<Rec<Medication>>)
        requires
            old(self).wf(),
        ensures
            final(self).wf(),
            (match r {
                Some(rec) => {
                    &&& contains_id(old(self).medications(), id)
                    &&& ({
                        let prev = old(self).medications()[idx_of(old(self).medications(), id)];
                        &&& prev.content.user == user
                        &&& rec.meta.id == id
                        &&& rec.meta.created == prev.meta.created
                        &&& rec.meta.created <= rec.meta.updated
                        &&& rec.content.user == prev.content.user
                        &&& rec.content.name == prev.content.name
                        &&& rec.content.active == false
                        &&& final(self).medications() == old(self).medications().update(
                            idx_of(old(self).medications(), id),
                            rec,
                        )
                        &&& tables_unchanged_except(
                            *old(self),
                            *final(self),
                            EntityKind::Medication,
                        )
                    })
                },
                None => {
                    &&& (!contains_id(old(self).medications(), id) || old(self).medications()[
                        idx_of(old(self).medications(), id)
                    ].content.user != user)
                    &&& *final(self) == *old(self)
                },
            }),
    {
        let n = self.medications.len();
        let mut i: usize = 0;
        while i < n
            invariant
                *self == *old(self),
                self.wf(),
                n == self.medications@.len(),
                i <= n,
                forall|p: int| 0 <= p < i ==> (#[trigger] self.medications@[p]).meta.id != id,
            decreases n - i,
        {
            if self.medications[i].meta.id == id {
                proof {
                    lemma_find_hit(self.medications@, i as int);
                }
                if self.medications[i].content.user != user {
                    return None;
                }
                let ghost pre = *self;
                let created = self.medications[i].meta.created;
                self.tick();
                let meta = Meta { id, created, updated: self.clock };
                let content = Medication {
                    user,
                    name: self.medications[i].content.name.clone(),
                    active: false,
                };
                let stored = Rec { meta, content: content.clone() };
                self.medications[i] = stored;
                proof {
                    let rec = Rec { meta, content };
                    assert(self.medications@ =~= pre.medications@.update(i as int, rec));
                    lemma_table_update(
                        pre.medications@,
                        i as int,
                        rec,
                        pre.next_id,
                        pre.clock,
                        self.clock,
                    );
                    lemma_table_grow(pre.stores@, pre.next_id, pre.clock, self.next_id, self.clock);
                    lemma_table_grow(pre.doses@, pre.next_id, pre.clock, self.next_id, self.clock);
                    lemma_table_grow(
                        pre.reminders@,
                        pre.next_id,
                        pre.clock,
                        self.next_id,
                        self.clock,
                    );
                    lemma_table_grow(pre.notes@, pre.next_id, pre.clock, self.next_id, self.clock);
                    lemma_table_grow(pre.units@, pre.next_id, pre.clock, self.next_id, self.clock);
                }
                return Some(Rec { meta, content });
            }
            i = i + 1;
        }
        proof {
            lemma_find_miss(self.medications@, id);
        }
        None
    }

    /// Flips the active flag of a reminder to false; everything else of the
    /// record is kept and the update stamp is renewed.
    pub fn deactivate_reminder(&mut self, id: u64) -> (r: Option<Rec<Reminder>>)
        requires
            old(self).wf(),
        ensures
            final(self).wf(),
            (match r {
                Some(rec) => {
                    &&& contains_id(old(self).reminders(), id)
                    &&& ({
                        let prev = old(self).reminders()[idx_of(old(self).reminders(), id)];
                        &&& rec.meta.id == id
                        &&& rec.meta.created == prev.meta.created
                        &&& rec.meta.created <= rec.meta.updated
                        &&& rec.content.user == prev.content.user
                        &&& rec.content.medication == prev.content.medication
                        &&& rec.content.start == prev.content.start
                        &&& rec.content.end == prev.content.end
                        &&& rec.content.days == prev.content.days
                        &&& rec.content.times == prev.content.times
                        &&& rec.content.active == false
                        &&& final(self).reminders() == old(self).reminders().update(
                            idx_of(old(self).reminders(), id),
                            rec,
                        )
                        &&& tables_unchanged_except(*old(self), *final(self), EntityKind::Reminder)
                    })
                },
                None => {
                    &&& !contains_id(old(self).reminders(), id)
                    &&& *final(self) == *old(self)
                },
            }),
    {
        let n = self.reminders.len();
        let mut i: usize = 0;
        while i < n
            invariant
                *self == *old(self),
                self.wf(),
                n == self.reminders@.len(),
                i <= n,
                forall|p: int| 0 <= p < i ==> (#[trigger] self.reminders@[p]).meta.id != id,
            decreases n - i,
        {
            if self.reminders[i].meta.id == id {
                proof {
                    lemma_find_hit(self.reminders@, i as int);
                }
                let ghost pre = *self;
                let created = self.reminders[i].meta.created;
                self.tick();
                let meta = Meta { id, created, updated: self.clock };
                let content = Reminder {
                    user: self.reminders[i].content.user,
                    medication: self.reminders[i].content.medication,
                    start: self.reminders[i].content.start,
                    end: self.reminders[i].content.end,
                    days: self.reminders[i].content.days.clone(),
                    times: self.reminders[i].content.times.clone(),
                    active: false,
                };
                let stored = Rec { meta, content: content.clone() };
                self.reminders[i] = stored;
                proof {
                    let rec = Rec { meta, content };
                    assert(self.reminders@ =~= pre.reminders@.update(i as int, rec));
                    lemma_table_update(
                        pre.reminders@,
                        i as int,
                        rec,
                        pre.next_id,
                        pre.clock,
                        self.clock,
                    );
                    lemma_table_grow(
                        pre.medications@,
                        pre.next_id,
                        pre.clock,
                        self.next_id,
                        self.clock,
                    );
                    lemma_table_grow(pre.stores@, pre.next_id, pre.clock, self.next_id, self.clock);
                    lemma_table_grow(pre.doses@, pre.next_id, pre.clock, self.next_id, self.clock);
                    lemma_table_grow(pre.notes@, pre.next_id, pre.clock, self.next_id, self.clock);
                    lemma_table_grow(pre.units@, pre.next_id, pre.clock, self.next_id, self.clock);
                }
                return Some(Rec { meta, content });
            }
            i = i + 1;
        }
        proof {
            lemma_find_miss(self.reminders@, id);
        }
        None
    }

    /// Flips the active flag of an inventory store to false; everything else
    /// of the record is kept and the update stamp is renewed.
    pub fn deactivate_store(&mut self, id: u64) -> (r: Option<Rec<Store>>)
        requires
            old(self).wf(),
        ensures
            final(self).wf(),
            (match r {
                Some(rec) => {
                    &&& contains_id(old(self).stores(), id)
                    &&& ({
                        let prev = old(self).stores()[idx_of(old(self).stores(), id)];
                        &&& rec.meta.id == id
                        &&& rec.meta.created == prev.meta.created
                        &&& rec.meta.created <= rec.meta.updated
                        &&& rec.content.user == prev.content.user
                        &&& rec.content.medication == prev.content.medication
                        &&& rec.content.production_date == prev.content.production_date
                        &&& rec.content.expiration_date == prev.content.expiration_date
                        &&& rec.content.lot_number == prev.content.lot_number
                        &&& rec.content.quantity == prev.content.quantity
                        &&& rec.content.unit == prev.content.unit
                        &&& rec.content.active == false
                        &&& final(self).stores() == old(self).stores().update(
                            idx_of(old(self).stores(), id),
                            rec,
                        )
                        &&& tables_unchanged_except(*old(self), *final(self), EntityKind::Store)
                    })
                },
                None => {
                    &&& !contains_id(old(self).stores(), id)
                    &&& *final(self) == *old(self)
                },
            }),
    {
        let n = self.stores.len();
        let mut i: usize = 0;
        while i < n
            invariant
                *self == *old(self),
                self.wf(),
                n == self.stores@.len(),
                i <= n,
                forall|p: int| 0 <= p < i ==> (#[trigger] self.stores@[p]).meta.id != id,
            decreases n - i,
        {
            if self.stores[i].meta.id == id {
                proof {
                    lemma_find_hit(self.stores@, i as int);
                }
                let ghost pre = *self;
                let created = self.stores[i].meta.created;
                self.tick();
                let meta = Meta { id, created, updated: self.clock };
                let content = Store {
                    user: self.stores[i].content.user,
                    medication: self.stores[i].content.medication,
                    production_date: self.stores[i].content.production_date,
                    expiration_date: self.stores[i].content.expiration_date,
                    lot_number: self.stores[i].content.lot_number.clone(),
                    quantity: self.stores[i].content.quantity,
                    unit: self.stores[i].content.unit.clone(),
                    active: false,
                };
                let stored = Rec { meta, content: content.clone() };
                self.stores[i] = stored;
                proof {
                    let rec = Rec { meta, content };
                    assert(self.stores@ =~= pre.stores@.update(i as int, rec));
                    lemma_table_update(
                        pre.stores@,
                        i as int,
                        rec,
                        pre.next_id,
                        pre.clock,
                        self.clock,
                    );
                    lemma_table_grow(
                        pre.medications@,
                        pre.next_id,
                        pre.clock,
                        self.next_id,
                        self.clock,
                    );
                    lemma_table_grow(pre.doses@, pre.next_id, pre.clock, self.next_id, self.clock);
                    lemma_table_grow(
                        pre.reminders@,
                        pre.next_id,
                        pre.clock,
                        self.next_id,
                        self.clock,
                    );
                    lemma_table_grow(pre.notes@, pre.next_id, pre.clock, self.next_id, self.clock);
                    lemma_table_grow(pre.units@, pre.next_id, pre.clock, self.next_id, self.clock);
                }
                return Some(Rec { meta, content });
            }
            i = i + 1;
        }
        proof {
            lemma_find_miss(self.stores@, id);
        }
        None
    }

    /// Lists the medications of one user, in insertion order.
    pub fn list_medications_for_user(&self, user: u64) -> (r: Vec<Rec<Medication>>)
        ensures
            r@ == self.medications().filter(med_by_user(user)),
    {
        let n = self.medications.len();
        let mut out: Vec<Rec<Medication>> = Vec::new();
        let mut i: usize = 0;
        proof {
            reveal(Seq::filter);
            assert(self.medications@.subrange(0, 0).filter(med_by_user(user)) =~= Seq::empty());
        }
        while i < n
            invariant
                n == self.medications@.len(),
                i <= n,
                out@ == self.medications@.subrange(0, i as int).filter(med_by_user(user)),
            decreases n - i,
        {
            proof {
                assert(self.medications@.subrange(0, i + 1) =~= self.medications@.subrange(
                    0,
                    i as int,
                ).push(self.medications@[i as int]));
                lemma_filter_push(
                    self.medications@.subrange(0, i as int),
                    self.medications@[i as int],
                    med_by_user(user),
                );
            }
            let rec = &self.medications[i];
            if rec.content.user == user {
                out.push(Rec { meta: rec.meta, content: rec.content.clone() });
            }
            i = i + 1;
        }
        proof {
            assert(self.medications@.subrange(0, n as int) =~= self.medications@);
        }
        out
    }

    /// Lists the medications of one user carrying the given active flag, in
    /// insertion order.
    pub fn list_medications_by_status(&self, user: u64, active: bool) -> (r: Vec<Rec<Medication>>)
        ensures
            r@ == self.medications().filter(med_by_user_status(user, active)),
    {
        let n = self.medications.len();
        let mut out: Vec<Rec<Medication>> = Vec::new();
        let mut i: usize = 0;
        proof {
            reveal(Seq::filter);
            assert(self.medications@.subrange(0, 0).filter(med_by_user_status(user, active))
                =~= Seq::empty());
        }
        while i < n
            invariant
                n == self.medications@.len(),
                i <= n,
                out@ == self.medications@.subrange(0, i as int).filter(
                    med_by_user_status(user, active),
                ),
            decreases n - i,
        {
            proof {
                assert(self.medications@.subrange(0, i + 1) =~= self.medications@.subrange(
                    0,
                    i as int,
                ).push(self.medications@[i as int]));
                lemma_filter_push(
                    self.medications@.subrange(0, i as int),
                    self.medications@[i as int],
                    med_by_user_status(user, active),
                );
            }
            let rec = &self.medications[i];
            if rec.content.user == user && rec.content.active == active {
                out.push(Rec { meta: rec.meta, content: rec.content.clone() });
            }
            i = i + 1;
        }
        proof {
            assert(self.medications@.subrange(0, n as int) =~= self.medications@);
        }
        out
    }

    /// Lists the reminders whose active flag is set, in insertion order.
    pub fn list_active_reminders(&self) -> (r: Vec<Rec<Reminder>>)
        ensures
            r@ == self.reminders().filter(reminder_is_active()),
    {
        let n = self.reminders.len();
        let mut out: Vec<Rec<Reminder>> = Vec::new();
        let mut i: usize = 0;
        proof {
            reveal(Seq::filter);
            assert(self.reminders@.subrange(0, 0).filter(reminder_is_active()) =~= Seq::empty());
        }
        while i < n
            invariant
                n == self.reminders@.len(),
                i <= n,
                out@ == self.reminders@.subrange(0, i as int).filter(reminder_is_active()),
            decreases n - i,
        {
            proof {
                assert(self.reminders@.subrange(0, i + 1) =~= self.reminders@.subrange(
                    0,
                    i as int,
                ).push(self.reminders@[i as int]));
                lemma_filter_push(
                    self.reminders@.subrange(0, i as int),
                    self.reminders@[i as int],
                    reminder_is_active(),
                );
            }
            let rec = &self.reminders[i];
            if rec.content.active {
                out.push(Rec { meta: rec.meta, content: rec.content.clone() });
            }
            i = i + 1;
        }
        proof {
            assert(self.reminders@.subrange(0, n as int) =~= self.reminders@);
        }
        out
    }

    /// Lists every store of one user for one medication, whatever its active
    /// flag, in insertion order.
    pub fn list_all_stores_for_medication(&self, user: u64, medication: u64) -> (r: Vec<
        Rec<Store>,
    >)
        ensures
            r@ == self.stores().filter(store_of_medication(user, medication)),
    {
        let n = self.stores.len();
        let mut out: Vec<Rec<Store>> = Vec::new();
        let mut i: usize = 0;
        proof {
            reveal(Seq::filter);
            assert(self.stores@.subrange(0, 0).filter(store_of_medication(user, medication))
                =~= Seq::empty());
        }
        while i < n
            invariant
                n == self.stores@.len(),
                i <= n,
                out@ == self.stores@.subrange(0, i as int).filter(
                    store_of_medication(user, medication),
                ),
            decreases n - i,
        {
            proof {
                assert(self.stores@.subrange(0, i + 1) =~= self.stores@.subrange(0, i as int).push(
                    self.stores@[i as int],
                ));
                lemma_filter_push(
                    self.stores@.subrange(0, i as int),
                    self.stores@[i as int],
                    store_of_medication(user, medication),
                );
            }
            let rec = &self.stores[i];
            if rec.content.user == user && rec.content.medication == medication {
                out.push(Rec { meta: rec.meta, content: rec.content.clone() });
            }
            i = i + 1;
        }
        proof {
            assert(self.stores@.subrange(0, n as int) =~= self.stores@);
        }
        out
    }

    /// Lists the stores of one user for one medication carrying the given
    /// active flag, in insertion order.
    pub fn list_stores_for_medication(&self, user: u64, medication: u64, active: bool) -> (r: Vec<
        Rec<Store>,
    >)
        ensures
            r@ == self.stores().filter(store_of_medication_status(user, medication, active)),
    {
        let n = self.stores.len();
        let mut out: Vec<Rec<Store>> = Vec::new();
        let mut i: usize = 0;
        proof {
            reveal(Seq::filter);
            assert(self.stores@.subrange(0, 0).filter(
                store_of_medication_status(user, medication, active),
            ) =~= Seq::empty());
        }
        while i < n
            invariant
                n == self.stores@.len(),
                i <= n,
                out@ == self.stores@.subrange(0, i as int).filter(
                    store_of_medication_status(user, medication, active),
                ),
            decreases n - i,
        {
            proof {
                assert(self.stores@.subrange(0, i + 1) =~= self.stores@.subrange(0, i as int).push(
                    self.stores@[i as int],
                ));
                lemma_filter_push(
                    self.stores@.subrange(0, i as int),
                    self.stores@[i as int],
                    store_of_medication_status(user, medication, active),
                );
            }
            let rec = &self.stores[i];
            if rec.content.user == user && rec.content.medication == medication
                && rec.content.active == active {
                out.push(Rec { meta: rec.meta, content: rec.content.clone() });
            }
            i = i + 1;
        }
        proof {
            assert(self.stores@.subrange(0, n as int) =~= self.stores@);
        }
        out
    }
}


impl Datastore {
    /// The number of notes the store holds.
    pub fn note_count(&self) -> (n: usize)
        ensures
            n == self.notes().len(),
    {
        self.notes.len()
    }

    /// The note record at a position of the table, in insertion order.
    pub fn note_at(&self, i: usize) -> (r: Rec<Note>)
        requires
            i < self.notes().len(),
        ensures
            r == self.notes()[i as int],
    {
        let rec = &self.notes[i];
        Rec { meta: rec.meta, content: rec.content.clone() }
    }
}

/// Round trip: appending a record under a fresh identifier and then looking
/// that identifier up yields exactly the appended record.
pub proof fn lemma_create_then_read<T>(s: Seq<Rec<T>>, rec: Rec<T>)
    requires
        distinct_ids(s),
        !contains_id(s, rec.meta.id),
    ensures
        find_rec(s.push(rec), rec.meta.id) == Some(rec),
        distinct_ids(s.push(rec)),
{
    let t = s.push(rec);
    assert forall|i: int, j: int| 0 <= i < j < t.len() implies (#[trigger] t[i]).meta.id != (
    #[trigger] t[j]).meta.id by {
        if j == s.len() {
            assert(t[i] == s[i]);
            if t[i].meta.id == rec.meta.id {
                assert(contains_id(s, rec.meta.id));
            }
        } else {
            assert(t[i] == s[i] && t[j] == s[j]);
        }
    }
    lemma_find_hit(t, s.len() as int);
}

/// Update then read: after replacing the record at an identifier with new
/// content under the same identifier, looking the identifier up yields the
/// replacement.
pub proof fn lemma_update_then_read<T>(s: Seq<Rec<T>>, id: u64, rec: Rec<T>)
    requires
        distinct_ids(s),
        contains_id(s, id),
        rec.meta.id == id,
    ensures
        find_rec(s.update(idx_of(s, id), rec), id) == Some(rec),
        distinct_ids(s.update(idx_of(s, id), rec)),
{
    let i = idx_of(s, id);
    let t = s.update(i, rec);
    assert forall|p: int, q: int| 0 <= p < q < t.len() implies (#[trigger] t[p]).meta.id != (
    #[trigger] t[q]).meta.id by {
        assert(t[p].meta.id == s[p].meta.id && t[q].meta.id == s[q].meta.id);
    }
    lemma_find_hit(t, i);
}

/// Delete then read: after removing the record at an identifier, looking the
/// identifier up yields absent.
pub proof fn lemma_delete_then_read<T>(s: Seq<Rec<T>>, id: u64)
    requires
        distinct_ids(s),
        contains_id(s, id),
    ensures
        find_rec(s.remove(idx_of(s, id)), id) is None,
{
    let i = idx_of(s, id);
    let t = s.remove(i);
    assert forall|p: int| 0 <= p < t.len() implies (#[trigger] t[p]).meta.id != id by {
        let p0 = if p < i {
            p
        } else {
            p + 1
        };
        assert(t[p] == s[p0]);
        if p0 < i {
            assert(s[p0].meta.id != s[i].meta.id);
        } else {
            assert(s[i].meta.id != s[p0].meta.id);
        }
    }
    lemma_find_miss(t, id);
}

/// A filter by a predicate that no element satisfies yields the empty
/// sequence.
pub proof fn lemma_filter_all_false<T>(s: Seq<T>, pred: spec_fn(T) -> bool)
    requires
        forall|i: int| 0 <= i < s.len() ==> !pred(#[trigger] s[i]),
    ensures
        s.filter(pred) == Seq::<T>::empty(),
    decreases s.len(),
{
    reveal(Seq::filter);
    if s.len() > 0 {
        lemma_filter_all_false(s.drop_last(), pred);
        assert(s.filter(pred) =~= Seq::<T>::empty());
    } else {
        assert(s.filter(pred) =~= Seq::<T>::empty());
    }
}


impl Datastore {
    /// Reads a medication by an identifier carried in a request body as a
    /// decimal string: absent when the string does not parse or no record
    /// carries the parsed identifier.
    pub fn read_medication_body(&self, id: &MedicationId) -> (r: Option<Rec<Medication>>)
        requires
            self.wf(),
        ensures
            r == match parse_spec(id.id@) {
                Some(v) => find_rec(self.medications(), v),
                None => None::<Rec<Medication>>,
            },
    {
        match parse_id(self.medication_id_of(id)) {
            Some(v) => self.read_medication(v),
            None => None,
        }
    }

    /// A borrow of the identifier string of a body-carried identifier.
    fn medication_id_of<'a>(&self, id: &'a MedicationId) -> (r: &'a str)
        ensures
            r@ == id.id@,
    {
        id.id.as_str()
    }
}

/// All tables other than the one for entity kind `k` are the same in `pre`
/// and `post`.
pub open spec fn tables_unchanged_except(pre: Datastore, post: Datastore, k: EntityKind) -> bool {
    &&& k != EntityKind::Medication ==> post.medications() == pre.medications()
    &&& k != EntityKind::Store ==> post.stores() == pre.stores()
    &&& k != EntityKind::Dose ==> post.doses() == pre.doses()
    &&& k != EntityKind::Reminder ==> post.reminders() == pre.reminders()
    &&& k != EntityKind::Note ==> post.notes() == pre.notes()
    &&& k != EntityKind::UnitOfMeasure ==> post.units() == pre.units()
}

} // verus!
