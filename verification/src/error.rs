//! The error taxonomy of the library.
//!
//! Every failing operation reports one of these kinds. `UnprocessableEntity`
//! carries a structured map from field name to the list of messages for that
//! field; the other kinds map straight to an HTTP status code at the edge.

use vstd::prelude::*;

verus! {

/// The field-to-messages view of one entry of a validation error.
pub open spec fn entry_view(e: (String, Vec<String>)) -> (Seq<char>, Seq<Seq<char>>) {
    (e.0@, e.1@.map_values(|v: String| v@))
}

/// The view of a validation-error map: each entry as a field name and the
/// sequence of messages reported for that field.
pub open spec fn entry_views(entries: Seq<(String, Vec<String>)>) -> Seq<
    (Seq<char>, Seq<Seq<char>>),
> {
    entries.map_values(|e: (String, Vec<String>)| entry_view(e))
}

/// The views of a sequence of (field, message) pairs.
pub open spec fn pair_views(pairs: Seq<(String, String)>) -> Seq<(Seq<char>, Seq<char>)> {
    pairs.map_values(|p: (String, String)| (p.0@, p.1@))
}

/// Adding one (field, message) pair to a grouped map: the message is appended
/// to the first entry with that field name, or a new entry is added at the
/// end.
pub open spec fn group_insert(
    acc: Seq<(Seq<char>, Seq<Seq<char>>)>,
    k: Seq<char>,
    v: Seq<char>,
) -> Seq<(Seq<char>, Seq<Seq<char>>)>
    decreases acc.len(),
{
    if acc.len() == 0 {
        seq![(k, seq![v])]
    } else if acc[0].0 == k {
        seq![(acc[0].0, acc[0].1.push(v))] + acc.drop_first()
    } else {
        seq![acc[0]] + group_insert(acc.drop_first(), k, v)
    }
}

/// Grouping a sequence of (field, message) pairs into a map from field name
/// to the messages for that field, in first-appearance order.
pub open spec fn grouped(pairs: Seq<(Seq<char>, Seq<char>)>) -> Seq<(Seq<char>, Seq<Seq<char>>)>
    decreases pairs.len(),
{
    if pairs.len() == 0 {
        Seq::empty()
    } else {
        group_insert(grouped(pairs.drop_last()), pairs.last().0, pairs.last().1)
    }
}

/// An error returned by a data operation.
#[derive(Debug, PartialEq, Eq)]
pub enum Error {
    /// The caller is not authenticated (status 401).
    Unauthorized,
    /// The caller may not perform the action (status 403).
    Forbidden,
    /// The request path does not exist (status 404).
    NotFound,
    /// The request body failed validation (status 422); `errors` maps each
    /// field name to the messages for that field.
    UnprocessableEntity { errors: Vec<(String, Vec<String>)> },
    /// The underlying store failed (status 500); no detail is exposed.
    Db,
}

/// Inserting a pair whose field name is not yet present appends a fresh
/// entry at the end of the map.
proof fn lemma_group_insert_missing(acc: Seq<(Seq<char>, Seq<Seq<char>>)>, k: Seq<char>, v: Seq<char>)
    requires
        forall|p: int| 0 <= p < acc.len() ==> (#[trigger] acc[p]).0 != k,
    ensures
        group_insert(acc, k, v) == acc.push((k, seq![v])),
    decreases acc.len(),
{
    if acc.len() == 0 {
        assert(group_insert(acc, k, v) =~= acc.push((k, seq![v])));
    } else {
        lemma_group_insert_missing(acc.drop_first(), k, v);
        assert(group_insert(acc, k, v) =~= acc.push((k, seq![v])));
    }
}

/// Inserting a pair whose field name first occurs at position `j` appends the
/// message to that entry and leaves the rest of the map unchanged.
proof fn lemma_group_insert_first(
    acc: Seq<(Seq<char>, Seq<Seq<char>>)>,
    k: Seq<char>,
    v: Seq<char>,
    j: int,
)
    requires
        0 <= j < acc.len(),
        acc[j].0 == k,
        forall|p: int| 0 <= p < j ==> (#[trigger] acc[p]).0 != k,
    ensures
        group_insert(acc, k, v) == acc.update(j, (acc[j].0, acc[j].1.push(v))),
    decreases j,
{
    if j == 0 {
        assert(group_insert(acc, k, v) =~= acc.update(0, (acc[0].0, acc[0].1.push(v))));
    } else {
        assert(forall|p: int|
            0 <= p < j - 1 ==> (#[trigger] acc.drop_first()[p]).0 == acc[p + 1].0);
        lemma_group_insert_first(acc.drop_first(), k, v, j - 1);
        assert(group_insert(acc, k, v) =~= acc.update(j, (acc[j].0, acc[j].1.push(v))));
    }
}

impl Error {
    /// The HTTP status code that this error kind maps to.
    pub fn status_code(&self) -> (code: u16)
        ensures
            code == match self {
                Error::Unauthorized => 401u16,
                Error::Forbidden => 403u16,
                Error::NotFound => 404u16,
                Error::UnprocessableEntity { .. } => 422u16,
                Error::Db => 500u16,
            },
    {
        match self {
            Error::Unauthorized => 401,
            Error::Forbidden => 403,
            Error::NotFound => 404,
            Error::UnprocessableEntity { .. } => 422,
            Error::Db => 500,
        }
    }

    /// Builds a validation error from (field, message) pairs: the messages of
    /// equal field names are grouped into one entry, in first-appearance
    /// order.
    pub fn unprocessable_entity(pairs: Vec<(String, String)>) -> (r: Error)
        ensures
            (r matches Error::UnprocessableEntity { errors } && entry_views(errors@) == grouped(
                pair_views(pairs@),
            )),
    {
        let ghost pv = pair_views(pairs@);
        let mut errors: Vec<(String, Vec<String>)> = Vec::new();
        let n = pairs.len();
        let mut idx: usize = 0;
        assert(pv.subrange(0, 0) =~= Seq::empty());
        assert(entry_views(errors@) =~= Seq::empty());
        while idx < n
            invariant
                n == pairs@.len(),
                idx <= n,
                pv == pair_views(pairs@),
                entry_views(errors@) == grouped(pv.subrange(0, idx as int)),
            decreases n - idx,
        {
            let key = &pairs[idx].0;
            let val = pairs[idx].1.clone();
            proof {
                assert(pv.subrange(0, idx + 1).drop_last() =~= pv.subrange(0, idx as int));
                assert(pv.subrange(0, idx + 1).last() == pv[idx as int]);
                assert(pv[idx as int] == (pairs@[idx as int].0@, pairs@[idx as int].1@));
            }
            let ghost prev = errors@;
            match Self::find_field(&errors, key) {
                Some(j) => {
                    let mut entry = errors.remove(j);
                    entry.1.push(val);
                    errors.insert(j, entry);
                    proof {
                        assert(errors@ =~= prev.update(j as int, errors@[j as int]));
                        assert(errors@[j as int].0@ == prev[j as int].0@);
                        assert(errors@[j as int].1@ =~= prev[j as int].1@.push(
                            pairs@[idx as int].1,
                        ));
                        assert(entry_view(errors@[j as int]).1 =~= entry_view(
                            prev[j as int],
                        ).1.push(pairs@[idx as int].1@));
                        lemma_group_insert_first(entry_views(prev), key@, val@, j as int);
                        assert(entry_views(errors@) =~= entry_views(prev).update(
                            j as int,
                            (
                                entry_views(prev)[j as int].0,
                                entry_views(prev)[j as int].1.push(val@),
                            ),
                        ));
                    }
                },
                None => {
                    let mut msgs: Vec<String> = Vec::new();
                    msgs.push(val);
                    errors.push((key.clone(), msgs));
                    proof {
                        assert(entry_view(errors@[prev.len() as int]).1 =~= seq![
                            pairs@[idx as int].1@,
                        ]);
                        lemma_group_insert_missing(entry_views(prev), key@, val@);
                        assert(entry_views(errors@) =~= entry_views(prev).push(
                            (key@, seq![val@]),
                        ));
                    }
                },
            }
            idx = idx + 1;
        }
        assert(pv.subrange(0, n as int) =~= pv);
        Error::UnprocessableEntity { errors }
    }

    /// The position of the first entry for the given field name, if any.
    fn find_field(errors: &Vec<(String, Vec<String>)>, key: &String) -> (r: Option<usize>)
        ensures
            match r {
                Some(j) => {
                    &&& j < errors@.len()
                    &&& errors@[j as int].0@ == key@
                    &&& forall|p: int| 0 <= p < j ==> (#[trigger] errors@[p]).0@ != key@
                },
                None => forall|p: int| 0 <= p < errors@.len() ==> (#[trigger] errors@[p]).0@
                    != key@,
            },
    {
        let m = errors.len();
        let mut j: usize = 0;
        while j < m
            invariant
                m == errors@.len(),
                j <= m,
                forall|p: int| 0 <= p < j ==> (#[trigger] errors@[p]).0@ != key@,
            decreases m - j,
        {
            if errors[j].0 == *key {
                return Some(j);
            }
            j = j + 1;
        }
        None
    }

    /// A short, fixed description of the error kind, safe to show a caller.
    pub fn message(&self) -> (msg: &'static str)
        ensures
            msg@ == match self {
                Error::Unauthorized => "authentication required"@,
                Error::Forbidden => "user may not perform that action"@,
                Error::NotFound => "request path not found"@,
                Error::UnprocessableEntity { .. } => "error in the request body"@,
                Error::Db => "an internal server error occurred"@,
            },
    {
        match self {
            Error::Unauthorized => "authentication required",
            Error::Forbidden => "user may not perform that action",
            Error::NotFound => "request path not found",
            Error::UnprocessableEntity { .. } => "error in the request body",
            Error::Db => "an internal server error occurred",
        }
    }
}

} // verus!
