//! How the stored records are looked up: which query a lookup runs, the
//! pattern that finds a subtree of libraries, and the page of a listing.

use vstd::prelude::*;

use crate::dto::ObjectIdBytes;
use crate::path::push_char;

verus! {

/// Why a lookup cannot be made.
#[derive(Clone, Copy, Debug, PartialEq, Eq, Structural)]
pub enum CrudError {
    /// Neither a query nor an object id was given.
    ObjectIdNotSet,
}

impl CrudError {
    /// The message that the error reports.
    pub fn message(&self) -> (res: &'static str)
        ensures
            res@ == "object id is not set"@,
    {
        "object id is not set"
    }
}

/// What a lookup of one record runs: the query it was given, or a query by
/// the record's id.
pub enum SingleSelection<Q> {
    Query(Q),
    Id(ObjectIdBytes),
}

/// What a lookup of several records runs: the query it was given, or a
/// query for the records with any of the ids.
pub enum ManySelection<Q> {
    Query(Q),
    Ids(Vec<ObjectIdBytes>),
}

/// The lookup of one record: by `query` where one is given, else by `id`;
/// with neither, an error.
pub fn select_single<Q>(id: Option<ObjectIdBytes>, query: Option<Q>) -> (res: Result<SingleSelection<Q>, CrudError>)
    ensures
        match query {
            Some(q) => res matches Ok(SingleSelection::Query(r)) && r == q,
            None => match id {
                Some(i) => res matches Ok(SingleSelection::Id(r)) && r == i,
                None => res matches Err(CrudError::ObjectIdNotSet),
            },
        },
{
    match query {
        Some(q) => Ok(SingleSelection::Query(q)),
        None => match id {
            Some(i) => Ok(SingleSelection::Id(i)),
            None => Err(CrudError::ObjectIdNotSet),
        },
    }
}

/// A copy of the ids `ids`.
fn copy_ids(ids: &Vec<ObjectIdBytes>) -> (res: Vec<ObjectIdBytes>)
    ensures
        res@ == ids@,
{
    let mut res: Vec<ObjectIdBytes> = Vec::new();
    let mut i: usize = 0;
    while i < ids.len()
        invariant
            i <= ids@.len(),
            res@ == ids@.take(i as int),
        decreases ids@.len() - i,
    {
        res.push(ids[i]);
        assert(ids@.take(i + 1) =~= ids@.take(i as int).push(ids@[i as int]));
        i = i + 1;
    }
    assert(ids@.take(ids@.len() as int) =~= ids@);
    res
}

/// The lookup of several records: by `query` where one is given, else by
/// the ids `ids`; with neither, an error.
pub fn select_many<Q>(ids: Option<&Vec<ObjectIdBytes>>, query: Option<Q>) -> (res: Result<ManySelection<Q>, CrudError>)
    ensures
        query is Some ==> (res matches Ok(ManySelection::Query(r)) && r == query.unwrap()),
        query is None && ids is Some ==> (res matches Ok(ManySelection::Ids(r)) && r@ == ids.unwrap()@),
        query is None && ids is None ==> res matches Err(CrudError::ObjectIdNotSet),
{
    match query {
        Some(q) => Ok(ManySelection::Query(q)),
        None => match ids {
            Some(v) => Ok(ManySelection::Ids(copy_ids(v))),
            None => Err(CrudError::ObjectIdNotSet),
        },
    }
}

/// The regular expression that a path field is matched against to find
/// the records under the materialized path `path`: `^` and the path.
pub fn path_pattern(path: &str) -> (res: String)
    ensures
        res@ == seq!['^'] + path@,
{
    let mut res = String::new();
    push_char(&mut res, '^');
    for c in it: path.chars()
        invariant
            res@ == seq!['^'] + it.seq().take(it.index()),
    {
        assert(it.seq().take(it.index() + 1) == it.seq().take(it.index()).push(c));
        push_char(&mut res, c);
    }
    res
}

} // verus!
