//! An embeddable document-indexing session: a host application supplies a
//! field schema, feeds it documents, and issues queries through a composable,
//! validated query algebra, receiving either materialized identifiers or a
//! compact identifier set for constant-time membership tests.
//!
//! The crate models the session itself — schema resolution, the query
//! algebra, document validation, the add/delete/commit lifecycle with
//! reload-on-commit visibility, and both result-extraction strategies — and
//! every contract here is verified. The inverted-index engine behind a
//! production deployment owns tokenization, scoring and the on-disk segment
//! format; an embedding drives it with the validated values this crate hands
//! back.

pub mod decimal;
pub mod doc;
pub mod errors;
pub mod eval;
pub mod extract;
pub mod laws;
pub mod query;
pub mod schema;
pub mod session;
pub mod text;
pub mod values;

use vstd::prelude::*;
use crate::errors::{IndexError, ErrV};
use crate::schema::field_index;
use crate::query::{TQuery, QueryV, TermV, wf_query, wf_clauses, TQueryOccurVec, str_bound_view,
    long_bound_view, float_bound_spec, StringBound, LongBound, FloatBound};
use crate::session::Searcher;

verus! {

/// Clause-inclusion constraint for a clause of a boolean query: a `Should`
/// clause is a non-exclusive union member, a `Must` clause is required, and a
/// `MustNot` clause excludes matching documents.
#[derive(Clone, Copy, Debug, PartialEq, Eq, Structural)]
pub enum TOccur {
    Should,
    Must,
    MustNot,
}

/// Builds an exact-match text term query against the session's schema.
pub fn term_query(searcher: &mut Searcher, field_name: &String, field_value: &String) -> (r: Result<
    Box<TQuery>,
    IndexError,
>)
    ensures
        *final(searcher) == *old(searcher),
        match r {
            Result::Ok(q) => {
                &&& field_index(old(searcher)@.schema, field_name@) is Some
                &&& q@ == (QueryV::Term {
                    field: field_index(old(searcher)@.schema, field_name@).unwrap(),
                    value: TermV::Text(field_value@),
                })
                &&& wf_query(q@, old(searcher)@.schema.len() as int)
            },
            Result::Err(e) => {
                &&& field_index(old(searcher)@.schema, field_name@) is None
                &&& e@ == (ErrV::FieldNotFound { name: field_name@ })
            },
        },
{
    proof {
        crate::schema::lemma_field_index_first(searcher@.schema, field_name@);
    }
    match crate::query::term_node(searcher.schema_ref(), field_name, field_value) {
        Result::Ok(n) => Result::Ok(Box::new(TQuery { node: n })),
        Result::Err(e) => Result::Err(e),
    }
}

/// Builds an exact-match long term query against the session's schema.
pub fn term_query_long(searcher: &mut Searcher, field_name: &String, field_value: i64) -> (r:
    Result<Box<TQuery>, IndexError>)
    ensures
        *final(searcher) == *old(searcher),
        match r {
            Result::Ok(q) => {
                &&& field_index(old(searcher)@.schema, field_name@) is Some
                &&& q@ == (QueryV::Term {
                    field: field_index(old(searcher)@.schema, field_name@).unwrap(),
                    value: TermV::Long(field_value),
                })
                &&& wf_query(q@, old(searcher)@.schema.len() as int)
            },
            Result::Err(e) => {
                &&& field_index(old(searcher)@.schema, field_name@) is None
                &&& e@ == (ErrV::FieldNotFound { name: field_name@ })
            },
        },
{
    proof {
        crate::schema::lemma_field_index_first(searcher@.schema, field_name@);
    }
    match crate::query::term_long_node(searcher.schema_ref(), field_name, field_value) {
        Result::Ok(n) => Result::Ok(Box::new(TQuery { node: n })),
        Result::Err(e) => Result::Err(e),
    }
}

/// Builds a string range query against the session's schema, over the
/// stored field value.
pub fn range_query(searcher: &mut Searcher, field_name: &String, from_value: &StringBound,
    to_value: &StringBound) -> (r: Result<Box<TQuery>, IndexError>)
    ensures
        *final(searcher) == *old(searcher),
        match r {
            Result::Ok(q) => {
                &&& field_index(old(searcher)@.schema, field_name@) is Some
                &&& q@ == (QueryV::RangeStr {
                    field: field_index(old(searcher)@.schema, field_name@).unwrap(),
                    lower: str_bound_view(from_value.bound, from_value.value@),
                    upper: str_bound_view(to_value.bound, to_value.value@),
                })
                &&& wf_query(q@, old(searcher)@.schema.len() as int)
            },
            Result::Err(e) => {
                &&& field_index(old(searcher)@.schema, field_name@) is None
                &&& e@ == (ErrV::FieldNotFound { name: field_name@ })
            },
        },
{
    proof {
        crate::schema::lemma_field_index_first(searcher@.schema, field_name@);
    }
    match crate::query::range_str_node(searcher.schema_ref(), field_name, from_value, to_value) {
        Result::Ok(n) => Result::Ok(Box::new(TQuery { node: n })),
        Result::Err(e) => Result::Err(e),
    }
}

/// Builds a float range query against the session's schema; the bound
/// values are decimal literals, validated here.
pub fn range_query_float(searcher: &mut Searcher, field_name: &String, from_value: &FloatBound,
    to_value: &FloatBound) -> (r: Result<Box<TQuery>, IndexError>)
    ensures
        *final(searcher) == *old(searcher),
        match r {
            Result::Ok(q) => {
                &&& field_index(old(searcher)@.schema, field_name@) is Some
                &&& float_bound_spec(from_value.bound, from_value.value@) is Some
                &&& float_bound_spec(to_value.bound, to_value.value@) is Some
                &&& q@ == (QueryV::RangeFloat {
                    field: field_index(old(searcher)@.schema, field_name@).unwrap(),
                    lower: float_bound_spec(from_value.bound, from_value.value@).unwrap(),
                    upper: float_bound_spec(to_value.bound, to_value.value@).unwrap(),
                })
                &&& wf_query(q@, old(searcher)@.schema.len() as int)
            },
            Result::Err(e) => match e@ {
                ErrV::FieldNotFound { name } => {
                    &&& field_index(old(searcher)@.schema, field_name@) is None
                    &&& name == field_name@
                },
                ErrV::ValueParseError { value, kind } => {
                    &&& field_index(old(searcher)@.schema, field_name@) is Some
                    &&& (float_bound_spec(from_value.bound, from_value.value@) is None
                        || float_bound_spec(to_value.bound, to_value.value@) is None)
                },
                _ => false,
            },
        },
{
    proof {
        crate::schema::lemma_field_index_first(searcher@.schema, field_name@);
    }
    match crate::query::range_float_node(searcher.schema_ref(), field_name, from_value, to_value) {
        Result::Ok(n) => Result::Ok(Box::new(TQuery { node: n })),
        Result::Err(e) => Result::Err(e),
    }
}

/// Builds a long range query against the session's schema.
pub fn range_query_long(searcher: &mut Searcher, field_name: &String, from_value: &LongBound,
    to_value: &LongBound) -> (r: Result<Box<TQuery>, IndexError>)
    ensures
        *final(searcher) == *old(searcher),
        match r {
            Result::Ok(q) => {
                &&& field_index(old(searcher)@.schema, field_name@) is Some
                &&& q@ == (QueryV::RangeLong {
                    field: field_index(old(searcher)@.schema, field_name@).unwrap(),
                    lower: long_bound_view(from_value.bound, from_value.value),
                    upper: long_bound_view(to_value.bound, to_value.value),
                })
                &&& wf_query(q@, old(searcher)@.schema.len() as int)
            },
            Result::Err(e) => {
                &&& field_index(old(searcher)@.schema, field_name@) is None
                &&& e@ == (ErrV::FieldNotFound { name: field_name@ })
            },
        },
{
    proof {
        crate::schema::lemma_field_index_first(searcher@.schema, field_name@);
    }
    match crate::query::range_long_node(searcher.schema_ref(), field_name, from_value, to_value) {
        Result::Ok(n) => Result::Ok(Box::new(TQuery { node: n })),
        Result::Err(e) => Result::Err(e),
    }
}

/// Builds a boolean query from the accumulated clauses, which must be
/// non-empty. Each clause's constraint is a closed variant, so no clause is
/// ever skipped.
pub fn boolean_query(queries: &TQueryOccurVec) -> (r: Result<Box<TQuery>, IndexError>)
    ensures
        match r {
            Result::Ok(q) => {
                &&& queries@.len() > 0
                &&& q@ == (QueryV::Boolean { clauses: queries@ })
                &&& forall|n: int|
                    wf_clauses(queries@, 0, n) ==> wf_query(q@, n)
            },
            Result::Err(e) => {
                &&& queries@.len() == 0
                &&& e@ is EngineError
            },
        },
{
    match crate::query::boolean_node(queries) {
        Result::Ok(n) => Result::Ok(Box::new(TQuery { node: n })),
        Result::Err(e) => Result::Err(e),
    }
}

} // verus!
