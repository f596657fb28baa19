//! The query algebra: a closed, composable query tree (terms, ranges,
//! boolean composition) that validates field names when it is built,
//! supports independent structural duplication, and is safe to hand across
//! a language boundary as an opaque handle.

use vstd::prelude::*;
use crate::TOccur;
use crate::errors::{IndexError, ErrV};
use crate::schema::{Schema, field_index, get_field, FieldType};
use crate::decimal::{FloatVal, FloatV, DecKey, wf_float, parse_float, float_parse_spec};
use crate::text::chars_of;

verus! {

/// One end of a range: inclusive, exclusive, or absent.
#[derive(Clone, Copy, Debug, PartialEq, Eq, Structural)]
pub enum RangeBound {
    Included,
    Excluded,
    Unbounded,
}

/// A range end over values of type `T`.
pub enum Bnd<T> {
    Incl(T),
    Excl(T),
    Unb,
}

/// Spec-level image of a range end over spec values of type `T`.
pub enum BndV<T> {
    Incl(T),
    Excl(T),
    Unb,
}

impl<T: View> View for Bnd<T> {
    type V = BndV<T::V>;

    open spec fn view(&self) -> BndV<T::V> {
        match self {
            Bnd::Incl(v) => BndV::Incl(v@),
            Bnd::Excl(v) => BndV::Excl(v@),
            Bnd::Unb => BndV::Unb,
        }
    }
}

/// A string range end handed across the boundary: the kind of bound and the
/// value, which is ignored for `Unbounded`.
pub struct StringBound {
    pub bound: RangeBound,
    pub value: String,
}

/// A long range end handed across the boundary.
pub struct LongBound {
    pub bound: RangeBound,
    pub value: i64,
}

/// A float range end handed across the boundary: the value is a decimal
/// literal, validated when the query is built.
pub struct FloatBound {
    pub bound: RangeBound,
    pub value: String,
}

/// Value of an exact-match term: text, or a signed 64-bit integer.
pub enum TermValue {
    Text(Vec<char>),
    Long(i64),
}

/// Spec-level image of a [`TermValue`].
pub enum TermV {
    Text(Seq<char>),
    Long(i64),
}

/// A query tree: exact terms, ranges over strings, longs and floats, and
/// boolean composition. The field is an index into the schema, resolved
/// when the node is built; an unknown field name never reaches a query
/// tree.
pub enum TQueryNode {
    Term { field: usize, value: TermValue },
    RangeStr { field: usize, lower: Bnd<Vec<char>>, upper: Bnd<Vec<char>> },
    RangeLong { field: usize, lower: Bnd<i64>, upper: Bnd<i64> },
    RangeFloat { field: usize, lower: Bnd<FloatVal>, upper: Bnd<FloatVal> },
    Boolean { clauses: Vec<TQueryOccur> },
}

/// A clause of a boolean query: a query with its inclusion constraint.
pub struct TQueryOccur {
    pub occur: TOccur,
    pub query: TQueryNode,
}

/// An ordered clause list under construction, consumed by `boolean_query`.
pub struct TQueryOccurVec {
    pub occurs: Vec<TQueryOccur>,
}

/// An opaque query handle: the built query tree.
pub struct TQuery {
    pub node: TQueryNode,
}

/// Spec-level image of a query tree.
pub enum QueryV {
    Term { field: int, value: TermV },
    RangeStr { field: int, lower: BndV<Seq<char>>, upper: BndV<Seq<char>> },
    RangeLong { field: int, lower: BndV<i64>, upper: BndV<i64> },
    RangeFloat { field: int, lower: BndV<FloatV>, upper: BndV<FloatV> },
    Boolean { clauses: Seq<ClauseV> },
}

/// Spec-level image of a clause.
pub struct ClauseV {
    pub occur: TOccur,
    pub query: QueryV,
}

/// Spec-level image of a [`TermValue`].
pub open spec fn term_view(v: TermValue) -> TermV {
    match v {
        TermValue::Text(cs) => TermV::Text(cs@),
        TermValue::Long(x) => TermV::Long(x),
    }
}

/// Spec-level image of a query node.
pub open spec fn node_view(n: TQueryNode) -> QueryV
    decreases n, 0int,
{
    match n {
        TQueryNode::Term { field, value } => QueryV::Term {
            field: field as int,
            value: term_view(value),
        },
        TQueryNode::RangeStr { field, lower, upper } => QueryV::RangeStr {
            field: field as int,
            lower: lower@,
            upper: upper@,
        },
        TQueryNode::RangeLong { field, lower, upper } => QueryV::RangeLong {
            field: field as int,
            lower: lower@,
            upper: upper@,
        },
        TQueryNode::RangeFloat { field, lower, upper } => QueryV::RangeFloat {
            field: field as int,
            lower: lower@,
            upper: upper@,
        },
        TQueryNode::Boolean { clauses } => QueryV::Boolean { clauses: clauses_view(clauses, 0) },
    }
}

/// Spec-level image of the clause tail `cs[i..]`.
pub open spec fn clauses_view(cs: Vec<TQueryOccur>, i: int) -> Seq<ClauseV>
    decreases cs, cs@.len() - i,
{
    if i < 0 || i >= cs@.len() {
        Seq::empty()
    } else {
        seq![
            ClauseV { occur: cs@[i].occur, query: node_view(cs@[i].query) },
        ] + clauses_view(cs, i + 1)
    }
}

/// Pointwise reading of `clauses_view`.
pub proof fn lemma_clauses_view(cs: Vec<TQueryOccur>, i: int)
    requires
        0 <= i <= cs@.len(),
    ensures
        clauses_view(cs, i).len() == cs@.len() - i,
        forall|k: int|
            0 <= k < cs@.len() - i ==> #[trigger] clauses_view(cs, i)[k] == (ClauseV {
                occur: cs@[i + k].occur,
                query: node_view(cs@[i + k].query),
            }),
    decreases cs@.len() - i,
{
    if i < cs@.len() {
        lemma_clauses_view(cs, i + 1);
    }
}

impl View for TQueryNode {
    type V = QueryV;

    open spec fn view(&self) -> QueryV {
        node_view(*self)
    }
}

impl View for TQueryOccur {
    type V = ClauseV;

    open spec fn view(&self) -> ClauseV {
        ClauseV { occur: self.occur, query: node_view(self.query) }
    }
}

impl View for TQueryOccurVec {
    type V = Seq<ClauseV>;

    open spec fn view(&self) -> Seq<ClauseV> {
        clauses_view(self.occurs, 0)
    }
}

impl View for TQuery {
    type V = QueryV;

    open spec fn view(&self) -> QueryV {
        node_view(self.node)
    }
}

/// Well-formedness of a float range end.
pub open spec fn wf_bnd_float(b: BndV<FloatV>) -> bool {
    match b {
        BndV::Incl(f) => wf_float(f),
        BndV::Excl(f) => wf_float(f),
        BndV::Unb => true,
    }
}

/// Well-formedness of a query against a schema of `nfields` fields: every
/// field index resolves, every boolean clause list is non-empty, and float
/// range ends are canonical.
pub open spec fn wf_query(q: QueryV, nfields: int) -> bool
    decreases q, 0int,
{
    match q {
        QueryV::Term { field, .. } => 0 <= field < nfields,
        QueryV::RangeStr { field, .. } => 0 <= field < nfields,
        QueryV::RangeLong { field, .. } => 0 <= field < nfields,
        QueryV::RangeFloat { field, lower, upper } => 0 <= field < nfields && wf_bnd_float(lower)
            && wf_bnd_float(upper),
        QueryV::Boolean { clauses } => clauses.len() > 0 && wf_clauses(clauses, 0, nfields),
    }
}

/// Well-formedness of the clause tail `cs[i..]`.
pub open spec fn wf_clauses(cs: Seq<ClauseV>, i: int, nfields: int) -> bool
    decreases cs, cs.len() - i,
{
    if i < 0 || i >= cs.len() {
        true
    } else {
        wf_query(cs[i].query, nfields) && wf_clauses(cs, i + 1, nfields)
    }
}

/// Pointwise reading of `wf_clauses`.
pub proof fn lemma_wf_clauses(cs: Seq<ClauseV>, i: int, nfields: int)
    requires
        0 <= i <= cs.len(),
    ensures
        wf_clauses(cs, i, nfields) == (forall|k: int|
            i <= k < cs.len() ==> wf_query(#[trigger] cs[k].query, nfields)),
    decreases cs.len() - i,
{
    if i < cs.len() {
        lemma_wf_clauses(cs, i + 1, nfields);
    }
}

/// Copies a character vector.
pub fn clone_chars(v: &Vec<char>) -> (r: Vec<char>)
    ensures
        r@ == v@,
{
    let mut r: Vec<char> = Vec::new();
    let mut i: usize = 0;
    while i < v.len()
        invariant
            0 <= i <= v@.len(),
            r@ =~= v@.subrange(0, i as int),
        decreases v@.len() - i,
    {
        r.push(v[i]);
        proof {
            assert(r@ =~= v@.subrange(0, i + 1));
        }
        i = i + 1;
    }
    proof {
        assert(r@ =~= v@);
    }
    r
}

/// Copies a digit vector.
fn clone_digits(v: &Vec<u8>) -> (r: Vec<u8>)
    ensures
        r@ == v@,
{
    let mut r: Vec<u8> = Vec::new();
    let mut i: usize = 0;
    while i < v.len()
        invariant
            0 <= i <= v@.len(),
            r@ =~= v@.subrange(0, i as int),
        decreases v@.len() - i,
    {
        r.push(v[i]);
        proof {
            assert(r@ =~= v@.subrange(0, i + 1));
        }
        i = i + 1;
    }
    proof {
        assert(r@ =~= v@);
    }
    r
}

/// Copies a float value.
pub fn clone_float(f: &FloatVal) -> (r: FloatVal)
    ensures
        r@ == f@,
{
    match f {
        FloatVal::NegInf => FloatVal::NegInf,
        FloatVal::PosInf => FloatVal::PosInf,
        FloatVal::NaN => FloatVal::NaN,
        FloatVal::Num(d) => FloatVal::Num(
            DecKey { neg: d.neg, digits: clone_digits(&d.digits), point: d.point },
        ),
    }
}

/// Copies a string range end.
fn clone_str_bound(b: &Bnd<Vec<char>>) -> (r: Bnd<Vec<char>>)
    ensures
        r@ == b@,
{
    match b {
        Bnd::Incl(v) => Bnd::Incl(clone_chars(v)),
        Bnd::Excl(v) => Bnd::Excl(clone_chars(v)),
        Bnd::Unb => Bnd::Unb,
    }
}

/// Copies a float range end.
fn clone_float_bound(b: &Bnd<FloatVal>) -> (r: Bnd<FloatVal>)
    ensures
        r@ == b@,
{
    match b {
        Bnd::Incl(v) => Bnd::Incl(clone_float(v)),
        Bnd::Excl(v) => Bnd::Excl(clone_float(v)),
        Bnd::Unb => Bnd::Unb,
    }
}

/// Structural deep copy of a query tree: the copy has the same spec image,
/// so it matches exactly the documents the copied tree matches. A query may
/// therefore be reused across several boolean clauses.
pub fn duplicate_node(n: &TQueryNode) -> (r: TQueryNode)
    ensures
        r@ == n@,
    decreases *n,
{
    match n {
        TQueryNode::Term { field, value } => {
            let v2 = match value {
                TermValue::Text(cs) => TermValue::Text(clone_chars(cs)),
                TermValue::Long(x) => TermValue::Long(*x),
            };
            TQueryNode::Term { field: *field, value: v2 }
        },
        TQueryNode::RangeStr { field, lower, upper } => TQueryNode::RangeStr {
            field: *field,
            lower: clone_str_bound(lower),
            upper: clone_str_bound(upper),
        },
        TQueryNode::RangeLong { field, lower, upper } => TQueryNode::RangeLong {
            field: *field,
            lower: match lower {
                Bnd::Incl(v) => Bnd::Incl(*v),
                Bnd::Excl(v) => Bnd::Excl(*v),
                Bnd::Unb => Bnd::Unb,
            },
            upper: match upper {
                Bnd::Incl(v) => Bnd::Incl(*v),
                Bnd::Excl(v) => Bnd::Excl(*v),
                Bnd::Unb => Bnd::Unb,
            },
        },
        TQueryNode::RangeFloat { field, lower, upper } => TQueryNode::RangeFloat {
            field: *field,
            lower: clone_float_bound(lower),
            upper: clone_float_bound(upper),
        },
        TQueryNode::Boolean { clauses } => {
            let mut cs: Vec<TQueryOccur> = Vec::new();
            let mut i: usize = 0;
            #[verifier::loop_isolation(false)]
            while i < clauses.len()
                invariant
                    0 <= i <= clauses@.len(),
                    cs@.len() == i,
                    forall|k: int|
                        0 <= k < i ==> #[trigger] cs@[k]@ == clauses@[k]@,
                decreases clauses@.len() - i,
            {
                let q2 = duplicate_node(&clauses[i].query);
                cs.push(TQueryOccur { occur: clauses[i].occur, query: q2 });
                i = i + 1;
            }
            proof {
                lemma_clauses_view(cs, 0);
                lemma_clauses_view(*clauses, 0);
                assert forall|k: int| 0 <= k < cs@.len() implies clauses_view(cs, 0)[k]
                    == clauses_view(*clauses, 0)[k] by {
                    assert(cs@[k]@ == clauses@[k]@);
                }
                assert(clauses_view(cs, 0) =~= clauses_view(*clauses, 0));
            }
            TQueryNode::Boolean { clauses: cs }
        },
    }
}

/// Builds an exact-match text term query on a named field, or
/// `FieldNotFound` when the schema holds no field of that name.
pub fn term_node(schema: &Schema, field_name: &String, field_value: &String) -> (r: Result<
    TQueryNode,
    IndexError,
>)
    ensures
        match r {
            Result::Ok(n) => {
                &&& field_index(schema@, field_name@) is Some
                &&& n@ == (QueryV::Term {
                    field: field_index(schema@, field_name@).unwrap(),
                    value: TermV::Text(field_value@),
                })
            },
            Result::Err(e) => {
                &&& field_index(schema@, field_name@) is None
                &&& e@ == (ErrV::FieldNotFound { name: field_name@ })
            },
        },
{
    match get_field(schema, field_name) {
        Option::Some(i) => Result::Ok(
            TQueryNode::Term { field: i, value: TermValue::Text(chars_of(field_value.as_str())) },
        ),
        Option::None => Result::Err(IndexError::FieldNotFound { name: field_name.clone() }),
    }
}

/// Builds an exact-match long term query on a named field.
pub fn term_long_node(schema: &Schema, field_name: &String, field_value: i64) -> (r: Result<
    TQueryNode,
    IndexError,
>)
    ensures
        match r {
            Result::Ok(n) => {
                &&& field_index(schema@, field_name@) is Some
                &&& n@ == (QueryV::Term {
                    field: field_index(schema@, field_name@).unwrap(),
                    value: TermV::Long(field_value),
                })
            },
            Result::Err(e) => {
                &&& field_index(schema@, field_name@) is None
                &&& e@ == (ErrV::FieldNotFound { name: field_name@ })
            },
        },
{
    match get_field(schema, field_name) {
        Option::Some(i) => Result::Ok(
            TQueryNode::Term { field: i, value: TermValue::Long(field_value) },
        ),
        Option::None => Result::Err(IndexError::FieldNotFound { name: field_name.clone() }),
    }
}

/// Spec-level image of a [`StringBound`].
pub open spec fn str_bound_view(kind: RangeBound, value: Seq<char>) -> BndV<Seq<char>> {
    match kind {
        RangeBound::Included => BndV::Incl(value),
        RangeBound::Excluded => BndV::Excl(value),
        RangeBound::Unbounded => BndV::Unb,
    }
}

/// Spec-level image of a [`LongBound`].
pub open spec fn long_bound_view(kind: RangeBound, value: i64) -> BndV<i64> {
    match kind {
        RangeBound::Included => BndV::Incl(value),
        RangeBound::Excluded => BndV::Excl(value),
        RangeBound::Unbounded => BndV::Unb,
    }
}

/// Converts a boundary string bound into the query representation.
fn make_str_bound(b: &StringBound) -> (r: Bnd<Vec<char>>)
    ensures
        r@ == str_bound_view(b.bound, b.value@),
{
    match b.bound {
        RangeBound::Included => Bnd::Incl(chars_of(b.value.as_str())),
        RangeBound::Excluded => Bnd::Excl(chars_of(b.value.as_str())),
        RangeBound::Unbounded => Bnd::Unb,
    }
}

/// Builds a string range query on a named field, over the stored value.
pub fn range_str_node(schema: &Schema, field_name: &String, from_value: &StringBound, to_value:
    &StringBound) -> (r: Result<TQueryNode, IndexError>)
    ensures
        match r {
            Result::Ok(n) => {
                &&& field_index(schema@, field_name@) is Some
                &&& n@ == (QueryV::RangeStr {
                    field: field_index(schema@, field_name@).unwrap(),
                    lower: str_bound_view(from_value.bound, from_value.value@),
                    upper: str_bound_view(to_value.bound, to_value.value@),
                })
            },
            Result::Err(e) => {
                &&& field_index(schema@, field_name@) is None
                &&& e@ == (ErrV::FieldNotFound { name: field_name@ })
            },
        },
{
    match get_field(schema, field_name) {
        Option::Some(i) => Result::Ok(
            TQueryNode::RangeStr {
                field: i,
                lower: make_str_bound(from_value),
                upper: make_str_bound(to_value),
            },
        ),
        Option::None => Result::Err(IndexError::FieldNotFound { name: field_name.clone() }),
    }
}

/// Builds a long range query on a named field.
pub fn range_long_node(schema: &Schema, field_name: &String, from_value: &LongBound, to_value:
    &LongBound) -> (r: Result<TQueryNode, IndexError>)
    ensures
        match r {
            Result::Ok(n) => {
                &&& field_index(schema@, field_name@) is Some
                &&& n@ == (QueryV::RangeLong {
                    field: field_index(schema@, field_name@).unwrap(),
                    lower: long_bound_view(from_value.bound, from_value.value),
                    upper: long_bound_view(to_value.bound, to_value.value),
                })
            },
            Result::Err(e) => {
                &&& field_index(schema@, field_name@) is None
                &&& e@ == (ErrV::FieldNotFound { name: field_name@ })
            },
        },
{
    let mk = |b: RangeBound, v: i64| -> (r: Bnd<i64>)
        ensures
            r@ == long_bound_view(b, v),
        {
            match b {
                RangeBound::Included => Bnd::Incl(v),
                RangeBound::Excluded => Bnd::Excl(v),
                RangeBound::Unbounded => Bnd::Unb,
            }
        };
    match get_field(schema, field_name) {
        Option::Some(i) => Result::Ok(
            TQueryNode::RangeLong {
                field: i,
                lower: mk(from_value.bound, from_value.value),
                upper: mk(to_value.bound, to_value.value),
            },
        ),
        Option::None => Result::Err(IndexError::FieldNotFound { name: field_name.clone() }),
    }
}

/// What a float bound resolves to: the parsed decimal value, or nothing when
/// the literal does not parse.
pub open spec fn float_bound_spec(kind: RangeBound, value: Seq<char>) -> Option<BndV<FloatV>> {
    match kind {
        RangeBound::Unbounded => Option::Some(BndV::Unb),
        RangeBound::Included => match float_parse_spec(value) {
            Option::Some(f) => Option::Some(BndV::Incl(f)),
            Option::None => Option::None,
        },
        RangeBound::Excluded => match float_parse_spec(value) {
            Option::Some(f) => Option::Some(BndV::Excl(f)),
            Option::None => Option::None,
        },
    }
}

/// Converts a boundary float bound, validating its literal.
fn make_float_bound(b: &FloatBound) -> (r: Result<Bnd<FloatVal>, IndexError>)
    ensures
        match r {
            Result::Ok(bv) => {
                &&& float_bound_spec(b.bound, b.value@) == Option::Some(bv@)
                &&& wf_bnd_float(bv@)
            },
            Result::Err(e) => {
                &&& float_bound_spec(b.bound, b.value@) is None
                &&& e@ == (ErrV::ValueParseError { value: b.value@, kind: FieldType::Double })
            },
        },
{
    match b.bound {
        RangeBound::Unbounded => Result::Ok(Bnd::Unb),
        RangeBound::Included => {
            let cs = chars_of(b.value.as_str());
            match parse_float(&cs) {
                Option::Some(f) => Result::Ok(Bnd::Incl(f)),
                Option::None => Result::Err(
                    IndexError::ValueParseError {
                        value: b.value.clone(),
                        kind: FieldType::Double,
                    },
                ),
            }
        },
        RangeBound::Excluded => {
            let cs = chars_of(b.value.as_str());
            match parse_float(&cs) {
                Option::Some(f) => Result::Ok(Bnd::Excl(f)),
                Option::None => Result::Err(
                    IndexError::ValueParseError {
                        value: b.value.clone(),
                        kind: FieldType::Double,
                    },
                ),
            }
        },
    }
}

/// Builds a float range query on a named field. The bound values are
/// decimal literals; a literal that does not parse fails with
/// `ValueParseError`, the lower bound reported first.
pub fn range_float_node(schema: &Schema, field_name: &String, from_value: &FloatBound, to_value:
    &FloatBound) -> (r: Result<TQueryNode, IndexError>)
    ensures
        match r {
            Result::Ok(n) => {
                &&& field_index(schema@, field_name@) is Some
                &&& float_bound_spec(from_value.bound, from_value.value@) is Some
                &&& float_bound_spec(to_value.bound, to_value.value@) is Some
                &&& n@ == (QueryV::RangeFloat {
                    field: field_index(schema@, field_name@).unwrap(),
                    lower: float_bound_spec(from_value.bound, from_value.value@).unwrap(),
                    upper: float_bound_spec(to_value.bound, to_value.value@).unwrap(),
                })
                &&& wf_query(n@, schema@.len() as int)
            },
            Result::Err(e) => match e@ {
                ErrV::FieldNotFound { name } => {
                    &&& field_index(schema@, field_name@) is None
                    &&& name == field_name@
                },
                ErrV::ValueParseError { value, kind } => {
                    &&& field_index(schema@, field_name@) is Some
                    &&& kind == FieldType::Double
                    &&& (value == from_value.value@ || value == to_value.value@)
                    &&& (float_bound_spec(from_value.bound, from_value.value@) is None
                        || float_bound_spec(to_value.bound, to_value.value@) is None)
                },
                _ => false,
            },
        },
{
    match get_field(schema, field_name) {
        Option::Some(i) => {
            let lower = match make_float_bound(from_value) {
                Result::Ok(b) => b,
                Result::Err(e) => {
                    return Result::Err(e);
                },
            };
            let upper = match make_float_bound(to_value) {
                Result::Ok(b) => b,
                Result::Err(e) => {
                    return Result::Err(e);
                },
            };
            Result::Ok(TQueryNode::RangeFloat { field: i, lower, upper })
        },
        Option::None => Result::Err(IndexError::FieldNotFound { name: field_name.clone() }),
    }
}

/// Builds a boolean query from the accumulated clauses, which are copied.
/// An empty clause list is rejected: a boolean query must hold at least one
/// clause. Each of the three inclusion constraints is a closed variant, so
/// no clause is ever skipped.
pub fn boolean_node(queries: &TQueryOccurVec) -> (r: Result<TQueryNode, IndexError>)
    ensures
        match r {
            Result::Ok(n) => {
                &&& queries@.len() > 0
                &&& n@ == (QueryV::Boolean { clauses: queries@ })
            },
            Result::Err(e) => {
                &&& queries@.len() == 0
                &&& e@ is EngineError
            },
        },
{
    proof {
        lemma_clauses_view(queries.occurs, 0);
    }
    if queries.occurs.len() == 0 {
        return Result::Err(
            IndexError::EngineError { message: String::from_str("empty boolean clause list") },
        );
    }
    let mut cs: Vec<TQueryOccur> = Vec::new();
    let mut i: usize = 0;
    while i < queries.occurs.len()
        invariant
            0 <= i <= queries.occurs@.len(),
            cs@.len() == i,
            forall|k: int| 0 <= k < i ==> #[trigger] cs@[k]@ == queries.occurs@[k]@,
        decreases queries.occurs@.len() - i,
    {
        let q2 = duplicate_node(&queries.occurs[i].query);
        cs.push(TQueryOccur { occur: queries.occurs[i].occur, query: q2 });
        i = i + 1;
    }
    proof {
        lemma_clauses_view(cs, 0);
        lemma_clauses_view(queries.occurs, 0);
        assert forall|k: int| 0 <= k < cs@.len() implies clauses_view(cs, 0)[k] == clauses_view(
            queries.occurs,
            0,
        )[k] by {
            assert(cs@[k]@ == queries.occurs@[k]@);
        }
        assert(clauses_view(cs, 0) =~= clauses_view(queries.occurs, 0));
    }
    Result::Ok(TQueryNode::Boolean { clauses: cs })
}

/// Pairs a query with an inclusion constraint; the query is copied.
pub fn query_occurr(occurr: &TOccur, tquery: &mut TQuery) -> (r: Box<TQueryOccur>)
    ensures
        *final(tquery) == *old(tquery),
        r@ == (ClauseV { occur: *occurr, query: old(tquery)@ }),
{
    let q = duplicate_node(&tquery.node);
    Box::new(TQueryOccur { occur: *occurr, query: q })
}

/// A fresh, empty clause list.
pub fn query_occur_vec() -> (r: Box<TQueryOccurVec>)
    ensures
        r@ == Seq::<ClauseV>::empty(),
{
    Box::new(TQueryOccurVec { occurs: Vec::new() })
}

/// Appends a clause (copied) to a clause list, preserving order.
pub fn append_query_occur_to_vec(occurs_vec: &mut TQueryOccurVec, query_occur: &mut TQueryOccur)
    ensures
        *final(query_occur) == *old(query_occur),
        final(occurs_vec)@ == old(occurs_vec)@.push(old(query_occur)@),
{
    let ghost cs0 = occurs_vec.occurs;
    let q = duplicate_node(&query_occur.query);
    let t = TQueryOccur { occur: query_occur.occur, query: q };
    proof {
        assert(t@ == query_occur@);
    }
    occurs_vec.occurs.push(t);
    proof {
        lemma_clauses_view(occurs_vec.occurs, 0);
        lemma_clauses_view(cs0, 0);
        assert(clauses_view(occurs_vec.occurs, 0) =~= clauses_view(cs0, 0).push(t@));
    }
}

} // verus!
