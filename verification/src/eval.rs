//! Query evaluation: what it means for a stored document to match a query,
//! and the executable evaluator proved against it.

use vstd::prelude::*;
use crate::TOccur;
use crate::schema::{Schema, FieldV, FieldType};
use crate::doc::{StoredDoc, StoredDocV, StoredV, wf_doc};
use crate::query::{TQueryNode, QueryV, ClauseV, TermV, BndV, wf_query, wf_clauses, lemma_wf_clauses};
use crate::decimal::{FloatV, float_lt, float_cmp, wf_float};
use crate::text::{lex_lt, lex_cmp, has_token, lower_seq, lower_chars, contains_token, chars_eq};

verus! {

/// Whether a long value lies between the bounds.
pub open spec fn long_in_bounds(lo: BndV<i64>, hi: BndV<i64>, v: i64) -> bool {
    &&& match lo {
        BndV::Incl(x) => x <= v,
        BndV::Excl(x) => x < v,
        BndV::Unb => true,
    }
    &&& match hi {
        BndV::Incl(x) => v <= x,
        BndV::Excl(x) => v < x,
        BndV::Unb => true,
    }
}

/// Whether a string lies between the bounds, in lexicographic order by
/// code point — the order the engine gives term bytes.
pub open spec fn str_in_bounds(lo: BndV<Seq<char>>, hi: BndV<Seq<char>>, s: Seq<char>) -> bool {
    &&& match lo {
        BndV::Incl(x) => lex_lt(x, s) || x == s,
        BndV::Excl(x) => lex_lt(x, s),
        BndV::Unb => true,
    }
    &&& match hi {
        BndV::Incl(x) => lex_lt(s, x) || s == x,
        BndV::Excl(x) => lex_lt(s, x),
        BndV::Unb => true,
    }
}

/// Whether a float value lies between the bounds, in the model's decimal
/// order.
pub open spec fn float_in_bounds(lo: BndV<FloatV>, hi: BndV<FloatV>, f: FloatV) -> bool {
    &&& match lo {
        BndV::Incl(x) => float_lt(x, f) || x == f,
        BndV::Excl(x) => float_lt(x, f),
        BndV::Unb => true,
    }
    &&& match hi {
        BndV::Incl(x) => float_lt(f, x) || f == x,
        BndV::Excl(x) => float_lt(f, x),
        BndV::Unb => true,
    }
}

/// Whether a stored value matches a term. A long term matches an equal
/// stored long. A text term on a tokenized (`Text`) field matches when the
/// stored text holds the lowercased term as a token; on an untokenized
/// string field it matches the whole stored string exactly.
pub open spec fn term_value_matches(sch: Seq<FieldV>, field: int, v: StoredV, tv: TermV) -> bool {
    match (tv, v) {
        (TermV::Long(x), StoredV::L(y)) => x == y,
        (TermV::Text(tok), StoredV::S(s)) => if 0 <= field < sch.len() && sch[field].kind
            == FieldType::Text {
            has_token(s, lower_seq(tok))
        } else {
            s == tok
        },
        _ => false,
    }
}

/// Whether a document matches a query: some value of the named field
/// matches the term or lies in the range, or the boolean composition
/// holds — every `Must` clause matches, no `MustNot` clause matches, and
/// at least one `Should` or `Must` clause matches.
pub open spec fn doc_matches(sch: Seq<FieldV>, d: StoredDocV, q: QueryV) -> bool
    decreases q, 0int,
{
    match q {
        QueryV::Term { field, value } => exists|i: int|
            0 <= i < d.vals.len() && (#[trigger] d.vals[i]).field == field && term_value_matches(
                sch,
                field,
                d.vals[i].value,
                value,
            ),
        QueryV::RangeStr { field, lower, upper } => exists|i: int|
            0 <= i < d.vals.len() && (#[trigger] d.vals[i]).field == field && d.vals[i].value is S
                && str_in_bounds(lower, upper, d.vals[i].value->S_0),
        QueryV::RangeLong { field, lower, upper } => exists|i: int|
            0 <= i < d.vals.len() && (#[trigger] d.vals[i]).field == field && d.vals[i].value is L
                && long_in_bounds(lower, upper, d.vals[i].value->L_0),
        QueryV::RangeFloat { field, lower, upper } => exists|i: int|
            0 <= i < d.vals.len() && (#[trigger] d.vals[i]).field == field && d.vals[i].value is F
                && float_in_bounds(lower, upper, d.vals[i].value->F_0),
        QueryV::Boolean { clauses } => {
            &&& musts_ok(sch, d, clauses, 0)
            &&& mustnots_ok(sch, d, clauses, 0)
            &&& positive_hit(sch, d, clauses, 0)
        },
    }
}

/// Every `Must` clause of `cs[i..]` matches.
pub open spec fn musts_ok(sch: Seq<FieldV>, d: StoredDocV, cs: Seq<ClauseV>, i: int) -> bool
    decreases cs, cs.len() - i,
{
    if i < 0 || i >= cs.len() {
        true
    } else {
        (cs[i].occur == TOccur::Must ==> doc_matches(sch, d, cs[i].query)) && musts_ok(
            sch,
            d,
            cs,
            i + 1,
        )
    }
}

/// No `MustNot` clause of `cs[i..]` matches.
pub open spec fn mustnots_ok(sch: Seq<FieldV>, d: StoredDocV, cs: Seq<ClauseV>, i: int) -> bool
    decreases cs, cs.len() - i,
{
    if i < 0 || i >= cs.len() {
        true
    } else {
        (cs[i].occur == TOccur::MustNot ==> !doc_matches(sch, d, cs[i].query)) && mustnots_ok(
            sch,
            d,
            cs,
            i + 1,
        )
    }
}

/// Some `Should` or `Must` clause of `cs[i..]` matches.
pub open spec fn positive_hit(sch: Seq<FieldV>, d: StoredDocV, cs: Seq<ClauseV>, i: int) -> bool
    decreases cs, cs.len() - i,
{
    if i < 0 || i >= cs.len() {
        false
    } else {
        (cs[i].occur != TOccur::MustNot && doc_matches(sch, d, cs[i].query)) || positive_hit(
            sch,
            d,
            cs,
            i + 1,
        )
    }
}

/// `musts_ok` read as a quantifier.
pub proof fn lemma_musts_ok(sch: Seq<FieldV>, d: StoredDocV, cs: Seq<ClauseV>, i: int)
    requires
        0 <= i <= cs.len(),
    ensures
        musts_ok(sch, d, cs, i) == (forall|k: int|
            i <= k < cs.len() && (#[trigger] cs[k]).occur == TOccur::Must ==> doc_matches(
                sch,
                d,
                cs[k].query,
            )),
    decreases cs.len() - i,
{
    if i < cs.len() {
        lemma_musts_ok(sch, d, cs, i + 1);
    }
}

/// `mustnots_ok` read as a quantifier.
pub proof fn lemma_mustnots_ok(sch: Seq<FieldV>, d: StoredDocV, cs: Seq<ClauseV>, i: int)
    requires
        0 <= i <= cs.len(),
    ensures
        mustnots_ok(sch, d, cs, i) == (forall|k: int|
            i <= k < cs.len() && (#[trigger] cs[k]).occur == TOccur::MustNot ==> !doc_matches(
                sch,
                d,
                cs[k].query,
            )),
    decreases cs.len() - i,
{
    if i < cs.len() {
        lemma_mustnots_ok(sch, d, cs, i + 1);
    }
}

/// `positive_hit` read as a quantifier.
pub proof fn lemma_positive_hit(sch: Seq<FieldV>, d: StoredDocV, cs: Seq<ClauseV>, i: int)
    requires
        0 <= i <= cs.len(),
    ensures
        positive_hit(sch, d, cs, i) == (exists|k: int|
            i <= k < cs.len() && (#[trigger] cs[k]).occur != TOccur::MustNot && doc_matches(
                sch,
                d,
                cs[k].query,
            )),
    decreases cs.len() - i,
{
    if i < cs.len() {
        lemma_positive_hit(sch, d, cs, i + 1);
    }
}

/// Evaluates a term against one stored value.
fn eval_term_value(schema: &Schema, field: usize, v: &crate::doc::StoredValue, tv:
    &crate::query::TermValue) -> (r: bool)
    requires
        (field as int) < schema@.len(),
    ensures
        r == term_value_matches(schema@, field as int, v@, crate::query::term_view(*tv)),
{
    match (tv, v) {
        (crate::query::TermValue::Long(x), crate::doc::StoredValue::L(y)) => *x == *y,
        (crate::query::TermValue::Text(tok), crate::doc::StoredValue::S(s)) => {
            let kind_is_text = {
                let e = &schema.fields[field];
                match e.kind {
                    FieldType::Text => true,
                    _ => false,
                }
            };
            proof {
                assert(schema@[field as int].kind == schema.fields@[field as int]@.kind);
            }
            if kind_is_text {
                let low = lower_chars(tok);
                contains_token(s, &low)
            } else {
                chars_eq(s, tok)
            }
        },
        _ => false,
    }
}

/// Evaluates a long range against one stored value.
fn eval_long_bounds(lo: &crate::query::Bnd<i64>, hi: &crate::query::Bnd<i64>, v: i64) -> (r: bool)
    ensures
        r == long_in_bounds(lo@, hi@, v),
{
    let lo_ok = match lo {
        crate::query::Bnd::Incl(x) => *x <= v,
        crate::query::Bnd::Excl(x) => *x < v,
        crate::query::Bnd::Unb => true,
    };
    let hi_ok = match hi {
        crate::query::Bnd::Incl(x) => v <= *x,
        crate::query::Bnd::Excl(x) => v < *x,
        crate::query::Bnd::Unb => true,
    };
    lo_ok && hi_ok
}

/// Evaluates a string range against one stored value.
fn eval_str_bounds(lo: &crate::query::Bnd<Vec<char>>, hi: &crate::query::Bnd<Vec<char>>, s:
    &Vec<char>) -> (r: bool)
    ensures
        r == str_in_bounds(lo@, hi@, s@),
{
    let lo_ok = match lo {
        crate::query::Bnd::Incl(x) => {
            let c = lex_cmp(x, s);
            c == 0 || c == 1
        },
        crate::query::Bnd::Excl(x) => lex_cmp(x, s) == 0,
        crate::query::Bnd::Unb => true,
    };
    let hi_ok = match hi {
        crate::query::Bnd::Incl(x) => {
            let c = lex_cmp(s, x);
            c == 0 || c == 1
        },
        crate::query::Bnd::Excl(x) => lex_cmp(s, x) == 0,
        crate::query::Bnd::Unb => true,
    };
    lo_ok && hi_ok
}

/// Evaluates a float range against one stored value.
fn eval_float_bounds(lo: &crate::query::Bnd<crate::decimal::FloatVal>, hi: &crate::query::Bnd<
    crate::decimal::FloatVal,
>, f: &crate::decimal::FloatVal) -> (r: bool)
    requires
        crate::query::wf_bnd_float(lo@),
        crate::query::wf_bnd_float(hi@),
        wf_float(f@),
    ensures
        r == float_in_bounds(lo@, hi@, f@),
{
    let lo_ok = match lo {
        crate::query::Bnd::Incl(x) => {
            let c = float_cmp(x, f);
            c == 0 || c == 1
        },
        crate::query::Bnd::Excl(x) => float_cmp(x, f) == 0,
        crate::query::Bnd::Unb => true,
    };
    let hi_ok = match hi {
        crate::query::Bnd::Incl(x) => {
            let c = float_cmp(f, x);
            c == 0 || c == 1
        },
        crate::query::Bnd::Excl(x) => float_cmp(f, x) == 0,
        crate::query::Bnd::Unb => true,
    };
    lo_ok && hi_ok
}

/// Evaluates a query against one stored document.
pub fn eval_query(schema: &Schema, d: &StoredDoc, q: &TQueryNode) -> (r: bool)
    requires
        wf_query(q@, schema@.len() as int),
        wf_doc(d@, schema@.len() as int),
    ensures
        r == doc_matches(schema@, d@, q@),
    decreases *q,
{
    match q {
        TQueryNode::Term { field, value } => {
            let n = d.vals.len();
            let mut i: usize = 0;
            #[verifier::loop_isolation(false)]
            while i < n
                invariant
                    0 <= i <= n,
                    forall|k: int|
                        0 <= k < i ==> !((#[trigger] d@.vals[k]).field == *field as int
                            && term_value_matches(schema@, *field as int, d@.vals[k].value,
                        crate::query::term_view(*value))),
                decreases n - i,
            {
                let fv = &d.vals[i];
                proof {
                    assert(fv@ == d@.vals[i as int]);
                }
                if fv.field == *field {
                    if eval_term_value(schema, *field, &fv.value, value) {
                        return true;
                    }
                }
                i = i + 1;
            }
            false
        },
        TQueryNode::RangeStr { field, lower, upper } => {
            let n = d.vals.len();
            let mut i: usize = 0;
            #[verifier::loop_isolation(false)]
            while i < n
                invariant
                    0 <= i <= n,
                    forall|k: int|
                        0 <= k < i ==> !((#[trigger] d@.vals[k]).field == *field as int
                            && d@.vals[k].value is S && str_in_bounds(lower@, upper@,
                        d@.vals[k].value->S_0)),
                decreases n - i,
            {
                let fv = &d.vals[i];
                proof {
                    assert(fv@ == d@.vals[i as int]);
                }
                if fv.field == *field {
                    match &fv.value {
                        crate::doc::StoredValue::S(s) => {
                            if eval_str_bounds(lower, upper, s) {
                                return true;
                            }
                        },
                        _ => {},
                    }
                }
                i = i + 1;
            }
            false
        },
        TQueryNode::RangeLong { field, lower, upper } => {
            let n = d.vals.len();
            let mut i: usize = 0;
            #[verifier::loop_isolation(false)]
            while i < n
                invariant
                    0 <= i <= n,
                    forall|k: int|
                        0 <= k < i ==> !((#[trigger] d@.vals[k]).field == *field as int
                            && d@.vals[k].value is L && long_in_bounds(lower@, upper@,
                        d@.vals[k].value->L_0)),
                decreases n - i,
            {
                let fv = &d.vals[i];
                proof {
                    assert(fv@ == d@.vals[i as int]);
                }
                if fv.field == *field {
                    match &fv.value {
                        crate::doc::StoredValue::L(x) => {
                            if eval_long_bounds(lower, upper, *x) {
                                return true;
                            }
                        },
                        _ => {},
                    }
                }
                i = i + 1;
            }
            false
        },
        TQueryNode::RangeFloat { field, lower, upper } => {
            let n = d.vals.len();
            let mut i: usize = 0;
            #[verifier::loop_isolation(false)]
            while i < n
                invariant
                    0 <= i <= n,
                    forall|k: int|
                        0 <= k < i ==> !((#[trigger] d@.vals[k]).field == *field as int
                            && d@.vals[k].value is F && float_in_bounds(lower@, upper@,
                        d@.vals[k].value->F_0)),
                decreases n - i,
            {
                let fv = &d.vals[i];
                proof {
                    assert(fv@ == d@.vals[i as int]);
                    assert(crate::doc::wf_stored(d@.vals[i as int].value));
                }
                if fv.field == *field {
                    match &fv.value {
                        crate::doc::StoredValue::F(x) => {
                            if eval_float_bounds(lower, upper, x) {
                                return true;
                            }
                        },
                        _ => {},
                    }
                }
                i = i + 1;
            }
            false
        },
        TQueryNode::Boolean { clauses } => {
            let ghost cs = crate::query::clauses_view(*clauses, 0);
            proof {
                crate::query::lemma_clauses_view(*clauses, 0);
                lemma_wf_clauses(cs, 0, schema@.len() as int);
            }
            let n = clauses.len();
            let mut m_acc = true;
            let mut mn_acc = true;
            let mut pos_acc = false;
            let mut i: usize = 0;
            #[verifier::loop_isolation(false)]
            while i < n
                invariant
                    0 <= i <= n,
                    musts_ok(schema@, d@, cs, 0) == (m_acc && musts_ok(schema@, d@, cs, i as int)),
                    mustnots_ok(schema@, d@, cs, 0) == (mn_acc && mustnots_ok(schema@, d@, cs,
                    i as int)),
                    positive_hit(schema@, d@, cs, 0) == (pos_acc || positive_hit(schema@, d@, cs,
                    i as int)),
                decreases n - i,
            {
                let clause = &clauses[i];
                proof {
                    assert(clause@ == cs[i as int]);
                    assert(wf_query(cs[i as int].query, schema@.len() as int));
                }
                let qm = eval_query(schema, d, &clause.query);
                let is_must = match clause.occur {
                    TOccur::Must => true,
                    _ => false,
                };
                let is_mustnot = match clause.occur {
                    TOccur::MustNot => true,
                    _ => false,
                };
                m_acc = m_acc && (!is_must || qm);
                mn_acc = mn_acc && (!is_mustnot || !qm);
                pos_acc = pos_acc || (!is_mustnot && qm);
                i = i + 1;
            }
            m_acc && mn_acc && pos_acc
        },
    }
}

} // verus!
