//! The library-wide laws: visibility of committed work, invisibility of
//! buffered work, deletion, agreement of the two result extractors, and
//! the boolean and range matching semantics.

use vstd::prelude::*;
use crate::schema::FieldV;
use crate::doc::{StoredDocV, StoredV, wf_doc};
use crate::query::{QueryV, ClauseV, TermV, BndV};
use crate::session::{PendingV, apply_ops, apply_op, remove_id};
use crate::eval::{
    doc_matches, lemma_musts_ok, lemma_mustnots_ok, lemma_positive_hit, long_in_bounds,
    str_in_bounds, float_in_bounds,
};
use crate::extract::{compact_ids, matched_ids, abs64};
use crate::decimal::FloatV;
use crate::TOccur;

verus! {

/// A well-formed stored document matches the exact identifier term query on
/// the identifier field: its first stored value is its identifier.
pub proof fn lemma_doc_matches_own_id(sch: Seq<FieldV>, d: StoredDocV)
    requires
        wf_doc(d, sch.len() as int),
    ensures
        doc_matches(sch, d, QueryV::Term { field: 0, value: TermV::Long(d.doc_id) }),
{
    assert(d.vals[0].field == 0 && d.vals[0].value == StoredV::L(d.doc_id));
}

/// What stays of a document under `remove_id`: every document whose
/// identifier differs survives, and none carrying the identifier does.
pub proof fn lemma_remove_id_keeps(s: Seq<StoredDocV>, id: i64, idx: int)
    requires
        0 <= idx < s.len(),
        s[idx].doc_id != id,
    ensures
        exists|k: int| 0 <= k < remove_id(s, id).len() && #[trigger] remove_id(s, id)[k] == s[idx],
    decreases s.len(),
{
    if s.len() > 0 {
        let pre = remove_id(s.drop_last(), id);
        if idx == s.len() - 1 {
            assert(remove_id(s, id) == pre.push(s.last()));
            assert(remove_id(s, id)[pre.len() as int] == s[idx]);
        } else {
            assert(s.drop_last()[idx] == s[idx]);
            lemma_remove_id_keeps(s.drop_last(), id, idx);
            let k = choose|k: int| 0 <= k < pre.len() && #[trigger] pre[k] == s.drop_last()[idx];
            assert(remove_id(s, id)[k] == pre[k]);
        }
    }
}

/// No document carrying the identifier survives `remove_id`.
pub proof fn lemma_remove_id_removes(s: Seq<StoredDocV>, id: i64)
    ensures
        forall|k: int|
            0 <= k < remove_id(s, id).len() ==> (#[trigger] remove_id(s, id)[k]).doc_id != id,
    decreases s.len(),
{
    if s.len() > 0 {
        lemma_remove_id_removes(s.drop_last(), id);
        let pre = remove_id(s.drop_last(), id);
        assert forall|k: int| 0 <= k < remove_id(s, id).len() implies (#[trigger] remove_id(
            s,
            id,
        )[k]).doc_id != id by {
            if s.last().doc_id != id && k == pre.len() {
                assert(remove_id(s, id)[k] == s.last());
            } else {
                assert(remove_id(s, id)[k] == pre[k]);
            }
        }
    }
}

/// A document present among the visible documents stays present under every
/// tail of buffered operations that never deletes its identifier.
pub proof fn lemma_member_preserved(
    committed: Seq<StoredDocV>,
    ops: Seq<PendingV>,
    i: int,
    d: StoredDocV,
)
    requires
        exists|k: int| 0 <= k < committed.len() && #[trigger] committed[k] == d,
        forall|j: int| i <= j < ops.len() ==> #[trigger] ops[j] != PendingV::DeleteId(d.doc_id),
    ensures
        exists|k: int|
            0 <= k < apply_ops(committed, ops, i).len() && #[trigger] apply_ops(
                committed,
                ops,
                i,
            )[k] == d,
    decreases ops.len() - i,
{
    if 0 <= i < ops.len() {
        let next = apply_op(committed, ops[i]);
        match ops[i] {
            PendingV::AddDoc(d2) => {
                let k = choose|k: int| 0 <= k < committed.len() && #[trigger] committed[k] == d;
                assert(next[k] == d);
            },
            PendingV::DeleteId(id) => {
                assert(id != d.doc_id);
                let k = choose|k: int| 0 <= k < committed.len() && #[trigger] committed[k] == d;
                lemma_remove_id_keeps(committed, id, k);
            },
        }
        lemma_member_preserved(next, ops, i + 1, d);
        assert(apply_ops(committed, ops, i) == apply_ops(next, ops, i + 1));
        let k2 = choose|k: int|
            0 <= k < apply_ops(next, ops, i + 1).len() && #[trigger] apply_ops(
                next,
                ops,
                i + 1,
            )[k] == d;
        assert(apply_ops(committed, ops, i)[k2] == d);
    } else {
        assert(apply_ops(committed, ops, i) == committed);
        let k = choose|k: int| 0 <= k < committed.len() && #[trigger] committed[k] == d;
        assert(apply_ops(committed, ops, i)[k] == d);
    }
}

/// Adding a document and committing makes its identifier discoverable by an
/// exact term query on the identifier field: when a buffered add of `d` is
/// not followed by a buffered delete of its identifier, the committed view
/// holds `d`, `d` matches the identifier term query, and the compact set of
/// that query holds the identifier's magnitude.
pub proof fn lemma_add_commit_discoverable(
    committed: Seq<StoredDocV>,
    ops: Seq<PendingV>,
    sch: Seq<FieldV>,
    k: int,
    d: StoredDocV,
)
    requires
        0 <= k < ops.len(),
        ops[k] == PendingV::AddDoc(d),
        wf_doc(d, sch.len() as int),
        forall|j: int| k < j < ops.len() ==> #[trigger] ops[j] != PendingV::DeleteId(d.doc_id),
    ensures
        exists|i: int|
            0 <= i < apply_ops(committed, ops, 0).len() && #[trigger] apply_ops(
                committed,
                ops,
                0,
            )[i] == d,
        compact_ids(
            apply_ops(committed, ops, 0),
            sch,
            QueryV::Term { field: 0, value: TermV::Long(d.doc_id) },
        ).contains(abs64(d.doc_id)),
        matched_ids(
            apply_ops(committed, ops, 0),
            sch,
            QueryV::Term { field: 0, value: TermV::Long(d.doc_id) },
        ).contains(d.doc_id),
    decreases k,
{
    if k == 0 {
        let next = apply_op(committed, ops[0]);
        assert(next[committed.len() as int] == d);
        lemma_member_preserved(next, ops, 1, d);
        assert(apply_ops(committed, ops, 0) == apply_ops(next, ops, 1));
    } else {
        let next = apply_op(committed, ops[0]);
        assert(forall|j: int|
            0 <= j < ops.drop_first().len() ==> #[trigger] ops.drop_first()[j] == ops[j + 1]);
        lemma_add_commit_discoverable_from(next, ops, sch, 1, k, d);
        assert(apply_ops(committed, ops, 0) == apply_ops(next, ops, 1));
    }
    let result = apply_ops(committed, ops, 0);
    let i = choose|i: int| 0 <= i < result.len() && #[trigger] result[i] == d;
    lemma_doc_matches_own_id(sch, d);
    let q = QueryV::Term { field: 0, value: TermV::Long(d.doc_id) };
    assert(doc_matches(sch, result[i], q));
    lemma_matched_ids_are_doc_ids(result, sch, q);
    assert(matched_ids(result, sch, q).contains(result[i].doc_id));
}

/// Helper of [`lemma_add_commit_discoverable`], walking from position `i`.
proof fn lemma_add_commit_discoverable_from(
    committed: Seq<StoredDocV>,
    ops: Seq<PendingV>,
    sch: Seq<FieldV>,
    i: int,
    k: int,
    d: StoredDocV,
)
    requires
        0 < i <= k < ops.len(),
        ops[k] == PendingV::AddDoc(d),
        wf_doc(d, sch.len() as int),
        forall|j: int| k < j < ops.len() ==> #[trigger] ops[j] != PendingV::DeleteId(d.doc_id),
    ensures
        exists|x: int|
            0 <= x < apply_ops(committed, ops, i).len() && #[trigger] apply_ops(
                committed,
                ops,
                i,
            )[x] == d,
    decreases k - i,
{
    if i == k {
        let next = apply_op(committed, ops[i]);
        assert(next[committed.len() as int] == d);
        lemma_member_preserved(next, ops, i + 1, d);
        assert(apply_ops(committed, ops, i) == apply_ops(next, ops, i + 1));
    } else {
        let next = apply_op(committed, ops[i]);
        lemma_add_commit_discoverable_from(next, ops, sch, i + 1, k, d);
        assert(apply_ops(committed, ops, i) == apply_ops(next, ops, i + 1));
    }
}

/// Work buffered without a commit is invisible: both result extractors are
/// functions of the visible documents alone. A session whose visible
/// documents and schema are unchanged — as `add_document` and
/// `delete_document` leave them without a commit, whatever they buffer —
/// answers every query as before.
pub proof fn lemma_buffered_invisible(s1: crate::session::SearcherV, s2: crate::session::SearcherV, q: QueryV)
    requires
        s2.committed == s1.committed,
        s2.schema == s1.schema,
    ensures
        compact_ids(s2.committed, s2.schema, q) == compact_ids(s1.committed, s1.schema, q),
        matched_ids(s2.committed, s2.schema, q) == matched_ids(s1.committed, s1.schema, q),
{
}

/// Deleting an identifier as the last buffered operation and committing
/// removes it from the visible documents entirely.
pub proof fn lemma_delete_commit_removes(
    committed: Seq<StoredDocV>,
    ops: Seq<PendingV>,
    id: i64,
)
    requires
        ops.len() > 0,
        ops.last() == PendingV::DeleteId(id),
    ensures
        forall|i: int|
            0 <= i < apply_ops(committed, ops, 0).len() ==> (#[trigger] apply_ops(
                committed,
                ops,
                0,
            )[i]).doc_id != id,
{
    lemma_delete_last_removes_from(committed, ops, 0, id);
}

/// Helper of [`lemma_delete_commit_removes`], walking from position `i`.
proof fn lemma_delete_last_removes_from(
    committed: Seq<StoredDocV>,
    ops: Seq<PendingV>,
    i: int,
    id: i64,
)
    requires
        0 <= i < ops.len(),
        ops.last() == PendingV::DeleteId(id),
    ensures
        forall|k: int|
            0 <= k < apply_ops(committed, ops, i).len() ==> (#[trigger] apply_ops(
                committed,
                ops,
                i,
            )[k]).doc_id != id,
    decreases ops.len() - i,
{
    let next = apply_op(committed, ops[i]);
    if i == ops.len() - 1 {
        assert(ops[i] == PendingV::DeleteId(id));
        lemma_remove_id_removes(committed, id);
        assert(apply_ops(committed, ops, i) == apply_ops(next, ops, i + 1));
        assert(apply_ops(next, ops, i + 1) == next);
    } else {
        lemma_delete_last_removes_from(next, ops, i + 1, id);
        assert(apply_ops(committed, ops, i) == apply_ops(next, ops, i + 1));
    }
}

/// Some visible document matches the query and carries identifier `x`.
pub open spec fn id_of_match(docs: Seq<StoredDocV>, sch: Seq<FieldV>, q: QueryV, x: i64) -> bool {
    exists|i: int|
        0 <= i < docs.len() && doc_matches(sch, #[trigger] docs[i], q) && docs[i].doc_id == x
}

/// Every materialized identifier is the identifier of some visible document
/// that matches the query, and every visible matching document's identifier
/// is materialized.
pub proof fn lemma_matched_ids_are_doc_ids(docs: Seq<StoredDocV>, sch: Seq<FieldV>, q: QueryV)
    ensures
        forall|k: int|
            0 <= k < matched_ids(docs, sch, q).len() ==> id_of_match(
                docs,
                sch,
                q,
                #[trigger] matched_ids(docs, sch, q)[k],
            ),
        forall|i: int|
            0 <= i < docs.len() && doc_matches(sch, #[trigger] docs[i], q) ==> matched_ids(
                docs,
                sch,
                q,
            ).contains(docs[i].doc_id),
    decreases docs.len(),
{
    if docs.len() > 0 {
        let pre = docs.drop_last();
        lemma_matched_ids_are_doc_ids(pre, sch, q);
        let m = matched_ids(docs, sch, q);
        let mp = matched_ids(pre, sch, q);
        assert(forall|j: int| 0 <= j < pre.len() ==> #[trigger] pre[j] == docs[j]);
        assert forall|k: int| 0 <= k < m.len() implies id_of_match(
            docs,
            sch,
            q,
            #[trigger] m[k],
        ) by {
            if k < mp.len() {
                assert(m[k] == mp[k]);
                assert(id_of_match(pre, sch, q, mp[k]));
                let i = choose|i: int|
                    0 <= i < pre.len() && doc_matches(sch, #[trigger] pre[i], q) && pre[i].doc_id
                        == mp[k];
                assert(docs[i] == pre[i]);
                assert(doc_matches(sch, docs[i], q) && docs[i].doc_id == m[k]);
            } else {
                assert(doc_matches(sch, docs.last(), q) && m[k] == docs.last().doc_id);
                assert(docs[docs.len() - 1] == docs.last());
                assert(doc_matches(sch, docs[docs.len() - 1], q) && docs[docs.len() - 1].doc_id
                    == m[k]);
            }
        }
        assert forall|i: int|
            0 <= i < docs.len() && doc_matches(sch, #[trigger] docs[i], q) implies m.contains(
            docs[i].doc_id,
        ) by {
            if i < docs.len() - 1 {
                assert(pre[i] == docs[i]);
                assert(mp.contains(pre[i].doc_id));
                let k = choose|k: int| 0 <= k < mp.len() && #[trigger] mp[k] == pre[i].doc_id;
                assert(m[k] == mp[k]);
                assert(m.contains(docs[i].doc_id));
            } else {
                assert(doc_matches(sch, docs.last(), q));
                assert(m[mp.len() as int] == docs.last().doc_id);
                assert(m.contains(docs[i].doc_id));
            }
        }
    }
}

/// The compact identifier set of a query equals the identifier magnitudes
/// of the materialized, unranked and unlimited result of the same query.
pub proof fn lemma_compact_equals_materialized(docs: Seq<StoredDocV>, sch: Seq<FieldV>, q: QueryV)
    ensures
        forall|x: u64|
            #[trigger] compact_ids(docs, sch, q).contains(x) == exists|k: int|
                0 <= k < matched_ids(docs, sch, q).len() && x == abs64(
                    #[trigger] matched_ids(docs, sch, q)[k],
                ),
{
    lemma_matched_ids_are_doc_ids(docs, sch, q);
    let m = matched_ids(docs, sch, q);
    assert forall|x: u64| #[trigger] compact_ids(docs, sch, q).contains(x) == exists|k: int|
        0 <= k < m.len() && x == abs64(#[trigger] m[k]) by {
        if compact_ids(docs, sch, q).contains(x) {
            let i = choose|i: int|
                0 <= i < docs.len() && doc_matches(sch, #[trigger] docs[i], q) && x == abs64(
                    docs[i].doc_id,
                );
            assert(m.contains(docs[i].doc_id));
            let k = choose|k: int| 0 <= k < m.len() && #[trigger] m[k] == docs[i].doc_id;
            assert(0 <= k < m.len() && x == abs64(m[k]));
        }
        if exists|k: int| 0 <= k < m.len() && x == abs64(#[trigger] m[k]) {
            let k = choose|k: int| 0 <= k < m.len() && x == abs64(#[trigger] m[k]);
            assert(id_of_match(docs, sch, q, m[k]));
            let i = choose|i: int|
                0 <= i < docs.len() && doc_matches(sch, #[trigger] docs[i], q) && docs[i].doc_id
                    == m[k];
            assert(compact_ids(docs, sch, q).contains(x));
        }
    }
}

/// Deleting an identifier then committing removes it from the compact
/// result of every query, provided every identifier in play is
/// non-negative: the compact set stores magnitudes, so an identifier and
/// its negation share an entry.
pub proof fn lemma_delete_commit_compact(
    committed: Seq<StoredDocV>,
    ops: Seq<PendingV>,
    sch: Seq<FieldV>,
    q: QueryV,
    id: i64,
)
    requires
        ops.len() > 0,
        ops.last() == PendingV::DeleteId(id),
        id >= 0,
        forall|i: int|
            0 <= i < apply_ops(committed, ops, 0).len() ==> (#[trigger] apply_ops(
                committed,
                ops,
                0,
            )[i]).doc_id >= 0,
    ensures
        !compact_ids(apply_ops(committed, ops, 0), sch, q).contains(abs64(id)),
{
    lemma_delete_commit_removes(committed, ops, id);
    let result = apply_ops(committed, ops, 0);
    if compact_ids(result, sch, q).contains(abs64(id)) {
        let i = choose|i: int|
            0 <= i < result.len() && doc_matches(sch, #[trigger] result[i], q) && abs64(id)
                == abs64(result[i].doc_id);
        assert(result[i].doc_id >= 0 && result[i].doc_id != id);
        assert(abs64(result[i].doc_id) == result[i].doc_id as u64);
        assert(abs64(id) == id as u64);
        assert(false);
    }
}

/// Deleting an identifier as the last buffered operation and committing
/// removes it from the materialized result of every query.
pub proof fn lemma_delete_commit_materialized(
    committed: Seq<StoredDocV>,
    ops: Seq<PendingV>,
    sch: Seq<FieldV>,
    q: QueryV,
    id: i64,
)
    requires
        ops.len() > 0,
        ops.last() == PendingV::DeleteId(id),
    ensures
        forall|k: int|
            0 <= k < matched_ids(apply_ops(committed, ops, 0), sch, q).len() ==> #[trigger]
            matched_ids(apply_ops(committed, ops, 0), sch, q)[k] != id,
{
    lemma_delete_commit_removes(committed, ops, id);
    let result = apply_ops(committed, ops, 0);
    lemma_matched_ids_are_doc_ids(result, sch, q);
    assert forall|k: int| 0 <= k < matched_ids(result, sch, q).len() implies #[trigger] matched_ids(
        result,
        sch,
        q,
    )[k] != id by {
        assert(id_of_match(result, sch, q, matched_ids(result, sch, q)[k]));
        let i = choose|i: int|
            0 <= i < result.len() && doc_matches(sch, #[trigger] result[i], q) && result[i].doc_id
                == matched_ids(result, sch, q)[k];
        assert(result[i].doc_id != id);
    }
}

/// A `Must` clause excludes every document it does not match.
pub proof fn lemma_must_excludes(sch: Seq<FieldV>, d: StoredDocV, clauses: Seq<ClauseV>, k: int)
    requires
        0 <= k < clauses.len(),
        clauses[k].occur == TOccur::Must,
        !doc_matches(sch, d, clauses[k].query),
    ensures
        !doc_matches(sch, d, QueryV::Boolean { clauses }),
{
    lemma_musts_ok(sch, d, clauses, 0);
}

/// A `MustNot` clause excludes every document it matches.
pub proof fn lemma_mustnot_excludes(sch: Seq<FieldV>, d: StoredDocV, clauses: Seq<ClauseV>, k: int)
    requires
        0 <= k < clauses.len(),
        clauses[k].occur == TOccur::MustNot,
        doc_matches(sch, d, clauses[k].query),
    ensures
        !doc_matches(sch, d, QueryV::Boolean { clauses }),
{
    lemma_mustnots_ok(sch, d, clauses, 0);
}

/// `Should` clauses are a non-exclusive union: a document matching some
/// `Should` or `Must` clause, every `Must` clause, and no `MustNot` clause,
/// matches the boolean query.
pub proof fn lemma_should_union(sch: Seq<FieldV>, d: StoredDocV, clauses: Seq<ClauseV>, k: int)
    requires
        0 <= k < clauses.len(),
        clauses[k].occur != TOccur::MustNot,
        doc_matches(sch, d, clauses[k].query),
        forall|j: int|
            0 <= j < clauses.len() && (#[trigger] clauses[j]).occur == TOccur::Must
                ==> doc_matches(sch, d, clauses[j].query),
        forall|j: int|
            0 <= j < clauses.len() && (#[trigger] clauses[j]).occur == TOccur::MustNot
                ==> !doc_matches(sch, d, clauses[j].query),
    ensures
        doc_matches(sch, d, QueryV::Boolean { clauses }),
{
    lemma_musts_ok(sch, d, clauses, 0);
    lemma_mustnots_ok(sch, d, clauses, 0);
    lemma_positive_hit(sch, d, clauses, 0);
}

/// A long range query matches exactly the documents holding a long value of
/// the field within the bounds: boundary inclusivity is decided by the
/// bound kind alone.
pub proof fn lemma_range_long_semantics(
    sch: Seq<FieldV>,
    d: StoredDocV,
    field: int,
    lo: BndV<i64>,
    hi: BndV<i64>,
)
    ensures
        doc_matches(sch, d, QueryV::RangeLong { field, lower: lo, upper: hi }) == exists|i: int|
            0 <= i < d.vals.len() && (#[trigger] d.vals[i]).field == field && d.vals[i].value is L
                && long_in_bounds(lo, hi, d.vals[i].value->L_0),
{
}

/// A string range query matches exactly the documents holding a string
/// value of the field within the bounds, in lexicographic order.
pub proof fn lemma_range_str_semantics(
    sch: Seq<FieldV>,
    d: StoredDocV,
    field: int,
    lo: BndV<Seq<char>>,
    hi: BndV<Seq<char>>,
)
    ensures
        doc_matches(sch, d, QueryV::RangeStr { field, lower: lo, upper: hi }) == exists|i: int|
            0 <= i < d.vals.len() && (#[trigger] d.vals[i]).field == field && d.vals[i].value is S
                && str_in_bounds(lo, hi, d.vals[i].value->S_0),
{
}

/// A float range query matches exactly the documents holding a float value
/// of the field within the bounds, in the decimal order of the model.
pub proof fn lemma_range_float_semantics(
    sch: Seq<FieldV>,
    d: StoredDocV,
    field: int,
    lo: BndV<FloatV>,
    hi: BndV<FloatV>,
)
    ensures
        doc_matches(sch, d, QueryV::RangeFloat { field, lower: lo, upper: hi }) == exists|i: int|
            0 <= i < d.vals.len() && (#[trigger] d.vals[i]).field == field && d.vals[i].value is F
                && float_in_bounds(lo, hi, d.vals[i].value->F_0),
{
}

} // verus!
