//! Result extraction: the materializer, which returns the first matches in
//! document order, and the compact collector, which gathers identifier
//! magnitudes into a roaring treemap for constant-time membership tests.

use vstd::prelude::*;
use crate::errors::{IndexError, ErrV};
use crate::schema::{Schema, FieldV, field_index, get_field};
use crate::doc::{IdDocument, StoredDocV};
use crate::query::{TQuery, TQueryNode, TermValue, QueryV, TermV, wf_query};
use crate::session::{Searcher, SearchParam, wf_searcher};
use crate::eval::{doc_matches, eval_query};
use crate::text::{word_span, word_spans, chars_of, span_is};

verus! {

#[verifier::external_type_specification]
#[verifier::external_body]
pub struct ExRoaringTreemap(roaring::RoaringTreemap);

/// The set of 64-bit values a roaring treemap holds.
pub uninterp spec fn treemap_contents(t: roaring::RoaringTreemap) -> Set<u64>;

/// Relies on roaring::RoaringTreemap::new: a fresh treemap holds nothing.
#[verifier::external_body]
fn treemap_new() -> (r: roaring::RoaringTreemap)
    ensures
        treemap_contents(r) == Set::<u64>::empty(),
{
    roaring::RoaringTreemap::new()
}

/// Relies on roaring::RoaringTreemap::insert: adds one value to the set and
/// reports whether it was not already present.
#[verifier::external_body]
fn treemap_insert(t: &mut roaring::RoaringTreemap, value: u64) -> (r: bool)
    ensures
        treemap_contents(*final(t)) == treemap_contents(*old(t)).insert(value),
        r == !treemap_contents(*old(t)).contains(value),
{
    t.insert(value)
}

/// Relies on roaring::RoaringTreemap::contains: membership in the set.
#[verifier::external_body]
fn treemap_contains(t: &roaring::RoaringTreemap, value: u64) -> (r: bool)
    ensures
        r == treemap_contents(*t).contains(value),
{
    t.contains(value)
}

/// Relies on roaring::RoaringTreemap::len: the number of distinct values in
/// the set.
#[verifier::external_body]
fn treemap_len(t: &roaring::RoaringTreemap) -> (r: u64)
    requires
        treemap_contents(*t).finite(),
    ensures
        r as nat == treemap_contents(*t).len(),
{
    t.len()
}

/// A compact identifier set: the result of an exhaustive (unranked) search,
/// supporting constant-time membership tests. Backed by a roaring treemap.
pub struct SearchResultBitmap {
    bitmap: roaring::RoaringTreemap,
}

impl View for SearchResultBitmap {
    type V = Set<u64>;

    closed spec fn view(&self) -> Set<u64> {
        treemap_contents(self.bitmap)
    }
}

/// Magnitude of an identifier: the compact set stores the absolute value of
/// each matching document's identifier, so an identifier and its negation
/// fall on the same entry. Callers that need exact-value membership must
/// keep identifiers non-negative.
pub open spec fn abs64(x: i64) -> u64 {
    (if x as int >= 0 {
        x as int
    } else {
        -(x as int)
    }) as u64
}

/// Executable magnitude of an identifier.
pub fn abs_u64(x: i64) -> (r: u64)
    ensures
        r == abs64(x),
{
    if x >= 0 {
        x as u64
    } else if x == i64::MIN {
        0x8000_0000_0000_0000u64
    } else {
        (-x) as u64
    }
}

/// The identifier magnitudes of the documents among `docs` that match `q`.
pub open spec fn compact_ids(docs: Seq<StoredDocV>, sch: Seq<FieldV>, q: QueryV) -> Set<u64> {
    Set::new(
        |x: u64|
            exists|i: int|
                0 <= i < docs.len() && doc_matches(sch, #[trigger] docs[i], q) && x == abs64(
                    docs[i].doc_id,
                ),
    )
}

/// Extending the documents by one extends the compact set by its magnitude
/// exactly when it matches.
pub proof fn lemma_compact_step(docs: Seq<StoredDocV>, sch: Seq<FieldV>, q: QueryV, i: int)
    requires
        0 <= i < docs.len(),
    ensures
        compact_ids(docs.subrange(0, i + 1), sch, q) == if doc_matches(sch, docs[i], q) {
            compact_ids(docs.subrange(0, i), sch, q).insert(abs64(docs[i].doc_id))
        } else {
            compact_ids(docs.subrange(0, i), sch, q)
        },
{
    let pre = docs.subrange(0, i);
    let cur = docs.subrange(0, i + 1);
    assert(forall|j: int| 0 <= j < i ==> #[trigger] cur[j] == docs[j]);
    assert(forall|j: int| 0 <= j < i ==> #[trigger] pre[j] == docs[j]);
    assert(cur[i] == docs[i]);
    if doc_matches(sch, docs[i], q) {
        assert forall|x: u64|
            compact_ids(cur, sch, q).contains(x) == compact_ids(pre, sch, q).insert(
                abs64(docs[i].doc_id),
            ).contains(x) by {
            if compact_ids(cur, sch, q).contains(x) {
                let j = choose|j: int|
                    0 <= j < cur.len() && doc_matches(sch, #[trigger] cur[j], q) && x == abs64(
                        cur[j].doc_id,
                    );
                if j < i {
                    assert(pre[j] == cur[j]);
                    assert(compact_ids(pre, sch, q).contains(x));
                } else {
                    assert(x == abs64(docs[i].doc_id));
                }
            }
            if compact_ids(pre, sch, q).insert(abs64(docs[i].doc_id)).contains(x) {
                if compact_ids(pre, sch, q).contains(x) {
                    let j = choose|j: int|
                        0 <= j < pre.len() && doc_matches(sch, #[trigger] pre[j], q) && x == abs64(
                            pre[j].doc_id,
                        );
                    assert(cur[j] == pre[j]);
                    assert(compact_ids(cur, sch, q).contains(x));
                } else {
                    assert(x == abs64(cur[i].doc_id) && doc_matches(sch, cur[i], q));
                    assert(compact_ids(cur, sch, q).contains(x));
                }
            }
        }
        assert(compact_ids(cur, sch, q) =~= compact_ids(pre, sch, q).insert(
            abs64(docs[i].doc_id),
        ));
    } else {
        assert forall|x: u64|
            compact_ids(cur, sch, q).contains(x) == compact_ids(pre, sch, q).contains(x) by {
            if compact_ids(cur, sch, q).contains(x) {
                let j = choose|j: int|
                    0 <= j < cur.len() && doc_matches(sch, #[trigger] cur[j], q) && x == abs64(
                        cur[j].doc_id,
                    );
                assert(j != i);
                assert(pre[j] == cur[j]);
                assert(compact_ids(pre, sch, q).contains(x));
            }
            if compact_ids(pre, sch, q).contains(x) {
                let j = choose|j: int|
                    0 <= j < pre.len() && doc_matches(sch, #[trigger] pre[j], q) && x == abs64(
                        pre[j].doc_id,
                    );
                assert(cur[j] == pre[j]);
                assert(compact_ids(cur, sch, q).contains(x));
            }
        }
        assert(compact_ids(cur, sch, q) =~= compact_ids(pre, sch, q));
    }
}

/// Runs the query over every visible document and collects the magnitude of
/// each matching document's identifier into a compact set. Unranked and
/// unlimited: every match contributes.
pub fn search_compact_all(searcher: &mut Searcher, query: &TQuery) -> (r: Result<
    Box<SearchResultBitmap>,
    IndexError,
>)
    requires
        wf_searcher(old(searcher)@),
        wf_query(query@, old(searcher)@.schema.len() as int),
    ensures
        *final(searcher) == *old(searcher),
        r is Ok,
        r->Ok_0@ == compact_ids(old(searcher)@.committed, old(searcher)@.schema, query@),
        r->Ok_0@.finite(),
{
    let ghost docs = searcher@.committed;
    let ghost sch = searcher@.schema;
    proof {
        crate::session::lemma_searcher_fields(searcher);
    }
    let mut bitmap = treemap_new();
    let n = searcher.committed.len();
    let mut i: usize = 0;
    while i < n
        invariant
            0 <= i <= n,
            n == searcher.committed@.len(),
            docs == crate::session::docs_view(searcher.committed@),
            sch == searcher.schema@,
            docs == searcher@.committed,
            sch == searcher@.schema,
            wf_searcher(searcher@),
            wf_query(query@, sch.len() as int),
            docs.len() == n,
            treemap_contents(bitmap) == compact_ids(docs.subrange(0, i as int), sch, query@),
            treemap_contents(bitmap).finite(),
        decreases n - i,
    {
        let d = &searcher.committed[i];
        proof {
            assert(d@ == docs[i as int]);
            assert(crate::doc::wf_doc(docs[i as int], sch.len() as int));
        }
        let hit = eval_query(&searcher.schema, d, &query.node);
        if hit {
            let v = abs_u64(d.doc_id);
            treemap_insert(&mut bitmap, v);
        }
        proof {
            lemma_compact_step(docs, sch, query@, i as int);
        }
        i = i + 1;
    }
    proof {
        assert(docs.subrange(0, n as int) =~= docs);
    }
    Result::Ok(Box::new(SearchResultBitmap { bitmap }))
}

/// Constant-time membership in a compact identifier set.
pub fn is_member(result_map: &mut SearchResultBitmap, doc_id: u64) -> (r: Result<bool, IndexError>)
    ensures
        *final(result_map) == *old(result_map),
        r == Result::<bool, IndexError>::Ok(old(result_map)@.contains(doc_id)),
{
    Result::Ok(treemap_contains(&result_map.bitmap, doc_id))
}

/// The number of identifiers in a compact set.
pub fn num_ids(result_map: &SearchResultBitmap) -> (r: u64)
    requires
        result_map@.finite(),
    ensures
        r as nat == result_map@.len(),
{
    treemap_len(&result_map.bitmap)
}

/// The identifiers of the documents among `docs` that match `q`, in
/// document order.
pub open spec fn matched_ids(docs: Seq<StoredDocV>, sch: Seq<FieldV>, q: QueryV) -> Seq<i64>
    decreases docs.len(),
{
    if docs.len() == 0 {
        Seq::empty()
    } else {
        let pre = matched_ids(docs.drop_last(), sch, q);
        if doc_matches(sch, docs.last(), q) {
            pre.push(docs.last().doc_id)
        } else {
            pre
        }
    }
}

/// The matched identifiers, cut to the first `k`.
pub open spec fn take_first(s: Seq<i64>, k: int) -> Seq<i64> {
    if k <= s.len() {
        s.subrange(0, k)
    } else {
        s
    }
}

/// The identifiers of a result list.
pub open spec fn result_ids(rs: Seq<IdDocument>) -> Seq<i64> {
    rs.map(|i: int, d: IdDocument| d.doc_id)
}

/// Runs the query over every visible document and materializes the first
/// `top_k` matches, in document order. Each returned document carries its
/// identifier; field projection is empty, as the boundary returns
/// identifiers and lets the host look field values up.
pub fn search_by_query(searcher: &mut Searcher, query: &TQuery, search_param: &SearchParam) -> (r:
    Result<Vec<IdDocument>, IndexError>)
    requires
        wf_searcher(old(searcher)@),
        wf_query(query@, old(searcher)@.schema.len() as int),
    ensures
        *final(searcher) == *old(searcher),
        r is Ok,
        result_ids(r->Ok_0@) == take_first(
            matched_ids(old(searcher)@.committed, old(searcher)@.schema, query@),
            search_param.top_k as int,
        ),
        forall|k: int| 0 <= k < r->Ok_0@.len() ==> (#[trigger] r->Ok_0@[k])@.fields.len() == 0,
{
    let ghost docs = searcher@.committed;
    let ghost sch = searcher@.schema;
    proof {
        crate::session::lemma_searcher_fields(searcher);
    }
    let top_k = search_param.top_k;
    let mut out: Vec<IdDocument> = Vec::new();
    let n = searcher.committed.len();
    let mut i: usize = 0;
    while i < n
        invariant
            0 <= i <= n,
            n == searcher.committed@.len(),
            docs == crate::session::docs_view(searcher.committed@),
            sch == searcher.schema@,
            docs == searcher@.committed,
            sch == searcher@.schema,
            wf_searcher(searcher@),
            wf_query(query@, sch.len() as int),
            docs.len() == n,
            out@.len() <= top_k,
            result_ids(out@) == take_first(
                matched_ids(docs.subrange(0, i as int), sch, query@),
                top_k as int,
            ),
            forall|k: int| 0 <= k < out@.len() ==> (#[trigger] out@[k])@.fields.len() == 0,
        decreases n - i,
    {
        let d = &searcher.committed[i];
        proof {
            assert(d@ == docs[i as int]);
            assert(crate::doc::wf_doc(docs[i as int], sch.len() as int));
            assert(docs.subrange(0, i + 1).drop_last() =~= docs.subrange(0, i as int));
            assert(docs.subrange(0, i + 1).last() == docs[i as int]);
        }
        let ghost out0 = out@;
        let ghost mpre = matched_ids(docs.subrange(0, i as int), sch, query@);
        let hit = eval_query(&searcher.schema, d, &query.node);
        if hit && out.len() < top_k {
            let item = IdDocument { doc_id: d.doc_id, field_values: Vec::new() };
            proof {
                assert(item@.fields =~= Seq::<crate::doc::DocFieldV>::empty());
            }
            out.push(item);
            proof {
                assert(result_ids(out@) =~= result_ids(out0).push(docs[i as int].doc_id));
                // below the cut, taking one more keeps the prefix relation
                assert(result_ids(out0).len() == mpre.len() || result_ids(out0).len() == top_k);
                assert(mpre.len() < top_k);
                assert(take_first(mpre.push(docs[i as int].doc_id), top_k as int)
                    =~= take_first(mpre, top_k as int).push(docs[i as int].doc_id));
            }
        } else {
            proof {
                if hit {
                    // the cut is full: appending past it changes nothing kept
                    assert(out@.len() == top_k);
                    assert(mpre.len() >= top_k);
                    assert(take_first(mpre.push(docs[i as int].doc_id), top_k as int)
                        =~= take_first(mpre, top_k as int));
                }
            }
        }
        i = i + 1;
    }
    proof {
        assert(docs.subrange(0, n as int) =~= docs);
    }
    Result::Ok(out)
}

/// Configuration of an engine-side collector that gathers the set of
/// matching document addresses without scoring them; an embedding hands it
/// to the engine's search call.
pub struct FastDocCollector;

/// Configuration of an engine-side collector that aggregates a fast-access
/// numeric field over the matching documents.
pub struct StatsCollector {
    pub field: String,
}

impl StatsCollector {
    /// A collector over the named fast-access field.
    pub fn with_field(field: String) -> (r: StatsCollector)
        ensures
            r.field@ == field@,
    {
        StatsCollector { field }
    }
}

/// Configuration of an engine-side collector that gathers the values of a
/// fast-access identifier field of the matching documents into a compact
/// identifier set.
pub struct FastFieldCollector {
    pub field: String,
}

impl FastFieldCollector {
    /// A collector over the named fast-access field.
    pub fn with_field(field: String) -> (r: FastFieldCollector)
        ensures
            r.field@ == field@,
    {
        FastFieldCollector { field }
    }
}

/// Spec-level image of a list of field names.
pub open spec fn names_view(ns: Seq<String>) -> Seq<Seq<char>> {
    ns.map(|i: int, n: String| n@)
}

/// Spec-level image of a list of resolved field indices.
pub open spec fn idxs_view(ns: Seq<usize>) -> Seq<int> {
    ns.map(|i: int, n: usize| n as int)
}

/// Resolves the names `names[i..]` against the schema: their field indices
/// in order, or the first name the schema does not hold.
pub open spec fn resolve_from(sch: Seq<FieldV>, names: Seq<Seq<char>>, i: int) -> Result<
    Seq<int>,
    Seq<char>,
>
    decreases names.len() - i,
{
    if i < 0 || i >= names.len() {
        Result::Ok(Seq::empty())
    } else {
        match field_index(sch, names[i]) {
            Option::None => Result::Err(names[i]),
            Option::Some(idx) => match resolve_from(sch, names, i + 1) {
                Result::Err(e) => Result::Err(e),
                Result::Ok(rest) => Result::Ok(seq![idx] + rest),
            },
        }
    }
}

/// Whether a document matches a plain-text query over the given fields:
/// some token of the query text matches, as an exact term, on some of the
/// fields. This models plain-term text queries; richer query grammar is the
/// engine's own.
pub open spec fn text_query_matches(
    sch: Seq<FieldV>,
    fields: Seq<int>,
    qtext: Seq<char>,
    d: StoredDocV,
) -> bool {
    exists|i: int, j: int, k: int|
        {
            &&& word_span(qtext, i, j)
            &&& 0 <= k < fields.len()
            &&& doc_matches(
                sch,
                d,
                QueryV::Term { field: fields[k], value: TermV::Text(qtext.subrange(i, j)) },
            )
        }
}

/// The identifiers of the documents among `docs` that match the text
/// query, in document order.
pub open spec fn text_matched_ids(
    docs: Seq<StoredDocV>,
    sch: Seq<FieldV>,
    fields: Seq<int>,
    qtext: Seq<char>,
) -> Seq<i64>
    decreases docs.len(),
{
    if docs.len() == 0 {
        Seq::empty()
    } else {
        let pre = text_matched_ids(docs.drop_last(), sch, fields, qtext);
        if text_query_matches(sch, fields, qtext, docs.last()) {
            pre.push(docs.last().doc_id)
        } else {
            pre
        }
    }
}

/// Evaluates the text query against one document.
fn text_doc_match(schema: &Schema, d: &crate::doc::StoredDoc, fidxs: &Vec<usize>, qchars:
    &Vec<char>) -> (r: bool)
    requires
        crate::doc::wf_doc(d@, schema@.len() as int),
        forall|k: int| 0 <= k < fidxs@.len() ==> (#[trigger] fidxs@[k]) < schema@.len(),
    ensures
        r == text_query_matches(schema@, idxs_view(fidxs@), qchars@, d@),
{
    let spans = word_spans(qchars);
    let mut s: usize = 0;
    while s < spans.len()
        invariant
            0 <= s <= spans@.len(),
            crate::doc::wf_doc(d@, schema@.len() as int),
            forall|k: int| 0 <= k < fidxs@.len() ==> (#[trigger] fidxs@[k]) < schema@.len(),
            forall|k2: int|
                0 <= k2 < spans@.len() ==> word_span(
                    qchars@,
                    #[trigger] spans@[k2].0 as int,
                    spans@[k2].1 as int,
                ),
            forall|i: int, j: int|
                word_span(qchars@, i, j) ==> exists|k2: int|
                    0 <= k2 < spans@.len() && #[trigger] span_is(spans@, k2, i, j),
            forall|k2: int, k: int|
                0 <= k2 < s && 0 <= k < fidxs@.len() ==> !doc_matches(
                    schema@,
                    d@,
                    QueryV::Term {
                        field: #[trigger] idxs_view(fidxs@)[k],
                        value: TermV::Text(
                            qchars@.subrange(#[trigger] spans@[k2].0 as int, spans@[k2].1 as int),
                        ),
                    },
                ),
        decreases spans@.len() - s,
    {
        let (si, sj) = spans[s];
        proof {
            assert(word_span(qchars@, si as int, sj as int));
        }
        let mut tok: Vec<char> = Vec::new();
        let mut p: usize = si;
        while p < sj
            invariant
                si <= p <= sj <= qchars@.len(),
                tok@ =~= qchars@.subrange(si as int, p as int),
            decreases sj - p,
        {
            tok.push(qchars[p]);
            proof {
                assert(tok@ =~= qchars@.subrange(si as int, p + 1));
            }
            p = p + 1;
        }
        let mut f: usize = 0;
        while f < fidxs.len()
            invariant
                0 <= f <= fidxs@.len(),
                crate::doc::wf_doc(d@, schema@.len() as int),
                forall|k: int| 0 <= k < fidxs@.len() ==> (#[trigger] fidxs@[k]) < schema@.len(),
                word_span(qchars@, si as int, sj as int),
                tok@ == qchars@.subrange(si as int, sj as int),
                forall|k: int|
                    0 <= k < f ==> !doc_matches(
                        schema@,
                        d@,
                        QueryV::Term {
                            field: #[trigger] idxs_view(fidxs@)[k],
                            value: TermV::Text(tok@),
                        },
                    ),
            decreases fidxs@.len() - f,
        {
            let node = TQueryNode::Term {
                field: fidxs[f],
                value: TermValue::Text(crate::query::clone_chars(&tok)),
            };
            proof {
                assert(node@ == (QueryV::Term {
                    field: idxs_view(fidxs@)[f as int],
                    value: TermV::Text(tok@),
                }));
                assert(wf_query(node@, schema@.len() as int));
            }
            if eval_query(schema, d, &node) {
                proof {
                    assert(text_query_matches(schema@, idxs_view(fidxs@), qchars@, d@)) by {
                        assert({
                            &&& word_span(qchars@, si as int, sj as int)
                            &&& 0 <= f < idxs_view(fidxs@).len()
                            &&& doc_matches(
                                schema@,
                                d@,
                                QueryV::Term {
                                    field: idxs_view(fidxs@)[f as int],
                                    value: TermV::Text(
                                        qchars@.subrange(si as int, sj as int),
                                    ),
                                },
                            )
                        });
                    }
                }
                return true;
            }
            f = f + 1;
        }
        s = s + 1;
    }
    proof {
        if text_query_matches(schema@, idxs_view(fidxs@), qchars@, d@) {
            let (i, j, k) = choose|i: int, j: int, k: int|
                {
                    &&& word_span(qchars@, i, j)
                    &&& 0 <= k < idxs_view(fidxs@).len()
                    &&& doc_matches(
                        schema@,
                        d@,
                        QueryV::Term {
                            field: idxs_view(fidxs@)[k],
                            value: TermV::Text(qchars@.subrange(i, j)),
                        },
                    )
                };
            assert(exists|k2: int| 0 <= k2 < spans@.len() && #[trigger] span_is(spans@, k2, i, j));
            let k2 = choose|k2: int|
                0 <= k2 < spans@.len() && #[trigger] span_is(spans@, k2, i, j);
            assert(qchars@.subrange(spans@[k2].0 as int, spans@[k2].1 as int) == qchars@.subrange(
                i,
                j,
            ));
            assert(false);
        }
    }
    false
}

/// Runs a plain-text query: the named fields are resolved (an unknown name
/// fails with `FieldNotFound`, the first one reported), and a visible
/// document matches when some token of the query text matches, as an exact
/// term, on some of those fields. The first `top_k` matches are
/// materialized in document order, identifiers only.
pub fn search(searcher: &mut Searcher, query: &String, search_fields: &Vec<String>, search_param:
    &SearchParam) -> (r: Result<Vec<IdDocument>, IndexError>)
    requires
        wf_searcher(old(searcher)@),
    ensures
        *final(searcher) == *old(searcher),
        ({
            let names = names_view(search_fields@);
            match resolve_from(old(searcher)@.schema, names, 0) {
                Result::Err(name) => r is Err && r->Err_0@ == (ErrV::FieldNotFound { name }),
                Result::Ok(fidxs) => {
                    &&& r is Ok
                    &&& result_ids(r->Ok_0@) == take_first(
                        text_matched_ids(
                            old(searcher)@.committed,
                            old(searcher)@.schema,
                            fidxs,
                            query@,
                        ),
                        search_param.top_k as int,
                    )
                    &&& forall|k: int|
                        0 <= k < r->Ok_0@.len() ==> (#[trigger] r->Ok_0@[k])@.fields.len() == 0
                },
            }
        }),
{
    let ghost sch = searcher@.schema;
    let ghost docs = searcher@.committed;
    let ghost names = names_view(search_fields@);
    proof {
        crate::session::lemma_searcher_fields(searcher);
    }
    let mut fidxs: Vec<usize> = Vec::new();
    let mut i: usize = 0;
    while i < search_fields.len()
        invariant
            0 <= i <= search_fields@.len(),
            sch == searcher@.schema,
            sch == searcher.schema@,
            names == names_view(search_fields@),
            names.len() == search_fields@.len(),
            forall|k: int| 0 <= k < fidxs@.len() ==> (#[trigger] fidxs@[k]) < sch.len(),
            ({
                let tail = resolve_from(sch, names, i as int);
                &&& (tail is Ok ==> resolve_from(sch, names, 0) == Result::<
                    Seq<int>,
                    Seq<char>,
                >::Ok(idxs_view(fidxs@) + tail->Ok_0))
                &&& (tail is Err ==> resolve_from(sch, names, 0) == tail)
            }),
        decreases search_fields@.len() - i,
    {
        let name = &search_fields[i];
        proof {
            assert(name@ == names[i as int]);
        }
        match get_field(&searcher.schema, name) {
            Option::Some(idx) => {
                let ghost f0 = idxs_view(fidxs@);
                fidxs.push(idx);
                proof {
                    assert(idxs_view(fidxs@) =~= f0.push(idx as int));
                    let tail_i = resolve_from(sch, names, i as int);
                    let tail_n = resolve_from(sch, names, i + 1);
                    if tail_n is Ok {
                        assert(tail_i == Result::<Seq<int>, Seq<char>>::Ok(
                            seq![idx as int] + tail_n->Ok_0,
                        ));
                        assert(f0 + (seq![idx as int] + tail_n->Ok_0) =~= idxs_view(fidxs@)
                            + tail_n->Ok_0);
                    }
                }
            },
            Option::None => {
                proof {
                    assert(resolve_from(sch, names, i as int) == Result::<
                        Seq<int>,
                        Seq<char>,
                    >::Err(names[i as int]));
                }
                return Result::Err(IndexError::FieldNotFound { name: name.clone() });
            },
        }
        i = i + 1;
    }
    proof {
        assert(resolve_from(sch, names, names.len() as int) == Result::<Seq<int>, Seq<char>>::Ok(
            Seq::<int>::empty(),
        ));
        assert(idxs_view(fidxs@) + Seq::<int>::empty() =~= idxs_view(fidxs@));
    }
    let ghost fs = idxs_view(fidxs@);
    let qchars = chars_of(query.as_str());
    let top_k = search_param.top_k;
    let mut out: Vec<IdDocument> = Vec::new();
    let n = searcher.committed.len();
    let mut j: usize = 0;
    while j < n
        invariant
            0 <= j <= n,
            n == searcher.committed@.len(),
            docs == crate::session::docs_view(searcher.committed@),
            sch == searcher.schema@,
            docs == searcher@.committed,
            sch == searcher@.schema,
            wf_searcher(searcher@),
            fs == idxs_view(fidxs@),
            forall|k: int| 0 <= k < fidxs@.len() ==> (#[trigger] fidxs@[k]) < sch.len(),
            qchars@ == query@,
            docs.len() == n,
            out@.len() <= top_k,
            result_ids(out@) == take_first(
                text_matched_ids(docs.subrange(0, j as int), sch, fs, query@),
                top_k as int,
            ),
            forall|k: int| 0 <= k < out@.len() ==> (#[trigger] out@[k])@.fields.len() == 0,
        decreases n - j,
    {
        let d = &searcher.committed[j];
        proof {
            assert(d@ == docs[j as int]);
            assert(crate::doc::wf_doc(docs[j as int], sch.len() as int));
            assert(docs.subrange(0, j + 1).drop_last() =~= docs.subrange(0, j as int));
            assert(docs.subrange(0, j + 1).last() == docs[j as int]);
        }
        let ghost out0 = out@;
        let ghost mpre = text_matched_ids(docs.subrange(0, j as int), sch, fs, query@);
        let hit = text_doc_match(&searcher.schema, d, &fidxs, &qchars);
        if hit && out.len() < top_k {
            let item = IdDocument { doc_id: d.doc_id, field_values: Vec::new() };
            proof {
                assert(item@.fields =~= Seq::<crate::doc::DocFieldV>::empty());
            }
            out.push(item);
            proof {
                assert(result_ids(out@) =~= result_ids(out0).push(docs[j as int].doc_id));
                assert(mpre.len() < top_k);
                assert(take_first(mpre.push(docs[j as int].doc_id), top_k as int) =~= take_first(
                    mpre,
                    top_k as int,
                ).push(docs[j as int].doc_id));
            }
        } else {
            proof {
                if hit {
                    assert(out@.len() == top_k);
                    assert(mpre.len() >= top_k);
                    assert(take_first(mpre.push(docs[j as int].doc_id), top_k as int) =~= take_first(
                        mpre,
                        top_k as int,
                    ));
                }
            }
        }
        j = j + 1;
    }
    proof {
        assert(docs.subrange(0, n as int) =~= docs);
    }
    Result::Ok(out)
}

} // verus!
