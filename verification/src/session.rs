//! The index session lifecycle: buffered adds and deletes, explicit
//! commits that apply them in order, and reload-on-commit visibility.

use vstd::prelude::*;
use crate::errors::{IndexError, ErrV};
use crate::schema::{
    Schema, FieldMapping, FieldV, wf_schema, build_schema, schema_names, mappings_view,
    first_dup_from, docid_field, entry_of,
};
use crate::doc::{IdDocument, IdDocV, StoredDoc, StoredDocV, prep_doc, prepare_doc, wf_doc};

verus! {

/// Thresholds handed to the engine's merge policy when a session is opened.
pub struct MergeConfig {
    pub max_docs_before_merge: u64,
    pub min_num_segments: u64,
    pub min_layer_size: u64,
}

/// Parameters of a session: the writer's memory budget in megabytes.
pub struct IndexParam {
    pub memory_mbytes: usize,
}

/// Parameters of a ranked search: how many top documents to return.
pub struct SearchParam {
    pub top_k: usize,
}

/// A buffered mutation, applied in order on commit: adding a validated
/// document, or deleting every document carrying an identifier.
pub enum PendingOp {
    AddDoc(StoredDoc),
    DeleteId(i64),
}

/// Spec-level image of a [`PendingOp`].
pub enum PendingV {
    AddDoc(StoredDocV),
    DeleteId(i64),
}

impl View for PendingOp {
    type V = PendingV;

    open spec fn view(&self) -> PendingV {
        match self {
            PendingOp::AddDoc(d) => PendingV::AddDoc(d@),
            PendingOp::DeleteId(id) => PendingV::DeleteId(*id),
        }
    }
}

/// Spec-level image of a pending operation list.
pub open spec fn ops_view(ops: Seq<PendingOp>) -> Seq<PendingV> {
    ops.map(|i: int, op: PendingOp| op@)
}

/// Spec-level image of a committed document list.
pub open spec fn docs_view(ds: Seq<StoredDoc>) -> Seq<StoredDocV> {
    ds.map(|i: int, d: StoredDoc| d@)
}

/// Spec-level image of a caller document list.
pub open spec fn input_docs_view(ds: Seq<IdDocument>) -> Seq<IdDocV> {
    ds.map(|i: int, d: IdDocument| d@)
}

/// The committed documents without those carrying `id`, in order.
pub open spec fn remove_id(s: Seq<StoredDocV>, id: i64) -> Seq<StoredDocV>
    decreases s.len(),
{
    if s.len() == 0 {
        Seq::empty()
    } else {
        let pre = remove_id(s.drop_last(), id);
        if s.last().doc_id == id {
            pre
        } else {
            pre.push(s.last())
        }
    }
}

/// One buffered operation applied to the visible documents.
pub open spec fn apply_op(committed: Seq<StoredDocV>, op: PendingV) -> Seq<StoredDocV> {
    match op {
        PendingV::AddDoc(d) => committed.push(d),
        PendingV::DeleteId(id) => remove_id(committed, id),
    }
}

/// The buffered operations `ops[i..]` applied in order.
pub open spec fn apply_ops(committed: Seq<StoredDocV>, ops: Seq<PendingV>, i: int) -> Seq<
    StoredDocV,
>
    decreases ops.len() - i,
{
    if i < 0 || i >= ops.len() {
        committed
    } else {
        apply_ops(apply_op(committed, ops[i]), ops, i + 1)
    }
}

/// Spec-level image of a session.
pub struct SearcherV {
    pub path: Seq<char>,
    pub schema: Seq<FieldV>,
    pub committed: Seq<StoredDocV>,
    pub pending: Seq<PendingV>,
    pub memory_mbytes: int,
}

/// One index session: the schema, the visible (committed) documents, and
/// the buffered mutations that an explicit commit will apply and make
/// visible. Reads observe only `committed`; buffered work is invisible
/// until `commit_index` runs (reload-on-commit).
pub struct Searcher {
    pub(crate) index_path: String,
    pub(crate) schema: Schema,
    pub(crate) committed: Vec<StoredDoc>,
    pub(crate) pending: Vec<PendingOp>,
    pub(crate) memory_mbytes: usize,
    pub(crate) merge_config: MergeConfig,
}

impl View for Searcher {
    type V = SearcherV;

    closed spec fn view(&self) -> SearcherV {
        SearcherV {
            path: self.index_path@,
            schema: self.schema@,
            committed: docs_view(self.committed@),
            pending: ops_view(self.pending@),
            memory_mbytes: self.memory_mbytes as int,
        }
    }
}

/// Well-formedness of a buffered operation: an added document is well
/// formed against the schema.
pub open spec fn wf_pending(op: PendingV, nfields: int) -> bool {
    match op {
        PendingV::AddDoc(d) => wf_doc(d, nfields),
        PendingV::DeleteId(_) => true,
    }
}

/// Well-formedness of a session: a well-formed schema, and every stored
/// document (visible or buffered) well formed against it.
pub open spec fn wf_searcher(s: SearcherV) -> bool {
    &&& wf_schema(s.schema)
    &&& forall|k: int|
        0 <= k < s.committed.len() ==> wf_doc(#[trigger] s.committed[k], s.schema.len() as int)
    &&& forall|k: int|
        0 <= k < s.pending.len() ==> wf_pending(#[trigger] s.pending[k], s.schema.len() as int)
}

impl Searcher {
    /// The session's schema.
    pub fn schema_ref(&self) -> (r: &Schema)
        ensures
            r@ == self@.schema,
    {
        &self.schema
    }

    /// The merge thresholds recorded for the engine.
    pub fn merge_config_ref(&self) -> &MergeConfig {
        &self.merge_config
    }

    /// The writer memory budget recorded at opening, in megabytes.
    pub fn memory_mbytes(&self) -> (r: usize)
        ensures
            r as int == self@.memory_mbytes,
    {
        self.memory_mbytes
    }
}

/// How a session's image reads off its fields.
pub(crate) proof fn lemma_searcher_fields(s: &Searcher)
    ensures
        s@.committed == docs_view(s.committed@),
        s@.pending == ops_view(s.pending@),
        s@.schema == s.schema@,
        s@.path == s.index_path@,
        s@.memory_mbytes == s.memory_mbytes as int,
{
}

/// Well-formed documents stay well formed under every buffered operation.
pub proof fn lemma_apply_ops_wf(committed: Seq<StoredDocV>, ops: Seq<PendingV>, i: int, n: int)
    requires
        forall|k: int| 0 <= k < committed.len() ==> wf_doc(#[trigger] committed[k], n),
        forall|k: int| 0 <= k < ops.len() ==> wf_pending(#[trigger] ops[k], n),
    ensures
        forall|k: int|
            0 <= k < apply_ops(committed, ops, i).len() ==> wf_doc(
                #[trigger] apply_ops(committed, ops, i)[k],
                n,
            ),
    decreases ops.len() - i,
{
    if 0 <= i < ops.len() {
        let next = apply_op(committed, ops[i]);
        assert forall|k: int| 0 <= k < next.len() implies wf_doc(#[trigger] next[k], n) by {
            match ops[i] {
                PendingV::AddDoc(d) => {
                    if k < committed.len() {
                        assert(next[k] == committed[k]);
                    } else {
                        assert(next[k] == d);
                    }
                },
                PendingV::DeleteId(id) => {
                    lemma_remove_id_subset(committed, id);
                },
            }
        }
        lemma_apply_ops_wf(next, ops, i + 1, n);
        assert(apply_ops(committed, ops, i) == apply_ops(next, ops, i + 1));
        assert forall|k: int| 0 <= k < apply_ops(committed, ops, i).len() implies wf_doc(
            #[trigger] apply_ops(committed, ops, i)[k],
            n,
        ) by {
            assert(wf_doc(apply_ops(next, ops, i + 1)[k], n));
        }
    } else {
        assert(apply_ops(committed, ops, i) == committed);
    }
}

/// Everything `remove_id` keeps was among the documents.
pub proof fn lemma_remove_id_subset(s: Seq<StoredDocV>, id: i64)
    ensures
        forall|k: int|
            0 <= k < remove_id(s, id).len() ==> exists|j: int|
                0 <= j < s.len() && #[trigger] remove_id(s, id)[k] == s[j],
    decreases s.len(),
{
    if s.len() > 0 {
        lemma_remove_id_subset(s.drop_last(), id);
        assert forall|k: int| 0 <= k < remove_id(s, id).len() implies exists|j: int|
            0 <= j < s.len() && #[trigger] remove_id(s, id)[k] == s[j] by {
            let pre = remove_id(s.drop_last(), id);
            if k < pre.len() {
                assert(remove_id(s, id)[k] == pre[k]);
                let j = choose|j: int| 0 <= j < s.drop_last().len() && pre[k] == s.drop_last()[j];
                assert(s.drop_last()[j] == s[j]);
            } else {
                assert(remove_id(s, id)[k] == s.last());
                assert(s.last() == s[s.len() - 1]);
            }
        }
    }
}

/// Opens a session with the default memory budget.
pub fn create_searcher(path: &String, field_mappings: Vec<FieldMapping>) -> (r: Result<
    Box<Searcher>,
    IndexError,
>)
    ensures
        ({
            let names = schema_names(mappings_view(field_mappings@));
            &&& (r is Ok <==> first_dup_from(names, 0) is None)
            &&& match r {
                Result::Ok(s) => {
                    &&& wf_searcher(s@)
                    &&& s@.path == path@
                    &&& s@.schema.len() == field_mappings@.len() + 1
                    &&& s@.schema[0] == docid_field()
                    &&& forall|i: int|
                        0 <= i < field_mappings@.len() ==> s@.schema[i + 1] == entry_of(
                            field_mappings@[i]@,
                        )
                    &&& s@.committed.len() == 0
                    &&& s@.pending.len() == 0
                    &&& s@.memory_mbytes == 256
                },
                Result::Err(e) => e@ == (ErrV::FieldNotFound {
                    name: names[first_dup_from(names, 0).unwrap()],
                }),
            }
        }),
{
    create_searcher_with_param(path, field_mappings, IndexParam { memory_mbytes: 256 })
}

/// Opens a session: builds the schema (rejecting repeated field names
/// before anything else happens), records the writer's memory budget and
/// the merge thresholds the engine is to use, and starts with no visible
/// and no buffered documents.
pub fn create_searcher_with_param(path: &String, field_mappings: Vec<FieldMapping>, param:
    IndexParam) -> (r: Result<Box<Searcher>, IndexError>)
    ensures
        ({
            let names = schema_names(mappings_view(field_mappings@));
            &&& (r is Ok <==> first_dup_from(names, 0) is None)
            &&& match r {
                Result::Ok(s) => {
                    &&& wf_searcher(s@)
                    &&& s@.path == path@
                    &&& s@.schema.len() == field_mappings@.len() + 1
                    &&& s@.schema[0] == docid_field()
                    &&& forall|i: int|
                        0 <= i < field_mappings@.len() ==> s@.schema[i + 1] == entry_of(
                            field_mappings@[i]@,
                        )
                    &&& s@.committed.len() == 0
                    &&& s@.pending.len() == 0
                    &&& s@.memory_mbytes == param.memory_mbytes
                },
                Result::Err(e) => e@ == (ErrV::FieldNotFound {
                    name: names[first_dup_from(names, 0).unwrap()],
                }),
            }
        }),
{
    let schema = match build_schema(&field_mappings) {
        Result::Ok(s) => s,
        Result::Err(e) => {
            return Result::Err(e);
        },
    };
    let merge_config = MergeConfig {
        max_docs_before_merge: 320000,
        min_num_segments: 3,
        min_layer_size: 60000,
    };
    let s = Searcher {
        index_path: path.clone(),
        schema,
        committed: Vec::new(),
        pending: Vec::new(),
        memory_mbytes: param.memory_mbytes,
        merge_config,
    };
    proof {
        assert(docs_view(s.committed@) =~= Seq::<StoredDocV>::empty());
        assert(ops_view(s.pending@) =~= Seq::<PendingV>::empty());
    }
    Result::Ok(Box::new(s))
}

/// Applies every buffered operation, in order, to the visible documents.
fn apply_pending(searcher: &mut Searcher)
    ensures
        final(searcher)@.committed == apply_ops(
            old(searcher)@.committed,
            old(searcher)@.pending,
            0,
        ),
        final(searcher)@.pending.len() == 0,
        final(searcher)@.schema == old(searcher)@.schema,
        final(searcher)@.path == old(searcher)@.path,
        final(searcher)@.memory_mbytes == old(searcher)@.memory_mbytes,
{
    let n = searcher.pending.len();
    let mut i: usize = 0;
    while i < n
        invariant
            0 <= i <= n,
            n == searcher.pending@.len(),
            searcher.pending@ == old(searcher).pending@,
            ops_view(searcher.pending@) == old(searcher)@.pending,
            searcher.schema@ == old(searcher)@.schema,
            searcher.index_path@ == old(searcher)@.path,
            searcher.memory_mbytes == old(searcher).memory_mbytes,
            apply_ops(old(searcher)@.committed, old(searcher)@.pending, 0) == apply_ops(
                docs_view(searcher.committed@),
                old(searcher)@.pending,
                i as int,
            ),
        decreases n - i,
    {
        let ghost c0 = docs_view(searcher.committed@);
        proof {
            assert(searcher.pending@[i as int]@ == old(searcher)@.pending[i as int]);
        }
        match &searcher.pending[i] {
            PendingOp::AddDoc(d) => {
                let d2 = crate::doc::clone_stored_doc(d);
                let ghost d2v = d2@;
                searcher.committed.push(d2);
                proof {
                    assert(docs_view(searcher.committed@) =~= c0.push(d2v));
                    assert(apply_op(c0, old(searcher)@.pending[i as int]) == c0.push(d2v));
                }
            },
            PendingOp::DeleteId(id) => {
                let id = *id;
                let mut kept: Vec<StoredDoc> = Vec::new();
                let cn = searcher.committed.len();
                let mut k: usize = 0;
                while k < cn
                    invariant
                        0 <= k <= cn,
                        cn == searcher.committed@.len(),
                        docs_view(searcher.committed@) == c0,
                        docs_view(kept@) == remove_id(c0.subrange(0, k as int), id),
                    decreases cn - k,
                {
                    let ghost kept0 = docs_view(kept@);
                    let keep = searcher.committed[k].doc_id != id;
                    if keep {
                        let d2 = crate::doc::clone_stored_doc(&searcher.committed[k]);
                        let ghost d2v = d2@;
                        kept.push(d2);
                        proof {
                            assert(docs_view(kept@) =~= kept0.push(d2v));
                        }
                    }
                    proof {
                        assert(c0.subrange(0, k + 1).drop_last() =~= c0.subrange(0, k as int));
                        assert(c0.subrange(0, k + 1).last() == c0[k as int]);
                    }
                    k = k + 1;
                }
                proof {
                    assert(c0.subrange(0, cn as int) =~= c0);
                }
                searcher.committed = kept;
                proof {
                    assert(apply_op(c0, old(searcher)@.pending[i as int]) == remove_id(c0, id));
                }
            },
        }
        i = i + 1;
    }
    searcher.pending = Vec::new();
    proof {
        assert(ops_view(searcher.pending@) =~= Seq::<PendingV>::empty());
    }
}

/// Flushes the buffered operations: applies them in order and makes the
/// result visible. The buffered list is empty afterwards. The in-memory
/// session itself cannot fail to commit; storage failures belong to the
/// engine boundary around the library.
pub fn commit_index(searcher: &mut Searcher) -> (r: Result<(), IndexError>)
    requires
        wf_searcher(old(searcher)@),
    ensures
        wf_searcher(final(searcher)@),
        r is Ok,
        final(searcher)@.schema == old(searcher)@.schema,
        final(searcher)@.path == old(searcher)@.path,
        final(searcher)@.memory_mbytes == old(searcher)@.memory_mbytes,
        final(searcher)@.committed == apply_ops(
            old(searcher)@.committed,
            old(searcher)@.pending,
            0,
        ),
        final(searcher)@.pending.len() == 0,
{
    apply_pending(searcher);
    proof {
        lemma_apply_ops_wf(
            old(searcher)@.committed,
            old(searcher)@.pending,
            0,
            old(searcher)@.schema.len() as int,
        );
    }
    Result::Ok(())
}

/// Position of the first document at or after `i` that fails validation.
pub open spec fn first_bad(sch: Seq<FieldV>, ds: Seq<IdDocV>, i: int) -> Option<int>
    decreases ds.len() - i,
{
    if i < 0 || i >= ds.len() {
        Option::None
    } else if prep_doc(sch, ds[i]) is Err {
        Option::Some(i)
    } else {
        first_bad(sch, ds, i + 1)
    }
}

/// Skipping over valid documents leaves the first failure unchanged.
pub proof fn lemma_first_bad_skip(sch: Seq<FieldV>, ds: Seq<IdDocV>, a: int, b: int)
    requires
        0 <= a <= b,
        forall|j: int| a <= j < b ==> !(prep_doc(sch, #[trigger] ds[j]) is Err),
    ensures
        first_bad(sch, ds, a) == first_bad(sch, ds, b),
    decreases b - a,
{
    if a < b {
        if a >= ds.len() {
            assert(first_bad(sch, ds, a) == Option::<int>::None);
            assert(first_bad(sch, ds, b) == Option::<int>::None);
        } else {
            lemma_first_bad_skip(sch, ds, a + 1, b);
        }
    }
}

/// The add operations of the validated documents `ds[i..k)`.
pub open spec fn adds_of(sch: Seq<FieldV>, ds: Seq<IdDocV>, i: int, k: int) -> Seq<PendingV>
    decreases k - i,
{
    if i < 0 || i >= k {
        Seq::empty()
    } else {
        seq![PendingV::AddDoc(prep_doc(sch, ds[i])->Ok_0)] + adds_of(sch, ds, i + 1, k)
    }
}

/// Pointwise reading of `adds_of`.
pub proof fn lemma_adds_of(sch: Seq<FieldV>, ds: Seq<IdDocV>, i: int, k: int)
    requires
        0 <= i <= k,
    ensures
        adds_of(sch, ds, i, k).len() == k - i,
        forall|j: int|
            0 <= j < k - i ==> #[trigger] adds_of(sch, ds, i, k)[j] == PendingV::AddDoc(
                prep_doc(sch, ds[i + j])->Ok_0,
            ),
    decreases k - i,
{
    if i < k {
        lemma_adds_of(sch, ds, i + 1, k);
    }
}

/// Stages the documents, validating each in order, and commits when asked.
///
/// Every field name of every document must resolve in the schema
/// (`FieldNotFound` otherwise) and every value must parse against its
/// declared kind (`ValueParseError` otherwise); the first failing document
/// reports its first failing field, the documents before it stay buffered,
/// and nothing is committed. On success with `commit` set, the buffered
/// operations are applied and become visible; without `commit` nothing
/// becomes visible.
pub fn add_document(searcher: &mut Searcher, docs: Vec<IdDocument>, commit: bool) -> (r: Result<
    (),
    IndexError,
>)
    requires
        wf_searcher(old(searcher)@),
    ensures
        wf_searcher(final(searcher)@),
        final(searcher)@.schema == old(searcher)@.schema,
        final(searcher)@.path == old(searcher)@.path,
        final(searcher)@.memory_mbytes == old(searcher)@.memory_mbytes,
        ({
            let sch = old(searcher)@.schema;
            let ds = input_docs_view(docs@);
            match first_bad(sch, ds, 0) {
                Option::None => {
                    &&& r is Ok
                    &&& ({
                        let buffered = old(searcher)@.pending + adds_of(
                            sch,
                            ds,
                            0,
                            ds.len() as int,
                        );
                        if commit {
                            final(searcher)@.committed == apply_ops(
                                old(searcher)@.committed,
                                buffered,
                                0,
                            ) && final(searcher)@.pending.len() == 0
                        } else {
                            final(searcher)@.committed == old(searcher)@.committed
                                && final(searcher)@.pending == buffered
                        }
                    })
                },
                Option::Some(bad) => {
                    &&& r is Err
                    &&& r->Err_0@ == prep_doc(sch, ds[bad])->Err_0
                    &&& final(searcher)@.pending == old(searcher)@.pending + adds_of(
                        sch,
                        ds,
                        0,
                        bad,
                    )
                    &&& final(searcher)@.committed == old(searcher)@.committed
                },
            }
        }),
{
    let ghost sch = old(searcher)@.schema;
    let ghost ds = input_docs_view(docs@);
    let ghost pending0 = old(searcher)@.pending;
    let n = docs.len();
    let mut i: usize = 0;
    while i < n
        invariant
            0 <= i <= n,
            n == docs@.len(),
            ds == input_docs_view(docs@),
            ds.len() == n,
            sch == old(searcher)@.schema,
            pending0 == old(searcher)@.pending,
            searcher@.schema == sch,
            searcher@.path == old(searcher)@.path,
            searcher@.memory_mbytes == old(searcher)@.memory_mbytes,
            searcher@.committed == old(searcher)@.committed,
            wf_searcher(searcher@),
            forall|j: int| 0 <= j < i ==> !(prep_doc(sch, #[trigger] ds[j]) is Err),
            searcher@.pending == pending0 + adds_of(sch, ds, 0, i as int),
        decreases n - i,
    {
        let doc = &docs[i];
        proof {
            assert(doc@ == ds[i as int]);
            lemma_adds_of(sch, ds, 0, i as int);
        }
        match prepare_doc(&searcher.schema, doc) {
            Result::Err(e) => {
                proof {
                    assert(prep_doc(sch, ds[i as int]) is Err);
                    assert(first_bad(sch, ds, i as int) == Option::Some(i as int));
                    lemma_first_bad_skip(sch, ds, 0, i as int);
                }
                return Result::Err(e);
            },
            Result::Ok(sd) => {
                let ghost sdv = sd@;
                let ghost ops0 = ops_view(searcher.pending@);
                searcher.pending.push(PendingOp::AddDoc(sd));
                proof {
                    assert(ops_view(searcher.pending@) =~= ops0.push(PendingV::AddDoc(sdv)));
                    lemma_adds_of(sch, ds, 0, i + 1);
                    assert(searcher@.pending =~= pending0 + adds_of(sch, ds, 0, i + 1));
                }
            },
        }
        i = i + 1;
    }
    proof {
        lemma_first_bad_skip(sch, ds, 0, n as int);
        assert(first_bad(sch, ds, n as int) == Option::<int>::None);
    }
    if commit {
        let ghost buffered = searcher@.pending;
        apply_pending(searcher);
        proof {
            lemma_apply_ops_wf(
                old(searcher)@.committed,
                buffered,
                0,
                sch.len() as int,
            );
        }
    }
    Result::Ok(())
}

/// The delete operations of the identifiers, in order.
pub open spec fn dels_of(ids: Seq<i64>) -> Seq<PendingV> {
    ids.map(|i: int, id: i64| PendingV::DeleteId(id))
}

/// Stages a delete of every document carrying each identifier, by exact
/// match on the identifier field, and commits when asked. Deletion is
/// buffered like adding: it becomes visible only on commit, and it affects
/// the documents staged before it, committed or buffered.
pub fn delete_document(searcher: &mut Searcher, doc_ids: Vec<i64>, commit: bool) -> (r: Result<
    (),
    IndexError,
>)
    requires
        wf_searcher(old(searcher)@),
    ensures
        wf_searcher(final(searcher)@),
        r is Ok,
        final(searcher)@.schema == old(searcher)@.schema,
        final(searcher)@.path == old(searcher)@.path,
        final(searcher)@.memory_mbytes == old(searcher)@.memory_mbytes,
        ({
            let buffered = old(searcher)@.pending + dels_of(doc_ids@);
            if commit {
                final(searcher)@.committed == apply_ops(old(searcher)@.committed, buffered, 0)
                    && final(searcher)@.pending.len() == 0
            } else {
                final(searcher)@.committed == old(searcher)@.committed && final(searcher)@.pending
                    == buffered
            }
        }),
{
    let ghost pending0 = old(searcher)@.pending;
    let n = doc_ids.len();
    let mut i: usize = 0;
    while i < n
        invariant
            0 <= i <= n,
            n == doc_ids@.len(),
            pending0 == old(searcher)@.pending,
            searcher@.schema == old(searcher)@.schema,
            searcher@.path == old(searcher)@.path,
            searcher@.memory_mbytes == old(searcher)@.memory_mbytes,
            searcher@.committed == old(searcher)@.committed,
            wf_searcher(searcher@),
            searcher@.pending == pending0 + dels_of(doc_ids@.subrange(0, i as int)),
        decreases n - i,
    {
        let id = doc_ids[i];
        let ghost ops0 = ops_view(searcher.pending@);
        searcher.pending.push(PendingOp::DeleteId(id));
        proof {
            assert(ops_view(searcher.pending@) =~= ops0.push(PendingV::DeleteId(id)));
            assert(dels_of(doc_ids@.subrange(0, i + 1)) =~= dels_of(
                doc_ids@.subrange(0, i as int),
            ).push(PendingV::DeleteId(doc_ids@[i as int])));
            assert(searcher@.pending =~= pending0 + dels_of(doc_ids@.subrange(0, i + 1)));
        }
        i = i + 1;
    }
    proof {
        assert(doc_ids@.subrange(0, n as int) =~= doc_ids@);
    }
    if commit {
        let ghost buffered = searcher@.pending;
        apply_pending(searcher);
        proof {
            lemma_apply_ops_wf(
                old(searcher)@.committed,
                buffered,
                0,
                old(searcher)@.schema.len() as int,
            );
        }
    }
    Result::Ok(())
}

/// Count of visible documents: what has been committed, nothing buffered.
pub fn num_docs(searcher: &mut Searcher) -> (r: Result<u64, IndexError>)
    ensures
        *final(searcher) == *old(searcher),
        r == Result::<u64, IndexError>::Ok(old(searcher)@.committed.len() as u64),
{
    Result::Ok(searcher.committed.len() as u64)
}

} // verus!
