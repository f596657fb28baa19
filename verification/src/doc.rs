//! Documents: the raw form handed in by the caller, validation of every
//! field against the schema, and the typed stored form the index holds.

use vstd::prelude::*;
use crate::errors::{IndexError, ErrV};
use crate::schema::{Schema, FieldType, FieldV, field_index, get_field};
use crate::decimal::{FloatVal, FloatV, wf_float, parse_float, float_parse_spec};
use crate::values::{parse_i64, parse_bool, i64_parse_spec, bool_parse_spec};
use crate::text::chars_of;

verus! {

/// One field of a document handed in by the caller: the field name, the raw
/// value, and the kind the value is declared to have.
pub struct DocumentField {
    pub field_name: String,
    pub field_value: String,
    pub field_type: FieldType,
}

/// Spec-level image of a [`DocumentField`].
pub struct DocFieldV {
    pub name: Seq<char>,
    pub value: Seq<char>,
    pub kind: FieldType,
}

impl View for DocumentField {
    type V = DocFieldV;

    open spec fn view(&self) -> DocFieldV {
        DocFieldV { name: self.field_name@, value: self.field_value@, kind: self.field_type }
    }
}

/// A document handed in by the caller: its identifier and its field values.
pub struct IdDocument {
    pub doc_id: i64,
    pub field_values: Vec<DocumentField>,
}

/// Spec-level image of an [`IdDocument`].
pub struct IdDocV {
    pub doc_id: i64,
    pub fields: Seq<DocFieldV>,
}

/// Spec-level image of a document field list.
pub open spec fn doc_fields_view(fs: Seq<DocumentField>) -> Seq<DocFieldV> {
    fs.map(|i: int, f: DocumentField| f@)
}

impl View for IdDocument {
    type V = IdDocV;

    open spec fn view(&self) -> IdDocV {
        IdDocV { doc_id: self.doc_id, fields: doc_fields_view(self.field_values@) }
    }
}

/// A validated, typed field value as the index stores it.
pub enum StoredValue {
    L(i64),
    F(FloatVal),
    S(Vec<char>),
    B(bool),
}

/// Spec-level image of a [`StoredValue`].
pub enum StoredV {
    L(i64),
    F(FloatV),
    S(Seq<char>),
    B(bool),
}

impl View for StoredValue {
    type V = StoredV;

    open spec fn view(&self) -> StoredV {
        match self {
            StoredValue::L(x) => StoredV::L(*x),
            StoredValue::F(f) => StoredV::F(f@),
            StoredValue::S(cs) => StoredV::S(cs@),
            StoredValue::B(b) => StoredV::B(*b),
        }
    }
}

/// A stored value bound to its resolved schema field.
pub struct StoredField {
    pub field: usize,
    pub value: StoredValue,
}

/// Spec-level image of a [`StoredField`].
pub struct FieldValV {
    pub field: int,
    pub value: StoredV,
}

impl View for StoredField {
    type V = FieldValV;

    open spec fn view(&self) -> FieldValV {
        FieldValV { field: self.field as int, value: self.value@ }
    }
}

/// A validated document as the index stores it: the identifier, and the
/// typed values with their resolved fields, the identifier value first.
pub struct StoredDoc {
    pub doc_id: i64,
    pub vals: Vec<StoredField>,
}

/// Spec-level image of a [`StoredDoc`].
pub struct StoredDocV {
    pub doc_id: i64,
    pub vals: Seq<FieldValV>,
}

/// Spec-level image of a stored field list.
pub open spec fn stored_fields_view(fs: Seq<StoredField>) -> Seq<FieldValV> {
    fs.map(|i: int, f: StoredField| f@)
}

impl View for StoredDoc {
    type V = StoredDocV;

    open spec fn view(&self) -> StoredDocV {
        StoredDocV { doc_id: self.doc_id, vals: stored_fields_view(self.vals@) }
    }
}

/// What one declared field of a document resolves to: the typed value on
/// its resolved field; nothing for the `Unspecified` kind, whose values are
/// skipped; `FieldNotFound` for a name the schema does not hold; and
/// `ValueParseError` for a raw value that does not parse against the
/// field's declared kind.
pub open spec fn prep_field(sch: Seq<FieldV>, f: DocFieldV) -> Result<Option<FieldValV>, ErrV> {
    match field_index(sch, f.name) {
        Option::None => Result::Err(ErrV::FieldNotFound { name: f.name }),
        Option::Some(idx) => match f.kind {
            FieldType::Int => match i64_parse_spec(f.value) {
                Option::Some(v) => Result::Ok(
                    Option::Some(FieldValV { field: idx, value: StoredV::L(v as i64) }),
                ),
                Option::None => Result::Err(
                    ErrV::ValueParseError { value: f.value, kind: f.kind },
                ),
            },
            FieldType::Long => match i64_parse_spec(f.value) {
                Option::Some(v) => Result::Ok(
                    Option::Some(FieldValV { field: idx, value: StoredV::L(v as i64) }),
                ),
                Option::None => Result::Err(
                    ErrV::ValueParseError { value: f.value, kind: f.kind },
                ),
            },
            FieldType::Float => match float_parse_spec(f.value) {
                Option::Some(fv) => Result::Ok(
                    Option::Some(FieldValV { field: idx, value: StoredV::F(fv) }),
                ),
                Option::None => Result::Err(
                    ErrV::ValueParseError { value: f.value, kind: f.kind },
                ),
            },
            FieldType::Double => match float_parse_spec(f.value) {
                Option::Some(fv) => Result::Ok(
                    Option::Some(FieldValV { field: idx, value: StoredV::F(fv) }),
                ),
                Option::None => Result::Err(
                    ErrV::ValueParseError { value: f.value, kind: f.kind },
                ),
            },
            FieldType::Bool => match bool_parse_spec(f.value) {
                Option::Some(b) => Result::Ok(
                    Option::Some(FieldValV { field: idx, value: StoredV::B(b) }),
                ),
                Option::None => Result::Err(
                    ErrV::ValueParseError { value: f.value, kind: f.kind },
                ),
            },
            FieldType::Str => Result::Ok(
                Option::Some(FieldValV { field: idx, value: StoredV::S(f.value) }),
            ),
            FieldType::Text => Result::Ok(
                Option::Some(FieldValV { field: idx, value: StoredV::S(f.value) }),
            ),
            FieldType::Unspecified => Result::Ok(Option::None),
        },
    }
}

/// What the field tail `fs[i..]` contributes, or the first error among it.
pub open spec fn prep_fields(sch: Seq<FieldV>, fs: Seq<DocFieldV>, i: int) -> Result<
    Seq<FieldValV>,
    ErrV,
>
    decreases fs.len() - i,
{
    if i < 0 || i >= fs.len() {
        Result::Ok(Seq::empty())
    } else {
        match prep_field(sch, fs[i]) {
            Result::Err(e) => Result::Err(e),
            Result::Ok(opt) => match prep_fields(sch, fs, i + 1) {
                Result::Err(e) => Result::Err(e),
                Result::Ok(rest) => Result::Ok(
                    match opt {
                        Option::Some(v) => seq![v] + rest,
                        Option::None => rest,
                    },
                ),
            },
        }
    }
}

/// What a whole document resolves to: the identifier value on the
/// identifier field first, then the declared fields in order; or the first
/// error among them.
pub open spec fn prep_doc(sch: Seq<FieldV>, d: IdDocV) -> Result<StoredDocV, ErrV> {
    match prep_fields(sch, d.fields, 0) {
        Result::Err(e) => Result::Err(e),
        Result::Ok(vs) => Result::Ok(
            StoredDocV {
                doc_id: d.doc_id,
                vals: seq![FieldValV { field: 0, value: StoredV::L(d.doc_id) }] + vs,
            },
        ),
    }
}

/// Well-formedness of a stored value: a canonical float, if it is one.
pub open spec fn wf_stored(v: StoredV) -> bool {
    match v {
        StoredV::F(f) => wf_float(f),
        _ => true,
    }
}

/// Well-formedness of a stored document against a schema of `nfields`
/// fields: resolved field indices only, canonical floats, and the
/// identifier value first.
pub open spec fn wf_doc(d: StoredDocV, nfields: int) -> bool {
    &&& forall|k: int| 0 <= k < d.vals.len() ==> 0 <= #[trigger] d.vals[k].field < nfields
    &&& forall|k: int| 0 <= k < d.vals.len() ==> wf_stored(#[trigger] d.vals[k].value)
    &&& d.vals.len() >= 1
    &&& d.vals[0] == (FieldValV { field: 0, value: StoredV::L(d.doc_id) })
}

/// Copies a stored value.
pub fn clone_stored_value(v: &StoredValue) -> (r: StoredValue)
    ensures
        r@ == v@,
{
    match v {
        StoredValue::L(x) => StoredValue::L(*x),
        StoredValue::F(f) => StoredValue::F(crate::query::clone_float(f)),
        StoredValue::S(cs) => StoredValue::S(crate::query::clone_chars(cs)),
        StoredValue::B(b) => StoredValue::B(*b),
    }
}

/// Copies a stored document.
pub fn clone_stored_doc(d: &StoredDoc) -> (r: StoredDoc)
    ensures
        r@ == d@,
{
    let mut vals: Vec<StoredField> = Vec::new();
    let mut i: usize = 0;
    while i < d.vals.len()
        invariant
            0 <= i <= d.vals@.len(),
            vals@.len() == i,
            forall|k: int| 0 <= k < i ==> #[trigger] vals@[k]@ == d.vals@[k]@,
        decreases d.vals@.len() - i,
    {
        let f = &d.vals[i];
        let nf = StoredField { field: f.field, value: clone_stored_value(&f.value) };
        vals.push(nf);
        i = i + 1;
    }
    let r = StoredDoc { doc_id: d.doc_id, vals };
    proof {
        assert forall|k: int| 0 <= k < r.vals@.len() implies stored_fields_view(r.vals@)[k]
            == stored_fields_view(d.vals@)[k] by {
            assert(r.vals@[k]@ == d.vals@[k]@);
        }
        assert(stored_fields_view(r.vals@) =~= stored_fields_view(d.vals@));
    }
    r
}

/// Validates one document field against the schema.
fn prepare_field(schema: &Schema, f: &DocumentField) -> (r: Result<Option<StoredField>, IndexError>)
    ensures
        match r {
            Result::Ok(opt) => {
                &&& prep_field(schema@, f@) is Ok
                &&& match opt {
                    Option::Some(sf) => prep_field(schema@, f@) == Result::<
                        Option<FieldValV>,
                        ErrV,
                    >::Ok(Option::Some(sf@)) && wf_stored(sf@.value) && 0 <= sf@.field
                        < schema@.len(),
                    Option::None => prep_field(schema@, f@) == Result::<
                        Option<FieldValV>,
                        ErrV,
                    >::Ok(Option::None),
                }
            },
            Result::Err(e) => prep_field(schema@, f@) == Result::<Option<FieldValV>, ErrV>::Err(
                e@,
            ),
        },
{
    let idx = match get_field(schema, &f.field_name) {
        Option::Some(i) => i,
        Option::None => {
            return Result::Err(IndexError::FieldNotFound { name: f.field_name.clone() });
        },
    };
    match f.field_type {
        FieldType::Int | FieldType::Long => {
            let cs = chars_of(f.field_value.as_str());
            match parse_i64(&cs) {
                Option::Some(v) => Result::Ok(
                    Option::Some(StoredField { field: idx, value: StoredValue::L(v) }),
                ),
                Option::None => Result::Err(
                    IndexError::ValueParseError {
                        value: f.field_value.clone(),
                        kind: f.field_type,
                    },
                ),
            }
        },
        FieldType::Float | FieldType::Double => {
            let cs = chars_of(f.field_value.as_str());
            match parse_float(&cs) {
                Option::Some(fv) => Result::Ok(
                    Option::Some(StoredField { field: idx, value: StoredValue::F(fv) }),
                ),
                Option::None => Result::Err(
                    IndexError::ValueParseError {
                        value: f.field_value.clone(),
                        kind: f.field_type,
                    },
                ),
            }
        },
        FieldType::Bool => {
            let cs = chars_of(f.field_value.as_str());
            match parse_bool(&cs) {
                Option::Some(b) => Result::Ok(
                    Option::Some(StoredField { field: idx, value: StoredValue::B(b) }),
                ),
                Option::None => Result::Err(
                    IndexError::ValueParseError {
                        value: f.field_value.clone(),
                        kind: f.field_type,
                    },
                ),
            }
        },
        FieldType::Str | FieldType::Text => Result::Ok(
            Option::Some(
                StoredField { field: idx, value: StoredValue::S(chars_of(f.field_value.as_str())) },
            ),
        ),
        FieldType::Unspecified => Result::Ok(Option::None),
    }
}

/// Validates a whole document against the schema: every field name must
/// resolve and every value must parse against its declared kind; the first
/// failure is reported. `Unspecified` values are skipped. The stored
/// document leads with the identifier value on the identifier field.
pub fn prepare_doc(schema: &Schema, doc: &IdDocument) -> (r: Result<StoredDoc, IndexError>)
    requires
        schema@.len() >= 1,
    ensures
        match r {
            Result::Ok(sd) => {
                &&& prep_doc(schema@, doc@) == Result::<StoredDocV, ErrV>::Ok(sd@)
                &&& wf_doc(sd@, schema@.len() as int)
            },
            Result::Err(e) => prep_doc(schema@, doc@) == Result::<StoredDocV, ErrV>::Err(e@),
        },
{
    let mut vals: Vec<StoredField> = Vec::new();
    vals.push(StoredField { field: 0, value: StoredValue::L(doc.doc_id) });
    let ghost fsv = doc@.fields;
    let mut i: usize = 0;
    while i < doc.field_values.len()
        invariant
            0 <= i <= doc.field_values@.len(),
            fsv == doc@.fields,
            fsv.len() == doc.field_values@.len(),
            schema@.len() >= 1,
            forall|k: int| 0 <= k < fsv.len() ==> fsv[k] == doc.field_values@[k]@,
            vals@.len() >= 1,
            vals@[0]@ == (FieldValV { field: 0, value: StoredV::L(doc.doc_id) }),
            forall|k: int|
                0 <= k < vals@.len() ==> 0 <= #[trigger] vals@[k]@.field < schema@.len(),
            forall|k: int| 0 <= k < vals@.len() ==> wf_stored(#[trigger] vals@[k]@.value),
            ({
                let tailres = prep_fields(schema@, fsv, i as int);
                &&& (tailres is Ok ==> prep_fields(schema@, fsv, 0) == Result::<
                    Seq<FieldValV>,
                    ErrV,
                >::Ok(stored_fields_view(vals@).drop_first() + tailres->Ok_0))
                &&& (tailres is Err ==> prep_fields(schema@, fsv, 0) == tailres)
            }),
        decreases doc.field_values@.len() - i,
    {
        let f = &doc.field_values[i];
        proof {
            assert(f@ == fsv[i as int]);
        }
        let ghost vals_pre = vals@;
        match prepare_field(schema, f) {
            Result::Err(e) => {
                return Result::Err(e);
            },
            Result::Ok(Option::Some(sf)) => {
                vals.push(sf);
                proof {
                    assert(stored_fields_view(vals@) =~= stored_fields_view(vals_pre).push(sf@));
                    assert(stored_fields_view(vals@).drop_first() =~= stored_fields_view(
                        vals_pre,
                    ).drop_first().push(sf@));
                    let tail_i = prep_fields(schema@, fsv, i as int);
                    let tail_n = prep_fields(schema@, fsv, i + 1);
                    if tail_n is Ok {
                        assert(tail_i == Result::<Seq<FieldValV>, ErrV>::Ok(
                            seq![sf@] + tail_n->Ok_0,
                        ));
                        assert(stored_fields_view(vals_pre).drop_first() + (seq![sf@]
                            + tail_n->Ok_0) =~= stored_fields_view(vals@).drop_first()
                            + tail_n->Ok_0);
                    }
                }
            },
            Result::Ok(Option::None) => {
                proof {
                    let tail_i = prep_fields(schema@, fsv, i as int);
                    let tail_n = prep_fields(schema@, fsv, i + 1);
                    if tail_n is Ok {
                        assert(tail_i == tail_n);
                    }
                }
            },
        }
        i = i + 1;
    }
    proof {
        assert(prep_fields(schema@, fsv, fsv.len() as int) == Result::<Seq<FieldValV>, ErrV>::Ok(
            Seq::<FieldValV>::empty(),
        ));
        assert(stored_fields_view(vals@).drop_first() + Seq::<FieldValV>::empty()
            =~= stored_fields_view(vals@).drop_first());
    }
    let sd = StoredDoc { doc_id: doc.doc_id, vals };
    proof {
        assert(stored_fields_view(sd.vals@)[0] == sd.vals@[0]@);
        assert(sd@.vals =~= seq![FieldValV { field: 0, value: StoredV::L(doc.doc_id) }]
            + stored_fields_view(sd.vals@).drop_first());
        assert(prep_doc(schema@, doc@) == Result::<StoredDocV, ErrV>::Ok(sd@));
        assert(wf_doc(sd@, schema@.len() as int)) by {
            assert(forall|k: int|
                0 <= k < sd@.vals.len() ==> sd@.vals[k] == #[trigger] sd.vals@[k]@);
        }
    }
    Result::Ok(sd)
}

} // verus!
