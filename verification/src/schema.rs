//! Schema resolution: declared field mappings become typed field entries,
//! with the implicit identifier field always leading and field names kept
//! unique.

use vstd::prelude::*;
use crate::errors::IndexError;

verus! {

/// Declared kind of a schema field. `Int` and `Long` are indexed as signed
/// 64-bit integers, `Float` and `Double` as 64-bit floating point numbers,
/// `Str` as one untokenized term, `Text` as tokenized text. `Unspecified` is
/// treated like `Str` when a schema is built.
#[derive(Clone, Copy, Debug, PartialEq, Eq, Structural)]
pub enum FieldType {
    Unspecified,
    Int,
    Long,
    Float,
    Double,
    Str,
    Bool,
    Text,
}

/// A field declaration handed in by the caller: a name and a kind.
pub struct FieldMapping {
    pub field_name: String,
    pub field_type: FieldType,
}

/// Spec-level image of a [`FieldMapping`].
pub struct FieldMappingV {
    pub name: Seq<char>,
    pub kind: FieldType,
}

impl View for FieldMapping {
    type V = FieldMappingV;

    open spec fn view(&self) -> FieldMappingV {
        FieldMappingV { name: self.field_name@, kind: self.field_type }
    }
}

/// A resolved field of a built schema: the declared kind together with the
/// concrete representation flags the engine is asked for.
pub struct FieldEntry {
    pub name: String,
    pub kind: FieldType,
    pub stored: bool,
    pub indexed: bool,
    pub fast: bool,
}

/// Spec-level image of a [`FieldEntry`].
pub struct FieldV {
    pub name: Seq<char>,
    pub kind: FieldType,
    pub stored: bool,
    pub indexed: bool,
    pub fast: bool,
}

impl View for FieldEntry {
    type V = FieldV;

    open spec fn view(&self) -> FieldV {
        FieldV {
            name: self.name@,
            kind: self.kind,
            stored: self.stored,
            indexed: self.indexed,
            fast: self.fast,
        }
    }
}

/// Name of the implicit identifier field that every schema carries.
pub open spec fn docid_name() -> Seq<char> {
    seq!['_', 'd', 'o', 'c', 'I', 'd']
}

/// Resolved entry of the implicit identifier field: a signed 64-bit value,
/// indexed for querying and deletion, fast for cheap per-document access,
/// and stored.
pub open spec fn docid_field() -> FieldV {
    FieldV { name: docid_name(), kind: FieldType::Long, stored: true, indexed: true, fast: true }
}

/// The representation a declared mapping resolves to: integer kinds are
/// indexed and stored, float kinds are indexed and stored, `Str` and
/// `Unspecified` become one untokenized indexed term that is not stored,
/// `Bool` is indexed and stored, `Text` is tokenized, indexed and stored.
pub open spec fn entry_of(m: FieldMappingV) -> FieldV {
    match m.kind {
        FieldType::Int => FieldV {
            name: m.name,
            kind: m.kind,
            stored: true,
            indexed: true,
            fast: false,
        },
        FieldType::Long => FieldV {
            name: m.name,
            kind: m.kind,
            stored: true,
            indexed: true,
            fast: false,
        },
        FieldType::Float => FieldV {
            name: m.name,
            kind: m.kind,
            stored: true,
            indexed: true,
            fast: false,
        },
        FieldType::Double => FieldV {
            name: m.name,
            kind: m.kind,
            stored: true,
            indexed: true,
            fast: false,
        },
        FieldType::Str => FieldV {
            name: m.name,
            kind: m.kind,
            stored: false,
            indexed: true,
            fast: false,
        },
        FieldType::Bool => FieldV {
            name: m.name,
            kind: m.kind,
            stored: true,
            indexed: true,
            fast: false,
        },
        FieldType::Text => FieldV {
            name: m.name,
            kind: m.kind,
            stored: true,
            indexed: true,
            fast: false,
        },
        FieldType::Unspecified => FieldV {
            name: m.name,
            kind: m.kind,
            stored: false,
            indexed: true,
            fast: false,
        },
    }
}

/// An immutable schema: the implicit identifier field followed by the
/// resolved declared fields, with pairwise distinct names.
pub struct Schema {
    pub fields: Vec<FieldEntry>,
}

impl View for Schema {
    type V = Seq<FieldV>;

    open spec fn view(&self) -> Seq<FieldV> {
        Seq::new(self.fields@.len(), |i: int| self.fields@[i]@)
    }
}

/// Well-formedness of a built schema: the identifier field leads and no two
/// fields share a name.
pub open spec fn wf_schema(sch: Seq<FieldV>) -> bool {
    &&& sch.len() >= 1
    &&& sch[0] == docid_field()
    &&& forall|i: int, j: int| 0 <= i < j < sch.len() ==> sch[i].name != sch[j].name
}

/// The names a schema built from `ms` would hold: the identifier field's
/// name followed by the declared names in order.
pub open spec fn schema_names(ms: Seq<FieldMappingV>) -> Seq<Seq<char>> {
    seq![docid_name()] + ms.map(|i: int, m: FieldMappingV| m.name)
}

/// Spec-level image of a sequence of declared mappings.
pub open spec fn mappings_view(ms: Seq<FieldMapping>) -> Seq<FieldMappingV> {
    ms.map(|i: int, m: FieldMapping| m@)
}

/// Whether `names[j]` repeats an earlier name.
pub open spec fn dup_at(names: Seq<Seq<char>>, j: int) -> bool {
    exists|i: int| 0 <= i < j && names[i] == names[j]
}

/// Position of the first name at or after `j` that repeats an earlier one.
pub open spec fn first_dup_from(names: Seq<Seq<char>>, j: int) -> Option<int>
    decreases names.len() - j,
{
    if j < 0 || j >= names.len() {
        Option::None
    } else if dup_at(names, j) {
        Option::Some(j)
    } else {
        first_dup_from(names, j + 1)
    }
}

/// Skipping over positions that repeat nothing leaves the first duplicate
/// unchanged.
pub proof fn lemma_first_dup_skip(names: Seq<Seq<char>>, a: int, b: int)
    requires
        0 <= a <= b,
        forall|j: int| a <= j < b ==> !dup_at(names, j),
    ensures
        first_dup_from(names, a) == first_dup_from(names, b),
    decreases b - a,
{
    if a < b {
        if a >= names.len() {
            assert(first_dup_from(names, a) == Option::<int>::None);
            assert(first_dup_from(names, b) == Option::<int>::None);
        } else {
            lemma_first_dup_skip(names, a + 1, b);
        }
    }
}

/// Index of `name` in `sch`: the first field carrying it, if any.
pub open spec fn field_index(sch: Seq<FieldV>, name: Seq<char>) -> Option<int>
    decreases sch.len(),
{
    if sch.len() == 0 {
        Option::None
    } else if sch[0].name == name {
        Option::Some(0int)
    } else {
        match field_index(sch.drop_first(), name) {
            Option::None => Option::None,
            Option::Some(k) => Option::Some(k + 1),
        }
    }
}

/// `field_index` returns the first matching position: it is `Some(i)` exactly
/// when field `i` carries `name` and no earlier field does.
pub proof fn lemma_field_index_first(sch: Seq<FieldV>, name: Seq<char>)
    ensures
        match field_index(sch, name) {
            Option::Some(i) => 0 <= i < sch.len() && sch[i].name == name && (forall|j: int|
                0 <= j < i ==> sch[j].name != name),
            Option::None => forall|j: int| 0 <= j < sch.len() ==> sch[j].name != name,
        },
    decreases sch.len(),
{
    if sch.len() == 0 {
    } else if sch[0].name == name {
    } else {
        let rest = sch.drop_first();
        lemma_field_index_first(rest, name);
        assert(forall|j: int| 0 <= j < rest.len() ==> #[trigger] rest[j] == sch[j + 1]);
        match field_index(rest, name) {
            Option::Some(k) => {
                assert(sch[k + 1].name == name);
                assert forall|j: int| 0 <= j < k + 1 implies sch[j].name != name by {
                    if j > 0 {
                        assert(rest[j - 1] == sch[j]);
                    }
                }
            },
            Option::None => {
                assert forall|j: int| 0 <= j < sch.len() implies sch[j].name != name by {
                    if j > 0 {
                        assert(rest[j - 1] == sch[j]);
                    }
                }
            },
        }
    }
}

/// Returns the exec string `"_docId"`.
pub fn docid_string() -> (s: String)
    ensures
        s@ == docid_name(),
{
    let s = String::from_str("_docId");
    proof {
        reveal_strlit("_docId");
        assert(s@ =~= docid_name());
    }
    s
}

/// Builds a schema from the declared mappings.
///
/// The implicit identifier field always leads. A mapping whose name repeats
/// an earlier name (the identifier field's included) fails with
/// `FieldNotFound` carrying that name, before anything else happens; the
/// first repeated name in declaration order is reported.
pub fn build_schema(field_mappings: &Vec<FieldMapping>) -> (r: Result<Schema, IndexError>)
    ensures
        ({
            let names = schema_names(mappings_view(field_mappings@));
            &&& (r is Ok <==> first_dup_from(names, 0) is None)
            &&& match r {
                Result::Ok(sch) => {
                    &&& wf_schema(sch@)
                    &&& sch@.len() == field_mappings@.len() + 1
                    &&& sch@[0] == docid_field()
                    &&& forall|i: int|
                        0 <= i < field_mappings@.len() ==> sch@[i + 1] == entry_of(
                            field_mappings@[i]@,
                        )
                    &&& forall|j: int| 0 <= j < names.len() ==> !dup_at(names, j)
                },
                Result::Err(e) => e@ == (crate::errors::ErrV::FieldNotFound {
                    name: names[first_dup_from(names, 0).unwrap()],
                }),
            }
        }),
{
    let ghost names = schema_names(mappings_view(field_mappings@));
    let mut fields: Vec<FieldEntry> = Vec::new();
    let id_name = docid_string();
    fields.push(
        FieldEntry {
            name: id_name,
            kind: FieldType::Long,
            stored: true,
            indexed: true,
            fast: true,
        },
    );
    assert(fields@.len() == 1 && fields@[0]@ == docid_field());
    let mut m: usize = 0;
    while m < field_mappings.len()
        invariant
            0 <= m <= field_mappings@.len(),
            names == schema_names(mappings_view(field_mappings@)),
            names.len() == field_mappings@.len() + 1,
            fields@.len() == m + 1,
            fields@[0]@ == docid_field(),
            forall|i: int| 0 <= i < m ==> fields@[i + 1]@ == entry_of(field_mappings@[i]@),
            forall|i: int| 0 <= i < fields@.len() ==> #[trigger] fields@[i]@.name == names[i],
            forall|j: int| 0 <= j <= m ==> !dup_at(names, j),
        decreases field_mappings@.len() - m,
    {
        let mapping = &field_mappings[m];
        // reject a name that repeats an earlier one
        let mut k: usize = 0;
        while k < fields.len()
            invariant
                0 <= k <= fields@.len(),
                fields@.len() == m + 1,
                m < field_mappings@.len(),
                names == schema_names(mappings_view(field_mappings@)),
                names.len() == field_mappings@.len() + 1,
                forall|i: int| 0 <= i < fields@.len() ==> #[trigger] fields@[i]@.name == names[i],
                names[m + 1] == field_mappings@[m as int]@.name,
                mapping@ == field_mappings@[m as int]@,
                forall|i: int| 0 <= i < k ==> #[trigger] names[i] != names[m + 1],
                forall|j2: int| 0 <= j2 <= m ==> !dup_at(names, j2),
            decreases fields@.len() - k,
        {
            let same = fields[k].name == mapping.field_name;
            if same {
                let err = IndexError::FieldNotFound { name: mapping.field_name.clone() };
                proof {
                    assert(fields@[k as int]@.name == mapping.field_name@);
                    assert(names[k as int] == fields@[k as int]@.name);
                    assert(names[m + 1] == mapping.field_name@);
                    assert(dup_at(names, m + 1));
                    let j: int = m + 1;
                    assert(0 <= j < names.len());
                    assert(dup_at(names, j));
                    assert(forall|j2: int| 0 <= j2 < j ==> !dup_at(names, j2));
                    lemma_first_dup_skip(names, 0, j);
                    assert(first_dup_from(names, j) == Option::Some(j));
                    assert(err@ == (crate::errors::ErrV::FieldNotFound { name: names[j] }));
                }
                return Result::Err(err);
            }
            proof {
                assert(fields@[k as int]@.name != mapping.field_name@);
                assert(names[k as int] != names[m + 1]);
            }
            k = k + 1;
        }
        proof {
            assert(!dup_at(names, m + 1)) by {
                assert(forall|i: int| 0 <= i < m + 1 ==> #[trigger] names[i] != names[m + 1]);
            }
        }
        let entry = match mapping.field_type {
            FieldType::Int => FieldEntry {
                name: mapping.field_name.clone(),
                kind: mapping.field_type,
                stored: true,
                indexed: true,
                fast: false,
            },
            FieldType::Long => FieldEntry {
                name: mapping.field_name.clone(),
                kind: mapping.field_type,
                stored: true,
                indexed: true,
                fast: false,
            },
            FieldType::Float => FieldEntry {
                name: mapping.field_name.clone(),
                kind: mapping.field_type,
                stored: true,
                indexed: true,
                fast: false,
            },
            FieldType::Double => FieldEntry {
                name: mapping.field_name.clone(),
                kind: mapping.field_type,
                stored: true,
                indexed: true,
                fast: false,
            },
            FieldType::Str => FieldEntry {
                name: mapping.field_name.clone(),
                kind: mapping.field_type,
                stored: false,
                indexed: true,
                fast: false,
            },
            FieldType::Bool => FieldEntry {
                name: mapping.field_name.clone(),
                kind: mapping.field_type,
                stored: true,
                indexed: true,
                fast: false,
            },
            FieldType::Text => FieldEntry {
                name: mapping.field_name.clone(),
                kind: mapping.field_type,
                stored: true,
                indexed: true,
                fast: false,
            },
            FieldType::Unspecified => FieldEntry {
                name: mapping.field_name.clone(),
                kind: mapping.field_type,
                stored: false,
                indexed: true,
                fast: false,
            },
        };
        assert(entry@ == entry_of(field_mappings@[m as int]@));
        fields.push(entry);
        m = m + 1;
    }
    let sch = Schema { fields };
    proof {
        assert forall|i: int, j: int| 0 <= i < j < sch@.len() implies sch@[i].name
            != sch@[j].name by {
            assert(sch@[i].name == names[i]);
            assert(sch@[j].name == names[j]);
            if sch@[i].name == sch@[j].name {
                assert(dup_at(names, j));
            }
        }
        assert(wf_schema(sch@));
        lemma_first_dup_skip(names, 0, names.len() as int);
        assert(first_dup_from(names, names.len() as int) == Option::<int>::None);
    }
    Result::Ok(sch)
}

/// Looks a field up by name: the index of the first field carrying `name`,
/// or `None` when the schema holds no such field.
pub fn get_field(schema: &Schema, name: &String) -> (r: Option<usize>)
    ensures
        match r {
            Option::Some(i) => {
                &&& 0 <= i < schema@.len()
                &&& schema@[i as int].name == name@
                &&& forall|j: int| 0 <= j < i ==> schema@[j].name != name@
                &&& field_index(schema@, name@) == Option::Some(i as int)
            },
            Option::None => {
                &&& forall|j: int| 0 <= j < schema@.len() ==> schema@[j].name != name@
                &&& field_index(schema@, name@) is None
            },
        },
{
    let mut i: usize = 0;
    while i < schema.fields.len()
        invariant
            0 <= i <= schema@.len(),
            schema@.len() == schema.fields@.len(),
            forall|j: int| 0 <= j < i ==> schema@[j].name != name@,
        decreases schema@.len() - i,
    {
        if schema.fields[i].name == *name {
            proof {
                lemma_field_index_first(schema@, name@);
            }
            return Option::Some(i);
        }
        i = i + 1;
    }
    proof {
        lemma_field_index_first(schema@, name@);
    }
    Option::None
}

} // verus!
