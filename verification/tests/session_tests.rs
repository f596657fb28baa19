use docindex::errors::IndexError;
use docindex::schema::{FieldMapping, FieldType};
use docindex::doc::{DocumentField, IdDocument};
use docindex::session::{
    create_searcher, create_searcher_with_param, add_document, delete_document, commit_index,
    num_docs, IndexParam, SearchParam, Searcher,
};
use docindex::extract::{search_by_query, search_compact_all, search, is_member, num_ids};
use docindex::query::{StringBound, LongBound, FloatBound, RangeBound, TQuery, query_occurr,
    query_occur_vec, append_query_occur_to_vec};
use docindex::{term_query, term_query_long, range_query, range_query_long, range_query_float,
    boolean_query, TOccur};

fn mapping(name: &str, kind: FieldType) -> FieldMapping {
    FieldMapping { field_name: String::from(name), field_type: kind }
}

fn field(name: &str, value: &str, kind: FieldType) -> DocumentField {
    DocumentField {
        field_name: String::from(name),
        field_value: String::from(value),
        field_type: kind,
    }
}

fn product_session() -> Box<Searcher> {
    let path = String::from("products");
    let mappings = vec![mapping("name", FieldType::Text), mapping("price", FieldType::Long)];
    create_searcher(&path, mappings).expect("schema should build")
}

fn product_doc(id: i64, name: &str, price: &str) -> IdDocument {
    IdDocument {
        doc_id: id,
        field_values: vec![
            field("name", name, FieldType::Text),
            field("price", price, FieldType::Long),
        ],
    }
}

fn ids_of(docs: &Vec<IdDocument>) -> Vec<i64> {
    docs.iter().map(|d| d.doc_id).collect()
}

fn all_results(s: &mut Searcher, q: &TQuery) -> Vec<i64> {
    let r = search_by_query(s, q, &SearchParam { top_k: 1000000 }).expect("search should succeed");
    ids_of(&r)
}

#[test]
fn duplicate_field_name_rejected() {
    let path = String::from("dup");
    let mappings = vec![mapping("name", FieldType::Text), mapping("name", FieldType::Long)];
    match create_searcher(&path, mappings) {
        Err(IndexError::FieldNotFound { name }) => assert_eq!(name, "name"),
        _ => panic!("duplicate field name must be rejected with FieldNotFound"),
    }
}

#[test]
fn implicit_id_field_name_rejected() {
    let path = String::from("dup_id");
    let mappings = vec![mapping("_docId", FieldType::Long)];
    match create_searcher(&path, mappings) {
        Err(IndexError::FieldNotFound { name }) => assert_eq!(name, "_docId"),
        _ => panic!("redeclaring the identifier field must be rejected"),
    }
}

#[test]
fn unknown_field_in_document_fails() {
    let mut s = product_session();
    let doc = IdDocument {
        doc_id: 1,
        field_values: vec![field("color", "red", FieldType::Text)],
    };
    match add_document(&mut s, vec![doc], true) {
        Err(IndexError::FieldNotFound { name }) => assert_eq!(name, "color"),
        _ => panic!("unknown field name must fail with FieldNotFound"),
    }
    assert_eq!(num_docs(&mut s).unwrap(), 0);
}

#[test]
fn bad_long_value_fails() {
    let mut s = product_session();
    let doc = IdDocument {
        doc_id: 1,
        field_values: vec![field("price", "cheap", FieldType::Long)],
    };
    match add_document(&mut s, vec![doc], true) {
        Err(IndexError::ValueParseError { value, kind }) => {
            assert_eq!(value, "cheap");
            assert_eq!(kind, FieldType::Long);
        },
        _ => panic!("a value that does not parse must fail with ValueParseError"),
    }
}

#[test]
fn empty_boolean_rejected() {
    let occurs = query_occur_vec();
    match boolean_query(&occurs) {
        Err(IndexError::EngineError { .. }) => {},
        _ => panic!("an empty boolean clause list must be rejected"),
    }
}

#[test]
fn unknown_query_field_fails() {
    let mut s = product_session();
    match term_query(&mut s, &String::from("color"), &String::from("red")) {
        Err(IndexError::FieldNotFound { name }) => assert_eq!(name, "color"),
        _ => panic!("a term query on an unknown field must fail"),
    }
}

#[test]
fn bad_float_bound_fails() {
    let mut s = product_session();
    let lo = FloatBound { bound: RangeBound::Included, value: String::from("ten") };
    let hi = FloatBound { bound: RangeBound::Unbounded, value: String::new() };
    match range_query_float(&mut s, &String::from("price"), &lo, &hi) {
        Err(IndexError::ValueParseError { value, .. }) => assert_eq!(value, "ten"),
        _ => panic!("a float bound that does not parse must fail"),
    }
}

#[test]
fn add_commit_then_term_on_id_finds_doc() {
    let mut s = product_session();
    add_document(&mut s, vec![product_doc(7, "Super Broom 2000", "10")], true).unwrap();
    let q = term_query_long(&mut s, &String::from("_docId"), 7).unwrap();
    assert_eq!(all_results(&mut s, &q), vec![7]);
}

#[test]
fn add_without_commit_invisible() {
    let mut s = product_session();
    add_document(&mut s, vec![product_doc(7, "Super Broom 2000", "10")], false).unwrap();
    let q = term_query_long(&mut s, &String::from("_docId"), 7).unwrap();
    assert_eq!(all_results(&mut s, &q), Vec::<i64>::new());
    assert_eq!(num_docs(&mut s).unwrap(), 0);
    commit_index(&mut s).unwrap();
    assert_eq!(all_results(&mut s, &q), vec![7]);
    assert_eq!(num_docs(&mut s).unwrap(), 1);
}

#[test]
fn price_range_scenario() {
    // Schema {name: Text, price: Long}; ids 0, 1, 2 with prices 10, 20, 30.
    let mut s = product_session();
    add_document(
        &mut s,
        vec![
            product_doc(0, "Super Broom 2000", "10"),
            product_doc(1, "Turbulobroom", "20"),
            product_doc(2, "Broomio", "30"),
        ],
        true,
    )
    .unwrap();
    let lo = LongBound { bound: RangeBound::Included, value: 10 };
    let hi = LongBound { bound: RangeBound::Excluded, value: 30 };
    let q = range_query_long(&mut s, &String::from("price"), &lo, &hi).unwrap();
    assert_eq!(all_results(&mut s, &q), vec![0, 1]);
}

#[test]
fn range_boundary_inclusivity() {
    let mut s = product_session();
    add_document(
        &mut s,
        vec![
            product_doc(0, "a", "10"),
            product_doc(1, "b", "20"),
            product_doc(2, "c", "30"),
        ],
        true,
    )
    .unwrap();
    let name = String::from("price");
    let q1 = range_query_long(
        &mut s,
        &name,
        &LongBound { bound: RangeBound::Excluded, value: 10 },
        &LongBound { bound: RangeBound::Included, value: 30 },
    )
    .unwrap();
    assert_eq!(all_results(&mut s, &q1), vec![1, 2]);
    let q2 = range_query_long(
        &mut s,
        &name,
        &LongBound { bound: RangeBound::Included, value: 20 },
        &LongBound { bound: RangeBound::Included, value: 20 },
    )
    .unwrap();
    assert_eq!(all_results(&mut s, &q2), vec![1]);
    let q3 = range_query_long(
        &mut s,
        &name,
        &LongBound { bound: RangeBound::Unbounded, value: 0 },
        &LongBound { bound: RangeBound::Excluded, value: 10 },
    )
    .unwrap();
    assert_eq!(all_results(&mut s, &q3), Vec::<i64>::new());
}

#[test]
fn boolean_broom_not_mole() {
    // Corpus of 4 docs: three hold "Broom" in name, one is the Mole doc.
    let mut s = product_session();
    add_document(
        &mut s,
        vec![
            product_doc(0, "Super Broom 2000", "10"),
            product_doc(1, "Broom Deluxe", "20"),
            product_doc(2, "Plain Broom", "30"),
            product_doc(3, "Whack a Mole", "40"),
        ],
        true,
    )
    .unwrap();
    let name = String::from("name");
    let mut broom = term_query(&mut s, &name, &String::from("Broom")).unwrap();
    let mut mole = term_query(&mut s, &name, &String::from("Mole")).unwrap();
    let mut occurs = query_occur_vec();
    let mut c1 = query_occurr(&TOccur::Must, &mut broom);
    append_query_occur_to_vec(&mut occurs, &mut c1);
    let mut c2 = query_occurr(&TOccur::MustNot, &mut mole);
    append_query_occur_to_vec(&mut occurs, &mut c2);
    let q = boolean_query(&occurs).unwrap();
    assert_eq!(all_results(&mut s, &q), vec![0, 1, 2]);
}

#[test]
fn boolean_must_requires_all_clauses() {
    let mut s = product_session();
    add_document(
        &mut s,
        vec![
            product_doc(0, "Super Broom 2000", "10"),
            product_doc(1, "Whack a Mole", "20"),
        ],
        true,
    )
    .unwrap();
    let name = String::from("name");
    let mut broom = term_query(&mut s, &name, &String::from("Broom")).unwrap();
    let mut mole = term_query(&mut s, &name, &String::from("Mole")).unwrap();
    let mut occurs = query_occur_vec();
    let mut c1 = query_occurr(&TOccur::Must, &mut broom);
    append_query_occur_to_vec(&mut occurs, &mut c1);
    let mut c2 = query_occurr(&TOccur::Must, &mut mole);
    append_query_occur_to_vec(&mut occurs, &mut c2);
    let q = boolean_query(&occurs).unwrap();
    // no document holds both terms
    assert_eq!(all_results(&mut s, &q), Vec::<i64>::new());
}

#[test]
fn boolean_should_union() {
    let mut s = product_session();
    add_document(
        &mut s,
        vec![
            product_doc(0, "apple pie", "10"),
            product_doc(1, "banana split", "20"),
            product_doc(2, "cherry cake", "30"),
        ],
        true,
    )
    .unwrap();
    let name = String::from("name");
    let mut apple = term_query(&mut s, &name, &String::from("apple")).unwrap();
    let mut banana = term_query(&mut s, &name, &String::from("banana")).unwrap();
    let mut occurs = query_occur_vec();
    let mut c1 = query_occurr(&TOccur::Should, &mut apple);
    append_query_occur_to_vec(&mut occurs, &mut c1);
    let mut c2 = query_occurr(&TOccur::Should, &mut banana);
    append_query_occur_to_vec(&mut occurs, &mut c2);
    let q = boolean_query(&occurs).unwrap();
    assert_eq!(all_results(&mut s, &q), vec![0, 1]);
}

#[test]
fn delete_then_commit_removes() {
    let mut s = product_session();
    add_document(
        &mut s,
        vec![
            product_doc(0, "a", "10"),
            product_doc(1, "b", "20"),
            product_doc(2, "c", "30"),
        ],
        true,
    )
    .unwrap();
    delete_document(&mut s, vec![1], true).unwrap();
    let q = range_query_long(
        &mut s,
        &String::from("price"),
        &LongBound { bound: RangeBound::Unbounded, value: 0 },
        &LongBound { bound: RangeBound::Unbounded, value: 0 },
    )
    .unwrap();
    assert_eq!(all_results(&mut s, &q), vec![0, 2]);
    let mut bitmap = search_compact_all(&mut s, &q).unwrap();
    assert!(!is_member(&mut bitmap, 1).unwrap());
    assert!(is_member(&mut bitmap, 0).unwrap());
    assert!(is_member(&mut bitmap, 2).unwrap());
    assert_eq!(num_docs(&mut s).unwrap(), 2);
}

#[test]
fn delete_without_commit_invisible() {
    let mut s = product_session();
    add_document(&mut s, vec![product_doc(5, "a", "10")], true).unwrap();
    delete_document(&mut s, vec![5], false).unwrap();
    let q = term_query_long(&mut s, &String::from("_docId"), 5).unwrap();
    assert_eq!(all_results(&mut s, &q), vec![5]);
    commit_index(&mut s).unwrap();
    assert_eq!(all_results(&mut s, &q), Vec::<i64>::new());
}

#[test]
fn compact_equals_materialized() {
    let mut s = product_session();
    add_document(
        &mut s,
        vec![
            product_doc(0, "Broom one", "10"),
            product_doc(1, "Mole", "20"),
            product_doc(2, "Broom two", "30"),
        ],
        true,
    )
    .unwrap();
    let q = term_query(&mut s, &String::from("name"), &String::from("Broom")).unwrap();
    let materialized = all_results(&mut s, &q);
    let mut bitmap = search_compact_all(&mut s, &q).unwrap();
    assert_eq!(num_ids(&bitmap), materialized.len() as u64);
    for id in &materialized {
        assert!(is_member(&mut bitmap, *id as u64).unwrap());
    }
    assert!(!is_member(&mut bitmap, 1).unwrap());
}

#[test]
fn compact_hundred_docs() {
    // 100 documents, an unbounded identifier range: every id present, 101 not.
    let mut s = product_session();
    let mut docs = Vec::new();
    for i in 0..100i64 {
        docs.push(product_doc(i, "bulk item", "5"));
    }
    add_document(&mut s, docs, true).unwrap();
    let q = range_query_long(
        &mut s,
        &String::from("_docId"),
        &LongBound { bound: RangeBound::Unbounded, value: 0 },
        &LongBound { bound: RangeBound::Unbounded, value: 0 },
    )
    .unwrap();
    let mut bitmap = search_compact_all(&mut s, &q).unwrap();
    assert_eq!(num_ids(&bitmap), 100);
    for i in 0..100u64 {
        assert!(is_member(&mut bitmap, i).unwrap());
    }
    assert!(!is_member(&mut bitmap, 101).unwrap());
}

#[test]
fn memory_budget_session_visibility() {
    let path = String::from("small_budget");
    let mappings = vec![mapping("name", FieldType::Text), mapping("price", FieldType::Long)];
    let mut s = create_searcher_with_param(&path, mappings, IndexParam { memory_mbytes: 1 })
        .expect("schema should build");
    add_document(
        &mut s,
        vec![product_doc(0, "a", "10"), product_doc(1, "b", "20")],
        false,
    )
    .unwrap();
    assert_eq!(num_docs(&mut s).unwrap(), 0);
    commit_index(&mut s).unwrap();
    assert_eq!(num_docs(&mut s).unwrap(), 2);
}

#[test]
fn top_k_limits_results() {
    let mut s = product_session();
    add_document(
        &mut s,
        vec![
            product_doc(0, "a", "10"),
            product_doc(1, "b", "20"),
            product_doc(2, "c", "30"),
        ],
        true,
    )
    .unwrap();
    let q = range_query_long(
        &mut s,
        &String::from("price"),
        &LongBound { bound: RangeBound::Unbounded, value: 0 },
        &LongBound { bound: RangeBound::Unbounded, value: 0 },
    )
    .unwrap();
    let r = search_by_query(&mut s, &q, &SearchParam { top_k: 2 }).unwrap();
    assert_eq!(ids_of(&r), vec![0, 1]);
}

#[test]
fn string_range_on_exact_field() {
    let path = String::from("tags");
    let mappings = vec![mapping("tag", FieldType::Str)];
    let mut s = create_searcher(&path, mappings).unwrap();
    let mk = |id: i64, tag: &str| IdDocument {
        doc_id: id,
        field_values: vec![field("tag", tag, FieldType::Str)],
    };
    add_document(&mut s, vec![mk(0, "apple"), mk(1, "banana"), mk(2, "cherry")], true).unwrap();
    let q = range_query(
        &mut s,
        &String::from("tag"),
        &StringBound { bound: RangeBound::Included, value: String::from("apple") },
        &StringBound { bound: RangeBound::Excluded, value: String::from("cherry") },
    )
    .unwrap();
    assert_eq!(all_results(&mut s, &q), vec![0, 1]);
}

#[test]
fn exact_string_term_is_case_sensitive() {
    let path = String::from("tags2");
    let mappings = vec![mapping("tag", FieldType::Str)];
    let mut s = create_searcher(&path, mappings).unwrap();
    let mk = |id: i64, tag: &str| IdDocument {
        doc_id: id,
        field_values: vec![field("tag", tag, FieldType::Str)],
    };
    add_document(&mut s, vec![mk(0, "Apple"), mk(1, "apple")], true).unwrap();
    let q = term_query(&mut s, &String::from("tag"), &String::from("apple")).unwrap();
    assert_eq!(all_results(&mut s, &q), vec![1]);
}

#[test]
fn float_range_matches_numeric_order() {
    let path = String::from("weights");
    let mappings = vec![mapping("weight", FieldType::Double)];
    let mut s = create_searcher(&path, mappings).unwrap();
    let mk = |id: i64, w: &str| IdDocument {
        doc_id: id,
        field_values: vec![field("weight", w, FieldType::Double)],
    };
    add_document(
        &mut s,
        vec![mk(0, "0.5"), mk(1, "2"), mk(2, "10"), mk(3, "10.0"), mk(4, "-3")],
        true,
    )
    .unwrap();
    let q = range_query_float(
        &mut s,
        &String::from("weight"),
        &FloatBound { bound: RangeBound::Included, value: String::from("0.50") },
        &FloatBound { bound: RangeBound::Excluded, value: String::from("10") },
    )
    .unwrap();
    assert_eq!(all_results(&mut s, &q), vec![0, 1]);
    let q2 = range_query_float(
        &mut s,
        &String::from("weight"),
        &FloatBound { bound: RangeBound::Unbounded, value: String::new() },
        &FloatBound { bound: RangeBound::Included, value: String::from("1e1") },
    )
    .unwrap();
    assert_eq!(all_results(&mut s, &q2), vec![0, 1, 2, 3, 4]);
}

#[test]
fn bool_field_round_trip() {
    let path = String::from("flags");
    let mappings = vec![mapping("active", FieldType::Bool)];
    let mut s = create_searcher(&path, mappings).unwrap();
    let mk = |id: i64, v: &str| IdDocument {
        doc_id: id,
        field_values: vec![field("active", v, FieldType::Bool)],
    };
    add_document(&mut s, vec![mk(0, "TRUE"), mk(1, "false")], true).unwrap();
    assert_eq!(num_docs(&mut s).unwrap(), 2);
    let mk_bad = IdDocument {
        doc_id: 2,
        field_values: vec![field("active", "maybe", FieldType::Bool)],
    };
    assert!(add_document(&mut s, vec![mk_bad], true).is_err());
}

#[test]
fn failed_batch_keeps_earlier_docs_buffered() {
    let mut s = product_session();
    let good = product_doc(0, "a", "10");
    let bad = IdDocument {
        doc_id: 1,
        field_values: vec![field("price", "oops", FieldType::Long)],
    };
    assert!(add_document(&mut s, vec![good, bad], true).is_err());
    // nothing committed by the failed call
    assert_eq!(num_docs(&mut s).unwrap(), 0);
    // the valid prefix stays buffered and appears after an explicit commit
    commit_index(&mut s).unwrap();
    assert_eq!(num_docs(&mut s).unwrap(), 1);
}

#[test]
fn text_search_over_fields() {
    let mut s = product_session();
    add_document(
        &mut s,
        vec![
            product_doc(0, "Super Broom 2000", "10"),
            product_doc(1, "Whack a Mole", "20"),
            product_doc(2, "Broomio", "30"),
        ],
        true,
    )
    .unwrap();
    let fields = vec![String::from("name")];
    let r = search(
        &mut s,
        &String::from("broom mole"),
        &fields,
        &SearchParam { top_k: 10 },
    )
    .unwrap();
    assert_eq!(ids_of(&r), vec![0, 1]);
    match search(&mut s, &String::from("broom"), &vec![String::from("missing")], &SearchParam {
        top_k: 10,
    }) {
        Err(IndexError::FieldNotFound { name }) => assert_eq!(name, "missing"),
        _ => panic!("an unknown search field must fail"),
    }
}

#[test]
fn duplicated_query_matches_alike() {
    let mut s = product_session();
    add_document(
        &mut s,
        vec![product_doc(0, "Broom one", "10"), product_doc(1, "Mole", "20")],
        true,
    )
    .unwrap();
    let mut broom = term_query(&mut s, &String::from("name"), &String::from("Broom")).unwrap();
    // reuse the same sub-query in two clauses of one boolean query
    let mut occurs = query_occur_vec();
    let mut c1 = query_occurr(&TOccur::Should, &mut broom);
    append_query_occur_to_vec(&mut occurs, &mut c1);
    let mut c2 = query_occurr(&TOccur::Must, &mut broom);
    append_query_occur_to_vec(&mut occurs, &mut c2);
    let q = boolean_query(&occurs).unwrap();
    assert_eq!(all_results(&mut s, &q), vec![0]);
}

#[test]
fn buffered_operations_apply_in_order() {
    // add, delete, re-add the same identifier, all buffered; the later add
    // survives the earlier delete when the buffer is committed in order
    let mut s = product_session();
    add_document(&mut s, vec![product_doc(1, "first", "10")], false).unwrap();
    delete_document(&mut s, vec![1], false).unwrap();
    add_document(&mut s, vec![product_doc(1, "second", "20")], false).unwrap();
    commit_index(&mut s).unwrap();
    assert_eq!(num_docs(&mut s).unwrap(), 1);
    let q = term_query(&mut s, &String::from("name"), &String::from("second")).unwrap();
    assert_eq!(all_results(&mut s, &q), vec![1]);
}

#[test]
fn negative_identifier_folds_into_magnitude() {
    // the compact set stores magnitudes: an identifier and its negation share an entry
    let mut s = product_session();
    add_document(&mut s, vec![product_doc(-4, "negative id doc", "10")], true).unwrap();
    let q = term_query_long(&mut s, &String::from("_docId"), -4).unwrap();
    let mut bitmap = search_compact_all(&mut s, &q).unwrap();
    assert!(is_member(&mut bitmap, 4).unwrap());
}
