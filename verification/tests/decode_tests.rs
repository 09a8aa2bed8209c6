//! Plan execution against documents: value extraction, error attribution
//! and aggregation.

use docquery::decode::DecodeError;
use docquery::node::Node;
use docquery::parse_query::parse;
use docquery::query::{DeclaredType, Query, QueryId};
use docquery::value::{Decoded, Value};

fn query(index: usize, name: &str, path: &str, ty: DeclaredType) -> Query {
    let (fragment, errors) = parse(path);
    assert!(errors.is_empty(), "path {path:?} must parse");
    Query::new(QueryId::new(index, name.to_string()), fragment, ty)
}

fn obj(entries: Vec<(&str, Value)>) -> Value {
    Value::Object(entries.into_iter().map(|(k, v)| (k.to_string(), v)).collect())
}

fn s(text: &str) -> Value {
    Value::Str(text.to_string())
}

fn seq_of(elem: DeclaredType) -> DeclaredType {
    DeclaredType::Sequence(Box::new(elem))
}

fn queries_message(err: DecodeError) -> String {
    match err {
        DecodeError::Queries(errors) => errors.to_message(),
        DecodeError::Document(m) => panic!("expected per-field failures, got document error {m:?}"),
    }
}

// Both collect queries walk the shared sequence once and pick their own
// member out of every element.
#[test]
fn generate_basic_test_basic() {
    let root = Node::from_queries(vec![
        query(0, "x", ".locs.[].x", seq_of(DeclaredType::Str)),
        query(1, "y", ".locs.[].y", seq_of(DeclaredType::Str)),
    ])
    .expect("no conflicts");
    let doc = obj(vec![(
        "locs",
        Value::Array(vec![
            obj(vec![("x", s("1")), ("y", s("2"))]),
            obj(vec![("x", s("3")), ("y", s("4"))]),
        ]),
    )]);
    let out = root.decode(&doc).expect("decodes");
    assert_eq!(
        out,
        vec![
            Decoded::Array(vec![Decoded::Str("1".into()), Decoded::Str("3".into())]),
            Decoded::Array(vec![Decoded::Str("2".into()), Decoded::Str("4".into())]),
        ]
    );
}

// An index node must not fail on positions that are present but
// unrequested.
#[test]
fn test_index() {
    let root = Node::from_queries(vec![query(0, "second_elem", ".[1]", DeclaredType::Int)])
        .expect("no conflicts");
    let doc = Value::Array(vec![
        s("abc"),
        Value::Int(42),
        obj(vec![("key", s("value"))]),
    ]);
    let out = root.decode(&doc).expect("decodes");
    assert_eq!(out, vec![Decoded::Int(42)]);
}

#[test]
fn test_field_name() {
    let root = Node::from_queries(vec![query(
        0,
        "with_space",
        r#".["field name with spaces"]"#,
        DeclaredType::Int,
    )])
    .expect("no conflicts");
    let doc = obj(vec![("field name with spaces", Value::Int(42))]);
    let out = root.decode(&doc).expect("decodes");
    assert_eq!(out, vec![Decoded::Int(42)]);
}

#[test]
fn test() {
    let root = Node::from_queries(vec![
        query(0, "commit_message", ".commit.message", DeclaredType::Str),
        query(1, "commit_url", ".commit.url", DeclaredType::Str),
        query(2, "author_login", ".author.login", DeclaredType::Str),
    ])
    .expect("no conflicts");
    let doc = obj(vec![
        (
            "commit",
            obj(vec![
                ("message", s("Add some missing code quoting to the manual")),
                ("url", s("https://api.github.com/repos/stedolan/jq/git/commits/a17dd3248a666d01be75f6b16be37e80e20b0954")),
            ]),
        ),
        ("author", obj(vec![("login", s("max-sixty")), ("id", Value::Int(5635139))])),
    ]);
    let out = root.decode(&doc).expect("decodes");
    assert_eq!(
        out,
        vec![
            Decoded::Str("Add some missing code quoting to the manual".into()),
            Decoded::Str("https://api.github.com/repos/stedolan/jq/git/commits/a17dd3248a666d01be75f6b16be37e80e20b0954".into()),
            Decoded::Str("max-sixty".into()),
        ]
    );
}

// A missing field and a type mismatch in the same document are both
// attributed and aggregated into one composite report.
#[test]
fn test_error_example() {
    let root = Node::from_queries(vec![
        query(0, "author_name", ".author.name", DeclaredType::Str),
        query(1, "committer_name", ".commit.commiter.name", DeclaredType::Str),
        query(2, "id", ".author.id", DeclaredType::Str),
    ])
    .expect("no conflicts");
    let doc = obj(vec![
        ("author", obj(vec![("login", s("user")), ("id", Value::Int(5635139))])),
        ("commit", obj(vec![("committer", obj(vec![("name", s("someone"))]))])),
    ]);
    let message = queries_message(root.decode(&doc).err().expect("three failures"));
    assert_eq!(
        message,
        "Queries failed for fields: 'author_name', 'committer_name', 'id'\n\
         \x20 1. Query for field 'author_name' failed at '.author': missing field 'name'\n\
         \x20 2. Query for field 'committer_name' failed at '.commit': missing field 'commiter'\n\
         \x20 3. Query for field 'id' failed at '.author.id': invalid type: integer, expected a string\n"
    );
}

#[test]
fn test_typo() {
    let root = Node::from_queries(vec![query(
        0,
        "_commiter_ids",
        ".[].commiter.id",
        seq_of(DeclaredType::Int),
    )])
    .expect("no conflicts");
    let doc = Value::Array(vec![
        obj(vec![("committer", obj(vec![("id", Value::Int(1))]))]),
        obj(vec![("committer", obj(vec![("id", Value::Int(2))]))]),
    ]);
    let message = queries_message(root.decode(&doc).err().expect("typo never matches"));
    assert_eq!(
        message,
        "Query for field '_commiter_ids' failed at '.[]': missing field 'commiter'"
    );
}

#[test]
fn test_multiple_errors() {
    let root = Node::from_queries(vec![
        query(0, "_commiter_ids", ".[].commiter.id", seq_of(DeclaredType::Int)),
        query(1, "_committers", ".[].committer.username", seq_of(DeclaredType::Str)),
    ])
    .expect("no conflicts");
    let doc = Value::Array(vec![obj(vec![(
        "committer",
        obj(vec![("name", s("someone"))]),
    )])]);
    let message = queries_message(root.decode(&doc).err().expect("two failures"));
    assert_eq!(
        message,
        "Queries failed for fields: '_commiter_ids', '_committers'\n\
         \x20 1. Query for field '_commiter_ids' failed at '.[]': missing field 'commiter'\n\
         \x20 2. Query for field '_committers' failed at '.[].committer': missing field 'username'\n"
    );
}

#[test]
fn test_type_error() {
    let root = Node::from_queries(vec![query(
        0,
        "_expect_integer",
        ".foo.bar",
        DeclaredType::Int,
    )])
    .expect("no conflicts");
    let doc = obj(vec![("foo", obj(vec![("bar", s("str"))]))]);
    let message = queries_message(root.decode(&doc).err().expect("type mismatch"));
    assert_eq!(
        message,
        "Query for field '_expect_integer' failed at '.foo.bar': invalid type: string, expected an integer"
    );
}

#[test]
fn test_quoted_field() {
    let root = Node::from_queries(vec![query(
        0,
        "_field",
        r#".["field with spaces"]"#,
        DeclaredType::Int,
    )])
    .expect("no conflicts");
    let doc = obj(vec![("field with spaces", s(""))]);
    let message = queries_message(root.decode(&doc).err().expect("type mismatch"));
    assert_eq!(
        message,
        "Query for field '_field' failed at '.[\"field with spaces\"]': invalid type: string, expected an integer"
    );
}

#[test]
fn test_duplicate_non_dupilicate_error() {
    let root = Node::from_queries(vec![query(0, "_bar", ".foo.bar", DeclaredType::Str)])
        .expect("no conflicts");
    // the first value fails to decode; the error is kept, not overwritten
    let doc = obj(vec![(
        "foo",
        Value::Object(vec![
            ("bar".to_string(), Value::Int(100)),
            ("bar".to_string(), s("baz")),
        ]),
    )]);
    let message = queries_message(root.decode(&doc).err().expect("first value failed"));
    assert_eq!(
        message,
        "Query for field '_bar' failed at '.foo.bar': invalid type: integer, expected a string"
    );
}

#[test]
fn test_duplicate_duplicate_error() {
    let root = Node::from_queries(vec![query(0, "_bar", ".foo.bar", DeclaredType::Str)])
        .expect("no conflicts");
    // the first value decodes, so the repeated key becomes the error
    let doc = obj(vec![(
        "foo",
        Value::Object(vec![
            ("bar".to_string(), s("baz1")),
            ("bar".to_string(), s("baz2")),
        ]),
    )]);
    let message = queries_message(root.decode(&doc).err().expect("duplicated field"));
    assert_eq!(
        message,
        "Query for field '_bar' failed at '.foo': duplicated field 'bar'"
    );
}

#[test]
fn sequence_too_short() {
    let root = Node::from_queries(vec![query(0, "third", ".[2]", DeclaredType::Int)])
        .expect("no conflicts");
    let doc = Value::Array(vec![Value::Int(1)]);
    let message = queries_message(root.decode(&doc).err().expect("sequence ends early"));
    assert_eq!(
        message,
        "Query for field 'third' failed at '.': the sequence must have at least 3 elements"
    );
}

// A document whose shape does not fit an inner node aborts the whole
// decode with a structural error, not an aggregated one.
#[test]
fn structural_error_aborts() {
    let root = Node::from_queries(vec![query(0, "bar", ".foo.bar", DeclaredType::Str)])
        .expect("no conflicts");
    let doc = obj(vec![("foo", Value::Array(vec![Value::Int(1)]))]);
    match root.decode(&doc) {
        Err(DecodeError::Document(m)) => {
            assert_eq!(
                m,
                "invalid type: sequence, expected one of the following fields: 'bar'"
            );
        }
        other => panic!("expected a structural error, got {other:?}"),
    }
}

// One failing element poisons its output for the rest of the sequence;
// the structural walk still finishes.
#[test]
fn collect_element_failure_poisons_output() {
    let root = Node::from_queries(vec![query(0, "xs", ".xs.[]", seq_of(DeclaredType::Int))])
        .expect("no conflicts");
    let doc = obj(vec![(
        "xs",
        Value::Array(vec![Value::Int(1), s("a"), Value::Int(2)]),
    )]);
    let message = queries_message(root.decode(&doc).err().expect("one element fails"));
    assert_eq!(
        message,
        "Query for field 'xs' failed at '.xs.[]': invalid type: string, expected an integer"
    );
}

#[test]
fn collect_into_nested_container() {
    let root = Node::from_queries(vec![query(
        0,
        "rows",
        ".rows.[].[]",
        seq_of(seq_of(DeclaredType::Int)),
    )])
    .expect("no conflicts");
    let doc = obj(vec![(
        "rows",
        Value::Array(vec![
            Value::Array(vec![Value::Int(1), Value::Int(2)]),
            Value::Array(vec![Value::Int(3)]),
        ]),
    )]);
    let out = root.decode(&doc).expect("decodes");
    assert_eq!(
        out,
        vec![Decoded::Array(vec![
            Decoded::Array(vec![Decoded::Int(1), Decoded::Int(2)]),
            Decoded::Array(vec![Decoded::Int(3)]),
        ])]
    );
}

#[test]
fn leaf_decodes_whole_sequence() {
    // a container declared at a leaf (no collect step) decodes elementwise
    let root = Node::from_queries(vec![query(0, "xs", ".xs", seq_of(DeclaredType::Int))])
        .expect("no conflicts");
    let doc = obj(vec![("xs", Value::Array(vec![Value::Int(4), Value::Int(5)]))]);
    let out = root.decode(&doc).expect("decodes");
    assert_eq!(
        out,
        vec![Decoded::Array(vec![Decoded::Int(4), Decoded::Int(5)])]
    );
}

#[test]
fn unknown_keys_are_skipped() {
    let root = Node::from_queries(vec![query(0, "b", ".b", DeclaredType::Bool)])
        .expect("no conflicts");
    let doc = obj(vec![
        ("a", Value::Int(1)),
        ("b", Value::Bool(true)),
        ("c", Value::Null),
    ]);
    let out = root.decode(&doc).expect("decodes");
    assert_eq!(out, vec![Decoded::Bool(true)]);
}

#[test]
fn null_never_matches_a_declared_type() {
    let root = Node::from_queries(vec![query(0, "b", ".b", DeclaredType::Bool)])
        .expect("no conflicts");
    let doc = obj(vec![("b", Value::Null)]);
    let message = queries_message(root.decode(&doc).err().expect("null does not decode"));
    assert_eq!(
        message,
        "Query for field 'b' failed at '.b': invalid type: null, expected a boolean"
    );
}

#[test]
fn whole_document_as_leaf() {
    // the empty path accepts the document itself
    let root = Node::from_queries(vec![query(0, "all", "", DeclaredType::Int)])
        .expect("no conflicts");
    let out = root.decode(&Value::Int(9)).expect("decodes");
    assert_eq!(out, vec![Decoded::Int(9)]);
}

#[test]
fn missing_field_errors_do_not_hide_each_other() {
    // two outputs under different children of one map each get their own
    // missing-field error
    let root = Node::from_queries(vec![
        query(0, "a", ".a", DeclaredType::Int),
        query(1, "b", ".b", DeclaredType::Int),
    ])
    .expect("no conflicts");
    let doc = obj(vec![("c", Value::Int(1))]);
    let message = queries_message(root.decode(&doc).err().expect("both missing"));
    assert_eq!(
        message,
        "Queries failed for fields: 'a', 'b'\n\
         \x20 1. Query for field 'a' failed at '.': missing field 'a'\n\
         \x20 2. Query for field 'b' failed at '.': missing field 'b'\n"
    );
}
