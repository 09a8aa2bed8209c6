//! Tree compilation: prefix sharing, conflicts, idempotence and the
//! compiler's front door.

use docquery::compile::{compile, Diagnostic};
use docquery::node::{Node, NodeKind};
use docquery::parse_query::parse;
use docquery::query::{DeclaredType, Query, QueryFragment, QueryId};
use docquery::value::{Decoded, Value};

fn query(index: usize, name: &str, path: &str, ty: DeclaredType) -> Query {
    let (fragment, errors) = parse(path);
    assert!(errors.is_empty(), "path {path:?} must parse");
    Query::new(QueryId::new(index, name.to_string()), fragment, ty)
}

#[test]
fn test_empty() {
    let root = Node::from_queries(vec![]).expect("empty query set compiles");
    assert!(matches!(root.kind, NodeKind::Unset));
    // decoding with no queries consumes nothing and succeeds
    let out = root.decode(&Value::Int(5)).expect("no queries, no failures");
    assert_eq!(out, Vec::<Decoded>::new());
}

#[test]
fn test_conflicting_accept() {
    // two output fields may want the exact same leaf value: their accept
    // nodes merge, and both receive the value
    let root = Node::from_queries(vec![
        query(0, "bar1", ".foo.bar", DeclaredType::Str),
        query(1, "bar2", ".foo.bar", DeclaredType::Str),
    ])
    .expect("identical queries share one leaf");
    let doc = Value::Object(vec![(
        "foo".to_string(),
        Value::Object(vec![("bar".to_string(), Value::Str("baz".to_string()))]),
    )]);
    let out = root.decode(&doc).expect("decodes");
    assert_eq!(
        out,
        vec![
            Decoded::Str("baz".to_string()),
            Decoded::Str("baz".to_string())
        ]
    );
}

// Two queries that require different shapes at the same prefix fail to
// compile, and the conflict names both output fields.
#[test]
fn conflicting_shapes_name_both_outputs() {
    let result = Node::from_queries(vec![
        query(0, "a", ".foo", DeclaredType::Str),
        query(1, "b", ".foo.bar", DeclaredType::Str),
    ]);
    let conflicts = result.err().expect("shape conflict");
    assert_eq!(conflicts.len(), 1);
    assert_eq!(conflicts[0].existing.name, "a");
    assert_eq!(conflicts[0].incoming.name, "b");
    assert_eq!(
        conflicts[0].message(),
        "Conflicting query at '.foo'. The query for field 'a' expects a value here \
         while the query for field 'b' expects a struct."
    );
}

#[test]
fn conflicting_index_vs_collect() {
    let result = Node::from_queries(vec![
        query(0, "one", ".xs.[0]", DeclaredType::Int),
        query(1, "all", ".xs.[]", DeclaredType::Sequence(Box::new(DeclaredType::Int))),
    ]);
    let conflicts = result.err().expect("index and collect shapes differ");
    assert_eq!(conflicts.len(), 1);
    assert_eq!(conflicts[0].existing.name, "one");
    assert_eq!(conflicts[0].incoming.name, "all");
}

#[test]
fn all_conflicts_are_reported() {
    // both later queries conflict with the first; both are reported
    let result = Node::from_queries(vec![
        query(0, "a", ".foo", DeclaredType::Str),
        query(1, "b", ".foo.bar", DeclaredType::Str),
        query(2, "c", ".foo.[0]", DeclaredType::Int),
    ]);
    let conflicts = result.err().expect("two conflicts");
    assert_eq!(conflicts.len(), 2);
    assert_eq!(conflicts[0].incoming.name, "b");
    assert_eq!(conflicts[1].incoming.name, "c");
}

// Queries sharing a common prefix share one node per prefix position.
#[test]
fn common_prefix_is_shared() {
    let root = Node::from_queries(vec![
        query(0, "x", ".locs.[].x", DeclaredType::Sequence(Box::new(DeclaredType::Str))),
        query(1, "y", ".locs.[].y", DeclaredType::Sequence(Box::new(DeclaredType::Str))),
    ])
    .expect("no conflicts");
    // one field child at the root, shared by both queries
    let NodeKind::Field { fields } = &root.kind else {
        panic!("root dispatches on fields");
    };
    assert_eq!(fields.len(), 1);
    assert_eq!(fields[0].0, "locs");
    assert_eq!(fields[0].1.queries.len(), 2);
    // one collect child below it, still shared
    let NodeKind::CollectArray { child } = &fields[0].1.kind else {
        panic!("locs collects");
    };
    assert_eq!(child.queries.len(), 2);
    // the paths diverge only at the per-element field dispatch
    let NodeKind::Field { fields: leaf_fields } = &child.kind else {
        panic!("element dispatches on fields");
    };
    assert_eq!(leaf_fields.len(), 2);
    assert_eq!(leaf_fields[0].0, "x");
    assert_eq!(leaf_fields[1].0, "y");
}

#[test]
fn children_are_sorted_by_name() {
    let root = Node::from_queries(vec![
        query(0, "zq", ".z", DeclaredType::Int),
        query(1, "aq", ".a", DeclaredType::Int),
        query(2, "mq", ".m", DeclaredType::Int),
    ])
    .expect("no conflicts");
    let NodeKind::Field { fields } = &root.kind else {
        panic!("root dispatches on fields");
    };
    let names: Vec<&str> = fields.iter().map(|(n, _)| n.as_str()).collect();
    assert_eq!(names, ["a", "m", "z"]);
}

// Compiling the same query set twice yields structurally identical trees.
#[test]
fn compiling_twice_is_identical() {
    let build = || {
        Node::from_queries(vec![
            query(0, "x", ".locs.[].x", DeclaredType::Sequence(Box::new(DeclaredType::Str))),
            query(1, "n", ".count", DeclaredType::Int),
        ])
        .expect("no conflicts")
    };
    assert_eq!(build(), build());
}

#[test]
fn compile_from_triples() {
    let root = compile(vec![
        (QueryId::new(0, "n".to_string()), ".n".to_string(), DeclaredType::Int),
    ])
    .expect("clean input compiles");
    let out = root
        .decode(&Value::Object(vec![("n".to_string(), Value::Int(7))]))
        .expect("decodes");
    assert_eq!(out, vec![Decoded::Int(7)]);
}

#[test]
fn compile_reports_parse_diagnostics() {
    let result = compile(vec![
        (QueryId::new(0, "bad".to_string()), "no_dot".to_string(), DeclaredType::Int),
    ]);
    let diags = result.err().expect("grammar violation");
    assert_eq!(diags.len(), 1);
    assert!(matches!(&diags[0], Diagnostic::Parse { id, .. } if id.name == "bad"));
    assert_eq!(
        diags[0].message(),
        "in the query for field 'bad': 0..6: expected Dot, got Field"
    );
}

#[test]
fn compile_rejects_collect_into_scalar() {
    let result = compile(vec![
        (QueryId::new(0, "xs".to_string()), ".xs.[]".to_string(), DeclaredType::Int),
    ]);
    let diags = result.err().expect("a collect step needs a collection");
    assert_eq!(diags.len(), 1);
    assert!(matches!(&diags[0], Diagnostic::NotCollection { id } if id.name == "xs"));
}

#[test]
fn compile_reports_conflicts() {
    let result = compile(vec![
        (QueryId::new(0, "a".to_string()), ".foo".to_string(), DeclaredType::Str),
        (QueryId::new(1, "b".to_string()), ".foo.bar".to_string(), DeclaredType::Str),
    ]);
    let diags = result.err().expect("shape conflict");
    assert_eq!(diags.len(), 1);
    assert!(matches!(&diags[0], Diagnostic::Conflict(c)
        if c.existing.name == "a" && c.incoming.name == "b"));
}

#[test]
fn fragments_built_by_hand_compile_too() {
    // the constructors mirror what the parser produces
    let fragment = QueryFragment::field(
        "locs".to_string(),
        false,
        QueryFragment::collect_array(QueryFragment::field(
            "x".to_string(),
            false,
            QueryFragment::accept(),
        )),
    );
    let (parsed, errors) = parse(".locs.[].x");
    assert!(errors.is_empty());
    assert_eq!(fragment, parsed);
}
