//! The tree compiler: converts each query into a single-query decision tree
//! and merges all of them into one shared tree, detecting shape conflicts.
//!
//! Every query is threaded down the tree along its own path: each node
//! records the `(output, declared type)` pairs flowing through it, and its
//! kind — leaf, field dispatch, index dispatch or collect — must agree with
//! every query that passes.  Two queries that ask for different shapes at
//! the same prefix are a conflict, reported with the prefix and both output
//! names.  Merging one query into the accumulated tree leaves the tree's
//! diagnostics order deterministic: children are kept sorted by key.

use vstd::prelude::*;

use crate::query::{DeclaredType, FragmentV, Query, QueryFragment, QueryId, QueryIdV, QueryV};
use crate::text::{chars_lt, dec_str, str_lt, usize_to_string};

verus! {

broadcast use vstd::std_specs::vec::axiom_vec_index_decreases, vstd::seq::axiom_seq_index_decreases, vstd::std_specs::vec::axiom_vec_decreases_to_view;

/// One position in the compiled, merged traversal tree: the queries that
/// flow through it, its traversal shape, and the path prefix that reaches
/// it (the latter only for diagnostics).
#[derive(Debug, PartialEq, Eq)]
pub struct Node {
    pub queries: Vec<(QueryId, DeclaredType)>,
    pub kind: NodeKind,
    pub prefix: String,
}

/// The traversal shape of a [`Node`].  Children of a `Field` node are
/// sorted by name, children of an `IndexArray` node by index, so that
/// dispatch order and diagnostics do not depend on declaration order.
#[derive(Debug, PartialEq, Eq)]
pub enum NodeKind {
    /// No query reaches here yet; only seen during construction.
    Unset,
    /// Decoding terminates here.
    Accept,
    /// Dispatch on map keys.
    Field { fields: Vec<(String, Node)> },
    /// Dispatch on sequence positions.
    IndexArray { indices: Vec<(usize, Node)> },
    /// Run the child for every element of a sequence.
    CollectArray { child: Box<Node> },
}

/// The mathematical image of a [`Node`].
#[verifier::ext_equal]
pub struct NodeV {
    pub queries: Seq<(QueryIdV, DeclaredType)>,
    pub kind: KindV,
    pub prefix: Seq<char>,
}

/// The mathematical image of a [`NodeKind`].
#[verifier::ext_equal]
pub enum KindV {
    Unset,
    Accept,
    Field { fields: Seq<(Seq<char>, NodeV)> },
    IndexArray { indices: Seq<(int, NodeV)> },
    CollectArray { child: Box<NodeV> },
}

/// The mathematical image of an `Unset` node with no queries; also the
/// filler for out-of-range positions in view sequences.
pub open spec fn empty_node_v() -> NodeV {
    NodeV { queries: Seq::empty(), kind: KindV::Unset, prefix: Seq::empty() }
}

/// The view of a query list: each entry viewed in place.
pub open spec fn queries_v(queries: Seq<(QueryId, DeclaredType)>) -> Seq<(QueryIdV, DeclaredType)> {
    Seq::new(queries.len(), |i: int| (queries[i].0@, queries[i].1))
}

/// The view of a field-children list.
pub open spec fn fields_v(fields: Seq<(String, Node)>) -> Seq<(Seq<char>, NodeV)>
    decreases fields,
{
    Seq::new(
        fields.len(),
        |i: int|
            if 0 <= i < fields.len() {
                (fields[i].0@, fields[i].1@)
            } else {
                (Seq::empty(), empty_node_v())
            },
    )
}

/// The view of an index-children list.
pub open spec fn indices_v(indices: Seq<(usize, Node)>) -> Seq<(int, NodeV)>
    decreases indices,
{
    Seq::new(
        indices.len(),
        |i: int|
            if 0 <= i < indices.len() {
                (indices[i].0 as int, indices[i].1@)
            } else {
                (0int, empty_node_v())
            },
    )
}

/// The view of a [`NodeKind`].
pub open spec fn kind_v(kind: NodeKind) -> KindV
    decreases kind,
{
    match kind {
        NodeKind::Unset => KindV::Unset,
        NodeKind::Accept => KindV::Accept,
        NodeKind::Field { fields } => KindV::Field { fields: fields_v(fields@) },
        NodeKind::IndexArray { indices } => KindV::IndexArray { indices: indices_v(indices@) },
        NodeKind::CollectArray { child } => KindV::CollectArray { child: Box::new((*child)@) },
    }
}

impl View for Node {
    type V = NodeV;

    open spec fn view(&self) -> NodeV
        decreases self,
    {
        NodeV { queries: queries_v(self.queries@), kind: kind_v(self.kind), prefix: self.prefix@ }
    }
}

/// A compile-time shape conflict: at `prefix`, the query for `existing`
/// requires one traversal shape while the query for `incoming` requires
/// another.
#[derive(Debug)]
pub struct Conflict {
    pub prefix: String,
    pub existing: QueryId,
    pub incoming: QueryId,
    pub existing_description: &'static str,
    pub incoming_description: &'static str,
}

/// The mathematical image of a [`Conflict`].
#[verifier::ext_equal]
pub struct ConflictV {
    pub prefix: Seq<char>,
    pub existing: QueryIdV,
    pub incoming: QueryIdV,
    pub existing_description: Seq<char>,
    pub incoming_description: Seq<char>,
}

impl View for Conflict {
    type V = ConflictV;

    open spec fn view(&self) -> ConflictV {
        ConflictV {
            prefix: self.prefix@,
            existing: self.existing@,
            incoming: self.incoming@,
            existing_description: self.existing_description@,
            incoming_description: self.incoming_description@,
        }
    }
}

/// The one-line rendering of a conflict.
pub open spec fn conflict_message_v(c: ConflictV) -> Seq<char> {
    "Conflicting query at '"@ + c.prefix + "'. The query for field '"@ + c.existing.name
        + "' expects "@ + c.existing_description + " while the query for field '"@
        + c.incoming.name + "' expects "@ + c.incoming_description + "."@
}

impl Conflict {
    /// Renders the conflict as one human-readable line naming the shared
    /// prefix and both output fields.
    pub fn message(&self) -> (r: String)
        ensures
            r@ =~= conflict_message_v(self@),
    {
        let mut r = String::from_str("Conflicting query at '");
        r.append(self.prefix.as_str());
        r.append("'. The query for field '");
        r.append(self.existing.name.as_str());
        r.append("' expects ");
        r.append(self.existing_description);
        r.append(" while the query for field '");
        r.append(self.incoming.name.as_str());
        r.append("' expects ");
        r.append(self.incoming_description);
        r.append(".");
        r
    }
}

/// The view of an optional conflict.
pub open spec fn opt_conflict_v(c: Option<Conflict>) -> Option<ConflictV> {
    match c {
        Option::Some(c) => Option::Some(c@),
        Option::None => Option::None,
    }
}

/// The view of a conflict list.
pub open spec fn conflicts_v(cs: Seq<Conflict>) -> Seq<ConflictV> {
    Seq::new(cs.len(), |i: int| cs[i]@)
}

/// The one-line description of a traversal shape, as used in conflict
/// messages.
pub open spec fn kind_description_v(k: KindV) -> Seq<char> {
    match k {
        KindV::Unset => "none"@,
        KindV::Accept => "a value here"@,
        KindV::Field { .. } => "a struct"@,
        KindV::IndexArray { .. } => "a sequence"@,
        KindV::CollectArray { .. } => "a sequence"@,
    }
}

/// The one-line description of the shape a fragment requires at its head.
pub open spec fn fragment_description_v(f: FragmentV) -> Seq<char> {
    match f {
        FragmentV::Accept => "a value here"@,
        FragmentV::Field { .. } => "a struct"@,
        FragmentV::IndexArray { .. } => "a sequence"@,
        FragmentV::CollectArray { .. } => "a sequence"@,
    }
}

/// The prefix of the child reached by a field step.
pub open spec fn field_prefix_v(base: Seq<char>, name: Seq<char>, quoted: bool) -> Seq<char> {
    if quoted {
        base + ".[\""@ + name + "\"]"@
    } else {
        base + "."@ + name
    }
}

/// The prefix of the child reached by an index step.
pub open spec fn index_prefix_v(base: Seq<char>, index: int) -> Seq<char> {
    base + ".["@ + dec_str(index as nat) + "]"@
}

/// The prefix of the child reached by a collect step.
pub open spec fn collect_prefix_v(base: Seq<char>) -> Seq<char> {
    base + ".[]"@
}

/// The element type carried to the child of a collect step: the element of
/// a container type.  For a non-container type — which the compiler rejects
/// before building a tree — the type itself stands in, so that the
/// construction stays total.
pub open spec fn element_or_self_v(ty: DeclaredType) -> DeclaredType {
    match ty {
        DeclaredType::Sequence(elem) => *elem,
        _ => ty,
    }
}

/// Inserts one query into a sorted query list, keyed by output index.
pub open spec fn insert_query_v(
    qs: Seq<(QueryIdV, DeclaredType)>,
    id: QueryIdV,
    ty: DeclaredType,
) -> Seq<(QueryIdV, DeclaredType)>
    decreases qs.len(),
{
    if qs.len() == 0 {
        seq![(id, ty)]
    } else if id.index < qs[0].0.index {
        seq![(id, ty)] + qs
    } else if id.index == qs[0].0.index {
        qs
    } else {
        seq![qs[0]] + insert_query_v(qs.drop_first(), id, ty)
    }
}

/// The single-query decision tree of one fragment: one node per step,
/// recording the query at every node on the path, ending in an accept node.
pub open spec fn from_query_v(
    id: QueryIdV,
    f: FragmentV,
    ty: DeclaredType,
    prefix: Seq<char>,
) -> NodeV
    decreases f,
{
    match f {
        FragmentV::Accept => NodeV {
            queries: seq![(id, ty)],
            kind: KindV::Accept,
            prefix,
        },
        FragmentV::Field { name, quoted, rest } => {
            let child = from_query_v(id, *rest, ty, field_prefix_v(prefix, name, quoted));
            NodeV {
                queries: seq![(id, ty)],
                kind: KindV::Field { fields: seq![(name, child)] },
                prefix,
            }
        },
        FragmentV::IndexArray { index, rest } => {
            let child = from_query_v(id, *rest, ty, index_prefix_v(prefix, index));
            NodeV {
                queries: seq![(id, ty)],
                kind: KindV::IndexArray { indices: seq![(index, child)] },
                prefix,
            }
        },
        FragmentV::CollectArray { rest } => {
            let child = from_query_v(
                id,
                *rest,
                element_or_self_v(ty),
                collect_prefix_v(prefix),
            );
            NodeV {
                queries: seq![(id, ty)],
                kind: KindV::CollectArray { child: Box::new(child) },
                prefix,
            }
        },
    }
}

/// The conflict reported when the query `incoming` requires a shape other
/// than the one node `n` already has.  The existing side is named after the
/// first query recorded at the node.
pub open spec fn conflict_at_v(n: NodeV, incoming: QueryIdV, f: FragmentV) -> ConflictV {
    ConflictV {
        prefix: n.prefix,
        existing: if n.queries.len() > 0 {
            n.queries[0].0
        } else {
            incoming
        },
        incoming,
        existing_description: kind_description_v(n.kind),
        incoming_description: fragment_description_v(f),
    }
}

/// Merges one query into the tree `n` along the path `f`, threading the
/// query through every node it passes.  A shape mismatch stops the descent
/// and yields the conflict; the subtree below the mismatch is kept as it
/// was.
pub open spec fn insert_v(
    n: NodeV,
    id: QueryIdV,
    f: FragmentV,
    ty: DeclaredType,
    base: Seq<char>,
) -> (NodeV, Option<ConflictV>)
    decreases f, 0nat,
{
    let queries = insert_query_v(n.queries, id, ty);
    match f {
        FragmentV::Accept => match n.kind {
            KindV::Unset => (
                NodeV { queries, kind: KindV::Accept, prefix: n.prefix },
                Option::None,
            ),
            KindV::Accept => (
                NodeV { queries, kind: KindV::Accept, prefix: n.prefix },
                Option::None,
            ),
            _ => (n, Option::Some(conflict_at_v(n, id, f))),
        },
        FragmentV::Field { name, quoted, rest } => {
            let rest_prefix = field_prefix_v(base, name, quoted);
            match n.kind {
                KindV::Unset => (
                    NodeV {
                        queries,
                        kind: KindV::Field {
                            fields: seq![(name, from_query_v(id, *rest, ty, rest_prefix))],
                        },
                        prefix: n.prefix,
                    },
                    Option::None,
                ),
                KindV::Field { fields } => {
                    let (fields2, c) = insert_field_v(fields, name, id, *rest, ty, rest_prefix);
                    (
                        NodeV { queries, kind: KindV::Field { fields: fields2 }, prefix: n.prefix },
                        c,
                    )
                },
                _ => (n, Option::Some(conflict_at_v(n, id, f))),
            }
        },
        FragmentV::IndexArray { index, rest } => {
            let rest_prefix = index_prefix_v(base, index);
            match n.kind {
                KindV::Unset => (
                    NodeV {
                        queries,
                        kind: KindV::IndexArray {
                            indices: seq![(index, from_query_v(id, *rest, ty, rest_prefix))],
                        },
                        prefix: n.prefix,
                    },
                    Option::None,
                ),
                KindV::IndexArray { indices } => {
                    let (indices2, c) = insert_index_v(indices, index, id, *rest, ty, rest_prefix);
                    (
                        NodeV {
                            queries,
                            kind: KindV::IndexArray { indices: indices2 },
                            prefix: n.prefix,
                        },
                        c,
                    )
                },
                _ => (n, Option::Some(conflict_at_v(n, id, f))),
            }
        },
        FragmentV::CollectArray { rest } => {
            let rest_prefix = collect_prefix_v(base);
            let elem_ty = element_or_self_v(ty);
            match n.kind {
                KindV::Unset => (
                    NodeV {
                        queries,
                        kind: KindV::CollectArray {
                            child: Box::new(from_query_v(id, *rest, elem_ty, rest_prefix)),
                        },
                        prefix: n.prefix,
                    },
                    Option::None,
                ),
                KindV::CollectArray { child } => {
                    let (child2, c) = insert_v(*child, id, *rest, elem_ty, rest_prefix);
                    (
                        NodeV {
                            queries,
                            kind: KindV::CollectArray { child: Box::new(child2) },
                            prefix: n.prefix,
                        },
                        c,
                    )
                },
                _ => (n, Option::Some(conflict_at_v(n, id, f))),
            }
        },
    }
}

/// Merges a field step into a name-sorted children list: descends into the
/// child of the same name, or inserts a fresh single-query subtree at the
/// sorted position.
pub open spec fn insert_field_v(
    fields: Seq<(Seq<char>, NodeV)>,
    name: Seq<char>,
    id: QueryIdV,
    rest: FragmentV,
    ty: DeclaredType,
    rest_prefix: Seq<char>,
) -> (Seq<(Seq<char>, NodeV)>, Option<ConflictV>)
    decreases rest, fields.len() + 1,
{
    if fields.len() == 0 {
        (seq![(name, from_query_v(id, rest, ty, rest_prefix))], Option::None::<ConflictV>)
    } else if name == fields[0].0 {
        let (child2, c) = insert_v(fields[0].1, id, rest, ty, rest_prefix);
        (seq![(name, child2)] + fields.drop_first(), c)
    } else if chars_lt(name, fields[0].0) {
        (
            seq![(name, from_query_v(id, rest, ty, rest_prefix))] + fields,
            Option::None::<ConflictV>,
        )
    } else {
        let (rest2, c) = insert_field_v(fields.drop_first(), name, id, rest, ty, rest_prefix);
        (seq![fields[0]] + rest2, c)
    }
}

/// Merges an index step into an index-sorted children list.
pub open spec fn insert_index_v(
    indices: Seq<(int, NodeV)>,
    index: int,
    id: QueryIdV,
    rest: FragmentV,
    ty: DeclaredType,
    rest_prefix: Seq<char>,
) -> (Seq<(int, NodeV)>, Option<ConflictV>)
    decreases rest, indices.len() + 1,
{
    if indices.len() == 0 {
        (seq![(index, from_query_v(id, rest, ty, rest_prefix))], Option::None::<ConflictV>)
    } else if index == indices[0].0 {
        let (child2, c) = insert_v(indices[0].1, id, rest, ty, rest_prefix);
        (seq![(index, child2)] + indices.drop_first(), c)
    } else if index < indices[0].0 {
        (
            seq![(index, from_query_v(id, rest, ty, rest_prefix))] + indices,
            Option::None::<ConflictV>,
        )
    } else {
        let (rest2, c) = insert_index_v(indices.drop_first(), index, id, rest, ty, rest_prefix);
        (seq![indices[0]] + rest2, c)
    }
}

/// The first child with the given name, if any.  Children are kept sorted
/// and unique, so this is the node every query with that field name shares.
pub open spec fn find_field_v(fields: Seq<(Seq<char>, NodeV)>, name: Seq<char>) -> Option<NodeV>
    decreases fields.len(),
{
    if fields.len() == 0 {
        Option::None
    } else if fields[0].0 == name {
        Option::Some(fields[0].1)
    } else {
        find_field_v(fields.drop_first(), name)
    }
}

/// The first child at the given sequence position, if any.
pub open spec fn find_index_v(indices: Seq<(int, NodeV)>, index: int) -> Option<NodeV>
    decreases indices.len(),
{
    if indices.len() == 0 {
        Option::None
    } else if indices[0].0 == index {
        Option::Some(indices[0].1)
    } else {
        find_index_v(indices.drop_first(), index)
    }
}

/// The root every compilation starts from: no queries, no shape, prefix
/// `"."`.
pub open spec fn root_v() -> NodeV {
    NodeV { queries: Seq::empty(), kind: KindV::Unset, prefix: "."@ }
}

/// Merges every query into `n` in turn, collecting the conflicts in order.
pub open spec fn insert_all_v(n: NodeV, qs: Seq<QueryV>) -> (NodeV, Seq<ConflictV>)
    decreases qs.len(),
{
    if qs.len() == 0 {
        (n, Seq::empty())
    } else {
        let (n1, c) = insert_v(n, qs[0].id, qs[0].fragment, qs[0].ty, Seq::empty());
        let (n2, cs) = insert_all_v(n1, qs.drop_first());
        (
            n2,
            match c {
                Option::Some(c) => seq![c] + cs,
                Option::None => cs,
            },
        )
    }
}

/// The merged tree of a query set, together with every conflict found.
/// Compilation succeeds exactly when the conflict list is empty.
pub open spec fn from_queries_v(qs: Seq<QueryV>) -> (NodeV, Seq<ConflictV>) {
    insert_all_v(root_v(), qs)
}

/// Renders the prefix of the child reached by a field step.
fn render_field_prefix(base: &str, name: &str, quoted: bool) -> (r: String)
    ensures
        r@ =~= field_prefix_v(base@, name@, quoted),
{
    let mut r = String::from_str(base);
    if quoted {
        r.append(".[\"");
        r.append(name);
        r.append("\"]");
    } else {
        r.append(".");
        r.append(name);
    }
    r
}

/// Renders the prefix of the child reached by an index step.
fn render_index_prefix(base: &str, index: usize) -> (r: String)
    ensures
        r@ =~= index_prefix_v(base@, index as int),
{
    let mut r = String::from_str(base);
    r.append(".[");
    let digits = usize_to_string(index);
    r.append(digits.as_str());
    r.append("]");
    r
}

/// Renders the prefix of the child reached by a collect step.
fn render_collect_prefix(base: &str) -> (r: String)
    ensures
        r@ =~= collect_prefix_v(base@),
{
    let mut r = String::from_str(base);
    r.append(".[]");
    r
}

/// The one-line description of a node's traversal shape.
fn kind_description(kind: &NodeKind) -> (r: &'static str)
    ensures
        r@ == kind_description_v(kind_v(*kind)),
{
    match kind {
        NodeKind::Unset => "none",
        NodeKind::Accept => "a value here",
        NodeKind::Field { .. } => "a struct",
        NodeKind::IndexArray { .. } => "a sequence",
        NodeKind::CollectArray { .. } => "a sequence",
    }
}

/// The one-line description of the shape a fragment requires at its head.
fn fragment_description(f: &QueryFragment) -> (r: &'static str)
    ensures
        r@ == fragment_description_v(f@),
{
    match f {
        QueryFragment::Accept => "a value here",
        QueryFragment::Field { .. } => "a struct",
        QueryFragment::IndexArray { .. } => "a sequence",
        QueryFragment::CollectArray { .. } => "a sequence",
    }
}

/// Inserts one query into a query list sorted by output index.
fn insert_query(
    queries: Vec<(QueryId, DeclaredType)>,
    id: &QueryId,
    ty: &DeclaredType,
) -> (r: Vec<(QueryId, DeclaredType)>)
    ensures
        queries_v(r@) =~= insert_query_v(queries_v(queries@), id@, *ty),
    decreases queries@.len(),
{
    let mut queries = queries;
    let ghost pre = queries_v(queries@);
    if queries.len() == 0 {
        queries.push((id.clone(), ty.clone()));
        proof {
            assert(queries_v(queries@) =~= seq![(id@, *ty)]);
        }
        queries
    } else if id.index < queries[0].0.index {
        queries.insert(0, (id.clone(), ty.clone()));
        proof {
            assert(queries_v(queries@) =~= seq![(id@, *ty)] + pre);
        }
        queries
    } else if id.index == queries[0].0.index {
        queries
    } else {
        let ghost pre_vec = queries@;
        let head = queries.remove(0);
        proof {
            assert(queries_v(queries@) =~= pre.drop_first());
        }
        let rest = insert_query(queries, id, ty);
        let mut r = rest;
        r.insert(0, head);
        proof {
            assert(queries_v(r@) =~= seq![pre[0]] + insert_query_v(pre.drop_first(), id@, *ty));
        }
        r
    }
}

/// Builds the single-query decision tree for one fragment: one node per
/// step, recording the query at every node, ending in an accept node.
pub fn from_query(id: &QueryId, fragment: QueryFragment, ty: &DeclaredType, prefix: String) -> (r:
    Node)
    ensures
        r@ == from_query_v(id@, fragment@, *ty, prefix@),
    decreases fragment,
{
    let ghost fv = fragment@;
    let ghost prefixv = prefix@;
    match fragment {
        QueryFragment::Accept => {
            let queries = vec![(id.clone(), ty.clone())];
            let r = Node { queries, kind: NodeKind::Accept, prefix };
            proof {
                assert(queries_v(r.queries@) =~= seq![(id@, *ty)]);
                assert(r@ =~= from_query_v(id@, fv, *ty, prefixv));
            }
            r
        },
        QueryFragment::Field { name, quoted, rest } => {
            let ghost namev = name@;
            let ghost restv = (*rest)@;
            let rest_prefix = render_field_prefix(prefix.as_str(), name.as_str(), quoted);
            let ghost rest_prefixv = field_prefix_v(prefixv, namev, quoted);
            proof {
                assert(rest_prefix@ == rest_prefixv);
            }
            let child = from_query(id, *rest, ty, rest_prefix);
            let mut fields: Vec<(String, Node)> = Vec::new();
            fields.push((name, child));
            let queries = vec![(id.clone(), ty.clone())];
            let r = Node { queries, kind: NodeKind::Field { fields }, prefix };
            proof {
                assert(queries_v(r.queries@) =~= seq![(id@, *ty)]);
                assert(r@.kind matches KindV::Field { fields: _ });
                if let NodeKind::Field { fields: rf } = &r.kind {
                    assert(fields_v(rf@) =~= seq![
                        (namev, from_query_v(id@, restv, *ty, rest_prefixv)),
                    ]);
                }
                assert(r@ =~= from_query_v(id@, fv, *ty, prefixv));
            }
            r
        },
        QueryFragment::IndexArray { index, rest } => {
            let ghost restv = (*rest)@;
            let rest_prefix = render_index_prefix(prefix.as_str(), index);
            let ghost rest_prefixv = index_prefix_v(prefixv, index as int);
            proof {
                assert(rest_prefix@ == rest_prefixv);
            }
            let child = from_query(id, *rest, ty, rest_prefix);
            let mut indices: Vec<(usize, Node)> = Vec::new();
            indices.push((index, child));
            let queries = vec![(id.clone(), ty.clone())];
            let r = Node { queries, kind: NodeKind::IndexArray { indices }, prefix };
            proof {
                assert(queries_v(r.queries@) =~= seq![(id@, *ty)]);
                if let NodeKind::IndexArray { indices: ri } = &r.kind {
                    assert(indices_v(ri@) =~= seq![
                        (index as int, from_query_v(id@, restv, *ty, rest_prefixv)),
                    ]);
                }
                assert(r@ =~= from_query_v(id@, fv, *ty, prefixv));
            }
            r
        },
        QueryFragment::CollectArray { rest } => {
            let ghost restv = (*rest)@;
            let rest_prefix = render_collect_prefix(prefix.as_str());
            let ghost rest_prefixv = collect_prefix_v(prefixv);
            proof {
                assert(rest_prefix@ == rest_prefixv);
            }
            let elem_ty = match ty.element() {
                Option::Some(e) => e,
                Option::None => ty.clone(),
            };
            proof {
                assert(elem_ty == element_or_self_v(*ty));
            }
            let child = from_query(id, *rest, &elem_ty, rest_prefix);
            let queries = vec![(id.clone(), ty.clone())];
            let r = Node { queries, kind: NodeKind::CollectArray { child: Box::new(child) }, prefix };
            proof {
                assert(queries_v(r.queries@) =~= seq![(id@, *ty)]);
                assert(r@ =~= from_query_v(id@, fv, *ty, prefixv));
            }
            r
        },
    }
}

/// The conflict reported at node `node` when the query `id` asks for the
/// shape of `f` there.
fn conflict_at(node: &Node, id: &QueryId, f: &QueryFragment) -> (r: Conflict)
    ensures
        r@ == conflict_at_v(node@, id@, f@),
{
    let existing = if node.queries.len() > 0 {
        node.queries[0].0.clone()
    } else {
        id.clone()
    };
    Conflict {
        prefix: node.prefix.clone(),
        existing,
        incoming: id.clone(),
        existing_description: kind_description(&node.kind),
        incoming_description: fragment_description(f),
    }
}

/// Merges one query into the tree along its path, threading it through
/// every node it passes.  A shape mismatch stops the descent and reports
/// the conflict; the tree below the mismatch is kept as it was.
fn insert(node: Node, id: &QueryId, fragment: QueryFragment, ty: &DeclaredType, base: String) -> (r:
    (Node, Option<Conflict>))
    ensures
        (r.0@, opt_conflict_v(r.1)) == insert_v(node@, id@, fragment@, *ty, base@),
    decreases fragment, 0nat,
{
    let ghost nv = node@;
    let ghost fv = fragment@;
    let ghost basev = base@;
    match fragment {
        QueryFragment::Accept => {
            match node.kind {
                NodeKind::Unset | NodeKind::Accept => {
                    let queries = insert_query(node.queries, id, ty);
                    let r = Node { queries, kind: NodeKind::Accept, prefix: node.prefix };
                    proof {
                        assert(r@ =~= insert_v(nv, id@, fv, *ty, basev).0);
                    }
                    (r, Option::None)
                },
                kind => {
                    let node = Node { queries: node.queries, kind, prefix: node.prefix };
                    proof {
                        assert(node@ =~= nv);
                    }
                    let fragment = QueryFragment::Accept;
                    let c = conflict_at(&node, id, &fragment);
                    (node, Option::Some(c))
                },
            }
        },
        QueryFragment::Field { name, quoted, rest } => {
            let ghost namev = name@;
            let ghost restv = (*rest)@;
            let rest_prefix = render_field_prefix(base.as_str(), name.as_str(), quoted);
            let ghost rest_prefixv = field_prefix_v(basev, namev, quoted);
            proof {
                assert(rest_prefix@ == rest_prefixv);
            }
            match node.kind {
                NodeKind::Unset => {
                    let child = from_query(id, *rest, ty, rest_prefix);
                    let mut fields: Vec<(String, Node)> = Vec::new();
                    fields.push((name, child));
                    let queries = insert_query(node.queries, id, ty);
                    let r = Node { queries, kind: NodeKind::Field { fields }, prefix: node.prefix };
                    proof {
                        if let NodeKind::Field { fields: rf } = &r.kind {
                            assert(fields_v(rf@) =~= seq![
                                (namev, from_query_v(id@, restv, *ty, rest_prefixv)),
                            ]);
                        }
                        assert(r@ =~= insert_v(nv, id@, fv, *ty, basev).0);
                    }
                    (r, Option::None)
                },
                NodeKind::Field { fields } => {
                    let (fields2, c) = insert_into_fields(fields, name, id, *rest, ty, rest_prefix);
                    let queries = insert_query(node.queries, id, ty);
                    let r = Node {
                        queries,
                        kind: NodeKind::Field { fields: fields2 },
                        prefix: node.prefix,
                    };
                    proof {
                        assert(r@ =~= insert_v(nv, id@, fv, *ty, basev).0);
                    }
                    (r, c)
                },
                kind => {
                    let node = Node { queries: node.queries, kind, prefix: node.prefix };
                    proof {
                        assert(node@ =~= nv);
                    }
                    let fragment = QueryFragment::Field { name, quoted, rest };
                    let c = conflict_at(&node, id, &fragment);
                    (node, Option::Some(c))
                },
            }
        },
        QueryFragment::IndexArray { index, rest } => {
            let ghost restv = (*rest)@;
            let rest_prefix = render_index_prefix(base.as_str(), index);
            let ghost rest_prefixv = index_prefix_v(basev, index as int);
            proof {
                assert(rest_prefix@ == rest_prefixv);
            }
            match node.kind {
                NodeKind::Unset => {
                    let child = from_query(id, *rest, ty, rest_prefix);
                    let mut indices: Vec<(usize, Node)> = Vec::new();
                    indices.push((index, child));
                    let queries = insert_query(node.queries, id, ty);
                    let r = Node {
                        queries,
                        kind: NodeKind::IndexArray { indices },
                        prefix: node.prefix,
                    };
                    proof {
                        if let NodeKind::IndexArray { indices: ri } = &r.kind {
                            assert(indices_v(ri@) =~= seq![
                                (index as int, from_query_v(id@, restv, *ty, rest_prefixv)),
                            ]);
                        }
                        assert(r@ =~= insert_v(nv, id@, fv, *ty, basev).0);
                    }
                    (r, Option::None)
                },
                NodeKind::IndexArray { indices } => {
                    let (indices2, c) = insert_into_indices(
                        indices,
                        index,
                        id,
                        *rest,
                        ty,
                        rest_prefix,
                    );
                    let queries = insert_query(node.queries, id, ty);
                    let r = Node {
                        queries,
                        kind: NodeKind::IndexArray { indices: indices2 },
                        prefix: node.prefix,
                    };
                    proof {
                        assert(r@ =~= insert_v(nv, id@, fv, *ty, basev).0);
                    }
                    (r, c)
                },
                kind => {
                    let node = Node { queries: node.queries, kind, prefix: node.prefix };
                    proof {
                        assert(node@ =~= nv);
                    }
                    let fragment = QueryFragment::IndexArray { index, rest };
                    let c = conflict_at(&node, id, &fragment);
                    (node, Option::Some(c))
                },
            }
        },
        QueryFragment::CollectArray { rest } => {
            let ghost restv = (*rest)@;
            let rest_prefix = render_collect_prefix(base.as_str());
            let ghost rest_prefixv = collect_prefix_v(basev);
            proof {
                assert(rest_prefix@ == rest_prefixv);
            }
            let elem_ty = match ty.element() {
                Option::Some(e) => e,
                Option::None => ty.clone(),
            };
            proof {
                assert(elem_ty == element_or_self_v(*ty));
            }
            match node.kind {
                NodeKind::Unset => {
                    let child = from_query(id, *rest, &elem_ty, rest_prefix);
                    let queries = insert_query(node.queries, id, ty);
                    let r = Node {
                        queries,
                        kind: NodeKind::CollectArray { child: Box::new(child) },
                        prefix: node.prefix,
                    };
                    proof {
                        assert(r@ =~= insert_v(nv, id@, fv, *ty, basev).0);
                    }
                    (r, Option::None)
                },
                NodeKind::CollectArray { child } => {
                    let (child2, c) = insert(*child, id, *rest, &elem_ty, rest_prefix);
                    let queries = insert_query(node.queries, id, ty);
                    let r = Node {
                        queries,
                        kind: NodeKind::CollectArray { child: Box::new(child2) },
                        prefix: node.prefix,
                    };
                    proof {
                        assert(r@ =~= insert_v(nv, id@, fv, *ty, basev).0);
                    }
                    (r, c)
                },
                kind => {
                    let node = Node { queries: node.queries, kind, prefix: node.prefix };
                    proof {
                        assert(node@ =~= nv);
                    }
                    let fragment = QueryFragment::CollectArray { rest };
                    let c = conflict_at(&node, id, &fragment);
                    (node, Option::Some(c))
                },
            }
        },
    }
}

/// Merges a field step into a name-sorted children list: descends into the
/// child of the same name, or puts a fresh single-query subtree at the
/// sorted position.
fn insert_into_fields(
    fields: Vec<(String, Node)>,
    name: String,
    id: &QueryId,
    rest: QueryFragment,
    ty: &DeclaredType,
    rest_prefix: String,
) -> (r: (Vec<(String, Node)>, Option<Conflict>))
    ensures
        (fields_v(r.0@), opt_conflict_v(r.1)) == insert_field_v(
            fields_v(fields@),
            name@,
            id@,
            rest@,
            *ty,
            rest_prefix@,
        ),
    decreases rest, fields@.len() + 1,
{
    let mut fields = fields;
    let ghost pre = fields_v(fields@);
    let ghost namev = name@;
    let ghost restv = rest@;
    if fields.len() == 0 {
        let child = from_query(id, rest, ty, rest_prefix);
        fields.push((name, child));
        proof {
            assert(fields_v(fields@) =~= insert_field_v(pre, namev, id@, restv, *ty, rest_prefix@).0);
        }
        (fields, Option::None)
    } else if name.eq(&fields[0].0) {
        let (head_name, child) = fields.remove(0);
        let (child2, c) = insert(child, id, rest, ty, rest_prefix);
        fields.insert(0, (head_name, child2));
        proof {
            assert(pre.drop_first() =~= fields_v(fields@.drop_first()));
            assert(fields_v(fields@) =~= seq![(namev, child2@)] + pre.drop_first());
        }
        (fields, c)
    } else if str_lt(name.as_str(), fields[0].0.as_str()) {
        let child = from_query(id, rest, ty, rest_prefix);
        fields.insert(0, (name, child));
        proof {
            assert(fields_v(fields@) =~= seq![
                (namev, from_query_v(id@, restv, *ty, rest_prefix@)),
            ] + pre);
        }
        (fields, Option::None)
    } else {
        let head = fields.remove(0);
        proof {
            assert(fields_v(fields@) =~= pre.drop_first());
        }
        let (rest_fields, c) = insert_into_fields(fields, name, id, rest, ty, rest_prefix);
        let mut r = rest_fields;
        r.insert(0, head);
        proof {
            assert(fields_v(r@) =~= seq![pre[0]] + insert_field_v(
                pre.drop_first(),
                namev,
                id@,
                restv,
                *ty,
                rest_prefix@,
            ).0);
        }
        (r, c)
    }
}

/// Merges an index step into an index-sorted children list.
fn insert_into_indices(
    indices: Vec<(usize, Node)>,
    index: usize,
    id: &QueryId,
    rest: QueryFragment,
    ty: &DeclaredType,
    rest_prefix: String,
) -> (r: (Vec<(usize, Node)>, Option<Conflict>))
    ensures
        (indices_v(r.0@), opt_conflict_v(r.1)) == insert_index_v(
            indices_v(indices@),
            index as int,
            id@,
            rest@,
            *ty,
            rest_prefix@,
        ),
    decreases rest, indices@.len() + 1,
{
    let mut indices = indices;
    let ghost pre = indices_v(indices@);
    let ghost restv = rest@;
    if indices.len() == 0 {
        let child = from_query(id, rest, ty, rest_prefix);
        indices.push((index, child));
        proof {
            assert(indices_v(indices@) =~= insert_index_v(
                pre,
                index as int,
                id@,
                restv,
                *ty,
                rest_prefix@,
            ).0);
        }
        (indices, Option::None)
    } else if index == indices[0].0 {
        let (head_index, child) = indices.remove(0);
        let (child2, c) = insert(child, id, rest, ty, rest_prefix);
        indices.insert(0, (head_index, child2));
        proof {
            assert(pre.drop_first() =~= indices_v(indices@.drop_first()));
            assert(indices_v(indices@) =~= seq![(index as int, child2@)] + pre.drop_first());
        }
        (indices, c)
    } else if index < indices[0].0 {
        let child = from_query(id, rest, ty, rest_prefix);
        indices.insert(0, (index, child));
        proof {
            assert(indices_v(indices@) =~= seq![
                (index as int, from_query_v(id@, restv, *ty, rest_prefix@)),
            ] + pre);
        }
        (indices, Option::None)
    } else {
        let head = indices.remove(0);
        proof {
            assert(indices_v(indices@) =~= pre.drop_first());
        }
        let (rest_indices, c) = insert_into_indices(indices, index, id, rest, ty, rest_prefix);
        let mut r = rest_indices;
        r.insert(0, head);
        proof {
            assert(indices_v(r@) =~= seq![pre[0]] + insert_index_v(
                pre.drop_first(),
                index as int,
                id@,
                restv,
                *ty,
                rest_prefix@,
            ).0);
        }
        (r, c)
    }
}

impl Node {
    /// Compiles a full query set into one shared tree.  Queries are merged
    /// in turn into a tree that starts out empty; every conflict found on
    /// the way is collected, in order, and compilation fails exactly when
    /// at least one was.
    pub fn from_queries(queries: Vec<Query>) -> (r: Result<Node, Vec<Conflict>>)
        ensures
            match r {
                Result::Ok(root) => root@ == from_queries_v(queries.deep_view()).0
                    && from_queries_v(queries.deep_view()).1 =~= Seq::<ConflictV>::empty(),
                Result::Err(conflicts) => conflicts@.len() > 0 && conflicts_v(conflicts@)
                    == from_queries_v(queries.deep_view()).1,
            },
    {
        let ghost all = queries.deep_view();
        let mut queries = queries;
        let mut conflicts: Vec<Conflict> = Vec::new();
        let mut node = Node {
            queries: Vec::new(),
            kind: NodeKind::Unset,
            prefix: String::from_str("."),
        };
        proof {
            assert(node@ =~= root_v());
            assert(queries.deep_view() =~= all);
        }
        while queries.len() > 0
            invariant
                insert_all_v(root_v(), all) == (
                    insert_all_v(node@, queries.deep_view()).0,
                    conflicts_v(conflicts@) + insert_all_v(node@, queries.deep_view()).1,
                ),
            decreases queries@.len(),
        {
            let ghost nv = node@;
            let ghost remaining = queries.deep_view();
            let ghost done = conflicts_v(conflicts@);
            let q = queries.remove(0);
            proof {
                assert(queries.deep_view() =~= remaining.drop_first());
                assert(q@ == remaining[0]);
            }
            let base = String::new();
            let (node2, c) = insert(node, &q.id, q.fragment, &q.ty, base);
            node = node2;
            proof {
                assert(insert_v(nv, remaining[0].id, remaining[0].fragment, remaining[0].ty, Seq::<char>::empty()) == (node@, opt_conflict_v(c)));
            }
            match c {
                Option::Some(c) => {
                    conflicts.push(c);
                    proof {
                        assert(conflicts_v(conflicts@) =~= done.push(c@));
                        assert(done.push(c@) + insert_all_v(node@, queries.deep_view()).1 =~= done
                            + (seq![c@] + insert_all_v(node@, queries.deep_view()).1));
                    }
                },
                Option::None => {},
            }
        }
        proof {
            assert(queries.deep_view() =~= Seq::<QueryV>::empty());
            assert(conflicts_v(conflicts@) + Seq::<ConflictV>::empty() =~= conflicts_v(
                conflicts@,
            ));
        }
        if conflicts.len() == 0 {
            proof {
                assert(from_queries_v(all).1 =~= Seq::<ConflictV>::empty());
            }
            Result::Ok(node)
        } else {
            Result::Err(conflicts)
        }
    }
}

} // verus!
