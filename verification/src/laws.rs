//! The laws of the tree compiler, stated over the same model the
//! compiler's contracts use and proved from it: structural sharing of
//! common prefixes, conflict reporting for shape-divergent pairs, and
//! idempotence of compilation.

use vstd::prelude::*;

use crate::node::{
    element_or_self_v, find_field_v, find_index_v, from_queries_v, from_query_v, insert_all_v,
    insert_field_v, insert_index_v, insert_query_v, insert_v, root_v, ConflictV, KindV, NodeV,
};
use crate::query::{fragment_steps, DeclaredType, FragmentV, QueryIdV, QueryV, StepV};
use crate::text::{chars_lt, lemma_chars_lt_trans, lemma_chars_lt_trichotomy};

verus! {

broadcast use vstd::seq::axiom_seq_index_decreases;

/// The node reached from `n` by following the steps of `path`: at a field
/// step the child of that name, at an index step the child at that
/// position, at a collect step the single element child.  `None` when the
/// tree has no matching branch.
pub open spec fn node_at(n: NodeV, path: Seq<StepV>) -> Option<NodeV>
    decreases path.len(),
{
    if path.len() == 0 {
        Option::Some(n)
    } else {
        match path[0] {
            StepV::Field { name, .. } => match n.kind {
                KindV::Field { fields } => match find_field_v(fields, name) {
                    Option::Some(c) => node_at(c, path.drop_first()),
                    Option::None => Option::None,
                },
                _ => Option::None,
            },
            StepV::Index(i) => match n.kind {
                KindV::IndexArray { indices } => match find_index_v(indices, i) {
                    Option::Some(c) => node_at(c, path.drop_first()),
                    Option::None => Option::None,
                },
                _ => Option::None,
            },
            StepV::Collect => match n.kind {
                KindV::CollectArray { child } => node_at(*child, path.drop_first()),
                _ => Option::None,
            },
        }
    }
}

/// Whether the output with the given index flows through a node.
pub open spec fn qlist_has(qs: Seq<(QueryIdV, DeclaredType)>, index: int) -> bool {
    exists|k: int| 0 <= k < qs.len() && qs[k].0.index == index
}

/// A field-children list with strictly ascending names.
pub open spec fn fields_sorted(fields: Seq<(Seq<char>, NodeV)>) -> bool {
    forall|i: int|
        0 <= i < fields.len() - 1 ==> chars_lt((#[trigger] fields[i]).0, fields[i + 1].0)
}

/// An index-children list with strictly ascending indices.
pub open spec fn indices_sorted(indices: Seq<(int, NodeV)>) -> bool {
    forall|i: int| 0 <= i < indices.len() - 1 ==> (#[trigger] indices[i]).0 < indices[i + 1].0
}

/// The shape every compiled tree has: children sorted strictly by key, at
/// every node.
pub open spec fn wf_sorted(n: NodeV) -> bool
    decreases n,
{
    match n.kind {
        KindV::Unset => true,
        KindV::Accept => true,
        KindV::Field { fields } => fields_sorted(fields) && (forall|i: int|
            0 <= i < fields.len() ==> wf_sorted((#[trigger] fields[i]).1)),
        KindV::IndexArray { indices } => indices_sorted(indices) && (forall|i: int|
            0 <= i < indices.len() ==> wf_sorted((#[trigger] indices[i]).1)),
        KindV::CollectArray { child } => wf_sorted(*child),
    }
}

proof fn lemma_insert_query_v_has(qs: Seq<(QueryIdV, DeclaredType)>, id: QueryIdV, ty: DeclaredType)
    ensures
        qlist_has(insert_query_v(qs, id, ty), id.index),
    decreases qs.len(),
{
    if qs.len() == 0 {
        assert(insert_query_v(qs, id, ty)[0].0.index == id.index);
    } else if id.index < qs[0].0.index {
        assert(insert_query_v(qs, id, ty)[0].0.index == id.index);
    } else if id.index == qs[0].0.index {
        assert(insert_query_v(qs, id, ty)[0].0.index == id.index);
    } else {
        lemma_insert_query_v_has(qs.drop_first(), id, ty);
        let inner = insert_query_v(qs.drop_first(), id, ty);
        let k = choose|k: int| 0 <= k < inner.len() && inner[k].0.index == id.index;
        assert(insert_query_v(qs, id, ty)[k + 1].0.index == id.index);
    }
}

proof fn lemma_insert_query_v_preserves(
    qs: Seq<(QueryIdV, DeclaredType)>,
    id: QueryIdV,
    ty: DeclaredType,
    idx: int,
)
    requires
        qlist_has(qs, idx),
    ensures
        qlist_has(insert_query_v(qs, id, ty), idx),
    decreases qs.len(),
{
    let w = choose|k: int| 0 <= k < qs.len() && qs[k].0.index == idx;
    if qs.len() == 0 {
    } else if id.index < qs[0].0.index {
        assert(insert_query_v(qs, id, ty)[w + 1].0.index == idx);
    } else if id.index == qs[0].0.index {
    } else {
        if w == 0 {
            assert(insert_query_v(qs, id, ty)[0].0.index == idx);
        } else {
            assert(qs.drop_first()[w - 1].0.index == idx);
            lemma_insert_query_v_preserves(qs.drop_first(), id, ty, idx);
            let inner = insert_query_v(qs.drop_first(), id, ty);
            let k = choose|k: int| 0 <= k < inner.len() && inner[k].0.index == idx;
            assert(insert_query_v(qs, id, ty)[k + 1].0.index == idx);
        }
    }
}

/// In a sorted children list, a name below the head occurs nowhere.
proof fn lemma_find_field_v_none(fields: Seq<(Seq<char>, NodeV)>, name: Seq<char>)
    requires
        fields_sorted(fields),
        fields.len() > 0,
        chars_lt(name, fields[0].0),
    ensures
        find_field_v(fields, name) is None,
    decreases fields.len(),
{
    lemma_chars_lt_trichotomy(name, fields[0].0);
    assert(fields[0].0 != name);
    assert(find_field_v(fields, name) == find_field_v(fields.drop_first(), name));
    if fields.len() == 1 {
        assert(fields.drop_first().len() == 0);
        assert(find_field_v(fields.drop_first(), name) is None);
    }
    if fields.len() > 1 {
        assert(chars_lt(fields[0].0, fields[1].0));
        lemma_chars_lt_trans(name, fields[0].0, fields[1].0);
        assert(fields.drop_first()[0] == fields[1]);
        assert(fields_sorted(fields.drop_first())) by {
            assert forall|i: int|
                0 <= i < fields.drop_first().len() - 1 implies chars_lt(
                (#[trigger] fields.drop_first()[i]).0,
                fields.drop_first()[i + 1].0,
            ) by {
                assert(fields.drop_first()[i] == fields[i + 1]);
                assert(fields.drop_first()[i + 1] == fields[i + 2]);
            }
        }
        lemma_find_field_v_none(fields.drop_first(), name);
    }
}

/// In a sorted children list, an index below the head occurs nowhere.
proof fn lemma_find_index_v_none(indices: Seq<(int, NodeV)>, index: int)
    requires
        indices_sorted(indices),
        indices.len() > 0,
        index < indices[0].0,
    ensures
        find_index_v(indices, index) is None,
    decreases indices.len(),
{
    assert(indices[0].0 != index);
    assert(find_index_v(indices, index) == find_index_v(indices.drop_first(), index));
    if indices.len() == 1 {
        assert(indices.drop_first().len() == 0);
        assert(find_index_v(indices.drop_first(), index) is None);
    }
    if indices.len() > 1 {
        assert(indices.drop_first()[0] == indices[1]);
        assert(indices_sorted(indices.drop_first())) by {
            assert forall|i: int|
                0 <= i < indices.drop_first().len() - 1 implies (#[trigger] indices.drop_first()[
                i]).0 < indices.drop_first()[i + 1].0 by {
                assert(indices.drop_first()[i] == indices[i + 1]);
                assert(indices.drop_first()[i + 1] == indices[i + 2]);
            }
        }
        lemma_find_index_v_none(indices.drop_first(), index);
    }
}

proof fn lemma_fields_sorted_drop(fields: Seq<(Seq<char>, NodeV)>)
    requires
        fields_sorted(fields),
        fields.len() > 0,
    ensures
        fields_sorted(fields.drop_first()),
{
    assert forall|i: int|
        0 <= i < fields.drop_first().len() - 1 implies chars_lt(
        (#[trigger] fields.drop_first()[i]).0,
        fields.drop_first()[i + 1].0,
    ) by {
        assert(fields.drop_first()[i] == fields[i + 1]);
        assert(fields.drop_first()[i + 1] == fields[i + 2]);
    }
}

proof fn lemma_indices_sorted_drop(indices: Seq<(int, NodeV)>)
    requires
        indices_sorted(indices),
        indices.len() > 0,
    ensures
        indices_sorted(indices.drop_first()),
{
    assert forall|i: int|
        0 <= i < indices.drop_first().len() - 1 implies (#[trigger] indices.drop_first()[i]).0
        < indices.drop_first()[i + 1].0 by {
        assert(indices.drop_first()[i] == indices[i + 1]);
        assert(indices.drop_first()[i + 1] == indices[i + 2]);
    }
}

/// What merging a field step does to a sorted children list, seen through
/// lookup: the child of the same name is descended into (or freshly
/// built), every other name's child is untouched, and the conflict is the
/// descent's.
proof fn lemma_insert_field_v_find(
    fields: Seq<(Seq<char>, NodeV)>,
    name: Seq<char>,
    id: QueryIdV,
    rest: FragmentV,
    ty: DeclaredType,
    rest_prefix: Seq<char>,
    other: Seq<char>,
)
    requires
        fields_sorted(fields),
    ensures
        ({
            let (fields2, c) = insert_field_v(fields, name, id, rest, ty, rest_prefix);
            &&& find_field_v(fields2, name) == Option::Some(
                match find_field_v(fields, name) {
                    Option::Some(old) => insert_v(old, id, rest, ty, rest_prefix).0,
                    Option::None => from_query_v(id, rest, ty, rest_prefix),
                },
            )
            &&& (other != name ==> find_field_v(fields2, other) == find_field_v(fields, other))
            &&& c == (match find_field_v(fields, name) {
                Option::Some(old) => insert_v(old, id, rest, ty, rest_prefix).1,
                Option::None => Option::<ConflictV>::None,
            })
        }),
    decreases fields.len(),
{
    let (fields2, c) = insert_field_v(fields, name, id, rest, ty, rest_prefix);
    if fields.len() == 0 {
        assert(fields2[0] == (name, from_query_v(id, rest, ty, rest_prefix)));
        assert(fields2.drop_first() =~= Seq::<(Seq<char>, NodeV)>::empty());
        assert(find_field_v(fields2, name) == Option::Some(
            from_query_v(id, rest, ty, rest_prefix),
        ));
        if other != name {
            assert(find_field_v(fields2, other) == find_field_v(fields2.drop_first(), other));
        }
    } else if name == fields[0].0 {
        assert(fields2[0] == (name, insert_v(fields[0].1, id, rest, ty, rest_prefix).0));
        assert(fields2.drop_first() =~= fields.drop_first());
        assert(find_field_v(fields2, name) == Option::Some(
            insert_v(fields[0].1, id, rest, ty, rest_prefix).0,
        ));
        if other != name {
            assert(find_field_v(fields2, other) == find_field_v(fields.drop_first(), other));
            assert(find_field_v(fields, other) == find_field_v(fields.drop_first(), other));
        }
    } else if chars_lt(name, fields[0].0) {
        lemma_find_field_v_none(fields, name);
        assert(fields2[0] == (name, from_query_v(id, rest, ty, rest_prefix)));
        assert(fields2.drop_first() =~= fields);
        assert(find_field_v(fields2, name) == Option::Some(
            from_query_v(id, rest, ty, rest_prefix),
        ));
        if other != name {
            assert(find_field_v(fields2, other) == find_field_v(fields, other));
        }
    } else {
        lemma_fields_sorted_drop(fields);
        lemma_insert_field_v_find(fields.drop_first(), name, id, rest, ty, rest_prefix, other);
        let (inner, _) = insert_field_v(fields.drop_first(), name, id, rest, ty, rest_prefix);
        assert(fields2[0] == fields[0]);
        assert(fields2.drop_first() =~= inner);
        assert(name != fields[0].0);
        assert(find_field_v(fields2, name) == find_field_v(inner, name));
        assert(find_field_v(fields, name) == find_field_v(fields.drop_first(), name));
        if other != name {
            if other == fields[0].0 {
                assert(find_field_v(fields2, other) == Option::Some(fields2[0].1));
                assert(find_field_v(fields, other) == Option::Some(fields[0].1));
            } else {
                assert(find_field_v(fields2, other) == find_field_v(inner, other));
                assert(find_field_v(fields, other) == find_field_v(fields.drop_first(), other));
            }
        }
    }
}

/// The index-children counterpart of the lookup lemma.
proof fn lemma_insert_index_v_find(
    indices: Seq<(int, NodeV)>,
    index: int,
    id: QueryIdV,
    rest: FragmentV,
    ty: DeclaredType,
    rest_prefix: Seq<char>,
    other: int,
)
    requires
        indices_sorted(indices),
    ensures
        ({
            let (indices2, c) = insert_index_v(indices, index, id, rest, ty, rest_prefix);
            &&& find_index_v(indices2, index) == Option::Some(
                match find_index_v(indices, index) {
                    Option::Some(old) => insert_v(old, id, rest, ty, rest_prefix).0,
                    Option::None => from_query_v(id, rest, ty, rest_prefix),
                },
            )
            &&& (other != index ==> find_index_v(indices2, other) == find_index_v(indices, other))
            &&& c == (match find_index_v(indices, index) {
                Option::Some(old) => insert_v(old, id, rest, ty, rest_prefix).1,
                Option::None => Option::<ConflictV>::None,
            })
        }),
    decreases indices.len(),
{
    let (indices2, c) = insert_index_v(indices, index, id, rest, ty, rest_prefix);
    if indices.len() == 0 {
        assert(indices2[0] == (index, from_query_v(id, rest, ty, rest_prefix)));
        assert(indices2.drop_first() =~= Seq::<(int, NodeV)>::empty());
        assert(find_index_v(indices2, index) == Option::Some(
            from_query_v(id, rest, ty, rest_prefix),
        ));
        if other != index {
            assert(find_index_v(indices2, other) == find_index_v(indices2.drop_first(), other));
        }
    } else if index == indices[0].0 {
        assert(indices2[0] == (index, insert_v(indices[0].1, id, rest, ty, rest_prefix).0));
        assert(indices2.drop_first() =~= indices.drop_first());
        assert(find_index_v(indices2, index) == Option::Some(
            insert_v(indices[0].1, id, rest, ty, rest_prefix).0,
        ));
        if other != index {
            assert(find_index_v(indices2, other) == find_index_v(indices.drop_first(), other));
            assert(find_index_v(indices, other) == find_index_v(indices.drop_first(), other));
        }
    } else if index < indices[0].0 {
        lemma_find_index_v_none(indices, index);
        assert(indices2[0] == (index, from_query_v(id, rest, ty, rest_prefix)));
        assert(indices2.drop_first() =~= indices);
        assert(find_index_v(indices2, index) == Option::Some(
            from_query_v(id, rest, ty, rest_prefix),
        ));
        if other != index {
            assert(find_index_v(indices2, other) == find_index_v(indices, other));
        }
    } else {
        lemma_indices_sorted_drop(indices);
        lemma_insert_index_v_find(indices.drop_first(), index, id, rest, ty, rest_prefix, other);
        let (inner, _) = insert_index_v(indices.drop_first(), index, id, rest, ty, rest_prefix);
        assert(indices2[0] == indices[0]);
        assert(indices2.drop_first() =~= inner);
        assert(index != indices[0].0);
        assert(find_index_v(indices2, index) == find_index_v(inner, index));
        assert(find_index_v(indices, index) == find_index_v(indices.drop_first(), index));
        if other != index {
            if other == indices[0].0 {
                assert(find_index_v(indices2, other) == Option::Some(indices2[0].1));
                assert(find_index_v(indices, other) == Option::Some(indices[0].1));
            } else {
                assert(find_index_v(indices2, other) == find_index_v(inner, other));
                assert(find_index_v(indices, other) == find_index_v(indices.drop_first(), other));
            }
        }
    }
}

/// A found child is a member of its children list.
proof fn lemma_find_field_v_member(fields: Seq<(Seq<char>, NodeV)>, name: Seq<char>)
    ensures
        find_field_v(fields, name) matches Option::Some(c) ==> exists|j: int|
            0 <= j < fields.len() && (#[trigger] fields[j]).1 == c,
    decreases fields.len(),
{
    if fields.len() > 0 && fields[0].0 != name {
        lemma_find_field_v_member(fields.drop_first(), name);
        if let Option::Some(c) = find_field_v(fields.drop_first(), name) {
            let j = choose|j: int|
                0 <= j < fields.drop_first().len() && (#[trigger] fields.drop_first()[j]).1 == c;
            assert(fields[j + 1].1 == c);
        }
    } else if fields.len() > 0 {
        assert(fields[0].1 == find_field_v(fields, name)->Some_0);
    }
}

/// A found index child is a member of its children list.
proof fn lemma_find_index_v_member(indices: Seq<(int, NodeV)>, index: int)
    ensures
        find_index_v(indices, index) matches Option::Some(c) ==> exists|j: int|
            0 <= j < indices.len() && (#[trigger] indices[j]).1 == c,
    decreases indices.len(),
{
    if indices.len() > 0 && indices[0].0 != index {
        lemma_find_index_v_member(indices.drop_first(), index);
        if let Option::Some(c) = find_index_v(indices.drop_first(), index) {
            let j = choose|j: int|
                0 <= j < indices.drop_first().len() && (#[trigger] indices.drop_first()[j]).1 == c;
            assert(indices[j + 1].1 == c);
        }
    } else if indices.len() > 0 {
        assert(indices[0].1 == find_index_v(indices, index)->Some_0);
    }
}

/// Every single-query tree is well formed.
proof fn lemma_from_query_v_wf(id: QueryIdV, f: FragmentV, ty: DeclaredType, prefix: Seq<char>)
    ensures
        wf_sorted(from_query_v(id, f, ty, prefix)),
    decreases f,
{
    match f {
        FragmentV::Accept => {},
        FragmentV::Field { name, quoted, rest } => {
            lemma_from_query_v_wf(id, *rest, ty, crate::node::field_prefix_v(prefix, name, quoted));
        },
        FragmentV::IndexArray { index, rest } => {
            lemma_from_query_v_wf(id, *rest, ty, crate::node::index_prefix_v(prefix, index));
        },
        FragmentV::CollectArray { rest } => {
            lemma_from_query_v_wf(
                id,
                *rest,
                element_or_self_v(ty),
                crate::node::collect_prefix_v(prefix),
            );
        },
    }
}

/// Merging a field step keeps the children sorted; the result is nonempty
/// and its head key is the inserted name or the old head's.
proof fn lemma_insert_field_v_sorted(
    fields: Seq<(Seq<char>, NodeV)>,
    name: Seq<char>,
    id: QueryIdV,
    rest: FragmentV,
    ty: DeclaredType,
    rest_prefix: Seq<char>,
)
    requires
        fields_sorted(fields),
        forall|i: int| 0 <= i < fields.len() ==> wf_sorted((#[trigger] fields[i]).1),
    ensures
        ({
            let (fields2, _) = insert_field_v(fields, name, id, rest, ty, rest_prefix);
            &&& fields_sorted(fields2)
            &&& forall|i: int| 0 <= i < fields2.len() ==> wf_sorted((#[trigger] fields2[i]).1)
            &&& fields2.len() > 0
            &&& (fields2[0].0 == name || (fields.len() > 0 && fields2[0].0 == fields[0].0))
        }),
    decreases rest, fields.len() + 3,
{
    let (fields2, _) = insert_field_v(fields, name, id, rest, ty, rest_prefix);
    if fields.len() == 0 {
        lemma_from_query_v_wf(id, rest, ty, rest_prefix);
        assert(fields2[0].0 == name);
    } else if name == fields[0].0 {
        lemma_insert_v_wf(fields[0].1, id, rest, ty, rest_prefix);
        assert(fields2.drop_first() =~= fields.drop_first());
        assert forall|i: int| 0 <= i < fields2.len() - 1 implies chars_lt(
            (#[trigger] fields2[i]).0,
            fields2[i + 1].0,
        ) by {
            if i > 0 {
                assert(fields2[i] == fields[i]);
            }
            assert(fields2[i + 1] == fields[i + 1]);
            assert(fields2[i].0 == fields[i].0);
        }
        assert forall|i: int| 0 <= i < fields2.len() implies wf_sorted(
            (#[trigger] fields2[i]).1,
        ) by {
            if i > 0 {
                assert(fields2[i] == fields[i]);
            }
        }
    } else if chars_lt(name, fields[0].0) {
        lemma_from_query_v_wf(id, rest, ty, rest_prefix);
        assert(fields2.drop_first() =~= fields);
        assert forall|i: int| 0 <= i < fields2.len() - 1 implies chars_lt(
            (#[trigger] fields2[i]).0,
            fields2[i + 1].0,
        ) by {
            if i > 0 {
                assert(fields2[i] == fields[i - 1]);
                assert(fields2[i + 1] == fields[i]);
            } else {
                assert(fields2[1] == fields[0]);
            }
        }
        assert forall|i: int| 0 <= i < fields2.len() implies wf_sorted(
            (#[trigger] fields2[i]).1,
        ) by {
            if i > 0 {
                assert(fields2[i] == fields[i - 1]);
            }
        }
    } else {
        lemma_chars_lt_trichotomy(name, fields[0].0);
        lemma_fields_sorted_drop(fields);
        assert forall|i: int| 0 <= i < fields.drop_first().len() implies wf_sorted(
            (#[trigger] fields.drop_first()[i]).1,
        ) by {
            assert(fields.drop_first()[i] == fields[i + 1]);
        }
        lemma_insert_field_v_sorted(fields.drop_first(), name, id, rest, ty, rest_prefix);
        let (inner, _) = insert_field_v(fields.drop_first(), name, id, rest, ty, rest_prefix);
        assert(fields2.drop_first() =~= inner);
        assert(chars_lt(fields[0].0, fields2[1].0)) by {
            if inner[0].0 == name {
            } else {
                assert(inner[0].0 == fields.drop_first()[0].0);
                assert(fields.drop_first()[0] == fields[1]);
            }
        }
        assert forall|i: int| 0 <= i < fields2.len() - 1 implies chars_lt(
            (#[trigger] fields2[i]).0,
            fields2[i + 1].0,
        ) by {
            if i > 0 {
                assert(fields2[i] == inner[i - 1]);
                assert(fields2[i + 1] == inner[i]);
            }
        }
        assert forall|i: int| 0 <= i < fields2.len() implies wf_sorted(
            (#[trigger] fields2[i]).1,
        ) by {
            if i > 0 {
                assert(fields2[i] == inner[i - 1]);
            }
        }
    }
}

/// Merging an index step keeps the children sorted.
proof fn lemma_insert_index_v_sorted(
    indices: Seq<(int, NodeV)>,
    index: int,
    id: QueryIdV,
    rest: FragmentV,
    ty: DeclaredType,
    rest_prefix: Seq<char>,
)
    requires
        indices_sorted(indices),
        forall|i: int| 0 <= i < indices.len() ==> wf_sorted((#[trigger] indices[i]).1),
    ensures
        ({
            let (indices2, _) = insert_index_v(indices, index, id, rest, ty, rest_prefix);
            &&& indices_sorted(indices2)
            &&& forall|i: int| 0 <= i < indices2.len() ==> wf_sorted((#[trigger] indices2[i]).1)
            &&& indices2.len() > 0
            &&& (indices2[0].0 == index || (indices.len() > 0 && indices2[0].0 == indices[0].0))
        }),
    decreases rest, indices.len() + 3,
{
    let (indices2, _) = insert_index_v(indices, index, id, rest, ty, rest_prefix);
    if indices.len() == 0 {
        lemma_from_query_v_wf(id, rest, ty, rest_prefix);
    } else if index == indices[0].0 {
        lemma_insert_v_wf(indices[0].1, id, rest, ty, rest_prefix);
        assert(indices2.drop_first() =~= indices.drop_first());
        assert forall|i: int| 0 <= i < indices2.len() - 1 implies (#[trigger] indices2[i]).0
            < indices2[i + 1].0 by {
            if i > 0 {
                assert(indices2[i] == indices[i]);
            }
            assert(indices2[i + 1] == indices[i + 1]);
        }
        assert forall|i: int| 0 <= i < indices2.len() implies wf_sorted(
            (#[trigger] indices2[i]).1,
        ) by {
            if i > 0 {
                assert(indices2[i] == indices[i]);
            }
        }
    } else if index < indices[0].0 {
        lemma_from_query_v_wf(id, rest, ty, rest_prefix);
        assert(indices2.drop_first() =~= indices);
        assert forall|i: int| 0 <= i < indices2.len() - 1 implies (#[trigger] indices2[i]).0
            < indices2[i + 1].0 by {
            if i > 0 {
                assert(indices2[i] == indices[i - 1]);
                assert(indices2[i + 1] == indices[i]);
            } else {
                assert(indices2[1] == indices[0]);
            }
        }
        assert forall|i: int| 0 <= i < indices2.len() implies wf_sorted(
            (#[trigger] indices2[i]).1,
        ) by {
            if i > 0 {
                assert(indices2[i] == indices[i - 1]);
            }
        }
    } else {
        lemma_indices_sorted_drop(indices);
        assert forall|i: int| 0 <= i < indices.drop_first().len() implies wf_sorted(
            (#[trigger] indices.drop_first()[i]).1,
        ) by {
            assert(indices.drop_first()[i] == indices[i + 1]);
        }
        lemma_insert_index_v_sorted(indices.drop_first(), index, id, rest, ty, rest_prefix);
        let (inner, _) = insert_index_v(indices.drop_first(), index, id, rest, ty, rest_prefix);
        assert(indices2.drop_first() =~= inner);
        assert(indices[0].0 < indices2[1].0) by {
            if inner[0].0 == index {
            } else {
                assert(inner[0].0 == indices.drop_first()[0].0);
                assert(indices.drop_first()[0] == indices[1]);
            }
        }
        assert forall|i: int| 0 <= i < indices2.len() - 1 implies (#[trigger] indices2[i]).0
            < indices2[i + 1].0 by {
            if i > 0 {
                assert(indices2[i] == inner[i - 1]);
                assert(indices2[i + 1] == inner[i]);
            }
        }
        assert forall|i: int| 0 <= i < indices2.len() implies wf_sorted(
            (#[trigger] indices2[i]).1,
        ) by {
            if i > 0 {
                assert(indices2[i] == inner[i - 1]);
            }
        }
    }
}

/// Merging one query keeps the tree well formed.
proof fn lemma_insert_v_wf(n: NodeV, id: QueryIdV, f: FragmentV, ty: DeclaredType, base: Seq<char>)
    requires
        wf_sorted(n),
    ensures
        wf_sorted(insert_v(n, id, f, ty, base).0),
    decreases f, 2nat,
{
    match f {
        FragmentV::Accept => {},
        FragmentV::Field { name, quoted, rest } => {
            let rest_prefix = crate::node::field_prefix_v(base, name, quoted);
            match n.kind {
                KindV::Unset => {
                    lemma_from_query_v_wf(id, *rest, ty, rest_prefix);
                },
                KindV::Field { fields } => {
                    lemma_insert_field_v_sorted(fields, name, id, *rest, ty, rest_prefix);
                },
                _ => {},
            }
        },
        FragmentV::IndexArray { index, rest } => {
            let rest_prefix = crate::node::index_prefix_v(base, index);
            match n.kind {
                KindV::Unset => {
                    lemma_from_query_v_wf(id, *rest, ty, rest_prefix);
                },
                KindV::IndexArray { indices } => {
                    lemma_insert_index_v_sorted(indices, index, id, *rest, ty, rest_prefix);
                },
                _ => {},
            }
        },
        FragmentV::CollectArray { rest } => {
            let rest_prefix = crate::node::collect_prefix_v(base);
            let elem_ty = element_or_self_v(ty);
            match n.kind {
                KindV::Unset => {
                    lemma_from_query_v_wf(id, *rest, elem_ty, rest_prefix);
                },
                KindV::CollectArray { child } => {
                    lemma_insert_v_wf(*child, id, *rest, elem_ty, rest_prefix);
                },
                _ => {},
            }
        },
    }
}

/// A single-query tree threads its query through every node on its path.
proof fn lemma_from_query_threads(
    id: QueryIdV,
    f: FragmentV,
    ty: DeclaredType,
    prefix: Seq<char>,
    m: int,
)
    requires
        0 <= m <= fragment_steps(f).len(),
    ensures
        node_at(from_query_v(id, f, ty, prefix), fragment_steps(f).take(m)) matches Option::Some(
            sub,
        ) && qlist_has(sub.queries, id.index),
    decreases f,
{
    let n = from_query_v(id, f, ty, prefix);
    let steps = fragment_steps(f);
    if m == 0 {
        assert(steps.take(0) =~= Seq::<StepV>::empty());
        assert(n.queries[0].0.index == id.index);
    } else {
        match f {
            FragmentV::Accept => {},
            FragmentV::Field { name, quoted, rest } => {
                let rest_steps = fragment_steps(*rest);
                assert(steps.take(m)[0] == steps[0]);
                assert(steps.take(m).drop_first() =~= rest_steps.take(m - 1));
                lemma_from_query_threads(
                    id,
                    *rest,
                    ty,
                    crate::node::field_prefix_v(prefix, name, quoted),
                    m - 1,
                );
            },
            FragmentV::IndexArray { index, rest } => {
                let rest_steps = fragment_steps(*rest);
                assert(steps.take(m)[0] == steps[0]);
                assert(steps.take(m).drop_first() =~= rest_steps.take(m - 1));
                lemma_from_query_threads(
                    id,
                    *rest,
                    ty,
                    crate::node::index_prefix_v(prefix, index),
                    m - 1,
                );
            },
            FragmentV::CollectArray { rest } => {
                let rest_steps = fragment_steps(*rest);
                assert(steps.take(m)[0] == steps[0]);
                assert(steps.take(m).drop_first() =~= rest_steps.take(m - 1));
                lemma_from_query_threads(
                    id,
                    *rest,
                    element_or_self_v(ty),
                    crate::node::collect_prefix_v(prefix),
                    m - 1,
                );
            },
        }
    }
}

/// Merging one more query never unthreads a query already in the tree.
proof fn lemma_insert_preserves(
    n: NodeV,
    id2: QueryIdV,
    f2: FragmentV,
    ty2: DeclaredType,
    base: Seq<char>,
    p: Seq<StepV>,
    idx: int,
)
    requires
        wf_sorted(n),
        node_at(n, p) matches Option::Some(m) && qlist_has(m.queries, idx),
    ensures
        node_at(insert_v(n, id2, f2, ty2, base).0, p) matches Option::Some(m2) && qlist_has(
            m2.queries,
            idx,
        ),
    decreases f2, p.len(),
{
    let n2 = insert_v(n, id2, f2, ty2, base).0;
    if p.len() == 0 {
        match f2 {
            FragmentV::Accept => {
                lemma_insert_query_v_preserves(n.queries, id2, ty2, idx);
            },
            FragmentV::Field { .. } => {
                lemma_insert_query_v_preserves(n.queries, id2, ty2, idx);
            },
            FragmentV::IndexArray { .. } => {
                lemma_insert_query_v_preserves(n.queries, id2, ty2, idx);
            },
            FragmentV::CollectArray { .. } => {
                lemma_insert_query_v_preserves(n.queries, id2, ty2, idx);
            },
        }
    } else {
        match (p[0], n.kind) {
            (StepV::Field { name, .. }, KindV::Field { fields }) => {
                if let FragmentV::Field { name: name2, quoted: quoted2, rest: rest2 } = f2 {
                    let rest_prefix = crate::node::field_prefix_v(base, name2, quoted2);
                    lemma_insert_field_v_find(fields, name2, id2, *rest2, ty2, rest_prefix, name);
                    if name == name2 {
                        match find_field_v(fields, name) {
                            Option::Some(c) => {
                                lemma_find_field_v_member(fields, name);
                                let j = choose|j: int|
                                    0 <= j < fields.len() && (#[trigger] fields[j]).1 == c;
                                assert(wf_sorted(c));
                                lemma_insert_preserves(
                                    c,
                                    id2,
                                    *rest2,
                                    ty2,
                                    rest_prefix,
                                    p.drop_first(),
                                    idx,
                                );
                            },
                            Option::None => {},
                        }
                    }
                }
            },
            (StepV::Index(i), KindV::IndexArray { indices }) => {
                if let FragmentV::IndexArray { index: i2, rest: rest2 } = f2 {
                    let rest_prefix = crate::node::index_prefix_v(base, i2);
                    lemma_insert_index_v_find(indices, i2, id2, *rest2, ty2, rest_prefix, i);
                    if i == i2 {
                        match find_index_v(indices, i) {
                            Option::Some(c) => {
                                lemma_find_index_v_member(indices, i);
                                let j = choose|j: int|
                                    0 <= j < indices.len() && (#[trigger] indices[j]).1 == c;
                                assert(wf_sorted(c));
                                lemma_insert_preserves(
                                    c,
                                    id2,
                                    *rest2,
                                    ty2,
                                    rest_prefix,
                                    p.drop_first(),
                                    idx,
                                );
                            },
                            Option::None => {},
                        }
                    }
                }
            },
            (StepV::Collect, KindV::CollectArray { child }) => {
                if let FragmentV::CollectArray { rest: rest2 } = f2 {
                    lemma_insert_preserves(
                        *child,
                        id2,
                        *rest2,
                        element_or_self_v(ty2),
                        crate::node::collect_prefix_v(base),
                        p.drop_first(),
                        idx,
                    );
                }
            },
            _ => {},
        }
    }
}

/// A conflict-free merge threads the merged query through every node on
/// its path.
proof fn lemma_insert_threads(
    n: NodeV,
    id: QueryIdV,
    f: FragmentV,
    ty: DeclaredType,
    base: Seq<char>,
    m: int,
)
    requires
        wf_sorted(n),
        insert_v(n, id, f, ty, base).1 is None,
        0 <= m <= fragment_steps(f).len(),
    ensures
        node_at(insert_v(n, id, f, ty, base).0, fragment_steps(f).take(m)) matches Option::Some(
            sub,
        ) && qlist_has(sub.queries, id.index),
    decreases f,
{
    let n2 = insert_v(n, id, f, ty, base).0;
    let steps = fragment_steps(f);
    if m == 0 {
        assert(steps.take(0) =~= Seq::<StepV>::empty());
        match f {
            FragmentV::Accept => {
                lemma_insert_query_v_has(n.queries, id, ty);
            },
            FragmentV::Field { .. } => {
                lemma_insert_query_v_has(n.queries, id, ty);
            },
            FragmentV::IndexArray { .. } => {
                lemma_insert_query_v_has(n.queries, id, ty);
            },
            FragmentV::CollectArray { .. } => {
                lemma_insert_query_v_has(n.queries, id, ty);
            },
        }
    } else {
        match f {
            FragmentV::Accept => {},
            FragmentV::Field { name, quoted, rest } => {
                let rest_prefix = crate::node::field_prefix_v(base, name, quoted);
                let rest_steps = fragment_steps(*rest);
                assert(steps.take(m)[0] == steps[0]);
                assert(steps.take(m).drop_first() =~= rest_steps.take(m - 1));
                match n.kind {
                    KindV::Unset => {
                        lemma_from_query_threads(id, *rest, ty, rest_prefix, m - 1);
                    },
                    KindV::Field { fields } => {
                        lemma_insert_field_v_find(fields, name, id, *rest, ty, rest_prefix, name);
                        match find_field_v(fields, name) {
                            Option::Some(old) => {
                                lemma_find_field_v_member(fields, name);
                                let j = choose|j: int|
                                    0 <= j < fields.len() && (#[trigger] fields[j]).1 == old;
                                assert(wf_sorted(old));
                                lemma_insert_threads(old, id, *rest, ty, rest_prefix, m - 1);
                            },
                            Option::None => {
                                lemma_from_query_threads(id, *rest, ty, rest_prefix, m - 1);
                            },
                        }
                    },
                    _ => {},
                }
            },
            FragmentV::IndexArray { index, rest } => {
                let rest_prefix = crate::node::index_prefix_v(base, index);
                let rest_steps = fragment_steps(*rest);
                assert(steps.take(m)[0] == steps[0]);
                assert(steps.take(m).drop_first() =~= rest_steps.take(m - 1));
                match n.kind {
                    KindV::Unset => {
                        lemma_from_query_threads(id, *rest, ty, rest_prefix, m - 1);
                    },
                    KindV::IndexArray { indices } => {
                        lemma_insert_index_v_find(indices, index, id, *rest, ty, rest_prefix, index);
                        match find_index_v(indices, index) {
                            Option::Some(old) => {
                                lemma_find_index_v_member(indices, index);
                                let j = choose|j: int|
                                    0 <= j < indices.len() && (#[trigger] indices[j]).1 == old;
                                assert(wf_sorted(old));
                                lemma_insert_threads(old, id, *rest, ty, rest_prefix, m - 1);
                            },
                            Option::None => {
                                lemma_from_query_threads(id, *rest, ty, rest_prefix, m - 1);
                            },
                        }
                    },
                    _ => {},
                }
            },
            FragmentV::CollectArray { rest } => {
                let rest_prefix = crate::node::collect_prefix_v(base);
                let elem_ty = element_or_self_v(ty);
                let rest_steps = fragment_steps(*rest);
                assert(steps.take(m)[0] == steps[0]);
                assert(steps.take(m).drop_first() =~= rest_steps.take(m - 1));
                match n.kind {
                    KindV::Unset => {
                        lemma_from_query_threads(id, *rest, elem_ty, rest_prefix, m - 1);
                    },
                    KindV::CollectArray { child } => {
                        lemma_insert_threads(*child, id, *rest, elem_ty, rest_prefix, m - 1);
                    },
                    _ => {},
                }
            },
        }
    }
}

/// Merging a whole query list never unthreads a query already in the tree.
proof fn lemma_insert_all_preserves(n: NodeV, qs: Seq<QueryV>, p: Seq<StepV>, idx: int)
    requires
        wf_sorted(n),
        node_at(n, p) matches Option::Some(m) && qlist_has(m.queries, idx),
    ensures
        node_at(insert_all_v(n, qs).0, p) matches Option::Some(m2) && qlist_has(m2.queries, idx),
    decreases qs.len(),
{
    if qs.len() > 0 {
        let (n1, _) = insert_v(n, qs[0].id, qs[0].fragment, qs[0].ty, Seq::empty());
        lemma_insert_preserves(n, qs[0].id, qs[0].fragment, qs[0].ty, Seq::empty(), p, idx);
        lemma_insert_v_wf(n, qs[0].id, qs[0].fragment, qs[0].ty, Seq::empty());
        lemma_insert_all_preserves(n1, qs.drop_first(), p, idx);
    }
}

/// In a conflict-free merge of a whole query list, every query is threaded
/// through every node on its path.
proof fn lemma_insert_all_threads(n: NodeV, qs: Seq<QueryV>, k: int, m: int)
    requires
        wf_sorted(n),
        insert_all_v(n, qs).1.len() == 0,
        0 <= k < qs.len(),
        0 <= m <= fragment_steps(qs[k].fragment).len(),
    ensures
        node_at(insert_all_v(n, qs).0, fragment_steps(qs[k].fragment).take(m)) matches Option::Some(
            sub,
        ) && qlist_has(sub.queries, qs[k].id.index),
    decreases qs.len(),
{
    let (n1, c) = insert_v(n, qs[0].id, qs[0].fragment, qs[0].ty, Seq::empty());
    assert(c is None);
    lemma_insert_v_wf(n, qs[0].id, qs[0].fragment, qs[0].ty, Seq::empty());
    if k == 0 {
        lemma_insert_threads(n, qs[0].id, qs[0].fragment, qs[0].ty, Seq::empty(), m);
        lemma_insert_all_preserves(
            n1,
            qs.drop_first(),
            fragment_steps(qs[0].fragment).take(m),
            qs[0].id.index,
        );
    } else {
        lemma_insert_all_threads(n1, qs.drop_first(), k - 1, m);
    }
}

/// Structural sharing: for all conflict-free query sets, any two queries
/// sharing a common step prefix flow through the one node the tree holds
/// at that prefix — the tree has a single branch per prefix, not one per
/// query.
pub proof fn lemma_shared_prefix(qs: Seq<QueryV>, i: int, j: int, p: Seq<StepV>)
    requires
        from_queries_v(qs).1.len() == 0,
        0 <= i < qs.len(),
        0 <= j < qs.len(),
        p.len() <= fragment_steps(qs[i].fragment).len(),
        p.len() <= fragment_steps(qs[j].fragment).len(),
        fragment_steps(qs[i].fragment).take(p.len() as int) == p,
        fragment_steps(qs[j].fragment).take(p.len() as int) == p,
    ensures
        node_at(from_queries_v(qs).0, p) matches Option::Some(shared) && qlist_has(
            shared.queries,
            qs[i].id.index,
        ) && qlist_has(shared.queries, qs[j].id.index),
{
    lemma_insert_all_threads(root_v(), qs, i, p.len() as int);
    lemma_insert_all_threads(root_v(), qs, j, p.len() as int);
}

/// Idempotence: compiling the same query set twice yields structurally
/// identical trees — the result is a function of the queries alone, with
/// no hidden state.
pub proof fn lemma_compile_idempotent(qs: Seq<QueryV>, r1: NodeV, r2: NodeV)
    requires
        r1 == from_queries_v(qs).0,
        r2 == from_queries_v(qs).0,
    ensures
        r1 == r2,
{
}

/// The fragment made of the steps of `p` in front of `g`.
pub open spec fn prepend_steps(p: Seq<StepV>, g: FragmentV) -> FragmentV
    decreases p.len(),
{
    if p.len() == 0 {
        g
    } else {
        let rest = Box::new(prepend_steps(p.drop_first(), g));
        match p[0] {
            StepV::Field { name, quoted } => FragmentV::Field { name, quoted, rest },
            StepV::Index(i) => FragmentV::IndexArray { index: i, rest },
            StepV::Collect => FragmentV::CollectArray { rest },
        }
    }
}

/// Whether two fragments require the same traversal shape at their head.
pub open spec fn same_shape(f1: FragmentV, f2: FragmentV) -> bool {
    match (f1, f2) {
        (FragmentV::Accept, FragmentV::Accept) => true,
        (FragmentV::Field { .. }, FragmentV::Field { .. }) => true,
        (FragmentV::IndexArray { .. }, FragmentV::IndexArray { .. }) => true,
        (FragmentV::CollectArray { .. }, FragmentV::CollectArray { .. }) => true,
        _ => false,
    }
}

/// Merging a query into a tree that one other query built alone, where the
/// two paths agree for `p` steps and then require different shapes, stops
/// with a conflict naming the existing query first and the incoming one
/// second.
proof fn lemma_insert_diverging(
    n: NodeV,
    id1: QueryIdV,
    ty1: DeclaredType,
    g1: FragmentV,
    id2: QueryIdV,
    ty2: DeclaredType,
    g2: FragmentV,
    p: Seq<StepV>,
    pr: Seq<char>,
    base: Seq<char>,
)
    requires
        !same_shape(g1, g2),
        n.queries.len() > 0,
        n.queries[0].0 == id1,
        n.kind == from_query_v(id1, prepend_steps(p, g1), ty1, pr).kind,
    ensures
        insert_v(n, id2, prepend_steps(p, g2), ty2, base).1 matches Option::Some(c) && c.existing
            == id1 && c.incoming == id2,
    decreases p.len(),
{
    let f1 = prepend_steps(p, g1);
    let f2 = prepend_steps(p, g2);
    if p.len() == 0 {
        assert(insert_v(n, id2, f2, ty2, base).1 matches Option::Some(c) && c.existing == id1
            && c.incoming == id2);
    } else {
        let p1 = p.drop_first();
        match p[0] {
            StepV::Field { name, quoted } => {
                let child1 = from_query_v(
                    id1,
                    prepend_steps(p1, g1),
                    ty1,
                    crate::node::field_prefix_v(pr, name, quoted),
                );
                let rest_prefix = crate::node::field_prefix_v(base, name, quoted);
                if let KindV::Field { fields } = n.kind {
                    assert(fields == seq![(name, child1)]);
                    assert(fields[0].0 == name);
                    let (_, c) = insert_field_v(
                        fields,
                        name,
                        id2,
                        prepend_steps(p1, g2),
                        ty2,
                        rest_prefix,
                    );
                    assert(c == insert_v(child1, id2, prepend_steps(p1, g2), ty2, rest_prefix).1);
                    lemma_insert_diverging(
                        child1,
                        id1,
                        ty1,
                        g1,
                        id2,
                        ty2,
                        g2,
                        p1,
                        crate::node::field_prefix_v(pr, name, quoted),
                        rest_prefix,
                    );
                }
            },
            StepV::Index(i) => {
                let child1 = from_query_v(
                    id1,
                    prepend_steps(p1, g1),
                    ty1,
                    crate::node::index_prefix_v(pr, i),
                );
                let rest_prefix = crate::node::index_prefix_v(base, i);
                if let KindV::IndexArray { indices } = n.kind {
                    assert(indices == seq![(i, child1)]);
                    assert(indices[0].0 == i);
                    let (_, c) = insert_index_v(
                        indices,
                        i,
                        id2,
                        prepend_steps(p1, g2),
                        ty2,
                        rest_prefix,
                    );
                    assert(c == insert_v(child1, id2, prepend_steps(p1, g2), ty2, rest_prefix).1);
                    lemma_insert_diverging(
                        child1,
                        id1,
                        ty1,
                        g1,
                        id2,
                        ty2,
                        g2,
                        p1,
                        crate::node::index_prefix_v(pr, i),
                        rest_prefix,
                    );
                }
            },
            StepV::Collect => {
                let child1 = from_query_v(
                    id1,
                    prepend_steps(p1, g1),
                    element_or_self_v(ty1),
                    crate::node::collect_prefix_v(pr),
                );
                if let KindV::CollectArray { child } = n.kind {
                    assert(*child == child1);
                    lemma_insert_diverging(
                        child1,
                        id1,
                        element_or_self_v(ty1),
                        g1,
                        id2,
                        element_or_self_v(ty2),
                        g2,
                        p1,
                        crate::node::collect_prefix_v(pr),
                        crate::node::collect_prefix_v(base),
                    );
                }
            },
        }
    }
}

/// Conflict reporting: for every pair of queries whose paths agree for a
/// common prefix and then require different shapes, compiling the pair
/// fails with exactly one conflict, and it names both output fields — the
/// first query as the existing side, the second as the incoming one.
pub proof fn lemma_conflicting_pair(
    q1: QueryV,
    q2: QueryV,
    p: Seq<StepV>,
    g1: FragmentV,
    g2: FragmentV,
)
    requires
        q1.fragment == prepend_steps(p, g1),
        q2.fragment == prepend_steps(p, g2),
        !same_shape(g1, g2),
    ensures
        from_queries_v(seq![q1, q2]).1.len() == 1,
        ({
            let c = from_queries_v(seq![q1, q2]).1[0];
            c.existing == q1.id && c.incoming == q2.id
        }),
{
    let qs = seq![q1, q2];
    let (n1, c1) = insert_v(root_v(), q1.id, q1.fragment, q1.ty, Seq::empty());
    assert(qs[0] == q1);
    assert(qs.drop_first() =~= seq![q2]);
    assert(qs.drop_first()[0] == q2);
    assert(qs.drop_first().drop_first() =~= Seq::<QueryV>::empty());
    // the first query merges into the empty root without conflict, and the
    // resulting tree is the single-query tree but for the root's prefix
    assert(c1 is None);
    assert(n1.queries == insert_query_v(Seq::empty(), q1.id, q1.ty));
    assert(n1.queries[0].0 == q1.id);
    match q1.fragment {
        FragmentV::Accept => {
            assert(n1.kind == from_query_v(q1.id, q1.fragment, q1.ty, Seq::empty()).kind);
        },
        FragmentV::Field { .. } => {
            assert(n1.kind == from_query_v(q1.id, q1.fragment, q1.ty, Seq::empty()).kind);
        },
        FragmentV::IndexArray { .. } => {
            assert(n1.kind == from_query_v(q1.id, q1.fragment, q1.ty, Seq::empty()).kind);
        },
        FragmentV::CollectArray { .. } => {
            assert(n1.kind == from_query_v(q1.id, q1.fragment, q1.ty, Seq::empty()).kind);
        },
    }
    lemma_insert_diverging(
        n1,
        q1.id,
        q1.ty,
        g1,
        q2.id,
        q2.ty,
        g2,
        p,
        Seq::empty(),
        Seq::empty(),
    );
    assert(insert_v(n1, q2.id, prepend_steps(p, g2), q2.ty, Seq::empty()).1 matches Option::Some(
        c,
    ) && c.existing == q1.id && c.incoming == q2.id);
    let (n2, c2) = insert_v(n1, q2.id, q2.fragment, q2.ty, Seq::empty());
    assert(c2 == insert_v(n1, q2.id, prepend_steps(p, g2), q2.ty, Seq::empty()).1);
    assert(c2 matches Option::Some(c) && c.existing == q1.id && c.incoming == q2.id);
    let tail = qs.drop_first();
    assert(insert_all_v(n2, tail.drop_first()).1 =~= Seq::<ConflictV>::empty());
    assert(insert_all_v(n1, tail).1 =~= seq![c2->Some_0]) by {
        assert(tail[0] == q2);
        assert(seq![c2->Some_0] + insert_all_v(n2, tail.drop_first()).1 =~= seq![c2->Some_0]);
    }
    assert(insert_all_v(root_v(), qs).1 =~= seq![c2->Some_0]) by {
        assert(insert_all_v(root_v(), qs).1 == insert_all_v(n1, tail).1);
    }
}

} // verus!
