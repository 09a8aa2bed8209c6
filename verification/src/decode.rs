//! The plan semantics: executing a compiled tree against a structured
//! document.
//!
//! Decoding walks document and tree together, once.  At a field-dispatch
//! node every map entry is read in source order: entries matching a child
//! are decoded into that child's output slots, everything else is skipped;
//! a key matched a second time for an output that already holds a value
//! becomes a `duplicated field` error, and outputs that never received a
//! value get a `missing field` error.  At an index-dispatch node the
//! sequence is walked to its end, elements at requested positions decoded
//! and the rest skipped; a sequence that ends too early yields a
//! `sequence must have at least N elements` error.  A collect node gathers
//! one value per element for every output flowing through it; an element
//! that fails poisons that output for the rest of the sequence, while other
//! outputs and the structural walk go on.  A document whose shape does not
//! fit an inner node at all aborts the whole decode: that is a structural
//! error, never aggregated.

use vstd::prelude::*;

use crate::error::{Error, ErrorV, Errors};
use crate::node::{find_field_v, find_index_v, KindV, Node, NodeKind, NodeV};
use crate::query::{DeclaredType, QueryIdV};
use crate::text::dec_str;
use crate::value::{Decoded, DecodedV, Value, ValueV};

verus! {

broadcast use vstd::std_specs::vec::axiom_vec_index_decreases, vstd::seq::axiom_seq_index_decreases, vstd::std_specs::vec::axiom_vec_decreases_to_view;

/// The shape word of a document value, as used in error messages.
pub open spec fn value_shape_v(v: ValueV) -> Seq<char> {
    match v {
        ValueV::Null => "null"@,
        ValueV::Bool(_) => "boolean"@,
        ValueV::Int(_) => "integer"@,
        ValueV::Str(_) => "string"@,
        ValueV::Array(_) => "sequence"@,
        ValueV::Object(_) => "map"@,
    }
}

/// What a declared type expects to find, as used in error messages.
pub open spec fn expected_name_v(ty: DeclaredType) -> Seq<char> {
    match ty {
        DeclaredType::Bool => "a boolean"@,
        DeclaredType::Int => "an integer"@,
        DeclaredType::Str => "a string"@,
        DeclaredType::Sequence(_) => "a sequence"@,
    }
}

/// The `invalid type` message for a value that does not decode into a
/// declared type.
pub open spec fn invalid_type_msg_v(v: ValueV, ty: DeclaredType) -> Seq<char> {
    "invalid type: "@ + value_shape_v(v) + ", expected "@ + expected_name_v(ty)
}

/// The `invalid type` message for a document whose shape does not fit an
/// inner node of the plan.
pub open spec fn shape_err_v(v: ValueV, expecting: Seq<char>) -> Seq<char> {
    "invalid type: "@ + value_shape_v(v) + ", expected "@ + expecting
}

/// Direct decoding of a document position into a declared type: a scalar
/// into the matching scalar, a sequence elementwise into a container; any
/// other pairing is an `invalid type` failure.
pub open spec fn decode_leaf_v(ty: DeclaredType, v: ValueV) -> Result<DecodedV, Seq<char>>
    decreases v, 0nat, 0nat,
{
    match v {
        ValueV::Bool(b) => if ty is Bool {
            Result::Ok(DecodedV::Bool(b))
        } else {
            Result::Err(invalid_type_msg_v(v, ty))
        },
        ValueV::Int(i) => if ty is Int {
            Result::Ok(DecodedV::Int(i))
        } else {
            Result::Err(invalid_type_msg_v(v, ty))
        },
        ValueV::Str(s) => if ty is Str {
            Result::Ok(DecodedV::Str(s))
        } else {
            Result::Err(invalid_type_msg_v(v, ty))
        },
        ValueV::Array(vs) => match ty {
            DeclaredType::Sequence(elem) => match decode_leaf_seq_v(*elem, vs, 0) {
                Result::Ok(ds) => Result::Ok(DecodedV::Array(ds)),
                Result::Err(m) => Result::Err(m),
            },
            _ => Result::Err(invalid_type_msg_v(v, ty)),
        },
        _ => Result::Err(invalid_type_msg_v(v, ty)),
    }
}

/// Elementwise decoding of a sequence from position `i` on; the first
/// failing element's message fails the whole sequence.
pub open spec fn decode_leaf_seq_v(ty: DeclaredType, vs: Seq<ValueV>, i: int) -> Result<
    Seq<DecodedV>,
    Seq<char>,
>
    decreases vs, vs.len() - i, 1nat,
{
    if i < 0 || i >= vs.len() {
        Result::Ok(Seq::empty())
    } else {
        match decode_leaf_v(ty, vs[i]) {
            Result::Err(m) => Result::Err(m),
            Result::Ok(d) => match decode_leaf_seq_v(ty, vs, i + 1) {
                Result::Err(m) => Result::Err(m),
                Result::Ok(ds) => Result::Ok(seq![d] + ds),
            },
        }
    }
}

/// The view of one output slot.
pub open spec fn slot_v(s: Option<Result<Decoded, Error>>) -> Option<Result<DecodedV, ErrorV>> {
    match s {
        Option::Some(Result::Ok(d)) => Option::Some(Result::Ok(d@)),
        Option::Some(Result::Err(e)) => Option::Some(Result::Err(e@)),
        Option::None => Option::None,
    }
}

/// The view of the output slots, one per output field.
pub open spec fn slots_v(s: Seq<Option<Result<Decoded, Error>>>) -> Seq<
    Option<Result<DecodedV, ErrorV>>,
> {
    Seq::new(s.len(), |i: int| slot_v(s[i]))
}

/// Slots in which no output has received anything yet.
pub open spec fn fresh_slots_v(n: nat) -> Seq<Option<Result<DecodedV, ErrorV>>> {
    Seq::new(n, |i: int| Option::None)
}

/// Reads a slot; out-of-range output indices read as empty.
pub open spec fn get_slot_v(
    slots: Seq<Option<Result<DecodedV, ErrorV>>>,
    i: int,
) -> Option<Result<DecodedV, ErrorV>> {
    if 0 <= i < slots.len() {
        slots[i]
    } else {
        Option::None
    }
}

/// Writes a slot; out-of-range output indices are left alone.
pub open spec fn set_slot_v(
    slots: Seq<Option<Result<DecodedV, ErrorV>>>,
    i: int,
    x: Option<Result<DecodedV, ErrorV>>,
) -> Seq<Option<Result<DecodedV, ErrorV>>> {
    if 0 <= i < slots.len() {
        slots.update(i, x)
    } else {
        slots
    }
}

/// The `missing field '<name>'` message.
pub open spec fn missing_field_msg_v(name: Seq<char>) -> Seq<char> {
    "missing field '"@ + name + "'"@
}

/// The `duplicated field '<name>'` message.
pub open spec fn dup_field_msg_v(name: Seq<char>) -> Seq<char> {
    "duplicated field '"@ + name + "'"@
}

/// The message for a sequence that ended before the element at `index` was
/// reached.
pub open spec fn seq_short_msg_v(index: int) -> Seq<char> {
    "the sequence must have at least "@ + dec_str((index + 1) as nat) + " elements"@
}

/// The `'a', or 'b'` list of a field node's child names, from position `i`.
pub open spec fn field_names_from_v(fields: Seq<(Seq<char>, NodeV)>, i: int) -> Seq<char>
    decreases fields.len() - i,
{
    if i < 0 || i >= fields.len() {
        Seq::empty()
    } else if i == fields.len() - 1 {
        "'"@ + fields[i].0 + "'"@
    } else {
        "'"@ + fields[i].0 + "'"@ + ", or "@ + field_names_from_v(fields, i + 1)
    }
}

/// What a field node expects the document to hold.
pub open spec fn fields_expecting_v(fields: Seq<(Seq<char>, NodeV)>) -> Seq<char> {
    "one of the following fields: "@ + field_names_from_v(fields, 0)
}

/// What an index node expects the document to hold: a sequence long enough
/// for its largest requested index.
pub open spec fn indices_expecting_v(indices: Seq<(int, NodeV)>) -> Seq<char> {
    let max = if indices.len() > 0 {
        indices[indices.len() - 1].0
    } else {
        0
    };
    "a sequence with at least "@ + dec_str((max + 1) as nat) + " elements"@
}

/// Marks every output of a matched child that already holds a value as
/// `duplicated field`: the first value is dropped in favour of the error.
pub open spec fn mark_dups_v(
    queries: Seq<(QueryIdV, DeclaredType)>,
    key: Seq<char>,
    prefix: Seq<char>,
    slots: Seq<Option<Result<DecodedV, ErrorV>>>,
    k: int,
) -> Seq<Option<Result<DecodedV, ErrorV>>>
    decreases queries.len() - k,
{
    if k < 0 || k >= queries.len() {
        slots
    } else {
        let qid = queries[k].0;
        let slots1 = match get_slot_v(slots, qid.index) {
            Option::Some(Result::Ok(_)) => set_slot_v(
                slots,
                qid.index,
                Option::Some(
                    Result::Err(
                        ErrorV { field: qid.name, prefix, message: dup_field_msg_v(key) },
                    ),
                ),
            ),
            _ => slots,
        };
        mark_dups_v(queries, key, prefix, slots1, k + 1)
    }
}

/// After one entry was decoded on a clean slate, carries each child
/// output's fresh result into its real slot — unless that slot already
/// holds something, in which case the fresh result is discarded.
pub open spec fn merge_run_v(
    queries: Seq<(QueryIdV, DeclaredType)>,
    acc: Seq<Option<Result<DecodedV, ErrorV>>>,
    run: Seq<Option<Result<DecodedV, ErrorV>>>,
    k: int,
) -> Seq<Option<Result<DecodedV, ErrorV>>>
    decreases queries.len() - k,
{
    if k < 0 || k >= queries.len() {
        acc
    } else {
        let idx = queries[k].0.index;
        let acc1 = if get_slot_v(acc, idx) is None {
            set_slot_v(acc, idx, get_slot_v(run, idx))
        } else {
            acc
        };
        merge_run_v(queries, acc1, run, k + 1)
    }
}

/// Fills a `missing field` error into every output of one child that never
/// received a value during the pass over the map.
pub open spec fn fill_missing_child_v(
    name: Seq<char>,
    queries: Seq<(QueryIdV, DeclaredType)>,
    prefix: Seq<char>,
    slots: Seq<Option<Result<DecodedV, ErrorV>>>,
    k: int,
) -> Seq<Option<Result<DecodedV, ErrorV>>>
    decreases queries.len() - k,
{
    if k < 0 || k >= queries.len() {
        slots
    } else {
        let qid = queries[k].0;
        let slots1 = if get_slot_v(slots, qid.index) is None {
            set_slot_v(
                slots,
                qid.index,
                Option::Some(
                    Result::Err(
                        ErrorV { field: qid.name, prefix, message: missing_field_msg_v(name) },
                    ),
                ),
            )
        } else {
            slots
        };
        fill_missing_child_v(name, queries, prefix, slots1, k + 1)
    }
}

/// Fills `missing field` errors for every child of a field node.
pub open spec fn fill_missing_fields_v(
    fields: Seq<(Seq<char>, NodeV)>,
    prefix: Seq<char>,
    slots: Seq<Option<Result<DecodedV, ErrorV>>>,
    j: int,
) -> Seq<Option<Result<DecodedV, ErrorV>>>
    decreases fields.len() - j,
{
    if j < 0 || j >= fields.len() {
        slots
    } else {
        let slots1 = fill_missing_child_v(
            fields[j].0,
            fields[j].1.queries,
            prefix,
            slots,
            0,
        );
        fill_missing_fields_v(fields, prefix, slots1, j + 1)
    }
}

/// Fills a `sequence must have at least N elements` error into every
/// output of one index child the sequence never reached.
pub open spec fn fill_missing_index_child_v(
    index: int,
    queries: Seq<(QueryIdV, DeclaredType)>,
    prefix: Seq<char>,
    slots: Seq<Option<Result<DecodedV, ErrorV>>>,
    k: int,
) -> Seq<Option<Result<DecodedV, ErrorV>>>
    decreases queries.len() - k,
{
    if k < 0 || k >= queries.len() {
        slots
    } else {
        let qid = queries[k].0;
        let slots1 = if get_slot_v(slots, qid.index) is None {
            set_slot_v(
                slots,
                qid.index,
                Option::Some(
                    Result::Err(
                        ErrorV { field: qid.name, prefix, message: seq_short_msg_v(index) },
                    ),
                ),
            )
        } else {
            slots
        };
        fill_missing_index_child_v(index, queries, prefix, slots1, k + 1)
    }
}

/// Fills sequence-too-short errors for every child of an index node.
pub open spec fn fill_missing_indices_v(
    indices: Seq<(int, NodeV)>,
    prefix: Seq<char>,
    slots: Seq<Option<Result<DecodedV, ErrorV>>>,
    j: int,
) -> Seq<Option<Result<DecodedV, ErrorV>>>
    decreases indices.len() - j,
{
    if j < 0 || j >= indices.len() {
        slots
    } else {
        let slots1 = fill_missing_index_child_v(
            indices[j].0,
            indices[j].1.queries,
            prefix,
            slots,
            0,
        );
        fill_missing_indices_v(indices, prefix, slots1, j + 1)
    }
}

/// Decodes the current position directly for every output ending at a leaf
/// node, wrapping failures with the output's name and the node's prefix.
pub open spec fn accept_all_v(
    queries: Seq<(QueryIdV, DeclaredType)>,
    prefix: Seq<char>,
    v: ValueV,
    slots: Seq<Option<Result<DecodedV, ErrorV>>>,
    k: int,
) -> Seq<Option<Result<DecodedV, ErrorV>>>
    decreases queries.len() - k,
{
    if k < 0 || k >= queries.len() {
        slots
    } else {
        let (qid, ty) = queries[k];
        let outcome = match decode_leaf_v(ty, v) {
            Result::Ok(d) => Result::Ok(d),
            Result::Err(m) => Result::Err(ErrorV { field: qid.name, prefix, message: m }),
        };
        accept_all_v(queries, prefix, v, set_slot_v(slots, qid.index, Option::Some(outcome)), k + 1)
    }
}

/// One empty container per collect output.
pub open spec fn init_accs_v(n: nat) -> Seq<Result<Seq<DecodedV>, ErrorV>> {
    Seq::new(n, |i: int| Result::Ok(Seq::empty()))
}

/// Folds one element's fresh results into the per-output containers: a
/// value is appended, a failure poisons that output for the rest of the
/// sequence, a poisoned output stays poisoned.
pub open spec fn step_accs_v(
    queries: Seq<(QueryIdV, DeclaredType)>,
    run: Seq<Option<Result<DecodedV, ErrorV>>>,
    accs: Seq<Result<Seq<DecodedV>, ErrorV>>,
    k: int,
) -> Seq<Result<Seq<DecodedV>, ErrorV>>
    decreases queries.len() - k,
{
    if k < 0 || k >= queries.len() || k >= accs.len() {
        accs
    } else {
        let idx = queries[k].0.index;
        let acc1 = match accs[k] {
            Result::Ok(ds) => match get_slot_v(run, idx) {
                Option::Some(Result::Ok(d)) => Result::Ok(ds.push(d)),
                Option::Some(Result::Err(e)) => Result::Err(e),
                Option::None => Result::Ok(ds),
            },
            Result::Err(e) => Result::Err(e),
        };
        step_accs_v(queries, run, accs.update(k, acc1), k + 1)
    }
}

/// Writes the finished containers (or the errors that poisoned them) into
/// the outputs' slots.
pub open spec fn write_accs_v(
    queries: Seq<(QueryIdV, DeclaredType)>,
    accs: Seq<Result<Seq<DecodedV>, ErrorV>>,
    slots: Seq<Option<Result<DecodedV, ErrorV>>>,
    k: int,
) -> Seq<Option<Result<DecodedV, ErrorV>>>
    decreases queries.len() - k,
{
    if k < 0 || k >= queries.len() || k >= accs.len() {
        slots
    } else {
        let idx = queries[k].0.index;
        let out = match accs[k] {
            Result::Ok(ds) => Result::Ok(DecodedV::Array(ds)),
            Result::Err(e) => Result::Err(e),
        };
        write_accs_v(queries, accs, set_slot_v(slots, idx, Option::Some(out)), k + 1)
    }
}

/// The whole automaton, one node at a time: what executing the plan at
/// node `n` against document position `v` does to the output slots, or the
/// structural error that aborts the decode.
pub open spec fn decode_node_v(
    n: NodeV,
    v: ValueV,
    slots: Seq<Option<Result<DecodedV, ErrorV>>>,
) -> Result<Seq<Option<Result<DecodedV, ErrorV>>>, Seq<char>>
    decreases n, 1nat, 0nat,
{
    match n.kind {
        KindV::Unset => Result::Ok(slots),
        KindV::Accept => Result::Ok(accept_all_v(n.queries, n.prefix, v, slots, 0)),
        KindV::Field { fields } => match v {
            ValueV::Object(entries) => match decode_entries_v(n, entries, 0, slots) {
                Result::Err(m) => Result::Err(m),
                Result::Ok(s2) => Result::Ok(fill_missing_fields_v(fields, n.prefix, s2, 0)),
            },
            _ => Result::Err(shape_err_v(v, fields_expecting_v(fields))),
        },
        KindV::IndexArray { indices } => match v {
            ValueV::Array(vs) => match decode_elems_v(n, vs, 0, slots) {
                Result::Err(m) => Result::Err(m),
                Result::Ok(s2) => Result::Ok(fill_missing_indices_v(indices, n.prefix, s2, 0)),
            },
            _ => Result::Err(shape_err_v(v, indices_expecting_v(indices))),
        },
        KindV::CollectArray { child } => match v {
            ValueV::Array(vs) => match decode_collect_v(n, vs, 0, init_accs_v(n.queries.len()), slots.len()) {
                Result::Err(m) => Result::Err(m),
                Result::Ok(accs) => Result::Ok(write_accs_v(n.queries, accs, slots, 0)),
            },
            _ => Result::Err(shape_err_v(v, "a sequence"@)),
        },
    }
}

/// Walks the entries of a map under a field node, in source order: an
/// entry matching a child is decoded on a clean slate and merged into the
/// slots, with repeated keys marked as duplicates; other entries are
/// skipped.
pub open spec fn decode_entries_v(
    n: NodeV,
    entries: Seq<(Seq<char>, ValueV)>,
    i: int,
    slots: Seq<Option<Result<DecodedV, ErrorV>>>,
) -> Result<Seq<Option<Result<DecodedV, ErrorV>>>, Seq<char>>
    decreases n, 0nat, entries.len() - i,
    via decode_entries_v_decreases
{
    if i < 0 || i >= entries.len() {
        Result::Ok(slots)
    } else {
        match n.kind {
            KindV::Field { fields } => {
                let (key, ev) = entries[i];
                match find_field_v(fields, key) {
                    Option::None => decode_entries_v(n, entries, i + 1, slots),
                    Option::Some(child) => {
                        let marked = mark_dups_v(child.queries, key, n.prefix, slots, 0);
                        match decode_node_v(child, ev, fresh_slots_v(slots.len())) {
                            Result::Err(m) => Result::Err(m),
                            Result::Ok(run) => decode_entries_v(
                                n,
                                entries,
                                i + 1,
                                merge_run_v(child.queries, marked, run, 0),
                            ),
                        }
                    },
                }
            },
            _ => Result::Ok(slots),
        }
    }
}

/// Walks the elements of a sequence under an index node, front to back:
/// an element at a requested position is decoded on a clean slate and
/// merged; every other element is skipped, and the walk drains the whole
/// sequence.
pub open spec fn decode_elems_v(
    n: NodeV,
    vs: Seq<ValueV>,
    i: int,
    slots: Seq<Option<Result<DecodedV, ErrorV>>>,
) -> Result<Seq<Option<Result<DecodedV, ErrorV>>>, Seq<char>>
    decreases n, 0nat, vs.len() - i,
    via decode_elems_v_decreases
{
    if i < 0 || i >= vs.len() {
        Result::Ok(slots)
    } else {
        match n.kind {
            KindV::IndexArray { indices } => {
                match find_index_v(indices, i) {
                    Option::None => decode_elems_v(n, vs, i + 1, slots),
                    Option::Some(child) => match decode_node_v(child, vs[i], fresh_slots_v(slots.len())) {
                        Result::Err(m) => Result::Err(m),
                        Result::Ok(run) => decode_elems_v(
                            n,
                            vs,
                            i + 1,
                            merge_run_v(child.queries, slots, run, 0),
                        ),
                    },
                }
            },
            _ => Result::Ok(slots),
        }
    }
}

/// Walks the elements of a sequence under a collect node: every element is
/// decoded on a clean slate and folded into the per-output containers.
pub open spec fn decode_collect_v(
    n: NodeV,
    vs: Seq<ValueV>,
    i: int,
    accs: Seq<Result<Seq<DecodedV>, ErrorV>>,
    slot_len: nat,
) -> Result<Seq<Result<Seq<DecodedV>, ErrorV>>, Seq<char>>
    decreases n, 0nat, vs.len() - i,
{
    if i < 0 || i >= vs.len() {
        Result::Ok(accs)
    } else {
        match n.kind {
            KindV::CollectArray { child } => match decode_node_v(*child, vs[i], fresh_slots_v(slot_len)) {
                Result::Err(m) => Result::Err(m),
                Result::Ok(run) => decode_collect_v(
                    n,
                    vs,
                    i + 1,
                    step_accs_v(n.queries, run, accs, 0),
                    slot_len,
                ),
            },
            _ => Result::Ok(accs),
        }
    }
}

#[via_fn]
proof fn decode_entries_v_decreases(
    n: NodeV,
    entries: Seq<(Seq<char>, ValueV)>,
    i: int,
    slots: Seq<Option<Result<DecodedV, ErrorV>>>,
) {
    if 0 <= i < entries.len() {
        if let KindV::Field { fields } = n.kind {
            lemma_find_field_decreases(n, fields, entries[i].0);
        }
    }
}

#[via_fn]
proof fn decode_elems_v_decreases(
    n: NodeV,
    vs: Seq<ValueV>,
    i: int,
    slots: Seq<Option<Result<DecodedV, ErrorV>>>,
) {
    if 0 <= i < vs.len() {
        if let KindV::IndexArray { indices } = n.kind {
            lemma_find_index_decreases(n, indices, i);
        }
    }
}

proof fn lemma_find_field_decreases(n: NodeV, fields: Seq<(Seq<char>, NodeV)>, name: Seq<char>)
    requires
        n.kind matches KindV::Field { fields: f } && f == fields,
    ensures
        find_field_v(fields, name) matches Option::Some(c) ==> decreases_to!(n => c),
{
    lemma_find_field_elem(fields, name);
    if let Option::Some(c) = find_field_v(fields, name) {
        let j = choose|j: int| 0 <= j < fields.len() && fields[j].1 == c;
        assert(decreases_to!(fields => fields[j]));
        assert(decreases_to!(n => c));
    }
}

proof fn lemma_find_index_decreases(n: NodeV, indices: Seq<(int, NodeV)>, index: int)
    requires
        n.kind matches KindV::IndexArray { indices: f } && f == indices,
    ensures
        find_index_v(indices, index) matches Option::Some(c) ==> decreases_to!(n => c),
{
    lemma_find_index_elem(indices, index);
    if let Option::Some(c) = find_index_v(indices, index) {
        let j = choose|j: int| 0 <= j < indices.len() && indices[j].1 == c;
        assert(decreases_to!(indices => indices[j]));
        assert(decreases_to!(n => c));
    }
}

/// A found field child is one of the entries of the children list.
pub proof fn lemma_find_field_elem(fields: Seq<(Seq<char>, NodeV)>, name: Seq<char>)
    ensures
        find_field_v(fields, name) matches Option::Some(c) ==> exists|j: int|
            0 <= j < fields.len() && fields[j].1 == c && fields[j].0 == name,
    decreases fields.len(),
{
    if fields.len() > 0 && fields[0].0 != name {
        lemma_find_field_elem(fields.drop_first(), name);
        if let Option::Some(c) = find_field_v(fields.drop_first(), name) {
            let j = choose|j: int|
                0 <= j < fields.drop_first().len() && fields.drop_first()[j].1 == c
                    && fields.drop_first()[j].0 == name;
            assert(fields[j + 1].1 == c && fields[j + 1].0 == name);
        }
    }
}

/// A found index child is one of the entries of the children list.
pub proof fn lemma_find_index_elem(indices: Seq<(int, NodeV)>, index: int)
    ensures
        find_index_v(indices, index) matches Option::Some(c) ==> exists|j: int|
            0 <= j < indices.len() && indices[j].1 == c && indices[j].0 == index,
    decreases indices.len(),
{
    if indices.len() > 0 && indices[0].0 != index {
        lemma_find_index_elem(indices.drop_first(), index);
        if let Option::Some(c) = find_index_v(indices.drop_first(), index) {
            let j = choose|j: int|
                0 <= j < indices.drop_first().len() && indices.drop_first()[j].1 == c
                    && indices.drop_first()[j].0 == index;
            assert(indices[j + 1].1 == c && indices[j + 1].0 == index);
        }
    }
}

/// What a value's shape is called in error messages.
fn value_shape(v: &Value) -> (r: &'static str)
    ensures
        r@ == value_shape_v(v@),
{
    match v {
        Value::Null => "null",
        Value::Bool(_) => "boolean",
        Value::Int(_) => "integer",
        Value::Str(_) => "string",
        Value::Array(_) => "sequence",
        Value::Object(_) => "map",
    }
}

/// What a declared type expects, for error messages.
fn expected_name(ty: &DeclaredType) -> (r: &'static str)
    ensures
        r@ == expected_name_v(*ty),
{
    match ty {
        DeclaredType::Bool => "a boolean",
        DeclaredType::Int => "an integer",
        DeclaredType::Str => "a string",
        DeclaredType::Sequence(_) => "a sequence",
    }
}

/// Builds the `invalid type: <shape>, expected <what>` message.
fn shape_error(v: &Value, expecting: &str) -> (r: String)
    ensures
        r@ =~= shape_err_v(v@, expecting@),
{
    let mut r = String::from_str("invalid type: ");
    r.append(value_shape(v));
    r.append(", expected ");
    r.append(expecting);
    r
}

/// The view of the per-output collect containers.
pub open spec fn accs_v(s: Seq<Result<Vec<Decoded>, Error>>) -> Seq<Result<Seq<DecodedV>, ErrorV>> {
    Seq::new(
        s.len(),
        |i: int|
            match s[i] {
                Result::Ok(ds) => Result::Ok(ds.deep_view()),
                Result::Err(e) => Result::Err(e@),
            },
    )
}

/// A clean slate of output slots.
fn make_fresh(n: usize) -> (r: Vec<Option<Result<Decoded, Error>>>)
    ensures
        slots_v(r@) =~= fresh_slots_v(n as nat),
        r@.len() == n,
{
    let mut r: Vec<Option<Result<Decoded, Error>>> = Vec::new();
    let mut i: usize = 0;
    while i < n
        invariant
            i <= n,
            r@.len() == i,
            forall|j: int| 0 <= j < i ==> #[trigger] r@[j] is None,
        decreases n - i,
    {
        r.push(Option::None);
        i = i + 1;
    }
    r
}

/// Writes one output slot; an out-of-range output index writes nowhere.
fn set_slot(
    slots: &mut Vec<Option<Result<Decoded, Error>>>,
    i: usize,
    x: Option<Result<Decoded, Error>>,
)
    ensures
        slots_v(final(slots)@) =~= set_slot_v(slots_v(old(slots)@), i as int, slot_v(x)),
        final(slots)@.len() == old(slots)@.len(),
{
    if i < slots.len() {
        slots.set(i, x);
    }
}

/// A view-preserving copy of one slot.
fn clone_slot(s: &Option<Result<Decoded, Error>>) -> (r: Option<Result<Decoded, Error>>)
    ensures
        slot_v(r) == slot_v(*s),
{
    match s {
        Option::None => Option::None,
        Option::Some(Result::Ok(d)) => Option::Some(Result::Ok(d.clone())),
        Option::Some(Result::Err(e)) => Option::Some(Result::Err(e.clone())),
    }
}

/// A view-preserving copy of a decoded container.
fn clone_decoded_vec(ds: &Vec<Decoded>) -> (r: Vec<Decoded>)
    ensures
        r.deep_view() =~= ds.deep_view(),
{
    let mut r: Vec<Decoded> = Vec::new();
    let n = ds.len();
    let mut i: usize = 0;
    while i < n
        invariant
            i <= n,
            n == ds@.len(),
            r@.len() == i,
            forall|j: int| 0 <= j < i ==> #[trigger] r@[j]@ == ds@[j]@,
        decreases n - i,
    {
        let d = ds[i].clone();
        r.push(d);
        i = i + 1;
    }
    r
}

/// The position of the child matching a map key, if any.
#[verifier::loop_isolation(false)]
fn find_field_idx(fields: &Vec<(String, Node)>, key: &String) -> (r: Option<usize>)
    ensures
        match r {
            Option::Some(j) => j < fields@.len() && crate::node::find_field_v(
                crate::node::fields_v(fields@),
                key@,
            ) == Option::Some(fields@[j as int].1@),
            Option::None => crate::node::find_field_v(crate::node::fields_v(fields@), key@)
                is None,
        },
{
    let ghost fv = crate::node::fields_v(fields@);
    let n = fields.len();
    let mut i: usize = 0;
    proof {
        assert(fv.skip(0) =~= fv);
    }
    while i < n
        invariant
            i <= n,
            find_field_v(fv, key@) == find_field_v(fv.skip(i as int), key@),
        decreases n - i,
    {
        proof {
            assert(fv.skip(i as int)[0] == fv[i as int]);
            assert(fv.skip(i as int).drop_first() =~= fv.skip(i + 1));
        }
        if key.eq(&fields[i].0) {
            return Option::Some(i);
        }
        i = i + 1;
    }
    proof {
        assert(fv.skip(n as int) =~= Seq::<(Seq<char>, NodeV)>::empty());
    }
    Option::None
}

/// The position of the child matching a sequence position, if any.
#[verifier::loop_isolation(false)]
fn find_index_idx(indices: &Vec<(usize, Node)>, pos: usize) -> (r: Option<usize>)
    ensures
        match r {
            Option::Some(j) => j < indices@.len() && crate::node::find_index_v(
                crate::node::indices_v(indices@),
                pos as int,
            ) == Option::Some(indices@[j as int].1@),
            Option::None => crate::node::find_index_v(crate::node::indices_v(indices@), pos as int)
                is None,
        },
{
    let ghost iv = crate::node::indices_v(indices@);
    let n = indices.len();
    let mut i: usize = 0;
    proof {
        assert(iv.skip(0) =~= iv);
    }
    while i < n
        invariant
            i <= n,
            find_index_v(iv, pos as int) == find_index_v(iv.skip(i as int), pos as int),
        decreases n - i,
    {
        proof {
            assert(iv.skip(i as int)[0] == iv[i as int]);
            assert(iv.skip(i as int).drop_first() =~= iv.skip(i + 1));
        }
        if indices[i].0 == pos {
            return Option::Some(i);
        }
        i = i + 1;
    }
    proof {
        assert(iv.skip(n as int) =~= Seq::<(int, NodeV)>::empty());
    }
    Option::None
}

/// Builds `one of the following fields: 'a', or 'b'`.
#[verifier::loop_isolation(false)]
fn fields_expecting(fields: &Vec<(String, Node)>) -> (r: String)
    ensures
        r@ =~= fields_expecting_v(crate::node::fields_v(fields@)),
{
    let ghost fv = crate::node::fields_v(fields@);
    let mut r = String::from_str("one of the following fields: ");
    let n = fields.len();
    let mut i: usize = 0;
    while i < n
        invariant
            i <= n,
            r@ + field_names_from_v(fv, i as int) =~= "one of the following fields: "@
                + field_names_from_v(fv, 0),
        decreases n - i,
    {
        r.append("'");
        r.append(fields[i].0.as_str());
        r.append("'");
        if i + 1 < n {
            r.append(", or ");
        }
        i = i + 1;
    }
    r
}

/// Builds `a sequence with at least N elements` for the largest requested
/// index.
fn indices_expecting(indices: &Vec<(usize, Node)>) -> (r: String)
    ensures
        r@ =~= indices_expecting_v(crate::node::indices_v(indices@)),
{
    let mut r = String::from_str("a sequence with at least ");
    let max: u128 = if indices.len() > 0 {
        indices[indices.len() - 1].0 as u128
    } else {
        0
    };
    let num = crate::text::u128_to_string(max + 1);
    r.append(num.as_str());
    r.append(" elements");
    r
}

/// Builds `missing field '<name>'`.
fn missing_field_msg(name: &str) -> (r: String)
    ensures
        r@ =~= missing_field_msg_v(name@),
{
    let mut r = String::from_str("missing field '");
    r.append(name);
    r.append("'");
    r
}

/// Builds `duplicated field '<name>'`.
fn dup_field_msg(name: &str) -> (r: String)
    ensures
        r@ =~= dup_field_msg_v(name@),
{
    let mut r = String::from_str("duplicated field '");
    r.append(name);
    r.append("'");
    r
}

/// Builds `the sequence must have at least N elements`.
fn seq_short_msg(index: usize) -> (r: String)
    ensures
        r@ =~= seq_short_msg_v(index as int),
{
    let mut r = String::from_str("the sequence must have at least ");
    let num = crate::text::u128_to_string(index as u128 + 1);
    r.append(num.as_str());
    r.append(" elements");
    r
}

/// Decodes a document position directly into a declared type.
#[verifier::loop_isolation(false)]
pub fn decode_leaf(ty: &DeclaredType, v: &Value) -> (r: Result<Decoded, String>)
    ensures
        match r {
            Result::Ok(d) => decode_leaf_v(*ty, v@) == Result::<DecodedV, Seq<char>>::Ok(d@),
            Result::Err(m) => decode_leaf_v(*ty, v@) == Result::<DecodedV, Seq<char>>::Err(m@),
        },
    decreases *v,
{
    match v {
        Value::Bool(b) => match ty {
            DeclaredType::Bool => Result::Ok(Decoded::Bool(*b)),
            _ => Result::Err(shape_error(v, expected_name(ty))),
        },
        Value::Int(i) => match ty {
            DeclaredType::Int => Result::Ok(Decoded::Int(*i)),
            _ => Result::Err(shape_error(v, expected_name(ty))),
        },
        Value::Str(s) => match ty {
            DeclaredType::Str => Result::Ok(Decoded::Str(s.clone())),
            _ => Result::Err(shape_error(v, expected_name(ty))),
        },
        Value::Array(vs) => match ty {
            DeclaredType::Sequence(elem) => {
                let ghost vsv = v@->Array_0;
                let mut ds: Vec<Decoded> = Vec::new();
                let n = vs.len();
                let mut i: usize = 0;
                while i < n
                    invariant
                        i <= n,
                        n == vs@.len(),
                        v@ == ValueV::Array(vsv),
                        vsv.len() == n,
                        forall|j: int| 0 <= j < n ==> vsv[j] == #[trigger] vs@[j]@,
                        decode_leaf_seq_v(**elem, vsv, 0) matches Result::Ok(all) ==> (
                        decode_leaf_seq_v(**elem, vsv, i as int) matches Result::Ok(rest) && all
                            =~= ds.deep_view() + rest),
                        decode_leaf_seq_v(**elem, vsv, 0) is Err ==> decode_leaf_seq_v(
                            **elem,
                            vsv,
                            i as int,
                        ) == decode_leaf_seq_v(**elem, vsv, 0),
                    decreases n - i,
                {
                    let ghost pre = ds.deep_view();
                    proof {
                        assert(*v matches Value::Array(inner) && inner == *vs);
                        assert(decreases_to!(*v => *vs));
                        assert(decreases_to!(*vs => vs@));
                        assert(decreases_to!(vs@ => vs@[i as int]));
                    }
                    match decode_leaf(elem, &vs[i]) {
                        Result::Ok(d) => {
                            let ghost dv = d@;
                            ds.push(d);
                            proof {
                                assert(ds.deep_view() =~= pre.push(dv));
                            }
                        },
                        Result::Err(m) => {
                            proof {
                                assert(decode_leaf_seq_v(**elem, vsv, i as int) == Result::<
                                    Seq<DecodedV>,
                                    Seq<char>,
                                >::Err(m@));
                                if decode_leaf_seq_v(**elem, vsv, 0) is Ok {
                                    assert(decode_leaf_seq_v(**elem, vsv, i as int) is Ok);
                                }
                                assert(decode_leaf_seq_v(**elem, vsv, 0) == Result::<
                                    Seq<DecodedV>,
                                    Seq<char>,
                                >::Err(m@));
                                assert(*ty == DeclaredType::Sequence(*elem));
                                assert(decode_leaf_v(*ty, v@) == Result::<
                                    DecodedV,
                                    Seq<char>,
                                >::Err(m@));
                            }
                            return Result::Err(m);
                        },
                    }
                    i = i + 1;
                }
                let r = Decoded::Array(ds);
                proof {
                    assert(decode_leaf_seq_v(**elem, vsv, n as int) == Result::<
                        Seq<DecodedV>,
                        Seq<char>,
                    >::Ok(Seq::empty()));
                    if let Result::Ok(all) = decode_leaf_seq_v(**elem, vsv, 0) {
                        assert(r@ matches DecodedV::Array(got) ==> got =~= all);
                    }
                }
                Result::Ok(r)
            },
            _ => Result::Err(shape_error(v, expected_name(ty))),
        },
        Value::Null => Result::Err(shape_error(v, expected_name(ty))),
        Value::Object(_) => Result::Err(shape_error(v, expected_name(ty))),
    }
}


/// Decodes the position directly for every output ending at a leaf node.
#[verifier::loop_isolation(false)]
fn decode_accept(node: &Node, v: &Value, slots: &mut Vec<Option<Result<Decoded, Error>>>)
    ensures
        slots_v(final(slots)@) == accept_all_v(
            node@.queries,
            node@.prefix,
            v@,
            slots_v(old(slots)@),
            0,
        ),
        final(slots)@.len() == old(slots)@.len(),
{
    let ghost nv = node@;
    let ghost slots0 = slots_v(slots@);
    let ghost len0 = slots@.len();
    let nq = node.queries.len();
    let mut k: usize = 0;
    while k < nq
        invariant
            k <= nq,
            slots@.len() == len0,
            accept_all_v(nv.queries, nv.prefix, v@, slots0, 0) == accept_all_v(
                nv.queries,
                nv.prefix,
                v@,
                slots_v(slots@),
                k as int,
            ),
        decreases nq - k,
    {
        let qname = node.queries[k].0.name.clone();
        let qindex = node.queries[k].0.index;
        let outcome = match decode_leaf(&node.queries[k].1, v) {
            Result::Ok(d) => Result::Ok(d),
            Result::Err(m) => Result::Err(Error::new(qname, node.prefix.clone(), m)),
        };
        proof {
            assert(nv.queries[k as int] == (node.queries@[k as int].0@, node.queries@[k as int].1));
        }
        set_slot(slots, qindex, Option::Some(outcome));
        k = k + 1;
    }
}

/// Walks the entries of a map under a field node, decoding matched entries
/// and skipping the rest.
#[verifier::loop_isolation(false)]
fn decode_field_entries(
    node: &Node,
    entries: &Vec<(String, Value)>,
    slots: &mut Vec<Option<Result<Decoded, Error>>>,
) -> (r: Result<(), String>)
    requires
        node@.kind is Field,
    ensures
        final(slots)@.len() == old(slots)@.len(),
        match r {
            Result::Ok(_) => decode_entries_v(
                node@,
                crate::value::entries_v(entries@),
                0,
                slots_v(old(slots)@),
            ) == Result::<Seq<Option<Result<DecodedV, ErrorV>>>, Seq<char>>::Ok(
                slots_v(final(slots)@),
            ),
            Result::Err(m) => decode_entries_v(
                node@,
                crate::value::entries_v(entries@),
                0,
                slots_v(old(slots)@),
            ) == Result::<Seq<Option<Result<DecodedV, ErrorV>>>, Seq<char>>::Err(m@),
        },
    decreases *node, 0nat,
{
    let ghost nv = node@;
    let ghost slots0 = slots_v(slots@);
    let ghost len0 = slots@.len();
    let ghost entriesv = crate::value::entries_v(entries@);
    let fields = match &node.kind {
        NodeKind::Field { fields } => fields,
        _ => {
            proof {
                assert(false);
            }
            return Result::Ok(());
        },
    };
    let ne = entries.len();
    let mut i: usize = 0;
    while i < ne
        invariant
            i <= ne,
            slots@.len() == len0,
            decode_entries_v(nv, entriesv, 0, slots0) == decode_entries_v(
                nv,
                entriesv,
                i as int,
                slots_v(slots@),
            ),
        decreases ne - i,
    {
        let ghost pre = slots_v(slots@);
        let key = &entries[i].0;
        proof {
            assert(entriesv[i as int] == (entries@[i as int].0@, entries@[i as int].1@));
        }
        match find_field_idx(fields, key) {
            Option::None => {},
            Option::Some(j) => {
                let child = &fields[j].1;
                let ghost childv = child@;
                proof {
                    assert(crate::node::fields_v(fields@)[j as int] == (fields@[j as int].0@,
                    fields@[j as int].1@));
                }
                // mark repeated keys whose outputs already hold a value
                let ncq = child.queries.len();
                let mut k: usize = 0;
                while k < ncq
                    invariant
                        k <= ncq,
                        slots@.len() == len0,
                        mark_dups_v(childv.queries, key@, nv.prefix, pre, 0) == mark_dups_v(
                            childv.queries,
                            key@,
                            nv.prefix,
                            slots_v(slots@),
                            k as int,
                        ),
                    decreases ncq - k,
                {
                    let qname = child.queries[k].0.name.clone();
                    let qindex = child.queries[k].0.index;
                    proof {
                        assert(childv.queries[k as int] == (child.queries@[k as int].0@,
                        child.queries@[k as int].1));
                    }
                    let mut is_ok = false;
                    if qindex < slots.len() {
                        match &slots[qindex] {
                            Option::Some(Result::Ok(_)) => {
                                is_ok = true;
                            },
                            _ => {},
                        }
                    }
                    if is_ok {
                        let e = Error::new(qname, node.prefix.clone(), dup_field_msg(key.as_str()));
                        set_slot(slots, qindex, Option::Some(Result::Err(e)));
                    }
                    k = k + 1;
                }
                let ghost marked = slots_v(slots@);
                // decode the entry's value on a clean slate
                let mut fresh = make_fresh(slots.len());
                proof {
                    assert(decreases_to!(*node => node.kind));
                    assert(decreases_to!(node.kind => *fields));
                    assert(decreases_to!(*fields => fields@));
                    assert(decreases_to!(fields@ => fields@[j as int]));
                }
                match decode_node(child, &entries[i].1, &mut fresh) {
                    Result::Err(m) => {
                        proof {
                            assert(decode_entries_v(nv, entriesv, i as int, pre) == Result::<
                                Seq<Option<Result<DecodedV, ErrorV>>>,
                                Seq<char>,
                            >::Err(m@));
                        }
                        return Result::Err(m);
                    },
                    Result::Ok(_) => {
                        let ghost runv = slots_v(fresh@);
                        // carry fresh results into empty slots
                        let mut k: usize = 0;
                        while k < ncq
                            invariant
                                k <= ncq,
                                slots@.len() == len0,
                                fresh@.len() == len0,
                                slots_v(fresh@) == runv,
                                merge_run_v(childv.queries, marked, runv, 0) == merge_run_v(
                                    childv.queries,
                                    slots_v(slots@),
                                    runv,
                                    k as int,
                                ),
                            decreases ncq - k,
                        {
                            let qindex = child.queries[k].0.index;
                            proof {
                                assert(childv.queries[k as int] == (child.queries@[k as int].0@,
                                child.queries@[k as int].1));
                            }
                            let mut is_none = false;
                            if qindex < slots.len() {
                                match &slots[qindex] {
                                    Option::None => {
                                        is_none = true;
                                    },
                                    _ => {},
                                }
                            }
                            if is_none {
                                let x = clone_slot(&fresh[qindex]);
                                set_slot(slots, qindex, x);
                            }
                            k = k + 1;
                        }
                    },
                }
            },
        }
        i = i + 1;
    }
    Result::Ok(())
}

/// Fills `missing field` errors for every child output that never received
/// a value.
#[verifier::loop_isolation(false)]
fn fill_missing_fields(
    node: &Node,
    fields: &Vec<(String, Node)>,
    slots: &mut Vec<Option<Result<Decoded, Error>>>,
)
    ensures
        slots_v(final(slots)@) == fill_missing_fields_v(
            crate::node::fields_v(fields@),
            node@.prefix,
            slots_v(old(slots)@),
            0,
        ),
        final(slots)@.len() == old(slots)@.len(),
{
    let ghost nv = node@;
    let ghost len0 = slots@.len();
    let ghost fieldsv = crate::node::fields_v(fields@);
    let ghost walked = slots_v(slots@);
    let nf = fields.len();
    let mut jj: usize = 0;
    while jj < nf
        invariant
            jj <= nf,
            slots@.len() == len0,
            fill_missing_fields_v(fieldsv, nv.prefix, walked, 0) == fill_missing_fields_v(
                fieldsv,
                nv.prefix,
                slots_v(slots@),
                jj as int,
            ),
        decreases nf - jj,
    {
        let ghost prej = slots_v(slots@);
        let child = &fields[jj].1;
        let ghost childv = child@;
        proof {
            assert(fieldsv[jj as int] == (fields@[jj as int].0@, fields@[jj as int].1@));
        }
        let ncq = child.queries.len();
        let mut k: usize = 0;
        while k < ncq
            invariant
                k <= ncq,
                slots@.len() == len0,
                fill_missing_child_v(fieldsv[jj as int].0, childv.queries, nv.prefix, prej, 0)
                    == fill_missing_child_v(
                    fieldsv[jj as int].0,
                    childv.queries,
                    nv.prefix,
                    slots_v(slots@),
                    k as int,
                ),
            decreases ncq - k,
        {
            let qname = child.queries[k].0.name.clone();
            let qindex = child.queries[k].0.index;
            proof {
                assert(childv.queries[k as int] == (child.queries@[k as int].0@,
                child.queries@[k as int].1));
            }
            let mut is_none = false;
            if qindex < slots.len() {
                match &slots[qindex] {
                    Option::None => {
                        is_none = true;
                    },
                    _ => {},
                }
            }
            if is_none {
                let e = Error::new(
                    qname,
                    node.prefix.clone(),
                    missing_field_msg(fields[jj].0.as_str()),
                );
                set_slot(slots, qindex, Option::Some(Result::Err(e)));
            }
            k = k + 1;
        }
        jj = jj + 1;
    }
}

/// Walks the elements of a sequence under an index node, decoding the
/// requested positions and skipping the rest.
#[verifier::loop_isolation(false)]
fn decode_index_elems(
    node: &Node,
    vs: &Vec<Value>,
    slots: &mut Vec<Option<Result<Decoded, Error>>>,
) -> (r: Result<(), String>)
    requires
        node@.kind is IndexArray,
    ensures
        final(slots)@.len() == old(slots)@.len(),
        match r {
            Result::Ok(_) => decode_elems_v(
                node@,
                crate::value::values_v(vs@),
                0,
                slots_v(old(slots)@),
            ) == Result::<Seq<Option<Result<DecodedV, ErrorV>>>, Seq<char>>::Ok(
                slots_v(final(slots)@),
            ),
            Result::Err(m) => decode_elems_v(
                node@,
                crate::value::values_v(vs@),
                0,
                slots_v(old(slots)@),
            ) == Result::<Seq<Option<Result<DecodedV, ErrorV>>>, Seq<char>>::Err(m@),
        },
    decreases *node, 0nat,
{
    let ghost nv = node@;
    let ghost slots0 = slots_v(slots@);
    let ghost len0 = slots@.len();
    let ghost vsv = crate::value::values_v(vs@);
    let indices = match &node.kind {
        NodeKind::IndexArray { indices } => indices,
        _ => {
            proof {
                assert(false);
            }
            return Result::Ok(());
        },
    };
    let ne = vs.len();
    let mut i: usize = 0;
    while i < ne
        invariant
            i <= ne,
            slots@.len() == len0,
            decode_elems_v(nv, vsv, 0, slots0) == decode_elems_v(
                nv,
                vsv,
                i as int,
                slots_v(slots@),
            ),
        decreases ne - i,
    {
        let ghost pre = slots_v(slots@);
        proof {
            assert(vsv[i as int] == vs@[i as int]@);
        }
        match find_index_idx(indices, i) {
            Option::None => {},
            Option::Some(j) => {
                let child = &indices[j].1;
                let ghost childv = child@;
                proof {
                    assert(crate::node::indices_v(indices@)[j as int] == (
                    indices@[j as int].0 as int, indices@[j as int].1@));
                }
                let mut fresh = make_fresh(slots.len());
                proof {
                    assert(decreases_to!(*node => node.kind));
                    assert(decreases_to!(node.kind => *indices));
                    assert(decreases_to!(*indices => indices@));
                    assert(decreases_to!(indices@ => indices@[j as int]));
                }
                match decode_node(child, &vs[i], &mut fresh) {
                    Result::Err(m) => {
                        proof {
                            assert(decode_elems_v(nv, vsv, i as int, pre) == Result::<
                                Seq<Option<Result<DecodedV, ErrorV>>>,
                                Seq<char>,
                            >::Err(m@));
                        }
                        return Result::Err(m);
                    },
                    Result::Ok(_) => {
                        let ghost runv = slots_v(fresh@);
                        let ncq = child.queries.len();
                        let mut k: usize = 0;
                        while k < ncq
                            invariant
                                k <= ncq,
                                slots@.len() == len0,
                                fresh@.len() == len0,
                                slots_v(fresh@) == runv,
                                merge_run_v(childv.queries, pre, runv, 0) == merge_run_v(
                                    childv.queries,
                                    slots_v(slots@),
                                    runv,
                                    k as int,
                                ),
                            decreases ncq - k,
                        {
                            let qindex = child.queries[k].0.index;
                            proof {
                                assert(childv.queries[k as int] == (child.queries@[k as int].0@,
                                child.queries@[k as int].1));
                            }
                            let mut is_none = false;
                            if qindex < slots.len() {
                                match &slots[qindex] {
                                    Option::None => {
                                        is_none = true;
                                    },
                                    _ => {},
                                }
                            }
                            if is_none {
                                let x = clone_slot(&fresh[qindex]);
                                set_slot(slots, qindex, x);
                            }
                            k = k + 1;
                        }
                    },
                }
            },
        }
        i = i + 1;
    }
    Result::Ok(())
}

/// Fills sequence-too-short errors for every index output the sequence
/// never reached.
#[verifier::loop_isolation(false)]
fn fill_missing_indices(
    node: &Node,
    indices: &Vec<(usize, Node)>,
    slots: &mut Vec<Option<Result<Decoded, Error>>>,
)
    ensures
        slots_v(final(slots)@) == fill_missing_indices_v(
            crate::node::indices_v(indices@),
            node@.prefix,
            slots_v(old(slots)@),
            0,
        ),
        final(slots)@.len() == old(slots)@.len(),
{
    let ghost nv = node@;
    let ghost len0 = slots@.len();
    let ghost indicesv = crate::node::indices_v(indices@);
    let ghost walked = slots_v(slots@);
    let nf = indices.len();
    let mut jj: usize = 0;
    while jj < nf
        invariant
            jj <= nf,
            slots@.len() == len0,
            fill_missing_indices_v(indicesv, nv.prefix, walked, 0) == fill_missing_indices_v(
                indicesv,
                nv.prefix,
                slots_v(slots@),
                jj as int,
            ),
        decreases nf - jj,
    {
        let ghost prej = slots_v(slots@);
        let child = &indices[jj].1;
        let ghost childv = child@;
        proof {
            assert(indicesv[jj as int] == (indices@[jj as int].0 as int, indices@[jj as int].1@));
        }
        let ncq = child.queries.len();
        let mut k: usize = 0;
        while k < ncq
            invariant
                k <= ncq,
                slots@.len() == len0,
                fill_missing_index_child_v(
                    indicesv[jj as int].0,
                    childv.queries,
                    nv.prefix,
                    prej,
                    0,
                ) == fill_missing_index_child_v(
                    indicesv[jj as int].0,
                    childv.queries,
                    nv.prefix,
                    slots_v(slots@),
                    k as int,
                ),
            decreases ncq - k,
        {
            let qname = child.queries[k].0.name.clone();
            let qindex = child.queries[k].0.index;
            proof {
                assert(childv.queries[k as int] == (child.queries@[k as int].0@,
                child.queries@[k as int].1));
            }
            let mut is_none = false;
            if qindex < slots.len() {
                match &slots[qindex] {
                    Option::None => {
                        is_none = true;
                    },
                    _ => {},
                }
            }
            if is_none {
                let e = Error::new(qname, node.prefix.clone(), seq_short_msg(indices[jj].0));
                set_slot(slots, qindex, Option::Some(Result::Err(e)));
            }
            k = k + 1;
        }
        jj = jj + 1;
    }
}

/// Walks the elements of a sequence under a collect node, folding one
/// result per element into every output's container, then writes the
/// finished containers into the slots.
#[verifier::loop_isolation(false)]
fn decode_collect_elems(
    node: &Node,
    vs: &Vec<Value>,
    slots: &mut Vec<Option<Result<Decoded, Error>>>,
) -> (r: Result<(), String>)
    requires
        node@.kind is CollectArray,
    ensures
        final(slots)@.len() == old(slots)@.len(),
        match r {
            Result::Ok(_) => decode_collect_v(
                node@,
                crate::value::values_v(vs@),
                0,
                init_accs_v(node@.queries.len()),
                old(slots)@.len() as nat,
            ) matches Result::Ok(accs) && slots_v(final(slots)@) == write_accs_v(
                node@.queries,
                accs,
                slots_v(old(slots)@),
                0,
            ),
            Result::Err(m) => decode_collect_v(
                node@,
                crate::value::values_v(vs@),
                0,
                init_accs_v(node@.queries.len()),
                old(slots)@.len() as nat,
            ) == Result::<Seq<Result<Seq<DecodedV>, ErrorV>>, Seq<char>>::Err(m@),
        },
    decreases *node, 0nat,
{
    let ghost nv = node@;
    let ghost slots0 = slots_v(slots@);
    let ghost len0 = slots@.len();
    let ghost vsv = crate::value::values_v(vs@);
    let child = match &node.kind {
        NodeKind::CollectArray { child } => child,
        _ => {
            proof {
                assert(false);
            }
            return Result::Err(String::new());
        },
    };
    let nq = node.queries.len();
    // one empty container per output
    let mut accs: Vec<Result<Vec<Decoded>, Error>> = Vec::new();
    let mut k: usize = 0;
    while k < nq
        invariant
            k <= nq,
            accs@.len() == k,
            forall|j: int|
                0 <= j < k ==> (#[trigger] accs@[j] matches Result::Ok(ds) && ds@.len() == 0),
        decreases nq - k,
    {
        accs.push(Result::Ok(Vec::new()));
        k = k + 1;
    }
    proof {
        assert forall|j: int| 0 <= j < accs@.len() implies accs_v(accs@)[j] == init_accs_v(
            nv.queries.len(),
        )[j] by {
            if let Result::Ok(ds) = accs@[j] {
                assert(ds.deep_view() =~= Seq::<DecodedV>::empty());
            }
        }
        assert(accs_v(accs@) =~= init_accs_v(nv.queries.len()));
    }
    let ne = vs.len();
    let mut i: usize = 0;
    while i < ne
        invariant
            i <= ne,
            slots@.len() == len0,
            accs@.len() == nq,
            decode_collect_v(nv, vsv, 0, init_accs_v(nv.queries.len()), len0 as nat)
                == decode_collect_v(nv, vsv, i as int, accs_v(accs@), len0 as nat),
        decreases ne - i,
    {
        let ghost prea = accs_v(accs@);
        proof {
            assert(vsv[i as int] == vs@[i as int]@);
        }
        let mut fresh = make_fresh(slots.len());
        proof {
            assert(decreases_to!(*node => node.kind));
            assert(decreases_to!(node.kind => *child));
        }
        match decode_node(child, &vs[i], &mut fresh) {
            Result::Err(m) => {
                proof {
                    assert(decode_collect_v(nv, vsv, i as int, prea, len0 as nat) == Result::<
                        Seq<Result<Seq<DecodedV>, ErrorV>>,
                        Seq<char>,
                    >::Err(m@));
                }
                return Result::Err(m);
            },
            Result::Ok(_) => {
                let ghost runv = slots_v(fresh@);
                // fold this element into the containers
                let mut new_accs: Vec<Result<Vec<Decoded>, Error>> = Vec::new();
                let mut k: usize = 0;
                proof {
                    assert(accs_v(new_accs@) + prea.skip(0) =~= prea);
                }
                while k < nq
                    invariant
                        k <= nq,
                        new_accs@.len() == k,
                        accs@.len() == nq,
                        fresh@.len() == len0,
                        slots_v(fresh@) == runv,
                        accs_v(accs@) == prea,
                        prea.len() == nq,
                        step_accs_v(nv.queries, runv, prea, 0) == step_accs_v(
                            nv.queries,
                            runv,
                            accs_v(new_accs@) + prea.skip(k as int),
                            k as int,
                        ),
                    decreases nq - k,
                {
                    let ghost combined = accs_v(new_accs@) + prea.skip(k as int);
                    let ghost new_pre = accs_v(new_accs@);
                    let qindex = node.queries[k].0.index;
                    proof {
                        assert(nv.queries[k as int] == (node.queries@[k as int].0@,
                        node.queries@[k as int].1));
                        assert(combined[k as int] == prea[k as int]);
                    }
                    let next: Result<Vec<Decoded>, Error> = match &accs[k] {
                        Result::Err(e) => Result::Err(e.clone()),
                        Result::Ok(ds) => {
                            let mut got: Option<Result<Decoded, Error>> = Option::None;
                            if qindex < fresh.len() {
                                got = clone_slot(&fresh[qindex]);
                            }
                            proof {
                                assert(slot_v(got) == get_slot_v(runv, qindex as int));
                            }
                            match got {
                                Option::Some(Result::Ok(d)) => {
                                    let mut ds2 = clone_decoded_vec(ds);
                                    let ghost dsv = ds2.deep_view();
                                    let ghost dv = d@;
                                    ds2.push(d);
                                    proof {
                                        assert(ds2.deep_view() =~= dsv.push(dv));
                                    }
                                    Result::Ok(ds2)
                                },
                                Option::Some(Result::Err(e)) => Result::Err(e),
                                Option::None => Result::Ok(clone_decoded_vec(ds)),
                            }
                        },
                    };
                    new_accs.push(next);
                    proof {
                        assert(accs_v(new_accs@) =~= new_pre.push(accs_v(new_accs@)[k as int]));
                        assert(accs_v(new_accs@) + prea.skip(k + 1) =~= combined.update(
                            k as int,
                            accs_v(new_accs@)[k as int],
                        ));
                    }
                    k = k + 1;
                }
                accs = new_accs;
                proof {
                    assert(accs_v(accs@) + prea.skip(nq as int) =~= accs_v(accs@));
                }
            },
        }
        i = i + 1;
    }
    // the finished containers become the outputs' results
    let ghost accs_done = accs_v(accs@);
    let mut k: usize = 0;
    while k < nq
        invariant
            k <= nq,
            slots@.len() == len0,
            accs@.len() == nq,
            accs_v(accs@) == accs_done,
            write_accs_v(nv.queries, accs_done, slots0, 0) == write_accs_v(
                nv.queries,
                accs_done,
                slots_v(slots@),
                k as int,
            ),
        decreases nq - k,
    {
        let qindex = node.queries[k].0.index;
        proof {
            assert(nv.queries[k as int] == (node.queries@[k as int].0@, node.queries@[k as int].1));
        }
        let out: Result<Decoded, Error> = match &accs[k] {
            Result::Ok(ds) => Result::Ok(Decoded::Array(clone_decoded_vec(ds))),
            Result::Err(e) => Result::Err(e.clone()),
        };
        proof {
            match accs_done[k as int] {
                Result::Ok(dsv) => {
                    if let Result::Ok(d) = &out {
                        if let DecodedV::Array(got) = d@ {
                            assert(got =~= dsv);
                        }
                    }
                },
                Result::Err(_) => {},
            }
        }
        set_slot(slots, qindex, Option::Some(out));
        k = k + 1;
    }
    Result::Ok(())
}

/// Executes the plan at one node against one document position, writing
/// each output's result into its slot.  On success the slots are exactly
/// what the automaton semantics assigns; a document whose shape does not
/// fit an inner node aborts with that structural message instead.
pub fn decode_node(
    node: &Node,
    v: &Value,
    slots: &mut Vec<Option<Result<Decoded, Error>>>,
) -> (r: Result<(), String>)
    ensures
        match r {
            Result::Ok(_) => decode_node_v(node@, v@, slots_v(old(slots)@)) == Result::<
                Seq<Option<Result<DecodedV, ErrorV>>>,
                Seq<char>,
            >::Ok(slots_v(final(slots)@)),
            Result::Err(m) => decode_node_v(node@, v@, slots_v(old(slots)@)) == Result::<
                Seq<Option<Result<DecodedV, ErrorV>>>,
                Seq<char>,
            >::Err(m@),
        },
        final(slots)@.len() == old(slots)@.len(),
    decreases *node, 1nat,
{
    let ghost nv = node@;
    let ghost slots0 = slots_v(slots@);
    match &node.kind {
        NodeKind::Unset => Result::Ok(()),
        NodeKind::Accept => {
            decode_accept(node, v, slots);
            Result::Ok(())
        },
        NodeKind::Field { fields } => match v {
            Value::Object(entries) => match decode_field_entries(node, entries, slots) {
                Result::Err(m) => Result::Err(m),
                Result::Ok(_) => {
                    fill_missing_fields(node, fields, slots);
                    proof {
                        assert(decode_node_v(nv, v@, slots0) == Result::<
                            Seq<Option<Result<DecodedV, ErrorV>>>,
                            Seq<char>,
                        >::Ok(slots_v(slots@)));
                    }
                    Result::Ok(())
                },
            },
            _ => {
                let expecting = fields_expecting(fields);
                Result::Err(shape_error(v, expecting.as_str()))
            },
        },
        NodeKind::IndexArray { indices } => match v {
            Value::Array(vs) => match decode_index_elems(node, vs, slots) {
                Result::Err(m) => Result::Err(m),
                Result::Ok(_) => {
                    fill_missing_indices(node, indices, slots);
                    proof {
                        assert(decode_node_v(nv, v@, slots0) == Result::<
                            Seq<Option<Result<DecodedV, ErrorV>>>,
                            Seq<char>,
                        >::Ok(slots_v(slots@)));
                    }
                    Result::Ok(())
                },
            },
            _ => {
                let expecting = indices_expecting(indices);
                Result::Err(shape_error(v, expecting.as_str()))
            },
        },
        NodeKind::CollectArray { child: _ } => match v {
            Value::Array(vs) => match decode_collect_elems(node, vs, slots) {
                Result::Err(m) => Result::Err(m),
                Result::Ok(_) => {
                    proof {
                        assert(decode_node_v(nv, v@, slots0) == Result::<
                            Seq<Option<Result<DecodedV, ErrorV>>>,
                            Seq<char>,
                        >::Ok(slots_v(slots@)));
                    }
                    Result::Ok(())
                },
            },
            _ => Result::Err(shape_error(v, "a sequence")),
        },
    }
}


/// How one whole decode call can fail: the document's shape did not fit
/// the plan at all, or one or more output fields failed individually.
#[derive(Debug)]
pub enum DecodeError {
    /// An unrecoverable structural error: the document does not fit an
    /// inner node of the plan.  Nothing is aggregated.
    Document(String),
    /// Per-field failures, aggregated over all outputs.
    Queries(Errors),
}

/// The mathematical image of a [`DecodeError`].
pub enum RunErrorV {
    Document(Seq<char>),
    Queries(Seq<Option<ErrorV>>),
}

/// The view of the per-field outcome list.
pub open spec fn opts_v(s: Seq<Option<Error>>) -> Seq<Option<ErrorV>> {
    Seq::new(
        s.len(),
        |i: int|
            match s[i] {
                Option::Some(e) => Option::Some(e@),
                Option::None => Option::None,
            },
    )
}

impl View for DecodeError {
    type V = RunErrorV;

    open spec fn view(&self) -> RunErrorV {
        match self {
            DecodeError::Document(m) => RunErrorV::Document(m@),
            DecodeError::Queries(es) => RunErrorV::Queries(opts_v(es.errors@)),
        }
    }
}

/// The error reported for an output whose slot was never written; it
/// cannot arise from a tree the compiler built.
pub open spec fn no_value_error_v(qid: QueryIdV) -> ErrorV {
    ErrorV { field: qid.name, prefix: "."@, message: "no value was produced for this field"@ }
}

/// One output's final outcome, read from its slot.
pub open spec fn slot_outcome_v(
    slots: Seq<Option<Result<DecodedV, ErrorV>>>,
    qid: QueryIdV,
) -> Result<DecodedV, ErrorV> {
    match get_slot_v(slots, qid.index) {
        Option::Some(r) => r,
        Option::None => Result::Err(no_value_error_v(qid)),
    }
}

/// The final outcomes of all outputs, in the root's query order.
pub open spec fn outcomes_v(
    queries: Seq<(QueryIdV, DeclaredType)>,
    slots: Seq<Option<Result<DecodedV, ErrorV>>>,
) -> Seq<Result<DecodedV, ErrorV>> {
    Seq::new(queries.len(), |k: int| slot_outcome_v(slots, queries[k].0))
}

/// Every output resolved to a value.
pub open spec fn all_ok_v(outs: Seq<Result<DecodedV, ErrorV>>) -> bool {
    forall|k: int| 0 <= k < outs.len() ==> (#[trigger] outs[k]) is Ok
}

/// One whole decode call: run the plan from the root on empty slots; if
/// every output resolved, the values in query order, otherwise either the
/// structural error or all per-field failures.
pub open spec fn run_v(n: NodeV, v: ValueV) -> Result<Seq<DecodedV>, RunErrorV> {
    match decode_node_v(n, v, fresh_slots_v(n.queries.len())) {
        Result::Err(m) => Result::Err(RunErrorV::Document(m)),
        Result::Ok(slots) => {
            let outs = outcomes_v(n.queries, slots);
            if all_ok_v(outs) {
                Result::Ok(Seq::new(outs.len(), |k: int| outs[k]->Ok_0))
            } else {
                Result::Err(
                    RunErrorV::Queries(
                        Seq::new(
                            outs.len(),
                            |k: int|
                                match outs[k] {
                                    Result::Ok(_) => Option::None,
                                    Result::Err(e) => Option::Some(e),
                                },
                        ),
                    ),
                )
            }
        },
    }
}

/// Reads one output's final outcome out of the slots.
fn outcome_of(
    slots: &Vec<Option<Result<Decoded, Error>>>,
    qid: &crate::query::QueryId,
) -> (r: Result<Decoded, Error>)
    ensures
        match r {
            Result::Ok(d) => slot_outcome_v(slots_v(slots@), qid@) == Result::<
                DecodedV,
                ErrorV,
            >::Ok(d@),
            Result::Err(e) => slot_outcome_v(slots_v(slots@), qid@) == Result::<
                DecodedV,
                ErrorV,
            >::Err(e@),
        },
{
    if qid.index < slots.len() {
        match &slots[qid.index] {
            Option::Some(Result::Ok(d)) => Result::Ok(d.clone()),
            Option::Some(Result::Err(e)) => Result::Err(e.clone()),
            Option::None => Result::Err(
                Error::new(
                    qid.name.clone(),
                    String::from_str("."),
                    String::from_str("no value was produced for this field"),
                ),
            ),
        }
    } else {
        Result::Err(
            Error::new(
                qid.name.clone(),
                String::from_str("."),
                String::from_str("no value was produced for this field"),
            ),
        )
    }
}

impl Node {
    /// Decodes one document with the compiled plan: every output field
    /// either receives its value — returned in ascending output order — or
    /// the call fails, with a structural error if the document does not fit
    /// the plan, and with the aggregated per-field failures otherwise.
    /// Either all outputs succeed and a complete result is produced, or no
    /// partial result is exposed at all.
    #[verifier::loop_isolation(false)]
    pub fn decode(&self, v: &Value) -> (r: Result<Vec<Decoded>, DecodeError>)
        ensures
            match r {
                Result::Ok(ds) => run_v(self@, v@) == Result::<Seq<DecodedV>, RunErrorV>::Ok(
                    ds.deep_view(),
                ),
                Result::Err(e) => run_v(self@, v@) == Result::<Seq<DecodedV>, RunErrorV>::Err(e@),
            },
    {
        let ghost nv = self@;
        let mut slots = make_fresh(self.queries.len());
        match decode_node(self, v, &mut slots) {
            Result::Err(m) => Result::Err(DecodeError::Document(m)),
            Result::Ok(_) => {
                let ghost slotsv = slots_v(slots@);
                let ghost outs = outcomes_v(nv.queries, slotsv);
                let n = self.queries.len();
                let mut values: Vec<Decoded> = Vec::new();
                let mut errs: Vec<Option<Error>> = Vec::new();
                let mut any_err = false;
                let mut k: usize = 0;
                while k < n
                    invariant
                        k <= n,
                        errs@.len() == k,
                        forall|j: int|
                            0 <= j < k ==> opts_v(errs@)[j] == (match outs[j] {
                                Result::Ok(_) => Option::<ErrorV>::None,
                                Result::Err(e) => Option::<ErrorV>::Some(e),
                            }),
                        any_err <==> exists|j: int| 0 <= j < k && !((#[trigger] outs[j]) is Ok),
                        !any_err ==> values@.len() == k,
                        !any_err ==> forall|j: int|
                            0 <= j < k ==> #[trigger] values.deep_view()[j] == outs[j]->Ok_0,
                    decreases n - k,
                {
                    proof {
                        assert(nv.queries[k as int] == (self.queries@[k as int].0@,
                        self.queries@[k as int].1));
                    }
                    let ghost errs_pre = errs@;
                    match outcome_of(&slots, &self.queries[k].0) {
                        Result::Ok(d) => {
                            let ghost dv = d@;
                            let ghost values_pre = values.deep_view();
                            values.push(d);
                            errs.push(Option::None);
                            proof {
                                assert(opts_v(errs@) =~= opts_v(errs_pre).push(
                                    Option::<ErrorV>::None,
                                ));
                                assert(values.deep_view() =~= values_pre.push(dv));
                                assert(outs[k as int] == slot_outcome_v(slotsv, nv.queries[k as int].0));
                                assert((outs[k as int]) is Ok);
                            }
                        },
                        Result::Err(e) => {
                            any_err = true;
                            let ghost ev = e@;
                            errs.push(Option::Some(e));
                            proof {
                                assert(opts_v(errs@) =~= opts_v(errs_pre).push(
                                    Option::<ErrorV>::Some(ev),
                                ));
                                assert(outs[k as int] == slot_outcome_v(slotsv, nv.queries[k as int].0));
                                assert(!((outs[k as int]) is Ok));
                            }
                        },
                    }
                    k = k + 1;
                }
                if any_err {
                    let r = DecodeError::Queries(Errors::new(errs));
                    proof {
                        assert(!all_ok_v(outs));
                        assert(opts_v(errs@) =~= Seq::new(
                            outs.len(),
                            |j: int|
                                match outs[j] {
                                    Result::Ok(_) => Option::<ErrorV>::None,
                                    Result::Err(e) => Option::<ErrorV>::Some(e),
                                },
                        ));
                    }
                    Result::Err(r)
                } else {
                    proof {
                        assert(all_ok_v(outs));
                        assert(values.deep_view() =~= Seq::new(outs.len(), |j: int| outs[j]->Ok_0));
                    }
                    Result::Ok(values)
                }
            },
        }
    }
}

} // verus!
