//! The compiler's front door: from `(output, path string, declared type)`
//! triples to a compiled tree, or to a non-empty list of diagnostics.
//!
//! All diagnostics of a stage are collected before the stage fails, so one
//! pass surfaces every mistake: first every path's grammar violations, then
//! every collect step whose declared type is not a collection, then every
//! shape conflict between queries.

use vstd::prelude::*;

use crate::node::{conflicts_v, from_queries_v, Conflict, ConflictV, Node};
use crate::parse_query::{parse, steps_of, ParseError};
use crate::query::{fold_steps, DeclaredType, FragmentV, Query, QueryFragment, QueryId, QueryIdV, QueryV};
verus! {

/// One reason a query set does not compile.
#[derive(Debug)]
pub enum Diagnostic {
    /// The path string violates the grammar.
    Parse { id: QueryId, error: ParseError },
    /// A `.[]` step was declared with a type that is not a collection, so
    /// there is no element type to carry to the child.
    NotCollection { id: QueryId },
    /// Two queries require different shapes at the same prefix.
    Conflict(Conflict),
}

/// Whether every collect step of the fragment finds a collection in the
/// declared type, unwrapping one element layer per step.
pub open spec fn collects_ok_v(f: FragmentV, ty: DeclaredType) -> bool
    decreases f,
{
    match f {
        FragmentV::Accept => true,
        FragmentV::Field { rest, .. } => collects_ok_v(*rest, ty),
        FragmentV::IndexArray { rest, .. } => collects_ok_v(*rest, ty),
        FragmentV::CollectArray { rest } => match ty {
            DeclaredType::Sequence(elem) => collects_ok_v(*rest, *elem),
            _ => false,
        },
    }
}

/// Checks that every collect step of the fragment has an element type to
/// work with.
pub fn collects_ok(f: &QueryFragment, ty: &DeclaredType) -> (r: bool)
    ensures
        r == collects_ok_v(f@, *ty),
    decreases f,
{
    match f {
        QueryFragment::Accept => true,
        QueryFragment::Field { rest, .. } => collects_ok(rest, ty),
        QueryFragment::IndexArray { rest, .. } => collects_ok(rest, ty),
        QueryFragment::CollectArray { rest } => match ty {
            DeclaredType::Sequence(elem) => collects_ok(rest, elem),
            _ => false,
        },
    }
}

/// The view of a compiler input list.
pub open spec fn inputs_v(inputs: Seq<(QueryId, String, DeclaredType)>) -> Seq<
    (QueryIdV, Seq<char>, DeclaredType),
> {
    Seq::new(inputs.len(), |i: int| (inputs[i].0@, inputs[i].1@, inputs[i].2))
}

/// The query an input denotes, once its path has parsed.
pub open spec fn parsed_query_v(inp: (QueryIdV, Seq<char>, DeclaredType)) -> QueryV {
    QueryV { id: inp.0, fragment: fold_steps(steps_of(inp.1)->Some_0), ty: inp.2 }
}

/// The queries a clean input list denotes.
pub open spec fn parsed_queries_v(inputs: Seq<(QueryIdV, Seq<char>, DeclaredType)>) -> Seq<
    QueryV,
> {
    Seq::new(inputs.len(), |i: int| parsed_query_v(inputs[i]))
}

/// Every path matches the grammar and every collect step finds a
/// collection in its declared type.
pub open spec fn inputs_ok_v(inputs: Seq<(QueryIdV, Seq<char>, DeclaredType)>) -> bool {
    forall|i: int|
        0 <= i < inputs.len() ==> ((#[trigger] steps_of(inputs[i].1)) is Some && collects_ok_v(
            fold_steps(steps_of(inputs[i].1)->Some_0),
            inputs[i].2,
        ))
}

/// The one-line rendering of a diagnostic.
pub open spec fn diagnostic_message_v(d: Diagnostic) -> Seq<char> {
    match d {
        Diagnostic::Parse { id, error } => "in the query for field '"@ + id.name@ + "': "@
            + error.message@,
        Diagnostic::NotCollection { id } => "the query for field '"@ + id.name@
            + "' collects into a type that is not a collection"@,
        Diagnostic::Conflict(c) => crate::node::conflict_message_v(c@),
    }
}

impl Diagnostic {
    /// Renders the diagnostic as one human-readable line.
    pub fn message(&self) -> (r: String)
        ensures
            r@ =~= diagnostic_message_v(*self),
    {
        match self {
            Diagnostic::Parse { id, error } => {
                let mut r = String::from_str("in the query for field '");
                r.append(id.name.as_str());
                r.append("': ");
                r.append(error.message.as_str());
                r
            },
            Diagnostic::NotCollection { id } => {
                let mut r = String::from_str("the query for field '");
                r.append(id.name.as_str());
                r.append("' collects into a type that is not a collection");
                r
            },
            Diagnostic::Conflict(c) => c.message(),
        }
    }
}

/// Compiles a full list of `(output, path, declared type)` triples.
///
/// Succeeds if and only if every path matches the grammar, every collect
/// step has an element type, and no two queries conflict; the tree is then
/// exactly the merge of every input's query.  Otherwise every diagnostic
/// found is returned, and at least one is.
#[verifier::loop_isolation(false)]
pub fn compile(inputs: Vec<(QueryId, String, DeclaredType)>) -> (r: Result<Node, Vec<Diagnostic>>)
    ensures
        (r is Ok) <==> (inputs_ok_v(inputs_v(inputs@)) && from_queries_v(
            parsed_queries_v(inputs_v(inputs@)),
        ).1.len() == 0),
        r matches Result::Ok(root) ==> root@ == from_queries_v(
            parsed_queries_v(inputs_v(inputs@)),
        ).0,
        r matches Result::Err(ds) ==> ds@.len() > 0,
{
    let ghost iv = inputs_v(inputs@);
    let mut inputs = inputs;
    let n = inputs.len();
    let mut queries: Vec<Query> = Vec::new();
    let mut diags: Vec<Diagnostic> = Vec::new();
    let mut i: usize = 0;
    let mut bad = false;
    while inputs.len() > 0
        invariant
            i + inputs@.len() == n,
            n == iv.len(),
            forall|j: int|
                0 <= j < inputs@.len() ==> (inputs@[j].0@, inputs@[j].1@, inputs@[j].2)
                    == iv[i + j],
            bad <==> exists|j: int|
                0 <= j < i && !((#[trigger] steps_of(iv[j].1)) is Some && collects_ok_v(
                    fold_steps(steps_of(iv[j].1)->Some_0),
                    iv[j].2,
                )),
            bad <==> diags@.len() > 0,
            !bad ==> queries.deep_view() =~= parsed_queries_v(iv.take(i as int)),
        decreases inputs@.len(),
    {
        let (id, path, ty) = inputs.remove(0);
        proof {
            assert((id@, path@, ty) == iv[i as int]);
        }
        let (fragment, errors) = parse(path.as_str());
        if errors.len() > 0 {
            bad = true;
            let mut errors = errors;
            while errors.len() > 0
                invariant
                    diags@.len() > 0 || errors@.len() > 0,
                decreases errors@.len(),
            {
                let e = errors.remove(0);
                diags.push(Diagnostic::Parse { id: id.clone(), error: e });
            }
        } else if !collects_ok(&fragment, &ty) {
            bad = true;
            diags.push(Diagnostic::NotCollection { id });
        } else {
            let ghost qpre = queries.deep_view();
            let ghost fv = fragment@;
            queries.push(Query::new(id, fragment, ty));
            proof {
                assert(queries.deep_view() =~= qpre.push(
                    QueryV { id: iv[i as int].0, fragment: fv, ty: iv[i as int].2 },
                ));
                assert(fv == fold_steps(steps_of(iv[i as int].1)->Some_0));
                if !bad {
                    assert(queries.deep_view() =~= parsed_queries_v(iv.take(i + 1)));
                }
            }
        }
        i = i + 1;
    }
    proof {
        assert(iv.take(n as int) =~= iv);
    }
    if diags.len() > 0 {
        return Result::Err(diags);
    }
    match Node::from_queries(queries) {
        Result::Ok(root) => Result::Ok(root),
        Result::Err(conflicts) => {
            let ghost cpre = conflicts_v(conflicts@);
            let mut conflicts = conflicts;
            let mut diags: Vec<Diagnostic> = Vec::new();
            while conflicts.len() > 0
                invariant
                    diags@.len() + conflicts@.len() == cpre.len(),
                decreases conflicts@.len(),
            {
                let c = conflicts.remove(0);
                diags.push(Diagnostic::Conflict(c));
            }
            Result::Err(diags)
        },
    }
}

} // verus!
