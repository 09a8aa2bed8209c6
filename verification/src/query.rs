//! The query data model: one parsed path per output field.
//!
//! A path is a sequence of steps; folded right to left onto an accept marker
//! it becomes a [`QueryFragment`], the linked representation the tree
//! compiler consumes.  A [`Query`] ties a fragment to the output field it
//! fills ([`QueryId`]) and to the type the extracted value must decode to
//! ([`DeclaredType`]).

use vstd::prelude::*;

verus! {

/// The type a query's result is decoded into.
///
/// `Sequence` is a growable ordered container of its element type; it is the
/// only constructor a `.[]` (collect) step may be declared with, since the
/// compiler must compute the element type at such a step.
#[derive(Debug, PartialEq, Eq)]
pub enum DeclaredType {
    Bool,
    Int,
    Str,
    Sequence(Box<DeclaredType>),
}

impl Clone for DeclaredType {
    fn clone(&self) -> (res: Self)
        ensures
            res == *self,
        decreases self,
    {
        match self {
            DeclaredType::Bool => DeclaredType::Bool,
            DeclaredType::Int => DeclaredType::Int,
            DeclaredType::Str => DeclaredType::Str,
            DeclaredType::Sequence(elem) => DeclaredType::Sequence(Box::new((**elem).clone())),
        }
    }
}

impl DeclaredType {
    /// The element type at a collect step, if this type is a container.
    pub open spec fn spec_element(&self) -> Option<DeclaredType> {
        match self {
            DeclaredType::Sequence(elem) => Option::Some(*(*elem)),
            _ => Option::None,
        }
    }

    /// Returns the element type of a container type.
    pub fn element(&self) -> (r: Option<DeclaredType>)
        ensures
            r == self.spec_element(),
    {
        match self {
            DeclaredType::Sequence(elem) => Option::Some((**elem).clone()),
            _ => Option::None,
        }
    }
}

/// Identifies the destination field of one query: its position in the
/// declared output structure and its name, the latter used in diagnostics.
#[derive(Debug, PartialEq, Eq)]
pub struct QueryId {
    pub index: usize,
    pub name: String,
}

/// The mathematical image of a [`QueryId`].
pub struct QueryIdV {
    pub index: int,
    pub name: Seq<char>,
}

impl View for QueryId {
    type V = QueryIdV;

    open spec fn view(&self) -> QueryIdV {
        QueryIdV { index: self.index as int, name: self.name@ }
    }
}

impl Clone for QueryId {
    fn clone(&self) -> (res: Self)
        ensures
            res == *self,
    {
        QueryId { index: self.index, name: self.name.clone() }
    }
}

impl QueryId {
    pub fn new(index: usize, name: String) -> (r: Self)
        ensures
            r.index == index,
            r.name == name,
    {
        QueryId { index, name }
    }

    pub fn name(&self) -> (r: &String)
        ensures
            r == self.name,
    {
        &self.name
    }
}

/// The mathematical image of one step of a path.
pub enum StepV {
    Field { name: Seq<char>, quoted: bool },
    Index(int),
    Collect,
}

/// One query's full path: a linked step sequence terminated by an accept
/// marker.  Immutable once parsed.
#[derive(Debug, PartialEq, Eq)]
pub enum QueryFragment {
    Accept,
    /// `.` name `[rest]`, or `.["` name `"]` `[rest]` when quoted.
    Field { name: String, quoted: bool, rest: Box<QueryFragment> },
    /// `.[` n `]` `[rest]`
    IndexArray { index: usize, rest: Box<QueryFragment> },
    /// `.[]` `[rest]`
    CollectArray { rest: Box<QueryFragment> },
}

/// The mathematical image of a [`QueryFragment`].
pub enum FragmentV {
    Accept,
    Field { name: Seq<char>, quoted: bool, rest: Box<FragmentV> },
    IndexArray { index: int, rest: Box<FragmentV> },
    CollectArray { rest: Box<FragmentV> },
}

impl View for QueryFragment {
    type V = FragmentV;

    open spec fn view(&self) -> FragmentV
        decreases self,
    {
        match self {
            QueryFragment::Accept => FragmentV::Accept,
            QueryFragment::Field { name, quoted, rest } => FragmentV::Field {
                name: name@,
                quoted: *quoted,
                rest: Box::new((**rest)@),
            },
            QueryFragment::IndexArray { index, rest } => FragmentV::IndexArray {
                index: *index as int,
                rest: Box::new((**rest)@),
            },
            QueryFragment::CollectArray { rest } => FragmentV::CollectArray {
                rest: Box::new((**rest)@),
            },
        }
    }
}

/// The step sequence a fragment spells out.
pub open spec fn fragment_steps(f: FragmentV) -> Seq<StepV>
    decreases f,
{
    match f {
        FragmentV::Accept => Seq::empty(),
        FragmentV::Field { name, quoted, rest } => seq![StepV::Field { name, quoted }]
            + fragment_steps(*rest),
        FragmentV::IndexArray { index, rest } => seq![StepV::Index(index)] + fragment_steps(*rest),
        FragmentV::CollectArray { rest } => seq![StepV::Collect] + fragment_steps(*rest),
    }
}

/// The fragment denoted by a step sequence: the steps in order, ending in
/// `Accept`.
pub open spec fn fold_steps(steps: Seq<StepV>) -> FragmentV
    decreases steps.len(),
{
    if steps.len() == 0 {
        FragmentV::Accept
    } else {
        let rest = Box::new(fold_steps(steps.drop_first()));
        match steps[0] {
            StepV::Field { name, quoted } => FragmentV::Field { name, quoted, rest },
            StepV::Index(i) => FragmentV::IndexArray { index: i, rest },
            StepV::Collect => FragmentV::CollectArray { rest },
        }
    }
}

impl QueryFragment {
    /// The terminal fragment: the value at the current position is the
    /// query's result.
    pub fn accept() -> (r: Self)
        ensures
            r@ == FragmentV::Accept,
    {
        QueryFragment::Accept
    }

    /// A field step in front of `rest`.
    pub fn field(name: String, quoted: bool, rest: Self) -> (r: Self)
        ensures
            r@ == (FragmentV::Field { name: name@, quoted, rest: Box::new(rest@) }),
    {
        QueryFragment::Field { name, quoted, rest: Box::new(rest) }
    }

    /// An index step in front of `rest`.
    pub fn index_array(index: usize, rest: Self) -> (r: Self)
        ensures
            r@ == (FragmentV::IndexArray { index: index as int, rest: Box::new(rest@) }),
    {
        QueryFragment::IndexArray { index, rest: Box::new(rest) }
    }

    /// A collect step in front of `rest`.
    pub fn collect_array(rest: Self) -> (r: Self)
        ensures
            r@ == (FragmentV::CollectArray { rest: Box::new(rest@) }),
    {
        QueryFragment::CollectArray { rest: Box::new(rest) }
    }

    /// The step sequence this fragment spells out.
    pub open spec fn steps(&self) -> Seq<StepV>
        decreases self,
    {
        match self {
            QueryFragment::Accept => Seq::empty(),
            QueryFragment::Field { name, quoted, rest } => seq![
                StepV::Field { name: name@, quoted: *quoted },
            ] + rest.steps(),
            QueryFragment::IndexArray { index, rest } => seq![StepV::Index(*index as int)]
                + rest.steps(),
            QueryFragment::CollectArray { rest } => seq![StepV::Collect] + rest.steps(),
        }
    }
}

/// A fragment is exactly the fold of its own step sequence.
pub proof fn lemma_fold_own_steps(f: QueryFragment)
    ensures
        fold_steps(f.steps()) == f@,
    decreases f,
{
    match f {
        QueryFragment::Accept => {
            assert(f.steps() =~= Seq::<StepV>::empty());
        },
        QueryFragment::Field { name, quoted, rest } => {
            lemma_fold_own_steps(*rest);
            assert(f.steps().drop_first() =~= rest.steps());
        },
        QueryFragment::IndexArray { index, rest } => {
            lemma_fold_own_steps(*rest);
            assert(f.steps().drop_first() =~= rest.steps());
        },
        QueryFragment::CollectArray { rest } => {
            lemma_fold_own_steps(*rest);
            assert(f.steps().drop_first() =~= rest.steps());
        },
    }
}

/// One declared query: the output field it fills, the parsed path, and the
/// type the result decodes to.
#[derive(Debug)]
pub struct Query {
    pub id: QueryId,
    pub fragment: QueryFragment,
    pub ty: DeclaredType,
}

/// The mathematical image of a [`Query`].
pub struct QueryV {
    pub id: QueryIdV,
    pub fragment: FragmentV,
    pub ty: DeclaredType,
}

impl View for Query {
    type V = QueryV;

    open spec fn view(&self) -> QueryV {
        QueryV { id: self.id@, fragment: self.fragment@, ty: self.ty }
    }
}

impl DeepView for Query {
    type V = QueryV;

    open spec fn deep_view(&self) -> QueryV {
        self.view()
    }
}

impl Query {
    pub fn new(id: QueryId, fragment: QueryFragment, ty: DeclaredType) -> (r: Self)
        ensures
            r.id == id,
            r.fragment == fragment,
            r.ty == ty,
    {
        Query { id, fragment, ty }
    }
}

} // verus!
