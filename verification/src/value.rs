//! The abstract structured document a compiled plan walks, and the values
//! the decoder produces.
//!
//! A document position is self-describing: a map of key/value pairs read in
//! source order (duplicate keys allowed), a sequence read front to back, or
//! a scalar leaf.  The concrete encoding (JSON or other) lives outside this
//! crate; whatever reads it hands the library a [`Value`].

use vstd::prelude::*;

verus! {

broadcast use vstd::std_specs::vec::axiom_vec_index_decreases, vstd::seq::axiom_seq_index_decreases, vstd::std_specs::vec::axiom_vec_decreases_to_view;

/// One position of a structured document.
#[derive(Debug)]
pub enum Value {
    Null,
    Bool(bool),
    Int(i64),
    Str(String),
    Array(Vec<Value>),
    Object(Vec<(String, Value)>),
}

/// The mathematical image of a [`Value`].
pub enum ValueV {
    Null,
    Bool(bool),
    Int(int),
    Str(Seq<char>),
    Array(Seq<ValueV>),
    Object(Seq<(Seq<char>, ValueV)>),
}

/// The view of a list of document values.
pub open spec fn values_v(vs: Seq<Value>) -> Seq<ValueV>
    decreases vs,
{
    Seq::new(
        vs.len(),
        |i: int|
            if 0 <= i < vs.len() {
                vs[i]@
            } else {
                ValueV::Null
            },
    )
}

/// The view of a list of map entries.
pub open spec fn entries_v(entries: Seq<(String, Value)>) -> Seq<(Seq<char>, ValueV)>
    decreases entries,
{
    Seq::new(
        entries.len(),
        |i: int|
            if 0 <= i < entries.len() {
                (entries[i].0@, entries[i].1@)
            } else {
                (Seq::empty(), ValueV::Null)
            },
    )
}

impl View for Value {
    type V = ValueV;

    open spec fn view(&self) -> ValueV
        decreases self,
    {
        match self {
            Value::Null => ValueV::Null,
            Value::Bool(b) => ValueV::Bool(*b),
            Value::Int(i) => ValueV::Int(*i as int),
            Value::Str(s) => ValueV::Str(s@),
            Value::Array(vs) => ValueV::Array(values_v(vs@)),
            Value::Object(entries) => ValueV::Object(entries_v(entries@)),
        }
    }
}

/// A value the decoder produced for one output field.
#[derive(Debug, PartialEq, Eq)]
pub enum Decoded {
    Bool(bool),
    Int(i64),
    Str(String),
    Array(Vec<Decoded>),
}

/// The mathematical image of a [`Decoded`].
pub enum DecodedV {
    Bool(bool),
    Int(int),
    Str(Seq<char>),
    Array(Seq<DecodedV>),
}

impl View for Decoded {
    type V = DecodedV;

    open spec fn view(&self) -> DecodedV
        decreases self,
    {
        match self {
            Decoded::Bool(b) => DecodedV::Bool(*b),
            Decoded::Int(i) => DecodedV::Int(*i as int),
            Decoded::Str(s) => DecodedV::Str(s@),
            Decoded::Array(ds) => DecodedV::Array(
                Seq::new(
                    ds@.len(),
                    |i: int|
                        if 0 <= i < ds@.len() {
                            ds@[i]@
                        } else {
                            DecodedV::Bool(false)
                        },
                ),
            ),
        }
    }
}

impl DeepView for Decoded {
    type V = DecodedV;

    open spec fn deep_view(&self) -> DecodedV {
        self@
    }
}

impl Clone for Decoded {
    #[verifier::loop_isolation(false)]
    fn clone(&self) -> (res: Self)
        ensures
            res@ == self@,
        decreases self,
    {
        match self {
            Decoded::Bool(b) => Decoded::Bool(*b),
            Decoded::Int(i) => Decoded::Int(*i),
            Decoded::Str(s) => Decoded::Str(s.clone()),
            Decoded::Array(ds) => {
                let mut r: Vec<Decoded> = Vec::new();
                let n = ds.len();
                let mut i: usize = 0;
                while i < n
                    invariant
                        i <= n,
                        n == ds@.len(),
                        r@.len() == i,
                        forall|j: int| 0 <= j < i ==> #[trigger] r@[j]@ == ds@[j]@,
                    decreases n - i,
                {
                    proof {
                        assert(decreases_to!(*self => *ds));
                        assert(decreases_to!(*ds => ds@));
                        assert(decreases_to!(ds@ => ds@[i as int]));
                    }
                    let d = ds[i].clone();
                    r.push(d);
                    i = i + 1;
                }
                let out = Decoded::Array(r);
                proof {
                    if let (DecodedV::Array(a), DecodedV::Array(b)) = (out@, self@) {
                        assert forall|j: int| 0 <= j < a.len() implies a[j] == b[j] by {
                            assert(r@[j]@ == ds@[j]@);
                        }
                        assert(a =~= b);
                    }
                }
                out
            },
        }
    }
}

} // verus!
