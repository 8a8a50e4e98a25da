use crate::ast::{Expr, ExprV};
use std::rc::Rc;
use vstd::prelude::*;

verus! {

broadcast use vstd::seq::axiom_seq_index_decreases, vstd::std_specs::vec::axiom_vec_decreases_to_view;

/// Relies on Rc::clone: the clone is the same shared value.
#[verifier::external_body]
fn rc_clone<T>(rc: &Rc<T>) -> (r: Rc<T>)
    ensures
        r == *rc,
{
    Rc::clone(rc)
}

// ---------------------------------------------------------------------------
// The model of runtime values.
// ---------------------------------------------------------------------------

pub enum ValueV {
    Integer(i32),
    String(Seq<char>),
    NoValue,
    Thunk(ThunkV),
    NativeThunk(NativeThunk),
}

pub struct ThunkV {
    pub source: ExprV,
    pub closure: Seq<(Seq<char>, ValueV)>,
}

// ---------------------------------------------------------------------------
// Runtime values: what evaluation produces.
// ---------------------------------------------------------------------------

/// The host-provided built-ins a `NativeThunk` can stand for.  `Debug`
/// records the parameters it is handed in the isolate's output log, for the
/// host to render, and yields no value.
#[derive(Debug, Clone, Copy, PartialEq, Eq, Structural)]
pub enum NativeFunction {
    Debug,
}

/// A host-provided callable.
#[derive(Debug, Clone, Copy, PartialEq, Eq, Structural)]
pub struct NativeThunk {
    pub function: NativeFunction,
}

/// A runtime value: the evaluator only ever constructs integers, strings,
/// `NoValue` and calls through native thunks; `Thunk` is an inert extension
/// point for deferred user computations.
#[derive(Debug, PartialEq)]
pub enum Value {
    Integer(i32),
    String(String),
    NoValue,
    Thunk(Thunk),
    NativeThunk(NativeThunk),
}

/// A deferred user-level computation bound to a captured environment
/// snapshot; the evaluator never constructs one.
#[derive(Debug, PartialEq)]
pub struct Thunk {
    pub source: Rc<Expr>,
    pub closure: Rc<Vec<(String, Value)>>,
}

/// The arguments handed to a native built-in, in call order.
#[derive(Debug, PartialEq)]
pub struct NativeThunkInput {
    pub parameters: Vec<Value>,
}

// ---------------------------------------------------------------------------
// Views.
// ---------------------------------------------------------------------------

/// The models of the closure entries `ps[i..]`, in order.
pub open spec fn closure_view_from(ps: Seq<(String, Value)>, i: int) -> Seq<(Seq<char>, ValueV)>
    decreases ps, ps.len() - i,
    via closure_view_from_decreases
{
    if i < 0 || i >= ps.len() {
        Seq::empty()
    } else {
        seq![(ps[i].0@, ps[i].1.to_v())] + closure_view_from(ps, i + 1)
    }
}

#[via_fn]
proof fn closure_view_from_decreases(ps: Seq<(String, Value)>, i: int) {
    if 0 <= i < ps.len() {
        assert(decreases_to!(ps => ps[i]));
    }
}

impl Value {
    /// The model of this value.
    pub open spec fn to_v(&self) -> ValueV
        decreases self, 0int,
        via Self::to_v_decreases
    {
        match self {
            Value::Integer(i) => ValueV::Integer(*i),
            Value::String(s) => ValueV::String(s@),
            Value::NoValue => ValueV::NoValue,
            Value::Thunk(t) => ValueV::Thunk(
                ThunkV { source: (*t.source)@, closure: closure_view_from((*t.closure)@, 0) },
            ),
            Value::NativeThunk(n) => ValueV::NativeThunk(*n),
        }
    }

    #[via_fn]
    proof fn to_v_decreases(&self) {
        match self {
            Value::Thunk(t) => {
                assert(decreases_to!(*t.closure => (*t.closure)@));
            },
            _ => {},
        }
    }
}

impl View for Value {
    type V = ValueV;

    open spec fn view(&self) -> ValueV {
        self.to_v()
    }
}

impl View for Thunk {
    type V = ThunkV;

    open spec fn view(&self) -> ThunkV {
        ThunkV { source: (*self.source)@, closure: closure_view_from((*self.closure)@, 0) }
    }
}

/// The models of the values of `vs`, in order.
pub open spec fn values_view(vs: Seq<Value>) -> Seq<ValueV> {
    vs.map_values(|v: Value| v.to_v())
}

impl View for NativeThunkInput {
    type V = Seq<ValueV>;

    open spec fn view(&self) -> Seq<ValueV> {
        values_view(self.parameters@)
    }
}

// ---------------------------------------------------------------------------
// Cloning preserves the model.
// ---------------------------------------------------------------------------

impl Clone for Thunk {
    fn clone(&self) -> (r: Thunk)
        ensures
            r@ == self@,
    {
        Thunk { source: rc_clone(&self.source), closure: rc_clone(&self.closure) }
    }
}

impl Clone for Value {
    fn clone(&self) -> (r: Value)
        ensures
            r@ == self@,
    {
        match self {
            Value::Integer(i) => Value::Integer(*i),
            Value::String(s) => Value::String(s.clone()),
            Value::NoValue => Value::NoValue,
            Value::Thunk(t) => Value::Thunk(t.clone()),
            Value::NativeThunk(n) => Value::NativeThunk(*n),
        }
    }
}

} // verus!
