use crate::ast::{
    lemma_exprs_view, CallExpr, CallExprV, DefineExpr, DefineExprV, Expr, ExprV, IdentifierExpr,
    IntegerLiteral, Program, StringLiteral,
};
use crate::isolate::{resolve_spec, Isolate, IsolateV, RuntimeError, RuntimeErrorV};
use crate::value::{values_view, NativeFunction, NativeThunkInput, Value, ValueV};
use vstd::prelude::*;
use vstd::string::StringExecFns;

verus! {

broadcast use vstd::seq::axiom_seq_index_decreases, vstd::std_specs::vec::axiom_vec_decreases_to_view;

/// The model of an evaluation result.
pub open spec fn result_view(r: Result<Value, RuntimeError>) -> Result<ValueV, RuntimeErrorV> {
    match r {
        Ok(v) => Ok(v@),
        Err(e) => Err(e@),
    }
}

// ---------------------------------------------------------------------------
// The model of evaluation: a spec-level interpreter over the syntax tree
// model.  Every outcome is a pair of the result and the session afterwards.
// ---------------------------------------------------------------------------

/// Binding in the innermost scope: refused with `AlreadyBound` when the name
/// is already there, else the binding is added and no value comes back.
pub open spec fn bind_step(env: IsolateV, name: Seq<char>, v: ValueV) -> (Result<
    ValueV,
    RuntimeErrorV,
>, IsolateV)
    recommends
        env.namespaces.len() >= 1,
{
    if env.namespaces.last().contains_key(name) {
        (Err(RuntimeErrorV::AlreadyBound { name }), env)
    } else {
        (
            Ok(ValueV::NoValue),
            IsolateV {
                namespaces: env.namespaces.drop_last().push(
                    env.namespaces.last().insert(name, v),
                ),
                debug_output: env.debug_output,
            },
        )
    }
}

/// What a native built-in returns and does to the session: `debug` records
/// the parameters it received in the output log and yields no value.
pub open spec fn apply_native(f: NativeFunction, args: Seq<ValueV>, env: IsolateV) -> (Result<
    ValueV,
    RuntimeErrorV,
>, IsolateV) {
    match f {
        NativeFunction::Debug => (
            Ok(ValueV::NoValue),
            IsolateV {
                namespaces: env.namespaces,
                debug_output: env.debug_output.push(args),
            },
        ),
    }
}

pub open spec fn eval_expr_spec(e: ExprV, env: IsolateV) -> (Result<ValueV, RuntimeErrorV>, IsolateV)
    decreases e, 0int,
{
    match e {
        ExprV::Integer(i) => (Ok(ValueV::Integer(i.value)), env),
        ExprV::String(s) => (Ok(ValueV::String(s.value)), env),
        ExprV::Identifier(id) => match resolve_spec(env.namespaces, id.name) {
            Option::Some(v) => (Ok(v), env),
            Option::None => (Err(RuntimeErrorV::Unbound { name: id.name }), env),
        },
        ExprV::Define(d) => eval_define_spec(d, env),
        ExprV::Call(c) => eval_call_spec(c, env),
    }
}

/// A definition evaluates its value, then binds the identifier's name to it
/// in the innermost scope; it yields no value of its own.
pub open spec fn eval_define_spec(d: DefineExprV, env: IsolateV) -> (Result<
    ValueV,
    RuntimeErrorV,
>, IsolateV)
    decreases d, 1int,
{
    let (r, env1) = eval_expr_spec(*d.value, env);
    match r {
        Ok(v) => bind_step(env1, d.identifier.name, v),
        Err(e) => (Err(e), env1),
    }
}

/// A call evaluates the callee; a native thunk is then applied to the
/// parameter values, evaluated left to right; any other value is not
/// callable.
pub open spec fn eval_call_spec(c: CallExprV, env: IsolateV) -> (Result<
    ValueV,
    RuntimeErrorV,
>, IsolateV)
    decreases c, 1int,
{
    let (rf, env1) = eval_expr_spec(*c.function, env);
    match rf {
        Ok(fv) => match fv {
            ValueV::NativeThunk(nt) => {
                let (rp, env2) = eval_params_spec(c.parameters, 0, env1);
                match rp {
                    Ok(vs) => apply_native(nt.function, vs, env2),
                    Err(e) => (Err(e), env2),
                }
            },
            _ => (Err(RuntimeErrorV::NotCallable { name: "function"@ }), env1),
        },
        Err(e) => (Err(e), env1),
    }
}

/// The parameters `ps[i..]`, evaluated left to right; the first error stops
/// the walk.
pub open spec fn eval_params_spec(ps: Seq<ExprV>, i: int, env: IsolateV) -> (Result<
    Seq<ValueV>,
    RuntimeErrorV,
>, IsolateV)
    decreases ps, ps.len() - i,
    via eval_params_spec_decreases
{
    if i < 0 || i >= ps.len() {
        (Ok(Seq::empty()), env)
    } else {
        let (r, env1) = eval_expr_spec(ps[i], env);
        match r {
            Ok(v) => {
                let (rr, env2) = eval_params_spec(ps, i + 1, env1);
                match rr {
                    Ok(vs) => (Ok(seq![v] + vs), env2),
                    Err(e) => (Err(e), env2),
                }
            },
            Err(e) => (Err(e), env1),
        }
    }
}

#[via_fn]
proof fn eval_params_spec_decreases(ps: Seq<ExprV>, i: int, env: IsolateV) {
    if 0 <= i < ps.len() {
        assert(decreases_to!(ps => ps[i]));
    }
}

/// A program evaluates its expressions in order for their effects; the first
/// error stops the run, and a full run yields no value.
pub open spec fn eval_program_spec(es: Seq<ExprV>, i: int, env: IsolateV) -> (Result<
    ValueV,
    RuntimeErrorV,
>, IsolateV)
    decreases es.len() - i,
{
    if i < 0 || i >= es.len() {
        (Ok(ValueV::NoValue), env)
    } else {
        let (r, env1) = eval_expr_spec(es[i], env);
        match r {
            Ok(v) => eval_program_spec(es, i + 1, env1),
            Err(e) => (Err(e), env1),
        }
    }
}

/// `eval_params_spec` with `acc` already evaluated.
pub open spec fn params_with(acc: Seq<ValueV>, o: (Result<Seq<ValueV>, RuntimeErrorV>, IsolateV))
    -> (Result<Seq<ValueV>, RuntimeErrorV>, IsolateV) {
    match o.0 {
        Ok(vs) => (Ok(acc + vs), o.1),
        Err(e) => (Err(e), o.1),
    }
}

proof fn lemma_params_with_cons(
    acc: Seq<ValueV>,
    v: ValueV,
    o: (Result<Seq<ValueV>, RuntimeErrorV>, IsolateV),
)
    ensures
        params_with(acc, params_with(seq![v], o)) == params_with(acc.push(v), o),
{
    match o.0 {
        Ok(vs) => {
            assert(acc + (seq![v] + vs) =~= acc.push(v) + vs);
        },
        _ => {},
    }
}

// ---------------------------------------------------------------------------
// The executable evaluator.
// ---------------------------------------------------------------------------

/// The capability every node has: evaluate against a session, as the node's
/// `eval_spec` says.
pub trait Evaluatable {
    /// The model of evaluating this node.
    spec fn eval_spec(&self, env: IsolateV) -> (Result<ValueV, RuntimeErrorV>, IsolateV);

    fn evaluate(&self, isolate: &mut Isolate) -> (r: Result<Value, RuntimeError>)
        requires
            old(isolate).wf(),
        ensures
            final(isolate).wf(),
            result_view(r) == self.eval_spec(old(isolate)@).0,
            final(isolate)@ == self.eval_spec(old(isolate)@).1,
    ;
}

fn eval_identifier(id: &IdentifierExpr, isolate: &mut Isolate) -> (r: Result<Value, RuntimeError>)
    requires
        old(isolate).wf(),
    ensures
        final(isolate).wf(),
        result_view(r) == eval_expr_spec(ExprV::Identifier(id@), old(isolate)@).0,
        final(isolate)@ == eval_expr_spec(ExprV::Identifier(id@), old(isolate)@).1,
{
    match isolate.resolve(&id.name) {
        Option::Some(v) => Ok(v.clone()),
        Option::None => Err(RuntimeError::Unbound { name: id.name.clone() }),
    }
}

fn eval_expr(e: &Expr, isolate: &mut Isolate) -> (r: Result<Value, RuntimeError>)
    requires
        old(isolate).wf(),
    ensures
        final(isolate).wf(),
        result_view(r) == eval_expr_spec(e@, old(isolate)@).0,
        final(isolate)@ == eval_expr_spec(e@, old(isolate)@).1,
    decreases *e, 1int,
{
    match e {
        Expr::Integer(i) => Ok(Value::Integer(i.value)),
        Expr::String(s) => Ok(Value::String(s.value.clone())),
        Expr::Identifier(id) => eval_identifier(id, isolate),
        Expr::Define(d) => eval_define(d, isolate),
        Expr::Call(c) => eval_call(c, isolate),
    }
}

fn eval_define(d: &DefineExpr, isolate: &mut Isolate) -> (r: Result<Value, RuntimeError>)
    requires
        old(isolate).wf(),
    ensures
        final(isolate).wf(),
        result_view(r) == eval_define_spec(d@, old(isolate)@).0,
        final(isolate)@ == eval_define_spec(d@, old(isolate)@).1,
    decreases *d, 0int,
{
    let value = match eval_expr(&d.value, isolate) {
        Ok(v) => v,
        Err(e) => {
            return Err(e);
        },
    };
    match isolate.bind(&d.identifier.name, value) {
        Ok(u) => Ok(Value::NoValue),
        Err(e) => Err(e),
    }
}

#[verifier::loop_isolation(false)]
fn eval_call(c: &CallExpr, isolate: &mut Isolate) -> (r: Result<Value, RuntimeError>)
    requires
        old(isolate).wf(),
    ensures
        final(isolate).wf(),
        result_view(r) == eval_call_spec(c@, old(isolate)@).0,
        final(isolate)@ == eval_call_spec(c@, old(isolate)@).1,
    decreases *c, 0int,
{
    let function_value = match eval_expr(&c.function, isolate) {
        Ok(v) => v,
        Err(e) => {
            return Err(e);
        },
    };
    match function_value {
        Value::NativeThunk(native_thunk) => {
            let ghost env1 = isolate@;
            let ghost ps = c@.parameters;
            proof {
                lemma_exprs_view(c.parameters@);
            }
            let mut parameters: Vec<Value> = Vec::new();
            let n = c.parameters.len();
            let mut idx: usize = 0;
            proof {
                let o = eval_params_spec(ps, 0, env1);
                match o.0 {
                    Ok(vs) => {
                        assert(Seq::<ValueV>::empty() + vs =~= vs);
                    },
                    _ => {},
                }
                assert(values_view(parameters@) =~= Seq::<ValueV>::empty());
            }
            loop
                invariant
                    isolate.wf(),
                    idx <= n,
                    eval_params_spec(ps, 0, env1) == params_with(
                        values_view(parameters@),
                        eval_params_spec(ps, idx as int, isolate@),
                    ),
                decreases n - idx,
            {
                if idx >= n {
                    break ;
                }
                let ghost old_params = parameters@;
                let v = match eval_expr(&c.parameters[idx], isolate) {
                    Ok(v) => v,
                    Err(e) => {
                        return Err(e);
                    },
                };
                proof {
                    lemma_params_with_cons(
                        values_view(old_params),
                        v@,
                        eval_params_spec(ps, idx + 1, isolate@),
                    );
                }
                parameters.push(v);
                proof {
                    assert(values_view(parameters@) =~= values_view(old_params).push(v@));
                }
                idx = idx + 1;
            }
            let ghost args = values_view(parameters@);
            let ghost env2 = isolate@;
            let input = NativeThunkInput { parameters };
            match native_thunk.function {
                NativeFunction::Debug => {
                    isolate.debug_output.push(input);
                    proof {
                        assert(isolate@.namespaces =~= env2.namespaces);
                        assert(isolate@.debug_output =~= env2.debug_output.push(args));
                    }
                    Ok(Value::NoValue)
                },
            }
        },
        _ => Err(RuntimeError::NotCallable { name: String::from_str("function") }),
    }
}

impl Evaluatable for Expr {
    open spec fn eval_spec(&self, env: IsolateV) -> (Result<ValueV, RuntimeErrorV>, IsolateV) {
        eval_expr_spec(self@, env)
    }

    fn evaluate(&self, isolate: &mut Isolate) -> (r: Result<Value, RuntimeError>) {
        eval_expr(self, isolate)
    }
}

impl Evaluatable for DefineExpr {
    open spec fn eval_spec(&self, env: IsolateV) -> (Result<ValueV, RuntimeErrorV>, IsolateV) {
        eval_define_spec(self@, env)
    }

    fn evaluate(&self, isolate: &mut Isolate) -> (r: Result<Value, RuntimeError>) {
        eval_define(self, isolate)
    }
}

impl Evaluatable for CallExpr {
    open spec fn eval_spec(&self, env: IsolateV) -> (Result<ValueV, RuntimeErrorV>, IsolateV) {
        eval_call_spec(self@, env)
    }

    fn evaluate(&self, isolate: &mut Isolate) -> (r: Result<Value, RuntimeError>) {
        eval_call(self, isolate)
    }
}

impl Evaluatable for IdentifierExpr {
    open spec fn eval_spec(&self, env: IsolateV) -> (Result<ValueV, RuntimeErrorV>, IsolateV) {
        eval_expr_spec(ExprV::Identifier(self@), env)
    }

    fn evaluate(&self, isolate: &mut Isolate) -> (r: Result<Value, RuntimeError>) {
        eval_identifier(self, isolate)
    }
}

impl Evaluatable for IntegerLiteral {
    open spec fn eval_spec(&self, env: IsolateV) -> (Result<ValueV, RuntimeErrorV>, IsolateV) {
        (Ok(ValueV::Integer(self@.value)), env)
    }

    fn evaluate(&self, isolate: &mut Isolate) -> (r: Result<Value, RuntimeError>) {
        Ok(Value::Integer(self.value))
    }
}

impl Evaluatable for StringLiteral {
    open spec fn eval_spec(&self, env: IsolateV) -> (Result<ValueV, RuntimeErrorV>, IsolateV) {
        (Ok(ValueV::String(self@.value)), env)
    }

    fn evaluate(&self, isolate: &mut Isolate) -> (r: Result<Value, RuntimeError>) {
        Ok(Value::String(self.value.clone()))
    }
}

impl Evaluatable for Program {
    open spec fn eval_spec(&self, env: IsolateV) -> (Result<ValueV, RuntimeErrorV>, IsolateV) {
        eval_program_spec(self@.exprs, 0, env)
    }

    #[verifier::loop_isolation(false)]
    fn evaluate(&self, isolate: &mut Isolate) -> (r: Result<Value, RuntimeError>) {
        let ghost env0 = isolate@;
        let ghost es = self@.exprs;
        proof {
            lemma_exprs_view(self.exprs@);
        }
        let n = self.exprs.len();
        let mut idx: usize = 0;
        loop
            invariant
                isolate.wf(),
                idx <= n,
                eval_program_spec(es, 0, env0) == eval_program_spec(es, idx as int, isolate@),
            decreases n - idx,
        {
            if idx >= n {
                break ;
            }
            match eval_expr(&self.exprs[idx], isolate) {
                Ok(v) => {},
                Err(e) => {
                    return Err(e);
                },
            };
            idx = idx + 1;
        }
        Ok(Value::NoValue)
    }
}

} // verus!
