//! The tree-walking evaluator.
//!
//! [`qeval_value`] reduces a value against an environment, within a caller-
//! supplied step budget, and is pinned to the mathematical interpreter
//! [`spec_eval`].  A list value applies its evaluated head: a native
//! function receives the remaining elements unevaluated and decides itself
//! what to evaluate; a closure evaluates the arguments in the caller's
//! environment and its body in a frame pushed onto the snapshot of its
//! defining environment, with its own name visible for recursion.  Output is
//! never written directly: the evaluator appends [`Effect`]s for its caller
//! to perform.

use vstd::prelude::*;

use crate::ast::{to_value, to_value_s, view_node, Node};
use crate::error::{res_view, Error, SpecError};
use crate::number::Number;
use crate::prelude::{apply_native, spec_apply_native};
use crate::value::{
    env_get_s, env_set_s, view_env, view_value, view_values, EnvHead, SpecEnv, SpecValue, Value,
};

verus! {

/// One observable action the evaluator asks its caller to perform.
#[derive(Debug, PartialEq)]
pub enum Effect {
    /// Text to write to the output.
    Print(String),
    /// A cursor move to the given column and row.
    CursorPos(Number, Number),
}

/// The mathematical counterpart of an [`Effect`].
pub enum SpecEffect {
    Print(Seq<char>),
    CursorPos(Number, Number),
}

/// The model of an effect.
pub open spec fn view_effect(e: Effect) -> SpecEffect {
    match e {
        Effect::Print(s) => SpecEffect::Print(s@),
        Effect::CursorPos(x, y) => SpecEffect::CursorPos(x, y),
    }
}

/// The models of a sequence of effects.
pub open spec fn effs_view(s: Seq<Effect>) -> Seq<SpecEffect> {
    Seq::new(s.len(), |i: int| view_effect(s[i]))
}

/// What one evaluation yields: a value or an error, the environment left
/// behind, and the effects emitted along the way.
pub ghost struct EvalOut {
    pub r: Result<SpecValue, SpecError>,
    pub env: SpecEnv,
    pub out: Seq<SpecEffect>,
}

/// The mathematical evaluator.  Literals, callables and unit evaluate to
/// themselves; an atom is looked up, failing when unbound; an explicit
/// sequence evaluates its members in order and yields the last; a list
/// applies its evaluated head.  Each nested evaluation spends one unit of
/// fuel; exhausted fuel is an error.
pub open spec fn spec_eval(fuel: nat, v: SpecValue, env: SpecEnv) -> EvalOut
    decreases fuel, 3int, 0int,
{
    if fuel == 0 {
        EvalOut { r: Err(SpecError::OutOfFuel), env, out: Seq::empty() }
    } else {
        match v {
            SpecValue::Atom(name) => match env_get_s(env, name) {
                Some(val) => EvalOut { r: Ok(val), env, out: Seq::empty() },
                None => EvalOut { r: Err(SpecError::Undefined(name)), env, out: Seq::empty() },
            },
            SpecValue::Do(xs) => spec_eval_seq(fuel, xs, 0, env),
            SpecValue::List(xs) => {
                if xs.len() == 0 {
                    EvalOut {
                        r: Err(SpecError::NotCallable(SpecValue::Unit)),
                        env,
                        out: Seq::empty(),
                    }
                } else {
                    let h = spec_eval((fuel - 1) as nat, xs[0], env);
                    match h.r {
                        Err(e) => EvalOut { r: Err(e), env: h.env, out: h.out },
                        Ok(f) => match f {
                            SpecValue::NativeFunc(op) => {
                                let o = spec_apply_native(fuel, op, xs.skip(1), h.env);
                                EvalOut { r: o.r, env: o.env, out: h.out + o.out }
                            },
                            SpecValue::Func(name, params, body, cap) => {
                                let o = spec_apply_closure(
                                    fuel,
                                    xs,
                                    name,
                                    params,
                                    *body,
                                    cap,
                                    h.env,
                                );
                                EvalOut { r: o.r, env: o.env, out: h.out + o.out }
                            },
                            _ => EvalOut { r: Err(SpecError::NotCallable(f)), env: h.env, out: h.out },
                        },
                    }
                }
            },
            _ => EvalOut { r: Ok(v), env, out: Seq::empty() },
        }
    }
}

/// Evaluates `xs[i..]` in order, threading the environment, and yields the
/// last member's value; an empty sequence yields unit.
pub open spec fn spec_eval_seq(fuel: nat, xs: Seq<SpecValue>, i: int, env: SpecEnv) -> EvalOut
    decreases fuel, 1int, xs.len() - i,
{
    if fuel == 0 {
        EvalOut { r: Err(SpecError::OutOfFuel), env, out: Seq::empty() }
    } else if i < 0 || i >= xs.len() {
        EvalOut { r: Ok(SpecValue::Unit), env, out: Seq::empty() }
    } else {
        let e = spec_eval((fuel - 1) as nat, xs[i], env);
        match e.r {
            Err(er) => EvalOut { r: Err(er), env: e.env, out: e.out },
            Ok(v) => {
                if i == xs.len() - 1 {
                    EvalOut { r: Ok(v), env: e.env, out: e.out }
                } else {
                    let rest = spec_eval_seq(fuel, xs, i + 1, e.env);
                    EvalOut { r: rest.r, env: rest.env, out: e.out + rest.out }
                }
            },
        }
    }
}

/// What binding a closure's parameters yields: an error if an argument
/// fails, the caller's environment after the argument evaluations, the call
/// frame built so far, and the effects emitted.
pub ghost struct BindOut {
    pub err: Option<SpecError>,
    pub env: SpecEnv,
    pub scope: SpecEnv,
    pub out: Seq<SpecEffect>,
}

/// Pairs `xs[i..]` (the argument expressions of the application `xs`) with
/// the parameter names from `j` on, evaluating each argument in the
/// caller's environment and binding it in the call frame.  Pairing stops
/// with the shorter side: extra arguments stay unevaluated, extra
/// parameters stay unbound.
pub open spec fn spec_bind_args(
    fuel: nat,
    xs: Seq<SpecValue>,
    i: int,
    params: Seq<Seq<char>>,
    j: int,
    env: SpecEnv,
    scope: SpecEnv,
) -> BindOut
    decreases fuel, 1int, xs.len() - i,
{
    if fuel == 0 {
        BindOut { err: Some(SpecError::OutOfFuel), env, scope, out: Seq::empty() }
    } else if j < 0 || j >= params.len() || i < 0 || i >= xs.len() {
        BindOut { err: None, env, scope, out: Seq::empty() }
    } else {
        let e = spec_eval((fuel - 1) as nat, xs[i], env);
        match e.r {
            Err(er) => BindOut { err: Some(er), env: e.env, scope, out: e.out },
            Ok(v) => {
                let b = spec_bind_args(
                    fuel,
                    xs,
                    i + 1,
                    params,
                    j + 1,
                    e.env,
                    env_set_s(scope, params[j], v),
                );
                BindOut { err: b.err, env: b.env, scope: b.scope, out: e.out + b.out }
            },
        }
    }
}

/// Applies a closure: a fresh frame is pushed onto the snapshot of the
/// defining environment, the closure is bound there under its own name
/// (unless anonymous), the arguments are evaluated in the caller's
/// environment and bound positionally, and the body runs in the new frame.
pub open spec fn spec_apply_closure(
    fuel: nat,
    xs: Seq<SpecValue>,
    name: Seq<char>,
    params: Seq<Seq<char>>,
    body: SpecValue,
    cap: SpecEnv,
    env: SpecEnv,
) -> EvalOut
    decreases fuel, 2int, 0int,
{
    if fuel == 0 {
        EvalOut { r: Err(SpecError::OutOfFuel), env, out: Seq::empty() }
    } else {
        let f = SpecValue::Func(name, params, Box::new(body), cap);
        let scope0 = seq![Seq::<(Seq<char>, SpecValue)>::empty()] + cap;
        let scope1 = if name == "anon"@ {
            scope0
        } else {
            env_set_s(scope0, name, f)
        };
        let b = spec_bind_args(fuel, xs, 1, params, 0, env, scope1);
        match b.err {
            Some(er) => EvalOut { r: Err(er), env: b.env, out: b.out },
            None => {
                let bo = spec_eval((fuel - 1) as nat, body, b.scope);
                EvalOut { r: bo.r, env: b.env, out: b.out + bo.out }
            },
        }
    }
}

/// Clones `xs[from..]`.
pub(crate) fn clone_range(xs: &Vec<Value>, from: usize) -> (r: Vec<Value>)
    requires
        from <= xs@.len(),
    ensures
        view_values(r@) == view_values(xs@).skip(from as int),
    decreases *xs,
{
    let mut r: Vec<Value> = Vec::new();
    let mut i: usize = from;
    while i < xs.len()
        invariant
            from <= i <= xs@.len(),
            r@.len() == i - from,
            forall|k: int|
                0 <= k < r@.len() ==> view_value(#[trigger] r@[k]) == view_value(xs@[from + k]),
        decreases xs@.len() - i,
    {
        proof {
            assert(decreases_to!(*xs => xs@[i as int]));
        }
        let v = (&xs[i]).clone();
        r.push(v);
        i = i + 1;
    }
    proof {
        crate::value::lemma_view_values(r@);
        crate::value::lemma_view_values(xs@);
        assert(view_values(r@) =~= view_values(xs@).skip(from as int));
    }
    r
}

/// Evaluates a value against an environment within a step budget,
/// collecting effects; the result, the environment and the effects are
/// those of [`spec_eval`].
pub fn qeval_value(value: Value, env: &mut EnvHead, out: &mut Vec<Effect>, fuel: u64) -> (r: Result<
    Value,
    Error,
>)
    ensures
        ({
            let o = spec_eval(fuel as nat, view_value(value), view_env(*old(env)));
            &&& view_env(*final(env)) == o.env
            &&& effs_view(final(out)@) == effs_view(old(out)@) + o.out
            &&& res_view(r) == o.r
        }),
    decreases fuel, 3int, 0int,
{
    if fuel == 0 {
        proof {
            assert(effs_view(out@) =~= effs_view(out@) + Seq::<SpecEffect>::empty());
        }
        return Err(Error::OutOfFuel);
    }
    match value {
        Value::Unit => {
            proof {
                assert(effs_view(out@) =~= effs_view(out@) + Seq::<SpecEffect>::empty());
            }
            Ok(Value::Unit)
        },
        Value::Number(n) => {
            proof {
                assert(effs_view(out@) =~= effs_view(out@) + Seq::<SpecEffect>::empty());
            }
            Ok(Value::Number(n))
        },
        Value::Str(s) => {
            proof {
                assert(effs_view(out@) =~= effs_view(out@) + Seq::<SpecEffect>::empty());
            }
            Ok(Value::Str(s))
        },
        Value::Bool(b) => {
            proof {
                assert(effs_view(out@) =~= effs_view(out@) + Seq::<SpecEffect>::empty());
            }
            Ok(Value::Bool(b))
        },
        Value::NativeFunc(op) => {
            proof {
                assert(effs_view(out@) =~= effs_view(out@) + Seq::<SpecEffect>::empty());
            }
            Ok(Value::NativeFunc(op))
        },
        Value::Func(name, params, body, cap) => {
            proof {
                assert(effs_view(out@) =~= effs_view(out@) + Seq::<SpecEffect>::empty());
            }
            Ok(Value::Func(name, params, body, cap))
        },
        Value::Atom(name) => {
            proof {
                assert(effs_view(out@) =~= effs_view(out@) + Seq::<SpecEffect>::empty());
            }
            let looked = env.get(name.clone());
            match looked {
                Some(v) => Ok(v),
                None => Err(Error::Undefined(name)),
            }
        },
        Value::Do(xs) => eval_seq(&xs, 0, env, out, fuel),
        Value::List(xs) => {
            if xs.len() == 0 {
                proof {
                    assert(effs_view(out@) =~= effs_view(out@) + Seq::<SpecEffect>::empty());
                }
                return Err(Error::NotCallable(Value::Unit));
            }
            proof {
                crate::value::lemma_view_values(xs@);
            }
            let ghost env0 = view_env(*env);
            let ghost out0 = effs_view(out@);
            let head = (&xs[0]).clone();
            let hr = qeval_value(head, env, out, fuel - 1);
            let ghost h = spec_eval((fuel - 1) as nat, view_values(xs@)[0], env0);
            match hr {
                Err(e) => Err(e),
                Ok(f) => match f {
                    Value::NativeFunc(op) => {
                        let args = clone_range(&xs, 1);
                        let r2 = apply_native(op, args, env, out, fuel);
                        proof {
                            let o = spec_apply_native(
                                fuel as nat,
                                op,
                                view_values(xs@).skip(1),
                                h.env,
                            );
                            assert(effs_view(out@) =~= out0 + (h.out + o.out));
                        }
                        r2
                    },
                    Value::Func(name, params, body, cap) => {
                        let ghost gname = name@;
                        let ghost gparams = crate::value::names_view(params@);
                        let ghost gbody = view_value(*body);
                        let ghost gcap = view_env(*cap);
                        let r2 = apply_closure(&xs, name, params, body, cap, env, out, fuel);
                        proof {
                            let o2 = spec_apply_closure(
                                fuel as nat,
                                view_values(xs@),
                                gname,
                                gparams,
                                gbody,
                                gcap,
                                h.env,
                            );
                            assert(effs_view(out@) =~= out0 + (h.out + o2.out));
                        }
                        r2
                    },
                    other => Err(Error::NotCallable(other)),
                },
            }
        },
    }
}

/// Evaluates `xs[i..]` in order, yielding the last member's value.
fn eval_seq(xs: &Vec<Value>, i: usize, env: &mut EnvHead, out: &mut Vec<Effect>, fuel: u64) -> (r:
    Result<Value, Error>)
    requires
        i <= xs@.len(),
        fuel >= 1,
    ensures
        ({
            let o = spec_eval_seq(fuel as nat, view_values(xs@), i as int, view_env(*old(env)));
            &&& view_env(*final(env)) == o.env
            &&& effs_view(final(out)@) == effs_view(old(out)@) + o.out
            &&& res_view(r) == o.r
        }),
    decreases fuel, 1int, xs@.len() - i,
{
    proof {
        crate::value::lemma_view_values(xs@);
    }
    if i >= xs.len() {
        proof {
            assert(effs_view(out@) =~= effs_view(out@) + Seq::<SpecEffect>::empty());
        }
        return Ok(Value::Unit);
    }
    let ghost env0 = view_env(*env);
    let ghost out0 = effs_view(out@);
    let elem = (&xs[i]).clone();
    let e = qeval_value(elem, env, out, fuel - 1);
    match e {
        Err(er) => Err(er),
        Ok(v) => {
            if i == xs.len() - 1 {
                Ok(v)
            } else {
                let ghost e_s = spec_eval((fuel - 1) as nat, view_values(xs@)[i as int], env0);
                let r2 = eval_seq(xs, i + 1, env, out, fuel);
                proof {
                    let rest = spec_eval_seq(fuel as nat, view_values(xs@), i + 1, e_s.env);
                    assert(effs_view(out@) =~= out0 + (e_s.out + rest.out));
                }
                r2
            }
        },
    }
}

/// Binds parameters to evaluated arguments, pairing positionally.
fn bind_args(
    xs: &Vec<Value>,
    i: usize,
    params: &Vec<String>,
    j: usize,
    env: &mut EnvHead,
    scope: &mut EnvHead,
    out: &mut Vec<Effect>,
    fuel: u64,
) -> (r: Option<Error>)
    requires
        i <= xs@.len(),
        j <= params@.len(),
        fuel >= 1,
    ensures
        ({
            let b = spec_bind_args(
                fuel as nat,
                view_values(xs@),
                i as int,
                crate::value::names_view(params@),
                j as int,
                view_env(*old(env)),
                view_env(*old(scope)),
            );
            &&& view_env(*final(env)) == b.env
            &&& view_env(*final(scope)) == b.scope
            &&& effs_view(final(out)@) == effs_view(old(out)@) + b.out
            &&& (match r {
                Some(e) => b.err == Some(crate::error::view_error(e)),
                None => b.err is None,
            })
        }),
    decreases fuel, 1int, xs@.len() - i,
{
    proof {
        crate::value::lemma_view_values(xs@);
    }
    if j >= params.len() || i >= xs.len() {
        proof {
            assert(effs_view(out@) =~= effs_view(out@) + Seq::<SpecEffect>::empty());
        }
        return None;
    }
    let ghost env0 = view_env(*env);
    let ghost out0 = effs_view(out@);
    let elem = (&xs[i]).clone();
    let e = qeval_value(elem, env, out, fuel - 1);
    match e {
        Err(er) => Some(er),
        Ok(v) => {
            scope.set(params[j].clone(), v);
            let ghost e_s = spec_eval((fuel - 1) as nat, view_values(xs@)[i as int], env0);
            let r2 = bind_args(xs, i + 1, params, j + 1, env, scope, out, fuel);
            proof {
                let b2 = spec_bind_args(
                    fuel as nat,
                    view_values(xs@),
                    i + 1,
                    crate::value::names_view(params@),
                    j + 1,
                    e_s.env,
                    env_set_s(view_env(*old(scope)), crate::value::names_view(params@)[j as int],
                        view_value(v)),
                );
                assert(effs_view(out@) =~= out0 + (e_s.out + b2.out));
            }
            r2
        },
    }
}

/// Applies a closure to the application `xs` whose head evaluated to it.
fn apply_closure(
    xs: &Vec<Value>,
    name: String,
    params: Vec<String>,
    body: Box<Value>,
    cap: Box<EnvHead>,
    env: &mut EnvHead,
    out: &mut Vec<Effect>,
    fuel: u64,
) -> (r: Result<Value, Error>)
    requires
        xs@.len() >= 1,
        fuel >= 1,
    ensures
        ({
            let o = spec_apply_closure(
                fuel as nat,
                view_values(xs@),
                name@,
                crate::value::names_view(params@),
                view_value(*body),
                view_env(*cap),
                view_env(*old(env)),
            );
            &&& view_env(*final(env)) == o.env
            &&& effs_view(final(out)@) == effs_view(old(out)@) + o.out
            &&& res_view(r) == o.r
        }),
    decreases fuel, 2int, 0int,
{
    let ghost gbody = view_value(*body);
    let ghost gcap = view_env(*cap);
    let body_run = (*body).clone();
    let mut scope = (*cap).clone().push();
    let anon = "anon".to_owned();
    if !(name == anon) {
        let fval = Value::Func(name.clone(), crate::value::clone_names(&params), body, cap);
        proof {
            assert(view_value(fval) == SpecValue::Func(
                name@,
                crate::value::names_view(params@),
                Box::new(gbody),
                gcap,
            ));
        }
        scope.set(name.clone(), fval);
    }
    let ghost out0 = effs_view(out@);
    let ghost env0 = view_env(*env);
    let ghost scope0 = view_env(scope);
    let bind_r = bind_args(xs, 1, &params, 0, env, &mut scope, out, fuel);
    match bind_r {
        Some(e) => Err(e),
        None => {
            let ghost b = spec_bind_args(
                fuel as nat,
                view_values(xs@),
                1,
                crate::value::names_view(params@),
                0,
                env0,
                scope0,
            );
            let r2 = qeval_value(body_run, &mut scope, out, fuel - 1);
            proof {
                let bo = spec_eval((fuel - 1) as nat, view_value(body_run), b.scope);
                assert(effs_view(out@) =~= out0 + (b.out + bo.out));
            }
            r2
        },
    }
}

/// Evaluates a syntax node by converting it to a value first.
pub fn qeval_expr(expr: &Node, env: &mut EnvHead, out: &mut Vec<Effect>, fuel: u64) -> (r: Result<
    Value,
    Error,
>)
    ensures
        ({
            let o = spec_eval(fuel as nat, to_value_s(view_node(*expr)), view_env(*old(env)));
            &&& view_env(*final(env)) == o.env
            &&& effs_view(final(out)@) == effs_view(old(out)@) + o.out
            &&& res_view(r) == o.r
        }),
{
    let v = to_value(expr);
    qeval_value(v, env, out, fuel)
}

/// Evaluates a whole program node: a top-level sequence runs its
/// expressions in order and yields the last value.
pub fn qeval_progn(progn: &Node, env: &mut EnvHead, out: &mut Vec<Effect>, fuel: u64) -> (r: Result<
    Value,
    Error,
>)
    ensures
        ({
            let o = spec_eval(fuel as nat, to_value_s(view_node(*progn)), view_env(*old(env)));
            &&& view_env(*final(env)) == o.env
            &&& effs_view(final(out)@) == effs_view(old(out)@) + o.out
            &&& res_view(r) == o.r
        }),
{
    qeval_expr(progn, env, out, fuel)
}

} // verus!
