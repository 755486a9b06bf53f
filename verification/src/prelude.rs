//! The standard environment: the native functions for arithmetic,
//! comparison, printing, and the special forms, and the factory that binds
//! them into a fresh root environment.
//!
//! Every native receives its argument expressions unevaluated, with the
//! caller's environment, and decides itself what to evaluate; that is what
//! lets `if`, `def`, `set!`, `defun` and `lambda` control evaluation order
//! without a separate special-form layer.  Each native mirrors one arm of
//! [`spec_apply_native`].

use vstd::prelude::*;

use crate::error::{res_view, view_error, Error, SpecError};
use crate::eval::{
    clone_range, effs_view, qeval_value, spec_eval, EvalOut, Effect, SpecEffect,
};
use crate::number::{spec_add, spec_mul, spec_sub, Number};
use crate::value::{
    env_set_s, frame_get_s, names_view, render_val, val_eq_s, view_env, view_value, view_values,
    EnvHead, Native, SpecValue, Value,
};

verus! {

/// The parameter names of a parameter list, or the first element that is
/// not an atom.
pub open spec fn spec_params(ps: Seq<SpecValue>, i: int, acc: Seq<Seq<char>>) -> Result<
    Seq<Seq<char>>,
    SpecError,
>
    decreases ps.len() - i,
{
    if i < 0 || i >= ps.len() {
        Ok(acc)
    } else {
        match ps[i] {
            SpecValue::Atom(s) => spec_params(ps, i + 1, acc.push(s)),
            v => Err(SpecError::NotAnAtom(v)),
        }
    }
}

/// Folds the evaluated arguments with exact decimal arithmetic.  Addition
/// starts from zero, multiplication from one; subtraction takes its first
/// argument as the start and subtracts the rest.
pub open spec fn spec_arith_fold(
    fuel: nat,
    op: Native,
    args: Seq<SpecValue>,
    i: int,
    acc: Number,
    env: crate::value::SpecEnv,
) -> EvalOut
    decreases fuel, 1int, args.len() - i,
{
    if fuel == 0 {
        EvalOut { r: Err(SpecError::OutOfFuel), env, out: Seq::empty() }
    } else if i < 0 || i >= args.len() {
        EvalOut { r: Ok(SpecValue::Number(acc)), env, out: Seq::empty() }
    } else {
        let e = spec_eval((fuel - 1) as nat, args[i], env);
        match e.r {
            Err(er) => EvalOut { r: Err(er), env: e.env, out: e.out },
            Ok(v) => match v {
                SpecValue::Number(n) => {
                    let c = if op == Native::Add {
                        spec_add(acc, n)
                    } else if op == Native::Mul {
                        spec_mul(acc, n)
                    } else if i == 0 {
                        Some(n)
                    } else {
                        spec_sub(acc, n)
                    };
                    match c {
                        None => EvalOut { r: Err(SpecError::Overflow), env: e.env, out: e.out },
                        Some(acc2) => {
                            let rest = spec_arith_fold(fuel, op, args, i + 1, acc2, e.env);
                            EvalOut { r: rest.r, env: rest.env, out: e.out + rest.out }
                        },
                    }
                },
                _ => EvalOut { r: Err(SpecError::NotANumber(v)), env: e.env, out: e.out },
            },
        }
    }
}

/// Folds equality pairwise: the accumulator is evaluated, the next argument
/// is evaluated, and the accumulator becomes the boolean of their equality.
pub open spec fn spec_eq_fold(
    fuel: nat,
    args: Seq<SpecValue>,
    i: int,
    acc: SpecValue,
    env: crate::value::SpecEnv,
) -> EvalOut
    decreases fuel, 1int, args.len() - i,
{
    if fuel == 0 {
        EvalOut { r: Err(SpecError::OutOfFuel), env, out: Seq::empty() }
    } else if i < 0 || i >= args.len() {
        EvalOut { r: Ok(acc), env, out: Seq::empty() }
    } else {
        let c1 = spec_eval((fuel - 1) as nat, acc, env);
        match c1.r {
            Err(er) => EvalOut { r: Err(er), env: c1.env, out: c1.out },
            Ok(v1) => {
                let c2 = spec_eval((fuel - 1) as nat, args[i], c1.env);
                match c2.r {
                    Err(er) => EvalOut { r: Err(er), env: c2.env, out: c1.out + c2.out },
                    Ok(v2) => {
                        let rest = spec_eq_fold(
                            fuel,
                            args,
                            i + 1,
                            SpecValue::Bool(val_eq_s(v1, v2)),
                            c2.env,
                        );
                        EvalOut { r: rest.r, env: rest.env, out: c1.out + c2.out + rest.out }
                    },
                }
            },
        }
    }
}

/// Evaluates and renders every argument, newline-separated, and emits the
/// whole text, newline-terminated, as one print effect.
pub open spec fn spec_print_fold(
    fuel: nat,
    args: Seq<SpecValue>,
    i: int,
    text: Seq<char>,
    env: crate::value::SpecEnv,
) -> EvalOut
    decreases fuel, 1int, args.len() - i,
{
    if fuel == 0 {
        EvalOut { r: Err(SpecError::OutOfFuel), env, out: Seq::empty() }
    } else if i < 0 || i >= args.len() {
        EvalOut {
            r: Ok(SpecValue::Unit),
            env,
            out: seq![SpecEffect::Print(text.push('\n'))],
        }
    } else {
        let e = spec_eval((fuel - 1) as nat, args[i], env);
        match e.r {
            Err(er) => EvalOut { r: Err(er), env: e.env, out: e.out },
            Ok(v) => {
                let t2 = text + render_val(v) + (if i + 1 < args.len() {
                    seq!['\n']
                } else {
                    Seq::<char>::empty()
                });
                let rest = spec_print_fold(fuel, args, i + 1, t2, e.env);
                EvalOut { r: rest.r, env: rest.env, out: e.out + rest.out }
            },
        }
    }
}

/// What applying a native function to unevaluated arguments yields.
pub open spec fn spec_apply_native(
    fuel: nat,
    op: Native,
    args: Seq<SpecValue>,
    env: crate::value::SpecEnv,
) -> EvalOut
    decreases fuel, 2int, 0int,
{
    if fuel == 0 {
        EvalOut { r: Err(SpecError::OutOfFuel), env, out: Seq::empty() }
    } else {
        match op {
            Native::Add => spec_arith_fold(
                fuel,
                op,
                args,
                0,
                Number { neg: false, mant: 0, scale: 0 },
                env,
            ),
            Native::Mul => spec_arith_fold(
                fuel,
                op,
                args,
                0,
                Number { neg: false, mant: 1, scale: 0 },
                env,
            ),
            Native::Sub => spec_arith_fold(
                fuel,
                op,
                args,
                0,
                Number { neg: false, mant: 0, scale: 0 },
                env,
            ),
            Native::Equal => {
                if args.len() < 1 {
                    EvalOut { r: Err(SpecError::MissingArg), env, out: Seq::empty() }
                } else if args.len() == 1 {
                    EvalOut { r: Ok(args[0]), env, out: Seq::empty() }
                } else {
                    spec_eq_fold(fuel, args, 1, args[0], env)
                }
            },
            Native::Not => {
                if args.len() < 1 {
                    EvalOut { r: Err(SpecError::MissingArg), env, out: Seq::empty() }
                } else {
                    let e = spec_eval((fuel - 1) as nat, args[0], env);
                    match e.r {
                        Err(er) => EvalOut { r: Err(er), env: e.env, out: e.out },
                        Ok(v) => match v {
                            SpecValue::Bool(b) => EvalOut {
                                r: Ok(SpecValue::Bool(!b)),
                                env: e.env,
                                out: e.out,
                            },
                            _ => EvalOut { r: Ok(SpecValue::Bool(false)), env: e.env, out: e.out },
                        },
                    }
                }
            },
            Native::If => {
                if args.len() < 1 {
                    EvalOut { r: Err(SpecError::MissingArg), env, out: Seq::empty() }
                } else {
                    let c = spec_eval((fuel - 1) as nat, args[0], env);
                    match c.r {
                        Err(er) => EvalOut { r: Err(er), env: c.env, out: c.out },
                        Ok(v) => match v {
                            SpecValue::Bool(b) => {
                                if b {
                                    if args.len() < 2 {
                                        EvalOut {
                                            r: Err(SpecError::MissingArg),
                                            env: c.env,
                                            out: c.out,
                                        }
                                    } else {
                                        let e = spec_eval((fuel - 1) as nat, args[1], c.env);
                                        EvalOut { r: e.r, env: e.env, out: c.out + e.out }
                                    }
                                } else {
                                    if args.len() > 2 {
                                        let e = spec_eval((fuel - 1) as nat, args[2], c.env);
                                        EvalOut { r: e.r, env: e.env, out: c.out + e.out }
                                    } else {
                                        EvalOut { r: Ok(SpecValue::Unit), env: c.env, out: c.out }
                                    }
                                }
                            },
                            _ => EvalOut { r: Err(SpecError::NotABool(v)), env: c.env, out: c.out },
                        },
                    }
                }
            },
            Native::SetVar => {
                if args.len() < 1 {
                    EvalOut { r: Err(SpecError::MissingArg), env, out: Seq::empty() }
                } else {
                    match args[0] {
                        SpecValue::Atom(name) => {
                            if args.len() < 2 {
                                EvalOut { r: Err(SpecError::MissingArg), env, out: Seq::empty() }
                            } else {
                                let e = spec_eval((fuel - 1) as nat, args[1], env);
                                match e.r {
                                    Err(er) => EvalOut { r: Err(er), env: e.env, out: e.out },
                                    Ok(v) => EvalOut {
                                        r: Ok(v),
                                        env: env_set_s(e.env, name, v),
                                        out: e.out,
                                    },
                                }
                            }
                        },
                        v => EvalOut { r: Err(SpecError::NotAnAtom(v)), env, out: Seq::empty() },
                    }
                }
            },
            Native::Define => {
                if args.len() < 1 {
                    EvalOut { r: Err(SpecError::MissingArg), env, out: Seq::empty() }
                } else {
                    match args[0] {
                        SpecValue::Atom(name) => {
                            if args.len() < 2 {
                                EvalOut { r: Err(SpecError::MissingArg), env, out: Seq::empty() }
                            } else {
                                let e = spec_eval((fuel - 1) as nat, args[1], env);
                                match e.r {
                                    Err(er) => EvalOut { r: Err(er), env: e.env, out: e.out },
                                    Ok(v) => {
                                        if frame_get_s(e.env[0], name) is Some {
                                            EvalOut {
                                                r: Err(SpecError::Redefined(name)),
                                                env: e.env,
                                                out: e.out,
                                            }
                                        } else {
                                            EvalOut {
                                                r: Ok(v),
                                                env: env_set_s(e.env, name, v),
                                                out: e.out,
                                            }
                                        }
                                    },
                                }
                            }
                        },
                        v => EvalOut { r: Err(SpecError::NotAnAtom(v)), env, out: Seq::empty() },
                    }
                }
            },
            Native::Defun => {
                if args.len() < 3 {
                    EvalOut { r: Err(SpecError::MissingArg), env, out: Seq::empty() }
                } else {
                    match args[0] {
                        SpecValue::Atom(name) => match args[1] {
                            SpecValue::List(ps) => match spec_params(ps, 0, Seq::empty()) {
                                Err(er) => EvalOut { r: Err(er), env, out: Seq::empty() },
                                Ok(params) => {
                                    let f = SpecValue::Func(
                                        name,
                                        params,
                                        Box::new(SpecValue::Do(args.skip(2))),
                                        env,
                                    );
                                    if frame_get_s(env[0], name) is Some {
                                        EvalOut {
                                            r: Err(SpecError::Redefined(name)),
                                            env,
                                            out: Seq::empty(),
                                        }
                                    } else {
                                        EvalOut {
                                            r: Ok(f),
                                            env: env_set_s(env, name, f),
                                            out: Seq::empty(),
                                        }
                                    }
                                },
                            },
                            v => EvalOut { r: Err(SpecError::NotAList(v)), env, out: Seq::empty() },
                        },
                        v => EvalOut { r: Err(SpecError::NotAnAtom(v)), env, out: Seq::empty() },
                    }
                }
            },
            Native::Lambda => {
                if args.len() < 2 {
                    EvalOut { r: Err(SpecError::MissingArg), env, out: Seq::empty() }
                } else {
                    match args[0] {
                        SpecValue::List(ps) => match spec_params(ps, 0, Seq::empty()) {
                            Err(er) => EvalOut { r: Err(er), env, out: Seq::empty() },
                            Ok(params) => EvalOut {
                                r: Ok(
                                    SpecValue::Func(
                                        "anon"@,
                                        params,
                                        Box::new(SpecValue::Do(args.skip(1))),
                                        env,
                                    ),
                                ),
                                env,
                                out: Seq::empty(),
                            },
                        },
                        v => EvalOut { r: Err(SpecError::NotAList(v)), env, out: Seq::empty() },
                    }
                }
            },
            Native::PrintLn => spec_print_fold(fuel, args, 0, Seq::empty(), env),
            Native::SetCursorPos => {
                if args.len() != 2 {
                    EvalOut { r: Err(SpecError::MissingArg), env, out: Seq::empty() }
                } else {
                    let e1 = spec_eval((fuel - 1) as nat, args[0], env);
                    match e1.r {
                        Err(er) => EvalOut { r: Err(er), env: e1.env, out: e1.out },
                        Ok(v1) => {
                            let e2 = spec_eval((fuel - 1) as nat, args[1], e1.env);
                            match e2.r {
                                Err(er) => EvalOut { r: Err(er), env: e2.env, out: e1.out + e2.out },
                                Ok(v2) => match (v1, v2) {
                                    (SpecValue::Number(n1), SpecValue::Number(n2)) => EvalOut {
                                        r: Ok(SpecValue::Unit),
                                        env: e2.env,
                                        out: e1.out + e2.out + seq![SpecEffect::CursorPos(n1, n2)],
                                    },
                                    (SpecValue::Number(_), v) => EvalOut {
                                        r: Err(SpecError::NotANumber(v)),
                                        env: e2.env,
                                        out: e1.out + e2.out,
                                    },
                                    (v, _) => EvalOut {
                                        r: Err(SpecError::NotANumber(v)),
                                        env: e2.env,
                                        out: e1.out + e2.out,
                                    },
                                },
                            }
                        },
                    }
                }
            },
        }
    }
}

/// Applies the native `op`; the work is done by the matching `std_` native.
pub(crate) fn apply_native(
    op: Native,
    args: Vec<Value>,
    env: &mut EnvHead,
    out: &mut Vec<Effect>,
    fuel: u64,
) -> (r: Result<Value, Error>)
    ensures
        ({
            let o = spec_apply_native(fuel as nat, op, view_values(args@), view_env(*old(env)));
            &&& view_env(*final(env)) == o.env
            &&& effs_view(final(out)@) == effs_view(old(out)@) + o.out
            &&& res_view(r) == o.r
        }),
    decreases fuel, 2int, 1int,
{
    match op {
        Native::Add => std_add(args, env, out, fuel),
        Native::Mul => std_mul(args, env, out, fuel),
        Native::Sub => std_sub(args, env, out, fuel),
        Native::Equal => std_eq(args, env, out, fuel),
        Native::Not => std_not(args, env, out, fuel),
        Native::If => std_if(args, env, out, fuel),
        Native::SetVar => std_set(args, env, out, fuel),
        Native::Define => std_define(args, env, out, fuel),
        Native::Defun => std_defun(args, env, out, fuel),
        Native::Lambda => std_lambda(args, env, out, fuel),
        Native::PrintLn => std_print_ln(args, env, out, fuel),
        Native::SetCursorPos => std_set_cursor_pos(args, env, out, fuel),
    }
}

/// The empty effect delta, for returns that emit nothing.
proof fn lemma_no_effects(s: Seq<Effect>)
    ensures
        effs_view(s) == effs_view(s) + Seq::<SpecEffect>::empty(),
{
    assert(effs_view(s) =~= effs_view(s) + Seq::<SpecEffect>::empty());
}

/// Folds arguments with the arithmetic of `op`.
fn arith_fold(
    op: Native,
    args: &Vec<Value>,
    i: usize,
    acc: Number,
    env: &mut EnvHead,
    out: &mut Vec<Effect>,
    fuel: u64,
) -> (r: Result<Value, Error>)
    requires
        i <= args@.len(),
        fuel >= 1,
    ensures
        ({
            let o = spec_arith_fold(
                fuel as nat,
                op,
                view_values(args@),
                i as int,
                acc,
                view_env(*old(env)),
            );
            &&& view_env(*final(env)) == o.env
            &&& effs_view(final(out)@) == effs_view(old(out)@) + o.out
            &&& res_view(r) == o.r
        }),
    decreases fuel, 1int, args@.len() - i,
{
    proof {
        crate::value::lemma_view_values(args@);
        lemma_no_effects(out@);
    }
    if i >= args.len() {
        return Ok(Value::Number(acc));
    }
    let ghost env0 = view_env(*env);
    let ghost out0 = effs_view(out@);
    let elem = (&args[i]).clone();
    let e = qeval_value(elem, env, out, fuel - 1);
    match e {
        Err(er) => Err(er),
        Ok(v) => match v {
            Value::Number(n) => {
                let c: Option<Number> = if op == Native::Add {
                    acc.checked_add(n)
                } else if op == Native::Mul {
                    acc.checked_mul(n)
                } else if i == 0 {
                    Some(n)
                } else {
                    acc.checked_sub(n)
                };
                match c {
                    None => Err(Error::Overflow),
                    Some(acc2) => {
                        let ghost e_s = spec_eval(
                            (fuel - 1) as nat,
                            view_values(args@)[i as int],
                            env0,
                        );
                        let r2 = arith_fold(op, args, i + 1, acc2, env, out, fuel);
                        proof {
                            let rest = spec_arith_fold(
                                fuel as nat,
                                op,
                                view_values(args@),
                                i + 1,
                                acc2,
                                e_s.env,
                            );
                            assert(effs_view(out@) =~= out0 + (e_s.out + rest.out));
                        }
                        r2
                    },
                }
            },
            other => Err(Error::NotANumber(other)),
        },
    }
}

/// Sums the evaluated arguments exactly.
pub fn std_add(args: Vec<Value>, env: &mut EnvHead, out: &mut Vec<Effect>, fuel: u64) -> (r: Result<
    Value,
    Error,
>)
    ensures
        ({
            let o = spec_apply_native(
                fuel as nat,
                Native::Add,
                view_values(args@),
                view_env(*old(env)),
            );
            &&& view_env(*final(env)) == o.env
            &&& effs_view(final(out)@) == effs_view(old(out)@) + o.out
            &&& res_view(r) == o.r
        }),
    decreases fuel, 2int, 0int,
{
    if fuel == 0 {
        proof {
            lemma_no_effects(out@);
        }
        return Err(Error::OutOfFuel);
    }
    arith_fold(Native::Add, &args, 0, Number { neg: false, mant: 0, scale: 0 }, env, out, fuel)
}

/// Multiplies the evaluated arguments exactly.
pub fn std_mul(args: Vec<Value>, env: &mut EnvHead, out: &mut Vec<Effect>, fuel: u64) -> (r: Result<
    Value,
    Error,
>)
    ensures
        ({
            let o = spec_apply_native(
                fuel as nat,
                Native::Mul,
                view_values(args@),
                view_env(*old(env)),
            );
            &&& view_env(*final(env)) == o.env
            &&& effs_view(final(out)@) == effs_view(old(out)@) + o.out
            &&& res_view(r) == o.r
        }),
    decreases fuel, 2int, 0int,
{
    if fuel == 0 {
        proof {
            lemma_no_effects(out@);
        }
        return Err(Error::OutOfFuel);
    }
    arith_fold(Native::Mul, &args, 0, Number { neg: false, mant: 1, scale: 0 }, env, out, fuel)
}

/// Subtracts the later evaluated arguments from the first.
pub fn std_sub(args: Vec<Value>, env: &mut EnvHead, out: &mut Vec<Effect>, fuel: u64) -> (r: Result<
    Value,
    Error,
>)
    ensures
        ({
            let o = spec_apply_native(
                fuel as nat,
                Native::Sub,
                view_values(args@),
                view_env(*old(env)),
            );
            &&& view_env(*final(env)) == o.env
            &&& effs_view(final(out)@) == effs_view(old(out)@) + o.out
            &&& res_view(r) == o.r
        }),
    decreases fuel, 2int, 0int,
{
    if fuel == 0 {
        proof {
            lemma_no_effects(out@);
        }
        return Err(Error::OutOfFuel);
    }
    arith_fold(Native::Sub, &args, 0, Number { neg: false, mant: 0, scale: 0 }, env, out, fuel)
}

/// Folds language-level equality over the arguments.
fn eq_fold(
    args: &Vec<Value>,
    i: usize,
    acc: Value,
    env: &mut EnvHead,
    out: &mut Vec<Effect>,
    fuel: u64,
) -> (r: Result<Value, Error>)
    requires
        i <= args@.len(),
        fuel >= 1,
    ensures
        ({
            let o = spec_eq_fold(
                fuel as nat,
                view_values(args@),
                i as int,
                view_value(acc),
                view_env(*old(env)),
            );
            &&& view_env(*final(env)) == o.env
            &&& effs_view(final(out)@) == effs_view(old(out)@) + o.out
            &&& res_view(r) == o.r
        }),
    decreases fuel, 1int, args@.len() - i,
{
    proof {
        crate::value::lemma_view_values(args@);
        lemma_no_effects(out@);
    }
    if i >= args.len() {
        return Ok(acc);
    }
    let ghost env0 = view_env(*env);
    let ghost out0 = effs_view(out@);
    let ghost acc0 = view_value(acc);
    let c1 = qeval_value(acc, env, out, fuel - 1);
    match c1 {
        Err(er) => Err(er),
        Ok(v1) => {
            let ghost c1_s = spec_eval((fuel - 1) as nat, acc0, env0);
            let elem = (&args[i]).clone();
            let c2 = qeval_value(elem, env, out, fuel - 1);
            match c2 {
                Err(er) => {
                    proof {
                        let c2_s = spec_eval(
                            (fuel - 1) as nat,
                            view_values(args@)[i as int],
                            c1_s.env,
                        );
                        assert(effs_view(out@) =~= out0 + (c1_s.out + c2_s.out));
                    }
                    Err(er)
                },
                Ok(v2) => {
                    let ghost c2_s = spec_eval(
                        (fuel - 1) as nat,
                        view_values(args@)[i as int],
                        c1_s.env,
                    );
                    let b = Value::Bool(v1 == v2);
                    let r2 = eq_fold(args, i + 1, b, env, out, fuel);
                    proof {
                        let rest = spec_eq_fold(
                            fuel as nat,
                            view_values(args@),
                            i + 1,
                            SpecValue::Bool(val_eq_s(view_value(v1), view_value(v2))),
                            c2_s.env,
                        );
                        assert(effs_view(out@) =~= out0 + (c1_s.out + c2_s.out + rest.out));
                    }
                    r2
                },
            }
        },
    }
}

/// Compares the evaluated arguments pairwise for language-level equality.
pub fn std_eq(args: Vec<Value>, env: &mut EnvHead, out: &mut Vec<Effect>, fuel: u64) -> (r: Result<
    Value,
    Error,
>)
    ensures
        ({
            let o = spec_apply_native(
                fuel as nat,
                Native::Equal,
                view_values(args@),
                view_env(*old(env)),
            );
            &&& view_env(*final(env)) == o.env
            &&& effs_view(final(out)@) == effs_view(old(out)@) + o.out
            &&& res_view(r) == o.r
        }),
    decreases fuel, 2int, 0int,
{
    proof {
        crate::value::lemma_view_values(args@);
        lemma_no_effects(out@);
    }
    if fuel == 0 {
        return Err(Error::OutOfFuel);
    }
    if args.len() < 1 {
        return Err(Error::MissingArg);
    }
    if args.len() == 1 {
        let v = (&args[0]).clone();
        return Ok(v);
    }
    let acc = (&args[0]).clone();
    eq_fold(&args, 1, acc, env, out, fuel)
}

/// Negates an evaluated boolean; anything else becomes false.
pub fn std_not(args: Vec<Value>, env: &mut EnvHead, out: &mut Vec<Effect>, fuel: u64) -> (r: Result<
    Value,
    Error,
>)
    ensures
        ({
            let o = spec_apply_native(
                fuel as nat,
                Native::Not,
                view_values(args@),
                view_env(*old(env)),
            );
            &&& view_env(*final(env)) == o.env
            &&& effs_view(final(out)@) == effs_view(old(out)@) + o.out
            &&& res_view(r) == o.r
        }),
    decreases fuel, 2int, 0int,
{
    proof {
        crate::value::lemma_view_values(args@);
        lemma_no_effects(out@);
    }
    if fuel == 0 {
        return Err(Error::OutOfFuel);
    }
    if args.len() < 1 {
        return Err(Error::MissingArg);
    }
    let elem = (&args[0]).clone();
    let e = qeval_value(elem, env, out, fuel - 1);
    match e {
        Err(er) => Err(er),
        Ok(Value::Bool(b)) => Ok(Value::Bool(!b)),
        Ok(_) => Ok(Value::Bool(false)),
    }
}

/// Evaluates the condition; on true evaluates and yields only the second
/// argument, on false only the third, or unit when there is none.
pub fn std_if(args: Vec<Value>, env: &mut EnvHead, out: &mut Vec<Effect>, fuel: u64) -> (r: Result<
    Value,
    Error,
>)
    ensures
        ({
            let o = spec_apply_native(
                fuel as nat,
                Native::If,
                view_values(args@),
                view_env(*old(env)),
            );
            &&& view_env(*final(env)) == o.env
            &&& effs_view(final(out)@) == effs_view(old(out)@) + o.out
            &&& res_view(r) == o.r
        }),
    decreases fuel, 2int, 0int,
{
    proof {
        crate::value::lemma_view_values(args@);
        lemma_no_effects(out@);
    }
    if fuel == 0 {
        return Err(Error::OutOfFuel);
    }
    if args.len() < 1 {
        return Err(Error::MissingArg);
    }
    let ghost env0 = view_env(*env);
    let ghost out0 = effs_view(out@);
    let cond = (&args[0]).clone();
    let c = qeval_value(cond, env, out, fuel - 1);
    let ghost c_s = spec_eval((fuel - 1) as nat, view_values(args@)[0], env0);
    match c {
        Err(er) => Err(er),
        Ok(Value::Bool(b)) => {
            if b {
                if args.len() < 2 {
                    return Err(Error::MissingArg);
                }
                let taken = (&args[1]).clone();
                let e = qeval_value(taken, env, out, fuel - 1);
                proof {
                    let e_s = spec_eval((fuel - 1) as nat, view_values(args@)[1], c_s.env);
                    assert(effs_view(out@) =~= out0 + (c_s.out + e_s.out));
                }
                e
            } else {
                if args.len() > 2 {
                    let taken = (&args[2]).clone();
                    let e = qeval_value(taken, env, out, fuel - 1);
                    proof {
                        let e_s = spec_eval((fuel - 1) as nat, view_values(args@)[2], c_s.env);
                        assert(effs_view(out@) =~= out0 + (c_s.out + e_s.out));
                    }
                    e
                } else {
                    Ok(Value::Unit)
                }
            }
        },
        Ok(v) => Err(Error::NotABool(v)),
    }
}

/// Binds the evaluated second argument to the first argument's name in the
/// innermost frame, overwriting any earlier binding.
pub fn std_set(args: Vec<Value>, env: &mut EnvHead, out: &mut Vec<Effect>, fuel: u64) -> (r: Result<
    Value,
    Error,
>)
    ensures
        ({
            let o = spec_apply_native(
                fuel as nat,
                Native::SetVar,
                view_values(args@),
                view_env(*old(env)),
            );
            &&& view_env(*final(env)) == o.env
            &&& effs_view(final(out)@) == effs_view(old(out)@) + o.out
            &&& res_view(r) == o.r
        }),
    decreases fuel, 2int, 0int,
{
    proof {
        crate::value::lemma_view_values(args@);
        lemma_no_effects(out@);
    }
    if fuel == 0 {
        return Err(Error::OutOfFuel);
    }
    if args.len() < 1 {
        return Err(Error::MissingArg);
    }
    let name = match &args[0] {
        Value::Atom(s) => s.clone(),
        _ => {
            let v = (&args[0]).clone();
            return Err(Error::NotAnAtom(v));
        },
    };
    if args.len() < 2 {
        return Err(Error::MissingArg);
    }
    let elem = (&args[1]).clone();
    let e = qeval_value(elem, env, out, fuel - 1);
    match e {
        Err(er) => Err(er),
        Ok(v) => {
            let v2 = v.clone();
            env.set(name, v2);
            Ok(v)
        },
    }
}

/// Binds the evaluated second argument to a fresh name; a name already
/// bound in the innermost frame is a redefinition error.
pub fn std_define(args: Vec<Value>, env: &mut EnvHead, out: &mut Vec<Effect>, fuel: u64) -> (r:
    Result<Value, Error>)
    ensures
        ({
            let o = spec_apply_native(
                fuel as nat,
                Native::Define,
                view_values(args@),
                view_env(*old(env)),
            );
            &&& view_env(*final(env)) == o.env
            &&& effs_view(final(out)@) == effs_view(old(out)@) + o.out
            &&& res_view(r) == o.r
        }),
    decreases fuel, 2int, 0int,
{
    proof {
        crate::value::lemma_view_values(args@);
        lemma_no_effects(out@);
    }
    if fuel == 0 {
        return Err(Error::OutOfFuel);
    }
    if args.len() < 1 {
        return Err(Error::MissingArg);
    }
    let name = match &args[0] {
        Value::Atom(s) => s.clone(),
        _ => {
            let v = (&args[0]).clone();
            return Err(Error::NotAnAtom(v));
        },
    };
    if args.len() < 2 {
        return Err(Error::MissingArg);
    }
    let elem = (&args[1]).clone();
    let e = qeval_value(elem, env, out, fuel - 1);
    match e {
        Err(er) => Err(er),
        Ok(v) => {
            if env.has_local(&name) {
                return Err(Error::Redefined(name));
            }
            let v2 = v.clone();
            env.set(name, v2);
            Ok(v)
        },
    }
}

/// Collects the parameter names of a parameter list.
fn collect_params(ps: &Vec<Value>) -> (r: Result<Vec<String>, Error>)
    ensures
        (match r {
            Ok(names) => spec_params(view_values(ps@), 0, Seq::empty()) == Ok::<_, SpecError>(
                names_view(names@),
            ),
            Err(e) => spec_params(view_values(ps@), 0, Seq::empty()) == Err::<Seq<Seq<char>>, _>(
                view_error(e),
            ),
        }),
{
    proof {
        crate::value::lemma_view_values(ps@);
    }
    let mut names: Vec<String> = Vec::new();
    let mut i: usize = 0;
    proof {
        assert(names_view(names@) =~= Seq::<Seq<char>>::empty());
    }
    while i < ps.len()
        invariant
            i <= ps@.len(),
            names@.len() == i,
            spec_params(view_values(ps@), 0, Seq::empty()) == spec_params(
                view_values(ps@),
                i as int,
                names_view(names@),
            ),
        decreases ps@.len() - i,
    {
        proof {
            crate::value::lemma_view_values(ps@);
        }
        match &ps[i] {
            Value::Atom(s) => {
                let ghost prev = names_view(names@);
                let ghost gs = s@;
                names.push(s.clone());
                i = i + 1;
                proof {
                    assert(names_view(names@) =~= prev.push(gs));
                }
            },
            _ => {
                let v = (&ps[i]).clone();
                return Err(Error::NotAnAtom(v));
            },
        }
    }
    proof {
        assert(names_view(names@) == names_view(names@));
    }
    Ok(names)
}

/// Defines a named closure: the parameter names, the body as an explicit
/// sequence, and a snapshot of the defining environment; the new name must
/// be fresh in the innermost frame.
pub fn std_defun(args: Vec<Value>, env: &mut EnvHead, out: &mut Vec<Effect>, fuel: u64) -> (r:
    Result<Value, Error>)
    ensures
        ({
            let o = spec_apply_native(
                fuel as nat,
                Native::Defun,
                view_values(args@),
                view_env(*old(env)),
            );
            &&& view_env(*final(env)) == o.env
            &&& effs_view(final(out)@) == effs_view(old(out)@) + o.out
            &&& res_view(r) == o.r
        }),
    decreases fuel, 2int, 0int,
{
    proof {
        crate::value::lemma_view_values(args@);
        lemma_no_effects(out@);
    }
    if fuel == 0 {
        return Err(Error::OutOfFuel);
    }
    if args.len() < 3 {
        return Err(Error::MissingArg);
    }
    let name = match &args[0] {
        Value::Atom(s) => s.clone(),
        _ => {
            let v = (&args[0]).clone();
            return Err(Error::NotAnAtom(v));
        },
    };
    let params = match &args[1] {
        Value::List(ps) => match collect_params(ps) {
            Ok(names) => names,
            Err(e) => {
                return Err(e);
            },
        },
        _ => {
            let v = (&args[1]).clone();
            return Err(Error::NotAList(v));
        },
    };
    let ghost gbody = SpecValue::Do(view_values(args@).skip(2));
    let ghost gparams = names_view(params@);
    let body = Value::Do(clone_range(&args, 2));
    proof {
        assert(view_value(body) == gbody);
    }
    let cap = env.clone();
    let ghost gcap = view_env(cap);
    let f = Value::Func(name.clone(), params, Box::new(body), Box::new(cap));
    proof {
        assert(view_value(f) == SpecValue::Func(name@, gparams, Box::new(gbody), gcap));
    }
    if env.has_local(&name) {
        return Err(Error::Redefined(name));
    }
    let f2 = f.clone();
    env.set(name, f2);
    Ok(f)
}

/// Builds an anonymous closure over the current environment.
pub fn std_lambda(args: Vec<Value>, env: &mut EnvHead, out: &mut Vec<Effect>, fuel: u64) -> (r:
    Result<Value, Error>)
    ensures
        ({
            let o = spec_apply_native(
                fuel as nat,
                Native::Lambda,
                view_values(args@),
                view_env(*old(env)),
            );
            &&& view_env(*final(env)) == o.env
            &&& effs_view(final(out)@) == effs_view(old(out)@) + o.out
            &&& res_view(r) == o.r
        }),
    decreases fuel, 2int, 0int,
{
    proof {
        crate::value::lemma_view_values(args@);
        lemma_no_effects(out@);
    }
    if fuel == 0 {
        return Err(Error::OutOfFuel);
    }
    if args.len() < 2 {
        return Err(Error::MissingArg);
    }
    let params = match &args[0] {
        Value::List(ps) => match collect_params(ps) {
            Ok(names) => names,
            Err(e) => {
                return Err(e);
            },
        },
        _ => {
            let v = (&args[0]).clone();
            return Err(Error::NotAList(v));
        },
    };
    let ghost gbody = SpecValue::Do(view_values(args@).skip(1));
    let ghost gparams = names_view(params@);
    let body = Value::Do(clone_range(&args, 1));
    proof {
        assert(view_value(body) == gbody);
    }
    let cap = env.clone();
    let ghost gcap = view_env(cap);
    let f = Value::Func("anon".to_owned(), params, Box::new(body), Box::new(cap));
    proof {
        assert(view_value(f) == SpecValue::Func("anon"@, gparams, Box::new(gbody), gcap));
    }
    Ok(f)
}

/// Evaluates and renders the arguments, then emits one newline-terminated
/// print effect.
fn print_fold(
    args: &Vec<Value>,
    i: usize,
    text: Vec<char>,
    env: &mut EnvHead,
    out: &mut Vec<Effect>,
    fuel: u64,
) -> (r: Result<Value, Error>)
    requires
        i <= args@.len(),
        fuel >= 1,
    ensures
        ({
            let o = spec_print_fold(
                fuel as nat,
                view_values(args@),
                i as int,
                text@,
                view_env(*old(env)),
            );
            &&& view_env(*final(env)) == o.env
            &&& effs_view(final(out)@) == effs_view(old(out)@) + o.out
            &&& res_view(r) == o.r
        }),
    decreases fuel, 1int, args@.len() - i,
{
    proof {
        crate::value::lemma_view_values(args@);
    }
    if i >= args.len() {
        let mut text2 = text;
        text2.push('\n');
        let s = crate::text::chars_to_string(&text2);
        let ghost out0 = effs_view(out@);
        out.push(Effect::Print(s));
        proof {
            assert(effs_view(out@) =~= out0 + seq![SpecEffect::Print(text@.push('\n'))]);
        }
        return Ok(Value::Unit);
    }
    let ghost env0 = view_env(*env);
    let ghost out0 = effs_view(out@);
    let elem = (&args[i]).clone();
    let e = qeval_value(elem, env, out, fuel - 1);
    match e {
        Err(er) => Err(er),
        Ok(v) => {
            let rendered = v.render();
            let cs = crate::text::str_chars(rendered.as_str());
            let mut text2 = text;
            crate::number::extend_chars(&mut text2, &cs, 0, cs.len());
            if i + 1 < args.len() {
                text2.push('\n');
            }
            let ghost e_s = spec_eval((fuel - 1) as nat, view_values(args@)[i as int], env0);
            proof {
                assert(cs@.subrange(0, cs@.len() as int) =~= cs@);
                assert(text2@ =~= text@ + render_val(view_value(v)) + (if i + 1
                    < args@.len() {
                    seq!['\n']
                } else {
                    Seq::<char>::empty()
                }));
            }
            let r2 = print_fold(args, i + 1, text2, env, out, fuel);
            proof {
                let rest = spec_print_fold(
                    fuel as nat,
                    view_values(args@),
                    i + 1,
                    text@ + render_val(view_value(v)) + (if i + 1 < args@.len() {
                        seq!['\n']
                    } else {
                        Seq::<char>::empty()
                    }),
                    e_s.env,
                );
                assert(effs_view(out@) =~= out0 + (e_s.out + rest.out));
            }
            r2
        },
    }
}

/// Prints the evaluated arguments, newline-separated and newline-terminated.
fn std_print_ln(args: Vec<Value>, env: &mut EnvHead, out: &mut Vec<Effect>, fuel: u64) -> (r:
    Result<Value, Error>)
    ensures
        ({
            let o = spec_apply_native(
                fuel as nat,
                Native::PrintLn,
                view_values(args@),
                view_env(*old(env)),
            );
            &&& view_env(*final(env)) == o.env
            &&& effs_view(final(out)@) == effs_view(old(out)@) + o.out
            &&& res_view(r) == o.r
        }),
    decreases fuel, 2int, 0int,
{
    if fuel == 0 {
        proof {
            lemma_no_effects(out@);
        }
        return Err(Error::OutOfFuel);
    }
    print_fold(&args, 0, Vec::new(), env, out, fuel)
}

/// Evaluates two coordinates and emits a cursor-move effect.
pub fn std_set_cursor_pos(args: Vec<Value>, env: &mut EnvHead, out: &mut Vec<Effect>, fuel: u64) -> (
    r: Result<Value, Error>)
    ensures
        ({
            let o = spec_apply_native(
                fuel as nat,
                Native::SetCursorPos,
                view_values(args@),
                view_env(*old(env)),
            );
            &&& view_env(*final(env)) == o.env
            &&& effs_view(final(out)@) == effs_view(old(out)@) + o.out
            &&& res_view(r) == o.r
        }),
    decreases fuel, 2int, 0int,
{
    proof {
        crate::value::lemma_view_values(args@);
        lemma_no_effects(out@);
    }
    if fuel == 0 {
        return Err(Error::OutOfFuel);
    }
    if args.len() != 2 {
        return Err(Error::MissingArg);
    }
    let ghost env0 = view_env(*env);
    let ghost out0 = effs_view(out@);
    let x = (&args[0]).clone();
    let e1 = qeval_value(x, env, out, fuel - 1);
    let ghost e1_s = spec_eval((fuel - 1) as nat, view_values(args@)[0], env0);
    match e1 {
        Err(er) => Err(er),
        Ok(v1) => {
            let y = (&args[1]).clone();
            let e2 = qeval_value(y, env, out, fuel - 1);
            let ghost e2_s = spec_eval((fuel - 1) as nat, view_values(args@)[1], e1_s.env);
            proof {
                assert(effs_view(out@) =~= out0 + (e1_s.out + e2_s.out));
            }
            match e2 {
                Err(er) => Err(er),
                Ok(v2) => match (v1, v2) {
                    (Value::Number(n1), Value::Number(n2)) => {
                        let ghost outp = effs_view(out@);
                        out.push(Effect::CursorPos(n1, n2));
                        proof {
                            assert(effs_view(out@) =~= outp + seq![
                                SpecEffect::CursorPos(n1, n2),
                            ]);
                            assert(effs_view(out@) =~= out0 + (e1_s.out + e2_s.out + seq![
                                SpecEffect::CursorPos(n1, n2),
                            ]));
                        }
                        Ok(Value::Unit)
                    },
                    (Value::Number(n1), other) => Err(Error::NotANumber(other)),
                    (other, _) => Err(Error::NotANumber(other)),
                },
            }
        },
    }
}

/// The bindings of the standard environment, in the order they are made.
pub open spec fn std_frame() -> crate::value::SpecFrame {
    seq![
        ("*version*"@, SpecValue::Str("0.0.0"@)),
        ("print"@, SpecValue::NativeFunc(Native::PrintLn)),
        ("println"@, SpecValue::NativeFunc(Native::PrintLn)),
        ("io/set-cursor-pos"@, SpecValue::NativeFunc(Native::SetCursorPos)),
        ("+"@, SpecValue::NativeFunc(Native::Add)),
        ("-"@, SpecValue::NativeFunc(Native::Sub)),
        ("*"@, SpecValue::NativeFunc(Native::Mul)),
        ("eq"@, SpecValue::NativeFunc(Native::Equal)),
        ("not"@, SpecValue::NativeFunc(Native::Not)),
        ("if"@, SpecValue::NativeFunc(Native::If)),
        ("def"@, SpecValue::NativeFunc(Native::Define)),
        ("set!"@, SpecValue::NativeFunc(Native::SetVar)),
        ("lambda"@, SpecValue::NativeFunc(Native::Lambda)),
        ("defun"@, SpecValue::NativeFunc(Native::Defun)),
    ]
}

/// A fresh root environment holding one frame with the standard bindings.
pub fn make_std_env() -> (e: EnvHead)
    ensures
        view_env(e) == seq![std_frame()],
{
    let mut env = EnvHead::new();
    env.set("*version*".to_owned(), Value::Str("0.0.0".to_owned()));
    env.set("print".to_owned(), Value::NativeFunc(Native::PrintLn));
    env.set("println".to_owned(), Value::NativeFunc(Native::PrintLn));
    env.set("io/set-cursor-pos".to_owned(), Value::NativeFunc(Native::SetCursorPos));
    env.set("+".to_owned(), Value::NativeFunc(Native::Add));
    env.set("-".to_owned(), Value::NativeFunc(Native::Sub));
    env.set("*".to_owned(), Value::NativeFunc(Native::Mul));
    env.set("eq".to_owned(), Value::NativeFunc(Native::Equal));
    env.set("not".to_owned(), Value::NativeFunc(Native::Not));
    env.set("if".to_owned(), Value::NativeFunc(Native::If));
    env.set("def".to_owned(), Value::NativeFunc(Native::Define));
    env.set("set!".to_owned(), Value::NativeFunc(Native::SetVar));
    env.set("lambda".to_owned(), Value::NativeFunc(Native::Lambda));
    env.set("defun".to_owned(), Value::NativeFunc(Native::Defun));
    proof {
        assert(view_env(env) =~~= seq![std_frame()]);
    }
    env
}

} // verus!
