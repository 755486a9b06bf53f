//! Evaluator behaviour: special forms, closures, environments and effects.

use harp::error::Error;
use harp::eval::{qeval_progn, Effect};
use harp::number::Number;
use harp::prelude::make_std_env;
use harp::reader::Reader;
use harp::value::{EnvHead, Value};

const FUEL: u64 = 1_000_000;

fn run_in(env: &mut EnvHead, source: &str) -> (Result<Value, Error>, Vec<Effect>) {
    let mut reader = Reader::new(source);
    let progn = reader.next_progn().expect("parse failure");
    let mut out: Vec<Effect> = Vec::new();
    let r = qeval_progn(&progn, env, &mut out, FUEL);
    (r, out)
}

fn run(source: &str) -> (Result<Value, Error>, Vec<Effect>) {
    let mut env = make_std_env();
    run_in(&mut env, source)
}

fn num(neg: bool, mant: u64, scale: u32) -> Value {
    Value::Number(Number::from_parts(neg, mant, scale))
}

#[test]
fn value_env_test() {
    let mut env = EnvHead::new();
    env.set("global".to_string(), num(false, 123, 0));
    assert_eq!(env.get("global".to_string()), Some(num(false, 123, 0)));

    let mut env = env.push();
    env.set("local".to_string(), Value::Bool(true));

    assert_eq!(env.get("global".to_string()), Some(num(false, 123, 0)));
    assert_eq!(env.get("local".to_string()), Some(Value::Bool(true)));

    match env.pop() {
        Some(env) => {
            assert_eq!(env.get("local".to_string()), None);
        }
        None => {}
    }
}

#[test]
fn eval_literals_test() {
    assert_eq!(run("42").0.unwrap(), num(false, 42, 0));
    assert_eq!(run("#t").0.unwrap(), Value::Bool(true));
    assert_eq!(run("\"hi\"").0.unwrap(), Value::Str("hi".to_string()));
}

#[test]
fn eval_arithmetic_test() {
    assert_eq!(run("(+ 1 2)").0.unwrap(), num(false, 3, 0));
    assert_eq!(run("(+ 0.1 0.2)").0.unwrap(), num(false, 3, 1));
    assert_eq!(run("(- 5 1.5)").0.unwrap(), num(false, 35, 1));
    assert_eq!(run("(- 7)").0.unwrap(), num(false, 7, 0));
    assert_eq!(run("(* 1.5 2)").0.unwrap(), num(false, 3, 0));
    assert_eq!(run("(* -2 3)").0.unwrap(), num(true, 6, 0));
    assert_eq!(run("(+)").0.unwrap(), num(false, 0, 0));
    assert_eq!(run("(*)").0.unwrap(), num(false, 1, 0));
}

#[test]
fn eval_arithmetic_overflow_test() {
    match run("(+ 18446744073709551615 1)").0 {
        Err(Error::Overflow) => {}
        other => panic!("expected overflow, got {:?}", other),
    }
}

#[test]
fn eval_eq_and_not_test() {
    assert_eq!(run("(eq 1 1)").0.unwrap(), Value::Bool(true));
    assert_eq!(run("(eq 1 2)").0.unwrap(), Value::Bool(false));
    assert_eq!(run("(eq 1.0 1)").0.unwrap(), Value::Bool(true));
    assert_eq!(run("(eq \"a\" \"a\")").0.unwrap(), Value::Bool(true));
    assert_eq!(run("(not #t)").0.unwrap(), Value::Bool(false));
    assert_eq!(run("(not 5)").0.unwrap(), Value::Bool(false));
}

#[test]
fn eval_if_lazy_test() {
    // The untaken branch is never evaluated: a definition in it must not
    // appear in the environment afterwards.
    let mut env = make_std_env();
    let (r, _) = run_in(&mut env, "(if #t 1 (def witness 1))");
    assert_eq!(r.unwrap(), num(false, 1, 0));
    assert_eq!(env.get("witness".to_string()), None);

    let mut env = make_std_env();
    let (r, _) = run_in(&mut env, "(if #f (def witness 1) 2)");
    assert_eq!(r.unwrap(), num(false, 2, 0));
    assert_eq!(env.get("witness".to_string()), None);

    // The taken branch does run.
    let mut env = make_std_env();
    let (r, _) = run_in(&mut env, "(if #f 1 (def witness 3))");
    assert_eq!(r.unwrap(), num(false, 3, 0));
    assert_eq!(env.get("witness".to_string()), Some(num(false, 3, 0)));
}

#[test]
fn eval_if_without_else_test() {
    assert!(matches!(run("(if #f 1)").0.unwrap(), Value::Unit));
    match run("(if 5 1 2)").0 {
        Err(Error::NotABool(v)) => assert_eq!(v, num(false, 5, 0)),
        other => panic!("expected a type error, got {:?}", other),
    }
}

#[test]
fn eval_def_redefinition_test() {
    let mut env = make_std_env();
    let (r, _) = run_in(&mut env, "(def x 5)");
    assert_eq!(r.unwrap(), num(false, 5, 0));
    match run_in(&mut env, "(def x 6)").0 {
        Err(Error::Redefined(name)) => assert_eq!(name, "x"),
        other => panic!("expected a redefinition error, got {:?}", other),
    }
}

#[test]
fn eval_set_overwrites_test() {
    let mut env = make_std_env();
    run_in(&mut env, "(def x 5)").0.unwrap();
    let (r, _) = run_in(&mut env, "(set! x 6)");
    assert_eq!(r.unwrap(), num(false, 6, 0));
    let (r, _) = run_in(&mut env, "x");
    assert_eq!(r.unwrap(), num(false, 6, 0));
}

#[test]
fn eval_lambda_application_test() {
    assert_eq!(run("((lambda (a b) (+ a b)) 3 4)").0.unwrap(), num(false, 7, 0));
}

#[test]
fn eval_nested_closure_capture_test() {
    let mut env = make_std_env();
    run_in(&mut env, "(defun make-adder (n) (lambda (x) (+ x n)))").0.unwrap();
    let (r, _) = run_in(&mut env, "((make-adder 5) 10)");
    assert_eq!(r.unwrap(), num(false, 15, 0));
}

#[test]
fn eval_recursion_test() {
    let mut env = make_std_env();
    run_in(&mut env, "(defun fact (n) (if (eq n 0) 1 (* n (fact (- n 1)))))").0.unwrap();
    let (r, _) = run_in(&mut env, "(fact 5)");
    assert_eq!(r.unwrap(), num(false, 120, 0));
}

#[test]
fn eval_undefined_variable_test() {
    match run("nowhere").0 {
        Err(Error::Undefined(name)) => assert_eq!(name, "nowhere"),
        other => panic!("expected an undefined-variable error, got {:?}", other),
    }
}

#[test]
fn eval_illegal_call_target_test() {
    match run("(1 2)").0 {
        Err(Error::NotCallable(v)) => assert_eq!(v, num(false, 1, 0)),
        other => panic!("expected an illegal-call error, got {:?}", other),
    }
}

#[test]
fn eval_type_errors_test() {
    match run("(+ #t)").0 {
        Err(Error::NotANumber(v)) => assert_eq!(v, Value::Bool(true)),
        other => panic!("expected a type error, got {:?}", other),
    }
    match run("(def 5 1)").0 {
        Err(Error::NotAnAtom(v)) => assert_eq!(v, num(false, 5, 0)),
        other => panic!("expected a type error, got {:?}", other),
    }
    match run("(lambda 5 1)").0 {
        Err(Error::NotAList(v)) => assert_eq!(v, num(false, 5, 0)),
        other => panic!("expected a type error, got {:?}", other),
    }
    match run("(if #t)").0 {
        Err(Error::MissingArg) => {}
        other => panic!("expected a missing-argument error, got {:?}", other),
    }
}

#[test]
fn eval_do_sequence_test() {
    // A program is a sequence: every expression runs, the last one's value
    // comes back.
    let mut env = make_std_env();
    let (r, _) = run_in(&mut env, "(def a 1) (set! a (+ a 1)) a");
    assert_eq!(r.unwrap(), num(false, 2, 0));
}

#[test]
fn eval_print_effect_test() {
    let (r, out) = run("(println 1 \"two\")");
    assert!(matches!(r.unwrap(), Value::Unit));
    assert_eq!(out, vec![Effect::Print("1\ntwo\n".to_string())]);
}

#[test]
fn eval_cursor_effect_test() {
    let (r, out) = run("(io/set-cursor-pos 3 4)");
    assert!(matches!(r.unwrap(), Value::Unit));
    assert_eq!(
        out,
        vec![Effect::CursorPos(
            Number::from_parts(false, 3, 0),
            Number::from_parts(false, 4, 0)
        )]
    );
}

#[test]
fn eval_out_of_fuel_test() {
    let mut env = make_std_env();
    let mut reader = Reader::new("(+ 1 2)");
    let progn = reader.next_progn().unwrap();
    let mut out: Vec<Effect> = Vec::new();
    match qeval_progn(&progn, &mut env, &mut out, 0) {
        Err(Error::OutOfFuel) => {}
        other => panic!("expected fuel exhaustion, got {:?}", other),
    }
}

#[test]
fn eval_version_binding_test() {
    let (r, _) = run("*version*");
    assert_eq!(r.unwrap(), Value::Str("0.0.0".to_string()));
}

#[test]
fn eval_callables_compare_false_test() {
    // Equality between callables, or between a callable and anything, is
    // always false.
    assert_eq!(run("(eq if if)").0.unwrap(), Value::Bool(false));
    assert_eq!(run("(eq (lambda (x) x) (lambda (x) x))").0.unwrap(), Value::Bool(false));
}

#[test]
fn eval_value_display_test() {
    let (r, _) = run("(- 0 3.25)");
    let v = r.unwrap();
    assert_eq!(v.render(), "-3.25");
}

#[test]
fn eval_eq_single_argument_test() {
    // With one argument the fold returns it untouched — even unevaluated.
    assert_eq!(run("(eq nowhere)").0.unwrap(), Value::Atom("nowhere".to_string()));
}

#[test]
fn eval_set_fresh_name_test() {
    // set! binds unconditionally, even a name never defined.
    let mut env = make_std_env();
    run_in(&mut env, "(set! y 1)").0.unwrap();
    assert_eq!(run_in(&mut env, "y").0.unwrap(), num(false, 1, 0));
}

#[test]
fn eval_consecutive_comments_test() {
    let (r, _) = run("; one comment\n; another comment\n5");
    assert_eq!(r.unwrap(), num(false, 5, 0));
}

#[test]
fn eval_zero_parameter_closure_test() {
    let mut env = make_std_env();
    run_in(&mut env, "(defun five () 5)").0.unwrap();
    assert_eq!(run_in(&mut env, "(five)").0.unwrap(), num(false, 5, 0));
}

#[test]
fn eval_arity_truncates_test() {
    // Pairing is positional and stops with the shorter side.
    assert_eq!(run("((lambda (a) a) 1 2)").0.unwrap(), num(false, 1, 0));
    match run("((lambda (a b) b) 1)").0 {
        Err(Error::Undefined(name)) => assert_eq!(name, "b"),
        other => panic!("expected an unbound parameter, got {:?}", other),
    }
}

#[test]
fn eval_shadowing_in_call_frame_test() {
    // A definition inside a call frame shadows; the outer binding survives.
    let mut env = make_std_env();
    run_in(&mut env, "(def x 1)").0.unwrap();
    assert_eq!(run_in(&mut env, "((lambda () (def x 2)))").0.unwrap(), num(false, 2, 0));
    assert_eq!(run_in(&mut env, "x").0.unwrap(), num(false, 1, 0));
}
