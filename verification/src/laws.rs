//! Laws of the language, stated once and proved against the mathematical
//! models that the executable contracts are pinned to.

use vstd::prelude::*;

use crate::error::SpecError;
use crate::eval::{spec_eval, EvalOut};
use crate::number::{sign_chars, spec_from_parts};
use crate::reader::{
    adv_plain, digit_val_s, is_digit_s, is_ws_s, next_token_s, scan_digits_s, scan_string_s,
    skip_trivia_s, LexState, Loc, SpecTok,
};
use crate::value::{env_get_s, env_set_s, frame_get_s, Native, SpecEnv, SpecValue};

verus! {

/// The cursor after `k` in-line advances.
pub open spec fn adv_n(st: LexState, k: nat) -> LexState
    decreases k,
{
    if k == 0 {
        st
    } else {
        adv_n(adv_plain(st), (k - 1) as nat)
    }
}

/// The number a run of digit characters denotes, accumulated onto `m`.
pub open spec fn horner(m: nat, ds: Seq<char>) -> nat
    decreases ds.len(),
{
    if ds.len() == 0 {
        m
    } else {
        horner(10 * m + digit_val_s(ds[0]), ds.drop_first())
    }
}

/// The number a run of digit characters denotes.
pub open spec fn digits_num(ds: Seq<char>) -> nat {
    horner(0, ds)
}

/// Whether every character of `ds` is a decimal digit.
pub open spec fn all_digits(ds: Seq<char>) -> bool {
    forall|j: int| 0 <= j < ds.len() ==> is_digit_s(#[trigger] ds[j])
}

/// Advancing in line moves the cursor index by exactly the step count.
pub proof fn lemma_adv_n(st: LexState, k: nat)
    ensures
        adv_n(st, k).it == st.it + k,
    decreases k,
{
    if k > 0 {
        lemma_adv_n(adv_plain(st), (k - 1) as nat);
    }
}

/// The digit scanner walks over a run of digits standing at the cursor,
/// accumulating their value and, past a decimal point, their count.
pub proof fn lemma_scan_run(
    code: Seq<char>,
    st: LexState,
    m: nat,
    sc: nat,
    flag: bool,
    ds: Seq<char>,
)
    requires
        0 <= st.it,
        st.it + ds.len() <= code.len(),
        all_digits(ds),
        forall|j: int| 0 <= j < ds.len() ==> code[st.it + j] == ds[j],
    ensures
        scan_digits_s(code, st, m, sc, flag) == scan_digits_s(
            code,
            adv_n(st, ds.len()),
            horner(m, ds),
            sc + if flag {
                ds.len()
            } else {
                0
            },
            flag,
        ),
    decreases ds.len(),
{
    if ds.len() > 0 {
        let c = code[st.it];
        assert(c == ds[0]);
        assert(is_digit_s(c));
        assert(c != '.');
        let st2 = adv_plain(st);
        let rest = ds.drop_first();
        assert(forall|j: int| 0 <= j < rest.len() ==> code[st2.it + j] == #[trigger] rest[j]);
        lemma_scan_run(
            code,
            st2,
            10 * m + digit_val_s(c),
            if flag {
                sc + 1
            } else {
                sc
            },
            flag,
            rest,
        );
        assert(adv_n(st, ds.len()) == adv_n(st2, rest.len()));
    }
}

/// Accumulating a concatenation accumulates its parts in order.
pub proof fn lemma_horner_append(m: nat, a: Seq<char>, b: Seq<char>)
    ensures
        horner(m, a + b) == horner(horner(m, a), b),
    decreases a.len(),
{
    if a.len() == 0 {
        assert(a + b =~= b);
    } else {
        assert((a + b)[0] == a[0]);
        assert((a + b).drop_first() =~= a.drop_first() + b);
        lemma_horner_append(10 * m + digit_val_s(a[0]), a.drop_first(), b);
    }
}

/// Law: lexing a valid numeric token — an optional sign, then digits with
/// at most one decimal point, with at least one digit — yields one number
/// token whose value is exactly the signed decimal the characters denote,
/// canonicalized, and consumes the whole text.
pub proof fn lemma_lex_number(neg: bool, ipart: Seq<char>, has_dot: bool, fpart: Seq<char>, loc: Loc)
    requires
        all_digits(ipart),
        all_digits(fpart),
        ipart.len() > 0 || (has_dot && fpart.len() > 0),
        !has_dot ==> fpart.len() == 0,
        digits_num(ipart + fpart) <= u64::MAX,
        fpart.len() <= u32::MAX,
    ensures
        ({
            let code = sign_chars(neg) + ipart + (if has_dot {
                seq!['.'] + fpart
            } else {
                Seq::<char>::empty()
            });
            let out = next_token_s(code, LexState { it: 0, loc });
            &&& out.st.it == code.len()
            &&& (match out.r {
                Ok(SpecTok::Number(n, _)) => n == spec_from_parts(
                    neg,
                    digits_num(ipart + fpart) as u64,
                    fpart.len() as u32,
                ),
                _ => false,
            })
        }),
{
    let code = sign_chars(neg) + ipart + (if has_dot {
        seq!['.'] + fpart
    } else {
        Seq::<char>::empty()
    });
    let st0 = LexState { it: 0, loc };
    assert(code.len() > 0);
    assert(code[0] == (if neg {
        '-'
    } else if ipart.len() > 0 {
        ipart[0]
    } else {
        '.'
    }));
    assert(!is_ws_s(code[0]) && code[0] != ';');
    assert(skip_trivia_s(code, st0, false) == st0);
    let st_sign = if neg {
        adv_plain(st0)
    } else {
        st0
    };
    let ioff: int = if neg {
        1
    } else {
        0
    };
    if ipart.len() > 0 {
        // digits first: any leading point belongs to the fraction case below
        assert(code[st_sign.it] == ipart[0]);
        assert(is_digit_s(code[st_sign.it]) && code[st_sign.it] != '.' && code[st_sign.it]
            != '-');
        assert(forall|j: int| 0 <= j < ipart.len() ==> code[ioff + j] == #[trigger] ipart[j]);
        lemma_scan_run(code, st_sign, 0, 0, false, ipart);
        let st_ip = adv_n(st_sign, ipart.len());
        lemma_adv_n(st_sign, ipart.len());
        assert(st_ip.it == ioff + ipart.len());
        if has_dot {
            assert(code[st_ip.it] == '.');
            let st_dot = adv_plain(st_ip);
            assert(forall|j: int|
                0 <= j < fpart.len() ==> code[st_dot.it + j] == #[trigger] fpart[j]);
            lemma_scan_run(code, st_dot, horner(0, ipart), 0, true, fpart);
            let st_fp = adv_n(st_dot, fpart.len());
            lemma_adv_n(st_dot, fpart.len());
            assert(st_fp.it == code.len());
            assert(scan_digits_s(code, st_fp, horner(horner(0, ipart), fpart), fpart.len(), true)
                == (st_fp, horner(horner(0, ipart), fpart), fpart.len()));
            lemma_horner_append(0, ipart, fpart);
        } else {
            assert(ipart + fpart =~= ipart);
            assert(st_ip.it == code.len());
            assert(scan_digits_s(code, st_ip, horner(0, ipart), 0, false) == (
                st_ip,
                horner(0, ipart),
                0nat,
            ));
            lemma_horner_append(0, ipart, fpart);
        }
    } else {
        // leading point: the digits are all fractional
        assert(has_dot && fpart.len() > 0);
        assert(code[st_sign.it] == '.');
        let st_dot = adv_plain(st_sign);
        assert(code[st_dot.it] == fpart[0]);
        assert(is_digit_s(code[st_dot.it]));
        assert(forall|j: int| 0 <= j < fpart.len() ==> code[st_dot.it + j] == #[trigger] fpart[j]);
        lemma_scan_run(code, st_dot, 0, 0, true, fpart);
        let st_fp = adv_n(st_dot, fpart.len());
        lemma_adv_n(st_dot, fpart.len());
        assert(st_fp.it == code.len());
        assert(scan_digits_s(code, st_fp, horner(0, fpart), fpart.len(), true) == (
            st_fp,
            horner(0, fpart),
            fpart.len(),
        ));
        assert(ipart + fpart =~= fpart);
        lemma_horner_append(0, ipart, fpart);
    }
}

/// Law: lexing a quote, any text free of quote characters, and a closing
/// quote yields one string token holding exactly that text, and consumes
/// the whole input.
pub proof fn lemma_lex_string(s: Seq<char>, loc: Loc)
    requires
        forall|j: int| 0 <= j < s.len() ==> #[trigger] s[j] != '"',
    ensures
        ({
            let code = seq!['"'] + s + seq!['"'];
            let out = next_token_s(code, LexState { it: 0, loc });
            &&& out.st.it == code.len()
            &&& (match out.r {
                Ok(SpecTok::Str(content, _)) => content == s,
                _ => false,
            })
        }),
{
    let code = seq!['"'] + s + seq!['"'];
    let st0 = LexState { it: 0, loc };
    assert(code[0] == '"');
    assert(!is_ws_s(code[0]) && code[0] != ';');
    assert(skip_trivia_s(code, st0, false) == st0);
    assert(!is_digit_s(code[0]) && code[0] != '-' && code[0] != '.' && code[0] != '#');
    lemma_scan_string_run(code, adv_plain(st0), Seq::empty(), s);
}

/// The string scanner collects exactly the quote-free run at the cursor and
/// stops just past the closing quote.
pub proof fn lemma_scan_string_run(code: Seq<char>, st: LexState, acc: Seq<char>, s: Seq<char>)
    requires
        0 <= st.it,
        st.it + s.len() + 1 <= code.len(),
        forall|j: int| 0 <= j < s.len() ==> code[st.it + j] == #[trigger] s[j] && s[j] != '"',
        code[st.it + s.len()] == '"',
    ensures
        ({
            let (st2, content) = scan_string_s(code, st, acc);
            &&& st2.it == st.it + s.len() + 1
            &&& content == acc + s
        }),
    decreases s.len(),
{
    if s.len() == 0 {
        assert(code[st.it] == '"');
        assert(acc + s =~= acc);
    } else {
        assert(code[st.it] == s[0]);
        let rest = s.drop_first();
        assert(forall|j: int|
            0 <= j < rest.len() ==> code[adv_plain(st).it + j] == #[trigger] rest[j] && rest[j]
                != '"');
        lemma_scan_string_run(code, adv_plain(st), acc.push(s[0]), rest);
        assert(acc.push(s[0]) + rest =~= acc + s);
    }
}

/// The values that evaluate to themselves without touching the environment.
pub open spec fn self_evaluating(v: SpecValue) -> bool {
    match v {
        SpecValue::Atom(_) => false,
        SpecValue::List(_) => false,
        SpecValue::Do(_) => false,
        _ => true,
    }
}

/// A self-evaluating value reduces to itself, changing nothing.
pub proof fn lemma_self_eval(fuel: nat, v: SpecValue, env: SpecEnv)
    requires
        fuel >= 1,
        self_evaluating(v),
    ensures
        spec_eval(fuel, v, env) == (EvalOut { r: Ok(v), env, out: Seq::empty() }),
{
}

/// Law: an application of the `if` native to a true literal condition is
/// exactly the evaluation of the second argument.  The third argument never
/// influences the result, the environment or the output — it is never
/// evaluated.
pub proof fn lemma_if_true(fuel: nat, name: Seq<char>, a: SpecValue, b: SpecValue, env: SpecEnv)
    requires
        fuel >= 2,
        env_get_s(env, name) == Some(SpecValue::NativeFunc(Native::If)),
    ensures
        spec_eval(
            fuel,
            SpecValue::List(seq![SpecValue::Atom(name), SpecValue::Bool(true), a, b]),
            env,
        ) == spec_eval((fuel - 1) as nat, a, env),
{
    let xs = seq![SpecValue::Atom(name), SpecValue::Bool(true), a, b];
    let args = xs.skip(1);
    assert(args =~= seq![SpecValue::Bool(true), a, b]);
    let h = spec_eval((fuel - 1) as nat, xs[0], env);
    assert(h == (EvalOut { r: Ok(SpecValue::NativeFunc(Native::If)), env, out: Seq::empty() }));
    let c = spec_eval((fuel - 1) as nat, args[0], env);
    assert(c == (EvalOut { r: Ok(SpecValue::Bool(true)), env, out: Seq::empty() }));
    let e = spec_eval((fuel - 1) as nat, a, env);
    let o = crate::prelude::spec_apply_native(fuel, Native::If, args, env);
    assert(o.out =~= e.out);
    assert(spec_eval(fuel, SpecValue::List(xs), env).out =~= e.out);
}

/// Law: an application of the `if` native to a false literal condition is
/// exactly the evaluation of the third argument; the second is never
/// evaluated.
pub proof fn lemma_if_false(fuel: nat, name: Seq<char>, a: SpecValue, b: SpecValue, env: SpecEnv)
    requires
        fuel >= 2,
        env_get_s(env, name) == Some(SpecValue::NativeFunc(Native::If)),
    ensures
        spec_eval(
            fuel,
            SpecValue::List(seq![SpecValue::Atom(name), SpecValue::Bool(false), a, b]),
            env,
        ) == spec_eval((fuel - 1) as nat, b, env),
{
    let xs = seq![SpecValue::Atom(name), SpecValue::Bool(false), a, b];
    let args = xs.skip(1);
    assert(args =~= seq![SpecValue::Bool(false), a, b]);
    let h = spec_eval((fuel - 1) as nat, xs[0], env);
    assert(h == (EvalOut { r: Ok(SpecValue::NativeFunc(Native::If)), env, out: Seq::empty() }));
    let c = spec_eval((fuel - 1) as nat, args[0], env);
    assert(c == (EvalOut { r: Ok(SpecValue::Bool(false)), env, out: Seq::empty() }));
    let e = spec_eval((fuel - 1) as nat, b, env);
    let o = crate::prelude::spec_apply_native(fuel, Native::If, args, env);
    assert(o.out =~= e.out);
    assert(spec_eval(fuel, SpecValue::List(xs), env).out =~= e.out);
}

/// Looking up a name just bound yields the bound value.
pub proof fn lemma_get_set(env: SpecEnv, name: Seq<char>, v: SpecValue)
    requires
        env.len() >= 1,
    ensures
        env_get_s(env_set_s(env, name, v), name) == Some(v),
{
    let env2 = env_set_s(env, name, v);
    assert(env2[0] == env[0].push((name, v)));
    assert(env2[0].last() == (name, v));
}

/// Binding one name leaves the lookup of every other name unchanged.
pub proof fn lemma_get_set_other(env: SpecEnv, name: Seq<char>, v: SpecValue, other: Seq<char>)
    requires
        env.len() >= 1,
        other != name,
    ensures
        env_get_s(env_set_s(env, name, v), other) == env_get_s(env, other),
{
    let env2 = env_set_s(env, name, v);
    assert(env2[0] == env[0].push((name, v)));
    assert(env2[0].last().0 != other);
    assert(env2[0].drop_last() =~= env[0]);
    assert(env2.skip(1) =~= env.skip(1));
}

/// Law: `def` is first-definition-wins.  Defining a fresh name binds it and
/// yields the value; defining it a second time fails with a redefinition
/// error and leaves the binding as it was.
pub proof fn lemma_define_then_redefine(
    fuel: nat,
    d: Seq<char>,
    x: Seq<char>,
    w1: SpecValue,
    w2: SpecValue,
    env: SpecEnv,
)
    requires
        fuel >= 2,
        env.len() >= 1,
        env_get_s(env, d) == Some(SpecValue::NativeFunc(Native::Define)),
        self_evaluating(w1),
        self_evaluating(w2),
        frame_get_s(env[0], x) is None,
        d != x,
    ensures
        ({
            let o1 = spec_eval(
                fuel,
                SpecValue::List(seq![SpecValue::Atom(d), SpecValue::Atom(x), w1]),
                env,
            );
            &&& o1.r == Ok::<SpecValue, SpecError>(w1)
            &&& env_get_s(o1.env, x) == Some(w1)
            &&& spec_eval(
                fuel,
                SpecValue::List(seq![SpecValue::Atom(d), SpecValue::Atom(x), w2]),
                o1.env,
            ).r == Err::<SpecValue, SpecError>(SpecError::Redefined(x))
        }),
{
    let xs1 = seq![SpecValue::Atom(d), SpecValue::Atom(x), w1];
    let args1 = xs1.skip(1);
    assert(args1 =~= seq![SpecValue::Atom(x), w1]);
    lemma_self_eval((fuel - 1) as nat, w1, env);
    let h1 = spec_eval((fuel - 1) as nat, xs1[0], env);
    assert(h1 == (EvalOut {
        r: Ok(SpecValue::NativeFunc(Native::Define)),
        env,
        out: Seq::empty(),
    }));
    let oa1 = crate::prelude::spec_apply_native(fuel, Native::Define, args1, env);
    let e1 = spec_eval((fuel - 1) as nat, args1[1], env);
    assert(args1[1] == w1);
    assert(e1 == (EvalOut { r: Ok(w1), env, out: Seq::empty() }));
    assert(oa1.env == env_set_s(env, x, w1));
    let o1 = spec_eval(fuel, SpecValue::List(xs1), env);
    assert(o1.env == oa1.env && o1.r == oa1.r);
    assert(o1.env == env_set_s(env, x, w1));
    lemma_get_set(env, x, w1);
    lemma_get_set_other(env, x, w1, d);
    let env2 = o1.env;
    assert(env2.len() >= 1);
    lemma_self_eval((fuel - 1) as nat, w2, env2);
    let xs2 = seq![SpecValue::Atom(d), SpecValue::Atom(x), w2];
    let args2 = xs2.skip(1);
    assert(args2 =~= seq![SpecValue::Atom(x), w2]);
    let h2 = spec_eval((fuel - 1) as nat, xs2[0], env2);
    assert(h2 == (EvalOut {
        r: Ok(SpecValue::NativeFunc(Native::Define)),
        env: env2,
        out: Seq::empty(),
    }));
    assert(frame_get_s(env2[0], x) is Some) by {
        assert(env2[0] == env[0].push((x, w1)));
        assert(env2[0].last() == (x, w1));
    }
    let oa2 = crate::prelude::spec_apply_native(fuel, Native::Define, args2, env2);
    let e2 = spec_eval((fuel - 1) as nat, args2[1], env2);
    assert(args2[1] == w2);
    assert(e2 == (EvalOut { r: Ok(w2), env: env2, out: Seq::empty() }));
    assert(oa2.r == Err::<SpecValue, SpecError>(SpecError::Redefined(x)));
    let o2 = spec_eval(fuel, SpecValue::List(xs2), env2);
    assert(o2.r == oa2.r);
}

/// Law: `set!` overwrites unconditionally, and a later lookup of the name
/// evaluates to the new value.
pub proof fn lemma_set_then_lookup(
    fuel: nat,
    s: Seq<char>,
    x: Seq<char>,
    w: SpecValue,
    env: SpecEnv,
    fuel2: nat,
)
    requires
        fuel >= 2,
        fuel2 >= 1,
        env.len() >= 1,
        env_get_s(env, s) == Some(SpecValue::NativeFunc(Native::SetVar)),
        self_evaluating(w),
    ensures
        ({
            let o = spec_eval(
                fuel,
                SpecValue::List(seq![SpecValue::Atom(s), SpecValue::Atom(x), w]),
                env,
            );
            &&& o.r == Ok::<SpecValue, SpecError>(w)
            &&& spec_eval(fuel2, SpecValue::Atom(x), o.env).r == Ok::<SpecValue, SpecError>(w)
        }),
{
    let xs = seq![SpecValue::Atom(s), SpecValue::Atom(x), w];
    let args = xs.skip(1);
    assert(args =~= seq![SpecValue::Atom(x), w]);
    lemma_self_eval((fuel - 1) as nat, w, env);
    let h = spec_eval((fuel - 1) as nat, xs[0], env);
    assert(h == (EvalOut {
        r: Ok(SpecValue::NativeFunc(Native::SetVar)),
        env,
        out: Seq::empty(),
    }));
    let oa = crate::prelude::spec_apply_native(fuel, Native::SetVar, args, env);
    let e1 = spec_eval((fuel - 1) as nat, args[1], env);
    assert(args[1] == w);
    assert(e1 == (EvalOut { r: Ok(w), env, out: Seq::empty() }));
    assert(oa.env == env_set_s(env, x, w));
    let o = spec_eval(fuel, SpecValue::List(xs), env);
    assert(o.env == oa.env && o.r == oa.r);
    assert(o.env == env_set_s(env, x, w));
    lemma_get_set(env, x, w);
}

} // verus!
