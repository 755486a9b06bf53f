//! Runtime values and environments.
//!
//! [`Value`] is the closed tagged union shared by syntax-tree literals and
//! evaluation results; [`EnvHead`] is the innermost frame of a chain of
//! lexical scopes.  Both are modelled by mathematical counterparts —
//! [`SpecValue`] and a sequence of frames, innermost first — through the view
//! functions [`view_value`] and [`view_env`], and every executable operation
//! here is pinned to an operation on the model.

use vstd::prelude::*;

use crate::number::Number;

verus! {

/// The host-implemented callables pre-registered by the standard
/// environment.  Each receives its argument expressions unevaluated and
/// decides itself whether and when to evaluate them.
#[derive(Clone, Copy, Debug, PartialEq, Eq, Structural)]
pub enum Native {
    Add,
    Mul,
    Sub,
    Equal,
    Not,
    If,
    Define,
    SetVar,
    Defun,
    Lambda,
    PrintLn,
    SetCursorPos,
}

/// A runtime value: literals, lists, explicit sequences, and the two kinds
/// of callables.  A closure records its name, its parameter names, its body
/// as an explicit sequence, and a snapshot of its defining environment.
#[derive(Debug)]
pub enum Value {
    Unit,
    Number(Number),
    Str(String),
    Atom(String),
    Bool(bool),
    List(Vec<Value>),
    Do(Vec<Value>),
    NativeFunc(Native),
    Func(String, Vec<String>, Box<Value>, Box<EnvHead>),
}

/// One scope frame owning its bindings, with a link to its parent frame.
/// A later binding for the same name shadows an earlier one.
#[derive(Debug)]
pub struct EnvHead {
    values: Vec<(String, Value)>,
    next: Option<Box<EnvHead>>,
}

/// The mathematical counterpart of a [`Value`].
pub enum SpecValue {
    Unit,
    Number(Number),
    Str(Seq<char>),
    Atom(Seq<char>),
    Bool(bool),
    List(Seq<SpecValue>),
    Do(Seq<SpecValue>),
    NativeFunc(Native),
    Func(Seq<char>, Seq<Seq<char>>, Box<SpecValue>, Seq<Seq<(Seq<char>, SpecValue)>>),
}

/// One scope frame of the model: bindings in the order they were written.
pub type SpecFrame = Seq<(Seq<char>, SpecValue)>;

/// An environment of the model: frames, innermost first.
pub type SpecEnv = Seq<SpecFrame>;

/// The names of a sequence of symbols.
pub open spec fn names_view(s: Seq<String>) -> Seq<Seq<char>> {
    Seq::new(s.len(), |i: int| s[i]@)
}

/// The model of a value.
pub open spec fn view_value(v: Value) -> SpecValue
    decreases v,
{
    match v {
        Value::Unit => SpecValue::Unit,
        Value::Number(n) => SpecValue::Number(n),
        Value::Str(s) => SpecValue::Str(s@),
        Value::Atom(s) => SpecValue::Atom(s@),
        Value::Bool(b) => SpecValue::Bool(b),
        Value::List(xs) => SpecValue::List(view_values(xs@)),
        Value::Do(xs) => SpecValue::Do(view_values(xs@)),
        Value::NativeFunc(op) => SpecValue::NativeFunc(op),
        Value::Func(name, params, body, env) => SpecValue::Func(
            name@,
            names_view(params@),
            Box::new(view_value(*body)),
            view_env(*env),
        ),
    }
}

/// The models of a sequence of values.
pub open spec fn view_values(s: Seq<Value>) -> Seq<SpecValue>
    decreases s,
{
    if s.len() == 0 {
        Seq::empty()
    } else {
        view_values(s.drop_last()).push(view_value(s.last()))
    }
}

/// The model of one frame's bindings.
pub closed spec fn frame_view(vs: Seq<(String, Value)>) -> SpecFrame
    decreases vs,
{
    if vs.len() == 0 {
        Seq::empty()
    } else {
        frame_view(vs.drop_last()).push((vs.last().0@, view_value(vs.last().1)))
    }
}

/// The model of an environment chain, innermost frame first.
pub closed spec fn view_env(e: EnvHead) -> SpecEnv
    decreases e,
{
    match e.next {
        Option::None => seq![frame_view(e.values@)],
        Option::Some(parent) => seq![frame_view(e.values@)] + view_env(*parent),
    }
}

/// The model of a sequence of values, taken pointwise.
pub proof fn lemma_view_values(s: Seq<Value>)
    ensures
        view_values(s).len() == s.len(),
        forall|i: int| 0 <= i < s.len() ==> #[trigger] view_values(s)[i] == view_value(s[i]),
    decreases s.len(),
{
    if s.len() > 0 {
        lemma_view_values(s.drop_last());
        assert forall|i: int| 0 <= i < s.len() implies #[trigger] view_values(s)[i] == view_value(
            s[i],
        ) by {
            if i < s.len() - 1 {
                assert(s.drop_last()[i] == s[i]);
            }
        }
    }
}

/// The model of a frame, taken pointwise.
pub proof fn lemma_frame_view(vs: Seq<(String, Value)>)
    ensures
        frame_view(vs).len() == vs.len(),
        forall|i: int|
            0 <= i < vs.len() ==> #[trigger] frame_view(vs)[i] == (vs[i].0@, view_value(vs[i].1)),
    decreases vs.len(),
{
    if vs.len() > 0 {
        lemma_frame_view(vs.drop_last());
        assert forall|i: int| 0 <= i < vs.len() implies #[trigger] frame_view(vs)[i] == (
            vs[i].0@,
            view_value(vs[i].1),
        ) by {
            if i < vs.len() - 1 {
                assert(vs.drop_last()[i] == vs[i]);
            }
        }
    }
}

/// The value bound to `name` in one frame: the latest matching binding.
pub open spec fn frame_get_s(f: SpecFrame, name: Seq<char>) -> Option<SpecValue>
    decreases f.len(),
{
    if f.len() == 0 {
        None
    } else if f.last().0 == name {
        Some(f.last().1)
    } else {
        frame_get_s(f.drop_last(), name)
    }
}

/// The value bound to `name`: frames are searched innermost first.
pub open spec fn env_get_s(env: SpecEnv, name: Seq<char>) -> Option<SpecValue>
    decreases env.len(),
{
    if env.len() == 0 {
        None
    } else {
        match frame_get_s(env[0], name) {
            Some(v) => Some(v),
            None => env_get_s(env.skip(1), name),
        }
    }
}

/// Binding `name` writes into the innermost frame only.
pub open spec fn env_set_s(env: SpecEnv, name: Seq<char>, v: SpecValue) -> SpecEnv {
    if env.len() == 0 {
        env
    } else {
        env.update(0, env[0].push((name, v)))
    }
}

/// Language-level equality: literals of matching kind compare by content;
/// any comparison involving a list, a sequence or a callable is false.
pub open spec fn val_eq_s(a: SpecValue, b: SpecValue) -> bool {
    match (a, b) {
        (SpecValue::Number(x), SpecValue::Number(y)) => x == y,
        (SpecValue::Str(x), SpecValue::Str(y)) => x == y,
        (SpecValue::Atom(x), SpecValue::Atom(y)) => x == y,
        (SpecValue::Bool(x), SpecValue::Bool(y)) => x == y,
        _ => false,
    }
}

/// The model of an optional value.
pub open spec fn opt_view(r: Option<Value>) -> Option<SpecValue> {
    match r {
        Some(v) => Some(view_value(v)),
        None => None,
    }
}

impl Clone for Value {
    /// A clone has the same model.
    fn clone(&self) -> (r: Value)
        ensures
            view_value(r) == view_value(*self),
        decreases *self,
    {
        match self {
            Value::Unit => Value::Unit,
            Value::Number(n) => Value::Number(*n),
            Value::Str(s) => Value::Str(s.clone()),
            Value::Atom(s) => Value::Atom(s.clone()),
            Value::Bool(b) => Value::Bool(*b),
            Value::List(xs) => {
                let r = Value::List(clone_values(xs));
                proof {
                    assert(view_value(r) == view_value(*self));
                }
                r
            },
            Value::Do(xs) => {
                let r = Value::Do(clone_values(xs));
                proof {
                    assert(view_value(r) == view_value(*self));
                }
                r
            },
            Value::NativeFunc(op) => Value::NativeFunc(*op),
            Value::Func(name, params, body, env) => {
                let r = Value::Func(
                    name.clone(),
                    clone_names(params),
                    Box::new((**body).clone()),
                    Box::new((**env).clone()),
                );
                proof {
                    assert(view_value(r) == view_value(*self));
                }
                r
            },
        }
    }
}

/// Clones every value of a vector, keeping the model of each.
fn clone_values(xs: &Vec<Value>) -> (r: Vec<Value>)
    ensures
        view_values(r@) == view_values(xs@),
    decreases *xs,
{
    let mut r: Vec<Value> = Vec::new();
    let mut i: usize = 0;
    while i < xs.len()
        invariant
            i <= xs@.len(),
            r@.len() == i,
            forall|j: int| 0 <= j < i ==> view_value(#[trigger] r@[j]) == view_value(xs@[j]),
        decreases xs@.len() - i,
    {
        proof {
            assert(decreases_to!(*xs => xs@[i as int]));
        }
        let v = (&xs[i]).clone();
        r.push(v);
        i = i + 1;
    }
    proof {
        lemma_view_values(r@);
        lemma_view_values(xs@);
        assert(view_values(r@) =~= view_values(xs@));
    }
    r
}

/// Clones every name of a vector of strings.
pub(crate) fn clone_names(xs: &Vec<String>) -> (r: Vec<String>)
    ensures
        Seq::new(r@.len(), |i: int| r@[i]@) == Seq::new(xs@.len(), |i: int| xs@[i]@),
{
    let mut r: Vec<String> = Vec::new();
    let mut i: usize = 0;
    while i < xs.len()
        invariant
            i <= xs@.len(),
            r@.len() == i,
            forall|j: int| 0 <= j < i ==> #[trigger] r@[j]@ == xs@[j]@,
        decreases xs@.len() - i,
    {
        let v = xs[i].clone();
        r.push(v);
        i = i + 1;
    }
    proof {
        assert(Seq::new(r@.len(), |i: int| r@[i]@) =~= Seq::new(xs@.len(), |i: int| xs@[i]@));
    }
    r
}

impl Clone for EnvHead {
    /// A clone has the same model.
    fn clone(&self) -> (r: EnvHead)
        ensures
            view_env(r) == view_env(*self),
        decreases *self,
    {
        let mut values: Vec<(String, Value)> = Vec::new();
        let mut i: usize = 0;
        while i < self.values.len()
            invariant
                i <= self.values@.len(),
                values@.len() == i,
                forall|j: int|
                    0 <= j < i ==> #[trigger] values@[j].0@ == self.values@[j].0@ && view_value(
                        values@[j].1,
                    ) == view_value(self.values@[j].1),
            decreases self.values@.len() - i,
        {
            proof {
                assert(decreases_to!(*self => self.values@[i as int].1));
            }
            let name = self.values[i].0.clone();
            let v = self.values[i].1.clone();
            values.push((name, v));
            i = i + 1;
        }
        proof {
            lemma_frame_view(values@);
            lemma_frame_view(self.values@);
            assert(frame_view(values@) =~= frame_view(self.values@));
        }
        let next = match &self.next {
            Option::None => Option::None,
            Option::Some(parent) => Option::Some(Box::new((**parent).clone())),
        };
        let r = EnvHead { values, next };
        proof {
            assert(view_env(r) == view_env(*self));
        }
        r
    }
}

impl PartialEq for Value {
    /// Language-level equality of values.
    fn eq(&self, other: &Value) -> (r: bool)
        ensures
            r == val_eq_s(view_value(*self), view_value(*other)),
    {
        match (self, other) {
            (Value::Number(a), Value::Number(b)) => *a == *b,
            (Value::Str(a), Value::Str(b)) => *a == *b,
            (Value::Atom(a), Value::Atom(b)) => *a == *b,
            (Value::Bool(a), Value::Bool(b)) => *a == *b,
            _ => false,
        }
    }
}

impl vstd::std_specs::cmp::PartialEqSpecImpl for Value {
    open spec fn obeys_eq_spec() -> bool {
        true
    }

    open spec fn eq_spec(&self, other: &Value) -> bool {
        val_eq_s(view_value(*self), view_value(*other))
    }
}

/// Every environment chain has at least its innermost frame.
pub proof fn lemma_env_nonempty(e: EnvHead)
    ensures
        view_env(e).len() >= 1,
{
}

impl EnvHead {
    /// An environment of one empty frame.
    pub fn new() -> (e: EnvHead)
        ensures
            view_env(e) == seq![Seq::<(Seq<char>, SpecValue)>::empty()],
    {
        let e = EnvHead { values: Vec::new(), next: Option::None };
        proof {
            assert(frame_view(e.values@) =~= Seq::<(Seq<char>, SpecValue)>::empty());
            assert(view_env(e) =~= seq![Seq::<(Seq<char>, SpecValue)>::empty()]);
        }
        e
    }

    /// Binds `name` in the innermost frame, shadowing any earlier binding.
    pub fn set(&mut self, name: String, value: Value)
        ensures
            view_env(*final(self)) == env_set_s(view_env(*old(self)), name@, view_value(value)),
    {
        proof {
            assert(view_env(*old(self)).len() >= 1);
        }
        self.values.push((name, value));
        proof {
            assert(self.values@.drop_last() =~= old(self).values@);
            assert(frame_view(self.values@) == frame_view(old(self).values@).push(
                (name@, view_value(value)),
            ));
            assert(view_env(*self) =~= env_set_s(view_env(*old(self)), name@, view_value(value)));
        }
    }

    /// Looks `name` up, walking the frames innermost to outermost.
    pub fn get(&self, name: String) -> (r: Option<Value>)
        ensures
            opt_view(r) == env_get_s(view_env(*self), name@),
    {
        self.get_rec(&name)
    }

    /// The recursive walk behind [`EnvHead::get`].
    fn get_rec(&self, name: &String) -> (r: Option<Value>)
        ensures
            opt_view(r) == env_get_s(view_env(*self), name@),
        decreases *self,
    {
        proof {
            assert(view_env(*self)[0] == frame_view(self.values@));
        }
        let local = frame_get(&self.values, name);
        match local {
            Option::Some(v) => {
                let r = Option::Some(v);
                proof {
                    assert(view_env(*self).len() >= 1);
                    assert(env_get_s(view_env(*self), name@) == frame_get_s(
                        view_env(*self)[0],
                        name@,
                    ));
                    assert(opt_view(r) == frame_get_s(frame_view(self.values@), name@));
                    assert(opt_view(r) == env_get_s(view_env(*self), name@));
                }
                r
            },
            Option::None => {
                proof {
                    assert(frame_get_s(view_env(*self)[0], name@) is None);
                }
                match &self.next {
                    Option::Some(parent) => {
                        let r = (**parent).get_rec(name);
                        proof {
                            assert(view_env(*self).skip(1) =~= view_env(**parent));
                            assert(env_get_s(view_env(*self), name@) == env_get_s(
                                view_env(**parent),
                                name@,
                            ));
                            assert(opt_view(r) == env_get_s(view_env(*self), name@));
                        }
                        r
                    },
                    Option::None => {
                        proof {
                            assert(view_env(*self).skip(1) =~= Seq::<SpecFrame>::empty());
                            assert(env_get_s(Seq::<SpecFrame>::empty(), name@) is None);
                            assert(env_get_s(view_env(*self), name@) is None);
                        }
                        Option::None
                    },
                }
            },
        }
    }

    /// Whether `name` is bound in the innermost frame itself.
    pub fn has_local(&self, name: &String) -> (r: bool)
        ensures
            r == (frame_get_s(view_env(*self)[0], name@) is Some),
    {
        let local = frame_get(&self.values, name);
        match local {
            Option::Some(_) => true,
            Option::None => false,
        }
    }

    /// A new empty innermost frame whose parent is this environment.
    pub fn push(self) -> (e: EnvHead)
        ensures
            view_env(e) == seq![Seq::<(Seq<char>, SpecValue)>::empty()] + view_env(self),
    {
        let e = EnvHead { values: Vec::new(), next: Option::Some(Box::new(self)) };
        proof {
            assert(frame_view(e.values@) =~= Seq::<(Seq<char>, SpecValue)>::empty());
        }
        e
    }

    /// Discards the innermost frame, returning the parent chain if any.
    pub fn pop(self) -> (r: Option<EnvHead>)
        ensures
            match r {
                Some(e) => view_env(self).len() > 1 && view_env(e) == view_env(self).skip(1),
                None => view_env(self).len() == 1,
            },
    {
        match self.next {
            Option::Some(parent) => {
                proof {
                    assert(view_env(self).skip(1) =~= view_env(*parent));
                }
                Option::Some(*parent)
            },
            Option::None => {
                proof {
                    assert(view_env(self).len() == 1);
                }
                Option::None
            },
        }
    }
}

/// The display text of a value: unit as `()`, literals by their content,
/// sequences and lists with their tags, a native function by a fixed word,
/// and a closure by its name.
pub open spec fn render_val(v: SpecValue) -> Seq<char>
    decreases v,
{
    match v {
        SpecValue::Unit => seq!['(', ')'],
        SpecValue::Number(n) => crate::number::render_number(n),
        SpecValue::Str(s) => s,
        SpecValue::Atom(s) => s,
        SpecValue::Bool(b) => if b {
            seq!['#', 't']
        } else {
            seq!['#', 'f']
        },
        SpecValue::Do(xs) => "Do("@ + render_vals(xs) + seq![')'],
        SpecValue::List(xs) => "List("@ + render_vals(xs) + seq![')'],
        SpecValue::NativeFunc(_) => "NativeFunc"@,
        SpecValue::Func(name, _, _, _) => "fn("@ + name + seq![')'],
    }
}

/// The display texts of a sequence of values, joined by single spaces.
pub open spec fn render_vals(xs: Seq<SpecValue>) -> Seq<char>
    decreases xs,
{
    if xs.len() == 0 {
        Seq::empty()
    } else if xs.len() == 1 {
        render_val(xs[0])
    } else {
        render_vals(xs.drop_last()) + seq![' '] + render_val(xs.last())
    }
}

/// Appends the display text of `v` to `out`.
fn render_val_into(v: &Value, out: &mut Vec<char>)
    ensures
        final(out)@ == old(out)@ + render_val(view_value(*v)),
    decreases *v,
{
    match v {
        Value::Unit => {
            out.push('(');
            out.push(')');
            proof {
                assert(out@ =~= old(out)@ + render_val(view_value(*v)));
            }
        },
        Value::Number(n) => {
            let ds = n.render();
            crate::number::extend_chars(out, &ds, 0, ds.len());
            proof {
                assert(ds@.subrange(0, ds@.len() as int) =~= ds@);
            }
        },
        Value::Str(s) => {
            let cs = crate::text::str_chars(s.as_str());
            crate::number::extend_chars(out, &cs, 0, cs.len());
            proof {
                assert(cs@.subrange(0, cs@.len() as int) =~= s@);
            }
        },
        Value::Atom(s) => {
            let cs = crate::text::str_chars(s.as_str());
            crate::number::extend_chars(out, &cs, 0, cs.len());
            proof {
                assert(cs@.subrange(0, cs@.len() as int) =~= s@);
            }
        },
        Value::Bool(b) => {
            out.push('#');
            if *b {
                out.push('t');
            } else {
                out.push('f');
            }
            proof {
                assert(out@ =~= old(out)@ + render_val(view_value(*v)));
            }
        },
        Value::Do(xs) => {
            let tag = crate::text::str_chars("Do(");
            crate::number::extend_chars(out, &tag, 0, tag.len());
            render_vals_into(xs, out);
            out.push(')');
            proof {
                assert(tag@.subrange(0, tag@.len() as int) =~= tag@);
                assert(out@ =~= old(out)@ + render_val(view_value(*v)));
            }
        },
        Value::List(xs) => {
            let tag = crate::text::str_chars("List(");
            crate::number::extend_chars(out, &tag, 0, tag.len());
            render_vals_into(xs, out);
            out.push(')');
            proof {
                assert(tag@.subrange(0, tag@.len() as int) =~= tag@);
                assert(out@ =~= old(out)@ + render_val(view_value(*v)));
            }
        },
        Value::NativeFunc(_) => {
            let tag = crate::text::str_chars("NativeFunc");
            crate::number::extend_chars(out, &tag, 0, tag.len());
            proof {
                assert(tag@.subrange(0, tag@.len() as int) =~= tag@);
            }
        },
        Value::Func(name, _, _, _) => {
            let tag = crate::text::str_chars("fn(");
            crate::number::extend_chars(out, &tag, 0, tag.len());
            let cs = crate::text::str_chars(name.as_str());
            crate::number::extend_chars(out, &cs, 0, cs.len());
            out.push(')');
            proof {
                assert(tag@.subrange(0, tag@.len() as int) =~= tag@);
                assert(cs@.subrange(0, cs@.len() as int) =~= name@);
                assert(out@ =~= old(out)@ + render_val(view_value(*v)));
            }
        },
    }
}

/// Appends the space-joined display texts of `xs` to `out`.
fn render_vals_into(xs: &Vec<Value>, out: &mut Vec<char>)
    ensures
        final(out)@ == old(out)@ + render_vals(view_values(xs@)),
    decreases *xs,
{
    let mut i: usize = 0;
    while i < xs.len()
        invariant
            i <= xs@.len(),
            out@ == old(out)@ + render_vals(view_values(xs@).take(i as int)),
        decreases xs@.len() - i,
    {
        if i > 0 {
            out.push(' ');
        }
        proof {
            assert(decreases_to!(*xs => xs@[i as int]));
        }
        render_val_into(&xs[i], out);
        i = i + 1;
        proof {
            lemma_view_values(xs@);
            let vs = view_values(xs@);
            assert(vs.take(i as int).drop_last() =~= vs.take(i - 1));
            assert(vs.take(i as int).last() == vs[i - 1]);
            if i > 1 {
                assert(out@ =~= old(out)@ + render_vals(vs.take(i as int)));
            } else {
                assert(out@ =~= old(out)@ + render_vals(vs.take(1)));
            }
        }
    }
    proof {
        lemma_view_values(xs@);
        assert(view_values(xs@).take(xs@.len() as int) =~= view_values(xs@));
    }
}

impl Value {
    /// The display text of this value.
    pub fn render(&self) -> (r: String)
        ensures
            r@ == render_val(view_value(*self)),
    {
        let mut out: Vec<char> = Vec::new();
        render_val_into(self, &mut out);
        crate::text::chars_to_string(&out)
    }
}

/// Searches one frame's bindings, latest first.
fn frame_get(values: &Vec<(String, Value)>, name: &String) -> (r: Option<Value>)
    ensures
        opt_view(r) == frame_get_s(frame_view(values@), name@),
{
    proof {
        lemma_frame_view(values@);
        assert(frame_view(values@).take(values@.len() as int) =~= frame_view(values@));
    }
    let mut i: usize = values.len();
    while i > 0
        invariant
            i <= values@.len(),
            frame_get_s(frame_view(values@), name@) == frame_get_s(
                frame_view(values@).take(i as int),
                name@,
            ),
        decreases i,
    {
        i = i - 1;
        proof {
            lemma_frame_view(values@);
            assert(frame_view(values@).take(i + 1).last() == (
                values@[i as int].0@,
                view_value(values@[i as int].1),
            ));
            assert(frame_view(values@).take(i + 1).drop_last() =~= frame_view(values@).take(
                i as int,
            ));
        }
        if values[i].0 == *name {
            let v = values[i].1.clone();
            return Option::Some(v);
        }
    }
    proof {
        assert(frame_view(values@).take(0).len() == 0);
    }
    Option::None
}

} // verus!
