//! The located syntax tree the parser produces, its conversion to runtime
//! values, and its display rendering.
//!
//! The display form is the parseable s-expression text of a node: reading it
//! back yields a tree of the same shape.

use vstd::prelude::*;

use crate::number::{render_number, Number};
use crate::reader::Loc;
use crate::text::{chars_to_string, str_chars};
use crate::value::{view_values, SpecValue, Value};

verus! {

/// Flag bit recording that a quote mark preceded the node.
pub const QUOTED: u8 = 1;

/// Per-node bookkeeping: flag bits and the source location.
#[derive(Clone, Copy, Debug, PartialEq, Eq, Structural)]
pub struct NodeInfo {
    pub flags: u8,
    pub loc: Loc,
}

impl NodeInfo {
    /// Bookkeeping with no flags and no location.
    pub fn new() -> (r: NodeInfo)
        ensures
            r == (NodeInfo { flags: 0u8, loc: Loc { line: 0, column: 0 } }),
    {
        NodeInfo { flags: 0u8, loc: Loc::blank() }
    }

    /// Bookkeeping carrying a location.
    pub fn loc(loc: Loc) -> (r: NodeInfo)
        ensures
            r == (NodeInfo { flags: 0u8, loc }),
    {
        NodeInfo { flags: 0u8, loc }
    }

    /// Bookkeeping carrying flag bits.
    pub fn new_flags(flags: u8) -> (r: NodeInfo)
        ensures
            r == (NodeInfo { flags, loc: Loc { line: 0, column: 0 } }),
    {
        NodeInfo { flags, loc: Loc::blank() }
    }
}

/// One node of the syntax tree.
#[derive(Debug)]
pub enum Node {
    Unit(NodeInfo),
    AtomLit(String, NodeInfo),
    StringLit(String, NodeInfo),
    NumberLit(Number, NodeInfo),
    BoolLit(bool, NodeInfo),
    Progn(Vec<Node>, NodeInfo),
    List(Vec<Node>, NodeInfo),
}

/// The mathematical counterpart of a [`Node`].
pub enum SpecNode {
    Unit(NodeInfo),
    Atom(Seq<char>, NodeInfo),
    Str(Seq<char>, NodeInfo),
    Num(Number, NodeInfo),
    Bool(bool, NodeInfo),
    Progn(Seq<SpecNode>, NodeInfo),
    List(Seq<SpecNode>, NodeInfo),
}

/// The model of a node.
pub open spec fn view_node(n: Node) -> SpecNode
    decreases n,
{
    match n {
        Node::Unit(i) => SpecNode::Unit(i),
        Node::AtomLit(s, i) => SpecNode::Atom(s@, i),
        Node::StringLit(s, i) => SpecNode::Str(s@, i),
        Node::NumberLit(x, i) => SpecNode::Num(x, i),
        Node::BoolLit(b, i) => SpecNode::Bool(b, i),
        Node::Progn(xs, i) => SpecNode::Progn(view_nodes(xs@), i),
        Node::List(xs, i) => SpecNode::List(view_nodes(xs@), i),
    }
}

/// The models of a sequence of nodes.
pub open spec fn view_nodes(s: Seq<Node>) -> Seq<SpecNode>
    decreases s,
{
    if s.len() == 0 {
        Seq::empty()
    } else {
        view_nodes(s.drop_last()).push(view_node(s.last()))
    }
}

/// The model of a sequence of nodes, taken pointwise.
pub proof fn lemma_view_nodes(s: Seq<Node>)
    ensures
        view_nodes(s).len() == s.len(),
        forall|i: int| 0 <= i < s.len() ==> #[trigger] view_nodes(s)[i] == view_node(s[i]),
    decreases s.len(),
{
    if s.len() > 0 {
        lemma_view_nodes(s.drop_last());
        assert forall|i: int| 0 <= i < s.len() implies #[trigger] view_nodes(s)[i] == view_node(
            s[i],
        ) by {
            if i < s.len() - 1 {
                assert(s.drop_last()[i] == s[i]);
            }
        }
    }
}

/// The value a node converts to: literals carry over, a list becomes a list
/// value, and a top-level sequence becomes an explicit `do` sequence.
pub open spec fn to_value_s(n: SpecNode) -> SpecValue
    decreases n,
{
    match n {
        SpecNode::Unit(_) => SpecValue::Unit,
        SpecNode::Atom(s, _) => SpecValue::Atom(s),
        SpecNode::Str(s, _) => SpecValue::Str(s),
        SpecNode::Num(x, _) => SpecValue::Number(x),
        SpecNode::Bool(b, _) => SpecValue::Bool(b),
        SpecNode::Progn(xs, _) => SpecValue::Do(to_values_s(xs)),
        SpecNode::List(xs, _) => SpecValue::List(to_values_s(xs)),
    }
}

/// The values of a sequence of nodes.
pub open spec fn to_values_s(s: Seq<SpecNode>) -> Seq<SpecValue>
    decreases s,
{
    if s.len() == 0 {
        Seq::empty()
    } else {
        to_values_s(s.drop_last()).push(to_value_s(s.last()))
    }
}

/// Converts a node to the value the evaluator runs.
pub fn to_value(node: &Node) -> (v: Value)
    ensures
        crate::value::view_value(v) == to_value_s(view_node(*node)),
    decreases *node,
{
    match node {
        Node::Unit(_) => Value::Unit,
        Node::AtomLit(s, _) => Value::Atom(s.clone()),
        Node::StringLit(s, _) => Value::Str(s.clone()),
        Node::NumberLit(x, _) => Value::Number(*x),
        Node::BoolLit(b, _) => Value::Bool(*b),
        Node::Progn(xs, _) => {
            let vs = to_values(xs);
            let v = Value::Do(vs);
            proof {
                assert(crate::value::view_value(v) == to_value_s(view_node(*node)));
            }
            v
        },
        Node::List(xs, _) => {
            let vs = to_values(xs);
            let v = Value::List(vs);
            proof {
                assert(crate::value::view_value(v) == to_value_s(view_node(*node)));
            }
            v
        },
    }
}

/// Converts every node of a vector.
fn to_values(xs: &Vec<Node>) -> (r: Vec<Value>)
    ensures
        view_values(r@) == to_values_s(view_nodes(xs@)),
    decreases *xs,
{
    let mut r: Vec<Value> = Vec::new();
    let mut i: usize = 0;
    while i < xs.len()
        invariant
            i <= xs@.len(),
            r@.len() == i,
            forall|j: int|
                0 <= j < i ==> crate::value::view_value(#[trigger] r@[j]) == to_value_s(
                    view_node(xs@[j]),
                ),
        decreases xs@.len() - i,
    {
        proof {
            assert(decreases_to!(*xs => xs@[i as int]));
        }
        let v = to_value(&xs[i]);
        r.push(v);
        i = i + 1;
    }
    proof {
        crate::value::lemma_view_values(r@);
        lemma_view_nodes(xs@);
        lemma_to_values_s(view_nodes(xs@));
        assert(view_values(r@) =~= to_values_s(view_nodes(xs@)));
    }
    r
}

/// The values of a sequence of nodes, taken pointwise.
pub proof fn lemma_to_values_s(s: Seq<SpecNode>)
    ensures
        to_values_s(s).len() == s.len(),
        forall|i: int| 0 <= i < s.len() ==> #[trigger] to_values_s(s)[i] == to_value_s(s[i]),
    decreases s.len(),
{
    if s.len() > 0 {
        lemma_to_values_s(s.drop_last());
        assert forall|i: int| 0 <= i < s.len() implies #[trigger] to_values_s(s)[i] == to_value_s(
            s[i],
        ) by {
            if i < s.len() - 1 {
                assert(s.drop_last()[i] == s[i]);
            }
        }
    }
}

/// The display text of a node: atoms bare, strings quoted, numbers in
/// canonical decimal, booleans as `#t`/`#f`, lists parenthesized with one
/// space between elements, and a top-level sequence as its elements joined
/// by spaces.
pub open spec fn render_node(n: SpecNode) -> Seq<char>
    decreases n,
{
    match n {
        SpecNode::Unit(_) => seq!['(', ')'],
        SpecNode::Atom(s, _) => s,
        SpecNode::Str(s, _) => seq!['"'] + s + seq!['"'],
        SpecNode::Num(x, _) => render_number(x),
        SpecNode::Bool(b, _) => if b {
            seq!['#', 't']
        } else {
            seq!['#', 'f']
        },
        SpecNode::Progn(xs, _) => render_nodes(xs),
        SpecNode::List(xs, _) => seq!['('] + render_nodes(xs) + seq![')'],
    }
}

/// The display texts of a sequence of nodes, joined by single spaces.
pub open spec fn render_nodes(xs: Seq<SpecNode>) -> Seq<char>
    decreases xs,
{
    if xs.len() == 0 {
        Seq::empty()
    } else if xs.len() == 1 {
        render_node(xs[0])
    } else {
        render_nodes(xs.drop_last()) + seq![' '] + render_node(xs.last())
    }
}

/// Appends the display text of `node` to `out`.
fn render_into(node: &Node, out: &mut Vec<char>)
    ensures
        final(out)@ == old(out)@ + render_node(view_node(*node)),
    decreases *node,
{
    match node {
        Node::Unit(_) => {
            out.push('(');
            out.push(')');
            proof {
                assert(out@ =~= old(out)@ + render_node(view_node(*node)));
            }
        },
        Node::AtomLit(s, _) => {
            let cs = str_chars(s.as_str());
            crate::number::extend_chars(out, &cs, 0, cs.len());
            proof {
                assert(cs@.subrange(0, cs@.len() as int) =~= s@);
            }
        },
        Node::StringLit(s, _) => {
            out.push('"');
            let cs = str_chars(s.as_str());
            crate::number::extend_chars(out, &cs, 0, cs.len());
            out.push('"');
            proof {
                assert(cs@.subrange(0, cs@.len() as int) =~= s@);
                assert(out@ =~= old(out)@ + render_node(view_node(*node)));
            }
        },
        Node::NumberLit(x, _) => {
            let ds = x.render();
            crate::number::extend_chars(out, &ds, 0, ds.len());
            proof {
                assert(ds@.subrange(0, ds@.len() as int) =~= ds@);
            }
        },
        Node::BoolLit(b, _) => {
            out.push('#');
            if *b {
                out.push('t');
            } else {
                out.push('f');
            }
            proof {
                assert(out@ =~= old(out)@ + render_node(view_node(*node)));
            }
        },
        Node::Progn(xs, _) => {
            render_seq_into(xs, out);
        },
        Node::List(xs, _) => {
            out.push('(');
            render_seq_into(xs, out);
            out.push(')');
            proof {
                assert(out@ =~= old(out)@ + render_node(view_node(*node)));
            }
        },
    }
}

/// Appends the space-joined display texts of `xs` to `out`.
fn render_seq_into(xs: &Vec<Node>, out: &mut Vec<char>)
    ensures
        final(out)@ == old(out)@ + render_nodes(view_nodes(xs@)),
    decreases *xs,
{
    let mut i: usize = 0;
    while i < xs.len()
        invariant
            i <= xs@.len(),
            out@ == old(out)@ + render_nodes(view_nodes(xs@).take(i as int)),
        decreases xs@.len() - i,
    {
        if i > 0 {
            out.push(' ');
        }
        proof {
            assert(decreases_to!(*xs => xs@[i as int]));
        }
        render_into(&xs[i], out);
        i = i + 1;
        proof {
            lemma_view_nodes(xs@);
            let vs = view_nodes(xs@);
            assert(vs.take(i as int).drop_last() =~= vs.take(i - 1));
            assert(vs.take(i as int).last() == vs[i - 1]);
            if i > 1 {
                assert(out@ =~= old(out)@ + render_nodes(vs.take(i as int)));
            } else {
                assert(out@ =~= old(out)@ + render_nodes(vs.take(1)));
            }
        }
    }
    proof {
        lemma_view_nodes(xs@);
        assert(view_nodes(xs@).take(xs@.len() as int) =~= view_nodes(xs@));
    }
}

/// The display text of a node.
pub fn to_str(node: &Node) -> (r: String)
    ensures
        r@ == render_node(view_node(*node)),
{
    let mut out: Vec<char> = Vec::new();
    render_into(node, &mut out);
    chars_to_string(&out)
}

} // verus!
