//! Runtime values, the syntax nodes they are made from, and their text form.
use vstd::prelude::*;
use vstd::string::*;
use crate::text::{i64_to_decimal, signed_decimal};

verus! {

/// A node of a syntax tree, as a parser hands it over.
#[derive(Debug, PartialEq)]
pub enum Node {
    NIdentifier(String),
    NInteger(i64),
    NBoolean(bool),
    NString(String),
    NList(Vec<Node>),
}

/// The built-in procedures.
#[derive(Debug, Clone, Copy, PartialEq, Eq, Structural)]
pub enum Native {
    Define,
    SetBang,
    Lambda,
    If,
    Plus,
    Minus,
    And,
    Or,
    List,
    Quote,
    Quasiquote,
    Error,
}

/// A procedure: built in, or a closure made of parameter names, a body and
/// the index of the scope it was created in.
#[derive(Debug, PartialEq)]
pub enum Function {
    NativeFunction(Native),
    SchemeFunction(Vec<String>, Vec<Value>, usize),
}

/// A runtime value.
#[derive(Debug, PartialEq)]
pub enum Value {
    VSymbol(String),
    VInteger(i64),
    VBoolean(bool),
    VString(String),
    VList(Vec<Value>),
    VProcedure(Function),
}

/// The mathematical form of a procedure.
pub enum Proc {
    Native(Native),
    Closure(Seq<Seq<char>>, Seq<Datum>, nat),
}

/// The mathematical form of a value.
pub enum Datum {
    Symbol(Seq<char>),
    Integer(int),
    Boolean(bool),
    Str(Seq<char>),
    List(Seq<Datum>),
    Procedure(Proc),
}

/// The empty list, the value of forms that have no other.
pub open spec fn nil() -> Datum {
    Datum::List(Seq::empty())
}

pub open spec fn names_view(s: Seq<String>) -> Seq<Seq<char>> {
    s.map_values(|n: String| n@)
}

impl Value {
    pub open spec fn view(&self) -> Datum
        decreases self,
    {
        match self {
            Value::VSymbol(s) => Datum::Symbol(s@),
            Value::VInteger(n) => Datum::Integer(*n as int),
            Value::VBoolean(b) => Datum::Boolean(*b),
            Value::VString(s) => Datum::Str(s@),
            Value::VList(l) => Datum::List(views(l@)),
            Value::VProcedure(Function::NativeFunction(n)) => Datum::Procedure(Proc::Native(*n)),
            Value::VProcedure(Function::SchemeFunction(ps, body, env)) => Datum::Procedure(
                Proc::Closure(names_view(ps@), views(body@), *env as nat),
            ),
        }
    }
}

/// The views of a sequence of values.
pub open spec fn views(s: Seq<Value>) -> Seq<Datum>
    decreases s,
{
    if s.len() == 0 {
        Seq::empty()
    } else {
        views(s.drop_last()).push(s.last().view())
    }
}

pub proof fn lemma_views(s: Seq<Value>)
    ensures
        views(s).len() == s.len(),
        forall|i: int| 0 <= i < s.len() ==> #[trigger] views(s)[i] == s[i].view(),
    decreases s.len(),
{
    if s.len() > 0 {
        lemma_views(s.drop_last());
    }
}

pub proof fn lemma_views_push(s: Seq<Value>, v: Value)
    ensures
        views(s.push(v)) == views(s).push(v.view()),
{
    assert(s.push(v).drop_last() =~= s);
}

impl Node {
    pub open spec fn view(&self) -> Datum
        decreases self,
    {
        match self {
            Node::NIdentifier(s) => Datum::Symbol(s@),
            Node::NInteger(n) => Datum::Integer(*n as int),
            Node::NBoolean(b) => Datum::Boolean(*b),
            Node::NString(s) => Datum::Str(s@),
            Node::NList(l) => Datum::List(node_views(l@)),
        }
    }
}

/// The views of a sequence of nodes.
pub open spec fn node_views(s: Seq<Node>) -> Seq<Datum>
    decreases s,
{
    if s.len() == 0 {
        Seq::empty()
    } else {
        node_views(s.drop_last()).push(s.last().view())
    }
}

pub proof fn lemma_views_prefix(s: Seq<Value>, i: int)
    requires
        0 <= i < s.len(),
    ensures
        views(s.subrange(0, i + 1)) == views(s.subrange(0, i)).push(s[i].view()),
{
    assert(s.subrange(0, i + 1).drop_last() =~= s.subrange(0, i));
}

pub proof fn lemma_node_views_prefix(s: Seq<Node>, i: int)
    requires
        0 <= i < s.len(),
    ensures
        node_views(s.subrange(0, i + 1)) == node_views(s.subrange(0, i)).push(s[i].view()),
{
    assert(s.subrange(0, i + 1).drop_last() =~= s.subrange(0, i));
}

/// The text of a value without the leading quote mark.
pub open spec fn raw_text(d: Datum) -> Seq<char>
    decreases d,
{
    match d {
        Datum::Symbol(s) => s,
        Datum::Integer(n) => signed_decimal(n),
        Datum::Boolean(b) => if b { "#t"@ } else { "#f"@ },
        Datum::Str(s) => "\""@ + s + "\""@,
        Datum::List(items) => "("@ + joined(items) + ")"@,
        Datum::Procedure(_) => "#<procedure>"@,
    }
}

/// The texts of `items`, separated by single spaces.
pub open spec fn joined(items: Seq<Datum>) -> Seq<char>
    decreases items,
{
    if items.len() == 0 {
        Seq::empty()
    } else if items.len() == 1 {
        raw_text(items[0])
    } else {
        joined(items.drop_last()) + " "@ + raw_text(items.last())
    }
}

/// The text of a value: symbols and lists carry a leading quote mark.
pub open spec fn text_of(d: Datum) -> Seq<char> {
    match d {
        Datum::Symbol(_) => "'"@ + raw_text(d),
        Datum::List(_) => "'"@ + raw_text(d),
        _ => raw_text(d),
    }
}

/// The copies of a sequence of names.
pub fn copy_names(ps: &Vec<String>) -> (r: Vec<String>)
    ensures
        r@ == ps@,
{
    let mut out: Vec<String> = Vec::new();
    let mut i: usize = 0;
    while i < ps.len()
        invariant
            i <= ps.len(),
            out@ == ps@.subrange(0, i as int),
        decreases ps.len() - i,
    {
        out.push(ps[i].clone());
        i = i + 1;
        assert(out@ =~= ps@.subrange(0, i as int));
    }
    assert(ps@.subrange(0, ps.len() as int) =~= ps@);
    out
}

impl Value {
    /// Converts syntax nodes to values of the same shape.
    pub fn from_nodes(nodes: &[Node]) -> (r: Vec<Value>)
        ensures
            views(r@) == node_views(nodes@),
    {
        let mut out: Vec<Value> = Vec::new();
        let mut i: usize = 0;
        while i < nodes.len()
            invariant
                i <= nodes.len(),
                views(out@) == node_views(nodes@.subrange(0, i as int)),
            decreases nodes.len() - i,
        {
            let v = Value::from_node(&nodes[i]);
            proof {
                lemma_views_push(out@, v);
                lemma_node_views_prefix(nodes@, i as int);
            }
            out.push(v);
            i = i + 1;
        }
        assert(nodes@.subrange(0, nodes.len() as int) =~= nodes@);
        out
    }

    /// Converts one syntax node to a value of the same shape.
    pub fn from_node(node: &Node) -> (r: Value)
        ensures
            r.view() == node.view(),
        decreases node,
    {
        match node {
            Node::NIdentifier(s) => Value::VSymbol(s.clone()),
            Node::NInteger(n) => Value::VInteger(*n),
            Node::NBoolean(b) => Value::VBoolean(*b),
            Node::NString(s) => Value::VString(s.clone()),
            Node::NList(l) => {
                let mut out: Vec<Value> = Vec::new();
                let mut i: usize = 0;
                while i < l.len()
                    invariant
                        i <= l.len(),
                        *node == Node::NList(*l),
                        views(out@) == node_views(l@.subrange(0, i as int)),
                    decreases l.len() - i,
                {
                    proof {
                        assert(decreases_to!(*node => (*node)->NList_0));
                        assert(decreases_to!(*l => l[i as int]));
                    }
                    let v = Value::from_node(&l[i]);
                    proof {
                        lemma_views_push(out@, v);
                        lemma_node_views_prefix(l@, i as int);
                    }
                    out.push(v);
                    i = i + 1;
                }
                assert(l@.subrange(0, l.len() as int) =~= l@);
                Value::VList(out)
            },
        }
    }

    /// A copy of this value.
    pub fn duplicate(&self) -> (r: Value)
        ensures
            r.view() == self.view(),
        decreases self,
    {
        match self {
            Value::VSymbol(s) => Value::VSymbol(s.clone()),
            Value::VInteger(n) => Value::VInteger(*n),
            Value::VBoolean(b) => Value::VBoolean(*b),
            Value::VString(s) => Value::VString(s.clone()),
            Value::VList(l) => {
                let mut out: Vec<Value> = Vec::new();
                let mut i: usize = 0;
                while i < l.len()
                    invariant
                        i <= l.len(),
                        *self == Value::VList(*l),
                        views(out@) == views(l@.subrange(0, i as int)),
                    decreases l.len() - i,
                {
                    proof {
                        assert(decreases_to!(*self => (*self)->VList_0));
                        assert(decreases_to!(*l => l[i as int]));
                    }
                    let v = l[i].duplicate();
                    proof {
                        lemma_views_push(out@, v);
                        lemma_views_prefix(l@, i as int);
                    }
                    out.push(v);
                    i = i + 1;
                }
                assert(l@.subrange(0, l.len() as int) =~= l@);
                Value::VList(out)
            },
            Value::VProcedure(Function::NativeFunction(n)) => Value::VProcedure(Function::NativeFunction(*n)),
            Value::VProcedure(Function::SchemeFunction(ps, body, env)) => {
                let names = copy_names(ps);
                let mut out: Vec<Value> = Vec::new();
                let mut i: usize = 0;
                while i < body.len()
                    invariant
                        i <= body.len(),
                        *self == Value::VProcedure(Function::SchemeFunction(*ps, *body, *env)),
                        views(out@) == views(body@.subrange(0, i as int)),
                    decreases body.len() - i,
                {
                    proof {
                        assert(decreases_to!(*self => (*self)->VProcedure_0));
                        assert(decreases_to!((*self)->VProcedure_0 => (*self)->VProcedure_0->SchemeFunction_1));
                        assert(decreases_to!(*body => body[i as int]));
                    }
                    let v = body[i].duplicate();
                    proof {
                        lemma_views_push(out@, v);
                        lemma_views_prefix(body@, i as int);
                    }
                    out.push(v);
                    i = i + 1;
                }
                assert(body@.subrange(0, body.len() as int) =~= body@);
                Value::VProcedure(Function::SchemeFunction(names, out, *env))
            },
        }
    }

    /// The text of this value: symbols and lists carry a leading quote mark.
    pub fn to_str(&self) -> (r: String)
        ensures
            r@ == text_of(self.view()),
    {
        let raw = self.to_raw_str();
        match self {
            Value::VSymbol(_) | Value::VList(_) => {
                let mut s = String::from_str("'");
                s.append(raw.as_str());
                s
            },
            _ => raw,
        }
    }

    /// The text of this value without the leading quote mark.
    pub fn to_raw_str(&self) -> (r: String)
        ensures
            r@ == raw_text(self.view()),
        decreases self,
    {
        match self {
            Value::VSymbol(s) => s.clone(),
            Value::VInteger(n) => i64_to_decimal(*n),
            Value::VBoolean(b) => if *b { String::from_str("#t") } else { String::from_str("#f") },
            Value::VString(v) => {
                let mut s = String::from_str("\"");
                s.append(v.as_str());
                s.append("\"");
                s
            },
            Value::VList(l) => {
                let ghost ds = views(l@);
                proof { lemma_views(l@); }
                let mut s = String::new();
                let mut i: usize = 0;
                while i < l.len()
                    invariant
                        i <= l.len(),
                        *self == Value::VList(*l),
                        ds == views(l@),
                        ds.len() == l.len(),
                        forall|j: int| 0 <= j < l.len() ==> #[trigger] ds[j] == l@[j].view(),
                        s@ == joined(ds.subrange(0, i as int)),
                    decreases l.len() - i,
                {
                    proof {
                        assert(decreases_to!(*self => (*self)->VList_0));
                        assert(decreases_to!(*l => l[i as int]));
                    }
                    let item = l[i].to_raw_str();
                    let ghost prev = s@;
                    if i > 0 {
                        s.append(" ");
                    }
                    s.append(item.as_str());
                    proof {
                        assert(ds.subrange(0, i + 1).drop_last() =~= ds.subrange(0, i as int));
                        if i == 0 {
                            assert(s@ =~= joined(ds.subrange(0, 1)));
                        } else {
                            assert(s@ =~= prev + " "@ + item@);
                        }
                    }
                    i = i + 1;
                }
                assert(ds.subrange(0, l.len() as int) =~= ds);
                let mut r = String::from_str("(");
                r.append(s.as_str());
                r.append(")");
                r
            },
            Value::VProcedure(_) => String::from_str("#<procedure>"),
        }
    }
}

} // verus!
