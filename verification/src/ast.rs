use vstd::prelude::*;

verus! {

/// An immutable singly linked list, the sequence type of the syntax tree.
pub enum Items<T> {
    Nil,
    Cons(Box<T>, Box<Items<T>>),
}

impl<T> Items<T> {
    /// The list holding `s` in front of `tail`.
    pub open spec fn onto(s: Seq<T>, tail: Items<T>) -> Items<T>
        decreases s.len(),
    {
        if s.len() == 0 {
            tail
        } else {
            Items::<T>::onto(s.drop_last(), Items::Cons(Box::new(s.last()), Box::new(tail)))
        }
    }

    /// The list holding the elements of `s` in order.
    pub open spec fn from_seq(s: Seq<T>) -> Items<T> {
        Items::<T>::onto(s, Items::Nil)
    }

    /// The elements of the list, in order.
    pub open spec fn to_seq(self) -> Seq<T>
        decreases self,
    {
        match self {
            Items::Nil => seq![],
            Items::Cons(h, t) => seq![*h] + t.to_seq(),
        }
    }

    /// Builds the list of the elements of `v`, in order.
    pub fn from_vec(v: Vec<T>) -> (r: Items<T>)
        ensures
            r == Items::<T>::from_seq(v@),
    {
        let mut v = v;
        let ghost all = v@;
        let mut acc: Items<T> = Items::Nil;
        while v.len() > 0
            invariant
                Items::<T>::onto(v@, acc) == Items::<T>::from_seq(all),
            decreases v@.len(),
        {
            let ghost before = v@;
            let x = v.pop().unwrap();
            proof {
                assert(before.drop_last() == v@);
            }
            acc = Items::Cons(Box::new(x), Box::new(acc));
        }
        acc
    }

    pub proof fn lemma_onto_seq(s: Seq<T>, tail: Items<T>)
        ensures
            Items::<T>::onto(s, tail).to_seq() == s + tail.to_seq(),
        decreases s.len(),
    {
        if s.len() > 0 {
            let t2 = Items::Cons(Box::new(s.last()), Box::new(tail));
            Items::<T>::lemma_onto_seq(s.drop_last(), t2);
            assert(s.drop_last() + t2.to_seq() =~= s + tail.to_seq());
        } else {
            assert(s + tail.to_seq() =~= tail.to_seq());
        }
    }

    /// Reading back a list built from `s` gives `s`.
    pub proof fn lemma_from_seq(s: Seq<T>)
        ensures
            Items::<T>::from_seq(s).to_seq() == s,
    {
        Items::<T>::lemma_onto_seq(s, Items::Nil);
        assert(s + Seq::<T>::empty() =~= s);
    }
}

/// Binary, comparison and unary operators.
#[derive(Clone, Copy, PartialEq, Eq, Structural, Debug)]
pub enum Op {
    Add,
    Sub,
    Mul,
    Div,
    Mod,
    Eq,
    Ne,
    Lt,
    Le,
    Gt,
    Ge,
    Neg,
    Not,
}

/// Short-circuit operators.
#[derive(Clone, Copy, PartialEq, Eq, Structural, Debug)]
pub enum LogicOp {
    And,
    Or,
}

/// Expressions. A float literal keeps its source text.
pub enum Expr {
    NoneVal,
    Bool(bool),
    Int(i64),
    Float(String),
    Str(String),
    FString(String),
    Name(String),
    List(Items<Expr>),
    Dict(Items<(Expr, Expr)>),
    Tuple(Items<Expr>),
    /// `[elt for target in iter if cond]`
    ListComp(Box<Expr>, Box<Expr>, Box<Expr>, Option<Box<Expr>>),
    Lambda(Items<String>, Box<Expr>),
    BinOp(Op, Box<Expr>, Box<Expr>),
    UnaryOp(Op, Box<Expr>),
    Compare(Op, Box<Expr>, Box<Expr>),
    Logical(LogicOp, Box<Expr>, Box<Expr>),
    /// Callee, positional arguments, keyword arguments.
    Call(Box<Expr>, Items<Expr>, Items<(String, Expr)>),
    Attribute(Box<Expr>, String),
    Subscript(Box<Expr>, Box<Expr>),
}

/// A function parameter with its optional default.
pub struct Param {
    pub name: String,
    pub default: Option<Expr>,
}

/// An `except` clause: the exception names it catches (none catches all),
/// the name it binds, and its body.
pub struct Handler {
    pub types: Items<String>,
    pub alias: Option<String>,
    pub body: Items<Stmt>,
}

/// Statements. An `elif` chain is nested into the `else` branch.
pub enum Stmt {
    Expr(Expr),
    Assign(Expr, Expr),
    If(Expr, Items<Stmt>, Items<Stmt>),
    While(Expr, Items<Stmt>),
    For(Expr, Expr, Items<Stmt>),
    /// Name, parameters, `*args` name, `**kwargs` name, body.
    FunctionDef(String, Items<Param>, Option<String>, Option<String>, Items<Stmt>),
    ClassDef(String, Option<Expr>, Items<Stmt>),
    Try(Items<Stmt>, Items<Handler>),
    Raise(Expr),
    /// A dotted module path, one name per segment.
    Import(Items<String>),
    FromImport(Items<String>, Items<String>),
    Return(Option<Expr>),
    Break,
    Continue,
    Pass,
}

impl Expr {
    /// A copy of the expression.
    pub fn duplicate(&self) -> (r: Expr)
        ensures
            r == *self,
        decreases self,
    {
        match self {
            Expr::NoneVal => Expr::NoneVal,
            Expr::Bool(b) => Expr::Bool(*b),
            Expr::Int(i) => Expr::Int(*i),
            Expr::Float(s) => Expr::Float(s.clone()),
            Expr::Str(s) => Expr::Str(s.clone()),
            Expr::FString(s) => Expr::FString(s.clone()),
            Expr::Name(s) => Expr::Name(s.clone()),
            Expr::List(l) => Expr::List(dup_exprs(l)),
            Expr::Dict(l) => Expr::Dict(dup_pairs(l)),
            Expr::Tuple(l) => Expr::Tuple(dup_exprs(l)),
            Expr::ListComp(a, b, c, d) => Expr::ListComp(
                Box::new(a.duplicate()),
                Box::new(b.duplicate()),
                Box::new(c.duplicate()),
                match d {
                    Some(x) => Some(Box::new(x.duplicate())),
                    None => None,
                },
            ),
            Expr::Lambda(ps, b) => Expr::Lambda(dup_names(ps), Box::new(b.duplicate())),
            Expr::BinOp(o, a, b) => Expr::BinOp(*o, Box::new(a.duplicate()), Box::new(b.duplicate())),
            Expr::UnaryOp(o, a) => Expr::UnaryOp(*o, Box::new(a.duplicate())),
            Expr::Compare(o, a, b) => Expr::Compare(
                *o,
                Box::new(a.duplicate()),
                Box::new(b.duplicate()),
            ),
            Expr::Logical(o, a, b) => Expr::Logical(
                *o,
                Box::new(a.duplicate()),
                Box::new(b.duplicate()),
            ),
            Expr::Call(f, a, k) => Expr::Call(Box::new(f.duplicate()), dup_exprs(a), dup_kwargs(k)),
            Expr::Attribute(a, n) => Expr::Attribute(Box::new(a.duplicate()), n.clone()),
            Expr::Subscript(a, b) => Expr::Subscript(Box::new(a.duplicate()), Box::new(b.duplicate())),
        }
    }
}

fn dup_exprs(l: &Items<Expr>) -> (r: Items<Expr>)
    ensures
        r == *l,
    decreases l,
{
    match l {
        Items::Nil => Items::Nil,
        Items::Cons(h, t) => Items::Cons(Box::new(h.duplicate()), Box::new(dup_exprs(t))),
    }
}

fn dup_pairs(l: &Items<(Expr, Expr)>) -> (r: Items<(Expr, Expr)>)
    ensures
        r == *l,
    decreases l,
{
    match l {
        Items::Nil => Items::Nil,
        Items::Cons(h, t) => Items::Cons(
            Box::new((h.0.duplicate(), h.1.duplicate())),
            Box::new(dup_pairs(t)),
        ),
    }
}

fn dup_kwargs(l: &Items<(String, Expr)>) -> (r: Items<(String, Expr)>)
    ensures
        r == *l,
    decreases l,
{
    match l {
        Items::Nil => Items::Nil,
        Items::Cons(h, t) => Items::Cons(
            Box::new((h.0.clone(), h.1.duplicate())),
            Box::new(dup_kwargs(t)),
        ),
    }
}

fn dup_names(l: &Items<String>) -> (r: Items<String>)
    ensures
        r == *l,
    decreases l,
{
    match l {
        Items::Nil => Items::Nil,
        Items::Cons(h, t) => Items::Cons(Box::new((**h).clone()), Box::new(dup_names(t))),
    }
}

impl Stmt {
    /// A copy of the statement.
    pub fn duplicate(&self) -> (r: Stmt)
        ensures
            r == *self,
        decreases self,
    {
        match self {
            Stmt::Expr(e) => Stmt::Expr(e.duplicate()),
            Stmt::Assign(a, b) => Stmt::Assign(a.duplicate(), b.duplicate()),
            Stmt::If(c, a, b) => Stmt::If(c.duplicate(), dup_stmts(a), dup_stmts(b)),
            Stmt::While(c, a) => Stmt::While(c.duplicate(), dup_stmts(a)),
            Stmt::For(t, i, b) => Stmt::For(t.duplicate(), i.duplicate(), dup_stmts(b)),
            Stmt::FunctionDef(n, ps, va, kw, b) => Stmt::FunctionDef(
                n.clone(),
                dup_params(ps),
                dup_name(va),
                dup_name(kw),
                dup_stmts(b),
            ),
            Stmt::ClassDef(n, base, b) => Stmt::ClassDef(
                n.clone(),
                match base {
                    Some(e) => Some(e.duplicate()),
                    None => None,
                },
                dup_stmts(b),
            ),
            Stmt::Try(b, hs) => Stmt::Try(dup_stmts(b), dup_handlers(hs)),
            Stmt::Raise(e) => Stmt::Raise(e.duplicate()),
            Stmt::Import(n) => Stmt::Import(dup_names(n)),
            Stmt::FromImport(a, b) => Stmt::FromImport(dup_names(a), dup_names(b)),
            Stmt::Return(e) => Stmt::Return(
                match e {
                    Some(x) => Some(x.duplicate()),
                    None => None,
                },
            ),
            Stmt::Break => Stmt::Break,
            Stmt::Continue => Stmt::Continue,
            Stmt::Pass => Stmt::Pass,
        }
    }
}

fn dup_name(n: &Option<String>) -> (r: Option<String>)
    ensures
        r == *n,
{
    match n {
        Some(s) => Some(s.clone()),
        None => None,
    }
}

/// A copy of a block of statements.
pub fn dup_stmts(l: &Items<Stmt>) -> (r: Items<Stmt>)
    ensures
        r == *l,
    decreases l,
{
    match l {
        Items::Nil => Items::Nil,
        Items::Cons(h, t) => Items::Cons(Box::new(h.duplicate()), Box::new(dup_stmts(t))),
    }
}

fn dup_params(l: &Items<Param>) -> (r: Items<Param>)
    ensures
        r == *l,
    decreases l,
{
    match l {
        Items::Nil => Items::Nil,
        Items::Cons(h, t) => Items::Cons(
            Box::new(
                Param {
                    name: h.name.clone(),
                    default: match &h.default {
                        Some(e) => Some(e.duplicate()),
                        None => None,
                    },
                },
            ),
            Box::new(dup_params(t)),
        ),
    }
}

fn dup_handlers(l: &Items<Handler>) -> (r: Items<Handler>)
    ensures
        r == *l,
    decreases l,
{
    match l {
        Items::Nil => Items::Nil,
        Items::Cons(h, t) => Items::Cons(
            Box::new(Handler { types: dup_names(&h.types), alias: dup_name(&h.alias), body: dup_stmts(&h.body) }),
            Box::new(dup_handlers(t)),
        ),
    }
}

} // verus!
