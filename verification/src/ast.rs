//! The syntax tree of an Aion program.
use vstd::prelude::*;

use crate::lexer::{Operator, Type};
use crate::text::owned;

verus! {

#[derive(Debug)]
pub struct Program {
    pub items: Vec<Global>,
}

impl Program {
    pub fn new() -> (r: Self)
        ensures
            r.items@ == Seq::<Global>::empty(),
    {
        Program { items: Vec::new() }
    }

    /// Appends a global item.
    pub fn add(&mut self, item: Global)
        ensures
            final(self).items@ == old(self).items@.push(item),
    {
        self.items.push(item);
    }

    pub fn items(&self) -> (r: &Vec<Global>)
        ensures
            *r == self.items,
    {
        &self.items
    }
}

#[derive(Debug)]
pub enum Global {
    Import(Vec<Space>),
    Fun(FunKind),
    Var(VarDecl),
    Class(Class),
}

#[derive(Debug)]
pub struct Space {
    pub name: String,
    pub alias: Option<String>,
    pub sub: Option<Subspace>,
    pub used: bool,
}

#[derive(Debug)]
pub enum Subspace {
    All,
    Only(Vec<Space>),
}

#[derive(Debug)]
pub struct Class {
    pub public: bool,
    pub name: String,
    pub imp: Option<Vec<String>>,
    pub body: Vec<ClassBody>,
}

#[derive(Debug)]
pub enum ClassBody {
    Var(VarDecl),
    Fun(FunKind),
}

#[derive(Debug)]
pub enum FunKind {
    Entry(Function),
    Custom(Function),
    Extern(Function),
}

#[derive(Debug)]
pub enum Items {
    Var(Var),
    Ret(Value),
    Expr(Value),
    Stop,
    Skip,
}

#[derive(Debug)]
pub enum Var {
    Decl(VarDecl),
    Var(Variable),
}

#[derive(Debug)]
pub struct Variable {
    pub name: String,
    pub val: Option<Value>,
}

#[derive(PartialEq, Eq, Structural, Clone, Copy, Debug)]
pub enum Parallelism {
    CPU,
    GPU,
    Sequential,
}

#[derive(Debug)]
pub struct VarDecl {
    pub par: Parallelism,
    pub mutable: bool,
    pub id: String,
    pub ty: Type,
    pub val: Option<Value>,
    pub list: bool,
}

impl VarDecl {
    /// An immutable, untyped, uninitialised declaration with an empty name.
    pub fn new() -> (r: Self)
        ensures
            r.par == Parallelism::Sequential,
            !r.mutable,
            r.id@ == Seq::<char>::empty(),
            r.ty is Void,
            r.val is None,
            !r.list,
    {
        let id = String::new();
        VarDecl { par: Parallelism::Sequential, mutable: false, id, ty: Type::Void, val: None, list: false }
    }

    pub fn parallelism(&self) -> (r: &Parallelism)
        ensures
            *r == self.par,
    {
        &self.par
    }

    pub fn mutable(&self) -> (r: bool)
        ensures
            r == self.mutable,
    {
        self.mutable
    }

    pub fn identifier(&self) -> (r: &str)
        ensures
            r@ == self.id@,
    {
        self.id.as_str()
    }

    pub fn ty(&self) -> (r: &Type)
        ensures
            *r == self.ty,
    {
        &self.ty
    }

    pub fn value(&self) -> (r: &Option<Value>)
        ensures
            *r == self.val,
    {
        &self.val
    }

    pub fn list(&self) -> (r: bool)
        ensures
            r == self.list,
    {
        self.list
    }
}

#[derive(PartialEq, Eq, Structural, Debug, Clone, Copy)]
pub enum BoolValue {
    True,
    False,
}

#[derive(Debug)]
pub struct IfElse {
    pub cond: Option<Box<Value>>,
    pub body: Vec<Items>,
    pub elif: Option<Box<IfElse>>,
    pub ret: Option<Type>,
}

impl IfElse {
    /// An `if` with no condition, an empty body, no `else` and no known type.
    pub fn new() -> (r: Self)
        ensures
            r.cond is None,
            r.body@ == Seq::<Items>::empty(),
            r.elif is None,
            r.ret is None,
    {
        IfElse { cond: None, body: Vec::new(), elif: None, ret: None }
    }

    pub fn condition(&self) -> (r: &Option<Box<Value>>)
        ensures
            *r == self.cond,
    {
        &self.cond
    }

    pub fn body(&self) -> (r: &[Items])
        ensures
            r@ == self.body@,
    {
        self.body.as_slice()
    }

    pub fn else_if(&self) -> (r: Option<&IfElse>)
        ensures
            match self.elif {
                Some(e) => r == Some(&*e),
                None => r is None,
            },
    {
        match &self.elif {
            Some(e) => Some(&**e),
            None => None,
        }
    }

    pub fn ret(&self) -> (r: &Option<Type>)
        ensures
            *r == self.ret,
    {
        &self.ret
    }
}

#[derive(Debug)]
pub struct Loop {
    pub cond: Option<Box<VarDecl>>,
    pub body: Vec<Items>,
}

#[derive(Debug)]
pub enum Value {
    Expression(Expr),
    StringLiteral(String),
    Char(char),
    Boolean(BoolValue),
    Call(String, Vec<Value>),
    List(List),
    Block(Type, Vec<Items>),
    IfElse(IfElse),
    Loop(Loop),
    Null,
}

#[derive(Debug)]
pub enum List {
    Decl(Expr, Option<Vec<Vec<Value>>>),
    Use(String, Vec<Vec<Value>>, Option<Box<Value>>),
}

/// Single struct used for both arithmetic and logical binary expressions.
/// `Expr::Binary` holds arithmetic ops (+, -, *, /);
/// `Expr::Boolean` holds logical ops (&&, ||, |, &).
#[derive(Debug)]
pub struct BinaryOp {
    pub left: Box<Expr>,
    pub op: Operator,
    pub right: Box<Expr>,
}

impl BinaryOp {
    /// An operation with no operator between two empty expressions.
    pub fn new() -> (r: Self)
        ensures
            *r.left is Null,
            r.op == Operator::Nothing,
            *r.right is Null,
    {
        BinaryOp { left: Box::new(Expr::Null), op: Operator::Nothing, right: Box::new(Expr::Null) }
    }

    pub fn left(&self) -> (r: &Expr)
        ensures
            *r == *self.left,
    {
        &self.left
    }

    pub fn op(&self) -> (r: &Operator)
        ensures
            *r == self.op,
    {
        &self.op
    }

    pub fn right(&self) -> (r: &Expr)
        ensures
            *r == *self.right,
    {
        &self.right
    }
}

#[derive(Debug)]
pub struct Unary {
    pub op: Operator,
    pub right: Box<Expr>,
}

impl Unary {
    /// A unary operation with no operator on an empty expression.
    pub fn new() -> (r: Self)
        ensures
            r.op == Operator::Nothing,
            *r.right is Null,
    {
        Unary { op: Operator::Nothing, right: Box::new(Expr::Null) }
    }

    pub fn op(&self) -> (r: &Operator)
        ensures
            *r == self.op,
    {
        &self.op
    }

    pub fn right(&self) -> (r: &Expr)
        ensures
            *r == *self.right,
    {
        &self.right
    }
}

#[derive(Debug)]
pub enum Expr {
    Literal(String),
    CharLiteral(char),
    StringLiteral(String),
    Identifier(String),
    Call(String, Vec<Value>),
    Index(String, Box<Expr>),
    Range(Range),
    Binary(BinaryOp),
    Boolean(BinaryOp),
    Unary(Unary),
    Grouped(Box<Expr>),
    Cast(Cast),
    Null,
}

#[derive(Debug)]
pub struct Range {
    pub start: Box<Expr>,
    pub step: Option<Box<Expr>>,
    pub end: Box<Expr>,
    pub inclusive: bool,
}

/// Whether an expression is the numeric literal with the given text.
pub open spec fn is_literal(e: Expr, text: Seq<char>) -> bool {
    e matches Expr::Literal(s) && s@ == text
}

impl Range {
    /// The inclusive range `0:1::1`: start 0, step 1, end 1.
    pub fn new() -> (r: Self)
        ensures
            is_literal(*r.start, seq!['0']),
            r.step is Some && is_literal(*r.step.unwrap(), seq!['1']),
            is_literal(*r.end, seq!['1']),
            r.inclusive,
    {
        let zero = owned("0");
        let one = owned("1");
        let one2 = owned("1");
        proof {
            reveal_strlit("0");
            reveal_strlit("1");
            assert(zero@ =~= seq!['0']);
            assert(one@ =~= seq!['1']);
            assert(one2@ =~= seq!['1']);
        }
        Range {
            start: Box::new(Expr::Literal(zero)),
            step: Some(Box::new(Expr::Literal(one))),
            end: Box::new(Expr::Literal(one2)),
            inclusive: true,
        }
    }

    pub fn start(&self) -> (r: &Expr)
        ensures
            *r == *self.start,
    {
        &self.start
    }

    pub fn step(&self) -> (r: Option<&Expr>)
        ensures
            match self.step {
                Some(e) => r == Some(&*e),
                None => r is None,
            },
    {
        match &self.step {
            Some(e) => Some(&**e),
            None => None,
        }
    }

    pub fn end(&self) -> (r: &Expr)
        ensures
            *r == *self.end,
    {
        &self.end
    }

    pub fn inclusive(&self) -> (r: bool)
        ensures
            r == self.inclusive,
    {
        self.inclusive
    }
}

#[derive(Debug)]
pub struct Cast {
    pub what: Box<Expr>,
    pub to: Type,
}

#[derive(Debug)]
pub struct Function {
    pub public: bool,
    pub lambda: bool,
    pub id: String,
    pub params: Vec<VarDecl>,
    pub ret: Type,
    pub body: Vec<Items>,
}

impl Function {
    /// A private, non-lambda function with an empty name, no parameters, no return type
    /// and an empty body.
    pub fn new() -> (r: Self)
        ensures
            !r.public,
            !r.lambda,
            r.id@ == Seq::<char>::empty(),
            r.params@ == Seq::<VarDecl>::empty(),
            r.ret is Void,
            r.body@ == Seq::<Items>::empty(),
    {
        Function { public: false, lambda: false, id: String::new(), params: Vec::new(), ret: Type::Void, body: Vec::new() }
    }

    pub fn lambda(&self) -> (r: bool)
        ensures
            r == self.lambda,
    {
        self.lambda
    }

    pub fn identifier(&self) -> (r: &str)
        ensures
            r@ == self.id@,
    {
        self.id.as_str()
    }

    pub fn params(&self) -> (r: &[VarDecl])
        ensures
            r@ == self.params@,
    {
        self.params.as_slice()
    }

    pub fn ret(&self) -> (r: &Type)
        ensures
            *r == self.ret,
    {
        &self.ret
    }

    pub fn body(&self) -> (r: &[Items])
        ensures
            r@ == self.body@,
    {
        self.body.as_slice()
    }
}


/// The number of nodes of an expression.
pub open spec fn expr_size(e: Expr) -> nat
    decreases e,
{
    match e {
        Expr::Call(_, args) => 1 + values_size(args@),
        Expr::Index(_, i) => 1 + expr_size(*i),
        Expr::Range(r) => 1 + expr_size(*r.start) + match r.step {
            Some(s) => expr_size(*s),
            None => 0,
        } + expr_size(*r.end),
        Expr::Binary(b) => 1 + expr_size(*b.left) + expr_size(*b.right),
        Expr::Boolean(b) => 1 + expr_size(*b.left) + expr_size(*b.right),
        Expr::Unary(u) => 1 + expr_size(*u.right),
        Expr::Grouped(g) => 1 + expr_size(*g),
        Expr::Cast(c) => 1 + expr_size(*c.what),
        _ => 1,
    }
}

/// The number of nodes of a sequence of values.
pub open spec fn values_size(s: Seq<Value>) -> nat
    decreases s,
{
    if s.len() == 0 {
        0
    } else {
        values_size(s.drop_last()) + value_size(s.last())
    }
}

/// The number of nodes of the rows of a list.
pub open spec fn rows_size(s: Seq<Vec<Value>>) -> nat
    decreases s,
{
    if s.len() == 0 {
        0
    } else {
        rows_size(s.drop_last()) + 1 + values_size(s.last()@)
    }
}

/// The number of nodes of a value.
pub open spec fn value_size(v: Value) -> nat
    decreases v,
{
    match v {
        Value::Expression(e) => 1 + expr_size(e),
        Value::Call(_, args) => 1 + values_size(args@),
        Value::List(List::Decl(e, rows)) => 1 + expr_size(e) + match rows {
            Some(r) => rows_size(r@),
            None => 0,
        },
        Value::List(List::Use(_, rows, a)) => 1 + rows_size(rows@) + match a {
            Some(x) => value_size(*x),
            None => 0,
        },
        Value::Block(_, items) => 1 + items_size(items@),
        Value::IfElse(i) => 1 + ifelse_size(i),
        Value::Loop(l) => 1 + match l.cond {
            Some(d) => decl_size(*d),
            None => 0,
        } + items_size(l.body@),
        _ => 1,
    }
}

/// The number of nodes of a declaration.
pub open spec fn decl_size(d: VarDecl) -> nat
    decreases d,
{
    1 + match d.val {
        Some(v) => value_size(v),
        None => 0,
    }
}

/// The number of nodes of an `if`.
pub open spec fn ifelse_size(i: IfElse) -> nat
    decreases i,
{
    1 + match i.cond {
        Some(c) => value_size(*c),
        None => 0,
    } + items_size(i.body@) + match i.elif {
        Some(e) => ifelse_size(*e),
        None => 0,
    }
}

/// The number of nodes of a statement.
pub open spec fn item_size(it: Items) -> nat
    decreases it,
{
    match it {
        Items::Var(Var::Decl(d)) => 1 + decl_size(d),
        Items::Var(Var::Var(v)) => 1 + match v.val {
            Some(x) => value_size(x),
            None => 0,
        },
        Items::Ret(v) => 1 + value_size(v),
        Items::Expr(v) => 1 + value_size(v),
        _ => 1,
    }
}

/// The number of nodes of a sequence of statements.
pub open spec fn items_size(s: Seq<Items>) -> nat
    decreases s,
{
    if s.len() == 0 {
        0
    } else {
        items_size(s.drop_last()) + item_size(s.last())
    }
}

/// Every expression has at least one node.
pub proof fn lemma_expr_size_pos(e: Expr)
    ensures
        expr_size(e) >= 1,
{
}

/// Every value has at least one node.
pub proof fn lemma_value_size_pos(v: Value)
    ensures
        value_size(v) >= 1,
{
}

pub proof fn lemma_items_size_first(s: Seq<Items>)
    requires
        s.len() > 0,
    ensures
        items_size(s) == item_size(s[0]) + items_size(s.drop_first()),
    decreases s.len(),
{
    if s.len() > 1 {
        lemma_items_size_first(s.drop_last());
        assert(s.drop_last().drop_first() =~= s.drop_first().drop_last());
        assert(s.drop_last()[0] == s[0]);
    } else {
        assert(s.drop_last() =~= Seq::<Items>::empty());
        assert(s.drop_first() =~= Seq::<Items>::empty());
    }
}

pub proof fn lemma_values_size_first(s: Seq<Value>)
    requires
        s.len() > 0,
    ensures
        values_size(s) == value_size(s[0]) + values_size(s.drop_first()),
    decreases s.len(),
{
    if s.len() > 1 {
        lemma_values_size_first(s.drop_last());
        assert(s.drop_last().drop_first() =~= s.drop_first().drop_last());
        assert(s.drop_last()[0] == s[0]);
    } else {
        assert(s.drop_last() =~= Seq::<Value>::empty());
        assert(s.drop_first() =~= Seq::<Value>::empty());
    }
}

/// Each statement of a list is no larger than the list.
pub proof fn lemma_item_le(s: Seq<Items>, i: int)
    requires
        0 <= i < s.len(),
    ensures
        item_size(s[i]) <= items_size(s),
    decreases s.len(),
{
    if i < s.len() - 1 {
        assert(s.drop_last()[i] == s[i]);
        lemma_item_le(s.drop_last(), i);
    }
}

/// Each value of a list is no larger than the list.
pub proof fn lemma_value_le(s: Seq<Value>, i: int)
    requires
        0 <= i < s.len(),
    ensures
        value_size(s[i]) <= values_size(s),
    decreases s.len(),
{
    if i < s.len() - 1 {
        assert(s.drop_last()[i] == s[i]);
        lemma_value_le(s.drop_last(), i);
    }
}

pub proof fn lemma_rows_size_first(s: Seq<Vec<Value>>)
    requires
        s.len() > 0,
    ensures
        rows_size(s) == 1 + values_size(s[0]@) + rows_size(s.drop_first()),
    decreases s.len(),
{
    if s.len() > 1 {
        lemma_rows_size_first(s.drop_last());
        assert(s.drop_last().drop_first() =~= s.drop_first().drop_last());
        assert(s.drop_last()[0] == s[0]);
    } else {
        assert(s.drop_last() =~= Seq::<Vec<Value>>::empty());
        assert(s.drop_first() =~= Seq::<Vec<Value>>::empty());
    }
}

/// Whether two expressions have the same shape and contents.
pub open spec fn same_expr(a: Expr, b: Expr) -> bool
    decreases a,
{
    match (a, b) {
        (Expr::Literal(x), Expr::Literal(y)) => x == y,
        (Expr::CharLiteral(x), Expr::CharLiteral(y)) => x == y,
        (Expr::StringLiteral(x), Expr::StringLiteral(y)) => x == y,
        (Expr::Identifier(x), Expr::Identifier(y)) => x == y,
        (Expr::Call(x, xs), Expr::Call(y, ys)) => x == y && same_values(xs@, ys@),
        (Expr::Index(x, i), Expr::Index(y, j)) => x == y && same_expr(*i, *j),
        (Expr::Range(x), Expr::Range(y)) => {
            &&& same_expr(*x.start, *y.start)
            &&& match (x.step, y.step) {
                (Some(s), Some(t)) => same_expr(*s, *t),
                (None, None) => true,
                _ => false,
            }
            &&& same_expr(*x.end, *y.end)
            &&& x.inclusive == y.inclusive
        },
        (Expr::Binary(x), Expr::Binary(y)) => x.op == y.op && same_expr(*x.left, *y.left) && same_expr(
            *x.right,
            *y.right,
        ),
        (Expr::Boolean(x), Expr::Boolean(y)) => x.op == y.op && same_expr(*x.left, *y.left) && same_expr(
            *x.right,
            *y.right,
        ),
        (Expr::Unary(x), Expr::Unary(y)) => x.op == y.op && same_expr(*x.right, *y.right),
        (Expr::Grouped(x), Expr::Grouped(y)) => same_expr(*x, *y),
        (Expr::Cast(x), Expr::Cast(y)) => x.to == y.to && same_expr(*x.what, *y.what),
        (Expr::Null, Expr::Null) => true,
        _ => false,
    }
}

/// Whether two sequences of values are the same, element by element.
pub open spec fn same_values(s: Seq<Value>, t: Seq<Value>) -> bool
    decreases s,
{
    if s.len() == 0 {
        t.len() == 0
    } else {
        t.len() == s.len() && same_values(s.drop_last(), t.drop_last()) && same_value(s.last(), t.last())
    }
}

/// Whether two sequences of rows are the same, row by row.
pub open spec fn same_rows(s: Seq<Vec<Value>>, t: Seq<Vec<Value>>) -> bool
    decreases s,
{
    if s.len() == 0 {
        t.len() == 0
    } else {
        t.len() == s.len() && same_rows(s.drop_last(), t.drop_last()) && same_values(s.last()@, t.last()@)
    }
}

/// Whether two values have the same shape and contents.
pub open spec fn same_value(a: Value, b: Value) -> bool
    decreases a,
{
    match (a, b) {
        (Value::Expression(x), Value::Expression(y)) => same_expr(x, y),
        (Value::StringLiteral(x), Value::StringLiteral(y)) => x == y,
        (Value::Char(x), Value::Char(y)) => x == y,
        (Value::Boolean(x), Value::Boolean(y)) => x == y,
        (Value::Call(x, xs), Value::Call(y, ys)) => x == y && same_values(xs@, ys@),
        (Value::List(List::Decl(e, rows)), Value::List(List::Decl(f, rows2))) => {
            &&& same_expr(e, f)
            &&& match (rows, rows2) {
                (Some(r), Some(q)) => same_rows(r@, q@),
                (None, None) => true,
                _ => false,
            }
        },
        (Value::List(List::Use(x, rows, a)), Value::List(List::Use(y, rows2, b))) => {
            &&& x == y
            &&& same_rows(rows@, rows2@)
            &&& match (a, b) {
                (Some(p), Some(q)) => same_value(*p, *q),
                (None, None) => true,
                _ => false,
            }
        },
        (Value::Block(t, xs), Value::Block(u, ys)) => t == u && same_items(xs@, ys@),
        (Value::IfElse(x), Value::IfElse(y)) => same_ifelse(x, y),
        (Value::Loop(x), Value::Loop(y)) => {
            &&& match (x.cond, y.cond) {
                (Some(c), Some(d)) => same_decl(*c, *d),
                (None, None) => true,
                _ => false,
            }
            &&& same_items(x.body@, y.body@)
        },
        (Value::Null, Value::Null) => true,
        _ => false,
    }
}

/// Whether two declarations are the same.
pub open spec fn same_decl(a: VarDecl, b: VarDecl) -> bool
    decreases a,
{
    &&& a.par == b.par
    &&& a.mutable == b.mutable
    &&& a.id == b.id
    &&& a.ty == b.ty
    &&& a.list == b.list
    &&& match (a.val, b.val) {
        (Some(x), Some(y)) => same_value(x, y),
        (None, None) => true,
        _ => false,
    }
}

/// Whether two `if`s are the same, with their `else` branches.
pub open spec fn same_ifelse(a: IfElse, b: IfElse) -> bool
    decreases a,
{
    &&& match (a.cond, b.cond) {
        (Some(x), Some(y)) => same_value(*x, *y),
        (None, None) => true,
        _ => false,
    }
    &&& same_items(a.body@, b.body@)
    &&& match (a.elif, b.elif) {
        (Some(x), Some(y)) => same_ifelse(*x, *y),
        (None, None) => true,
        _ => false,
    }
    &&& a.ret == b.ret
}

/// Whether two statements are the same.
pub open spec fn same_item(a: Items, b: Items) -> bool
    decreases a,
{
    match (a, b) {
        (Items::Var(Var::Decl(x)), Items::Var(Var::Decl(y))) => same_decl(x, y),
        (Items::Var(Var::Var(x)), Items::Var(Var::Var(y))) => {
            &&& x.name == y.name
            &&& match (x.val, y.val) {
                (Some(p), Some(q)) => same_value(p, q),
                (None, None) => true,
                _ => false,
            }
        },
        (Items::Ret(x), Items::Ret(y)) => same_value(x, y),
        (Items::Expr(x), Items::Expr(y)) => same_value(x, y),
        (Items::Stop, Items::Stop) => true,
        (Items::Skip, Items::Skip) => true,
        _ => false,
    }
}

/// Whether two sequences of statements are the same, statement by statement.
pub open spec fn same_items(s: Seq<Items>, t: Seq<Items>) -> bool
    decreases s,
{
    if s.len() == 0 {
        t.len() == 0
    } else {
        t.len() == s.len() && same_items(s.drop_last(), t.drop_last()) && same_item(s.last(), t.last())
    }
}

/// A copy of an expression.
pub fn copy_expr(e: &Expr) -> (r: Expr)
    ensures
        expr_size(r) == expr_size(*e),
        same_expr(*e, r),
    decreases e,
{
    match e {
        Expr::Literal(s) => Expr::Literal(s.clone()),
        Expr::CharLiteral(c) => Expr::CharLiteral(*c),
        Expr::StringLiteral(s) => Expr::StringLiteral(s.clone()),
        Expr::Identifier(s) => Expr::Identifier(s.clone()),
        Expr::Call(id, args) => Expr::Call(id.clone(), copy_values(args)),
        Expr::Index(id, i) => Expr::Index(id.clone(), Box::new(copy_expr(i))),
        Expr::Range(r) => Expr::Range(
            Range {
                start: Box::new(copy_expr(&r.start)),
                step: match &r.step {
                    Some(s) => Some(Box::new(copy_expr(s))),
                    None => None,
                },
                end: Box::new(copy_expr(&r.end)),
                inclusive: r.inclusive,
            },
        ),
        Expr::Binary(b) => Expr::Binary(
            BinaryOp { left: Box::new(copy_expr(&b.left)), op: b.op, right: Box::new(copy_expr(&b.right)) },
        ),
        Expr::Boolean(b) => Expr::Boolean(
            BinaryOp { left: Box::new(copy_expr(&b.left)), op: b.op, right: Box::new(copy_expr(&b.right)) },
        ),
        Expr::Unary(u) => Expr::Unary(Unary { op: u.op, right: Box::new(copy_expr(&u.right)) }),
        Expr::Grouped(g) => Expr::Grouped(Box::new(copy_expr(g))),
        Expr::Cast(c) => Expr::Cast(Cast { what: Box::new(copy_expr(&c.what)), to: c.to.clone() }),
        Expr::Null => Expr::Null,
    }
}

/// A copy of a list of values.
pub fn copy_values(v: &Vec<Value>) -> (r: Vec<Value>)
    ensures
        values_size(r@) == values_size(v@),
        r@.len() == v@.len(),
        same_values(v@, r@),
    decreases v,
{
    let mut out: Vec<Value> = Vec::new();
    let mut i: usize = 0;
    while i < v.len()
        invariant
            i <= v@.len(),
            out@.len() == i,
            values_size(out@) == values_size(v@.subrange(0, i as int)),
            same_values(v@.subrange(0, i as int), out@),
        decreases v.len() - i,
    {
        assert(decreases_to!(v => v@[i as int]));
        let ghost prev = out@;
        let x = copy_value(&v[i]);
        out.push(x);
        proof {
            assert(out@.drop_last() =~= prev);
            assert(v@.subrange(0, i + 1).drop_last() =~= v@.subrange(0, i as int));
            assert(values_size(out@) == values_size(prev) + value_size(x));
            assert(values_size(v@.subrange(0, i + 1)) == values_size(v@.subrange(0, i as int)) + value_size(v@[i as int]));
        }
        i = i + 1;
    }
    assert(v@.subrange(0, v@.len() as int) =~= v@);
    out
}

/// A copy of the rows of a list.
pub fn copy_rows(v: &Vec<Vec<Value>>) -> (r: Vec<Vec<Value>>)
    ensures
        rows_size(r@) == rows_size(v@),
        same_rows(v@, r@),
    decreases v,
{
    let mut out: Vec<Vec<Value>> = Vec::new();
    let mut i: usize = 0;
    while i < v.len()
        invariant
            i <= v@.len(),
            out@.len() == i,
            rows_size(out@) == rows_size(v@.subrange(0, i as int)),
            same_rows(v@.subrange(0, i as int), out@),
        decreases v.len() - i,
    {
        assert(decreases_to!(v => v@[i as int]));
        let ghost prev = out@;
        let x = copy_values(&v[i]);
        out.push(x);
        proof {
            assert(out@.drop_last() =~= prev);
            assert(v@.subrange(0, i + 1).drop_last() =~= v@.subrange(0, i as int));
            assert(rows_size(out@) == rows_size(prev) + 1 + values_size(x@));
            assert(rows_size(v@.subrange(0, i + 1)) == rows_size(v@.subrange(0, i as int)) + 1 + values_size(v@[i as int]@));
        }
        i = i + 1;
    }
    assert(v@.subrange(0, v@.len() as int) =~= v@);
    out
}

/// A copy of a value.
pub fn copy_value(v: &Value) -> (r: Value)
    ensures
        value_size(r) == value_size(*v),
        same_value(*v, r),
    decreases v,
{
    match v {
        Value::Expression(e) => Value::Expression(copy_expr(e)),
        Value::StringLiteral(s) => Value::StringLiteral(s.clone()),
        Value::Char(c) => Value::Char(*c),
        Value::Boolean(b) => Value::Boolean(*b),
        Value::Call(id, args) => Value::Call(id.clone(), copy_values(args)),
        Value::List(List::Decl(e, rows)) => Value::List(
            List::Decl(
                copy_expr(e),
                match rows {
                    Some(r) => Some(copy_rows(r)),
                    None => None,
                },
            ),
        ),
        Value::List(List::Use(id, rows, a)) => Value::List(
            List::Use(
                id.clone(),
                copy_rows(rows),
                match a {
                    Some(x) => Some(Box::new(copy_value(x))),
                    None => None,
                },
            ),
        ),
        Value::Block(t, items) => Value::Block(t.clone(), copy_items(items)),
        Value::IfElse(i) => Value::IfElse(copy_ifelse(i)),
        Value::Loop(l) => Value::Loop(
            Loop {
                cond: match &l.cond {
                    Some(d) => Some(Box::new(copy_decl(d))),
                    None => None,
                },
                body: copy_items(&l.body),
            },
        ),
        Value::Null => Value::Null,
    }
}

/// A copy of a declaration.
pub fn copy_decl(d: &VarDecl) -> (r: VarDecl)
    ensures
        decl_size(r) == decl_size(*d),
        r.id@ == d.id@,
        r.ty == d.ty,
        r.par == d.par,
        r.mutable == d.mutable,
        r.list == d.list,
        r.val is Some == d.val is Some,
        same_decl(*d, r),
    decreases d,
{
    VarDecl {
        par: d.par,
        mutable: d.mutable,
        id: d.id.clone(),
        ty: d.ty.clone(),
        val: match &d.val {
            Some(v) => Some(copy_value(v)),
            None => None,
        },
        list: d.list,
    }
}

/// A copy of an `if`.
pub fn copy_ifelse(i: &IfElse) -> (r: IfElse)
    ensures
        ifelse_size(r) == ifelse_size(*i),
        same_ifelse(*i, r),
    decreases i,
{
    IfElse {
        cond: match &i.cond {
            Some(c) => Some(Box::new(copy_value(c))),
            None => None,
        },
        body: copy_items(&i.body),
        elif: match &i.elif {
            Some(e) => Some(Box::new(copy_ifelse(e))),
            None => None,
        },
        ret: match &i.ret {
            Some(t) => Some(t.clone()),
            None => None,
        },
    }
}

/// A copy of a statement.
pub fn copy_item(it: &Items) -> (r: Items)
    ensures
        item_size(r) == item_size(*it),
        same_item(*it, r),
    decreases it,
{
    match it {
        Items::Var(Var::Decl(d)) => Items::Var(Var::Decl(copy_decl(d))),
        Items::Var(Var::Var(v)) => Items::Var(
            Var::Var(
                Variable {
                    name: v.name.clone(),
                    val: match &v.val {
                        Some(x) => Some(copy_value(x)),
                        None => None,
                    },
                },
            ),
        ),
        Items::Ret(v) => Items::Ret(copy_value(v)),
        Items::Expr(v) => Items::Expr(copy_value(v)),
        Items::Stop => Items::Stop,
        Items::Skip => Items::Skip,
    }
}

/// A copy of a sequence of statements.
pub fn copy_items(v: &Vec<Items>) -> (r: Vec<Items>)
    ensures
        items_size(r@) == items_size(v@),
        r@.len() == v@.len(),
        same_items(v@, r@),
    decreases v,
{
    let mut out: Vec<Items> = Vec::new();
    let mut i: usize = 0;
    while i < v.len()
        invariant
            i <= v@.len(),
            out@.len() == i,
            items_size(out@) == items_size(v@.subrange(0, i as int)),
            same_items(v@.subrange(0, i as int), out@),
        decreases v.len() - i,
    {
        assert(decreases_to!(v => v@[i as int]));
        let ghost prev = out@;
        let x = copy_item(&v[i]);
        out.push(x);
        proof {
            assert(out@.drop_last() =~= prev);
            assert(v@.subrange(0, i + 1).drop_last() =~= v@.subrange(0, i as int));
            assert(items_size(out@) == items_size(prev) + item_size(x));
            assert(items_size(v@.subrange(0, i + 1)) == items_size(v@.subrange(0, i as int)) + item_size(v@[i as int]));
        }
        i = i + 1;
    }
    assert(v@.subrange(0, v@.len() as int) =~= v@);
    out
}

} // verus!
