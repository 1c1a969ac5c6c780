//! The numeric literals of a program, collected in order: the texts that checking may
//! read as floating-point numbers.
use vstd::prelude::*;

use crate::ast::{Expr, FunKind, Global, IfElse, Items, List, Program, Value, Var, VarDecl};
use crate::symbol::{Symbol, SymbolTable};

verus! {

/// The numeric literals of an expression, in order.
pub open spec fn expr_lits(e: Expr) -> Seq<String>
    decreases e,
{
    match e {
        Expr::Literal(s) => seq![s],
        Expr::Call(_, args) => values_lits(args@),
        Expr::Index(_, i) => expr_lits(*i),
        Expr::Range(r) => expr_lits(*r.start) + match r.step {
            Some(st) => expr_lits(*st),
            None => Seq::empty(),
        } + expr_lits(*r.end),
        Expr::Binary(b) => expr_lits(*b.left) + expr_lits(*b.right),
        Expr::Boolean(b) => expr_lits(*b.left) + expr_lits(*b.right),
        Expr::Unary(u) => expr_lits(*u.right),
        Expr::Grouped(g) => expr_lits(*g),
        Expr::Cast(c) => expr_lits(*c.what),
        _ => Seq::empty(),
    }
}

/// The numeric literals of a list of values, in order.
pub open spec fn values_lits(s: Seq<Value>) -> Seq<String>
    decreases s,
{
    if s.len() == 0 {
        Seq::empty()
    } else {
        values_lits(s.drop_last()) + value_lits(s.last())
    }
}

/// The numeric literals of the rows of a list, in order.
pub open spec fn rows_lits(s: Seq<Vec<Value>>) -> Seq<String>
    decreases s,
{
    if s.len() == 0 {
        Seq::empty()
    } else {
        rows_lits(s.drop_last()) + values_lits(s.last()@)
    }
}

/// The numeric literals of a value, in order.
pub open spec fn value_lits(v: Value) -> Seq<String>
    decreases v,
{
    match v {
        Value::Expression(e) => expr_lits(e),
        Value::Call(_, args) => values_lits(args@),
        Value::List(List::Decl(e, rows)) => expr_lits(e) + match rows {
            Some(r) => rows_lits(r@),
            None => Seq::empty(),
        },
        Value::List(List::Use(_, rows, a)) => rows_lits(rows@) + match a {
            Some(x) => value_lits(*x),
            None => Seq::empty(),
        },
        Value::Block(_, items) => items_lits(items@),
        Value::IfElse(ie) => ifelse_lits(ie),
        Value::Loop(l) => (match l.cond {
            Some(d) => decl_lits(*d),
            None => Seq::empty(),
        }) + items_lits(l.body@),
        _ => Seq::empty(),
    }
}

/// The numeric literals of the value a declaration gives.
pub open spec fn decl_lits(d: VarDecl) -> Seq<String>
    decreases d,
{
    match d.val {
        Some(x) => value_lits(x),
        None => Seq::empty(),
    }
}

/// The numeric literals of an `if` and its branches, in order.
pub open spec fn ifelse_lits(ie: IfElse) -> Seq<String>
    decreases ie,
{
    (match ie.cond {
        Some(c) => value_lits(*c),
        None => Seq::empty(),
    }) + items_lits(ie.body@) + (match ie.elif {
        Some(e) => ifelse_lits(*e),
        None => Seq::empty(),
    })
}

/// The numeric literals of a statement, in order.
pub open spec fn item_lits(it: Items) -> Seq<String>
    decreases it,
{
    match it {
        Items::Var(Var::Decl(d)) => decl_lits(d),
        Items::Var(Var::Var(v)) => match v.val {
            Some(x) => value_lits(x),
            None => Seq::empty(),
        },
        Items::Ret(x) => value_lits(x),
        Items::Expr(x) => value_lits(x),
        _ => Seq::empty(),
    }
}

/// The numeric literals of a list of statements, in order.
pub open spec fn items_lits(s: Seq<Items>) -> Seq<String>
    decreases s,
{
    if s.len() == 0 {
        Seq::empty()
    } else {
        items_lits(s.drop_last()) + item_lits(s.last())
    }
}

/// The numeric literals of the bodies of the functions among some symbols, in order.
pub open spec fn symbols_lits(s: Seq<(String, Symbol)>) -> Seq<String>
    decreases s.len(),
{
    if s.len() == 0 {
        Seq::empty()
    } else {
        symbols_lits(s.drop_last()) + match s.last().1 {
            Symbol::Function(f) => match f.body {
                Some(b) => items_lits(b@),
                None => Seq::empty(),
            },
            _ => Seq::empty(),
        }
    }
}

/// The numeric literals of global items: function bodies and the values of variables.
pub open spec fn globals_lits(s: Seq<Global>) -> Seq<String>
    decreases s.len(),
{
    if s.len() == 0 {
        Seq::empty()
    } else {
        globals_lits(s.drop_last()) + match s.last() {
            Global::Fun(FunKind::Custom(f)) => items_lits(f.body@),
            Global::Fun(FunKind::Extern(f)) => items_lits(f.body@),
            Global::Fun(FunKind::Entry(f)) => items_lits(f.body@),
            Global::Var(v) => decl_lits(v),
            _ => Seq::empty(),
        }
    }
}

/// Adds the text of each numeric literal of an expression to `out`, in order.
pub fn expr_literals(e: &Expr, out: &mut Vec<String>)
    ensures
        final(out)@ == old(out)@ + expr_lits(*e),
    decreases e,
{
    let ghost o0 = out@;
    match e {
        Expr::Literal(s) => out.push(s.clone()),
        Expr::Call(_, args) => values_literals(args, out),
        Expr::Index(_, i) => expr_literals(i, out),
        Expr::Range(r) => {
            expr_literals(&r.start, out);
            match &r.step {
                Some(st) => expr_literals(st, out),
                None => {},
            }
            expr_literals(&r.end, out);
        },
        Expr::Binary(b) | Expr::Boolean(b) => {
            expr_literals(&b.left, out);
            expr_literals(&b.right, out);
        },
        Expr::Unary(u) => expr_literals(&u.right, out),
        Expr::Grouped(g) => expr_literals(g, out),
        Expr::Cast(c) => expr_literals(&c.what, out),
        _ => {},
    }
    proof {
        assert(out@ =~= o0 + expr_lits(*e));
    }
}

/// Adds the numeric literals of a list of values to `out`, in order.
pub fn values_literals(vals: &Vec<Value>, out: &mut Vec<String>)
    ensures
        final(out)@ == old(out)@ + values_lits(vals@),
    decreases vals,
{
    let mut i: usize = 0;
    while i < vals.len()
        invariant
            i <= vals@.len(),
            out@ == old(out)@ + values_lits(vals@.subrange(0, i as int)),
        decreases vals.len() - i,
    {
        assert(decreases_to!(vals => vals@[i as int]));
        value_literals(&vals[i], out);
        proof {
            assert(vals@.subrange(0, i + 1).drop_last() =~= vals@.subrange(0, i as int));
            assert(out@ =~= old(out)@ + values_lits(vals@.subrange(0, i + 1)));
        }
        i = i + 1;
    }
    assert(vals@.subrange(0, vals@.len() as int) =~= vals@);
}

/// Adds the numeric literals of a value to `out`, in order.
pub fn value_literals(v: &Value, out: &mut Vec<String>)
    ensures
        final(out)@ == old(out)@ + value_lits(*v),
    decreases v,
{
    let ghost o0 = out@;
    match v {
        Value::Expression(e) => expr_literals(e, out),
        Value::Call(_, args) => values_literals(args, out),
        Value::List(List::Decl(e, rows)) => {
            expr_literals(e, out);
            match rows {
                Some(r) => rows_literals(r, out),
                None => {},
            }
        },
        Value::List(List::Use(_, rows, a)) => {
            rows_literals(rows, out);
            match a {
                Some(x) => value_literals(x, out),
                None => {},
            }
        },
        Value::Block(_, items) => items_literals(items, out),
        Value::IfElse(ie) => ifelse_literals(ie, out),
        Value::Loop(l) => {
            match &l.cond {
                Some(d) => match &d.val {
                    Some(x) => value_literals(x, out),
                    None => {},
                },
                None => {},
            }
            let ghost o1 = out@;
            assert(o1 =~= o0 + match l.cond {
                Some(d) => decl_lits(*d),
                None => Seq::empty(),
            });
            items_literals(&l.body, out);
        },
        _ => {},
    }
    proof {
        assert(out@ =~= o0 + value_lits(*v));
    }
}

/// Adds the numeric literals of the rows of a list to `out`, in order.
pub fn rows_literals(rows: &Vec<Vec<Value>>, out: &mut Vec<String>)
    ensures
        final(out)@ == old(out)@ + rows_lits(rows@),
    decreases rows,
{
    let mut i: usize = 0;
    while i < rows.len()
        invariant
            i <= rows@.len(),
            out@ == old(out)@ + rows_lits(rows@.subrange(0, i as int)),
        decreases rows.len() - i,
    {
        assert(decreases_to!(rows => rows@[i as int]));
        values_literals(&rows[i], out);
        proof {
            assert(rows@.subrange(0, i + 1).drop_last() =~= rows@.subrange(0, i as int));
            assert(out@ =~= old(out)@ + rows_lits(rows@.subrange(0, i + 1)));
        }
        i = i + 1;
    }
    assert(rows@.subrange(0, rows@.len() as int) =~= rows@);
}

/// Adds the numeric literals of an `if` and its branches to `out`, in order.
pub fn ifelse_literals(ie: &IfElse, out: &mut Vec<String>)
    ensures
        final(out)@ == old(out)@ + ifelse_lits(*ie),
    decreases ie,
{
    let ghost o0 = out@;
    match &ie.cond {
        Some(c) => value_literals(c, out),
        None => {},
    }
    items_literals(&ie.body, out);
    match &ie.elif {
        Some(e) => ifelse_literals(e, out),
        None => {},
    }
    proof {
        assert(out@ =~= o0 + ifelse_lits(*ie));
    }
}

/// Adds the numeric literals of a list of statements to `out`, in order.
pub fn items_literals(items: &Vec<Items>, out: &mut Vec<String>)
    ensures
        final(out)@ == old(out)@ + items_lits(items@),
    decreases items,
{
    let mut i: usize = 0;
    while i < items.len()
        invariant
            i <= items@.len(),
            out@ == old(out)@ + items_lits(items@.subrange(0, i as int)),
        decreases items.len() - i,
    {
        assert(decreases_to!(items => items@[i as int]));
        let ghost o0 = out@;
        match &items[i] {
            Items::Var(Var::Decl(d)) => match &d.val {
                Some(x) => value_literals(x, out),
                None => {},
            },
            Items::Var(Var::Var(v)) => match &v.val {
                Some(x) => value_literals(x, out),
                None => {},
            },
            Items::Ret(x) => value_literals(x, out),
            Items::Expr(x) => value_literals(x, out),
            _ => {},
        }
        proof {
            assert(out@ =~= o0 + item_lits(items@[i as int]));
            assert(items@.subrange(0, i + 1).drop_last() =~= items@.subrange(0, i as int));
            assert(out@ =~= old(out)@ + items_lits(items@.subrange(0, i + 1)));
        }
        i = i + 1;
    }
    assert(items@.subrange(0, items@.len() as int) =~= items@);
}

/// The numeric literals that checking may read as floating-point numbers: those of the
/// bodies of the functions in the outermost scope of the symbols (the imported ones),
/// then those of the program's items, in order.
pub fn program_literals(prog: &Program, symbols: &SymbolTable) -> (r: Vec<String>)
    ensures
        r@ == (if symbols.scopes@.len() > 0 {
            symbols_lits(symbols.scopes@[0].symbols@)
        } else {
            Seq::empty()
        }) + globals_lits(prog.items@),
{
    let mut out: Vec<String> = Vec::new();
    if symbols.scopes.len() > 0 {
        let scope = &symbols.scopes[0];
        let mut j: usize = 0;
        while j < scope.symbols.len()
            invariant
                j <= scope.symbols@.len(),
                out@ == symbols_lits(scope.symbols@.subrange(0, j as int)),
            decreases scope.symbols.len() - j,
        {
            let ghost o0 = out@;
            match &scope.symbols[j].1 {
                Symbol::Function(f) => match &f.body {
                    Some(b) => items_literals(b, &mut out),
                    None => {},
                },
                _ => {},
            }
            proof {
                assert(scope.symbols@.subrange(0, j + 1).drop_last() =~= scope.symbols@.subrange(0, j as int));
                assert(out@ =~= symbols_lits(scope.symbols@.subrange(0, j + 1)));
            }
            j = j + 1;
        }
        assert(scope.symbols@.subrange(0, scope.symbols@.len() as int) =~= scope.symbols@);
    }
    let ghost head = out@;
    let mut i: usize = 0;
    while i < prog.items.len()
        invariant
            i <= prog.items@.len(),
            out@ == head + globals_lits(prog.items@.subrange(0, i as int)),
        decreases prog.items.len() - i,
    {
        match &prog.items[i] {
            Global::Fun(FunKind::Custom(f)) | Global::Fun(FunKind::Extern(f)) | Global::Fun(FunKind::Entry(f)) => {
                items_literals(&f.body, &mut out)
            },
            Global::Var(v) => match &v.val {
                Some(x) => value_literals(x, &mut out),
                None => {},
            },
            _ => {},
        }
        proof {
            assert(prog.items@.subrange(0, i + 1).drop_last() =~= prog.items@.subrange(0, i as int));
            assert(out@ =~= head + globals_lits(prog.items@.subrange(0, i + 1)));
        }
        i = i + 1;
    }
    assert(prog.items@.subrange(0, prog.items@.len() as int) =~= prog.items@);
    out
}

} // verus!
