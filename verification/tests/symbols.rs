use gravi::ast::{Items, Parallelism, Value};
use gravi::lexer::{Numeric, Type};
use gravi::symbol::{FunctionSym, ScopeKind, Symbol, SymbolTable, VariableSym};

fn var(ty: Type) -> Symbol {
    Symbol::Variable(VariableSym { ty, mutable: false, par: Parallelism::Sequential, list: false, value: None })
}

fn fun(body: Option<Vec<Items>>) -> Symbol {
    Symbol::Function(FunctionSym { params: Vec::new(), ret: Type::Boolean, public: true, body, ext: false })
}

#[test]
fn find_gives_back_what_add_bound() {
    let mut t = SymbolTable::new();
    t.push(ScopeKind::Global);
    t.add("x", var(Type::Numeric(Numeric::U8)));
    t.add("y", var(Type::Boolean));
    match t.find("x") {
        Some(Symbol::Variable(v)) => assert!(matches!(v.ty, Type::Numeric(Numeric::U8))),
        _ => panic!("x should be a variable"),
    }
    assert!(t.find("z").is_none());
}

#[test]
fn add_replaces_a_binding_in_the_same_scope() {
    let mut t = SymbolTable::new();
    t.push(ScopeKind::Global);
    t.add("x", var(Type::Boolean));
    t.add("x", var(Type::Character));
    assert_eq!(t.scopes[0].symbols.len(), 1);
    assert!(matches!(t.find("x"), Some(Symbol::Variable(v)) if matches!(v.ty, Type::Character)));
}

#[test]
fn add_without_scope_changes_nothing() {
    let mut t = SymbolTable::new();
    t.add("x", var(Type::Boolean));
    assert!(t.find("x").is_none());
    assert_eq!(t.scopes.len(), 0);
}

#[test]
fn inner_binding_shadows_and_pop_restores() {
    let mut t = SymbolTable::new();
    t.push(ScopeKind::Global);
    t.add("x", var(Type::Boolean));
    t.push(ScopeKind::Block);
    assert!(matches!(t.find("x"), Some(Symbol::Variable(v)) if matches!(v.ty, Type::Boolean)));
    t.add("x", var(Type::Character));
    assert!(matches!(t.find("x"), Some(Symbol::Variable(v)) if matches!(v.ty, Type::Character)));
    t.pop();
    assert!(matches!(t.find("x"), Some(Symbol::Variable(v)) if matches!(v.ty, Type::Boolean)));
}

#[test]
fn nearest_function_and_loops() {
    let mut t = SymbolTable::new();
    t.push(ScopeKind::Global);
    assert!(t.nearest_fun().is_none());
    t.push(ScopeKind::Function("f".to_string(), Type::Numeric(Numeric::I32)));
    t.push(ScopeKind::Block);
    assert!(matches!(t.nearest_fun(), Some(Type::Numeric(Numeric::I32))));
    assert!(!t.in_loop());
    t.push(ScopeKind::Loop);
    assert!(t.in_loop());
}

#[test]
fn take_clears_bodies_and_restore_gives_them_back() {
    let mut t = SymbolTable::new();
    t.push(ScopeKind::Global);
    t.add("f", fun(Some(vec![Items::Stop, Items::Skip])));
    t.add("g", fun(None));
    let taken = t.take();
    assert_eq!(taken.len(), 1);
    assert_eq!(taken[0].0, "f");
    assert_eq!(taken[0].3.len(), 2);
    assert_eq!(t.take().len(), 0);
    t.restore("f", vec![Items::Expr(Value::Null)]);
    match t.find("f") {
        Some(Symbol::Function(f)) => assert_eq!(f.body.as_ref().map(|b| b.len()), Some(1)),
        _ => panic!("f should be a function"),
    }
}

#[test]
fn take_on_empty_table_gives_nothing() {
    let mut t = SymbolTable::new();
    assert_eq!(t.take().len(), 0);
}
