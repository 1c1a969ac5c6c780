//! Lexically scoped symbol tables.
use vstd::prelude::*;

use crate::ast::{Items, Parallelism, Value};
use crate::lexer::Type;
use crate::text::str_eq;

verus! {

/// A parameter of a function symbol: name, type, mutability, parallelism and list flag.
pub type Param = (String, Type, bool, Parallelism, bool);

#[derive(Debug)]
pub enum Symbol {
    Function(FunctionSym),
    Variable(VariableSym),
}

#[derive(Debug)]
pub struct FunctionSym {
    pub params: Vec<Param>,
    pub ret: Type,
    pub public: bool,
    pub body: Option<Vec<Items>>,
    pub ext: bool,
}

#[derive(Debug)]
pub struct VariableSym {
    pub ty: Type,
    pub mutable: bool,
    pub par: Parallelism,
    pub list: bool,
    pub value: Option<Value>,
}

#[derive(Debug)]
pub enum ScopeKind {
    Global,
    Function(String, Type),
    Loop,
    Block,
}

/// A scope: its kind and its symbols, each name bound at most once.
#[derive(Debug)]
pub struct Scope {
    pub kind: ScopeKind,
    pub symbols: Vec<(String, Symbol)>,
}

/// The symbol bound to `name` among `syms` (the last binding, if several).
pub open spec fn lookup(syms: Seq<(String, Symbol)>, name: Seq<char>) -> Option<Symbol>
    decreases syms.len(),
{
    if syms.len() == 0 {
        None
    } else if syms.last().0@ == name {
        Some(syms.last().1)
    } else {
        lookup(syms.drop_last(), name)
    }
}

/// No name is bound twice.
pub open spec fn unique_names(syms: Seq<(String, Symbol)>) -> bool {
    forall|i: int, j: int| 0 <= i < j < syms.len() ==> syms[i].0@ != syms[j].0@
}

/// The symbol that `name` denotes in a stack of scopes: the innermost binding.
pub open spec fn resolve(scopes: Seq<Scope>, name: Seq<char>) -> Option<Symbol>
    decreases scopes.len(),
{
    if scopes.len() == 0 {
        None
    } else {
        match lookup(scopes.last().symbols@, name) {
            Some(s) => Some(s),
            None => resolve(scopes.drop_last(), name),
        }
    }
}

/// The return type of the innermost function scope.
pub open spec fn innermost_ret(scopes: Seq<Scope>) -> Option<Type>
    decreases scopes.len(),
{
    if scopes.len() == 0 {
        None
    } else {
        match scopes.last().kind {
            ScopeKind::Function(_, ret) => Some(ret),
            _ => innermost_ret(scopes.drop_last()),
        }
    }
}

/// What `SymbolTable::take` hands out: name, return type, parameters and body of each
/// function that still holds a body, in the order of the scope.
pub open spec fn bodies(syms: Seq<(String, Symbol)>) -> Seq<(Seq<char>, Type, Seq<Param>, Vec<Items>)>
    decreases syms.len(),
{
    if syms.len() == 0 {
        Seq::empty()
    } else {
        let rest = bodies(syms.drop_last());
        match syms.last().1 {
            Symbol::Function(f) => match f.body {
                Some(b) => rest.push((syms.last().0@, f.ret, f.params@, b)),
                None => rest,
            },
            _ => rest,
        }
    }
}

/// The symbol with its body taken away, if it is a function.
pub open spec fn without_body(s: Symbol) -> Symbol {
    match s {
        Symbol::Function(f) => Symbol::Function(FunctionSym { body: None, ..f }),
        _ => s,
    }
}

/// The symbol with the given body, if it is a function.
pub open spec fn with_body(s: Symbol, body: Vec<Items>) -> Symbol {
    match s {
        Symbol::Function(f) => Symbol::Function(FunctionSym { body: Some(body), ..f }),
        _ => s,
    }
}

/// Taking the bodies out of a scope and then giving a function its body back under its
/// name restores that function's entry as it was, and leaves every other entry as taking
/// left it.
pub proof fn law_restore_gives_back_taken(syms: Seq<(String, Symbol)>, k: int)
    requires
        0 <= k < syms.len(),
        unique_names(syms),
        syms[k].1 matches Symbol::Function(f) && f.body is Some,
    ensures
        ({
            let taken = syms.map_values(|e: (String, Symbol)| (e.0, without_body(e.1)));
            let b = syms[k].1->Function_0.body.unwrap();
            let restored = taken.map_values(
                |e: (String, Symbol)| if e.0@ == syms[k].0@ { (e.0, with_body(e.1, b)) } else { e },
            );
            &&& restored.len() == syms.len()
            &&& restored[k] == syms[k]
            &&& forall|j: int| 0 <= j < syms.len() && j != k ==> restored[j] == taken[j]
        }),
{
    let taken = syms.map_values(|e: (String, Symbol)| (e.0, without_body(e.1)));
    let b = syms[k].1->Function_0.body.unwrap();
    let restored = taken.map_values(
        |e: (String, Symbol)| if e.0@ == syms[k].0@ { (e.0, with_body(e.1, b)) } else { e },
    );
    let f = syms[k].1->Function_0;
    assert(FunctionSym { body: Some(b), ..f } == f);
    assert(restored[k] == syms[k]);
    assert forall|j: int| 0 <= j < syms.len() && j != k implies restored[j] == taken[j] by {
        assert(syms[j].0@ != syms[k].0@);
    }
}

/// A scope's entries after the body `b` is given back to every function named `n`.
pub open spec fn restore_one(syms: Seq<(String, Symbol)>, n: Seq<char>, b: Vec<Items>) -> Seq<(String, Symbol)> {
    syms.map_values(|e: (String, Symbol)| if e.0@ == n { (e.0, with_body(e.1, b)) } else { e })
}

/// A scope's entries after each body of `rs` is given back under its name, in order.
pub open spec fn restore_all(syms: Seq<(String, Symbol)>, rs: Seq<(Seq<char>, Vec<Items>)>) -> Seq<(String, Symbol)>
    decreases rs.len(),
{
    if rs.len() == 0 {
        syms
    } else {
        let x = restore_all(syms, rs.drop_last());
        restore_one(x, rs.last().0, rs.last().1)
    }
}

/// The body given back last to the name `n` among `rs`, if any.
pub open spec fn last_body(rs: Seq<(Seq<char>, Vec<Items>)>, n: Seq<char>) -> Option<Vec<Items>>
    decreases rs.len(),
{
    if rs.len() == 0 {
        None
    } else if rs.last().0 == n {
        Some(rs.last().1)
    } else {
        last_body(rs.drop_last(), n)
    }
}

/// Each entry after the bodies of `rs` are given back: its last body, if `rs` names it.
pub proof fn lemma_restore_all(syms: Seq<(String, Symbol)>, rs: Seq<(Seq<char>, Vec<Items>)>, j: int)
    requires
        0 <= j < syms.len(),
    ensures
        restore_all(syms, rs).len() == syms.len(),
        restore_all(syms, rs)[j] == match last_body(rs, syms[j].0@) {
            Some(b) => (syms[j].0, with_body(syms[j].1, b)),
            None => syms[j],
        },
    decreases rs.len(),
{
    if rs.len() > 0 {
        lemma_restore_all(syms, rs.drop_last(), j);
    }
}

/// Giving back bodies keeps the number of entries.
pub proof fn lemma_restore_all_len(syms: Seq<(String, Symbol)>, rs: Seq<(Seq<char>, Vec<Items>)>)
    ensures
        restore_all(syms, rs).len() == syms.len(),
    decreases rs.len(),
{
    if rs.len() > 0 {
        lemma_restore_all_len(syms, rs.drop_last());
    }
}

/// Whether some entry of `rs` gives back a body to `n`.
pub open spec fn names_in(rs: Seq<(Seq<char>, Vec<Items>)>, n: Seq<char>) -> bool {
    exists|i: int| 0 <= i < rs.len() && (#[trigger] rs[i]).0 == n
}

proof fn lemma_last_body(rs: Seq<(Seq<char>, Vec<Items>)>, n: Seq<char>)
    ensures
        last_body(rs, n) is Some <==> names_in(rs, n),
        last_body(rs, n) matches Some(b) ==> exists|i: int| 0 <= i < rs.len() && #[trigger] rs[i] == (n, b),
    decreases rs.len(),
{
    if rs.len() > 0 {
        lemma_last_body(rs.drop_last(), n);
        if rs.last().0 != n {
            if names_in(rs, n) {
                let i = choose|i: int| 0 <= i < rs.len() && (#[trigger] rs[i]).0 == n;
                assert(rs.drop_last()[i] == rs[i]);
            }
            if last_body(rs, n) is Some {
                let b = last_body(rs, n).unwrap();
                let i = choose|i: int| 0 <= i < rs.drop_last().len() && #[trigger] rs.drop_last()[i] == (n, b);
                assert(rs[i] == rs.drop_last()[i]);
            }
        } else {
            assert(rs[rs.len() - 1] == rs.last());
        }
    }
}

/// Taking the bodies out of a scope, then giving back every body taken (in any order,
/// each under its function's name, as often as wished) gives back the scope as it was.
pub proof fn law_take_restore_round_trip(syms: Seq<(String, Symbol)>, rs: Seq<(Seq<char>, Vec<Items>)>)
    requires
        unique_names(syms),
        forall|i: int|
            0 <= i < rs.len() ==> exists|k: int|
                0 <= k < syms.len() && syms[k].0@ == (#[trigger] rs[i]).0 && (syms[k].1 matches Symbol::Function(f)
                    && f.body == Some(rs[i].1)),
        forall|k: int|
            0 <= k < syms.len() && (#[trigger] syms[k].1 matches Symbol::Function(f) && f.body is Some) ==> names_in(
                rs,
                syms[k].0@,
            ),
    ensures
        restore_all(syms.map_values(|e: (String, Symbol)| (e.0, without_body(e.1))), rs) == syms,
{
    let taken = syms.map_values(|e: (String, Symbol)| (e.0, without_body(e.1)));
    let out = restore_all(taken, rs);
    assert forall|j: int| 0 <= j < syms.len() implies out[j] == syms[j] by {
        lemma_restore_all(taken, rs, j);
        lemma_last_body(rs, syms[j].0@);
        match last_body(rs, syms[j].0@) {
            Some(b) => {
                let i = choose|i: int| 0 <= i < rs.len() && #[trigger] rs[i] == (syms[j].0@, b);
                let k = choose|k: int|
                    0 <= k < syms.len() && syms[k].0@ == (#[trigger] rs[i]).0 && (syms[k].1 matches Symbol::Function(f)
                        && f.body == Some(rs[i].1));
                if k != j {
                    if k < j {
                        assert(syms[k].0@ != syms[j].0@);
                    } else {
                        assert(syms[j].0@ != syms[k].0@);
                    }
                }
                let f = syms[j].1->Function_0;
                assert(FunctionSym { body: Some(b), ..f } == f);
            },
            None => {
                match syms[j].1 {
                    Symbol::Function(f) => {
                        if f.body is Some {
                            assert(names_in(rs, syms[j].0@));
                        }
                        assert(FunctionSym { body: None, ..f } == f);
                    },
                    _ => {},
                }
            },
        }
    }
    lemma_restore_all_len(taken, rs);
    assert(out =~= syms);
}

/// Giving back a body to a name no function of the scope has leaves the scope as it was.
pub proof fn law_restore_unknown_name(syms: Seq<(String, Symbol)>, n: Seq<char>, b: Vec<Items>)
    requires
        forall|k: int| 0 <= k < syms.len() && (#[trigger] syms[k]).0@ == n ==> !(syms[k].1 is Function),
    ensures
        restore_one(syms, n, b) == syms,
{
    assert(restore_one(syms, n, b) =~= syms);
}

pub proof fn lemma_lookup_index(syms: Seq<(String, Symbol)>, name: Seq<char>, i: int)
    requires
        unique_names(syms),
        0 <= i < syms.len(),
        syms[i].0@ == name,
    ensures
        lookup(syms, name) == Some(syms[i].1),
    decreases syms.len(),
{
    if i < syms.len() - 1 {
        assert(syms.last().0@ != name);
        lemma_lookup_index(syms.drop_last(), name, i);
    }
}

/// A binding is found exactly where its name occurs.
pub proof fn lemma_lookup_some(syms: Seq<(String, Symbol)>, name: Seq<char>)
    requires
        unique_names(syms),
    ensures
        lookup(syms, name) is Some ==> exists|i: int| 0 <= i < syms.len() && syms[i].0@ == name
            && lookup(syms, name) == Some(#[trigger] syms[i].1),
    decreases syms.len(),
{
    if syms.len() > 0 && syms.last().0@ != name {
        lemma_lookup_some(syms.drop_last(), name);
        if lookup(syms, name) is Some {
            let i = choose|i: int| 0 <= i < syms.drop_last().len() && syms.drop_last()[i].0@ == name
                && lookup(syms.drop_last(), name) == Some(#[trigger] syms.drop_last()[i].1);
            assert(syms[i] == syms.drop_last()[i]);
        }
    }
}

/// `s1` is `s0` with `name` bound to `sym` in its innermost scope, which otherwise binds
/// what it bound; the outer scopes are as they were.
pub open spec fn added(s0: Seq<Scope>, s1: Seq<Scope>, name: Seq<char>, sym: Symbol) -> bool {
    let n = s0.len() - 1;
    &&& s1.len() == s0.len()
    &&& forall|i: int| 0 <= i < n ==> s1[i] == s0[i]
    &&& s1[n].kind == s0[n].kind
    &&& lookup(s1[n].symbols@, name) == Some(sym)
    &&& forall|other: Seq<char>| other != name ==> lookup(s1[n].symbols@, other) == lookup(s0[n].symbols@, other)
}

/// `s1` is `s0` with a new, empty scope of the given kind inside it.
pub open spec fn opened(s0: Seq<Scope>, s1: Seq<Scope>, kind: ScopeKind) -> bool {
    &&& s1.len() == s0.len() + 1
    &&& forall|i: int| 0 <= i < s0.len() ==> s1[i] == s0[i]
    &&& s1.last().kind == kind
    &&& s1.last().symbols@.len() == 0
}

/// Once a name is bound in the innermost scope it denotes the bound symbol, and every
/// other name denotes what it denoted before.
pub proof fn law_find_after_add(s0: Seq<Scope>, s1: Seq<Scope>, name: Seq<char>, sym: Symbol, other: Seq<char>)
    requires
        s0.len() > 0,
        added(s0, s1, name, sym),
    ensures
        resolve(s1, name) == Some(sym),
        other != name ==> resolve(s1, other) == resolve(s0, other),
{
    assert(s1.drop_last() =~= s0.drop_last());
}

/// Opening a scope hides no name, and closing it again gives back the scopes as they
/// were.
pub proof fn law_push_pop(s0: Seq<Scope>, s1: Seq<Scope>, kind: ScopeKind, name: Seq<char>)
    requires
        opened(s0, s1, kind),
    ensures
        resolve(s1, name) == resolve(s0, name),
        s1.drop_last() == s0,
{
    assert(s1.drop_last() =~= s0);
    assert(lookup(s1.last().symbols@, name) is None);
}

/// Taking the bodies leaves no function of the scope with a body.
pub proof fn law_take_clears_bodies(syms: Seq<(String, Symbol)>)
    ensures
        bodies(syms.map_values(|e: (String, Symbol)| (e.0, without_body(e.1)))).len() == 0,
    decreases syms.len(),
{
    let m = syms.map_values(|e: (String, Symbol)| (e.0, without_body(e.1)));
    if syms.len() > 0 {
        law_take_clears_bodies(syms.drop_last());
        assert(m.drop_last() =~= syms.drop_last().map_values(|e: (String, Symbol)| (e.0, without_body(e.1))));
    }
}

/// Giving a function back its body: afterwards the name denotes the same function, with
/// that body.
pub proof fn law_restore_sets_body(syms: Seq<(String, Symbol)>, name: Seq<char>, body: Vec<Items>, f: FunctionSym)
    requires
        unique_names(syms),
        lookup(syms, name) == Some(Symbol::Function(f)),
    ensures
        lookup(
            syms.map_values(
                |e: (String, Symbol)| if e.0@ == name { (e.0, with_body(e.1, body)) } else { e },
            ),
            name,
        ) == Some(Symbol::Function(FunctionSym { body: Some(body), ..f })),
{
    let m = syms.map_values(|e: (String, Symbol)| if e.0@ == name { (e.0, with_body(e.1, body)) } else { e });
    lemma_lookup_some(syms, name);
    let i = choose|i: int| 0 <= i < syms.len() && syms[i].0@ == name && lookup(syms, name) == Some(#[trigger] syms[i].1);
    assert forall|a: int, b: int| 0 <= a < b < m.len() implies m[a].0@ != m[b].0@ by {
        assert(m[a].0 == syms[a].0 && m[b].0 == syms[b].0);
    }
    lemma_lookup_index(m, name, i);
}

/// A copy of a list of parameters.
fn copy_params(params: &Vec<Param>) -> (r: Vec<Param>)
    ensures
        r@ == params@,
{
    let mut out: Vec<Param> = Vec::new();
    let mut i: usize = 0;
    while i < params.len()
        invariant
            i <= params@.len(),
            out@ == params@.subrange(0, i as int),
        decreases params.len() - i,
    {
        let p = &params[i];
        out.push((p.0.clone(), p.1.clone(), p.2, p.3, p.4));
        assert(out@ =~= params@.subrange(0, i + 1));
        i = i + 1;
    }
    assert(params@.subrange(0, params@.len() as int) =~= params@);
    out
}

/// The position of the binding of `name`, if any.
fn index_of(syms: &Vec<(String, Symbol)>, name: &str) -> (r: Option<usize>)
    ensures
        match r {
            Some(i) => i < syms@.len() && syms@[i as int].0@ == name@,
            None => forall|i: int| 0 <= i < syms@.len() ==> syms@[i].0@ != name@,
        },
{
    let mut i: usize = 0;
    while i < syms.len()
        invariant
            i <= syms@.len(),
            forall|j: int| 0 <= j < i ==> syms@[j].0@ != name@,
        decreases syms.len() - i,
    {
        if str_eq(syms[i].0.as_str(), name) {
            return Some(i);
        }
        i = i + 1;
    }
    None
}

impl Scope {
    pub open spec fn wf(&self) -> bool {
        unique_names(self.symbols@)
    }
}

#[derive(Debug)]
pub struct SymbolTable {
    pub scopes: Vec<Scope>,
}

impl SymbolTable {
    /// Every scope binds each name at most once.
    pub open spec fn wf(&self) -> bool {
        forall|i: int| 0 <= i < self.scopes@.len() ==> (#[trigger] self.scopes@[i]).wf()
    }

    /// The symbol that `name` denotes here.
    pub open spec fn resolves(&self, name: Seq<char>) -> Option<Symbol> {
        resolve(self.scopes@, name)
    }


    pub fn new() -> (r: Self)
        ensures
            r.scopes@.len() == 0,
            r.wf(),
    {
        SymbolTable { scopes: Vec::new() }
    }

    /// Opens a new, empty scope of the given kind.
    pub fn push(&mut self, kind: ScopeKind)
        requires
            old(self).wf(),
        ensures
            final(self).wf(),
            opened(old(self).scopes@, final(self).scopes@, kind),
            final(self).scopes@.len() == old(self).scopes@.len() + 1,
            forall|i: int| 0 <= i < old(self).scopes@.len() ==> final(self).scopes@[i] == old(self).scopes@[i],
            final(self).scopes@.last().kind == kind,
            final(self).scopes@.last().symbols@.len() == 0,
    {
        self.scopes.push(Scope { kind, symbols: Vec::new() });
    }

    /// Closes the innermost scope, if there is one.
    pub fn pop(&mut self)
        requires
            old(self).wf(),
        ensures
            final(self).wf(),
            old(self).scopes@.len() > 0 ==> final(self).scopes@ == old(self).scopes@.drop_last(),
            old(self).scopes@.len() == 0 ==> final(self).scopes@ == old(self).scopes@,
    {
        let _ = self.scopes.pop();
    }

    /// Binds `name` to `symbol` in the innermost scope, replacing an earlier binding of
    /// the same name there. Without any scope, nothing changes.
    pub fn add(&mut self, name: &str, symbol: Symbol)
        requires
            old(self).wf(),
        ensures
            final(self).wf(),
            final(self).scopes@.len() == old(self).scopes@.len(),
            old(self).scopes@.len() == 0 ==> final(self).scopes@ == old(self).scopes@,
            old(self).scopes@.len() > 0 ==> added(old(self).scopes@, final(self).scopes@, name@, symbol),
    {
        let n = self.scopes.len();
        if n == 0 {
            return;
        }
        let ghost old_scopes = self.scopes@;
        let mut scope = self.scopes.pop().unwrap();
        let ghost old_syms = scope.symbols@;
        let entry = (name.to_owned(), symbol);
        match index_of(&scope.symbols, name) {
            Some(i) => {
                let _ = scope.symbols.remove(i);
                scope.symbols.insert(i, entry);
                proof {
                    let s = scope.symbols@;
                    assert(s =~= old_syms.update(i as int, entry));
                    assert forall|a: int, b: int| 0 <= a < b < s.len() implies s[a].0@ != s[b].0@ by {
                        if a == i || b == i {
                        } else {
                            assert(s[a] == old_syms[a] && s[b] == old_syms[b]);
                        }
                    }
                    lemma_lookup_index(s, name@, i as int);
                    assert forall|other: Seq<char>| other != name@ implies lookup(s, other) == lookup(old_syms, other) by {
                        lemma_lookup_some(s, other);
                        lemma_lookup_some(old_syms, other);
                        if lookup(s, other) is Some {
                            let k = choose|k: int| 0 <= k < s.len() && s[k].0@ == other && lookup(s, other) == Some(#[trigger] s[k].1);
                            assert(k != i);
                            lemma_lookup_index(old_syms, other, k);
                        } else if lookup(old_syms, other) is Some {
                            let k = choose|k: int| 0 <= k < old_syms.len() && old_syms[k].0@ == other && lookup(old_syms, other) == Some(#[trigger] old_syms[k].1);
                            assert(k != i);
                            assert(s[k] == old_syms[k]);
                            lemma_lookup_index(s, other, k);
                        }
                    }
                }
            },
            None => {
                scope.symbols.push(entry);
                proof {
                    let s = scope.symbols@;
                    assert(s.drop_last() =~= old_syms);
                    assert forall|a: int, b: int| 0 <= a < b < s.len() implies s[a].0@ != s[b].0@ by {
                        if b == s.len() - 1 {
                            assert(s[a] == old_syms[a]);
                        } else {
                            assert(s[a] == old_syms[a] && s[b] == old_syms[b]);
                        }
                    }
                }
            },
        }
        self.scopes.push(scope);
        proof {
            assert forall|i: int| 0 <= i < self.scopes@.len() implies (#[trigger] self.scopes@[i]).wf() by {
                if i < n - 1 {
                    assert(self.scopes@[i] == old_scopes[i]);
                }
            }
        }
    }

    /// The symbol that `name` denotes: its binding in the innermost scope that binds it.
    pub fn find(&self, name: &str) -> (r: Option<&Symbol>)
        ensures
            match r {
                Some(s) => self.resolves(name@) == Some(*s),
                None => self.resolves(name@) is None,
            },
    {
        let mut k = self.scopes.len();
        assert(self.scopes@.subrange(0, k as int) =~= self.scopes@);
        while k > 0
            invariant
                k <= self.scopes@.len(),
                resolve(self.scopes@, name@) == resolve(self.scopes@.subrange(0, k as int), name@),
            decreases k,
        {
            let scope = &self.scopes[k - 1];
            let ghost sub = self.scopes@.subrange(0, k as int);
            assert(sub.last() == *scope);
            assert(sub.drop_last() =~= self.scopes@.subrange(0, k - 1));
            let mut i = scope.symbols.len();
            assert(scope.symbols@.subrange(0, i as int) =~= scope.symbols@);
            while i > 0
                invariant
                    i <= scope.symbols@.len(),
                    lookup(scope.symbols@, name@) == lookup(scope.symbols@.subrange(0, i as int), name@),
                    sub.len() > 0,
                    sub.last() == *scope,
                    resolve(self.scopes@, name@) == resolve(sub, name@),
                decreases i,
            {
                let ghost part = scope.symbols@.subrange(0, i as int);
                assert(part.drop_last() =~= scope.symbols@.subrange(0, i - 1));
                if str_eq(scope.symbols[i - 1].0.as_str(), name) {
                    assert(part.last() == scope.symbols@[i - 1]);
                    assert(lookup(scope.symbols@, name@) == Some(scope.symbols@[i - 1].1));
                    assert(lookup(sub.last().symbols@, name@) == Some(scope.symbols@[i - 1].1));
                    assert(resolve(sub, name@) == Some(scope.symbols@[i - 1].1));
                    return Some(&scope.symbols[i - 1].1);
                }
                i = i - 1;
            }
            k = k - 1;
        }
        None
    }

    /// The return type of the innermost function being checked.
    pub fn nearest_fun(&self) -> (r: Option<&Type>)
        ensures
            match r {
                Some(t) => innermost_ret(self.scopes@) == Some(*t),
                None => innermost_ret(self.scopes@) is None,
            },
    {
        let mut k = self.scopes.len();
        assert(self.scopes@.subrange(0, k as int) =~= self.scopes@);
        while k > 0
            invariant
                k <= self.scopes@.len(),
                innermost_ret(self.scopes@) == innermost_ret(self.scopes@.subrange(0, k as int)),
            decreases k,
        {
            let ghost sub = self.scopes@.subrange(0, k as int);
            assert(sub.drop_last() =~= self.scopes@.subrange(0, k - 1));
            if let ScopeKind::Function(_, ret) = &self.scopes[k - 1].kind {
                return Some(ret);
            }
            k = k - 1;
        }
        None
    }

    /// Whether some open scope is a loop.
    pub fn in_loop(&self) -> (r: bool)
        ensures
            r == exists|i: int| 0 <= i < self.scopes@.len() && (#[trigger] self.scopes@[i]).kind is Loop,
    {
        let mut k: usize = 0;
        while k < self.scopes.len()
            invariant
                k <= self.scopes@.len(),
                forall|i: int| 0 <= i < k ==> !((#[trigger] self.scopes@[i]).kind is Loop),
            decreases self.scopes.len() - k,
        {
            if matches!(self.scopes[k].kind, ScopeKind::Loop) {
                return true;
            }
            k = k + 1;
        }
        false
    }

    /// Hands out every function of the outermost scope that still holds a body, with
    /// its name, return type and parameters, leaving those functions without a body.
    pub fn take(&mut self) -> (r: Vec<(String, Type, Vec<Param>, Vec<Items>)>)
        requires
            old(self).wf(),
        ensures
            final(self).wf(),
            old(self).scopes@.len() == 0 ==> r@.len() == 0 && final(self).scopes@ == old(self).scopes@,
            old(self).scopes@.len() > 0 ==> {
                let old_syms = old(self).scopes@[0].symbols@;
                let out = bodies(old_syms);
                &&& r@.len() == out.len()
                &&& forall|k: int| 0 <= k < r@.len() ==> {
                    &&& (#[trigger] r@[k]).0@ == out[k].0
                    &&& r@[k].1 == out[k].1
                    &&& r@[k].2@ == out[k].2
                    &&& r@[k].3 == out[k].3
                }
                &&& final(self).scopes@.len() == old(self).scopes@.len()
                &&& forall|i: int| 0 < i < old(self).scopes@.len() ==> final(self).scopes@[i] == old(self).scopes@[i]
                &&& final(self).scopes@[0].kind == old(self).scopes@[0].kind
                &&& final(self).scopes@[0].symbols@ == old_syms.map_values(
                    |e: (String, Symbol)| (e.0, without_body(e.1)))
            },
    {
        let mut result: Vec<(String, Type, Vec<Param>, Vec<Items>)> = Vec::new();
        if self.scopes.len() == 0 {
            return result;
        }
        let ghost old_scopes = self.scopes@;
        let mut scope = self.scopes.remove(0);
        let ghost old_syms = scope.symbols@;
        let mut rest: Vec<(String, Symbol)> = Vec::new();
        std::mem::swap(&mut rest, &mut scope.symbols);
        let mut kept: Vec<(String, Symbol)> = Vec::new();
        let n = rest.len();
        let mut i: usize = 0;
        while i < n
            invariant
                n == old_syms.len(),
                i <= n,
                rest@ == old_syms.subrange(i as int, n as int),
                kept@ == old_syms.subrange(0, i as int).map_values(
                    |e: (String, Symbol)| (e.0, without_body(e.1))),
                result@.len() == bodies(old_syms.subrange(0, i as int)).len(),
                forall|k: int| 0 <= k < result@.len() ==> {
                    &&& (#[trigger] result@[k]).0@ == bodies(old_syms.subrange(0, i as int))[k].0
                    &&& result@[k].1 == bodies(old_syms.subrange(0, i as int))[k].1
                    &&& result@[k].2@ == bodies(old_syms.subrange(0, i as int))[k].2
                    &&& result@[k].3 == bodies(old_syms.subrange(0, i as int))[k].3
                },
            decreases n - i,
        {
            let ghost pre = old_syms.subrange(0, i as int);
            let ghost post = old_syms.subrange(0, i + 1);
            assert(post.drop_last() =~= pre);
            assert(post.last() == old_syms[i as int]);
            let (name, sym) = rest.remove(0);
            assert(old_syms[i as int] == (name, sym));
            let ghost before = result@;
            let new_sym = match sym {
                Symbol::Function(f) => {
                    let FunctionSym { params, ret, public, body, ext } = f;
                    match body {
                        Some(b) => {
                            result.push((name.clone(), ret.clone(), copy_params(&params), b));
                        },
                        None => {},
                    }
                    Symbol::Function(FunctionSym { params, ret, public, body: None, ext })
                },
                other => other,
            };
            proof {
                assert forall|k: int| 0 <= k < result@.len() implies {
                    &&& (#[trigger] result@[k]).0@ == bodies(post)[k].0
                    &&& result@[k].1 == bodies(post)[k].1
                    &&& result@[k].2@ == bodies(post)[k].2
                    &&& result@[k].3 == bodies(post)[k].3
                } by {
                    if k < before.len() {
                        assert(result@[k] == before[k]);
                    }
                }
            }
            kept.push((name, new_sym));
            assert(kept@ =~= post.map_values(|e: (String, Symbol)| (e.0, without_body(e.1))));
            assert(rest@ =~= old_syms.subrange(i + 1, n as int));
            i = i + 1;
        }
        assert(old_syms.subrange(0, n as int) =~= old_syms);
        scope.symbols = kept;
        proof {
            let s = scope.symbols@;
            assert forall|a: int, b: int| 0 <= a < b < s.len() implies s[a].0@ != s[b].0@ by {
                assert(old_scopes[0].wf());
            }
        }
        self.scopes.insert(0, scope);
        proof {
            assert forall|j: int| 0 <= j < self.scopes@.len() implies (#[trigger] self.scopes@[j]).wf() by {
                if j > 0 {
                    assert(self.scopes@[j] == old_scopes[j]);
                }
            }
        }
        result
    }

    /// Gives the function `name` of the outermost scope the given body.
    pub fn restore(&mut self, name: &str, body: Vec<Items>)
        requires
            old(self).wf(),
        ensures
            final(self).wf(),
            old(self).scopes@.len() == 0 ==> final(self).scopes@ == old(self).scopes@,
            old(self).scopes@.len() > 0 ==> {
                &&& final(self).scopes@.len() == old(self).scopes@.len()
                &&& forall|i: int| 0 < i < old(self).scopes@.len() ==> final(self).scopes@[i] == old(self).scopes@[i]
                &&& final(self).scopes@[0].kind == old(self).scopes@[0].kind
                &&& final(self).scopes@[0].symbols@ == old(self).scopes@[0].symbols@.map_values(
                    |e: (String, Symbol)| if e.0@ == name@ { (e.0, with_body(e.1, body)) } else { e })
            },
    {
        if self.scopes.len() == 0 {
            return;
        }
        let ghost old_scopes = self.scopes@;
        let mut scope = self.scopes.remove(0);
        let ghost old_syms = scope.symbols@;
        match index_of(&scope.symbols, name) {
            Some(i) => {
                let (key, sym) = scope.symbols.remove(i);
                let new_sym = match sym {
                    Symbol::Function(f) => {
                        let FunctionSym { params, ret, public, body: _, ext } = f;
                        Symbol::Function(FunctionSym { params, ret, public, body: Some(body), ext })
                    },
                    other => other,
                };
                scope.symbols.insert(i, (key, new_sym));
                proof {
                    assert(old_scopes[0].wf());
                    assert(scope.symbols@ =~= old_syms.map_values(
                        |e: (String, Symbol)| if e.0@ == name@ { (e.0, with_body(e.1, body)) } else { e }));
                }
            },
            None => {
                assert(old_syms =~= old_syms.map_values(
                    |e: (String, Symbol)| if e.0@ == name@ { (e.0, with_body(e.1, body)) } else { e }));
            },
        }
        self.scopes.insert(0, scope);
        proof {
            assert(old_scopes[0].wf());
            assert forall|j: int| 0 <= j < self.scopes@.len() implies (#[trigger] self.scopes@[j]).wf() by {
                if j > 0 {
                    assert(self.scopes@[j] == old_scopes[j]);
                }
            }
        }
    }
}

} // verus!
