//! Resolution of imports: which functions of other files a program may call.
//!
//! Finding and reading those files is the caller's part: the resolver works through an
//! agenda of tasks and, whenever it needs to know about the file system or the items of
//! a file, hands out a request and waits for its answer.
use vstd::prelude::*;

use crate::ast::{FunKind, Function, Global, Items, Program, Space, Subspace, VarDecl};
use crate::error::{GraviError, Kind, Reporter, Severity};
use crate::lexer::{prefix_of, Type};
use crate::symbol::{added, lookup, opened, FunctionSym, Param, ScopeKind, Symbol, SymbolTable};
use crate::text::{concat2, concat3, owned, str_eq};

verus! {

/// What the resolver needs to know to go on.
pub enum Request {
    /// Whether `dir` is a directory, and whether the file `file` exists.
    Probe { dir: String, file: String },
    /// Whether the file `path` exists.
    Exists { path: String },
    /// The items of the file `path`, lexed and parsed.
    Load { path: String },
}

/// The answer to a request.
pub enum Answer {
    Probe { is_dir: bool, file_exists: bool },
    Exists(bool),
    Load(Vec<Global>),
}

/// What one step of the resolver did.
pub enum Step {
    /// It waits for the answer to this request.
    Need(Request),
    /// It did some work; there is more to do.
    Worked,
    /// All imports are resolved.
    Done,
}

/// Work left to the resolver.
pub enum Task {
    /// Binds a function of the program itself.
    AddFun { id: String, sym: Symbol },
    /// Resolves an imported name, from `filename` in `dir`.
    Space { space: Space, filename: String, dir: String },
    /// Imports from the module file `file` in `dir`, as `space` asks, for `origin`.
    File { space: Space, file: String, dir: String, origin: String },
    /// Sorts the names wanted from the module file `file`: nested paths, files of their
    /// own in `dir`, and functions of `file`. `next` is the first not sorted yet.
    Sort {
        wanted: Vec<Space>,
        next: usize,
        file: String,
        dir: String,
        origin: String,
        paths: Vec<Space>,
        leaves: Vec<Space>,
        funs: Vec<Space>,
    },
    /// Reads the items of `file` and imports from them.
    Read { file: String, dir: String, sub: Option<Subspace>, origin: String, inner: bool },
    /// Imports one function of a module file.
    Fun { fun: Function, sub: Option<Subspace>, origin: String, ext: bool },
}

/// The path of the directory of module `name` in `dir`.
pub open spec fn dir_path(dir: Seq<char>, name: Seq<char>) -> Seq<char> {
    dir + seq!['/'] + name
}

/// The path of the file of module `name` in `dir`.
pub open spec fn file_path(dir: Seq<char>, name: Seq<char>) -> Seq<char> {
    dir_path(dir, name) + seq!['.', 'n', 'n']
}

/// Whether `r` is the request that the task `t` waits on: a probe of the directory and
/// file of an imported name; whether the next wanted name has a module file (or, all
/// sorted, whether the directory exists); the items of the file to read; whether the
/// name of a function to bind is known.
pub open spec fn asks(t: Task, r: Request) -> bool {
    match t {
        Task::Space { space, filename: _, dir } => match r {
            Request::Probe { dir: d, file: f } => d@ == dir_path(dir@, space.name@) && f@ == file_path(
                dir@,
                space.name@,
            ),
            _ => false,
        },
        Task::Sort { wanted, next, file: _, dir, origin: _, paths: _, leaves: _, funs: _ } => match r {
            Request::Exists { path } => path@ == (if next < wanted@.len() {
                file_path(dir@, wanted@[next as int].name@)
            } else {
                dir@
            }),
            _ => false,
        },
        Task::Read { file, dir: _, sub: _, origin: _, inner: _ } => match r {
            Request::Load { path } => path@ == file@,
            _ => false,
        },
        Task::File { space: _, file, dir: _, origin: _ } => match r {
            Request::Load { path } => path@ == file@,
            _ => false,
        },
        Task::AddFun { id, sym: _ } => match r {
            Request::Exists { path } => path@ == id@,
            _ => false,
        },
        Task::Fun { fun, sub: _, origin: _, ext: _ } => match r {
            Request::Exists { path } => path@ == fun.id@,
            _ => false,
        },
    }
}

/// What the names wanted from a module allow to be imported.
pub open spec fn wanted(sub: Option<Subspace>, name: Seq<char>) -> bool {
    match sub {
        None => true,
        Some(Subspace::All) => true,
        Some(Subspace::Only(w)) => exists|k: int| 0 <= k < w@.len() && (#[trigger] w@[k]).name@ == name,
    }
}

/// The parameters of a function symbol for the declared parameters.
pub open spec fn param_of(p: VarDecl) -> (Seq<char>, Type, bool, crate::ast::Parallelism, bool) {
    (p.id@, p.ty, p.mutable, p.par, p.list)
}

/// Whether `sym` is the symbol of a program's own function with these parameters, return
/// type and visibility: no body known yet, not external.
pub open spec fn own_fun_symbol(sym: Symbol, params: Seq<VarDecl>, ret: Type, public: bool) -> bool {
    sym matches Symbol::Function(s) && s.ret == ret && s.public == public && !s.ext && s.body is None
        && s.params@.len() == params.len() && forall|k: int|
        0 <= k < params.len() ==> {
            let p = #[trigger] s.params@[k];
            (p.0@, p.1, p.2, p.3, p.4) == param_of(params[k])
        }
}

/// How many tasks a global item lines up: one per imported name, one for a function of
/// the program's own, none for anything else.
pub open spec fn item_task_count(g: Global) -> nat {
    match g {
        Global::Import(spaces) => spaces@.len(),
        Global::Fun(FunKind::Custom(_)) => 1,
        _ => 0,
    }
}

/// Whether `ts` are the tasks a global item lines up, in order: resolving each imported
/// name from `file` in `dir`, or binding a function of the program's own.
pub open spec fn item_tasks(g: Global, ts: Seq<Task>, file: Seq<char>, dir: Seq<char>) -> bool {
    match g {
        Global::Import(spaces) => ts.len() == spaces@.len() && forall|k: int|
            0 <= k < ts.len() ==> match #[trigger] ts[k] {
                Task::Space { space, filename, dir: d } => same_space(spaces@[k], space) && filename@ == file && d@
                    == dir,
                _ => false,
            },
        Global::Fun(FunKind::Custom(f)) => ts.len() == 1 && match ts[0] {
            Task::AddFun { id, sym } => id@ == f.id@ && own_fun_symbol(sym, f.params@, f.ret, f.public),
            _ => false,
        },
        _ => ts.len() == 0,
    }
}

/// Whether `ts` are the tasks a program's items line up, item after item.
pub open spec fn program_tasks(items: Seq<Global>, ts: Seq<Task>, file: Seq<char>, dir: Seq<char>) -> bool
    decreases items.len(),
{
    if items.len() == 0 {
        ts.len() == 0
    } else {
        let n = item_task_count(items.last());
        &&& n <= ts.len()
        &&& program_tasks(items.drop_last(), ts.subrange(0, ts.len() - n), file, dir)
        &&& item_tasks(items.last(), ts.subrange(ts.len() - n, ts.len() as int), file, dir)
    }
}

/// Whether `r` is what copying the wanted names `sub` gives: the same form, with the
/// same names.
pub open spec fn sub_copied(r: Option<Subspace>, sub: Option<Subspace>) -> bool {
    &&& r is Some == sub is Some
    &&& sub matches Some(Subspace::All) ==> r == Some(Subspace::All)
    &&& sub matches Some(Subspace::Only(w)) ==> (r matches Some(Subspace::Only(x)) && x@.len() == w@.len() && forall|
        k: int,
    |
        0 <= k < w@.len() ==> (#[trigger] x@[k]).name@ == w@[k].name@)
}

/// Whether `ts` are the tasks a directory import lines up: one per name wanted under it,
/// in order, resolved from `filename` in the directory `mdir`.
pub open spec fn dir_tasks(ts: Seq<Task>, subs: Seq<Space>, filename: Seq<char>, mdir: Seq<char>) -> bool {
    ts.len() == subs.len() && forall|k: int|
        0 <= k < ts.len() ==> match #[trigger] ts[k] {
            Task::Space { space, filename: f, dir: d } => space == subs[k] && f@ == filename && d@ == mdir,
            _ => false,
        }
}

/// Whether `ts` are the tasks an item of a loaded module file lines up, in order: each
/// of its imports (only for a file imported as a whole, `inner`), resolved from `file`
/// in `dir`; each function, to be imported as `sub` asks for `origin`, external or not.
pub open spec fn load_item_tasks(
    g: Global,
    ts: Seq<Task>,
    file: Seq<char>,
    dir: Seq<char>,
    sub: Option<Subspace>,
    origin: Seq<char>,
    inner: bool,
) -> bool {
    match g {
        Global::Import(spaces) => if inner {
            ts.len() == spaces@.len() && forall|k: int|
                0 <= k < ts.len() ==> match #[trigger] ts[k] {
                    Task::Space { space, filename, dir: d } => space == spaces@[k] && filename@ == file && d@ == dir,
                    _ => false,
                }
        } else {
            ts.len() == 0
        },
        Global::Fun(FunKind::Custom(f)) | Global::Fun(FunKind::Entry(f)) => ts.len() == 1 && match ts[0] {
            Task::Fun { fun, sub: s, origin: o, ext } => fun == f && sub_copied(s, sub) && o@ == origin && !ext,
            _ => false,
        },
        Global::Fun(FunKind::Extern(f)) => ts.len() == 1 && match ts[0] {
            Task::Fun { fun, sub: s, origin: o, ext } => fun == f && sub_copied(s, sub) && o@ == origin && ext,
            _ => false,
        },
        _ => ts.len() == 0,
    }
}

/// How many tasks an item of a loaded module file lines up.
pub open spec fn load_item_count(g: Global, inner: bool) -> nat {
    match g {
        Global::Import(spaces) => if inner {
            spaces@.len()
        } else {
            0
        },
        Global::Fun(_) => 1,
        _ => 0,
    }
}

/// Whether `ts` are the tasks a loaded module file lines up, item after item.
pub open spec fn load_tasks(
    items: Seq<Global>,
    ts: Seq<Task>,
    file: Seq<char>,
    dir: Seq<char>,
    sub: Option<Subspace>,
    origin: Seq<char>,
    inner: bool,
) -> bool
    decreases items.len(),
{
    if items.len() == 0 {
        ts.len() == 0
    } else {
        let n = load_item_count(items.last(), inner);
        &&& n <= ts.len()
        &&& load_tasks(items.drop_last(), ts.subrange(0, ts.len() - n), file, dir, sub, origin, inner)
        &&& load_item_tasks(items.last(), ts.subrange(ts.len() - n, ts.len() as int), file, dir, sub, origin, inner)
    }
}

/// The name and the importing file of an import that the answer to a probe shows
/// invalid: nothing of that name exists, or only a directory with no names under it.
pub open spec fn refused_import(pending: Option<Task>, a: Answer) -> Option<(String, String)> {
    match (pending, a) {
        (Some(Task::Space { space, filename, dir: _ }), Answer::Probe { is_dir, file_exists }) => {
            let k = space_kind(is_dir, file_exists);
            if k is Missing || (k is Directory && !(space.sub matches Some(Subspace::Only(_)))) {
                Some((space.name, filename))
            } else {
                None
            }
        },
        _ => None,
    }
}

/// The module file to import from, and the importing file, when the answer to a probe
/// shows that the name is a module file.
pub open spec fn module_import(pending: Option<Task>, a: Answer) -> Option<(Seq<char>, Seq<char>)> {
    match (pending, a) {
        (Some(Task::Space { space, filename, dir }), Answer::Probe { is_dir, file_exists }) => {
            if space_kind(is_dir, file_exists) is File {
                Some((dir@ + seq!['/'] + space.name@ + seq!['.', 'n', 'n'], filename@))
            } else {
                None
            }
        },
        _ => None,
    }
}

/// The kind of a resolved name, by what exists on disk.
pub enum SpaceKind {
    /// A module file (possibly beside a directory of the same name).
    File,
    /// A directory only.
    Directory,
    /// Nothing.
    Missing,
}

/// A module is its file when the file exists; a directory alone is a directory.
pub open spec fn space_kind(is_dir: bool, file_exists: bool) -> SpaceKind {
    if file_exists {
        SpaceKind::File
    } else if is_dir {
        SpaceKind::Directory
    } else {
        SpaceKind::Missing
    }
}

/// Decides what a resolved name is.
pub fn decide_space(is_dir: bool, file_exists: bool) -> (r: SpaceKind)
    ensures
        r == space_kind(is_dir, file_exists),
{
    if is_dir && file_exists {
        SpaceKind::File
    } else if is_dir {
        SpaceKind::Directory
    } else if file_exists {
        SpaceKind::File
    } else {
        SpaceKind::Missing
    }
}

/// Whether two spaces are the same: name, alias, whether used, and the spaces under them.
pub open spec fn same_space(a: Space, b: Space) -> bool
    decreases a,
{
    &&& a.name@ == b.name@
    &&& a.used == b.used
    &&& match (a.alias, b.alias) {
        (Some(x), Some(y)) => x@ == y@,
        (None, None) => true,
        _ => false,
    }
    &&& match (a.sub, b.sub) {
        (Some(Subspace::All), Some(Subspace::All)) => true,
        (Some(Subspace::Only(v)), Some(Subspace::Only(w))) => same_spaces(v@, w@),
        (None, None) => true,
        _ => false,
    }
}

/// Whether two lists of spaces are the same, space by space.
pub open spec fn same_spaces(s: Seq<Space>, t: Seq<Space>) -> bool
    decreases s,
{
    if s.len() == 0 {
        t.len() == 0
    } else {
        t.len() == s.len() && same_spaces(s.drop_last(), t.drop_last()) && same_space(s.last(), t.last())
    }
}

/// A copy of a space and the spaces under it.
pub fn copy_space(s: &Space) -> (r: Space)
    ensures
        r.name@ == s.name@,
        r.used == s.used,
        r.alias is Some == s.alias is Some,
        r.sub is Some == s.sub is Some,
        same_space(*s, r),
    decreases s,
{
    Space {
        name: s.name.clone(),
        alias: match &s.alias {
            Some(a) => Some(a.clone()),
            None => None,
        },
        sub: match &s.sub {
            Some(Subspace::All) => Some(Subspace::All),
            Some(Subspace::Only(v)) => Some(Subspace::Only(copy_spaces(v))),
            None => None,
        },
        used: s.used,
    }
}

/// A copy of a list of spaces.
pub fn copy_spaces(v: &Vec<Space>) -> (r: Vec<Space>)
    ensures
        r@.len() == v@.len(),
        forall|k: int| 0 <= k < v@.len() ==> (#[trigger] r@[k]).name@ == v@[k].name@,
        same_spaces(v@, r@),
    decreases v,
{
    let mut out: Vec<Space> = Vec::new();
    let mut i: usize = 0;
    while i < v.len()
        invariant
            i <= v@.len(),
            out@.len() == i,
            forall|k: int| 0 <= k < i ==> (#[trigger] out@[k]).name@ == v@[k].name@,
            same_spaces(v@.subrange(0, i as int), out@),
        decreases v.len() - i,
    {
        assert(decreases_to!(v => v@[i as int]));
        let ghost prev = out@;
        out.push(copy_space(&v[i]));
        proof {
            assert(out@.drop_last() =~= prev);
            assert(v@.subrange(0, i + 1).drop_last() =~= v@.subrange(0, i as int));
        }
        i = i + 1;
    }
    assert(v@.subrange(0, v@.len() as int) =~= v@);
    out
}

fn copy_sub(sub: &Option<Subspace>) -> (r: Option<Subspace>)
    ensures
        r is Some == sub is Some,
        sub matches Some(Subspace::All) ==> r == Some(Subspace::All),
        sub matches Some(Subspace::Only(w)) ==> r matches Some(Subspace::Only(x)) && x@.len() == w@.len()
            && forall|k: int| 0 <= k < w@.len() ==> (#[trigger] x@[k]).name@ == w@[k].name@,
{
    match sub {
        Some(Subspace::All) => Some(Subspace::All),
        Some(Subspace::Only(v)) => Some(Subspace::Only(copy_spaces(v))),
        None => None,
    }
}

/// Whether the function `name` is among the names wanted.
fn is_wanted(sub: &Option<Subspace>, name: &str) -> (r: bool)
    ensures
        r == wanted(*sub, name@),
{
    match sub {
        None => true,
        Some(Subspace::All) => true,
        Some(Subspace::Only(w)) => {
            let mut k: usize = 0;
            while k < w.len()
                invariant
                    k <= w@.len(),
                    *sub == Some(Subspace::Only(*w)),
                    forall|j: int| 0 <= j < k ==> (#[trigger] w@[j]).name@ != name@,
                decreases w.len() - k,
            {
                if str_eq(w[k].name.as_str(), name) {
                    assert(w@[k as int].name@ == name@);
                    return true;
                }
                k = k + 1;
            }
            false
        },
    }
}

pub struct Resolver {
    pub symbols: SymbolTable,
    pub rep: Reporter,
    pub agenda: Vec<Task>,
    pub pending: Option<Task>,
}

impl Resolver {
    /// A resolver with no scope, no diagnostics and nothing to do.
    pub fn new() -> (r: Self)
        ensures
            r.symbols.scopes@.len() == 0,
            r.symbols.wf(),
            r.rep.messages@.len() == 0,
            r.agenda@.len() == 0,
            r.pending is None,
    {
        Resolver { symbols: SymbolTable::new(), rep: Reporter::new(), agenda: Vec::new(), pending: None }
    }

    /// The symbol of a function with the given parameters, return type and visibility,
    /// the given body (when it is to be checked and generated here), and whether it is
    /// external.
    fn fun_sym(params: &Vec<VarDecl>, ret: &Type, public: bool, body: Option<Vec<Items>>, ext: bool) -> (r: Symbol)
        ensures
            r matches Symbol::Function(s) && s.ret == *ret && s.public == public && s.ext == ext && s.body == body
                && s.params@.len() == params@.len() && forall|k: int|
                0 <= k < params@.len() ==> {
                    let p = #[trigger] s.params@[k];
                    (p.0@, p.1, p.2, p.3, p.4) == param_of(params@[k])
                },
    {
        let mut ps: Vec<Param> = Vec::new();
        let mut i: usize = 0;
        while i < params.len()
            invariant
                i <= params@.len(),
                ps@.len() == i,
                forall|k: int|
                    0 <= k < i ==> {
                        let p = #[trigger] ps@[k];
                        (p.0@, p.1, p.2, p.3, p.4) == param_of(params@[k])
                    },
            decreases params.len() - i,
        {
            let p = &params[i];
            ps.push((p.id.clone(), p.ty.clone(), p.mutable, p.par, p.list));
            i = i + 1;
        }
        Symbol::Function(FunctionSym { params: ps, ret: ret.clone(), public, body, ext })
    }

    /// Imports the function `f` of a module if the names wanted take it: a private one
    /// is reported, one whose name is already bound is reported as a duplicate (in
    /// `origin`), any other is bound with its body.
    fn resolve_fun(&mut self, f: Function, sub: &Option<Subspace>, origin: &str, ext: bool)
        requires
            old(self).symbols.wf(),
        ensures
            final(self).symbols.wf(),
            final(self).agenda == old(self).agenda,
            final(self).pending == old(self).pending,
            prefix_of(old(self).rep.messages@, final(self).rep.messages@),
            !wanted(*sub, f.id@) ==> final(self).symbols == old(self).symbols && final(self).rep == old(self).rep,
            wanted(*sub, f.id@) && !f.public ==> final(self).symbols == old(self).symbols
                && final(self).rep.messages@ == old(self).rep.messages@.push(
                GraviError {
                    kind: Kind::PrivateImport(f.id),
                    severity: Severity::Error,
                    file: None,
                    line: None,
                    col: None,
                    hint: None,
                },
            ),
            wanted(*sub, f.id@) && f.public && old(self).symbols.resolves(f.id@) is Some ==> final(self).symbols
                == old(self).symbols && final(self).rep.messages@.len() == old(self).rep.messages@.len() + 1
                && final(self).rep.messages@.last().kind == Kind::DuplicateImport(f.id)
                && final(self).rep.messages@.last().file.unwrap()@ == origin@,
            wanted(*sub, f.id@) && f.public && old(self).symbols.resolves(f.id@) is None
                && old(self).symbols.scopes@.len() > 0 ==> final(self).rep == old(self).rep,
            wanted(*sub, f.id@) && f.public && old(self).symbols.resolves(f.id@) is None
                && old(self).symbols.scopes@.len() > 0 ==> (lookup(
                final(self).symbols.scopes@.last().symbols@,
                f.id@,
            ) matches Some(Symbol::Function(s)) && s.body == Some(f.body) && s.ext == ext && s.ret == f.ret),
    {
        if !is_wanted(sub, f.id.as_str()) {
            return;
        }
        if !f.public {
            self.rep.add(GraviError::throw(Kind::PrivateImport(f.id.clone())));
        } else if self.symbols.find(f.id.as_str()).is_some() {
            self.rep.add(GraviError::throw(Kind::DuplicateImport(f.id.clone())).file(origin));
        } else {
            let Function { public, lambda: _, id, params, ret, body } = f;
            let sym = Self::fun_sym(&params, &ret, public, Some(body), ext);
            self.symbols.add(id.as_str(), sym);
        }
    }

    /// Starts resolving a program: opens the global scope and lines up, in the order of
    /// the program, each imported name (to resolve from `filename` in `dirname`) and each
    /// function of the program (to bind without its body).
    pub fn process(&mut self, program: &Program, filename: &str, dirname: &str)
        requires
            old(self).symbols.wf(),
        ensures
            final(self).symbols.wf(),
            final(self).symbols.scopes@.len() == old(self).symbols.scopes@.len() + 1,
            final(self).symbols.scopes@.last().kind == ScopeKind::Global,
            opened(old(self).symbols.scopes@, final(self).symbols.scopes@, ScopeKind::Global),
            final(self).rep == old(self).rep,
            final(self).pending == old(self).pending,
            final(self).agenda@.len() >= old(self).agenda@.len(),
            final(self).agenda@.subrange(0, old(self).agenda@.len() as int) == old(self).agenda@,
            program_tasks(
                program.items@,
                final(self).agenda@.skip(old(self).agenda@.len() as int).reverse(),
                filename@,
                dirname@,
            ),
    {
        self.symbols.push(ScopeKind::Global);
        let ghost pushed = self.symbols;
        let mut tasks: Vec<Task> = Vec::new();
        let mut i: usize = 0;
        proof {
            assert(program.items@.take(0).len() == 0);
        }
        while i < program.items.len()
            invariant
                i <= program.items@.len(),
                self.symbols == pushed,
                self.rep == old(self).rep,
                self.pending == old(self).pending,
                self.agenda == old(self).agenda,
                program_tasks(program.items@.take(i as int), tasks@, filename@, dirname@),
            decreases program.items.len() - i,
        {
            let ghost t0 = tasks@;
            proof {
                assert(program.items@.take(i + 1).drop_last() =~= program.items@.take(i as int));
                assert(program.items@.take(i + 1).last() == program.items@[i as int]);
            }
            match &program.items[i] {
                Global::Import(spaces) => {
                    let mut j: usize = 0;
                    while j < spaces.len()
                        invariant
                            j <= spaces@.len(),
                            tasks@.len() == t0.len() + j,
                            tasks@.subrange(0, t0.len() as int) == t0,
                            forall|k: int|
                                0 <= k < j ==> match #[trigger] tasks@[t0.len() + k] {
                                    Task::Space { space, filename: f, dir: d } => same_space(spaces@[k], space) && f@
                                        == filename@ && d@ == dirname@,
                                    _ => false,
                                },
                        decreases spaces.len() - j,
                    {
                        let ghost before = tasks@;
                        tasks.push(
                            Task::Space { space: copy_space(&spaces[j]), filename: owned(filename), dir: owned(dirname) },
                        );
                        proof {
                            assert(tasks@.subrange(0, t0.len() as int) =~= before.subrange(0, t0.len() as int));
                            assert forall|k: int| 0 <= k < j + 1 implies match #[trigger] tasks@[t0.len() + k] {
                                Task::Space { space, filename: f, dir: d } => same_space(spaces@[k], space) && f@
                                    == filename@ && d@ == dirname@,
                                _ => false,
                            } by {
                                if k < j {
                                    assert(tasks@[t0.len() + k] == before[t0.len() + k]);
                                }
                            }
                        }
                        j = j + 1;
                    }
                    proof {
                        let n = spaces@.len();
                        assert(tasks@.subrange(0, tasks@.len() - n) =~= t0);
                        let tail = tasks@.subrange(tasks@.len() - n, tasks@.len() as int);
                        assert forall|k: int| 0 <= k < tail.len() implies match #[trigger] tail[k] {
                            Task::Space { space, filename: f, dir: d } => same_space(spaces@[k], space) && f@
                                == filename@ && d@ == dirname@,
                            _ => false,
                        } by {
                            assert(tail[k] == tasks@[t0.len() + k]);
                        }
                        assert(item_tasks(program.items@[i as int], tail, filename@, dirname@));
                    }
                },
                Global::Fun(FunKind::Custom(f)) => {
                    let sym = Self::fun_sym(&f.params, &f.ret, f.public, None, false);
                    tasks.push(Task::AddFun { id: f.id.clone(), sym });
                    proof {
                        assert(tasks@.subrange(0, tasks@.len() - 1) =~= t0);
                        let tail = tasks@.subrange(tasks@.len() - 1, tasks@.len() as int);
                        assert(tail[0] == tasks@.last());
                        assert(item_tasks(program.items@[i as int], tail, filename@, dirname@));
                    }
                },
                _ => {
                    proof {
                        assert(tasks@.subrange(0, tasks@.len() as int) =~= t0);
                        assert(tasks@.subrange(tasks@.len() as int, tasks@.len() as int) =~= Seq::<Task>::empty());
                    }
                },
            }
            i = i + 1;
        }
        proof {
            assert(program.items@.take(program.items@.len() as int) =~= program.items@);
        }
        let ghost all = tasks@;
        let ghost a0 = self.agenda@;
        // The agenda is worked from its end: the first task goes last.
        while tasks.len() > 0
            invariant
                self.symbols == pushed,
                self.rep == old(self).rep,
                self.pending == old(self).pending,
                a0 == old(self).agenda@,
                tasks@.len() <= all.len(),
                tasks@ == all.subrange(0, tasks@.len() as int),
                self.agenda@ == a0 + all.subrange(tasks@.len() as int, all.len() as int).reverse(),
            decreases tasks@.len(),
        {
            let ghost before = tasks@;
            let ghost ag = self.agenda@;
            let t = tasks.pop().unwrap();
            self.agenda.push(t);
            proof {
                assert(tasks@ =~= all.subrange(0, tasks@.len() as int));
                assert(all.subrange(tasks@.len() as int, all.len() as int).reverse() =~= all.subrange(
                    before.len() as int,
                    all.len() as int,
                ).reverse().push(t));
            }
        }
        proof {
            assert(self.agenda@.subrange(0, a0.len() as int) =~= a0);
            assert(self.agenda@.skip(a0.len() as int).reverse() =~= all);
        }
    }

    /// Lines up tasks to be worked in the given order, before the rest of the agenda.
    fn schedule(&mut self, tasks: Vec<Task>)
        ensures
            final(self).agenda@.len() == old(self).agenda@.len() + tasks@.len(),
            forall|k: int| 0 <= k < old(self).agenda@.len() ==> final(self).agenda@[k] == old(self).agenda@[k],
            final(self).agenda@ == old(self).agenda@ + tasks@.reverse(),
            final(self).symbols == old(self).symbols,
            final(self).rep == old(self).rep,
            final(self).pending == old(self).pending,
    {
        let mut tasks = tasks;
        let ghost n = tasks@.len();
        let ghost all = tasks@;
        while tasks.len() > 0
            invariant
                self.agenda@.len() + tasks@.len() == old(self).agenda@.len() + n,
                self.agenda@.len() >= old(self).agenda@.len(),
                forall|k: int| 0 <= k < old(self).agenda@.len() ==> self.agenda@[k] == old(self).agenda@[k],
                self.symbols == old(self).symbols,
                self.rep == old(self).rep,
                self.pending == old(self).pending,
                n == all.len(),
                tasks@ == all.subrange(0, tasks@.len() as int),
                self.agenda@ == old(self).agenda@ + all.subrange(tasks@.len() as int, all.len() as int).reverse(),
            decreases tasks@.len(),
        {
            let ghost before = tasks@;
            let t = tasks.pop().unwrap();
            self.agenda.push(t);
            proof {
                assert(tasks@ =~= all.subrange(0, tasks@.len() as int));
                assert(all.subrange(tasks@.len() as int, all.len() as int).reverse() =~= all.subrange(
                    before.len() as int,
                    all.len() as int,
                ).reverse().push(t));
            }
        }
        proof {
            assert(all.subrange(0, all.len() as int) =~= all);
        }
    }

    /// The path of the directory of module `name` in `dir`.
    fn module_dir(dir: &str, name: &str) -> (r: String)
        ensures
            r@ == dir@ + seq!['/'] + name@,
    {
        let r = concat3(dir, "/", name);
        proof {
            reveal_strlit("/");
        }
        r
    }

    /// The path of the file of module `name` in `dir`.
    fn module_file(dir: &str, name: &str) -> (r: String)
        ensures
            r@ == dir@ + seq!['/'] + name@ + seq!['.', 'n', 'n'],
    {
        let d = Self::module_dir(dir, name);
        let r = concat2(d.as_str(), ".nn");
        proof {
            reveal_strlit(".nn");
        }
        r
    }

    /// Works the next task of the agenda. A task that needs to know about the file
    /// system or the items of a file becomes the pending one, and its request is handed
    /// out; while one is pending, its request is handed out again.
    pub fn step(&mut self) -> (r: Step)
        requires
            old(self).symbols.wf(),
        ensures
            final(self).symbols.wf(),
            prefix_of(old(self).rep.messages@, final(self).rep.messages@),
            r is Done <==> old(self).agenda@.len() == 0 && old(self).pending is None,
            r is Need <==> final(self).pending is Some,
            old(self).pending is Some ==> final(self).pending == old(self).pending && final(self).agenda
                == old(self).agenda && final(self).symbols == old(self).symbols,
            r matches Step::Need(q) ==> asks(final(self).pending.unwrap(), q),
            old(self).pending is None && old(self).agenda@.len() > 0 ==> {
                let t = old(self).agenda@.last();
                let rest = old(self).agenda@.drop_last();
                match t {
                    Task::AddFun { id, sym } => {
                        &&& r is Worked
                        &&& final(self).agenda@ == rest
                        &&& final(self).rep == old(self).rep
                        &&& old(self).symbols.scopes@.len() > 0 ==> added(
                            old(self).symbols.scopes@,
                            final(self).symbols.scopes@,
                            id@,
                            sym,
                        )
                    },
                    Task::Fun { fun, sub, origin, ext } => {
                        &&& r is Worked
                        &&& wanted(sub, fun.id@) && fun.public && old(self).symbols.resolves(fun.id@) is None
                            && old(self).symbols.scopes@.len() > 0 ==> final(self).rep == old(self).rep
                        &&& wanted(sub, fun.id@) && fun.public && old(self).symbols.resolves(fun.id@) is None
                            && old(self).symbols.scopes@.len() > 0 ==> (lookup(
                            final(self).symbols.scopes@.last().symbols@,
                            fun.id@,
                        ) matches Some(Symbol::Function(s)) && s.body == Some(fun.body) && s.ext == ext && s.ret
                            == fun.ret)
                        &&& final(self).agenda@ == rest
                        &&& !wanted(sub, fun.id@) ==> final(self).symbols == old(self).symbols && final(self).rep
                            == old(self).rep
                        &&& wanted(sub, fun.id@) && !fun.public ==> final(self).symbols == old(self).symbols
                            && final(self).rep.messages@ == old(self).rep.messages@.push(
                                (GraviError {
                                    kind: Kind::PrivateImport(fun.id),
                                    severity: Severity::Error,
                                    file: None,
                                    line: None,
                                    col: None,
                                    hint: None,
                                }),
                            )
                        &&& wanted(sub, fun.id@) && fun.public && old(self).symbols.resolves(fun.id@) is Some
                            ==> final(self).symbols == old(self).symbols && final(self).rep.messages@.len()
                            == old(self).rep.messages@.len() + 1 && final(self).rep.messages@.last().kind
                            == Kind::DuplicateImport(fun.id) && final(self).rep.messages@.last().file.unwrap()@ == origin@
                    },
                    Task::Space { space: _, filename: _, dir: _ } => {
                        &&& r is Need
                        &&& final(self).pending == Some(t)
                        &&& final(self).agenda@ == rest
                        &&& final(self).symbols == old(self).symbols
                        &&& final(self).rep == old(self).rep
                    },
                    Task::Read { file: _, dir: _, sub: _, origin: _, inner: _ } => {
                        &&& r is Need
                        &&& final(self).pending == Some(t)
                        &&& final(self).agenda@ == rest
                        &&& final(self).symbols == old(self).symbols
                        &&& final(self).rep == old(self).rep
                    },
                    Task::File { space, file, dir, origin } => {
                        &&& r is Worked
                        &&& final(self).agenda@.len() == old(self).agenda@.len()
                        &&& final(self).agenda@.drop_last() == rest
                        &&& match final(self).agenda@.last() {
                            Task::Sort { wanted: w, next, file: f, dir: d, origin: o, paths, leaves, funs } => {
                                &&& space.sub == Some(Subspace::Only(w))
                                &&& next == 0 && f == file && d == dir && o == origin
                                &&& paths@.len() == 0 && leaves@.len() == 0 && funs@.len() == 0
                            },
                            Task::Read { file: f, dir: d, sub, origin: o, inner } => {
                                &&& !(space.sub matches Some(Subspace::Only(_)))
                                &&& f == file && d == dir && o == origin && inner && sub == space.sub
                            },
                            _ => false,
                        }
                        &&& final(self).symbols == old(self).symbols
                        &&& final(self).rep == old(self).rep
                    },
                    Task::Sort { wanted, next, file: _, dir: _, origin: _, paths: _, leaves: _, funs: _ } => {
                        &&& next < wanted@.len() && wanted@[next as int].sub is None ==> r is Need && final(self).pending
                            == Some(t) && final(self).agenda@ == rest
                        &&& next < wanted@.len() && wanted@[next as int].sub is Some ==> r is Worked
                            && final(self).agenda@.len() == old(self).agenda@.len()
                            && final(self).agenda@.drop_last() == rest
                        &&& final(self).symbols == old(self).symbols
                        &&& final(self).rep == old(self).rep
                    },
                }
            },
    {
        match &self.pending {
            Some(t) => {
                let req = Self::request_for(t);
                return Step::Need(req);
            },
            None => {},
        }
        let task = match self.agenda.pop() {
            Some(t) => t,
            None => {
                return Step::Done;
            },
        };
        match task {
            Task::AddFun { id, sym } => {
                self.symbols.add(id.as_str(), sym);
                Step::Worked
            },
            Task::Fun { fun, sub, origin, ext } => {
                self.resolve_fun(fun, &sub, origin.as_str(), ext);
                Step::Worked
            },
            Task::File { space, file, dir, origin } => {
                let Space { name: _, alias: _, sub, used: _ } = space;
                match sub {
                    Some(Subspace::Only(wanted)) => {
                        self.agenda.push(
                            Task::Sort {
                                wanted,
                                next: 0,
                                file,
                                dir,
                                origin,
                                paths: Vec::new(),
                                leaves: Vec::new(),
                                funs: Vec::new(),
                            },
                        );
                    },
                    other => {
                        self.agenda.push(Task::Read { file, dir, sub: other, origin, inner: true });
                    },
                }
                Step::Worked
            },
            Task::Sort { wanted, next, file, dir, origin, paths, leaves, funs } => {
                if next < wanted.len() {
                    if wanted[next].sub.is_some() {
                        let mut paths = paths;
                        paths.push(copy_space(&wanted[next]));
                        self.agenda.push(Task::Sort { wanted, next: next + 1, file, dir, origin, paths, leaves, funs });
                        Step::Worked
                    } else {
                        let t = Task::Sort { wanted, next, file, dir, origin, paths, leaves, funs };
                        let req = Self::request_for(&t);
                        self.pending = Some(t);
                        Step::Need(req)
                    }
                } else {
                    let mut tasks: Vec<Task> = Vec::new();
                    let mut paths = paths;
                    while paths.len() > 0
                        decreases paths@.len(),
                    {
                        let seg = paths.remove(0);
                        tasks.push(Task::Space { space: seg, filename: file.clone(), dir: dir.clone() });
                    }
                    let mut leaves = leaves;
                    while leaves.len() > 0
                        decreases leaves@.len(),
                    {
                        let leaf = leaves.remove(0);
                        let path = Self::module_file(dir.as_str(), leaf.name.as_str());
                        tasks.push(Task::Read { file: path, dir: dir.clone(), sub: None, origin: origin.clone(), inner: false });
                    }
                    if funs.len() > 0 {
                        tasks.push(Task::Read { file, dir, sub: Some(Subspace::Only(funs)), origin, inner: true });
                    }
                    self.schedule(tasks);
                    Step::Worked
                }
            },
            other => {
                let req = Self::request_for(&other);
                self.pending = Some(other);
                Step::Need(req)
            },
        }
    }

    /// The request a task waits on.
    fn request_for(t: &Task) -> (r: Request)
        ensures
            asks(*t, r),
    {
        match t {
            Task::Space { space, filename: _, dir } => Request::Probe {
                dir: Self::module_dir(dir.as_str(), space.name.as_str()),
                file: Self::module_file(dir.as_str(), space.name.as_str()),
            },
            Task::Sort { wanted, next, file: _, dir, origin: _, paths: _, leaves: _, funs: _ } => {
                if *next < wanted.len() {
                    Request::Exists { path: Self::module_file(dir.as_str(), wanted[*next].name.as_str()) }
                } else {
                    Request::Exists { path: dir.clone() }
                }
            },
            Task::Read { file, dir: _, sub: _, origin: _, inner: _ } => Request::Load { path: file.clone() },
            Task::File { space: _, file, dir: _, origin: _ } => Request::Load { path: file.clone() },
            Task::AddFun { id, sym: _ } => Request::Exists { path: id.clone() },
            Task::Fun { fun, sub: _, origin: _, ext: _ } => Request::Exists { path: fun.id.clone() },
        }
    }

    /// Takes the answer to the pending request and goes on with the pending task. A
    /// name that is a module file is imported from it; a directory alone resolves the
    /// names under it, or is reported when none are given; a name that is neither is
    /// reported. The items of a read file bring their imports (when asked for) and their
    /// functions, in their order.
    pub fn answer(&mut self, a: Answer)
        requires
            old(self).symbols.wf(),
        ensures
            final(self).symbols.wf(),
            prefix_of(old(self).rep.messages@, final(self).rep.messages@),
            final(self).pending is None,
            old(self).pending is None ==> final(self).agenda == old(self).agenda && final(self).rep == old(self).rep,
            refused_import(old(self).pending, a) matches Some((name, filename)) ==> {
                &&& final(self).rep.messages@.len() == old(self).rep.messages@.len() + 1
                &&& final(self).rep.messages@.last().kind == Kind::InvalidImport(name)
                &&& final(self).rep.messages@.last().file.unwrap()@ == filename@
            },
            module_import(old(self).pending, a) matches Some((path, origin)) ==> {
                &&& final(self).agenda@.last() matches Task::File { space: _, file, dir: _, origin: o }
                &&& file@ == path && o@ == origin
                &&& final(self).rep == old(self).rep
            },
            old(self).pending matches Some(Task::Read { file, dir, sub, origin, inner }) ==> (a matches Answer::Load(
                items,
            ) ==> {
                &&& final(self).agenda@.len() >= old(self).agenda@.len()
                &&& final(self).agenda@.subrange(0, old(self).agenda@.len() as int) == old(self).agenda@
                &&& load_tasks(
                    items@,
                    final(self).agenda@.skip(old(self).agenda@.len() as int).reverse(),
                    file@,
                    dir@,
                    sub,
                    origin@,
                    inner,
                )
                &&& final(self).rep == old(self).rep
                &&& final(self).symbols == old(self).symbols
            }),
            old(self).pending matches Some(Task::Space { space, filename, dir }) ==> (a matches Answer::Probe {
                is_dir,
                file_exists,
            } ==> (space_kind(is_dir, file_exists) is Directory ==> (space.sub matches Some(Subspace::Only(subs)) ==> {
                &&& final(self).agenda@.len() >= old(self).agenda@.len()
                &&& final(self).agenda@.subrange(0, old(self).agenda@.len() as int) == old(self).agenda@
                &&& dir_tasks(
                    final(self).agenda@.skip(old(self).agenda@.len() as int).reverse(),
                    subs@,
                    filename@,
                    dir@ + seq!['/'] + space.name@,
                )
                &&& final(self).rep == old(self).rep
            }))),
            old(self).pending matches Some(Task::Sort { wanted, next, file, dir, origin, paths, leaves, funs }) ==> (
            a matches Answer::Exists(found) ==> (next < wanted@.len() ==> {
                &&& final(self).agenda@.drop_last() == old(self).agenda@
                &&& final(self).agenda@.len() == old(self).agenda@.len() + 1
                &&& final(self).agenda@.last() matches Task::Sort {
                    wanted: w2,
                    next: n2,
                    file: f2,
                    dir: d2,
                    origin: o2,
                    paths: p2,
                    leaves: l2,
                    funs: u2,
                }
                &&& w2 == wanted && n2 == next + 1 && f2 == file && d2 == dir && o2 == origin && p2 == paths
                &&& found ==> u2 == funs && l2@.len() == leaves@.len() + 1 && l2@.drop_last() == leaves@
                    && same_space(wanted@[next as int], l2@.last())
                &&& !found ==> l2 == leaves && u2@.len() == funs@.len() + 1 && u2@.drop_last() == funs@
                    && same_space(wanted@[next as int], u2@.last())
                &&& final(self).rep == old(self).rep
            })),
    {
        let t = match self.pending.take() {
            Some(t) => t,
            None => {
                return;
            },
        };
        match (t, a) {
            (Task::Space { space, filename, dir }, Answer::Probe { is_dir, file_exists }) => {
                match decide_space(is_dir, file_exists) {
                    SpaceKind::File => {
                        let file = Self::module_file(dir.as_str(), space.name.as_str());
                        let mdir = Self::module_dir(dir.as_str(), space.name.as_str());
                        self.agenda.push(Task::File { space, file, dir: mdir, origin: filename });
                    },
                    SpaceKind::Directory => {
                        let mdir = Self::module_dir(dir.as_str(), space.name.as_str());
                        match space.sub {
                            Some(Subspace::Only(subs)) => {
                                let mut tasks: Vec<Task> = Vec::new();
                                let ghost all = subs@;
                                let mut subs = subs;
                                let n_subs: usize = subs.len();
                                let mut j: usize = 0;
                                while subs.len() > 0
                                    invariant
                                        j + subs@.len() == all.len(),
                                        all.len() <= usize::MAX,
                                        subs@ == all.subrange(j as int, all.len() as int),
                                        dir_tasks(tasks@, all.take(j as int), filename@, mdir@),
                                    decreases subs@.len(),
                                {
                                    let ghost tb = tasks@;
                                    let sp = subs.remove(0);
                                    proof {
                                        assert(sp == all[j as int]);
                                        assert(subs@ =~= all.subrange(j + 1, all.len() as int));
                                    }
                                    tasks.push(Task::Space { space: sp, filename: filename.clone(), dir: mdir.clone() });
                                    proof {
                                        assert forall|k: int| 0 <= k < tasks@.len() implies match #[trigger] tasks@[k] {
                                            Task::Space { space, filename: f, dir: d } => space == all.take(j + 1)[k]
                                                && f@ == filename@ && d@ == mdir@,
                                            _ => false,
                                        } by {
                                            if k < j {
                                                assert(tasks@[k] == tb[k]);
                                            }
                                        }
                                    }
                                    j = j + 1;
                                }
                                proof {
                                    assert(all.take(all.len() as int) =~= all);
                                }
                                let ghost a0 = self.agenda@;
                                self.schedule(tasks);
                                proof {
                                    assert(self.agenda@.subrange(0, a0.len() as int) =~= a0);
                                    assert(self.agenda@.skip(a0.len() as int).reverse() =~= tasks@);
                                }
                            },
                            _ => {
                                self.rep.add(GraviError::throw(Kind::InvalidImport(space.name)).file(filename.as_str()));
                            },
                        }
                    },
                    SpaceKind::Missing => {
                        self.rep.add(GraviError::throw(Kind::InvalidImport(space.name)).file(filename.as_str()));
                    },
                }
            },
            (Task::Sort { wanted, next, file, dir, origin, paths, leaves, funs }, Answer::Exists(found)) => {
                if next < wanted.len() {
                    let s = copy_space(&wanted[next]);
                    let mut leaves = leaves;
                    let mut funs = funs;
                    if found {
                        leaves.push(s);
                    } else {
                        funs.push(s);
                    }
                    self.agenda.push(Task::Sort { wanted, next: next + 1, file, dir, origin, paths, leaves, funs });
                }
            },
            (Task::Read { file, dir, sub, origin, inner }, Answer::Load(items)) => {
                let mut tasks: Vec<Task> = Vec::new();
                let ghost all = items@;
                let mut items = items;
                let n_items: usize = items.len();
                let mut done: usize = 0;
                proof {
                    assert(all.take(0).len() == 0);
                }
                while items.len() > 0
                    invariant
                        done + items@.len() == all.len(),
                        all.len() <= usize::MAX,
                        items@ == all.subrange(done as int, all.len() as int),
                        load_tasks(all.take(done as int), tasks@, file@, dir@, sub, origin@, inner),
                    decreases items@.len(),
                {
                    let ghost t0 = tasks@;
                    let ghost before = items@;
                    let item = items.remove(0);
                    proof {
                        assert(item == all[done as int]);
                        assert(items@ =~= all.subrange(done + 1, all.len() as int));
                        assert(all.take(done + 1).drop_last() =~= all.take(done as int));
                        assert(all.take(done + 1).last() == all[done as int]);
                    }
                    match item {
                        Global::Import(spaces) => {
                            if inner {
                                let ghost sp_all = spaces@;
                                let mut spaces = spaces;
                                let n_spaces: usize = spaces.len();
                                let mut j: usize = 0;
                                while spaces.len() > 0
                                    invariant
                                        j + spaces@.len() == sp_all.len(),
                                        sp_all.len() <= usize::MAX,
                                        spaces@ == sp_all.subrange(j as int, sp_all.len() as int),
                                        tasks@.len() == t0.len() + j,
                                        tasks@.subrange(0, t0.len() as int) == t0,
                                        forall|k: int|
                                            0 <= k < j ==> match #[trigger] tasks@[t0.len() + k] {
                                                Task::Space { space, filename, dir: d } => space == sp_all[k]
                                                    && filename@ == file@ && d@ == dir@,
                                                _ => false,
                                            },
                                    decreases spaces@.len(),
                                {
                                    let ghost tb = tasks@;
                                    let sp = spaces.remove(0);
                                    proof {
                                        assert(sp == sp_all[j as int]);
                                        assert(spaces@ =~= sp_all.subrange(j + 1, sp_all.len() as int));
                                    }
                                    tasks.push(Task::Space { space: sp, filename: file.clone(), dir: dir.clone() });
                                    proof {
                                        assert(tasks@.subrange(0, t0.len() as int) =~= tb.subrange(0, t0.len() as int));
                                        assert forall|k: int| 0 <= k < j + 1 implies match #[trigger] tasks@[t0.len() + k] {
                                            Task::Space { space, filename, dir: d } => space == sp_all[k] && filename@
                                                == file@ && d@ == dir@,
                                            _ => false,
                                        } by {
                                            if k < j {
                                                assert(tasks@[t0.len() + k] == tb[t0.len() + k]);
                                            }
                                        }
                                    }
                                    j = j + 1;
                                }
                                proof {
                                    let n = sp_all.len();
                                    assert(tasks@.subrange(0, tasks@.len() - n) =~= t0);
                                    let tail = tasks@.subrange(tasks@.len() - n, tasks@.len() as int);
                                    assert forall|k: int| 0 <= k < tail.len() implies match #[trigger] tail[k] {
                                        Task::Space { space, filename, dir: d } => space == sp_all[k] && filename@
                                            == file@ && d@ == dir@,
                                        _ => false,
                                    } by {
                                        assert(tail[k] == tasks@[t0.len() + k]);
                                    }
                                    assert(load_item_tasks(all[done as int], tail, file@, dir@, sub, origin@, inner));
                                }
                            } else {
                                proof {
                                    assert(tasks@.subrange(0, tasks@.len() as int) =~= t0);
                                    assert(tasks@.subrange(tasks@.len() as int, tasks@.len() as int) =~= Seq::<Task>::empty());
                                }
                            }
                        },
                        Global::Fun(FunKind::Custom(f)) => {
                            tasks.push(Task::Fun { fun: f, sub: copy_sub(&sub), origin: origin.clone(), ext: false });
                            proof {
                                assert(tasks@.subrange(0, tasks@.len() - 1) =~= t0);
                                assert(tasks@.subrange(tasks@.len() - 1, tasks@.len() as int)[0] == tasks@.last());
                            }
                        },
                        Global::Fun(FunKind::Entry(f)) => {
                            tasks.push(Task::Fun { fun: f, sub: copy_sub(&sub), origin: origin.clone(), ext: false });
                            proof {
                                assert(tasks@.subrange(0, tasks@.len() - 1) =~= t0);
                                assert(tasks@.subrange(tasks@.len() - 1, tasks@.len() as int)[0] == tasks@.last());
                            }
                        },
                        Global::Fun(FunKind::Extern(f)) => {
                            tasks.push(Task::Fun { fun: f, sub: copy_sub(&sub), origin: origin.clone(), ext: true });
                            proof {
                                assert(tasks@.subrange(0, tasks@.len() - 1) =~= t0);
                                assert(tasks@.subrange(tasks@.len() - 1, tasks@.len() as int)[0] == tasks@.last());
                            }
                        },
                        _ => {
                            proof {
                                assert(tasks@.subrange(0, tasks@.len() as int) =~= t0);
                                assert(tasks@.subrange(tasks@.len() as int, tasks@.len() as int) =~= Seq::<Task>::empty());
                            }
                        },
                    }
                    done = done + 1;
                }
                proof {
                    assert(all.take(all.len() as int) =~= all);
                }
                let ghost a0 = self.agenda@;
                self.schedule(tasks);
                proof {
                    assert(self.agenda@.subrange(0, a0.len() as int) =~= a0);
                    assert(self.agenda@.skip(a0.len() as int).reverse() =~= tasks@);
                }
            },
            _ => {},
        }
    }

    /// The diagnostics recorded while resolving.
    pub fn reporter(&self) -> (r: &Reporter)
        ensures
            *r == self.rep,
    {
        &self.rep
    }

    /// The symbol table built.
    pub fn output(&mut self) -> (r: &mut SymbolTable)
        ensures
            *r == old(self).symbols,
            final(self).symbols == *final(r),
            final(self).rep == old(self).rep,
    {
        &mut self.symbols
    }
}

} // verus!
