use gravi::ast::{FunKind, Function, Global, Program, Space, Subspace};
use gravi::backend::c::CGenerator;
use gravi::backend::Backend;
use gravi::error::Kind;
use gravi::lexer::Type;
use gravi::resolver::{decide_space, Answer, Request, Resolver, SpaceKind, Step};
use gravi::symbol::Symbol;
use gravi::{lex, parse};

fn program(source: &str) -> Program {
    let mut l = lex(source, "main.nn");
    let p = parse(l.tokens_mut());
    let mut prog = Program::new();
    let mut items = p.prog.items;
    while !items.is_empty() {
        prog.add(items.remove(0));
    }
    prog
}

fn public_fun(name: &str) -> Global {
    let mut f = Function::new();
    f.public = true;
    f.id = name.to_string();
    f.ret = Type::Boolean;
    Global::Fun(FunKind::Custom(f))
}

fn private_fun(name: &str) -> Global {
    let mut f = Function::new();
    f.id = name.to_string();
    Global::Fun(FunKind::Custom(f))
}

fn space(name: &str, sub: Option<Subspace>) -> Space {
    Space { name: name.to_string(), alias: None, sub, used: false }
}

#[test]
fn module_kind_by_what_exists() {
    assert!(matches!(decide_space(true, true), SpaceKind::File));
    assert!(matches!(decide_space(false, true), SpaceKind::File));
    assert!(matches!(decide_space(true, false), SpaceKind::Directory));
    assert!(matches!(decide_space(false, false), SpaceKind::Missing));
}

#[test]
fn own_functions_are_bound_without_body() {
    let prog = program("fun helper(): bool { ret true; }");
    let mut r = Resolver::new();
    r.process(&prog, "main.nn", ".");
    assert!(matches!(r.step(), Step::Worked));
    assert!(matches!(r.step(), Step::Done));
    match r.output().find("helper") {
        Some(Symbol::Function(f)) => assert!(f.body.is_none()),
        _ => panic!("helper should be bound"),
    }
}

#[test]
fn missing_module_is_reported() {
    let mut prog = Program::new();
    prog.add(Global::Import(vec![space("nowhere", None)]));
    let mut r = Resolver::new();
    r.process(&prog, "main.nn", "src");
    match r.step() {
        Step::Need(Request::Probe { dir, file }) => {
            assert_eq!(dir, "src/nowhere");
            assert_eq!(file, "src/nowhere.nn");
        },
        _ => panic!("a probe was expected"),
    }
    r.answer(Answer::Probe { is_dir: false, file_exists: false });
    assert!(matches!(r.step(), Step::Done));
    let m = &r.reporter().messages[0];
    assert!(matches!(&m.kind, Kind::InvalidImport(n) if n == "nowhere"));
    assert_eq!(m.file.as_deref(), Some("main.nn"));
}

#[test]
fn module_file_functions_are_imported_with_body() {
    let mut prog = Program::new();
    prog.add(Global::Import(vec![space("lib", None)]));
    let mut r = Resolver::new();
    r.process(&prog, "main.nn", ".");
    assert!(matches!(r.step(), Step::Need(Request::Probe { .. })));
    r.answer(Answer::Probe { is_dir: false, file_exists: true });
    assert!(matches!(r.step(), Step::Worked));
    match r.step() {
        Step::Need(Request::Load { path }) => assert_eq!(path, "./lib.nn"),
        _ => panic!("a load was expected"),
    }
    r.answer(Answer::Load(vec![public_fun("f"), private_fun("g")]));
    assert!(matches!(r.step(), Step::Worked));
    assert!(matches!(r.step(), Step::Worked));
    assert!(matches!(r.step(), Step::Done));
    match r.output().find("f") {
        Some(Symbol::Function(f)) => assert!(f.body.is_some()),
        _ => panic!("f should be imported"),
    }
    assert!(r.output().find("g").is_none());
    assert!(r.reporter().messages.iter().any(|m| matches!(&m.kind, Kind::PrivateImport(n) if n == "g")));
}

#[test]
fn importing_a_name_twice_is_reported() {
    let mut prog = Program::new();
    prog.add(Global::Import(vec![space("lib", None)]));
    let mut r = Resolver::new();
    r.process(&prog, "main.nn", ".");
    let _ = r.step();
    r.answer(Answer::Probe { is_dir: false, file_exists: true });
    let _ = r.step();
    let _ = r.step();
    r.answer(Answer::Load(vec![public_fun("f"), public_fun("f")]));
    while !matches!(r.step(), Step::Done) {}
    assert!(r.reporter().messages.iter().any(|m| matches!(&m.kind, Kind::DuplicateImport(n) if n == "f")));
}

#[test]
fn only_the_wanted_functions_are_imported() {
    let mut prog = Program::new();
    prog.add(Global::Import(vec![space("lib", Some(Subspace::Only(vec![space("f", None)])))]));
    let mut r = Resolver::new();
    r.process(&prog, "main.nn", ".");
    let _ = r.step();
    r.answer(Answer::Probe { is_dir: false, file_exists: true });
    assert!(matches!(r.step(), Step::Worked));
    match r.step() {
        Step::Need(Request::Exists { path }) => assert_eq!(path, "./lib/f.nn"),
        _ => panic!("an existence check was expected"),
    }
    r.answer(Answer::Exists(false));
    assert!(matches!(r.step(), Step::Worked));
    match r.step() {
        Step::Need(Request::Load { path }) => assert_eq!(path, "./lib.nn"),
        _ => panic!("a load was expected"),
    }
    r.answer(Answer::Load(vec![public_fun("f"), public_fun("h")]));
    while !matches!(r.step(), Step::Done) {}
    assert!(r.output().find("f").is_some());
    assert!(r.output().find("h").is_none());
}

#[test]
fn directory_without_names_is_reported() {
    let mut prog = Program::new();
    prog.add(Global::Import(vec![space("pkg", None)]));
    let mut r = Resolver::new();
    r.process(&prog, "main.nn", ".");
    let _ = r.step();
    r.answer(Answer::Probe { is_dir: true, file_exists: false });
    assert!(matches!(r.step(), Step::Done));
    assert!(matches!(&r.reporter().messages[0].kind, Kind::InvalidImport(n) if n == "pkg"));
}

#[test]
fn imported_function_with_body_is_written_out() {
    let mut prog = Program::new();
    prog.add(Global::Import(vec![space("lib", None)]));
    let mut r = Resolver::new();
    r.process(&prog, "main.nn", ".");
    assert!(matches!(r.step(), Step::Need(Request::Probe { .. })));
    r.answer(Answer::Probe { is_dir: false, file_exists: true });
    assert!(matches!(r.step(), Step::Worked));
    assert!(matches!(r.step(), Step::Need(Request::Load { .. })));
    r.answer(Answer::Load(vec![public_fun("f")]));
    while !matches!(r.step(), Step::Done) {}
    let mut cg = CGenerator::new();
    cg.process(&prog, r.output());
    let out = cg.output().clone();
    assert!(out.starts_with("#include <stdio.h>\n"));
    assert!(out.contains("bool nn_f()\n{\n"));
    assert!(out.ends_with("int main()\n{\n\treturn 0;\n}\n"));
}
