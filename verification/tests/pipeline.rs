use gravi::ast::{Expr, FunKind, Global, Items, Value, Var};
use gravi::lexer::Operator;
use gravi::backend::c::CGenerator;
use gravi::backend::Backend;
use gravi::error::Kind;
use gravi::lexer::{Keyword, Numeric, Punctuation, TokenKind, Type, ValueKind};
use gravi::resolver::{Resolver, Step};
use gravi::typechecker::Checker;
use gravi::{lex, parse};

fn front(source: &str) -> (gravi::parser::Parser, Resolver) {
    let mut l = lex(source, "main.nn");
    assert!(!l.reporter().has_errors());
    let p = parse(l.tokens_mut());
    let mut r = Resolver::new();
    r.process(p.output(), "main.nn", ".");
    loop {
        match r.step() {
            Step::Done => break,
            Step::Worked => {},
            Step::Need(_) => panic!("no import expected"),
        }
    }
    (p, r)
}

#[test]
fn lex_declaration_tokens() {
    let l = lex("var x = 42;", "main.nn");
    let kinds: Vec<&TokenKind> = l.tokens().iter().map(|t| t.kind()).collect();
    assert_eq!(kinds.len(), 5);
    assert!(matches!(kinds[0], TokenKind::Keyword(Keyword::Var)));
    assert!(matches!(kinds[1], TokenKind::Identifier(s) if s == "x"));
    assert!(matches!(kinds[2], TokenKind::Punctuation(Punctuation::Assignment)));
    assert!(matches!(kinds[3], TokenKind::Value(ValueKind::Numeric(s)) if s == "42"));
    assert!(matches!(kinds[4], TokenKind::Punctuation(Punctuation::SemiColon)));
    assert!(!l.reporter().has_errors());
}

#[test]
fn lex_tokens_carry_file_and_line() {
    let l = lex("var a = 1;\nvar b = 2;", "prog.nn");
    let toks = l.tokens();
    assert!(toks.iter().all(|t| t.file() == "prog.nn"));
    assert_eq!(toks[0].line(), 1);
    assert_eq!(toks[toks.len() - 1].line(), 2);
}

#[test]
fn lex_unterminated_string_is_reported() {
    let l = lex("var s = \"abc", "main.nn");
    assert!(l.reporter().has_errors());
    assert!(matches!(l.reporter().messages[0].kind, Kind::UnterminatedString));
}

#[test]
fn lex_comment_is_skipped() {
    let l = lex("// nothing here\nvar y = 1;", "main.nn");
    assert!(matches!(l.tokens()[0].kind(), TokenKind::Keyword(Keyword::Var)));
}

#[test]
fn parse_consumes_every_token() {
    let mut l = lex("fun main() { var x = 5; show(x); }", "main.nn");
    let p = parse(l.tokens_mut());
    assert_eq!(l.tokens().len(), 0);
    assert!(!p.reporter().has_errors());
    assert_eq!(p.output().items().len(), 1);
    assert!(matches!(&p.output().items()[0], Global::Fun(FunKind::Entry(f)) if f.identifier() == "main"));
}

#[test]
fn check_infers_smallest_unsigned_type() {
    let (mut p, mut r) = front("fun main() { var x = 5; }");
    let mut tc = Checker::new();
    tc.process(p.output_mut(), r.output());
    assert!(!tc.reporter().has_errors());
    match &p.output().items()[0] {
        Global::Fun(FunKind::Entry(f)) => match &f.body()[0] {
            Items::Var(Var::Decl(d)) => assert!(matches!(d.ty(), Type::Numeric(Numeric::U8))),
            _ => panic!("declaration expected"),
        },
        _ => panic!("entry point expected"),
    }
}

#[test]
fn check_reports_literal_too_large_for_declared_type() {
    let (mut p, mut r) = front("fun main() { var x: u8 = 300; }");
    let mut tc = Checker::new();
    tc.process(p.output_mut(), r.output());
    assert_eq!(tc.reporter().messages.len(), 1);
    assert!(matches!(
        tc.reporter().messages[0].kind,
        Kind::TypeMismatch(Type::Numeric(Numeric::U8), Type::Numeric(Numeric::U16))
    ));
}

#[test]
fn check_accepts_literal_that_fits_declared_type() {
    let (mut p, mut r) = front("fun main() { var x: u8 = 200; }");
    let mut tc = Checker::new();
    tc.process(p.output_mut(), r.output());
    assert_eq!(tc.reporter().messages.len(), 0);
}

#[test]
fn check_reports_assignment_to_immutable() {
    let (mut p, mut r) = front("fun main() { var x = 1; x = 2; }");
    let mut tc = Checker::new();
    tc.process(p.output_mut(), r.output());
    assert!(tc.reporter().messages.iter().any(|m| matches!(&m.kind, Kind::MutatingImmutable(n) if n == "x")));
}

#[test]
fn check_accepts_assignment_to_mutable() {
    let (mut p, mut r) = front("fun main() { mut var x = 1; x = 2; }");
    let mut tc = Checker::new();
    tc.process(p.output_mut(), r.output());
    assert!(!tc.reporter().messages.iter().any(|m| matches!(&m.kind, Kind::MutatingImmutable(_))));
}

#[test]
fn generate_main_with_declaration_and_show() {
    let (mut p, mut r) = front("fun main() { var x = 5; show(x); }");
    let mut tc = Checker::new();
    tc.process(p.output_mut(), r.output());
    let mut cg = CGenerator::new();
    cg.process(p.output(), r.output());
    let expected = "#include <stdio.h>\n#include <stdlib.h>\n#include <math.h>\n#include <stdbool.h>\n\n\
int main()\n{\n\tconst unsigned char __b1_x = 5;\n\tprintf(\"%u\\n\", __b1_x);\n\n\treturn 0;\n}";
    assert_eq!(cg.output(), expected);
    assert!(!cg.reporter().has_errors());
}

#[test]
fn generate_default_main_when_there_is_none() {
    let (mut p, mut r) = front("fun helper() { }");
    let mut tc = Checker::new();
    tc.process(p.output_mut(), r.output());
    let mut cg = CGenerator::new();
    cg.process(p.output(), r.output());
    assert!(cg.output().starts_with("#include <stdio.h>\n"));
    assert!(cg.output().ends_with("int main()\n{\n\treturn 0;\n}\n"));
    let last = cg.reporter().messages.last().unwrap();
    assert!(matches!(last.kind, Kind::EntryNotFound));
    assert!(matches!(last.severity, gravi::error::Severity::Warning));
    assert!(!cg.reporter().has_errors());
}

#[test]
fn generate_names_blocks_apart() {
    let (mut p, mut r) = front("fun main() { var x = 1; if x > 0 { var x = 2; } }");
    let mut tc = Checker::new();
    tc.process(p.output_mut(), r.output());
    let mut cg = CGenerator::new();
    cg.process(p.output(), r.output());
    assert!(cg.output().contains("__b1_x"));
}

#[test]
fn parse_keeps_string_values() {
    let mut l = lex("fun main() { show(\"hi\"); }", "main.nn");
    let p = parse(l.tokens_mut());
    match &p.output().items()[0] {
        Global::Fun(FunKind::Entry(f)) => match &f.body()[0] {
            Items::Expr(Value::Call(id, args)) => {
                assert_eq!(id, "show");
                assert!(matches!(&args[0], Value::StringLiteral(s) if s == "hi"));
            },
            _ => panic!("call expected"),
        },
        _ => panic!("entry point expected"),
    }
}

#[test]
fn parse_top_level_typed_list_declaration() {
    let mut l = lex("var xs: u8[] = [3](1, 2, 3);", "main.nn");
    let p = parse(l.tokens_mut());
    match &p.output().items()[0] {
        Global::Var(v) => {
            assert_eq!(v.id, "xs");
            assert!(matches!(v.ty, Type::Numeric(Numeric::U8)));
            assert!(v.list);
            assert!(!v.mutable);
            assert!(v.val.is_some());
        },
        _ => panic!("variable expected"),
    }
}

#[test]
fn parse_top_level_untyped_declaration() {
    let mut l = lex("var count = 7;", "main.nn");
    let p = parse(l.tokens_mut());
    match &p.output().items()[0] {
        Global::Var(v) => {
            assert_eq!(v.id, "count");
            assert!(matches!(v.ty, Type::Void));
            assert!(!v.list);
            assert!(v.val.is_some());
        },
        _ => panic!("variable expected"),
    }
}

#[test]
fn parse_function_takes_its_name() {
    let mut l = lex("fun helper() { }", "main.nn");
    let p = parse(l.tokens_mut());
    assert!(matches!(&p.output().items()[0], Global::Fun(FunKind::Custom(f)) if f.identifier() == "helper"));
}

#[test]
fn parse_function_without_name_is_reported() {
    let mut l = lex("fun 12() { }", "main.nn");
    let p = parse(l.tokens_mut());
    assert!(matches!(p.reporter().messages[0].kind, Kind::ExpectedFunctionName));
    assert!(matches!(&p.output().items()[0], Global::Fun(FunKind::Custom(f)) if f.identifier() == ""));
}

#[test]
fn program_literals_in_reading_order() {
    let (p, mut r) = front("var g = 9; fun main() { var x = 5; var y = 2 + 3.5; }");
    let lits = gravi::literals::program_literals(p.output(), r.output());
    assert_eq!(lits, vec!["9".to_string(), "5".to_string(), "2".to_string(), "3.5".to_string()]);
}

#[test]
fn check_types_compound_expressions() {
    let (mut p, mut r) = front("fun main() { var a = 5 - 3; var b = (7 > 2); }");
    let mut tc = Checker::new();
    tc.process(p.output_mut(), r.output());
    match &p.output().items()[0] {
        Global::Fun(FunKind::Entry(f)) => {
            match &f.body()[0] {
                Items::Var(Var::Decl(d)) => assert!(matches!(d.ty(), Type::Numeric(Numeric::U8))),
                _ => panic!("declaration expected"),
            }
            match &f.body()[1] {
                Items::Var(Var::Decl(d)) => assert!(matches!(d.ty(), Type::Boolean)),
                _ => panic!("declaration expected"),
            }
        },
        _ => panic!("entry point expected"),
    }
}

fn generate(source: &str) -> String {
    let (mut p, mut r) = front(source);
    let mut tc = Checker::new();
    tc.process(p.output_mut(), r.output());
    let mut cg = CGenerator::new();
    cg.process(p.output(), r.output());
    cg.output().clone()
}

#[test]
fn generate_counting_loop_stops_short_of_exclusive_end() {
    let out = generate("fun main() { loop i in 0:3 { show(i); } }");
    assert!(out.contains("\tfor (int __b1_i = 0; __b1_i <= 2; __b1_i++)\n"));
}

#[test]
fn generate_counting_loop_down() {
    let out = generate("fun main() { loop i in 5:1 { show(i); } }");
    assert!(out.contains("\tfor (int __b1_i = 4; __b1_i >= 1; __b1_i--)\n"));
}

#[test]
fn generate_while_loop_from_comparison() {
    let out = generate("fun main() { mut var n = 0; loop n < 10 { n = n + 1; } }");
    assert!(out.contains("\twhile (__b1_n < 10)\n\t{\n\t"));
}

#[test]
fn generate_if_head() {
    let out = generate("fun main() { var x = 1; if x > 0 { show(x); } }");
    assert!(out.contains("\tif (__b1_x > 0)\n\t{\n\t"));
}

#[test]
fn generate_whole_program_with_global_and_helper() {
    let out = generate("var g = 4; fun helper() { } fun main() { show(g); }");
    let expected = "#include <stdio.h>\n#include <stdlib.h>\n#include <math.h>\n#include <stdbool.h>\n\n\
void nn_helper();\n\
const void g = 4;\n\
void nn_helper();\n\n\
int main()\n{\n\tprintf(\"%s\\n\", g);\n\n\treturn 0;\n}";
    assert_eq!(out, expected);
}

#[test]
fn parse_function_with_parameters_and_return_type() {
    let mut l = lex("fun add(a: i32, b: i32): i32\n{\n    ret a + b;\n}", "main.nn");
    let p = parse(l.tokens_mut());
    assert!(!p.reporter().has_errors());
    match &p.output().items()[0] {
        Global::Fun(FunKind::Custom(f)) => {
            assert_eq!(f.identifier(), "add");
            assert_eq!(f.params().len(), 2);
            assert_eq!(f.params()[0].id, "a");
            assert!(matches!(f.params()[1].ty, Type::Numeric(Numeric::I32)));
            assert!(matches!(f.ret(), Type::Numeric(Numeric::I32)));
            assert!(matches!(&f.body()[0], Items::Ret(Value::Expression(_))));
        },
        _ => panic!("function expected"),
    }
}

#[test]
fn parse_extern_function() {
    let mut l = lex("ext fun sqrt(x: f64): f64;", "main.nn");
    let p = parse(l.tokens_mut());
    match &p.output().items()[0] {
        Global::Fun(FunKind::Extern(f)) => {
            assert_eq!(f.identifier(), "sqrt");
            assert!(matches!(f.ret(), Type::Numeric(Numeric::F64)));
            assert_eq!(f.params().len(), 1);
            assert_eq!(f.params()[0].id, "x");
            assert!(matches!(f.params()[0].ty, Type::Numeric(Numeric::F64)));
            assert!(!f.params()[0].mutable);
            assert!(f.params()[0].val.is_none());
            assert!(f.body().is_empty());
        },
        _ => panic!("extern function expected"),
    }
    assert_eq!(p.output().items().len(), 1);
    assert!(!p.reporter().has_errors());
}

#[test]
fn parse_extern_function_with_mutable_parameter_and_no_return_type() {
    let mut l = lex("ext fun fill(mut v: i32, n: u8);", "main.nn");
    let p = parse(l.tokens_mut());
    assert_eq!(p.output().items().len(), 1);
    assert!(!p.reporter().has_errors());
    match &p.output().items()[0] {
        Global::Fun(FunKind::Extern(f)) => {
            assert_eq!(f.identifier(), "fill");
            assert!(matches!(f.ret(), Type::Void));
            assert_eq!(f.params().len(), 2);
            assert_eq!(f.params()[0].id, "v");
            assert!(f.params()[0].mutable);
            assert!(matches!(f.params()[0].ty, Type::Numeric(Numeric::I32)));
            assert_eq!(f.params()[1].id, "n");
            assert!(!f.params()[1].mutable);
            assert!(matches!(f.params()[1].ty, Type::Numeric(Numeric::U8)));
            assert!(f.body().is_empty());
        },
        _ => panic!("extern function expected"),
    }
}

fn first_decl_value(source: &str) -> Expr {
    let mut l = lex(source, "main.nn");
    let mut p = parse(l.tokens_mut());
    let items = std::mem::take(&mut p.output_mut().items);
    match items.into_iter().next() {
        Some(Global::Var(v)) => match v.val {
            Some(Value::Expression(e)) => e,
            _ => panic!("expression expected"),
        },
        _ => panic!("declaration expected"),
    }
}

#[test]
fn parse_product_binds_tighter_than_sum() {
    match first_decl_value("var x = 1 + 2 * 3;") {
        Expr::Binary(b) => {
            assert!(matches!(b.op, Operator::Add));
            assert!(matches!(*b.left, Expr::Literal(ref s) if s == "1"));
            match *b.right {
                Expr::Binary(c) => {
                    assert!(matches!(c.op, Operator::Mul));
                    assert!(matches!(*c.left, Expr::Literal(ref s) if s == "2"));
                    assert!(matches!(*c.right, Expr::Literal(ref s) if s == "3"));
                },
                _ => panic!("product expected"),
            }
        },
        _ => panic!("sum expected"),
    }
}

#[test]
fn parse_difference_associates_left() {
    match first_decl_value("var x = 9 - 4 - 2;") {
        Expr::Binary(b) => {
            assert!(matches!(b.op, Operator::Sub));
            assert!(matches!(*b.right, Expr::Literal(ref s) if s == "2"));
            match *b.left {
                Expr::Binary(c) => {
                    assert!(matches!(*c.left, Expr::Literal(ref s) if s == "9"));
                    assert!(matches!(*c.right, Expr::Literal(ref s) if s == "4"));
                },
                _ => panic!("difference expected"),
            }
        },
        _ => panic!("difference expected"),
    }
}

#[test]
fn parse_comparison_binds_looser_than_sum() {
    match first_decl_value("var x = 1 + 2 > 3;") {
        Expr::Boolean(b) => {
            assert!(matches!(b.op, Operator::G));
            assert!(matches!(*b.left, Expr::Binary(_)));
        },
        _ => panic!("comparison expected"),
    }
}

#[test]
fn parse_program_of_declarations() {
    let mut l = lex("var a = 1; var b: u8 = 2 * 3; var c = a;", "main.nn");
    let p = parse(l.tokens_mut());
    let items = p.output().items();
    assert_eq!(items.len(), 3);
    match &items[1] {
        Global::Var(v) => {
            assert_eq!(v.id, "b");
            assert!(matches!(v.ty, Type::Numeric(Numeric::U8)));
            assert!(matches!(&v.val, Some(Value::Expression(Expr::Binary(b))) if matches!(b.op, Operator::Mul)));
        },
        _ => panic!("declaration expected"),
    }
    assert!(matches!(&items[2], Global::Var(v) if v.id == "c"
        && matches!(&v.val, Some(Value::Expression(Expr::Identifier(n))) if n == "a")));
}

#[test]
fn check_reports_mismatched_comparison_operands() {
    let (mut p, mut r) = front("fun main() { var t = true; var x = 5 > t; }");
    let mut tc = Checker::new();
    tc.process(p.output_mut(), r.output());
    let msgs = &tc.reporter().messages;
    assert_eq!(msgs.len(), 2);
    for m in msgs.iter() {
        assert!(matches!(m.kind, Kind::TypeMismatch(Type::Numeric(Numeric::U8), Type::Boolean)));
    }
}

#[test]
fn lex_type_names() {
    let l = lex("u8 u64 i8 i64 f16 f64 usize bool char string", "main.nn");
    let kinds: Vec<&TokenKind> = l.tokens().iter().map(|t| t.kind()).collect();
    assert_eq!(kinds.len(), 10);
    assert!(matches!(kinds[0], TokenKind::Type(Type::Numeric(Numeric::U8))));
    assert!(matches!(kinds[1], TokenKind::Type(Type::Numeric(Numeric::U64))));
    assert!(matches!(kinds[2], TokenKind::Type(Type::Numeric(Numeric::I8))));
    assert!(matches!(kinds[3], TokenKind::Type(Type::Numeric(Numeric::I64))));
    assert!(matches!(kinds[4], TokenKind::Type(Type::Numeric(Numeric::F16))));
    assert!(matches!(kinds[5], TokenKind::Type(Type::Numeric(Numeric::F64))));
    assert!(matches!(kinds[6], TokenKind::Type(Type::Numeric(Numeric::USize))));
    assert!(matches!(kinds[7], TokenKind::Type(Type::Boolean)));
    assert!(matches!(kinds[8], TokenKind::Type(Type::Character)));
    assert!(matches!(kinds[9], TokenKind::Type(Type::StringLiteral)));
}

#[test]
fn check_infers_type_of_answer() {
    let (mut p, mut r) = front("fun main() { var x = 42; mut var z: u8 = 0; }");
    let mut tc = Checker::new();
    tc.process(p.output_mut(), r.output());
    assert!(!tc.reporter().has_errors());
    match &p.output().items()[0] {
        Global::Fun(FunKind::Entry(f)) => {
            assert!(matches!(&f.body()[0], Items::Var(Var::Decl(d)) if matches!(d.ty(), Type::Numeric(Numeric::U8))));
            assert!(matches!(&f.body()[1], Items::Var(Var::Decl(d)) if d.mutable && matches!(d.ty(), Type::Numeric(Numeric::U8))));
        },
        _ => panic!("entry point expected"),
    }
}

#[test]
fn generate_array_from_range() {
    let out = generate("fun main() { var r = 0:10; }");
    assert!(out.contains("\tint sz___b1_r = (int)floor((10 - 0) / 1);\n\tunsigned char* __b1_r = malloc(sz___b1_r * sizeof(unsigned char));\n\tfor (int i = 0; i < sz___b1_r; i++) {\n\t\t__b1_r[i] = 0 + i * 1;\n\t}\n"));
}

#[test]
fn generate_list_declaration() {
    let out = generate("fun main() { var xs: u8[] = [3](1, 2, 3); }");
    assert!(out.contains("\tint sz___b1_xs = 3;\n\tunsigned char __b1_xs[3] = {1, 2, 3};\n"));
}

#[test]
fn generate_list_assignment_over_range() {
    let out = generate("fun main() { mut var xs: u8[] = [3](1, 2, 3); xs[0:2] = 7; }");
    assert!(out.contains("\t__b1_xs[0] = 7;\n\t__b1_xs[1] = 7;\n"));
}

#[test]
fn generate_list_assignment_over_falling_range() {
    let out = generate("fun main() { mut var xs: u8[] = [3](1, 2, 3); xs[2:0] = 5; }");
    assert!(out.contains("\t__b1_xs[1] = 5;\n\t__b1_xs[0] = 5;\n"));
}

#[test]
fn parse_type_takes_what_it_implements() {
    let mut l = lex("type Shape: Area, Draw { }", "main.nn");
    let p = parse(l.tokens_mut());
    match &p.output().items()[0] {
        Global::Class(c) => {
            assert_eq!(c.name, "Shape");
            assert_eq!(c.imp, Some(vec!["Area".to_string(), "Draw".to_string()]));
            assert!(c.body.is_empty());
        },
        _ => panic!("type expected"),
    }
}

#[test]
fn parse_type_member_takes_its_modifiers() {
    let mut l = lex("type Point { mut var x: u8 }", "main.nn");
    let p = parse(l.tokens_mut());
    match &p.output().items()[0] {
        Global::Class(c) => match &c.body[0] {
            gravi::ast::ClassBody::Var(v) => {
                assert_eq!(v.id, "x");
                assert!(v.mutable);
                assert!(matches!(v.par, gravi::ast::Parallelism::Sequential));
            },
            _ => panic!("variable expected"),
        },
        _ => panic!("type expected"),
    }
}

#[test]
fn generate_function_refers_to_its_parameters() {
    let out = generate("fun add(a: i32, b: i32): i32 { ret a + b; } fun main() { }");
    assert!(out.contains("int nn_add(const int a, const int b) {\n\n\treturn a + b;\n"));
}

#[test]
fn parse_mut_marks_one_declaration() {
    let mut l = lex("mut var z: u8 = 0; var w: u8 = 1;", "main.nn");
    let p = parse(l.tokens_mut());
    match (&p.output().items()[0], &p.output().items()[1]) {
        (Global::Var(z), Global::Var(w)) => {
            assert_eq!(z.id, "z");
            assert!(z.mutable);
            assert_eq!(w.id, "w");
            assert!(!w.mutable);
        },
        _ => panic!("two variables expected"),
    }
}

#[test]
fn generate_whole_counting_loop() {
    let out = generate("fun main() { loop i in 0:10 { } }");
    assert!(out.contains("\tfor (int __b1_i = 0; __b1_i <= 9; __b1_i++)\n\t{\n\t\n\t}\n"));
}

#[test]
fn generate_whole_if_else() {
    let out = generate("fun main() { var x = 1; if x > 0 { stop; } else { skip; } }");
    assert!(out.contains("\tif (__b1_x > 0)\n\t{\n\t\tbreak;\n\n\t}\n\telse \n\t{\n\t\tcontinue;\n\n\t}\n"));
}

#[test]
fn lex_reports_character_it_cannot_read() {
    let l = lex("var x = 1 ~ 2;", "main.nn");
    assert!(l.reporter().has_errors());
    assert!(matches!(l.reporter().messages.last().unwrap().kind, Kind::UnknownChar('~')));
    assert_eq!(l.tokens().len(), 4);
}

#[test]
fn lex_reads_whole_clean_line_without_reports() {
    let l = lex("var x = 42;", "main.nn");
    assert!(!l.reporter().has_errors());
    assert_eq!(l.tokens().len(), 5);
    assert!(l.tokens().iter().all(|t| t.line() == 1));
}

#[test]
fn check_each_statement_in_what_the_ones_before_left() {
    let (mut p, mut r) = front("fun main() { var a = 1; mut var b = 2; b = 3; var c = 300; a = 4; }");
    let mut tc = Checker::new();
    tc.process(p.output_mut(), r.output());
    let immutable: Vec<_> = tc
        .reporter()
        .messages
        .iter()
        .filter(|m| matches!(&m.kind, Kind::MutatingImmutable(_)))
        .collect();
    assert_eq!(immutable.len(), 1);
    assert!(matches!(&immutable[0].kind, Kind::MutatingImmutable(n) if n == "a"));
    match &p.output().items()[0] {
        Global::Fun(FunKind::Entry(f)) => match &f.body()[3] {
            Items::Var(Var::Decl(d)) => assert!(matches!(d.ty(), Type::Numeric(Numeric::U16))),
            _ => panic!("declaration expected"),
        },
        _ => panic!("entry point expected"),
    }
}

#[test]
fn parse_function_with_body_keeps_its_head() {
    let mut l = lex("fun twice(mut n: u8): u8 { var m = 1; }", "main.nn");
    let p = parse(l.tokens_mut());
    assert!(!p.reporter().has_errors());
    match &p.output().items()[0] {
        Global::Fun(FunKind::Custom(f)) => {
            assert_eq!(f.params().len(), 1);
            assert_eq!(f.params()[0].id, "n");
            assert!(f.params()[0].mutable);
            assert!(matches!(f.ret(), Type::Numeric(Numeric::U8)));
            assert_eq!(f.body().len(), 1);
        },
        _ => panic!("function expected"),
    }
}

#[test]
fn parse_block_reads_assignments_and_ret() {
    let mut l = lex("fun f(): i32 { mut var a = 1; a = a + 2; ret a; }", "main.nn");
    let p = parse(l.tokens_mut());
    assert!(!p.reporter().has_errors());
    match &p.output().items()[0] {
        Global::Fun(FunKind::Custom(f)) => {
            assert_eq!(f.body().len(), 3);
            match &f.body()[1] {
                Items::Var(Var::Var(v)) => {
                    assert_eq!(v.name, "a");
                    match &v.val {
                        Some(Value::Expression(Expr::Binary(b))) => assert!(matches!(b.op, Operator::Add)),
                        _ => panic!("sum expected"),
                    }
                },
                _ => panic!("assignment expected"),
            }
            match &f.body()[2] {
                Items::Ret(Value::Expression(Expr::Identifier(n))) => assert_eq!(n, "a"),
                _ => panic!("ret expected"),
            }
        },
        _ => panic!("function expected"),
    }
}
