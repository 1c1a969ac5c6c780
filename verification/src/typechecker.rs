//! The type checker: infers the types of declarations and reports mismatches.
use vstd::prelude::*;

use crate::ast::{
    lemma_expr_size_pos, copy_expr, copy_value, expr_size, ifelse_size, item_size, items_size, lemma_items_size_first,
    lemma_rows_size_first, lemma_values_size_first, rows_size, same_expr, value_size, values_size, BinaryOp, Expr, FunKind,
    Function,
    Global, IfElse, Items, List, Program, Range, Unary, Value, Var, VarDecl, Variable,
};
use crate::error::{GraviError, Kind, Reporter, Severity};
use crate::lexer::{lemma_prefix_trans, prefix_of, type_eq, Numeric, Operator, Type};
use crate::numeric::{all_digits, digits_value, i64_parse, parse_i64, parse_u64, u64_parse};
use crate::paint::bright_blue_bold;
use crate::symbol::{lookup, opened, resolve, Scope, ScopeKind, Symbol, SymbolTable, VariableSym};
use crate::text::{concat2, owned, str_chars, str_contains, str_eq};

verus! {

/// How the bounds of a numeric type are read.
#[derive(PartialEq, Eq, Structural, Clone, Copy)]
pub enum NumericKind {
    Unsigned,
    Signed,
    Float,
}

/// Whether a literal, read as a floating-point number (0 when it does not read as one),
/// lies within the bounds `low` and `high`, themselves read as floating-point numbers.
/// Floating-point arithmetic is done outside this library: the program that drives the
/// checker fills this in for each literal with a decimal point.
pub struct FloatFit {
    pub text: String,
    pub low: String,
    pub high: String,
    pub fits: bool,
}

/// The recorded answer for a literal and bounds; a literal without an answer counts as
/// fitting.
pub open spec fn float_fits(table: Seq<FloatFit>, val: Seq<char>, low: Seq<char>, high: Seq<char>) -> bool
    decreases table.len(),
{
    if table.len() == 0 {
        true
    } else if table[0].text@ == val && table[0].low@ == low && table[0].high@ == high {
        table[0].fits
    } else {
        float_fits(table.drop_first(), val, low, high)
    }
}

/// Whether the literal lies within the bounds, read in the given way. Integer readings
/// reject a literal with a decimal point and read an unreadable literal as 0.
pub open spec fn within(table: Seq<FloatFit>, val: Seq<char>, low: Seq<char>, high: Seq<char>, kind: NumericKind) -> bool {
    match kind {
        NumericKind::Unsigned => !val.contains('.') && {
            let p = match u64_parse(val) { Some(n) => n as int, None => 0 };
            let l = match u64_parse(low) { Some(n) => n as int, None => 0 };
            let u = match u64_parse(high) { Some(n) => n as int, None => 0 };
            l <= p <= u
        },
        NumericKind::Signed => !val.contains('.') && {
            let p = match i64_parse(val) { Some(n) => n as int, None => 0 };
            let l = match i64_parse(low) { Some(n) => n as int, None => 0 };
            let u = match i64_parse(high) { Some(n) => n as int, None => 0 };
            l <= p <= u
        },
        NumericKind::Float => float_fits(table, val, low, high),
    }
}

/// Whether the literal fits the given numeric type.
pub open spec fn fits_numeric(table: Seq<FloatFit>, val: Seq<char>, n: Numeric) -> bool {
    match n {
        Numeric::U8 => within(table, val, "0"@, "255"@, NumericKind::Unsigned),
        Numeric::U16 => within(table, val, "0"@, "65535"@, NumericKind::Unsigned),
        Numeric::U32 => within(table, val, "0"@, "4294967295"@, NumericKind::Unsigned),
        Numeric::U64 => within(table, val, "0"@, "18446744073709551615"@, NumericKind::Unsigned),
        Numeric::I8 => within(table, val, "-128"@, "127"@, NumericKind::Signed),
        Numeric::I16 => within(table, val, "-32768"@, "32767"@, NumericKind::Signed),
        Numeric::I32 => within(table, val, "-2147483648"@, "2147483647"@, NumericKind::Signed),
        Numeric::I64 => within(table, val, "-9223372036854775808"@, "9223372036854775807"@, NumericKind::Signed),
        Numeric::F16 => within(table, val, "-65504.0"@, "65504.0"@, NumericKind::Float),
        Numeric::F32 => within(table, val, "-3.4e38"@, "3.4e38"@, NumericKind::Float),
        Numeric::F64 => within(table, val, "-1.8e308"@, "1.8e308"@, NumericKind::Float),
        Numeric::USize => false,
    }
}

/// The first numeric type, from the smallest unsigned one to the widest float, that
/// the literal fits; `none` if it fits none.
pub open spec fn smallest_numeric(table: Seq<FloatFit>, val: Seq<char>) -> Type {
    if fits_numeric(table, val, Numeric::U8) { Type::Numeric(Numeric::U8) }
    else if fits_numeric(table, val, Numeric::U16) { Type::Numeric(Numeric::U16) }
    else if fits_numeric(table, val, Numeric::U32) { Type::Numeric(Numeric::U32) }
    else if fits_numeric(table, val, Numeric::U64) { Type::Numeric(Numeric::U64) }
    else if fits_numeric(table, val, Numeric::I8) { Type::Numeric(Numeric::I8) }
    else if fits_numeric(table, val, Numeric::I16) { Type::Numeric(Numeric::I16) }
    else if fits_numeric(table, val, Numeric::I32) { Type::Numeric(Numeric::I32) }
    else if fits_numeric(table, val, Numeric::I64) { Type::Numeric(Numeric::I64) }
    else if fits_numeric(table, val, Numeric::F16) { Type::Numeric(Numeric::F16) }
    else if fits_numeric(table, val, Numeric::F32) { Type::Numeric(Numeric::F32) }
    else if fits_numeric(table, val, Numeric::F64) { Type::Numeric(Numeric::F64) }
    else { Type::Void }
}

/// The type of a numeric literal where `expected` is expected: the expected numeric type
/// if the literal fits it, else the smallest that it fits; with nothing expected, the
/// smallest; with a non-numeric type expected, `none`.
pub open spec fn literal_type(table: Seq<FloatFit>, val: Seq<char>, expected: Type) -> Type {
    match expected {
        Type::Numeric(n) => if fits_numeric(table, val, n) { Type::Numeric(n) } else { smallest_numeric(table, val) },
        Type::Void => smallest_numeric(table, val),
        _ => Type::Void,
    }
}

/// The numeric types in the order a literal tries them with nothing expected.
pub open spec fn literal_order() -> Seq<Numeric> {
    seq![
        Numeric::U8,
        Numeric::U16,
        Numeric::U32,
        Numeric::U64,
        Numeric::I8,
        Numeric::I16,
        Numeric::I32,
        Numeric::I64,
        Numeric::F16,
        Numeric::F32,
        Numeric::F64,
    ]
}

/// With nothing expected a numeric literal takes the first type of `literal_order` that
/// it fits, and `none` where it fits none; with a numeric type expected, that type where
/// the literal fits it, else what it takes with nothing expected; with any other type
/// expected, `none`.
pub proof fn law_literal_type_first_fit(table: Seq<FloatFit>, val: Seq<char>, expected: Type)
    ensures
        forall|i: int|
            0 <= i < literal_order().len() && fits_numeric(table, val, #[trigger] literal_order()[i]) && (forall|
                j: int,
            | 0 <= j < i ==> !fits_numeric(table, val, literal_order()[j])) ==> literal_type(table, val, Type::Void)
                == Type::Numeric(literal_order()[i]),
        (forall|i: int| 0 <= i < literal_order().len() ==> !fits_numeric(table, val, #[trigger] literal_order()[i]))
            ==> literal_type(table, val, Type::Void) == Type::Void,
        expected matches Type::Numeric(n) ==> literal_type(table, val, expected) == (if fits_numeric(table, val, n) {
            expected
        } else {
            literal_type(table, val, Type::Void)
        }),
        !(expected is Numeric) && !(expected is Void) ==> literal_type(table, val, expected) == Type::Void,
{
    let o = literal_order();
    assert(o.len() == 11);
    assert(o[0] == Numeric::U8 && o[1] == Numeric::U16 && o[2] == Numeric::U32 && o[3] == Numeric::U64);
    assert(o[4] == Numeric::I8 && o[5] == Numeric::I16 && o[6] == Numeric::I32 && o[7] == Numeric::I64);
    assert(o[8] == Numeric::F16 && o[9] == Numeric::F32 && o[10] == Numeric::F64);
    assert forall|i: int|
        0 <= i < o.len() && fits_numeric(table, val, #[trigger] o[i]) && (forall|j: int|
            0 <= j < i ==> !fits_numeric(table, val, o[j])) implies literal_type(table, val, Type::Void)
        == Type::Numeric(o[i]) by {
        if i > 0 {
            assert(!fits_numeric(table, val, o[0]));
        }
        if i > 1 {
            assert(!fits_numeric(table, val, o[1]));
        }
        if i > 2 {
            assert(!fits_numeric(table, val, o[2]));
        }
        if i > 3 {
            assert(!fits_numeric(table, val, o[3]));
        }
        if i > 4 {
            assert(!fits_numeric(table, val, o[4]));
        }
        if i > 5 {
            assert(!fits_numeric(table, val, o[5]));
        }
        if i > 6 {
            assert(!fits_numeric(table, val, o[6]));
        }
        if i > 7 {
            assert(!fits_numeric(table, val, o[7]));
        }
        if i > 8 {
            assert(!fits_numeric(table, val, o[8]));
        }
        if i > 9 {
            assert(!fits_numeric(table, val, o[9]));
        }
    }
    if forall|i: int| 0 <= i < o.len() ==> !fits_numeric(table, val, #[trigger] o[i]) {
        assert(!fits_numeric(table, val, o[0]) && !fits_numeric(table, val, o[1]) && !fits_numeric(table, val, o[2]));
        assert(!fits_numeric(table, val, o[3]) && !fits_numeric(table, val, o[4]) && !fits_numeric(table, val, o[5]));
        assert(!fits_numeric(table, val, o[6]) && !fits_numeric(table, val, o[7]) && !fits_numeric(table, val, o[8]));
        assert(!fits_numeric(table, val, o[9]) && !fits_numeric(table, val, o[10]));
    }
}

/// An unsigned integer type, `usize` included.
pub open spec fn unsigned(n: Numeric) -> bool {
    n == Numeric::USize || n == Numeric::U8 || n == Numeric::U16 || n == Numeric::U32 || n == Numeric::U64
}

pub open spec fn signed(n: Numeric) -> bool {
    n == Numeric::I8 || n == Numeric::I16 || n == Numeric::I32 || n == Numeric::I64
}

pub open spec fn floating(n: Numeric) -> bool {
    n == Numeric::F16 || n == Numeric::F32 || n == Numeric::F64
}

/// Whether a value of type `found` may stand where `expected` is expected: the same type,
/// numeric types of the same family, a character for a `u8` or for a string, and back.
pub open spec fn compatible(found: Type, expected: Type) -> bool {
    type_eq(found, expected) || match (found, expected) {
        (Type::Numeric(f), Type::Numeric(e)) => (unsigned(f) && unsigned(e)) || (signed(f) && signed(e)) || (
        floating(f) && floating(e)),
        (Type::Character, Type::Numeric(Numeric::U8)) => true,
        (Type::Numeric(Numeric::U8), Type::Character) => true,
        (Type::Character, Type::StringLiteral) => true,
        (Type::StringLiteral, Type::Character) => true,
        _ => false,
    }
}

/// The signed type of the same width as an unsigned fixed-width type; any other type
/// stays as it is.
pub open spec fn signed_of(t: Type) -> Type {
    match t {
        Type::Numeric(Numeric::U8) => Type::Numeric(Numeric::I8),
        Type::Numeric(Numeric::U16) => Type::Numeric(Numeric::I16),
        Type::Numeric(Numeric::U32) => Type::Numeric(Numeric::I32),
        Type::Numeric(Numeric::U64) => Type::Numeric(Numeric::I64),
        _ => t,
    }
}

/// The return type of the function `id` here; `none` if `id` is not a function.
pub open spec fn call_type(scopes: Seq<crate::symbol::Scope>, id: Seq<char>) -> Type {
    match resolve(scopes, id) {
        Some(Symbol::Function(f)) => f.ret,
        _ => Type::Void,
    }
}

/// Every type may stand where it is itself expected.
pub proof fn law_compatible_reflexive(t: Type)
    ensures
        compatible(t, t),
{
}

/// Compatibility goes both ways.
pub proof fn law_compatible_symmetric(a: Type, b: Type)
    ensures
        compatible(a, b) == compatible(b, a),
{
}

/// Two numeric types are compatible just when they are the same type or of one family:
/// both unsigned integers (`u8`, `u16`, `u32`, `u64`, `usize`), both signed integers
/// (`i8`, `i16`, `i32`, `i64`) or both floats (`f16`, `f32`, `f64`). So a signed and an
/// unsigned integer type are never compatible, nor an integer and a float type.
pub proof fn law_numeric_compatible_families(f: Numeric, e: Numeric)
    ensures
        ({
            let uf = f == Numeric::U8 || f == Numeric::U16 || f == Numeric::U32 || f == Numeric::U64 || f
                == Numeric::USize;
            let ue = e == Numeric::U8 || e == Numeric::U16 || e == Numeric::U32 || e == Numeric::U64 || e
                == Numeric::USize;
            let sf = f == Numeric::I8 || f == Numeric::I16 || f == Numeric::I32 || f == Numeric::I64;
            let se = e == Numeric::I8 || e == Numeric::I16 || e == Numeric::I32 || e == Numeric::I64;
            let ff = f == Numeric::F16 || f == Numeric::F32 || f == Numeric::F64;
            let fe = e == Numeric::F16 || e == Numeric::F32 || e == Numeric::F64;
            &&& compatible(Type::Numeric(f), Type::Numeric(e)) == (f == e || (uf && ue) || (sf && se) || (ff && fe))
            &&& (uf && se) || (sf && ue) ==> !compatible(Type::Numeric(f), Type::Numeric(e))
            &&& (uf || sf) && fe ==> !compatible(Type::Numeric(f), Type::Numeric(e))
        }),
{
}

/// A sum, product or remainder of a signed and an unsigned integer operand is reported as
/// a type mismatch between the two operand types, after what the operands report.
pub proof fn law_mixed_sign_operands_mismatch(
    scopes: Seq<Scope>,
    b: BinaryOp,
    expected: Type,
    table: Seq<FloatFit>,
    msgs: Seq<GraviError>,
    f: Numeric,
    e: Numeric,
)
    requires
        b.op == Operator::Add || b.op == Operator::Mul || b.op == Operator::Mod,
        expr_type(scopes, *b.left, expected, table) == Type::Numeric(f),
        expr_type(scopes, *b.right, Type::Numeric(f), table) == Type::Numeric(e),
        ((f == Numeric::U8 || f == Numeric::U16 || f == Numeric::U32 || f == Numeric::U64 || f == Numeric::USize) && (e
            == Numeric::I8 || e == Numeric::I16 || e == Numeric::I32 || e == Numeric::I64)) || ((f == Numeric::I8 || f
            == Numeric::I16 || f == Numeric::I32 || f == Numeric::I64) && (e == Numeric::U8 || e == Numeric::U16 || e
            == Numeric::U32 || e == Numeric::U64 || e == Numeric::USize)),
    ensures
        expr_report(scopes, Expr::Binary(b), expected, table, msgs) matches Some(m) ==> m.len() > 0 && m.last()
            == plain(Kind::TypeMismatch(Type::Numeric(f), Type::Numeric(e))),
{
    law_numeric_compatible_families(e, f);
}

/// The signed counterpart of an unsigned fixed-width type has its width: `u8` gives `i8`,
/// `u16` gives `i16`, `u32` gives `i32`, `u64` gives `i64`; a signed or float type is
/// its own counterpart.
pub proof fn law_signed_counterparts(n: Numeric)
    ensures
        signed_of(Type::Numeric(Numeric::U8)) == Type::Numeric(Numeric::I8),
        signed_of(Type::Numeric(Numeric::U16)) == Type::Numeric(Numeric::I16),
        signed_of(Type::Numeric(Numeric::U32)) == Type::Numeric(Numeric::I32),
        signed_of(Type::Numeric(Numeric::U64)) == Type::Numeric(Numeric::I64),
        n == Numeric::I8 || n == Numeric::I16 || n == Numeric::I32 || n == Numeric::I64 || n == Numeric::F16 || n
            == Numeric::F32 || n == Numeric::F64 ==> signed_of(Type::Numeric(n)) == Type::Numeric(n),
{
}

proof fn lemma_digits_push(s: Seq<char>, c: char)
    ensures
        digits_value(s.push(c)) == digits_value(s) * 10 + ((c as nat) - ('0' as nat)) as nat,
{
    assert(s.push(c).drop_last() =~= s);
}

/// The bounds written in the integer types' ranges read as the numbers they spell.
proof fn lemma_bound_values()
    ensures
        u64_parse("0"@) == Some(0u64),
        u64_parse("255"@) == Some(255u64),
        u64_parse("65535"@) == Some(65535u64),
        u64_parse("4294967295"@) == Some(4294967295u64),
        u64_parse("18446744073709551615"@) == Some(18446744073709551615u64),
        i64_parse("-128"@) == Some(-128i64),
        i64_parse("127"@) == Some(127i64),
        i64_parse("-32768"@) == Some(-32768i64),
        i64_parse("32767"@) == Some(32767i64),
        i64_parse("-2147483648"@) == Some(-2147483648i64),
        i64_parse("2147483647"@) == Some(2147483647i64),
        i64_parse("-9223372036854775808"@) == Some(-9223372036854775808i64),
        i64_parse("9223372036854775807"@) == Some(9223372036854775807i64),
{
    reveal_strlit("0");
    lemma_digits_push(Seq::<char>::empty(), '0');
    let d0 = Seq::<char>::empty().push('0');
    assert(digits_value(d0) == 0);
    assert(all_digits(d0));
    assert("0"@ =~= d0);
    assert("0"@[0] != '+' && "0"@[0] != '-');
    reveal_strlit("255");
    lemma_digits_push(Seq::<char>::empty(), '2');
    let d1 = Seq::<char>::empty().push('2');
    lemma_digits_push(d1, '5');
    let d2 = d1.push('5');
    lemma_digits_push(d2, '5');
    let d3 = d2.push('5');
    assert(digits_value(d3) == 255);
    assert(all_digits(d3));
    assert("255"@ =~= d3);
    assert("255"@[0] != '+' && "255"@[0] != '-');
    reveal_strlit("65535");
    lemma_digits_push(Seq::<char>::empty(), '6');
    let d4 = Seq::<char>::empty().push('6');
    lemma_digits_push(d4, '5');
    let d5 = d4.push('5');
    lemma_digits_push(d5, '5');
    let d6 = d5.push('5');
    lemma_digits_push(d6, '3');
    let d7 = d6.push('3');
    lemma_digits_push(d7, '5');
    let d8 = d7.push('5');
    assert(digits_value(d8) == 65535);
    assert(all_digits(d8));
    assert("65535"@ =~= d8);
    assert("65535"@[0] != '+' && "65535"@[0] != '-');
    reveal_strlit("4294967295");
    lemma_digits_push(Seq::<char>::empty(), '4');
    let d9 = Seq::<char>::empty().push('4');
    lemma_digits_push(d9, '2');
    let d10 = d9.push('2');
    lemma_digits_push(d10, '9');
    let d11 = d10.push('9');
    lemma_digits_push(d11, '4');
    let d12 = d11.push('4');
    lemma_digits_push(d12, '9');
    let d13 = d12.push('9');
    lemma_digits_push(d13, '6');
    let d14 = d13.push('6');
    lemma_digits_push(d14, '7');
    let d15 = d14.push('7');
    lemma_digits_push(d15, '2');
    let d16 = d15.push('2');
    lemma_digits_push(d16, '9');
    let d17 = d16.push('9');
    lemma_digits_push(d17, '5');
    let d18 = d17.push('5');
    assert(digits_value(d18) == 4294967295);
    assert(all_digits(d18));
    assert("4294967295"@ =~= d18);
    assert("4294967295"@[0] != '+' && "4294967295"@[0] != '-');
    reveal_strlit("18446744073709551615");
    lemma_digits_push(Seq::<char>::empty(), '1');
    let d19 = Seq::<char>::empty().push('1');
    lemma_digits_push(d19, '8');
    let d20 = d19.push('8');
    lemma_digits_push(d20, '4');
    let d21 = d20.push('4');
    lemma_digits_push(d21, '4');
    let d22 = d21.push('4');
    lemma_digits_push(d22, '6');
    let d23 = d22.push('6');
    lemma_digits_push(d23, '7');
    let d24 = d23.push('7');
    lemma_digits_push(d24, '4');
    let d25 = d24.push('4');
    lemma_digits_push(d25, '4');
    let d26 = d25.push('4');
    lemma_digits_push(d26, '0');
    let d27 = d26.push('0');
    lemma_digits_push(d27, '7');
    let d28 = d27.push('7');
    lemma_digits_push(d28, '3');
    let d29 = d28.push('3');
    lemma_digits_push(d29, '7');
    let d30 = d29.push('7');
    lemma_digits_push(d30, '0');
    let d31 = d30.push('0');
    lemma_digits_push(d31, '9');
    let d32 = d31.push('9');
    lemma_digits_push(d32, '5');
    let d33 = d32.push('5');
    lemma_digits_push(d33, '5');
    let d34 = d33.push('5');
    lemma_digits_push(d34, '1');
    let d35 = d34.push('1');
    lemma_digits_push(d35, '6');
    let d36 = d35.push('6');
    lemma_digits_push(d36, '1');
    let d37 = d36.push('1');
    lemma_digits_push(d37, '5');
    let d38 = d37.push('5');
    assert(digits_value(d38) == 18446744073709551615);
    assert(all_digits(d38));
    assert("18446744073709551615"@ =~= d38);
    assert("18446744073709551615"@[0] != '+' && "18446744073709551615"@[0] != '-');
    reveal_strlit("-128");
    lemma_digits_push(Seq::<char>::empty(), '1');
    let d39 = Seq::<char>::empty().push('1');
    lemma_digits_push(d39, '2');
    let d40 = d39.push('2');
    lemma_digits_push(d40, '8');
    let d41 = d40.push('8');
    assert(digits_value(d41) == 128);
    assert(all_digits(d41));
    assert("-128"@.drop_first() =~= d41);
    assert("-128"@[0] == '-');
    reveal_strlit("127");
    lemma_digits_push(Seq::<char>::empty(), '1');
    let d42 = Seq::<char>::empty().push('1');
    lemma_digits_push(d42, '2');
    let d43 = d42.push('2');
    lemma_digits_push(d43, '7');
    let d44 = d43.push('7');
    assert(digits_value(d44) == 127);
    assert(all_digits(d44));
    assert("127"@ =~= d44);
    assert("127"@[0] != '+' && "127"@[0] != '-');
    reveal_strlit("-32768");
    lemma_digits_push(Seq::<char>::empty(), '3');
    let d45 = Seq::<char>::empty().push('3');
    lemma_digits_push(d45, '2');
    let d46 = d45.push('2');
    lemma_digits_push(d46, '7');
    let d47 = d46.push('7');
    lemma_digits_push(d47, '6');
    let d48 = d47.push('6');
    lemma_digits_push(d48, '8');
    let d49 = d48.push('8');
    assert(digits_value(d49) == 32768);
    assert(all_digits(d49));
    assert("-32768"@.drop_first() =~= d49);
    assert("-32768"@[0] == '-');
    reveal_strlit("32767");
    lemma_digits_push(Seq::<char>::empty(), '3');
    let d50 = Seq::<char>::empty().push('3');
    lemma_digits_push(d50, '2');
    let d51 = d50.push('2');
    lemma_digits_push(d51, '7');
    let d52 = d51.push('7');
    lemma_digits_push(d52, '6');
    let d53 = d52.push('6');
    lemma_digits_push(d53, '7');
    let d54 = d53.push('7');
    assert(digits_value(d54) == 32767);
    assert(all_digits(d54));
    assert("32767"@ =~= d54);
    assert("32767"@[0] != '+' && "32767"@[0] != '-');
    reveal_strlit("-2147483648");
    lemma_digits_push(Seq::<char>::empty(), '2');
    let d55 = Seq::<char>::empty().push('2');
    lemma_digits_push(d55, '1');
    let d56 = d55.push('1');
    lemma_digits_push(d56, '4');
    let d57 = d56.push('4');
    lemma_digits_push(d57, '7');
    let d58 = d57.push('7');
    lemma_digits_push(d58, '4');
    let d59 = d58.push('4');
    lemma_digits_push(d59, '8');
    let d60 = d59.push('8');
    lemma_digits_push(d60, '3');
    let d61 = d60.push('3');
    lemma_digits_push(d61, '6');
    let d62 = d61.push('6');
    lemma_digits_push(d62, '4');
    let d63 = d62.push('4');
    lemma_digits_push(d63, '8');
    let d64 = d63.push('8');
    assert(digits_value(d64) == 2147483648);
    assert(all_digits(d64));
    assert("-2147483648"@.drop_first() =~= d64);
    assert("-2147483648"@[0] == '-');
    reveal_strlit("2147483647");
    lemma_digits_push(Seq::<char>::empty(), '2');
    let d65 = Seq::<char>::empty().push('2');
    lemma_digits_push(d65, '1');
    let d66 = d65.push('1');
    lemma_digits_push(d66, '4');
    let d67 = d66.push('4');
    lemma_digits_push(d67, '7');
    let d68 = d67.push('7');
    lemma_digits_push(d68, '4');
    let d69 = d68.push('4');
    lemma_digits_push(d69, '8');
    let d70 = d69.push('8');
    lemma_digits_push(d70, '3');
    let d71 = d70.push('3');
    lemma_digits_push(d71, '6');
    let d72 = d71.push('6');
    lemma_digits_push(d72, '4');
    let d73 = d72.push('4');
    lemma_digits_push(d73, '7');
    let d74 = d73.push('7');
    assert(digits_value(d74) == 2147483647);
    assert(all_digits(d74));
    assert("2147483647"@ =~= d74);
    assert("2147483647"@[0] != '+' && "2147483647"@[0] != '-');
    reveal_strlit("-9223372036854775808");
    lemma_digits_push(Seq::<char>::empty(), '9');
    let d75 = Seq::<char>::empty().push('9');
    lemma_digits_push(d75, '2');
    let d76 = d75.push('2');
    lemma_digits_push(d76, '2');
    let d77 = d76.push('2');
    lemma_digits_push(d77, '3');
    let d78 = d77.push('3');
    lemma_digits_push(d78, '3');
    let d79 = d78.push('3');
    lemma_digits_push(d79, '7');
    let d80 = d79.push('7');
    lemma_digits_push(d80, '2');
    let d81 = d80.push('2');
    lemma_digits_push(d81, '0');
    let d82 = d81.push('0');
    lemma_digits_push(d82, '3');
    let d83 = d82.push('3');
    lemma_digits_push(d83, '6');
    let d84 = d83.push('6');
    lemma_digits_push(d84, '8');
    let d85 = d84.push('8');
    lemma_digits_push(d85, '5');
    let d86 = d85.push('5');
    lemma_digits_push(d86, '4');
    let d87 = d86.push('4');
    lemma_digits_push(d87, '7');
    let d88 = d87.push('7');
    lemma_digits_push(d88, '7');
    let d89 = d88.push('7');
    lemma_digits_push(d89, '5');
    let d90 = d89.push('5');
    lemma_digits_push(d90, '8');
    let d91 = d90.push('8');
    lemma_digits_push(d91, '0');
    let d92 = d91.push('0');
    lemma_digits_push(d92, '8');
    let d93 = d92.push('8');
    assert(digits_value(d93) == 9223372036854775808);
    assert(all_digits(d93));
    assert("-9223372036854775808"@.drop_first() =~= d93);
    assert("-9223372036854775808"@[0] == '-');
    reveal_strlit("9223372036854775807");
    lemma_digits_push(Seq::<char>::empty(), '9');
    let d94 = Seq::<char>::empty().push('9');
    lemma_digits_push(d94, '2');
    let d95 = d94.push('2');
    lemma_digits_push(d95, '2');
    let d96 = d95.push('2');
    lemma_digits_push(d96, '3');
    let d97 = d96.push('3');
    lemma_digits_push(d97, '3');
    let d98 = d97.push('3');
    lemma_digits_push(d98, '7');
    let d99 = d98.push('7');
    lemma_digits_push(d99, '2');
    let d100 = d99.push('2');
    lemma_digits_push(d100, '0');
    let d101 = d100.push('0');
    lemma_digits_push(d101, '3');
    let d102 = d101.push('3');
    lemma_digits_push(d102, '6');
    let d103 = d102.push('6');
    lemma_digits_push(d103, '8');
    let d104 = d103.push('8');
    lemma_digits_push(d104, '5');
    let d105 = d104.push('5');
    lemma_digits_push(d105, '4');
    let d106 = d105.push('4');
    lemma_digits_push(d106, '7');
    let d107 = d106.push('7');
    lemma_digits_push(d107, '7');
    let d108 = d107.push('7');
    lemma_digits_push(d108, '5');
    let d109 = d108.push('5');
    lemma_digits_push(d109, '8');
    let d110 = d109.push('8');
    lemma_digits_push(d110, '0');
    let d111 = d110.push('0');
    lemma_digits_push(d111, '7');
    let d112 = d111.push('7');
    assert(digits_value(d112) == 9223372036854775807);
    assert(all_digits(d112));
    assert("9223372036854775807"@ =~= d112);
    assert("9223372036854775807"@[0] != '+' && "9223372036854775807"@[0] != '-');
}

/// A literal without a decimal point fits an integer type just when the number it reads
/// as lies in the type's range: `u8` from 0 to 255, `u16` to 65535, `u32` to 4294967295,
/// `u64` to 18446744073709551615; `i8` from -128 to 127, `i16` from -32768 to 32767, `i32`
/// from -2147483648 to 2147483647, `i64` from -9223372036854775808 to
/// 9223372036854775807. An unreadable literal reads as 0; nothing fits `usize`.
pub proof fn law_integer_ranges(table: Seq<FloatFit>, val: Seq<char>)
    ensures
        ({
            let pu = match u64_parse(val) {
                Some(n) => n as int,
                None => 0,
            };
            let ps = match i64_parse(val) {
                Some(n) => n as int,
                None => 0,
            };
            let whole = !val.contains('.');
            &&& fits_numeric(table, val, Numeric::U8) == (whole && 0 <= pu <= 255)
            &&& fits_numeric(table, val, Numeric::U16) == (whole && 0 <= pu <= 65535)
            &&& fits_numeric(table, val, Numeric::U32) == (whole && 0 <= pu <= 4294967295)
            &&& fits_numeric(table, val, Numeric::U64) == (whole && 0 <= pu <= 18446744073709551615)
            &&& fits_numeric(table, val, Numeric::I8) == (whole && -128 <= ps <= 127)
            &&& fits_numeric(table, val, Numeric::I16) == (whole && -32768 <= ps <= 32767)
            &&& fits_numeric(table, val, Numeric::I32) == (whole && -2147483648 <= ps <= 2147483647)
            &&& fits_numeric(table, val, Numeric::I64) == (whole && -9223372036854775808 <= ps
                <= 9223372036854775807)
            &&& !fits_numeric(table, val, Numeric::USize)
        }),
{
    lemma_bound_values();
}

/// Converting to the signed counterpart twice is converting once.
pub proof fn law_signed_of_idempotent(t: Type)
    ensures
        signed_of(signed_of(t)) == signed_of(t),
{
}

/// The numeric type inferred for a literal is one it fits.
pub proof fn law_literal_fits_its_type(table: Seq<FloatFit>, val: Seq<char>, expected: Type)
    ensures
        literal_type(table, val, expected) matches Type::Numeric(n) ==> fits_numeric(table, val, n),
{
}

/// A literal that fits the numeric type expected gets that type.
pub proof fn law_literal_keeps_fitting_type(table: Seq<FloatFit>, val: Seq<char>, n: Numeric)
    requires
        fits_numeric(table, val, n),
    ensures
        literal_type(table, val, Type::Numeric(n)) == Type::Numeric(n),
{
}

/// The variable that `id` denotes here, if it denotes a variable.
pub open spec fn var_of(scopes: Seq<Scope>, id: Seq<char>) -> Option<VariableSym> {
    match resolve(scopes, id) {
        Some(Symbol::Variable(v)) => Some(v),
        _ => None,
    }
}

/// The type of a use of the list `id` with the given index rows: the variable's type,
/// except that one plain index into a string gives a character; nothing for a name that
/// is no variable.
pub open spec fn list_use_type(scopes: Seq<Scope>, id: Seq<char>, rows: Seq<Vec<Value>>) -> Type {
    let t = match var_of(scopes, id) {
        Some(v) => v.ty,
        None => Type::Void,
    };
    if t is StringLiteral && rows.len() > 0 && rows[0]@.len() == 1 && !(rows[0]@[0] matches Value::Expression(
        Expr::Range(_),
    )) {
        Type::Character
    } else {
        t
    }
}

/// A diagnostic of the given kind, with the default severity and no place or hint.
pub open spec fn plain(kind: Kind) -> GraviError {
    GraviError { kind, severity: Severity::Error, file: None, line: None, col: None, hint: None }
}

/// The type of an identifier: that of the variable it denotes, `none` otherwise.
pub open spec fn ident_type(scopes: Seq<Scope>, id: Seq<char>) -> Type {
    match var_of(scopes, id) {
        Some(v) => v.ty,
        None => Type::Void,
    }
}

/// The diagnostics after checking the identifier `id` where `expected` is expected: one
/// if it names a variable without a value, one if its type does not fit.
pub open spec fn ident_report(
    scopes: Seq<Scope>,
    id: String,
    expected: Type,
    msgs: Seq<GraviError>,
) -> Seq<GraviError> {
    let t = ident_type(scopes, id@);
    let m1 = match var_of(scopes, id@) {
        Some(v) => if v.value is None { msgs.push(plain(Kind::UninitializedVariable(id))) } else { msgs },
        None => msgs,
    };
    if !(expected is Void) && !compatible(t, expected) {
        m1.push(plain(Kind::TypeMismatch(expected, t)))
    } else {
        m1
    }
}

/// The type of an indexed variable `id[..]`, and the diagnostics after it: an undeclared
/// or untyped variable is reported and typed `none`.
pub open spec fn index_outcome(scopes: Seq<Scope>, id: String, msgs: Seq<GraviError>) -> (Type, Seq<GraviError>) {
    match var_of(scopes, id@) {
        Some(v) => if v.ty is Void {
            (Type::Void, msgs.push(plain(Kind::UntypedVariable(id))))
        } else {
            (v.ty, msgs)
        },
        None => (Type::Void, msgs.push(plain(Kind::UndeclaredVariable(id)))),
    }
}

/// The type that a value of a kind that needs no further checking has: string literals,
/// booleans, characters, the empty value, loops and calls (by the callee's return type).
pub open spec fn leaf_value_type(v: Value, scopes: Seq<Scope>) -> Option<Type> {
    match v {
        Value::StringLiteral(_) => Some(Type::StringLiteral),
        Value::Boolean(_) => Some(Type::Boolean),
        Value::Char(_) => Some(Type::Character),
        Value::Null => Some(Type::Void),
        Value::Loop(_) => Some(Type::Void),
        Value::Call(id, _) => Some(call_type(scopes, id@)),
        _ => None,
    }
}

/// The type of an expression of a kind that needs no further checking: numeric literals
/// (by `literal_type`, or `usize` where a `usize` is expected), characters, and the kinds
/// the checker leaves untyped.
pub open spec fn leaf_expr_type(e: Expr, expected: Type, table: Seq<FloatFit>) -> Option<Type> {
    match e {
        Expr::Literal(s) => Some(
            if expected == Type::Numeric(Numeric::USize) {
                Type::Numeric(Numeric::USize)
            } else {
                literal_type(table, s@, expected)
            },
        ),
        Expr::CharLiteral(_) => Some(Type::Character),
        Expr::StringLiteral(_) => Some(Type::Void),
        Expr::Cast(_) => Some(Type::Void),
        Expr::Null => Some(Type::Void),
        _ => None,
    }
}

/// The type the checker gives an expression where `expected` is expected, in the given
/// scopes, reading float literals by `table`:
/// - a name, the type of its variable; an indexing, the type of the list;
/// - a range, the common type of its bounds and step (`none` where they differ);
/// - an arithmetic operation, the type of its left operand, or where that is `none`, that
///   of its right operand (checked against the left one's type), made signed for `-` and
///   `f32` for `/`;
/// - a comparison or logical operation, `bool`;
/// - a negation where an unsigned type is expected, the signed type of its operand for
///   `-` and `none` otherwise; elsewhere the type of its operand (checked as a `bool`
///   for `!`);
/// - a call, the return type of the callee; a grouping, the type of what it groups;
/// - the rest as `leaf_expr_type` gives it.
pub open spec fn expr_type(scopes: Seq<Scope>, e: Expr, expected: Type, table: Seq<FloatFit>) -> Type
    decreases e,
{
    match e {
        Expr::Identifier(id) => ident_type(scopes, id@),
        Expr::Index(id, _) => index_outcome(scopes, id, Seq::empty()).0,
        Expr::Range(r) => {
            let st = expr_type(scopes, *r.start, expected, table);
            let en = expr_type(scopes, *r.end, expected, table);
            match r.step {
                Some(x) => {
                    let t = expr_type(scopes, *x, expected, table);
                    if type_eq(st, t) && type_eq(t, en) {
                        st
                    } else {
                        Type::Void
                    }
                },
                None => if type_eq(st, en) {
                    st
                } else {
                    Type::Void
                },
            }
        },
        Expr::Binary(b) => {
            let l = expr_type(scopes, *b.left, expected, table);
            let r0 = expr_type(scopes, *b.right, l, table);
            let r = if b.op == Operator::Sub {
                signed_of(r0)
            } else if b.op == Operator::Div {
                Type::Numeric(Numeric::F32)
            } else {
                r0
            };
            if !(l is Void) {
                l
            } else {
                r
            }
        },
        Expr::Boolean(_) => Type::Boolean,
        Expr::Grouped(g) => expr_type(scopes, *g, expected, table),
        Expr::Unary(u) => if unsigned_type(expected) {
            if u.op == Operator::Sub {
                signed_of(expr_type(scopes, *u.right, Type::Void, table))
            } else {
                Type::Void
            }
        } else {
            expr_type(
                scopes,
                *u.right,
                if u.op == Operator::LNot {
                    Type::Boolean
                } else {
                    Type::Void
                },
                table,
            )
        },
        Expr::Call(id, _) => call_type(scopes, id@),
        _ => leaf_expr_type(e, expected, table).unwrap(),
    }
}

/// Expressions that are the same have the same type.
pub proof fn lemma_same_expr_type(scopes: Seq<Scope>, a: Expr, b: Expr, expected: Type, table: Seq<FloatFit>)
    requires
        same_expr(a, b),
    ensures
        expr_type(scopes, a, expected, table) == expr_type(scopes, b, expected, table),
    decreases a,
{
    match (a, b) {
        (Expr::Range(x), Expr::Range(y)) => {
            lemma_same_expr_type(scopes, *x.start, *y.start, expected, table);
            lemma_same_expr_type(scopes, *x.end, *y.end, expected, table);
            match (x.step, y.step) {
                (Some(p), Some(q)) => lemma_same_expr_type(scopes, *p, *q, expected, table),
                _ => {},
            }
        },
        (Expr::Binary(x), Expr::Binary(y)) => {
            lemma_same_expr_type(scopes, *x.left, *y.left, expected, table);
            let l = expr_type(scopes, *x.left, expected, table);
            lemma_same_expr_type(scopes, *x.right, *y.right, l, table);
        },
        (Expr::Grouped(x), Expr::Grouped(y)) => lemma_same_expr_type(scopes, *x, *y, expected, table),
        (Expr::Unary(x), Expr::Unary(y)) => {
            lemma_same_expr_type(scopes, *x.right, *y.right, Type::Void, table);
            lemma_same_expr_type(scopes, *x.right, *y.right, Type::Boolean, table);
            lemma_same_expr_type(scopes, *x.right, *y.right, expected, table);
        },
        _ => {},
    }
}

/// The diagnostics after checking an expression where `expected` is expected, given
/// those before: those of its parts, in order, then a mismatch of the operand types of
/// an operation (compatible for arithmetic, equal for comparisons and logic) where both
/// are known. `None` where it holds a call, whose arguments this does not describe.
pub open spec fn expr_report(
    scopes: Seq<Scope>,
    e: Expr,
    expected: Type,
    table: Seq<FloatFit>,
    msgs: Seq<GraviError>,
) -> Option<Seq<GraviError>>
    decreases e,
{
    match e {
        Expr::Identifier(id) => Some(ident_report(scopes, id, expected, msgs)),
        Expr::Index(id, _) => Some(index_outcome(scopes, id, msgs).1),
        Expr::Range(r) => match expr_report(scopes, *r.start, expected, table, msgs) {
            None => None,
            Some(m1) => {
                let m2 = match r.step {
                    Some(x) => expr_report(scopes, *x, expected, table, m1),
                    None => Some(m1),
                };
                match m2 {
                    None => None,
                    Some(m2) => expr_report(scopes, *r.end, expected, table, m2),
                }
            },
        },
        Expr::Binary(b) => {
            let l = expr_type(scopes, *b.left, expected, table);
            match expr_report(scopes, *b.left, expected, table, msgs) {
                None => None,
                Some(m1) => match expr_report(scopes, *b.right, l, table, m1) {
                    None => None,
                    Some(m2) => {
                        let r0 = expr_type(scopes, *b.right, l, table);
                        let r = if b.op == Operator::Sub {
                            signed_of(r0)
                        } else if b.op == Operator::Div {
                            Type::Numeric(Numeric::F32)
                        } else {
                            r0
                        };
                        if !compatible(r, l) && !(l is Void) && !(r is Void) {
                            Some(m2.push(plain(Kind::TypeMismatch(l, r))))
                        } else {
                            Some(m2)
                        }
                    },
                },
            }
        },
        Expr::Boolean(b) => {
            let l = expr_type(scopes, *b.left, Type::Void, table);
            let rx = if !(l is Void) {
                l
            } else {
                Type::Void
            };
            match expr_report(scopes, *b.left, Type::Void, table, msgs) {
                None => None,
                Some(m1) => match expr_report(scopes, *b.right, rx, table, m1) {
                    None => None,
                    Some(m2) => {
                        let r = expr_type(scopes, *b.right, rx, table);
                        if !type_eq(l, r) && !(l is Void) && !(r is Void) {
                            Some(m2.push(plain(Kind::TypeMismatch(l, r))))
                        } else {
                            Some(m2)
                        }
                    },
                },
            }
        },
        Expr::Grouped(g) => expr_report(scopes, *g, expected, table, msgs),
        Expr::Unary(u) => if unsigned_type(expected) {
            expr_report(scopes, *u.right, Type::Void, table, msgs)
        } else {
            expr_report(
                scopes,
                *u.right,
                if u.op == Operator::LNot {
                    Type::Boolean
                } else {
                    Type::Void
                },
                table,
                msgs,
            )
        },
        Expr::Call(_, _) => None,
        _ => Some(msgs),
    }
}

/// The diagnostics after checking a declaration whose value is an expression (or that
/// has none), where `ty` is the type expected of an untyped one: those of the value, then
/// a mismatch between the declared type and the value's.
pub open spec fn decl_report(
    scopes: Seq<Scope>,
    d: VarDecl,
    ty: Type,
    table: Seq<FloatFit>,
    msgs: Seq<GraviError>,
) -> Option<Seq<GraviError>> {
    match d.val {
        None => Some(msgs),
        Some(Value::Expression(e)) => if d.ty is Void {
            expr_report(scopes, e, ty, table, msgs)
        } else {
            match expr_report(scopes, e, d.ty, table, msgs) {
                Some(m) => {
                    let t = expr_type(scopes, e, d.ty, table);
                    Some(
                        if !type_eq(t, d.ty) {
                            m.push(plain(Kind::TypeMismatch(d.ty, t)))
                        } else {
                            m
                        },
                    )
                },
                None => None,
            }
        },
        _ => None,
    }
}

/// The diagnostics after checking an assignment of an expression to a variable: none
/// where no variable of that name is known; else those of the value, then one if the
/// variable is immutable.
pub open spec fn assign_report(scopes: Seq<Scope>, v: Variable, table: Seq<FloatFit>, msgs: Seq<GraviError>) -> Option<
    Seq<GraviError>,
> {
    match var_of(scopes, v.name@) {
        None => Some(msgs),
        Some(sym) => match v.val {
            None => Some(msgs),
            Some(Value::Expression(e)) => match expr_report(scopes, e, Type::Void, table, msgs) {
                Some(m) => Some(
                    if !sym.mutable {
                        m.push(plain(Kind::MutatingImmutable(v.name)))
                    } else {
                        m
                    },
                ),
                None => None,
            },
            _ => None,
        },
    }
}

/// Expressions that are the same give the same diagnostics.
pub proof fn lemma_same_expr_report(
    scopes: Seq<Scope>,
    a: Expr,
    b: Expr,
    expected: Type,
    table: Seq<FloatFit>,
    msgs: Seq<GraviError>,
)
    requires
        same_expr(a, b),
    ensures
        expr_report(scopes, a, expected, table, msgs) == expr_report(scopes, b, expected, table, msgs),
    decreases a,
{
    match (a, b) {
        (Expr::Range(x), Expr::Range(y)) => {
            lemma_same_expr_report(scopes, *x.start, *y.start, expected, table, msgs);
            match expr_report(scopes, *x.start, expected, table, msgs) {
                Some(m1) => {
                    match (x.step, y.step) {
                        (Some(p), Some(q)) => {
                            lemma_same_expr_report(scopes, *p, *q, expected, table, m1);
                            match expr_report(scopes, *p, expected, table, m1) {
                                Some(m2) => lemma_same_expr_report(scopes, *x.end, *y.end, expected, table, m2),
                                None => {},
                            }
                        },
                        _ => lemma_same_expr_report(scopes, *x.end, *y.end, expected, table, m1),
                    }
                },
                None => {},
            }
        },
        (Expr::Binary(x), Expr::Binary(y)) => {
            lemma_same_expr_type(scopes, *x.left, *y.left, expected, table);
            lemma_same_expr_report(scopes, *x.left, *y.left, expected, table, msgs);
            let l = expr_type(scopes, *x.left, expected, table);
            lemma_same_expr_type(scopes, *x.right, *y.right, l, table);
            match expr_report(scopes, *x.left, expected, table, msgs) {
                Some(m1) => lemma_same_expr_report(scopes, *x.right, *y.right, l, table, m1),
                None => {},
            }
        },
        (Expr::Boolean(x), Expr::Boolean(y)) => {
            lemma_same_expr_type(scopes, *x.left, *y.left, Type::Void, table);
            lemma_same_expr_report(scopes, *x.left, *y.left, Type::Void, table, msgs);
            let l = expr_type(scopes, *x.left, Type::Void, table);
            let rx = if !(l is Void) {
                l
            } else {
                Type::Void
            };
            lemma_same_expr_type(scopes, *x.right, *y.right, rx, table);
            match expr_report(scopes, *x.left, Type::Void, table, msgs) {
                Some(m1) => lemma_same_expr_report(scopes, *x.right, *y.right, rx, table, m1),
                None => {},
            }
        },
        (Expr::Grouped(x), Expr::Grouped(y)) => lemma_same_expr_report(scopes, *x, *y, expected, table, msgs),
        (Expr::Unary(x), Expr::Unary(y)) => {
            lemma_same_expr_report(scopes, *x.right, *y.right, Type::Void, table, msgs);
            lemma_same_expr_report(scopes, *x.right, *y.right, Type::Boolean, table, msgs);
        },
        _ => {},
    }
}

/// Whether a numeric type is unsigned, as the checker of unary operations reads it.
pub open spec fn unsigned_type(t: Type) -> bool {
    t matches Type::Numeric(n) && unsigned(n)
}

/// The number of global variable declarations among the items.
pub open spec fn global_vars(items: Seq<Global>) -> nat
    decreases items.len(),
{
    if items.len() == 0 {
        0
    } else {
        global_vars(items.drop_last()) + if items.last() is Var { 1nat } else { 0nat }
    }
}

pub proof fn lemma_items_size_update(s: Seq<Items>, j: int, x: Items)
    requires
        0 <= j < s.len(),
    ensures
        items_size(s.update(j, x)) == items_size(s) - item_size(s[j]) + item_size(x),
    decreases s.len(),
{
    let u = s.update(j, x);
    if j == s.len() - 1 {
        assert(u.drop_last() =~= s.drop_last());
    } else {
        assert(u.drop_last() =~= s.drop_last().update(j, x));
        lemma_items_size_update(s.drop_last(), j, x);
    }
}

/// The bounds of the floating-point types, as the checker reads them.
pub fn float_bounds() -> (r: Vec<(String, String)>)
    ensures
        r@.len() == 3,
        r@[0].0@ == "-65504.0"@ && r@[0].1@ == "65504.0"@,
        r@[1].0@ == "-3.4e38"@ && r@[1].1@ == "3.4e38"@,
        r@[2].0@ == "-1.8e308"@ && r@[2].1@ == "1.8e308"@,
{
    let mut v: Vec<(String, String)> = Vec::new();
    v.push((owned("-65504.0"), owned("65504.0")));
    v.push((owned("-3.4e38"), owned("3.4e38")));
    v.push((owned("-1.8e308"), owned("1.8e308")));
    v
}

pub struct Checker {
    pub rep: Reporter,
    pub floats: Vec<FloatFit>,
}

/// The checking of one part keeps the symbol table well formed, with the same scopes
/// open, and only adds diagnostics.
pub open spec fn keeps(s0: SymbolTable, s1: SymbolTable, r0: Seq<GraviError>, r1: Seq<GraviError>) -> bool {
    &&& s1.wf()
    &&& s1.scopes@.len() == s0.scopes@.len()
    &&& prefix_of(r0, r1)
}

/// The table after checking a statement list: the same scopes, of which only the
/// innermost may have gained bindings.
pub open spec fn only_innermost(s0: Seq<Scope>, s1: Seq<Scope>) -> bool {
    &&& s1.len() == s0.len()
    &&& forall|i: int| 0 <= i < s0.len() - 1 ==> s1[i] == s0[i]
    &&& s0.len() > 0 ==> s1.last().kind == s0.last().kind
}

fn copy_type(t: &Type) -> (r: Type)
    ensures
        r == *t,
{
    t.clone()
}

/// A copy of a variable symbol, with a copy of its value.
fn copy_var(v: &VariableSym) -> (r: VariableSym)
    ensures
        r.ty == v.ty,
        r.mutable == v.mutable,
        r.par == v.par,
        r.list == v.list,
        r.value is Some == v.value is Some,
{
    VariableSym {
        ty: v.ty.clone(),
        mutable: v.mutable,
        par: v.par,
        list: v.list,
        value: match &v.value {
            Some(x) => Some(copy_value(x)),
            None => None,
        },
    }
}

/// The parameter types of the function `id`, or none if `id` names no function.
fn param_types(symbol: &SymbolTable, id: &str) -> (r: Vec<Type>)
    ensures
        match symbol.resolves(id@) {
            Some(Symbol::Function(f)) => r@.len() == f.params@.len() && forall|i: int|
                0 <= i < r@.len() ==> r@[i] == (#[trigger] f.params@[i]).1,
            _ => r@.len() == 0,
        },
{
    let mut out: Vec<Type> = Vec::new();
    if let Some(Symbol::Function(f)) = symbol.find(id) {
        let mut i: usize = 0;
        while i < f.params.len()
            invariant
                i <= f.params@.len(),
                out@.len() == i,
                forall|k: int| 0 <= k < i ==> out@[k] == (#[trigger] f.params@[k]).1,
            decreases f.params.len() - i,
        {
            out.push(f.params[i].1.clone());
            i = i + 1;
        }
    }
    out
}

/// The sizes of the parts of a range.
pub open spec fn range_size(r: Range) -> nat {
    expr_size(*r.start) + match r.step {
        Some(s) => expr_size(*s),
        None => 0,
    } + expr_size(*r.end)
}

/// A declaration keeps its explicit type and its name through checking.
pub open spec fn keeps_decl(before: Items, after: Items) -> bool {
    before matches Items::Var(Var::Decl(d)) ==> (after matches Items::Var(Var::Decl(d2)) && d2.id == d.id && (!(
    d.ty is Void) ==> d2.ty == d.ty))
}

proof fn lemma_keeps_after_patch(orig: Seq<Items>, pre: Seq<Items>, post: Seq<Items>, name: Seq<char>, t: Type)
    requires
        pre.len() <= orig.len(),
        post.len() == pre.len(),
        forall|k: int| 0 <= k < pre.len() ==> keeps_decl(#[trigger] orig[k], pre[k]),
        forall|k: int|
            0 <= k < pre.len() && post[k] != pre[k] ==> untyped_decl_named(#[trigger] pre[k], name) && post[k]
                == retyped(pre[k], t),
    ensures
        forall|k: int| 0 <= k < post.len() ==> keeps_decl(#[trigger] orig[k], post[k]),
{
    assert forall|k: int| 0 <= k < post.len() implies keeps_decl(#[trigger] orig[k], post[k]) by {
        assert(keeps_decl(orig[k], pre[k]));
        if post[k] != pre[k] {
            assert(untyped_decl_named(pre[k], name));
        }
    }
}

proof fn lemma_keeps_after_push(orig: Seq<Items>, prev: Seq<Items>, out: Seq<Items>)
    requires
        out.len() == prev.len() + 1,
        out.len() <= orig.len(),
        forall|k: int| 0 <= k < prev.len() ==> keeps_decl(#[trigger] orig[k], prev[k]),
        forall|k: int| 0 <= k < prev.len() ==> out[k] == prev[k],
        keeps_decl(orig[prev.len() as int], out[prev.len() as int]),
    ensures
        forall|k: int| 0 <= k < out.len() ==> keeps_decl(#[trigger] orig[k], out[k]),
{
    assert forall|k: int| 0 <= k < out.len() implies keeps_decl(#[trigger] orig[k], out[k]) by {
        if k < prev.len() {
            assert(out[k] == prev[k]);
        }
    }
}

/// The symbol a function's parameter is bound to while its body is checked: a variable
/// of the parameter's type, mutability, parallelism and list mark, with no known value.
pub open spec fn param_symbol(p: VarDecl) -> Symbol {
    Symbol::Variable(VariableSym { ty: p.ty, mutable: p.mutable, par: p.par, list: p.list, value: Some(Value::Null) })
}

/// The symbol that binding the parameters in order leaves for `name`, if one of them is
/// named so (the last such one), and otherwise what `syms` binds it to.
pub open spec fn params_bound(params: Seq<VarDecl>, name: Seq<char>, syms: Seq<(String, Symbol)>) -> Option<Symbol>
    decreases params.len(),
{
    if params.len() == 0 {
        lookup(syms, name)
    } else if params.last().id@ == name {
        Some(param_symbol(params.last()))
    } else {
        params_bound(params.drop_last(), name, syms)
    }
}

/// A function keeps its name, signature and the explicit types of its declarations
/// through checking.
pub open spec fn fun_kept(f: Function, g: Function) -> bool {
    &&& g.id == f.id
    &&& g.params == f.params
    &&& g.ret == f.ret
    &&& g.body@.len() == f.body@.len()
    &&& forall|k: int| 0 <= k < f.body@.len() ==> keeps_decl(#[trigger] f.body@[k], g.body@[k])
}

/// A global item through checking: functions as `fun_kept` says, anything else unchanged.
pub open spec fn global_kept(before: Global, after: Global) -> bool {
    match before {
        Global::Fun(FunKind::Custom(f)) => after matches Global::Fun(FunKind::Custom(g)) && fun_kept(f, g),
        Global::Fun(FunKind::Entry(f)) => after matches Global::Fun(FunKind::Entry(g)) && fun_kept(f, g),
        Global::Fun(FunKind::Extern(f)) => after matches Global::Fun(FunKind::Extern(g)) && fun_kept(f, g),
        _ => after == before,
    }
}

/// Whether the innermost scope binds `name` to a variable of type `t`.
pub open spec fn bound_with_type(scopes: Seq<Scope>, name: Seq<char>, t: Type) -> bool {
    lookup(scopes.last().symbols@, name) matches Some(Symbol::Variable(v)) && v.ty == t
}

/// The diagnostics of index values checked one after another against `expected`, where
/// each is an expression whose diagnostics are told.
pub open spec fn vals_report(scopes: Seq<Scope>, vals: Seq<Value>, expected: Type, table: Seq<FloatFit>, msgs: Seq<
    GraviError,
>) -> Option<Seq<GraviError>>
    decreases vals.len(),
{
    if vals.len() == 0 {
        Some(msgs)
    } else {
        match vals_report(scopes, vals.drop_last(), expected, table, msgs) {
            None => None,
            Some(m) => match vals.last() {
                Value::Expression(e) => expr_report(scopes, e, expected, table, m),
                _ => None,
            },
        }
    }
}

/// The diagnostics of rows of index values, row after row (see `vals_report`).
pub open spec fn rows_report(scopes: Seq<Scope>, rows: Seq<Vec<Value>>, expected: Type, table: Seq<FloatFit>, msgs: Seq<
    GraviError,
>) -> Option<Seq<GraviError>>
    decreases rows.len(),
{
    if rows.len() == 0 {
        Some(msgs)
    } else {
        match rows_report(scopes, rows.drop_last(), expected, table, msgs) {
            None => None,
            Some(m) => vals_report(scopes, rows.last()@, expected, table, m),
        }
    }
}

/// Whether the innermost scope binds the declared variable as declared: its type,
/// mutability, parallelism and list mark.
pub open spec fn bound_as(scopes: Seq<Scope>, d: VarDecl) -> bool {
    lookup(scopes.last().symbols@, d.id@) matches Some(Symbol::Variable(v)) && v.ty == d.ty && v.mutable == d.mutable
        && v.par == d.par && v.list == d.list
}

/// Whether a checked statement `b` (first `a`) is a declaration bound as declared in the
/// innermost scope, where `a` is a declaration.
pub open spec fn first_bound(a: Items, b: Items, scopes: Seq<Scope>) -> bool {
    match a {
        Items::Var(Var::Decl(_)) => b matches Items::Var(Var::Decl(d2)) && bound_as(scopes, d2),
        _ => true,
    }
}

/// Whether the statement declares `name` without a type.
pub open spec fn untyped_decl_named(it: Items, name: Seq<char>) -> bool {
    it matches Items::Var(Var::Decl(d)) && d.id@ == name && d.ty is Void
}

/// Whether the diagnostics of a body's first statement, checked against `scopes`, are
/// those that `msgs` grows to: a declaration's (a type mismatch, a literal that does not
/// fit) or an assignment's (a change of an immutable variable), where they are told.
pub open spec fn first_reports(it: Items, scopes: Seq<Scope>, table: Seq<FloatFit>, msgs: Seq<GraviError>, after: Seq<
    GraviError,
>) -> bool {
    match it {
        Items::Var(Var::Decl(d)) => match decl_report(scopes, d, Type::Void, table, msgs) {
            Some(m) => m == after,
            None => true,
        },
        Items::Var(Var::Var(v)) => match assign_report(scopes, v, table, msgs) {
            Some(m) => m == after,
            None => true,
        },
        _ => true,
    }
}

/// The type inferred for an untyped declaration of an expression, checked against
/// `scopes` as the first statement of a body.
pub open spec fn first_inferred(it: Items, scopes: Seq<Scope>, table: Seq<FloatFit>) -> Option<Type> {
    match it {
        Items::Var(Var::Decl(d)) => if d.ty is Void {
            match d.val {
                Some(Value::Expression(e)) => Some(expr_type(scopes, e, Type::Void, table)),
                _ => None,
            }
        } else {
            None
        },
        _ => None,
    }
}

/// Whether `b` is the first statement `a` of a body after checking, as far as its
/// inferred type goes: an untyped declaration of an expression whose type is known takes
/// that type.
pub open spec fn first_typed(a: Items, b: Items, scopes: Seq<Scope>, table: Seq<FloatFit>) -> bool {
    match first_inferred(a, scopes, table) {
        Some(t) => !(t is Void) ==> (b matches Items::Var(Var::Decl(d2)) && d2.ty == t),
        None => true,
    }
}

/// Whether `r` is the type of a body made of the one statement `it`: the inferred type of
/// an untyped declaration of an expression, nothing for a typed declaration.
pub open spec fn single_type(it: Items, r: Type, scopes: Seq<Scope>, table: Seq<FloatFit>) -> bool {
    match it {
        Items::Var(Var::Decl(d)) => (!(d.ty is Void) ==> r is Void) && match first_inferred(it, scopes, table) {
            Some(t) => r == t,
            None => true,
        },
        _ => true,
    }
}

/// Whether checking the statement `it` took the scopes from `s0` to `s1`, the
/// diagnostics from `m0` to `m1` and the type of the last expression from `t0` to `t1`:
/// a declaration reports its diagnostics where they are told, takes its inferred type
/// where it has none, and is bound in the innermost scope as declared; an assignment
/// reports its diagnostics where they are told.
pub open spec fn stmt_step(
    it: Items,
    s0: Seq<Scope>,
    s1: Seq<Scope>,
    m0: Seq<GraviError>,
    m1: Seq<GraviError>,
    t0: Type,
    t1: Type,
    table: Seq<FloatFit>,
) -> bool {
    &&& only_innermost(s0, s1)
    &&& prefix_of(m0, m1)
    &&& match it {
        Items::Var(Var::Decl(d)) => {
            &&& (decl_report(s0, d, t0, table, m0) matches Some(m) ==> m1 == m)
            &&& (!(d.ty is Void) ==> t1 == t0)
            &&& (d.ty is Void && d.val is Some && d.val.unwrap() is Expression ==> t1 == expr_type(
                s0,
                d.val.unwrap()->Expression_0,
                t0,
                table,
            ))
            &&& (s0.len() > 0 ==> (lookup(s1.last().symbols@, d.id@) matches Some(Symbol::Variable(v)) && v.ty == (
            if d.ty is Void {
                t1
            } else {
                d.ty
            }) && v.mutable == d.mutable && v.par == d.par && v.list == d.list))
        },
        Items::Var(Var::Var(v)) => assign_report(s0, v, table, m0) matches Some(m) ==> m1 == m,
        _ => true,
    }
}

/// Whether `ss`, `ms` and `ts` trace a body checked statement after statement: the
/// scopes, the diagnostics and the type of the last expression before each statement
/// and after the last, each statement checked as `stmt_step` says in what the ones
/// before it left.
pub open spec fn body_trace(
    items: Seq<Items>,
    ss: Seq<Seq<Scope>>,
    ms: Seq<Seq<GraviError>>,
    ts: Seq<Type>,
    table: Seq<FloatFit>,
) -> bool {
    &&& ss.len() == items.len() + 1
    &&& ms.len() == items.len() + 1
    &&& ts.len() == items.len() + 1
    &&& forall|k: int|
        0 <= k < items.len() ==> #[trigger] stmt_step(
            items[k],
            ss[k],
            ss[k + 1],
            ms[k],
            ms[k + 1],
            ts[k],
            ts[k + 1],
            table,
        )
}

/// Whether a checked body (`before`, then `after`) was checked statement after statement
/// (as `body_trace` says) while the diagnostics grew from `msgs0` to `msgs1`, and had its
/// first statement checked against some scopes: its diagnostics were reported, and an
/// untyped declaration took its inferred type.
pub open spec fn body_checked(before: Seq<Items>, after: Seq<Items>, table: Seq<FloatFit>, msgs0: Seq<GraviError>, msgs1: Seq<
    GraviError,
>) -> bool {
    &&& exists|ss: Seq<Seq<Scope>>, ms: Seq<Seq<GraviError>>, ts: Seq<Type>|
        #![trigger body_trace(before, ss, ms, ts, table)]
        body_trace(before, ss, ms, ts, table) && ts[0] == Type::Void && prefix_of(msgs0, ms[0]) && prefix_of(
            ms.last(),
            msgs1,
        )
    &&& before.len() > 0 ==> exists|sc: Seq<Scope>, m0: Seq<GraviError>, m1: Seq<GraviError>|
        #![trigger first_reports(before[0], sc, table, m0, m1)]
        prefix_of(msgs0, m0) && first_reports(before[0], sc, table, m0, m1) && prefix_of(m1, msgs1) && first_typed(
            before[0],
            after[0],
            sc,
            table,
        )
}

/// Whether a global item, before and after checking, is a function whose body was
/// checked as `body_checked` says (anything else qualifies as it is).
pub open spec fn global_checked(before: Global, after: Global, table: Seq<FloatFit>, msgs0: Seq<GraviError>, msgs1: Seq<
    GraviError,
>) -> bool {
    match (before, after) {
        (Global::Fun(FunKind::Custom(f)), Global::Fun(FunKind::Custom(g))) => body_checked(f.body@, g.body@, table, msgs0, msgs1),
        (Global::Fun(FunKind::Extern(f)), Global::Fun(FunKind::Extern(g))) => body_checked(f.body@, g.body@, table, msgs0, msgs1),
        (Global::Fun(FunKind::Entry(f)), Global::Fun(FunKind::Entry(g))) => body_checked(f.body@, g.body@, table, msgs0, msgs1),
        _ => true,
    }
}

/// Checking a body stays told as the diagnostics before it are taken earlier and those
/// after it later.
pub proof fn lemma_body_checked_grows(
    before: Seq<Items>,
    after: Seq<Items>,
    table: Seq<FloatFit>,
    a0: Seq<GraviError>,
    a: Seq<GraviError>,
    b: Seq<GraviError>,
    c: Seq<GraviError>,
)
    requires
        body_checked(before, after, table, a, b),
        prefix_of(a0, a),
        prefix_of(b, c),
    ensures
        body_checked(before, after, table, a0, c),
{
    if before.len() > 0 {
        let (sc, m0, m1) = choose|sc: Seq<Scope>, m0: Seq<GraviError>, m1: Seq<GraviError>|
            #![trigger first_reports(before[0], sc, table, m0, m1)]
            prefix_of(a, m0) && first_reports(before[0], sc, table, m0, m1) && prefix_of(m1, b) && first_typed(
                before[0],
                after[0],
                sc,
                table,
            );
        lemma_prefix_trans(a0, a, m0);
        lemma_prefix_trans(m1, b, c);
        assert(first_reports(before[0], sc, table, m0, m1));
    }
    let (ss, ms, ts) = choose|ss: Seq<Seq<Scope>>, ms: Seq<Seq<GraviError>>, ts: Seq<Type>|
        #![trigger body_trace(before, ss, ms, ts, table)]
        body_trace(before, ss, ms, ts, table) && ts[0] == Type::Void && prefix_of(a, ms[0]) && prefix_of(ms.last(), b);
    lemma_prefix_trans(a0, a, ms[0]);
    lemma_prefix_trans(ms.last(), b, c);
    assert(body_trace(before, ss, ms, ts, table));
}

/// The same for a global item.
pub proof fn lemma_global_checked_grows(
    before: Global,
    after: Global,
    table: Seq<FloatFit>,
    a0: Seq<GraviError>,
    a: Seq<GraviError>,
    b: Seq<GraviError>,
    c: Seq<GraviError>,
)
    requires
        global_checked(before, after, table, a, b),
        prefix_of(a0, a),
        prefix_of(b, c),
    ensures
        global_checked(before, after, table, a0, c),
{
    match (before, after) {
        (Global::Fun(FunKind::Custom(f)), Global::Fun(FunKind::Custom(g))) => lemma_body_checked_grows(f.body@, g.body@, table, a0, a, b, c),
        (Global::Fun(FunKind::Extern(f)), Global::Fun(FunKind::Extern(g))) => lemma_body_checked_grows(f.body@, g.body@, table, a0, a, b, c),
        (Global::Fun(FunKind::Entry(f)), Global::Fun(FunKind::Entry(g))) => lemma_body_checked_grows(f.body@, g.body@, table, a0, a, b, c),
        _ => {},
    }
}

/// The statement with the declared type set to `t`, if it is a declaration.
pub open spec fn retyped(it: Items, t: Type) -> Items {
    match it {
        Items::Var(Var::Decl(d)) => Items::Var(Var::Decl(VarDecl { ty: t, ..d })),
        _ => it,
    }
}

/// Gives the first untyped declaration of `name` among `out` the type `t`.
fn patch_decl(out: &mut Vec<Items>, name: &str, t: Type)
    ensures
        items_size(final(out)@) == items_size(old(out)@),
        final(out)@.len() == old(out)@.len(),
        forall|k: int|
            0 <= k < old(out)@.len() && final(out)@[k] != old(out)@[k] ==> untyped_decl_named(
                #[trigger] old(out)@[k],
                name@,
            ) && final(out)@[k] == retyped(old(out)@[k], t),
        (forall|k: int| 0 <= k < old(out)@.len() ==> !untyped_decl_named(#[trigger] old(out)@[k], name@))
            ==> final(out)@ == old(out)@,
        forall|j: int|
            0 <= j < old(out)@.len() && untyped_decl_named(#[trigger] old(out)@[j], name@) && (forall|k: int|
                0 <= k < j ==> !untyped_decl_named(#[trigger] old(out)@[k], name@)) ==> final(out)@ == old(out)@.update(
                j,
                retyped(old(out)@[j], t),
            ),
{
    let mut j: usize = 0;
    while j < out.len()
        invariant
            j <= out@.len(),
            out@ == old(out)@,
            forall|k: int| 0 <= k < j ==> !untyped_decl_named(#[trigger] out@[k], name@),
        decreases out.len() - j,
    {
        let hit = match &out[j] {
            Items::Var(Var::Decl(d)) => str_eq(d.id.as_str(), name) && d.ty.is_none(),
            _ => false,
        };
        if hit {
            let ghost before = out@;
            let it = out.remove(j);
            match it {
                Items::Var(Var::Decl(d)) => {
                    let VarDecl { par, mutable, id, ty: _, val, list } = d;
                    out.insert(j, Items::Var(Var::Decl(VarDecl { par, mutable, id, ty: t, val, list })));
                },
                other => {
                    out.insert(j, other);
                },
            }
            proof {
                assert(out@ =~= before.update(j as int, retyped(before[j as int], t)));
                lemma_items_size_update(before, j as int, retyped(before[j as int], t));
                assert(untyped_decl_named(before[j as int], name@));
            }
            return;
        }
        j = j + 1;
    }
}

proof fn lemma_block_restores(s0: Seq<Scope>, s1: Seq<Scope>, s2: Seq<Scope>, s3: Seq<Scope>)
    requires
        s1.len() == s0.len() + 1,
        forall|i: int| 0 <= i < s0.len() ==> s1[i] == s0[i],
        only_innermost(s1, s2),
        s3 == s2.drop_last(),
    ensures
        s3 == s0,
{
    assert(s3 =~= s0);
}

impl Checker {
    pub fn new() -> (r: Self)
        ensures
            r.rep.messages@.len() == 0,
            r.floats@.len() == 0,
    {
        Checker { rep: Reporter::new(), floats: Vec::new() }
    }

    pub fn reporter(&self) -> (r: &Reporter)
        ensures
            *r == self.rep,
    {
        &self.rep
    }

    fn report(&mut self, e: GraviError)
        ensures
            final(self).rep.messages@ == old(self).rep.messages@.push(e),
            final(self).floats == old(self).floats,
    {
        self.rep.add(e);
    }

    /// The signed counterpart of an unsigned fixed-width type.
    fn sign_converter(&self, ty: &Type) -> (r: Type)
        ensures
            r == signed_of(*ty),
    {
        match ty {
            Type::Numeric(Numeric::U8) => Type::Numeric(Numeric::I8),
            Type::Numeric(Numeric::U16) => Type::Numeric(Numeric::I16),
            Type::Numeric(Numeric::U32) => Type::Numeric(Numeric::I32),
            Type::Numeric(Numeric::U64) => Type::Numeric(Numeric::I64),
            _ => ty.clone(),
        }
    }

    /// Whether `found` may stand where `expected` is expected.
    fn is_compatible(&self, found: &Type, expected: &Type) -> (r: bool)
        ensures
            r == compatible(*found, *expected),
    {
        if found.same(expected) {
            return true;
        }
        match (found, expected) {
            (Type::Numeric(f), Type::Numeric(e)) => {
                let fu = *f == Numeric::USize || *f == Numeric::U8 || *f == Numeric::U16 || *f == Numeric::U32 || *f
                    == Numeric::U64;
                let eu = *e == Numeric::USize || *e == Numeric::U8 || *e == Numeric::U16 || *e == Numeric::U32 || *e
                    == Numeric::U64;
                let fs = *f == Numeric::I8 || *f == Numeric::I16 || *f == Numeric::I32 || *f == Numeric::I64;
                let es = *e == Numeric::I8 || *e == Numeric::I16 || *e == Numeric::I32 || *e == Numeric::I64;
                let ff = *f == Numeric::F16 || *f == Numeric::F32 || *f == Numeric::F64;
                let ef = *e == Numeric::F16 || *e == Numeric::F32 || *e == Numeric::F64;
                (fu && eu) || (fs && es) || (ff && ef)
            },
            (Type::Character, Type::Numeric(Numeric::U8)) => true,
            (Type::Numeric(Numeric::U8), Type::Character) => true,
            (Type::Character, Type::StringLiteral) => true,
            (Type::StringLiteral, Type::Character) => true,
            _ => false,
        }
    }

    /// Whether the literal `val` lies within `l` and `u`, read in the given way.
    fn in_range(&self, val: &str, l: &str, u: &str, kind: NumericKind) -> (r: bool)
        ensures
            r == within(self.floats@, val@, l@, u@, kind),
    {
        match kind {
            NumericKind::Unsigned => {
                if str_contains(val, '.') {
                    return false;
                }
                let parsed: u64 = match parse_u64(&str_chars(val)) { Some(n) => n, None => 0 };
                let plow: u64 = match parse_u64(&str_chars(l)) { Some(n) => n, None => 0 };
                let pup: u64 = match parse_u64(&str_chars(u)) { Some(n) => n, None => 0 };
                parsed >= plow && parsed <= pup
            },
            NumericKind::Signed => {
                if str_contains(val, '.') {
                    return false;
                }
                let parsed: i64 = match parse_i64(&str_chars(val)) { Some(n) => n, None => 0 };
                let plow: i64 = match parse_i64(&str_chars(l)) { Some(n) => n, None => 0 };
                let pup: i64 = match parse_i64(&str_chars(u)) { Some(n) => n, None => 0 };
                parsed >= plow && parsed <= pup
            },
            NumericKind::Float => {
                let mut i: usize = 0;
                assert(self.floats@.skip(0) =~= self.floats@);
                while i < self.floats.len()
                    invariant
                        i <= self.floats@.len(),
                        kind == NumericKind::Float,
                        float_fits(self.floats@, val@, l@, u@) == float_fits(self.floats@.skip(i as int), val@, l@, u@),
                    decreases self.floats.len() - i,
                {
                    let f = &self.floats[i];
                    assert(self.floats@.skip(i as int)[0] == *f);
                    assert(self.floats@.skip(i as int).drop_first() =~= self.floats@.skip(i + 1));
                    if str_eq(f.text.as_str(), val) && str_eq(f.low.as_str(), l) && str_eq(f.high.as_str(), u) {
                        assert(float_fits(self.floats@.skip(i as int), val@, l@, u@) == f.fits);
                        return f.fits;
                    }
                    i = i + 1;
                }
                true
            },
        }
    }

    /// Whether the literal fits the numeric type `n`.
    fn fits(&self, val: &str, n: Numeric) -> (r: bool)
        ensures
            r == fits_numeric(self.floats@, val@, n),
    {
        match n {
            Numeric::U8 => self.in_range(val, "0", "255", NumericKind::Unsigned),
            Numeric::U16 => self.in_range(val, "0", "65535", NumericKind::Unsigned),
            Numeric::U32 => self.in_range(val, "0", "4294967295", NumericKind::Unsigned),
            Numeric::U64 => self.in_range(val, "0", "18446744073709551615", NumericKind::Unsigned),
            Numeric::I8 => self.in_range(val, "-128", "127", NumericKind::Signed),
            Numeric::I16 => self.in_range(val, "-32768", "32767", NumericKind::Signed),
            Numeric::I32 => self.in_range(val, "-2147483648", "2147483647", NumericKind::Signed),
            Numeric::I64 => self.in_range(val, "-9223372036854775808", "9223372036854775807", NumericKind::Signed),
            Numeric::F16 => self.in_range(val, "-65504.0", "65504.0", NumericKind::Float),
            Numeric::F32 => self.in_range(val, "-3.4e38", "3.4e38", NumericKind::Float),
            Numeric::F64 => self.in_range(val, "-1.8e308", "1.8e308", NumericKind::Float),
            Numeric::USize => false,
        }
    }

    /// The type of the numeric literal `val` where `expected` is expected.
    fn map_numeric(&self, val: &str, expected: &Type) -> (r: Type)
        ensures
            r == literal_type(self.floats@, val@, *expected),
    {
        let smallest = if self.fits(val, Numeric::U8) { Type::Numeric(Numeric::U8) }
        else if self.fits(val, Numeric::U16) { Type::Numeric(Numeric::U16) }
        else if self.fits(val, Numeric::U32) { Type::Numeric(Numeric::U32) }
        else if self.fits(val, Numeric::U64) { Type::Numeric(Numeric::U64) }
        else if self.fits(val, Numeric::I8) { Type::Numeric(Numeric::I8) }
        else if self.fits(val, Numeric::I16) { Type::Numeric(Numeric::I16) }
        else if self.fits(val, Numeric::I32) { Type::Numeric(Numeric::I32) }
        else if self.fits(val, Numeric::I64) { Type::Numeric(Numeric::I64) }
        else if self.fits(val, Numeric::F16) { Type::Numeric(Numeric::F16) }
        else if self.fits(val, Numeric::F32) { Type::Numeric(Numeric::F32) }
        else if self.fits(val, Numeric::F64) { Type::Numeric(Numeric::F64) }
        else { Type::Void };
        match expected {
            Type::Numeric(n) => if self.fits(val, *n) { Type::Numeric(*n) } else { smallest },
            Type::Void => smallest,
            _ => Type::Void,
        }
    }

    /// Checks a value where `expected` is expected and gives its type. Blocks get the
    /// type of their last expression, `if`s without a type get the type of their body.
    fn check_val(&mut self, val: &mut Value, expected: &Type, symbol: &mut SymbolTable) -> (r: Type)
        requires
            old(symbol).wf(),
        ensures
            final(symbol).wf(),
            final(symbol).scopes@ == old(symbol).scopes@,
            prefix_of(old(self).rep.messages@, final(self).rep.messages@),
            final(self).floats == old(self).floats,
            value_size(*final(val)) == value_size(*old(val)),
            leaf_value_type(*old(val), old(symbol).scopes@) matches Some(t) ==> r == t && *final(val) == *old(val)
                && final(self).rep.messages@ == old(self).rep.messages@,
            *old(val) is Block ==> (*final(val) matches Value::Block(t, _) && t == r),
            *old(val) matches Value::Block(_, b) ==> exists|ss: Seq<Seq<Scope>>, ms: Seq<Seq<GraviError>>, ts: Seq<Type>|
                #![trigger body_trace(b@, ss, ms, ts, old(self).floats@)]
                body_trace(b@, ss, ms, ts, old(self).floats@) && opened(old(symbol).scopes@, ss[0], ScopeKind::Block)
                    && ms[0] == old(self).rep.messages@ && ms.last() == final(self).rep.messages@ && ts[0]
                    == Type::Void && ts.last() == r,
            *old(val) matches Value::IfElse(i) ==> (*final(val) matches Value::IfElse(j) && j.ret == (if i.ret is Some {
                i.ret
            } else {
                Some(r)
            })),
            *old(val) matches Value::List(List::Decl(_, rows)) ==> (rows is None ==> r is Void) && (rows is Some
                && !(*expected is Void) ==> r == *expected),
            *old(val) matches Value::Expression(e) ==> r == expr_type(old(symbol).scopes@, e, *expected, old(self).floats@),
            *old(val) matches Value::List(List::Use(id, rows, _)) ==> r == list_use_type(old(symbol).scopes@, id@, rows@),
            *old(val) matches Value::List(List::Use(_, rows, None)) ==> (rows_report(
                old(symbol).scopes@,
                rows@,
                Type::Numeric(Numeric::USize),
                old(self).floats@,
                old(self).rep.messages@,
            ) matches Some(m) ==> final(self).rep.messages@ == m),
            *old(val) matches Value::Expression(e) ==> (expr_report(
                old(symbol).scopes@,
                e,
                *expected,
                old(self).floats@,
                old(self).rep.messages@,
            ) matches Some(m) ==> final(self).rep.messages@ == m),
        decreases value_size(*old(val)), 0nat,
    {
        let mut v = Value::Null;
        std::mem::swap(&mut v, val);
        match v {
            Value::Expression(mut e) => {
                let t = self.check_expr(&mut e, expected, symbol);
                *val = Value::Expression(e);
                t
            },
            Value::StringLiteral(s) => {
                *val = Value::StringLiteral(s);
                Type::StringLiteral
            },
            Value::Boolean(b) => {
                *val = Value::Boolean(b);
                Type::Boolean
            },
            Value::Char(c) => {
                *val = Value::Char(c);
                Type::Character
            },
            Value::Null => {
                *val = Value::Null;
                Type::Void
            },
            Value::Loop(l) => {
                *val = Value::Loop(l);
                Type::Void
            },
            Value::Call(id, args) => {
                let t = match symbol.find(id.as_str()) {
                    Some(Symbol::Function(f)) => f.ret.clone(),
                    _ => Type::Void,
                };
                *val = Value::Call(id, args);
                t
            },
            Value::Block(_, mut b) => {
                let ghost s0 = symbol.scopes@;
                symbol.push(ScopeKind::Block);
                let ghost s1 = symbol.scopes@;
                let ghost b0 = b@;
                let ghost m0 = self.rep.messages@;
                let inf = self.check_body(&mut b, symbol);
                let ghost s2 = symbol.scopes@;
                symbol.pop();
                proof {
                    lemma_block_restores(s0, s1, s2, symbol.scopes@);
                    let (ss, ms, ts) = choose|ss: Seq<Seq<Scope>>, ms: Seq<Seq<GraviError>>, ts: Seq<Type>|
                        #![trigger body_trace(b0, ss, ms, ts, self.floats@)]
                        body_trace(b0, ss, ms, ts, self.floats@) && ss[0] == s1 && ms[0] == m0 && ts[0] == Type::Void
                            && ss.last() == s2 && ms.last() == self.rep.messages@ && ts.last() == inf;
                    assert(body_trace(b0, ss, ms, ts, self.floats@));
                }
                *val = Value::Block(inf.clone(), b);
                inf
            },
            Value::IfElse(mut ie) => {
                let t = self.check_if(&mut ie, symbol);
                *val = Value::IfElse(ie);
                t
            },
            Value::List(List::Decl(mut index, rows)) => {
                let ghost m0 = self.rep.messages@;
                let _ = self.check_expr(&mut index, &Type::Numeric(Numeric::USize), symbol);
                match rows {
                    Some(mut rows) => {
                        let ghost m1 = self.rep.messages@;
                        let t = self.check_rows(&mut rows, expected, true, symbol);
                        proof {
                            lemma_prefix_trans(m0, m1, self.rep.messages@);
                        }
                        *val = Value::List(List::Decl(index, Some(rows)));
                        t
                    },
                    None => {
                        *val = Value::List(List::Decl(index, None));
                        Type::Void
                    },
                }
            },
            Value::List(List::Use(id, mut rows, assigned)) => {
                let ghost m0 = self.rep.messages@;
                let mut ty = match symbol.find(id.as_str()) {
                    Some(Symbol::Variable(var)) => var.ty.clone(),
                    _ => Type::Void,
                };
                let one_char = if rows.len() > 0 && rows[0].len() == 1 {
                    match &rows[0][0] {
                        Value::Expression(Expr::Range(_)) => false,
                        _ => true,
                    }
                } else {
                    false
                };
                if matches!(ty, Type::StringLiteral) && one_char {
                    ty = Type::Character;
                }
                let new_assigned = match assigned {
                    Some(a) => {
                        let mut inner = *a;
                        let found = self.check_val(&mut inner, expected, symbol);
                        if !self.is_compatible(&found, &ty) {
                            self.report(GraviError::throw(Kind::TypeMismatch(found, ty.clone())));
                        }
                        Some(Box::new(inner))
                    },
                    None => None,
                };
                let ghost m1 = self.rep.messages@;
                let _ = self.check_rows(&mut rows, &Type::Numeric(Numeric::USize), false, symbol);
                proof {
                    lemma_prefix_trans(m0, m1, self.rep.messages@);
                }
                *val = Value::List(List::Use(id, rows, new_assigned));
                ty
            },
        }
    }

    /// Checks an expression where `expected` is expected and gives its type.
    fn check_expr(&mut self, expr: &mut Expr, expected: &Type, symbol: &mut SymbolTable) -> (r: Type)
        requires
            old(symbol).wf(),
        ensures
            final(symbol).wf(),
            final(symbol).scopes@ == old(symbol).scopes@,
            prefix_of(old(self).rep.messages@, final(self).rep.messages@),
            final(self).floats == old(self).floats,
            expr_size(*final(expr)) == expr_size(*old(expr)),
            leaf_expr_type(*old(expr), *expected, old(self).floats@) matches Some(t) ==> r == t && *final(expr)
                == *old(expr) && final(self).rep.messages@ == old(self).rep.messages@,
            *old(expr) matches Expr::Identifier(id) ==> r == ident_type(old(symbol).scopes@, id@) && *final(expr)
                == *old(expr) && final(self).rep.messages@ == ident_report(
                old(symbol).scopes@,
                id,
                *expected,
                old(self).rep.messages@,
            ),
            *old(expr) matches Expr::Index(id, _) ==> (r, final(self).rep.messages@) == index_outcome(
                old(symbol).scopes@,
                id,
                old(self).rep.messages@,
            ) && *final(expr) == *old(expr),
            *old(expr) is Boolean ==> r == Type::Boolean,
            *old(expr) matches Expr::Call(id, _) ==> r == call_type(old(symbol).scopes@, id@),
            *old(expr) matches Expr::Unary(u) && unsigned_type(*expected) && u.op != Operator::Sub ==> r is Void,
            r == expr_type(old(symbol).scopes@, *old(expr), *expected, old(self).floats@),
            expr_report(old(symbol).scopes@, *old(expr), *expected, old(self).floats@, old(self).rep.messages@)
                matches Some(m) ==> final(self).rep.messages@ == m,
        decreases expr_size(*old(expr)), 0nat,
    {
        let mut e = Expr::Null;
        std::mem::swap(&mut e, expr);
        match e {
            Expr::Identifier(id) => {
                let (t, uninit) = match symbol.find(id.as_str()) {
                    Some(Symbol::Variable(var)) => (var.ty.clone(), var.value.is_none()),
                    _ => (Type::Void, false),
                };
                if uninit {
                    self.report(GraviError::throw(Kind::UninitializedVariable(id.clone())));
                }
                if !expected.is_none() && !self.is_compatible(&t, expected) {
                    self.report(GraviError::throw(Kind::TypeMismatch(expected.clone(), t.clone())));
                }
                *expr = Expr::Identifier(id);
                t
            },
            Expr::Literal(s) => {
                let t = match expected {
                    Type::Numeric(Numeric::USize) => Type::Numeric(Numeric::USize),
                    _ => self.map_numeric(s.as_str(), expected),
                };
                *expr = Expr::Literal(s);
                t
            },
            Expr::Index(id, i) => {
                let (t, problem) = match symbol.find(id.as_str()) {
                    Some(Symbol::Variable(var)) => if var.ty.is_none() {
                        (Type::Void, 1u8)
                    } else {
                        (var.ty.clone(), 0u8)
                    },
                    _ => (Type::Void, 2u8),
                };
                if problem == 1 {
                    self.report(GraviError::throw(Kind::UntypedVariable(id.clone())));
                } else if problem == 2 {
                    self.report(GraviError::throw(Kind::UndeclaredVariable(id.clone())));
                }
                *expr = Expr::Index(id, i);
                t
            },
            Expr::Range(mut ran) => {
                let t = self.check_range(&mut ran, expected, symbol);
                *expr = Expr::Range(ran);
                t
            },
            Expr::Binary(b) => {
                let ghost m0 = self.rep.messages@;
                proof {
                    lemma_expr_size_pos(*b.right);
                    lemma_expr_size_pos(*b.left);
                }
                let ghost sc = symbol.scopes@;
                let cl = copy_expr(&b.left);
                proof {
                    lemma_same_expr_type(sc, *b.left, cl, *expected, self.floats@);
                    lemma_same_expr_report(sc, *b.left, cl, *expected, self.floats@, m0);
                }
                let mut lv = Value::Expression(cl);
                let l = self.check_val(&mut lv, expected, symbol);
                let ghost m1 = self.rep.messages@;
                let cr = copy_expr(&b.right);
                proof {
                    lemma_same_expr_type(sc, *b.right, cr, l, self.floats@);
                    lemma_same_expr_report(sc, *b.right, cr, l, self.floats@, m1);
                }
                let mut rv = Value::Expression(cr);
                let mut r = self.check_val(&mut rv, &l, symbol);
                proof {
                    lemma_prefix_trans(m0, m1, self.rep.messages@);
                }
                if b.op == Operator::Sub {
                    r = self.sign_converter(&r);
                } else if b.op == Operator::Div {
                    r = Type::Numeric(Numeric::F32);
                }
                if !self.is_compatible(&r, &l) && !l.is_none() && !r.is_none() {
                    self.report(GraviError::throw(Kind::TypeMismatch(l.clone(), r.clone())));
                }
                let t = if !l.is_none() { l } else { r };
                *expr = Expr::Binary(b);
                t
            },
            Expr::Boolean(b) => {
                let ghost m0 = self.rep.messages@;
                proof {
                    lemma_expr_size_pos(*b.right);
                    lemma_expr_size_pos(*b.left);
                }
                let ghost sc = symbol.scopes@;
                let cl = copy_expr(&b.left);
                proof {
                    lemma_same_expr_type(sc, *b.left, cl, Type::Void, self.floats@);
                    lemma_same_expr_report(sc, *b.left, cl, Type::Void, self.floats@, m0);
                }
                let mut lv = Value::Expression(cl);
                let l = self.check_val(&mut lv, &Type::Void, symbol);
                let ghost m1 = self.rep.messages@;
                let r_expected = if !l.is_none() { l.clone() } else { Type::Void };
                let cr = copy_expr(&b.right);
                proof {
                    lemma_same_expr_type(sc, *b.right, cr, r_expected, self.floats@);
                    lemma_same_expr_report(sc, *b.right, cr, r_expected, self.floats@, m1);
                }
                let mut rv = Value::Expression(cr);
                let r = self.check_val(&mut rv, &r_expected, symbol);
                proof {
                    lemma_prefix_trans(m0, m1, self.rep.messages@);
                }
                if !l.same(&r) && !l.is_none() && !r.is_none() {
                    self.report(GraviError::throw(Kind::TypeMismatch(l.clone(), r)));
                }
                *expr = Expr::Boolean(b);
                Type::Boolean
            },
            Expr::Grouped(g) => {
                let mut inner = *g;
                let t = self.check_expr(&mut inner, expected, symbol);
                *expr = Expr::Grouped(Box::new(inner));
                t
            },
            Expr::Unary(u) => {
                let Unary { op, right } = u;
                let mut inner = *right;
                let unsigned_expected = match expected {
                    Type::Numeric(n) => *n == Numeric::USize || *n == Numeric::U8 || *n == Numeric::U16 || *n
                        == Numeric::U32 || *n == Numeric::U64,
                    _ => false,
                };
                let t = if unsigned_expected {
                    let ex = self.check_expr(&mut inner, &Type::Void, symbol);
                    if op == Operator::Sub {
                        self.sign_converter(&ex)
                    } else {
                        Type::Void
                    }
                } else {
                    let ex = if op == Operator::LNot { Type::Boolean } else { Type::Void };
                    self.check_expr(&mut inner, &ex, symbol)
                };
                *expr = Expr::Unary(Unary { op, right: Box::new(inner) });
                t
            },
            Expr::Call(id, mut vals) => {
                let ghost m0 = self.rep.messages@;
                let params = self.check_args(&mut vals, symbol);
                let ghost m1 = self.rep.messages@;
                let _ = self.check_call(&mut vals, &params, symbol);
                proof {
                    lemma_prefix_trans(m0, m1, self.rep.messages@);
                }
                let t = match symbol.find(id.as_str()) {
                    Some(Symbol::Function(f)) => f.ret.clone(),
                    _ => Type::Void,
                };
                if !expected.is_none() && !self.is_compatible(&t, expected) {
                    self.report(GraviError::throw(Kind::TypeMismatch(expected.clone(), t.clone())));
                }
                *expr = Expr::Call(id, vals);
                t
            },
            Expr::CharLiteral(c) => {
                *expr = Expr::CharLiteral(c);
                Type::Character
            },
            Expr::StringLiteral(s) => {
                *expr = Expr::StringLiteral(s);
                Type::Void
            },
            Expr::Cast(c) => {
                *expr = Expr::Cast(c);
                Type::Void
            },
            Expr::Null => {
                *expr = Expr::Null;
                Type::Void
            },
        }
    }

    /// Checks the bounds and step of a range; its type is their common type, `none` if
    /// they differ.
    fn check_range(&mut self, range: &mut Range, expected: &Type, symbol: &mut SymbolTable) -> (r: Type)
        requires
            old(symbol).wf(),
        ensures
            final(symbol).wf(),
            final(symbol).scopes@ == old(symbol).scopes@,
            prefix_of(old(self).rep.messages@, final(self).rep.messages@),
            final(self).floats == old(self).floats,
            range_size(*final(range)) == range_size(*old(range)),
            final(range).inclusive == old(range).inclusive,
            r == expr_type(old(symbol).scopes@, Expr::Range(*old(range)), *expected, old(self).floats@),
            expr_report(
                old(symbol).scopes@,
                Expr::Range(*old(range)),
                *expected,
                old(self).floats@,
                old(self).rep.messages@,
            ) matches Some(m) ==> final(self).rep.messages@ == m,
        decreases range_size(*old(range)), 0nat,
    {
        let mut rg = Range { start: Box::new(Expr::Null), step: None, end: Box::new(Expr::Null), inclusive: false };
        std::mem::swap(&mut rg, range);
        let Range { start, step, end, inclusive } = rg;
        proof {
            lemma_expr_size_pos(*start);
            lemma_expr_size_pos(*end);
        }
        let ghost m0 = self.rep.messages@;
        let mut s = *start;
        let st = self.check_expr(&mut s, expected, symbol);
        let ghost m1 = self.rep.messages@;
        let (new_step, step_ty) = match step {
            Some(x) => {
                let mut inner = *x;
                let t = self.check_expr(&mut inner, expected, symbol);
                (Some(Box::new(inner)), Some(t))
            },
            None => (None, None),
        };
        let ghost m2 = self.rep.messages@;
        let mut e = *end;
        let en = self.check_expr(&mut e, expected, symbol);
        proof {
            lemma_prefix_trans(m0, m1, m2);
            lemma_prefix_trans(m0, m2, self.rep.messages@);
        }
        *range = Range { start: Box::new(s), step: new_step, end: Box::new(e), inclusive };
        match step_ty {
            Some(t) => if st.same(&t) && t.same(&en) {
                st
            } else {
                Type::Void
            },
            None => if st.same(&en) {
                st
            } else {
                Type::Void
            },
        }
    }

    /// Checks the body of an `if` and of its `else` branches; the type of the `if` is
    /// that of its body, and each branch whose type is not known yet gets it.
    fn check_if(&mut self, ifelse: &mut IfElse, symbol: &mut SymbolTable) -> (r: Type)
        requires
            old(symbol).wf(),
        ensures
            final(symbol).wf(),
            final(symbol).scopes@ == old(symbol).scopes@,
            prefix_of(old(self).rep.messages@, final(self).rep.messages@),
            final(self).floats == old(self).floats,
            ifelse_size(*final(ifelse)) == ifelse_size(*old(ifelse)),
            final(ifelse).ret == (if old(ifelse).ret is Some { old(ifelse).ret } else { Some(r) }),
        decreases ifelse_size(*old(ifelse)), 0nat,
    {
        let mut ie = IfElse::new();
        std::mem::swap(&mut ie, ifelse);
        let IfElse { cond, mut body, elif, ret } = ie;
        let ghost m0 = self.rep.messages@;
        let ghost s0 = symbol.scopes@;
        symbol.push(ScopeKind::Block);
        let ghost s1 = symbol.scopes@;
        let ty = self.check_body(&mut body, symbol);
        let ghost s2 = symbol.scopes@;
        symbol.pop();
        proof {
            lemma_block_restores(s0, s1, s2, symbol.scopes@);
        }
        let ghost m1 = self.rep.messages@;
        let new_elif = match elif {
            Some(b) => {
                let mut e = *b;
                let et = self.check_if(&mut e, symbol);
                if !ty.same(&et) {
                    self.report(GraviError::throw(Kind::TypeMismatch(ty.clone(), et)));
                } else if e.ret.is_none() {
                    e.ret = Some(ty.clone());
                }
                Some(Box::new(e))
            },
            None => None,
        };
        proof {
            lemma_prefix_trans(m0, m1, self.rep.messages@);
        }
        let new_ret = match ret {
            Some(t) => Some(t),
            None => Some(ty.clone()),
        };
        *ifelse = IfElse { cond, body, elif: new_elif, ret: new_ret };
        ty
    }

    /// Checks a list of statements in the innermost scope and gives the type of the last
    /// expression or return among them (`none` if there is none).
    fn check_body(&mut self, items: &mut Vec<Items>, symbol: &mut SymbolTable) -> (r: Type)
        requires
            old(symbol).wf(),
        ensures
            final(symbol).wf(),
            only_innermost(old(symbol).scopes@, final(symbol).scopes@),
            prefix_of(old(self).rep.messages@, final(self).rep.messages@),
            final(self).floats == old(self).floats,
            items_size(final(items)@) == items_size(old(items)@),
            final(items)@.len() == old(items)@.len(),
            old(items)@.len() == 0 ==> r is Void,
            forall|k: int| 0 <= k < old(items)@.len() ==> keeps_decl(#[trigger] old(items)@[k], final(items)@[k]),
            old(items)@.len() > 0 ==> exists|m: Seq<GraviError>|
                first_reports(
                    old(items)@[0],
                    old(symbol).scopes@,
                    old(self).floats@,
                    old(self).rep.messages@,
                    m,
                ) && prefix_of(m, final(self).rep.messages@),
            old(items)@.len() > 0 ==> first_typed(
                old(items)@[0],
                final(items)@[0],
                old(symbol).scopes@,
                old(self).floats@,
            ),
            old(items)@.len() == 1 ==> single_type(old(items)@[0], r, old(symbol).scopes@, old(self).floats@),
            old(items)@.len() == 1 ==> first_reports(
                old(items)@[0],
                old(symbol).scopes@,
                old(self).floats@,
                old(self).rep.messages@,
                final(self).rep.messages@,
            ),
            old(items)@.len() == 1 && old(symbol).scopes@.len() > 0 ==> first_bound(
                old(items)@[0],
                final(items)@[0],
                final(symbol).scopes@,
            ),
            exists|ss: Seq<Seq<Scope>>, ms: Seq<Seq<GraviError>>, ts: Seq<Type>|
                #![trigger body_trace(old(items)@, ss, ms, ts, old(self).floats@)]
                body_trace(old(items)@, ss, ms, ts, old(self).floats@) && ss[0] == old(symbol).scopes@ && ms[0]
                    == old(self).rep.messages@ && ts[0] == Type::Void && ss.last() == final(symbol).scopes@
                    && ms.last() == final(self).rep.messages@ && ts.last() == r,
        decreases items_size(old(items)@), 2nat,
    {
        let mut rest: Vec<Items> = Vec::new();
        std::mem::swap(&mut rest, items);
        let mut out: Vec<Items> = Vec::new();
        let mut ty = Type::Void;
        let ghost mut m_first: Seq<GraviError> = Seq::empty();
        let ghost mut ss: Seq<Seq<Scope>> = seq![symbol.scopes@];
        let ghost mut ms: Seq<Seq<GraviError>> = seq![self.rep.messages@];
        let ghost mut ts: Seq<Type> = seq![Type::Void];
        while rest.len() > 0
            invariant
                body_trace(old(items)@.take(out@.len() as int), ss, ms, ts, old(self).floats@),
                ss[0] == old(symbol).scopes@,
                ms[0] == old(self).rep.messages@,
                ts[0] == Type::Void,
                ss.last() == symbol.scopes@,
                ms.last() == self.rep.messages@,
                ts.last() == ty,
                out@.len() == 0 ==> symbol.scopes@ == old(symbol).scopes@ && self.rep.messages@ == old(
                    self,
                ).rep.messages@,
                out@.len() > 0 ==> first_reports(
                    old(items)@[0],
                    old(symbol).scopes@,
                    old(self).floats@,
                    old(self).rep.messages@,
                    m_first,
                ) && prefix_of(m_first, self.rep.messages@),
                out@.len() > 0 ==> first_typed(old(items)@[0], out@[0], old(symbol).scopes@, old(self).floats@),
                out@.len() == 1 ==> single_type(old(items)@[0], ty, old(symbol).scopes@, old(self).floats@),
                out@.len() == 1 ==> first_reports(
                    old(items)@[0],
                    old(symbol).scopes@,
                    old(self).floats@,
                    old(self).rep.messages@,
                    self.rep.messages@,
                ),
                out@.len() == 1 && old(symbol).scopes@.len() > 0 ==> first_bound(
                    old(items)@[0],
                    out@[0],
                    symbol.scopes@,
                ),
                symbol.wf(),
                only_innermost(old(symbol).scopes@, symbol.scopes@),
                prefix_of(old(self).rep.messages@, self.rep.messages@),
                self.floats == old(self).floats,
                items_size(out@) + items_size(rest@) == items_size(old(items)@),
                out@.len() + rest@.len() == old(items)@.len(),
                out@.len() == 0 ==> ty is Void,
                rest@ == old(items)@.subrange(out@.len() as int, old(items)@.len() as int),
                forall|k: int| 0 <= k < out@.len() ==> keeps_decl(#[trigger] old(items)@[k], out@[k]),
            decreases rest@.len(),
        {
            let ghost before = rest@;
            let ghost sc = symbol.scopes@;
            let ghost m0 = self.rep.messages@;
            proof {
                lemma_items_size_first(before);
            }
            let mut it = rest.remove(0);
            assert(rest@ =~= before.drop_first());
            let ghost first = out@.len() == 0;
            let ghost t_before = ty;
            let ghost it0 = it;
            let patch = self.check_item(&mut it, &mut ty, symbol);
            proof {
                let n = out@.len() as int;
                assert(it0 == old(items)@[n]);
                assert(stmt_step(it0, sc, symbol.scopes@, m0, self.rep.messages@, t_before, ty, self.floats@));
                let ss0 = ss;
                let ms0 = ms;
                let ts0 = ts;
                ss = ss.push(symbol.scopes@);
                ms = ms.push(self.rep.messages@);
                ts = ts.push(ty);
                assert(old(items)@.take(n + 1).drop_last() =~= old(items)@.take(n));
                assert forall|k: int| 0 <= k < n + 1 implies #[trigger] stmt_step(
                    old(items)@.take(n + 1)[k],
                    ss[k],
                    ss[k + 1],
                    ms[k],
                    ms[k + 1],
                    ts[k],
                    ts[k + 1],
                    old(self).floats@,
                ) by {
                    if k < n {
                        assert(old(items)@.take(n + 1)[k] == old(items)@.take(n)[k]);
                        assert(stmt_step(
                            old(items)@.take(n)[k],
                            ss0[k],
                            ss0[k + 1],
                            ms0[k],
                            ms0[k + 1],
                            ts0[k],
                            ts0[k + 1],
                            old(self).floats@,
                        ));
                    }
                }
            }
            proof {
                lemma_prefix_trans(old(self).rep.messages@, m0, self.rep.messages@);
                if first {
                    m_first = self.rep.messages@;
                    assert(before[0] == old(items)@[0]);
                } else {
                    lemma_prefix_trans(m_first, m0, self.rep.messages@);
                }
            }
            match patch {
                Some((name, t)) => {
                    let ghost pre_patch = out@;
                    patch_decl(&mut out, name.as_str(), t);
                    proof {
                        lemma_keeps_after_patch(old(items)@, pre_patch, out@, name@, t);
                        if pre_patch.len() > 0 {
                            assert(out@[0] == pre_patch[0] || untyped_decl_named(pre_patch[0], name@));
                        }
                    }
                },
                None => {},
            }
            let ghost prev = out@;
            out.push(it);
            assert(out@.drop_last() =~= prev);
            proof {
                assert(before[0] == old(items)@[prev.len() as int]);
                lemma_keeps_after_push(old(items)@, prev, out@);
            }
        }
        proof {
            assert(old(items)@.take(old(items)@.len() as int) =~= old(items)@);
            assert(body_trace(old(items)@, ss, ms, ts, old(self).floats@));
        }
        *items = out;
        ty
    }

    /// Checks one statement of a list. `ty` is the type of the last expression so far.
    /// An assignment to a known variable gives back the variable's name and new type, for
    /// an earlier untyped declaration of it to take.
    fn check_item(&mut self, it: &mut Items, ty: &mut Type, symbol: &mut SymbolTable) -> (patch: Option<
        (String, Type),
    >)
        requires
            old(symbol).wf(),
        ensures
            final(symbol).wf(),
            only_innermost(old(symbol).scopes@, final(symbol).scopes@),
            prefix_of(old(self).rep.messages@, final(self).rep.messages@),
            final(self).floats == old(self).floats,
            item_size(*final(it)) == item_size(*old(it)),
            patch is Some ==> (*old(it) matches Items::Var(Var::Var(v)) && patch.unwrap().0@ == v.name@),
            keeps_decl(*old(it), *final(it)),
            *old(it) matches Items::Var(Var::Decl(d)) ==> (*final(it) matches Items::Var(Var::Decl(d2)) && (d.ty is Void
                ==> d2.ty == *final(ty)) && (!(d.ty is Void) ==> *final(ty) == *old(ty)) && (old(symbol).scopes@.len() > 0
                ==> bound_with_type(final(symbol).scopes@, d.id@, d2.ty))),
            old(symbol).scopes@.len() > 0 ==> first_bound(*old(it), *final(it), final(symbol).scopes@),
            *old(it) matches Items::Var(Var::Decl(d)) ==> (*final(it) matches Items::Var(Var::Decl(d2)) && d2.mutable
                == d.mutable && d2.par == d.par && d2.list == d.list),
            *old(it) matches Items::Var(Var::Decl(d)) ==> (d.ty is Void && d.val is Some && d.val.unwrap() is Expression
                ==> *final(ty) == expr_type(old(symbol).scopes@, d.val.unwrap()->Expression_0, *old(ty), old(self).floats@)),
            *old(it) matches Items::Var(Var::Decl(d)) ==> (decl_report(
                old(symbol).scopes@,
                d,
                *old(ty),
                old(self).floats@,
                old(self).rep.messages@,
            ) matches Some(m) ==> final(self).rep.messages@ == m),
            *old(it) matches Items::Var(Var::Var(v)) ==> (assign_report(
                old(symbol).scopes@,
                v,
                old(self).floats@,
                old(self).rep.messages@,
            ) matches Some(m) ==> final(self).rep.messages@ == m),
        decreases item_size(*old(it)), 1nat,
    {
        let mut x = Items::Stop;
        std::mem::swap(&mut x, it);
        let ghost s0 = symbol.scopes@;
        let ghost m0 = self.rep.messages@;
        match x {
            Items::Var(Var::Decl(v)) => {
                let VarDecl { par, mutable, id, ty: dty, val, list } = v;
                let (new_val, new_ty) = if dty.is_none() {
                    let nv = match val {
                        Some(x) => {
                            let mut x = x;
                            let t = self.check_val(&mut x, &*ty, symbol);
                            *ty = t;
                            Some(x)
                        },
                        None => None,
                    };
                    (nv, ty.clone())
                } else {
                    match &val {
                        Some(x) => {
                            let mut c = copy_value(x);
                            proof {
                                if x is Expression {
                                    let e = x->Expression_0;
                                    let e2 = c->Expression_0;
                                    lemma_same_expr_type(s0, e, e2, dty, self.floats@);
                                    lemma_same_expr_report(s0, e, e2, dty, self.floats@, m0);
                                }
                            }
                            let t = self.check_val(&mut c, &dty, symbol);
                            if !t.same(&dty) {
                                self.report(GraviError::throw(Kind::TypeMismatch(dty.clone(), t)));
                            }
                        },
                        None => {},
                    }
                    (val, dty)
                };
                let value_copy = match &new_val {
                    Some(x) => Some(copy_value(x)),
                    None => None,
                };
                symbol.add(
                    id.as_str(),
                    Symbol::Variable(VariableSym { ty: new_ty.clone(), mutable, par, list, value: value_copy }),
                );
                *it = Items::Var(Var::Decl(VarDecl { par, mutable, id, ty: new_ty, val: new_val, list }));
                None
            },
            Items::Var(Var::Var(v)) => {
                let Variable { name, val } = v;
                let existing = match symbol.find(name.as_str()) {
                    Some(Symbol::Variable(var)) => Some(copy_var(var)),
                    _ => None,
                };
                match existing {
                    Some(var_sym) => {
                        let mut var_sym = var_sym;
                        let new_val = match val {
                            Some(x) => {
                                let mut x = x;
                                var_sym.ty = self.check_val(&mut x, &Type::Void, symbol);
                                if var_sym.value.is_none() {
                                    var_sym.value = Some(copy_value(&x));
                                }
                                if !var_sym.mutable {
                                    self.report(GraviError::throw(Kind::MutatingImmutable(name.clone())));
                                }
                                Some(x)
                            },
                            None => None,
                        };
                        let t = var_sym.ty.clone();
                        symbol.add(name.as_str(), Symbol::Variable(var_sym));
                        *it = Items::Var(Var::Var(Variable { name: name.clone(), val: new_val }));
                        Some((name, t))
                    },
                    None => {
                        *it = Items::Var(Var::Var(Variable { name, val }));
                        None
                    },
                }
            },
            Items::Expr(Value::Call(id, vals)) => {
                let mut vals = vals;
                let params = param_types(symbol, id.as_str());
                let _ = self.check_call(&mut vals, &params, symbol);
                *it = Items::Expr(Value::Call(id, vals));
                None
            },
            Items::Expr(Value::Block(bt, b)) => {
                let mut b = b;
                symbol.push(ScopeKind::Block);
                let ghost s1 = symbol.scopes@;
                let _ = self.check_body(&mut b, symbol);
                let ghost s2 = symbol.scopes@;
                symbol.pop();
                proof {
                    lemma_block_restores(s0, s1, s2, symbol.scopes@);
                }
                *it = Items::Expr(Value::Block(bt, b));
                None
            },
            Items::Expr(Value::IfElse(ie)) => {
                let mut ie = ie;
                *ty = self.check_if(&mut ie, symbol);
                *it = Items::Expr(Value::IfElse(ie));
                None
            },
            Items::Expr(val) => {
                let mut val = val;
                *ty = self.check_val(&mut val, &Type::Void, symbol);
                *it = Items::Expr(val);
                None
            },
            Items::Ret(val) => {
                let mut val = val;
                let expected = match symbol.nearest_fun() {
                    Some(t) => t.clone(),
                    None => ty.clone(),
                };
                *ty = self.check_val(&mut val, &expected, symbol);
                *it = Items::Ret(val);
                None
            },
            Items::Stop => {
                *it = Items::Stop;
                None
            },
            Items::Skip => {
                *it = Items::Skip;
                None
            },
        }
    }

    /// Checks the arguments of a call against the parameter types (an argument beyond
    /// them against `none`), reporting each one whose type does not fit.
    fn check_call(&mut self, vals: &mut Vec<Value>, params: &Vec<Type>, symbol: &mut SymbolTable) -> (r: Type)
        requires
            old(symbol).wf(),
        ensures
            final(symbol).wf(),
            final(symbol).scopes@ == old(symbol).scopes@,
            prefix_of(old(self).rep.messages@, final(self).rep.messages@),
            final(self).floats == old(self).floats,
            values_size(final(vals)@) == values_size(old(vals)@),
            final(vals)@.len() == old(vals)@.len(),
            r is Void,
        decreases values_size(old(vals)@), 1nat,
    {
        let mut rest: Vec<Value> = Vec::new();
        std::mem::swap(&mut rest, vals);
        let mut out: Vec<Value> = Vec::new();
        while rest.len() > 0
            invariant
                symbol.wf(),
                symbol.scopes@ == old(symbol).scopes@,
                prefix_of(old(self).rep.messages@, self.rep.messages@),
                self.floats == old(self).floats,
                values_size(out@) + values_size(rest@) == values_size(old(vals)@),
                out@.len() + rest@.len() == old(vals)@.len(),
            decreases rest@.len(),
        {
            let ghost before = rest@;
            let ghost m0 = self.rep.messages@;
            proof {
                lemma_values_size_first(before);
            }
            let mut v = rest.remove(0);
            assert(rest@ =~= before.drop_first());
            let i = out.len();
            let param_ty = if i < params.len() { params[i].clone() } else { Type::Void };
            let t = self.check_val(&mut v, &param_ty, symbol);
            if !self.is_compatible(&t, &param_ty) && !param_ty.is_none() {
                self.report(GraviError::throw(Kind::TypeMismatch(param_ty.clone(), t)));
            }
            proof {
                lemma_prefix_trans(old(self).rep.messages@, m0, self.rep.messages@);
            }
            let ghost prev = out@;
            out.push(v);
            assert(out@.drop_last() =~= prev);
        }
        *vals = out;
        Type::Void
    }

    /// Checks each argument of a call with nothing expected, giving their types.
    fn check_args(&mut self, vals: &mut Vec<Value>, symbol: &mut SymbolTable) -> (r: Vec<Type>)
        requires
            old(symbol).wf(),
        ensures
            final(symbol).wf(),
            final(symbol).scopes@ == old(symbol).scopes@,
            prefix_of(old(self).rep.messages@, final(self).rep.messages@),
            final(self).floats == old(self).floats,
            values_size(final(vals)@) == values_size(old(vals)@),
            final(vals)@.len() == old(vals)@.len(),
            r@.len() == old(vals)@.len(),
        decreases values_size(old(vals)@), 1nat,
    {
        let mut rest: Vec<Value> = Vec::new();
        std::mem::swap(&mut rest, vals);
        let mut out: Vec<Value> = Vec::new();
        let mut types: Vec<Type> = Vec::new();
        while rest.len() > 0
            invariant
                symbol.wf(),
                symbol.scopes@ == old(symbol).scopes@,
                prefix_of(old(self).rep.messages@, self.rep.messages@),
                self.floats == old(self).floats,
                values_size(out@) + values_size(rest@) == values_size(old(vals)@),
                out@.len() + rest@.len() == old(vals)@.len(),
                types@.len() == out@.len(),
            decreases rest@.len(),
        {
            let ghost before = rest@;
            let ghost m0 = self.rep.messages@;
            proof {
                lemma_values_size_first(before);
            }
            let mut v = rest.remove(0);
            assert(rest@ =~= before.drop_first());
            let t = self.check_val(&mut v, &Type::Void, symbol);
            proof {
                lemma_prefix_trans(old(self).rep.messages@, m0, self.rep.messages@);
            }
            types.push(t);
            let ghost prev = out@;
            out.push(v);
            assert(out@.drop_last() =~= prev);
        }
        *vals = out;
        types
    }

    /// Checks the elements of a list, row by row. With nothing expected, the first element
    /// sets what the others are expected to be and the type is that of the last; else each
    /// is checked against `expected` and, when `strict`, the first that does not fit is
    /// reported and the rest left unchecked.
    #[verifier::rlimit(100)]
    #[verifier::spinoff_prover]
    fn check_rows(&mut self, rows: &mut Vec<Vec<Value>>, expected: &Type, strict: bool, symbol: &mut SymbolTable) -> (r: Type)
        requires
            old(symbol).wf(),
        ensures
            final(symbol).wf(),
            final(symbol).scopes@ == old(symbol).scopes@,
            prefix_of(old(self).rep.messages@, final(self).rep.messages@),
            final(self).floats == old(self).floats,
            rows_size(final(rows)@) == rows_size(old(rows)@),
            final(rows)@.len() == old(rows)@.len(),
            strict && !(*expected is Void) ==> r == *expected,
            !strict && !(*expected is Void) ==> (rows_report(
                old(symbol).scopes@,
                old(rows)@,
                *expected,
                old(self).floats@,
                old(self).rep.messages@,
            ) matches Some(m) ==> final(self).rep.messages@ == m),
        decreases rows_size(old(rows)@), 1nat,
    {
        let infer = expected.is_none();
        let mut exp: Option<Type> = None;
        let mut ty = Type::Void;
        let mut stopped = false;
        let mut rest_rows: Vec<Vec<Value>> = Vec::new();
        std::mem::swap(&mut rest_rows, rows);
        let mut out_rows: Vec<Vec<Value>> = Vec::new();
        while rest_rows.len() > 0
            invariant
                symbol.wf(),
                symbol.scopes@ == old(symbol).scopes@,
                prefix_of(old(self).rep.messages@, self.rep.messages@),
                self.floats == old(self).floats,
                rows_size(out_rows@) + rows_size(rest_rows@) == rows_size(old(rows)@),
                out_rows@.len() + rest_rows@.len() == old(rows)@.len(),
                infer == (*expected is Void),
                rest_rows@ == old(rows)@.subrange(out_rows@.len() as int, old(rows)@.len() as int),
                !strict ==> !stopped,
                !strict && !infer ==> (rows_report(
                    old(symbol).scopes@,
                    old(rows)@.take(out_rows@.len() as int),
                    *expected,
                    old(self).floats@,
                    old(self).rep.messages@,
                ) matches Some(m) ==> self.rep.messages@ == m),
            decreases rest_rows@.len(),
        {
            let ghost k = out_rows@.len() as int;
            let ghost mk = self.rep.messages@;
            proof {
                assert(old(rows)@.take(k + 1).drop_last() =~= old(rows)@.take(k));
                assert(old(rows)@.take(k + 1).last() == old(rows)@[k]);
                assert(rest_rows@[0] == old(rows)@[k]);
            }
            let ghost before_rows = rest_rows@;
            proof {
                lemma_rows_size_first(before_rows);
            }
            let mut row = rest_rows.remove(0);
            assert(rest_rows@ =~= before_rows.drop_first());
            let ghost row0 = row@;
            let mut new_row: Vec<Value> = Vec::new();
            while row.len() > 0
                invariant
                    symbol.wf(),
                    symbol.scopes@ == old(symbol).scopes@,
                    prefix_of(old(self).rep.messages@, self.rep.messages@),
                    self.floats == old(self).floats,
                    values_size(new_row@) + values_size(row@) == values_size(row0),
                    rows_size(out_rows@) + 1 + values_size(row0) + rows_size(rest_rows@) == rows_size(old(rows)@),
                    new_row@.len() + row@.len() == row0.len(),
                    infer == (*expected is Void),
                    row@ == row0.subrange(new_row@.len() as int, row0.len() as int),
                    !strict ==> !stopped,
                    !strict && !infer && rows_report(
                        old(symbol).scopes@,
                        old(rows)@.take(k),
                        *expected,
                        old(self).floats@,
                        old(self).rep.messages@,
                    ) == Some(mk) ==> (vals_report(
                        old(symbol).scopes@,
                        row0.take(new_row@.len() as int),
                        *expected,
                        old(self).floats@,
                        mk,
                    ) matches Some(m) ==> self.rep.messages@ == m),
                decreases row@.len(),
            {
                let ghost j = new_row@.len() as int;
                proof {
                    assert(row0.take(j + 1).drop_last() =~= row0.take(j));
                    assert(row0.take(j + 1).last() == row0[j]);
                    assert(row@[0] == row0[j]);
                }
                let ghost before = row@;
                let ghost m0 = self.rep.messages@;
                proof {
                    lemma_values_size_first(before);
                }
                let mut v = row.remove(0);
                assert(row@ =~= before.drop_first());
                let ghost v0 = v;
                proof {
                    assert(v0 == row0[j]);
                }
                if infer {
                    if exp.is_none() {
                        let t0 = self.check_val(&mut v, expected, symbol);
                        exp = Some(t0);
                    }
                    let ghost m1 = self.rep.messages@;
                    let e = match &exp {
                        Some(t) => t.clone(),
                        None => Type::Void,
                    };
                    ty = self.check_val(&mut v, &e, symbol);
                    proof {
                        lemma_prefix_trans(m0, m1, self.rep.messages@);
                    }
                } else if !stopped {
                    let t = self.check_val(&mut v, expected, symbol);
                    if strict && !self.is_compatible(&t, expected) {
                        self.report(GraviError::throw(Kind::TypeMismatch(expected.clone(), t)));
                        stopped = true;
                    }
                }
                proof {
                    lemma_prefix_trans(old(self).rep.messages@, m0, self.rep.messages@);
                    if !strict && !infer && rows_report(
                        old(symbol).scopes@,
                        old(rows)@.take(k),
                        *expected,
                        old(self).floats@,
                        old(self).rep.messages@,
                    ) == Some(mk) && vals_report(
                        old(symbol).scopes@,
                        row0.take(j + 1),
                        *expected,
                        old(self).floats@,
                        mk,
                    ) is Some {
                        assert(vals_report(
                            old(symbol).scopes@,
                            row0.take(j),
                            *expected,
                            old(self).floats@,
                            mk,
                        ) == Some(m0));
                    }
                }
                let ghost prev = new_row@;
                new_row.push(v);
                assert(new_row@.drop_last() =~= prev);
            }
            proof {
                assert(row0.take(row0.len() as int) =~= row0);
            }
            let ghost prev_rows = out_rows@;
            out_rows.push(new_row);
            assert(out_rows@.drop_last() =~= prev_rows);
        }
        proof {
            assert(old(rows)@.take(old(rows)@.len() as int) =~= old(rows)@);
        }
        *rows = out_rows;
        if !infer && strict {
            ty = expected.clone();
        }
        ty
    }

    /// Binds the parameters of a function in the innermost scope (as initialised
    /// variables) and checks its body in a new block scope.
    fn check_fun(&mut self, fun: &mut Function, symbol: &mut SymbolTable)
        requires
            old(symbol).wf(),
        ensures
            final(symbol).wf(),
            only_innermost(old(symbol).scopes@, final(symbol).scopes@),
            prefix_of(old(self).rep.messages@, final(self).rep.messages@),
            final(self).floats == old(self).floats,
            final(fun).id == old(fun).id,
            final(fun).params == old(fun).params,
            final(fun).ret == old(fun).ret,
            final(fun).public == old(fun).public,
            final(fun).lambda == old(fun).lambda,
            final(fun).body@.len() == old(fun).body@.len(),
            items_size(final(fun).body@) == items_size(old(fun).body@),
            fun_kept(*old(fun), *final(fun)),
            old(symbol).scopes@.len() == 0 ==> final(symbol).scopes@ == old(symbol).scopes@,
            body_checked(
                old(fun).body@,
                final(fun).body@,
                old(self).floats@,
                old(self).rep.messages@,
                final(self).rep.messages@,
            ),
            old(symbol).scopes@.len() > 0 ==> forall|name: Seq<char>|
                #[trigger] lookup(final(symbol).scopes@.last().symbols@, name) == params_bound(
                    old(fun).params@,
                    name,
                    old(symbol).scopes@.last().symbols@,
                ),
    {
        let mut f = Function::new();
        std::mem::swap(&mut f, fun);
        let Function { public, lambda, id, params, ret, mut body } = f;
        let ghost syms0 = if old(symbol).scopes@.len() > 0 {
            old(symbol).scopes@.last().symbols@
        } else {
            Seq::empty()
        };
        proof {
            assert(params@ == old(fun).params@);
            if old(symbol).scopes@.len() > 0 {
                assert forall|name: Seq<char>|
                    #[trigger] lookup(symbol.scopes@.last().symbols@, name) == params_bound(
                        params@.take(0),
                        name,
                        syms0,
                    ) by {
                    assert(params@.take(0).len() == 0);
                }
            }
        }
        let mut i: usize = 0;
        while i < params.len()
            invariant
                symbol.wf(),
                only_innermost(old(symbol).scopes@, symbol.scopes@),
                i <= params@.len(),
                old(symbol).scopes@.len() == 0 ==> symbol.scopes@ == old(symbol).scopes@,
                old(symbol).scopes@.len() > 0 ==> syms0 == old(symbol).scopes@.last().symbols@,
                old(symbol).scopes@.len() > 0 ==> forall|name: Seq<char>|
                    #[trigger] lookup(symbol.scopes@.last().symbols@, name) == params_bound(
                        params@.take(i as int),
                        name,
                        syms0,
                    ),
            decreases params.len() - i,
        {
            let p = &params[i];
            let ghost before = symbol.scopes@;
            let sym = Symbol::Variable(
                VariableSym { mutable: p.mutable, ty: p.ty.clone(), par: p.par, list: p.list, value: Some(Value::Null) },
            );
            proof {
                assert(sym == param_symbol(params@[i as int]));
            }
            symbol.add(p.id.as_str(), sym);
            proof {
                assert(params@.take(i + 1).drop_last() =~= params@.take(i as int));
                assert(params@.take(i + 1).last() == params@[i as int]);
                if old(symbol).scopes@.len() > 0 {
                    assert forall|name: Seq<char>|
                        #[trigger] lookup(symbol.scopes@.last().symbols@, name) == params_bound(
                            params@.take(i + 1),
                            name,
                            syms0,
                        ) by {
                        if name != params@[i as int].id@ {
                            assert(lookup(symbol.scopes@.last().symbols@, name) == lookup(before.last().symbols@, name));
                        }
                    }
                }
            }
            i = i + 1;
        }
        proof {
            assert(params@.take(params@.len() as int) =~= params@);
        }
        let ghost s0 = symbol.scopes@;
        symbol.push(ScopeKind::Block);
        let ghost s1 = symbol.scopes@;
        let ghost b0 = body@;
        let ghost mb = self.rep.messages@;
        let _ = self.check_body(&mut body, symbol);
        proof {
            assert(b0 == old(fun).body@);
            assert(mb == old(self).rep.messages@);
            if b0.len() > 0 {
                let m = choose|m: Seq<GraviError>|
                    first_reports(b0[0], s1, self.floats@, mb, m) && prefix_of(m, self.rep.messages@);
                assert(prefix_of(mb, mb));
                assert(first_reports(b0[0], s1, self.floats@, mb, m));
                assert(first_typed(b0[0], body@[0], s1, self.floats@));
            }
            let (ss, ms, ts) = choose|ss: Seq<Seq<Scope>>, ms: Seq<Seq<GraviError>>, ts: Seq<Type>|
                #![trigger body_trace(b0, ss, ms, ts, self.floats@)]
                body_trace(b0, ss, ms, ts, self.floats@) && ss[0] == s1 && ms[0] == mb && ts[0] == Type::Void
                    && ss.last() == symbol.scopes@ && ms.last() == self.rep.messages@;
            assert(body_trace(b0, ss, ms, ts, self.floats@));
            assert(prefix_of(mb, ms[0]));
        }
        let ghost s2 = symbol.scopes@;
        symbol.pop();
        proof {
            lemma_block_restores(s0, s1, s2, symbol.scopes@);
        }
        *fun = Function { public, lambda, id, params, ret, body };
    }

    /// Checks a program: first the bodies of the imported functions (each in a scope of
    /// its own, with its parameters as uninitialised variables, then given back to the
    /// table), then each function and global variable of the program. A second entry
    /// point is reported. Each global variable opens a global scope that stays open.
    pub fn process(&mut self, prog: &mut Program, symbol: &mut SymbolTable)
        requires
            old(symbol).wf(),
        ensures
            final(symbol).wf(),
            prefix_of(old(self).rep.messages@, final(self).rep.messages@),
            final(self).floats == old(self).floats,
            final(prog).items@.len() == old(prog).items@.len(),
            final(symbol).scopes@.len() == old(symbol).scopes@.len() + global_vars(old(prog).items@),
            forall|k: int| 0 <= k < old(prog).items@.len() ==> global_kept(#[trigger] old(prog).items@[k], final(prog).items@[k]),
            forall|k: int|
                0 <= k < old(prog).items@.len() ==> global_checked(
                    #[trigger] old(prog).items@[k],
                    final(prog).items@[k],
                    old(self).floats@,
                    old(self).rep.messages@,
                    final(self).rep.messages@,
                ),
    {
        let ghost n0 = symbol.scopes@.len();
        let mut imported = symbol.take();
        while imported.len() > 0
            invariant
                symbol.wf(),
                symbol.scopes@.len() == n0,
                prefix_of(old(self).rep.messages@, self.rep.messages@),
                self.floats == old(self).floats,
            decreases imported@.len(),
        {
            let (name, ret, params, mut body) = imported.remove(0);
            let ghost m0 = self.rep.messages@;
            symbol.push(ScopeKind::Function(name.clone(), ret));
            let mut i: usize = 0;
            while i < params.len()
                invariant
                    symbol.wf(),
                    symbol.scopes@.len() == n0 + 1,
                decreases params.len() - i,
            {
                let p = &params[i];
                symbol.add(
                    p.0.as_str(),
                    Symbol::Variable(VariableSym { ty: p.1.clone(), mutable: p.2, par: p.3, list: p.4, value: None }),
                );
                i = i + 1;
            }
            symbol.push(ScopeKind::Block);
            let _ = self.check_body(&mut body, symbol);
            symbol.pop();
            symbol.pop();
            symbol.restore(name.as_str(), body);
            proof {
                lemma_prefix_trans(old(self).rep.messages@, m0, self.rep.messages@);
            }
        }
        let mut p = Program::new();
        std::mem::swap(&mut p, prog);
        let Program { items } = p;
        let ghost all = items@;
        let mut rest = items;
        let mut out: Vec<Global> = Vec::new();
        assert(all.subrange(0, 0) =~= Seq::<Global>::empty());
        while rest.len() > 0
            invariant
                symbol.wf(),
                prefix_of(old(self).rep.messages@, self.rep.messages@),
                self.floats == old(self).floats,
                out@.len() + rest@.len() == all.len(),
                rest@ == all.subrange(out@.len() as int, all.len() as int),
                symbol.scopes@.len() == n0 + global_vars(all.subrange(0, out@.len() as int)),
                forall|j: int| 0 <= j < out@.len() ==> global_kept(#[trigger] all[j], out@[j]),
                forall|j: int|
                    0 <= j < out@.len() ==> global_checked(
                        #[trigger] all[j],
                        out@[j],
                        old(self).floats@,
                        old(self).rep.messages@,
                        self.rep.messages@,
                    ),
            decreases rest@.len(),
        {
            let ghost k: int = out@.len() as int;
            let ghost m0 = self.rep.messages@;
            let ghost d0 = symbol.scopes@.len();
            let g = rest.remove(0);
            assert(g == all[k]);
            assert(rest@ =~= all.subrange(k + 1, all.len() as int));
            let ng = match g {
                Global::Fun(FunKind::Custom(fun)) => {
                    let mut fun = fun;
                    symbol.push(ScopeKind::Function(fun.id.clone(), fun.ret.clone()));
                    self.check_fun(&mut fun, symbol);
                    symbol.pop();
                    proof {
                        lemma_body_checked_grows(
                            all[k]->Fun_0->Custom_0.body@,
                            fun.body@,
                            self.floats@,
                            old(self).rep.messages@,
                            m0,
                            self.rep.messages@,
                            self.rep.messages@,
                        );
                    }
                    Global::Fun(FunKind::Custom(fun))
                },
                Global::Fun(FunKind::Extern(fun)) => {
                    let mut fun = fun;
                    symbol.push(ScopeKind::Function(fun.id.clone(), fun.ret.clone()));
                    self.check_fun(&mut fun, symbol);
                    symbol.pop();
                    proof {
                        lemma_body_checked_grows(
                            all[k]->Fun_0->Extern_0.body@,
                            fun.body@,
                            self.floats@,
                            old(self).rep.messages@,
                            m0,
                            self.rep.messages@,
                            self.rep.messages@,
                        );
                    }
                    Global::Fun(FunKind::Extern(fun))
                },
                Global::Fun(FunKind::Entry(fun)) => {
                    let mut fun = fun;
                    if symbol.find("main").is_some() {
                        let hint = concat2("Try writing only one function ", bright_blue_bold("main").as_str());
                        self.report(GraviError::throw(Kind::TooManyEntry).hint(hint.as_str()));
                    }
                    let ghost m1 = self.rep.messages@;
                    self.check_fun(&mut fun, symbol);
                    proof {
                        lemma_prefix_trans(m0, m1, self.rep.messages@);
                        lemma_prefix_trans(old(self).rep.messages@, m0, m1);
                        lemma_body_checked_grows(
                            all[k]->Fun_0->Entry_0.body@,
                            fun.body@,
                            self.floats@,
                            old(self).rep.messages@,
                            m1,
                            self.rep.messages@,
                            self.rep.messages@,
                        );
                    }
                    Global::Fun(FunKind::Entry(fun))
                },
                Global::Var(var) => {
                    symbol.push(ScopeKind::Global);
                    match &var.val {
                        Some(v) => {
                            let mut c = copy_value(v);
                            let _ = self.check_val(&mut c, &var.ty, symbol);
                        },
                        None => {},
                    }
                    Global::Var(var)
                },
                other => other,
            };
            proof {
                lemma_prefix_trans(old(self).rep.messages@, m0, self.rep.messages@);
                let pre = all.subrange(0, k);
                let post = all.subrange(0, k + 1);
                assert(post.drop_last() =~= pre);
                assert(post.last() == all[k]);
            }
            assert(global_kept(all[k], ng));
            let ghost prev = out@;
            out.push(ng);
            proof {
                assert forall|j: int| 0 <= j < out@.len() implies global_kept(#[trigger] all[j], out@[j]) by {
                    if j < prev.len() {
                        assert(out@[j] == prev[j]);
                    }
                }
                assert forall|j: int| 0 <= j < out@.len() implies global_checked(
                    #[trigger] all[j],
                    out@[j],
                    old(self).floats@,
                    old(self).rep.messages@,
                    self.rep.messages@,
                ) by {
                    if j < prev.len() {
                        assert(out@[j] == prev[j]);
                        lemma_global_checked_grows(
                            all[j],
                            prev[j],
                            old(self).floats@,
                            old(self).rep.messages@,
                            old(self).rep.messages@,
                            m0,
                            self.rep.messages@,
                        );
                    }
                }
            }
        }
        assert(all.subrange(0, all.len() as int) =~= all);
        *prog = Program { items: out };
        assert(all == old(prog).items@);
    }
}

} // verus!
