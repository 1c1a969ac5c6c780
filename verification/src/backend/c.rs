//! The C back end: turns a checked program into C source text.
use vstd::prelude::*;
use std::collections::VecDeque;

use crate::ast::{
    copy_decl, same_expr, lemma_item_le, lemma_value_le, lemma_value_size_pos, ifelse_size, items_size, rows_size,
    value_size, values_size, BinaryOp, BoolValue, Expr, FunKind,
    Function, Global, IfElse, Items, List, Loop, Parallelism, Program, Range, Value, Var, VarDecl,
};
use crate::backend::Backend;
use crate::error::{GraviError, Kind, Reporter, Severity};
use crate::lexer::{add_wrapping, lemma_prefix_trans, prefix_of, wadd, Numeric, Operator, TokenKind, Type};
use crate::numeric::{i64_parse, parse_i64, parse_u64, u64_parse};
use crate::paint::bright_blue_bold;
use crate::symbol::{ScopeKind, Symbol, SymbolTable};
use crate::text::{
    append, concat2, concat3, decimal, i32_to_string, owned, push_char, signed_decimal, str_chars, str_contains,
    str_eq, u64_to_string, usize_to_string,
};

verus! {

/// A name known to the generator: its name in the program, its name in C, its type and
/// whether it holds a list.
pub type NameEntry = (String, String, Type, bool);

/// A name entry by the characters of its names.
pub type EntryView = (Seq<char>, Seq<char>, Type, bool);

pub open spec fn entries(m: Seq<NameEntry>) -> Seq<EntryView> {
    m.map_values(|e: NameEntry| (e.0@, e.1@, e.2, e.3))
}

/// The first entry for the program name `name`.
pub open spec fn first_by_orig(m: Seq<EntryView>, name: Seq<char>) -> Option<EntryView>
    decreases m.len(),
{
    if m.len() == 0 {
        None
    } else if m[0].0 == name {
        Some(m[0])
    } else {
        first_by_orig(m.drop_first(), name)
    }
}

/// The first entry for the C name `mangled`.
pub open spec fn first_by_mangled(m: Seq<EntryView>, mangled: Seq<char>) -> Option<EntryView>
    decreases m.len(),
{
    if m.len() == 0 {
        None
    } else if m[0].1 == mangled {
        Some(m[0])
    } else {
        first_by_mangled(m.drop_first(), mangled)
    }
}

/// The C name given to `name` in the block with the given number.
pub open spec fn mangle(counter: usize, name: Seq<char>) -> Seq<char> {
    seq!['_', '_', 'b'] + decimal(counter as nat) + seq!['_'] + name + Seq::<char>::empty()
}

/// The C name of `name` and the names afterwards: the known one, or a new one, recorded
/// with the given type and list flag.
pub open spec fn registered(m: Seq<EntryView>, name: Seq<char>, counter: usize, ty: Type, list: bool) -> (
    Seq<char>,
    Seq<EntryView>,
) {
    match first_by_orig(m, name) {
        Some(e) => (e.1, m),
        None => (mangle(counter, name), m.push((name, mangle(counter, name), ty, list))),
    }
}

/// The C type for a type.
pub open spec fn c_type(t: Type) -> Seq<char> {
    match t {
        Type::Numeric(n) => match n {
            Numeric::U8 => "unsigned char"@,
            Numeric::U16 => "unsigned short"@,
            Numeric::U32 => "unsigned int"@,
            Numeric::U64 => "unsigned long"@,
            Numeric::I8 => "char"@,
            Numeric::I16 => "short"@,
            Numeric::I32 => "int"@,
            Numeric::I64 => "long"@,
            Numeric::F16 => "float"@,
            Numeric::F32 => "float"@,
            Numeric::F64 => "double"@,
            Numeric::USize => "unsigned long"@,
        },
        Type::StringLiteral => "char*"@,
        Type::Boolean => "bool"@,
        Type::Character => "char"@,
        Type::Custom(c) => c@,
        Type::Void => "void"@,
    }
}

/// The `printf` conversion for a type.
pub open spec fn printf_of(t: Type) -> Seq<char> {
    match t {
        Type::Numeric(n) => match n {
            Numeric::F16 | Numeric::F32 => "%g"@,
            Numeric::F64 => "%lg"@,
            Numeric::U8 | Numeric::U16 | Numeric::U32 => "%u"@,
            Numeric::U64 | Numeric::USize => "%lu"@,
            Numeric::I8 | Numeric::I16 | Numeric::I32 => "%d"@,
            Numeric::I64 => "%ld"@,
        },
        Type::StringLiteral => "%s"@,
        Type::Character => "%c"@,
        _ => "%s"@,
    }
}

/// The C spelling of an arithmetic operator.
pub open spec fn arith_op(op: Operator) -> Seq<char> {
    match op {
        Operator::Add => "+"@,
        Operator::Sub => "-"@,
        Operator::Mul => "*"@,
        Operator::Div => "/"@,
        Operator::Mod => "%"@,
        Operator::Pow => "^"@,
        _ => ""@,
    }
}

/// The C spelling of a logical or comparison operator.
pub open spec fn logic_op(op: Operator) -> Seq<char> {
    match op {
        Operator::LAnd => "&&"@,
        Operator::LOr => "||"@,
        Operator::NEq => "!="@,
        Operator::Eq => "=="@,
        Operator::LE => "<="@,
        Operator::GE => ">="@,
        Operator::L => "<"@,
        Operator::G => ">"@,
        Operator::BWAnd => "&"@,
        Operator::BWOr => "|"@,
        _ => ""@,
    }
}

/// The C spelling of a prefix operator.
pub open spec fn prefix_op(op: Operator) -> Seq<char> {
    match op {
        Operator::LNot => "!"@,
        Operator::Sub => "-"@,
        _ => ""@,
    }
}

/// The C text of an expression and the names afterwards: identifiers by their C names
/// (new ones named in the current block), operators between their operands with a space
/// on each side, groups in parentheses; ranges and unsupported expressions give no text.
pub open spec fn c_expr(e: Expr, m: Seq<EntryView>, counter: usize) -> (Seq<char>, Seq<EntryView>)
    decreases e,
{
    match e {
        Expr::Identifier(id) => registered(m, id@, counter, Type::Void, false),
        Expr::Literal(v) => (v@, m),
        Expr::Binary(b) => {
            let (l, m1) = c_expr(*b.left, m, counter);
            let (r, m2) = c_expr(*b.right, m1, counter);
            (l + " "@ + arith_op(b.op) + " "@ + r, m2)
        },
        Expr::Boolean(b) => {
            let (l, m1) = c_expr(*b.left, m, counter);
            let (r, m2) = c_expr(*b.right, m1, counter);
            (l + " "@ + logic_op(b.op) + " "@ + r, m2)
        },
        Expr::Grouped(g) => {
            let (t, m1) = c_expr(*g, m, counter);
            ("("@ + t + ")"@, m1)
        },
        Expr::Unary(u) => {
            let (t, m1) = c_expr(*u.right, m, counter);
            (prefix_op(u.op) + t, m1)
        },
        _ => (Seq::empty(), m),
    }
}

/// Whether a diagnostic is the error that reports an expression C generation does not
/// support.
pub open spec fn unsupported_error(e: GraviError) -> bool {
    e.kind is UnsupportedExpression && e.severity == Severity::Error
}

/// The number of parts of an expression that C generation does not support (each is
/// reported).
pub open spec fn unsupported(e: Expr) -> nat
    decreases e,
{
    match e {
        Expr::Identifier(_) | Expr::Literal(_) | Expr::Range(_) => 0,
        Expr::Binary(b) => unsupported(*b.left) + unsupported(*b.right),
        Expr::Boolean(b) => unsupported(*b.left) + unsupported(*b.right),
        Expr::Grouped(g) => unsupported(*g),
        Expr::Unary(u) => unsupported(*u.right),
        _ => 1,
    }
}

/// The C names, with their types, of the known variables an expression reads, added to
/// `refs` in order of first reading, each once.
pub open spec fn expr_refs(e: Expr, m: Seq<EntryView>, refs: Seq<(Seq<char>, Type)>) -> Seq<(Seq<char>, Type)>
    decreases e,
{
    match e {
        Expr::Identifier(id) => match first_by_orig(m, id@) {
            Some(en) => if exists|k: int| 0 <= k < refs.len() && refs[k].0 == en.1 {
                refs
            } else {
                refs.push((en.1, en.2))
            },
            None => refs,
        },
        Expr::Binary(b) => expr_refs(*b.right, m, expr_refs(*b.left, m, refs)),
        Expr::Boolean(b) => expr_refs(*b.right, m, expr_refs(*b.left, m, refs)),
        Expr::Unary(u) => expr_refs(*u.right, m, refs),
        Expr::Grouped(g) => expr_refs(*g, m, refs),
        _ => refs,
    }
}

/// The variables read by a statement: by the expression it returns, evaluates, declares
/// with or assigns.
pub open spec fn item_refs(it: Items, m: Seq<EntryView>, refs: Seq<(Seq<char>, Type)>) -> Seq<(Seq<char>, Type)> {
    let v = match it {
        Items::Ret(v) => Some(v),
        Items::Expr(v) => Some(v),
        Items::Var(Var::Decl(d)) => d.val,
        Items::Var(Var::Var(x)) => x.val,
        _ => None,
    };
    match v {
        Some(Value::Expression(e)) => expr_refs(e, m, refs),
        _ => refs,
    }
}

/// The variables read by a list of statements, in order.
pub open spec fn items_refs(s: Seq<Items>, m: Seq<EntryView>) -> Seq<(Seq<char>, Type)>
    decreases s.len(),
{
    if s.len() == 0 {
        Seq::empty()
    } else {
        item_refs(s.last(), m, items_refs(s.drop_last(), m))
    }
}

pub open spec fn ref_view(refs: Seq<(String, Type)>) -> Seq<(Seq<char>, Type)> {
    refs.map_values(|r: (String, Type)| (r.0@, r.1))
}

/// The C parameter list for the variables read: each C type, a space and the name,
/// joined with `, `.
pub open spec fn ref_params(refs: Seq<(Seq<char>, Type)>) -> Seq<char> {
    joined(refs.map_values(|r: (Seq<char>, Type)| c_type(r.1) + " "@ + r.0))
}

/// The C argument list for the variables read: their names joined with `, `.
pub open spec fn ref_args(refs: Seq<(Seq<char>, Type)>) -> Seq<char> {
    joined(refs.map_values(|r: (Seq<char>, Type)| r.0))
}

/// The C text of an argument of a call, and the names afterwards: expressions as C
/// expressions, strings quoted, booleans as `true` or `false`, nested calls as calls of
/// their `nn_` functions; other values give no text.
pub open spec fn c_arg(v: Value, m: Seq<EntryView>, counter: usize) -> (Seq<char>, Seq<EntryView>)
    decreases value_size(v), 0nat,
{
    match v {
        Value::Expression(e) => c_expr(e, m, counter),
        Value::StringLiteral(s) => ("\""@ + s@ + "\""@, m),
        Value::Boolean(b) => (if b == BoolValue::True { "true"@ } else { "false"@ }, m),
        Value::Call(id, vals) => {
            let (t, m1) = c_args(vals@, m, counter);
            ("nn_"@ + id@ + "("@ + t + ")"@, m1)
        },
        _ => (Seq::empty(), m),
    }
}

/// The C text of the arguments of a call, separated by `, `.
pub open spec fn c_args(s: Seq<Value>, m: Seq<EntryView>, counter: usize) -> (Seq<char>, Seq<EntryView>)
    decreases values_size(s), 1nat,
{
    if s.len() == 0 {
        (Seq::empty(), m)
    } else {
        proof {
            lemma_value_size_pos(s.last());
        }
        let (t, m1) = c_args(s.drop_last(), m, counter);
        let (x, m2) = c_arg(s.last(), m1, counter);
        (if s.len() == 1 { x } else { t + ", "@ + x }, m2)
    }
}

/// The number of unsupported expressions among the argument.
pub open spec fn arg_unsupported(v: Value) -> nat
    decreases value_size(v), 0nat,
{
    match v {
        Value::Expression(e) => unsupported(e),
        Value::Call(_, vals) => args_unsupported(vals@),
        _ => 0,
    }
}

/// The number of unsupported expressions among the arguments.
pub open spec fn args_unsupported(s: Seq<Value>) -> nat
    decreases values_size(s), 1nat,
{
    if s.len() == 0 {
        0
    } else {
        proof {
            lemma_value_size_pos(s.last());
        }
        args_unsupported(s.drop_last()) + arg_unsupported(s.last())
    }
}

/// The total size of the values referred to.
pub open spec fn refs_size(s: Seq<&Value>) -> nat
    decreases s.len(),
{
    if s.len() == 0 {
        0
    } else {
        refs_size(s.drop_last()) + value_size(*s.last())
    }
}

pub proof fn lemma_refs_size_le(s: Seq<&Value>, i: int)
    requires
        0 <= i < s.len(),
    ensures
        value_size(*s[i]) <= refs_size(s),
    decreases s.len(),
{
    if i < s.len() - 1 {
        assert(s.drop_last()[i] == s[i]);
        lemma_refs_size_le(s.drop_last(), i);
    }
}

/// The front of the queue of inline helpers, or nothing when it is empty.
pub open spec fn queue_front(q: Seq<String>) -> Seq<char> {
    if q.len() > 0 { q[0]@ } else { Seq::empty() }
}

/// The queue of inline helpers without its front.
pub open spec fn queue_rest(q: Seq<String>) -> Seq<String> {
    if q.len() > 0 { q.drop_first() } else { q }
}

/// What `i32::from_str` gives, read as 0 when it fails.
pub open spec fn i32_or_zero(s: Seq<char>) -> i32 {
    match i64_parse(s) {
        Some(n) => if i32::MIN <= n <= i32::MAX { n as i32 } else { 0 },
        None => 0,
    }
}

/// The characters of each string.
pub open spec fn texts(s: Seq<String>) -> Seq<Seq<char>> {
    s.map_values(|x: String| x@)
}

/// The texts joined with `, ` between them.
pub open spec fn joined(elems: Seq<Seq<char>>) -> Seq<char>
    decreases elems.len(),
{
    if elems.len() == 0 {
        Seq::empty()
    } else if elems.len() == 1 {
        elems[0]
    } else {
        joined(elems.drop_last()) + ", "@ + elems.last()
    }
}

/// The values of the rows of a list, row after row.
pub open spec fn flat_rows(rows: Seq<Vec<Value>>) -> Seq<Value>
    decreases rows.len(),
{
    if rows.len() == 0 {
        Seq::empty()
    } else {
        flat_rows(rows.drop_last()) + rows.last()@
    }
}

/// The number that the C text of a range's end reads as (0 where it reads as none).
pub open spec fn index_num(t: Seq<char>) -> u64 {
    match u64_parse(t) {
        Some(n) => n,
        None => 0,
    }
}

/// The indices from `s` to `e`, as decimal text: counting up when `s <= e`, counting
/// down from `s` otherwise; with `e` itself when inclusive. Counting down without `e`
/// starts below `s`.
pub open spec fn range_indices(s: u64, e: u64, inclusive: bool) -> Seq<Seq<char>> {
    if s <= e {
        Seq::new((if inclusive { e - s + 1 } else { e - s }) as nat, |j: int| decimal((s + j) as nat))
    } else if inclusive {
        Seq::new((s - e + 1) as nat, |j: int| decimal((s - j) as nat))
    } else {
        Seq::new((s - e) as nat, |j: int| decimal((s - 1 - j) as nat))
    }
}

/// The C texts of the indices that one index value denotes, where the generator tells
/// them beforehand, and the names afterwards: a range stands for each of its numbers,
/// another value for itself.
pub open spec fn index_text(v: Value, m: Seq<EntryView>, counter: usize) -> Option<(Seq<Seq<char>>, Seq<EntryView>)> {
    match v {
        Value::Expression(Expr::Range(rng)) => {
            let (st, m1) = c_expr(*rng.start, m, counter);
            let (en, m2) = c_expr(*rng.end, m1, counter);
            Some((range_indices(index_num(st), index_num(en), rng.inclusive), m2))
        },
        _ => match val_text(v, m, counter) {
            Some((t, m1)) => Some((seq![t], m1)),
            None => None,
        },
    }
}

/// The C texts of the indices that a list of index values denotes, in order, and the
/// names afterwards.
pub open spec fn indices_text(vals: Seq<Value>, m: Seq<EntryView>, counter: usize) -> Option<
    (Seq<Seq<char>>, Seq<EntryView>),
>
    decreases vals.len(),
{
    if vals.len() == 0 {
        Some((Seq::empty(), m))
    } else {
        match indices_text(vals.drop_last(), m, counter) {
            None => None,
            Some((ts, m1)) => match index_text(vals.last(), m1, counter) {
                Some((x, m2)) => Some((ts + x, m2)),
                None => None,
            },
        }
    }
}

/// The first `n` assignments `dest[lhs[k]] = rhs[k];`, one C line each.
pub open spec fn assign_lines(dest: Seq<char>, lhs: Seq<Seq<char>>, rhs: Seq<Seq<char>>, n: nat) -> Seq<char>
    decreases n,
{
    if n == 0 {
        Seq::empty()
    } else {
        assign_lines(dest, lhs, rhs, (n - 1) as nat) + "\t"@ + dest + "["@ + lhs[n - 1] + "] = "@ + rhs[n - 1]
            + ";\n"@
    }
}

/// The C text of `id[indices] = rhs` where the generator tells it beforehand: from a
/// list indexed by a source list, each index paired with the matching source index; from
/// a range, each index paired with the matching number; from any other value, each index
/// given that value. Pairs stop where either side ends.
pub open spec fn list_assign_text(id: Seq<char>, indices: Seq<Value>, rhs: Value, m: Seq<EntryView>, counter: usize) -> Option<
    Seq<char>,
> {
    let (dest, m1) = registered(m, id, counter, Type::Void, false);
    match indices_text(indices, m1, counter) {
        None => None,
        Some((lhs, m2)) => match rhs {
            Value::List(List::Use(src_id, src_rows, None)) => {
                let (src, m3) = registered(m2, src_id@, counter, Type::Void, false);
                match indices_text(flat_rows(src_rows@), m3, counter) {
                    Some((ri, _)) => Some(
                        assign_lines(
                            dest,
                            lhs,
                            ri.map_values(|x: Seq<char>| src + "["@ + x + "]"@),
                            if lhs.len() <= ri.len() {
                                lhs.len()
                            } else {
                                ri.len()
                            },
                        ),
                    ),
                    None => None,
                }
            },
            Value::Expression(Expr::Range(_)) => match indices_text(seq![rhs], m2, counter) {
                Some((ri, _)) => Some(
                    assign_lines(
                        dest,
                        lhs,
                        ri,
                        if lhs.len() <= ri.len() {
                            lhs.len()
                        } else {
                            ri.len()
                        },
                    ),
                ),
                None => None,
            },
            _ => match val_text(rhs, m2, counter) {
                Some((t, _)) => Some(assign_lines(dest, lhs, Seq::new(lhs.len(), |j: int| t), lhs.len())),
                None => None,
            },
        },
    }
}

/// The values behind references.
pub open spec fn derefs(s: Seq<&Value>) -> Seq<Value> {
    s.map_values(|v: &Value| *v)
}

/// The C texts of the elements of a list literal where the generator tells them
/// beforehand, and the names afterwards (`None` where one is an indexing of a list or a
/// call).
pub open spec fn elements_text(vals: Seq<Value>, m: Seq<EntryView>, counter: usize) -> Option<
    (Seq<Seq<char>>, Seq<EntryView>),
>
    decreases vals.len(),
{
    if vals.len() == 0 {
        Some((Seq::empty(), m))
    } else {
        match elements_text(vals.drop_last(), m, counter) {
            None => None,
            Some((ts, m1)) => match vals.last() {
                Value::List(List::Use(_, _, None)) => None,
                Value::Call(_, _) => None,
                v => match val_text(v, m1, counter) {
                    Some((t, m2)) => Some((ts.push(t), m2)),
                    None => None,
                },
            },
        }
    }
}

/// The C declaration of a list named `id` with the given elements: its size `sz_id`,
/// then the array, a character array ending in `'\0'` for a string.
pub open spec fn array_text(id: Seq<char>, ty_name: Seq<char>, is_string: bool, elems: Seq<Seq<char>>) -> Seq<char> {
    let n = elems.len();
    "\tint sz_"@ + id + " = "@ + decimal(n) + ";\n"@ + if is_string {
        "\tchar "@ + id + "["@ + decimal(if n < usize::MAX { n + 1 } else { n }) + "] = {"@ + joined(elems)
            + ", '\\0'};\n"@
    } else {
        "\t"@ + ty_name + " "@ + id + "["@ + decimal(n) + "] = {"@ + joined(elems) + "};\n"@
    }
}

/// The C text of the condition of an `if` where the generator can tell it beforehand:
/// that of its expression, or nothing where there is none.
pub open spec fn cond_text(cond: Option<Box<Value>>, m: Seq<EntryView>, counter: usize) -> Option<Seq<char>> {
    match cond {
        None => Some(Seq::empty()),
        Some(v) => match *v {
            Value::Expression(e) => Some(c_expr(e, m, counter).0),
            _ => None,
        },
    }
}

/// Whether `s` begins with `p`.
pub open spec fn starts_with(s: Seq<char>, p: Seq<char>) -> bool {
    p.len() <= s.len() && s.subrange(0, p.len() as int) == p
}

/// The head of an `if` statement with the condition `c`, up to its body.
pub open spec fn if_head(c: Seq<char>) -> Seq<char> {
    "\tif ("@ + c + ")"@ + "\n\t{\n"@ + "\t"@
}

/// The head of a counting `for` loop over the variable named `id` from `s` to `e`: up
/// when `s` is below `e`, down otherwise.
pub open spec fn for_head(id: Seq<char>, s: i32, e: i32) -> Seq<char> {
    let up = s < e;
    "\tfor (int "@ + id + " = "@ + signed_decimal(s as int) + "; "@ + id + (if up {
        " <= "@
    } else {
        " >= "@
    }) + signed_decimal(e as int) + "; "@ + id + (if up {
        "++)\n"@
    } else {
        "--)\n"@
    })
}

/// The bounds a `for` loop counts between, for bounds whose C text reads as `s0` and
/// `e0`: an exclusive range stops one short of its end.
pub open spec fn for_bounds(s0: i32, e0: i32, inclusive: bool) -> (i32, i32) {
    if inclusive {
        (s0, e0)
    } else if s0 < e0 {
        (s0, (e0 - 1) as i32)
    } else if e0 < s0 {
        ((s0 - 1) as i32, e0)
    } else {
        (s0, e0)
    }
}

/// The head of the `for` loop that binds `name` (of type `ty`) to a range from `start`
/// to `end`, with the names known before and the current block's number.
pub open spec fn range_for_head(
    start: Expr,
    end: Expr,
    inclusive: bool,
    name: Seq<char>,
    ty: Type,
    m: Seq<EntryView>,
    counter: usize,
) -> Seq<char> {
    let (st, m1) = c_expr(start, m, counter);
    let (en, m2) = c_expr(end, m1, counter);
    let (s, e) = for_bounds(i32_or_zero(st), i32_or_zero(en), inclusive);
    for_head(registered(m2, name, counter, ty, false).0, s, e)
}

/// The head of the C text of a loop statement: a `for` loop for a variable bound to a
/// range, a `while` loop for one bound to a comparison or logical expression, an endless
/// `while` loop where there is no variable; `None` where it has no text.
pub open spec fn loop_head(l: Loop, m: Seq<EntryView>, counter: usize) -> Option<Seq<char>> {
    match l.cond {
        None => Some("\twhile (true)\n"@ + "\t{\n\t"@),
        Some(d) => match d.val {
            Some(Value::Expression(Expr::Range(rg))) => Some(
                range_for_head(*rg.start, *rg.end, rg.inclusive, d.id@, d.ty, m, counter),
            ),
            Some(Value::Expression(Expr::Boolean(b))) => Some(
                "\twhile ("@ + c_expr(Expr::Boolean(b), m, counter).0 + ")\n\t{\n\t"@,
            ),
            _ => None,
        },
    }
}

/// The C statements that print one value given to `show`, and the names afterwards:
/// a variable by the format of its type (a `bool` as `true` or `false`, a list element
/// by element, a string list as one string); a numeric literal as `%g` when it has a
/// point and `%d` otherwise; another expression and a call as `%g`; string and boolean
/// literals as text. `None` for the indexing of a list, whose text is not told
/// beforehand.
pub open spec fn show_one(v: Value, m: Seq<EntryView>, counter: usize) -> Option<(Seq<char>, Seq<EntryView>)> {
    match v {
        Value::Expression(Expr::Identifier(name)) => {
            let (mg, m1) = registered(m, name@, counter, Type::Void, false);
            let ty = match first_by_orig(m1, name@) {
                Some(e) => e.2,
                None => Type::Void,
            };
            let list = match first_by_mangled(m1, mg) {
                Some(e) => e.3,
                None => false,
            };
            let text = if list {
                if ty is StringLiteral {
                    "\tprintf(\"%s\\n\", "@ + mg + ");\n"@
                } else {
                    "\tfor (int __i = 0; __i < sz_"@ + mg + "; __i++) {\n\t\tprintf(\""@ + printf_of(ty) + "\\n\", "@
                        + mg + "[__i]);\n\t}\n"@
                }
            } else if ty is Boolean {
                "\tprintf(\"%s\\n\", "@ + mg + " ? \"true\" : \"false\");\n"@
            } else {
                "\tprintf(\""@ + printf_of(ty) + "\\n\", "@ + mg + ");\n"@
            };
            Some((text, m1))
        },
        Value::Expression(Expr::Literal(lit)) => Some(
            (
                "\tprintf(\""@ + (if lit@.contains('.') {
                    "%g"@
                } else {
                    "%d"@
                }) + "\\n\", "@ + lit@ + ");\n"@,
                m,
            ),
        ),
        Value::Expression(e) => {
            let (t, m1) = c_expr(e, m, counter);
            Some(("\tprintf(\"%g\\n\", "@ + t + ");\n"@, m1))
        },
        Value::StringLiteral(t) => Some(("\tprintf(\"%s\\n\", \""@ + t@ + "\");\n"@, m)),
        Value::Boolean(b) => Some(
            (
                "\tprintf(\"%s\\n\", \""@ + (if b == BoolValue::True {
                    "true"@
                } else {
                    "false"@
                }) + "\");\n"@,
                m,
            ),
        ),
        Value::Call(id, values) => {
            let (args, m1) = c_args(values@, m, counter);
            Some(("\tprintf(\"%g\\n\", nn_"@ + id@ + "("@ + args + "));\n"@, m1))
        },
        Value::List(List::Use(id, values, _)) => {
            let (mg, m1) = registered(m, id@, counter, Type::Void, false);
            let ty = match first_by_orig(m1, id@) {
                Some(e) => e.2,
                None => Type::Void,
            };
            let fmt = if ty is StringLiteral {
                "%c"@
            } else {
                printf_of(ty)
            };
            match show_elements(flat_rows(values@), fmt, mg, m1, counter) {
                Some((t, m2)) => Some((t, m2)),
                None => None,
            }
        },
        _ => Some((Seq::empty(), m)),
    }
}

/// The C statements that print the elements of the list `mg` (its C name) at the given
/// indices, each in the format `fmt`, and the names afterwards; `None` where the text of
/// an index is not told beforehand.
pub open spec fn show_elements(
    idx: Seq<Value>,
    fmt: Seq<char>,
    mg: Seq<char>,
    m: Seq<EntryView>,
    counter: usize,
) -> Option<(Seq<char>, Seq<EntryView>)>
    decreases idx.len(),
{
    if idx.len() == 0 {
        Some((Seq::empty(), m))
    } else {
        match show_elements(idx.drop_last(), fmt, mg, m, counter) {
            None => None,
            Some((t, m1)) => match val_text(idx.last(), m1, counter) {
                Some((v, m2)) => Some(
                    (t + "\tprintf(\""@ + fmt + "\\n\", "@ + mg + "["@ + v + "]);\n"@, m2),
                ),
                None => None,
            },
        }
    }
}

/// The C statements that print the values given to `show`, one after the other, and
/// the names afterwards; `None` where the text of one of them is not told beforehand.
pub open spec fn show_all(vals: Seq<Value>, m: Seq<EntryView>, counter: usize) -> Option<(Seq<char>, Seq<EntryView>)>
    decreases vals.len(),
{
    if vals.len() == 0 {
        Some((Seq::empty(), m))
    } else {
        match show_all(vals.drop_last(), m, counter) {
            None => None,
            Some((t, m1)) => match show_one(vals.last(), m1, counter) {
                None => None,
                Some((x, m2)) => Some((t + x, m2)),
            },
        }
    }
}

/// The text of a bound of a range as an array declaration reads it: the literal, or
/// `dflt` where the bound is no literal.
pub open spec fn bound_text(e: Expr, dflt: Seq<char>) -> Seq<char> {
    match e {
        Expr::Literal(v) => v@,
        _ => dflt,
    }
}

/// The C declaration of the array `id` (of C type `ty`) filled from a range: where its
/// start and end read the same, `step` copies of the start; otherwise the values from
/// the start by the step below the end (up to it when inclusive), in an allocated array
/// of size `sz_id`. A parallel variable gets an OpenMP loop.
#[verifier::opaque]
pub open spec fn range_decl_text(par: Parallelism, ty: Type, rg: Range, id: Seq<char>) -> Seq<char> {
    let t = c_type(ty);
    let start = bound_text(*rg.start, "0"@);
    let step = match rg.step {
        Some(st) => bound_text(*st, "1"@),
        None => "1"@,
    };
    let end = bound_text(*rg.end, "1"@);
    let incl = if rg.inclusive { " + 1"@ } else { ""@ };
    let pragma = if par == Parallelism::CPU { "\t#pragma omp parallel for\n"@ } else { Seq::empty() };
    if start == end {
        "\t"@ + t + " "@ + id + "["@ + step + "];\n"@ + pragma + "\tfor (int i = 0; i < "@ + step + "; i++) {\n"@
            + "\t\t"@ + id + "[i] = "@ + start + ";\n"@ + "\t\tprintf(\"%f\\n\", "@ + id + "[i]);\n"@ + "\t}\n\n"@
    } else {
        "\tint sz_"@ + id + " = (int)floor(("@ + end + " - "@ + start + ") / "@ + step + ")"@ + incl + ";\n"@ + "\t"@
            + t + "* "@ + id + " = malloc(sz_"@ + id + " * sizeof("@ + t + "));\n"@ + pragma
            + "\tfor (int i = 0; i < sz_"@ + id + "; i++) {\n"@ + "\t\t"@ + id + "[i] = "@ + start + " + i * "@ + step
            + ";\n"@ + "\t}\n"@
    }
}

/// The C text of a value where the generator tells it beforehand, and the names
/// afterwards: an expression, a literal, a call, nothing for the empty value and a loop.
pub open spec fn val_text(v: Value, m: Seq<EntryView>, counter: usize) -> Option<(Seq<char>, Seq<EntryView>)> {
    match v {
        Value::Expression(e) => Some(c_expr(e, m, counter)),
        Value::Call(_, _) | Value::StringLiteral(_) | Value::Boolean(_) => Some(c_arg(v, m, counter)),
        Value::Char(c) => Some((seq!['\'', c, '\''], m)),
        Value::Null | Value::Loop(_) => Some((Seq::empty(), m)),
        _ => None,
    }
}

/// The C declaration of the variable `id` (its C name) with the given parallelism,
/// mutability, type and value, where the generator tells it beforehand, and the names
/// afterwards: without a value, a plain declaration (a null pointer for a list); with a
/// range, an array filled from it; with another expression, its C text; with a string
/// or boolean literal, that literal.
pub open spec fn var_text(
    par: Parallelism,
    mutable: bool,
    ty: Type,
    val: Option<Value>,
    id: Seq<char>,
    m: Seq<EntryView>,
    counter: usize,
) -> Option<(Seq<char>, Seq<EntryView>)> {
    let qual = if mutable { ""@ } else { "const "@ };
    match val {
        Some(Value::Expression(Expr::Range(rg))) => Some((range_decl_text(par, ty, rg, id), m)),
        None => Some(
            (
                "\t"@ + qual + c_type(ty) + (if first_by_mangled(m, id) matches Some(e) && e.3 {
                    "* "@ + id + " = NULL"@
                } else {
                    " "@ + id
                }) + ";\n"@,
                m,
            ),
        ),
        Some(Value::Expression(e)) => {
            let (t, m1) = c_expr(e, m, counter);
            Some(("\t"@ + qual + c_type(ty) + " "@ + id + " = "@ + t + ";\n"@, m1))
        },
        Some(Value::List(List::Decl(_, Some(rows)))) => match elements_text(flat_rows(rows@), m, counter) {
            Some((ts, m1)) => Some((array_text(id, c_type(ty), ty is StringLiteral, ts), m1)),
            None => None,
        },
        Some(Value::StringLiteral(s)) => Some(("\tconst char* "@ + id + " = \""@ + s@ + "\";\n"@, m)),
        Some(Value::Boolean(b)) => Some(
            (
                "\t"@ + qual + "bool "@ + id + " = "@ + (if b == BoolValue::True {
                    "true"@
                } else {
                    "false"@
                }) + ";\n"@,
                m,
            ),
        ),
        _ => None,
    }
}

/// The C `return` statement for a value where the generator tells it beforehand, and the
/// names afterwards: the C text of an expression or literal; a bare `return` for the
/// kinds it gives no text.
pub open spec fn ret_text(v: Value, m: Seq<EntryView>, counter: usize) -> Option<(Seq<char>, Seq<EntryView>)> {
    match v {
        Value::Expression(e) => {
            let (t, m1) = c_expr(e, m, counter);
            Some(("\treturn "@ + t + ";\n"@, m1))
        },
        Value::Block(_, _) => None,
        Value::StringLiteral(t) => Some(("\treturn "@ + "\""@ + t@ + "\""@ + ";\n"@, m)),
        Value::Boolean(b) => Some(
            (
                "\treturn "@ + (if b == BoolValue::True {
                    "true"@
                } else {
                    "false"@
                }) + ";\n"@,
                m,
            ),
        ),
        Value::Char(c) => Some(("\treturn "@ + seq!['\'', c, '\''] + ";\n"@, m)),
        _ => Some(("\treturn "@ + ";\n"@, m)),
    }
}

/// The names that statements assign a list to, in order.
pub open spec fn future_names(items: Seq<Items>) -> Seq<Seq<char>>
    decreases items.len(),
{
    if items.len() == 0 {
        Seq::empty()
    } else {
        future_names(items.drop_last()) + match items.last() {
            Items::Var(Var::Var(v)) => match v.val {
                Some(Value::List(_)) => seq![v.name@],
                _ => Seq::empty(),
            },
            _ => Seq::empty(),
        }
    }
}

/// The C text of one statement of a block where the generator tells it beforehand, the
/// C text of the value it names if it is a bare expression, and the names afterwards.
/// `future` holds the names that the block assigns a list to, `counter` is the block's
/// number. `None` for an `if`, a loop, a list assignment and the values whose text
/// depends on more than the names.
pub open spec fn stmt_text(it: Items, future: Seq<Seq<char>>, m: Seq<EntryView>, counter: usize) -> Option<
    (Seq<char>, Option<Seq<char>>, Seq<EntryView>),
> {
    match it {
        Items::Ret(v) => match ret_text(v, m, counter) {
            Some((t, m1)) => Some((t, None, m1)),
            None => None,
        },
        Items::Var(Var::Decl(d)) => {
            let is_list = match d.val {
                Some(x) => x is List,
                None => future.contains(d.id@),
            };
            let (mg, m1) = registered(m, d.id@, counter, d.ty, is_list);
            match var_text(d.par, d.mutable, d.ty, d.val, mg, m1, counter) {
                Some((t, m2)) => Some((t, None, m2)),
                None => None,
            }
        },
        Items::Var(Var::Var(v)) => match v.val {
            None => Some((Seq::empty(), None, m)),
            Some(Value::List(List::Decl(_, Some(_)))) => None,
            Some(x) => {
                let (mg, m1) = registered(m, v.name@, counter, Type::Void, false);
                match val_text(x, m1, counter) {
                    Some((t, m2)) => Some(("\t"@ + mg + " = "@ + t + ";\n"@, None, m2)),
                    None => None,
                }
            },
        },
        Items::Expr(val) => match val {
            Value::Expression(e) => {
                let (t, m1) = c_expr(e, m, counter);
                Some((Seq::empty(), Some(t), m1))
            },
            Value::StringLiteral(t) => Some((Seq::empty(), Some(t@), m)),
            Value::Boolean(b) => Some(
                (
                    Seq::empty(),
                    Some(
                        if b == BoolValue::True {
                            "true"@
                        } else {
                            "false"@
                        },
                    ),
                    m,
                ),
            ),
            Value::Call(cid, vals) => if cid@ == "show"@ {
                match show_all(vals@, m, counter) {
                    Some((t, m1)) => Some((t, None, m1)),
                    None => None,
                }
            } else {
                let (a, m1) = c_args(vals@, m, counter);
                Some(("\tnn_"@ + cid@ + "("@ + a + ");\n"@, None, m1))
            },
            Value::IfElse(_) | Value::Loop(_) => None,
            Value::List(List::Use(_, _, Some(_))) => None,
            _ => Some((Seq::empty(), None, m)),
        },
        Items::Stop => Some(("\tbreak;\n"@, None, m)),
        Items::Skip => Some(("\tcontinue;\n"@, None, m)),
    }
}

/// The C text of a block's statements where the generator tells it beforehand, the C
/// text of the value its last bare expression names (empty if none), and the names
/// afterwards.
pub open spec fn block_text(items: Seq<Items>, future: Seq<Seq<char>>, m: Seq<EntryView>, counter: usize) -> Option<
    (Seq<char>, Seq<char>, Seq<EntryView>),
>
    decreases items.len(),
{
    if items.len() == 0 {
        Some((Seq::empty(), Seq::empty(), m))
    } else {
        match block_text(items.drop_last(), future, m, counter) {
            None => None,
            Some((t, id, m1)) => match stmt_text(items.last(), future, m1, counter) {
                None => None,
                Some((x, named, m2)) => Some(
                    (
                        t + x,
                        match named {
                            Some(n) => n,
                            None => id,
                        },
                        m2,
                    ),
                ),
            },
        }
    }
}

/// The C text of a loop statement where the generator tells it beforehand (its body
/// being a block of the kinds `block_text` covers), the names after it and the block
/// number after it: a `for` loop over a range, counting between `for_bounds` (an
/// exclusive range stops one short of its end); a `while` loop on a comparison or logical
/// expression; an endless `while` loop where there is no variable; nothing for another
/// kind of loop variable.
#[verifier::opaque]
pub open spec fn loop_text(l: Loop, m: Seq<EntryView>, counter: usize) -> Option<(Seq<char>, Seq<EntryView>, usize)> {
    let fut = future_names(l.body@);
    match l.cond {
        None => match block_text(l.body@, fut, m, wadd(counter, 1)) {
            Some((b, _, _)) => Some(("\twhile (true)\n"@ + "\t{\n\t"@ + b + "\n\t}\n"@, m, wadd(counter, 1))),
            None => None,
        },
        Some(d) => match d.val {
            Some(Value::Expression(Expr::Range(rg))) => for_text(
                *rg.start,
                *rg.end,
                rg.inclusive,
                d.id@,
                d.ty,
                l.body@,
                m,
                counter,
            ),
            Some(Value::Expression(Expr::Boolean(bb))) => {
                let (c, m1) = c_expr(Expr::Boolean(bb), m, counter);
                match block_text(l.body@, fut, m1, wadd(counter, 1)) {
                    Some((b, _, _)) => Some(("\twhile ("@ + c + ")\n\t{\n\t"@ + b + "\n\t}"@, m1, wadd(counter, 1))),
                    None => None,
                }
            },
            _ => Some((Seq::empty(), m, counter)),
        },
    }
}

/// The C text of a `for` loop binding `name` (of type `ty`) to a range from `start` to
/// `end`, with the given body, where the generator tells it beforehand; the names and the
/// block number after it.
#[verifier::opaque]
pub open spec fn for_text(
    start: Expr,
    end: Expr,
    inclusive: bool,
    name: Seq<char>,
    ty: Type,
    body: Seq<Items>,
    m: Seq<EntryView>,
    counter: usize,
) -> Option<(Seq<char>, Seq<EntryView>, usize)> {
    let (st, m1) = c_expr(start, m, counter);
    let (en, m2) = c_expr(end, m1, counter);
    let (s, e) = for_bounds(i32_or_zero(st), i32_or_zero(en), inclusive);
    let (id, m3) = registered(m2, name, counter, ty, false);
    match block_text(body, future_names(body), m3, wadd(counter, 1)) {
        Some((b, _, _)) => Some((for_head(id, s, e) + "\t{\n\t"@ + b + "\n\t}\n"@, m3, wadd(counter, 1))),
        None => None,
    }
}

/// The names after the condition of an `if` is generated.
pub open spec fn cond_names(cond: Option<Box<Value>>, m: Seq<EntryView>, counter: usize) -> Seq<EntryView> {
    match cond {
        None => m,
        Some(v) => match *v {
            Value::Expression(e) => c_expr(e, m, counter).1,
            _ => m,
        },
    }
}

/// The C text of an `if` statement where the generator tells it beforehand (its bodies
/// being blocks of the kinds `block_text` covers), the names and the block number after
/// it: the condition and the body, then `else` and the next `if`, or `else` and a last
/// body.
#[verifier::opaque]
pub open spec fn if_text(ie: IfElse, m: Seq<EntryView>, counter: usize) -> Option<(Seq<char>, Seq<EntryView>, usize)>
    decreases ie,
{
    match cond_text(ie.cond, m, counter) {
        None => None,
        Some(c) => {
            let m1 = cond_names(ie.cond, m, counter);
            match block_text(ie.body@, future_names(ie.body@), m1, wadd(counter, 1)) {
                None => None,
                Some((b, _, _)) => {
                    let head = "\tif ("@ + c + ")"@ + "\n\t{\n"@ + "\t"@ + b + "\n\t}\n"@;
                    let c1 = wadd(counter, 1);
                    match ie.elif {
                        None => Some((head, m1, c1)),
                        Some(e) => if e.cond is Some {
                            match if_text(*e, m1, c1) {
                                Some((x, m2, c2)) => Some((head + "\telse "@ + x, m2, c2)),
                                None => None,
                            }
                        } else {
                            match block_text(e.body@, future_names(e.body@), m1, wadd(c1, 1)) {
                                Some((b2, _, _)) => Some(
                                    (
                                        head + "\telse "@ + "\n\t{\n"@ + "\t"@ + b2 + "\n\t}\n"@,
                                        m1,
                                        wadd(c1, 1),
                                    ),
                                ),
                                None => None,
                            }
                        },
                    }
                },
            }
        },
    }
}

/// The C text of a block's statements as `block_text` tells it, where loop statements
/// may also stand among them (each numbering its body's block in turn), the C text of the
/// value its last bare expression names, the names and the block number afterwards.
pub open spec fn block_full(items: Seq<Items>, future: Seq<Seq<char>>, m: Seq<EntryView>, counter: usize) -> Option<
    (Seq<char>, Seq<char>, Seq<EntryView>, usize),
>
    decreases items.len(),
{
    if items.len() == 0 {
        Some((Seq::empty(), Seq::empty(), m, counter))
    } else {
        match block_full(items.drop_last(), future, m, counter) {
            None => None,
            Some((t, id, m1, c1)) => match items.last() {
                Items::Expr(Value::Loop(l)) => match loop_text(l, m1, c1) {
                    Some((x, m2, c2)) => Some((t + x, id, m2, c2)),
                    None => None,
                },
                Items::Expr(Value::IfElse(ie)) => match if_text(ie, m1, c1) {
                    Some((x, m2, c2)) => Some((t + x, id, m2, c2)),
                    None => None,
                },
                it => match stmt_text(it, future, m1, c1) {
                    None => None,
                    Some((x, named, m2)) => Some(
                        (
                            t + x,
                            match named {
                                Some(n) => n,
                                None => id,
                            },
                            m2,
                            c1,
                        ),
                    ),
                },
            },
        }
    }
}

/// Where `block_text` tells a block's text, `block_full` tells the same, the block number
/// staying as it was.
pub proof fn lemma_block_full(items: Seq<Items>, future: Seq<Seq<char>>, m: Seq<EntryView>, counter: usize)
    ensures
        block_text(items, future, m, counter) matches Some((t, id, mm)) ==> block_full(items, future, m, counter)
            == Some((t, id, mm, counter)),
    decreases items.len(),
{
    if items.len() > 0 {
        lemma_block_full(items.drop_last(), future, m, counter);
    }
}

/// Expressions that are the same have the same C text and name the same variables.
pub proof fn lemma_same_c_expr(a: Expr, b: Expr, m: Seq<EntryView>, counter: usize)
    requires
        same_expr(a, b),
    ensures
        c_expr(a, m, counter) == c_expr(b, m, counter),
    decreases a,
{
    match (a, b) {
        (Expr::Binary(x), Expr::Binary(y)) => {
            lemma_same_c_expr(*x.left, *y.left, m, counter);
            let m1 = c_expr(*x.left, m, counter).1;
            lemma_same_c_expr(*x.right, *y.right, m1, counter);
        },
        (Expr::Boolean(x), Expr::Boolean(y)) => {
            lemma_same_c_expr(*x.left, *y.left, m, counter);
            let m1 = c_expr(*x.left, m, counter).1;
            lemma_same_c_expr(*x.right, *y.right, m1, counter);
        },
        (Expr::Grouped(x), Expr::Grouped(y)) => lemma_same_c_expr(*x, *y, m, counter),
        (Expr::Unary(x), Expr::Unary(y)) => lemma_same_c_expr(*x.right, *y.right, m, counter),
        _ => {},
    }
}

/// Values that are the same, other than calls, have the same C text.
pub proof fn lemma_same_val_text(a: Value, b: Value, m: Seq<EntryView>, counter: usize)
    requires
        crate::ast::same_value(a, b),
        !(a is Call),
    ensures
        val_text(a, m, counter) == val_text(b, m, counter),
{
    match (a, b) {
        (Value::Expression(e), Value::Expression(f)) => lemma_same_c_expr(e, f, m, counter),
        _ => {},
    }
}

/// Sequences of values that are the same have the same element texts.
pub proof fn lemma_same_elements(a: Seq<Value>, b: Seq<Value>, m: Seq<EntryView>, counter: usize)
    requires
        crate::ast::same_values(a, b),
    ensures
        elements_text(a, m, counter) == elements_text(b, m, counter),
    decreases a.len(),
{
    if a.len() > 0 {
        lemma_same_elements(a.drop_last(), b.drop_last(), m, counter);
        let x = a.last();
        let y = b.last();
        assert(crate::ast::same_value(x, y));
        assert(x is Call <==> y is Call);
        assert(x is List <==> y is List);
        if x is List {
            assert(x->List_0 is Use <==> y->List_0 is Use);
            if x->List_0 is Use {
                assert(x->List_0->Use_2 is None <==> y->List_0->Use_2 is None);
            }
        }
        match elements_text(a.drop_last(), m, counter) {
            Some((_, m1)) => {
                if !(x is Call) {
                    lemma_same_val_text(x, y, m1, counter);
                }
            },
            None => {},
        }
    }
}

/// Joining sequences that are the same, value by value, gives sequences that are the same.
pub proof fn lemma_same_values_concat(a: Seq<Value>, c: Seq<Value>, b: Seq<Value>, d: Seq<Value>)
    requires
        crate::ast::same_values(a, c),
        crate::ast::same_values(b, d),
    ensures
        crate::ast::same_values(a + b, c + d),
    decreases b.len(),
{
    if b.len() == 0 {
        assert(a + b =~= a);
        assert(c + d =~= c);
    } else {
        lemma_same_values_concat(a, c, b.drop_last(), d.drop_last());
        assert((a + b).drop_last() =~= a + b.drop_last());
        assert((c + d).drop_last() =~= c + d.drop_last());
    }
}

/// Rows that are the same flatten to values that are the same.
pub proof fn lemma_same_flat_rows(r: Seq<Vec<Value>>, q: Seq<Vec<Value>>)
    requires
        crate::ast::same_rows(r, q),
    ensures
        crate::ast::same_values(flat_rows(r), flat_rows(q)),
    decreases r.len(),
{
    if r.len() > 0 {
        lemma_same_flat_rows(r.drop_last(), q.drop_last());
        lemma_same_values_concat(flat_rows(r.drop_last()), flat_rows(q.drop_last()), r.last()@, q.last()@);
    }
}

/// Bounds that are the same read the same.
pub proof fn lemma_same_bound(a: Expr, b: Expr, dflt: Seq<char>)
    requires
        same_expr(a, b),
    ensures
        bound_text(a, dflt) == bound_text(b, dflt),
{
}

/// Declarations whose values are the same have the same C text.
pub proof fn lemma_same_var_text(
    par: Parallelism,
    mutable: bool,
    ty: Type,
    a: Option<Value>,
    b: Option<Value>,
    id: Seq<char>,
    m: Seq<EntryView>,
    counter: usize,
)
    requires
        match (a, b) {
            (Some(x), Some(y)) => crate::ast::same_value(x, y),
            (None, None) => true,
            _ => false,
        },
    ensures
        var_text(par, mutable, ty, a, id, m, counter) == var_text(par, mutable, ty, b, id, m, counter),
{
    match (a, b) {
        (Some(x), Some(y)) => {
            match (x, y) {
                (Value::Expression(e), Value::Expression(f)) => {
                    assert(same_expr(e, f));
                    lemma_same_c_expr(e, f, m, counter);
                    assert(e is Range <==> f is Range);
                    if e is Range {
                        let x = e->Range_0;
                        let y = f->Range_0;
                        assert(same_expr(e, f));
                        assert(e == Expr::Range(x) && f == Expr::Range(y));
                        assert(same_expr(*x.start, *y.start) && same_expr(*x.end, *y.end));
                        reveal(range_decl_text);
                        lemma_same_bound(*x.start, *y.start, "0"@);
                        lemma_same_bound(*x.end, *y.end, "1"@);
                        match (x.step, y.step) {
                            (Some(p), Some(q)) => lemma_same_bound(*p, *q, "1"@),
                            _ => {},
                        }
                    }
                },
                (Value::List(List::Decl(_, Some(r1))), Value::List(List::Decl(_, Some(r2)))) => {
                    assert(crate::ast::same_rows(r1@, r2@));
                    lemma_same_flat_rows(r1@, r2@);
                    lemma_same_elements(flat_rows(r1@), flat_rows(r2@), m, counter);
                },
                (Value::StringLiteral(p), Value::StringLiteral(q)) => {
                    assert(p@ == q@);
                },
                (Value::Boolean(p), Value::Boolean(q)) => {
                    assert(p == q);
                },
                _ => {
                    assert(!(x is Expression) && !(x is StringLiteral) && !(x is Boolean));
                    assert(!(y is Expression) && !(y is StringLiteral) && !(y is Boolean));
                },
            }
        },
        _ => {},
    }
}

/// Whether a statement declares or assigns a block or an `if` as a value, which the
/// generator writes out as a helper function beforehand.
pub open spec fn lambda_at(it: Items) -> bool {
    match it {
        Items::Var(Var::Decl(d)) => d.val matches Some(x) && (x is Block || x is IfElse),
        Items::Var(Var::Var(v)) => v.val matches Some(x) && (x is Block || x is IfElse),
        _ => false,
    }
}

/// The C helper for one branch of an `if` used as a value, numbered `counter`: a function
/// of the variables the branch reads, whose body is the branch's C text. `None` where the
/// branch's text is not told beforehand.
pub open spec fn branch_text(ret: Seq<char>, body: Seq<Items>, m: Seq<EntryView>, counter: usize) -> Option<Seq<char>> {
    match block_text(body, future_names(body), m, wadd(counter, 1)) {
        Some((t, _, _)) => Some(
            "static inline "@ + ret + " "@ + "__nn_inline_if"@ + decimal(counter as nat) + "("@ + ref_params(
                items_refs(body, m),
            ) + ") {\n"@ + t + "\n}\n"@,
        ),
        None => None,
    }
}

/// The call of the helper for a branch numbered `counter`, as the value that uses it
/// reads it: the helper applied to the variables the branch reads.
pub open spec fn branch_call(body: Seq<Items>, m: Seq<EntryView>, counter: usize) -> Seq<char> {
    "__nn_inline_if"@ + decimal(counter as nat) + "("@ + ref_args(items_refs(body, m)) + ")"@
}

/// The C helpers that a value needs beforehand, the block number afterwards, and what
/// is queued for the value to use: one function for a block (queued by name), one per
/// branch for an `if` (each queued as a call), none for anything else.
pub open spec fn lambda_text(v: Value, m: Seq<EntryView>, counter: usize) -> Option<(Seq<char>, usize, Seq<Seq<char>>)> {
    match v {
        Value::Block(ty, items) => match block_text(items@, future_names(items@), m, wadd(counter, 1)) {
            Some((t, _, _)) => Some(
                (
                    "static inline "@ + c_type(ty) + " "@ + "__nn_inline_block"@ + decimal(counter as nat)
                        + "() {\n"@ + t + "\n}\n"@,
                    wadd(counter, 1),
                    seq!["__nn_inline_block"@ + decimal(counter as nat)],
                ),
            ),
            None => None,
        },
        Value::IfElse(ie) => {
            let ret = c_type(
                match ie.ret {
                    Some(t) => t,
                    None => Type::Void,
                },
            );
            match branch_text(ret, ie.body@, m, counter) {
                None => None,
                Some(a) => match ie.elif {
                    None => Some((a, wadd(counter, 1), seq![branch_call(ie.body@, m, counter)])),
                    Some(e) => match branch_text(ret, e.body@, m, wadd(counter, 1)) {
                        Some(b) => Some(
                            (
                                a + b,
                                wadd(wadd(counter, 1), 1),
                                seq![branch_call(ie.body@, m, counter), branch_call(e.body@, m, wadd(counter, 1))],
                            ),
                        ),
                        None => None,
                    },
                },
            }
        },
        _ => Some((Seq::empty(), counter, Seq::empty())),
    }
}

/// The block or `if` that a statement declares or assigns, if any.
pub open spec fn lambda_of(it: Items) -> Option<Value> {
    match it {
        Items::Var(Var::Decl(d)) => match d.val {
            Some(x) => if x is Block || x is IfElse {
                Some(x)
            } else {
                None
            },
            None => None,
        },
        Items::Var(Var::Var(v)) => match v.val {
            Some(x) => if x is Block || x is IfElse {
                Some(x)
            } else {
                None
            },
            None => None,
        },
        _ => None,
    }
}

/// The C helpers that the statements of a body need beforehand, in order, the block
/// number afterwards, and what is queued for the values to use.
pub open spec fn helpers_text(body: Seq<Items>, m: Seq<EntryView>, counter: usize) -> Option<
    (Seq<char>, usize, Seq<Seq<char>>),
>
    decreases body.len(),
{
    if body.len() == 0 {
        Some((Seq::empty(), counter, Seq::empty()))
    } else {
        match helpers_text(body.drop_last(), m, counter) {
            None => None,
            Some((t, c, q)) => match lambda_of(body.last()) {
                None => Some((t, c, q)),
                Some(v) => match lambda_text(v, m, c) {
                    Some((x, c2, q2)) => Some((t + x, c2, q + q2)),
                    None => None,
                },
            },
        }
    }
}

/// Whether no statement of a body needs a helper function beforehand.
pub open spec fn body_lambda_free(body: Seq<Items>) -> bool {
    forall|k: int| 0 <= k < body.len() ==> !lambda_at(#[trigger] body[k])
}

/// Whether a global item is no function, or one whose body needs no helper function.
pub open spec fn global_lambda_free(g: Global) -> bool {
    match g {
        Global::Fun(FunKind::Custom(f)) => body_lambda_free(f.body@),
        Global::Fun(FunKind::Entry(f)) => body_lambda_free(f.body@),
        _ => true,
    }
}

/// Whether none of the program's functions needs a helper function beforehand.
pub open spec fn lambdas_none(items: Seq<Global>) -> bool {
    forall|i: int| 0 <= i < items.len() ==> global_lambda_free(#[trigger] items[i])
}

/// The prototypes of the functions bound in a global scope, in order, where the
/// generator tells them beforehand: `None` where one has a body, that is, is imported.
pub open spec fn scope_protos(syms: Seq<(String, Symbol)>) -> Option<Seq<char>>
    decreases syms.len(),
{
    if syms.len() == 0 {
        Some(Seq::empty())
    } else {
        match scope_protos(syms.drop_last()) {
            None => None,
            Some(t) => match syms.last().1 {
                Symbol::Function(f) => match f.body {
                    None => Some(t + c_type(f.ret) + " nn_"@ + syms.last().0@ + "();\n"@),
                    Some(_) => None,
                },
                _ => Some(t),
            },
        }
    }
}

/// The names after the first `k` parameters of an imported function are registered
/// (each with its type, not as a list).
pub open spec fn import_param_names(ps: Seq<crate::symbol::Param>, k: int, m: Seq<EntryView>, counter: usize) -> Seq<
    EntryView,
>
    decreases k,
{
    if k <= 0 {
        m
    } else {
        let m0 = import_param_names(ps, k - 1, m, counter);
        registered(m0, ps[k - 1].0@, counter, ps[k - 1].1, false).1
    }
}

/// The C parameter list of the first `k` parameters of an imported function, by their C
/// names, and the names afterwards: `const` unless mutable, the C type, the name;
/// separated by `, `.
pub open spec fn import_params(ps: Seq<crate::symbol::Param>, k: int, m: Seq<EntryView>, counter: usize) -> (
    Seq<char>,
    Seq<EntryView>,
)
    decreases k,
{
    if k <= 0 {
        (Seq::empty(), m)
    } else {
        let (t, m0) = import_params(ps, k - 1, m, counter);
        let p = ps[k - 1];
        let (mg, m1) = registered(m0, p.0@, counter, Type::Void, false);
        (t + (if !p.2 {
            "const "@
        } else {
            ""@
        }) + c_type(p.1) + " "@ + mg + (if k < ps.len() {
            ", "@
        } else {
            ""@
        }), m1)
    }
}

/// The C code of an imported function where the generator tells it beforehand (a body
/// that needs no helper function), and the block number after it: a prototype where it
/// has no body; otherwise its signature over its parameters' C names, and its body.
pub open spec fn imported_c(id: Seq<char>, f: crate::symbol::FunctionSym, m: Seq<EntryView>, counter: usize) -> Option<
    (Seq<char>, usize),
> {
    match f.body {
        None => Some((c_type(f.ret) + " nn_"@ + id + "();\n"@, counter)),
        Some(body) => if body_lambda_free(body@) {
            let n = f.params@.len() as int;
            let m1 = import_param_names(f.params@, n, m, counter);
            let (ps, m2) = import_params(f.params@, n, m1, counter);
            match block_text(body@, future_names(body@), m2, wadd(counter, 1)) {
                Some((b, _, _)) => Some(
                    (c_type(f.ret) + " nn_"@ + id + "("@ + ps + ")\n"@ + "{\n"@ + b + "\n}\n"@, wadd(counter, 1)),
                ),
                None => None,
            }
        } else {
            None
        },
    }
}

/// The prototypes of the functions bound in the global scopes, scope after scope, where
/// the generator tells them beforehand (no function is imported).
pub open spec fn protos(scopes: Seq<crate::symbol::Scope>) -> Option<Seq<char>>
    decreases scopes.len(),
{
    if scopes.len() == 0 {
        Some(Seq::empty())
    } else {
        match protos(scopes.drop_last()) {
            None => None,
            Some(t) => if scopes.last().kind == ScopeKind::Global {
                match scope_protos(scopes.last().symbols@) {
                    Some(x) => Some(t + x),
                    None => None,
                }
            } else {
                Some(t)
            },
        }
    }
}

/// The C code of the functions bound in a global scope, in order, where the generator
/// tells it beforehand, and the block number after it (see `imported_c`).
pub open spec fn scope_code(syms: Seq<(String, Symbol)>, m: Seq<EntryView>, counter: usize) -> Option<
    (Seq<char>, usize),
>
    decreases syms.len(),
{
    if syms.len() == 0 {
        Some((Seq::empty(), counter))
    } else {
        match scope_code(syms.drop_last(), m, counter) {
            None => None,
            Some((t, c)) => match syms.last().1 {
                Symbol::Function(f) => match imported_c(syms.last().0@, f, m, c) {
                    Some((x, c2)) => Some((t + x, c2)),
                    None => None,
                },
                _ => Some((t, c)),
            },
        }
    }
}

/// The C code of the functions bound in the global scopes, scope after scope, where the
/// generator tells it beforehand, and the block number after it.
pub open spec fn protos_code(scopes: Seq<crate::symbol::Scope>, m: Seq<EntryView>, counter: usize) -> Option<
    (Seq<char>, usize),
>
    decreases scopes.len(),
{
    if scopes.len() == 0 {
        Some((Seq::empty(), counter))
    } else {
        match protos_code(scopes.drop_last(), m, counter) {
            None => None,
            Some((t, c)) => if scopes.last().kind == ScopeKind::Global {
                match scope_code(scopes.last().symbols@, m, c) {
                    Some((x, c2)) => Some((t + x, c2)),
                    None => None,
                }
            } else {
                Some((t, c))
            },
        }
    }
}

/// The names the generator knows before it writes the program's items: each global
/// variable under its own name, as it is declared.
pub open spec fn global_entries(items: Seq<Global>) -> Seq<EntryView>
    decreases items.len(),
{
    if items.len() == 0 {
        Seq::empty()
    } else {
        global_entries(items.drop_last()) + match items.last() {
            Global::Var(v) => seq![(v.id@, v.id@, v.ty, false)],
            _ => Seq::empty(),
        }
    }
}

/// The names that the first `k` parameters of a function declare in its C signature:
/// each parameter without a default value, under its own name.
pub open spec fn param_entries(ps: Seq<VarDecl>, k: int) -> Seq<EntryView>
    decreases k,
{
    if k <= 0 {
        Seq::empty()
    } else {
        param_entries(ps, k - 1) + if ps[k - 1].val is None {
            seq![(ps[k - 1].id@, ps[k - 1].id@, ps[k - 1].ty, ps[k - 1].list)]
        } else {
            Seq::empty()
        }
    }
}

/// The names a function's body starts with: those known, then its parameters, so that
/// the body refers to each parameter by the name its signature declares.
pub open spec fn fun_names(f: Function, m: Seq<EntryView>) -> Seq<EntryView> {
    m + param_entries(f.params@, f.params@.len() as int)
}

/// The C text of a function other than the entry point, where the generator tells it
/// beforehand, with the block number after it: a declaration where it has no body.
pub open spec fn fun_c(f: Function, m: Seq<EntryView>, counter: usize) -> Option<(Seq<char>, usize)> {
    let head = c_type(f.ret) + " "@ + "nn_"@ + f.id@ + "("@ + params_text(f.params@, f.params@.len() as int) + ")"@;
    if f.body@.len() == 0 {
        Some((head + ";"@ + "\n\n"@, counter))
    } else {
        match block_text(f.body@, future_names(f.body@), fun_names(f, m), wadd(counter, 1)) {
            Some((b, _, _)) => Some((head + " {\n\n"@ + b + "\n}"@ + "\n\n"@, wadd(counter, 1))),
            None => None,
        }
    }
}

/// The C text of one of the program's items where the generator tells it beforehand,
/// with the names and the block number after it: a function, the entry point as `main`,
/// or a global variable; nothing for the others.
pub open spec fn item_c(g: Global, m: Seq<EntryView>, counter: usize) -> Option<(Seq<char>, Seq<EntryView>, usize)> {
    match g {
        Global::Fun(FunKind::Custom(f)) => match fun_c(f, m, counter) {
            Some((x, c2)) => Some((x, m, c2)),
            None => None,
        },
        Global::Fun(FunKind::Entry(f)) => match block_text(f.body@, future_names(f.body@), m, wadd(counter, 1)) {
            Some((b, _, _)) => Some(("int main()\n{\n"@ + b + "\n\treturn 0;\n}"@, m, wadd(counter, 1))),
            None => None,
        },
        Global::Var(v) => {
            let head = (if v.mutable {
                ""@
            } else {
                "const "@
            }) + c_type(v.ty) + " "@ + v.id@;
            match v.val {
                None => Some((head + ";\n"@, m, counter)),
                Some(x) => match val_text(x, m, counter) {
                    Some((xt, m2)) => Some((head + " = "@ + xt + ";\n"@, m2, counter)),
                    None => None,
                },
            }
        },
        _ => Some((Seq::empty(), m, counter)),
    }
}

/// The C text of the program's items, in order, where the generator tells it beforehand,
/// with the names and the block number after them.
pub open spec fn items_c(items: Seq<Global>, m: Seq<EntryView>, counter: usize) -> Option<
    (Seq<char>, Seq<EntryView>, usize),
>
    decreases items.len(),
{
    if items.len() == 0 {
        Some((Seq::empty(), m, counter))
    } else {
        match items_c(items.drop_last(), m, counter) {
            None => None,
            Some((t, m1, c1)) => match item_c(items.last(), m1, c1) {
                Some((x, m2, c2)) => Some((t + x, m2, c2)),
                None => None,
            },
        }
    }
}

/// The four headers every generated file starts with.
pub open spec fn c_headers() -> Seq<char> {
    "#include <stdio.h>\n"@ + "#include <stdlib.h>\n"@ + "#include <math.h>\n"@ + "#include <stdbool.h>\n\n"@
}

/// The `main` generated when the program has no entry point.
pub open spec fn default_main() -> Seq<char> {
    "int main()\n{\n"@ + "\treturn 0;\n"@ + "}\n"@
}

/// Whether the program has an entry point.
pub open spec fn has_entry(items: Seq<Global>) -> bool {
    exists|i: int| 0 <= i < items.len() && (#[trigger] items[i]) matches Global::Fun(FunKind::Entry(_))
}

/// The C text of a function parameter: nothing for one with a default value, else its
/// `const` (unless mutable), C type and name; the last one is preceded by a space, the
/// others followed by a comma.
pub open spec fn param_text(p: VarDecl, last: bool) -> Seq<char> {
    if p.val is Some {
        Seq::empty()
    } else if last {
        " "@ + (if p.mutable { ""@ } else { "const "@ }) + c_type(p.ty) + " "@ + p.id@
    } else {
        (if p.mutable { ""@ } else { "const "@ }) + c_type(p.ty) + " "@ + p.id@ + ","@
    }
}

/// The C text of the first `k` parameters of a function.
pub open spec fn params_text(ps: Seq<VarDecl>, k: int) -> Seq<char>
    decreases k,
{
    if k <= 0 {
        Seq::empty()
    } else {
        params_text(ps, k - 1) + param_text(ps[k - 1], k - 1 == ps.len() - 1)
    }
}

/// Generating an expression only adds names: those known before stay as they were.
pub proof fn law_expr_names_grow(e: Expr, m: Seq<EntryView>, counter: usize)
    ensures
        prefix_of(m, c_expr(e, m, counter).1),
    decreases e,
{
    match e {
        Expr::Binary(b) => {
            let m1 = c_expr(*b.left, m, counter).1;
            law_expr_names_grow(*b.left, m, counter);
            law_expr_names_grow(*b.right, m1, counter);
            lemma_prefix_trans(m, m1, c_expr(*b.right, m1, counter).1);
        },
        Expr::Boolean(b) => {
            let m1 = c_expr(*b.left, m, counter).1;
            law_expr_names_grow(*b.left, m, counter);
            law_expr_names_grow(*b.right, m1, counter);
            lemma_prefix_trans(m, m1, c_expr(*b.right, m1, counter).1);
        },
        Expr::Grouped(g) => law_expr_names_grow(*g, m, counter),
        Expr::Unary(u) => law_expr_names_grow(*u.right, m, counter),
        _ => {},
    }
}

proof fn lemma_decimal_digits(n: nat)
    ensures
        decimal(n).len() >= 1,
        n >= 10 ==> decimal(n).len() >= 2,
        forall|i: int| 0 <= i < decimal(n).len() ==> '0' <= #[trigger] decimal(n)[i] <= '9',
    decreases n,
{
    if n >= 10 {
        lemma_decimal_digits(n / 10);
    }
}

proof fn lemma_digit_char_injective(x: nat, y: nat)
    requires
        x < 10,
        y < 10,
        crate::text::digit_char(x) == crate::text::digit_char(y),
    ensures
        x == y,
{
}

proof fn lemma_decimal_injective(a: nat, b: nat)
    requires
        decimal(a) == decimal(b),
    ensures
        a == b,
    decreases a,
{
    lemma_decimal_digits(a);
    lemma_decimal_digits(b);
    if a >= 10 && b >= 10 {
        assert(decimal(a).drop_last() == decimal(a / 10));
        assert(decimal(b).drop_last() == decimal(b / 10));
        lemma_decimal_injective(a / 10, b / 10);
        assert(decimal(a) == decimal(a / 10).push(crate::text::digit_char(a % 10)));
        assert(decimal(b) == decimal(b / 10).push(crate::text::digit_char(b % 10)));
        assert(decimal(a).last() == decimal(b).last());
        assert(decimal(a).last() == crate::text::digit_char(a % 10));
        assert(decimal(b).last() == crate::text::digit_char(b % 10));
        lemma_digit_char_injective(a % 10, b % 10);
        assert(a == (a / 10) * 10 + a % 10);
        assert(b == (b / 10) * 10 + b % 10);
    } else if a < 10 && b < 10 {
        assert(decimal(a) == seq![crate::text::digit_char(a)]);
        assert(decimal(b) == seq![crate::text::digit_char(b)]);
        assert(decimal(a)[0] == decimal(b)[0]);
        assert(decimal(a)[0] == crate::text::digit_char(a));
        assert(decimal(b)[0] == crate::text::digit_char(b));
        lemma_digit_char_injective(a, b);
    } else {
        assert(decimal(a).len() != decimal(b).len());
    }
}

/// The C text of a binary arithmetic expression is the texts of its operands around the
/// C operator of the same meaning, with a space on each side: `+` for a sum, `-` for a
/// difference, `*` for a product, `/` for a quotient and `%` for a remainder.
pub proof fn law_arith_c_operators(b: BinaryOp, m: Seq<EntryView>, counter: usize)
    ensures
        ({
            let (l, m1) = c_expr(*b.left, m, counter);
            let (r, _) = c_expr(*b.right, m1, counter);
            let t = c_expr(Expr::Binary(b), m, counter).0;
            &&& b.op == Operator::Add ==> t == l + " + "@ + r
            &&& b.op == Operator::Sub ==> t == l + " - "@ + r
            &&& b.op == Operator::Mul ==> t == l + " * "@ + r
            &&& b.op == Operator::Div ==> t == l + " / "@ + r
            &&& b.op == Operator::Mod ==> t == l + " % "@ + r
        }),
{
    reveal_strlit(" ");
    reveal_strlit("+");
    reveal_strlit("-");
    reveal_strlit("*");
    reveal_strlit("/");
    reveal_strlit("%");
    reveal_strlit(" + ");
    reveal_strlit(" - ");
    reveal_strlit(" * ");
    reveal_strlit(" / ");
    reveal_strlit(" % ");
    let (l, m1) = c_expr(*b.left, m, counter);
    let (r, _) = c_expr(*b.right, m1, counter);
    let op = arith_op(b.op);
    assert(l + " "@ + op + " "@ + r =~= l + (" "@ + op + " "@) + r);
    if b.op == Operator::Add {
        assert(" "@ + op + " "@ =~= " + "@);
    } else if b.op == Operator::Sub {
        assert(" "@ + op + " "@ =~= " - "@);
    } else if b.op == Operator::Mul {
        assert(" "@ + op + " "@ =~= " * "@);
    } else if b.op == Operator::Div {
        assert(" "@ + op + " "@ =~= " / "@);
    } else if b.op == Operator::Mod {
        assert(" "@ + op + " "@ =~= " % "@);
    }
}

/// The C text of a logical or comparison expression is the texts of its operands around
/// the C operator of the same meaning, with a space on each side: `||`, `&&`, `|`, `&`,
/// `==`, `!=`, `<`, `<=`, `>` and `>=`.
pub proof fn law_logic_c_operators(b: BinaryOp, m: Seq<EntryView>, counter: usize)
    ensures
        ({
            let (l, m1) = c_expr(*b.left, m, counter);
            let (r, _) = c_expr(*b.right, m1, counter);
            let t = c_expr(Expr::Boolean(b), m, counter).0;
            &&& b.op == Operator::LOr ==> t == l + " || "@ + r
            &&& b.op == Operator::LAnd ==> t == l + " && "@ + r
            &&& b.op == Operator::BWOr ==> t == l + " | "@ + r
            &&& b.op == Operator::BWAnd ==> t == l + " & "@ + r
            &&& b.op == Operator::Eq ==> t == l + " == "@ + r
            &&& b.op == Operator::NEq ==> t == l + " != "@ + r
            &&& b.op == Operator::L ==> t == l + " < "@ + r
            &&& b.op == Operator::LE ==> t == l + " <= "@ + r
            &&& b.op == Operator::G ==> t == l + " > "@ + r
            &&& b.op == Operator::GE ==> t == l + " >= "@ + r
        }),
{
    reveal_strlit(" ");
    reveal_strlit("||");
    reveal_strlit("&&");
    reveal_strlit("|");
    reveal_strlit("&");
    reveal_strlit("==");
    reveal_strlit("!=");
    reveal_strlit("<");
    reveal_strlit("<=");
    reveal_strlit(">");
    reveal_strlit(">=");
    reveal_strlit(" || ");
    reveal_strlit(" && ");
    reveal_strlit(" | ");
    reveal_strlit(" & ");
    reveal_strlit(" == ");
    reveal_strlit(" != ");
    reveal_strlit(" < ");
    reveal_strlit(" <= ");
    reveal_strlit(" > ");
    reveal_strlit(" >= ");
    let (l, m1) = c_expr(*b.left, m, counter);
    let (r, _) = c_expr(*b.right, m1, counter);
    let op = logic_op(b.op);
    assert(l + " "@ + op + " "@ + r =~= l + (" "@ + op + " "@) + r);
    if b.op == Operator::LOr {
        assert(" "@ + op + " "@ =~= " || "@);
    } else if b.op == Operator::LAnd {
        assert(" "@ + op + " "@ =~= " && "@);
    } else if b.op == Operator::BWOr {
        assert(" "@ + op + " "@ =~= " | "@);
    } else if b.op == Operator::BWAnd {
        assert(" "@ + op + " "@ =~= " & "@);
    } else if b.op == Operator::Eq {
        assert(" "@ + op + " "@ =~= " == "@);
    } else if b.op == Operator::NEq {
        assert(" "@ + op + " "@ =~= " != "@);
    } else if b.op == Operator::L {
        assert(" "@ + op + " "@ =~= " < "@);
    } else if b.op == Operator::LE {
        assert(" "@ + op + " "@ =~= " <= "@);
    } else if b.op == Operator::G {
        assert(" "@ + op + " "@ =~= " > "@);
    } else if b.op == Operator::GE {
        assert(" "@ + op + " "@ =~= " >= "@);
    }
}

/// The C spelling of every arithmetic, logic and comparison operator is read back by
/// the lexer as that same operator: what the generator writes means what was parsed.
pub proof fn law_c_operators_read_back(o: Operator)
    ensures
        arith_op(o).len() > 0 ==> crate::lexer::reserved(arith_op(o)) == Some(TokenKind::Operator(o)),
        logic_op(o).len() > 0 ==> crate::lexer::reserved(logic_op(o)) == Some(TokenKind::Operator(o)),
{
    crate::lexer::law_reserved_operators();
    reveal_strlit("");
}

/// Each numeric type is written as the C type of its width and sign: `u8` as
/// `unsigned char`, `u16` as `unsigned short`, `u32` as `unsigned int`, `u64` and `usize`
/// as `unsigned long`, `i8` as `char`, `i16` as `short`, `i32` as `int`, `i64` as `long`,
/// `f16` and `f32` as `float`, `f64` as `double`; strings as `char*`, booleans as `bool`,
/// characters as `char` and nothing as `void`.
pub proof fn law_c_types()
    ensures
        c_type(Type::Numeric(Numeric::U8)) == "unsigned char"@,
        c_type(Type::Numeric(Numeric::U16)) == "unsigned short"@,
        c_type(Type::Numeric(Numeric::U32)) == "unsigned int"@,
        c_type(Type::Numeric(Numeric::U64)) == "unsigned long"@,
        c_type(Type::Numeric(Numeric::USize)) == "unsigned long"@,
        c_type(Type::Numeric(Numeric::I8)) == "char"@,
        c_type(Type::Numeric(Numeric::I16)) == "short"@,
        c_type(Type::Numeric(Numeric::I32)) == "int"@,
        c_type(Type::Numeric(Numeric::I64)) == "long"@,
        c_type(Type::Numeric(Numeric::F16)) == "float"@,
        c_type(Type::Numeric(Numeric::F32)) == "float"@,
        c_type(Type::Numeric(Numeric::F64)) == "double"@,
        c_type(Type::StringLiteral) == "char*"@,
        c_type(Type::Boolean) == "bool"@,
        c_type(Type::Character) == "char"@,
        c_type(Type::Void) == "void"@,
{
}

/// A negation is written with the C operator of the same meaning before its operand:
/// `!` for a logical not and `-` for a minus.
pub proof fn law_prefix_c_operators(u: crate::ast::Unary, m: Seq<EntryView>, counter: usize)
    ensures
        u.op == Operator::LNot ==> c_expr(Expr::Unary(u), m, counter).0 == "!"@ + c_expr(*u.right, m, counter).0,
        u.op == Operator::Sub ==> c_expr(Expr::Unary(u), m, counter).0 == "-"@ + c_expr(*u.right, m, counter).0,
{
}

/// The `printf` conversion of a value matches the C type it is declared with: `%ld` for
/// `long`, `%lu` for `unsigned long`, `%d` for `int`, `short` and a signed `char`, `%u`
/// for `unsigned int`, `unsigned short` and `unsigned char`, `%g` for `float` and `%lg`
/// for `double`; every numeric type has one of these C types. Strings are written with
/// `%s` and characters with `%c`.
#[verifier::spinoff_prover]
pub proof fn law_printf_matches_c_type(n: Numeric)
    ensures
        c_type(Type::Numeric(n)) == "long"@ ==> printf_of(Type::Numeric(n)) == "%ld"@,
        c_type(Type::Numeric(n)) == "unsigned long"@ ==> printf_of(Type::Numeric(n)) == "%lu"@,
        c_type(Type::Numeric(n)) == "int"@ || c_type(Type::Numeric(n)) == "short"@ || c_type(Type::Numeric(n))
            == "char"@ ==> printf_of(Type::Numeric(n)) == "%d"@,
        c_type(Type::Numeric(n)) == "unsigned int"@ || c_type(Type::Numeric(n)) == "unsigned short"@ || c_type(
            Type::Numeric(n),
        ) == "unsigned char"@ ==> printf_of(Type::Numeric(n)) == "%u"@,
        c_type(Type::Numeric(n)) == "float"@ ==> printf_of(Type::Numeric(n)) == "%g"@,
        c_type(Type::Numeric(n)) == "double"@ ==> printf_of(Type::Numeric(n)) == "%lg"@,
        c_type(Type::Numeric(n)) == "long"@ || c_type(Type::Numeric(n)) == "unsigned long"@ || c_type(
            Type::Numeric(n),
        ) == "int"@ || c_type(Type::Numeric(n)) == "short"@ || c_type(Type::Numeric(n)) == "char"@ || c_type(
            Type::Numeric(n),
        ) == "unsigned int"@ || c_type(Type::Numeric(n)) == "unsigned short"@ || c_type(Type::Numeric(n))
            == "unsigned char"@ || c_type(Type::Numeric(n)) == "float"@ || c_type(Type::Numeric(n)) == "double"@,
        printf_of(Type::StringLiteral) == "%s"@,
        printf_of(Type::Character) == "%c"@,
{
    reveal_strlit("long");
    reveal_strlit("unsigned long");
    reveal_strlit("int");
    reveal_strlit("short");
    reveal_strlit("char");
    reveal_strlit("unsigned int");
    reveal_strlit("unsigned short");
    reveal_strlit("unsigned char");
    reveal_strlit("float");
    reveal_strlit("double");
    reveal_strlit("%ld");
    reveal_strlit("%lu");
    reveal_strlit("%d");
    reveal_strlit("%u");
    reveal_strlit("%g");
    reveal_strlit("%lg");
    reveal_strlit("%s");
    reveal_strlit("%c");
    assert("long"@.len() == 4 && "char"@.len() == 4 && "int"@.len() == 3 && "short"@.len() == 5);
    assert("float"@.len() == 5 && "double"@.len() == 6 && "unsigned long"@.len() == 13);
    assert("unsigned char"@.len() == 13 && "unsigned int"@.len() == 12 && "unsigned short"@.len() == 14);
    assert("long"@[0] != "char"@[0]);
    assert("unsigned long"@[9] != "unsigned char"@[9]);
    assert("long"@ != "char"@);
    assert("unsigned long"@ != "unsigned char"@);
    assert("short"@[0] != "float"@[0]);
    assert("short"@ != "float"@);
    match n {
        Numeric::U8 => assert(c_type(Type::Numeric(n)) == "unsigned char"@),
        Numeric::U16 => assert(c_type(Type::Numeric(n)) == "unsigned short"@),
        Numeric::U32 => assert(c_type(Type::Numeric(n)) == "unsigned int"@),
        Numeric::U64 => assert(c_type(Type::Numeric(n)) == "unsigned long"@),
        Numeric::USize => assert(c_type(Type::Numeric(n)) == "unsigned long"@),
        Numeric::I8 => assert(c_type(Type::Numeric(n)) == "char"@),
        Numeric::I16 => assert(c_type(Type::Numeric(n)) == "short"@),
        Numeric::I32 => assert(c_type(Type::Numeric(n)) == "int"@),
        Numeric::I64 => assert(c_type(Type::Numeric(n)) == "long"@),
        Numeric::F16 => assert(c_type(Type::Numeric(n)) == "float"@),
        Numeric::F32 => assert(c_type(Type::Numeric(n)) == "float"@),
        Numeric::F64 => assert(c_type(Type::Numeric(n)) == "double"@),
    }
}

/// Names given in different blocks, or to different names, never clash: a C name tells
/// its block and its program name.
pub proof fn law_mangle_injective(c1: usize, n1: Seq<char>, c2: usize, n2: Seq<char>)
    requires
        mangle(c1, n1) == mangle(c2, n2),
    ensures
        c1 == c2,
        n1 == n2,
{
    let d1 = decimal(c1 as nat);
    let d2 = decimal(c2 as nat);
    let l1: int = d1.len() as int;
    let l2: int = d2.len() as int;
    let s = mangle(c1, n1);
    lemma_decimal_digits(c1 as nat);
    lemma_decimal_digits(c2 as nat);
    assert(s[3 + l1] == '_');
    assert(mangle(c2, n2)[3 + l2] == '_');
    if l1 < l2 {
        assert(mangle(c2, n2)[3 + l1] == d2[l1]);
        assert(false);
    }
    if l2 < l1 {
        assert(s[3 + l2] == d1[l2]);
        assert(false);
    }
    assert(d1 =~= s.subrange(3, 3 + l1));
    assert(d2 =~= mangle(c2, n2).subrange(3, 3 + l2));
    lemma_decimal_injective(c1 as nat, c2 as nat);
    assert(n1 =~= s.subrange(4 + l1, s.len() as int));
    assert(n2 =~= mangle(c2, n2).subrange(4 + l2, s.len() as int));
}

pub struct CGenerator {
    pub out: String,
    pub rep: Reporter,
    pub block_counter: usize,
    pub name_map: Vec<NameEntry>,
    pub inline: VecDeque<String>,
}

pub proof fn lemma_entries_push(m: Seq<NameEntry>, e: NameEntry)
    ensures
        entries(m.push(e)) == entries(m).push((e.0@, e.1@, e.2, e.3)),
{
    assert(entries(m.push(e)) =~= entries(m).push((e.0@, e.1@, e.2, e.3)));
}

/// The values of the rows of a list, row after row.
fn flatten<'a>(rows: &'a Vec<Vec<Value>>) -> (r: Vec<&'a Value>)
    ensures
        refs_size(r@) + rows@.len() == rows_size(rows@),
        derefs(r@) == flat_rows(rows@),
{
    let mut out: Vec<&'a Value> = Vec::new();
    let mut i: usize = 0;
    while i < rows.len()
        invariant
            i <= rows@.len(),
            refs_size(out@) + i == rows_size(rows@.take(i as int)),
            derefs(out@) == flat_rows(rows@.take(i as int)),
        decreases rows.len() - i,
    {
        let row = &rows[i];
        let ghost base = refs_size(out@);
        let ghost head = derefs(out@);
        let mut j: usize = 0;
        while j < row.len()
            invariant
                j <= row@.len(),
                refs_size(out@) == base + values_size(row@.take(j as int)),
                derefs(out@) == head + row@.take(j as int),
            decreases row.len() - j,
        {
            let ghost prev = out@;
            out.push(&row[j]);
            proof {
                assert(out@.drop_last() =~= prev);
                assert(row@.take(j + 1).drop_last() =~= row@.take(j as int));
                assert(*out@[out@.len() - 1] == row@[j as int]);
                assert(derefs(out@).drop_last() =~= derefs(prev));
                assert(derefs(out@).last() == row@[j as int]);
                assert(derefs(out@) =~= derefs(out@).drop_last().push(derefs(out@).last()));
                assert(head + row@.take(j + 1) =~= (head + row@.take(j as int)).push(row@[j as int]));
            }
            j = j + 1;
        }
        proof {
            assert(row@.take(row@.len() as int) =~= row@);
            assert(rows@.take(i + 1).drop_last() =~= rows@.take(i as int));
            assert(rows@.take(i + 1).last() == *row);
        }
        i = i + 1;
    }
    assert(rows@.take(rows@.len() as int) =~= rows@);
    out
}

/// Whether `names` holds `name`.
fn contains_name(names: &Vec<String>, name: &str) -> (r: bool)
    ensures
        r == exists|k: int| 0 <= k < names@.len() && names@[k]@ == name@,
{
    let mut k: usize = 0;
    while k < names.len()
        invariant
            k <= names@.len(),
            forall|j: int| 0 <= j < k ==> names@[j]@ != name@,
        decreases names.len() - k,
    {
        if str_eq(names[k].as_str(), name) {
            return true;
        }
        k = k + 1;
    }
    false
}

/// `i32::from_str`, read as 0 when it fails.
fn parse_i32_or_zero(s: &str) -> (r: i32)
    ensures
        r == i32_or_zero(s@),
{
    match parse_i64(&str_chars(s)) {
        Some(n) => if -2147483648 <= n && n <= 2147483647 {
            n as i32
        } else {
            0
        },
        None => 0,
    }
}

/// Whether `refs` already holds the C name `mangled`.
fn has_ref(refs: &Vec<(String, Type)>, mangled: &str) -> (r: bool)
    ensures
        r == exists|k: int| 0 <= k < refs@.len() && ref_view(refs@)[k].0 == mangled@,
{
    let mut k: usize = 0;
    while k < refs.len()
        invariant
            k <= refs@.len(),
            forall|j: int| 0 <= j < k ==> ref_view(refs@)[j].0 != mangled@,
        decreases refs.len() - k,
    {
        if str_eq(refs[k].0.as_str(), mangled) {
            assert(ref_view(refs@)[k as int].0 == mangled@);
            return true;
        }
        k = k + 1;
    }
    false
}

impl CGenerator {
    /// A generator with no output, no diagnostics and no names yet.
    pub fn new() -> (r: Self)
        ensures
            r.out@ == Seq::<char>::empty(),
            r.rep.messages@.len() == 0,
            r.block_counter == 0,
            r.name_map@.len() == 0,
            r.inline@.len() == 0,
    {
        CGenerator {
            out: String::new(),
            rep: Reporter::new(),
            block_counter: 0,
            name_map: Vec::new(),
            inline: VecDeque::new(),
        }
    }

    /// The C type for `ty`.
    fn get_type(&self, ty: &Type) -> (r: String)
        ensures
            r@ == c_type(*ty),
    {
        match ty {
            Type::Numeric(n) => match n {
                Numeric::U8 => owned("unsigned char"),
                Numeric::U16 => owned("unsigned short"),
                Numeric::U32 => owned("unsigned int"),
                Numeric::U64 => owned("unsigned long"),
                Numeric::I8 => owned("char"),
                Numeric::I16 => owned("short"),
                Numeric::I32 => owned("int"),
                Numeric::I64 => owned("long"),
                Numeric::F16 => owned("float"),
                Numeric::F32 => owned("float"),
                Numeric::F64 => owned("double"),
                Numeric::USize => owned("unsigned long"),
            },
            Type::StringLiteral => owned("char*"),
            Type::Boolean => owned("bool"),
            Type::Character => owned("char"),
            Type::Custom(c) => c.clone(),
            Type::Void => owned("void"),
        }
    }

    /// The `printf` conversion for values of type `ty`.
    fn printf_fmt(ty: &Type) -> (r: &'static str)
        ensures
            r@ == printf_of(*ty),
    {
        match ty {
            Type::Numeric(n) => match n {
                Numeric::F16 | Numeric::F32 => "%g",
                Numeric::F64 => "%lg",
                Numeric::U8 | Numeric::U16 | Numeric::U32 => "%u",
                Numeric::U64 | Numeric::USize => "%lu",
                Numeric::I8 | Numeric::I16 | Numeric::I32 => "%d",
                Numeric::I64 => "%ld",
            },
            Type::StringLiteral => "%s",
            Type::Character => "%c",
            _ => "%s",
        }
    }

    /// The position of the first entry for the program name `name`.
    fn find_orig(&self, name: &str) -> (r: Option<usize>)
        ensures
            match r {
                Some(i) => i < self.name_map@.len() && first_by_orig(entries(self.name_map@), name@) == Some(
                    entries(self.name_map@)[i as int],
                ),
                None => first_by_orig(entries(self.name_map@), name@) is None,
            },
    {
        let ghost m = entries(self.name_map@);
        let mut i: usize = 0;
        assert(m.skip(0) =~= m);
        while i < self.name_map.len()
            invariant
                m == entries(self.name_map@),
                i <= self.name_map@.len(),
                first_by_orig(m, name@) == first_by_orig(m.skip(i as int), name@),
            decreases self.name_map.len() - i,
        {
            assert(m.skip(i as int)[0] == m[i as int]);
            assert(m.skip(i as int).drop_first() =~= m.skip(i + 1));
            if str_eq(self.name_map[i].0.as_str(), name) {
                return Some(i);
            }
            i = i + 1;
        }
        None
    }

    /// The position of the first entry for the C name `mangled`.
    fn find_mangled(&self, mangled: &str) -> (r: Option<usize>)
        ensures
            match r {
                Some(i) => i < self.name_map@.len() && first_by_mangled(entries(self.name_map@), mangled@) == Some(
                    entries(self.name_map@)[i as int],
                ),
                None => first_by_mangled(entries(self.name_map@), mangled@) is None,
            },
    {
        let ghost m = entries(self.name_map@);
        let mut i: usize = 0;
        assert(m.skip(0) =~= m);
        while i < self.name_map.len()
            invariant
                m == entries(self.name_map@),
                i <= self.name_map@.len(),
                first_by_mangled(m, mangled@) == first_by_mangled(m.skip(i as int), mangled@),
            decreases self.name_map.len() - i,
        {
            assert(m.skip(i as int)[0] == m[i as int]);
            assert(m.skip(i as int).drop_first() =~= m.skip(i + 1));
            if str_eq(self.name_map[i].1.as_str(), mangled) {
                return Some(i);
            }
            i = i + 1;
        }
        None
    }

    /// The C name of `name`: the known one, or a new one for the current block, recorded
    /// with the given type and list flag.
    fn register_var(&mut self, name: &str, ty: Type, is_list: bool) -> (r: String)
        ensures
            (r@, entries(final(self).name_map@)) == registered(
                entries(old(self).name_map@),
                name@,
                old(self).block_counter,
                ty,
                is_list,
            ),
            final(self).block_counter == old(self).block_counter,
            final(self).out == old(self).out,
            final(self).rep == old(self).rep,
            final(self).inline == old(self).inline,
            prefix_of(old(self).name_map@, final(self).name_map@),
    {
        match self.find_orig(name) {
            Some(i) => self.name_map[i].1.clone(),
            None => {
                let head = concat2("__b", usize_to_string(self.block_counter).as_str());
                let mangled = concat3(head.as_str(), "_", name);
                proof {
                    reveal_strlit("__b");
                    reveal_strlit("_");
                    assert(mangled@ =~= mangle(self.block_counter, name@));
                }
                let entry = (owned(name), mangled.clone(), ty, is_list);
                let ghost before = self.name_map@;
                self.name_map.push(entry);
                proof {
                    lemma_entries_push(before, entry);
                }
                mangled
            },
        }
    }

    /// The C name of `name`, recorded untyped if it is new.
    fn get_set_mangled(&mut self, name: &str) -> (r: String)
        ensures
            (r@, entries(final(self).name_map@)) == registered(
                entries(old(self).name_map@),
                name@,
                old(self).block_counter,
                Type::Void,
                false,
            ),
            final(self).block_counter == old(self).block_counter,
            final(self).out == old(self).out,
            final(self).rep == old(self).rep,
            final(self).inline == old(self).inline,
            prefix_of(old(self).name_map@, final(self).name_map@),
    {
        self.register_var(name, Type::Void, false)
    }

    /// The type recorded for the program name `name` (`none` if it is unknown).
    fn type_of_var(&self, name: &str) -> (r: Type)
        ensures
            r == match first_by_orig(entries(self.name_map@), name@) {
                Some(e) => e.2,
                None => Type::Void,
            },
    {
        match self.find_orig(name) {
            Some(i) => self.name_map[i].2.clone(),
            None => Type::Void,
        }
    }

    /// Whether the C name `mangled` holds a list.
    fn is_list_var(&self, mangled: &str) -> (r: bool)
        ensures
            r == match first_by_mangled(entries(self.name_map@), mangled@) {
                Some(e) => e.3,
                None => false,
            },
    {
        match self.find_mangled(mangled) {
            Some(i) => self.name_map[i].3,
            None => false,
        }
    }

    /// Reports an expression that C generation does not support.
    fn report_unsupported(&mut self)
        ensures
            final(self).rep.messages@.len() == old(self).rep.messages@.len() + 1,
            prefix_of(old(self).rep.messages@, final(self).rep.messages@),
            final(self).rep.messages@.last().kind is UnsupportedExpression,
            final(self).rep.messages@.last().severity == Severity::Error,
            final(self).name_map == old(self).name_map,
            final(self).block_counter == old(self).block_counter,
            final(self).out == old(self).out,
            final(self).inline == old(self).inline,
    {
        let e = GraviError::throw(Kind::UnsupportedExpression).hint(
            "Try writing a valid expression, like:\n\t- a binary expression: \"val1 op val2\"\n\t- a grouped expression \"(val1 op val2)\"\n\t- a boolean expression: \"a || b\" or \"a && b\"\n\t- a range: \"start:step:end\" (exclusive) or \"start:step::end\" (inclusive)\n\t- an identifier: named variable\n\t- a numeric literal: 1, 2, ... n or 1.x, 2.x, ..., n.x",
        );
        self.rep.add(e);
    }

    /// The C text of an expression.
    fn gen_expr(&mut self, expr: &Expr) -> (r: String)
        ensures
            (r@, entries(final(self).name_map@)) == c_expr(
                *expr,
                entries(old(self).name_map@),
                old(self).block_counter,
            ),
            final(self).rep.messages@.len() == old(self).rep.messages@.len() + unsupported(*expr),
            prefix_of(old(self).rep.messages@, final(self).rep.messages@),
            forall|k: int|
                old(self).rep.messages@.len() <= k < final(self).rep.messages@.len() ==> unsupported_error(
                    #[trigger] final(self).rep.messages@[k],
                ),
            prefix_of(old(self).name_map@, final(self).name_map@),
            final(self).block_counter == old(self).block_counter,
            final(self).out == old(self).out,
            final(self).inline == old(self).inline,
        decreases expr,
    {
        match expr {
            Expr::Identifier(id) => self.get_set_mangled(id.as_str()),
            Expr::Literal(val) => val.clone(),
            Expr::Binary(b) => {
                let op = match b.op {
                    Operator::Add => "+",
                    Operator::Sub => "-",
                    Operator::Mul => "*",
                    Operator::Div => "/",
                    Operator::Mod => "%",
                    Operator::Pow => "^",
                    _ => "",
                };
                let ghost m0 = self.rep.messages@;
                let ghost n0 = self.name_map@;
                let l = self.gen_expr(&b.left);
                let ghost m1 = self.rep.messages@;
                let ghost n1 = self.name_map@;
                let r = self.gen_expr(&b.right);
                proof {
                    lemma_prefix_trans(m0, m1, self.rep.messages@);
                    lemma_prefix_trans(n0, n1, self.name_map@);
                    assert forall|k: int| m0.len() <= k < self.rep.messages@.len() implies unsupported_error(
                        #[trigger] self.rep.messages@[k],
                    ) by {
                        if k < m1.len() {
                            assert(self.rep.messages@[k] == m1[k]);
                        }
                    }
                }
                let mut res = concat3(l.as_str(), " ", op);
                append(&mut res, " ");
                append(&mut res, r.as_str());
                proof {
                    assert(res@ =~= l@ + " "@ + arith_op(b.op) + " "@ + r@);
                }
                res
            },
            Expr::Grouped(e) => {
                let inner = self.gen_expr(e);
                let res = concat3("(", inner.as_str(), ")");
                res
            },
            Expr::Boolean(b) => {
                let op = match b.op {
                    Operator::LAnd => "&&",
                    Operator::LOr => "||",
                    Operator::NEq => "!=",
                    Operator::Eq => "==",
                    Operator::LE => "<=",
                    Operator::GE => ">=",
                    Operator::L => "<",
                    Operator::G => ">",
                    Operator::BWAnd => "&",
                    Operator::BWOr => "|",
                    _ => "",
                };
                let ghost m0 = self.rep.messages@;
                let ghost n0 = self.name_map@;
                let l = self.gen_expr(&b.left);
                let ghost m1 = self.rep.messages@;
                let ghost n1 = self.name_map@;
                let r = self.gen_expr(&b.right);
                proof {
                    lemma_prefix_trans(m0, m1, self.rep.messages@);
                    lemma_prefix_trans(n0, n1, self.name_map@);
                    assert forall|k: int| m0.len() <= k < self.rep.messages@.len() implies unsupported_error(
                        #[trigger] self.rep.messages@[k],
                    ) by {
                        if k < m1.len() {
                            assert(self.rep.messages@[k] == m1[k]);
                        }
                    }
                }
                let mut res = concat3(l.as_str(), " ", op);
                append(&mut res, " ");
                append(&mut res, r.as_str());
                proof {
                    assert(res@ =~= l@ + " "@ + logic_op(b.op) + " "@ + r@);
                }
                res
            },
            Expr::Unary(u) => {
                let op = match u.op {
                    Operator::LNot => "!",
                    Operator::Sub => "-",
                    _ => "",
                };
                let r = self.gen_expr(&u.right);
                concat2(op, r.as_str())
            },
            Expr::Range(_) => String::new(),
            _ => {
                self.report_unsupported();
                String::new()
            },
        }
    }

    /// Adds to `refs` the variables that an expression reads (see `expr_refs`).
    fn collect_expr_refs(&self, expr: &Expr, refs: &mut Vec<(String, Type)>)
        ensures
            ref_view(final(refs)@) == expr_refs(*expr, entries(self.name_map@), ref_view(old(refs)@)),
        decreases expr,
    {
        match expr {
            Expr::Identifier(id) => {
                match self.find_orig(id.as_str()) {
                    Some(i) => {
                        let mangled = &self.name_map[i].1;
                        if !has_ref(refs, mangled.as_str()) {
                            let ghost before = refs@;
                            refs.push((mangled.clone(), self.name_map[i].2.clone()));
                            assert(ref_view(refs@) =~= ref_view(before).push((mangled@, self.name_map@[i as int].2)));
                        }
                    },
                    None => {},
                }
            },
            Expr::Binary(b) | Expr::Boolean(b) => {
                self.collect_expr_refs(&b.left, refs);
                self.collect_expr_refs(&b.right, refs);
            },
            Expr::Unary(u) => self.collect_expr_refs(&u.right, refs),
            Expr::Grouped(e) => self.collect_expr_refs(e, refs),
            _ => {},
        }
    }

    /// The variables, by C name and type, that a list of statements reads, each once.
    fn collect_refs(&self, items: &Vec<Items>) -> (r: Vec<(String, Type)>)
        ensures
            ref_view(r@) == items_refs(items@, entries(self.name_map@)),
    {
        let mut refs: Vec<(String, Type)> = Vec::new();
        let mut i: usize = 0;
        while i < items.len()
            invariant
                i <= items@.len(),
                ref_view(refs@) == items_refs(items@.take(i as int), entries(self.name_map@)),
            decreases items.len() - i,
        {
            proof {
                assert(items@.take(i + 1).drop_last() =~= items@.take(i as int));
                assert(items@.take(i + 1).last() == items@[i as int]);
            }
            let v: Option<&Value> = match &items[i] {
                Items::Ret(v) => Some(v),
                Items::Expr(v) => Some(v),
                Items::Var(Var::Decl(d)) => match &d.val {
                    Some(x) => Some(x),
                    None => None,
                },
                Items::Var(Var::Var(x)) => match &x.val {
                    Some(y) => Some(y),
                    None => None,
                },
                _ => None,
            };
            match v {
                Some(Value::Expression(e)) => self.collect_expr_refs(e, &mut refs),
                _ => {},
            }
            i = i + 1;
        }
        assert(items@.take(items@.len() as int) =~= items@);
        refs
    }

    /// Takes the next inline helper from the queue (nothing when it is empty).
    fn pop_inline(&mut self) -> (r: String)
        ensures
            r@ == queue_front(old(self).inline@),
            final(self).inline@ == queue_rest(old(self).inline@),
            final(self).name_map == old(self).name_map,
            final(self).rep == old(self).rep,
            final(self).out == old(self).out,
            final(self).block_counter == old(self).block_counter,
    {
        match self.inline.pop_front() {
            Some(s) => {
                assert(old(self).inline@.subrange(1, old(self).inline@.len() as int) =~= old(self).inline@.drop_first());
                s
            },
            None => String::new(),
        }
    }

    /// The C text of one argument of a call (see `c_arg`).
    fn gen_arg(&mut self, val: &Value) -> (r: String)
        ensures
            (r@, entries(final(self).name_map@)) == c_arg(*val, entries(old(self).name_map@), old(self).block_counter),
            final(self).rep.messages@.len() == old(self).rep.messages@.len() + arg_unsupported(*val),
            prefix_of(old(self).rep.messages@, final(self).rep.messages@),
            prefix_of(old(self).name_map@, final(self).name_map@),
            final(self).block_counter == old(self).block_counter,
            final(self).out == old(self).out,
            final(self).inline == old(self).inline,
        decreases value_size(*val), 0nat,
    {
        match val {
            Value::Expression(e) => self.gen_expr(e),
            Value::StringLiteral(t) => {
                let r = concat3("\"", t.as_str(), "\"");
                r
            },
            Value::Boolean(b) => if *b == BoolValue::True {
                owned("true")
            } else {
                owned("false")
            },
            Value::Call(id, values) => {
                let inner = self.gen_call(values);
                let head = concat3("nn_", id.as_str(), "(");
                let r = concat3(head.as_str(), inner.as_str(), ")");
                assert(r@ =~= "nn_"@ + id@ + "("@ + inner@ + ")"@);
                r
            },
            _ => String::new(),
        }
    }

    /// The C text of the arguments of a call (see `c_args`).
    fn gen_call(&mut self, vals: &Vec<Value>) -> (r: String)
        ensures
            (r@, entries(final(self).name_map@)) == c_args(vals@, entries(old(self).name_map@), old(self).block_counter),
            final(self).rep.messages@.len() == old(self).rep.messages@.len() + args_unsupported(vals@),
            prefix_of(old(self).rep.messages@, final(self).rep.messages@),
            prefix_of(old(self).name_map@, final(self).name_map@),
            final(self).block_counter == old(self).block_counter,
            final(self).out == old(self).out,
            final(self).inline == old(self).inline,
        decreases values_size(vals@), 1nat,
    {
        let mut res = String::new();
        let mut i: usize = 0;
        while i < vals.len()
            invariant
                i <= vals@.len(),
                (res@, entries(self.name_map@)) == c_args(
                    vals@.take(i as int),
                    entries(old(self).name_map@),
                    old(self).block_counter,
                ),
                self.rep.messages@.len() == old(self).rep.messages@.len() + args_unsupported(vals@.take(i as int)),
                prefix_of(old(self).rep.messages@, self.rep.messages@),
                prefix_of(old(self).name_map@, self.name_map@),
                self.block_counter == old(self).block_counter,
                self.out == old(self).out,
                self.inline == old(self).inline,
            decreases vals.len() - i,
        {
            proof {
                assert(vals@.take(i + 1).drop_last() =~= vals@.take(i as int));
                assert(vals@.take(i + 1).last() == vals@[i as int]);
                lemma_value_le(vals@, i as int);
            }
            let ghost m0 = self.rep.messages@;
            let ghost n0 = self.name_map@;
            let ghost res0 = res@;
            let x = self.gen_arg(&vals[i]);
            proof {
                lemma_prefix_trans(old(self).rep.messages@, m0, self.rep.messages@);
                lemma_prefix_trans(old(self).name_map@, n0, self.name_map@);
            }
            if i == 0 {
                res = x;
            } else {
                append(&mut res, ", ");
                append(&mut res, x.as_str());
            }
            proof {
                let s = vals@.take(i + 1);
                assert(s.last() == vals@[i as int]);
                assert(s.drop_last() =~= vals@.take(i as int));
                if i > 0 {
                    assert(res@ =~= res0 + ", "@ + x@);
                }
            }
            i = i + 1;
        }
        assert(vals@.take(vals@.len() as int) =~= vals@);
        res
    }

    /// The C text of a value. Blocks stand for the next inline helper; lists read their
    /// elements by index.
    fn gen_val(&mut self, val: &Value) -> (r: String)
        ensures
            prefix_of(old(self).rep.messages@, final(self).rep.messages@),
            prefix_of(old(self).name_map@, final(self).name_map@),
            final(self).block_counter == old(self).block_counter,
            final(self).out == old(self).out,
            *val matches Value::Expression(e) ==> (r@, entries(final(self).name_map@)) == c_expr(
                e,
                entries(old(self).name_map@),
                old(self).block_counter,
            ),
            *val is Call || *val is StringLiteral || *val is Boolean ==> (r@, entries(final(self).name_map@))
                == c_arg(*val, entries(old(self).name_map@), old(self).block_counter),
            *val matches Value::Char(c) ==> r@ == seq!['\'', c, '\''],
            *val is Null || *val is Loop ==> r@.len() == 0,
            *val is Block ==> r@ == queue_front(old(self).inline@) && final(self).inline@ == queue_rest(
                old(self).inline@,
            ),
            val_text(*val, entries(old(self).name_map@), old(self).block_counter) matches Some((t, m)) ==> r@ == t
                && entries(final(self).name_map@) == m,
            !(*val is Block || *val is IfElse || *val is List) ==> final(self).inline == old(self).inline,
        decreases value_size(*val), 0nat,
    {
        match val {
            Value::Expression(e) => self.gen_expr(e),
            Value::StringLiteral(_) => self.gen_arg(val),
            Value::Boolean(_) => self.gen_arg(val),
            Value::Call(_, _) => self.gen_arg(val),
            Value::Block(_, _) => self.pop_inline(),
            Value::IfElse(ie) => self.gen_if_ternary(ie),
            Value::Null => String::new(),
            Value::Loop(_) => String::new(),
            Value::List(List::Use(id, vals, None)) => {
                let flat = flatten(vals);
                let mangled = self.get_set_mangled(id.as_str());
                let ghost n1 = self.name_map@;
                let ghost m1 = self.rep.messages@;
                let expanded = self.expand_indices(&flat);
                proof {
                    lemma_prefix_trans(old(self).name_map@, n1, self.name_map@);
                }
                let mut res = String::new();
                let mut k: usize = 0;
                while k < expanded.len()
                    invariant
                        k <= expanded@.len(),
                    decreases expanded.len() - k,
                {
                    if k > 0 {
                        append(&mut res, ", ");
                    }
                    append(&mut res, mangled.as_str());
                    append(&mut res, "[");
                    append(&mut res, expanded[k].as_str());
                    append(&mut res, "]");
                    k = k + 1;
                }
                res
            },
            Value::Char(c) => {
                let mut res = String::new();
                push_char(&mut res, '\'');
                push_char(&mut res, *c);
                push_char(&mut res, '\'');
                assert(res@ =~= seq!['\'', *c, '\'']);
                res
            },
            _ => String::new(),
        }
    }

    /// The indices that a list of index values denotes, as C text: a range stands for
    /// each index from its start to its end (read as numbers, 0 when they do not read
    /// as one), counting down when the start is the greater; any other value for itself.
    fn expand_indices(&mut self, vals: &Vec<&Value>) -> (r: Vec<String>)
        ensures
            prefix_of(old(self).rep.messages@, final(self).rep.messages@),
            prefix_of(old(self).name_map@, final(self).name_map@),
            final(self).block_counter == old(self).block_counter,
            final(self).out == old(self).out,
            indices_text(derefs(vals@), entries(old(self).name_map@), old(self).block_counter) matches Some((ts, m))
                ==> texts(r@) == ts && entries(final(self).name_map@) == m,
        decreases refs_size(vals@), 1nat,
    {
        let mut result: Vec<String> = Vec::new();
        let ghost all = derefs(vals@);
        let ghost counter = old(self).block_counter;
        let ghost m_start = entries(old(self).name_map@);
        let mut i: usize = 0;
        while i < vals.len()
            invariant
                i <= vals@.len(),
                prefix_of(old(self).rep.messages@, self.rep.messages@),
                prefix_of(old(self).name_map@, self.name_map@),
                self.block_counter == old(self).block_counter,
                self.out == old(self).out,
                all == derefs(vals@),
                counter == old(self).block_counter,
                m_start == entries(old(self).name_map@),
                indices_text(all.take(i as int), m_start, counter) matches Some((ts, mm)) ==> texts(result@) == ts
                    && entries(self.name_map@) == mm,
            decreases vals.len() - i,
        {
            proof {
                lemma_refs_size_le(vals@, i as int);
                assert(all.take(i + 1).drop_last() =~= all.take(i as int));
                assert(all.take(i + 1).last() == *vals@[i as int]);
            }
            let ghost m0 = self.rep.messages@;
            let ghost n0 = self.name_map@;
            let ghost ts0 = texts(result@);
            let v: &Value = vals[i];
            match v {
                Value::Expression(Expr::Range(rng)) => {
                    let st = self.gen_expr(&rng.start);
                    let ghost m1 = self.rep.messages@;
                    let ghost n1 = self.name_map@;
                    let en = self.gen_expr(&rng.end);
                    proof {
                        lemma_prefix_trans(m0, m1, self.rep.messages@);
                        lemma_prefix_trans(n0, n1, self.name_map@);
                    }
                    let s: u64 = match parse_u64(&str_chars(st.as_str())) {
                        Some(n) => n,
                        None => 0,
                    };
                    let e: u64 = match parse_u64(&str_chars(en.as_str())) {
                        Some(n) => n,
                        None => 0,
                    };
                    proof {
                        assert(s == index_num(st@));
                        assert(e == index_num(en@));
                    }
                    if s <= e {
                        let mut k = s;
                        if rng.inclusive {
                            loop
                                invariant_except_break
                                    texts(result@) == ts0 + Seq::new((k - s) as nat, |j: int| decimal((s + j) as nat)),
                                invariant
                                    s <= k <= e,
                                ensures
                                    texts(result@) == ts0 + range_indices(s, e, true),
                                decreases e - k,
                            {
                                let ghost before = result@;
                                result.push(u64_to_string(k));
                                proof {
                                    assert(texts(result@) =~= texts(before).push(decimal(k as nat)));
                                    assert(texts(result@) =~= ts0 + Seq::new(
                                        (k + 1 - s) as nat,
                                        |j: int| decimal((s + j) as nat),
                                    ));
                                }
                                if k == e {
                                    proof {
                                        assert(range_indices(s, e, true) =~= Seq::new(
                                            (k + 1 - s) as nat,
                                            |j: int| decimal((s + j) as nat),
                                        ));
                                    }
                                    break;
                                }
                                k = k + 1;
                            }
                        } else {
                            while k < e
                                invariant
                                    s <= k <= e,
                                    texts(result@) == ts0 + Seq::new((k - s) as nat, |j: int| decimal((s + j) as nat)),
                                decreases e - k,
                            {
                                let ghost before = result@;
                                result.push(u64_to_string(k));
                                proof {
                                    assert(texts(result@) =~= texts(before).push(decimal(k as nat)));
                                    assert(texts(result@) =~= ts0 + Seq::new(
                                        (k + 1 - s) as nat,
                                        |j: int| decimal((s + j) as nat),
                                    ));
                                }
                                k = k + 1;
                            }
                            proof {
                                assert(range_indices(s, e, false) =~= Seq::new(
                                    (k - s) as nat,
                                    |j: int| decimal((s + j) as nat),
                                ));
                            }
                        }
                    } else {
                        let mut k = s;
                        if rng.inclusive {
                            loop
                                invariant_except_break
                                    texts(result@) == ts0 + Seq::new((s - k) as nat, |j: int| decimal((s - j) as nat)),
                                invariant
                                    e <= k <= s,
                                ensures
                                    texts(result@) == ts0 + range_indices(s, e, true),
                                decreases k - e,
                            {
                                let ghost before = result@;
                                result.push(u64_to_string(k));
                                proof {
                                    assert(texts(result@) =~= texts(before).push(decimal(k as nat)));
                                    assert(texts(result@) =~= ts0 + Seq::new(
                                        (s - k + 1) as nat,
                                        |j: int| decimal((s - j) as nat),
                                    ));
                                }
                                if k == e {
                                    proof {
                                        assert(range_indices(s, e, true) =~= Seq::new(
                                            (s - k + 1) as nat,
                                            |j: int| decimal((s - j) as nat),
                                        ));
                                    }
                                    break;
                                }
                                k = k - 1;
                            }
                        } else {
                            while k > e
                                invariant
                                    e <= k <= s,
                                    texts(result@) == ts0 + Seq::new((s - k) as nat, |j: int| decimal((s - 1 - j) as nat)),
                                decreases k - e,
                            {
                                k = k - 1;
                                let ghost before = result@;
                                result.push(u64_to_string(k));
                                proof {
                                    assert(texts(result@) =~= texts(before).push(decimal(k as nat)));
                                    assert(texts(result@) =~= ts0 + Seq::new(
                                        (s - k) as nat,
                                        |j: int| decimal((s - 1 - j) as nat),
                                    ));
                                }
                            }
                            proof {
                                assert(range_indices(s, e, false) =~= Seq::new(
                                    (s - k) as nat,
                                    |j: int| decimal((s - 1 - j) as nat),
                                ));
                            }
                        }
                    }
                },
                _ => {
                    let t = self.gen_val(v);
                    let ghost before = result@;
                    result.push(t);
                    proof {
                        assert(texts(result@) =~= texts(before) + seq![t@]);
                    }
                },
            }
            proof {
                lemma_prefix_trans(old(self).rep.messages@, m0, self.rep.messages@);
                lemma_prefix_trans(old(self).name_map@, n0, self.name_map@);
            }
            i = i + 1;
        }
        proof {
            assert(all.take(vals@.len() as int) =~= all);
        }
        result
    }

    /// The C conditional expression for an `if` used as a value: its condition, then the
    /// next two inline helpers as the two branches.
    fn gen_if_ternary(&mut self, ifelse: &IfElse) -> (r: String)
        ensures
            prefix_of(old(self).rep.messages@, final(self).rep.messages@),
            prefix_of(old(self).name_map@, final(self).name_map@),
            final(self).block_counter == old(self).block_counter,
            final(self).out == old(self).out,
            cond_text(ifelse.cond, entries(old(self).name_map@), old(self).block_counter) matches Some(c) ==> {
                &&& r@ == "("@ + c + ") ? "@ + queue_front(old(self).inline@) + " : "@ + queue_front(
                    queue_rest(old(self).inline@),
                )
                &&& final(self).inline@ == queue_rest(queue_rest(old(self).inline@))
            },
        decreases ifelse_size(*ifelse), 0nat,
    {
        let c = match &ifelse.cond {
            Some(v) => self.gen_val(v),
            None => self.gen_expr(&Expr::Null),
        };
        let ghost m1 = self.rep.messages@;
        let ghost n1 = self.name_map@;
        let a = self.pop_inline();
        let b = self.pop_inline();
        let mut res = concat3("(", c.as_str(), ") ? ");
        append(&mut res, a.as_str());
        append(&mut res, " : ");
        append(&mut res, b.as_str());
        res
    }

    /// The assignments for `id[indices] = rhs`: one per index, from the matching index of
    /// a source list, from the matching number of a range, or of the one value.
    #[verifier::rlimit(80)]
    fn gen_list_use_assign(&mut self, id: &str, indices: &Vec<&Value>, rhs: &Value) -> (r: String)
        ensures
            prefix_of(old(self).rep.messages@, final(self).rep.messages@),
            prefix_of(old(self).name_map@, final(self).name_map@),
            final(self).block_counter == old(self).block_counter,
            final(self).out == old(self).out,
            list_assign_text(id@, derefs(indices@), *rhs, entries(old(self).name_map@), old(self).block_counter)
                matches Some(t) ==> r@ == t,
    {
        let ghost counter = self.block_counter;
        let dest = self.get_set_mangled(id);
        let ghost n1 = self.name_map@;
        let lhs = self.expand_indices(indices);
        proof {
            lemma_prefix_trans(old(self).name_map@, n1, self.name_map@);
        }
        let ghost n2 = self.name_map@;
        let ghost m2 = self.rep.messages@;
        let ghost full = list_assign_text(id@, derefs(indices@), *rhs, entries(old(self).name_map@), counter);
        let ghost lt = texts(lhs@);
        let mut res = String::new();
        match rhs {
            Value::List(List::Use(src_id, src_indices, None)) => {
                let src = self.get_set_mangled(src_id.as_str());
                let flat = flatten(src_indices);
                let ghost n3 = self.name_map@;
                let rhs_idx = self.expand_indices(&flat);
                proof {
                    lemma_prefix_trans(n2, n3, self.name_map@);
                }
                let ghost rt = texts(rhs_idx@).map_values(|x: Seq<char>| src@ + "["@ + x + "]"@);
                let mut k: usize = 0;
                while k < lhs.len() && k < rhs_idx.len()
                    invariant
                        k <= lhs@.len(),
                        k <= rhs_idx@.len(),
                        lt == texts(lhs@),
                        rt == texts(rhs_idx@).map_values(|x: Seq<char>| src@ + "["@ + x + "]"@),
                        res@ == assign_lines(dest@, lt, rt, k as nat),
                    decreases lhs.len() - k,
                {
                    let ghost r0 = res@;
                    append(&mut res, "\t");
                    append(&mut res, dest.as_str());
                    append(&mut res, "[");
                    append(&mut res, lhs[k].as_str());
                    append(&mut res, "] = ");
                    append(&mut res, src.as_str());
                    append(&mut res, "[");
                    append(&mut res, rhs_idx[k].as_str());
                    append(&mut res, "];\n");
                    proof {
                        reveal_strlit("];\n");
                        reveal_strlit("]");
                        reveal_strlit(";\n");
                        assert(lt[k as int] == lhs@[k as int]@);
                        assert(rt[k as int] == src@ + "["@ + rhs_idx@[k as int]@ + "]"@);
                        assert(res@ =~= assign_lines(dest@, lt, rt, (k + 1) as nat));
                    }
                    k = k + 1;
                }
            },
            Value::Expression(Expr::Range(_)) => {
                let mut one: Vec<&Value> = Vec::new();
                one.push(rhs);
                proof {
                    assert(derefs(one@) =~= seq![*rhs]);
                }
                let rhs_idx = self.expand_indices(&one);
                let ghost rt = texts(rhs_idx@);
                let mut k: usize = 0;
                while k < lhs.len() && k < rhs_idx.len()
                    invariant
                        k <= lhs@.len(),
                        k <= rhs_idx@.len(),
                        lt == texts(lhs@),
                        rt == texts(rhs_idx@),
                        res@ == assign_lines(dest@, lt, rt, k as nat),
                    decreases lhs.len() - k,
                {
                    append(&mut res, "\t");
                    append(&mut res, dest.as_str());
                    append(&mut res, "[");
                    append(&mut res, lhs[k].as_str());
                    append(&mut res, "] = ");
                    append(&mut res, rhs_idx[k].as_str());
                    append(&mut res, ";\n");
                    proof {
                        assert(lt[k as int] == lhs@[k as int]@);
                        assert(rt[k as int] == rhs_idx@[k as int]@);
                        assert(res@ =~= assign_lines(dest@, lt, rt, (k + 1) as nat));
                    }
                    k = k + 1;
                }
            },
            _ => {
                let val = self.gen_val(rhs);
                let ghost rt = Seq::new(lhs@.len(), |j: int| val@);
                let mut k: usize = 0;
                while k < lhs.len()
                    invariant
                        k <= lhs@.len(),
                        lt == texts(lhs@),
                        rt == Seq::new(lhs@.len(), |j: int| val@),
                        res@ == assign_lines(dest@, lt, rt, k as nat),
                    decreases lhs.len() - k,
                {
                    append(&mut res, "\t");
                    append(&mut res, dest.as_str());
                    append(&mut res, "[");
                    append(&mut res, lhs[k].as_str());
                    append(&mut res, "] = ");
                    append(&mut res, val.as_str());
                    append(&mut res, ";\n");
                    proof {
                        assert(lt[k as int] == lhs@[k as int]@);
                        assert(res@ =~= assign_lines(dest@, lt, rt, (k + 1) as nat));
                    }
                    k = k + 1;
                }
            },
        }
        proof {
            lemma_prefix_trans(old(self).name_map@, n2, self.name_map@);
            lemma_prefix_trans(old(self).rep.messages@, m2, self.rep.messages@);
        }
        res
    }

    /// The C elements of a list literal: each element of a source list by index, any
    /// other value as itself.
    fn list_elements(&mut self, flat: &Vec<&Value>) -> (r: Vec<String>)
        ensures
            prefix_of(old(self).rep.messages@, final(self).rep.messages@),
            prefix_of(old(self).name_map@, final(self).name_map@),
            final(self).block_counter == old(self).block_counter,
            final(self).out == old(self).out,
            elements_text(derefs(flat@), entries(old(self).name_map@), old(self).block_counter) matches Some((ts, m))
                ==> texts(r@) == ts && entries(final(self).name_map@) == m && final(self).inline == old(self).inline,
    {
        let mut all: Vec<String> = Vec::new();
        let mut i: usize = 0;
        while i < flat.len()
            invariant
                i <= flat@.len(),
                prefix_of(old(self).rep.messages@, self.rep.messages@),
                prefix_of(old(self).name_map@, self.name_map@),
                self.block_counter == old(self).block_counter,
                self.out == old(self).out,
                elements_text(derefs(flat@.take(i as int)), entries(old(self).name_map@), old(self).block_counter)
                    matches Some((ts, mm)) ==> texts(all@) == ts && entries(self.name_map@) == mm && self.inline == old(
                    self,
                ).inline,
            decreases flat.len() - i,
        {
            let ghost m0 = self.rep.messages@;
            let ghost n0 = self.name_map@;
            let ghost a0 = all@;
            proof {
                assert(derefs(flat@.take(i + 1)).drop_last() =~= derefs(flat@.take(i as int)));
                assert(derefs(flat@.take(i + 1)).last() == *flat@[i as int]);
            }
            let v: &Value = flat[i];
            match v {
                Value::List(List::Use(src_id, src_indices, None)) => {
                    let src = self.get_set_mangled(src_id.as_str());
                    let inner = flatten(src_indices);
                    let ghost n1 = self.name_map@;
                    let idx = self.expand_indices(&inner);
                    proof {
                        lemma_prefix_trans(n0, n1, self.name_map@);
                    }
                    let mut k: usize = 0;
                    while k < idx.len()
                        invariant
                            k <= idx@.len(),
                        decreases idx.len() - k,
                    {
                        let mut t = concat2(src.as_str(), "[");
                        append(&mut t, idx[k].as_str());
                        append(&mut t, "]");
                        all.push(t);
                        k = k + 1;
                    }
                },
                _ => {
                    let t = self.gen_val(v);
                    all.push(t);
                    proof {
                        assert(texts(all@) =~= texts(a0).push(t@));
                    }
                },
            }
            proof {
                lemma_prefix_trans(old(self).rep.messages@, m0, self.rep.messages@);
                lemma_prefix_trans(old(self).name_map@, n0, self.name_map@);
            }
            i = i + 1;
        }
        assert(flat@.take(flat@.len() as int) =~= flat@);
        all
    }

    /// The declaration of a C array named `id` of the given elements: a string as a
    /// terminated `char` array, anything else as an array of its C type; preceded by the
    /// declaration of its size.
    fn array_decl(id: &str, ty_name: &str, is_string: bool, elems: &Vec<String>) -> (r: String)
        ensures
            r@ == array_text(id@, ty_name@, is_string, texts(elems@)),
    {
        let n = elems.len();
        let mut list_val = String::new();
        let mut k: usize = 0;
        while k < elems.len()
            invariant
                k <= elems@.len(),
                list_val@ == joined(texts(elems@.subrange(0, k as int))),
            decreases elems.len() - k,
        {
            if k > 0 {
                append(&mut list_val, ", ");
            }
            append(&mut list_val, elems[k].as_str());
            proof {
                let sub = texts(elems@.subrange(0, k + 1));
                assert(sub.drop_last() =~= texts(elems@.subrange(0, k as int)));
                assert(sub.last() == elems@[k as int]@);
                if k == 0 {
                    assert(sub.len() == 1);
                    assert(list_val@ =~= sub[0]);
                }
            }
            k = k + 1;
        }
        assert(elems@.subrange(0, elems@.len() as int) =~= elems@);
        let mut res = concat3("\tint sz_", id, " = ");
        append(&mut res, usize_to_string(n).as_str());
        append(&mut res, ";\n");
        if is_string {
            let size = if n < usize::MAX { n + 1 } else { n };
            append(&mut res, "\tchar ");
            append(&mut res, id);
            append(&mut res, "[");
            append(&mut res, usize_to_string(size).as_str());
            append(&mut res, "] = {");
            append(&mut res, list_val.as_str());
            append(&mut res, ", '\\0'};\n");
        } else {
            append(&mut res, "\t");
            append(&mut res, ty_name);
            append(&mut res, " ");
            append(&mut res, id);
            append(&mut res, "[");
            append(&mut res, usize_to_string(n).as_str());
            append(&mut res, "] = {");
            append(&mut res, list_val.as_str());
            append(&mut res, "};\n");
        }
        assert(texts(elems@.subrange(0, elems@.len() as int)) =~= texts(elems@));
        assert(res@ =~= array_text(id@, ty_name@, is_string, texts(elems@)));
        res
    }

    /// The C declaration of a variable (already given its C name).
    fn gen_var(&mut self, var: &VarDecl) -> (r: String)
        ensures
            prefix_of(old(self).rep.messages@, final(self).rep.messages@),
            prefix_of(old(self).name_map@, final(self).name_map@),
            final(self).block_counter == old(self).block_counter,
            final(self).out == old(self).out,
            var_text(
                var.par,
                var.mutable,
                var.ty,
                var.val,
                var.id@,
                entries(old(self).name_map@),
                old(self).block_counter,
            ) matches Some((t, m)) ==> r@ == t && entries(final(self).name_map@) == m && final(self).inline == old(
                self,
            ).inline,
    {
        let ty = self.get_type(&var.ty);
        let mutable = if var.mutable { "" } else { "const " };
        let id = var.id.as_str();
        let mut res = String::new();
        match &var.val {
            Some(val) => {
                match val {
                    Value::Expression(Expr::Range(range)) => {
                        let start = match &*range.start {
                            Expr::Literal(v) => v.clone(),
                            _ => owned("0"),
                        };
                        let step = match &range.step {
                            Some(st) => match &**st {
                                Expr::Literal(v) => v.clone(),
                                _ => owned("1"),
                            },
                            None => owned("1"),
                        };
                        let end = match &*range.end {
                            Expr::Literal(v) => v.clone(),
                            _ => owned("1"),
                        };
                        let incl = if range.inclusive { " + 1" } else { "" };
                        if str_eq(start.as_str(), end.as_str()) {
                            append(&mut res, "\t");
                            append(&mut res, ty.as_str());
                            append(&mut res, " ");
                            append(&mut res, id);
                            append(&mut res, "[");
                            append(&mut res, step.as_str());
                            append(&mut res, "];\n");
                            if var.par == Parallelism::CPU {
                                append(&mut res, "\t#pragma omp parallel for\n");
                            }
                            append(&mut res, "\tfor (int i = 0; i < ");
                            append(&mut res, step.as_str());
                            append(&mut res, "; i++) {\n");
                            append(&mut res, "\t\t");
                            append(&mut res, id);
                            append(&mut res, "[i] = ");
                            append(&mut res, start.as_str());
                            append(&mut res, ";\n");
                            append(&mut res, "\t\tprintf(\"%f\\n\", ");
                            append(&mut res, id);
                            append(&mut res, "[i]);\n");
                            append(&mut res, "\t}\n\n");
                        } else {
                            append(&mut res, "\tint sz_");
                            append(&mut res, id);
                            append(&mut res, " = (int)floor((");
                            append(&mut res, end.as_str());
                            append(&mut res, " - ");
                            append(&mut res, start.as_str());
                            append(&mut res, ") / ");
                            append(&mut res, step.as_str());
                            append(&mut res, ")");
                            append(&mut res, incl);
                            append(&mut res, ";\n");
                            append(&mut res, "\t");
                            append(&mut res, ty.as_str());
                            append(&mut res, "* ");
                            append(&mut res, id);
                            append(&mut res, " = malloc(sz_");
                            append(&mut res, id);
                            append(&mut res, " * sizeof(");
                            append(&mut res, ty.as_str());
                            append(&mut res, "));\n");
                            if var.par == Parallelism::CPU {
                                append(&mut res, "\t#pragma omp parallel for\n");
                            }
                            append(&mut res, "\tfor (int i = 0; i < sz_");
                            append(&mut res, id);
                            append(&mut res, "; i++) {\n");
                            append(&mut res, "\t\t");
                            append(&mut res, id);
                            append(&mut res, "[i] = ");
                            append(&mut res, start.as_str());
                            append(&mut res, " + i * ");
                            append(&mut res, step.as_str());
                            append(&mut res, ";\n");
                            append(&mut res, "\t}\n");
                        }
                        proof {
                            reveal(range_decl_text);
                            assert(res@ =~= range_decl_text(var.par, var.ty, *range, var.id@));
                        }
                    },
                    Value::Expression(e) => {
                        let v = self.gen_expr(e);
                        append(&mut res, "\t");
                        append(&mut res, mutable);
                        append(&mut res, ty.as_str());
                        append(&mut res, " ");
                        append(&mut res, id);
                        append(&mut res, " = ");
                        append(&mut res, v.as_str());
                        append(&mut res, ";\n");
                        proof {
                            assert(res@ =~= "\t"@ + (if var.mutable { ""@ } else { "const "@ }) + c_type(var.ty) + " "@
                                + var.id@ + " = "@ + v@ + ";\n"@);
                        }
                    },
                    Value::StringLiteral(s) => {
                        append(&mut res, "\tconst char* ");
                        append(&mut res, id);
                        append(&mut res, " = \"");
                        append(&mut res, s.as_str());
                        append(&mut res, "\";\n");
                        proof {
                            assert(res@ =~= "\tconst char* "@ + var.id@ + " = \""@ + s@ + "\";\n"@);
                        }
                    },
                    Value::Boolean(b) => {
                        let bv = if *b == BoolValue::True { "true" } else { "false" };
                        append(&mut res, "\t");
                        append(&mut res, mutable);
                        append(&mut res, "bool ");
                        append(&mut res, id);
                        append(&mut res, " = ");
                        append(&mut res, bv);
                        append(&mut res, ";\n");
                        proof {
                            assert(res@ =~= "\t"@ + (if var.mutable { ""@ } else { "const "@ }) + "bool "@ + var.id@
                                + " = "@ + (if *b == BoolValue::True { "true"@ } else { "false"@ }) + ";\n"@);
                        }
                    },
                    Value::Block(_, _) => {
                        let blk = self.pop_inline();
                        append(&mut res, "\t");
                        append(&mut res, mutable);
                        append(&mut res, ty.as_str());
                        append(&mut res, " ");
                        append(&mut res, id);
                        append(&mut res, " = ");
                        append(&mut res, blk.as_str());
                        append(&mut res, "();\n");
                    },
                    Value::IfElse(ie) => {
                        let t = self.gen_if_ternary(ie);
                        append(&mut res, "\t");
                        append(&mut res, mutable);
                        append(&mut res, ty.as_str());
                        append(&mut res, " ");
                        append(&mut res, id);
                        append(&mut res, " = ");
                        append(&mut res, t.as_str());
                        append(&mut res, ";\n");
                    },
                    Value::List(List::Decl(_, Some(vals))) => {
                        let flat = flatten(vals);
                        let all = self.list_elements(&flat);
                        let d = Self::array_decl(id, ty.as_str(), matches!(var.ty, Type::StringLiteral), &all);
                        append(&mut res, d.as_str());
                    },
                    Value::List(List::Use(src_id, vals, _)) => {
                        let flat = flatten(vals);
                        let src = self.get_set_mangled(src_id.as_str());
                        let ghost n1 = self.name_map@;
                        let expanded = self.expand_indices(&flat);
                        proof {
                            lemma_prefix_trans(old(self).name_map@, n1, self.name_map@);
                        }
                        let mut elems: Vec<String> = Vec::new();
                        let mut k: usize = 0;
                        while k < expanded.len()
                            invariant
                                k <= expanded@.len(),
                            decreases expanded.len() - k,
                        {
                            let mut t = concat2(src.as_str(), "[");
                            append(&mut t, expanded[k].as_str());
                            append(&mut t, "]");
                            elems.push(t);
                            k = k + 1;
                        }
                        let d = Self::array_decl(id, ty.as_str(), matches!(var.ty, Type::StringLiteral), &elems);
                        append(&mut res, d.as_str());
                    },
                    _ => {},
                }
            },
            None => {
                append(&mut res, "\t");
                append(&mut res, mutable);
                append(&mut res, ty.as_str());
                if self.is_list_var(id) {
                    append(&mut res, "* ");
                    append(&mut res, id);
                    append(&mut res, " = NULL");
                } else {
                    append(&mut res, " ");
                    append(&mut res, id);
                }
                append(&mut res, ";\n");
                proof {
                    assert(res@ =~= "\t"@ + (if var.mutable { ""@ } else { "const "@ }) + c_type(var.ty) + (
                    if first_by_mangled(entries(old(self).name_map@), var.id@) matches Some(e) && e.3 {
                        "* "@ + var.id@ + " = NULL"@
                    } else {
                        " "@ + var.id@
                    }) + ";\n"@);
                }
            },
        }
        res
    }

    /// The `printf` calls that show each value of a `show` call.
    #[verifier::rlimit(100)]
    #[verifier::spinoff_prover]
    fn gen_show(&mut self, vals: &Vec<Value>) -> (r: String)
        ensures
            prefix_of(old(self).rep.messages@, final(self).rep.messages@),
            prefix_of(old(self).name_map@, final(self).name_map@),
            final(self).block_counter == old(self).block_counter,
            final(self).out == old(self).out,
            show_all(vals@, entries(old(self).name_map@), old(self).block_counter) matches Some((t, m)) ==> r@ == t
                && entries(final(self).name_map@) == m && final(self).inline == old(self).inline,
    {
        let mut res = String::new();
        let mut i: usize = 0;
        while i < vals.len()
            invariant
                i <= vals@.len(),
                prefix_of(old(self).rep.messages@, self.rep.messages@),
                prefix_of(old(self).name_map@, self.name_map@),
                self.block_counter == old(self).block_counter,
                self.out == old(self).out,
                show_all(vals@.take(i as int), entries(old(self).name_map@), old(self).block_counter) matches Some(
                    (t, m),
                ) ==> res@ == t && entries(self.name_map@) == m && self.inline == old(self).inline,
            decreases vals.len() - i,
        {
            let ghost m0 = self.rep.messages@;
            let ghost n0 = self.name_map@;
            let ghost r0 = res@;
            proof {
                assert(vals@.take(i + 1).drop_last() =~= vals@.take(i as int));
                assert(vals@.take(i + 1).last() == vals@[i as int]);
            }
            match &vals[i] {
                Value::Expression(Expr::Identifier(name)) => {
                    let mangled = self.get_set_mangled(name.as_str());
                    let ty = self.type_of_var(name.as_str());
                    if self.is_list_var(mangled.as_str()) {
                        if matches!(ty, Type::StringLiteral) {
                            append(&mut res, "\tprintf(\"%s\\n\", ");
                            append(&mut res, mangled.as_str());
                            append(&mut res, ");\n");
                        } else {
                            let fmt = Self::printf_fmt(&ty);
                            append(&mut res, "\tfor (int __i = 0; __i < sz_");
                            append(&mut res, mangled.as_str());
                            append(&mut res, "; __i++) {\n\t\tprintf(\"");
                            append(&mut res, fmt);
                            append(&mut res, "\\n\", ");
                            append(&mut res, mangled.as_str());
                            append(&mut res, "[__i]);\n\t}\n");
                        }
                    } else if matches!(ty, Type::Boolean) {
                        append(&mut res, "\tprintf(\"%s\\n\", ");
                        append(&mut res, mangled.as_str());
                        append(&mut res, " ? \"true\" : \"false\");\n");
                    } else {
                        append(&mut res, "\tprintf(\"");
                        append(&mut res, Self::printf_fmt(&ty));
                        append(&mut res, "\\n\", ");
                        append(&mut res, mangled.as_str());
                        append(&mut res, ");\n");
                    }
                },
                Value::List(List::Use(id, values, _)) => {
                    let mangled = self.get_set_mangled(id.as_str());
                    let var_ty = self.type_of_var(id.as_str());
                    let elem_fmt = if matches!(var_ty, Type::StringLiteral) { "%c" } else { Self::printf_fmt(&var_ty) };
                    let flat = flatten(values);
                    let ghost start_res = res@;
                    let ghost n_start = entries(self.name_map@);
                    let ghost q_start = self.inline;
                    let mut k: usize = 0;
                    while k < flat.len()
                        invariant
                            k <= flat@.len(),
                            prefix_of(n0, self.name_map@),
                            prefix_of(m0, self.rep.messages@),
                            self.block_counter == old(self).block_counter,
                            self.out == old(self).out,
                            show_elements(
                                derefs(flat@).take(k as int),
                                elem_fmt@,
                                mangled@,
                                n_start,
                                old(self).block_counter,
                            ) matches Some((t, mm)) ==> res@ == start_res + t && entries(self.name_map@) == mm
                                && self.inline == q_start,
                        decreases flat.len() - k,
                    {
                        let ghost m1 = self.rep.messages@;
                        let ghost n1 = self.name_map@;
                        let ghost r1 = res@;
                        proof {
                            assert(derefs(flat@).take(k + 1).drop_last() =~= derefs(flat@).take(k as int));
                            assert(derefs(flat@).take(k + 1).last() == *flat@[k as int]);
                        }
                        let v = self.gen_val(flat[k]);
                        proof {
                            lemma_prefix_trans(m0, m1, self.rep.messages@);
                            lemma_prefix_trans(n0, n1, self.name_map@);
                        }
                        append(&mut res, "\tprintf(\"");
                        append(&mut res, elem_fmt);
                        append(&mut res, "\\n\", ");
                        append(&mut res, mangled.as_str());
                        append(&mut res, "[");
                        append(&mut res, v.as_str());
                        append(&mut res, "]);\n");
                        proof {
                            if show_elements(
                                derefs(flat@).take(k + 1),
                                elem_fmt@,
                                mangled@,
                                n_start,
                                old(self).block_counter,
                            ) is Some {
                                let t0 = show_elements(
                                    derefs(flat@).take(k as int),
                                    elem_fmt@,
                                    mangled@,
                                    n_start,
                                    old(self).block_counter,
                                ).unwrap().0;
                                assert(res@ =~= start_res + t0 + "\tprintf(\""@ + elem_fmt@ + "\\n\", "@ + mangled@ + "["@
                                    + v@ + "]);\n"@);
                            }
                        }
                        k = k + 1;
                    }
                    proof {
                        assert(derefs(flat@).take(flat@.len() as int) =~= derefs(flat@));
                    }
                },
                Value::Expression(Expr::Literal(lit)) => {
                    let fmt = if str_contains(lit.as_str(), '.') { "%g" } else { "%d" };
                    append(&mut res, "\tprintf(\"");
                    append(&mut res, fmt);
                    append(&mut res, "\\n\", ");
                    append(&mut res, lit.as_str());
                    append(&mut res, ");\n");
                },
                Value::Expression(expr) => {
                    let e = self.gen_expr(expr);
                    append(&mut res, "\tprintf(\"%g\\n\", ");
                    append(&mut res, e.as_str());
                    append(&mut res, ");\n");
                },
                Value::StringLiteral(t) => {
                    append(&mut res, "\tprintf(\"%s\\n\", \"");
                    append(&mut res, t.as_str());
                    append(&mut res, "\");\n");
                },
                Value::Boolean(b) => {
                    let bstr = if *b == BoolValue::True { "true" } else { "false" };
                    append(&mut res, "\tprintf(\"%s\\n\", \"");
                    append(&mut res, bstr);
                    append(&mut res, "\");\n");
                },
                Value::Call(id, values) => {
                    let args = self.gen_call(values);
                    append(&mut res, "\tprintf(\"%g\\n\", nn_");
                    append(&mut res, id.as_str());
                    append(&mut res, "(");
                    append(&mut res, args.as_str());
                    append(&mut res, "));\n");
                },
                _ => {},
            }
            proof {
                lemma_prefix_trans(old(self).rep.messages@, m0, self.rep.messages@);
                lemma_prefix_trans(old(self).name_map@, n0, self.name_map@);
                if show_all(vals@.take(i + 1), entries(old(self).name_map@), old(self).block_counter) is Some {
                    let x = show_one(vals@[i as int], entries(n0), old(self).block_counter).unwrap().0;
                    assert(res@ =~= r0 + x);
                }
            }
            i = i + 1;
        }
        assert(vals@.take(vals@.len() as int) =~= vals@);
        res
    }

    /// The C `return` statement for a returned value; a block returns the value its last
    /// expression names.
    fn gen_ret(&mut self, val: &Value) -> (r: String)
        ensures
            prefix_of(old(self).rep.messages@, final(self).rep.messages@),
            prefix_of(old(self).name_map@, final(self).name_map@),
            final(self).out == old(self).out,
            *val matches Value::StringLiteral(t) ==> r@ == "\treturn "@ + "\""@ + t@ + "\""@ + ";\n"@,
            *val matches Value::Boolean(b) ==> r@ == "\treturn "@ + (if b == BoolValue::True { "true"@ } else {
                "false"@
            }) + ";\n"@,
            *val matches Value::Char(c) ==> r@ == "\treturn "@ + seq!['\'', c, '\''] + ";\n"@,
            *val is Call || *val is IfElse || *val is Null || *val is Loop || *val is List ==> r@ == "\treturn "@
                + ";\n"@,
            ret_text(*val, entries(old(self).name_map@), old(self).block_counter) matches Some((t, m)) ==> r@ == t
                && entries(final(self).name_map@) == m && final(self).block_counter == old(self).block_counter,
            !(*val is Block) ==> final(self).inline == old(self).inline,
        decreases value_size(*val), 0nat,
    {
        let inner = match val {
            Value::Expression(Expr::Identifier(name)) => self.get_set_mangled(name.as_str()),
            Value::Expression(expr) => self.gen_expr(expr),
            Value::Block(_, vals) => {
                let (_, inner_id) = self.gen_block(vals);
                inner_id
            },
            Value::StringLiteral(t) => concat3("\"", t.as_str(), "\""),
            Value::Boolean(b) => if *b == BoolValue::True {
                owned("true")
            } else {
                owned("false")
            },
            Value::Char(c) => {
                let mut t = String::new();
                push_char(&mut t, '\'');
                push_char(&mut t, *c);
                push_char(&mut t, '\'');
                t
            },
            _ => String::new(),
        };
        let r = concat3("\treturn ", inner.as_str(), ";\n");
        proof {
            if let Value::StringLiteral(t) = val {
                assert(r@ =~= "\treturn "@ + "\""@ + t@ + "\""@ + ";\n"@);
            }
            if let Value::Char(c) = val {
                assert(inner@ =~= seq!['\'', *c, '\'']);
                assert(r@ =~= "\treturn "@ + seq!['\'', *c, '\''] + ";\n"@);
            }
            if val is Call || val is IfElse || val is Null || val is Loop || val is List {
                assert(r@ =~= "\treturn "@ + ";\n"@);
            }
        }
        r
    }

    /// The C text of the condition of an `if`.
    fn gen_cond(&mut self, ifelse: &IfElse) -> (r: String)
        ensures
            prefix_of(old(self).rep.messages@, final(self).rep.messages@),
            prefix_of(old(self).name_map@, final(self).name_map@),
            final(self).block_counter == old(self).block_counter,
            final(self).out == old(self).out,
            cond_text(ifelse.cond, entries(old(self).name_map@), old(self).block_counter) matches Some(c) ==> r@ == c
                && entries(final(self).name_map@) == cond_names(
                ifelse.cond,
                entries(old(self).name_map@),
                old(self).block_counter,
            ) && final(self).inline == old(self).inline,
    {
        match &ifelse.cond {
            Some(v) => self.gen_val(v),
            None => self.gen_expr(&Expr::Null),
        }
    }

    /// The C `if` statement, with its `else` branches.
    fn gen_if(&mut self, ifelse: &IfElse) -> (r: String)
        ensures
            prefix_of(old(self).rep.messages@, final(self).rep.messages@),
            prefix_of(old(self).name_map@, final(self).name_map@),
            final(self).out == old(self).out,
            cond_text(ifelse.cond, entries(old(self).name_map@), old(self).block_counter) matches Some(c)
                ==> starts_with(r@, if_head(c)),
            if_text(*ifelse, entries(old(self).name_map@), old(self).block_counter) matches Some((t, mm, c)) ==> r@
                == t && entries(final(self).name_map@) == mm && final(self).block_counter == c && final(self).inline
                == old(self).inline,
        decreases ifelse_size(*ifelse), 0nat,
    {
        proof {
            reveal(if_text);
        }
        let c = self.gen_cond(ifelse);
        let ghost m1 = self.rep.messages@;
        let ghost n1 = self.name_map@;
        let mut res = concat3("\tif (", c.as_str(), ")");
        append(&mut res, "\n\t{\n");
        let (body, _) = self.gen_block(&ifelse.body);
        append(&mut res, "\t");
        let ghost head = res@;
        append(&mut res, body.as_str());
        append(&mut res, "\n\t}\n");
        let ghost m2 = self.rep.messages@;
        proof {
            lemma_prefix_trans(old(self).rep.messages@, m1, m2);
            assert(res@.subrange(0, head.len() as int) =~= head);
        }
        match &ifelse.elif {
            Some(elif) => {
                let ghost before = res@;
                append(&mut res, "\telse ");
                if elif.cond.is_some() {
                    let e = self.gen_if(elif);
                    append(&mut res, e.as_str());
                } else {
                    append(&mut res, "\n\t{\n");
                    assert(ifelse_size(**elif) >= items_size(elif.body@) + 1);
                    let (b, _) = self.gen_block(&elif.body);
                    append(&mut res, "\t");
                    append(&mut res, b.as_str());
                    append(&mut res, "\n\t}\n");
                }
                proof {
                    lemma_prefix_trans(old(self).rep.messages@, m2, self.rep.messages@);
                    assert(res@.subrange(0, before.len() as int) =~= before);
                    assert(res@.subrange(0, head.len() as int) =~= before.subrange(0, head.len() as int));
                    reveal(if_text);
                    let it = if_text(*ifelse, entries(old(self).name_map@), old(self).block_counter);
                    if it is Some {
                        assert(res@ =~= it.unwrap().0);
                    }
                }
            },
            None => {
                proof {
                    reveal(if_text);
                    let it = if_text(*ifelse, entries(old(self).name_map@), old(self).block_counter);
                    if it is Some {
                        assert(res@ =~= it.unwrap().0);
                    }
                }
            },
        }
        res
    }

    /// The C text of a `for` loop over a range bound to `cond`: it counts up when the
    /// start is below the end, down otherwise; an exclusive range stops one short.
    fn gen_for(&mut self, cond: &VarDecl, start: &Expr, end: &Expr, inclusive: bool, body: &Vec<Items>) -> (r: String)
        ensures
            prefix_of(old(self).rep.messages@, final(self).rep.messages@),
            prefix_of(old(self).name_map@, final(self).name_map@),
            final(self).out == old(self).out,
            starts_with(
                r@,
                range_for_head(
                    *start,
                    *end,
                    inclusive,
                    cond.id@,
                    cond.ty,
                    entries(old(self).name_map@),
                    old(self).block_counter,
                ),
            ),
            for_text(
                *start,
                *end,
                inclusive,
                cond.id@,
                cond.ty,
                body@,
                entries(old(self).name_map@),
                old(self).block_counter,
            ) matches Some((t, mm, c)) ==> r@ == t && entries(final(self).name_map@) == mm && final(self).block_counter
                == c && final(self).inline == old(self).inline,
        decreases items_size(body@), 1nat,
    {
        proof {
            reveal(for_text);
        }
        let st = self.gen_expr(start);
        let ghost m1 = self.rep.messages@;
        let ghost n1 = self.name_map@;
        let en = self.gen_expr(end);
        let mut s = parse_i32_or_zero(st.as_str());
        let mut e = parse_i32_or_zero(en.as_str());
        if !inclusive {
            if s < e {
                e = e - 1;
            } else if e < s {
                s = s - 1;
            }
        }
        let ghost n2 = self.name_map@;
        let id = self.register_var(cond.id.as_str(), cond.ty.clone(), false);
        proof {
            lemma_prefix_trans(old(self).rep.messages@, m1, self.rep.messages@);
            lemma_prefix_trans(old(self).name_map@, n1, n2);
            lemma_prefix_trans(old(self).name_map@, n2, self.name_map@);
        }
        let up = s < e;
        let mut res = concat3("\tfor (int ", id.as_str(), " = ");
        append(&mut res, i32_to_string(s).as_str());
        append(&mut res, "; ");
        append(&mut res, id.as_str());
        append(&mut res, if up { " <= " } else { " >= " });
        append(&mut res, i32_to_string(e).as_str());
        append(&mut res, "; ");
        append(&mut res, id.as_str());
        append(&mut res, if up { "++)\n" } else { "--)\n" });
        let ghost head = res@;
        proof {
            assert(head =~= for_head(id@, s, e));
        }
        let ghost m3 = self.rep.messages@;
        let (b, _) = self.gen_block(body);
        proof {
            lemma_prefix_trans(old(self).rep.messages@, m3, self.rep.messages@);
        }
        append(&mut res, "\t{\n\t");
        append(&mut res, b.as_str());
        append(&mut res, "\n\t}\n");
        assert(res@.subrange(0, head.len() as int) =~= head);
        proof {
            reveal(for_text);
            let ft = for_text(
                *start,
                *end,
                inclusive,
                cond.id@,
                cond.ty,
                body@,
                entries(old(self).name_map@),
                old(self).block_counter,
            );
            if ft is Some {
                assert(res@ =~= ft.unwrap().0);
            }
        }
        res
    }

    /// The C text of a loop statement.
    fn gen_loop(&mut self, l: &Loop) -> (r: String)
        ensures
            prefix_of(old(self).rep.messages@, final(self).rep.messages@),
            prefix_of(old(self).name_map@, final(self).name_map@),
            final(self).out == old(self).out,
            loop_head(*l, entries(old(self).name_map@), old(self).block_counter) matches Some(h) ==> starts_with(r@, h),
            loop_head(*l, entries(old(self).name_map@), old(self).block_counter) is None ==> r@.len() == 0,
            loop_text(*l, entries(old(self).name_map@), old(self).block_counter) matches Some((t, mm, c)) ==> r@ == t
                && entries(final(self).name_map@) == mm && final(self).block_counter == c
                && final(self).inline == old(self).inline,
        decreases items_size(l.body@), 2nat,
    {
        proof {
            reveal(loop_text);
        }
        let mut res = String::new();
        match &l.cond {
            Some(cond) => {
                match &cond.val {
                    Some(Value::Expression(expr)) => {
                        match expr {
                            Expr::Range(r) => {
                                let t = self.gen_for(cond, &r.start, &r.end, r.inclusive, &l.body);
                                append(&mut res, t.as_str());
                                assert(res@ =~= t@);
                            },
                            Expr::Boolean(_) => {
                                let c = self.gen_expr(expr);
                                let ghost m1 = self.rep.messages@;
                                let (b, _) = self.gen_block(&l.body);
                                proof {
                                    lemma_prefix_trans(old(self).rep.messages@, m1, self.rep.messages@);
                                }
                                append(&mut res, "\twhile (");
                                append(&mut res, c.as_str());
                                append(&mut res, ")\n\t{\n\t");
                                let ghost head = res@;
                                append(&mut res, b.as_str());
                                append(&mut res, "\n\t}");
                                assert(res@.subrange(0, head.len() as int) =~= head);
                                proof {
                                    reveal(loop_text);
                                    let lt = loop_text(*l, entries(old(self).name_map@), old(self).block_counter);
                                    if lt is Some {
                                        assert(res@ =~= lt.unwrap().0);
                                    }
                                }
                            },
                            _ => {},
                        }
                    },
                    _ => {},
                }
            },
            None => {
                let (b, _) = self.gen_block(&l.body);
                append(&mut res, "\twhile (true)\n");
                append(&mut res, "\t{\n\t");
                let ghost head = res@;
                append(&mut res, b.as_str());
                append(&mut res, "\n\t}\n");
                assert(res@.subrange(0, head.len() as int) =~= head);
                proof {
                    reveal(loop_text);
                    let lt = loop_text(*l, entries(old(self).name_map@), old(self).block_counter);
                    if lt is Some {
                        assert(res@ =~= lt.unwrap().0);
                    }
                }
            },
        }
        res
    }

    /// The C text of a list of statements, and the C text of the value its last bare
    /// expression names. The names it declares go out of scope at its end.
    #[verifier::rlimit(100)]
    #[verifier::spinoff_prover]
    fn gen_block(&mut self, items: &Vec<Items>) -> (r: (String, String))
        ensures
            final(self).name_map@ == old(self).name_map@,
            prefix_of(old(self).rep.messages@, final(self).rep.messages@),
            final(self).out == old(self).out,
            block_text(
                items@,
                future_names(items@),
                entries(old(self).name_map@),
                wadd(old(self).block_counter, 1),
            ) matches Some((t, id, _)) ==> r.0@ == t && r.1@ == id && final(self).block_counter == wadd(
                old(self).block_counter,
                1,
            ) && final(self).inline == old(self).inline,
            block_full(
                items@,
                future_names(items@),
                entries(old(self).name_map@),
                wadd(old(self).block_counter, 1),
            ) matches Some((t, id, _, c)) ==> r.0@ == t && r.1@ == id && final(self).block_counter == c
                && final(self).inline == old(self).inline,
        decreases items_size(items@), 0nat,
    {
        let len = self.name_map.len();
        self.block_counter = add_wrapping(self.block_counter, 1);
        let mut res = String::new();
        let mut id = String::new();
        let mut future: Vec<String> = Vec::new();
        let mut i: usize = 0;
        while i < items.len()
            invariant
                i <= items@.len(),
                future@.map_values(|x: String| x@) == future_names(items@.take(i as int)),
            decreases items.len() - i,
        {
            let ghost f0 = future@;
            match &items[i] {
                Items::Var(Var::Var(v)) => {
                    if matches!(&v.val, Some(Value::List(_))) {
                        future.push(v.name.clone());
                    }
                },
                _ => {},
            }
            proof {
                assert(items@.take(i + 1).drop_last() =~= items@.take(i as int));
                assert(future@.map_values(|x: String| x@) =~= future_names(items@.take(i + 1)));
            }
            i = i + 1;
        }
        let ghost fut = future_names(items@);
        proof {
            assert(items@.take(items@.len() as int) =~= items@);
        }
        let ghost counter = self.block_counter;
        let ghost m_start = entries(old(self).name_map@);
        let mut i: usize = 0;
        while i < items.len()
            invariant
                i <= items@.len(),
                len == old(self).name_map@.len(),
                prefix_of(old(self).name_map@, self.name_map@),
                prefix_of(old(self).rep.messages@, self.rep.messages@),
                self.out == old(self).out,
                future@.map_values(|x: String| x@) == fut,
                fut == future_names(items@),
                m_start == entries(old(self).name_map@),
                block_full(items@.take(i as int), fut, m_start, counter) matches Some((t, idt, mm, cc)) ==> res@ == t
                    && id@ == idt && entries(self.name_map@) == mm && self.block_counter == cc && self.inline == old(
                    self,
                ).inline,
            decreases items.len() - i,
        {
            proof {
                lemma_item_le(items@, i as int);
                assert(items@.take(i + 1).drop_last() =~= items@.take(i as int));
                assert(items@.take(i + 1).last() == items@[i as int]);
            }
            let ghost m0 = self.rep.messages@;
            let ghost n0 = self.name_map@;
            let ghost r0 = res@;
            let ghost id0 = id@;
            let ghost c0 = self.block_counter;
            match &items[i] {
                Items::Ret(val) => {
                    let t = self.gen_ret(val);
                    append(&mut res, t.as_str());
                },
                Items::Var(Var::Decl(v)) => {
                    let is_list = match &v.val {
                        Some(val) => matches!(val, Value::List(_)),
                        None => contains_name(&future, v.id.as_str()),
                    };
                    proof {
                        if v.val is None {
                            if fut.contains(v.id@) {
                                let j = choose|j: int| 0 <= j < fut.len() && fut[j] == v.id@;
                                assert(future@[j]@ == fut[j]);
                            }
                            if exists|k: int| 0 <= k < future@.len() && future@[k]@ == v.id@ {
                                let k = choose|k: int| 0 <= k < future@.len() && future@[k]@ == v.id@;
                                assert(fut[k] == future@[k]@);
                            }
                            assert(is_list == fut.contains(v.id@));
                        }
                    }
                    let mangled_id = self.register_var(v.id.as_str(), v.ty.clone(), is_list);
                    let mut mangled = copy_decl(v);
                    mangled.id = mangled_id;
                    let ghost n1 = self.name_map@;
                    proof {
                        lemma_same_var_text(v.par, v.mutable, v.ty, v.val, mangled.val, mangled.id@, entries(n1), c0);
                    }
                    let t = self.gen_var(&mangled);
                    proof {
                        lemma_prefix_trans(n0, n1, self.name_map@);
                    }
                    append(&mut res, t.as_str());
                },
                Items::Var(Var::Var(v)) => {
                    match &v.val {
                        Some(val) => {
                            let mangled = self.get_set_mangled(v.name.as_str());
                            let ghost n1 = self.name_map@;
                            match val {
                                Value::List(List::Decl(_, Some(values))) => {
                                    let ty = self.get_type(&self.type_of_var(v.name.as_str()));
                                    let flat = flatten(values);
                                    let mut vals_str = String::new();
                                    let mut k: usize = 0;
                                    while k < flat.len()
                                        invariant
                                            k <= flat@.len(),
                                            prefix_of(n1, self.name_map@),
                                            prefix_of(m0, self.rep.messages@),
                                            self.out == old(self).out,
                                        decreases flat.len() - k,
                                    {
                                        let ghost m2 = self.rep.messages@;
                                        let ghost n2 = self.name_map@;
                                        let x = self.gen_val(flat[k]);
                                        proof {
                                            lemma_prefix_trans(m0, m2, self.rep.messages@);
                                            lemma_prefix_trans(n1, n2, self.name_map@);
                                        }
                                        if k > 0 {
                                            append(&mut vals_str, ", ");
                                        }
                                        append(&mut vals_str, x.as_str());
                                        k = k + 1;
                                    }
                                    append(&mut res, "\t");
                                    append(&mut res, mangled.as_str());
                                    append(&mut res, " = (");
                                    append(&mut res, ty.as_str());
                                    append(&mut res, "[]){");
                                    append(&mut res, vals_str.as_str());
                                    append(&mut res, "};\n");
                                },
                                _ => {
                                    let x = self.gen_val(val);
                                    append(&mut res, "\t");
                                    append(&mut res, mangled.as_str());
                                    append(&mut res, " = ");
                                    append(&mut res, x.as_str());
                                    append(&mut res, ";\n");
                                },
                            }
                            proof {
                                lemma_prefix_trans(n0, n1, self.name_map@);
                            }
                        },
                        None => {},
                    }
                },
                Items::Expr(expr) => {
                    match expr {
                        Value::Char(_) => {},
                        Value::Block(_, _) => {},
                        Value::Expression(Expr::Identifier(name)) => {
                            id = self.get_set_mangled(name.as_str());
                        },
                        Value::Expression(e) => {
                            id = self.gen_expr(e);
                        },
                        Value::StringLiteral(t) => {
                            id = t.clone();
                        },
                        Value::Boolean(b) => {
                            id = if *b == BoolValue::True { owned("true") } else { owned("false") };
                        },
                        Value::Call(call_id, vals) => {
                            if str_eq(call_id.as_str(), "show") {
                                let t = self.gen_show(vals);
                                append(&mut res, t.as_str());
                            } else {
                                let args = self.gen_call(vals);
                                append(&mut res, "\tnn_");
                                append(&mut res, call_id.as_str());
                                append(&mut res, "(");
                                append(&mut res, args.as_str());
                                append(&mut res, ");\n");
                            }
                        },
                        Value::IfElse(ie) => {
                            let t = self.gen_if(ie);
                            append(&mut res, t.as_str());
                        },
                        Value::Null => {},
                        Value::Loop(l) => {
                            let t = self.gen_loop(l);
                            append(&mut res, t.as_str());
                        },
                        Value::List(List::Use(lid, indices, Some(rhs))) => {
                            let flat = flatten(indices);
                            let t = self.gen_list_use_assign(lid.as_str(), &flat, rhs);
                            append(&mut res, t.as_str());
                        },
                        Value::List(_) => {},
                    }
                },
                Items::Stop => {
                    append(&mut res, "\tbreak;\n");
                },
                Items::Skip => {
                    append(&mut res, "\tcontinue;\n");
                },
            }
            proof {
                lemma_prefix_trans(old(self).rep.messages@, m0, self.rep.messages@);
                lemma_prefix_trans(old(self).name_map@, n0, self.name_map@);
                if block_full(items@.take(i + 1), fut, m_start, counter) is Some {
                    match items@[i as int] {
                        Items::Expr(Value::Loop(l)) => {
                            let x = loop_text(l, entries(n0), c0).unwrap().0;
                            assert(res@ =~= r0 + x);
                        },
                        Items::Expr(Value::IfElse(ie)) => {
                            let x = if_text(ie, entries(n0), c0).unwrap().0;
                            assert(res@ =~= r0 + x);
                        },
                        _ => {
                            let x = stmt_text(items@[i as int], fut, entries(n0), c0).unwrap().0;
                            assert(res@ =~= r0 + x);
                        },
                    }
                }
            }
            i = i + 1;
        }
        proof {
            assert(items@.take(items@.len() as int) =~= items@);
            lemma_block_full(items@, fut, m_start, counter);
        }
        self.name_map.truncate(len);
        proof {
            assert(self.name_map@ =~= old(self).name_map@);
        }
        (res, id)
    }

    /// The C parameter list and argument list for the variables a branch reads.
    fn ref_lists(&self, refs: &Vec<(String, Type)>) -> (r: (String, String))
        ensures
            r.0@ == ref_params(ref_view(refs@)),
            r.1@ == ref_args(ref_view(refs@)),
    {
        let mut params = String::new();
        let mut args = String::new();
        let mut k: usize = 0;
        while k < refs.len()
            invariant
                k <= refs@.len(),
                params@ == ref_params(ref_view(refs@.subrange(0, k as int))),
                args@ == ref_args(ref_view(refs@.subrange(0, k as int))),
            decreases refs.len() - k,
        {
            if k > 0 {
                append(&mut params, ", ");
                append(&mut args, ", ");
            }
            append(&mut params, self.get_type(&refs[k].1).as_str());
            append(&mut params, " ");
            append(&mut params, refs[k].0.as_str());
            append(&mut args, refs[k].0.as_str());
            proof {
                let sub = ref_view(refs@.subrange(0, k + 1));
                let pre = ref_view(refs@.subrange(0, k as int));
                let ps = sub.map_values(|r: (Seq<char>, Type)| c_type(r.1) + " "@ + r.0);
                let as_ = sub.map_values(|r: (Seq<char>, Type)| r.0);
                assert(ps.drop_last() =~= pre.map_values(|r: (Seq<char>, Type)| c_type(r.1) + " "@ + r.0));
                assert(as_.drop_last() =~= pre.map_values(|r: (Seq<char>, Type)| r.0));
                assert(ps.last() == c_type(refs@[k as int].1) + " "@ + refs@[k as int].0@);
                assert(as_.last() == refs@[k as int].0@);
                if k == 0 {
                    assert(ps.len() == 1);
                    assert(params@ =~= ps[0]);
                    assert(args@ =~= as_[0]);
                } else {
                    assert(params@ =~= joined(ps.drop_last()) + ", "@ + ps.last());
                    assert(args@ =~= joined(as_.drop_last()) + ", "@ + as_.last());
                }
            }
            k = k + 1;
        }
        proof {
            assert(refs@.subrange(0, refs@.len() as int) =~= refs@);
        }
        (params, args)
    }

    /// An inline C helper for one branch of an `if` used as a value: a function of the
    /// variables the branch reads, queued as a call for the value to use.
    #[verifier::rlimit(80)]
    fn pregen_branch(&mut self, ret: &str, body: &Vec<Items>) -> (r: String)
        ensures
            final(self).name_map@ == old(self).name_map@,
            prefix_of(old(self).rep.messages@, final(self).rep.messages@),
            final(self).out == old(self).out,
            branch_text(ret@, body@, entries(old(self).name_map@), old(self).block_counter) matches Some(t) ==> r@
                == t && final(self).block_counter == wadd(old(self).block_counter, 1) && texts(final(self).inline@)
                == texts(old(self).inline@).push(
                branch_call(body@, entries(old(self).name_map@), old(self).block_counter),
            ),
    {
        let refs = self.collect_refs(body);
        let (params, args) = self.ref_lists(&refs);
        let id = concat2("__nn_inline_if", usize_to_string(self.block_counter).as_str());
        let call = concat3(id.as_str(), "(", args.as_str());
        let call = concat2(call.as_str(), ")");
        self.inline.push_back(call);
        let (b, _) = self.gen_block(body);
        let mut res = concat3("static inline ", ret, " ");
        append(&mut res, id.as_str());
        append(&mut res, "(");
        append(&mut res, params.as_str());
        append(&mut res, ") {\n");
        append(&mut res, b.as_str());
        append(&mut res, "\n}\n");
        proof {
            if branch_text(ret@, body@, entries(old(self).name_map@), old(self).block_counter) is Some {
                assert(res@ =~= branch_text(ret@, body@, entries(old(self).name_map@), old(self).block_counter).unwrap());
                assert(texts(self.inline@) =~= texts(old(self).inline@).push(call@));
            }
        }
        res
    }

    /// The inline C helpers that a block or an `if` used as a value needs, queued for the
    /// value to use.
    #[verifier::rlimit(100)]
    #[verifier::spinoff_prover]
    fn pregen_lambda(&mut self, val: &Value) -> (r: String)
        ensures
            final(self).name_map@ == old(self).name_map@,
            prefix_of(old(self).rep.messages@, final(self).rep.messages@),
            final(self).out == old(self).out,
            !(*val is Block || *val is IfElse) ==> r@.len() == 0,
            lambda_text(*val, entries(old(self).name_map@), old(self).block_counter) matches Some((t, c, q)) ==> r@
                == t && final(self).block_counter == c && texts(final(self).inline@) == texts(old(self).inline@) + q,
    {
        let mut res = String::new();
        let ghost m = entries(old(self).name_map@);
        let ghost c0 = old(self).block_counter;
        match val {
            Value::Block(ty, items) => {
                let id = concat2("__nn_inline_block", usize_to_string(self.block_counter).as_str());
                self.inline.push_back(id.clone());
                let t = self.get_type(ty);
                let (b, _) = self.gen_block(items);
                append(&mut res, "static inline ");
                append(&mut res, t.as_str());
                append(&mut res, " ");
                append(&mut res, id.as_str());
                append(&mut res, "() {\n");
                append(&mut res, b.as_str());
                append(&mut res, "\n}\n");
                proof {
                    if lambda_text(*val, m, c0) is Some {
                        assert(res@ =~= lambda_text(*val, m, c0).unwrap().0);
                        assert(texts(self.inline@) =~= texts(old(self).inline@) + lambda_text(*val, m, c0).unwrap().2);
                    }
                }
            },
            Value::IfElse(ie) => {
                let ret = match &ie.ret {
                    Some(t) => self.get_type(t),
                    None => self.get_type(&Type::Void),
                };
                let t = self.pregen_branch(ret.as_str(), &ie.body);
                append(&mut res, t.as_str());
                let ghost q1 = texts(self.inline@);
                match &ie.elif {
                    Some(elif) => {
                        let ghost m1 = self.rep.messages@;
                        let t2 = self.pregen_branch(ret.as_str(), &elif.body);
                        proof {
                            lemma_prefix_trans(old(self).rep.messages@, m1, self.rep.messages@);
                            if lambda_text(*val, m, c0) is Some {
                                assert(texts(self.inline@) =~= texts(old(self).inline@) + lambda_text(
                                    *val,
                                    m,
                                    c0,
                                ).unwrap().2);
                            }
                        }
                        append(&mut res, t2.as_str());
                    },
                    None => {
                        proof {
                            if lambda_text(*val, m, c0) is Some {
                                assert(texts(self.inline@) =~= texts(old(self).inline@) + lambda_text(
                                    *val,
                                    m,
                                    c0,
                                ).unwrap().2);
                            }
                        }
                    },
                }
            },
            _ => {},
        }
        res
    }

    /// The helpers for the blocks and `if`s that the statements declare or assign.
    #[verifier::rlimit(100)]
    #[verifier::spinoff_prover]
    fn pregen_items(&mut self, body: &Vec<Items>) -> (r: String)
        ensures
            final(self).name_map@ == old(self).name_map@,
            prefix_of(old(self).rep.messages@, final(self).rep.messages@),
            final(self).out == old(self).out,
            body_lambda_free(body@) ==> r@.len() == 0 && *final(self) == *old(self),
            helpers_text(body@, entries(old(self).name_map@), old(self).block_counter) matches Some((t, c, q)) ==> r@
                == t && final(self).block_counter == c && texts(final(self).inline@) == texts(old(self).inline@) + q,
    {
        let mut res = String::new();
        let ghost m = entries(old(self).name_map@);
        let ghost c0 = old(self).block_counter;
        let mut i: usize = 0;
        while i < body.len()
            invariant
                i <= body@.len(),
                self.name_map@ == old(self).name_map@,
                prefix_of(old(self).rep.messages@, self.rep.messages@),
                self.out == old(self).out,
                m == entries(old(self).name_map@),
                c0 == old(self).block_counter,
                (forall|k: int| 0 <= k < i ==> !lambda_at(#[trigger] body@[k])) ==> res@.len() == 0 && *self == *old(
                    self,
                ),
                helpers_text(body@.take(i as int), m, c0) matches Some((t, c, q)) ==> res@ == t && self.block_counter
                    == c && texts(self.inline@) == texts(old(self).inline@) + q,
            decreases body.len() - i,
        {
            proof {
                assert(body@.take(i + 1).drop_last() =~= body@.take(i as int));
                assert(body@.take(i + 1).last() == body@[i as int]);
            }
            let ghost r0 = res@;
            let v: Option<&Value> = match &body[i] {
                Items::Var(Var::Decl(d)) => match &d.val {
                    Some(x) => Some(x),
                    None => None,
                },
                Items::Var(Var::Var(x)) => match &x.val {
                    Some(y) => Some(y),
                    None => None,
                },
                _ => None,
            };
            match v {
                Some(val) => {
                    if matches!(val, Value::IfElse(_)) || matches!(val, Value::Block(_, _)) {
                        let ghost m0 = self.rep.messages@;
                        let t = self.pregen_lambda(val);
                        proof {
                            lemma_prefix_trans(old(self).rep.messages@, m0, self.rep.messages@);
                        }
                        append(&mut res, t.as_str());
                    }
                },
                None => {},
            }
            proof {
                if helpers_text(body@.take(i + 1), m, c0) is Some {
                    if lambda_of(body@[i as int]) is Some {
                        assert(res@ =~= helpers_text(body@.take(i + 1), m, c0).unwrap().0);
                        assert(texts(self.inline@) =~= texts(old(self).inline@) + helpers_text(
                            body@.take(i + 1),
                            m,
                            c0,
                        ).unwrap().2);
                    }
                }
            }
            i = i + 1;
        }
        proof {
            assert(body@.take(body@.len() as int) =~= body@);
        }
        res
    }

    /// The C definition of a function: its header, and `;` for an empty body.
    /// Parameters with a default value are left out (C has none).
    #[verifier::rlimit(100)]
    fn gen_fun(&mut self, fun: &Function) -> (r: String)
        ensures
            final(self).name_map@ == old(self).name_map@,
            prefix_of(old(self).rep.messages@, final(self).rep.messages@),
            final(self).out == old(self).out,
            fun.body@.len() == 0 ==> r@ == c_type(fun.ret) + " "@ + "nn_"@ + fun.id@ + "("@ + params_text(
                fun.params@,
                fun.params@.len() as int,
            ) + ")"@ + ";"@ + "\n\n"@,
            block_text(
                fun.body@,
                future_names(fun.body@),
                fun_names(*fun, entries(old(self).name_map@)),
                wadd(old(self).block_counter, 1),
            ) matches Some((t, _, _)) ==> (fun.body@.len() > 0 ==> r@ == c_type(fun.ret) + " "@ + "nn_"@ + fun.id@
                + "("@ + params_text(fun.params@, fun.params@.len() as int) + ")"@ + " {\n\n"@ + t + "\n}"@
                + "\n\n"@),
            fun_c(*fun, entries(old(self).name_map@), old(self).block_counter) matches Some((t, c)) ==> r@ == t
                && final(self).block_counter == c,
    {
        let ret = self.get_type(&fun.ret);
        let id = concat2("nn_", fun.id.as_str());
        let mut params = String::new();
        let n = fun.params.len();
        let mut i: usize = 0;
        while i < n
            invariant
                n == fun.params@.len(),
                i <= n,
                params@ == params_text(fun.params@, i as int),
            decreases n - i,
        {
            let p = &fun.params[i];
            let m = if p.mutable { "" } else { "const " };
            let t = self.get_type(&p.ty);
            if p.val.is_none() {
                if i == n - 1 {
                    append(&mut params, " ");
                    append(&mut params, m);
                    append(&mut params, t.as_str());
                    append(&mut params, " ");
                    append(&mut params, p.id.as_str());
                } else {
                    append(&mut params, m);
                    append(&mut params, t.as_str());
                    append(&mut params, " ");
                    append(&mut params, p.id.as_str());
                    append(&mut params, ",");
                }
            }
            proof {
                assert(params@ =~= params_text(fun.params@, i as int) + param_text(fun.params@[i as int], i == n - 1));
            }
            i = i + 1;
        }
        let ghost m0 = entries(self.name_map@);
        let ghost m_start = fun_names(*fun, m0);
        let ghost c_start = self.block_counter;
        let len0 = self.name_map.len();
        let body = if fun.body.len() == 0 {
            owned(";")
        } else {
            let mut bd = owned(" {\n\n");
            let mut j: usize = 0;
            while j < n
                invariant
                    n == fun.params@.len(),
                    j <= n,
                    len0 == old(self).name_map@.len(),
                    len0 <= self.name_map@.len(),
                    self.name_map@.subrange(0, len0 as int) == old(self).name_map@,
                    m0 == entries(old(self).name_map@),
                    entries(self.name_map@) == m0 + param_entries(fun.params@, j as int),
                    self.block_counter == old(self).block_counter,
                    self.out == old(self).out,
                    self.rep == old(self).rep,
                decreases n - j,
            {
                let p = &fun.params[j];
                if p.val.is_none() {
                    let entry = (p.id.clone(), p.id.clone(), p.ty.clone(), p.list);
                    let ghost before = self.name_map@;
                    self.name_map.push(entry);
                    proof {
                        lemma_entries_push(before, entry);
                        assert(self.name_map@.subrange(0, len0 as int) =~= before.subrange(0, len0 as int));
                    }
                }
                proof {
                    assert(entries(self.name_map@) =~= m0 + param_entries(fun.params@, j + 1));
                }
                j = j + 1;
            }
            let (b, _) = self.gen_block(&fun.body);
            self.name_map.truncate(len0);
            proof {
                assert(self.name_map@ =~= old(self).name_map@);
            }
            append(&mut bd, b.as_str());
            append(&mut bd, "\n}");
            proof {
                if block_text(fun.body@, future_names(fun.body@), m_start, wadd(c_start, 1)) is Some {
                    let t = block_text(fun.body@, future_names(fun.body@), m_start, wadd(c_start, 1)).unwrap().0;
                    assert(bd@ =~= " {\n\n"@ + t + "\n}"@);
                }
            }
            bd
        };
        let mut res = concat3(ret.as_str(), " ", id.as_str());
        append(&mut res, "(");
        append(&mut res, params.as_str());
        append(&mut res, ")");
        append(&mut res, body.as_str());
        append(&mut res, "\n\n");
        proof {
            if fun.body@.len() == 0 {
                assert(res@ =~= c_type(fun.ret) + " "@ + "nn_"@ + fun.id@ + "("@ + params_text(
                    fun.params@,
                    fun.params@.len() as int,
                ) + ")"@ + ";"@ + "\n\n"@);
            } else if block_text(fun.body@, future_names(fun.body@), m_start, wadd(c_start, 1)) is Some {
                let t = block_text(fun.body@, future_names(fun.body@), m_start, wadd(c_start, 1)).unwrap().0;
                assert(res@ =~= c_type(fun.ret) + " "@ + "nn_"@ + fun.id@ + "("@ + params_text(
                    fun.params@,
                    fun.params@.len() as int,
                ) + ")"@ + " {\n\n"@ + t + "\n}"@ + "\n\n"@);
            }
        }
        res
    }

    /// The C code for the imported functions (each with the helpers it needs, then its
    /// definition, or a declaration when it has no body) and the helpers that the
    /// program's own functions need.
    #[verifier::rlimit(100)]
    fn preprocess(&mut self, input: &Program, symbols: &SymbolTable) -> (r: String)
        ensures
            final(self).name_map@ == old(self).name_map@,
            prefix_of(old(self).rep.messages@, final(self).rep.messages@),
            final(self).out == old(self).out,
            protos(symbols.scopes@) matches Some(t) ==> (lambdas_none(input.items@) ==> r@ == t && *final(self)
                == *old(self)),
            protos_code(symbols.scopes@, entries(old(self).name_map@), old(self).block_counter) matches Some((t, c))
                ==> (lambdas_none(input.items@) ==> r@ == t && final(self).block_counter == c && final(self).inline
                == old(self).inline),
    {
        let mut res = String::new();
        let ghost me = entries(old(self).name_map@);
        let ghost c0 = old(self).block_counter;
        let mut k: usize = 0;
        while k < symbols.scopes.len()
            invariant
                k <= symbols.scopes@.len(),
                self.name_map@ == old(self).name_map@,
                prefix_of(old(self).rep.messages@, self.rep.messages@),
                self.out == old(self).out,
                protos(symbols.scopes@.take(k as int)) matches Some(t) ==> res@ == t && *self == *old(self),
                me == entries(old(self).name_map@),
                c0 == old(self).block_counter,
                protos_code(symbols.scopes@.take(k as int), me, c0) matches Some((t, c)) ==> res@ == t
                    && self.block_counter == c && self.inline == old(self).inline,
            decreases symbols.scopes.len() - k,
        {
            let scope = &symbols.scopes[k];
            let ghost r0 = res@;
            let ghost pk = protos_code(symbols.scopes@.take(k as int), me, c0);
            proof {
                assert(symbols.scopes@.take(k + 1).drop_last() =~= symbols.scopes@.take(k as int));
                assert(symbols.scopes@.take(k + 1).last() == symbols.scopes@[k as int]);
            }
            if matches!(scope.kind, ScopeKind::Global) {
                let mut j: usize = 0;
                while j < scope.symbols.len()
                    invariant
                        j <= scope.symbols@.len(),
                        self.name_map@ == old(self).name_map@,
                        prefix_of(old(self).rep.messages@, self.rep.messages@),
                        self.out == old(self).out,
                        *scope == symbols.scopes@[k as int],
                        k < symbols.scopes@.len(),
                        scope.kind == ScopeKind::Global,
                        scope_protos(scope.symbols@.take(j as int)) matches Some(x) ==> (protos(
                            symbols.scopes@.take(k as int),
                        ) is Some ==> res@ == r0 + x && *self == *old(self)),
                        protos(symbols.scopes@.take(k as int)) matches Some(t) ==> r0 == t,
                        me == entries(old(self).name_map@),
                        c0 == old(self).block_counter,
                        pk == protos_code(symbols.scopes@.take(k as int), me, c0),
                        pk matches Some((t, ck)) ==> (r0 == t && (scope_code(scope.symbols@.take(j as int), me, ck) matches Some(
                            (x, c2),
                        ) ==> res@ == r0 + x && self.block_counter == c2 && self.inline == old(self).inline)),
                    decreases scope.symbols.len() - j,
                {
                    let ghost r1 = res@;
                    proof {
                        assert(scope.symbols@.take(j + 1).drop_last() =~= scope.symbols@.take(j as int));
                        assert(scope.symbols@.take(j + 1).last() == scope.symbols@[j as int]);
                    }
                    let (id, sym) = (&scope.symbols[j].0, &scope.symbols[j].1);
                    match sym {
                        Symbol::Function(fun) => {
                            let ghost m0 = self.rep.messages@;
                            let t = self.gen_imported(id.as_str(), fun);
                            proof {
                                lemma_prefix_trans(old(self).rep.messages@, m0, self.rep.messages@);
                            }
                            append(&mut res, t.as_str());
                        },
                        Symbol::Variable(_) => {},
                    }
                    proof {
                        if protos(symbols.scopes@.take(k as int)) is Some && scope_protos(
                            scope.symbols@.take(j + 1),
                        ) is Some {
                            let x = scope_protos(scope.symbols@.take(j as int)).unwrap();
                            let y = scope_protos(scope.symbols@.take(j + 1)).unwrap();
                            assert(res@ =~= r0 + y);
                        }
                        if pk is Some && scope_code(scope.symbols@.take(j + 1), me, pk.unwrap().1) is Some {
                            let y = scope_code(scope.symbols@.take(j + 1), me, pk.unwrap().1).unwrap().0;
                            assert(res@ =~= r0 + y);
                        }
                    }
                    j = j + 1;
                }
                proof {
                    assert(scope.symbols@.take(scope.symbols@.len() as int) =~= scope.symbols@);
                }
            }
            proof {
                if protos_code(symbols.scopes@.take(k + 1), me, c0) is Some && !(scope.kind == ScopeKind::Global) {
                    assert(res@ == r0);
                }
            }
            k = k + 1;
        }
        proof {
            assert(symbols.scopes@.take(symbols.scopes@.len() as int) =~= symbols.scopes@);
        }
        let ghost pre = res@;
        let mut i: usize = 0;
        while i < input.items.len()
            invariant
                i <= input.items@.len(),
                self.name_map@ == old(self).name_map@,
                prefix_of(old(self).rep.messages@, self.rep.messages@),
                self.out == old(self).out,
                protos(symbols.scopes@) matches Some(t) ==> (lambdas_none(input.items@) ==> res@ == t && *self
                    == *old(self)),
                me == entries(old(self).name_map@),
                c0 == old(self).block_counter,
                protos_code(symbols.scopes@, me, c0) matches Some((t, c)) ==> (lambdas_none(input.items@) ==> res@
                    == t && self.block_counter == c && self.inline == old(self).inline),
            decreases input.items.len() - i,
        {
            match &input.items[i] {
                Global::Fun(FunKind::Custom(fun)) | Global::Fun(FunKind::Entry(fun)) => {
                    let ghost m0 = self.rep.messages@;
                    let t = self.pregen_items(&fun.body);
                    proof {
                        lemma_prefix_trans(old(self).rep.messages@, m0, self.rep.messages@);
                    }
                    append(&mut res, t.as_str());
                },
                _ => {},
            }
            i = i + 1;
        }
        res
    }

    /// The C code for one imported function: with a body, the helpers it needs and its
    /// definition (parameters named in C, `const` unless mutable); without one, its
    /// declaration.
    #[verifier::rlimit(100)]
    #[verifier::spinoff_prover]
    fn gen_imported(&mut self, id: &str, fun: &crate::symbol::FunctionSym) -> (r: String)
        ensures
            final(self).name_map@ == old(self).name_map@,
            prefix_of(old(self).rep.messages@, final(self).rep.messages@),
            final(self).out == old(self).out,
            fun.body is None ==> r@ == c_type(fun.ret) + " nn_"@ + id@ + "();\n"@ && *final(self) == *old(self),
            imported_c(id@, *fun, entries(old(self).name_map@), old(self).block_counter) matches Some((t, c)) ==> r@
                == t && final(self).block_counter == c && final(self).inline == old(self).inline,
    {
        let mut res = String::new();
        let ghost m_start = entries(self.name_map@);
        let ghost c_start = self.block_counter;
        let ghost ic = imported_c(id@, *fun, m_start, c_start);
        match &fun.body {
            Some(body) => {
                let params_start = self.name_map.len();
                let mut i: usize = 0;
                while i < fun.params.len()
                    invariant
                        i <= fun.params@.len(),
                        params_start == old(self).name_map@.len(),
                        prefix_of(old(self).name_map@, self.name_map@),
                        self.rep == old(self).rep,
                        self.out == old(self).out,
                        self.block_counter == old(self).block_counter,
                        self.inline == old(self).inline,
                        m_start == entries(old(self).name_map@),
                        c_start == old(self).block_counter,
                        entries(self.name_map@) == import_param_names(fun.params@, i as int, m_start, c_start),
                    decreases fun.params.len() - i,
                {
                    let ghost n0 = self.name_map@;
                    let _ = self.register_var(fun.params[i].0.as_str(), fun.params[i].1.clone(), false);
                    proof {
                        lemma_prefix_trans(old(self).name_map@, n0, self.name_map@);
                    }
                    i = i + 1;
                }
                let ghost n1 = self.name_map@;
                let ghost m1 = entries(n1);
                let ghost s1 = *self;
                let helpers = self.pregen_items(body);
                let ghost c1 = self.block_counter;
                let ghost inl1 = self.inline;
                proof {
                    if body_lambda_free(body@) {
                        assert(*self == s1);
                        assert(c1 == c_start);
                    }
                }
                append(&mut res, helpers.as_str());
                append(&mut res, self.get_type(&fun.ret).as_str());
                append(&mut res, " nn_");
                append(&mut res, id);
                append(&mut res, "(");
                let ghost head = res@;
                let n = fun.params.len();
                let mut i: usize = 0;
                while i < n
                    invariant
                        n == fun.params@.len(),
                        i <= n,
                        params_start == old(self).name_map@.len(),
                        prefix_of(old(self).name_map@, self.name_map@),
                        prefix_of(old(self).rep.messages@, self.rep.messages@),
                        self.out == old(self).out,
                        self.block_counter == c1,
                        self.inline == inl1,
                        res@ == head + import_params(fun.params@, i as int, m1, c1).0,
                        entries(self.name_map@) == import_params(fun.params@, i as int, m1, c1).1,
                    decreases n - i,
                {
                    let p = &fun.params[i];
                    let ghost n2 = self.name_map@;
                    let ghost r2 = res@;
                    let mangled = self.get_set_mangled(p.0.as_str());
                    proof {
                        lemma_prefix_trans(old(self).name_map@, n2, self.name_map@);
                    }
                    if !p.2 {
                        append(&mut res, "const ");
                    }
                    append(&mut res, self.get_type(&p.1).as_str());
                    append(&mut res, " ");
                    append(&mut res, mangled.as_str());
                    if i + 1 < n {
                        append(&mut res, ", ");
                    }
                    proof {
                        reveal_strlit("");
                        assert(res@ =~= head + import_params(fun.params@, i + 1, m1, c1).0);
                    }
                    i = i + 1;
                }
                let ghost before_close = res@;
                append(&mut res, ")\n");
                let ghost m3 = self.rep.messages@;
                let ghost e3 = entries(self.name_map@);
                let (bd, _) = self.gen_block(body);
                proof {
                    lemma_prefix_trans(old(self).rep.messages@, m3, self.rep.messages@);
                }
                append(&mut res, "{\n");
                append(&mut res, bd.as_str());
                append(&mut res, "\n}\n");
                self.name_map.truncate(params_start);
                proof {
                    assert(self.name_map@ =~= old(self).name_map@);
                    if ic is Some {
                        assert(body_lambda_free(body@));
                        assert(c1 == c_start);
                        assert(m1 == import_param_names(fun.params@, fun.params@.len() as int, m_start, c_start));
                        assert(e3 == import_params(fun.params@, fun.params@.len() as int, m1, c1).1);
                        assert(self.block_counter == wadd(c_start, 1));
                        assert(helpers@.len() == 0);
                        assert(res@ =~= ic.unwrap().0);
                    }
                }
            },
            None => {
                append(&mut res, self.get_type(&fun.ret).as_str());
                append(&mut res, " nn_");
                append(&mut res, id);
                append(&mut res, "();\n");
            },
        }
        res
    }

    /// The diagnostics recorded while generating code.
    /// The C text of one item of the program: a function, the entry point as `main`, or
    /// a global variable; nothing for the others.
    fn gen_item(&mut self, item: &Global) -> (r: String)
        ensures
            prefix_of(old(self).rep.messages@, final(self).rep.messages@),
            prefix_of(old(self).name_map@, final(self).name_map@),
            final(self).out == old(self).out,
            item_c(*item, entries(old(self).name_map@), old(self).block_counter) matches Some((t, m, c)) ==> r@ == t
                && entries(final(self).name_map@) == m && final(self).block_counter == c,
    {
        let ghost m_start = entries(self.name_map@);
        let ghost c_start = self.block_counter;
        match item {
            Global::Fun(FunKind::Custom(fun)) => self.gen_fun(fun),
            Global::Fun(FunKind::Entry(fun)) => {
                let (bd, _) = self.gen_block(&fun.body);
                let mut res = owned("int main()\n{\n");
                append(&mut res, bd.as_str());
                append(&mut res, "\n\treturn 0;\n}");
                proof {
                    if block_text(fun.body@, future_names(fun.body@), m_start, wadd(c_start, 1)) is Some {
                        let b = block_text(fun.body@, future_names(fun.body@), m_start, wadd(c_start, 1)).unwrap().0;
                        assert(res@ =~= "int main()\n{\n"@ + b + "\n\treturn 0;\n}"@);
                    }
                }
                res
            },
            Global::Var(var) => {
                let c_ty = self.get_type(&var.ty);
                let mut_kw = if var.mutable { "" } else { "const " };
                let mut line = concat3(mut_kw, c_ty.as_str(), " ");
                append(&mut line, var.id.as_str());
                let ghost head = line@;
                match &var.val {
                    Some(val) => {
                        let v = self.gen_val(val);
                        append(&mut line, " = ");
                        append(&mut line, v.as_str());
                    },
                    None => {},
                }
                append(&mut line, ";\n");
                line
            },
            _ => String::new(),
        }
    }

    pub fn reporter(&self) -> (r: &Reporter)
        ensures
            *r == self.rep,
    {
        &self.rep
    }
}

impl Backend for CGenerator {
    /// Generates the C code of the program after the headers: the imported functions
    /// and helpers, then each function, the entry point as `main`, and each global
    /// variable. Without an entry point a warning is reported and an empty `main` ends
    /// the code.
    #[verifier::rlimit(100)]
    fn process(&mut self, prog: &Program, symbols: &SymbolTable)
        ensures
            prefix_of(old(self).out@ + c_headers(), final(self).out@),
            prefix_of(old(self).rep.messages@, final(self).rep.messages@),
            !has_entry(prog.items@) ==> {
                &&& final(self).rep.messages@.len() > 0
                &&& final(self).rep.messages@.last().kind is EntryNotFound
                &&& final(self).rep.messages@.last().severity == Severity::Warning
                &&& prog.items@.len() == 0 && protos(symbols.scopes@) is Some ==> final(self).rep.messages@.len()
                    == old(self).rep.messages@.len() + 1
                &&& final(self).out@.len() >= default_main().len()
                &&& final(self).out@.subrange(
                    final(self).out@.len() - default_main().len(),
                    final(self).out@.len() as int,
                ) == default_main()
            },
            protos_code(symbols.scopes@, entries(old(self).name_map@), old(self).block_counter) matches Some((p, c))
                ==> (lambdas_none(prog.items@) ==> (items_c(
                prog.items@,
                entries(old(self).name_map@) + global_entries(prog.items@),
                c,
            ) matches Some((t, _, _)) ==> final(self).out@ == old(self).out@ + c_headers() + p + t + (
            if has_entry(prog.items@) {
                Seq::<char>::empty()
            } else {
                default_main()
            }))),
    {
        append(&mut self.out, "#include <stdio.h>\n");
        append(&mut self.out, "#include <stdlib.h>\n");
        append(&mut self.out, "#include <math.h>\n");
        append(&mut self.out, "#include <stdbool.h>\n\n");
        let ghost start = self.out@;
        assert(start =~= old(self).out@ + c_headers());
        let ghost quiet = protos(symbols.scopes@) is Some && lambdas_none(prog.items@);
        let ghost pc = protos_code(symbols.scopes@, entries(old(self).name_map@), old(self).block_counter);
        let ghost plain = pc is Some && lambdas_none(prog.items@);
        let ghost before_pre = *self;
        let pre = self.preprocess(prog, symbols);
        append(&mut self.out, pre.as_str());
        let ghost body_start = start + pre@;
        proof {
            if plain {
                assert(self.out@ =~= body_start);
            }
        }
        let mut i: usize = 0;
        while i < prog.items.len()
            invariant
                i <= prog.items@.len(),
                prefix_of(start, self.out@),
                prefix_of(old(self).rep.messages@, self.rep.messages@),
                quiet == (protos(symbols.scopes@) is Some && lambdas_none(prog.items@)),
                quiet && prog.items@.len() == 0 ==> self.rep == old(self).rep,
                pc == protos_code(symbols.scopes@, entries(old(self).name_map@), old(self).block_counter),
                plain == (pc is Some && lambdas_none(prog.items@)),
                start == old(self).out@ + c_headers(),
                plain ==> body_start == start + pc.unwrap().0,
                prefix_of(start, body_start),
                plain ==> self.out@ == body_start && self.block_counter == pc.unwrap().1 && entries(
                    self.name_map@,
                ) == entries(old(self).name_map@) + global_entries(prog.items@.take(i as int)),
            decreases prog.items.len() - i,
        {
            let ghost n0 = self.name_map@;
            match &prog.items[i] {
                Global::Var(var) => {
                    let e = (var.id.clone(), var.id.clone(), var.ty.clone(), false);
                    self.name_map.push(e);
                    proof {
                        lemma_entries_push(n0, e);
                    }
                },
                _ => {},
            }
            proof {
                assert(prog.items@.take(i + 1).drop_last() =~= prog.items@.take(i as int));
                if plain {
                    assert(entries(self.name_map@) =~= entries(old(self).name_map@) + global_entries(
                        prog.items@.take(i + 1),
                    ));
                }
            }
            i = i + 1;
        }
        proof {
            assert(prog.items@.take(prog.items@.len() as int) =~= prog.items@);
        }
        let ghost m_init = entries(old(self).name_map@) + global_entries(prog.items@);
        let mut is_main = false;
        let mut i: usize = 0;
        while i < prog.items.len()
            invariant
                i <= prog.items@.len(),
                prefix_of(start, self.out@),
                prefix_of(old(self).rep.messages@, self.rep.messages@),
                is_main == exists|j: int| 0 <= j < i && (#[trigger] prog.items@[j]) matches Global::Fun(FunKind::Entry(_)),
                quiet == (protos(symbols.scopes@) is Some && lambdas_none(prog.items@)),
                quiet && prog.items@.len() == 0 ==> self.rep == old(self).rep,
                pc == protos_code(symbols.scopes@, entries(old(self).name_map@), old(self).block_counter),
                plain == (pc is Some && lambdas_none(prog.items@)),
                start == old(self).out@ + c_headers(),
                plain ==> body_start == start + pc.unwrap().0,
                m_init == entries(old(self).name_map@) + global_entries(prog.items@),
                plain ==> (items_c(prog.items@.take(i as int), m_init, pc.unwrap().1) matches Some(
                    (t, mm, cc),
                ) ==> self.out@ == body_start + t && entries(self.name_map@) == mm && self.block_counter == cc),
            decreases prog.items.len() - i,
        {
            let ghost m0 = self.rep.messages@;
            let ghost o0 = self.out@;
            let ghost n0 = self.name_map@;
            let ghost c0 = self.block_counter;
            proof {
                assert(prog.items@.take(i + 1).drop_last() =~= prog.items@.take(i as int));
                assert(prog.items@.take(i + 1).last() == prog.items@[i as int]);
            }
            if matches!(&prog.items[i], Global::Fun(FunKind::Entry(_))) {
                is_main = true;
            }
            let t = self.gen_item(&prog.items[i]);
            append(&mut self.out, t.as_str());
            proof {
                lemma_prefix_trans(old(self).rep.messages@, m0, self.rep.messages@);
                lemma_prefix_trans(start, o0, self.out@);
                if plain && items_c(prog.items@.take(i + 1), m_init, pc.unwrap().1) is Some {
                    let prev = items_c(prog.items@.take(i as int), m_init, pc.unwrap().1).unwrap().0;
                    let now = items_c(prog.items@.take(i + 1), m_init, pc.unwrap().1).unwrap().0;
                    assert(self.out@ =~= body_start + now);
                }
            }
            i = i + 1;
        }
        proof {
            assert(prog.items@.take(prog.items@.len() as int) =~= prog.items@);
            if is_main {
                assert(has_entry(prog.items@));
            }
        }
        if !is_main {
            let hint = concat3(
                "Write one and only one function ",
                bright_blue_bold("main").as_str(),
                ". Not 0, not 2, not N, just 1!\n\tFor now I'll generate it for you... but be careful next time!",
            );
            let e = GraviError::throw(Kind::EntryNotFound).severity(Severity::Warning).hint(hint.as_str());
            self.rep.add(e);
            let ghost o0 = self.out@;
            append(&mut self.out, "int main()\n{\n");
            append(&mut self.out, "\treturn 0;\n");
            append(&mut self.out, "}\n");
            proof {
                assert(self.out@ =~= o0 + default_main());
                assert(self.out@.subrange(o0.len() as int, self.out@.len() as int) =~= default_main());
                lemma_prefix_trans(start, o0, self.out@);
            }
        }
    }

    /// The code generated so far.
    fn output(&self) -> (r: &String)
        ensures
            *r == self.out,
    {
        &self.out
    }
}

} // verus!
