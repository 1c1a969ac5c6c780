//! The parser: from tokens to the syntax tree.
//!
//! Tokens are kept as a stack whose top (the last element) is the next token. Every
//! parsing function only pops tokens, and pushes back only a token it has just popped, so
//! what is left is always a prefix of what it was given.
//!
//! Where a loop would repeat without consuming any token, so that it could never end, the
//! parser stops that loop instead.
use vstd::prelude::*;

use crate::ast::{
    BinaryOp, BoolValue, Class, ClassBody, Expr, FunKind, Function, Global, IfElse, Items, List, Loop,
    Parallelism, Program, Range, Space, Subspace, Unary, Value, Var, VarDecl, Variable,
};
use crate::error::{GraviError, Kind, Reporter};
use crate::lexer::{prefix_of, Keyword, Numeric, Operator, Punctuation, Token, TokenKind, Type, ValueKind};
use crate::paint::bright_blue_bold;
use crate::text::{concat3, owned, str_eq};

verus! {

/// What is left is what was given, less some tokens taken from the top.
pub open spec fn taken_from(after: Seq<Token>, before: Seq<Token>) -> bool {
    prefix_of(after, before)
}

/// The kind of the next token.
pub open spec fn next_kind(tokens: Seq<Token>) -> Option<TokenKind> {
    if tokens.len() == 0 { None } else { Some(tokens.last().kind) }
}

/// Whether the next token is the given punctuation.
pub open spec fn next_is(tokens: Seq<Token>, p: Punctuation) -> bool {
    next_kind(tokens) == Some(TokenKind::Punctuation(p))
}

/// Whether a token can begin a factor: a name, a literal, `(`, `!` or `-`.
pub open spec fn starts_factor(k: TokenKind) -> bool {
    match k {
        TokenKind::Identifier(_) | TokenKind::Value(_) | TokenKind::Char(_) => true,
        TokenKind::Punctuation(Punctuation::LParen) => true,
        TokenKind::Operator(Operator::LNot) | TokenKind::Operator(Operator::Sub) => true,
        _ => false,
    }
}

/// Whether a factor is just its first token: a literal, or a name that no `(` or `[`
/// follows (`rest` is what stands after that token).
pub open spec fn lone_factor(k: TokenKind, rest: Seq<Token>) -> bool {
    match k {
        TokenKind::Value(_) | TokenKind::Char(_) => true,
        TokenKind::Identifier(_) => !next_is(rest, Punctuation::LParen) && !next_is(rest, Punctuation::LBracket),
        _ => false,
    }
}

/// The outer form of the factor that begins with a token of kind `k`, `rest` standing
/// after it: the literal or name itself, a call or an indexing of the name, a
/// grouping, a negation; and nothing where no factor can begin.
pub open spec fn factor_form(k: TokenKind, rest: Seq<Token>, e: Expr) -> bool {
    match k {
        TokenKind::Value(ValueKind::String(v)) => e matches Expr::StringLiteral(s) && s@ == v@,
        TokenKind::Value(ValueKind::Numeric(v)) => e matches Expr::Literal(s) && s@ == v@,
        TokenKind::Char(c) => e == Expr::CharLiteral(c),
        TokenKind::Identifier(id) => if next_is(rest, Punctuation::LParen) {
            e matches Expr::Call(s, _) && s@ == id@
        } else if next_is(rest, Punctuation::LBracket) {
            e matches Expr::Index(s, _) && s@ == id@
        } else {
            e matches Expr::Identifier(s) && s@ == id@
        },
        TokenKind::Punctuation(Punctuation::LParen) => e is Grouped,
        TokenKind::Operator(Operator::LNot) => e matches Expr::Unary(u) && u.op == Operator::LNot,
        TokenKind::Operator(Operator::Sub) => e matches Expr::Unary(u) && u.op == Operator::Sub,
        _ => e is Null,
    }
}

/// The outer form of the value that begins with a token of kind `k`, `rest` standing
/// after it: a boolean or character literal, a quoted string, a call of a name, an
/// expression, a block, an `if`, a list literal; and nothing where no value begins.
pub open spec fn value_form(k: TokenKind, rest: Seq<Token>, v: Value) -> bool {
    match k {
        TokenKind::Boolean(b) => v == Value::Boolean(if b { BoolValue::True } else { BoolValue::False }),
        TokenKind::Char(c) => v == Value::Char(c),
        TokenKind::Punctuation(Punctuation::Quote) => match next_kind(rest) {
            Some(TokenKind::Identifier(w)) => v matches Value::StringLiteral(s) && s@ == w@,
            Some(TokenKind::Value(ValueKind::String(w))) => v matches Value::StringLiteral(s) && s@ == w@,
            _ => v is Null,
        },
        TokenKind::Identifier(w) => if rest.len() == 0 {
            v is Null
        } else if next_is(rest, Punctuation::LParen) {
            v matches Value::Call(s, _) && s@ == w@
        } else {
            v is Expression
        },
        TokenKind::Value(ValueKind::String(w)) => if rest.len() == 0 {
            v is Null
        } else if next_is(rest, Punctuation::LParen) {
            v matches Value::Call(s, _) && s@ == w@
        } else {
            v is Expression
        },
        TokenKind::Value(ValueKind::Numeric(w)) => if rest.len() == 0 {
            v is Null
        } else if next_is(rest, Punctuation::LParen) {
            v matches Value::Call(s, _) && s@ == w@
        } else {
            v is Expression
        },
        TokenKind::Punctuation(Punctuation::Colon) | TokenKind::Punctuation(Punctuation::RangeInclusive)
        | TokenKind::Punctuation(Punctuation::LParen) => v is Expression,
        TokenKind::Operator(Operator::LNot) | TokenKind::Operator(Operator::Sub) => v is Expression,
        TokenKind::Punctuation(Punctuation::LBrace) => v matches Value::Block(t, _) && t == Type::Void,
        TokenKind::Keyword(Keyword::If) => v is IfElse,
        TokenKind::Punctuation(Punctuation::LBracket) => v matches Value::List(l) && l is Decl,
        _ => v is Null,
    }
}

/// Whether a token can begin no value: on it the parser stops, takes nothing and
/// reports why, unless it is a `;`.
pub open spec fn starts_no_value(k: TokenKind) -> bool {
    match k {
        TokenKind::Boolean(_) | TokenKind::Char(_) | TokenKind::Identifier(_) | TokenKind::Value(_) => false,
        TokenKind::Punctuation(Punctuation::Quote) | TokenKind::Punctuation(Punctuation::Colon)
        | TokenKind::Punctuation(Punctuation::RangeInclusive) | TokenKind::Punctuation(Punctuation::LParen)
        | TokenKind::Punctuation(Punctuation::RParen) | TokenKind::Punctuation(Punctuation::LBrace)
        | TokenKind::Punctuation(Punctuation::LBracket) => false,
        TokenKind::Operator(Operator::LNot) | TokenKind::Operator(Operator::Sub) => false,
        TokenKind::Keyword(Keyword::If) => false,
        _ => true,
    }
}

/// The kind of the token `i` places below the top (the next one is `0`).
pub open spec fn ahead(tokens: Seq<Token>, i: int) -> TokenKind {
    tokens[tokens.len() - 1 - i].kind
}

/// The declaration a token stream begins with where it has one of the plain forms
/// `name =`, `name: type =` and `name: type[] =`: its name, its type and whether it is
/// a list.
pub open spec fn plain_decl(tokens: Seq<Token>) -> Option<(Seq<char>, Type, bool)> {
    let assign = TokenKind::Punctuation(Punctuation::Assignment);
    if tokens.len() >= 2 && ahead(tokens, 0) is Identifier && ahead(tokens, 1) == assign {
        Some((ahead(tokens, 0)->Identifier_0@, Type::Void, false))
    } else if tokens.len() >= 4 && ahead(tokens, 0) is Identifier && ahead(tokens, 1) == TokenKind::Punctuation(
        Punctuation::Colon,
    ) && ahead(tokens, 2) is Type && ahead(tokens, 3) == assign {
        Some((ahead(tokens, 0)->Identifier_0@, ahead(tokens, 2)->Type_0, false))
    } else if tokens.len() >= 6 && ahead(tokens, 0) is Identifier && ahead(tokens, 1) == TokenKind::Punctuation(
        Punctuation::Colon,
    ) && ahead(tokens, 2) is Type && ahead(tokens, 3) == TokenKind::Punctuation(Punctuation::LBracket) && ahead(
        tokens,
        4,
    ) == TokenKind::Punctuation(Punctuation::RBracket) && ahead(tokens, 5) == assign {
        Some((ahead(tokens, 0)->Identifier_0@, ahead(tokens, 2)->Type_0, true))
    } else {
        None
    }
}

/// Whether an operator is one of arithmetic: `+`, `-`, `*`, `/`, `%`, `^`.
pub open spec fn arith_op(o: Operator) -> bool {
    o == Operator::Add || o == Operator::Sub || o == Operator::Mul || o == Operator::Div || o == Operator::Mod || o
        == Operator::Pow
}

/// Whether an operator is one of logic or comparison: `||`, `&&`, `|`, `&`, `==`, `!=`,
/// `>`, `<`, `>=`, `<=`.
pub open spec fn logic_op(o: Operator) -> bool {
    o == Operator::LOr || o == Operator::LAnd || o == Operator::BWOr || o == Operator::BWAnd || o == Operator::Eq
        || o == Operator::NEq || o == Operator::G || o == Operator::L || o == Operator::GE || o == Operator::LE
}

/// Whether every arithmetic node of an expression tree, at any depth outside the
/// arguments of calls, holds an arithmetic operator and every boolean node one of logic
/// or comparison.
pub open spec fn ops_ok(e: Expr) -> bool
    decreases e,
{
    match e {
        Expr::Binary(b) => arith_op(b.op) && ops_ok(*b.left) && ops_ok(*b.right),
        Expr::Boolean(b) => logic_op(b.op) && ops_ok(*b.left) && ops_ok(*b.right),
        Expr::Index(_, i) => ops_ok(*i),
        Expr::Range(r) => ops_ok(*r.start) && ops_ok(*r.end) && match r.step {
            Some(st) => ops_ok(*st),
            None => true,
        },
        Expr::Unary(u) => ops_ok(*u.right),
        Expr::Grouped(g) => ops_ok(*g),
        Expr::Cast(c) => ops_ok(*c.what),
        _ => true,
    }
}

/// The parameter a token stream (a stack, next token last) begins with where it has
/// the form `name: type` followed by `)` or `,`: its name, its type and whether a `,`
/// follows (taken with the parameter; a `)` is left).
pub open spec fn param_decl(tokens: Seq<Token>) -> Option<(Seq<char>, Type, bool)> {
    if tokens.len() >= 4 && ahead(tokens, 0) is Identifier && ahead(tokens, 1) == TokenKind::Punctuation(
        Punctuation::Colon,
    ) && ahead(tokens, 2) is Type && (ahead(tokens, 3) == TokenKind::Punctuation(Punctuation::RParen) || ahead(
        tokens,
        3,
    ) == TokenKind::Punctuation(Punctuation::Comma)) {
        Some(
            (
                ahead(tokens, 0)->Identifier_0@,
                ahead(tokens, 2)->Type_0,
                ahead(tokens, 3) == TokenKind::Punctuation(Punctuation::Comma),
            ),
        )
    } else {
        None
    }
}

/// How many tokens a parameter of the form of `param_decl` takes.
pub open spec fn param_len(comma: bool) -> int {
    if comma {
        4
    } else {
        3
    }
}

/// The parameters a token stream (a stack, after the `(`) lists where each has the
/// form `name: type`, after an optional `mut`, separated by `,` up to `)`: each one's
/// name, type and mutability, and the tokens after the `)`.
pub open spec fn params_from(tokens: Seq<Token>) -> Option<(Seq<(Seq<char>, Type, bool)>, Seq<Token>)>
    decreases tokens.len(),
{
    if tokens.len() == 0 {
        None
    } else if next_is(tokens, Punctuation::RParen) {
        Some((Seq::empty(), tokens.drop_last()))
    } else {
        let mutable = tokens.last().kind == TokenKind::Keyword(Keyword::Mut);
        let s = if mutable {
            tokens.drop_last()
        } else {
            tokens
        };
        match param_decl(s) {
            Some((n, ty, comma)) => match params_from(s.take(s.len() - param_len(comma))) {
                Some((ps, left)) => Some((seq![(n, ty, mutable)] + ps, left)),
                None => None,
            },
            None => None,
        }
    }
}

/// Whether a parsed parameter is the one described: its name, type and mutability, a
/// sequential plain value with no initial value.
pub open spec fn param_is(d: VarDecl, p: (Seq<char>, Type, bool)) -> bool {
    &&& d.id@ == p.0
    &&& d.ty == p.1
    &&& d.mutable == p.2
    &&& d.par == Parallelism::Sequential
    &&& d.val is None
    &&& !d.list
}

/// Whether parsed parameters are those described, in order.
pub open spec fn params_are(r: Seq<VarDecl>, ps: Seq<(Seq<char>, Type, bool)>) -> bool {
    r.len() == ps.len() && forall|k: int| 0 <= k < ps.len() ==> param_is(#[trigger] r[k], ps[k])
}

/// The head of a function where the tokens after its name (a stack) open with
/// `(params)` and an optional `: type`: its parameters, its return type (`none` where not
/// given) and the tokens after the head.
pub open spec fn fun_head(tokens: Seq<Token>) -> Option<(Seq<(Seq<char>, Type, bool)>, Type, Seq<Token>)> {
    if next_is(tokens, Punctuation::LParen) {
        match params_from(tokens.drop_last()) {
            Some((ps, r1)) => {
                let typed = r1.len() >= 2 && next_is(r1, Punctuation::Colon) && ahead(r1, 1) is Type;
                let ret = if typed {
                    ahead(r1, 1)->Type_0
                } else {
                    Type::Void
                };
                let r2 = if typed {
                    r1.take(r1.len() - 2)
                } else {
                    r1
                };
                Some((ps, ret, r2))
            },
            None => None,
        }
    } else {
        None
    }
}

/// The signature of a function declared without a body where the tokens after its name
/// (a stack) have the form of `fun_head` and then `;`: its parameters, its return type
/// and the tokens after the `;`.
pub open spec fn fun_sig(tokens: Seq<Token>) -> Option<(Seq<(Seq<char>, Type, bool)>, Type, Seq<Token>)> {
    match fun_head(tokens) {
        Some((ps, ret, r2)) => if next_is(r2, Punctuation::SemiColon) {
            Some((ps, ret, r2.drop_last()))
        } else {
            None
        },
        None => None,
    }
}

/// Whether a token stream, in reading order, opens with a declaration of one of the
/// plain forms: `var` and a plain variable declaration, the same after `mut`, `fun` and a
/// name, `ext fun` and a name other than `main`, or `type` and a name.
pub open spec fn opens_with_decl(tokens: Seq<Token>) -> bool {
    let rest = tokens.subrange(1, tokens.len() as int).reverse();
    tokens.len() > 0 && match tokens[0].kind {
        TokenKind::Keyword(Keyword::Var) => plain_decl(rest) is Some,
        TokenKind::Keyword(Keyword::Mut) => tokens.len() > 1 && tokens[1].kind == TokenKind::Keyword(Keyword::Var)
            && plain_decl(tokens.subrange(2, tokens.len() as int).reverse()) is Some,
        TokenKind::Keyword(Keyword::Ext) => tokens.len() > 2 && tokens[1].kind == TokenKind::Keyword(Keyword::Fun)
            && tokens[2].kind is Identifier && tokens[2].kind->Identifier_0@ != "main"@,
        TokenKind::Keyword(Keyword::Fun) | TokenKind::Keyword(Keyword::Type) => rest.len() > 0 && ahead(rest, 0)
            is Identifier,
        _ => false,
    }
}

/// Whether a token stream (in reading order) is one external function declared without
/// a body and nothing else: `ext fun`, a name other than `main`, and a signature of the
/// form of `fun_sig` that ends the stream.
pub open spec fn lone_ext(tokens: Seq<Token>) -> bool {
    &&& tokens.len() > 2
    &&& tokens[0].kind == TokenKind::Keyword(Keyword::Ext)
    &&& tokens[1].kind == TokenKind::Keyword(Keyword::Fun)
    &&& tokens[2].kind is Identifier
    &&& tokens[2].kind->Identifier_0@ != "main"@
    &&& fun_sig(tokens.subrange(3, tokens.len() as int).reverse()) matches Some((_, _, rest)) && rest.len() == 0
}

/// How many tokens a program's opening declaration takes before its item is made:
/// two for `mut var`, one otherwise.
pub open spec fn opener_len(tokens: Seq<Token>) -> int {
    if tokens.len() > 0 && tokens[0].kind == TokenKind::Keyword(Keyword::Mut) {
        2
    } else {
        1
    }
}

/// Whether `g` is the global item that the declaration a token stream opens with makes:
/// a sequential variable with the declared name, type and a value, mutable just where
/// `mut` opens the stream; a private function with the given name, and the parameters
/// and return type of its head where that has the form of `fun_head` (with no body where
/// `;` follows); a private external function with the given name, likewise; or a
/// private type with the given name.
pub open spec fn first_global(tokens: Seq<Token>, g: Global) -> bool {
    let rest = tokens.subrange(1, tokens.len() as int).reverse();
    let rest2 = tokens.subrange(2, tokens.len() as int).reverse();
    match tokens[0].kind {
        TokenKind::Keyword(Keyword::Mut) => match g {
            Global::Var(v) => {
                &&& v.id@ == plain_decl(rest2).unwrap().0
                &&& v.ty == plain_decl(rest2).unwrap().1
                &&& v.list == plain_decl(rest2).unwrap().2
                &&& v.par == Parallelism::Sequential
                &&& v.mutable
                &&& v.val is Some
            },
            _ => false,
        },
        TokenKind::Keyword(Keyword::Ext) => match g {
            Global::Fun(FunKind::Extern(f)) => {
                &&& f.id@ == tokens[2].kind->Identifier_0@
                &&& !f.public
                &&& fun_sig(tokens.subrange(3, tokens.len() as int).reverse()) matches Some((ps, ret, _)) ==> params_are(
                    f.params@,
                    ps,
                ) && f.ret == ret && f.body@.len() == 0
            },
            _ => false,
        },
        TokenKind::Keyword(Keyword::Var) => match g {
            Global::Var(v) => {
                &&& v.id@ == plain_decl(rest).unwrap().0
                &&& v.ty == plain_decl(rest).unwrap().1
                &&& v.list == plain_decl(rest).unwrap().2
                &&& v.par == Parallelism::Sequential
                &&& !v.mutable
                &&& v.val is Some
            },
            _ => false,
        },
        TokenKind::Keyword(Keyword::Fun) => match g {
            Global::Fun(FunKind::Entry(f)) => {
                &&& f.id@ == ahead(rest, 0)->Identifier_0@
                &&& !f.public
                &&& fun_sig(rest2) matches Some((ps, ret, _)) ==> params_are(f.params@, ps) && f.ret == ret
                    && f.body@.len() == 0
                &&& fun_head(rest2) matches Some((ps, ret, r2)) ==> (next_is(r2, Punctuation::LBrace) ==> params_are(
                    f.params@,
                    ps,
                ) && f.ret == ret)
            },
            Global::Fun(FunKind::Custom(f)) => {
                &&& f.id@ == ahead(rest, 0)->Identifier_0@
                &&& !f.public
                &&& fun_sig(rest2) matches Some((ps, ret, _)) ==> params_are(f.params@, ps) && f.ret == ret
                    && f.body@.len() == 0
                &&& fun_head(rest2) matches Some((ps, ret, r2)) ==> (next_is(r2, Punctuation::LBrace) ==> params_are(
                    f.params@,
                    ps,
                ) && f.ret == ret)
            },
            _ => false,
        },
        TokenKind::Keyword(Keyword::Type) => match g {
            Global::Class(c) => c.name@ == ahead(rest, 0)->Identifier_0@ && !c.public,
            _ => false,
        },
        _ => false,
    }
}

/// Whether a block's tokens (a stack, next token last) open with a statement of a plain
/// form: `var` and a plain declaration, `stop`, or `skip`.
pub open spec fn opens_with_stmt(tokens: Seq<Token>) -> bool {
    tokens.len() > 0 && match tokens.last().kind {
        TokenKind::Keyword(Keyword::Var) => plain_decl(tokens.drop_last()) is Some,
        TokenKind::Keyword(Keyword::Stop) | TokenKind::Keyword(Keyword::Skip) => true,
        _ => false,
    }
}

/// Whether `it` is the statement that a block's tokens open with: a sequential,
/// immutable variable with the declared name, type and a value; `stop`; or `skip`.
pub open spec fn first_stmt(tokens: Seq<Token>, it: Items) -> bool {
    let rest = tokens.drop_last();
    match tokens.last().kind {
        TokenKind::Keyword(Keyword::Var) => match it {
            Items::Var(Var::Decl(v)) => {
                &&& v.id@ == plain_decl(rest).unwrap().0
                &&& v.ty == plain_decl(rest).unwrap().1
                &&& v.list == plain_decl(rest).unwrap().2
                &&& v.par == Parallelism::Sequential
                &&& !v.mutable
                &&& v.val is Some
            },
            _ => false,
        },
        TokenKind::Keyword(Keyword::Stop) => it is Stop,
        TokenKind::Keyword(Keyword::Skip) => it is Skip,
        _ => false,
    }
}

/// Whether an operator joins operands at the binary precedence level `lvl`, from the
/// loosest: `||`, `&&`, `|`, `&`, `==` and `!=`, then the comparisons.
pub open spec fn at_level(o: Operator, lvl: usize) -> bool {
    ||| lvl == 0 && o == Operator::LOr
    ||| lvl == 1 && o == Operator::LAnd
    ||| lvl == 2 && o == Operator::BWOr
    ||| lvl == 3 && o == Operator::BWAnd
    ||| lvl == 4 && (o == Operator::Eq || o == Operator::NEq)
    ||| lvl == 5 && (o == Operator::G || o == Operator::L || o == Operator::GE || o == Operator::LE)
}

/// Whether an operator joins terms: `*`, `/`, `%` and `**`.
pub open spec fn term_op(o: Operator) -> bool {
    o == Operator::Mul || o == Operator::Div || o == Operator::Mod || o == Operator::Pow
}

/// The operator on top of the tokens, if the next token is one.
pub open spec fn next_op(tokens: Seq<Token>) -> Option<Operator> {
    match next_kind(tokens) {
        Some(TokenKind::Operator(o)) => Some(o),
        _ => None,
    }
}

/// The expression at binary precedence level `lvl` and above that the tokens (a stack,
/// next token last) begin with, and the tokens left after it: operands joined from the
/// left by the operators of the level, the level after it giving the operands; past the
/// last level, a sum. `None` where it holds a call or an indexing, which this does not
/// describe.
pub open spec fn binary_tree(tokens: Seq<Token>, lvl: usize) -> Option<(Expr, Seq<Token>)>
    decreases tokens.len(), (if lvl > 6 { 10nat } else { (16 - lvl) as nat }),
{
    if lvl > 5 {
        expr_tree(tokens)
    } else {
        match binary_tree(tokens, (lvl + 1) as usize) {
            None => None,
            Some((l, rest)) => if rest.len() <= tokens.len() {
                binary_more(l, rest, lvl)
            } else {
                None
            },
        }
    }
}

/// The expression that the operand `l` begins at level `lvl`, with the tokens after it.
pub open spec fn binary_more(l: Expr, tokens: Seq<Token>, lvl: usize) -> Option<(Expr, Seq<Token>)>
    decreases tokens.len(), 0nat,
{
    match next_op(tokens) {
        Some(o) => if lvl <= 5 && at_level(o, lvl) {
            match binary_tree(tokens.drop_last(), (lvl + 1) as usize) {
                None => None,
                Some((r, rest)) => if rest.len() < tokens.len() {
                    binary_more(Expr::Boolean(BinaryOp { left: Box::new(l), op: o, right: Box::new(r) }), rest, lvl)
                } else {
                    None
                },
            }
        } else {
            Some((l, tokens))
        },
        None => Some((l, tokens)),
    }
}

/// The sum (or difference, or range) that the tokens begin with, and the tokens after it.
pub open spec fn expr_tree(tokens: Seq<Token>) -> Option<(Expr, Seq<Token>)>
    decreases tokens.len(), 9nat,
{
    match term_tree(tokens) {
        None => None,
        Some((l, rest)) => if rest.len() <= tokens.len() {
            expr_more(l, rest)
        } else {
            None
        },
    }
}

/// The sum that the term `l` begins, with the tokens after it: more terms added or
/// subtracted from the left, or a range that starts with it after `:` or `..=`.
pub open spec fn expr_more(l: Expr, tokens: Seq<Token>) -> Option<(Expr, Seq<Token>)>
    decreases tokens.len(), 0nat,
{
    if tokens.len() == 0 {
        Some((l, tokens))
    } else {
        match tokens.last().kind {
            TokenKind::Operator(Operator::Add) | TokenKind::Operator(Operator::Sub) => {
                let o = tokens.last().kind->Operator_0;
                match term_tree(tokens.drop_last()) {
                    None => None,
                    Some((r, rest)) => if rest.len() < tokens.len() {
                        expr_more(Expr::Binary(BinaryOp { left: Box::new(l), op: o, right: Box::new(r) }), rest)
                    } else {
                        None
                    },
                }
            },
            TokenKind::Punctuation(Punctuation::Colon) => range_tree(l, false, tokens.drop_last()),
            TokenKind::Punctuation(Punctuation::RangeInclusive) => range_tree(l, true, tokens.drop_last()),
            _ => Some((l, tokens)),
        }
    }
}

/// The range that starts with `start`, its first `:` (or `..=`) taken: `start:end`,
/// `start:step:end` or `start:step..=end`; a lone second bound is the end, inclusive as
/// the first separator says.
pub open spec fn range_tree(start: Expr, inclusive: bool, tokens: Seq<Token>) -> Option<(Expr, Seq<Token>)>
    decreases tokens.len(), 8nat,
{
    match term_tree(tokens) {
        None => None,
        Some((sec, rest)) => if rest.len() > tokens.len() {
            None
        } else if next_is(rest, Punctuation::Colon) || next_is(rest, Punctuation::RangeInclusive) {
            match term_tree(rest.drop_last()) {
                None => None,
                Some((thi, rest2)) => Some(
                    (
                        Expr::Range(
                            Range {
                                start: Box::new(start),
                                step: Some(Box::new(sec)),
                                end: Box::new(thi),
                                inclusive: next_is(rest, Punctuation::RangeInclusive),
                            },
                        ),
                        rest2,
                    ),
                ),
            }
        } else {
            Some((Expr::Range(Range { start: Box::new(start), step: None, end: Box::new(sec), inclusive }), rest))
        },
    }
}

/// The term that the tokens begin with, and the tokens after it.
pub open spec fn term_tree(tokens: Seq<Token>) -> Option<(Expr, Seq<Token>)>
    decreases tokens.len(), 7nat,
{
    match factor_tree(tokens) {
        None => None,
        Some((l, rest)) => if rest.len() <= tokens.len() {
            term_more(l, rest)
        } else {
            None
        },
    }
}

/// The term that the factor `l` begins, with the tokens after it: more factors joined
/// from the left by `*`, `/`, `%` or `**`.
pub open spec fn term_more(l: Expr, tokens: Seq<Token>) -> Option<(Expr, Seq<Token>)>
    decreases tokens.len(), 0nat,
{
    match next_op(tokens) {
        Some(o) => if term_op(o) {
            match factor_tree(tokens.drop_last()) {
                None => None,
                Some((r, rest)) => if rest.len() < tokens.len() {
                    term_more(Expr::Binary(BinaryOp { left: Box::new(l), op: o, right: Box::new(r) }), rest)
                } else {
                    None
                },
            }
        } else {
            Some((l, tokens))
        },
        None => Some((l, tokens)),
    }
}

/// The factor that the tokens begin with, and the tokens after it: a name, a literal, a
/// parenthesised expression (its `)` or `;` taken), a negation; nothing at the end, and
/// nothing, its token taken, where no factor can begin. `None` for a call or an indexing.
pub open spec fn factor_tree(tokens: Seq<Token>) -> Option<(Expr, Seq<Token>)>
    decreases tokens.len(), 6nat,
{
    if tokens.len() == 0 {
        Some((Expr::Null, tokens))
    } else {
        let rest = tokens.drop_last();
        match tokens.last().kind {
            TokenKind::Identifier(id) => if next_is(rest, Punctuation::LParen) || next_is(rest, Punctuation::LBracket) {
                None
            } else {
                Some((Expr::Identifier(id), rest))
            },
            TokenKind::Value(ValueKind::String(v)) => Some((Expr::StringLiteral(v), rest)),
            TokenKind::Value(ValueKind::Numeric(v)) => Some((Expr::Literal(v), rest)),
            TokenKind::Char(c) => Some((Expr::CharLiteral(c), rest)),
            TokenKind::Punctuation(Punctuation::LParen) => match binary_tree(rest, 0) {
                None => None,
                Some((inner, r2)) => Some(
                    (
                        Expr::Grouped(Box::new(inner)),
                        if next_is(r2, Punctuation::RParen) || next_is(r2, Punctuation::SemiColon) {
                            r2.drop_last()
                        } else {
                            r2
                        },
                    ),
                ),
            },
            TokenKind::Operator(Operator::LNot) => match factor_tree(rest) {
                None => None,
                Some((e, r2)) => Some((Expr::Unary(Unary { op: Operator::LNot, right: Box::new(e) }), r2)),
            },
            TokenKind::Operator(Operator::Sub) => match factor_tree(rest) {
                None => None,
                Some((e, r2)) => Some((Expr::Unary(Unary { op: Operator::Sub, right: Box::new(e) }), r2)),
            },
            _ => Some((Expr::Null, rest)),
        }
    }
}

/// The literal a numeric token stands for.
pub open spec fn literal_of(t: Token) -> Expr {
    Expr::Literal(t.kind->Value_0->Numeric_0)
}

/// Whether a token is a numeric literal.
pub open spec fn numeric_token(t: Token) -> bool {
    t.kind is Value && t.kind->Value_0 is Numeric
}

/// A product binds tighter than a sum: the tokens `a + b * c` read as `a + (b * c)`.
pub proof fn law_product_binds_tighter(a: Token, plus: Token, b: Token, times: Token, c: Token)
    requires
        numeric_token(a),
        numeric_token(b),
        numeric_token(c),
        plus.kind == TokenKind::Operator(Operator::Add),
        times.kind == TokenKind::Operator(Operator::Mul),
    ensures
        expr_tree(seq![c, times, b, plus, a]) == Some(
            (
                Expr::Binary(
                    BinaryOp {
                        left: Box::new(literal_of(a)),
                        op: Operator::Add,
                        right: Box::new(
                            Expr::Binary(
                                BinaryOp { left: Box::new(literal_of(b)), op: Operator::Mul, right: Box::new(literal_of(c)) },
                            ),
                        ),
                    },
                ),
                Seq::<Token>::empty(),
            ),
        ),
{
    let s5 = seq![c, times, b, plus, a];
    let s4 = s5.drop_last();
    let s3 = s4.drop_last();
    let s2 = s3.drop_last();
    let s1 = s2.drop_last();
    let s0 = s1.drop_last();
    assert(s4 =~= seq![c, times, b, plus]);
    assert(s3 =~= seq![c, times, b]);
    assert(s2 =~= seq![c, times]);
    assert(s1 =~= seq![c]);
    assert(s0 =~= Seq::<Token>::empty());
    let bc = Expr::Binary(BinaryOp { left: Box::new(literal_of(b)), op: Operator::Mul, right: Box::new(literal_of(c)) });
    assert(factor_tree(s5) == Some((literal_of(a), s4)));
    assert(term_more(literal_of(a), s4) == Some((literal_of(a), s4)));
    assert(term_tree(s5) == Some((literal_of(a), s4)));
    assert(factor_tree(s1) == Some((literal_of(c), s0)));
    assert(term_more(bc, s0) == Some((bc, s0)));
    assert(term_more(literal_of(b), s2) == Some((bc, s0)));
    assert(factor_tree(s3) == Some((literal_of(b), s2)));
    assert(term_tree(s3) == Some((bc, s0)));
    let sum = Expr::Binary(BinaryOp { left: Box::new(literal_of(a)), op: Operator::Add, right: Box::new(bc) });
    assert(expr_more(sum, s0) == Some((sum, s0)));
    assert(expr_more(literal_of(a), s4) == Some((sum, s0)));
}

/// Differences associate to the left: the tokens `a - b - c` read as `(a - b) - c`.
pub proof fn law_difference_associates_left(a: Token, m1: Token, b: Token, m2: Token, c: Token)
    requires
        numeric_token(a),
        numeric_token(b),
        numeric_token(c),
        m1.kind == TokenKind::Operator(Operator::Sub),
        m2.kind == TokenKind::Operator(Operator::Sub),
    ensures
        expr_tree(seq![c, m2, b, m1, a]) == Some(
            (
                Expr::Binary(
                    BinaryOp {
                        left: Box::new(
                            Expr::Binary(
                                BinaryOp { left: Box::new(literal_of(a)), op: Operator::Sub, right: Box::new(literal_of(b)) },
                            ),
                        ),
                        op: Operator::Sub,
                        right: Box::new(literal_of(c)),
                    },
                ),
                Seq::<Token>::empty(),
            ),
        ),
{
    let s5 = seq![c, m2, b, m1, a];
    let s4 = s5.drop_last();
    let s3 = s4.drop_last();
    let s2 = s3.drop_last();
    let s1 = s2.drop_last();
    let s0 = s1.drop_last();
    assert(s4 =~= seq![c, m2, b, m1]);
    assert(s3 =~= seq![c, m2, b]);
    assert(s2 =~= seq![c, m2]);
    assert(s1 =~= seq![c]);
    assert(s0 =~= Seq::<Token>::empty());
    assert(factor_tree(s5) == Some((literal_of(a), s4)));
    assert(term_more(literal_of(a), s4) == Some((literal_of(a), s4)));
    assert(term_tree(s5) == Some((literal_of(a), s4)));
    assert(factor_tree(s3) == Some((literal_of(b), s2)));
    assert(term_more(literal_of(b), s2) == Some((literal_of(b), s2)));
    assert(term_tree(s3) == Some((literal_of(b), s2)));
    assert(factor_tree(s1) == Some((literal_of(c), s0)));
    assert(term_more(literal_of(c), s0) == Some((literal_of(c), s0)));
    assert(term_tree(s1) == Some((literal_of(c), s0)));
    let ab = Expr::Binary(BinaryOp { left: Box::new(literal_of(a)), op: Operator::Sub, right: Box::new(literal_of(b)) });
    let abc = Expr::Binary(BinaryOp { left: Box::new(ab), op: Operator::Sub, right: Box::new(literal_of(c)) });
    assert(expr_more(abc, s0) == Some((abc, s0)));
    assert(expr_more(ab, s2) == Some((abc, s0)));
    assert(expr_more(literal_of(a), s4) == Some((abc, s0)));
}

/// Whether a token is a name or a numeric literal: an operand on its own.
pub open spec fn simple_operand(t: Token) -> bool {
    t.kind is Identifier || numeric_token(t)
}

/// The expression a name or a numeric literal stands for.
pub open spec fn operand_of(t: Token) -> Expr {
    if t.kind is Identifier {
        Expr::Identifier(t.kind->Identifier_0)
    } else {
        literal_of(t)
    }
}

/// How loosely a logic or comparison operator binds, from the loosest: `||`, then `&&`,
/// then `|`, then `&`, then `==` and `!=`, then `<`, `<=`, `>` and `>=`.
pub open spec fn looseness(o: Operator) -> int {
    if o == Operator::LOr {
        0
    } else if o == Operator::LAnd {
        1
    } else if o == Operator::BWOr {
        2
    } else if o == Operator::BWAnd {
        3
    } else if o == Operator::Eq || o == Operator::NEq {
        4
    } else {
        5
    }
}

/// A lone operand, followed by nothing or by a logic or comparison operator that binds
/// more loosely than level `lvl`, is read at that level as itself.
proof fn lemma_operand_alone(rest: Seq<Token>, a: Token, lvl: usize)
    requires
        simple_operand(a),
        lvl <= 6,
        rest.len() == 0 || (rest.last().kind is Operator && logic_op(rest.last().kind->Operator_0) && looseness(
            rest.last().kind->Operator_0,
        ) < lvl),
    ensures
        binary_tree(rest.push(a), lvl) == Some((operand_of(a), rest)),
    decreases 6 - lvl,
{
    let s = rest.push(a);
    assert(s.drop_last() =~= rest);
    assert(s.last() == a);
    if lvl > 5 {
        assert(factor_tree(s) == Some((operand_of(a), rest)));
        assert(term_more(operand_of(a), rest) == Some((operand_of(a), rest)));
        assert(term_tree(s) == Some((operand_of(a), rest)));
        assert(expr_more(operand_of(a), rest) == Some((operand_of(a), rest)));
        assert(expr_tree(s) == Some((operand_of(a), rest)));
    } else {
        lemma_operand_alone(rest, a, (lvl + 1) as usize);
        assert(binary_tree(s, (lvl + 1) as usize) == Some((operand_of(a), rest)));
        if rest.len() > 0 {
            let o = rest.last().kind->Operator_0;
            assert(next_op(rest) == Some(o));
            assert(!at_level(o, lvl));
        }
        assert(binary_more(operand_of(a), rest, lvl) == Some((operand_of(a), rest)));
    }
}

/// What a level reads with no tokens left after it, every looser level reads the same.
proof fn lemma_read_whole(toks: Seq<Token>, e: Expr, lvl: usize, hi: usize)
    requires
        lvl <= hi <= 6,
        binary_tree(toks, hi) == Some((e, Seq::<Token>::empty())),
    ensures
        binary_tree(toks, lvl) == Some((e, Seq::<Token>::empty())),
    decreases hi - lvl,
{
    if lvl < hi {
        lemma_read_whole(toks, e, (lvl + 1) as usize, hi);
        assert(binary_more(e, Seq::<Token>::empty(), lvl) == Some((e, Seq::<Token>::empty())));
    }
}

/// Of two logic or comparison operators, the one that binds more loosely joins last:
/// the tokens `a o1 b o2 c`, with `o1` looser than `o2`, read as `a o1 (b o2 c)`. So
/// `a || b && c` reads as `a || (b && c)`, and `a && b == c` as `a && (b == c)`.
pub proof fn law_looser_operator_joins_last(a: Token, t1: Token, b: Token, t2: Token, c: Token)
    requires
        simple_operand(a),
        simple_operand(b),
        simple_operand(c),
        t1.kind is Operator && logic_op(t1.kind->Operator_0),
        t2.kind is Operator && logic_op(t2.kind->Operator_0),
        looseness(t1.kind->Operator_0) < looseness(t2.kind->Operator_0),
    ensures
        binary_tree(seq![c, t2, b, t1, a], 0) == Some(
            (
                Expr::Boolean(
                    BinaryOp {
                        left: Box::new(operand_of(a)),
                        op: t1.kind->Operator_0,
                        right: Box::new(
                            Expr::Boolean(
                                BinaryOp {
                                    left: Box::new(operand_of(b)),
                                    op: t2.kind->Operator_0,
                                    right: Box::new(operand_of(c)),
                                },
                            ),
                        ),
                    },
                ),
                Seq::<Token>::empty(),
            ),
        ),
{
    let o1 = t1.kind->Operator_0;
    let o2 = t2.kind->Operator_0;
    let i = looseness(o1) as usize;
    let j = looseness(o2) as usize;
    assert(at_level(o1, i));
    assert(at_level(o2, j));
    let e0 = Seq::<Token>::empty();
    let s1 = seq![c];
    let s2 = seq![c, t2];
    let s3 = seq![c, t2, b];
    let s4 = seq![c, t2, b, t1];
    let s5 = seq![c, t2, b, t1, a];
    assert(s1 =~= e0.push(c));
    assert(s3 =~= s2.push(b));
    assert(s5 =~= s4.push(a));
    assert(s2.drop_last() =~= s1);
    assert(s4.drop_last() =~= s3);
    lemma_operand_alone(e0, c, (j + 1) as usize);
    lemma_operand_alone(s2, b, (j + 1) as usize);
    let bc = Expr::Boolean(BinaryOp { left: Box::new(operand_of(b)), op: o2, right: Box::new(operand_of(c)) });
    assert(binary_more(bc, e0, j) == Some((bc, e0)));
    assert(binary_more(operand_of(b), s2, j) == Some((bc, e0)));
    assert(binary_tree(s3, j) == Some((bc, e0)));
    lemma_read_whole(s3, bc, (i + 1) as usize, j);
    lemma_operand_alone(s4, a, (i + 1) as usize);
    let abc = Expr::Boolean(BinaryOp { left: Box::new(operand_of(a)), op: o1, right: Box::new(bc) });
    assert(binary_more(abc, e0, i) == Some((abc, e0)));
    assert(binary_more(operand_of(a), s4, i) == Some((abc, e0)));
    assert(binary_tree(s5, i) == Some((abc, e0)));
    lemma_read_whole(s5, abc, 0, i);
}

/// Logic or comparison operators that bind alike join from the left: the tokens
/// `a o1 b o2 c`, with `o1` and `o2` equally loose, read as `(a o1 b) o2 c`.
pub proof fn law_alike_operators_join_left(a: Token, t1: Token, b: Token, t2: Token, c: Token)
    requires
        simple_operand(a),
        simple_operand(b),
        simple_operand(c),
        t1.kind is Operator && logic_op(t1.kind->Operator_0),
        t2.kind is Operator && logic_op(t2.kind->Operator_0),
        looseness(t1.kind->Operator_0) == looseness(t2.kind->Operator_0),
    ensures
        binary_tree(seq![c, t2, b, t1, a], 0) == Some(
            (
                Expr::Boolean(
                    BinaryOp {
                        left: Box::new(
                            Expr::Boolean(
                                BinaryOp {
                                    left: Box::new(operand_of(a)),
                                    op: t1.kind->Operator_0,
                                    right: Box::new(operand_of(b)),
                                },
                            ),
                        ),
                        op: t2.kind->Operator_0,
                        right: Box::new(operand_of(c)),
                    },
                ),
                Seq::<Token>::empty(),
            ),
        ),
{
    let o1 = t1.kind->Operator_0;
    let o2 = t2.kind->Operator_0;
    let i = looseness(o1) as usize;
    assert(at_level(o1, i));
    assert(at_level(o2, i));
    let e0 = Seq::<Token>::empty();
    let s1 = seq![c];
    let s2 = seq![c, t2];
    let s3 = seq![c, t2, b];
    let s4 = seq![c, t2, b, t1];
    let s5 = seq![c, t2, b, t1, a];
    assert(s1 =~= e0.push(c));
    assert(s3 =~= s2.push(b));
    assert(s5 =~= s4.push(a));
    assert(s2.drop_last() =~= s1);
    assert(s4.drop_last() =~= s3);
    lemma_operand_alone(e0, c, (i + 1) as usize);
    lemma_operand_alone(s2, b, (i + 1) as usize);
    lemma_operand_alone(s4, a, (i + 1) as usize);
    let ab = Expr::Boolean(BinaryOp { left: Box::new(operand_of(a)), op: o1, right: Box::new(operand_of(b)) });
    let abc = Expr::Boolean(BinaryOp { left: Box::new(ab), op: o2, right: Box::new(operand_of(c)) });
    assert(binary_more(abc, e0, i) == Some((abc, e0)));
    assert(binary_more(ab, s2, i) == Some((abc, e0)));
    assert(binary_more(operand_of(a), s4, i) == Some((abc, e0)));
    assert(binary_tree(s5, i) == Some((abc, e0)));
    lemma_read_whole(s5, abc, 0, i);
}

/// What the last level reads, before a logic or comparison operator looser than level
/// `lvl`, every level from `lvl` on reads the same.
proof fn lemma_passes_levels(toks: Seq<Token>, e: Expr, rest: Seq<Token>, lvl: usize)
    requires
        lvl <= 6,
        binary_tree(toks, 6) == Some((e, rest)),
        rest.len() <= toks.len(),
        rest.len() > 0 && rest.last().kind is Operator && logic_op(rest.last().kind->Operator_0) && looseness(
            rest.last().kind->Operator_0,
        ) < lvl,
    ensures
        binary_tree(toks, lvl) == Some((e, rest)),
    decreases 6 - lvl,
{
    if lvl < 6 {
        lemma_passes_levels(toks, e, rest, (lvl + 1) as usize);
        let o = rest.last().kind->Operator_0;
        assert(next_op(rest) == Some(o));
        assert(!at_level(o, lvl));
        assert(binary_more(e, rest, lvl) == Some((e, rest)));
    }
}

/// A sum or difference binds tighter than any logic or comparison operator: the tokens
/// `a + b < c` read as `(a + b) < c`.
pub proof fn law_sum_binds_tighter_than_logic(a: Token, t1: Token, b: Token, t2: Token, c: Token)
    requires
        simple_operand(a),
        simple_operand(b),
        simple_operand(c),
        t1.kind == TokenKind::Operator(Operator::Add) || t1.kind == TokenKind::Operator(Operator::Sub),
        t2.kind is Operator && logic_op(t2.kind->Operator_0),
    ensures
        binary_tree(seq![c, t2, b, t1, a], 0) == Some(
            (
                Expr::Boolean(
                    BinaryOp {
                        left: Box::new(
                            Expr::Binary(
                                BinaryOp {
                                    left: Box::new(operand_of(a)),
                                    op: t1.kind->Operator_0,
                                    right: Box::new(operand_of(b)),
                                },
                            ),
                        ),
                        op: t2.kind->Operator_0,
                        right: Box::new(operand_of(c)),
                    },
                ),
                Seq::<Token>::empty(),
            ),
        ),
{
    let o1 = t1.kind->Operator_0;
    let o2 = t2.kind->Operator_0;
    let j = looseness(o2) as usize;
    assert(at_level(o2, j));
    let e0 = Seq::<Token>::empty();
    let s1 = seq![c];
    let s2 = seq![c, t2];
    let s3 = seq![c, t2, b];
    let s4 = seq![c, t2, b, t1];
    let s5 = seq![c, t2, b, t1, a];
    assert(s1 =~= e0.push(c));
    assert(s3 =~= s2.push(b));
    assert(s5 =~= s4.push(a));
    assert(s2.drop_last() =~= s1);
    assert(s4.drop_last() =~= s3);
    assert(s5.drop_last() =~= s4);
    assert(s3.drop_last() =~= s2);
    assert(factor_tree(s5) == Some((operand_of(a), s4)));
    assert(term_more(operand_of(a), s4) == Some((operand_of(a), s4)));
    assert(term_tree(s5) == Some((operand_of(a), s4)));
    assert(factor_tree(s3) == Some((operand_of(b), s2)));
    assert(next_op(s2) == Some(o2));
    assert(term_more(operand_of(b), s2) == Some((operand_of(b), s2)));
    assert(term_tree(s3) == Some((operand_of(b), s2)));
    let ab = Expr::Binary(BinaryOp { left: Box::new(operand_of(a)), op: o1, right: Box::new(operand_of(b)) });
    assert(expr_more(ab, s2) == Some((ab, s2)));
    assert(expr_more(operand_of(a), s4) == Some((ab, s2)));
    assert(expr_tree(s5) == Some((ab, s2)));
    assert(binary_tree(s5, 6) == Some((ab, s2)));
    lemma_passes_levels(s5, ab, s2, (j + 1) as usize);
    lemma_operand_alone(e0, c, (j + 1) as usize);
    let abc = Expr::Boolean(BinaryOp { left: Box::new(ab), op: o2, right: Box::new(operand_of(c)) });
    assert(binary_more(abc, e0, j) == Some((abc, e0)));
    assert(binary_more(ab, s2, j) == Some((abc, e0)));
    assert(binary_tree(s5, j) == Some((abc, e0)));
    lemma_read_whole(s5, abc, 0, j);
}

/// A product, quotient, remainder or power binds tighter than a sum or difference on
/// either side: `a + b * c` reads as `a + (b * c)` and `a * b + c` as `(a * b) + c`.
pub proof fn law_term_binds_tighter_than_sum(a: Token, t1: Token, b: Token, t2: Token, c: Token)
    requires
        simple_operand(a),
        simple_operand(b),
        simple_operand(c),
    ensures
        (t1.kind == TokenKind::Operator(Operator::Add) || t1.kind == TokenKind::Operator(Operator::Sub)) && (t2.kind
            == TokenKind::Operator(Operator::Mul) || t2.kind == TokenKind::Operator(Operator::Div) || t2.kind
            == TokenKind::Operator(Operator::Mod) || t2.kind == TokenKind::Operator(Operator::Pow)) ==> expr_tree(
            seq![c, t2, b, t1, a],
        ) == Some(
            (
                Expr::Binary(
                    BinaryOp {
                        left: Box::new(operand_of(a)),
                        op: t1.kind->Operator_0,
                        right: Box::new(
                            Expr::Binary(
                                BinaryOp {
                                    left: Box::new(operand_of(b)),
                                    op: t2.kind->Operator_0,
                                    right: Box::new(operand_of(c)),
                                },
                            ),
                        ),
                    },
                ),
                Seq::<Token>::empty(),
            ),
        ),
        (t2.kind == TokenKind::Operator(Operator::Add) || t2.kind == TokenKind::Operator(Operator::Sub)) && (t1.kind
            == TokenKind::Operator(Operator::Mul) || t1.kind == TokenKind::Operator(Operator::Div) || t1.kind
            == TokenKind::Operator(Operator::Mod) || t1.kind == TokenKind::Operator(Operator::Pow)) ==> expr_tree(
            seq![c, t2, b, t1, a],
        ) == Some(
            (
                Expr::Binary(
                    BinaryOp {
                        left: Box::new(
                            Expr::Binary(
                                BinaryOp {
                                    left: Box::new(operand_of(a)),
                                    op: t1.kind->Operator_0,
                                    right: Box::new(operand_of(b)),
                                },
                            ),
                        ),
                        op: t2.kind->Operator_0,
                        right: Box::new(operand_of(c)),
                    },
                ),
                Seq::<Token>::empty(),
            ),
        ),
{
    let e0 = Seq::<Token>::empty();
    let s1 = seq![c];
    let s2 = seq![c, t2];
    let s3 = seq![c, t2, b];
    let s4 = seq![c, t2, b, t1];
    let s5 = seq![c, t2, b, t1, a];
    assert(s5.drop_last() =~= s4);
    assert(s4.drop_last() =~= s3);
    assert(s3.drop_last() =~= s2);
    assert(s2.drop_last() =~= s1);
    assert(s1.drop_last() =~= e0);
    let pa = operand_of(a);
    let pb = operand_of(b);
    let pc = operand_of(c);
    assert(factor_tree(s1) == Some((pc, e0)));
    if (t1.kind == TokenKind::Operator(Operator::Add) || t1.kind == TokenKind::Operator(Operator::Sub)) && (t2.kind
        == TokenKind::Operator(Operator::Mul) || t2.kind == TokenKind::Operator(Operator::Div) || t2.kind
        == TokenKind::Operator(Operator::Mod) || t2.kind == TokenKind::Operator(Operator::Pow)) {
        let o1 = t1.kind->Operator_0;
        let o2 = t2.kind->Operator_0;
        let bc = Expr::Binary(BinaryOp { left: Box::new(pb), op: o2, right: Box::new(pc) });
        assert(factor_tree(s5) == Some((pa, s4)));
        assert(factor_tree(s3) == Some((pb, s2)));
        assert(term_more(pa, s4) == Some((pa, s4)));
        assert(term_tree(s5) == Some((pa, s4)));
        assert(term_more(bc, e0) == Some((bc, e0)));
        assert(term_more(pb, s2) == Some((bc, e0)));
        assert(term_tree(s3) == Some((bc, e0)));
        let abc = Expr::Binary(BinaryOp { left: Box::new(pa), op: o1, right: Box::new(bc) });
        assert(expr_more(abc, e0) == Some((abc, e0)));
        assert(expr_more(pa, s4) == Some((abc, e0)));
    }
    if (t2.kind == TokenKind::Operator(Operator::Add) || t2.kind == TokenKind::Operator(Operator::Sub)) && (t1.kind
        == TokenKind::Operator(Operator::Mul) || t1.kind == TokenKind::Operator(Operator::Div) || t1.kind
        == TokenKind::Operator(Operator::Mod) || t1.kind == TokenKind::Operator(Operator::Pow)) {
        let o1 = t1.kind->Operator_0;
        let o2 = t2.kind->Operator_0;
        let ab = Expr::Binary(BinaryOp { left: Box::new(pa), op: o1, right: Box::new(pb) });
        assert(factor_tree(s5) == Some((pa, s4)));
        assert(factor_tree(s3) == Some((pb, s2)));
        assert(term_more(ab, s2) == Some((ab, s2)));
        assert(term_more(pa, s4) == Some((ab, s2)));
        assert(term_tree(s5) == Some((ab, s2)));
        assert(term_more(pc, e0) == Some((pc, e0)));
        assert(term_tree(s1) == Some((pc, e0)));
        let abc = Expr::Binary(BinaryOp { left: Box::new(ab), op: o2, right: Box::new(pc) });
        assert(expr_more(abc, e0) == Some((abc, e0)));
        assert(expr_more(ab, s2) == Some((abc, e0)));
    }
}

/// `a || b && c` reads as `a || (b && c)`: `&&` binds tighter than `||`.
pub proof fn law_and_binds_tighter_than_or(a: Token, or: Token, b: Token, and: Token, c: Token)
    requires
        simple_operand(a),
        simple_operand(b),
        simple_operand(c),
        or.kind == TokenKind::Operator(Operator::LOr),
        and.kind == TokenKind::Operator(Operator::LAnd),
    ensures
        binary_tree(seq![c, and, b, or, a], 0) == Some(
            (
                Expr::Boolean(
                    BinaryOp {
                        left: Box::new(operand_of(a)),
                        op: Operator::LOr,
                        right: Box::new(
                            Expr::Boolean(
                                BinaryOp { left: Box::new(operand_of(b)), op: Operator::LAnd, right: Box::new(operand_of(c)) },
                            ),
                        ),
                    },
                ),
                Seq::<Token>::empty(),
            ),
        ),
{
    law_looser_operator_joins_last(a, or, b, and, c);
}

/// Whether a value that begins with a token of kind `k` (with `rest` after it) is read
/// as an expression: it begins with `:`, `..=`, `(`, `!` or `-`, or with a name or
/// literal that more tokens follow, none of them a `(` at once.
pub open spec fn value_is_expr(k: TokenKind, rest: Seq<Token>) -> bool {
    match k {
        TokenKind::Punctuation(Punctuation::Colon) | TokenKind::Punctuation(Punctuation::RangeInclusive)
        | TokenKind::Punctuation(Punctuation::LParen) => true,
        TokenKind::Operator(Operator::LNot) | TokenKind::Operator(Operator::Sub) => true,
        TokenKind::Identifier(_) | TokenKind::Value(_) => rest.len() > 0 && !next_is(rest, Punctuation::LParen),
        _ => false,
    }
}

/// Whether the tokens after the `=` of an assignment (a stack) open with an expression
/// that the assignment reads as its value: a name, a literal, an operator or `(` first.
pub open spec fn assigned_expr(vt: Seq<Token>) -> bool {
    &&& vt.len() > 0
    &&& (vt.last().kind is Identifier || vt.last().kind is Value || vt.last().kind is Operator || vt.last().kind
        == TokenKind::Punctuation(Punctuation::LParen))
    &&& value_is_expr(vt.last().kind, vt.drop_last())
}

/// The number of tokens before the value of a declaration of one of the plain forms,
/// its `=` included.
pub open spec fn decl_head_len(tokens: Seq<Token>) -> int {
    if ahead(tokens, 1) == TokenKind::Punctuation(Punctuation::Assignment) {
        2
    } else if ahead(tokens, 3) == TokenKind::Punctuation(Punctuation::Assignment) {
        4
    } else {
        6
    }
}

/// The tokens of the value of a declaration of one of the plain forms, and what follows.
pub open spec fn decl_value_tokens(tokens: Seq<Token>) -> Seq<Token> {
    tokens.subrange(0, tokens.len() - decl_head_len(tokens))
}

/// The declarations a token stack (next token last) is made of, where it is made of
/// variable declarations of the plain forms whose values are expressions, each ended by
/// `;` and each perhaps marked `mut`: for each, its name, type, whether it is a list, its
/// value and whether it is mutable. `pend` says whether a `mut` was read before them;
/// a `mut` marks the one declaration that follows it.
pub open spec fn plain_decls_from(tokens: Seq<Token>, pend: bool) -> Option<Seq<(Seq<char>, Type, bool, Expr, bool)>>
    decreases tokens.len(),
{
    if tokens.len() == 0 {
        Some(Seq::empty())
    } else if tokens.last().kind == TokenKind::Keyword(Keyword::Mut) {
        plain_decls_from(tokens.drop_last(), true)
    } else if tokens.last().kind == TokenKind::Keyword(Keyword::Var) {
        let rest = tokens.drop_last();
        let vs = decl_value_tokens(rest);
        if plain_decl(rest) is Some && vs.len() > 0 && value_is_expr(vs.last().kind, vs.drop_last()) {
            match binary_tree(vs, 0) {
                Some((e, after)) => if next_is(after, Punctuation::SemiColon) && after.len() < tokens.len() {
                    match plain_decls_from(after.drop_last(), false) {
                        Some(ds) => Some(
                            seq![(plain_decl(rest).unwrap().0, plain_decl(rest).unwrap().1, plain_decl(rest).unwrap().2, e, pend)]
                                + ds,
                        ),
                        None => None,
                    }
                } else {
                    None
                },
                None => None,
            }
        } else {
            None
        }
    } else {
        None
    }
}

/// The declarations a whole token stack is made of, as `plain_decls_from` reads them
/// with no `mut` before them.
pub open spec fn plain_decls(tokens: Seq<Token>) -> Option<Seq<(Seq<char>, Type, bool, Expr, bool)>> {
    plain_decls_from(tokens, false)
}

/// Whether a global item is the sequential variable declaration `d` (name, type, list
/// flag, value and mutability).
pub open spec fn declares(g: Global, d: (Seq<char>, Type, bool, Expr, bool)) -> bool {
    match g {
        Global::Var(v) => {
            &&& v.id@ == d.0
            &&& v.ty == d.1
            &&& v.list == d.2
            &&& v.val == Some(Value::Expression(d.3))
            &&& v.par == Parallelism::Sequential
            &&& v.mutable == d.4
        },
        _ => false,
    }
}

/// What a type implements, read from the tokens after its `:`: the names before each
/// `,` and before the `{` of its body (`name` is the last name read), the number of
/// tokens left (the `{` or an unexpected token stays), and the unexpected token, if one
/// ended the list.
pub open spec fn impl_scan(toks: Seq<Token>, name: Seq<char>) -> (Seq<Seq<char>>, nat, Option<Token>)
    decreases toks.len(),
{
    if toks.len() == 0 {
        (Seq::empty(), 0, None)
    } else {
        match toks.last().kind {
            TokenKind::Identifier(id) => impl_scan(toks.drop_last(), id@),
            TokenKind::Punctuation(Punctuation::Comma) => {
                let (r, n, e) = impl_scan(toks.drop_last(), name);
                (seq![name] + r, n, e)
            },
            TokenKind::Punctuation(Punctuation::LBrace) => (seq![name], toks.len(), None),
            _ => (Seq::empty(), toks.len(), Some(toks.last())),
        }
    }
}

/// The modifiers in front of a type's next member: the parallelism (`gpu`, `par`),
/// whether it is `mut` and whether it is `pub`, read on from the given ones, and the
/// number of tokens left after them.
pub open spec fn member_mods(toks: Seq<Token>, par: Parallelism, mutable: bool, public: bool) -> (
    Parallelism,
    bool,
    bool,
    nat,
)
    decreases toks.len(),
{
    if toks.len() == 0 {
        (par, mutable, public, 0)
    } else {
        match toks.last().kind {
            TokenKind::Keyword(Keyword::GPU) => member_mods(toks.drop_last(), Parallelism::GPU, mutable, public),
            TokenKind::Keyword(Keyword::PAR) => member_mods(toks.drop_last(), Parallelism::CPU, mutable, public),
            TokenKind::Keyword(Keyword::Pub) => member_mods(toks.drop_last(), par, mutable, true),
            TokenKind::Keyword(Keyword::Mut) => member_mods(toks.drop_last(), par, true, public),
            _ => (par, mutable, public, toks.len()),
        }
    }
}

/// The modifiers in front of the first member of a type's body, and the number of
/// tokens left after them.
pub open spec fn type_body_start(toks: Seq<Token>) -> (Parallelism, bool, bool, nat) {
    member_mods(toks, Parallelism::Sequential, false, false)
}

/// Whether `id` is the name after the `fun` that stands `n` tokens from the bottom,
/// where a name follows it.
pub open spec fn fun_named(toks: Seq<Token>, n: nat, id: Seq<char>) -> bool {
    n >= 2 ==> match toks[n - 2].kind {
        TokenKind::Identifier(nm) => id == nm@,
        _ => true,
    }
}

/// Whether `b` is what the first member of a type's body gives: a variable with the
/// parallelism and mutability written before it (and, for a plain declaration, its name,
/// type and list mark), or a method, public as written, with the name that follows `fun`.
pub open spec fn first_member(toks: Seq<Token>, b: ClassBody) -> bool {
    let (par, mutable, public, n) = type_body_start(toks);
    &&& n > 0
    &&& match toks[n - 1].kind {
        TokenKind::Keyword(Keyword::Var) => match b {
            ClassBody::Var(v) => {
                &&& v.par == par
                &&& v.mutable == mutable
                &&& plain_decl(toks.take(n - 1)) matches Some(d) ==> v.id@ == d.0 && v.ty == d.1 && v.list == d.2
            },
            _ => false,
        },
        TokenKind::Keyword(Keyword::Fun) => match b {
            ClassBody::Fun(FunKind::Entry(f)) => f.public == public && fun_named(toks, n, f.id@),
            ClassBody::Fun(FunKind::Custom(f)) => f.public == public && fun_named(toks, n, f.id@),
            _ => false,
        },
        _ => false,
    }
}

/// Whether a token ends a type's body before its first member: neither `var`, `fun`
/// nor `}`.
pub open spec fn stray_member(k: TokenKind) -> bool {
    k != TokenKind::Keyword(Keyword::Var) && k != TokenKind::Keyword(Keyword::Fun) && k != TokenKind::Punctuation(
        Punctuation::RBrace,
    )
}

/// Whether a token opens a nested name of an import: a name, `..=`, `,` or `{`.
pub open spec fn opens_subspace(k: TokenKind) -> bool {
    ||| k is Identifier
    ||| k == TokenKind::Punctuation(Punctuation::RangeInclusive)
    ||| k == TokenKind::Punctuation(Punctuation::Comma)
    ||| k == TokenKind::Punctuation(Punctuation::LBrace)
}

/// Whether a token begins the condition of an `if`: `(`, an operator, a value or a name.
pub open spec fn cond_starter(k: TokenKind) -> bool {
    ||| k == TokenKind::Punctuation(Punctuation::LParen)
    ||| k is Operator
    ||| k is Value
    ||| k is Identifier
}

/// Whether the `if` (or `else`, when `is_else`) parser stops at once on a token: it
/// begins no condition there, and is neither `{` nor `}`.
pub open spec fn if_stops(k: TokenKind, is_else: bool) -> bool {
    &&& !(cond_starter(k) && !is_else)
    &&& k != TokenKind::Punctuation(Punctuation::LBrace)
    &&& k != TokenKind::Punctuation(Punctuation::RBrace)
}

/// Whether `else` follows the `}` on top.
pub open spec fn else_next(toks: Seq<Token>) -> bool {
    toks.len() >= 2 && toks[toks.len() - 2].kind == TokenKind::Keyword(Keyword::Else)
}

/// Whether a `}` on top closes an `if` that an `else` continues: an `else` follows, and
/// a token after it.
pub open spec fn else_follows(toks: Seq<Token>, is_else: bool) -> bool {
    !is_else && toks.len() >= 3 && else_next(toks)
}

/// Whether the loop parser takes a token and stops on it: anything but a name, `(`, a
/// value or `{`.
pub open spec fn loop_stops(k: TokenKind) -> bool {
    !(k is Identifier || k == TokenKind::Punctuation(Punctuation::LParen) || k is Value || k
        == TokenKind::Punctuation(Punctuation::LBrace))
}

/// The counter, the expression it runs over, and the tokens after them, of a loop
/// header `i in e` on top, where `e` reads as an expression.
pub open spec fn loop_header(toks: Seq<Token>) -> Option<(Seq<char>, Expr, Seq<Token>)> {
    if toks.len() >= 3 && toks[toks.len() - 2].kind == TokenKind::Keyword(Keyword::In) {
        let h = toks.take(toks.len() - 2);
        match (toks.last().kind, binary_tree(h, 0)) {
            (TokenKind::Identifier(id), Some((e, rest))) => if value_is_expr(h.last().kind, h.drop_last()) {
                Some((id@, e, rest))
            } else {
                None
            },
            _ => None,
        }
    } else {
        None
    }
}

/// Whether the tokens open with a loop header `i in e` after which the loop parser
/// stops: no token follows, or one it stops on.
pub open spec fn loop_plain(toks: Seq<Token>) -> bool {
    match loop_header(toks) {
        Some((_, _, rest)) => rest.len() == 0 || loop_stops(rest.last().kind),
        None => false,
    }
}

/// The characters of a name token (none for any other token).
pub open spec fn ident_of(k: TokenKind) -> Seq<char> {
    match k {
        TokenKind::Identifier(w) => w@,
        _ => Seq::empty(),
    }
}

/// Whether a token continues an imported name: another name, `{` or `..=`.
pub open spec fn continues_space(k: TokenKind) -> bool {
    k is Identifier || k == TokenKind::Punctuation(Punctuation::LBrace) || k == TokenKind::Punctuation(
        Punctuation::RangeInclusive,
    )
}

/// Whether the tokens open with a lone imported name: a name on top, and after it no
/// token, or one that does not continue it.
pub open spec fn lone_space(toks: Seq<Token>) -> bool {
    &&& toks.len() > 0
    &&& toks.last().kind is Identifier
    &&& toks.len() >= 2 ==> !continues_space(toks[toks.len() - 2].kind)
}

/// The arguments of a call after its `(` (a stack, next token last) where each is an
/// expression and they are separated by `,`: added to `acc` in order, with the tokens
/// left after the closing `)`. `None` where the list is not of that form.
pub open spec fn args_rest(toks: Seq<Token>, acc: Seq<Value>) -> Option<(Seq<Value>, Seq<Token>)>
    decreases toks.len(),
{
    if next_is(toks, Punctuation::RParen) {
        Some((acc, toks.drop_last()))
    } else if toks.len() > 0 && value_is_expr(toks.last().kind, toks.drop_last()) {
        match binary_tree(toks, 0) {
            Some((e, rest)) => if rest.len() < toks.len() {
                let rest2 = if next_is(rest, Punctuation::Comma) {
                    rest.drop_last()
                } else {
                    rest
                };
                args_rest(rest2, acc.push(Value::Expression(e)))
            } else {
                None
            },
            None => None,
        }
    } else {
        None
    }
}

/// Whether the tokens open with a lone factor (a literal or a plain name) that ends an
/// argument: nothing follows it, or a `,` or `)`.
pub open spec fn lone_arg(toks: Seq<Token>) -> bool {
    let r = toks.drop_last();
    &&& toks.len() > 0
    &&& lone_factor(toks.last().kind, r)
    &&& r.len() == 0 || next_is(r, Punctuation::Comma) || next_is(r, Punctuation::RParen)
}

/// Whether the arguments of a call after its `(` are lone factors separated by `,`, up
/// to the closing `)`.
pub open spec fn lone_args(toks: Seq<Token>) -> bool
    decreases toks.len(),
{
    if next_is(toks, Punctuation::RParen) {
        true
    } else if lone_arg(toks) {
        let rest = toks.drop_last();
        lone_args(if next_is(rest, Punctuation::Comma) { rest.drop_last() } else { rest })
    } else {
        false
    }
}

/// Whether a token opens a call with its name: a name, a string or a number.
pub open spec fn names_call(k: TokenKind) -> bool {
    k is Identifier || k matches TokenKind::Value(ValueKind::String(_)) || k matches TokenKind::Value(
        ValueKind::Numeric(_),
    )
}

/// The statements a block's tokens (a stack, next token last) are made of, up to its `}`
/// or their end, where each is `stop`, `skip`, `ret` and an expression, or a variable
/// declaration of the plain forms whose value is an expression, perhaps marked `mut`,
/// or an assignment `name = ` and an expression, with `;` anywhere between: for each, its
/// kind (0 a declaration, 1 `stop`, 2 `skip`, 3 `ret`, 4 an assignment), for a
/// declaration its name, type, list mark, value and whether it is mutable, for `ret` the
/// expression, and for an assignment the name and the expression. `pend` says whether a `mut`
/// was read before them; a `mut` marks the next declaration.
pub open spec fn plain_stmts_from(toks: Seq<Token>, pend: bool) -> Option<Seq<(int, Seq<char>, Type, bool, Expr, bool)>>
    decreases toks.len(),
{
    if toks.len() == 0 {
        Some(Seq::empty())
    } else {
        let k = toks.last().kind;
        let rest = toks.drop_last();
        if k == TokenKind::Punctuation(Punctuation::RBrace) {
            Some(Seq::empty())
        } else if k == TokenKind::Keyword(Keyword::Mut) {
            plain_stmts_from(rest, true)
        } else if k == TokenKind::Punctuation(Punctuation::SemiColon) {
            plain_stmts_from(rest, pend)
        } else if k == TokenKind::Keyword(Keyword::Stop) || k == TokenKind::Keyword(Keyword::Skip) {
            match plain_stmts_from(rest, pend) {
                Some(ss) => Some(
                    seq![(if k == TokenKind::Keyword(Keyword::Stop) { 1int } else { 2int }, Seq::empty(), Type::Void, false, Expr::Null, false)]
                        + ss,
                ),
                None => None,
            }
        } else if k == TokenKind::Keyword(Keyword::Ret) {
            if rest.len() > 0 && value_is_expr(rest.last().kind, rest.drop_last()) {
                match binary_tree(rest, 0) {
                    Some((e, after)) => if after.len() < toks.len() {
                        match plain_stmts_from(after, pend) {
                            Some(ss) => Some(seq![(3int, Seq::empty(), Type::Void, false, e, false)] + ss),
                            None => None,
                        }
                    } else {
                        None
                    },
                    None => None,
                }
            } else {
                None
            }
        } else if k is Identifier && next_is(rest, Punctuation::Assignment) && assigned_expr(rest.drop_last()) {
            match binary_tree(rest.drop_last(), 0) {
                Some((e, after)) => if after.len() < toks.len() {
                    match plain_stmts_from(after, pend) {
                        Some(ss) => Some(seq![(4int, k->Identifier_0@, Type::Void, false, e, false)] + ss),
                        None => None,
                    }
                } else {
                    None
                },
                None => None,
            }
        } else if k == TokenKind::Keyword(Keyword::Var) {
            let vs = decl_value_tokens(rest);
            if plain_decl(rest) is Some && vs.len() > 0 && value_is_expr(vs.last().kind, vs.drop_last()) {
                match binary_tree(vs, 0) {
                    Some((e, after)) => if after.len() < toks.len() {
                        match plain_stmts_from(after, false) {
                            Some(ss) => Some(
                                seq![(0int, plain_decl(rest).unwrap().0, plain_decl(rest).unwrap().1, plain_decl(rest).unwrap().2, e, pend)]
                                    + ss,
                            ),
                            None => None,
                        }
                    } else {
                        None
                    },
                    None => None,
                }
            } else {
                None
            }
        } else {
            None
        }
    }
}

/// The tokens left after the statements `plain_stmts_from` reads: the closing `}` and
/// what follows it, or nothing at the end of the tokens.
pub open spec fn plain_stmts_left(toks: Seq<Token>, pend: bool) -> Seq<Token>
    decreases toks.len(),
{
    if toks.len() == 0 {
        toks
    } else {
        let k = toks.last().kind;
        let rest = toks.drop_last();
        if k == TokenKind::Punctuation(Punctuation::RBrace) {
            toks
        } else if k == TokenKind::Keyword(Keyword::Mut) {
            plain_stmts_left(rest, true)
        } else if k == TokenKind::Punctuation(Punctuation::SemiColon) || k == TokenKind::Keyword(Keyword::Stop)
            || k == TokenKind::Keyword(Keyword::Skip) {
            plain_stmts_left(rest, pend)
        } else if k == TokenKind::Keyword(Keyword::Ret) {
            if rest.len() > 0 && value_is_expr(rest.last().kind, rest.drop_last()) {
                match binary_tree(rest, 0) {
                    Some((e, after)) => if after.len() < toks.len() {
                        plain_stmts_left(after, pend)
                    } else {
                        toks
                    },
                    None => toks,
                }
            } else {
                toks
            }
        } else if k is Identifier && next_is(rest, Punctuation::Assignment) && assigned_expr(rest.drop_last()) {
            match binary_tree(rest.drop_last(), 0) {
                Some((e, after)) => if after.len() < toks.len() {
                    plain_stmts_left(after, pend)
                } else {
                    toks
                },
                None => toks,
            }
        } else if k == TokenKind::Keyword(Keyword::Var) {
            let vs = decl_value_tokens(rest);
            if plain_decl(rest) is Some && vs.len() > 0 && value_is_expr(vs.last().kind, vs.drop_last()) {
                match binary_tree(vs, 0) {
                    Some((e, after)) => if after.len() < toks.len() {
                        plain_stmts_left(after, false)
                    } else {
                        toks
                    },
                    None => toks,
                }
            } else {
                toks
            }
        } else {
            toks
        }
    }
}

/// Whether a statement is the one `s` describes (see `plain_stmts_from`): a sequential
/// variable declaration with its name, type, list mark, value and mutability, `stop`,
/// `skip`, `ret` and the expression, or an assignment with its name and expression.
pub open spec fn stmt_is(it: Items, s: (int, Seq<char>, Type, bool, Expr, bool)) -> bool {
    if s.0 == 0 {
        match it {
            Items::Var(Var::Decl(v)) => {
                &&& v.id@ == s.1
                &&& v.ty == s.2
                &&& v.list == s.3
                &&& v.val == Some(Value::Expression(s.4))
                &&& v.par == Parallelism::Sequential
                &&& v.mutable == s.5
            },
            _ => false,
        }
    } else if s.0 == 1 {
        it is Stop
    } else if s.0 == 3 {
        it == Items::Ret(Value::Expression(s.4))
    } else if s.0 == 4 {
        it matches Items::Var(Var::Var(v)) && v.name@ == s.1 && v.val == Some(Value::Expression(s.4))
    } else {
        it is Skip
    }
}

/// A copy of the next token.
fn peek(tokens: &Vec<Token>) -> (r: Option<Token>)
    ensures
        r == (if tokens@.len() == 0 { None } else { Some(tokens@.last()) }),
{
    if tokens.len() == 0 {
        None
    } else {
        Some(tokens[tokens.len() - 1].clone())
    }
}

/// Whether the next token is the given punctuation.
fn next_is_punct(tokens: &Vec<Token>, p: Punctuation) -> (r: bool)
    ensures
        r == (tokens@.len() > 0 && tokens@.last().kind == TokenKind::Punctuation(p)),
{
    if tokens.len() == 0 {
        return false;
    }
    match &tokens[tokens.len() - 1].kind {
        TokenKind::Punctuation(q) => *q == p,
        _ => false,
    }
}

/// Whether the next token is the given keyword.
fn next_is_keyword(tokens: &Vec<Token>, k: Keyword) -> (r: bool)
    ensures
        r == (tokens@.len() > 0 && tokens@.last().kind == TokenKind::Keyword(k)),
{
    if tokens.len() == 0 {
        return false;
    }
    match &tokens[tokens.len() - 1].kind {
        TokenKind::Keyword(q) => *q == k,
        _ => false,
    }
}

/// Takes the next token off the stack.
fn pop(tokens: &mut Vec<Token>) -> (r: Option<Token>)
    ensures
        taken_from(final(tokens)@, old(tokens)@),
        old(tokens)@.len() > 0 ==> r == Some(old(tokens)@.last()) && final(tokens)@ == old(tokens)@.drop_last(),
        old(tokens)@.len() == 0 ==> r is None && final(tokens)@ == old(tokens)@,
{
    tokens.pop()
}

/// Reverses the token stream in place, so that its first token is on top.
fn reverse_tokens(tokens: &mut Vec<Token>)
    ensures
        final(tokens)@ == old(tokens)@.reverse(),
{
    let mut rev: Vec<Token> = Vec::new();
    let ghost orig = tokens@;
    while tokens.len() > 0
        invariant
            tokens@ == orig.subrange(0, tokens@.len() as int),
            rev@ == orig.subrange(tokens@.len() as int, orig.len() as int).reverse(),
            tokens@.len() <= orig.len(),
        decreases tokens@.len(),
    {
        let t = tokens.pop().unwrap();
        rev.push(t);
        assert(rev@ =~= orig.subrange(tokens@.len() as int, orig.len() as int).reverse());
        assert(tokens@ =~= orig.subrange(0, tokens@.len() as int));
    }
    *tokens = rev;
}

/// Puts back the token just taken.
fn push_back(tokens: &mut Vec<Token>, t: Token)
    ensures
        final(tokens)@ == old(tokens)@.push(t),
{
    tokens.push(t);
}

pub struct Parser {
    pub prog: Program,
    pub rep: Reporter,
}

/// An error located at a token, with a hint.
fn error_at(kind: Kind, t: &Token, hint: &str) -> (r: GraviError)
    ensures
        r.kind == kind,
        r.file is Some && r.file.unwrap()@ == t.file@,
        r.line == Some(t.line),
        r.col == Some(t.column),
        r.hint is Some && r.hint.unwrap()@ == hint@,
{
    GraviError::throw(kind).file(t.file()).at(t.line(), t.column()).hint(hint)
}

impl Parser {
    /// The parser's diagnostics only grow and the program it built so far stays.
    pub open spec fn grows_from(&self, before: &Parser) -> bool {
        &&& self.prog == before.prog
        &&& prefix_of(before.rep.messages@, self.rep.messages@)
    }

    pub fn new() -> (r: Self)
        ensures
            r.prog.items@.len() == 0,
            r.rep.messages@.len() == 0,
    {
        Parser { prog: Program::new(), rep: Reporter::new() }
    }

    fn report(&mut self, e: GraviError)
        ensures
            final(self).prog == old(self).prog,
            final(self).rep.messages@ == old(self).rep.messages@.push(e),
            final(self).grows_from(&*old(self)),
    {
        self.rep.add(e);
    }

    /// Parses a whole token stream (given in reading order) into the program: imports,
    /// functions, external functions, variables and types at the top level.
    /// All tokens are consumed.
    #[verifier::rlimit(100)]
    #[verifier::spinoff_prover]
    pub fn process(&mut self, tokens: &mut Vec<Token>)
        ensures
            final(tokens)@.len() == 0,
            prefix_of(old(self).prog.items@, final(self).prog.items@),
            prefix_of(old(self).rep.messages@, final(self).rep.messages@),
            opens_with_decl(old(tokens)@) ==> final(self).prog.items@.len() > old(self).prog.items@.len()
                && first_global(old(tokens)@, final(self).prog.items@[old(self).prog.items@.len() as int]),
            plain_decls(old(tokens)@.reverse()) matches Some(ds) ==> final(self).prog.items@.len() == old(
                self,
            ).prog.items@.len() + ds.len() && forall|k: int|
                0 <= k < ds.len() ==> declares(
                    #[trigger] final(self).prog.items@[old(self).prog.items@.len() + k],
                    ds[k],
                ),
            lone_ext(old(tokens)@) ==> final(self).prog.items@.len() == old(self).prog.items@.len() + 1
                && final(self).rep == old(self).rep,
    {
        let ghost orig = tokens@;
        let ghost start = self.prog.items@.len();
        reverse_tokens(tokens);
        let ghost all_decls = plain_decls(orig.reverse());
        let ghost mut done: Seq<(Seq<char>, Type, bool, Expr, bool)> = Seq::empty();
        let mut public = false;
        let mut mutable = false;
        let mut par = Parallelism::Sequential;
        loop
            invariant
                prefix_of(old(self).prog.items@, self.prog.items@),
                prefix_of(old(self).rep.messages@, self.rep.messages@),
                orig == old(tokens)@,
                start == old(self).prog.items@.len(),
                tokens@.len() <= orig.len(),
                tokens@.len() == orig.len() ==> tokens@ == orig.reverse() && !public && !mutable && par
                    == Parallelism::Sequential && self.prog.items@.len() == start,
                tokens@.len() + opener_len(orig) <= orig.len() && opens_with_decl(orig) ==> self.prog.items@.len()
                    > start && first_global(orig, self.prog.items@[start as int]),
                opens_with_decl(orig) && orig[0].kind == TokenKind::Keyword(Keyword::Mut) && tokens@.len() + 1
                    == orig.len() ==> tokens@ == orig.reverse().drop_last() && !public && mutable && par
                    == Parallelism::Sequential && self.prog.items@.len() == start,
                all_decls == plain_decls(orig.reverse()),
                lone_ext(orig) ==> self.rep == old(self).rep && (tokens@.len() == orig.len() || (tokens@.len() == 0
                    && self.prog.items@.len() == start + 1)),
                all_decls is Some ==> {
                    &&& !public && par == Parallelism::Sequential
                    &&& self.prog.items@.len() == start + done.len()
                    &&& forall|k: int| 0 <= k < done.len() ==> declares(#[trigger] self.prog.items@[start + k], done[k])
                    &&& (plain_decls_from(tokens@, mutable) is Some && done + plain_decls_from(tokens@, mutable).unwrap()
                        == all_decls.unwrap()) || (!mutable && next_is(tokens@, Punctuation::SemiColon)
                        && plain_decls(tokens@.drop_last()) is Some && done + plain_decls(tokens@.drop_last()).unwrap()
                        == all_decls.unwrap())
                },
            ensures
                tokens@.len() == 0,
                prefix_of(old(self).prog.items@, self.prog.items@),
                prefix_of(old(self).rep.messages@, self.rep.messages@),
                opens_with_decl(orig) ==> self.prog.items@.len() > start && first_global(
                    orig,
                    self.prog.items@[start as int],
                ),
                lone_ext(orig) ==> self.prog.items@.len() == start + 1 && self.rep == old(self).rep,
                all_decls is Some ==> self.prog.items@.len() == start + all_decls.unwrap().len() && forall|k: int|
                    0 <= k < all_decls.unwrap().len() ==> declares(
                        #[trigger] self.prog.items@[start + k],
                        all_decls.unwrap()[k],
                    ),
            decreases tokens@.len(),
        {
            let ghost round = tokens@.len();
            let ghost stack = tokens@;
            proof {
                if round == orig.len() && round > 0 {
                    assert(stack.last() == orig[0]);
                    assert(stack.drop_last() =~= orig.subrange(1, orig.len() as int).reverse());
                }
            }
            let t = match pop(tokens) {
                Some(t) => t,
                None => break,
            };
            let ghost items_before = self.prog.items@;
            let ghost rep_before = self.rep.messages@;
            match &t.kind {
                TokenKind::Keyword(Keyword::With) => {
                    let mut spaces: Vec<Space> = Vec::new();
                    match peek(tokens) {
                        Some(next) => match &next.kind {
                            TokenKind::Punctuation(Punctuation::LBrace) => {
                                loop
                                    invariant
                                        self.prog.items@ == items_before,
                                        prefix_of(rep_before, self.rep.messages@),
                                        tokens@.len() < round,
                                    decreases tokens@.len(),
                                {
                                    let before = tokens.len();
                                    if next_is_punct(tokens, Punctuation::RBrace) || next_is_punct(
                                        tokens,
                                        Punctuation::SemiColon,
                                    ) {
                                        let _ = pop(tokens);
                                        break;
                                    } else if next_is_punct(tokens, Punctuation::Comma) {
                                        let _ = pop(tokens);
                                    }
                                    let s = self.parse_space(tokens);
                                    spaces.push(s);
                                    if tokens.len() >= before {
                                        // Nothing was consumed: the same round would repeat forever.
                                        break;
                                    }
                                }
                            },
                            TokenKind::Punctuation(Punctuation::SemiColon) => {
                                let _ = pop(tokens);
                            },
                            TokenKind::Identifier(_) => {
                                let s = self.parse_space(tokens);
                                spaces.push(s);
                            },
                            _ => {},
                        },
                        None => {},
                    }
                    if spaces.len() > 0 {
                        self.prog.add(Global::Import(spaces));
                    }
                },
                TokenKind::Keyword(Keyword::Ext) => {
                    if next_is_keyword(tokens, Keyword::Fun) {
                        let _ = pop(tokens);
                        proof {
                            if round == orig.len() && orig.len() >= 3 {
                                assert(tokens@.drop_last() =~= orig.subrange(3, orig.len() as int).reverse());
                            }
                        }
                        let fun = self.parse_function(tokens, public);
                        if let FunKind::Custom(f) = fun {
                            self.prog.add(Global::Fun(FunKind::Extern(f)));
                        }
                        public = false;
                    }
                },
                TokenKind::Keyword(Keyword::GPU) => par = Parallelism::GPU,
                TokenKind::Keyword(Keyword::PAR) => par = Parallelism::CPU,
                TokenKind::Keyword(Keyword::Mut) => mutable = true,
                TokenKind::Keyword(Keyword::Pub) => public = true,
                TokenKind::Keyword(Keyword::Var) => {
                    let ghost pend = mutable;
                    let var = self.parse_var_decl(par, mutable, tokens);
                    self.prog.add(Global::Var(var));
                    mutable = false;
                    proof {
                        if all_decls is Some && plain_decls_from(stack, pend) is Some {
                            let rem = plain_decls_from(stack, pend).unwrap();
                            let rem2 = plain_decls(tokens@.drop_last()).unwrap();
                            assert(rem =~= seq![rem[0]] + rem2);
                            let d0 = done;
                            done = done.push(rem[0]);
                            assert(done + rem2 =~= d0 + rem);
                            assert(declares(self.prog.items@[start + d0.len() as int], done[d0.len() as int]));
                            assert forall|k: int| 0 <= k < done.len() implies declares(
                                #[trigger] self.prog.items@[start + k],
                                done[k],
                            ) by {
                                if k < d0.len() {
                                    assert(self.prog.items@[start + k] == items_before[start + k]);
                                }
                            }
                        }
                    }
                },
                TokenKind::Keyword(Keyword::Fun) => {
                    proof {
                        if round == orig.len() && orig.len() >= 2 {
                            assert(tokens@.drop_last() =~= orig.subrange(2, orig.len() as int).reverse());
                        }
                    }
                    let fun = self.parse_function(tokens, public);
                    self.prog.add(Global::Fun(fun));
                    public = false;
                },
                TokenKind::Keyword(Keyword::Type) => {
                    let t = self.parse_type(public, tokens);
                    public = false;
                    self.prog.add(Global::Class(t));
                },
                _ => {},
            }
            proof {
                crate::lexer::lemma_prefix_trans(old(self).prog.items@, items_before, self.prog.items@);
                crate::lexer::lemma_prefix_trans(old(self).rep.messages@, rep_before, self.rep.messages@);
            }
        }
    }

    /// Parses an imported name with the names nested under it (`a::{b, c}`).
    fn parse_space(&mut self, tokens: &mut Vec<Token>) -> (r: Space)
        ensures
            taken_from(final(tokens)@, old(tokens)@),
            final(self).grows_from(&*old(self)),
            r.alias is None,
            !r.used,
            old(tokens)@.len() > 0 && (old(tokens)@.last().kind is Identifier || old(tokens)@.last().kind
                == TokenKind::Punctuation(Punctuation::LBrace) || old(tokens)@.last().kind == TokenKind::Punctuation(
                Punctuation::RangeInclusive,
            )) ==> final(tokens)@.len() < old(tokens)@.len(),
            lone_space(old(tokens)@) ==> r.name@ == ident_of(old(tokens)@.last().kind) && r.sub is None
                && final(tokens)@ == old(tokens)@.drop_last(),
        decreases old(tokens)@.len(), 0nat,
    {
        let mut name = String::new();
        let mut sub: Option<Subspace> = None;
        loop
            invariant
                taken_from(tokens@, old(tokens)@),
                self.grows_from(&*old(self)),
                lone_space(old(tokens)@) ==> sub is None && (tokens@ == old(tokens)@ || (tokens@ == old(
                    tokens,
                )@.drop_last() && name@ == ident_of(old(tokens)@.last().kind))),
                old(tokens)@.len() > 0 && (old(tokens)@.last().kind is Identifier || old(tokens)@.last().kind
                    == TokenKind::Punctuation(Punctuation::LBrace) || old(tokens)@.last().kind == TokenKind::Punctuation(
                    Punctuation::RangeInclusive,
                )) && tokens@.len() == old(tokens)@.len() ==> tokens@ == old(tokens)@,
            ensures
                taken_from(tokens@, old(tokens)@),
                self.grows_from(&*old(self)),
                old(tokens)@.len() > 0 && (old(tokens)@.last().kind is Identifier || old(tokens)@.last().kind
                    == TokenKind::Punctuation(Punctuation::LBrace) || old(tokens)@.last().kind == TokenKind::Punctuation(
                    Punctuation::RangeInclusive,
                )) ==> tokens@.len() < old(tokens)@.len(),
                lone_space(old(tokens)@) ==> sub is None && tokens@ == old(tokens)@.drop_last() && name@ == ident_of(
                    old(tokens)@.last().kind,
                ),
            decreases tokens@.len(),
        {
            let t = match peek(tokens) {
                Some(t) => t,
                None => break,
            };
            match &t.kind {
                TokenKind::Identifier(id) => {
                    let _ = pop(tokens);
                    name = id.clone();
                },
                TokenKind::Punctuation(Punctuation::LBrace) => {
                    let _ = pop(tokens);
                },
                TokenKind::Punctuation(Punctuation::RBrace) => {
                    break;
                },
                TokenKind::Punctuation(Punctuation::RangeInclusive) => {
                    let _ = pop(tokens);
                    sub = self.parse_subspace(tokens);
                },
                TokenKind::Punctuation(Punctuation::Comma) => {
                    break;
                },
                _ => {
                    break;
                },
            }
        }
        Space { name, alias: None, sub, used: false }
    }

    /// Parses the names nested under an imported name.
    fn parse_subspace(&mut self, tokens: &mut Vec<Token>) -> (r: Option<Subspace>)
        ensures
            taken_from(final(tokens)@, old(tokens)@),
            final(self).grows_from(&*old(self)),
            r matches Some(Subspace::Only(spaces)) && {
                &&& old(tokens)@.len() == 0 ==> spaces@.len() == 0 && final(tokens)@ == old(tokens)@
                &&& next_is(old(tokens)@, Punctuation::RBrace) ==> spaces@.len() == 0 && final(tokens)@ == old(
                    tokens,
                )@.drop_last()
                &&& old(tokens)@.len() > 0 && opens_subspace(old(tokens)@.last().kind) ==> spaces@.len() > 0
                    && final(tokens)@.len() < old(tokens)@.len()
                &&& old(tokens)@.len() > 0 && !opens_subspace(old(tokens)@.last().kind) && !next_is(
                    old(tokens)@,
                    Punctuation::RBrace,
                ) ==> spaces@.len() == 0 && final(tokens)@ == old(tokens)@
                &&& lone_space(old(tokens)@) ==> spaces@.len() >= 1 && spaces@[0].name@ == ident_of(
                    old(tokens)@.last().kind,
                ) && spaces@[0].sub is None
                &&& lone_space(old(tokens)@) && next_is(old(tokens)@.drop_last(), Punctuation::Comma) ==> spaces@.len()
                    == 1 && final(tokens)@ == old(tokens)@.drop_last()
                &&& lone_space(old(tokens)@) && next_is(old(tokens)@.drop_last(), Punctuation::RBrace) ==> spaces@.len()
                    == 1 && final(tokens)@ == old(tokens)@.drop_last().drop_last()
            },
        decreases old(tokens)@.len(), 1nat,
    {
        let mut spaces: Vec<Space> = Vec::new();
        loop
            invariant_except_break
                spaces@.len() == 0 ==> tokens@ == old(tokens)@,
                lone_space(old(tokens)@) && next_is(old(tokens)@.drop_last(), Punctuation::Comma) ==> spaces@.len() == 0,
                lone_space(old(tokens)@) && next_is(old(tokens)@.drop_last(), Punctuation::RBrace) && spaces@.len() > 0
                    ==> spaces@.len() == 1 && tokens@ == old(tokens)@.drop_last(),
            invariant
                taken_from(tokens@, old(tokens)@),
                self.grows_from(&*old(self)),
                spaces@.len() > 0 ==> tokens@.len() < old(tokens)@.len() && old(tokens)@.len() > 0 && opens_subspace(
                    old(tokens)@.last().kind,
                ),
                lone_space(old(tokens)@) && spaces@.len() > 0 ==> spaces@[0].name@ == ident_of(old(tokens)@.last().kind)
                    && spaces@[0].sub is None,
                lone_space(old(tokens)@) && next_is(old(tokens)@.drop_last(), Punctuation::Comma) && spaces@.len() > 0
                    ==> spaces@.len() == 1 && tokens@ == old(tokens)@.drop_last(),
            ensures
                taken_from(tokens@, old(tokens)@),
                self.grows_from(&*old(self)),
                old(tokens)@.len() == 0 ==> spaces@.len() == 0 && tokens@ == old(tokens)@,
                next_is(old(tokens)@, Punctuation::RBrace) ==> spaces@.len() == 0 && tokens@ == old(tokens)@.drop_last(),
                old(tokens)@.len() > 0 && opens_subspace(old(tokens)@.last().kind) ==> spaces@.len() > 0
                    && tokens@.len() < old(tokens)@.len(),
                old(tokens)@.len() > 0 && !opens_subspace(old(tokens)@.last().kind) && !next_is(
                    old(tokens)@,
                    Punctuation::RBrace,
                ) ==> spaces@.len() == 0 && tokens@ == old(tokens)@,
                lone_space(old(tokens)@) ==> spaces@.len() >= 1 && spaces@[0].name@ == ident_of(old(tokens)@.last().kind)
                    && spaces@[0].sub is None,
                lone_space(old(tokens)@) && next_is(old(tokens)@.drop_last(), Punctuation::Comma) ==> spaces@.len() == 1
                    && tokens@ == old(tokens)@.drop_last(),
                lone_space(old(tokens)@) && next_is(old(tokens)@.drop_last(), Punctuation::RBrace) ==> spaces@.len()
                    == 1 && tokens@ == old(tokens)@.drop_last().drop_last(),
            decreases tokens@.len(),
        {
            let before = tokens.len();
            let t = match peek(tokens) {
                Some(t) => t,
                None => break,
            };
            match &t.kind {
                TokenKind::Identifier(_) => {
                    let s = self.parse_space(tokens);
                    spaces.push(s);
                    if next_is_punct(tokens, Punctuation::Comma) {
                        break;
                    }
                },
                TokenKind::Punctuation(Punctuation::RangeInclusive) => {
                    let s = self.parse_space(tokens);
                    spaces.push(s);
                },
                TokenKind::Punctuation(Punctuation::Comma) => {
                    let _ = pop(tokens);
                    let s = self.parse_space(tokens);
                    spaces.push(s);
                },
                TokenKind::Punctuation(Punctuation::LBrace) => {
                    let s = self.parse_space(tokens);
                    spaces.push(s);
                    if tokens.len() > 0 {
                        if next_is_punct(tokens, Punctuation::RBrace) {
                            let _ = pop(tokens);
                            break;
                        }
                    } else {
                        break;
                    }
                },
                TokenKind::Punctuation(Punctuation::RBrace) => {
                    let _ = pop(tokens);
                    break;
                },
                _ => {
                    break;
                },
            }
            assert(tokens@.len() < before);
        }
        Some(Subspace::Only(spaces))
    }

    /// Parses a type declaration: its name, what it implements, and its body.
    fn parse_type(&mut self, public: bool, tokens: &mut Vec<Token>) -> (r: Class)
        ensures
            taken_from(final(tokens)@, old(tokens)@),
            final(self).grows_from(&*old(self)),
            r.public == public,
            old(tokens)@.len() > 0 ==> match old(tokens)@.last().kind {
                TokenKind::Identifier(n) => r.name@ == n@,
                _ => {
                    &&& r.name@.len() == 0
                    &&& final(self).rep.messages@.len() > old(self).rep.messages@.len()
                    &&& final(self).rep.messages@[old(self).rep.messages@.len() as int].kind == Kind::UnexpectedToken(
                        old(tokens)@.last(),
                    )
                },
            },
            old(tokens)@.len() == 0 ==> {
                &&& r.name@.len() == 0
                &&& final(self).rep.messages@.len() > old(self).rep.messages@.len()
                &&& final(self).rep.messages@[old(self).rep.messages@.len() as int].kind == Kind::UnexpectedEOF
            },
    {
        let ghost first = self.rep.messages@.len();
        let mut name = String::new();
        let mut impls: Vec<String> = Vec::new();
        let mut body: Vec<ClassBody> = Vec::new();
        match pop(tokens) {
            Some(t) => {
                match &t.kind {
                    TokenKind::Identifier(id) => {
                        name = id.clone();
                        if next_is_punct(tokens, Punctuation::Colon) {
                            let _ = pop(tokens);
                            let more = self.parse_impl(tokens);
                            impls = more;
                        }
                    },
                    _ => {
                        let e = error_at(Kind::UnexpectedToken(t.clone()), &t, "Write a name of a type here!");
                        self.report(e);
                        push_back(tokens, t);
                    },
                }
            },
            None => {
                self.report(GraviError::throw(Kind::UnexpectedEOF));
            },
        }
        let ghost mid = self.rep.messages@;
        let ghost named = old(tokens)@.len() > 0 && old(tokens)@.last().kind is Identifier;
        loop
            invariant
                taken_from(tokens@, old(tokens)@),
                self.grows_from(&*old(self)),
                prefix_of(mid, self.rep.messages@),
                mid.len() >= first,
                !named ==> mid.len() > first && name@.len() == 0,
                old(tokens)@.len() == 0 ==> mid[first as int].kind == Kind::UnexpectedEOF,
                old(tokens)@.len() > 0 && !named ==> mid[first as int].kind == Kind::UnexpectedToken(old(tokens)@.last()),
                old(tokens)@.len() > 0 ==> match old(tokens)@.last().kind {
                    TokenKind::Identifier(n) => name@ == n@,
                    _ => true,
                },
            decreases tokens@.len(),
        {
            let ghost round = self.rep.messages@;
            let before = tokens.len();
            match peek(tokens) {
                Some(t) => {
                    if matches!(t.kind, TokenKind::Punctuation(Punctuation::LBrace)) {
                        let _ = pop(tokens);
                        let mut more = self.parse_type_body(tokens);
                        proof {
                            crate::lexer::lemma_prefix_trans(mid, round, self.rep.messages@);
                        }
                        body.append(&mut more);
                    } else if matches!(t.kind, TokenKind::Punctuation(Punctuation::RBrace)) {
                        let _ = pop(tokens);
                        break;
                    }
                },
                None => {
                    self.report(GraviError::throw(Kind::UnexpectedEOF));
                },
            }
            if tokens.len() >= before {
                // Nothing was consumed: the same round would repeat forever.
                break;
            }
        }
        let imp = if impls.len() > 0 { Some(impls) } else { None };
        Class { public, name, imp, body }
    }

    /// Parses the names a type implements, up to the `{` of its body.
    fn parse_impl(&mut self, tokens: &mut Vec<Token>) -> (r: Vec<String>)
        ensures
            taken_from(final(tokens)@, old(tokens)@),
            final(self).grows_from(&*old(self)),
            r@.map_values(|x: String| x@) == impl_scan(old(tokens)@, Seq::empty()).0,
            final(tokens)@ == old(tokens)@.take(impl_scan(old(tokens)@, Seq::empty()).1 as int),
            impl_scan(old(tokens)@, Seq::empty()).2 is None ==> final(self).rep.messages@ == old(self).rep.messages@,
            impl_scan(old(tokens)@, Seq::empty()).2 matches Some(t) ==> {
                &&& final(self).rep.messages@.len() == old(self).rep.messages@.len() + 1
                &&& final(self).rep.messages@.last().kind == Kind::UnexpectedToken(t)
            },
    {
        let mut impls: Vec<String> = Vec::new();
        let mut name = String::new();
        let ghost full = impl_scan(old(tokens)@, Seq::empty());
        proof {
            assert(name@ =~= Seq::<char>::empty());
        }
        loop
            invariant_except_break
                impls@.map_values(|x: String| x@) + impl_scan(tokens@, name@).0 == full.0,
                impl_scan(tokens@, name@).1 == full.1,
                impl_scan(tokens@, name@).2 == full.2,
                self.rep.messages@ == old(self).rep.messages@,
            invariant
                taken_from(tokens@, old(tokens)@),
                self.grows_from(&*old(self)),
                full == impl_scan(old(tokens)@, Seq::empty()),
            ensures
                impls@.map_values(|x: String| x@) == full.0,
                tokens@ == old(tokens)@.take(full.1 as int),
                full.2 is None ==> self.rep.messages@ == old(self).rep.messages@,
                full.2 matches Some(t) ==> {
                    &&& self.rep.messages@.len() == old(self).rep.messages@.len() + 1
                    &&& self.rep.messages@.last().kind == Kind::UnexpectedToken(t)
                },
            decreases tokens@.len(),
        {
            let ghost cur = tokens@;
            let ghost v0 = impls@.map_values(|x: String| x@);
            proof {
                assert(old(tokens)@.take(cur.len() as int) =~= cur);
            }
            match pop(tokens) {
                Some(t) => match &t.kind {
                    TokenKind::Identifier(id) => {
                        name = id.clone();
                    },
                    TokenKind::Punctuation(Punctuation::Comma) => {
                        impls.push(name.clone());
                        proof {
                            assert(impls@.map_values(|x: String| x@) =~= v0.push(name@));
                            assert(v0.push(name@) + impl_scan(tokens@, name@).0 =~= v0 + impl_scan(cur, name@).0);
                        }
                    },
                    TokenKind::Punctuation(Punctuation::LBrace) => {
                        let ghost nm = name@;
                        impls.push(name);
                        push_back(tokens, t);
                        proof {
                            assert(tokens@ =~= cur);
                            assert(impls@.map_values(|x: String| x@) =~= v0 + impl_scan(cur, nm).0);
                        }
                        break;
                    },
                    _ => {
                        let e = error_at(
                            Kind::UnexpectedToken(t.clone()),
                            &t,
                            "Write a name of what this type extends or implements!",
                        );
                        self.report(e);
                        push_back(tokens, t);
                        proof {
                            assert(tokens@ =~= cur);
                            assert(v0 =~= v0 + impl_scan(cur, name@).0);
                        }
                        break;
                    },
                },
                None => {
                    proof {
                        assert(v0 =~= v0 + impl_scan(cur, name@).0);
                    }
                    // Out of tokens: the same round would repeat forever.
                    break;
                },
            }
        }
        impls
    }

    /// Parses the members of a type: variables and methods, up to its `}`.
    fn parse_type_body(&mut self, tokens: &mut Vec<Token>) -> (r: Vec<ClassBody>)
        ensures
            taken_from(final(tokens)@, old(tokens)@),
            final(self).grows_from(&*old(self)),
            type_body_start(old(tokens)@).3 == 0 ==> {
                &&& r@.len() == 0
                &&& final(tokens)@.len() == 0
                &&& final(self).rep.messages@.len() == old(self).rep.messages@.len() + 1
                &&& final(self).rep.messages@.last().kind == Kind::UnexpectedEOF
            },
            ({
                let n = type_body_start(old(tokens)@).3;
                n > 0 && old(tokens)@[n - 1].kind == TokenKind::Punctuation(Punctuation::RBrace)
            }) ==> {
                &&& r@.len() == 0
                &&& final(tokens)@ == old(tokens)@.take(type_body_start(old(tokens)@).3 as int)
                &&& final(self).rep.messages@ == old(self).rep.messages@
            },
            ({
                let n = type_body_start(old(tokens)@).3;
                n > 0 && stray_member(old(tokens)@[n - 1].kind)
            }) ==> {
                &&& r@.len() == 0
                &&& final(tokens)@ == old(tokens)@.take(type_body_start(old(tokens)@).3 as int)
                &&& final(self).rep.messages@.len() == old(self).rep.messages@.len() + 1
                &&& final(self).rep.messages@.last().kind == Kind::UnexpectedToken(
                    old(tokens)@[type_body_start(old(tokens)@).3 - 1],
                )
            },
            ({
                let n = type_body_start(old(tokens)@).3;
                n > 0 && (old(tokens)@[n - 1].kind == TokenKind::Keyword(Keyword::Var) || old(tokens)@[n
                    - 1].kind == TokenKind::Keyword(Keyword::Fun))
            }) ==> r@.len() > 0 && first_member(old(tokens)@, r@[0]),
    {
        let mut body: Vec<ClassBody> = Vec::new();
        let mut public = false;
        let mut par = Parallelism::Sequential;
        let mut mutable = false;
        let ghost start = type_body_start(old(tokens)@);
        let ghost n = start.3;
        proof {
            assert(old(tokens)@.take(old(tokens)@.len() as int) =~= old(tokens)@);
        }
        loop
            invariant_except_break
                body@.len() == 0 ==> member_mods(tokens@, par, mutable, public) == start && tokens@ == old(
                    tokens,
                )@.take(tokens@.len() as int) && self.rep.messages@ == old(self).rep.messages@,
            invariant
                taken_from(tokens@, old(tokens)@),
                self.grows_from(&*old(self)),
                start == type_body_start(old(tokens)@),
                n == start.3,
                body@.len() > 0 ==> first_member(old(tokens)@, body@[0]),
            ensures
                taken_from(tokens@, old(tokens)@),
                self.grows_from(&*old(self)),
                n == 0 ==> {
                    &&& body@.len() == 0
                    &&& tokens@.len() == 0
                    &&& self.rep.messages@.len() == old(self).rep.messages@.len() + 1
                    &&& self.rep.messages@.last().kind == Kind::UnexpectedEOF
                },
                n > 0 && old(tokens)@[n - 1].kind == TokenKind::Punctuation(Punctuation::RBrace) ==> {
                    &&& body@.len() == 0
                    &&& tokens@ == old(tokens)@.take(n as int)
                    &&& self.rep.messages@ == old(self).rep.messages@
                },
                n > 0 && stray_member(old(tokens)@[n - 1].kind) ==> {
                    &&& body@.len() == 0
                    &&& tokens@ == old(tokens)@.take(n as int)
                    &&& self.rep.messages@.len() == old(self).rep.messages@.len() + 1
                    &&& self.rep.messages@.last().kind == Kind::UnexpectedToken(old(tokens)@[n - 1])
                },
                n > 0 && (old(tokens)@[n - 1].kind == TokenKind::Keyword(Keyword::Var) || old(tokens)@[n - 1].kind
                    == TokenKind::Keyword(Keyword::Fun)) ==> body@.len() > 0 && first_member(old(tokens)@, body@[0]),
            decreases tokens@.len(),
        {
            let ghost cur = tokens@;
            match pop(tokens) {
                Some(t) => match &t.kind {
                    TokenKind::Keyword(Keyword::GPU) => {
                        par = Parallelism::GPU;
                        proof {
                            assert(tokens@ =~= old(tokens)@.take(tokens@.len() as int));
                        }
                    },
                    TokenKind::Keyword(Keyword::PAR) => {
                        par = Parallelism::CPU;
                        proof {
                            assert(tokens@ =~= old(tokens)@.take(tokens@.len() as int));
                        }
                    },
                    TokenKind::Keyword(Keyword::Pub) => {
                        public = true;
                        proof {
                            assert(tokens@ =~= old(tokens)@.take(tokens@.len() as int));
                        }
                    },
                    TokenKind::Keyword(Keyword::Mut) => {
                        mutable = true;
                        proof {
                            assert(tokens@ =~= old(tokens)@.take(tokens@.len() as int));
                        }
                    },
                    TokenKind::Keyword(Keyword::Var) => {
                        proof {
                            if body@.len() == 0 {
                                assert(tokens@ =~= old(tokens)@.take(n - 1));
                            }
                        }
                        let v = self.parse_var_decl(par, mutable, tokens);
                        body.push(ClassBody::Var(v));
                        par = Parallelism::Sequential;
                        mutable = false;
                    },
                    TokenKind::Keyword(Keyword::Fun) => {
                        proof {
                            if body@.len() == 0 {
                                assert(tokens@ =~= old(tokens)@.take(n - 1));
                                if n >= 2 {
                                    assert(tokens@.last() == old(tokens)@[n - 2]);
                                }
                            }
                        }
                        let f = self.parse_function(tokens, public);
                        body.push(ClassBody::Fun(f));
                        public = false;
                    },
                    TokenKind::Punctuation(Punctuation::RBrace) => {
                        push_back(tokens, t);
                        proof {
                            assert(tokens@ =~= cur);
                        }
                        break;
                    },
                    _ => {
                        let e = error_at(
                            Kind::UnexpectedToken(t.clone()),
                            &t,
                            "Write a valid statement in a type! Like a variable or method (function) declaration",
                        );
                        self.report(e);
                        push_back(tokens, t);
                        proof {
                            assert(tokens@ =~= cur);
                        }
                        break;
                    },
                },
                None => {
                    self.report(GraviError::throw(Kind::UnexpectedEOF));
                    // Out of tokens: the same round would repeat forever.
                    break;
                },
            }
        }
        body
    }

    /// Parses a variable declaration after `var`: its name, its type (`: t`, or `: t[]`
    /// for a list) and its value (`= v`).
    fn parse_var_decl(&mut self, par: Parallelism, mutable: bool, tokens: &mut Vec<Token>) -> (r: VarDecl)
        ensures
            taken_from(final(tokens)@, old(tokens)@),
            final(self).grows_from(&*old(self)),
            r.par == par,
            r.mutable == mutable,
            old(tokens)@.len() > 0 && old(tokens)@.last().kind != TokenKind::Punctuation(Punctuation::RParen)
                ==> final(tokens)@.len() < old(tokens)@.len(),
            plain_decl(old(tokens)@) is Some ==> r.id@ == plain_decl(old(tokens)@).unwrap().0 && r.ty == plain_decl(
                old(tokens)@,
            ).unwrap().1 && r.list == plain_decl(old(tokens)@).unwrap().2 && r.val is Some,
            binary_tree(decl_value_tokens(old(tokens)@), 0) matches Some((e, rest)) ==> (plain_decl(old(tokens)@)
                is Some && decl_value_tokens(old(tokens)@).len() > 0 && value_is_expr(
                decl_value_tokens(old(tokens)@).last().kind,
                decl_value_tokens(old(tokens)@).drop_last(),
            ) ==> r.val == Some(Value::Expression(e)) && final(tokens)@ == rest),
            param_decl(old(tokens)@) matches Some((n, ty, comma)) ==> r.id@ == n && r.ty == ty && !r.list
                && r.val is None && final(self).rep == old(self).rep && final(tokens)@ == old(tokens)@.take(
                old(tokens)@.len() - param_len(comma),
            ),
        decreases old(tokens)@.len(), 4nat,
    {
        let mut id = String::new();
        let mut ty = Type::Void;
        let mut val: Option<Value> = None;
        let mut list = false;
        let ghost all = old(tokens)@;
        let ghost total = old(tokens)@.len();
        let ghost shape = plain_decl(old(tokens)@);
        let ghost pshape = param_decl(old(tokens)@);
        loop
            invariant_except_break
                val is None,
                pshape is Some ==> self.rep == old(self).rep && (tokens@.len() == total || tokens@.len() == total - 1
                    || tokens@.len() == total - 3),
                pshape is Some && tokens@.len() == total - 1 ==> id@ == pshape.unwrap().0 && ty == Type::Void
                    && !list,
                pshape is Some && tokens@.len() == total - 3 ==> id@ == pshape.unwrap().0 && ty == pshape.unwrap().1
                    && !list,
                tokens@.len() == total ==> id@.len() == 0 && ty == Type::Void && !list,
                shape is Some ==> tokens@.len() == total || tokens@.len() == total - 1 || (tokens@.len() == total - 3
                    && !shape.unwrap().2 && ahead(all, 1) == TokenKind::Punctuation(Punctuation::Colon)) || (tokens@.len() == total - 5 && shape.unwrap().2),
                shape is Some && tokens@.len() == total - 1 ==> id@ == shape.unwrap().0 && ty == Type::Void && !list,
                shape is Some && (tokens@.len() == total - 3 || tokens@.len() == total - 5) ==> id@ == shape.unwrap().0
                    && ty == shape.unwrap().1 && list == shape.unwrap().2,
            invariant
                taken_from(tokens@, old(tokens)@),
                self.grows_from(&*old(self)),
                all == old(tokens)@,
                total == all.len(),
                shape == plain_decl(all),
                pshape == param_decl(all),
                old(tokens)@.len() > 0 && old(tokens)@.last().kind != TokenKind::Punctuation(Punctuation::RParen)
                    && tokens@.len() == old(tokens)@.len() ==> tokens@ == old(tokens)@,
            ensures
                taken_from(tokens@, old(tokens)@),
                self.grows_from(&*old(self)),
                old(tokens)@.len() > 0 && old(tokens)@.last().kind != TokenKind::Punctuation(Punctuation::RParen)
                    ==> tokens@.len() < old(tokens)@.len(),
                shape is Some ==> id@ == shape.unwrap().0 && ty == shape.unwrap().1 && list == shape.unwrap().2
                    && val is Some,
                pshape matches Some((n, pty, comma)) ==> id@ == n && ty == pty && !list && val is None && self.rep
                    == old(self).rep && tokens@ == all.take(total - param_len(comma)),
                binary_tree(decl_value_tokens(all), 0) matches Some((e, rest)) ==> (shape is Some
                    && decl_value_tokens(all).len() > 0 && value_is_expr(
                    decl_value_tokens(all).last().kind,
                    decl_value_tokens(all).drop_last(),
                ) ==> val == Some(Value::Expression(e)) && tokens@ == rest),
            decreases tokens@.len(),
        {
            let ghost len0 = tokens@.len();
            proof {
                if len0 > 0 {
                    assert(tokens@[len0 - 1] == all[len0 - 1]);
                }
                if len0 > 1 {
                    assert(tokens@[len0 - 2] == all[len0 - 2]);
                }
                if len0 > 2 {
                    assert(tokens@[len0 - 3] == all[len0 - 3]);
                }
            }
            let t = match pop(tokens) {
                Some(t) => t,
                None => break,
            };
            match &t.kind {
                TokenKind::Identifier(idt) => {
                    id = idt.clone();
                },
                TokenKind::Punctuation(Punctuation::Assignment) => {
                    proof {
                        if shape is Some {
                            assert(tokens@ =~= decl_value_tokens(all));
                        }
                    }
                    val = Some(self.parse_value(tokens));
                    break;
                },
                TokenKind::Punctuation(Punctuation::Colon) => {
                    match peek(tokens) {
                        Some(next) => match &next.kind {
                            TokenKind::Type(tt) => {
                                ty = tt.clone();
                                let _ = pop(tokens);
                                if next_is_punct(tokens, Punctuation::LBracket) {
                                    let _ = pop(tokens);
                                    if next_is_punct(tokens, Punctuation::RBracket) {
                                        let _ = pop(tokens);
                                        list = true;
                                    }
                                }
                            },
                            _ => {
                                let hint = concat3(
                                    "Try writing a valid type, like numerics (u16, i16, f16, ...), string, bool or a user-defined type.\nBefore that, I'll consider this function with \"",
                                    bright_blue_bold("none").as_str(),
                                    "\" as its type!",
                                );
                                let e = error_at(Kind::ExpectedReturnType, &t, hint.as_str());
                                self.report(e);
                                break;
                            },
                        },
                        None => {},
                    }
                },
                TokenKind::Punctuation(Punctuation::RParen) => {
                    push_back(tokens, t);
                    break;
                },
                TokenKind::Punctuation(_) => {
                    break;
                },
                _ => {
                    let a = concat3("Try writing a valid token here. I don't know, like \"", bright_blue_bold("myvar").as_str(), ": ");
                    let b = concat3(a.as_str(), bright_blue_bold("mytype").as_str(), " = ");
                    let hint = concat3(b.as_str(), bright_blue_bold("myvalue").as_str(), ";\"");
                    let e = error_at(Kind::UnexpectedToken(t.clone()), &t, hint.as_str());
                    self.report(e);
                    break;
                },
            }
        }
        VarDecl { par, mutable, id, ty, val, list }
    }

    /// Parses an assignment to a variable: its name and, after `=`, its new value.
    fn parse_var(&mut self, tokens: &mut Vec<Token>) -> (r: Variable)
        ensures
            taken_from(final(tokens)@, old(tokens)@),
            final(self).grows_from(&*old(self)),
            old(tokens)@.len() > 0 ==> final(tokens)@.len() < old(tokens)@.len(),
            old(tokens)@.len() == 0 ==> r.name@.len() == 0 && r.val is None,
            old(tokens)@.len() > 0 ==> match old(tokens)@.last().kind {
                TokenKind::Identifier(n) => r.name@ == n@,
                _ => r.name@.len() == 0,
            },
            old(tokens)@.len() < 2 ==> r.val is None,
            old(tokens)@.len() >= 2 && old(tokens)@[old(tokens)@.len() - 2].kind != TokenKind::Punctuation(
                Punctuation::Assignment,
            ) ==> r.val is None && final(tokens)@ == old(tokens)@.subrange(0, old(tokens)@.len() - 2),
            old(tokens)@.len() >= 2 && next_is(old(tokens)@.drop_last(), Punctuation::Assignment) && assigned_expr(
                old(tokens)@.drop_last().drop_last(),
            ) ==> (binary_tree(old(tokens)@.drop_last().drop_last(), 0) matches Some((e, rest)) ==> r.val == Some(
                Value::Expression(e),
            ) && final(tokens)@ == rest),
        decreases old(tokens)@.len(), 25nat,
    {
        let id = match pop(tokens) {
            Some(t) => match &t.kind {
                TokenKind::Identifier(name) => name.clone(),
                _ => String::new(),
            },
            None => String::new(),
        };
        let val = match pop(tokens) {
            Some(t) => {
                if matches!(t.kind, TokenKind::Punctuation(Punctuation::Assignment)) {
                    match peek(tokens) {
                        Some(v) => match &v.kind {
                            TokenKind::Identifier(_) | TokenKind::Value(_) | TokenKind::Operator(_) | TokenKind::Keyword(
                                Keyword::If,
                            ) | TokenKind::Punctuation(Punctuation::LBrace) | TokenKind::Punctuation(
                                Punctuation::LParen,
                            ) | TokenKind::Punctuation(Punctuation::LBracket) => Some(self.parse_value(tokens)),
                            _ => None,
                        },
                        None => None,
                    }
                } else {
                    None
                }
            },
            None => None,
        };
        Variable { name: id, val }
    }

    /// Parses a value: an expression, a string, boolean or character literal, a call, a
    /// block, an `if`, or a list literal.
    fn parse_value(&mut self, tokens: &mut Vec<Token>) -> (r: Value)
        ensures
            taken_from(final(tokens)@, old(tokens)@),
            final(self).grows_from(&*old(self)),
            old(tokens)@.len() > 0 && (old(tokens)@.last().kind is Identifier || old(tokens)@.last().kind is Value
                || old(tokens)@.last().kind is Char || old(tokens)@.last().kind == TokenKind::Punctuation(Punctuation::Quote))
                ==> final(tokens)@.len() < old(tokens)@.len(),
            old(tokens)@.len() == 0 ==> r is Null && final(tokens)@ == old(tokens)@,
            lone_arg(old(tokens)@) ==> final(self).rep.messages@ == old(self).rep.messages@ && final(tokens)@ == old(
                tokens,
            )@.drop_last(),
            old(tokens)@.len() > 1 && names_call(old(tokens)@.last().kind) && next_is(
                old(tokens)@.drop_last(),
                Punctuation::LParen,
            ) && lone_args(old(tokens)@.drop_last().drop_last()) ==> final(self).rep.messages@ == old(
                self,
            ).rep.messages@,
            old(tokens)@.len() > 1 && names_call(old(tokens)@.last().kind) && next_is(
                old(tokens)@.drop_last(),
                Punctuation::LParen,
            ) ==> (args_rest(old(tokens)@.drop_last().drop_last(), Seq::empty()) matches Some((vs, rest)) ==> (
            r matches Value::Call(_, vals) && vals@ == vs && final(tokens)@ == rest)),
            binary_tree(old(tokens)@, 0) matches Some((e, rest)) ==> (old(tokens)@.len() > 0 && value_is_expr(
                old(tokens)@.last().kind,
                old(tokens)@.drop_last(),
            ) ==> r == Value::Expression(e) && final(tokens)@ == rest),
            old(tokens)@.len() > 0 ==> value_form(old(tokens)@.last().kind, old(tokens)@.drop_last(), r),
            old(tokens)@.len() > 0 && (old(tokens)@.last().kind is Boolean || old(tokens)@.last().kind is Char)
                ==> final(tokens)@ == old(tokens)@.drop_last() && final(self).rep.messages@ == old(self).rep.messages@,
            old(tokens)@.len() > 0 && starts_no_value(old(tokens)@.last().kind) ==> final(tokens)@ == old(tokens)@,
            old(tokens)@.len() > 0 && old(tokens)@.last().kind == TokenKind::Punctuation(Punctuation::SemiColon)
                ==> final(self).rep.messages@ == old(self).rep.messages@,
            old(tokens)@.len() > 0 && starts_no_value(old(tokens)@.last().kind) && old(tokens)@.last().kind
                != TokenKind::Punctuation(Punctuation::SemiColon) ==> ({
                let t = old(tokens)@.last();
                let e = final(self).rep.messages@.last();
                &&& final(self).rep.messages@.len() == old(self).rep.messages@.len() + 1
                &&& e.kind == (if t.kind == TokenKind::Punctuation(Punctuation::RBrace) {
                    Kind::UnclosedParenthesis
                } else {
                    Kind::ExpectedValue
                })
                &&& e.line == Some(t.line) && e.col == Some(t.column)
            }),
        decreases old(tokens)@.len(), 20nat,
    {
        let t = match peek(tokens) {
            Some(t) => t,
            None => return Value::Null,
        };
        match &t.kind {
            TokenKind::Punctuation(Punctuation::Colon) | TokenKind::Punctuation(Punctuation::RangeInclusive) => {
                let e = self.parse_binary(tokens, 0);
                Value::Expression(e)
            },
            TokenKind::Punctuation(Punctuation::Quote) => {
                let _ = pop(tokens);
                match pop(tokens) {
                    Some(next) => match &next.kind {
                        TokenKind::Identifier(v) | TokenKind::Value(ValueKind::String(v)) => {
                            let lit = v.clone();
                            let _ = pop(tokens);  // the closing quote
                            Value::StringLiteral(lit)
                        },
                        _ => Value::Null,
                    },
                    None => Value::Null,
                }
            },
            TokenKind::Punctuation(Punctuation::LParen) => {
                let e = self.parse_binary(tokens, 0);
                Value::Expression(e)
            },
            TokenKind::Operator(Operator::LNot) | TokenKind::Operator(Operator::Sub) => {
                let e = self.parse_binary(tokens, 0);
                Value::Expression(e)
            },
            TokenKind::Boolean(b) => {
                let _ = pop(tokens);
                Value::Boolean(if *b { BoolValue::True } else { BoolValue::False })
            },
            TokenKind::Char(c) => {
                let _ = pop(tokens);
                Value::Char(*c)
            },
            TokenKind::Identifier(v) | TokenKind::Value(ValueKind::String(v)) | TokenKind::Value(
                ValueKind::Numeric(v),
            ) => {
                let v = v.clone();
                let temp = pop(tokens).unwrap();
                if tokens.len() > 0 {
                    if next_is_punct(tokens, Punctuation::LParen) {
                        let params = self.parse_args(tokens);
                        Value::Call(v, params)
                    } else {
                        push_back(tokens, temp);
                        assert(tokens@ =~= old(tokens)@);
                        let e = self.parse_binary(tokens, 0);
                        Value::Expression(e)
                    }
                } else {
                    Value::Null
                }
            },
            TokenKind::Punctuation(Punctuation::RParen) => {
                let _ = pop(tokens);
                Value::Null
            },
            TokenKind::Punctuation(Punctuation::LBrace) => {
                let _ = pop(tokens);
                let block = self.parse_block(tokens, false);
                if next_is_punct(tokens, Punctuation::RBrace) {
                    let _ = pop(tokens);
                }
                Value::Block(Type::Void, block)
            },
            TokenKind::Keyword(Keyword::If) => {
                let _ = pop(tokens);
                let i = self.parse_if(tokens, false);
                Value::IfElse(i)
            },
            TokenKind::Punctuation(Punctuation::RBrace) => {
                let hint = concat3("Try writing ", bright_blue_bold("}").as_str(), " to close the expression before this token.");
                let e = error_at(Kind::UnclosedParenthesis, &t, hint.as_str());
                self.report(e);
                Value::Null
            },
            TokenKind::Punctuation(Punctuation::LBracket) => {
                let (size, vals) = self.parse_list_literal(tokens);
                Value::List(List::Decl(size, vals))
            },
            TokenKind::Punctuation(Punctuation::SemiColon) => Value::Null,
            _ => {
                let e = error_at(
                    Kind::ExpectedValue,
                    &t,
                    "Write a valid value here, like a binary expression, an identifier, a literal (string or numeric), a range and so on.",
                );
                self.report(e);
                Value::Null
            },
        }
    }

    /// Parses the rest of a range after its start: `:end`, `::end`, `:step:end` or
    /// `:step::end`.
    fn parse_range(&mut self, start: Expr, default_inclusive: bool, tokens: &mut Vec<Token>) -> (r: Expr)
        requires
            ops_ok(start),
        ensures
            ops_ok(r),
            taken_from(final(tokens)@, old(tokens)@),
            final(self).grows_from(&*old(self)),
            r is Range,
            old(tokens)@.len() > 0 ==> (range_tree(start, default_inclusive, old(tokens)@.drop_last()) matches Some(
                (e, rest),
            ) ==> r == e && final(tokens)@ == rest),
        decreases old(tokens)@.len(), 8nat,
    {
        let _ = pop(tokens);
        let sec = self.parse_term(tokens);
        if next_is_punct(tokens, Punctuation::Colon) {
            let _ = pop(tokens);
            let thi = self.parse_term(tokens);
            Expr::Range(Range { start: Box::new(start), step: Some(Box::new(sec)), end: Box::new(thi), inclusive: false })
        } else if next_is_punct(tokens, Punctuation::RangeInclusive) {
            let _ = pop(tokens);
            let thi = self.parse_term(tokens);
            Expr::Range(Range { start: Box::new(start), step: Some(Box::new(sec)), end: Box::new(thi), inclusive: true })
        } else {
            Expr::Range(Range { start: Box::new(start), step: None, end: Box::new(sec), inclusive: default_inclusive })
        }
    }

    /// Parses the binary operations of precedence level `lvl` and above: `||`, `&&`,
    /// `|`, `&`, `==`/`!=`, then comparisons; past the last level, arithmetic.
    fn parse_binary(&mut self, tokens: &mut Vec<Token>, lvl: usize) -> (r: Expr)
        ensures
            taken_from(final(tokens)@, old(tokens)@),
            final(self).grows_from(&*old(self)),
            old(tokens)@.len() > 0 ==> final(tokens)@.len() < old(tokens)@.len(),
            binary_tree(old(tokens)@, lvl) matches Some((e, rest)) ==> r == e && final(tokens)@ == rest,
            lone_arg(old(tokens)@) ==> final(self).rep.messages@ == old(self).rep.messages@ && final(tokens)@ == old(
                tokens,
            )@.drop_last(),
            ops_ok(r),
        decreases old(tokens)@.len(), (if lvl > 6 { 10nat } else { (16 - lvl) as nat }),
    {
        if lvl > 5 {
            return self.parse_expr(tokens);
        }
        let mut l = self.parse_binary(tokens, lvl + 1);
        loop
            invariant
                taken_from(tokens@, old(tokens)@),
                self.grows_from(&*old(self)),
                old(tokens)@.len() > 0 ==> tokens@.len() < old(tokens)@.len(),
                lvl <= 5,
                binary_tree(old(tokens)@, lvl) is Some ==> binary_more(l, tokens@, lvl) == binary_tree(
                    old(tokens)@,
                    lvl,
                ),
                ops_ok(l),
                lone_arg(old(tokens)@) ==> self.rep.messages@ == old(self).rep.messages@ && tokens@ == old(
                    tokens,
                )@.drop_last(),
            decreases tokens@.len(),
        {
            let o = match peek(tokens) {
                Some(t) => match t.kind {
                    TokenKind::Operator(o) => o,
                    _ => return l,
                },
                None => return l,
            };
            let matched = (lvl == 0 && o == Operator::LOr) || (lvl == 1 && o == Operator::LAnd) || (lvl == 2 && o
                == Operator::BWOr) || (lvl == 3 && o == Operator::BWAnd) || (lvl == 4 && (o == Operator::Eq || o
                == Operator::NEq)) || (lvl == 5 && (o == Operator::G || o == Operator::L || o == Operator::GE || o
                == Operator::LE));
            if !matched {
                return l;
            }
            let _ = pop(tokens);
            let r = self.parse_binary(tokens, lvl + 1);
            l = Expr::Boolean(BinaryOp { left: Box::new(l), op: o, right: Box::new(r) });
        }
    }

    /// Parses sums and differences of terms, or a range that starts with one.
    fn parse_expr(&mut self, tokens: &mut Vec<Token>) -> (r: Expr)
        ensures
            taken_from(final(tokens)@, old(tokens)@),
            final(self).grows_from(&*old(self)),
            old(tokens)@.len() > 0 ==> final(tokens)@.len() < old(tokens)@.len(),
            expr_tree(old(tokens)@) matches Some((e, rest)) ==> r == e && final(tokens)@ == rest,
            lone_arg(old(tokens)@) ==> final(self).rep.messages@ == old(self).rep.messages@ && final(tokens)@ == old(
                tokens,
            )@.drop_last(),
            ops_ok(r),
        decreases old(tokens)@.len(), 9nat,
    {
        let mut l = self.parse_term(tokens);
        loop
            invariant
                taken_from(tokens@, old(tokens)@),
                self.grows_from(&*old(self)),
                old(tokens)@.len() > 0 ==> tokens@.len() < old(tokens)@.len(),
                expr_tree(old(tokens)@) is Some ==> expr_more(l, tokens@) == expr_tree(old(tokens)@),
                ops_ok(l),
                lone_arg(old(tokens)@) ==> self.rep.messages@ == old(self).rep.messages@ && tokens@ == old(
                    tokens,
                )@.drop_last(),
            decreases tokens@.len(),
        {
            let t = match peek(tokens) {
                Some(t) => t,
                None => return l,
            };
            match t.kind {
                TokenKind::Operator(Operator::Add) | TokenKind::Operator(Operator::Sub) => {
                    let o = if matches!(t.kind, TokenKind::Operator(Operator::Add)) { Operator::Add } else { Operator::Sub };
                    let _ = pop(tokens);
                    let r = self.parse_term(tokens);
                    l = Expr::Binary(BinaryOp { left: Box::new(l), op: o, right: Box::new(r) });
                },
                TokenKind::Punctuation(Punctuation::Colon) => {
                    return self.parse_range(l, false, tokens);
                },
                TokenKind::Punctuation(Punctuation::RangeInclusive) => {
                    return self.parse_range(l, true, tokens);
                },
                _ => return l,
            }
        }
    }

    /// Parses products, quotients, remainders and powers of factors.
    fn parse_term(&mut self, tokens: &mut Vec<Token>) -> (r: Expr)
        ensures
            taken_from(final(tokens)@, old(tokens)@),
            final(self).grows_from(&*old(self)),
            old(tokens)@.len() > 0 ==> final(tokens)@.len() < old(tokens)@.len(),
            term_tree(old(tokens)@) matches Some((e, rest)) ==> r == e && final(tokens)@ == rest,
            lone_arg(old(tokens)@) ==> final(self).rep.messages@ == old(self).rep.messages@ && final(tokens)@ == old(
                tokens,
            )@.drop_last(),
            ops_ok(r),
        decreases old(tokens)@.len(), 7nat,
    {
        let mut l = self.parse_factor(tokens);
        loop
            invariant
                taken_from(tokens@, old(tokens)@),
                self.grows_from(&*old(self)),
                old(tokens)@.len() > 0 ==> tokens@.len() < old(tokens)@.len(),
                term_tree(old(tokens)@) is Some ==> term_more(l, tokens@) == term_tree(old(tokens)@),
                ops_ok(l),
                lone_arg(old(tokens)@) ==> self.rep.messages@ == old(self).rep.messages@ && tokens@ == old(
                    tokens,
                )@.drop_last(),
            decreases tokens@.len(),
        {
            let o = match peek(tokens) {
                Some(t) => match t.kind {
                    TokenKind::Operator(o) => o,
                    _ => return l,
                },
                None => return l,
            };
            if o == Operator::Mul || o == Operator::Div || o == Operator::Mod || o == Operator::Pow {
                let _ = pop(tokens);
                let r = self.parse_factor(tokens);
                l = Expr::Binary(BinaryOp { left: Box::new(l), op: o, right: Box::new(r) });
            } else {
                return l;
            }
        }
    }

    /// Parses a factor: a name, a call, an indexing, a literal, a parenthesised
    /// expression, or a negation.
    fn parse_factor(&mut self, tokens: &mut Vec<Token>) -> (r: Expr)
        ensures
            taken_from(final(tokens)@, old(tokens)@),
            final(self).grows_from(&*old(self)),
            old(tokens)@.len() > 0 ==> final(tokens)@.len() < old(tokens)@.len(),
            old(tokens)@.len() == 0 ==> r is Null,
            ops_ok(r),
            factor_tree(old(tokens)@) matches Some((e, rest)) ==> r == e && final(tokens)@ == rest,
            old(tokens)@.len() > 0 ==> factor_form(old(tokens)@.last().kind, old(tokens)@.drop_last(), r),
            old(tokens)@.len() > 0 && (lone_factor(old(tokens)@.last().kind, old(tokens)@.drop_last())
                || !starts_factor(old(tokens)@.last().kind)) ==> final(tokens)@ == old(tokens)@.drop_last(),
            old(tokens)@.len() > 0 && lone_factor(old(tokens)@.last().kind, old(tokens)@.drop_last())
                ==> final(self).rep.messages@ == old(self).rep.messages@,
            old(tokens)@.len() > 0 && !starts_factor(old(tokens)@.last().kind) ==> ({
                let t = old(tokens)@.last();
                let e = final(self).rep.messages@.last();
                &&& final(self).rep.messages@.len() == old(self).rep.messages@.len() + 1
                &&& e.kind == Kind::UnexpectedToken(t)
                &&& e.line == Some(t.line) && e.col == Some(t.column)
            }),
        decreases old(tokens)@.len(), 6nat,
    {
        let t = match pop(tokens) {
            Some(t) => t,
            None => return Expr::Null,
        };
        match &t.kind {
            TokenKind::Identifier(id) => {
                let id = id.clone();
                if next_is_punct(tokens, Punctuation::LParen) {
                    let args = self.parse_args(tokens);
                    Expr::Call(id, args)
                } else if next_is_punct(tokens, Punctuation::LBracket) {
                    let _ = pop(tokens);
                    let idx = self.parse_binary(tokens, 0);
                    if next_is_punct(tokens, Punctuation::RBracket) {
                        let _ = pop(tokens);
                    }
                    Expr::Index(id, Box::new(idx))
                } else {
                    Expr::Identifier(id)
                }
            },
            TokenKind::Value(ValueKind::String(val)) => Expr::StringLiteral(val.clone()),
            TokenKind::Value(ValueKind::Numeric(val)) => Expr::Literal(val.clone()),
            TokenKind::Punctuation(Punctuation::LParen) => {
                let inner = self.parse_binary(tokens, 0);
                let hint = concat3("Try writing ", bright_blue_bold(")").as_str(), " to close the grouped expression.");
                if tokens.len() > 0 {
                    if next_is_punct(tokens, Punctuation::RParen) {
                        let _ = pop(tokens);
                    } else if next_is_punct(tokens, Punctuation::SemiColon) {
                        let _ = pop(tokens);
                        return Expr::Grouped(Box::new(inner));
                    } else {
                        let e = error_at(Kind::UnclosedParenthesis, &t, hint.as_str());
                        self.report(e);
                    }
                } else {
                    let e = error_at(Kind::UnclosedParenthesis, &t, hint.as_str());
                    self.report(e);
                }
                Expr::Grouped(Box::new(inner))
            },
            TokenKind::Operator(Operator::LNot) => {
                let right = self.parse_factor(tokens);
                Expr::Unary(Unary { op: Operator::LNot, right: Box::new(right) })
            },
            TokenKind::Operator(Operator::Sub) => {
                let right = self.parse_factor(tokens);
                Expr::Unary(Unary { op: Operator::Sub, right: Box::new(right) })
            },
            TokenKind::Char(c) => Expr::CharLiteral(*c),
            _ => {
                let e = error_at(
                    Kind::UnexpectedToken(t.clone()),
                    &t,
                    "Try writing a valid expression here, like a binary expression, a boolean expression, an identifier, a literal or a range.",
                );
                self.report(e);
                Expr::Null
            },
        }
    }

    /// Parses a list literal: `[size](v, v; v, v)`, rows separated by `;`.
    fn parse_list_literal(&mut self, tokens: &mut Vec<Token>) -> (r: (Expr, Option<Vec<Vec<Value>>>))
        ensures
            taken_from(final(tokens)@, old(tokens)@),
            final(self).grows_from(&*old(self)),
            r.1 is Some,
        decreases old(tokens)@.len(), 19nat,
    {
        let mut size = Expr::Null;
        let mut val: Vec<Vec<Value>> = Vec::new();
        let mut col: Vec<Value> = Vec::new();
        let _ = pop(tokens);  // '['
        match peek(tokens) {
            Some(t) => match t.kind {
                TokenKind::Identifier(_) | TokenKind::Value(_) => {
                    size = self.parse_binary(tokens, 0);
                },
                _ => {},
            },
            None => {},
        }
        let _ = pop(tokens);  // ']'
        loop
            invariant
                taken_from(tokens@, old(tokens)@),
                self.grows_from(&*old(self)),
                old(tokens)@.len() > 0 ==> tokens@.len() < old(tokens)@.len(),
            decreases tokens@.len(),
        {
            let before = tokens.len();
            let t = match peek(tokens) {
                Some(t) => t,
                None => break,  // out of tokens: the same round would repeat forever
            };
            match &t.kind {
                TokenKind::Punctuation(Punctuation::LParen) | TokenKind::Punctuation(Punctuation::Comma) => {
                    let _ = pop(tokens);
                },
                TokenKind::Punctuation(Punctuation::RParen) => {
                    let _ = pop(tokens);
                    if col.len() > 0 {
                        val.push(col);
                        col = Vec::new();
                    }
                    break;
                },
                TokenKind::Punctuation(Punctuation::SemiColon) => {
                    let _ = pop(tokens);
                    if col.len() > 0 {
                        val.push(col);
                        col = Vec::new();
                    }
                },
                TokenKind::Identifier(_) | TokenKind::Value(_) | TokenKind::Punctuation(Punctuation::Quote)
                | TokenKind::Char(_) => {
                    let v = self.parse_value(tokens);
                    col.push(v);
                },
                _ => {
                    break;
                },
            }
            assert(tokens@.len() < before);
        }
        (size, Some(val))
    }

    /// Parses a function after `fun`: its name, parameters, return type and body. A
    /// function named `main` is the entry point.
    fn parse_function(&mut self, tokens: &mut Vec<Token>, public: bool) -> (r: FunKind)
        ensures
            taken_from(final(tokens)@, old(tokens)@),
            final(self).grows_from(&*old(self)),
            match r {
                FunKind::Entry(f) => f.public == public && f.id@ == "main"@ && !f.lambda,
                FunKind::Custom(f) => f.public == public && f.id@ != "main"@ && !f.lambda,
                FunKind::Extern(_) => false,
            },
            old(tokens)@.len() == 0 ==> (r matches FunKind::Custom(f) && f.id@.len() == 0),
            old(tokens)@.len() > 0 ==> match old(tokens)@.last().kind {
                TokenKind::Identifier(n) => match r {
                    FunKind::Entry(f) => f.id@ == n@,
                    FunKind::Custom(f) => f.id@ == n@,
                    FunKind::Extern(_) => false,
                },
                _ => {
                    &&& r matches FunKind::Custom(f) && f.id@.len() == 0
                    &&& final(self).rep.messages@.len() > old(self).rep.messages@.len()
                    &&& final(self).rep.messages@[old(self).rep.messages@.len() as int].kind == Kind::ExpectedFunctionName
                },
            },
            old(tokens)@.len() > 0 && old(tokens)@.last().kind is Identifier ==> (fun_sig(old(tokens)@.drop_last())
                matches Some((ps, ret, rest)) ==> final(tokens)@ == rest && final(self).rep == old(self).rep
                && match r {
                FunKind::Entry(f) => params_are(f.params@, ps) && f.ret == ret && f.body@.len() == 0,
                FunKind::Custom(f) => params_are(f.params@, ps) && f.ret == ret && f.body@.len() == 0,
                FunKind::Extern(_) => false,
            }),
            old(tokens)@.len() > 0 && old(tokens)@.last().kind is Identifier ==> (fun_head(old(tokens)@.drop_last())
                matches Some((ps, ret, r2)) ==> (next_is(r2, Punctuation::LBrace) ==> match r {
                FunKind::Entry(f) => params_are(f.params@, ps) && f.ret == ret && (plain_stmts_from(
                    r2.drop_last(),
                    false,
                ) matches Some(ss) ==> f.body@.len() == ss.len() && forall|k: int|
                    0 <= k < ss.len() ==> stmt_is(#[trigger] f.body@[k], ss[k])),
                FunKind::Custom(f) => params_are(f.params@, ps) && f.ret == ret && (plain_stmts_from(
                    r2.drop_last(),
                    false,
                ) matches Some(ss) ==> f.body@.len() == ss.len() && forall|k: int|
                    0 <= k < ss.len() ==> stmt_is(#[trigger] f.body@[k], ss[k])),
                FunKind::Extern(_) => false,
            })),
    {
        let ghost first = self.rep.messages@.len();
        let id = match pop(tokens) {
            Some(t) => match &t.kind {
                TokenKind::Identifier(s) => s.clone(),
                _ => {
                    let e = error_at(
                        Kind::ExpectedFunctionName,
                        &t,
                        "Try typing a name without numbers or special characters as first character!",
                    );
                    self.report(e);
                    String::new()
                },
            },
            None => String::new(),
        };
        let ghost named = old(tokens)@.len() > 0 && old(tokens)@.last().kind is Identifier;
        assert(!named && old(tokens)@.len() > 0 ==> self.rep.messages@.len() > first
            && self.rep.messages@[first as int].kind == Kind::ExpectedFunctionName);
        proof {
            reveal_strlit("main");
            assert("main"@.len() == 4);
        }
        let main = str_eq(id.as_str(), "main");
        let mut params: Vec<VarDecl> = Vec::new();
        let mut ret = Type::Void;
        let mut body: Vec<Items> = Vec::new();
        let ghost mid = self.rep.messages@;
        let ghost after = old(tokens)@.drop_last();
        let ghost sig = if named {
            fun_sig(after)
        } else {
            None
        };
        let ghost head = if named {
            fun_head(after)
        } else {
            None
        };
        let ghost ends = head matches Some((ps, ret_t, r2)) && (next_is(r2, Punctuation::SemiColon) || next_is(
            r2,
            Punctuation::LBrace,
        ));
        loop
            invariant_except_break
                ends ==> self.rep == old(self).rep && body@.len() == 0 && ((tokens@ == after && params@.len() == 0
                    && ret == Type::Void) || (tokens@ == params_from(after.drop_last()).unwrap().1 && params_are(
                    params@,
                    head.unwrap().0,
                ) && ret == Type::Void) || (tokens@ == head.unwrap().2 && params_are(params@, head.unwrap().0) && ret
                    == head.unwrap().1)),
            invariant
                taken_from(tokens@, old(tokens)@),
                self.grows_from(&*old(self)),
                prefix_of(mid, self.rep.messages@),
                !named && old(tokens)@.len() > 0 ==> mid.len() > first && mid[first as int].kind
                    == Kind::ExpectedFunctionName,
                after == old(tokens)@.drop_last(),
                sig == (if named {
                    fun_sig(after)
                } else {
                    None
                }),
                head == (if named {
                    fun_head(after)
                } else {
                    None
                }),
                ends == (head matches Some((ps, ret_t, r2)) && (next_is(r2, Punctuation::SemiColon) || next_is(
                    r2,
                    Punctuation::LBrace,
                ))),
            ensures
                taken_from(tokens@, old(tokens)@),
                self.grows_from(&*old(self)),
                prefix_of(mid, self.rep.messages@),
                !named && old(tokens)@.len() > 0 ==> mid.len() > first && mid[first as int].kind
                    == Kind::ExpectedFunctionName,
                sig matches Some((ps, ret_t, rest)) ==> self.rep == old(self).rep && body@.len() == 0 && tokens@
                    == rest && params_are(params@, ps) && ret == ret_t,
                head matches Some((ps, ret_t, r2)) ==> (next_is(r2, Punctuation::LBrace) ==> params_are(params@, ps)
                    && ret == ret_t && (plain_stmts_from(r2.drop_last(), false) matches Some(ss) ==> body@.len()
                    == ss.len() && forall|k: int| 0 <= k < ss.len() ==> stmt_is(#[trigger] body@[k], ss[k]))),
            decreases tokens@.len(),
        {
            let ghost round = self.rep.messages@;
            let before = tokens.len();
            if next_is_punct(tokens, Punctuation::LParen) {
                params = self.parse_params(tokens);
                proof {
                    crate::lexer::lemma_prefix_trans(mid, round, self.rep.messages@);
                }
            } else if next_is_punct(tokens, Punctuation::Colon) {
                let _ = pop(tokens);
                match pop(tokens) {
                    Some(t) => {
                        if let TokenKind::Type(ty) = &t.kind {
                            ret = ty.clone();
                        }
                    },
                    None => {},
                }
            } else if next_is_punct(tokens, Punctuation::LBrace) {
                let _ = pop(tokens);
                body = self.parse_block(tokens, false);
                proof {
                    crate::lexer::lemma_prefix_trans(mid, round, self.rep.messages@);
                }
                break;
            } else if next_is_punct(tokens, Punctuation::SemiColon) || next_is_punct(tokens, Punctuation::RBrace) {
                let _ = pop(tokens);
                break;
            } else {
                break;
            }
            assert(tokens@.len() < before);
        }
        if main {
            FunKind::Entry(Function { public, lambda: false, id: owned("main"), params, ret, body })
        } else {
            FunKind::Custom(Function { public, lambda: false, id, params, ret, body })
        }
    }

    /// Parses a parameter list `(a: t, mut b: t, ...)`.
    fn parse_params(&mut self, tokens: &mut Vec<Token>) -> (r: Vec<VarDecl>)
        ensures
            taken_from(final(tokens)@, old(tokens)@),
            final(self).grows_from(&*old(self)),
            old(tokens)@.len() > 0 ==> final(tokens)@.len() < old(tokens)@.len(),
            old(tokens)@.len() > 0 ==> (params_from(old(tokens)@.drop_last()) matches Some((ps, rest)) ==> params_are(
                r@,
                ps,
            ) && final(tokens)@ == rest && final(self).rep == old(self).rep),
    {
        let mut params: Vec<VarDecl> = Vec::new();
        let _ = pop(tokens);  // '('
        let ghost all = if old(tokens)@.len() > 0 {
            params_from(old(tokens)@.drop_last())
        } else {
            None
        };
        let ghost mut done: Seq<(Seq<char>, Type, bool)> = Seq::empty();
        loop
            invariant_except_break
                all matches Some((ps, rest)) ==> params_from(tokens@) matches Some((qs, left)) && done + qs == ps
                    && left == rest && params_are(params@, done) && self.rep == old(self).rep,
            invariant
                taken_from(tokens@, old(tokens)@),
                self.grows_from(&*old(self)),
                old(tokens)@.len() > 0 ==> tokens@.len() < old(tokens)@.len(),
                all == (if old(tokens)@.len() > 0 {
                    params_from(old(tokens)@.drop_last())
                } else {
                    None
                }),
            ensures
                taken_from(tokens@, old(tokens)@),
                self.grows_from(&*old(self)),
                old(tokens)@.len() > 0 ==> tokens@.len() < old(tokens)@.len(),
                all matches Some((ps, rest)) ==> params_are(params@, ps) && tokens@ == rest && self.rep == old(
                    self,
                ).rep,
            decreases tokens@.len(),
        {
            let before = tokens.len();
            let ghost s0 = tokens@;
            if tokens.len() == 0 {
                break;
            } else if next_is_punct(tokens, Punctuation::RParen) {
                let _ = pop(tokens);
                proof {
                    if all is Some {
                        assert(done + Seq::<(Seq<char>, Type, bool)>::empty() =~= done);
                    }
                }
                break;
            } else if next_is_punct(tokens, Punctuation::Comma) {
                let _ = pop(tokens);
            } else {
                let mut par = Parallelism::Sequential;
                let mut mutable = false;
                loop
                    invariant
                        taken_from(tokens@, old(tokens)@),
                        tokens@.len() <= before,
                        before == s0.len(),
                        all is Some && params_from(s0) is Some && !next_is(s0, Punctuation::RParen) ==> par
                            == Parallelism::Sequential && ((tokens@ == s0 && !mutable) || (tokens@ == s0.drop_last()
                            && s0.last().kind == TokenKind::Keyword(Keyword::Mut) && mutable)),
                    ensures
                        taken_from(tokens@, old(tokens)@),
                        tokens@.len() <= before,
                        all is Some && params_from(s0) is Some && !next_is(s0, Punctuation::RParen) ==> par
                            == Parallelism::Sequential && ((tokens@ == s0 && !mutable) || (tokens@ == s0.drop_last()
                            && s0.last().kind == TokenKind::Keyword(Keyword::Mut) && mutable)),
                        tokens@.len() > 0 ==> tokens@.last().kind != TokenKind::Keyword(Keyword::Mut),
                    decreases tokens@.len(),
                {
                    if next_is_keyword(tokens, Keyword::Mut) {
                        mutable = true;
                        let _ = pop(tokens);
                    } else if next_is_keyword(tokens, Keyword::PAR) {
                        par = Parallelism::CPU;
                        let _ = pop(tokens);
                    } else if next_is_keyword(tokens, Keyword::GPU) {
                        par = Parallelism::GPU;
                        let _ = pop(tokens);
                    } else {
                        break;
                    }
                }
                let ghost s1 = tokens@;
                proof {
                    if all is Some {
                        assert(params_from(s0) is Some);
                        assert(s1.len() > 0 ==> s1.last().kind != TokenKind::Keyword(Keyword::Mut));
                        assert(mutable == (s0.last().kind == TokenKind::Keyword(Keyword::Mut)));
                        assert(param_decl(s1) is Some);
                    }
                }
                let p = self.parse_var_decl(par, mutable, tokens);
                let ghost p0 = params@;
                params.push(p);
                proof {
                    if all is Some {
                        let (n, ty, comma) = param_decl(s1).unwrap();
                        assert(tokens@ == s1.take(s1.len() - param_len(comma)));
                        assert(params_from(tokens@) is Some);
                        let qs = params_from(s0).unwrap().0;
                        let qs2 = params_from(tokens@).unwrap().0;
                        assert(params_from(s0).unwrap().1 == params_from(tokens@).unwrap().1);
                        assert(qs =~= seq![(n, ty, mutable)] + qs2);
                        let d0 = done;
                        done = done.push((n, ty, mutable));
                        assert(done + qs2 =~= d0 + qs);
                        assert forall|k: int| 0 <= k < done.len() implies param_is(#[trigger] params@[k], done[k]) by {
                            if k < d0.len() {
                                assert(params@[k] == p0[k]);
                            }
                        }
                    }
                }
            }
            if tokens.len() >= before {
                // Nothing was consumed: the same round would repeat forever.
                break;
            }
        }
        params
    }

    /// Parses the statements of a block, up to its `}` (left for the caller).
    #[verifier::rlimit(100)]
    #[verifier::spinoff_prover]
    fn parse_block(&mut self, tokens: &mut Vec<Token>, top_level: bool) -> (r: Vec<Items>)
        ensures
            taken_from(final(tokens)@, old(tokens)@),
            final(self).grows_from(&*old(self)),
            old(tokens)@.len() == 0 ==> r@.len() == 0,
            !top_level && next_is(old(tokens)@, Punctuation::RBrace) ==> r@.len() == 0 && final(tokens)@ == old(
                tokens,
            )@ && final(self).rep == old(self).rep,
            opens_with_stmt(old(tokens)@) ==> r@.len() > 0 && first_stmt(old(tokens)@, r@[0]),
            !top_level ==> (plain_stmts_from(old(tokens)@, false) matches Some(ss) ==> r@.len() == ss.len() && forall|
                k: int,
            |
                0 <= k < ss.len() ==> stmt_is(#[trigger] r@[k], ss[k])),
            !top_level && plain_stmts_from(old(tokens)@, false) is Some ==> final(tokens)@ == plain_stmts_left(
                old(tokens)@,
                false,
            ),
        decreases old(tokens)@.len(), 30nat,
    {
        let mut mutable = false;
        let mut par = Parallelism::Sequential;
        let mut stmts: Vec<Items> = Vec::new();
        let ghost total = tokens@.len();
        let ghost all = plain_stmts_from(old(tokens)@, false);
        let ghost mut done: Seq<(int, Seq<char>, Type, bool, Expr, bool)> = Seq::empty();
        loop
            invariant
                all == plain_stmts_from(old(tokens)@, false),
                !top_level && all is Some ==> {
                    &&& par == Parallelism::Sequential
                    &&& stmts@.len() == done.len()
                    &&& forall|k: int| 0 <= k < done.len() ==> stmt_is(#[trigger] stmts@[k], done[k])
                    &&& plain_stmts_from(tokens@, mutable) is Some
                    &&& done + plain_stmts_from(tokens@, mutable).unwrap() == all.unwrap()
                    &&& plain_stmts_left(tokens@, mutable) == plain_stmts_left(old(tokens)@, false)
                },
                taken_from(tokens@, old(tokens)@),
                self.grows_from(&*old(self)),
                total == old(tokens)@.len(),
                tokens@.len() == total ==> tokens@ == old(tokens)@ && stmts@.len() == 0 && !mutable && par
                    == Parallelism::Sequential && self.rep == old(self).rep,
                !top_level && next_is(old(tokens)@, Punctuation::RBrace) ==> tokens@.len() == total,
                tokens@.len() < total && opens_with_stmt(old(tokens)@) ==> stmts@.len() > 0 && first_stmt(
                    old(tokens)@,
                    stmts@[0],
                ),
                stmts@.len() > 0 ==> tokens@.len() < total,
            ensures
                taken_from(tokens@, old(tokens)@),
                self.grows_from(&*old(self)),
                old(tokens)@.len() == 0 ==> stmts@.len() == 0,
                !top_level && next_is(old(tokens)@, Punctuation::RBrace) ==> stmts@.len() == 0 && tokens@ == old(
                    tokens,
                )@ && self.rep == old(self).rep,
                opens_with_stmt(old(tokens)@) ==> stmts@.len() > 0 && first_stmt(old(tokens)@, stmts@[0]),
                !top_level && all is Some ==> stmts@.len() == all.unwrap().len() && forall|k: int|
                    0 <= k < all.unwrap().len() ==> stmt_is(#[trigger] stmts@[k], all.unwrap()[k]),
                !top_level && all is Some ==> tokens@ == plain_stmts_left(old(tokens)@, false),
            decreases tokens@.len(),
        {
            let ghost stack = tokens@;
            let ghost st0 = stmts@;
            let before = tokens.len();
            let t = match pop(tokens) {
                Some(t) => t,
                None => {
                    proof {
                        if !top_level && all is Some {
                            assert(done + Seq::<(int, Seq<char>, Type, bool, Expr, bool)>::empty() =~= done);
                        }
                    }
                    break;
                },
            };
            match &t.kind {
                TokenKind::Keyword(Keyword::GPU) => {
                    par = Parallelism::GPU;
                },
                TokenKind::Keyword(Keyword::PAR) => {
                    par = Parallelism::CPU;
                },
                TokenKind::Keyword(Keyword::Mut) => {
                    mutable = true;
                },
                TokenKind::Keyword(Keyword::Var) => {
                    let ghost pend = mutable;
                    let d = self.parse_var_decl(par, mutable, tokens);
                    stmts.push(Items::Var(Var::Decl(d)));
                    par = Parallelism::Sequential;
                    mutable = false;
                    proof {
                        if !top_level && all is Some {
                            let rem = plain_stmts_from(stack, pend).unwrap();
                            let rem2 = plain_stmts_from(tokens@, false).unwrap();
                            assert(rem =~= seq![rem[0]] + rem2);
                            let d0 = done;
                            done = done.push(rem[0]);
                            assert(done + rem2 =~= d0 + rem);
                            assert forall|k: int| 0 <= k < done.len() implies stmt_is(#[trigger] stmts@[k], done[k]) by {
                                if k < d0.len() {
                                    assert(stmts@[k] == st0[k]);
                                }
                            }
                        }
                    }
                },
                TokenKind::Keyword(Keyword::Fun) if !top_level => {
                    let hint = concat3(
                        "Write a valid statement, like variable declarations, if-else statement, loop...\n\tYour nice function can't be declared inside a code block: \"",
                        bright_blue_bold("{").as_str(),
                        " ... ",
                    );
                    let hint = concat3(hint.as_str(), bright_blue_bold("}").as_str(), "\"!");
                    let e = error_at(Kind::UnsupportedStatement, &t, hint.as_str());
                    self.report(e);
                },
                TokenKind::Keyword(Keyword::Ret) if !top_level => {
                    let v = self.parse_value(tokens);
                    stmts.push(Items::Ret(v));
                    proof {
                        if all is Some {
                            let rem = plain_stmts_from(stack, mutable).unwrap();
                            let rem2 = plain_stmts_from(tokens@, mutable).unwrap();
                            assert(rem =~= seq![rem[0]] + rem2);
                            let d0 = done;
                            done = done.push(rem[0]);
                            assert(done + rem2 =~= d0 + rem);
                            assert forall|k: int| 0 <= k < done.len() implies stmt_is(#[trigger] stmts@[k], done[k]) by {
                                if k < d0.len() {
                                    assert(stmts@[k] == st0[k]);
                                }
                            }
                        }
                    }
                },
                TokenKind::Keyword(Keyword::If) => {
                    let i = self.parse_if(tokens, false);
                    stmts.push(Items::Expr(Value::IfElse(i)));
                },
                TokenKind::Keyword(Keyword::Loop) => {
                    let l = self.parse_loop(tokens);
                    stmts.push(Items::Expr(Value::Loop(l)));
                },
                TokenKind::Keyword(Keyword::Stop) => {
                    stmts.push(Items::Stop);
                    proof {
                        if !top_level && all is Some {
                            let rem = plain_stmts_from(stack, mutable).unwrap();
                            let rem2 = plain_stmts_from(tokens@, mutable).unwrap();
                            assert(rem =~= seq![rem[0]] + rem2);
                            let d0 = done;
                            done = done.push(rem[0]);
                            assert(done + rem2 =~= d0 + rem);
                            assert forall|k: int| 0 <= k < done.len() implies stmt_is(#[trigger] stmts@[k], done[k]) by {
                                if k < d0.len() {
                                    assert(stmts@[k] == st0[k]);
                                }
                            }
                        }
                    }
                },
                TokenKind::Keyword(Keyword::Skip) => {
                    stmts.push(Items::Skip);
                    proof {
                        if !top_level && all is Some {
                            let rem = plain_stmts_from(stack, mutable).unwrap();
                            let rem2 = plain_stmts_from(tokens@, mutable).unwrap();
                            assert(rem =~= seq![rem[0]] + rem2);
                            let d0 = done;
                            done = done.push(rem[0]);
                            assert(done + rem2 =~= d0 + rem);
                            assert forall|k: int| 0 <= k < done.len() implies stmt_is(#[trigger] stmts@[k], done[k]) by {
                                if k < d0.len() {
                                    assert(stmts@[k] == st0[k]);
                                }
                            }
                        }
                    }
                },
                TokenKind::Keyword(_) => {
                    let e = error_at(
                        Kind::UnsupportedStatement,
                        &t,
                        "Write a valid statement, like variable declarations, if-else statement, loop...\n\tNot function/class/interface declaration!",
                    );
                    self.report(e);
                    break;
                },
                TokenKind::Identifier(id) => {
                    let id = id.clone();
                    if next_is_punct(tokens, Punctuation::LParen) {
                        let params = self.parse_args(tokens);
                        stmts.push(Items::Expr(Value::Call(id, params)));
                    } else if next_is_punct(tokens, Punctuation::LBracket) {
                        let (indices, values) = self.parse_list(tokens);
                        stmts.push(Items::Expr(Value::List(List::Use(id, indices, values))));
                    } else {
                        push_back(tokens, t);
                        assert(tokens@ =~= stack);
                        let v = self.parse_var(tokens);
                        stmts.push(Items::Var(Var::Var(v)));
                        proof {
                            if !top_level && all is Some {
                                assert(tokens@.len() < stack.len());
                                let rem = plain_stmts_from(stack, mutable).unwrap();
                                let rem2 = plain_stmts_from(tokens@, mutable).unwrap();
                                assert(rem =~= seq![rem[0]] + rem2);
                                let d0 = done;
                                done = done.push(rem[0]);
                                assert(done + rem2 =~= d0 + rem);
                                assert forall|k: int| 0 <= k < done.len() implies stmt_is(#[trigger] stmts@[k], done[k]) by {
                                    if k < d0.len() {
                                        assert(stmts@[k] == st0[k]);
                                    }
                                }
                            }
                        }
                    }
                },
                TokenKind::Punctuation(Punctuation::LBrace) => {
                    let b = self.parse_block(tokens, false);
                    stmts.push(Items::Expr(Value::Block(Type::Void, b)));
                    if next_is_punct(tokens, Punctuation::RBrace) {
                        let _ = pop(tokens);
                    }
                },
                TokenKind::Punctuation(Punctuation::RBrace) if !top_level => {
                    push_back(tokens, t);
                    proof {
                        if all is Some {
                            assert(tokens@ =~= stack);
                            assert(done + Seq::<(int, Seq<char>, Type, bool, Expr, bool)>::empty() =~= done);
                        }
                    }
                    break;
                },
                _ => {},
            }
            if tokens.len() >= before {
                // Nothing was consumed: the same round would repeat forever.
                break;
            }
        }
        stmts
    }

    /// Parses the arguments of a call: `(v, v, ...)`.
    fn parse_args(&mut self, tokens: &mut Vec<Token>) -> (r: Vec<Value>)
        ensures
            taken_from(final(tokens)@, old(tokens)@),
            final(self).grows_from(&*old(self)),
            old(tokens)@.len() > 0 ==> final(tokens)@.len() < old(tokens)@.len(),
            old(tokens)@.len() > 0 ==> (args_rest(old(tokens)@.drop_last(), Seq::empty()) matches Some((vs, rest))
                ==> r@ == vs && final(tokens)@ == rest),
            old(tokens)@.len() > 0 && lone_args(old(tokens)@.drop_last()) ==> final(self).rep.messages@ == old(
                self,
            ).rep.messages@,
        decreases old(tokens)@.len(), 5nat,
    {
        let mut vals: Vec<Value> = Vec::new();
        let tok = pop(tokens);  // '('
        let ghost full = args_rest(tokens@, Seq::empty());
        proof {
            assert(vals@ =~= Seq::<Value>::empty());
        }
        loop
            invariant_except_break
                full is Some ==> args_rest(tokens@, vals@) == full,
                old(tokens)@.len() > 0 && lone_args(old(tokens)@.drop_last()) ==> lone_args(tokens@),
            invariant
                taken_from(tokens@, old(tokens)@),
                self.grows_from(&*old(self)),
                old(tokens)@.len() > 0 ==> tokens@.len() < old(tokens)@.len(),
                old(tokens)@.len() > 0 ==> full == args_rest(old(tokens)@.drop_last(), Seq::empty()),
                old(tokens)@.len() > 0 && lone_args(old(tokens)@.drop_last()) ==> self.rep.messages@ == old(
                    self,
                ).rep.messages@,
            ensures
                taken_from(tokens@, old(tokens)@),
                self.grows_from(&*old(self)),
                old(tokens)@.len() > 0 ==> tokens@.len() < old(tokens)@.len(),
                full matches Some((vs, rest)) ==> vals@ == vs && tokens@ == rest,
                old(tokens)@.len() > 0 && lone_args(old(tokens)@.drop_last()) ==> self.rep.messages@ == old(
                    self,
                ).rep.messages@,
            decreases tokens@.len(),
        {
            let ghost cur = tokens@;
            let ghost v0 = vals@;
            let before = tokens.len();
            if tokens.len() > 0 {
                if next_is_punct(tokens, Punctuation::RParen) {
                    let _ = pop(tokens);
                    break;
                }
            } else {
                match &tok {
                    Some(t) => {
                        let hint = concat3("Try writing ", bright_blue_bold(")").as_str(), " to close the parameters list.");
                        let e = error_at(Kind::UnclosedParenthesis, t, hint.as_str());
                        self.report(e);
                    },
                    None => {},
                }
                break;
            }
            let v = self.parse_value(tokens);
            if matches!(v, Value::Null) {
                break;
            }
            vals.push(v);
            if next_is_punct(tokens, Punctuation::Comma) {
                let _ = pop(tokens);
            }
            proof {
                if full is Some {
                    assert(vals@ == v0.push(v));
                }
            }
            if tokens.len() >= before {
                // Nothing was consumed: the same round would repeat forever.
                break;
            }
        }
        vals
    }

    /// Parses an `if` after its keyword: condition, body, and the `else` or `else if`
    /// that may follow. For an `else` (`is_else`), no condition is read.
    fn parse_if(&mut self, tokens: &mut Vec<Token>, is_else: bool) -> (r: IfElse)
        ensures
            taken_from(final(tokens)@, old(tokens)@),
            final(self).grows_from(&*old(self)),
            r.ret is None,
            is_else ==> r.cond is None,
            old(tokens)@.len() == 0 || if_stops(old(tokens)@.last().kind, is_else) ==> {
                &&& r.cond is None
                &&& r.body@.len() == 0
                &&& r.elif is None
                &&& final(tokens)@ == old(tokens)@
            },
            next_is(old(tokens)@, Punctuation::RBrace) ==> {
                &&& r.cond is None
                &&& r.body@.len() == 0
                &&& (r.elif is Some <==> else_follows(old(tokens)@, is_else))
                &&& else_follows(old(tokens)@, is_else) && old(tokens)@[old(tokens)@.len() - 3].kind != TokenKind::Keyword(
                    Keyword::If,
                ) ==> r.elif.unwrap().cond is None
                &&& is_else || !else_next(old(tokens)@) ==> final(tokens)@ == old(tokens)@.drop_last()
            },
            !is_else && old(tokens)@.len() > 0 && cond_starter(old(tokens)@.last().kind) ==> r.cond is Some,
            next_is(old(tokens)@, Punctuation::LBrace) && opens_with_stmt(old(tokens)@.drop_last()) ==> r.body@.len()
                > 0 && first_stmt(old(tokens)@.drop_last(), r.body@[0]),
        decreases old(tokens)@.len(), 30nat,
    {
        let mut cond: Option<Box<Value>> = None;
        let mut body: Vec<Items> = Vec::new();
        let mut elif: Option<Box<IfElse>> = None;
        let ghost mut ff: Option<Seq<Token>> = None;
        let ghost o = old(tokens)@;
        loop
            invariant_except_break
                tokens@ == o ==> cond is None && body@.len() == 0 && elif is None && ff is None,
                elif is None,
                next_is(o, Punctuation::RBrace) ==> tokens@ == o,
            invariant
                taken_from(tokens@, old(tokens)@),
                self.grows_from(&*old(self)),
                o == old(tokens)@,
                is_else ==> cond is None,
                ff is None ==> body@.len() == 0,
                ff matches Some(f) ==> (opens_with_stmt(f) ==> body@.len() > 0 && first_stmt(f, body@[0])),
                next_is(o, Punctuation::LBrace) && tokens@ != o ==> ff == Some(o.drop_last()),
                !is_else && o.len() > 0 && cond_starter(o.last().kind) && tokens@ != o ==> cond is Some,
                next_is(o, Punctuation::RBrace) && tokens@ != o ==> cond is None && body@.len() == 0,
                o.len() == 0 || if_stops(o.last().kind, is_else) ==> tokens@ == o,
            ensures
                taken_from(tokens@, old(tokens)@),
                self.grows_from(&*old(self)),
                is_else ==> cond is None,
                o.len() == 0 || if_stops(o.last().kind, is_else) ==> cond is None && body@.len() == 0 && elif is None
                    && tokens@ == o,
                next_is(o, Punctuation::RBrace) ==> {
                    &&& cond is None
                    &&& body@.len() == 0
                    &&& (elif is Some <==> else_follows(o, is_else))
                    &&& else_follows(o, is_else) && o[o.len() - 3].kind != TokenKind::Keyword(Keyword::If)
                        ==> elif.unwrap().cond is None
                    &&& is_else || !else_next(o) ==> tokens@ == o.drop_last()
                },
                !is_else && o.len() > 0 && cond_starter(o.last().kind) ==> cond is Some,
                next_is(o, Punctuation::LBrace) && opens_with_stmt(o.drop_last()) ==> body@.len() > 0 && first_stmt(
                    o.drop_last(),
                    body@[0],
                ),
            decreases tokens@.len(),
        {
            let before = tokens.len();
            let ghost cur = tokens@;
            let t = match peek(tokens) {
                Some(t) => t,
                None => break,
            };
            match &t.kind {
                TokenKind::Punctuation(Punctuation::LParen) | TokenKind::Operator(_) | TokenKind::Value(_)
                | TokenKind::Identifier(_) => {
                    if is_else {
                        break;
                    }
                    let v = self.parse_value(tokens);
                    cond = Some(Box::new(v));
                },
                TokenKind::Punctuation(Punctuation::LBrace) => {
                    let _ = pop(tokens);
                    let ghost given = tokens@;
                    let mut more = self.parse_block(tokens, false);
                    proof {
                        if ff is None {
                            ff = Some(given);
                        }
                    }
                    let ghost b0 = body@;
                    body.append(&mut more);
                    proof {
                        if b0.len() > 0 {
                            assert(body@[0] == b0[0]);
                        }
                    }
                },
                TokenKind::Punctuation(Punctuation::RBrace) => {
                    let _ = pop(tokens);
                    if next_is_keyword(tokens, Keyword::Else) {
                        if is_else {
                            break;
                        }
                        let _ = pop(tokens);
                        let mut next_is_else = true;
                        if tokens.len() > 0 {
                            if next_is_keyword(tokens, Keyword::If) {
                                let _ = pop(tokens);
                                next_is_else = false;
                            }
                        } else {
                            break;
                        }
                        let e = self.parse_if(tokens, next_is_else);
                        elif = Some(Box::new(e));
                        break;
                    } else {
                        break;
                    }
                },
                _ => {
                    break;
                },
            }
            if tokens.len() >= before {
                // Nothing was consumed: the same round would repeat forever.
                break;
            }
        }
        IfElse { cond, body, elif, ret: None }
    }

    /// Parses a loop after its keyword: `i in range`, a condition, or nothing; then its
    /// body. A loop over an expression gets a `u32` counter declaration.
    fn parse_loop(&mut self, tokens: &mut Vec<Token>) -> (r: Loop)
        ensures
            taken_from(final(tokens)@, old(tokens)@),
            final(self).grows_from(&*old(self)),
            r.cond matches Some(d) ==> (d.ty == Type::Numeric(Numeric::U32) && (d.val matches Some(v) && v is Expression)),
            old(tokens)@.len() == 0 ==> r.cond is None && r.body@.len() == 0 && final(tokens)@ == old(tokens)@,
            old(tokens)@.len() > 0 && loop_stops(old(tokens)@.last().kind) ==> r.cond is None && r.body@.len() == 0
                && final(tokens)@ == old(tokens)@.drop_last(),
            loop_plain(old(tokens)@) ==> {
                let (id, e, rest) = loop_header(old(tokens)@).unwrap();
                &&& r.cond matches Some(d) && d.id@ == id && d.val == Some(Value::Expression(e)) && d.par
                    == Parallelism::Sequential && !d.mutable && !d.list
                &&& r.body@.len() == 0
                &&& final(tokens)@ == if rest.len() == 0 {
                    rest
                } else {
                    rest.drop_last()
                }
            },
        decreases old(tokens)@.len(), 30nat,
    {
        let mut body: Vec<Items> = Vec::new();
        let mut index = String::new();
        let mut val = Value::Null;
        let ghost o = old(tokens)@;
        let ghost hd = loop_header(o);
        let ghost plain = loop_plain(o);
        loop
            invariant_except_break
                o.len() > 0 && loop_stops(o.last().kind) ==> tokens@ == o,
                plain ==> body@.len() == 0 && (tokens@ == o ==> val is Null) && (tokens@ != o ==> tokens@
                    == hd.unwrap().2 && index@ == hd.unwrap().0 && val == Value::Expression(hd.unwrap().1)),
            invariant
                taken_from(tokens@, old(tokens)@),
                self.grows_from(&*old(self)),
                o == old(tokens)@,
                hd == loop_header(o),
                plain == loop_plain(o),
                o.len() == 0 ==> tokens@ == o && body@.len() == 0 && val is Null,
                o.len() > 0 && loop_stops(o.last().kind) ==> body@.len() == 0 && val is Null,
            ensures
                taken_from(tokens@, old(tokens)@),
                self.grows_from(&*old(self)),
                o.len() == 0 ==> tokens@ == o && body@.len() == 0 && val is Null,
                o.len() > 0 && loop_stops(o.last().kind) ==> body@.len() == 0 && val is Null && tokens@ == o.drop_last(),
                plain ==> body@.len() == 0 && index@ == hd.unwrap().0 && val == Value::Expression(hd.unwrap().1)
                    && tokens@ == if hd.unwrap().2.len() == 0 {
                    hd.unwrap().2
                } else {
                    hd.unwrap().2.drop_last()
                },
            decreases tokens@.len(),
        {
            let before = tokens.len();
            let ghost cur = tokens@;
            let t = match pop(tokens) {
                Some(t) => t,
                None => break,
            };
            match &t.kind {
                TokenKind::Identifier(id) => {
                    if tokens.len() > 0 {
                        if next_is_keyword(tokens, Keyword::In) {
                            index = id.clone();
                            let _ = pop(tokens);
                            proof {
                                if plain && cur == o {
                                    assert(tokens@ =~= o.take(o.len() - 2));
                                }
                            }
                            val = self.parse_value(tokens);
                        } else {
                            push_back(tokens, t);
                            val = self.parse_value(tokens);
                        }
                    }
                },
                TokenKind::Punctuation(Punctuation::LParen) => {
                    push_back(tokens, t);
                    val = self.parse_value(tokens);
                },
                TokenKind::Value(_) => {
                    val = self.parse_value(tokens);
                },
                TokenKind::Punctuation(Punctuation::LBrace) => {
                    body = self.parse_block(tokens, false);
                },
                TokenKind::Punctuation(Punctuation::RBrace) => {
                    break;
                },
                _ => {
                    break;
                },
            }
            if tokens.len() >= before {
                // Nothing was consumed: the same round would repeat forever.
                break;
            }
        }
        let cond = match val {
            Value::Expression(e) => Some(
                Box::new(
                    VarDecl {
                        par: Parallelism::Sequential,
                        mutable: false,
                        id: index,
                        ty: Type::Numeric(Numeric::U32),
                        val: Some(Value::Expression(e)),
                        list: false,
                    },
                ),
            ),
            _ => None,
        };
        Loop { cond, body }
    }

    /// Parses the indices of a list use, `[i, j; k]`, and the value assigned to them
    /// after `=`.
    fn parse_list(&mut self, tokens: &mut Vec<Token>) -> (r: (Vec<Vec<Value>>, Option<Box<Value>>))
        ensures
            taken_from(final(tokens)@, old(tokens)@),
            final(self).grows_from(&*old(self)),
            old(tokens)@.len() > 0 ==> final(tokens)@.len() < old(tokens)@.len(),
        decreases old(tokens)@.len(), 5nat,
    {
        let mut indices: Vec<Vec<Value>> = Vec::new();
        let mut v: Vec<Value> = Vec::new();
        let mut val: Option<Box<Value>> = None;
        let _ = pop(tokens);  // '['
        loop
            invariant
                taken_from(tokens@, old(tokens)@),
                self.grows_from(&*old(self)),
                old(tokens)@.len() > 0 ==> tokens@.len() < old(tokens)@.len(),
            decreases tokens@.len(),
        {
            let before = tokens.len();
            let t = match pop(tokens) {
                Some(t) => t,
                None => break,
            };
            match &t.kind {
                TokenKind::Identifier(_) | TokenKind::Value(_) => {
                    push_back(tokens, t);
                    let x = self.parse_value(tokens);
                    v.push(x);
                },
                TokenKind::Punctuation(Punctuation::Comma) => {
                    let x = self.parse_value(tokens);
                    v.push(x);
                },
                TokenKind::Punctuation(Punctuation::SemiColon) => {
                    if v.len() > 0 {
                        indices.push(v);
                    }
                    v = Vec::new();
                },
                TokenKind::Punctuation(Punctuation::RBracket) => {
                    if v.len() > 0 {
                        indices.push(v);
                    }
                    v = Vec::new();
                    break;
                },
                TokenKind::Punctuation(_) => {
                    self.report(GraviError::throw(Kind::UnexpectedToken(t)));
                    break;
                },
                _ => {
                    break;
                },
            }
            if tokens.len() >= before {
                // Nothing was consumed: the same round would repeat forever.
                break;
            }
        }
        match pop(tokens) {
            Some(t) => {
                if matches!(t.kind, TokenKind::Punctuation(Punctuation::Assignment)) {
                    let x = self.parse_value(tokens);
                    val = Some(Box::new(x));
                }
            },
            None => {},
        }
        (indices, val)
    }

    pub fn reporter(&self) -> (r: &Reporter)
        ensures
            *r == self.rep,
    {
        &self.rep
    }

    /// The program parsed so far.
    pub fn output(&self) -> (r: &Program)
        ensures
            *r == self.prog,
    {
        &self.prog
    }

    pub fn output_mut(&mut self) -> (r: &mut Program)
        ensures
            *r == old(self).prog,
            final(self).prog == *final(r),
            final(self).rep == old(self).rep,
    {
        &mut self.prog
    }
}

} // verus!
