//! Gravi: the compiler for the Aion programming language, as a verified library.
//!
//! The stages: the lexer turns source text into tokens, the parser tokens into a syntax
//! tree, the resolver finds the functions the program imports, the type checker infers
//! and checks types, and the C back end writes the program out as C.
use vstd::prelude::*;

pub mod text;
pub mod numeric;
pub mod paint;
pub mod lexer;
pub mod error;
pub mod ast;
pub mod symbol;
pub mod parser;
pub mod resolver;
pub mod typechecker;
pub mod literals;
pub mod codegen;
pub mod backend;

use crate::error::Kind;
use crate::lexer::{crlf_to_lf, lex_clean, one_line, scan, tokens_match, Lexer, Token};
use crate::parser::{declares, first_global, lone_ext, opens_with_decl, plain_decls, Parser};

verus! {

/// Lexes `source`, the text of the file `file` (Windows line ends read as line feeds):
/// the lexer after reading all of it, or as far as it can get, the character it stopped
/// on reported as unknown. Its tokens are those of `scan` of the text; where the text is
/// one line, they all stand on line 1.
pub fn lex(source: &str, file: &str) -> (r: Lexer)
    ensures
        r.file@ == file@,
        r.tokens_ok(),
        r.chars@.len() == 0 || r.stuck(),
        r.chars@.len() > 0 ==> r.rep.messages@.len() > 0 && r.rep.messages@.last().kind == Kind::UnknownChar(
            r.chars@.last(),
        ),
        tokens_match(r.tokens@, scan(crlf_to_lf(source@))),
        one_line(crlf_to_lf(source@)) ==> forall|k: int| 0 <= k < r.tokens@.len() ==> #[trigger] r.tokens@[k].line == 1,
        lex_clean(crlf_to_lf(source@)) ==> r.rep.messages@.len() == 0,
{
    let mut l = Lexer::from_source(source, file);
    l.process();
    assert(l.tokens@.skip(0) =~= l.tokens@);
    l
}

/// Parses the tokens, all of which it consumes. Where they open with a plain
/// declaration, the program's first item is what it declares; where they are made of
/// plain variable declarations, the program is made of those; where they are one
/// external function declaration, the program is that one item and nothing is reported.
pub fn parse(tokens: &mut Vec<Token>) -> (r: Parser)
    ensures
        final(tokens)@.len() == 0,
        lone_ext(old(tokens)@) ==> r.prog.items@.len() == 1 && r.rep.messages@.len() == 0,
        opens_with_decl(old(tokens)@) ==> r.prog.items@.len() > 0 && first_global(old(tokens)@, r.prog.items@[0]),
        plain_decls(old(tokens)@.reverse()) matches Some(ds) ==> r.prog.items@.len() == ds.len() && forall|k: int|
            0 <= k < ds.len() ==> declares(#[trigger] r.prog.items@[k], ds[k]),
{
    let mut p = Parser::new();
    let ghost given = tokens@;
    p.process(tokens);
    proof {
        if plain_decls(given.reverse()) is Some {
            let ds = plain_decls(given.reverse()).unwrap();
            assert forall|k: int| 0 <= k < ds.len() implies declares(#[trigger] p.prog.items@[k], ds[k]) by {
                assert(p.prog.items@[0 + k] == p.prog.items@[k]);
            }
        }
    }
    p
}

} // verus!
