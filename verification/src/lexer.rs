//! Tokens of the Aion language and the lexer that produces them.
use vstd::prelude::*;
use vstd::string::*;

use crate::error::{GraviError, Kind, Reporter, Severity};
use crate::paint::bright_blue_bold;
use crate::text::{concat3, owned, push_char, str_chars, str_eq, usize_to_string};

verus! {

#[derive(PartialEq, Eq, Structural, Debug, Clone, Copy)]
pub enum Keyword {
    With,
    Pub,
    Var,
    Mut,
    GPU,
    PAR,
    If,
    Loop,
    In,
    Stop,
    Skip,
    Else,
    Type,
    Class,
    Ext,
    Fun,
    Ret,
}

#[derive(PartialEq, Eq, Structural, Debug, Clone, Copy)]
pub enum Numeric {
    // Integers
    U8,
    U16,
    U32,
    U64,
    I8,
    I16,
    I32,
    I64,
    // Floating point
    F16,
    F32,
    F64,
    // Pointer-sized unsigned integer
    USize,
}

/// The name of a numeric type as Aion writes it.
pub open spec fn numeric_name(n: Numeric) -> Seq<char> {
    match n {
        Numeric::U8 => seq!['u', '8'],
        Numeric::U16 => seq!['u', '1', '6'],
        Numeric::U32 => seq!['u', '3', '2'],
        Numeric::U64 => seq!['u', '6', '4'],
        Numeric::I8 => seq!['i', '8'],
        Numeric::I16 => seq!['i', '1', '6'],
        Numeric::I32 => seq!['i', '3', '2'],
        Numeric::I64 => seq!['i', '6', '4'],
        Numeric::F16 => seq!['f', '1', '6'],
        Numeric::F32 => seq!['f', '3', '2'],
        Numeric::F64 => seq!['f', '6', '4'],
        Numeric::USize => seq!['u', 's', 'i', 'z', 'e'],
    }
}

fn chars2(a: char, b: char) -> (r: String)
    ensures
        r@ == seq![a, b],
{
    let mut s = String::new();
    push_char(&mut s, a);
    push_char(&mut s, b);
    assert(s@ =~= seq![a, b]);
    s
}

fn chars3(a: char, b: char, c: char) -> (r: String)
    ensures
        r@ == seq![a, b, c],
{
    let mut s = chars2(a, b);
    push_char(&mut s, c);
    assert(s@ =~= seq![a, b, c]);
    s
}

impl Numeric {
    /// The name of the numeric type (what `Display` writes).
    pub fn name(&self) -> (r: String)
        ensures
            r@ == numeric_name(*self),
    {
        match self {
            Numeric::U8 => chars2('u', '8'),
            Numeric::U16 => chars3('u', '1', '6'),
            Numeric::U32 => chars3('u', '3', '2'),
            Numeric::U64 => chars3('u', '6', '4'),
            Numeric::I8 => chars2('i', '8'),
            Numeric::I16 => chars3('i', '1', '6'),
            Numeric::I32 => chars3('i', '3', '2'),
            Numeric::I64 => chars3('i', '6', '4'),
            Numeric::F16 => chars3('f', '1', '6'),
            Numeric::F32 => chars3('f', '3', '2'),
            Numeric::F64 => chars3('f', '6', '4'),
            Numeric::USize => {
                let mut s = chars3('u', 's', 'i');
                push_char(&mut s, 'z');
                push_char(&mut s, 'e');
                assert(s@ =~= seq!['u', 's', 'i', 'z', 'e']);
                s
            },
        }
    }
}

#[derive(Debug)]
pub enum Type {
    Numeric(Numeric),
    StringLiteral,
    Boolean,
    Character,
    Custom(String),
    Void,
}

/// Equality of types, comparing user-defined type names by their characters.
pub open spec fn type_eq(a: Type, b: Type) -> bool {
    match (a, b) {
        (Type::Numeric(x), Type::Numeric(y)) => x == y,
        (Type::StringLiteral, Type::StringLiteral) => true,
        (Type::Boolean, Type::Boolean) => true,
        (Type::Character, Type::Character) => true,
        (Type::Custom(x), Type::Custom(y)) => x@ == y@,
        (Type::Void, Type::Void) => true,
        _ => false,
    }
}

/// The name of a type as Aion writes it.
pub open spec fn type_text(t: Type) -> Seq<char> {
    match t {
        Type::Numeric(n) => numeric_name(n),
        Type::StringLiteral => seq!['s', 't', 'r', 'i', 'n', 'g'],
        Type::Boolean => seq!['b', 'o', 'o', 'l'],
        Type::Character => seq!['c', 'h', 'a', 'r'],
        Type::Custom(c) => c@,
        Type::Void => seq!['n', 'o', 'n', 'e'],
    }
}

impl Clone for Type {
    fn clone(&self) -> (r: Self)
        ensures
            r == *self,
    {
        match self {
            Type::Numeric(n) => Type::Numeric(*n),
            Type::StringLiteral => Type::StringLiteral,
            Type::Boolean => Type::Boolean,
            Type::Character => Type::Character,
            Type::Custom(c) => Type::Custom(c.clone()),
            Type::Void => Type::Void,
        }
    }
}

impl Type {
    /// Whether two types are the same type.
    pub fn same(&self, other: &Type) -> (r: bool)
        ensures
            r == type_eq(*self, *other),
    {
        match (self, other) {
            (Type::Numeric(x), Type::Numeric(y)) => *x == *y,
            (Type::StringLiteral, Type::StringLiteral) => true,
            (Type::Boolean, Type::Boolean) => true,
            (Type::Character, Type::Character) => true,
            (Type::Custom(x), Type::Custom(y)) => *x == *y,
            (Type::Void, Type::Void) => true,
            _ => false,
        }
    }

    /// Whether this is the empty type `none`.
    pub fn is_none(&self) -> (r: bool)
        ensures
            r == (*self is Void),
    {
        matches!(self, Type::Void)
    }

    /// The name of the type (what `Display` writes).
    pub fn name(&self) -> (r: String)
        ensures
            r@ == type_text(*self),
    {
        match self {
            Type::Numeric(n) => n.name(),
            Type::StringLiteral => {
                let mut s = chars3('s', 't', 'r');
                push_char(&mut s, 'i');
                push_char(&mut s, 'n');
                push_char(&mut s, 'g');
                assert(s@ =~= seq!['s', 't', 'r', 'i', 'n', 'g']);
                s
            },
            Type::Boolean => {
                let mut s = chars3('b', 'o', 'o');
                push_char(&mut s, 'l');
                assert(s@ =~= seq!['b', 'o', 'o', 'l']);
                s
            },
            Type::Character => {
                let mut s = chars3('c', 'h', 'a');
                push_char(&mut s, 'r');
                assert(s@ =~= seq!['c', 'h', 'a', 'r']);
                s
            },
            Type::Custom(c) => c.clone(),
            Type::Void => {
                let mut s = chars3('n', 'o', 'n');
                push_char(&mut s, 'e');
                assert(s@ =~= seq!['n', 'o', 'n', 'e']);
                s
            },
        }
    }
}

#[derive(PartialEq, Eq, Structural, Debug, Clone, Copy)]
pub enum Punctuation {
    Dot,
    Spread,
    Colon,
    Comma,
    SemiColon,
    RangeInclusive,
    Assignment,
    SingleQuote,
    Quote,
    LParen,
    RParen,
    LBracket,
    RBracket,
    LBrace,
    RBrace,
}

#[derive(PartialEq, Eq, Structural, Debug, Clone, Copy)]
pub enum Operator {
    Add,
    Sub,
    Mul,
    Div,
    Mod,
    Pow,
    LAnd,
    LOr,
    LNot,
    BWOr,  // bit-wise
    BWAnd,  // bit-wise
    Eq,
    NEq,
    GE,
    LE,
    G,
    L,
    Nothing,
}

/// The text carried by a value token: a string literal's content or a numeric literal.
#[derive(Debug)]
pub enum ValueKind {
    String(String),
    Numeric(String),
}

impl Clone for ValueKind {
    fn clone(&self) -> (r: Self)
        ensures
            r == *self,
    {
        match self {
            ValueKind::String(s) => ValueKind::String(s.clone()),
            ValueKind::Numeric(s) => ValueKind::Numeric(s.clone()),
        }
    }
}

#[derive(Debug)]
pub enum TokenKind {
    Type(Type),
    Keyword(Keyword),
    Identifier(String),
    Punctuation(Punctuation),
    Value(ValueKind),
    Char(char),
    Boolean(bool),
    Operator(Operator),
}

impl Clone for TokenKind {
    fn clone(&self) -> (r: Self)
        ensures
            r == *self,
    {
        match self {
            TokenKind::Type(t) => TokenKind::Type(t.clone()),
            TokenKind::Keyword(k) => TokenKind::Keyword(*k),
            TokenKind::Identifier(s) => TokenKind::Identifier(s.clone()),
            TokenKind::Punctuation(p) => TokenKind::Punctuation(*p),
            TokenKind::Value(v) => TokenKind::Value(v.clone()),
            TokenKind::Char(c) => TokenKind::Char(*c),
            TokenKind::Boolean(b) => TokenKind::Boolean(*b),
            TokenKind::Operator(o) => TokenKind::Operator(*o),
        }
    }
}

#[derive(Debug)]
pub struct Token {
    pub kind: TokenKind,
    pub file: String,
    pub line: usize,
    pub column: usize,
}

impl Clone for Token {
    fn clone(&self) -> (r: Self)
        ensures
            r == *self,
    {
        Token { kind: self.kind.clone(), file: self.file.clone(), line: self.line, column: self.column }
    }
}

impl Token {
    pub fn new(kind: TokenKind, file: &String, line: usize, column: usize) -> (r: Self)
        ensures
            r.kind == kind,
            r.file@ == file@,
            r.line == line,
            r.column == column,
    {
        Token { kind, file: file.clone(), line, column }
    }

    pub fn kind(&self) -> (r: &TokenKind)
        ensures
            *r == self.kind,
    {
        &self.kind
    }

    pub fn file(&self) -> (r: &str)
        ensures
            r@ == self.file@,
    {
        self.file.as_str()
    }

    pub fn line(&self) -> (r: usize)
        ensures
            r == self.line,
    {
        self.line
    }

    pub fn column(&self) -> (r: usize)
        ensures
            r == self.column,
    {
        self.column
    }
}

/// The token kind of a reserved word, type name, literal or symbol; `None` for an identifier.
pub open spec fn reserved(word: Seq<char>) -> Option<TokenKind> {
    if word == "with"@ {
        Some(TokenKind::Keyword(Keyword::With))
    } else if word == "pub"@ {
        Some(TokenKind::Keyword(Keyword::Pub))
    } else if word == "var"@ {
        Some(TokenKind::Keyword(Keyword::Var))
    } else if word == "mut"@ {
        Some(TokenKind::Keyword(Keyword::Mut))
    } else if word == "if"@ {
        Some(TokenKind::Keyword(Keyword::If))
    } else if word == "else"@ {
        Some(TokenKind::Keyword(Keyword::Else))
    } else if word == "loop"@ {
        Some(TokenKind::Keyword(Keyword::Loop))
    } else if word == "in"@ {
        Some(TokenKind::Keyword(Keyword::In))
    } else if word == "stop"@ {
        Some(TokenKind::Keyword(Keyword::Stop))
    } else if word == "skip"@ {
        Some(TokenKind::Keyword(Keyword::Skip))
    } else if word == "!GPU"@ {
        Some(TokenKind::Keyword(Keyword::GPU))
    } else if word == "!PAR"@ {
        Some(TokenKind::Keyword(Keyword::PAR))
    } else if word == "fun"@ {
        Some(TokenKind::Keyword(Keyword::Fun))
    } else if word == "class"@ {
        Some(TokenKind::Keyword(Keyword::Class))
    } else if word == "type"@ {
        Some(TokenKind::Keyword(Keyword::Type))
    } else if word == "ext"@ {
        Some(TokenKind::Keyword(Keyword::Ext))
    } else if word == "ret"@ {
        Some(TokenKind::Keyword(Keyword::Ret))
    } else if word == "u8"@ {
        Some(TokenKind::Type(Type::Numeric(Numeric::U8)))
    } else if word == "u16"@ {
        Some(TokenKind::Type(Type::Numeric(Numeric::U16)))
    } else if word == "u32"@ {
        Some(TokenKind::Type(Type::Numeric(Numeric::U32)))
    } else if word == "u64"@ {
        Some(TokenKind::Type(Type::Numeric(Numeric::U64)))
    } else if word == "i8"@ {
        Some(TokenKind::Type(Type::Numeric(Numeric::I8)))
    } else if word == "i16"@ {
        Some(TokenKind::Type(Type::Numeric(Numeric::I16)))
    } else if word == "i32"@ {
        Some(TokenKind::Type(Type::Numeric(Numeric::I32)))
    } else if word == "i64"@ {
        Some(TokenKind::Type(Type::Numeric(Numeric::I64)))
    } else if word == "f16"@ {
        Some(TokenKind::Type(Type::Numeric(Numeric::F16)))
    } else if word == "f32"@ {
        Some(TokenKind::Type(Type::Numeric(Numeric::F32)))
    } else if word == "f64"@ {
        Some(TokenKind::Type(Type::Numeric(Numeric::F64)))
    } else if word == "usize"@ {
        Some(TokenKind::Type(Type::Numeric(Numeric::USize)))
    } else if word == "bool"@ {
        Some(TokenKind::Type(Type::Boolean))
    } else if word == "char"@ {
        Some(TokenKind::Type(Type::Character))
    } else if word == "string"@ {
        Some(TokenKind::Type(Type::StringLiteral))
    } else if word == "true"@ {
        Some(TokenKind::Boolean(true))
    } else if word == "false"@ {
        Some(TokenKind::Boolean(false))
    } else if word == "."@ {
        Some(TokenKind::Punctuation(Punctuation::Dot))
    } else if word == ".."@ {
        Some(TokenKind::Punctuation(Punctuation::Spread))
    } else if word == ":"@ {
        Some(TokenKind::Punctuation(Punctuation::Colon))
    } else if word == "::"@ {
        Some(TokenKind::Punctuation(Punctuation::RangeInclusive))
    } else if word == ","@ {
        Some(TokenKind::Punctuation(Punctuation::Comma))
    } else if word == ";"@ {
        Some(TokenKind::Punctuation(Punctuation::SemiColon))
    } else if word == "="@ {
        Some(TokenKind::Punctuation(Punctuation::Assignment))
    } else if word == "'"@ {
        Some(TokenKind::Punctuation(Punctuation::SingleQuote))
    } else if word == "\""@ {
        Some(TokenKind::Punctuation(Punctuation::Quote))
    } else if word == "("@ {
        Some(TokenKind::Punctuation(Punctuation::LParen))
    } else if word == ")"@ {
        Some(TokenKind::Punctuation(Punctuation::RParen))
    } else if word == "["@ {
        Some(TokenKind::Punctuation(Punctuation::LBracket))
    } else if word == "]"@ {
        Some(TokenKind::Punctuation(Punctuation::RBracket))
    } else if word == "{"@ {
        Some(TokenKind::Punctuation(Punctuation::LBrace))
    } else if word == "}"@ {
        Some(TokenKind::Punctuation(Punctuation::RBrace))
    } else if word == "+"@ {
        Some(TokenKind::Operator(Operator::Add))
    } else if word == "-"@ {
        Some(TokenKind::Operator(Operator::Sub))
    } else if word == "*"@ {
        Some(TokenKind::Operator(Operator::Mul))
    } else if word == "/"@ {
        Some(TokenKind::Operator(Operator::Div))
    } else if word == "%"@ {
        Some(TokenKind::Operator(Operator::Mod))
    } else if word == "^"@ {
        Some(TokenKind::Operator(Operator::Pow))
    } else if word == "!"@ {
        Some(TokenKind::Operator(Operator::LNot))
    } else if word == "||"@ {
        Some(TokenKind::Operator(Operator::LOr))
    } else if word == "&&"@ {
        Some(TokenKind::Operator(Operator::LAnd))
    } else if word == "|"@ {
        Some(TokenKind::Operator(Operator::BWOr))
    } else if word == "&"@ {
        Some(TokenKind::Operator(Operator::BWAnd))
    } else if word == "=="@ {
        Some(TokenKind::Operator(Operator::Eq))
    } else if word == "!="@ {
        Some(TokenKind::Operator(Operator::NEq))
    } else if word == ">="@ {
        Some(TokenKind::Operator(Operator::GE))
    } else if word == "<="@ {
        Some(TokenKind::Operator(Operator::LE))
    } else if word == ">"@ {
        Some(TokenKind::Operator(Operator::G))
    } else if word == "<"@ {
        Some(TokenKind::Operator(Operator::L))
    } else {
        None
    }
}

/// Each reserved word reads as what it spells: the keywords, the type names and the
/// boolean literals.
pub proof fn law_reserved_words()
    ensures
        reserved("with"@) == Some(TokenKind::Keyword(Keyword::With)),
        reserved("pub"@) == Some(TokenKind::Keyword(Keyword::Pub)),
        reserved("var"@) == Some(TokenKind::Keyword(Keyword::Var)),
        reserved("mut"@) == Some(TokenKind::Keyword(Keyword::Mut)),
        reserved("if"@) == Some(TokenKind::Keyword(Keyword::If)),
        reserved("else"@) == Some(TokenKind::Keyword(Keyword::Else)),
        reserved("loop"@) == Some(TokenKind::Keyword(Keyword::Loop)),
        reserved("in"@) == Some(TokenKind::Keyword(Keyword::In)),
        reserved("stop"@) == Some(TokenKind::Keyword(Keyword::Stop)),
        reserved("skip"@) == Some(TokenKind::Keyword(Keyword::Skip)),
        reserved("!GPU"@) == Some(TokenKind::Keyword(Keyword::GPU)),
        reserved("!PAR"@) == Some(TokenKind::Keyword(Keyword::PAR)),
        reserved("fun"@) == Some(TokenKind::Keyword(Keyword::Fun)),
        reserved("class"@) == Some(TokenKind::Keyword(Keyword::Class)),
        reserved("type"@) == Some(TokenKind::Keyword(Keyword::Type)),
        reserved("ext"@) == Some(TokenKind::Keyword(Keyword::Ext)),
        reserved("ret"@) == Some(TokenKind::Keyword(Keyword::Ret)),
        reserved("u8"@) == Some(TokenKind::Type(Type::Numeric(Numeric::U8))),
        reserved("u16"@) == Some(TokenKind::Type(Type::Numeric(Numeric::U16))),
        reserved("u32"@) == Some(TokenKind::Type(Type::Numeric(Numeric::U32))),
        reserved("u64"@) == Some(TokenKind::Type(Type::Numeric(Numeric::U64))),
        reserved("i8"@) == Some(TokenKind::Type(Type::Numeric(Numeric::I8))),
        reserved("i16"@) == Some(TokenKind::Type(Type::Numeric(Numeric::I16))),
        reserved("i32"@) == Some(TokenKind::Type(Type::Numeric(Numeric::I32))),
        reserved("i64"@) == Some(TokenKind::Type(Type::Numeric(Numeric::I64))),
        reserved("f16"@) == Some(TokenKind::Type(Type::Numeric(Numeric::F16))),
        reserved("f32"@) == Some(TokenKind::Type(Type::Numeric(Numeric::F32))),
        reserved("f64"@) == Some(TokenKind::Type(Type::Numeric(Numeric::F64))),
        reserved("usize"@) == Some(TokenKind::Type(Type::Numeric(Numeric::USize))),
        reserved("bool"@) == Some(TokenKind::Type(Type::Boolean)),
        reserved("char"@) == Some(TokenKind::Type(Type::Character)),
        reserved("string"@) == Some(TokenKind::Type(Type::StringLiteral)),
        reserved("true"@) == Some(TokenKind::Boolean(true)),
        reserved("false"@) == Some(TokenKind::Boolean(false)),
{
    reveal_strlit("with");
    reveal_strlit("pub");
    reveal_strlit("var");
    reveal_strlit("mut");
    reveal_strlit("if");
    reveal_strlit("else");
    reveal_strlit("loop");
    reveal_strlit("in");
    reveal_strlit("stop");
    reveal_strlit("skip");
    reveal_strlit("!GPU");
    reveal_strlit("!PAR");
    reveal_strlit("fun");
    reveal_strlit("class");
    reveal_strlit("type");
    reveal_strlit("ext");
    reveal_strlit("ret");
    reveal_strlit("u8");
    reveal_strlit("u16");
    reveal_strlit("u32");
    reveal_strlit("u64");
    reveal_strlit("i8");
    reveal_strlit("i16");
    reveal_strlit("i32");
    reveal_strlit("i64");
    reveal_strlit("f16");
    reveal_strlit("f32");
    reveal_strlit("f64");
    reveal_strlit("usize");
    reveal_strlit("bool");
    reveal_strlit("char");
    reveal_strlit("string");
    reveal_strlit("true");
    reveal_strlit("false");
    assert("with"@.len() == 4);
    assert("pub"@.len() == 3);
    assert("var"@.len() == 3);
    assert("mut"@.len() == 3);
    assert("if"@.len() == 2);
    assert("else"@.len() == 4);
    assert("loop"@.len() == 4);
    assert("in"@.len() == 2);
    assert("stop"@.len() == 4);
    assert("skip"@.len() == 4);
    assert("!GPU"@.len() == 4);
    assert("!PAR"@.len() == 4);
    assert("fun"@.len() == 3);
    assert("class"@.len() == 5);
    assert("type"@.len() == 4);
    assert("ext"@.len() == 3);
    assert("ret"@.len() == 3);
    assert("u8"@.len() == 2);
    assert("u16"@.len() == 3);
    assert("u32"@.len() == 3);
    assert("u64"@.len() == 3);
    assert("i8"@.len() == 2);
    assert("i16"@.len() == 3);
    assert("i32"@.len() == 3);
    assert("i64"@.len() == 3);
    assert("f16"@.len() == 3);
    assert("f32"@.len() == 3);
    assert("f64"@.len() == 3);
    assert("usize"@.len() == 5);
    assert("bool"@.len() == 4);
    assert("char"@.len() == 4);
    assert("string"@.len() == 6);
    assert("true"@.len() == 4);
    assert("false"@.len() == 5);
    assert("var"@[0] != "pub"@[0]);
    assert("mut"@[0] != "pub"@[0]);
    assert("mut"@[0] != "var"@[0]);
    assert("else"@[0] != "with"@[0]);
    assert("loop"@[0] != "with"@[0]);
    assert("loop"@[0] != "else"@[0]);
    assert("in"@[1] != "if"@[1]);
    assert("stop"@[0] != "with"@[0]);
    assert("stop"@[0] != "else"@[0]);
    assert("stop"@[0] != "loop"@[0]);
    assert("skip"@[0] != "with"@[0]);
    assert("skip"@[0] != "else"@[0]);
    assert("skip"@[0] != "loop"@[0]);
    assert("skip"@[1] != "stop"@[1]);
    assert("!GPU"@[0] != "with"@[0]);
    assert("!GPU"@[0] != "else"@[0]);
    assert("!GPU"@[0] != "loop"@[0]);
    assert("!GPU"@[0] != "stop"@[0]);
    assert("!GPU"@[0] != "skip"@[0]);
    assert("!PAR"@[0] != "with"@[0]);
    assert("!PAR"@[0] != "else"@[0]);
    assert("!PAR"@[0] != "loop"@[0]);
    assert("!PAR"@[0] != "stop"@[0]);
    assert("!PAR"@[0] != "skip"@[0]);
    assert("!PAR"@[1] != "!GPU"@[1]);
    assert("fun"@[0] != "pub"@[0]);
    assert("fun"@[0] != "var"@[0]);
    assert("fun"@[0] != "mut"@[0]);
    assert("type"@[0] != "with"@[0]);
    assert("type"@[0] != "else"@[0]);
    assert("type"@[0] != "loop"@[0]);
    assert("type"@[0] != "stop"@[0]);
    assert("type"@[0] != "skip"@[0]);
    assert("type"@[0] != "!GPU"@[0]);
    assert("type"@[0] != "!PAR"@[0]);
    assert("ext"@[0] != "pub"@[0]);
    assert("ext"@[0] != "var"@[0]);
    assert("ext"@[0] != "mut"@[0]);
    assert("ext"@[0] != "fun"@[0]);
    assert("ret"@[0] != "pub"@[0]);
    assert("ret"@[0] != "var"@[0]);
    assert("ret"@[0] != "mut"@[0]);
    assert("ret"@[0] != "fun"@[0]);
    assert("ret"@[0] != "ext"@[0]);
    assert("u8"@[0] != "if"@[0]);
    assert("u8"@[0] != "in"@[0]);
    assert("u16"@[0] != "pub"@[0]);
    assert("u16"@[0] != "var"@[0]);
    assert("u16"@[0] != "mut"@[0]);
    assert("u16"@[0] != "fun"@[0]);
    assert("u16"@[0] != "ext"@[0]);
    assert("u16"@[0] != "ret"@[0]);
    assert("u32"@[0] != "pub"@[0]);
    assert("u32"@[0] != "var"@[0]);
    assert("u32"@[0] != "mut"@[0]);
    assert("u32"@[0] != "fun"@[0]);
    assert("u32"@[0] != "ext"@[0]);
    assert("u32"@[0] != "ret"@[0]);
    assert("u32"@[1] != "u16"@[1]);
    assert("u64"@[0] != "pub"@[0]);
    assert("u64"@[0] != "var"@[0]);
    assert("u64"@[0] != "mut"@[0]);
    assert("u64"@[0] != "fun"@[0]);
    assert("u64"@[0] != "ext"@[0]);
    assert("u64"@[0] != "ret"@[0]);
    assert("u64"@[1] != "u16"@[1]);
    assert("u64"@[1] != "u32"@[1]);
    assert("i8"@[1] != "if"@[1]);
    assert("i8"@[1] != "in"@[1]);
    assert("i8"@[0] != "u8"@[0]);
    assert("i16"@[0] != "pub"@[0]);
    assert("i16"@[0] != "var"@[0]);
    assert("i16"@[0] != "mut"@[0]);
    assert("i16"@[0] != "fun"@[0]);
    assert("i16"@[0] != "ext"@[0]);
    assert("i16"@[0] != "ret"@[0]);
    assert("i16"@[0] != "u16"@[0]);
    assert("i16"@[0] != "u32"@[0]);
    assert("i16"@[0] != "u64"@[0]);
    assert("i32"@[0] != "pub"@[0]);
    assert("i32"@[0] != "var"@[0]);
    assert("i32"@[0] != "mut"@[0]);
    assert("i32"@[0] != "fun"@[0]);
    assert("i32"@[0] != "ext"@[0]);
    assert("i32"@[0] != "ret"@[0]);
    assert("i32"@[0] != "u16"@[0]);
    assert("i32"@[0] != "u32"@[0]);
    assert("i32"@[0] != "u64"@[0]);
    assert("i32"@[1] != "i16"@[1]);
    assert("i64"@[0] != "pub"@[0]);
    assert("i64"@[0] != "var"@[0]);
    assert("i64"@[0] != "mut"@[0]);
    assert("i64"@[0] != "fun"@[0]);
    assert("i64"@[0] != "ext"@[0]);
    assert("i64"@[0] != "ret"@[0]);
    assert("i64"@[0] != "u16"@[0]);
    assert("i64"@[0] != "u32"@[0]);
    assert("i64"@[0] != "u64"@[0]);
    assert("i64"@[1] != "i16"@[1]);
    assert("i64"@[1] != "i32"@[1]);
    assert("f16"@[0] != "pub"@[0]);
    assert("f16"@[0] != "var"@[0]);
    assert("f16"@[0] != "mut"@[0]);
    assert("f16"@[1] != "fun"@[1]);
    assert("f16"@[0] != "ext"@[0]);
    assert("f16"@[0] != "ret"@[0]);
    assert("f16"@[0] != "u16"@[0]);
    assert("f16"@[0] != "u32"@[0]);
    assert("f16"@[0] != "u64"@[0]);
    assert("f16"@[0] != "i16"@[0]);
    assert("f16"@[0] != "i32"@[0]);
    assert("f16"@[0] != "i64"@[0]);
    assert("f32"@[0] != "pub"@[0]);
    assert("f32"@[0] != "var"@[0]);
    assert("f32"@[0] != "mut"@[0]);
    assert("f32"@[1] != "fun"@[1]);
    assert("f32"@[0] != "ext"@[0]);
    assert("f32"@[0] != "ret"@[0]);
    assert("f32"@[0] != "u16"@[0]);
    assert("f32"@[0] != "u32"@[0]);
    assert("f32"@[0] != "u64"@[0]);
    assert("f32"@[0] != "i16"@[0]);
    assert("f32"@[0] != "i32"@[0]);
    assert("f32"@[0] != "i64"@[0]);
    assert("f32"@[1] != "f16"@[1]);
    assert("f64"@[0] != "pub"@[0]);
    assert("f64"@[0] != "var"@[0]);
    assert("f64"@[0] != "mut"@[0]);
    assert("f64"@[1] != "fun"@[1]);
    assert("f64"@[0] != "ext"@[0]);
    assert("f64"@[0] != "ret"@[0]);
    assert("f64"@[0] != "u16"@[0]);
    assert("f64"@[0] != "u32"@[0]);
    assert("f64"@[0] != "u64"@[0]);
    assert("f64"@[0] != "i16"@[0]);
    assert("f64"@[0] != "i32"@[0]);
    assert("f64"@[0] != "i64"@[0]);
    assert("f64"@[1] != "f16"@[1]);
    assert("f64"@[1] != "f32"@[1]);
    assert("usize"@[0] != "class"@[0]);
    assert("bool"@[0] != "with"@[0]);
    assert("bool"@[0] != "else"@[0]);
    assert("bool"@[0] != "loop"@[0]);
    assert("bool"@[0] != "stop"@[0]);
    assert("bool"@[0] != "skip"@[0]);
    assert("bool"@[0] != "!GPU"@[0]);
    assert("bool"@[0] != "!PAR"@[0]);
    assert("bool"@[0] != "type"@[0]);
    assert("char"@[0] != "with"@[0]);
    assert("char"@[0] != "else"@[0]);
    assert("char"@[0] != "loop"@[0]);
    assert("char"@[0] != "stop"@[0]);
    assert("char"@[0] != "skip"@[0]);
    assert("char"@[0] != "!GPU"@[0]);
    assert("char"@[0] != "!PAR"@[0]);
    assert("char"@[0] != "type"@[0]);
    assert("char"@[0] != "bool"@[0]);
    assert("true"@[0] != "with"@[0]);
    assert("true"@[0] != "else"@[0]);
    assert("true"@[0] != "loop"@[0]);
    assert("true"@[0] != "stop"@[0]);
    assert("true"@[0] != "skip"@[0]);
    assert("true"@[0] != "!GPU"@[0]);
    assert("true"@[0] != "!PAR"@[0]);
    assert("true"@[1] != "type"@[1]);
    assert("true"@[0] != "bool"@[0]);
    assert("true"@[0] != "char"@[0]);
    assert("false"@[0] != "class"@[0]);
    assert("false"@[0] != "usize"@[0]);
}

/// Each punctuation symbol reads as the punctuation it spells.
pub proof fn law_reserved_punctuation()
    ensures
        reserved("."@) == Some(TokenKind::Punctuation(Punctuation::Dot)),
        reserved(".."@) == Some(TokenKind::Punctuation(Punctuation::Spread)),
        reserved(":"@) == Some(TokenKind::Punctuation(Punctuation::Colon)),
        reserved("::"@) == Some(TokenKind::Punctuation(Punctuation::RangeInclusive)),
        reserved(","@) == Some(TokenKind::Punctuation(Punctuation::Comma)),
        reserved(";"@) == Some(TokenKind::Punctuation(Punctuation::SemiColon)),
        reserved("="@) == Some(TokenKind::Punctuation(Punctuation::Assignment)),
        reserved("'"@) == Some(TokenKind::Punctuation(Punctuation::SingleQuote)),
        reserved("\""@) == Some(TokenKind::Punctuation(Punctuation::Quote)),
        reserved("("@) == Some(TokenKind::Punctuation(Punctuation::LParen)),
        reserved(")"@) == Some(TokenKind::Punctuation(Punctuation::RParen)),
        reserved("["@) == Some(TokenKind::Punctuation(Punctuation::LBracket)),
        reserved("]"@) == Some(TokenKind::Punctuation(Punctuation::RBracket)),
        reserved("{"@) == Some(TokenKind::Punctuation(Punctuation::LBrace)),
        reserved("}"@) == Some(TokenKind::Punctuation(Punctuation::RBrace)),
{
    reveal_strlit("with");
    reveal_strlit("pub");
    reveal_strlit("var");
    reveal_strlit("mut");
    reveal_strlit("if");
    reveal_strlit("else");
    reveal_strlit("loop");
    reveal_strlit("in");
    reveal_strlit("stop");
    reveal_strlit("skip");
    reveal_strlit("!GPU");
    reveal_strlit("!PAR");
    reveal_strlit("fun");
    reveal_strlit("class");
    reveal_strlit("type");
    reveal_strlit("ext");
    reveal_strlit("ret");
    reveal_strlit("u8");
    reveal_strlit("u16");
    reveal_strlit("u32");
    reveal_strlit("u64");
    reveal_strlit("i8");
    reveal_strlit("i16");
    reveal_strlit("i32");
    reveal_strlit("i64");
    reveal_strlit("f16");
    reveal_strlit("f32");
    reveal_strlit("f64");
    reveal_strlit("usize");
    reveal_strlit("bool");
    reveal_strlit("char");
    reveal_strlit("string");
    reveal_strlit("true");
    reveal_strlit("false");
    reveal_strlit(".");
    reveal_strlit("..");
    reveal_strlit(":");
    reveal_strlit("::");
    reveal_strlit(",");
    reveal_strlit(";");
    reveal_strlit("=");
    reveal_strlit("'");
    reveal_strlit("\"");
    reveal_strlit("(");
    reveal_strlit(")");
    reveal_strlit("[");
    reveal_strlit("]");
    reveal_strlit("{");
    reveal_strlit("}");
    assert("with"@.len() == 4);
    assert("pub"@.len() == 3);
    assert("var"@.len() == 3);
    assert("mut"@.len() == 3);
    assert("if"@.len() == 2);
    assert("else"@.len() == 4);
    assert("loop"@.len() == 4);
    assert("in"@.len() == 2);
    assert("stop"@.len() == 4);
    assert("skip"@.len() == 4);
    assert("!GPU"@.len() == 4);
    assert("!PAR"@.len() == 4);
    assert("fun"@.len() == 3);
    assert("class"@.len() == 5);
    assert("type"@.len() == 4);
    assert("ext"@.len() == 3);
    assert("ret"@.len() == 3);
    assert("u8"@.len() == 2);
    assert("u16"@.len() == 3);
    assert("u32"@.len() == 3);
    assert("u64"@.len() == 3);
    assert("i8"@.len() == 2);
    assert("i16"@.len() == 3);
    assert("i32"@.len() == 3);
    assert("i64"@.len() == 3);
    assert("f16"@.len() == 3);
    assert("f32"@.len() == 3);
    assert("f64"@.len() == 3);
    assert("usize"@.len() == 5);
    assert("bool"@.len() == 4);
    assert("char"@.len() == 4);
    assert("string"@.len() == 6);
    assert("true"@.len() == 4);
    assert("false"@.len() == 5);
    assert("."@.len() == 1);
    assert(".."@.len() == 2);
    assert(":"@.len() == 1);
    assert("::"@.len() == 2);
    assert(","@.len() == 1);
    assert(";"@.len() == 1);
    assert("="@.len() == 1);
    assert("'"@.len() == 1);
    assert("\""@.len() == 1);
    assert("("@.len() == 1);
    assert(")"@.len() == 1);
    assert("["@.len() == 1);
    assert("]"@.len() == 1);
    assert("{"@.len() == 1);
    assert("}"@.len() == 1);
    assert(".."@[0] != "if"@[0]);
    assert(".."@[0] != "in"@[0]);
    assert(".."@[0] != "u8"@[0]);
    assert(".."@[0] != "i8"@[0]);
    assert(":"@[0] != "."@[0]);
    assert("::"@[0] != "if"@[0]);
    assert("::"@[0] != "in"@[0]);
    assert("::"@[0] != "u8"@[0]);
    assert("::"@[0] != "i8"@[0]);
    assert("::"@[0] != ".."@[0]);
    assert(","@[0] != "."@[0]);
    assert(","@[0] != ":"@[0]);
    assert(";"@[0] != "."@[0]);
    assert(";"@[0] != ":"@[0]);
    assert(";"@[0] != ","@[0]);
    assert("="@[0] != "."@[0]);
    assert("="@[0] != ":"@[0]);
    assert("="@[0] != ","@[0]);
    assert("="@[0] != ";"@[0]);
    assert("'"@[0] != "."@[0]);
    assert("'"@[0] != ":"@[0]);
    assert("'"@[0] != ","@[0]);
    assert("'"@[0] != ";"@[0]);
    assert("'"@[0] != "="@[0]);
    assert("\""@[0] != "."@[0]);
    assert("\""@[0] != ":"@[0]);
    assert("\""@[0] != ","@[0]);
    assert("\""@[0] != ";"@[0]);
    assert("\""@[0] != "="@[0]);
    assert("\""@[0] != "'"@[0]);
    assert("("@[0] != "."@[0]);
    assert("("@[0] != ":"@[0]);
    assert("("@[0] != ","@[0]);
    assert("("@[0] != ";"@[0]);
    assert("("@[0] != "="@[0]);
    assert("("@[0] != "'"@[0]);
    assert("("@[0] != "\""@[0]);
    assert(")"@[0] != "."@[0]);
    assert(")"@[0] != ":"@[0]);
    assert(")"@[0] != ","@[0]);
    assert(")"@[0] != ";"@[0]);
    assert(")"@[0] != "="@[0]);
    assert(")"@[0] != "'"@[0]);
    assert(")"@[0] != "\""@[0]);
    assert(")"@[0] != "("@[0]);
    assert("["@[0] != "."@[0]);
    assert("["@[0] != ":"@[0]);
    assert("["@[0] != ","@[0]);
    assert("["@[0] != ";"@[0]);
    assert("["@[0] != "="@[0]);
    assert("["@[0] != "'"@[0]);
    assert("["@[0] != "\""@[0]);
    assert("["@[0] != "("@[0]);
    assert("["@[0] != ")"@[0]);
    assert("]"@[0] != "."@[0]);
    assert("]"@[0] != ":"@[0]);
    assert("]"@[0] != ","@[0]);
    assert("]"@[0] != ";"@[0]);
    assert("]"@[0] != "="@[0]);
    assert("]"@[0] != "'"@[0]);
    assert("]"@[0] != "\""@[0]);
    assert("]"@[0] != "("@[0]);
    assert("]"@[0] != ")"@[0]);
    assert("]"@[0] != "["@[0]);
    assert("{"@[0] != "."@[0]);
    assert("{"@[0] != ":"@[0]);
    assert("{"@[0] != ","@[0]);
    assert("{"@[0] != ";"@[0]);
    assert("{"@[0] != "="@[0]);
    assert("{"@[0] != "'"@[0]);
    assert("{"@[0] != "\""@[0]);
    assert("{"@[0] != "("@[0]);
    assert("{"@[0] != ")"@[0]);
    assert("{"@[0] != "["@[0]);
    assert("{"@[0] != "]"@[0]);
    assert("}"@[0] != "."@[0]);
    assert("}"@[0] != ":"@[0]);
    assert("}"@[0] != ","@[0]);
    assert("}"@[0] != ";"@[0]);
    assert("}"@[0] != "="@[0]);
    assert("}"@[0] != "'"@[0]);
    assert("}"@[0] != "\""@[0]);
    assert("}"@[0] != "("@[0]);
    assert("}"@[0] != ")"@[0]);
    assert("}"@[0] != "["@[0]);
    assert("}"@[0] != "]"@[0]);
    assert("}"@[0] != "{"@[0]);
}

/// Each operator symbol reads as the operator it spells: `>=` is greater or equal, `<=`
/// less or equal, `*` a product, `/` a quotient, `||` or, `&&` and, and so on.
pub proof fn law_reserved_operators()
    ensures
        reserved("+"@) == Some(TokenKind::Operator(Operator::Add)),
        reserved("-"@) == Some(TokenKind::Operator(Operator::Sub)),
        reserved("*"@) == Some(TokenKind::Operator(Operator::Mul)),
        reserved("/"@) == Some(TokenKind::Operator(Operator::Div)),
        reserved("%"@) == Some(TokenKind::Operator(Operator::Mod)),
        reserved("^"@) == Some(TokenKind::Operator(Operator::Pow)),
        reserved("!"@) == Some(TokenKind::Operator(Operator::LNot)),
        reserved("||"@) == Some(TokenKind::Operator(Operator::LOr)),
        reserved("&&"@) == Some(TokenKind::Operator(Operator::LAnd)),
        reserved("|"@) == Some(TokenKind::Operator(Operator::BWOr)),
        reserved("&"@) == Some(TokenKind::Operator(Operator::BWAnd)),
        reserved("=="@) == Some(TokenKind::Operator(Operator::Eq)),
        reserved("!="@) == Some(TokenKind::Operator(Operator::NEq)),
        reserved(">="@) == Some(TokenKind::Operator(Operator::GE)),
        reserved("<="@) == Some(TokenKind::Operator(Operator::LE)),
        reserved(">"@) == Some(TokenKind::Operator(Operator::G)),
        reserved("<"@) == Some(TokenKind::Operator(Operator::L)),
{
    reveal_strlit("with");
    reveal_strlit("pub");
    reveal_strlit("var");
    reveal_strlit("mut");
    reveal_strlit("if");
    reveal_strlit("else");
    reveal_strlit("loop");
    reveal_strlit("in");
    reveal_strlit("stop");
    reveal_strlit("skip");
    reveal_strlit("!GPU");
    reveal_strlit("!PAR");
    reveal_strlit("fun");
    reveal_strlit("class");
    reveal_strlit("type");
    reveal_strlit("ext");
    reveal_strlit("ret");
    reveal_strlit("u8");
    reveal_strlit("u16");
    reveal_strlit("u32");
    reveal_strlit("u64");
    reveal_strlit("i8");
    reveal_strlit("i16");
    reveal_strlit("i32");
    reveal_strlit("i64");
    reveal_strlit("f16");
    reveal_strlit("f32");
    reveal_strlit("f64");
    reveal_strlit("usize");
    reveal_strlit("bool");
    reveal_strlit("char");
    reveal_strlit("string");
    reveal_strlit("true");
    reveal_strlit("false");
    reveal_strlit(".");
    reveal_strlit("..");
    reveal_strlit(":");
    reveal_strlit("::");
    reveal_strlit(",");
    reveal_strlit(";");
    reveal_strlit("=");
    reveal_strlit("'");
    reveal_strlit("\"");
    reveal_strlit("(");
    reveal_strlit(")");
    reveal_strlit("[");
    reveal_strlit("]");
    reveal_strlit("{");
    reveal_strlit("}");
    reveal_strlit("+");
    reveal_strlit("-");
    reveal_strlit("*");
    reveal_strlit("/");
    reveal_strlit("%");
    reveal_strlit("^");
    reveal_strlit("!");
    reveal_strlit("||");
    reveal_strlit("&&");
    reveal_strlit("|");
    reveal_strlit("&");
    reveal_strlit("==");
    reveal_strlit("!=");
    reveal_strlit(">=");
    reveal_strlit("<=");
    reveal_strlit(">");
    reveal_strlit("<");
    assert("with"@.len() == 4);
    assert("pub"@.len() == 3);
    assert("var"@.len() == 3);
    assert("mut"@.len() == 3);
    assert("if"@.len() == 2);
    assert("else"@.len() == 4);
    assert("loop"@.len() == 4);
    assert("in"@.len() == 2);
    assert("stop"@.len() == 4);
    assert("skip"@.len() == 4);
    assert("!GPU"@.len() == 4);
    assert("!PAR"@.len() == 4);
    assert("fun"@.len() == 3);
    assert("class"@.len() == 5);
    assert("type"@.len() == 4);
    assert("ext"@.len() == 3);
    assert("ret"@.len() == 3);
    assert("u8"@.len() == 2);
    assert("u16"@.len() == 3);
    assert("u32"@.len() == 3);
    assert("u64"@.len() == 3);
    assert("i8"@.len() == 2);
    assert("i16"@.len() == 3);
    assert("i32"@.len() == 3);
    assert("i64"@.len() == 3);
    assert("f16"@.len() == 3);
    assert("f32"@.len() == 3);
    assert("f64"@.len() == 3);
    assert("usize"@.len() == 5);
    assert("bool"@.len() == 4);
    assert("char"@.len() == 4);
    assert("string"@.len() == 6);
    assert("true"@.len() == 4);
    assert("false"@.len() == 5);
    assert("."@.len() == 1);
    assert(".."@.len() == 2);
    assert(":"@.len() == 1);
    assert("::"@.len() == 2);
    assert(","@.len() == 1);
    assert(";"@.len() == 1);
    assert("="@.len() == 1);
    assert("'"@.len() == 1);
    assert("\""@.len() == 1);
    assert("("@.len() == 1);
    assert(")"@.len() == 1);
    assert("["@.len() == 1);
    assert("]"@.len() == 1);
    assert("{"@.len() == 1);
    assert("}"@.len() == 1);
    assert("+"@.len() == 1);
    assert("-"@.len() == 1);
    assert("*"@.len() == 1);
    assert("/"@.len() == 1);
    assert("%"@.len() == 1);
    assert("^"@.len() == 1);
    assert("!"@.len() == 1);
    assert("||"@.len() == 2);
    assert("&&"@.len() == 2);
    assert("|"@.len() == 1);
    assert("&"@.len() == 1);
    assert("=="@.len() == 2);
    assert("!="@.len() == 2);
    assert(">="@.len() == 2);
    assert("<="@.len() == 2);
    assert(">"@.len() == 1);
    assert("<"@.len() == 1);
    assert("+"@[0] != "."@[0]);
    assert("+"@[0] != ":"@[0]);
    assert("+"@[0] != ","@[0]);
    assert("+"@[0] != ";"@[0]);
    assert("+"@[0] != "="@[0]);
    assert("+"@[0] != "'"@[0]);
    assert("+"@[0] != "\""@[0]);
    assert("+"@[0] != "("@[0]);
    assert("+"@[0] != ")"@[0]);
    assert("+"@[0] != "["@[0]);
    assert("+"@[0] != "]"@[0]);
    assert("+"@[0] != "{"@[0]);
    assert("+"@[0] != "}"@[0]);
    assert("-"@[0] != "."@[0]);
    assert("-"@[0] != ":"@[0]);
    assert("-"@[0] != ","@[0]);
    assert("-"@[0] != ";"@[0]);
    assert("-"@[0] != "="@[0]);
    assert("-"@[0] != "'"@[0]);
    assert("-"@[0] != "\""@[0]);
    assert("-"@[0] != "("@[0]);
    assert("-"@[0] != ")"@[0]);
    assert("-"@[0] != "["@[0]);
    assert("-"@[0] != "]"@[0]);
    assert("-"@[0] != "{"@[0]);
    assert("-"@[0] != "}"@[0]);
    assert("-"@[0] != "+"@[0]);
    assert("*"@[0] != "."@[0]);
    assert("*"@[0] != ":"@[0]);
    assert("*"@[0] != ","@[0]);
    assert("*"@[0] != ";"@[0]);
    assert("*"@[0] != "="@[0]);
    assert("*"@[0] != "'"@[0]);
    assert("*"@[0] != "\""@[0]);
    assert("*"@[0] != "("@[0]);
    assert("*"@[0] != ")"@[0]);
    assert("*"@[0] != "["@[0]);
    assert("*"@[0] != "]"@[0]);
    assert("*"@[0] != "{"@[0]);
    assert("*"@[0] != "}"@[0]);
    assert("*"@[0] != "+"@[0]);
    assert("*"@[0] != "-"@[0]);
    assert("/"@[0] != "."@[0]);
    assert("/"@[0] != ":"@[0]);
    assert("/"@[0] != ","@[0]);
    assert("/"@[0] != ";"@[0]);
    assert("/"@[0] != "="@[0]);
    assert("/"@[0] != "'"@[0]);
    assert("/"@[0] != "\""@[0]);
    assert("/"@[0] != "("@[0]);
    assert("/"@[0] != ")"@[0]);
    assert("/"@[0] != "["@[0]);
    assert("/"@[0] != "]"@[0]);
    assert("/"@[0] != "{"@[0]);
    assert("/"@[0] != "}"@[0]);
    assert("/"@[0] != "+"@[0]);
    assert("/"@[0] != "-"@[0]);
    assert("/"@[0] != "*"@[0]);
    assert("%"@[0] != "."@[0]);
    assert("%"@[0] != ":"@[0]);
    assert("%"@[0] != ","@[0]);
    assert("%"@[0] != ";"@[0]);
    assert("%"@[0] != "="@[0]);
    assert("%"@[0] != "'"@[0]);
    assert("%"@[0] != "\""@[0]);
    assert("%"@[0] != "("@[0]);
    assert("%"@[0] != ")"@[0]);
    assert("%"@[0] != "["@[0]);
    assert("%"@[0] != "]"@[0]);
    assert("%"@[0] != "{"@[0]);
    assert("%"@[0] != "}"@[0]);
    assert("%"@[0] != "+"@[0]);
    assert("%"@[0] != "-"@[0]);
    assert("%"@[0] != "*"@[0]);
    assert("%"@[0] != "/"@[0]);
    assert("^"@[0] != "."@[0]);
    assert("^"@[0] != ":"@[0]);
    assert("^"@[0] != ","@[0]);
    assert("^"@[0] != ";"@[0]);
    assert("^"@[0] != "="@[0]);
    assert("^"@[0] != "'"@[0]);
    assert("^"@[0] != "\""@[0]);
    assert("^"@[0] != "("@[0]);
    assert("^"@[0] != ")"@[0]);
    assert("^"@[0] != "["@[0]);
    assert("^"@[0] != "]"@[0]);
    assert("^"@[0] != "{"@[0]);
    assert("^"@[0] != "}"@[0]);
    assert("^"@[0] != "+"@[0]);
    assert("^"@[0] != "-"@[0]);
    assert("^"@[0] != "*"@[0]);
    assert("^"@[0] != "/"@[0]);
    assert("^"@[0] != "%"@[0]);
    assert("!"@[0] != "."@[0]);
    assert("!"@[0] != ":"@[0]);
    assert("!"@[0] != ","@[0]);
    assert("!"@[0] != ";"@[0]);
    assert("!"@[0] != "="@[0]);
    assert("!"@[0] != "'"@[0]);
    assert("!"@[0] != "\""@[0]);
    assert("!"@[0] != "("@[0]);
    assert("!"@[0] != ")"@[0]);
    assert("!"@[0] != "["@[0]);
    assert("!"@[0] != "]"@[0]);
    assert("!"@[0] != "{"@[0]);
    assert("!"@[0] != "}"@[0]);
    assert("!"@[0] != "+"@[0]);
    assert("!"@[0] != "-"@[0]);
    assert("!"@[0] != "*"@[0]);
    assert("!"@[0] != "/"@[0]);
    assert("!"@[0] != "%"@[0]);
    assert("!"@[0] != "^"@[0]);
    assert("||"@[0] != "if"@[0]);
    assert("||"@[0] != "in"@[0]);
    assert("||"@[0] != "u8"@[0]);
    assert("||"@[0] != "i8"@[0]);
    assert("||"@[0] != ".."@[0]);
    assert("||"@[0] != "::"@[0]);
    assert("&&"@[0] != "if"@[0]);
    assert("&&"@[0] != "in"@[0]);
    assert("&&"@[0] != "u8"@[0]);
    assert("&&"@[0] != "i8"@[0]);
    assert("&&"@[0] != ".."@[0]);
    assert("&&"@[0] != "::"@[0]);
    assert("&&"@[0] != "||"@[0]);
    assert("|"@[0] != "."@[0]);
    assert("|"@[0] != ":"@[0]);
    assert("|"@[0] != ","@[0]);
    assert("|"@[0] != ";"@[0]);
    assert("|"@[0] != "="@[0]);
    assert("|"@[0] != "'"@[0]);
    assert("|"@[0] != "\""@[0]);
    assert("|"@[0] != "("@[0]);
    assert("|"@[0] != ")"@[0]);
    assert("|"@[0] != "["@[0]);
    assert("|"@[0] != "]"@[0]);
    assert("|"@[0] != "{"@[0]);
    assert("|"@[0] != "}"@[0]);
    assert("|"@[0] != "+"@[0]);
    assert("|"@[0] != "-"@[0]);
    assert("|"@[0] != "*"@[0]);
    assert("|"@[0] != "/"@[0]);
    assert("|"@[0] != "%"@[0]);
    assert("|"@[0] != "^"@[0]);
    assert("|"@[0] != "!"@[0]);
    assert("&"@[0] != "."@[0]);
    assert("&"@[0] != ":"@[0]);
    assert("&"@[0] != ","@[0]);
    assert("&"@[0] != ";"@[0]);
    assert("&"@[0] != "="@[0]);
    assert("&"@[0] != "'"@[0]);
    assert("&"@[0] != "\""@[0]);
    assert("&"@[0] != "("@[0]);
    assert("&"@[0] != ")"@[0]);
    assert("&"@[0] != "["@[0]);
    assert("&"@[0] != "]"@[0]);
    assert("&"@[0] != "{"@[0]);
    assert("&"@[0] != "}"@[0]);
    assert("&"@[0] != "+"@[0]);
    assert("&"@[0] != "-"@[0]);
    assert("&"@[0] != "*"@[0]);
    assert("&"@[0] != "/"@[0]);
    assert("&"@[0] != "%"@[0]);
    assert("&"@[0] != "^"@[0]);
    assert("&"@[0] != "!"@[0]);
    assert("&"@[0] != "|"@[0]);
    assert("=="@[0] != "if"@[0]);
    assert("=="@[0] != "in"@[0]);
    assert("=="@[0] != "u8"@[0]);
    assert("=="@[0] != "i8"@[0]);
    assert("=="@[0] != ".."@[0]);
    assert("=="@[0] != "::"@[0]);
    assert("=="@[0] != "||"@[0]);
    assert("=="@[0] != "&&"@[0]);
    assert("!="@[0] != "if"@[0]);
    assert("!="@[0] != "in"@[0]);
    assert("!="@[0] != "u8"@[0]);
    assert("!="@[0] != "i8"@[0]);
    assert("!="@[0] != ".."@[0]);
    assert("!="@[0] != "::"@[0]);
    assert("!="@[0] != "||"@[0]);
    assert("!="@[0] != "&&"@[0]);
    assert("!="@[0] != "=="@[0]);
    assert(">="@[0] != "if"@[0]);
    assert(">="@[0] != "in"@[0]);
    assert(">="@[0] != "u8"@[0]);
    assert(">="@[0] != "i8"@[0]);
    assert(">="@[0] != ".."@[0]);
    assert(">="@[0] != "::"@[0]);
    assert(">="@[0] != "||"@[0]);
    assert(">="@[0] != "&&"@[0]);
    assert(">="@[0] != "=="@[0]);
    assert(">="@[0] != "!="@[0]);
    assert("<="@[0] != "if"@[0]);
    assert("<="@[0] != "in"@[0]);
    assert("<="@[0] != "u8"@[0]);
    assert("<="@[0] != "i8"@[0]);
    assert("<="@[0] != ".."@[0]);
    assert("<="@[0] != "::"@[0]);
    assert("<="@[0] != "||"@[0]);
    assert("<="@[0] != "&&"@[0]);
    assert("<="@[0] != "=="@[0]);
    assert("<="@[0] != "!="@[0]);
    assert("<="@[0] != ">="@[0]);
    assert(">"@[0] != "."@[0]);
    assert(">"@[0] != ":"@[0]);
    assert(">"@[0] != ","@[0]);
    assert(">"@[0] != ";"@[0]);
    assert(">"@[0] != "="@[0]);
    assert(">"@[0] != "'"@[0]);
    assert(">"@[0] != "\""@[0]);
    assert(">"@[0] != "("@[0]);
    assert(">"@[0] != ")"@[0]);
    assert(">"@[0] != "["@[0]);
    assert(">"@[0] != "]"@[0]);
    assert(">"@[0] != "{"@[0]);
    assert(">"@[0] != "}"@[0]);
    assert(">"@[0] != "+"@[0]);
    assert(">"@[0] != "-"@[0]);
    assert(">"@[0] != "*"@[0]);
    assert(">"@[0] != "/"@[0]);
    assert(">"@[0] != "%"@[0]);
    assert(">"@[0] != "^"@[0]);
    assert(">"@[0] != "!"@[0]);
    assert(">"@[0] != "|"@[0]);
    assert(">"@[0] != "&"@[0]);
    assert("<"@[0] != "."@[0]);
    assert("<"@[0] != ":"@[0]);
    assert("<"@[0] != ","@[0]);
    assert("<"@[0] != ";"@[0]);
    assert("<"@[0] != "="@[0]);
    assert("<"@[0] != "'"@[0]);
    assert("<"@[0] != "\""@[0]);
    assert("<"@[0] != "("@[0]);
    assert("<"@[0] != ")"@[0]);
    assert("<"@[0] != "["@[0]);
    assert("<"@[0] != "]"@[0]);
    assert("<"@[0] != "{"@[0]);
    assert("<"@[0] != "}"@[0]);
    assert("<"@[0] != "+"@[0]);
    assert("<"@[0] != "-"@[0]);
    assert("<"@[0] != "*"@[0]);
    assert("<"@[0] != "/"@[0]);
    assert("<"@[0] != "%"@[0]);
    assert("<"@[0] != "^"@[0]);
    assert("<"@[0] != "!"@[0]);
    assert("<"@[0] != "|"@[0]);
    assert("<"@[0] != "&"@[0]);
    assert("<"@[0] != ">"@[0]);
}

/// `char::is_alphabetic`: whether the character has the Unicode `Alphabetic` property.
pub uninterp spec fn alphabetic(c: char) -> bool;

/// Whether the character has the Unicode `White_Space` property, as `char::is_whitespace`
/// tells: U+0009 to U+000D, the space, U+0085, U+00A0, U+1680, U+2000 to U+200A, U+2028,
/// U+2029, U+202F, U+205F and U+3000.
pub open spec fn whitespace(c: char) -> bool {
    ||| '\t' <= c <= '\r'
    ||| c == ' '
    ||| c == '\u{85}'
    ||| c == '\u{a0}'
    ||| c == '\u{1680}'
    ||| '\u{2000}' <= c <= '\u{200a}'
    ||| c == '\u{2028}'
    ||| c == '\u{2029}'
    ||| c == '\u{202f}'
    ||| c == '\u{205f}'
    ||| c == '\u{3000}'
}

/// Whether a character is a letter: among the ASCII characters exactly `A`-`Z` and
/// `a`-`z`, beyond them as `char::is_alphabetic` says.
pub open spec fn letter(c: char) -> bool {
    if c <= '\x7f' {
        'a' <= c <= 'z' || 'A' <= c <= 'Z'
    } else {
        alphabetic(c)
    }
}

/// Whether a character is white space: among the ASCII characters exactly the space and
/// U+0009 to U+000D, beyond them as `char::is_whitespace` says.
pub open spec fn space_char(c: char) -> bool {
    if c <= '\x7f' {
        c == ' ' || '\t' <= c <= '\r'
    } else {
        whitespace(c)
    }
}

/// std's `char::is_alphabetic`. Its result is named; among the ASCII characters exactly
/// the letters `A`-`Z` and `a`-`z` have the `Alphabetic` property.
#[verifier::external_body]
fn is_alphabetic(c: char) -> (r: bool)
    ensures
        r == alphabetic(c),
        c == '\0' ==> !r,
        r == letter(c),
{
    c.is_alphabetic()
}

/// Whether the character is white space in the sense of `char::is_whitespace`: whether
/// it has the Unicode `White_Space` property.
fn is_whitespace(c: char) -> (r: bool)
    ensures
        r == whitespace(c),
        r == space_char(c),
{
    ('\t' <= c && c <= '\r') || c == ' ' || c == '\u{85}' || c == '\u{a0}' || c == '\u{1680}' || ('\u{2000}' <= c
        && c <= '\u{200a}') || c == '\u{2028}' || c == '\u{2029}' || c == '\u{202f}' || c == '\u{205f}' || c
        == '\u{3000}'
}

pub open spec fn ascii_digit(c: char) -> bool {
    '0' <= c <= '9'
}

fn is_ascii_digit(c: char) -> (r: bool)
    ensures
        r == ascii_digit(c),
{
    '0' <= c && c <= '9'
}

/// The characters that end a word.
pub open spec fn punct_char(c: char) -> bool {
    c == '.' || c == ',' || c == ':' || c == ';' || c == '=' || c == '+' || c == '-' || c == '*'
        || c == '%' || c == '^' || c == '/' || c == '(' || c == ')' || c == '[' || c == ']'
        || c == '{' || c == '}' || c == '|' || c == '&' || c == '!' || c == '<' || c == '>'
}

/// The characters with an arm of their own when a token starts.
pub open spec fn token_start(c: char) -> bool {
    c == ':' || c == '.' || c == '+' || c == '-' || c == '*' || c == '/' || c == '%' || c == '^'
        || c == ';' || c == ',' || c == '(' || c == ')' || c == '[' || c == ']' || c == '{'
        || c == '}' || c == '"' || c == '\'' || c == '|' || c == '&' || c == '!' || c == '='
        || c == '>' || c == '<' || c == '#' || c == '@' || c == '$' || c == '_'
}

/// A character on which lexing makes no progress: it is neither skipped as blank space,
/// nor starts a comment, a symbol, a literal, a word or a number.
pub open spec fn inert(c: char) -> bool {
    !(c == ' ' || c == '\n' || c == '\t') && !token_start(c) && !letter(c) && !ascii_digit(c)
}

/// `usize` addition as the release build performs it (wrapping).
pub open spec fn wadd(a: usize, b: usize) -> usize {
    if a + b <= usize::MAX { (a + b) as usize } else { (a + b - usize::MAX - 1) as usize }
}

/// `usize` subtraction as the release build performs it (wrapping).
pub open spec fn wsub(a: usize, b: usize) -> usize {
    if a >= b { (a - b) as usize } else { (a - b + usize::MAX + 1) as usize }
}

pub fn add_wrapping(a: usize, b: usize) -> (r: usize)
    ensures
        r == wadd(a, b),
{
    if a <= usize::MAX - b { a + b } else { b - (usize::MAX - a) - 1 }
}

fn sub_wrapping(a: usize, b: usize) -> (r: usize)
    ensures
        r == wsub(a, b),
{
    if a >= b { a - b } else { usize::MAX - (b - a) + 1 }
}

/// The text with each carriage return that precedes a line feed removed
/// (`str::replace("\r\n", "\n")`).
pub open spec fn crlf_to_lf(s: Seq<char>) -> Seq<char>
    decreases s.len(),
{
    if s.len() == 0 {
        s
    } else if s.len() >= 2 && s[0] == '\r' && s[1] == '\n' {
        seq!['\n'] + crlf_to_lf(s.skip(2))
    } else {
        seq![s[0]] + crlf_to_lf(s.skip(1))
    }
}

fn normalize_newlines(s: &Vec<char>) -> (r: Vec<char>)
    ensures
        r@ == crlf_to_lf(s@),
{
    let mut out: Vec<char> = Vec::new();
    let n = s.len();
    let mut i: usize = 0;
    assert(s@.skip(0) =~= s@);
    while i < n
        invariant
            n == s@.len(),
            i <= n,
            out@ + crlf_to_lf(s@.skip(i as int)) == crlf_to_lf(s@),
        decreases n - i,
    {
        let ghost rest = s@.skip(i as int);
        if i + 1 < n && s[i] == '\r' && s[i + 1] == '\n' {
            assert(rest[0] == '\r' && rest[1] == '\n');
            assert(rest.skip(2) =~= s@.skip(i + 2));
            out.push('\n');
            assert(out@ + crlf_to_lf(s@.skip(i + 2)) =~= crlf_to_lf(s@));
            i = i + 2;
        } else {
            assert(rest[0] == s@[i as int]);
            assert(rest.skip(1) =~= s@.skip(i + 1));
            out.push(s[i]);
            assert(out@ + crlf_to_lf(s@.skip(i + 1)) =~= crlf_to_lf(s@));
            i = i + 1;
        }
    }
    assert(s@.skip(n as int) =~= Seq::<char>::empty());
    assert(out@ + Seq::<char>::empty() =~= out@);
    out
}

fn reversed(s: &Vec<char>) -> (r: Vec<char>)
    ensures
        r@ == s@.reverse(),
{
    let mut out: Vec<char> = Vec::new();
    let mut j = s.len();
    while j > 0
        invariant
            j <= s@.len(),
            out@ == s@.subrange(j as int, s@.len() as int).reverse(),
        decreases j,
    {
        out.push(s[j - 1]);
        j = j - 1;
        assert(out@ =~= s@.subrange(j as int, s@.len() as int).reverse());
    }
    assert(s@.subrange(0, s@.len() as int) =~= s@);
    out
}

pub struct Lexer {
    /// The input not read yet, last character first: the next character is the last one.
    pub chars: Vec<char>,
    pub line: usize,
    pub column: usize,
    pub tokens: Vec<Token>,
    pub file: String,
    pub rep: Reporter,
}

/// Whether `a` is a prefix of `b`.
pub open spec fn prefix_of<A>(a: Seq<A>, b: Seq<A>) -> bool {
    a.len() <= b.len() && forall|i: int| 0 <= i < a.len() ==> a[i] == b[i]
}

/// What a token is, by the text it was read from: a word (a keyword, type name, boolean,
/// symbol or identifier), a number, the text of a string literal, a character literal, or
/// a quote.
pub enum Lexeme {
    Word(Seq<char>),
    Number(Seq<char>),
    Text(Seq<char>),
    Letter(char),
    Quote,
}

/// Whether a token kind is the one a lexeme makes.
pub open spec fn kind_matches(k: TokenKind, l: Lexeme) -> bool {
    match l {
        Lexeme::Word(w) => match reserved(w) {
            Some(r) => k == r,
            None => k matches TokenKind::Identifier(s) && s@ == w,
        },
        Lexeme::Number(w) => k matches TokenKind::Value(ValueKind::Numeric(s)) && s@ == w,
        Lexeme::Text(w) => k matches TokenKind::Value(ValueKind::String(s)) && s@ == w,
        Lexeme::Letter(c) => k == TokenKind::Char(c),
        Lexeme::Quote => k == TokenKind::Punctuation(Punctuation::Quote),
    }
}

/// Whether the tokens are, in order, those the lexemes make.
pub open spec fn tokens_match(toks: Seq<Token>, ls: Seq<Lexeme>) -> bool {
    &&& toks.len() == ls.len()
    &&& forall|k: int| 0 <= k < ls.len() ==> kind_matches(#[trigger] toks[k].kind, ls[k])
}

/// The next character of the input, `'\0'` at its end.
pub open spec fn nxt(p: Seq<char>) -> char {
    if p.len() == 0 { '\0' } else { p[0] }
}

/// The input after one character is read (nothing changes at its end).
pub open spec fn rest1(p: Seq<char>) -> Seq<char> {
    if p.len() == 0 { p } else { p.drop_first() }
}

/// The input after one leading blank, tab or line feed is skipped.
pub open spec fn skip_blank(p: Seq<char>) -> Seq<char> {
    if nxt(p) == ' ' || nxt(p) == '\n' || nxt(p) == '\t' { p.drop_first() } else { p }
}

/// The rest of a line comment, from its second `/`: the input after the first line feed,
/// or nothing.
pub open spec fn line_rest(r: Seq<char>) -> Seq<char>
    decreases r.len(),
{
    let r1 = rest1(r);
    if nxt(r1) == '\n' || nxt(r1) == '\0' {
        rest1(r1)
    } else {
        line_rest(r1)
    }
}

/// The rest of a block comment, from the `*` that opens it: the input after the first `*/`
/// read as a pair (a `/*` read as a pair opens an inner comment), or up to the end. One
/// blank is skipped before each character read.
pub open spec fn block_rest(r: Seq<char>) -> Seq<char>
    decreases r.len(),
{
    let r0 = skip_blank(r);
    let c = if r0.len() == 0 { ' ' } else { r0[0] };
    let r1 = rest1(r0);
    if c == '/' && nxt(r1) == '*' {
        block_rest(rest1(r1))
    } else if c == '*' && nxt(r1) == '/' {
        rest1(r1)
    } else if nxt(r1) == '\0' {
        r1
    } else {
        block_rest(r1)
    }
}

/// The input after a comment that starts here, if one does.
pub open spec fn skip_comment(p: Seq<char>) -> Seq<char> {
    if nxt(p) == '/' {
        let r = p.drop_first();
        if nxt(r) == '/' {
            line_rest(r)
        } else if nxt(r) == '*' {
            block_rest(r)
        } else {
            p
        }
    } else {
        p
    }
}

/// The length of the text of a string literal: up to a quote, a line feed or the end.
pub open spec fn text_len(p: Seq<char>) -> nat
    decreases p.len(),
{
    if nxt(p) == '"' || nxt(p) == '\n' || nxt(p) == '\0' {
        0
    } else {
        1 + text_len(p.drop_first())
    }
}

/// Whether the input opens with a string literal that is closed: a `"`, its text, and a
/// `"` before any line end or the end of the input.
pub open spec fn closed_string(p: Seq<char>) -> bool {
    nxt(p) == '"' && nxt(rest1(p).skip(text_len(rest1(p)) as int)) == '"'
}

/// Whether one step of reading reports nothing: after one blank it meets no `/` (a
/// comment may report), no string left open, and none of the characters `#`, `@`, `$`
/// and `_`.
pub open spec fn step_clean(p: Seq<char>) -> bool {
    let q = skip_blank(p);
    &&& nxt(q) != '/'
    &&& nxt(q) == '"' ==> closed_string(q)
    &&& !(nxt(q) == '#' || nxt(q) == '@' || nxt(q) == '$' || nxt(q) == '_')
}

/// Whether reading the whole input reports nothing: each step is clean and takes some
/// input.
pub open spec fn lex_clean(p: Seq<char>) -> bool
    decreases p.len(),
{
    if p.len() == 0 {
        true
    } else {
        &&& step_clean(p)
        &&& lex_step(p).1.len() < p.len()
        &&& lex_clean(lex_step(p).1)
    }
}

/// Whether the character continues a number (`digits`) or a word.
pub open spec fn continues(c: char, digits: bool) -> bool {
    if digits {
        c != '\n' && !(c != '.' && punct_char(c)) && !space_char(c) && c != '\0'
    } else {
        !punct_char(c) && !space_char(c) && c != '\0'
    }
}

/// The characters that continue a number or a word.
pub open spec fn atom_tail(r: Seq<char>, digits: bool) -> Seq<char>
    decreases r.len(),
{
    if continues(nxt(r), digits) {
        seq![r[0]] + atom_tail(r.drop_first(), digits)
    } else {
        Seq::empty()
    }
}

/// The word or number that starts here: a letter and what continues a word, a digit and
/// what continues a number, or a lone `!`; nothing otherwise.
pub open spec fn atom(p: Seq<char>) -> Seq<char> {
    if p.len() > 0 && (letter(p[0]) || ascii_digit(p[0])) {
        seq![p[0]] + atom_tail(p.drop_first(), !letter(p[0]))
    } else if nxt(p) == '!' {
        seq!['!']
    } else {
        Seq::empty()
    }
}

/// A symbol of one character, or of two when the second is `second`.
pub open spec fn op_word(q: Seq<char>, second: char) -> Seq<char> {
    if nxt(q.drop_first()) == second { q.take(2) } else { q.take(1) }
}

/// The characters that make a token by themselves.
pub open spec fn single_symbol(c: char) -> bool {
    c == '+' || c == '-' || c == '*' || c == '/' || c == '%' || c == '^' || c == ';' || c == ',' || c == '('
        || c == ')' || c == '[' || c == ']' || c == '{' || c == '}'
}

/// The word read at the start of `q` (after blanks and comments).
pub open spec fn word_of(q: Seq<char>) -> Seq<char> {
    let n = nxt(q);
    if n == ':' {
        op_word(q, ':')
    } else if n == '.' {
        op_word(q, '.')
    } else if single_symbol(n) {
        q.take(1)
    } else if n == '|' {
        op_word(q, '|')
    } else if n == '&' {
        op_word(q, '&')
    } else if n == '!' || n == '=' || n == '>' || n == '<' {
        op_word(q, '=')
    } else {
        atom(q)
    }
}

/// The token a word makes: none for no word, a number when it starts with a digit.
pub open spec fn word_lexemes(w: Seq<char>) -> Seq<Lexeme> {
    if w.len() == 0 {
        Seq::empty()
    } else if ascii_digit(w[0]) {
        seq![Lexeme::Number(w)]
    } else {
        seq![Lexeme::Word(w)]
    }
}

/// A string literal at the start of `q`: its quotes and its text, and the input after it.
/// Without a closing quote the literal ends at the line feed (read as its closing quote)
/// or at the end of the input.
pub open spec fn string_step(q: Seq<char>) -> (Seq<Lexeme>, Seq<char>) {
    let r1 = q.drop_first();
    let open = nxt(r1) != '"';
    let r2 = if open { r1.skip(text_len(r1) as int) } else { r1 };
    let ls = if open { seq![Lexeme::Quote, Lexeme::Text(r1.take(text_len(r1) as int))] } else { seq![Lexeme::Quote] };
    if nxt(r2) == '\0' {
        (ls, rest1(r2))
    } else {
        (ls.push(Lexeme::Quote), rest1(r2))
    }
}

/// A character literal at the start of `q`: the character after the quote (a blank at the
/// end of the input) and the one after it, whatever it is, are read; `''` gives none.
pub open spec fn char_step(q: Seq<char>) -> (Seq<Lexeme>, Seq<char>) {
    let r1 = q.drop_first();
    if nxt(r1) != '\'' {
        let c = if r1.len() == 0 { ' ' } else { r1[0] };
        (seq![Lexeme::Letter(c)], rest1(rest1(r1)))
    } else {
        (Seq::empty(), rest1(r1))
    }
}

/// One step of reading, after blanks and comments: the tokens it makes and the input
/// after it. `#`, `@`, `$` and `_` are skipped (and reported).
pub open spec fn read_step(q: Seq<char>) -> (Seq<Lexeme>, Seq<char>) {
    let n = nxt(q);
    if n == '"' {
        string_step(q)
    } else if n == '\'' {
        char_step(q)
    } else if n == '#' || n == '@' || n == '$' || n == '_' {
        (Seq::empty(), rest1(q))
    } else {
        let w = word_of(q);
        (word_lexemes(w), q.skip(w.len() as int))
    }
}

/// One step of the lexer: one blank and a comment skipped, then one step of reading.
pub open spec fn lex_step(p: Seq<char>) -> (Seq<Lexeme>, Seq<char>) {
    read_step(skip_comment(skip_blank(p)))
}

/// Whether a text holds no line feed and no NUL character: all of it is one line.
pub open spec fn one_line(p: Seq<char>) -> bool {
    forall|i: int| 0 <= i < p.len() ==> p[i] != '\n' && p[i] != '\0'
}

/// Whether the tokens from index `from` on all stand on line `l`.
pub open spec fn lines_from(toks: Seq<Token>, from: int, l: usize) -> bool {
    forall|k: int| from <= k < toks.len() ==> #[trigger] toks[k].line == l
}

proof fn lemma_one_line_rest1(p: Seq<char>)
    requires
        one_line(p),
    ensures
        one_line(rest1(p)),
        one_line(skip_blank(p)),
{
    if p.len() > 0 {
        assert forall|i: int| 0 <= i < p.drop_first().len() implies p.drop_first()[i] != '\n' && p.drop_first()[i]
            != '\0' by {
            assert(p.drop_first()[i] == p[i + 1]);
        }
    }
}

proof fn lemma_one_line_skip(p: Seq<char>, n: int)
    requires
        one_line(p),
        0 <= n <= p.len(),
    ensures
        one_line(p.skip(n)),
{
    assert forall|i: int| 0 <= i < p.skip(n).len() implies p.skip(n)[i] != '\n' && p.skip(n)[i] != '\0' by {
        assert(p.skip(n)[i] == p[i + n]);
    }
}

proof fn lemma_text_len_bound(p: Seq<char>)
    ensures
        text_len(p) <= p.len(),
    decreases p.len(),
{
    if !(nxt(p) == '"' || nxt(p) == '\n' || nxt(p) == '\0') {
        lemma_text_len_bound(p.drop_first());
    }
}

proof fn lemma_atom_tail_bound(r: Seq<char>, digits: bool)
    ensures
        atom_tail(r, digits).len() <= r.len(),
    decreases r.len(),
{
    if continues(nxt(r), digits) {
        lemma_atom_tail_bound(r.drop_first(), digits);
    }
}

proof fn lemma_word_bound(q: Seq<char>)
    ensures
        word_of(q).len() <= q.len(),
{
    if q.len() > 0 && (letter(q[0]) || ascii_digit(q[0])) {
        lemma_atom_tail_bound(q.drop_first(), !letter(q[0]));
    }
}

proof fn lemma_one_line_line_rest(r: Seq<char>)
    requires
        one_line(r),
    ensures
        one_line(line_rest(r)),
    decreases r.len(),
{
    let r1 = rest1(r);
    lemma_one_line_rest1(r);
    lemma_one_line_rest1(r1);
    if !(nxt(r1) == '\n' || nxt(r1) == '\0') {
        lemma_one_line_line_rest(r1);
    }
}

proof fn lemma_one_line_block_rest(r: Seq<char>)
    requires
        one_line(r),
    ensures
        one_line(block_rest(r)),
    decreases r.len(),
{
    let r0 = skip_blank(r);
    lemma_one_line_rest1(r);
    let r1 = rest1(r0);
    lemma_one_line_rest1(r0);
    lemma_one_line_rest1(r1);
    let c = if r0.len() == 0 { ' ' } else { r0[0] };
    if c == '/' && nxt(r1) == '*' {
        lemma_one_line_block_rest(rest1(r1));
    } else if c == '*' && nxt(r1) == '/' {
    } else if nxt(r1) == '\0' {
    } else {
        lemma_one_line_block_rest(r1);
    }
}

/// Reading one step of a text that is one line leaves a text that is one line.
proof fn lemma_one_line_step(p: Seq<char>)
    requires
        one_line(p),
    ensures
        one_line(lex_step(p).1),
{
    lemma_one_line_rest1(p);
    let q0 = skip_blank(p);
    if nxt(q0) == '/' {
        let r = q0.drop_first();
        lemma_one_line_rest1(q0);
        if nxt(r) == '/' {
            lemma_one_line_line_rest(r);
        } else if nxt(r) == '*' {
            lemma_one_line_block_rest(r);
        }
    }
    let q = skip_comment(q0);
    assert(one_line(q));
    let n = nxt(q);
    if n == '"' {
        let r1 = q.drop_first();
        lemma_one_line_rest1(q);
        lemma_text_len_bound(r1);
        lemma_one_line_skip(r1, text_len(r1) as int);
        let r2 = if nxt(r1) != '"' { r1.skip(text_len(r1) as int) } else { r1 };
        assert(one_line(r2));
        lemma_one_line_rest1(r2);
    } else if n == '\'' {
        let r1 = q.drop_first();
        lemma_one_line_rest1(q);
        lemma_one_line_rest1(r1);
        lemma_one_line_rest1(rest1(r1));
    } else if n == '#' || n == '@' || n == '$' || n == '_' {
        lemma_one_line_rest1(q);
    } else {
        let w = word_of(q);
        lemma_word_bound(q);
        lemma_one_line_skip(q, w.len() as int);
    }
}

/// The tokens of an input, step after step, up to its end or to a step that reads
/// nothing.
pub open spec fn scan(p: Seq<char>) -> Seq<Lexeme>
    decreases p.len(),
{
    if p.len() == 0 {
        Seq::empty()
    } else {
        let (ls, r) = lex_step(p);
        if r.len() < p.len() {
            ls + scan(r)
        } else {
            Seq::empty()
        }
    }
}

/// A token as the lexer makes it: it names the lexer's file; an identifier is a word
/// that is no keyword, type name, boolean or symbol and does not start with a digit; a
/// number starts with a digit.
pub open spec fn lexed_token(t: Token, file: Seq<char>) -> bool {
    &&& t.file@ == file
    &&& match t.kind {
        TokenKind::Identifier(s) => s@.len() > 0 && reserved(s@) is None && !ascii_digit(s@[0]),
        TokenKind::Value(ValueKind::Numeric(s)) => s@.len() > 0 && ascii_digit(s@[0]),
        _ => true,
    }
}

proof fn lemma_tokens_match_concat(toks: Seq<Token>, a: int, b: int, l1: Seq<Lexeme>, l2: Seq<Lexeme>)
    requires
        0 <= a <= b <= toks.len(),
        tokens_match(toks.subrange(a, b), l1),
        tokens_match(toks.skip(b), l2),
    ensures
        tokens_match(toks.skip(a), l1 + l2),
{
    assert forall|k: int| 0 <= k < (l1 + l2).len() implies kind_matches(#[trigger] toks.skip(a)[k].kind, (l1 + l2)[k]) by {
        if k < l1.len() {
            assert(toks.skip(a)[k] == toks.subrange(a, b)[k]);
        } else {
            assert(toks.skip(a)[k] == toks.skip(b)[k - l1.len()]);
        }
    }
}

impl Lexer {
    /// Every token read so far is as the lexer makes it.
    pub open spec fn tokens_ok(&self) -> bool {
        forall|k: int| 0 <= k < self.tokens@.len() ==> lexed_token(#[trigger] self.tokens@[k], self.file@)
    }

    /// The input not read yet, in reading order.
    pub open spec fn pending(&self) -> Seq<char> {
        self.chars@.reverse()
    }

    /// The lexer sits on a character where it makes no progress.
    pub open spec fn stuck(&self) -> bool {
        self.chars@.len() > 0 && inert(self.chars@.last())
    }

    /// Tokens and diagnostics recorded before stay, in place, and the file name stays.
    pub open spec fn extends(&self, before: &Lexer) -> bool {
        &&& prefix_of(before.tokens@, self.tokens@)
        &&& prefix_of(before.rep.messages@, self.rep.messages@)
        &&& self.file == before.file
        &&& self.chars@.len() <= before.chars@.len()
    }

    /// A lexer at the start of `source` (line 1, column 1), with Windows line ends turned
    /// into line feeds; `file` names the file in tokens and diagnostics.
    pub fn from_source(source: &str, file: &str) -> (r: Lexer)
        ensures
            r.pending() == crlf_to_lf(source@),
            r.tokens_ok(),
            r.line == 1,
            r.column == 1,
            r.tokens@.len() == 0,
            r.file@ == file@,
            r.rep.messages@.len() == 0,
    {
        let text = str_chars(source);
        let normal = normalize_newlines(&text);
        let chars = reversed(&normal);
        proof {
            assert(chars@.reverse() =~= normal@);
        }
        Lexer { chars, line: 1, column: 1, tokens: Vec::new(), file: owned(file), rep: Reporter::new() }
    }

    /// A lexer with nothing to read, holding the error that the file at `path` could not
    /// be opened.
    pub fn unreadable(path: &str, file: &str) -> (r: Lexer)
        ensures
            r.chars@.len() == 0,
            r.line == 1,
            r.column == 1,
            r.tokens@.len() == 0,
            r.file@ == file@,
            r.rep.messages@.len() == 1,
            r.rep.messages@[0].kind matches Kind::FileNotFound(p) && p@ == path@,
            r.rep.messages@[0].severity == Severity::Error,
            r.rep.messages@[0].hint is Some,
            r.rep.messages@[0].hint.unwrap()@ == "Try opening another file."@,
            r.rep.messages@[0].file is None,
            r.rep.messages@[0].line is None,
            r.rep.messages@[0].col is None,
    {
        let mut rep = Reporter::new();
        rep.add(GraviError::throw(Kind::FileNotFound(owned(path))).hint("Try opening another file."));
        Lexer { chars: Vec::new(), line: 1, column: 1, tokens: Vec::new(), file: owned(file), rep }
    }

    /// The next character, or `'\0'` at the end of the input.
    fn next(&self) -> (r: char)
        ensures
            r == if self.chars@.len() == 0 { '\0' } else { self.chars@.last() },
            r == nxt(self.pending()),
    {
        if self.chars.len() == 0 {
            return '\0';
        }
        self.chars[self.chars.len() - 1]
    }

    /// Reads the next character (a blank at the end of the input), one column further.
    fn advance(&mut self) -> (r: char)
        ensures
            final(self).column == wadd(old(self).column, 1),
            final(self).line == old(self).line,
            final(self).tokens == old(self).tokens,
            final(self).rep == old(self).rep,
            final(self).file == old(self).file,
            old(self).chars@.len() > 0 ==> r == old(self).chars@.last() && final(self).chars@
                == old(self).chars@.drop_last(),
            old(self).chars@.len() == 0 ==> r == ' ' && final(self).chars@ == old(self).chars@,
            final(self).pending() == rest1(old(self).pending()),
            r == (if old(self).pending().len() == 0 { ' ' } else { old(self).pending()[0] }),
    {
        self.column = add_wrapping(self.column, 1);
        let ghost before = self.chars@;
        let r = match self.chars.pop() {
            Some(c) => c,
            None => ' ',
        };
        proof {
            if before.len() > 0 {
                assert(before.drop_last().reverse() =~= before.reverse().drop_first());
            }
        }
        r
    }

    /// Skips one blank, tab or line feed; a line feed starts a new line.
    fn is_special(&mut self)
        ensures
            final(self).tokens == old(self).tokens,
            final(self).rep == old(self).rep,
            final(self).file == old(self).file,
            old(self).chars@.len() > 0 && (old(self).chars@.last() == ' ' || old(self).chars@.last() == '\t') ==> {
                &&& final(self).chars@ == old(self).chars@.drop_last()
                &&& final(self).column == wadd(old(self).column, 1)
                &&& final(self).line == old(self).line
            },
            old(self).chars@.len() > 0 && old(self).chars@.last() == '\n' ==> {
                &&& final(self).chars@ == old(self).chars@.drop_last()
                &&& final(self).column == 1
                &&& final(self).line == wadd(old(self).line, 1)
            },
            !(old(self).chars@.len() > 0 && (old(self).chars@.last() == ' ' || old(self).chars@.last() == '\t'
                || old(self).chars@.last() == '\n')) ==> final(self).chars == old(self).chars
                && final(self).column == old(self).column && final(self).line == old(self).line,
            final(self).pending() == skip_blank(old(self).pending()),
    {
        if self.next() == ' ' {
            let _ = self.advance();
        } else if self.next() == '\n' {
            let _ = self.advance();
            self.column = 1;
            self.line = add_wrapping(self.line, 1);
        } else if self.next() == '\t' {
            let _ = self.advance();
        }
    }

    /// Skips a comment, if one starts here: a line comment up to the end of its line, a
    /// block comment up to its first `*/`. An unterminated block comment is an error,
    /// inner `/*` left open are warnings.
    fn is_comment(&mut self)
        ensures
            final(self).extends(&*old(self)),
            final(self).tokens == old(self).tokens,
            !(old(self).chars@.len() > 0 && old(self).chars@.last() == '/') ==> *final(self) == *old(self),
            old(self).chars@.len() > 0 && old(self).chars@.last() == '/' ==> final(self).chars@.len() > 0
                && final(self).chars@.last() == '/' || final(self).chars@.len() < old(self).chars@.len(),
            final(self).pending() == skip_comment(old(self).pending()),
            one_line(old(self).pending()) ==> final(self).line == old(self).line || final(self).chars@.len() == 0,
    {
        let ghost ol = one_line(old(self).pending());
        if self.next() == '/' {
            let ghost before = self.chars@;
            let mut c = self.advance();
            proof {
                if ol {
                    lemma_one_line_rest1(old(self).pending());
                }
            }
            if self.next() == '/' {
                let ghost r = self.pending();
                loop
                    invariant_except_break
                        line_rest(r) == line_rest(self.pending()),
                        ol ==> one_line(self.pending()) && self.line == old(self).line,
                    invariant
                        self.extends(&*old(self)),
                        self.tokens == old(self).tokens,
                        self.chars@.len() < old(self).chars@.len(),
                        ol == one_line(old(self).pending()),
                    ensures
                        self.pending() == line_rest(r),
                        ol ==> self.chars@.len() == 0,
                    decreases self.chars@.len(),
                {
                    let ghost p0 = self.pending();
                    self.advance();
                    proof {
                        if ol {
                            lemma_one_line_rest1(p0);
                        }
                    }
                    if self.next() == '\n' || self.next() == '\0' {
                        proof {
                            if ol {
                                assert(self.pending().len() == 0);
                            }
                        }
                        self.advance();
                        self.line = add_wrapping(self.line, 1);
                        self.column = 1;
                        break;
                    }
                }
            } else if self.next() == '*' {
                let start_line = self.line;
                let start_col = self.column;
                let mut nested: usize = 0;
                let ghost r = self.pending();
                loop
                    invariant_except_break
                        block_rest(r) == block_rest(self.pending()),
                    invariant
                        self.extends(&*old(self)),
                        self.tokens == old(self).tokens,
                        self.chars@.len() < old(self).chars@.len(),
                        ol == one_line(old(self).pending()),
                        ol ==> one_line(self.pending()) && self.line == old(self).line,
                    ensures
                        self.pending() == block_rest(r),
                        ol ==> self.line == old(self).line,
                    decreases self.chars@.len(),
                {
                    let ghost round = self.chars@.len();
                    let ghost p0 = self.pending();
                    proof {
                        if ol && p0.len() > 0 {
                            assert(p0[0] == self.chars@.last());
                        }
                    }
                    self.is_special();
                    let ghost p1 = self.pending();
                    proof {
                        if ol {
                            lemma_one_line_rest1(p0);
                        }
                    }
                    c = self.advance();
                    proof {
                        if ol {
                            lemma_one_line_rest1(p1);
                        }
                    }
                    if c == '/' && self.next() == '*' {
                        let _ = self.advance();
                        nested = add_wrapping(nested, 1);
                    } else if c == '*' && self.next() == '/' {
                        let _ = self.advance();
                        if nested > 0 {
                            let mut k: usize = 0;
                            let ghost fixed = self.chars@;
                            let ghost line_fixed = self.line;
                            while k < nested
                                invariant
                                    self.extends(&*old(self)),
                                    self.tokens == old(self).tokens,
                                    self.chars@.len() < old(self).chars@.len(),
                                    self.chars@ == fixed,
                                    self.line == line_fixed,
                                decreases nested - k,
                            {
                                let hint = concat3(
                                    "There are ",
                                    usize_to_string(nested).as_str(),
                                    " unclosed inner ",
                                );
                                let hint = concat3(hint.as_str(), bright_blue_bold("/*").as_str(), " inside this block comment.");
                                self.rep.add(
                                    GraviError::throw(Kind::UnterminatedComment).severity(Severity::Warning).file(
                                        self.file.as_str(),
                                    ).at(start_line, start_col).hint(hint.as_str()),
                                );
                                k = k + 1;
                            }
                        }
                        break;
                    } else if self.next() == '\0' {
                        let hint = concat3("Try writing ", bright_blue_bold("*/").as_str(), " to end your monologue.");
                        self.rep.add(
                            GraviError::throw(Kind::UnterminatedComment).file(self.file.as_str()).at(
                                start_line,
                                start_col,
                            ).hint(hint.as_str()),
                        );
                        break;
                    }
                    if self.chars.len() == 0 {
                        // The input ended inside the comment: the next round finds its end.
                        assert(self.chars@.len() < round);
                    }
                }
            } else {
                self.chars.push(c);
                assert(self.chars@ =~= before);
            }
        }
    }

    /// Whether the next character ends a word (a character equal to `ignore` does not).
    fn is_punctuation(&self, ignore: Option<char>) -> (r: bool)
        ensures
            ({
                let c = if self.chars@.len() == 0 { '\0' } else { self.chars@.last() };
                r == (ignore != Some(c) && punct_char(c))
            }),
    {
        let c = self.next();
        if ignore == Some(c) {
            return false;
        }
        c == '.' || c == ',' || c == ':' || c == ';' || c == '=' || c == '+' || c == '-' || c == '*'
            || c == '%' || c == '^' || c == '/' || c == '(' || c == ')' || c == '[' || c == ']'
            || c == '{' || c == '}' || c == '|' || c == '&' || c == '!' || c == '<' || c == '>'
    }

    /// Reads the text of a string literal, up to its closing quote. A line feed or the end
    /// of the input before the quote is an error.
    fn read_string_literal(&mut self) -> (r: String)
        ensures
            final(self).extends(&*old(self)),
            final(self).tokens == old(self).tokens,
            final(self).line == old(self).line,
            r@ + final(self).pending() == old(self).pending(),
            forall|i: int| 0 <= i < r@.len() ==> #[trigger] r@[i] != '"' && r@[i] != '\n' && r@[i] != '\0',
            final(self).chars@.len() > 0 && final(self).chars@.last() == '"' ==> final(self).rep == old(self).rep,
            !(final(self).chars@.len() > 0 && final(self).chars@.last() == '"') ==>
                final(self).rep.messages@.len() == old(self).rep.messages@.len() + 1,
            r@ == old(self).pending().take(text_len(old(self).pending()) as int),
            final(self).pending() == old(self).pending().skip(text_len(old(self).pending()) as int),
    {
        let mut word: String = String::new();
        loop
            invariant_except_break
                self.rep == old(self).rep,
            invariant
                text_len(old(self).pending()) == word@.len() + text_len(self.pending()),
                self.extends(&*old(self)),
                self.tokens == old(self).tokens,
                self.line == old(self).line,
                word@ + self.pending() == old(self).pending(),
                forall|i: int| 0 <= i < word@.len() ==> #[trigger] word@[i] != '"' && word@[i] != '\n' && word@[i] != '\0',
            ensures
                text_len(old(self).pending()) == word@.len() + text_len(self.pending()),
                nxt(self.pending()) == '"' || nxt(self.pending()) == '\n' || nxt(self.pending()) == '\0',
                self.extends(&*old(self)),
                self.tokens == old(self).tokens,
                self.line == old(self).line,
                word@ + self.pending() == old(self).pending(),
                forall|i: int| 0 <= i < word@.len() ==> #[trigger] word@[i] != '"' && word@[i] != '\n' && word@[i] != '\0',
                self.chars@.len() > 0 && self.chars@.last() == '"' ==> self.rep == old(self).rep,
                !(self.chars@.len() > 0 && self.chars@.last() == '"') ==>
                    self.rep.messages@.len() == old(self).rep.messages@.len() + 1,
            decreases self.chars@.len(),
        {
            let n = self.next();
            if n != '"' && n != '\n' && n != '\0' {
                let ghost before = self.chars@;
                let c = self.advance();
                proof {
                    assert(before.reverse() =~= seq![c] + self.chars@.reverse());
                }
                push_char(&mut word, c);
                assert(word@ + self.pending() =~= old(self).pending());
            } else if n == '\n' || n == '\0' {
                let hint = concat3("Try writing ", bright_blue_bold("\"").as_str(), " to end your monologue.");
                self.rep.add(
                    GraviError::throw(Kind::UnterminatedString).file(self.file.as_str()).at(self.line, self.column).hint(
                        hint.as_str(),
                    ),
                );
                break;
            } else {
                break;
            }
        }
        proof {
            assert(text_len(self.pending()) == 0);
            assert(word@ =~= old(self).pending().take(word@.len() as int));
            assert(self.pending() =~= old(self).pending().skip(word@.len() as int));
        }
        word
    }

    /// Reads an operator of one character, or of two when the second is `next`.
    fn read_op(&mut self, next: char) -> (r: String)
        requires
            next != '\0',
        ensures
            final(self).extends(&*old(self)),
            final(self).tokens == old(self).tokens,
            final(self).rep == old(self).rep,
            final(self).line == old(self).line,
            r@ + final(self).pending() == old(self).pending() || (old(self).chars@.len() == 0 && r@ == seq![' ']),
            r@.len() == 1 || r@.len() == 2,
            r@.len() == 2 ==> r@[1] == next,
            old(self).pending().len() > 0 ==> r@ == op_word(old(self).pending(), next) && final(self).pending()
                == old(self).pending().skip(r@.len() as int),
    {
        let ghost before = self.chars@;
        let c = self.advance();
        self.column = add_wrapping(self.column, 1);
        let mut word: String = String::new();
        push_char(&mut word, c);
        proof {
            if before.len() > 0 {
                assert(before.reverse() =~= seq![c] + self.chars@.reverse());
            }
        }
        if self.next() == next {
            let ghost mid = self.chars@;
            let d = self.advance();
            assert(mid.reverse() =~= seq![d] + self.chars@.reverse());
            push_char(&mut word, d);
            assert(word@ + self.pending() =~= old(self).pending());
        }
        proof {
            if old(self).pending().len() > 0 {
                assert(word@ =~= op_word(old(self).pending(), next));
                assert(self.pending() =~= old(self).pending().skip(word@.len() as int));
            }
        }
        word
    }

    /// Reads a word (a letter and what follows up to a symbol or a blank), a number (a
    /// digit and what follows up to a symbol other than `.`, a blank or a line end), or
    /// `!` with the attribute it may start.
    fn read_atom(&mut self) -> (r: String)
        ensures
            final(self).extends(&*old(self)),
            final(self).tokens == old(self).tokens,
            final(self).rep == old(self).rep,
            final(self).line == old(self).line,
            r@ + final(self).pending() == old(self).pending(),
            r@.len() == 0 ==> *final(self) == *old(self),
            old(self).chars@.len() > 0 && (letter(old(self).chars@.last()) || ascii_digit(old(self).chars@.last())
                || old(self).chars@.last() == '!') ==> r@.len() > 0,
            r@ == atom(old(self).pending()),
    {
        let mut word: String = String::new();
        let first = self.next();
        if is_alphabetic(first) || is_ascii_digit(first) {
            let digits = !is_alphabetic(first);
            let ghost before = self.chars@;
            let c = self.advance();
            assert(before.reverse() =~= seq![c] + self.chars@.reverse());
            push_char(&mut word, c);
            let ghost tail = old(self).pending().drop_first();
            assert(word@.drop_first() =~= Seq::<char>::empty());
            assert(self.pending() =~= tail);
            loop
                invariant
                    self.extends(&*old(self)),
                    self.tokens == old(self).tokens,
                    self.rep == old(self).rep,
                    self.line == old(self).line,
                    word@ + self.pending() == old(self).pending(),
                    word@.len() > 0,
                    word@[0] == first,
                    atom_tail(tail, digits) == word@.drop_first() + atom_tail(self.pending(), digits),
                ensures
                    atom_tail(tail, digits) == word@.drop_first(),
                    word@ + self.pending() == old(self).pending(),
                    word@.len() > 0,
                    word@[0] == first,
                    self.extends(&*old(self)),
                    self.tokens == old(self).tokens,
                    self.rep == old(self).rep,
                    self.line == old(self).line,
                decreases self.chars@.len(),
            {
                let n = self.next();
                let go = if digits {
                    n != '\n' && !self.is_punctuation(Some('.')) && !is_whitespace(n) && n != '\0'
                } else {
                    !self.is_punctuation(None) && !is_whitespace(n) && n != '\0'
                };
                assert(go == continues(nxt(self.pending()), digits));
                if go {
                    let ghost mid = self.chars@;
                    let ghost cur = self.pending();
                    let ghost w0 = word@;
                    let d = self.advance();
                    assert(mid.reverse() =~= seq![d] + self.chars@.reverse());
                    push_char(&mut word, d);
                    assert(word@ + self.pending() =~= old(self).pending());
                    assert(atom_tail(cur, digits) == seq![d] + atom_tail(self.pending(), digits));
                    assert(word@.drop_first() =~= w0.drop_first() + seq![d]);
                } else {
                    assert(atom_tail(self.pending(), digits) =~= Seq::<char>::empty());
                    break;
                }
            }
            proof {
                assert(first == old(self).pending()[0]);
                assert(word@ =~= seq![first] + word@.drop_first());
            }
        } else if first == '!' {
            let mut temp: String = String::new();
            let ghost start = *self;
            loop
                invariant
                    self.extends(&start),
                    self.tokens == old(self).tokens,
                    self.rep == old(self).rep,
                    self.line == old(self).line,
                    temp@ + self.pending() == old(self).pending(),
                    start.chars@.len() > 0 && start.chars@.last() == '!',
                    temp@.len() == 0 && *self == start,
                decreases self.chars@.len(),
            {
                let n = self.next();
                if !self.is_punctuation(None) && !is_whitespace(n) && n != '\0' {
                    let ghost mid = self.chars@;
                    let d = self.advance();
                    assert(mid.reverse() =~= seq![d] + self.chars@.reverse());
                    push_char(&mut temp, d);
                    assert(temp@ + self.pending() =~= old(self).pending());
                } else {
                    break;
                }
            }
            // `!` itself ends a word, so nothing was read after it.
            assert(temp@.len() == 0);
            if str_eq(temp.as_str(), "!GPU") || str_eq(temp.as_str(), "!PAR") {
                proof {
                    reveal_strlit("!GPU");
                    reveal_strlit("!PAR");
                }
                assert(false);
                word = temp;
            } else {
                let ghost before = self.chars@;
                let c = self.advance();
                assert(before.reverse() =~= seq![c] + self.chars@.reverse());
                push_char(&mut word, c);
                assert(word@ + self.pending() =~= old(self).pending());
            }
        }
        word
    }

    /// The token for a word read at the current position: a keyword, a type name, a
    /// boolean literal, a symbol, or else an identifier. Its column is the current column
    /// less the word's length in bytes (wrapping, as the release build computes it).
    fn what(&self, word: &str) -> (r: Token)
        ensures
            r.file@ == self.file@,
            r.line == self.line,
            r.column == wsub(self.column, word.spec_bytes().len() as usize),
            match reserved(word@) {
                Some(k) => r.kind == k,
                None => r.kind matches TokenKind::Identifier(s) && s@ == word@,
            },
    {
        let kind = if str_eq(word, "with") {
            TokenKind::Keyword(Keyword::With)
        } else if str_eq(word, "pub") {
            TokenKind::Keyword(Keyword::Pub)
        } else if str_eq(word, "var") {
            TokenKind::Keyword(Keyword::Var)
        } else if str_eq(word, "mut") {
            TokenKind::Keyword(Keyword::Mut)
        } else if str_eq(word, "if") {
            TokenKind::Keyword(Keyword::If)
        } else if str_eq(word, "else") {
            TokenKind::Keyword(Keyword::Else)
        } else if str_eq(word, "loop") {
            TokenKind::Keyword(Keyword::Loop)
        } else if str_eq(word, "in") {
            TokenKind::Keyword(Keyword::In)
        } else if str_eq(word, "stop") {
            TokenKind::Keyword(Keyword::Stop)
        } else if str_eq(word, "skip") {
            TokenKind::Keyword(Keyword::Skip)
        } else if str_eq(word, "!GPU") {
            TokenKind::Keyword(Keyword::GPU)
        } else if str_eq(word, "!PAR") {
            TokenKind::Keyword(Keyword::PAR)
        } else if str_eq(word, "fun") {
            TokenKind::Keyword(Keyword::Fun)
        } else if str_eq(word, "class") {
            TokenKind::Keyword(Keyword::Class)
        } else if str_eq(word, "type") {
            TokenKind::Keyword(Keyword::Type)
        } else if str_eq(word, "ext") {
            TokenKind::Keyword(Keyword::Ext)
        } else if str_eq(word, "ret") {
            TokenKind::Keyword(Keyword::Ret)
        } else if str_eq(word, "u8") {
            TokenKind::Type(Type::Numeric(Numeric::U8))
        } else if str_eq(word, "u16") {
            TokenKind::Type(Type::Numeric(Numeric::U16))
        } else if str_eq(word, "u32") {
            TokenKind::Type(Type::Numeric(Numeric::U32))
        } else if str_eq(word, "u64") {
            TokenKind::Type(Type::Numeric(Numeric::U64))
        } else if str_eq(word, "i8") {
            TokenKind::Type(Type::Numeric(Numeric::I8))
        } else if str_eq(word, "i16") {
            TokenKind::Type(Type::Numeric(Numeric::I16))
        } else if str_eq(word, "i32") {
            TokenKind::Type(Type::Numeric(Numeric::I32))
        } else if str_eq(word, "i64") {
            TokenKind::Type(Type::Numeric(Numeric::I64))
        } else if str_eq(word, "f16") {
            TokenKind::Type(Type::Numeric(Numeric::F16))
        } else if str_eq(word, "f32") {
            TokenKind::Type(Type::Numeric(Numeric::F32))
        } else if str_eq(word, "f64") {
            TokenKind::Type(Type::Numeric(Numeric::F64))
        } else if str_eq(word, "usize") {
            TokenKind::Type(Type::Numeric(Numeric::USize))
        } else if str_eq(word, "bool") {
            TokenKind::Type(Type::Boolean)
        } else if str_eq(word, "char") {
            TokenKind::Type(Type::Character)
        } else if str_eq(word, "string") {
            TokenKind::Type(Type::StringLiteral)
        } else if str_eq(word, "true") {
            TokenKind::Boolean(true)
        } else if str_eq(word, "false") {
            TokenKind::Boolean(false)
        } else if str_eq(word, ".") {
            TokenKind::Punctuation(Punctuation::Dot)
        } else if str_eq(word, "..") {
            TokenKind::Punctuation(Punctuation::Spread)
        } else if str_eq(word, ":") {
            TokenKind::Punctuation(Punctuation::Colon)
        } else if str_eq(word, "::") {
            TokenKind::Punctuation(Punctuation::RangeInclusive)
        } else if str_eq(word, ",") {
            TokenKind::Punctuation(Punctuation::Comma)
        } else if str_eq(word, ";") {
            TokenKind::Punctuation(Punctuation::SemiColon)
        } else if str_eq(word, "=") {
            TokenKind::Punctuation(Punctuation::Assignment)
        } else if str_eq(word, "'") {
            TokenKind::Punctuation(Punctuation::SingleQuote)
        } else if str_eq(word, "\"") {
            TokenKind::Punctuation(Punctuation::Quote)
        } else if str_eq(word, "(") {
            TokenKind::Punctuation(Punctuation::LParen)
        } else if str_eq(word, ")") {
            TokenKind::Punctuation(Punctuation::RParen)
        } else if str_eq(word, "[") {
            TokenKind::Punctuation(Punctuation::LBracket)
        } else if str_eq(word, "]") {
            TokenKind::Punctuation(Punctuation::RBracket)
        } else if str_eq(word, "{") {
            TokenKind::Punctuation(Punctuation::LBrace)
        } else if str_eq(word, "}") {
            TokenKind::Punctuation(Punctuation::RBrace)
        } else if str_eq(word, "+") {
            TokenKind::Operator(Operator::Add)
        } else if str_eq(word, "-") {
            TokenKind::Operator(Operator::Sub)
        } else if str_eq(word, "*") {
            TokenKind::Operator(Operator::Mul)
        } else if str_eq(word, "/") {
            TokenKind::Operator(Operator::Div)
        } else if str_eq(word, "%") {
            TokenKind::Operator(Operator::Mod)
        } else if str_eq(word, "^") {
            TokenKind::Operator(Operator::Pow)
        } else if str_eq(word, "!") {
            TokenKind::Operator(Operator::LNot)
        } else if str_eq(word, "||") {
            TokenKind::Operator(Operator::LOr)
        } else if str_eq(word, "&&") {
            TokenKind::Operator(Operator::LAnd)
        } else if str_eq(word, "|") {
            TokenKind::Operator(Operator::BWOr)
        } else if str_eq(word, "&") {
            TokenKind::Operator(Operator::BWAnd)
        } else if str_eq(word, "==") {
            TokenKind::Operator(Operator::Eq)
        } else if str_eq(word, "!=") {
            TokenKind::Operator(Operator::NEq)
        } else if str_eq(word, ">=") {
            TokenKind::Operator(Operator::GE)
        } else if str_eq(word, "<=") {
            TokenKind::Operator(Operator::LE)
        } else if str_eq(word, ">") {
            TokenKind::Operator(Operator::G)
        } else if str_eq(word, "<") {
            TokenKind::Operator(Operator::L)
        } else {
            TokenKind::Identifier(owned(word))
        };
        Token::new(kind, &self.file, self.line, sub_wrapping(self.column, word.len()))
    }

    /// Reads a string literal that starts here (see `string_step`): its quotes and its
    /// text become tokens; a literal left open at the end of the input is reported.
    fn string_token(&mut self)
        requires
            old(self).tokens_ok(),
            nxt(old(self).pending()) == '"',
        ensures
            final(self).tokens_ok(),
            final(self).extends(&*old(self)),
            final(self).chars@.len() < old(self).chars@.len(),
            final(self).pending() == string_step(old(self).pending()).1,
            tokens_match(
                final(self).tokens@.skip(old(self).tokens@.len() as int),
                string_step(old(self).pending()).0,
            ),
            closed_string(old(self).pending()) ==> final(self).rep == old(self).rep,
            final(self).line == old(self).line,
            lines_from(final(self).tokens@, old(self).tokens@.len() as int, old(self).line),
    {
        let ghost q = self.pending();
        let ghost t0 = self.tokens@;
        let _ = self.advance();
        let ghost r1 = self.pending();
        let col = sub_wrapping(self.column, 1);
        self.tokens.push(Token::new(TokenKind::Punctuation(Punctuation::Quote), &self.file, self.line, col));
        assert(self.tokens@.skip(t0.len() as int) =~= seq![self.tokens@.last()]);
        let ghost ls1: Seq<Lexeme> = if nxt(r1) != '"' {
            seq![Lexeme::Quote, Lexeme::Text(r1.take(text_len(r1) as int))]
        } else {
            seq![Lexeme::Quote]
        };
        let ghost s1 = *self;
        if self.next() != '"' {
            let s = self.read_string_literal();
            let col = sub_wrapping(self.column, s.as_str().len());
            self.tokens.push(Token::new(TokenKind::Value(ValueKind::String(s)), &self.file, self.line, col));
            proof {
                lemma_prefix_trans(old(self).rep.messages@, s1.rep.messages@, self.rep.messages@);
                assert(self.tokens@.skip(t0.len() as int) =~= s1.tokens@.skip(t0.len() as int).push(self.tokens@.last()));
            }
        }
        assert(tokens_match(self.tokens@.skip(t0.len() as int), ls1));
        let ghost s2 = *self;
        if self.next() == '\0' {
            let hint = concat3("Close with '", bright_blue_bold("\"").as_str(), "'");
            self.rep.add(
                GraviError::throw(Kind::UnterminatedString).file(self.file.as_str()).at(self.line, self.column).hint(
                    hint.as_str(),
                ),
            );
            let _ = self.advance();
        } else {
            let _ = self.advance();
            let col = sub_wrapping(self.column, 1);
            self.tokens.push(Token::new(TokenKind::Punctuation(Punctuation::Quote), &self.file, self.line, col));
            assert(self.tokens@.skip(t0.len() as int) =~= s2.tokens@.skip(t0.len() as int).push(self.tokens@.last()));
        }
        proof {
            lemma_prefix_trans(old(self).rep.messages@, s2.rep.messages@, self.rep.messages@);
        }
    }

    /// Reads a character literal that starts here (see `char_step`).
    fn char_token(&mut self)
        requires
            old(self).tokens_ok(),
            nxt(old(self).pending()) == '\'',
        ensures
            final(self).tokens_ok(),
            final(self).extends(&*old(self)),
            final(self).chars@.len() < old(self).chars@.len(),
            final(self).pending() == char_step(old(self).pending()).1,
            tokens_match(final(self).tokens@.skip(old(self).tokens@.len() as int), char_step(old(self).pending()).0),
            final(self).rep == old(self).rep,
            final(self).line == old(self).line,
            lines_from(final(self).tokens@, old(self).tokens@.len() as int, old(self).line),
    {
        let ghost t0 = self.tokens@;
        let _ = self.advance();
        if self.next() != '\'' {
            let c = self.advance();
            let col = sub_wrapping(self.column, 1);
            self.tokens.push(Token::new(TokenKind::Char(c), &self.file, self.line, col));
            assert(self.tokens@.skip(t0.len() as int) =~= seq![self.tokens@.last()]);
        } else {
            assert(self.tokens@.skip(t0.len() as int) =~= Seq::<Token>::empty());
        }
        // An unclosed character literal is not reported.
        let _ = self.advance();
    }

    /// Reads the word that starts here (see `word_of`): a symbol of one or two
    /// characters, a word or a number.
    fn read_word(&mut self) -> (r: String)
        requires
            nxt(old(self).pending()) != '"' && nxt(old(self).pending()) != '\'',
        ensures
            final(self).extends(&*old(self)),
            final(self).tokens == old(self).tokens,
            final(self).rep == old(self).rep,
            r@ == word_of(old(self).pending()),
            final(self).pending() == old(self).pending().skip(r@.len() as int),
            r@ + final(self).pending() == old(self).pending(),
            r@.len() == 0 ==> *final(self) == *old(self),
            final(self).line == old(self).line,
    {
        let mut word: String = String::new();
        let ghost q = self.pending();
        let n = self.next();
        if n == ':' || n == '.' {
            let c = self.advance();
            if n == '.' {
                self.column = add_wrapping(self.column, 1);
            }
            push_char(&mut word, c);
            if self.next() == n {
                let d = self.advance();
                push_char(&mut word, d);
            }
            assert(word@ =~= word_of(q));
            assert(self.pending() =~= q.skip(word@.len() as int));
            assert(word@ + self.pending() =~= q);
        } else if n == '+' || n == '-' || n == '*' || n == '/' || n == '%' || n == '^' || n == ';' || n == ','
            || n == '(' || n == ')' || n == '[' || n == ']' || n == '{' || n == '}' {
            let c = self.advance();
            push_char(&mut word, c);
            assert(word@ =~= word_of(q));
            assert(self.pending() =~= q.skip(word@.len() as int));
            assert(word@ + self.pending() =~= q);
        } else if n == '|' {
            word = self.read_op('|');
        } else if n == '&' {
            word = self.read_op('&');
        } else if n == '!' || n == '=' || n == '>' || n == '<' {
            word = self.read_op('=');
        } else {
            word = self.read_atom();
            assert(self.pending() =~= q.skip(word@.len() as int));
        }
        word
    }

    /// Reads the next token, if any input is left: skips one blank and a comment, then
    /// reads a symbol, a string or character literal, a number, a word, or reports an
    /// unknown character (see `lex_step`). Returns whether there was input left.
    fn tokenize_next(&mut self) -> (r: bool)
        requires
            old(self).tokens_ok(),
        ensures
            final(self).tokens_ok(),
            r == (old(self).chars@.len() > 0),
            final(self).extends(&*old(self)),
            r && final(self).chars@.len() == old(self).chars@.len() ==> old(self).stuck() && *final(self) == *old(self),
            final(self).pending() == lex_step(old(self).pending()).1,
            tokens_match(
                final(self).tokens@.skip(old(self).tokens@.len() as int),
                lex_step(old(self).pending()).0,
            ),
            closed_string(skip_blank(old(self).pending())) ==> final(self).rep == old(self).rep,
            step_clean(old(self).pending()) ==> final(self).rep == old(self).rep,
            one_line(old(self).pending()) ==> lines_from(final(self).tokens@, old(self).tokens@.len() as int, old(
                self,
            ).line) && (final(self).line == old(self).line || final(self).chars@.len() == 0),
    {
        if self.chars.len() == 0 {
            proof {
                assert(self.tokens@.skip(self.tokens@.len() as int) =~= Seq::<Token>::empty());
                assert(atom(self.pending()) =~= Seq::<char>::empty());
                assert(self.pending().skip(0) =~= self.pending());
            }
            return false;
        }
        let ghost s0 = *self;
        proof {
            if one_line(s0.pending()) {
                assert(s0.pending()[0] == s0.chars@.last());
                lemma_one_line_rest1(s0.pending());
            }
        }
        self.is_special();
        let ghost s1 = *self;
        self.is_comment();
        let ghost s2 = *self;
        proof {
            if one_line(s0.pending()) && s2.chars@.len() == 0 {
                assert(s2.pending().len() == 0);
                assert(word_of(s2.pending()).len() == 0);
            }
        }
        proof {
            lemma_prefix_trans(s0.tokens@, s1.tokens@, s2.tokens@);
            lemma_prefix_trans(s0.rep.messages@, s1.rep.messages@, s2.rep.messages@);
            if s1.chars@.len() == s0.chars@.len() {
                assert(s1 == s0);
            }
            if s2.chars@.len() == s1.chars@.len() && !(s1.chars@.len() > 0 && s1.chars@.last() == '/') {
                assert(s2 == s1);
            }
        }
        let ghost q = self.pending();
        let ghost t0 = self.tokens@;
        let n = self.next();
        if n == '"' {
            self.string_token();
            proof {
                lemma_prefix_trans(s0.tokens@, s2.tokens@, self.tokens@);
                lemma_prefix_trans(s0.rep.messages@, s2.rep.messages@, self.rep.messages@);
            }
            return true;
        }
        if n == '\'' {
            self.char_token();
            proof {
                lemma_prefix_trans(s0.tokens@, s2.tokens@, self.tokens@);
                lemma_prefix_trans(s0.rep.messages@, s2.rep.messages@, self.rep.messages@);
            }
            return true;
        }
        if n == '#' || n == '@' || n == '$' || n == '_' {
            self.rep.add(
                GraviError::throw(Kind::UnknownChar(n)).file(self.file.as_str()).at(self.line, self.column).hint(
                    "Try removing it.",
                ),
            );
            let _ = self.advance();
            proof {
                lemma_prefix_trans(s0.rep.messages@, s2.rep.messages@, self.rep.messages@);
                assert(self.tokens@.skip(t0.len() as int) =~= Seq::<Token>::empty());
            }
            return true;
        }
        let word = self.read_word();
        proof {
            assert(word@.len() > 0 ==> self.chars@.len() < s2.chars@.len());
            assert(self.chars@.len() < s0.chars@.len() || (word@.len() == 0 && *self == s0 && s0.stuck()));
            lemma_prefix_trans(s0.tokens@, s2.tokens@, self.tokens@);
            lemma_prefix_trans(s0.rep.messages@, s2.rep.messages@, self.rep.messages@);
        }
        let ghost s3 = *self;
        let len = word.as_str().unicode_len();
        if len > 0 && is_ascii_digit(word.as_str().get_char(0)) {
            let col = sub_wrapping(self.column, word.as_str().len());
            let ghost w = word@;
            self.tokens.push(Token::new(TokenKind::Value(ValueKind::Numeric(word)), &self.file, self.line, col));
            proof {
                lemma_prefix_trans(s0.tokens@, s3.tokens@, self.tokens@);
                assert(self.tokens@.skip(t0.len() as int) =~= seq![self.tokens@.last()]);
            }
            return true;
        }
        if len > 0 {
            let t = self.what(word.as_str());
            self.tokens.push(t);
            proof {
                lemma_prefix_trans(s0.tokens@, s3.tokens@, self.tokens@);
                assert(self.tokens@.skip(t0.len() as int) =~= seq![self.tokens@.last()]);
            }
        } else {
            assert(self.tokens@.skip(t0.len() as int) =~= Seq::<Token>::empty());
        }
        true
    }

    /// Reads the whole input into tokens: the tokens made are those of `scan` of the
    /// input. Stops early only on a character where no progress can be made (see
    /// `stuck`), which is reported as unknown and left unread.
    pub fn process(&mut self)
        requires
            old(self).tokens_ok(),
        ensures
            final(self).tokens_ok(),
            final(self).extends(&*old(self)),
            final(self).chars@.len() == 0 || final(self).stuck(),
            final(self).chars@.len() > 0 ==> final(self).rep.messages@.len() > old(self).rep.messages@.len()
                && final(self).rep.messages@.last().kind == Kind::UnknownChar(final(self).chars@.last()),
            one_line(old(self).pending()) ==> lines_from(final(self).tokens@, old(self).tokens@.len() as int, old(
                self,
            ).line),
            tokens_match(final(self).tokens@.skip(old(self).tokens@.len() as int), scan(old(self).pending())),
            lex_clean(old(self).pending()) ==> final(self).rep == old(self).rep,
    {
        let ghost mut done: Seq<Lexeme> = Seq::empty();
        proof {
            assert(self.tokens@.skip(self.tokens@.len() as int) =~= Seq::<Token>::empty());
        }
        loop
            invariant
                self.extends(&*old(self)),
                self.tokens_ok(),
                tokens_match(self.tokens@.skip(old(self).tokens@.len() as int), done),
                scan(old(self).pending()) == done + scan(self.pending()),
                lex_clean(old(self).pending()) ==> lex_clean(self.pending()) && self.rep == old(self).rep,
                one_line(old(self).pending()) ==> one_line(self.pending()) && lines_from(
                    self.tokens@,
                    old(self).tokens@.len() as int,
                    old(self).line,
                ) && (self.line == old(self).line || self.chars@.len() == 0),
            ensures
                one_line(old(self).pending()) ==> lines_from(self.tokens@, old(self).tokens@.len() as int, old(self).line),
                lex_clean(old(self).pending()) ==> self.rep == old(self).rep,
                self.extends(&*old(self)),
                self.tokens_ok(),
                self.chars@.len() == 0 || self.stuck(),
                self.chars@.len() > 0 ==> self.rep.messages@.len() > old(self).rep.messages@.len()
                    && self.rep.messages@.last().kind == Kind::UnknownChar(self.chars@.last()),
                tokens_match(self.tokens@.skip(old(self).tokens@.len() as int), done),
                scan(old(self).pending()) == done,
            decreases self.chars@.len(),
        {
            let before = self.chars.len();
            let ghost s = *self;
            let ghost p = self.pending();
            let more = self.tokenize_next();
            proof {
                lemma_prefix_trans(old(self).tokens@, s.tokens@, self.tokens@);
                lemma_prefix_trans(old(self).rep.messages@, s.rep.messages@, self.rep.messages@);
                if one_line(old(self).pending()) {
                    lemma_one_line_step(p);
                    if s.chars@.len() == 0 {
                        assert(lex_step(p).0.len() == 0);
                        assert(self.tokens@ =~= s.tokens@);
                    }
                    assert forall|k: int| old(self).tokens@.len() <= k < self.tokens@.len() implies #[trigger] self.tokens@[k].line
                        == old(self).line by {
                        if k < s.tokens@.len() {
                            assert(self.tokens@[k] == s.tokens@[k]);
                        }
                    }
                }
            }
            if !more {
                proof {
                    assert(p.len() == 0);
                    assert(done + scan(p) =~= done);
                    assert(atom(p) =~= Seq::<char>::empty());
                    assert(lex_step(p).0.len() == 0);
                    assert(self.tokens@.len() == s.tokens@.len());
                    assert(self.tokens@ =~= s.tokens@);
                }
                break;
            }
            if self.chars.len() == before {
                // Stuck on a character the lexer cannot read: reported, and left unread.
                let c = self.next();
                let ghost m0 = self.rep.messages@;
                self.rep.add(
                    GraviError::throw(Kind::UnknownChar(c)).file(self.file.as_str()).at(self.line, self.column).hint(
                        "Try removing it.",
                    ),
                );
                proof {
                    assert(lex_step(p).1.len() == p.len());
                    assert(scan(p) =~= Seq::<Lexeme>::empty());
                    assert(done + scan(p) =~= done);
                    assert(!lex_clean(p));
                    lemma_prefix_trans(old(self).rep.messages@, m0, self.rep.messages@);
                }
                break;
            }
            proof {
                let ls = lex_step(p).0;
                assert(self.pending().len() < p.len());
                assert(scan(p) == ls + scan(self.pending()));
                assert(self.tokens@.subrange(old(self).tokens@.len() as int, s.tokens@.len() as int) =~= s.tokens@.skip(
                    old(self).tokens@.len() as int,
                ));
                lemma_tokens_match_concat(self.tokens@, old(self).tokens@.len() as int, s.tokens@.len() as int, done, ls);
                done = done + ls;
                assert(scan(old(self).pending()) =~= done + scan(self.pending()));
            }
        }
    }

    pub fn tokens(&self) -> (r: &Vec<Token>)
        ensures
            *r == self.tokens,
    {
        &self.tokens
    }

    pub fn tokens_mut(&mut self) -> (r: &mut Vec<Token>)
        ensures
            *r == old(self).tokens,
            final(self).tokens == *final(r),
            final(self).chars == old(self).chars,
            final(self).file == old(self).file,
            final(self).rep == old(self).rep,
            final(self).line == old(self).line,
            final(self).column == old(self).column,
    {
        &mut self.tokens
    }

    pub fn reporter(&self) -> (r: &Reporter)
        ensures
            *r == self.rep,
    {
        &self.rep
    }
}

pub proof fn lemma_prefix_trans<A>(a: Seq<A>, b: Seq<A>, c: Seq<A>)
    requires
        prefix_of(a, b),
        prefix_of(b, c),
    ensures
        prefix_of(a, c),
{
}

} // verus!
