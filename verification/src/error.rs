//! Diagnostics: their kinds, their builder and the reporter that collects them.
use vstd::prelude::*;

use crate::lexer::{prefix_of, type_text, Token, Type};
use crate::paint::{
    bright_black_bold, bright_blue_bold, bright_red_bold, cyan_bold, green, green_bold, magenta_bold, painted,
    red_bold, white_bold, yellow_bold,
};
use crate::text::{append, concat2, concat3, decimal, owned, push_char, usize_to_string};

verus! {

#[derive(PartialEq, Eq, Structural, Debug, Clone, Copy)]
pub enum Severity {
    Fatal,
    Error,
    Warning,
    Info,
}

#[derive(Debug)]
pub enum Kind {
    FileNotFound(String),
    UnterminatedComment,
    UnterminatedString,
    UnknownChar(char),

    UnexpectedToken(Token),
    UnexpectedEOF,
    UnclosedParenthesis,
    ExpectedIdentifier,
    ExpectedType,
    ExpectedFunctionName,
    ExpectedReturnType,
    ExpectedValue,
    UnsupportedStatement,
    UnterminatedStatement(usize),

    InvalidImport(String),
    PrivateImport(String),
    DuplicateImport(String),

    TooManyEntry,
    TypeMismatch(Type, Type),
    UndeclaredVariable(String),
    UninitializedVariable(String),
    UntypedVariable(String),
    MutatingImmutable(String),

    EntryNotFound,
    UnsupportedExpression,
    UnsupportedReturnType,
    InvalidParameter(usize),
}

#[derive(Debug)]
pub struct GraviError {
    pub kind: Kind,
    pub severity: Severity,
    pub file: Option<String>,
    pub line: Option<usize>,
    pub col: Option<usize>,
    pub hint: Option<String>,
}

impl GraviError {
    /// A new diagnostic of the given kind: an error, with no place and no hint.
    pub fn throw(kind: Kind) -> (r: Self)
        ensures
            r.kind == kind,
            r.severity == Severity::Error,
            r.file is None,
            r.line is None,
            r.col is None,
            r.hint is None,
    {
        GraviError { kind, severity: Severity::Error, file: None, line: None, col: None, hint: None }
    }

    /// The same diagnostic with the given severity.
    pub fn severity(self, sev: Severity) -> (r: Self)
        ensures
            r == (GraviError { severity: sev, ..self }),
    {
        GraviError { severity: sev, ..self }
    }

    /// The same diagnostic, located in the given file.
    pub fn file(self, file: &str) -> (r: Self)
        ensures
            r.file is Some,
            r.file.unwrap()@ == file@,
            r.kind == self.kind,
            r.severity == self.severity,
            r.line == self.line,
            r.col == self.col,
            r.hint == self.hint,
    {
        GraviError { file: Some(owned(file)), ..self }
    }

    /// The same diagnostic, located at the given line and column.
    pub fn at(self, l: usize, c: usize) -> (r: Self)
        ensures
            r == (GraviError { line: Some(l), col: Some(c), ..self }),
    {
        GraviError { line: Some(l), col: Some(c), ..self }
    }

    /// The same diagnostic, with the given hint.
    pub fn hint(self, hint: &str) -> (r: Self)
        ensures
            r.hint is Some,
            r.hint.unwrap()@ == hint@,
            r.kind == self.kind,
            r.severity == self.severity,
            r.file == self.file,
            r.line == self.line,
            r.col == self.col,
    {
        GraviError { hint: Some(owned(hint)), ..self }
    }
}

/// Style codes of the colours used in messages.
pub open spec fn blue_code() -> Seq<char> {
    seq!['1', ';', '9', '4']
}

pub open spec fn white_code() -> Seq<char> {
    seq!['1', ';', '3', '7']
}

/// `r` is `before`, then `text` painted with `code`, then `after`.
pub open spec fn framed(r: Seq<char>, before: Seq<char>, text: Seq<char>, code: Seq<char>, after: Seq<char>) -> bool {
    exists|p: Seq<char>| painted(text, code, p) && r == before + p + after
}

/// What the message of each kind of diagnostic says; the highlighted parts are painted
/// (see `painted`).
pub open spec fn message_of(k: Kind, r: Seq<char>) -> bool {
    match k {
        Kind::FileNotFound(path) => framed(r, "Unable to open the file at: \""@, path@, white_code(), "\""@),
        Kind::UnterminatedString => r == "You should terminate a string literal!"@,
        Kind::UnterminatedComment => r == "How long is this comment?!"@,
        Kind::UnknownChar(c) => framed(r, "Hm? "@, seq![c], blue_code(), "?"@),
        Kind::UnexpectedToken(t) => r == token_debug_text(t) + "\n^ I found this token! Are you sure it's the right one?"@,
        Kind::UnexpectedEOF => framed(
            r,
            "Uh! I reached the \""@,
            "EOF"@,
            white_code(),
            "\" (End Of File). Did you forget anything back?"@,
        ),
        Kind::UnclosedParenthesis => r == "Where's the end of this call? You surely forgot to close the parenthesis!"@,
        Kind::ExpectedIdentifier => r == "There's something missing here, but... What? Oh, an identifier!"@,
        Kind::ExpectedType => r == "Ok, a null-type identifier! Right? Right?!"@,
        Kind::ExpectedFunctionName => r == "A nice function needs a nice name!"@,
        Kind::ExpectedReturnType => framed(
            r,
            "Well... You maybe want \""@,
            "none"@,
            blue_code(),
            "\" as a type?\nNot after putting that ':'!"@,
        ),
        Kind::ExpectedValue => r == "Go, go! Tell me more! Equals to...?"@,
        Kind::UnsupportedStatement => r == "Mhmhmh! Not here, not now..."@,
        Kind::UnterminatedStatement(line) => framed(
            r,
            "Hey! The started line "@,
            decimal(line as nat),
            blue_code(),
            " is not terminated!"@,
        ),
        Kind::InvalidImport(name) => framed(r, ""@, name@, blue_code(), " is a directory!"@),
        Kind::PrivateImport(name) => framed(r, "Where where? I can't see it... Maybe "@, name@, blue_code(), " is private?"@),
        Kind::DuplicateImport(name) => framed(
            r,
            "Wait! I remember this... Are you trying to import "@,
            name@,
            blue_code(),
            " twice?"@,
        ),
        Kind::TooManyEntry => framed(r, "W-Wait wait wait! I found too many "@, "entry points"@, blue_code(), ""@),
        Kind::TypeMismatch(expected, found) => exists|p: Seq<char>, q: Seq<char>|
            painted(type_text(expected), seq!['1', ';', '3', '2'], p) && painted(type_text(found), seq!['1', ';', '3', '1'], q)
                && r == "A-A-A... You mismatched the type! Expected "@ + p + ", but found "@ + q + "!"@,
        Kind::UndeclaredVariable(name) => framed(r, "Hm... Where "@, name@, blue_code(), " come from?!"@),
        Kind::UninitializedVariable(name) => framed(r, "Be careful! "@, name@, blue_code(), " is not initialized!"@),
        Kind::UntypedVariable(name) => exists|p: Seq<char>, q: Seq<char>|
            painted(name@, seq!['1', ';', '9', '0'], p) && painted("none"@, seq!['1', ';', '3', '1'], q) && r
                == "Waaait! "@ + p + "'s type is "@ + q + "!"@,
        Kind::MutatingImmutable(name) => framed(r, "No! Don't touch "@, name@, blue_code(), "... It's not mutable!"@),
        Kind::EntryNotFound => r == "Hmm... Where are you?? My dear entry point!"@,
        Kind::UnsupportedExpression => r == "Mh... Why would you like to do this? It's not allowed here!"@,
        Kind::UnsupportedReturnType => r == "Are you kidding me? What's that?! An unsupported return type!"@,
        Kind::InvalidParameter(pos) => r == "Do whatever you want, but the parameter at the position "@ + decimal(
            pos as nat,
        ) + " is not valid!"@,
    }
}

/// The text of std's pretty-printed `Debug` rendering (`{:#?}`) of a token, as the
/// derived implementation writes it.
pub uninterp spec fn token_debug_text(token: Token) -> Seq<char>;

/// std's `Debug` rendering of a token, pretty-printed (`{:#?}`): the text is named, a
/// function of the token alone; what it holds is left to the derived implementation.
#[verifier::external_body]
fn token_debug(token: &Token) -> (r: String)
    ensures
        r@ == token_debug_text(*token),
{
    format!("{:#?}", token)
}

/// `before`, `text` painted blue and bold, then `after`.
fn blue_framed(before: &str, text: &str, after: &str) -> (r: String)
    ensures
        framed(r@, before@, text@, blue_code(), after@),
{
    let p = bright_blue_bold(text);
    let r = concat3(before, p.as_str(), after);
    assert(painted(text@, blue_code(), p@) && r@ == before@ + p@ + after@);
    r
}

/// `before`, `text` painted white and bold, then `after`.
fn white_framed(before: &str, text: &str, after: &str) -> (r: String)
    ensures
        framed(r@, before@, text@, white_code(), after@),
{
    let p = white_bold(text);
    let r = concat3(before, p.as_str(), after);
    assert(painted(text@, white_code(), p@) && r@ == before@ + p@ + after@);
    r
}

/// The word for a severity, and the style code it is painted with.
pub open spec fn severity_label(s: Severity) -> (Seq<char>, Seq<char>) {
    match s {
        Severity::Fatal => ("fatal"@, seq!['1', ';', '3', '5']),
        Severity::Error => ("error"@, seq!['1', ';', '9', '1']),
        Severity::Warning => ("warning"@, seq!['1', ';', '3', '3']),
        Severity::Info => ("info"@, seq!['1', ';', '3', '6']),
    }
}

/// Whether the diagnostic says where it is: file, line and column all known.
pub open spec fn located(e: GraviError) -> bool {
    e.file is Some && e.line is Some && e.col is Some
}

/// The first line that shows a diagnostic: its severity, then its message.
pub open spec fn headline(e: GraviError, r: Seq<char>) -> bool {
    exists|label: Seq<char>, msg: Seq<char>, shown: Seq<char>|
        painted(severity_label(e.severity).0, severity_label(e.severity).1, label) && message_of(e.kind, msg)
            && painted(msg, white_code(), shown) && r == label + "! "@ + shown
}

/// The line that says where a diagnostic is.
pub open spec fn place_line(file: Seq<char>, line: usize, col: usize, r: Seq<char>) -> bool {
    exists|p: Seq<char>|
        painted(file, blue_code(), p) && r == " \tat "@ + p + ":["@ + decimal(line as nat) + ":"@ + decimal(col as nat)
            + "]"@
}

/// The line that shows a hint.
pub open spec fn hint_line(hint: Seq<char>, r: Seq<char>) -> bool {
    exists|a: Seq<char>, b: Seq<char>|
        painted("You should..."@, seq!['1', ';', '3', '2'], a) && painted(hint, seq!['3', '2'], b) && r == "  | "@ + a
            + " "@ + b
}

impl GraviError {
    /// The lines that show this diagnostic: its severity and message; where it is, when
    /// file, line and column are all known; and its hint, if it has one.
    pub fn lines(&self) -> (r: Vec<String>)
        ensures
            r@.len() == 1 + (if located(*self) { 1int } else { 0 }) + (if self.hint is Some { 1int } else { 0 }),
            headline(*self, r@[0]@),
            located(*self) ==> place_line(self.file.unwrap()@, self.line.unwrap(), self.col.unwrap(), r@[1]@),
            self.hint is Some ==> hint_line(self.hint.unwrap()@, r@[r@.len() - 1]@),
    {
        let mut out: Vec<String> = Vec::new();
        let label = match self.severity {
            Severity::Fatal => magenta_bold("fatal"),
            Severity::Error => bright_red_bold("error"),
            Severity::Warning => yellow_bold("warning"),
            Severity::Info => cyan_bold("info"),
        };
        let msg = self.kind.message();
        let shown = white_bold(msg.as_str());
        let first = concat3(label.as_str(), "! ", shown.as_str());
        assert(painted(severity_label(self.severity).0, severity_label(self.severity).1, label@) && message_of(
            self.kind,
            msg@,
        ) && painted(msg@, white_code(), shown@) && first@ == label@ + "! "@ + shown@);
        out.push(first);
        match (&self.file, self.line, self.col) {
            (Some(file), Some(line), Some(col)) => {
                let p = bright_blue_bold(file.as_str());
                let mut t = concat3(" \tat ", p.as_str(), ":[");
                append(&mut t, usize_to_string(line).as_str());
                append(&mut t, ":");
                append(&mut t, usize_to_string(col).as_str());
                append(&mut t, "]");
                assert(painted(file@, blue_code(), p@) && t@ == " \tat "@ + p@ + ":["@ + decimal(line as nat) + ":"@
                    + decimal(col as nat) + "]"@);
                out.push(t);
            },
            _ => {},
        }
        match &self.hint {
            Some(hint) => {
                let a = green_bold("You should...");
                let b = green(hint.as_str());
                let mut t = concat3("  | ", a.as_str(), " ");
                append(&mut t, b.as_str());
                assert(painted("You should..."@, seq!['1', ';', '3', '2'], a@) && painted(hint@, seq!['3', '2'], b@)
                    && t@ == "  | "@ + a@ + " "@ + b@);
                out.push(t);
            },
            None => {},
        }
        out
    }
}

impl Kind {
    /// The text that explains a diagnostic of this kind.
    pub fn message(&self) -> (r: String)
        ensures
            message_of(*self, r@),
    {
        match self {
            Kind::FileNotFound(path) => white_framed("Unable to open the file at: \"", path.as_str(), "\""),
            Kind::UnterminatedString => owned("You should terminate a string literal!"),
            Kind::UnterminatedComment => owned("How long is this comment?!"),
            Kind::UnknownChar(c) => {
                let mut t = String::new();
                push_char(&mut t, *c);
                assert(t@ =~= seq![*c]);
                blue_framed("Hm? ", t.as_str(), "?")
            },
            Kind::UnexpectedToken(token) => {
                let d = token_debug(token);
                let suffix = "\n^ I found this token! Are you sure it's the right one?";
                concat2(d.as_str(), suffix)
            },
            Kind::UnexpectedEOF => white_framed(
                "Uh! I reached the \"",
                "EOF",
                "\" (End Of File). Did you forget anything back?",
            ),
            Kind::UnclosedParenthesis => owned(
                "Where's the end of this call? You surely forgot to close the parenthesis!",
            ),
            Kind::ExpectedIdentifier => owned("There's something missing here, but... What? Oh, an identifier!"),
            Kind::ExpectedType => owned("Ok, a null-type identifier! Right? Right?!"),
            Kind::ExpectedFunctionName => owned("A nice function needs a nice name!"),
            Kind::ExpectedReturnType => blue_framed(
                "Well... You maybe want \"",
                "none",
                "\" as a type?\nNot after putting that ':'!",
            ),
            Kind::ExpectedValue => owned("Go, go! Tell me more! Equals to...?"),
            Kind::UnsupportedStatement => owned("Mhmhmh! Not here, not now..."),
            Kind::UnterminatedStatement(line) => {
                let n = usize_to_string(*line);
                let r = blue_framed("Hey! The started line ", n.as_str(), " is not terminated!");
                assert(message_of(*self, r@));
                r
            },
            Kind::InvalidImport(name) => blue_framed("", name.as_str(), " is a directory!"),
            Kind::PrivateImport(name) => blue_framed("Where where? I can't see it... Maybe ", name.as_str(), " is private?"),
            Kind::DuplicateImport(name) => blue_framed(
                "Wait! I remember this... Are you trying to import ",
                name.as_str(),
                " twice?",
            ),
            Kind::TooManyEntry => blue_framed("W-Wait wait wait! I found too many ", "entry points", ""),
            Kind::TypeMismatch(expected, found) => {
                let p = green_bold(expected.name().as_str());
                let q = red_bold(found.name().as_str());
                let mut r = concat3("A-A-A... You mismatched the type! Expected ", p.as_str(), ", but found ");
                append(&mut r, q.as_str());
                append(&mut r, "!");
                assert(r@ == "A-A-A... You mismatched the type! Expected "@ + p@ + ", but found "@ + q@ + "!"@);
                assert(message_of(*self, r@));
                r
            },
            Kind::UndeclaredVariable(name) => blue_framed("Hm... Where ", name.as_str(), " come from?!"),
            Kind::UninitializedVariable(name) => blue_framed("Be careful! ", name.as_str(), " is not initialized!"),
            Kind::UntypedVariable(name) => {
                let p = bright_black_bold(name.as_str());
                let q = red_bold("none");
                let mut r = concat3("Waaait! ", p.as_str(), "'s type is ");
                append(&mut r, q.as_str());
                append(&mut r, "!");
                assert(r@ == "Waaait! "@ + p@ + "'s type is "@ + q@ + "!"@);
                assert(message_of(*self, r@));
                r
            },
            Kind::MutatingImmutable(name) => blue_framed("No! Don't touch ", name.as_str(), "... It's not mutable!"),
            Kind::EntryNotFound => owned("Hmm... Where are you?? My dear entry point!"),
            Kind::UnsupportedExpression => owned("Mh... Why would you like to do this? It's not allowed here!"),
            Kind::UnsupportedReturnType => owned("Are you kidding me? What's that?! An unsupported return type!"),
            Kind::InvalidParameter(pos) => {
                let n = usize_to_string(*pos);
                let r = concat3("Do whatever you want, but the parameter at the position ", n.as_str(), " is not valid!");
                assert(message_of(*self, r@));
                r
            },
        }
    }
}

/// Whether a diagnostic of this severity stops the compilation.
pub open spec fn is_blocking(s: Severity) -> bool {
    s == Severity::Fatal || s == Severity::Error
}

/// The order in which diagnostics are shown: blocking ones first, then warnings, then notes.
pub open spec fn firing_rank(s: Severity) -> int {
    if is_blocking(s) { 0 } else if s == Severity::Warning { 1 } else { 2 }
}

/// The diagnostics of `msgs` whose severity has the given rank, in their order.
pub open spec fn of_rank(msgs: Seq<GraviError>, rank: int) -> Seq<GraviError>
    decreases msgs.len(),
{
    if msgs.len() == 0 {
        Seq::empty()
    } else {
        let rest = of_rank(msgs.drop_last(), rank);
        if firing_rank(msgs.last().severity) == rank { rest.push(msgs.last()) } else { rest }
    }
}

/// Recording more diagnostics never hides an error already recorded.
pub proof fn law_errors_persist(before: Seq<GraviError>, after: Seq<GraviError>)
    requires
        prefix_of(before, after),
        exists|i: int| 0 <= i < before.len() && is_blocking(#[trigger] before[i].severity),
    ensures
        exists|i: int| 0 <= i < after.len() && is_blocking(#[trigger] after[i].severity),
{
    let i = choose|i: int| 0 <= i < before.len() && is_blocking(#[trigger] before[i].severity);
    assert(after[i] == before[i]);
}

/// Each recorded diagnostic is shown exactly once: the groups of the three ranks together
/// hold as many diagnostics as were recorded.
pub proof fn law_fire_all_shows_each_once(msgs: Seq<GraviError>)
    ensures
        of_rank(msgs, 0).len() + of_rank(msgs, 1).len() + of_rank(msgs, 2).len() == msgs.len(),
    decreases msgs.len(),
{
    if msgs.len() > 0 {
        law_fire_all_shows_each_once(msgs.drop_last());
    }
}

pub struct Reporter {
    pub messages: Vec<GraviError>,
}

impl Reporter {
    pub fn new() -> (r: Self)
        ensures
            r.messages@ == Seq::<GraviError>::empty(),
    {
        Reporter { messages: Vec::new() }
    }

    /// Records a diagnostic after those already recorded.
    pub fn add(&mut self, msg: GraviError)
        ensures
            final(self).messages@ == old(self).messages@.push(msg),
    {
        self.messages.push(msg);
    }

    /// Whether some recorded diagnostic is fatal or an error.
    pub fn has_errors(&self) -> (r: bool)
        ensures
            r == exists|i: int| 0 <= i < self.messages@.len() && is_blocking(#[trigger] self.messages@[i].severity),
    {
        let mut i: usize = 0;
        while i < self.messages.len()
            invariant
                i <= self.messages@.len(),
                forall|j: int| 0 <= j < i ==> !is_blocking(#[trigger] self.messages@[j].severity),
            decreases self.messages.len() - i,
        {
            let s = self.messages[i].severity;
            if s == Severity::Fatal || s == Severity::Error {
                return true;
            }
            i = i + 1;
        }
        false
    }

    /// The recorded diagnostics in the order they are shown: the fatal ones and errors
    /// first, then the warnings, then the notes, each group in the order of recording.
    pub fn fire_all(&self) -> (r: Vec<&GraviError>)
        ensures
            r@.len() == of_rank(self.messages@, 0).len() + of_rank(self.messages@, 1).len()
                + of_rank(self.messages@, 2).len(),
            forall|i: int| 0 <= i < r@.len() ==> *#[trigger] r@[i] == (of_rank(self.messages@, 0)
                + of_rank(self.messages@, 1) + of_rank(self.messages@, 2))[i],
    {
        let mut out: Vec<&GraviError> = Vec::new();
        let ghost mut shown: Seq<GraviError> = Seq::empty();
        let mut rank: usize = 0;
        while rank < 3
            invariant
                rank <= 3,
                out@.len() == shown.len(),
                forall|k: int| 0 <= k < out@.len() ==> *#[trigger] out@[k] == shown[k],
                rank == 0 ==> shown == Seq::<GraviError>::empty(),
                rank == 1 ==> shown == of_rank(self.messages@, 0),
                rank == 2 ==> shown == of_rank(self.messages@, 0) + of_rank(self.messages@, 1),
                rank == 3 ==> shown == of_rank(self.messages@, 0) + of_rank(self.messages@, 1)
                    + of_rank(self.messages@, 2),
            decreases 3 - rank,
        {
            let ghost before = shown;
            let mut i: usize = 0;
            while i < self.messages.len()
                invariant
                    rank < 3,
                    i <= self.messages@.len(),
                    out@.len() == shown.len(),
                    forall|k: int| 0 <= k < out@.len() ==> *#[trigger] out@[k] == shown[k],
                    shown == before + of_rank(self.messages@.subrange(0, i as int), rank as int),
                decreases self.messages.len() - i,
            {
                let m = &self.messages[i];
                let r: usize = if m.severity == Severity::Fatal || m.severity == Severity::Error {
                    0
                } else if m.severity == Severity::Warning {
                    1
                } else {
                    2
                };
                proof {
                    let s = self.messages@.subrange(0, i + 1);
                    assert(s.drop_last() =~= self.messages@.subrange(0, i as int));
                    assert(s.last() == self.messages@[i as int]);
                }
                if r == rank {
                    out.push(m);
                    proof {
                        shown = shown.push(*m);
                    }
                }
                i = i + 1;
            }
            assert(self.messages@.subrange(0, self.messages@.len() as int) =~= self.messages@);
            rank = rank + 1;
        }
        out
    }
}

} // verus!
