//! Diagnostics: the single error a failing stage reports. Every failure is
//! terminal for the file being processed; no stage accumulates more than
//! one diagnostic.

use vstd::prelude::*;

use crate::token::{Pos, TokenType};

verus! {

/// Why a stage gave up. Lexing fails only with `UnrecognizedCharacter`;
/// parsing with the middle group; emission with `UnboundVariable`.
#[derive(Debug, PartialEq)]
pub enum DiagnosticKind {
    /// No matcher recognized the character at the diagnostic's position.
    UnrecognizedCharacter,
    /// A token that no grammar rule expected here; carries its lexeme.
    UnexpectedToken(String),
    /// A token of a kind no grammar rule expected here.
    UnexpectedTokenType(TokenType),
    /// A selector list of several names stood directly before `:`.
    ManyAttributes,
    /// A statement did not end at a line break; carries the found lexeme.
    ExpectedNewLine(String),
    /// Carries the expected and the found lexeme.
    ExpectedLexeme(String, String),
    /// Carries the expected and the found token kind.
    ExpectedTokenType(TokenType, TokenType),
    /// A block's indentation is not a multiple of the file's unit.
    InconsistentIndentation,
    /// The parser was asked to step past the end of the token sequence.
    SteppedPastEnd,
    /// A variable reference that cannot be resolved: the name is unbound,
    /// or its bindings refer back to one another without ground.
    UnboundVariable(String),
}

/// The mathematical value of a diagnostic's kind: the same variants with
/// every carried text read as its character sequence.
pub ghost enum DiagV {
    UnrecognizedCharacter,
    UnexpectedToken(Seq<char>),
    UnexpectedTokenType(TokenType),
    ManyAttributes,
    ExpectedNewLine(Seq<char>),
    ExpectedLexeme(Seq<char>, Seq<char>),
    ExpectedTokenType(TokenType, TokenType),
    InconsistentIndentation,
    SteppedPastEnd,
    UnboundVariable(Seq<char>),
}

pub open spec fn kind_view(k: DiagnosticKind) -> DiagV {
    match k {
        DiagnosticKind::UnrecognizedCharacter => DiagV::UnrecognizedCharacter,
        DiagnosticKind::UnexpectedToken(s) => DiagV::UnexpectedToken(s@),
        DiagnosticKind::UnexpectedTokenType(t) => DiagV::UnexpectedTokenType(t),
        DiagnosticKind::ManyAttributes => DiagV::ManyAttributes,
        DiagnosticKind::ExpectedNewLine(s) => DiagV::ExpectedNewLine(s@),
        DiagnosticKind::ExpectedLexeme(e, f) => DiagV::ExpectedLexeme(e@, f@),
        DiagnosticKind::ExpectedTokenType(e, f) => DiagV::ExpectedTokenType(e, f),
        DiagnosticKind::InconsistentIndentation => DiagV::InconsistentIndentation,
        DiagnosticKind::SteppedPastEnd => DiagV::SteppedPastEnd,
        DiagnosticKind::UnboundVariable(s) => DiagV::UnboundVariable(s@),
    }
}

impl View for Diagnostic {
    type V = DiagV;

    open spec fn view(&self) -> DiagV {
        kind_view(self.kind)
    }
}

/// One reported failure: its kind and, when one is known, its position.
#[derive(Debug, PartialEq)]
pub struct Diagnostic {
    pub kind: DiagnosticKind,
    pub pos: Option<Pos>,
}

impl Diagnostic {
    pub fn new(kind: DiagnosticKind, pos: Pos) -> (r: Diagnostic)
        ensures
            r.kind == kind,
            r.pos == Some(pos),
    {
        Diagnostic { kind, pos: Some(pos) }
    }

    pub fn unplaced(kind: DiagnosticKind) -> (r: Diagnostic)
        ensures
            r.kind == kind,
            r.pos is None,
    {
        Diagnostic { kind, pos: None }
    }
}

} // verus!
