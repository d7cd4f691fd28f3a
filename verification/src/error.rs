//! Error values for the two stages. Malformed input never panics the
//! library: it surfaces as one of these, naming the offending token.

use vstd::prelude::*;

verus! {

/// Why assembling failed.
#[derive(Debug, PartialEq, Eq)]
pub enum AsmError {
    /// A computation line with neither `=` nor `;`.
    MalformedC(String),
    /// A computation mnemonic outside the encoding table.
    UnknownComp(String),
    /// A destination mnemonic outside the encoding table.
    UnknownDest(String),
    /// A jump mnemonic outside the encoding table.
    UnknownJump(String),
    /// More instructions than ROM addresses.
    ProgramTooLarge,
    /// The variable allocator ran out of RAM addresses.
    TooManyVariables,
}

/// Spec-level shape of an assembling error.
pub enum AsmErrorView {
    MalformedC(Seq<char>),
    UnknownComp(Seq<char>),
    UnknownDest(Seq<char>),
    UnknownJump(Seq<char>),
    ProgramTooLarge,
    TooManyVariables,
}

impl View for AsmError {
    type V = AsmErrorView;

    open spec fn view(&self) -> AsmErrorView {
        match self {
            AsmError::MalformedC(l) => AsmErrorView::MalformedC(l@),
            AsmError::UnknownComp(t) => AsmErrorView::UnknownComp(t@),
            AsmError::UnknownDest(t) => AsmErrorView::UnknownDest(t@),
            AsmError::UnknownJump(t) => AsmErrorView::UnknownJump(t@),
            AsmError::ProgramTooLarge => AsmErrorView::ProgramTooLarge,
            AsmError::TooManyVariables => AsmErrorView::TooManyVariables,
        }
    }
}

/// Why translation failed.
#[derive(Debug, PartialEq, Eq)]
pub enum VmError {
    /// A line that matches no opcode shape.
    UnknownExpression(String),
    /// A `push` or `pop` with a segment outside the segment set.
    UnknownSegment(String),
}

/// Spec-level shape of a translation error.
pub enum VmErrorView {
    UnknownExpression(Seq<char>),
    UnknownSegment(Seq<char>),
}

impl View for VmError {
    type V = VmErrorView;

    open spec fn view(&self) -> VmErrorView {
        match self {
            VmError::UnknownExpression(l) => VmErrorView::UnknownExpression(l@),
            VmError::UnknownSegment(s) => VmErrorView::UnknownSegment(s@),
        }
    }
}

} // verus!
