//! The VM instruction set: stack arithmetic, memory segment access,
//! control flow, and the function-calling protocol.

use vstd::prelude::*;

verus! {

/// Operand of `push` and `pop`: a segment name and an index into it.
#[derive(Debug, PartialEq, Eq)]
pub struct SegmentMetadata {
    pub segment: String,
    pub i: u32,
}

/// Operand of the control-flow opcodes: a label name, unique within its
/// function.
#[derive(Debug, PartialEq, Eq)]
pub struct LabelMetadata {
    pub name: String,
}

/// Operand of `function` and `call`: a function name and, respectively,
/// the count of locals to zero or of arguments already pushed.
#[derive(Debug, PartialEq, Eq)]
pub struct FunctionMetadata {
    pub name: String,
    pub argv: u32,
}

/// One parsed VM instruction.
#[derive(Debug, PartialEq, Eq)]
pub enum Opcode {
    Call(FunctionMetadata),
    Function(FunctionMetadata),
    Return,
    Goto(LabelMetadata),
    IfGoto(LabelMetadata),
    Label(LabelMetadata),
    Pop(SegmentMetadata),
    Push(SegmentMetadata),
    Add,
    Sub,
    Neg,
    Eq,
    Gt,
    Lt,
    And,
    Or,
    Not,
}

/// Spec-level shape of a parsed VM instruction.
pub enum OpcodeView {
    Call(Seq<char>, u32),
    Function(Seq<char>, u32),
    Return,
    Goto(Seq<char>),
    IfGoto(Seq<char>),
    Label(Seq<char>),
    Pop(Seq<char>, u32),
    Push(Seq<char>, u32),
    Add,
    Sub,
    Neg,
    Eq,
    Gt,
    Lt,
    And,
    Or,
    Not,
}

impl View for Opcode {
    type V = OpcodeView;

    open spec fn view(&self) -> OpcodeView {
        match self {
            Opcode::Call(m) => OpcodeView::Call(m.name@, m.argv),
            Opcode::Function(m) => OpcodeView::Function(m.name@, m.argv),
            Opcode::Return => OpcodeView::Return,
            Opcode::Goto(m) => OpcodeView::Goto(m.name@),
            Opcode::IfGoto(m) => OpcodeView::IfGoto(m.name@),
            Opcode::Label(m) => OpcodeView::Label(m.name@),
            Opcode::Pop(m) => OpcodeView::Pop(m.segment@, m.i),
            Opcode::Push(m) => OpcodeView::Push(m.segment@, m.i),
            Opcode::Add => OpcodeView::Add,
            Opcode::Sub => OpcodeView::Sub,
            Opcode::Neg => OpcodeView::Neg,
            Opcode::Eq => OpcodeView::Eq,
            Opcode::Gt => OpcodeView::Gt,
            Opcode::Lt => OpcodeView::Lt,
            Opcode::And => OpcodeView::And,
            Opcode::Or => OpcodeView::Or,
            Opcode::Not => OpcodeView::Not,
        }
    }
}

} // verus!
