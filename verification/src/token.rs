//! The three kinds of assembly token: address instructions, computation
//! instructions, and label pseudo-instructions.

use vstd::prelude::*;

verus! {

/// An address instruction `@…`: a literal address, or a symbol that the
/// encoder resolves through the symbol table.
pub enum A {
    Variable(String),
    Address(u16),
}

/// Spec-level shape of an address instruction.
pub enum AView {
    Variable(Seq<char>),
    Address(u16),
}

impl View for A {
    type V = AView;

    open spec fn view(&self) -> AView {
        match self {
            A::Variable(s) => AView::Variable(s@),
            A::Address(n) => AView::Address(*n),
        }
    }
}

/// A computation instruction: an optional destination, a computation
/// mnemonic, and an optional jump mnemonic.
pub struct C {
    pub dest: Option<String>,
    pub jump: Option<String>,
    pub comp: String,
}

/// Spec-level shape of a computation instruction.
pub struct CView {
    pub dest: Option<Seq<char>>,
    pub jump: Option<Seq<char>>,
    pub comp: Seq<char>,
}

impl View for C {
    type V = CView;

    open spec fn view(&self) -> CView {
        CView {
            dest: match self.dest {
                Some(d) => Some(d@),
                None => None,
            },
            jump: match self.jump {
                Some(j) => Some(j@),
                None => None,
            },
            comp: self.comp@,
        }
    }
}

/// One tokenized assembly line. A label occupies no ROM slot.
pub enum Instruction {
    A(A),
    C(C),
    Label(String),
}

/// Spec-level shape of a tokenized line.
pub enum InstructionView {
    A(AView),
    C(CView),
    Label(Seq<char>),
}

impl View for Instruction {
    type V = InstructionView;

    open spec fn view(&self) -> InstructionView {
        match self {
            Instruction::A(a) => InstructionView::A(a@),
            Instruction::C(c) => InstructionView::C(c@),
            Instruction::Label(l) => InstructionView::Label(l@),
        }
    }
}

} // verus!
