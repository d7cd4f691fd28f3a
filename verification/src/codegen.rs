//! VM-to-assembly lowering: stack arithmetic, segment access, control
//! flow, and the calling convention. Every emission is specified as a
//! spec-level text function; `gen_ops` folds them over an opcode list.

use vstd::prelude::*;
use vstd::string::StrSliceExecFns;
use vstd::string::StringExecFns;
use crate::error::{VmError, VmErrorView};
use crate::opcode::{FunctionMetadata, Opcode, OpcodeView, SegmentMetadata};
use crate::parser::views_of_ops;
use crate::text::{dec_chars, push_dec, str_eq};

verus! {

/// One emitted line: the text followed by a newline.
pub open spec fn ln(s: Seq<char>) -> Seq<char> {
    s + "\n"@
}

pub open spec fn s_inc_text() -> Seq<char> {
    ln("@SP"@) + ln("M=M+1"@)
}

pub open spec fn s_dec_text() -> Seq<char> {
    ln("@SP"@) + ln("M=M-1"@)
}

pub open spec fn s_pop_text() -> Seq<char> {
    ln("@SP"@) + ln("M=M-1"@) + ln("A=M"@)
}

pub open spec fn addr_val_to_d_text(addr: Seq<char>) -> Seq<char> {
    ln("@"@ + addr) + ln("D=M"@)
}

pub open spec fn s_to_d_text() -> Seq<char> {
    ln("@SP"@) + ln("A=M"@) + ln("D=M"@)
}

pub open spec fn d_to_s_text() -> Seq<char> {
    ln("@SP"@) + ln("A=M"@) + ln("M=D"@)
}

pub open spec fn num_to_d_text(i: int) -> Seq<char> {
    ln("@"@ + dec_chars(i)) + ln("D=A"@)
}

/// A binary operator: pop the right operand into `D`, pop the left in
/// place, combine with the mnemonic the encoding table knows, advance the
/// stack.
pub open spec fn binary_text(op: Seq<char>, comp: Seq<char>) -> Seq<char> {
    ln("// "@ + op) + s_pop_text() + ln("D=M"@) + s_pop_text() + ln("M="@ + comp) + s_inc_text()
}

/// A unary operator: pop in place, rewrite, advance the stack.
pub open spec fn unary_text(op: Seq<char>) -> Seq<char> {
    ln("// "@ + op) + s_pop_text() + ln("M="@ + op + "M"@) + s_inc_text()
}

/// The branch target taken when a comparison holds.
pub open spec fn true_label(ctx: Seq<char>, k: int) -> Seq<char> {
    ctx + "$TRUE_"@ + dec_chars(k)
}

/// The join point both comparison branches funnel through.
pub open spec fn finish_label(ctx: Seq<char>, k: int) -> Seq<char> {
    ctx + "$FINISH_"@ + dec_chars(k)
}

/// A comparison: subtract, branch on `D`, store `0` or `-1`, join, advance.
pub open spec fn logical_text(op: Seq<char>, ctx: Seq<char>, k: int) -> Seq<char> {
    ln("// "@ + op) + binary_text("-"@, "M-D"@) + s_pop_text() + ln("D=M"@) + ln(
        "@"@ + true_label(ctx, k),
    ) + ln("D;J"@ + op) + ln("@SP"@) + ln("A=M"@) + ln("M=0"@) + ln("@"@ + finish_label(ctx, k))
        + ln("1;JMP"@) + ln("("@ + true_label(ctx, k) + ")"@) + ln("@SP"@) + ln("A=M"@) + ln(
        "M=-1"@,
    ) + ln("("@ + finish_label(ctx, k) + ")"@) + s_inc_text()
}

pub open spec fn push_comment(seg: Seq<char>, i: int) -> Seq<char> {
    ln("// push segment "@ + seg + " to location "@ + dec_chars(i))
}

pub open spec fn pop_comment(seg: Seq<char>, i: int) -> Seq<char> {
    ln("// pop segment "@ + seg + " to location "@ + dec_chars(i))
}

pub open spec fn push_constant_text(i: int) -> Seq<char> {
    num_to_d_text(i) + d_to_s_text() + s_inc_text()
}

pub open spec fn push_segment_text(base: Seq<char>, i: int) -> Seq<char> {
    num_to_d_text(i) + ln("@"@ + base) + ln("A=D+M"@) + ln("D=M"@) + d_to_s_text() + s_inc_text()
}

pub open spec fn push_temp_text(i: int) -> Seq<char> {
    ln("@"@ + dec_chars(5 + i)) + ln("D=M"@) + d_to_s_text() + s_inc_text()
}

pub open spec fn push_pointer_text(i: int) -> Seq<char> {
    ln(
        "@"@ + if i == 1 {
            "THAT"@
        } else {
            "THIS"@
        },
    ) + ln("D=M"@) + ln("@SP"@) + ln("A=M"@) + ln("M=D"@) + s_inc_text()
}

pub open spec fn push_static_text(file: Seq<char>, i: int) -> Seq<char> {
    ln("@"@ + file + "."@ + dec_chars(i)) + ln("D=M"@) + d_to_s_text() + s_inc_text()
}

/// What `push <segment> <i>` emits, or the unknown segment.
pub open spec fn push_text(seg: Seq<char>, i: int, file: Seq<char>) -> Result<
    Seq<char>,
    VmErrorView,
> {
    if seg == "constant"@ {
        Ok(push_comment(seg, i) + push_constant_text(i))
    } else if seg == "local"@ {
        Ok(push_comment(seg, i) + push_segment_text("LCL"@, i))
    } else if seg == "argument"@ {
        Ok(push_comment(seg, i) + push_segment_text("ARG"@, i))
    } else if seg == "this"@ {
        Ok(push_comment(seg, i) + push_segment_text("THIS"@, i))
    } else if seg == "that"@ {
        Ok(push_comment(seg, i) + push_segment_text("THAT"@, i))
    } else if seg == "temp"@ {
        Ok(push_comment(seg, i) + push_temp_text(i))
    } else if seg == "pointer"@ {
        Ok(push_comment(seg, i) + push_pointer_text(i))
    } else if seg == "static"@ {
        Ok(push_comment(seg, i) + push_static_text(file, i))
    } else {
        Err(VmErrorView::UnknownSegment(seg))
    }
}

pub open spec fn pop_segment_text(base: Seq<char>, i: int) -> Seq<char> {
    num_to_d_text(i) + ln("@"@ + base) + ln("A=D+M"@) + ln("D=A"@) + ln("@TEMP"@) + ln("M=D"@)
        + s_dec_text() + s_to_d_text() + ln("@TEMP"@) + ln("A=M"@) + ln("M=D"@)
}

pub open spec fn pop_temp_text(i: int) -> Seq<char> {
    s_dec_text() + s_to_d_text() + ln("@"@ + dec_chars(5 + i)) + ln("M=D"@)
}

pub open spec fn pop_pointer_text(i: int) -> Seq<char> {
    s_dec_text() + s_to_d_text() + ln(
        "@"@ + if i == 1 {
            "THAT"@
        } else {
            "THIS"@
        },
    ) + ln("M=D"@)
}

pub open spec fn pop_static_text(file: Seq<char>, i: int) -> Seq<char> {
    s_dec_text() + s_to_d_text() + ln("@"@ + file + "."@ + dec_chars(i)) + ln("M=D"@)
}

/// What `pop <segment> <i>` emits, or the unknown segment (`constant`
/// cannot be popped).
pub open spec fn pop_text(seg: Seq<char>, i: int, file: Seq<char>) -> Result<
    Seq<char>,
    VmErrorView,
> {
    if seg == "local"@ {
        Ok(pop_comment(seg, i) + pop_segment_text("LCL"@, i))
    } else if seg == "argument"@ {
        Ok(pop_comment(seg, i) + pop_segment_text("ARG"@, i))
    } else if seg == "this"@ {
        Ok(pop_comment(seg, i) + pop_segment_text("THIS"@, i))
    } else if seg == "that"@ {
        Ok(pop_comment(seg, i) + pop_segment_text("THAT"@, i))
    } else if seg == "temp"@ {
        Ok(pop_comment(seg, i) + pop_temp_text(i))
    } else if seg == "pointer"@ {
        Ok(pop_comment(seg, i) + pop_pointer_text(i))
    } else if seg == "static"@ {
        Ok(pop_comment(seg, i) + pop_static_text(file, i))
    } else {
        Err(VmErrorView::UnknownSegment(seg))
    }
}

/// `label L` in context `ctx` defines `(ctx$L)`.
pub open spec fn label_text(ctx: Seq<char>, name: Seq<char>) -> Seq<char> {
    ln("// label "@ + name) + ln("("@ + ctx + "$"@ + name + ")"@)
}

pub open spec fn goto_text(ctx: Seq<char>, name: Seq<char>) -> Seq<char> {
    ln("// goto "@ + name) + ln("@"@ + ctx + "$"@ + name) + ln("1;JMP"@)
}

pub open spec fn if_goto_text(ctx: Seq<char>, name: Seq<char>) -> Seq<char> {
    ln("// if-goto "@ + name) + s_dec_text() + s_to_d_text() + ln("@"@ + ctx + "$"@ + name) + ln(
        "D;JNE"@,
    )
}

/// One zeroed local slot.
pub open spec fn zero_local_text() -> Seq<char> {
    ln("@SP"@) + ln("A=M"@) + ln("M=0"@) + s_inc_text()
}

/// `s`, emitted `k` times.
pub open spec fn repeat_text(s: Seq<char>, k: int) -> Seq<char>
    decreases k,
{
    if k <= 0 {
        Seq::<char>::empty()
    } else {
        s + repeat_text(s, k - 1)
    }
}

pub proof fn lemma_repeat_snoc(s: Seq<char>, k: int)
    requires
        k >= 0,
    ensures
        repeat_text(s, k + 1) == repeat_text(s, k) + s,
    decreases k,
{
    if k == 0 {
        assert(s + Seq::<char>::empty() =~= Seq::<char>::empty() + s);
    } else {
        lemma_repeat_snoc(s, k - 1);
        assert(s + (repeat_text(s, k - 1) + s) =~= (s + repeat_text(s, k - 1)) + s);
    }
}

/// `function f k` defines `(f)` and zeroes `k` locals.
pub open spec fn function_text(name: Seq<char>, argv: int) -> Seq<char> {
    ln("// function "@ + name + "."@ + dec_chars(argv)) + ln("("@ + name + ")"@) + repeat_text(
        zero_local_text(),
        argv,
    )
}

/// The landing site a call returns to.
pub open spec fn ret_label(ctx: Seq<char>, k: int) -> Seq<char> {
    ctx + "$ret."@ + dec_chars(k)
}

pub open spec fn push_d_text() -> Seq<char> {
    d_to_s_text() + s_inc_text()
}

/// The start of a `call`: its comment and the return address pushed.
pub open spec fn call_head_text(name: Seq<char>, argv: int, ctx: Seq<char>, k: int) -> Seq<char> {
    ln("// call "@ + name + "."@ + dec_chars(argv) + " from "@ + ctx) + ln(
        "@"@ + ret_label(ctx, k),
    ) + ln("D=A"@) + push_d_text()
}

/// The four saved segments of the frame, pushed in order.
pub open spec fn call_saves_text() -> Seq<char> {
    addr_val_to_d_text("LCL"@) + push_d_text() + addr_val_to_d_text("ARG"@) + push_d_text()
        + addr_val_to_d_text("THIS"@) + push_d_text() + addr_val_to_d_text("THAT"@) + push_d_text()
}

/// `ARG` repositioned below the frame and `LCL` at the stack top.
pub open spec fn call_repos_text(argv: int) -> Seq<char> {
    ln("@SP"@) + ln("D=M"@) + ln("@5"@) + ln("D=D-A"@) + ln("@"@ + dec_chars(argv)) + ln("D=D-A"@)
        + ln("@ARG"@) + ln("M=D"@) + ln("@SP"@) + ln("D=M"@) + ln("@LCL"@) + ln("M=D"@)
}

/// The jump to the callee and the landing site.
pub open spec fn call_tail_text(name: Seq<char>, ctx: Seq<char>, k: int) -> Seq<char> {
    ln("@"@ + name) + ln("1;JMP"@) + ln("("@ + ret_label(ctx, k) + ")"@)
}

/// `call f n`: push the return address and the four saved segments,
/// reposition `ARG` and `LCL`, jump, and define the landing site.
pub open spec fn call_text(name: Seq<char>, argv: int, ctx: Seq<char>, k: int) -> Seq<char> {
    call_head_text(name, argv, ctx, k) + call_saves_text() + call_repos_text(argv)
        + call_tail_text(name, ctx, k)
}

/// Restores one saved segment from the frame pointer in `R13`.
pub open spec fn restore_text(offset: int, reg: Seq<char>) -> Seq<char> {
    addr_val_to_d_text("R13"@) + ln("@"@ + dec_chars(offset)) + ln("A=D-A"@) + ln("D=M"@) + ln(
        "@"@ + reg,
    ) + ln("M=D"@)
}

/// `return`: save the frame pointer and return address, hand the result to
/// the caller, restore the four saved segments, and jump back.
pub open spec fn ret_text(ctx: Seq<char>) -> Seq<char> {
    ln("// return "@ + ctx) + addr_val_to_d_text("LCL"@) + ln("@R13"@) + ln("M=D"@) + ln("@5"@)
        + ln("A=D-A"@) + ln("D=M"@) + ln("@R14"@) + ln("M=D"@) + s_pop_text() + ln("D=M"@) + ln(
        "@ARG"@,
    ) + ln("A=M"@) + ln("M=D"@) + ln("@ARG"@) + ln("D=M+1"@) + ln("@SP"@) + ln("M=D"@)
        + restore_text(1, "THAT"@) + restore_text(2, "THIS"@) + restore_text(3, "ARG"@)
        + restore_text(4, "LCL"@) + addr_val_to_d_text("R14"@) + ln("A=D"@) + ln("1;JMP"@)
}

/// The codegen state an opcode transforms: the text emitted so far, the
/// enclosing function context, and the label counter.
pub struct GenState {
    pub text: Seq<char>,
    pub context: Seq<char>,
    pub label_c: int,
}

/// What one opcode emits and how it moves the state.
pub open spec fn gen_op(st: GenState, op: OpcodeView, file: Seq<char>) -> Result<
    GenState,
    VmErrorView,
> {
    match op {
        OpcodeView::Add => Ok(
            GenState { text: st.text + binary_text("+"@, "D+M"@), context: st.context, label_c: st.label_c },
        ),
        OpcodeView::Sub => Ok(
            GenState { text: st.text + binary_text("-"@, "M-D"@), context: st.context, label_c: st.label_c },
        ),
        OpcodeView::And => Ok(
            GenState { text: st.text + binary_text("&"@, "D&M"@), context: st.context, label_c: st.label_c },
        ),
        OpcodeView::Or => Ok(
            GenState { text: st.text + binary_text("|"@, "D|M"@), context: st.context, label_c: st.label_c },
        ),
        OpcodeView::Not => Ok(
            GenState { text: st.text + unary_text("!"@), context: st.context, label_c: st.label_c },
        ),
        OpcodeView::Neg => Ok(
            GenState { text: st.text + unary_text("-"@), context: st.context, label_c: st.label_c },
        ),
        OpcodeView::Lt => Ok(
            GenState {
                text: st.text + logical_text("LT"@, st.context, st.label_c),
                context: st.context,
                label_c: st.label_c + 1,
            },
        ),
        OpcodeView::Gt => Ok(
            GenState {
                text: st.text + logical_text("GT"@, st.context, st.label_c),
                context: st.context,
                label_c: st.label_c + 1,
            },
        ),
        OpcodeView::Eq => Ok(
            GenState {
                text: st.text + logical_text("EQ"@, st.context, st.label_c),
                context: st.context,
                label_c: st.label_c + 1,
            },
        ),
        OpcodeView::Label(name) => Ok(
            GenState {
                text: st.text + label_text(st.context, name),
                context: st.context,
                label_c: st.label_c,
            },
        ),
        OpcodeView::Goto(name) => Ok(
            GenState {
                text: st.text + goto_text(st.context, name),
                context: st.context,
                label_c: st.label_c,
            },
        ),
        OpcodeView::IfGoto(name) => Ok(
            GenState {
                text: st.text + if_goto_text(st.context, name),
                context: st.context,
                label_c: st.label_c,
            },
        ),
        OpcodeView::Function(name, argv) => Ok(
            GenState {
                text: st.text + function_text(name, argv as int),
                context: name,
                label_c: st.label_c,
            },
        ),
        OpcodeView::Call(name, argv) => Ok(
            GenState {
                text: st.text + call_text(name, argv as int, st.context, st.label_c),
                context: st.context,
                label_c: st.label_c + 1,
            },
        ),
        OpcodeView::Return => Ok(
            GenState {
                text: st.text + ret_text(st.context),
                context: st.context,
                label_c: st.label_c,
            },
        ),
        OpcodeView::Push(seg, i) => match push_text(seg, i as int, file) {
            Ok(t) => Ok(
                GenState { text: st.text + t, context: st.context, label_c: st.label_c },
            ),
            Err(e) => Err(e),
        },
        OpcodeView::Pop(seg, i) => match pop_text(seg, i as int, file) {
            Ok(t) => Ok(
                GenState { text: st.text + t, context: st.context, label_c: st.label_c },
            ),
            Err(e) => Err(e),
        },
    }
}

/// `gen_op`, folded over an opcode list.
pub open spec fn gen_ops(st: GenState, ops: Seq<OpcodeView>, file: Seq<char>) -> Result<
    GenState,
    VmErrorView,
>
    decreases ops.len(),
{
    if ops.len() == 0 {
        Ok(st)
    } else {
        match gen_op(st, ops[0], file) {
            Ok(st2) => gen_ops(st2, ops.drop_first(), file),
            Err(e) => Err(e),
        }
    }
}

/// What translating an opcode list emits: the fold starts with no text, in
/// the sentinel context, with the label counter at zero.
pub open spec fn spec_generate(ops: Seq<OpcodeView>, file: Seq<char>) -> Result<
    Seq<char>,
    VmErrorView,
> {
    match gen_ops(
        GenState { text: Seq::<char>::empty(), context: "Global"@, label_c: 0 },
        ops,
        file,
    ) {
        Ok(st) => Ok(st.text),
        Err(e) => Err(e),
    }
}

/// The bootstrap prologue: point the stack at 256, then call `Sys.init`
/// with no arguments from the fresh sentinel context.
pub open spec fn entry_text() -> Seq<char> {
    ln("@256"@) + ln("D=A"@) + ln("@SP"@) + ln("M=D"@) + call_text("Sys.init"@, 0, "Global"@, 0)
}

/// Emits assembly for one translation unit.
pub struct Codegen {
    pub label_c: u64,
    pub context: String,
    pub result: String,
    pub filename: String,
}

/// The fields an emission never touches.
pub open spec fn meta_same(a: Codegen, b: Codegen) -> bool {
    a.context@ == b.context@ && a.label_c == b.label_c && a.filename@ == b.filename@
}

/// The spec state a generator value denotes.
pub open spec fn state_of(c: Codegen) -> GenState {
    GenState { text: c.result@, context: c.context@, label_c: c.label_c as int }
}

impl Codegen {
    /// A fresh generator for one translation unit: no text yet, the
    /// sentinel context, the label counter at zero.
    pub fn new(filename: String) -> (r: Codegen)
        ensures
            r.result@ == Seq::<char>::empty(),
            r.label_c == 0,
            r.context@ == "Global"@,
            r.filename@ == filename@,
    {
        Codegen {
            result: String::new(),
            label_c: 0,
            context: "Global".to_owned(),
            filename,
        }
    }

    /// Appends one line.
    fn write(&mut self, instruction: &str)
        ensures
            final(self).result@ == old(self).result@ + ln(instruction@),
            meta_same(*old(self), *final(self)),
    {
        self.result.append(instruction);
        self.result.append("\n");
        proof {
            assert((old(self).result@ + instruction@) + "\n"@ =~= old(self).result@ + ln(
                instruction@,
            ));
        }
    }

    fn s_inc(&mut self)
        ensures
            final(self).result@ == old(self).result@ + s_inc_text(),
            meta_same(*old(self), *final(self)),
    {
        self.write("@SP");
        self.write("M=M+1");
        proof {
            assert((old(self).result@ + ln("@SP"@)) + ln("M=M+1"@) =~= old(self).result@
                + s_inc_text());
        }
    }

    fn s_dec(&mut self)
        ensures
            final(self).result@ == old(self).result@ + s_dec_text(),
            meta_same(*old(self), *final(self)),
    {
        self.write("@SP");
        self.write("M=M-1");
        proof {
            assert((old(self).result@ + ln("@SP"@)) + ln("M=M-1"@) =~= old(self).result@
                + s_dec_text());
        }
    }

    fn s_pop(&mut self)
        ensures
            final(self).result@ == old(self).result@ + s_pop_text(),
            meta_same(*old(self), *final(self)),
    {
        self.write("@SP");
        self.write("M=M-1");
        self.write("A=M");
        proof {
            assert(((old(self).result@ + ln("@SP"@)) + ln("M=M-1"@)) + ln("A=M"@) =~= old(
                self,
            ).result@ + s_pop_text());
        }
    }

    fn addr_val_to_d(&mut self, addr: &str)
        ensures
            final(self).result@ == old(self).result@ + addr_val_to_d_text(addr@),
            meta_same(*old(self), *final(self)),
    {
        let mut a = "@".to_owned();
        a.append(addr);
        self.write(a.as_str());
        self.write("D=M");
        proof {
            assert((old(self).result@ + ln("@"@ + addr@)) + ln("D=M"@) =~= old(self).result@
                + addr_val_to_d_text(addr@));
        }
    }

    fn s_to_d(&mut self)
        ensures
            final(self).result@ == old(self).result@ + s_to_d_text(),
            meta_same(*old(self), *final(self)),
    {
        self.write("@SP");
        self.write("A=M");
        self.write("D=M");
        proof {
            assert(((old(self).result@ + ln("@SP"@)) + ln("A=M"@)) + ln("D=M"@) =~= old(
                self,
            ).result@ + s_to_d_text());
        }
    }

    fn d_to_s(&mut self)
        ensures
            final(self).result@ == old(self).result@ + d_to_s_text(),
            meta_same(*old(self), *final(self)),
    {
        self.write("@SP");
        self.write("A=M");
        self.write("M=D");
        proof {
            assert(((old(self).result@ + ln("@SP"@)) + ln("A=M"@)) + ln("M=D"@) =~= old(
                self,
            ).result@ + d_to_s_text());
        }
    }

    fn num_to_d(&mut self, i: u32)
        ensures
            final(self).result@ == old(self).result@ + num_to_d_text(i as int),
            meta_same(*old(self), *final(self)),
    {
        let mut a = "@".to_owned();
        push_dec(&mut a, i as u64);
        self.write(a.as_str());
        self.write("D=A");
        proof {
            assert((old(self).result@ + ln("@"@ + dec_chars(i as int))) + ln("D=A"@) =~= old(
                self,
            ).result@ + num_to_d_text(i as int));
        }
    }

    fn binary(&mut self, operand: &str, comp: &str)
        ensures
            final(self).result@ == old(self).result@ + binary_text(operand@, comp@),
            meta_same(*old(self), *final(self)),
    {
        let mut c = "// ".to_owned();
        c.append(operand);
        self.write(c.as_str());
        self.s_pop();
        self.write("D=M");
        self.s_pop();
        let mut m = "M=".to_owned();
        m.append(comp);
        self.write(m.as_str());
        self.s_inc();
        proof {
            assert(((((old(self).result@ + ln("// "@ + operand@)) + s_pop_text()) + ln("D=M"@))
                + s_pop_text()) + ln("M="@ + comp@) + s_inc_text() =~= old(self).result@
                + binary_text(operand@, comp@));
        }
    }

    fn unary(&mut self, operand: &str)
        ensures
            final(self).result@ == old(self).result@ + unary_text(operand@),
            meta_same(*old(self), *final(self)),
    {
        let mut c = "// ".to_owned();
        c.append(operand);
        self.write(c.as_str());
        self.s_pop();
        let mut m = "M=".to_owned();
        m.append(operand);
        m.append("M");
        self.write(m.as_str());
        self.s_inc();
        proof {
            assert(((old(self).result@ + ln("// "@ + operand@)) + s_pop_text()) + ln(
                ("M="@ + operand@) + "M"@,
            ) + s_inc_text() =~= old(self).result@ + unary_text(operand@));
        }
    }

    #[verifier::spinoff_prover]
    #[verifier::rlimit(100)]
    fn logical(&mut self, operand: &str)
        requires
            old(self).label_c < 0xffff_ffff_ffff_ffff,
        ensures
            final(self).result@ == old(self).result@ + logical_text(
                operand@,
                old(self).context@,
                old(self).label_c as int,
            ),
            final(self).context@ == old(self).context@,
            final(self).filename@ == old(self).filename@,
            final(self).label_c == old(self).label_c + 1,
    {
        let ghost k = self.label_c as int;
        let mut c = "// ".to_owned();
        c.append(operand);
        self.write(c.as_str());
        self.binary("-", "M-D");
        self.s_pop();
        self.write("D=M");
        let mut t = "@".to_owned();
        t.append(self.context.as_str());
        t.append("$TRUE_");
        push_dec(&mut t, self.label_c);
        self.write(t.as_str());
        let mut j = "D;J".to_owned();
        j.append(operand);
        self.write(j.as_str());
        self.write("@SP");
        self.write("A=M");
        self.write("M=0");
        let mut f = "@".to_owned();
        f.append(self.context.as_str());
        f.append("$FINISH_");
        push_dec(&mut f, self.label_c);
        self.write(f.as_str());
        self.write("1;JMP");
        let mut tl = "(".to_owned();
        tl.append(self.context.as_str());
        tl.append("$TRUE_");
        push_dec(&mut tl, self.label_c);
        tl.append(")");
        self.write(tl.as_str());
        self.write("@SP");
        self.write("A=M");
        self.write("M=-1");
        let mut fl = "(".to_owned();
        fl.append(self.context.as_str());
        fl.append("$FINISH_");
        push_dec(&mut fl, self.label_c);
        fl.append(")");
        self.write(fl.as_str());
        self.s_inc();
        self.label_c = self.label_c + 1;
        proof {
            let ctx = old(self).context@;
            assert(t@ =~= "@"@ + true_label(ctx, k));
            assert(f@ =~= "@"@ + finish_label(ctx, k));
            assert(tl@ =~= ("("@ + true_label(ctx, k)) + ")"@);
            assert(fl@ =~= ("("@ + finish_label(ctx, k)) + ")"@);
            assert(final(self).result@ =~= old(self).result@ + logical_text(operand@, ctx, k));
        }
    }

    fn push_constant(&mut self, i: u32)
        ensures
            final(self).result@ == old(self).result@ + push_constant_text(i as int),
            meta_same(*old(self), *final(self)),
    {
        self.num_to_d(i);
        self.d_to_s();
        self.s_inc();
        proof {
            assert(final(self).result@ =~= old(self).result@ + push_constant_text(i as int));
        }
    }

    fn push_segment(&mut self, base: &str, i: u32)
        ensures
            final(self).result@ == old(self).result@ + push_segment_text(base@, i as int),
            meta_same(*old(self), *final(self)),
    {
        self.num_to_d(i);
        let mut a = "@".to_owned();
        a.append(base);
        self.write(a.as_str());
        self.write("A=D+M");
        self.write("D=M");
        self.d_to_s();
        self.s_inc();
        proof {
            assert(final(self).result@ =~= old(self).result@ + push_segment_text(
                base@,
                i as int,
            ));
        }
    }

    fn push_temp(&mut self, i: u32)
        ensures
            final(self).result@ == old(self).result@ + push_temp_text(i as int),
            meta_same(*old(self), *final(self)),
    {
        let mut a = "@".to_owned();
        push_dec(&mut a, 5u64 + i as u64);
        self.write(a.as_str());
        self.write("D=M");
        self.d_to_s();
        self.s_inc();
        proof {
            assert(final(self).result@ =~= old(self).result@ + push_temp_text(i as int));
        }
    }

    fn push_pointer(&mut self, i: u32)
        ensures
            final(self).result@ == old(self).result@ + push_pointer_text(i as int),
            meta_same(*old(self), *final(self)),
    {
        let to = if i == 1 {
            "THAT"
        } else {
            "THIS"
        };
        let mut a = "@".to_owned();
        a.append(to);
        self.write(a.as_str());
        self.write("D=M");
        self.write("@SP");
        self.write("A=M");
        self.write("M=D");
        self.s_inc();
        proof {
            assert(final(self).result@ =~= old(self).result@ + push_pointer_text(i as int));
        }
    }

    fn push_static(&mut self, i: u32)
        ensures
            final(self).result@ == old(self).result@ + push_static_text(
                old(self).filename@,
                i as int,
            ),
            meta_same(*old(self), *final(self)),
    {
        let mut a = "@".to_owned();
        a.append(self.filename.as_str());
        a.append(".");
        push_dec(&mut a, i as u64);
        self.write(a.as_str());
        self.write("D=M");
        self.d_to_s();
        self.s_inc();
        proof {
            assert(final(self).result@ =~= old(self).result@ + push_static_text(
                old(self).filename@,
                i as int,
            ));
        }
    }

    /// Emits one `push`; an unknown segment is an error.
    #[verifier::spinoff_prover]
    #[verifier::rlimit(100)]
    fn push(&mut self, code: &SegmentMetadata) -> (r: Result<(), VmError>)
        ensures
            match (r, push_text(code.segment@, code.i as int, old(self).filename@)) {
                (Ok(()), Ok(t)) => final(self).result@ == old(self).result@ + t && meta_same(
                    *old(self),
                    *final(self),
                ),
                (Err(e), Err(ev)) => e@ == ev,
                _ => false,
            },
    {
        let mut c = "// push segment ".to_owned();
        c.append(code.segment.as_str());
        c.append(" to location ");
        push_dec(&mut c, code.i as u64);
        self.write(c.as_str());
        let seg = code.segment.as_str();
        if str_eq(seg, "constant") {
            self.push_constant(code.i);
            proof {
                assert(self.result@ =~= old(self).result@ + (push_comment(
                    code.segment@,
                    code.i as int,
                ) + push_constant_text(code.i as int)));
            }
        } else if str_eq(seg, "local") {
            self.push_segment("LCL", code.i);
            proof {
                assert(self.result@ =~= old(self).result@ + (push_comment(
                    code.segment@,
                    code.i as int,
                ) + push_segment_text("LCL"@, code.i as int)));
            }
        } else if str_eq(seg, "argument") {
            self.push_segment("ARG", code.i);
            proof {
                assert(self.result@ =~= old(self).result@ + (push_comment(
                    code.segment@,
                    code.i as int,
                ) + push_segment_text("ARG"@, code.i as int)));
            }
        } else if str_eq(seg, "this") {
            self.push_segment("THIS", code.i);
            proof {
                assert(self.result@ =~= old(self).result@ + (push_comment(
                    code.segment@,
                    code.i as int,
                ) + push_segment_text("THIS"@, code.i as int)));
            }
        } else if str_eq(seg, "that") {
            self.push_segment("THAT", code.i);
            proof {
                assert(self.result@ =~= old(self).result@ + (push_comment(
                    code.segment@,
                    code.i as int,
                ) + push_segment_text("THAT"@, code.i as int)));
            }
        } else if str_eq(seg, "temp") {
            self.push_temp(code.i);
            proof {
                assert(self.result@ =~= old(self).result@ + (push_comment(
                    code.segment@,
                    code.i as int,
                ) + push_temp_text(code.i as int)));
            }
        } else if str_eq(seg, "pointer") {
            self.push_pointer(code.i);
            proof {
                assert(self.result@ =~= old(self).result@ + (push_comment(
                    code.segment@,
                    code.i as int,
                ) + push_pointer_text(code.i as int)));
            }
        } else if str_eq(seg, "static") {
            self.push_static(code.i);
            proof {
                assert(self.result@ =~= old(self).result@ + (push_comment(
                    code.segment@,
                    code.i as int,
                ) + push_static_text(old(self).filename@, code.i as int)));
            }
        } else {
            return Err(VmError::UnknownSegment(code.segment.clone()));
        }
        Ok(())
    }

    fn pop_segment(&mut self, base: &str, i: u32)
        ensures
            final(self).result@ == old(self).result@ + pop_segment_text(base@, i as int),
            meta_same(*old(self), *final(self)),
    {
        self.num_to_d(i);
        let mut a = "@".to_owned();
        a.append(base);
        self.write(a.as_str());
        self.write("A=D+M");
        self.write("D=A");
        self.write("@TEMP");
        self.write("M=D");
        self.s_dec();
        self.s_to_d();
        self.write("@TEMP");
        self.write("A=M");
        self.write("M=D");
        proof {
            assert(final(self).result@ =~= old(self).result@ + pop_segment_text(base@, i as int));
        }
    }

    fn pop_temp(&mut self, i: u32)
        ensures
            final(self).result@ == old(self).result@ + pop_temp_text(i as int),
            meta_same(*old(self), *final(self)),
    {
        self.s_dec();
        self.s_to_d();
        let mut a = "@".to_owned();
        push_dec(&mut a, 5u64 + i as u64);
        self.write(a.as_str());
        self.write("M=D");
        proof {
            assert(final(self).result@ =~= old(self).result@ + pop_temp_text(i as int));
        }
    }

    fn pop_pointer(&mut self, i: u32)
        ensures
            final(self).result@ == old(self).result@ + pop_pointer_text(i as int),
            meta_same(*old(self), *final(self)),
    {
        let to = if i == 1 {
            "THAT"
        } else {
            "THIS"
        };
        self.s_dec();
        self.s_to_d();
        let mut a = "@".to_owned();
        a.append(to);
        self.write(a.as_str());
        self.write("M=D");
        proof {
            assert(final(self).result@ =~= old(self).result@ + pop_pointer_text(i as int));
        }
    }

    fn pop_static(&mut self, i: u32)
        ensures
            final(self).result@ == old(self).result@ + pop_static_text(
                old(self).filename@,
                i as int,
            ),
            meta_same(*old(self), *final(self)),
    {
        self.s_dec();
        self.s_to_d();
        let mut a = "@".to_owned();
        a.append(self.filename.as_str());
        a.append(".");
        push_dec(&mut a, i as u64);
        self.write(a.as_str());
        self.write("M=D");
        proof {
            assert(final(self).result@ =~= old(self).result@ + pop_static_text(
                old(self).filename@,
                i as int,
            ));
        }
    }

    /// Emits one `pop`; `constant` and unknown segments are errors.
    #[verifier::spinoff_prover]
    #[verifier::rlimit(100)]
    fn pop(&mut self, code: &SegmentMetadata) -> (r: Result<(), VmError>)
        ensures
            match (r, pop_text(code.segment@, code.i as int, old(self).filename@)) {
                (Ok(()), Ok(t)) => final(self).result@ == old(self).result@ + t && meta_same(
                    *old(self),
                    *final(self),
                ),
                (Err(e), Err(ev)) => e@ == ev,
                _ => false,
            },
    {
        let mut c = "// pop segment ".to_owned();
        c.append(code.segment.as_str());
        c.append(" to location ");
        push_dec(&mut c, code.i as u64);
        self.write(c.as_str());
        let seg = code.segment.as_str();
        if str_eq(seg, "local") {
            self.pop_segment("LCL", code.i);
            proof {
                assert(self.result@ =~= old(self).result@ + (pop_comment(
                    code.segment@,
                    code.i as int,
                ) + pop_segment_text("LCL"@, code.i as int)));
            }
        } else if str_eq(seg, "argument") {
            self.pop_segment("ARG", code.i);
            proof {
                assert(self.result@ =~= old(self).result@ + (pop_comment(
                    code.segment@,
                    code.i as int,
                ) + pop_segment_text("ARG"@, code.i as int)));
            }
        } else if str_eq(seg, "this") {
            self.pop_segment("THIS", code.i);
            proof {
                assert(self.result@ =~= old(self).result@ + (pop_comment(
                    code.segment@,
                    code.i as int,
                ) + pop_segment_text("THIS"@, code.i as int)));
            }
        } else if str_eq(seg, "that") {
            self.pop_segment("THAT", code.i);
            proof {
                assert(self.result@ =~= old(self).result@ + (pop_comment(
                    code.segment@,
                    code.i as int,
                ) + pop_segment_text("THAT"@, code.i as int)));
            }
        } else if str_eq(seg, "temp") {
            self.pop_temp(code.i);
            proof {
                assert(self.result@ =~= old(self).result@ + (pop_comment(
                    code.segment@,
                    code.i as int,
                ) + pop_temp_text(code.i as int)));
            }
        } else if str_eq(seg, "pointer") {
            self.pop_pointer(code.i);
            proof {
                assert(self.result@ =~= old(self).result@ + (pop_comment(
                    code.segment@,
                    code.i as int,
                ) + pop_pointer_text(code.i as int)));
            }
        } else if str_eq(seg, "static") {
            self.pop_static(code.i);
            proof {
                assert(self.result@ =~= old(self).result@ + (pop_comment(
                    code.segment@,
                    code.i as int,
                ) + pop_static_text(old(self).filename@, code.i as int)));
            }
        } else {
            return Err(VmError::UnknownSegment(code.segment.clone()));
        }
        Ok(())
    }

    fn label(&mut self, name: &str)
        ensures
            final(self).result@ == old(self).result@ + label_text(old(self).context@, name@),
            meta_same(*old(self), *final(self)),
    {
        let mut c = "// label ".to_owned();
        c.append(name);
        self.write(c.as_str());
        let mut l = "(".to_owned();
        l.append(self.context.as_str());
        l.append("$");
        l.append(name);
        l.append(")");
        self.write(l.as_str());
        proof {
            assert(l@ =~= "("@ + old(self).context@ + "$"@ + name@ + ")"@);
            assert(final(self).result@ =~= old(self).result@ + label_text(
                old(self).context@,
                name@,
            ));
        }
    }

    fn goto(&mut self, name: &str)
        ensures
            final(self).result@ == old(self).result@ + goto_text(old(self).context@, name@),
            meta_same(*old(self), *final(self)),
    {
        let mut c = "// goto ".to_owned();
        c.append(name);
        self.write(c.as_str());
        let mut l = "@".to_owned();
        l.append(self.context.as_str());
        l.append("$");
        l.append(name);
        self.write(l.as_str());
        self.write("1;JMP");
        proof {
            assert(l@ =~= "@"@ + old(self).context@ + "$"@ + name@);
            assert(final(self).result@ =~= old(self).result@ + goto_text(
                old(self).context@,
                name@,
            ));
        }
    }

    fn if_goto(&mut self, name: &str)
        ensures
            final(self).result@ == old(self).result@ + if_goto_text(old(self).context@, name@),
            meta_same(*old(self), *final(self)),
    {
        let mut c = "// if-goto ".to_owned();
        c.append(name);
        self.write(c.as_str());
        self.s_dec();
        self.s_to_d();
        let mut l = "@".to_owned();
        l.append(self.context.as_str());
        l.append("$");
        l.append(name);
        self.write(l.as_str());
        self.write("D;JNE");
        proof {
            assert(l@ =~= "@"@ + old(self).context@ + "$"@ + name@);
            assert(final(self).result@ =~= old(self).result@ + if_goto_text(
                old(self).context@,
                name@,
            ));
        }
    }

    /// Defines a function entry: its label, the new context, and one
    /// zeroed slot per declared local.
    fn function(&mut self, meta: &FunctionMetadata)
        ensures
            final(self).result@ == old(self).result@ + function_text(
                meta.name@,
                meta.argv as int,
            ),
            final(self).context@ == meta.name@,
            final(self).label_c == old(self).label_c,
            final(self).filename@ == old(self).filename@,
    {
        let mut c = "// function ".to_owned();
        c.append(meta.name.as_str());
        c.append(".");
        push_dec(&mut c, meta.argv as u64);
        self.write(c.as_str());
        self.context = meta.name.clone();
        let mut l = "(".to_owned();
        l.append(self.context.as_str());
        l.append(")");
        self.write(l.as_str());
        let ghost base = self.result@;
        let mut j: u32 = 0;
        proof {
            assert(base + repeat_text(zero_local_text(), 0) =~= base);
        }
        while j < meta.argv
            invariant
                0 <= j <= meta.argv,
                self.result@ == base + repeat_text(zero_local_text(), j as int),
                self.context@ == meta.name@,
                self.label_c == old(self).label_c,
                self.filename@ == old(self).filename@,
            decreases meta.argv - j,
        {
            let ghost pre = self.result@;
            self.write("@SP");
            self.write("A=M");
            self.write("M=0");
            self.s_inc();
            j = j + 1;
            proof {
                lemma_repeat_snoc(zero_local_text(), j - 1);
                assert(self.result@ =~= pre + zero_local_text());
                assert(self.result@ =~= base + repeat_text(zero_local_text(), j as int));
            }
        }
        proof {
            assert(final(self).result@ =~= old(self).result@ + function_text(
                meta.name@,
                meta.argv as int,
            ));
        }
    }

    fn push_d(&mut self)
        ensures
            final(self).result@ == old(self).result@ + push_d_text(),
            meta_same(*old(self), *final(self)),
    {
        self.d_to_s();
        self.s_inc();
        proof {
            assert(final(self).result@ =~= old(self).result@ + push_d_text());
        }
    }

    /// Emits one `call`: the five-word frame, the repositioning of `ARG`
    /// and `LCL`, the jump, and the landing site.
    #[verifier::spinoff_prover]
    #[verifier::rlimit(100)]
    fn call(&mut self, meta: &FunctionMetadata)
        requires
            old(self).label_c < 0xffff_ffff_ffff_ffff,
        ensures
            final(self).result@ == old(self).result@ + call_text(
                meta.name@,
                meta.argv as int,
                old(self).context@,
                old(self).label_c as int,
            ),
            final(self).context@ == old(self).context@,
            final(self).filename@ == old(self).filename@,
            final(self).label_c == old(self).label_c + 1,
    {
        let ghost ctx = self.context@;
        let ghost k = self.label_c as int;
        let mut c = "// call ".to_owned();
        c.append(meta.name.as_str());
        c.append(".");
        push_dec(&mut c, meta.argv as u64);
        c.append(" from ");
        c.append(self.context.as_str());
        self.write(c.as_str());
        let mut rl = self.context.clone();
        rl.append("$ret.");
        push_dec(&mut rl, self.label_c);
        self.label_c = self.label_c + 1;
        let mut a = "@".to_owned();
        a.append(rl.as_str());
        self.write(a.as_str());
        self.write("D=A");
        self.push_d();
        proof {
            assert(rl@ =~= ret_label(ctx, k));
            assert(c@ =~= "// call "@ + meta.name@ + "."@ + dec_chars(meta.argv as int) + " from "@
                + ctx);
            assert(self.result@ =~= old(self).result@ + call_head_text(
                meta.name@,
                meta.argv as int,
                ctx,
                k,
            ));
        }
        let ghost after_head = self.result@;
        self.addr_val_to_d("LCL");
        self.push_d();
        self.addr_val_to_d("ARG");
        self.push_d();
        self.addr_val_to_d("THIS");
        self.push_d();
        self.addr_val_to_d("THAT");
        self.push_d();
        proof {
            assert(self.result@ =~= after_head + call_saves_text());
        }
        let ghost after_saves = self.result@;
        self.write("@SP");
        self.write("D=M");
        self.write("@5");
        self.write("D=D-A");
        let mut n = "@".to_owned();
        push_dec(&mut n, meta.argv as u64);
        self.write(n.as_str());
        self.write("D=D-A");
        self.write("@ARG");
        self.write("M=D");
        self.write("@SP");
        self.write("D=M");
        self.write("@LCL");
        self.write("M=D");
        proof {
            assert(self.result@ =~= after_saves + call_repos_text(meta.argv as int));
        }
        let ghost after_repos = self.result@;
        let mut f = "@".to_owned();
        f.append(meta.name.as_str());
        self.write(f.as_str());
        self.write("1;JMP");
        let mut e = "(".to_owned();
        e.append(rl.as_str());
        e.append(")");
        self.write(e.as_str());
        proof {
            assert(e@ =~= "("@ + ret_label(ctx, k) + ")"@);
            assert(self.result@ =~= after_repos + call_tail_text(meta.name@, ctx, k));
            assert(final(self).result@ =~= old(self).result@ + call_text(
                meta.name@,
                meta.argv as int,
                ctx,
                k,
            ));
        }
    }

    fn restore(&mut self, offset: u32, reg: &str)
        ensures
            final(self).result@ == old(self).result@ + restore_text(offset as int, reg@),
            meta_same(*old(self), *final(self)),
    {
        self.addr_val_to_d("R13");
        let mut a = "@".to_owned();
        push_dec(&mut a, offset as u64);
        self.write(a.as_str());
        self.write("A=D-A");
        self.write("D=M");
        let mut b = "@".to_owned();
        b.append(reg);
        self.write(b.as_str());
        self.write("M=D");
        proof {
            assert(final(self).result@ =~= old(self).result@ + restore_text(offset as int, reg@));
        }
    }

    /// Emits one `return`: hands the result to the caller, restores the
    /// saved segments from the frame held in `R13`, and jumps through
    /// `R14`.
    #[verifier::spinoff_prover]
    #[verifier::rlimit(100)]
    fn ret(&mut self)
        ensures
            final(self).result@ == old(self).result@ + ret_text(old(self).context@),
            meta_same(*old(self), *final(self)),
    {
        let mut c = "// return ".to_owned();
        c.append(self.context.as_str());
        self.write(c.as_str());
        self.addr_val_to_d("LCL");
        self.write("@R13");
        self.write("M=D");
        self.write("@5");
        self.write("A=D-A");
        self.write("D=M");
        self.write("@R14");
        self.write("M=D");
        self.s_pop();
        self.write("D=M");
        self.write("@ARG");
        self.write("A=M");
        self.write("M=D");
        self.write("@ARG");
        self.write("D=M+1");
        self.write("@SP");
        self.write("M=D");
        self.restore(1, "THAT");
        self.restore(2, "THIS");
        self.restore(3, "ARG");
        self.restore(4, "LCL");
        self.addr_val_to_d("R14");
        self.write("A=D");
        self.write("1;JMP");
        proof {
            assert(final(self).result@ =~= old(self).result@ + ret_text(old(self).context@));
        }
    }

    /// Emits one opcode.
    #[verifier::spinoff_prover]
    #[verifier::rlimit(100)]
    fn gen_one(&mut self, op: &Opcode) -> (r: Result<(), VmError>)
        requires
            old(self).label_c < 0xffff_ffff_ffff_ffff,
        ensures
            match (r, gen_op(state_of(*old(self)), op@, old(self).filename@)) {
                (Ok(()), Ok(st)) => state_of(*final(self)) == st && final(self).filename@ == old(
                    self,
                ).filename@ && final(self).label_c <= old(self).label_c + 1,
                (Err(e), Err(ev)) => e@ == ev,
                _ => false,
            },
    {
        match op {
            Opcode::Call(meta) => {
                self.call(meta);
                Ok(())
            },
            Opcode::Function(meta) => {
                self.function(meta);
                Ok(())
            },
            Opcode::Return => {
                self.ret();
                Ok(())
            },
            Opcode::Label(l) => {
                self.label(l.name.as_str());
                Ok(())
            },
            Opcode::Goto(l) => {
                self.goto(l.name.as_str());
                Ok(())
            },
            Opcode::IfGoto(l) => {
                self.if_goto(l.name.as_str());
                Ok(())
            },
            Opcode::Push(pc) => self.push(pc),
            Opcode::Pop(pc) => self.pop(pc),
            Opcode::Add => {
                self.binary("+", "D+M");
                Ok(())
            },
            Opcode::Sub => {
                self.binary("-", "M-D");
                Ok(())
            },
            Opcode::And => {
                self.binary("&", "D&M");
                Ok(())
            },
            Opcode::Or => {
                self.binary("|", "D|M");
                Ok(())
            },
            Opcode::Not => {
                self.unary("!");
                Ok(())
            },
            Opcode::Neg => {
                self.unary("-");
                Ok(())
            },
            Opcode::Lt => {
                self.logical("LT");
                Ok(())
            },
            Opcode::Gt => {
                self.logical("GT");
                Ok(())
            },
            Opcode::Eq => {
                self.logical("EQ");
                Ok(())
            },
        }
    }

    /// Emits every opcode in order.
    #[verifier::spinoff_prover]
    #[verifier::rlimit(100)]
    fn gen(&mut self, opcodes: &Vec<Opcode>) -> (r: Result<(), VmError>)
        requires
            old(self).label_c as int + opcodes@.len() <= 0xffff_ffff_ffff_ffff,
        ensures
            match (r, gen_ops(state_of(*old(self)), views_of_ops(opcodes@), old(self).filename@)) {
                (Ok(()), Ok(st)) => state_of(*final(self)) == st && final(self).filename@ == old(
                    self,
                ).filename@,
                (Err(e), Err(ev)) => e@ == ev,
                _ => false,
            },
    {
        let ghost ops = views_of_ops(opcodes@);
        let ghost st0 = state_of(*old(self));
        let ghost file = old(self).filename@;
        let mut i: usize = 0;
        proof {
            assert(ops.skip(0) =~= ops);
        }
        while i < opcodes.len()
            invariant
                0 <= i <= opcodes.len(),
                ops == views_of_ops(opcodes@),
                ops.len() == opcodes@.len(),
                st0 == state_of(*old(self)),
                file == old(self).filename@,
                self.filename@ == file,
                st0.label_c + opcodes@.len() <= 0xffff_ffff_ffff_ffff,
                self.label_c as int <= st0.label_c + i,
                ({
                    match gen_ops(state_of(*self), ops.skip(i as int), file) {
                        Ok(st) => gen_ops(st0, ops, file) == Ok::<GenState, VmErrorView>(st),
                        Err(e) => gen_ops(st0, ops, file) == Err::<GenState, VmErrorView>(e),
                    }
                }),
            decreases opcodes.len() - i,
        {
            let ghost pre = state_of(*self);
            let r = self.gen_one(&opcodes[i]);
            proof {
                assert(ops.skip(i as int)[0] == ops[i as int]);
                assert(ops[i as int] == opcodes@[i as int]@);
                assert(ops.skip(i as int).drop_first() =~= ops.skip(i as int + 1));
            }
            match r {
                Ok(()) => {
                    proof {
                        assert(gen_op(pre, ops.skip(i as int)[0], file) == Ok::<
                            GenState,
                            VmErrorView,
                        >(state_of(*self)));
                        assert(gen_ops(pre, ops.skip(i as int), file) == gen_ops(
                            state_of(*self),
                            ops.skip(i as int + 1),
                            file,
                        ));
                    }
                },
                Err(e) => {
                    proof {
                        assert(gen_op(pre, ops.skip(i as int)[0], file) == Err::<
                            GenState,
                            VmErrorView,
                        >(e@));
                        assert(gen_ops(pre, ops.skip(i as int), file) == Err::<
                            GenState,
                            VmErrorView,
                        >(e@));
                    }
                    return Err(e);
                },
            }
            i = i + 1;
        }
        proof {
            assert(ops.skip(opcodes@.len() as int) =~= Seq::<OpcodeView>::empty());
        }
        Ok(())
    }
}

/// Translates an opcode list into assembly for the unit named `filename`.
pub fn generate(opcodes: &Vec<Opcode>, filename: String) -> (r: Result<String, VmError>)
    ensures
        match r {
            Ok(out) => spec_generate(views_of_ops(opcodes@), filename@) == Ok::<
                Seq<char>,
                VmErrorView,
            >(out@),
            Err(e) => spec_generate(views_of_ops(opcodes@), filename@) == Err::<
                Seq<char>,
                VmErrorView,
            >(e@),
        },
{
    let mut cg = Codegen::new(filename);
    proof {
        assert(state_of(cg) == GenState {
            text: Seq::<char>::empty(),
            context: "Global"@,
            label_c: 0,
        });
    }
    let n = opcodes.len();
    proof {
        assert(opcodes@.len() == n as int);
    }
    match cg.gen(opcodes) {
        Ok(()) => Ok(cg.result),
        Err(e) => Err(e),
    }
}

/// The bootstrap prologue, emitted once ahead of a multi-unit program.
pub fn entry() -> (r: String)
    ensures
        r@ == entry_text(),
{
    let mut cg = Codegen::new("Entry".to_owned());
    cg.write("@256");
    cg.write("D=A");
    cg.write("@SP");
    cg.write("M=D");
    cg.call(&FunctionMetadata { name: "Sys.init".to_owned(), argv: 0 });
    proof {
        assert(cg.result@ =~= entry_text());
    }
    cg.result
}

} // verus!
