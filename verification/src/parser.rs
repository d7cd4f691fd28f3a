//! The VM parser: splits a source text into normalized opcode records,
//! stripping comments and blank lines.

use vstd::prelude::*;
use crate::error::{VmError, VmErrorView};
use crate::opcode::{FunctionMetadata, LabelMetadata, Opcode, OpcodeView, SegmentMetadata};
use crate::text::{clean_line, clean_of, parse_u32, parse_u32_str, split_char, split_str, str_eq, views_of};

verus! {

/// The index operand of an opcode: a failed numeric parse yields zero.
pub open spec fn index_of(s: Seq<char>) -> u32 {
    match parse_u32(s) {
        Some(v) => v,
        None => 0,
    }
}

/// How a cleaned multi-word line parses: `push`/`pop` and `call`/`function`
/// take two operands, the control-flow opcodes take one; anything else is
/// unknown.
pub open spec fn parse_complex_of(l: Seq<char>) -> Result<OpcodeView, VmErrorView> {
    let words = split_char(l, ' ');
    if words.len() == 3 && words[0] == "push"@ {
        Ok(OpcodeView::Push(words[1], index_of(words[2])))
    } else if words.len() == 3 && words[0] == "pop"@ {
        Ok(OpcodeView::Pop(words[1], index_of(words[2])))
    } else if words.len() == 3 && words[0] == "call"@ {
        Ok(OpcodeView::Call(words[1], index_of(words[2])))
    } else if words.len() == 3 && words[0] == "function"@ {
        Ok(OpcodeView::Function(words[1], index_of(words[2])))
    } else if words.len() == 2 && words[0] == "label"@ {
        Ok(OpcodeView::Label(words[1]))
    } else if words.len() == 2 && words[0] == "goto"@ {
        Ok(OpcodeView::Goto(words[1]))
    } else if words.len() == 2 && words[0] == "if-goto"@ {
        Ok(OpcodeView::IfGoto(words[1]))
    } else {
        Err(VmErrorView::UnknownExpression(l))
    }
}

/// How a cleaned, non-empty line parses: a niladic opcode word, or a
/// multi-word shape.
pub open spec fn parse_op(l: Seq<char>) -> Result<OpcodeView, VmErrorView> {
    if l == "add"@ {
        Ok(OpcodeView::Add)
    } else if l == "sub"@ {
        Ok(OpcodeView::Sub)
    } else if l == "neg"@ {
        Ok(OpcodeView::Neg)
    } else if l == "eq"@ {
        Ok(OpcodeView::Eq)
    } else if l == "gt"@ {
        Ok(OpcodeView::Gt)
    } else if l == "lt"@ {
        Ok(OpcodeView::Lt)
    } else if l == "and"@ {
        Ok(OpcodeView::And)
    } else if l == "or"@ {
        Ok(OpcodeView::Or)
    } else if l == "not"@ {
        Ok(OpcodeView::Not)
    } else if l == "return"@ {
        Ok(OpcodeView::Return)
    } else {
        parse_complex_of(l)
    }
}

/// The opcodes of a list of raw lines, in order: lines that clean to
/// nothing contribute nothing; the first bad line is the error.
pub open spec fn parse_vm_lines(lines: Seq<Seq<char>>) -> Result<Seq<OpcodeView>, VmErrorView>
    decreases lines.len(),
{
    if lines.len() == 0 {
        Ok(Seq::<OpcodeView>::empty())
    } else {
        let c = clean_of(lines[0]);
        if c.len() == 0 {
            parse_vm_lines(lines.drop_first())
        } else {
            match parse_op(c) {
                Ok(op) => match parse_vm_lines(lines.drop_first()) {
                    Ok(ops) => Ok(seq![op] + ops),
                    Err(e) => Err(e),
                },
                Err(e) => Err(e),
            }
        }
    }
}

/// What parsing a whole VM source text yields.
pub open spec fn spec_parse(s: Seq<char>) -> Result<Seq<OpcodeView>, VmErrorView> {
    parse_vm_lines(split_char(s, '\n'))
}

/// The views of an opcode list.
pub open spec fn views_of_ops(v: Seq<Opcode>) -> Seq<OpcodeView> {
    v.map_values(|o: Opcode| o@)
}

/// Parses one cleaned multi-word line.
pub fn parse_complex(line: &str) -> (r: Result<Opcode, VmError>)
    ensures
        match r {
            Ok(op) => parse_complex_of(line@) == Ok::<OpcodeView, VmErrorView>(op@),
            Err(e) => parse_complex_of(line@) == Err::<OpcodeView, VmErrorView>(e@),
        },
{
    let words = split_str(line, ' ');
    proof {
        assert forall|k: int| 0 <= k < words@.len() implies #[trigger] split_char(line@, ' ')[k]
            == words@[k]@ by {}
    }
    if words.len() == 3 {
        let w0 = words[0].as_str();
        let i = match parse_u32_str(words[2].as_str()) {
            Some(v) => v,
            None => 0,
        };
        if str_eq(w0, "push") {
            Ok(Opcode::Push(SegmentMetadata { segment: words[1].clone(), i }))
        } else if str_eq(w0, "pop") {
            Ok(Opcode::Pop(SegmentMetadata { segment: words[1].clone(), i }))
        } else if str_eq(w0, "call") {
            Ok(Opcode::Call(FunctionMetadata { name: words[1].clone(), argv: i }))
        } else if str_eq(w0, "function") {
            Ok(Opcode::Function(FunctionMetadata { name: words[1].clone(), argv: i }))
        } else {
            Err(VmError::UnknownExpression(line.to_owned()))
        }
    } else if words.len() == 2 {
        let w0 = words[0].as_str();
        if str_eq(w0, "label") {
            Ok(Opcode::Label(LabelMetadata { name: words[1].clone() }))
        } else if str_eq(w0, "goto") {
            Ok(Opcode::Goto(LabelMetadata { name: words[1].clone() }))
        } else if str_eq(w0, "if-goto") {
            Ok(Opcode::IfGoto(LabelMetadata { name: words[1].clone() }))
        } else {
            Err(VmError::UnknownExpression(line.to_owned()))
        }
    } else {
        Err(VmError::UnknownExpression(line.to_owned()))
    }
}

/// Parses one cleaned, non-empty line.
fn parse_line(line: &str) -> (r: Result<Opcode, VmError>)
    ensures
        match r {
            Ok(op) => parse_op(line@) == Ok::<OpcodeView, VmErrorView>(op@),
            Err(e) => parse_op(line@) == Err::<OpcodeView, VmErrorView>(e@),
        },
{
    if str_eq(line, "add") {
        Ok(Opcode::Add)
    } else if str_eq(line, "sub") {
        Ok(Opcode::Sub)
    } else if str_eq(line, "neg") {
        Ok(Opcode::Neg)
    } else if str_eq(line, "eq") {
        Ok(Opcode::Eq)
    } else if str_eq(line, "gt") {
        Ok(Opcode::Gt)
    } else if str_eq(line, "lt") {
        Ok(Opcode::Lt)
    } else if str_eq(line, "and") {
        Ok(Opcode::And)
    } else if str_eq(line, "or") {
        Ok(Opcode::Or)
    } else if str_eq(line, "not") {
        Ok(Opcode::Not)
    } else if str_eq(line, "return") {
        Ok(Opcode::Return)
    } else {
        parse_complex(line)
    }
}

/// Parses a whole VM source text into its opcode list.
pub fn parse(source: &str) -> (r: Result<Vec<Opcode>, VmError>)
    ensures
        match r {
            Ok(ops) => spec_parse(source@) == Ok::<Seq<OpcodeView>, VmErrorView>(
                views_of_ops(ops@),
            ),
            Err(e) => spec_parse(source@) == Err::<Seq<OpcodeView>, VmErrorView>(e@),
        },
{
    let lines = split_str(source, '\n');
    let ghost ls = split_char(source@, '\n');
    let mut ops: Vec<Opcode> = Vec::new();
    let mut idx: usize = 0;
    proof {
        assert(ls.skip(0) =~= ls);
        assert(views_of_ops(ops@) =~= Seq::<OpcodeView>::empty());
        match parse_vm_lines(ls) {
            Ok(rest) => {
                assert(Seq::<OpcodeView>::empty() + rest =~= rest);
            },
            Err(_) => {},
        }
    }
    while idx < lines.len()
        invariant
            0 <= idx <= lines.len(),
            ls == split_char(source@, '\n'),
            views_of(lines@) == ls,
            ls.len() == lines@.len(),
            ({
                match parse_vm_lines(ls.skip(idx as int)) {
                    Ok(rest) => parse_vm_lines(ls) == Ok::<Seq<OpcodeView>, VmErrorView>(
                        views_of_ops(ops@) + rest,
                    ),
                    Err(e) => parse_vm_lines(ls) == Err::<Seq<OpcodeView>, VmErrorView>(e),
                }
            }),
        decreases lines.len() - idx,
    {
        proof {
            assert(ls.skip(idx as int)[0] == ls[idx as int]);
            assert(ls[idx as int] == lines@[idx as int]@);
            assert(ls.skip(idx as int).drop_first() =~= ls.skip(idx as int + 1));
        }
        let clean = clean_line(lines[idx].as_str());
        if clean.as_str().unicode_len() > 0 {
            match parse_line(clean.as_str()) {
                Ok(op) => {
                    let ghost pre_ops = views_of_ops(ops@);
                    let ghost opv = op@;
                    ops.push(op);
                    proof {
                        assert(views_of_ops(ops@) =~= pre_ops.push(opv));
                        match parse_vm_lines(ls.skip(idx as int + 1)) {
                            Ok(rest) => {
                                assert(pre_ops + (seq![opv] + rest) =~= pre_ops.push(opv) + rest);
                            },
                            Err(_) => {},
                        }
                    }
                },
                Err(e) => {
                    return Err(e);
                },
            }
        }
        idx = idx + 1;
    }
    proof {
        assert(ls.skip(lines@.len() as int) =~= Seq::<Seq<char>>::empty());
        assert(views_of_ops(ops@) + Seq::<OpcodeView>::empty() =~= views_of_ops(ops@));
    }
    Ok(ops)
}

} // verus!
