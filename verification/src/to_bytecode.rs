//! Second pass of the assembler: bit-encoding of single tokens. A- and
//! C-instructions each become sixteen `0`/`1` characters; labels produce
//! nothing.

use vstd::prelude::*;
use vstd::string::StringExecFns;
use crate::error::{AsmError, AsmErrorView};
use crate::symbol_table::{SymbolTable, SymbolTableView};
use crate::text::{bin_chars, push_bin, str_eq};
use crate::token::{A, AView, C, CView, Instruction, InstructionView};

verus! {

/// The sixteen-character binary word for `num`.
pub fn format_u16(num: u16) -> (r: String)
    ensures
        r@ == bin_chars(num as int, 16),
{
    let mut out = String::new();
    push_bin(&mut out, num, 16);
    proof {
        assert(Seq::<char>::empty() + bin_chars(num as int, 16) =~= bin_chars(num as int, 16));
    }
    out
}

/// The three jump bits, or nothing for a mnemonic outside the table.
pub open spec fn jump_bits(j: Option<Seq<char>>) -> Option<Seq<char>> {
    match j {
        None => Some("000"@),
        Some(s) => if s == "JGT"@ {
            Some("001"@)
        } else if s == "JEQ"@ {
            Some("010"@)
        } else if s == "JGE"@ {
            Some("011"@)
        } else if s == "JLT"@ {
            Some("100"@)
        } else if s == "JNE"@ {
            Some("101"@)
        } else if s == "JLE"@ {
            Some("110"@)
        } else if s == "JMP"@ {
            Some("111"@)
        } else {
            None
        },
    }
}

/// The three destination bits (ordered A, D, M), or nothing for a mnemonic
/// outside the table.
pub open spec fn dest_bits(d: Option<Seq<char>>) -> Option<Seq<char>> {
    match d {
        None => Some("000"@),
        Some(s) => if s == "M"@ {
            Some("001"@)
        } else if s == "D"@ {
            Some("010"@)
        } else if s == "MD"@ {
            Some("011"@)
        } else if s == "A"@ {
            Some("100"@)
        } else if s == "AM"@ {
            Some("101"@)
        } else if s == "AD"@ {
            Some("110"@)
        } else if s == "AMD"@ {
            Some("111"@)
        } else {
            None
        },
    }
}

/// The seven computation bits (the leftmost is the `a` selector), or
/// nothing for a mnemonic outside the table.
pub open spec fn comp_bits(s: Seq<char>) -> Option<Seq<char>> {
    if s == "0"@ {
        Some("0101010"@)
    } else if s == "1"@ {
        Some("0111111"@)
    } else if s == "-1"@ {
        Some("0111010"@)
    } else if s == "D"@ {
        Some("0001100"@)
    } else if s == "A"@ {
        Some("0110000"@)
    } else if s == "!D"@ {
        Some("0001101"@)
    } else if s == "!A"@ {
        Some("0110001"@)
    } else if s == "-D"@ {
        Some("0001111"@)
    } else if s == "-A"@ {
        Some("0110011"@)
    } else if s == "D+1"@ {
        Some("0011111"@)
    } else if s == "A+1"@ {
        Some("0110111"@)
    } else if s == "D-1"@ {
        Some("0001110"@)
    } else if s == "A-1"@ {
        Some("0110010"@)
    } else if s == "D+A"@ {
        Some("0000010"@)
    } else if s == "D-A"@ {
        Some("0010011"@)
    } else if s == "A-D"@ {
        Some("0000111"@)
    } else if s == "D&A"@ {
        Some("0000000"@)
    } else if s == "D|A"@ {
        Some("0010101"@)
    } else if s == "M"@ {
        Some("1110000"@)
    } else if s == "!M"@ {
        Some("1110001"@)
    } else if s == "-M"@ {
        Some("1110011"@)
    } else if s == "M+1"@ {
        Some("1110111"@)
    } else if s == "M-1"@ {
        Some("1110010"@)
    } else if s == "D+M"@ {
        Some("1000010"@)
    } else if s == "D-M"@ {
        Some("1010011"@)
    } else if s == "M-D"@ {
        Some("1000111"@)
    } else if s == "D&M"@ {
        Some("1000000"@)
    } else if s == "D|M"@ {
        Some("1010101"@)
    } else {
        None
    }
}

fn jump_code(j: &Option<String>) -> (r: Option<&'static str>)
    ensures
        match r {
            Some(b) => jump_bits(match j {
                Some(s) => Some(s@),
                None => None,
            }) == Some(b@),
            None => jump_bits(match j {
                Some(s) => Some(s@),
                None => None,
            }) is None,
        },
{
    match j {
        None => Some("000"),
        Some(s) => {
            let s = s.as_str();
            if str_eq(s, "JGT") {
                Some("001")
            } else if str_eq(s, "JEQ") {
                Some("010")
            } else if str_eq(s, "JGE") {
                Some("011")
            } else if str_eq(s, "JLT") {
                Some("100")
            } else if str_eq(s, "JNE") {
                Some("101")
            } else if str_eq(s, "JLE") {
                Some("110")
            } else if str_eq(s, "JMP") {
                Some("111")
            } else {
                None
            }
        },
    }
}

fn dest_code(d: &Option<String>) -> (r: Option<&'static str>)
    ensures
        match r {
            Some(b) => dest_bits(match d {
                Some(s) => Some(s@),
                None => None,
            }) == Some(b@),
            None => dest_bits(match d {
                Some(s) => Some(s@),
                None => None,
            }) is None,
        },
{
    match d {
        None => Some("000"),
        Some(s) => {
            let s = s.as_str();
            if str_eq(s, "M") {
                Some("001")
            } else if str_eq(s, "D") {
                Some("010")
            } else if str_eq(s, "MD") {
                Some("011")
            } else if str_eq(s, "A") {
                Some("100")
            } else if str_eq(s, "AM") {
                Some("101")
            } else if str_eq(s, "AD") {
                Some("110")
            } else if str_eq(s, "AMD") {
                Some("111")
            } else {
                None
            }
        },
    }
}

fn comp_code(s: &str) -> (r: Option<&'static str>)
    ensures
        match r {
            Some(b) => comp_bits(s@) == Some(b@),
            None => comp_bits(s@) is None,
        },
{
    if str_eq(s, "0") {
        Some("0101010")
    } else if str_eq(s, "1") {
        Some("0111111")
    } else if str_eq(s, "-1") {
        Some("0111010")
    } else if str_eq(s, "D") {
        Some("0001100")
    } else if str_eq(s, "A") {
        Some("0110000")
    } else if str_eq(s, "!D") {
        Some("0001101")
    } else if str_eq(s, "!A") {
        Some("0110001")
    } else if str_eq(s, "-D") {
        Some("0001111")
    } else if str_eq(s, "-A") {
        Some("0110011")
    } else if str_eq(s, "D+1") {
        Some("0011111")
    } else if str_eq(s, "A+1") {
        Some("0110111")
    } else if str_eq(s, "D-1") {
        Some("0001110")
    } else if str_eq(s, "A-1") {
        Some("0110010")
    } else if str_eq(s, "D+A") {
        Some("0000010")
    } else if str_eq(s, "D-A") {
        Some("0010011")
    } else if str_eq(s, "A-D") {
        Some("0000111")
    } else if str_eq(s, "D&A") {
        Some("0000000")
    } else if str_eq(s, "D|A") {
        Some("0010101")
    } else if str_eq(s, "M") {
        Some("1110000")
    } else if str_eq(s, "!M") {
        Some("1110001")
    } else if str_eq(s, "-M") {
        Some("1110011")
    } else if str_eq(s, "M+1") {
        Some("1110111")
    } else if str_eq(s, "M-1") {
        Some("1110010")
    } else if str_eq(s, "D+M") {
        Some("1000010")
    } else if str_eq(s, "D-M") {
        Some("1010011")
    } else if str_eq(s, "M-D") {
        Some("1000111")
    } else if str_eq(s, "D&M") {
        Some("1000000")
    } else if str_eq(s, "D|M") {
        Some("1010101")
    } else {
        None
    }
}

/// The word a computation token encodes to: the fixed prefix `111`, then
/// the computation, destination and jump bits. The jump field is checked
/// first, then the destination, then the computation.
pub open spec fn encode_c(c: CView) -> Result<Seq<char>, AsmErrorView> {
    match (jump_bits(c.jump), dest_bits(c.dest), comp_bits(c.comp)) {
        (Some(j), Some(d), Some(m)) => Ok("111"@ + m + d + j),
        (None, _, _) => Err(
            AsmErrorView::UnknownJump(
                match c.jump {
                    Some(s) => s,
                    None => Seq::<char>::empty(),
                },
            ),
        ),
        (Some(_), None, _) => Err(
            AsmErrorView::UnknownDest(
                match c.dest {
                    Some(s) => s,
                    None => Seq::<char>::empty(),
                },
            ),
        ),
        (Some(_), Some(_), None) => Err(AsmErrorView::UnknownComp(c.comp)),
    }
}

/// The word an address token encodes to, together with the table after it:
/// a literal address encodes itself; a symbol reads its entry or claims
/// the next free RAM address.
pub open spec fn encode_a(a: AView, t: SymbolTableView) -> Result<
    (Seq<char>, SymbolTableView),
    AsmErrorView,
> {
    match a {
        AView::Address(n) => Ok((bin_chars(n as int, 16), t)),
        AView::Variable(v) => if t.map.contains_key(v) {
            Ok((bin_chars(t.map[v] as int, 16), t))
        } else if t.last_used == 0xffff {
            Err(AsmErrorView::TooManyVariables)
        } else {
            Ok(
                (
                    bin_chars(t.last_used + 1, 16),
                    SymbolTableView {
                        map: t.map.insert(v, (t.last_used + 1) as u16),
                        last_used: (t.last_used + 1) as u16,
                    },
                ),
            )
        },
    }
}

/// What one token contributes to the output, and the table after it.
pub open spec fn encode_instr(t: InstructionView, tb: SymbolTableView) -> Result<
    (Option<Seq<char>>, SymbolTableView),
    AsmErrorView,
> {
    match t {
        InstructionView::A(a) => match encode_a(a, tb) {
            Ok(p) => Ok((Some(p.0), p.1)),
            Err(e) => Err(e),
        },
        InstructionView::C(c) => match encode_c(c) {
            Ok(b) => Ok((Some(b), tb)),
            Err(e) => Err(e),
        },
        InstructionView::Label(_) => Ok((None, tb)),
    }
}

impl A {
    /// Encodes an address token, resolving a symbol through the table.
    pub fn to_bytecode(&self, table: &mut SymbolTable) -> (r: Result<String, AsmError>)
        ensures
            match (r, encode_a(self@, old(table)@)) {
                (Ok(s), Ok(p)) => s@ == p.0 && final(table)@ == p.1,
                (Err(e), Err(ev)) => e@ == ev,
                _ => false,
            },
    {
        match self {
            A::Address(addr) => Ok(format_u16(*addr)),
            A::Variable(var) => {
                match table.get(var.as_str()) {
                    Some(addr) => Ok(format_u16(addr)),
                    None => {
                        if table.can_allocate() {
                            let addr = table.append(var.as_str());
                            Ok(format_u16(addr))
                        } else {
                            Err(AsmError::TooManyVariables)
                        }
                    },
                }
            },
        }
    }
}

impl C {
    /// Encodes a computation token from the three mnemonic tables.
    pub fn to_bytecode(&self) -> (r: Result<String, AsmError>)
        ensures
            match (r, encode_c(self@)) {
                (Ok(s), Ok(b)) => s@ == b,
                (Err(e), Err(ev)) => e@ == ev,
                _ => false,
            },
    {
        let jump = match jump_code(&self.jump) {
            Some(j) => j,
            None => {
                let s = match &self.jump {
                    Some(s) => s.clone(),
                    None => String::new(),
                };
                return Err(AsmError::UnknownJump(s));
            },
        };
        let dest = match dest_code(&self.dest) {
            Some(d) => d,
            None => {
                let s = match &self.dest {
                    Some(s) => s.clone(),
                    None => String::new(),
                };
                return Err(AsmError::UnknownDest(s));
            },
        };
        let comp = match comp_code(self.comp.as_str()) {
            Some(m) => m,
            None => {
                return Err(AsmError::UnknownComp(self.comp.clone()));
            },
        };
        let mut out = "111".to_owned();
        out.append(comp);
        out.append(dest);
        out.append(jump);
        proof {
            assert("111"@ + comp@ + dest@ + jump@ =~= (("111"@ + comp@) + dest@) + jump@);
        }
        Ok(out)
    }
}

impl Instruction {
    /// Encodes one token; a label contributes no output word.
    pub fn to_bytecode(&self, table: &mut SymbolTable) -> (r: Result<Option<String>, AsmError>)
        ensures
            match (r, encode_instr(self@, old(table)@)) {
                (Ok(o), Ok(p)) => final(table)@ == p.1 && match (o, p.0) {
                    (Some(s), Some(l)) => s@ == l,
                    (None, None) => true,
                    _ => false,
                },
                (Err(e), Err(ev)) => e@ == ev,
                _ => false,
            },
    {
        match self {
            Instruction::A(a) => match a.to_bytecode(table) {
                Ok(s) => Ok(Some(s)),
                Err(e) => Err(e),
            },
            Instruction::C(c) => match c.to_bytecode() {
                Ok(s) => Ok(Some(s)),
                Err(e) => Err(e),
            },
            Instruction::Label(_) => Ok(None),
        }
    }
}

} // verus!
