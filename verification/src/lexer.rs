//! First pass of the assembler: splits the source into tokens, counts ROM
//! slots, and records every label's address in the symbol table.

use vstd::prelude::*;
use vstd::string::StrSliceExecFns;
use crate::error::{AsmError, AsmErrorView};
use crate::symbol_table::{SymbolTable, SymbolTableView};
use crate::text::{
    clean_line, clean_of, find_char, find_char_str, parse_u16, parse_u16_str, split_char,
    split_str, strip_all_end, strip_all_start, strip_end_str, strip_start_str, views_of,
};
use crate::token::{A, AView, C, CView, Instruction, InstructionView};

verus! {

/// The tokens gathered so far, the table with the labels seen so far, and
/// the ROM slot the next instruction will occupy.
pub struct LexerView {
    pub tokens: Seq<InstructionView>,
    pub table: SymbolTableView,
    pub counter: u16,
}

/// How a cleaned computation line splits into its three fields: at the
/// first `=` when one is present (then the tail splits again at the first
/// `;`), else at the first `;`; a line with neither is malformed.
pub open spec fn split_c(l: Seq<char>) -> Result<CView, AsmErrorView> {
    let e = find_char(l, '=');
    let s = find_char(l, ';');
    if e < l.len() {
        let dest = l.take(e);
        let tail = l.skip(e + 1);
        let t = find_char(tail, ';');
        if t < tail.len() {
            Ok(CView { dest: Some(dest), comp: tail.take(t), jump: Some(tail.skip(t + 1)) })
        } else {
            Ok(CView { dest: Some(dest), comp: tail, jump: None })
        }
    } else if s < l.len() {
        Ok(CView { dest: None, comp: l.take(s), jump: Some(l.skip(s + 1)) })
    } else {
        Err(AsmErrorView::MalformedC(l))
    }
}

/// What one raw source line does to the lexer state: nothing when it
/// cleans to nothing; otherwise its first character decides between an
/// address instruction, a label definition, and a computation.
pub open spec fn lex_line(st: LexerView, raw: Seq<char>) -> Result<LexerView, AsmErrorView> {
    let l = clean_of(raw);
    if l.len() == 0 {
        Ok(st)
    } else if l[0] == '@' {
        if st.counter == 0xffff {
            Err(AsmErrorView::ProgramTooLarge)
        } else {
            let name = strip_all_start(l, '@');
            let tok = match parse_u16(name) {
                Some(n) => AView::Address(n),
                None => AView::Variable(name),
            };
            Ok(
                LexerView {
                    tokens: st.tokens.push(InstructionView::A(tok)),
                    table: st.table,
                    counter: (st.counter + 1) as u16,
                },
            )
        }
    } else if l[0] == '(' {
        let name = strip_all_end(strip_all_start(l, '('), ')');
        Ok(
            LexerView {
                tokens: st.tokens.push(InstructionView::Label(name)),
                table: SymbolTableView {
                    map: st.table.map.insert(name, st.counter),
                    last_used: st.table.last_used,
                },
                counter: st.counter,
            },
        )
    } else {
        if st.counter == 0xffff {
            Err(AsmErrorView::ProgramTooLarge)
        } else {
            match split_c(l) {
                Ok(c) => Ok(
                    LexerView {
                        tokens: st.tokens.push(InstructionView::C(c)),
                        table: st.table,
                        counter: (st.counter + 1) as u16,
                    },
                ),
                Err(e) => Err(e),
            }
        }
    }
}

/// `lex_line`, folded over a list of raw lines.
pub open spec fn lex_lines(st: LexerView, lines: Seq<Seq<char>>) -> Result<
    LexerView,
    AsmErrorView,
>
    decreases lines.len(),
{
    if lines.len() == 0 {
        Ok(st)
    } else {
        match lex_line(st, lines[0]) {
            Ok(st2) => lex_lines(st2, lines.drop_first()),
            Err(e) => Err(e),
        }
    }
}

/// Splits a cleaned, non-empty computation line into its fields.
fn match_c(line: &str) -> (r: Result<C, AsmError>)
    ensures
        match r {
            Ok(c) => split_c(line@) == Ok::<CView, AsmErrorView>(c@),
            Err(e) => split_c(line@) == Err::<CView, AsmErrorView>(e@),
        },
{
    let n = line.unicode_len();
    let e = find_char_str(line, '=');
    if e < n {
        let dest = line.substring_char(0, e).to_owned();
        let tail = line.substring_char(e + 1, n);
        proof {
            assert(line@.take(e as int) =~= line@.subrange(0, e as int));
            assert(line@.skip(e + 1) =~= line@.subrange(e + 1, n as int));
        }
        let m = tail.unicode_len();
        let t = find_char_str(tail, ';');
        if t < m {
            let comp = tail.substring_char(0, t).to_owned();
            let jump = tail.substring_char(t + 1, m).to_owned();
            proof {
                assert(tail@.take(t as int) =~= tail@.subrange(0, t as int));
                assert(tail@.skip(t + 1) =~= tail@.subrange(t + 1, m as int));
            }
            Ok(C { dest: Some(dest), comp, jump: Some(jump) })
        } else {
            Ok(C { dest: Some(dest), comp: tail.to_owned(), jump: None })
        }
    } else {
        let s = find_char_str(line, ';');
        if s < n {
            let comp = line.substring_char(0, s).to_owned();
            let jump = line.substring_char(s + 1, n).to_owned();
            proof {
                assert(line@.take(s as int) =~= line@.subrange(0, s as int));
                assert(line@.skip(s + 1) =~= line@.subrange(s + 1, n as int));
            }
            Ok(C { dest: None, comp, jump: Some(jump) })
        } else {
            Err(AsmError::MalformedC(line.to_owned()))
        }
    }
}

/// The assembler's first pass over one source text.
pub struct Lexer {
    pub counter: u16,
    pub table: SymbolTable,
    pub tokens: Vec<Instruction>,
}

/// The views of a token list.
pub open spec fn views_of_tokens(v: Seq<Instruction>) -> Seq<InstructionView> {
    v.map_values(|t: Instruction| t@)
}

impl View for Lexer {
    type V = LexerView;

    open spec fn view(&self) -> LexerView {
        LexerView {
            tokens: views_of_tokens(self.tokens@),
            table: self.table@,
            counter: self.counter,
        }
    }
}

impl Lexer {
    /// Tokenizes `source`, threading label definitions through `symbols`.
    pub fn new(source: &str, symbols: SymbolTable) -> (r: Result<Lexer, AsmError>)
        ensures
            ({
                let init = LexerView {
                    tokens: Seq::<InstructionView>::empty(),
                    table: symbols@,
                    counter: 0,
                };
                let sr = lex_lines(init, split_char(source@, '\n'));
                match r {
                    Ok(lx) => sr == Ok::<LexerView, AsmErrorView>(lx@),
                    Err(e) => sr == Err::<LexerView, AsmErrorView>(e@),
                }
            }),
    {
        let mut p = Lexer { tokens: Vec::new(), counter: 0, table: symbols };
        proof {
            assert(views_of_tokens(p.tokens@) =~= Seq::<InstructionView>::empty());
        }
        match p.tokenize(source) {
            Ok(()) => Ok(p),
            Err(e) => Err(e),
        }
    }

    /// Consumes one raw line.
    fn consume_line(&mut self, line: &str) -> (r: Result<(), AsmError>)
        ensures
            match r {
                Ok(()) => lex_line(old(self)@, line@) == Ok::<LexerView, AsmErrorView>(
                    final(self)@,
                ),
                Err(e) => lex_line(old(self)@, line@) == Err::<LexerView, AsmErrorView>(e@),
            },
    {
        let clean = clean_line(line);
        let n = clean.as_str().unicode_len();
        if n == 0 {
            return Ok(());
        }
        let first = clean.as_str().get_char(0);
        if first == '@' {
            if self.counter == 0xffff {
                return Err(AsmError::ProgramTooLarge);
            }
            let trimmed = strip_start_str(clean.as_str(), '@');
            let tok = match parse_u16_str(trimmed.as_str()) {
                Some(addr) => A::Address(addr),
                None => A::Variable(trimmed),
            };
            self.counter = self.counter + 1;
            let ghost pre = views_of_tokens(self.tokens@);
            self.tokens.push(Instruction::A(tok));
            proof {
                assert(views_of_tokens(self.tokens@) =~= pre.push(
                    lex_token_a(old(self)@, line@),
                ));
            }
            Ok(())
        } else if first == '(' {
            let inner = strip_start_str(clean.as_str(), '(');
            let name = strip_end_str(inner.as_str(), ')');
            self.table.insert(name.as_str(), self.counter);
            let ghost pre = views_of_tokens(self.tokens@);
            self.tokens.push(Instruction::Label(name));
            proof {
                assert(views_of_tokens(self.tokens@) =~= pre.push(
                    InstructionView::Label(strip_all_end(strip_all_start(clean_of(line@), '('), ')')),
                ));
            }
            Ok(())
        } else {
            if self.counter == 0xffff {
                return Err(AsmError::ProgramTooLarge);
            }
            match match_c(clean.as_str()) {
                Ok(c) => {
                    self.counter = self.counter + 1;
                    let ghost cv = c@;
                    let ghost pre = views_of_tokens(self.tokens@);
                    self.tokens.push(Instruction::C(c));
                    proof {
                        assert(views_of_tokens(self.tokens@) =~= pre.push(InstructionView::C(cv)));
                    }
                    Ok(())
                },
                Err(e) => Err(e),
            }
        }
    }

    /// Consumes every line of `source` in order.
    fn tokenize(&mut self, source: &str) -> (r: Result<(), AsmError>)
        ensures
            ({
                let sr = lex_lines(old(self)@, split_char(source@, '\n'));
                match r {
                    Ok(()) => sr == Ok::<LexerView, AsmErrorView>(final(self)@),
                    Err(e) => sr == Err::<LexerView, AsmErrorView>(e@),
                }
            }),
    {
        let lines = split_str(source, '\n');
        let ghost ls = split_char(source@, '\n');
        let mut idx: usize = 0;
        proof {
            assert(ls.skip(0) =~= ls);
        }
        while idx < lines.len()
            invariant
                0 <= idx <= lines.len(),
                ls == split_char(source@, '\n'),
                views_of(lines@) == ls,
                ls.len() == lines@.len(),
                lex_lines(old(self)@, ls) == lex_lines(self@, ls.skip(idx as int)),
            decreases lines.len() - idx,
        {
            let ghost pre = self@;
            let r = self.consume_line(lines[idx].as_str());
            proof {
                assert(ls.skip(idx as int)[0] == ls[idx as int]);
                assert(ls[idx as int] == lines@[idx as int]@);
                assert(ls.skip(idx as int).drop_first() =~= ls.skip(idx as int + 1));
            }
            match r {
                Ok(()) => {},
                Err(e) => {
                    proof {
                        assert(lex_line(pre, ls.skip(idx as int)[0]) == Err::<
                            LexerView,
                            AsmErrorView,
                        >(e@));
                        assert(lex_lines(pre, ls.skip(idx as int)) == Err::<
                            LexerView,
                            AsmErrorView,
                        >(e@));
                        assert(lex_lines(old(self)@, ls) == lex_lines(pre, ls.skip(idx as int)));
                        assert(lex_lines(old(self)@, split_char(source@, '\n')) == Err::<
                            LexerView,
                            AsmErrorView,
                        >(e@));
                    }
                    return Err(e);
                },
            }
            idx = idx + 1;
        }
        proof {
            assert(ls.skip(lines@.len() as int) =~= Seq::<Seq<char>>::empty());
        }
        Ok(())
    }
}

/// The address token a cleaned `@…` line denotes.
pub open spec fn lex_token_a(st: LexerView, raw: Seq<char>) -> InstructionView {
    let name = strip_all_start(clean_of(raw), '@');
    match parse_u16(name) {
        Some(n) => InstructionView::A(AView::Address(n)),
        None => InstructionView::A(AView::Variable(name)),
    }
}

} // verus!
