//! Drives the second pass: encodes a token list word by word and joins the
//! words with single newlines, with no leading or trailing blank line.

use vstd::prelude::*;
use vstd::string::StringExecFns;
use crate::error::{AsmError, AsmErrorView};
use crate::symbol_table::{SymbolTable, SymbolTableView};
use crate::text::{join_lines, lemma_join_lines_snoc};
use crate::to_bytecode::encode_instr;
use crate::token::{Instruction, InstructionView};
use crate::lexer::views_of_tokens;

verus! {

/// The output words of a token list in order, and the table after all of
/// them, or the first encoding error.
pub open spec fn encode_all(toks: Seq<InstructionView>, tb: SymbolTableView) -> Result<
    (Seq<Seq<char>>, SymbolTableView),
    AsmErrorView,
>
    decreases toks.len(),
{
    if toks.len() == 0 {
        Ok((Seq::<Seq<char>>::empty(), tb))
    } else {
        match encode_instr(toks[0], tb) {
            Ok((word, tb2)) => match encode_all(toks.drop_first(), tb2) {
                Ok((words, tb3)) => Ok(
                    (
                        match word {
                            Some(w) => seq![w] + words,
                            None => words,
                        },
                        tb3,
                    ),
                ),
                Err(e) => Err(e),
            },
            Err(e) => Err(e),
        }
    }
}

/// Encodes every token against `symbols`, newline-separating the words.
pub fn to_machine_code(symbols: &mut SymbolTable, tokens: &Vec<Instruction>) -> (r: Result<
    String,
    AsmError,
>)
    ensures
        match (r, encode_all(views_of_tokens(tokens@), old(symbols)@)) {
            (Ok(s), Ok(p)) => s@ == join_lines(p.0) && final(symbols)@ == p.1,
            (Err(e), Err(ev)) => e@ == ev,
            _ => false,
        },
{
    let ghost toks = views_of_tokens(tokens@);
    let mut out = String::new();
    let mut any = false;
    let mut acc_words: Ghost<Seq<Seq<char>>> = Ghost(Seq::<Seq<char>>::empty());
    let mut i: usize = 0;
    proof {
        assert(toks.skip(0) =~= toks);
    }
    while i < tokens.len()
        invariant
            0 <= i <= tokens.len(),
            toks == views_of_tokens(tokens@),
            toks.len() == tokens@.len(),
            out@ == join_lines(acc_words@),
            any == (acc_words@.len() > 0),
            ({
                let full = encode_all(toks, old(symbols)@);
                match encode_all(toks.skip(i as int), symbols@) {
                    Ok((words, tbf)) => full == Ok::<_, AsmErrorView>((acc_words@ + words, tbf)),
                    Err(e) => full == Err::<(Seq<Seq<char>>, SymbolTableView), AsmErrorView>(e),
                }
            }),
        decreases tokens.len() - i,
    {
        let ghost pre_table = symbols@;
        let ghost acc_old = acc_words@;
        let r = tokens[i].to_bytecode(symbols);
        proof {
            assert(toks.skip(i as int)[0] == toks[i as int]);
            assert(toks[i as int] == tokens@[i as int]@);
            assert(toks.skip(i as int).drop_first() =~= toks.skip(i as int + 1));
        }
        let word = match r {
            Ok(word) => word,
            Err(e) => {
                proof {
                    assert(encode_instr(toks.skip(i as int)[0], pre_table) == Err::<
                        (Option<Seq<char>>, SymbolTableView),
                        AsmErrorView,
                    >(e@));
                    assert(encode_all(toks.skip(i as int), pre_table) == Err::<
                        (Seq<Seq<char>>, SymbolTableView),
                        AsmErrorView,
                    >(e@));
                }
                return Err(e);
            },
        };
        let ghost wopt: Option<Seq<char>> = match &word {
            Some(w) => Some(w@),
            None => None,
        };
        match word {
            Some(w) => {
                if any {
                    out.append("\n");
                }
                out.append(w.as_str());
                proof {
                    lemma_join_lines_snoc(acc_old, w@);
                    if acc_old.len() == 0 {
                        assert(Seq::<char>::empty() + w@ =~= w@);
                    } else {
                        assert("\n"@ =~= seq!['\n']) by {
                            reveal_strlit("\n");
                        }
                        assert((join_lines(acc_old) + "\n"@) + w@ =~= join_lines(acc_old)
                            + seq!['\n'] + w@);
                    }
                }
                acc_words = Ghost(acc_old.push(w@));
                any = true;
            },
            None => {},
        }
        i = i + 1;
        proof {
            assert(encode_instr(toks[i - 1], pre_table) == Ok::<
                (Option<Seq<char>>, SymbolTableView),
                AsmErrorView,
            >((wopt, symbols@)));
            match encode_all(toks.skip(i as int), symbols@) {
                Ok((words, tbf)) => {
                    match wopt {
                        Some(w) => {
                            assert(encode_all(toks.skip(i - 1), pre_table) == Ok::<
                                _,
                                AsmErrorView,
                            >((seq![w] + words, tbf)));
                            assert(acc_old + (seq![w] + words) =~= acc_old.push(w) + words);
                        },
                        None => {
                            assert(encode_all(toks.skip(i - 1), pre_table) == Ok::<
                                _,
                                AsmErrorView,
                            >((words, tbf)));
                        },
                    }
                },
                Err(e) => {
                    assert(encode_all(toks.skip(i - 1), pre_table) == Err::<
                        (Seq<Seq<char>>, SymbolTableView),
                        AsmErrorView,
                    >(e));
                },
            }
        }
    }
    proof {
        assert(toks.skip(tokens@.len() as int) =~= Seq::<InstructionView>::empty());
        assert(acc_words@ + Seq::<Seq<char>>::empty() =~= acc_words@);
    }
    Ok(out)
}

} // verus!
