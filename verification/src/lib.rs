//! Back end of a toolchain for the Hack machine: a translator that lowers
//! stack-VM programs to symbolic Hack assembly, and a two-pass assembler
//! that encodes Hack assembly as 16-bit binary words.

pub mod codegen;
pub mod error;
pub mod interpreter;
pub mod laws;
pub mod lexer;
pub mod opcode;
pub mod parser;
pub mod symbol_table;
pub mod text;
pub mod to_bytecode;
pub mod token;

use vstd::prelude::*;
use vstd::string::StrSliceExecFns;
use crate::codegen::{generate, spec_generate};
use crate::error::{AsmError, AsmErrorView, VmError, VmErrorView};
use crate::interpreter::{encode_all, to_machine_code};
use crate::lexer::{lex_lines, Lexer, LexerView};
use crate::parser::{parse, spec_parse};
use crate::symbol_table::{predefined_symbols, SymbolTable, SymbolTableView};
use crate::text::{join_lines, lemma_split_char_nonempty, split_char, split_str, views_of};
use crate::token::InstructionView;

verus! {

/// What assembling a source text yields: the source is tokenized against a
/// table preloaded with the predefined symbols (labels register on that
/// first pass), then every token encodes to a sixteen-bit word (variables
/// allocate on this second pass), and the words are joined with single
/// newlines.
pub open spec fn spec_assemble(s: Seq<char>) -> Result<Seq<char>, AsmErrorView> {
    let init = LexerView {
        tokens: Seq::<InstructionView>::empty(),
        table: SymbolTableView { map: predefined_symbols(), last_used: 15 },
        counter: 0,
    };
    match lex_lines(init, split_char(s, '\n')) {
        Ok(st) => match encode_all(st.tokens, st.table) {
            Ok((words, _)) => Ok(join_lines(words)),
            Err(e) => Err(e),
        },
        Err(e) => Err(e),
    }
}

/// Assembles one Hack assembly text into its binary words, one sixteen-bit
/// word per line. The result is a pure function of `source`.
pub fn assemble(source: &str) -> (r: Result<String, AsmError>)
    ensures
        match r {
            Ok(out) => spec_assemble(source@) == Ok::<Seq<char>, AsmErrorView>(out@),
            Err(e) => spec_assemble(source@) == Err::<Seq<char>, AsmErrorView>(e@),
        },
{
    let table = SymbolTable::new();
    proof {
        assert(table@ == SymbolTableView { map: predefined_symbols(), last_used: 15 });
    }
    match Lexer::new(source, table) {
        Ok(mut lexer) => {
            let r = to_machine_code(&mut lexer.table, &lexer.tokens);
            r
        },
        Err(e) => Err(e),
    }
}

/// The piece of a path after its last slash.
pub open spec fn basename_of(p: Seq<char>) -> Seq<char> {
    split_char(p, '/').last()
}

/// Index of the last occurrence of `c` in `s`, or `-1` when absent.
pub open spec fn last_index_of(s: Seq<char>, c: char) -> int
    decreases s.len(),
{
    if s.len() == 0 {
        -1
    } else if s.last() == c {
        s.len() - 1
    } else {
        last_index_of(s.drop_last(), c)
    }
}

/// A file name with its extension cut off at the last dot.
pub open spec fn stem_of(name: Seq<char>) -> Seq<char> {
    let d = last_index_of(name, '.');
    if d < 0 {
        name
    } else {
        name.take(d)
    }
}

/// The name a translation unit mangles its statics with: the basename of
/// its path minus the extension, with a placeholder when nothing is left.
pub open spec fn unit_name_of(path: Seq<char>) -> Seq<char> {
    let st = stem_of(basename_of(path));
    if st.len() == 0 {
        "NoFilename"@
    } else {
        st
    }
}

proof fn lemma_last_index_at(s: Seq<char>, c: char, i: int)
    requires
        0 <= i < s.len(),
        s[i] == c,
        forall|j: int| i < j < s.len() ==> s[j] != c,
    ensures
        last_index_of(s, c) == i,
    decreases s.len(),
{
    if i == s.len() - 1 {
    } else {
        assert(s.last() != c);
        lemma_last_index_at(s.drop_last(), c, i);
    }
}

proof fn lemma_last_index_none(s: Seq<char>, c: char)
    requires
        forall|j: int| 0 <= j < s.len() ==> s[j] != c,
    ensures
        last_index_of(s, c) == -1,
    decreases s.len(),
{
    if s.len() > 0 {
        lemma_last_index_none(s.drop_last(), c);
    }
}

/// Computes the static-mangling name of one translation unit.
fn unit_name(filepath: &str) -> (r: String)
    ensures
        r@ == unit_name_of(filepath@),
{
    let parts = split_str(filepath, '/');
    proof {
        lemma_split_char_nonempty(filepath@, '/');
        assert(views_of(parts@).last() == parts@[parts@.len() - 1]@);
    }
    let last = parts.len() - 1;
    let name = parts[last].as_str();
    let n = name.unicode_len();
    let mut b: usize = n;
    while b > 0 && name.get_char(b - 1) != '.'
        invariant
            0 <= b <= n,
            n == name@.len(),
            forall|j: int| b <= j < n ==> name@[j] != '.',
        decreases b,
    {
        b = b - 1;
    }
    let stem = if b == 0 {
        proof {
            lemma_last_index_none(name@, '.');
        }
        name.substring_char(0, n)
    } else {
        proof {
            lemma_last_index_at(name@, '.', b - 1);
            assert(name@.take(b - 1) =~= name@.subrange(0, b - 1));
        }
        name.substring_char(0, b - 1)
    };
    proof {
        assert(name@.subrange(0, n as int) =~= name@);
    }
    if stem.unicode_len() == 0 {
        "NoFilename".to_owned()
    } else {
        stem.to_owned()
    }
}

/// What translating one unit yields: its opcodes, lowered in order with
/// the unit's name governing the static segment.
pub open spec fn spec_translate(path: Seq<char>, source: Seq<char>) -> Result<
    Seq<char>,
    VmErrorView,
> {
    match spec_parse(source) {
        Ok(ops) => spec_generate(ops, unit_name_of(path)),
        Err(e) => Err(e),
    }
}

/// Translates one VM source text into Hack assembly. The result is a pure
/// function of the two arguments.
pub fn translate(filepath: &str, source: &str) -> (r: Result<String, VmError>)
    ensures
        match r {
            Ok(out) => spec_translate(filepath@, source@) == Ok::<Seq<char>, VmErrorView>(out@),
            Err(e) => spec_translate(filepath@, source@) == Err::<Seq<char>, VmErrorView>(e@),
        },
{
    let filename = unit_name(filepath);
    match parse(source) {
        Ok(opcodes) => generate(&opcodes, filename),
        Err(e) => Err(e),
    }
}

} // verus!
