//! Laws of the pipeline, proved from the spec functions the contracts are
//! stated over: the variable allocator hands out consecutive addresses, a
//! label reference encodes the label's ROM slot, every output line is a
//! sixteen-bit word, and the output counts one line per ROM instruction.

use vstd::prelude::*;
use crate::error::AsmErrorView;
use crate::interpreter::encode_all;
use crate::lexer::{lex_line, lex_lines, LexerView};
use crate::spec_assemble;
use crate::symbol_table::{predefined_symbols, SymbolTableView};
use crate::text::{
    bin_chars, clean_of, join_lines, lemma_find_char_at, lemma_split_char_step, split_char,
};
use crate::codegen::{finish_label, ret_label, true_label};
use crate::to_bytecode::{comp_bits, dest_bits, encode_a, encode_c, encode_instr, jump_bits};
use crate::token::{AView, CView, InstructionView};

verus! {

/// How many of the tokens occupy a ROM slot: labels cost nothing, every
/// other token costs one.
pub open spec fn rom_weight(toks: Seq<InstructionView>) -> int
    decreases toks.len(),
{
    if toks.len() == 0 {
        0
    } else {
        (if toks[0] is Label {
            0int
        } else {
            1int
        }) + rom_weight(toks.drop_first())
    }
}

pub open spec fn is_label_tok(t: InstructionView) -> bool {
    t is Label
}

pub open spec fn label_name(t: InstructionView) -> Seq<char> {
    match t {
        InstructionView::Label(l) => l,
        _ => Seq::<char>::empty(),
    }
}

/// Whether the token is a symbolic address reference.
pub open spec fn is_var_tok(t: InstructionView) -> bool {
    t matches InstructionView::A(AView::Variable(_))
}

pub open spec fn var_name(t: InstructionView) -> Seq<char> {
    match t {
        InstructionView::A(a) => match a {
            AView::Variable(v) => v,
            AView::Address(_) => Seq::<char>::empty(),
        },
        _ => Seq::<char>::empty(),
    }
}

/// No later label token redefines the name defined at `p`.
pub open spec fn last_def(toks: Seq<InstructionView>, p: int) -> bool {
    forall|q: int|
        p < q < toks.len() && is_label_tok(#[trigger] toks[q]) ==> label_name(toks[q])
            != label_name(toks[p])
}

pub proof fn lemma_rom_weight_nonneg(toks: Seq<InstructionView>)
    ensures
        rom_weight(toks) >= 0,
    decreases toks.len(),
{
    if toks.len() > 0 {
        lemma_rom_weight_nonneg(toks.drop_first());
    }
}

pub proof fn lemma_rom_weight_snoc(toks: Seq<InstructionView>, t: InstructionView)
    ensures
        rom_weight(toks.push(t)) == rom_weight(toks) + (if t is Label {
            0int
        } else {
            1int
        }),
    decreases toks.len(),
{
    if toks.len() == 0 {
        assert(toks.push(t)[0] == t);
        assert(toks.push(t).drop_first() =~= Seq::<InstructionView>::empty());
        assert(rom_weight(Seq::<InstructionView>::empty()) == 0);
        assert(rom_weight(toks.push(t)) == (if t is Label {
            0int
        } else {
            1int
        }) + rom_weight(toks.push(t).drop_first()));
    } else {
        lemma_rom_weight_snoc(toks.drop_first(), t);
        assert(toks.push(t)[0] == toks[0]);
        assert(toks.push(t).drop_first() =~= toks.drop_first().push(t));
        assert(rom_weight(toks.push(t)) == (if toks[0] is Label {
            0int
        } else {
            1int
        }) + rom_weight(toks.drop_first().push(t)));
    }
}

/// The weight of a strict prefix ending before a ROM token is below the
/// whole weight.
pub proof fn lemma_rom_weight_take(toks: Seq<InstructionView>, p: int)
    requires
        0 <= p < toks.len(),
        !is_label_tok(toks[p]),
    ensures
        0 <= rom_weight(toks.take(p)),
        rom_weight(toks.take(p)) < rom_weight(toks),
    decreases toks.len(),
{
    lemma_rom_weight_nonneg(toks.take(p));
    if p == 0 {
        lemma_rom_weight_nonneg(toks.drop_first());
        assert(toks.take(0) =~= Seq::<InstructionView>::empty());
    } else {
        lemma_rom_weight_take(toks.drop_first(), p - 1);
        assert(toks.take(p).drop_first() =~= toks.drop_first().take(p - 1));
        assert(rom_weight(toks.take(p)) == (if toks[0] is Label {
            0int
        } else {
            1int
        }) + rom_weight(toks.drop_first().take(p - 1)));
    }
}

/// The words of a successful second pass.
pub open spec fn ok_words(r: Result<(Seq<Seq<char>>, SymbolTableView), AsmErrorView>) -> Seq<
    Seq<char>,
> {
    match r {
        Ok(p) => p.0,
        Err(_) => Seq::<Seq<char>>::empty(),
    }
}

/// The table a successful second pass leaves behind.
pub open spec fn ok_table(r: Result<(Seq<Seq<char>>, SymbolTableView), AsmErrorView>) -> SymbolTableView {
    match r {
        Ok(p) => p.1,
        Err(_) => SymbolTableView { map: Map::empty(), last_used: 0 },
    }
}

/// The token list that references each name once, in order.
pub open spec fn var_tokens(names: Seq<Seq<char>>) -> Seq<InstructionView> {
    names.map_values(|v: Seq<char>| InstructionView::A(AView::Variable(v)))
}

/// The second pass never moves an entry that is already in the table: a
/// successful encoding keeps every existing name at its address.
pub proof fn lemma_encode_all_monotonic(toks: Seq<InstructionView>, tb: SymbolTableView)
    requires
        encode_all(toks, tb) is Ok,
    ensures
        forall|k: Seq<char>| #[trigger]
            tb.map.contains_key(k) ==> ok_table(encode_all(toks, tb)).map.contains_key(k)
                && ok_table(encode_all(toks, tb)).map[k] == tb.map[k],
    decreases toks.len(),
{
    if toks.len() == 0 {
    } else {
        match encode_instr(toks[0], tb) {
            Ok((word, tb2)) => {
                assert forall|k: Seq<char>| #[trigger] tb.map.contains_key(k) implies
                    tb2.map.contains_key(k) && tb2.map[k] == tb.map[k] by {
                    match toks[0] {
                        InstructionView::A(a) => {
                            match a {
                                AView::Variable(v) => {
                                    if !tb.map.contains_key(v) {
                                        assert(k != v);
                                    }
                                },
                                AView::Address(_) => {},
                            }
                        },
                        _ => {},
                    }
                }
                lemma_encode_all_monotonic(toks.drop_first(), tb2);
                assert(ok_table(encode_all(toks, tb)) == ok_table(
                    encode_all(toks.drop_first(), tb2),
                ));
            },
            Err(_) => {
                assert(false);
            },
        }
    }
}

/// Fresh, pairwise distinct names allocate consecutive addresses starting
/// just past the allocator cursor, and the emitted words encode them.
proof fn lemma_fresh_alloc(names: Seq<Seq<char>>, tb: SymbolTableView)
    requires
        forall|i: int| 0 <= i < names.len() ==> !tb.map.contains_key(#[trigger] names[i]),
        forall|i: int, j: int| 0 <= i < j < names.len() ==> names[i] != names[j],
        tb.last_used as int + names.len() <= 0xffff,
    ensures
        encode_all(var_tokens(names), tb) is Ok,
        ok_words(encode_all(var_tokens(names), tb)).len() == names.len(),
        forall|i: int|
            0 <= i < names.len() ==> #[trigger] ok_words(encode_all(var_tokens(names), tb))[i]
                == bin_chars(tb.last_used + 1 + i, 16),
        ok_table(encode_all(var_tokens(names), tb)).last_used == tb.last_used + names.len(),
        forall|i: int|
            0 <= i < names.len() ==> ok_table(encode_all(var_tokens(names), tb)).map.contains_key(
                #[trigger] names[i],
            ) && ok_table(encode_all(var_tokens(names), tb)).map[names[i]] == tb.last_used + 1 + i,
    decreases names.len(),
{
    let toks = var_tokens(names);
    assert(toks.len() == names.len());
    if names.len() == 0 {
        assert(encode_all(toks, tb) == Ok::<_, AsmErrorView>((Seq::<Seq<char>>::empty(), tb)));
    } else {
        assert(toks[0] == InstructionView::A(AView::Variable(names[0])));
        assert(!tb.map.contains_key(names[0]));
        let w0 = bin_chars(tb.last_used + 1, 16);
        let tb2 = SymbolTableView {
            map: tb.map.insert(names[0], (tb.last_used + 1) as u16),
            last_used: (tb.last_used + 1) as u16,
        };
        assert(encode_a(AView::Variable(names[0]), tb) == Ok::<_, AsmErrorView>((w0, tb2)));
        assert(encode_instr(toks[0], tb) == Ok::<_, AsmErrorView>((Some(w0), tb2)));
        let rest = names.drop_first();
        assert forall|i: int| 0 <= i < rest.len() implies !tb2.map.contains_key(
            #[trigger] rest[i],
        ) by {
            assert(rest[i] == names[i + 1]);
            assert(names[i + 1] != names[0]);
            assert(!tb.map.contains_key(names[i + 1]));
        }
        assert forall|i: int, j: int| 0 <= i < j < rest.len() implies rest[i] != rest[j] by {
            assert(rest[i] == names[i + 1]);
            assert(rest[j] == names[j + 1]);
        }
        lemma_fresh_alloc(rest, tb2);
        assert(toks.drop_first() =~= var_tokens(rest));
        let sub = encode_all(var_tokens(rest), tb2);
        assert(encode_all(toks, tb) == Ok::<_, AsmErrorView>(
            (seq![w0] + ok_words(sub), ok_table(sub)),
        ));
        assert forall|i: int| 0 <= i < names.len() implies #[trigger] ok_words(
            encode_all(toks, tb),
        )[i] == bin_chars(tb.last_used + 1 + i, 16) by {
            if i == 0 {
                assert((seq![w0] + ok_words(sub))[0] == w0);
            } else {
                assert((seq![w0] + ok_words(sub))[i] == ok_words(sub)[i - 1]);
                assert(ok_words(sub)[i - 1] == bin_chars(tb2.last_used + 1 + (i - 1), 16));
            }
        }
        assert forall|i: int| 0 <= i < names.len() implies ok_table(
            encode_all(toks, tb),
        ).map.contains_key(#[trigger] names[i]) && ok_table(encode_all(toks, tb)).map[names[i]]
            == tb.last_used + 1 + i by {
            if i == 0 {
                lemma_encode_all_monotonic(var_tokens(rest), tb2);
                assert(tb2.map.contains_key(names[0]));
                assert(tb2.map[names[0]] == (tb.last_used + 1) as u16);
            } else {
                assert(rest[i - 1] == names[i]);
                assert(ok_table(sub).map.contains_key(rest[i - 1]));
            }
        }
    }
}

/// The variable allocator: an assembly that references only fresh
/// variables, each a new name in order and none a predefined symbol, gives
/// them the consecutive RAM addresses 16, 17, …, 15 + k, and each word of
/// output encodes its variable's address.
pub proof fn lemma_variable_allocator(names: Seq<Seq<char>>)
    requires
        forall|i: int|
            0 <= i < names.len() ==> !predefined_symbols().contains_key(#[trigger] names[i]),
        forall|i: int, j: int| 0 <= i < j < names.len() ==> names[i] != names[j],
        names.len() <= 0xffff - 15,
    ensures
        ({
            let r = encode_all(
                var_tokens(names),
                SymbolTableView { map: predefined_symbols(), last_used: 15 },
            );
            r is Ok && ok_words(r).len() == names.len() && (forall|i: int|
                0 <= i < names.len() ==> #[trigger] ok_words(r)[i] == bin_chars(16 + i, 16)) && (
            forall|i: int|
                0 <= i < names.len() ==> ok_table(r).map.contains_key(#[trigger] names[i])
                    && ok_table(r).map[names[i]] == 16 + i)
        }),
{
    lemma_fresh_alloc(names, SymbolTableView { map: predefined_symbols(), last_used: 15 });
}

/// The lexer state the assembler starts from.
pub open spec fn initial_lexer() -> LexerView {
    LexerView {
        tokens: Seq::<InstructionView>::empty(),
        table: SymbolTableView { map: predefined_symbols(), last_used: 15 },
        counter: 0,
    }
}

/// The state of `lex_line`'s successful result.
pub open spec fn ok_lex(r: Result<LexerView, AsmErrorView>) -> LexerView {
    match r {
        Ok(st) => st,
        Err(_) => initial_lexer(),
    }
}

/// The first-pass invariant: the ROM counter equals the weight of the
/// tokens seen, and every label that is not later redefined sits in the
/// table at the ROM slot of its definition.
pub open spec fn lex_wf(st: LexerView) -> bool {
    &&& st.counter as int == rom_weight(st.tokens)
    &&& forall|p: int|
        0 <= p < st.tokens.len() && is_label_tok(#[trigger] st.tokens[p]) && last_def(
            st.tokens,
            p,
        ) ==> st.table.map.contains_key(label_name(st.tokens[p]))
            && st.table.map[label_name(st.tokens[p])] as int == rom_weight(st.tokens.take(p))
}

proof fn lemma_lex_line_wf(st: LexerView, raw: Seq<char>)
    requires
        lex_wf(st),
        lex_line(st, raw) is Ok,
    ensures
        lex_wf(ok_lex(lex_line(st, raw))),
{
    let st2 = ok_lex(lex_line(st, raw));
    if st2 == st {
    } else {
        let t = st2.tokens.last();
        assert(st2.tokens =~= st.tokens.push(t));
        lemma_rom_weight_snoc(st.tokens, t);
        let n = st.tokens.len() as int;
        assert forall|p: int|
            0 <= p < st2.tokens.len() && is_label_tok(#[trigger] st2.tokens[p]) && last_def(
                st2.tokens,
                p,
            ) implies st2.table.map.contains_key(label_name(st2.tokens[p]))
            && st2.table.map[label_name(st2.tokens[p])] as int == rom_weight(
            st2.tokens.take(p),
        ) by {
            assert(st2.tokens.take(p) =~= st.tokens.take(p));
            if p == n {
                assert(st2.tokens[p] == t);
                assert(st.tokens.take(p) =~= st.tokens);
            } else {
                assert(st2.tokens[p] == st.tokens[p]);
                assert(last_def(st.tokens, p)) by {
                    assert forall|q: int|
                        p < q < st.tokens.len() && is_label_tok(#[trigger] st.tokens[q]) implies
                        label_name(st.tokens[q]) != label_name(st.tokens[p]) by {
                        assert(st2.tokens[q] == st.tokens[q]);
                    }
                }
                if t is Label {
                    assert(st2.tokens[n] == t);
                    assert(label_name(t) != label_name(st.tokens[p]));
                }
            }
        }
    }
}

proof fn lemma_lex_lines_wf(st: LexerView, lines: Seq<Seq<char>>)
    requires
        lex_wf(st),
        lex_lines(st, lines) is Ok,
    ensures
        lex_wf(ok_lex(lex_lines(st, lines))),
    decreases lines.len(),
{
    if lines.len() == 0 {
    } else {
        match lex_line(st, lines[0]) {
            Ok(st2) => {
                lemma_lex_line_wf(st, lines[0]);
                lemma_lex_lines_wf(st2, lines.drop_first());
            },
            Err(_) => {
                assert(false);
            },
        }
    }
}

/// The second pass emits one word per ROM token, and a symbolic reference
/// to a name already in the table encodes that name's address.
pub proof fn lemma_encode_all_words(toks: Seq<InstructionView>, tb: SymbolTableView)
    requires
        encode_all(toks, tb) is Ok,
    ensures
        ok_words(encode_all(toks, tb)).len() == rom_weight(toks),
        forall|p: int|
            0 <= p < toks.len() && is_var_tok(#[trigger] toks[p]) && tb.map.contains_key(
                var_name(toks[p]),
            ) ==> ok_words(encode_all(toks, tb))[rom_weight(toks.take(p))] == bin_chars(
                tb.map[var_name(toks[p])] as int,
                16,
            ),
    decreases toks.len(),
{
    if toks.len() == 0 {
    } else {
        match encode_instr(toks[0], tb) {
            Ok((word, tb2)) => {
                lemma_encode_all_words(toks.drop_first(), tb2);
                let sub = encode_all(toks.drop_first(), tb2);
                assert forall|k: Seq<char>| #[trigger] tb.map.contains_key(k) implies
                    tb2.map.contains_key(k) && tb2.map[k] == tb.map[k] by {
                    match toks[0] {
                        InstructionView::A(a) => {
                            match a {
                                AView::Variable(v) => {
                                    if !tb.map.contains_key(v) {
                                        assert(k != v);
                                    }
                                },
                                AView::Address(_) => {},
                            }
                        },
                        _ => {},
                    }
                }
                assert forall|p: int|
                    0 <= p < toks.len() && is_var_tok(#[trigger] toks[p]) && tb.map.contains_key(
                        var_name(toks[p]),
                    ) implies ok_words(encode_all(toks, tb))[rom_weight(toks.take(p))]
                    == bin_chars(tb.map[var_name(toks[p])] as int, 16) by {
                    lemma_rom_weight_take(toks, p);
                    if p == 0 {
                        assert(toks.take(0) =~= Seq::<InstructionView>::empty());
                        lemma_rom_weight_nonneg(toks.drop_first());
                    } else {
                        assert(toks[p] == toks.drop_first()[p - 1]);
                        assert(toks.take(p).drop_first() =~= toks.drop_first().take(p - 1));
                        assert(rom_weight(toks.take(p)) == (if toks[0] is Label {
                            0int
                        } else {
                            1int
                        }) + rom_weight(toks.drop_first().take(p - 1)));
                        lemma_rom_weight_nonneg(toks.drop_first().take(p - 1));
                        if !(toks[0] is Label) {
                            assert(ok_words(encode_all(toks, tb)) =~= seq![
                                ok_words(encode_all(toks, tb))[0],
                            ] + ok_words(sub));
                        }
                    }
                }
            },
            Err(_) => {
                assert(false);
            },
        }
    }
}

/// Two-pass correctness: in an assembly whose first pass succeeds, if the
/// label token at `p` defines `L` (and nothing later redefines it) and the
/// token at `q` references `L`, then the output word at `q`'s ROM slot is
/// the sixteen-bit binary of `p`'s ROM slot.
pub proof fn lemma_two_pass_correctness(
    lines: Seq<Seq<char>>,
    st: LexerView,
    p: int,
    q: int,
)
    requires
        lex_lines(initial_lexer(), lines) == Ok::<LexerView, AsmErrorView>(st),
        0 <= p < st.tokens.len(),
        is_label_tok(st.tokens[p]),
        last_def(st.tokens, p),
        0 <= q < st.tokens.len(),
        is_var_tok(st.tokens[q]),
        var_name(st.tokens[q]) == label_name(st.tokens[p]),
        encode_all(st.tokens, st.table) is Ok,
    ensures
        ok_words(encode_all(st.tokens, st.table))[rom_weight(st.tokens.take(q))] == bin_chars(
            rom_weight(st.tokens.take(p)),
            16,
        ),
{
    assert(lex_wf(initial_lexer()));
    lemma_lex_lines_wf(initial_lexer(), lines);
    assert(lex_wf(st));
    assert(st.table.map.contains_key(label_name(st.tokens[p])));
    lemma_encode_all_words(st.tokens, st.table);
}

/// A sixteen-character binary word.
pub open spec fn is_word16(l: Seq<char>) -> bool {
    l.len() == 16 && forall|j: int| 0 <= j < l.len() ==> l[j] == '0' || l[j] == '1'
}

proof fn lemma_bin_chars_wf(n: int, width: nat)
    ensures
        bin_chars(n, width).len() == width,
        forall|j: int|
            0 <= j < width ==> #[trigger] bin_chars(n, width)[j] == '0' || bin_chars(n, width)[j]
                == '1',
    decreases width,
{
    if width > 0 {
        lemma_bin_chars_wf(n / 2, (width - 1) as nat);
    }
}

#[verifier::spinoff_prover]
#[verifier::rlimit(100)]
proof fn lemma_comp_bits_wf(s: Seq<char>)
    ensures
        comp_bits(s) matches Some(b) ==> b.len() == 7 && forall|j: int|
            0 <= j < b.len() ==> b[j] == '0' || b[j] == '1',
{
    reveal_strlit("0101010");
    reveal_strlit("0111111");
    reveal_strlit("0111010");
    reveal_strlit("0001100");
    reveal_strlit("0110000");
    reveal_strlit("0001101");
    reveal_strlit("0110001");
    reveal_strlit("0001111");
    reveal_strlit("0110011");
    reveal_strlit("0011111");
    reveal_strlit("0110111");
    reveal_strlit("0001110");
    reveal_strlit("0110010");
    reveal_strlit("0000010");
    reveal_strlit("0010011");
    reveal_strlit("0000111");
    reveal_strlit("0000000");
    reveal_strlit("0010101");
    reveal_strlit("1110000");
    reveal_strlit("1110001");
    reveal_strlit("1110011");
    reveal_strlit("1110111");
    reveal_strlit("1110010");
    reveal_strlit("1000010");
    reveal_strlit("1010011");
    reveal_strlit("1000111");
    reveal_strlit("1000000");
    reveal_strlit("1010101");
}

proof fn lemma_dest_bits_wf(d: Option<Seq<char>>)
    ensures
        dest_bits(d) matches Some(b) ==> b.len() == 3 && forall|j: int|
            0 <= j < b.len() ==> b[j] == '0' || b[j] == '1',
{
    reveal_strlit("000");
    reveal_strlit("001");
    reveal_strlit("010");
    reveal_strlit("011");
    reveal_strlit("100");
    reveal_strlit("101");
    reveal_strlit("110");
    reveal_strlit("111");
}

proof fn lemma_jump_bits_wf(j: Option<Seq<char>>)
    ensures
        jump_bits(j) matches Some(b) ==> b.len() == 3 && forall|k: int|
            0 <= k < b.len() ==> b[k] == '0' || b[k] == '1',
{
    reveal_strlit("000");
    reveal_strlit("001");
    reveal_strlit("010");
    reveal_strlit("011");
    reveal_strlit("100");
    reveal_strlit("101");
    reveal_strlit("110");
    reveal_strlit("111");
}

proof fn lemma_encode_c_wf(c: CView)
    ensures
        encode_c(c) matches Ok(w) ==> is_word16(w),
{
    reveal_strlit("111");
    lemma_comp_bits_wf(c.comp);
    lemma_dest_bits_wf(c.dest);
    lemma_jump_bits_wf(c.jump);
}

proof fn lemma_encode_instr_wf(t: InstructionView, tb: SymbolTableView)
    ensures
        encode_instr(t, tb) matches Ok(p) ==> (p.0 matches Some(w) ==> is_word16(w)),
{
    match t {
        InstructionView::A(a) => {
            lemma_bin_chars_wf(0, 16);
            match a {
                AView::Address(n) => {
                    lemma_bin_chars_wf(n as int, 16);
                },
                AView::Variable(v) => {
                    if tb.map.contains_key(v) {
                        lemma_bin_chars_wf(tb.map[v] as int, 16);
                    } else {
                        lemma_bin_chars_wf(tb.last_used + 1, 16);
                    }
                },
            }
        },
        InstructionView::C(c) => {
            lemma_encode_c_wf(c);
        },
        InstructionView::Label(_) => {},
    }
}

/// Every word of a successful second pass is sixteen binary characters.
pub proof fn lemma_encode_all_wf(toks: Seq<InstructionView>, tb: SymbolTableView)
    requires
        encode_all(toks, tb) is Ok,
    ensures
        forall|i: int|
            0 <= i < ok_words(encode_all(toks, tb)).len() ==> is_word16(
                #[trigger] ok_words(encode_all(toks, tb))[i],
            ),
    decreases toks.len(),
{
    if toks.len() == 0 {
    } else {
        match encode_instr(toks[0], tb) {
            Ok((word, tb2)) => {
                lemma_encode_instr_wf(toks[0], tb);
                lemma_encode_all_wf(toks.drop_first(), tb2);
                let sub = ok_words(encode_all(toks.drop_first(), tb2));
                assert forall|i: int| 0 <= i < ok_words(encode_all(toks, tb)).len() implies
                    is_word16(#[trigger] ok_words(encode_all(toks, tb))[i]) by {
                    match word {
                        Some(w) => {
                            if i > 0 {
                                assert(ok_words(encode_all(toks, tb))[i] == sub[i - 1]);
                            }
                        },
                        None => {
                            assert(ok_words(encode_all(toks, tb))[i] == sub[i]);
                        },
                    }
                }
            },
            Err(_) => {
                assert(false);
            },
        }
    }
}

/// Joining non-empty, newline-free pieces with newlines and splitting the
/// text back recovers the pieces.
proof fn lemma_split_join(words: Seq<Seq<char>>)
    requires
        words.len() >= 1,
        forall|i: int| 0 <= i < words.len() ==> (#[trigger] words[i]).len() > 0,
        forall|i: int, j: int| 0 <= i < words.len() && 0 <= j < words[i].len() ==> words[i][j] != '\n',
    ensures
        split_char(join_lines(words), '\n') == words,
    decreases words.len(),
{
    let text = join_lines(words);
    if words.len() == 1 {
        assert(text == words[0]);
        lemma_find_char_at(text, '\n', text.len() as int);
        lemma_split_char_step(text, '\n');
        assert(seq![text] =~= words);
    } else {
        let w0 = words[0];
        let rest = words.drop_first();
        assert(text == w0 + seq!['\n'] + join_lines(rest));
        assert forall|j: int| 0 <= j < w0.len() implies text[j] != '\n' by {
            assert(text[j] == w0[j]);
        }
        assert(text[w0.len() as int] == '\n');
        lemma_find_char_at(text, '\n', w0.len() as int);
        lemma_split_char_step(text, '\n');
        assert(text.take(w0.len() as int) =~= w0);
        assert(text.skip(w0.len() as int + 1) =~= join_lines(rest));
        assert forall|i: int| 0 <= i < rest.len() implies (#[trigger] rest[i]).len() > 0 by {
            assert(rest[i] == words[i + 1]);
        }
        assert forall|i: int, j: int|
            0 <= i < rest.len() && 0 <= j < rest[i].len() implies rest[i][j] != '\n' by {
            assert(rest[i] == words[i + 1]);
        }
        lemma_split_join(rest);
        assert(split_char(text, '\n') =~= seq![w0] + rest);
        assert(seq![w0] + rest =~= words);
    }
}

/// The text of a successful assembly.
pub open spec fn ok_text(r: Result<Seq<char>, AsmErrorView>) -> Seq<char> {
    match r {
        Ok(t) => t,
        Err(_) => Seq::<char>::empty(),
    }
}

/// Encoding width: every non-empty line of assembler output is exactly
/// sixteen `0`/`1` characters.
pub proof fn lemma_encoding_width(s: Seq<char>)
    requires
        spec_assemble(s) is Ok,
    ensures
        forall|i: int|
            0 <= i < split_char(ok_text(spec_assemble(s)), '\n').len() && (#[trigger] split_char(
                ok_text(spec_assemble(s)),
                '\n',
            )[i]).len() > 0 ==> is_word16(split_char(ok_text(spec_assemble(s)), '\n')[i]),
{
    let st = ok_lex(lex_lines(initial_lexer(), split_char(s, '\n')));
    let words = ok_words(encode_all(st.tokens, st.table));
    lemma_encode_all_wf(st.tokens, st.table);
    assert(ok_text(spec_assemble(s)) == join_lines(words));
    if words.len() == 0 {
        assert(join_lines(words) =~= Seq::<char>::empty());
        assert(split_char(ok_text(spec_assemble(s)), '\n') =~= seq![Seq::<char>::empty()]);
    } else {
        assert forall|i: int, j: int|
            0 <= i < words.len() && 0 <= j < words[i].len() implies words[i][j] != '\n' by {
            assert(is_word16(words[i]));
        }
        lemma_split_join(words);
    }
}

/// How many of the pieces are non-empty.
pub open spec fn count_nonempty(lines: Seq<Seq<char>>) -> int
    decreases lines.len(),
{
    if lines.len() == 0 {
        0
    } else {
        (if lines[0].len() > 0 {
            1int
        } else {
            0int
        }) + count_nonempty(lines.drop_first())
    }
}

/// Whether a raw source line occupies a ROM slot: it cleans to something,
/// and that something is not a label definition.
pub open spec fn is_rom_line(raw: Seq<char>) -> bool {
    clean_of(raw).len() > 0 && clean_of(raw)[0] != '('
}

/// How many of the raw lines occupy ROM slots.
pub open spec fn count_rom_lines(lines: Seq<Seq<char>>) -> int
    decreases lines.len(),
{
    if lines.len() == 0 {
        0
    } else {
        (if is_rom_line(lines[0]) {
            1int
        } else {
            0int
        }) + count_rom_lines(lines.drop_first())
    }
}

/// The first pass advances the ROM counter once per ROM line.
proof fn lemma_lex_counter(st: LexerView, lines: Seq<Seq<char>>)
    requires
        lex_lines(st, lines) is Ok,
    ensures
        ok_lex(lex_lines(st, lines)).counter as int == st.counter as int + count_rom_lines(lines),
    decreases lines.len(),
{
    if lines.len() == 0 {
    } else {
        match lex_line(st, lines[0]) {
            Ok(st2) => {
                lemma_lex_counter(st2, lines.drop_first());
            },
            Err(_) => {
                assert(false);
            },
        }
    }
}

/// Every non-empty word counts.
proof fn lemma_count_nonempty_all(words: Seq<Seq<char>>)
    requires
        forall|i: int| 0 <= i < words.len() ==> (#[trigger] words[i]).len() > 0,
    ensures
        count_nonempty(words) == words.len(),
    decreases words.len(),
{
    if words.len() > 0 {
        lemma_count_nonempty_all(words.drop_first());
    }
}

/// ROM counting: a successful assembly emits exactly one line per
/// non-empty, non-comment, non-label source line.
pub proof fn lemma_rom_counting(s: Seq<char>)
    requires
        spec_assemble(s) is Ok,
    ensures
        count_nonempty(split_char(ok_text(spec_assemble(s)), '\n')) == count_rom_lines(
            split_char(s, '\n'),
        ),
{
    let lines = split_char(s, '\n');
    let st = ok_lex(lex_lines(initial_lexer(), lines));
    let words = ok_words(encode_all(st.tokens, st.table));
    assert(lex_wf(initial_lexer()));
    lemma_lex_lines_wf(initial_lexer(), lines);
    lemma_lex_counter(initial_lexer(), lines);
    lemma_encode_all_words(st.tokens, st.table);
    lemma_encode_all_wf(st.tokens, st.table);
    assert(words.len() == rom_weight(st.tokens));
    assert(st.counter as int == count_rom_lines(lines));
    assert(ok_text(spec_assemble(s)) == join_lines(words));
    if words.len() == 0 {
        assert(join_lines(words) =~= Seq::<char>::empty());
        assert(split_char(ok_text(spec_assemble(s)), '\n') =~= seq![Seq::<char>::empty()]);
        assert(seq![Seq::<char>::empty()].drop_first() =~= Seq::<Seq<char>>::empty());
        assert(count_nonempty(Seq::<Seq<char>>::empty()) == 0);
        assert(count_nonempty(seq![Seq::<char>::empty()]) == 0);
    } else {
        assert forall|i: int, j: int|
            0 <= i < words.len() && 0 <= j < words[i].len() implies words[i][j] != '\n' by {
            assert(is_word16(words[i]));
        }
        assert forall|i: int| 0 <= i < words.len() implies (#[trigger] words[i]).len() > 0 by {
            assert(is_word16(words[i]));
        }
        lemma_split_join(words);
        lemma_count_nonempty_all(words);
    }
}


/// Label safety, the mangled half: every label name the generator invents
/// inside a context — the target of a VM `label`, the two comparison
/// branch targets, and a call's landing site — carries a `$` right after
/// the context, and a landing site carries the `$ret.` marker there.
pub proof fn lemma_label_safety_mangled(ctx: Seq<char>, name: Seq<char>, k: int)
    ensures
        (ctx + "$"@ + name)[ctx.len() as int] == '$',
        true_label(ctx, k)[ctx.len() as int] == '$',
        finish_label(ctx, k)[ctx.len() as int] == '$',
        ret_label(ctx, k)[ctx.len() as int] == '$',
        ret_label(ctx, k).subrange(ctx.len() as int, ctx.len() as int + 5) == "$ret."@,
{
    reveal_strlit("$");
    reveal_strlit("$TRUE_");
    reveal_strlit("$FINISH_");
    reveal_strlit("$ret.");
    assert((ctx + "$"@ + name)[ctx.len() as int] == "$"@[0]);
    assert(true_label(ctx, k)[ctx.len() as int] == "$TRUE_"@[0]);
    assert(finish_label(ctx, k)[ctx.len() as int] == "$FINISH_"@[0]);
    assert(ret_label(ctx, k)[ctx.len() as int] == "$ret."@[0]);
    assert(ret_label(ctx, k).subrange(ctx.len() as int, ctx.len() as int + 5) =~= "$ret."@);
}

/// Label safety, the plain half: the label line a `function` opcode emits
/// holds the function's own name and nothing mangled, so it carries a `$`
/// only when the name itself does.
pub proof fn lemma_label_safety_function(name: Seq<char>)
    requires
        forall|j: int| 0 <= j < name.len() ==> name[j] != '$',
    ensures
        forall|j: int|
            0 <= j < ("("@ + name + ")"@).len() ==> ("("@ + name + ")"@)[j] != '$',
{
    reveal_strlit("(");
    reveal_strlit(")");
    let l = "("@ + name + ")"@;
    assert forall|j: int| 0 <= j < l.len() implies l[j] != '$' by {
        if j == 0 {
            assert(l[0] == '(');
        } else if j <= name.len() {
            assert(l[j] == name[j - 1]);
        } else {
            assert(l[j] == ')');
        }
    }
}


} // verus!
