//! The assembler's symbol table: predefined registers, label addresses
//! fixed on the first pass, and RAM variables allocated lazily on the
//! second pass.

use vstd::prelude::*;
use crate::text::str_eq;

verus! {

/// Mapping from identifiers to 16-bit addresses, plus the cursor of the
/// variable allocator. Entries are append-only; a later entry for the same
/// name shadows an earlier one.
pub struct SymbolTable {
    last_used: u16,
    entries: Vec<(String, u16)>,
}

/// Spec-level state of a symbol table.
pub struct SymbolTableView {
    pub map: Map<Seq<char>, u16>,
    pub last_used: u16,
}

/// The mapping an entry list denotes: later entries win.
pub open spec fn entries_map(es: Seq<(String, u16)>) -> Map<Seq<char>, u16>
    decreases es.len(),
{
    if es.len() == 0 {
        Map::empty()
    } else {
        entries_map(es.drop_last()).insert(es.last().0@, es.last().1)
    }
}

impl View for SymbolTable {
    type V = SymbolTableView;

    closed spec fn view(&self) -> SymbolTableView {
        SymbolTableView { map: entries_map(self.entries@), last_used: self.last_used }
    }
}

/// The symbols every Hack program starts with: the stack and frame
/// registers, the sixteen general registers, and the two device addresses.
pub open spec fn predefined_symbols() -> Map<Seq<char>, u16> {
    Map::empty().insert("SP"@, 0).insert("LCL"@, 1).insert("ARG"@, 2).insert("THIS"@, 3).insert(
        "THAT"@,
        4,
    ).insert("SCREEN"@, 16384).insert("KBD"@, 24576).insert("R0"@, 0).insert("R1"@, 1).insert(
        "R2"@,
        2,
    ).insert("R3"@, 3).insert("R4"@, 4).insert("R5"@, 5).insert("R6"@, 6).insert("R7"@, 7).insert(
        "R8"@,
        8,
    ).insert("R9"@, 9).insert("R10"@, 10).insert("R11"@, 11).insert("R12"@, 12).insert(
        "R13"@,
        13,
    ).insert("R14"@, 14).insert("R15"@, 15)
}

proof fn lemma_entries_map_push(es: Seq<(String, u16)>, p: (String, u16))
    ensures
        entries_map(es.push(p)) == entries_map(es).insert(p.0@, p.1),
{
    assert(es.push(p).drop_last() =~= es);
    assert(es.push(p).last() == p);
}

/// A match at `i` with no later match fixes the lookup.
proof fn lemma_entries_map_hit(es: Seq<(String, u16)>, k: Seq<char>, i: int)
    requires
        0 <= i < es.len(),
        es[i].0@ == k,
        forall|j: int| i < j < es.len() ==> es[j].0@ != k,
    ensures
        entries_map(es).contains_key(k),
        entries_map(es)[k] == es[i].1,
    decreases es.len(),
{
    if i == es.len() - 1 {
    } else {
        lemma_entries_map_hit(es.drop_last(), k, i);
    }
}

/// No match anywhere means the key is absent.
proof fn lemma_entries_map_miss(es: Seq<(String, u16)>, k: Seq<char>)
    requires
        forall|j: int| 0 <= j < es.len() ==> es[j].0@ != k,
    ensures
        !entries_map(es).contains_key(k),
    decreases es.len(),
{
    if es.len() > 0 {
        lemma_entries_map_miss(es.drop_last(), k);
    }
}

impl SymbolTable {
    /// A table preloaded with the predefined symbols; the allocator cursor
    /// sits just below the first free RAM address, 16.
    pub fn new() -> (r: SymbolTable)
        ensures
            r@.map == predefined_symbols(),
            r@.last_used == 15,
    {
        let mut r = SymbolTable { last_used: 15, entries: Vec::new() };
        proof {
            assert(entries_map(r.entries@) =~= Map::<Seq<char>, u16>::empty());
        }
        r.init();
        r
    }

    fn init(&mut self)
        requires
            old(self)@.map == Map::<Seq<char>, u16>::empty(),
        ensures
            final(self)@.map == predefined_symbols(),
            final(self)@.last_used == old(self)@.last_used,
    {
        self.insert("SP", 0);
        self.insert("LCL", 1);
        self.insert("ARG", 2);
        self.insert("THIS", 3);
        self.insert("THAT", 4);
        self.insert("SCREEN", 16384);
        self.insert("KBD", 24576);
        self.insert("R0", 0);
        self.insert("R1", 1);
        self.insert("R2", 2);
        self.insert("R3", 3);
        self.insert("R4", 4);
        self.insert("R5", 5);
        self.insert("R6", 6);
        self.insert("R7", 7);
        self.insert("R8", 8);
        self.insert("R9", 9);
        self.insert("R10", 10);
        self.insert("R11", 11);
        self.insert("R12", 12);
        self.insert("R13", 13);
        self.insert("R14", 14);
        self.insert("R15", 15);
    }

    /// Unconditional write: used for the predefined symbols and for label
    /// addresses on the first pass.
    pub fn insert(&mut self, symbol: &str, address: u16)
        ensures
            final(self)@.map == old(self)@.map.insert(symbol@, address),
            final(self)@.last_used == old(self)@.last_used,
    {
        let ghost es = self.entries@;
        let owned = symbol.to_owned();
        self.entries.push((owned, address));
        proof {
            lemma_entries_map_push(es, (owned, address));
        }
    }

    /// Lookup without allocation.
    pub fn get(&self, symbol: &str) -> (r: Option<u16>)
        ensures
            r == if self@.map.contains_key(symbol@) {
                Some(self@.map[symbol@])
            } else {
                None::<u16>
            },
    {
        let mut i = self.entries.len();
        while i > 0
            invariant
                0 <= i <= self.entries.len(),
                forall|j: int| i <= j < self.entries@.len() ==> self.entries@[j].0@ != symbol@,
            decreases i,
        {
            i = i - 1;
            if str_eq(self.entries[i].0.as_str(), symbol) {
                proof {
                    lemma_entries_map_hit(self.entries@, symbol@, i as int);
                }
                return Some(self.entries[i].1);
            }
        }
        proof {
            lemma_entries_map_miss(self.entries@, symbol@);
        }
        None
    }

    /// Whether the variable allocator still has a free address.
    pub fn can_allocate(&self) -> (b: bool)
        ensures
            b == (self@.last_used < 0xffff),
    {
        self.last_used < 0xffff
    }

    /// Idempotent allocator: an unseen name claims the next free RAM
    /// address; a seen one keeps the address it already has.
    pub fn append(&mut self, symbol: &str) -> (r: u16)
        requires
            old(self)@.last_used < 0xffff,
        ensures
            old(self)@.map.contains_key(symbol@) ==> r == old(self)@.map[symbol@]
                && final(self)@ == old(self)@,
            !old(self)@.map.contains_key(symbol@) ==> r == old(self)@.last_used + 1
                && final(self)@.last_used == r
                && final(self)@.map == old(self)@.map.insert(symbol@, r),
    {
        match self.get(symbol) {
            Some(n) => n,
            None => {
                self.last_used = self.last_used + 1;
                let n = self.last_used;
                let ghost es = self.entries@;
                let owned = symbol.to_owned();
                self.entries.push((owned, n));
                proof {
                    lemma_entries_map_push(es, (owned, n));
                }
                n
            },
        }
    }
}

} // verus!
