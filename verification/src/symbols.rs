//! The symbol table: a run-scoped mapping from names to addresses,
//! seeded with the platform-reserved symbols, grown by label insertion
//! during the first pass and by variable allocation during the second.

use vstd::prelude::*;
use vstd::string::StringExecFns;
use crate::errors::{AsmErrV, AsmError};

verus! {

/// A platform-reserved symbol and its fixed address.
#[derive(Debug, Clone, Copy)]
pub struct PredefinedSymbol {
    pub name: &'static str,
    pub value: u16,
}

/// The view of a predefined-symbol list.
pub open spec fn pred_views(s: Seq<PredefinedSymbol>) -> Seq<(Seq<char>, u16)> {
    s.map_values(|p: PredefinedSymbol| (p.name@, p.value))
}

/// The platform-reserved entries, in their fixed order: the stack
/// pointer, the frame registers, the sixteen general registers and the
/// two memory-mapped regions.
pub open spec fn predefined_entries() -> Seq<(Seq<char>, u16)> {
    seq![
        ("SP"@, 0u16),
        ("LCL"@, 1u16),
        ("ARG"@, 2u16),
        ("THIS"@, 3u16),
        ("THAT"@, 4u16),
        ("R0"@, 0u16),
        ("R1"@, 1u16),
        ("R2"@, 2u16),
        ("R3"@, 3u16),
        ("R4"@, 4u16),
        ("R5"@, 5u16),
        ("R6"@, 6u16),
        ("R7"@, 7u16),
        ("R8"@, 8u16),
        ("R9"@, 9u16),
        ("R10"@, 10u16),
        ("R11"@, 11u16),
        ("R12"@, 12u16),
        ("R13"@, 13u16),
        ("R14"@, 14u16),
        ("R15"@, 15u16),
        ("SCREEN"@, 16384u16),
        ("KBD"@, 24576u16),
    ]
}

/// The platform-reserved symbols as values.
pub fn predefined_symbols() -> (r: Vec<PredefinedSymbol>)
    ensures
        pred_views(r@) == predefined_entries(),
{
    let mut v: Vec<PredefinedSymbol> = Vec::new();
    v.push(PredefinedSymbol { name: "SP", value: 0 });
    v.push(PredefinedSymbol { name: "LCL", value: 1 });
    v.push(PredefinedSymbol { name: "ARG", value: 2 });
    v.push(PredefinedSymbol { name: "THIS", value: 3 });
    v.push(PredefinedSymbol { name: "THAT", value: 4 });
    v.push(PredefinedSymbol { name: "R0", value: 0 });
    v.push(PredefinedSymbol { name: "R1", value: 1 });
    v.push(PredefinedSymbol { name: "R2", value: 2 });
    v.push(PredefinedSymbol { name: "R3", value: 3 });
    v.push(PredefinedSymbol { name: "R4", value: 4 });
    v.push(PredefinedSymbol { name: "R5", value: 5 });
    v.push(PredefinedSymbol { name: "R6", value: 6 });
    v.push(PredefinedSymbol { name: "R7", value: 7 });
    v.push(PredefinedSymbol { name: "R8", value: 8 });
    v.push(PredefinedSymbol { name: "R9", value: 9 });
    v.push(PredefinedSymbol { name: "R10", value: 10 });
    v.push(PredefinedSymbol { name: "R11", value: 11 });
    v.push(PredefinedSymbol { name: "R12", value: 12 });
    v.push(PredefinedSymbol { name: "R13", value: 13 });
    v.push(PredefinedSymbol { name: "R14", value: 14 });
    v.push(PredefinedSymbol { name: "R15", value: 15 });
    v.push(PredefinedSymbol { name: "SCREEN", value: 16384 });
    v.push(PredefinedSymbol { name: "KBD", value: 24576 });
    proof {
        assert(pred_views(v@) =~= predefined_entries());
    }
    v
}

/// The first binding of a name in an entry list.
pub open spec fn lookup(entries: Seq<(Seq<char>, u16)>, name: Seq<char>) -> Option<u16>
    decreases entries.len(),
{
    if entries.len() == 0 {
        None
    } else if entries[0].0 == name {
        Some(entries[0].1)
    } else {
        lookup(entries.skip(1), name)
    }
}

/// Appending an entry changes no existing binding; a name the list
/// does not hold finds the new entry exactly when the names agree.
pub proof fn lemma_lookup_push(entries: Seq<(Seq<char>, u16)>, name: Seq<char>, p: (Seq<char>, u16))
    ensures
        lookup(entries.push(p), name) == (match lookup(entries, name) {
            Some(v) => Some(v),
            None => if p.0 == name {
                Some(p.1)
            } else {
                None
            },
        }),
    decreases entries.len(),
{
    if entries.len() == 0 {
        assert(entries.push(p).len() == 1);
        assert(entries.push(p)[0] == p);
        assert(entries.push(p).skip(1) =~= Seq::<(Seq<char>, u16)>::empty());
        assert(lookup(entries, name) is None);
        if p.0 == name {
            assert(lookup(entries.push(p), name) == Some(p.1));
        } else {
            assert(lookup(entries.push(p).skip(1), name) is None);
            assert(lookup(entries.push(p), name) is None);
        }
    } else {
        assert(entries.push(p).len() == entries.len() + 1);
        assert(entries.push(p)[0] == entries[0]);
        assert(entries.push(p).skip(1) =~= entries.skip(1).push(p));
        lemma_lookup_push(entries.skip(1), name, p);
        if entries[0].0 == name {
            assert(lookup(entries, name) == Some(entries[0].1));
            assert(lookup(entries.push(p), name) == Some(entries[0].1));
        } else {
            assert(lookup(entries, name) == lookup(entries.skip(1), name));
            assert(lookup(entries.push(p), name) == lookup(entries.push(p).skip(1), name));
            assert(lookup(entries.push(p).skip(1), name) == lookup(entries.skip(1).push(p), name));
        }
    }
}

/// The mapping from symbolic names to addresses, and the next free
/// variable address.
#[derive(Debug)]
pub struct SymbolTable {
    symbols: Vec<(String, u16)>,
    next_address: u16,
}

/// The view of a symbol-entry list.
pub open spec fn entry_views(s: Seq<(String, u16)>) -> Seq<(Seq<char>, u16)> {
    s.map_values(|p: (String, u16)| (p.0@, p.1))
}

impl SymbolTable {
    /// The entries of the table, in insertion order.
    pub closed spec fn entries(&self) -> Seq<(Seq<char>, u16)> {
        entry_views(self.symbols@)
    }

    /// The next address a fresh variable would receive.
    pub closed spec fn next(&self) -> u16 {
        self.next_address
    }

    /// The next free variable address, as a value.
    pub fn next_free(&self) -> (r: u16)
        ensures
            r == self.next(),
    {
        self.next_address
    }

    /// The address the table holds for a name, if any.
    pub fn lookup_addr(&self, name: &String) -> (r: Option<u16>)
        ensures
            r == lookup(self.entries(), name@),
    {
        let mut i: usize = 0;
        proof {
            assert(self.entries().skip(0) =~= self.entries());
        }
        while i < self.symbols.len()
            invariant
                i <= self.symbols.len(),
                lookup(self.entries(), name@) == lookup(self.entries().skip(i as int), name@),
            decreases self.symbols.len() - i,
        {
            proof {
                assert(self.entries().skip(i as int)[0] == self.entries()[i as int]);
                assert(self.entries().skip(i as int).skip(1) =~= self.entries().skip(i as int + 1));
            }
            if self.symbols[i].0 == *name {
                return Some(self.symbols[i].1);
            }
            i += 1;
        }
        proof {
            assert(self.entries().skip(i as int) =~= Seq::<(Seq<char>, u16)>::empty());
        }
        None
    }

    /// Binds a new symbol to an address.  Redefining any existing
    /// symbol, predefined or user-made, is rejected; the error names
    /// the symbol and the address it already had.
    pub fn insert(&mut self, symbol: String, address: u16) -> (r: Result<(), AsmError>)
        ensures
            match r {
                Ok(()) => lookup(old(self).entries(), symbol@) is None && final(self).entries()
                    == old(self).entries().push((symbol@, address)) && final(self).next() == old(
                    self,
                ).next(),
                Err(e) => (e@ matches AsmErrV::DuplicateSymbol(n, v) ==> n == symbol@ && lookup(
                    old(self).entries(),
                    symbol@,
                ) == Some(v)) && (e@ is DuplicateSymbol) && *final(self) == *old(self),
            },
    {
        match self.lookup_addr(&symbol) {
            Some(existing) => Err(AsmError::DuplicateSymbol(symbol, existing)),
            None => {
                let ghost prev = self.entries();
                self.symbols.push((symbol, address));
                proof {
                    assert(self.entries() =~= prev.push((symbol@, address)));
                }
                Ok(())
            },
        }
    }

    /// The address of a variable: the one the table already holds, or
    /// the next free address, which the name is then bound to.
    pub fn get_or_insert(&mut self, variable: String) -> (r: u16)
        requires
            lookup(old(self).entries(), variable@) is Some || old(self).next() < u16::MAX,
        ensures
            match lookup(old(self).entries(), variable@) {
                Some(v) => r == v && *final(self) == *old(self),
                None => r == old(self).next() && final(self).entries() == old(
                    self,
                ).entries().push((variable@, old(self).next())) && final(self).next() == old(
                    self,
                ).next() + 1,
            },
    {
        match self.lookup_addr(&variable) {
            Some(existing) => existing,
            None => {
                let ghost prev = self.entries();
                let address = self.next_address;
                self.symbols.push((variable, address));
                self.next_address = self.next_address + 1;
                proof {
                    assert(self.entries() =~= prev.push((variable@, address)));
                }
                address
            },
        }
    }
}

impl Default for SymbolTable {
    /// A fresh table: the predefined symbols, with variable allocation
    /// starting at 16.
    fn default() -> (r: SymbolTable)
        ensures
            r.entries() == predefined_entries(),
            r.next() == 16,
    {
        let preds = predefined_symbols();
        let mut symbols: Vec<(String, u16)> = Vec::new();
        let mut i: usize = 0;
        while i < preds.len()
            invariant
                i <= preds.len(),
                pred_views(preds@) == predefined_entries(),
                entry_views(symbols@) == pred_views(preds@).take(i as int),
            decreases preds.len() - i,
        {
            let name = String::from_str(preds[i].name);
            symbols.push((name, preds[i].value));
            proof {
                assert(entry_views(symbols@) =~= pred_views(preds@).take(i as int).push(
                    pred_views(preds@)[i as int],
                ));
                assert(pred_views(preds@).take(i as int).push(pred_views(preds@)[i as int]) =~=
                    pred_views(preds@).take(i as int + 1));
            }
            i += 1;
        }
        proof {
            assert(pred_views(preds@).take(preds@.len() as int) =~= pred_views(preds@));
        }
        SymbolTable { symbols, next_address: 16 }
    }
}

} // verus!
