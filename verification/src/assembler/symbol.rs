//! The symbol table: a mapping from label names to encoded instruction
//! bytes, populated in phase one of assembly. Insertion is
//! first-writer-wins: an existing entry is never overwritten.

use vstd::prelude::*;

verus! {

/// What kind of symbol an entry records.
#[derive(Clone, Copy, PartialEq, Eq, Structural, Debug)]
pub enum SymbolType {
    Label,
}

/// The mathematical value of a symbol.
pub ghost struct SymbolV {
    pub name: Seq<char>,
    pub instruction: Seq<u8>,
    pub symbol_type: SymbolType,
}

/// A named symbol carrying the bytes of the instruction it labels.
#[derive(Debug)]
pub struct Symbol {
    name: String,
    instruction: Vec<u8>,
    symbol_type: SymbolType,
}

impl View for Symbol {
    type V = SymbolV;

    closed spec fn view(&self) -> SymbolV {
        SymbolV { name: self.name@, instruction: self.instruction@, symbol_type: self.symbol_type }
    }
}

impl Symbol {
    pub fn new(name: String, instruction: Vec<u8>, symbol_type: SymbolType) -> (r: Symbol)
        ensures
            r@ == (SymbolV { name: name@, instruction: instruction@, symbol_type }),
    {
        Symbol { name, instruction, symbol_type }
    }
}

impl Clone for Symbol {
    fn clone(&self) -> (r: Symbol)
        ensures
            r@ == self@,
    {
        Symbol {
            name: self.name.clone(),
            instruction: copy_bytes(&self.instruction),
            symbol_type: self.symbol_type,
        }
    }
}

/// Copies a byte vector.
fn copy_bytes(v: &Vec<u8>) -> (r: Vec<u8>)
    ensures
        r@ == v@,
{
    let mut r: Vec<u8> = Vec::new();
    let mut i: usize = 0;
    while i < v.len()
        invariant
            i <= v@.len(),
            r@ == v@.subrange(0, i as int),
        decreases v@.len() - i,
    {
        r.push(v[i]);
        i = i + 1;
        proof {
            assert(r@ =~= v@.subrange(0, i as int));
        }
    }
    proof {
        assert(r@ =~= v@);
    }
    r
}

/// Whether a name is among a table's entries.
pub open spec fn entries_contain(entries: Seq<(String, Vec<u8>)>, name: Seq<char>) -> bool {
    exists|i: int| 0 <= i < entries.len() && entries[i].0@ == name
}

/// The bytes a table's entries hold under a name.
pub open spec fn entries_value(entries: Seq<(String, Vec<u8>)>, name: Seq<char>) -> Seq<u8> {
    entries[choose|i: int| 0 <= i < entries.len() && entries[i].0@ == name].1@
}

/// The symbol table: an unordered name-to-bytes mapping. Its
/// mathematical value is the map from names to instruction bytes.
#[derive(Debug)]
pub struct SymbolTable {
    /// The entries, in insertion order, with pairwise distinct names.
    pub symbols: Vec<(String, Vec<u8>)>,
}

impl View for SymbolTable {
    type V = Map<Seq<char>, Seq<u8>>;

    open spec fn view(&self) -> Map<Seq<char>, Seq<u8>> {
        Map::new(
            |name: Seq<char>| entries_contain(self.symbols@, name),
            |name: Seq<char>| entries_value(self.symbols@, name),
        )
    }
}

impl SymbolTable {
    /// The table's invariant: names are pairwise distinct.
    pub open spec fn wf(self) -> bool {
        forall|i: int, j: int|
            0 <= i < j < self.symbols@.len() ==> self.symbols@[i].0@ != self.symbols@[j].0@
    }

    /// An empty table.
    pub fn new() -> (r: SymbolTable)
        ensures
            r.wf(),
            r@ == Map::<Seq<char>, Seq<u8>>::empty(),
            r.symbols@.len() == 0,
    {
        let r = SymbolTable { symbols: Vec::new() };
        proof {
            assert(r@ =~= Map::<Seq<char>, Seq<u8>>::empty());
        }
        r
    }

    /// Looks a name up among the entries; returns the index of its entry.
    fn find(&self, name: &str) -> (r: Option<usize>)
        ensures
            match r {
                Some(i) => i < self.symbols@.len() && self.symbols@[i as int].0@ == name@,
                None => !entries_contain(self.symbols@, name@),
            },
    {
        let mut i: usize = 0;
        while i < self.symbols.len()
            invariant
                i <= self.symbols@.len(),
                forall|j: int| 0 <= j < i ==> self.symbols@[j].0@ != name@,
            decreases self.symbols@.len() - i,
        {
            if super::str_equal(self.symbols[i].0.as_str(), name) {
                return Some(i);
            }
            i = i + 1;
        }
        None
    }

    /// Inserts a symbol, first writer wins: a name already present keeps
    /// its bytes, and the insertion is silently ignored.
    pub fn add_symbol(&mut self, s: Symbol)
        requires
            old(self).wf(),
        ensures
            final(self).wf(),
            final(self)@ == if old(self)@.dom().contains(s@.name) {
                old(self)@
            } else {
                old(self)@.insert(s@.name, s@.instruction)
            },
    {
        let present = self.find(s.name.as_str()).is_some();
        if !present {
            let ghost old_entries = self.symbols@;
            self.symbols.push((s.name, s.instruction));
            proof {
                assert forall|name: Seq<char>| #[trigger]
                    entries_contain(self.symbols@, name) == (entries_contain(old_entries, name)
                        || name == s@.name) by {
                    if entries_contain(old_entries, name) {
                        let i = choose|i: int|
                            0 <= i < old_entries.len() && old_entries[i].0@ == name;
                        assert(self.symbols@[i].0@ == name);
                    }
                    if entries_contain(self.symbols@, name) && name != s@.name {
                        let i = choose|i: int|
                            0 <= i < self.symbols@.len() && self.symbols@[i].0@ == name;
                        assert(old_entries[i].0@ == name);
                    }
                    if name == s@.name {
                        assert(self.symbols@[old_entries.len() as int].0@ == name);
                    }
                }
                assert forall|name: Seq<char>| entries_contain(old_entries, name) implies
                    #[trigger] entries_value(self.symbols@, name) == entries_value(
                    old_entries,
                    name,
                ) by {
                    let i = choose|i: int|
                        0 <= i < self.symbols@.len() && self.symbols@[i].0@ == name;
                    let j = choose|j: int| 0 <= j < old_entries.len() && old_entries[j].0@ == name;
                    assert(self.symbols@[j].0@ == name);
                    if i != j {
                        assert(self.symbols@[i].0@ == self.symbols@[j].0@);
                        assert(i < old_entries.len());
                    }
                }
                assert(entries_value(self.symbols@, s@.name) == s@.instruction) by {
                    let i = choose|i: int|
                        0 <= i < self.symbols@.len() && self.symbols@[i].0@ == s@.name;
                    assert(self.symbols@[old_entries.len() as int].0@ == s@.name);
                    if i != old_entries.len() as int {
                        assert(old_entries[i].0@ == s@.name);
                        assert(!entries_contain(old_entries, s@.name));
                    }
                }
                assert(self@ =~= old(self)@.insert(s@.name, s@.instruction));
            }
        }
    }

    /// A working copy holding the same mapping.
    pub fn duplicate(&self) -> (r: SymbolTable)
        requires
            self.wf(),
        ensures
            r.wf(),
            r@ == self@,
    {
        let mut entries: Vec<(String, Vec<u8>)> = Vec::new();
        let mut i: usize = 0;
        while i < self.symbols.len()
            invariant
                i <= self.symbols@.len(),
                entries@.len() == i,
                forall|j: int|
                    0 <= j < i ==> (#[trigger] entries@[j]).0@ == self.symbols@[j].0@
                        && entries@[j].1@ == self.symbols@[j].1@,
            decreases self.symbols@.len() - i,
        {
            let name = self.symbols[i].0.clone();
            let bytes = copy_bytes(&self.symbols[i].1);
            entries.push((name, bytes));
            i = i + 1;
        }
        let r = SymbolTable { symbols: entries };
        proof {
            assert forall|n: Seq<char>| #[trigger]
                entries_contain(r.symbols@, n) == entries_contain(self.symbols@, n) by {
                if entries_contain(r.symbols@, n) {
                    let a = choose|a: int| 0 <= a < r.symbols@.len() && r.symbols@[a].0@ == n;
                    assert(self.symbols@[a].0@ == n);
                    assert(entries_contain(self.symbols@, n));
                }
                if entries_contain(self.symbols@, n) {
                    let a = choose|a: int|
                        0 <= a < self.symbols@.len() && self.symbols@[a].0@ == n;
                    assert(r.symbols@[a].0@ == n);
                    assert(entries_contain(r.symbols@, n));
                }
            }
            assert forall|n: Seq<char>| #[trigger]
                entries_contain(self.symbols@, n) implies entries_value(r.symbols@, n)
                == entries_value(self.symbols@, n) by {
                assert(entries_contain(r.symbols@, n));
                let a = choose|i: int| 0 <= i < r.symbols@.len() && r.symbols@[i].0@ == n;
                let b = choose|i: int|
                    0 <= i < self.symbols@.len() && self.symbols@[i].0@ == n;
                assert(r.symbols@[a].0@ == n);
                assert(self.symbols@[b].0@ == n);
                assert(self.symbols@[a].0@ == n);
                if a != b {
                    assert(self.symbols@[a].0@ == self.symbols@[b].0@);
                    assert(false);
                }
                assert(entries_value(r.symbols@, n) == r.symbols@[a].1@);
                assert(entries_value(self.symbols@, n) == self.symbols@[b].1@);
                assert(r.symbols@[a].1@ == self.symbols@[a].1@);
            }
            assert(r@ =~= self@);
        }
        r
    }

    /// Pure lookup: the bytes stored under a name, where the name is
    /// present.
    pub fn get_symbol(&self, key: String) -> (r: Option<&Vec<u8>>)
        requires
            self.wf(),
        ensures
            match r {
                Some(v) => self@.dom().contains(key@) && v@ == self@[key@],
                None => !self@.dom().contains(key@),
            },
    {
        match self.find(key.as_str()) {
            Some(i) => {
                let v = &self.symbols[i].1;
                proof {
                    let j = choose|j: int|
                        0 <= j < self.symbols@.len() && self.symbols@[j].0@ == key@;
                    assert(entries_value(self.symbols@, key@) == self.symbols@[j].1@);
                    if j != i as int {
                        assert(self.symbols@[j].0@ == self.symbols@[i as int].0@);
                    }
                }
                Some(v)
            },
            None => None,
        }
    }
}

} // verus!
