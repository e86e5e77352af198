//! Resolving a raw code address to function, file and line: find the module
//! whose range holds the address, then look the module-relative offset up in
//! that module's symbol and line tables.

use vstd::prelude::*;

use crate::error::Error;
use crate::frame::StackFrame;
use crate::maps::ModuleMap;

verus! {

/// Does symbol `s` — a `(name, start, size)` triple of module-relative
/// offsets — cover the offset `off`?
pub open spec fn sym_covers(s: (String, u64, u64), off: u64) -> bool {
    s.1 <= off && off - s.1 < s.2
}

/// The debug metadata of one module, parsed into plain tables: symbols as
/// `(name, start, size)` and line entries as `(start, file, line)`, offsets
/// relative to the module's load base. A line entry applies from its start
/// offset up to the next entry's.
#[derive(Debug, Clone)]
pub struct SymbolTable {
    /// `(name, start offset, size)` per symbol, any order.
    pub symbols: Vec<(String, u64, u64)>,
    /// `(start offset, file, line)` per line-table row, any order.
    pub lines: Vec<(u64, String, u64)>,
}

impl SymbolTable {
    /// The index of the covering symbol whose start is nearest the offset:
    /// `Some(i)` exactly when some symbol covers `off`, and then no covering
    /// symbol starts later than symbol `i`.
    pub fn find_symbol(&self, off: u64) -> (r: Option<usize>)
        ensures
            r matches Some(i) ==> i < self.symbols@.len() && sym_covers(
                self.symbols@[i as int],
                off,
            ) && forall|j: int| 0 <= j < self.symbols@.len() && sym_covers(
                #[trigger] self.symbols@[j],
                off,
            ) ==> self.symbols@[j].1 <= self.symbols@[i as int].1,
            r is None ==> forall|j: int| 0 <= j < self.symbols@.len() ==> !sym_covers(
                #[trigger] self.symbols@[j],
                off,
            ),
    {
        let n = self.symbols.len();
        let mut best: Option<usize> = None;
        let mut i: usize = 0;
        while i < n
            invariant
                n == self.symbols@.len(),
                0 <= i <= n,
                best matches Some(b) ==> b < i && sym_covers(self.symbols@[b as int], off)
                    && forall|j: int| 0 <= j < i && sym_covers(#[trigger] self.symbols@[j], off)
                    ==> self.symbols@[j].1 <= self.symbols@[b as int].1,
                best is None ==> forall|j: int| 0 <= j < i ==> !sym_covers(
                    #[trigger] self.symbols@[j],
                    off,
                ),
            decreases n - i,
        {
            let start = self.symbols[i].1;
            let size = self.symbols[i].2;
            if start <= off && off - start < size {
                match best {
                    Some(b) => {
                        if self.symbols[b].1 <= start {
                            best = Some(i);
                        }
                    },
                    None => {
                        best = Some(i);
                    },
                }
            }
            i = i + 1;
        }
        best
    }

    /// The index of the line entry that applies at `off`: the one with the
    /// greatest start not past `off`. `Some(i)` exactly when any entry
    /// starts at or before `off`.
    pub fn find_line(&self, off: u64) -> (r: Option<usize>)
        ensures
            r matches Some(i) ==> i < self.lines@.len() && self.lines@[i as int].0 <= off
                && forall|j: int| 0 <= j < self.lines@.len() && (#[trigger] self.lines@[j]).0
                <= off ==> self.lines@[j].0 <= self.lines@[i as int].0,
            r is None ==> forall|j: int| 0 <= j < self.lines@.len() ==> (
            #[trigger] self.lines@[j]).0 > off,
    {
        let n = self.lines.len();
        let mut best: Option<usize> = None;
        let mut i: usize = 0;
        while i < n
            invariant
                n == self.lines@.len(),
                0 <= i <= n,
                best matches Some(b) ==> b < i && self.lines@[b as int].0 <= off && forall|j: int|
                    0 <= j < i && (#[trigger] self.lines@[j]).0 <= off ==> self.lines@[j].0
                    <= self.lines@[b as int].0,
                best is None ==> forall|j: int| 0 <= j < i ==> (#[trigger] self.lines@[j]).0 > off,
            decreases n - i,
    {
            let start = self.lines[i].0;
            if start <= off {
                match best {
                    Some(b) => {
                        if self.lines[b].0 <= start {
                            best = Some(i);
                        }
                    },
                    None => {
                        best = Some(i);
                    },
                }
            }
            i = i + 1;
        }
        best
    }
}

/// Do the bytes parse as a binary? Whether `goblin::elf::Elf::parse`
/// accepts them, a function of the bytes alone.
pub uninterp spec fn elf_parses(data: Seq<u8>) -> bool;

/// The named symbols that a binary's bytes declare, each as its name, value
/// and size: what `goblin::elf::Elf::parse` finds in the symbol and string
/// tables, a function of the bytes alone.
pub uninterp spec fn elf_symbols_of(data: Seq<u8>) -> Seq<(Seq<char>, u64, u64)>;

/// Relies on `goblin::elf::Elf::parse` and its symbol and string tables:
/// parsing succeeds exactly on the bytes goblin accepts ([`elf_parses`]),
/// and then the returned triples are each symbol's name, value and size, in
/// table order — [`elf_symbols_of`] of the bytes; a parse failure comes back
/// as its message.
#[verifier::external_body]
fn parse_elf_symbols(data: &Vec<u8>) -> (r: Result<Vec<(String, u64, u64)>, Error>)
    ensures
        r is Ok <==> elf_parses(data@),
        r matches Ok(v) ==> v@.map_values(|t: (String, u64, u64)| (t.0@, t.1, t.2))
            == elf_symbols_of(data@),
{
    let elf = match goblin::elf::Elf::parse(data) {
        Ok(e) => e,
        Err(e) => return Err(Error::GoblinError(e.to_string())),
    };
    let mut out: Vec<(String, u64, u64)> = Vec::new();
    for sym in elf.syms.iter() {
        if let Some(name) = elf.strtab.get_at(sym.st_name) {
            out.push((name.to_string(), sym.st_value, sym.st_size));
        }
    }
    Ok(out)
}

/// An address resolver bound to one module map. Debug metadata is attached
/// per module as it becomes available and kept for later lookups.
pub struct Symbolicator {
    /// The modules addresses are resolved against.
    pub map: ModuleMap,
    /// One optional table per module, in the map's order.
    pub tables: Vec<Option<SymbolTable>>,
}

impl Symbolicator {
    /// The resolver's invariant: one table slot per module, and the map
    /// itself well formed.
    pub open spec fn wf(self) -> bool {
        self.tables@.len() == self.map.modules@.len() && self.map.wf()
    }

    /// A resolver over `map` with no metadata attached yet.
    pub fn new(map: ModuleMap) -> (r: Symbolicator)
        requires
            map.wf(),
        ensures
            r.wf(),
            r.map == map,
            forall|i: int| 0 <= i < r.tables@.len() ==> (#[trigger] r.tables@[i]) is None,
    {
        let n = map.modules.len();
        let mut tables: Vec<Option<SymbolTable>> = Vec::new();
        let mut i: usize = 0;
        while i < n
            invariant
                tables@.len() == i,
                0 <= i <= n,
                forall|k: int| 0 <= k < i ==> (#[trigger] tables@[k]) is None,
            decreases n - i,
        {
            tables.push(None);
            i = i + 1;
        }
        Symbolicator { map, tables }
    }

    /// Attach a ready-made table to the module at `index`.
    pub fn set_table(&mut self, index: usize, table: SymbolTable)
        requires
            old(self).wf(),
            index < old(self).tables@.len(),
        ensures
            final(self).wf(),
            final(self).map == old(self).map,
            final(self).tables@ == old(self).tables@.update(index as int, Some(table)),
    {
        self.tables.set(index, Some(table));
    }

    /// Parse a binary's bytes and attach its symbols as the table of the
    /// module at `index` (with no line rows: this parse yields symbols
    /// only). It succeeds exactly when the bytes parse as a binary
    /// ([`elf_parses`]), and the attached table then holds exactly the
    /// symbols the bytes declare, [`elf_symbols_of`] them.
    pub fn load_module(&mut self, index: usize, data: &Vec<u8>) -> (r: Result<(), Error>)
        requires
            old(self).wf(),
            index < old(self).tables@.len(),
        ensures
            final(self).wf(),
            final(self).map == old(self).map,
            r is Ok <==> elf_parses(data@),
            r matches Ok(()) ==> (match final(self).tables@[index as int] {
                Some(t) => t.symbols@.map_values(|tr: (String, u64, u64)| (tr.0@, tr.1, tr.2))
                    == elf_symbols_of(data@) && t.lines@.len() == 0,
                None => false,
            }),
            r is Err ==> *final(self) == *old(self),
    {
        match parse_elf_symbols(data) {
            Ok(symbols) => {
                self.tables.set(index, Some(SymbolTable { symbols, lines: Vec::new() }));
                Ok(())
            },
            Err(e) => Err(e),
        }
    }

    /// Does the frame `f` describe `addr` as resolved against module `i` of
    /// this resolver: it carries the address and that module's name, and its
    /// function, file and line are exactly what the module's table yields
    /// for the module-relative offset — the covering symbol nearest the
    /// offset, and the latest line row at or before it — each field absent
    /// exactly when the table has no row for it (or no table is attached).
    pub open spec fn resolves_at(self, i: int, addr: u64, f: StackFrame) -> bool {
        let m = self.map.modules@[i];
        let off = (addr - m.base) as u64;
        &&& f.addr == addr
        &&& f.module@ == m.name@
        &&& match self.tables@[i] {
            None => f.function is None && f.filename is None && f.line is None,
            Some(t) => {
                &&& (match f.function {
                    Some(name) => exists|j: int|
                        0 <= j < t.symbols@.len() && sym_covers(#[trigger] t.symbols@[j], off)
                            && t.symbols@[j].0@ == name@ && forall|k: int|
                            0 <= k < t.symbols@.len() && sym_covers(
                                #[trigger] t.symbols@[k],
                                off,
                            ) ==> t.symbols@[k].1 <= t.symbols@[j].1,
                    None => forall|j: int| 0 <= j < t.symbols@.len() ==> !sym_covers(
                        #[trigger] t.symbols@[j],
                        off,
                    ),
                })
                &&& (match f.filename {
                    Some(file) => exists|j: int|
                        0 <= j < t.lines@.len() && (#[trigger] t.lines@[j]).0 <= off
                            && t.lines@[j].1@ == file@ && f.line == Some(t.lines@[j].2)
                            && forall|k: int|
                            0 <= k < t.lines@.len() && (#[trigger] t.lines@[k]).0 <= off
                                ==> t.lines@[k].0 <= t.lines@[j].0,
                    None => f.line is None && forall|j: int| 0 <= j < t.lines@.len() ==> (
                    #[trigger] t.lines@[j]).0 > off,
                })
            },
        }
    }

    /// Resolve `addr`. When no known module's range holds it, this fails
    /// with [`Error::NoBinaryForAddress`] carrying exactly `addr` — the cue
    /// to rebuild the module map and retry once. Otherwise the frame
    /// resolves against the owning module as [`Symbolicator::resolves_at`]
    /// says: in particular, with a table whose symbols and lines cover the
    /// offset, function, file and line are all present. The `demangle` flag
    /// is accepted for interface compatibility; names come back as the
    /// tables store them.
    pub fn symbolicate(&self, addr: u64, demangle: bool) -> (r: Result<StackFrame, Error>)
        requires
            self.wf(),
        ensures
            (match r {
                Err(Error::NoBinaryForAddress(a)) => a == addr && forall|i: int|
                    0 <= i < self.map.modules@.len() ==> !(
                #[trigger] self.map.modules@[i]).contains_addr(addr),
                Err(_) => false,
                Ok(_) => true,
            }),
            (forall|i: int| 0 <= i < self.map.modules@.len() ==> !(
            #[trigger] self.map.modules@[i]).contains_addr(addr)) ==> (match r {
                Err(Error::NoBinaryForAddress(a)) => a == addr,
                _ => false,
            }),
            (match r {
                Ok(f) => exists|i: int| 0 <= i < self.map.modules@.len() && (
                #[trigger] self.map.modules@[i]).contains_addr(addr) && self.resolves_at(
                    i,
                    addr,
                    f,
                ),
                Err(_) => true,
            }),
    {
        let idx = match self.map.find(addr) {
            Some(i) => i,
            None => { return Err(Error::NoBinaryForAddress(addr)); },
        };
        let module = &self.map.modules[idx];
        let off = addr - module.base;
        let mut frame = StackFrame {
            line: None,
            filename: None,
            function: None,
            module: module.name.clone(),
            addr,
        };
        match &self.tables[idx] {
            None => {},
            Some(table) => {
                match table.find_symbol(off) {
                    Some(s) => {
                        let name = table.symbols[s].0.clone();
                        let _ = demangle;
                        frame.function = Some(name);
                    },
                    None => {},
                }
                match table.find_line(off) {
                    Some(l) => {
                        frame.filename = Some(table.lines[l].1.clone());
                        frame.line = Some(table.lines[l].2);
                    },
                    None => {},
                }
            },
        }
        Ok(frame)
    }
}

} // verus!
