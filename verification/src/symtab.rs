//! The symbol table: label names mapped to the byte address they denote,
//! built by a full pass over the assembly source before any instruction is
//! encoded, so that both forward and backward label references resolve.

use vstd::prelude::*;

use crate::errors::IsaError;
use crate::text::str_eq;
use crate::text::tokenize;
use crate::text::tokens_of;

verus! {

/// The map a sequence of (label, address) definitions denotes; a later
/// definition of the same label wins.
pub open spec fn map_of_defs(ds: Seq<(Seq<char>, u32)>) -> Map<Seq<char>, u32>
    decreases ds.len(),
{
    if ds.len() == 0 {
        Map::empty()
    } else {
        map_of_defs(ds.drop_last()).insert(ds.last().0, ds.last().1)
    }
}

proof fn lemma_map_of_defs_get(ds: Seq<(Seq<char>, u32)>, j: int)
    requires
        0 <= j < ds.len(),
        forall|l: int| j < l < ds.len() ==> ds[l].0 != ds[j].0,
    ensures
        map_of_defs(ds).contains_key(ds[j].0),
        map_of_defs(ds)[ds[j].0] == ds[j].1,
    decreases ds.len(),
{
    if j == ds.len() - 1 {
    } else {
        lemma_map_of_defs_get(ds.drop_last(), j);
    }
}

proof fn lemma_map_of_defs_absent(ds: Seq<(Seq<char>, u32)>, k: Seq<char>)
    requires
        forall|l: int| 0 <= l < ds.len() ==> ds[l].0 != k,
    ensures
        !map_of_defs(ds).contains_key(k),
    decreases ds.len(),
{
    if ds.len() > 0 {
        lemma_map_of_defs_absent(ds.drop_last(), k);
    }
}

/// Label names mapped to 32-bit byte addresses; lookups only once built.
pub struct SymbolTable {
    entries: Vec<(String, u32)>,
}

impl SymbolTable {
    /// The definitions the table holds, oldest first.
    pub closed spec fn defs(self) -> Seq<(Seq<char>, u32)> {
        self.entries@.map_values(|p: (String, u32)| (p.0@, p.1))
    }

    /// An empty table.
    pub fn new() -> (t: SymbolTable)
        ensures
            t.defs() == Seq::<(Seq<char>, u32)>::empty(),
            t@ == Map::<Seq<char>, u32>::empty(),
    {
        let t = SymbolTable { entries: Vec::new() };
        proof {
            assert(t.defs() =~= Seq::<(Seq<char>, u32)>::empty());
        }
        t
    }

    /// Record that `label` denotes byte address `address`; a later
    /// definition of the same label wins.
    pub fn define(&mut self, label: String, address: u32)
        ensures
            final(self).defs() == old(self).defs().push((label@, address)),
            final(self)@ == old(self)@.insert(label@, address),
    {
        self.entries.push((label, address));
        proof {
            assert(self.defs() =~= old(self).defs().push((label@, address)));
            assert(self.defs().drop_last() =~= old(self).defs());
        }
    }

    /// The address `label` denotes, or `UndefinedSymbol` if it was never
    /// defined.
    pub fn resolve(&self, label: &str) -> (r: Result<u32, IsaError>)
        ensures
            self@.contains_key(label@) ==> r == Ok::<u32, IsaError>(self@[label@]),
            !self@.contains_key(label@) ==> r == Err::<u32, IsaError>(IsaError::UndefinedSymbol),
    {
        let n = self.entries.len();
        let mut i: usize = n;
        while i > 0
            invariant
                i <= n,
                n == self.entries@.len(),
                forall|l: int| i <= l < n ==> #[trigger] self.defs()[l].0 != label@,
            decreases i,
        {
            let e = &self.entries[i - 1];
            if str_eq(e.0.as_str(), label) {
                proof {
                    lemma_map_of_defs_get(self.defs(), i - 1);
                }
                return Ok(e.1);
            }
            i = i - 1;
        }
        proof {
            lemma_map_of_defs_absent(self.defs(), label@);
        }
        Err(IsaError::UndefinedSymbol)
    }
}

impl View for SymbolTable {
    type V = Map<Seq<char>, u32>;

    closed spec fn view(&self) -> Map<Seq<char>, u32> {
        map_of_defs(self.defs())
    }
}

/// A line whose first token ends in `:` declares a label.
pub open spec fn is_label_line(ts: Seq<Seq<char>>) -> bool {
    ts.len() >= 1 && ts[0].len() >= 1 && ts[0].last() == ':'
}

/// A well-formed label declaration: a single token, at least one character
/// before the `:`.
pub open spec fn wf_label_line(ts: Seq<Seq<char>>) -> bool {
    ts.len() == 1 && ts[0].len() >= 2
}

/// The (label, address) definitions the source lines from `i` on make, when
/// the address counter stands at `addr`: a label line defines its name at
/// the address of the next instruction, and each instruction line advances
/// the counter by exactly 4 bytes.
pub open spec fn label_defs(lines: Seq<Seq<char>>, i: int, addr: int) -> Seq<(Seq<char>, u32)>
    decreases lines.len() - i,
{
    if i < 0 || i >= lines.len() {
        Seq::empty()
    } else {
        let ts = tokens_of(lines[i]);
        if is_label_line(ts) {
            seq![(ts[0].drop_last(), addr as u32)] + label_defs(lines, i + 1, addr)
        } else {
            seq![] + label_defs(lines, i + 1, addr + 4)
        }
    }
}

/// The symbol table a whole program denotes: every label at the byte address
/// of the instruction that follows it.
pub open spec fn sym_map(lines: Seq<Seq<char>>) -> Map<Seq<char>, u32> {
    map_of_defs(label_defs(lines, 0, 0))
}

/// Whether the line's first token ends in a colon, making it a label
/// declaration.
pub fn line_is_label(ts: &Vec<String>) -> (r: bool)
    ensures
        r == is_label_line(ts.deep_view()),
{
    if ts.len() == 0 {
        return false;
    }
    let t0 = &ts[0];
    let n = t0.as_str().unicode_len();
    if n == 0 {
        return false;
    }
    let c = t0.as_str().get_char(n - 1);
    proof {
        assert(ts.deep_view()[0] == ts@[0]@);
    }
    c == ':'
}

/// The address-assignment pass: scan every line, record each label at the
/// address of the next instruction, and advance the address counter by 4 for
/// each instruction line. Runs to completion before any encoding.
pub fn build_symbols(lines: &Vec<String>) -> (t: SymbolTable)
    requires
        lines@.len() <= 0x3fffffff,
    ensures
        t@ == sym_map(lines.deep_view()),
{
    let ghost all = lines.deep_view();
    let mut t = SymbolTable::new();
    let mut addr: u32 = 0;
    let mut i: usize = 0;
    let n = lines.len();
    proof {
        assert(t.defs() + label_defs(all, 0, 0) =~= label_defs(all, 0, 0));
    }
    while i < n
        invariant
            all == lines.deep_view(),
            n == lines@.len(),
            n <= 0x3fffffff,
            i <= n,
            addr <= 4 * i,
            label_defs(all, 0, 0) == t.defs() + label_defs(all, i as int, addr as int),
        decreases n - i,
    {
        let ts = tokenize(lines[i].as_str());
        proof {
            assert(lines.deep_view()[i as int] == lines@[i as int]@);
            assert(tokens_of(all[i as int]) == ts.deep_view());
        }
        if line_is_label(&ts) {
            let t0 = &ts[0];
            let ln = t0.as_str().unicode_len();
            let name = t0.as_str().substring_char(0, ln - 1);
            let ghost pre = t.defs();
            t.define(name.to_owned(), addr);
            proof {
                assert(ts.deep_view()[0] == ts@[0]@);
                assert(name@ =~= tokens_of(all[i as int])[0].drop_last());
                assert(t.defs() + label_defs(all, i + 1, addr as int) =~= pre + (seq![
                    (tokens_of(all[i as int])[0].drop_last(), addr as u32),
                ] + label_defs(all, i + 1, addr as int)));
            }
        } else {
            proof {
                assert(t.defs() + label_defs(all, i + 1, addr as int + 4) =~= t.defs() + (seq![]
                    + label_defs(all, i + 1, addr as int + 4)));
            }
            addr = addr + 4;
        }
        i = i + 1;
    }
    proof {
        assert(label_defs(all, n as int, addr as int) =~= Seq::<(Seq<char>, u32)>::empty());
        assert(t.defs() + label_defs(all, n as int, addr as int) =~= t.defs());
    }
    t
}

} // verus!
