//! The names of the known commands.

use vstd::prelude::*;
use crate::glyph::{Glyph, Symbol};

verus! {

/// A table from command codes to their names, in the order in which the
/// commands are shown.
pub struct SymbolTable {
    pub entries: Vec<(i128, &'static str)>,
}

/// The name that `entries` gives to `code`: that of the last entry with this
/// code, if there is one.
pub open spec fn name_in(entries: Seq<(int, Seq<char>)>, code: int) -> Option<Seq<char>>
    decreases entries.len(),
{
    if entries.len() == 0 {
        None
    } else if entries.last().0 == code {
        Some(entries.last().1)
    } else {
        name_in(entries.drop_last(), code)
    }
}

/// The known commands.
pub open spec fn known_symbols() -> Seq<(int, Seq<char>)> {
    seq![
        (0, "ap"@),
        (12, "=="@),
        (417, "inc"@),
        (401, "dec"@),
        (365, "sum"@),
        (146, "mul"@),
        (40, "div"@),
        (448, "eq"@),
        (2, "true"@),
        (8, "false"@),
    ]
}

/// The command symbols of the codes of `entries`, in their order.
pub open spec fn command_symbols(entries: Seq<(int, Seq<char>)>) -> Seq<(int, Glyph)> {
    Seq::new(entries.len(), |i: int| (entries[i].0, Glyph::Command(entries[i].0 as i128)))
}

/// The symbols as pairs of a mathematical integer and a glyph.
pub open spec fn symbol_models(symbols: Seq<Symbol>) -> Seq<(int, Glyph)> {
    Seq::new(symbols.len(), |i: int| (symbols[i].0 as int, symbols[i].1))
}

impl SymbolTable {
    /// The entries as pairs of a code and the text of a name.
    pub open spec fn view(&self) -> Seq<(int, Seq<char>)> {
        Seq::new(self.entries@.len(), |i: int| (self.entries@[i].0 as int, self.entries@[i].1@))
    }

    /// The table of the known commands.
    pub fn standard() -> (table: SymbolTable)
        ensures
            table@ == known_symbols(),
    {
        let mut entries: Vec<(i128, &'static str)> = Vec::new();
        entries.push((0, "ap"));
        entries.push((12, "=="));
        entries.push((417, "inc"));
        entries.push((401, "dec"));
        entries.push((365, "sum"));
        entries.push((146, "mul"));
        entries.push((40, "div"));
        entries.push((448, "eq"));
        entries.push((2, "true"));
        entries.push((8, "false"));
        let table = SymbolTable { entries };
        assert(table@ =~= known_symbols());
        table
    }

    /// Looks up the name of `code`.
    pub fn lookup(&self, code: i128) -> (name: Option<&'static str>)
        ensures
            match name {
                Some(text) => name_in(self@, code as int) == Some(text@),
                None => name_in(self@, code as int) is None,
            },
    {
        let mut i: usize = self.entries.len();
        assert(self@.take(i as int) =~= self@);
        while i > 0
            invariant
                i <= self.entries@.len(),
                name_in(self@, code as int) == name_in(self@.take(i as int), code as int),
            decreases i,
        {
            i -= 1;
            assert(self@.take(i + 1).last() == self@[i as int]);
            assert(self@.take(i + 1).drop_last() =~= self@.take(i as int));
            if self.entries[i].0 == code {
                return Some(self.entries[i].1);
            }
        }
        assert(self@.take(0).len() == 0);
        None
    }

    /// One command symbol for every entry, in the order of the table.
    pub fn symbols(&self) -> (symbols: Vec<Symbol>)
        ensures
            symbol_models(symbols@) == command_symbols(self@),
    {
        let mut symbols: Vec<Symbol> = Vec::new();
        let mut i: usize = 0;
        while i < self.entries.len()
            invariant
                i <= self.entries@.len(),
                symbols@.len() == i,
                forall|k: int|
                    0 <= k < i ==> #[trigger] symbols@[k] == (
                        self.entries@[k].0,
                        Glyph::Command(self.entries@[k].0),
                    ),
            decreases self.entries@.len() - i,
        {
            let code = self.entries[i].0;
            symbols.push((code, Glyph::Command(code)));
            i += 1;
        }
        assert(symbol_models(symbols@) =~= command_symbols(self@));
        symbols
    }
}

} // verus!
