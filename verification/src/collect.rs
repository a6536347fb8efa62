//! Gathering the symbols of several scans into one list without repeated
//! codes, and putting that list in order.

use vstd::prelude::*;
use std::collections::HashSet;
use crate::glyph::{Glyph, Symbol};

verus! {

broadcast use vstd::std_specs::hash::group_hash_axioms;

/// The codes seen and the symbols kept after `symbols` were gone through: a
/// symbol is kept, and its code noted, if its code was not seen before.
pub open spec fn gathered(seen: Set<i128>, kept: Seq<Symbol>, symbols: Seq<Symbol>) -> (
    Set<i128>,
    Seq<Symbol>,
)
    decreases symbols.len(),
{
    if symbols.len() == 0 {
        (seen, kept)
    } else {
        let before = gathered(seen, kept, symbols.drop_last());
        let symbol = symbols.last();
        if before.0.contains(symbol.0) {
            before
        } else {
            (before.0.insert(symbol.0), before.1.push(symbol))
        }
    }
}

/// Adds to `all_symbols` those of `symbols` whose code is not in `unique`, and
/// notes their codes there.
pub fn add_unseen(unique: &mut HashSet<i128>, all_symbols: &mut Vec<Symbol>, symbols: &Vec<Symbol>)
    ensures
        (final(unique)@, final(all_symbols)@) == gathered(old(unique)@, old(all_symbols)@, symbols@),
{
    let ghost seen = unique@;
    let ghost kept = all_symbols@;
    let mut i: usize = 0;
    assert(symbols@.take(0) =~= Seq::empty());
    while i < symbols.len()
        invariant
            i <= symbols@.len(),
            (unique@, all_symbols@) == gathered(seen, kept, symbols@.take(i as int)),
        decreases symbols@.len() - i,
    {
        let symbol = symbols[i];
        assert(symbols@.take(i + 1).drop_last() =~= symbols@.take(i as int));
        assert(symbols@.take(i + 1).last() == symbol);
        if !unique.contains(&symbol.0) {
            unique.insert(symbol.0);
            all_symbols.push(symbol);
        }
        i += 1;
    }
    assert(symbols@.take(symbols@.len() as int) =~= symbols@);
}

/// `a` goes before `b`: two variables go by their indices, any other pair by
/// the numbers of the frames.
pub open spec fn precedes(a: Symbol, b: Symbol) -> bool {
    match (a.1, b.1) {
        (Glyph::Variable(va), Glyph::Variable(vb)) => va < vb,
        _ => a.0 < b.0,
    }
}

/// Tests whether `a` goes before `b`.
pub fn goes_before(a: &Symbol, b: &Symbol) -> (before: bool)
    ensures
        before == precedes(*a, *b),
{
    match (a.1, b.1) {
        (Glyph::Variable(va), Glyph::Variable(vb)) => va < vb,
        _ => a.0 < b.0,
    }
}

/// Where `symbol` is put into the ordered list `list`: behind the last symbol
/// that it does not go before.
pub open spec fn slot(list: Seq<Symbol>, symbol: Symbol) -> int
    decreases list.len(),
{
    if list.len() == 0 || !precedes(symbol, list.last()) {
        list.len() as int
    } else {
        slot(list.drop_last(), symbol)
    }
}

/// The symbols put in order one after the other, each behind the last symbol
/// that it does not go before: symbols of which neither goes before the other
/// keep their order.
pub open spec fn ordered(symbols: Seq<Symbol>) -> Seq<Symbol>
    decreases symbols.len(),
{
    if symbols.len() == 0 {
        Seq::empty()
    } else {
        let front = ordered(symbols.drop_last());
        front.insert(slot(front, symbols.last()), symbols.last())
    }
}

proof fn lemma_slot_in_range(list: Seq<Symbol>, symbol: Symbol)
    ensures
        0 <= slot(list, symbol) <= list.len(),
        forall|k: int| slot(list, symbol) <= k < list.len() ==> precedes(symbol, #[trigger] list[k]),
        slot(list, symbol) > 0 ==> !precedes(symbol, list[slot(list, symbol) - 1]),
    decreases list.len(),
{
    if list.len() > 0 && precedes(symbol, list.last()) {
        lemma_slot_in_range(list.drop_last(), symbol);
        assert forall|k: int| slot(list, symbol) <= k < list.len() implies precedes(
            symbol,
            #[trigger] list[k],
        ) by {
            if k < list.len() - 1 {
                assert(list[k] == list.drop_last()[k]);
            }
        }
    }
}

/// Puts the symbols in order.
pub fn sort_symbols(symbols: &Vec<Symbol>) -> (sorted: Vec<Symbol>)
    ensures
        sorted@ == ordered(symbols@),
{
    let mut sorted: Vec<Symbol> = Vec::new();
    let mut i: usize = 0;
    assert(symbols@.take(0) =~= Seq::empty());
    while i < symbols.len()
        invariant
            i <= symbols@.len(),
            sorted@ == ordered(symbols@.take(i as int)),
        decreases symbols@.len() - i,
    {
        let symbol = symbols[i];
        assert(symbols@.take(i + 1).drop_last() =~= symbols@.take(i as int));
        assert(symbols@.take(i + 1).last() == symbol);
        let mut j: usize = sorted.len();
        assert(sorted@.take(j as int) =~= sorted@);
        while j > 0 && goes_before(&symbol, &sorted[j - 1])
            invariant
                j <= sorted@.len(),
                slot(sorted@, symbol) == slot(sorted@.take(j as int), symbol),
            decreases j,
        {
            assert(sorted@.take(j as int).drop_last() =~= sorted@.take(j - 1));
            j -= 1;
        }
        assert(slot(sorted@, symbol) == j) by {
            if j > 0 {
                assert(sorted@.take(j as int).last() == sorted@[j - 1]);
            }
        }
        sorted.insert(j, symbol);
        i += 1;
    }
    assert(symbols@.take(symbols@.len() as int) =~= symbols@);
    sorted
}

/// In the ordered list no symbol goes before its left neighbour.
pub proof fn lemma_ordered_neighbours(symbols: Seq<Symbol>, i: int)
    requires
        0 <= i,
        i + 1 < ordered(symbols).len(),
    ensures
        !precedes(ordered(symbols)[i + 1], ordered(symbols)[i]),
    decreases symbols.len(),
{
    if symbols.len() > 0 {
        let front = ordered(symbols.drop_last());
        let symbol = symbols.last();
        let at = slot(front, symbol);
        lemma_slot_in_range(front, symbol);
        if i + 1 < at {
            lemma_ordered_neighbours(symbols.drop_last(), i);
        } else if i == at {
            assert(precedes(symbol, front[at]));
            lemma_precedes_is_one_way(symbol, front[at]);
        } else if i > at {
            lemma_ordered_neighbours(symbols.drop_last(), i - 1);
        }
    }
}

/// Of two symbols at most one goes before the other.
pub proof fn lemma_precedes_is_one_way(a: Symbol, b: Symbol)
    ensures
        !(precedes(a, b) && precedes(b, a)),
{
}

/// Ordering keeps the symbols: it neither drops nor adds one.
pub proof fn lemma_ordered_keeps_symbols(symbols: Seq<Symbol>)
    ensures
        ordered(symbols).len() == symbols.len(),
        ordered(symbols).to_multiset() == symbols.to_multiset(),
    decreases symbols.len(),
{
    if symbols.len() > 0 {
        let front = ordered(symbols.drop_last());
        let symbol = symbols.last();
        lemma_ordered_keeps_symbols(symbols.drop_last());
        lemma_slot_in_range(front, symbol);
        vstd::seq_lib::to_multiset_insert(front, slot(front, symbol), symbol);
        assert(symbols.drop_last().push(symbol) =~= symbols);
        vstd::seq_lib::to_multiset_build(symbols.drop_last(), symbol);
    } else {
        assert(ordered(symbols) =~= symbols);
    }
}

} // verus!
