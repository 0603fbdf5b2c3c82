use vstd::prelude::*;

use crate::bridge::{Position, Range};

verus! {

/// A symbol of a document outline, with the symbols nested in it.
#[derive(Debug, PartialEq, Eq)]
pub struct DocumentSymbol {
    pub name: String,
    pub kind: i32,
    pub range: Range,
    pub selection_range: Range,
    pub children: Option<Vec<DocumentSymbol>>,
}

/// Where a code lens goes for each symbol of an outline, parents before
/// their children: the symbol's range and the start of its name.
pub open spec fn lens_targets(symbols: Seq<DocumentSymbol>) -> Seq<(Range, Position)>
    decreases symbols,
{
    if symbols.len() == 0 {
        seq![]
    } else {
        lens_targets(symbols.drop_last()) + symbol_lens_targets(symbols.last())
    }
}

pub open spec fn symbol_lens_targets(symbol: DocumentSymbol) -> Seq<(Range, Position)>
    decreases symbol,
{
    seq![(symbol.range, symbol.selection_range.start)] + match symbol.children {
        Some(children) => lens_targets(children@),
        None => seq![],
    }
}

/// Appends the code lens targets of the symbols and of all the symbols
/// nested in them, each symbol before its children.
pub fn collect_code_lens_targets_from_symbols(symbols: &Vec<DocumentSymbol>, targets: &mut Vec<(Range, Position)>)
    ensures
        final(targets)@ == old(targets)@ + lens_targets(symbols@),
    decreases symbols,
{
    let ghost start = targets@;
    let mut k: usize = 0;
    assert(symbols@.take(0) =~= Seq::<DocumentSymbol>::empty());
    assert(start + lens_targets(symbols@.take(0)) =~= start);
    while k < symbols.len()
        invariant
            k <= symbols@.len(),
            targets@ == start + lens_targets(symbols@.take(k as int)),
        decreases symbols@.len() - k,
    {
        let symbol = &symbols[k];
        assert(symbols@.take(k + 1).drop_last() =~= symbols@.take(k as int));
        assert(symbols@.take(k + 1).last() == *symbol);
        let ghost before = targets@;
        targets.push((symbol.range, symbol.selection_range.start));
        let ghost pushed = targets@;
        match &symbol.children {
            Some(children) => collect_code_lens_targets_from_symbols(children, targets),
            None => {},
        }
        assert(targets@ =~= before + symbol_lens_targets(*symbol));
        assert(targets@ =~= start + lens_targets(symbols@.take(k + 1)));
        k = k + 1;
    }
    assert(symbols@.take(symbols@.len() as int) =~= symbols@);
}

} // verus!
