//! Text as the sequence of its symbols.

use vstd::prelude::*;

verus! {

/// `String::push` appends the given symbol to the end of the string and
/// leaves the symbols before it as they were.
pub assume_specification[ String::push ](text: &mut String, symbol: char)
    ensures
        final(text)@ == old(text)@.push(symbol),
;

/// Collects the symbols of `text`, in order.
pub(crate) fn symbols_of(text: &str) -> (symbols: Vec<char>)
    ensures
        symbols@ == text@,
{
    let mut symbols: Vec<char> = Vec::new();
    for symbol in it: text.chars()
        invariant
            it.seq() == text@,
            symbols@ == text@.take(it.index()),
    {
        symbols.push(symbol);
    }
    symbols
}

} // verus!
