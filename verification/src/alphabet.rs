//! The alphabet: an ordered sequence of symbols, each standing for its
//! position. A symbol that occurs more than once stands for its first
//! position.

use vstd::arithmetic::div_mod::lemma_small_mod;
use vstd::prelude::*;
use vstd::seq_lib::seq_to_set_is_finite;
use vstd::set_lib::{lemma_int_range, lemma_subset_equality, set_int_range};

verus! {

/// The default alphabet: the 95 printable symbols of ASCII, the space
/// first.
pub const ASCII_ALPHABET: &'static str =
    r#" 1234567890!@#$%^&*()`~-_=+abcdefghijklmnopqrstuvwxyzABCDEFGHIJKLMNOPQRSTUVWXYZ[]{}\|;:'",.<>/?"#;

/// `index` is the first position at which `symbol` occurs in `alphabet`.
pub open spec fn is_first_occurrence(alphabet: Seq<char>, symbol: char, index: int) -> bool {
    &&& 0 <= index < alphabet.len()
    &&& alphabet[index] == symbol
    &&& forall|j: int| 0 <= j < index ==> alphabet[j] != symbol
}

/// The index that `symbol` stands for: its first position in `alphabet`.
pub open spec fn index_of(alphabet: Seq<char>, symbol: char) -> int
    recommends
        alphabet.contains(symbol),
{
    choose|index: int| is_first_occurrence(alphabet, symbol, index)
}

/// The symbol that stands at `index`, counted around the alphabet.
pub open spec fn symbol_at(alphabet: Seq<char>, index: int) -> char
    recommends
        alphabet.len() > 0,
{
    alphabet[index % (alphabet.len() as int)]
}

/// Every symbol of `text` occurs in `alphabet`.
pub open spec fn spells(alphabet: Seq<char>, text: Seq<char>) -> bool {
    forall|i: int| 0 <= i < text.len() ==> alphabet.contains(#[trigger] text[i])
}

/// `at` is the position of the first symbol of `text` that does not occur
/// in `alphabet`.
pub open spec fn is_first_foreign(alphabet: Seq<char>, text: Seq<char>, at: int) -> bool {
    &&& 0 <= at < text.len()
    &&& !alphabet.contains(text[at])
    &&& forall|j: int| 0 <= j < at ==> alphabet.contains(#[trigger] text[j])
}

/// The indices that the symbols of `text` stand for, in order.
pub open spec fn indices_of(alphabet: Seq<char>, text: Seq<char>) -> Seq<int> {
    Seq::new(text.len(), |i: int| index_of(alphabet, text[i]))
}

/// The text that `indices` stand for, symbol by symbol.
pub open spec fn text_of(alphabet: Seq<char>, indices: Seq<int>) -> Seq<char> {
    Seq::new(indices.len(), |i: int| symbol_at(alphabet, indices[i]))
}

/// Every index of `indices` is a position of an alphabet of `size` symbols.
pub open spec fn in_range(indices: Seq<int>, size: int) -> bool {
    forall|i: int| 0 <= i < indices.len() ==> 0 <= #[trigger] indices[i] < size
}

/// A symbol of the alphabet has exactly one first position.
pub proof fn lemma_index_of(alphabet: Seq<char>, symbol: char)
    requires
        alphabet.contains(symbol),
    ensures
        is_first_occurrence(alphabet, symbol, index_of(alphabet, symbol)),
        forall|index: int|
            is_first_occurrence(alphabet, symbol, index) ==> index == index_of(alphabet, symbol),
{
    lemma_first_occurrence_exists(alphabet, symbol, alphabet.len() as int);
    let found = index_of(alphabet, symbol);
    assert forall|index: int| is_first_occurrence(alphabet, symbol, index) implies index
        == found by {
        if index < found {
            assert(alphabet[index] != symbol);
        } else if found < index {
            assert(alphabet[found] != symbol);
        }
    }
}

/// If `symbol` occurs among the first `upto` symbols, it has a first
/// position.
proof fn lemma_first_occurrence_exists(alphabet: Seq<char>, symbol: char, upto: int)
    requires
        0 <= upto <= alphabet.len(),
        exists|i: int| 0 <= i < upto && alphabet[i] == symbol,
    ensures
        exists|index: int| is_first_occurrence(alphabet, symbol, index),
    decreases upto,
{
    if exists|i: int| 0 <= i < upto - 1 && alphabet[i] == symbol {
        lemma_first_occurrence_exists(alphabet, symbol, upto - 1);
    } else {
        assert(is_first_occurrence(alphabet, symbol, upto - 1));
    }
}

/// A text either is spelled by the alphabet or has a first foreign
/// symbol, and never two: the symbol that a rejected text is rejected
/// for is determined.
pub proof fn lemma_first_foreign(alphabet: Seq<char>, text: Seq<char>)
    ensures
        spells(alphabet, text) <==> !exists|at: int| is_first_foreign(alphabet, text, at),
        forall|at: int, other: int|
            is_first_foreign(alphabet, text, at) && is_first_foreign(alphabet, text, other)
                ==> at == other,
{
    if !spells(alphabet, text) {
        lemma_first_foreign_exists(alphabet, text, text.len() as int);
    }
    assert forall|at: int, other: int|
        is_first_foreign(alphabet, text, at) && is_first_foreign(
            alphabet,
            text,
            other,
        ) implies at == other by {
        if at < other {
            assert(alphabet.contains(text[at]));
        } else if other < at {
            assert(alphabet.contains(text[other]));
        }
    }
}

/// If a foreign symbol occurs among the first `upto` symbols of `text`,
/// there is a first one.
proof fn lemma_first_foreign_exists(alphabet: Seq<char>, text: Seq<char>, upto: int)
    requires
        0 <= upto <= text.len(),
        exists|i: int| 0 <= i < upto && !alphabet.contains(text[i]),
    ensures
        exists|at: int| is_first_foreign(alphabet, text, at),
    decreases upto,
{
    if exists|i: int| 0 <= i < upto - 1 && !alphabet.contains(text[i]) {
        lemma_first_foreign_exists(alphabet, text, upto - 1);
    } else {
        assert(is_first_foreign(alphabet, text, upto - 1));
    }
}

/// The symbol that stands at the index of a symbol of the alphabet is that
/// symbol again.
pub proof fn lemma_symbol_at_index_of(alphabet: Seq<char>, symbol: char)
    requires
        alphabet.contains(symbol),
    ensures
        0 <= index_of(alphabet, symbol) < alphabet.len(),
        symbol_at(alphabet, index_of(alphabet, symbol)) == symbol,
{
    lemma_index_of(alphabet, symbol);
    lemma_small_mod(index_of(alphabet, symbol) as nat, alphabet.len());
}

/// In an alphabet without duplicates, the index of the symbol that stands
/// at a position is that position again.
pub proof fn lemma_index_of_symbol_at(alphabet: Seq<char>, index: int)
    requires
        alphabet.no_duplicates(),
        0 <= index < alphabet.len(),
    ensures
        symbol_at(alphabet, index) == alphabet[index],
        alphabet.contains(symbol_at(alphabet, index)),
        index_of(alphabet, symbol_at(alphabet, index)) == index,
{
    lemma_small_mod(index as nat, alphabet.len());
    assert(is_first_occurrence(alphabet, alphabet[index], index));
    lemma_index_of(alphabet, alphabet[index]);
}

/// A text over the alphabet is spelled again by the indices that its
/// symbols stand for, and those indices are positions of the alphabet.
pub proof fn lemma_text_of_indices_of(alphabet: Seq<char>, text: Seq<char>)
    requires
        spells(alphabet, text),
    ensures
        in_range(indices_of(alphabet, text), alphabet.len() as int),
        text_of(alphabet, indices_of(alphabet, text)) == text,
{
    assert forall|i: int| 0 <= i < text.len() implies 0 <= #[trigger] indices_of(
        alphabet,
        text,
    )[i] < alphabet.len() && symbol_at(alphabet, indices_of(alphabet, text)[i]) == text[i] by {
        lemma_symbol_at_index_of(alphabet, text[i]);
    }
    assert(text_of(alphabet, indices_of(alphabet, text)) =~= text);
}

/// In an alphabet without duplicates, positions of the alphabet spell a
/// text over the alphabet whose symbols stand for those positions again.
pub proof fn lemma_indices_of_text_of(alphabet: Seq<char>, indices: Seq<int>)
    requires
        alphabet.no_duplicates(),
        in_range(indices, alphabet.len() as int),
    ensures
        spells(alphabet, text_of(alphabet, indices)),
        indices_of(alphabet, text_of(alphabet, indices)) == indices,
{
    let text = text_of(alphabet, indices);
    assert forall|i: int| 0 <= i < text.len() implies alphabet.contains(#[trigger] text[i])
        && index_of(alphabet, text[i]) == indices[i] by {
        lemma_index_of_symbol_at(alphabet, indices[i]);
    }
    assert(indices_of(alphabet, text) =~= indices);
}

/// The default alphabet holds each of the 95 printable symbols of ASCII,
/// from the space to the tilde, exactly once, and nothing else.
pub proof fn lemma_ascii_alphabet()
    ensures
        ASCII_ALPHABET@.len() == 95,
        ASCII_ALPHABET@.no_duplicates(),
        forall|symbol: char| ASCII_ALPHABET@.contains(symbol) <==> ' ' <= symbol <= '~',
{
    reveal_strlit(
        r#" 1234567890!@#$%^&*()`~-_=+abcdefghijklmnopqrstuvwxyzABCDEFGHIJKLMNOPQRSTUVWXYZ[]{}\|;:'",.<>/?"#,
    );
    let alphabet = ASCII_ALPHABET@;
    let codes = alphabet.map_values(|symbol: char| symbol as int);
    let printable = set_int_range(0x20, 0x7f);
    assert(alphabet.no_duplicates());
    assert(codes.no_duplicates());
    assert(codes.to_set().subset_of(printable));
    codes.unique_seq_to_set();
    seq_to_set_is_finite(codes);
    lemma_int_range(0x20, 0x7f);
    lemma_subset_equality(codes.to_set(), printable);
    assert forall|symbol: char| ' ' <= symbol <= '~' implies alphabet.contains(symbol) by {
        assert(printable.contains(symbol as int));
        assert(codes.to_set().contains(symbol as int));
        let at = choose|at: int| 0 <= at < codes.len() && codes[at] == symbol as int;
        assert(alphabet[at] == symbol);
    }
}

} // verus!
