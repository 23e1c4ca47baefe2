//! The one-time pad: an alphabet and a queue of pad indices that encoding
//! and decoding use up from the front.
//!
//! Every operation that can fail checks its whole input before it touches
//! the queue, so a failed call leaves the pad as it found it.

use crate::alphabet::{
    in_range, index_of, indices_of, is_first_foreign, is_first_occurrence, lemma_index_of,
    lemma_index_of_symbol_at, spells, symbol_at, text_of, ASCII_ALPHABET,
};
use crate::cipher::{
    decode_index, decode_scalar, decode_text, encode_index, encode_scalar, encode_text,
};
use crate::error::OneTimePadError;
use crate::random::random_index;
use crate::text::symbols_of;
use rand::thread_rng;
use std::collections::VecDeque;
use vstd::prelude::*;

verus! {

/// The result of an encoding operation from [`OneTimePad`].
#[derive(Debug)]
pub struct EncodingResult {
    /// The cipher text produced from the encoding operation.
    pub cipher_text: String,
    /// The pad data used in the encoding operation.
    pub pad: String,
}

impl Clone for EncodingResult {
    fn clone(&self) -> (copy: Self)
        ensures
            copy.cipher_text@ == self.cipher_text@,
            copy.pad@ == self.pad@,
    {
        Self { cipher_text: self.cipher_text.clone(), pad: self.pad.clone() }
    }
}

/// A struct containing the state of a one time pad: an alphabet, and a
/// buffer of pad indices which is used to encode and decode strings, the
/// index that is used next first.
///
/// ## Encoding
/// To encode a string with the default alphabet:
/// ```
/// use onetimepad::OneTimePad;
///
/// let mut otp = OneTimePad::new();
/// otp.push_to_pad("8t5l!Ok2v$q4e3/S3dOLztDY").unwrap();
/// let res = otp.encode("Never gonna give you up.").unwrap();
/// println!("{}", res.cipher_text);
/// ```
///
/// ## Decoding
/// To decode a string with the default alphabet:
/// ```
/// use onetimepad::OneTimePad;
///
/// let mut otp = OneTimePad::new();
/// otp.push_to_pad("kgx:?exP2B8").unwrap();
/// let res = otp.decode("g2Vt1~.UjTq").unwrap();
/// println!("{}", res);
/// ```
pub struct OneTimePad {
    alphabet: Vec<char>,
    pad_buffer: VecDeque<usize>,
}

/// The indices that a buffer of scalars holds.
spec fn as_indices(scalars: Seq<usize>) -> Seq<int> {
    scalars.map_values(|scalar: usize| scalar as int)
}

impl OneTimePad {
    /// The symbols of the alphabet, in order.
    pub closed spec fn alphabet(&self) -> Seq<char> {
        self.alphabet@
    }

    /// The buffered pad indices, the next one to be used first.
    pub closed spec fn pad(&self) -> Seq<int> {
        as_indices(self.pad_buffer@)
    }

    /// Every buffered pad index is a position of the alphabet.
    pub open spec fn wf(&self) -> bool {
        in_range(self.pad(), self.alphabet().len() as int)
    }

    /// Creates a new [`OneTimePad`] instance with the default alphabet,
    /// which covers ASCII, except control characters.
    pub fn new() -> (otp: Self)
        ensures
            otp.wf(),
            otp.alphabet() == ASCII_ALPHABET@,
            otp.pad() == Seq::<int>::empty(),
    {
        Self::new_with_alphabet(ASCII_ALPHABET)
    }

    /// Creates a new [`OneTimePad`] instance with a custom alphabet. The
    /// first symbol in the string is numbered 0, and the number goes up
    /// with the position of the symbol. A symbol that is repeated stands
    /// for its first position only.
    pub fn new_with_alphabet(alphabet: &str) -> (otp: Self)
        ensures
            otp.wf(),
            otp.alphabet() == alphabet@,
            otp.pad() == Seq::<int>::empty(),
    {
        let otp = Self { alphabet: symbols_of(alphabet), pad_buffer: VecDeque::new() };
        assert(otp.pad() =~= Seq::<int>::empty());
        otp
    }

    /// The number of symbols in the alphabet.
    pub fn alphabet_len(&self) -> (len: usize)
        ensures
            len == self.alphabet().len(),
    {
        self.alphabet.len()
    }

    /// Whether no symbol occurs twice in the alphabet. Only then does
    /// every position have a symbol of its own, and decoding give back
    /// what was encoded.
    pub fn has_distinct_symbols(&self) -> (distinct: bool)
        ensures
            distinct == self.alphabet().no_duplicates(),
    {
        let mut i: usize = 0;
        while i < self.alphabet.len()
            invariant
                i <= self.alphabet@.len(),
                forall|k: int|
                    0 <= k < i ==> index_of(self.alphabet@, #[trigger] self.alphabet@[k]) == k,
            decreases self.alphabet@.len() - i,
        {
            let first = self.char_to_scalar(self.alphabet[i]);
            if first.is_err() || first.unwrap() != i {
                proof {
                    if self.alphabet@.no_duplicates() {
                        lemma_index_of_symbol_at(self.alphabet@, i as int);
                    }
                }
                return false;
            }
            i += 1;
        }
        true
    }

    /// The index that `ch` stands for: its first position in the alphabet.
    /// Fails with [`OneTimePadError::CharacterNotInAlphabet`] where the
    /// alphabet does not hold `ch`.
    pub fn char_to_scalar(&self, ch: char) -> (scalar: Result<usize, OneTimePadError>)
        ensures
            match scalar {
                Ok(index) => self.alphabet().contains(ch) && index == index_of(
                    self.alphabet(),
                    ch,
                ),
                Err(error) => !self.alphabet().contains(ch) && error
                    == OneTimePadError::CharacterNotInAlphabet(ch),
            },
    {
        let mut index: usize = 0;
        while index < self.alphabet.len()
            invariant
                index <= self.alphabet@.len(),
                forall|j: int| 0 <= j < index ==> self.alphabet@[j] != ch,
            decreases self.alphabet@.len() - index,
        {
            if self.alphabet[index] == ch {
                proof {
                    assert(is_first_occurrence(self.alphabet@, ch, index as int));
                    lemma_index_of(self.alphabet@, ch);
                }
                return Ok(index);
            }
            index += 1;
        }
        Err(OneTimePadError::CharacterNotInAlphabet(ch))
    }

    /// The symbol at position `sc`, counted around the alphabet: a
    /// position past the end goes on from the start.
    pub fn scalar_to_char(&self, sc: usize) -> (symbol: char)
        requires
            self.alphabet().len() > 0,
        ensures
            symbol == symbol_at(self.alphabet(), sc as int),
    {
        let sc = sc % self.alphabet.len();
        self.alphabet[sc]
    }

    /// The number of pad indices in the buffer.
    pub fn pad_len(&self) -> (len: usize)
        ensures
            len == self.pad().len(),
    {
        self.pad_buffer.len()
    }

    /// Pushes one index to the end of the pad buffer. This is the way in
    /// for pad material from a random source of the caller's own.
    pub fn push_scalar(&mut self, sc: usize)
        requires
            old(self).wf(),
            sc < old(self).alphabet().len(),
        ensures
            final(self).wf(),
            final(self).alphabet() == old(self).alphabet(),
            final(self).pad() == old(self).pad().push(sc as int),
    {
        self.pad_buffer.push_back(sc);
        assert(self.pad() =~= old(self).pad().push(sc as int));
    }

    /// The index of every symbol of `symbols`, or the error that names
    /// the first symbol that the alphabet does not hold.
    fn scalars_of(&self, symbols: &Vec<char>) -> (scalars: Result<Vec<usize>, OneTimePadError>)
        ensures
            match scalars {
                Ok(found) => {
                    &&& spells(self.alphabet(), symbols@)
                    &&& found@.len() == symbols@.len()
                    &&& forall|j: int|
                        0 <= j < found@.len() ==> #[trigger] found@[j] < self.alphabet().len()
                            && found@[j] == index_of(self.alphabet(), symbols@[j])
                },
                Err(error) => exists|at: int|
                    is_first_foreign(self.alphabet(), symbols@, at) && error
                        == OneTimePadError::CharacterNotInAlphabet(symbols@[at]),
            },
    {
        let mut found: Vec<usize> = Vec::new();
        let mut i: usize = 0;
        while i < symbols.len()
            invariant
                i <= symbols@.len(),
                found@.len() == i,
                forall|j: int| 0 <= j < i ==> self.alphabet@.contains(#[trigger] symbols@[j]),
                forall|j: int|
                    0 <= j < i ==> #[trigger] found@[j] < self.alphabet@.len() && found@[j]
                        == index_of(self.alphabet@, symbols@[j]),
            decreases symbols@.len() - i,
        {
            match self.char_to_scalar(symbols[i]) {
                Ok(index) => {
                    proof {
                        lemma_index_of(self.alphabet@, symbols@[i as int]);
                    }
                    found.push(index);
                },
                Err(error) => {
                    assert(is_first_foreign(self.alphabet@, symbols@, i as int));
                    return Err(error);
                },
            }
            i += 1;
        }
        Ok(found)
    }

    /// The checks that come before any pad index is used: the buffer
    /// holds an index for every symbol of `text`, and then every symbol
    /// of `text` stands for an index, which are handed back.
    fn checked_scalars(&self, text: &str) -> (scalars: Result<Vec<usize>, OneTimePadError>)
        ensures
            match scalars {
                Ok(found) => {
                    &&& text@.len() <= self.pad().len()
                    &&& spells(self.alphabet(), text@)
                    &&& found@.len() == text@.len()
                    &&& forall|j: int|
                        0 <= j < found@.len() ==> #[trigger] found@[j] < self.alphabet().len()
                            && found@[j] == index_of(self.alphabet(), text@[j])
                },
                Err(OneTimePadError::PadBufferNotLongEnough) => self.pad().len() < text@.len(),
                Err(OneTimePadError::CharacterNotInAlphabet(symbol)) => {
                    &&& text@.len() <= self.pad().len()
                    &&& exists|at: int|
                        is_first_foreign(self.alphabet(), text@, at) && symbol == text@[at]
                },
            },
    {
        let symbols = symbols_of(text);
        if self.pad_buffer.len() < symbols.len() {
            return Err(OneTimePadError::PadBufferNotLongEnough);
        }
        self.scalars_of(&symbols)
    }

    /// Pushes a string of symbols to the end of the pad buffer, each as
    /// the index that it stands for.
    ///
    /// Fails with [`OneTimePadError::CharacterNotInAlphabet`], naming the
    /// first such symbol, where a symbol is not in the alphabet of this
    /// one time pad; nothing has been pushed then.
    pub fn push_to_pad(&mut self, extra_pad_characters: &str) -> (result: Result<
        (),
        OneTimePadError,
    >)
        requires
            old(self).wf(),
        ensures
            final(self).wf(),
            final(self).alphabet() == old(self).alphabet(),
            match result {
                Ok(()) => {
                    &&& spells(old(self).alphabet(), extra_pad_characters@)
                    &&& final(self).pad() == old(self).pad() + indices_of(
                        old(self).alphabet(),
                        extra_pad_characters@,
                    )
                },
                Err(error) => {
                    &&& exists|at: int|
                        is_first_foreign(old(self).alphabet(), extra_pad_characters@, at) && error
                            == OneTimePadError::CharacterNotInAlphabet(extra_pad_characters@[at])
                    &&& final(self).pad() == old(self).pad()
                },
            },
    {
        let symbols = symbols_of(extra_pad_characters);
        let scalars = match self.scalars_of(&symbols) {
            Ok(scalars) => scalars,
            Err(error) => {
                return Err(error);
            },
        };
        let mut i: usize = 0;
        while i < scalars.len()
            invariant
                i <= scalars@.len(),
                self.wf(),
                self.alphabet() == old(self).alphabet(),
                self.pad() == old(self).pad() + as_indices(scalars@.take(i as int)),
                forall|j: int|
                    0 <= j < scalars@.len() ==> #[trigger] scalars@[j] < self.alphabet().len(),
            decreases scalars@.len() - i,
        {
            self.push_scalar(scalars[i]);
            i += 1;
            assert(self.pad() =~= old(self).pad() + as_indices(scalars@.take(i as int)));
        }
        assert(as_indices(scalars@.take(scalars@.len() as int)) =~= indices_of(
            self.alphabet(),
            extra_pad_characters@,
        ));
        Ok(())
    }

    /// Generates a random pad capable of encoding or decoding a string of
    /// the given size: pushes `size` random indices of the alphabet to
    /// the end of the pad buffer. The random generator is not guaranteed
    /// to be secure.
    pub fn generate_pad(&mut self, size: usize)
        requires
            old(self).wf(),
            size > 0 ==> old(self).alphabet().len() > 0,
        ensures
            final(self).wf(),
            final(self).alphabet() == old(self).alphabet(),
            final(self).pad().len() == old(self).pad().len() + size,
            final(self).pad().take(old(self).pad().len() as int) == old(self).pad(),
    {
        let mut rng = thread_rng();
        let mut i: usize = 0;
        while i < size
            invariant
                i <= size,
                size > 0 ==> self.alphabet().len() > 0,
                self.wf(),
                self.alphabet() == old(self).alphabet(),
                self.pad().len() == old(self).pad().len() + i,
                self.pad().take(old(self).pad().len() as int) == old(self).pad(),
            decreases size - i,
        {
            let rand_val = random_index(&mut rng, self.alphabet.len());
            let ghost before = self.pad();
            self.push_scalar(rand_val);
            i += 1;
            assert(self.pad().take(old(self).pad().len() as int) =~= before.take(
                old(self).pad().len() as int,
            ));
        }
    }

    /// Empties the pad buffer completely.
    pub fn clear_pad(&mut self)
        ensures
            final(self).wf(),
            final(self).alphabet() == old(self).alphabet(),
            final(self).pad() == Seq::<int>::empty(),
    {
        self.pad_buffer.clear();
        assert(self.pad() =~= Seq::<int>::empty());
    }

    /// Encodes a string to cipher text: each symbol against the pad index
    /// at the front of the buffer, which is used up by it.
    ///
    /// The following requirements must be met for this to succeed:
    /// - The pad must contain at least as many indices as the input has
    ///   symbols, otherwise [`OneTimePadError::PadBufferNotLongEnough`] is
    ///   returned.
    /// - The input must not contain any symbol that is not in the
    ///   alphabet, otherwise [`OneTimePadError::CharacterNotInAlphabet`]
    ///   is returned, with the first such symbol.
    ///
    /// In the event that an error is returned, the pad has not been
    /// changed.
    pub fn encode(&mut self, plain_text: &str) -> (result: Result<EncodingResult, OneTimePadError>)
        requires
            old(self).wf(),
        ensures
            final(self).wf(),
            final(self).alphabet() == old(self).alphabet(),
            match result {
                Ok(encoded) => {
                    let used = old(self).pad().take(plain_text@.len() as int);
                    &&& plain_text@.len() <= old(self).pad().len()
                    &&& spells(old(self).alphabet(), plain_text@)
                    &&& encoded.cipher_text@ == encode_text(
                        old(self).alphabet(),
                        plain_text@,
                        used,
                    )
                    &&& encoded.pad@ == text_of(old(self).alphabet(), used)
                    &&& final(self).pad() == old(self).pad().skip(plain_text@.len() as int)
                },
                Err(OneTimePadError::PadBufferNotLongEnough) => {
                    &&& old(self).pad().len() < plain_text@.len()
                    &&& final(self).pad() == old(self).pad()
                },
                Err(OneTimePadError::CharacterNotInAlphabet(symbol)) => {
                    &&& plain_text@.len() <= old(self).pad().len()
                    &&& exists|at: int|
                        is_first_foreign(old(self).alphabet(), plain_text@, at) && symbol
                            == plain_text@[at]
                    &&& final(self).pad() == old(self).pad()
                },
            },
    {
        // Check before modifying pad
        let scalars = match self.checked_scalars(plain_text) {
            Ok(scalars) => scalars,
            Err(error) => {
                return Err(error);
            },
        };
        let ghost buffered = self.pad_buffer@;
        let ghost alphabet = self.alphabet@;
        let ghost size = alphabet.len() as int;
        let mut cipher_text = String::new();
        let mut pad = String::new();
        let mut i: usize = 0;
        while i < scalars.len()
            invariant
                i <= scalars@.len() == plain_text@.len() <= buffered.len(),
                self.alphabet@ == alphabet,
                size == alphabet.len(),
                self.pad_buffer@ == buffered.skip(i as int),
                in_range(as_indices(buffered), size),
                forall|j: int|
                    0 <= j < scalars@.len() ==> #[trigger] scalars@[j] < size && scalars@[j]
                        == index_of(alphabet, plain_text@[j]),
                cipher_text@.len() == i,
                pad@.len() == i,
                forall|j: int|
                    0 <= j < i ==> #[trigger] cipher_text@[j] == symbol_at(
                        alphabet,
                        encode_index(scalars@[j] as int, buffered[j] as int, size),
                    ),
                forall|j: int|
                    0 <= j < i ==> #[trigger] pad@[j] == symbol_at(alphabet, buffered[j] as int),
            decreases scalars@.len() - i,
        {
            let v = scalars[i];
            let p = self.pad_buffer.pop_front().unwrap();
            assert(p == buffered[i as int] && p < size) by {
                assert(as_indices(buffered)[i as int] == buffered[i as int]);
            }
            let c = encode_scalar(v, p, self.alphabet.len());
            cipher_text.push(self.scalar_to_char(c));
            pad.push(self.scalar_to_char(p));
            i += 1;
            assert(self.pad_buffer@ =~= buffered.skip(i as int));
        }
        proof {
            let used = old(self).pad().take(plain_text@.len() as int);
            assert(cipher_text@ =~= encode_text(alphabet, plain_text@, used));
            assert(pad@ =~= text_of(alphabet, used));
            assert(self.pad() =~= old(self).pad().skip(plain_text@.len() as int));
        }
        Ok(EncodingResult { cipher_text, pad })
    }

    /// Decodes cipher text to plain text: each symbol against the pad
    /// index at the front of the buffer, which is used up by it.
    ///
    /// The following requirements must be met for this to succeed:
    /// - The pad must contain at least as many indices as the input has
    ///   symbols, otherwise [`OneTimePadError::PadBufferNotLongEnough`] is
    ///   returned.
    /// - The input must not contain any symbol that is not in the
    ///   alphabet, otherwise [`OneTimePadError::CharacterNotInAlphabet`]
    ///   is returned, with the first such symbol.
    ///
    /// In the event that an error is returned, the pad has not been
    /// changed.
    pub fn decode(&mut self, cipher_text: &str) -> (result: Result<String, OneTimePadError>)
        requires
            old(self).wf(),
        ensures
            final(self).wf(),
            final(self).alphabet() == old(self).alphabet(),
            match result {
                Ok(plain_text) => {
                    let used = old(self).pad().take(cipher_text@.len() as int);
                    &&& cipher_text@.len() <= old(self).pad().len()
                    &&& spells(old(self).alphabet(), cipher_text@)
                    &&& plain_text@ == decode_text(old(self).alphabet(), cipher_text@, used)
                    &&& final(self).pad() == old(self).pad().skip(cipher_text@.len() as int)
                },
                Err(OneTimePadError::PadBufferNotLongEnough) => {
                    &&& old(self).pad().len() < cipher_text@.len()
                    &&& final(self).pad() == old(self).pad()
                },
                Err(OneTimePadError::CharacterNotInAlphabet(symbol)) => {
                    &&& cipher_text@.len() <= old(self).pad().len()
                    &&& exists|at: int|
                        is_first_foreign(old(self).alphabet(), cipher_text@, at) && symbol
                            == cipher_text@[at]
                    &&& final(self).pad() == old(self).pad()
                },
            },
    {
        // Check before modifying pad
        let scalars = match self.checked_scalars(cipher_text) {
            Ok(scalars) => scalars,
            Err(error) => {
                return Err(error);
            },
        };
        let ghost buffered = self.pad_buffer@;
        let ghost alphabet = self.alphabet@;
        let ghost size = alphabet.len() as int;
        let mut plaintext = String::new();
        let mut i: usize = 0;
        while i < scalars.len()
            invariant
                i <= scalars@.len() == cipher_text@.len() <= buffered.len(),
                self.alphabet@ == alphabet,
                size == alphabet.len(),
                self.pad_buffer@ == buffered.skip(i as int),
                in_range(as_indices(buffered), size),
                forall|j: int|
                    0 <= j < scalars@.len() ==> #[trigger] scalars@[j] < size && scalars@[j]
                        == index_of(alphabet, cipher_text@[j]),
                plaintext@.len() == i,
                forall|j: int|
                    0 <= j < i ==> #[trigger] plaintext@[j] == symbol_at(
                        alphabet,
                        decode_index(scalars@[j] as int, buffered[j] as int, size),
                    ),
            decreases scalars@.len() - i,
        {
            let v = scalars[i];
            let p = self.pad_buffer.pop_front().unwrap();
            assert(p == buffered[i as int] && p < size) by {
                assert(as_indices(buffered)[i as int] == buffered[i as int]);
            }
            let c = decode_scalar(v, p, self.alphabet.len());
            plaintext.push(self.scalar_to_char(c));
            i += 1;
            assert(self.pad_buffer@ =~= buffered.skip(i as int));
        }
        proof {
            let used = old(self).pad().take(cipher_text@.len() as int);
            assert(plaintext@ =~= decode_text(alphabet, cipher_text@, used));
            assert(self.pad() =~= old(self).pad().skip(cipher_text@.len() as int));
        }
        Ok(plaintext)
    }
}

impl Clone for OneTimePad {
    /// A pad of its own with the same alphabet and the same buffered
    /// indices.
    fn clone(&self) -> (copy: Self)
        ensures
            copy.alphabet() == self.alphabet(),
            copy.pad() == self.pad(),
    {
        let copy = Self { alphabet: self.alphabet.clone(), pad_buffer: self.pad_buffer.clone() };
        assert(copy.alphabet@ =~= self.alphabet@);
        assert(copy.pad_buffer@ =~= self.pad_buffer@);
        copy
    }
}

} // verus!
