//! The transform: an index of the text and an index of the pad are
//! combined modulo the size of the alphabet, by subtraction to encode and
//! by addition to decode.

use crate::alphabet::{
    in_range, indices_of, lemma_indices_of_text_of, lemma_text_of_indices_of, spells, text_of,
};
use vstd::arithmetic::div_mod::{
    lemma_add_mod_noop_right, lemma_fundamental_div_mod_converse, lemma_mod_bound,
    lemma_small_mod,
};
use vstd::prelude::*;

verus! {

/// The cipher index for a plain index and a pad index, in an alphabet of
/// `size` symbols: their difference, wrapped into `0..size`.
pub open spec fn encode_index(plain: int, pad: int, size: int) -> int
    recommends
        size > 0,
{
    (plain - pad) % size
}

/// The plain index for a cipher index and a pad index, in an alphabet of
/// `size` symbols: their sum, wrapped into `0..size`.
pub open spec fn decode_index(cipher: int, pad: int, size: int) -> int
    recommends
        size > 0,
{
    (cipher + pad) % size
}

/// Each plain index encoded against the pad index at the same position.
pub open spec fn encode_indices(plain: Seq<int>, pad: Seq<int>, size: int) -> Seq<int>
    recommends
        size > 0,
        plain.len() <= pad.len(),
{
    Seq::new(plain.len(), |i: int| encode_index(plain[i], pad[i], size))
}

/// Each cipher index decoded against the pad index at the same position.
pub open spec fn decode_indices(cipher: Seq<int>, pad: Seq<int>, size: int) -> Seq<int>
    recommends
        size > 0,
        cipher.len() <= pad.len(),
{
    Seq::new(cipher.len(), |i: int| decode_index(cipher[i], pad[i], size))
}

/// The cipher text for `plain`, encoded symbol by symbol against `pad`.
pub open spec fn encode_text(alphabet: Seq<char>, plain: Seq<char>, pad: Seq<int>) -> Seq<char>
    recommends
        spells(alphabet, plain),
        plain.len() <= pad.len(),
{
    text_of(alphabet, encode_indices(indices_of(alphabet, plain), pad, alphabet.len() as int))
}

/// The plain text for `cipher`, decoded symbol by symbol against `pad`.
pub open spec fn decode_text(alphabet: Seq<char>, cipher: Seq<char>, pad: Seq<int>) -> Seq<char>
    recommends
        spells(alphabet, cipher),
        cipher.len() <= pad.len(),
{
    text_of(alphabet, decode_indices(indices_of(alphabet, cipher), pad, alphabet.len() as int))
}

/// Encodes one index: `plain - pad`, plus `size` where that is negative.
pub(crate) fn encode_scalar(plain: usize, pad: usize, size: usize) -> (cipher: usize)
    requires
        plain < size,
        pad < size,
    ensures
        cipher == encode_index(plain as int, pad as int, size as int),
        cipher < size,
{
    if plain >= pad {
        proof {
            lemma_small_mod((plain - pad) as nat, size as nat);
        }
        plain - pad
    } else {
        proof {
            lemma_fundamental_div_mod_converse(plain - pad, size as int, -1, plain - pad + size);
        }
        size - pad + plain
    }
}

/// Decodes one index: `cipher + pad`, less `size` where that is too large.
pub(crate) fn decode_scalar(cipher: usize, pad: usize, size: usize) -> (plain: usize)
    requires
        cipher < size,
        pad < size,
    ensures
        plain == decode_index(cipher as int, pad as int, size as int),
        plain < size,
{
    if cipher >= size - pad {
        proof {
            lemma_fundamental_div_mod_converse(cipher + pad, size as int, 1, cipher + pad - size);
        }
        cipher - (size - pad)
    } else {
        proof {
            lemma_small_mod((cipher + pad) as nat, size as nat);
        }
        cipher + pad
    }
}

/// Decoding inverts encoding: an index that was encoded against a pad
/// index comes back when the result is decoded against the same pad index.
pub proof fn lemma_decode_inverts_encode(plain: int, pad: int, size: int)
    requires
        0 <= plain < size,
    ensures
        0 <= encode_index(plain, pad, size) < size,
        decode_index(encode_index(plain, pad, size), pad, size) == plain,
{
    lemma_mod_bound(plain - pad, size);
    lemma_add_mod_noop_right(pad, plain - pad, size);
    lemma_small_mod(plain as nat, size as nat);
}

/// Decoding inverts encoding, text by text: in an alphabet without
/// duplicates, a plain text over the alphabet that was encoded against
/// pad indices of the alphabet gives a cipher text over the alphabet, of
/// the same length, and decoding that against the same pad indices gives
/// the plain text back.
pub proof fn lemma_decode_text_inverts_encode_text(
    alphabet: Seq<char>,
    plain: Seq<char>,
    pad: Seq<int>,
)
    requires
        alphabet.no_duplicates(),
        spells(alphabet, plain),
        in_range(pad, alphabet.len() as int),
        plain.len() <= pad.len(),
    ensures
        spells(alphabet, encode_text(alphabet, plain, pad)),
        encode_text(alphabet, plain, pad).len() == plain.len(),
        decode_text(alphabet, encode_text(alphabet, plain, pad), pad) == plain,
{
    let size = alphabet.len() as int;
    let cipher_indices = encode_indices(indices_of(alphabet, plain), pad, size);
    let cipher = encode_text(alphabet, plain, pad);
    lemma_text_of_indices_of(alphabet, plain);
    assert forall|i: int| 0 <= i < plain.len() implies 0 <= #[trigger] cipher_indices[i] < size
        && decode_index(cipher_indices[i], pad[i], size) == indices_of(alphabet, plain)[i] by {
        lemma_decode_inverts_encode(indices_of(alphabet, plain)[i], pad[i], size);
    }
    lemma_indices_of_text_of(alphabet, cipher_indices);
    assert(decode_indices(indices_of(alphabet, cipher), pad, size) =~= indices_of(
        alphabet,
        plain,
    ));
}

/// Decoding undoes encoding, from pad text to plain text. In an alphabet
/// without duplicates, take a plain text and a pad text over the
/// alphabet, the pad text at least as long as the plain text. Encoding
/// the plain text uses up the front of the pad, and the pad text that it
/// reports is that front. Decoding the cipher text against a pad of that
/// reported text succeeds and gives the plain text back.
pub proof fn lemma_round_trip(alphabet: Seq<char>, plain: Seq<char>, key: Seq<char>)
    requires
        alphabet.no_duplicates(),
        spells(alphabet, plain),
        spells(alphabet, key),
        plain.len() <= key.len(),
    ensures
        ({
            let length = plain.len() as int;
            let used = indices_of(alphabet, key).take(length);
            let cipher = encode_text(alphabet, plain, used);
            let used_text = text_of(alphabet, used);
            &&& used_text == key.take(length)
            &&& spells(alphabet, used_text)
            &&& spells(alphabet, cipher)
            &&& cipher.len() == used_text.len()
            &&& decode_text(
                alphabet,
                cipher,
                indices_of(alphabet, used_text).take(cipher.len() as int),
            ) == plain
        }),
{
    let length = plain.len() as int;
    let used = indices_of(alphabet, key).take(length);
    let used_text = text_of(alphabet, used);
    lemma_text_of_indices_of(alphabet, key);
    assert(used_text =~= key.take(length));
    assert(in_range(used, alphabet.len() as int));
    lemma_indices_of_text_of(alphabet, used);
    assert(indices_of(alphabet, used_text).take(length) =~= used);
    lemma_decode_text_inverts_encode_text(alphabet, plain, used);
}

/// The boundary of the modular arithmetic. Encoding index 0 against the
/// largest pad index does not leave a negative index: it wraps to the
/// index just above 0, or to 0 itself in an alphabet of one symbol. In an
/// alphabet of at most two symbols that is the largest index. Decoding
/// the result against the same pad index gives 0 back.
pub proof fn lemma_boundary_wraps(size: int)
    requires
        size >= 1,
    ensures
        0 <= encode_index(0, size - 1, size) < size,
        encode_index(0, size - 1, size) == if size == 1 {
            0int
        } else {
            1int
        },
        size <= 2 ==> encode_index(0, size - 1, size) == size - 1,
        decode_index(encode_index(0, size - 1, size), size - 1, size) == 0,
{
    lemma_decode_inverts_encode(0, size - 1, size);
    if size == 1 {
        lemma_fundamental_div_mod_converse(0, size, 0, 0);
    } else {
        lemma_fundamental_div_mod_converse(0 - (size - 1), size, -1, 1);
    }
}

} // verus!
