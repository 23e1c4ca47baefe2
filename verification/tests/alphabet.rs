use onetimepad::alphabet::ASCII_ALPHABET;
use onetimepad::{OneTimePad, OneTimePadError};

#[test]
fn default_alphabet_is_the_printable_ascii_set() {
    assert_eq!(
        ASCII_ALPHABET,
        " 1234567890!@#$%^&*()`~-_=+abcdefghijklmnopqrstuvwxyzABCDEFGHIJKLMNOPQRSTUVWXYZ[]{}\\|;:'\",.<>/?"
    );
    assert_eq!(ASCII_ALPHABET.chars().count(), 95);
    for code in 0x20u8..=0x7e {
        assert!(ASCII_ALPHABET.contains(code as char));
    }
    let otp = OneTimePad::new();
    assert_eq!(otp.alphabet_len(), 95);
    assert_eq!(otp.pad_len(), 0);
    assert!(otp.has_distinct_symbols());
}

#[test]
fn default_alphabet_positions() {
    let otp = OneTimePad::new();
    assert_eq!(otp.char_to_scalar(' '), Ok(0));
    assert_eq!(otp.char_to_scalar('1'), Ok(1));
    assert_eq!(otp.char_to_scalar('0'), Ok(10));
    assert_eq!(otp.char_to_scalar('~'), Ok(22));
    assert_eq!(otp.char_to_scalar('a'), Ok(27));
    assert_eq!(otp.char_to_scalar('Z'), Ok(78));
    assert_eq!(otp.char_to_scalar('?'), Ok(94));
    assert_eq!(otp.scalar_to_char(0), ' ');
    assert_eq!(otp.scalar_to_char(27), 'a');
    assert_eq!(otp.scalar_to_char(94), '?');
}

#[test]
fn every_position_gives_its_symbol_and_back() {
    let otp = OneTimePad::new();
    for (position, symbol) in ASCII_ALPHABET.chars().enumerate() {
        assert_eq!(otp.scalar_to_char(position), symbol);
        assert_eq!(otp.char_to_scalar(symbol), Ok(position));
    }
}

#[test]
fn symbols_outside_the_alphabet_have_no_index() {
    let otp = OneTimePad::new();
    assert_eq!(
        otp.char_to_scalar('\n'),
        Err(OneTimePadError::CharacterNotInAlphabet('\n'))
    );
    assert_eq!(
        otp.char_to_scalar('é'),
        Err(OneTimePadError::CharacterNotInAlphabet('é'))
    );
    let otp = OneTimePad::new_with_alphabet("ABCDE");
    assert_eq!(
        otp.char_to_scalar('a'),
        Err(OneTimePadError::CharacterNotInAlphabet('a'))
    );
    assert_eq!(otp.char_to_scalar('E'), Ok(4));
}

#[test]
fn positions_wrap_around_the_alphabet() {
    let otp = OneTimePad::new_with_alphabet("ABCDE");
    assert_eq!(otp.scalar_to_char(4), 'E');
    assert_eq!(otp.scalar_to_char(5), 'A');
    assert_eq!(otp.scalar_to_char(7), 'C');
    assert_eq!(otp.scalar_to_char(usize::MAX), otp.scalar_to_char(usize::MAX % 5));
}

#[test]
fn a_repeated_symbol_stands_for_its_first_position() {
    let otp = OneTimePad::new_with_alphabet("ABCA");
    assert!(!otp.has_distinct_symbols());
    assert_eq!(otp.alphabet_len(), 4);
    assert_eq!(otp.char_to_scalar('A'), Ok(0));
    assert_eq!(otp.scalar_to_char(3), 'A');
    assert!(OneTimePad::new_with_alphabet("ABCDE").has_distinct_symbols());
    assert!(OneTimePad::new_with_alphabet("").has_distinct_symbols());
    assert!(!OneTimePad::new_with_alphabet("ABCDEE").has_distinct_symbols());
}

#[test]
fn with_a_repeated_symbol_decoding_may_not_give_the_text_back() {
    // B is 1, the pad C is 2: the cipher index is 3, the second A, which
    // reads as index 0 on the way back.
    let mut otp = OneTimePad::new_with_alphabet("ABCA");
    otp.push_to_pad("C").unwrap();
    let res = otp.encode("B").unwrap();
    assert_eq!(res.cipher_text, "A");
    otp.push_to_pad(&res.pad).unwrap();
    assert_eq!(otp.decode(&res.cipher_text).unwrap(), "C");
}
