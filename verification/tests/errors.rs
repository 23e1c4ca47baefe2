use onetimepad::{OneTimePad, OneTimePadError};

#[test]
fn message_of_a_pad_that_is_too_short() {
    assert_eq!(
        OneTimePadError::PadBufferNotLongEnough.message(),
        "The pad buffer isn't long enough for the input string to be processed."
    );
}

#[test]
fn message_names_the_symbol() {
    assert_eq!(
        OneTimePadError::CharacterNotInAlphabet('W').message(),
        "The character 'W' is not in the alphabet of this one time pad."
    );
    assert_eq!(
        OneTimePadError::CharacterNotInAlphabet('é').message(),
        "The character 'é' is not in the alphabet of this one time pad."
    );
}

#[test]
fn a_failed_push_pushes_nothing() {
    let mut otp = OneTimePad::new_with_alphabet("ABCDE");
    otp.push_to_pad("BCD").unwrap();
    assert_eq!(
        otp.push_to_pad("EAXAY"),
        Err(OneTimePadError::CharacterNotInAlphabet('X'))
    );
    assert_eq!(otp.pad_len(), 3);
    let res = otp.encode("BED").unwrap();
    assert_eq!(res.pad, "BCD");
    assert_eq!(res.cipher_text, "ACA");
}

#[test]
fn a_failed_encode_uses_no_pad() {
    let mut otp = OneTimePad::new_with_alphabet("ABCDE");
    otp.push_to_pad("BCD").unwrap();
    let err = otp.encode("BEx").expect_err("x is not in the alphabet");
    assert_eq!(err, OneTimePadError::CharacterNotInAlphabet('x'));
    assert_eq!(otp.pad_len(), 3);
    let res = otp.encode("BED").unwrap();
    assert_eq!(res.pad, "BCD");
    assert_eq!(res.cipher_text, "ACA");
}

#[test]
fn a_failed_decode_uses_no_pad() {
    let mut otp = OneTimePad::new_with_alphabet("ABCDE");
    otp.push_to_pad("BCD").unwrap();
    assert_eq!(
        otp.decode("AyA"),
        Err(OneTimePadError::CharacterNotInAlphabet('y'))
    );
    assert_eq!(otp.pad_len(), 3);
    assert_eq!(otp.decode("ACA").unwrap(), "BED");
}

#[test]
fn the_first_foreign_symbol_is_named() {
    let mut otp = OneTimePad::new_with_alphabet("ABCDE");
    otp.push_to_pad("AAAA").unwrap();
    assert_eq!(
        otp.encode("AzBy").expect_err("z and y are not in the alphabet"),
        OneTimePadError::CharacterNotInAlphabet('z')
    );
    assert_eq!(
        otp.decode("yAz"),
        Err(OneTimePadError::CharacterNotInAlphabet('y'))
    );
    assert_eq!(
        otp.push_to_pad("hello"),
        Err(OneTimePadError::CharacterNotInAlphabet('h'))
    );
    assert_eq!(otp.pad_len(), 4);
}

#[test]
fn errors_compare_and_copy() {
    let error = OneTimePadError::CharacterNotInAlphabet('W');
    let copy = error;
    assert_eq!(error, copy);
    assert_ne!(error, OneTimePadError::CharacterNotInAlphabet('w'));
    assert_ne!(error, OneTimePadError::PadBufferNotLongEnough);
    assert_eq!(format!("{:?}", error), "CharacterNotInAlphabet('W')");
}
