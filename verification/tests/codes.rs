use peerlink::code::{digit, generate_access_code, symbol, SessionCode, CODE_SPACE};

#[test]
fn text_of_first_and_last_code() {
    assert_eq!(SessionCode::from_index(0).unwrap().to_text(), "AAAAAA");
    assert_eq!(SessionCode::from_index(1).unwrap().to_text(), "AAAAAB");
    assert_eq!(SessionCode::from_index(26).unwrap().to_text(), "AAAAA0");
    assert_eq!(SessionCode::from_index(35).unwrap().to_text(), "AAAAA9");
    assert_eq!(SessionCode::from_index(36).unwrap().to_text(), "AAAABA");
    assert_eq!(SessionCode::from_index(CODE_SPACE - 1).unwrap().to_text(), "999999");
    assert!(SessionCode::from_index(CODE_SPACE).is_none());
    assert!(SessionCode::from_index(u32::MAX).is_none());
}

#[test]
fn code_space_is_thirty_six_to_the_sixth() {
    assert_eq!(CODE_SPACE as u64, 36u64.pow(6));
}

#[test]
fn text_is_read_in_either_case() {
    let upper = SessionCode::from_text("AB12YZ").unwrap();
    let lower = SessionCode::from_text("ab12yz").unwrap();
    assert_eq!(upper, lower);
    assert_eq!(lower.to_text(), "AB12YZ");
    // A=0 B=1 '1'=27 '2'=28 Y=24 Z=25
    let expected: u32 = ((((0 * 36 + 1) * 36 + 27) * 36 + 28) * 36 + 24) * 36 + 25;
    assert_eq!(upper.to_index(), expected);
}

#[test]
fn text_that_is_no_code_is_refused() {
    assert!(SessionCode::from_text("").is_none());
    assert!(SessionCode::from_text("ABCDE").is_none());
    assert!(SessionCode::from_text("ABCDEFG").is_none());
    assert!(SessionCode::from_text("ABC-12").is_none());
    assert!(SessionCode::from_text("ABC 12").is_none());
    assert!(SessionCode::from_text("ABCDE\u{e9}").is_none());
}

#[test]
fn text_and_index_round_trip() {
    for index in [0u32, 1, 35, 36, 1_295, 1_296, 60_466_175, 60_466_176, 2_176_782_335] {
        let code = SessionCode::from_index(index).unwrap();
        assert_eq!(code.to_index(), index);
        assert_eq!(SessionCode::from_text(&code.to_text()), Some(code));
    }
}

#[test]
fn symbols_and_digits() {
    assert_eq!(symbol(0), 'A');
    assert_eq!(symbol(25), 'Z');
    assert_eq!(symbol(26), '0');
    assert_eq!(symbol(35), '9');
    assert_eq!(digit('A'), Some(0));
    assert_eq!(digit('z'), Some(25));
    assert_eq!(digit('0'), Some(26));
    assert_eq!(digit('9'), Some(35));
    assert_eq!(digit('-'), None);
    assert_eq!(digit('\u{e9}'), None);
    for d in 0..36u8 {
        assert_eq!(digit(symbol(d)), Some(d));
    }
}

#[test]
fn generated_codes_are_canonical() {
    for _ in 0..100 {
        let code = generate_access_code();
        assert_eq!(code.len(), 6);
        assert!(code.chars().all(|c| c.is_ascii_uppercase() || c.is_ascii_digit()));
        assert!(SessionCode::from_text(&code).is_some());
    }
}

#[test]
fn generated_codes_vary() {
    let first = generate_access_code();
    let mut differs = false;
    for _ in 0..50 {
        if generate_access_code() != first {
            differs = true;
        }
    }
    assert!(differs);
}
