use lsystem::errors::LSystemError;
use lsystem::token::{Token, TokenId};

#[test]
fn token_parameter_parsing() {
    assert_eq!(Token::new("F12").unwrap().param(), 12);
    assert_eq!(Token::new("F").unwrap().param(), 0);
    assert_eq!(Token::new("F999").unwrap().param(), 255);
}

#[test]
fn token_parameter_edge_names() {
    assert_eq!(Token::new("").unwrap().param(), 0);
    assert_eq!(Token::new("42").unwrap().param(), 42);
    assert_eq!(Token::new("F0").unwrap().param(), 0);
    assert_eq!(Token::new("F255").unwrap().param(), 255);
    assert_eq!(Token::new("F256").unwrap().param(), 255);
    assert_eq!(Token::new("a1b2").unwrap().param(), 2);
    assert_eq!(Token::new("F000000000000000000007").unwrap().param(), 7);
}

#[test]
fn token_rejects_space() {
    match Token::new("space cadet") {
        Err(LSystemError::InvalidToken(name)) => assert_eq!(name, "space cadet"),
        other => panic!("expected InvalidToken, got {:?}", other),
    }
    assert_eq!(Token::new("fine!").unwrap().name(), "fine!");
}

#[test]
fn token_id_round_trip() {
    for i in 0..128u8 {
        for f in [false, true] {
            let id = TokenId::new(i, f);
            assert_eq!(id.value(), i);
            assert_eq!(id.has_param(), f);
        }
    }
}

#[test]
fn token_id_textual_form() {
    assert_eq!(TokenId::new(0, false).to_text(), "0");
    assert_eq!(TokenId::new(7, true).to_text(), "7p");
    assert_eq!(TokenId::new(12, false).to_text(), "12");
    assert_eq!(TokenId::new(100, false).to_text(), "100");
    assert_eq!(TokenId::new(119, true).to_text(), "119p");
    assert_eq!(TokenId::new(127, true).to_text(), "127p");
}

#[test]
fn token_id_equality_includes_flag() {
    assert_eq!(TokenId::new(5, true), TokenId::new(5, true));
    assert_ne!(TokenId::new(5, true), TokenId::new(5, false));
    assert_ne!(TokenId::new(5, false), TokenId::new(6, false));
}
