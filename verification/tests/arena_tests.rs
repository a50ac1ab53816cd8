use lsystem::arena::Arena;
use lsystem::errors::LSystemError;
use lsystem::token::{Token, TokenId};

#[test]
fn arena_basic() {
    let mut arena = Arena::new();

    let a = arena.push_token(Token::new("Hello!").unwrap()).unwrap();
    let b = arena.push_token(Token::new("World").unwrap()).unwrap();

    assert_eq!(a.value(), 0);
    assert_eq!(b.value(), 1);
    assert_eq!(arena.len(), 2);

    let a_ref = arena.get_token(&a).expect("Failed to get a");

    assert_eq!(*a_ref, Token::new("Hello!").unwrap());
    assert_eq!(arena.get_token(&b).unwrap(), &Token::new("World").unwrap());
}

#[test]
fn arena_iterator() {
    let mut arena = Arena::new();

    arena.push_token(Token::new("first").unwrap()).unwrap();
    arena.push_token(Token::new("second").unwrap()).unwrap();
    arena.push_token(Token::new("third").unwrap()).unwrap();

    let mut iter = arena.iter_tokens().iter();

    assert_eq!(iter.next(), Some(&Token::new("first").unwrap()));
    assert_eq!(iter.next(), Some(&Token::new("second").unwrap()));
    assert_eq!(iter.next(), Some(&Token::new("third").unwrap()));
    assert_eq!(iter.next(), None);
}

#[test]
fn arena_enumerate() {
    let mut arena = Arena::new();

    let a = arena.push_token(Token::new("first").unwrap()).unwrap();
    let b = arena.push_token(Token::new("second").unwrap()).unwrap();
    let c = arena.push_token(Token::new("third").unwrap()).unwrap();
    let d = arena.push_token(Token::new("fourth").unwrap()).unwrap();

    let mut enumerator = arena.enumerate();

    assert_eq!(enumerator.next(), Some((a, &Token::new("first").unwrap())));
    assert_eq!(enumerator.next(), Some((b, &Token::new("second").unwrap())));
    assert_eq!(enumerator.next(), Some((c, &Token::new("third").unwrap())));
    assert_eq!(enumerator.next(), Some((d, &Token::new("fourth").unwrap())));
}

#[test]
fn arena_enumerate_keeps_assigned_flags() {
    let mut arena = Arena::new();

    let a = arena.push_token(Token::new("F1").unwrap()).unwrap();
    assert!(a.has_param());
    assert_eq!(a.value(), 0);

    let mut enumerator = arena.enumerate();
    let (id, token) = enumerator.next().unwrap();
    assert_eq!(id, a);
    assert_eq!(token.name(), "F1");
    assert_eq!(enumerator.next(), None);
}

#[test]
fn arena_full_is_an_error() {
    let mut arena = Arena::new();
    for i in 0..128u8 {
        let id = arena.push_token(Token::new("t").unwrap()).unwrap();
        assert_eq!(id.value(), i);
    }
    assert_eq!(arena.len(), 128);
    assert_eq!(
        arena.push_token(Token::new("overflow").unwrap()),
        Err(LSystemError::ArenaFull)
    );
    assert_eq!(arena.len(), 128);
}

#[test]
fn arena_lookup_out_of_range() {
    let mut arena = Arena::new();
    arena.push_token(Token::new("only").unwrap()).unwrap();

    let beyond = TokenId::new(5, false);
    assert!(arena.get_token(&beyond).is_none());
    assert!(!arena.is_valid(&beyond));
    assert!(arena.is_valid(&TokenId::new(0, false)));
    assert!(!arena.is_empty());
}
