use toklex::lexer::Lexer;
use toklex::token::Location;
use toklex::token::Token;
use toklex::token::TokenKind;

#[test]
fn location_new_and_empty() {
    let l = Location::new(3, 4);
    assert_eq!((l.row, l.col), (3, 4));
    let e = Location::empty();
    assert_eq!((e.row, e.col), (0, 0));
}

#[test]
fn change_loc_stores_one_based() {
    let mut l = Location::empty();
    l.change_loc(2, 5);
    assert_eq!((l.row, l.col), (3, 6));
}

#[test]
fn token_empty_fields() {
    let t = Token::empty();
    assert_eq!(t.kind, TokenKind::EndOfInput);
    assert!(t.value.is_empty());
    assert_eq!(t.size, 0);
    assert_eq!((t.loc.row, t.loc.col), (0, 0));
}

#[test]
fn token_new_fields() {
    let t = Token::new(TokenKind::Identifier, b"abc".to_vec(), Location::new(1, 2));
    assert_eq!(t.kind, TokenKind::Identifier);
    assert_eq!(t.value, b"abc".to_vec());
    assert_eq!(t.size, 3);
    assert_eq!((t.loc.row, t.loc.col), (1, 2));
}

#[test]
fn token_write_appends() {
    let mut t = Token::empty();
    t.write(b'a');
    t.write(b'b');
    assert_eq!(t.value, b"ab".to_vec());
    assert_eq!(t.size, 2);
    assert_eq!(t.kind, TokenKind::EndOfInput);
    assert_eq!((t.loc.row, t.loc.col), (0, 0));
}

#[test]
fn match_current_on_symbol() {
    let mut lx = Lexer::new(b"(x".to_vec());
    let mut t = Token::empty();
    lx.match_current(&mut t);
    assert_eq!(t.value, b"(".to_vec());
    assert_eq!(t.size, 1);
    assert_eq!(t.kind, TokenKind::Symbol);
    assert_eq!((t.loc.row, t.loc.col), (1, 1));
    assert_eq!(lx.cur, 1);
}

#[test]
fn match_current_on_non_symbol() {
    let mut lx = Lexer::new(b"x".to_vec());
    let mut t = Token::empty();
    lx.match_current(&mut t);
    assert_eq!(t.size, 0);
    assert_eq!(lx.cur, 0);
}

#[test]
fn match_current_consumes_extension_only_on_match() {
    let mut lx = Lexer::new(b"<=3".to_vec());
    let mut t = Token::empty();
    lx.match_current(&mut t);
    assert_eq!(t.value, b"<=".to_vec());
    assert_eq!(lx.cur, 2);

    let mut lx = Lexer::new(b"=3".to_vec());
    let mut t = Token::empty();
    lx.match_current(&mut t);
    assert_eq!(t.value, b"=".to_vec());
    assert_eq!(lx.cur, 1);
}
