use colourme::lexer::Lexer;
use colourme::token::Token;

#[test]
fn test_lexer_no_words() {
    let input = "rgb:darken(rgb(255, 0, 0), 0.5)";
    let mut lexer = Lexer::new(input);
    let tokens = lexer.tokenize().unwrap();
    assert_eq!(
        tokens,
        vec![
            Token::Word("rgb"),
            Token::Colon,
            Token::Word("darken"),
            Token::OpenParen,
            Token::Word("rgb"),
            Token::OpenParen,
            Token::Number("255"),
            Token::Comma,
            Token::Number("0"),
            Token::Comma,
            Token::Number("0"),
            Token::CloseParen,
            Token::Comma,
            Token::Number("0.5"),
            Token::CloseParen,
        ]
    );
}

#[test]
fn test_lexer_with_words() {
    let input = "hex:darken(regular.red, 0.5)";
    let mut lexer = Lexer::new(input);
    let tokens = lexer.tokenize().unwrap();
    assert_eq!(
        tokens,
        vec![
            Token::Word("hex"),
            Token::Colon,
            Token::Word("darken"),
            Token::OpenParen,
            Token::Word("regular"),
            Token::Dot,
            Token::Word("red"),
            Token::Comma,
            Token::Number("0.5"),
            Token::CloseParen,
        ]
    );
}

#[test]
fn test_lexer_hex_colour() {
    let input = "rgb:darken(#ff0000, 0.5)";
    let mut lexer = Lexer::new(input);
    let tokens = lexer.tokenize().unwrap();
    assert_eq!(
        tokens,
        vec![
            Token::Word("rgb"),
            Token::Colon,
            Token::Word("darken"),
            Token::OpenParen,
            Token::Hex("#ff0000"),
            Token::Comma,
            Token::Number("0.5"),
            Token::CloseParen,
        ]
    );
}

#[test]
fn test_lexer_invalid_hex() {
    let input = "rgb:darken(#ff000, 0.5)";
    let mut lexer = Lexer::new(input);
    let result = lexer.tokenize();
    assert!(result.is_err());
}

#[test]
fn lexer_invalid_hex_message() {
    let mut lexer = Lexer::new("rgb:darken(#ff000, 0.5)");
    assert_eq!(lexer.tokenize(), Err("Invalid hex colour: #ff000".to_string()));
}

#[test]
fn lexer_hex_too_long() {
    let mut lexer = Lexer::new("#ff00001");
    assert_eq!(lexer.tokenize(), Err("Invalid hex colour: #ff00001".to_string()));
}

#[test]
fn lexer_unexpected_character_reports_byte_position() {
    let mut lexer = Lexer::new("hex:é$");
    assert_eq!(
        lexer.tokenize(),
        Err("Unexpected character 'é' at position 4".to_string())
    );
    let mut lexer = Lexer::new("ab ~");
    assert_eq!(
        lexer.tokenize(),
        Err("Unexpected character '~' at position 3".to_string())
    );
}

#[test]
fn lexer_or_separator() {
    let mut lexer = Lexer::new("a||b");
    assert_eq!(
        lexer.tokenize().unwrap(),
        vec![Token::Word("a"), Token::Or, Token::Word("b")]
    );
    let mut lexer = Lexer::new("a | b");
    assert_eq!(
        lexer.tokenize(),
        Err("Unexpected character '|' at position 2".to_string())
    );
}

#[test]
fn lexer_whitespace_and_runs() {
    let mut lexer = Lexer::new(" \t1.2.3abc_-x\u{3000}-y ");
    assert_eq!(
        lexer.tokenize().unwrap(),
        vec![Token::Number("1.2.3"), Token::Word("abc_-x"), Token::Word("-y")]
    );
    let mut lexer = Lexer::new("");
    assert_eq!(lexer.tokenize().unwrap(), vec![]);
}
