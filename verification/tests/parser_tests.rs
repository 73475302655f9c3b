use colourme::ast::{Expr, TemplateBlock, TemplateExpr};
use colourme::lexer::Lexer;
use colourme::parser::Parser;
use colourme::token::Token;

fn parse_str(input: &str) -> TemplateBlock<'_> {
    let mut lexer = Lexer::new(input);
    let tokens = lexer.tokenize().unwrap();
    let mut parser = Parser::new(tokens);
    parser.parse().unwrap()
}

fn parse_err(input: &str) -> String {
    let mut lexer = Lexer::new(input);
    let tokens = lexer.tokenize().unwrap();
    let mut parser = Parser::new(tokens);
    parser.parse().unwrap_err()
}

#[test]
fn test_parse_identifier() {
    let ast = parse_str("hex:colors.primary");
    assert_eq!(
        ast,
        TemplateBlock {
            fallbacks: vec![TemplateExpr {
                format: "hex",
                expr: Expr::Identifier(vec!["colors", "primary"])
            }]
        }
    );
}

#[test]
fn test_parse_function() {
    let ast = parse_str("rgb:darken(colors.bg, 0.5)");
    assert_eq!(
        ast,
        TemplateBlock {
            fallbacks: vec![TemplateExpr {
                format: "rgb",
                expr: Expr::Function {
                    name: "darken",
                    args: vec![Expr::Identifier(vec!["colors", "bg"]), Expr::Number("0.5"),]
                }
            }]
        }
    );
}

#[test]
fn test_parse_nested_functions() {
    let ast = parse_str("hsv:lighten(darken(colors.bg, 0.5), 0.2)");
    assert_eq!(
        ast,
        TemplateBlock {
            fallbacks: vec![TemplateExpr {
                format: "hsv",
                expr: Expr::Function {
                    name: "lighten",
                    args: vec![
                        Expr::Function {
                            name: "darken",
                            args: vec![
                                Expr::Identifier(vec!["colors", "bg"]),
                                Expr::Number("0.5"),
                            ]
                        },
                        Expr::Number("0.2"),
                    ]
                }
            }]
        }
    );
}

#[test]
fn test_missing_format_fails() {
    let mut lexer = Lexer::new("colors.primary"); // Missing "hex:"
    let tokens = lexer.tokenize().unwrap();
    let mut parser = Parser::new(tokens);
    let result = parser.parse();

    assert!(result.is_err());
}

#[test]
fn test_with_or_fallbacks() {
    let ast = parse_str("hex:colors.primary || hex:colors.secondary || hex:#ff0000");
    assert_eq!(
        ast,
        TemplateBlock {
            fallbacks: vec![
                TemplateExpr {
                    format: "hex",
                    expr: Expr::Identifier(vec!["colors", "primary"])
                },
                TemplateExpr {
                    format: "hex",
                    expr: Expr::Identifier(vec!["colors", "secondary"])
                },
                TemplateExpr {
                    format: "hex",
                    expr: Expr::Hex("#ff0000")
                },
            ]
        }
    );
}

#[test]
fn parser_error_messages() {
    assert_eq!(
        parse_err("colors.primary"),
        "Expected ':' after format identifier"
    );
    assert_eq!(
        parse_err("#ff0000"),
        "Expected format identifier (e.g. 'hex') at the start"
    );
    assert_eq!(
        parse_err("hex:darken(#ff0000, 0.5"),
        "Expected ')' after arguments for 'darken'"
    );
    assert_eq!(
        parse_err("hex:a.0.5"),
        "Expected identifier after '.', found Number(\"0.5\")"
    );
    assert_eq!(parse_err("hex:,"), "Unexpected token in expression: Comma");
    assert_eq!(
        parse_err("hex:a b"),
        "Unexpected token after parsing template expression: Some(Word(\"b\"))"
    );
    assert_eq!(
        parse_err("hex:a || b"),
        "Expected ':' after format identifier"
    );
}

#[test]
fn parser_end_of_input_repeats_last_token() {
    // Reading past the end yields the last token again.
    assert_eq!(parse_err("hex:"), "Unexpected token in expression: Colon");
    assert_eq!(
        parse_err("hex:a."),
        "Expected identifier after '.', found Dot"
    );
    let mut parser = Parser::new(vec![]);
    assert_eq!(
        parser.parse(),
        Err("Expected format identifier (e.g. 'hex') at the start".to_string())
    );
}

#[test]
fn parser_empty_arguments_and_nesting() {
    let ast = parse_str("str:f()");
    assert_eq!(
        ast.fallbacks[0].expr,
        Expr::Function { name: "f", args: vec![] }
    );
    let mut parser = Parser::new(vec![
        Token::Word("hex"),
        Token::Colon,
        Token::Hex("#000000"),
    ]);
    let block = parser.parse().unwrap();
    assert_eq!(block.fallbacks.len(), 1);
    assert_eq!(block.fallbacks[0].expr, Expr::Hex("#000000"));
}
