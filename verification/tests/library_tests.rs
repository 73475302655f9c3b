use colourme::ast::{Expr, TemplateExpr};
use colourme::colourscheme::{Colourscheme, Rgb};
use colourme::config::{Config, ConfigEntry};
use colourme::lexer::Lexer;
use colourme::parser::Parser;
use colourme::template::{apply_definitions, replace_str, strip_expression, trim_chars, ColourDefinition, TrimKind};
use colourme::text::{i64_to_decimal, push_quoted, u64_to_decimal};
use colourme::token::Token;
use colourme::toml_model::{push_value_debug, TomlTable, TomlValue};

fn table(entries: Vec<(&str, TomlValue)>) -> TomlTable {
    let mut t = TomlTable::new();
    for (k, v) in entries {
        t.insert(k.to_string(), v);
    }
    t
}

fn string(s: &str) -> TomlValue {
    TomlValue::String(s.to_string())
}

fn app_entry(template: &str, destination: &str) -> TomlValue {
    TomlValue::Table(table(vec![("destination", string(destination)), ("template", string(template))]))
}

#[test]
fn config_has_one_entry_per_table_entry() {
    let t = table(vec![
        ("alacritty", app_entry("/t/alacritty.toml", "/d/alacritty.toml")),
        ("kitty", app_entry("templates/kitty.conf", "out/kitty.conf")),
    ]);
    let config = Config::try_from_table(&t).unwrap();
    assert_eq!(
        config,
        Config {
            entries: vec![
                ConfigEntry {
                    name: "alacritty".to_string(),
                    template_path: "/t/alacritty.toml".to_string(),
                    destination_path: "/d/alacritty.toml".to_string(),
                },
                ConfigEntry {
                    name: "kitty".to_string(),
                    template_path: "templates/kitty.conf".to_string(),
                    destination_path: "out/kitty.conf".to_string(),
                },
            ]
        }
    );
    assert_eq!(Config::from_table(&t), config);
}

#[test]
fn config_expands_a_leading_tilde() {
    let t = table(vec![("app", app_entry("~/templates/app.conf", "~"))]);
    let config = Config::try_from_table(&t).unwrap();
    let entry = &config.entries[0];
    assert!(!entry.template_path.starts_with('~'));
    assert!(entry.template_path.ends_with("/templates/app.conf"));
    assert!(!entry.destination_path.starts_with('~'));
    let other_user = table(vec![("app", app_entry("~someone/t.conf", "a~/b"))]);
    let config = Config::try_from_table(&other_user).unwrap();
    assert_eq!(config.entries[0].template_path, "~someone/t.conf");
    assert_eq!(config.entries[0].destination_path, "a~/b");
}

#[test]
fn config_refuses_entries_without_paths() {
    let missing = table(vec![("app", TomlValue::Table(table(vec![("template", string("a"))])))]);
    assert_eq!(Config::try_from_table(&missing), None);
    let not_table = table(vec![("app", string("a"))]);
    assert_eq!(Config::try_from_table(&not_table), None);
    let not_string = table(vec![(
        "app",
        TomlValue::Table(table(vec![("destination", TomlValue::Integer(1)), ("template", string("a"))])),
    )]);
    assert_eq!(Config::try_from_table(&not_string), None);
    assert_eq!(Config::try_from_table(&TomlTable::new()), Some(Config { entries: vec![] }));
}

#[test]
fn colourscheme_is_the_default_scheme() {
    let scheme = Colourscheme::from_toml("background = '#123456'");
    let black = Rgb { r: 0, g: 0, b: 0 };
    let white = Rgb { r: 255, g: 255, b: 255 };
    assert_eq!(scheme.background, black);
    assert_eq!(scheme.foreground, white);
    assert_eq!(scheme.cursor_bg, white);
    assert_eq!(scheme.selection_fg, black);
    assert_eq!(scheme.regular.red, Rgb { r: 255, g: 0, b: 0 });
    assert_eq!(scheme.regular.cyan, Rgb { r: 0, g: 255, b: 255 });
    assert_eq!(scheme.bright.black, Rgb { r: 128, g: 128, b: 128 });
    assert_eq!(scheme.bright.white, white);
    assert_eq!(scheme, Colourscheme::from_toml(""));
}

#[test]
fn toml_table_reads_back_what_was_written() {
    let mut t = TomlTable::new();
    t.insert("a".to_string(), TomlValue::Integer(1));
    t.insert("b".to_string(), string("x"));
    t.insert("a".to_string(), TomlValue::Integer(2));
    assert_eq!(t.len(), 2);
    assert_eq!(t.get("a"), Some(&TomlValue::Integer(2)));
    assert_eq!(t.get("b"), Some(&string("x")));
    assert_eq!(t.get("c"), None);
    assert_eq!(t.entry(0), (&"a".to_string(), &TomlValue::Integer(2)));
}

#[test]
fn toml_values_are_shown_as_debug_output() {
    let inner = table(vec![("k", string("a \"q\"\n")), ("n", TomlValue::Integer(-7))]);
    let mut out = String::new();
    push_value_debug(&mut out, &TomlValue::Table(inner));
    assert_eq!(out, "Table({\"k\": String(\"a \\\"q\\\"\\n\"), \"n\": Integer(-7)})");
    let mut f = String::new();
    push_value_debug(&mut f, &TomlValue::Float("2.5".to_string()));
    assert_eq!(f, "Float(2.5)");
}

#[test]
fn decimal_notation() {
    assert_eq!(u64_to_decimal(0), "0");
    assert_eq!(u64_to_decimal(1234567890), "1234567890");
    assert_eq!(u64_to_decimal(u64::MAX), u64::MAX.to_string());
    assert_eq!(i64_to_decimal(-42), "-42");
    assert_eq!(i64_to_decimal(i64::MIN), i64::MIN.to_string());
}

#[test]
fn expressions_lose_their_braces_and_inner_whitespace() {
    assert_eq!(strip_expression("{{ hex:colors.primary }}"), "hex:colors.primary");
    assert_eq!(strip_expression("{{{rgb:a}}}"), "rgb:a");
    assert_eq!(trim_chars("{}", TrimKind::Braces), "");
    assert_eq!(trim_chars(" \t x y \n", TrimKind::Whitespace), "x y");
}

#[test]
fn replacing_works_like_str_replace() {
    let cases = [("aaa", "aa", "b"), ("abcabc", "bc", "X"), ("abc", "", "-"), ("", "", "-"), ("xyz", "q", "r")];
    for (s, from, to) in cases {
        assert_eq!(replace_str(s, from, to), s.replace(from, to));
    }
}

#[test]
fn definitions_are_applied_in_order_then_braces_unescaped() {
    let defs = vec![
        ColourDefinition { label: "{{a}}".to_string(), colour_str: "{{b}}".to_string() },
        ColourDefinition { label: "{{b}}".to_string(), colour_str: "B".to_string() },
    ];
    assert_eq!(apply_definitions("{{a}} {{b}} \\{x}", &defs), "B B {x}");
}

#[test]
fn whitespace_between_sources_joins_their_tokens() {
    let a = "hex:colors.primary";
    let b = "|| rgb:#ff00ff";
    let joined = format!("{} {}", a, b);
    let mut ta = Lexer::new(a).tokenize().unwrap();
    let tb = Lexer::new(b).tokenize().unwrap();
    ta.extend(tb);
    assert_eq!(Lexer::new(&joined).tokenize().unwrap(), ta);
}

#[test]
fn lexer_errors_give_the_byte_position() {
    assert_eq!(
        Lexer::new("é:a | b").tokenize(),
        Err("Unexpected character 'é' at position 0".to_string())
    );
    assert_eq!(
        Lexer::new("a\u{a0}| b").tokenize(),
        Err("Unexpected character '|' at position 3".to_string())
    );
}

#[test]
fn one_alternative_per_separator() {
    for (source, n) in [("hex:a", 1), ("hex:a || rgb:b", 2), ("hex:a || rgb:b || str:c.d", 3)] {
        let tokens = Lexer::new(source).tokenize().unwrap();
        let separators = tokens.iter().filter(|t| **t == Token::Or).count();
        let block = Parser::new(tokens).parse().unwrap();
        assert_eq!(block.fallbacks.len(), n);
        assert_eq!(block.fallbacks.len(), separators + 1);
    }
}

#[test]
fn tokens_are_well_formed() {
    let tokens = Lexer::new("hex:#ABCDEF || num:12.5.1 ||str:w_x-9(a.b, 3)").tokenize().unwrap();
    for t in &tokens {
        match t {
            Token::Word(w) => {
                assert!(!w.is_empty());
                assert!(w.chars().all(|c| c.is_ascii_alphanumeric() || c == '_' || c == '-'));
            }
            Token::Number(n) => {
                assert!(n.chars().next().unwrap().is_ascii_digit());
                assert!(n.chars().all(|c| c.is_ascii_digit() || c == '.'));
            }
            Token::Hex(h) => {
                assert_eq!(h.len(), 7);
                assert!(h.starts_with('#') && h[1..].chars().all(|c| c.is_ascii_hexdigit()));
            }
            _ => {}
        }
    }
    assert_eq!(tokens[2], Token::Hex("#ABCDEF"));
    assert_eq!(tokens[6], Token::Number("12.5.1"));
    assert_eq!(tokens[10], Token::Word("w_x-9"));
}

#[test]
fn config_is_read_from_toml_text() {
    let text = "[alacritty]\ntemplate = \"/t/a.toml\"\ndestination = \"/d/a.toml\"\n\n[kitty]\ntemplate = \"templates/kitty.conf\"\ndestination = \"out/kitty.conf\"\n";
    let config = Config::new(text);
    assert_eq!(
        config,
        Config {
            entries: vec![
                ConfigEntry {
                    name: "alacritty".to_string(),
                    template_path: "/t/a.toml".to_string(),
                    destination_path: "/d/a.toml".to_string(),
                },
                ConfigEntry {
                    name: "kitty".to_string(),
                    template_path: "templates/kitty.conf".to_string(),
                    destination_path: "out/kitty.conf".to_string(),
                },
            ]
        }
    );
    assert_eq!(Config::try_new(text), Some(config));
}

#[test]
fn config_text_that_is_refused() {
    assert_eq!(Config::try_new("[app\ntemplate = 1"), None);
    assert_eq!(Config::try_new("[app]\ntemplate = \"a\""), None);
    assert_eq!(Config::try_new("app = 3"), None);
    assert_eq!(Config::try_new(""), Some(Config { entries: vec![] }));
}

#[test]
fn toml_text_is_converted_value_for_value() {
    let t = TomlTable::from_text("s = \"x\"\ni = -3\nf = 3.14\nb = true\n[colors]\nprimary = '#FF0000'\n").unwrap();
    assert_eq!(t.len(), 5);
    assert_eq!(t.get("s"), Some(&string("x")));
    assert_eq!(t.get("i"), Some(&TomlValue::Integer(-3)));
    assert_eq!(t.get("f"), Some(&TomlValue::Float("3.14".to_string())));
    assert_eq!(t.get("b"), Some(&TomlValue::Other("Boolean(true)".to_string())));
    assert_eq!(t.get("colors"), Some(&TomlValue::Table(table(vec![("primary", string("#FF0000"))]))));
    assert!(TomlTable::from_text("= 1").is_err());
}

#[test]
fn quoting_matches_debug_output() {
    for s in ["plain", "it's \"q\"", "tab\tnl\ncr\r\0", "esc\u{1b}del\u{7f}", "e\u{301}", "\u{301}x", "é😀", "\\"] {
        let mut out = String::new();
        push_quoted(&mut out, s);
        assert_eq!(out, format!("{:?}", s));
    }
}

#[test]
fn parse_errors_show_tokens_as_debug_does() {
    let odd = Token::Word("x\"y\\z");
    let tokens = vec![Token::Word("hex"), Token::Colon, Token::Hex("#aabbcc"), odd];
    assert_eq!(
        Parser::new(tokens).parse(),
        Err(format!("Unexpected token after parsing template expression: {:?}", Some(odd)))
    );
    let tokens = vec![Token::Word("hex"), Token::Colon, Token::Word("a"), Token::Dot, Token::Number("1\u{1b}")];
    assert_eq!(
        Parser::new(tokens).parse(),
        Err(format!("Expected identifier after '.', found {:?}", Token::Number("1\u{1b}")))
    );
}

fn token_text(t: &Token) -> String {
    match t {
        Token::Word(w) | Token::Number(w) | Token::Hex(w) => w.to_string(),
        Token::Colon => ":".to_string(),
        Token::Dot => ".".to_string(),
        Token::Comma => ",".to_string(),
        Token::OpenParen => "(".to_string(),
        Token::CloseParen => ")".to_string(),
        Token::Or => "||".to_string(),
    }
}

#[test]
fn tokens_spell_the_source_without_whitespace() {
    let source = " rgb : darken( colors.bg ,\t0.5 )  ||hsv:#A0b1C2\n";
    let tokens = Lexer::new(source).tokenize().unwrap();
    let spelled: String = tokens.iter().map(token_text).collect();
    let expected: String = source.chars().filter(|c| !c.is_whitespace()).collect();
    assert_eq!(spelled, expected);
}

#[test]
fn which_texts_tokenize() {
    assert!(Lexer::new("hex:#ff0000").tokenize().is_ok());
    assert_eq!(Lexer::new("#ff000").tokenize(), Err("Invalid hex colour: #ff000".to_string()));
    assert_eq!(Lexer::new("#ff0000ab").tokenize(), Err("Invalid hex colour: #ff0000ab".to_string()));
    assert_eq!(
        Lexer::new("#ff0000g").tokenize(),
        Ok(vec![Token::Hex("#ff0000"), Token::Word("g")])
    );
    assert_eq!(Lexer::new("hex:$").tokenize(), Err("Unexpected character '$' at position 4".to_string()));
    assert_eq!(Lexer::new("a|b").tokenize(), Err("Unexpected character '|' at position 1".to_string()));
}

#[test]
fn parsing_reads_back_the_tokens_of_a_block() {
    let tokens = vec![
        Token::Word("rgb"),
        Token::Colon,
        Token::Word("blend"),
        Token::OpenParen,
        Token::Word("a"),
        Token::Dot,
        Token::Word("b"),
        Token::Comma,
        Token::Word("f"),
        Token::OpenParen,
        Token::CloseParen,
        Token::Comma,
        Token::Number("0.5"),
        Token::CloseParen,
        Token::Or,
        Token::Word("hex"),
        Token::Colon,
        Token::Hex("#000000"),
    ];
    let block = Parser::new(tokens).parse().unwrap();
    assert_eq!(
        block.fallbacks,
        vec![
            TemplateExpr {
                format: "rgb",
                expr: Expr::Function {
                    name: "blend",
                    args: vec![
                        Expr::Identifier(vec!["a", "b"]),
                        Expr::Function { name: "f", args: vec![] },
                        Expr::Number("0.5"),
                    ],
                },
            },
            TemplateExpr { format: "hex", expr: Expr::Hex("#000000") },
        ]
    );
}

#[test]
fn alternatives_are_read_one_after_another() {
    let tokens = vec![
        Token::Word("hex"),
        Token::Colon,
        Token::Word("a"),
        Token::Dot,
        Token::Word("b"),
        Token::Word("str"),
        Token::Colon,
        Token::Number("1"),
    ];
    let mut parser = Parser::new(tokens);
    assert_eq!(
        parser.parse_template_expr(),
        Ok(TemplateExpr { format: "hex", expr: Expr::Identifier(vec!["a", "b"]) })
    );
    assert_eq!(parser.parse_template_expr(), Ok(TemplateExpr { format: "str", expr: Expr::Number("1") }));
}

#[test]
fn leftover_tokens_are_refused() {
    let tokens = vec![Token::Word("hex"), Token::Colon, Token::Word("a"), Token::Dot, Token::Word("b"), Token::OpenParen];
    assert_eq!(
        Parser::new(tokens).parse(),
        Err("Unexpected token after parsing template expression: Some(OpenParen)".to_string())
    );
}
