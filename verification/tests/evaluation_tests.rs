use colourme::ast::{Expr, TemplateExpr};
use colourme::engine::TemplateEngine;
use colourme::evaluator::Evaluator;
use colourme::functions::{builtin_blend, builtin_darken, builtin_multiply_brightness, builtin_random_select};
use colourme::template::{render_template, render_with_matches, ColourDefinition, RenderedTemplate};
use colourme::toml_model::{TomlTable, TomlValue};
use colourme::value::{Answer, ColourFormat, ColourHandle, Number, Request, Step, Value};

/// A small stand-in for the colour library: colours are RGB triples kept here,
/// named by their index.
struct Palette {
    colours: Vec<(u8, u8, u8)>,
}

fn number_value(n: &Number) -> f32 {
    match n {
        Number::Literal(s) => s.parse::<f32>().unwrap(),
        Number::Integer(i) => *i as f32,
        Number::Float(s) => s.parse::<f64>().unwrap() as f32,
    }
}

fn hex_digit(c: u8) -> Option<u8> {
    match c {
        b'0'..=b'9' => Some(c - b'0'),
        b'a'..=b'f' => Some(c - b'a' + 10),
        b'A'..=b'F' => Some(c - b'A' + 10),
        _ => None,
    }
}

impl Palette {
    fn new() -> Palette {
        Palette { colours: Vec::new() }
    }

    fn add(&mut self, rgb: (u8, u8, u8)) -> ColourHandle {
        self.colours.push(rgb);
        ColourHandle { id: self.colours.len() - 1 }
    }

    fn parse(&mut self, text: &str) -> Result<ColourHandle, String> {
        let digits = text.strip_prefix('#').unwrap_or(text).as_bytes();
        if digits.len() != 6 {
            return Err(format!("not a colour: {}", text));
        }
        let mut v = [0u8; 3];
        for i in 0..3 {
            match (hex_digit(digits[2 * i]), hex_digit(digits[2 * i + 1])) {
                (Some(h), Some(l)) => v[i] = h * 16 + l,
                _ => return Err(format!("not a colour: {}", text)),
            }
        }
        Ok(self.add((v[0], v[1], v[2])))
    }

    fn text(&self, f: ColourFormat, c: ColourHandle) -> String {
        let (r, g, b) = self.colours[c.id];
        match f {
            ColourFormat::Hex => format!("{:02X}{:02X}{:02X}", r, g, b),
            ColourFormat::Rgb => format!("rgb({}, {}, {})", r, g, b),
            ColourFormat::Hsv => {
                let max = r.max(g).max(b) as f32;
                let min = r.min(g).min(b) as f32;
                let s = if max == 0.0 { 0.0 } else { (max - min) / max * 100.0 };
                format!("hsv({}, {}%, {}%)", r as u32 + g as u32 + b as u32, s, max / 255.0 * 100.0)
            }
        }
    }

    fn scale(&mut self, c: ColourHandle, factor: f32) -> Result<ColourHandle, String> {
        if !(0.0..=2.0).contains(&factor) {
            return Err(format!("factor out of range: {}", factor));
        }
        let (r, g, b) = self.colours[c.id];
        let s = |x: u8| ((x as f32) * factor).round().min(255.0) as u8;
        Ok(self.add((s(r), s(g), s(b))))
    }

    fn perform(&mut self, req: &Request) -> Answer {
        match req {
            Request::ParseNumber(s) => Answer::Flag(s.parse::<f32>().is_ok()),
            Request::ParseColour(s) => Answer::Colour(self.parse(s)),
            Request::NumberText(n) => Answer::Text(number_value(n).to_string()),
            Request::ColourText(f, c) => Answer::Text(self.text(*f, *c)),
            Request::Darken(c, n) => Answer::Colour(self.scale(*c, 1.0 - number_value(n))),
            Request::Blend(c1, c2, n) => {
                let t = number_value(n);
                let (a, b) = (self.colours[c1.id], self.colours[c2.id]);
                let mix = |x: u8, y: u8| ((x as f32) * (1.0 - t) + (y as f32) * t).round() as u8;
                Answer::Colour(Ok(self.add((mix(a.0, b.0), mix(a.1, b.1), mix(a.2, b.2)))))
            }
            Request::MultiplyBrightness(c, n) => Answer::Colour(self.scale(*c, number_value(n))),
        }
    }
}

fn evaluate(evaluator: &Evaluator, ast: &TemplateExpr, palette: &mut Palette) -> Result<String, String> {
    let mut answers: Vec<Answer> = Vec::new();
    loop {
        match evaluator.evaluate(ast, &answers) {
            Step::Done(r) => return r,
            Step::Need(req) => {
                let a = palette.perform(&req);
                answers.push(a);
            }
        }
    }
}

fn table(entries: Vec<(&str, TomlValue)>) -> TomlTable {
    let mut t = TomlTable::new();
    for (k, v) in entries {
        t.insert(k.to_string(), v);
    }
    t
}

fn string(s: &str) -> TomlValue {
    TomlValue::String(s.to_string())
}

fn mock_toml() -> TomlTable {
    table(vec![
        (
            "colors",
            TomlValue::Table(table(vec![("background", string("#222222")), ("primary", string("#FF0000"))])),
        ),
        ("some_float", TomlValue::Float(format!("{:?}", 3.14f64))),
        ("some_int", TomlValue::Integer(42)),
        ("some_string", string("Some String")),
        ("theme", TomlValue::Table(table(vec![("accent", string("#00FF00"))]))),
    ])
}

fn darkened(palette: &mut Palette, colour: &str, amount: f32, f: ColourFormat) -> String {
    let c = palette.parse(colour).unwrap();
    let d = palette.scale(c, 1.0 - amount).unwrap();
    palette.text(f, d)
}

#[test]
fn test_evaluate_literal_hex() {
    let toml_data = mock_toml();
    let evaluator = Evaluator::new(&toml_data);
    let ast = TemplateExpr { format: "hex", expr: Expr::Hex("#AABBCC") };
    let result = evaluate(&evaluator, &ast, &mut Palette::new()).unwrap();
    assert_eq!(result, "AABBCC");
}

#[test]
fn test_evaluate_toml_identifier() {
    let toml_data = mock_toml();
    let evaluator = Evaluator::new(&toml_data);
    let ast = TemplateExpr { format: "hex", expr: Expr::Identifier(vec!["colors", "primary"]) };
    let result = evaluate(&evaluator, &ast, &mut Palette::new()).unwrap();
    assert_eq!(result, "FF0000");
}

#[test]
fn test_formatting_conversion() {
    let toml_data = mock_toml();
    let evaluator = Evaluator::new(&toml_data);
    let ast = TemplateExpr { format: "rgb", expr: Expr::Identifier(vec!["colors", "primary"]) };
    let result = evaluate(&evaluator, &ast, &mut Palette::new()).unwrap();
    assert_eq!(result, "rgb(255, 0, 0)");
}

#[test]
fn test_evaluate_function() {
    let toml_data = mock_toml();
    let evaluator = Evaluator::new(&toml_data);
    let ast = TemplateExpr {
        format: "hex",
        expr: Expr::Function {
            name: "darken",
            args: vec![Expr::Identifier(vec!["colors", "primary"]), Expr::Number("0.5")],
        },
    };
    let result = evaluate(&evaluator, &ast, &mut Palette::new()).unwrap();
    assert_eq!(result, darkened(&mut Palette::new(), "#FF0000", 0.5, ColourFormat::Hex));
}

#[test]
fn test_evaluate_string_format() {
    let toml_data = mock_toml();
    let evaluator = Evaluator::new(&toml_data);
    let ast = TemplateExpr { format: "str", expr: Expr::Identifier(vec!["some_string"]) };
    let result = evaluate(&evaluator, &ast, &mut Palette::new()).unwrap();
    assert_eq!(result, "Some String");
}

#[test]
fn test_evaluate_number_format_int() {
    let toml_data = mock_toml();
    let evaluator = Evaluator::new(&toml_data);
    let ast = TemplateExpr { format: "num", expr: Expr::Identifier(vec!["some_int"]) };
    let result = evaluate(&evaluator, &ast, &mut Palette::new()).unwrap();
    assert_eq!(result, "42");
}

#[test]
fn test_evaluate_number_format_float() {
    let toml_data = mock_toml();
    let evaluator = Evaluator::new(&toml_data);
    let ast = TemplateExpr { format: "num", expr: Expr::Identifier(vec!["some_float"]) };
    let result = evaluate(&evaluator, &ast, &mut Palette::new()).unwrap();
    assert_eq!(result, "3.14");
}

#[test]
fn test_error_unknown_function() {
    let toml_data = mock_toml();
    let evaluator = Evaluator::new(&toml_data);
    let ast = TemplateExpr {
        format: "hex",
        expr: Expr::Function { name: "magic_spell", args: vec![Expr::Hex("#FFFFFF")] },
    };
    let result = evaluate(&evaluator, &ast, &mut Palette::new());
    assert!(result.is_err());
    assert_eq!(result.unwrap_err(), "Undefined function: magic_spell");
}

#[test]
fn test_error_invalid_toml_path() {
    let toml_data = mock_toml();
    let evaluator = Evaluator::new(&toml_data);
    let ast = TemplateExpr { format: "hex", expr: Expr::Identifier(vec!["colors", "does_not_exist"]) };
    let result = evaluate(&evaluator, &ast, &mut Palette::new());
    assert!(result.is_err());
    assert_eq!(result.unwrap_err(), "Path not found in TOML: [\"colors\", \"does_not_exist\"]");
}

// The requests the evaluator hands out, one at a time.

#[test]
fn evaluation_asks_for_each_request_in_turn() {
    let toml_data = mock_toml();
    let evaluator = Evaluator::new(&toml_data);
    let ast = TemplateExpr {
        format: "rgb",
        expr: Expr::Function {
            name: "darken",
            args: vec![Expr::Identifier(vec!["colors", "primary"]), Expr::Number("0.25")],
        },
    };
    let mut answers: Vec<Answer> = Vec::new();
    assert_eq!(evaluator.evaluate(&ast, &answers), Step::Need(Request::ParseNumber("0.25".to_string())));
    answers.push(Answer::Flag(true));
    assert_eq!(evaluator.evaluate(&ast, &answers), Step::Need(Request::ParseColour("#FF0000".to_string())));
    answers.push(Answer::Colour(Ok(ColourHandle { id: 7 })));
    assert_eq!(
        evaluator.evaluate(&ast, &answers),
        Step::Need(Request::Darken(ColourHandle { id: 7 }, Number::Literal("0.25".to_string())))
    );
    answers.push(Answer::Colour(Ok(ColourHandle { id: 8 })));
    assert_eq!(
        evaluator.evaluate(&ast, &answers),
        Step::Need(Request::ColourText(ColourFormat::Rgb, ColourHandle { id: 8 }))
    );
    answers.push(Answer::Text("rgb(191, 0, 0)".to_string()));
    assert_eq!(evaluator.evaluate(&ast, &answers), Step::Done(Ok("rgb(191, 0, 0)".to_string())));
}

#[test]
fn failed_number_parse_is_reported() {
    let toml_data = mock_toml();
    let evaluator = Evaluator::new(&toml_data);
    let ast = TemplateExpr { format: "num", expr: Expr::Number("1.2.3") };
    let result = evaluate(&evaluator, &ast, &mut Palette::new());
    assert_eq!(result, Err("Failed to parse number: 1.2.3".to_string()));
}

#[test]
fn failed_hex_colour_is_reported() {
    let toml_data = mock_toml();
    let evaluator = Evaluator::new(&toml_data);
    let ast = TemplateExpr { format: "hex", expr: Expr::Hex("#GGGGGG") };
    let mut answers = vec![Answer::Colour(Err("bad digits".to_string()))];
    assert_eq!(
        evaluator.evaluate(&ast, &answers),
        Step::Done(Err("Failed to parse hex colour '#GGGGGG': bad digits".to_string()))
    );
    answers.clear();
    assert_eq!(evaluator.evaluate(&ast, &answers), Step::Need(Request::ParseColour("#GGGGGG".to_string())));
}

#[test]
fn string_that_is_no_colour_is_reported() {
    let toml_data = mock_toml();
    let evaluator = Evaluator::new(&toml_data);
    let ast = TemplateExpr { format: "hsv", expr: Expr::Identifier(vec!["some_string"]) };
    let result = evaluate(&evaluator, &ast, &mut Palette::new());
    assert_eq!(result, Err("Failed to parse 'Some String' as a colour: not a colour: Some String".to_string()));
}

#[test]
fn numbers_in_colour_formats_are_refused() {
    let toml_data = mock_toml();
    let evaluator = Evaluator::new(&toml_data);
    let cases = [
        ("hex", "Expected a hex value, got a number"),
        ("rgb", "Expected an rgb value, got a number"),
        ("hsv", "Expected an hsv value, got a number"),
    ];
    for (format, message) in cases {
        let ast = TemplateExpr { format, expr: Expr::Identifier(vec!["some_int"]) };
        assert_eq!(evaluate(&evaluator, &ast, &mut Palette::new()), Err(message.to_string()));
    }
}

#[test]
fn str_format_writes_colours_as_hex_and_numbers_as_text() {
    let toml_data = mock_toml();
    let evaluator = Evaluator::new(&toml_data);
    let colour = TemplateExpr { format: "str", expr: Expr::Hex("#00ff00") };
    assert_eq!(evaluate(&evaluator, &colour, &mut Palette::new()), Ok("00FF00".to_string()));
    let number = TemplateExpr { format: "str", expr: Expr::Number("2.50") };
    assert_eq!(evaluate(&evaluator, &number, &mut Palette::new()), Ok("2.5".to_string()));
}

#[test]
fn num_format_parses_strings_and_refuses_colours() {
    let mut toml_data = mock_toml();
    toml_data.insert("ratio".to_string(), string("0.750"));
    let evaluator = Evaluator::new(&toml_data);
    let ratio = TemplateExpr { format: "num", expr: Expr::Identifier(vec!["ratio"]) };
    assert_eq!(evaluate(&evaluator, &ratio, &mut Palette::new()), Ok("0.75".to_string()));
    let text = TemplateExpr { format: "num", expr: Expr::Identifier(vec!["some_string"]) };
    assert_eq!(
        evaluate(&evaluator, &text, &mut Palette::new()),
        Err("Failed to parse 'Some String' as a number".to_string())
    );
    let colour = TemplateExpr { format: "num", expr: Expr::Hex("#123456") };
    assert_eq!(
        evaluate(&evaluator, &colour, &mut Palette::new()),
        Err("Cannot convert colour '123456' to a number".to_string())
    );
}

#[test]
fn unsupported_format_is_reported() {
    let toml_data = mock_toml();
    let evaluator = Evaluator::new(&toml_data);
    let ast = TemplateExpr { format: "cmyk", expr: Expr::Identifier(vec!["some_string"]) };
    assert_eq!(evaluate(&evaluator, &ast, &mut Palette::new()), Err("Unsupported format: cmyk".to_string()));
}

#[test]
fn path_through_a_non_table_is_reported() {
    let toml_data = mock_toml();
    let evaluator = Evaluator::new(&toml_data);
    let ast = TemplateExpr { format: "str", expr: Expr::Identifier(vec!["some_string", "inner"]) };
    assert_eq!(
        evaluate(&evaluator, &ast, &mut Palette::new()),
        Err("Invalid path: 'inner' is not a table".to_string())
    );
}

#[test]
fn path_ending_at_a_table_is_reported() {
    let toml_data = mock_toml();
    let evaluator = Evaluator::new(&toml_data);
    let ast = TemplateExpr { format: "str", expr: Expr::Identifier(vec!["theme"]) };
    assert_eq!(
        evaluate(&evaluator, &ast, &mut Palette::new()),
        Err("Expected a string at the end of the path, got Some(Table({\"accent\": String(\"#00FF00\")}))"
            .to_string())
    );
}

#[test]
fn missing_first_part_looks_up_the_next_part_at_the_top() {
    let toml_data = mock_toml();
    let evaluator = Evaluator::new(&toml_data);
    let ast = TemplateExpr { format: "str", expr: Expr::Identifier(vec!["missing", "some_string"]) };
    assert_eq!(evaluate(&evaluator, &ast, &mut Palette::new()), Ok("Some String".to_string()));
}

#[test]
fn blend_reads_both_colours_from_its_first_argument() {
    let toml_data = mock_toml();
    let evaluator = Evaluator::new(&toml_data);
    let ast = TemplateExpr {
        format: "hex",
        expr: Expr::Function {
            name: "blend",
            args: vec![Expr::Hex("#000000"), Expr::Hex("#FFFFFF"), Expr::Number("0.5")],
        },
    };
    assert_eq!(evaluate(&evaluator, &ast, &mut Palette::new()), Ok("000000".to_string()));
}

#[test]
fn multiply_brightness_scales_the_colour() {
    let toml_data = mock_toml();
    let evaluator = Evaluator::new(&toml_data);
    let ast = TemplateExpr {
        format: "rgb",
        expr: Expr::Function {
            name: "multiply_brightness",
            args: vec![Expr::Identifier(vec!["colors", "background"]), Expr::Number("2")],
        },
    };
    assert_eq!(evaluate(&evaluator, &ast, &mut Palette::new()), Ok("rgb(68, 68, 68)".to_string()));
}

#[test]
fn colour_library_failure_is_reported_with_the_operation() {
    let toml_data = mock_toml();
    let evaluator = Evaluator::new(&toml_data);
    let ast = TemplateExpr {
        format: "hex",
        expr: Expr::Function {
            name: "darken",
            args: vec![Expr::Hex("#FF0000"), Expr::Number("3")],
        },
    };
    assert_eq!(
        evaluate(&evaluator, &ast, &mut Palette::new()),
        Err("Failed to darken colour: factor out of range: -2".to_string())
    );
}

fn resolve(engine: &TemplateEngine, source: &str, palette: &mut Palette) -> Result<String, String> {
    let mut answers: Vec<Answer> = Vec::new();
    loop {
        match engine.resolve_block(source, &answers) {
            Step::Done(r) => return r,
            Step::Need(req) => {
                let a = palette.perform(&req);
                answers.push(a);
            }
        }
    }
}

fn colour_text_of(colour: &str, f: ColourFormat) -> String {
    let mut palette = Palette::new();
    let c = palette.parse(colour).unwrap();
    palette.text(f, c)
}

fn colours_table(entries: Vec<(&str, &str)>) -> TomlTable {
    let colours = table(entries.into_iter().map(|(k, v)| (k, string(v))).collect());
    table(vec![("colors", TomlValue::Table(colours))])
}

#[test]
fn test_template_engine() {
    let toml_data = colours_table(vec![("primary", "#FF0000")]);
    let engine = TemplateEngine::new(&toml_data);
    let result = resolve(&engine, "rgb:darken(colors.primary, 0.5)", &mut Palette::new())
        .expect("Failed to resolve block");
    assert_eq!(result, darkened(&mut Palette::new(), "#FF0000", 0.5, ColourFormat::Rgb));
}

#[test]
fn test_template_engine_takes_first_fallback() {
    let toml_data = colours_table(vec![("primary", "#FF0000")]);
    let engine = TemplateEngine::new(&toml_data);
    let result = resolve(&engine, "hsv:colors.primary || hsv:colors.secondary", &mut Palette::new())
        .expect("Failed to resolve block");
    assert_eq!(result, colour_text_of("#FF0000", ColourFormat::Hsv));
}

#[test]
fn test_template_engine_takes_first_of_all_valid_fallbacks() {
    let toml_data = colours_table(vec![("primary", "#FF0000"), ("secondary", "#00FF00")]);
    let engine = TemplateEngine::new(&toml_data);
    let result = resolve(&engine, "hsv:colors.primary || hsv:colors.secondary", &mut Palette::new())
        .expect("Failed to resolve block");
    assert_eq!(result, colour_text_of("#FF0000", ColourFormat::Hsv));
}

#[test]
fn test_template_engine_takes_second_fallback() {
    let toml_data = colours_table(vec![("secondary", "#00FF00")]);
    let engine = TemplateEngine::new(&toml_data);
    let result = resolve(&engine, "hsv:colors.primary || hsv:colors.secondary", &mut Palette::new())
        .expect("Failed to resolve block");
    assert_eq!(result, colour_text_of("#00FF00", ColourFormat::Hsv));
}

#[test]
fn test_template_engine_all_fallbacks_fail() {
    let toml_data = colours_table(vec![]);
    let engine = TemplateEngine::new(&toml_data);
    let result = resolve(&engine, "hsv:colors.primary || hsv:colors.secondary", &mut Palette::new());
    assert!(result.is_err());
}

#[test]
fn all_fallbacks_fail_with_the_last_error() {
    let toml_data = colours_table(vec![]);
    let engine = TemplateEngine::new(&toml_data);
    let source = "hsv:colors.primary || hsv:colors.secondary";
    assert_eq!(
        resolve(&engine, source, &mut Palette::new()),
        Err(format!(
            "All fallbacks failed for '{}'. Last error: Path not found in TOML: [\"colors\", \"secondary\"]",
            source
        ))
    );
}

#[test]
fn failed_alternative_answers_are_kept_for_the_next() {
    let toml_data = colours_table(vec![("secondary", "#00FF00")]);
    let engine = TemplateEngine::new(&toml_data);
    let source = "hex:1.5 || str:0.5 || hex:colors.secondary";
    let mut answers: Vec<Answer> = Vec::new();
    assert_eq!(engine.resolve_block(source, &answers), Step::Need(Request::ParseNumber("1.5".to_string())));
    answers.push(Answer::Flag(true));
    assert_eq!(
        engine.resolve_block(source, &answers),
        Step::Need(Request::ParseNumber("0.5".to_string()))
    );
    answers.push(Answer::Flag(true));
    assert_eq!(
        engine.resolve_block(source, &answers),
        Step::Need(Request::NumberText(Number::Literal("0.5".to_string())))
    );
    answers.push(Answer::Text("0.5".to_string()));
    assert_eq!(engine.resolve_block(source, &answers), Step::Done(Ok("0.5".to_string())));
}

#[test]
fn lexer_and_parser_errors_name_the_block() {
    let toml_data = colours_table(vec![]);
    let engine = TemplateEngine::new(&toml_data);
    assert_eq!(
        resolve(&engine, "hex:#12345", &mut Palette::new()),
        Err("Lexer error in 'hex:#12345': Invalid hex colour: #12345".to_string())
    );
    assert_eq!(
        resolve(&engine, "colors.primary", &mut Palette::new()),
        Err("Parser error in 'colors.primary': Expected ':' after format identifier".to_string())
    );
}

#[test]
fn test_builtin_random_select() {
    let args = vec![
        Value::String("apple".to_string()),
        Value::String("banana".to_string()),
        Value::String("cherry".to_string()),
    ];
    let result = builtin_random_select(&args);
    assert!(result.is_ok());
    let selected_value = result.unwrap();
    assert!(args.contains(&selected_value));
}

#[test]
fn random_select_needs_an_argument() {
    assert_eq!(
        builtin_random_select(&[]),
        Err("random_select function expects at least 1 argument".to_string())
    );
    let one = vec![Value::Number(Number::Integer(3))];
    assert_eq!(builtin_random_select(&one), Ok(Value::Number(Number::Integer(3))));
}

#[test]
fn builtins_check_their_arguments() {
    let none: Vec<Answer> = Vec::new();
    let red = Value::Colour(ColourHandle { id: 0 });
    let half = Value::Number(Number::Literal("0.5".to_string()));
    let word = Value::String("no colour".to_string());
    assert_eq!(
        builtin_darken(&[red.clone()], &none, 0),
        (Step::Done(Err("darken function expects 2 arguments, got 1".to_string())), 0)
    );
    assert_eq!(
        builtin_blend(&[red.clone(), half.clone()], &none, 0),
        (Step::Done(Err("blend function expects 3 arguments, got 2".to_string())), 0)
    );
    assert_eq!(
        builtin_multiply_brightness(&[], &none, 0),
        (Step::Done(Err("multiply_brightness function expects 2 arguments, got 0".to_string())), 0)
    );
    assert_eq!(
        builtin_darken(&[half.clone(), half.clone()], &none, 0),
        (Step::Done(Err("First argument to darken must be a colour".to_string())), 0)
    );
    assert_eq!(
        builtin_darken(&[red.clone(), red.clone()], &none, 0),
        (Step::Done(Err("Second argument to darken must be a number".to_string())), 0)
    );
    assert_eq!(
        builtin_blend(&[red.clone(), red.clone(), red.clone()], &none, 0),
        (Step::Done(Err("Third argument to blend must be a number".to_string())), 0)
    );
    assert_eq!(
        builtin_multiply_brightness(&[red.clone(), word.clone()], &none, 0),
        (Step::Done(Err("Second argument to multiply_brightness must be a number".to_string())), 0)
    );
    let refused = vec![Answer::Colour(Err("bad".to_string()))];
    assert_eq!(
        builtin_darken(&[word.clone(), half.clone()], &refused, 0),
        (Step::Done(Err("First argument to darken must be a colour".to_string())), 1)
    );
    let parsed = vec![Answer::Colour(Ok(ColourHandle { id: 4 }))];
    assert_eq!(
        builtin_blend(&[word.clone(), red.clone(), half.clone()], &parsed, 0),
        (Step::Need(Request::ParseColour("no colour".to_string())), 1)
    );
    let both = vec![Answer::Colour(Ok(ColourHandle { id: 4 })), Answer::Colour(Err("bad".to_string()))];
    assert_eq!(
        builtin_blend(&[word.clone(), red.clone(), half.clone()], &both, 0),
        (Step::Done(Err("Second argument to blend must be a colour".to_string())), 2)
    );
}

#[test]
fn builtins_hand_the_colour_operation_out() {
    let red = Value::Colour(ColourHandle { id: 0 });
    let half = Value::Number(Number::Literal("0.5".to_string()));
    let none: Vec<Answer> = Vec::new();
    assert_eq!(
        builtin_multiply_brightness(&[red.clone(), half.clone()], &none, 0),
        (Step::Need(Request::MultiplyBrightness(ColourHandle { id: 0 }, Number::Literal("0.5".to_string()))), 0)
    );
    let failed = vec![Answer::Colour(Err("too dark".to_string()))];
    assert_eq!(
        builtin_multiply_brightness(&[red.clone(), half.clone()], &failed, 0),
        (Step::Done(Err("Failed to modify brightness: too dark".to_string())), 1)
    );
    let blended = vec![Answer::Colour(Ok(ColourHandle { id: 9 }))];
    assert_eq!(
        builtin_blend(&[red.clone(), red.clone(), half.clone()], &blended, 0),
        (Step::Done(Ok(Value::Colour(ColourHandle { id: 9 }))), 1)
    );
}

fn render(
    engine: &TemplateEngine,
    content: &str,
    defs: &Vec<ColourDefinition>,
    palette: &mut Palette,
) -> Result<RenderedTemplate, String> {
    let mut answers: Vec<Answer> = Vec::new();
    loop {
        match render_template(engine, content, defs, &answers) {
            Step::Done(r) => return r,
            Step::Need(req) => {
                let a = palette.perform(&req);
                answers.push(a);
            }
        }
    }
}

#[test]
fn template_expressions_are_replaced_by_their_text() {
    let toml_data = colours_table(vec![("primary", "#FF0000"), ("secondary", "#00FF00")]);
    let engine = TemplateEngine::new(&toml_data);
    let content = "fg = {{ hex:colors.primary }}\nbg = {{rgb:colors.secondary}}\nagain = {{ hex:colors.primary }}\nlit = \\{x}\n";
    let out = render(&engine, content, &Vec::new(), &mut Palette::new()).unwrap();
    assert_eq!(out.content, "fg = FF0000\nbg = rgb(0, 255, 0)\nagain = FF0000\nlit = {x}\n");
    assert_eq!(
        out.definitions,
        vec![
            ColourDefinition { label: "{{ hex:colors.primary }}".to_string(), colour_str: "FF0000".to_string() },
            ColourDefinition {
                label: "{{rgb:colors.secondary}}".to_string(),
                colour_str: "rgb(0, 255, 0)".to_string()
            },
        ]
    );
}

#[test]
fn earlier_definitions_are_reused_and_kept() {
    let toml_data = colours_table(vec![("primary", "#FF0000")]);
    let engine = TemplateEngine::new(&toml_data);
    let earlier = vec![ColourDefinition { label: "{{ old }}".to_string(), colour_str: "OLD".to_string() }];
    let matches = vec!["{{ old }}".to_string(), "{{hex:colors.primary}}".to_string()];
    let answers = vec![Answer::Colour(Ok(ColourHandle { id: 0 })), Answer::Text("FF0000".to_string())];
    let out = render_with_matches(&engine, "{{ old }} {{hex:colors.primary}}", &matches, &earlier, &answers);
    assert_eq!(
        out,
        Step::Done(Ok(RenderedTemplate {
            content: "OLD FF0000".to_string(),
            definitions: vec![
                ColourDefinition { label: "{{ old }}".to_string(), colour_str: "OLD".to_string() },
                ColourDefinition { label: "{{hex:colors.primary}}".to_string(), colour_str: "FF0000".to_string() },
            ],
        }))
    );
}

#[test]
fn failing_expression_stops_rendering() {
    let toml_data = colours_table(vec![]);
    let engine = TemplateEngine::new(&toml_data);
    let out = render(&engine, "a {{ hex:colors.primary }} b", &Vec::new(), &mut Palette::new());
    assert_eq!(
        out,
        Err("Error resolving expression '{{ hex:colors.primary }}': All fallbacks failed for 'hex:colors.primary'. Last error: Path not found in TOML: [\"colors\", \"primary\"]"
            .to_string())
    );
}

#[test]
fn further_answers_leave_a_finished_resolution_unchanged() {
    let toml_data = colours_table(vec![("primary", "#FF0000")]);
    let engine = TemplateEngine::new(&toml_data);
    let source = "hex:colors.primary";
    let mut answers = vec![Answer::Colour(Ok(ColourHandle { id: 3 }))];
    assert_eq!(
        engine.resolve_block(source, &answers),
        Step::Need(Request::ColourText(ColourFormat::Hex, ColourHandle { id: 3 }))
    );
    answers.push(Answer::Text("FF0000".to_string()));
    let finished = engine.resolve_block(source, &answers);
    assert_eq!(finished, Step::Done(Ok("FF0000".to_string())));
    answers.push(Answer::Flag(false));
    answers.push(Answer::Text("ignored".to_string()));
    assert_eq!(engine.resolve_block(source, &answers), finished);
    assert_eq!(engine.resolve_block_from(source, &answers, 0), (finished, 2));
}

#[test]
fn failing_argument_wins_over_unknown_function() {
    let toml_data = mock_toml();
    let evaluator = Evaluator::new(&toml_data);
    let ast = TemplateExpr {
        format: "hex",
        expr: Expr::Function { name: "magic_spell", args: vec![Expr::Identifier(vec!["nowhere"])] },
    };
    assert_eq!(
        evaluate(&evaluator, &ast, &mut Palette::new()),
        Err("Path not found in TOML: [\"nowhere\"]".to_string())
    );
}
