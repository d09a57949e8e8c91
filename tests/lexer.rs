use rlox::error::ParsingErr;
use rlox::lex::{Lexer, Token, TokenType};

fn scan(src: &str) -> Result<Vec<Token<'_>>, ParsingErr> {
    Lexer::new(src).tokenize()
}

fn kinds(src: &str) -> Vec<String> {
    scan(src).unwrap().iter().map(|t| format!("{:?}", t.token_type())).collect()
}

#[test]
fn test1() {
    let src = r#"
        let a = "My name is Prashant;
        let b = 234;
    "#;
    let err = Lexer::new(src).tokenize().unwrap_err();
    let msgs = err.messages();
    assert_eq!(msgs.len(), 1);
    let expected = format!(
        "        let a = \"My name is Prashant;\n{}^ String literal is not terminated, in line 2",
        " ".repeat(16)
    );
    assert_eq!(msgs[0], expected);
}

#[test]
fn test2() {
    let src = r#"
        let a = 5.2.3;
    "#;
    let err = Lexer::new(src).tokenize().unwrap_err();
    let msgs = err.messages();
    assert_eq!(msgs.len(), 1);
    let expected = format!("        let a = 5.2.3;\n{}^ '.' is not expected here, in line 2", " ".repeat(19));
    assert_eq!(msgs[0], expected);
}

#[test]
fn test3() {
    let src = r#"
        let a = 1 == 1 ? 23 : 55;
    "#;
    let err = Lexer::new(src).tokenize().unwrap_err();
    let msgs = err.messages();
    assert_eq!(msgs.len(), 1);
    let expected = format!("        let a = 1 == 1 ? 23 : 55;\n{}^ Illegal character, in line 2", " ".repeat(23));
    assert_eq!(msgs[0], expected);
}

#[test]
fn test4() {
    let src = r#"
        let abc1 = (x + y) * z - 'name';
    "#;
    let tokens = Lexer::new(src).tokenize().unwrap();
    let got: Vec<String> = tokens.iter().map(|t| format!("{:?}", t.token_type())).collect();
    let expected = vec![
        "LeftBrace",
        "Let",
        "Identifier(\"abc1\")",
        "Equal",
        "LeftParen",
        "Identifier(\"x\")",
        "Plus",
        "Identifier(\"y\")",
        "RightParen",
        "Mul",
        "Identifier(\"z\")",
        "Minus",
        "Str(\"name\")",
        "SemiColon",
        "RightBrace",
    ];
    assert_eq!(got, expected);
    assert_eq!(tokens[1].start(), 9);
    assert_eq!(tokens[tokens.len() - 1].start(), src.len() - 1);
}

#[test]
fn unterminated_string_points_at_opening_quote() {
    let src = "let a = \"abc;";
    let err = scan(src).unwrap_err();
    let msgs = err.messages();
    assert_eq!(msgs.len(), 1);
    assert_eq!(msgs[0], format!("let a = \"abc;\n{}^ String literal is not terminated, in line 1", " ".repeat(8)));
}

#[test]
fn every_illegal_character_is_reported() {
    let src = "a ? b;\nc ? d;";
    let err = scan(src).unwrap_err();
    let msgs = err.messages();
    assert_eq!(msgs.len(), 2);
    assert_eq!(msgs[0], "a ? b;\n  ^ Illegal character, in line 1");
    assert_eq!(msgs[1], "c ? d;\n  ^ Illegal character, in line 2");
}

#[test]
fn equal_equal_is_one_token() {
    assert_eq!(kinds("a == b"), vec!["LeftBrace", "Identifier(\"a\")", "EqualEqual", "Identifier(\"b\")", "RightBrace"]);
    assert_eq!(kinds("a = b"), vec!["LeftBrace", "Identifier(\"a\")", "Equal", "Identifier(\"b\")", "RightBrace"]);
    let t = scan("a==b").unwrap();
    assert_eq!(t[2].start(), 1);
    assert_eq!(t[2].end, 2);
}

#[test]
fn two_character_operators() {
    assert_eq!(
        kinds("< <= > >= ! !="),
        vec!["LeftBrace", "Less", "LessEqual", "Greater", "GreaterEqual", "Not", "NotEqual", "RightBrace"]
    );
}

#[test]
fn second_dot_in_number() {
    let err = scan("5.2.3").unwrap_err();
    let msgs = err.messages();
    assert_eq!(msgs.len(), 1);
    assert_eq!(msgs[0], "5.2.3\n   ^ '.' is not expected here, in line 1");
}

#[test]
fn synthetic_braces_wrap_every_scan() {
    let src = "x + 1";
    let t = scan(src).unwrap();
    assert!(matches!(t[0].token_type(), TokenType::LeftBrace));
    assert_eq!(t[0].start(), 0);
    assert!(matches!(t[t.len() - 1].token_type(), TokenType::RightBrace));
    assert_eq!(t[t.len() - 1].start(), 4);
    let t = scan("").unwrap();
    assert_eq!(t.len(), 2);
    assert_eq!(t[1].start(), 0);
}

#[test]
fn question_mark_is_illegal() {
    let err = scan("1 == 1 ? 23 : 55;").unwrap_err();
    let msgs = err.messages();
    assert_eq!(msgs.len(), 1);
    assert_eq!(msgs[0], "1 == 1 ? 23 : 55;\n       ^ Illegal character, in line 1");
}

#[test]
fn numbers_and_dots() {
    assert_eq!(kinds("12 1.5 .5 1. ."), vec![
        "LeftBrace",
        "Int(12)",
        "Float(\"1.5\")",
        "Float(\".5\")",
        "Float(\"1.\")",
        "Dot",
        "RightBrace",
    ]);
}

#[test]
fn integer_too_large() {
    let err = scan("x = 99999999999999999999;").unwrap_err();
    assert_eq!(err.messages()[0], "x = 99999999999999999999;\n    ^ Integer literal is too large, in line 1");
    assert_eq!(kinds("9223372036854775807"), vec!["LeftBrace", "Int(9223372036854775807)", "RightBrace"]);
}

#[test]
fn keywords_and_comments() {
    assert_eq!(
        kinds("let fn return for while if else null print true false lettuce # all skipped\n_x1"),
        vec![
            "LeftBrace",
            "Let",
            "Function",
            "Return",
            "For",
            "While",
            "If",
            "Else",
            "Null",
            "Print",
            "Boolean(true)",
            "Boolean(false)",
            "Identifier(\"lettuce\")",
            "Identifier(\"_x1\")",
            "RightBrace",
        ]
    );
}

#[test]
fn escaped_quote_inside_string() {
    assert_eq!(kinds(r#""a\"b" 'c'"#), vec!["LeftBrace", "Str(\"a\\\\\\\"b\")", "Str(\"c\")", "RightBrace"]);
}

#[test]
fn offsets_are_bytes() {
    let src = "'é' + x";
    let t = scan(src).unwrap();
    assert_eq!(t[1].end, 3);
    assert_eq!(t[2].start(), 5);
    let err = scan("'é' ?").unwrap_err();
    assert_eq!(err.messages()[0], "'é' ?\n     ^ Illegal character, in line 1");
}

#[test]
fn punctuation() {
    assert_eq!(
        kinds("( ) { } [ ] + - * / % , ; :"),
        vec![
            "LeftBrace", "LeftParen", "RightParen", "LeftBrace", "RightBrace", "LeftSquare", "RightSquare", "Plus",
            "Minus", "Mul", "Div", "Modulo", "Comma", "SemiColon", "Colon", "RightBrace",
        ]
    );
}

#[test]
fn render_several_lines() {
    let src = "one\ntwo\nthree";
    let err = ParsingErr::new(src, &[(0, "first"), (9, "third"), (4, "second")]);
    let msgs = err.messages();
    assert_eq!(msgs[0], "one\n^ first, in line 1");
    assert_eq!(msgs[1], "three\n ^ third, in line 3");
    assert_eq!(msgs[2], "two\n^ second, in line 2");
}
