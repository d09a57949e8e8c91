use rlox::error::ParsingErr;
use rlox::expr::{infix_op, BinaryOp, Expr, Lit};
use rlox::lex::{Lexer, Token, TokenType};
use rlox::parser::Parser;
use rlox::RLox;

fn show(e: &Expr) -> String {
    match e {
        Expr::Literal(Lit::Str(s), _) => format!("'{}'", s),
        Expr::Literal(Lit::Int(v), _) => format!("{}", v),
        Expr::Literal(Lit::FLoat(s), _) => format!("{}f", s),
        Expr::Literal(Lit::Boolean(b), _) => format!("{}", b),
        Expr::Identifier(id, _) => id.clone(),
        Expr::Let(x, _) => format!("Let({})", show(x)),
        Expr::Group(x, _) => format!("Group({})", show(x)),
        Expr::Block(xs, _) => format!("Block[{}]", xs.iter().map(show).collect::<Vec<_>>().join(", ")),
        Expr::Binary { left, op, right, .. } => format!("({} {:?} {})", show(left), op, show(right)),
    }
}

fn parse(src: &str) -> Result<Option<Expr>, ParsingErr> {
    let tokens = Lexer::new(src).tokenize().unwrap();
    Parser::new(tokens).parse()
}

fn parsed(src: &str) -> String {
    show(&parse(src).unwrap().unwrap())
}

fn error_of(src: &str) -> String {
    let err = parse(src).unwrap_err();
    assert_eq!(err.messages().len(), 1);
    err.messages()[0].clone()
}

#[test]
fn identifier_operator_identifier() {
    let ops = [
        ("+", "Add"),
        ("-", "Sub"),
        ("*", "Mul"),
        ("/", "Div"),
        ("%", "Modulo"),
        ("=", "Equal"),
        ("==", "EqualEqual"),
        ("<", "Less"),
        ("<=", "LessEqual"),
        (">", "Greater"),
        (">=", "GreaterEqual"),
        ("!=", "NotEqual"),
    ];
    for (text, name) in ops {
        let src = format!("left {} right;", text);
        assert_eq!(parsed(&src), format!("Block[(left {} right)]", name));
    }
}

#[test]
fn same_level_groups_to_the_left() {
    assert_eq!(parsed("1 + 2 + 3"), "Block[((1 Add 2) Add 3)]");
    assert_eq!(parsed("8 - 4 - 2"), "Block[((8 Sub 4) Sub 2)]");
}

#[test]
fn multiplication_binds_tighter() {
    assert_eq!(parsed("1 + 2 * 3"), "Block[(1 Add (2 Mul 3))]");
    assert_eq!(parsed("1 < 2 + 3"), "Block[(1 Less (2 Add 3))]");
}

#[test]
fn grouping_overrides_precedence() {
    assert_eq!(parsed("(1 + 2) * 3"), "Block[(Group((1 Add 2)) Mul 3)]");
}

#[test]
fn let_requires_assignment() {
    assert_eq!(error_of("let a;"), "let a;\n^ Failed to parse let expression, in line 1");
    assert_eq!(parsed("let a = 1;"), "Block[Let((a Equal 1))]");
    match parse("let a = 1;").unwrap().unwrap() {
        Expr::Block(xs, 0) => match &xs[0] {
            Expr::Let(inner, 0) => match &**inner {
                Expr::Binary { left, op, right, start } => {
                    assert!(matches!(&**left, Expr::Identifier(a, 4) if a == "a"));
                    assert_eq!(*op, BinaryOp::Equal);
                    assert!(matches!(&**right, Expr::Literal(Lit::Int(1), 8)));
                    assert_eq!(*start, 6);
                },
                _ => panic!("not a binary node"),
            },
            _ => panic!("not a let"),
        },
        _ => panic!("not a block"),
    }
}

#[test]
fn let_with_other_operator() {
    assert_eq!(error_of("let a + 1;"), "let a + 1;\n^ expression should be assigned with '=' operator, in line 1");
}

#[test]
fn end_to_end_expression() {
    assert_eq!(parsed("(x + y) * z - 'name';"), "Block[((Group((x Add y)) Mul z) Sub 'name')]");
}

#[test]
fn end_to_end_scanner_failure() {
    let err = Lexer::new("1 == 1 ? 23 : 55;").tokenize().unwrap_err();
    assert_eq!(err.messages().len(), 1);
    assert!(err.messages()[0].contains("^ Illegal character"));
}

#[test]
fn several_statements() {
    assert_eq!(parsed("let a = 1;\nlet b = a * 2;\nb"), "Block[Let((a Equal 1)), Let((b Equal (a Mul 2))), b]");
    assert_eq!(parsed("{ 1; 2 }; 3.5"), "Block[Block[1, 2], 3.5f]");
    assert_eq!(parsed("true == false"), "Block[(true EqualEqual false)]");
}

#[test]
fn syntax_errors() {
    assert_eq!(error_of("1 + )"), "1 + )\n    ^ Unexpected prefix token type `RightParen`, in line 1");
    assert_eq!(error_of("(1 + 2"), "(1 + 2\n^ No closing parenthesis found, in line 1");
    assert_eq!(error_of("1 = 2;"), "1 = 2;\n  ^ Expression can only be assigned to a variable, in line 1");
    assert_eq!(error_of("a = 1"), "a = 1\n  ^ Statement not terminated properly, in line 1");
    assert_eq!(error_of("a (b)"), "a (b)\n  ^ Unexpected infix token type `LeftParen`, in line 1");
    assert_eq!(error_of("let"), "let\n  ^ Unexpected prefix token type `RightBrace`, in line 1");
    assert_eq!(error_of(""), "\n^ Unexpected prefix token type `RightBrace`, in line 1");
}

#[test]
fn statement_without_semicolon() {
    let err = parse("1 2").unwrap_err();
    assert_eq!(err.messages()[0], "1 2\n^ Statement didn't close with a ';', in line 1");
}

#[test]
fn right_operand_missing_at_end_of_tokens() {
    let src = "1 +";
    let tokens = vec![Token::new(src, 0, 0, TokenType::Int(1)), Token::new(src, 2, 2, TokenType::Plus)];
    let err = Parser::new(tokens).parse().unwrap_err();
    assert_eq!(err.messages()[0], "1 +\n  ^ Failed to parse right expression, in line 1");
}

#[test]
fn nothing_to_parse() {
    let mut parser = Parser::new(Vec::new());
    assert!(parser.parse().unwrap().is_none());
}

#[test]
fn next_token_queries() {
    let src = "a;";
    let tokens = Lexer::new(src).tokenize().unwrap();
    let mut parser = Parser::new(tokens);
    assert!(parser.has_next(TokenType::LeftBrace, false));
    assert!(parser.has_next(TokenType::LeftBrace, true));
    assert!(!parser.has_next(TokenType::LeftBrace, true));
    assert_eq!(parser.next_preced(), 0);
    assert_eq!(TokenType::Mul.infix_preced(), 4);
    assert_eq!(TokenType::LeftParen.infix_preced(), 5);
    assert_eq!(TokenType::Equal.infix_preced(), 1);
    assert_eq!(TokenType::keywords().len(), 11);
    let _ = RLox::default();
}

#[test]
fn kinds_are_shown_as_debug_shows_them() {
    let kinds: Vec<TokenType> = vec![
        TokenType::Int(-5),
        TokenType::Int(i64::MIN),
        TokenType::Int(42),
        TokenType::Boolean(true),
        TokenType::Boolean(false),
        TokenType::Identifier(String::from("abc_1")),
        TokenType::Str(String::from("a\"b\\c\nd\te\r\0\u{1b}\u{7f}'é")),
        TokenType::SemiColon,
        TokenType::LeftParen,
        TokenType::Print,
    ];
    for k in &kinds {
        assert_eq!(k.debug_text(), format!("{:?}", k));
    }
    assert_eq!(TokenType::Float(String::from("1.5")).debug_text(), "Float(1.5)");
}

#[test]
fn infix_message_shows_payload() {
    let src = "1 x";
    let tokens = vec![
        Token::new(src, 0, 0, TokenType::Int(1)),
        Token::new(src, 2, 2, TokenType::Identifier(String::from("x"))),
    ];
    let mut parser = Parser::new(tokens);
    let left = parser.parse().unwrap().unwrap();
    assert!(parser.has_next(TokenType::Identifier(String::from("x")), true));
    let token = Token::new(src, 2, 2, TokenType::Identifier(String::from("x")));
    let err = infix_op(&mut parser, left, token).unwrap_err();
    assert_eq!(err.messages()[0], "1 x\n  ^ Unexpected infix token type `Identifier(\"x\")`, in line 1");
}

#[test]
fn negative_binding_power_reports_instead_of_panicking() {
    let tokens = Lexer::new("a;").tokenize().unwrap();
    let mut parser = Parser::new(tokens);
    assert!(parser.has_next(TokenType::LeftBrace, true));
    let err = parser.parse_with_prec(-1).unwrap_err();
    assert_eq!(err.messages()[0], "a;\n ^ Unexpected infix token type `SemiColon`, in line 1");
}
