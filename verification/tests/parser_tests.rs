use lox_r::expr::{print_expr, AstPrinter, Binary, Expr, Grouping, Literal, Unary};
use lox_r::parser::{Parse, ParseError};
use lox_r::scanner::Scanner;
use lox_r::token::{LiteralType, Token, TokenType};

fn parse_source(source: &str) -> Result<Expr, ParseError> {
    let mut scanner = Scanner::new(source.to_string());
    scanner.scan_tokens();
    let mut parser = Parse::new(scanner);
    parser.parse()
}

fn tok(token_type: TokenType, lexeme: &str, line: usize) -> Token {
    Token::new(token_type, lexeme.to_string(), None, line)
}

fn number(lexeme: &str) -> Expr {
    Expr::Literal(Literal {
        value: LiteralType::Number(lexeme.to_string()),
    })
}

fn binary(left: Expr, operator: Token, right: Expr) -> Expr {
    Expr::Binary(Binary {
        left: Box::new(left),
        operator,
        right: Box::new(right),
    })
}

fn grouping(inner: Expr) -> Expr {
    Expr::Grouping(Grouping {
        expr: Box::new(inner),
    })
}

#[test]
fn multiplication_binds_tighter_than_addition() {
    let expr = parse_source("1 + 2 * 3").unwrap();
    let expected = binary(
        number("1"),
        tok(TokenType::PLUS, "+", 1),
        binary(number("2"), tok(TokenType::STAR, "*", 1), number("3")),
    );
    assert_eq!(expr, expected);
}

#[test]
fn parentheses_override_precedence() {
    let expr = parse_source("(1 + 2) * 3").unwrap();
    let expected = binary(
        grouping(binary(
            number("1"),
            tok(TokenType::PLUS, "+", 1),
            number("2"),
        )),
        tok(TokenType::STAR, "*", 1),
        number("3"),
    );
    assert_eq!(expr, expected);
}

#[test]
fn same_precedence_operators_associate_to_the_left() {
    let expr = parse_source("1 - 2 - 3").unwrap();
    let expected = binary(
        binary(number("1"), tok(TokenType::MINUS, "-", 1), number("2")),
        tok(TokenType::MINUS, "-", 1),
        number("3"),
    );
    assert_eq!(expr, expected);
}

#[test]
fn chained_unary_operators_associate_to_the_right() {
    let expr = parse_source("!!true").unwrap();
    let expected = Expr::Unary(Unary {
        operator: tok(TokenType::BANG, "!", 1),
        right: Box::new(Expr::Unary(Unary {
            operator: tok(TokenType::BANG, "!", 1),
            right: Box::new(Expr::Literal(Literal {
                value: LiteralType::Bool(true),
            })),
        })),
    });
    assert_eq!(expr, expected);
}

#[test]
fn comparison_binds_tighter_than_equality() {
    let expr = parse_source("1 < 2 == false").unwrap();
    let expected = binary(
        binary(number("1"), tok(TokenType::LESS, "<", 1), number("2")),
        tok(TokenType::EQUAL_EQUAL, "==", 1),
        Expr::Literal(Literal {
            value: LiteralType::Bool(false),
        }),
    );
    assert_eq!(expr, expected);
}

#[test]
fn keyword_literals_become_literal_values() {
    assert_eq!(
        parse_source("nil").unwrap(),
        Expr::Literal(Literal {
            value: LiteralType::Nil
        })
    );
    assert_eq!(
        parse_source("false").unwrap(),
        Expr::Literal(Literal {
            value: LiteralType::Bool(false)
        })
    );
    assert_eq!(
        parse_source("\"abc\"").unwrap(),
        Expr::Literal(Literal {
            value: LiteralType::Str("abc".to_string())
        })
    );
}

#[test]
fn empty_input_fails_with_expected_expression() {
    let err = parse_source("").unwrap_err();
    assert_eq!(
        err,
        ParseError::ExpectedExpression {
            found: Token::new(TokenType::EOF, "".to_string(), None, 1),
            line: 1,
        }
    );
}

#[test]
fn missing_closing_paren_names_the_expected_token() {
    let err = parse_source("(1").unwrap_err();
    assert_eq!(
        err,
        ParseError::ExpectedToken {
            expected: TokenType::RIGHT_PAREN,
            found: Token::new(TokenType::EOF, "".to_string(), None, 1),
            line: 1,
        }
    );
}

#[test]
fn stray_operator_fails_with_expected_expression() {
    let err = parse_source("1 + * 2").unwrap_err();
    assert_eq!(
        err,
        ParseError::ExpectedExpression {
            found: tok(TokenType::STAR, "*", 1),
            line: 1,
        }
    );
}

fn reparse(printed: &str) -> Expr {
    parse_source(printed).unwrap()
}

#[test]
fn printing_and_reparsing_keeps_the_tree() {
    for source in [
        "1 + 2 * 3",
        "(1 + 2) * 3",
        "1 - 2 - 3",
        "!!true",
        "1 < 2 == false",
        "-1 + -2",
        "\"a\" == \"b\"",
        "nil != false",
        "((1.5))",
        "!(((nil)))",
        "-(-1.5)",
        "!!(\"x\")",
        "(1 + 2) * (3 - 4)",
        "!(1 == 2) != (nil == nil)",
        "((1 < 2)) == true",
        "1 / 2 / 3 > 4",
    ] {
        let tree = parse_source(source).unwrap();
        let printed = print_expr(&tree);
        assert_eq!(printed, source, "printing should reproduce {source}");
        assert_eq!(reparse(&printed), tree, "round trip failed for {source}");
    }
}

#[test]
fn failed_primary_consumes_no_token() {
    let mut scanner = Scanner::new("* 1".to_string());
    scanner.scan_tokens();
    let mut parser = Parse::new(scanner);
    let result = parser.parse();
    assert!(result.is_err());
    assert_eq!(parser.current, 0);
}

#[test]
fn parse_source_runs_the_whole_front_end() {
    let (tokens, errors, result) = lox_r::parser::parse_source("1 + 2".to_string());
    assert_eq!(tokens.len(), 4);
    assert!(errors.is_empty());
    assert_eq!(
        result.unwrap(),
        binary(number("1"), tok(TokenType::PLUS, "+", 1), number("2"))
    );

    let (tokens2, errors2, result2) = lox_r::parser::parse_source("@".to_string());
    assert_eq!(tokens2.len(), 1);
    assert_eq!(errors2.len(), 1);
    assert!(result2.is_err());
}

#[test]
fn printer_visitor_agrees_with_print_expr() {
    let tree = parse_source("(1 + 2) * -3").unwrap();
    let mut printer = AstPrinter {};
    assert_eq!(tree.accept(&mut printer), print_expr(&tree));
    assert_eq!(printer.print(&tree), print_expr(&tree));
}
