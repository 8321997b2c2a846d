use lox_r::scanner::{LexError, Scanner};
use lox_r::token::{LiteralType, Token, TokenType};

fn scan(source: &str) -> (Vec<Token>, Vec<LexError>) {
    let mut scanner = Scanner::new(source.to_string());
    let tokens = scanner.scan_tokens();
    (tokens, scanner.errors)
}

fn tok(token_type: TokenType, lexeme: &str, literal: Option<LiteralType>, line: usize) -> Token {
    Token::new(token_type, lexeme.to_string(), literal, line)
}

fn num(lexeme: &str, line: usize) -> Token {
    tok(
        TokenType::NUMBER,
        lexeme,
        Some(LiteralType::Number(lexeme.to_string())),
        line,
    )
}

#[test]
fn scans_arithmetic_expression() {
    let (tokens, errors) = scan("1 + 2 * 3");
    let expected = vec![
        num("1", 1),
        tok(TokenType::PLUS, "+", None, 1),
        num("2", 1),
        tok(TokenType::STAR, "*", None, 1),
        num("3", 1),
        tok(TokenType::EOF, "", None, 1),
    ];
    assert_eq!(tokens, expected);
    assert!(errors.is_empty());
}

#[test]
fn dot_after_number_is_its_own_token() {
    let (tokens, errors) = scan("1.");
    let expected = vec![
        num("1", 1),
        tok(TokenType::DOT, ".", None, 1),
        tok(TokenType::EOF, "", None, 1),
    ];
    assert_eq!(tokens, expected);
    assert!(errors.is_empty());
}

#[test]
fn fractional_number_is_one_token() {
    let (tokens, errors) = scan("1.25");
    let expected = vec![num("1.25", 1), tok(TokenType::EOF, "", None, 1)];
    assert_eq!(tokens, expected);
    assert!(errors.is_empty());
}

#[test]
fn unterminated_string_records_error_and_still_reaches_eof() {
    let (tokens, errors) = scan("\"abc");
    assert_eq!(tokens, vec![tok(TokenType::EOF, "", None, 1)]);
    assert_eq!(errors, vec![LexError::UnterminatedString { line: 1 }]);
}

#[test]
fn string_literal_value_is_between_the_quotes() {
    let (tokens, errors) = scan("\"hi\"");
    let expected = vec![
        tok(
            TokenType::STRING,
            "\"hi\"",
            Some(LiteralType::Str("hi".to_string())),
            1,
        ),
        tok(TokenType::EOF, "", None, 1),
    ];
    assert_eq!(tokens, expected);
    assert!(errors.is_empty());
}

#[test]
fn newline_inside_string_increments_line() {
    // The token is at the line where the string starts; the newline inside
    // it still moves the line counter, as the EOF sentinel shows.
    let (tokens, errors) = scan("\"a\nb\"");
    let expected = vec![
        tok(
            TokenType::STRING,
            "\"a\nb\"",
            Some(LiteralType::Str("a\nb".to_string())),
            1,
        ),
        tok(TokenType::EOF, "", None, 2),
    ];
    assert_eq!(tokens, expected);
    assert!(errors.is_empty());
}

#[test]
fn code_after_a_multiline_string_is_on_the_later_line() {
    let (tokens, errors) = scan("\"a\nb\" foo");
    assert_eq!(tokens[0].line, 1);
    assert_eq!(tokens[1], tok(TokenType::IDENTIFIER, "foo", None, 2));
    assert!(errors.is_empty());
}

#[test]
fn unterminated_multiline_string_error_is_where_scanning_stopped() {
    let (tokens, errors) = scan("\"a\nb");
    assert_eq!(tokens, vec![tok(TokenType::EOF, "", None, 2)]);
    assert_eq!(errors, vec![LexError::UnterminatedString { line: 2 }]);
}

#[test]
fn line_comment_contributes_no_tokens_and_line_advances() {
    let (tokens, errors) = scan("// a comment\nfoo");
    let expected = vec![
        tok(TokenType::IDENTIFIER, "foo", None, 2),
        tok(TokenType::EOF, "", None, 2),
    ];
    assert_eq!(tokens, expected);
    assert!(errors.is_empty());
}

#[test]
fn block_comment_is_skipped_and_its_newlines_are_counted() {
    let (tokens, errors) = scan("/* a\nb */ foo");
    let expected = vec![
        tok(TokenType::IDENTIFIER, "foo", None, 2),
        tok(TokenType::EOF, "", None, 2),
    ];
    assert_eq!(tokens, expected);
    assert!(errors.is_empty());
}

#[test]
fn unterminated_block_comment_consumes_the_rest() {
    let (tokens, errors) = scan("/* abc");
    assert_eq!(tokens, vec![tok(TokenType::EOF, "", None, 1)]);
    assert!(errors.is_empty());
}

#[test]
fn bare_slash_is_a_token() {
    let (tokens, _) = scan("6 / 3");
    assert_eq!(tokens[1], tok(TokenType::SLASH, "/", None, 1));
}

#[test]
fn two_character_operators_use_maximal_munch() {
    let (tokens, errors) = scan("! != = == < <= > >=");
    let kinds: Vec<TokenType> = tokens.iter().map(|t| t.token_type).collect();
    assert_eq!(
        kinds,
        vec![
            TokenType::BANG,
            TokenType::BANG_EQUAL,
            TokenType::EQUAL,
            TokenType::EQUAL_EQUAL,
            TokenType::LESS,
            TokenType::LESS_EQUAL,
            TokenType::GREATER,
            TokenType::GREATER_EQUAL,
            TokenType::EOF,
        ]
    );
    assert!(errors.is_empty());
}

#[test]
fn punctuation_tokens() {
    let (tokens, errors) = scan("(){},.-+;");
    let kinds: Vec<TokenType> = tokens.iter().map(|t| t.token_type).collect();
    assert_eq!(
        kinds,
        vec![
            TokenType::LEFT_PAREN,
            TokenType::RIGHT_PAREN,
            TokenType::LEFT_BRACE,
            TokenType::RIGHT_BRACE,
            TokenType::COMMA,
            TokenType::DOT,
            TokenType::MINUS,
            TokenType::PLUS,
            TokenType::SEMICOLON,
            TokenType::EOF,
        ]
    );
    assert!(errors.is_empty());
}

#[test]
fn keywords_are_recognized() {
    let (tokens, errors) = scan(
        "and class else false fun for if nil or print return super this true var while",
    );
    let kinds: Vec<TokenType> = tokens.iter().map(|t| t.token_type).collect();
    assert_eq!(
        kinds,
        vec![
            TokenType::AND,
            TokenType::CLASS,
            TokenType::ELSE,
            TokenType::FALSE,
            TokenType::FUN,
            TokenType::FOR,
            TokenType::IF,
            TokenType::NIL,
            TokenType::OR,
            TokenType::PRINT,
            TokenType::RETURN,
            TokenType::SUPER,
            TokenType::THIS,
            TokenType::TRUE,
            TokenType::VAR,
            TokenType::WHILE,
            TokenType::EOF,
        ]
    );
    assert!(errors.is_empty());
    for t in tokens.iter().take(16) {
        assert_eq!(t.literal, None);
    }
}

#[test]
fn identifiers_with_underscores_and_digits() {
    let (tokens, _) = scan("_foo bar_2 andx");
    assert_eq!(tokens[0], tok(TokenType::IDENTIFIER, "_foo", None, 1));
    assert_eq!(tokens[1], tok(TokenType::IDENTIFIER, "bar_2", None, 1));
    assert_eq!(tokens[2], tok(TokenType::IDENTIFIER, "andx", None, 1));
}

#[test]
fn unexpected_character_is_reported_and_scanning_continues() {
    let (tokens, errors) = scan("@ 1");
    assert_eq!(
        errors,
        vec![LexError::UnexpectedCharacter { line: 1, ch: '@' }]
    );
    assert_eq!(tokens, vec![num("1", 1), tok(TokenType::EOF, "", None, 1)]);
}

#[test]
fn empty_input_scans_to_exactly_eof() {
    let (tokens, errors) = scan("");
    assert_eq!(tokens, vec![tok(TokenType::EOF, "", None, 1)]);
    assert!(errors.is_empty());
}

#[test]
fn get_keywords_lists_all_sixteen() {
    let kw = lox_r::scanner::get_keywords();
    assert_eq!(kw.len(), 16);
    assert_eq!(kw[0], ("and".to_string(), TokenType::AND));
    assert_eq!(kw[15], ("while".to_string(), TokenType::WHILE));
}

#[test]
fn keyword_kind_looks_spellings_up() {
    assert_eq!(
        lox_r::scanner::keyword_kind(&"for".to_string()),
        Some(TokenType::FOR)
    );
    assert_eq!(lox_r::scanner::keyword_kind(&"foo".to_string()), None);
}

#[test]
fn token_to_string_shows_kind_lexeme_and_literal() {
    let t = num("1", 1);
    assert_eq!(t.to_string(), "NUMBER 1 1");
    let t2 = tok(TokenType::PLUS, "+", None, 1);
    assert_eq!(t2.to_string(), "PLUS + ");
}

#[test]
fn diagnostics_have_the_driver_facing_shape() {
    assert_eq!(
        lox_r::err(3, "Unterminated string."),
        "[line 3] Error: Unterminated string."
    );
    assert_eq!(
        lox_r::report(12, " at ')'", "oops"),
        "[line 12] Error at ')': oops"
    );
    assert_eq!(lox_r::render_usize(0), "0");
    assert_eq!(lox_r::render_usize(10), "10");
    assert_eq!(lox_r::render_usize(90127), "90127");
}
