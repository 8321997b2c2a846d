//! Round-trip stability: writing a tree back as source text, rescanning and
//! reparsing yields a structurally identical tree.
//!
//! The law is proved here for every literal expression — every string value
//! without a quote character in it, every number as the lexer spells it,
//! both booleans and nil — and for every `printable_tree`: grouping and
//! unary nodes to any depth, where each parenthesis may enclose one binary
//! operation with any of the ten operators, so every fully parenthesized
//! expression is covered; `lemma_binary_round_trip` adds one unparenthesized
//! operation at the top. Chains of same-level operators outside parentheses
//! (`1 - 2 - 3`) are exercised by tests.

use vstd::prelude::*;

use crate::expr::{print_literal_model, print_model, ExprModel};
use crate::parser::{is_comparison_op, literal_of, p_comparison, p_comparison_tail, p_equality,
    p_equality_tail, p_expression, p_factor, p_factor_tail, p_primary, p_term, p_term_tail,
    p_unary, tok_at, ParseErrorModel};
use crate::scanner::{alnum_end, count_char, digits_end, eof_token, find_char, lemma_alnum_end,
    lemma_digits_end, lemma_find_char, lemma_scan_from_step, lex_step, scan_from, scan_source,
    LexErrorModel, LexStep};
use crate::token::{LiteralModel, TokenModel, TokenType};

verus! {

/// A number as the lexer spells one: digits, then optionally a dot with at
/// least one digit after it, and nothing else.
pub open spec fn wf_number_lexeme(s: Seq<char>) -> bool {
    let k = digits_end(s, 0);
    &&& s.len() >= 1
    &&& crate::scanner::is_digit_char(s[0])
    &&& (k == s.len() || (0 <= k && k < s.len() && s[k] == '.' && k + 1 < s.len()
        && crate::scanner::is_digit_char(s[k + 1]) && digits_end(s, k + 1) == s.len()))
}

/// A literal value as the lexer can produce one: string contents hold no
/// quote character, numbers are spelled as `wf_number_lexeme` says.
pub open spec fn wf_literal(l: LiteralModel) -> bool {
    match l {
        LiteralModel::Str(s) => forall|k: int| 0 <= k < s.len() ==> s[k] != '"',
        LiteralModel::Number(s) => wf_number_lexeme(s),
        LiteralModel::Bool(_) => true,
        LiteralModel::Nil => true,
    }
}

/// The single token that scanning a printed literal yields.
pub open spec fn literal_token(l: LiteralModel, line: int) -> TokenModel {
    match l {
        LiteralModel::Str(s) => TokenModel {
            token_type: TokenType::STRING,
            lexeme: "\""@ + s + "\""@,
            literal: Some(LiteralModel::Str(s)),
            line,
        },
        LiteralModel::Number(s) => TokenModel {
            token_type: TokenType::NUMBER,
            lexeme: s,
            literal: Some(LiteralModel::Number(s)),
            line,
        },
        LiteralModel::Bool(b) => TokenModel {
            token_type: if b {
                TokenType::TRUE
            } else {
                TokenType::FALSE
            },
            lexeme: if b {
                "true"@
            } else {
                "false"@
            },
            literal: None,
            line,
        },
        LiteralModel::Nil => TokenModel {
            token_type: TokenType::NIL,
            lexeme: "nil"@,
            literal: None,
            line,
        },
    }
}

/// Parsing a sequence that starts with one literal-carrying token followed
/// by the EOF sentinel yields exactly that literal expression and stops at
/// the sentinel.
proof fn lemma_parse_literal_token(toks: Seq<TokenModel>, e: ExprModel)
    requires
        toks.len() >= 2,
        toks[1].token_type == TokenType::EOF,
        ({
            let tt = toks[0].token_type;
            ||| (tt == TokenType::TRUE && e == (ExprModel::Literal { value: LiteralModel::Bool(true) }))
            ||| (tt == TokenType::FALSE && e == (ExprModel::Literal {
                value: LiteralModel::Bool(false),
            }))
            ||| (tt == TokenType::NIL && e == (ExprModel::Literal { value: LiteralModel::Nil }))
            ||| ((tt == TokenType::NUMBER || tt == TokenType::STRING) && e == literal_of(toks[0]))
        }),
    ensures
        p_expression(toks, 0) == Ok::<(ExprModel, int), ParseErrorModel>((e, 1)),
{
    assert(p_primary(toks, 0) == Ok::<(ExprModel, int), ParseErrorModel>((e, 1)));
    assert(p_unary(toks, 0) == Ok::<(ExprModel, int), ParseErrorModel>((e, 1)));
    assert(p_factor_tail(toks, 1, e) == Ok::<(ExprModel, int), ParseErrorModel>((e, 1)));
    assert(p_factor(toks, 0) == Ok::<(ExprModel, int), ParseErrorModel>((e, 1)));
    assert(p_term_tail(toks, 1, e) == Ok::<(ExprModel, int), ParseErrorModel>((e, 1)));
    assert(p_term(toks, 0) == Ok::<(ExprModel, int), ParseErrorModel>((e, 1)));
    assert(p_comparison_tail(toks, 1, e) == Ok::<(ExprModel, int), ParseErrorModel>((e, 1)));
    assert(p_comparison(toks, 0) == Ok::<(ExprModel, int), ParseErrorModel>((e, 1)));
    assert(p_equality_tail(toks, 1, e) == Ok::<(ExprModel, int), ParseErrorModel>((e, 1)));
    assert(p_equality(toks, 0) == Ok::<(ExprModel, int), ParseErrorModel>((e, 1)));
}

/// Scanning the printed form of a well-formed literal yields exactly its
/// token and the EOF sentinel, with no lexical error.
proof fn lemma_scan_literal(l: LiteralModel)
    requires
        wf_literal(l),
    ensures
        scan_source(print_literal_model(l)).errors == Seq::<LexErrorModel>::empty(),
        scan_source(print_literal_model(l)).tokens.len() == 2,
        scan_source(print_literal_model(l)).tokens[0] == literal_token(
            l,
            scan_source(print_literal_model(l)).tokens[0].line,
        ),
        scan_source(print_literal_model(l)).tokens[1].token_type == TokenType::EOF,
{
    let s = print_literal_model(l);
    match l {
        LiteralModel::Str(v) => {
            proof_scan_string(v);
        },
        LiteralModel::Number(v) => {
            proof_scan_number(v);
        },
        LiteralModel::Bool(b) => {
            if b {
                proof_scan_keyword_literal("true"@, TokenType::TRUE);
            } else {
                proof_scan_keyword_literal("false"@, TokenType::FALSE);
            }
        },
        LiteralModel::Nil => {
            proof_scan_keyword_literal("nil"@, TokenType::NIL);
        },
    }
}

/// The step facts shared by all single-token sources: when the first lexeme
/// covers the whole input and yields a token, the scan is that token and the
/// EOF sentinel.
proof fn proof_single_step_scan(s: Seq<char>, t: TokenModel)
    requires
        s.len() >= 1,
        lex_step(s, 0, 1).next == s.len(),
        lex_step(s, 0, 1).token == Some(t),
        lex_step(s, 0, 1).error is None,
    ensures
        scan_source(s).errors == Seq::<LexErrorModel>::empty(),
        scan_source(s).tokens.len() == 2,
        scan_source(s).tokens[0] == t,
        scan_source(s).tokens[1].token_type == TokenType::EOF,
{
    lemma_scan_from_step(s, 0, 1);
    let st = lex_step(s, 0, 1);
    let rest = scan_from(s, st.next, st.line2);
    assert(scan_source(s).tokens =~= seq![t] + rest.tokens);
    assert(scan_source(s).errors =~= Seq::<LexErrorModel>::empty() + rest.errors);
    assert(rest.errors =~= Seq::<LexErrorModel>::empty());
    assert(scan_source(s).errors =~= Seq::<LexErrorModel>::empty());
}

proof fn proof_scan_string(v: Seq<char>)
    requires
        forall|k: int| 0 <= k < v.len() ==> v[k] != '"',
    ensures
        scan_source("\""@ + v + "\""@).errors == Seq::<LexErrorModel>::empty(),
        scan_source("\""@ + v + "\""@).tokens.len() == 2,
        scan_source("\""@ + v + "\""@).tokens[0] == literal_token(
            LiteralModel::Str(v),
            scan_source("\""@ + v + "\""@).tokens[0].line,
        ),
        scan_source("\""@ + v + "\""@).tokens[1].token_type == TokenType::EOF,
{
    reveal_strlit("\"");
    let s = "\""@ + v + "\""@;
    let n = s.len() as int;
    assert(s[0] == '"');
    assert(s[n - 1] == '"');
    assert(forall|k: int| 1 <= k < n - 1 ==> s[k] == v[k - 1]);
    lemma_find_char(s, 1, '"');
    let q = find_char(s, 1, '"');
    assert(q == n - 1) by {
        if q < n - 1 {
            assert(s[q] != '"');
        }
    }
    let st = lex_step(s, 0, 1);
    assert(st.next == n);
    assert(st.error is None);
    let t = st.token.unwrap();
    assert(t.lexeme =~= s.subrange(0, n));
    assert(t.lexeme =~= s);
    assert(s.subrange(1, n - 1) =~= v);
    proof_single_step_scan(s, t);
}

proof fn proof_scan_number(v: Seq<char>)
    requires
        wf_number_lexeme(v),
    ensures
        scan_source(v).errors == Seq::<LexErrorModel>::empty(),
        scan_source(v).tokens.len() == 2,
        scan_source(v).tokens[0] == literal_token(
            LiteralModel::Number(v),
            scan_source(v).tokens[0].line,
        ),
        scan_source(v).tokens[1].token_type == TokenType::EOF,
{
    let s = v;
    let n = s.len() as int;
    let k = digits_end(s, 0);
    assert(digits_end(s, 1) == k);
    lemma_digits_end(s, 0);
    let st = lex_step(s, 0, 1);
    if k == n {
        assert(st.next == n);
    } else {
        lemma_digits_end(s, k + 1);
        assert(st.next == n);
    }
    let t = st.token.unwrap();
    assert(t.lexeme =~= s.subrange(0, n));
    assert(t.lexeme =~= s);
    proof_single_step_scan(s, t);
}

/// The keyword spellings scan as a single reserved-word token: their
/// characters are letters, so the whole spelling is one identifier lexeme,
/// and the keyword table maps it to its kind.
proof fn proof_scan_keyword_literal(w: Seq<char>, tt: TokenType)
    requires
        ({
            ||| (w == "true"@ && tt == TokenType::TRUE)
            ||| (w == "false"@ && tt == TokenType::FALSE)
            ||| (w == "nil"@ && tt == TokenType::NIL)
        }),
    ensures
        scan_source(w).errors == Seq::<LexErrorModel>::empty(),
        scan_source(w).tokens.len() == 2,
        scan_source(w).tokens[0] == (TokenModel {
            token_type: tt,
            lexeme: w,
            literal: None,
            line: scan_source(w).tokens[0].line,
        }),
        scan_source(w).tokens[1].token_type == TokenType::EOF,
{
    reveal_strlit("true");
    reveal_strlit("false");
    reveal_strlit("nil");
    reveal_strlit("and");
    reveal_strlit("class");
    reveal_strlit("else");
    reveal_strlit("for");
    reveal_strlit("fun");
    reveal_strlit("if");
    reveal_strlit("or");
    reveal_strlit("print");
    reveal_strlit("return");
    reveal_strlit("super");
    reveal_strlit("this");
    reveal_strlit("var");
    reveal_strlit("while");
    let s = w;
    let n = s.len() as int;
    lemma_alnum_end(s, 1);
    assert(alnum_end(s, 1) == n) by {
        if alnum_end(s, 1) < n {
            assert(crate::scanner::is_alnum_char(s[alnum_end(s, 1)]));
        }
    }
    let st = lex_step(s, 0, 1);
    assert(s.subrange(0, n) =~= s);
    assert(st.next == n);
    let t = st.token.unwrap();
    assert(t.token_type == tt);
    proof_single_step_scan(s, t);
}

/// A literal whose printed form stays on one line: what `wf_literal` asks,
/// and no newline inside a string value.
pub open spec fn wf_literal_inline(l: LiteralModel) -> bool {
    &&& wf_literal(l)
    &&& match l {
        LiteralModel::Str(s) => forall|k: int| 0 <= k < s.len() ==> s[k] != '\n',
        _ => true,
    }
}

/// The `!` operator token as scanning source on line `line` yields it.
pub open spec fn bang_token(line: int) -> TokenModel {
    TokenModel { token_type: TokenType::BANG, lexeme: seq!['!'], literal: None, line }
}

/// The `-` operator token as scanning source on line `line` yields it.
pub open spec fn minus_token(line: int) -> TokenModel {
    TokenModel { token_type: TokenType::MINUS, lexeme: seq!['-'], literal: None, line }
}

/// The token kinds of the ten binary operators.
pub open spec fn binary_op_kind(tt: TokenType) -> bool {
    ||| tt == TokenType::SLASH
    ||| tt == TokenType::STAR
    ||| tt == TokenType::MINUS
    ||| tt == TokenType::PLUS
    ||| tt == TokenType::GREATER
    ||| tt == TokenType::GREATER_EQUAL
    ||| tt == TokenType::LESS
    ||| tt == TokenType::LESS_EQUAL
    ||| tt == TokenType::BANG_EQUAL
    ||| tt == TokenType::EQUAL_EQUAL
}

/// The ten binary operator tokens as scanning source on line `line` yields
/// them.
pub open spec fn binary_op_token(op: TokenModel, line: int) -> bool {
    &&& op.literal is None
    &&& op.line == line
    &&& ({
        ||| (op.token_type == TokenType::SLASH && op.lexeme == seq!['/'])
        ||| (op.token_type == TokenType::STAR && op.lexeme == seq!['*'])
        ||| (op.token_type == TokenType::MINUS && op.lexeme == seq!['-'])
        ||| (op.token_type == TokenType::PLUS && op.lexeme == seq!['+'])
        ||| (op.token_type == TokenType::GREATER && op.lexeme == seq!['>'])
        ||| (op.token_type == TokenType::GREATER_EQUAL && op.lexeme == seq!['>', '='])
        ||| (op.token_type == TokenType::LESS && op.lexeme == seq!['<'])
        ||| (op.token_type == TokenType::LESS_EQUAL && op.lexeme == seq!['<', '='])
        ||| (op.token_type == TokenType::BANG_EQUAL && op.lexeme == seq!['!', '='])
        ||| (op.token_type == TokenType::EQUAL_EQUAL && op.lexeme == seq!['=', '='])
    })
}

/// A binary operator's spelling, followed by a space as the printer always
/// writes it, scans as exactly that operator token: the space keeps `!`,
/// `<`, `>` and `=` from joining with what follows, and keeps `/` from
/// starting a comment.
proof fn lemma_lex_op_at(s: Seq<char>, i: int, line: int, op: TokenModel)
    requires
        binary_op_token(op, line),
        0 <= i,
        i + op.lexeme.len() < s.len(),
        s.subrange(i, i + op.lexeme.len()) == op.lexeme,
        s[i + op.lexeme.len()] == ' ',
    ensures
        lex_step(s, i, line) == (LexStep {
            next: i + op.lexeme.len(),
            line2: line,
            token: Some(op),
            error: None,
        }),
{
    let m = op.lexeme.len() as int;
    assert forall|x: int| i <= x < i + m implies #[trigger] s[x] == op.lexeme[x - i] by {
        assert(s.subrange(i, i + m)[x - i] == op.lexeme[x - i]);
    }
    assert(s[i] == op.lexeme[0]);
    if m == 1 {
        assert(s[i + 1] == ' ');
    } else {
        assert(s[i + 1] == op.lexeme[1]);
        assert(s[i + 2] == ' ');
    }
    let st = lex_step(s, i, line);
    assert(st.next == i + m);
    let t = st.token.unwrap();
    assert(t.lexeme =~= op.lexeme);
    assert(t == op);
}

/// A `printable_tree` always yields at least one token.
proof fn lemma_group_tokens_nonempty(e: ExprModel, line: int)
    requires
        printable_tree(e, line),
    ensures
        group_tokens(e, line).len() >= 1,
    decreases e,
{
}

/// A tree of grouping and unary nodes over well-formed literals, whose
/// operator tokens are the ones scanning yields on line `line`; each
/// grouping may enclose one binary operation (`printable_expr`), so every
/// fully parenthesized expression is covered. This is the fragment of the
/// expression language for which the round trip is proved exactly.
pub open spec fn printable_tree(e: ExprModel, line: int) -> bool
    decreases e, 0int,
{
    match e {
        ExprModel::Literal { value } => wf_literal_inline(value),
        ExprModel::Grouping { expr } => printable_expr(*expr, line),
        ExprModel::Unary { operator, right } => (operator == bang_token(line) || operator
            == minus_token(line)) && printable_tree(*right, line),
        _ => false,
    }
}

/// A `printable_tree`, or one binary operation joining two of them: what
/// may stand at the top of an expression or directly inside parentheses.
pub open spec fn printable_expr(e: ExprModel, line: int) -> bool
    decreases e, 1int,
{
    ||| printable_tree(e, line)
    ||| match e {
        ExprModel::Binary { left, operator, right } => binary_op_token(operator, line)
            && printable_tree(*left, line) && printable_tree(*right, line),
        _ => false,
    }
}

pub open spec fn lparen_token(line: int) -> TokenModel {
    TokenModel { token_type: TokenType::LEFT_PAREN, lexeme: seq!['('], literal: None, line }
}

pub open spec fn rparen_token(line: int) -> TokenModel {
    TokenModel { token_type: TokenType::RIGHT_PAREN, lexeme: seq![')'], literal: None, line }
}

/// The tokens that scanning a printed `printable_tree` yields, all on one
/// line.
pub open spec fn group_tokens(e: ExprModel, line: int) -> Seq<TokenModel>
    decreases e,
{
    match e {
        ExprModel::Literal { value } => seq![literal_token(value, line)],
        ExprModel::Grouping { expr } => seq![lparen_token(line)] + group_tokens(*expr, line)
            + seq![rparen_token(line)],
        ExprModel::Unary { operator, right } => seq![
            TokenModel {
                token_type: operator.token_type,
                lexeme: operator.lexeme,
                literal: None,
                line,
            },
        ] + group_tokens(*right, line),
        ExprModel::Binary { left, operator, right } => group_tokens(*left, line) + seq![
            TokenModel {
                token_type: operator.token_type,
                lexeme: operator.lexeme,
                literal: None,
                line,
            },
        ] + group_tokens(*right, line),
        _ => Seq::empty(),
    }
}

/// A printed `printable_tree` is never empty and never begins with `=`, so
/// a `!` just before it always scans as BANG, never as `!=`.
proof fn lemma_print_first(e: ExprModel, line: int)
    requires
        printable_tree(e, line),
    ensures
        print_model(e).len() >= 1,
        print_model(e)[0] != '=',
    decreases e,
{
    reveal_strlit("\"");
    reveal_strlit("true");
    reveal_strlit("false");
    reveal_strlit("nil");
    reveal_strlit("(");
    match e {
        ExprModel::Literal { value } => {
            match value {
                LiteralModel::Str(v) => {
                    assert(print_model(e)[0] == '"');
                },
                LiteralModel::Number(v) => {
                    assert(print_model(e)[0] == v[0]);
                    assert(crate::scanner::is_digit_char(v[0]));
                    assert(v[0] != '=');
                },
                LiteralModel::Bool(b) => {
                    if b {
                        assert(print_model(e)[0] == 't');
                    } else {
                        assert(print_model(e)[0] == 'f');
                    }
                },
                LiteralModel::Nil => {
                    assert(print_model(e)[0] == 'n');
                },
            }
        },
        ExprModel::Grouping { expr } => {
            assert(print_model(e)[0] == '(');
        },
        ExprModel::Unary { operator, right } => {
            assert(print_model(e)[0] == operator.lexeme[0]);
            assert(operator.lexeme[0] == '!' || operator.lexeme[0] == '-');
        },
        _ => {},
    }
}

/// A printed literal is never empty.
proof fn lemma_print_literal_len(l: LiteralModel)
    requires
        wf_literal(l),
    ensures
        print_literal_model(l).len() >= 1,
{
    reveal_strlit("\"");
    reveal_strlit("true");
    reveal_strlit("false");
    reveal_strlit("nil");
}

/// When the printed form of an inline literal stands at position `i` and is
/// followed only by `)` or the end of the input, the scanner's next step
/// consumes exactly it and yields exactly its token.
proof fn lemma_lex_literal_at(s: Seq<char>, i: int, line: int, l: LiteralModel)
    requires
        wf_literal_inline(l),
        0 <= i,
        i + print_literal_model(l).len() <= s.len(),
        s.subrange(i, i + print_literal_model(l).len()) == print_literal_model(l),
        i + print_literal_model(l).len() == s.len() || s[i + print_literal_model(l).len()] == ')'
            || s[i + print_literal_model(l).len()] == ' ',
    ensures
        lex_step(s, i, line) == (LexStep {
            next: i + print_literal_model(l).len(),
            line2: line,
            token: Some(literal_token(l, line)),
            error: None,
        }),
{
    let p = print_literal_model(l);
    let m = p.len() as int;
    assert forall|x: int| i <= x < i + m implies #[trigger] s[x] == p[x - i] by {
        assert(s.subrange(i, i + m)[x - i] == p[x - i]);
    }
    match l {
        LiteralModel::Str(v) => {
            reveal_strlit("\"");
            assert(p[0] == '"');
            assert(s[i] == '"');
            assert(p[m - 1] == '"');
            assert(s[i + m - 1] == '"');
            assert forall|x: int| i + 1 <= x < i + m - 1 implies #[trigger] s[x] == v[x - i
                - 1] by {
                assert(s[x] == p[x - i]);
                assert(p[x - i] == v[x - i - 1]);
            }
            lemma_find_char(s, i + 1, '"');
            let q = find_char(s, i + 1, '"');
            assert(q == i + m - 1) by {
                if q < i + m - 1 {
                    assert(s[q] == v[q - i - 1]);
                    assert(s[q] != '"');
                } else if q > i + m - 1 {
                    assert(i + m - 1 < s.len());
                    assert(s[i + m - 1] != '"');
                }
            }
            assert forall|x: int| i + 1 <= x < q implies #[trigger] s[x] != '\n' by {
                assert(s[x] == v[x - i - 1]);
            }
            lemma_count_no_char(s, i + 1, q, '\n');
            let st = lex_step(s, i, line);
            assert(st.next == i + m);
            let t = st.token.unwrap();
            assert(t.lexeme =~= p);
            assert(s.subrange(i + 1, i + m - 1) =~= v);
            assert(t == literal_token(l, line));
        },
        LiteralModel::Number(v) => {
            let k = digits_end(v, 0);
            lemma_digits_end(v, 0);
            assert forall|x: int| i <= x < i + m implies #[trigger] s[x] == v[x - i] by {
                assert(s[x] == p[x - i]);
            }
            assert forall|x: int| i + 1 <= x < i + k implies crate::scanner::is_digit_char(
                #[trigger] s[x],
            ) by {
                assert(s[x] == v[x - i]);
            }
            if k < m {
                assert(s[i + k] == '.');
            }
            lemma_digits_end_pin(s, i + 1, i + k);
            let st = lex_step(s, i, line);
            if k == m {
                assert(st.next == i + m);
            } else {
                lemma_digits_end(v, k + 1);
                assert forall|x: int| i + k + 1 <= x < i + m implies crate::scanner::is_digit_char(
                    #[trigger] s[x],
                ) by {
                    assert(s[x] == v[x - i]);
                }
                lemma_digits_end_pin(s, i + k + 1, i + m);
                assert(st.next == i + m);
            }
            let t = st.token.unwrap();
            assert(t.lexeme =~= v);
            assert(t == literal_token(l, line));
        },
        LiteralModel::Bool(b) => {
            if b {
                lemma_lex_keyword_at(s, i, line, "true"@, TokenType::TRUE);
            } else {
                lemma_lex_keyword_at(s, i, line, "false"@, TokenType::FALSE);
            }
            let st = lex_step(s, i, line);
            let t = st.token.unwrap();
            assert(t == literal_token(l, line));
        },
        LiteralModel::Nil => {
            lemma_lex_keyword_at(s, i, line, "nil"@, TokenType::NIL);
            let st = lex_step(s, i, line);
            let t = st.token.unwrap();
            assert(t == literal_token(l, line));
        },
    }
}

/// Pins the digit run: when everything in `[i, j)` is a digit and `j` is
/// the end of the input or a non-digit, the run ends exactly at `j`.
proof fn lemma_digits_end_pin(s: Seq<char>, i: int, j: int)
    requires
        0 <= i <= j <= s.len(),
        forall|x: int| i <= x < j ==> crate::scanner::is_digit_char(s[x]),
        j == s.len() || !crate::scanner::is_digit_char(s[j]),
    ensures
        digits_end(s, i) == j,
{
    lemma_digits_end(s, i);
}

/// There are no occurrences of `c` to count in a range that holds none.
proof fn lemma_count_no_char(s: Seq<char>, i: int, j: int, c: char)
    requires
        0 <= i,
        j <= s.len(),
        forall|x: int| i <= x < j ==> s[x] != c,
    ensures
        count_char(s, i, j, c) == 0,
    decreases j - i,
{
    if i < j {
        lemma_count_no_char(s, i + 1, j, c);
    }
}

/// A reserved spelling at position `i`, followed only by `)` or the end,
/// scans as its keyword token.
proof fn lemma_lex_keyword_at(s: Seq<char>, i: int, line: int, w: Seq<char>, tt: TokenType)
    requires
        ({
            ||| (w == "true"@ && tt == TokenType::TRUE)
            ||| (w == "false"@ && tt == TokenType::FALSE)
            ||| (w == "nil"@ && tt == TokenType::NIL)
        }),
        0 <= i,
        i + w.len() <= s.len(),
        s.subrange(i, i + w.len()) == w,
        i + w.len() == s.len() || s[i + w.len()] == ')' || s[i + w.len()] == ' ',
    ensures
        lex_step(s, i, line) == (LexStep {
            next: i + w.len(),
            line2: line,
            token: Some(TokenModel { token_type: tt, lexeme: w, literal: None, line }),
            error: None,
        }),
{
    reveal_strlit("true");
    reveal_strlit("false");
    reveal_strlit("nil");
    reveal_strlit("and");
    reveal_strlit("class");
    reveal_strlit("else");
    reveal_strlit("for");
    reveal_strlit("fun");
    reveal_strlit("if");
    reveal_strlit("or");
    reveal_strlit("print");
    reveal_strlit("return");
    reveal_strlit("super");
    reveal_strlit("this");
    reveal_strlit("var");
    reveal_strlit("while");
    let m = w.len() as int;
    assert forall|x: int| i <= x < i + m implies #[trigger] s[x] == w[x - i] by {
        assert(s.subrange(i, i + m)[x - i] == w[x - i]);
    }
    assert forall|x: int| 0 <= x < m implies crate::scanner::is_alnum_char(#[trigger] w[x]) by {}
    lemma_alnum_end(s, i + 1);
    let ae = alnum_end(s, i + 1);
    assert(ae == i + m) by {
        if ae < i + m {
            assert(s[ae] == w[ae - i]);
            assert(crate::scanner::is_alnum_char(s[ae]));
        } else if ae > i + m {
            assert(i + m < s.len());
            assert(s[i + m] == ')' || s[i + m] == ' ');
            assert(crate::scanner::is_alnum_char(s[i + m]));
        }
    }
    let st = lex_step(s, i, line);
    assert(s.subrange(i, i + m) =~= w);
    assert(st.next == i + m);
    let t = st.token.unwrap();
    assert(t == (TokenModel { token_type: tt, lexeme: w, literal: None, line }));
}

/// Scanning the printed form of a `printable_tree`, standing at `i` and
/// followed only by closing parentheses, yields exactly its tokens and then
/// continues after it, with no error.
#[verifier::spinoff_prover]
#[verifier::rlimit(100)]
proof fn lemma_scan_group(s: Seq<char>, i: int, line: int, e: ExprModel)
    requires
        printable_tree(e, line),
        0 <= i,
        i + print_model(e).len() <= s.len(),
        s.subrange(i, i + print_model(e).len()) == print_model(e),
        i + print_model(e).len() == s.len() || s[i + print_model(e).len()] == ')'
            || s[i + print_model(e).len()] == ' ',
    ensures
        scan_from(s, i, line).tokens == group_tokens(e, line) + scan_from(
            s,
            i + print_model(e).len(),
            line,
        ).tokens,
        scan_from(s, i, line).errors == scan_from(s, i + print_model(e).len(), line).errors,
    decreases e, 1int,
{
    let p = print_model(e);
    let m = p.len() as int;
    match e {
        ExprModel::Literal { value } => {
            lemma_print_literal_len(value);
            lemma_lex_literal_at(s, i, line, value);
            lemma_scan_from_step(s, i, line);
            assert(scan_from(s, i, line).tokens =~= group_tokens(e, line) + scan_from(
                s,
                i + m,
                line,
            ).tokens);
            assert(scan_from(s, i, line).errors =~= scan_from(s, i + m, line).errors);
        },
        ExprModel::Grouping { expr } => {
            reveal_strlit("(");
            reveal_strlit(")");
            let pi = print_model(*expr);
            let mi = pi.len() as int;
            assert(m == mi + 2);
            assert forall|x: int| i <= x < i + m implies #[trigger] s[x] == p[x - i] by {
                assert(s.subrange(i, i + m)[x - i] == p[x - i]);
            }
            assert(p[0] == '(');
            assert(s[i] == '(');
            assert(p[m - 1] == ')');
            assert(s[i + m - 1] == ')');
            assert forall|x: int| 0 <= x < mi implies s.subrange(i + 1, i + 1 + mi)[x]
                == pi[x] by {
                assert(s[i + 1 + x] == p[x + 1]);
                assert(p[x + 1] == pi[x]);
            }
            assert(s.subrange(i + 1, i + 1 + mi) =~= pi);
            // The inner tree's boundary is this group's own closing
            // parenthesis, inside the segment.
            assert(s[i + 1 + mi] == ')');
            // The opening parenthesis is one step.
            lemma_scan_from_step(s, i, line);
            let st0 = lex_step(s, i, line);
            assert(st0.next == i + 1 && st0.line2 == line);
            assert(st0.token.unwrap().lexeme =~= lparen_token(line).lexeme);
            assert(st0.token.unwrap() == lparen_token(line));
            // The inner tree follows, closed by one more parenthesis.
            lemma_scan_expr(s, i + 1, line, *expr);
            // The closing parenthesis is one step again.
            lemma_scan_from_step(s, i + 1 + mi, line);
            let st1 = lex_step(s, i + 1 + mi, line);
            assert(s[i + 1 + mi] == ')');
            assert(st1.next == i + m && st1.line2 == line);
            assert(st1.token.unwrap().lexeme =~= rparen_token(line).lexeme);
            assert(st1.token.unwrap() == rparen_token(line));
            assert(scan_from(s, i, line).tokens =~= group_tokens(e, line) + scan_from(
                s,
                i + m,
                line,
            ).tokens);
            assert(scan_from(s, i, line).errors =~= scan_from(s, i + m, line).errors);
        },
        ExprModel::Unary { operator, right } => {
            let pi = print_model(*right);
            let mi = pi.len() as int;
            lemma_print_first(*right, line);
            assert(m == mi + 1);
            assert forall|x: int| i <= x < i + m implies #[trigger] s[x] == p[x - i] by {
                assert(s.subrange(i, i + m)[x - i] == p[x - i]);
            }
            assert(operator.lexeme == seq!['!'] || operator.lexeme == seq!['-']);
            assert(p[0] == operator.lexeme[0]);
            assert(s[i] == p[0]);
            assert(p[1] == pi[0]);
            assert(s[i + 1] == pi[0]);
            assert(pi[0] != '=');
            // The operator is one step: `!` never joins into `!=` here.
            lemma_scan_from_step(s, i, line);
            let st0 = lex_step(s, i, line);
            assert(st0.next == i + 1 && st0.line2 == line);
            assert(st0.token.unwrap().lexeme =~= operator.lexeme);
            assert(st0.token.unwrap() == group_tokens(e, line)[0]);
            // The operand follows, with the same closers after it.
            assert forall|x: int| 0 <= x < mi implies s.subrange(i + 1, i + 1 + mi)[x]
                == pi[x] by {
                assert(s[i + 1 + x] == p[x + 1]);
                assert(p[x + 1] == pi[x]);
            }
            assert(s.subrange(i + 1, i + 1 + mi) =~= pi);
            lemma_scan_group(s, i + 1, line, *right);
            assert(scan_from(s, i, line).tokens =~= group_tokens(e, line) + scan_from(
                s,
                i + m,
                line,
            ).tokens);
            assert(scan_from(s, i, line).errors =~= scan_from(s, i + m, line).errors);
        },
        _ => {},
    }
}

/// When `unary` parses a prefix and the next token closes a group or ends
/// the input, every lower-precedence level parses the same prefix: none of
/// their operator folds can start at `)` or EOF.
proof fn lemma_parse_chain(toks: Seq<TokenModel>, p: int, e: ExprModel, q: int)
    requires
        p_unary(toks, p) == Ok::<(ExprModel, int), ParseErrorModel>((e, q)),
        0 <= p <= q,
        tok_at(toks, q).token_type == TokenType::RIGHT_PAREN || tok_at(toks, q).token_type
            == TokenType::EOF,
    ensures
        p_expression(toks, p) == Ok::<(ExprModel, int), ParseErrorModel>((e, q)),
{
    assert(p_factor_tail(toks, q, e) == Ok::<(ExprModel, int), ParseErrorModel>((e, q)));
    assert(p_factor(toks, p) == Ok::<(ExprModel, int), ParseErrorModel>((e, q)));
    assert(p_term_tail(toks, q, e) == Ok::<(ExprModel, int), ParseErrorModel>((e, q)));
    assert(p_term(toks, p) == Ok::<(ExprModel, int), ParseErrorModel>((e, q)));
    assert(p_comparison_tail(toks, q, e) == Ok::<(ExprModel, int), ParseErrorModel>((e, q)));
    assert(p_comparison(toks, p) == Ok::<(ExprModel, int), ParseErrorModel>((e, q)));
    assert(p_equality_tail(toks, q, e) == Ok::<(ExprModel, int), ParseErrorModel>((e, q)));
    assert(p_equality(toks, p) == Ok::<(ExprModel, int), ParseErrorModel>((e, q)));
}

/// Parsing the tokens of a `printable_tree`, when the token after them
/// closes a group or ends the input, rebuilds exactly the tree.
#[verifier::spinoff_prover]
#[verifier::rlimit(100)]
proof fn lemma_parse_group(toks: Seq<TokenModel>, p: int, line: int, e: ExprModel)
    requires
        printable_tree(e, line),
        0 <= p,
        p + group_tokens(e, line).len() <= toks.len(),
        toks.subrange(p, p + group_tokens(e, line).len()) == group_tokens(e, line),
        ({
            let after = tok_at(toks, p + group_tokens(e, line).len());
            after.token_type == TokenType::RIGHT_PAREN || after.token_type == TokenType::EOF
                || binary_op_kind(after.token_type)
        }),
    ensures
        p_unary(toks, p) == Ok::<(ExprModel, int), ParseErrorModel>((
            e,
            p + group_tokens(e, line).len(),
        )),
        ({
            let after = tok_at(toks, p + group_tokens(e, line).len());
            after.token_type == TokenType::RIGHT_PAREN || after.token_type == TokenType::EOF
        }) ==> p_expression(toks, p) == Ok::<(ExprModel, int), ParseErrorModel>((
            e,
            p + group_tokens(e, line).len(),
        )),
    decreases e, 1int,
{
    let after_tt = tok_at(toks, p + group_tokens(e, line).len()).token_type;
    let g = group_tokens(e, line);
    let n = g.len() as int;
    assert forall|x: int| p <= x < p + n implies #[trigger] toks[x] == g[x - p] by {
        assert(toks.subrange(p, p + n)[x - p] == g[x - p]);
    }
    match e {
        ExprModel::Literal { value } => {
            assert(g[0] == literal_token(value, line));
            assert(toks[p] == literal_token(value, line));
            assert(p_primary(toks, p) == Ok::<(ExprModel, int), ParseErrorModel>((e, p + 1)));
            assert(p_unary(toks, p) == Ok::<(ExprModel, int), ParseErrorModel>((e, p + 1)));
            if after_tt == TokenType::RIGHT_PAREN || after_tt == TokenType::EOF {
                lemma_parse_chain(toks, p, e, p + 1);
            }
        },
        ExprModel::Grouping { expr } => {
            let gi = group_tokens(*expr, line);
            let ni = gi.len() as int;
            assert(n == ni + 2);
            assert(g[0] == lparen_token(line));
            assert(toks[p] == lparen_token(line));
            assert(g[n - 1] == rparen_token(line));
            assert(toks[p + n - 1] == rparen_token(line));
            assert forall|x: int| 0 <= x < ni implies toks.subrange(p + 1, p + 1 + ni)[x]
                == gi[x] by {
                assert(toks[p + 1 + x] == g[x + 1]);
                assert(g[x + 1] == gi[x]);
            }
            assert(toks.subrange(p + 1, p + 1 + ni) =~= gi);
            lemma_parse_expr(toks, p + 1, line, *expr);
            assert(tok_at(toks, p + 1 + ni).token_type == TokenType::RIGHT_PAREN);
            assert(p_primary(toks, p) == Ok::<(ExprModel, int), ParseErrorModel>((e, p + n)));
            assert(p_unary(toks, p) == Ok::<(ExprModel, int), ParseErrorModel>((e, p + n)));
            if after_tt == TokenType::RIGHT_PAREN || after_tt == TokenType::EOF {
                lemma_parse_chain(toks, p, e, p + n);
            }
        },
        ExprModel::Unary { operator, right } => {
            let gi = group_tokens(*right, line);
            let ni = gi.len() as int;
            assert(n == ni + 1);
            assert(g[0] == (TokenModel {
                token_type: operator.token_type,
                lexeme: operator.lexeme,
                literal: None,
                line,
            }));
            assert(toks[p] == g[0]);
            assert forall|x: int| 0 <= x < ni implies toks.subrange(p + 1, p + 1 + ni)[x]
                == gi[x] by {
                assert(toks[p + 1 + x] == g[x + 1]);
                assert(g[x + 1] == gi[x]);
            }
            assert(toks.subrange(p + 1, p + 1 + ni) =~= gi);
            lemma_parse_group(toks, p + 1, line, *right);
            assert(p_unary(toks, p) == Ok::<(ExprModel, int), ParseErrorModel>((e, p + n)));
            if after_tt == TokenType::RIGHT_PAREN || after_tt == TokenType::EOF {
                lemma_parse_chain(toks, p, e, p + n);
            }
        },
        _ => {},
    }
}

/// Round-trip stability for printable trees: grouping and unary nodes over
/// well-formed single-line literals, to any depth, each parenthesis free to
/// enclose one binary operation — every fully parenthesized expression.
/// Writing such a tree back as source text, rescanning and reparsing yields
/// exactly the same tree: no lexical error, no parse error, every token
/// consumed but the sentinel.
#[verifier::spinoff_prover]
#[verifier::rlimit(100)]
pub proof fn lemma_tree_round_trip(e: ExprModel)
    requires
        printable_tree(e, 1),
    ensures
        scan_source(print_model(e)).errors == Seq::<LexErrorModel>::empty(),
        p_expression(scan_source(print_model(e)).tokens, 0)
            == Ok::<(ExprModel, int), ParseErrorModel>((
            e,
            scan_source(print_model(e)).tokens.len() - 1,
        )),
{
    let s = print_model(e);
    let m = s.len() as int;
    assert(s.subrange(0, m) =~= s);
    lemma_scan_group(s, 0, 1, e);
    let toks = scan_source(s).tokens;
    let g = group_tokens(e, 1);
    let n = g.len() as int;
    assert(scan_from(s, m, 1).tokens =~= seq![eof_token(1)]);
    assert(scan_from(s, m, 1).errors =~= Seq::<LexErrorModel>::empty());
    assert(toks.len() == n + 1);
    assert(toks.subrange(0, n) =~= g);
    assert(tok_at(toks, n).token_type == TokenType::EOF);
    lemma_parse_group(toks, 0, 1, e);
}

/// Scanning the printed form of one binary operation over printable
/// operands, standing at `i`: the left tree's tokens, the operator token,
/// the right tree's tokens; the separating spaces yield nothing and keep
/// the lexemes apart.
#[verifier::spinoff_prover]
#[verifier::rlimit(100)]
proof fn lemma_scan_binary_at(s: Seq<char>, i: int, line: int, e: ExprModel)
    requires
        e is Binary,
        printable_expr(e, line),
        0 <= i,
        i + print_model(e).len() <= s.len(),
        s.subrange(i, i + print_model(e).len()) == print_model(e),
        i + print_model(e).len() == s.len() || s[i + print_model(e).len()] == ')'
            || s[i + print_model(e).len()] == ' ',
    ensures
        scan_from(s, i, line).tokens == group_tokens(e, line) + scan_from(
            s,
            i + print_model(e).len(),
            line,
        ).tokens,
        scan_from(s, i, line).errors == scan_from(s, i + print_model(e).len(), line).errors,
    decreases e, 0int,
{
    reveal_strlit(" ");
    // `e is Binary` by the precondition; the second arm is never taken.
    let (l, op, r) = match e {
        ExprModel::Binary { left, operator, right } => (*left, operator, *right),
        _ => (e, tok_at(Seq::empty(), 0), e),
    };
    assert(printable_tree(l, line) && binary_op_token(op, line) && printable_tree(r, line));
    assert(e == (ExprModel::Binary { left: Box::new(l), operator: op, right: Box::new(r) }));
    let p = print_model(e);
    let pl = print_model(l);
    let pr = print_model(r);
    let ml = pl.len() as int;
    let ol = op.lexeme.len() as int;
    let m = p.len() as int;
    assert(p == pl + " "@ + op.lexeme + " "@ + pr);
    assert(" "@ =~= seq![' ']);
    assert(m == ml + ol + 2 + pr.len());
    assert forall|x: int| i <= x < i + m implies #[trigger] s[x] == p[x - i] by {
        assert(s.subrange(i, i + m)[x - i] == p[x - i]);
    }
    assert forall|x: int| 0 <= x < ml implies s.subrange(i, i + ml)[x] == pl[x] by {
        assert(s[i + x] == p[x]);
        assert(p[x] == pl[x]);
    }
    assert(s.subrange(i, i + ml) =~= pl);
    assert(p[ml] == ' ');
    assert(s[i + ml] == ' ');
    assert forall|x: int| 0 <= x < ol implies s.subrange(i + ml + 1, i + ml + 1 + ol)[x]
        == op.lexeme[x] by {
        assert(s[i + ml + 1 + x] == p[ml + 1 + x]);
        assert(p[ml + 1 + x] == op.lexeme[x]);
    }
    assert(s.subrange(i + ml + 1, i + ml + 1 + ol) =~= op.lexeme);
    assert(p[ml + 1 + ol] == ' ');
    assert(s[i + ml + 1 + ol] == ' ');
    assert forall|x: int| 0 <= x < pr.len() implies s.subrange(i + ml + 2 + ol, i + m)[x]
        == pr[x] by {
        assert(s[i + ml + 2 + ol + x] == p[ml + 2 + ol + x]);
        assert(p[ml + 2 + ol + x] == pr[x]);
    }
    assert(s.subrange(i + ml + 2 + ol, i + m) =~= pr);
    // the left tree, stopped by the first space
    lemma_scan_group(s, i, line, l);
    // the space is one step with no token
    lemma_scan_from_step(s, i + ml, line);
    assert(scan_from(s, i + ml, line).tokens =~= scan_from(s, i + ml + 1, line).tokens);
    assert(scan_from(s, i + ml, line).errors =~= scan_from(s, i + ml + 1, line).errors);
    // the operator, stopped by the second space
    lemma_lex_op_at(s, i + ml + 1, line, op);
    lemma_scan_from_step(s, i + ml + 1, line);
    assert(scan_from(s, i + ml + 1, line).tokens =~= seq![op] + scan_from(
        s,
        i + ml + 1 + ol,
        line,
    ).tokens);
    assert(scan_from(s, i + ml + 1, line).errors =~= scan_from(s, i + ml + 1 + ol, line).errors);
    // the second space
    lemma_scan_from_step(s, i + ml + 1 + ol, line);
    assert(scan_from(s, i + ml + 1 + ol, line).tokens =~= scan_from(
        s,
        i + ml + 2 + ol,
        line,
    ).tokens);
    assert(scan_from(s, i + ml + 1 + ol, line).errors =~= scan_from(
        s,
        i + ml + 2 + ol,
        line,
    ).errors);
    // the right tree, with this operation's own boundary after it
    lemma_scan_group(s, i + ml + 2 + ol, line, r);
    assert(group_tokens(e, line) =~= group_tokens(l, line) + seq![op] + group_tokens(r, line));
    assert(scan_from(s, i, line).tokens =~= group_tokens(e, line) + scan_from(
        s,
        i + m,
        line,
    ).tokens);
    assert(scan_from(s, i, line).errors =~= scan_from(s, i + m, line).errors);
}

/// Scanning the printed form of a `printable_expr` — a printable tree, or
/// one binary operation over two of them — yields exactly its tokens and
/// then continues after it, with no error.
proof fn lemma_scan_expr(s: Seq<char>, i: int, line: int, e: ExprModel)
    requires
        printable_expr(e, line),
        0 <= i,
        i + print_model(e).len() <= s.len(),
        s.subrange(i, i + print_model(e).len()) == print_model(e),
        i + print_model(e).len() == s.len() || s[i + print_model(e).len()] == ')'
            || s[i + print_model(e).len()] == ' ',
    ensures
        scan_from(s, i, line).tokens == group_tokens(e, line) + scan_from(
            s,
            i + print_model(e).len(),
            line,
        ).tokens,
        scan_from(s, i, line).errors == scan_from(s, i + print_model(e).len(), line).errors,
    decreases e, 2int,
{
    if printable_tree(e, line) {
        lemma_scan_group(s, i, line, e);
    } else {
        match e {
            ExprModel::Binary { .. } => {
                lemma_scan_binary_at(s, i, line, e);
            },
            _ => {},
        }
    }
}

/// Parsing the tokens of one binary operation over printable operands,
/// standing at `p`: the operator folds at its own precedence level, every
/// tighter level stops at it, and every looser level stops at the boundary
/// token after the operation.
#[verifier::spinoff_prover]
#[verifier::rlimit(100)]
proof fn lemma_parse_binary_at(toks: Seq<TokenModel>, p: int, line: int, e: ExprModel)
    requires
        e is Binary,
        printable_expr(e, line),
        0 <= p,
        p + group_tokens(e, line).len() <= toks.len(),
        toks.subrange(p, p + group_tokens(e, line).len()) == group_tokens(e, line),
        ({
            let after = tok_at(toks, p + group_tokens(e, line).len());
            after.token_type == TokenType::RIGHT_PAREN || after.token_type == TokenType::EOF
        }),
    ensures
        p_expression(toks, p) == Ok::<(ExprModel, int), ParseErrorModel>((
            e,
            p + group_tokens(e, line).len(),
        )),
    decreases e, 0int,
{
    // `e is Binary` by the precondition; the second arm is never taken.
    let (l, op, r) = match e {
        ExprModel::Binary { left, operator, right } => (*left, operator, *right),
        _ => (e, tok_at(Seq::empty(), 0), e),
    };
    assert(printable_tree(l, line) && binary_op_token(op, line) && printable_tree(r, line));
    assert(e == (ExprModel::Binary { left: Box::new(l), operator: op, right: Box::new(r) }));
    assert(group_tokens(e, line) =~= group_tokens(l, line) + seq![op] + group_tokens(r, line));
    let gl = group_tokens(l, line);
    let gr = group_tokens(r, line);
    let nl = gl.len() as int;
    let nr = gr.len() as int;
    let n = nl + 1 + nr;
    lemma_group_tokens_nonempty(l, line);
    lemma_group_tokens_nonempty(r, line);
    let seg = gl + seq![op] + gr;
    assert forall|x: int| p <= x < p + n implies #[trigger] toks[x] == seg[x - p] by {
        assert(toks.subrange(p, p + n)[x - p] == seg[x - p]);
    }
    assert forall|x: int| 0 <= x < nl implies toks.subrange(p, p + nl)[x] == gl[x] by {
        assert(toks[p + x] == seg[x]);
        assert(seg[x] == gl[x]);
    }
    assert(toks.subrange(p, p + nl) =~= gl);
    assert(toks[p + nl] == op);
    assert forall|x: int| 0 <= x < nr implies toks.subrange(p + nl + 1, p + nl + 1 + nr)[x]
        == gr[x] by {
        assert(toks[p + nl + 1 + x] == seg[nl + 1 + x]);
        assert(seg[nl + 1 + x] == gr[x]);
    }
    assert(toks.subrange(p + nl + 1, p + nl + 1 + nr) =~= gr);
    // the operands, each parsed by `unary`: the left stopped at the
    // operator, the right at the boundary after the operation
    lemma_parse_group(toks, p, line, l);
    lemma_parse_group(toks, p + nl + 1, line, r);
    let b = e;
    let q = p + n;
    assert(p_unary(toks, p) == Ok::<(ExprModel, int), ParseErrorModel>((l, p + nl)));
    assert(p_unary(toks, p + nl + 1) == Ok::<(ExprModel, int), ParseErrorModel>((r, q)));
    if op.token_type == TokenType::SLASH || op.token_type == TokenType::STAR {
        assert(p_factor_tail(toks, q, b) == Ok::<(ExprModel, int), ParseErrorModel>((b, q)));
        assert(p_factor_tail(toks, p + nl, l) == Ok::<(ExprModel, int), ParseErrorModel>((b, q)));
        assert(p_factor(toks, p) == Ok::<(ExprModel, int), ParseErrorModel>((b, q)));
        assert(p_term_tail(toks, q, b) == Ok::<(ExprModel, int), ParseErrorModel>((b, q)));
        assert(p_term(toks, p) == Ok::<(ExprModel, int), ParseErrorModel>((b, q)));
        assert(p_comparison_tail(toks, q, b) == Ok::<(ExprModel, int), ParseErrorModel>((b, q)));
        assert(p_comparison(toks, p) == Ok::<(ExprModel, int), ParseErrorModel>((b, q)));
        assert(p_equality_tail(toks, q, b) == Ok::<(ExprModel, int), ParseErrorModel>((b, q)));
        assert(p_equality(toks, p) == Ok::<(ExprModel, int), ParseErrorModel>((b, q)));
    } else if op.token_type == TokenType::MINUS || op.token_type == TokenType::PLUS {
        assert(p_factor_tail(toks, p + nl, l) == Ok::<(ExprModel, int), ParseErrorModel>((
            l,
            p + nl,
        )));
        assert(p_factor(toks, p) == Ok::<(ExprModel, int), ParseErrorModel>((l, p + nl)));
        assert(p_factor_tail(toks, q, r) == Ok::<(ExprModel, int), ParseErrorModel>((r, q)));
        assert(p_factor(toks, p + nl + 1) == Ok::<(ExprModel, int), ParseErrorModel>((r, q)));
        assert(p_term_tail(toks, q, b) == Ok::<(ExprModel, int), ParseErrorModel>((b, q)));
        assert(p_term_tail(toks, p + nl, l) == Ok::<(ExprModel, int), ParseErrorModel>((b, q)));
        assert(p_term(toks, p) == Ok::<(ExprModel, int), ParseErrorModel>((b, q)));
        assert(p_comparison_tail(toks, q, b) == Ok::<(ExprModel, int), ParseErrorModel>((b, q)));
        assert(p_comparison(toks, p) == Ok::<(ExprModel, int), ParseErrorModel>((b, q)));
        assert(p_equality_tail(toks, q, b) == Ok::<(ExprModel, int), ParseErrorModel>((b, q)));
        assert(p_equality(toks, p) == Ok::<(ExprModel, int), ParseErrorModel>((b, q)));
    } else if is_comparison_op(op.token_type) {
        assert(p_factor_tail(toks, p + nl, l) == Ok::<(ExprModel, int), ParseErrorModel>((
            l,
            p + nl,
        )));
        assert(p_factor(toks, p) == Ok::<(ExprModel, int), ParseErrorModel>((l, p + nl)));
        assert(p_term_tail(toks, p + nl, l) == Ok::<(ExprModel, int), ParseErrorModel>((
            l,
            p + nl,
        )));
        assert(p_term(toks, p) == Ok::<(ExprModel, int), ParseErrorModel>((l, p + nl)));
        assert(p_factor_tail(toks, q, r) == Ok::<(ExprModel, int), ParseErrorModel>((r, q)));
        assert(p_factor(toks, p + nl + 1) == Ok::<(ExprModel, int), ParseErrorModel>((r, q)));
        assert(p_term_tail(toks, q, r) == Ok::<(ExprModel, int), ParseErrorModel>((r, q)));
        assert(p_term(toks, p + nl + 1) == Ok::<(ExprModel, int), ParseErrorModel>((r, q)));
        assert(p_comparison_tail(toks, q, b) == Ok::<(ExprModel, int), ParseErrorModel>((b, q)));
        assert(p_comparison_tail(toks, p + nl, l) == Ok::<(ExprModel, int), ParseErrorModel>((
            b,
            q,
        )));
        assert(p_comparison(toks, p) == Ok::<(ExprModel, int), ParseErrorModel>((b, q)));
        assert(p_equality_tail(toks, q, b) == Ok::<(ExprModel, int), ParseErrorModel>((b, q)));
        assert(p_equality(toks, p) == Ok::<(ExprModel, int), ParseErrorModel>((b, q)));
    } else {
        assert(op.token_type == TokenType::BANG_EQUAL || op.token_type == TokenType::EQUAL_EQUAL);
        assert(p_factor_tail(toks, p + nl, l) == Ok::<(ExprModel, int), ParseErrorModel>((
            l,
            p + nl,
        )));
        assert(p_factor(toks, p) == Ok::<(ExprModel, int), ParseErrorModel>((l, p + nl)));
        assert(p_term_tail(toks, p + nl, l) == Ok::<(ExprModel, int), ParseErrorModel>((
            l,
            p + nl,
        )));
        assert(p_term(toks, p) == Ok::<(ExprModel, int), ParseErrorModel>((l, p + nl)));
        assert(p_comparison_tail(toks, p + nl, l) == Ok::<(ExprModel, int), ParseErrorModel>((
            l,
            p + nl,
        )));
        assert(p_comparison(toks, p) == Ok::<(ExprModel, int), ParseErrorModel>((l, p + nl)));
        assert(p_factor_tail(toks, q, r) == Ok::<(ExprModel, int), ParseErrorModel>((r, q)));
        assert(p_factor(toks, p + nl + 1) == Ok::<(ExprModel, int), ParseErrorModel>((r, q)));
        assert(p_term_tail(toks, q, r) == Ok::<(ExprModel, int), ParseErrorModel>((r, q)));
        assert(p_term(toks, p + nl + 1) == Ok::<(ExprModel, int), ParseErrorModel>((r, q)));
        assert(p_comparison_tail(toks, q, r) == Ok::<(ExprModel, int), ParseErrorModel>((r, q)));
        assert(p_comparison(toks, p + nl + 1) == Ok::<(ExprModel, int), ParseErrorModel>((r, q)));
        assert(p_equality_tail(toks, q, b) == Ok::<(ExprModel, int), ParseErrorModel>((b, q)));
        assert(p_equality_tail(toks, p + nl, l) == Ok::<(ExprModel, int), ParseErrorModel>((
            b,
            q,
        )));
        assert(p_equality(toks, p) == Ok::<(ExprModel, int), ParseErrorModel>((b, q)));
    }
}

/// Parsing the tokens of a `printable_expr`, when the token after them
/// closes a group or ends the input, rebuilds exactly the tree.
proof fn lemma_parse_expr(toks: Seq<TokenModel>, p: int, line: int, e: ExprModel)
    requires
        printable_expr(e, line),
        0 <= p,
        p + group_tokens(e, line).len() <= toks.len(),
        toks.subrange(p, p + group_tokens(e, line).len()) == group_tokens(e, line),
        ({
            let after = tok_at(toks, p + group_tokens(e, line).len());
            after.token_type == TokenType::RIGHT_PAREN || after.token_type == TokenType::EOF
        }),
    ensures
        p_expression(toks, p) == Ok::<(ExprModel, int), ParseErrorModel>((
            e,
            p + group_tokens(e, line).len(),
        )),
    decreases e, 2int,
{
    if printable_tree(e, line) {
        lemma_parse_group(toks, p, line, e);
    } else {
        match e {
            ExprModel::Binary { .. } => {
                lemma_parse_binary_at(toks, p, line, e);
            },
            _ => {},
        }
    }
}

/// Round-trip stability for one unparenthesized binary operation at the
/// top: any two printable trees joined by any of the ten binary operators,
/// written back as source text, rescanned and reparsed, yield exactly the
/// same tree — no lexical error, no parse error. Unparenthesized chains of
/// operators are exercised by tests.
#[verifier::spinoff_prover]
#[verifier::rlimit(100)]
pub proof fn lemma_binary_round_trip(l: ExprModel, op: TokenModel, r: ExprModel)
    requires
        printable_tree(l, 1),
        printable_tree(r, 1),
        binary_op_token(op, 1),
    ensures
        ({
            let e = ExprModel::Binary { left: Box::new(l), operator: op, right: Box::new(r) };
            &&& scan_source(print_model(e)).errors == Seq::<LexErrorModel>::empty()
            &&& p_expression(scan_source(print_model(e)).tokens, 0)
                == Ok::<(ExprModel, int), ParseErrorModel>((
                e,
                scan_source(print_model(e)).tokens.len() - 1,
            ))
        }),
{
    let e = ExprModel::Binary { left: Box::new(l), operator: op, right: Box::new(r) };
    let s = print_model(e);
    let m = s.len() as int;
    assert(s.subrange(0, m) =~= s);
    lemma_scan_expr(s, 0, 1, e);
    let toks = scan_source(s).tokens;
    let g = group_tokens(e, 1);
    let n = g.len() as int;
    assert(scan_from(s, m, 1).tokens =~= seq![eof_token(1)]);
    assert(scan_from(s, m, 1).errors =~= Seq::<LexErrorModel>::empty());
    assert(toks.len() == n + 1);
    assert(toks.subrange(0, n) =~= g);
    assert(tok_at(toks, n).token_type == TokenType::EOF);
    lemma_parse_expr(toks, 0, 1, e);
}

/// Round-trip stability for literal expressions: writing any well-formed
/// literal expression back as source text, rescanning and reparsing yields
/// exactly the same tree, with no lexical error and no parse error. This is
/// the literal case of the round-trip law; unlike `lemma_tree_round_trip`
/// it also covers string values that span lines.
pub proof fn lemma_literal_round_trip(l: LiteralModel)
    requires
        wf_literal(l),
    ensures
        scan_source(print_model(ExprModel::Literal { value: l })).errors
            == Seq::<LexErrorModel>::empty(),
        p_expression(scan_source(print_model(ExprModel::Literal { value: l })).tokens, 0)
            == Ok::<(ExprModel, int), ParseErrorModel>((ExprModel::Literal { value: l }, 1)),
{
    let s = print_model(ExprModel::Literal { value: l });
    assert(s == print_literal_model(l));
    lemma_scan_literal(l);
    let toks = scan_source(s).tokens;
    lemma_parse_literal_token(toks, ExprModel::Literal { value: l });
}

} // verus!

