//! The lexer: a single left-to-right scan over the source text that produces
//! an ordered token sequence and a list of lexical errors.
//!
//! The scan is specified by `lex_step`, which says exactly which token (or
//! error) the next lexeme yields and where the cursor and line counter stand
//! afterwards, and by `scan_from`, which folds `lex_step` over the rest of
//! the input and appends the final EOF sentinel.

use vstd::prelude::*;

use crate::token::{LiteralModel, LiteralType, Token, TokenModel, TokenType};

verus! {

/// A lexical error. Scanning records it and continues; it never halts the
/// token stream.
#[derive(Debug, Clone, Copy, PartialEq)]
pub enum LexError {
    UnexpectedCharacter { line: usize, ch: char },
    UnterminatedString { line: usize },
}

/// The mathematical value of a `LexError`.
pub enum LexErrorModel {
    UnexpectedCharacter { line: int, ch: char },
    UnterminatedString { line: int },
}

impl DeepView for LexError {
    type V = LexErrorModel;

    open spec fn deep_view(&self) -> LexErrorModel {
        match self {
            LexError::UnexpectedCharacter { line, ch } => LexErrorModel::UnexpectedCharacter {
                line: *line as int,
                ch: *ch,
            },
            LexError::UnterminatedString { line } => LexErrorModel::UnterminatedString {
                line: *line as int,
            },
        }
    }
}

/// A decimal digit.
pub open spec fn is_digit_char(c: char) -> bool {
    48 <= c as u32 && c as u32 <= 57
}

/// An ASCII letter or underscore: what may begin an identifier.
pub open spec fn is_alpha_char(c: char) -> bool {
    (65 <= c as u32 && c as u32 <= 90) || (97 <= c as u32 && c as u32 <= 122) || c == '_'
}

/// What may continue an identifier.
pub open spec fn is_alnum_char(c: char) -> bool {
    is_alpha_char(c) || is_digit_char(c)
}

/// The first position at or after `i` holding `c`, or the input length if
/// there is none.
pub open spec fn find_char(s: Seq<char>, i: int, c: char) -> int
    decreases s.len() - i,
{
    if i < 0 || i >= s.len() {
        s.len() as int
    } else if s[i] == c {
        i
    } else {
        find_char(s, i + 1, c)
    }
}

/// How many positions in `[i, j)` hold `c`.
pub open spec fn count_char(s: Seq<char>, i: int, j: int, c: char) -> int
    decreases j - i,
{
    if i >= j {
        0
    } else {
        (if 0 <= i < s.len() && s[i] == c { 1int } else { 0int }) + count_char(s, i + 1, j, c)
    }
}

/// The end of the run of decimal digits that starts at `i`.
pub open spec fn digits_end(s: Seq<char>, i: int) -> int
    decreases s.len() - i,
{
    if 0 <= i < s.len() && is_digit_char(s[i]) {
        digits_end(s, i + 1)
    } else {
        i
    }
}

/// The end of the run of identifier characters that starts at `i`.
pub open spec fn alnum_end(s: Seq<char>, i: int) -> int
    decreases s.len() - i,
{
    if 0 <= i < s.len() && is_alnum_char(s[i]) {
        alnum_end(s, i + 1)
    } else {
        i
    }
}

/// A `*/` pair begins at position `k`.
pub open spec fn comment_close_at(s: Seq<char>, k: int) -> bool {
    0 <= k && k + 1 < s.len() && s[k] == '*' && s[k + 1] == '/'
}

/// The first position at or after `i` where a `*/` pair begins, or the input
/// length if there is none.
pub open spec fn block_end(s: Seq<char>, i: int) -> int
    decreases s.len() - i,
{
    if i < 0 || i >= s.len() {
        s.len() as int
    } else if comment_close_at(s, i) {
        i
    } else {
        block_end(s, i + 1)
    }
}

pub proof fn lemma_find_char(s: Seq<char>, i: int, c: char)
    requires
        0 <= i <= s.len(),
    ensures
        i <= find_char(s, i, c) <= s.len(),
        forall|k: int| i <= k < find_char(s, i, c) ==> s[k] != c,
        find_char(s, i, c) < s.len() ==> s[find_char(s, i, c)] == c,
    decreases s.len() - i,
{
    if i < s.len() && s[i] != c {
        lemma_find_char(s, i + 1, c);
    }
}

pub proof fn lemma_count_char_bounds(s: Seq<char>, i: int, j: int, c: char)
    requires
        i <= j,
    ensures
        0 <= count_char(s, i, j, c) <= j - i,
    decreases j - i,
{
    if i < j {
        lemma_count_char_bounds(s, i + 1, j, c);
    }
}

pub proof fn lemma_count_char_snoc(s: Seq<char>, i: int, j: int, c: char)
    requires
        i <= j,
        0 <= j < s.len(),
    ensures
        count_char(s, i, j + 1, c) == count_char(s, i, j, c) + (if s[j] == c { 1int } else { 0int }),
    decreases j - i,
{
    if i < j {
        lemma_count_char_snoc(s, i + 1, j, c);
    } else {
        assert(count_char(s, i, j, c) == 0);
        assert(count_char(s, i + 1, j + 1, c) == 0);
    }
}

pub proof fn lemma_digits_end(s: Seq<char>, i: int)
    requires
        0 <= i <= s.len(),
    ensures
        i <= digits_end(s, i) <= s.len(),
        forall|k: int| i <= k < digits_end(s, i) ==> is_digit_char(s[k]),
        digits_end(s, i) < s.len() ==> !is_digit_char(s[digits_end(s, i)]),
    decreases s.len() - i,
{
    if i < s.len() && is_digit_char(s[i]) {
        lemma_digits_end(s, i + 1);
    }
}

pub proof fn lemma_alnum_end(s: Seq<char>, i: int)
    requires
        0 <= i <= s.len(),
    ensures
        i <= alnum_end(s, i) <= s.len(),
        forall|k: int| i <= k < alnum_end(s, i) ==> is_alnum_char(s[k]),
        alnum_end(s, i) < s.len() ==> !is_alnum_char(s[alnum_end(s, i)]),
    decreases s.len() - i,
{
    if i < s.len() && is_alnum_char(s[i]) {
        lemma_alnum_end(s, i + 1);
    }
}

pub proof fn lemma_block_end(s: Seq<char>, i: int)
    requires
        0 <= i <= s.len(),
    ensures
        i <= block_end(s, i) <= s.len(),
        forall|k: int| i <= k < block_end(s, i) ==> !comment_close_at(s, k),
        block_end(s, i) < s.len() ==> comment_close_at(s, block_end(s, i)),
    decreases s.len() - i,
{
    if i < s.len() && !comment_close_at(s, i) {
        lemma_block_end(s, i + 1);
    }
}

/// The 16 reserved spellings and their token kinds, in one fixed order.
pub open spec fn keyword_table() -> Seq<(Seq<char>, TokenType)> {
    seq![
        ("and"@, TokenType::AND),
        ("class"@, TokenType::CLASS),
        ("else"@, TokenType::ELSE),
        ("false"@, TokenType::FALSE),
        ("for"@, TokenType::FOR),
        ("fun"@, TokenType::FUN),
        ("if"@, TokenType::IF),
        ("nil"@, TokenType::NIL),
        ("or"@, TokenType::OR),
        ("print"@, TokenType::PRINT),
        ("return"@, TokenType::RETURN),
        ("super"@, TokenType::SUPER),
        ("this"@, TokenType::THIS),
        ("true"@, TokenType::TRUE),
        ("var"@, TokenType::VAR),
        ("while"@, TokenType::WHILE),
    ]
}

/// The token kind reserved for a spelling, if any.
pub open spec fn spec_keyword(s: Seq<char>) -> Option<TokenType> {
    if s == "and"@ { Some(TokenType::AND) }
    else if s == "class"@ { Some(TokenType::CLASS) }
    else if s == "else"@ { Some(TokenType::ELSE) }
    else if s == "false"@ { Some(TokenType::FALSE) }
    else if s == "for"@ { Some(TokenType::FOR) }
    else if s == "fun"@ { Some(TokenType::FUN) }
    else if s == "if"@ { Some(TokenType::IF) }
    else if s == "nil"@ { Some(TokenType::NIL) }
    else if s == "or"@ { Some(TokenType::OR) }
    else if s == "print"@ { Some(TokenType::PRINT) }
    else if s == "return"@ { Some(TokenType::RETURN) }
    else if s == "super"@ { Some(TokenType::SUPER) }
    else if s == "this"@ { Some(TokenType::THIS) }
    else if s == "true"@ { Some(TokenType::TRUE) }
    else if s == "var"@ { Some(TokenType::VAR) }
    else if s == "while"@ { Some(TokenType::WHILE) }
    else { None }
}

/// The reserved-word table as a value: spelling and kind, in the order of
/// `keyword_table`. Built afresh on each call; read-only afterwards.
pub fn get_keywords() -> (kw: Vec<(String, TokenType)>)
    ensures
        kw@.len() == keyword_table().len(),
        forall|k: int|
            0 <= k < kw@.len() ==> (#[trigger] kw@[k]).0@ == keyword_table()[k].0
                && kw@[k].1 == keyword_table()[k].1,
{
    let mut kw: Vec<(String, TokenType)> = Vec::new();
    kw.push((String::from_str("and"), TokenType::AND));
    kw.push((String::from_str("class"), TokenType::CLASS));
    kw.push((String::from_str("else"), TokenType::ELSE));
    kw.push((String::from_str("false"), TokenType::FALSE));
    kw.push((String::from_str("for"), TokenType::FOR));
    kw.push((String::from_str("fun"), TokenType::FUN));
    kw.push((String::from_str("if"), TokenType::IF));
    kw.push((String::from_str("nil"), TokenType::NIL));
    kw.push((String::from_str("or"), TokenType::OR));
    kw.push((String::from_str("print"), TokenType::PRINT));
    kw.push((String::from_str("return"), TokenType::RETURN));
    kw.push((String::from_str("super"), TokenType::SUPER));
    kw.push((String::from_str("this"), TokenType::THIS));
    kw.push((String::from_str("true"), TokenType::TRUE));
    kw.push((String::from_str("var"), TokenType::VAR));
    kw.push((String::from_str("while"), TokenType::WHILE));
    kw
}

/// Looks a spelling up among the reserved words.
pub fn keyword_kind(text: &String) -> (r: Option<TokenType>)
    ensures
        r == spec_keyword(text@),
{
    let kw = get_keywords();
    let mut k: usize = 0;
    while k < kw.len()
        invariant
            0 <= k <= kw@.len(),
            kw@.len() == keyword_table().len(),
            forall|j: int|
                0 <= j < kw@.len() ==> (#[trigger] kw@[j]).0@ == keyword_table()[j].0
                    && kw@[j].1 == keyword_table()[j].1,
            forall|j: int| 0 <= j < k ==> (#[trigger] keyword_table()[j]).0 != text@,
        decreases kw@.len() - k,
    {
        if kw[k].0 == *text {
            return Some(kw[k].1);
        }
        k += 1;
    }
    None
}

/// What one dispatch step of the scanner does: where the cursor and the line
/// counter move, and which token or error the lexeme at `i` contributes.
pub struct LexStep {
    pub next: int,
    pub line2: int,
    pub token: Option<TokenModel>,
    pub error: Option<LexErrorModel>,
}

pub open spec fn one_char_token(s: Seq<char>, i: int, line: int, tt: TokenType) -> LexStep {
    LexStep {
        next: i + 1,
        line2: line,
        token: Some(TokenModel { token_type: tt, lexeme: s.subrange(i, i + 1), literal: None, line }),
        error: None,
    }
}

pub open spec fn two_char_token(s: Seq<char>, i: int, line: int, tt: TokenType) -> LexStep {
    LexStep {
        next: i + 2,
        line2: line,
        token: Some(TokenModel { token_type: tt, lexeme: s.subrange(i, i + 2), literal: None, line }),
        error: None,
    }
}

/// An operator that continues as its two-character form when the next
/// character is `=` (maximal munch), and stands alone otherwise.
pub open spec fn maybe_equal_token(
    s: Seq<char>,
    i: int,
    line: int,
    alone: TokenType,
    with_eq: TokenType,
) -> LexStep {
    if i + 1 < s.len() && s[i + 1] == '=' {
        two_char_token(s, i, line, with_eq)
    } else {
        one_char_token(s, i, line, alone)
    }
}

pub open spec fn skip_step(i: int, next: int, line2: int) -> LexStep {
    LexStep { next, line2, token: None, error: None }
}

/// One step of the scan: the token, error, cursor and line movement caused by
/// the lexeme that starts at position `i` on line `line`.
pub open spec fn lex_step(s: Seq<char>, i: int, line: int) -> LexStep
    recommends
        0 <= i < s.len(),
{
    let c = s[i];
    if c == '(' { one_char_token(s, i, line, TokenType::LEFT_PAREN) }
    else if c == ')' { one_char_token(s, i, line, TokenType::RIGHT_PAREN) }
    else if c == '{' { one_char_token(s, i, line, TokenType::LEFT_BRACE) }
    else if c == '}' { one_char_token(s, i, line, TokenType::RIGHT_BRACE) }
    else if c == ',' { one_char_token(s, i, line, TokenType::COMMA) }
    else if c == '.' { one_char_token(s, i, line, TokenType::DOT) }
    else if c == '-' { one_char_token(s, i, line, TokenType::MINUS) }
    else if c == '+' { one_char_token(s, i, line, TokenType::PLUS) }
    else if c == ';' { one_char_token(s, i, line, TokenType::SEMICOLON) }
    else if c == '*' { one_char_token(s, i, line, TokenType::STAR) }
    else if c == '!' { maybe_equal_token(s, i, line, TokenType::BANG, TokenType::BANG_EQUAL) }
    else if c == '=' { maybe_equal_token(s, i, line, TokenType::EQUAL, TokenType::EQUAL_EQUAL) }
    else if c == '<' { maybe_equal_token(s, i, line, TokenType::LESS, TokenType::LESS_EQUAL) }
    else if c == '>' { maybe_equal_token(s, i, line, TokenType::GREATER, TokenType::GREATER_EQUAL) }
    else if c == '/' {
        if i + 1 < s.len() && s[i + 1] == '/' {
            // A line comment: everything through the end of the line is
            // discarded; the newline, when present, is consumed and counted.
            let nl = find_char(s, i + 2, '\n');
            if nl < s.len() {
                skip_step(i, nl + 1, line + 1)
            } else {
                skip_step(i, s.len() as int, line)
            }
        } else if i + 1 < s.len() && s[i + 1] == '*' {
            // A block comment: everything through the first `*/` is
            // discarded; newlines inside it are counted.
            let p = block_end(s, i + 2);
            if p < s.len() {
                skip_step(i, p + 2, line + count_char(s, i + 2, p, '\n'))
            } else {
                skip_step(i, s.len() as int, line + count_char(s, i + 2, s.len() as int, '\n'))
            }
        } else {
            one_char_token(s, i, line, TokenType::SLASH)
        }
    }
    else if c == ' ' || c == '\r' || c == '\t' { skip_step(i, i + 1, line) }
    else if c == '\n' { skip_step(i, i + 1, line + 1) }
    else if c == '"' {
        // A string literal: no escape processing; the value is everything
        // strictly between the quotes. The token carries the line at which
        // the string starts; newlines inside it move the line counter, and
        // an unterminated string is an error at the line where scanning
        // stopped, with no token for the lexeme.
        let q = find_char(s, i + 1, '"');
        let l2 = line + count_char(s, i + 1, q, '\n');
        if q < s.len() {
            LexStep {
                next: q + 1,
                line2: l2,
                token: Some(TokenModel {
                    token_type: TokenType::STRING,
                    lexeme: s.subrange(i, q + 1),
                    literal: Some(LiteralModel::Str(s.subrange(i + 1, q))),
                    line,
                }),
                error: None,
            }
        } else {
            LexStep {
                next: s.len() as int,
                line2: l2,
                token: None,
                error: Some(LexErrorModel::UnterminatedString { line: l2 }),
            }
        }
    }
    else if is_digit_char(c) {
        // A number: digits, then a fractional part only when the dot is
        // followed by another digit; otherwise the dot is left for the next
        // step (maximal-munch tie-break).
        let d = digits_end(s, i + 1);
        let e = if d < s.len() && s[d] == '.' && d + 1 < s.len() && is_digit_char(s[d + 1]) {
            digits_end(s, d + 1)
        } else {
            d
        };
        LexStep {
            next: e,
            line2: line,
            token: Some(TokenModel {
                token_type: TokenType::NUMBER,
                lexeme: s.subrange(i, e),
                literal: Some(LiteralModel::Number(s.subrange(i, e))),
                line,
            }),
            error: None,
        }
    }
    else if is_alpha_char(c) {
        // An identifier or a reserved word.
        let e = alnum_end(s, i + 1);
        let lex = s.subrange(i, e);
        let tt = match spec_keyword(lex) {
            Some(k) => k,
            None => TokenType::IDENTIFIER,
        };
        LexStep {
            next: e,
            line2: line,
            token: Some(TokenModel { token_type: tt, lexeme: lex, literal: None, line }),
            error: None,
        }
    }
    else {
        LexStep {
            next: i + 1,
            line2: line,
            token: None,
            error: Some(LexErrorModel::UnexpectedCharacter { line, ch: c }),
        }
    }
}

/// Every step consumes at least one character and never leaves the input,
/// and the line counter never moves backwards or past the characters read.
pub proof fn lemma_lex_step_progress(s: Seq<char>, i: int, line: int)
    requires
        0 <= i < s.len(),
    ensures
        i < lex_step(s, i, line).next <= s.len(),
        line <= lex_step(s, i, line).line2 <= line + (lex_step(s, i, line).next - i),
{
    let c = s[i];
    if c == '/' && i + 1 < s.len() && s[i + 1] == '/' {
        lemma_find_char(s, i + 2, '\n');
    } else if c == '/' && i + 1 < s.len() && s[i + 1] == '*' {
        let p = block_end(s, i + 2);
        lemma_block_end(s, i + 2);
        if p < s.len() {
            lemma_count_char_bounds(s, i + 2, p, '\n');
        } else {
            lemma_count_char_bounds(s, i + 2, s.len() as int, '\n');
        }
    } else if c == '"' {
        let q = find_char(s, i + 1, '"');
        lemma_find_char(s, i + 1, '"');
        lemma_count_char_bounds(s, i + 1, q, '\n');
    } else if is_digit_char(c) {
        let d = digits_end(s, i + 1);
        lemma_digits_end(s, i + 1);
        if d < s.len() && s[d] == '.' && d + 1 < s.len() && is_digit_char(s[d + 1]) {
            lemma_digits_end(s, d + 1);
        }
    } else if is_alpha_char(c) {
        lemma_alnum_end(s, i + 1);
    }
}

/// A token sequence as the scanner always produces it: nonempty, closed by
/// an EOF sentinel that occurs exactly once and only as the last element.
pub open spec fn wf_tokens(toks: Seq<TokenModel>) -> bool {
    &&& toks.len() >= 1
    &&& toks[toks.len() - 1].token_type == TokenType::EOF
    &&& forall|k: int| 0 <= k < toks.len() - 1 ==> (#[trigger] toks[k]).token_type != TokenType::EOF
}

/// What a whole scan yields: the token sequence and the errors observed.
pub struct ScanModel {
    pub tokens: Seq<TokenModel>,
    pub errors: Seq<LexErrorModel>,
}

pub open spec fn opt_seq<T>(o: Option<T>) -> Seq<T> {
    match o {
        Some(t) => seq![t],
        None => Seq::empty(),
    }
}

pub open spec fn eof_token(line: int) -> TokenModel {
    TokenModel { token_type: TokenType::EOF, lexeme: Seq::empty(), literal: None, line }
}

/// Scanning the rest of the input from position `i` on line `line`: the step
/// results of each lexeme in order, closed by exactly one EOF sentinel.
pub open spec fn scan_from(s: Seq<char>, i: int, line: int) -> ScanModel
    decreases s.len() - i,
{
    if i < 0 || i >= s.len() {
        ScanModel { tokens: seq![eof_token(line)], errors: Seq::empty() }
    } else {
        let st = lex_step(s, i, line);
        let nx = if i < st.next <= s.len() { st.next } else { i + 1 };
        let rest = scan_from(s, nx, st.line2);
        ScanModel { tokens: opt_seq(st.token) + rest.tokens, errors: opt_seq(st.error) + rest.errors }
    }
}

/// The token sequence and errors for a whole source text.
pub open spec fn scan_source(s: Seq<char>) -> ScanModel {
    scan_from(s, 0, 1)
}

/// Unfolds `scan_from` by one step; `lemma_lex_step_progress` shows the
/// guard in its definition never bites.
pub proof fn lemma_scan_from_step(s: Seq<char>, i: int, line: int)
    requires
        0 <= i < s.len(),
    ensures
        scan_from(s, i, line).tokens == opt_seq(lex_step(s, i, line).token)
            + scan_from(s, lex_step(s, i, line).next, lex_step(s, i, line).line2).tokens,
        scan_from(s, i, line).errors == opt_seq(lex_step(s, i, line).error)
            + scan_from(s, lex_step(s, i, line).next, lex_step(s, i, line).line2).errors,
{
    lemma_lex_step_progress(s, i, line);
}

/// No step of the scan ever yields an EOF token; only the final sentinel is
/// one.
pub proof fn lemma_lex_step_no_eof(s: Seq<char>, i: int, line: int)
    requires
        0 <= i < s.len(),
    ensures
        lex_step(s, i, line).token matches Some(t) ==> t.token_type != TokenType::EOF,
{
}

/// Every scan yields a well-formed token sequence: EOF occurs exactly once
/// and only as the last element.
pub proof fn lemma_scan_from_wf(s: Seq<char>, i: int, line: int)
    requires
        0 <= i,
    ensures
        wf_tokens(scan_from(s, i, line).tokens),
    decreases s.len() - i,
{
    if i < s.len() {
        let st = lex_step(s, i, line);
        lemma_lex_step_progress(s, i, line);
        lemma_lex_step_no_eof(s, i, line);
        lemma_scan_from_wf(s, st.next, st.line2);
        lemma_scan_from_step(s, i, line);
    }
}

/// The token sequence of a whole scan is well-formed.
pub proof fn lemma_scan_source_wf(s: Seq<char>)
    ensures
        wf_tokens(scan_source(s).tokens),
{
    lemma_scan_from_wf(s, 0, 1);
}

} // verus!

verus! {

/// The lexer: one pass over one source buffer. `start` marks the beginning
/// of the lexeme being scanned, `current` the next unread character, `line`
/// the 1-based line of the cursor.
pub struct Scanner {
    pub source: String,
    pub tokens: Vec<Token>,
    pub start: usize,
    pub current: usize,
    pub line: usize,
    pub errors: Vec<LexError>,
}

impl Scanner {
    /// The characters of the source buffer.
    pub open spec fn src(&self) -> Seq<char> {
        self.source@
    }

    /// Cursor and line bookkeeping that every scanner operation keeps.
    pub open spec fn wf(&self) -> bool {
        &&& self.src().len() < usize::MAX
        &&& self.current <= self.src().len()
        &&& self.start <= self.current
        &&& 1 <= self.line
        &&& self.line <= self.current + 1
    }

    pub fn new(source: String) -> (s: Self)
        requires
            source@.len() < usize::MAX,
        ensures
            s.wf(),
            s.src() == source@,
            s.tokens@.len() == 0,
            s.errors@.len() == 0,
            s.start == 0,
            s.current == 0,
            s.line == 1,
    {
        Self { source, tokens: Vec::new(), start: 0, current: 0, line: 1, errors: Vec::new() }
    }

    fn is_at_end(&self) -> (r: bool)
        ensures
            r == (self.current >= self.src().len()),
    {
        self.current >= self.source.as_str().unicode_len()
    }

    fn advance(&mut self) -> (c: char)
        requires
            old(self).wf(),
            old(self).current < old(self).src().len(),
        ensures
            c == old(self).src()[old(self).current as int],
            final(self).current == old(self).current + 1,
            final(self).source == old(self).source,
            final(self).tokens == old(self).tokens,
            final(self).errors == old(self).errors,
            final(self).start == old(self).start,
            final(self).line == old(self).line,
            final(self).wf(),
    {
        let c = self.source.as_str().get_char(self.current);
        self.current = self.current + 1;
        c
    }

    fn peek(&self) -> (c: char)
        requires
            self.wf(),
        ensures
            c == if self.current < self.src().len() {
                self.src()[self.current as int]
            } else {
                '\0'
            },
    {
        if self.is_at_end() {
            '\0'
        } else {
            self.source.as_str().get_char(self.current)
        }
    }

    fn peek_next(&self) -> (c: char)
        requires
            self.wf(),
        ensures
            c == if self.current + 1 < self.src().len() {
                self.src()[self.current + 1]
            } else {
                '\0'
            },
    {
        if self.current + 1 >= self.source.as_str().unicode_len() {
            '\0'
        } else {
            self.source.as_str().get_char(self.current + 1)
        }
    }

    fn match_char(&mut self, expected: char) -> (r: bool)
        requires
            old(self).wf(),
        ensures
            r == (old(self).current < old(self).src().len()
                && old(self).src()[old(self).current as int] == expected),
            final(self).current == if r { old(self).current + 1 } else { old(self).current as int },
            final(self).source == old(self).source,
            final(self).tokens == old(self).tokens,
            final(self).errors == old(self).errors,
            final(self).start == old(self).start,
            final(self).line == old(self).line,
            final(self).wf(),
    {
        if !self.is_at_end() && self.source.as_str().get_char(self.current) == expected {
            self.current = self.current + 1;
            return true;
        }
        false
    }

    fn add_token(&mut self, token_type: TokenType, literal: Option<LiteralType>)
        requires
            old(self).wf(),
        ensures
            final(self).tokens.deep_view() == old(self).tokens.deep_view().push(TokenModel {
                token_type,
                lexeme: old(self).src().subrange(old(self).start as int, old(self).current as int),
                literal: literal.deep_view(),
                line: old(self).line as int,
            }),
            final(self).source == old(self).source,
            final(self).errors == old(self).errors,
            final(self).start == old(self).start,
            final(self).current == old(self).current,
            final(self).line == old(self).line,
            final(self).wf(),
    {
        let text = self.source.as_str().substring_char(self.start, self.current).to_owned();
        let token = Token::new(token_type, text, literal, self.line);
        self.tokens.push(token);
        proof {
            assert(self.tokens.deep_view() =~= old(self).tokens.deep_view().push(TokenModel {
                token_type,
                lexeme: old(self).src().subrange(old(self).start as int, old(self).current as int),
                literal: literal.deep_view(),
                line: old(self).line as int,
            }));
        }
    }

    fn add_token_no_literal(&mut self, token_type: TokenType)
        requires
            old(self).wf(),
        ensures
            final(self).tokens.deep_view() == old(self).tokens.deep_view().push(TokenModel {
                token_type,
                lexeme: old(self).src().subrange(old(self).start as int, old(self).current as int),
                literal: None,
                line: old(self).line as int,
            }),
            final(self).source == old(self).source,
            final(self).errors == old(self).errors,
            final(self).start == old(self).start,
            final(self).current == old(self).current,
            final(self).line == old(self).line,
            final(self).wf(),
    {
        self.add_token(token_type, None);
    }

    fn is_digit(c: char) -> (r: bool)
        ensures
            r == is_digit_char(c),
    {
        let u = c as u32;
        48 <= u && u <= 57
    }

    fn is_alpha(c: char) -> (r: bool)
        ensures
            r == is_alpha_char(c),
    {
        let u = c as u32;
        (65 <= u && u <= 90) || (97 <= u && u <= 122) || c == '_'
    }

    fn is_alpha_numeric(c: char) -> (r: bool)
        ensures
            r == is_alnum_char(c),
    {
        Scanner::is_alpha(c) || Scanner::is_digit(c)
    }

    fn string(&mut self)
        requires
            old(self).wf(),
            old(self).start < old(self).src().len(),
            old(self).current == old(self).start + 1,
            old(self).src()[old(self).start as int] == '"',
        ensures
            final(self).wf(),
            final(self).source == old(self).source,
            final(self).start == old(self).start,
            final(self).current == lex_step(old(self).src(), old(self).start as int, old(self).line as int).next,
            final(self).line == lex_step(old(self).src(), old(self).start as int, old(self).line as int).line2,
            final(self).tokens.deep_view() == old(self).tokens.deep_view()
                + opt_seq(lex_step(old(self).src(), old(self).start as int, old(self).line as int).token),
            final(self).errors.deep_view() == old(self).errors.deep_view()
                + opt_seq(lex_step(old(self).src(), old(self).start as int, old(self).line as int).error),
    {
        let start_line = self.line;
        loop
            invariant
                self.wf(),
                self.source == old(self).source,
                self.start == old(self).start,
                self.tokens == old(self).tokens,
                self.errors == old(self).errors,
                start_line == old(self).line,
                old(self).start + 1 <= self.current <= self.src().len(),
                forall|k: int|
                    old(self).start + 1 <= k < self.current ==> self.src()[k] != '"',
                self.line == old(self).line
                    + count_char(self.src(), old(self).start + 1, self.current as int, '\n'),
            ensures
                self.current == self.src().len() || self.src()[self.current as int] == '"',
                start_line == old(self).line,
            decreases self.src().len() - self.current,
        {
            if self.is_at_end() {
                break;
            }
            if self.peek() == '"' {
                break;
            }
            let ghost pre = self.current as int;
            let ch = self.advance();
            if ch == '\n' {
                self.line = self.line + 1;
            }
            proof {
                lemma_count_char_snoc(self.src(), old(self).start + 1, pre, '\n');
            }
        }
        proof {
            lemma_find_char(self.src(), old(self).start + 1, '"');
            lemma_count_char_bounds(self.src(), old(self).start + 1, self.current as int, '\n');
        }
        if self.is_at_end() {
            self.errors.push(LexError::UnterminatedString { line: self.line });
            proof {
                let st = lex_step(old(self).src(), old(self).start as int, old(self).line as int);
                assert(find_char(self.src(), old(self).start + 1, '"') == self.src().len());
                assert(self.errors.deep_view() =~= old(self).errors.deep_view() + opt_seq(st.error));
                assert(self.tokens.deep_view() =~= old(self).tokens.deep_view() + opt_seq(st.token));
            }
            return;
        }
        let ghost q = self.current as int;
        self.advance();
        let lexeme = self.source.as_str().substring_char(self.start, self.current).to_owned();
        let value = self.source.as_str().substring_char(self.start + 1, self.current - 1).to_owned();
        // The token carries the line at which the string starts, not the
        // line the cursor has reached, so it is built here rather than
        // through `add_token`.
        let token = Token::new(TokenType::STRING, lexeme, Some(LiteralType::Str(value)), start_line);
        self.tokens.push(token);
        proof {
            let st = lex_step(old(self).src(), old(self).start as int, old(self).line as int);
            assert(find_char(old(self).src(), old(self).start + 1, '"') == q);
            assert(self.tokens.deep_view() =~= old(self).tokens.deep_view() + opt_seq(st.token));
            assert(self.errors.deep_view() =~= old(self).errors.deep_view() + opt_seq(st.error));
        }
    }

    fn number(&mut self)
        requires
            old(self).wf(),
            old(self).start < old(self).src().len(),
            old(self).current == old(self).start + 1,
            is_digit_char(old(self).src()[old(self).start as int]),
        ensures
            final(self).wf(),
            final(self).source == old(self).source,
            final(self).start == old(self).start,
            final(self).current == lex_step(old(self).src(), old(self).start as int, old(self).line as int).next,
            final(self).line == lex_step(old(self).src(), old(self).start as int, old(self).line as int).line2,
            final(self).tokens.deep_view() == old(self).tokens.deep_view()
                + opt_seq(lex_step(old(self).src(), old(self).start as int, old(self).line as int).token),
            final(self).errors.deep_view() == old(self).errors.deep_view()
                + opt_seq(lex_step(old(self).src(), old(self).start as int, old(self).line as int).error),
    {
        loop
            invariant
                self.wf(),
                self.source == old(self).source,
                self.start == old(self).start,
                self.tokens == old(self).tokens,
                self.errors == old(self).errors,
                self.line == old(self).line,
                old(self).start + 1 <= self.current <= self.src().len(),
                forall|k: int|
                    old(self).start + 1 <= k < self.current ==> is_digit_char(self.src()[k]),
            ensures
                self.current == self.src().len() || !is_digit_char(self.src()[self.current as int]),
            decreases self.src().len() - self.current,
        {
            if self.is_at_end() {
                break;
            }
            if !Scanner::is_digit(self.peek()) {
                break;
            }
            self.advance();
        }
        proof {
            lemma_digits_end(self.src(), old(self).start + 1);
            assert(digits_end(self.src(), old(self).start + 1) == self.current);
        }
        let ghost d = self.current as int;
        if self.peek() == '.' && Scanner::is_digit(self.peek_next()) {
            self.advance();
            loop
                invariant
                    self.wf(),
                    self.source == old(self).source,
                    self.start == old(self).start,
                    self.tokens == old(self).tokens,
                    self.errors == old(self).errors,
                    self.line == old(self).line,
                    d + 1 <= self.current <= self.src().len(),
                    forall|k: int| d + 1 <= k < self.current ==> is_digit_char(self.src()[k]),
                ensures
                    self.current == self.src().len()
                        || !is_digit_char(self.src()[self.current as int]),
                decreases self.src().len() - self.current,
            {
                if self.is_at_end() {
                    break;
                }
                if !Scanner::is_digit(self.peek()) {
                    break;
                }
                self.advance();
            }
            proof {
                lemma_digits_end(self.src(), d + 1);
                assert(digits_end(self.src(), d + 1) == self.current);
            }
        }
        let text = self.source.as_str().substring_char(self.start, self.current).to_owned();
        self.add_token(TokenType::NUMBER, Some(LiteralType::Number(text)));
        proof {
            let st = lex_step(old(self).src(), old(self).start as int, old(self).line as int);
            assert(self.tokens.deep_view() =~= old(self).tokens.deep_view() + opt_seq(st.token));
            assert(self.errors.deep_view() =~= old(self).errors.deep_view() + opt_seq(st.error));
        }
    }

    fn identifier(&mut self)
        requires
            old(self).wf(),
            old(self).start < old(self).src().len(),
            old(self).current == old(self).start + 1,
            is_alpha_char(old(self).src()[old(self).start as int]),
        ensures
            final(self).wf(),
            final(self).source == old(self).source,
            final(self).start == old(self).start,
            final(self).current == lex_step(old(self).src(), old(self).start as int, old(self).line as int).next,
            final(self).line == lex_step(old(self).src(), old(self).start as int, old(self).line as int).line2,
            final(self).tokens.deep_view() == old(self).tokens.deep_view()
                + opt_seq(lex_step(old(self).src(), old(self).start as int, old(self).line as int).token),
            final(self).errors.deep_view() == old(self).errors.deep_view()
                + opt_seq(lex_step(old(self).src(), old(self).start as int, old(self).line as int).error),
    {
        loop
            invariant
                self.wf(),
                self.source == old(self).source,
                self.start == old(self).start,
                self.tokens == old(self).tokens,
                self.errors == old(self).errors,
                self.line == old(self).line,
                old(self).start + 1 <= self.current <= self.src().len(),
                forall|k: int|
                    old(self).start + 1 <= k < self.current ==> is_alnum_char(self.src()[k]),
            ensures
                self.current == self.src().len() || !is_alnum_char(self.src()[self.current as int]),
            decreases self.src().len() - self.current,
        {
            if self.is_at_end() {
                break;
            }
            if !Scanner::is_alpha_numeric(self.peek()) {
                break;
            }
            self.advance();
        }
        proof {
            lemma_alnum_end(self.src(), old(self).start + 1);
            assert(alnum_end(self.src(), old(self).start + 1) == self.current);
        }
        let text = self.source.as_str().substring_char(self.start, self.current).to_owned();
        let kind = match keyword_kind(&text) {
            Some(k) => k,
            None => TokenType::IDENTIFIER,
        };
        self.add_token_no_literal(kind);
        proof {
            let st = lex_step(old(self).src(), old(self).start as int, old(self).line as int);
            assert(self.tokens.deep_view() =~= old(self).tokens.deep_view() + opt_seq(st.token));
            assert(self.errors.deep_view() =~= old(self).errors.deep_view() + opt_seq(st.error));
        }
    }

    /// Scans the single lexeme that starts at the cursor, as `lex_step`
    /// describes it.
    #[verifier::rlimit(50)]
    fn scan_token(&mut self)
        requires
            old(self).wf(),
            old(self).current < old(self).src().len(),
            old(self).start == old(self).current,
        ensures
            final(self).wf(),
            final(self).source == old(self).source,
            final(self).start == old(self).start,
            final(self).current == lex_step(old(self).src(), old(self).current as int, old(self).line as int).next,
            final(self).line == lex_step(old(self).src(), old(self).current as int, old(self).line as int).line2,
            final(self).tokens.deep_view() == old(self).tokens.deep_view()
                + opt_seq(lex_step(old(self).src(), old(self).current as int, old(self).line as int).token),
            final(self).errors.deep_view() == old(self).errors.deep_view()
                + opt_seq(lex_step(old(self).src(), old(self).current as int, old(self).line as int).error),
    {
        let ghost i = old(self).current as int;
        let c = self.advance();
        match c {
            '(' => self.add_token_no_literal(TokenType::LEFT_PAREN),
            ')' => self.add_token_no_literal(TokenType::RIGHT_PAREN),
            '{' => self.add_token_no_literal(TokenType::LEFT_BRACE),
            '}' => self.add_token_no_literal(TokenType::RIGHT_BRACE),
            ',' => self.add_token_no_literal(TokenType::COMMA),
            '.' => self.add_token_no_literal(TokenType::DOT),
            '-' => self.add_token_no_literal(TokenType::MINUS),
            '+' => self.add_token_no_literal(TokenType::PLUS),
            ';' => self.add_token_no_literal(TokenType::SEMICOLON),
            '*' => self.add_token_no_literal(TokenType::STAR),
            '!' => {
                let token_type = if self.match_char('=') {
                    TokenType::BANG_EQUAL
                } else {
                    TokenType::BANG
                };
                self.add_token_no_literal(token_type);
            },
            '=' => {
                let token_type = if self.match_char('=') {
                    TokenType::EQUAL_EQUAL
                } else {
                    TokenType::EQUAL
                };
                self.add_token_no_literal(token_type);
            },
            '<' => {
                let token_type = if self.match_char('=') {
                    TokenType::LESS_EQUAL
                } else {
                    TokenType::LESS
                };
                self.add_token_no_literal(token_type);
            },
            '>' => {
                let token_type = if self.match_char('=') {
                    TokenType::GREATER_EQUAL
                } else {
                    TokenType::GREATER
                };
                self.add_token_no_literal(token_type);
            },
            '/' => {
                if self.match_char('/') {
                    // A line comment runs through the end of the line.
                    loop
                        invariant
                            self.wf(),
                            self.source == old(self).source,
                            self.start == old(self).start,
                            self.tokens == old(self).tokens,
                            self.errors == old(self).errors,
                            self.line == old(self).line,
                            i + 2 <= self.current <= self.src().len(),
                            forall|k: int| i + 2 <= k < self.current ==> self.src()[k] != '\n',
                        ensures
                            self.current == self.src().len()
                                || self.src()[self.current as int] == '\n',
                        decreases self.src().len() - self.current,
                    {
                        if self.is_at_end() {
                            break;
                        }
                        if self.peek() == '\n' {
                            break;
                        }
                        self.advance();
                    }
                    proof {
                        lemma_find_char(self.src(), i + 2, '\n');
                        assert(find_char(self.src(), i + 2, '\n') == self.current
                            || (self.current == self.src().len()
                                && find_char(self.src(), i + 2, '\n') == self.src().len()));
                    }
                    if !self.is_at_end() {
                        self.advance();
                        self.line = self.line + 1;
                    }
                } else if self.match_char('*') {
                    // A block comment runs through the first `*/`; newlines
                    // inside it are counted.
                    loop
                        invariant
                            self.wf(),
                            self.source == old(self).source,
                            self.start == old(self).start,
                            self.tokens == old(self).tokens,
                            self.errors == old(self).errors,
                            i + 2 <= self.current <= self.src().len(),
                            forall|k: int|
                                i + 2 <= k < self.current ==> !comment_close_at(self.src(), k),
                            self.line == old(self).line
                                + count_char(self.src(), i + 2, self.current as int, '\n'),
                        ensures
                            self.current == self.src().len()
                                || comment_close_at(self.src(), self.current as int),
                        decreases self.src().len() - self.current,
                    {
                        if self.is_at_end() {
                            break;
                        }
                        if self.peek() == '*' && self.peek_next() == '/' {
                            break;
                        }
                        let ghost pre = self.current as int;
                        let ch = self.advance();
                        if ch == '\n' {
                            self.line = self.line + 1;
                        }
                        proof {
                            lemma_count_char_snoc(self.src(), i + 2, pre, '\n');
                        }
                    }
                    proof {
                        lemma_block_end(self.src(), i + 2);
                        assert(block_end(self.src(), i + 2) == self.current
                            || (self.current == self.src().len()
                                && block_end(self.src(), i + 2) == self.src().len()));
                    }
                    if !self.is_at_end() {
                        self.advance();
                        self.advance();
                    }
                } else {
                    self.add_token_no_literal(TokenType::SLASH);
                }
            },
            ' ' | '\r' | '\t' => {},
            '\n' => {
                self.line = self.line + 1;
            },
            '"' => {
                self.string();
            },
            _ => {
                if Scanner::is_digit(c) {
                    self.number();
                } else if Scanner::is_alpha(c) {
                    self.identifier();
                } else {
                    self.errors.push(LexError::UnexpectedCharacter { line: self.line, ch: c });
                }
            },
        }
        proof {
            let st = lex_step(old(self).src(), i, old(self).line as int);
            assert(self.tokens.deep_view() =~= old(self).tokens.deep_view() + opt_seq(st.token));
            assert(self.errors.deep_view() =~= old(self).errors.deep_view() + opt_seq(st.error));
        }
    }

    /// Scans the whole source buffer: every lexeme in order, then exactly one
    /// EOF sentinel. Lexical errors are recorded in `errors` and never stop
    /// the scan. Not restartable: one pass over one buffer.
    pub fn scan_tokens(&mut self) -> (r: Vec<Token>)
        requires
            old(self).wf(),
            old(self).current == 0,
            old(self).line == 1,
            old(self).tokens@.len() == 0,
            old(self).errors@.len() == 0,
        ensures
            final(self).tokens.deep_view() == scan_source(old(self).src()).tokens,
            final(self).errors.deep_view() == scan_source(old(self).src()).errors,
            r.deep_view() == final(self).tokens.deep_view(),
            final(self).source == old(self).source,
    {
        proof {
            assert(self.tokens.deep_view() =~= Seq::<TokenModel>::empty());
            assert(self.errors.deep_view() =~= Seq::<LexErrorModel>::empty());
            assert(Seq::<TokenModel>::empty() + scan_from(self.src(), 0, 1).tokens
                =~= scan_from(self.src(), 0, 1).tokens);
            assert(Seq::<LexErrorModel>::empty() + scan_from(self.src(), 0, 1).errors
                =~= scan_from(self.src(), 0, 1).errors);
        }
        loop
            invariant
                self.wf(),
                self.source == old(self).source,
                scan_source(old(self).src()).tokens == self.tokens.deep_view()
                    + scan_from(self.src(), self.current as int, self.line as int).tokens,
                scan_source(old(self).src()).errors == self.errors.deep_view()
                    + scan_from(self.src(), self.current as int, self.line as int).errors,
            ensures
                self.current == self.src().len(),
            decreases self.src().len() - self.current,
        {
            if self.is_at_end() {
                break;
            }
            let ghost cur0 = self.current as int;
            let ghost line0 = self.line as int;
            let ghost toks0 = self.tokens.deep_view();
            let ghost errs0 = self.errors.deep_view();
            self.start = self.current;
            self.scan_token();
            proof {
                let st = lex_step(self.src(), cur0, line0);
                lemma_lex_step_progress(self.src(), cur0, line0);
                lemma_scan_from_step(self.src(), cur0, line0);
                assert(self.tokens.deep_view()
                    + scan_from(self.src(), self.current as int, self.line as int).tokens
                    =~= toks0 + scan_from(self.src(), cur0, line0).tokens);
                assert(self.errors.deep_view()
                    + scan_from(self.src(), self.current as int, self.line as int).errors
                    =~= errs0 + scan_from(self.src(), cur0, line0).errors);
            }
        }
        let ghost toks1 = self.tokens.deep_view();
        let ghost errs1 = self.errors.deep_view();
        self.tokens.push(Token::new(TokenType::EOF, String::new(), None, self.line));
        proof {
            assert(self.tokens.deep_view() =~= toks1.push(eof_token(self.line as int)));
            assert(toks1.push(eof_token(self.line as int))
                =~= toks1 + scan_from(self.src(), self.current as int, self.line as int).tokens);
            assert(self.errors.deep_view()
                =~= errs1 + scan_from(self.src(), self.current as int, self.line as int).errors);
        }
        let r = self.tokens.clone();
        proof {
            assert forall|k: int| 0 <= k < self.tokens@.len() implies
                r@[k].deep_view() == self.tokens@[k].deep_view() by {
                assert(vstd::pervasive::cloned::<Token>(self.tokens@[k], r@[k]));
            }
            assert(r.deep_view() =~= self.tokens.deep_view());
        }
        r
    }
}

} // verus!
