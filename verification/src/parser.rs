//! The parser: recursive descent over the token sequence, one function per
//! grammar production, lowest precedence first:
//!
//! ```text
//! expression -> equality
//! equality   -> comparison (("!=" | "==") comparison)*
//! comparison -> term       ((">" | ">=" | "<" | "<=") term)*
//! term       -> factor     (("-" | "+") factor)*
//! factor     -> unary      (("/" | "*") unary)*
//! unary      -> ("!" | "-") unary | primary
//! primary    -> NUMBER | STRING | "true" | "false" | "nil" | "(" expression ")"
//! ```
//!
//! Each production is specified by a spec function of the same shape
//! (`p_expression` and friends); the executable parser returns exactly what
//! those functions say, for every well-formed token sequence. Each binary
//! level folds to the left, so `a OP b OP c` parses as `(a OP b) OP c`;
//! `unary` is right-recursive, so `!!x` parses as `!(!x)`.

use vstd::prelude::*;

use crate::expr::{Binary, Expr, ExprModel, Grouping, Literal, Unary};
use crate::scanner::{wf_tokens, LexError, Scanner};
use crate::token::{LiteralModel, LiteralType, Token, TokenModel, TokenType};

verus! {

/// A parse error. `ExpectedToken` names a token that had to come next (the
/// closing parenthesis) and the token actually found; `ExpectedExpression`
/// reports a token at which no expression can begin. `line` is the line of
/// the token found.
#[derive(Debug, PartialEq)]
pub enum ParseError {
    ExpectedToken { expected: TokenType, found: Token, line: usize },
    ExpectedExpression { found: Token, line: usize },
}

/// The mathematical value of a `ParseError`.
pub enum ParseErrorModel {
    ExpectedToken { expected: TokenType, found: TokenModel, line: int },
    ExpectedExpression { found: TokenModel, line: int },
}

impl DeepView for ParseError {
    type V = ParseErrorModel;

    open spec fn deep_view(&self) -> ParseErrorModel {
        match self {
            ParseError::ExpectedToken { expected, found, line } => ParseErrorModel::ExpectedToken {
                expected: *expected,
                found: found.deep_view(),
                line: *line as int,
            },
            ParseError::ExpectedExpression { found, line } => ParseErrorModel::ExpectedExpression {
                found: found.deep_view(),
                line: *line as int,
            },
        }
    }
}

/// What a production yields: the tree built and the position after it, or a
/// parse error.
pub type ParseStep = Result<(ExprModel, int), ParseErrorModel>;

/// The token at `i`, or a synthetic EOF token when `i` is out of range (the
/// parser itself never moves out of range: every well-formed sequence ends
/// in EOF and the cursor never passes it).
pub open spec fn tok_at(toks: Seq<TokenModel>, i: int) -> TokenModel {
    if 0 <= i < toks.len() {
        toks[i]
    } else {
        TokenModel { token_type: TokenType::EOF, lexeme: Seq::empty(), literal: None, line: 0 }
    }
}

/// How many tokens remain at position `i`: the termination measure of the
/// productions.
pub open spec fn rem(toks: Seq<TokenModel>, i: int) -> nat {
    if 0 <= i <= toks.len() {
        (toks.len() - i) as nat
    } else {
        0
    }
}

/// The literal expression a literal-carrying token denotes: its decoded
/// value, or nil for a token that carries none.
pub open spec fn literal_of(t: TokenModel) -> ExprModel {
    ExprModel::Literal {
        value: match t.literal {
            Some(l) => l,
            None => LiteralModel::Nil,
        },
    }
}

/// The token kinds at which a `primary` production can begin.
pub open spec fn begins_primary(tt: TokenType) -> bool {
    ||| tt == TokenType::FALSE
    ||| tt == TokenType::TRUE
    ||| tt == TokenType::NIL
    ||| tt == TokenType::NUMBER
    ||| tt == TokenType::STRING
    ||| tt == TokenType::LEFT_PAREN
}

/// The token kinds at which an expression can begin.
pub open spec fn begins_expression(tt: TokenType) -> bool {
    begins_primary(tt) || tt == TokenType::BANG || tt == TokenType::MINUS
}

/// `primary -> NUMBER | STRING | "true" | "false" | "nil" | "(" expression ")"`.
/// Anything else fails with `ExpectedExpression` at the token found; a group
/// whose closing parenthesis is missing fails with `ExpectedToken`.
pub open spec fn p_primary(toks: Seq<TokenModel>, i: int) -> ParseStep
    decreases rem(toks, i), 0int,
{
    let t = tok_at(toks, i);
    if t.token_type == TokenType::FALSE {
        Ok((ExprModel::Literal { value: LiteralModel::Bool(false) }, i + 1))
    } else if t.token_type == TokenType::TRUE {
        Ok((ExprModel::Literal { value: LiteralModel::Bool(true) }, i + 1))
    } else if t.token_type == TokenType::NIL {
        Ok((ExprModel::Literal { value: LiteralModel::Nil }, i + 1))
    } else if t.token_type == TokenType::NUMBER || t.token_type == TokenType::STRING {
        Ok((literal_of(t), i + 1))
    } else if t.token_type == TokenType::LEFT_PAREN && 0 <= i && i < toks.len() {
        match p_expression(toks, i + 1) {
            Ok((inner, j)) => {
                if tok_at(toks, j).token_type == TokenType::RIGHT_PAREN {
                    Ok((ExprModel::Grouping { expr: Box::new(inner) }, j + 1))
                } else {
                    Err(ParseErrorModel::ExpectedToken {
                        expected: TokenType::RIGHT_PAREN,
                        found: tok_at(toks, j),
                        line: tok_at(toks, j).line,
                    })
                }
            },
            Err(e) => Err(e),
        }
    } else {
        Err(ParseErrorModel::ExpectedExpression { found: t, line: t.line })
    }
}

/// `unary -> ("!" | "-") unary | primary`: right-recursive, so chained
/// unary operators associate to the right.
pub open spec fn p_unary(toks: Seq<TokenModel>, i: int) -> ParseStep
    decreases rem(toks, i), 1int,
{
    let t = tok_at(toks, i);
    if (t.token_type == TokenType::BANG || t.token_type == TokenType::MINUS) && 0 <= i && i
        < toks.len() {
        match p_unary(toks, i + 1) {
            Ok((r, j)) => Ok((ExprModel::Unary { operator: t, right: Box::new(r) }, j)),
            Err(e) => Err(e),
        }
    } else {
        p_primary(toks, i)
    }
}

/// The left fold of `factor`: as long as the token at `j` is `/` or `*`,
/// parse one more unary operand and wrap what was built so far as the left
/// child, so the leftmost operator binds first: `a OP b OP c` becomes
/// `Binary(Binary(a, OP, b), OP, c)`. The other binary levels fold the same
/// way over their own operators.
pub open spec fn p_factor_tail(toks: Seq<TokenModel>, j: int, acc: ExprModel) -> ParseStep
    decreases rem(toks, j), 2int,
{
    let t = tok_at(toks, j);
    if (t.token_type == TokenType::SLASH || t.token_type == TokenType::STAR) && 0 <= j && j
        < toks.len() {
        match p_unary(toks, j + 1) {
            Ok((r, k)) => {
                let b = ExprModel::Binary { left: Box::new(acc), operator: t, right: Box::new(r) };
                if j + 1 <= k {
                    p_factor_tail(toks, k, b)
                } else {
                    Ok((b, k))
                }
            },
            Err(e) => Err(e),
        }
    } else {
        Ok((acc, j))
    }
}

/// `factor -> unary (("/" | "*") unary)*`.
pub open spec fn p_factor(toks: Seq<TokenModel>, i: int) -> ParseStep
    decreases rem(toks, i), 3int,
{
    match p_unary(toks, i) {
        Ok((e, j)) => if 0 <= i <= j {
            p_factor_tail(toks, j, e)
        } else {
            Ok((e, j))
        },
        Err(e) => Err(e),
    }
}

/// The left fold of `term` over `-` and `+`.
pub open spec fn p_term_tail(toks: Seq<TokenModel>, j: int, acc: ExprModel) -> ParseStep
    decreases rem(toks, j), 4int,
{
    let t = tok_at(toks, j);
    if (t.token_type == TokenType::MINUS || t.token_type == TokenType::PLUS) && 0 <= j && j
        < toks.len() {
        match p_factor(toks, j + 1) {
            Ok((r, k)) => {
                let b = ExprModel::Binary { left: Box::new(acc), operator: t, right: Box::new(r) };
                if j + 1 <= k {
                    p_term_tail(toks, k, b)
                } else {
                    Ok((b, k))
                }
            },
            Err(e) => Err(e),
        }
    } else {
        Ok((acc, j))
    }
}

/// `term -> factor (("-" | "+") factor)*`.
pub open spec fn p_term(toks: Seq<TokenModel>, i: int) -> ParseStep
    decreases rem(toks, i), 5int,
{
    match p_factor(toks, i) {
        Ok((e, j)) => if 0 <= i <= j {
            p_term_tail(toks, j, e)
        } else {
            Ok((e, j))
        },
        Err(e) => Err(e),
    }
}

/// Whether a token kind is one of the four comparison operators.
pub open spec fn is_comparison_op(tt: TokenType) -> bool {
    tt == TokenType::GREATER || tt == TokenType::GREATER_EQUAL || tt == TokenType::LESS
        || tt == TokenType::LESS_EQUAL
}

/// The left fold of `comparison` over `>`, `>=`, `<`, `<=`.
pub open spec fn p_comparison_tail(toks: Seq<TokenModel>, j: int, acc: ExprModel) -> ParseStep
    decreases rem(toks, j), 6int,
{
    let t = tok_at(toks, j);
    if is_comparison_op(t.token_type) && 0 <= j && j < toks.len() {
        match p_term(toks, j + 1) {
            Ok((r, k)) => {
                let b = ExprModel::Binary { left: Box::new(acc), operator: t, right: Box::new(r) };
                if j + 1 <= k {
                    p_comparison_tail(toks, k, b)
                } else {
                    Ok((b, k))
                }
            },
            Err(e) => Err(e),
        }
    } else {
        Ok((acc, j))
    }
}

/// `comparison -> term ((">" | ">=" | "<" | "<=") term)*`.
pub open spec fn p_comparison(toks: Seq<TokenModel>, i: int) -> ParseStep
    decreases rem(toks, i), 7int,
{
    match p_term(toks, i) {
        Ok((e, j)) => if 0 <= i <= j {
            p_comparison_tail(toks, j, e)
        } else {
            Ok((e, j))
        },
        Err(e) => Err(e),
    }
}

/// The left fold of `equality` over `!=` and `==`.
pub open spec fn p_equality_tail(toks: Seq<TokenModel>, j: int, acc: ExprModel) -> ParseStep
    decreases rem(toks, j), 8int,
{
    let t = tok_at(toks, j);
    if (t.token_type == TokenType::BANG_EQUAL || t.token_type == TokenType::EQUAL_EQUAL) && 0 <= j
        && j < toks.len() {
        match p_comparison(toks, j + 1) {
            Ok((r, k)) => {
                let b = ExprModel::Binary { left: Box::new(acc), operator: t, right: Box::new(r) };
                if j + 1 <= k {
                    p_equality_tail(toks, k, b)
                } else {
                    Ok((b, k))
                }
            },
            Err(e) => Err(e),
        }
    } else {
        Ok((acc, j))
    }
}

/// `equality -> comparison (("!=" | "==") comparison)*`.
pub open spec fn p_equality(toks: Seq<TokenModel>, i: int) -> ParseStep
    decreases rem(toks, i), 9int,
{
    match p_comparison(toks, i) {
        Ok((e, j)) => if 0 <= i <= j {
            p_equality_tail(toks, j, e)
        } else {
            Ok((e, j))
        },
        Err(e) => Err(e),
    }
}

/// `expression -> equality`: the grammar's start production.
pub open spec fn p_expression(toks: Seq<TokenModel>, i: int) -> ParseStep
    decreases rem(toks, i), 10int,
{
    p_equality(toks, i)
}

/// What parsing a whole token sequence yields: the tree of the expression
/// at its front, or the parse error.
pub open spec fn parse_result(toks: Seq<TokenModel>) -> Result<ExprModel, ParseErrorModel> {
    match p_expression(toks, 0) {
        Ok((e, j)) => Ok(e),
        Err(pe) => Err(pe),
    }
}

/// The parser state: a single forward cursor over a token sequence that it
/// never mutates. There is no backtracking beyond one-token lookahead.
pub struct Parse {
    pub tokens: Vec<Token>,
    pub current: usize,
}

impl Parse {
    /// The mathematical value of the token sequence.
    pub open spec fn toks(&self) -> Seq<TokenModel> {
        self.tokens.deep_view()
    }

    /// What the parser relies on: a well-formed token sequence (closed by
    /// exactly one EOF sentinel, as the scanner always produces), with the
    /// cursor inside it.
    pub open spec fn wf(&self) -> bool {
        &&& wf_tokens(self.toks())
        &&& self.current < self.toks().len()
    }

    /// Takes the token sequence that a scanner produced.
    pub fn new(scanner: Scanner) -> (p: Self)
        ensures
            p.tokens == scanner.tokens,
            p.current == 0,
    {
        Self { tokens: scanner.tokens, current: 0 }
    }

    fn peek(&self) -> (t: Token)
        requires
            self.wf(),
        ensures
            t.deep_view() == tok_at(self.toks(), self.current as int),
    {
        let t = self.tokens[self.current].clone();
        proof {
            assert(self.toks()[self.current as int] == self.tokens@[self.current as int].deep_view());
        }
        t
    }

    fn is_at_end(&self) -> (r: bool)
        requires
            self.wf(),
        ensures
            r == (tok_at(self.toks(), self.current as int).token_type == TokenType::EOF),
    {
        self.peek().token_type == TokenType::EOF
    }

    fn check(&self, token_type: TokenType) -> (r: bool)
        requires
            self.wf(),
        ensures
            r == (tok_at(self.toks(), self.current as int).token_type != TokenType::EOF
                && tok_at(self.toks(), self.current as int).token_type == token_type),
    {
        if self.is_at_end() {
            return false;
        }
        self.peek().token_type == token_type
    }

    fn advance(&mut self) -> (t: Token)
        requires
            old(self).wf(),
        ensures
            final(self).wf(),
            final(self).tokens == old(self).tokens,
            tok_at(old(self).toks(), old(self).current as int).token_type != TokenType::EOF ==> {
                &&& t.deep_view() == tok_at(old(self).toks(), old(self).current as int)
                &&& final(self).current == old(self).current + 1
            },
            tok_at(old(self).toks(), old(self).current as int).token_type == TokenType::EOF ==> {
                &&& t.deep_view() == (TokenModel {
                    token_type: TokenType::EOF,
                    lexeme: Seq::empty(),
                    literal: None,
                    line: 0,
                })
                &&& final(self).current == old(self).current
            },
    {
        if self.is_at_end() {
            let t = Token::new(TokenType::EOF, String::new(), None, 0);
            proof {
                assert(t.deep_view().lexeme =~= Seq::<char>::empty());
            }
            return t;
        }
        let n = self.tokens.len();
        let token = self.tokens[self.current].clone();
        proof {
            assert(self.toks()[self.current as int] == self.tokens@[self.current as int].deep_view());
            assert(self.current < n);
        }
        self.current = self.current + 1;
        token
    }

    fn previous(&self) -> (t: Token)
        requires
            self.wf(),
        ensures
            self.current > 0 ==> t.deep_view() == tok_at(self.toks(), self.current - 1),
            self.current == 0 ==> t.deep_view() == (TokenModel {
                token_type: TokenType::EOF,
                lexeme: Seq::empty(),
                literal: None,
                line: 0,
            }),
    {
        if self.current == 0 {
            let t = Token::new(TokenType::EOF, String::new(), None, 0);
            proof {
                assert(t.deep_view().lexeme =~= Seq::<char>::empty());
            }
            return t;
        }
        let t = self.tokens[self.current - 1].clone();
        proof {
            assert(self.toks()[self.current - 1] == self.tokens@[self.current - 1].deep_view());
        }
        t
    }

    /// Consumes the next token when its kind is one of `token_types` (and is
    /// not the EOF sentinel); otherwise leaves the cursor alone.
    fn match_token(&mut self, token_types: &[TokenType]) -> (r: bool)
        requires
            old(self).wf(),
        ensures
            final(self).wf(),
            final(self).tokens == old(self).tokens,
            r == (tok_at(old(self).toks(), old(self).current as int).token_type != TokenType::EOF
                && token_types@.contains(
                    tok_at(old(self).toks(), old(self).current as int).token_type,
                )),
            final(self).current == if r {
                old(self).current + 1
            } else {
                old(self).current as int
            },
    {
        let n = token_types.len();
        let mut idx: usize = 0;
        while idx < n
            invariant
                self == old(self),
                self.wf(),
                n == token_types@.len(),
                0 <= idx <= n,
                forall|j: int|
                    0 <= j < idx ==> tok_at(self.toks(), self.current as int).token_type
                        == TokenType::EOF || tok_at(self.toks(), self.current as int).token_type
                        != token_types@[j],
            decreases n - idx,
        {
            if self.check(token_types[idx]) {
                self.advance();
                return true;
            }
            idx += 1;
        }
        false
    }

    /// `expression -> equality`: parses the start production. On success the
    /// cursor stands just past the tokens of the expression; on failure it
    /// is wherever the error was found and `r` carries the error that
    /// `p_expression` names.
    pub fn expression(&mut self) -> (r: Result<Expr, ParseError>)
        requires
            old(self).wf(),
        ensures
            final(self).wf(),
            final(self).tokens == old(self).tokens,
            old(self).current <= final(self).current,
            match r {
                Ok(e) => p_expression(old(self).toks(), old(self).current as int)
                    == Ok::<(ExprModel, int), ParseErrorModel>((
                    e.deep_view(),
                    final(self).current as int,
                )) && old(self).current < final(self).current,
                Err(pe) => p_expression(old(self).toks(), old(self).current as int)
                    == Err::<(ExprModel, int), ParseErrorModel>(pe.deep_view()),
            },
            !begins_expression(
                tok_at(old(self).toks(), old(self).current as int).token_type,
            ) ==> final(self).current == old(self).current && r is Err,
        decreases rem(self.toks(), self.current as int), 11int,
    {
        self.equality()
    }

    /// `equality -> comparison (("!=" | "==") comparison)*`.
    fn equality(&mut self) -> (r: Result<Expr, ParseError>)
        requires
            old(self).wf(),
        ensures
            final(self).wf(),
            final(self).tokens == old(self).tokens,
            old(self).current <= final(self).current,
            match r {
                Ok(e) => p_equality(old(self).toks(), old(self).current as int)
                    == Ok::<(ExprModel, int), ParseErrorModel>((
                    e.deep_view(),
                    final(self).current as int,
                )) && old(self).current < final(self).current,
                Err(pe) => p_equality(old(self).toks(), old(self).current as int)
                    == Err::<(ExprModel, int), ParseErrorModel>(pe.deep_view()),
            },
            !begins_expression(
                tok_at(old(self).toks(), old(self).current as int).token_type,
            ) ==> final(self).current == old(self).current && r is Err,
        decreases rem(self.toks(), self.current as int), 9int,
    {
        let mut expr = match self.comparison() {
            Ok(e) => e,
            Err(pe) => return Err(pe),
        };
        loop
            invariant
                self.wf(),
                self.tokens == old(self).tokens,
                old(self).current < self.current,
                begins_expression(
                    tok_at(old(self).toks(), old(self).current as int).token_type,
                ),
                p_equality(old(self).toks(), old(self).current as int) == p_equality_tail(
                    self.toks(),
                    self.current as int,
                    expr.deep_view(),
                ),
            ensures
                self.wf(),
                self.tokens == old(self).tokens,
                old(self).current < self.current,
                p_equality(old(self).toks(), old(self).current as int)
                    == Ok::<(ExprModel, int), ParseErrorModel>((
                    expr.deep_view(),
                    self.current as int,
                )),
            decreases self.toks().len() - self.current,
        {
            let ops = vec![TokenType::BANG_EQUAL, TokenType::EQUAL_EQUAL];
            if !self.match_token(ops.as_slice()) {
                break;
            }
            let opr = self.previous();
            let right = match self.comparison() {
                Ok(e) => e,
                Err(pe) => return Err(pe),
            };
            expr = Expr::Binary(Binary {
                left: Box::new(expr),
                operator: opr,
                right: Box::new(right),
            });
        }
        Ok(expr)
    }

    /// `comparison -> term ((">" | ">=" | "<" | "<=") term)*`.
    fn comparison(&mut self) -> (r: Result<Expr, ParseError>)
        requires
            old(self).wf(),
        ensures
            final(self).wf(),
            final(self).tokens == old(self).tokens,
            old(self).current <= final(self).current,
            match r {
                Ok(e) => p_comparison(old(self).toks(), old(self).current as int)
                    == Ok::<(ExprModel, int), ParseErrorModel>((
                    e.deep_view(),
                    final(self).current as int,
                )) && old(self).current < final(self).current,
                Err(pe) => p_comparison(old(self).toks(), old(self).current as int)
                    == Err::<(ExprModel, int), ParseErrorModel>(pe.deep_view()),
            },
            !begins_expression(
                tok_at(old(self).toks(), old(self).current as int).token_type,
            ) ==> final(self).current == old(self).current && r is Err,
        decreases rem(self.toks(), self.current as int), 7int,
    {
        let mut expr = match self.term() {
            Ok(e) => e,
            Err(pe) => return Err(pe),
        };
        loop
            invariant
                self.wf(),
                self.tokens == old(self).tokens,
                old(self).current < self.current,
                begins_expression(
                    tok_at(old(self).toks(), old(self).current as int).token_type,
                ),
                p_comparison(old(self).toks(), old(self).current as int) == p_comparison_tail(
                    self.toks(),
                    self.current as int,
                    expr.deep_view(),
                ),
            ensures
                self.wf(),
                self.tokens == old(self).tokens,
                old(self).current < self.current,
                p_comparison(old(self).toks(), old(self).current as int)
                    == Ok::<(ExprModel, int), ParseErrorModel>((
                    expr.deep_view(),
                    self.current as int,
                )),
            decreases self.toks().len() - self.current,
        {
            let ops = vec![
                TokenType::GREATER,
                TokenType::GREATER_EQUAL,
                TokenType::LESS,
                TokenType::LESS_EQUAL,
            ];
            if !self.match_token(ops.as_slice()) {
                break;
            }
            let opr = self.previous();
            let right = match self.term() {
                Ok(e) => e,
                Err(pe) => return Err(pe),
            };
            expr = Expr::Binary(Binary {
                left: Box::new(expr),
                operator: opr,
                right: Box::new(right),
            });
        }
        Ok(expr)
    }

    /// `term -> factor (("-" | "+") factor)*`.
    fn term(&mut self) -> (r: Result<Expr, ParseError>)
        requires
            old(self).wf(),
        ensures
            final(self).wf(),
            final(self).tokens == old(self).tokens,
            old(self).current <= final(self).current,
            match r {
                Ok(e) => p_term(old(self).toks(), old(self).current as int)
                    == Ok::<(ExprModel, int), ParseErrorModel>((
                    e.deep_view(),
                    final(self).current as int,
                )) && old(self).current < final(self).current,
                Err(pe) => p_term(old(self).toks(), old(self).current as int)
                    == Err::<(ExprModel, int), ParseErrorModel>(pe.deep_view()),
            },
            !begins_expression(
                tok_at(old(self).toks(), old(self).current as int).token_type,
            ) ==> final(self).current == old(self).current && r is Err,
        decreases rem(self.toks(), self.current as int), 5int,
    {
        let mut expr = match self.factor() {
            Ok(e) => e,
            Err(pe) => return Err(pe),
        };
        loop
            invariant
                self.wf(),
                self.tokens == old(self).tokens,
                old(self).current < self.current,
                begins_expression(
                    tok_at(old(self).toks(), old(self).current as int).token_type,
                ),
                p_term(old(self).toks(), old(self).current as int) == p_term_tail(
                    self.toks(),
                    self.current as int,
                    expr.deep_view(),
                ),
            ensures
                self.wf(),
                self.tokens == old(self).tokens,
                old(self).current < self.current,
                p_term(old(self).toks(), old(self).current as int)
                    == Ok::<(ExprModel, int), ParseErrorModel>((
                    expr.deep_view(),
                    self.current as int,
                )),
            decreases self.toks().len() - self.current,
        {
            let ops = vec![TokenType::MINUS, TokenType::PLUS];
            if !self.match_token(ops.as_slice()) {
                break;
            }
            let opr = self.previous();
            let right = match self.factor() {
                Ok(e) => e,
                Err(pe) => return Err(pe),
            };
            expr = Expr::Binary(Binary {
                left: Box::new(expr),
                operator: opr,
                right: Box::new(right),
            });
        }
        Ok(expr)
    }

    /// `factor -> unary (("/" | "*") unary)*`.
    fn factor(&mut self) -> (r: Result<Expr, ParseError>)
        requires
            old(self).wf(),
        ensures
            final(self).wf(),
            final(self).tokens == old(self).tokens,
            old(self).current <= final(self).current,
            match r {
                Ok(e) => p_factor(old(self).toks(), old(self).current as int)
                    == Ok::<(ExprModel, int), ParseErrorModel>((
                    e.deep_view(),
                    final(self).current as int,
                )) && old(self).current < final(self).current,
                Err(pe) => p_factor(old(self).toks(), old(self).current as int)
                    == Err::<(ExprModel, int), ParseErrorModel>(pe.deep_view()),
            },
            !begins_expression(
                tok_at(old(self).toks(), old(self).current as int).token_type,
            ) ==> final(self).current == old(self).current && r is Err,
        decreases rem(self.toks(), self.current as int), 3int,
    {
        let mut expr = match self.unary() {
            Ok(e) => e,
            Err(pe) => return Err(pe),
        };
        loop
            invariant
                self.wf(),
                self.tokens == old(self).tokens,
                old(self).current < self.current,
                begins_expression(
                    tok_at(old(self).toks(), old(self).current as int).token_type,
                ),
                p_factor(old(self).toks(), old(self).current as int) == p_factor_tail(
                    self.toks(),
                    self.current as int,
                    expr.deep_view(),
                ),
            ensures
                self.wf(),
                self.tokens == old(self).tokens,
                old(self).current < self.current,
                p_factor(old(self).toks(), old(self).current as int)
                    == Ok::<(ExprModel, int), ParseErrorModel>((
                    expr.deep_view(),
                    self.current as int,
                )),
            decreases self.toks().len() - self.current,
        {
            let ops = vec![TokenType::SLASH, TokenType::STAR];
            if !self.match_token(ops.as_slice()) {
                break;
            }
            let opr = self.previous();
            let right = match self.unary() {
                Ok(e) => e,
                Err(pe) => return Err(pe),
            };
            expr = Expr::Binary(Binary {
                left: Box::new(expr),
                operator: opr,
                right: Box::new(right),
            });
        }
        Ok(expr)
    }

    /// `unary -> ("!" | "-") unary | primary`.
    fn unary(&mut self) -> (r: Result<Expr, ParseError>)
        requires
            old(self).wf(),
        ensures
            final(self).wf(),
            final(self).tokens == old(self).tokens,
            old(self).current <= final(self).current,
            match r {
                Ok(e) => p_unary(old(self).toks(), old(self).current as int)
                    == Ok::<(ExprModel, int), ParseErrorModel>((
                    e.deep_view(),
                    final(self).current as int,
                )) && old(self).current < final(self).current,
                Err(pe) => p_unary(old(self).toks(), old(self).current as int)
                    == Err::<(ExprModel, int), ParseErrorModel>(pe.deep_view()),
            },
            !begins_expression(
                tok_at(old(self).toks(), old(self).current as int).token_type,
            ) ==> final(self).current == old(self).current && r is Err,
        decreases rem(self.toks(), self.current as int), 1int,
    {
        let ops = vec![TokenType::BANG, TokenType::MINUS];
        if self.match_token(ops.as_slice()) {
            let operator = self.previous();
            let right = match self.unary() {
                Ok(e) => e,
                Err(pe) => return Err(pe),
            };
            return Ok(Expr::Unary(Unary { operator, right: Box::new(right) }));
        }
        self.primary()
    }

    /// `primary -> NUMBER | STRING | "true" | "false" | "nil" |
    /// "(" expression ")"`. A `true`, `false` or `nil` token becomes the
    /// corresponding literal value; NUMBER and STRING carry the value the
    /// lexer decoded. Any other token fails with `ExpectedExpression`; a
    /// missing `)` fails with `ExpectedToken` at the token actually found.
    fn primary(&mut self) -> (r: Result<Expr, ParseError>)
        requires
            old(self).wf(),
        ensures
            final(self).wf(),
            final(self).tokens == old(self).tokens,
            old(self).current <= final(self).current,
            match r {
                Ok(e) => p_primary(old(self).toks(), old(self).current as int)
                    == Ok::<(ExprModel, int), ParseErrorModel>((
                    e.deep_view(),
                    final(self).current as int,
                )) && old(self).current < final(self).current,
                Err(pe) => p_primary(old(self).toks(), old(self).current as int)
                    == Err::<(ExprModel, int), ParseErrorModel>(pe.deep_view()),
            },
            !begins_primary(
                tok_at(old(self).toks(), old(self).current as int).token_type,
            ) ==> final(self).current == old(self).current && r is Err,
        decreases rem(self.toks(), self.current as int), 0int,
    {
        let ops_false = vec![TokenType::FALSE];
        if self.match_token(ops_false.as_slice()) {
            return Ok(Expr::Literal(Literal { value: LiteralType::Bool(false) }));
        }
        let ops_true = vec![TokenType::TRUE];
        if self.match_token(ops_true.as_slice()) {
            return Ok(Expr::Literal(Literal { value: LiteralType::Bool(true) }));
        }
        let ops_nil = vec![TokenType::NIL];
        if self.match_token(ops_nil.as_slice()) {
            return Ok(Expr::Literal(Literal { value: LiteralType::Nil }));
        }
        let ops_lit = vec![TokenType::NUMBER, TokenType::STRING];
        if self.match_token(ops_lit.as_slice()) {
            let literal = self.previous();
            let value = match literal.literal {
                Some(l) => l,
                None => LiteralType::Nil,
            };
            return Ok(Expr::Literal(Literal { value }));
        }
        let ops_lp = vec![TokenType::LEFT_PAREN];
        if self.match_token(ops_lp.as_slice()) {
            let inner = match self.expression() {
                Ok(e) => e,
                Err(pe) => return Err(pe),
            };
            let ops_rp = vec![TokenType::RIGHT_PAREN];
            if !self.match_token(ops_rp.as_slice()) {
                let found = self.peek();
                let line = found.line;
                return Err(ParseError::ExpectedToken {
                    expected: TokenType::RIGHT_PAREN,
                    found,
                    line,
                });
            }
            return Ok(Expr::Grouping(Grouping { expr: Box::new(inner) }));
        }
        let found = self.peek();
        let line = found.line;
        Err(ParseError::ExpectedExpression { found, line })
    }

    /// Parses one expression from the token sequence: the entry point that
    /// drivers call. Fails, rather than returning a placeholder tree, on any
    /// sequence that is not a well-formed expression; on an empty sequence
    /// (just the EOF sentinel) the error is `ExpectedExpression` at EOF.
    pub fn parse(&mut self) -> (r: Result<Expr, ParseError>)
        requires
            old(self).wf(),
        ensures
            final(self).wf(),
            final(self).tokens == old(self).tokens,
            match r {
                Ok(e) => p_expression(old(self).toks(), old(self).current as int)
                    == Ok::<(ExprModel, int), ParseErrorModel>((
                    e.deep_view(),
                    final(self).current as int,
                )),
                Err(pe) => p_expression(old(self).toks(), old(self).current as int)
                    == Err::<(ExprModel, int), ParseErrorModel>(pe.deep_view()),
            },
            !begins_expression(
                tok_at(old(self).toks(), old(self).current as int).token_type,
            ) ==> final(self).current == old(self).current && r is Err,
    {
        self.expression()
    }
}

/// The whole front end in one call: scans a source buffer, then parses the
/// token sequence. Returns the tokens, the lexical errors observed, and the
/// parse outcome; the scanner's EOF invariant is what lets the parser start.
pub fn parse_source(source: String) -> (r: (Vec<Token>, Vec<LexError>, Result<Expr, ParseError>))
    requires
        source@.len() < usize::MAX,
    ensures
        r.0.deep_view() == crate::scanner::scan_source(source@).tokens,
        r.1.deep_view() == crate::scanner::scan_source(source@).errors,
        match r.2 {
            Ok(e) => parse_result(crate::scanner::scan_source(source@).tokens)
                == Ok::<ExprModel, ParseErrorModel>(e.deep_view()),
            Err(pe) => parse_result(crate::scanner::scan_source(source@).tokens)
                == Err::<ExprModel, ParseErrorModel>(pe.deep_view()),
        },
{
    let mut scanner = Scanner::new(source);
    let tokens = scanner.scan_tokens();
    let errors = scanner.errors.clone();
    proof {
        crate::scanner::lemma_scan_source_wf(source@);
        assert forall|k: int| 0 <= k < scanner.errors@.len() implies errors@[k].deep_view()
            == scanner.errors@[k].deep_view() by {
            assert(vstd::pervasive::cloned::<LexError>(scanner.errors@[k], errors@[k]));
        }
        assert(errors.deep_view() =~= scanner.errors.deep_view());
    }
    let mut parser = Parse::new(scanner);
    let result = parser.parse();
    (tokens, errors, result)
}

} // verus!
