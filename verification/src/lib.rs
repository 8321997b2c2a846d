//! A two-stage front end for a small expression language: a lexer that turns
//! source text into a token stream, and a recursive-descent parser that turns
//! the token stream into an expression tree.
//!
//! Diagnostics are returned as structured values rather than written to a
//! process-wide sink; this module renders them in the driver-facing shape
//! `[line <n>] Error<where>: <message>`.

use vstd::prelude::*;

pub mod expr;
pub mod parser;
pub mod round_trip;
pub mod scanner;
pub mod token;

verus! {

/// The decimal digit character for a value below ten.
pub open spec fn digit_char(d: int) -> char {
    if d == 0 { '0' }
    else if d == 1 { '1' }
    else if d == 2 { '2' }
    else if d == 3 { '3' }
    else if d == 4 { '4' }
    else if d == 5 { '5' }
    else if d == 6 { '6' }
    else if d == 7 { '7' }
    else if d == 8 { '8' }
    else { '9' }
}

/// The usual decimal rendering of a natural number, most significant digit first.
pub open spec fn dec_rep(n: nat) -> Seq<char>
    decreases n,
{
    if n < 10 {
        seq![digit_char(n as int)]
    } else {
        dec_rep(n / 10) + seq![digit_char(n as int % 10)]
    }
}

fn digit_str(d: usize) -> (r: &'static str)
    requires
        d < 10,
    ensures
        r@ == seq![digit_char(d as int)],
{
    let r = if d == 0 { "0" }
    else if d == 1 { "1" }
    else if d == 2 { "2" }
    else if d == 3 { "3" }
    else if d == 4 { "4" }
    else if d == 5 { "5" }
    else if d == 6 { "6" }
    else if d == 7 { "7" }
    else if d == 8 { "8" }
    else { "9" };
    proof {
        reveal_strlit("0");
        reveal_strlit("1");
        reveal_strlit("2");
        reveal_strlit("3");
        reveal_strlit("4");
        reveal_strlit("5");
        reveal_strlit("6");
        reveal_strlit("7");
        reveal_strlit("8");
        reveal_strlit("9");
        assert(r@ =~= seq![digit_char(d as int)]);
    }
    r
}

/// Renders a line number (or any counter) in decimal.
pub fn render_usize(n: usize) -> (r: String)
    ensures
        r@ == dec_rep(n as nat),
    decreases n,
{
    if n < 10 {
        String::from_str(digit_str(n))
    } else {
        let mut s = render_usize(n / 10);
        s.append(digit_str(n % 10));
        proof {
            assert(s@ =~= dec_rep(n as nat));
        }
        s
    }
}

/// The single-line diagnostic shape that callers of the front end print.
pub open spec fn diag_text(line: nat, wher: Seq<char>, msg: Seq<char>) -> Seq<char> {
    "[line "@ + dec_rep(line) + "] Error"@ + wher + ": "@ + msg
}

/// Renders a diagnostic with a location qualifier, e.g. `[line 3] Error at ')': ...`.
pub fn report(line: usize, wher: &str, msg: &str) -> (r: String)
    ensures
        r@ == diag_text(line as nat, wher@, msg@),
{
    let mut s = String::from_str("[line ");
    let num = render_usize(line);
    s.append(num.as_str());
    s.append("] Error");
    s.append(wher);
    s.append(": ");
    s.append(msg);
    proof {
        assert(s@ =~= diag_text(line as nat, wher@, msg@));
    }
    s
}

/// Renders a plain diagnostic, e.g. `[line 3] Error: Unterminated string.`.
pub fn err(line: usize, msg: &str) -> (r: String)
    ensures
        r@ == diag_text(line as nat, ""@, msg@),
{
    report(line, "", msg)
}

} // verus!
