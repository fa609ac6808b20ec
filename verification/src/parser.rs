//! The parser: turns one input line into an [`Action`].
//!
//! The grammar: identifiers match `[A-Za-z_][A-Za-z0-9_]*`; integer
//! literals are decimal, parsed as signed 32-bit, and an out-of-range
//! literal is rejected; operator precedence, low to high, is the
//! non-associative relations `=`, `<>`, `>`, `<`, `>=`, `<=`, then
//! left-associative `+`, `-`, then left-associative `*`, `/`, `%`, then
//! parenthesised sub-expressions and function application `name(expr?)`.
//! A definition is `name(param)? := expr`; a bare expression is a query;
//! commands begin with a dot.

use vstd::prelude::*;

use crate::ast::{Action, Command, Expr, FunctionDef};

verus! {

/// A reason one line failed to parse.
#[derive(Debug, Clone, Copy, PartialEq, Eq, Structural)]
pub enum ParseError {
    NotAscii,
    UnexpectedCharacter,
    IntegerTooBig,
    Malformed,
}

impl ParseError {
    /// The human-readable message for this error.
    pub fn message(&self) -> (r: &'static str)
        ensures
            *self == ParseError::IntegerTooBig ==> r@ == "Integer too big."@,
    {
        match self {
            ParseError::NotAscii => "Input is not ASCII.",
            ParseError::UnexpectedCharacter => "Unexpected character.",
            ParseError::IntegerTooBig => "Integer too big.",
            ParseError::Malformed => "Malformed input.",
        }
    }
}

/// One lexical token.
pub enum Token {
    Ident(String),
    Number(i32),
    Plus,
    Minus,
    Star,
    Slash,
    Percent,
    OpEq,
    OpNeq,
    OpGt,
    OpLt,
    OpGte,
    OpLte,
    LParen,
    RParen,
    Assign,
    Dot,
}

/// Whether a byte is an ASCII decimal digit.
fn is_digit(b: u8) -> (r: bool)
    ensures
        r == (48 <= b <= 57),
{
    48 <= b && b <= 57
}

/// Whether a byte may start an identifier.
fn is_ident_start(b: u8) -> (r: bool)
    ensures
        r == (65 <= b <= 90 || 97 <= b <= 122 || b == 95),
{
    (65 <= b && b <= 90) || (97 <= b && b <= 122) || b == 95
}

/// Scans one line into tokens.  Fails on a character outside the
/// grammar's alphabet and on a decimal literal that does not fit in a
/// signed 32-bit integer.
fn tokenize(input: &str) -> (r: Result<Vec<Token>, ParseError>)
    requires
        input.is_ascii(),
{
    let n = input.unicode_len();
    let mut tokens: Vec<Token> = Vec::new();
    let mut i: usize = 0;
    while i < n
        invariant
            input.is_ascii(),
            n == input@.len(),
        decreases n - i,
    {
        let b = input.get_ascii(i);
        if b == 32 || b == 9 || b == 13 || b == 10 {
            i += 1;
        } else if is_digit(b) {
            let start = i;
            let mut value: i64 = (b - 48) as i64;
            i += 1;
            while i < n
                invariant
                    input.is_ascii(),
                    n == input@.len(),
                    start < i <= n,
                    0 <= value <= 0x7fffffff,
                ensures
                    start < i <= n,
                    0 <= value <= 0x7fffffff,
                decreases n - i,
            {
                let c = input.get_ascii(i);
                if !(48 <= c && c <= 57) {
                    break;
                }
                let d = c - 48;
                value = value * 10 + d as i64;
                if value > 0x7fffffff {
                    return Result::Err(ParseError::IntegerTooBig);
                }
                i += 1;
            }
            tokens.push(Token::Number(value as i32));
        } else if is_ident_start(b) {
            let start = i;
            i += 1;
            while i < n
                invariant
                    input.is_ascii(),
                    n == input@.len(),
                    start < i <= n,
                ensures
                    start < i <= n,
                decreases n - i,
            {
                let c = input.get_ascii(i);
                if !((65 <= c && c <= 90) || (97 <= c && c <= 122) || c == 95 || (48 <= c && c
                    <= 57)) {
                    break;
                }
                i += 1;
            }
            let text = input.substring_ascii(start, i).to_owned();
            tokens.push(Token::Ident(text));
        } else if b == 43 {
            tokens.push(Token::Plus);
            i += 1;
        } else if b == 45 {
            tokens.push(Token::Minus);
            i += 1;
        } else if b == 42 {
            tokens.push(Token::Star);
            i += 1;
        } else if b == 47 {
            tokens.push(Token::Slash);
            i += 1;
        } else if b == 37 {
            tokens.push(Token::Percent);
            i += 1;
        } else if b == 61 {
            tokens.push(Token::OpEq);
            i += 1;
        } else if b == 60 {
            // '<' begins '<', '<=' or '<>'
            if i + 1 < n && input.get_ascii(i + 1) == 62 {
                tokens.push(Token::OpNeq);
                i += 2;
            } else if i + 1 < n && input.get_ascii(i + 1) == 61 {
                tokens.push(Token::OpLte);
                i += 2;
            } else {
                tokens.push(Token::OpLt);
                i += 1;
            }
        } else if b == 62 {
            // '>' begins '>' or '>='
            if i + 1 < n && input.get_ascii(i + 1) == 61 {
                tokens.push(Token::OpGte);
                i += 2;
            } else {
                tokens.push(Token::OpGt);
                i += 1;
            }
        } else if b == 40 {
            tokens.push(Token::LParen);
            i += 1;
        } else if b == 41 {
            tokens.push(Token::RParen);
            i += 1;
        } else if b == 58 {
            // ':' only as part of ':='
            if i + 1 < n && input.get_ascii(i + 1) == 61 {
                tokens.push(Token::Assign);
                i += 2;
            } else {
                return Result::Err(ParseError::UnexpectedCharacter);
            }
        } else if b == 46 {
            tokens.push(Token::Dot);
            i += 1;
        } else {
            return Result::Err(ParseError::UnexpectedCharacter);
        }
    }
    Result::Ok(tokens)
}

/// Parses an atom: a literal, a variable, a call `name(expr?)`, or a
/// parenthesised expression.
fn parse_atom(tokens: &Vec<Token>, pos: usize) -> (r: Result<(Expr, usize), ParseError>)
    ensures
        (match r {
            Result::Ok(p) => pos < p.1 <= tokens@.len(),
            Result::Err(_) => true,
        }),
    decreases tokens@.len() - pos, 0nat,
{
    if pos >= tokens.len() {
        return Result::Err(ParseError::Malformed);
    }
    match &tokens[pos] {
        Token::Number(v) => Result::Ok((Expr::Number(*v), pos + 1)),
        Token::Ident(name) => {
            if pos + 1 < tokens.len() && (matches!(&tokens[pos + 1], Token::LParen)) {
                // function application
                if pos + 2 < tokens.len() && (matches!(&tokens[pos + 2], Token::RParen)) {
                    return Result::Ok((Expr::FunctionCall(name.clone(), None), pos + 3));
                }
                let (arg, next) = match parse_relation(tokens, pos + 2) {
                    Result::Ok(p) => p,
                    Result::Err(err) => {
                        return Result::Err(err);
                    },
                };
                if next < tokens.len() && (matches!(&tokens[next], Token::RParen)) {
                    Result::Ok((Expr::FunctionCall(name.clone(), Some(Box::new(arg))), next + 1))
                } else {
                    Result::Err(ParseError::Malformed)
                }
            } else {
                Result::Ok((Expr::Var(name.clone()), pos + 1))
            }
        },
        Token::LParen => {
            let (inner, next) = match parse_relation(tokens, pos + 1) {
                Result::Ok(p) => p,
                Result::Err(err) => {
                    return Result::Err(err);
                },
            };
            if next < tokens.len() && (matches!(&tokens[next], Token::RParen)) {
                Result::Ok((inner, next + 1))
            } else {
                Result::Err(ParseError::Malformed)
            }
        },
        _ => Result::Err(ParseError::Malformed),
    }
}

/// Parses a product: atoms joined by `*`, `/`, `%`, left-associative.
fn parse_muldiv(tokens: &Vec<Token>, pos: usize) -> (r: Result<(Expr, usize), ParseError>)
    ensures
        (match r {
            Result::Ok(p) => pos < p.1 <= tokens@.len(),
            Result::Err(_) => true,
        }),
    decreases tokens@.len() - pos, 1nat,
{
    let (first, next) = match parse_atom(tokens, pos) {
        Result::Ok(p) => p,
        Result::Err(err) => {
            return Result::Err(err);
        },
    };
    let mut acc = first;
    let mut cur = next;
    loop
        invariant
            pos < cur <= tokens@.len(),
        decreases tokens@.len() - cur,
    {
        if cur >= tokens.len() {
            return Result::Ok((acc, cur));
        }
        let op_mul = matches!(&tokens[cur], Token::Star);
        let op_div = matches!(&tokens[cur], Token::Slash);
        let op_rem = matches!(&tokens[cur], Token::Percent);
        if !(op_mul || op_div || op_rem) {
            return Result::Ok((acc, cur));
        }
        let (rhs, after) = match parse_atom(tokens, cur + 1) {
            Result::Ok(p) => p,
            Result::Err(err) => {
                return Result::Err(err);
            },
        };
        acc = if op_mul {
            Expr::Mul(Box::new(acc), Box::new(rhs))
        } else if op_div {
            Expr::Div(Box::new(acc), Box::new(rhs))
        } else {
            Expr::Rem(Box::new(acc), Box::new(rhs))
        };
        cur = after;
    }
}

/// Parses a sum: products joined by `+`, `-`, left-associative.
fn parse_addsub(tokens: &Vec<Token>, pos: usize) -> (r: Result<(Expr, usize), ParseError>)
    ensures
        (match r {
            Result::Ok(p) => pos < p.1 <= tokens@.len(),
            Result::Err(_) => true,
        }),
    decreases tokens@.len() - pos, 2nat,
{
    let (first, next) = match parse_muldiv(tokens, pos) {
        Result::Ok(p) => p,
        Result::Err(err) => {
            return Result::Err(err);
        },
    };
    let mut acc = first;
    let mut cur = next;
    loop
        invariant
            pos < cur <= tokens@.len(),
        decreases tokens@.len() - cur,
    {
        if cur >= tokens.len() {
            return Result::Ok((acc, cur));
        }
        let op_add = matches!(&tokens[cur], Token::Plus);
        let op_sub = matches!(&tokens[cur], Token::Minus);
        if !(op_add || op_sub) {
            return Result::Ok((acc, cur));
        }
        let (rhs, after) = match parse_muldiv(tokens, cur + 1) {
            Result::Ok(p) => p,
            Result::Err(err) => {
                return Result::Err(err);
            },
        };
        acc = if op_add {
            Expr::Add(Box::new(acc), Box::new(rhs))
        } else {
            Expr::Sub(Box::new(acc), Box::new(rhs))
        };
        cur = after;
    }
}

/// Parses a relation: one sum, optionally related to a second by one
/// non-associative relational operator.
fn parse_relation(tokens: &Vec<Token>, pos: usize) -> (r: Result<(Expr, usize), ParseError>)
    ensures
        (match r {
            Result::Ok(p) => pos < p.1 <= tokens@.len(),
            Result::Err(_) => true,
        }),
    decreases tokens@.len() - pos, 3nat,
{
    let (lhs, next) = match parse_addsub(tokens, pos) {
        Result::Ok(p) => p,
        Result::Err(err) => {
            return Result::Err(err);
        },
    };
    if next >= tokens.len() {
        return Result::Ok((lhs, next));
    }
    let op: u8 = match &tokens[next] {
        Token::OpEq => 1,
        Token::OpNeq => 2,
        Token::OpGt => 3,
        Token::OpLt => 4,
        Token::OpGte => 5,
        Token::OpLte => 6,
        _ => 0,
    };
    if op == 0 {
        return Result::Ok((lhs, next));
    }
    let (rhs, after) = match parse_addsub(tokens, next + 1) {
        Result::Ok(p) => p,
        Result::Err(err) => {
            return Result::Err(err);
        },
    };
    let e = if op == 1 {
        Expr::Eq(Box::new(lhs), Box::new(rhs))
    } else if op == 2 {
        Expr::Neq(Box::new(lhs), Box::new(rhs))
    } else if op == 3 {
        Expr::Gt(Box::new(lhs), Box::new(rhs))
    } else if op == 4 {
        Expr::Lt(Box::new(lhs), Box::new(rhs))
    } else if op == 5 {
        Expr::Gte(Box::new(lhs), Box::new(rhs))
    } else {
        Expr::Lte(Box::new(lhs), Box::new(rhs))
    };
    Result::Ok((e, after))
}

/// Parses a whole expression and demands that it consume every token
/// from `pos` on.
fn parse_full_expr(tokens: &Vec<Token>, pos: usize) -> (r: Result<Expr, ParseError>)
    decreases tokens@.len() - pos, 4nat,
{
    match parse_relation(tokens, pos) {
        Result::Ok((e, next)) => {
            if next == tokens.len() {
                Result::Ok(e)
            } else {
                Result::Err(ParseError::Malformed)
            }
        },
        Result::Err(err) => Result::Err(err),
    }
}

/// Matches an identifier token against a keyword.
fn ident_is(tokens: &Vec<Token>, pos: usize, word: &str) -> (r: bool)
    requires
        pos < tokens@.len(),
{
    match &tokens[pos] {
        Token::Ident(name) => name.eq(&word.to_owned()),
        _ => false,
    }
}

/// Parses a command line: the dot has already been seen at position 0.
fn parse_command(tokens: &Vec<Token>) -> (r: Result<Command, ParseError>)
    requires
        tokens@.len() >= 1,
{
    if tokens.len() < 2 {
        return Result::Err(ParseError::Malformed);
    }
    if ident_is(tokens, 1, "show") {
        if tokens.len() == 3 {
            match &tokens[2] {
                Token::Ident(name) => Result::Ok(Command::ShowCode(name.clone())),
                _ => Result::Err(ParseError::Malformed),
            }
        } else {
            Result::Err(ParseError::Malformed)
        }
    } else if ident_is(tokens, 1, "list") {
        if tokens.len() == 2 {
            Result::Ok(Command::ListFunctions())
        } else {
            Result::Err(ParseError::Malformed)
        }
    } else if ident_is(tokens, 1, "delete") {
        if tokens.len() == 3 {
            match &tokens[2] {
                Token::Ident(name) => Result::Ok(Command::DeleteFunction(name.clone())),
                _ => Result::Err(ParseError::Malformed),
            }
        } else {
            Result::Err(ParseError::Malformed)
        }
    } else if ident_is(tokens, 1, "mode") {
        if tokens.len() == 3 && (ident_is(tokens, 2, "proof") || ident_is(tokens, 2, "fast")
            || ident_is(tokens, 2, "benchmark")) {
            match &tokens[2] {
                Token::Ident(name) => Result::Ok(Command::SwitchMode(name.clone())),
                _ => Result::Err(ParseError::Malformed),
            }
        } else {
            Result::Err(ParseError::Malformed)
        }
    } else if ident_is(tokens, 1, "executor") {
        if tokens.len() == 3 && (ident_is(tokens, 2, "compiled") || ident_is(
            tokens,
            2,
            "interpreted",
        )) {
            match &tokens[2] {
                Token::Ident(name) => Result::Ok(Command::SwitchExecutor(name.clone())),
                _ => Result::Err(ParseError::Malformed),
            }
        } else {
            Result::Err(ParseError::Malformed)
        }
    } else if ident_is(tokens, 1, "test") {
        match parse_full_expr(tokens, 2) {
            Result::Ok(e) => Result::Ok(Command::Test(e)),
            Result::Err(err) => Result::Err(err),
        }
    } else if ident_is(tokens, 1, "benchmark") {
        if tokens.len() == 2 {
            Result::Ok(Command::Benchmark())
        } else {
            Result::Err(ParseError::Malformed)
        }
    } else {
        Result::Err(ParseError::Malformed)
    }
}

/// Parses one line into an action: a command after a leading dot, a
/// definition `name(param)? := expr`, or a bare query expression.
///
/// The parser is total and panic-free; it accepts only ASCII input and
/// rejects integer literals outside the signed 32-bit range.
pub fn parse(input: &str) -> (r: Result<Action, ParseError>)
{
    if !input.is_ascii() {
        return Result::Err(ParseError::NotAscii);
    }
    let tokens = match tokenize(input) {
        Result::Ok(t) => t,
        Result::Err(err) => {
            return Result::Err(err);
        },
    };
    if tokens.len() == 0 {
        return Result::Err(ParseError::Malformed);
    }
    if matches!(&tokens[0], Token::Dot) {
        return match parse_command(&tokens) {
            Result::Ok(c) => Result::Ok(Action::Command(c)),
            Result::Err(err) => Result::Err(err),
        };
    }
    // a definition starts `name :=` or `name(param) :=`
    if tokens.len() >= 2 && (matches!(&tokens[0], Token::Ident(_))) && (matches!(
        &tokens[1],
        Token::Assign,
    )) {
        let name = match &tokens[0] {
            Token::Ident(n) => n.clone(),
            _ => {
                return Result::Err(ParseError::Malformed);
            },
        };
        return match parse_full_expr(&tokens, 2) {
            Result::Ok(body) => Result::Ok(
                Action::FunctionDef(FunctionDef { name, parameter: None, body }),
            ),
            Result::Err(err) => Result::Err(err),
        };
    }
    if tokens.len() >= 5 && (matches!(&tokens[0], Token::Ident(_))) && (matches!(
        &tokens[1],
        Token::LParen,
    )) && (matches!(&tokens[2], Token::Ident(_))) && (matches!(&tokens[3], Token::RParen))
        && (matches!(&tokens[4], Token::Assign)) {
        let name = match &tokens[0] {
            Token::Ident(n) => n.clone(),
            _ => {
                return Result::Err(ParseError::Malformed);
            },
        };
        let parameter = match &tokens[2] {
            Token::Ident(n) => Some(n.clone()),
            _ => None,
        };
        return match parse_full_expr(&tokens, 5) {
            Result::Ok(body) => Result::Ok(
                Action::FunctionDef(FunctionDef { name, parameter, body }),
            ),
            Result::Err(err) => Result::Err(err),
        };
    }
    match parse_full_expr(&tokens, 0) {
        Result::Ok(e) => Result::Ok(Action::Query(e)),
        Result::Err(err) => Result::Err(err),
    }
}

} // verus!
