//! The front-end: a lexer and a recursive-descent parser for the small
//! function language the emitter produces and users may write by hand.
//!
//! Grammar, over ASCII source bytes:
//!
//! ```text
//! program  := fndef*
//! fndef    := "fn" ident "(" ident ("," ident)* ")"
//!             "->" "(" ident ("," ident)* ")" "{" stmt* "}"
//! stmt     := "if" expr "{" stmt* "}" ("else" "{" stmt* "}")?
//!           | "while" expr "{" stmt* "}"
//!           | ident ("," ident)* "=" expr ";"
//!           | expr ";"
//! expr     := addsub (cmpop addsub)?
//! addsub   := muldiv (("+" | "-") muldiv)*
//! muldiv   := primary (("*" | "/") primary)*
//! primary  := number | ident | ident "(" expr ("," expr)* ")"
//!           | "(" expr ")"
//! ```
//!
//! Parsing is pure: it produces an abstract syntax tree or a
//! `SyntaxError` with the line and column of the offending token, and
//! touches nothing else, so a failed compilation request can always be
//! retried.
use vstd::prelude::*;

verus! {

/// A recoverable compilation failure. Every variant names the first
/// fault found; nothing partial is produced alongside one.
#[derive(Debug, Clone, PartialEq, Eq)]
pub enum CompileError {
    /// Malformed source: position and what was expected versus found.
    SyntaxError { line: usize, col: usize, expected: Vec<u8>, found: Vec<u8> },
    /// A name that is neither a bound value nor a parameter.
    UnknownIdentifier { name: Vec<u8> },
    /// A call whose argument or binding count disagrees with the
    /// callee's signature.
    TypeMismatch { callee: Vec<u8>, expected: usize, found: usize },
    /// A call to a name with no definition and no host symbol.
    UndefinedFunction { name: Vec<u8> },
    /// A symbol the link step could not resolve.
    LinkError { name: Vec<u8> },
}

/// One lexical token kind.
#[derive(Debug, Clone, PartialEq, Eq)]
pub enum Tok {
    KwFn,
    KwIf,
    KwElse,
    KwWhile,
    Ident(Vec<u8>),
    Num(Vec<u8>),
    LParen,
    RParen,
    LBrace,
    RBrace,
    Comma,
    Semi,
    Arrow,
    Assign,
    Plus,
    Minus,
    Star,
    Slash,
    EqEq,
    Ne,
    Lt,
    Le,
    Gt,
    Ge,
}

/// A token with the line and column it started at (both 1-based).
#[derive(Debug, Clone, PartialEq, Eq)]
pub struct Token {
    pub tok: Tok,
    pub line: usize,
    pub col: usize,
}

/// A binary operator. Comparisons evaluate to 1 or 0 in the numeric
/// kind.
#[derive(Debug, Clone, Copy, PartialEq, Eq, Structural)]
pub enum BinOp {
    Add,
    Sub,
    Mul,
    Div,
    Eq,
    Ne,
    Lt,
    Le,
    Gt,
    Ge,
}

/// An expression.
#[derive(Debug)]
pub enum Expr {
    /// A numeric literal, kept as its lexeme (digits, optionally one
    /// point followed by digits); the backend gives it the numeric kind.
    Num(Vec<u8>),
    /// A reference to a parameter or an assigned name.
    Var(Vec<u8>),
    /// An arithmetic or comparison operation.
    Bin { op: BinOp, lhs: Box<Expr>, rhs: Box<Expr> },
    /// A call to a defined function or a host symbol.
    Call { callee: Vec<u8>, args: Vec<Expr> },
}

/// A statement.
#[derive(Debug)]
pub enum Stmt {
    /// Bind the one or more results of `value` to the named targets.
    Assign { targets: Vec<Vec<u8>>, value: Expr },
    /// Conditional branch; the condition is nonzero-is-true.
    If { cond: Expr, then_body: Vec<Stmt>, else_body: Vec<Stmt> },
    /// Loop while the condition is nonzero.
    While { cond: Expr, body: Vec<Stmt> },
    /// Evaluate for effect, discarding results.
    Discard { value: Expr },
}

/// One function definition: named, with ordered parameters, one or more
/// (possibly zero for an empty graph) return bindings, and a body. The
/// function returns the final values of its return-binding names.
#[derive(Debug)]
pub struct FuncDef {
    pub name: Vec<u8>,
    pub params: Vec<Vec<u8>>,
    pub rets: Vec<Vec<u8>>,
    pub body: Vec<Stmt>,
}

/// A parsed program: an ordered sequence of function definitions.
#[derive(Debug)]
pub struct Program {
    pub funcs: Vec<FuncDef>,
}

/// Bytes the lexer skips: space, tab, carriage return, newline.
pub open spec fn is_ws_byte(b: u8) -> bool {
    b == 32 || b == 9 || b == 13 || b == 10
}

/// The source holds nothing but whitespace.
pub open spec fn all_ws(s: Seq<u8>) -> bool {
    forall|i: int| 0 <= i < s.len() ==> is_ws_byte(#[trigger] s[i])
}

fn is_ident_start(b: u8) -> (r: bool)
    ensures
        r == (97 <= b <= 122 || 65 <= b <= 90 || b == 95),
{
    (97 <= b && b <= 122) || (65 <= b && b <= 90) || b == 95
}

fn is_ident_cont(b: u8) -> (r: bool)
    ensures
        r == (97 <= b <= 122 || 65 <= b <= 90 || b == 95 || 48 <= b <= 57),
{
    is_ident_start(b) || (48 <= b && b <= 57)
}

fn is_digit(b: u8) -> (r: bool)
    ensures
        r == (48 <= b <= 57),
{
    48 <= b && b <= 57
}

/// Split source bytes into tokens, tracking 1-based line and column.
/// Fails with a `SyntaxError` at the first byte that starts no token;
/// every error is a `SyntaxError`, and the token list is empty exactly
/// when the source holds nothing but whitespace.
pub fn lex(src: &Vec<u8>) -> (r: Result<Vec<Token>, CompileError>)
    ensures
        r matches Err(e) ==> e is SyntaxError,
        r is Err ==> !all_ws(src@),
        r matches Ok(toks) ==> (toks@.len() == 0 <==> all_ws(src@)),
{
    let mut toks: Vec<Token> = Vec::new();
    let mut i: usize = 0;
    let mut line: usize = 1;
    let mut col: usize = 1;
    let n = src.len();
    while i < n
        invariant
            n == src@.len(),
            i <= n,
            toks@.len() == 0 ==> (forall|j: int| 0 <= j < i ==> is_ws_byte(#[trigger] src@[j])),
            toks@.len() > 0 ==> (exists|j: int| 0 <= j < i && !is_ws_byte(#[trigger] src@[j])),
        decreases n - i,
    {
        let ghost i0 = i as int;
        let b = src[i];
        if b == 32 || b == 9 || b == 13 {
            i += 1;
            col = if col < usize::MAX {
                col + 1
            } else {
                col
            };
        } else if b == 10 {
            i += 1;
            line = if line < usize::MAX {
                line + 1
            } else {
                line
            };
            col = 1;
        } else if is_ident_start(b) {
            let start_col = col;
            let mut name: Vec<u8> = Vec::new();
            name.push(b);
            i += 1;
            col = if col < usize::MAX {
                col + 1
            } else {
                col
            };
            while i < n && is_ident_cont(src[i])
                invariant
                    n == src@.len(),
                    i0 < i <= n,
                decreases n - i,
            {
                name.push(src[i]);
                i += 1;
                col = if col < usize::MAX {
                    col + 1
                } else {
                    col
                };
            }
            let tok = if name.len() == 2 && name[0] == 102 && name[1] == 110 {
                Tok::KwFn
            } else if name.len() == 2 && name[0] == 105 && name[1] == 102 {
                Tok::KwIf
            } else if name.len() == 4 && name[0] == 101 && name[1] == 108 && name[2] == 115
                && name[3] == 101 {
                Tok::KwElse
            } else if name.len() == 5 && name[0] == 119 && name[1] == 104 && name[2] == 105
                && name[3] == 108 && name[4] == 101 {
                Tok::KwWhile
            } else {
                Tok::Ident(name)
            };
            toks.push(Token { tok, line, col: start_col });
        } else if is_digit(b) {
            let start_col = col;
            let mut lit: Vec<u8> = Vec::new();
            lit.push(b);
            i += 1;
            col = if col < usize::MAX {
                col + 1
            } else {
                col
            };
            while i < n && is_digit(src[i])
                invariant
                    n == src@.len(),
                    i0 < i <= n,
                decreases n - i,
            {
                lit.push(src[i]);
                i += 1;
                col = if col < usize::MAX {
                    col + 1
                } else {
                    col
                };
            }
            if i < n && src[i] == 46 {
                lit.push(46);
                i += 1;
                col = if col < usize::MAX {
                    col + 1
                } else {
                    col
                };
                if !(i < n && is_digit(src[i])) {
                    proof {
                        assert(!is_ws_byte(src@[i0]));
                        assert(!all_ws(src@));
                    }
                    return Err(
                        CompileError::SyntaxError {
                            line,
                            col,
                            expected: vec![100u8, 105u8, 103u8, 105u8, 116u8],
                            found: Vec::new(),
                        },
                    );
                }
                while i < n && is_digit(src[i])
                    invariant
                        n == src@.len(),
                        i0 < i <= n,
                    decreases n - i,
                {
                    lit.push(src[i]);
                    i += 1;
                    col = if col < usize::MAX {
                        col + 1
                    } else {
                        col
                    };
                }
            }
            toks.push(Token { tok: Tok::Num(lit), line, col: start_col });
        } else {
            let start_col = col;
            let two = if i + 1 < n {
                Some(src[i + 1])
            } else {
                None
            };
            let (tok, width): (Tok, usize) = if b == 45 && two == Some(62) {
                (Tok::Arrow, 2)
            } else if b == 61 && two == Some(61) {
                (Tok::EqEq, 2)
            } else if b == 33 && two == Some(61) {
                (Tok::Ne, 2)
            } else if b == 60 && two == Some(61) {
                (Tok::Le, 2)
            } else if b == 62 && two == Some(61) {
                (Tok::Ge, 2)
            } else if b == 40 {
                (Tok::LParen, 1)
            } else if b == 41 {
                (Tok::RParen, 1)
            } else if b == 123 {
                (Tok::LBrace, 1)
            } else if b == 125 {
                (Tok::RBrace, 1)
            } else if b == 44 {
                (Tok::Comma, 1)
            } else if b == 59 {
                (Tok::Semi, 1)
            } else if b == 61 {
                (Tok::Assign, 1)
            } else if b == 43 {
                (Tok::Plus, 1)
            } else if b == 45 {
                (Tok::Minus, 1)
            } else if b == 42 {
                (Tok::Star, 1)
            } else if b == 60 {
                (Tok::Lt, 1)
            } else if b == 62 {
                (Tok::Gt, 1)
            } else if b == 47 {
                (Tok::Slash, 1)
            } else {
                proof {
                    assert(!is_ws_byte(src@[i0]));
                    assert(!all_ws(src@));
                }
                return Err(
                    CompileError::SyntaxError {
                        line,
                        col: start_col,
                        expected: vec![116u8, 111u8, 107u8, 101u8, 110u8],
                        found: vec![b],
                    },
                );
            };
            toks.push(Token { tok, line, col: start_col });
            i += width;
            col = if col < usize::MAX - 2 {
                col + width
            } else {
                col
            };
        }
    }
    Ok(toks)
}

/// A fresh copy of a byte string.
pub fn copy_bytes(v: &Vec<u8>) -> (r: Vec<u8>)
    ensures
        r@ == v@,
{
    let mut r: Vec<u8> = Vec::new();
    let mut i: usize = 0;
    while i < v.len()
        invariant
            i <= v@.len(),
            r@ == v@.subrange(0, i as int),
        decreases v@.len() - i,
    {
        r.push(v[i]);
        proof {
            assert(r@ =~= v@.subrange(0, i as int + 1));
        }
        i += 1;
    }
    proof {
        assert(v@.subrange(0, v@.len() as int) =~= v@);
    }
    r
}

/// A short printable tag for a token, for `SyntaxError`'s `found`.
fn tok_bytes(t: &Tok) -> Vec<u8> {
    match t {
        Tok::KwFn => vec![102u8, 110u8],
        Tok::KwIf => vec![105u8, 102u8],
        Tok::KwElse => vec![101u8, 108u8, 115u8, 101u8],
        Tok::KwWhile => vec![119u8, 104u8, 105u8, 108u8, 101u8],
        Tok::Ident(n) => copy_bytes(n),
        Tok::Num(n) => copy_bytes(n),
        Tok::LParen => vec![40u8],
        Tok::RParen => vec![41u8],
        Tok::LBrace => vec![123u8],
        Tok::RBrace => vec![125u8],
        Tok::Comma => vec![44u8],
        Tok::Semi => vec![59u8],
        Tok::Arrow => vec![45u8, 62u8],
        Tok::Assign => vec![61u8],
        Tok::Plus => vec![43u8],
        Tok::Minus => vec![45u8],
        Tok::Star => vec![42u8],
        Tok::Slash => vec![47u8],
        Tok::EqEq => vec![61u8, 61u8],
        Tok::Ne => vec![33u8, 61u8],
        Tok::Lt => vec![60u8],
        Tok::Le => vec![60u8, 61u8],
        Tok::Gt => vec![62u8],
        Tok::Ge => vec![62u8, 61u8],
    }
}

/// A `SyntaxError` at the token at `pos`, or at the end of input
/// (reported as line 0, column 0) when the tokens ran out.
fn err_at(toks: &Vec<Token>, pos: usize, expected: Vec<u8>) -> (r: CompileError)
    ensures
        r is SyntaxError,
{
    if pos < toks.len() {
        CompileError::SyntaxError {
            line: toks[pos].line,
            col: toks[pos].col,
            expected,
            found: tok_bytes(&toks[pos].tok),
        }
    } else {
        CompileError::SyntaxError { line: 0, col: 0, expected, found: Vec::new() }
    }
}

/// The tokens from `pos` start `ident ("," ident)* "="`: the head of a
/// multi-target assignment rather than an expression statement.
fn is_assign_head(toks: &Vec<Token>, pos: usize) -> bool {
    let n = toks.len();
    if pos >= n {
        return false;
    }
    let mut k: usize = pos;
    while k < n
        invariant
            n == toks@.len(),
            k <= n,
        decreases n - k,
    {
        match &toks[k].tok {
            Tok::Ident(_) => {
            },
            _ => {
                return false;
            },
        }
        k += 1;
        if k < n {
            match &toks[k].tok {
                Tok::Assign => {
                    return true;
                },
                Tok::Comma => {
                    k += 1;
                },
                _ => {
                    return false;
                },
            }
        } else {
            return false;
        }
    }
    false
}

/// The token at `p` is a comma.
fn peek_comma(toks: &Vec<Token>, p: usize) -> (r: bool)
    ensures
        r ==> p < toks@.len(),
{
    p < toks.len() && (match &toks[p].tok {
        Tok::Comma => true,
        _ => false,
    })
}

/// There is a token at `p` and it is not a closing brace.
fn peek_not_rbrace(toks: &Vec<Token>, p: usize) -> (r: bool)
    ensures
        r ==> p < toks@.len(),
{
    p < toks.len() && (match &toks[p].tok {
        Tok::RBrace => false,
        _ => true,
    })
}

/// The token at `p` is `*` or `/`.
fn peek_mulop(toks: &Vec<Token>, p: usize) -> (r: bool)
    ensures
        r ==> p < toks@.len(),
{
    p < toks.len() && (match &toks[p].tok {
        Tok::Star => true,
        Tok::Slash => true,
        _ => false,
    })
}

/// The token at `p` is `+` or `-`.
fn peek_addop(toks: &Vec<Token>, p: usize) -> (r: bool)
    ensures
        r ==> p < toks@.len(),
{
    p < toks.len() && (match &toks[p].tok {
        Tok::Plus => true,
        Tok::Minus => true,
        _ => false,
    })
}

/// Consume one identifier.
fn parse_ident(toks: &Vec<Token>, pos: usize) -> (r: Result<(Vec<u8>, usize), CompileError>)
    ensures
        r is Ok ==> pos < r->Ok_0.1 <= toks@.len(),
        r matches Err(e) ==> e is SyntaxError,
{
    if pos < toks.len() {
        match &toks[pos].tok {
            Tok::Ident(n) => Ok((copy_bytes(n), pos + 1)),
            _ => Err(err_at(toks, pos, vec![105u8, 100u8, 101u8, 110u8, 116u8])),
        }
    } else {
        Err(err_at(toks, pos, vec![105u8, 100u8, 101u8, 110u8, 116u8]))
    }
}

/// Consume an expected punctuation or keyword token.
fn expect(toks: &Vec<Token>, pos: usize, want: Tok) -> (r: Result<usize, CompileError>)
    ensures
        r is Ok ==> pos < r->Ok_0 <= toks@.len(),
        r matches Err(e) ==> e is SyntaxError,
{
    if pos < toks.len() {
        let matches_want = match (&toks[pos].tok, &want) {
            (Tok::KwFn, Tok::KwFn) => true,
            (Tok::KwIf, Tok::KwIf) => true,
            (Tok::KwElse, Tok::KwElse) => true,
            (Tok::KwWhile, Tok::KwWhile) => true,
            (Tok::LParen, Tok::LParen) => true,
            (Tok::RParen, Tok::RParen) => true,
            (Tok::LBrace, Tok::LBrace) => true,
            (Tok::RBrace, Tok::RBrace) => true,
            (Tok::Comma, Tok::Comma) => true,
            (Tok::Semi, Tok::Semi) => true,
            (Tok::Arrow, Tok::Arrow) => true,
            (Tok::Assign, Tok::Assign) => true,
            _ => false,
        };
        if matches_want {
            Ok(pos + 1)
        } else {
            Err(err_at(toks, pos, tok_bytes(&want)))
        }
    } else {
        Err(err_at(toks, pos, tok_bytes(&want)))
    }
}

/// Parse a primary expression: a literal, a variable, a call, or a
/// parenthesized expression.
fn parse_primary(toks: &Vec<Token>, pos: usize) -> (r: Result<(Expr, usize), CompileError>)
    ensures
        r is Ok ==> pos < r->Ok_0.1 <= toks@.len(),
        r matches Err(e) ==> e is SyntaxError,
    decreases toks@.len() - pos, 1int,
{
    let n = toks.len();
    if pos >= n {
        return Err(err_at(toks, pos, vec![101u8, 120u8, 112u8, 114u8]));
    }
    match &toks[pos].tok {
        Tok::Num(lit) => Ok((Expr::Num(copy_bytes(lit)), pos + 1)),
        Tok::Ident(name) => {
            let name = copy_bytes(name);
            let mut p = pos + 1;
            if p < toks.len() {
                let is_call = match &toks[p].tok {
                    Tok::LParen => true,
                    _ => false,
                };
                if is_call {
                    p = p + 1;
                    let mut args: Vec<Expr> = Vec::new();
                    let at_close = p < toks.len() && (match &toks[p].tok {
                        Tok::RParen => true,
                        _ => false,
                    });
                    if !at_close {
                        let (first, p2) = match parse_expr(toks, p) {
                            Ok(x) => x,
                            Err(e) => {
                                return Err(e);
                            },
                        };
                        args.push(first);
                        p = p2;
                        while peek_comma(toks, p)
                            invariant
                                n == toks@.len(),
                                pos < p <= toks@.len(),
                            decreases toks@.len() - p,
                        {
                            let p3 = p + 1;
                            let (nxt, p4) = match parse_expr(toks, p3) {
                                Ok(x) => x,
                                Err(e) => {
                                    return Err(e);
                                },
                            };
                            args.push(nxt);
                            p = p4;
                        }
                    }
                    let p5 = match expect(toks, p, Tok::RParen) {
                        Ok(x) => x,
                        Err(e) => {
                            return Err(e);
                        },
                    };
                    return Ok((Expr::Call { callee: name, args }, p5));
                }
            }
            Ok((Expr::Var(name), pos + 1))
        },
        Tok::LParen => {
            let (inner, p2) = match parse_expr(toks, pos + 1) {
                Ok(x) => x,
                Err(e) => {
                    return Err(e);
                },
            };
            let p3 = match expect(toks, p2, Tok::RParen) {
                Ok(x) => x,
                Err(e) => {
                    return Err(e);
                },
            };
            Ok((inner, p3))
        },
        _ => Err(err_at(toks, pos, vec![101u8, 120u8, 112u8, 114u8])),
    }
}

/// Parse a product: primaries joined by `*` or `/`.
fn parse_muldiv(toks: &Vec<Token>, pos: usize) -> (r: Result<(Expr, usize), CompileError>)
    ensures
        r is Ok ==> pos < r->Ok_0.1 <= toks@.len(),
        r matches Err(e) ==> e is SyntaxError,
    decreases toks@.len() - pos, 2int,
{
    let n = toks.len();
    let (mut lhs, mut p) = match parse_primary(toks, pos) {
        Ok(x) => x,
        Err(e) => {
            return Err(e);
        },
    };
    while peek_mulop(toks, p)
        invariant
            n == toks@.len(),
            pos < p <= toks@.len(),
        decreases toks@.len() - p,
    {
        let op = match &toks[p].tok {
            Tok::Star => BinOp::Mul,
            _ => BinOp::Div,
        };
        let (rhs, p2) = match parse_primary(toks, p + 1) {
            Ok(x) => x,
            Err(e) => {
                return Err(e);
            },
        };
        lhs = Expr::Bin { op, lhs: Box::new(lhs), rhs: Box::new(rhs) };
        p = p2;
    }
    Ok((lhs, p))
}

/// Parse a sum: products joined by `+` or `-`.
fn parse_addsub(toks: &Vec<Token>, pos: usize) -> (r: Result<(Expr, usize), CompileError>)
    ensures
        r is Ok ==> pos < r->Ok_0.1 <= toks@.len(),
        r matches Err(e) ==> e is SyntaxError,
    decreases toks@.len() - pos, 3int,
{
    let n = toks.len();
    let (mut lhs, mut p) = match parse_muldiv(toks, pos) {
        Ok(x) => x,
        Err(e) => {
            return Err(e);
        },
    };
    while peek_addop(toks, p)
        invariant
            n == toks@.len(),
            pos < p <= toks@.len(),
        decreases toks@.len() - p,
    {
        let op = match &toks[p].tok {
            Tok::Plus => BinOp::Add,
            _ => BinOp::Sub,
        };
        let (rhs, p2) = match parse_muldiv(toks, p + 1) {
            Ok(x) => x,
            Err(e) => {
                return Err(e);
            },
        };
        lhs = Expr::Bin { op, lhs: Box::new(lhs), rhs: Box::new(rhs) };
        p = p2;
    }
    Ok((lhs, p))
}

/// Parse an expression: a sum, optionally compared against another sum.
fn parse_expr(toks: &Vec<Token>, pos: usize) -> (r: Result<(Expr, usize), CompileError>)
    ensures
        r is Ok ==> pos < r->Ok_0.1 <= toks@.len(),
        r matches Err(e) ==> e is SyntaxError,
    decreases toks@.len() - pos, 4int,
{
    let (lhs, p) = match parse_addsub(toks, pos) {
        Ok(x) => x,
        Err(e) => {
            return Err(e);
        },
    };
    if p < toks.len() {
        let cmp = match &toks[p].tok {
            Tok::EqEq => Some(BinOp::Eq),
            Tok::Ne => Some(BinOp::Ne),
            Tok::Lt => Some(BinOp::Lt),
            Tok::Le => Some(BinOp::Le),
            Tok::Gt => Some(BinOp::Gt),
            Tok::Ge => Some(BinOp::Ge),
            _ => None,
        };
        match cmp {
            Some(op) => {
                let (rhs, p2) = match parse_addsub(toks, p + 1) {
                    Ok(x) => x,
                    Err(e) => {
                        return Err(e);
                    },
                };
                return Ok((Expr::Bin { op, lhs: Box::new(lhs), rhs: Box::new(rhs) }, p2));
            },
            None => {
            },
        }
    }
    Ok((lhs, p))
}

/// Parse statements until a closing brace or the end of input.
fn parse_stmts(toks: &Vec<Token>, pos: usize) -> (r: Result<(Vec<Stmt>, usize), CompileError>)
    requires
        pos <= toks@.len(),
    ensures
        r is Ok ==> pos <= r->Ok_0.1 <= toks@.len(),
        r matches Err(e) ==> e is SyntaxError,
    decreases toks@.len() - pos, 6int,
{
    let n = toks.len();
    let mut body: Vec<Stmt> = Vec::new();
    let mut p = pos;
    while peek_not_rbrace(toks, p)
        invariant
            n == toks@.len(),
            pos <= p <= toks@.len(),
        decreases toks@.len() - p,
    {
        let (st, p2) = match parse_stmt(toks, p) {
            Ok(x) => x,
            Err(e) => {
                return Err(e);
            },
        };
        body.push(st);
        p = p2;
    }
    Ok((body, p))
}

/// Parse one statement.
fn parse_stmt(toks: &Vec<Token>, pos: usize) -> (r: Result<(Stmt, usize), CompileError>)
    ensures
        r is Ok ==> pos < r->Ok_0.1 <= toks@.len(),
        r matches Err(e) ==> e is SyntaxError,
    decreases toks@.len() - pos, 5int,
{
    let n = toks.len();
    if pos >= n {
        return Err(err_at(toks, pos, vec![115u8, 116u8, 109u8, 116u8]));
    }
    let is_if = match &toks[pos].tok {
        Tok::KwIf => true,
        _ => false,
    };
    let is_while = match &toks[pos].tok {
        Tok::KwWhile => true,
        _ => false,
    };
    if is_if {
        let (cond, p) = match parse_expr(toks, pos + 1) {
            Ok(x) => x,
            Err(e) => {
                return Err(e);
            },
        };
        let p2 = match expect(toks, p, Tok::LBrace) {
            Ok(x) => x,
            Err(e) => {
                return Err(e);
            },
        };
        let (then_body, p3) = match parse_stmts(toks, p2) {
            Ok(x) => x,
            Err(e) => {
                return Err(e);
            },
        };
        let p4 = match expect(toks, p3, Tok::RBrace) {
            Ok(x) => x,
            Err(e) => {
                return Err(e);
            },
        };
        if p4 < toks.len() && (match &toks[p4].tok {
            Tok::KwElse => true,
            _ => false,
        }) {
            let p5 = match expect(toks, p4 + 1, Tok::LBrace) {
                Ok(x) => x,
                Err(e) => {
                    return Err(e);
                },
            };
            let (else_body, p6) = match parse_stmts(toks, p5) {
                Ok(x) => x,
                Err(e) => {
                    return Err(e);
                },
            };
            let p7 = match expect(toks, p6, Tok::RBrace) {
                Ok(x) => x,
                Err(e) => {
                    return Err(e);
                },
            };
            Ok((Stmt::If { cond, then_body, else_body }, p7))
        } else {
            Ok((Stmt::If { cond, then_body, else_body: Vec::new() }, p4))
        }
    } else if is_while {
        let (cond, p) = match parse_expr(toks, pos + 1) {
            Ok(x) => x,
            Err(e) => {
                return Err(e);
            },
        };
        let p2 = match expect(toks, p, Tok::LBrace) {
            Ok(x) => x,
            Err(e) => {
                return Err(e);
            },
        };
        let (body, p3) = match parse_stmts(toks, p2) {
            Ok(x) => x,
            Err(e) => {
                return Err(e);
            },
        };
        let p4 = match expect(toks, p3, Tok::RBrace) {
            Ok(x) => x,
            Err(e) => {
                return Err(e);
            },
        };
        Ok((Stmt::While { cond, body }, p4))
    } else if is_assign_head(toks, pos) {
        let (first, mut p) = match parse_ident(toks, pos) {
            Ok(x) => x,
            Err(e) => {
                return Err(e);
            },
        };
        let mut targets: Vec<Vec<u8>> = Vec::new();
        targets.push(first);
        while peek_comma(toks, p)
            invariant
                n == toks@.len(),
                pos < p <= toks@.len(),
            decreases toks@.len() - p,
        {
            let (nxt, p2) = match parse_ident(toks, p + 1) {
                Ok(x) => x,
                Err(e) => {
                    return Err(e);
                },
            };
            targets.push(nxt);
            p = p2;
        }
        let p3 = match expect(toks, p, Tok::Assign) {
            Ok(x) => x,
            Err(e) => {
                return Err(e);
            },
        };
        let (value, p4) = match parse_expr(toks, p3) {
            Ok(x) => x,
            Err(e) => {
                return Err(e);
            },
        };
        let p5 = match expect(toks, p4, Tok::Semi) {
            Ok(x) => x,
            Err(e) => {
                return Err(e);
            },
        };
        Ok((Stmt::Assign { targets, value }, p5))
    } else {
        let (value, p) = match parse_expr(toks, pos) {
            Ok(x) => x,
            Err(e) => {
                return Err(e);
            },
        };
        let p2 = match expect(toks, p, Tok::Semi) {
            Ok(x) => x,
            Err(e) => {
                return Err(e);
            },
        };
        Ok((Stmt::Discard { value }, p2))
    }
}

/// Parse a comma-separated identifier list closed by `)`; the list may
/// be empty. Returns the names and the position after the `)`.
fn parse_name_list(toks: &Vec<Token>, pos: usize) -> (r: Result<
    (Vec<Vec<u8>>, usize),
    CompileError,
>)
    ensures
        r is Ok ==> pos < r->Ok_0.1 <= toks@.len(),
        r matches Err(e) ==> e is SyntaxError,
{
    let n = toks.len();
    let mut names: Vec<Vec<u8>> = Vec::new();
    let at_close = pos < toks.len() && (match &toks[pos].tok {
        Tok::RParen => true,
        _ => false,
    });
    if at_close {
        return Ok((names, pos + 1));
    }
    let (first, mut p) = match parse_ident(toks, pos) {
        Ok(x) => x,
        Err(e) => {
            return Err(e);
        },
    };
    names.push(first);
    while peek_comma(toks, p)
        invariant
            n == toks@.len(),
            pos < p <= toks@.len(),
        decreases toks@.len() - p,
    {
        let (nxt, p2) = match parse_ident(toks, p + 1) {
            Ok(x) => x,
            Err(e) => {
                return Err(e);
            },
        };
        names.push(nxt);
        p = p2;
    }
    let p3 = match expect(toks, p, Tok::RParen) {
        Ok(x) => x,
        Err(e) => {
            return Err(e);
        },
    };
    Ok((names, p3))
}

/// Parse one function definition.
fn parse_fndef(toks: &Vec<Token>, pos: usize) -> (r: Result<(FuncDef, usize), CompileError>)
    ensures
        r is Ok ==> pos < r->Ok_0.1 <= toks@.len(),
        r matches Err(e) ==> e is SyntaxError,
{
    let p0 = match expect(toks, pos, Tok::KwFn) {
        Ok(x) => x,
        Err(e) => {
            return Err(e);
        },
    };
    let (name, p1) = match parse_ident(toks, p0) {
        Ok(x) => x,
        Err(e) => {
            return Err(e);
        },
    };
    let p2 = match expect(toks, p1, Tok::LParen) {
        Ok(x) => x,
        Err(e) => {
            return Err(e);
        },
    };
    let (params, p3) = match parse_name_list(toks, p2) {
        Ok(x) => x,
        Err(e) => {
            return Err(e);
        },
    };
    let p4 = match expect(toks, p3, Tok::Arrow) {
        Ok(x) => x,
        Err(e) => {
            return Err(e);
        },
    };
    let p5 = match expect(toks, p4, Tok::LParen) {
        Ok(x) => x,
        Err(e) => {
            return Err(e);
        },
    };
    let (rets, p6) = match parse_name_list(toks, p5) {
        Ok(x) => x,
        Err(e) => {
            return Err(e);
        },
    };
    let p7 = match expect(toks, p6, Tok::LBrace) {
        Ok(x) => x,
        Err(e) => {
            return Err(e);
        },
    };
    let (body, p8) = match parse_stmts(toks, p7) {
        Ok(x) => x,
        Err(e) => {
            return Err(e);
        },
    };
    let p9 = match expect(toks, p8, Tok::RBrace) {
        Ok(x) => x,
        Err(e) => {
            return Err(e);
        },
    };
    Ok((FuncDef { name, params, rets, body }, p9))
}

/// Parse a whole program from source bytes: lex, then parse function
/// definitions until the input ends. Pure: returns the tree or the
/// first `SyntaxError`, and nothing else happens. Every failure is a
/// `SyntaxError`, and the program is empty exactly when the source
/// holds nothing but whitespace: any real source either parses into at
/// least one definition or is refused.
pub fn parse_program(src: &Vec<u8>) -> (r: Result<Program, CompileError>)
    ensures
        r matches Err(e) ==> e is SyntaxError,
        r is Err ==> !all_ws(src@),
        r matches Ok(p) ==> (p.funcs@.len() == 0 <==> all_ws(src@)),
{
    let toks = match lex(src) {
        Ok(t) => t,
        Err(e) => {
            return Err(e);
        },
    };
    let mut funcs: Vec<FuncDef> = Vec::new();
    let mut p: usize = 0;
    while p < toks.len()
        invariant
            p <= toks@.len(),
            (funcs@.len() == 0) == (p == 0),
            (toks@.len() == 0) == all_ws(src@),
        decreases toks@.len() - p,
    {
        let (f, p2) = match parse_fndef(&toks, p) {
            Ok(x) => x,
            Err(e) => {
                return Err(e);
            },
        };
        funcs.push(f);
        p = p2;
    }
    Ok(Program { funcs })
}

} // verus!
