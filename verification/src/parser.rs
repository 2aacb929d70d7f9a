//! Recursive-descent parser with precedence climbing, verified against a
//! mathematical mirror of the grammar over token sequences.

use vstd::prelude::*;

use crate::ast::Expr;
use crate::ast::expr_view;
use crate::ast::lemma_exprs_view_push;
use crate::ast::lemma_stmts_view_push;
use crate::ast::Program;
use crate::ast::SpecExpr;
use crate::ast::SpecStmt;
use crate::ast::Stmt;
use crate::lexer::Lexer;
use crate::lexer::LexError;
use crate::lexer::SpecToken;
use crate::lexer::Token;
use crate::lexer::bound_pos;
use crate::lexer::cap_pos;
use crate::lexer::token_stream;
use crate::lexer::toks_view;

verus! {

/// Parser (and lexer) errors. `NumberOverflow` carries the one fatal lexing
/// condition into the parsing result.
#[derive(Debug, Clone, PartialEq)]
pub enum CompilerError {
    UnexpectedToken(Token),
    ExpectedToken(Token, Token),
    ExpectedIdentifier(Token),
    NumberOverflow,
}

/// Mathematical mirror of `CompilerError`.
pub enum SpecError {
    UnexpectedToken(SpecToken),
    ExpectedToken(SpecToken, SpecToken),
    ExpectedIdentifier(SpecToken),
    NumberOverflow,
}

impl View for CompilerError {
    type V = SpecError;

    open spec fn view(&self) -> SpecError {
        match self {
            CompilerError::UnexpectedToken(t) => SpecError::UnexpectedToken(t@),
            CompilerError::ExpectedToken(e, f) => SpecError::ExpectedToken(e@, f@),
            CompilerError::ExpectedIdentifier(t) => SpecError::ExpectedIdentifier(t@),
            CompilerError::NumberOverflow => SpecError::NumberOverflow,
        }
    }
}

/// The token at position `i`, with the `Eof` sentinel past the end: one-token
/// lookahead never fails.
pub open spec fn tok_at(ts: Seq<SpecToken>, i: int) -> SpecToken {
    if 0 <= i && i < ts.len() {
        ts[i]
    } else {
        SpecToken::Eof
    }
}

/// The operators of each binary-precedence level, low (6) to high (1).
pub open spec fn level_op(lvl: int, t: SpecToken) -> bool {
    if lvl == 6 {
        t == SpecToken::OrOr
    } else if lvl == 5 {
        t == SpecToken::AndAnd
    } else if lvl == 4 {
        t == SpecToken::EqualEqual || t == SpecToken::NotEqual
    } else if lvl == 3 {
        t == SpecToken::Less || t == SpecToken::LessEqual || t == SpecToken::Greater || t
            == SpecToken::GreaterEqual
    } else if lvl == 2 {
        t == SpecToken::Plus || t == SpecToken::Minus
    } else if lvl == 1 {
        t == SpecToken::Star || t == SpecToken::Slash || t == SpecToken::Percent
    } else {
        false
    }
}

/// Remaining-input measure for the termination of the parsing functions:
/// zero at or past the end of the token sequence.
pub open spec fn rem_toks(n: int, i: int) -> int {
    if i > n {
        0
    } else {
        n - i + 1
    }
}

/// Precedence level clamped to the range the grammar uses; a termination
/// measure component.
pub open spec fn lvl_rank(lvl: int) -> int {
    if lvl < 1 {
        1
    } else {
        lvl
    }
}

/// Parse of the expression nonterminal (the lowest-precedence level).
pub open spec fn parse_expr_at(ts: Seq<SpecToken>, i: int) -> Result<(SpecExpr, int), SpecError>
    decreases rem_toks(ts.len() as int, i), 8int, 0int,
{
    parse_level_at(ts, i, 6)
}

/// Parse of one binary-operator precedence level: the next-tighter level,
/// followed by any number of `op` plus next-tighter-level steps, folded
/// left-associatively by `parse_level_tail`.
pub open spec fn parse_level_at(ts: Seq<SpecToken>, i: int, lvl: int) -> Result<
    (SpecExpr, int),
    SpecError,
>
    decreases rem_toks(ts.len() as int, i), lvl_rank(lvl), 1int,
{
    let sub = if lvl <= 1 {
        parse_unary_at(ts, i)
    } else {
        parse_level_at(ts, i, lvl - 1)
    };
    match sub {
        Err(e) => Err(e),
        Ok((e0, j0)) => parse_level_tail(
            ts,
            e0,
            bound_pos(i + 1, cap_pos(j0, ts.len() as int)),
            lvl,
        ),
    }
}

/// The left-associative fold of one precedence level: while the next token is
/// an operator of this level, parse the next-tighter level and attach it as
/// the right child.
pub open spec fn parse_level_tail(ts: Seq<SpecToken>, e0: SpecExpr, j: int, lvl: int) -> Result<
    (SpecExpr, int),
    SpecError,
>
    decreases rem_toks(ts.len() as int, j), lvl_rank(lvl), 0int,
{
    if level_op(lvl, tok_at(ts, j)) {
        let op = tok_at(ts, j);
        let sub = if lvl <= 1 {
            parse_unary_at(ts, j + 1)
        } else {
            parse_level_at(ts, j + 1, lvl - 1)
        };
        match sub {
            Err(e) => Err(e),
            Ok((e1, k)) => parse_level_tail(
                ts,
                SpecExpr::BinaryOp { op, left: Box::new(e0), right: Box::new(e1) },
                bound_pos(j + 2, cap_pos(k, ts.len() as int)),
                lvl,
            ),
        }
    } else {
        Ok((e0, j))
    }
}

/// Parse of the unary level: any run of `-` and `!` prefixes, then a primary.
pub open spec fn parse_unary_at(ts: Seq<SpecToken>, i: int) -> Result<(SpecExpr, int), SpecError>
    decreases rem_toks(ts.len() as int, i), 0int, 1int,
{
    let t = tok_at(ts, i);
    if t == SpecToken::Minus || t == SpecToken::Not {
        match parse_unary_at(ts, i + 1) {
            Err(e) => Err(e),
            Ok((e1, k)) => Ok((SpecExpr::UnaryOp { op: t, expr: Box::new(e1) }, k)),
        }
    } else {
        parse_primary_at(ts, i)
    }
}

/// Parse of a primary: a literal, a variable, a call, or a parenthesized
/// expression.
pub open spec fn parse_primary_at(ts: Seq<SpecToken>, i: int) -> Result<(SpecExpr, int), SpecError>
    decreases rem_toks(ts.len() as int, i), 0int, 0int,
{
    match tok_at(ts, i) {
        SpecToken::Number(n) => Ok((SpecExpr::Number(n), i + 1)),
        SpecToken::Bool(b) => Ok((SpecExpr::Bool(b), i + 1)),
        SpecToken::Identifier(name) => {
            if tok_at(ts, i + 1) == SpecToken::LeftParen {
                if tok_at(ts, i + 2) == SpecToken::RightParen {
                    Ok((SpecExpr::FunctionCall { name, args: Seq::empty() }, i + 3))
                } else {
                    match parse_args_at(ts, i + 2) {
                        Err(e) => Err(e),
                        Ok((args, k)) => {
                            if tok_at(ts, k) == SpecToken::RightParen {
                                Ok((SpecExpr::FunctionCall { name, args }, k + 1))
                            } else {
                                Err(
                                    SpecError::ExpectedToken(
                                        SpecToken::RightParen,
                                        tok_at(ts, k),
                                    ),
                                )
                            }
                        },
                    }
                }
            } else {
                Ok((SpecExpr::Variable(name), i + 1))
            }
        },
        SpecToken::LeftParen => {
            match parse_expr_at(ts, i + 1) {
                Err(e) => Err(e),
                Ok((e1, k)) => {
                    if tok_at(ts, k) == SpecToken::RightParen {
                        Ok((e1, k + 1))
                    } else {
                        Err(SpecError::ExpectedToken(SpecToken::RightParen, tok_at(ts, k)))
                    }
                },
            }
        },
        t => Err(SpecError::UnexpectedToken(t)),
    }
}

/// Parse of a non-empty, comma-separated argument list.
pub open spec fn parse_args_at(ts: Seq<SpecToken>, j: int) -> Result<
    (Seq<SpecExpr>, int),
    SpecError,
>
    decreases rem_toks(ts.len() as int, j), 9int, 1int,
{
    match parse_expr_at(ts, j) {
        Err(e) => Err(e),
        Ok((e1, k)) => parse_args_tail(
            ts,
            seq![e1],
            bound_pos(j + 1, cap_pos(k, ts.len() as int)),
        ),
    }
}

/// The fold of an argument list: while the next token is a comma, parse one
/// more argument.
pub open spec fn parse_args_tail(ts: Seq<SpecToken>, acc: Seq<SpecExpr>, k: int) -> Result<
    (Seq<SpecExpr>, int),
    SpecError,
>
    decreases rem_toks(ts.len() as int, k), 9int, 0int,
{
    if tok_at(ts, k) == SpecToken::Comma {
        match parse_expr_at(ts, k + 1) {
            Err(e) => Err(e),
            Ok((e2, k2)) => parse_args_tail(
                ts,
                acc.push(e2),
                bound_pos(k + 2, cap_pos(k2, ts.len() as int)),
            ),
        }
    } else {
        Ok((acc, k))
    }
}

/// Parse of one statement, without its separating semicolon.
pub open spec fn parse_stmt_at(ts: Seq<SpecToken>, i: int) -> Result<(SpecStmt, int), SpecError>
    decreases rem_toks(ts.len() as int, i), 11int, 0int,
{
    if tok_at(ts, i) == SpecToken::Let {
        match tok_at(ts, i + 1) {
            SpecToken::Identifier(name) => {
                if tok_at(ts, i + 2) == SpecToken::Equal {
                    match parse_expr_at(ts, i + 3) {
                        Err(e) => Err(e),
                        Ok((v, k)) => Ok((SpecStmt::LetDecl { name, value: v }, k)),
                    }
                } else {
                    Err(SpecError::ExpectedToken(SpecToken::Equal, tok_at(ts, i + 2)))
                }
            },
            t => Err(SpecError::ExpectedIdentifier(t)),
        }
    } else {
        match parse_expr_at(ts, i) {
            Err(e) => Err(e),
            Ok((e1, k)) => Ok((SpecStmt::ExprStmt(e1), k)),
        }
    }
}

/// Parse of a non-empty statement list: statements separated by semicolons,
/// ending at `Eof`. A semicolon not followed by a statement is an error, so a
/// trailing semicolon is rejected.
pub open spec fn parse_stmts_at(ts: Seq<SpecToken>, i: int) -> Result<Seq<SpecStmt>, SpecError>
    decreases rem_toks(ts.len() as int, i), 12int, 0int,
{
    match parse_stmt_at(ts, i) {
        Err(e) => Err(e),
        Ok((st, k0)) => {
            let k = bound_pos(i + 1, cap_pos(k0, ts.len() as int));
            if tok_at(ts, k) == SpecToken::Eof {
                Ok(seq![st])
            } else if tok_at(ts, k) == SpecToken::Semicolon {
                match parse_stmts_at(ts, k + 1) {
                    Err(e) => Err(e),
                    Ok(rest) => Ok(seq![st] + rest),
                }
            } else {
                Err(SpecError::ExpectedToken(SpecToken::Semicolon, tok_at(ts, k)))
            }
        },
    }
}

/// Parse of a whole program: empty, or statements separated by semicolons with
/// no trailing semicolon.
pub open spec fn parse_program_at(ts: Seq<SpecToken>, i: int) -> Result<Seq<SpecStmt>, SpecError> {
    if tok_at(ts, i) == SpecToken::Eof {
        Ok(Seq::empty())
    } else {
        parse_stmts_at(ts, i)
    }
}

/// A successful expression parse consumes at least one token and stays within
/// the token sequence.
pub proof fn lemma_parse_expr_progress(ts: Seq<SpecToken>, i: int)
    ensures
        parse_expr_at(ts, i) matches Ok((e, k)) ==> i + 1 <= k <= ts.len(),
    decreases rem_toks(ts.len() as int, i), 8int, 0int,
{
    lemma_parse_level_progress(ts, i, 6);
}

/// A successful level parse consumes at least one token and stays within the
/// token sequence.
pub proof fn lemma_parse_level_progress(ts: Seq<SpecToken>, i: int, lvl: int)
    ensures
        parse_level_at(ts, i, lvl) matches Ok((e, k)) ==> i + 1 <= k <= ts.len(),
    decreases rem_toks(ts.len() as int, i), lvl_rank(lvl), 1int,
{
    if lvl <= 1 {
        lemma_parse_unary_progress(ts, i);
    } else {
        lemma_parse_level_progress(ts, i, lvl - 1);
    }
    let sub = if lvl <= 1 {
        parse_unary_at(ts, i)
    } else {
        parse_level_at(ts, i, lvl - 1)
    };
    match sub {
        Ok((e0, j0)) => {
            lemma_parse_tail_progress(ts, e0, bound_pos(i + 1, cap_pos(j0, ts.len() as int)), lvl);
        },
        _ => {},
    }
}

/// A successful level-tail fold never moves backwards and stays within the
/// token sequence when it moves at all.
pub proof fn lemma_parse_tail_progress(ts: Seq<SpecToken>, e0: SpecExpr, j: int, lvl: int)
    ensures
        parse_level_tail(ts, e0, j, lvl) matches Ok((e, k)) ==> j <= k && (k == j || k
            <= ts.len()),
    decreases rem_toks(ts.len() as int, j), lvl_rank(lvl), 0int,
{
    if level_op(lvl, tok_at(ts, j)) {
        let op = tok_at(ts, j);
        if lvl <= 1 {
            lemma_parse_unary_progress(ts, j + 1);
        } else {
            lemma_parse_level_progress(ts, j + 1, lvl - 1);
        }
        let sub = if lvl <= 1 {
            parse_unary_at(ts, j + 1)
        } else {
            parse_level_at(ts, j + 1, lvl - 1)
        };
        match sub {
            Ok((e1, k)) => {
                lemma_parse_tail_progress(
                    ts,
                    SpecExpr::BinaryOp { op, left: Box::new(e0), right: Box::new(e1) },
                    bound_pos(j + 2, cap_pos(k, ts.len() as int)),
                    lvl,
                );
            },
            _ => {},
        }
    }
}

/// A successful unary parse consumes at least one token and stays within the
/// token sequence.
pub proof fn lemma_parse_unary_progress(ts: Seq<SpecToken>, i: int)
    ensures
        parse_unary_at(ts, i) matches Ok((e, k)) ==> i + 1 <= k <= ts.len(),
    decreases rem_toks(ts.len() as int, i), 0int, 1int,
{
    let t = tok_at(ts, i);
    if t == SpecToken::Minus || t == SpecToken::Not {
        lemma_parse_unary_progress(ts, i + 1);
    } else {
        lemma_parse_primary_progress(ts, i);
    }
}

/// A successful primary parse consumes at least one token and stays within the
/// token sequence.
pub proof fn lemma_parse_primary_progress(ts: Seq<SpecToken>, i: int)
    ensures
        parse_primary_at(ts, i) matches Ok((e, k)) ==> i + 1 <= k <= ts.len(),
    decreases rem_toks(ts.len() as int, i), 0int, 0int,
{
    match tok_at(ts, i) {
        SpecToken::Identifier(name) => {
            if tok_at(ts, i + 1) == SpecToken::LeftParen && tok_at(ts, i + 2)
                != SpecToken::RightParen {
                lemma_parse_args_progress(ts, i + 2);
            }
        },
        SpecToken::LeftParen => {
            lemma_parse_expr_progress(ts, i + 1);
        },
        _ => {},
    }
}

/// A successful argument-list parse consumes at least one token and stays
/// within the token sequence.
pub proof fn lemma_parse_args_progress(ts: Seq<SpecToken>, j: int)
    ensures
        parse_args_at(ts, j) matches Ok((args, k)) ==> j + 1 <= k <= ts.len(),
    decreases rem_toks(ts.len() as int, j), 9int, 1int,
{
    lemma_parse_expr_progress(ts, j);
    match parse_expr_at(ts, j) {
        Ok((e1, k)) => {
            lemma_parse_args_tail_progress(
                ts,
                seq![e1],
                bound_pos(j + 1, cap_pos(k, ts.len() as int)),
            );
        },
        _ => {},
    }
}

/// A successful argument-list fold never moves backwards and stays within the
/// token sequence when it moves at all.
pub proof fn lemma_parse_args_tail_progress(ts: Seq<SpecToken>, acc: Seq<SpecExpr>, k: int)
    ensures
        parse_args_tail(ts, acc, k) matches Ok((args, k2)) ==> k <= k2 && (k2 == k || k2
            <= ts.len()),
    decreases rem_toks(ts.len() as int, k), 9int, 0int,
{
    if tok_at(ts, k) == SpecToken::Comma {
        lemma_parse_expr_progress(ts, k + 1);
        match parse_expr_at(ts, k + 1) {
            Ok((e2, k2)) => {
                lemma_parse_args_tail_progress(
                    ts,
                    acc.push(e2),
                    bound_pos(k + 2, cap_pos(k2, ts.len() as int)),
                );
            },
            _ => {},
        }
    }
}

/// A successful statement parse consumes at least one token and stays within
/// the token sequence.
pub proof fn lemma_parse_stmt_progress(ts: Seq<SpecToken>, i: int)
    ensures
        parse_stmt_at(ts, i) matches Ok((st, k)) ==> i + 1 <= k <= ts.len(),
{
    if tok_at(ts, i) == SpecToken::Let {
        lemma_parse_expr_progress(ts, i + 3);
    } else {
        lemma_parse_expr_progress(ts, i);
    }
}

/// A copy of a token with the same mathematical value.
pub(crate) fn clone_tok(t: &Token) -> (r: Token)
    ensures
        r@ == t@,
{
    match t {
        Token::Number(n) => Token::Number(*n),
        Token::Bool(b) => Token::Bool(*b),
        Token::Identifier(s) => Token::Identifier(s.clone()),
        Token::Let => Token::Let,
        Token::Plus => Token::Plus,
        Token::Minus => Token::Minus,
        Token::Star => Token::Star,
        Token::Slash => Token::Slash,
        Token::Percent => Token::Percent,
        Token::EqualEqual => Token::EqualEqual,
        Token::NotEqual => Token::NotEqual,
        Token::Less => Token::Less,
        Token::LessEqual => Token::LessEqual,
        Token::Greater => Token::Greater,
        Token::GreaterEqual => Token::GreaterEqual,
        Token::AndAnd => Token::AndAnd,
        Token::OrOr => Token::OrOr,
        Token::Not => Token::Not,
        Token::Equal => Token::Equal,
        Token::LeftParen => Token::LeftParen,
        Token::RightParen => Token::RightParen,
        Token::Comma => Token::Comma,
        Token::Semicolon => Token::Semicolon,
        Token::Eof => Token::Eof,
    }
}

/// Equality of the mathematical values of two tokens.
#[verifier::rlimit(100)]
fn token_eq(a: &Token, b: &Token) -> (r: bool)
    ensures
        r == (a@ == b@),
{
    match a {
        Token::Number(x) => match b {
            Token::Number(y) => *x == *y,
            _ => false,
        },
        Token::Bool(x) => match b {
            Token::Bool(y) => *x == *y,
            _ => false,
        },
        Token::Identifier(x) => match b {
            Token::Identifier(y) => *x == *y,
            _ => false,
        },
        Token::Let => matches!(b, Token::Let),
        Token::Plus => matches!(b, Token::Plus),
        Token::Minus => matches!(b, Token::Minus),
        Token::Star => matches!(b, Token::Star),
        Token::Slash => matches!(b, Token::Slash),
        Token::Percent => matches!(b, Token::Percent),
        Token::EqualEqual => matches!(b, Token::EqualEqual),
        Token::NotEqual => matches!(b, Token::NotEqual),
        Token::Less => matches!(b, Token::Less),
        Token::LessEqual => matches!(b, Token::LessEqual),
        Token::Greater => matches!(b, Token::Greater),
        Token::GreaterEqual => matches!(b, Token::GreaterEqual),
        Token::AndAnd => matches!(b, Token::AndAnd),
        Token::OrOr => matches!(b, Token::OrOr),
        Token::Not => matches!(b, Token::Not),
        Token::Equal => matches!(b, Token::Equal),
        Token::LeftParen => matches!(b, Token::LeftParen),
        Token::RightParen => matches!(b, Token::RightParen),
        Token::Comma => matches!(b, Token::Comma),
        Token::Semicolon => matches!(b, Token::Semicolon),
        Token::Eof => matches!(b, Token::Eof),
    }
}

/// Parser for constructing the AST from the token stream. The whole input is
/// tokenized up front; the one fatal lexing condition is reported by
/// `parse_program` as `NumberOverflow`, before any parse error.
pub struct Parser {
    tokens: Vec<Token>,
    pos: usize,
    lex_failed: bool,
}

impl Parser {
    /// The tokens being parsed.
    pub closed spec fn toks(&self) -> Seq<SpecToken> {
        toks_view(self.tokens@)
    }

    /// The current position in the token sequence.
    pub closed spec fn pos_at(&self) -> int {
        self.pos as int
    }

    /// Whether tokenization failed with a numeric overflow.
    pub closed spec fn lexing_failed(&self) -> bool {
        self.lex_failed
    }

    /// The tokenized input, or `None` when tokenization failed.
    pub open spec fn input(&self) -> Option<Seq<SpecToken>> {
        if self.lexing_failed() {
            None
        } else {
            Some(self.toks())
        }
    }

    /// The position never leaves the token sequence.
    pub closed spec fn wf(&self) -> bool {
        self.pos <= self.tokens.len()
    }

    /// The token under the cursor, `Eof` past the end.
    spec fn cur(&self) -> SpecToken {
        tok_at(self.toks(), self.pos_at())
    }

    /// Creates a new parser from a lexer, tokenizing the lexer's whole
    /// remaining input.
    pub fn new(lexer: Lexer<'_>) -> (r: Parser)
        requires
            lexer.wf(),
        ensures
            r.wf(),
            r.pos_at() == 0,
            r.input() == token_stream(lexer.text(), lexer.at()),
    {
        let mut lx = lexer;
        match lx.tokenize() {
            Ok(toks) => Parser { tokens: toks, pos: 0, lex_failed: false },
            Err(_) => Parser { tokens: Vec::new(), pos: 0, lex_failed: true },
        }
    }

    /// Is the cursor at the `Eof` sentinel?
    fn peek_is_eof(&self) -> (r: bool)
        requires
            self.wf(),
        ensures
            r == (self.cur() == SpecToken::Eof),
    {
        if self.pos >= self.tokens.len() {
            true
        } else {
            matches!(&self.tokens[self.pos], Token::Eof)
        }
    }

    /// Is the cursor at the `let` keyword?
    fn peek_is_let(&self) -> (r: bool)
        requires
            self.wf(),
        ensures
            r == (self.cur() == SpecToken::Let),
    {
        if self.pos >= self.tokens.len() {
            false
        } else {
            matches!(&self.tokens[self.pos], Token::Let)
        }
    }

    /// Is the cursor at a left parenthesis?
    fn peek_is_lparen(&self) -> (r: bool)
        requires
            self.wf(),
        ensures
            r == (self.cur() == SpecToken::LeftParen),
    {
        if self.pos >= self.tokens.len() {
            false
        } else {
            matches!(&self.tokens[self.pos], Token::LeftParen)
        }
    }

    /// Is the cursor at a right parenthesis?
    fn peek_is_rparen(&self) -> (r: bool)
        requires
            self.wf(),
        ensures
            r == (self.cur() == SpecToken::RightParen),
    {
        if self.pos >= self.tokens.len() {
            false
        } else {
            matches!(&self.tokens[self.pos], Token::RightParen)
        }
    }

    /// Is the cursor at a comma?
    fn peek_is_comma(&self) -> (r: bool)
        requires
            self.wf(),
        ensures
            r == (self.cur() == SpecToken::Comma),
    {
        if self.pos >= self.tokens.len() {
            false
        } else {
            matches!(&self.tokens[self.pos], Token::Comma)
        }
    }

    /// Is the cursor at a unary operator (`-` or `!`)?
    fn peek_is_unary(&self) -> (r: bool)
        requires
            self.wf(),
        ensures
            r == (self.cur() == SpecToken::Minus || self.cur() == SpecToken::Not),
    {
        if self.pos >= self.tokens.len() {
            false
        } else {
            matches!(&self.tokens[self.pos], Token::Minus | Token::Not)
        }
    }

    /// Is the cursor at an operator of the given binary-precedence level?
    fn peek_level_op(&self, lvl: u8) -> (r: bool)
        requires
            self.wf(),
            1 <= lvl <= 6,
        ensures
            r == level_op(lvl as int, self.cur()),
    {
        if self.pos >= self.tokens.len() {
            return false;
        }
        let t = &self.tokens[self.pos];
        if lvl == 6 {
            matches!(t, Token::OrOr)
        } else if lvl == 5 {
            matches!(t, Token::AndAnd)
        } else if lvl == 4 {
            matches!(t, Token::EqualEqual | Token::NotEqual)
        } else if lvl == 3 {
            matches!(t, Token::Less | Token::LessEqual | Token::Greater | Token::GreaterEqual)
        } else if lvl == 2 {
            matches!(t, Token::Plus | Token::Minus)
        } else {
            matches!(t, Token::Star | Token::Slash | Token::Percent)
        }
    }

    /// Takes the token under the cursor, advancing past it; `Eof` past the
    /// end, without advancing.
    fn bump(&mut self) -> (t: Token)
        requires
            old(self).wf(),
        ensures
            final(self).wf(),
            final(self).toks() == old(self).toks(),
            final(self).lexing_failed() == old(self).lexing_failed(),
            t@ == old(self).cur(),
            old(self).pos_at() < old(self).toks().len() ==> final(self).pos_at() == old(
                self,
            ).pos_at() + 1,
            old(self).pos_at() >= old(self).toks().len() ==> final(self).pos_at() == old(
                self,
            ).pos_at(),
    {
        if self.pos < self.tokens.len() {
            let t = clone_tok(&self.tokens[self.pos]);
            self.pos = self.pos + 1;
            t
        } else {
            Token::Eof
        }
    }

    /// Takes one token and demands that it be `expected`.
    fn consume(&mut self, expected: Token) -> (r: Result<(), CompilerError>)
        requires
            old(self).wf(),
            expected@ != SpecToken::Eof,
        ensures
            final(self).wf(),
            final(self).toks() == old(self).toks(),
            final(self).lexing_failed() == old(self).lexing_failed(),
            if old(self).cur() == expected@ {
                r is Ok && final(self).pos_at() == old(self).pos_at() + 1
            } else {
                (r matches Err(e) && e@ == SpecError::ExpectedToken(expected@, old(self).cur()))
            },
    {
        let t = self.bump();
        if token_eq(&t, &expected) {
            Ok(())
        } else {
            Err(CompilerError::ExpectedToken(expected, t))
        }
    }

    /// Parses the entire program: empty, or statements separated by
    /// semicolons, with no trailing semicolon. The first error aborts.
    #[verifier::rlimit(100)]
    pub fn parse_program(&mut self) -> (r: Result<Program, CompilerError>)
        requires
            old(self).wf(),
        ensures
            final(self).wf(),
            match old(self).input() {
                None => r matches Err(e) && e@ == SpecError::NumberOverflow,
                Some(ts) => match parse_program_at(ts, old(self).pos_at()) {
                    Ok(sts) => r matches Ok(p) && p@ == sts,
                    Err(err) => r matches Err(ce) && ce@ == err,
                },
            },
    {
        if self.lex_failed {
            return Err(CompilerError::NumberOverflow);
        }
        let ghost ts = self.toks();
        let ghost start = self.pos_at();
        let mut stmts: Vec<Stmt> = Vec::new();
        if self.peek_is_eof() {
            proof {
                assert(crate::ast::stmts_view(stmts@) =~= Seq::<SpecStmt>::empty());
            }
            return Ok(Program { stmts });
        }
        proof {
            match parse_stmts_at(ts, start) {
                Ok(rest) => {
                    assert(crate::ast::stmts_view(stmts@) + rest =~= rest);
                },
                _ => {},
            }
        }
        loop
            invariant
                ts == old(self).toks(),
                start == old(self).pos_at(),
                !self.lex_failed,
                !old(self).lex_failed,
                self.wf(),
                self.toks() == ts,
                start <= self.pos_at() <= ts.len(),
                match parse_stmts_at(ts, self.pos_at()) {
                    Ok(rest) => parse_program_at(ts, start) == Ok::<Seq<SpecStmt>, SpecError>(
                        crate::ast::stmts_view(stmts@) + rest,
                    ),
                    Err(e) => parse_program_at(ts, start) == Err::<Seq<SpecStmt>, SpecError>(e),
                },
            decreases ts.len() - self.pos_at(),
        {
            let ghost before = self.pos_at();
            let st = match self.parse_stmt_no_semi() {
                Ok(s) => s,
                Err(e) => {
                    return Err(e);
                },
            };
            let ghost prev = stmts@;
            proof {
                lemma_parse_stmt_progress(ts, before);
                lemma_stmts_view_push(stmts@, st);
            }
            let ghost stv = st@;
            stmts.push(st);
            if self.peek_is_eof() {
                proof {
                    assert(crate::ast::stmts_view(prev) + seq![stv] =~= crate::ast::stmts_view(
                        stmts@,
                    ));
                }
                return Ok(Program { stmts });
            }
            match self.consume(Token::Semicolon) {
                Ok(u) => u,
                Err(e) => {
                    return Err(e);
                },
            };
            proof {
                let kpos = self.pos_at() - 1;
                assert(tok_at(ts, kpos) == SpecToken::Semicolon);
                assert(bound_pos(before + 1, cap_pos(kpos, ts.len() as int)) == kpos);
                assert(crate::ast::stmts_view(stmts@) == crate::ast::stmts_view(prev).push(stv));
                match parse_stmts_at(ts, self.pos_at()) {
                    Ok(rest2) => {
                        assert(parse_stmts_at(ts, before) == Ok::<Seq<SpecStmt>, SpecError>(
                            seq![stv] + rest2,
                        ));
                        assert(crate::ast::stmts_view(stmts@) + rest2 =~= crate::ast::stmts_view(
                            prev,
                        ) + (seq![stv] + rest2));
                    },
                    Err(e2) => {
                        assert(parse_stmts_at(ts, before) == Err::<Seq<SpecStmt>, SpecError>(e2));
                    },
                }
            }
        }
    }

    /// Parses one statement, without its separating semicolon.
    fn parse_stmt_no_semi(&mut self) -> (r: Result<Stmt, CompilerError>)
        requires
            old(self).wf(),
        ensures
            final(self).wf(),
            final(self).toks() == old(self).toks(),
            final(self).lexing_failed() == old(self).lexing_failed(),
            match parse_stmt_at(old(self).toks(), old(self).pos_at()) {
                Ok((st, k)) => r matches Ok(s) && s@ == st && final(self).pos_at() == k,
                Err(err) => r matches Err(ce) && ce@ == err,
            },
    {
        if self.peek_is_let() {
            self.parse_let_decl_no_semi()
        } else {
            match self.parse_expr() {
                Ok(e) => Ok(Stmt::ExprStmt(e)),
                Err(e) => Err(e),
            }
        }
    }

    /// Parses `let IDENT = expr`, without its separating semicolon.
    fn parse_let_decl_no_semi(&mut self) -> (r: Result<Stmt, CompilerError>)
        requires
            old(self).wf(),
            old(self).cur() == SpecToken::Let,
        ensures
            final(self).wf(),
            final(self).toks() == old(self).toks(),
            final(self).lexing_failed() == old(self).lexing_failed(),
            match parse_stmt_at(old(self).toks(), old(self).pos_at()) {
                Ok((st, k)) => r matches Ok(s) && s@ == st && final(self).pos_at() == k,
                Err(err) => r matches Err(ce) && ce@ == err,
            },
    {
        match self.consume(Token::Let) {
            Ok(u) => u,
            Err(e) => {
                return Err(e);
            },
        };
        let nt = self.bump();
        let name = match nt {
            Token::Identifier(name) => name,
            other => {
                return Err(CompilerError::ExpectedIdentifier(other));
            },
        };
        match self.consume(Token::Equal) {
            Ok(u) => u,
            Err(e) => {
                return Err(e);
            },
        };
        let value = match self.parse_expr() {
            Ok(v) => v,
            Err(e) => {
                return Err(e);
            },
        };
        Ok(Stmt::LetDecl { name, value })
    }

    /// Parses one expression (the lowest-precedence level).
    pub fn parse_expr(&mut self) -> (r: Result<Expr, CompilerError>)
        requires
            old(self).wf(),
        ensures
            final(self).wf(),
            final(self).toks() == old(self).toks(),
            final(self).lexing_failed() == old(self).lexing_failed(),
            match parse_expr_at(old(self).toks(), old(self).pos_at()) {
                Ok((e, k)) => r matches Ok(expr) && expr@ == e && final(self).pos_at() == k,
                Err(err) => r matches Err(ce) && ce@ == err,
            },
        decreases rem_toks(self.toks().len() as int, self.pos_at()), 8int, 0int,
    {
        self.parse_logical_or()
    }

    /// Parses the `||` precedence level.
    pub fn parse_logical_or(&mut self) -> (r: Result<Expr, CompilerError>)
        requires
            old(self).wf(),
        ensures
            final(self).wf(),
            final(self).toks() == old(self).toks(),
            final(self).lexing_failed() == old(self).lexing_failed(),
            match parse_level_at(old(self).toks(), old(self).pos_at(), 6) {
                Ok((e, k)) => r matches Ok(expr) && expr@ == e && final(self).pos_at() == k,
                Err(err) => r matches Err(ce) && ce@ == err,
            },
        decreases rem_toks(self.toks().len() as int, self.pos_at()), 7int, 0int,
    {
        self.parse_binary_level(6)
    }

    /// Parses the `&&` precedence level.
    pub fn parse_logical_and(&mut self) -> (r: Result<Expr, CompilerError>)
        requires
            old(self).wf(),
        ensures
            final(self).wf(),
            final(self).toks() == old(self).toks(),
            final(self).lexing_failed() == old(self).lexing_failed(),
            match parse_level_at(old(self).toks(), old(self).pos_at(), 5) {
                Ok((e, k)) => r matches Ok(expr) && expr@ == e && final(self).pos_at() == k,
                Err(err) => r matches Err(ce) && ce@ == err,
            },
    {
        self.parse_binary_level(5)
    }

    /// Parses the `==` / `!=` precedence level.
    pub fn parse_equality(&mut self) -> (r: Result<Expr, CompilerError>)
        requires
            old(self).wf(),
        ensures
            final(self).wf(),
            final(self).toks() == old(self).toks(),
            final(self).lexing_failed() == old(self).lexing_failed(),
            match parse_level_at(old(self).toks(), old(self).pos_at(), 4) {
                Ok((e, k)) => r matches Ok(expr) && expr@ == e && final(self).pos_at() == k,
                Err(err) => r matches Err(ce) && ce@ == err,
            },
    {
        self.parse_binary_level(4)
    }

    /// Parses the `<` / `<=` / `>` / `>=` precedence level.
    pub fn parse_comparison(&mut self) -> (r: Result<Expr, CompilerError>)
        requires
            old(self).wf(),
        ensures
            final(self).wf(),
            final(self).toks() == old(self).toks(),
            final(self).lexing_failed() == old(self).lexing_failed(),
            match parse_level_at(old(self).toks(), old(self).pos_at(), 3) {
                Ok((e, k)) => r matches Ok(expr) && expr@ == e && final(self).pos_at() == k,
                Err(err) => r matches Err(ce) && ce@ == err,
            },
    {
        self.parse_binary_level(3)
    }

    /// Parses the `+` / `-` precedence level.
    pub fn parse_term(&mut self) -> (r: Result<Expr, CompilerError>)
        requires
            old(self).wf(),
        ensures
            final(self).wf(),
            final(self).toks() == old(self).toks(),
            final(self).lexing_failed() == old(self).lexing_failed(),
            match parse_level_at(old(self).toks(), old(self).pos_at(), 2) {
                Ok((e, k)) => r matches Ok(expr) && expr@ == e && final(self).pos_at() == k,
                Err(err) => r matches Err(ce) && ce@ == err,
            },
    {
        self.parse_binary_level(2)
    }

    /// Parses the `*` / `/` / `%` precedence level.
    pub fn parse_factor(&mut self) -> (r: Result<Expr, CompilerError>)
        requires
            old(self).wf(),
        ensures
            final(self).wf(),
            final(self).toks() == old(self).toks(),
            final(self).lexing_failed() == old(self).lexing_failed(),
            match parse_level_at(old(self).toks(), old(self).pos_at(), 1) {
                Ok((e, k)) => r matches Ok(expr) && expr@ == e && final(self).pos_at() == k,
                Err(err) => r matches Err(ce) && ce@ == err,
            },
    {
        self.parse_binary_level(1)
    }

    /// Parses one binary-operator precedence level: the next-tighter level,
    /// then a left-associative fold over this level's operators.
    fn parse_binary_level(&mut self, lvl: u8) -> (r: Result<Expr, CompilerError>)
        requires
            old(self).wf(),
            1 <= lvl <= 6,
        ensures
            final(self).wf(),
            final(self).toks() == old(self).toks(),
            final(self).lexing_failed() == old(self).lexing_failed(),
            match parse_level_at(old(self).toks(), old(self).pos_at(), lvl as int) {
                Ok((e, k)) => r matches Ok(expr) && expr@ == e && final(self).pos_at() == k,
                Err(err) => r matches Err(ce) && ce@ == err,
            },
        decreases rem_toks(self.toks().len() as int, self.pos_at()), lvl as int, 1int,
    {
        let ghost ts = self.toks();
        let ghost start = self.pos_at();
        let sub = if lvl == 1 {
            self.parse_unary()
        } else {
            self.parse_binary_level(lvl - 1)
        };
        let mut expr = match sub {
            Ok(e) => e,
            Err(e) => {
                return Err(e);
            },
        };
        proof {
            if lvl == 1 {
                lemma_parse_unary_progress(ts, start);
            } else {
                lemma_parse_level_progress(ts, start, lvl as int - 1);
            }
        }
        while self.peek_level_op(lvl)
            invariant
                1 <= lvl <= 6,
                ts == old(self).toks(),
                start == old(self).pos_at(),
                self.wf(),
                self.toks() == ts,
                self.lexing_failed() == old(self).lexing_failed(),
                start < self.pos_at() <= ts.len(),
                parse_level_tail(ts, expr@, self.pos_at(), lvl as int) == parse_level_at(
                    ts,
                    start,
                    lvl as int,
                ),
            decreases ts.len() - self.pos_at(),
        {
            let ghost opos = self.pos_at();
            let op = self.bump();
            let sub2 = if lvl == 1 {
                self.parse_unary()
            } else {
                self.parse_binary_level(lvl - 1)
            };
            let rhs = match sub2 {
                Ok(e) => e,
                Err(e) => {
                    return Err(e);
                },
            };
            proof {
                if lvl == 1 {
                    lemma_parse_unary_progress(ts, opos + 1);
                } else {
                    lemma_parse_level_progress(ts, opos + 1, lvl as int - 1);
                }
            }
            expr = Expr::BinaryOp { op, left: Box::new(expr), right: Box::new(rhs) };
        }
        Ok(expr)
    }

    /// Parses the unary level: a run of `-` and `!` prefixes, then a primary.
    fn parse_unary(&mut self) -> (r: Result<Expr, CompilerError>)
        requires
            old(self).wf(),
        ensures
            final(self).wf(),
            final(self).toks() == old(self).toks(),
            final(self).lexing_failed() == old(self).lexing_failed(),
            match parse_unary_at(old(self).toks(), old(self).pos_at()) {
                Ok((e, k)) => r matches Ok(expr) && expr@ == e && final(self).pos_at() == k,
                Err(err) => r matches Err(ce) && ce@ == err,
            },
        decreases rem_toks(self.toks().len() as int, self.pos_at()), 0int, 1int,
    {
        if self.peek_is_unary() {
            let op = self.bump();
            match self.parse_unary() {
                Ok(e) => Ok(Expr::UnaryOp { op, expr: Box::new(e) }),
                Err(e) => Err(e),
            }
        } else {
            self.parse_primary()
        }
    }

    /// Parses a primary: a literal, a variable, a call, or a parenthesized
    /// expression.
    fn parse_primary(&mut self) -> (r: Result<Expr, CompilerError>)
        requires
            old(self).wf(),
        ensures
            final(self).wf(),
            final(self).toks() == old(self).toks(),
            final(self).lexing_failed() == old(self).lexing_failed(),
            match parse_primary_at(old(self).toks(), old(self).pos_at()) {
                Ok((e, k)) => r matches Ok(expr) && expr@ == e && final(self).pos_at() == k,
                Err(err) => r matches Err(ce) && ce@ == err,
            },
        decreases rem_toks(self.toks().len() as int, self.pos_at()), 0int, 0int,
    {
        let ghost ts = self.toks();
        let ghost start = self.pos_at();
        let t = self.bump();
        match t {
            Token::Number(n) => Ok(Expr::Number(n)),
            Token::Bool(b) => Ok(Expr::Bool(b)),
            Token::Identifier(name) => {
                if self.peek_is_lparen() {
                    match self.consume(Token::LeftParen) {
                        Ok(u) => u,
                        Err(e) => {
                            return Err(e);
                        },
                    };
                    let mut args: Vec<Expr> = Vec::new();
                    if self.peek_is_rparen() {
                        match self.consume(Token::RightParen) {
                            Ok(u) => u,
                            Err(e) => {
                                return Err(e);
                            },
                        };
                        proof {
                            assert(crate::ast::exprs_view(args@) =~= Seq::<SpecExpr>::empty());
                        }
                        return Ok(Expr::FunctionCall { name, args });
                    }
                    let ghost argstart = self.pos_at();
                    let first = match self.parse_expr() {
                        Ok(e) => e,
                        Err(e) => {
                            return Err(e);
                        },
                    };
                    proof {
                        lemma_parse_expr_progress(ts, argstart);
                        lemma_exprs_view_push(args@, first);
                    }
                    args.push(first);
                    proof {
                        assert(crate::ast::exprs_view(args@) =~= seq![expr_view(first)]);
                    }
                    while self.peek_is_comma()
                        invariant
                            ts == old(self).toks(),
                            start == old(self).pos_at(),
                            argstart == start + 2,
                            tok_at(ts, start) == SpecToken::Identifier(name@),
                            tok_at(ts, start + 1) == SpecToken::LeftParen,
                            tok_at(ts, start + 2) != SpecToken::RightParen,
                            self.wf(),
                            self.toks() == ts,
                            self.lexing_failed() == old(self).lexing_failed(),
                            argstart < self.pos_at() <= ts.len(),
                            parse_args_tail(ts, crate::ast::exprs_view(args@), self.pos_at())
                                == parse_args_at(ts, argstart),
                        decreases ts.len() - self.pos_at(),
                    {
                        let ghost cpos = self.pos_at();
                        match self.consume(Token::Comma) {
                            Ok(u) => u,
                            Err(e) => {
                                return Err(e);
                            },
                        };
                        let e2 = match self.parse_expr() {
                            Ok(e) => e,
                            Err(e) => {
                                return Err(e);
                            },
                        };
                        proof {
                            lemma_parse_expr_progress(ts, cpos + 1);
                            lemma_exprs_view_push(args@, e2);
                        }
                        args.push(e2);
                    }
                    match self.consume(Token::RightParen) {
                        Ok(u) => u,
                        Err(e) => {
                            return Err(e);
                        },
                    };
                    Ok(Expr::FunctionCall { name, args })
                } else {
                    Ok(Expr::Variable(name))
                }
            },
            Token::LeftParen => {
                match self.parse_expr() {
                    Ok(e) => {
                        match self.consume(Token::RightParen) {
                            Ok(u) => u,
                            Err(er) => {
                                return Err(er);
                            },
                        };
                        Ok(e)
                    },
                    Err(e) => Err(e),
                }
            },
            t2 => Err(CompilerError::UnexpectedToken(t2)),
        }
    }
}

} // verus!
