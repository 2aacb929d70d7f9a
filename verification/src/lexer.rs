//! Tokens and the streaming lexer, verified against a mathematical
//! description of tokenization over the source character sequence.

use vstd::prelude::*;

verus! {

/// Tokens of the language.
#[derive(Debug, PartialEq, Clone)]
pub enum Token {
    Number(i64),
    Bool(bool),
    Identifier(String),
    Let,
    Plus,
    Minus,
    Star,
    Slash,
    Percent,
    EqualEqual,
    NotEqual,
    Less,
    LessEqual,
    Greater,
    GreaterEqual,
    AndAnd,
    OrOr,
    Not,
    Equal,
    LeftParen,
    RightParen,
    Comma,
    Semicolon,
    Eof,
}

/// Mathematical mirror of `Token`: identifier text as a character sequence.
pub enum SpecToken {
    Number(i64),
    Bool(bool),
    Identifier(Seq<char>),
    Let,
    Plus,
    Minus,
    Star,
    Slash,
    Percent,
    EqualEqual,
    NotEqual,
    Less,
    LessEqual,
    Greater,
    GreaterEqual,
    AndAnd,
    OrOr,
    Not,
    Equal,
    LeftParen,
    RightParen,
    Comma,
    Semicolon,
    Eof,
}

impl View for Token {
    type V = SpecToken;

    open spec fn view(&self) -> SpecToken {
        match self {
            Token::Number(n) => SpecToken::Number(*n),
            Token::Bool(b) => SpecToken::Bool(*b),
            Token::Identifier(s) => SpecToken::Identifier(s@),
            Token::Let => SpecToken::Let,
            Token::Plus => SpecToken::Plus,
            Token::Minus => SpecToken::Minus,
            Token::Star => SpecToken::Star,
            Token::Slash => SpecToken::Slash,
            Token::Percent => SpecToken::Percent,
            Token::EqualEqual => SpecToken::EqualEqual,
            Token::NotEqual => SpecToken::NotEqual,
            Token::Less => SpecToken::Less,
            Token::LessEqual => SpecToken::LessEqual,
            Token::Greater => SpecToken::Greater,
            Token::GreaterEqual => SpecToken::GreaterEqual,
            Token::AndAnd => SpecToken::AndAnd,
            Token::OrOr => SpecToken::OrOr,
            Token::Not => SpecToken::Not,
            Token::Equal => SpecToken::Equal,
            Token::LeftParen => SpecToken::LeftParen,
            Token::RightParen => SpecToken::RightParen,
            Token::Comma => SpecToken::Comma,
            Token::Semicolon => SpecToken::Semicolon,
            Token::Eof => SpecToken::Eof,
        }
    }
}

/// The view of a token sequence.
pub open spec fn toks_view(ts: Seq<Token>) -> Seq<SpecToken> {
    ts.map_values(|t: Token| t@)
}

/// The one fatal tokenization condition: a numeric literal too large for `i64`.
#[derive(Debug, PartialEq, Clone)]
pub enum LexError {
    NumberOverflow,
}

/// Whitespace: the ASCII whitespace characters. (Any other character that can
/// appear in whitespace position is unknown to the lexer and is dropped, which
/// produces the same token stream.)
pub open spec fn is_ws_char(c: char) -> bool {
    c as u32 == 32 || (9 <= c as u32 && c as u32 <= 13)
}

/// ASCII decimal digit.
pub open spec fn is_digit_char(c: char) -> bool {
    48 <= c as u32 && c as u32 <= 57
}

/// ASCII letter or underscore: the characters that may start an identifier.
pub open spec fn is_ident_start_char(c: char) -> bool {
    (65 <= c as u32 && c as u32 <= 90) || (97 <= c as u32 && c as u32 <= 122) || c as u32 == 95
}

/// The characters that may continue an identifier.
pub open spec fn is_ident_char(c: char) -> bool {
    is_ident_start_char(c) || is_digit_char(c)
}

/// Numeric value of a decimal digit character.
pub open spec fn digit_val(c: char) -> int {
    c as u32 - 48
}

/// Clamps a position from below; `lemma_skip_trivia_bounds` and its kin show
/// that, at every use, the clamp never alters the position.
pub open spec fn bound_pos(lo: int, k: int) -> int {
    if k < lo {
        lo
    } else {
        k
    }
}

/// Clamps a position from above; `lemma_next_token_at_bounds` shows that, at
/// every use, the clamp never alters the position.
pub open spec fn cap_pos(k: int, hi: int) -> int {
    if k > hi {
        hi
    } else {
        k
    }
}

/// Position of the first character after the run of whitespace and line
/// comments that starts at `i`; `in_comment` records being inside a line
/// comment. Both `// ...` and `# ...` comments end at a newline or at the end
/// of the input.
pub open spec fn skip_trivia(s: Seq<char>, i: int, in_comment: bool) -> int
    decreases s.len() - i,
{
    if i < 0 || i >= s.len() {
        s.len() as int
    } else if in_comment {
        if s[i] == '\n' {
            skip_trivia(s, i + 1, false)
        } else {
            skip_trivia(s, i + 1, true)
        }
    } else if is_ws_char(s[i]) {
        skip_trivia(s, i + 1, false)
    } else if s[i] == '#' {
        skip_trivia(s, i + 1, true)
    } else if s[i] == '/' && i + 1 < s.len() && s[i + 1] == '/' {
        skip_trivia(s, i + 2, true)
    } else {
        i
    }
}

/// End of the digit run that starts at `i`.
pub open spec fn scan_digits(s: Seq<char>, i: int) -> int
    decreases s.len() - i,
{
    if 0 <= i && i < s.len() && is_digit_char(s[i]) {
        scan_digits(s, i + 1)
    } else {
        i
    }
}

/// End of the identifier-character run that starts at `i`.
pub open spec fn scan_ident(s: Seq<char>, i: int) -> int
    decreases s.len() - i,
{
    if 0 <= i && i < s.len() && is_ident_char(s[i]) {
        scan_ident(s, i + 1)
    } else {
        i
    }
}

/// Value of the decimal digit run `s[i..j)`.
pub open spec fn digits_val(s: Seq<char>, i: int, j: int) -> int
    decreases j - i,
{
    if i >= j {
        0
    } else {
        digits_val(s, i, j - 1) * 10 + digit_val(s[j - 1])
    }
}

/// Classification of a scanned identifier: the three keywords, or a plain
/// identifier carrying its text.
pub open spec fn classify_ident(txt: Seq<char>) -> SpecToken {
    if txt == seq!['l', 'e', 't'] {
        SpecToken::Let
    } else if txt == seq!['t', 'r', 'u', 'e'] {
        SpecToken::Bool(true)
    } else if txt == seq!['f', 'a', 'l', 's', 'e'] {
        SpecToken::Bool(false)
    } else {
        SpecToken::Identifier(txt)
    }
}

/// One lexing step: the next token together with the position after it, or the
/// fatal overflow condition.
pub enum LexStep {
    Tok(SpecToken, int),
    Overflow,
}

/// Is `c2` the character at `j`, with `j` in range?
pub open spec fn char_at_is(s: Seq<char>, j: int, c2: char) -> bool {
    0 <= j && j < s.len() && s[j] == c2
}

/// The next token of `s` starting at position `i`: skip whitespace and
/// comments, then recognize greedily, dropping unknown characters (including
/// unpaired `&` and `|`) silently. Past the end of the input the answer is
/// `Eof` indefinitely.
pub open spec fn next_token_at(s: Seq<char>, i: int) -> LexStep
    decreases s.len() - i,
{
    let j = bound_pos(i, skip_trivia(s, i, false));
    if j >= s.len() {
        LexStep::Tok(SpecToken::Eof, s.len() as int)
    } else {
        let c = s[j];
        if c == '+' {
            LexStep::Tok(SpecToken::Plus, j + 1)
        } else if c == '-' {
            LexStep::Tok(SpecToken::Minus, j + 1)
        } else if c == '*' {
            LexStep::Tok(SpecToken::Star, j + 1)
        } else if c == '/' {
            LexStep::Tok(SpecToken::Slash, j + 1)
        } else if c == '%' {
            LexStep::Tok(SpecToken::Percent, j + 1)
        } else if c == '=' {
            if char_at_is(s, j + 1, '=') {
                LexStep::Tok(SpecToken::EqualEqual, j + 2)
            } else {
                LexStep::Tok(SpecToken::Equal, j + 1)
            }
        } else if c == '!' {
            if char_at_is(s, j + 1, '=') {
                LexStep::Tok(SpecToken::NotEqual, j + 2)
            } else {
                LexStep::Tok(SpecToken::Not, j + 1)
            }
        } else if c == '<' {
            if char_at_is(s, j + 1, '=') {
                LexStep::Tok(SpecToken::LessEqual, j + 2)
            } else {
                LexStep::Tok(SpecToken::Less, j + 1)
            }
        } else if c == '>' {
            if char_at_is(s, j + 1, '=') {
                LexStep::Tok(SpecToken::GreaterEqual, j + 2)
            } else {
                LexStep::Tok(SpecToken::Greater, j + 1)
            }
        } else if c == '&' {
            if char_at_is(s, j + 1, '&') {
                LexStep::Tok(SpecToken::AndAnd, j + 2)
            } else {
                next_token_at(s, j + 1)
            }
        } else if c == '|' {
            if char_at_is(s, j + 1, '|') {
                LexStep::Tok(SpecToken::OrOr, j + 2)
            } else {
                next_token_at(s, j + 1)
            }
        } else if c == '(' {
            LexStep::Tok(SpecToken::LeftParen, j + 1)
        } else if c == ')' {
            LexStep::Tok(SpecToken::RightParen, j + 1)
        } else if c == ',' {
            LexStep::Tok(SpecToken::Comma, j + 1)
        } else if c == ';' {
            LexStep::Tok(SpecToken::Semicolon, j + 1)
        } else if is_digit_char(c) {
            let e = bound_pos(j + 1, scan_digits(s, j + 1));
            let v = digits_val(s, j, e);
            if v > i64::MAX {
                LexStep::Overflow
            } else {
                LexStep::Tok(SpecToken::Number(v as i64), e)
            }
        } else if is_ident_start_char(c) {
            let e = bound_pos(j + 1, scan_ident(s, j + 1));
            LexStep::Tok(classify_ident(s.subrange(j, e)), e)
        } else {
            next_token_at(s, j + 1)
        }
    }
}

/// The whole token stream of `s` from position `i`, ending with the `Eof`
/// sentinel, or `None` when a numeric literal overflows.
pub open spec fn token_stream(s: Seq<char>, i: int) -> Option<Seq<SpecToken>>
    decreases s.len() - i + 1,
{
    match next_token_at(s, i) {
        LexStep::Overflow => None,
        LexStep::Tok(t, k) => {
            if t == SpecToken::Eof {
                Some(seq![SpecToken::Eof])
            } else {
                match token_stream(s, bound_pos(i + 1, cap_pos(k, s.len() as int))) {
                    None => None,
                    Some(rest) => Some(seq![t] + rest),
                }
            }
        },
    }
}

/// `skip_trivia` stays within the input and never moves backwards.
pub proof fn lemma_skip_trivia_bounds(s: Seq<char>, i: int, in_comment: bool)
    requires
        0 <= i <= s.len(),
    ensures
        i <= skip_trivia(s, i, in_comment) <= s.len(),
    decreases s.len() - i,
{
    if i < s.len() {
        if in_comment || is_ws_char(s[i]) || s[i] == '#' {
            lemma_skip_trivia_bounds(s, i + 1, !(in_comment && s[i] == '\n') && !(!in_comment
                && is_ws_char(s[i])));
        } else if s[i] == '/' && i + 1 < s.len() && s[i + 1] == '/' {
            lemma_skip_trivia_bounds(s, i + 2, true);
        }
    }
}

/// Skipping is idempotent: after a skip, another skip does not move.
pub proof fn lemma_skip_trivia_idempotent(s: Seq<char>, i: int)
    requires
        0 <= i <= s.len(),
    ensures
        skip_trivia(s, skip_trivia(s, i, false), false) == skip_trivia(s, i, false),
    decreases s.len() - i,
{
    if i < s.len() {
        if is_ws_char(s[i]) {
            lemma_skip_trivia_idempotent(s, i + 1);
        } else if s[i] == '#' {
            lemma_skip_comment_then_trivia(s, i + 1);
        } else if s[i] == '/' && i + 1 < s.len() && s[i + 1] == '/' {
            lemma_skip_comment_then_trivia(s, i + 2);
        }
    }
}

/// Helper for idempotence: skipping from inside a comment lands on a position
/// that a plain skip does not move.
proof fn lemma_skip_comment_then_trivia(s: Seq<char>, i: int)
    requires
        0 <= i <= s.len(),
    ensures
        skip_trivia(s, skip_trivia(s, i, true), false) == skip_trivia(s, i, true),
    decreases s.len() - i,
{
    if i < s.len() {
        if s[i] == '\n' {
            lemma_skip_trivia_idempotent(s, i + 1);
        } else {
            lemma_skip_comment_then_trivia(s, i + 1);
        }
    }
}

/// `scan_digits` stays within the input and never moves backwards.
pub proof fn lemma_scan_digits_bounds(s: Seq<char>, i: int)
    requires
        0 <= i <= s.len(),
    ensures
        i <= scan_digits(s, i) <= s.len(),
    decreases s.len() - i,
{
    if i < s.len() && is_digit_char(s[i]) {
        lemma_scan_digits_bounds(s, i + 1);
    }
}

/// `scan_ident` stays within the input and never moves backwards.
pub proof fn lemma_scan_ident_bounds(s: Seq<char>, i: int)
    requires
        0 <= i <= s.len(),
    ensures
        i <= scan_ident(s, i) <= s.len(),
    decreases s.len() - i,
{
    if i < s.len() && is_ident_char(s[i]) {
        lemma_scan_ident_bounds(s, i + 1);
    }
}

/// A digit run has a non-negative value.
pub proof fn lemma_digits_val_nonneg(s: Seq<char>, i: int, j: int)
    requires
        forall|k: int| i <= k < j ==> is_digit_char(s[k]),
    ensures
        digits_val(s, i, j) >= 0,
    decreases j - i,
{
    if i < j {
        lemma_digits_val_nonneg(s, i, j - 1);
    }
}

/// Extending a digit run never decreases its value.
pub proof fn lemma_digits_val_monotone(s: Seq<char>, i: int, j1: int, j2: int)
    requires
        i <= j1 <= j2,
        forall|k: int| i <= k < j2 ==> is_digit_char(s[k]),
    ensures
        digits_val(s, i, j1) <= digits_val(s, i, j2),
    decreases j2 - j1,
{
    if j1 < j2 {
        lemma_digits_val_monotone(s, i, j1, j2 - 1);
        lemma_digits_val_nonneg(s, i, j2 - 1);
    }
}

/// The next token lies within the input, and any token other than `Eof`
/// consumes at least one character.
pub proof fn lemma_next_token_at_bounds(s: Seq<char>, i: int)
    requires
        0 <= i <= s.len(),
    ensures
        next_token_at(s, i) matches LexStep::Tok(t, k) ==> i <= k <= s.len() && (t
            != SpecToken::Eof ==> k >= i + 1),
    decreases s.len() - i,
{
    lemma_skip_trivia_bounds(s, i, false);
    let j = bound_pos(i, skip_trivia(s, i, false));
    if j < s.len() {
        let c = s[j];
        if c == '&' && !char_at_is(s, j + 1, '&') {
            lemma_next_token_at_bounds(s, j + 1);
        } else if c == '|' && !char_at_is(s, j + 1, '|') {
            lemma_next_token_at_bounds(s, j + 1);
        } else if is_digit_char(c) {
            lemma_scan_digits_bounds(s, j + 1);
        } else if is_ident_start_char(c) {
            lemma_scan_ident_bounds(s, j + 1);
        } else if !(c == '+' || c == '-' || c == '*' || c == '/' || c == '%' || c == '=' || c
            == '!' || c == '<' || c == '>' || c == '(' || c == ')' || c == ',' || c == ';') {
            lemma_next_token_at_bounds(s, j + 1);
        }
    }
}

/// Characters inside a digit run are digits.
pub proof fn lemma_scan_digits_chars(s: Seq<char>, i: int)
    ensures
        forall|k: int| i <= k < scan_digits(s, i) ==> is_digit_char(s[k]),
    decreases s.len() - i,
{
    if 0 <= i && i < s.len() && is_digit_char(s[i]) {
        lemma_scan_digits_chars(s, i + 1);
    }
}

/// Lexer for tokenizing source code; `advance` is `next_token`, which yields
/// `Eof` indefinitely past the end of the input.
pub struct Lexer<'a> {
    src: &'a str,
    pos: usize,
}

impl<'a> Lexer<'a> {
    /// The source text being tokenized.
    pub closed spec fn text(&self) -> Seq<char> {
        self.src@
    }

    /// The current position in the source text.
    pub closed spec fn at(&self) -> int {
        self.pos as int
    }

    /// The position never leaves the input.
    pub closed spec fn wf(&self) -> bool {
        0 <= self.pos <= self.src@.len()
    }

    /// Creates a new lexer from source code.
    pub fn new(src: &'a str) -> (r: Self)
        ensures
            r.wf(),
            r.text() == src@,
            r.at() == 0,
    {
        Self { src, pos: 0 }
    }

    /// Consumes one line comment: everything up to and including the next
    /// newline, or up to the end of the input.
    fn skip_line_comment(&mut self)
        requires
            old(self).wf(),
        ensures
            final(self).wf(),
            final(self).text() == old(self).text(),
            old(self).at() <= final(self).at(),
            skip_trivia(final(self).text(), final(self).at(), false) == skip_trivia(
                old(self).text(),
                old(self).at(),
                true,
            ),
    {
        let ghost s = self.src@;
        let n = self.src.unicode_len();
        loop
            invariant
                s == old(self).text(),
                self.src@ == s,
                self.pos <= n,
                n == s.len(),
                skip_trivia(s, self.pos as int, true) == skip_trivia(s, old(self).at(), true),
                old(self).at() <= self.pos as int,
            decreases n - self.pos,
        {
            if self.pos >= n {
                proof {
                    assert(skip_trivia(s, self.pos as int, false) == s.len() as int);
                }
                return ;
            }
            let c = self.src.get_char(self.pos);
            self.pos = self.pos + 1;
            if c == '\n' {
                return ;
            }
        }
    }

    /// Consumes whitespace and line comments (`// ...` and `# ...`); a single
    /// `/` is left in place for the operator path.
    fn skip_whitespace_and_comments(&mut self)
        requires
            old(self).wf(),
        ensures
            final(self).wf(),
            final(self).text() == old(self).text(),
            final(self).at() == skip_trivia(old(self).text(), old(self).at(), false),
    {
        let ghost s = self.src@;
        let n = self.src.unicode_len();
        loop
            invariant
                s == old(self).text(),
                self.src@ == s,
                self.pos <= n,
                n == s.len(),
                skip_trivia(s, self.pos as int, false) == skip_trivia(s, old(self).at(), false),
            decreases n - self.pos,
        {
            if self.pos >= n {
                return ;
            }
            let c = self.src.get_char(self.pos);
            if c == ' ' || c == '\t' || c == '\n' || c == '\r' || c == '\u{b}' || c == '\u{c}' {
                self.pos = self.pos + 1;
            } else if c == '#' {
                self.pos = self.pos + 1;
                self.skip_line_comment();
            } else if c == '/' {
                if self.pos + 1 < n && self.src.get_char(self.pos + 1) == '/' {
                    self.pos = self.pos + 2;
                    self.skip_line_comment();
                } else {
                    return ;
                }
            } else {
                return ;
            }
        }
    }

    /// Is the character at `i` an ASCII digit?
    fn digit_at(&self, i: usize) -> (r: bool)
        requires
            self.wf(),
            i < self.text().len(),
        ensures
            r == is_digit_char(self.text()[i as int]),
    {
        let u = self.src.get_char(i) as u32;
        48 <= u && u <= 57
    }

    /// May the character at `i` continue an identifier?
    fn ident_char_at(&self, i: usize) -> (r: bool)
        requires
            self.wf(),
            i < self.text().len(),
        ensures
            r == is_ident_char(self.text()[i as int]),
    {
        let u = self.src.get_char(i) as u32;
        (65 <= u && u <= 90) || (97 <= u && u <= 122) || u == 95 || (48 <= u && u <= 57)
    }

    /// Scans the decimal literal whose first digit stands at the current
    /// position; fatal when its value exceeds `i64::MAX`.
    fn scan_number(&mut self) -> (r: Result<Token, LexError>)
        requires
            old(self).wf(),
            old(self).at() < old(self).text().len(),
            is_digit_char(old(self).text()[old(self).at()]),
        ensures
            final(self).wf(),
            final(self).text() == old(self).text(),
            ({
                let s = old(self).text();
                let j = old(self).at();
                let e = bound_pos(j + 1, scan_digits(s, j + 1));
                let v = digits_val(s, j, e);
                if v > i64::MAX {
                    r == Result::<Token, LexError>::Err(LexError::NumberOverflow)
                } else {
                    r matches Ok(t) && t@ == SpecToken::Number(v as i64) && final(self).at() == e
                }
            }),
    {
        let ghost s = self.src@;
        let ghost start = self.pos as int;
        let n = self.src.unicode_len();
        let c0 = self.src.get_char(self.pos);
        let mut val: i64 = ((c0 as u32) - 48) as i64;
        self.pos = self.pos + 1;
        proof {
            assert(digits_val(s, start, start) == 0);
            assert(digits_val(s, start, start + 1) == digit_val(s[start]));
        }
        while self.pos < n && self.digit_at(self.pos)
            invariant
                s == old(self).text(),
                start == old(self).at(),
                self.src@ == s,
                n == s.len(),
                start + 1 <= self.pos <= n,
                forall|k: int| start <= k < self.pos ==> is_digit_char(s[k]),
                scan_digits(s, self.pos as int) == scan_digits(s, start + 1),
                val == digits_val(s, start, self.pos as int),
                val >= 0,
            decreases n - self.pos,
        {
            let c = self.src.get_char(self.pos);
            let u = c as u32;
            let d = (u - 48) as i64;
            let ghost e = bound_pos(start + 1, scan_digits(s, start + 1));
            proof {
                lemma_scan_digits_bounds(s, self.pos as int + 1);
                lemma_scan_digits_chars(s, self.pos as int + 1);
                assert(scan_digits(s, self.pos as int) == scan_digits(s, self.pos as int + 1));
                assert(digits_val(s, start, self.pos as int + 1) == val * 10 + d);
            }
            match val.checked_mul(10) {
                None => {
                    proof {
                        lemma_digits_val_monotone(s, start, self.pos as int + 1, e);
                    }
                    return Err(LexError::NumberOverflow);
                },
                Some(v10) => {
                    match v10.checked_add(d) {
                        None => {
                            proof {
                                lemma_digits_val_monotone(s, start, self.pos as int + 1, e);
                            }
                            return Err(LexError::NumberOverflow);
                        },
                        Some(v) => {
                            val = v;
                            self.pos = self.pos + 1;
                        },
                    }
                },
            }
        }
        proof {
            assert(scan_digits(s, self.pos as int) == self.pos as int);
        }
        Ok(Token::Number(val))
    }

    /// Scans the identifier whose first character stands at the current
    /// position, reclassifying the keywords `let`, `true` and `false`.
    fn scan_identifier(&mut self) -> (r: Token)
        requires
            old(self).wf(),
            old(self).at() < old(self).text().len(),
            is_ident_start_char(old(self).text()[old(self).at()]),
        ensures
            final(self).wf(),
            final(self).text() == old(self).text(),
            ({
                let s = old(self).text();
                let j = old(self).at();
                let e = bound_pos(j + 1, scan_ident(s, j + 1));
                r@ == classify_ident(s.subrange(j, e)) && final(self).at() == e
            }),
    {
        let ghost s = self.src@;
        let ghost start = self.pos as int;
        let n = self.src.unicode_len();
        let first = self.pos;
        self.pos = self.pos + 1;
        while self.pos < n && self.ident_char_at(self.pos)
            invariant
                s == old(self).text(),
                start == old(self).at(),
                self.src@ == s,
                n == s.len(),
                start + 1 <= self.pos <= n,
                first as int == start,
                scan_ident(s, self.pos as int) == scan_ident(s, start + 1),
            decreases n - self.pos,
        {
            self.pos = self.pos + 1;
        }
        proof {
            assert(scan_ident(s, self.pos as int) == self.pos as int);
            assert(bound_pos(start + 1, scan_ident(s, start + 1)) == self.pos as int);
        }
        let text = self.src.substring_char(first, self.pos);
        let len = self.pos - first;
        if len == 3 && text.get_char(0) == 'l' && text.get_char(1) == 'e' && text.get_char(2)
            == 't' {
            proof {
                assert(text@ =~= seq!['l', 'e', 't']);
            }
            Token::Let
        } else if len == 4 && text.get_char(0) == 't' && text.get_char(1) == 'r' && text.get_char(2)
            == 'u' && text.get_char(3) == 'e' {
            proof {
                assert(text@ =~= seq!['t', 'r', 'u', 'e']);
            }
            Token::Bool(true)
        } else if len == 5 && text.get_char(0) == 'f' && text.get_char(1) == 'a' && text.get_char(2)
            == 'l' && text.get_char(3) == 's' && text.get_char(4) == 'e' {
            proof {
                assert(text@ =~= seq!['f', 'a', 'l', 's', 'e']);
            }
            Token::Bool(false)
        } else {
            proof {
                assert(text@ != seq!['l', 'e', 't'] && text@ != seq!['t', 'r', 'u', 'e'] && text@
                    != seq!['f', 'a', 'l', 's', 'e']) by {
                    assert(seq!['l', 'e', 't'].len() == 3);
                    assert(seq!['t', 'r', 'u', 'e'].len() == 4);
                    assert(seq!['f', 'a', 'l', 's', 'e'].len() == 5);
                }
            }
            Token::Identifier(text.to_owned())
        }
    }

    /// Advance: returns the next token, or the fatal overflow error. Past the
    /// end of the input it returns `Eof` indefinitely.
    pub fn next_token(&mut self) -> (r: Result<Token, LexError>)
        requires
            old(self).wf(),
        ensures
            final(self).wf(),
            final(self).text() == old(self).text(),
            match next_token_at(old(self).text(), old(self).at()) {
                LexStep::Tok(t, k) => r matches Ok(tok) && tok@ == t && final(self).at() == k,
                LexStep::Overflow => r == Result::<Token, LexError>::Err(
                    LexError::NumberOverflow,
                ),
            },
    {
        let ghost s = self.src@;
        let ghost start0 = self.pos as int;
        let n = self.src.unicode_len();
        loop
            invariant
                s == old(self).text(),
                start0 == old(self).at(),
                self.src@ == s,
                n == s.len(),
                self.pos <= n,
                next_token_at(s, self.pos as int) == next_token_at(s, start0),
            decreases n - self.pos,
        {
            let ghost before = self.pos as int;
            self.skip_whitespace_and_comments();
            proof {
                lemma_skip_trivia_bounds(s, before, false);
                lemma_skip_trivia_idempotent(s, before);
            }
            if self.pos >= n {
                return Ok(Token::Eof);
            }
            let c = self.src.get_char(self.pos);
            let j = self.pos;
            if c == '+' {
                self.pos = j + 1;
                return Ok(Token::Plus);
            } else if c == '-' {
                self.pos = j + 1;
                return Ok(Token::Minus);
            } else if c == '*' {
                self.pos = j + 1;
                return Ok(Token::Star);
            } else if c == '/' {
                self.pos = j + 1;
                return Ok(Token::Slash);
            } else if c == '%' {
                self.pos = j + 1;
                return Ok(Token::Percent);
            } else if c == '=' {
                if j + 1 < n && self.src.get_char(j + 1) == '=' {
                    self.pos = j + 2;
                    return Ok(Token::EqualEqual);
                } else {
                    self.pos = j + 1;
                    return Ok(Token::Equal);
                }
            } else if c == '!' {
                if j + 1 < n && self.src.get_char(j + 1) == '=' {
                    self.pos = j + 2;
                    return Ok(Token::NotEqual);
                } else {
                    self.pos = j + 1;
                    return Ok(Token::Not);
                }
            } else if c == '<' {
                if j + 1 < n && self.src.get_char(j + 1) == '=' {
                    self.pos = j + 2;
                    return Ok(Token::LessEqual);
                } else {
                    self.pos = j + 1;
                    return Ok(Token::Less);
                }
            } else if c == '>' {
                if j + 1 < n && self.src.get_char(j + 1) == '=' {
                    self.pos = j + 2;
                    return Ok(Token::GreaterEqual);
                } else {
                    self.pos = j + 1;
                    return Ok(Token::Greater);
                }
            } else if c == '&' {
                if j + 1 < n && self.src.get_char(j + 1) == '&' {
                    self.pos = j + 2;
                    return Ok(Token::AndAnd);
                } else {
                    // An unpaired `&` is dropped and lexing continues.
                    self.pos = j + 1;
                }
            } else if c == '|' {
                if j + 1 < n && self.src.get_char(j + 1) == '|' {
                    self.pos = j + 2;
                    return Ok(Token::OrOr);
                } else {
                    // An unpaired `|` is dropped and lexing continues.
                    self.pos = j + 1;
                }
            } else if c == '(' {
                self.pos = j + 1;
                return Ok(Token::LeftParen);
            } else if c == ')' {
                self.pos = j + 1;
                return Ok(Token::RightParen);
            } else if c == ',' {
                self.pos = j + 1;
                return Ok(Token::Comma);
            } else if c == ';' {
                self.pos = j + 1;
                return Ok(Token::Semicolon);
            } else {
                let u = c as u32;
                if 48 <= u && u <= 57 {
                    return self.scan_number();
                } else if (65 <= u && u <= 90) || (97 <= u && u <= 122) || u == 95 {
                    return Ok(self.scan_identifier());
                } else {
                    // An unknown character is dropped and lexing continues.
                    self.pos = j + 1;
                }
            }
        }
    }

    /// Tokenizes the whole remaining input, ending with the `Eof` sentinel.
    pub fn tokenize(&mut self) -> (r: Result<Vec<Token>, LexError>)
        requires
            old(self).wf(),
        ensures
            final(self).wf(),
            match token_stream(old(self).text(), old(self).at()) {
                Some(ts) => r matches Ok(v) && toks_view(v@) == ts,
                None => r == Result::<Vec<Token>, LexError>::Err(LexError::NumberOverflow),
            },
    {
        let ghost s = self.src@;
        let ghost start0 = self.pos as int;
        let mut toks: Vec<Token> = Vec::new();
        loop
            invariant
                s == old(self).text(),
                start0 == old(self).at(),
                self.wf(),
                self.text() == s,
                start0 <= self.at(),
                match token_stream(s, start0) {
                    Some(all) => match token_stream(s, self.at()) {
                        Some(rest) => all == toks_view(toks@) + rest,
                        None => false,
                    },
                    None => token_stream(s, self.at()) is None,
                },
            decreases s.len() - self.at() + 1,
        {
            let ghost before = self.at();
            match self.next_token() {
                Err(e) => {
                    return Err(e);
                },
                Ok(t) => {
                    proof {
                        lemma_next_token_at_bounds(s, before);
                    }
                    let is_eof = matches!(t, Token::Eof);
                    let ghost tv = t@;
                    toks.push(t);
                    proof {
                        assert(toks_view(toks@) =~= toks_view(toks@.drop_last()) + seq![tv]);
                    }
                    if is_eof {
                        proof {
                            if token_stream(s, start0) is Some {
                                assert(token_stream(s, start0)->Some_0 =~= toks_view(toks@));
                            }
                        }
                        return Ok(toks);
                    }
                },
            }
        }
    }
}

/// Lexing is deterministic: identical input yields the identical token stream,
/// including the `Eof` sentinel.
pub proof fn lemma_lexing_deterministic(
    src: Seq<char>,
    toks1: Seq<SpecToken>,
    toks2: Seq<SpecToken>,
)
    requires
        token_stream(src, 0) == Some(toks1),
        token_stream(src, 0) == Some(toks2),
    ensures
        toks1 == toks2,
{
}

} // verus!

