//! The lexer: source characters to tokens with spans and line numbers.
//!
//! Spans are character ranges into the source, end exclusive. Whitespace is
//! skipped and the line counter advances on `'\n'`. An unrecognised character
//! (and a string literal that never closes, or a numeric literal too large
//! for the number type) becomes an `Unknown` token, which the parser rejects
//! with that exact span.

use vstd::prelude::*;

use crate::token::{Span, Token, TokenKind};

verus! {

/// Whitespace, as the lexer skips it.
pub open spec fn is_ws(c: char) -> bool {
    c == ' ' || c == '\t' || c == '\r' || c == '\n'
}

/// Decimal digit.
pub open spec fn is_digit(c: char) -> bool {
    48 <= c as u32 <= 57
}

/// First character of an identifier: a letter or an underscore.
pub open spec fn ident_start(c: char) -> bool {
    (97 <= c as u32 <= 122) || (65 <= c as u32 <= 90) || c == '_'
}

/// Later character of an identifier: a letter, a digit or an underscore.
pub open spec fn ident_cont(c: char) -> bool {
    ident_start(c) || is_digit(c)
}

/// Numeric value of a decimal digit character.
pub open spec fn digit_val(c: char) -> int {
    c as u32 - 48
}

/// Value of a run of decimal digits, most significant first.
pub open spec fn digits_val(s: Seq<char>) -> int
    decreases s.len(),
{
    if s.len() == 0 {
        0
    } else {
        digits_val(s.drop_last()) * 10 + digit_val(s.last())
    }
}

/// Every character in `[a, b)` is whitespace.
pub open spec fn ws_only(src: Seq<char>, a: int, b: int) -> bool {
    forall|j: int| a <= j < b ==> is_ws(#[trigger] src[j])
}

/// The keyword kind of a reserved word, or `None` for an ordinary identifier.
pub open spec fn keyword_kind(s: Seq<char>) -> Option<TokenKind> {
    if s == "fn"@ {
        Some(TokenKind::Fn)
    } else if s == "let"@ {
        Some(TokenKind::Let)
    } else if s == "const"@ {
        Some(TokenKind::Const)
    } else if s == "if"@ {
        Some(TokenKind::If)
    } else if s == "else"@ {
        Some(TokenKind::Else)
    } else if s == "while"@ {
        Some(TokenKind::While)
    } else if s == "for"@ {
        Some(TokenKind::For)
    } else if s == "return"@ {
        Some(TokenKind::Return)
    } else if s == "break"@ {
        Some(TokenKind::Break)
    } else if s == "continue"@ {
        Some(TokenKind::Continue)
    } else if s == "use"@ {
        Some(TokenKind::Use)
    } else if s == "pub"@ {
        Some(TokenKind::Pub)
    } else if s == "true"@ {
        Some(TokenKind::True)
    } else if s == "false"@ {
        Some(TokenKind::False)
    } else if s == "null"@ {
        Some(TokenKind::Null)
    } else {
        None
    }
}

/// The character range `[start, end)` is a maximal identifier lexeme.
pub open spec fn ident_lexeme(src: Seq<char>, start: int, end: int) -> bool {
    &&& 0 <= start < end <= src.len()
    &&& ident_start(src[start])
    &&& forall|j: int| start < j < end ==> ident_cont(#[trigger] src[j])
    &&& (end == src.len() || !ident_cont(src[end]))
}

/// The character range `[start, end)` is a maximal run of digits.
pub open spec fn digit_lexeme(src: Seq<char>, start: int, end: int) -> bool {
    &&& 0 <= start < end <= src.len()
    &&& forall|j: int| start <= j < end ==> is_digit(#[trigger] src[j])
    &&& (end == src.len() || !is_digit(src[end]))
}

/// What a token's kind says about the source characters in its span.
pub open spec fn kind_matches(src: Seq<char>, start: int, end: int, kind: TokenKind) -> bool {
    &&& 0 <= start < end <= src.len()
    &&& match kind {
        TokenKind::Identifier(s) => {
            &&& ident_lexeme(src, start, end)
            &&& keyword_kind(src.subrange(start, end)) is None
            &&& s@ == src.subrange(start, end)
        },
        TokenKind::Number(n) => {
            &&& digit_lexeme(src, start, end)
            &&& 0 <= digits_val(src.subrange(start, end)) <= i64::MAX
            &&& n == digits_val(src.subrange(start, end))
        },
        TokenKind::String(s) => {
            &&& end - start >= 2
            &&& src[start] == '"'
            &&& src[end - 1] == '"'
            &&& s@ == src.subrange(start + 1, end - 1)
            &&& forall|j: int| start < j < end - 1 ==> #[trigger] src[j] != '"'
        },
        TokenKind::True => kw_lexeme(src, start, end, TokenKind::True),
        TokenKind::False => kw_lexeme(src, start, end, TokenKind::False),
        TokenKind::Null => kw_lexeme(src, start, end, TokenKind::Null),
        TokenKind::Fn => kw_lexeme(src, start, end, TokenKind::Fn),
        TokenKind::Let => kw_lexeme(src, start, end, TokenKind::Let),
        TokenKind::Const => kw_lexeme(src, start, end, TokenKind::Const),
        TokenKind::If => kw_lexeme(src, start, end, TokenKind::If),
        TokenKind::Else => kw_lexeme(src, start, end, TokenKind::Else),
        TokenKind::While => kw_lexeme(src, start, end, TokenKind::While),
        TokenKind::For => kw_lexeme(src, start, end, TokenKind::For),
        TokenKind::Return => kw_lexeme(src, start, end, TokenKind::Return),
        TokenKind::Break => kw_lexeme(src, start, end, TokenKind::Break),
        TokenKind::Continue => kw_lexeme(src, start, end, TokenKind::Continue),
        TokenKind::Use => kw_lexeme(src, start, end, TokenKind::Use),
        TokenKind::Pub => kw_lexeme(src, start, end, TokenKind::Pub),
        TokenKind::LeftParen => one_char(src, start, end, '('),
        TokenKind::RightParen => one_char(src, start, end, ')'),
        TokenKind::LeftBracket => one_char(src, start, end, '['),
        TokenKind::RightBracket => one_char(src, start, end, ']'),
        TokenKind::LeftBrace => one_char(src, start, end, '{'),
        TokenKind::RightBrace => one_char(src, start, end, '}'),
        TokenKind::Comma => one_char(src, start, end, ','),
        TokenKind::Dot => one_char(src, start, end, '.'),
        TokenKind::Semicolon => one_char(src, start, end, ';'),
        TokenKind::Colon => one_char(src, start, end, ':'),
        TokenKind::Plus => one_char(src, start, end, '+'),
        TokenKind::Minus => one_char(src, start, end, '-'),
        TokenKind::Asterisk => one_char(src, start, end, '*'),
        TokenKind::Slash => one_char(src, start, end, '/'),
        TokenKind::EqualsEquals => two_char(src, start, end, '=', '='),
        TokenKind::NotEquals => two_char(src, start, end, '!', '='),
        TokenKind::LessThanEquals => two_char(src, start, end, '<', '='),
        TokenKind::GreaterThanEquals => two_char(src, start, end, '>', '='),
        TokenKind::Equals => one_char(src, start, end, '=') && not_before_eq(src, end),
        TokenKind::LessThan => one_char(src, start, end, '<') && not_before_eq(src, end),
        TokenKind::GreaterThan => one_char(src, start, end, '>') && not_before_eq(src, end),
        TokenKind::Unknown(c) => c == src[start],
        TokenKind::Eof => false,
    }
}

/// The span holds a reserved word of the given kind.
pub open spec fn kw_lexeme(src: Seq<char>, start: int, end: int, kind: TokenKind) -> bool {
    &&& ident_lexeme(src, start, end)
    &&& keyword_kind(src.subrange(start, end)) == Some(kind)
}

/// The span is exactly the single character `c`.
pub open spec fn one_char(src: Seq<char>, start: int, end: int, c: char) -> bool {
    end == start + 1 && src[start] == c
}

/// The span is exactly the two characters `c0 c1`.
pub open spec fn two_char(src: Seq<char>, start: int, end: int, c0: char, c1: char) -> bool {
    end == start + 2 && src[start] == c0 && src[start + 1] == c1
}

/// The greedy rule: the single-character operator is not followed by `=`.
pub open spec fn not_before_eq(src: Seq<char>, end: int) -> bool {
    end == src.len() || src[end] != '='
}

/// A produced token is within bounds and its kind matches its span.
pub open spec fn token_wf(src: Seq<char>, t: Token) -> bool {
    kind_matches(src, t.span.0 as int, t.span.1 as int, t.kind)
}

/// The spans of a token stream partition the source modulo whitespace:
/// every token matches its span, the gap before the first token, between
/// any two successive tokens, and after the last token holds only
/// whitespace, and the token lines never decrease.
pub open spec fn lex_output_wf(src: Seq<char>, toks: Seq<Token>) -> bool {
    &&& forall|i: int| 0 <= i < toks.len() ==> token_wf(src, #[trigger] toks[i])
    &&& forall|i: int|
        0 < i < toks.len() ==> {
            &&& toks[i - 1].span.1 <= (#[trigger] toks[i]).span.0
            &&& ws_only(src, toks[i - 1].span.1 as int, toks[i].span.0 as int)
            &&& toks[i - 1].line <= toks[i].line
        }
    &&& (toks.len() > 0 ==> ws_only(src, 0, toks[0].span.0 as int) && ws_only(
        src,
        toks.last().span.1 as int,
        src.len() as int,
    ))
    &&& (toks.len() == 0 ==> ws_only(src, 0, src.len() as int))
}

/// A token kind with its payloads as mathematical values: the characters
/// of an identifier or string literal, the integer a number denotes.
pub enum SpKind {
    Identifier(Seq<char>),
    String(Seq<char>),
    Number(int),
    True,
    False,
    Null,
    Fn,
    Let,
    Const,
    If,
    Else,
    While,
    For,
    Return,
    Break,
    Continue,
    Use,
    Pub,
    LeftParen,
    RightParen,
    LeftBracket,
    RightBracket,
    LeftBrace,
    RightBrace,
    Comma,
    Dot,
    Semicolon,
    Colon,
    Plus,
    Minus,
    Asterisk,
    Slash,
    Equals,
    EqualsEquals,
    NotEquals,
    LessThan,
    GreaterThan,
    LessThanEquals,
    GreaterThanEquals,
    Unknown(char),
    Eof,
}

/// A token as a mathematical value: its abstract kind, its character
/// span, and its line.
pub struct SpToken {
    pub kind: SpKind,
    pub start: int,
    pub end: int,
    pub line: int,
}

/// The abstract kind of a concrete token kind: the same constructor, with
/// payload strings read as character sequences.
pub open spec fn kind_abs(k: TokenKind) -> SpKind {
    match k {
        TokenKind::Identifier(s) => SpKind::Identifier(s@),
        TokenKind::String(s) => SpKind::String(s@),
        TokenKind::Number(n) => SpKind::Number(n as int),
        TokenKind::True => SpKind::True,
        TokenKind::False => SpKind::False,
        TokenKind::Null => SpKind::Null,
        TokenKind::Fn => SpKind::Fn,
        TokenKind::Let => SpKind::Let,
        TokenKind::Const => SpKind::Const,
        TokenKind::If => SpKind::If,
        TokenKind::Else => SpKind::Else,
        TokenKind::While => SpKind::While,
        TokenKind::For => SpKind::For,
        TokenKind::Return => SpKind::Return,
        TokenKind::Break => SpKind::Break,
        TokenKind::Continue => SpKind::Continue,
        TokenKind::Use => SpKind::Use,
        TokenKind::Pub => SpKind::Pub,
        TokenKind::LeftParen => SpKind::LeftParen,
        TokenKind::RightParen => SpKind::RightParen,
        TokenKind::LeftBracket => SpKind::LeftBracket,
        TokenKind::RightBracket => SpKind::RightBracket,
        TokenKind::LeftBrace => SpKind::LeftBrace,
        TokenKind::RightBrace => SpKind::RightBrace,
        TokenKind::Comma => SpKind::Comma,
        TokenKind::Dot => SpKind::Dot,
        TokenKind::Semicolon => SpKind::Semicolon,
        TokenKind::Colon => SpKind::Colon,
        TokenKind::Plus => SpKind::Plus,
        TokenKind::Minus => SpKind::Minus,
        TokenKind::Asterisk => SpKind::Asterisk,
        TokenKind::Slash => SpKind::Slash,
        TokenKind::Equals => SpKind::Equals,
        TokenKind::EqualsEquals => SpKind::EqualsEquals,
        TokenKind::NotEquals => SpKind::NotEquals,
        TokenKind::LessThan => SpKind::LessThan,
        TokenKind::GreaterThan => SpKind::GreaterThan,
        TokenKind::LessThanEquals => SpKind::LessThanEquals,
        TokenKind::GreaterThanEquals => SpKind::GreaterThanEquals,
        TokenKind::Unknown(c) => SpKind::Unknown(c),
        TokenKind::Eof => SpKind::Eof,
    }
}

/// A token stream as its mathematical value.
pub open spec fn toks_abs(toks: Seq<Token>) -> Seq<SpToken> {
    toks.map_values(|t: Token| tok_abs(t))
}

/// A concrete token as its mathematical value.
pub open spec fn tok_abs(t: Token) -> SpToken {
    SpToken {
        kind: kind_abs(t.kind),
        start: t.span.0 as int,
        end: t.span.1 as int,
        line: t.line as int,
    }
}

/// Where whitespace skipping from `pos` ends, and the line after counting
/// the newlines passed (the counter saturates at the machine limit).
pub open spec fn sp_skip_ws(src: Seq<char>, pos: int, line: int) -> (int, int)
    decreases src.len() - pos,
{
    if 0 <= pos < src.len() && is_ws(src[pos]) {
        let l2 = if src[pos] == '\n' && line < usize::MAX {
            line + 1
        } else {
            line
        };
        sp_skip_ws(src, pos + 1, l2)
    } else {
        (pos, line)
    }
}

/// The end of the run of identifier characters beginning at `i`.
pub open spec fn sp_ident_end(src: Seq<char>, i: int) -> int
    decreases src.len() - i,
{
    if 0 <= i < src.len() && ident_cont(src[i]) {
        sp_ident_end(src, i + 1)
    } else {
        i
    }
}

/// The end of the run of decimal digits beginning at `i`.
pub open spec fn sp_digits_end(src: Seq<char>, i: int) -> int
    decreases src.len() - i,
{
    if 0 <= i < src.len() && is_digit(src[i]) {
        sp_digits_end(src, i + 1)
    } else {
        i
    }
}

/// The position of the first double quote at or after `i`, or the length
/// of the source when none follows.
pub open spec fn sp_str_end(src: Seq<char>, i: int) -> int
    decreases src.len() - i,
{
    if 0 <= i < src.len() && src[i] != '"' {
        sp_str_end(src, i + 1)
    } else {
        i
    }
}

/// What one step of the lexer produces from position `pos0` on line
/// `line0`: the next token, if any is left, and the new position and
/// line. This is the whole tokenisation rule: whitespace is skipped with
/// lines counted at each newline; an identifier run becomes its keyword
/// or an `Identifier`; a digit run becomes its `Number`, or `Unknown` when
/// the value exceeds the number type; a quoted run becomes a `String`, or
/// `Unknown` spanning to the end when no quote closes it; `== != <= >=`
/// are taken greedily before the one-character operators; any other
/// character is one `Unknown` token of exactly one character.
pub open spec fn sp_next(src: Seq<char>, pos0: int, line0: int) -> (Option<SpToken>, int, int) {
    let skipped = sp_skip_ws(src, pos0, line0);
    let pos = skipped.0;
    let line = skipped.1;
    if pos >= src.len() {
        (None::<SpToken>, pos, line)
    } else {
        let c = src[pos];
        if ident_start(c) {
            let end = sp_ident_end(src, pos + 1);
            let lexeme = src.subrange(pos, end);
            let kind = match keyword_kind(lexeme) {
                Some(k) => kind_abs(k),
                None => SpKind::Identifier(lexeme),
            };
            (Some(SpToken { kind, start: pos, end, line }), end, line)
        } else if is_digit(c) {
            let end = sp_digits_end(src, pos + 1);
            let v = digits_val(src.subrange(pos, end));
            let kind = if v <= i64::MAX {
                SpKind::Number(v)
            } else {
                SpKind::Unknown(c)
            };
            (Some(SpToken { kind, start: pos, end, line }), end, line)
        } else if c == '"' {
            let j = sp_str_end(src, pos + 1);
            if j >= src.len() {
                (
                    Some(
                        SpToken {
                            kind: SpKind::Unknown('"'),
                            start: pos,
                            end: src.len() as int,
                            line,
                        },
                    ),
                    src.len() as int,
                    line,
                )
            } else {
                (
                    Some(
                        SpToken {
                            kind: SpKind::String(src.subrange(pos + 1, j)),
                            start: pos,
                            end: j + 1,
                            line,
                        },
                    ),
                    j + 1,
                    line,
                )
            }
        } else {
            let two = pos + 1 < src.len() && src[pos + 1] == '=';
            let ke: (SpKind, int) = if c == '=' && two {
                (SpKind::EqualsEquals, pos + 2)
            } else if c == '!' && two {
                (SpKind::NotEquals, pos + 2)
            } else if c == '<' && two {
                (SpKind::LessThanEquals, pos + 2)
            } else if c == '>' && two {
                (SpKind::GreaterThanEquals, pos + 2)
            } else {
                let k = if c == '(' {
                    SpKind::LeftParen
                } else if c == ')' {
                    SpKind::RightParen
                } else if c == '[' {
                    SpKind::LeftBracket
                } else if c == ']' {
                    SpKind::RightBracket
                } else if c == '{' {
                    SpKind::LeftBrace
                } else if c == '}' {
                    SpKind::RightBrace
                } else if c == ',' {
                    SpKind::Comma
                } else if c == '.' {
                    SpKind::Dot
                } else if c == ';' {
                    SpKind::Semicolon
                } else if c == ':' {
                    SpKind::Colon
                } else if c == '+' {
                    SpKind::Plus
                } else if c == '-' {
                    SpKind::Minus
                } else if c == '*' {
                    SpKind::Asterisk
                } else if c == '/' {
                    SpKind::Slash
                } else if c == '=' {
                    SpKind::Equals
                } else if c == '<' {
                    SpKind::LessThan
                } else if c == '>' {
                    SpKind::GreaterThan
                } else {
                    SpKind::Unknown(c)
                };
                (k, pos + 1)
            };
            (Some(SpToken { kind: ke.0, start: pos, end: ke.1, line }), ke.1, line)
        }
    }
}

/// Every token the lexer produces from position `pos` on line `line` to
/// the end of the input, in order.
pub open spec fn sp_tokens_from(src: Seq<char>, pos: int, line: int) -> Seq<SpToken>
    decreases src.len() - pos,
{
    if !(0 <= pos < src.len()) {
        Seq::empty()
    } else {
        let r = sp_next(src, pos, line);
        match r.0 {
            None => Seq::empty(),
            Some(tok) => {
                let p2 = if pos < r.1 && r.1 <= src.len() {
                    r.1
                } else {
                    src.len() as int
                };
                seq![tok] + sp_tokens_from(src, p2, r.2)
            },
        }
    }
}

/// The full tokenisation of a source: every token, in order, from the
/// start of the input on line 1.
pub open spec fn sp_tokens(src: Seq<char>) -> Seq<SpToken> {
    sp_tokens_from(src, 0, 1)
}

/// The lexer: a character stream with a cursor and a 1-indexed line counter.
pub struct Lexer {
    source: Vec<char>,
    pos: usize,
    line: usize,
}

impl Lexer {
    /// The characters of the source being tokenised.
    pub closed spec fn src(self) -> Seq<char> {
        self.source@
    }

    /// Cursor position: the index of the next unread character.
    pub closed spec fn at(self) -> int {
        self.pos as int
    }

    /// The current line, starting at 1.
    pub closed spec fn cur_line(self) -> int {
        self.line as int
    }

    /// The cursor never passes the end of the source.
    pub closed spec fn wf(self) -> bool {
        self.pos <= self.source@.len() && self.line >= 1
    }

    /// A fresh lexer over the characters of `source`, at its start.
    pub fn new(source: &str) -> (r: Lexer)
        ensures
            r.wf(),
            r.src() == source@,
            r.at() == 0,
            r.cur_line() == 1,
    {
        Lexer { source: crate::strutil::str_chars(source), pos: 0, line: 1 }
    }

    /// Produce the next token, or `None` at end of input.
    ///
    /// The span of the token begins where skipped whitespace ends and ends
    /// exactly at the new cursor position, so that the spans of successive
    /// tokens partition the input modulo whitespace; the reported lines
    /// never decrease.
    pub fn next(&mut self) -> (t: Option<Token>)
        requires
            old(self).wf(),
        ensures
            final(self).wf(),
            final(self).src() == old(self).src(),
            final(self).at() >= old(self).at(),
            final(self).cur_line() >= old(self).cur_line(),
            match t {
                Some(tok) => {
                    &&& old(self).at() <= tok.span.0 < tok.span.1 == final(self).at()
                    &&& ws_only(old(self).src(), old(self).at(), tok.span.0 as int)
                    &&& token_wf(old(self).src(), tok)
                    &&& tok.line == final(self).cur_line()
                    &&& tok.line >= old(self).cur_line()
                },
                None => {
                    &&& final(self).at() == old(self).src().len()
                    &&& ws_only(old(self).src(), old(self).at(), old(self).src().len() as int)
                },
            },
            ({
                let r = sp_next(old(self).src(), old(self).at(), old(self).cur_line());
                &&& r.0 == (match t {
                    Some(tok) => Some(tok_abs(tok)),
                    None => None::<SpToken>,
                })
                &&& r.1 == final(self).at()
                &&& r.2 == final(self).cur_line()
            }),
    {
        let n = self.source.len();
        // Skip whitespace, counting lines.
        while self.pos < n && is_ws_at(&self.source, self.pos)
            invariant
                self.wf(),
                n == self.source@.len(),
                self.source@ == old(self).src(),
                self.pos >= old(self).at(),
                self.line >= old(self).cur_line(),
                ws_only(self.source@, old(self).at(), self.pos as int),
                sp_skip_ws(self.source@, old(self).at(), old(self).cur_line()) == sp_skip_ws(
                    self.source@,
                    self.pos as int,
                    self.line as int,
                ),
            decreases n - self.pos,
        {
            if self.source[self.pos] == '\n' {
                if self.line < usize::MAX {
                    self.line = self.line + 1;
                }
            }
            self.pos = self.pos + 1;
        }
        proof {
            assert(sp_skip_ws(self.source@, old(self).at(), old(self).cur_line()) == (
            self.pos as int,
            self.line as int,
            ));
        }
        let ghost wline: int = self.line as int;
        if self.pos >= n {
            return None;
        }
        let start = self.pos;
        let c = self.source[start];
        let kind: TokenKind;
        if ident_start_x(c) {
            // Identifier or keyword.
            self.pos = self.pos + 1;
            while self.pos < n && ident_cont_x(self.source[self.pos])
                invariant
                    start < self.pos <= n,
                    n == self.source@.len(),
                    self.source@ == old(self).src(),
                    self.line >= 1,
                    self.line >= old(self).cur_line(),
                    ident_start(self.source@[start as int]),
                    forall|j: int| start < j < self.pos ==> ident_cont(#[trigger] self.source@[j]),
                    self.line as int == wline,
                    sp_ident_end(self.source@, start + 1) == sp_ident_end(
                        self.source@,
                        self.pos as int,
                    ),
                decreases n - self.pos,
            {
                self.pos = self.pos + 1;
            }
            let lexeme = copy_range(&self.source, start, self.pos);
            kind = match keyword_of(&lexeme) {
                Some(k) => k,
                None => TokenKind::Identifier(crate::strutil::chars_to_string(&lexeme)),
            };
            proof {
                assert(lexeme@ =~= self.source@.subrange(start as int, self.pos as int));
            }
        } else if is_digit_x(c) {
            // Number: a maximal run of decimal digits.
            self.pos = self.pos + 1;
            while self.pos < n && is_digit_x(self.source[self.pos])
                invariant
                    start < self.pos <= n,
                    n == self.source@.len(),
                    self.source@ == old(self).src(),
                    self.line >= 1,
                    self.line >= old(self).cur_line(),
                    forall|j: int| start <= j < self.pos ==> is_digit(#[trigger] self.source@[j]),
                    self.line as int == wline,
                    sp_digits_end(self.source@, start + 1) == sp_digits_end(
                        self.source@,
                        self.pos as int,
                    ),
                decreases n - self.pos,
            {
                self.pos = self.pos + 1;
            }
            kind = match digits_to_i64(&self.source, start, self.pos) {
                Some(v) => TokenKind::Number(v),
                None => TokenKind::Unknown(c),
            };
        } else if c == '"' {
            // String literal: up to the next double quote, no escapes.
            let mut j = start + 1;
            while j < n && self.source[j] != '"'
                invariant
                    start < j <= n,
                    n == self.source@.len(),
                    self.source@ == old(self).src(),
                    self.pos == start,
                    self.line >= 1,
                    self.line >= old(self).cur_line(),
                    forall|k: int| start < k < j ==> #[trigger] self.source@[k] != '"',
                    self.line as int == wline,
                    sp_str_end(self.source@, start + 1) == sp_str_end(self.source@, j as int),
                decreases n - j,
            {
                j = j + 1;
            }
            if j >= n {
                // Unterminated: an unknown token spanning to the end.
                self.pos = n;
                kind = TokenKind::Unknown('"');
            } else {
                let content = copy_range(&self.source, start + 1, j);
                proof {
                    assert(content@ =~= self.source@.subrange(start + 1 as int, j as int));
                }
                self.pos = j + 1;
                kind = TokenKind::String(crate::strutil::chars_to_string(&content));
            }
        } else {
            // Punctuation and operators, greedy on `== != <= >=`.
            let two = start + 1 < n && self.source[start + 1] == '=';
            if c == '=' && two {
                self.pos = self.pos + 2;
                kind = TokenKind::EqualsEquals;
            } else if c == '!' && two {
                self.pos = self.pos + 2;
                kind = TokenKind::NotEquals;
            } else if c == '<' && two {
                self.pos = self.pos + 2;
                kind = TokenKind::LessThanEquals;
            } else if c == '>' && two {
                self.pos = self.pos + 2;
                kind = TokenKind::GreaterThanEquals;
            } else {
                self.pos = self.pos + 1;
                kind = if c == '(' {
                    TokenKind::LeftParen
                } else if c == ')' {
                    TokenKind::RightParen
                } else if c == '[' {
                    TokenKind::LeftBracket
                } else if c == ']' {
                    TokenKind::RightBracket
                } else if c == '{' {
                    TokenKind::LeftBrace
                } else if c == '}' {
                    TokenKind::RightBrace
                } else if c == ',' {
                    TokenKind::Comma
                } else if c == '.' {
                    TokenKind::Dot
                } else if c == ';' {
                    TokenKind::Semicolon
                } else if c == ':' {
                    TokenKind::Colon
                } else if c == '+' {
                    TokenKind::Plus
                } else if c == '-' {
                    TokenKind::Minus
                } else if c == '*' {
                    TokenKind::Asterisk
                } else if c == '/' {
                    TokenKind::Slash
                } else if c == '=' {
                    TokenKind::Equals
                } else if c == '<' {
                    TokenKind::LessThan
                } else if c == '>' {
                    TokenKind::GreaterThan
                } else {
                    TokenKind::Unknown(c)
                };
            }
        }
        Some(Token { kind, span: Span(start, self.pos), line: self.line })
    }
}

/// Exec test for whitespace at an index.
fn is_ws_at(v: &Vec<char>, i: usize) -> (r: bool)
    requires
        i < v@.len(),
    ensures
        r == is_ws(v@[i as int]),
{
    let c = v[i];
    c == ' ' || c == '\t' || c == '\r' || c == '\n'
}

/// Exec test for an identifier's first character.
fn ident_start_x(c: char) -> (r: bool)
    ensures
        r == ident_start(c),
{
    let u = c as u32;
    (97 <= u && u <= 122) || (65 <= u && u <= 90) || c == '_'
}

/// Exec test for an identifier's later characters.
fn ident_cont_x(c: char) -> (r: bool)
    ensures
        r == ident_cont(c),
{
    ident_start_x(c) || is_digit_x(c)
}

/// Exec test for a decimal digit.
fn is_digit_x(c: char) -> (r: bool)
    ensures
        r == is_digit(c),
{
    let u = c as u32;
    48 <= u && u <= 57
}

/// Copy the characters in `[start, end)` into a fresh vector.
pub(crate) fn copy_range(v: &Vec<char>, start: usize, end: usize) -> (r: Vec<char>)
    requires
        start <= end <= v@.len(),
    ensures
        r@ == v@.subrange(start as int, end as int),
{
    let mut r: Vec<char> = Vec::new();
    let mut i = start;
    while i < end
        invariant
            start <= i <= end <= v@.len(),
            r@ == v@.subrange(start as int, i as int),
        decreases end - i,
    {
        let c = v[i];
        r.push(c);
        proof {
            assert(r@ =~= v@.subrange(start as int, i + 1 as int));
        }
        i = i + 1;
    }
    r
}

/// The keyword kind of a lexeme, or `None` for an ordinary identifier.
fn keyword_of(v: &Vec<char>) -> (r: Option<TokenKind>)
    ensures
        r == keyword_kind(v@),
{
    let s = crate::strutil::chars_to_string(v);
    let t = s.as_str();
    if crate::strutil::str_eq(t, "fn") {
        Some(TokenKind::Fn)
    } else if crate::strutil::str_eq(t, "let") {
        Some(TokenKind::Let)
    } else if crate::strutil::str_eq(t, "const") {
        Some(TokenKind::Const)
    } else if crate::strutil::str_eq(t, "if") {
        Some(TokenKind::If)
    } else if crate::strutil::str_eq(t, "else") {
        Some(TokenKind::Else)
    } else if crate::strutil::str_eq(t, "while") {
        Some(TokenKind::While)
    } else if crate::strutil::str_eq(t, "for") {
        Some(TokenKind::For)
    } else if crate::strutil::str_eq(t, "return") {
        Some(TokenKind::Return)
    } else if crate::strutil::str_eq(t, "break") {
        Some(TokenKind::Break)
    } else if crate::strutil::str_eq(t, "continue") {
        Some(TokenKind::Continue)
    } else if crate::strutil::str_eq(t, "use") {
        Some(TokenKind::Use)
    } else if crate::strutil::str_eq(t, "pub") {
        Some(TokenKind::Pub)
    } else if crate::strutil::str_eq(t, "true") {
        Some(TokenKind::True)
    } else if crate::strutil::str_eq(t, "false") {
        Some(TokenKind::False)
    } else if crate::strutil::str_eq(t, "null") {
        Some(TokenKind::Null)
    } else {
        None
    }
}

/// Convert the digit run `[start, end)` to an `i64`, or `None` on overflow.
fn digits_to_i64(v: &Vec<char>, start: usize, end: usize) -> (r: Option<i64>)
    requires
        start < end <= v@.len(),
        forall|j: int| start <= j < end ==> is_digit(#[trigger] v@[j]),
    ensures
        match r {
            Some(x) => x == digits_val(v@.subrange(start as int, end as int)) && x >= 0,
            None => digits_val(v@.subrange(start as int, end as int)) > i64::MAX,
        },
{
    let mut acc: i64 = 0;
    let mut i = start;
    while i < end
        invariant
            start <= i <= end <= v@.len(),
            forall|j: int| start <= j < end ==> is_digit(#[trigger] v@[j]),
            0 <= acc,
            acc == digits_val(v@.subrange(start as int, i as int)),
        decreases end - i,
    {
        let c = v[i];
        let d = ((c as u32) - 48) as i64;
        proof {
            assert(is_digit(v@[i as int]));
            assert(0 <= d <= 9);
        }
        if acc > (i64::MAX - d) / 10 {
            proof {
                assert(acc * 10 + d > i64::MAX) by (nonlinear_arith)
                    requires
                        acc > (i64::MAX - d) / 10,
                        0 <= d <= 9,
                        acc >= 0,
                ;
                assert(digits_val(v@.subrange(start as int, i + 1 as int)) == acc * 10 + d) by {
                    lemma_digits_val_step(v@, start as int, i as int);
                }
                lemma_digits_val_grows(v@, start as int, i + 1, end as int);
            }
            return None;
        }
        proof {
            assert(acc * 10 + d <= i64::MAX) by (nonlinear_arith)
                requires
                    acc <= (i64::MAX - d) / 10,
                    0 <= d <= 9,
                    acc >= 0,
            ;
            lemma_digits_val_step(v@, start as int, i as int);
        }
        acc = acc * 10 + d;
        i = i + 1;
    }
    Some(acc)
}

/// One digit extends the value: `val(s[start..i+1]) == 10 * val(s[start..i]) + digit`.
proof fn lemma_digits_val_step(s: Seq<char>, start: int, i: int)
    requires
        0 <= start <= i < s.len(),
    ensures
        digits_val(s.subrange(start, i + 1)) == digits_val(s.subrange(start, i)) * 10 + digit_val(
            s[i],
        ),
{
    let w = s.subrange(start, i + 1);
    assert(w.drop_last() =~= s.subrange(start, i));
    assert(w.last() == s[i]);
}

/// A longer digit run has at least the value of its prefix scaled up.
proof fn lemma_digits_val_grows(s: Seq<char>, start: int, i: int, end: int)
    requires
        0 <= start <= i <= end <= s.len(),
        forall|j: int| start <= j < end ==> is_digit(#[trigger] s[j]),
    ensures
        digits_val(s.subrange(start, end)) >= digits_val(s.subrange(start, i)),
    decreases end - i,
{
    if i < end {
        lemma_digits_val_step(s, start, i);
        assert(digit_val(s[i]) >= 0);
        assert(digits_val(s.subrange(start, i)) >= 0) by {
            lemma_digits_val_nonneg(s, start, i);
        }
        assert(digits_val(s.subrange(start, i + 1)) >= digits_val(s.subrange(start, i)))
            by (nonlinear_arith)
            requires
                digits_val(s.subrange(start, i + 1)) == digits_val(s.subrange(start, i)) * 10
                    + digit_val(s[i]),
                digit_val(s[i]) >= 0,
                digits_val(s.subrange(start, i)) >= 0,
        ;
        lemma_digits_val_grows(s, start, i + 1, end);
    }
}

/// The value of a digit run is never negative.
proof fn lemma_digits_val_nonneg(s: Seq<char>, start: int, end: int)
    requires
        0 <= start <= end <= s.len(),
        forall|j: int| start <= j < end ==> is_digit(#[trigger] s[j]),
    ensures
        digits_val(s.subrange(start, end)) >= 0,
    decreases end - start,
{
    if start < end {
        lemma_digits_val_step(s, start, end - 1);
        lemma_digits_val_nonneg(s, start, end - 1);
        assert(digits_val(s.subrange(start, end)) >= 0) by (nonlinear_arith)
            requires
                digits_val(s.subrange(start, end)) == digits_val(s.subrange(start, end - 1)) * 10
                    + digit_val(s[end - 1]),
                digits_val(s.subrange(start, end - 1)) >= 0,
                digit_val(s[end - 1]) >= 0,
        ;
    }
}

} // verus!
