//! The value side of the host bindings: the types the driver exposes to
//! user programs. Everything here computes on plain values; the driver
//! does the reading, serving and printing around them.

use vstd::prelude::*;

use crate::token::TokenKind;

verus! {

broadcast use {vstd::std_specs::vec::axiom_vec_decreases_to_view, vstd::seq::axiom_seq_index_decreases};

/// The index of the first newline in `s`, or a negative value if none.
pub open spec fn first_nl(s: Seq<char>) -> int
    decreases s.len(),
{
    if s.len() == 0 {
        -1
    } else if s[0] == '\n' {
        0
    } else {
        let r = first_nl(s.drop_first());
        if r < 0 {
            -1
        } else {
            r + 1
        }
    }
}

/// A line with a trailing carriage return removed.
pub open spec fn trim_cr(s: Seq<char>) -> Seq<char> {
    if s.len() > 0 && s.last() == '\r' {
        s.drop_last()
    } else {
        s
    }
}

/// The lines of a text: split at each newline, a carriage return trimmed
/// from the end of each newline-terminated line (so `\r\n` ends a line),
/// no final empty line after a trailing newline. A final line that no
/// newline terminates is kept whole, trailing carriage return included.
pub open spec fn lines_of(s: Seq<char>) -> Seq<Seq<char>>
    decreases s.len(),
{
    if s.len() == 0 {
        Seq::empty()
    } else {
        let k = first_nl(s);
        if k < 0 || k >= s.len() {
            seq![s]
        } else {
            seq![trim_cr(s.take(k))] + lines_of(s.skip(k + 1))
        }
    }
}

/// A file's path and contents, as the driver read them.
pub struct File {
    path: String,
    contents: String,
}

impl File {
    /// The path the file was read from.
    pub closed spec fn spec_path(self) -> Seq<char> {
        self.path@
    }

    /// The text the file holds.
    pub closed spec fn spec_contents(self) -> Seq<char> {
        self.contents@
    }

    /// A file from its path and the text read from it.
    pub fn with_contents(path: String, contents: String) -> (r: File)
        ensures
            r.spec_path() == path@,
            r.spec_contents() == contents@,
    {
        File { path, contents }
    }

    /// The path the file was read from.
    pub fn path(&self) -> (r: String)
        ensures
            r@ == self.spec_path(),
    {
        self.path.clone()
    }

    /// The text the file holds.
    pub fn contents(&self) -> (r: String)
        ensures
            r@ == self.spec_contents(),
    {
        self.contents.clone()
    }

    /// Whether the file holds no text.
    pub fn is_empty(&self) -> (r: bool)
        ensures
            r == (self.spec_contents().len() == 0),
    {
        self.contents.as_str().is_empty()
    }

    /// The lines of the file: split at newlines, a carriage return trimmed
    /// from the end of each newline-terminated line, no final empty line
    /// after a trailing newline, a final unterminated line kept whole.
    pub fn lines(&self) -> (r: Vec<String>)
        ensures
            r@.map_values((|l: String| l@)) == lines_of(self.spec_contents()),
    {
        let chars = crate::strutil::str_chars(self.contents.as_str());
        let mut out: Vec<String> = Vec::new();
        let n = chars.len();
        proof {
            assert(chars@.skip(0) =~= chars@);
            assert(out@.map_values((|l: String| l@)) =~= Seq::<Seq<char>>::empty());
        }
        let mut start: usize = 0;
        while start < n
            invariant
                start <= n == chars@.len(),
                chars@ == self.spec_contents(),
                out@.map_values((|l: String| l@)) + lines_of(chars@.skip(start as int))
                    == lines_of(chars@),
            decreases n - start,
        {
            // Find the end of this line.
            let mut j: usize = start;
            while j < n && chars[j] != '\n'
                invariant
                    start <= j <= n == chars@.len(),
                    forall|m: int| start <= m < j ==> #[trigger] chars@[m] != '\n',
                decreases n - j,
            {
                j = j + 1;
            }
            let ghost rest = chars@.skip(start as int);
            proof {
                lemma_first_nl_at(rest, j - start, j < n);
                assert(rest.take(j - start) =~= chars@.subrange(start as int, j as int));
                if j < n {
                    assert(rest.skip(j - start + 1) =~= chars@.skip(j + 1));
                }
            }
            // Take the line; a newline-terminated line loses one trailing
            // carriage return, a final unterminated line keeps its text.
            let mut end = j;
            if j < n && end > start && chars[end - 1] == '\r' {
                end = end - 1;
            }
            let line = crate::lexer::copy_range(&chars, start, end);
            proof {
                if j < n {
                    assert(line@ =~= trim_cr(chars@.subrange(start as int, j as int)));
                }
            }
            let ghost before = out@;
            out.push(crate::strutil::chars_to_string(&line));
            proof {
                assert(out@.map_values((|l: String| l@)) =~= before.map_values(
                    (|l: String| l@),
                ).push(line@));
                if j < n {
                    assert(out@.map_values((|l: String| l@)) + lines_of(chars@.skip(j + 1))
                        =~= before.map_values((|l: String| l@)) + lines_of(rest));
                } else {
                    assert(lines_of(rest) =~= seq![rest]);
                    assert(rest =~= line@) by {
                        assert(rest.take(j - start) =~= rest);
                    }
                    assert(out@.map_values((|l: String| l@)) + lines_of(chars@.skip(n as int))
                        =~= before.map_values((|l: String| l@)) + lines_of(rest));
                }
            }
            if j < n {
                start = j + 1;
            } else {
                start = n;
            }
        }
        proof {
            assert(lines_of(chars@.skip(n as int)) =~= Seq::<Seq<char>>::empty());
            assert(out@.map_values((|l: String| l@)) + Seq::<Seq<char>>::empty() =~= out@.map_values(
                (|l: String| l@),
            ));
        }
        out
    }
}

/// If the characters before `j` are no newlines, and `j` is either a
/// newline or the end, then `j` is where the first newline search lands.
proof fn lemma_first_nl_at(s: Seq<char>, j: int, found: bool)
    requires
        0 <= j <= s.len(),
        forall|m: int| 0 <= m < j ==> #[trigger] s[m] != '\n',
        found ==> j < s.len() && s[j] == '\n',
        !found ==> j == s.len(),
    ensures
        found ==> first_nl(s) == j,
        !found ==> first_nl(s) < 0,
    decreases j,
{
    if j == 0 {
        if !found {
            assert(s.len() == 0);
        }
    } else {
        assert(s[0] != '\n');
        lemma_first_nl_at(s.drop_first(), j - 1, found);
        assert(forall|m: int| 0 <= m < j - 1 ==> #[trigger] s.drop_first()[m] != '\n') by {
            assert(forall|m: int|
                0 <= m < j - 1 ==> s.drop_first()[m] == #[trigger] s[m + 1]);
        }
    }
}

/// An HTTP server's bind target; the driver does the serving.
pub struct Server {
    target: String,
}

impl Server {
    /// The address the server will bind.
    pub closed spec fn spec_target(self) -> Seq<char> {
        self.target@
    }

    /// A server bound to the given target address.
    pub fn new(target: String) -> (r: Server)
        ensures
            r.spec_target() == target@,
    {
        Server { target }
    }

    /// A server bound to the given target address.
    pub fn init(target: String) -> (r: Server)
        ensures
            r.spec_target() == target@,
    {
        Server::new(target)
    }

    /// The address the server will bind.
    pub fn target(&self) -> (r: String)
        ensures
            r@ == self.spec_target(),
    {
        self.target.clone()
    }
}

/// Relies on `uuid::Uuid::new_v4` and its `Display`: a fresh random
/// version-4 UUID rendered in the hyphenated form, which is always 36
/// characters. The value depends on randomness, so nothing more is
/// promised of it. `new_v4` aborts if the operating system's randomness
/// source fails, an environmental failure of the machine's kind, not of
/// any input.
#[verifier::external_body]
fn fresh_uuid_string() -> (r: String)
    ensures
        r@.len() == 36,
{
    uuid::Uuid::new_v4().to_string()
}

/// A freshly generated UUID, as its hyphenated text.
pub struct Uuid {
    value: String,
}

impl Uuid {
    /// The UUID's hyphenated text.
    pub closed spec fn val(self) -> Seq<char> {
        self.value@
    }

    /// Generate a fresh UUID; its text is always 36 characters.
    pub fn new() -> (r: Uuid)
        ensures
            r.val().len() == 36,
    {
        Uuid { value: fresh_uuid_string() }
    }

    /// The UUID's hyphenated text.
    pub fn to_string(&self) -> (r: String)
        ensures
            r@ == self.val(),
    {
        self.value.clone()
    }

    /// Generate a fresh UUID and return its text directly.
    pub fn generate() -> (r: String)
        ensures
            r@.len() == 36,
    {
        fresh_uuid_string()
    }
}

/// The text and kind name a token renders to for the host.
pub open spec fn token_pair(k: TokenKind) -> (Seq<char>, Seq<char>) {
    match k {
        TokenKind::Identifier(s) => (s@, "Identifier"@),
        TokenKind::String(s) => (s@, "String"@),
        TokenKind::Number(n) => (crate::numfmt::i64_dec_str(n as int), "Number"@),
        TokenKind::True => ("true"@, "True"@),
        TokenKind::False => ("false"@, "False"@),
        TokenKind::Null => ("null"@, "Null"@),
        TokenKind::Fn => ("fn"@, "Fn"@),
        TokenKind::Let => ("let"@, "Let"@),
        TokenKind::Const => ("const"@, "Const"@),
        TokenKind::If => ("if"@, "If"@),
        TokenKind::Else => ("else"@, "Else"@),
        TokenKind::While => ("while"@, "While"@),
        TokenKind::For => ("for"@, "For"@),
        TokenKind::Return => ("return"@, "Return"@),
        TokenKind::Break => ("break"@, "Break"@),
        TokenKind::Continue => ("continue"@, "Continue"@),
        TokenKind::Use => ("use"@, "Use"@),
        TokenKind::Pub => ("pub"@, "Pub"@),
        TokenKind::LeftParen => ("("@, "LeftParen"@),
        TokenKind::RightParen => (")"@, "RightParen"@),
        TokenKind::LeftBracket => ("["@, "LeftBracket"@),
        TokenKind::RightBracket => ("]"@, "RightBracket"@),
        TokenKind::LeftBrace => ("{"@, "LeftBrace"@),
        TokenKind::RightBrace => ("}"@, "RightBrace"@),
        TokenKind::Comma => (","@, "Comma"@),
        TokenKind::Dot => ("."@, "Dot"@),
        TokenKind::Semicolon => (";"@, "Semicolon"@),
        TokenKind::Colon => (":"@, "Colon"@),
        TokenKind::Plus => ("+"@, "Plus"@),
        TokenKind::Minus => ("-"@, "Minus"@),
        TokenKind::Asterisk => ("*"@, "Asterisk"@),
        TokenKind::Slash => ("/"@, "Slash"@),
        TokenKind::Equals => ("="@, "Equals"@),
        TokenKind::EqualsEquals => ("=="@, "EqualsEquals"@),
        TokenKind::NotEquals => ("!="@, "NotEquals"@),
        TokenKind::LessThan => ("<"@, "LessThan"@),
        TokenKind::GreaterThan => (">"@, "GreaterThan"@),
        TokenKind::LessThanEquals => ("<="@, "LessThanEquals"@),
        TokenKind::GreaterThanEquals => (">="@, "GreaterThanEquals"@),
        TokenKind::Unknown(c) => (seq![c], "Unknown"@),
        TokenKind::Eof => (""@, "Eof"@),
    }
}

/// The text and kind name an abstract token kind renders to: the same
/// pairs as `token_pair`, over the mathematical token values of the
/// tokenisation `sp_tokens`.
pub open spec fn sp_pair(k: crate::lexer::SpKind) -> (Seq<char>, Seq<char>) {
    match k {
        crate::lexer::SpKind::Identifier(s) => (s, "Identifier"@),
        crate::lexer::SpKind::String(s) => (s, "String"@),
        crate::lexer::SpKind::Number(n) => (crate::numfmt::i64_dec_str(n), "Number"@),
        crate::lexer::SpKind::True => ("true"@, "True"@),
        crate::lexer::SpKind::False => ("false"@, "False"@),
        crate::lexer::SpKind::Null => ("null"@, "Null"@),
        crate::lexer::SpKind::Fn => ("fn"@, "Fn"@),
        crate::lexer::SpKind::Let => ("let"@, "Let"@),
        crate::lexer::SpKind::Const => ("const"@, "Const"@),
        crate::lexer::SpKind::If => ("if"@, "If"@),
        crate::lexer::SpKind::Else => ("else"@, "Else"@),
        crate::lexer::SpKind::While => ("while"@, "While"@),
        crate::lexer::SpKind::For => ("for"@, "For"@),
        crate::lexer::SpKind::Return => ("return"@, "Return"@),
        crate::lexer::SpKind::Break => ("break"@, "Break"@),
        crate::lexer::SpKind::Continue => ("continue"@, "Continue"@),
        crate::lexer::SpKind::Use => ("use"@, "Use"@),
        crate::lexer::SpKind::Pub => ("pub"@, "Pub"@),
        crate::lexer::SpKind::LeftParen => ("("@, "LeftParen"@),
        crate::lexer::SpKind::RightParen => (")"@, "RightParen"@),
        crate::lexer::SpKind::LeftBracket => ("["@, "LeftBracket"@),
        crate::lexer::SpKind::RightBracket => ("]"@, "RightBracket"@),
        crate::lexer::SpKind::LeftBrace => ("{"@, "LeftBrace"@),
        crate::lexer::SpKind::RightBrace => ("}"@, "RightBrace"@),
        crate::lexer::SpKind::Comma => (","@, "Comma"@),
        crate::lexer::SpKind::Dot => ("."@, "Dot"@),
        crate::lexer::SpKind::Semicolon => (";"@, "Semicolon"@),
        crate::lexer::SpKind::Colon => (":"@, "Colon"@),
        crate::lexer::SpKind::Plus => ("+"@, "Plus"@),
        crate::lexer::SpKind::Minus => ("-"@, "Minus"@),
        crate::lexer::SpKind::Asterisk => ("*"@, "Asterisk"@),
        crate::lexer::SpKind::Slash => ("/"@, "Slash"@),
        crate::lexer::SpKind::Equals => ("="@, "Equals"@),
        crate::lexer::SpKind::EqualsEquals => ("=="@, "EqualsEquals"@),
        crate::lexer::SpKind::NotEquals => ("!="@, "NotEquals"@),
        crate::lexer::SpKind::LessThan => ("<"@, "LessThan"@),
        crate::lexer::SpKind::GreaterThan => (">"@, "GreaterThan"@),
        crate::lexer::SpKind::LessThanEquals => ("<="@, "LessThanEquals"@),
        crate::lexer::SpKind::GreaterThanEquals => (">="@, "GreaterThanEquals"@),
        crate::lexer::SpKind::Unknown(c) => (seq![c], "Unknown"@),
        crate::lexer::SpKind::Eof => (""@, "Eof"@),
    }
}

/// Rendering a token's kind and abstracting it agree.
proof fn lemma_token_pair_abs(k: TokenKind)
    ensures
        sp_pair(crate::lexer::kind_abs(k)) == token_pair(k),
{
}

/// The rendering of one token for the host.
fn render_token(k: &TokenKind) -> (r: (String, String))
    ensures
        (r.0@, r.1@) == token_pair(*k),
{
    match k {
        TokenKind::Identifier(s) => (s.clone(), lit("Identifier")),
        TokenKind::String(s) => (s.clone(), lit("String")),
        TokenKind::Number(n) => (crate::numfmt::i64_to_string(*n), lit("Number")),
        TokenKind::True => (lit("true"), lit("True")),
        TokenKind::False => (lit("false"), lit("False")),
        TokenKind::Null => (lit("null"), lit("Null")),
        TokenKind::Fn => (lit("fn"), lit("Fn")),
        TokenKind::Let => (lit("let"), lit("Let")),
        TokenKind::Const => (lit("const"), lit("Const")),
        TokenKind::If => (lit("if"), lit("If")),
        TokenKind::Else => (lit("else"), lit("Else")),
        TokenKind::While => (lit("while"), lit("While")),
        TokenKind::For => (lit("for"), lit("For")),
        TokenKind::Return => (lit("return"), lit("Return")),
        TokenKind::Break => (lit("break"), lit("Break")),
        TokenKind::Continue => (lit("continue"), lit("Continue")),
        TokenKind::Use => (lit("use"), lit("Use")),
        TokenKind::Pub => (lit("pub"), lit("Pub")),
        TokenKind::LeftParen => (lit("("), lit("LeftParen")),
        TokenKind::RightParen => (lit(")"), lit("RightParen")),
        TokenKind::LeftBracket => (lit("["), lit("LeftBracket")),
        TokenKind::RightBracket => (lit("]"), lit("RightBracket")),
        TokenKind::LeftBrace => (lit("{"), lit("LeftBrace")),
        TokenKind::RightBrace => (lit("}"), lit("RightBrace")),
        TokenKind::Comma => (lit(","), lit("Comma")),
        TokenKind::Dot => (lit("."), lit("Dot")),
        TokenKind::Semicolon => (lit(";"), lit("Semicolon")),
        TokenKind::Colon => (lit(":"), lit("Colon")),
        TokenKind::Plus => (lit("+"), lit("Plus")),
        TokenKind::Minus => (lit("-"), lit("Minus")),
        TokenKind::Asterisk => (lit("*"), lit("Asterisk")),
        TokenKind::Slash => (lit("/"), lit("Slash")),
        TokenKind::Equals => (lit("="), lit("Equals")),
        TokenKind::EqualsEquals => (lit("=="), lit("EqualsEquals")),
        TokenKind::NotEquals => (lit("!="), lit("NotEquals")),
        TokenKind::LessThan => (lit("<"), lit("LessThan")),
        TokenKind::GreaterThan => (lit(">"), lit("GreaterThan")),
        TokenKind::LessThanEquals => (lit("<="), lit("LessThanEquals")),
        TokenKind::GreaterThanEquals => (lit(">="), lit("GreaterThanEquals")),
        TokenKind::Unknown(c) => {
            let mut v: Vec<char> = Vec::new();
            v.push(*c);
            proof {
                assert(v@ =~= seq![*c]);
            }
            (crate::strutil::chars_to_string(&v), lit("Unknown"))
        },
        TokenKind::Eof => (lit(""), lit("Eof")),
    }
}

/// An owned copy of a literal.
fn lit(s: &str) -> (r: String)
    ensures
        r@ == s@,
{
    s.to_owned()
}

/// The tokeniser the driver exposes to user programs: a source string,
/// rendered as pairs of token text and kind name.
pub struct Lexer {
    source: String,
}

impl Lexer {
    /// The source to be tokenised.
    pub closed spec fn src(self) -> Seq<char> {
        self.source@
    }

    /// A tokeniser over a source string.
    pub fn new(source: String) -> (r: Lexer)
        ensures
            r.src() == source@,
    {
        Lexer { source }
    }

    /// Tokenise the source and render every token: its text and the name
    /// of its kind, in order. The result is exactly the rendering of the
    /// tokenisation `sp_tokens` of the source.
    pub fn all(&self) -> (r: Vec<(String, String)>)
        ensures
            r@.len() == crate::lexer::sp_tokens(self.src()).len(),
            forall|i: int|
                0 <= i < r@.len() ==> ((#[trigger] r@[i]).0@, r@[i].1@) == sp_pair(
                    crate::lexer::sp_tokens(self.src())[i].kind,
                ),
    {
        let tokens = crate::lex(self.source.as_str());
        let ghost toks = tokens@;
        let ghost stoks = crate::lexer::sp_tokens(self.src());
        proof {
            assert(toks.map_values((|t: crate::token::Token| crate::lexer::tok_abs(t))) == stoks);
            assert(toks.len() == stoks.len());
        }
        let mut out: Vec<(String, String)> = Vec::new();
        let n = tokens.len();
        let mut i: usize = 0;
        while i < n
            invariant
                i <= n == toks.len(),
                toks.len() == stoks.len(),
                stoks == crate::lexer::sp_tokens(self.src()),
                forall|j: int|
                    0 <= j < toks.len() ==> #[trigger] stoks[j] == crate::lexer::tok_abs(toks[j]),
                tokens@ == toks,
                out@.len() == i,
                forall|j: int|
                    0 <= j < i ==> ((#[trigger] out@[j]).0@, out@[j].1@) == sp_pair(
                        stoks[j].kind,
                    ),
            decreases n - i,
        {
            let pair = render_token(&tokens[i].kind);
            proof {
                lemma_token_pair_abs(tokens@[i as int].kind);
            }
            out.push(pair);
            i += 1;
        }
        out
    }

    /// Tokenise a source string in one step: exactly the rendering of the
    /// tokenisation `sp_tokens` of the source.
    pub fn tokenize(source: String) -> (r: Vec<(String, String)>)
        ensures
            r@.len() == crate::lexer::sp_tokens(source@).len(),
            forall|i: int|
                0 <= i < r@.len() ==> ((#[trigger] r@[i]).0@, r@[i].1@) == sp_pair(
                    crate::lexer::sp_tokens(source@)[i].kind,
                ),
    {
        let this = Lexer::new(source);
        this.all()
    }
}

} // verus!
