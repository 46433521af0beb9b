//! The expression lexer: numbers, `+`, `-` and parentheses, one token at a time.
use vstd::prelude::*;
use vstd::string::*;
use crate::text::{
    all_ascii_digits, collect_chars, decimal, is_ascii_digit, parse_u8, push_decimal, push_str,
    spec_is_ascii_digit, spec_parse_u8,
};

verus! {

broadcast use vstd::string::group_string_axioms;

/// The kind of an expression token.
#[derive(PartialEq, Debug, Copy, Clone)]
pub enum TokenType {
    Number(u8),
    Plus,
    Minus,
    LParen,
    RParen,
}

/// A token and the column it is reported at.
#[derive(PartialEq, Debug)]
pub struct Token {
    pub kind: TokenType,
    pub pos: usize,
}

impl Token {
    /// A token of kind `kind` at column `pos`.
    pub fn new(kind: TokenType, pos: usize) -> (r: Self)
        ensures
            r.kind == kind,
            r.pos == pos,
    {
        Token { kind, pos }
    }
}

/// A lexical error of the calculator.
#[derive(Debug)]
pub struct LexerError {
    pub error: String,
}

impl View for LexerError {
    type V = Seq<char>;

    open spec fn view(&self) -> Seq<char> {
        self.error@
    }
}

impl LexerError {
    /// An error with the given message.
    pub fn new(message: String) -> (r: Self)
        ensures
            r@ == message@,
    {
        LexerError { error: message }
    }

    /// The error as it is shown: `Lexical Error: ` and the message.
    pub fn to_string(&self) -> (r: String)
        ensures
            r@ == "Lexical Error: "@ + self@,
    {
        let mut s = String::new();
        push_str(&mut s, "Lexical Error: ");
        push_str(&mut s, self.error.as_str());
        s
    }
}

/// Where the lexer stands: the index of the next character and the column.
pub struct CalcPos {
    pub pos: int,
    pub col: int,
}

/// One character further.
pub open spec fn step(p: CalcPos) -> CalcPos {
    CalcPos { pos: p.pos + 1, col: p.col + 1 }
}

/// Past the spaces and tabs that start at `p`.
pub open spec fn skip_blanks(s: Seq<char>, p: CalcPos) -> CalcPos
    decreases s.len() - p.pos,
{
    if 0 <= p.pos < s.len() && (s[p.pos] == ' ' || s[p.pos] == '\t') {
        skip_blanks(s, step(p))
    } else {
        p
    }
}

/// The end of the run of ASCII digits that starts at `i`.
pub open spec fn digits_end(s: Seq<char>, i: int) -> int
    decreases s.len() - i,
{
    if 0 <= i < s.len() && spec_is_ascii_digit(s[i]) {
        digits_end(s, i + 1)
    } else {
        i
    }
}

/// The message for a number that does not fit in a byte.
pub open spec fn msg_out_of_bounds(lexeme: Seq<char>, col: int) -> Seq<char> {
    "Number '"@ + lexeme + "' out of bounds at "@ + decimal(col as nat)
        + ". Expected u8 number (0-255)."@
}

/// The message for a character that starts no token.
pub open spec fn msg_unexpected(col: int) -> Seq<char> {
    "Unexpected token at "@ + decimal(col as nat) + "."@
}

/// The next token of `s` from `p`, and where the lexer stands after it.
///
/// Blanks are skipped. A digit starts a number, which runs over ASCII digits, must fit in
/// a byte and is reported at the column where it starts; `+`, `-`, `(` and `)` are reported at the
/// column after them. Anything else is an error, and the lexer does not move past it.
pub open spec fn spec_next_token(s: Seq<char>, p0: CalcPos) -> (
    Option<Result<Token, Seq<char>>>,
    CalcPos,
) {
    let p = skip_blanks(s, p0);
    if !(0 <= p.pos < s.len()) {
        (None, p)
    } else {
        let c = s[p.pos];
        if spec_is_ascii_digit(c) {
            let e = digits_end(s, p.pos);
            let w = s.subrange(p.pos, e);
            let q = CalcPos { pos: e, col: p.col + (e - p.pos) };
            match spec_parse_u8(w) {
                Some(n) => (Some(Ok(Token { kind: TokenType::Number(n), pos: p.col as usize })), q),
                None => (Some(Err(msg_out_of_bounds(w, p.col))), q),
            }
        } else if c == '+' {
            (Some(Ok(Token { kind: TokenType::Plus, pos: (p.col + 1) as usize })), step(p))
        } else if c == '-' {
            (Some(Ok(Token { kind: TokenType::Minus, pos: (p.col + 1) as usize })), step(p))
        } else if c == '(' {
            (Some(Ok(Token { kind: TokenType::LParen, pos: (p.col + 1) as usize })), step(p))
        } else if c == ')' {
            (Some(Ok(Token { kind: TokenType::RParen, pos: (p.col + 1) as usize })), step(p))
        } else {
            (Some(Err(msg_unexpected(p.col))), p)
        }
    }
}

/// The value of what `next_token` returns.
pub open spec fn out_view(r: Option<Result<Token, LexerError>>) -> Option<Result<Token, Seq<char>>> {
    match r {
        None => None,
        Some(Ok(t)) => Some(Ok(t)),
        Some(Err(e)) => Some(Err(e@)),
    }
}

proof fn lemma_skip_blanks(s: Seq<char>, p: CalcPos)
    requires
        0 <= p.pos <= s.len(),
    ensures
        p.pos <= skip_blanks(s, p).pos <= s.len(),
    decreases s.len() - p.pos,
{
    if 0 <= p.pos < s.len() && (s[p.pos] == ' ' || s[p.pos] == '\t') {
        lemma_skip_blanks(s, step(p));
    }
}

proof fn lemma_digits_end(s: Seq<char>, i: int)
    requires
        0 <= i <= s.len(),
    ensures
        i <= digits_end(s, i) <= s.len(),
        i < s.len() && spec_is_ascii_digit(s[i]) ==> i < digits_end(s, i),
    decreases s.len() - i,
{
    if 0 <= i < s.len() && spec_is_ascii_digit(s[i]) {
        lemma_digits_end(s, i + 1);
    }
}

/// Reading a token never moves the lexer back nor past the end of the text, and a token
/// that is read always takes at least one character.
pub proof fn lemma_next_token_progress(s: Seq<char>, p: CalcPos)
    requires
        0 <= p.pos <= s.len(),
    ensures
        p.pos <= spec_next_token(s, p).1.pos <= s.len(),
        spec_next_token(s, p).0 matches Some(Ok(_)) ==> p.pos < spec_next_token(s, p).1.pos,
{
    lemma_skip_blanks(s, p);
    let p1 = skip_blanks(s, p);
    if 0 <= p1.pos < s.len() {
        lemma_digits_end(s, p1.pos);
    }
}

/// The expression lexer.
pub struct Lexer<'a> {
    pub stream: &'a str,
    /// The characters of the text, read once so that each is reached in one step.
    pub chars: Vec<char>,
    /// The index of the next character, counted in characters.
    pub pos: usize,
    pub col: usize,
}

impl<'a> Lexer<'a> {
    /// The text.
    pub open spec fn text(&self) -> Seq<char> {
        self.stream@
    }

    /// Where the lexer stands.
    pub open spec fn at(&self) -> CalcPos {
        CalcPos { pos: self.pos as int, col: self.col as int }
    }

    /// The lexer is consistent, and reading the rest cannot overflow the column.
    pub open spec fn wf(&self) -> bool {
        &&& self.chars@ == self.stream@
        &&& self.pos <= self.chars.len()
        &&& self.col + (self.chars.len() - self.pos) < usize::MAX
    }

    /// A lexer at the start of `stream`, column 1.
    pub fn new(stream: &'a str) -> (r: Self)
        requires
            stream@.len() < usize::MAX - 1,
        ensures
            r.wf(),
            r.stream == stream,
            r.pos == 0,
            r.col == 1,
    {
        let chars = collect_chars(stream);
        Lexer { stream, chars, pos: 0, col: 1 }
    }

    fn peek(&self) -> (r: Option<char>)
        requires
            self.wf(),
        ensures
            r == (if self.pos < self.text().len() {
                Some(self.text()[self.pos as int])
            } else {
                None::<char>
            }),
    {
        if self.pos < self.chars.len() {
            Some(self.chars[self.pos])
        } else {
            None
        }
    }

    fn consume(&mut self) -> (r: Option<char>)
        requires
            old(self).wf(),
        ensures
            final(self).wf(),
            final(self).stream == old(self).stream,
            final(self).chars == old(self).chars,
            old(self).pos < old(self).text().len() ==> r == Some(old(self).text()[old(self).pos as int])
                && final(self).at() == step(old(self).at()),
            old(self).pos >= old(self).text().len() ==> r is None && final(self).at() == old(
                self,
            ).at(),
    {
        if let Some(c) = self.peek() {
            self.pos = self.pos + 1;
            self.col = self.col + 1;
            Some(c)
        } else {
            None
        }
    }

    fn skip_blank(&mut self)
        requires
            old(self).wf(),
        ensures
            final(self).wf(),
            final(self).stream == old(self).stream,
            final(self).chars == old(self).chars,
            final(self).at() == skip_blanks(old(self).text(), old(self).at()),
    {
        let ghost s = self.text();
        let ghost p0 = self.at();
        loop
            invariant
                self.wf(),
                self.stream == old(self).stream,
                self.chars == old(self).chars,
                s == self.text(),
                skip_blanks(s, self.at()) == skip_blanks(s, p0),
            ensures
                self.wf(),
                self.stream == old(self).stream,
                self.chars == old(self).chars,
                self.at() == skip_blanks(s, p0),
            decreases s.len() - self.pos,
        {
            match self.peek() {
                Some(c) => {
                    if c == ' ' || c == '\t' {
                        self.consume();
                    } else {
                        break;
                    }
                },
                None => {
                    break;
                },
            }
        }
    }

    fn consume_numeric(&mut self) -> (r: Result<Token, LexerError>)
        requires
            old(self).wf(),
            old(self).pos < old(self).text().len(),
            spec_is_ascii_digit(old(self).text()[old(self).pos as int]),
        ensures
            final(self).wf(),
            final(self).stream == old(self).stream,
            final(self).chars == old(self).chars,
            ({
                let s = old(self).text();
                let p = old(self).at();
                let e = digits_end(s, p.pos);
                let w = s.subrange(p.pos, e);
                &&& final(self).at() == (CalcPos { pos: e, col: p.col + (e - p.pos) })
                &&& match spec_parse_u8(w) {
                    Some(n) => r == Ok::<Token, LexerError>(
                        Token { kind: TokenType::Number(n), pos: p.col as usize },
                    ),
                    None => r matches Err(x) && x@ == msg_out_of_bounds(w, p.col),
                }
            }),
    {
        let ghost s = self.text();
        let ghost p0 = self.at();
        let start_idx = self.pos;
        let position = self.col;
        self.consume();
        loop
            invariant
                self.wf(),
                self.stream == old(self).stream,
                self.chars == old(self).chars,
                s == self.text(),
                start_idx < self.pos,
                digits_end(s, self.pos as int) == digits_end(s, start_idx as int),
                self.at() == (CalcPos { pos: self.pos as int, col: p0.col + (self.pos - p0.pos) }),
                forall|i: int| start_idx <= i < self.pos ==> spec_is_ascii_digit(#[trigger] s[i]),
            ensures
                self.wf(),
                self.stream == old(self).stream,
                self.chars == old(self).chars,
                self.pos == digits_end(s, start_idx as int),
                self.at() == (CalcPos { pos: self.pos as int, col: p0.col + (self.pos - p0.pos) }),
                forall|i: int| start_idx <= i < self.pos ==> spec_is_ascii_digit(#[trigger] s[i]),
            decreases s.len() - self.pos,
        {
            match self.peek() {
                Some(n) => {
                    if is_ascii_digit(n) {
                        self.consume();
                    } else {
                        break;
                    }
                },
                None => {
                    break;
                },
            }
        }
        let lexeme = self.stream.substring_char(start_idx, self.pos);
        assert(all_ascii_digits(lexeme@));
        match parse_u8(lexeme) {
            Some(num) => Ok(Token::new(TokenType::Number(num), position)),
            None => {
                let mut m = String::new();
                push_str(&mut m, "Number '");
                push_str(&mut m, lexeme);
                push_str(&mut m, "' out of bounds at ");
                push_decimal(&mut m, position);
                push_str(&mut m, ". Expected u8 number (0-255).");
                Err(LexerError::new(m))
            },
        }
    }

    /// Reads the next token, as `spec_next_token` describes.
    pub fn next_token(&mut self) -> (r: Option<Result<Token, LexerError>>)
        requires
            old(self).wf(),
        ensures
            final(self).wf(),
            final(self).stream == old(self).stream,
            final(self).chars == old(self).chars,
            (out_view(r), final(self).at()) == spec_next_token(old(self).text(), old(self).at()),
    {
        self.skip_blank();
        let c = match self.peek() {
            Some(c) => c,
            None => {
                return None;
            },
        };
        if is_ascii_digit(c) {
            Some(self.consume_numeric())
        } else if c == '+' {
            self.consume();
            Some(Ok(Token::new(TokenType::Plus, self.col)))
        } else if c == '-' {
            self.consume();
            Some(Ok(Token::new(TokenType::Minus, self.col)))
        } else if c == '(' {
            self.consume();
            Some(Ok(Token::new(TokenType::LParen, self.col)))
        } else if c == ')' {
            self.consume();
            Some(Ok(Token::new(TokenType::RParen, self.col)))
        } else {
            let mut m = String::new();
            push_str(&mut m, "Unexpected token at ");
            push_decimal(&mut m, self.col);
            push_str(&mut m, ".");
            Some(Err(LexerError::new(m)))
        }
    }
}

} // verus!
