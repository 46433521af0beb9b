//! The assembly lexer: one token at a time, on demand, from the source text.
use vstd::prelude::*;
use vstd::string::*;
use crate::text::{
    all_ascii_digits, alphabetic, numeric, collect_chars, debug_escaped, decimal,
    escape_debug, is_alphabetic,
    is_ascii_digit, is_blank, is_numeric, parse_u8, push_char, push_decimal, push_str,
    spec_is_ascii_digit, spec_parse_u8, str_eq,
};

verus! {

broadcast use vstd::string::group_string_axioms;

/// The kind of an assembly token; names and numbers carry their text or value.
#[derive(Debug, Clone, Copy, PartialEq)]
pub enum TokenType<'a> {
    /// `setup`, `text` or `end`, which open and close the sections.
    Label(&'a str),
    /// Any other name.
    Identfier(&'a str),
    /// One of the pseudo-registers `t0` to `t4`.
    Register(&'a str),
    /// An instruction mnemonic.
    Instruction(&'a str),
    /// `DATA`, `SPACE` or `ORG`.
    DataDeclaration(&'a str),
    /// A number from 0 to 255.
    Num(u8),
    Semicolon,
    NewLine,
}

/// What a token kind stands for, with its text as a sequence of characters.
pub enum TokenKind {
    Label(Seq<char>),
    Identifier(Seq<char>),
    Register(Seq<char>),
    Instruction(Seq<char>),
    DataDeclaration(Seq<char>),
    Num(u8),
    Semicolon,
    NewLine,
}

impl<'a> View for TokenType<'a> {
    type V = TokenKind;

    open spec fn view(&self) -> TokenKind {
        match *self {
            TokenType::Label(s) => TokenKind::Label(s@),
            TokenType::Identfier(s) => TokenKind::Identifier(s@),
            TokenType::Register(s) => TokenKind::Register(s@),
            TokenType::Instruction(s) => TokenKind::Instruction(s@),
            TokenType::DataDeclaration(s) => TokenKind::DataDeclaration(s@),
            TokenType::Num(n) => TokenKind::Num(n),
            TokenType::Semicolon => TokenKind::Semicolon,
            TokenType::NewLine => TokenKind::NewLine,
        }
    }
}

/// The name under which a token kind is shown in diagnostics.
pub open spec fn kind_name(k: TokenKind) -> Seq<char> {
    match k {
        TokenKind::Label(_) => "Label"@,
        TokenKind::Identifier(_) => "Identfier"@,
        TokenKind::Register(_) => "Register"@,
        TokenKind::Semicolon => "Semicolon"@,
        TokenKind::DataDeclaration(_) => "Data Declaration"@,
        TokenKind::Instruction(_) => "Instruction"@,
        TokenKind::Num(_) => "Number"@,
        TokenKind::NewLine => "New Line"@,
    }
}

impl<'a> TokenType<'a> {
    /// The name under which this kind is shown in diagnostics.
    pub fn name(&self) -> (r: &'static str)
        ensures
            r@ == kind_name(self@),
    {
        match self {
            TokenType::Label(_) => "Label",
            TokenType::Identfier(_) => "Identfier",
            TokenType::Register(_) => "Register",
            TokenType::Semicolon => "Semicolon",
            TokenType::DataDeclaration(_) => "Data Declaration",
            TokenType::Instruction(_) => "Instruction",
            TokenType::Num(_) => "Number",
            TokenType::NewLine => "New Line",
        }
    }
}

/// A token: its kind, the text it was read from and the line it ends on.
#[derive(PartialEq)]
pub struct Token<'a> {
    pub kind: TokenType<'a>,
    pub lexeme: &'a str,
    pub line: usize,
}

impl<'a> Token<'a> {
    /// The token as it is shown: its kind, its text with escapes, and its line.
    pub fn to_string(&self) -> (r: String)
        ensures
            r@ == "Token -> \n\tTipo: "@ + kind_name(self.kind@) + " \n\tLexeme: "@ + debug_escaped(
                self.lexeme@,
            ) + " \n\tLine: "@ + decimal(self.line as nat),
    {
        let mut s = String::new();
        push_str(&mut s, "Token -> \n\tTipo: ");
        push_str(&mut s, self.kind.name());
        push_str(&mut s, " \n\tLexeme: ");
        let e = escape_debug(self.lexeme);
        push_str(&mut s, e.as_str());
        push_str(&mut s, " \n\tLine: ");
        push_decimal(&mut s, self.line);
        s
    }
}

/// A token as values: kind, text and line.
pub struct TokenView {
    pub kind: TokenKind,
    pub lexeme: Seq<char>,
    pub line: int,
}

impl<'a> View for Token<'a> {
    type V = TokenView;

    open spec fn view(&self) -> TokenView {
        TokenView { kind: self.kind@, lexeme: self.lexeme@, line: self.line as int }
    }
}

impl<'a> Token<'a> {
    fn new(kind: TokenType<'a>, lexeme: &'a str, line: usize) -> (r: Self)
        ensures
            r.kind == kind,
            r.lexeme == lexeme,
            r.line == line,
    {
        Token { kind, lexeme, line }
    }
}

/// An error of the assembler, carrying its message.
#[derive(Debug, Clone)]
pub struct LexerError {
    message: String,
}

impl View for LexerError {
    type V = Seq<char>;

    closed spec fn view(&self) -> Seq<char> {
        self.message@
    }
}

impl LexerError {
    /// An error with the given message.
    pub fn new(error: String) -> (r: Self)
        ensures
            r@ == error@,
    {
        LexerError { message: error }
    }

    /// The message of this error.
    pub fn message(&self) -> (r: &str)
        ensures
            r@ == self@,
    {
        self.message.as_str()
    }

    /// The error as it is shown: `ERROR: ` and the message.
    pub fn to_string(&self) -> (r: String)
        ensures
            r@ == "ERROR: "@ + self@,
    {
        let mut s = String::new();
        push_str(&mut s, "ERROR: ");
        push_str(&mut s, self.message.as_str());
        s
    }
}

/// Where the lexer stands: the index of the next character, the line and the column.
pub struct LexPos {
    pub pos: int,
    pub line: int,
    pub col: int,
}

/// One character further on the same line.
pub open spec fn step(p: LexPos) -> LexPos {
    LexPos { pos: p.pos + 1, line: p.line, col: p.col + 1 }
}

/// `e - p.pos` characters further on the same line.
pub open spec fn step_to(p: LexPos, e: int) -> LexPos {
    LexPos { pos: e, line: p.line, col: p.col + (e - p.pos) }
}

/// Past the spaces and tabs that start at `p`.
pub open spec fn skip_blanks(s: Seq<char>, p: LexPos) -> LexPos
    decreases s.len() - p.pos,
{
    if 0 <= p.pos < s.len() && is_blank(s[p.pos]) {
        skip_blanks(s, step(p))
    } else {
        p
    }
}

/// Up to the next line break, or the end of the text.
pub open spec fn skip_to_line_end(s: Seq<char>, p: LexPos) -> LexPos
    decreases s.len() - p.pos,
{
    if 0 <= p.pos < s.len() && s[p.pos] != '\n' {
        skip_to_line_end(s, step(p))
    } else {
        p
    }
}

/// Past a comment, from `;` up to the line break, when one starts at `p`.
pub open spec fn skip_comment(s: Seq<char>, p: LexPos) -> LexPos {
    if 0 <= p.pos < s.len() && s[p.pos] == ';' {
        skip_to_line_end(s, step(p))
    } else {
        p
    }
}

/// Past the line breaks that start at `p`: each one adds a line and resets the column.
pub open spec fn skip_newlines(s: Seq<char>, p: LexPos) -> LexPos
    decreases s.len() - p.pos,
{
    if 0 <= p.pos < s.len() && s[p.pos] == '\n' {
        skip_newlines(s, LexPos { pos: p.pos + 1, line: p.line + 1, col: 1 })
    } else {
        p
    }
}

/// The characters that make up a name: letters, and ASCII digits after the first letter.
pub open spec fn is_word_char(c: char) -> bool {
    alphabetic(c) || spec_is_ascii_digit(c)
}

/// The end of the run of name characters that starts at `i`.
pub open spec fn word_end(s: Seq<char>, i: int) -> int
    decreases s.len() - i,
{
    if 0 <= i < s.len() && is_word_char(s[i]) {
        word_end(s, i + 1)
    } else {
        i
    }
}

/// The end of the run of ASCII digits that starts at `i`.
pub open spec fn digits_end(s: Seq<char>, i: int) -> int
    decreases s.len() - i,
{
    if 0 <= i < s.len() && spec_is_ascii_digit(s[i]) {
        digits_end(s, i + 1)
    } else {
        i
    }
}

/// The kind of a name: reserved words are labels, data declarations, instructions and
/// registers; everything else is an identifier.
pub open spec fn reserved_kind(w: Seq<char>) -> TokenKind {
    if w == "setup"@ || w == "text"@ || w == "end"@ {
        TokenKind::Label(w)
    } else if w == "DATA"@ || w == "SPACE"@ || w == "ORG"@ {
        TokenKind::DataDeclaration(w)
    } else if w == "nop"@ || w == "add"@ || w == "sta"@ || w == "lda"@ || w == "or"@ || w
        == "and"@ || w == "not"@ || w == "jmp"@ || w == "jn"@ || w == "jz"@ || w == "hlt"@ || w
        == "sub"@ {
        TokenKind::Instruction(w)
    } else if w == "t0"@ || w == "t1"@ || w == "t2"@ || w == "t3"@ || w == "t4"@ {
        TokenKind::Register(w)
    } else {
        TokenKind::Identifier(w)
    }
}

/// The message for a number that does not fit in a byte.
pub open spec fn msg_number_out_of_bounds(lexeme: Seq<char>, line: int, col: int) -> Seq<char> {
    "Error: number '"@ + lexeme + "' out of bounds expected (0-255) at: "@ + decimal(line as nat)
        + ":"@ + decimal(col as nat)
}

/// The message for a character that starts no token.
pub open spec fn msg_unexpected_symbol(c: char, line: int, col: int) -> Seq<char> {
    "Error: unexpected symbol '"@ + seq![c] + "' at "@ + decimal(line as nat) + ":"@ + decimal(
        col as nat,
    )
}

/// The result of asking for the next token: nothing at the end of the text, else a token
/// or an error.
pub type LexOut = Option<Result<TokenView, Seq<char>>>;

/// The next token of `s` from `p`, and where the lexer stands after it.
///
/// Blanks, then a comment, are skipped. A line break starts a `NewLine` token that takes
/// the whole run of line breaks and carries the line after them. A letter starts a name,
/// which runs over letters and ASCII digits. A numeric character starts a number, which
/// runs over ASCII digits and must fit in a byte. Anything else is an error, and the
/// lexer does not move past it.
pub open spec fn spec_next_token(s: Seq<char>, p0: LexPos) -> (LexOut, LexPos) {
    let p = skip_comment(s, skip_blanks(s, p0));
    if !(0 <= p.pos < s.len()) {
        (None, p)
    } else {
        let c = s[p.pos];
        if c == '\n' {
            let q = skip_newlines(s, p);
            (Some(Ok(TokenView { kind: TokenKind::NewLine, lexeme: "\n"@, line: q.line })), q)
        } else if alphabetic(c) {
            let e = word_end(s, p.pos);
            let w = s.subrange(p.pos, e);
            (Some(Ok(TokenView { kind: reserved_kind(w), lexeme: w, line: p.line })), step_to(p, e))
        } else if numeric(c) {
            let e = digits_end(s, p.pos);
            let q = step_to(p, e);
            let w = s.subrange(p.pos, e);
            match spec_parse_u8(w) {
                Some(n) => (Some(Ok(TokenView { kind: TokenKind::Num(n), lexeme: w, line: p.line })), q),
                None => (Some(Err(msg_number_out_of_bounds(w, q.line, q.col))), q),
            }
        } else {
            (Some(Err(msg_unexpected_symbol(c, p.line, p.col))), p)
        }
    }
}

proof fn lemma_skip_blanks(s: Seq<char>, p: LexPos)
    requires
        0 <= p.pos <= s.len(),
    ensures
        p.pos <= skip_blanks(s, p).pos <= s.len(),
    decreases s.len() - p.pos,
{
    if 0 <= p.pos < s.len() && is_blank(s[p.pos]) {
        lemma_skip_blanks(s, step(p));
    }
}

proof fn lemma_skip_to_line_end(s: Seq<char>, p: LexPos)
    requires
        0 <= p.pos <= s.len(),
    ensures
        p.pos <= skip_to_line_end(s, p).pos <= s.len(),
    decreases s.len() - p.pos,
{
    if 0 <= p.pos < s.len() && s[p.pos] != '\n' {
        lemma_skip_to_line_end(s, step(p));
    }
}

proof fn lemma_skip_newlines(s: Seq<char>, p: LexPos)
    requires
        0 <= p.pos <= s.len(),
    ensures
        p.pos <= skip_newlines(s, p).pos <= s.len(),
        p.pos < s.len() && s[p.pos] == '\n' ==> p.pos < skip_newlines(s, p).pos,
    decreases s.len() - p.pos,
{
    if 0 <= p.pos < s.len() && s[p.pos] == '\n' {
        lemma_skip_newlines(s, LexPos { pos: p.pos + 1, line: p.line + 1, col: 1 });
    }
}

proof fn lemma_word_end(s: Seq<char>, i: int)
    requires
        0 <= i <= s.len(),
    ensures
        i <= word_end(s, i) <= s.len(),
    decreases s.len() - i,
{
    if 0 <= i < s.len() && is_word_char(s[i]) {
        lemma_word_end(s, i + 1);
    }
}

proof fn lemma_digits_end(s: Seq<char>, i: int)
    requires
        0 <= i <= s.len(),
    ensures
        i <= digits_end(s, i) <= s.len(),
    decreases s.len() - i,
{
    if 0 <= i < s.len() && spec_is_ascii_digit(s[i]) {
        lemma_digits_end(s, i + 1);
    }
}

/// Reading a token never moves the lexer back nor past the end of the text, and a token
/// that is read always takes at least one character.
pub proof fn lemma_next_token_progress(s: Seq<char>, p: LexPos)
    requires
        0 <= p.pos <= s.len(),
    ensures
        p.pos <= spec_next_token(s, p).1.pos <= s.len(),
        spec_next_token(s, p).0 matches Some(Ok(_)) ==> p.pos < spec_next_token(s, p).1.pos,
{
    let p1 = skip_blanks(s, p);
    lemma_skip_blanks(s, p);
    if 0 <= p1.pos < s.len() && s[p1.pos] == ';' {
        lemma_skip_to_line_end(s, step(p1));
    }
    let p2 = skip_comment(s, p1);
    if 0 <= p2.pos < s.len() {
        lemma_skip_newlines(s, p2);
        lemma_word_end(s, p2.pos);
        lemma_digits_end(s, p2.pos);
        if alphabetic(s[p2.pos]) {
            lemma_word_end(s, p2.pos + 1);
        }
    }
}

/// A token other than a line break is a slice of the text: its lexeme is the non-empty run
/// of characters that ends where the lexer stands after it, and starts no earlier than
/// where it stood before; a name's kind carries that same text.
pub proof fn lemma_lexeme_is_slice(s: Seq<char>, p: LexPos)
    requires
        0 <= p.pos <= s.len(),
    ensures
        match spec_next_token(s, p).0 {
            Some(Ok(t)) => !(t.kind is NewLine) ==> {
                let q = spec_next_token(s, p).1;
                &&& t.lexeme.len() > 0
                &&& p.pos <= q.pos - t.lexeme.len()
                &&& t.lexeme == s.subrange(q.pos - t.lexeme.len(), q.pos)
                &&& match t.kind {
                    TokenKind::Label(w) => w == t.lexeme,
                    TokenKind::Identifier(w) => w == t.lexeme,
                    TokenKind::Register(w) => w == t.lexeme,
                    TokenKind::Instruction(w) => w == t.lexeme,
                    TokenKind::DataDeclaration(w) => w == t.lexeme,
                    _ => true,
                }
            },
            _ => true,
        },
{
    lemma_next_token_progress(s, p);
    let p1 = skip_blanks(s, p);
    lemma_skip_blanks(s, p);
    if 0 <= p1.pos < s.len() && s[p1.pos] == ';' {
        lemma_skip_to_line_end(s, step(p1));
    }
    let p2 = skip_comment(s, p1);
    if 0 <= p2.pos < s.len() {
        lemma_word_end(s, p2.pos);
        lemma_digits_end(s, p2.pos);
        if alphabetic(s[p2.pos]) {
            lemma_word_end(s, p2.pos + 1);
        } else if numeric(s[p2.pos]) && spec_is_ascii_digit(s[p2.pos]) {
            lemma_digits_end(s, p2.pos + 1);
        }
    }
}

/// The value of what `next_token` returns.
pub open spec fn out_view<'a>(r: Option<Result<Token<'a>, LexerError>>) -> LexOut {
    match r {
        None => None,
        Some(Ok(t)) => Some(Ok(t@)),
        Some(Err(e)) => Some(Err(e@)),
    }
}

/// The lexer over one source text.
pub struct Lexer<'a> {
    /// The source text.
    pub stream: &'a str,
    /// The characters of the source text, read once so that each is reached in one step.
    pub chars: Vec<char>,
    pub tokens: Vec<Token<'a>>,
    /// The index of the next character to read, counted in characters, not in bytes: on
    /// text that is not all ASCII it is not a byte offset into `stream`.
    pub position: usize,
    pub cursor: usize,
    pub error: bool,
    pub line: usize,
    pub col: usize,
}

impl<'a> Lexer<'a> {
    /// The source text.
    pub open spec fn text(&self) -> Seq<char> {
        self.stream@
    }

    /// Where the lexer stands.
    pub open spec fn at(&self) -> LexPos {
        LexPos { pos: self.position as int, line: self.line as int, col: self.col as int }
    }

    /// The lexer is consistent, and reading the rest of the text cannot overflow the line
    /// or column counters.
    pub open spec fn wf(&self) -> bool {
        &&& self.chars@ == self.stream@
        &&& self.position <= self.chars.len()
        &&& self.line + (self.chars.len() - self.position) <= usize::MAX
        &&& self.col + (self.chars.len() - self.position) <= usize::MAX
    }

    /// Only the position, line and column differ between `self` and `other`.
    pub open spec fn same_but_at(&self, other: &Self) -> bool {
        &&& self.text() == other.text()
        &&& self.tokens == other.tokens
        &&& self.cursor == other.cursor
        &&& self.error == other.error
    }

    /// The line the lexer is on.
    pub fn current_line(&self) -> (r: usize)
        ensures
            r as int == self.at().line,
    {
        self.line
    }

    /// A lexer at the start of `stream`: first character, line 1, column 1.
    pub fn new(stream: &'a str) -> (r: Self)
        requires
            stream@.len() < usize::MAX,
        ensures
            r.wf(),
            r.text() == stream@,
            r.position == 0,
            r.line == 1,
            r.col == 1,
            r.tokens@.len() == 0,
            r.cursor == 0,
            !r.error,
    {
        let chars = collect_chars(stream);
        Lexer { stream, chars, tokens: Vec::new(), position: 0, cursor: 0, error: false, line: 1, col: 1 }
    }

    fn peek(&self) -> (r: Option<char>)
        requires
            self.wf(),
        ensures
            r == (if self.position < self.text().len() {
                Some(self.text()[self.position as int])
            } else {
                None::<char>
            }),
    {
        if self.position < self.chars.len() {
            Some(self.chars[self.position])
        } else {
            None
        }
    }

    fn consume(&mut self) -> (r: Option<char>)
        requires
            old(self).wf(),
        ensures
            final(self).wf(),
            final(self).same_but_at(old(self)),
            old(self).position < old(self).text().len() ==> r == Some(
                old(self).text()[old(self).position as int],
            ) && final(self).at() == step(old(self).at()),
            old(self).position >= old(self).text().len() ==> r is None && final(self).at()
                == old(self).at(),
    {
        if let Some(c) = self.peek() {
            self.position = self.position + 1;
            self.col = self.col + 1;
            Some(c)
        } else {
            None
        }
    }

    fn get_reserved_token(lexeme: &'a str) -> (r: TokenType<'a>)
        ensures
            r@ == reserved_kind(lexeme@),
    {
        if str_eq(lexeme, "setup") || str_eq(lexeme, "text") || str_eq(lexeme, "end") {
            TokenType::Label(lexeme)
        } else if str_eq(lexeme, "DATA") || str_eq(lexeme, "SPACE") || str_eq(lexeme, "ORG") {
            TokenType::DataDeclaration(lexeme)
        } else if str_eq(lexeme, "nop") || str_eq(lexeme, "add") || str_eq(lexeme, "sta")
            || str_eq(lexeme, "lda") || str_eq(lexeme, "or") || str_eq(lexeme, "and") || str_eq(
            lexeme,
            "not",
        ) || str_eq(lexeme, "jmp") || str_eq(lexeme, "jn") || str_eq(lexeme, "jz") || str_eq(
            lexeme,
            "hlt",
        ) || str_eq(lexeme, "sub") {
            TokenType::Instruction(lexeme)
        } else if str_eq(lexeme, "t0") || str_eq(lexeme, "t1") || str_eq(lexeme, "t2") || str_eq(
            lexeme,
            "t3",
        ) || str_eq(lexeme, "t4") {
            TokenType::Register(lexeme)
        } else {
            TokenType::Identfier(lexeme)
        }
    }

    fn skip_blank(&mut self)
        requires
            old(self).wf(),
        ensures
            final(self).wf(),
            final(self).same_but_at(old(self)),
            final(self).at() == skip_blanks(old(self).text(), old(self).at()),
    {
        let ghost s = self.text();
        let ghost p0 = self.at();
        loop
            invariant
                self.wf(),
                self.same_but_at(old(self)),
                s == self.text(),
                skip_blanks(s, self.at()) == skip_blanks(s, p0),
            ensures
                self.wf(),
                self.same_but_at(old(self)),
                self.at() == skip_blanks(s, p0),
            decreases s.len() - self.position,
        {
            match self.peek() {
                Some(c) => {
                    if c == ' ' || c == '\t' {
                        self.consume();
                    } else {
                        break;
                    }
                },
                None => {
                    break;
                },
            }
        }
    }

    fn new_line(&mut self) -> (r: Result<Token<'a>, LexerError>)
        requires
            old(self).wf(),
            old(self).position < old(self).text().len(),
            old(self).text()[old(self).position as int] == '\n',
        ensures
            final(self).wf(),
            final(self).same_but_at(old(self)),
            final(self).at() == skip_newlines(old(self).text(), old(self).at()),
            r matches Ok(t) && t@ == (TokenView {
                kind: TokenKind::NewLine,
                lexeme: "\n"@,
                line: final(self).line as int,
            }),
    {
        let ghost s = self.text();
        let ghost p0 = self.at();
        // the first line break
        self.consume();
        self.line = self.line + 1;
        self.col = 1;
        loop
            invariant
                self.wf(),
                self.same_but_at(old(self)),
                s == self.text(),
                skip_newlines(s, self.at()) == skip_newlines(s, p0),
            ensures
                self.wf(),
                self.same_but_at(old(self)),
                self.at() == skip_newlines(s, p0),
            decreases s.len() - self.position,
        {
            match self.peek() {
                Some(c) => {
                    if c != '\n' {
                        break;
                    }
                    self.consume();
                    self.line = self.line + 1;
                    self.col = 1;
                },
                None => {
                    break;
                },
            }
        }
        Ok(Token::new(TokenType::NewLine, "\n", self.line))
    }

    fn ignore_comments(&mut self)
        requires
            old(self).wf(),
        ensures
            final(self).wf(),
            final(self).same_but_at(old(self)),
            final(self).at() == skip_comment(old(self).text(), old(self).at()),
    {
        let ghost s = self.text();
        if let Some(c) = self.peek() {
            if c == ';' {
                let ghost p1 = step(old(self).at());
                self.consume();
                loop
                    invariant
                        self.wf(),
                        self.same_but_at(old(self)),
                        s == self.text(),
                        skip_to_line_end(s, self.at()) == skip_to_line_end(s, p1),
                    ensures
                        self.wf(),
                        self.same_but_at(old(self)),
                        self.at() == skip_to_line_end(s, p1),
                    decreases s.len() - self.position,
                {
                    match self.peek() {
                        Some(stop) => {
                            if stop == '\n' {
                                break;
                            } else {
                                self.consume();
                            }
                        },
                        None => {
                            break;
                        },
                    }
                }
            }
        }
    }

    fn consume_alpha(&mut self) -> (r: Result<Token<'a>, LexerError>)
        requires
            old(self).wf(),
        ensures
            final(self).wf(),
            final(self).same_but_at(old(self)),
            ({
                let s = old(self).text();
                let p = old(self).at();
                let e = word_end(s, p.pos);
                let w = s.subrange(p.pos, e);
                &&& final(self).at() == step_to(p, e)
                &&& r matches Ok(t) && t@ == (TokenView {
                    kind: reserved_kind(w),
                    lexeme: w,
                    line: p.line,
                })
            }),
    {
        let ghost s = self.text();
        let ghost p0 = self.at();
        let start_idx = self.position;
        loop
            invariant
                self.wf(),
                self.same_but_at(old(self)),
                s == self.text(),
                start_idx <= self.position,
                word_end(s, self.position as int) == word_end(s, start_idx as int),
                self.at() == step_to(p0, self.position as int),
            ensures
                self.wf(),
                self.same_but_at(old(self)),
                start_idx <= self.position,
                self.position == word_end(s, start_idx as int),
                self.at() == step_to(p0, self.position as int),
            decreases s.len() - self.position,
        {
            match self.peek() {
                Some(c) => {
                    if !(is_alphabetic(c) || is_ascii_digit(c)) {
                        break;
                    } else {
                        self.consume();
                    }
                },
                None => {
                    break;
                },
            }
        }
        let lexeme = self.stream.substring_char(start_idx, self.position);
        let kind = Lexer::get_reserved_token(lexeme);
        Ok(Token::new(kind, lexeme, self.line))
    }

    fn consume_numeric(&mut self) -> (r: Result<Token<'a>, LexerError>)
        requires
            old(self).wf(),
        ensures
            final(self).wf(),
            final(self).same_but_at(old(self)),
            ({
                let s = old(self).text();
                let p = old(self).at();
                let e = digits_end(s, p.pos);
                let w = s.subrange(p.pos, e);
                let q = step_to(p, e);
                &&& final(self).at() == q
                &&& match spec_parse_u8(w) {
                    Some(n) => r matches Ok(t) && t@ == (TokenView {
                        kind: TokenKind::Num(n),
                        lexeme: w,
                        line: p.line,
                    }),
                    None => r matches Err(e) && e@ == msg_number_out_of_bounds(w, q.line, q.col),
                }
            }),
    {
        let ghost s = self.text();
        let ghost p0 = self.at();
        let start_idx = self.position;
        loop
            invariant
                self.wf(),
                self.same_but_at(old(self)),
                s == self.text(),
                start_idx <= self.position,
                digits_end(s, self.position as int) == digits_end(s, start_idx as int),
                self.at() == step_to(p0, self.position as int),
                forall|i: int| start_idx <= i < self.position ==> spec_is_ascii_digit(#[trigger] s[i]),
            ensures
                self.wf(),
                self.same_but_at(old(self)),
                start_idx <= self.position,
                self.position == digits_end(s, start_idx as int),
                self.at() == step_to(p0, self.position as int),
                forall|i: int| start_idx <= i < self.position ==> spec_is_ascii_digit(#[trigger] s[i]),
            decreases s.len() - self.position,
        {
            match self.peek() {
                Some(c) => {
                    if !is_ascii_digit(c) {
                        break;
                    } else {
                        self.consume();
                    }
                },
                None => {
                    break;
                },
            }
        }
        let lex_str = self.stream.substring_char(start_idx, self.position);
        assert(all_ascii_digits(lex_str@));
        match parse_u8(lex_str) {
            Some(num) => Ok(Token::new(TokenType::Num(num), lex_str, self.line)),
            None => {
                let mut m = String::new();
                push_str(&mut m, "Error: number '");
                push_str(&mut m, lex_str);
                push_str(&mut m, "' out of bounds expected (0-255) at: ");
                push_decimal(&mut m, self.line);
                push_str(&mut m, ":");
                push_decimal(&mut m, self.col);
                Err(LexerError::new(m))
            },
        }
    }

    /// Reads the next token: `None` at the end of the text, else the token or the error
    /// that `spec_next_token` describes.
    pub fn next_token(&mut self) -> (r: Option<Result<Token<'a>, LexerError>>)
        requires
            old(self).wf(),
        ensures
            final(self).wf(),
            final(self).same_but_at(old(self)),
            (out_view(r), final(self).at()) == spec_next_token(old(self).text(), old(self).at()),
    {
        self.skip_blank();
        self.ignore_comments();
        let c = match self.peek() {
            Some(c) => c,
            None => {
                return None;
            },
        };
        if c == '\n' {
            Some(self.new_line())
        } else if is_alphabetic(c) {
            Some(self.consume_alpha())
        } else if is_numeric(c) {
            Some(self.consume_numeric())
        } else {
            let mut m = String::new();
            push_str(&mut m, "Error: unexpected symbol '");
            push_char(&mut m, c);
            push_str(&mut m, "' at ");
            push_decimal(&mut m, self.line);
            push_str(&mut m, ":");
            push_decimal(&mut m, self.col);
            assert(m@ =~= msg_unexpected_symbol(c, self.line as int, self.col as int));
            Some(Err(LexerError::new(m)))
        }
    }
}

} // verus!
