//! The expression parser: numbers and parenthesised expressions joined by `+` and `-`,
//! left to right.
use vstd::prelude::*;
use crate::calc::lexer::{
    lemma_next_token_progress, out_view, spec_next_token, CalcPos, Lexer, LexerError, Token,
    TokenType,
};
use crate::text::{decimal, push_decimal, push_str};

verus! {

/// An error of the parser.
#[derive(Debug)]
pub struct ParserError {
    pub error: String,
}

impl View for ParserError {
    type V = Seq<char>;

    open spec fn view(&self) -> Seq<char> {
        self.error@
    }
}

impl ParserError {
    /// An error with the given message.
    pub fn new(message: String) -> (r: Self)
        ensures
            r@ == message@,
    {
        ParserError { error: message }
    }

    /// The error as it is shown: `Parser Error: ` and the message.
    pub fn to_string(&self) -> (r: String)
        ensures
            r@ == "Parser Error: "@ + self@,
    {
        let mut s = String::new();
        push_str(&mut s, "Parser Error: ");
        push_str(&mut s, self.error.as_str());
        s
    }
}

/// An error of the calculator: of the lexer or of the parser.
#[derive(Debug)]
pub enum CalcError {
    Lexer(LexerError),
    Parser(ParserError),
}

/// A calculator error as values.
pub enum CalcErrView {
    Lexer(Seq<char>),
    Parser(Seq<char>),
}

impl View for CalcError {
    type V = CalcErrView;

    open spec fn view(&self) -> CalcErrView {
        match self {
            CalcError::Lexer(e) => CalcErrView::Lexer(e@),
            CalcError::Parser(e) => CalcErrView::Parser(e@),
        }
    }
}

impl CalcError {
    /// The error as it is shown.
    pub fn to_string(&self) -> (r: String)
        ensures
            r@ == match self@ {
                CalcErrView::Lexer(m) => "Lexical Error: "@ + m,
                CalcErrView::Parser(m) => "Parser Error: "@ + m,
            },
    {
        match self {
            CalcError::Lexer(e) => e.to_string(),
            CalcError::Parser(e) => e.to_string(),
        }
    }
}

/// An expression tree.
pub enum AST {
    Number(u8),
    Add(Box<AST>, Box<AST>),
    Sub(Box<AST>, Box<AST>),
}

/// The depth of an expression tree.
pub open spec fn height(t: AST) -> nat
    decreases t,
{
    match t {
        AST::Number(_) => 0,
        AST::Add(l, r) => 1 + if height(*l) >= height(*r) { height(*l) } else { height(*r) },
        AST::Sub(l, r) => 1 + if height(*l) >= height(*r) { height(*l) } else { height(*r) },
    }
}

/// Four spaces for each level.
pub open spec fn indent(level: nat) -> Seq<char>
    decreases level,
{
    if level == 0 {
        Seq::empty()
    } else {
        indent((level - 1) as nat) + "    "@
    }
}

/// The tree drawn on its side: the left operand one level deeper, the operator, the
/// right operand one level deeper; each number and operator on a line of its own.
pub open spec fn rendering(t: AST, level: nat) -> Seq<char>
    decreases t,
{
    match t {
        AST::Number(n) => indent(level) + decimal(n as nat) + "\n"@,
        AST::Add(l, r) => rendering(*l, level + 1) + indent(level) + "+"@ + "\n"@ + rendering(
            *r,
            level + 1,
        ),
        AST::Sub(l, r) => rendering(*l, level + 1) + indent(level) + "-"@ + "\n"@ + rendering(
            *r,
            level + 1,
        ),
    }
}

fn push_indent(s: &mut String, level: usize)
    ensures
        final(s)@ == old(s)@ + indent(level as nat),
{
    let mut i: usize = 0;
    while i < level
        invariant
            i <= level,
            s@ == old(s)@ + indent(i as nat),
        decreases level - i,
    {
        push_str(s, "    ");
        i = i + 1;
        assert(s@ =~= old(s)@ + indent(i as nat));
    }
}

impl AST {
    /// The text that shows the tree, starting at indentation `level`, as `rendering`
    /// describes.
    pub fn render(&self, level: usize) -> (r: String)
        requires
            level + height(*self) <= usize::MAX / 4,
        ensures
            r@ == rendering(*self, level as nat),
        decreases self,
    {
        let mut s = String::new();
        match self {
            AST::Add(left, right) => {
                let l = left.render(level + 1);
                push_str(&mut s, l.as_str());
                push_indent(&mut s, level);
                push_str(&mut s, "+");
                push_str(&mut s, "\n");
                let r = right.render(level + 1);
                push_str(&mut s, r.as_str());
            },
            AST::Sub(left, right) => {
                let l = left.render(level + 1);
                push_str(&mut s, l.as_str());
                push_indent(&mut s, level);
                push_str(&mut s, "-");
                push_str(&mut s, "\n");
                let r = right.render(level + 1);
                push_str(&mut s, r.as_str());
            },
            AST::Number(num) => {
                push_indent(&mut s, level);
                push_decimal(&mut s, *num as usize);
                push_str(&mut s, "\n");
            },
        }
        assert(s@ =~= rendering(*self, level as nat));
        s
    }
}

/// Where the parser stands: the lexer's position and the token it looks at.
pub struct CState {
    pub lex: CalcPos,
    pub la: Option<Token>,
}

/// The result of a parsing step and where the parser stands after it.
pub type CResult<T> = (Result<T, CalcErrView>, CState);

/// Twice the characters left, plus one while a token is looked at.
pub open spec fn measure(s: Seq<char>, st: CState) -> nat {
    2 * (if 0 <= st.lex.pos <= s.len() { (s.len() - st.lex.pos) as nat } else { 0 }) + (if st.la
        is Some {
        1nat
    } else {
        0nat
    })
}

/// Takes the next token as the one looked at; a lexical error is returned and leaves no
/// token looked at.
pub open spec fn spec_advance(s: Seq<char>, st: CState) -> CResult<()> {
    let (o, p) = spec_next_token(s, st.lex);
    match o {
        Some(Ok(t)) => (Ok(()), CState { lex: p, la: Some(t) }),
        Some(Err(e)) => (Err(CalcErrView::Lexer(e)), CState { lex: p, la: None }),
        None => (Ok(()), CState { lex: p, la: None }),
    }
}

/// How a token kind is shown by `{:?}`.
pub open spec fn kind_debug(k: TokenType) -> Seq<char> {
    match k {
        TokenType::Number(n) => "Number("@ + decimal(n as nat) + ")"@,
        TokenType::Plus => "Plus"@,
        TokenType::Minus => "Minus"@,
        TokenType::LParen => "LParen"@,
        TokenType::RParen => "RParen"@,
    }
}

/// The message for a token where a closing parenthesis was needed.
pub open spec fn msg_expected_rparen(k: TokenType) -> Seq<char> {
    "Unexpected token: "@ + kind_debug(k) + ". Was expecting ')'"@
}

/// The message for a token where a number was needed.
pub open spec fn msg_unexpected_token(k: TokenType) -> Seq<char> {
    "Unexpected token: "@ + kind_debug(k) + ". Was expecting a number"@
}

/// Takes a factor: a number, or an expression in parentheses.
pub open spec fn spec_parse_factor(s: Seq<char>, st: CState) -> CResult<AST>
    decreases measure(s, st), 0nat,
{
    match st.la {
        Some(t) => match t.kind {
            TokenType::Number(n) => {
                let (r, st2) = spec_advance(s, st);
                (
                    match r {
                        Ok(_) => Ok(AST::Number(n)),
                        Err(e) => Err(e),
                    },
                    st2,
                )
            },
            TokenType::LParen => {
                let (r1, st1) = spec_advance(s, st);
                match r1 {
                    Err(e) => (Err(e), st1),
                    Ok(_) => if measure(s, st1) < measure(s, st) {
                        let (r2, st2) = spec_parse_expr(s, st1);
                        match r2 {
                            Err(e) => (Err(e), st2),
                            Ok(inner) => match st2.la {
                                Some(t2) => if t2.kind is RParen {
                                    let (r3, st3) = spec_advance(s, st2);
                                    (
                                        match r3 {
                                            Ok(_) => Ok(inner),
                                            Err(e) => Err(e),
                                        },
                                        st3,
                                    )
                                } else {
                                    (Err(CalcErrView::Parser(msg_expected_rparen(t2.kind))), st2)
                                },
                                None => (Err(CalcErrView::Parser("Was expecting ')'"@)), st2),
                            },
                        }
                    } else {
                        (Err(CalcErrView::Parser("Was expecting number"@)), st1)
                    },
                }
            },
            k => (Err(CalcErrView::Parser(msg_unexpected_token(k))), st),
        },
        None => (Err(CalcErrView::Parser("Was expecting number"@)), st),
    }
}

/// Extends `left` with `+ factor` or `- factor` while such an operator is looked at.
pub open spec fn spec_expr_rest(s: Seq<char>, st: CState, left: AST) -> CResult<AST>
    decreases measure(s, st), 2nat,
{
    match st.la {
        Some(t) => if t.kind is Plus || t.kind is Minus {
            let (r1, st1) = spec_advance(s, st);
            match r1 {
                Err(e) => (Err(e), st1),
                Ok(_) => if measure(s, st1) < measure(s, st) {
                    let (r2, st2) = spec_parse_factor(s, st1);
                    match r2 {
                        Err(e) => (Err(e), st2),
                        Ok(right) => {
                            let node = if t.kind is Plus {
                                AST::Add(Box::new(left), Box::new(right))
                            } else {
                                AST::Sub(Box::new(left), Box::new(right))
                            };
                            if measure(s, st2) < measure(s, st) {
                                spec_expr_rest(s, st2, node)
                            } else {
                                (Ok(node), st2)
                            }
                        },
                    }
                } else {
                    (Ok(left), st1)
                },
            }
        } else {
            (Ok(left), st)
        },
        None => (Ok(left), st),
    }
}

/// Takes an expression: a factor, then any number of `+ factor` and `- factor`, grouped
/// from the left.
pub open spec fn spec_parse_expr(s: Seq<char>, st: CState) -> CResult<AST>
    decreases measure(s, st), 1nat,
{
    let (r, st1) = spec_parse_factor(s, st);
    match r {
        Err(e) => (Err(e), st1),
        Ok(left) => if measure(s, st1) < measure(s, st) {
            spec_expr_rest(s, st1, left)
        } else {
            (Ok(left), st1)
        },
    }
}

/// A result with the error taken by its view.
pub open spec fn err_view<T>(r: Result<T, CalcError>) -> Result<T, CalcErrView> {
    match r {
        Ok(v) => Ok(v),
        Err(e) => Err(e@),
    }
}

/// The expression parser.
pub struct CalcParser<'a> {
    lexer: Lexer<'a>,
    lookahead: Option<Token>,
}

impl<'a> CalcParser<'a> {
    /// The text.
    pub closed spec fn text(&self) -> Seq<char> {
        self.lexer.text()
    }

    /// Where the parser stands.
    pub closed spec fn state(&self) -> CState {
        CState { lex: self.lexer.at(), la: self.lookahead }
    }

    /// The parser is consistent.
    pub closed spec fn wf(&self) -> bool {
        self.lexer.wf()
    }

    /// A parser over `lexer`, looking at its first token; a lexical error on that token is
    /// returned.
    pub fn new(lexer: Lexer<'a>) -> (r: Result<Self, LexerError>)
        requires
            lexer.wf(),
        ensures
            ({
                let (o, p) = spec_next_token(lexer.text(), lexer.at());
                match o {
                    Some(Err(e)) => r matches Err(x) && x@ == e,
                    Some(Ok(t)) => r matches Ok(c) && c.wf() && c.text() == lexer.text()
                        && c.state() == (CState { lex: p, la: Some(t) }),
                    None => r matches Ok(c) && c.wf() && c.text() == lexer.text() && c.state() == (
                    CState { lex: p, la: None }),
                }
            }),
    {
        let mut lexer = lexer;
        let lookahead = match lexer.next_token() {
            Some(Ok(t)) => Some(t),
            Some(Err(e)) => {
                return Err(e);
            },
            None => None,
        };
        Ok(CalcParser { lexer, lookahead })
    }

    fn peek_kind(&self) -> (r: Option<TokenType>)
        ensures
            r == (match self.lookahead {
                Some(t) => Some(t.kind),
                None => None::<TokenType>,
            }),
    {
        match &self.lookahead {
            Some(t) => Some(t.kind),
            None => None,
        }
    }

    fn advance(&mut self) -> (r: Result<(), LexerError>)
        requires
            old(self).wf(),
        ensures
            final(self).wf(),
            final(self).text() == old(self).text(),
            (match r {
                Ok(_) => Ok(()),
                Err(e) => Err(CalcErrView::Lexer(e@)),
            }, final(self).state()) == spec_advance(old(self).text(), old(self).state()),
            measure(final(self).text(), final(self).state()) <= measure(
                old(self).text(),
                old(self).state(),
            ),
            old(self).state().la is Some ==> measure(final(self).text(), final(self).state())
                < measure(old(self).text(), old(self).state()),
    {
        proof {
            lemma_next_token_progress(self.lexer.text(), self.lexer.at());
        }
        match self.lexer.next_token() {
            Some(Ok(t)) => {
                self.lookahead = Some(t);
                Ok(())
            },
            Some(Err(e)) => {
                self.lookahead = None;
                Err(e)
            },
            None => {
                self.lookahead = None;
                Ok(())
            },
        }
    }

    fn parse_factor(&mut self) -> (r: Result<AST, CalcError>)
        requires
            old(self).wf(),
        ensures
            final(self).wf(),
            final(self).text() == old(self).text(),
            (err_view(r), final(self).state()) == spec_parse_factor(old(self).text(), old(self).state()),
            measure(final(self).text(), final(self).state()) <= measure(
                old(self).text(),
                old(self).state(),
            ),
            r is Ok ==> measure(final(self).text(), final(self).state()) < measure(
                old(self).text(),
                old(self).state(),
            ),
        decreases measure(old(self).text(), old(self).state()), 0nat,
    {
        match self.peek_kind() {
            Some(TokenType::Number(num)) => {
                let node = AST::Number(num);
                match self.advance() {
                    Ok(()) => Ok(node),
                    Err(e) => Err(CalcError::Lexer(e)),
                }
            },
            Some(TokenType::LParen) => {
                match self.advance() {
                    Ok(()) => {},
                    Err(e) => {
                        return Err(CalcError::Lexer(e));
                    },
                }
                let ghost st1 = self.state();
                let inner = self.parse_expr()?;
                match self.peek_kind() {
                    Some(TokenType::RParen) => match self.advance() {
                        Ok(()) => Ok(inner),
                        Err(e) => Err(CalcError::Lexer(e)),
                    },
                    Some(kind) => {
                        let mut m = String::new();
                        push_str(&mut m, "Unexpected token: ");
                        Self::push_kind(&mut m, kind);
                        push_str(&mut m, ". Was expecting ')'");
                        Err(CalcError::Parser(ParserError::new(m)))
                    },
                    None => {
                        let mut m = String::new();
                        push_str(&mut m, "Was expecting ')'");
                        Err(CalcError::Parser(ParserError::new(m)))
                    },
                }
            },
            Some(kind) => {
                let mut m = String::new();
                push_str(&mut m, "Unexpected token: ");
                Self::push_kind(&mut m, kind);
                push_str(&mut m, ". Was expecting a number");
                Err(CalcError::Parser(ParserError::new(m)))
            },
            None => {
                let mut m = String::new();
                push_str(&mut m, "Was expecting number");
                Err(CalcError::Parser(ParserError::new(m)))
            },
        }
    }

    fn push_kind(m: &mut String, kind: TokenType)
        ensures
            final(m)@ == old(m)@ + kind_debug(kind),
    {
        match kind {
            TokenType::Number(n) => {
                push_str(m, "Number(");
                push_decimal(m, n as usize);
                push_str(m, ")");
            },
            TokenType::Plus => push_str(m, "Plus"),
            TokenType::Minus => push_str(m, "Minus"),
            TokenType::LParen => push_str(m, "LParen"),
            TokenType::RParen => push_str(m, "RParen"),
        }
    }

    /// Parses an expression, as `spec_parse_expr` describes.
    pub fn parse_expr(&mut self) -> (r: Result<AST, CalcError>)
        requires
            old(self).wf(),
        ensures
            final(self).wf(),
            final(self).text() == old(self).text(),
            (err_view(r), final(self).state()) == spec_parse_expr(old(self).text(), old(self).state()),
            measure(final(self).text(), final(self).state()) <= measure(
                old(self).text(),
                old(self).state(),
            ),
        decreases measure(old(self).text(), old(self).state()), 1nat,
    {
        let ghost s = self.text();
        let ghost m0 = measure(s, self.state());
        let mut left = self.parse_factor()?;
        loop
            invariant
                self.wf(),
                s == self.text(),
                s == old(self).text(),
                m0 == measure(s, old(self).state()),
                measure(s, self.state()) < m0,
                spec_expr_rest(s, self.state(), left) == spec_parse_expr(s, old(self).state()),
            decreases measure(s, self.state()),
        {
            let ghost before = self.state();
            match self.peek_kind() {
                Some(kind) => {
                    let is_plus = match kind {
                        TokenType::Plus => true,
                        _ => false,
                    };
                    let is_minus = match kind {
                        TokenType::Minus => true,
                        _ => false,
                    };
                    if is_plus || is_minus {
                        match self.advance() {
                            Ok(()) => {},
                            Err(e) => {
                                return Err(CalcError::Lexer(e));
                            },
                        }
                        let right = self.parse_factor()?;
                        if is_plus {
                            left = AST::Add(Box::new(left), Box::new(right));
                        } else {
                            left = AST::Sub(Box::new(left), Box::new(right));
                        }
                    } else {
                        return Ok(left);
                    }
                },
                None => {
                    return Ok(left);
                },
            }
        }
    }
}

} // verus!
