//! The assembly parser: a `setup` section of data declarations and a `text` section of
//! instructions, read token by token from the lexer.
use vstd::prelude::*;
use vstd::string::*;
use crate::assembler::codegen::{
    Entries, Layout, LayoutOut, SymbolTable, SyntaxError, layout, lookup, with_registers,
};
use crate::assembler::lexer::{
    kind_name, lemma_next_token_progress, out_view, spec_next_token, LexPos, Lexer,
    LexerError, Token, TokenKind, TokenType, TokenView,
};
use crate::text::{byte_rows, decimal, push_byte_rows, push_decimal, push_str, str_eq};

verus! {

broadcast use vstd::string::group_string_axioms;

/// A declaration of the `setup` section.
#[derive(Debug, PartialEq)]
pub enum DataDecl {
    /// A name for one byte with an initial value.
    Data(String, u8),
    /// A name for a block of bytes.
    Space(String, u8),
    /// The address where the code starts.
    Org(u8),
}

/// A declaration as values.
pub enum DeclView {
    Data(Seq<char>, u8),
    Space(Seq<char>, u8),
    Org(u8),
}

impl View for DataDecl {
    type V = DeclView;

    open spec fn view(&self) -> DeclView {
        match self {
            DataDecl::Data(s, v) => DeclView::Data(s@, *v),
            DataDecl::Space(s, v) => DeclView::Space(s@, *v),
            DataDecl::Org(a) => DeclView::Org(*a),
        }
    }
}

/// The declarations as values.
pub open spec fn decls_view(ds: Seq<DataDecl>) -> Seq<DeclView> {
    Seq::new(ds.len(), |i: int| ds[i]@)
}

/// The pseudo-registers, at the top five addresses of memory.
#[derive(Debug, PartialEq, Eq, Clone, Copy)]
pub enum Register {
    T0,
    T1,
    T2,
    T3,
    T4,
}

/// The address of a pseudo-register: `t0` is 251, up to `t4` at 255.
pub open spec fn register_address(r: Register) -> u8 {
    match r {
        Register::T0 => 251,
        Register::T1 => 252,
        Register::T2 => 253,
        Register::T3 => 254,
        Register::T4 => 255,
    }
}

impl Register {
    /// The memory address of this register.
    pub fn address(&self) -> (r: u8)
        ensures
            r == register_address(*self),
    {
        match self {
            Register::T0 => 251,
            Register::T1 => 252,
            Register::T2 => 253,
            Register::T3 => 254,
            Register::T4 => 255,
        }
    }
}

/// What an instruction works on: a pseudo-register or a declared name.
#[derive(Debug, PartialEq)]
pub enum Operand {
    Register(Register),
    Symbol(String),
}

/// An operand as values.
pub enum OperandView {
    Register(Register),
    Symbol(Seq<char>),
}

impl View for Operand {
    type V = OperandView;

    open spec fn view(&self) -> OperandView {
        match self {
            Operand::Register(r) => OperandView::Register(*r),
            Operand::Symbol(s) => OperandView::Symbol(s@),
        }
    }
}

/// The shape of the result of a parsing step: a value or an error message, and where the
/// parser stands after it.
pub type PResult<T> = (Result<T, Seq<char>>, PState);

/// Where the parser stands: the lexer's position, the token it looks at (none at the end
/// of the text and after a lexical error), and whether no lexical error was met.
pub struct PState {
    pub lex: LexPos,
    pub la: Option<TokenView>,
    pub valid: bool,
}

/// Twice the characters left, plus one while a token is looked at; every step that takes
/// a token makes it smaller.
pub open spec fn measure(s: Seq<char>, st: PState) -> nat {
    2 * (if 0 <= st.lex.pos <= s.len() { (s.len() - st.lex.pos) as nat } else { 0 }) + (if st.la
        is Some {
        1nat
    } else {
        0nat
    })
}

/// Takes the next token from the lexer as the one looked at; a lexical error is returned,
/// and leaves no token looked at and the parser marked invalid.
pub open spec fn spec_advance(s: Seq<char>, st: PState) -> PResult<()> {
    let (o, p) = spec_next_token(s, st.lex);
    match o {
        Some(Ok(t)) => (Ok(()), PState { lex: p, la: Some(t), valid: st.valid }),
        Some(Err(e)) => (Err(e), PState { lex: p, la: None, valid: false }),
        None => (Ok(()), PState { lex: p, la: None, valid: st.valid }),
    }
}

/// Takes the next token and gives `v` back, unless that meets a lexical error.
pub open spec fn advance_with<T>(s: Seq<char>, st: PState, v: T) -> PResult<T> {
    let (r, st2) = spec_advance(s, st);
    (
        match r {
            Ok(_) => Ok(v),
            Err(e) => Err(e),
        },
        st2,
    )
}

/// The line of the token looked at, or the lexer's line when there is none.
pub open spec fn current_line(st: PState) -> int {
    match st.la {
        Some(t) => t.line,
        None => st.lex.line,
    }
}

/// The message for a token of the wrong kind.
pub open spec fn msg_expected(line: int, what: Seq<char>, found: Seq<char>) -> Seq<char> {
    "Syntax error at line "@ + decimal(line as nat) + ". Expected "@ + what + ", but found '"@
        + found + "'."@
}

/// The message for the end of the text where a token was needed.
pub open spec fn msg_eof_expecting(what: Seq<char>) -> Seq<char> {
    "Unexpected end of file. Expecting "@ + what
}

/// The message for a register name that is not one of `t0` to `t4`.
pub open spec fn msg_unknown_register(name: Seq<char>) -> Seq<char> {
    "Unkown register '"@ + name + "'"@
}

/// The message for a token that is no operand.
pub open spec fn msg_expected_operand(line: int, found: Seq<char>) -> Seq<char> {
    "Expected Operand at line "@ + decimal(line as nat) + " but found '"@ + found + "'"@
}

/// The message for a token that is not the label that opens or closes a section.
pub open spec fn msg_wrong_label(line: int, label: Seq<char>, found: Seq<char>) -> Seq<char> {
    "Syntax error at "@ + decimal(line as nat) + ", expected label '"@ + label + "', but found "@
        + found
}

/// The message for the end of the text where a label was needed.
pub open spec fn msg_label_eof(label: Seq<char>, line: int) -> Seq<char> {
    "Unexpected end of file. Expected label '"@ + label + "' at line "@ + decimal(line as nat)
}

/// A result with the error taken by its message.
pub open spec fn err_view<T>(r: Result<T, LexerError>) -> Result<T, Seq<char>> {
    match r {
        Ok(v) => Ok(v),
        Err(e) => Err(e@),
    }
}

/// A result with the value taken by its view and the error by its message.
pub open spec fn res_view<T: View>(r: Result<T, LexerError>) -> Result<T::V, Seq<char>> {
    match r {
        Ok(v) => Ok(v@),
        Err(e) => Err(e@),
    }
}

/// The spec view of the token looked at.
pub open spec fn la_view<'a>(la: Option<Token<'a>>) -> Option<TokenView> {
    match la {
        Some(t) => Some(t@),
        None => None,
    }
}

/// Skips the line breaks that are looked at.
pub open spec fn spec_consume_blanks(s: Seq<char>, st: PState) -> PResult<()>
    decreases measure(s, st),
{
    if st.la matches Some(t) && t.kind is NewLine {
        let (r, st2) = spec_advance(s, st);
        match r {
            Err(e) => (Err(e), st2),
            Ok(_) => if measure(s, st2) < measure(s, st) {
                spec_consume_blanks(s, st2)
            } else {
                (Ok(()), st2)
            },
        }
    } else {
        (Ok(()), st)
    }
}

/// Takes an identifier and gives its name.
pub open spec fn spec_expect_identifier(s: Seq<char>, st: PState) -> PResult<Seq<char>> {
    match st.la {
        Some(t) => match t.kind {
            TokenKind::Identifier(name) => advance_with(s, st, name),
            k => (Err(msg_expected(t.line, "Identifier"@, kind_name(k))), st),
        },
        None => (Err(msg_eof_expecting("Identifier"@)), st),
    }
}

/// Takes a number and gives its value.
pub open spec fn spec_expect_number(s: Seq<char>, st: PState) -> PResult<u8> {
    match st.la {
        Some(t) => match t.kind {
            TokenKind::Num(n) => advance_with(s, st, n),
            k => (Err(msg_expected(t.line, "u8 number (0-255)"@, kind_name(k))), st),
        },
        None => (Err(msg_eof_expecting("u8 number (0-255)"@)), st),
    }
}

/// Takes an instruction mnemonic and gives it.
pub open spec fn spec_expect_instruction(s: Seq<char>, st: PState) -> PResult<Seq<char>> {
    match st.la {
        Some(t) => match t.kind {
            TokenKind::Instruction(i) => advance_with(s, st, i),
            k => (Err(msg_expected(t.line, "instruction"@, kind_name(k))), st),
        },
        None => (Err(msg_eof_expecting("instruction"@)), st),
    }
}

/// Takes `DATA`, `SPACE` or `ORG` and gives it.
pub open spec fn spec_expect_data_declaration(s: Seq<char>, st: PState) -> PResult<Seq<char>> {
    match st.la {
        Some(t) => match t.kind {
            TokenKind::DataDeclaration(d) => advance_with(s, st, d),
            k => (Err(msg_expected(t.line, "data statement"@, kind_name(k))), st),
        },
        None => (Err(msg_eof_expecting("data statement"@)), st),
    }
}

/// Takes an operand: a register or a name.
pub open spec fn spec_expect_operand(s: Seq<char>, st: PState) -> PResult<OperandView> {
    match st.la {
        Some(t) => match t.kind {
            TokenKind::Register(name) => if name == "t0"@ {
                advance_with(s, st, OperandView::Register(Register::T0))
            } else if name == "t1"@ {
                advance_with(s, st, OperandView::Register(Register::T1))
            } else if name == "t2"@ {
                advance_with(s, st, OperandView::Register(Register::T2))
            } else if name == "t3"@ {
                advance_with(s, st, OperandView::Register(Register::T3))
            } else if name == "t4"@ {
                advance_with(s, st, OperandView::Register(Register::T4))
            } else {
                (Err(msg_unknown_register(name)), st)
            },
            TokenKind::Identifier(name) => advance_with(s, st, OperandView::Symbol(name)),
            k => (Err(msg_expected_operand(t.line, kind_name(k))), st),
        },
        None => (Err("Unexpected EOF"@), st),
    }
}

/// Takes the label `label`.
pub open spec fn spec_expect_label(s: Seq<char>, st: PState, label: Seq<char>) -> PResult<()> {
    match st.la {
        Some(t) => if t.kind == TokenKind::Label(label) {
            advance_with(s, st, ())
        } else {
            (Err(msg_wrong_label(t.line, label, kind_name(t.kind))), st)
        },
        None => (Err(msg_label_eof(label, st.lex.line)), st),
    }
}

/// The assembly parser.
pub struct ParserT<'a> {
    pub lexer: Lexer<'a>,
    pub lookahead: Option<Token<'a>>,
    pub valid: bool,
    pub symbols: SymbolTable,
    pub program: Option<Program>,
    /// The lexical error met on the first token, which the command line tools report.
    pub init_error: Option<LexerError>,
}

/// An instruction of the `text` section.
#[derive(Debug, PartialEq)]
pub enum Instruction {
    Add(Operand),
    Lda(Operand),
    Sta(Operand),
    Hlt,
    Nop,
    Jmp(Operand),
    Jz(Operand),
    Jn(Operand),
    Not(Operand),
    Or(Operand),
    And(Operand),
    /// A macro: subtracts the operand from the accumulator.
    Sub(Operand),
}

/// An instruction as values.
pub enum InstrView {
    Add(OperandView),
    Lda(OperandView),
    Sta(OperandView),
    Hlt,
    Nop,
    Jmp(OperandView),
    Jz(OperandView),
    Jn(OperandView),
    Not(OperandView),
    Or(OperandView),
    And(OperandView),
    Sub(OperandView),
}

impl View for Instruction {
    type V = InstrView;

    open spec fn view(&self) -> InstrView {
        match self {
            Instruction::Add(o) => InstrView::Add(o@),
            Instruction::Lda(o) => InstrView::Lda(o@),
            Instruction::Sta(o) => InstrView::Sta(o@),
            Instruction::Hlt => InstrView::Hlt,
            Instruction::Nop => InstrView::Nop,
            Instruction::Jmp(o) => InstrView::Jmp(o@),
            Instruction::Jz(o) => InstrView::Jz(o@),
            Instruction::Jn(o) => InstrView::Jn(o@),
            Instruction::Not(o) => InstrView::Not(o@),
            Instruction::Or(o) => InstrView::Or(o@),
            Instruction::And(o) => InstrView::And(o@),
            Instruction::Sub(o) => InstrView::Sub(o@),
        }
    }
}

/// A parsed program: its declarations and its instructions.
pub struct Program {
    pub setup: Vec<DataDecl>,
    pub text: Vec<Instruction>,
}

/// A program as values.
pub struct ProgramView {
    pub setup: Seq<DeclView>,
    pub text: Seq<InstrView>,
}

/// The instructions as values.
pub open spec fn instrs_view(is: Seq<Instruction>) -> Seq<InstrView> {
    Seq::new(is.len(), |i: int| is[i]@)
}

impl View for Program {
    type V = ProgramView;

    open spec fn view(&self) -> ProgramView {
        ProgramView { setup: decls_view(self.setup@), text: instrs_view(self.text@) }
    }
}

/// The message for a data declaration that is neither `DATA` nor `SPACE` after a name.
pub open spec fn msg_data_or_space(line: int, found: Seq<char>) -> Seq<char> {
    "Error at line "@ + decimal(line as nat) + ". Expected 'DATA' or 'SPACE' but found '"@ + found
        + "'"@
}

/// The message for a token that cannot start a data declaration.
pub open spec fn msg_unexpected_data_token(line: int, found: Seq<char>) -> Seq<char> {
    "Unexpected token at line "@ + decimal(line as nat) + ". Expected data statement, but found '"@
        + found + "'"@
}

/// The message for the end of the text where a data declaration was needed.
pub open spec fn msg_data_eof() -> Seq<char> {
    "Unexpected end of file at line. Expected data statement"@
}

/// The message for a mnemonic that is no instruction with an operand.
pub open spec fn msg_expected_instruction(line: int, found: Seq<char>) -> Seq<char> {
    "Expected 'instruction' at line "@ + decimal(line as nat) + ", but found token '"@ + found
        + "'"@
}

/// Takes one declaration: `ORG n`, `name DATA n` or `name SPACE n`.
pub open spec fn spec_parse_data_stmt(s: Seq<char>, st: PState) -> PResult<DeclView> {
    match st.la {
        Some(t) => if t.kind == TokenKind::DataDeclaration("ORG"@) {
            let (r1, st1) = spec_advance(s, st);
            match r1 {
                Err(e) => (Err(e), st1),
                Ok(_) => {
                    let (r2, st2) = spec_expect_number(s, st1);
                    (
                        match r2 {
                            Ok(n) => Ok(DeclView::Org(n)),
                            Err(e) => Err(e),
                        },
                        st2,
                    )
                },
            }
        } else if t.kind is Identifier {
            let (r1, st1) = spec_expect_identifier(s, st);
            match r1 {
                Err(e) => (Err(e), st1),
                Ok(id) => {
                    let (r2, st2) = spec_expect_data_declaration(s, st1);
                    match r2 {
                        Err(e) => (Err(e), st2),
                        Ok(d) => if d == "DATA"@ {
                            let (r3, st3) = spec_expect_number(s, st2);
                            (
                                match r3 {
                                    Ok(n) => Ok(DeclView::Data(id, n)),
                                    Err(e) => Err(e),
                                },
                                st3,
                            )
                        } else if d == "SPACE"@ {
                            let (r3, st3) = spec_expect_number(s, st2);
                            (
                                match r3 {
                                    Ok(n) => Ok(DeclView::Space(id, n)),
                                    Err(e) => Err(e),
                                },
                                st3,
                            )
                        } else {
                            (Err(msg_data_or_space(current_line(st2), d)), st2)
                        },
                    }
                },
            }
        } else {
            (Err(msg_unexpected_data_token(t.line, kind_name(t.kind))), st)
        },
        None => (Err(msg_data_eof()), st),
    }
}

/// The instruction for a mnemonic that takes an operand.
pub open spec fn instr_with_operand(m: Seq<char>, op: OperandView) -> Option<InstrView> {
    if m == "add"@ {
        Some(InstrView::Add(op))
    } else if m == "lda"@ {
        Some(InstrView::Lda(op))
    } else if m == "sta"@ {
        Some(InstrView::Sta(op))
    } else if m == "jmp"@ {
        Some(InstrView::Jmp(op))
    } else if m == "jn"@ {
        Some(InstrView::Jn(op))
    } else if m == "jz"@ {
        Some(InstrView::Jz(op))
    } else if m == "or"@ {
        Some(InstrView::Or(op))
    } else if m == "not"@ {
        Some(InstrView::Not(op))
    } else if m == "and"@ {
        Some(InstrView::And(op))
    } else if m == "sub"@ {
        Some(InstrView::Sub(op))
    } else {
        None
    }
}

/// Takes one instruction: `hlt`, `nop`, or a mnemonic and its operand.
pub open spec fn spec_parse_instruction(s: Seq<char>, st: PState) -> PResult<InstrView> {
    let (r1, st1) = spec_expect_instruction(s, st);
    match r1 {
        Err(e) => (Err(e), st1),
        Ok(m) => if m == "hlt"@ {
            (Ok(InstrView::Hlt), st1)
        } else if m == "nop"@ {
            (Ok(InstrView::Nop), st1)
        } else {
            let (r2, st2) = spec_expect_operand(s, st1);
            match r2 {
                Err(e) => (Err(e), st2),
                Ok(op) => match instr_with_operand(m, op) {
                    Some(i) => (Ok(i), st2),
                    None => (Err(msg_expected_instruction(current_line(st2), m)), st2),
                },
            }
        },
    }
}

/// What a section is made of: data declarations or instructions.
pub trait SectionItem: Sized + View {
    /// Takes one item.
    spec fn spec_parse_item(s: Seq<char>, st: PState) -> PResult<Self::V>;

    /// Takes one item, as `spec_parse_item` describes.
    fn parse_item<'a>(p: &mut ParserT<'a>) -> (r: Result<Self, LexerError>)
        requires
            old(p).wf(),
        ensures
            final(p).moved_from(old(p)),
            (res_view(r), final(p).state()) == Self::spec_parse_item(old(p).text(), old(p).state()),
            r is Ok ==> measure(final(p).text(), final(p).state()) < measure(
                old(p).text(),
                old(p).state(),
            ),
    ;
}

/// Takes the items of a section up to `end` or the end of the text, skipping line breaks,
/// after the items `acc` already taken.
pub open spec fn spec_items<T: SectionItem>(s: Seq<char>, st: PState, acc: Seq<T::V>) -> PResult<
    Seq<T::V>,
>
    decreases measure(s, st),
{
    match st.la {
        None => (Ok(acc), st),
        Some(t) => if t.kind == TokenKind::Label("end"@) {
            (Ok(acc), st)
        } else if t.kind is NewLine {
            let (r, st2) = spec_advance(s, st);
            match r {
                Err(e) => (Err(e), st2),
                Ok(_) => if measure(s, st2) < measure(s, st) {
                    spec_items::<T>(s, st2, acc)
                } else {
                    (Ok(acc), st2)
                },
            }
        } else {
            let (r, st2) = T::spec_parse_item(s, st);
            match r {
                Err(e) => (Err(e), st2),
                Ok(x) => if measure(s, st2) < measure(s, st) {
                    spec_items::<T>(s, st2, acc.push(x))
                } else {
                    (Ok(acc), st2)
                },
            }
        },
    }
}

/// Closes a section after its items: the label `end`.
pub open spec fn finish_section<T: SectionItem>(s: Seq<char>, items: PResult<Seq<T::V>>) -> PResult<
    Seq<T::V>,
> {
    let (r3, st3) = items;
    match r3 {
        Err(e) => (Err(e), st3),
        Ok(items) => {
            let (r4, st4) = spec_expect_label(s, st3, "end"@);
            (
                match r4 {
                    Ok(_) => Ok(items),
                    Err(e) => Err(e),
                },
                st4,
            )
        },
    }
}

/// Takes a section: its opening label `name`, line breaks, the items, and `end`.
pub open spec fn spec_parse_section<T: SectionItem>(s: Seq<char>, st: PState, name: Seq<char>) -> PResult<
    Seq<T::V>,
> {
    let (r1, st1) = spec_expect_label(s, st, name);
    match r1 {
        Err(e) => (Err(e), st1),
        Ok(_) => {
            let (r2, st2) = spec_consume_blanks(s, st1);
            match r2 {
                Err(e) => (Err(e), st2),
                Ok(_) => finish_section::<T>(s, spec_items::<T>(s, st2, Seq::empty())),
            }
        },
    }
}

/// Takes a whole program: line breaks, the `setup` section, line breaks, the `text`
/// section.
pub open spec fn spec_parse_program(s: Seq<char>, st: PState) -> PResult<ProgramView> {
    let (r1, st1) = spec_consume_blanks(s, st);
    match r1 {
        Err(e) => (Err(e), st1),
        Ok(_) => {
            let (r2, st2) = spec_parse_section::<DataDecl>(s, st1, "setup"@);
            match r2 {
                Err(e) => (Err(e), st2),
                Ok(setup) => {
                    let (r3, st3) = spec_consume_blanks(s, st2);
                    match r3 {
                        Err(e) => (Err(e), st3),
                        Ok(_) => {
                            let (r4, st4) = spec_parse_section::<Instruction>(s, st3, "text"@);
                            (
                                match r4 {
                                    Ok(text) => Ok(ProgramView { setup, text }),
                                    Err(e) => Err(e),
                                },
                                st4,
                            )
                        },
                    }
                },
            }
        },
    }
}

/// The message for an operand whose name was not declared.
pub open spec fn msg_var_not_found(name: Seq<char>) -> Seq<char> {
    "Semantic error. Var '"@ + name + "' was not found."@
}

/// The address an operand stands for: a register's own, or the declared name's.
pub open spec fn resolve(es: Entries, op: OperandView) -> Result<u8, Seq<char>> {
    match op {
        OperandView::Register(r) => Ok(register_address(r)),
        OperandView::Symbol(name) => match lookup(es, name) {
            Some(item) => Ok(item.0),
            None => Err(msg_var_not_found(name)),
        },
    }
}

/// The opcode of a native instruction, and its operand when it has one. `SUB` has no
/// opcode of its own: it is expanded (see `expand`) before anything is encoded.
pub open spec fn encode(i: InstrView) -> (u8, Option<OperandView>) {
    match i {
        InstrView::Nop => (0u8, None),
        InstrView::Hlt => (240u8, None),
        InstrView::Add(o) => (48u8, Some(o)),
        InstrView::Sta(o) => (16u8, Some(o)),
        InstrView::Lda(o) => (32u8, Some(o)),
        InstrView::Or(o) => (64u8, Some(o)),
        InstrView::And(o) => (80u8, Some(o)),
        InstrView::Not(_) => (96u8, None),
        InstrView::Jmp(o) => (128u8, Some(o)),
        InstrView::Jn(o) => (144u8, Some(o)),
        InstrView::Jz(o) => (160u8, Some(o)),
        InstrView::Sub(_) => (96u8, None),
    }
}

/// The native instructions of an instruction. `SUB x` is a macro, written as `NOT`,
/// `ADD x`, `NOT`: complementing, adding and complementing again subtracts `x` modulo 256.
/// `NOT` takes no operand byte, like `NOP` and `HLT`.
pub open spec fn expand_one(i: InstrView) -> Seq<InstrView> {
    match i {
        InstrView::Sub(o) => seq![InstrView::Not(o), InstrView::Add(o), InstrView::Not(o)],
        _ => seq![i],
    }
}

/// The native instructions of a text, each macro expanded in place.
pub open spec fn expand(text: Seq<InstrView>) -> Seq<InstrView>
    decreases text.len(),
{
    if text.len() == 0 {
        Seq::empty()
    } else {
        expand_one(text[0]) + expand(text.drop_first())
    }
}

/// 256 bytes of zeros.
pub open spec fn zeroed() -> Seq<u8> {
    Seq::new(256, |i: int| 0u8)
}

/// The memory with each symbol's initial value at its address, written in the order of
/// the entries.
pub open spec fn data_image(es: Entries) -> Seq<u8>
    decreases es.len(),
{
    if es.len() == 0 {
        zeroed()
    } else {
        data_image(es.drop_last()).update(es.last().1.0 as int, es.last().1.1)
    }
}

/// Each symbol's initial value sits at its address in the data image, unless a later
/// entry takes the same address.
pub proof fn lemma_data_image(es: Entries, j: int)
    requires
        0 <= j < es.len(),
        forall|k: int| j < k < es.len() ==> es[k].1.0 != es[j].1.0,
    ensures
        data_image(es).len() == 256,
        data_image(es)[es[j].1.0 as int] == es[j].1.1,
    decreases es.len(),
{
    lemma_data_image_len(es);
    lemma_data_image_len(es.drop_last());
    if j < es.len() - 1 {
        lemma_data_image(es.drop_last(), j);
        assert(es.drop_last()[j] == es[j]);
    }
}

/// The data image has 256 bytes.
pub proof fn lemma_data_image_len(es: Entries)
    ensures
        data_image(es).len() == 256,
    decreases es.len(),
{
    if es.len() > 0 {
        lemma_data_image_len(es.drop_last());
    }
}

/// What writing the code comes to: the memory, the error of an operand that names no
/// symbol, or a write past the last address.
pub enum EmitOut {
    Done(Seq<u8>),
    Failed(Seq<char>),
    Overflow,
}

/// Writes the instructions into `mem` from address `pc`: each opcode, then its operand's
/// address when it has one.
pub open spec fn emit(es: Entries, text: Seq<InstrView>, mem: Seq<u8>, pc: int) -> EmitOut
    decreases text.len(),
{
    if text.len() == 0 {
        EmitOut::Done(mem)
    } else {
        let (op, opnd) = encode(text[0]);
        if pc >= 256 {
            EmitOut::Overflow
        } else {
            let mem1 = mem.update(pc, op);
            match opnd {
                None => emit(es, text.drop_first(), mem1, pc + 1),
                Some(o) => match resolve(es, o) {
                    Err(e) => EmitOut::Failed(e),
                    Ok(a) => if pc + 1 >= 256 {
                        EmitOut::Overflow
                    } else {
                        emit(es, text.drop_first(), mem1.update(pc + 1, a), pc + 2)
                    },
                },
            }
        }
    }
}

/// The bytes an instruction takes: its opcode, and its operand's address when it has one.
pub open spec fn size(i: InstrView) -> int {
    if encode(i).1 is Some {
        2
    } else {
        1
    }
}

/// Where the `i`-th instruction starts, counted from the first.
pub open spec fn offset(text: Seq<InstrView>, i: int) -> int
    decreases i,
{
    if i <= 0 {
        0
    } else {
        offset(text, i - 1) + size(text[i - 1])
    }
}

proof fn lemma_offset_shift(text: Seq<InstrView>, i: int)
    requires
        0 < i <= text.len(),
    ensures
        offset(text, i) == size(text[0]) + offset(text.drop_first(), i - 1),
    decreases i,
{
    assert(offset(text, 0) == 0);
    assert(offset(text.drop_first(), 0) == 0);
    if i > 1 {
        lemma_offset_shift(text, i - 1);
        assert(text.drop_first()[i - 2] == text[i - 1]);
        assert(offset(text.drop_first(), i - 1) == offset(text.drop_first(), i - 2) + size(
            text.drop_first()[i - 2],
        ));
    }
}

proof fn lemma_offset_grows(text: Seq<InstrView>, i: int, j: int)
    requires
        0 <= i <= j <= text.len(),
    ensures
        offset(text, i) + (j - i) <= offset(text, j),
    decreases j - i,
{
    if i < j {
        lemma_offset_grows(text, i, j - 1);
    }
}

/// Writing code that succeeds puts each instruction's opcode at its offset from `pc`,
/// followed by its operand's address when it has one, and leaves every byte before `pc`
/// or past the code as it was.
#[verifier::rlimit(40)]
pub proof fn lemma_emit_places_code(es: Entries, text: Seq<InstrView>, mem: Seq<u8>, pc: int)
    requires
        emit(es, text, mem, pc) is Done,
        mem.len() == 256,
        0 <= pc,
    ensures
        ({
            let out = emit(es, text, mem, pc)->Done_0;
            &&& out.len() == 256
            &&& forall|i: int|
                #![trigger text[i]]
                0 <= i < text.len() ==> {
                    &&& out[pc + offset(text, i)] == encode(text[i]).0
                    &&& encode(text[i]).1 matches Some(o) ==> resolve(es, o) matches Ok(a) && out[pc
                        + offset(text, i) + 1] == a
                }
            &&& forall|k: int|
                0 <= k < 256 && (k < pc || k >= pc + offset(text, text.len() as int)) ==> out[k]
                    == mem[k]
        }),
    decreases text.len(),
{
    if text.len() == 0 {
        return;
    }
    let (op, opnd) = encode(text[0]);
    let mem1 = mem.update(pc, op);
    let rest = text.drop_first();
    let (mem2, pc2) = match opnd {
        None => (mem1, pc + 1),
        Some(o) => (mem1.update(pc + 1, resolve(es, o)->Ok_0), pc + 2),
    };
    lemma_emit_places_code(es, rest, mem2, pc2);
    let out = emit(es, text, mem, pc)->Done_0;
    assert(out == emit(es, rest, mem2, pc2)->Done_0);
    assert(pc2 == pc + size(text[0]));
    assert(mem2[pc] == op);
    assert(opnd matches Some(o) ==> mem2[pc + 1] == resolve(es, o)->Ok_0);
    lemma_offset_grows(rest, 0, rest.len() as int);
    assert(offset(rest, 0) == 0);
    assert(out[pc] == mem2[pc]);
    assert(opnd is Some ==> out[pc + 1] == mem2[pc + 1]);
    assert forall|i: int| #![trigger text[i]] 1 <= i < text.len() implies {
        &&& out[pc + offset(text, i)] == encode(text[i]).0
        &&& encode(text[i]).1 matches Some(o) ==> resolve(es, o) matches Ok(a) && out[pc + offset(
            text,
            i,
        ) + 1] == a
    } by {
        lemma_offset_shift(text, i);
        assert(rest[i - 1] == text[i]);
    }
    assert(offset(text, 0) == 0);
    lemma_offset_shift(text, text.len() as int);
    assert forall|k: int|
        0 <= k < 256 && (k < pc || k >= pc + offset(text, text.len() as int)) implies out[k]
        == mem[k] by {
        assert(out[k] == mem2[k]);
    }
}

/// Writing code succeeds where every operand names a symbol and the code ends by the
/// last address.
pub proof fn lemma_emit_done(es: Entries, text: Seq<InstrView>, mem: Seq<u8>, pc: int)
    requires
        0 <= pc,
        pc + offset(text, text.len() as int) <= 256,
        forall|i: int|
            #![trigger text[i]]
            0 <= i < text.len() ==> (encode(text[i]).1 matches Some(o) ==> resolve(es, o) is Ok),
    ensures
        emit(es, text, mem, pc) is Done,
    decreases text.len(),
{
    if text.len() > 0 {
        let rest = text.drop_first();
        lemma_offset_shift(text, text.len() as int);
        lemma_offset_grows(rest, 0, rest.len() as int);
        assert(offset(rest, 0) == 0);
        assert forall|i: int| #![trigger rest[i]] 0 <= i < rest.len() implies (encode(
            rest[i],
        ).1 matches Some(o) ==> resolve(es, o) is Ok) by {
            assert(rest[i] == text[i + 1]);
        }
        let (op, opnd) = encode(text[0]);
        match opnd {
            None => lemma_emit_done(es, rest, mem.update(pc, op), pc + 1),
            Some(o) => {
                assert(resolve(es, o) is Ok);
                lemma_emit_done(es, rest, mem.update(pc, op).update(pc + 1, resolve(es, o)->Ok_0), pc + 2);
            },
        }
    }
}

/// Where every instruction before the `n`-th takes two bytes, the `i`-th starts at `2 * i`.
pub proof fn lemma_offset_pairs(text: Seq<InstrView>, n: int, i: int)
    requires
        0 <= i <= n <= text.len(),
        forall|j: int| #![trigger text[j]] 0 <= j < n ==> size(text[j]) == 2,
    ensures
        offset(text, i) == 2 * i,
    decreases i,
{
    if i > 0 {
        lemma_offset_pairs(text, n, i - 1);
        assert(size(text[i - 1]) == 2);
    }
}

/// The code of a program over the data of a symbol table, from its program counter.
pub open spec fn code_image(es: Entries, pc: u8, text: Seq<InstrView>) -> EmitOut {
    emit(es, expand(text), data_image(es), pc as int)
}

/// The header of a `.MEM` file.
pub open spec fn mem_header() -> Seq<u8> {
    seq![3u8, 78u8, 68u8, 82u8]
}

/// The `.MEM` file of a memory: the header, then each byte followed by a zero byte.
pub open spec fn neander_image(mem: Seq<u8>) -> Seq<u8> {
    Seq::new(
        516,
        |j: int|
            if j < 4 {
                mem_header()[j]
            } else if (j - 4) % 2 == 0 {
                mem[(j - 4) / 2]
            } else {
                0u8
            },
    )
}

/// What assembling a parsed program comes to.
pub enum AsmOut {
    /// The `.MEM` file.
    Done(Seq<u8>),
    /// An error of the layout of the declarations.
    LayoutFailed(Seq<char>),
    /// An operand that names no symbol.
    CodeFailed(Seq<char>),
    /// An address or a write that leaves the byte range.
    Overflow,
}

/// Assembles a program with a symbol table that starts as `table`: lays out the
/// declarations, writes the data and the code, and frames the memory as a `.MEM` file.
pub open spec fn assemble(prog: ProgramView, table: Layout) -> AsmOut {
    match layout(table, prog.setup) {
        LayoutOut::Overflow => AsmOut::Overflow,
        LayoutOut::Failed(m, _) => AsmOut::LayoutFailed(m),
        LayoutOut::Done(l) => match code_image(with_registers(l.entries), l.pc, prog.text) {
            EmitOut::Done(mem) => AsmOut::Done(neander_image(mem)),
            EmitOut::Failed(e) => AsmOut::CodeFailed(e),
            EmitOut::Overflow => AsmOut::Overflow,
        },
    }
}

/// An error of the assembler: of the text, or of the layout of the data.
#[derive(Debug)]
pub enum AssemblerError {
    Lexer(LexerError),
    Syntax(SyntaxError),
}

/// An assembler error as values: its kind and message.
pub enum AsmErrView {
    Lexer(Seq<char>),
    Syntax(Seq<char>),
}

impl View for AssemblerError {
    type V = AsmErrView;

    open spec fn view(&self) -> AsmErrView {
        match self {
            AssemblerError::Lexer(e) => AsmErrView::Lexer(e@),
            AssemblerError::Syntax(e) => AsmErrView::Syntax(e@),
        }
    }
}

impl AssemblerError {
    /// The error as it is shown.
    pub fn to_string(&self) -> (r: String)
        ensures
            r@ == match self@ {
                AsmErrView::Lexer(m) => "ERROR: "@ + m,
                AsmErrView::Syntax(m) => "Syntax error: "@ + m + "\n"@,
            },
    {
        match self {
            AssemblerError::Lexer(e) => e.to_string(),
            AssemblerError::Syntax(e) => e.to_string(),
        }
    }
}

/// The symbol table once `parse` is done: as it was when the text does not parse, else
/// as far as the layout of the declarations got (`None` where it overflows).
pub open spec fn table_after_parse(s: Seq<char>, st: PState, table: Layout) -> Option<(u8, Entries)> {
    match spec_parse_program(s, st).0 {
        Err(_) => Some((table.pc, table.entries)),
        Ok(p) => match layout(table, p.setup) {
            LayoutOut::Done(l) => Some((l.pc, with_registers(l.entries))),
            LayoutOut::Failed(_, l) => Some((l.pc, l.entries)),
            LayoutOut::Overflow => None,
        },
    }
}

/// What `parse` gives for a text, from a parser state and a symbol table: `None` where
/// an address would leave the byte range.
pub open spec fn spec_parse(s: Seq<char>, st: PState, table: Layout) -> Option<
    Result<Seq<u8>, AsmErrView>,
> {
    match spec_parse_program(s, st).0 {
        Err(e) => Some(Err(AsmErrView::Lexer(e))),
        Ok(p) => match assemble(p, table) {
            AsmOut::Done(img) => Some(Ok(img)),
            AsmOut::LayoutFailed(m) => Some(Err(AsmErrView::Syntax(m))),
            AsmOut::CodeFailed(e) => Some(Err(AsmErrView::Lexer(e))),
            AsmOut::Overflow => None,
        },
    }
}

/// The text that shows a binary: its bytes sixteen to a line, then an empty line.
pub fn bin_text(bin: &[u8]) -> (r: String)
    ensures
        r@ == byte_rows(bin@) + "\n"@,
{
    let mut s = String::new();
    push_byte_rows(&mut s, bin);
    push_str(&mut s, "\n");
    s
}

impl SectionItem for DataDecl {
    open spec fn spec_parse_item(s: Seq<char>, st: PState) -> PResult<DeclView> {
        spec_parse_data_stmt(s, st)
    }

    fn parse_item<'a>(p: &mut ParserT<'a>) -> (r: Result<Self, LexerError>) {
        p.parse_data_stmt()
    }
}

impl SectionItem for Instruction {
    open spec fn spec_parse_item(s: Seq<char>, st: PState) -> PResult<InstrView> {
        spec_parse_instruction(s, st)
    }

    fn parse_item<'a>(p: &mut ParserT<'a>) -> (r: Result<Self, LexerError>) {
        p.parse_instruction()
    }
}

impl<'a> ParserT<'a> {
    /// Where the parser stands.
    pub open spec fn state(&self) -> PState {
        PState { lex: self.lexer.at(), la: la_view(self.lookahead), valid: self.valid }
    }

    /// The source text.
    pub open spec fn text(&self) -> Seq<char> {
        self.lexer.text()
    }

    /// The parser is consistent.
    pub open spec fn wf(&self) -> bool {
        self.lexer.wf()
    }

    /// The parser state changed only through the lexer position and the looked-at token.
    pub open spec fn moved_from(&self, other: &Self) -> bool {
        &&& self.wf()
        &&& self.lexer.same_but_at(&other.lexer)
        &&& self.symbols == other.symbols
        &&& self.program == other.program
        &&& self.init_error == other.init_error
        &&& measure(self.text(), self.state()) <= measure(other.text(), other.state())
    }

    /// A parser over the tokens of `lexer`, looking at its first token. A lexical error on
    /// that token leaves no token looked at, marks the parser invalid and is kept in
    /// `init_error`.
    pub fn new(mut lexer: Lexer<'a>) -> (r: Self)
        requires
            lexer.wf(),
        ensures
            r.wf(),
            r.lexer.same_but_at(&lexer),
            ({
                let (o, p) = spec_next_token(lexer.text(), lexer.at());
                &&& r.lexer.at() == p
                &&& match o {
                    Some(Ok(t)) => r.state().la == Some(t) && r.valid && r.init_error is None,
                    Some(Err(e)) => {
                        &&& r.state().la is None
                        &&& !r.valid
                        &&& r.init_error matches Some(err) && err@ == e
                    },
                    None => r.state().la is None && r.valid && r.init_error is None,
                }
            }),
            r.symbols.program_counter == 0,
            r.symbols.map@.len() == 0,
            r.program is None,
    {
        let next_t = lexer.next_token();
        let (first_token, is_valid, init_error) = match next_t {
            Some(Ok(token)) => (Some(token), true, None),
            Some(Err(e)) => (None, false, Some(e)),
            None => (None, true, None),
        };
        Self {
            lexer,
            lookahead: first_token,
            valid: is_valid,
            symbols: SymbolTable::new(),
            program: None,
            init_error,
        }
    }

    fn peek_kind(&self) -> (r: Option<TokenType<'a>>)
        ensures
            r matches Some(k) ==> self.lookahead matches Some(t) && k == t.kind,
            r is None ==> self.lookahead is None,
    {
        match &self.lookahead {
            Some(t) => Some(t.kind),
            None => None,
        }
    }

    fn current_line(&self) -> (r: usize)
        ensures
            r as int == current_line(self.state()),
    {
        match &self.lookahead {
            Some(t) => t.line,
            None => self.lexer.current_line(),
        }
    }

    fn advance(&mut self) -> (r: Result<(), LexerError>)
        requires
            old(self).wf(),
        ensures
            final(self).moved_from(old(self)),
            (err_view(r), final(self).state()) == spec_advance(
                old(self).text(),
                old(self).state(),
            ),
            old(self).state().la is Some ==> measure(final(self).text(), final(self).state())
                < measure(old(self).text(), old(self).state()),
    {
        proof {
            lemma_next_token_progress(self.text(), self.lexer.at());
        }
        match self.lexer.next_token() {
            Some(Ok(token)) => {
                self.lookahead = Some(token);
                Ok(())
            },
            Some(Err(e)) => {
                self.lookahead = None;
                self.valid = false;
                Err(e)
            },
            None => {
                self.lookahead = None;
                Ok(())
            },
        }
    }

    fn consume_blanks(&mut self) -> (r: Result<(), LexerError>)
        requires
            old(self).wf(),
        ensures
            final(self).moved_from(old(self)),
            (err_view(r), final(self).state()) == spec_consume_blanks(
                old(self).text(),
                old(self).state(),
            ),
    {
        let ghost s = self.text();
        loop
            invariant
                self.moved_from(old(self)),
                s == self.text(),
                spec_consume_blanks(s, self.state()) == spec_consume_blanks(s, old(self).state()),
            decreases measure(s, self.state()),
        {
            match self.peek_kind() {
                Some(TokenType::NewLine) => {
                    let ghost before = self.state();
                    let a = self.advance();
                    match a {
                        Err(e) => {
                            return Err(e);
                        },
                        Ok(()) => {},
                    }
                    assert(measure(s, self.state()) < measure(s, before));
                },
                _ => {
                    return Ok(());
                },
            }
        }
    }

    fn syntax_error(line: usize, what: &str, found: &str) -> (r: LexerError)
        ensures
            r@ == msg_expected(line as int, what@, found@),
    {
        let mut m = String::new();
        push_str(&mut m, "Syntax error at line ");
        push_decimal(&mut m, line);
        push_str(&mut m, ". Expected ");
        push_str(&mut m, what);
        push_str(&mut m, ", but found '");
        push_str(&mut m, found);
        push_str(&mut m, "'.");
        assert(m@ =~= msg_expected(line as int, what@, found@));
        LexerError::new(m)
    }

    fn eof_error(what: &str) -> (r: LexerError)
        ensures
            r@ == msg_eof_expecting(what@),
    {
        let mut m = String::new();
        push_str(&mut m, "Unexpected end of file. Expecting ");
        push_str(&mut m, what);
        LexerError::new(m)
    }

    fn expect_identifier(&mut self) -> (r: Result<&'a str, LexerError>)
        requires
            old(self).wf(),
        ensures
            final(self).moved_from(old(self)),
            (res_view(r), final(self).state()) == spec_expect_identifier(
                old(self).text(),
                old(self).state(),
            ),
            r is Ok ==> measure(final(self).text(), final(self).state()) < measure(
                old(self).text(),
                old(self).state(),
            ),
    {
        match self.peek_kind() {
            Some(TokenType::Identfier(name)) => {
                self.advance()?;
                Ok(name)
            },
            Some(wrong_kind) => Err(
                Self::syntax_error(self.current_line(), "Identifier", wrong_kind.name()),
            ),
            None => Err(Self::eof_error("Identifier")),
        }
    }

    fn expect_number(&mut self) -> (r: Result<u8, LexerError>)
        requires
            old(self).wf(),
        ensures
            final(self).moved_from(old(self)),
            (err_view(r), final(self).state()) == spec_expect_number(
                old(self).text(),
                old(self).state(),
            ),
            r is Ok ==> measure(final(self).text(), final(self).state()) < measure(
                old(self).text(),
                old(self).state(),
            ),
    {
        match self.peek_kind() {
            Some(TokenType::Num(num)) => {
                self.advance()?;
                Ok(num)
            },
            Some(wrong_kind) => Err(
                Self::syntax_error(self.current_line(), "u8 number (0-255)", wrong_kind.name()),
            ),
            None => Err(Self::eof_error("u8 number (0-255)")),
        }
    }

    fn expect_instruction(&mut self) -> (r: Result<&'a str, LexerError>)
        requires
            old(self).wf(),
        ensures
            final(self).moved_from(old(self)),
            (res_view(r), final(self).state()) == spec_expect_instruction(
                old(self).text(),
                old(self).state(),
            ),
            r is Ok ==> measure(final(self).text(), final(self).state()) < measure(
                old(self).text(),
                old(self).state(),
            ),
    {
        match self.peek_kind() {
            Some(TokenType::Instruction(instr)) => {
                self.advance()?;
                Ok(instr)
            },
            Some(wrong_kind) => Err(
                Self::syntax_error(self.current_line(), "instruction", wrong_kind.name()),
            ),
            None => Err(Self::eof_error("instruction")),
        }
    }

    fn expect_data_declaration(&mut self) -> (r: Result<&'a str, LexerError>)
        requires
            old(self).wf(),
        ensures
            final(self).moved_from(old(self)),
            (res_view(r), final(self).state()) == spec_expect_data_declaration(
                old(self).text(),
                old(self).state(),
            ),
            r is Ok ==> measure(final(self).text(), final(self).state()) < measure(
                old(self).text(),
                old(self).state(),
            ),
    {
        match self.peek_kind() {
            Some(TokenType::DataDeclaration(decl)) => {
                self.advance()?;
                Ok(decl)
            },
            Some(wrong_kind) => Err(
                Self::syntax_error(self.current_line(), "data statement", wrong_kind.name()),
            ),
            None => Err(Self::eof_error("data statement")),
        }
    }

    fn expect_operand(&mut self) -> (r: Result<Operand, LexerError>)
        requires
            old(self).wf(),
        ensures
            final(self).moved_from(old(self)),
            (res_view(r), final(self).state()) == spec_expect_operand(
                old(self).text(),
                old(self).state(),
            ),
            r is Ok ==> measure(final(self).text(), final(self).state()) < measure(
                old(self).text(),
                old(self).state(),
            ),
    {
        match self.peek_kind() {
            Some(TokenType::Register(name)) => {
                let op = if str_eq(name, "t0") {
                    Operand::Register(Register::T0)
                } else if str_eq(name, "t1") {
                    Operand::Register(Register::T1)
                } else if str_eq(name, "t2") {
                    Operand::Register(Register::T2)
                } else if str_eq(name, "t3") {
                    Operand::Register(Register::T3)
                } else if str_eq(name, "t4") {
                    Operand::Register(Register::T4)
                } else {
                    let mut m = String::new();
                    push_str(&mut m, "Unkown register '");
                    push_str(&mut m, name);
                    push_str(&mut m, "'");
                    return Err(LexerError::new(m));
                };
                self.advance()?;
                Ok(op)
            },
            Some(TokenType::Identfier(name)) => {
                let op = Operand::Symbol(name.to_owned());
                self.advance()?;
                Ok(op)
            },
            Some(wrong_kind) => {
                let mut m = String::new();
                push_str(&mut m, "Expected Operand at line ");
                push_decimal(&mut m, self.current_line());
                push_str(&mut m, " but found '");
                push_str(&mut m, wrong_kind.name());
                push_str(&mut m, "'");
                Err(LexerError::new(m))
            },
            None => {
                let mut m = String::new();
                push_str(&mut m, "Unexpected EOF");
                Err(LexerError::new(m))
            },
        }
    }

    fn expect_label(&mut self, expected_label: &str) -> (r: Result<(), LexerError>)
        requires
            old(self).wf(),
        ensures
            final(self).moved_from(old(self)),
            (err_view(r), final(self).state()) == spec_expect_label(
                old(self).text(),
                old(self).state(),
                expected_label@,
            ),
            r is Ok ==> measure(final(self).text(), final(self).state()) < measure(
                old(self).text(),
                old(self).state(),
            ),
    {
        match self.peek_kind() {
            Some(kind) => {
                let matches = match kind {
                    TokenType::Label(name) => str_eq(name, expected_label),
                    _ => false,
                };
                if matches {
                    self.advance()?;
                    Ok(())
                } else {
                    let mut m = String::new();
                    push_str(&mut m, "Syntax error at ");
                    push_decimal(&mut m, self.current_line());
                    push_str(&mut m, ", expected label '");
                    push_str(&mut m, expected_label);
                    push_str(&mut m, "', but found ");
                    push_str(&mut m, kind.name());
                    Err(LexerError::new(m))
                }
            },
            None => {
                let mut m = String::new();
                push_str(&mut m, "Unexpected end of file. Expected label '");
                push_str(&mut m, expected_label);
                push_str(&mut m, "' at line ");
                push_decimal(&mut m, self.current_line());
                Err(LexerError::new(m))
            },
        }
    }

    fn parse_data_stmt(&mut self) -> (r: Result<DataDecl, LexerError>)
        requires
            old(self).wf(),
        ensures
            final(self).moved_from(old(self)),
            (res_view(r), final(self).state()) == spec_parse_data_stmt(
                old(self).text(),
                old(self).state(),
            ),
            r is Ok ==> measure(final(self).text(), final(self).state()) < measure(
                old(self).text(),
                old(self).state(),
            ),
    {
        match self.peek_kind() {
            Some(kind) => {
                let is_org = match kind {
                    TokenType::DataDeclaration(d) => str_eq(d, "ORG"),
                    _ => false,
                };
                let is_id = match kind {
                    TokenType::Identfier(_) => true,
                    _ => false,
                };
                if is_org {
                    self.advance()?;
                    let num = self.expect_number()?;
                    Ok(DataDecl::Org(num))
                } else if is_id {
                    let id = self.expect_identifier()?;
                    let instr = self.expect_data_declaration()?;
                    if str_eq(instr, "DATA") {
                        let num = self.expect_number()?;
                        Ok(DataDecl::Data(id.to_owned(), num))
                    } else if str_eq(instr, "SPACE") {
                        let num = self.expect_number()?;
                        Ok(DataDecl::Space(id.to_owned(), num))
                    } else {
                        let mut m = String::new();
                        push_str(&mut m, "Error at line ");
                        push_decimal(&mut m, self.current_line());
                        push_str(&mut m, ". Expected 'DATA' or 'SPACE' but found '");
                        push_str(&mut m, instr);
                        push_str(&mut m, "'");
                        Err(LexerError::new(m))
                    }
                } else {
                    let mut m = String::new();
                    push_str(&mut m, "Unexpected token at line ");
                    push_decimal(&mut m, self.current_line());
                    push_str(&mut m, ". Expected data statement, but found '");
                    push_str(&mut m, kind.name());
                    push_str(&mut m, "'");
                    Err(LexerError::new(m))
                }
            },
            None => {
                let mut m = String::new();
                push_str(&mut m, "Unexpected end of file at line. Expected data statement");
                Err(LexerError::new(m))
            },
        }
    }

    fn parse_instruction(&mut self) -> (r: Result<Instruction, LexerError>)
        requires
            old(self).wf(),
        ensures
            final(self).moved_from(old(self)),
            (res_view(r), final(self).state()) == spec_parse_instruction(
                old(self).text(),
                old(self).state(),
            ),
            r is Ok ==> measure(final(self).text(), final(self).state()) < measure(
                old(self).text(),
                old(self).state(),
            ),
    {
        let instr = self.expect_instruction()?;
        if str_eq(instr, "hlt") {
            Ok(Instruction::Hlt)
        } else if str_eq(instr, "nop") {
            Ok(Instruction::Nop)
        } else {
            let op = self.expect_operand()?;
            if str_eq(instr, "add") {
                Ok(Instruction::Add(op))
            } else if str_eq(instr, "lda") {
                Ok(Instruction::Lda(op))
            } else if str_eq(instr, "sta") {
                Ok(Instruction::Sta(op))
            } else if str_eq(instr, "jmp") {
                Ok(Instruction::Jmp(op))
            } else if str_eq(instr, "jn") {
                Ok(Instruction::Jn(op))
            } else if str_eq(instr, "jz") {
                Ok(Instruction::Jz(op))
            } else if str_eq(instr, "or") {
                Ok(Instruction::Or(op))
            } else if str_eq(instr, "not") {
                Ok(Instruction::Not(op))
            } else if str_eq(instr, "and") {
                Ok(Instruction::And(op))
            } else if str_eq(instr, "sub") {
                Ok(Instruction::Sub(op))
            } else {
                let mut m = String::new();
                push_str(&mut m, "Expected 'instruction' at line ");
                push_decimal(&mut m, self.current_line());
                push_str(&mut m, ", but found token '");
                push_str(&mut m, instr);
                push_str(&mut m, "'");
                Err(LexerError::new(m))
            }
        }
    }

    fn parse_section<T: SectionItem>(&mut self, section_name: &str) -> (r: Result<Vec<T>, LexerError>)
        requires
            old(self).wf(),
        ensures
            final(self).moved_from(old(self)),
            (match r {
                Ok(v) => Ok(Seq::new(v@.len(), |i: int| v@[i]@)),
                Err(e) => Err(e@),
            }, final(self).state()) == spec_parse_section::<T>(
                old(self).text(),
                old(self).state(),
                section_name@,
            ),
    {
        let ghost s = self.text();
        let mut items: Vec<T> = Vec::new();
        self.expect_label(section_name)?;
        self.consume_blanks()?;
        let ghost st2 = self.state();
        assert(Seq::new(items@.len(), |i: int| items@[i]@) =~= Seq::<T::V>::empty());
        loop
            invariant
                self.moved_from(old(self)),
                s == self.text(),
                spec_parse_section::<T>(s, old(self).state(), section_name@) == finish_section::<T>(
                    s,
                    spec_items::<T>(s, st2, Seq::empty()),
                ),
                spec_items::<T>(s, self.state(), Seq::new(items@.len(), |i: int| items@[i]@))
                    == spec_items::<T>(s, st2, Seq::empty()),
            ensures
                self.moved_from(old(self)),
                (Ok::<Seq<T::V>, Seq<char>>(Seq::new(items@.len(), |i: int| items@[i]@)), self.state()) == spec_items::<T>(
                    s,
                    st2,
                    Seq::empty(),
                ),
            decreases measure(s, self.state()),
        {
            let ghost acc = Seq::new(items@.len(), |i: int| items@[i]@);
            match self.peek_kind() {
                Some(kind) => {
                    let is_end = match kind {
                        TokenType::Label(name) => str_eq(name, "end"),
                        _ => false,
                    };
                    let is_nl = match kind {
                        TokenType::NewLine => true,
                        _ => false,
                    };
                    if is_end {
                        break;
                    } else if is_nl {
                        let ghost before = self.state();
                        let a = self.advance();
                        if let Err(e) = a {
                            assert(spec_items::<T>(s, before, acc) == (
                                Err::<Seq<T::V>, Seq<char>>(e@),
                                self.state(),
                            ));
                            return Err(e);
                        }
                    } else {
                        let ghost before = self.state();
                        let x = match T::parse_item(self) {
                            Ok(x) => x,
                            Err(e) => {
                                assert(spec_items::<T>(s, before, acc) == (
                                    Err::<Seq<T::V>, Seq<char>>(e@),
                                    self.state(),
                                ));
                                return Err(e);
                            },
                        };
                        let ghost xv = x@;
                        items.push(x);
                        assert(Seq::new(items@.len(), |i: int| items@[i]@) =~= acc.push(xv));
                    }
                },
                None => {
                    break;
                },
            }
        }
        self.expect_label("end")?;
        Ok(items)
    }

    /// Parses the `setup` section.
    pub fn parse_data(&mut self) -> (r: Result<Vec<DataDecl>, LexerError>)
        requires
            old(self).wf(),
        ensures
            final(self).moved_from(old(self)),
            (match r {
                Ok(v) => Ok(decls_view(v@)),
                Err(e) => Err(e@),
            }, final(self).state()) == spec_parse_section::<DataDecl>(
                old(self).text(),
                old(self).state(),
                "setup"@,
            ),
    {
        let r = self.parse_section::<DataDecl>("setup");
        proof {
            if let Ok(v) = &r {
                assert(decls_view(v@) =~= Seq::new(v@.len(), |i: int| v@[i]@));
            }
        }
        r
    }

    /// Parses the `text` section.
    pub fn parse_text(&mut self) -> (r: Result<Vec<Instruction>, LexerError>)
        requires
            old(self).wf(),
        ensures
            final(self).moved_from(old(self)),
            (match r {
                Ok(v) => Ok(instrs_view(v@)),
                Err(e) => Err(e@),
            }, final(self).state()) == spec_parse_section::<Instruction>(
                old(self).text(),
                old(self).state(),
                "text"@,
            ),
    {
        let r = self.parse_section::<Instruction>("text");
        proof {
            if let Ok(v) = &r {
                assert(instrs_view(v@) =~= Seq::new(v@.len(), |i: int| v@[i]@));
            }
        }
        r
    }

    /// Parses a whole program, as `spec_parse_program` describes.
    pub fn parse_program(&mut self) -> (r: Result<Program, LexerError>)
        requires
            old(self).wf(),
        ensures
            final(self).moved_from(old(self)),
            (res_view(r), final(self).state()) == spec_parse_program(
                old(self).text(),
                old(self).state(),
            ),
    {
        self.consume_blanks()?;
        let data = self.parse_data()?;
        self.consume_blanks()?;
        let text = self.parse_text()?;
        let p = Program { setup: data, text };
        Ok(p)
    }

    fn resolve_operand(&self, operand: &Operand) -> (r: Result<u8, LexerError>)
        ensures
            err_view(r) == resolve(self.symbols.map@, operand@),
    {
        match operand {
            Operand::Register(reg) => Ok(reg.address()),
            Operand::Symbol(name) => match self.symbols.map.get(name.as_str()) {
                Some(item) => Ok(item.0),
                None => {
                    let mut m = String::new();
                    push_str(&mut m, "Semantic error. Var '");
                    push_str(&mut m, name.as_str());
                    push_str(&mut m, "' was not found.");
                    Err(LexerError::new(m))
                },
            },
        }
    }

    fn opcode(instruction: &Instruction) -> (r: (u8, Option<&Operand>))
        ensures
            r.0 == encode(instruction@).0,
            match encode(instruction@).1 {
                Some(o) => r.1 matches Some(x) && x@ == o,
                None => r.1 is None,
            },
    {
        match instruction {
            Instruction::Nop => (0u8, None),
            Instruction::Hlt => (240u8, None),
            Instruction::Add(v) => (48u8, Some(v)),
            Instruction::Sta(v) => (16u8, Some(v)),
            Instruction::Lda(v) => (32u8, Some(v)),
            Instruction::Or(v) => (64u8, Some(v)),
            Instruction::And(v) => (80u8, Some(v)),
            Instruction::Not(_) => (96u8, None),
            Instruction::Jmp(v) => (128u8, Some(v)),
            Instruction::Jn(v) => (144u8, Some(v)),
            Instruction::Jz(v) => (160u8, Some(v)),
            Instruction::Sub(_) => (96u8, None),
        }
    }

    /// Writes the data and the code into memory, as `code_image` describes; `None` where a
    /// write would go past the last address.
    fn emit_binary(&self, program: &Program) -> (r: Option<Result<[u8; 256], LexerError>>)
        ensures
            match code_image(self.symbols.map@, self.symbols.program_counter, program@.text) {
                EmitOut::Done(m) => r matches Some(Ok(b)) && b@ == m,
                EmitOut::Failed(e) => r matches Some(Err(x)) && x@ == e,
                EmitOut::Overflow => r is None,
            },
    {
        let ghost es = self.symbols.map@;
        let ghost text = program@.text;
        let mut mem: [u8; 256] = [0; 256];
        let mut pc: usize = self.symbols.program_counter as usize;
        let n = self.symbols.map.entries.len();
        assert(mem@ =~= zeroed());
        let mut i: usize = 0;
        while i < n
            invariant
                n == self.symbols.map.entries@.len(),
                es == self.symbols.map@,
                0 <= i <= n,
                mem@ == data_image(es.take(i as int)),
            decreases n - i,
        {
            let (addr, value) = self.symbols.map.entries[i].1;
            mem[addr as usize] = value;
            proof {
                assert(es.take(i + 1).drop_last() =~= es.take(i as int));
            }
            i = i + 1;
        }
        proof {
            assert(es.take(n as int) =~= es);
        }
        let len = program.text.len();
        let mut k: usize = 0;
        assert(text.subrange(0, len as int) =~= text);
        while k < len
            invariant
                len == program.text@.len(),
                text == program@.text,
                es == self.symbols.map@,
                0 <= k <= len,
                pc <= 256,
                emit(es, expand(text.subrange(k as int, len as int)), mem@, pc as int) == code_image(
                    es,
                    self.symbols.program_counter,
                    text,
                ),
            decreases len - k,
        {
            let ghost rest = text.subrange(k as int, len as int);
            let ghost tail = expand(text.subrange(k + 1, len as int));
            assert(rest[0] == program.text@[k as int]@);
            assert(rest.drop_first() =~= text.subrange(k + 1, len as int));
            assert(expand(rest) == expand_one(rest[0]) + tail);
            if let Instruction::Sub(operand) = &program.text[k] {
                let ghost o = operand@;
                let ghost ex = seq![InstrView::Not(o), InstrView::Add(o), InstrView::Not(o)] + tail;
                assert(expand(rest) == ex);
                assert(ex[0] == InstrView::Not(o));
                assert(ex.drop_first()[0] == InstrView::Add(o));
                assert(ex.drop_first().drop_first()[0] == InstrView::Not(o));
                assert(ex.drop_first().drop_first().drop_first() =~= tail);
                let ghost ex1 = ex.drop_first();
                let ghost ex2 = ex1.drop_first();
                let ghost ex3 = ex2.drop_first();
                if pc >= 256 {
                    return None;
                }
                let ghost m0 = mem@;
                mem[pc] = 96;
                assert(emit(es, ex, m0, pc as int) == emit(es, ex1, mem@, pc + 1));
                if pc + 1 >= 256 {
                    assert(emit(es, ex1, mem@, pc + 1) is Overflow);
                    return None;
                }
                let ghost m1 = mem@;
                mem[pc + 1] = 48;
                let a = match self.resolve_operand(operand) {
                    Ok(a) => a,
                    Err(e) => {
                        assert(emit(es, ex1, m1, pc + 1) is Failed);
                        return Some(Err(e));
                    },
                };
                if pc + 2 >= 256 {
                    assert(emit(es, ex1, m1, pc + 1) is Overflow);
                    return None;
                }
                mem[pc + 2] = a;
                assert(emit(es, ex1, m1, pc + 1) == emit(es, ex2, mem@, pc + 3));
                if pc + 3 >= 256 {
                    return None;
                }
                mem[pc + 3] = 96;
                assert(emit(es, ex2, m1.update(pc + 1, 48).update(pc + 2, a), pc + 3) == emit(es, ex3, mem@, pc + 4));
                pc = pc + 4;
            } else {
                let (opcode, opt_var) = Self::opcode(&program.text[k]);
                assert(expand(rest) =~= seq![rest[0]] + tail);
                assert(expand(rest)[0] == rest[0]);
                assert(expand(rest).drop_first() =~= tail);
                assert(expand(rest).len() > 0);
                assert(encode(expand(rest)[0]) == encode(program.text@[k as int]@));
                if pc >= 256 {
                    assert(emit(es, expand(rest), mem@, pc as int) is Overflow);
                    return None;
                }
                mem[pc] = opcode;
                pc = pc + 1;
                if let Some(operand) = opt_var {
                    let a = match self.resolve_operand(operand) {
                        Ok(a) => a,
                        Err(e) => {
                            return Some(Err(e));
                        },
                    };
                    if pc >= 256 {
                        return None;
                    }
                    mem[pc] = a;
                    pc = pc + 1;
                }
            }
            k = k + 1;
        }
        assert(text.subrange(len as int, len as int) =~= Seq::<InstrView>::empty());
        Some(Ok(mem))
    }

    fn generate_binary(&self, program: &Program) -> (r: Result<[u8; 256], LexerError>)
        requires
            !(code_image(self.symbols.map@, self.symbols.program_counter, program@.text) is Overflow),
        ensures
            match code_image(self.symbols.map@, self.symbols.program_counter, program@.text) {
                EmitOut::Done(m) => r matches Ok(b) && b@ == m,
                EmitOut::Failed(e) => r matches Err(x) && x@ == e,
                EmitOut::Overflow => false,
            },
    {
        match self.emit_binary(program) {
            Some(r) => r,
            None => {
                assert(false);
                Ok([0; 256])
            },
        }
    }

    fn transform_bin(&self, bin: &[u8]) -> (r: [u8; 516])
        requires
            bin@.len() >= 256,
        ensures
            r@ == neander_image(bin@.take(256)),
    {
        let mut out_bin: [u8; 516] = [0; 516];
        out_bin[0] = 3;
        out_bin[1] = 78;
        out_bin[2] = 68;
        out_bin[3] = 82;
        let mut i: usize = 0;
        while i < 256
            invariant
                0 <= i <= 256,
                bin@.len() >= 256,
                forall|j: int| 0 <= j < 4 ==> out_bin@[j] == mem_header()[j],
                forall|j: int|
                    4 <= j < 516 ==> #[trigger] out_bin@[j] == (if (j - 4) % 2 == 0 && (j - 4) / 2
                        < i {
                        bin@[(j - 4) / 2]
                    } else {
                        0u8
                    }),
            decreases 256 - i,
        {
            out_bin[i * 2 + 4] = bin[i];
            i = i + 1;
        }
        assert(out_bin@ =~= neander_image(bin@.take(256)));
        out_bin
    }

    /// Parses the program, lays out its data and assembles it into a `.MEM` file, as
    /// `spec_parse` describes; `None` where an address would leave the byte range.
    pub fn parse_checked(&mut self) -> (r: Option<Result<[u8; 516], AssemblerError>>)
        requires
            old(self).wf(),
        ensures
            final(self).wf(),
            final(self).text() == old(self).text(),
            final(self).state() == spec_parse_program(old(self).text(), old(self).state()).1,
            final(self).program == old(self).program,
            final(self).init_error == old(self).init_error,
            table_after_parse(old(self).text(), old(self).state(), old(self).symbols.start())
                matches Some(t) ==> final(self).symbols.program_counter == t.0
                && final(self).symbols.map@ == t.1,
            match spec_parse(old(self).text(), old(self).state(), old(self).symbols.start()) {
                Some(Ok(img)) => r matches Some(Ok(b)) && b@ == img,
                Some(Err(m)) => r matches Some(Err(e)) && e@ == m,
                None => r is None,
            },
    {
        let parsed_program = match self.parse_program() {
            Ok(p) => p,
            Err(e) => {
                return Some(Err(AssemblerError::Lexer(e)));
            },
        };
        match self.symbols.lay_out(&parsed_program.setup) {
            None => {
                return None;
            },
            Some(Err(e)) => {
                return Some(Err(AssemblerError::Syntax(e)));
            },
            Some(Ok(())) => {},
        }
        let bin = match self.emit_binary(&parsed_program) {
            None => {
                return None;
            },
            Some(Err(e)) => {
                return Some(Err(AssemblerError::Lexer(e)));
            },
            Some(Ok(b)) => b,
        };
        let out = self.transform_bin(&bin);
        proof {
            assert(bin@.take(256) =~= bin@);
        }
        Some(Ok(out))
    }

    /// Parses the program, lays out its data and assembles it into a `.MEM` file, as
    /// `spec_parse` describes.
    pub fn parse(&mut self) -> (r: Result<[u8; 516], AssemblerError>)
        requires
            old(self).wf(),
            spec_parse(old(self).text(), old(self).state(), old(self).symbols.start()) is Some,
        ensures
            final(self).wf(),
            final(self).text() == old(self).text(),
            final(self).state() == spec_parse_program(old(self).text(), old(self).state()).1,
            final(self).program == old(self).program,
            final(self).init_error == old(self).init_error,
            table_after_parse(old(self).text(), old(self).state(), old(self).symbols.start())
                matches Some(t) && final(self).symbols.program_counter == t.0
                && final(self).symbols.map@ == t.1,
            match spec_parse(old(self).text(), old(self).state(), old(self).symbols.start()) {
                Some(Ok(img)) => r matches Ok(b) && b@ == img,
                Some(Err(m)) => r matches Err(e) && e@ == m,
                None => false,
            },
    {
        let parsed_program = match self.parse_program() {
            Ok(p) => p,
            Err(e) => {
                return Err(AssemblerError::Lexer(e));
            },
        };
        match self.symbols.build(&parsed_program.setup) {
            Ok(()) => {},
            Err(e) => {
                return Err(AssemblerError::Syntax(e));
            },
        }
        let bin = match self.generate_binary(&parsed_program) {
            Ok(b) => b,
            Err(e) => {
                return Err(AssemblerError::Lexer(e));
            },
        };
        let bin = self.transform_bin(&bin);
        Ok(bin)
    }
}

} // verus!
