//! How the assembler reads the assembly that the calculator generates: token by token,
//! line by line, and section by section, down to the program it parses.
use vstd::prelude::*;
use vstd::string::*;
use crate::assembler::lexer::{
    digits_end, is_word_char, reserved_kind, skip_blanks, skip_comment, skip_newlines,
    spec_next_token, step, step_to, word_end, LexPos, TokenKind, TokenView,
};
use crate::assembler::parser::{
    encode, expand, expand_one, finish_section, instr_with_operand, measure, spec_advance, spec_consume_blanks,
    spec_expect_operand, spec_items, spec_parse_data_stmt, spec_parse_instruction,
    spec_parse_program, spec_parse_section, ProgramView, DataDecl, DeclView, InstrView, Instruction, OperandView, PState,
    Register, SectionItem,
};
use crate::calc::codegen::{
    const_name, data_line, data_lines, instructions, line, next_depth, store_result, temp_name,
    text_section, Symbol,
};
use crate::calc::parser::AST;
use crate::pipeline::{asm_start, calc_instrs, op_instr, op_instrs, temp_operand};
use crate::text::{
    alphabetic, all_ascii_digits, decimal, digit_char, is_blank, lemma_decimal_len, lemma_parse_decimal,
    spec_is_ascii_digit, spec_parse_u8,
};

verus! {

broadcast use vstd::string::group_string_axioms;

/// `w` is a name: it starts with a letter and runs over name characters.
pub open spec fn is_name(w: Seq<char>) -> bool {
    &&& w.len() > 0
    &&& alphabetic(w[0])
    &&& forall|j: int| 0 <= j < w.len() ==> #[trigger] is_word_char(w[j])
}

/// `s` holds `w` from `i` on.
pub open spec fn holds(s: Seq<char>, i: int, w: Seq<char>) -> bool {
    0 <= i && i + w.len() <= s.len() && s.subrange(i, i + w.len()) == w
}

proof fn lemma_word_end_at(s: Seq<char>, i: int, w: Seq<char>)
    requires
        holds(s, i, w),
        forall|j: int| 0 <= j < w.len() ==> #[trigger] is_word_char(w[j]),
        i + w.len() == s.len() || !is_word_char(s[i + w.len()]),
    ensures
        word_end(s, i) == i + w.len(),
    decreases w.len(),
{
    if w.len() > 0 {
        assert(s[i] == s.subrange(i, i + w.len())[0]);
        let w2 = w.drop_first();
        assert(s.subrange(i + 1, i + 1 + w2.len()) =~= w2) by {
            assert forall|j: int| 0 <= j < w2.len() implies s.subrange(i + 1, i + 1 + w2.len())[j]
                == w2[j] by {
                assert(s.subrange(i, i + w.len())[j + 1] == w[j + 1]);
            }
        }
        assert forall|j: int| 0 <= j < w2.len() implies #[trigger] is_word_char(w2[j]) by {
            assert(w2[j] == w[j + 1]);
        }
        lemma_word_end_at(s, i + 1, w2);
    }
}

proof fn lemma_digits_end_at(s: Seq<char>, i: int, w: Seq<char>)
    requires
        holds(s, i, w),
        all_ascii_digits(w),
        i + w.len() == s.len() || !spec_is_ascii_digit(s[i + w.len()]),
    ensures
        digits_end(s, i) == i + w.len(),
    decreases w.len(),
{
    if w.len() > 0 {
        assert(s[i] == s.subrange(i, i + w.len())[0]);
        assert(spec_is_ascii_digit(w[0]));
        let w2 = w.drop_first();
        assert(s.subrange(i + 1, i + 1 + w2.len()) =~= w2) by {
            assert forall|j: int| 0 <= j < w2.len() implies s.subrange(i + 1, i + 1 + w2.len())[j]
                == w2[j] by {
                assert(s.subrange(i, i + w.len())[j + 1] == w[j + 1]);
            }
        }
        assert forall|j: int| 0 <= j < w2.len() implies #[trigger] spec_is_ascii_digit(w2[j]) by {
            assert(w2[j] == w[j + 1]);
        }
        lemma_digits_end_at(s, i + 1, w2);
    }
}

/// A name is read as one token of its reserved kind.
pub proof fn lemma_token_name(s: Seq<char>, p: LexPos, w: Seq<char>)
    requires
        holds(s, p.pos, w),
        is_name(w),
        p.pos + w.len() == s.len() || !is_word_char(s[p.pos + w.len()]),
    ensures
        spec_next_token(s, p) == (
            Some(Ok::<TokenView, Seq<char>>(TokenView { kind: reserved_kind(w), lexeme: w, line: p.line })),
            step_to(p, p.pos + w.len()),
        ),
{
    let c = s[p.pos];
    assert(c == s.subrange(p.pos, p.pos + w.len())[0]);
    assert(!is_blank(c));
    assert(skip_blanks(s, p) == p);
    assert(skip_comment(s, p) == p);
    lemma_word_end_at(s, p.pos, w);
}

/// A byte written in decimal is read as one number token.
pub proof fn lemma_token_number(s: Seq<char>, p: LexPos, n: u8)
    requires
        holds(s, p.pos, decimal(n as nat)),
        p.pos + decimal(n as nat).len() == s.len() || !spec_is_ascii_digit(
            s[p.pos + decimal(n as nat).len()],
        ),
    ensures
        spec_next_token(s, p) == (
            Some(Ok::<TokenView, Seq<char>>(TokenView { kind: TokenKind::Num(n), lexeme: decimal(n as nat), line: p.line })),
            step_to(p, p.pos + decimal(n as nat).len()),
        ),
{
    let w = decimal(n as nat);
    lemma_parse_decimal(n);
    lemma_decimal_len(n as nat);
    let c = s[p.pos];
    assert(c == s.subrange(p.pos, p.pos + w.len())[0]);
    assert(spec_is_ascii_digit(w[0]));
    assert(!is_blank(c));
    assert(skip_blanks(s, p) == p);
    assert(skip_comment(s, p) == p);
    lemma_digits_end_at(s, p.pos, w);
}

/// A blank before a token is skipped.
pub proof fn lemma_token_blank(s: Seq<char>, p: LexPos)
    requires
        0 <= p.pos < s.len(),
        is_blank(s[p.pos]),
    ensures
        spec_next_token(s, p) == spec_next_token(s, step(p)),
{
    assert(skip_blanks(s, p) == skip_blanks(s, step(p)));
}

/// A single line break is read as one token, and the lexer moves to the next line.
pub proof fn lemma_token_newline(s: Seq<char>, p: LexPos)
    requires
        0 <= p.pos < s.len(),
        s[p.pos] == '\n',
        p.pos + 1 < s.len() ==> s[p.pos + 1] != '\n',
    ensures
        spec_next_token(s, p) == (
            Some(Ok::<TokenView, Seq<char>>(TokenView { kind: TokenKind::NewLine, lexeme: "\n"@, line: p.line + 1 })),
            LexPos { pos: p.pos + 1, line: p.line + 1, col: 1 },
        ),
{
    assert(skip_blanks(s, p) == p);
    assert(skip_comment(s, p) == p);
    let q = LexPos { pos: p.pos + 1, line: p.line + 1, col: 1 };
    assert(skip_newlines(s, q) == q);
}

/// `s` holds `a + b` from `i` on: it holds `a` there and `b` right after.
pub proof fn lemma_holds_split(s: Seq<char>, i: int, a: Seq<char>, b: Seq<char>)
    requires
        holds(s, i, a + b),
    ensures
        holds(s, i, a),
        holds(s, i + a.len(), b),
{
    assert(s.subrange(i, i + a.len()) =~= a) by {
        assert forall|j: int| 0 <= j < a.len() implies s.subrange(i, i + a.len())[j] == a[j] by {
            assert(s.subrange(i, i + (a + b).len())[j] == (a + b)[j]);
        }
    }
    assert(s.subrange(i + a.len(), i + a.len() + b.len()) =~= b) by {
        assert forall|j: int| 0 <= j < b.len() implies s.subrange(i + a.len(), i + a.len()
            + b.len())[j] == b[j] by {
            assert(s.subrange(i, i + (a + b).len())[a.len() + j] == (a + b)[a.len() + j]);
        }
    }
}

/// `s` holds one character `c` at `i`.
pub proof fn lemma_holds_char(s: Seq<char>, i: int, w: Seq<char>)
    requires
        holds(s, i, w),
        w.len() == 1,
    ensures
        s[i] == w[0],
{
    assert(s.subrange(i, i + 1)[0] == s[i]);
}

/// The parser at the start of line `line`, at `i`, looking at the line break before it.
pub open spec fn nl_state(i: int, line: int, valid: bool) -> PState {
    PState {
        lex: LexPos { pos: i, line, col: 1 },
        la: Some(TokenView { kind: TokenKind::NewLine, lexeme: "\n"@, line }),
        valid,
    }
}

/// From the line break before line `ln`, at `i`, the parser moves on to a token that is no
/// line break.
pub open spec fn starts_item(s: Seq<char>, i: int, ln: int, v: bool) -> bool {
    let (r, st1) = spec_advance(s, nl_state(i, ln, v));
    &&& r is Ok
    &&& st1.la matches Some(t) && !(t.kind is NewLine)
    &&& measure(s, st1) < measure(s, nl_state(i, ln, v))
}

/// The operand that `spec_expect_operand` gives for a name.
pub open spec fn operand_word(x: Seq<char>) -> Option<OperandView> {
    match reserved_kind(x) {
        TokenKind::Register(n) => if n == "t0"@ {
            Some(OperandView::Register(Register::T0))
        } else if n == "t1"@ {
            Some(OperandView::Register(Register::T1))
        } else if n == "t2"@ {
            Some(OperandView::Register(Register::T2))
        } else if n == "t3"@ {
            Some(OperandView::Register(Register::T3))
        } else if n == "t4"@ {
            Some(OperandView::Register(Register::T4))
        } else {
            None
        },
        TokenKind::Identifier(n) => Some(OperandView::Symbol(n)),
        _ => None,
    }
}

/// The text of an instruction line: a tab, the mnemonic, a space, the operand, a line
/// break.
pub open spec fn instr_line(m: Seq<char>, x: Seq<char>) -> Seq<char> {
    "\t"@ + m + " "@ + x + "\n"@
}

/// An instruction line is read as one instruction, and the parser ends at the next line.
#[verifier::rlimit(40)]
pub proof fn lemma_instr_line(
    s: Seq<char>,
    i: int,
    line: int,
    v: bool,
    m: Seq<char>,
    x: Seq<char>,
    ins: InstrView,
    acc: Seq<InstrView>,
)
    requires
        holds(s, i, instr_line(m, x)),
        is_name(m),
        is_name(x),
        reserved_kind(m) == TokenKind::Instruction(m),
        m != "hlt"@,
        m != "nop"@,
        operand_word(x) matches Some(o) && instr_with_operand(m, o) == Some(ins),
        i + instr_line(m, x).len() < s.len() ==> s[i + instr_line(m, x).len()] != '\n',
    ensures
        starts_item(s, i, line, v),
        spec_items::<Instruction>(s, nl_state(i, line, v), acc) == spec_items::<Instruction>(
            s,
            nl_state(i + instr_line(m, x).len(), line + 1, v),
            acc.push(ins),
        ),
{
    reveal_strlit("\t");
    reveal_strlit(" ");
    reveal_strlit("\n");
    let len = instr_line(m, x).len();
    let t = "\t"@;
    let sp = " "@;
    let nl = "\n"@;
    lemma_holds_split(s, i, t + m + sp + x, nl);
    lemma_holds_split(s, i, t + m + sp, x);
    lemma_holds_split(s, i, t + m, sp);
    lemma_holds_split(s, i, t, m);
    lemma_holds_char(s, i, t);
    lemma_holds_char(s, i + 1 + m.len(), sp);
    lemma_holds_char(s, i + 2 + m.len() + x.len(), nl);
    // the mnemonic
    let p0 = LexPos { pos: i, line, col: 1 };
    lemma_token_blank(s, p0);
    let p1 = step(p0);
    lemma_token_name(s, p1, m);
    let tok_m = TokenView { kind: TokenKind::Instruction(m), lexeme: m, line };
    let q1 = step_to(p1, i + 1 + m.len());
    let st1 = PState { lex: q1, la: Some(tok_m), valid: v };
    assert(spec_advance(s, nl_state(i, line, v)) == (Ok::<(), Seq<char>>(()), st1));
    // the operand
    lemma_token_blank(s, q1);
    let p2 = step(q1);
    lemma_token_name(s, p2, x);
    let tok_x = TokenView { kind: reserved_kind(x), lexeme: x, line };
    let q2 = step_to(p2, i + 2 + m.len() + x.len());
    let st2 = PState { lex: q2, la: Some(tok_x), valid: v };
    assert(spec_advance(s, st1) == (Ok::<(), Seq<char>>(()), st2));
    // the line break
    lemma_token_newline(s, q2);
    let st3 = nl_state(i + len, line + 1, v);
    assert(spec_advance(s, st2) == (Ok::<(), Seq<char>>(()), st3));
    let o = operand_word(x)->Some_0;
    assert(spec_expect_operand(s, st2) == (Ok::<OperandView, Seq<char>>(o), st3));
    assert(spec_parse_instruction(s, st1) == (Ok::<InstrView, Seq<char>>(ins), st3));
    assert(measure(s, st3) < measure(s, st1));
    assert(measure(s, st1) < measure(s, nl_state(i, line, v)));
    assert(spec_items::<Instruction>(s, st1, acc) == spec_items::<Instruction>(s, st3, acc.push(ins)));
}

/// The reserved words the generated assembly uses, and how they are read.
pub proof fn lemma_reserved_words()
    ensures
        reserved_kind("setup"@) == TokenKind::Label("setup"@),
        reserved_kind("text"@) == TokenKind::Label("text"@),
        reserved_kind("end"@) == TokenKind::Label("end"@),
        reserved_kind("DATA"@) == TokenKind::DataDeclaration("DATA"@),
        reserved_kind("lda"@) == TokenKind::Instruction("lda"@),
        reserved_kind("add"@) == TokenKind::Instruction("add"@),
        reserved_kind("sub"@) == TokenKind::Instruction("sub"@),
        reserved_kind("sta"@) == TokenKind::Instruction("sta"@),
        reserved_kind("hlt"@) == TokenKind::Instruction("hlt"@),
        reserved_kind("t0"@) == TokenKind::Register("t0"@),
        reserved_kind("t1"@) == TokenKind::Register("t1"@),
        reserved_kind("t2"@) == TokenKind::Register("t2"@),
        reserved_kind("t3"@) == TokenKind::Register("t3"@),
        reserved_kind("t4"@) == TokenKind::Register("t4"@),
        reserved_kind("t5"@) == TokenKind::Identifier("t5"@),
        "lda"@ != "hlt"@ && "lda"@ != "nop"@,
        "add"@ != "hlt"@ && "add"@ != "nop"@,
        "sub"@ != "hlt"@ && "sub"@ != "nop"@,
        "sta"@ != "hlt"@ && "sta"@ != "nop"@,
        is_name("setup"@) && is_name("text"@) && is_name("end"@) && is_name("DATA"@),
        is_name("lda"@) && is_name("add"@) && is_name("sub"@) && is_name("sta"@) && is_name(
            "hlt"@,
        ),
        is_name("t0"@) && is_name("t1"@) && is_name("t2"@) && is_name("t3"@) && is_name("t4"@)
            && is_name("t5"@),
{
    reveal_strlit("setup");
    reveal_strlit("text");
    reveal_strlit("end");
    reveal_strlit("DATA");
    reveal_strlit("SPACE");
    reveal_strlit("ORG");
    reveal_strlit("nop");
    reveal_strlit("add");
    reveal_strlit("sta");
    reveal_strlit("lda");
    reveal_strlit("or");
    reveal_strlit("and");
    reveal_strlit("not");
    reveal_strlit("jmp");
    reveal_strlit("jn");
    reveal_strlit("jz");
    reveal_strlit("hlt");
    reveal_strlit("sub");
    reveal_strlit("t0");
    reveal_strlit("t1");
    reveal_strlit("t2");
    reveal_strlit("t3");
    reveal_strlit("t4");
    reveal_strlit("t5");
    assert("setup"@.len() == 5 && "setup"@[0] == 's' && "setup"@[1] == 'e');
    assert("text"@.len() == 4 && "text"@[0] == 't' && "text"@[1] == 'e');
    assert("end"@.len() == 3 && "end"@[0] == 'e' && "end"@[1] == 'n');
    assert("DATA"@.len() == 4 && "DATA"@[0] == 'D' && "DATA"@[1] == 'A');
    assert("SPACE"@.len() == 5 && "SPACE"@[0] == 'S' && "SPACE"@[1] == 'P');
    assert("ORG"@.len() == 3 && "ORG"@[0] == 'O' && "ORG"@[1] == 'R');
    assert("nop"@.len() == 3 && "nop"@[0] == 'n' && "nop"@[1] == 'o');
    assert("add"@.len() == 3 && "add"@[0] == 'a' && "add"@[1] == 'd');
    assert("sta"@.len() == 3 && "sta"@[0] == 's' && "sta"@[1] == 't');
    assert("lda"@.len() == 3 && "lda"@[0] == 'l' && "lda"@[1] == 'd');
    assert("or"@.len() == 2 && "or"@[0] == 'o' && "or"@[1] == 'r');
    assert("and"@.len() == 3 && "and"@[0] == 'a' && "and"@[1] == 'n');
    assert("not"@.len() == 3 && "not"@[0] == 'n' && "not"@[1] == 'o');
    assert("jmp"@.len() == 3 && "jmp"@[0] == 'j' && "jmp"@[1] == 'm');
    assert("jn"@.len() == 2 && "jn"@[0] == 'j' && "jn"@[1] == 'n');
    assert("jz"@.len() == 2 && "jz"@[0] == 'j' && "jz"@[1] == 'z');
    assert("hlt"@.len() == 3 && "hlt"@[0] == 'h' && "hlt"@[1] == 'l');
    assert("sub"@.len() == 3 && "sub"@[0] == 's' && "sub"@[1] == 'u');
    assert("t0"@.len() == 2 && "t0"@[0] == 't' && "t0"@[1] == '0');
    assert("t1"@.len() == 2 && "t1"@[0] == 't' && "t1"@[1] == '1');
    assert("t2"@.len() == 2 && "t2"@[0] == 't' && "t2"@[1] == '2');
    assert("t3"@.len() == 2 && "t3"@[0] == 't' && "t3"@[1] == '3');
    assert("t4"@.len() == 2 && "t4"@[0] == 't' && "t4"@[1] == '4');
    assert("t5"@.len() == 2 && "t5"@[0] == 't' && "t5"@[1] == '5');
}

/// Every word longer than five characters is read as an identifier.
pub proof fn lemma_long_word(w: Seq<char>)
    requires
        w.len() > 5,
    ensures
        reserved_kind(w) == TokenKind::Identifier(w),
{
    reveal_strlit("setup");
    reveal_strlit("text");
    reveal_strlit("end");
    reveal_strlit("DATA");
    reveal_strlit("SPACE");
    reveal_strlit("ORG");
    reveal_strlit("nop");
    reveal_strlit("add");
    reveal_strlit("sta");
    reveal_strlit("lda");
    reveal_strlit("or");
    reveal_strlit("and");
    reveal_strlit("not");
    reveal_strlit("jmp");
    reveal_strlit("jn");
    reveal_strlit("jz");
    reveal_strlit("hlt");
    reveal_strlit("sub");
    reveal_strlit("t0");
    reveal_strlit("t1");
    reveal_strlit("t2");
    reveal_strlit("t3");
    reveal_strlit("t4");
    reveal_strlit("t5");
}

/// The reserved words, told apart by their length and first two characters.
proof fn lemma_words_distinct()
    ensures
        "setup"@.len() == 5 && "setup"@[0] == 's' && "setup"@[1] == 'e',
        "text"@.len() == 4 && "text"@[0] == 't' && "text"@[1] == 'e',
        "end"@.len() == 3 && "end"@[0] == 'e' && "end"@[1] == 'n',
        "DATA"@.len() == 4 && "DATA"@[0] == 'D' && "DATA"@[1] == 'A',
        "SPACE"@.len() == 5 && "SPACE"@[0] == 'S' && "SPACE"@[1] == 'P',
        "ORG"@.len() == 3 && "ORG"@[0] == 'O' && "ORG"@[1] == 'R',
        "nop"@.len() == 3 && "nop"@[0] == 'n' && "nop"@[1] == 'o',
        "add"@.len() == 3 && "add"@[0] == 'a' && "add"@[1] == 'd',
        "sta"@.len() == 3 && "sta"@[0] == 's' && "sta"@[1] == 't',
        "lda"@.len() == 3 && "lda"@[0] == 'l' && "lda"@[1] == 'd',
        "or"@.len() == 2 && "or"@[0] == 'o' && "or"@[1] == 'r',
        "and"@.len() == 3 && "and"@[0] == 'a' && "and"@[1] == 'n',
        "not"@.len() == 3 && "not"@[0] == 'n' && "not"@[1] == 'o',
        "jmp"@.len() == 3 && "jmp"@[0] == 'j' && "jmp"@[1] == 'm',
        "jn"@.len() == 2 && "jn"@[0] == 'j' && "jn"@[1] == 'n',
        "jz"@.len() == 2 && "jz"@[0] == 'j' && "jz"@[1] == 'z',
        "hlt"@.len() == 3 && "hlt"@[0] == 'h' && "hlt"@[1] == 'l',
        "sub"@.len() == 3 && "sub"@[0] == 's' && "sub"@[1] == 'u',
        "t0"@.len() == 2 && "t0"@[0] == 't' && "t0"@[1] == '0',
        "t1"@.len() == 2 && "t1"@[0] == 't' && "t1"@[1] == '1',
        "t2"@.len() == 2 && "t2"@[0] == 't' && "t2"@[1] == '2',
        "t3"@.len() == 2 && "t3"@[0] == 't' && "t3"@[1] == '3',
        "t4"@.len() == 2 && "t4"@[0] == 't' && "t4"@[1] == '4',
        "t5"@.len() == 2 && "t5"@[0] == 't' && "t5"@[1] == '5',
        "nop"@[2] == 'p',
        "add"@[2] == 'd',
        "sta"@[2] == 'a',
        "lda"@[2] == 'a',
        "and"@[2] == 'd',
        "not"@[2] == 't',
        "jmp"@[2] == 'p',
        "hlt"@[2] == 't',
        "sub"@[2] == 'b',
{
    reveal_strlit("setup");
    reveal_strlit("text");
    reveal_strlit("end");
    reveal_strlit("DATA");
    reveal_strlit("SPACE");
    reveal_strlit("ORG");
    reveal_strlit("nop");
    reveal_strlit("add");
    reveal_strlit("sta");
    reveal_strlit("lda");
    reveal_strlit("or");
    reveal_strlit("and");
    reveal_strlit("not");
    reveal_strlit("jmp");
    reveal_strlit("jn");
    reveal_strlit("jz");
    reveal_strlit("hlt");
    reveal_strlit("sub");
    reveal_strlit("t0");
    reveal_strlit("t1");
    reveal_strlit("t2");
    reveal_strlit("t3");
    reveal_strlit("t4");
    reveal_strlit("t5");
    assert("setup"@.len() == 5 && "setup"@[0] == 's' && "setup"@[1] == 'e');
    assert("text"@.len() == 4 && "text"@[0] == 't' && "text"@[1] == 'e');
    assert("end"@.len() == 3 && "end"@[0] == 'e' && "end"@[1] == 'n');
    assert("DATA"@.len() == 4 && "DATA"@[0] == 'D' && "DATA"@[1] == 'A');
    assert("SPACE"@.len() == 5 && "SPACE"@[0] == 'S' && "SPACE"@[1] == 'P');
    assert("ORG"@.len() == 3 && "ORG"@[0] == 'O' && "ORG"@[1] == 'R');
    assert("nop"@.len() == 3 && "nop"@[0] == 'n' && "nop"@[1] == 'o');
    assert("add"@.len() == 3 && "add"@[0] == 'a' && "add"@[1] == 'd');
    assert("sta"@.len() == 3 && "sta"@[0] == 's' && "sta"@[1] == 't');
    assert("lda"@.len() == 3 && "lda"@[0] == 'l' && "lda"@[1] == 'd');
    assert("or"@.len() == 2 && "or"@[0] == 'o' && "or"@[1] == 'r');
    assert("and"@.len() == 3 && "and"@[0] == 'a' && "and"@[1] == 'n');
    assert("not"@.len() == 3 && "not"@[0] == 'n' && "not"@[1] == 'o');
    assert("jmp"@.len() == 3 && "jmp"@[0] == 'j' && "jmp"@[1] == 'm');
    assert("jn"@.len() == 2 && "jn"@[0] == 'j' && "jn"@[1] == 'n');
    assert("jz"@.len() == 2 && "jz"@[0] == 'j' && "jz"@[1] == 'z');
    assert("hlt"@.len() == 3 && "hlt"@[0] == 'h' && "hlt"@[1] == 'l');
    assert("sub"@.len() == 3 && "sub"@[0] == 's' && "sub"@[1] == 'u');
    assert("t0"@.len() == 2 && "t0"@[0] == 't' && "t0"@[1] == '0');
    assert("t1"@.len() == 2 && "t1"@[0] == 't' && "t1"@[1] == '1');
    assert("t2"@.len() == 2 && "t2"@[0] == 't' && "t2"@[1] == '2');
    assert("t3"@.len() == 2 && "t3"@[0] == 't' && "t3"@[1] == '3');
    assert("t4"@.len() == 2 && "t4"@[0] == 't' && "t4"@[1] == '4');
    assert("t5"@.len() == 2 && "t5"@[0] == 't' && "t5"@[1] == '5');
}

/// The mnemonics that take an operand are reserved instruction words and names.
proof fn lemma_operand_mnemonics(m: Seq<char>)
    requires
        m == "add"@ || m == "sta"@ || m == "lda"@ || m == "or"@ || m == "and"@ || m == "not"@
            || m == "jmp"@ || m == "jn"@ || m == "jz"@ || m == "sub"@,
    ensures
        reserved_kind(m) == TokenKind::Instruction(m),
        is_name(m),
        m != "hlt"@,
        m != "nop"@,
        instr_with_operand(m, OperandView::Symbol(seq![])) is Some,
{
    lemma_words_distinct();
    assert(forall|j: int| 0 <= j < m.len() ==> #[trigger] is_word_char(m[j]));
    assert(alphabetic(m[0]));
}

/// Every mnemonic of the opcode table that takes an operand is read, on an instruction
/// line, as one instruction, and assembles to that table's native instructions: `ADD`
/// 48, `STA` 16, `LDA` 32, `OR` 64, `AND` 80, `JMP` 128, `JN` 144 and `JZ` 160, each
/// followed by the operand's address; `NOT` 96 alone, without an address byte; and the
/// `SUB` macro as `NOT`, `ADD` with the operand, `NOT`.
pub proof fn lemma_mnemonic_line(
    s: Seq<char>,
    i: int,
    line: int,
    v: bool,
    m: Seq<char>,
    x: Seq<char>,
    o: OperandView,
    acc: Seq<InstrView>,
)
    requires
        m == "add"@ || m == "sta"@ || m == "lda"@ || m == "or"@ || m == "and"@ || m == "not"@
            || m == "jmp"@ || m == "jn"@ || m == "jz"@ || m == "sub"@,
        holds(s, i, instr_line(m, x)),
        is_name(x),
        operand_word(x) == Some(o),
        i + instr_line(m, x).len() < s.len() ==> s[i + instr_line(m, x).len()] != '\n',
    ensures
        ({
            let ins = instr_with_operand(m, o)->Some_0;
            let native = expand(seq![ins]).map_values(|j: InstrView| encode(j));
            &&& spec_items::<Instruction>(s, nl_state(i, line, v), acc) == spec_items::<
                Instruction,
            >(s, nl_state(i + instr_line(m, x).len(), line + 1, v), acc.push(ins))
            &&& m == "add"@ ==> native == seq![(48u8, Some(o))]
            &&& m == "sta"@ ==> native == seq![(16u8, Some(o))]
            &&& m == "lda"@ ==> native == seq![(32u8, Some(o))]
            &&& m == "or"@ ==> native == seq![(64u8, Some(o))]
            &&& m == "and"@ ==> native == seq![(80u8, Some(o))]
            &&& m == "not"@ ==> native == seq![(96u8, None::<OperandView>)]
            &&& m == "jmp"@ ==> native == seq![(128u8, Some(o))]
            &&& m == "jn"@ ==> native == seq![(144u8, Some(o))]
            &&& m == "jz"@ ==> native == seq![(160u8, Some(o))]
            &&& m == "sub"@ ==> native == seq![
                (96u8, None::<OperandView>),
                (48u8, Some(o)),
                (96u8, None::<OperandView>),
            ]
        }),
{
    lemma_operand_mnemonics(m);
    lemma_words_distinct();
    let ins = instr_with_operand(m, o)->Some_0;
    lemma_instr_line(s, i, line, v, m, x, ins, acc);
    let e = expand(seq![ins]);
    assert(seq![ins].drop_first() =~= Seq::<InstrView>::empty());
    assert(e == expand_one(ins) + expand(Seq::<InstrView>::empty()));
    assert(e =~= expand_one(ins));
    let native = e.map_values(|j: InstrView| encode(j));
    if m == "sub"@ {
        assert(native =~= seq![(96u8, None::<OperandView>), (48u8, Some(o)), (96u8, None::<OperandView>)]);
    } else {
        assert(native =~= seq![encode(ins)]);
    }
}

/// The mnemonics without an operand, `hlt` and `nop`, are each read, alone on a line, as
/// one instruction that assembles to its opcode alone: `HLT` 240 and `NOP` 0.
pub proof fn lemma_bare_mnemonic_line(
    s: Seq<char>,
    i: int,
    line: int,
    v: bool,
    m: Seq<char>,
    acc: Seq<InstrView>,
)
    requires
        m == "hlt"@ || m == "nop"@,
        holds(s, i, "\t"@ + m + "\n"@),
        i + 5 < s.len() ==> s[i + 5] != '\n',
    ensures
        ({
            let ins = if m == "hlt"@ { InstrView::Hlt } else { InstrView::Nop };
            &&& spec_items::<Instruction>(s, nl_state(i, line, v), acc) == spec_items::<
                Instruction,
            >(s, nl_state(i + 5, line + 1, v), acc.push(ins))
            &&& m == "hlt"@ ==> expand(seq![ins]) == seq![ins] && encode(ins) == (
                240u8,
                None::<OperandView>,
            )
            &&& m == "nop"@ ==> expand(seq![ins]) == seq![ins] && encode(ins) == (
                0u8,
                None::<OperandView>,
            )
        }),
{
    reveal_strlit("\t");
    reveal_strlit("\n");
    lemma_words_distinct();
    lemma_reserved_words();
    let ins = if m == "hlt"@ { InstrView::Hlt } else { InstrView::Nop };
    assert(reserved_kind(m) == TokenKind::Instruction(m));
    assert(m.len() == 3);
    let w = "\t"@ + m + "\n"@;
    assert(s.subrange(i, i + 5)[0] == s[i]);
    assert(s.subrange(i + 1, i + 4) =~= m) by {
        assert forall|j: int| 0 <= j < 3 implies s.subrange(i + 1, i + 4)[j] == m[j] by {
            assert(s.subrange(i, i + 5)[j + 1] == s[i + 1 + j]);
            assert(w[j + 1] == m[j]);
        }
    }
    assert(s.subrange(i, i + 5)[4] == s[i + 4]);
    assert(is_name(m)) by {
        assert(forall|j: int| 0 <= j < m.len() ==> #[trigger] is_word_char(m[j]));
    }
    let p0 = LexPos { pos: i, line, col: 1 };
    lemma_token_blank(s, p0);
    let p1 = step(p0);
    lemma_token_name(s, p1, m);
    let q1 = step_to(p1, i + 4);
    let st1 = PState {
        lex: q1,
        la: Some(TokenView { kind: TokenKind::Instruction(m), lexeme: m, line }),
        valid: v,
    };
    assert(spec_advance(s, nl_state(i, line, v)) == (Ok::<(), Seq<char>>(()), st1));
    lemma_token_newline(s, q1);
    let st2 = nl_state(i + 5, line + 1, v);
    assert(spec_advance(s, st1) == (Ok::<(), Seq<char>>(()), st2));
    assert(spec_parse_instruction(s, st1) == (Ok::<InstrView, Seq<char>>(ins), st2));
    assert(measure(s, st2) < measure(s, st1));
    assert(measure(s, st1) < measure(s, nl_state(i, line, v)));
    assert(spec_items::<Instruction>(s, st1, acc) == spec_items::<Instruction>(
        s,
        st2,
        acc.push(ins),
    ));
    assert(seq![ins].drop_first() =~= Seq::<InstrView>::empty());
    assert(expand(seq![ins]) == expand_one(ins) + expand(Seq::<InstrView>::empty()));
    assert(expand(seq![ins]) =~= seq![ins]);
}

/// The `hlt` line is read as `HLT`.
pub proof fn lemma_hlt_line(s: Seq<char>, i: int, line: int, v: bool, acc: Seq<InstrView>)
    requires
        holds(s, i, "\thlt\n"@),
        i + 5 < s.len() ==> s[i + 5] != '\n',
    ensures
        spec_items::<Instruction>(s, nl_state(i, line, v), acc) == spec_items::<Instruction>(
            s,
            nl_state(i + 5, line + 1, v),
            acc.push(InstrView::Hlt),
        ),
{
    reveal_strlit("\thlt\n");
    reveal_strlit("hlt");
    lemma_reserved_words();
    let m = "hlt"@;
    assert(s.subrange(i, i + 5)[0] == s[i]);
    assert(s.subrange(i + 1, i + 4) =~= m) by {
        assert forall|j: int| 0 <= j < 3 implies s.subrange(i + 1, i + 4)[j] == m[j] by {
            assert(s.subrange(i, i + 5)[j + 1] == s[i + 1 + j]);
        }
    }
    assert(s.subrange(i, i + 5)[4] == s[i + 4]);
    let p0 = LexPos { pos: i, line, col: 1 };
    lemma_token_blank(s, p0);
    let p1 = step(p0);
    lemma_token_name(s, p1, m);
    let q1 = step_to(p1, i + 4);
    let st1 = PState {
        lex: q1,
        la: Some(TokenView { kind: TokenKind::Instruction(m), lexeme: m, line }),
        valid: v,
    };
    assert(spec_advance(s, nl_state(i, line, v)) == (Ok::<(), Seq<char>>(()), st1));
    lemma_token_newline(s, q1);
    let st2 = nl_state(i + 5, line + 1, v);
    assert(spec_advance(s, st1) == (Ok::<(), Seq<char>>(()), st2));
    assert(spec_parse_instruction(s, st1) == (Ok::<InstrView, Seq<char>>(InstrView::Hlt), st2));
    assert(measure(s, st2) < measure(s, st1));
    assert(measure(s, st1) < measure(s, nl_state(i, line, v)));
    assert(spec_items::<Instruction>(s, st1, acc) == spec_items::<Instruction>(
        s,
        st2,
        acc.push(InstrView::Hlt),
    ));
}

/// The text of a declaration line: a tab, the name, ` DATA `, the value, a line break.
pub open spec fn data_line_text(name: Seq<char>, n: u8) -> Seq<char> {
    "\t"@ + name + " DATA "@ + decimal(n as nat) + "\n"@
}

/// A declaration line is read as one `DATA` declaration.
#[verifier::rlimit(40)]
pub proof fn lemma_data_line(
    s: Seq<char>,
    i: int,
    line: int,
    v: bool,
    name: Seq<char>,
    n: u8,
    acc: Seq<DeclView>,
)
    requires
        holds(s, i, data_line_text(name, n)),
        is_name(name),
        reserved_kind(name) == TokenKind::Identifier(name),
        i + data_line_text(name, n).len() < s.len() ==> s[i + data_line_text(name, n).len()]
            != '\n',
    ensures
        starts_item(s, i, line, v),
        spec_items::<DataDecl>(s, nl_state(i, line, v), acc) == spec_items::<DataDecl>(
            s,
            nl_state(i + data_line_text(name, n).len(), line + 1, v),
            acc.push(DeclView::Data(name, n)),
        ),
{
    reveal_strlit("\t");
    reveal_strlit(" DATA ");
    reveal_strlit("\n");
    reveal_strlit("DATA");
    reveal_strlit("ORG");
    lemma_reserved_words();
    let len = data_line_text(name, n).len();
    let t = "\t"@;
    let mid = " DATA "@;
    let nl = "\n"@;
    let dec = decimal(n as nat);
    let data = "DATA"@;
    lemma_holds_split(s, i, t + name + mid + dec, nl);
    lemma_holds_split(s, i, t + name + mid, dec);
    lemma_holds_split(s, i, t + name, mid);
    lemma_holds_split(s, i, t, name);
    lemma_holds_char(s, i, t);
    lemma_holds_char(s, i + 1 + name.len() + mid.len() + dec.len(), nl);
    let k = i + 1 + name.len();
    assert(s[k] == mid[0]) by {
        assert(s.subrange(k, k + 6)[0] == s[k]);
    }
    assert(s.subrange(k + 1, k + 5) =~= data) by {
        assert forall|j: int| 0 <= j < 4 implies s.subrange(k + 1, k + 5)[j] == data[j] by {
            assert(s.subrange(k, k + 6)[j + 1] == s[k + 1 + j]);
        }
    }
    assert(s[k + 5] == ' ') by {
        assert(s.subrange(k, k + 6)[5] == s[k + 5]);
    }
    lemma_parse_decimal(n);
    lemma_decimal_len(n as nat);
    // the name
    let p0 = LexPos { pos: i, line, col: 1 };
    lemma_token_blank(s, p0);
    let p1 = step(p0);
    assert(!is_word_char(s[k]));
    lemma_token_name(s, p1, name);
    let q1 = step_to(p1, k);
    let st1 = PState {
        lex: q1,
        la: Some(TokenView { kind: TokenKind::Identifier(name), lexeme: name, line }),
        valid: v,
    };
    assert(spec_advance(s, nl_state(i, line, v)) == (Ok::<(), Seq<char>>(()), st1));
    // DATA
    lemma_token_blank(s, q1);
    let p2 = step(q1);
    assert(is_name(data));
    lemma_token_name(s, p2, data);
    let q2 = step_to(p2, k + 5);
    let st2 = PState {
        lex: q2,
        la: Some(TokenView { kind: TokenKind::DataDeclaration(data), lexeme: data, line }),
        valid: v,
    };
    assert(spec_advance(s, st1) == (Ok::<(), Seq<char>>(()), st2));
    // the value
    lemma_token_blank(s, q2);
    let p3 = step(q2);
    lemma_token_number(s, p3, n);
    let q3 = step_to(p3, k + 6 + dec.len());
    let st3 = PState {
        lex: q3,
        la: Some(TokenView { kind: TokenKind::Num(n), lexeme: dec, line }),
        valid: v,
    };
    assert(spec_advance(s, st2) == (Ok::<(), Seq<char>>(()), st3));
    // the line break
    lemma_token_newline(s, q3);
    let st4 = nl_state(i + len, line + 1, v);
    assert(spec_advance(s, st3) == (Ok::<(), Seq<char>>(()), st4));
    assert(TokenKind::Identifier(name) != TokenKind::DataDeclaration("ORG"@));
    assert(spec_parse_data_stmt(s, st1) == (Ok::<DeclView, Seq<char>>(DeclView::Data(name, n)), st4));
    assert(measure(s, st4) < measure(s, st1));
    assert(measure(s, st1) < measure(s, nl_state(i, line, v)));
    assert(spec_items::<DataDecl>(s, st1, acc) == spec_items::<DataDecl>(
        s,
        st4,
        acc.push(DeclView::Data(name, n)),
    ));
}

/// The parser looking at a name `w` that starts at `j` on line `line`, which began at `i`.
pub open spec fn name_state(i: int, j: int, line: int, v: bool, w: Seq<char>) -> PState {
    PState {
        lex: LexPos { pos: j + w.len(), line, col: 1 + j + w.len() - i },
        la: Some(TokenView { kind: reserved_kind(w), lexeme: w, line }),
        valid: v,
    }
}

/// From a line break, the parser moves to the name that starts the next line, directly
/// or after a tab; skipping line breaks, or taking the items of a section, starts there.
pub proof fn lemma_nl_to_name(s: Seq<char>, i: int, j: int, line: int, v: bool, w: Seq<char>)
    requires
        j == i || (j == i + 1 && 0 <= i < s.len() && s[i] == '\t'),
        holds(s, j, w),
        is_name(w),
        j + w.len() == s.len() || !is_word_char(s[j + w.len()]),
    ensures
        spec_advance(s, nl_state(i, line, v)) == (Ok::<(), Seq<char>>(()), name_state(i, j, line, v, w)),
        measure(s, name_state(i, j, line, v, w)) < measure(s, nl_state(i, line, v)),
        spec_consume_blanks(s, nl_state(i, line, v)) == (Ok::<(), Seq<char>>(()), name_state(i, j, line, v, w)),
        forall|acc: Seq<DeclView>| #[trigger] spec_items::<DataDecl>(s, nl_state(i, line, v), acc)
            == spec_items::<DataDecl>(s, name_state(i, j, line, v, w), acc),
        forall|acc: Seq<InstrView>| #[trigger] spec_items::<Instruction>(s, nl_state(i, line, v), acc)
            == spec_items::<Instruction>(s, name_state(i, j, line, v, w), acc),
{
    let p0 = LexPos { pos: i, line, col: 1 };
    if j == i + 1 {
        lemma_token_blank(s, p0);
        lemma_token_name(s, step(p0), w);
    } else {
        lemma_token_name(s, p0, w);
    }
    let st = name_state(i, j, line, v, w);
    assert(!(reserved_kind(w) is NewLine));
    assert(spec_consume_blanks(s, st) == (Ok::<(), Seq<char>>(()), st));
}

/// The `end` line closes a section: the items taken so far are its items, and the parser
/// moves to the next line.
pub proof fn lemma_end_line<T: SectionItem>(s: Seq<char>, i: int, line: int, v: bool, acc: Seq<T::V>)
    requires
        holds(s, i, "end\n"@),
        i + 4 < s.len() ==> s[i + 4] != '\n',
    ensures
        spec_advance(s, nl_state(i, line, v)) == (Ok::<(), Seq<char>>(()), name_state(i, i, line, v, "end"@)),
        starts_item(s, i, line, v),
        finish_section::<T>(s, spec_items::<T>(s, nl_state(i, line, v), acc)) == (
            Ok::<Seq<T::V>, Seq<char>>(acc),
            nl_state(i + 4, line + 1, v),
        ),
{
    reveal_strlit("end\n");
    reveal_strlit("end");
    lemma_reserved_words();
    let e = "end"@;
    assert(s.subrange(i, i + 3) =~= e) by {
        assert forall|j: int| 0 <= j < 3 implies s.subrange(i, i + 3)[j] == e[j] by {
            assert(s.subrange(i, i + 4)[j] == s[i + j]);
        }
    }
    assert(s[i + 3] == '\n') by {
        assert(s.subrange(i, i + 4)[3] == s[i + 3]);
    }
    let p0 = LexPos { pos: i, line, col: 1 };
    lemma_token_name(s, p0, e);
    let st = name_state(i, i, line, v, e);
    assert(spec_advance(s, nl_state(i, line, v)) == (Ok::<(), Seq<char>>(()), st));
    assert(measure(s, st) < measure(s, nl_state(i, line, v)));
    assert(spec_items::<T>(s, nl_state(i, line, v), acc) == spec_items::<T>(s, st, acc));
    assert(spec_items::<T>(s, st, acc) == (Ok::<Seq<T::V>, Seq<char>>(acc), st));
    lemma_token_newline(s, st.lex);
}

/// After a section's label, the section is read from the next line on.
pub proof fn lemma_section_start<T: SectionItem>(s: Seq<char>, st: PState, name: Seq<char>)
    requires
        st.la == Some(TokenView { kind: TokenKind::Label(name), lexeme: name, line: st.lex.line }),
        0 <= st.lex.pos < s.len() - 1,
        s[st.lex.pos] == '\n',
        s[st.lex.pos + 1] != '\n',
        starts_item(s, st.lex.pos + 1, st.lex.line + 1, st.valid),
    ensures
        spec_parse_section::<T>(s, st, name) == finish_section::<T>(
            s,
            spec_items::<T>(s, nl_state(st.lex.pos + 1, st.lex.line + 1, st.valid), Seq::empty()),
        ),
{
    let k = st.lex.pos;
    lemma_token_newline(s, st.lex);
    let nl = nl_state(k + 1, st.lex.line + 1, st.valid);
    assert(spec_advance(s, st) == (Ok::<(), Seq<char>>(()), nl));
    let st1 = spec_advance(s, nl).1;
    assert(spec_consume_blanks(s, st1) == (Ok::<(), Seq<char>>(()), st1));
    assert(spec_consume_blanks(s, nl) == (Ok::<(), Seq<char>>(()), st1));
    assert(spec_items::<T>(s, nl, Seq::empty()) == spec_items::<T>(s, st1, Seq::empty()));
}

/// The name of a constant is read as an identifier.
pub proof fn lemma_const_word(n: u8)
    ensures
        is_name(const_name(n)),
        reserved_kind(const_name(n)) == TokenKind::Identifier(const_name(n)),
        operand_word(const_name(n)) == Some(OperandView::Symbol(const_name(n))),
{
    reveal_strlit("CONST");
    let w = const_name(n);
    let dec = decimal(n as nat);
    lemma_parse_decimal(n);
    lemma_decimal_len(n as nat);
    assert forall|j: int| 0 <= j < w.len() implies #[trigger] is_word_char(w[j]) by {
        if j >= 5 {
            assert(w[j] == dec[j - 5]);
            assert(spec_is_ascii_digit(dec[j - 5]));
        }
    }
    lemma_long_word(w);
}

/// The register names of the generated code are read as the operands the program holds.
pub proof fn lemma_temp_word(d: nat)
    requires
        d <= 4,
    ensures
        is_name(temp_name(d)),
        operand_word(temp_name(d)) == Some(temp_operand(d)),
        is_name("t4"@),
        operand_word("t4"@) == Some(OperandView::Register(Register::T4)),
{
    lemma_reserved_words();
    reveal_strlit("t");
    reveal_strlit("t0");
    reveal_strlit("t1");
    reveal_strlit("t2");
    reveal_strlit("t3");
    reveal_strlit("t4");
    reveal_strlit("t5");
    assert("t0"@.len() == 2 && "t0"@[0] == 't' && "t0"@[1] == '0');
    assert("t1"@.len() == 2 && "t1"@[0] == 't' && "t1"@[1] == '1');
    assert("t2"@.len() == 2 && "t2"@[0] == 't' && "t2"@[1] == '2');
    assert("t3"@.len() == 2 && "t3"@[0] == 't' && "t3"@[1] == '3');
    assert("t4"@.len() == 2 && "t4"@[0] == 't' && "t4"@[1] == '4');
    assert("t5"@.len() == 2 && "t5"@[0] == 't' && "t5"@[1] == '5');
    if d < 4 {
        assert(decimal(d) =~= seq![digit_char(d)]);
        if d == 0 {
            assert(temp_name(d) =~= "t0"@);
        } else if d == 1 {
            assert(temp_name(d) =~= "t1"@);
        } else if d == 2 {
            assert(temp_name(d) =~= "t2"@);
        } else {
            assert(temp_name(d) =~= "t3"@);
        }
    }
}

/// The mnemonic of a generated line: `lda`, `add`, `sub` or `sta`.
pub open spec fn mnemonic(k: int) -> Seq<char> {
    if k == 0 {
        "lda"@
    } else if k == 1 {
        "add"@
    } else if k == 2 {
        "sub"@
    } else {
        "sta"@
    }
}

/// The start of a generated line: a tab, the mnemonic and a space.
pub open spec fn line_head(k: int) -> Seq<char> {
    if k == 0 {
        "\tlda "@
    } else if k == 1 {
        "\tadd "@
    } else if k == 2 {
        "\tsub "@
    } else {
        "\tsta "@
    }
}

/// The instruction of a generated line.
pub open spec fn line_instr(k: int, o: OperandView) -> InstrView {
    if k == 0 {
        InstrView::Lda(o)
    } else if k == 1 {
        InstrView::Add(o)
    } else if k == 2 {
        InstrView::Sub(o)
    } else {
        InstrView::Sta(o)
    }
}

proof fn lemma_instr_with_operand(k: int, o: OperandView)
    requires
        0 <= k < 4,
    ensures
        instr_with_operand(mnemonic(k), o) == Some(line_instr(k, o)),
{
    reveal_strlit("add");
    reveal_strlit("lda");
    reveal_strlit("sta");
    reveal_strlit("jmp");
    reveal_strlit("jn");
    reveal_strlit("jz");
    reveal_strlit("or");
    reveal_strlit("not");
    reveal_strlit("and");
    reveal_strlit("sub");
    assert("add"@.len() == 3 && "add"@[0] == 'a' && "add"@[1] == 'd');
    assert("lda"@.len() == 3 && "lda"@[0] == 'l' && "lda"@[1] == 'd');
    assert("sta"@.len() == 3 && "sta"@[0] == 's' && "sta"@[1] == 't');
    assert("jmp"@.len() == 3 && "jmp"@[0] == 'j' && "jmp"@[1] == 'm');
    assert("jn"@.len() == 2 && "jn"@[0] == 'j' && "jn"@[1] == 'n');
    assert("jz"@.len() == 2 && "jz"@[0] == 'j' && "jz"@[1] == 'z');
    assert("or"@.len() == 2 && "or"@[0] == 'o' && "or"@[1] == 'r');
    assert("not"@.len() == 3 && "not"@[0] == 'n' && "not"@[1] == 'o');
    assert("and"@.len() == 3 && "and"@[0] == 'a' && "and"@[1] == 'n');
    assert("sub"@.len() == 3 && "sub"@[0] == 's' && "sub"@[1] == 'u');
}

/// A generated line is read as its instruction.
pub proof fn lemma_gen_line(
    s: Seq<char>,
    i: int,
    ln: int,
    v: bool,
    k: int,
    x: Seq<char>,
    o: OperandView,
    acc: Seq<InstrView>,
)
    requires
        0 <= k < 4,
        holds(s, i, line(line_head(k), x)),
        is_name(x),
        operand_word(x) == Some(o),
        i + line(line_head(k), x).len() < s.len() ==> s[i + line(line_head(k), x).len()] != '\n',
    ensures
        line(line_head(k), x).len() == instr_line(mnemonic(k), x).len(),
        starts_item(s, i, ln, v),
        spec_items::<Instruction>(s, nl_state(i, ln, v), acc) == spec_items::<Instruction>(
            s,
            nl_state(i + line(line_head(k), x).len(), ln + 1, v),
            acc.push(line_instr(k, o)),
        ),
{
    reveal_strlit("\tlda ");
    reveal_strlit("\tadd ");
    reveal_strlit("\tsub ");
    reveal_strlit("\tsta ");
    reveal_strlit("lda");
    reveal_strlit("add");
    reveal_strlit("sub");
    reveal_strlit("sta");
    reveal_strlit("\t");
    reveal_strlit(" ");
    lemma_reserved_words();
    let m = mnemonic(k);
    assert(line_head(k) =~= "\t"@ + m + " "@);
    assert(line(line_head(k), x) =~= instr_line(m, x));
    lemma_instr_with_operand(k, o);
    lemma_instr_line(s, i, ln, v, m, x, line_instr(k, o), acc);
}

proof fn lemma_line_first(k: int, x: Seq<char>)
    requires
        0 <= k < 4,
    ensures
        line(line_head(k), x).len() > 0,
        line(line_head(k), x)[0] == '\t',
{
    reveal_strlit("\tlda ");
    reveal_strlit("\tadd ");
    reveal_strlit("\tsub ");
    reveal_strlit("\tsta ");
}

/// The instructions generated for `t` are read as `calc_instrs(t, d)`, one per line.
pub proof fn lemma_instructions(s: Seq<char>, i: int, ln: int, v: bool, t: AST, d: nat, acc: Seq<InstrView>)
    requires
        d <= 4,
        holds(s, i, instructions(t, d)),
        i + instructions(t, d).len() < s.len(),
        s[i + instructions(t, d).len()] != '\n',
    ensures
        starts_item(s, i, ln, v),
        spec_items::<Instruction>(s, nl_state(i, ln, v), acc) == spec_items::<Instruction>(
            s,
            nl_state(i + instructions(t, d).len(), ln + calc_instrs(t, d).len(), v),
            acc + calc_instrs(t, d),
        ),
    decreases t, 1nat,
{
    match t {
        AST::Number(n) => {
            lemma_const_word(n);
            let x = const_name(n);
            assert(instructions(t, d) == line(line_head(0), x));
            lemma_gen_line(s, i, ln, v, 0, x, OperandView::Symbol(x), acc);
            assert(acc.push(line_instr(0, OperandView::Symbol(x))) =~= acc + calc_instrs(t, d));
        },
        AST::Add(l, r) => if *r is Number {
            lemma_instructions_const(s, i, ln, v, t, *l, *r, true, d, acc)
        } else {
            lemma_instructions_compound(s, i, ln, v, t, *l, *r, true, d, acc)
        },
        AST::Sub(l, r) => if *r is Number {
            lemma_instructions_const(s, i, ln, v, t, *l, *r, false, d, acc)
        } else {
            lemma_instructions_compound(s, i, ln, v, t, *l, *r, false, d, acc)
        },
    }
}

/// The case of `lemma_instructions` for an operation on a number.
#[verifier::rlimit(60)]
proof fn lemma_instructions_const(
    s: Seq<char>,
    i: int,
    ln: int,
    v: bool,
    t: AST,
    l: AST,
    r: AST,
    is_add: bool,
    d: nat,
    acc: Seq<InstrView>,
)
    requires
        t == (if is_add { AST::Add(Box::new(l), Box::new(r)) } else { AST::Sub(Box::new(l), Box::new(r)) }),
        d <= 4,
        holds(s, i, instructions(t, d)),
        i + instructions(t, d).len() < s.len(),
        s[i + instructions(t, d).len()] != '\n',
        r is Number,
    ensures
        starts_item(s, i, ln, v),
        spec_items::<Instruction>(s, nl_state(i, ln, v), acc) == spec_items::<Instruction>(
            s,
            nl_state(i + instructions(t, d).len(), ln + calc_instrs(t, d).len(), v),
            acc + calc_instrs(t, d),
        ),
    decreases t, 0nat,
{
    reveal_strlit("t4");
    lemma_temp_word(d);
    assert(store_result() == line(line_head(3), "t4"@));
    let k: int = if is_add { 1 } else { 2 };
    let e = store_result();
    let t4 = OperandView::Register(Register::T4);
    lemma_line_first(3, "t4"@);
    let m = r->Number_0;
    let x = const_name(m);
    lemma_const_word(m);
    let a = instructions(l, d);
    let bl = line(line_head(k), x);
    assert(instructions(t, d) == a + bl + e);
    assert(calc_instrs(t, d) == calc_instrs(l, d) + op_instrs(is_add, OperandView::Symbol(x)));
    lemma_holds_split(s, i, a + bl, e);
    lemma_holds_split(s, i, a, bl);
    lemma_line_first(k, x);
    assert(s[i + a.len()] == bl[0]) by {
        assert(s.subrange(i + a.len(), i + a.len() + bl.len())[0] == s[i + a.len()]);
    }
    lemma_instructions(s, i, ln, v, l, d, acc);
    let i1 = i + a.len();
    let ln1 = ln + calc_instrs(l, d).len();
    let acc1 = acc + calc_instrs(l, d);
    assert(s[i1 + bl.len()] == e[0]) by {
        assert(s.subrange(i1 + bl.len(), i1 + bl.len() + e.len())[0] == s[i1 + bl.len()]);
    }
    lemma_gen_line(s, i1, ln1, v, k, x, OperandView::Symbol(x), acc1);
    let acc2 = acc1.push(line_instr(k, OperandView::Symbol(x)));
    lemma_gen_line(s, i1 + bl.len(), ln1 + 1, v, 3, "t4"@, t4, acc2);
    assert(line_instr(k, OperandView::Symbol(x)) == op_instr(is_add, OperandView::Symbol(x)));
    assert(acc2.push(line_instr(3, t4)) =~= acc + calc_instrs(t, d));
}

/// The case of `lemma_instructions` for an operation on a compound operand.
#[verifier::rlimit(60)]
proof fn lemma_instructions_compound(
    s: Seq<char>,
    i: int,
    ln: int,
    v: bool,
    t: AST,
    l: AST,
    r: AST,
    is_add: bool,
    d: nat,
    acc: Seq<InstrView>,
)
    requires
        t == (if is_add { AST::Add(Box::new(l), Box::new(r)) } else { AST::Sub(Box::new(l), Box::new(r)) }),
        d <= 4,
        holds(s, i, instructions(t, d)),
        i + instructions(t, d).len() < s.len(),
        s[i + instructions(t, d).len()] != '\n',
        !(r is Number),
    ensures
        starts_item(s, i, ln, v),
        spec_items::<Instruction>(s, nl_state(i, ln, v), acc) == spec_items::<Instruction>(
            s,
            nl_state(i + instructions(t, d).len(), ln + calc_instrs(t, d).len(), v),
            acc + calc_instrs(t, d),
        ),
    decreases t, 0nat,
{
    reveal_strlit("t4");
    lemma_temp_word(d);
    assert(store_result() == line(line_head(3), "t4"@));
    let k: int = if is_add { 1 } else { 2 };
    let e = store_result();
    let t4 = OperandView::Register(Register::T4);
    lemma_line_first(3, "t4"@);
    let nd = next_depth(d);
    let tn = temp_name(d);
    let to = temp_operand(d);
    let a = instructions(r, d);
    let bl = line(line_head(3), tn);
    let c = instructions(l, nd);
    let dl = line(line_head(k), tn);
    assert(instructions(t, d) == a + bl + c + dl + e);
    assert(calc_instrs(t, d) == calc_instrs(r, d) + seq![InstrView::Sta(to)] + calc_instrs(l, nd) + op_instrs(is_add, to));
    lemma_holds_split(s, i, a + bl + c + dl, e);
    lemma_holds_split(s, i, a + bl + c, dl);
    lemma_holds_split(s, i, a + bl, c);
    lemma_holds_split(s, i, a, bl);
    lemma_line_first(3, tn);
    lemma_line_first(k, tn);
    let i1 = i + a.len();
    let i2 = i1 + bl.len();
    let i3 = i2 + c.len();
    let i4 = i3 + dl.len();
    assert(s[i1] == bl[0]) by {
        assert(s.subrange(i1, i1 + bl.len())[0] == s[i1]);
    }
    assert(s[i3] == dl[0]) by {
        assert(s.subrange(i3, i3 + dl.len())[0] == s[i3]);
    }
    assert(s[i4] == e[0]) by {
        assert(s.subrange(i4, i4 + e.len())[0] == s[i4]);
    }
    lemma_instructions_first(l, nd);
    assert(s[i2] == c[0]) by {
        assert(s.subrange(i2, i2 + c.len())[0] == s[i2]);
    }
    lemma_instructions(s, i, ln, v, r, d, acc);
    let ln1 = ln + calc_instrs(r, d).len();
    let acc1 = acc + calc_instrs(r, d);
    lemma_gen_line(s, i1, ln1, v, 3, tn, to, acc1);
    let acc2 = acc1.push(InstrView::Sta(to));
    lemma_instructions(s, i2, ln1 + 1, v, l, nd, acc2);
    let ln3 = ln1 + 1 + calc_instrs(l, nd).len();
    let acc3 = acc2 + calc_instrs(l, nd);
    lemma_gen_line(s, i3, ln3, v, k, tn, to, acc3);
    let acc4 = acc3.push(line_instr(k, to));
    lemma_gen_line(s, i4, ln3 + 1, v, 3, "t4"@, t4, acc4);
    assert(line_instr(k, to) == op_instr(is_add, to));
    assert(acc4.push(line_instr(3, t4)) =~= acc + calc_instrs(t, d));
}

/// The instructions generated for an expression start with a tab.
proof fn lemma_instructions_first(t: AST, d: nat)
    ensures
        instructions(t, d).len() > 0,
        instructions(t, d)[0] == '\t',
    decreases t,
{
    match t {
        AST::Number(n) => lemma_line_first(0, const_name(n)),
        AST::Add(l, r) => match *r {
            AST::Number(_) => lemma_instructions_first(*l, d),
            _ => lemma_instructions_first(*r, d),
        },
        AST::Sub(l, r) => match *r {
            AST::Number(_) => lemma_instructions_first(*l, d),
            _ => lemma_instructions_first(*r, d),
        },
    }
}

/// The declarations read from constants' lines.
pub open spec fn decls_of(ss: Seq<Symbol>) -> Seq<DeclView> {
    Seq::new(ss.len(), |j: int| DeclView::Data(const_name(ss[j].value), ss[j].value))
}

/// The constants' lines are read as their `DATA` declarations, one per line.
pub proof fn lemma_data_lines(s: Seq<char>, i: int, ln: int, v: bool, ss: Seq<Symbol>, acc: Seq<DeclView>)
    requires
        forall|j: int| 0 <= j < ss.len() ==> #[trigger] ss[j].name@ == const_name(ss[j].value),
        holds(s, i, data_lines(ss)),
        i + data_lines(ss).len() < s.len(),
        s[i + data_lines(ss).len()] != '\n',
    ensures
        ss.len() > 0 ==> starts_item(s, i, ln, v),
        spec_items::<DataDecl>(s, nl_state(i, ln, v), acc) == spec_items::<DataDecl>(
            s,
            nl_state(i + data_lines(ss).len(), ln + ss.len(), v),
            acc + decls_of(ss),
        ),
    decreases ss.len(),
{
    if ss.len() == 0 {
        assert(acc + decls_of(ss) =~= acc);
    } else {
        reveal_strlit("\t");
        let pre = ss.drop_last();
        let last = ss.last();
        let dp = data_lines(pre);
        let dl = data_line(last);
        assert(data_lines(ss) == dp + dl);
        lemma_holds_split(s, i, dp, dl);
        assert(dl[0] == '\t');
        assert(s[i + dp.len()] == dl[0]) by {
            assert(s.subrange(i + dp.len(), i + dp.len() + dl.len())[0] == s[i + dp.len()]);
        }
        assert forall|j: int| 0 <= j < pre.len() implies #[trigger] pre[j].name@ == const_name(pre[j].value) by {
            assert(pre[j] == ss[j]);
        }
        lemma_data_lines(s, i, ln, v, pre, acc);
        assert(last == ss[ss.len() - 1]);
        lemma_const_word(last.value);
        assert(dl == data_line_text(const_name(last.value), last.value));
        lemma_data_line(s, i + dp.len(), ln + pre.len(), v, const_name(last.value), last.value, acc + decls_of(pre));
        if pre.len() == 0 {
            assert(dp.len() == 0);
        }
        assert((acc + decls_of(pre)).push(DeclView::Data(const_name(last.value), last.value)) =~= acc + decls_of(ss));
    }
}

/// The `text` section generated for `t`, from its label at `t0` on line `ln`, is read as
/// the instructions of `t`, then `HLT`.
#[verifier::rlimit(40)]
proof fn lemma_read_text(s: Seq<char>, t0: int, ln: int, t: AST)
    requires
        holds(s, t0, text_section(t)),
        t0 + text_section(t).len() == s.len(),
    ensures
        ({
            let st3 = name_state(t0, t0, ln, true, "text"@);
            &&& spec_parse_section::<Instruction>(s, st3, "text"@).0 == Ok::<Seq<InstrView>, Seq<char>>(
                calc_instrs(t, 0) + seq![InstrView::Hlt],
            )
            &&& spec_advance(s, nl_state(t0, ln, true)) == (Ok::<(), Seq<char>>(()), st3)
            &&& spec_consume_blanks(s, nl_state(t0, ln, true)) == (Ok::<(), Seq<char>>(()), st3)
        }),
{
    reveal_strlit("end\n");
    reveal_strlit("text\n");
    reveal_strlit("text");
    reveal_strlit("\thlt\n");
    lemma_reserved_words();
    let e = "end\n"@;
    let th = "text\n"@;
    let ins = instructions(t, 0);
    let h = "\thlt\n"@;
    assert(text_section(t) == th + ins + h + e);
    lemma_holds_split(s, t0, th + ins + h, e);
    lemma_holds_split(s, t0, th + ins, h);
    lemma_holds_split(s, t0, th, ins);
    let i0: int = t0 + 5;
    let hh: int = i0 + ins.len();
    let e2: int = hh + 5;
    assert(s[t0 + 4] == '\n') by {
        assert(s.subrange(t0, t0 + 5)[4] == s[t0 + 4]);
    }
    lemma_instructions_first(t, 0);
    assert(s[i0] == '\t') by {
        assert(s.subrange(i0, i0 + ins.len())[0] == s[i0]);
    }
    assert(s[hh] == '\t') by {
        assert(s.subrange(hh, hh + 5)[0] == s[hh]);
    }
    assert(s[e2] == 'e') by {
        assert(s.subrange(e2, e2 + 4)[0] == s[e2]);
    }
    let text = "text"@;
    assert(s.subrange(t0, t0 + 4) =~= text) by {
        assert forall|j: int| 0 <= j < 4 implies s.subrange(t0, t0 + 4)[j] == text[j] by {
            assert(s.subrange(t0, t0 + 5)[j] == s[t0 + j]);
        }
    }
    lemma_nl_to_name(s, t0, t0, ln, true, text);
    let st3 = name_state(t0, t0, ln, true, text);
    lemma_instructions(s, i0, ln + 1, true, t, 0, Seq::empty());
    let ci = calc_instrs(t, 0);
    let ln3: int = ln + 1 + ci.len();
    assert(Seq::<InstrView>::empty() + ci =~= ci);
    lemma_hlt_line(s, hh, ln3, true, ci);
    lemma_end_line::<Instruction>(s, e2, ln3 + 1, true, ci.push(InstrView::Hlt));
    lemma_section_start::<Instruction>(s, st3, text);
    assert(ci.push(InstrView::Hlt) =~= ci + seq![InstrView::Hlt]);
}

/// The `setup` section generated for the constants `ss` is read as their declarations;
/// the parser ends at the line after its `end`.
#[verifier::rlimit(40)]
proof fn lemma_read_setup(s: Seq<char>, ss: Seq<Symbol>)
    requires
        holds(s, 0, "setup\n"@ + data_lines(ss) + "end\n"@),
        6 + data_lines(ss).len() + 4 < s.len(),
        s[6int + data_lines(ss).len() + 4] == 't',
        forall|j: int| 0 <= j < ss.len() ==> #[trigger] ss[j].name@ == const_name(ss[j].value),
    ensures
        spec_consume_blanks(s, asm_start(s)) == (Ok::<(), Seq<char>>(()), asm_start(s)),
        spec_parse_section::<DataDecl>(s, asm_start(s), "setup"@) == (
            Ok::<Seq<DeclView>, Seq<char>>(decls_of(ss)),
            nl_state(6int + data_lines(ss).len() + 4, 3int + ss.len(), true),
        ),
{
    reveal_strlit("setup\n");
    reveal_strlit("setup");
    reveal_strlit("end\n");
    lemma_reserved_words();
    let sh = "setup\n"@;
    let d = data_lines(ss);
    let e = "end\n"@;
    lemma_holds_split(s, 0, sh + d, e);
    lemma_holds_split(s, 0, sh, d);
    let e1: int = 6int + d.len();
    assert(s[5] == '\n') by {
        assert(s.subrange(0, 6)[5] == s[5]);
    }
    assert(s[e1] == 'e') by {
        assert(s.subrange(e1, e1 + 4)[0] == s[e1]);
    }
    assert(s[6] != '\n') by {
        if d.len() > 0 {
            assert(s.subrange(6, 6int + d.len())[0] == s[6]);
            lemma_data_lines_first(ss);
        }
    }
    let setup = "setup"@;
    assert(s.subrange(0, 5) =~= setup) by {
        assert forall|j: int| 0 <= j < 5 implies s.subrange(0, 5)[j] == setup[j] by {
            assert(s.subrange(0, 6)[j] == s[j]);
        }
    }
    lemma_token_name(s, LexPos { pos: 0, line: 1, col: 1 }, setup);
    let st0 = asm_start(s);
    assert(st0 == PState {
        lex: LexPos { pos: 5, line: 1, col: 6 },
        la: Some(TokenView { kind: TokenKind::Label(setup), lexeme: setup, line: 1 }),
        valid: true,
    });
    assert(spec_consume_blanks(s, st0) == (Ok::<(), Seq<char>>(()), st0));
    lemma_data_lines(s, 6, 2, true, ss, Seq::empty());
    let ln1: int = 2int + ss.len();
    lemma_end_line::<DataDecl>(s, e1, ln1, true, Seq::<DeclView>::empty() + decls_of(ss));
    if ss.len() == 0 {
        assert(d.len() == 0);
    }
    lemma_section_start::<DataDecl>(s, st0, setup);
    assert(Seq::<DeclView>::empty() + decls_of(ss) =~= decls_of(ss));
}

/// The assembly generated for `t`, with the constants `ss` in the `setup` section, is
/// read as their declarations and the instructions of `t`, then `HLT`.
pub proof fn lemma_read_program(s: Seq<char>, ss: Seq<Symbol>, t: AST)
    requires
        s == "setup\n"@ + data_lines(ss) + "end\n"@ + text_section(t),
        forall|j: int| 0 <= j < ss.len() ==> #[trigger] ss[j].name@ == const_name(ss[j].value),
    ensures
        spec_parse_program(s, asm_start(s)).0 == Ok::<ProgramView, Seq<char>>(
            ProgramView { setup: decls_of(ss), text: calc_instrs(t, 0) + seq![InstrView::Hlt] },
        ),
{
    reveal_strlit("setup\n");
    reveal_strlit("end\n");
    reveal_strlit("text\n");
    let head = "setup\n"@ + data_lines(ss) + "end\n"@;
    let t0: int = head.len() as int;
    assert(holds(s, 0, s)) by {
        assert(s.subrange(0, s.len() as int) =~= s);
    }
    lemma_holds_split(s, 0, head, text_section(t));
    assert(s[t0] == 't') by {
        assert(s.subrange(t0, t0 + text_section(t).len())[0] == s[t0]);
    }
    lemma_read_setup(s, ss);
    lemma_read_text(s, t0, 3int + ss.len(), t);
}

/// The constants' lines start with a tab.
proof fn lemma_data_lines_first(ss: Seq<Symbol>)
    requires
        ss.len() > 0,
    ensures
        data_lines(ss).len() > 0,
        data_lines(ss)[0] == '\t',
    decreases ss.len(),
{
    reveal_strlit("\t");
    if ss.len() > 1 {
        lemma_data_lines_first(ss.drop_last());
    } else {
        assert(data_lines(ss.drop_last()) =~= Seq::<char>::empty());
    }
}

} // verus!
