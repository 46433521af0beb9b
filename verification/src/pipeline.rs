//! The whole stack on one expression: to assembly text, and on to a `.MEM` image.
use vstd::prelude::*;
use vstd::string::*;
use std::collections::HashMap;
use crate::assembler::codegen::{
    insert_entry, key_index, layout, lemma_key_index, lemma_with_registers_other, lookup,
    register_name, with_registers, Entries, Item, Layout, LayoutOut,
};
use crate::assembler::lexer::{self as asm_lexer, LexPos};
use crate::assembler::parser::{
    assemble, data_image, emit, encode, neander_image, EmitOut, expand, expand_one, offset, resolve, size, spec_parse, spec_parse_program, AsmErrView, AsmOut, AssemblerError, DeclView, InstrView,
    OperandView, PState, ParserT, ProgramView, Register,
};
use crate::interpreter::interpreter::{
    apply, decode, halts, lemma_assembled_program_loads, lemma_halted_unique,
    lemma_run_steps_add, next_pc, run_steps, set_acc, spec_load, spec_step, Machine,
};
use crate::text::{decimal, lemma_decimal_injective, str_eq, str_trimmed, trim};
use crate::calc::codegen::{
    const_name, leaves, next_depth, setup_section, symbol_order, text_section, CodegenCalc, Symbol,
};
use crate::calc::lexer::{self as calc_lexer, CalcPos, LexerError};
use crate::calc::parser::{spec_parse_expr, CState, CalcErrView, CalcError, CalcParser, AST};

verus! {

broadcast use vstd::string::group_string_axioms;

/// Where the expression parser stands once it has read the first token of `s`, or the
/// lexical error on that token.
pub open spec fn calc_start(s: Seq<char>) -> Result<CState, Seq<char>> {
    let (o, p) = calc_lexer::spec_next_token(s, CalcPos { pos: 0, col: 1 });
    match o {
        Some(Err(e)) => Err(e),
        Some(Ok(t)) => Ok(CState { lex: p, la: Some(t) }),
        None => Ok(CState { lex: p, la: None }),
    }
}

/// Where the assembly parser stands once it has read the first token of `s`.
pub open spec fn asm_start(s: Seq<char>) -> PState {
    let (o, p) = asm_lexer::spec_next_token(s, LexPos { pos: 0, line: 1, col: 1 });
    match o {
        Some(Ok(t)) => PState { lex: p, la: Some(t), valid: true },
        Some(Err(_)) => PState { lex: p, la: None, valid: false },
        None => PState { lex: p, la: None, valid: true },
    }
}

/// An empty symbol table.
pub open spec fn empty_table() -> Layout {
    Layout { pc: 0, entries: Seq::empty(), addr: 250 }
}

/// `code` is the assembly generated for `t`: the constants of its numbers, each once, in
/// the order some map of them hands them out, then its instructions.
#[verifier::opaque]
pub open spec fn assembly_of(t: AST, code: Seq<char>) -> bool {
    exists|m: HashMap<u8, Symbol>|
        {
            &&& #[trigger] m@.dom() == leaves(t)
            &&& forall|k: u8| #[trigger]
                leaves(t).contains(k) ==> m@[k].name@ == const_name(k) && m@[k].value == k
            &&& symbol_order(&m).len() == m@.dom().len()
            &&& symbol_order(&m).to_set() == m@.values()
            &&& code == setup_section(&m) + text_section(t)
        }
}

/// The assembly generated for an expression tree.
pub fn generate_assembly(ast: &AST) -> (r: String)
    ensures
        assembly_of(*ast, r@),
{
    let mut codegen = CodegenCalc::new();
    codegen.generate_code(ast);
    proof {
        assert(codegen.symbols@.dom() =~= leaves(*ast));
        reveal(assembly_of);
    }
    codegen.code
}

/// Compiles an expression to Neander assembly: lexes and parses it, then generates its
/// program. The first token's lexical error and the parser's errors are returned.
pub fn compile_expression(data: &str) -> (r: Result<String, CalcError>)
    requires
        data@.len() < usize::MAX - 1,
    ensures
        match calc_start(data@) {
            Err(e) => r matches Err(x) && x@ == CalcErrView::Lexer(e),
            Ok(st) => match spec_parse_expr(data@, st).0 {
                Err(e) => r matches Err(x) && x@ == e,
                Ok(t) => r matches Ok(code) && assembly_of(t, code@),
            },
        },
{
    let l = calc_lexer::Lexer::new(data);
    let mut parser = match CalcParser::new(l) {
        Ok(p) => p,
        Err(e) => {
            return Err(CalcError::Lexer(e));
        },
    };
    let ast = parser.parse_expr()?;
    Ok(generate_assembly(&ast))
}

/// An error on the way from an expression to a `.MEM` image.
#[derive(Debug)]
pub enum ExpressionError {
    /// The first token of the expression.
    Lexer(LexerError),
    /// The rest of the expression.
    Syntax(CalcError),
    /// The generated assembly.
    Assembler(AssemblerError),
}

/// Compiles an expression and assembles the result into a `.MEM` image. `None` where the
/// assembly does not fit the machine: an address leaves the byte range, or the text is
/// too long for the lexer's counters.
#[verifier::rlimit(40)]
pub fn assemble_expression(expr: &str) -> (r: Option<Result<[u8; 516], ExpressionError>>)
    requires
        expr@.len() < usize::MAX - 1,
    ensures
        match calc_start(expr@) {
            Err(e) => r matches Some(Err(ExpressionError::Lexer(x))) && x@ == e,
            Ok(st) => match spec_parse_expr(expr@, st).0 {
                Err(e) => r matches Some(Err(ExpressionError::Syntax(x))) && x@ == e,
                Ok(t) => exists|code: Seq<char>|
                    {
                        &&& #[trigger] assembly_of(t, code)
                        &&& code.len() < usize::MAX - 1 ==> match spec_parse(
                            code,
                            asm_start(code),
                            empty_table(),
                        ) {
                            Some(Ok(img)) => r matches Some(Ok(b)) && b@ == img,
                            Some(Err(e)) => r matches Some(Err(ExpressionError::Assembler(x)))
                                && x@ == e,
                            None => r is None,
                        }
                        &&& code.len() >= usize::MAX - 1 ==> r is None
                    },
            },
        },
{
    let l = calc_lexer::Lexer::new(expr);
    let mut calc_parser = match CalcParser::new(l) {
        Ok(p) => p,
        Err(e) => {
            return Some(Err(ExpressionError::Lexer(e)));
        },
    };
    let ast = match calc_parser.parse_expr() {
        Ok(tree) => tree,
        Err(e) => {
            return Some(Err(ExpressionError::Syntax(e)));
        },
    };
    let code = generate_assembly(&ast);
    let asm_text = code.as_str();
    assert(assembly_of(ast, asm_text@));
    if asm_text.unicode_len() >= usize::MAX - 1 {
        return None;
    }
    let assembler_lexer = asm_lexer::Lexer::new(asm_text);
    let mut assembler_parser = ParserT::new(assembler_lexer);
    assert(assembler_parser.symbols.map@ =~= Seq::<(Seq<char>, (u8, u8))>::empty());
    assert(assembler_parser.symbols.start() == empty_table());
    match assembler_parser.parse_checked() {
        None => None,
        Some(Ok(bin)) => Some(Ok(bin)),
        Some(Err(e)) => Some(Err(ExpressionError::Assembler(e))),
    }
}

/// What the interactive calculator does with a line it has read.
pub enum ReplCommand<'a> {
    /// Stop: the line was `q` or `quit`.
    Quit,
    /// Read the next line: this one was blank.
    Skip,
    /// Evaluate the expression on the line.
    Evaluate(&'a str),
}

/// Decides what to do with a line, with whitespace already trimmed from both ends, read
/// by the interactive calculator: `q` and `quit` stop it, an empty line is skipped, and
/// anything else is an expression to evaluate.
pub fn command_of<'a>(expr: &'a str) -> (r: ReplCommand<'a>)
    ensures
        r is Quit <==> (expr@ == "q"@ || expr@ == "quit"@),
        r is Skip <==> expr@.len() == 0,
        r is Evaluate ==> r->Evaluate_0@ == expr@,
{
    proof {
        reveal_strlit("q");
        reveal_strlit("quit");
    }
    if str_eq(expr, "q") || str_eq(expr, "quit") {
        ReplCommand::Quit
    } else if expr.unicode_len() == 0 {
        ReplCommand::Skip
    } else {
        ReplCommand::Evaluate(expr)
    }
}

/// Decides what to do with a line read by the interactive calculator: trims whitespace
/// from both ends with `str::trim`, then decides as `command_of` does.
pub fn repl_command<'a>(input: &'a str) -> (r: ReplCommand<'a>)
    ensures
        r is Quit <==> (str_trimmed(input@) == "q"@ || str_trimmed(input@) == "quit"@),
        r is Skip <==> str_trimmed(input@).len() == 0,
        r is Evaluate ==> r->Evaluate_0@ == str_trimmed(input@),
{
    command_of(trim(input))
}

/// The value of an expression: its numbers added and subtracted from the left, as
/// grouped.
pub open spec fn value(t: AST) -> int
    decreases t,
{
    match t {
        AST::Number(n) => n as int,
        AST::Add(l, r) => value(*l) + value(*r),
        AST::Sub(l, r) => value(*l) - value(*r),
    }
}

/// Whether the right operands that the generated code keeps in pseudo-registers, from
/// `t{d}` on, find one: no more than four are held at once.
pub open spec fn temps_fit(t: AST, d: nat) -> bool
    decreases t,
{
    match t {
        AST::Number(_) => true,
        AST::Add(l, r) => match *r {
            AST::Number(_) => temps_fit(*l, d),
            _ => d < 4 && temps_fit(*r, d) && temps_fit(*l, d + 1),
        },
        AST::Sub(l, r) => match *r {
            AST::Number(_) => temps_fit(*l, d),
            _ => d < 4 && temps_fit(*r, d) && temps_fit(*l, d + 1),
        },
    }
}

/// The address of the pseudo-register `t{d}`.
pub open spec fn temp_addr(d: nat) -> u8 {
    (251 + d) as u8
}

/// The machine code of the instructions generated for `t` with the registers from `t{d}`
/// on, where the constant of `k` lives at `ca(k)`: `SUB` is written as `NOT`, `ADD`,
/// `NOT`.
pub open spec fn calc_bytes(t: AST, d: nat, ca: spec_fn(u8) -> u8) -> Seq<u8>
    decreases t,
{
    match t {
        AST::Number(n) => seq![32u8, ca(n)],
        AST::Add(l, r) => match *r {
            AST::Number(m) => calc_bytes(*l, d, ca) + op_bytes(true, ca(m)),
            _ => calc_bytes(*r, d, ca) + seq![16u8, temp_addr(d)] + calc_bytes(*l, d + 1, ca)
                + op_bytes(true, temp_addr(d)),
        },
        AST::Sub(l, r) => match *r {
            AST::Number(m) => calc_bytes(*l, d, ca) + op_bytes(false, ca(m)),
            _ => calc_bytes(*r, d, ca) + seq![16u8, temp_addr(d)] + calc_bytes(*l, d + 1, ca)
                + op_bytes(false, temp_addr(d)),
        },
    }
}

/// The bytes of `ADD a`, or of the `SUB a` macro, then `STA t4`.
pub open spec fn op_bytes(is_add: bool, a: u8) -> Seq<u8> {
    if is_add {
        seq![48u8, a, 16u8, 255u8]
    } else {
        seq![96u8, 48u8, a, 96u8, 16u8, 255u8]
    }
}

/// The steps the machine takes on `op_bytes`.
pub open spec fn op_steps(is_add: bool) -> nat {
    if is_add {
        2
    } else {
        4
    }
}

/// The steps the machine takes on the code of `t`.
pub open spec fn calc_steps(t: AST) -> nat
    decreases t,
{
    match t {
        AST::Number(_) => 1,
        AST::Add(l, r) => match *r {
            AST::Number(_) => calc_steps(*l) + 2,
            _ => calc_steps(*r) + 1 + calc_steps(*l) + 2,
        },
        AST::Sub(l, r) => match *r {
            AST::Number(_) => calc_steps(*l) + 4,
            _ => calc_steps(*r) + 1 + calc_steps(*l) + 4,
        },
    }
}

/// One step on an instruction with an address byte at `pc`.
proof fn lemma_step_addr(m: Machine)
    requires
        m.mem.len() == 256,
        m.pc < 254,
        m.mem[m.pc as int] == 16 || m.mem[m.pc as int] == 32 || m.mem[m.pc as int] == 48,
    ensures
        spec_step(m) == apply(
            decode(m.mem[m.pc as int])->Some_0,
            Machine { pc: (m.pc + 2) as u8, ..m },
            m.mem[m.pc + 1] as int,
        ),
{
}

/// One step on `NOT` at `pc`.
proof fn lemma_step_not(m: Machine)
    requires
        m.mem.len() == 256,
        m.pc < 255,
        m.mem[m.pc as int] == 96,
    ensures
        spec_step(m) == set_acc(Machine { pc: (m.pc + 1) as u8, ..m }, !m.acc),
{
}

/// `ADD a`, or the `SUB a` macro, at `pc`: the accumulator gets the sum or difference
/// modulo 256, the program counter moves past it, and memory is left as it was.
proof fn lemma_run_op(x: Machine, is_add: bool, a: u8)
    requires
        x.mem.len() == 256,
        !x.halted,
        x.pc + (if is_add { 2int } else { 4int }) <= 250,
        is_add ==> x.mem[x.pc as int] == 48u8 && x.mem[x.pc + 1] == a,
        !is_add ==> x.mem[x.pc as int] == 96u8 && x.mem[x.pc + 1] == 48u8 && x.mem[x.pc + 2] == a
            && x.mem[x.pc + 3] == 96u8,
    ensures
        ({
            let w = run_steps(x, if is_add { 1nat } else { 3nat });
            &&& w.pc == x.pc + if is_add { 2int } else { 4int }
            &&& !w.halted
            &&& w.mem == x.mem
            &&& w.acc == if is_add {
                (x.acc + x.mem[a as int]) % 256
            } else {
                (x.acc - x.mem[a as int]) % 256
            }
        }),
{
    if is_add {
        lemma_step_addr(x);
        let y = spec_step(x);
        assert(run_steps(y, 0) == y);
        assert(run_steps(x, 1) == y);
    } else {
        lemma_step_not(x);
        let x1 = spec_step(x);
        lemma_step_addr(x1);
        let x2 = spec_step(x1);
        lemma_step_not(x2);
        let x3 = spec_step(x2);
        crate::interpreter::interpreter::lemma_sub_macro(x, a as int);
        assert(run_steps(x3, 0) == x3);
        assert(run_steps(x2, 1) == x3);
        assert(run_steps(x1, 2) == x3);
        assert(run_steps(x, 3) == x3);
    }
}

/// `STA a` at `pc`.
proof fn lemma_run_store(x: Machine, a: u8)
    requires
        x.mem.len() == 256,
        !x.halted,
        x.pc + 2 <= 250,
        x.mem[x.pc as int] == 16u8,
        x.mem[x.pc + 1] == a,
    ensures
        run_steps(x, 1) == (Machine { pc: (x.pc + 2) as u8, mem: x.mem.update(a as int, x.acc), ..x }),
{
    lemma_step_addr(x);
    let y = spec_step(x);
    assert(run_steps(y, 0) == y);
}

/// The bytes of the code sit in memory from `p` on.
spec fn code_at(mem: Seq<u8>, p: int, bs: Seq<u8>) -> bool {
    forall|i: int| p <= i < p + bs.len() ==> #[trigger] mem[i] == bs[i - p]
}

/// `ADD a`, or the `SUB a` macro, then `STA t4`: the accumulator gets the sum or
/// difference modulo 256, which `t4` keeps too.
proof fn lemma_run_op_store(x: Machine, is_add: bool, a: u8)
    requires
        x.mem.len() == 256,
        !x.halted,
        x.pc + op_bytes(is_add, a).len() <= 250,
        code_at(x.mem, x.pc as int, op_bytes(is_add, a)),
    ensures
        ({
            let w = run_steps(x, op_steps(is_add));
            &&& w.pc == x.pc + op_bytes(is_add, a).len()
            &&& !w.halted
            &&& w.acc == if is_add {
                (x.acc + x.mem[a as int]) % 256
            } else {
                (x.acc - x.mem[a as int]) % 256
            }
            &&& w.mem == x.mem.update(255, w.acc)
        }),
{
    let p = x.pc as int;
    let ob = op_bytes(is_add, a);
    assert(x.mem[p] == ob[0]);
    assert(x.mem[p + 1] == ob[1]);
    assert(x.mem[p + 2] == ob[2]);
    assert(x.mem[p + 3] == ob[3]);
    let k: int = if is_add { 2 } else { 4 };
    if !is_add {
        assert(x.mem[p + 4] == ob[4]);
        assert(x.mem[p + 5] == ob[5]);
    }
    lemma_run_op(x, is_add, a);
    let y = run_steps(x, if is_add { 1nat } else { 3nat });
    assert(y.mem[p + k] == 16u8 && y.mem[p + k + 1] == 255u8);
    lemma_run_store(y, 255u8);
    lemma_run_steps_add(x, if is_add { 1nat } else { 3nat }, 1);
}

/// Running the code of `t`, laid out from `pc` with its constants in memory, takes
/// `calc_steps(t)` steps, ends just past the code with the value of `t` modulo 256 in the
/// accumulator, and writes no byte but the pseudo-registers from `t{d}` on.
#[verifier::rlimit(40)]
proof fn lemma_run_calc(t: AST, d: nat, ca: spec_fn(u8) -> u8, m: Machine)
    requires
        temps_fit(t, d),
        d <= 4,
        m.mem.len() == 256,
        !m.halted,
        m.pc + calc_bytes(t, d, ca).len() <= 250,
        code_at(m.mem, m.pc as int, calc_bytes(t, d, ca)),
        forall|k: u8| #[trigger] leaves(t).contains(k) ==> ca(k) < 251 + d && m.mem[ca(k) as int] == k,
    ensures
        ({
            let m2 = run_steps(m, calc_steps(t));
            &&& m2.pc == m.pc + calc_bytes(t, d, ca).len()
            &&& !m2.halted
            &&& m2.mem.len() == 256
            &&& m2.acc == value(t) % 256
            &&& forall|a: int| 0 <= a < 251 + d ==> m2.mem[a] == m.mem[a]
        }),
    decreases t, 1nat,
{
    let bs = calc_bytes(t, d, ca);
    let p = m.pc as int;
    match t {
        AST::Number(n) => {
            assert(leaves(t).contains(n));
            assert(m.mem[p] == bs[0]);
            assert(m.mem[p + 1] == bs[1]);
            lemma_step_addr(m);
            let m2 = spec_step(m);
            assert(run_steps(m2, 0) == m2);
            assert(run_steps(m, 1) == m2);
        },
        _ => {
            let (l, r, is_add) = match t {
                AST::Add(l, r) => (*l, *r, true),
                AST::Sub(l, r) => (*l, *r, false),
                AST::Number(_) => (t, t, true),
            };
            assert forall|k: u8| #[trigger] leaves(l).contains(k) implies ca(k) < 251 + d
                && m.mem[ca(k) as int] == k by {
                assert(leaves(t).contains(k));
            }
            assert forall|k: u8| #[trigger] leaves(r).contains(k) implies ca(k) < 251 + d
                && m.mem[ca(k) as int] == k by {
                assert(leaves(t).contains(k));
            }
            if let AST::Number(n) = r {
                assert(leaves(r).contains(n));
                lemma_run_const_right(t, l, n, is_add, d, ca, m);
            } else {
                lemma_run_compound(t, l, r, is_add, d, ca, m);
            }
        },
    }
}

/// The case of `lemma_run_calc` with a number on the right.
#[verifier::rlimit(40)]
proof fn lemma_run_const_right(
    t: AST,
    l: AST,
    n: u8,
    is_add: bool,
    d: nat,
    ca: spec_fn(u8) -> u8,
    m: Machine,
)
    requires
        t == (if is_add {
            AST::Add(Box::new(l), Box::new(AST::Number(n)))
        } else {
            AST::Sub(Box::new(l), Box::new(AST::Number(n)))
        }),
        temps_fit(t, d),
        d <= 4,
        m.mem.len() == 256,
        !m.halted,
        m.pc + calc_bytes(t, d, ca).len() <= 250,
        code_at(m.mem, m.pc as int, calc_bytes(t, d, ca)),
        forall|k: u8| #[trigger] leaves(l).contains(k) ==> ca(k) < 251 + d && m.mem[ca(k) as int] == k,
        ca(n) < 251 + d,
        m.mem[ca(n) as int] == n,
    ensures
        ({
            let m2 = run_steps(m, calc_steps(t));
            &&& m2.pc == m.pc + calc_bytes(t, d, ca).len()
            &&& !m2.halted
            &&& m2.mem.len() == 256
            &&& m2.acc == value(t) % 256
            &&& forall|a: int| 0 <= a < 251 + d ==> m2.mem[a] == m.mem[a]
        }),
    decreases t, 0nat,
{
    let bs = calc_bytes(t, d, ca);
    let p = m.pc as int;
    let r = AST::Number(n);
    assert(value(t) == if is_add { value(l) + value(r) } else { value(l) - value(r) });
    let lb = calc_bytes(l, d, ca);
    assert(code_at(m.mem, p, lb)) by {
        assert forall|i: int| p <= i < p + lb.len() implies #[trigger] m.mem[i] == lb[i - p] by {
            assert(m.mem[i] == bs[i - p]);
        }
    }
    lemma_run_calc(l, d, ca, m);
    let x = run_steps(m, calc_steps(l));
    let q = x.pc as int;
    assert(q == p + lb.len());
    assert(x.mem[ca(n) as int] == n);
    let ob = op_bytes(is_add, ca(n));
    assert(bs == lb + ob);
    assert(code_at(x.mem, q, ob)) by {
        assert forall|i: int| q <= i < q + ob.len() implies #[trigger] x.mem[i] == ob[i - q] by {
            assert(x.mem[i] == m.mem[i]);
            assert(m.mem[i] == bs[i - p]);
        }
    }
    lemma_run_op_store(x, is_add, ca(n));
    lemma_run_steps_add(m, calc_steps(l), op_steps(is_add));
    if is_add {
        vstd::arithmetic::div_mod::lemma_add_mod_noop(value(l), n as int, 256);
    } else {
        vstd::arithmetic::div_mod::lemma_sub_mod_noop(value(l), n as int, 256);
    }
    assert(n as int % 256 == n);
}

/// The case of `lemma_run_calc` with a compound right operand.
#[verifier::rlimit(40)]
proof fn lemma_run_compound(
    t: AST,
    l: AST,
    r: AST,
    is_add: bool,
    d: nat,
    ca: spec_fn(u8) -> u8,
    m: Machine,
)
    requires
        t == (if is_add { AST::Add(Box::new(l), Box::new(r)) } else { AST::Sub(Box::new(l), Box::new(r)) }),
        !(r is Number),
        temps_fit(t, d),
        d <= 4,
        m.mem.len() == 256,
        !m.halted,
        m.pc + calc_bytes(t, d, ca).len() <= 250,
        code_at(m.mem, m.pc as int, calc_bytes(t, d, ca)),
        forall|k: u8| #[trigger] leaves(l).contains(k) ==> ca(k) < 251 + d && m.mem[ca(k) as int] == k,
        forall|k: u8| #[trigger] leaves(r).contains(k) ==> ca(k) < 251 + d && m.mem[ca(k) as int] == k,
    ensures
        ({
            let m2 = run_steps(m, calc_steps(t));
            &&& m2.pc == m.pc + calc_bytes(t, d, ca).len()
            &&& !m2.halted
            &&& m2.mem.len() == 256
            &&& m2.acc == value(t) % 256
            &&& forall|a: int| 0 <= a < 251 + d ==> m2.mem[a] == m.mem[a]
        }),
    decreases t, 0nat,
{
    let bs = calc_bytes(t, d, ca);
    let p = m.pc as int;
    let rb = calc_bytes(r, d, ca);
    let lb = calc_bytes(l, d + 1, ca);
    let ta = temp_addr(d);
    assert(d < 4 && temps_fit(r, d) && temps_fit(l, d + 1)) by {
        if is_add {
            assert(t == AST::Add(Box::new(l), Box::new(r)));
        } else {
            assert(t == AST::Sub(Box::new(l), Box::new(r)));
        }
    }
    assert(bs == rb + seq![16u8, ta] + lb + op_bytes(is_add, ta));
    // the right operand
    assert(code_at(m.mem, p, rb)) by {
        assert forall|i: int| p <= i < p + rb.len() implies #[trigger] m.mem[i] == rb[i - p] by {
            assert(m.mem[i] == bs[i - p]);
        }
    }
    lemma_run_calc(r, d, ca, m);
    let x = run_steps(m, calc_steps(r));
    let q = x.pc as int;
    assert(x.mem[q] == m.mem[q] && m.mem[q] == bs[rb.len() as int]);
    assert(x.mem[q + 1] == m.mem[q + 1] && m.mem[q + 1] == bs[rb.len() + 1int]);
    lemma_run_store(x, ta);
    let y = run_steps(x, 1);
    // the left operand
    let q2 = q + 2;
    assert(code_at(y.mem, q2, lb)) by {
        assert forall|i: int| q2 <= i < q2 + lb.len() implies #[trigger] y.mem[i] == lb[i - q2] by {
            assert(y.mem[i] == m.mem[i]);
            assert(m.mem[i] == bs[i - p]);
        }
    }
    assert forall|k: u8| #[trigger] leaves(l).contains(k) implies ca(k) < 251 + (d + 1) && y.mem[ca(
        k,
    ) as int] == k by {}
    lemma_run_calc(l, d + 1, ca, y);
    let z = run_steps(y, calc_steps(l));
    let q3 = z.pc as int;
    let off: int = rb.len() + 2int + lb.len();
    assert(q3 == p + off);
    assert(z.mem[ta as int] == value(r) % 256);
    assert forall|i: int| q3 <= i < p + bs.len() implies #[trigger] z.mem[i] == bs[i - p] by {
        assert(z.mem[i] == y.mem[i]);
        assert(y.mem[i] == m.mem[i]);
        assert(m.mem[i] == bs[i - p]);
    }
    let ob = op_bytes(is_add, ta);
    assert(code_at(z.mem, q3, ob)) by {
        assert forall|i: int| q3 <= i < q3 + ob.len() implies #[trigger] z.mem[i] == ob[i - q3] by {
            assert(z.mem[i] == bs[i - p]);
        }
    }
    lemma_run_op_store(z, is_add, ta);
    lemma_run_steps_add(m, calc_steps(r), 1);
    lemma_run_steps_add(m, calc_steps(r) + 1, calc_steps(l));
    lemma_run_steps_add(m, calc_steps(r) + 1 + calc_steps(l), op_steps(is_add));
    if is_add {
        vstd::arithmetic::div_mod::lemma_add_mod_noop(value(l), value(r), 256);
    } else {
        vstd::arithmetic::div_mod::lemma_sub_mod_noop(value(l), value(r), 256);
    }
    vstd::arithmetic::div_mod::lemma_mod_bound(value(l), 256);
    vstd::arithmetic::div_mod::lemma_mod_bound(value(r), 256);
    assert((value(r) % 256) % 256 == value(r) % 256);
    assert((value(l) % 256) % 256 == value(l) % 256);
}

/// The declarations of the generated `setup` section when the map hands the constants out
/// in the order of `order`.
pub open spec fn setup_of(order: Seq<u8>) -> Seq<DeclView> {
    Seq::new(order.len(), |j: int| DeclView::Data(const_name(order[j]), order[j]))
}

/// The constants of `order` as the symbol table lays them out: the `j`-th at `250 - j`.
spec fn const_entries(order: Seq<u8>) -> Entries {
    Seq::new(order.len(), |j: int| (const_name(order[j]), ((250 - j) as u8, order[j])))
}

/// The pseudo-registers as the symbol table adds them after the declarations.
spec fn register_entries() -> Entries {
    seq![
        ("t0"@, (251u8, 0u8)),
        ("t1"@, (252u8, 0u8)),
        ("t2"@, (253u8, 0u8)),
        ("t3"@, (254u8, 0u8)),
        ("t4"@, (255u8, 0u8)),
    ]
}

proof fn lemma_const_name_injective(a: u8, b: u8)
    requires
        const_name(a) == const_name(b),
    ensures
        a == b,
{
    reveal_strlit("CONST");
    assert(const_name(a).subrange(5, const_name(a).len() as int) =~= decimal(a as nat));
    assert(const_name(b).subrange(5, const_name(b).len() as int) =~= decimal(b as nat));
    lemma_decimal_injective(a as nat, b as nat);
}

proof fn lemma_const_name_first(a: u8)
    ensures
        const_name(a).len() > 0,
        const_name(a)[0] == 'C',
{
    reveal_strlit("CONST");
}

/// Inserting a name that no entry has appends it.
proof fn lemma_insert_absent(es: Entries, k: Seq<char>, v: Item)
    requires
        forall|j: int| 0 <= j < es.len() ==> es[j].0 != k,
    ensures
        insert_entry(es, k, v) == es.push((k, v)),
{
    lemma_key_index(es, k);
}

proof fn lemma_layout_consts(order: Seq<u8>)
    requires
        order.no_duplicates(),
        order.len() <= 250,
    ensures
        layout(empty_table(), setup_of(order)) == LayoutOut::Done(
            Layout { pc: 0, entries: const_entries(order), addr: 250 - order.len() },
        ),
    decreases order.len(),
{
    if order.len() == 0 {
        assert(const_entries(order) =~= Seq::<(Seq<char>, Item)>::empty());
    } else {
        let prev = order.drop_last();
        assert(prev.no_duplicates()) by {
            assert forall|i: int, j: int| 0 <= i < prev.len() && 0 <= j < prev.len() && i != j
                implies prev[i] != prev[j] by {
                assert(prev[i] == order[i] && prev[j] == order[j]);
            }
        }
        lemma_layout_consts(prev);
        assert(setup_of(order).drop_last() =~= setup_of(prev));
        let es = const_entries(prev);
        let last = order.last();
        let k = const_name(last);
        assert forall|j: int| 0 <= j < es.len() implies es[j].0 != k by {
            if es[j].0 == k {
                lemma_const_name_injective(prev[j], last);
                assert(order[j] == order[order.len() - 1]);
            }
        }
        lemma_key_index(es, k);
        lemma_insert_absent(es, k, ((250 - prev.len()) as u8, last));
        assert(const_entries(order) =~= es.push((k, ((250 - prev.len()) as u8, last))));
    }
}

proof fn lemma_push_register(order: Seq<u8>, n: int)
    requires
        0 <= n < 5,
    ensures
        insert_entry(
            const_entries(order) + register_entries().take(n),
            register_entries()[n].0,
            register_entries()[n].1,
        ) == const_entries(order) + register_entries().take(n + 1),
{
    reveal_strlit("t0");
    reveal_strlit("t1");
    reveal_strlit("t2");
    reveal_strlit("t3");
    reveal_strlit("t4");
    let ces = const_entries(order);
    let regs = register_entries();
    let e = ces + regs.take(n);
    let k = regs[n].0;
    assert forall|j: int| 0 <= j < e.len() implies e[j].0 != k by {
        if j < ces.len() {
            lemma_const_name_first(order[j]);
            if e[j].0 == k {
                assert(e[j].0[0] == k[0]);
            }
        } else {
            assert(e[j] == regs[j - ces.len()]);
            if e[j].0 == k {
                assert(e[j].0[1] == k[1]);
            }
        }
    }
    lemma_insert_absent(e, k, regs[n].1);
    assert(ces + regs.take(n + 1) =~= e.push(regs[n]));
}

proof fn lemma_registers_after_consts(order: Seq<u8>)
    ensures
        with_registers(const_entries(order)) == const_entries(order) + register_entries(),
{
    let ces = const_entries(order);
    let regs = register_entries();
    assert(ces + regs.take(0) =~= ces);
    lemma_push_register(order, 0);
    lemma_push_register(order, 1);
    lemma_push_register(order, 2);
    lemma_push_register(order, 3);
    lemma_push_register(order, 4);
    assert(regs.take(5) =~= regs);
}

/// The machine as `Interpreter::new` and `load_neander_file` leave it for `mem`.
pub open spec fn loaded(mem: Seq<u8>) -> Machine {
    Machine { acc: 0, zero: true, negative: false, mem, pc: 0, halted: false }
}

proof fn lemma_const_lookup(order: Seq<u8>, j: int)
    requires
        order.no_duplicates(),
        0 <= j < order.len(),
    ensures
        lookup(with_registers(const_entries(order)), const_name(order[j])) == Some(
            ((250 - j) as u8, order[j]),
        ),
{
    let ces = const_entries(order);
    let name = const_name(order[j]);
    reveal_strlit("t0");
    reveal_strlit("t1");
    reveal_strlit("t2");
    reveal_strlit("t3");
    reveal_strlit("t4");
    lemma_const_name_first(order[j]);
    assert(!register_name(name)) by {
        if register_name(name) {
            assert(name[0] == 't');
        }
    }
    lemma_with_registers_other(ces, name);
    lemma_key_index(ces, name);
    let i = key_index(ces, name);
    assert(ces[j].0 == name);
    assert(i >= 0);
    lemma_const_name_injective(order[i], order[j]);
}

proof fn lemma_calc_consts(t: AST, order: Seq<u8>)
    requires
        order.no_duplicates(),
        forall|k: u8| #[trigger] leaves(t).contains(k) ==> order.contains(k),
    ensures
        forall|k: u8| #[trigger]
            leaves(t).contains(k) ==> exists|j: int|
                0 <= j < order.len() && order[j] == k && lookup(
                    with_registers(const_entries(order)),
                    const_name(k),
                ) == Some(((250 - j) as u8, k)),
{
    assert forall|k: u8| #[trigger] leaves(t).contains(k) implies exists|j: int|
        0 <= j < order.len() && order[j] == k && lookup(
            with_registers(const_entries(order)),
            const_name(k),
        ) == Some(((250 - j) as u8, k)) by {
        assert(order.contains(k));
        let j = choose|j: int| 0 <= j < order.len() && order[j] == k;
        lemma_const_lookup(order, j);
    }
}

/// The operand the generated code names for the pseudo-register `t{d}`: a register up
/// to `t3`; past it the name `t5`, which no declaration gives an address.
pub open spec fn temp_operand(d: nat) -> OperandView {
    if d == 0 {
        OperandView::Register(Register::T0)
    } else if d == 1 {
        OperandView::Register(Register::T1)
    } else if d == 2 {
        OperandView::Register(Register::T2)
    } else if d == 3 {
        OperandView::Register(Register::T3)
    } else {
        OperandView::Symbol("t5"@)
    }
}

/// The instruction that adds or subtracts an operand.
pub open spec fn op_instr(is_add: bool, o: OperandView) -> InstrView {
    if is_add {
        InstrView::Add(o)
    } else {
        InstrView::Sub(o)
    }
}

/// The instructions of an operation on an operand: add or subtract it, then store the
/// result into `t4`.
pub open spec fn op_instrs(is_add: bool, o: OperandView) -> Seq<InstrView> {
    seq![op_instr(is_add, o), InstrView::Sta(OperandView::Register(Register::T4))]
}

/// The instructions the assembler reads from `instructions(t, d)`.
pub open spec fn calc_instrs(t: AST, d: nat) -> Seq<InstrView>
    decreases t,
{
    match t {
        AST::Number(n) => seq![InstrView::Lda(OperandView::Symbol(const_name(n)))],
        AST::Add(l, r) => match *r {
            AST::Number(m) => calc_instrs(*l, d) + op_instrs(true, OperandView::Symbol(const_name(m))),
            _ => calc_instrs(*r, d) + seq![InstrView::Sta(temp_operand(d))] + calc_instrs(
                *l,
                next_depth(d),
            ) + op_instrs(true, temp_operand(d)),
        },
        AST::Sub(l, r) => match *r {
            AST::Number(m) => calc_instrs(*l, d) + op_instrs(false, OperandView::Symbol(const_name(m))),
            _ => calc_instrs(*r, d) + seq![InstrView::Sta(temp_operand(d))] + calc_instrs(
                *l,
                next_depth(d),
            ) + op_instrs(false, temp_operand(d)),
        },
    }
}

/// The program the assembler reads from the assembly generated for `t` when the map hands
/// the constants out in the order of `order`.
pub open spec fn calc_program(t: AST, order: Seq<u8>) -> ProgramView {
    ProgramView { setup: setup_of(order), text: calc_instrs(t, 0) + seq![InstrView::Hlt] }
}

/// Where the symbol table puts the constant of each number.
spec fn const_addr(es: Entries) -> spec_fn(u8) -> u8 {
    |k: u8| lookup(es, const_name(k))->Some_0.0
}

/// `mem` with `bs` written from `pc` on.
spec fn write_bytes(mem: Seq<u8>, pc: int, bs: Seq<u8>) -> Seq<u8> {
    Seq::new(mem.len(), |i: int| if pc <= i < pc + bs.len() { bs[i - pc] } else { mem[i] })
}

proof fn lemma_write_write(mem: Seq<u8>, pc: int, a: Seq<u8>, b: Seq<u8>)
    ensures
        write_bytes(write_bytes(mem, pc, a), pc + a.len(), b) == write_bytes(mem, pc, a + b),
{
    assert(write_bytes(write_bytes(mem, pc, a), pc + a.len(), b) =~= write_bytes(mem, pc, a + b));
}

proof fn lemma_expand_append(a: Seq<InstrView>, b: Seq<InstrView>)
    ensures
        expand(a + b) == expand(a) + expand(b),
    decreases a.len(),
{
    if a.len() == 0 {
        assert(a + b =~= b);
        assert(expand(a) + expand(b) =~= expand(b));
    } else {
        assert((a + b)[0] == a[0]);
        assert((a + b).drop_first() =~= a.drop_first() + b);
        lemma_expand_append(a.drop_first(), b);
        assert(expand(a + b) =~= expand_one(a[0]) + (expand(a.drop_first()) + expand(b)));
    }
}

proof fn lemma_expand_one(i: InstrView)
    ensures
        expand(seq![i]) == expand_one(i),
{
    assert(seq![i].drop_first() =~= Seq::<InstrView>::empty());
    assert(seq![i][0] == i);
    assert(expand(Seq::<InstrView>::empty()) == Seq::<InstrView>::empty());
    assert(expand_one(i) + Seq::<InstrView>::empty() =~= expand_one(i));
}

/// Writing one native instruction with an address byte.
proof fn lemma_emit_addr(es: Entries, i: InstrView, rest: Seq<InstrView>, mem: Seq<u8>, pc: int)
    requires
        mem.len() == 256,
        0 <= pc,
        pc + 2 <= 256,
        encode(i).1 matches Some(o) && resolve(es, o) is Ok,
    ensures
        emit(es, seq![i] + rest, mem, pc) == emit(
            es,
            rest,
            write_bytes(mem, pc, seq![encode(i).0, resolve(es, encode(i).1->Some_0)->Ok_0]),
            pc + 2,
        ),
{
    let t = seq![i] + rest;
    assert(t[0] == i);
    assert(t.drop_first() =~= rest);
    let a = resolve(es, encode(i).1->Some_0)->Ok_0;
    assert(mem.update(pc, encode(i).0).update(pc + 1, a) =~= write_bytes(
        mem,
        pc,
        seq![encode(i).0, a],
    ));
}

/// Writing `NOT`.
proof fn lemma_emit_not(es: Entries, o: OperandView, rest: Seq<InstrView>, mem: Seq<u8>, pc: int)
    requires
        mem.len() == 256,
        0 <= pc < 256,
    ensures
        emit(es, seq![InstrView::Not(o)] + rest, mem, pc) == emit(
            es,
            rest,
            write_bytes(mem, pc, seq![96u8]),
            pc + 1,
        ),
{
    let t = seq![InstrView::Not(o)] + rest;
    assert(t[0] == InstrView::Not(o));
    assert(t.drop_first() =~= rest);
    assert(mem.update(pc, 96u8) =~= write_bytes(mem, pc, seq![96u8]));
}

/// Writing `ADD o`, or the `SUB o` macro, with `o` at address `a`.
proof fn lemma_emit_op(es: Entries, is_add: bool, o: OperandView, rest: Seq<InstrView>, mem: Seq<u8>, pc: int)
    requires
        mem.len() == 256,
        0 <= pc,
        pc + (if is_add { 2int } else { 4int }) <= 256,
        resolve(es, o) is Ok,
    ensures
        emit(es, expand(seq![op_instr(is_add, o)]) + rest, mem, pc) == emit(
            es,
            rest,
            write_bytes(
                mem,
                pc,
                if is_add {
                    seq![48u8, resolve(es, o)->Ok_0]
                } else {
                    seq![96u8, 48u8, resolve(es, o)->Ok_0, 96u8]
                },
            ),
            pc + if is_add { 2int } else { 4int },
        ),
{
    lemma_expand_one(op_instr(is_add, o));
    let a = resolve(es, o)->Ok_0;
    if is_add {
        lemma_emit_addr(es, InstrView::Add(o), rest, mem, pc);
    } else {
        let r2 = seq![InstrView::Not(o)] + rest;
        let r1 = seq![InstrView::Add(o)] + r2;
        assert(expand(seq![op_instr(is_add, o)]) + rest =~= seq![InstrView::Not(o)] + r1);
        lemma_emit_not(es, o, r1, mem, pc);
        let m1 = write_bytes(mem, pc, seq![96u8]);
        lemma_emit_addr(es, InstrView::Add(o), r2, m1, pc + 1);
        let m2 = write_bytes(m1, pc + 1, seq![48u8, a]);
        lemma_emit_not(es, o, rest, m2, pc + 3);
        lemma_write_write(mem, pc, seq![96u8], seq![48u8, a]);
        lemma_write_write(mem, pc, seq![96u8, 48u8, a], seq![96u8]);
        assert(seq![96u8] + seq![48u8, a] =~= seq![96u8, 48u8, a]);
        assert(seq![96u8, 48u8, a] + seq![96u8] =~= seq![96u8, 48u8, a, 96u8]);
    }
}

/// Writing an operation and the store of its result into `t4`.
proof fn lemma_emit_op_store(es: Entries, is_add: bool, o: OperandView, rest: Seq<InstrView>, mem: Seq<u8>, pc: int)
    requires
        mem.len() == 256,
        0 <= pc,
        pc + op_bytes(is_add, 0).len() <= 256,
        resolve(es, o) is Ok,
    ensures
        emit(es, expand(op_instrs(is_add, o)) + rest, mem, pc) == emit(
            es,
            rest,
            write_bytes(mem, pc, op_bytes(is_add, resolve(es, o)->Ok_0)),
            pc + op_bytes(is_add, 0).len(),
        ),
{
    let a = resolve(es, o)->Ok_0;
    let sta = InstrView::Sta(OperandView::Register(Register::T4));
    let k: int = if is_add { 2 } else { 4 };
    assert(op_instrs(is_add, o) =~= seq![op_instr(is_add, o)] + seq![sta]);
    lemma_expand_append(seq![op_instr(is_add, o)], seq![sta]);
    lemma_expand_one(sta);
    assert(expand(op_instrs(is_add, o)) + rest =~= expand(seq![op_instr(is_add, o)]) + (seq![sta] + rest));
    lemma_emit_op(es, is_add, o, seq![sta] + rest, mem, pc);
    let head = if is_add { seq![48u8, a] } else { seq![96u8, 48u8, a, 96u8] };
    let m1 = write_bytes(mem, pc, head);
    lemma_emit_addr(es, sta, rest, m1, pc + k);
    lemma_write_write(mem, pc, head, seq![16u8, 255u8]);
    assert(head + seq![16u8, 255u8] =~= op_bytes(is_add, a));
}

/// The bytes of the code of `t`.
pub open spec fn calc_size(t: AST) -> nat
    decreases t,
{
    match t {
        AST::Number(_) => 2,
        AST::Add(l, r) => match *r {
            AST::Number(_) => calc_size(*l) + 4,
            _ => calc_size(*r) + 2 + calc_size(*l) + 4,
        },
        AST::Sub(l, r) => match *r {
            AST::Number(_) => calc_size(*l) + 6,
            _ => calc_size(*r) + 2 + calc_size(*l) + 6,
        },
    }
}

proof fn lemma_calc_size(t: AST, d: nat, ca: spec_fn(u8) -> u8)
    ensures
        calc_bytes(t, d, ca).len() == calc_size(t),
    decreases t,
{
    match t {
        AST::Number(_) => {},
        AST::Add(l, r) => {
            lemma_calc_size(*l, d, ca);
            lemma_calc_size(*l, d + 1, ca);
            lemma_calc_size(*r, d, ca);
        },
        AST::Sub(l, r) => {
            lemma_calc_size(*l, d, ca);
            lemma_calc_size(*l, d + 1, ca);
            lemma_calc_size(*r, d, ca);
        },
    }
}

/// The assembler writes the instructions read from `instructions(t, d)` as the bytes
/// `calc_bytes(t, d, ..)`, with each constant at its address in the table.
#[verifier::rlimit(80)]
proof fn lemma_emit_calc(t: AST, d: nat, es: Entries, mem: Seq<u8>, pc: int, rest: Seq<InstrView>)
    requires
        temps_fit(t, d),
        d <= 4,
        mem.len() == 256,
        0 <= pc,
        pc + calc_size(t) <= 256,
        forall|k: u8| #[trigger] leaves(t).contains(k) ==> lookup(es, const_name(k)) is Some,
    ensures
        emit(es, expand(calc_instrs(t, d)) + rest, mem, pc) == emit(
            es,
            rest,
            write_bytes(mem, pc, calc_bytes(t, d, const_addr(es))),
            pc + calc_size(t),
        ),
    decreases t,
{
    let ca = const_addr(es);
    lemma_calc_size(t, d, ca);
    match t {
        AST::Number(n) => {
            assert(leaves(t).contains(n));
            let i = InstrView::Lda(OperandView::Symbol(const_name(n)));
            lemma_expand_one(i);
            lemma_emit_addr(es, i, rest, mem, pc);
        },
        _ => {
            let (l, r, is_add) = match t {
                AST::Add(l, r) => (*l, *r, true),
                AST::Sub(l, r) => (*l, *r, false),
                AST::Number(_) => (t, t, true),
            };
            assert forall|k: u8| #[trigger] leaves(l).contains(k) implies lookup(es, const_name(k)) is Some by {
                assert(leaves(t).contains(k));
            }
            assert forall|k: u8| #[trigger] leaves(r).contains(k) implies lookup(es, const_name(k)) is Some by {
                assert(leaves(t).contains(k));
            }
            if let AST::Number(m) = r {
                assert(leaves(r).contains(m));
                let o = OperandView::Symbol(const_name(m));
                let op = op_instrs(is_add, o);
                let cl = calc_instrs(l, d);
                assert(calc_instrs(t, d) == cl + op);
                lemma_expand_append(cl, op);
                assert(expand(calc_instrs(t, d)) + rest =~= expand(cl) + (expand(op) + rest));
                lemma_emit_calc(l, d, es, mem, pc, expand(op) + rest);
                lemma_calc_size(l, d, ca);
                let m1 = write_bytes(mem, pc, calc_bytes(l, d, ca));
                lemma_emit_op_store(es, is_add, o, rest, m1, pc + calc_size(l));
                let a = resolve(es, o)->Ok_0;
                let ob = op_bytes(is_add, a);
                lemma_write_write(mem, pc, calc_bytes(l, d, ca), ob);
                assert(calc_bytes(t, d, ca) == calc_bytes(l, d, ca) + ob);
            } else {
                let to = temp_operand(d);
                let sta = seq![InstrView::Sta(to)];
                let op = op_instrs(is_add, to);
                let cr = calc_instrs(r, d);
                let cl = calc_instrs(l, d + 1);
                assert(d < 4) by {
                    if is_add {
                        assert(t == AST::Add(Box::new(l), Box::new(r)));
                    } else {
                        assert(t == AST::Sub(Box::new(l), Box::new(r)));
                    }
                }
                assert(next_depth(d) == d + 1);
                assert(calc_instrs(t, d) == cr + sta + cl + op);
                lemma_expand_append(cr + sta + cl, op);
                lemma_expand_append(cr + sta, cl);
                lemma_expand_append(cr, sta);
                lemma_expand_one(InstrView::Sta(to));
                let rest2 = expand(op) + rest;
                let rest1 = sta + (expand(cl) + rest2);
                assert(expand(calc_instrs(t, d)) + rest =~= expand(cr) + rest1);
                lemma_emit_calc(r, d, es, mem, pc, rest1);
                lemma_calc_size(r, d, ca);
                lemma_calc_size(l, d + 1, ca);
                let rb = calc_bytes(r, d, ca);
                let m1 = write_bytes(mem, pc, rb);
                let p1 = pc + calc_size(r);
                lemma_emit_addr(es, InstrView::Sta(to), expand(cl) + rest2, m1, p1);
                let sb = seq![16u8, temp_addr(d)];
                let m2 = write_bytes(m1, p1, sb);
                lemma_emit_calc(l, d + 1, es, m2, p1 + 2, rest2);
                let lb = calc_bytes(l, d + 1, ca);
                let m3 = write_bytes(m2, p1 + 2, lb);
                let p3 = p1 + 2 + calc_size(l);
                lemma_emit_op_store(es, is_add, to, rest, m3, p3);
                let ob = op_bytes(is_add, temp_addr(d));
                lemma_write_write(mem, pc, rb, sb);
                lemma_write_write(mem, pc, rb + sb, lb);
                lemma_write_write(mem, pc, rb + sb + lb, ob);
                assert(calc_bytes(t, d, ca) == rb + sb + lb + ob);
            }
        },
    }
}

/// The memory the assembler writes for the program generated for `t`: the data, then the
/// code from address 0 and `HLT` after it.
proof fn lemma_calc_memory(t: AST, order: Seq<u8>)
    requires
        temps_fit(t, 0),
        order.no_duplicates(),
        forall|k: u8| #[trigger] leaves(t).contains(k) ==> order.contains(k),
        calc_size(t) + order.len() <= 250,
    ensures
        ({
            let es = with_registers(const_entries(order));
            let mem = write_bytes(data_image(es), 0, calc_bytes(t, 0, const_addr(es))).update(
                calc_size(t) as int,
                240u8,
            );
            &&& assemble(calc_program(t, order), empty_table()) == AsmOut::Done(neander_image(mem))
            &&& mem.len() == 256
        }),
{
    let es = with_registers(const_entries(order));
    let ca = const_addr(es);
    let ci = calc_instrs(t, 0);
    let hlt = seq![InstrView::Hlt];
    lemma_layout_consts(order);
    lemma_calc_consts(t, order);
    assert forall|k: u8| #[trigger] leaves(t).contains(k) implies lookup(es, const_name(k)) is Some by {
        let j = choose|j: int|
            0 <= j < order.len() && order[j] == k && lookup(es, const_name(k)) == Some(
                ((250 - j) as u8, k),
            );
    }
    crate::assembler::parser::lemma_data_image_len(es);
    lemma_expand_append(ci, hlt);
    lemma_expand_one(InstrView::Hlt);
    lemma_emit_calc(t, 0, es, data_image(es), 0, hlt);
    let m1 = write_bytes(data_image(es), 0, calc_bytes(t, 0, ca));
    assert(hlt[0] == InstrView::Hlt);
    assert(hlt.drop_first() =~= Seq::<InstrView>::empty());
    let m2 = m1.update(calc_size(t) as int, 240u8);
    assert(emit(es, hlt.drop_first(), m2, calc_size(t) + 1int) == EmitOut::Done(m2));
    assert(emit(es, hlt, m1, calc_size(t) as int) == EmitOut::Done(m1.update(calc_size(t) as int, 240u8)));
}

/// The code generated for an expression computes it. Assembled with its constants
/// declared in the order `order` (each number of the expression among them, none twice)
/// and loaded into the machine, the program runs to `HLT`, and every run that halts leaves
/// the value of the expression modulo 256 in the accumulator. The right operands kept in
/// pseudo-registers must find one (`temps_fit`), and the code and the constants must fit
/// below the pseudo-registers.
pub proof fn lemma_generated_program_computes(t: AST, order: Seq<u8>)
    requires
        temps_fit(t, 0),
        order.no_duplicates(),
        forall|k: u8| #[trigger] leaves(t).contains(k) ==> order.contains(k),
        calc_size(t) + order.len() <= 250,
    ensures
        assemble(calc_program(t, order), empty_table()) matches AsmOut::Done(img) && spec_load(img) matches Ok(mem)
            && halts(loaded(mem)) && forall|n: nat|
            #[trigger] run_steps(loaded(mem), n).halted ==> run_steps(loaded(mem), n).acc == value(t)
                % 256,
{
    let ces = const_entries(order);
    let es = with_registers(ces);
    let ca = const_addr(es);
    let size = calc_size(t);
    lemma_calc_memory(t, order);
    lemma_registers_after_consts(order);
    lemma_calc_size(t, 0, ca);
    let bs = calc_bytes(t, 0, ca);
    let mem = write_bytes(data_image(es), 0, bs).update(size as int, 240u8);
    crate::interpreter::interpreter::lemma_load_image(mem);
    crate::assembler::parser::lemma_data_image_len(es);
    let m = loaded(mem);
    assert(code_at(mem, 0, bs));
    lemma_calc_consts(t, order);
    assert forall|k: u8| #[trigger] leaves(t).contains(k) implies ca(k) < 251 + 0nat && mem[ca(
        k,
    ) as int] == k by {
        let j = choose|j: int|
            0 <= j < order.len() && order[j] == k && lookup(es, const_name(k)) == Some(
                ((250 - j) as u8, k),
            );
        assert(es[j] == ces[j]);
        assert forall|q: int| j < q < es.len() implies es[q].1.0 != es[j].1.0 by {
            if q >= ces.len() {
                assert(es[q] == register_entries()[q - ces.len()]);
            }
        }
        crate::assembler::parser::lemma_data_image(es, j);
        assert(ca(k) == 250 - j);
    }
    lemma_run_calc(t, 0, ca, m);
    let steps = calc_steps(t);
    let m2 = run_steps(m, steps);
    assert(m2.mem[size as int] == 240u8);
    let h = Machine { pc: next_pc(m2.pc), halted: true, ..m2 };
    assert(spec_step(m2) == h);
    assert(run_steps(h, 0) == h);
    assert(run_steps(m2, 1) == h);
    lemma_run_steps_add(m, steps, 1);
    let total = steps + 1;
    assert(run_steps(m, total) == h);
    assert(run_steps(m, total).halted);
    assert(halts(m));
    assert forall|n: nat| #[trigger] run_steps(m, n).halted implies run_steps(m, n).acc == value(t)
        % 256 by {
        lemma_halted_unique(m, n, total);
    }
}

/// The numbers of an expression are finitely many.
proof fn lemma_leaves_finite(t: AST)
    ensures
        leaves(t).finite(),
    decreases t,
{
    match t {
        AST::Number(_) => {},
        AST::Add(l, r) => {
            lemma_leaves_finite(*l);
            lemma_leaves_finite(*r);
        },
        AST::Sub(l, r) => {
            lemma_leaves_finite(*l);
            lemma_leaves_finite(*r);
        },
    }
}

/// The compiler stack computes expressions: the assembly generated for an expression is
/// read by the assembler, assembled and loaded into the machine, and the program runs to
/// `HLT` and leaves the value of the expression modulo 256 in the accumulator, in every
/// run that halts. What the assembler reads is the program `calc_program` of the
/// expression, with its constants declared in some order, each once. The right operands kept in pseudo-registers must find one
/// (`temps_fit`), and the code and the constants must fit below the pseudo-registers.
pub proof fn lemma_expression_computes(t: AST, code: Seq<char>)
    requires
        assembly_of(t, code),
        temps_fit(t, 0),
        calc_size(t) + leaves(t).len() <= 250,
    ensures
        exists|order: Seq<u8>|
            {
                &&& order.no_duplicates()
                &&& #[trigger] order.to_set() == leaves(t)
                &&& spec_parse_program(code, asm_start(code)).0 == Ok::<ProgramView, Seq<char>>(
                    calc_program(t, order),
                )
                &&& spec_parse(code, asm_start(code), empty_table()) == Some(
                    Ok::<Seq<u8>, AsmErrView>(assemble(calc_program(t, order), empty_table())->Done_0),
                )
            },
        spec_parse(code, asm_start(code), empty_table()) matches Some(Ok(img)) && spec_load(img) matches Ok(mem)
            && halts(loaded(mem)) && forall|n: nat|
            #[trigger] run_steps(loaded(mem), n).halted ==> run_steps(loaded(mem), n).acc == value(t)
                % 256,
{
    reveal(assembly_of);
    let m = choose|m: HashMap<u8, Symbol>|
        {
            &&& #[trigger] m@.dom() == leaves(t)
            &&& forall|k: u8| #[trigger]
                leaves(t).contains(k) ==> m@[k].name@ == const_name(k) && m@[k].value == k
            &&& symbol_order(&m).len() == m@.dom().len()
            &&& symbol_order(&m).to_set() == m@.values()
            &&& code == setup_section(&m) + text_section(t)
        };
    let ss = symbol_order(&m);
    let mm = m@;
    lemma_leaves_finite(t);
    // every constant listed is the map's entry for its value
    assert forall|j: int| #![trigger ss[j]] 0 <= j < ss.len() implies ss[j].name@ == const_name(ss[j].value)
        && mm.dom().contains(ss[j].value) && mm[ss[j].value] == ss[j] by {
        assert(ss.to_set().contains(ss[j]));
        assert(mm.values().contains(ss[j]));
        let k = choose|k: u8| mm.dom().contains(k) && mm[k] == ss[j];
        assert(leaves(t).contains(k));
    }
    // no constant is listed twice
    assert(mm.is_injective()) by {
        assert forall|k1: u8, k2: u8|
            mm.dom().contains(k1) && mm.dom().contains(k2) && #[trigger] mm[k1] == #[trigger] mm[k2]
                implies k1 == k2 by {
            assert(leaves(t).contains(k1));
            assert(leaves(t).contains(k2));
        }
    }
    mm.lemma_injective_values_len();
    ss.lemma_no_dup_set_cardinality();
    let order = Seq::new(ss.len(), |j: int| ss[j].value);
    assert(order.no_duplicates()) by {
        assert forall|i: int, j: int| 0 <= i < order.len() && 0 <= j < order.len() && i != j implies order[i]
            != order[j] by {
            if order[i] == order[j] {
                assert(ss[i] == mm[ss[i].value]);
                assert(ss[j] == mm[ss[j].value]);
            }
        }
    }
    // every number of the expression is listed
    assert forall|k: u8| #[trigger] leaves(t).contains(k) implies order.contains(k) by {
        assert(mm.values().contains(mm[k]));
        assert(ss.to_set().contains(mm[k]));
        let j = choose|j: int| 0 <= j < ss.len() && ss[j] == mm[k];
        assert(order[j] == k);
    }
    assert(order.len() == leaves(t).len());
    // the assembler reads the program
    crate::reading::lemma_read_program(code, ss, t);
    assert(crate::reading::decls_of(ss) =~= setup_of(order));
    assert(calc_program(t, order) == ProgramView {
        setup: crate::reading::decls_of(ss),
        text: calc_instrs(t, 0) + seq![InstrView::Hlt],
    });
    lemma_generated_program_computes(t, order);
    assert(order.to_set() =~= leaves(t)) by {
        assert forall|k: u8| #[trigger] order.to_set().contains(k) implies leaves(t).contains(k) by {
            let j = choose|j: int| 0 <= j < order.len() && order[j] == k;
            assert(mm.dom().contains(ss[j].value));
        }
    }
}

} // verus!
