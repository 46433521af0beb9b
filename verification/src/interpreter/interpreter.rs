//! The machine: an accumulator, two flags, 256 bytes of memory and a program counter,
//! running one instruction per step until `HLT`.
use vstd::prelude::*;
use crate::assembler::codegen::{layout, with_registers, Layout};
use crate::assembler::parser::{
    assemble, code_image, data_image, encode, expand, lemma_data_image, lemma_emit_places_code, mem_header,
    neander_image, offset, resolve, AsmOut, InstrView, ProgramView,
};
use crate::text::{byte_rows, decimal, push_byte_rows, push_decimal, push_str};

verus! {

/// The machine.
pub struct Interpreter {
    pub acc: u8,
    pub zero_f: bool,
    pub negative_f: bool,
    pub mem: [u8; 256],
    pub pc: u8,
    pub should_stop: bool,
}

/// The machine as values.
pub struct Machine {
    pub acc: u8,
    pub zero: bool,
    pub negative: bool,
    pub mem: Seq<u8>,
    pub pc: u8,
    pub halted: bool,
}

impl View for Interpreter {
    type V = Machine;

    open spec fn view(&self) -> Machine {
        Machine {
            acc: self.acc,
            zero: self.zero_f,
            negative: self.negative_f,
            mem: self.mem@,
            pc: self.pc,
            halted: self.should_stop,
        }
    }
}

/// The operations of the machine.
#[derive(Debug, Clone, Copy, PartialEq, Eq)]
pub enum Operation {
    Nop,
    Sta,
    Lda,
    Add,
    Or,
    And,
    Not,
    Jmp,
    Jn,
    Jz,
    Hlt,
}

/// The operation of an opcode; other bytes are no operation and are skipped.
pub open spec fn decode(opcode: u8) -> Option<Operation> {
    if opcode == 0 {
        Some(Operation::Nop)
    } else if opcode == 16 {
        Some(Operation::Sta)
    } else if opcode == 32 {
        Some(Operation::Lda)
    } else if opcode == 48 {
        Some(Operation::Add)
    } else if opcode == 64 {
        Some(Operation::Or)
    } else if opcode == 80 {
        Some(Operation::And)
    } else if opcode == 96 {
        Some(Operation::Not)
    } else if opcode == 128 {
        Some(Operation::Jmp)
    } else if opcode == 144 {
        Some(Operation::Jn)
    } else if opcode == 160 {
        Some(Operation::Jz)
    } else if opcode == 240 {
        Some(Operation::Hlt)
    } else {
        None
    }
}

/// Whether an opcode is one byte long: `NOP`, `NOT` and `HLT` take no address.
pub open spec fn takes_no_address(opcode: u8) -> bool {
    opcode == 0 || opcode == 96 || opcode == 240
}

/// The address after `pc`, wrapping from 255 to 0.
pub open spec fn next_pc(pc: u8) -> u8 {
    ((pc + 1) % 256) as u8
}

/// The machine with `v` in the accumulator and the flags set from it: `Z` when it is zero,
/// `N` when it is negative as an 8-bit two's complement number.
pub open spec fn set_acc(m: Machine, v: u8) -> Machine {
    Machine { acc: v, zero: v == 0, negative: v >= 128, ..m }
}

/// Performs an operation with address `a` on a machine. `ADD` wraps around on the 8-bit
/// accumulator; the operations that change the accumulator set the flags from it.
pub open spec fn apply(o: Operation, m: Machine, a: int) -> Machine {
    match o {
        Operation::Nop => m,
        Operation::Sta => Machine { mem: m.mem.update(a, m.acc), ..m },
        Operation::Lda => set_acc(m, m.mem[a]),
        Operation::Add => set_acc(m, ((m.acc + m.mem[a]) % 256) as u8),
        Operation::Or => set_acc(m, m.acc | m.mem[a]),
        Operation::And => set_acc(m, m.acc & m.mem[a]),
        Operation::Not => set_acc(m, !m.acc),
        Operation::Jmp => Machine { pc: a as u8, ..m },
        Operation::Jn => if m.negative {
            Machine { pc: a as u8, ..m }
        } else {
            m
        },
        Operation::Jz => if m.zero {
            Machine { pc: a as u8, ..m }
        } else {
            m
        },
        Operation::Hlt => Machine { halted: true, ..m },
    }
}

/// One fetch and execute cycle: the opcode at `pc`, then, unless it takes no address,
/// the address after it; the program counter moves past what was read before the
/// operation runs.
pub open spec fn spec_step(m: Machine) -> Machine {
    let opcode = m.mem[m.pc as int];
    let m1 = Machine { pc: next_pc(m.pc), ..m };
    match decode(opcode) {
        None => m1,
        Some(o) => if takes_no_address(opcode) {
            apply(o, m1, 0)
        } else {
            let a = m1.mem[m1.pc as int];
            apply(o, Machine { pc: next_pc(m1.pc), ..m1 }, a as int)
        },
    }
}

/// The machine after at most `n` steps, stopping once halted.
pub open spec fn run_steps(m: Machine, n: nat) -> Machine
    decreases n,
{
    if n == 0 || m.halted {
        m
    } else {
        run_steps(spec_step(m), (n - 1) as nat)
    }
}

/// Whether running the machine reaches `HLT`.
pub open spec fn halts(m: Machine) -> bool {
    exists|n: nat| #[trigger] run_steps(m, n).halted
}

/// Once halted, running further changes nothing: two runs that both end halted end in the
/// same machine.
pub proof fn lemma_halted_unique(m: Machine, n1: nat, n2: nat)
    requires
        run_steps(m, n1).halted,
        run_steps(m, n2).halted,
    ensures
        run_steps(m, n1) == run_steps(m, n2),
    decreases n1 + n2,
{
    if !m.halted {
        if n1 > 0 && n2 > 0 {
            let m2 = spec_step(m);
            lemma_halted_unique(m2, (n1 - 1) as nat, (n2 - 1) as nat);
        }
    }
}

/// Running `a` steps and then `b` more is running `a + b` steps.
pub proof fn lemma_run_steps_add(m: Machine, a: nat, b: nat)
    ensures
        run_steps(m, a + b) == run_steps(run_steps(m, a), b),
    decreases a,
{
    if m.halted {
        lemma_halted_stays(m, b);
        lemma_halted_stays(m, a + b);
    } else if a > 0 {
        lemma_run_steps_add(spec_step(m), (a - 1) as nat, b);
        assert((a + b - 1) as nat == (a - 1) as nat + b);
    }
}

/// The `.MEM` file loaded into memory: every other byte after the four header bytes.
pub open spec fn image_memory(data: Seq<u8>) -> Seq<u8> {
    Seq::new(256, |i: int| data[4 + 2 * i])
}

/// What loading a file gives: an error for a file that is not 516 bytes long or lacks the
/// header, else the memory of the file.
pub open spec fn spec_load(data: Seq<u8>) -> Result<Seq<u8>, Seq<char>> {
    if data.len() != 516 {
        Err("Invalid file. The length of file wasn't 516 bytes."@)
    } else if data.take(4) != mem_header() {
        Err("Invalid header format."@)
    } else {
        Ok(image_memory(data))
    }
}

/// Loading the `.MEM` file that the assembler writes for a memory gives that memory back.
pub proof fn lemma_load_image(mem: Seq<u8>)
    requires
        mem.len() == 256,
    ensures
        spec_load(neander_image(mem)) == Ok::<Seq<u8>, Seq<char>>(mem),
{
    let img = neander_image(mem);
    assert(img.take(4) =~= mem_header());
    assert forall|i: int| 0 <= i < 256 implies image_memory(img)[i] == mem[i] by {
        assert((4 + 2 * i - 4) % 2 == 0);
        assert((4 + 2 * i - 4) / 2 == i);
    }
    assert(image_memory(img) =~= mem);
}

/// The operation that an assembled instruction stands for; the `SUB` macro starts with
/// `NOT`.
pub open spec fn operation_of(i: InstrView) -> Operation {
    match i {
        InstrView::Nop => Operation::Nop,
        InstrView::Hlt => Operation::Hlt,
        InstrView::Add(_) => Operation::Add,
        InstrView::Sta(_) => Operation::Sta,
        InstrView::Lda(_) => Operation::Lda,
        InstrView::Or(_) => Operation::Or,
        InstrView::And(_) => Operation::And,
        InstrView::Not(_) => Operation::Not,
        InstrView::Jmp(_) => Operation::Jmp,
        InstrView::Jn(_) => Operation::Jn,
        InstrView::Jz(_) => Operation::Jz,
        InstrView::Sub(_) => Operation::Not,
    }
}

/// The machine decodes the opcode that the assembler writes for an instruction as that
/// instruction's operation, and it reads an address after the opcode exactly when the
/// assembler wrote an operand there.
pub proof fn lemma_encode_decode(i: InstrView)
    requires
        !(i is Sub),
    ensures
        decode(encode(i).0) == Some(operation_of(i)),
        takes_no_address(encode(i).0) <==> encode(i).1 is None,
{
}

/// Storing the accumulator at an address and loading from that address gives the
/// accumulator back.
pub proof fn lemma_store_then_load(m: Machine, a: int)
    requires
        0 <= a < m.mem.len(),
    ensures
        apply(Operation::Lda, apply(Operation::Sta, m, a), a).acc == m.acc,
{
}

/// After a step that changes the accumulator (`LDA`, `ADD`, `OR`, `AND`, `NOT`), `Z` is
/// set exactly when the accumulator is zero and `N` exactly when it is negative; every
/// other step leaves the flags as they were.
pub proof fn lemma_flags_follow_acc(m: Machine)
    ensures
        decode(m.mem[m.pc as int]) matches Some(o) && (o is Lda || o is Add || o is Or || o is And
            || o is Not) ==> {
            &&& spec_step(m).zero == (spec_step(m).acc == 0)
            &&& spec_step(m).negative == (spec_step(m).acc >= 128)
        },
        !(decode(m.mem[m.pc as int]) matches Some(o) && (o is Lda || o is Add || o is Or || o
            is And || o is Not)) ==> spec_step(m).zero == m.zero && spec_step(m).negative
            == m.negative,
{
}

/// The flags agree with the accumulator: `Z` is set exactly when it is zero and `N`
/// exactly when it is negative.
pub open spec fn flags_follow(m: Machine) -> bool {
    m.zero == (m.acc == 0) && m.negative == (m.acc >= 128)
}

/// Over a whole run the flags keep following the accumulator: a machine whose flags agree
/// with its accumulator, as those of a new machine do, still has them agree after any
/// number of steps, and so when it halts.
pub proof fn lemma_flags_follow_run(m: Machine, n: nat)
    requires
        flags_follow(m),
    ensures
        flags_follow(run_steps(m, n)),
    decreases n,
{
    if n > 0 && !m.halted {
        lemma_flags_follow_acc(m);
        lemma_flags_follow_run(spec_step(m), (n - 1) as nat);
    }
}

/// What one step does, by the opcode at the program counter, as the Neander opcode table
/// gives it, with `a` the address byte after the opcode:
/// `NOP` (0) only moves on; `STA` (16) writes the accumulator to `a`; `LDA` (32) loads
/// `mem[a]`; `ADD` (48) adds `mem[a]` modulo 256; `OR` (64) and `AND` (80) take the
/// bitwise or and and with `mem[a]`; `NOT` (96) complements the accumulator; `JMP` (128)
/// jumps to `a`; `JN` (144) jumps when `N` is set and `JZ` (160) when `Z` is set; `HLT`
/// (240) halts. An instruction that loads the accumulator sets `Z` exactly when the new
/// value is zero and `N` exactly when it is 128 or more. Any other byte is skipped.
/// For a machine whose flags follow its accumulator, `JN` jumps exactly when the
/// accumulator is 128 or more and `JZ` exactly when it is zero.
pub proof fn lemma_opcode_table(m: Machine)
    requires
        m.mem.len() == 256,
    ensures
        ({
            let op = m.mem[m.pc as int];
            let p1 = ((m.pc + 1) % 256) as u8;
            let p2 = ((m.pc + 2) % 256) as u8;
            let a = m.mem[p1 as int];
            let x = m.mem[a as int];
            let r = spec_step(m);
            &&& op == 0 ==> r == Machine { pc: p1, ..m }
            &&& op == 16 ==> r == Machine { mem: m.mem.update(a as int, m.acc), pc: p2, ..m }
            &&& op == 32 ==> r == Machine { acc: x, zero: x == 0, negative: x >= 128, pc: p2, ..m }
            &&& op == 48 ==> r.acc == (m.acc + x) % 256 && r == Machine {
                acc: r.acc,
                zero: r.acc == 0,
                negative: r.acc >= 128,
                pc: p2,
                ..m
            }
            &&& op == 64 ==> r == Machine {
                acc: m.acc | x,
                zero: m.acc | x == 0,
                negative: m.acc | x >= 128,
                pc: p2,
                ..m
            }
            &&& op == 80 ==> r == Machine {
                acc: m.acc & x,
                zero: m.acc & x == 0,
                negative: m.acc & x >= 128,
                pc: p2,
                ..m
            }
            &&& op == 96 ==> r.acc == 255 - m.acc && r == Machine {
                acc: r.acc,
                zero: r.acc == 0,
                negative: r.acc >= 128,
                pc: p1,
                ..m
            }
            &&& op == 128 ==> r == Machine { pc: a, ..m }
            &&& op == 144 ==> r == Machine { pc: if m.negative { a } else { p2 }, ..m }
            &&& op == 160 ==> r == Machine { pc: if m.zero { a } else { p2 }, ..m }
            &&& op == 240 ==> r == Machine { pc: p1, halted: true, ..m }
            &&& !(op == 0 || op == 16 || op == 32 || op == 48 || op == 64 || op == 80 || op == 96
                || op == 128 || op == 144 || op == 160 || op == 240) ==> r == Machine { pc: p1, ..m }
            &&& flags_follow(m) && op == 144 ==> r.pc == (if m.acc >= 128 { a } else { p2 })
            &&& flags_follow(m) && op == 160 ==> r.pc == (if m.acc == 0 { a } else { p2 })
        }),
{
    let op = m.mem[m.pc as int];
    if op == 96 {
        let y = m.acc;
        let n = !y;
        assert(n == 255 - y) by (bit_vector)
            requires
                n == !y,
        ;
    }
    if op == 144 || op == 160 || op == 16 || op == 32 || op == 48 || op == 64 || op == 80 || op == 128 {
        assert(next_pc(next_pc(m.pc)) == ((m.pc + 2) % 256) as u8);
    }
}

/// The `SUB x` macro, `NOT`, `ADD x`, `NOT`, subtracts `x` from the accumulator modulo 256
/// and leaves the memory as it was.
pub proof fn lemma_sub_macro(m: Machine, a: int)
    ensures
        ({
            let r = apply(Operation::Not, apply(Operation::Add, apply(Operation::Not, m, 0), a), 0);
            &&& r.acc == (m.acc - m.mem[a]) % 256
            &&& r.mem == m.mem
        }),
{
    let x = m.acc;
    let y = m.mem[a];
    let n1 = !x;
    assert(n1 == 255 - x) by (bit_vector)
        requires
            n1 == !x,
    ;
    let s = ((n1 + y) % 256) as u8;
    let n2 = !s;
    assert(n2 == 255 - s) by (bit_vector)
        requires
            n2 == !s,
    ;
    if x >= y {
        assert((255 - x + y) % 256 == 255 - x + y);
        assert((x - y) % 256 == x - y);
    } else {
        assert((255 - x + y) % 256 == y - x - 1);
        assert((x - y) % 256 == 256 + x - y);
    }
}

/// `ADD` wraps around on the 8-bit accumulator: the sum is taken modulo 256.
pub proof fn lemma_add_wraps(m: Machine, a: int)
    ensures
        apply(Operation::Add, m, a).acc == (m.acc + m.mem[a]) % 256,
{
}

/// How far an operation that does not jump moves the program counter: one byte for
/// `NOP`, `NOT` and `HLT`, two for the others, as the opcode table gives the sizes; an
/// unknown opcode is skipped as one byte.
pub proof fn lemma_step_size(m: Machine)
    requires
        !(decode(m.mem[m.pc as int]) matches Some(o) && (o is Jmp || o is Jn || o is Jz)),
        m.mem.len() == 256,
    ensures
        spec_step(m).pc == (if decode(m.mem[m.pc as int]) is None || takes_no_address(
            m.mem[m.pc as int],
        ) {
            next_pc(m.pc)
        } else {
            next_pc(next_pc(m.pc))
        }),
{
}

/// Running a halted machine changes nothing.
pub proof fn lemma_halted_stays(m: Machine, n: nat)
    requires
        m.halted,
    ensures
        run_steps(m, n) == m,
{
}

/// The machine loads what the assembler writes: the `.MEM` file of an assembled program
/// loads into a memory with each instruction's opcode at its offset from the program
/// counter that `ORG` set, followed by its operand's address, and with each symbol's
/// initial value at its address where neither the code nor a later symbol covers it.
pub proof fn lemma_assembled_program_loads(prog: ProgramView, table: Layout)
    requires
        assemble(prog, table) is Done,
    ensures
        ({
            let l = layout(table, prog.setup)->Done_0;
            let es = with_registers(l.entries);
            let text = expand(prog.text);
            let end = l.pc + offset(text, text.len() as int);
            spec_load(assemble(prog, table)->Done_0) matches Ok(mem) && {
                &&& forall|i: int|
                    #![trigger text[i]]
                    0 <= i < text.len() ==> {
                        &&& mem[l.pc + offset(text, i)] == encode(text[i]).0
                        &&& encode(text[i]).1 matches Some(o) ==> resolve(es, o) matches Ok(a)
                            && mem[l.pc + offset(text, i) + 1] == a
                    }
                &&& forall|j: int|
                    #![trigger es[j]]
                    0 <= j < es.len() && (es[j].1.0 < l.pc || es[j].1.0 >= end) && (forall|k: int|
                        j < k < es.len() ==> es[k].1.0 != es[j].1.0) ==> mem[es[j].1.0 as int]
                        == es[j].1.1
            }
        }),
{
    let l = layout(table, prog.setup)->Done_0;
    let es = with_registers(l.entries);
    let d = data_image(es);
    let out = code_image(es, l.pc, prog.text)->Done_0;
    let text = expand(prog.text);
    crate::assembler::parser::lemma_data_image_len(es);
    lemma_emit_places_code(es, text, d, l.pc as int);
    lemma_load_image(out);
    assert forall|j: int|
        #![trigger es[j]]
        0 <= j < es.len() && (es[j].1.0 < l.pc || es[j].1.0 >= l.pc + offset(
            text,
            text.len() as int,
        )) && (forall|k: int| j < k < es.len() ==> es[k].1.0 != es[j].1.0) implies out[es[j].1.0 as int]
        == es[j].1.1 by {
        lemma_data_image(es, j);
    }
}

fn set_acc_flags(i: &mut Interpreter, v: u8)
    ensures
        final(i)@ == set_acc(old(i)@, v),
{
    i.acc = v;
    i.zero_f = v == 0;
    i.negative_f = v >= 128;
}

fn nop(_i: &mut Interpreter, _addr: usize)
    ensures
        *final(_i) == *old(_i),
{
}

fn sta(i: &mut Interpreter, addr: usize)
    requires
        addr < 256,
    ensures
        final(i)@ == apply(Operation::Sta, old(i)@, addr as int),
{
    i.mem[addr] = i.acc;
}

fn lda(i: &mut Interpreter, addr: usize)
    requires
        addr < 256,
    ensures
        final(i)@ == apply(Operation::Lda, old(i)@, addr as int),
{
    set_acc_flags(i, i.mem[addr]);
}

fn add(i: &mut Interpreter, addr: usize)
    requires
        addr < 256,
    ensures
        final(i)@ == apply(Operation::Add, old(i)@, addr as int),
{
    let sum: u16 = i.acc as u16 + i.mem[addr] as u16;
    set_acc_flags(i, (sum % 256) as u8);
}

fn or(i: &mut Interpreter, addr: usize)
    requires
        addr < 256,
    ensures
        final(i)@ == apply(Operation::Or, old(i)@, addr as int),
{
    set_acc_flags(i, i.acc | i.mem[addr]);
}

fn and(i: &mut Interpreter, addr: usize)
    requires
        addr < 256,
    ensures
        final(i)@ == apply(Operation::And, old(i)@, addr as int),
{
    set_acc_flags(i, i.acc & i.mem[addr]);
}

fn not(i: &mut Interpreter, _addr: usize)
    ensures
        final(i)@ == apply(Operation::Not, old(i)@, 0),
{
    set_acc_flags(i, !i.acc);
}

fn jmp(i: &mut Interpreter, addr: usize)
    requires
        addr < 256,
    ensures
        final(i)@ == apply(Operation::Jmp, old(i)@, addr as int),
{
    i.pc = addr as u8;
}

fn jn(i: &mut Interpreter, addr: usize)
    requires
        addr < 256,
    ensures
        final(i)@ == apply(Operation::Jn, old(i)@, addr as int),
{
    if i.negative_f {
        jmp(i, addr);
    }
}

fn jz(i: &mut Interpreter, addr: usize)
    requires
        addr < 256,
    ensures
        final(i)@ == apply(Operation::Jz, old(i)@, addr as int),
{
    if i.zero_f {
        jmp(i, addr);
    }
}

fn hlt(i: &mut Interpreter, _addr: usize)
    ensures
        final(i)@ == apply(Operation::Hlt, old(i)@, 0),
{
    i.should_stop = true;
}

impl Interpreter {
    /// A machine with everything zero except the zero flag, which is set.
    pub fn new() -> (r: Self)
        ensures
            r@ == (Machine {
                acc: 0,
                zero: true,
                negative: false,
                mem: Seq::new(256, |i: int| 0u8),
                pc: 0,
                halted: false,
            }),
    {
        let r = Interpreter {
            acc: 0,
            pc: 0,
            zero_f: true,
            negative_f: false,
            mem: [0; 256],
            should_stop: false,
        };
        assert(r.mem@ =~= Seq::new(256, |i: int| 0u8));
        r
    }

    /// Loads a `.MEM` file into memory, as `spec_load` describes; the rest of the machine
    /// is kept.
    pub fn load_neander_file(self, file_data: &[u8]) -> (r: Result<Self, String>)
        ensures
            match spec_load(file_data@) {
                Ok(mem) => r matches Ok(m) && m@ == (Machine { mem, ..self@ }),
                Err(e) => r matches Err(x) && x@ == e,
            },
    {
        if file_data.len() != 516 {
            let mut m = String::new();
            push_str(&mut m, "Invalid file. The length of file wasn't 516 bytes.");
            return Err(m);
        }
        if !(file_data[0] == 3 && file_data[1] == 78 && file_data[2] == 68 && file_data[3] == 82) {
            proof {
                if file_data@.take(4) == mem_header() {
                    assert(file_data@.take(4)[0] == 3);
                    assert(file_data@.take(4)[1] == 78);
                    assert(file_data@.take(4)[2] == 68);
                    assert(file_data@.take(4)[3] == 82);
                }
            }
            let mut m = String::new();
            push_str(&mut m, "Invalid header format.");
            return Err(m);
        }
        assert(file_data@.take(4) =~= mem_header());
        let mut this = self;
        let ghost before = this@;
        let mut i: usize = 0;
        while i < 256
            invariant
                0 <= i <= 256,
                file_data@.len() == 516,
                this@ == (Machine { mem: this@.mem, ..before }),
                forall|j: int| 0 <= j < i ==> this.mem@[j] == file_data@[4 + 2 * j],
            decreases 256 - i,
        {
            this.mem[i] = file_data[4 + (i * 2)];
            i = i + 1;
        }
        assert(this.mem@ =~= image_memory(file_data@));
        Ok(this)
    }

    /// The same machine with the program counter at `pc`.
    pub fn set_pc(self, pc: u8) -> (r: Self)
        ensures
            r@ == (Machine { pc, ..self@ }),
    {
        let mut this = self;
        this.pc = pc;
        this
    }

    fn get_rules(opcode: u8) -> (r: Option<Operation>)
        ensures
            r == decode(opcode),
    {
        match opcode {
            0 => Some(Operation::Nop),
            16 => Some(Operation::Sta),
            32 => Some(Operation::Lda),
            48 => Some(Operation::Add),
            64 => Some(Operation::Or),
            80 => Some(Operation::And),
            96 => Some(Operation::Not),
            128 => Some(Operation::Jmp),
            144 => Some(Operation::Jn),
            160 => Some(Operation::Jz),
            240 => Some(Operation::Hlt),
            _ => None,
        }
    }

    fn fetch(&mut self) -> (r: u8)
        ensures
            r == old(self).mem@[old(self).pc as int],
            final(self)@ == (Machine { pc: next_pc(old(self).pc), ..old(self)@ }),
    {
        let code = self.mem[self.pc as usize];
        self.pc = self.pc.wrapping_add(1);
        code
    }

    fn dispatch(&mut self, o: Operation, addr: usize)
        requires
            addr < 256,
        ensures
            final(self)@ == apply(o, old(self)@, addr as int),
    {
        match o {
            Operation::Nop => nop(self, addr),
            Operation::Sta => sta(self, addr),
            Operation::Lda => lda(self, addr),
            Operation::Add => self::add(self, addr),
            Operation::Or => or(self, addr),
            Operation::And => and(self, addr),
            Operation::Not => not(self, addr),
            Operation::Jmp => jmp(self, addr),
            Operation::Jn => jn(self, addr),
            Operation::Jz => jz(self, addr),
            Operation::Hlt => hlt(self, addr),
        }
    }

    /// Runs one fetch and execute cycle, as `spec_step` describes.
    pub fn step(&mut self)
        ensures
            final(self)@ == spec_step(old(self)@),
    {
        let opcode = self.mem[self.pc as usize];
        match Interpreter::get_rules(opcode) {
            None => {
                self.fetch();
            },
            Some(o) => {
                if opcode == 0 || opcode == 96 || opcode == 240 {
                    self.fetch();
                    self.dispatch(o, 0);
                } else {
                    self.fetch();
                    let addr = self.fetch() as usize;
                    self.dispatch(o, addr);
                }
            },
        }
    }

    /// Runs at most `fuel` cycles, stopping at `HLT`, as `run_steps` describes; answers
    /// whether the machine has halted.
    pub fn run_for(&mut self, fuel: u64) -> (halted: bool)
        ensures
            final(self)@ == run_steps(old(self)@, fuel as nat),
            halted == final(self)@.halted,
    {
        let mut left = fuel;
        while left > 0 && !self.should_stop
            invariant
                run_steps(self@, left as nat) == run_steps(old(self)@, fuel as nat),
            decreases left,
        {
            self.step();
            left = left - 1;
        }
        self.should_stop
    }

    /// The machine as it is shown: the accumulator, the program counter, then the memory
    /// sixteen bytes to a line, and an empty line.
    pub fn to_string(&self) -> (r: String)
        ensures
            r@ == "Interpreter: \n ACC: "@ + decimal(self.acc as nat) + "\n PC: "@ + decimal(
                self.pc as nat,
            ) + "\n"@ + byte_rows(self.mem@) + "\n"@,
    {
        let mut s = String::new();
        push_str(&mut s, "Interpreter: \n ACC: ");
        push_decimal(&mut s, self.acc as usize);
        push_str(&mut s, "\n PC: ");
        push_decimal(&mut s, self.pc as usize);
        push_str(&mut s, "\n");
        push_byte_rows(&mut s, &self.mem);
        push_str(&mut s, "\n");
        s
    }

    /// Runs the machine until `HLT`. The machine must reach `HLT`; it ends halted, in the
    /// one state that running it to `HLT` gives, with flags that still follow the
    /// accumulator where they did at the start.
    pub fn run(&mut self)
        requires
            halts(old(self)@),
        ensures
            final(self)@.halted,
            forall|n: nat| #[trigger]
                run_steps(old(self)@, n).halted ==> run_steps(old(self)@, n) == final(self)@,
            flags_follow(old(self)@) ==> flags_follow(final(self)@),
    {
        let ghost m0 = self@;
        let ghost n0: nat = choose|n: nat| #[trigger]
            run_steps(m0, n).halted;
        let ghost mut fuel: nat = n0;
        while !self.should_stop
            invariant
                run_steps(m0, n0).halted,
                run_steps(self@, fuel) == run_steps(m0, n0),
            decreases fuel,
        {
            self.step();
            proof {
                fuel = (fuel - 1) as nat;
            }
        }
        proof {
            assert forall|n: nat| #[trigger]
                run_steps(m0, n).halted implies run_steps(m0, n) == self@ by {
                lemma_halted_unique(m0, n, n0);
            }
            if flags_follow(m0) {
                lemma_flags_follow_run(m0, n0);
            }
        }
    }
}

impl Default for Interpreter {
    fn default() -> (r: Self)
        ensures
            r@ == (Machine {
                acc: 0,
                zero: true,
                negative: false,
                mem: Seq::new(256, |i: int| 0u8),
                pc: 0,
                halted: false,
            }),
    {
        Self::new()
    }
}

} // verus!
