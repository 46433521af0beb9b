//! The calculator's code generator: a `setup` section with one constant per number of the
//! expression, and a `text` section that computes the expression into the accumulator,
//! keeping right operands in the pseudo-registers, and halts.
use vstd::prelude::*;
use vstd::std_specs::hash::{axiom_spec_values_iter, into_iter_values, spec_values_iter};
use vstd::std_specs::iter::IteratorSpec;
use std::collections::HashMap;
use crate::calc::parser::AST;
use crate::text::{decimal, push_decimal, push_str};

verus! {

broadcast use vstd::std_specs::hash::group_hash_axioms;

/// A constant of the generated program: its name and its value.
pub struct Symbol {
    pub name: String,
    pub value: u8,
}

/// The code generator: the text generated so far and the constants, by value.
pub struct CodegenCalc {
    pub code: String,
    pub symbols: HashMap<u8, Symbol>,
}

/// The name of the constant that holds `n`.
pub open spec fn const_name(n: u8) -> Seq<char> {
    "CONST"@ + decimal(n as nat)
}

/// The numbers of an expression.
pub open spec fn leaves(t: AST) -> Set<u8>
    decreases t,
{
    match t {
        AST::Number(n) => set![n],
        AST::Add(l, r) => leaves(*l).union(leaves(*r)),
        AST::Sub(l, r) => leaves(*l).union(leaves(*r)),
    }
}

/// The pseudo-register that holds a right operand while the left one is computed, by how
/// deeply such operands nest: `t0` up to `t3` (`t4` holds each operation's result). Past
/// them the name is `t5`, which the assembler reports as undeclared.
pub open spec fn temp_name(d: nat) -> Seq<char> {
    if d < 4 {
        "t"@ + decimal(d)
    } else {
        "t5"@
    }
}

/// The register depth for the left operand once `t{d}` holds the right one.
pub open spec fn next_depth(d: nat) -> nat {
    if d < 4 {
        (d + 1) as nat
    } else {
        4
    }
}

/// The line that stores an operation's result into `t4`.
pub open spec fn store_result() -> Seq<char> {
    line("\tsta "@, "t4"@)
}

/// One instruction line: the mnemonic with its tab and trailing space, then the operand.
pub open spec fn line(op: Seq<char>, x: Seq<char>) -> Seq<char> {
    op + x + "\n"@
}

/// The instructions that leave the value of an expression in the accumulator, using the
/// pseudo-registers from `t{d}` on to hold right operands: a number is loaded; an
/// operation on a number computes its left operand and adds or subtracts the number's
/// constant; an operation on a compound right operand computes it first, stores it in
/// `t{d}`, computes the left operand one register further on, and adds or subtracts
/// `t{d}`. Every operation then stores its result into `t4`.
pub open spec fn instructions(t: AST, d: nat) -> Seq<char>
    decreases t,
{
    match t {
        AST::Number(n) => line("\tlda "@, const_name(n)),
        AST::Add(l, r) => match *r {
            AST::Number(m) => instructions(*l, d) + line("\tadd "@, const_name(m)) + store_result(),
            _ => instructions(*r, d) + line("\tsta "@, temp_name(d)) + instructions(
                *l,
                next_depth(d),
            ) + line("\tadd "@, temp_name(d)) + store_result(),
        },
        AST::Sub(l, r) => match *r {
            AST::Number(m) => instructions(*l, d) + line("\tsub "@, const_name(m)) + store_result(),
            _ => instructions(*r, d) + line("\tsta "@, temp_name(d)) + instructions(
                *l,
                next_depth(d),
            ) + line("\tsub "@, temp_name(d)) + store_result(),
        },
    }
}

/// The declaration line of a constant.
pub open spec fn data_line(s: Symbol) -> Seq<char> {
    "\t"@ + s.name@ + " DATA "@ + decimal(s.value as nat) + "\n"@
}

/// The declaration lines of constants, in order.
pub open spec fn data_lines(ss: Seq<Symbol>) -> Seq<char>
    decreases ss.len(),
{
    if ss.len() == 0 {
        Seq::empty()
    } else {
        data_lines(ss.drop_last()) + data_line(ss.last())
    }
}

/// The constants of a map in the order the map hands them out.
pub open spec fn symbol_order(m: &HashMap<u8, Symbol>) -> Seq<Symbol> {
    into_iter_values(spec_values_iter(m))
}

/// The `setup` section for the constants in the map's order.
pub open spec fn setup_section(m: &HashMap<u8, Symbol>) -> Seq<char> {
    "setup\n"@ + data_lines(symbol_order(m)) + "end\n"@
}

/// The `text` section of an expression.
pub open spec fn text_section(t: AST) -> Seq<char> {
    "text\n"@ + instructions(t, 0) + "\thlt\n"@ + "end\n"@
}

impl CodegenCalc {
    /// A generator with no code and no constants.
    pub fn new() -> (r: Self)
        ensures
            r.code@ == Seq::<char>::empty(),
            r.symbols@ == Map::<u8, Symbol>::empty(),
    {
        CodegenCalc { code: String::new(), symbols: HashMap::new() }
    }

    fn generate_symbols(&mut self, tree: &AST)
        ensures
            final(self).code == old(self).code,
            final(self).symbols@.dom() == old(self).symbols@.dom().union(leaves(*tree)),
            forall|k: u8| #[trigger]
                old(self).symbols@.contains_key(k) ==> final(self).symbols@[k] == old(self).symbols@[k],
            forall|k: u8| #[trigger]
                leaves(*tree).contains(k) && !old(self).symbols@.contains_key(k) ==> final(self).symbols@[k].name@ == const_name(k) && final(self).symbols@[k].value == k,
        decreases tree,
    {
        match tree {
            AST::Number(num) => {
                if !self.symbols.contains_key(num) {
                    let mut name = String::new();
                    push_str(&mut name, "CONST");
                    push_decimal(&mut name, *num as usize);
                    assert(name@ =~= const_name(*num));
                    let symbol = Symbol { name, value: *num };
                    self.symbols.insert(*num, symbol);
                }
                assert(final(self).symbols@.dom() =~= old(self).symbols@.dom().union(leaves(*tree)));
            },
            AST::Add(left, right) => {
                self.generate_symbols(left);
                let ghost mid = self.symbols@;
                self.generate_symbols(right);
                assert(final(self).symbols@.dom() =~= old(self).symbols@.dom().union(leaves(*tree)));
                assert forall|k: u8| #[trigger]
                    leaves(*tree).contains(k) && !old(self).symbols@.contains_key(k) implies final(
                    self).symbols@[k].name@ == const_name(k) && final(self).symbols@[k].value == k by {
                    if mid.contains_key(k) {
                        assert(final(self).symbols@[k] == mid[k]);
                    }
                }
                assert forall|k: u8| #[trigger]
                    old(self).symbols@.contains_key(k) implies final(self).symbols@[k] == old(
                    self).symbols@[k] by {
                    assert(mid.contains_key(k));
                }
            },
            AST::Sub(left, right) => {
                self.generate_symbols(left);
                let ghost mid = self.symbols@;
                self.generate_symbols(right);
                assert(final(self).symbols@.dom() =~= old(self).symbols@.dom().union(leaves(*tree)));
                assert forall|k: u8| #[trigger]
                    leaves(*tree).contains(k) && !old(self).symbols@.contains_key(k) implies final(
                    self).symbols@[k].name@ == const_name(k) && final(self).symbols@[k].value == k by {
                    if mid.contains_key(k) {
                        assert(final(self).symbols@[k] == mid[k]);
                    }
                }
                assert forall|k: u8| #[trigger]
                    old(self).symbols@.contains_key(k) implies final(self).symbols@[k] == old(
                    self).symbols@[k] by {
                    assert(mid.contains_key(k));
                }
            },
        }
    }

    fn emit_setup(&mut self, tree: &AST)
        ensures
            final(self).symbols@.dom() == old(self).symbols@.dom().union(leaves(*tree)),
            forall|k: u8| #[trigger]
                old(self).symbols@.contains_key(k) ==> final(self).symbols@[k] == old(self).symbols@[k],
            forall|k: u8| #[trigger]
                leaves(*tree).contains(k) && !old(self).symbols@.contains_key(k) ==> final(self).symbols@[k].name@ == const_name(k) && final(self).symbols@[k].value == k,
            final(self).code@ == old(self).code@ + setup_section(&final(self).symbols),
            symbol_order(&final(self).symbols).len() == final(self).symbols@.dom().len(),
            symbol_order(&final(self).symbols).to_set() == final(self).symbols@.values(),
    {
        push_str(&mut self.code, "setup\n");
        self.generate_symbols(tree);
        let ghost base = self.code@;
        let ghost syms = self.symbols;
        let values = self.symbols.values();
        proof {
            axiom_spec_values_iter(&self.symbols);
        }
        for symbol in it: values
            invariant
                self.symbols == syms,
                self.code@ == base + data_lines(it.seq().unref().take(it.index() as int)),
                it.seq().unref() == symbol_order(&self.symbols),
                it.index() == it.seq().len() ==> self.code@ == base + data_lines(
                    symbol_order(&syms),
                ),
        {
            let ghost before = it.seq().unref().take(it.index() as int);
            push_str(&mut self.code, "\t");
            push_str(&mut self.code, symbol.name.as_str());
            push_str(&mut self.code, " DATA ");
            push_decimal(&mut self.code, symbol.value as usize);
            push_str(&mut self.code, "\n");
            assert(it.seq().unref().take(it.index() + 1).drop_last() =~= before);
            assert(it.seq().unref().take(it.seq().len() as int) =~= it.seq().unref());
        }
        push_str(&mut self.code, "end\n");
        assert(self.code@ =~= old(self).code@ + setup_section(&self.symbols));
    }

    fn emit_line(&mut self, op: &str, x: &str)
        ensures
            final(self).symbols == old(self).symbols,
            final(self).code@ == old(self).code@ + line(op@, x@),
    {
        push_str(&mut self.code, op);
        push_str(&mut self.code, x);
        push_str(&mut self.code, "\n");
        assert(self.code@ =~= old(self).code@ + line(op@, x@));
    }

    fn temp(depth: usize) -> (r: String)
        requires
            depth <= 4,
        ensures
            r@ == temp_name(depth as nat),
    {
        let mut s = String::new();
        if depth < 4 {
            push_str(&mut s, "t");
            push_decimal(&mut s, depth);
        } else {
            push_str(&mut s, "t5");
        }
        s
    }

    fn constant(num: u8) -> (r: String)
        ensures
            r@ == const_name(num),
    {
        let mut s = String::new();
        push_str(&mut s, "CONST");
        push_decimal(&mut s, num as usize);
        s
    }

    fn generate_instructions(&mut self, tree: &AST, depth: usize)
        requires
            depth <= 4,
        ensures
            final(self).symbols == old(self).symbols,
            final(self).code@ == old(self).code@ + instructions(*tree, depth as nat),
        decreases tree,
    {
        let (op, left, right) = match tree {
            AST::Number(num) => {
                let c = Self::constant(*num);
                self.emit_line("\tlda ", c.as_str());
                return ;
            },
            AST::Add(left, right) => ("\tadd ", left, right),
            AST::Sub(left, right) => ("\tsub ", left, right),
        };
        proof {
            reveal_strlit("\tadd ");
            reveal_strlit("\tsub ");
        }
        match &**right {
            AST::Number(m) => {
                self.generate_instructions(left, depth);
                let c = Self::constant(*m);
                self.emit_line(op, c.as_str());
            },
            _ => {
                self.generate_instructions(right, depth);
                let t = Self::temp(depth);
                self.emit_line("\tsta ", t.as_str());
                let next = if depth < 4 {
                    depth + 1
                } else {
                    4
                };
                self.generate_instructions(left, next);
                self.emit_line(op, t.as_str());
            },
        }
        self.emit_line("\tsta ", "t4");
        assert(self.code@ =~= old(self).code@ + instructions(*tree, depth as nat));
    }

    fn emit_text(&mut self, tree: &AST)
        ensures
            final(self).symbols == old(self).symbols,
            final(self).code@ == old(self).code@ + text_section(*tree),
    {
        push_str(&mut self.code, "text\n");
        self.generate_instructions(tree, 0);
        push_str(&mut self.code, "\thlt\n");
        push_str(&mut self.code, "end\n");
        assert(final(self).code@ =~= old(self).code@ + text_section(*tree));
    }

    /// Appends the program for `tree`: the `setup` section with a constant for each number
    /// of the expression that has none yet, in the order the map hands the constants out,
    /// then the `text` section.
    pub fn generate_code(&mut self, tree: &AST)
        ensures
            final(self).symbols@.dom() == old(self).symbols@.dom().union(leaves(*tree)),
            forall|k: u8| #[trigger]
                old(self).symbols@.contains_key(k) ==> final(self).symbols@[k] == old(self).symbols@[k],
            forall|k: u8| #[trigger]
                leaves(*tree).contains(k) && !old(self).symbols@.contains_key(k) ==> final(self).symbols@[k].name@ == const_name(k) && final(self).symbols@[k].value == k,
            final(self).code@ == old(self).code@ + setup_section(&final(self).symbols)
                + text_section(*tree),
            symbol_order(&final(self).symbols).len() == final(self).symbols@.dom().len(),
            symbol_order(&final(self).symbols).to_set() == final(self).symbols@.values(),
    {
        self.emit_setup(tree);
        self.emit_text(tree);
    }
}

impl Default for CodegenCalc {
    fn default() -> (r: Self)
        ensures
            r.code@ == Seq::<char>::empty(),
            r.symbols@ == Map::<u8, Symbol>::empty(),
    {
        Self::new()
    }
}

} // verus!
