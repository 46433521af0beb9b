//! What the expression parser reads: the text of every expression tree back as that
//! tree, with additions and subtractions grouped from the left.
use vstd::prelude::*;
use vstd::string::*;
use crate::calc::lexer::{digits_end, skip_blanks, spec_next_token, CalcPos, Token, TokenType};
use crate::calc::parser::{measure, spec_advance, CalcErrView, spec_expr_rest, spec_parse_expr, spec_parse_factor, CState, AST};
use crate::pipeline::{calc_start, value};
use crate::reading::{holds, lemma_holds_split};
use crate::text::{decimal, lemma_decimal_len, lemma_parse_decimal, spec_is_ascii_digit};

verus! {

broadcast use vstd::string::group_string_axioms;

/// The lexer at index `i`, with the column that a single line gives it.
pub open spec fn cp(i: int) -> CalcPos {
    CalcPos { pos: i, col: i + 1 }
}

proof fn lemma_digits_run(s: Seq<char>, i: int, e: int)
    requires
        0 <= i <= e <= s.len(),
        forall|j: int| i <= j < e ==> spec_is_ascii_digit(#[trigger] s[j]),
        e == s.len() || !spec_is_ascii_digit(s[e]),
    ensures
        digits_end(s, i) == e,
    decreases e - i,
{
    if i < e {
        lemma_digits_run(s, i + 1, e);
    }
}

/// A number that starts at `i` and ends at the end of the text or before a space.
proof fn lemma_number_token(s: Seq<char>, i: int, n: u8)
    requires
        0 <= i,
        i + decimal(n as nat).len() <= s.len(),
        s.subrange(i, i + decimal(n as nat).len()) == decimal(n as nat),
        i + decimal(n as nat).len() == s.len() || !spec_is_ascii_digit(s[i + decimal(n as nat).len()]),
    ensures
        spec_next_token(s, cp(i)) == (
            Some(Ok::<Token, Seq<char>>(Token { kind: TokenType::Number(n), pos: (i + 1) as usize })),
            cp(i + decimal(n as nat).len()),
        ),
{
    let d = decimal(n as nat);
    let e = i + d.len();
    lemma_decimal_len(n as nat);
    lemma_parse_decimal(n);
    assert forall|j: int| i <= j < e implies spec_is_ascii_digit(#[trigger] s[j]) by {
        assert(s.subrange(i, e)[j - i] == s[j]);
    }
    assert(s[i] == d[0]) by {
        assert(s.subrange(i, e)[0] == s[i]);
    }
    assert(skip_blanks(s, cp(i)) == cp(i));
    lemma_digits_run(s, i, e);
}

proof fn lemma_blank_number_token(s: Seq<char>, i: int, n: u8)
    requires
        0 <= i,
        i + 1 + decimal(n as nat).len() <= s.len(),
        s[i] == ' ',
        s.subrange(i + 1, i + 1 + decimal(n as nat).len()) == decimal(n as nat),
        i + 1 + decimal(n as nat).len() == s.len() || !spec_is_ascii_digit(
            s[i + 1 + decimal(n as nat).len()],
        ),
    ensures
        spec_next_token(s, cp(i)) == (
            Some(Ok::<Token, Seq<char>>(Token { kind: TokenType::Number(n), pos: (i + 2) as usize })),
            cp(i + 1 + decimal(n as nat).len()),
        ),
{
    let d = decimal(n as nat);
    lemma_number_token(s, i + 1, n);
    lemma_decimal_len(n as nat);
    lemma_parse_decimal(n);
    assert(s[i + 1] == d[0]) by {
        assert(s.subrange(i + 1, i + 1 + d.len())[0] == s[i + 1]);
    }
    assert(spec_is_ascii_digit(d[0]));
    assert(skip_blanks(s, cp(i + 1)) == cp(i + 1));
    assert(skip_blanks(s, cp(i)) == cp(i + 1));
}

proof fn lemma_op_token(s: Seq<char>, i: int, plus: bool)
    requires
        0 <= i,
        i + 1 < s.len(),
        s[i] == ' ',
        s[i + 1] == (if plus { '+' } else { '-' }),
    ensures
        spec_next_token(s, cp(i)) == (
            Some(Ok::<Token, Seq<char>>(Token {
                kind: if plus { TokenType::Plus } else { TokenType::Minus },
                pos: (i + 3) as usize,
            })),
            cp(i + 2),
        ),
{
    assert(skip_blanks(s, cp(i + 1)) == cp(i + 1));
    assert(skip_blanks(s, cp(i)) == cp(i + 1));
}

/// The text of an operation's right operand: a number as it is, an operation in
/// parentheses around its text `inner`.
pub open spec fn operand_text(r: AST, inner: Seq<char>) -> Seq<char> {
    match r {
        AST::Number(m) => decimal(m as nat),
        _ => seq!['('] + inner + seq![')'],
    }
}

/// The operator of an operation between single spaces.
pub open spec fn op_text(plus: bool) -> Seq<char> {
    seq![' ', if plus { '+' } else { '-' }, ' ']
}

/// The text of an expression: numbers in decimal, each operator between single spaces,
/// and a right operand that is itself an operation in parentheses. Left operands need no
/// parentheses, as operations group from the left.
pub open spec fn expr_text(t: AST) -> Seq<char>
    decreases t,
{
    match t {
        AST::Number(n) => decimal(n as nat),
        AST::Add(l, r) => expr_text(*l) + op_text(true) + operand_text(*r, expr_text(*r)),
        AST::Sub(l, r) => expr_text(*l) + op_text(false) + operand_text(*r, expr_text(*r)),
    }
}

/// Where the parser stands looking at the token that starts at `j`.
pub open spec fn look(s: Seq<char>, j: int) -> CState {
    let (o, p) = spec_next_token(s, cp(j));
    CState {
        lex: p,
        la: match o {
            Some(Ok(t)) => Some(t),
            _ => None,
        },
    }
}

/// What may follow an expression: the end, a closing parenthesis, or another operator.
pub open spec fn follows_expr(s: Seq<char>, j: int) -> bool {
    ||| j == s.len()
    ||| 0 <= j < s.len() && s[j] == ')'
    ||| 0 <= j && j + 1 < s.len() && s[j] == ' ' && (s[j + 1] == '+' || s[j + 1] == '-')
}

/// The token after an expression.
proof fn lemma_follower(s: Seq<char>, j: int)
    requires
        follows_expr(s, j),
    ensures
        spec_next_token(s, cp(j)).0 matches Some(r) ==> r is Ok,
        j == s.len() ==> look(s, j) == (CState { lex: cp(j), la: None }),
        j < s.len() && s[j] == ')' ==> look(s, j) == (CState {
            lex: cp(j + 1),
            la: Some(Token { kind: TokenType::RParen, pos: (j + 2) as usize }),
        }),
        j < s.len() && s[j] == ' ' ==> j + 1 < s.len() && (s[j + 1] == '+' || s[j + 1] == '-')
            && look(s, j) == (CState {
            lex: cp(j + 2),
            la: Some(
                Token {
                    kind: if s[j + 1] == '+' { TokenType::Plus } else { TokenType::Minus },
                    pos: (j + 3) as usize,
                },
            ),
        }),
{
    if j == s.len() {
        assert(skip_blanks(s, cp(j)) == cp(j));
    } else if s[j] == ')' {
        assert(skip_blanks(s, cp(j)) == cp(j));
    } else {
        lemma_op_token(s, j, s[j + 1] == '+');
    }
}

/// An expression's text starts with a digit.
proof fn lemma_text_starts(t: AST)
    ensures
        expr_text(t).len() > 0,
        spec_is_ascii_digit(expr_text(t)[0]),
    decreases t,
{
    match t {
        AST::Number(n) => {
            lemma_decimal_len(n as nat);
            lemma_parse_decimal(n);
            assert(spec_is_ascii_digit(decimal(n as nat)[0]));
        },
        AST::Add(l, r) => {
            lemma_text_starts(*l);
            assert(expr_text(t)[0] == expr_text(*l)[0]);
        },
        AST::Sub(l, r) => {
            lemma_text_starts(*l);
            assert(expr_text(t)[0] == expr_text(*l)[0]);
        },
    }
}

/// Reading an expression whose text stands at `i` and is followed by what may follow
/// one comes to the loop over its operators, looking at the token after the text, with
/// the whole expression as the left operand.
proof fn lemma_expr_at(s: Seq<char>, i: int, t: AST)
    requires
        holds(s, i, expr_text(t)),
        follows_expr(s, i + expr_text(t).len()),
    ensures
        spec_next_token(s, cp(i)).0 matches Some(r) && r is Ok,
        look(s, i).la is Some,
        i < look(s, i).lex.pos <= i + expr_text(t).len(),
        spec_parse_expr(s, look(s, i)) == spec_expr_rest(s, look(s, i + expr_text(t).len()), t),
    decreases t,
{
    lemma_text_starts(t);
    let j = i + expr_text(t).len();
    match t {
        AST::Number(n) => {
            lemma_number_token(s, i, n);
            lemma_follower(s, j);
            let st = look(s, i);
            assert(spec_advance(s, st) == (Ok::<(), CalcErrView>(()), look(s, j)));
        },
        AST::Add(l, r) => {
            lemma_op_at(s, i, *l, *r, true);
        },
        AST::Sub(l, r) => {
            lemma_op_at(s, i, *l, *r, false);
        },
    }
}

/// The operation with operator `plus` (`+` where set, `-` otherwise).
pub open spec fn operation(plus: bool, l: AST, r: AST) -> AST {
    if plus {
        AST::Add(Box::new(l), Box::new(r))
    } else {
        AST::Sub(Box::new(l), Box::new(r))
    }
}

/// One turn of the loop over operators: the operator, then a factor.
proof fn lemma_rest_step(s: Seq<char>, st: CState, st1: CState, st2: CState, l: AST, r: AST, plus: bool)
    requires
        st.la matches Some(tok) && tok.kind == (if plus { TokenType::Plus } else { TokenType::Minus }),
        spec_advance(s, st) == (Ok::<(), CalcErrView>(()), st1),
        measure(s, st1) < measure(s, st),
        spec_parse_factor(s, st1) == (Ok::<AST, CalcErrView>(r), st2),
        measure(s, st2) < measure(s, st),
    ensures
        spec_expr_rest(s, st, l) == spec_expr_rest(s, st2, operation(plus, l, r)),
{
}

#[verifier::rlimit(30)]
proof fn lemma_op_at(s: Seq<char>, i: int, l: AST, r: AST, plus: bool)
    requires
        holds(s, i, expr_text(operation(plus, l, r))),
        follows_expr(s, i + expr_text(operation(plus, l, r)).len()),
    ensures
        spec_next_token(s, cp(i)).0 matches Some(x) && x is Ok,
        look(s, i).la is Some,
        i < look(s, i).lex.pos <= i + expr_text(operation(plus, l, r)).len(),
        spec_parse_expr(s, look(s, i)) == spec_expr_rest(
            s,
            look(s, i + expr_text(operation(plus, l, r)).len()),
            operation(plus, l, r),
        ),
    decreases operation(plus, l, r), 0nat,
{
    let t = operation(plus, l, r);
    let tl = expr_text(l);
    let tr = expr_text(r);
    let ot = op_text(plus);
    let w = operand_text(r, tr);
    assert(expr_text(t) == tl + ot + w);
    let j = i + expr_text(t).len();
    let jl = i + tl.len();
    lemma_holds_split(s, i, tl + ot, w);
    lemma_holds_split(s, i, tl, ot);
    assert(s[jl] == ' ' && s[jl + 1] == (if plus { '+' } else { '-' }) && s[jl + 2] == ' ') by {
        assert(s.subrange(jl, jl + 3)[0] == s[jl]);
        assert(s.subrange(jl, jl + 3)[1] == s[jl + 1]);
        assert(s.subrange(jl, jl + 3)[2] == s[jl + 2]);
    }
    lemma_text_starts(r);
    lemma_expr_at(s, i, l);
    lemma_follower(s, jl);
    let st = look(s, jl);
    // the operator, then the right operand
    match r {
        AST::Number(m) => {
            lemma_decimal_len(m as nat);
            lemma_blank_number_token(s, jl + 2, m);
            lemma_follower(s, j);
            let st1 = CState {
                lex: cp(j),
                la: Some(Token { kind: TokenType::Number(m), pos: (jl + 4) as usize }),
            };
            assert(spec_advance(s, st) == (Ok::<(), CalcErrView>(()), st1));
            assert(spec_advance(s, st1) == (Ok::<(), CalcErrView>(()), look(s, j)));
            assert(spec_parse_factor(s, st1) == (Ok::<AST, CalcErrView>(AST::Number(m)), look(s, j)));
            lemma_rest_step(s, st, st1, look(s, j), l, r, plus);
        },
        _ => {
            let ir = jl + 4;
            let jr = ir + tr.len();
            assert(w == seq!['('] + tr + seq![')']);
            lemma_holds_split(s, jl + 3, seq!['('] + tr, seq![')']);
            lemma_holds_split(s, jl + 3, seq!['('], tr);
            assert(s[jl + 3] == '(') by {
                assert(s.subrange(jl + 3, jl + 4)[0] == s[jl + 3]);
            }
            assert(s[jr] == ')') by {
                assert(s.subrange(jr, jr + 1)[0] == s[jr]);
            }
            assert(skip_blanks(s, cp(jl + 3)) == cp(jl + 3));
            assert(skip_blanks(s, cp(jl + 2)) == cp(jl + 3));
            let st1 = CState {
                lex: cp(ir),
                la: Some(Token { kind: TokenType::LParen, pos: (jl + 5) as usize }),
            };
            assert(spec_advance(s, st) == (Ok::<(), CalcErrView>(()), st1));
            lemma_expr_at(s, ir, r);
            assert(spec_advance(s, st1) == (Ok::<(), CalcErrView>(()), look(s, ir)));
            lemma_follower(s, jr);
            lemma_follower(s, j);
            assert(spec_expr_rest(s, look(s, jr), r) == (Ok::<AST, CalcErrView>(r), look(s, jr)));
            assert(spec_advance(s, look(s, jr)) == (Ok::<(), CalcErrView>(()), look(s, j)));
            assert(spec_parse_factor(s, st1) == (Ok::<AST, CalcErrView>(r), look(s, j)));
            lemma_rest_step(s, st, st1, look(s, j), l, r, plus);
        },
    }
}

/// The parser reads back the text of every expression: `expr_text(t)` parses as `t`.
/// Numbers are read in decimal, `+` and `-` as additions and subtractions grouped from
/// the left, and parentheses around a right operand as that operand.
pub proof fn lemma_parse_reads_back(t: AST)
    ensures
        calc_start(expr_text(t)) matches Ok(st) && spec_parse_expr(expr_text(t), st).0 == Ok::<
            AST,
            CalcErrView,
        >(t),
{
    let s = expr_text(t);
    assert(s.subrange(0, s.len() as int) =~= s);
    lemma_expr_at(s, 0, t);
    lemma_follower(s, s.len() as int);
    assert(calc_start(s) == Ok::<CState, Seq<char>>(look(s, 0)));
}

/// The text `n0 op1 n1 op2 n2 ...`: the first number, then each term as a space, its
/// operator (`+` where the flag is set, `-` otherwise), a space and its number.
pub open spec fn chain_text(n0: u8, terms: Seq<(bool, u8)>) -> Seq<char>
    decreases terms.len(),
{
    if terms.len() == 0 {
        decimal(n0 as nat)
    } else {
        chain_text(n0, terms.drop_last()) + term_text(terms.last())
    }
}

/// The text of one term: a space, the operator, a space and the number.
pub open spec fn term_text(t: (bool, u8)) -> Seq<char> {
    seq![' ', if t.0 { '+' } else { '-' }, ' '] + decimal(t.1 as nat)
}

/// The first number plus the numbers of the `+` terms minus those of the `-` terms.
pub open spec fn chain_sum(n0: u8, terms: Seq<(bool, u8)>) -> int
    decreases terms.len(),
{
    if terms.len() == 0 {
        n0 as int
    } else {
        chain_sum(n0, terms.drop_last()) + if terms.last().0 {
            terms.last().1 as int
        } else {
            -(terms.last().1 as int)
        }
    }
}

/// The tree that groups the terms from the left: each operation takes everything before
/// it as its left operand and its own number as its right operand.
pub open spec fn left_grouped(n0: u8, terms: Seq<(bool, u8)>) -> AST
    decreases terms.len(),
{
    if terms.len() == 0 {
        AST::Number(n0)
    } else if terms.last().0 {
        AST::Add(
            Box::new(left_grouped(n0, terms.drop_last())),
            Box::new(AST::Number(terms.last().1)),
        )
    } else {
        AST::Sub(
            Box::new(left_grouped(n0, terms.drop_last())),
            Box::new(AST::Number(terms.last().1)),
        )
    }
}

/// A run of additions and subtractions of numbers is grouped from the left: the text
/// `n0 op1 n1 ... opk nk` parses as `(...((n0 op1 n1) op2 n2) ...) opk nk`, whose value is
/// `n0` plus the numbers after `+` minus the numbers after `-`. So `1 - 2 - 3` is
/// `(1 - 2) - 3`, worth `-4`.
pub proof fn lemma_left_grouping(n0: u8, terms: Seq<(bool, u8)>)
    ensures
        calc_start(chain_text(n0, terms)) matches Ok(st) && spec_parse_expr(chain_text(n0, terms), st).0
            == Ok::<AST, crate::calc::parser::CalcErrView>(left_grouped(n0, terms)),
        value(left_grouped(n0, terms)) == chain_sum(n0, terms),
{
    lemma_chain_text(n0, terms);
    lemma_parse_reads_back(left_grouped(n0, terms));
    lemma_grouped_value(n0, terms);
}

/// The text of a run of terms is the text of its left-grouped tree.
proof fn lemma_chain_text(n0: u8, terms: Seq<(bool, u8)>)
    ensures
        chain_text(n0, terms) == expr_text(left_grouped(n0, terms)),
    decreases terms.len(),
{
    if terms.len() > 0 {
        let rest = terms.drop_last();
        let t = terms.last();
        lemma_chain_text(n0, rest);
        let l = left_grouped(n0, rest);
        let r = AST::Number(t.1);
        assert(operand_text(r, expr_text(r)) == decimal(t.1 as nat));
        assert(expr_text(left_grouped(n0, terms)) == expr_text(l) + op_text(t.0) + decimal(
            t.1 as nat,
        ));
        assert(term_text(t) =~= op_text(t.0) + decimal(t.1 as nat));
        assert(chain_text(n0, terms) =~= expr_text(l) + op_text(t.0) + decimal(t.1 as nat));
    }
}

proof fn lemma_grouped_value(n0: u8, terms: Seq<(bool, u8)>)
    ensures
        value(left_grouped(n0, terms)) == chain_sum(n0, terms),
    decreases terms.len(),
{
    if terms.len() > 0 {
        lemma_grouped_value(n0, terms.drop_last());
        let l = left_grouped(n0, terms.drop_last());
        let r = AST::Number(terms.last().1);
        assert(value(r) == terms.last().1 as int);
        if terms.last().0 {
            assert(value(AST::Add(Box::new(l), Box::new(r))) == value(l) + value(r));
        } else {
            assert(value(AST::Sub(Box::new(l), Box::new(r))) == value(l) - value(r));
        }
    }
}

} // verus!
