use neander_compiler_stack::calc::lexer::{Lexer, TokenType};

#[test]
fn test_lexer() {
    let mut lexer = Lexer::new("213 + 13");
    let t = lexer.next_token().unwrap().unwrap();

    assert_eq!(t.kind, TokenType::Number(213));

    let t = lexer.next_token().unwrap().unwrap();
    assert_eq!(t.kind, TokenType::Plus);

    let t = lexer.next_token().unwrap().unwrap();
    assert_eq!(t.kind, TokenType::Number(13));
}

use neander_compiler_stack::calc::codegen::CodegenCalc;
use neander_compiler_stack::calc::parser::{CalcError, CalcParser, AST};

#[test]
fn lexer_minus_and_columns() {
    let mut lexer = Lexer::new(" 7-  12");
    let t = lexer.next_token().unwrap().unwrap();
    assert_eq!((t.kind, t.pos), (TokenType::Number(7), 2));
    let t = lexer.next_token().unwrap().unwrap();
    assert_eq!((t.kind, t.pos), (TokenType::Minus, 4));
    let t = lexer.next_token().unwrap().unwrap();
    assert_eq!((t.kind, t.pos), (TokenType::Number(12), 6));
    assert!(lexer.next_token().is_none());
}

#[test]
fn calc_lexer_errors() {
    let mut lexer = Lexer::new("1000");
    let e = lexer.next_token().unwrap().err().unwrap();
    assert_eq!(e.error, "Number '1000' out of bounds at 1. Expected u8 number (0-255).");
    let mut lexer = Lexer::new("1 * 2");
    lexer.next_token();
    let e = lexer.next_token().unwrap().err().unwrap();
    assert_eq!(e.to_string(), "Lexical Error: Unexpected token at 3.");
}

fn parse(src: &str) -> Result<AST, CalcError> {
    let mut p = CalcParser::new(Lexer::new(src)).ok().unwrap();
    p.parse_expr()
}

#[test]
fn parser_groups_from_the_left() {
    let t = parse("1 + 2 - 3").ok().unwrap();
    assert_eq!(t.render(0), "        1\n    +\n        2\n-\n    3\n");
    match t {
        AST::Sub(l, r) => {
            assert!(matches!(*r, AST::Number(3)));
            assert!(matches!(*l, AST::Add(_, _)));
        }
        _ => panic!("expected a subtraction"),
    }
}

#[test]
fn calc_parser_errors() {
    let e = parse("+ 1").err().unwrap();
    assert_eq!(e.to_string(), "Parser Error: Unexpected token: Plus. Was expecting a number");
    let e = parse("1 -").err().unwrap();
    assert_eq!(e.to_string(), "Parser Error: Was expecting number");
    let e = parse("1 + $").err().unwrap();
    assert_eq!(e.to_string(), "Lexical Error: Unexpected token at 5.");
    assert!(CalcParser::new(Lexer::new("?")).is_err());
}

#[test]
fn codegen_single_number() {
    let t = parse("5").ok().unwrap();
    let mut g = CodegenCalc::new();
    g.generate_code(&t);
    assert_eq!(g.code, "setup\n\tCONST5 DATA 5\nend\ntext\n\tlda CONST5\n\thlt\nend\n");
}

#[test]
fn codegen_sum() {
    let t = parse("2 + 3 + 2").ok().unwrap();
    let mut g = CodegenCalc::new();
    g.generate_code(&t);
    let text = "text\n\tlda CONST2\n\tadd CONST3\n\tsta t4\n\tadd CONST2\n\tsta t4\n\thlt\nend\n";
    assert!(g.code.ends_with(text));
    let setup = &g.code[..g.code.len() - text.len()];
    assert!(setup == "setup\n\tCONST2 DATA 2\n\tCONST3 DATA 3\nend\n" || setup == "setup\n\tCONST3 DATA 3\n\tCONST2 DATA 2\nend\n");
    assert_eq!(g.symbols.len(), 2);
    assert_eq!(g.symbols[&3].name, "CONST3");
}

#[test]
fn parser_takes_parentheses() {
    let t = parse("2 + (3 + 4)").ok().unwrap();
    match t {
        AST::Add(l, r) => {
            assert!(matches!(*l, AST::Number(2)));
            match *r {
                AST::Add(a, b) => {
                    assert!(matches!(*a, AST::Number(3)));
                    assert!(matches!(*b, AST::Number(4)));
                }
                _ => panic!("expected a sum on the right"),
            }
        }
        _ => panic!("expected a sum"),
    }
    assert!(parse("(1 + 2").is_err());
    match parse("(1 + 2 3") {
        Err(e) => assert_eq!(e.to_string(), "Parser Error: Unexpected token: Number(3). Was expecting ')'"),
        _ => panic!("expected an error"),
    }
}

#[test]
fn codegen_repeated_constant_is_declared_once() {
    let t = parse("2 + 2").ok().unwrap();
    let mut g = CodegenCalc::new();
    g.generate_code(&t);
    assert_eq!(g.code, "setup\n\tCONST2 DATA 2\nend\ntext\n\tlda CONST2\n\tadd CONST2\n\tsta t4\n\thlt\nend\n");
    assert_eq!(g.symbols.len(), 1);
    assert_eq!(g.symbols[&2].name, "CONST2");
}
