use neander_compiler_stack::interpreter::Interpreter;
use neander_compiler_stack::pipeline::{assemble_expression, command_of, compile_expression, repl_command, ExpressionError, ReplCommand};

fn evaluate(expr: &str) -> u8 {
    let bin = assemble_expression(expr).unwrap().ok().unwrap();
    let mut m = Interpreter::new().load_neander_file(&bin).ok().unwrap();
    m.run();
    m.acc
}

#[test]
fn expression_runs_to_its_value() {
    assert_eq!(evaluate("213 + 13"), 226);
    assert_eq!(evaluate("2 + 3"), 5);
    assert_eq!(evaluate("1 + 2 + 3 + 4"), 10);
    assert_eq!(evaluate("9"), 9);
    assert_eq!(evaluate("5 + 5 + 5"), 15);
    assert_eq!(evaluate("200 + 100"), 44);
}

#[test]
fn subtraction_and_parentheses() {
    assert_eq!(evaluate("5 - 2"), 3);
    assert_eq!(evaluate("2 - 5"), 253);
    assert_eq!(evaluate("(1 + 2) + (3 + 4)"), 10);
    assert_eq!(evaluate("10 - (3 - 1)"), 8);
    assert_eq!(evaluate("2 + (3 + 4)"), 9);
    assert_eq!(evaluate("((((((1 + 1))))))"), 2);
    assert_eq!(evaluate("1 - (2 - (3 - (4 - (5 - 6))))"), 253);
}

#[test]
fn right_operands_nested_past_the_registers() {
    // each wrapper keeps its right operand in one more pseudo-register
    let mut e = String::from("(1 + 1)");
    for _ in 0..4 {
        e = format!("({} + (1 + 1))", e);
    }
    assert_eq!(evaluate(&e), 10);
    let e = format!("{} + (1 + 1)", e);
    match assemble_expression(&e).unwrap() {
        Err(ExpressionError::Assembler(e)) => {
            assert_eq!(e.to_string(), "ERROR: Semantic error. Var 't5' was not found.")
        }
        _ => panic!("expected an assembler error"),
    }
}

#[test]
fn expression_errors() {
    assert!(matches!(assemble_expression("x"), Some(Err(ExpressionError::Lexer(_)))));
    assert!(matches!(assemble_expression("1 +"), Some(Err(ExpressionError::Syntax(_)))));
    assert!(compile_expression("1 + ").is_err());
}

#[test]
fn compile_to_assembly() {
    let code = compile_expression("4").unwrap();
    assert_eq!(code, "setup\n\tCONST4 DATA 4\nend\ntext\n\tlda CONST4\n\thlt\nend\n");
    let code = compile_expression("1 + (2 + 3)").unwrap();
    assert!(code.ends_with("text\n\tlda CONST2\n\tadd CONST3\n\tsta t4\n\tsta t0\n\tlda CONST1\n\tadd t0\n\tsta t4\n\thlt\nend\n"));
}

#[test]
fn compile_a_sum_of_equal_numbers() {
    let code = compile_expression("2 + 2").unwrap();
    assert_eq!(code, "setup\n\tCONST2 DATA 2\nend\ntext\n\tlda CONST2\n\tadd CONST2\n\tsta t4\n\thlt\nend\n");
    assert_eq!(evaluate("2 + 2"), 4);
}

#[test]
fn flags_follow_the_result_at_the_end_of_a_run() {
    for (expr, acc, zero, negative) in [("100 + 100", 200u8, false, true), ("3 - 3", 0, true, false), ("44", 44, false, false)] {
        let bin = assemble_expression(expr).unwrap().ok().unwrap();
        let mut m = Interpreter::new().load_neander_file(&bin).ok().unwrap();
        m.run();
        assert_eq!((m.acc, m.zero_f, m.negative_f, m.should_stop), (acc, zero, negative, true));
    }
}

#[test]
fn interactive_lines() {
    assert!(matches!(command_of("q"), ReplCommand::Quit));
    assert!(matches!(command_of("quit"), ReplCommand::Quit));
    assert!(matches!(command_of(""), ReplCommand::Skip));
    assert!(matches!(command_of("qu"), ReplCommand::Evaluate("qu")));
    assert!(matches!(repl_command("  quit\n"), ReplCommand::Quit));
    assert!(matches!(repl_command("q\n"), ReplCommand::Quit));
    assert!(matches!(repl_command(" \t\n"), ReplCommand::Skip));
    assert!(matches!(repl_command(" 1 + 2 \n"), ReplCommand::Evaluate("1 + 2")));
}

#[test]
fn numbers_are_read_as_bytes() {
    assert_eq!(evaluate("255"), 255);
    assert_eq!(evaluate("007 + 1"), 8);
    assert!(matches!(assemble_expression("256"), Some(Err(ExpressionError::Lexer(_)))));
}
