use neander_compiler_stack::interpreter::Interpreter;
use neander_compiler_stack::assembler::parser::DataDecl;
use neander_compiler_stack::assembler::{Lexer, ParserT};

#[test]
fn test_parse_data_section() {
    let source = "setup\n\n\n\n A DATA 44\n\n\n\n\n\n ORG 4\n\n B SPACE 5\n\n end";
    let lexer = Lexer::new(source);
    let mut parser = ParserT::new(lexer);

    let result = parser.parse_data();

    assert!(
        result.is_ok(),
        "Error returned from parser: {:?}",
        result.err()
    );

    let statements = result.unwrap();
    assert_eq!(statements.len(), 3);

    assert_eq!(statements[0], DataDecl::Data("A".to_string(), 44));
    assert_eq!(statements[1], DataDecl::Org(4));
    assert_eq!(statements[2], DataDecl::Space("B".to_string(), 5));
}

use neander_compiler_stack::assembler::codegen::SymbolTable;
use neander_compiler_stack::assembler::lexer::TokenType;
use neander_compiler_stack::assembler::parser::{bin_text, AssemblerError, Instruction, Operand, Register};

fn tokens(src: &str) -> Vec<(String, String, usize)> {
    let mut lexer = Lexer::new(src);
    let mut out = Vec::new();
    while let Some(t) = lexer.next_token() {
        let t = t.expect("lexical error");
        out.push((t.kind.name().to_string(), t.lexeme.to_string(), t.line));
    }
    out
}

#[test]
fn lexer_classifies_words() {
    let toks = tokens("setup text end DATA SPACE ORG lda hlt t0 t4 t5 CONST12 x");
    let kinds: Vec<&str> = toks.iter().map(|t| t.0.as_str()).collect();
    assert_eq!(
        kinds,
        vec![
            "Label", "Label", "Label", "Data Declaration", "Data Declaration", "Data Declaration",
            "Instruction", "Instruction", "Register", "Register", "Identfier", "Identfier",
            "Identfier"
        ]
    );
    assert_eq!(toks[11].1, "CONST12");
}

#[test]
fn lexer_numbers_and_line_breaks() {
    let mut lexer = Lexer::new("  42 ; a comment\n\n\n007\n");
    let t = lexer.next_token().unwrap().unwrap();
    assert_eq!(t.kind, TokenType::Num(42));
    assert_eq!(t.lexeme, "42");
    assert_eq!(t.line, 1);
    let t = lexer.next_token().unwrap().unwrap();
    assert_eq!(t.kind, TokenType::NewLine);
    assert_eq!(t.line, 4);
    let t = lexer.next_token().unwrap().unwrap();
    assert_eq!(t.kind, TokenType::Num(7));
    let t = lexer.next_token().unwrap().unwrap();
    assert_eq!(t.kind, TokenType::NewLine);
    assert_eq!(t.line, 5);
    assert!(lexer.next_token().is_none());
}

#[test]
fn lexer_number_out_of_bounds() {
    let mut lexer = Lexer::new("  256");
    let e = lexer.next_token().unwrap().err().unwrap();
    assert_eq!(e.message(), "Error: number '256' out of bounds expected (0-255) at: 1:6");
    assert_eq!(e.to_string(), "ERROR: Error: number '256' out of bounds expected (0-255) at: 1:6");
}

#[test]
fn lexer_unexpected_symbol_does_not_move() {
    let mut lexer = Lexer::new("a\n  #");
    lexer.next_token().unwrap().unwrap();
    lexer.next_token().unwrap().unwrap();
    let e = lexer.next_token().unwrap().err().unwrap();
    assert_eq!(e.message(), "Error: unexpected symbol '#' at 2:3");
    let e2 = lexer.next_token().unwrap().err().unwrap();
    assert_eq!(e2.message(), e.message());
}

#[test]
fn token_to_string() {
    let mut lexer = Lexer::new("\nabc");
    let t = lexer.next_token().unwrap().unwrap();
    assert_eq!(t.to_string(), "Token -> \n\tTipo: New Line \n\tLexeme: \\n \n\tLine: 2");
    let t = lexer.next_token().unwrap().unwrap();
    assert_eq!(t.to_string(), "Token -> \n\tTipo: Identfier \n\tLexeme: abc \n\tLine: 2");
}

#[test]
fn parse_text_section() {
    let mut parser = ParserT::new(Lexer::new("text\n lda x\n add t4\n\n not y\n hlt\n nop\nend"));
    let instrs = parser.parse_text().unwrap();
    assert_eq!(
        instrs,
        vec![
            Instruction::Lda(Operand::Symbol("x".to_string())),
            Instruction::Add(Operand::Register(Register::T4)),
            Instruction::Not(Operand::Symbol("y".to_string())),
            Instruction::Hlt,
            Instruction::Nop,
        ]
    );
}

fn parse_err(src: &str) -> String {
    let mut parser = ParserT::new(Lexer::new(src));
    match parser.parse_program() {
        Ok(_) => panic!("expected an error"),
        Err(e) => e.message().to_string(),
    }
}

#[test]
fn parser_errors() {
    assert_eq!(parse_err("text\nend"), "Syntax error at 1, expected label 'setup', but found Label");
    assert_eq!(parse_err(""), "Unexpected end of file. Expected label 'setup' at line 1");
    assert_eq!(
        parse_err("setup\n A 5\nend"),
        "Syntax error at line 2. Expected data statement, but found 'Number'."
    );
    assert_eq!(
        parse_err("setup\n A ORG 5\nend"),
        "Error at line 2. Expected 'DATA' or 'SPACE' but found 'ORG'"
    );
    assert_eq!(
        parse_err("setup\n DATA 5\nend"),
        "Unexpected token at line 2. Expected data statement, but found 'Data Declaration'"
    );
    assert_eq!(parse_err("setup\n A DATA"), "Unexpected end of file. Expecting u8 number (0-255)");
    assert_eq!(
        parse_err("setup\nend\ntext\n lda 5\nend"),
        "Expected Operand at line 4 but found 'Number'"
    );
    assert_eq!(parse_err("setup\nend\ntext\n lda"), "Unexpected EOF");
    assert_eq!(
        parse_err("setup\nend\ntext\n x\nend"),
        "Syntax error at line 4. Expected instruction, but found 'Identfier'."
    );
    assert_eq!(parse_err("setup\n A DATA 300\nend"), "Error: number '300' out of bounds expected (0-255) at: 2:12");
}

#[test]
fn assemble_program() {
    let src = "setup\n A DATA 7\n B DATA 9\n ORG 10\nend\ntext\n lda A\n add B\n sta t4\n hlt\nend\n";
    let mut parser = ParserT::new(Lexer::new(src));
    let image = parser.parse().unwrap();
    assert_eq!(image.len(), 516);
    assert_eq!(&image[0..4], &[3, 78, 68, 82]);
    let mem: Vec<u8> = (0..256).map(|i| image[4 + 2 * i]).collect();
    assert!((0..256).all(|i| image[5 + 2 * i] == 0));
    assert_eq!(mem[250], 7);
    assert_eq!(mem[249], 9);
    assert_eq!(&mem[10..17], &[32, 250, 48, 249, 16, 255, 240]);
    assert_eq!(parser.symbols.program_counter, 10);
    assert_eq!(parser.symbols.map.get("A"), Some((250, 7)));
    assert_eq!(parser.symbols.map.get("t4"), Some((255, 0)));
    assert_eq!(parser.symbols.map.get("t5"), None);
}

#[test]
fn assemble_undeclared_variable() {
    let src = "setup\nend\ntext\n lda A\nend";
    let mut parser = ParserT::new(Lexer::new(src));
    match parser.parse() {
        Err(AssemblerError::Lexer(e)) => assert_eq!(e.message(), "Semantic error. Var 'A' was not found."),
        _ => panic!("expected an error"),
    }
}

#[test]
fn assemble_duplicate_variable() {
    let src = "setup\n A DATA 1\n A DATA 2\nend\ntext\nend";
    let mut parser = ParserT::new(Lexer::new(src));
    match parser.parse() {
        Err(e) => assert_eq!(e.to_string(), "Syntax error: Semantic error. Var 'A' was already declared.\n"),
        _ => panic!("expected an error"),
    }
}

#[test]
fn symbol_table_build() {
    let mut table = SymbolTable::new();
    let decls = vec![
        DataDecl::Data("A".to_string(), 3),
        DataDecl::Space("V".to_string(), 4),
        DataDecl::Data("B".to_string(), 5),
        DataDecl::Org(20),
    ];
    assert!(table.build(&decls).is_ok());
    assert_eq!(table.map.get("A"), Some((250, 3)));
    assert_eq!(table.map.get("V"), Some((246, 0)));
    assert_eq!(table.map.get("B"), Some((246, 5)));
    assert_eq!(table.map.get("t0"), Some((251, 0)));
    assert_eq!(table.map.get("t1"), Some((252, 0)));
    assert_eq!(table.map.get("t2"), Some((253, 0)));
    assert_eq!(table.map.get("t3"), Some((254, 0)));
    assert_eq!(table.map.get("t4"), Some((255, 0)));
    assert_eq!(table.map.get("t5"), None);
    assert_eq!(table.program_counter, 20);

    let mut table = SymbolTable::new();
    let e = table.build(&[DataDecl::Org(3), DataDecl::Org(4)]).err().unwrap();
    assert_eq!(e.error, "Semantic error. Program count was already set.");
    assert_eq!(table.program_counter, 3);
}

#[test]
fn data_reads_back_law() {
    let mut table = SymbolTable::new();
    let decls = vec![DataDecl::Data("X".to_string(), 42), DataDecl::Data("t3".to_string(), 9)];
    table.build(&decls).unwrap();
    assert_eq!(table.map.get("X").map(|i| i.1), Some(42));
    // the pseudo-registers take the name t3 over
    assert_eq!(table.map.get("t3"), Some((254, 0)));
}

#[test]
fn layout_overflow_is_reported() {
    let mut table = SymbolTable::new();
    assert!(table.lay_out(&[DataDecl::Space("Z".to_string(), 0)]).is_none());
    let mut parser = ParserT::new(Lexer::new("setup\n B SPACE 0\nend\ntext\nend"));
    assert!(parser.parse_checked().is_none());
}

#[test]
fn code_past_the_last_address() {
    let mut parser = ParserT::new(Lexer::new("setup\n ORG 255\nend\ntext\n lda t0\nend"));
    assert!(parser.parse_checked().is_none());
}

#[test]
fn bin_text_rows() {
    let bytes: Vec<u8> = (0..18).collect();
    assert_eq!(
        bin_text(&bytes),
        " 00 01 02 03 04 05 06 07 08 09 10 11 12 13 14 15\n 16 17\n\n"
    );
}

#[test]
fn lexer_numeric_but_not_ascii_digit() {
    let mut lexer = Lexer::new("½");
    let e = lexer.next_token().unwrap().err().unwrap();
    assert_eq!(e.message(), "Error: number '' out of bounds expected (0-255) at: 1:1");
}

#[test]
fn lexer_unicode_letters_make_names() {
    let mut lexer = Lexer::new("ação1 x");
    let t = lexer.next_token().unwrap().unwrap();
    assert_eq!(t.kind, TokenType::Identfier("ação1"));
    assert_eq!(lexer.position, 5);
    assert_eq!(lexer.col, 6);
}

#[test]
fn not_is_one_byte() {
    let src = "setup\n A DATA 1\nend\ntext\n not A\n hlt\nend";
    let mut parser = ParserT::new(Lexer::new(src));
    let image = parser.parse().unwrap();
    let mem: Vec<u8> = (0..256).map(|i| image[4 + 2 * i]).collect();
    assert_eq!(&mem[0..3], &[96, 240, 0]);
}

#[test]
fn sub_macro_subtracts() {
    let src = "setup\nA DATA 5\nB DATA 3\nend\ntext\nlda A\nsub B\nhlt\nend";
    let mut parser = ParserT::new(Lexer::new(src));
    let image = parser.parse().unwrap();
    let mem: Vec<u8> = (0..256).map(|i| image[4 + 2 * i]).collect();
    assert_eq!(&mem[0..7], &[32, 250, 96, 48, 249, 96, 240]);
    let mut m = Interpreter::new().load_neander_file(&image).ok().unwrap();
    m.run();
    assert_eq!(m.acc, 2);
    let src = "setup\nA DATA 3\nB DATA 5\nend\ntext\nlda A\nsub B\nhlt\nend";
    let image = ParserT::new(Lexer::new(src)).parse().unwrap();
    let mut m = Interpreter::new().load_neander_file(&image).ok().unwrap();
    m.run();
    assert_eq!(m.acc, 254);
    assert!(m.negative_f);
}

#[test]
fn fits_bound_law() {
    let mut table = SymbolTable::new();
    let decls = vec![DataDecl::Space("V".to_string(), 200), DataDecl::Data("A".to_string(), 1)];
    assert!(table.lay_out(&decls).is_some());
}

#[test]
fn lexeme_is_a_slice_of_the_text() {
    let src = "  lda CONST12";
    let mut lexer = Lexer::new(src);
    let t = lexer.next_token().unwrap().unwrap();
    assert_eq!(t.lexeme, "lda");
    assert!(std::ptr::eq(t.lexeme.as_ptr(), src[2..].as_ptr()));
    let t = lexer.next_token().unwrap().unwrap();
    assert_eq!(t.lexeme, &src[6..13]);
    assert!(std::ptr::eq(t.lexeme.as_ptr(), src[6..].as_ptr()));
}
