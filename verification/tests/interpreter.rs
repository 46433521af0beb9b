use neander_compiler_stack::interpreter::Interpreter;

fn image(mem: &[u8; 256]) -> Vec<u8> {
    let mut v = vec![3, 78, 68, 82];
    for b in mem.iter() {
        v.push(*b);
        v.push(0);
    }
    v
}

#[test]
fn new_machine() {
    let m = Interpreter::new();
    assert_eq!(m.acc, 0);
    assert_eq!(m.pc, 0);
    assert!(m.zero_f);
    assert!(!m.negative_f);
    assert!(!m.should_stop);
    assert!(m.mem.iter().all(|b| *b == 0));
}

#[test]
fn load_errors() {
    let e = Interpreter::new().load_neander_file(&[0; 10]).err().unwrap();
    assert_eq!(e, "Invalid file. The length of file wasn't 516 bytes.");
    let e = Interpreter::new().load_neander_file(&[0; 516]).err().unwrap();
    assert_eq!(e, "Invalid header format.");
}

#[test]
fn load_gives_back_memory() {
    let mut mem = [0u8; 256];
    for (i, b) in mem.iter_mut().enumerate() {
        *b = (i * 7 % 256) as u8;
    }
    let m = Interpreter::new().set_pc(9).load_neander_file(&image(&mem)).ok().unwrap();
    assert_eq!(m.mem, mem);
    assert_eq!(m.pc, 9);
}

#[test]
fn run_program() {
    let mut mem = [0u8; 256];
    // lda 100; add 101; sta 102; not; or 101; hlt
    let code = [32, 100, 48, 101, 16, 102, 96, 64, 101, 240];
    mem[..code.len()].copy_from_slice(&code);
    mem[100] = 20;
    mem[101] = 22;
    let mut m = Interpreter::new().load_neander_file(&image(&mem)).ok().unwrap();
    m.run();
    assert!(m.should_stop);
    assert_eq!(m.mem[102], 42);
    assert_eq!(m.acc, !42u8 | 22);
    assert_eq!(m.pc, 10);
}

#[test]
fn jumps_follow_the_flags() {
    let mut mem = [0u8; 256];
    // jn 9 (not taken: N is clear); jz 8 (taken: Z is set); at 8: hlt
    let code = [144, 9, 160, 8];
    mem[..code.len()].copy_from_slice(&code);
    mem[8] = 240;
    let mut m = Interpreter::new().load_neander_file(&image(&mem)).ok().unwrap();
    m.step();
    assert_eq!(m.pc, 2);
    m.step();
    assert_eq!(m.pc, 8);
    m.run();
    assert_eq!(m.pc, 9);
    assert!(m.zero_f);
}

#[test]
fn store_then_load_law() {
    let mut mem = [0u8; 256];
    let code = [16, 200, 32, 200, 240];
    mem[..code.len()].copy_from_slice(&code);
    let mut m = Interpreter::new().load_neander_file(&image(&mem)).ok().unwrap();
    m.acc = 77;
    m.run();
    assert_eq!(m.acc, 77);
    assert_eq!(m.mem[200], 77);
}

#[test]
fn add_wraps_around() {
    let mut mem = [0u8; 256];
    let code = [32, 10, 48, 11, 240];
    mem[..code.len()].copy_from_slice(&code);
    mem[10] = 200;
    mem[11] = 100;
    let mut m = Interpreter::new().load_neander_file(&image(&mem)).ok().unwrap();
    m.run();
    assert_eq!(m.acc, 44);
    assert_eq!(m.pc, 5);
    assert!(!m.zero_f);
    assert!(!m.negative_f);
}

#[test]
fn flags_follow_the_accumulator() {
    let mut mem = [0u8; 256];
    // lda 20; jz 6; hlt; at 6: not; hlt
    let code = [32, 20, 160, 6, 240, 0, 96, 240];
    mem[..code.len()].copy_from_slice(&code);
    mem[20] = 1;
    let mut m = Interpreter::new().load_neander_file(&image(&mem)).ok().unwrap();
    m.run();
    assert_eq!(m.acc, 1);
    assert_eq!(m.pc, 5);
    assert!(!m.zero_f);
    let mut mem = [0u8; 256];
    let code = [32, 20, 240];
    mem[..code.len()].copy_from_slice(&code);
    mem[20] = 200;
    let mut m = Interpreter::new().load_neander_file(&image(&mem)).ok().unwrap();
    m.run();
    assert!(m.negative_f);
    assert!(!m.zero_f);
}

#[test]
fn run_for_stops_at_the_fuel() {
    let mut mem = [0u8; 256];
    // jmp 0: never halts
    mem[0] = 128;
    mem[1] = 0;
    let mut m = Interpreter::new().load_neander_file(&image(&mem)).ok().unwrap();
    assert!(!m.run_for(10));
    assert_eq!(m.pc, 0);
    mem[0] = 240;
    let mut m = Interpreter::new().load_neander_file(&image(&mem)).ok().unwrap();
    assert!(m.run_for(10));
    assert_eq!(m.pc, 1);
}

#[test]
fn unknown_opcodes_are_skipped() {
    let mut mem = [0u8; 256];
    mem[0] = 7;
    mem[1] = 240;
    let mut m = Interpreter::new().load_neander_file(&image(&mem)).ok().unwrap();
    m.run();
    assert_eq!(m.pc, 2);
}

#[test]
fn machine_to_string() {
    let mut m = Interpreter::new();
    m.acc = 5;
    let s = m.to_string();
    assert!(s.starts_with("Interpreter: \n ACC: 5\n PC: 0\n 00 00"));
    assert_eq!(s.lines().count(), 3 + 16 + 1);
    assert!(s.ends_with(" 00\n\n"));
}

#[test]
fn not_is_one_byte_for_the_machine() {
    let mut mem = [0u8; 256];
    // `not`, then an unknown byte that is skipped, then `hlt`
    let code = [96, 250, 240];
    mem[..code.len()].copy_from_slice(&code);
    let mut m = Interpreter::new().load_neander_file(&image(&mem)).ok().unwrap();
    m.step();
    assert_eq!(m.pc, 1);
    assert_eq!(m.acc, 255);
    m.step();
    assert_eq!(m.pc, 2);
    m.run();
    assert_eq!(m.pc, 3);
}
