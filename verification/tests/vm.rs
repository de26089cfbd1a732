use space_vm::instr::{parse_program, Instruction, Value};
use space_vm::machine::{message, Assembler, SpacePool};

fn run(program: &str) -> Assembler {
    let mut a = Assembler::new();
    a.parse_instructions(program);
    a.execute();
    a
}

fn reg(a: &Assembler, name: &str) -> Option<Value> {
    a.registers().read(name)
}

#[test]
fn parsing_keeps_order_and_drops_bad_lines() {
    let prog = parse_program("MOV r0 1\nGARBAGE\nJMP 5");
    assert_eq!(
        prog,
        vec![
            Instruction::Mov("r0".to_string(), 1),
            Instruction::Jmp(5),
        ]
    );
    // three source lines, two instructions: dropped lines only shrink the count
    assert!(prog.len() <= 3);
}

#[test]
fn malformed_line_leaves_no_placeholder() {
    let mut a = Assembler::new();
    a.parse_instructions("MOV r0 1\nFOO bar baz\nMOV r1 2");
    assert_eq!(
        a.instructions(),
        &vec![
            Instruction::Mov("r0".to_string(), 1),
            Instruction::Mov("r1".to_string(), 2),
        ]
    );
}

#[test]
fn add_two_ints() {
    let a = run("MOV r0 5\nMOV r1 3\nADD r0 r1");
    assert_eq!(reg(&a, "r0"), Some(Value::Int(8)));
    assert_eq!(reg(&a, "r1"), Some(Value::Int(3)));
}

#[test]
fn division_by_zero_is_advisory_only() {
    let a = run("MOV r0 5\nMOV r1 0\nDIV r0 r1");
    assert_eq!(reg(&a, "r0"), Some(Value::Int(5)));
    assert_eq!(a.diagnostics_count(), 1);
    // the run went on to a normal halt: all three instructions were fetched
    assert_eq!(a.steps_taken(), 3);
}

#[test]
fn modulus_by_zero_is_advisory_only() {
    let a = run("MOV r0 5\nMOV r1 0\nMOD r0 r1");
    assert_eq!(reg(&a, "r0"), Some(Value::Int(5)));
    assert_eq!(a.diagnostics_count(), 1);
}

#[test]
fn jmp_assigns_the_counter_absolutely() {
    let a = run("MOV r0 1\nJMP 3\nMOV r0 2\nMOV r0 3");
    assert_eq!(reg(&a, "r0"), Some(Value::Int(3)));
    // the two skipped instructions were never fetched
    assert_eq!(a.steps_taken(), 3);
    assert_eq!(a.counter(), 4);
}

#[test]
fn if_equal_adds_offset_to_counter() {
    let a = run("MOV r0 1\nMOV r1 1\nIF r0 EQ r1 2\nMOV r2 99\nMOV r2 7");
    assert_eq!(reg(&a, "r2"), Some(Value::Int(7)));
}

#[test]
fn if_comparator_token_is_not_interpreted() {
    // any comparator token works: equality is the only test performed
    let a = run("MOV r0 1\nMOV r1 1\nIF r0 NEQ r1 2\nMOV r2 99\nMOV r2 7");
    assert_eq!(reg(&a, "r2"), Some(Value::Int(7)));
}

#[test]
fn if_unequal_falls_through() {
    let a = run("MOV r0 1\nMOV r1 2\nIF r0 EQ r1 2\nMOV r2 99\nMOV r2 7");
    assert_eq!(reg(&a, "r2"), Some(Value::Int(7)));
    assert_eq!(a.steps_taken(), 5);
}

#[test]
fn if_on_mismatched_types_falls_through() {
    let a = run("MOV r0 1\nMOVSTR r1 1\nIF r0 EQ r1 2\nMOV r2 99\nMOV r2 7");
    assert_eq!(reg(&a, "r2"), Some(Value::Int(7)));
    assert_eq!(a.steps_taken(), 5);
}

#[test]
fn if_compares_strings_textually() {
    let a = run("MOVSTR s1 abc\nMOVSTR s2 abc\nIF s1 EQ s2 2\nMOV r2 99\nMOV r2 7");
    assert_eq!(reg(&a, "r2"), Some(Value::Int(7)));
}

#[test]
fn else_jumps_on_unequal_ints() {
    let a = run("MOV a 1\nMOV b 2\nELSE a b 2\nMOV c 9\nMOV d 7");
    assert_eq!(reg(&a, "c"), None);
    assert_eq!(reg(&a, "d"), Some(Value::Int(7)));
}

#[test]
fn else_on_mismatched_types_falls_through() {
    // neither equality arm catches an Int next to a Str, so Else steps on
    let a = run("MOV a 1\nMOVSTR b 1\nELSE a b 2\nMOV c 9\nMOV d 7");
    assert_eq!(reg(&a, "c"), Some(Value::Int(9)));
    assert_eq!(reg(&a, "d"), Some(Value::Int(7)));
}

#[test]
fn else_on_absent_register_falls_through() {
    let a = run("ELSE x y 2\nMOV c 9");
    assert_eq!(reg(&a, "c"), Some(Value::Int(9)));
}

#[test]
fn backward_jump_halts_on_the_step_budget() {
    let a = run("MOV r0 1\nJMP 0");
    assert_eq!(a.steps_taken(), 1000);
    // the registers at the abort equal their state at step 999
    assert_eq!(reg(&a, "r0"), Some(Value::Int(1)));
}

#[test]
fn add_concatenates_strings_dest_first() {
    let a = run("MOVSTR a xy\nMOVSTR b z\nADD a b");
    assert_eq!(reg(&a, "a"), Some(Value::Str("xyz".to_string())));
}

#[test]
fn arithmetic_on_missing_register_is_a_no_op() {
    let a = run("MOV a 1\nADD a b\nSUB a b\nMUL a b\nDIV a b\nMOD a b");
    assert_eq!(reg(&a, "a"), Some(Value::Int(1)));
    assert_eq!(a.diagnostics_count(), 0);
    assert_eq!(a.steps_taken(), 6);
}

#[test]
fn arithmetic_on_mismatched_types_is_a_no_op() {
    let a = run("MOV a 1\nMOVSTR b s\nSUB a b\nMUL a b\nDIV a b\nMOD a b");
    assert_eq!(reg(&a, "a"), Some(Value::Int(1)));
}

#[test]
fn sub_mul_div_mod_semantics() {
    let a = run("MOV a 9\nMOV b 2\nSUB a b");
    assert_eq!(reg(&a, "a"), Some(Value::Int(7)));
    let a = run("MOV a 9\nMOV b 2\nMUL a b");
    assert_eq!(reg(&a, "a"), Some(Value::Int(18)));
    let a = run("MOV a 9\nMOV b 2\nDIV a b");
    assert_eq!(reg(&a, "a"), Some(Value::Int(4)));
    let a = run("MOV a 9\nMOV b 2\nMOD a b");
    assert_eq!(reg(&a, "a"), Some(Value::Int(1)));
}

#[test]
fn division_truncates_toward_zero() {
    let a = run("MOV a -7\nMOV b 2\nDIV a b");
    assert_eq!(reg(&a, "a"), Some(Value::Int(-3)));
    let a = run("MOV a 7\nMOV b -2\nDIV a b");
    assert_eq!(reg(&a, "a"), Some(Value::Int(-3)));
    let a = run("MOV a -7\nMOV b 2\nMOD a b");
    assert_eq!(reg(&a, "a"), Some(Value::Int(-1)));
}

#[test]
fn overflowing_arithmetic_leaves_the_register_unchanged() {
    let a = run("MOV a 9223372036854775807\nMOV b 1\nADD a b");
    assert_eq!(reg(&a, "a"), Some(Value::Int(isize::MAX)));
    let a = run("MOV a -9223372036854775808\nMOV b -1\nDIV a b");
    assert_eq!(reg(&a, "a"), Some(Value::Int(isize::MIN)));
    assert_eq!(a.diagnostics_count(), 0);
}

#[test]
fn integer_token_shapes() {
    assert_eq!(parse_program("JMP +3"), vec![Instruction::Jmp(3)]);
    assert_eq!(parse_program("JMP -2"), vec![Instruction::Jmp(-2)]);
    assert_eq!(parse_program("MOV r0 007"), vec![Instruction::Mov("r0".to_string(), 7)]);
    // a fraction, a bare sign, and an overflowing literal all drop the line
    assert_eq!(parse_program("JMP 1.5"), vec![]);
    assert_eq!(parse_program("JMP -"), vec![]);
    assert_eq!(parse_program("MOV r0 99999999999999999999999"), vec![]);
    // the extreme representable values parse
    assert_eq!(
        parse_program("MOV a -9223372036854775808\nMOV b 9223372036854775807"),
        vec![
            Instruction::Mov("a".to_string(), isize::MIN),
            Instruction::Mov("b".to_string(), isize::MAX),
        ]
    );
    assert_eq!(parse_program("MOV a -9223372036854775809"), vec![]);
    assert_eq!(parse_program("MOV a 9223372036854775808"), vec![]);
}

#[test]
fn tokens_split_on_any_whitespace_run() {
    assert_eq!(
        parse_program("  MOV \t r0   5 \r"),
        vec![Instruction::Mov("r0".to_string(), 5)]
    );
}

#[test]
fn token_count_must_match_the_shape_exactly() {
    assert_eq!(parse_program("MOV r0"), vec![]);
    assert_eq!(parse_program("MOV r0 1 2"), vec![]);
    assert_eq!(parse_program("JMP"), vec![]);
    assert_eq!(parse_program("IF a EQ b"), vec![]);
    assert_eq!(parse_program("ELSE a b"), vec![]);
    assert_eq!(parse_program(""), vec![]);
    assert_eq!(parse_program("\n\n"), vec![]);
}

#[test]
fn registers_are_case_sensitive_and_overwritten() {
    let a = run("MOV a 1\nMOV A 2\nMOV a 3");
    assert_eq!(reg(&a, "a"), Some(Value::Int(3)));
    assert_eq!(reg(&a, "A"), Some(Value::Int(2)));
    assert_eq!(reg(&a, "b"), None);
}

#[test]
fn a_write_changes_the_type_of_a_register() {
    let a = run("MOV a 1\nMOVSTR a text");
    assert_eq!(reg(&a, "a"), Some(Value::Str("text".to_string())));
}

#[test]
fn empty_program_halts_at_once() {
    let a = run("");
    assert_eq!(a.steps_taken(), 0);
    assert_eq!(a.counter(), 0);
    assert_eq!(a.registers().len(), 0);
}

struct CountingPool {
    calls: usize,
}

impl SpacePool for CountingPool {
    fn get_space_value(&mut self) {
        self.calls += 1;
    }
}

#[test]
fn message_returns_the_fixed_token_and_meters_each_register() {
    let mut pool = CountingPool { calls: 0 };
    let (token, a) = message(&mut pool, "MOV a 1\nMOV b 2\nADD a b");
    assert_eq!(token.as_str(), "vm");
    assert_eq!(pool.calls, 2);
    assert_eq!(reg(&a, "a"), Some(Value::Int(3)));
}

#[test]
fn message_on_an_empty_program_meters_nothing() {
    let mut pool = CountingPool { calls: 0 };
    let (token, a) = message(&mut pool, "");
    assert_eq!(token.as_str(), "vm");
    assert_eq!(pool.calls, 0);
    assert_eq!(a.registers().len(), 0);
}

#[test]
fn jumping_out_of_bounds_halts_normally() {
    let a = run("MOV a 1\nJMP -5");
    assert_eq!(a.steps_taken(), 2);
    assert_eq!(a.counter(), -5);
    assert_eq!(reg(&a, "a"), Some(Value::Int(1)));
}
