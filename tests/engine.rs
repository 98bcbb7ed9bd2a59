use brainfuck::cell::{decrement_with_overflow, increment_with_overflow};
use brainfuck::instruction::Instruction;
use brainfuck::interpreter::{Interpreter, DEFAULT_TAPE_SIZE};
use brainfuck::machine::ExecError;

const LIMIT: u64 = 1_000_000;

fn run(code: &str, input: &[u8]) -> Result<Vec<u8>, ExecError> {
    let program = Interpreter::parse(code);
    let mut interpreter = Interpreter::new();
    interpreter.execute(&program, &input.to_vec(), LIMIT)
}

#[test]
fn increment_wraps_at_255() {
    let mut v: u8 = 255;
    increment_with_overflow(&mut v);
    assert_eq!(v, 0);
    let mut w: u8 = 41;
    increment_with_overflow(&mut w);
    assert_eq!(w, 42);
}

#[test]
fn decrement_wraps_at_zero() {
    let mut v: u8 = 0;
    decrement_with_overflow(&mut v);
    assert_eq!(v, 255);
    let mut w: u8 = 42;
    decrement_with_overflow(&mut w);
    assert_eq!(w, 41);
}

#[test]
fn increments_and_decrements_cycle_in_256() {
    for start in 0..=255u8 {
        let mut v = start;
        for _ in 0..256 {
            increment_with_overflow(&mut v);
        }
        assert_eq!(v, start);
        for _ in 0..256 {
            decrement_with_overflow(&mut v);
        }
        assert_eq!(v, start);
    }
}

#[test]
fn instruction_parse_maps_each_operator() {
    assert_eq!(Instruction::parse('+'), Some(Instruction::Increment));
    assert_eq!(Instruction::parse('-'), Some(Instruction::Decrement));
    assert_eq!(Instruction::parse('>'), Some(Instruction::MoveRight));
    assert_eq!(Instruction::parse('<'), Some(Instruction::MoveLeft));
    assert_eq!(Instruction::parse('.'), Some(Instruction::Putchar));
    assert_eq!(Instruction::parse(','), Some(Instruction::Getchar));
    assert_eq!(Instruction::parse('['), Some(Instruction::LoopStart));
    assert_eq!(Instruction::parse(']'), Some(Instruction::LoopEnd));
    assert_eq!(Instruction::parse('a'), None);
    assert_eq!(Instruction::parse(' '), None);
    assert_eq!(Instruction::parse('é'), None);
}

#[test]
fn parse_keeps_operators_in_order_and_drops_the_rest() {
    let program = Interpreter::parse("a+b-c> <.x,[é]\n");
    assert_eq!(
        program,
        vec![
            Instruction::Increment,
            Instruction::Decrement,
            Instruction::MoveRight,
            Instruction::MoveLeft,
            Instruction::Putchar,
            Instruction::Getchar,
            Instruction::LoopStart,
            Instruction::LoopEnd,
        ]
    );
}

#[test]
fn parse_of_text_without_operators_is_empty() {
    assert_eq!(Interpreter::parse(""), vec![]);
    assert_eq!(Interpreter::parse("hello"), vec![]);
}

#[test]
fn clear_loop_zeroes_the_cell_for_every_value() {
    for v in 0..=255usize {
        let code = format!(">{}[-]", "+".repeat(v));
        let program = Interpreter::parse(&code);
        let mut interpreter = Interpreter::new();
        let out = interpreter.execute(&program, &vec![], LIMIT);
        assert_eq!(out, Ok(vec![]));
        assert_eq!(interpreter.pointer(), 1);
        assert_eq!(interpreter.cell(1), 0);
        assert_eq!(interpreter.cell(0), 0);
    }
}

#[test]
fn nested_clear_loop_matches_flat_one() {
    for v in [0usize, 1, 7, 200, 255] {
        let mut flat = Interpreter::with_tape_size(4);
        let mut nested = Interpreter::with_tape_size(4);
        let prefix = format!("+>{}", "+".repeat(v));
        let a = flat.execute(&Interpreter::parse(&format!("{}[-]", prefix)), &vec![], LIMIT);
        let b = nested.execute(&Interpreter::parse(&format!("{}[[-]]", prefix)), &vec![], LIMIT);
        assert_eq!(a, Ok(vec![]));
        assert_eq!(a, b);
        assert_eq!(flat.pointer(), nested.pointer());
        for i in 0..4 {
            assert_eq!(flat.cell(i), nested.cell(i));
        }
        assert_eq!(nested.cell(0), 1);
        assert_eq!(nested.cell(1), 0);
    }
}

#[test]
fn unmatched_loop_end_is_an_error() {
    assert_eq!(run("]", &[]), Err(ExecError::UnmatchedLoopEnd));
    assert_eq!(run("+[-]]", &[]), Err(ExecError::UnmatchedLoopEnd));
}

#[test]
fn eight_times_eight_prints_at_sign() {
    assert_eq!(run("++++++++[>++++++++<-]>.", &[]), Ok(vec![64]));
}

#[test]
fn echo_of_one_byte() {
    assert_eq!(run(",.", &[65]), Ok(vec![b'A']));
}

#[test]
fn empty_and_comment_programs_do_nothing() {
    assert_eq!(run("", &[]), Ok(vec![]));
    assert_eq!(run("hello", &[1, 2]), Ok(vec![]));
}

#[test]
fn input_past_its_end_reads_zero() {
    assert_eq!(run("+++,.", &[]), Ok(vec![0]));
    assert_eq!(run(",.,.,.", &[7, 9]), Ok(vec![7, 9, 0]));
}

#[test]
fn moving_off_the_tape_is_an_error() {
    assert_eq!(run("<", &[]), Err(ExecError::PointerOutOfRange));
    let mut small = Interpreter::with_tape_size(2);
    let result = small.execute(&Interpreter::parse(">>"), &vec![], LIMIT);
    assert_eq!(result, Err(ExecError::PointerOutOfRange));
    assert_eq!(small.pointer(), 1);
}

#[test]
fn the_last_cell_is_reachable() {
    let code = ">".repeat(DEFAULT_TAPE_SIZE - 1) + "+.";
    assert_eq!(run(&code, &[]), Ok(vec![1]));
    let code = ">".repeat(DEFAULT_TAPE_SIZE);
    assert_eq!(run(&code, &[]), Err(ExecError::PointerOutOfRange));
}

#[test]
fn endless_loop_hits_the_step_limit() {
    let program = Interpreter::parse("+[]");
    let mut interpreter = Interpreter::new();
    assert_eq!(
        interpreter.execute(&program, &vec![], 1000),
        Err(ExecError::StepLimitExceeded)
    );
}

#[test]
fn step_limit_counts_steps_exactly() {
    let program = Interpreter::parse("+++");
    let mut interpreter = Interpreter::new();
    assert_eq!(
        interpreter.execute(&program, &vec![], 2),
        Err(ExecError::StepLimitExceeded)
    );
    let mut interpreter = Interpreter::new();
    assert_eq!(interpreter.execute(&program, &vec![], 3), Ok(vec![]));
    assert_eq!(interpreter.cell(0), 3);
}

#[test]
fn skipped_loop_without_its_end_finishes_the_program() {
    assert_eq!(run("[+.", &[]), Ok(vec![]));
    assert_eq!(run("[[]+.", &[]), Ok(vec![]));
}

#[test]
fn skipped_loop_resumes_after_its_end() {
    assert_eq!(run("[[.]+]+.", &[]), Ok(vec![1]));
}

#[test]
fn decrement_below_zero_wraps() {
    assert_eq!(run("-.", &[]), Ok(vec![255]));
    assert_eq!(run("-+.", &[]), Ok(vec![0]));
}

#[test]
fn stepping_by_hand_reports_input_and_output() {
    let program = Interpreter::parse(",+.");
    let mut interpreter = Interpreter::new();
    assert_eq!(interpreter.tape_len(), DEFAULT_TAPE_SIZE);
    assert!(!interpreter.is_finished(&program));
    assert!(interpreter.wants_input(&program));
    assert_eq!(interpreter.step(&program, Some(9)), Ok(None));
    assert!(!interpreter.wants_input(&program));
    assert_eq!(interpreter.step(&program, None), Ok(None));
    assert_eq!(interpreter.step(&program, None), Ok(Some(10)));
    assert!(interpreter.is_finished(&program));
}

#[test]
fn failed_step_changes_nothing() {
    let program = Interpreter::parse("]");
    let mut interpreter = Interpreter::new();
    assert_eq!(interpreter.step(&program, None), Err(ExecError::UnmatchedLoopEnd));
    assert!(!interpreter.is_finished(&program));
}

#[test]
fn execute_keeps_the_tape_between_runs() {
    let mut interpreter = Interpreter::new();
    assert_eq!(interpreter.execute(&Interpreter::parse("+++>"), &vec![], LIMIT), Ok(vec![]));
    assert_eq!(interpreter.execute(&Interpreter::parse("<."), &vec![], LIMIT), Ok(vec![3]));
}
