use brainfxxk::bf_interpreter::BfInterpreter;
use brainfxxk::loops::MalformedProgram;

const HELLO: &str = "+++++++++[>++++++++>+++++++++++>+++++<<<-]>.>++.+++++++..+++.>-.------------.<++++++++.--------.+++.------.--------.>+.";

fn run_program(src: &str, input: &str) -> String {
    let mut bf = BfInterpreter::new(src, input).unwrap();
    bf.exec();
    bf.output().to_string()
}

#[test]
fn bf_interpreter_hello_world() {
    let src: &str = "+++++++++[>++++++++>+++++++++++>+++++<<<-]>.>++.+++++++..+++.>-.------------.<++++++++.--------.+++.------.--------.>+.";
    let input: &str = "";
    let mut bf = BfInterpreter::new(src, input).unwrap();
    bf.exec();
    assert_eq!(bf.output(), "Hello, world!");
}

#[test]
fn lib_hello_world() {
    let src: &str = "+++++++++[>++++++++>+++++++++++>+++++<<<-]>.>++.+++++++..+++.>-.
        ------------.<++++++++.--------.+++.------.--------.>+.";
    let input: &str = "";
    let mut bf = brainfxxk::BfInterpreter::new(src, input).unwrap();
    bf.exec();
    assert_eq!(bf.output(), "Hello, world!");
}

#[test]
fn empty_program_writes_nothing() {
    assert_eq!(run_program("", ""), "");
    assert_eq!(run_program("", "some input"), "");
}

#[test]
fn comment_only_program_writes_nothing() {
    assert_eq!(run_program("just words\n and spaces", "x"), "");
}

#[test]
fn read_then_write_echoes_input() {
    assert_eq!(run_program(",.", "A"), "A");
}

#[test]
fn read_with_no_input_writes_nul() {
    // The cell stays zero and code point zero is a valid character.
    assert_eq!(run_program(",.", ""), "\u{0}");
}

#[test]
fn reads_consume_input_in_order() {
    assert_eq!(run_program(",.,.,.", "xyz"), "xyz");
    assert_eq!(run_program(",,.", "ab"), "b");
}

#[test]
fn lone_loop_end_is_refused() {
    assert_eq!(BfInterpreter::new("]", "").err(), Some(MalformedProgram::DanglingLoopEnd));
    assert_eq!(BfInterpreter::new("[]]", "").err(), Some(MalformedProgram::DanglingLoopEnd));
}

#[test]
fn lone_loop_start_is_refused() {
    assert_eq!(BfInterpreter::new("[", "").err(), Some(MalformedProgram::DanglingLoopStart));
    assert_eq!(BfInterpreter::new("[[]", "").err(), Some(MalformedProgram::DanglingLoopStart));
}

#[test]
fn early_loop_end_is_reported_before_open_start() {
    assert_eq!(BfInterpreter::new("][[", "").err(), Some(MalformedProgram::DanglingLoopEnd));
}

#[test]
fn output_is_repeatable() {
    let mut bf = BfInterpreter::new(HELLO, "").unwrap();
    bf.exec();
    let first = bf.output().to_string();
    let second = bf.output().to_string();
    assert_eq!(first, second);
    assert_eq!(first, "Hello, world!");
}

#[test]
fn output_before_run_is_empty() {
    let bf = BfInterpreter::new("+.", "").unwrap();
    assert_eq!(bf.output(), "");
}

#[test]
fn loop_skipped_when_cell_is_zero() {
    // 65 = 'A'; the loop body would print otherwise.
    let src = "[.]++++++++[>++++++++<-]>+.";
    assert_eq!(run_program(src, ""), "A");
}

#[test]
fn nested_loops_run() {
    // 2 * 3 * 11 = 66 = 'B'
    let src = "++[>+++[>+++++++++++<-]<-]>>.";
    assert_eq!(run_program(src, ""), "B");
}

#[test]
fn pointer_wraps_below_first_cell() {
    // Moving left from cell 0 lands on the last cell, and right again on cell 0.
    let src = "<,>.<.";
    assert_eq!(run_program(src, "C"), "\u{0}C");
}

#[test]
fn cell_decrement_wraps_and_skips_invalid_code_point() {
    // 0 - 1 wraps to u32::MAX, which is no character: nothing is written.
    assert_eq!(run_program("-.", ""), "");
    assert_eq!(run_program("-+.", ""), "\u{0}");
}

#[test]
fn run_steps_stops_at_budget() {
    let mut bf = BfInterpreter::new("+[]", "").unwrap();
    let taken = bf.run_steps(10);
    assert_eq!(taken, 10);
    let mut done = BfInterpreter::new("+.", "").unwrap();
    assert_eq!(done.run_steps(10), 2);
    assert_eq!(done.output(), "\u{1}");
}
