use brainfuck::execute;
use brainfuck::interpret::Io;
use brainfuck::parse;
use brainfuck::run;
use brainfuck::run_from_state;
use brainfuck::to_char_8859;
use brainfuck::Instruction;
use brainfuck::State;

fn io_with(input: &str) -> Io {
    Io { input: input.chars().collect(), pos: 0, output: Vec::new() }
}

#[test]
fn fresh_state() {
    let s = State::new();
    assert_eq!(s.mem, vec![0]);
    assert_eq!(s.pointer, 0);
    assert!(!s.outted);
}

#[test]
fn parse_copy_loop_structure() {
    let prog = parse("+[>+<-]");
    assert_eq!(
        prog,
        vec![
            Instruction::Increment,
            Instruction::Loop(vec![
                Instruction::Forward,
                Instruction::Increment,
                Instruction::Backward,
                Instruction::Decrement,
            ]),
        ]
    );
}

#[test]
fn parse_two_leaves_then_loop() {
    let prog = parse("++[>+<-]");
    assert_eq!(
        prog,
        vec![
            Instruction::Increment,
            Instruction::Increment,
            Instruction::Loop(vec![
                Instruction::Forward,
                Instruction::Increment,
                Instruction::Backward,
                Instruction::Decrement,
            ]),
        ]
    );
}

#[test]
fn fresh_io_buffer() {
    let io = Io::new(vec!['a', 'b']);
    assert_eq!(io.input, vec!['a', 'b']);
    assert_eq!(io.pos, 0);
    assert!(io.output.is_empty());
}

#[test]
fn parse_skips_comment_characters() {
    assert_eq!(
        parse("say + twice -!"),
        vec![Instruction::Increment, Instruction::Decrement]
    );
}

#[test]
fn parse_unmatched_close_is_skipped() {
    assert_eq!(parse("]+"), vec![Instruction::Increment]);
    assert_eq!(parse("]]]"), Vec::<Instruction>::new());
}

#[test]
fn parse_unclosed_loop_is_closed_at_end() {
    assert_eq!(
        parse("[+"),
        vec![Instruction::Loop(vec![Instruction::Increment])]
    );
    assert_eq!(
        parse("[[,"),
        vec![Instruction::Loop(vec![Instruction::Loop(vec![Instruction::In])])]
    );
}

#[test]
fn parse_empty_and_nested() {
    assert_eq!(parse(""), Vec::<Instruction>::new());
    assert_eq!(
        parse("[[]]"),
        vec![Instruction::Loop(vec![Instruction::Loop(vec![])])]
    );
}

#[test]
fn output_scenario() {
    let mut io = io_with("");
    let (state, done) = run("++.", &mut io, u64::MAX);
    assert!(done);
    assert_eq!(io.output, vec![to_char_8859(2)]);
    assert!(state.outted);
}

#[test]
fn copy_loop_scenario() {
    let mut io = io_with("");
    let (state, done) = run("+[>+<-]", &mut io, u64::MAX);
    assert!(done);
    assert_eq!(state.mem, vec![0, 1]);
    assert_eq!(state.pointer, 0);
}

#[test]
fn input_on_empty_stream_is_a_no_op() {
    let mut io = io_with("");
    let (state, done) = run(",", &mut io, u64::MAX);
    assert!(done);
    assert_eq!(state.mem, vec![0]);
    assert_eq!(state.pointer, 0);
    assert!(!state.outted);
}

#[test]
fn input_goes_through_the_codec() {
    let mut io = io_with("A");
    let (state, done) = run(",.", &mut io, u64::MAX);
    assert!(done);
    assert_eq!(state.mem, vec![0x41]);
    assert_eq!(io.output, vec!['A']);
    assert!(state.outted);
    assert_eq!(io.pos, 1);
}

#[test]
fn input_space_reads_back_as_last_table_entry() {
    let mut io = io_with(" ");
    let (state, done) = run(",", &mut io, u64::MAX);
    assert!(done);
    assert_eq!(state.mem, vec![0x9f]);
}

#[test]
fn forward_grows_the_tape_one_cell_at_a_time() {
    let mut io = io_with("");
    let (state, done) = run(">>", &mut io, u64::MAX);
    assert!(done);
    assert_eq!(state.mem, vec![0, 0, 0]);
    assert_eq!(state.pointer, 2);
}

#[test]
fn backward_at_zero_is_a_no_op() {
    let mut io = io_with("");
    let (state, done) = run("<<", &mut io, u64::MAX);
    assert!(done);
    assert_eq!(state.mem, vec![0]);
    assert_eq!(state.pointer, 0);
}

#[test]
fn backward_does_not_shrink_the_tape() {
    let mut io = io_with("");
    let (state, done) = run(">><", &mut io, u64::MAX);
    assert!(done);
    assert_eq!(state.mem, vec![0, 0, 0]);
    assert_eq!(state.pointer, 1);
}

#[test]
fn decrement_wraps_to_255() {
    let mut io = io_with("");
    let (state, done) = run("-", &mut io, u64::MAX);
    assert!(done);
    assert_eq!(state.mem, vec![255]);
}

#[test]
fn increment_wraps_after_256_steps() {
    let source = "+".repeat(256);
    let mut io = io_with("");
    let (state, done) = run(&source, &mut io, u64::MAX);
    assert!(done);
    assert_eq!(state.mem, vec![0]);
}

#[test]
fn increment_then_decrement_restores_the_cell() {
    let mut io = io_with("");
    let (state, done) = run("+-", &mut io, u64::MAX);
    assert!(done);
    assert_eq!(state.mem, vec![0]);
}

#[test]
fn nested_loops_compose() {
    let mut io = io_with("");
    let (state, done) = run("++[>++[>+<-]<-]", &mut io, u64::MAX);
    assert!(done);
    assert_eq!(state.mem, vec![0, 0, 4]);
    assert_eq!(state.pointer, 0);
}

#[test]
fn loop_body_runs_once_before_the_check() {
    // do-while semantics: the body runs although the cell starts at zero
    let mut io = io_with("");
    let (state, done) = run("[>]", &mut io, u64::MAX);
    assert!(done);
    assert_eq!(state.mem, vec![0, 0]);
    assert_eq!(state.pointer, 1);
}

#[test]
fn endless_loop_stops_at_the_fuel_bound() {
    let mut io = io_with("");
    let (_state, done) = run("+[]", &mut io, 5);
    assert!(!done);
}

#[test]
fn terminating_loop_needs_no_fuel() {
    // one pass through the body zeroes the cell, so no repeat is due
    let mut io = io_with("");
    let (state, done) = run("+[-]", &mut io, 0);
    assert!(done);
    assert_eq!(state.mem, vec![0]);
}

#[test]
fn run_from_state_keeps_the_tape_between_lines() {
    let mut state = State::new();
    let mut io = io_with("");
    assert!(run_from_state("++", &mut state, &mut io, u64::MAX));
    assert!(run_from_state("+", &mut state, &mut io, u64::MAX));
    assert_eq!(state.mem, vec![3]);
}

#[test]
fn outted_flags_interactive_output() {
    let mut state = State::new();
    let mut io = io_with("");
    assert!(run_from_state("+>", &mut state, &mut io, u64::MAX));
    assert!(!state.outted);
    assert!(run_from_state(".", &mut state, &mut io, u64::MAX));
    assert!(state.outted);
}

#[test]
fn execute_runs_a_prepared_tree() {
    let mut state = State::new();
    let mut io = io_with("");
    let prog = vec![Instruction::Increment, Instruction::Increment];
    assert!(execute(&mut state, &prog, &mut io, u64::MAX));
    assert_eq!(state.mem, vec![2]);
}

#[test]
fn loop_end_is_inert_when_executed() {
    let mut state = State::new();
    let mut io = io_with("");
    assert!(execute(&mut state, &vec![Instruction::LoopEnd], &mut io, u64::MAX));
    assert_eq!(state.mem, vec![0]);
    assert_eq!(state.pointer, 0);
    assert!(!state.outted);
}

#[test]
fn single_instruction_dispatch() {
    let mut state = State::new();
    let mut io = io_with("");
    assert!(state.run(&Instruction::Increment, &mut io, 0));
    assert_eq!(state.mem, vec![1]);
    assert!(state.run(&Instruction::Forward, &mut io, 0));
    assert_eq!(state.mem, vec![1, 0]);
    assert_eq!(state.pointer, 1);
}

#[test]
fn hello_style_program_prints_through_the_codec() {
    // 8 * 9 = 72 = 'H'
    let mut io = io_with("");
    let (_state, done) = run("++++++++[>+++++++++<-]>.", &mut io, u64::MAX);
    assert!(done);
    assert_eq!(io.output, vec!['H']);
}
