use tape_machine::{Fault, OutputMode, Parser, Runtime, Token};

fn load(source: &str, mode: OutputMode, input: &str) -> Runtime {
    let program = Parser::new(String::from(source)).parse();
    Runtime::new(program, mode, input.chars().collect())
}

fn written(rt: &Runtime) -> String {
    rt.output().iter().collect()
}

#[test]
fn three_increments_then_write_emits_code_point_three() {
    let mut rt = load("+++.", OutputMode::Character, "");
    assert_eq!(rt.run(100), Ok(()));
    assert!(!rt.has_next());
    assert_eq!(rt.output(), &vec!['\u{3}']);
    assert_eq!(rt.current(), 3);
}

#[test]
fn a_decrement_loop_drains_its_cell() {
    let mut rt = load("+++++[-]", OutputMode::Character, "");
    assert_eq!(rt.run(1000), Ok(()));
    assert!(!rt.has_next());
    assert_eq!(rt.current(), 0);
    assert_eq!(rt.mem_ptr(), 0);
    assert_eq!(rt.memory(), &vec![0]);
    assert_eq!(rt.loop_depth(), 0);
    assert_eq!(rt.index(), 8);
}

#[test]
fn a_decrement_loop_takes_three_instructions_per_round() {
    // Five increments, then five rounds of `[`, `-`, `]`.
    let mut rt = load("+++++[-]", OutputMode::Character, "");
    assert_eq!(rt.run(5 + 3 * 5 - 1), Ok(()));
    assert!(rt.has_next());
    assert_eq!(rt.run(1), Ok(()));
    assert!(!rt.has_next());
}

#[test]
fn a_transfer_loop_that_reaches_zero_ends() {
    // The loop cell is 1 and one round takes it to zero, so the loop is
    // left after its first round.
    let mut rt = load("+[>+<-]", OutputMode::Character, "");
    assert_eq!(rt.run(7), Ok(()));
    assert!(!rt.has_next());
    assert_eq!(rt.memory(), &vec![0, 1]);
    assert_eq!(rt.mem_ptr(), 0);
}

#[test]
fn a_loop_whose_cell_never_reaches_zero_only_stops_at_its_budget() {
    let mut rt = load("+[]", OutputMode::Character, "");
    assert_eq!(rt.run(1_000_000), Ok(()));
    assert!(rt.has_next());
    assert_eq!(rt.current(), 1);
    assert!(rt.index() == 1 || rt.index() == 2);
    assert!(rt.loop_depth() <= 1);
    // More budget changes nothing about that.
    assert_eq!(rt.run(1_000_001), Ok(()));
    assert!(rt.has_next());
    assert_eq!(written(&rt), "");
}

#[test]
fn a_growing_loop_only_stops_at_its_budget() {
    // One `+`, then rounds of `[`, `>`, `+`, `]`, each one cell further on.
    let mut rt = load("+[>+]", OutputMode::Numeric, "");
    assert_eq!(rt.run(1 + 4 * 750), Ok(()));
    assert!(rt.has_next());
    assert_eq!(rt.mem_ptr(), 750);
    assert_eq!(rt.memory().len(), 751);
    assert!(rt.memory().iter().all(|cell| *cell == 1));
}

#[test]
fn a_stray_loop_end_faults_before_any_output() {
    let mut rt = load("]", OutputMode::Character, "");
    assert_eq!(rt.run(10), Err(Fault::UnmatchedLoopEnd));
    assert_eq!(written(&rt), "");
    assert_eq!(rt.index(), 0);
    assert!(rt.has_next());
}

#[test]
fn a_stray_loop_end_faults_whatever_the_cell_holds() {
    let mut rt = load("+]", OutputMode::Numeric, "");
    assert_eq!(rt.run(10), Err(Fault::UnmatchedLoopEnd));
    assert_eq!(rt.index(), 1);
    let mut rt = load(".]", OutputMode::Numeric, "");
    assert_eq!(rt.run(10), Err(Fault::UnmatchedLoopEnd));
    assert_eq!(written(&rt), "0\n");
}

#[test]
fn a_second_loop_end_is_unmatched() {
    let mut rt = load("[]]", OutputMode::Numeric, "");
    assert_eq!(rt.run(10), Err(Fault::UnmatchedLoopEnd));
    assert_eq!(rt.index(), 2);
}

#[test]
fn moving_left_at_cell_zero_faults() {
    let mut rt = load("<", OutputMode::Character, "");
    assert_eq!(rt.run(10), Err(Fault::PointerUnderflow));
    assert_eq!(rt.mem_ptr(), 0);
    assert_eq!(rt.index(), 0);
}

#[test]
fn moving_left_after_moving_right_is_fine() {
    let mut rt = load("><", OutputMode::Character, "");
    assert_eq!(rt.run(10), Ok(()));
    assert_eq!(rt.mem_ptr(), 0);
    let mut rt = load("><<", OutputMode::Character, "");
    assert_eq!(rt.run(10), Err(Fault::PointerUnderflow));
    assert_eq!(rt.index(), 2);
}

#[test]
fn sample_program_writes_72_in_numeric_mode() {
    let mut rt = load(">+++++++++[<++++++++>-]<.", OutputMode::Numeric, "");
    assert_eq!(rt.run(10_000), Ok(()));
    assert!(!rt.has_next());
    assert_eq!(written(&rt), "72\n");
    assert_eq!(rt.current(), 72);
    assert_eq!(rt.memory(), &vec![72, 0]);
}

#[test]
fn sample_program_writes_an_h_in_character_mode() {
    let mut rt = load(">+++++++++[<++++++++>-]<.", OutputMode::Character, "");
    assert_eq!(rt.run(10_000), Ok(()));
    assert_eq!(written(&rt), "H");
}

#[test]
fn the_tape_grows_under_a_pointer_that_moves_right() {
    let n: usize = 5000;
    let mut program: Vec<Token> = Vec::new();
    for _ in 0..n {
        program.push(Token::Right);
        program.push(Token::Plus);
    }
    let mut rt = Runtime::new(program, OutputMode::Character, Vec::new());
    assert_eq!(rt.run(2 * n as u64), Ok(()));
    assert!(!rt.has_next());
    assert_eq!(rt.mem_ptr(), n);
    assert_eq!(rt.memory().len(), n + 1);
    assert_eq!(rt.memory()[0], 0);
    assert!(rt.memory()[1..].iter().all(|cell| *cell == 1));
}

#[test]
fn the_tape_starts_empty_and_grows_before_each_instruction() {
    let mut rt = load(">>+", OutputMode::Character, "");
    assert_eq!(rt.memory(), &vec![]);
    assert_eq!(rt.current(), 0);
    assert_eq!(rt.step(), Ok(()));
    assert_eq!(rt.memory(), &vec![0]);
    assert_eq!(rt.step(), Ok(()));
    assert_eq!(rt.memory(), &vec![0, 0]);
    assert_eq!(rt.current(), 0);
    assert_eq!(rt.step(), Ok(()));
    assert_eq!(rt.memory(), &vec![0, 0, 1]);
    assert_eq!(rt.current(), 1);
}

#[test]
fn the_tape_grows_even_where_the_instruction_faults() {
    let mut rt = load("]", OutputMode::Character, "");
    assert_eq!(rt.step(), Err(Fault::UnmatchedLoopEnd));
    assert_eq!(rt.memory(), &vec![0]);
}

#[test]
fn the_tape_never_shrinks() {
    // The first `<` finds the pointer at 3, and the tape is grown to hold
    // that cell before the pointer moves back.
    let mut rt = load(">>><<<+", OutputMode::Character, "");
    assert_eq!(rt.run(100), Ok(()));
    assert_eq!(rt.memory(), &vec![1, 0, 0, 0]);
    assert_eq!(rt.mem_ptr(), 0);
}

#[test]
fn writing_a_negative_cell_as_a_character_faults() {
    let mut rt = load("+.--.+.", OutputMode::Character, "");
    assert_eq!(rt.run(100), Err(Fault::NegativeOutputValue));
    // What was written before the fault stays.
    assert_eq!(rt.output(), &vec!['\u{1}']);
    assert_eq!(rt.index(), 4);
    assert_eq!(rt.current(), -1);
}

#[test]
fn writing_a_negative_cell_as_a_number_is_fine() {
    let mut rt = load("-.-.", OutputMode::Numeric, "");
    assert_eq!(rt.run(100), Ok(()));
    assert_eq!(written(&rt), "-1\n-2\n");
}

#[test]
fn writing_zero() {
    let mut rt = load(".", OutputMode::Numeric, "");
    assert_eq!(rt.run(100), Ok(()));
    assert_eq!(written(&rt), "0\n");
    let mut rt = load(".", OutputMode::Character, "");
    assert_eq!(rt.run(100), Ok(()));
    assert_eq!(rt.output(), &vec!['\0']);
}

#[test]
fn numeric_mode_separates_values_by_line_feeds() {
    let mut rt = load("+.+++++++++.>.", OutputMode::Numeric, "");
    assert_eq!(rt.run(100), Ok(()));
    assert_eq!(written(&rt), "1\n10\n0\n");
}

#[test]
fn character_mode_writes_the_character_with_the_cells_code_point() {
    let mut program: Vec<Token> = vec![Token::Plus; 0x41];
    program.push(Token::Output);
    let mut more: Vec<Token> = vec![Token::Plus; 0xe9 - 0x41];
    program.append(&mut more);
    program.push(Token::Output);
    let mut rt = Runtime::new(program, OutputMode::Character, Vec::new());
    assert_eq!(rt.run(1000), Ok(()));
    assert_eq!(rt.output(), &vec!['A', '\u{e9}']);
}

#[test]
fn a_surrogate_value_is_written_as_nul() {
    let mut program: Vec<Token> = vec![Token::Plus; 0xd7ff];
    program.push(Token::Output);
    program.push(Token::Plus);
    program.push(Token::Output);
    let mut more: Vec<Token> = vec![Token::Plus; 0xdfff - 0xd800];
    program.append(&mut more);
    program.push(Token::Output);
    program.push(Token::Plus);
    program.push(Token::Output);
    let mut rt = Runtime::new(program, OutputMode::Character, Vec::new());
    assert_eq!(rt.run(100_000), Ok(()));
    assert!(!rt.has_next());
    assert_eq!(rt.output(), &vec!['\u{d7ff}', '\0', '\0', '\u{e000}']);
}

#[test]
fn a_value_above_the_last_code_point_is_written_as_nul() {
    let mut program: Vec<Token> = vec![Token::Plus; 0x10ffff];
    program.push(Token::Output);
    program.push(Token::Plus);
    program.push(Token::Output);
    let mut rt = Runtime::new(program, OutputMode::Character, Vec::new());
    assert_eq!(rt.run(2_000_000), Ok(()));
    assert!(!rt.has_next());
    assert_eq!(rt.output(), &vec!['\u{10ffff}', '\0']);
    assert_eq!(rt.current(), 0x110000);
}

#[test]
fn a_read_without_input_faults() {
    let mut rt = load("+,", OutputMode::Character, "");
    assert_eq!(rt.run(100), Err(Fault::UnimplementedInput));
    assert_eq!(rt.index(), 1);
    assert_eq!(rt.current(), 1);
}

#[test]
fn a_read_stores_the_code_point_of_the_next_character() {
    let mut rt = load(",>,>,", OutputMode::Numeric, "A\u{e9}\u{1f600}");
    assert_eq!(rt.run(100), Ok(()));
    assert_eq!(rt.memory(), &vec![0x41, 0xe9, 0x1f600]);
}

#[test]
fn a_read_replaces_what_the_cell_held() {
    let mut rt = load("+++++,.", OutputMode::Numeric, "\u{2}");
    assert_eq!(rt.run(100), Ok(()));
    assert_eq!(written(&rt), "2\n");
}

#[test]
fn reading_past_the_end_of_the_input_faults() {
    let mut rt = load(",.,.,.", OutputMode::Character, "ab");
    assert_eq!(rt.run(100), Err(Fault::UnimplementedInput));
    assert_eq!(written(&rt), "ab");
    assert_eq!(rt.index(), 4);
    // The cell keeps what was read last.
    assert_eq!(rt.current(), 'b' as i32);
}

#[test]
fn character_mode_echoes_its_input() {
    let mut rt = load(",.,.,.,.", OutputMode::Character, "h\u{e9}\u{4e16}\u{1f600}");
    assert_eq!(rt.run(100), Ok(()));
    assert_eq!(written(&rt), "h\u{e9}\u{4e16}\u{1f600}");
}

#[test]
fn unread_input_is_no_error() {
    let mut rt = load(",.", OutputMode::Character, "xyz");
    assert_eq!(rt.run(100), Ok(()));
    assert_eq!(written(&rt), "x");
}

#[test]
fn a_fault_is_final() {
    let mut rt = load("+.<+.", OutputMode::Numeric, "");
    assert_eq!(rt.run(100), Err(Fault::PointerUnderflow));
    assert_eq!(rt.index(), 2);
    assert_eq!(rt.step(), Err(Fault::PointerUnderflow));
    assert_eq!(rt.run(100), Err(Fault::PointerUnderflow));
    assert_eq!(rt.index(), 2);
    assert_eq!(written(&rt), "1\n");
    assert_eq!(rt.memory(), &vec![1]);
}

#[test]
fn an_empty_program_has_nothing_to_do() {
    let mut rt = load("", OutputMode::Character, "abc");
    assert!(!rt.has_next());
    assert_eq!(rt.step(), Ok(()));
    assert_eq!(rt.run(10), Ok(()));
    assert_eq!(rt.memory(), &vec![]);
    assert_eq!(rt.index(), 0);
    assert_eq!(written(&rt), "");
}

#[test]
fn step_does_nothing_once_the_program_has_ended() {
    let mut rt = load("+", OutputMode::Character, "");
    assert_eq!(rt.step(), Ok(()));
    assert!(!rt.has_next());
    assert_eq!(rt.step(), Ok(()));
    assert_eq!(rt.index(), 1);
    assert_eq!(rt.memory(), &vec![1]);
}

#[test]
fn a_budget_of_zero_executes_nothing() {
    let mut rt = load("<", OutputMode::Character, "");
    assert_eq!(rt.run(0), Ok(()));
    assert!(rt.has_next());
    assert_eq!(rt.memory(), &vec![]);
}

#[test]
fn a_fault_behind_the_budget_is_not_reported_yet() {
    let mut rt = load("++<", OutputMode::Character, "");
    assert_eq!(rt.run(2), Ok(()));
    assert!(rt.has_next());
    assert_eq!(rt.run(1), Err(Fault::PointerUnderflow));
}

#[test]
fn running_in_slices_is_running_at_once() {
    let source = "++++[>+++[>++<-]<-]>>.,.";
    let mut whole = load(source, OutputMode::Numeric, "z");
    assert_eq!(whole.run(10_000), Ok(()));
    assert!(!whole.has_next());
    for slice in [1u64, 2, 3, 7, 50] {
        let mut parts = load(source, OutputMode::Numeric, "z");
        let mut rounds = 0;
        while parts.has_next() {
            assert_eq!(parts.run(slice), Ok(()));
            rounds += 1;
            assert!(rounds < 10_000);
        }
        assert_eq!(parts.memory(), whole.memory());
        assert_eq!(parts.mem_ptr(), whole.mem_ptr());
        assert_eq!(parts.index(), whole.index());
        assert_eq!(parts.output(), whole.output());
    }
    assert_eq!(written(&whole), "24\n122\n");
}

#[test]
fn run_is_a_sequence_of_steps() {
    let source = "++[>+<-]>.";
    let mut by_run = load(source, OutputMode::Numeric, "");
    let mut by_step = load(source, OutputMode::Numeric, "");
    assert_eq!(by_run.run(9), Ok(()));
    for _ in 0..9 {
        assert_eq!(by_step.step(), Ok(()));
    }
    assert_eq!(by_run.index(), by_step.index());
    assert_eq!(by_run.memory(), by_step.memory());
    assert_eq!(by_run.mem_ptr(), by_step.mem_ptr());
    assert_eq!(by_run.loop_depth(), by_step.loop_depth());
}

#[test]
fn nested_loops_multiply() {
    let mut rt = load("++[>+++[>++++<-]<-]>>.", OutputMode::Numeric, "");
    assert_eq!(rt.run(10_000), Ok(()));
    assert_eq!(written(&rt), "24\n");
    assert_eq!(rt.memory(), &vec![0, 0, 24]);
    assert_eq!(rt.loop_depth(), 0);
}

#[test]
fn the_loop_depth_is_the_number_of_open_loops() {
    let mut rt = load("+[[[-]]]", OutputMode::Numeric, "");
    let mut depths: Vec<usize> = Vec::new();
    while rt.has_next() {
        assert_eq!(rt.step(), Ok(()));
        depths.push(rt.loop_depth());
    }
    assert_eq!(depths, vec![0, 1, 2, 3, 3, 2, 1, 0]);
}

#[test]
fn a_loop_end_on_a_non_zero_cell_goes_back_to_its_loop_start() {
    let mut rt = load("++[-]", OutputMode::Numeric, "");
    let mut trace: Vec<(usize, usize)> = Vec::new();
    while rt.has_next() {
        trace.push((rt.index(), rt.loop_depth()));
        assert_eq!(rt.step(), Ok(()));
    }
    // The `[` at 2 is executed again in the second round and opens the
    // loop anew: the depth never passes 1.
    assert_eq!(trace, vec![(0, 0), (1, 0), (2, 0), (3, 1), (4, 1), (2, 0), (3, 1), (4, 1)]);
    assert_eq!(rt.index(), 5);
    assert_eq!(rt.loop_depth(), 0);
}

#[test]
fn a_loop_body_runs_once_even_on_a_zero_cell() {
    let mut rt = load("[.]", OutputMode::Numeric, "");
    assert_eq!(rt.run(100), Ok(()));
    assert!(!rt.has_next());
    assert_eq!(written(&rt), "0\n");
}

#[test]
fn an_unclosed_loop_is_no_fault() {
    let mut rt = load("+[[+", OutputMode::Numeric, "");
    assert_eq!(rt.run(100), Ok(()));
    assert!(!rt.has_next());
    assert_eq!(rt.loop_depth(), 2);
    assert_eq!(rt.current(), 2);
}

#[test]
fn decrement_below_zero_goes_negative() {
    let mut rt = load("---", OutputMode::Numeric, "");
    assert_eq!(rt.run(100), Ok(()));
    assert_eq!(rt.current(), -3);
}

#[test]
fn take_output_hands_over_what_was_written_and_leaves_the_run_alone() {
    let mut rt = load("+.+.+.", OutputMode::Numeric, "");
    assert_eq!(rt.run(4), Ok(()));
    assert_eq!(rt.take_output(), vec!['1', '\n', '2', '\n']);
    assert_eq!(rt.output(), &vec![]);
    assert_eq!(rt.index(), 4);
    assert_eq!(rt.run(100), Ok(()));
    assert_eq!(rt.take_output(), vec!['3', '\n']);
    assert_eq!(rt.take_output(), vec![]);
    assert_eq!(rt.current(), 3);
}

#[test]
fn a_fresh_runtime_is_at_the_start() {
    let rt = Runtime::new(vec![Token::Plus, Token::Output], OutputMode::Character, vec!['a']);
    assert!(rt.has_next());
    assert_eq!(rt.index(), 0);
    assert_eq!(rt.mem_ptr(), 0);
    assert_eq!(rt.current(), 0);
    assert_eq!(rt.loop_depth(), 0);
    assert_eq!(rt.memory(), &vec![]);
    assert_eq!(rt.output(), &vec![]);
}
