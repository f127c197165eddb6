use brfk::instructions::Instruction;
use brfk::instructions::parse_code;
use brfk::interpreter::IoError;
use brfk::interpreter::Program;
use brfk::interpreter::TAPE_LEN;

const BUDGET: u64 = 1_000_000;

fn run_source(src: &str, extended: bool) -> Program {
    let ins = parse_code(String::from(src), extended).unwrap();
    let mut prog = Program::new(ins);
    assert!(prog.run(BUDGET));
    prog
}

#[test]
fn pointer_wraps_left_from_zero() {
    let mut prog = Program::new(vec![Instruction::DecPtr]);
    assert_eq!(prog.get_data_ptr(), 0);
    prog.step();
    assert_eq!(prog.get_data_ptr(), 29999);
}

#[test]
fn pointer_wraps_right_from_last_cell() {
    let mut prog = Program::new(vec![Instruction::DecPtr, Instruction::IncPtr]);
    prog.step();
    assert_eq!(prog.get_data_ptr(), 29999);
    prog.step();
    assert_eq!(prog.get_data_ptr(), 0);
}

#[test]
fn value_wraps_below_zero() {
    let mut prog = Program::new(vec![Instruction::DecVal]);
    prog.step();
    assert_eq!(prog.get_val(), 255);
}

#[test]
fn value_wraps_above_255() {
    let mut prog = Program::new(vec![Instruction::DecVal, Instruction::IncVal]);
    prog.step();
    assert_eq!(prog.get_val(), 255);
    prog.step();
    assert_eq!(prog.get_val(), 0);
}

#[test]
fn bitwise_not_twice_restores_the_cell() {
    let prog = run_source("++~~", true);
    assert_eq!(prog.get_val(), 2);
}

#[test]
fn bitwise_not_complements_the_cell() {
    let prog = run_source("+~", true);
    assert_eq!(prog.get_val(), 254);
}

#[test]
fn register_round_trip_restores_the_stored_value() {
    // Store 3, mutate the cell down to 1, recall: the cell is 3 again.
    let prog = run_source("+++$--!", true);
    assert_eq!(prog.get_val(), 3);
    assert_eq!(prog.get_stg(), 3);
}

#[test]
fn output_writes_the_cell_value() {
    let prog = run_source("++.", false);
    assert_eq!(prog.get_output(), &[2]);
}

#[test]
fn add_via_loop_moves_the_value() {
    let prog = run_source("+[>+<-]", false);
    let tape = prog.get_data();
    assert_eq!(tape[0], 0);
    assert_eq!(tape[1], 1);
}

#[test]
fn halt_skips_the_rest_of_the_program() {
    let prog = run_source("@+", true);
    assert!(prog.is_done());
    assert_eq!(prog.get_val(), 0);
}

#[test]
fn halt_symbol_is_a_comment_without_the_flag() {
    let prog = run_source("@+", false);
    assert_eq!(prog.get_val(), 1);
}

#[test]
fn input_reads_one_byte_per_instruction() {
    let ins = parse_code(String::from(",>,"), false).unwrap();
    let mut prog = Program::new(ins);
    prog.provide_input(65);
    prog.provide_input(66);
    assert!(prog.run(BUDGET));
    let tape = prog.get_data();
    assert_eq!(tape[0], 65);
    assert_eq!(tape[1], 66);
    assert!(prog.io_error().is_none());
}

#[test]
fn exhausted_input_is_a_fatal_error() {
    let ins = parse_code(String::from(","), false).unwrap();
    let mut prog = Program::new(ins);
    assert!(!prog.step());
    assert_eq!(prog.io_error(), Some(IoError::InputExhausted));
    // The state at the point of failure remains inspectable.
    assert!(!prog.is_done());
    assert_eq!(prog.get_next_ins(), Some(Instruction::Input));
}

#[test]
fn shifts_are_logical_and_truncate() {
    let prog = run_source("++++}", true);
    assert_eq!(prog.get_val(), 2);
    let prog = run_source("++{", true);
    assert_eq!(prog.get_val(), 4);
    // 128 << 1 truncates to 0: eight increments, doubled four times, then
    // one more shift.
    let prog = run_source("++++++++{{{{{", true);
    assert_eq!(prog.get_val(), 0);
}

#[test]
fn bitwise_ops_combine_cell_and_register() {
    // Cell 3 stored, cell incremented to 4: 4 xor 3 == 7.
    let prog = run_source("+++$+^", true);
    assert_eq!(prog.get_val(), 7);
    // Cell 3 stored, cell incremented to 7: 7 and 3 == 3.
    let prog = run_source("+++$++++&", true);
    assert_eq!(prog.get_val(), 3);
    // Cell 5 stored, cell cleared, incremented to 2: 2 or 5 == 7.
    let prog = run_source("+++++$-----++|", true);
    assert_eq!(prog.get_val(), 7);
}

#[test]
fn forward_jump_on_zero_lands_after_matching_bracket() {
    // "[+]" parses to [JmpFwd(2), IncVal, JmpBk(0)]: with the cell at zero
    // one step lands one past the backward jump, finishing the program
    // without touching the cell.
    let ins = parse_code(String::from("[+]"), false).unwrap();
    let mut prog = Program::new(ins);
    assert!(!prog.step());
    assert!(prog.is_done());
    assert_eq!(prog.get_val(), 0);
}

#[test]
fn backward_jump_on_nonzero_repeats_the_loop_body() {
    let prog = run_source("++[-]", false);
    assert!(prog.is_done());
    assert_eq!(prog.get_val(), 0);
}

#[test]
fn interleaved_input_and_output_keep_their_order() {
    let ins = parse_code(String::from(",.>,."), false).unwrap();
    let mut prog = Program::new(ins);
    prog.provide_input(7);
    prog.provide_input(8);
    assert!(prog.run(BUDGET));
    assert_eq!(prog.get_output(), &[7, 8]);
}

#[test]
fn empty_program_is_done_immediately() {
    let prog = Program::new(vec![]);
    assert!(prog.is_done());
    assert_eq!(prog.get_next_ins(), None);
}

#[test]
fn next_instruction_is_reported_before_stepping() {
    let mut prog = Program::new(vec![Instruction::IncVal]);
    assert_eq!(prog.get_next_ins(), Some(Instruction::IncVal));
    assert!(!prog.step());
    assert_eq!(prog.get_next_ins(), None);
    assert!(prog.is_done());
}

#[test]
fn stepping_a_done_program_is_a_no_op() {
    let mut prog = Program::new(vec![]);
    assert!(!prog.step());
    assert!(!prog.step());
    assert!(prog.is_done());
}

#[test]
fn run_stops_at_the_step_budget() {
    let ins = parse_code(String::from("+[]"), false).unwrap();
    let mut prog = Program::new(ins);
    assert!(!prog.run(10));
    assert!(!prog.is_done());
}

#[test]
fn fresh_tape_is_zeroed() {
    let prog = Program::new(vec![]);
    let tape = prog.get_data();
    assert_eq!(tape.len(), TAPE_LEN);
    assert!(tape.iter().all(|v| *v == 0));
    assert_eq!(prog.get_stg(), 0);
    assert_eq!(prog.get_output(), &[] as &[u8]);
}

#[test]
fn render_formats_pointer_register_and_rows() {
    let prog = run_source("++>+$<", true);
    let dump = prog.render();
    assert!(dump.starts_with("Pointer: 0\nStorage: 1\nData:\n  2,   1,   0, "));
    assert!(dump.ends_with("  0\n"));
    // Header, then per cell three digits plus a separator: a row break for
    // each of the 200 rows of 150 cells, ", " before the 29,800 others.
    let expected = 27 + 200 * 4 + 29800 * 5 + 1;
    assert_eq!(dump.chars().count(), expected);
}

#[test]
fn render_right_aligns_three_digit_values() {
    let prog = run_source("-", false);
    let dump = prog.render();
    assert!(dump.starts_with("Pointer: 0\nStorage: 0\nData:\n255,   0, "));
}
