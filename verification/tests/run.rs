use bf_interpreter::machine::{Error, Machine};
use bf_interpreter::run::{interpret, Outcome};
use bf_interpreter::tape::Tape;

const PLENTY: u64 = 1_000_000;

#[test]
fn three_increments_and_a_write() {
    let mut tape = Tape::new();
    let done = interpret(&mut tape, "+++.", &[], PLENTY);
    assert_eq!(done.outcome, Outcome::Halted);
    assert_eq!(done.output, vec![3u8]);
    assert_eq!(done.consumed, 0);
}

#[test]
fn read_and_write_echoes_one_byte() {
    let mut tape = Tape::new();
    let done = interpret(&mut tape, ",.", &[65], PLENTY);
    assert_eq!(done.outcome, Outcome::Halted);
    assert_eq!(done.output, vec![65u8]);
    assert_eq!(done.consumed, 1);
}

#[test]
fn only_the_bytes_that_are_read_are_consumed() {
    let mut tape = Tape::new();
    let done = interpret(&mut tape, ",>,.<.", &[1, 2, 3, 4], PLENTY);
    assert_eq!(done.outcome, Outcome::Halted);
    assert_eq!(done.output, vec![2u8, 1]);
    assert_eq!(done.consumed, 2);
}

#[test]
fn multiplication_by_a_loop() {
    let mut tape = Tape::new();
    let done = interpret(&mut tape, "++[>++<-]>.", &[], PLENTY);
    assert_eq!(done.outcome, Outcome::Halted);
    assert_eq!(done.output, vec![4u8]);
    assert_eq!(tape.get(), 4);
    tape.step_left();
    assert_eq!(tape.get(), 0);
}

#[test]
fn nested_loops_multiply() {
    let mut tape = Tape::new();
    let done = interpret(&mut tape, "+++[>+++[>+<-]<-]", &[], PLENTY);
    assert_eq!(done.outcome, Outcome::Halted);
    assert_eq!(done.output, Vec::<u8>::new());
    assert_eq!(tape.get(), 0);
    tape.step_right();
    assert_eq!(tape.get(), 0);
    tape.step_right();
    assert_eq!(tape.get(), 9);
}

#[test]
fn empty_loop_on_zero_changes_nothing() {
    let mut tape = Tape::new();
    tape.step_right();
    tape.set(7);
    tape.step_left();
    let done = interpret(&mut tape, "[]", &[], PLENTY);
    assert_eq!(done.outcome, Outcome::Halted);
    assert_eq!(done.output, Vec::<u8>::new());
    assert_eq!(tape.get(), 0);
    tape.step_right();
    assert_eq!(tape.get(), 7);
}

#[test]
fn empty_loop_on_zero_takes_one_step() {
    let mut tape = Tape::new();
    let done = interpret(&mut tape, "[]", &[], 2);
    assert_eq!(done.outcome, Outcome::Halted);
    let mut tape = Tape::new();
    let done = interpret(&mut tape, "[]", &[], 1);
    assert_eq!(done.outcome, Outcome::Unfinished);
}

#[test]
fn empty_loop_on_a_set_cell_never_ends() {
    let mut tape = Tape::new();
    let done = interpret(&mut tape, "+[]", &[], 10_000);
    assert_eq!(done.outcome, Outcome::Unfinished);
    assert_eq!(tape.get(), 1);
}

#[test]
fn clearing_loop_takes_two_steps_for_each_pass() {
    for value in [1u8, 2, 3, 100, 254, 255] {
        let steps = 2 * u64::from(value) + 2;
        let mut tape = Tape::new();
        tape.set(value);
        let done = interpret(&mut tape, "[-]", &[], steps);
        assert_eq!(done.outcome, Outcome::Halted);
        assert_eq!(tape.get(), 0);
        assert_eq!(done.output, Vec::<u8>::new());

        let mut tape = Tape::new();
        tape.set(value);
        let done = interpret(&mut tape, "[-]", &[], steps - 1);
        assert_eq!(done.outcome, Outcome::Unfinished);
        assert_eq!(tape.get(), 0);

        let mut tape = Tape::new();
        tape.set(value);
        let done = interpret(&mut tape, "[-]", &[], steps - 2);
        assert_eq!(done.outcome, Outcome::Unfinished);
        assert_eq!(tape.get(), 0);

        let mut tape = Tape::new();
        tape.set(value);
        let done = interpret(&mut tape, "[-]", &[], steps - 3);
        assert_eq!(done.outcome, Outcome::Unfinished);
        assert_eq!(tape.get(), 1);
    }
}

#[test]
fn clearing_loop_leaves_the_other_cells_alone() {
    let mut tape = Tape::new();
    tape.step_left();
    tape.set(11);
    tape.step_right();
    tape.step_right();
    tape.set(22);
    tape.step_left();
    tape.set(5);
    let done = interpret(&mut tape, "[-]", &[], PLENTY);
    assert_eq!(done.outcome, Outcome::Halted);
    assert_eq!(tape.get(), 0);
    tape.step_left();
    assert_eq!(tape.get(), 11);
    tape.step_right();
    tape.step_right();
    assert_eq!(tape.get(), 22);
}

#[test]
fn unexpected_character_aborts_before_any_output() {
    let mut tape = Tape::new();
    let done = interpret(&mut tape, "++@.", &[], PLENTY);
    assert_eq!(
        done.outcome,
        Outcome::Aborted(Error::UnexpectedCharacter { character: '@', position: 2 })
    );
    assert_eq!(done.output, Vec::<u8>::new());
    assert_eq!(tape.get(), 2);
}

#[test]
fn unexpected_character_keeps_the_output_written_before_it() {
    let mut tape = Tape::new();
    let done = interpret(&mut tape, "+.+.@.", &[], PLENTY);
    assert_eq!(
        done.outcome,
        Outcome::Aborted(Error::UnexpectedCharacter { character: '@', position: 2 })
    );
    assert_eq!(done.output, vec![1u8, 2]);
}

#[test]
fn unexpected_character_in_a_loop_that_never_runs_is_not_met() {
    let mut tape = Tape::new();
    let done = interpret(&mut tape, "[@]+.", &[], PLENTY);
    assert_eq!(done.outcome, Outcome::Halted);
    assert_eq!(done.output, vec![1u8]);
}

#[test]
fn read_past_the_end_of_the_input_aborts() {
    let mut tape = Tape::new();
    let done = interpret(&mut tape, ",.,.", &[7], PLENTY);
    assert_eq!(done.outcome, Outcome::Aborted(Error::InputExhausted));
    assert_eq!(done.output, vec![7u8]);
    assert_eq!(done.consumed, 1);
    assert_eq!(tape.get(), 7);
}

#[test]
fn read_from_empty_input_aborts() {
    let mut tape = Tape::new();
    let done = interpret(&mut tape, ",", &[], PLENTY);
    assert_eq!(done.outcome, Outcome::Aborted(Error::InputExhausted));
    assert_eq!(done.consumed, 0);
}

#[test]
fn unclosed_loop_takes_the_rest_of_the_code_as_its_body() {
    let mut tape = Tape::new();
    let done = interpret(&mut tape, "+++[.-", &[], PLENTY);
    assert_eq!(done.outcome, Outcome::Halted);
    assert_eq!(done.output, vec![3u8, 2, 1]);
    assert_eq!(tape.get(), 0);
}

#[test]
fn loop_body_is_scanned_again_on_every_pass() {
    let mut tape = Tape::new();
    let done = interpret(&mut tape, "++[>+[-]+[>+<-]<-]>>.", &[], PLENTY);
    assert_eq!(done.outcome, Outcome::Halted);
    assert_eq!(done.output, vec![2u8]);
}

#[test]
fn blanks_between_instructions_are_skipped() {
    let mut tape = Tape::new();
    let done = interpret(&mut tape, " +\t+\r\n[ > + < - ]\n> .", &[], PLENTY);
    assert_eq!(done.outcome, Outcome::Halted);
    assert_eq!(done.output, vec![2u8]);
}

#[test]
fn limit_of_zero_takes_no_step() {
    let mut tape = Tape::new();
    let done = interpret(&mut tape, "+.", &[], 0);
    assert_eq!(done.outcome, Outcome::Unfinished);
    assert_eq!(done.output, Vec::<u8>::new());
    assert_eq!(tape.get(), 0);
}

#[test]
fn a_run_can_be_taken_up_again() {
    let mut tape = Tape::new();
    let mut machine = Machine::new("+.,.+.");
    let first = machine.run(&mut tape, &[40], 3);
    assert_eq!(first.outcome, Outcome::Unfinished);
    assert_eq!(first.output, vec![1u8]);
    assert_eq!(first.consumed, 1);
    let second = machine.run(&mut tape, &[], PLENTY);
    assert_eq!(second.outcome, Outcome::Halted);
    assert_eq!(second.output, vec![40u8, 41]);
    assert_eq!(second.consumed, 0);
}

#[test]
fn cells_wrap_while_a_program_runs() {
    let mut tape = Tape::new();
    let done = interpret(&mut tape, "-.+.", &[], PLENTY);
    assert_eq!(done.outcome, Outcome::Halted);
    assert_eq!(done.output, vec![255u8, 0]);
}

#[test]
fn hello() {
    let code = "++++++++[>++++[>++>+++>+++>+<<<<-]>+>+>->>+[<]<-]>>.>---.+++++++..+++.";
    let mut tape = Tape::new();
    let done = interpret(&mut tape, code, &[], PLENTY);
    assert_eq!(done.outcome, Outcome::Halted);
    assert_eq!(done.output, b"Hello".to_vec());
}
