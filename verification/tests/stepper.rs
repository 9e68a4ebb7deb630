use bf_stepper::interpreter::Interpreter;
use bf_stepper::semantics::{AtomicResult, Error, ErrorKind};

const TAPE_LEN: usize = 30000;

/// Drive a stepper to completion with no input, collecting output bytes.
/// Panics on any failure outcome.
fn run_to_end(it: &mut Interpreter) -> Vec<u8> {
    let mut out = Vec::new();
    loop {
        match it.step(None) {
            Ok(AtomicResult::Continue) => {}
            Ok(AtomicResult::Output(b)) => out.push(b),
            Ok(AtomicResult::EndOfProgram) => return out,
            Err(e) => panic!("unexpected failure: {:?}", e),
        }
    }
}

#[test]
fn dp_wraps_left_from_zero() {
    let mut it = Interpreter::new("<");
    assert_eq!(it.step(None), Ok(AtomicResult::Continue));
    assert_eq!(it.dp, TAPE_LEN - 1);
}

#[test]
fn dp_wraps_right_from_last_cell() {
    let mut it = Interpreter::new("<>");
    assert_eq!(it.step(None), Ok(AtomicResult::Continue));
    assert_eq!(it.dp, TAPE_LEN - 1);
    assert_eq!(it.step(None), Ok(AtomicResult::Continue));
    assert_eq!(it.dp, 0);
}

#[test]
fn cell_wraps_after_256_increments() {
    let src = "+".repeat(256);
    let mut it = Interpreter::new(&src);
    for i in 0..256 {
        assert_eq!(it.step(None), Ok(AtomicResult::Continue));
        let expected = ((i + 1) % 256) as u8;
        assert_eq!(it.current_cell(), expected);
    }
    assert_eq!(it.current_cell(), 0);
    assert_eq!(it.step(None), Ok(AtomicResult::EndOfProgram));
}

#[test]
fn cell_wraps_after_256_decrements() {
    let src = "-".repeat(256);
    let mut it = Interpreter::new(&src);
    assert_eq!(it.step(None), Ok(AtomicResult::Continue));
    assert_eq!(it.current_cell(), 255);
    for _ in 1..256 {
        assert_eq!(it.step(None), Ok(AtomicResult::Continue));
    }
    assert_eq!(it.current_cell(), 0);
    assert_eq!(it.step(None), Ok(AtomicResult::EndOfProgram));
}

#[test]
fn loop_runs_once_then_exits() {
    let mut it = Interpreter::new("+[-]");
    assert_eq!(it.step(None), Ok(AtomicResult::Continue)); // `+`: cell 0 -> 1
    assert_eq!(it.current_cell(), 1);
    assert_eq!(it.step(None), Ok(AtomicResult::Continue)); // `[`: cell 1, enter
    assert_eq!(it.ip, 2);
    assert_eq!(it.step(None), Ok(AtomicResult::Continue)); // `-`: cell 1 -> 0
    assert_eq!(it.current_cell(), 0);
    assert_eq!(it.step(None), Ok(AtomicResult::Continue)); // `]`: cell 0, exit
    assert_eq!(it.ip, 4);
    assert_eq!(it.step(None), Ok(AtomicResult::EndOfProgram));
    assert_eq!(it.current_cell(), 0);
}

#[test]
fn missing_closing_bracket_at_position_zero() {
    let mut it = Interpreter::new("[");
    assert_eq!(
        it.step(None),
        Err(Error { kind: ErrorKind::MissingClosingBracket { ip: 0 } })
    );
}

#[test]
fn missing_opening_bracket_at_position_zero() {
    let mut it = Interpreter::new("]");
    assert_eq!(
        it.step(None),
        Err(Error { kind: ErrorKind::MissingOpeningBracket(0) })
    );
}

#[test]
fn missing_opening_bracket_on_reentry_branch() {
    // `]` with a non-zero cell and an empty stack fails the same way.
    let mut it = Interpreter::new("+]");
    assert_eq!(it.step(None), Ok(AtomicResult::Continue));
    assert_eq!(
        it.step(None),
        Err(Error { kind: ErrorKind::MissingOpeningBracket(1) })
    );
}

#[test]
fn nested_skip_scan_lands_past_outer_bracket() {
    let mut it = Interpreter::new("[[]]");
    assert_eq!(it.step(None), Ok(AtomicResult::Continue));
    assert_eq!(it.ip, 4); // past the outer `]` at position 3, not the inner one
    assert_eq!(it.step(None), Ok(AtomicResult::EndOfProgram));
}

#[test]
fn skip_scan_does_not_touch_the_tape() {
    let mut it = Interpreter::new("[+++]");
    assert_eq!(it.step(None), Ok(AtomicResult::Continue));
    assert_eq!(it.ip, 5);
    for i in 0..8 {
        assert_eq!(it.cell_at(i), Some(0));
    }
}

#[test]
fn output_reports_current_cell() {
    let mut it = Interpreter::new("++.");
    assert_eq!(it.step(None), Ok(AtomicResult::Continue));
    assert_eq!(it.step(None), Ok(AtomicResult::Continue));
    assert_eq!(it.step(None), Ok(AtomicResult::Output(2)));
    assert_eq!(it.current_cell(), 2); // output mutates nothing
    assert_eq!(it.step(None), Ok(AtomicResult::EndOfProgram));
}

#[test]
fn input_byte_is_stored_at_data_pointer() {
    let mut it = Interpreter::new(",.");
    assert!(it.wants_input());
    assert_eq!(it.step(Some(65)), Ok(AtomicResult::Continue));
    assert_eq!(it.current_cell(), 65);
    assert!(!it.wants_input());
    assert_eq!(it.step(None), Ok(AtomicResult::Output(65)));
}

#[test]
fn input_failure_reports_io_error_without_mutation() {
    let mut it = Interpreter::new("+,");
    assert_eq!(it.step(None), Ok(AtomicResult::Continue));
    assert_eq!(it.step(None), Err(Error { kind: ErrorKind::IOError }));
    assert_eq!(it.current_cell(), 1); // tape unchanged
    assert_eq!(it.ip, 1); // instruction pointer unchanged
}

#[test]
fn other_characters_are_no_ops() {
    let mut it = Interpreter::new("a b\n");
    for _ in 0..4 {
        assert_eq!(it.step(None), Ok(AtomicResult::Continue));
    }
    assert_eq!(it.current_cell(), 0);
    assert_eq!(it.dp, 0);
    assert_eq!(it.step(None), Ok(AtomicResult::EndOfProgram));
}

#[test]
fn end_of_program_is_idempotent() {
    let mut it = Interpreter::new("");
    for _ in 0..3 {
        assert_eq!(it.step(None), Ok(AtomicResult::EndOfProgram));
        assert_eq!(it.ip, 0);
    }
}

#[test]
fn ip_past_the_end_is_out_of_bounds() {
    let mut it = Interpreter::new("+");
    it.ip = 2;
    assert_eq!(it.step(None), Err(Error { kind: ErrorKind::IPOutOfBounds }));
}

#[test]
fn accessors_do_not_mutate_state() {
    let mut it = Interpreter::new("+>+");
    assert_eq!(it.step(None), Ok(AtomicResult::Continue));
    assert_eq!(it.step(None), Ok(AtomicResult::Continue));
    for _ in 0..5 {
        assert_eq!(it.ip, 2);
        assert_eq!(it.dp, 1);
        assert_eq!(it.current_cell(), 0);
        assert_eq!(it.cell_at(0), Some(1));
        assert_eq!(it.cell_at(TAPE_LEN), None);
        assert!(!it.wants_input());
    }
    assert_eq!(it.step(None), Ok(AtomicResult::Continue));
    assert_eq!(it.current_cell(), 1);
}

#[test]
fn hello_world_golden_output() {
    let src = "++++++++[>++++[>++>+++>+++>+<<<<-]>+>+>->>+[<]<-]>>.>---.+++++++..+++.>>.<-.<.+++.------.--------.>>+.>++.";
    let mut it = Interpreter::new(src);
    let out = run_to_end(&mut it);
    assert_eq!(out, b"Hello World!\n".to_vec());
}

#[test]
fn balanced_program_reaches_end_with_predicted_tape() {
    // `++>+++<[->>+<<]`: move cell 0 (value 2) onto cell 2, keeping cell 1.
    let mut it = Interpreter::new("++>+++<[->>+<<]");
    let out = run_to_end(&mut it);
    assert!(out.is_empty());
    assert_eq!(it.ip, 15);
    assert_eq!(it.cell_at(0), Some(0));
    assert_eq!(it.cell_at(1), Some(3));
    assert_eq!(it.cell_at(2), Some(2));
}
