//! Reference semantics of the stepper: a ghost machine state and a total
//! transition function that says, for every state and input byte, what one
//! `step` call must do.

use vstd::prelude::*;

verus! {

/// Number of cells on the tape.
pub const TAPE_LEN: usize = 30000;

/// The failure taxonomy. Every failure is terminal for the `step` call that
/// reports it; the stepper never retries internally.
#[derive(Clone, Copy, Debug, PartialEq, Eq)]
pub enum ErrorKind {
    /// The input byte source failed or was exhausted during a read symbol.
    IOError,
    /// A loop-open with a zero condition has no matching close anywhere in
    /// the remaining program; carries the position of the offending `[`.
    MissingClosingBracket { ip: usize },
    /// A `]` was reached with an empty bracket stack; carries its position.
    MissingOpeningBracket(usize),
    /// `step` was invoked with the instruction pointer already strictly past
    /// the end of the program: caller misuse, not a program-text defect.
    IPOutOfBounds,
}

/// A failure returned by `step`.
#[derive(Clone, Copy, Debug, PartialEq, Eq)]
pub struct Error {
    pub kind: ErrorKind,
}

/// The successful outcome of one `step` call.
#[derive(Clone, Copy, Debug, PartialEq, Eq)]
pub enum AtomicResult {
    /// A plain cell/pointer mutation (or a jump, or a no-op symbol) occurred.
    Continue,
    /// The instruction pointer equals the program length: execution is
    /// complete. Terminal and idempotent, not an error.
    EndOfProgram,
    /// The output symbol was evaluated; the caller is responsible for
    /// emitting this byte. The stepper itself performs no output.
    Output(u8),
}

/// The mathematical state of a stepper: the program text, the tape, the two
/// pointers, and the stack of loop-open positions entered on the taken path
/// whose matching close has not been reached yet.
#[verifier::ext_equal]
pub ghost struct State {
    pub src: Seq<char>,
    pub data: Seq<u8>,
    pub ip: int,
    pub dp: int,
    pub stack: Seq<int>,
}

/// Increment a cell, wrapping past 255 back to 0.
pub open spec fn wrap_inc(b: u8) -> u8 {
    if b == 255 {
        0
    } else {
        (b + 1) as u8
    }
}

/// Decrement a cell, wrapping past 0 back to 255.
pub open spec fn wrap_dec(b: u8) -> u8 {
    if b == 0 {
        255
    } else {
        (b - 1) as u8
    }
}

/// Move the data pointer one cell right, modulo the tape length.
pub open spec fn dp_right(dp: int) -> int {
    if dp + 1 == TAPE_LEN {
        0
    } else {
        dp + 1
    }
}

/// Move the data pointer one cell left, wrapping to the last cell from 0.
pub open spec fn dp_left(dp: int) -> int {
    if dp == 0 {
        TAPE_LEN - 1
    } else {
        dp - 1
    }
}

/// Position of the matching `]` for a skip-scan that starts at `i` with
/// `depth` loop-opens already unmatched: the first `]` at depth 0, counting
/// nesting as the scan walks forward. `None` when the program ends first.
pub open spec fn scan_spec(src: Seq<char>, i: int, depth: nat) -> Option<int>
    decreases src.len() - i,
{
    if i < 0 || i >= src.len() {
        None
    } else if src[i] == ']' {
        if depth == 0 {
            Some(i)
        } else {
            scan_spec(src, i + 1, (depth - 1) as nat)
        }
    } else if src[i] == '[' {
        scan_spec(src, i + 1, depth + 1)
    } else {
        scan_spec(src, i + 1, depth)
    }
}

/// The reference transition: the state and outcome after evaluating exactly
/// one symbol of `s`, given the input byte (if any) available to a read
/// symbol. Jump targets already include the unconditional advance by one
/// that follows every evaluation.
pub open spec fn step_spec(s: State, input: Option<u8>) -> (State, Result<AtomicResult, Error>) {
    if s.ip > s.src.len() {
        (s, Err(Error { kind: ErrorKind::IPOutOfBounds }))
    } else if s.ip == s.src.len() {
        (s, Ok(AtomicResult::EndOfProgram))
    } else {
        let c = s.src[s.ip];
        if c == '>' {
            (State { dp: dp_right(s.dp), ip: s.ip + 1, ..s }, Ok(AtomicResult::Continue))
        } else if c == '<' {
            (State { dp: dp_left(s.dp), ip: s.ip + 1, ..s }, Ok(AtomicResult::Continue))
        } else if c == '+' {
            (
                State { data: s.data.update(s.dp, wrap_inc(s.data[s.dp])), ip: s.ip + 1, ..s },
                Ok(AtomicResult::Continue),
            )
        } else if c == '-' {
            (
                State { data: s.data.update(s.dp, wrap_dec(s.data[s.dp])), ip: s.ip + 1, ..s },
                Ok(AtomicResult::Continue),
            )
        } else if c == '.' {
            (State { ip: s.ip + 1, ..s }, Ok(AtomicResult::Output(s.data[s.dp])))
        } else if c == ',' {
            match input {
                Some(b) => (
                    State { data: s.data.update(s.dp, b), ip: s.ip + 1, ..s },
                    Ok(AtomicResult::Continue),
                ),
                None => (s, Err(Error { kind: ErrorKind::IOError })),
            }
        } else if c == '[' {
            if s.data[s.dp] != 0 {
                (State { stack: s.stack.push(s.ip), ip: s.ip + 1, ..s }, Ok(AtomicResult::Continue))
            } else {
                match scan_spec(s.src, s.ip + 1, 0) {
                    Some(j) => (State { ip: j + 1, ..s }, Ok(AtomicResult::Continue)),
                    None => (
                        s,
                        Err(Error { kind: ErrorKind::MissingClosingBracket { ip: s.ip as usize } }),
                    ),
                }
            }
        } else if c == ']' {
            if s.data[s.dp] != 0 {
                if s.stack.len() > 0 {
                    (State { ip: s.stack.last() + 1, ..s }, Ok(AtomicResult::Continue))
                } else {
                    (s, Err(Error { kind: ErrorKind::MissingOpeningBracket(s.ip as usize) }))
                }
            } else {
                if s.stack.len() > 0 {
                    (
                        State { stack: s.stack.drop_last(), ip: s.ip + 1, ..s },
                        Ok(AtomicResult::Continue),
                    )
                } else {
                    (s, Err(Error { kind: ErrorKind::MissingOpeningBracket(s.ip as usize) }))
                }
            }
        } else {
            (State { ip: s.ip + 1, ..s }, Ok(AtomicResult::Continue))
        }
    }
}

/// The cell value after `n` increment transitions: `wrap_inc` is exactly
/// what `step_spec` applies to the current cell for each `+` symbol.
pub open spec fn iter_inc(b: u8, n: nat) -> u8
    decreases n,
{
    if n == 0 {
        b
    } else {
        wrap_inc(iter_inc(b, (n - 1) as nat))
    }
}

/// The cell value after `n` decrement transitions: `wrap_dec` is exactly
/// what `step_spec` applies to the current cell for each `-` symbol.
pub open spec fn iter_dec(b: u8, n: nat) -> u8
    decreases n,
{
    if n == 0 {
        b
    } else {
        wrap_dec(iter_dec(b, (n - 1) as nat))
    }
}

proof fn lemma_iter_inc_mod(b: u8, n: nat)
    ensures
        iter_inc(b, n) == ((b + n) % 256) as u8,
    decreases n,
{
    if n > 0 {
        lemma_iter_inc_mod(b, (n - 1) as nat);
    }
}

proof fn lemma_iter_dec_mod(b: u8, n: nat)
    ensures
        iter_dec(b, n) == ((b + 256 * n - n) % 256) as u8,
    decreases n,
{
    if n > 0 {
        lemma_iter_dec_mod(b, (n - 1) as nat);
    }
}

/// Cell wraparound: 256 increment transitions return a cell to its original
/// value, and so do 256 decrement transitions.
pub proof fn lemma_cell_wraparound(b: u8)
    ensures
        iter_inc(b, 256) == b,
        iter_dec(b, 256) == b,
{
    lemma_iter_inc_mod(b, 256);
    lemma_iter_dec_mod(b, 256);
}

/// Data-pointer wraparound: stepping `<` with the data pointer at cell zero
/// moves it to the last tape cell, and stepping `>` at the last cell moves
/// it back to zero.
pub proof fn lemma_dp_wraparound(s: State, input: Option<u8>)
    requires
        0 <= s.ip < s.src.len(),
    ensures
        s.src[s.ip] == '<' && s.dp == 0 ==> step_spec(s, input).0.dp == TAPE_LEN - 1,
        s.src[s.ip] == '>' && s.dp == TAPE_LEN - 1 ==> step_spec(s, input).0.dp == 0,
{
}

/// Completion is terminal and idempotent: once the instruction pointer
/// equals the program length, every further transition reports
/// `EndOfProgram` and leaves the state unchanged.
pub proof fn lemma_end_of_program_idempotent(s: State, input: Option<u8>)
    requires
        s.ip == s.src.len(),
    ensures
        step_spec(s, input).0 == s,
        step_spec(s, input).1 == Ok::<AtomicResult, Error>(AtomicResult::EndOfProgram),
{
}

/// Only the read symbol consumes input: when the next symbol is anything
/// else (or execution is already complete), the transition is the same
/// whatever byte is supplied. A program without `,` therefore runs the same
/// against every input source.
pub proof fn lemma_input_only_read_by_comma(s: State, i1: Option<u8>, i2: Option<u8>)
    requires
        0 <= s.ip,
        !(s.ip < s.src.len() && s.src[s.ip] == ','),
    ensures
        step_spec(s, i1).0 == step_spec(s, i2).0,
        step_spec(s, i1).1 == step_spec(s, i2).1,
{
    assert(step_spec(s, i1).0 =~= step_spec(s, i2).0);
}

/// A successful skip-scan lands on a `]` inside the program, at or after its
/// starting point.
pub proof fn lemma_scan_spec_in_range(src: Seq<char>, i: int, depth: nat)
    requires
        0 <= i,
    ensures
        scan_spec(src, i, depth) matches Some(j) ==> i <= j < src.len() && src[j] == ']',
    decreases src.len() - i,
{
    if i < src.len() {
        if src[i] == ']' {
            if depth > 0 {
                lemma_scan_spec_in_range(src, i + 1, (depth - 1) as nat);
            }
        } else if src[i] == '[' {
            lemma_scan_spec_in_range(src, i + 1, depth + 1);
        } else {
            lemma_scan_spec_in_range(src, i + 1, depth);
        }
    }
}

/// The running/done state machine is closed under the transition: from a
/// state whose instruction pointer is within `[0, program length]`, whose
/// data pointer is on the tape, and whose stacked positions all lie inside
/// the program, one transition preserves all three bounds, never changes
/// the program text, and never changes the tape's length. Together with the
/// exactness of each step this is the backbone of running any program
/// against the reference semantics.
pub proof fn lemma_transition_preserves_bounds(s: State, input: Option<u8>)
    requires
        0 <= s.ip <= s.src.len(),
        s.data.len() == TAPE_LEN,
        0 <= s.dp < TAPE_LEN,
        forall|k: int| 0 <= k < s.stack.len() ==> 0 <= #[trigger] s.stack[k] < s.src.len(),
    ensures
        0 <= step_spec(s, input).0.ip <= s.src.len(),
        step_spec(s, input).0.src == s.src,
        step_spec(s, input).0.data.len() == TAPE_LEN,
        0 <= step_spec(s, input).0.dp < TAPE_LEN,
        forall|k: int|
            0 <= k < step_spec(s, input).0.stack.len() ==> 0 <= #[trigger] step_spec(
                s,
                input,
            ).0.stack[k] < s.src.len(),
{
    if s.ip < s.src.len() && s.src[s.ip] == '[' && s.data[s.dp] == 0 {
        lemma_scan_spec_in_range(s.src, s.ip + 1, 0);
    }
}

} // verus!
