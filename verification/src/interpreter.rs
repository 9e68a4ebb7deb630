//! The executable stepper: owns the program text, the tape, the two pointers
//! and the open-bracket stack, and advances execution by exactly one source
//! symbol per `step` call, verified against the reference transition in
//! `crate::semantics`.

use crate::semantics::{
    scan_spec, step_spec, AtomicResult, Error, ErrorKind, State, TAPE_LEN,
};
use vstd::prelude::*;
use vstd::string::StrSliceExecFns;

verus! {

/// The stepper. All state is initialized at construction and mutated only by
/// `step`; the program text never changes.
pub struct Interpreter {
    /// Index of the next symbol to evaluate; equal to the program length
    /// once execution is complete.
    pub ip: usize,
    /// Index of the current tape cell.
    pub dp: usize,
    /// Positions of loop-open symbols entered on the taken path whose
    /// matching close has not been reached yet.
    pub opening_brackets: Vec<usize>,
    /// The tape: fixed-length, zero-initialized, wrapping 8-bit cells.
    pub data: Vec<u8>,
    /// The program text.
    pub src: Vec<char>,
}

impl Interpreter {
    /// The ghost machine state this stepper is in.
    pub open spec fn st(self) -> State {
        State {
            src: self.src@,
            data: self.data@,
            ip: self.ip as int,
            dp: self.dp as int,
            stack: self.opening_brackets@.map_values(|p: usize| p as int),
        }
    }

    /// Well-formedness: the tape has its fixed length, the data pointer is
    /// on the tape, and every stacked position lies inside the program.
    pub open spec fn wf(self) -> bool {
        &&& self.data@.len() == TAPE_LEN
        &&& self.dp < TAPE_LEN
        &&& forall|k: int|
            0 <= k < self.opening_brackets@.len() ==> self.opening_brackets@[k]
                < self.src@.len()
    }

    /// A fresh stepper for `src`: pointers at zero, empty bracket stack, and
    /// an all-zero tape.
    pub fn new(src: &str) -> (r: Self)
        ensures
            r.wf(),
            r.st().src == src@,
            r.st().ip == 0,
            r.st().dp == 0,
            r.st().stack == Seq::<int>::empty(),
            r.st().data.len() == TAPE_LEN,
            forall|i: int| 0 <= i < TAPE_LEN ==> r.st().data[i] == 0,
    {
        let n = src.unicode_len();
        let mut chars: Vec<char> = Vec::new();
        let mut i: usize = 0;
        while i < n
            invariant
                i <= n,
                n == src@.len(),
                chars@ =~= src@.subrange(0, i as int),
            decreases n - i,
        {
            chars.push(src.get_char(i));
            i = i + 1;
        }
        let mut data: Vec<u8> = Vec::new();
        while data.len() < TAPE_LEN
            invariant
                data@.len() <= TAPE_LEN,
                forall|j: int| 0 <= j < data@.len() ==> data@[j] == 0,
            decreases TAPE_LEN - data@.len(),
        {
            data.push(0);
        }
        proof {
            assert(chars@ =~= src@);
            assert(Seq::<usize>::empty().map_values(|p: usize| p as int) =~= Seq::<int>::empty());
        }
        Interpreter { ip: 0, dp: 0, opening_brackets: Vec::new(), data, src: chars }
    }

    /// Contents of the cell under the data pointer.
    pub fn current_cell(&self) -> (b: u8)
        requires
            self.wf(),
        ensures
            b == self.st().data[self.st().dp],
    {
        self.data[self.dp]
    }

    /// Indexed read access into the tape; `None` past the tape's end.
    pub fn cell_at(&self, i: usize) -> (r: Option<u8>)
        ensures
            i < self.st().data.len() ==> r == Some(self.st().data[i as int]),
            i >= self.st().data.len() ==> r is None,
    {
        if i < self.data.len() {
            Some(self.data[i])
        } else {
            None
        }
    }

    /// The on-demand bracket-matching scan for a loop-open whose condition
    /// is false: from `start`, the first `]` at nesting depth zero. Reads
    /// only the program text; never touches the tape.
    fn scan_closing(src: &Vec<char>, start: usize) -> (r: Option<usize>)
        requires
            start <= src@.len(),
        ensures
            match r {
                Some(j) => start <= j < src@.len() && scan_spec(src@, start as int, 0) == Some(
                    j as int,
                ),
                None => scan_spec(src@, start as int, 0) is None,
            },
    {
        let mut i: usize = start;
        let mut depth: usize = 0;
        loop
            invariant
                start <= i <= src@.len(),
                depth <= i - start,
                scan_spec(src@, start as int, 0) == scan_spec(src@, i as int, depth as nat),
            decreases src@.len() - i,
        {
            if i == src.len() {
                return None;
            }
            let c = src[i];
            if c == ']' {
                if depth == 0 {
                    return Some(i);
                }
                depth = depth - 1;
            } else if c == '[' {
                depth = depth + 1;
            }
            i = i + 1;
        }
    }

    /// Advance execution by exactly one symbol: evaluate the symbol at the
    /// current instruction pointer, advance the pointer (jumps included),
    /// and report the outcome — precisely the reference transition
    /// `step_spec` applied to the current state. `input` is the byte the
    /// driver has available for the read symbol; it is consumed only by that
    /// symbol, and `None` there fails with `IOError` before any mutation.
    pub fn step(&mut self, input: Option<u8>) -> (r: Result<AtomicResult, Error>)
        requires
            old(self).wf(),
        ensures
            final(self).wf(),
            final(self).st() == step_spec(old(self).st(), input).0,
            r == step_spec(old(self).st(), input).1,
    {
        let ghost pre = self.st();
        if self.ip > self.src.len() {
            return Err(Error { kind: ErrorKind::IPOutOfBounds });
        }
        if self.ip == self.src.len() {
            return Ok(AtomicResult::EndOfProgram);
        }
        let c = self.src[self.ip];
        if c == '>' {
            self.dp = if self.dp + 1 == TAPE_LEN {
                0
            } else {
                self.dp + 1
            };
            self.ip = self.ip + 1;
            proof {
                assert(self.st() =~= step_spec(pre, input).0);
            }
            Ok(AtomicResult::Continue)
        } else if c == '<' {
            self.dp = if self.dp == 0 {
                TAPE_LEN - 1
            } else {
                self.dp - 1
            };
            self.ip = self.ip + 1;
            proof {
                assert(self.st() =~= step_spec(pre, input).0);
            }
            Ok(AtomicResult::Continue)
        } else if c == '+' {
            let b = self.data[self.dp];
            self.data[self.dp] = if b == 255 {
                0
            } else {
                b + 1
            };
            self.ip = self.ip + 1;
            proof {
                assert(self.st() =~= step_spec(pre, input).0);
            }
            Ok(AtomicResult::Continue)
        } else if c == '-' {
            let b = self.data[self.dp];
            self.data[self.dp] = if b == 0 {
                255
            } else {
                b - 1
            };
            self.ip = self.ip + 1;
            proof {
                assert(self.st() =~= step_spec(pre, input).0);
            }
            Ok(AtomicResult::Continue)
        } else if c == '.' {
            let b = self.data[self.dp];
            self.ip = self.ip + 1;
            proof {
                assert(self.st() =~= step_spec(pre, input).0);
            }
            Ok(AtomicResult::Output(b))
        } else if c == ',' {
            match input {
                Some(b) => {
                    self.data[self.dp] = b;
                    self.ip = self.ip + 1;
                    proof {
                        assert(self.st() =~= step_spec(pre, input).0);
                    }
                    Ok(AtomicResult::Continue)
                },
                None => Err(Error { kind: ErrorKind::IOError }),
            }
        } else if c == '[' {
            if self.data[self.dp] != 0 {
                self.opening_brackets.push(self.ip);
                self.ip = self.ip + 1;
                proof {
                    assert(self.st().stack =~= pre.stack.push(pre.ip));
                    assert(self.st() =~= step_spec(pre, input).0);
                }
                Ok(AtomicResult::Continue)
            } else {
                match Self::scan_closing(&self.src, self.ip + 1) {
                    Some(j) => {
                        self.ip = j + 1;
                        proof {
                            assert(self.st() =~= step_spec(pre, input).0);
                        }
                        Ok(AtomicResult::Continue)
                    },
                    None => Err(Error { kind: ErrorKind::MissingClosingBracket { ip: self.ip } }),
                }
            }
        } else if c == ']' {
            if self.data[self.dp] != 0 {
                if self.opening_brackets.len() > 0 {
                    let t = self.opening_brackets[self.opening_brackets.len() - 1];
                    proof {
                        assert(pre.stack.last() == t as int);
                    }
                    self.ip = t + 1;
                    proof {
                        assert(self.st() =~= step_spec(pre, input).0);
                    }
                    Ok(AtomicResult::Continue)
                } else {
                    Err(Error { kind: ErrorKind::MissingOpeningBracket(self.ip) })
                }
            } else {
                if self.opening_brackets.len() > 0 {
                    let _ = self.opening_brackets.pop();
                    self.ip = self.ip + 1;
                    proof {
                        assert(self.st().stack =~= pre.stack.drop_last());
                        assert(self.st() =~= step_spec(pre, input).0);
                    }
                    Ok(AtomicResult::Continue)
                } else {
                    Err(Error { kind: ErrorKind::MissingOpeningBracket(self.ip) })
                }
            }
        } else {
            self.ip = self.ip + 1;
            proof {
                assert(self.st() =~= step_spec(pre, input).0);
            }
            Ok(AtomicResult::Continue)
        }
    }

    /// True when the next `step` call will evaluate the read symbol, so the
    /// driver must supply an input byte.
    pub fn wants_input(&self) -> (r: bool)
        ensures
            r == (self.st().ip < self.st().src.len() && self.st().src[self.st().ip] == ','),
    {
        self.ip < self.src.len() && self.src[self.ip] == ','
    }
}

} // verus!
