//! Small-step semantics of the tape machine.
//!
//! A [`MachineState`] is the mathematical state of one execution: the program
//! and input as character sequences, the program counter, the tape, the data
//! pointer, the stack of open-loop positions, the input cursor and the output
//! accumulated so far. [`step`] gives the effect of dispatching one
//! instruction (including the uniform advance of the program counter that
//! follows every dispatch), and [`run_prog`] iterates it under a fuel bound.
//! The executable interpreter is proved to return exactly what
//! [`interp_spec`] computes.

use vstd::prelude::*;

verus! {

/// Number of cells on the tape.
pub const TAPE_LEN: usize = 30000;

/// How one interpreter invocation can fail.
///
/// A malformed program is reported with the position of the offending
/// bracket in the program; a well-formed program can only fail by running
/// longer than the caller's step budget allows.
#[derive(Clone, Copy, Debug, PartialEq, Eq, Structural)]
pub enum BfError {
    /// A `[` whose forward scan for the matching `]` ran past the end of
    /// the program. The payload is the position of the `[`.
    UnmatchedOpen { pos: usize },
    /// A `]` reached while no loop is open. The payload is the position of
    /// the `]`.
    UnmatchedClose { pos: usize },
    /// Execution did not finish within the caller's step budget.
    StepLimitExceeded,
}

/// The full state of one execution, as mathematical values.
#[verifier::ext_equal]
pub ghost struct MachineState {
    /// The instruction stream, read-only during execution.
    pub prog: Seq<char>,
    /// The input string, consumed one character per `,`.
    pub inp: Seq<char>,
    /// The program counter: an index into `prog`.
    pub pc: usize,
    /// The data pointer: an index into `tape`.
    pub ptr: usize,
    /// The circular tape of `TAPE_LEN` byte cells.
    pub tape: Seq<u8>,
    /// Positions of the `[` of each currently-open loop, innermost last.
    pub stack: Seq<usize>,
    /// The input cursor: how many input characters were consumed so far.
    pub in_pos: usize,
    /// The output produced so far.
    pub out: Seq<char>,
}

/// The result of dispatching one instruction.
pub ghost enum StepResult {
    /// Execution continues in the given state.
    Next(MachineState),
    /// The program is malformed at the current instruction.
    Fail(BfError),
}

/// Outcome of running for a bounded number of steps.
pub ghost enum RunOutcome {
    /// The program counter reached the end of the program; the payload is
    /// the final state.
    Done(MachineState),
    /// A malformed bracket was hit.
    Fail(BfError),
    /// The fuel ran out before execution finished.
    Pending,
}

/// Moving the data pointer one cell to the right, circularly.
pub open spec fn ptr_right(p: usize) -> usize {
    (((p + 1) as int) % (TAPE_LEN as int)) as usize
}

/// Moving the data pointer one cell to the left, circularly.
pub open spec fn ptr_left(p: usize) -> usize {
    ((p + (TAPE_LEN as int) - 1) % (TAPE_LEN as int)) as usize
}

/// Incrementing a cell, wrapping 255 back to 0.
pub open spec fn cell_inc(v: u8) -> u8 {
    if v == 255 {
        0u8
    } else {
        (v + 1) as u8
    }
}

/// Decrementing a cell, wrapping 0 back to 255.
pub open spec fn cell_dec(v: u8) -> u8 {
    if v == 0 {
        255u8
    } else {
        (v - 1) as u8
    }
}

/// The byte stored by `,`: the character's code point truncated to its low
/// eight bits.
pub open spec fn char_code_byte(c: char) -> u8 {
    (((c as u32) as int) % 256) as u8
}

/// The character appended by `.`: the one whose code point equals the cell
/// value.
pub open spec fn cell_char(v: u8) -> char {
    v as char
}

/// Position of the `]` that closes the bracket whose scan is in progress:
/// scanning `prog` from position `i` with `depth` opens outstanding, the
/// position where the depth first returns to zero, or `None` if the scan
/// runs past the end of the program.
pub open spec fn find_close(prog: Seq<char>, i: int, depth: int) -> Option<int>
    decreases prog.len() - i,
{
    if i < 0 || i >= prog.len() || depth <= 0 {
        None
    } else {
        let d = if prog[i] == '[' {
            depth + 1
        } else if prog[i] == ']' {
            depth - 1
        } else {
            depth
        };
        if d == 0 {
            Some(i)
        } else {
            find_close(prog, i + 1, d)
        }
    }
}

/// States the machine can actually be in: the tape has its fixed length,
/// all indices are in range, and the recorded loop positions lie inside the
/// program.
pub open spec fn wf(s: MachineState) -> bool {
    &&& s.tape.len() == TAPE_LEN
    &&& s.ptr < TAPE_LEN
    &&& s.pc <= s.prog.len()
    &&& s.prog.len() <= usize::MAX
    &&& s.in_pos <= s.inp.len()
    &&& s.inp.len() <= usize::MAX
    &&& forall|k: int| 0 <= k < s.stack.len() ==> s.stack[k] < s.prog.len()
}

/// The effect of dispatching the instruction at `s.pc`, including the
/// uniform advance of the program counter by one that follows every
/// dispatch (so a `]` that jumps records the open bracket's own position and
/// lands on the instruction after it). Characters outside the opcode set
/// advance the program counter and change nothing else.
pub open spec fn step(s: MachineState) -> StepResult {
    let c = s.prog[s.pc as int];
    if c == '>' {
        StepResult::Next(MachineState { pc: (s.pc + 1) as usize, ptr: ptr_right(s.ptr), ..s })
    } else if c == '<' {
        StepResult::Next(MachineState { pc: (s.pc + 1) as usize, ptr: ptr_left(s.ptr), ..s })
    } else if c == '+' {
        StepResult::Next(
            MachineState {
                pc: (s.pc + 1) as usize,
                tape: s.tape.update(s.ptr as int, cell_inc(s.tape[s.ptr as int])),
                ..s
            },
        )
    } else if c == '-' {
        StepResult::Next(
            MachineState {
                pc: (s.pc + 1) as usize,
                tape: s.tape.update(s.ptr as int, cell_dec(s.tape[s.ptr as int])),
                ..s
            },
        )
    } else if c == '.' {
        StepResult::Next(
            MachineState {
                pc: (s.pc + 1) as usize,
                out: s.out.push(cell_char(s.tape[s.ptr as int])),
                ..s
            },
        )
    } else if c == ',' {
        if s.in_pos < s.inp.len() {
            StepResult::Next(
                MachineState {
                    pc: (s.pc + 1) as usize,
                    tape: s.tape.update(s.ptr as int, char_code_byte(s.inp[s.in_pos as int])),
                    in_pos: (s.in_pos + 1) as usize,
                    ..s
                },
            )
        } else {
            StepResult::Next(
                MachineState {
                    pc: (s.pc + 1) as usize,
                    tape: s.tape.update(s.ptr as int, 0u8),
                    ..s
                },
            )
        }
    } else if c == '[' {
        if s.tape[s.ptr as int] == 0 {
            match find_close(s.prog, s.pc + 1, 1) {
                Some(j) => StepResult::Next(MachineState { pc: (j + 1) as usize, ..s }),
                None => StepResult::Fail(BfError::UnmatchedOpen { pos: s.pc }),
            }
        } else {
            StepResult::Next(
                MachineState { pc: (s.pc + 1) as usize, stack: s.stack.push(s.pc), ..s },
            )
        }
    } else if c == ']' {
        if s.stack.len() == 0 {
            StepResult::Fail(BfError::UnmatchedClose { pos: s.pc })
        } else if s.tape[s.ptr as int] != 0 {
            StepResult::Next(
                MachineState { pc: (s.stack.last() + 1) as usize, ..s },
            )
        } else {
            StepResult::Next(
                MachineState { pc: (s.pc + 1) as usize, stack: s.stack.drop_last(), ..s },
            )
        }
    } else {
        StepResult::Next(MachineState { pc: (s.pc + 1) as usize, ..s })
    }
}

/// Running from `s` for at most `fuel` steps: the final state if the
/// program counter reaches the end of the program, the error if a malformed
/// bracket is hit, and `Pending` if the fuel runs out first.
pub open spec fn run_prog(s: MachineState, fuel: nat) -> RunOutcome
    decreases fuel,
{
    if s.pc >= s.prog.len() {
        RunOutcome::Done(s)
    } else if fuel == 0 {
        RunOutcome::Pending
    } else {
        match step(s) {
            StepResult::Next(s2) => run_prog(s2, (fuel - 1) as nat),
            StepResult::Fail(e) => RunOutcome::Fail(e),
        }
    }
}

/// The state in which execution of `prog` against `inp` begins: a fresh
/// zeroed tape, pointer at cell 0, program counter at 0, no open loops, no
/// input consumed, no output.
pub open spec fn init_state(prog: Seq<char>, inp: Seq<char>) -> MachineState {
    MachineState {
        prog: prog,
        inp: inp,
        pc: 0,
        ptr: 0,
        tape: Seq::new(TAPE_LEN as nat, |i: int| 0u8),
        stack: Seq::empty(),
        in_pos: 0,
        out: Seq::empty(),
    }
}

/// What interpreting `prog` against `inp` under a budget of `budget` steps
/// returns: the output on normal termination, the malformed-program error if
/// one is hit, and `StepLimitExceeded` if the budget runs out first.
pub open spec fn interp_spec(prog: Seq<char>, inp: Seq<char>, budget: nat) -> Result<
    Seq<char>,
    BfError,
> {
    match run_prog(init_state(prog, inp), budget) {
        RunOutcome::Done(f) => Ok(f.out),
        RunOutcome::Fail(e) => Err(e),
        RunOutcome::Pending => Err(BfError::StepLimitExceeded),
    }
}

/// Once execution has finished or failed, more fuel does not change the
/// outcome.
pub proof fn lemma_run_prog_mono(s: MachineState, n: nat, m: nat)
    requires
        n <= m,
        run_prog(s, n) != RunOutcome::Pending,
    ensures
        run_prog(s, m) == run_prog(s, n),
    decreases n,
{
    if s.pc >= s.prog.len() {
    } else {
        match step(s) {
            StepResult::Next(s2) => {
                lemma_run_prog_mono(s2, (n - 1) as nat, (m - 1) as nat);
            },
            StepResult::Fail(e) => {},
        }
    }
}

/// A successful bracket scan lands inside the program, on a `]`.
pub proof fn lemma_find_close_in_bounds(prog: Seq<char>, i: int, depth: int)
    requires
        find_close(prog, i, depth) is Some,
    ensures
        i <= find_close(prog, i, depth)->Some_0 < prog.len(),
        prog[find_close(prog, i, depth)->Some_0] == ']',
    decreases prog.len() - i,
{
    if i < 0 || i >= prog.len() || depth <= 0 {
    } else {
        let d = if prog[i] == '[' {
            depth + 1
        } else if prog[i] == ']' {
            depth - 1
        } else {
            depth
        };
        if d == 0 {
        } else {
            lemma_find_close_in_bounds(prog, i + 1, d);
        }
    }
}

/// A step taken from a well-formed state (with the program counter on an
/// instruction) leaves a well-formed state with the same program and input.
pub proof fn lemma_step_wf(s: MachineState)
    requires
        wf(s),
        s.pc < s.prog.len(),
        step(s) is Next,
    ensures
        wf(step(s)->Next_0),
        step(s)->Next_0.prog == s.prog,
        step(s)->Next_0.inp == s.inp,
{
    let c = s.prog[s.pc as int];
    if c == '[' && s.tape[s.ptr as int] == 0 {
        lemma_find_close_in_bounds(s.prog, s.pc + 1, 1);
    }
}

} // verus!
