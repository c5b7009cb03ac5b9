//! The executable interpreter, proved to return exactly what the small-step
//! semantics of [`crate::semantics`] computes.

use crate::chars::{chars_vec, string_from_chars};
use crate::semantics::{
    find_close, init_state, interp_spec, lemma_run_prog_mono, lemma_step_wf, run_prog, step, wf,
    BfError, MachineState, RunOutcome, StepResult, TAPE_LEN,
};
use crate::split::{split_input, split_program, split_program_input};
use vstd::prelude::*;

verus! {

/// The running interpreter: the executable counterpart of a
/// [`MachineState`].
struct Machine {
    prog: Vec<char>,
    inp: Vec<char>,
    pc: usize,
    ptr: usize,
    tape: Vec<u8>,
    stack: Vec<usize>,
    in_pos: usize,
    out: Vec<char>,
}

/// Scan forward for the `]` matching the `[` at `pc0`, tracking nesting
/// depth, as [`find_close`] describes: its position, or `None` when the scan
/// runs past the end of the program.
fn scan_close(prog: &Vec<char>, pc0: usize) -> (r: Option<usize>)
    requires
        pc0 < prog@.len(),
    ensures
        match r {
            Some(j) => find_close(prog@, pc0 + 1, 1) == Some(j as int) && pc0 < j < prog@.len(),
            None => find_close(prog@, pc0 + 1, 1) is None,
        },
{
    let n = prog.len();
    let mut i: usize = pc0 + 1;
    let mut depth: usize = 1;
    while i < n
        invariant
            n == prog@.len(),
            pc0 + 1 <= i,
            1 <= depth,
            depth <= i - pc0,
            pc0 < prog@.len(),
            find_close(prog@, pc0 + 1, 1) == find_close(prog@, i as int, depth as int),
        decreases prog@.len() - i,
    {
        let c2 = prog[i];
        let d2: usize = if c2 == '[' {
            depth + 1
        } else if c2 == ']' {
            depth - 1
        } else {
            depth
        };
        if d2 == 0 {
            assert(find_close(prog@, i as int, depth as int) == Some(i as int));
            return Some(i);
        }
        assert(find_close(prog@, i as int, depth as int) == find_close(prog@, i + 1, d2 as int));
        i = i + 1;
        depth = d2;
    }
    assert(find_close(prog@, i as int, depth as int) is None);
    None
}

impl Machine {
    /// The mathematical state this machine represents.
    spec fn st(self) -> MachineState {
        MachineState {
            prog: self.prog@,
            inp: self.inp@,
            pc: self.pc,
            ptr: self.ptr,
            tape: self.tape@,
            stack: self.stack@,
            in_pos: self.in_pos,
            out: self.out@,
        }
    }

    /// Dispatch the instruction under the program counter and advance the
    /// counter, exactly as [`step`] describes.
    fn step_once(&mut self) -> (r: Result<(), BfError>)
        requires
            wf(old(self).st()),
            old(self).st().pc < old(self).st().prog.len(),
        ensures
            match r {
                Ok(_) => step(old(self).st()) == StepResult::Next(final(self).st()) && wf(
                    final(self).st(),
                ),
                Err(e) => step(old(self).st()) == StepResult::Fail(e) && final(self).st() == old(
                    self,
                ).st(),
            },
    {
        let c = self.prog[self.pc];
        if c == '>' {
            self.ptr = (self.ptr + 1) % TAPE_LEN;
            self.pc = self.pc + 1;
        } else if c == '<' {
            self.ptr = (self.ptr + (TAPE_LEN - 1)) % TAPE_LEN;
            self.pc = self.pc + 1;
        } else if c == '+' {
            let v = self.tape[self.ptr];
            self.tape[self.ptr] = v.wrapping_add(1);
            self.pc = self.pc + 1;
        } else if c == '-' {
            let v = self.tape[self.ptr];
            self.tape[self.ptr] = v.wrapping_sub(1);
            self.pc = self.pc + 1;
        } else if c == '.' {
            let v = self.tape[self.ptr];
            self.out.push(v as char);
            self.pc = self.pc + 1;
        } else if c == ',' {
            if self.in_pos < self.inp.len() {
                let ch = self.inp[self.in_pos];
                self.in_pos = self.in_pos + 1;
                let code: u32 = ch as u32;
                self.tape[self.ptr] = (code % 256) as u8;
            } else {
                self.tape[self.ptr] = 0;
            }
            self.pc = self.pc + 1;
        } else if c == '[' {
            if self.tape[self.ptr] == 0 {
                match scan_close(&self.prog, self.pc) {
                    Some(j) => {
                        self.pc = j + 1;
                    },
                    None => {
                        return Err(BfError::UnmatchedOpen { pos: self.pc });
                    },
                }
            } else {
                self.stack.push(self.pc);
                self.pc = self.pc + 1;
            }
        } else if c == ']' {
            if self.stack.len() == 0 {
                return Err(BfError::UnmatchedClose { pos: self.pc });
            }
            if self.tape[self.ptr] != 0 {
                let t = self.stack[self.stack.len() - 1];
                self.pc = t + 1;
            } else {
                self.stack.pop();
                self.pc = self.pc + 1;
            }
        } else {
            self.pc = self.pc + 1;
        }
        proof {
            assert(step(old(self).st()) == StepResult::Next(self.st())) by {
                assert(step(old(self).st())->Next_0 =~= self.st());
            }
            lemma_step_wf(old(self).st());
        }
        Ok(())
    }
}

/// Execute `program` against a fresh zeroed tape of [`TAPE_LEN`] cells with
/// the pointer starting at cell 0, consuming characters of `input` on
/// demand, for at most `max_steps` instruction dispatches. Returns the
/// produced output on normal termination, the malformed-program error if an
/// unmatched bracket is executed, and
/// [`BfError::StepLimitExceeded`] if the budget runs out first.
pub fn interpret_brainfuck(program: &str, input: &str, max_steps: u64) -> (r: Result<
    String,
    BfError,
>)
    ensures
        (match r {
            Ok(out) => interp_spec(program@, input@, max_steps as nat) == Ok::<Seq<char>, BfError>(
                out@,
            ),
            Err(e) => interp_spec(program@, input@, max_steps as nat) == Err::<Seq<char>, BfError>(
                e,
            ),
        }),
{
    let prog = chars_vec(program);
    let inp = chars_vec(input);
    let tape: Vec<u8> = vec![0u8; TAPE_LEN];
    proof {
        assert forall|i: int| 0 <= i < tape@.len() implies tape@[i] == 0u8 by {
            assert(vstd::pervasive::cloned(0u8, tape@[i]));
        }
        assert(tape@ =~= Seq::new(TAPE_LEN as nat, |i: int| 0u8));
    }
    let mut m = Machine {
        prog,
        inp,
        pc: 0,
        ptr: 0,
        tape,
        stack: Vec::new(),
        in_pos: 0,
        out: Vec::new(),
    };
    let ghost init_s = init_state(program@, input@);
    proof {
        assert(m.st() =~= init_s);
        assert(m.prog@.len() == m.prog.len());
        assert(m.inp@.len() == m.inp.len());
        assert(wf(m.st()));
    }
    let mut steps: u64 = 0;
    while m.pc < m.prog.len() && steps < max_steps
        invariant
            wf(m.st()),
            m.st().prog == program@,
            m.st().inp == input@,
            steps <= max_steps,
            init_s == init_state(program@, input@),
            forall|f: nat| run_prog(init_s, steps as nat + f) == #[trigger] run_prog(m.st(), f),
        decreases max_steps - steps,
    {
        let ghost pre = m.st();
        match m.step_once() {
            Ok(_) => {
                proof {
                    assert forall|f: nat|
                        run_prog(init_s, (steps + 1) as nat + f) == #[trigger] run_prog(
                            m.st(),
                            f,
                        ) by {
                        assert(run_prog(init_s, steps as nat + (f + 1)) == run_prog(pre, f + 1));
                        assert(run_prog(pre, f + 1) == run_prog(m.st(), f));
                        assert((steps + 1) as nat + f == steps as nat + (f + 1));
                    }
                }
                steps = steps + 1;
            },
            Err(e) => {
                proof {
                    assert(run_prog(pre, 1) == RunOutcome::Fail(e));
                    assert(run_prog(init_s, steps as nat + 1) == RunOutcome::Fail(e));
                    lemma_run_prog_mono(init_s, steps as nat + 1, max_steps as nat);
                }
                return Err(e);
            },
        }
    }
    if m.pc >= m.prog.len() {
        proof {
            assert(run_prog(m.st(), 0) == RunOutcome::Done(m.st()));
            assert(run_prog(init_s, steps as nat + 0) == RunOutcome::Done(m.st()));
            lemma_run_prog_mono(init_s, steps as nat, max_steps as nat);
        }
        Ok(string_from_chars(m.out.as_slice()))
    } else {
        proof {
            assert(run_prog(m.st(), 0) == RunOutcome::Pending);
            assert(run_prog(init_s, steps as nat + 0) == RunOutcome::Pending);
            assert(steps == max_steps);
        }
        Err(BfError::StepLimitExceeded)
    }
}

/// The entry point of the pipeline: divide raw text at the first `/` into a
/// program and an input, then interpret the program against that input
/// under the given step budget.
pub fn run(text: &str, max_steps: u64) -> (r: Result<String, BfError>)
    ensures
        (match r {
            Ok(out) => interp_spec(split_program(text@), split_input(text@), max_steps as nat)
                == Ok::<Seq<char>, BfError>(out@),
            Err(e) => interp_spec(split_program(text@), split_input(text@), max_steps as nat)
                == Err::<Seq<char>, BfError>(e),
        }),
{
    let (p, q) = split_program_input(text);
    interpret_brainfuck(p.as_str(), q.as_str(), max_steps)
}

} // verus!
