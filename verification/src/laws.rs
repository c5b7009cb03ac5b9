//! General laws of the tape machine, stated and proved against the
//! small-step semantics.

use crate::semantics::{
    cell_dec, cell_inc, find_close, init_state, lemma_find_close_in_bounds, ptr_left, ptr_right,
    run_prog, step, wf, MachineState, RunOutcome, StepResult, TAPE_LEN,
};
use vstd::arithmetic::div_mod::{
    lemma_add_mod_noop, lemma_fundamental_div_mod_converse_mod, lemma_mod_add_multiples_vanish,
    lemma_mod_bound, lemma_mod_pos_bound, lemma_mod_self_0, lemma_small_mod, lemma_sub_mod_noop,
};
use vstd::prelude::*;

verus! {

/// Where the data pointer stands after a sequence of moves: `>` moves it
/// right and `<` left, both circularly; any other character leaves it where
/// it is, as in the machine.
pub open spec fn apply_moves(p: usize, moves: Seq<char>) -> usize
    decreases moves.len(),
{
    if moves.len() == 0 {
        p
    } else {
        let q = apply_moves(p, moves.drop_last());
        if moves.last() == '>' {
            ptr_right(q)
        } else if moves.last() == '<' {
            ptr_left(q)
        } else {
            q
        }
    }
}

/// The pointer never leaves the tape: after any sequence of `>` and `<`
/// moves it is still inside `[0, TAPE_LEN)`.
pub proof fn lemma_pointer_stays_in_range(p: usize, moves: Seq<char>)
    requires
        p < TAPE_LEN,
    ensures
        apply_moves(p, moves) < TAPE_LEN,
    decreases moves.len(),
{
    if moves.len() > 0 {
        lemma_pointer_stays_in_range(p, moves.drop_last());
        let q = apply_moves(p, moves.drop_last());
        lemma_mod_pos_bound((q + 1) as int, TAPE_LEN as int);
        lemma_mod_pos_bound(q + (TAPE_LEN as int) - 1, TAPE_LEN as int);
    }
}

/// A sequence of `k` moves right leaves the pointer at `(p + k) mod
/// TAPE_LEN`.
proof fn lemma_moves_right(p: usize, k: nat)
    requires
        p < TAPE_LEN,
    ensures
        apply_moves(p, Seq::new(k, |i: int| '>')) as int == (p + k) % (TAPE_LEN as int),
    decreases k,
{
    let m = TAPE_LEN as int;
    if k == 0 {
        assert(Seq::new(0nat, |i: int| '>').len() == 0);
        lemma_small_mod(p as nat, TAPE_LEN as nat);
    } else {
        let s = Seq::new(k, |i: int| '>');
        assert(s.drop_last() =~= Seq::new((k - 1) as nat, |i: int| '>'));
        assert(s.last() == '>');
        lemma_moves_right(p, (k - 1) as nat);
        let q = apply_moves(p, s.drop_last());
        lemma_mod_pos_bound(p + (k - 1) as int, m);
        lemma_small_mod(1nat, TAPE_LEN as nat);
        lemma_add_mod_noop(p + (k - 1) as int, 1, m);
        lemma_mod_pos_bound((q + 1) as int, m);
    }
}

/// The pointer wraparound law: moving right `TAPE_LEN` times returns the
/// pointer to where it started.
pub proof fn lemma_pointer_wraparound(p: usize)
    requires
        p < TAPE_LEN,
    ensures
        apply_moves(p, Seq::new(TAPE_LEN as nat, |i: int| '>')) == p,
{
    lemma_moves_right(p, TAPE_LEN as nat);
    lemma_mod_add_multiples_vanish(p as int, TAPE_LEN as int);
    lemma_small_mod(p as nat, TAPE_LEN as nat);
}

/// The value of a cell after `n` increments.
pub open spec fn apply_incs(v: u8, n: nat) -> u8
    decreases n,
{
    if n == 0 {
        v
    } else {
        cell_inc(apply_incs(v, (n - 1) as nat))
    }
}

/// The value of a cell after `n` decrements.
pub open spec fn apply_decs(v: u8, n: nat) -> u8
    decreases n,
{
    if n == 0 {
        v
    } else {
        cell_dec(apply_decs(v, (n - 1) as nat))
    }
}

/// `n` increments leave a cell at `(v + n) mod 256`.
proof fn lemma_incs_mod(v: u8, n: nat)
    ensures
        apply_incs(v, n) as int == (v + n) % 256,
    decreases n,
{
    if n == 0 {
        lemma_small_mod(v as nat, 256nat);
    } else {
        lemma_incs_mod(v, (n - 1) as nat);
        let a = apply_incs(v, (n - 1) as nat);
        lemma_mod_pos_bound(v + (n - 1) as int, 256);
        lemma_small_mod(1nat, 256nat);
        lemma_add_mod_noop(v + (n - 1) as int, 1, 256);
        if a == 255 {
            lemma_mod_self_0(256);
        } else {
            lemma_small_mod((a + 1) as nat, 256nat);
        }
    }
}

/// `n` decrements leave a cell at `(v - n) mod 256`.
proof fn lemma_decs_mod(v: u8, n: nat)
    ensures
        apply_decs(v, n) as int == (v - n) % 256,
    decreases n,
{
    if n == 0 {
        lemma_small_mod(v as nat, 256nat);
    } else {
        lemma_decs_mod(v, (n - 1) as nat);
        let a = apply_decs(v, (n - 1) as nat);
        lemma_mod_bound(v - (n - 1), 256);
        lemma_small_mod(1nat, 256nat);
        lemma_sub_mod_noop(v - (n - 1), 1, 256);
        if a == 0 {
            lemma_fundamental_div_mod_converse_mod(-1, 256, -1, 255);
        } else {
            lemma_small_mod((a - 1) as nat, 256nat);
        }
    }
}

/// The modular cell law: 256 consecutive increments return a cell to its
/// original value, and so do 256 consecutive decrements.
pub proof fn lemma_cell_wraps_after_256(v: u8)
    ensures
        apply_incs(v, 256) == v,
        apply_decs(v, 256) == v,
{
    lemma_incs_mod(v, 256);
    lemma_decs_mod(v, 256);
    lemma_mod_add_multiples_vanish(v as int, 256);
    lemma_small_mod(v as nat, 256nat);
    assert(v - 256 + 256 == v as int);
    lemma_mod_add_multiples_vanish(v - 256, 256);
    lemma_fundamental_div_mod_converse_mod(v - 256, 256, -1, v as int);
}

/// A `[` on a zero cell skips: the step jumps the program counter past the
/// matching `]` and changes nothing else, so the loop body is never entered,
/// whatever it contains.
pub proof fn lemma_zero_cell_loop_skips(s: MachineState)
    requires
        wf(s),
        s.pc < s.prog.len(),
        s.prog[s.pc as int] == '[',
        s.tape[s.ptr as int] == 0,
        find_close(s.prog, s.pc + 1, 1) is Some,
    ensures
        step(s) matches StepResult::Next(t) && t.tape == s.tape && t.out == s.out && t.in_pos
            == s.in_pos && t.stack == s.stack && t.ptr == s.ptr && t.pc == find_close(
            s.prog,
            s.pc + 1,
            1,
        )->Some_0 + 1,
{
    lemma_find_close_in_bounds(s.prog, s.pc + 1, 1);
}

/// Scanning a stretch of non-bracket characters that ends in `]` finds that
/// `]`.
proof fn lemma_scan_plain_body(prog: Seq<char>, i: int)
    requires
        1 <= i <= prog.len() - 1,
        prog[prog.len() - 1] == ']',
        forall|k: int| i <= k < prog.len() - 1 ==> prog[k] != '[' && prog[k] != ']',
    ensures
        find_close(prog, i, 1) == Some(prog.len() - 1),
    decreases prog.len() - i,
{
    if i < prog.len() - 1 {
        lemma_scan_plain_body(prog, i + 1);
    }
}

/// The zero-cell loop law: a bracketed loop whose body contains no brackets,
/// run against a fresh tape (where the tested cell is zero), finishes in one
/// step with no output, no input consumed, and the tape untouched —
/// regardless of what the body contains.
pub proof fn lemma_zero_cell_loop_never_runs(body: Seq<char>, inp: Seq<char>)
    requires
        forall|k: int| 0 <= k < body.len() ==> body[k] != '[' && body[k] != ']',
        body.len() + 2 <= usize::MAX,
    ensures
        ({
            let prog = seq!['['] + body + seq![']'];
            let s0 = init_state(prog, inp);
            run_prog(s0, 1) matches RunOutcome::Done(f) && f.out == Seq::<char>::empty() && f.tape
                == s0.tape && f.in_pos == s0.in_pos && f.stack == s0.stack
        }),
{
    let prog = seq!['['] + body + seq![']'];
    let s0 = init_state(prog, inp);
    assert(prog.len() == body.len() + 2);
    assert(prog[0] == '[');
    assert(prog[prog.len() - 1] == ']');
    assert forall|k: int| 1 <= k < prog.len() - 1 implies prog[k] != '[' && prog[k] != ']' by {
        assert(prog[k] == body[k - 1]);
    }
    assert(s0.tape[0] == 0);
    lemma_scan_plain_body(prog, 1);
    let t = MachineState { pc: ((prog.len() - 1) + 1) as usize, ..s0 };
    assert(step(s0) == StepResult::Next(t)) by {
        assert(step(s0)->Next_0 =~= t);
    }
    assert(run_prog(s0, 1) == run_prog(t, 0));
    assert(run_prog(t, 0) == RunOutcome::Done(t));
}

/// The expected outcome of running `[-]`: the tested cell cleared to zero,
/// the loop stack empty again, the program counter past the end, and
/// everything else untouched.
pub open spec fn cleared_state(s: MachineState) -> MachineState {
    MachineState { pc: 3usize, tape: s.tape.update(s.ptr as int, 0u8), stack: Seq::empty(), ..s }
}

/// One pass through the body of `[-]`, entered with a nonzero cell,
/// eventually clears the cell and terminates.
proof fn lemma_clear_loop_body(s: MachineState)
    requires
        wf(s),
        s.prog == seq!['[', '-', ']'],
        s.pc == 1,
        s.stack == seq![0usize],
        s.tape[s.ptr as int] != 0,
    ensures
        exists|n: nat| run_prog(s, n) == RunOutcome::Done(cleared_state(s)),
    decreases s.tape[s.ptr as int],
{
    let v = s.tape[s.ptr as int];
    let a = MachineState { pc: 2usize, tape: s.tape.update(s.ptr as int, cell_dec(v)), ..s };
    assert(s.prog[1] == '-');
    assert(step(s) == StepResult::Next(a)) by {
        assert(step(s)->Next_0 =~= a);
    }
    assert(a.prog[2] == ']');
    if cell_dec(v) == 0 {
        let b = MachineState { pc: 3usize, stack: Seq::empty(), ..a };
        assert(a.stack.drop_last() =~= Seq::<usize>::empty());
        assert(step(a) == StepResult::Next(b)) by {
            assert(step(a)->Next_0 =~= b);
        }
        assert(run_prog(s, 2) == run_prog(a, 1));
        assert(run_prog(a, 1) == run_prog(b, 0));
        assert(run_prog(b, 0) == RunOutcome::Done(b));
        assert(b =~= cleared_state(s));
        assert(run_prog(s, 2) == RunOutcome::Done(cleared_state(s)));
    } else {
        let b = MachineState { pc: 1usize, ..a };
        assert(a.stack.last() == 0);
        assert(step(a) == StepResult::Next(b)) by {
            assert(step(a)->Next_0 =~= b);
        }
        assert(wf(b));
        assert(b.tape[b.ptr as int] == cell_dec(v));
        assert(cell_dec(v) < v);
        lemma_clear_loop_body(b);
        let m = choose|m: nat| run_prog(b, m) == RunOutcome::Done(cleared_state(b));
        assert(run_prog(s, m + 2) == run_prog(a, m + 1));
        assert(run_prog(a, m + 1) == run_prog(b, m));
        assert(cleared_state(b) =~= cleared_state(s));
        assert(run_prog(s, m + 2) == RunOutcome::Done(cleared_state(s)));
    }
}

/// The decrement-until-zero law: the program `[-]`, started on any tape,
/// terminates with the current cell cleared to exactly zero and nothing
/// else changed.
pub proof fn lemma_clear_loop_zeroes_cell(s: MachineState)
    requires
        wf(s),
        s.prog == seq!['[', '-', ']'],
        s.pc == 0,
        s.stack == Seq::<usize>::empty(),
    ensures
        exists|n: nat| run_prog(s, n) == RunOutcome::Done(cleared_state(s)),
{
    let v = s.tape[s.ptr as int];
    assert(s.prog[0] == '[');
    if v == 0 {
        assert(find_close(s.prog, 2, 1) == Some(2int)) by {
            assert(s.prog[2] == ']');
        }
        assert(find_close(s.prog, 1, 1) == Some(2int)) by {
            assert(s.prog[1] == '-');
        }
        let t = MachineState { pc: 3usize, ..s };
        assert(step(s) == StepResult::Next(t)) by {
            assert(step(s)->Next_0 =~= t);
        }
        assert(run_prog(s, 1) == run_prog(t, 0));
        assert(run_prog(t, 0) == RunOutcome::Done(t));
        assert(t =~= cleared_state(s));
        assert(run_prog(s, 1) == RunOutcome::Done(cleared_state(s)));
    } else {
        let a = MachineState { pc: 1usize, stack: s.stack.push(0usize), ..s };
        assert(step(s) == StepResult::Next(a)) by {
            assert(step(s)->Next_0 =~= a);
        }
        assert(a.stack =~= seq![0usize]);
        assert(wf(a));
        lemma_clear_loop_body(a);
        let m = choose|m: nat| run_prog(a, m) == RunOutcome::Done(cleared_state(a));
        assert(run_prog(s, m + 1) == run_prog(a, m));
        assert(cleared_state(a) =~= cleared_state(s));
        assert(run_prog(s, m + 1) == RunOutcome::Done(cleared_state(s)));
    }
}

} // verus!
