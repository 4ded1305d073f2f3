//! What the engine's step semantics imply for bracket loops.

use crate::engine::{advance, finished, run_of, step_of, Machine, RunError, Trace};
use crate::parser::{matched, resolved, Command, Jump};
use crate::tape::{canonical, cell};
use vstd::prelude::*;

verus! {

/// A loop whose guard cell is zero on entry is skipped: in a resolved
/// program, one step from the opening bracket of a matched pair leads to the
/// position after the closing bracket, with nothing emitted and the tape and
/// the cell pointer unchanged, so no command of the body is executed.
pub proof fn lemma_zero_guard_skips_body(
    code: Seq<u8>,
    prog: Seq<Command>,
    s: Machine,
    input: Option<u8>,
    j: int,
)
    requires
        resolved(code, prog),
        matched(code, s.inst_index, j),
        cell(s.tape, s.tape_index) == 0,
    ensures
        step_of(prog, s, input) == Ok::<(Machine, Option<u8>), RunError>(
            (Machine { inst_index: j + 1, ..s }, None),
        ),
{
    crate::parser::lemma_pairs_point_at_each_other(code, prog, s.inst_index, j);
}

/// A loop whose guard cell is not zero is entered: one step from its opening
/// bracket leads to the first command of the body.
pub proof fn lemma_nonzero_guard_enters_body(
    code: Seq<u8>,
    prog: Seq<Command>,
    s: Machine,
    input: Option<u8>,
    j: int,
)
    requires
        resolved(code, prog),
        matched(code, s.inst_index, j),
        cell(s.tape, s.tape_index) != 0,
    ensures
        step_of(prog, s, input) == Ok::<(Machine, Option<u8>), RunError>(
            (Machine { inst_index: s.inst_index + 1, ..s }, None),
        ),
{
    crate::parser::lemma_pairs_point_at_each_other(code, prog, s.inst_index, j);
}

/// At the closing bracket of a loop, a guard cell that is not zero sends the
/// machine back to the first command of the body, and a guard cell that is
/// zero lets it leave the loop; either way nothing is emitted and the tape
/// and the cell pointer stay as they are.
pub proof fn lemma_closing_bracket(
    code: Seq<u8>,
    prog: Seq<Command>,
    s: Machine,
    input: Option<u8>,
    i: int,
)
    requires
        resolved(code, prog),
        matched(code, i, s.inst_index),
    ensures
        step_of(prog, s, input) == Ok::<(Machine, Option<u8>), RunError>(
            (
                Machine {
                    inst_index: if cell(s.tape, s.tape_index) != 0 {
                        i + 1
                    } else {
                        s.inst_index + 1
                    },
                    ..s
                },
                None,
            ),
        ),
{
    crate::parser::lemma_pairs_point_at_each_other(code, prog, i, s.inst_index);
}

/// Positions `i`, `i + 1` and `i + 2` of `prog` hold the loop that counts
/// the current cell down to zero: an opening bracket, a decrement and the
/// closing bracket, the brackets paired with each other.
pub open spec fn countdown_at(prog: Seq<Command>, i: int) -> bool {
    &&& 0 <= i
    &&& i + 2 < prog.len()
    &&& prog.len() <= usize::MAX
    &&& prog[i] == Command::JumpForward(Jump { index: i as usize, pair_index: (i + 2) as usize })
    &&& prog[i + 1] == Command::DecrementValue
    &&& prog[i + 2] == Command::JumpBackward(
        Jump { index: (i + 2) as usize, pair_index: i as usize },
    )
}

/// The trace `t` once the countdown loop at `i` has been left: the machine
/// stands behind the loop, the current cell is zero, and nothing else has
/// changed.
pub open spec fn counted_down(t: Trace, i: int) -> Trace {
    Trace {
        state: Machine {
            inst_index: i + 3,
            tape: t.state.tape.remove(t.state.tape_index),
            ..t.state
        },
        ..t
    }
}

/// How often the machine executes the command at position `pos` within the
/// next `fuel` commands.
pub open spec fn visits(prog: Seq<Command>, t: Trace, input: Seq<u8>, fuel: nat, pos: int) -> nat
    decreases fuel,
{
    if fuel == 0 || finished(prog, t) {
        0
    } else {
        let here: nat = if t.state.inst_index == pos {
            1
        } else {
            0
        };
        here + visits(prog, advance(prog, t, input), input, (fuel - 1) as nat, pos)
    }
}

/// From the body of a countdown loop with the counter at `v > 0`, the loop
/// is left after exactly `v` executions of the body, each followed by one
/// closing bracket.
pub proof fn lemma_countdown_body(prog: Seq<Command>, t: Trace, input: Seq<u8>, i: int, v: nat)
    requires
        countdown_at(prog, i),
        t.error.is_none(),
        t.state.inst_index == i + 1,
        cell(t.state.tape, t.state.tape_index) == v,
        v > 0,
    ensures
        run_of(prog, t, input, 2 * v) == counted_down(t, i),
        visits(prog, t, input, 2 * v, i + 1) == v,
    decreases v,
{
    let p = t.state.tape_index;
    // One round: the decrement, then the closing bracket.
    let t1 = advance(prog, t, input);
    let t2 = advance(prog, t1, input);
    assert(visits(prog, t1, input, (2 * v - 1) as nat, i + 1) == visits(
        prog,
        t2,
        input,
        (2 * v - 2) as nat,
        i + 1,
    ));
    assert(run_of(prog, t1, input, (2 * v - 1) as nat) == run_of(
        prog,
        t2,
        input,
        (2 * v - 2) as nat,
    ));
    if v > 1 {
        lemma_countdown_body(prog, t2, input, i, (v - 1) as nat);
        assert(t2.state.tape.remove(p) =~= t.state.tape.remove(p));
    }
}

/// A loop that decrements a counter from `n` to zero executes its body
/// exactly `n` times: from its opening bracket the loop is left after one
/// step for the guard and two for each of the `n` rounds, with the counter
/// at zero and nothing emitted or read, and the decrement that is its body
/// has been executed `n` times on the way.
pub proof fn lemma_countdown_loop(prog: Seq<Command>, t: Trace, input: Seq<u8>, i: int)
    requires
        countdown_at(prog, i),
        canonical(t.state.tape),
        t.error.is_none(),
        t.state.inst_index == i,
    ensures
        run_of(
            prog,
            t,
            input,
            (2 * cell(t.state.tape, t.state.tape_index) + 1) as nat,
        ) == counted_down(t, i),
        visits(
            prog,
            t,
            input,
            (2 * cell(t.state.tape, t.state.tape_index) + 1) as nat,
            i + 1,
        ) == cell(t.state.tape, t.state.tape_index),
{
    let p = t.state.tape_index;
    let n = cell(t.state.tape, p) as nat;
    let t1 = advance(prog, t, input);
    assert(visits(prog, t, input, 2 * n + 1, i + 1) == visits(prog, t1, input, 2 * n, i + 1));
    if n == 0 {
        assert(t.state.tape.remove(p) =~= t.state.tape);
    } else {
        lemma_countdown_body(prog, t1, input, i, n);
    }
}

} // verus!
