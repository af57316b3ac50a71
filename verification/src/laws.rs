//! General laws of the engine, stated over the specification-level models
//! that the operations' contracts use, and proved once for all inputs.

use crate::clock::{TICK_THRESHOLD_MICROS, elapsed_after, fires};
use crate::grid::{neighbor_count, step_spec};
use vstd::prelude::*;

verus! {

/// Editing is idempotent: marking a coordinate alive twice leaves the same
/// live set as marking it once, and clearing a coordinate twice the same
/// as clearing it once — so clearing an absent coordinate is a no-op.
pub proof fn lemma_edit_idempotent(live: Set<(int, int)>, c: (int, int))
    ensures
        live.insert(c).insert(c) == live.insert(c),
        live.remove(c).remove(c) == live.remove(c),
{
    assert(live.insert(c).insert(c) =~= live.insert(c));
    assert(live.remove(c).remove(c) =~= live.remove(c));
}

/// Clearing a cell leaves it dead: the live set that `set_dead` produces
/// never contains the cleared coordinate, so it stays dead until a later
/// insert or step makes it alive again.
pub proof fn lemma_set_dead_clears(live: Set<(int, int)>, c: (int, int))
    ensures
        !live.remove(c).contains(c),
{
}

/// One grid operation, as the operations' contracts model it.
pub enum GridOp {
    SetAlive((int, int)),
    SetDead((int, int)),
    Step,
}

/// The live set an operation leaves behind, per the contracts of
/// `set_alive`, `set_dead` and `step`.
pub open spec fn apply_op(live: Set<(int, int)>, op: GridOp) -> Set<(int, int)> {
    match op {
        GridOp::SetAlive(c) => live.insert(c),
        GridOp::SetDead(c) => live.remove(c),
        GridOp::Step => step_spec(live),
    }
}

/// The live set after a whole sequence of operations, applied in order.
pub open spec fn apply_ops(live: Set<(int, int)>, ops: Seq<GridOp>) -> Set<(int, int)>
    decreases ops.len(),
{
    if ops.len() == 0 {
        live
    } else {
        apply_ops(apply_op(live, ops[0]), ops.skip(1))
    }
}

/// A cleared coordinate stays dead: once `c` is out of the live set — as
/// it is right after `set_dead(c)` — no sequence of further operations
/// contains `c` unless one of them is a `set_alive(c)` or a step that
/// could revive it.
pub proof fn lemma_cleared_stays_dead(live: Set<(int, int)>, ops: Seq<GridOp>, c: (int, int))
    requires
        !live.contains(c),
        forall|i: int|
            0 <= i < ops.len() ==> (#[trigger] ops[i]) != GridOp::SetAlive(c) && !(ops[i] is Step),
    ensures
        !apply_ops(live, ops).contains(c),
    decreases ops.len(),
{
    if ops.len() > 0 {
        assert(!apply_op(live, ops[0]).contains(c));
        assert forall|i: int|
            0 <= i < ops.skip(1).len() implies (#[trigger] ops.skip(1)[i]) != GridOp::SetAlive(c)
            && !(ops.skip(1)[i] is Step) by {
            assert(ops.skip(1)[i] == ops[i + 1]);
        }
        lemma_cleared_stays_dead(apply_op(live, ops[0]), ops.skip(1), c);
    }
}

/// Stepping is deterministic: the next generation is a function of the
/// live set alone, with no hidden state or iteration-order dependence, so
/// identical live sets step to identical live sets.
pub proof fn lemma_step_deterministic(a: Set<(int, int)>, b: Set<(int, int)>)
    requires
        a == b,
    ensures
        step_spec(a) == step_spec(b),
{
}

/// Birth rule: a currently dead coordinate is alive after a step if and
/// only if it has exactly three live neighbors — with two, four or any
/// other count it stays dead.
pub proof fn lemma_birth_rule(live: Set<(int, int)>, p: (int, int))
    requires
        !live.contains(p),
    ensures
        step_spec(live).contains(p) <==> neighbor_count(live, p) == 3,
{
}

/// Death rule: a currently live coordinate survives a step if and only if
/// it has two or three live neighbors — with zero or one it dies of
/// isolation, with four or more of overcrowding.
pub proof fn lemma_death_rule(live: Set<(int, int)>, p: (int, int))
    requires
        live.contains(p),
    ensures
        step_spec(live).contains(p) <==> (neighbor_count(live, p) == 2 || neighbor_count(live, p)
            == 3),
{
}

/// The 2×2 block anchored at its lower-left corner `(x, y)`.
pub open spec fn block(x: int, y: int) -> Set<(int, int)> {
    Set::new(|p: (int, int)| (p.0 == x || p.0 == x + 1) && (p.1 == y || p.1 == y + 1))
}

/// Still life: a 2×2 block of four mutually adjacent live cells, anywhere
/// on the lattice and otherwise alone, is unchanged by a step — each of
/// its cells has exactly three live neighbors, and no outside cell has
/// more than two.
pub proof fn lemma_block_still_life(x: int, y: int)
    ensures
        step_spec(block(x, y)) == block(x, y),
{
    let b = block(x, y);
    assert forall|p: (int, int)| step_spec(b).contains(p) <==> b.contains(p) by {
        if b.contains(p) {
            assert(neighbor_count(b, p) == 3);
        } else {
            assert(neighbor_count(b, p) <= 2);
        }
    }
    assert(step_spec(b) =~= b);
}

/// The total of a sequence of time deltas.
pub open spec fn total(deltas: Seq<int>) -> int
    decreases deltas.len(),
{
    if deltas.len() == 0 {
        0
    } else {
        deltas[0] + total(deltas.skip(1))
    }
}

/// Every delta is non-negative, as elapsed durations are.
pub open spec fn all_nonneg(deltas: Seq<int>) -> bool {
    forall|i: int| 0 <= i < deltas.len() ==> deltas[i] >= 0
}

/// How many steps a run of time-advance calls fires, starting from the
/// given run state and accumulator and applying the clock's transition for
/// each delta in turn.
pub open spec fn fire_count(running: bool, elapsed: int, deltas: Seq<int>) -> int
    decreases deltas.len(),
{
    if deltas.len() == 0 {
        0
    } else {
        (if fires(running, elapsed, deltas[0]) {
            1int
        } else {
            0int
        }) + fire_count(running, elapsed_after(running, elapsed, deltas[0]), deltas.skip(1))
    }
}

proof fn lemma_total_nonneg(deltas: Seq<int>)
    requires
        all_nonneg(deltas),
    ensures
        total(deltas) >= 0,
    decreases deltas.len(),
{
    if deltas.len() > 0 {
        assert forall|i: int| 0 <= i < deltas.skip(1).len() implies deltas.skip(1)[i] >= 0 by {
            assert(deltas.skip(1)[i] == deltas[i + 1]);
        }
        lemma_total_nonneg(deltas.skip(1));
    }
}

/// Clock gating, no early step: a run of time-advance calls whose deltas
/// in total keep the accumulator at or under the threshold fires no step
/// at all, however many calls there are.
pub proof fn lemma_no_step_under_threshold(elapsed: int, deltas: Seq<int>)
    requires
        0 <= elapsed,
        all_nonneg(deltas),
        elapsed + total(deltas) <= TICK_THRESHOLD_MICROS,
    ensures
        fire_count(true, elapsed, deltas) == 0,
    decreases deltas.len(),
{
    if deltas.len() > 0 {
        assert forall|i: int| 0 <= i < deltas.skip(1).len() implies deltas.skip(1)[i] >= 0 by {
            assert(deltas.skip(1)[i] == deltas[i + 1]);
        }
        lemma_total_nonneg(deltas.skip(1));
        assert(!fires(true, elapsed, deltas[0]));
        lemma_no_step_under_threshold(elapsed + deltas[0], deltas.skip(1));
    }
}

/// Clock gating, one step per crossing: a running clock whose accumulator
/// strictly crosses the threshold fires a step and resets the accumulator
/// to zero, no matter how far past the threshold the crossing went — the
/// overshoot is not carried over, so lag is never backfilled.
pub proof fn lemma_one_step_per_crossing(elapsed: int, delta: int)
    requires
        elapsed + delta > TICK_THRESHOLD_MICROS,
    ensures
        fires(true, elapsed, delta),
        elapsed_after(true, elapsed, delta) == 0,
{
}

/// Clock gating over a whole run: when every proper prefix of the deltas
/// keeps the accumulator at or under the threshold and the full total
/// crosses it, the run fires exactly one step.
pub proof fn lemma_exactly_one_step(elapsed: int, deltas: Seq<int>)
    requires
        0 <= elapsed,
        all_nonneg(deltas),
        deltas.len() > 0,
        elapsed + total(deltas.drop_last()) <= TICK_THRESHOLD_MICROS,
        elapsed + total(deltas) > TICK_THRESHOLD_MICROS,
    ensures
        fire_count(true, elapsed, deltas) == 1,
    decreases deltas.len(),
{
    assert forall|i: int| 0 <= i < deltas.skip(1).len() implies deltas.skip(1)[i] >= 0 by {
        assert(deltas.skip(1)[i] == deltas[i + 1]);
    }
    if deltas.len() == 1 {
        assert(total(deltas) == deltas[0] + total(deltas.skip(1)));
        assert(deltas.skip(1).len() == 0);
        assert(fires(true, elapsed, deltas[0]));
        assert(fire_count(true, 0, deltas.skip(1)) == 0);
    } else {
        let rest = deltas.skip(1);
        let head = deltas.drop_last();
        assert(head.skip(1) =~= rest.drop_last());
        assert forall|i: int| 0 <= i < head.skip(1).len() implies head.skip(1)[i] >= 0 by {
            assert(head.skip(1)[i] == rest.drop_last()[i]);
            assert(rest.drop_last()[i] == rest[i]);
        }
        lemma_total_nonneg(head.skip(1));
        assert(total(head) == head[0] + total(head.skip(1)));
        assert(head[0] == deltas[0]);
        assert(elapsed + deltas[0] <= TICK_THRESHOLD_MICROS);
        assert(!fires(true, elapsed, deltas[0]));
        assert(elapsed_after(true, elapsed, deltas[0]) == elapsed + deltas[0]);
        assert(total(rest.drop_last()) == total(head.skip(1)));
        assert(total(deltas) == deltas[0] + total(rest));
        lemma_exactly_one_step(elapsed + deltas[0], rest);
    }
}

/// Pause semantics: while the clock is paused, no amount of advancing, in
/// any number of calls and however large the accumulator grows, fires a
/// step — until the clock is toggled back to running.
pub proof fn lemma_paused_never_steps(elapsed: int, deltas: Seq<int>)
    ensures
        fire_count(false, elapsed, deltas) == 0,
    decreases deltas.len(),
{
    if deltas.len() > 0 {
        lemma_paused_never_steps(elapsed + deltas[0], deltas.skip(1));
    }
}

} // verus!

