//! What the stages leave as it was: resolving the loops of a program changes
//! nothing that a run can observe, a counted instruction does in one step what
//! its run did, and `Zero` does in one step what the loop it replaces did.

use crate::brackets::{
    balanced, depth, is_match, lemma_begin_has_end, lemma_end_has_begin, lemma_match_is_partner,
    loop_begin, loop_end, resolve_at, resolved, weight,
};
use crate::engine::{can_step, cell_add, cell_sub, reason, run, step, Config};
use crate::op::Op;
use crate::rle::with_count;
use crate::zero::is_zero_loop;
use vstd::prelude::*;

verus! {

/// Every loop instruction is unresolved or carries the index of its partner.
pub open spec fn targets_true(s: Seq<Op>) -> bool {
    forall|i: int|
        0 <= i < s.len() ==> match #[trigger] s[i] {
            Op::LoopBegin(Some(t)) => t == loop_end(s, i),
            Op::LoopEnd(Some(t)) => t == loop_begin(s, i),
            _ => true,
        }
}

/// On a balanced program the resolved form can take a step exactly where the
/// program can, and the step leads to the same state.
pub proof fn lemma_resolved_step(s: Seq<Op>, c: Config)
    requires
        balanced(s),
        targets_true(s),
        s.len() <= usize::MAX,
    ensures
        can_step(resolved(s), c) == can_step(s, c),
        can_step(s, c) ==> step(resolved(s), c) == step(s, c),
{
    if 0 <= c.ip < s.len() {
        let i = c.ip;
        assert(resolved(s)[i] == resolve_at(s, i));
        match s[i] {
            Op::LoopBegin(_) => {
                lemma_begin_has_end(s, i);
            },
            Op::LoopEnd(_) => {
                lemma_end_has_begin(s, i);
            },
            _ => {},
        }
    }
}

/// On a balanced program, a run of the resolved form and a run of the program
/// itself, from the same state and on the same budget, end in the same state
/// and for the same reason: same tape, same cursors, same bytes emitted.
pub proof fn lemma_resolved_run(s: Seq<Op>, c: Config, fuel: nat)
    requires
        balanced(s),
        targets_true(s),
        s.len() <= usize::MAX,
    ensures
        run(resolved(s), c, fuel) == run(s, c, fuel),
        reason(resolved(s), run(resolved(s), c, fuel)) == reason(s, run(s, c, fuel)),
    decreases fuel,
{
    lemma_resolved_step(s, c);
    if fuel > 0 && can_step(s, c) {
        lemma_resolved_run(s, step(s, c), (fuel - 1) as nat);
    }
    lemma_resolved_step(s, run(s, c, fuel));
}

/// Where a program holds `n` times the single step `op` from the instruction
/// pointer on, and another program holds that step with count `n` at `k`: the
/// counted instruction is defined exactly where all `n` single steps are, and
/// then leaves the tape, the data pointer and the output as they leave them.
pub proof fn lemma_run_as_one_step(s: Seq<Op>, c: Config, op: Op, n: nat, r: Seq<Op>, k: int)
    requires
        op.is_unit(),
        1 <= n <= usize::MAX,
        0 <= c.ip,
        c.ip + n <= s.len(),
        forall|j: int| c.ip <= j < c.ip + n ==> s[j] == op,
        0 <= k < r.len(),
        r[k] == with_count(op, n as usize),
    ensures
        can_step(r, Config { ip: k, ..c }) <==> run(s, c, n).ip == c.ip + n,
        can_step(r, Config { ip: k, ..c }) ==> step(r, Config { ip: k, ..c }) == (Config {
            ip: k + 1,
            ..run(s, c, n)
        }),
    decreases n,
{
    let counted = Config { ip: k, ..c };
    assert(s[c.ip] == op);
    assert(run(s, c, n) == if can_step(s, c) {
        run(s, step(s, c), (n - 1) as nat)
    } else {
        c
    });
    if n == 1 {
        assert(run(s, step(s, c), 0) == step(s, c));
    } else if can_step(s, c) {
        let c1 = step(s, c);
        let m = (n - 1) as nat;
        let r1 = seq![with_count(op, m as usize)];
        let counted1 = Config { ip: 0, ..c1 };
        lemma_run_as_one_step(s, c1, op, m, r1, 0);
        assert(can_step(r1, counted1) <==> can_step(r, counted));
        if can_step(r, counted) {
            let cell = c.tape[c.dp];
            assert(cell_add(cell_add(cell, 1), m as usize) == cell_add(cell, n as usize));
            assert(cell_sub(cell_sub(cell, 1), m as usize) == cell_sub(cell, n as usize));
            assert(step(r, counted).tape =~= step(r1, counted1).tape);
        }
    }
}

/// The idiom, begun with its cell at `v`, is through after `2 * v + 1` steps,
/// and has done what `Zero` does in one: the cell is zero, nothing else on
/// the tape has changed, nothing was emitted, and the run goes on behind it.
pub proof fn lemma_zero_loop_clears(s: Seq<Op>, c: Config)
    requires
        is_zero_loop(s, c.ip),
        0 <= c.dp < c.tape.len(),
    ensures
        run(s, c, (2 * c.tape[c.dp] + 1) as nat) == (Config {
            ip: c.ip + 3,
            tape: c.tape.update(c.dp, 0u8),
            ..c
        }),
{
    let i = c.ip;
    lemma_zero_loop_is_loop(s, i);
    let v = c.tape[c.dp];
    let c1 = step(s, c);
    assert(run(s, c, (2 * v + 1) as nat) == run(s, c1, (2 * v) as nat));
    if v == 0 {
        assert(c.tape.update(c.dp, 0u8) =~= c.tape);
    } else {
        lemma_zero_loop_body(s, i, c1);
    }
}

proof fn lemma_zero_loop_is_loop(s: Seq<Op>, i: int)
    requires
        is_zero_loop(s, i),
    ensures
        is_match(s, i, i + 2),
        loop_end(s, i) == i + 2,
        loop_begin(s, i + 2) == i,
{
    assert(depth(s, i + 1) == depth(s, i) + weight(s[i]));
    assert(depth(s, i + 2) == depth(s, i + 1) + weight(s[i + 1]));
    assert(depth(s, i + 3) == depth(s, i + 2) + weight(s[i + 2]));
    assert(is_match(s, i, i + 2));
    lemma_match_is_partner(s, i, i + 2);
}

proof fn lemma_zero_loop_body(s: Seq<Op>, i: int, c: Config)
    requires
        is_zero_loop(s, i),
        c.ip == i + 1,
        0 <= c.dp < c.tape.len(),
        c.tape[c.dp] >= 1,
    ensures
        run(s, c, (2 * c.tape[c.dp]) as nat) == (Config {
            ip: i + 3,
            tape: c.tape.update(c.dp, 0u8),
            ..c
        }),
    decreases c.tape[c.dp],
{
    lemma_zero_loop_is_loop(s, i);
    let v = c.tape[c.dp];
    let c1 = step(s, c);
    let c2 = step(s, c1);
    assert(cell_sub(v, 1) == v - 1);
    assert(can_step(s, c));
    assert(can_step(s, c1));
    assert(run(s, c, (2 * v) as nat) == run(s, c1, (2 * v - 1) as nat));
    assert(run(s, c1, (2 * v - 1) as nat) == run(s, c2, (2 * v - 2) as nat));
    if v == 1 {
        assert(c2.tape =~= c.tape.update(c.dp, 0u8));
    } else {
        lemma_zero_loop_body(s, i, c2);
        assert(c2.tape.update(c.dp, 0u8) =~= c.tape.update(c.dp, 0u8));
    }
}

} // verus!
