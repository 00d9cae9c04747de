//! Run-length collapse: a run of one single step becomes one counted
//! instruction.

use crate::decode::program;
use crate::brackets::{balanced, depth, lemma_depth_cons, lemma_depth_flat};
use crate::op::Op;
use vstd::prelude::*;

verus! {

/// The number of consecutive instructions equal to `op`, counted from `i`.
pub open spec fn run_len(s: Seq<Op>, op: Op, i: int) -> nat
    decreases s.len() - i,
{
    if 0 <= i < s.len() && s[i] == op {
        1 + run_len(s, op, i + 1)
    } else {
        0
    }
}

/// A counted instruction with its count replaced; any other instruction as
/// it is.
pub open spec fn with_count(op: Op, n: usize) -> Op {
    match op {
        Op::IncDp(_) => Op::IncDp(n),
        Op::DecDp(_) => Op::DecDp(n),
        Op::IncDerefDp(_) => Op::IncDerefDp(n),
        Op::DecDerefDp(_) => Op::DecDerefDp(n),
        other => other,
    }
}

/// The collapse of the instructions from `i` on: a single step stands for its
/// whole run, with the run's length as its count; anything else stands for
/// itself.
pub open spec fn collapsed_from(s: Seq<Op>, i: int) -> Seq<Op>
    decreases s.len() - i,
{
    if i < 0 || i >= s.len() {
        Seq::empty()
    } else if s[i].is_unit() {
        let n = run_len(s, s[i], i);
        proof {
            lemma_run_len(s, s[i], i);
        }
        seq![with_count(s[i], #[verifier::truncate] (n as usize))] + collapsed_from(s, i + n)
    } else {
        seq![s[i]] + collapsed_from(s, i + 1)
    }
}

/// The collapse of a program.
pub open spec fn collapsed(s: Seq<Op>) -> Seq<Op> {
    collapsed_from(s, 0)
}

/// A run is made of `op` alone, stays inside the program, and cannot be
/// extended.
pub proof fn lemma_run_len(s: Seq<Op>, op: Op, i: int)
    requires
        0 <= i <= s.len(),
    ensures
        i + run_len(s, op, i) <= s.len(),
        forall|k: int| i <= k < i + run_len(s, op, i) ==> s[k] == op,
        i + run_len(s, op, i) < s.len() ==> s[i + run_len(s, op, i)] != op,
    decreases s.len() - i,
{
    if i < s.len() && s[i] == op {
        lemma_run_len(s, op, i + 1);
    }
}

/// Counts the consecutive instructions equal to `op`, from `idx` on.
pub fn run_length(op: Op, ops: &Vec<Op>, idx: usize) -> (count: usize)
    ensures
        count == run_len(ops@, op, idx as int),
        idx <= ops.len() ==> idx + count <= ops.len(),
        forall|k: int| idx <= k < idx + count ==> ops@[k] == op,
        idx + count < ops.len() ==> ops@[idx + count] != op,
{
    let mut i: usize = idx;
    let mut count: usize = 0;
    while i < ops.len() && ops[i] == op
        invariant
            i == idx + count,
            idx < ops.len() ==> i <= ops.len(),
            forall|k: int| idx <= k < i ==> ops@[k] == op,
            run_len(ops@, op, idx as int) == count + run_len(ops@, op, i as int),
        decreases ops.len() - i,
    {
        i += 1;
        count += 1;
    }
    count
}

/// Replaces every maximal run of one single step by that step with the run's
/// length as its count. Every other instruction is kept and ends a run.
pub fn rle(ops: &Vec<Op>) -> (new_ops: Vec<Op>)
    ensures
        new_ops@ == collapsed(ops@),
        new_ops@.len() <= ops@.len(),
        balanced(ops@) ==> balanced(new_ops@),
{
    let mut new_ops: Vec<Op> = Vec::with_capacity(ops.len());
    let mut ip: usize = 0;
    while ip < ops.len()
        invariant
            ip <= ops.len(),
            new_ops@ + collapsed_from(ops@, ip as int) == collapsed(ops@),
        decreases ops.len() - ip,
    {
        let ghost before = new_ops@;
        let ghost rest = collapsed_from(ops@, ip as int);
        match ops[ip] {
            Op::IncDp(1) => {
                let count: usize = run_length(Op::IncDp(1), ops, ip);
                new_ops.push(Op::IncDp(count));
                ip += count;
            },
            Op::DecDp(1) => {
                let count: usize = run_length(Op::DecDp(1), ops, ip);
                new_ops.push(Op::DecDp(count));
                ip += count;
            },
            Op::IncDerefDp(1) => {
                let count: usize = run_length(Op::IncDerefDp(1), ops, ip);
                new_ops.push(Op::IncDerefDp(count));
                ip += count;
            },
            Op::DecDerefDp(1) => {
                let count: usize = run_length(Op::DecDerefDp(1), ops, ip);
                new_ops.push(Op::DecDerefDp(count));
                ip += count;
            },
            op => {
                new_ops.push(op);
                ip += 1;
            },
        }
        assert(new_ops@ + collapsed_from(ops@, ip as int) =~= before + rest);
    }
    proof {
        assert(new_ops@ + collapsed_from(ops@, ip as int) =~= new_ops@);
        lemma_collapsed_len(ops@, 0);
        if balanced(ops@) {
            lemma_collapse_keeps_balance(ops@);
        }
    }
    new_ops
}

/// A collapse is never longer than what it collapses.
pub proof fn lemma_collapsed_len(s: Seq<Op>, i: int)
    requires
        0 <= i <= s.len(),
    ensures
        collapsed_from(s, i).len() <= s.len() - i,
    decreases s.len() - i,
{
    if i < s.len() {
        if s[i].is_unit() {
            lemma_run_len(s, s[i], i);
            lemma_collapsed_len(s, i + run_len(s, s[i], i));
        } else {
            lemma_collapsed_len(s, i + 1);
        }
    }
}

/// Every depth met in the collapse from `i` on is met in the program from `i`
/// on: the depth before index `k` of the collapse is the rise of the depth
/// from `i` to the index returned, and the two ends correspond.
pub proof fn lemma_collapsed_depth(s: Seq<Op>, i: int, k: int) -> (j: int)
    requires
        0 <= i <= s.len(),
        0 <= k <= collapsed_from(s, i).len(),
    ensures
        i <= j <= s.len(),
        depth(collapsed_from(s, i), k) == depth(s, j) - depth(s, i),
        k == collapsed_from(s, i).len() ==> j == s.len(),
    decreases s.len() - i,
{
    if i == s.len() || k == 0 {
        if k == 0 && i < s.len() {
            assert(collapsed_from(s, i).len() > 0);
        }
        i
    } else {
        let n: int = if s[i].is_unit() {
            run_len(s, s[i], i) as int
        } else {
            1
        };
        lemma_run_len(s, s[i], i);
        let t = collapsed_from(s, i + n);
        let h = collapsed_from(s, i)[0];
        assert(collapsed_from(s, i) =~= seq![h] + t);
        let j = lemma_collapsed_depth(s, i + n, k - 1);
        lemma_depth_cons(h, t, k);
        if s[i].is_unit() {
            lemma_depth_flat(s, i, i + n);
        }
        j
    }
}

/// Collapsing keeps a balanced program balanced.
pub proof fn lemma_collapse_keeps_balance(s: Seq<Op>)
    requires
        balanced(s),
    ensures
        balanced(collapsed(s)),
{
    let r = collapsed(s);
    assert forall|k: int| 0 <= k <= r.len() implies depth(r, k) >= 0 by {
        let j = lemma_collapsed_depth(s, 0, k);
    }
    let j = lemma_collapsed_depth(s, 0, r.len() as int);
}

/// No single step is followed by itself.
pub open spec fn tidy(s: Seq<Op>) -> bool {
    forall|i: int| 0 <= i && i + 1 < s.len() && (#[trigger] s[i]).is_unit() ==> s[i + 1] != s[i]
}

/// Collapsing changes nothing where no single step is followed by itself.
pub proof fn lemma_collapsed_tidy(s: Seq<Op>, i: int)
    requires
        tidy(s),
        0 <= i <= s.len(),
    ensures
        collapsed_from(s, i) == s.subrange(i, s.len() as int),
    decreases s.len() - i,
{
    if i < s.len() {
        lemma_collapsed_tidy(s, i + 1);
        if s[i].is_unit() {
            assert(run_len(s, s[i], i + 1) == 0);
            assert(run_len(s, s[i], i) == 1);
        }
        assert(collapsed_from(s, i) =~= s.subrange(i, s.len() as int));
    } else {
        assert(collapsed_from(s, i) =~= s.subrange(i, s.len() as int));
    }
}

/// In a collapse no single step is followed by itself.
pub proof fn lemma_collapsed_is_tidy(s: Seq<Op>, i: int)
    requires
        0 <= i <= s.len(),
        s.len() <= usize::MAX,
    ensures
        tidy(collapsed_from(s, i)),
    decreases s.len() - i,
{
    if i < s.len() {
        let r = collapsed_from(s, i);
        let n: int = if s[i].is_unit() {
            run_len(s, s[i], i) as int
        } else {
            1
        };
        lemma_run_len(s, s[i], i);
        let t = collapsed_from(s, i + n);
        lemma_collapsed_is_tidy(s, i + n);
        assert(r.len() == t.len() + 1);
        assert(forall|k: int| 0 <= k < t.len() ==> r[k + 1] == t[k]);
        assert forall|k: int| 0 <= k && k + 1 < r.len() && (#[trigger] r[k]).is_unit() implies r[k
            + 1] != r[k] by {
            if k == 0 {
                // the head is a single step, so its run had length one and
                // what follows it in the program is another instruction
                assert(n == 1);
                assert(r[0] == s[i]);
                assert(i + 1 < s.len());
                assert(s[i + 1] != s[i]);
                if s[i + 1].is_unit() {
                    lemma_run_len(s, s[i + 1], i + 1);
                }
                assert(t[0] != s[i]);
            } else {
                assert(r[k] == t[k - 1]);
                assert(r[k + 1] == t[k]);
            }
        }
    }
}

/// Collapsing twice gives what collapsing once gives.
pub proof fn lemma_collapse_idempotent(s: Seq<Op>)
    requires
        s.len() <= usize::MAX,
    ensures
        collapsed(collapsed(s)) == collapsed(s),
        collapsed(s).len() <= s.len(),
{
    let r = collapsed(s);
    lemma_collapsed_is_tidy(s, 0);
    lemma_collapsed_tidy(r, 0);
    assert(r.subrange(0, r.len() as int) =~= r);
    lemma_collapsed_len(s, 0);
}

/// A single step repeated `n` times collapses to that step with count `n`.
pub proof fn lemma_collapse_of_run(op: Op, n: nat)
    requires
        op.is_unit(),
        1 <= n <= usize::MAX,
    ensures
        collapsed(Seq::new(n, |i: int| op)) == seq![with_count(op, n as usize)],
{
    let s = Seq::new(n, |i: int| op);
    lemma_constant_run(s, op, 0);
    assert(collapsed_from(s, n as int) =~= Seq::<Op>::empty());
    assert(collapsed(s) =~= seq![with_count(op, n as usize)]);
}

proof fn lemma_constant_run(s: Seq<Op>, op: Op, i: int)
    requires
        0 <= i <= s.len(),
        forall|k: int| 0 <= k < s.len() ==> s[k] == op,
    ensures
        run_len(s, op, i) == s.len() - i,
    decreases s.len() - i,
{
    if i < s.len() {
        lemma_constant_run(s, op, i + 1);
    }
}

/// The text of `n` characters `>` decodes and collapses to one move to the
/// right by `n`.
pub proof fn lemma_collapse_of_decoded_run(n: nat)
    requires
        1 <= n <= usize::MAX,
    ensures
        collapsed(program(Seq::new(n, |i: int| '>'))) == seq![Op::IncDp(n as usize)],
{
    lemma_program_of_moves(n);
    lemma_collapse_of_run(Op::IncDp(1), n);
}

proof fn lemma_program_of_moves(n: nat)
    ensures
        program(Seq::new(n, |i: int| '>')) == Seq::new(n, |i: int| Op::IncDp(1)),
    decreases n,
{
    let text = Seq::new(n, |i: int| '>');
    if n > 0 {
        lemma_program_of_moves((n - 1) as nat);
        assert(text.drop_last() =~= Seq::new((n - 1) as nat, |i: int| '>'));
        assert(Seq::new((n - 1) as nat, |i: int| Op::IncDp(1)).push(Op::IncDp(1)) =~= Seq::new(
            n,
            |i: int| Op::IncDp(1),
        ));
    } else {
        assert(program(text) =~= Seq::new(n, |i: int| Op::IncDp(1)));
    }
}

} // verus!
