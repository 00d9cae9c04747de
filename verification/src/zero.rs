//! Zero-loop elision: the loop that decrements a cell until it is zero
//! becomes one instruction.

use crate::brackets::{balanced, depth, lemma_depth_cons, weight};
use crate::op::Op;
use vstd::prelude::*;

verus! {

/// At `i` stands the idiom: an unresolved loop begin, one decrement by one,
/// an unresolved loop end.
pub open spec fn is_zero_loop(s: Seq<Op>, i: int) -> bool {
    &&& 0 <= i
    &&& i + 2 < s.len()
    &&& s[i] == Op::LoopBegin(None)
    &&& s[i + 1] == Op::DecDerefDp(1)
    &&& s[i + 2] == Op::LoopEnd(None)
}

/// The instructions from `i` on, read left to right, with every idiom met
/// replaced by `Zero`. The three instructions of an idiom are consumed
/// together, so two idioms never overlap.
pub open spec fn elided_from(s: Seq<Op>, i: int) -> Seq<Op>
    decreases s.len() - i,
{
    if i < 0 || i >= s.len() {
        Seq::empty()
    } else if is_zero_loop(s, i) {
        seq![Op::Zero] + elided_from(s, i + 3)
    } else {
        seq![s[i]] + elided_from(s, i + 1)
    }
}

/// The program with every zero loop elided.
pub open spec fn elided(s: Seq<Op>) -> Seq<Op> {
    elided_from(s, 0)
}

/// Every depth met in the elision from `i` on is met in the program from `i`
/// on: the depth before index `k` of the elision is the rise of the depth
/// from `i` to the index returned, and the two ends correspond.
pub proof fn lemma_elided_depth(s: Seq<Op>, i: int, k: int) -> (j: int)
    requires
        0 <= i <= s.len(),
        0 <= k <= elided_from(s, i).len(),
    ensures
        i <= j <= s.len(),
        depth(elided_from(s, i), k) == depth(s, j) - depth(s, i),
        k == elided_from(s, i).len() ==> j == s.len(),
    decreases s.len() - i,
{
    if i == s.len() || k == 0 {
        if k == 0 && i < s.len() {
            assert(elided_from(s, i).len() > 0);
        }
        i
    } else {
        let n: int = if is_zero_loop(s, i) {
            3
        } else {
            1
        };
        let t = elided_from(s, i + n);
        let h = elided_from(s, i)[0];
        assert(elided_from(s, i) =~= seq![h] + t);
        let j = lemma_elided_depth(s, i + n, k - 1);
        lemma_depth_cons(h, t, k);
        assert(depth(s, i + 1) == depth(s, i) + weight(s[i]));
        if is_zero_loop(s, i) {
            assert(depth(s, i + 2) == depth(s, i + 1) + weight(s[i + 1]));
            assert(depth(s, i + 3) == depth(s, i + 2) + weight(s[i + 2]));
        }
        j
    }
}

/// Elision keeps a balanced program balanced.
pub proof fn lemma_elision_keeps_balance(s: Seq<Op>)
    requires
        balanced(s),
    ensures
        balanced(elided(s)),
{
    let r = elided(s);
    assert forall|k: int| 0 <= k <= r.len() implies depth(r, k) >= 0 by {
        let j = lemma_elided_depth(s, 0, k);
    }
    let j = lemma_elided_depth(s, 0, r.len() as int);
}

/// Whether the idiom stands at `ip`.
pub fn zero_loop_at(ops: &Vec<Op>, ip: usize) -> (b: bool)
    ensures
        b == is_zero_loop(ops@, ip as int),
{
    ip < ops.len() && ops.len() - ip > 2 && ops[ip] == Op::LoopBegin(None) && ops[ip + 1]
        == Op::DecDerefDp(1) && ops[ip + 2] == Op::LoopEnd(None)
}

/// Replaces every zero loop by `Zero`; every other instruction is kept.
pub fn elide_zeroing_loop(ops: &Vec<Op>) -> (new_ops: Vec<Op>)
    ensures
        new_ops@ == elided(ops@),
        new_ops@.len() <= ops@.len(),
        balanced(ops@) ==> balanced(new_ops@),
{
    let mut new_ops: Vec<Op> = Vec::with_capacity(ops.len());
    let mut ip: usize = 0;
    while ip < ops.len()
        invariant
            ip <= ops.len(),
            new_ops@.len() <= ip,
            new_ops@ + elided_from(ops@, ip as int) == elided(ops@),
        decreases ops.len() - ip,
    {
        let ghost before = new_ops@;
        let ghost rest = elided_from(ops@, ip as int);
        if zero_loop_at(ops, ip) {
            new_ops.push(Op::Zero);
            ip += 2;
        } else {
            new_ops.push(ops[ip]);
        }
        ip += 1;
        assert(new_ops@ + elided_from(ops@, ip as int) =~= before + rest);
    }
    proof {
        assert(new_ops@ + elided_from(ops@, ip as int) =~= new_ops@);
        if balanced(ops@) {
            lemma_elision_keeps_balance(ops@);
        }
    }
    new_ops
}

} // verus!
