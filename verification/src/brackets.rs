//! Loop nesting: depth, partners, and the stage that resolves every loop
//! instruction to the index of its partner.

use crate::op::Op;
use vstd::prelude::*;

verus! {

/// What an instruction adds to the nesting depth.
pub open spec fn weight(op: Op) -> int {
    match op {
        Op::LoopBegin(_) => 1,
        Op::LoopEnd(_) => -1,
        _ => 0,
    }
}

/// The nesting depth just before index `i`: loops begun minus loops ended
/// among the first `i` instructions.
pub open spec fn depth(s: Seq<Op>, i: int) -> int
    decreases i,
{
    if i <= 0 {
        0
    } else {
        depth(s, i - 1) + weight(s[i - 1])
    }
}

/// No loop is ended that was not begun.
pub open spec fn well_nested(s: Seq<Op>) -> bool {
    forall|i: int| 0 <= i <= s.len() ==> depth(s, i) >= 0
}

/// Well nested, and every loop that was begun is ended.
pub open spec fn balanced(s: Seq<Op>) -> bool {
    well_nested(s) && depth(s, s.len() as int) == 0
}

/// The loop that begins at `b` ends at `e`: `e` is the first place after `b`
/// behind which the depth is back to what it was before `b`.
pub open spec fn is_match(s: Seq<Op>, b: int, e: int) -> bool {
    &&& 0 <= b < e < s.len()
    &&& s[b] is LoopBegin
    &&& s[e] is LoopEnd
    &&& depth(s, e + 1) == depth(s, b)
    &&& forall|k: int| b < k <= e ==> depth(s, k) > depth(s, b)
}

/// The end of the loop that begins at `b`, where it has one.
pub open spec fn loop_end(s: Seq<Op>, b: int) -> int {
    choose|e: int| is_match(s, b, e)
}

/// The begin of the loop that ends at `e`, where it has one.
pub open spec fn loop_begin(s: Seq<Op>, e: int) -> int {
    choose|b: int| is_match(s, b, e)
}

/// Behind a first instruction `h`, every depth of `t` is shifted by what `h`
/// adds.
pub proof fn lemma_depth_cons(h: Op, t: Seq<Op>, k: int)
    requires
        1 <= k <= t.len() + 1,
    ensures
        depth(seq![h] + t, k) == weight(h) + depth(t, k - 1),
    decreases k,
{
    let r = seq![h] + t;
    if k == 1 {
        assert(depth(r, 0) == 0);
        assert(r[0] == h);
    } else {
        lemma_depth_cons(h, t, k - 1);
        assert(r[k - 1] == t[k - 2]);
    }
}

/// Over instructions that are no loop instructions the depth stays the same.
pub proof fn lemma_depth_flat(s: Seq<Op>, i: int, j: int)
    requires
        0 <= i <= j <= s.len(),
        forall|k: int| i <= k < j ==> weight(#[trigger] s[k]) == 0,
    ensures
        depth(s, j) == depth(s, i),
    decreases j - i,
{
    if i < j {
        lemma_depth_flat(s, i, j - 1);
    }
}

/// A loop has at most one end.
pub proof fn lemma_end_unique(s: Seq<Op>, b: int, e1: int, e2: int)
    requires
        is_match(s, b, e1),
        is_match(s, b, e2),
    ensures
        e1 == e2,
{
    if e1 < e2 {
        assert(depth(s, e1 + 1) > depth(s, b));
    } else if e2 < e1 {
        assert(depth(s, e2 + 1) > depth(s, b));
    }
}

/// A loop has at most one begin.
pub proof fn lemma_begin_unique(s: Seq<Op>, b1: int, b2: int, e: int)
    requires
        is_match(s, b1, e),
        is_match(s, b2, e),
    ensures
        b1 == b2,
{
    if b1 < b2 {
        assert(depth(s, b2) > depth(s, b1));
    } else if b2 < b1 {
        assert(depth(s, b1) > depth(s, b2));
    }
}

proof fn lemma_scan_forward(s: Seq<Op>, b: int, j: int)
    requires
        balanced(s),
        0 <= b < j <= s.len(),
        s[b] is LoopBegin,
        forall|k: int| b < k <= j ==> depth(s, k) > depth(s, b),
    ensures
        exists|e: int| is_match(s, b, e),
    decreases s.len() - j,
{
    assert(depth(s, b) >= 0);
    assert(j < s.len());
    assert(depth(s, j + 1) == depth(s, j) + weight(s[j]));
    if depth(s, j + 1) == depth(s, b) {
        assert(is_match(s, b, j));
    } else {
        lemma_scan_forward(s, b, j + 1);
    }
}

proof fn lemma_scan_backward(s: Seq<Op>, e: int, j: int)
    requires
        balanced(s),
        0 <= j <= e < s.len(),
        s[e] is LoopEnd,
        forall|k: int| j <= k <= e ==> #[trigger] depth(s, k) > depth(s, e + 1),
    ensures
        exists|b: int| is_match(s, b, e),
    decreases j,
{
    assert(depth(s, e + 1) >= 0);
    assert(depth(s, 0) == 0);
    assert(j > 0);
    assert(depth(s, j) == depth(s, j - 1) + weight(s[j - 1]));
    if depth(s, j - 1) == depth(s, e + 1) {
        assert(is_match(s, j - 1, e));
    } else {
        lemma_scan_backward(s, e, j - 1);
    }
}

/// In a balanced program every loop that begins also ends.
pub proof fn lemma_begin_has_end(s: Seq<Op>, b: int)
    requires
        balanced(s),
        0 <= b < s.len(),
        s[b] is LoopBegin,
    ensures
        is_match(s, b, loop_end(s, b)),
{
    assert(depth(s, b + 1) == depth(s, b) + weight(s[b]));
    lemma_scan_forward(s, b, b + 1);
}

/// In a balanced program every loop that ends also began.
pub proof fn lemma_end_has_begin(s: Seq<Op>, e: int)
    requires
        balanced(s),
        0 <= e < s.len(),
        s[e] is LoopEnd,
    ensures
        is_match(s, loop_begin(s, e), e),
{
    assert(depth(s, e + 1) == depth(s, e) + weight(s[e]));
    lemma_scan_backward(s, e, e);
}

/// Scans forward from a loop begin to its end.
///
/// Returns the end's index, or `None` where `begin` is no loop begin or its
/// loop is never ended.
pub fn find_end(ops: &Vec<Op>, begin: usize) -> (r: Option<usize>)
    ensures
        match r {
            Some(e) => is_match(ops@, begin as int, e as int),
            None => forall|e: int| !is_match(ops@, begin as int, e),
        },
{
    if begin >= ops.len() {
        return None;
    }
    match ops[begin] {
        Op::LoopBegin(_) => {},
        _ => {
            return None;
        },
    }
    let mut level: usize = 1;
    let mut j: usize = begin;
    while level > 0
        invariant
            begin <= j < ops.len(),
            ops@[begin as int] is LoopBegin,
            level == depth(ops@, j + 1) - depth(ops@, begin as int),
            level <= j + 1 - begin,
            forall|k: int| begin < k <= j ==> depth(ops@, k) > depth(ops@, begin as int),
        decreases ops.len() - j,
    {
        j += 1;
        if j >= ops.len() {
            return None;
        }
        match ops[j] {
            Op::LoopBegin(_) => {
                level += 1;
            },
            Op::LoopEnd(_) => {
                level -= 1;
            },
            _ => {},
        }
    }
    proof {
        assert(depth(ops@, begin + 1) == depth(ops@, begin as int) + weight(ops@[begin as int]));
        assert(depth(ops@, j + 1) == depth(ops@, j as int) + weight(ops@[j as int]));
    }
    Some(j)
}

/// Scans backward from a loop end to its begin.
///
/// Returns the begin's index, or `None` where `end` is no loop end or its
/// loop was never begun.
pub fn find_begin(ops: &Vec<Op>, end: usize) -> (r: Option<usize>)
    ensures
        match r {
            Some(b) => is_match(ops@, b as int, end as int),
            None => forall|b: int| !is_match(ops@, b, end as int),
        },
{
    if end >= ops.len() {
        return None;
    }
    match ops[end] {
        Op::LoopEnd(_) => {},
        _ => {
            return None;
        },
    }
    let mut level: usize = 1;
    let mut j: usize = end;
    while level > 0
        invariant
            j <= end < ops.len(),
            ops@[end as int] is LoopEnd,
            level == depth(ops@, j as int) - depth(ops@, end + 1),
            level <= end - j + 1,
            forall|k: int| j < k <= end ==> #[trigger] depth(ops@, k) > depth(ops@, end + 1),
        decreases j,
    {
        if j == 0 {
            return None;
        }
        j -= 1;
        match ops[j] {
            Op::LoopEnd(_) => {
                level += 1;
            },
            Op::LoopBegin(_) => {
                level -= 1;
            },
            _ => {},
        }
    }
    proof {
        assert(depth(ops@, end + 1) == depth(ops@, end as int) + weight(ops@[end as int]));
        assert(depth(ops@, j + 1) == depth(ops@, j as int) + weight(ops@[j as int]));
    }
    Some(j)
}

/// The depth behind the last instruction, or `None` where some loop is ended
/// that was not begun.
pub fn nesting(ops: &Vec<Op>) -> (r: Option<usize>)
    ensures
        r is Some <==> well_nested(ops@),
        r matches Some(d) ==> d == depth(ops@, ops@.len() as int),
{
    let mut d: usize = 0;
    let mut i: usize = 0;
    while i < ops.len()
        invariant
            i <= ops.len(),
            d == depth(ops@, i as int),
            d <= i,
            forall|k: int| 0 <= k <= i ==> depth(ops@, k) >= 0,
        decreases ops.len() - i,
    {
        match ops[i] {
            Op::LoopBegin(_) => {
                d += 1;
            },
            Op::LoopEnd(_) => {
                if d == 0 {
                    assert(depth(ops@, i + 1) < 0);
                    return None;
                }
                d -= 1;
            },
            _ => {},
        }
        i += 1;
    }
    Some(d)
}

/// Whether the loops of a program are balanced.
pub fn is_balanced(ops: &Vec<Op>) -> (b: bool)
    ensures
        b == balanced(ops@),
{
    match nesting(ops) {
        Some(d) => d == 0,
        None => false,
    }
}

/// The instruction at `i` with its partner's index written into it.
pub open spec fn resolve_at(s: Seq<Op>, i: int) -> Op {
    match s[i] {
        Op::LoopBegin(_) => Op::LoopBegin(Some(loop_end(s, i) as usize)),
        Op::LoopEnd(_) => Op::LoopEnd(Some(loop_begin(s, i) as usize)),
        op => op,
    }
}

/// The program with every loop instruction resolved to its partner.
pub open spec fn resolved(s: Seq<Op>) -> Seq<Op> {
    Seq::new(s.len(), |i: int| resolve_at(s, i))
}

/// Partners determine each other: the end of a loop is the end of its begin,
/// and its begin is the begin of its end.
pub proof fn lemma_match_is_partner(s: Seq<Op>, b: int, e: int)
    requires
        is_match(s, b, e),
    ensures
        loop_end(s, b) == e,
        loop_begin(s, e) == b,
{
    lemma_end_unique(s, b, e, loop_end(s, b));
    lemma_begin_unique(s, b, loop_begin(s, e), e);
}

/// Resolving changes no depth.
pub proof fn lemma_resolved_depth(s: Seq<Op>, i: int)
    requires
        0 <= i <= s.len(),
    ensures
        depth(resolved(s), i) == depth(s, i),
    decreases i,
{
    if i > 0 {
        lemma_resolved_depth(s, i - 1);
        assert(weight(resolved(s)[i - 1]) == weight(s[i - 1]));
    }
}

/// Resolving keeps a balanced program balanced.
pub proof fn lemma_resolved_balanced(s: Seq<Op>)
    requires
        balanced(s),
    ensures
        balanced(resolved(s)),
{
    assert forall|i: int| 0 <= i <= resolved(s).len() implies depth(resolved(s), i) >= 0 by {
        lemma_resolved_depth(s, i);
    }
    lemma_resolved_depth(s, s.len() as int);
}

/// After resolution a loop begin at `i` carries an index `t` behind it at
/// which a loop end stands; that loop end carries `i`; and the depth behind
/// `t` is the depth before `i`.
pub proof fn lemma_resolution_round_trip(s: Seq<Op>, i: int)
    requires
        balanced(s),
        s.len() <= usize::MAX,
        0 <= i < s.len(),
        s[i] is LoopBegin,
    ensures
        ({
            let r = resolved(s);
            let t = loop_end(s, i);
            &&& i < t < r.len()
            &&& r[i] == Op::LoopBegin(Some(t as usize))
            &&& r[t] == Op::LoopEnd(Some(i as usize))
            &&& depth(r, t + 1) == depth(r, i)
            &&& depth(s, t + 1) == depth(s, i)
        }),
{
    lemma_begin_has_end(s, i);
    let t = loop_end(s, i);
    lemma_match_is_partner(s, i, t);
    lemma_resolved_depth(s, i);
    lemma_resolved_depth(s, t + 1);
}

/// After resolution a loop end at `i` carries an index `t` before it at
/// which a loop begin stands, and that loop begin carries `i`.
pub proof fn lemma_resolution_round_trip_from_end(s: Seq<Op>, i: int)
    requires
        balanced(s),
        s.len() <= usize::MAX,
        0 <= i < s.len(),
        s[i] is LoopEnd,
    ensures
        ({
            let r = resolved(s);
            let t = loop_begin(s, i);
            &&& 0 <= t < i
            &&& r[i] == Op::LoopEnd(Some(t as usize))
            &&& r[t] == Op::LoopBegin(Some(i as usize))
        }),
{
    lemma_end_has_begin(s, i);
    lemma_match_is_partner(s, loop_begin(s, i), i);
}

/// Writes into every loop instruction the index of its partner, whatever it
/// carried before; every other instruction is kept.
///
/// The indices are positions in this very program, so this is the last
/// stage to apply.
pub fn match_brackets(ops: &Vec<Op>) -> (new_ops: Vec<Op>)
    requires
        balanced(ops@),
    ensures
        new_ops@ == resolved(ops@),
        balanced(new_ops@),
{
    let mut new_ops: Vec<Op> = Vec::with_capacity(ops.len());
    let mut ip: usize = 0;
    while ip < ops.len()
        invariant
            balanced(ops@),
            ip <= ops.len(),
            new_ops@.len() == ip,
            forall|i: int| 0 <= i < ip ==> new_ops@[i] == resolve_at(ops@, i),
        decreases ops.len() - ip,
    {
        match ops[ip] {
            Op::LoopBegin(_) => {
                proof {
                    lemma_begin_has_end(ops@, ip as int);
                }
                let found = find_end(ops, ip);
                let end_ip: usize = found.unwrap();
                proof {
                    lemma_end_unique(ops@, ip as int, end_ip as int, loop_end(ops@, ip as int));
                }
                new_ops.push(Op::LoopBegin(Some(end_ip)));
            },
            Op::LoopEnd(_) => {
                proof {
                    lemma_end_has_begin(ops@, ip as int);
                }
                let found = find_begin(ops, ip);
                let begin_ip: usize = found.unwrap();
                proof {
                    lemma_begin_unique(
                        ops@,
                        begin_ip as int,
                        loop_begin(ops@, ip as int),
                        ip as int,
                    );
                }
                new_ops.push(Op::LoopEnd(Some(begin_ip)));
            },
            op => {
                new_ops.push(op);
            },
        }
        ip += 1;
    }
    proof {
        assert(new_ops@ =~= resolved(ops@));
        lemma_resolved_balanced(ops@);
    }
    new_ops
}

} // verus!
