//! From source text to instructions.

use crate::op::Op;
use vstd::prelude::*;

verus! {

/// The instruction that a character stands for, if it stands for one.
pub open spec fn instruction(c: char) -> Option<Op> {
    if c == '>' {
        Some(Op::IncDp(1))
    } else if c == '<' {
        Some(Op::DecDp(1))
    } else if c == '+' {
        Some(Op::IncDerefDp(1))
    } else if c == '-' {
        Some(Op::DecDerefDp(1))
    } else if c == '.' {
        Some(Op::OutDerefDp)
    } else if c == ',' {
        Some(Op::InDerefDp)
    } else if c == '[' {
        Some(Op::LoopBegin(None))
    } else if c == ']' {
        Some(Op::LoopEnd(None))
    } else {
        None
    }
}

/// The program that a text stands for: the instructions of its characters in
/// the order of the text, every other character left out.
pub open spec fn program(text: Seq<char>) -> Seq<Op>
    decreases text.len(),
{
    if text.len() == 0 {
        Seq::empty()
    } else {
        match instruction(text.last()) {
            Some(op) => program(text.drop_last()).push(op),
            None => program(text.drop_last()),
        }
    }
}

/// Decodes one character.
pub fn decode_char(c: char) -> (r: Option<Op>)
    ensures
        r == instruction(c),
{
    if c == '>' {
        Some(Op::IncDp(1))
    } else if c == '<' {
        Some(Op::DecDp(1))
    } else if c == '+' {
        Some(Op::IncDerefDp(1))
    } else if c == '-' {
        Some(Op::DecDerefDp(1))
    } else if c == '.' {
        Some(Op::OutDerefDp)
    } else if c == ',' {
        Some(Op::InDerefDp)
    } else if c == '[' {
        Some(Op::LoopBegin(None))
    } else if c == ']' {
        Some(Op::LoopEnd(None))
    } else {
        None
    }
}

/// Decodes a source text: one instruction for each of the eight instruction
/// characters, in order; every other character is skipped.
pub fn decode(instructions: &str) -> (decoded: Vec<Op>)
    ensures
        decoded@ == program(instructions@),
{
    let mut decoded: Vec<Op> = Vec::new();
    for c in it: instructions.chars()
        invariant
            it.seq() == instructions@,
            decoded@ == program(it.seq().take(it.index() as int)),
    {
        assert(it.seq().take(it.index() + 1).drop_last() =~= it.seq().take(it.index() as int));
        if let Some(op) = decode_char(c) {
            decoded.push(op);
        }
    }
    assert(instructions@.take(instructions@.len() as int) =~= instructions@);
    decoded
}

/// The program of two texts joined is the two programs joined.
pub proof fn lemma_program_concat(a: Seq<char>, b: Seq<char>)
    ensures
        program(a + b) == program(a) + program(b),
    decreases b.len(),
{
    if b.len() == 0 {
        assert(a + b =~= a);
        assert(program(a) + program(b) =~= program(a));
    } else {
        lemma_program_concat(a, b.drop_last());
        assert((a + b).drop_last() =~= a + b.drop_last());
        assert((a + b).last() == b.last());
        match instruction(b.last()) {
            Some(op) => {
                assert((program(a) + program(b.drop_last())).push(op) =~= program(a) + program(
                    b.drop_last(),
                ).push(op));
            },
            None => {},
        }
    }
}

/// A text without any instruction character stands for the empty program.
pub proof fn lemma_program_of_comment(text: Seq<char>)
    requires
        forall|k: int| 0 <= k < text.len() ==> instruction(#[trigger] text[k]) is None,
    ensures
        program(text) == Seq::<Op>::empty(),
    decreases text.len(),
{
    if text.len() > 0 {
        assert(instruction(text[text.len() - 1]) is None);
        assert forall|k: int| 0 <= k < text.drop_last().len() implies instruction(
            #[trigger] text.drop_last()[k],
        ) is None by {
            assert(text.drop_last()[k] == text[k]);
        }
        lemma_program_of_comment(text.drop_last());
    }
}

/// Characters that are no instructions can be inserted anywhere in a text
/// without changing its program.
pub proof fn lemma_program_ignores_inserted(text: Seq<char>, i: int, junk: Seq<char>)
    requires
        0 <= i <= text.len(),
        forall|k: int| 0 <= k < junk.len() ==> instruction(#[trigger] junk[k]) is None,
    ensures
        program(text.subrange(0, i) + junk + text.subrange(i, text.len() as int)) == program(text),
{
    let head = text.subrange(0, i);
    let tail = text.subrange(i, text.len() as int);
    lemma_program_concat(head + junk, tail);
    lemma_program_concat(head, junk);
    lemma_program_of_comment(junk);
    lemma_program_concat(head, tail);
    assert(head + tail =~= text);
    assert(program(head) + Seq::<Op>::empty() =~= program(head));
}

} // verus!
