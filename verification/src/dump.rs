//! Text for people: one instruction, a whole program, the state before a
//! step. Nothing here changes a run.

use crate::brackets::{depth, well_nested};
use crate::op::Op;
use vstd::prelude::*;

verus! {

/// The ten digits, in order.
pub open spec fn digits() -> Seq<char> {
    seq!['0', '1', '2', '3', '4', '5', '6', '7', '8', '9']
}

/// A number in decimal, without sign or leading zero.
pub open spec fn decimal(n: nat) -> Seq<char>
    decreases n,
{
    if n < 10 {
        seq![digits()[n as int]]
    } else {
        decimal(n / 10).push(digits()[(n % 10) as int])
    }
}

/// `k` spaces.
pub open spec fn spaces(k: int) -> Seq<char> {
    Seq::new(k as nat, |i: int| ' ')
}

impl Op {
    /// The instruction as text: its character, and behind an underscore its
    /// count or its resolved partner.
    pub open spec fn text(self) -> Seq<char> {
        match self {
            Op::IncDp(n) => seq!['>', '_'] + decimal(n as nat),
            Op::DecDp(n) => seq!['<', '_'] + decimal(n as nat),
            Op::IncDerefDp(n) => seq!['+', '_'] + decimal(n as nat),
            Op::DecDerefDp(n) => seq!['-', '_'] + decimal(n as nat),
            Op::OutDerefDp => seq!['.'],
            Op::InDerefDp => seq![','],
            Op::LoopBegin(None) => seq!['['],
            Op::LoopBegin(Some(t)) => seq!['[', '_'] + decimal(t as nat),
            Op::LoopEnd(None) => seq![']'],
            Op::LoopEnd(Some(t)) => seq![']', '_'] + decimal(t as nat),
            Op::Zero => seq!['Z'],
        }
    }
}

/// What the instruction at `i` adds to a listing: its text, and before a
/// loop begin a new line indented by the nesting depth.
pub open spec fn entry(s: Seq<Op>, i: int) -> Seq<char> {
    if s[i] is LoopBegin {
        seq!['\n'] + spaces(depth(s, i)) + s[i].text()
    } else {
        s[i].text()
    }
}

/// The entries of the first `n` instructions, one after the other.
pub open spec fn entries(s: Seq<Op>, n: int) -> Seq<char>
    decreases n,
{
    if n <= 0 {
        Seq::empty()
    } else {
        entries(s, n - 1) + entry(s, n - 1)
    }
}

/// The listing of a program: all its entries and a final new line.
pub open spec fn listing(s: Seq<Op>) -> Seq<char> {
    entries(s, s.len() as int).push('\n')
}

/// The line that describes the state before a step.
pub open spec fn trace(dp: usize, cell: u8, op: Op) -> Seq<char> {
    seq!['d', 'p', ' '] + decimal(dp as nat) + seq![' ', 'm', 'e', 'm', '[', 'd', 'p', ']', ' ']
        + decimal(cell as nat) + seq![' ', 'o', 'p', ' '] + op.text()
}

fn digit_str(d: usize) -> (r: &'static str)
    requires
        d < 10,
    ensures
        r@ == seq![digits()[d as int]],
{
    proof {
        reveal_strlit("0");
        reveal_strlit("1");
        reveal_strlit("2");
        reveal_strlit("3");
        reveal_strlit("4");
        reveal_strlit("5");
        reveal_strlit("6");
        reveal_strlit("7");
        reveal_strlit("8");
        reveal_strlit("9");
    }
    let r = match d {
        0 => "0",
        1 => "1",
        2 => "2",
        3 => "3",
        4 => "4",
        5 => "5",
        6 => "6",
        7 => "7",
        8 => "8",
        _ => "9",
    };
    assert(r@ =~= seq![digits()[d as int]]);
    r
}

/// Appends a number in decimal.
pub fn push_decimal(text: &mut String, n: usize)
    ensures
        final(text)@ == old(text)@ + decimal(n as nat),
    decreases n,
{
    if n >= 10 {
        push_decimal(text, n / 10);
    }
    text.append(digit_str(n % 10));
    assert(text@ =~= old(text)@ + decimal(n as nat));
}

impl Op {
    /// The instruction as text.
    pub fn render(&self) -> (r: String)
        ensures
            r@ == self.text(),
    {
        let mut r = String::new();
        proof {
            reveal_strlit(">_");
            reveal_strlit("<_");
            reveal_strlit("+_");
            reveal_strlit("-_");
            reveal_strlit(".");
            reveal_strlit(",");
            reveal_strlit("[");
            reveal_strlit("[_");
            reveal_strlit("]");
            reveal_strlit("]_");
            reveal_strlit("Z");
        }
        match *self {
            Op::IncDp(n) => {
                r.append(">_");
                push_decimal(&mut r, n);
            },
            Op::DecDp(n) => {
                r.append("<_");
                push_decimal(&mut r, n);
            },
            Op::IncDerefDp(n) => {
                r.append("+_");
                push_decimal(&mut r, n);
            },
            Op::DecDerefDp(n) => {
                r.append("-_");
                push_decimal(&mut r, n);
            },
            Op::OutDerefDp => {
                r.append(".");
            },
            Op::InDerefDp => {
                r.append(",");
            },
            Op::LoopBegin(None) => {
                r.append("[");
            },
            Op::LoopBegin(Some(t)) => {
                r.append("[_");
                push_decimal(&mut r, t);
            },
            Op::LoopEnd(None) => {
                r.append("]");
            },
            Op::LoopEnd(Some(t)) => {
                r.append("]_");
                push_decimal(&mut r, t);
            },
            Op::Zero => {
                r.append("Z");
            },
        }
        assert(r@ =~= self.text());
        r
    }
}

/// Lists a program: every instruction as text, each loop begin on a new line
/// and indented by its nesting depth, and a new line at the end.
pub fn dump_instructions(ops: &Vec<Op>) -> (r: String)
    requires
        well_nested(ops@),
    ensures
        r@ == listing(ops@),
{
    let mut r = String::new();
    let mut indent: usize = 0;
    let mut i: usize = 0;
    proof {
        reveal_strlit("\n");
        reveal_strlit(" ");
    }
    while i < ops.len()
        invariant
            well_nested(ops@),
            i <= ops.len(),
            indent == depth(ops@, i as int),
            indent <= i,
            r@ == entries(ops@, i as int),
            "\n"@ == seq!['\n'],
            " "@ == seq![' '],
        decreases ops.len() - i,
    {
        let ghost before = r@;
        let op = ops[i];
        match op {
            Op::LoopBegin(_) => {
                r.append("\n");
                let mut k: usize = 0;
                while k < indent
                    invariant
                        k <= indent,
                        r@ == before + seq!['\n'] + spaces(k as int),
                        " "@ == seq![' '],
                    decreases indent - k,
                {
                    r.append(" ");
                    k += 1;
                    assert(r@ =~= before + seq!['\n'] + spaces(k as int));
                }
                indent += 1;
            },
            Op::LoopEnd(_) => {
                assert(depth(ops@, i + 1) >= 0);
                indent -= 1;
            },
            _ => {},
        }
        let piece = op.render();
        r.append(piece.as_str());
        i += 1;
        assert(r@ =~= entries(ops@, i as int));
    }
    r.append("\n");
    assert(r@ =~= listing(ops@));
    r
}

/// Describes the state before a step: the data pointer, the cell under it and
/// the instruction about to run.
pub fn trace_line(dp: usize, cell: u8, op: Op) -> (r: String)
    ensures
        r@ == trace(dp, cell, op),
{
    let mut r = String::new();
    proof {
        reveal_strlit("dp ");
        reveal_strlit(" mem[dp] ");
        reveal_strlit(" op ");
    }
    r.append("dp ");
    push_decimal(&mut r, dp);
    r.append(" mem[dp] ");
    push_decimal(&mut r, cell as usize);
    r.append(" op ");
    let piece = op.render();
    r.append(piece.as_str());
    assert(r@ =~= trace(dp, cell, op));
    r
}

} // verus!
