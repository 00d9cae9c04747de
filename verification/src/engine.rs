//! The execution engine: one instruction at a time, or many on a budget.

use crate::brackets::{find_begin, find_end, is_match, lemma_match_is_partner, loop_begin, loop_end};
use crate::op::Op;
use vstd::prelude::*;

verus! {

/// The whole state of a run as plain values.
pub struct Config {
    /// Index of the next instruction.
    pub ip: int,
    /// Address of the current cell.
    pub dp: int,
    /// The cells.
    pub tape: Seq<u8>,
    /// Every byte emitted so far, oldest first.
    pub out: Seq<u8>,
}

/// A cell after `count` increments: addition modulo 256.
pub open spec fn cell_add(cell: u8, count: usize) -> u8 {
    ((cell + count) % 256) as u8
}

/// A cell after `count` decrements: subtraction modulo 256.
pub open spec fn cell_sub(cell: u8, count: usize) -> u8 {
    ((cell - count) % 256) as u8
}

/// Where a loop begin at `ip` jumps when the cell is zero: just past its end.
pub open spec fn past_end(ops: Seq<Op>, ip: int, target: Option<usize>) -> int {
    match target {
        Some(t) => t + 1,
        None => loop_end(ops, ip) + 1,
    }
}

/// Where a loop end at `ip` jumps when the cell is not zero: just past its
/// begin.
pub open spec fn past_begin(ops: Seq<Op>, ip: int, target: Option<usize>) -> int {
    match target {
        Some(t) => t + 1,
        None => loop_begin(ops, ip) + 1,
    }
}

/// The next instruction exists and is defined in this state: the data pointer
/// is and stays on the tape, and a jump that is taken has somewhere to go.
pub open spec fn can_step(ops: Seq<Op>, c: Config) -> bool {
    &&& 0 <= c.ip < ops.len()
    &&& 0 <= c.dp < c.tape.len()
    &&& match ops[c.ip] {
        Op::IncDp(n) => c.dp + n < c.tape.len(),
        Op::DecDp(n) => n <= c.dp,
        Op::LoopBegin(target) => c.tape[c.dp] != 0 || match target {
            Some(t) => t < usize::MAX,
            None => exists|e: int| is_match(ops, c.ip, e),
        },
        Op::LoopEnd(target) => c.tape[c.dp] == 0 || match target {
            Some(t) => t < usize::MAX,
            None => exists|b: int| is_match(ops, b, c.ip),
        },
        _ => true,
    }
}

/// The state after the next instruction.
pub open spec fn step(ops: Seq<Op>, c: Config) -> Config {
    let cell = c.tape[c.dp];
    let next = c.ip + 1;
    match ops[c.ip] {
        Op::IncDp(n) => Config { ip: next, dp: c.dp + n, ..c },
        Op::DecDp(n) => Config { ip: next, dp: c.dp - n, ..c },
        Op::IncDerefDp(n) => Config { ip: next, tape: c.tape.update(c.dp, cell_add(cell, n)), ..c },
        Op::DecDerefDp(n) => Config { ip: next, tape: c.tape.update(c.dp, cell_sub(cell, n)), ..c },
        Op::OutDerefDp => Config { ip: next, out: c.out.push(cell), ..c },
        Op::InDerefDp => Config { ip: next, ..c },
        Op::Zero => Config { ip: next, tape: c.tape.update(c.dp, 0u8), ..c },
        Op::LoopBegin(target) => Config {
            ip: if cell != 0 {
                next
            } else {
                past_end(ops, c.ip, target)
            },
            ..c
        },
        Op::LoopEnd(target) => Config {
            ip: if cell == 0 {
                next
            } else {
                past_begin(ops, c.ip, target)
            },
            ..c
        },
    }
}

/// The state after at most `fuel` instructions: the run stops early where the
/// next instruction does not exist or is not defined.
pub open spec fn run(ops: Seq<Op>, c: Config, fuel: nat) -> Config
    decreases fuel,
{
    if fuel == 0 || !can_step(ops, c) {
        c
    } else {
        run(ops, step(ops, c), (fuel - 1) as nat)
    }
}

/// Why a run stands where it stands.
#[derive(Clone, Copy, Debug, PartialEq, Eq, Structural)]
pub enum Stop {
    /// The instruction pointer is past the last instruction.
    Halted,
    /// The next instruction is defined; the budget was used up.
    Paused,
    /// The next instruction is not defined in this state.
    Fault,
}

/// Why a run that has come to `c` goes no further.
pub open spec fn reason(ops: Seq<Op>, c: Config) -> Stop {
    if c.ip >= ops.len() {
        Stop::Halted
    } else if can_step(ops, c) {
        Stop::Paused
    } else {
        Stop::Fault
    }
}

/// The engine: two cursors, the tape they move over, and the bytes emitted.
pub struct Engine {
    /// Address of the current cell.
    pub dp: usize,
    /// Index of the next instruction.
    pub ip: usize,
    /// The cells.
    pub tape: Vec<u8>,
    /// Every byte emitted and not yet taken, oldest first.
    pub out: Vec<u8>,
}

impl View for Engine {
    type V = Config;

    open spec fn view(&self) -> Config {
        Config { ip: self.ip as int, dp: self.dp as int, tape: self.tape@, out: self.out@ }
    }
}

/// A tape of `size` cells, all zero.
pub fn blank_tape(size: usize) -> (tape: Vec<u8>)
    ensures
        tape@ == Seq::new(size as nat, |i: int| 0u8),
{
    let mut tape: Vec<u8> = Vec::with_capacity(size);
    let mut i: usize = 0;
    while i < size
        invariant
            i <= size,
            tape@ == Seq::new(i as nat, |k: int| 0u8),
        decreases size - i,
    {
        tape.push(0u8);
        i += 1;
        assert(tape@ =~= Seq::new(i as nat, |k: int| 0u8));
    }
    tape
}

impl Engine {
    /// An engine at the start of a run over the given tape.
    pub fn new(tape: Vec<u8>) -> (engine: Engine)
        ensures
            engine@ == (Config { ip: 0, dp: 0, tape: tape@, out: Seq::empty() }),
    {
        Engine { dp: 0, ip: 0, tape, out: Vec::new() }
    }

    /// Whether the next instruction exists and is defined.
    pub fn can_step(&self, ops: &Vec<Op>) -> (b: bool)
        ensures
            b == can_step(ops@, self@),
    {
        if self.ip >= ops.len() || self.dp >= self.tape.len() {
            return false;
        }
        let cell: u8 = self.tape[self.dp];
        match ops[self.ip] {
            Op::IncDp(n) => n < self.tape.len() - self.dp,
            Op::DecDp(n) => n <= self.dp,
            Op::LoopBegin(target) => {
                cell != 0 || match target {
                    Some(t) => t < usize::MAX,
                    None => find_end(ops, self.ip).is_some(),
                }
            },
            Op::LoopEnd(target) => {
                cell == 0 || match target {
                    Some(t) => t < usize::MAX,
                    None => find_begin(ops, self.ip).is_some(),
                }
            },
            _ => true,
        }
    }

    /// Executes the next instruction if it exists and is defined, and says
    /// whether it did; otherwise nothing changes.
    pub fn try_step(&mut self, ops: &Vec<Op>) -> (done: bool)
        ensures
            done == can_step(ops@, old(self)@),
            done ==> final(self)@ == step(ops@, old(self)@),
            !done ==> *final(self) == *old(self),
    {
        if self.ip >= ops.len() || self.dp >= self.tape.len() {
            return false;
        }
        let cell: u8 = self.tape[self.dp];
        match ops[self.ip] {
            Op::IncDp(n) => {
                if n >= self.tape.len() - self.dp {
                    return false;
                }
                self.dp += n;
                self.ip += 1;
            },
            Op::DecDp(n) => {
                if n > self.dp {
                    return false;
                }
                self.dp -= n;
                self.ip += 1;
            },
            Op::IncDerefDp(n) => {
                let by: u8 = (n % 256) as u8;
                self.tape.set(self.dp, cell.wrapping_add(by));
                self.ip += 1;
            },
            Op::DecDerefDp(n) => {
                let by: u8 = (n % 256) as u8;
                self.tape.set(self.dp, cell.wrapping_sub(by));
                self.ip += 1;
            },
            Op::OutDerefDp => {
                self.out.push(cell);
                self.ip += 1;
            },
            Op::InDerefDp => {
                self.ip += 1;
            },
            Op::Zero => {
                self.tape.set(self.dp, 0u8);
                self.ip += 1;
            },
            Op::LoopBegin(target) => {
                if cell != 0 {
                    self.ip += 1;
                } else {
                    match target {
                        Some(t) => {
                            if t == usize::MAX {
                                return false;
                            }
                            self.ip = t + 1;
                        },
                        None => {
                            match find_end(ops, self.ip) {
                                Some(e) => {
                                    proof {
                                        lemma_match_is_partner(ops@, self.ip as int, e as int);
                                    }
                                    self.ip = e + 1;
                                },
                                None => {
                                    return false;
                                },
                            }
                        },
                    }
                }
            },
            Op::LoopEnd(target) => {
                if cell == 0 {
                    self.ip += 1;
                } else {
                    match target {
                        Some(t) => {
                            if t == usize::MAX {
                                return false;
                            }
                            self.ip = t + 1;
                        },
                        None => {
                            match find_begin(ops, self.ip) {
                                Some(b) => {
                                    proof {
                                        lemma_match_is_partner(ops@, b as int, self.ip as int);
                                    }
                                    self.ip = b + 1;
                                },
                                None => {
                                    return false;
                                },
                            }
                        },
                    }
                }
            },
        }
        true
    }
}

impl Engine {
    /// Executes the next instruction.
    pub fn step(&mut self, ops: &Vec<Op>)
        requires
            can_step(ops@, old(self)@),
        ensures
            final(self)@ == step(ops@, old(self)@),
    {
        let _ = self.try_step(ops);
    }

    /// Executes instructions until the program has run to its end, the next
    /// instruction is not defined, or `fuel` instructions have been executed,
    /// and says which.
    pub fn run(&mut self, ops: &Vec<Op>, fuel: u64) -> (stop: Stop)
        ensures
            final(self)@ == run(ops@, old(self)@, fuel as nat),
            stop == reason(ops@, final(self)@),
    {
        let mut left: u64 = fuel;
        while left > 0
            invariant
                run(ops@, self@, left as nat) == run(ops@, old(self)@, fuel as nat),
            decreases left,
        {
            if self.ip >= ops.len() {
                return Stop::Halted;
            }
            if !self.try_step(ops) {
                return Stop::Fault;
            }
            left -= 1;
        }
        if self.ip >= ops.len() {
            Stop::Halted
        } else if self.can_step(ops) {
            Stop::Paused
        } else {
            Stop::Fault
        }
    }

    /// Hands over the bytes emitted since they were last taken.
    pub fn take_output(&mut self) -> (bytes: Vec<u8>)
        ensures
            bytes@ == old(self)@.out,
            final(self)@ == (Config { out: Seq::empty(), ..old(self)@ }),
    {
        let mut bytes: Vec<u8> = Vec::new();
        core::mem::swap(&mut self.out, &mut bytes);
        bytes
    }
}

/// Runs a program from its first instruction over the given tape, for at most
/// `fuel` instructions. Returns the bytes emitted and why the run stopped;
/// the tape is left as the run left it.
pub fn interpret(ops: &Vec<Op>, mem: &mut Vec<u8>, fuel: u64) -> (r: (Vec<u8>, Stop))
    ensures
        ({
            let start = Config { ip: 0, dp: 0, tape: old(mem)@, out: Seq::empty() };
            let end = run(ops@, start, fuel as nat);
            &&& final(mem)@ == end.tape
            &&& r.0@ == end.out
            &&& r.1 == reason(ops@, end)
        }),
{
    let mut tape: Vec<u8> = Vec::new();
    core::mem::swap(mem, &mut tape);
    let mut engine = Engine::new(tape);
    let stop = engine.run(ops, fuel);
    core::mem::swap(mem, &mut engine.tape);
    (engine.out, stop)
}

} // verus!
