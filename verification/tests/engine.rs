use rustyfck::brackets::{is_balanced, match_brackets};
use rustyfck::decode::decode;
use rustyfck::engine::{blank_tape, interpret, Engine, Stop};
use rustyfck::op::Op;
use rustyfck::rle::rle;
use rustyfck::zero::elide_zeroing_loop;

const HELLO: &str = "++++++++[>++++[>++>+++>+++>+<<<<-]>+>+>->>+[<]<-]>>.>---.+++++++..+++.>>.<-.<.+++.------.--------.>>+.>++.";

fn build(text: &str, zero: bool, collapse: bool, brackets: bool) -> Vec<Op> {
    let mut ops = decode(text);
    if zero {
        ops = elide_zeroing_loop(&ops);
    }
    if collapse {
        ops = rle(&ops);
    }
    if brackets {
        assert!(is_balanced(&ops));
        ops = match_brackets(&ops);
    }
    ops
}

fn output_of(ops: &Vec<Op>, size: usize) -> (Vec<u8>, Stop) {
    let mut tape = blank_tape(size);
    interpret(ops, &mut tape, 10_000_000)
}

#[test]
fn hello_world_under_every_choice_of_stages() {
    for zero in [false, true] {
        for collapse in [false, true] {
            for brackets in [false, true] {
                let ops = build(HELLO, zero, collapse, brackets);
                let (out, stop) = output_of(&ops, 32000);
                assert_eq!(out, b"Hello World!\n".to_vec());
                assert_eq!(stop, Stop::Halted);
            }
        }
    }
}

#[test]
fn echo_loop_without_input_emits_nothing() {
    for brackets in [false, true] {
        let ops = build(",[.,]", false, false, brackets);
        let mut tape = blank_tape(32000);
        let (out, stop) = interpret(&ops, &mut tape, 1000);
        assert_eq!(out, Vec::<u8>::new());
        assert_eq!(stop, Stop::Halted);
        assert_eq!(tape, blank_tape(32000));
    }
}

#[test]
fn blank_tape_is_all_zero() {
    assert_eq!(blank_tape(0), Vec::<u8>::new());
    assert_eq!(blank_tape(3), vec![0u8, 0, 0]);
    let tape = blank_tape(32000);
    assert_eq!(tape.len(), 32000);
    assert!(tape.iter().all(|&cell| cell == 0));
}

#[test]
fn increment_wraps_from_255_to_0() {
    let mut tape = vec![255u8];
    let (_, stop) = interpret(&vec![Op::IncDerefDp(1)], &mut tape, 10);
    assert_eq!(tape, vec![0u8]);
    assert_eq!(stop, Stop::Halted);
}

#[test]
fn decrement_wraps_from_0_to_255() {
    let mut tape = vec![0u8];
    let (_, stop) = interpret(&vec![Op::DecDerefDp(1)], &mut tape, 10);
    assert_eq!(tape, vec![255u8]);
    assert_eq!(stop, Stop::Halted);
}

#[test]
fn counted_increment_is_taken_modulo_256() {
    let mut tape = vec![250u8, 7, 7, 7];
    let ops = vec![
        Op::IncDerefDp(10),
        Op::IncDp(1),
        Op::IncDerefDp(256),
        Op::IncDp(1),
        Op::IncDerefDp(513),
        Op::IncDp(1),
        Op::IncDerefDp(0),
    ];
    let (_, stop) = interpret(&ops, &mut tape, 100);
    assert_eq!(tape, vec![4u8, 7, 8, 7]);
    assert_eq!(stop, Stop::Halted);
}

#[test]
fn counted_decrement_is_taken_modulo_256() {
    let mut tape = vec![3u8, 7, 7, 7];
    let ops = vec![
        Op::DecDerefDp(10),
        Op::IncDp(1),
        Op::DecDerefDp(256),
        Op::IncDp(1),
        Op::DecDerefDp(513),
        Op::IncDp(1),
        Op::DecDerefDp(usize::MAX),
    ];
    let (_, stop) = interpret(&ops, &mut tape, 100);
    let last = 7u8.wrapping_sub((usize::MAX % 256) as u8);
    assert_eq!(tape, vec![249u8, 7, 6, last]);
    assert_eq!(stop, Stop::Halted);
}

#[test]
fn output_takes_the_cell_under_the_pointer() {
    let mut tape = vec![65u8, 66, 200];
    let ops = decode(".>.>.<.");
    let (out, stop) = interpret(&ops, &mut tape, 100);
    assert_eq!(out, vec![65u8, 66, 200, 66]);
    assert_eq!(stop, Stop::Halted);
    assert_eq!(tape, vec![65u8, 66, 200]);
}

#[test]
fn input_changes_nothing() {
    let mut tape = vec![9u8, 0];
    let (out, stop) = interpret(&decode(",.,"), &mut tape, 100);
    assert_eq!(out, vec![9u8]);
    assert_eq!(stop, Stop::Halted);
    assert_eq!(tape, vec![9u8, 0]);
}

#[test]
fn zero_clears_the_cell() {
    let mut tape = vec![9u8, 200];
    let (_, stop) = interpret(&vec![Op::IncDp(1), Op::Zero], &mut tape, 100);
    assert_eq!(tape, vec![9u8, 0]);
    assert_eq!(stop, Stop::Halted);
}

#[test]
fn zero_does_what_the_loop_it_replaces_does() {
    for start in [0u8, 1, 77, 255] {
        let ops = decode("[-]");
        let mut plain = vec![start];
        let mut short = vec![start];
        assert_eq!(interpret(&ops, &mut plain, 10_000).1, Stop::Halted);
        assert_eq!(interpret(&elide_zeroing_loop(&ops), &mut short, 10_000).1, Stop::Halted);
        assert_eq!(plain, vec![0u8]);
        assert_eq!(short, vec![0u8]);
    }
}

#[test]
fn loop_is_skipped_on_a_zero_cell() {
    for brackets in [false, true] {
        let ops = build("[+.]>+.", false, false, brackets);
        let mut tape = blank_tape(4);
        let (out, stop) = interpret(&ops, &mut tape, 100);
        assert_eq!(out, vec![1u8]);
        assert_eq!(stop, Stop::Halted);
        assert_eq!(tape, vec![0u8, 1, 0, 0]);
    }
}

#[test]
fn loop_runs_until_the_cell_is_zero() {
    for brackets in [false, true] {
        let ops = build("+++[.-]", false, false, brackets);
        let mut tape = blank_tape(1);
        let (out, stop) = interpret(&ops, &mut tape, 100);
        assert_eq!(out, vec![3u8, 2, 1]);
        assert_eq!(stop, Stop::Halted);
    }
}

#[test]
fn nested_loops_multiply() {
    for brackets in [false, true] {
        for collapse in [false, true] {
            let ops = build("+++[>++++[>+<-]<-]>>.", false, collapse, brackets);
            let mut tape = blank_tape(3);
            let (out, stop) = interpret(&ops, &mut tape, 10_000);
            assert_eq!(out, vec![12u8]);
            assert_eq!(stop, Stop::Halted);
            assert_eq!(tape, vec![0u8, 0, 12]);
        }
    }
}

#[test]
fn resolved_and_unresolved_runs_agree_step_by_step() {
    let plain = decode(HELLO);
    let resolved = match_brackets(&plain);
    let mut a = Engine::new(blank_tape(64));
    let mut b = Engine::new(blank_tape(64));
    let mut steps = 0;
    loop {
        let moved_a = a.try_step(&plain);
        let moved_b = b.try_step(&resolved);
        assert_eq!(moved_a, moved_b);
        assert_eq!(a.ip, b.ip);
        assert_eq!(a.dp, b.dp);
        assert_eq!(a.tape, b.tape);
        assert_eq!(a.out, b.out);
        if !moved_a {
            break;
        }
        steps += 1;
    }
    assert!(steps > 100);
    assert_eq!(a.ip, plain.len());
    assert_eq!(a.out, b"Hello World!\n".to_vec());
}

#[test]
fn empty_program_halts_at_once() {
    let mut tape = blank_tape(0);
    let (out, stop) = interpret(&vec![], &mut tape, 0);
    assert_eq!(out, Vec::<u8>::new());
    assert_eq!(stop, Stop::Halted);
}

#[test]
fn run_out_of_fuel_pauses_and_can_go_on() {
    let ops = decode("+[.+]");
    let mut engine = Engine::new(blank_tape(1));
    assert_eq!(engine.run(&ops, 0), Stop::Paused);
    assert_eq!(engine.ip, 0);
    assert_eq!(engine.run(&ops, 4), Stop::Paused);
    assert_eq!(engine.ip, 4);
    assert_eq!(engine.out, vec![1u8]);
    assert_eq!(engine.tape, vec![2u8]);
    assert_eq!(engine.run(&ops, 100_000), Stop::Halted);
    assert_eq!(engine.ip, 5);
    assert_eq!(engine.out.len(), 255);
    assert_eq!(engine.out[254], 255);
    assert_eq!(engine.tape, vec![0u8]);
}

#[test]
fn endless_loop_only_uses_up_its_fuel() {
    let ops = decode("+[]");
    let mut tape = blank_tape(1);
    let (out, stop) = interpret(&ops, &mut tape, 1001);
    assert_eq!(out, Vec::<u8>::new());
    assert_eq!(stop, Stop::Paused);
    assert_eq!(tape, vec![1u8]);
}

#[test]
fn fuel_that_just_suffices_reports_the_halt() {
    let ops = decode("+++");
    let mut tape = blank_tape(1);
    assert_eq!(interpret(&ops, &mut tape, 3).1, Stop::Halted);
    assert_eq!(tape, vec![3u8]);
    let mut tape = blank_tape(1);
    assert_eq!(interpret(&ops, &mut tape, 2).1, Stop::Paused);
    assert_eq!(tape, vec![2u8]);
}

#[test]
fn moving_off_the_right_end_is_a_fault() {
    let ops = decode("+>+>+");
    let mut tape = blank_tape(2);
    let (_, stop) = interpret(&ops, &mut tape, 100);
    assert_eq!(stop, Stop::Fault);
    assert_eq!(tape, vec![1u8, 1]);
    let mut engine = Engine::new(blank_tape(2));
    assert_eq!(engine.run(&ops, 100), Stop::Fault);
    assert_eq!(engine.ip, 3);
    assert_eq!(engine.dp, 1);
}

#[test]
fn moving_off_the_left_end_is_a_fault() {
    let ops = decode("+<+");
    let mut engine = Engine::new(blank_tape(2));
    assert_eq!(engine.run(&ops, 100), Stop::Fault);
    assert_eq!(engine.ip, 1);
    assert_eq!(engine.dp, 0);
    assert_eq!(engine.tape, vec![1u8, 0]);
}

#[test]
fn counted_moves_stay_on_the_tape_or_fault() {
    let mut engine = Engine::new(blank_tape(10));
    assert!(engine.try_step(&vec![Op::IncDp(9)]));
    assert_eq!(engine.dp, 9);
    let mut engine = Engine::new(blank_tape(10));
    assert!(!engine.try_step(&vec![Op::IncDp(10)]));
    assert_eq!(engine.dp, 0);
    let mut engine = Engine::new(blank_tape(10));
    assert!(!engine.try_step(&vec![Op::IncDp(usize::MAX)]));
    let mut engine = Engine::new(blank_tape(10));
    engine.dp = 4;
    assert!(engine.try_step(&vec![Op::DecDp(4)]));
    assert_eq!(engine.dp, 0);
    let mut engine = Engine::new(blank_tape(10));
    engine.dp = 4;
    assert!(!engine.try_step(&vec![Op::DecDp(5)]));
    assert_eq!(engine.dp, 4);
}

#[test]
fn no_tape_no_step() {
    let mut tape = blank_tape(0);
    assert_eq!(interpret(&decode("+"), &mut tape, 10).1, Stop::Fault);
    let mut tape = blank_tape(0);
    assert_eq!(interpret(&decode(","), &mut tape, 10).1, Stop::Fault);
}

#[test]
fn jump_out_of_a_loop_left_open_is_a_fault() {
    let ops = decode("[+");
    let mut engine = Engine::new(blank_tape(1));
    assert!(!engine.can_step(&ops));
    assert_eq!(engine.run(&ops, 100), Stop::Fault);
    assert_eq!(engine.ip, 0);
    // with a cell that is not zero the loop is entered and no partner is needed
    let mut engine = Engine::new(vec![1u8]);
    assert!(engine.can_step(&ops));
    assert_eq!(engine.run(&ops, 100), Stop::Halted);
    assert_eq!(engine.tape, vec![2u8]);
}

#[test]
fn jump_back_in_a_loop_never_begun_is_a_fault() {
    let ops = decode("+]");
    let mut engine = Engine::new(blank_tape(1));
    assert_eq!(engine.run(&ops, 100), Stop::Fault);
    assert_eq!(engine.ip, 1);
    let ops = decode("]+");
    let mut engine = Engine::new(blank_tape(1));
    assert_eq!(engine.run(&ops, 100), Stop::Halted);
    assert_eq!(engine.tape, vec![1u8]);
}

#[test]
fn resolved_jump_goes_just_past_its_target() {
    let ops = vec![Op::LoopBegin(Some(2)), Op::OutDerefDp, Op::OutDerefDp, Op::IncDerefDp(1)];
    let mut engine = Engine::new(blank_tape(1));
    assert!(engine.try_step(&ops));
    assert_eq!(engine.ip, 3);
    let ops = vec![Op::IncDerefDp(1), Op::OutDerefDp, Op::LoopEnd(Some(0))];
    let mut engine = Engine::new(blank_tape(1));
    assert_eq!(engine.run(&ops, 3), Stop::Paused);
    assert_eq!(engine.ip, 1);
    assert_eq!(engine.out, vec![1u8]);
}

#[test]
fn resolved_jump_past_the_program_halts() {
    let ops = vec![Op::LoopBegin(Some(50))];
    let mut engine = Engine::new(blank_tape(1));
    assert_eq!(engine.run(&ops, 10), Stop::Halted);
    assert_eq!(engine.ip, 51);
}

#[test]
fn resolved_jump_past_every_index_is_a_fault() {
    let ops = vec![Op::LoopBegin(Some(usize::MAX))];
    let mut engine = Engine::new(blank_tape(1));
    assert!(!engine.can_step(&ops));
    assert_eq!(engine.run(&ops, 10), Stop::Fault);
    let ops = vec![Op::LoopEnd(Some(usize::MAX))];
    let mut engine = Engine::new(vec![1u8]);
    assert!(!engine.can_step(&ops));
    assert_eq!(engine.run(&ops, 10), Stop::Fault);
}

#[test]
fn step_executes_one_instruction() {
    let ops = decode("+>-.");
    let mut engine = Engine::new(blank_tape(2));
    assert!(engine.can_step(&ops));
    engine.step(&ops);
    assert_eq!((engine.ip, engine.dp), (1, 0));
    assert_eq!(engine.tape, vec![1u8, 0]);
    engine.step(&ops);
    assert_eq!((engine.ip, engine.dp), (2, 1));
    engine.step(&ops);
    assert_eq!(engine.tape, vec![1u8, 255]);
    engine.step(&ops);
    assert_eq!(engine.out, vec![255u8]);
    assert_eq!(engine.ip, 4);
    assert!(!engine.can_step(&ops));
    assert!(!engine.try_step(&ops));
    assert_eq!(engine.ip, 4);
}

#[test]
fn take_output_empties_the_buffer() {
    let ops = decode("+.+.+.");
    let mut engine = Engine::new(blank_tape(1));
    assert_eq!(engine.run(&ops, 4), Stop::Paused);
    assert_eq!(engine.take_output(), vec![1u8, 2]);
    assert_eq!(engine.out, Vec::<u8>::new());
    assert_eq!(engine.run(&ops, 4), Stop::Halted);
    assert_eq!(engine.take_output(), vec![3u8]);
    assert_eq!(engine.take_output(), Vec::<u8>::new());
    assert_eq!((engine.ip, engine.dp), (6, 0));
}

#[test]
fn new_engine_stands_at_the_start() {
    let engine = Engine::new(vec![5u8, 6]);
    assert_eq!((engine.ip, engine.dp), (0, 0));
    assert_eq!(engine.tape, vec![5u8, 6]);
    assert_eq!(engine.out, Vec::<u8>::new());
}
