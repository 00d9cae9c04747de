use rustyfck::brackets::match_brackets;
use rustyfck::decode::decode;
use rustyfck::dump::{dump_instructions, push_decimal, trace_line};
use rustyfck::op::Op;
use rustyfck::rle::rle;
use rustyfck::zero::elide_zeroing_loop;

#[test]
fn render_of_every_kind() {
    assert_eq!(Op::IncDp(1).render(), ">_1");
    assert_eq!(Op::DecDp(12).render(), "<_12");
    assert_eq!(Op::IncDerefDp(255).render(), "+_255");
    assert_eq!(Op::DecDerefDp(1000).render(), "-_1000");
    assert_eq!(Op::OutDerefDp.render(), ".");
    assert_eq!(Op::InDerefDp.render(), ",");
    assert_eq!(Op::LoopBegin(None).render(), "[");
    assert_eq!(Op::LoopBegin(Some(17)).render(), "[_17");
    assert_eq!(Op::LoopEnd(None).render(), "]");
    assert_eq!(Op::LoopEnd(Some(0)).render(), "]_0");
    assert_eq!(Op::Zero.render(), "Z");
}

#[test]
fn push_decimal_writes_what_std_writes() {
    for n in [0usize, 1, 9, 10, 11, 99, 100, 101, 255, 256, 1000, 32000, 65535, 1234567890, usize::MAX] {
        let mut text = String::from("n=");
        push_decimal(&mut text, n);
        assert_eq!(text, format!("n={}", n));
    }
}

#[test]
fn dump_of_an_empty_program_is_one_new_line() {
    assert_eq!(dump_instructions(&vec![]), "\n");
}

#[test]
fn dump_without_loops_is_one_line() {
    assert_eq!(dump_instructions(&decode("+>-<.,")), "+_1>_1-_1<_1.,\n");
}

#[test]
fn dump_starts_a_line_at_each_loop_begin() {
    assert_eq!(dump_instructions(&decode("+[-]")), "+_1\n[-_1]\n");
    assert_eq!(dump_instructions(&decode("[]")), "\n[]\n");
}

#[test]
fn dump_indents_by_depth() {
    assert_eq!(
        dump_instructions(&decode("+[>[-[.]]<[,]]+")),
        "+_1\n[>_1\n [-_1\n  [.]]<_1\n [,]]+_1\n"
    );
}

#[test]
fn dump_shows_counts_targets_and_zero() {
    let ops = match_brackets(&rle(&elide_zeroing_loop(&decode("+++[>>[-]<<-]"))));
    assert_eq!(dump_instructions(&ops), "+_3\n[_6>_2Z<_2-_1]_1\n");
}

#[test]
fn dump_of_a_loop_left_open() {
    assert_eq!(dump_instructions(&decode("[[+")), "\n[\n [+_1\n");
}

#[test]
fn trace_line_names_pointer_cell_and_instruction() {
    assert_eq!(trace_line(0, 0, Op::IncDerefDp(1)), "dp 0 mem[dp] 0 op +_1");
    assert_eq!(trace_line(31999, 255, Op::LoopEnd(Some(4))), "dp 31999 mem[dp] 255 op ]_4");
    assert_eq!(trace_line(7, 72, Op::OutDerefDp), "dp 7 mem[dp] 72 op .");
}
