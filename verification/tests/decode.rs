use rustyfck::decode::{decode, decode_char};
use rustyfck::op::Op;

#[test]
fn decode_maps_each_of_the_eight_characters() {
    assert_eq!(
        decode("><+-.,[]"),
        vec![
            Op::IncDp(1),
            Op::DecDp(1),
            Op::IncDerefDp(1),
            Op::DecDerefDp(1),
            Op::OutDerefDp,
            Op::InDerefDp,
            Op::LoopBegin(None),
            Op::LoopEnd(None),
        ]
    );
}

#[test]
fn decode_char_knows_instructions_from_the_rest() {
    assert_eq!(decode_char('>'), Some(Op::IncDp(1)));
    assert_eq!(decode_char('<'), Some(Op::DecDp(1)));
    assert_eq!(decode_char('+'), Some(Op::IncDerefDp(1)));
    assert_eq!(decode_char('-'), Some(Op::DecDerefDp(1)));
    assert_eq!(decode_char('.'), Some(Op::OutDerefDp));
    assert_eq!(decode_char(','), Some(Op::InDerefDp));
    assert_eq!(decode_char('['), Some(Op::LoopBegin(None)));
    assert_eq!(decode_char(']'), Some(Op::LoopEnd(None)));
    assert_eq!(decode_char('a'), None);
    assert_eq!(decode_char(' '), None);
    assert_eq!(decode_char('\n'), None);
    assert_eq!(decode_char('é'), None);
}

#[test]
fn decode_of_empty_text_is_empty() {
    assert_eq!(decode(""), vec![]);
}

#[test]
fn decode_of_comment_only_is_empty() {
    assert_eq!(decode("hello world\n\t 0123 (){} é ∀"), vec![]);
}

#[test]
fn decode_ignores_inserted_characters() {
    let plain = decode("+[-]>.");
    assert_eq!(decode(" +[-]>."), plain);
    assert_eq!(decode("+[-]>. "), plain);
    assert_eq!(decode("+ [ - ] > ."), plain);
    assert_eq!(decode("add+ loop[ dec- end] right> print.\n"), plain);
    assert_eq!(decode("+[é-]∀>."), plain);
}

#[test]
fn decode_keeps_order_and_repeats() {
    assert_eq!(
        decode("a+b+c-"),
        vec![Op::IncDerefDp(1), Op::IncDerefDp(1), Op::DecDerefDp(1)]
    );
}
