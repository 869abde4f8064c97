use gsim::{BitWidth, InlineLogicState, LogicBitState, LogicState, LogicStateFromStrError};
use gsim::component::GateKind;
use gsim::horizontal::horizontal_op;
use std::str::FromStr;

fn w(n: u32) -> BitWidth {
    BitWidth::new(n).unwrap()
}

fn bits_of(state: &LogicState) -> Vec<LogicBitState> {
    (0..state.bit_width().get()).map(|i| state.bit(i).unwrap()).collect()
}

#[test]
fn bit_width_range() {
    assert!(BitWidth::new(0).is_none());
    assert_eq!(BitWidth::new(1).unwrap().get(), 1);
    assert_eq!(BitWidth::new(256).unwrap().get(), 256);
    assert!(BitWidth::new(257).is_none());
    assert_eq!(BitWidth::min_width().get(), 1);
    assert_eq!(BitWidth::max_width().get(), 256);
}

#[test]
fn bit_width_words() {
    assert_eq!(w(1).word_len(), 1);
    assert_eq!(w(32).word_len(), 1);
    assert_eq!(w(33).word_len(), 2);
    assert_eq!(w(256).word_len(), 8);
    assert_eq!(w(33).last_word_width().get(), 1);
    assert_eq!(w(64).last_word_width().get(), 32);
    assert_eq!(w(5).last_word_mask(), 0b11111);
    assert_eq!(w(32).last_word_mask(), u32::MAX);
}

#[test]
fn bit_width_clog2() {
    assert!(w(1).clog2().is_none());
    assert_eq!(w(2).clog2().unwrap().get(), 1);
    assert_eq!(w(3).clog2().unwrap().get(), 2);
    assert_eq!(w(4).clog2().unwrap().get(), 2);
    assert_eq!(w(5).clog2().unwrap().get(), 3);
    assert_eq!(w(32).clog2().unwrap().get(), 5);
    assert_eq!(w(33).clog2().unwrap().get(), 6);
    assert_eq!(w(256).clog2().unwrap().get(), 8);
}

#[test]
fn logic_bit_conversions() {
    for b in [
        LogicBitState::Logic0,
        LogicBitState::Logic1,
        LogicBitState::HighZ,
        LogicBitState::Undefined,
    ] {
        assert_eq!(LogicBitState::from_char(b.to_char()), Some(b));
        assert_eq!(LogicBitState::from_ascii_char(b.to_ascii_char()), Some(b));
        assert_eq!(LogicBitState::from_bits(b.to_bits()), b);
    }
    assert_eq!(LogicBitState::from_bool(true), LogicBitState::Logic1);
    assert_eq!(LogicBitState::from_bool(false), LogicBitState::Logic0);
    assert_eq!(LogicBitState::Logic1.to_bool(), Some(true));
    assert_eq!(LogicBitState::Logic0.to_bool(), Some(false));
    assert_eq!(LogicBitState::HighZ.to_bool(), None);
    assert_eq!(LogicBitState::Undefined.to_bool(), None);
    assert_eq!(LogicBitState::from_char('z'), Some(LogicBitState::HighZ));
    assert_eq!(LogicBitState::from_char('X'), Some(LogicBitState::Undefined));
    assert_eq!(LogicBitState::from_char('2'), None);
    assert_eq!(LogicBitState::HighZ.to_char(), 'Z');
    assert_eq!(LogicBitState::Undefined.to_char(), 'X');
}

#[test]
fn logic_bit_parse() {
    assert_eq!(LogicBitState::parse("1"), Ok(LogicBitState::Logic1));
    assert_eq!(LogicBitState::parse("z"), Ok(LogicBitState::HighZ));
    assert_eq!(LogicBitState::parse(""), Err(LogicStateFromStrError::InvalidBitWidth));
    assert_eq!(LogicBitState::parse("01"), Err(LogicStateFromStrError::InvalidBitWidth));
    assert_eq!(LogicBitState::parse("a"), Err(LogicStateFromStrError::IllegalCharacter(b'a')));
}

#[test]
fn uniform_states() {
    let width = w(40);
    assert!(bits_of(&LogicState::logic_0(width)).iter().all(|b| *b == LogicBitState::Logic0));
    assert!(bits_of(&LogicState::logic_1(width)).iter().all(|b| *b == LogicBitState::Logic1));
    assert!(bits_of(&LogicState::high_z(width)).iter().all(|b| *b == LogicBitState::HighZ));
    assert!(bits_of(&LogicState::undefined(width)).iter().all(|b| *b == LogicBitState::Undefined));
    assert_eq!(LogicState::logic_0(width).bit(40), None);
}

#[test]
fn numbers() {
    let s = LogicState::from_u32(0b1010, w(4));
    assert_eq!(
        bits_of(&s),
        vec![
            LogicBitState::Logic0,
            LogicBitState::Logic1,
            LogicBitState::Logic0,
            LogicBitState::Logic1
        ]
    );
    let s = LogicState::from_u64(1 << 40, w(41));
    assert_eq!(s.bit(40), Some(LogicBitState::Logic1));
    assert_eq!(s.bit(39), Some(LogicBitState::Logic0));
    let s = LogicState::from_big_int(w(70), &[0, 0, 0b10]);
    assert_eq!(s.bit(65), Some(LogicBitState::Logic1));
    assert_eq!(s.bit(64), Some(LogicBitState::Logic0));
    assert!(LogicState::from_bool(true) == LogicState::from_bit(LogicBitState::Logic1));
    assert!(LogicState::from_bool(false) == LogicState::logic_0(w(1)));
}

#[test]
fn from_bits_and_planes() {
    let bits = [
        LogicBitState::Logic1,
        LogicBitState::HighZ,
        LogicBitState::Undefined,
        LogicBitState::Logic0,
    ];
    let s = LogicState::from_bits(&bits);
    assert_eq!(s.bit_width().get(), 4);
    assert_eq!(bits_of(&s), bits.to_vec());
    let (p0, p1) = s.bit_planes();
    assert_eq!(p0, &[0b0101]);
    assert_eq!(p1, &[0b0110]);
    let t = LogicState::from_bit_planes(w(4), &[0b0101], &[0b0110]);
    assert!(s == t);
}

#[test]
fn from_bit_planes_missing_words() {
    let s = LogicState::from_bit_planes(w(64), &[1, 2], &[]);
    assert_eq!(s.bit(0), Some(LogicBitState::Logic1));
    assert_eq!(s.bit(33), Some(LogicBitState::Logic1));
    assert_eq!(s.bit(63), Some(LogicBitState::Logic0));
}

#[test]
fn display_and_parse() {
    let s = LogicState::from_bits(&[LogicBitState::Logic1, LogicBitState::Logic0, LogicBitState::HighZ]);
    assert_eq!(s.to_display_string(), "Z01");
    let parsed = LogicState::from_str("10z").unwrap();
    assert!(parsed == s);
    assert_eq!(LogicState::from_str(""), Err(LogicStateFromStrError::InvalidBitWidth));
    assert_eq!(LogicState::from_str("01q1"), Err(LogicStateFromStrError::IllegalCharacter(b'q')));
    assert!(LogicState::from_str("1111").unwrap() == LogicState::logic_1(w(4)));
}

#[test]
fn bits_iterator_order() {
    let s = LogicState::from_u32(0b0110, w(4));
    let mut it = s.bits();
    let mut out = Vec::new();
    while let Some(b) = it.next() {
        out.push(b);
    }
    assert_eq!(out, bits_of(&s));
    let s = LogicState::from_big_int(w(64), &[0x8000_0001, 1]);
    let mut it = s.bits();
    let mut out = Vec::new();
    while let Some(b) = it.next() {
        out.push(b);
    }
    assert_eq!(out, bits_of(&s));
}

#[test]
fn equality_ignores_bits_beyond_width() {
    let a = LogicState::from_u32(0xFFFF_FF0F, w(8));
    let b = LogicState::from_u32(0x0F, w(8));
    assert!(a == b);
    let c = LogicState::from_u32(0x0E, w(8));
    assert!(!(a == c));
    assert!(!(LogicState::logic_0(w(8)) == LogicState::logic_0(w(9))));
}

#[test]
fn copy_from_reports_change() {
    let mut a = LogicState::logic_0(w(16));
    let b = LogicState::logic_1(w(16));
    assert_eq!(a.copy_from(&b), gsim::logic_state::CopyFromResult::Changed);
    assert!(a == b);
    assert_eq!(a.copy_from(&b), gsim::logic_state::CopyFromResult::Unchanged);
}

#[test]
fn state_ref() {
    let s = LogicState::from_u32(5, w(3));
    let r = s.borrow();
    assert_eq!(r.bit_width().get(), 3);
    assert_eq!(r.bit(0), Some(LogicBitState::Logic1));
    assert!(r.to_owned() == s);
}

#[test]
fn inline_state() {
    let mut s = InlineLogicState::logic_0(w(8));
    assert_eq!(s.bit(3), Some(LogicBitState::Logic0));
    s.set_logic_1();
    assert_eq!(s.bit(3), Some(LogicBitState::Logic1));
    s.set_high_z();
    assert_eq!(s.bit(7), Some(LogicBitState::HighZ));
    s.set_undefined();
    assert_eq!(s.bit(0), Some(LogicBitState::Undefined));
    assert_eq!(s.copy_from_bit(LogicBitState::Logic1), gsim::logic_state::CopyFromResult::Changed);
    assert_eq!(s.bit(0), Some(LogicBitState::Logic1));
    assert_eq!(s.copy_from_one([1, 0]), gsim::logic_state::CopyFromResult::Unchanged);
    assert_eq!(s.copy_from(&LogicState::high_z(w(8))), gsim::logic_state::CopyFromResult::Changed);
    assert!(s.borrow().to_owned() == LogicState::high_z(w(8)));
    assert_eq!(InlineLogicState::undefined(w(2)).bit_width().get(), 2);
    assert_eq!(InlineLogicState::high_z(w(2)).bit(1), Some(LogicBitState::HighZ));
    assert_eq!(InlineLogicState::logic_1(w(2)).bit(1), Some(LogicBitState::Logic1));
}

#[test]
fn horizontal_folds() {
    let all_ones = LogicState::logic_1(w(40));
    assert_eq!(horizontal_op(&all_ones, GateKind::And), [1, 0]);
    assert_eq!(horizontal_op(&all_ones, GateKind::Nand), [0, 0]);
    assert_eq!(horizontal_op(&all_ones, GateKind::Xor), [0, 0]);
    let one_zero = LogicState::from_big_int(w(40), &[u32::MAX, 0xEF]);
    assert_eq!(horizontal_op(&one_zero, GateKind::And), [0, 0]);
    assert_eq!(horizontal_op(&one_zero, GateKind::Or), [1, 0]);
    assert_eq!(horizontal_op(&one_zero, GateKind::Xor), [1, 0]);
    assert_eq!(horizontal_op(&one_zero, GateKind::Xnor), [0, 0]);
    let zeros = LogicState::logic_0(w(7));
    assert_eq!(horizontal_op(&zeros, GateKind::Or), [0, 0]);
    assert_eq!(horizontal_op(&zeros, GateKind::Nor), [1, 0]);
    let mut bits = vec![LogicBitState::Logic1; 5];
    bits[3] = LogicBitState::HighZ;
    let with_z = LogicState::from_bits(&bits);
    assert_eq!(horizontal_op(&with_z, GateKind::And), [1, 1]);
    assert_eq!(horizontal_op(&with_z, GateKind::Or), [1, 0]);
    assert_eq!(horizontal_op(&with_z, GateKind::Xor), [1, 1]);
}

#[test]
fn conversions() {
    assert_eq!(LogicBitState::from(true), LogicBitState::Logic1);
    assert_eq!(bool::try_from(LogicBitState::Logic0), Ok(false));
    assert_eq!(bool::try_from(LogicBitState::HighZ), Err(()));
    assert_eq!(LogicBitState::try_from('x'), Ok(LogicBitState::Undefined));
    assert_eq!(LogicBitState::try_from('q'), Err(()));
    assert_eq!(char::from(LogicBitState::Logic1), '1');
    assert_eq!(LogicBitState::from_str("Z"), Ok(LogicBitState::HighZ));
    assert!(LogicState::from(true) == LogicState::logic_1(w(1)));
    assert!(LogicState::from(LogicBitState::HighZ) == LogicState::high_z(w(1)));
    assert_eq!(BitWidth::try_from(0u32), Err(()));
    assert_eq!(BitWidth::try_from(17u32).unwrap().get(), 17);
    assert_eq!(u32::from(w(5)), 5);
}

#[test]
fn bits_iterator_visits_all_bits_in_order() {
    for width in [33, 40, 100, 255] {
        let s = LogicState::from_big_int(w(width), &[2, 0x8000_0001, 0xDEAD_BEEF, 0x1234_5678, 0, 7, 9, 0xFFFF_FFFF]);
        let mut it = s.bits();
        let mut out = Vec::new();
        while let Some(b) = it.next() {
            out.push(b);
        }
        assert_eq!(out.len(), width as usize);
        assert_eq!(out, bits_of(&s));
    }
    let s = LogicState::from_u64(2, w(33));
    let mut it = s.bits();
    assert_eq!(it.next(), Some(LogicBitState::Logic0));
    assert_eq!(it.next(), Some(LogicBitState::Logic1));
    let mut expected = "0".repeat(31);
    expected.push_str("10");
    assert_eq!(s.to_display_string(), expected);
}
