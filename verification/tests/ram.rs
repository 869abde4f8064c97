use gsim::ram::Ram;
use gsim::{BitWidth, ClockPolarity, LogicBitState, LogicState};

fn w(n: u32) -> BitWidth {
    BitWidth::new(n).unwrap()
}

#[test]
fn ram_starts_undefined() {
    let mut ram = Ram::new(w(2), w(4), ClockPolarity::Rising);
    let mut out = LogicState::logic_0(w(4));
    let addr = LogicState::from_u32(1, w(2));
    let data = LogicState::from_u32(0, w(4));
    let changed = ram.update(&addr, &data, &addr, LogicBitState::Logic0, LogicBitState::Logic0, &mut out);
    assert!(changed);
    assert!(out == LogicState::undefined(w(4)));
    let changed = ram.update(&addr, &data, &addr, LogicBitState::Logic0, LogicBitState::Logic0, &mut out);
    assert!(!changed);
}

#[test]
fn ram_writes_on_rising_edge() {
    let mut ram = Ram::new(w(2), w(4), ClockPolarity::Rising);
    let mut out = LogicState::undefined(w(4));
    let waddr = LogicState::from_u32(2, w(2));
    let data = LogicState::from_u32(0b1010, w(4));
    // the clock is low: no write
    ram.update(&waddr, &data, &waddr, LogicBitState::Logic1, LogicBitState::Logic0, &mut out);
    assert!(out == LogicState::undefined(w(4)));
    // rising edge with write enabled
    let changed = ram.update(&waddr, &data, &waddr, LogicBitState::Logic1, LogicBitState::Logic1, &mut out);
    assert!(changed);
    assert!(out == LogicState::from_u32(0b1010, w(4)));
    // other cells keep their value
    let other = LogicState::from_u32(1, w(2));
    ram.update(&waddr, &data, &other, LogicBitState::Logic1, LogicBitState::Logic1, &mut out);
    assert!(out == LogicState::undefined(w(4)));
    // no edge while the clock stays high
    let data2 = LogicState::from_u32(0b0101, w(4));
    ram.update(&waddr, &data2, &waddr, LogicBitState::Logic1, LogicBitState::Logic1, &mut out);
    assert!(out == LogicState::from_u32(0b1010, w(4)));
}

#[test]
fn ram_write_disabled_and_undefined_write() {
    let mut ram = Ram::new(w(1), w(3), ClockPolarity::Falling);
    let mut out = LogicState::undefined(w(3));
    let addr = LogicState::from_u32(0, w(1));
    let data = LogicState::from_u32(0b011, w(3));
    ram.update(&addr, &data, &addr, LogicBitState::Logic1, LogicBitState::Logic1, &mut out);
    ram.update(&addr, &data, &addr, LogicBitState::Logic1, LogicBitState::Logic0, &mut out);
    assert!(out == LogicState::from_u32(0b011, w(3)));
    // write low: the cell stays
    ram.update(&addr, &data, &addr, LogicBitState::Logic0, LogicBitState::Logic1, &mut out);
    ram.update(&addr, &LogicState::from_u32(0, w(3)), &addr, LogicBitState::Logic0, LogicBitState::Logic0, &mut out);
    assert!(out == LogicState::from_u32(0b011, w(3)));
    // write undefined: the cell becomes undefined
    ram.update(&addr, &data, &addr, LogicBitState::Undefined, LogicBitState::Logic1, &mut out);
    ram.update(&addr, &data, &addr, LogicBitState::Undefined, LogicBitState::Logic0, &mut out);
    assert!(out == LogicState::undefined(w(3)));
}

#[test]
fn ram_high_z_data_and_invalid_address() {
    let mut ram = Ram::new(w(1), w(2), ClockPolarity::Rising);
    let mut out = LogicState::undefined(w(2));
    let addr = LogicState::from_u32(1, w(1));
    let data = LogicState::from_bits(&[LogicBitState::Logic1, LogicBitState::HighZ]);
    ram.update(&addr, &data, &addr, LogicBitState::Logic1, LogicBitState::Logic0, &mut out);
    ram.update(&addr, &data, &addr, LogicBitState::Logic1, LogicBitState::Logic1, &mut out);
    assert!(out == LogicState::from_bits(&[LogicBitState::Logic1, LogicBitState::Undefined]));
    let bad = LogicState::high_z(w(1));
    let changed = ram.update(&addr, &data, &bad, LogicBitState::Logic0, LogicBitState::Logic1, &mut out);
    assert!(changed);
    assert!(out == LogicState::undefined(w(2)));
    ram.reset();
    ram.update(&addr, &data, &addr, LogicBitState::Logic0, LogicBitState::Logic1, &mut out);
    assert!(out == LogicState::undefined(w(2)));
}

#[test]
fn ram_reset_to_clear_value() {
    let mut ram = Ram::new(w(1), w(4), ClockPolarity::Rising);
    ram.set_clear_value(LogicState::from_u32(0b0110, w(4)));
    ram.reset();
    let mut out = LogicState::undefined(w(4));
    let addr = LogicState::from_u32(1, w(1));
    let data = LogicState::from_u32(0, w(4));
    let changed = ram.update(&addr, &data, &addr, LogicBitState::Logic0, LogicBitState::Logic0, &mut out);
    assert!(changed);
    assert!(out == LogicState::from_u32(0b0110, w(4)));
}
