use remodian::ir::{
    ir_packet, manchester, parse_ir_packet, rc5_word, rc5x_word, repeat_gap, IrDriver, IrRequest,
    Frame, Pulse, ADDRESS, HALF_BIT,
};

#[test]
fn rc5_word_layout() {
    // S1=1 S2=1 T=0 A=0x13 C=0x10
    assert_eq!(rc5_word(0x13, 0x10, false), 0b11_0_10011_010000);
    assert_eq!(rc5_word(0x13, 0x10, true), 0b11_1_10011_010000);
    // address and command are masked to 5 and 6 bits
    assert_eq!(rc5_word(0xFF, 0xFF, false), 0b11_0_11111_111111);
    assert_eq!(HALF_BIT, 889);
}

#[test]
fn rc5x_word_layout() {
    // commands below 64 give the RC5 word
    for c in 0..64u8 {
        assert_eq!(rc5x_word(0x13, c, true), rc5_word(0x13, c, true));
    }
    // 0x6B = 107 has C6 set: S2 = 0
    assert_eq!(rc5x_word(0x13, 0x6B, false), 0b10_0_10011_101011);
}

#[test]
fn manchester_pulses() {
    let w = rc5_word(0x13, 0x0D, true);
    let p = manchester(w);
    assert_eq!(p.len(), 14);
    for (k, pulse) in p.iter().enumerate() {
        let bit = (w >> (13 - k)) & 1 == 1;
        let expect = if bit {
            Pulse { first_high: false, second_high: true }
        } else {
            Pulse { first_high: true, second_high: false }
        };
        assert_eq!(*pulse, expect);
    }
    // the first two bits (S1, S2) are ones: space then mark
    assert_eq!(p[0], Pulse { first_high: false, second_high: true });
}

#[test]
fn udp_packets() {
    assert_eq!(parse_ir_packet(&[0x13, 0x10, 1, 2]), Some(IrRequest {
        address: 0x13,
        command: 0x10,
        toggle: true,
        signal: 2,
    }));
    assert_eq!(parse_ir_packet(&[1, 2, 0, 3]).unwrap().toggle, false);
    assert_eq!(parse_ir_packet(&[1, 2, 7, 3]).unwrap().toggle, true);
    assert_eq!(parse_ir_packet(&[1, 2, 3]), None);
    assert_eq!(parse_ir_packet(&[1, 2, 3, 4, 5]), None);
    assert_eq!(ir_packet(0x11, true, 1), [ADDRESS, 0x11, 1, 1]);
    let p = ir_packet(0x6B, false, 2);
    assert_eq!(parse_ir_packet(&p), Some(IrRequest {
        address: ADDRESS,
        command: 0x6B,
        toggle: false,
        signal: 2,
    }));
}

fn req(signal: u8) -> IrRequest {
    IrRequest { address: 0x13, command: 0x10, toggle: true, signal }
}

#[test]
fn driver_fires_and_repeats() {
    let mut d = IrDriver::new();
    assert_eq!(d.repeat_frame(), None);
    // single fire
    assert_eq!(d.on_request(req(1)), Some(Frame { address: 0x13, command: 0x10, toggle: true }));
    assert_eq!(d.repeat_frame(), None);
    // stop while idle does nothing
    assert_eq!(d.on_request(req(3)), None);
    assert!(!d.continuous);
    // start continuous firing
    assert_eq!(d.on_request(req(2)), None);
    assert_eq!(d.repeat_frame(), Some(Frame { address: 0x13, command: 0x10, toggle: true }));
    // a new start replaces the repeated frame
    let r = IrRequest { address: 0x13, command: 0x11, toggle: false, signal: 2 };
    d.on_request(r);
    assert_eq!(d.repeat_frame(), Some(Frame { address: 0x13, command: 0x11, toggle: false }));
    // unknown signals are ignored
    let before = d;
    assert_eq!(d.on_request(req(9)), None);
    assert_eq!(d, before);
    // a single fire ends continuous firing
    assert!(d.on_request(req(1)).is_some());
    assert_eq!(d.repeat_frame(), None);
    d.on_request(req(2));
    d.on_request(req(3));
    assert_eq!(d.repeat_frame(), None);
}

#[test]
fn repeat_period_gap() {
    assert_eq!(repeat_gap(0), 117_000);
    assert_eq!(repeat_gap(17_000), 100_000);
    assert_eq!(repeat_gap(117_000), 0);
    assert_eq!(repeat_gap(200_000), 0);
}
