//! The infrared side: RC5 / RC5X frames and their Manchester pulse train,
//! the request packets that the clients send to the IR blaster, and the
//! blaster's driver, which fires single frames or repeats one continuously.
use vstd::prelude::*;

verus! {

/// RC5 half-bit period, in microseconds (one RMT tick per microsecond).
pub const HALF_BIT: u16 = 889;

/// The device address of the speaker.
pub const ADDRESS: u8 = 0x13;

/// Period of continuous firing, in microseconds.
pub const REPEAT_PERIOD_US: u64 = 117_000;

/// Bit `i` of a frame word.
pub open spec fn frame_bit(word: u16, i: u16) -> bool {
    (word >> i) & 1 == 1
}

/// The RC5 frame word: `[S1=1][S2=1][T][A4..A0][C5..C0]`.
pub open spec fn rc5_word_spec(address: u8, command: u8, toggle: bool) -> int {
    0x3000 + (if toggle { 0x800int } else { 0 }) + (address % 32) as int * 64 + (command % 64)
        as int
}

/// The RC5X frame word: as RC5, but S2 is the inverted seventh command bit.
pub open spec fn rc5x_word_spec(address: u8, command: u8, toggle: bool) -> int {
    0x2000 + (if command % 128 < 64 { 0x1000int } else { 0 }) + (if toggle { 0x800int } else {
        0
    }) + (address % 32) as int * 64 + (command % 64) as int
}

/// One Manchester-coded bit: the level of its first and of its second half period.
#[derive(Debug, Clone, Copy, PartialEq, Eq)]
pub struct Pulse {
    pub first_high: bool,
    pub second_high: bool,
}

/// The pulse train of a frame word, most significant of the 14 bits first:
/// a one is a space then a mark, a zero a mark then a space.
pub open spec fn pulses_match(word: u16, p: Seq<Pulse>) -> bool {
    &&& p.len() == 14
    &&& forall|k: int|
        0 <= k < 14 ==> (#[trigger] p[k]).second_high == frame_bit(word, (13 - k) as u16)
            && p[k].first_high == !frame_bit(word, (13 - k) as u16)
}

/// Builds the 14-bit RC5 frame word.
pub fn rc5_word(address: u8, command: u8, toggle: bool) -> (w: u16)
    ensures
        w == rc5_word_spec(address, command, toggle),
        w >> 12 == 3,
        frame_bit(w, 11) == toggle,
        (w >> 6) & 0x1F == address & 0x1F,
        w & 0x3F == command & 0x3F,
{
    let t: u16 = if toggle { 0x800 } else { 0 };
    let a: u16 = (address & 0x1F) as u16;
    let c: u16 = (command & 0x3F) as u16;
    let data: u16 = 0x3000 | t | (a << 6) | c;
    proof {
        assert(address & 0x1F == address % 32) by (bit_vector);
        assert(command & 0x3F == command % 64) by (bit_vector);
        assert(a < 32 && c < 64);
        assert(data == 0x3000u16 | t | (a << 6) | c);
        assert((0x3000u16 | t | (a << 6) | c) == 0x3000u16 + t + a * 64 + c && (0x3000u16 | t
            | (a << 6) | c) >> 12 == 3 && (((0x3000u16 | t | (a << 6) | c) >> 11) & 1 == 1) == (t
            == 0x800) && ((0x3000u16 | t | (a << 6) | c) >> 6) & 0x1F == a && (0x3000u16 | t | (a
            << 6) | c) & 0x3F == c) by (bit_vector)
            requires
                a < 32,
                c < 64,
                t == 0 || t == 0x800,
        ;
    }
    data
}

/// Builds the 14-bit RC5X frame word; commands 0–63 give the RC5 word.
pub fn rc5x_word(address: u8, command: u8, toggle: bool) -> (w: u16)
    ensures
        w == rc5x_word_spec(address, command, toggle),
        w >> 13 == 1,
        frame_bit(w, 12) == ((command >> 6) & 1 == 0),
        frame_bit(w, 11) == toggle,
        (w >> 6) & 0x1F == address & 0x1F,
        w & 0x3F == command & 0x3F,
{
    // S2 is the inverted seventh command bit (C6).
    let s2 = (command >> 6) & 1 == 0;
    let s: u16 = if s2 { 0x1000 } else { 0 };
    let t: u16 = if toggle { 0x800 } else { 0 };
    let a: u16 = (address & 0x1F) as u16;
    let c: u16 = (command & 0x3F) as u16;
    let data: u16 = 0x2000 | s | t | (a << 6) | c;
    proof {
        assert(address & 0x1F == address % 32) by (bit_vector);
        assert(command & 0x3F == command % 64) by (bit_vector);
        assert(((command >> 6) & 1 == 0) == (command % 128 < 64)) by (bit_vector);
        assert(data == 0x2000u16 | s | t | (a << 6) | c);
        assert((0x2000u16 | s | t | (a << 6) | c) == 0x2000u16 + s + t + a * 64 + c && (0x2000u16
            | s | t | (a << 6) | c) >> 13 == 1 && (((0x2000u16 | s | t | (a << 6) | c) >> 12) & 1
            == 1) == (s == 0x1000) && (((0x2000u16 | s | t | (a << 6) | c) >> 11) & 1 == 1) == (t
            == 0x800) && ((0x2000u16 | s | t | (a << 6) | c) >> 6) & 0x1F == a && (0x2000u16 | s
            | t | (a << 6) | c) & 0x3F == c) by (bit_vector)
            requires
                a < 32,
                c < 64,
                t == 0 || t == 0x800,
                s == 0 || s == 0x1000,
        ;
    }
    data
}

/// RC5X agrees with RC5 on the commands that RC5 can express (0–63).
pub proof fn law_rc5x_extends_rc5(address: u8, command: u8, toggle: bool)
    requires
        command < 64,
    ensures
        rc5x_word_spec(address, command, toggle) == rc5_word_spec(address, command, toggle),
{
}

/// The Manchester pulse train of a frame word (without the end marker).
pub fn manchester(word: u16) -> (p: Vec<Pulse>)
    ensures
        pulses_match(word, p@),
{
    let mut p: Vec<Pulse> = Vec::new();
    let mut i: u16 = 14;
    while i > 0
        invariant
            i <= 14,
            p@.len() == 14 - i,
            forall|k: int|
                0 <= k < 14 - i ==> (#[trigger] p@[k]).second_high == frame_bit(
                    word,
                    (13 - k) as u16,
                ) && p@[k].first_high == !frame_bit(word, (13 - k) as u16),
        decreases i,
    {
        i = i - 1;
        let bit = (word >> i) & 1;
        let pulse = if bit == 1 {
            Pulse { first_high: false, second_high: true }
        } else {
            Pulse { first_high: true, second_high: false }
        };
        p.push(pulse);
    }
    p
}

/// A request to the IR blaster: `(address, command, toggle, signal)`, where the
/// signal is 1 to fire once, 2 to start firing continuously and 3 to stop.
#[derive(Debug, Clone, Copy, PartialEq, Eq)]
pub struct IrRequest {
    pub address: u8,
    pub command: u8,
    pub toggle: bool,
    pub signal: u8,
}

/// The request a packet holds: four bytes, or nothing.
pub open spec fn request_of_packet(p: Seq<u8>) -> Option<IrRequest> {
    if p.len() == 4 {
        Some(IrRequest { address: p[0], command: p[1], toggle: p[2] != 0, signal: p[3] })
    } else {
        None
    }
}

/// The bytes of the packet a client sends.
pub open spec fn packet_bytes(command: u8, toggle: bool, signal: u8) -> Seq<u8> {
    seq![ADDRESS, command, if toggle { 1u8 } else { 0u8 }, signal]
}

/// Reads a UDP request packet `[address, command, toggle, signal]`;
/// a packet of any other length is refused.
pub fn parse_ir_packet(packet: &[u8]) -> (r: Option<IrRequest>)
    ensures
        r == request_of_packet(packet@),
        packet@.len() != 4 ==> r is None,
        packet@.len() == 4 ==> (r matches Some(q) && q.address == packet@[0] && q.command
            == packet@[1] && q.toggle == (packet@[2] != 0) && q.signal == packet@[3]),
{
    if packet.len() != 4 {
        return None;
    }
    Some(
        IrRequest {
            address: packet[0],
            command: packet[1],
            toggle: packet[2] != 0,
            signal: packet[3],
        },
    )
}

/// The UDP packet a client sends for a command: `[ADDRESS, command, toggle, signal]`.
pub fn ir_packet(command: u8, toggle: bool, signal: u8) -> (p: [u8; 4])
    ensures
        p@ == packet_bytes(command, toggle, signal),
{
    let t: u8 = if toggle { 1 } else { 0 };
    let p = [ADDRESS, command, t, signal];
    assert(p@ =~= seq![ADDRESS, command, t, signal]);
    p
}

/// The blaster reads back every packet a client sends.
pub proof fn law_packet_roundtrip(command: u8, toggle: bool, signal: u8)
    ensures
        request_of_packet(packet_bytes(command, toggle, signal)) == Some(
            IrRequest { address: ADDRESS, command, toggle, signal },
        ),
{
}

/// A request carries every byte of its packet: a four-byte packet gives the
/// request `(p[0], p[1], p[2] != 0, p[3])`, and written back as a packet (toggle
/// as 0 or 1) it gives the same bytes whenever the toggle byte was 0 or 1;
/// any other length gives no request.
pub proof fn law_packet_fields(p: Seq<u8>)
    ensures
        p.len() != 4 ==> request_of_packet(p) is None,
        p.len() == 4 ==> (request_of_packet(p) matches Some(r) && r.address == p[0]
            && r.command == p[1] && r.toggle == (p[2] != 0) && r.signal == p[3]),
        p.len() == 4 && p[2] <= 1 ==> (request_of_packet(p) matches Some(r) && seq![
            r.address,
            r.command,
            if r.toggle { 1u8 } else { 0u8 },
            r.signal,
        ] =~= p),
{
}

/// A frame for the transmitter.
#[derive(Debug, Clone, Copy, PartialEq, Eq)]
pub struct Frame {
    pub address: u8,
    pub command: u8,
    pub toggle: bool,
}

/// The IR driver's state: whether it fires one frame continuously, and which.
#[derive(Debug, Clone, Copy, PartialEq, Eq)]
pub struct IrDriver {
    pub continuous: bool,
    pub cont_addr: u8,
    pub cont_cmd: u8,
    pub cont_toggle: bool,
}

impl IrDriver {
    /// The frame a driver in this state repeats.
    pub open spec fn repeating(self) -> Option<Frame> {
        if self.continuous {
            Some(Frame { address: self.cont_addr, command: self.cont_cmd, toggle: self.cont_toggle })
        } else {
            None
        }
    }

    /// The state after a request, and the frame it fires once.
    pub open spec fn step(self, r: IrRequest) -> (IrDriver, Option<Frame>) {
        if r.signal == 1 {
            (
                IrDriver { continuous: false, ..self },
                Some(Frame { address: r.address, command: r.command, toggle: r.toggle }),
            )
        } else if r.signal == 2 {
            (
                IrDriver {
                    continuous: true,
                    cont_addr: r.address,
                    cont_cmd: r.command,
                    cont_toggle: r.toggle,
                },
                None,
            )
        } else if r.signal == 3 {
            (IrDriver { continuous: false, ..self }, None)
        } else {
            (self, None)
        }
    }

    /// The driver at power-on: idle.
    pub fn new() -> (d: IrDriver)
        ensures
            !d.continuous,
            d.cont_addr == 0,
            d.cont_cmd == 0,
            !d.cont_toggle,
    {
        IrDriver { continuous: false, cont_addr: 0, cont_cmd: 0, cont_toggle: false }
    }

    /// The frame the driver fires before it next waits, if it fires continuously.
    pub fn repeat_frame(&self) -> (f: Option<Frame>)
        ensures
            f == self.repeating(),
    {
        if self.continuous {
            Some(Frame { address: self.cont_addr, command: self.cont_cmd, toggle: self.cont_toggle })
        } else {
            None
        }
    }

    /// Handles a request: signal 1 fires its frame once and ends continuous firing,
    /// 2 makes its frame the continuous one, 3 stops, any other signal is ignored.
    pub fn on_request(&mut self, r: IrRequest) -> (f: Option<Frame>)
        ensures
            (*final(self), f) == old(self).step(r),
    {
        if r.signal == 1 {
            self.continuous = false;
            Some(Frame { address: r.address, command: r.command, toggle: r.toggle })
        } else if r.signal == 2 {
            self.cont_addr = r.address;
            self.cont_cmd = r.command;
            self.cont_toggle = r.toggle;
            self.continuous = true;
            None
        } else if r.signal == 3 {
            self.continuous = false;
            None
        } else {
            None
        }
    }
}

/// How long the continuous driver waits for a request after a frame that took
/// `elapsed_us`: the rest of the repeat period, or nothing once it has passed.
pub fn repeat_gap(elapsed_us: u64) -> (g: u64)
    ensures
        g == if elapsed_us <= REPEAT_PERIOD_US { REPEAT_PERIOD_US - elapsed_us } else { 0 },
{
    if elapsed_us <= REPEAT_PERIOD_US {
        REPEAT_PERIOD_US - elapsed_us
    } else {
        0
    }
}

/// After a start request the driver repeats exactly the requested frame, and
/// after a stop request it repeats nothing, whatever state it was in; a single
/// fire request also ends repetition.
pub proof fn law_start_stop(d: IrDriver, r: IrRequest)
    ensures
        r.signal == 2 ==> d.step(r).0.repeating() == Some(
            Frame { address: r.address, command: r.command, toggle: r.toggle },
        ),
        r.signal == 1 || r.signal == 3 ==> (d.step(r).0.repeating() is None),
{
}

} // verus!
