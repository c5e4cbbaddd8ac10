//! The remote-control clients' side: the speaker's commands and what a client
//! puts on the wire for them (MQTT payload, HTTP request URL, UDP packet).
use vstd::prelude::*;
use crate::ir::{packet_bytes, request_of_packet, Frame, IrDriver, IrRequest, ADDRESS};
use crate::text::{dec, push_char, push_dec, string_from};

verus! {

/// An infrared remote command understood by the speaker.
#[derive(Debug, Clone, Copy, PartialEq, Eq, Structural)]
pub enum Command {
    VolUp,
    VolDown,
    CdOn,
    Off,
    Mute,
}

impl Command {
    /// The RC5 command number of this command.
    pub open spec fn spec_code(self) -> u32 {
        match self {
            Command::VolUp => 0x10,
            Command::VolDown => 0x11,
            Command::CdOn => 0x6B,
            Command::Off => 0xC,
            Command::Mute => 0x0D,
        }
    }

    /// The RC5 command number of this command.
    pub fn code(self) -> (c: u32)
        ensures
            c == self.spec_code(),
    {
        match self {
            Command::VolUp => 0x10,
            Command::VolDown => 0x11,
            Command::CdOn => 0x6B,
            Command::Off => 0xC,
            Command::Mute => 0x0D,
        }
    }
}

/// What a client asks of the IR blaster.
#[derive(Debug, Clone, Copy, PartialEq, Eq)]
pub enum ClientOp {
    /// Fire a single RC5 frame (signal 1).
    Call(Command),
    /// Begin continuous firing (signal 2).
    Start(Command),
    /// Stop continuous firing (signal 3).
    Stop,
}

impl ClientOp {
    /// `(command, toggle, signal)` on the wire, given the client's toggle bit.
    pub open spec fn wire(self, toggle: bool) -> (u8, bool, u8) {
        match self {
            ClientOp::Call(c) => (c.spec_code() as u8, toggle, 1u8),
            ClientOp::Start(c) => (c.spec_code() as u8, toggle, 2u8),
            ClientOp::Stop => (0u8, false, 3u8),
        }
    }

    /// `(command, toggle, signal)` on the wire, given the client's toggle bit.
    pub fn wire_fields(self, toggle: bool) -> (w: (u8, bool, u8))
        ensures
            w == self.wire(toggle),
    {
        match self {
            ClientOp::Call(c) => (c.code() as u8, toggle, 1),
            ClientOp::Start(c) => (c.code() as u8, toggle, 2),
            ClientOp::Stop => (0, false, 3),
        }
    }
}

/// The MQTT payload `address,command,toggle,signal` in decimal.
pub open spec fn mqtt_payload_text(command: u32, toggle: bool, signal: u8) -> Seq<char> {
    dec(ADDRESS as nat) + ","@ + dec(command as nat) + ","@ + dec(if toggle { 1nat } else { 0nat })
        + ","@ + dec(signal as nat)
}

/// The MQTT payload for a request; the stop request is `0,0,0,3`.
pub fn mqtt_payload(op: ClientOp, toggle: bool) -> (p: String)
    ensures
        p@ == (match op {
            ClientOp::Stop => "0,0,0,3"@,
            ClientOp::Call(c) => mqtt_payload_text(c.spec_code(), toggle, 1),
            ClientOp::Start(c) => mqtt_payload_text(c.spec_code(), toggle, 2),
        }),
{
    let (code, signal): (u32, u8) = match op {
        ClientOp::Stop => {
            return string_from("0,0,0,3");
        },
        ClientOp::Call(c) => (c.code(), 1),
        ClientOp::Start(c) => (c.code(), 2),
    };
    let mut s = String::new();
    push_dec(&mut s, ADDRESS as u64);
    push_char(&mut s, ',');
    push_dec(&mut s, code as u64);
    push_char(&mut s, ',');
    push_dec(&mut s, if toggle { 1 } else { 0 });
    push_char(&mut s, ',');
    push_dec(&mut s, signal as u64);
    proof {
        reveal_strlit(",");
        assert(","@ =~= seq![',']);
    }
    assert(s@ =~= mqtt_payload_text(code, toggle, signal));
    s
}

/// `str::trim_end_matches('/')`: trailing slashes removed.
pub open spec fn trim_slashes(s: Seq<char>) -> Seq<char>
    decreases s.len(),
{
    if s.len() > 0 && s.last() == '/' {
        trim_slashes(s.drop_last())
    } else {
        s
    }
}

/// The base URL of an HTTP IR device, without trailing slashes.
pub fn base_url(url: &str) -> (b: String)
    ensures
        b@ == trim_slashes(url@),
{
    let v = crate::text::chars_of(url);
    let mut n: usize = v.len();
    assert(v@.take(n as int) =~= v@);
    while n > 0 && v[n - 1] == '/'
        invariant
            n <= v.len(),
            trim_slashes(v@) == trim_slashes(v@.take(n as int)),
        decreases n,
    {
        assert(v@.take(n as int).drop_last() =~= v@.take(n as int - 1));
        n = n - 1;
    }
    assert(v@.take(v.len() as int) =~= v@);
    let mut out = String::new();
    let mut i: usize = 0;
    while i < n
        invariant
            i <= n <= v.len(),
            out@ == v@.take(i as int),
        decreases n - i,
    {
        push_char(&mut out, v[i]);
        i = i + 1;
        assert(out@ =~= v@.take(i as int));
    }
    out
}

/// The HTTP request URL for a request to the device at `base`.
pub open spec fn ir_url_text(base: Seq<char>, command: u8, toggle: bool, signal: u8) -> Seq<char> {
    base + "/ir?address="@ + dec(ADDRESS as nat) + "&command="@ + dec(command as nat)
        + "&toggle="@ + dec(if toggle { 1nat } else { 0nat }) + "&signal="@ + dec(signal as nat)
}

/// `{base}/ir?address=..&command=..&toggle=..&signal=..`
pub fn ir_url(base: &str, command: u8, toggle: bool, signal: u8) -> (u: String)
    ensures
        u@ == ir_url_text(base@, command, toggle, signal),
{
    let mut s = string_from(base);
    append(&mut s, "/ir?address=");
    push_dec(&mut s, ADDRESS as u64);
    append(&mut s, "&command=");
    push_dec(&mut s, command as u64);
    append(&mut s, "&toggle=");
    push_dec(&mut s, if toggle { 1 } else { 0 });
    append(&mut s, "&signal=");
    push_dec(&mut s, signal as u64);
    s
}

/// Appends a text.
pub(crate) fn append(s: &mut String, t: &str)
    ensures
        final(s)@ == old(s)@ + t@,
{
    let v = crate::text::chars_of(t);
    let mut i: usize = 0;
    let ghost start = s@;
    while i < v.len()
        invariant
            i <= v.len(),
            s@ == start + v@.take(i as int),
        decreases v.len() - i,
    {
        push_char(s, v[i]);
        i = i + 1;
        assert(s@ =~= start + v@.take(i as int));
    }
    assert(v@.take(v.len() as int) =~= v@);
}

/// What the blaster does with a client's request: a start request makes it
/// repeat the command's frame with the client's toggle bit, a stop request or a
/// single fire ends any repetition, whatever state the driver was in.
pub proof fn law_client_to_driver(d: IrDriver, op: ClientOp, toggle: bool)
    ensures
        ({
            let (cmd, t, sig) = op.wire(toggle);
            let r = request_of_packet(packet_bytes(cmd, t, sig));
            &&& r is Some
            &&& match op {
                ClientOp::Start(c) => d.step(r->Some_0).0.repeating() == Some(
                    Frame { address: ADDRESS, command: c.spec_code() as u8, toggle },
                ),
                ClientOp::Call(c) => d.step(r->Some_0) == (
                    IrDriver { continuous: false, ..d },
                    Some(Frame { address: ADDRESS, command: c.spec_code() as u8, toggle }),
                ),
                ClientOp::Stop => d.step(r->Some_0).0.repeating() is None,
            }
        }),
{
}

} // verus!
