//! The volume controller: a bang-bang controller with a dead band, a zone
//! where it steps slowly, a zone where it steps fast, and a far zone where it
//! fires continuously; and the volume state that the vision side feeds.
use vstd::prelude::*;
use crate::client::{ClientOp, Command};
use crate::ir::{packet_bytes, request_of_packet, IrDriver, ADDRESS};

verus! {

// ---------------------------------------------------------------------------
// `u32 as f32`
// ---------------------------------------------------------------------------

/// The spacing of the `f32` values near `v`: 1 below 2^24, doubling with each
/// further binary digit.
pub open spec fn f32_grain(v: nat) -> nat
    decreases v,
{
    if v < 0x100_0000 {
        1
    } else {
        2 * f32_grain(v / 2)
    }
}

/// The value of `v as f32`: `v` rounded to its grain, ties to even.
pub open spec fn f32_of(v: nat) -> nat {
    let p = f32_grain(v);
    let q = v / p;
    let r = v % p;
    if 2 * r < p {
        q * p
    } else if 2 * r > p {
        (q + 1) * p
    } else if q % 2 == 0 {
        q * p
    } else {
        (q + 1) * p
    }
}

proof fn lemma_grain_pos(v: nat)
    ensures
        f32_grain(v) >= 1,
    decreases v,
{
    if v >= 0x100_0000 {
        lemma_grain_pos(v / 2);
    }
}

/// The value that `v as f32` holds.
pub fn f32_value(v: u32) -> (r: u64)
    ensures
        r == f32_of(v as nat),
{
    let mut p: u64 = 1;
    let mut w: u64 = v as u64;
    while w >= 0x100_0000
        invariant
            1 <= p <= 0x2_0000_0000,
            w == v as nat / p as nat,
            p * w <= v,
            f32_grain(v as nat) == p * f32_grain(w as nat),
        decreases w,
    {
        proof {
            lemma_grain_pos((w / 2) as nat);
            assert(f32_grain(w as nat) == 2 * f32_grain((w / 2) as nat));
            vstd::arithmetic::div_mod::lemma_div_denominator(v as int, p as int, 2);
            assert(p <= v) by (nonlinear_arith)
                requires
                    p * w <= v,
                    w >= 1,
            ;
            assert(p * 2 * (w / 2) <= p * w) by (nonlinear_arith)
                requires
                    p >= 1,
            ;
            assert(p * (2 * f32_grain((w / 2) as nat)) == (p * 2) * f32_grain((w / 2) as nat))
                by (nonlinear_arith);
        }
        w = w / 2;
        p = p * 2;
    }
    proof {
        assert(f32_grain(w as nat) == 1);
        let g = f32_grain(w as nat);
        assert(g == 1);
        assert(f32_grain(v as nat) == p as nat) by (nonlinear_arith)
            requires
                f32_grain(v as nat) == p * g,
                g == 1,
        ;
    }
    let q: u64 = v as u64 / p;
    let r: u64 = v as u64 % p;
    proof {
        vstd::arithmetic::div_mod::lemma_fundamental_div_mod(v as int, p as int);
        assert(q * p + r == v) by (nonlinear_arith)
            requires
                v == p * (v as int / p as int) + (v as int % p as int),
                q == v as int / p as int,
                r == v as int % p as int,
        ;
        vstd::arithmetic::div_mod::lemma_mod_bound(v as int, p as int);
        assert((q + 1) * p == q * p + p) by (nonlinear_arith);
    }
    if 2 * r < p {
        q * p
    } else if 2 * r > p {
        (q + 1) * p
    } else if q % 2 == 0 {
        q * p
    } else {
        (q + 1) * p
    }
}

// ---------------------------------------------------------------------------
// The controller
// ---------------------------------------------------------------------------

/// One round of the control loop: the request it sends (if any), how long it
/// then sleeps, and the command it fires continuously afterwards (if any).
#[derive(Debug, Clone, Copy, PartialEq, Eq)]
pub struct ControlStep {
    pub op: Option<ClientOp>,
    pub pause_ms: u64,
    pub rapid_firing: Option<Command>,
}

/// The idle pause at the end of every round.
pub const LOOP_SLEEP_MS: u64 = 100;

/// Extra pause after a single step when the error is below the near threshold.
pub const NEAR_SLEEP_MS: u64 = 200;

/// Extra pause after a single step when the error is below the very-near threshold.
pub const VERY_NEAR_SLEEP_MS: u64 = 700;

/// The controller's error: target minus current, both as `f32` values.
pub open spec fn control_error(current: u32, target: u32) -> int {
    f32_of(target as nat) - f32_of(current as nat)
}

pub open spec fn abs(x: int) -> int {
    if x < 0 {
        -x
    } else {
        x
    }
}

/// The command that moves the volume toward the target.
pub open spec fn toward(current: u32, target: u32) -> Command {
    if control_error(current, target) > 0 {
        Command::VolUp
    } else {
        Command::VolDown
    }
}

/// What one round does, given the command fired continuously (if any).
/// Outside automatic mode, or with the display off, it only stops continuous
/// firing. Otherwise, with an error of at least one step (the dead band is half
/// a step): below 8 it stops continuous firing if that is on, else fires one
/// step and waits 700 ms (error below 4) or 200 ms; from 8 on it starts
/// continuous firing toward the target if nothing fires, keeps it if it already
/// goes that way, and stops it if it goes the other way (the next round then
/// starts the right one).
pub open spec fn control_decision(
    rapid: Option<Command>,
    automatic: bool,
    off: bool,
    current: u32,
    target: u32,
) -> ControlStep {
    if !automatic || off {
        ControlStep {
            op: if rapid is Some { Some(ClientOp::Stop) } else { None },
            pause_ms: LOOP_SLEEP_MS,
            rapid_firing: None,
        }
    } else {
        let e = control_error(current, target);
        let cmd = toward(current, target);
        if abs(e) == 0 {
            ControlStep { op: None, pause_ms: LOOP_SLEEP_MS, rapid_firing: rapid }
        } else if abs(e) < 8 {
            if rapid is Some {
                ControlStep { op: Some(ClientOp::Stop), pause_ms: LOOP_SLEEP_MS, rapid_firing: None }
            } else {
                ControlStep {
                    op: Some(ClientOp::Call(cmd)),
                    pause_ms: (if abs(e) < 4 { VERY_NEAR_SLEEP_MS } else { NEAR_SLEEP_MS }
                        + LOOP_SLEEP_MS) as u64,
                    rapid_firing: None,
                }
            }
        } else {
            match rapid {
                None => ControlStep {
                    op: Some(ClientOp::Start(cmd)),
                    pause_ms: LOOP_SLEEP_MS,
                    rapid_firing: Some(cmd),
                },
                Some(c) => if c == cmd {
                    ControlStep { op: None, pause_ms: LOOP_SLEEP_MS, rapid_firing: rapid }
                } else {
                    ControlStep { op: Some(ClientOp::Stop), pause_ms: LOOP_SLEEP_MS, rapid_firing: None }
                },
            }
        }
    }
}

/// One round of the control loop, from the command fired continuously (if
/// any), the mode, the display state, the expected current volume and the
/// desired volume.
pub fn control_step(
    rapid: Option<Command>,
    automatic: bool,
    off: bool,
    current: u32,
    target: u32,
) -> (s: ControlStep)
    ensures
        s == control_decision(rapid, automatic, off, current, target),
{
    if !automatic || off {
        return ControlStep {
            op: if rapid.is_some() { Some(ClientOp::Stop) } else { None },
            pause_ms: LOOP_SLEEP_MS,
            rapid_firing: None,
        };
    }
    let t = f32_value(target);
    let c = f32_value(current);
    let up = t > c;
    let mag: u64 = if up { t - c } else { c - t };
    let cmd = if up { Command::VolUp } else { Command::VolDown };
    if mag == 0 {
        ControlStep { op: None, pause_ms: LOOP_SLEEP_MS, rapid_firing: rapid }
    } else if mag < 8 {
        if rapid.is_some() {
            ControlStep { op: Some(ClientOp::Stop), pause_ms: LOOP_SLEEP_MS, rapid_firing: None }
        } else {
            let extra = if mag < 4 { VERY_NEAR_SLEEP_MS } else { NEAR_SLEEP_MS };
            ControlStep {
                op: Some(ClientOp::Call(cmd)),
                pause_ms: extra + LOOP_SLEEP_MS,
                rapid_firing: None,
            }
        }
    } else {
        match rapid {
            None => ControlStep {
                op: Some(ClientOp::Start(cmd)),
                pause_ms: LOOP_SLEEP_MS,
                rapid_firing: Some(cmd),
            },
            Some(running) => if running == cmd {
                ControlStep { op: None, pause_ms: LOOP_SLEEP_MS, rapid_firing: rapid }
            } else {
                ControlStep { op: Some(ClientOp::Stop), pause_ms: LOOP_SLEEP_MS, rapid_firing: None }
            },
        }
    }
}

proof fn lemma_f32_exact(v: nat)
    requires
        v < 0x100_0000,
    ensures
        f32_of(v) == v,
{
    assert(f32_grain(v) == 1);
    assert(v / 1 == v && v % 1 == 0);
}

/// Outside the dead band the controller acts: with nothing fired
/// continuously, any nonzero error below 8 fires one step toward the target.
pub proof fn law_dead_band_only_zero(current: u32, target: u32)
    ensures
        ({
            let e = control_error(current, target);
            let s = control_decision(None, true, false, current, target);
            &&& e == 0 <==> s.op is None
            &&& (e != 0 && abs(e) < 8) ==> s.op == Some(ClientOp::Call(toward(current, target)))
            &&& e > 0 ==> toward(current, target) == Command::VolUp
            &&& e < 0 ==> toward(current, target) == Command::VolDown
        }),
{
}

/// For volumes below 2^24, which `f32` holds exactly, one round in automatic
/// mode with the display on: at the target nothing is sent; 1 to 7 away, a
/// running continuous fire is stopped, else one step toward the target is
/// fired and the round lasts 800 ms (within 3) or 300 ms; from 8 away,
/// continuous firing toward the target is started, kept, or (if it runs the
/// other way) stopped.
pub proof fn law_control_small_volumes(rapid: Option<Command>, current: u32, target: u32)
    requires
        current < 0x100_0000,
        target < 0x100_0000,
    ensures
        ({
            let s = control_decision(rapid, true, false, current, target);
            let dir = if target > current { Command::VolUp } else { Command::VolDown };
            let d = if target > current { target - current } else { current - target };
            &&& d == 0 ==> s == ControlStep { op: None, pause_ms: 100, rapid_firing: rapid }
            &&& (0 < d < 8 && rapid is None) ==> s == ControlStep {
                op: Some(ClientOp::Call(dir)),
                pause_ms: if d < 4 { 800 } else { 300 },
                rapid_firing: None,
            }
            &&& (0 < d < 8 && rapid is Some) ==> s == ControlStep {
                op: Some(ClientOp::Stop),
                pause_ms: 100,
                rapid_firing: None,
            }
            &&& (d >= 8 && rapid is None) ==> s == ControlStep {
                op: Some(ClientOp::Start(dir)),
                pause_ms: 100,
                rapid_firing: Some(dir),
            }
            &&& (d >= 8 && rapid == Some(dir)) ==> s == ControlStep {
                op: None,
                pause_ms: 100,
                rapid_firing: rapid,
            }
            &&& (d >= 8 && rapid is Some && rapid != Some(dir)) ==> s == ControlStep {
                op: Some(ClientOp::Stop),
                pause_ms: 100,
                rapid_firing: None,
            }
        }),
{
    lemma_f32_exact(current as nat);
    lemma_f32_exact(target as nat);
}

/// The IR blaster fires `rapid` continuously: nothing, or the command's frame
/// at the speaker's address.
pub open spec fn driver_fires(d: IrDriver, rapid: Option<Command>) -> bool {
    match rapid {
        None => !d.continuous,
        Some(c) => d.continuous && d.cont_addr == ADDRESS && d.cont_cmd == c.spec_code() as u8,
    }
}

/// The blaster's state once a round's request (if any), sent with the client's
/// toggle bit, has reached it.
pub open spec fn driver_after(d: IrDriver, op: Option<ClientOp>, toggle: bool) -> IrDriver {
    match op {
        None => d,
        Some(op) => {
            let (cmd, t, sig) = op.wire(toggle);
            d.step(request_of_packet(packet_bytes(cmd, t, sig))->Some_0).0
        },
    }
}

/// The controller's belief about continuous firing stays true of the IR blaster:
/// if the blaster fires continuously exactly the command the controller thinks
/// it does (or nothing), it still does after the round's request has reached it.
pub proof fn law_rapid_flag_tracks_driver(
    d: IrDriver,
    toggle: bool,
    rapid: Option<Command>,
    automatic: bool,
    off: bool,
    current: u32,
    target: u32,
)
    requires
        driver_fires(d, rapid),
    ensures
        ({
            let s = control_decision(rapid, automatic, off, current, target);
            driver_fires(driver_after(d, s.op, toggle), s.rapid_firing)
        }),
{
}

/// Within the dead band the controller sends nothing; otherwise a step or a
/// start always moves toward the target, and it starts continuous firing only
/// when nothing fires. In the far zone continuous firing never keeps going
/// away from the target: it goes toward it, or is stopped this round.
pub proof fn law_controller_direction(
    rapid: Option<Command>,
    automatic: bool,
    off: bool,
    current: u32,
    target: u32,
)
    ensures
        ({
            let s = control_decision(rapid, automatic, off, current, target);
            let e = control_error(current, target);
            &&& (automatic && !off && e == 0) ==> s.op is None
            &&& (s.op matches Some(ClientOp::Call(c)) ==> c == toward(current, target))
            &&& (s.op matches Some(ClientOp::Start(c)) ==> c == toward(current, target)
                && rapid is None)
            &&& (!automatic || off) ==> s.rapid_firing is None
            &&& (automatic && !off && abs(e) >= 8) ==> {
                &&& s.rapid_firing is None || s.rapid_firing == Some(toward(current, target))
                &&& (rapid matches Some(c) && c != toward(current, target)) ==> s.op == Some(
                    ClientOp::Stop,
                )
            }
        }),
{
}

/// In the far zone, two rounds on the same readings leave the blaster firing
/// continuously toward the target, whatever it fired before.
pub proof fn law_far_zone_reaches_direction(
    d: IrDriver,
    toggle1: bool,
    toggle2: bool,
    rapid: Option<Command>,
    current: u32,
    target: u32,
)
    requires
        driver_fires(d, rapid),
        abs(control_error(current, target)) >= 8,
    ensures
        ({
            let s1 = control_decision(rapid, true, false, current, target);
            let s2 = control_decision(s1.rapid_firing, true, false, current, target);
            let d2 = driver_after(driver_after(d, s1.op, toggle1), s2.op, toggle2);
            &&& s2.rapid_firing == Some(toward(current, target))
            &&& driver_fires(d2, Some(toward(current, target)))
        }),
{
    let s1 = control_decision(rapid, true, false, current, target);
    law_rapid_flag_tracks_driver(d, toggle1, rapid, true, false, current, target);
    law_rapid_flag_tracks_driver(
        driver_after(d, s1.op, toggle1),
        toggle2,
        s1.rapid_firing,
        true,
        false,
        current,
        target,
    );
}

// ---------------------------------------------------------------------------
// Volume state
// ---------------------------------------------------------------------------

/// The last volume read from the display, its change from the reading before,
/// and whether the display reads as off.
#[derive(Debug, Clone, Copy)]
pub struct VolumeState {
    pub volume: u32,
    pub delta: i32,
    pub is_off: bool,
    /// The last reading, once there has been one.
    pub last_volume: Option<u32>,
}

/// The change that a reading records after the last one: none for the first
/// reading, else the difference of the two taken as `i32`.
pub open spec fn reading_delta(last: Option<u32>, new_volume: u32) -> int {
    match last {
        None => 0,
        Some(l) => (new_volume as i32) as int - (l as i32) as int,
    }
}

impl VolumeState {
    /// Whether a reading can be recorded: its change from the last one fits an `i32`.
    pub open spec fn can_update(self, new_volume: u32) -> bool {
        i32::MIN <= reading_delta(self.last_volume, new_volume) <= i32::MAX
    }

    /// No reading yet: volume 0, no change, display off.
    pub fn new() -> (s: VolumeState)
        ensures
            s.volume == 0,
            s.delta == 0,
            s.is_off,
            s.last_volume is None,
    {
        VolumeState { volume: 0, delta: 0, is_off: true, last_volume: None }
    }

    /// Records a reading: the change from the last reading (both taken as
    /// `i32`) becomes the delta; the first reading records no change.
    pub fn update(&mut self, new_volume: u32)
        requires
            old(self).can_update(new_volume),
        ensures
            final(self).delta == reading_delta(old(self).last_volume, new_volume),
            final(self).volume == new_volume,
            final(self).last_volume == Some(new_volume),
            final(self).is_off == old(self).is_off,
    {
        self.delta = match self.last_volume {
            None => 0,
            Some(l) => (new_volume as i32) - (l as i32),
        };
        self.volume = new_volume;
        self.last_volume = Some(new_volume);
    }

    /// Applies one result of the volume fetcher: a reading turns the display on
    /// and is recorded, no reading marks it off and keeps the rest.
    pub fn apply_reading(&mut self, reading: Option<u32>)
        requires
            reading matches Some(v) ==> old(self).can_update(v),
        ensures
            match reading {
                Some(v) => {
                    &&& !final(self).is_off
                    &&& final(self).volume == v
                    &&& final(self).last_volume == Some(v)
                    &&& final(self).delta == reading_delta(old(self).last_volume, v)
                },
                None => {
                    &&& final(self).is_off
                    &&& final(self).volume == old(self).volume
                    &&& final(self).delta == old(self).delta
                    &&& final(self).last_volume == old(self).last_volume
                },
            },
    {
        match reading {
            Some(v) => {
                self.is_off = false;
                self.update(v);
            },
            None => {
                self.is_off = true;
            },
        }
    }

    /// Applies one outcome of the volume fetch and gives the mode afterwards:
    /// a failed fetch ends automatic mode and marks the display off, a fetch
    /// with no reading marks it off, a reading is recorded.
    pub fn apply_fetch(
        &mut self,
        fetched: Result<Option<u32>, String>,
        automatic: bool,
    ) -> (automatic_after: bool)
        requires
            fetched matches Ok(Some(v)) ==> old(self).can_update(v),
        ensures
            automatic_after == (automatic && fetched is Ok),
            match fetched {
                Ok(Some(v)) => {
                    &&& !final(self).is_off
                    &&& final(self).volume == v
                    &&& final(self).last_volume == Some(v)
                    &&& final(self).delta == reading_delta(old(self).last_volume, v)
                },
                _ => {
                    &&& final(self).is_off
                    &&& final(self).volume == old(self).volume
                    &&& final(self).delta == old(self).delta
                    &&& final(self).last_volume == old(self).last_volume
                },
            },
    {
        match fetched {
            Ok(reading) => {
                self.apply_reading(reading);
                automatic
            },
            Err(_) => {
                self.apply_reading(None);
                false
            },
        }
    }
}

/// The least time between the starts of two volume fetches, in nanoseconds.
pub const FETCH_INTERVAL_NS: u64 = 200_000_000;

/// How long the fetcher waits after a fetch that took `elapsed_ns`: the rest
/// of the interval, or nothing once it has passed.
pub fn fetch_pause_ns(elapsed_ns: u64) -> (p: u64)
    ensures
        p == if elapsed_ns < FETCH_INTERVAL_NS { FETCH_INTERVAL_NS - elapsed_ns } else { 0 },
        elapsed_ns + p >= FETCH_INTERVAL_NS,
{
    if elapsed_ns < FETCH_INTERVAL_NS {
        FETCH_INTERVAL_NS - elapsed_ns
    } else {
        0
    }
}

} // verus!
