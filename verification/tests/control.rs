use remodian::client::{ClientOp, Command};
use remodian::control::{control_step, f32_value, fetch_pause_ns, ControlStep, VolumeState};

#[test]
fn f32_value_matches_the_cast() {
    let samples: [u32; 14] = [
        0,
        1,
        100,
        16_777_215,
        16_777_216,
        16_777_217,
        16_777_218,
        16_777_219,
        33_554_435,
        123_456_789,
        2_147_483_647,
        2_147_483_648,
        4_294_967_040,
        u32::MAX,
    ];
    for v in samples {
        assert_eq!(f32_value(v), (v as f32) as u64, "{v}");
    }
}

fn step(rapid: Option<Command>, current: u32, target: u32) -> ControlStep {
    control_step(rapid, true, false, current, target)
}

const UP: Option<Command> = Some(Command::VolUp);
const DOWN: Option<Command> = Some(Command::VolDown);

#[test]
fn manual_mode_and_display_off_only_stop() {
    let s = control_step(UP, false, false, 10, 60);
    assert_eq!(s, ControlStep { op: Some(ClientOp::Stop), pause_ms: 100, rapid_firing: None });
    let s = control_step(None, false, false, 10, 60);
    assert_eq!(s, ControlStep { op: None, pause_ms: 100, rapid_firing: None });
    let s = control_step(DOWN, true, true, 10, 60);
    assert_eq!(s, ControlStep { op: Some(ClientOp::Stop), pause_ms: 100, rapid_firing: None });
}

#[test]
fn dead_band_holds() {
    assert_eq!(step(None, 40, 40), ControlStep { op: None, pause_ms: 100, rapid_firing: None });
    // rapid firing is not stopped inside the dead band
    assert_eq!(step(UP, 40, 40), ControlStep { op: None, pause_ms: 100, rapid_firing: UP });
}

#[test]
fn near_zones_step_once() {
    assert_eq!(
        step(None, 40, 43),
        ControlStep { op: Some(ClientOp::Call(Command::VolUp)), pause_ms: 800, rapid_firing: None }
    );
    assert_eq!(
        step(None, 40, 36),
        ControlStep { op: Some(ClientOp::Call(Command::VolDown)), pause_ms: 300, rapid_firing: None }
    );
    assert_eq!(
        step(None, 40, 47),
        ControlStep { op: Some(ClientOp::Call(Command::VolUp)), pause_ms: 300, rapid_firing: None }
    );
    // coming from rapid firing, the first round near the target stops it
    assert_eq!(step(UP, 40, 45), ControlStep { op: Some(ClientOp::Stop), pause_ms: 100, rapid_firing: None });
}

#[test]
fn far_zone_fires_continuously() {
    assert_eq!(
        step(None, 20, 60),
        ControlStep { op: Some(ClientOp::Start(Command::VolUp)), pause_ms: 100, rapid_firing: UP }
    );
    assert_eq!(
        step(None, 60, 52),
        ControlStep { op: Some(ClientOp::Start(Command::VolDown)), pause_ms: 100, rapid_firing: DOWN }
    );
    assert_eq!(step(UP, 20, 60), ControlStep { op: None, pause_ms: 100, rapid_firing: UP });
    assert_eq!(step(DOWN, 60, 20), ControlStep { op: None, pause_ms: 100, rapid_firing: DOWN });
}

#[test]
fn far_zone_turns_around() {
    // rapid up is running and the target is now far below: stop, then start down
    let s1 = step(UP, 60, 40);
    assert_eq!(s1, ControlStep { op: Some(ClientOp::Stop), pause_ms: 100, rapid_firing: None });
    let s2 = step(s1.rapid_firing, 60, 40);
    assert_eq!(
        s2,
        ControlStep { op: Some(ClientOp::Start(Command::VolDown)), pause_ms: 100, rapid_firing: DOWN }
    );
    let s1 = step(DOWN, 20, 60);
    assert_eq!(s1.op, Some(ClientOp::Stop));
    assert_eq!(step(s1.rapid_firing, 20, 60).op, Some(ClientOp::Start(Command::VolUp)));
}

#[test]
fn huge_values_compare_as_f32() {
    // 16777217 as f32 == 16777216.0: no error
    assert_eq!(step(None, 16_777_216, 16_777_217).op, None);
}

#[test]
fn volume_state_updates() {
    let mut s = VolumeState::new();
    assert!(s.is_off);
    assert_eq!((s.volume, s.delta, s.last_volume), (0, 0, None));
    // the first reading has nothing to compare with: no change
    s.apply_reading(Some(40));
    assert!(!s.is_off);
    assert_eq!((s.volume, s.delta, s.last_volume), (40, 0, Some(40)));
    s.apply_reading(Some(37));
    assert_eq!((s.volume, s.delta), (37, -3));
    s.apply_reading(None);
    assert!(s.is_off);
    assert_eq!((s.volume, s.delta), (37, -3));
    s.update(39);
    assert!(s.is_off);
    assert_eq!((s.volume, s.delta, s.last_volume), (39, 2, Some(39)));
}

#[test]
fn fetch_outcomes() {
    let mut s = VolumeState::new();
    assert!(s.apply_fetch(Ok(Some(30)), true));
    assert!(!s.is_off);
    assert_eq!((s.volume, s.delta), (30, 0));
    assert!(s.apply_fetch(Ok(Some(33)), true));
    assert_eq!((s.volume, s.delta), (33, 3));
    // no reading: off, mode kept
    assert!(s.apply_fetch(Ok(None), true));
    assert!(s.is_off);
    assert_eq!((s.volume, s.delta), (33, 3));
    // a failed fetch ends automatic mode and marks the display off
    let mut s2 = VolumeState::new();
    s2.apply_fetch(Ok(Some(20)), true);
    assert!(!s2.apply_fetch(Err("timeout".to_string()), true));
    assert!(s2.is_off);
    assert_eq!(s2.volume, 20);
    assert!(!s2.apply_fetch(Ok(Some(21)), false));
}

#[test]
fn fetches_are_paced() {
    assert_eq!(fetch_pause_ns(0), 200_000_000);
    assert_eq!(fetch_pause_ns(150_000_000), 50_000_000);
    assert_eq!(fetch_pause_ns(200_000_000), 0);
    assert_eq!(fetch_pause_ns(u64::MAX), 0);
}
