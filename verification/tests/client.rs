use remodian::client::{base_url, ir_url, mqtt_payload, ClientOp, Command};

#[test]
fn command_codes() {
    assert_eq!(Command::VolUp.code(), 0x10);
    assert_eq!(Command::VolDown.code(), 0x11);
    assert_eq!(Command::CdOn.code(), 0x6B);
    assert_eq!(Command::Off.code(), 0xC);
    assert_eq!(Command::Mute.code(), 0x0D);
}

#[test]
fn wire_fields_of_ops() {
    assert_eq!(ClientOp::Call(Command::VolUp).wire_fields(true), (0x10, true, 1));
    assert_eq!(ClientOp::Start(Command::VolDown).wire_fields(false), (0x11, false, 2));
    assert_eq!(ClientOp::Stop.wire_fields(true), (0, false, 3));
}

#[test]
fn mqtt_payloads() {
    assert_eq!(mqtt_payload(ClientOp::Call(Command::VolUp), true), "19,16,1,1");
    assert_eq!(mqtt_payload(ClientOp::Start(Command::CdOn), false), "19,107,0,2");
    assert_eq!(mqtt_payload(ClientOp::Stop, true), "0,0,0,3");
}

#[test]
fn http_urls() {
    assert_eq!(base_url("http://10.0.0.5//"), "http://10.0.0.5");
    assert_eq!(base_url("http://10.0.0.5"), "http://10.0.0.5");
    assert_eq!(base_url("///"), "");
    assert_eq!(
        ir_url("http://10.0.0.5", 17, true, 2),
        "http://10.0.0.5/ir?address=19&command=17&toggle=1&signal=2"
    );
    assert_eq!(
        ir_url("http://x", 0, false, 3),
        "http://x/ir?address=19&command=0&toggle=0&signal=3"
    );
}
