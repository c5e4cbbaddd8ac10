use remodian::service::{
    capture_url, detect_answer, detect_url, detection_reply, displayed_volume, join_crop_pair, resolve_crop_pair, split_crop_pair,
    volume_from_text,
};

#[test]
fn volume_text() {
    assert_eq!(volume_from_text("42"), Some(42));
    assert_eq!(volume_from_text(" 42\n"), Some(42));
    assert_eq!(volume_from_text("0"), None);
    assert_eq!(volume_from_text("None"), None);
    assert_eq!(volume_from_text(""), None);
    assert_eq!(volume_from_text("4x"), None);
}

#[test]
fn vision_answer_reads_back() {
    assert_eq!(detect_answer(Some(37)), "37");
    assert_eq!(detect_answer(None), "None");
    for r in [Some(0), Some(1), Some(99), Some(u32::MAX), None] {
        assert_eq!(volume_from_text(&detect_answer(r)), displayed_volume(r));
    }
    assert_eq!(displayed_volume(Some(0)), None);
    assert_eq!(displayed_volume(Some(5)), Some(5));
}

#[test]
fn crop_pairs() {
    assert_eq!(
        split_crop_pair(" 1,2,3,4,5,6,7,8 + 9,9,9,9,9,9,9,9 "),
        Some(("1,2,3,4,5,6,7,8".to_string(), "9,9,9,9,9,9,9,9".to_string()))
    );
    assert_eq!(split_crop_pair("a"), None);
    assert_eq!(split_crop_pair("a+b+c"), None);
    assert_eq!(split_crop_pair("+"), Some((String::new(), String::new())));
    let joined = join_crop_pair("1,2", "3,4");
    assert_eq!(joined, "1,2+3,4");
    assert_eq!(split_crop_pair(&joined), Some(("1,2".to_string(), "3,4".to_string())));
}

#[test]
fn service_urls() {
    assert_eq!(
        detect_url("a", "b"),
        "http://192.168.1.235:3001/detect?index=2&crop1=a&crop2=b"
    );
    assert_eq!(capture_url("http://cam"), "http://cam/capture");
}

#[test]
fn crop_pair_defaults() {
    let d1 = Some("1,1,1,1,1,1,1,1".to_string());
    let d2 = Some("2,2,2,2,2,2,2,2".to_string());
    assert_eq!(
        resolve_crop_pair(Some("a".to_string()), None, &d1, &d2),
        Ok("a+2,2,2,2,2,2,2,2".to_string())
    );
    assert_eq!(
        resolve_crop_pair(None, None, &d1, &d2),
        Ok("1,1,1,1,1,1,1,1+2,2,2,2,2,2,2,2".to_string())
    );
    assert_eq!(
        resolve_crop_pair(Some("a".to_string()), Some("b".to_string()), &None, &None),
        Ok("a+b".to_string())
    );
    assert_eq!(
        resolve_crop_pair(None, None, &None, &None),
        Err("Missing `crop1` query param and DEFAULT_CROP1 env var is not set".to_string())
    );
    assert_eq!(
        resolve_crop_pair(Some("a".to_string()), None, &None, &None),
        Err("Missing `crop2` query param and DEFAULT_CROP2 env var is not set".to_string())
    );
}

#[test]
fn detection_replies() {
    assert_eq!(detection_reply(Ok(Some(42))), (200, "42".to_string()));
    assert_eq!(detection_reply(Ok(None)), (200, "None".to_string()));
    assert_eq!(
        detection_reply(Err("expected 8 values, got 2".to_string())),
        (400, "Detection error: expected 8 values, got 2".to_string())
    );
}
