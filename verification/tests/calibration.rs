use remodian::calibration::{capture_index_url, cameras_url, select_camera, HttpSource, SourceMode};

#[test]
fn camera_selection_after_refresh() {
    let cams = vec![(2, "front".to_string()), (5, "side".to_string())];
    assert_eq!(select_camera(&cams, 5), 5);
    assert_eq!(select_camera(&cams, 7), 2);
    assert_eq!(select_camera(&[], 7), 0);
    assert!(SourceMode::File != SourceMode::Http);
}

#[test]
fn vision_server_urls() {
    assert_eq!(cameras_url("http://host:3001//"), "http://host:3001/cameras");
    assert_eq!(cameras_url("http://host:3001"), "http://host:3001/cameras");
    assert_eq!(capture_index_url("http://host/", 12), "http://host/capture?index=12");
    assert_eq!(capture_index_url("http://host", 0), "http://host/capture?index=0");
}

#[test]
fn http_source_status_and_cameras() {
    let mut h = HttpSource::new();
    h.base_url = "http://host:3001/".to_string();
    assert_eq!(h.fetch_cameras(), "http://host:3001/cameras");
    assert_eq!(h.status, "Fetching cameras…");
    h.on_cameras(Err("connection refused".to_string()));
    assert_eq!(h.status, "Error: connection refused");
    assert_eq!(h.camera_index, 0);
    h.on_cameras(Ok(vec![(3, "a".to_string()), (4, "b".to_string())]));
    assert_eq!(h.status, "");
    assert_eq!(h.camera_index, 3);
    assert_eq!(h.cameras.len(), 2);
    h.camera_index = 4;
    h.on_cameras(Ok(vec![(4, "b".to_string())]));
    assert_eq!(h.camera_index, 4);
    assert_eq!(h.fetch_capture(), "http://host:3001/capture?index=4");
    assert_eq!(h.status, "Capturing…");
    h.on_capture();
    assert_eq!(h.status, "");
}
