use remodian::crops::{deserialize_crops, serialize_crops};

#[test]
fn serialize_two_regions() {
    let regions = [
        [(1, 2), (3, 4), (5, 6), (7, 8)],
        [(10, 20), (30, 40), (50, 60), (70, 80)],
    ];
    assert_eq!(serialize_crops(&regions), "1,2,3,4,5,6,7,8+10,20,30,40,50,60,70,80");
}

#[test]
fn serialize_no_regions_is_empty() {
    assert_eq!(serialize_crops(&[]), "");
}

#[test]
fn deserialize_reads_back_serialized() {
    let regions = vec![
        [(0, 0), (127, 0), (127, 127), (0, 127)],
        [(4294967295, 1), (2, 3), (4, 5), (6, 7)],
    ];
    let text = serialize_crops(&regions);
    assert_eq!(deserialize_crops(&text), Ok(regions));
}

#[test]
fn deserialize_trims_and_skips_blank_regions() {
    let r = deserialize_crops(" 1 , 2,3,4,5,6,7, 8 + \t +9,9,9,9,9,9,9,9\n");
    assert_eq!(
        r,
        Ok(vec![[(1, 2), (3, 4), (5, 6), (7, 8)], [(9, 9), (9, 9), (9, 9), (9, 9)]])
    );
    assert_eq!(deserialize_crops(""), Ok(vec![]));
    assert_eq!(deserialize_crops("  + "), Ok(vec![]));
}

#[test]
fn deserialize_wrong_count() {
    assert_eq!(
        deserialize_crops("1,2,3"),
        Err("expected 8 values, got 3".to_string())
    );
    assert_eq!(
        deserialize_crops("1,2,3,4,5,6,7,8,9,10"),
        Err("expected 8 values, got 10".to_string())
    );
}

#[test]
fn deserialize_bad_numbers() {
    assert_eq!(
        deserialize_crops("1,2,,4,5,6,7,8"),
        Err("cannot parse integer from empty string".to_string())
    );
    assert_eq!(
        deserialize_crops("1,x,3,4,5,6,7,8"),
        Err("invalid digit found in string".to_string())
    );
    assert_eq!(
        deserialize_crops("1,2,3,4,5,6,7,4294967296"),
        Err("number too large to fit in target type".to_string())
    );
    assert_eq!(
        deserialize_crops("-1,2,3,4,5,6,7,8"),
        Err("invalid digit found in string".to_string())
    );
}

#[test]
fn deserialize_first_error_wins() {
    // the bad number in the first region is reported before the second region's count
    assert_eq!(
        deserialize_crops("1,2,3,4,5,6,7,y+1,2"),
        Err("invalid digit found in string".to_string())
    );
    // within a region, a bad number is reported before the count
    assert_eq!(
        deserialize_crops("1,z"),
        Err("invalid digit found in string".to_string())
    );
}

#[test]
fn error_messages_match_std() {
    // `+` separates regions, so the fields here hold none
    for s in ["", "-", "x", "12a", "4294967296", "99999999999a", "-0", "007", " 5 "] {
        let ours = deserialize_crops(&format!("{s},0,0,0,0,0,0,0"));
        let theirs = s.trim().parse::<u32>();
        match theirs {
            Ok(v) => assert_eq!(ours, Ok(vec![[(v, 0), (0, 0), (0, 0), (0, 0)]])),
            Err(e) => assert_eq!(ours, Err(e.to_string())),
        }
    }
}

#[test]
fn canonical_text_reads_and_writes_back() {
    for s in ["", "0,0,0,0,0,0,0,0", "1,2,3,4,5,6,7,8+10,20,30,40,50,60,70,4294967295"] {
        let v = deserialize_crops(s).unwrap();
        assert_eq!(serialize_crops(&v), s);
    }
}
