use remodian::vision::{
    cell_bounds, combine_digits, combine_digits_checked, compute_bbox, crop_to_bbox, detect_number_raw, input_filename,
    load_templates, output_filename, parse_points, relative_points, transform_text, upsample_template,
    decode_capture, read_regions, GrayscalePixelSource, RgbPixels,
};

#[test]
fn combine_digits_positional() {
    assert_eq!(combine_digits(&[Some(3), Some(7)]), Some(37));
    assert_eq!(combine_digits(&[]), Some(0));
    assert_eq!(combine_digits(&[Some(0), Some(5)]), Some(5));
    assert_eq!(combine_digits(&[Some(3), None]), None);
    assert_eq!(combine_digits(&[None, Some(3)]), None);
    assert_eq!(combine_digits(&[Some(4), Some(2), Some(9), Some(4), Some(9), Some(6), Some(7), Some(2), Some(9), Some(5)]), Some(4294967295));
}

#[test]
fn templates_upsample_two_by_two() {
    let mut src = [0u8; 35];
    src[0] = 255; // top-left
    src[34] = 1; // bottom-right
    src[7] = 255; // row 1, col 2
    let t = upsample_template(&src);
    for r in 0..14 {
        for c in 0..10 {
            let expect = src[(r / 2) * 5 + c / 2] != 0;
            assert_eq!(t[r * 10 + c], expect, "({r},{c})");
        }
    }
    assert!(t[0] && t[1] && t[10] && t[11]);
    assert!(t[139] && t[138] && t[129] && t[128]);
    assert!(t[2 * 10 + 4] && t[3 * 10 + 5]);
    let mut sources = [[0u8; 35]; 10];
    sources[8] = src;
    let all = load_templates(&sources);
    assert_eq!(all[8], t);
    assert_eq!(all[0], [false; 140]);
}

#[test]
fn template_text_conversion() {
    let text = "10001\n01110\n00000\n11111\n10101\n01010\n00100\n";
    let cells = transform_text(text);
    let expect: Vec<u8> = text
        .replace('\n', "")
        .chars()
        .map(|c| if c == '1' { 255 } else { 0 })
        .collect();
    assert_eq!(cells.to_vec(), expect);
    let short = transform_text("11\n1");
    assert_eq!(&short[..4], &[255, 255, 255, 0]);
    assert!(short[3..].iter().all(|&v| v == 0));
    // characters after the first 35 are not looked at
    let long = format!("{}x", "0".repeat(35));
    assert_eq!(transform_text(&long), [0u8; 35]);
}

#[test]
fn template_file_names() {
    assert_eq!(input_filename(7), "data/20_bin/p7.txt.bin");
    assert_eq!(output_filename(0), "templates/0.bin");
    assert_eq!(output_filename(255), "templates/255.bin");
}

#[test]
fn bounding_box() {
    assert_eq!(compute_bbox(&[(10, 5), (120, 2), (125, 135), (5, 130)]), (5, 2, 125, 135));
    assert_eq!(compute_bbox(&[(0, 0), (127, 0), (127, 127), (0, 127)]), (0, 0, 127, 127));
    assert_eq!(compute_bbox(&[(3, 3), (3, 3), (3, 3), (3, 3)]), (3, 3, 3, 3));
}

#[test]
fn crop_inside_and_past_the_edge() {
    // 4x3 image with value = 10*y + x
    let img: Vec<u32> = (0..3).flat_map(|y| (0..4).map(move |x| 10 * y + x)).collect();
    let (c, w, h, origin) = crop_to_bbox(&img, 4, 3, (1, 1, 2, 2), 99);
    assert_eq!((w, h, origin), (2, 2, (1, 1)));
    assert_eq!(c, vec![11, 12, 21, 22]);
    let (c, w, h, _) = crop_to_bbox(&img, 4, 3, (2, 1, 4, 3), 99);
    assert_eq!((w, h), (3, 3));
    assert_eq!(c, vec![12, 13, 99, 22, 23, 99, 99, 99, 99]);
}

#[test]
fn points_relative_to_origin() {
    let pts = [(10, 5), (120, 2), (125, 135), (5, 130)];
    assert_eq!(relative_points(pts, (5, 2)), [(5, 3), (115, 0), (120, 133), (0, 128)]);
}

#[test]
fn grayscale_pixels() {
    let data = [0u8, 10, 20, 30, 40, 50];
    let src = GrayscalePixelSource { data: &data, width: 3, height: 2 };
    assert_eq!(src.pixel_level(0, 0), 0);
    assert_eq!(src.pixel_level(2, 0), 20);
    assert_eq!(src.pixel_level(1, 1), 40);
    assert_eq!(src.pixel_level(3, 0), 0);
    assert_eq!(src.pixel_level(0, 2), 0);
    assert_eq!((src.width(), src.height()), (3, 2));
}

#[test]
fn detection_reads_each_region() {
    let data = vec![0u8; 16];
    // the digit of a region is its top-left x coordinate
    let read = |_s: &GrayscalePixelSource, p: [(u32, u32); 4]| Some(p[0].0 as u8);
    let r = detect_number_raw(&data, 4, 4, "3,0,3,0,3,0,3,0+7,1,1,1,1,1,1,1", read);
    assert_eq!(r, Ok(Some(37)));
    let blank = |_s: &GrayscalePixelSource, p: [(u32, u32); 4]| if p[0].0 == 0 { None } else { Some(1) };
    assert_eq!(detect_number_raw(&data, 4, 4, "1,0,0,0,0,0,0,0+0,0,0,0,0,0,0,0", blank), Ok(None));
    assert_eq!(
        detect_number_raw(&data, 4, 4, "1,2,3", read),
        Err("expected 8 values, got 3".to_string())
    );
    let pixel = |s: &GrayscalePixelSource, p: [(u32, u32); 4]| Some(s.pixel_level(p[0].0, p[0].1) % 10);
    let data2: Vec<u8> = (0..16).collect();
    assert_eq!(detect_number_raw(&data2, 4, 4, "1,1,0,0,0,0,0,0+2,0,0,0,0,0,0,0", pixel), Ok(Some(52)));
}

#[test]
fn cells_of_the_sample() {
    assert_eq!(cell_bounds(0, 0, 10, 14), (0, 12, 0, 9));
    assert_eq!(cell_bounds(9, 13, 10, 14), (115, 128, 118, 128));
    assert_eq!(cell_bounds(4, 6, 5, 7), (102, 128, 109, 128));
}

#[test]
fn corner_point_arguments() {
    let args: Vec<String> = ["0", "0", "127", "0", "127", "127", "0", "127"].iter().map(|s| s.to_string()).collect();
    assert_eq!(parse_points(&args), Ok([(0, 0), (127, 0), (127, 127), (0, 127)]));
    let bad: Vec<String> = ["1", "2", "3", "x", "5", "y", "7", "8"].iter().map(|s| s.to_string()).collect();
    assert_eq!(parse_points(&bad), Err(3));
    let big: Vec<String> = ["1", "2", "3", "4", "5", "6", "7", "999999999999"].iter().map(|s| s.to_string()).collect();
    assert_eq!(parse_points(&big), Err(7));
}

#[test]
fn combine_digits_checked_follows_u32_arithmetic() {
    let max = [Some(4), Some(2), Some(9), Some(4), Some(9), Some(6), Some(7), Some(2), Some(9), Some(5)];
    assert_eq!(combine_digits_checked(&max), Some(Some(4294967295)));
    assert_eq!(combine_digits_checked(&[Some(3), None, Some(1)]), Some(None));
    assert_eq!(combine_digits_checked(&[]), Some(Some(0)));
    // 4294967296 does not fit
    let over = [Some(4), Some(2), Some(9), Some(4), Some(9), Some(6), Some(7), Some(2), Some(9), Some(6)];
    assert_eq!(combine_digits_checked(&over), None);
    // the multiplication by ten overflows before the empty reading is seen
    let mut then_empty = max.to_vec();
    then_empty.push(None);
    assert_eq!(combine_digits_checked(&then_empty), None);
    // an empty reading before the overflow stops the combination
    assert_eq!(combine_digits_checked(&[None, Some(9), Some(9), Some(9), Some(9), Some(9), Some(9), Some(9), Some(9), Some(9), Some(9), Some(9)]), Some(None));
}

#[test]
fn combine_of_concatenation() {
    let a = [Some(1), Some(2)];
    let b = [Some(0), Some(3), Some(4)];
    let ab = [a.to_vec(), b.to_vec()].concat();
    assert_eq!(
        combine_digits(&ab),
        Some(combine_digits(&a).unwrap() * 10u32.pow(b.len() as u32) + combine_digits(&b).unwrap())
    );
    assert_eq!(combine_digits(&ab), Some(12034));
}

#[test]
fn read_regions_in_order() {
    let px = vec![0u8; 4];
    let src = GrayscalePixelSource { data: &px, width: 2, height: 2 };
    let ds = read_regions(&src, "1,1,1,1,1,1,1,1+2,2,2,2,2,2,2,2+3,3,3,3,3,3,3,3", |_s: &GrayscalePixelSource, p: [(u32, u32); 4]| {
        if p[0].0 == 2 { None } else { Some(p[0].0 as u8) }
    });
    assert_eq!(ds, Ok(vec![Some(1), None, Some(3)]));
    assert_eq!(
        read_regions(&src, "1,2", |_s: &GrayscalePixelSource, _p: [(u32, u32); 4]| Some(0)),
        Err("expected 8 values, got 2".to_string())
    );
}

#[test]
fn crop_reaching_the_last_coordinate() {
    let img: Vec<u8> = (0..12).collect();
    let (c, w, h, origin) = crop_to_bbox(&img, 4, 3, (u32::MAX - 1, u32::MAX - 2, u32::MAX, u32::MAX), 99);
    assert_eq!((w, h, origin), (2, 3, (u32::MAX - 1, u32::MAX - 2)));
    assert_eq!(c, vec![99; 6]);
}

fn png_bytes(w: u32, h: u32, data: Vec<u8>) -> Vec<u8> {
    let img = image::RgbImage::from_raw(w, h, data).unwrap();
    let mut out = std::io::Cursor::new(Vec::new());
    img.write_to(&mut out, image::ImageFormat::Png).unwrap();
    out.into_inner()
}

#[test]
fn captures_decode_to_rgb() {
    let raw = vec![10, 20, 30, 40, 50, 60, 70, 80, 90, 100, 110, 120];
    let bytes = png_bytes(2, 2, raw.clone());
    let p = decode_capture(&bytes).unwrap();
    assert_eq!(p, RgbPixels { width: 2, height: 2, data: raw });
    assert_eq!(p.pixel(1, 0), (40, 50, 60));
    assert_eq!(p.pixel(0, 1), (70, 80, 90));
    assert_eq!(p.pixel(2, 0), (0, 0, 0));
    assert!(decode_capture(b"not an image").is_err());
    assert!(decode_capture(&[]).is_err());
}
