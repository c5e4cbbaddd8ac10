//! The integer side of the digit reader: digit templates, the bounding box and
//! crop of a display region, grayscale pixel access, and the combination of
//! the digits that each crop region shows into one number.
use vstd::prelude::*;
use vstd::arithmetic::power::pow;
use crate::crops::{crops_of_text, deserialize_crops, points_of, regions_match};
use crate::text::{chars_of, dec, parse_u32, parse_u32_chars, push_dec, string_from, ParseErrorKind};
use crate::client::append;

verus! {

// ---------------------------------------------------------------------------
// Combining digits
// ---------------------------------------------------------------------------

/// Positional decimal value of the readings, or `None` if any reading is empty.
pub open spec fn combine(ds: Seq<Option<u8>>) -> Option<int>
    decreases ds.len(),
{
    if ds.len() == 0 {
        Some(0)
    } else {
        match combine(ds.drop_last()) {
            None => None,
            Some(a) => match ds.last() {
                None => None,
                Some(d) => Some(a * 10 + d),
            },
        }
    }
}

/// The combination as `u32` arithmetic does it, digit by digit: `None` when a
/// step overflows (the multiplication by ten is done before the next reading is
/// looked at), else `Some` of the positional value, `Some(None)` once a reading
/// is empty.
pub open spec fn combine_checked(ds: Seq<Option<u8>>) -> Option<Option<int>>
    decreases ds.len(),
{
    if ds.len() == 0 {
        Some(Some(0))
    } else {
        match combine_checked(ds.drop_last()) {
            None => None,
            Some(None) => Some(None),
            Some(Some(a)) => if a * 10 > u32::MAX {
                None
            } else {
                match ds.last() {
                    None => Some(None),
                    Some(d) => if a * 10 + d > u32::MAX {
                        None
                    } else {
                        Some(Some(a * 10 + d))
                    },
                }
            },
        }
    }
}

/// The checked combination agrees with the positional value whenever it does
/// not overflow, and it never overflows for at most nine decimal digits.
pub proof fn law_combine_checked(ds: Seq<Option<u8>>)
    ensures
        combine_checked(ds) matches Some(x) ==> x == combine(ds),
        combine_checked(ds) matches Some(Some(v)) ==> 0 <= v <= u32::MAX,
        ds.len() <= 9 && (forall|i: int| 0 <= i < ds.len() ==> (#[trigger] ds[i] matches Some(d)
            ==> d <= 9)) ==> combine_checked(ds) is Some,
    decreases ds.len(),
{
    if ds.len() > 0 {
        law_combine_checked(ds.drop_last());
    }
    if ds.len() <= 9 && (forall|i: int| 0 <= i < ds.len() ==> (#[trigger] ds[i] matches Some(d)
        ==> d <= 9)) {
        lemma_combine_digits_bound(ds);
    }
}

proof fn lemma_combine_digits_bound(ds: Seq<Option<u8>>)
    requires
        ds.len() <= 9,
        forall|i: int| 0 <= i < ds.len() ==> (#[trigger] ds[i] matches Some(d) ==> d <= 9),
    ensures
        combine_checked(ds) is Some,
        combine_checked(ds) matches Some(Some(v)) ==> v < pow(10, ds.len()),
    decreases ds.len(),
{
    reveal(pow);
    if ds.len() > 0 {
        let d0 = ds.drop_last();
        assert forall|i: int| 0 <= i < d0.len() implies (#[trigger] d0[i] matches Some(d) ==> d
            <= 9) by {
            assert(d0[i] == ds[i]);
        }
        lemma_combine_digits_bound(d0);
        vstd::arithmetic::power::lemma_pow_increases(10, d0.len(), 8);
        assert(pow(10, 8) == 100_000_000) by {
            reveal_with_fuel(pow, 9);
        }
        assert(pow(10, ds.len()) == 10 * pow(10, d0.len()));
        if let Some(Some(a)) = combine_checked(d0) {
            assert(ds[ds.len() - 1] == ds.last());
            let p = pow(10, d0.len());
            assert(a * 10 <= p * 10 - 10) by (nonlinear_arith)
                requires
                    a < p,
            ;
        }
    }
}

/// Positional value of single readings: an empty sequence is 0, one digit is
/// itself, and an empty reading gives no number.
pub proof fn law_combine_single(d: u8)
    ensures
        combine(Seq::<Option<u8>>::empty()) == Some(0int),
        combine(seq![Some(d)]) == Some(d as int),
        combine(seq![None::<u8>]) is None,
{
    assert(seq![Some(d)].drop_last() =~= Seq::<Option<u8>>::empty());
    assert(seq![None::<u8>].drop_last() =~= Seq::<Option<u8>>::empty());
}

/// The readings give no number exactly when one of them is empty.
pub proof fn law_combine_none(ds: Seq<Option<u8>>)
    ensures
        combine(ds) is None <==> exists|i: int| 0 <= i < ds.len() && #[trigger] ds[i] is None,
    decreases ds.len(),
{
    if ds.len() > 0 {
        let d0 = ds.drop_last();
        law_combine_none(d0);
        assert forall|i: int| 0 <= i < d0.len() implies #[trigger] d0[i] == ds[i] by {}
        assert(ds[ds.len() - 1] == ds.last());
        if combine(ds) is None {
            if combine(d0) is None {
                let i = choose|i: int| 0 <= i < d0.len() && #[trigger] d0[i] is None;
                assert(ds[i] is None);
            }
        } else {
            assert forall|i: int| 0 <= i < ds.len() implies !(#[trigger] ds[i] is None) by {
                if i < d0.len() {
                    assert(d0[i] == ds[i]);
                }
            }
        }
    }
}

/// The value of a concatenation of readings: the left part's value shifted by
/// as many decimal places as the right part has readings, plus the right
/// part's value; empty if either part has an empty reading.
pub proof fn law_combine_concat(a: Seq<Option<u8>>, b: Seq<Option<u8>>)
    ensures
        combine(a + b) == (match (combine(a), combine(b)) {
            (Some(x), Some(y)) => Some(x * pow(10, b.len()) + y),
            _ => None,
        }),
    decreases b.len(),
{
    reveal(pow);
    if b.len() == 0 {
        assert(a + b =~= a);
        assert(combine(b) == Some(0int));
        if let Some(x) = combine(a) {
            assert(pow(10, b.len()) == 1);
            assert(x * 1 + 0 == x);
        }
    } else {
        let b0 = b.drop_last();
        assert((a + b).drop_last() =~= a + b0);
        assert((a + b).last() == b.last());
        law_combine_concat(a, b0);
        match (combine(a), combine(b0), b.last()) {
            (Some(x), Some(y), Some(d)) => {
                let p = pow(10, b0.len());
                assert(pow(10, b.len()) == 10 * p);
                assert((x * p + y) * 10 + d == x * (10 * p) + (y * 10 + d)) by (nonlinear_arith);
                assert(combine(a + b) == Some((x * p + y) * 10 + d));
                assert(combine(b) == Some(y * 10 + d));
            },
            (Some(x), Some(y), None) => {
                assert(combine(b) is None);
                assert(combine(a + b) is None);
            },
            (_, None, _) => {
                assert(combine(b) is None);
                assert(combine(a + b) is None);
            },
            (None, Some(y), _) => {
                assert(combine(a + b0) is None);
                assert(combine(a + b) is None);
            },
        }
    }
}

/// Combines the readings with the arithmetic's checks: `None` when a step
/// overflows a `u32`, `Some(None)` when a reading is empty, else the number.
pub fn combine_digits_checked(digits: &[Option<u8>]) -> (r: Option<Option<u32>>)
    ensures
        match combine_checked(digits@) {
            None => r is None,
            Some(None) => r == Some(None::<u32>),
            Some(Some(v)) => r == Some(Some(v as u32)),
        },
{
    let mut acc: u32 = 0;
    let mut i: usize = 0;
    while i < digits.len()
        invariant
            i <= digits.len(),
            combine_checked(digits@.take(i as int)) == Some(Some(acc as int)),
        decreases digits.len() - i,
    {
        assert(digits@.take(i as int + 1).drop_last() =~= digits@.take(i as int));
        if acc > 429_496_729 {
            proof {
                lemma_checked_stops(digits@, i as int + 1);
            }
            return None;
        }
        let shifted: u32 = acc * 10;
        match digits[i] {
            None => {
                proof {
                    lemma_checked_stops(digits@, i as int + 1);
                }
                return Some(None);
            },
            Some(d) => {
                if shifted > u32::MAX - d as u32 {
                    proof {
                        lemma_checked_stops(digits@, i as int + 1);
                    }
                    return None;
                }
                acc = shifted + d as u32;
            },
        }
        i = i + 1;
    }
    assert(digits@.take(digits.len() as int) =~= digits@);
    Some(Some(acc))
}

proof fn lemma_checked_stops(ds: Seq<Option<u8>>, k: int)
    requires
        0 <= k <= ds.len(),
        !(combine_checked(ds.take(k)) matches Some(Some(_))),
    ensures
        combine_checked(ds) == combine_checked(ds.take(k)),
    decreases ds.len() - k,
{
    if k < ds.len() {
        assert(ds.take(k + 1).drop_last() =~= ds.take(k));
        lemma_checked_stops(ds, k + 1);
    } else {
        assert(ds.take(k) =~= ds);
    }
}

/// Combine multiple digit readings into a single number (positional decimal).
/// Returns `None` if any digit reading is `None` (empty display).
/// Example: `[Some(3), Some(7)]` gives `Some(37)`.
pub fn combine_digits(digits: &[Option<u8>]) -> (r: Option<u32>)
    requires
        combine_checked(digits@) is Some,
    ensures
        match combine(digits@) {
            None => r is None,
            Some(v) => r == Some(v as u32) && v <= u32::MAX,
        },
{
    proof {
        law_combine_checked(digits@);
    }
    match combine_digits_checked(digits) {
        Some(r) => r,
        None => None,
    }
}

// ---------------------------------------------------------------------------
// Templates
// ---------------------------------------------------------------------------

/// The 5×7 source cell that cell `j` of a 10×14 template comes from.
pub open spec fn source_cell(j: int) -> int {
    ((j / 10) / 2) * 5 + (j % 10) / 2
}

/// Upsamples one 5×7 template (non-zero for lit) to 10×14 by 2× nearest neighbour:
/// each source cell becomes a 2×2 block.
pub fn upsample_template(bytes: &[u8; 35]) -> (t: [bool; 140])
    ensures
        forall|j: int| 0 <= j < 140 ==> #[trigger] t@[j] == (bytes@[source_cell(j)] != 0),
{
    let mut t = [false; 140];
    let mut cy: usize = 0;
    while cy < 7
        invariant
            cy <= 7,
            forall|j: int| 0 <= j < 140 && (j / 10) / 2 < cy ==> #[trigger] t@[j] == (bytes@[source_cell(j)] != 0),
        decreases 7 - cy,
    {
        let mut cx: usize = 0;
        while cx < 5
            invariant
                cy < 7,
                cx <= 5,
                forall|j: int|
                    0 <= j < 140 && ((j / 10) / 2 < cy || ((j / 10) / 2 == cy && (j % 10) / 2
                        < cx)) ==> #[trigger] t@[j] == (bytes@[source_cell(j)] != 0),
            decreases 5 - cx,
        {
            let val = bytes[cy * 5 + cx] != 0;
            let dy = cy * 2;
            let dx = cx * 2;
            t[dy * 10 + dx] = val;
            t[dy * 10 + dx + 1] = val;
            t[(dy + 1) * 10 + dx] = val;
            t[(dy + 1) * 10 + dx + 1] = val;
            cx = cx + 1;
        }
        cy = cy + 1;
    }
    t
}

/// Load templates, upsampling each 5×7 source to 10×14 by 2× nearest-neighbor.
/// Each source cell maps to a 2×2 block of new cells.
pub fn load_templates(sources: &[[u8; 35]; 10]) -> (t: [[bool; 140]; 10])
    ensures
        forall|i: int, j: int|
            0 <= i < 10 && 0 <= j < 140 ==> #[trigger] t@[i]@[j] == (sources@[i]@[source_cell(j)]
                != 0),
{
    let mut t = [[false; 140]; 10];
    let mut i: usize = 0;
    while i < 10
        invariant
            i <= 10,
            forall|k: int, j: int|
                0 <= k < i && 0 <= j < 140 ==> #[trigger] t@[k]@[j] == (
                sources@[k]@[source_cell(j)] != 0),
        decreases 10 - i,
    {
        let row = upsample_template(&sources[i]);
        t[i] = row;
        i = i + 1;
    }
    t
}

/// The template text with its line breaks removed.
pub open spec fn strip_newlines(s: Seq<char>) -> Seq<char>
    decreases s.len(),
{
    if s.len() == 0 {
        s
    } else if s.last() == '\n' {
        strip_newlines(s.drop_last())
    } else {
        strip_newlines(s.drop_last()).push(s.last())
    }
}

/// Converts a template text of `0`s and `1`s (line breaks ignored) to its first
/// 35 cells: 255 for `1`, 0 for `0`; missing cells are 0. Any other character
/// among the first 35 is refused (the converter stops there).
pub fn transform_text(input: &str) -> (cells: [u8; 35])
    requires
        forall|i: int|
            0 <= i < 35 && i < strip_newlines(input@).len() ==> (#[trigger] strip_newlines(
                input@,
            )[i] == '0' || strip_newlines(input@)[i] == '1'),
    ensures
        forall|i: int|
            0 <= i < 35 ==> #[trigger] cells@[i] == if i < strip_newlines(input@).len() {
                if strip_newlines(input@)[i] == '1' {
                    255u8
                } else {
                    0u8
                }
            } else {
                0u8
            },
{
    let v = chars_of(input);
    let mut kept: Vec<char> = Vec::new();
    let mut i: usize = 0;
    while i < v.len()
        invariant
            i <= v.len(),
            kept@ == strip_newlines(v@.take(i as int)),
        decreases v.len() - i,
    {
        assert(v@.take(i as int + 1).drop_last() =~= v@.take(i as int));
        if v[i] != '\n' {
            kept.push(v[i]);
        }
        i = i + 1;
    }
    assert(v@.take(v.len() as int) =~= v@);
    let mut cells = [0u8; 35];
    let mut k: usize = 0;
    while k < 35 && k < kept.len()
        invariant
            k <= 35,
            k <= kept@.len(),
            kept@ == strip_newlines(input@),
            forall|i: int|
                0 <= i < 35 && i < kept@.len() ==> (#[trigger] kept@[i] == '0' || kept@[i] == '1'),
            forall|i: int| 0 <= i < k ==> #[trigger] cells@[i] == if kept@[i] == '1' { 255u8 } else { 0u8 },
            forall|i: int| k <= i < 35 ==> #[trigger] cells@[i] == 0u8,
        decreases 35 - k,
    {
        if kept[k] == '1' {
            cells[k] = 255;
        } else {
            cells[k] = 0;
        }
        k = k + 1;
    }
    cells
}

/// The template source file of a digit: `data/20_bin/p{i}.txt.bin`.
pub fn input_filename(i: u8) -> (name: String)
    ensures
        name@ == "data/20_bin/p"@ + dec(i as nat) + ".txt.bin"@,
{
    let mut s = string_from("data/20_bin/p");
    push_dec(&mut s, i as u64);
    append(&mut s, ".txt.bin");
    s
}

/// The converted template file of a digit: `templates/{i}.bin`.
pub fn output_filename(i: u8) -> (name: String)
    ensures
        name@ == "templates/"@ + dec(i as nat) + ".bin"@,
{
    let mut s = string_from("templates/");
    push_dec(&mut s, i as u64);
    append(&mut s, ".bin");
    s
}

// ---------------------------------------------------------------------------
// Regions of the image
// ---------------------------------------------------------------------------

pub open spec fn min4(a: u32, b: u32, c: u32, d: u32) -> u32 {
    let ab = if a <= b { a } else { b };
    let cd = if c <= d { c } else { d };
    if ab <= cd { ab } else { cd }
}

pub open spec fn max4(a: u32, b: u32, c: u32, d: u32) -> u32 {
    let ab = if a >= b { a } else { b };
    let cd = if c >= d { c } else { d };
    if ab >= cd { ab } else { cd }
}

/// `b` is the least box that holds the four points: each point lies inside
/// it, and each of its four sides passes through one of them.
pub open spec fn bbox_least(points: [(u32, u32); 4], b: (u32, u32, u32, u32)) -> bool {
    &&& forall|i: int|
        0 <= i < 4 ==> b.0 <= #[trigger] points@[i].0 <= b.2 && b.1 <= points@[i].1 <= b.3
    &&& exists|i: int| 0 <= i < 4 && #[trigger] points@[i].0 == b.0
    &&& exists|i: int| 0 <= i < 4 && #[trigger] points@[i].1 == b.1
    &&& exists|i: int| 0 <= i < 4 && #[trigger] points@[i].0 == b.2
    &&& exists|i: int| 0 <= i < 4 && #[trigger] points@[i].1 == b.3
}

/// The box of the minima and maxima of the coordinates is the least box that
/// holds all four points.
pub proof fn law_bbox_least(points: [(u32, u32); 4])
    ensures
        bbox_least(
            points,
            (
                min4(points@[0].0, points@[1].0, points@[2].0, points@[3].0),
                min4(points@[0].1, points@[1].1, points@[2].1, points@[3].1),
                max4(points@[0].0, points@[1].0, points@[2].0, points@[3].0),
                max4(points@[0].1, points@[1].1, points@[2].1, points@[3].1),
            ),
        ),
{
    let p = points@;
    assert(p[0] == p[0] && p[1] == p[1] && p[2] == p[2] && p[3] == p[3]);
}

/// The axis-aligned bounding box `(min_x, min_y, max_x, max_y)` of four points.
pub fn compute_bbox(points: &[(u32, u32); 4]) -> (b: (u32, u32, u32, u32))
    ensures
        b.0 == min4(points@[0].0, points@[1].0, points@[2].0, points@[3].0),
        b.1 == min4(points@[0].1, points@[1].1, points@[2].1, points@[3].1),
        b.2 == max4(points@[0].0, points@[1].0, points@[2].0, points@[3].0),
        b.3 == max4(points@[0].1, points@[1].1, points@[2].1, points@[3].1),
        bbox_least(*points, b),
{
    proof {
        law_bbox_least(*points);
    }
    let mut min_x = u32::MAX;
    let mut min_y = u32::MAX;
    let mut max_x = u32::MIN;
    let mut max_y = u32::MIN;
    let mut i: usize = 0;
    while i < 4
        invariant
            i <= 4,
            i == 0 ==> min_x == u32::MAX && min_y == u32::MAX && max_x == 0 && max_y == 0,
            i == 1 ==> min_x == points@[0].0 && max_x == points@[0].0 && min_y == points@[0].1
                && max_y == points@[0].1,
            i == 2 ==> min_x == min4(points@[0].0, points@[1].0, points@[1].0, points@[1].0)
                && max_x == max4(points@[0].0, points@[1].0, points@[1].0, points@[1].0) && min_y
                == min4(points@[0].1, points@[1].1, points@[1].1, points@[1].1) && max_y == max4(
                points@[0].1,
                points@[1].1,
                points@[1].1,
                points@[1].1,
            ),
            i == 3 ==> min_x == min4(points@[0].0, points@[1].0, points@[2].0, points@[2].0)
                && max_x == max4(points@[0].0, points@[1].0, points@[2].0, points@[2].0) && min_y
                == min4(points@[0].1, points@[1].1, points@[2].1, points@[2].1) && max_y == max4(
                points@[0].1,
                points@[1].1,
                points@[2].1,
                points@[2].1,
            ),
            i == 4 ==> min_x == min4(points@[0].0, points@[1].0, points@[2].0, points@[3].0)
                && max_x == max4(points@[0].0, points@[1].0, points@[2].0, points@[3].0) && min_y
                == min4(points@[0].1, points@[1].1, points@[2].1, points@[3].1) && max_y == max4(
                points@[0].1,
                points@[1].1,
                points@[2].1,
                points@[3].1,
            ),
        decreases 4 - i,
    {
        let (x, y) = points[i];
        if x < min_x {
            min_x = x;
        }
        if y < min_y {
            min_y = y;
        }
        if x > max_x {
            max_x = x;
        }
        if y > max_y {
            max_y = y;
        }
        i = i + 1;
    }
    (min_x, min_y, max_x, max_y)
}

/// The row-major index of pixel `(x, y)` in an image `width` pixels wide.
pub open spec fn pixel_index(width: u32, x: int, y: int) -> int {
    y * width + x
}

/// Cell `k` of the crop of a `width`×`height` image to the box `bbox`,
/// row-major with `crop_w` cells a row: the image's pixel there, or `fill`
/// outside the image.
pub open spec fn crop_cell<T>(
    image: Seq<T>,
    width: u32,
    height: u32,
    bbox: (u32, u32, u32, u32),
    fill: T,
    k: int,
) -> T {
    let crop_w = bbox.2 - bbox.0 + 1;
    let x = bbox.0 + k % crop_w;
    let y = bbox.1 + k / crop_w;
    if x < width && y < height {
        image[y * width + x]
    } else {
        fill
    }
}

/// Crops a row-major `width`×`height` image to the inclusive box
/// `(min_x, min_y, max_x, max_y)`; cells outside the image get `fill`.
/// Returns the crop, its width and height, and its origin in the image.
pub fn crop_to_bbox<T: Copy>(
    image: &[T],
    width: u32,
    height: u32,
    bbox: (u32, u32, u32, u32),
    fill: T,
) -> (r: (Vec<T>, u32, u32, (u32, u32)))
    requires
        bbox.0 <= bbox.2,
        bbox.1 <= bbox.3,
        bbox.2 - bbox.0 + 1 <= u32::MAX,
        bbox.3 - bbox.1 + 1 <= u32::MAX,
        (bbox.2 - bbox.0 + 1) * (bbox.3 - bbox.1 + 1) <= u32::MAX,
        forall|x: int, y: int|
            bbox.0 <= x <= bbox.2 && bbox.1 <= y <= bbox.3 && x < width && y < height
                ==> #[trigger] pixel_index(width, x, y) < image@.len(),
    ensures
        r.1 == bbox.2 - bbox.0 + 1,
        r.2 == bbox.3 - bbox.1 + 1,
        r.3 == (bbox.0, bbox.1),
        r.0@.len() == r.1 * r.2,
        forall|k: int|
            0 <= k < r.0@.len() ==> #[trigger] r.0@[k] == crop_cell(
                image@,
                width,
                height,
                bbox,
                fill,
                k,
            ),
{
    let (min_x, min_y, max_x, max_y) = bbox;
    let crop_w = max_x - min_x + 1;
    let crop_h = max_y - min_y + 1;
    let n = crop_w * crop_h;
    let mut cropped: Vec<T> = Vec::new();
    let mut k: u32 = 0;
    while k < n
        invariant
            k <= n,
            n == crop_w * crop_h,
            crop_w == bbox.2 - bbox.0 + 1,
            crop_h == bbox.3 - bbox.1 + 1,
            min_x == bbox.0,
            min_y == bbox.1,
            cropped@.len() == k,
            forall|x: int, y: int|
                bbox.0 <= x <= bbox.2 && bbox.1 <= y <= bbox.3 && x < width && y < height
                    ==> #[trigger] pixel_index(width, x, y) < image@.len(),
            forall|j: int|
                0 <= j < k ==> #[trigger] cropped@[j] == crop_cell(
                    image@,
                    width,
                    height,
                    bbox,
                    fill,
                    j,
                ),
        decreases n - k,
    {
        let x = k % crop_w;
        let y = k / crop_w;
        proof {
            vstd::arithmetic::div_mod::lemma_fundamental_div_mod(k as int, crop_w as int);
            vstd::arithmetic::div_mod::lemma_div_pos_is_pos(k as int, crop_w as int);
            vstd::arithmetic::div_mod::lemma_mod_bound(k as int, crop_w as int);
            assert(y < crop_h) by (nonlinear_arith)
                requires
                    k < crop_w * crop_h,
                    k == crop_w * y + x,
                    x >= 0,
                    crop_w > 0,
            ;
        }
        let src_x = min_x + x;
        let src_y = min_y + y;
        if src_x < width && src_y < height {
            let len = image.len();
            assert(pixel_index(width, src_x as int, src_y as int) < len);
            assert(0 <= (src_y as int) * (width as int)) by (nonlinear_arith);
            assert((src_y as usize) * (width as usize) + (src_x as usize) < len);
            let src_idx = (src_y as usize) * (width as usize) + (src_x as usize);
            cropped.push(image[src_idx]);
        } else {
            cropped.push(fill);
        }
        k = k + 1;
    }
    (cropped, crop_w, crop_h, (min_x, min_y))
}

/// The corner points relative to a crop's origin.
pub fn relative_points(points: [(u32, u32); 4], origin: (u32, u32)) -> (r: [(u32, u32); 4])
    requires
        forall|i: int|
            0 <= i < 4 ==> origin.0 <= (#[trigger] points@[i]).0 && origin.1 <= points@[i].1,
    ensures
        forall|i: int|
            0 <= i < 4 ==> (#[trigger] r@[i]).0 == points@[i].0 - origin.0 && r@[i].1
                == points@[i].1 - origin.1,
{
    let mut r = points;
    let mut i: usize = 0;
    while i < 4
        invariant
            i <= 4,
            forall|j: int|
                0 <= j < 4 ==> origin.0 <= (#[trigger] points@[j]).0 && origin.1 <= points@[j].1,
            forall|j: int|
                0 <= j < i ==> (#[trigger] r@[j]).0 == points@[j].0 - origin.0 && r@[j].1
                    == points@[j].1 - origin.1,
            forall|j: int| i <= j < 4 ==> #[trigger] r@[j] == points@[j],
        decreases 4 - i,
    {
        let (x, y) = r[i];
        r[i] = (x - origin.0, y - origin.1);
        i = i + 1;
    }
    r
}

// ---------------------------------------------------------------------------
// Grayscale pixels
// ---------------------------------------------------------------------------

/// In-memory image source backed by raw grayscale pixel bytes (one byte per pixel).
pub struct GrayscalePixelSource<'a> {
    pub data: &'a [u8],
    pub width: u32,
    pub height: u32,
}

impl<'a> GrayscalePixelSource<'a> {
    /// The gray level at `(x, y)`; 0 outside the image.
    pub open spec fn level(&self, x: u32, y: u32) -> u8 {
        if x >= self.width || y >= self.height {
            0
        } else {
            self.data@[y * self.width + x]
        }
    }

    pub fn width(&self) -> (w: u32)
        ensures
            w == self.width,
    {
        self.width
    }

    pub fn height(&self) -> (h: u32)
        ensures
            h == self.height,
    {
        self.height
    }

    /// The gray level at `(x, y)`; 0 outside the image. Each of R, G and B
    /// is this level over 255.
    pub fn pixel_level(&self, x: u32, y: u32) -> (v: u8)
        requires
            x < self.width && y < self.height ==> y * self.width + x <= u32::MAX && y
                * self.width + x < self.data@.len(),
        ensures
            v == self.level(x, y),
    {
        if x >= self.width || y >= self.height {
            return 0;
        }
        assert(0 <= y * self.width) by (nonlinear_arith);
        let i = y * self.width + x;
        self.data[i as usize]
    }
}

/// An RGB image: `width`×`height` pixels, row-major, three bytes a pixel.
#[derive(Debug, PartialEq, Eq)]
pub struct RgbPixels {
    pub width: u32,
    pub height: u32,
    pub data: Vec<u8>,
}

impl RgbPixels {
    /// Where the bytes of pixel `(x, y)` start.
    pub open spec fn rgb_index(&self, x: u32, y: u32) -> int {
        (y * self.width + x) * 3
    }

    /// The colour at `(x, y)`; black outside the image.
    pub open spec fn rgb(&self, x: u32, y: u32) -> (u8, u8, u8) {
        if x >= self.width || y >= self.height {
            (0, 0, 0)
        } else {
            let i = self.rgb_index(x, y);
            (self.data@[i], self.data@[i + 1], self.data@[i + 2])
        }
    }

    /// The colour at `(x, y)`; black outside the image.
    pub fn pixel(&self, x: u32, y: u32) -> (p: (u8, u8, u8))
        requires
            x < self.width && y < self.height ==> self.rgb_index(x, y) + 3 <= self.data@.len(),
        ensures
            p == self.rgb(x, y),
    {
        if x >= self.width || y >= self.height {
            return (0, 0, 0);
        }
        let ghost i = self.rgb_index(x, y);
        let len = self.data.len();
        assert(0 <= (y as int) * (self.width as int) && (y as int) * (self.width as int) + x
            <= (y as int) * (self.width as int) * 3 + x * 3 + 3 <= len) by (nonlinear_arith)
            requires
                i == (y * self.width + x) * 3,
                i + 3 <= len,
        ;
        let row: usize = (y as usize) * (self.width as usize);
        let k: usize = (row + x as usize) * 3;
        assert(k == i);
        (self.data[k], self.data[k + 1], self.data[k + 2])
    }
}

/// What the `image` crate decodes from encoded image bytes (format guessed
/// from the bytes), converted to 8-bit RGB: width, height and raw bytes, or
/// the error's message.
pub uninterp spec fn decoded_rgb(bytes: Seq<u8>) -> Result<(u32, u32, Seq<u8>), Seq<char>>;

/// `image::load_from_memory` followed by `to_rgb8`: the decoded image as RGB
/// bytes, or the error's text. The contract names the result and claims
/// nothing of its contents (not even its length).
#[verifier::external_body]
fn decode_rgb(bytes: &[u8]) -> (r: Result<RgbPixels, String>)
    ensures
        match decoded_rgb(bytes@) {
            Ok((w, h, d)) => r matches Ok(p) && p.width == w && p.height == h && p.data@ == d,
            Err(m) => r matches Err(e) && e@ == m,
        },
{
    match image::load_from_memory(bytes) {
        Ok(img) => {
            let rgb = img.to_rgb8();
            let (width, height) = rgb.dimensions();
            Ok(RgbPixels { width, height, data: rgb.into_raw() })
        },
        Err(e) => Err(e.to_string()),
    }
}

/// Decodes a captured frame (JPEG, PNG, ...) into RGB pixels; `Err` with the
/// decoder's message when the bytes are not an image it reads.
pub fn decode_capture(bytes: &[u8]) -> (r: Result<RgbPixels, String>)
    ensures
        match decoded_rgb(bytes@) {
            Ok((w, h, d)) => r matches Ok(p) && p.width == w && p.height == h && p.data@ == d,
            Err(m) => r matches Err(e) && e@ == m,
        },
{
    decode_rgb(bytes)
}

// ---------------------------------------------------------------------------
// The detection pipeline
// ---------------------------------------------------------------------------

/// The readings that `read_digit` may give for the regions `ls` of `source`,
/// one per region, in order.
pub open spec fn possible_readings<S, F: Fn(&S, [(u32, u32); 4]) -> Option<u8>>(
    read_digit: F,
    source: &S,
    ls: Seq<Seq<u32>>,
    ds: Seq<Option<u8>>,
) -> bool {
    &&& ds.len() == ls.len()
    &&& forall|i: int|
        #![trigger ds[i]]
        0 <= i < ls.len() ==> exists|p: [(u32, u32); 4]|
            p@ == points_of(ls[i]) && call_ensures(read_digit, (source, p), ds[i])
}

/// The number that readings give: their positional value, or `None` if any is empty.
pub open spec fn reads_as(ds: Seq<Option<u8>>, n: Option<u32>) -> bool {
    match combine(ds) {
        Some(v) => n == Some(v as u32),
        None => n is None,
    }
}

/// Reads the digit of every crop region described by `crops_str` over an image
/// source with `read_digit`, in order. `Err` with the message of
/// `deserialize_crops` when the crop string is malformed.
pub fn read_regions<S, F: Fn(&S, [(u32, u32); 4]) -> Option<u8>>(
    source: &S,
    crops_str: &str,
    read_digit: F,
) -> (r: Result<Vec<Option<u8>>, String>)
    requires
        forall|p: [(u32, u32); 4]| call_requires(read_digit, (source, p)),
    ensures
        match crops_of_text(crops_str@) {
            Err(e) => r matches Err(m) && m@ == e,
            Ok(ls) => r matches Ok(ds) && possible_readings(read_digit, source, ls, ds@),
        },
{
    let crops = match deserialize_crops(crops_str) {
        Ok(c) => c,
        Err(e) => return Err(e),
    };
    let ghost ls = crops_of_text(crops_str@)->Ok_0;
    let mut digits: Vec<Option<u8>> = Vec::new();
    let mut i: usize = 0;
    while i < crops.len()
        invariant
            i <= crops.len(),
            regions_match(crops@, ls),
            forall|p: [(u32, u32); 4]| call_requires(read_digit, (source, p)),
            possible_readings(read_digit, source, ls.take(i as int), digits@),
        decreases crops.len() - i,
    {
        let p = crops[i];
        let d = read_digit(source, p);
        let ghost before = digits@;
        digits.push(d);
        proof {
            let lt = ls.take(i as int + 1);
            assert forall|j: int|
                #![trigger digits@[j]]
                0 <= j < lt.len() implies exists|q: [(u32, u32); 4]|
                q@ == points_of(lt[j]) && call_ensures(read_digit, (source, q), digits@[j]) by {
                if j == i {
                    assert(crops@[j]@ == points_of(ls[j]));
                    assert(p@ == points_of(lt[j]) && call_ensures(read_digit, (source, p), digits@[j]));
                } else {
                    assert(digits@[j] == before[j]);
                    assert(lt[j] == ls.take(i as int)[j]);
                }
            }
        }
        i = i + 1;
    }
    assert(ls.take(i as int) =~= ls);
    Ok(digits)
}

/// Run detection on every crop region described by `crops_str` over an image
/// source, reading each region's digit with `read_digit`, and combine the
/// digits. `Err` with the message of `deserialize_crops` when the crop string
/// is malformed.
pub fn detect_in<S, F: Fn(&S, [(u32, u32); 4]) -> Option<u8>>(
    source: &S,
    crops_str: &str,
    read_digit: F,
) -> (r: Result<Option<u32>, String>)
    requires
        forall|p: [(u32, u32); 4]| call_requires(read_digit, (source, p)),
        crops_of_text(crops_str@) matches Ok(ls) ==> forall|ds: Seq<Option<u8>>|
            #[trigger] possible_readings(read_digit, source, ls, ds) ==> combine_checked(ds) is Some,
    ensures
        match crops_of_text(crops_str@) {
            Err(e) => r matches Err(m) && m@ == e,
            Ok(ls) => r matches Ok(n) && exists|ds: Seq<Option<u8>>|
                #[trigger] possible_readings(read_digit, source, ls, ds) && reads_as(ds, n),
        },
{
    let digits = match read_regions(source, crops_str, read_digit) {
        Ok(d) => d,
        Err(e) => return Err(e),
    };
    let ghost ls = crops_of_text(crops_str@)->Ok_0;
    assert(possible_readings(read_digit, source, ls, digits@));
    let n = combine_digits(&digits);
    Ok(n)
}

/// Run the detection on every crop region described by `crops_str` over raw
/// grayscale pixel bytes (one byte per pixel) with the given dimensions.
///
/// Returns `Ok(None)` when any region reads as empty display, and `Err` when
/// the crop string is malformed.
pub fn detect_number_raw<F: Fn(&GrayscalePixelSource, [(u32, u32); 4]) -> Option<u8>>(
    pixels: &[u8],
    width: u32,
    height: u32,
    crops_str: &str,
    read_digit: F,
) -> (r: Result<Option<u32>, String>)
    requires
        forall|p: [(u32, u32); 4]|
            call_requires(read_digit, (&GrayscalePixelSource { data: pixels, width, height }, p)),
        crops_of_text(crops_str@) matches Ok(ls) ==> forall|ds: Seq<Option<u8>>|
            #[trigger] possible_readings(
                read_digit,
                &GrayscalePixelSource { data: pixels, width, height },
                ls,
                ds,
            ) ==> combine_checked(ds) is Some,
    ensures
        match crops_of_text(crops_str@) {
            Err(e) => r matches Err(m) && m@ == e,
            Ok(ls) => r matches Ok(n) && exists|ds: Seq<Option<u8>>|
                #[trigger] possible_readings(
                    read_digit,
                    &GrayscalePixelSource { data: pixels, width, height },
                    ls,
                    ds,
                ) && reads_as(ds, n),
        },
{
    let source = GrayscalePixelSource { data: pixels, width, height };
    detect_in(&source, crops_str, read_digit)
}

/// The pixel rows `[start_y, end_y)` and columns `[start_x, end_x)` of cell
/// `(cell_x, cell_y)` when a 128×128 sample is cut into `cols`×`rows` cells.
pub fn cell_bounds(cell_x: u8, cell_y: u8, cols: usize, rows: usize) -> (b: (usize, usize, usize, usize))
    requires
        cols > 0,
        rows > 0,
    ensures
        b.0 == cell_x as int * 128 / cols as int,
        b.1 == if (cell_x as int + 1) * 128 / cols as int <= 128 {
            (cell_x as int + 1) * 128 / cols as int
        } else {
            128
        },
        b.2 == cell_y as int * 128 / rows as int,
        b.3 == if (cell_y as int + 1) * 128 / rows as int <= 128 {
            (cell_y as int + 1) * 128 / rows as int
        } else {
            128
        },
{
    let start_y = cell_y as usize * 128 / rows;
    let end_y_raw = (cell_y as usize + 1) * 128 / rows;
    let end_y = if end_y_raw <= 128 { end_y_raw } else { 128 };
    let start_x = cell_x as usize * 128 / cols;
    let end_x_raw = (cell_x as usize + 1) * 128 / cols;
    let end_x = if end_x_raw <= 128 { end_x_raw } else { 128 };
    (start_x, end_x, start_y, end_y)
}

/// The corner points given as eight coordinate texts `x1 y1 x2 y2 x3 y3 x4 y4`;
/// `Err(i)` names the first text that is not a `u32`.
pub fn parse_points(args: &[String]) -> (r: Result<[(u32, u32); 4], usize>)
    requires
        args@.len() == 8,
    ensures
        match r {
            Ok(p) => forall|i: int|
                0 <= i < 8 ==> parse_u32(args@[i]@) == Ok::<u32, ParseErrorKind>(
                    #[trigger] points_flat(p)[i],
                ),
            Err(k) => k < 8 && parse_u32(args@[k as int]@) is Err && forall|i: int|
                0 <= i < k ==> #[trigger] parse_u32(args@[i]@) is Ok,
        },
{
    let mut nums: Vec<u32> = Vec::new();
    let mut i: usize = 0;
    while i < 8
        invariant
            i <= 8,
            args@.len() == 8,
            nums@.len() == i,
            forall|j: int| 0 <= j < i ==> parse_u32(args@[j]@) == Ok::<u32, ParseErrorKind>(#[trigger] nums@[j]),
        decreases 8 - i,
    {
        let chars = chars_of(args[i].as_str());
        match parse_u32_chars(&chars) {
            Ok(n) => nums.push(n),
            Err(_) => {
                assert forall|j: int| 0 <= j < i implies #[trigger] parse_u32(args@[j]@) is Ok by {
                    assert(parse_u32(args@[j]@) == Ok::<u32, ParseErrorKind>(nums@[j]));
                }
                return Err(i);
            },
        }
        i = i + 1;
    }
    let p = [(nums[0], nums[1]), (nums[2], nums[3]), (nums[4], nums[5]), (nums[6], nums[7])];
    assert(points_flat(p) =~= nums@);
    Ok(p)
}

/// The eight coordinates of four points, in order.
pub open spec fn points_flat(p: [(u32, u32); 4]) -> Seq<u32> {
    seq![p@[0].0, p@[0].1, p@[1].0, p@[1].1, p@[2].0, p@[2].1, p@[3].0, p@[3].1]
}

} // verus!
