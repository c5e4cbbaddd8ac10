//! The crop-string codec: each crop region is four corner points
//! `x1,y1,x2,y2,x3,y3,x4,y4` (top-left, top-right, bottom-right, bottom-left),
//! regions are separated by `+`.
use vstd::prelude::*;
use crate::text::{
    dec, is_ws, join, lemma_dec_facts, lemma_join_chars, lemma_join_ends, lemma_parse_dec,
    lemma_split_join, lemma_trim_solid, parse_error_message, parse_u32, push_char, push_dec,
    split, trim, ParseErrorKind, chars_of, split_chars, trim_chars, parse_u32_chars, views,
    string_from,
};

verus! {

broadcast use vstd::string::group_string_axioms;

// ---------------------------------------------------------------------------
// Specifications
// ---------------------------------------------------------------------------

/// The eight coordinates of a region, in text order.
pub open spec fn nums_of(r: [(u32, u32); 4]) -> Seq<u32> {
    seq![r@[0].0, r@[0].1, r@[1].0, r@[1].1, r@[2].0, r@[2].1, r@[3].0, r@[3].1]
}

/// The four corner points that eight coordinates describe.
pub open spec fn points_of(ns: Seq<u32>) -> Seq<(u32, u32)> {
    seq![(ns[0], ns[1]), (ns[2], ns[3]), (ns[4], ns[5]), (ns[6], ns[7])]
}

/// The decimal fields of a region.
pub open spec fn region_fields(r: [(u32, u32); 4]) -> Seq<Seq<char>> {
    nums_of(r).map_values(|n: u32| dec(n as nat))
}

/// A region as text: its eight coordinates, comma-separated.
pub open spec fn region_text(r: [(u32, u32); 4]) -> Seq<char> {
    join(region_fields(r), ',')
}

/// The texts of the regions, in order.
pub open spec fn texts_of(rs: Seq<[(u32, u32); 4]>) -> Seq<Seq<char>> {
    rs.map_values(|r: [(u32, u32); 4]| region_text(r))
}

/// The coordinates of the regions, in order.
pub open spec fn nums_all(rs: Seq<[(u32, u32); 4]>) -> Seq<Seq<u32>> {
    rs.map_values(|r: [(u32, u32); 4]| nums_of(r))
}

/// `serialize_crops`: the regions' texts joined by `+`.
pub open spec fn crops_text(rs: Seq<[(u32, u32); 4]>) -> Seq<char> {
    join(texts_of(rs), '+')
}

/// A piece that holds nothing but white space.
pub open spec fn is_blank(s: Seq<char>) -> bool {
    trim(s).len() == 0
}

/// The pieces that are not blank, in order.
pub open spec fn nonblank(ps: Seq<Seq<char>>) -> Seq<Seq<char>>
    decreases ps.len(),
{
    if ps.len() == 0 {
        ps
    } else if is_blank(ps.last()) {
        nonblank(ps.drop_last())
    } else {
        nonblank(ps.drop_last()).push(ps.last())
    }
}

/// The numbers of the comma-separated fields, each trimmed; the first field
/// that is not a number gives its parse error's message.
pub open spec fn parse_fields(fs: Seq<Seq<char>>) -> Result<Seq<u32>, Seq<char>>
    decreases fs.len(),
{
    if fs.len() == 0 {
        Ok(Seq::<u32>::empty())
    } else {
        match parse_fields(fs.drop_last()) {
            Err(e) => Err(e),
            Ok(ns) => match parse_u32(trim(fs.last())) {
                Err(k) => Err(parse_error_message(k)),
                Ok(n) => Ok(ns.push(n)),
            },
        }
    }
}

/// The message for a line with the wrong number of coordinates.
pub open spec fn count_message(n: nat) -> Seq<char> {
    "expected 8 values, got "@ + dec(n)
}

/// One region's line: exactly eight numbers.
pub open spec fn parse_line(l: Seq<char>) -> Result<Seq<u32>, Seq<char>> {
    match parse_fields(split(l, ',')) {
        Err(e) => Err(e),
        Ok(ns) => if ns.len() != 8 {
            Err(count_message(ns.len()))
        } else {
            Ok(ns)
        },
    }
}

/// The lines in order; the first line that fails gives the error.
pub open spec fn parse_lines(ls: Seq<Seq<char>>) -> Result<Seq<Seq<u32>>, Seq<char>>
    decreases ls.len(),
{
    if ls.len() == 0 {
        Ok(Seq::<Seq<u32>>::empty())
    } else {
        match parse_lines(ls.drop_last()) {
            Err(e) => Err(e),
            Ok(acc) => match parse_line(ls.last()) {
                Err(e) => Err(e),
                Ok(ns) => Ok(acc.push(ns)),
            },
        }
    }
}

/// `deserialize_crops`: the coordinates of each non-blank `+`-separated line.
pub open spec fn crops_of_text(s: Seq<char>) -> Result<Seq<Seq<u32>>, Seq<char>> {
    parse_lines(nonblank(split(s, '+')))
}

/// The regions hold exactly the given coordinates, line by line.
pub open spec fn regions_match(v: Seq<[(u32, u32); 4]>, ls: Seq<Seq<u32>>) -> bool {
    &&& v.len() == ls.len()
    &&& forall|i: int| 0 <= i < v.len() ==> (#[trigger] v[i])@ == points_of(ls[i])
}

// ---------------------------------------------------------------------------
// Lemmas
// ---------------------------------------------------------------------------

proof fn lemma_nonblank_concat(a: Seq<Seq<char>>, b: Seq<Seq<char>>)
    ensures
        nonblank(a + b) == nonblank(a) + nonblank(b),
    decreases b.len(),
{
    if b.len() == 0 {
        assert(a + b =~= a);
        assert(nonblank(a) + nonblank(b) =~= nonblank(a));
    } else {
        assert((a + b).drop_last() =~= a + b.drop_last());
        assert((a + b).last() == b.last());
        lemma_nonblank_concat(a, b.drop_last());
        if !is_blank(b.last()) {
            assert((nonblank(a) + nonblank(b.drop_last())).push(b.last()) =~= nonblank(a)
                + nonblank(b.drop_last()).push(b.last()));
        }
    }
}

proof fn lemma_parse_lines_err(a: Seq<Seq<char>>, b: Seq<Seq<char>>)
    requires
        parse_lines(a) is Err,
    ensures
        parse_lines(a + b) == parse_lines(a),
    decreases b.len(),
{
    if b.len() == 0 {
        assert(a + b =~= a);
    } else {
        assert((a + b).drop_last() =~= a + b.drop_last());
        lemma_parse_lines_err(a, b.drop_last());
    }
}

proof fn lemma_parse_fields_err(a: Seq<Seq<char>>, b: Seq<Seq<char>>)
    requires
        parse_fields(a) is Err,
    ensures
        parse_fields(a + b) == parse_fields(a),
    decreases b.len(),
{
    if b.len() == 0 {
        assert(a + b =~= a);
    } else {
        assert((a + b).drop_last() =~= a + b.drop_last());
        lemma_parse_fields_err(a, b.drop_last());
    }
}

proof fn lemma_region_fields(r: [(u32, u32); 4])
    ensures
        region_fields(r).len() == 8,
        forall|i: int|
            0 <= i < 8 ==> (#[trigger] region_fields(r)[i]) == dec(nums_of(r)[i] as nat),
        forall|i: int| 0 <= i < 8 ==> !(#[trigger] region_fields(r)[i]).contains(','),
        forall|i: int| 0 <= i < 8 ==> !(#[trigger] region_fields(r)[i]).contains('+'),
        forall|i: int| 0 <= i < 8 ==> (#[trigger] region_fields(r)[i]).len() >= 1,
        forall|i: int|
            0 <= i < 8 ==> parse_u32(trim(#[trigger] region_fields(r)[i])) == Ok::<
                u32,
                ParseErrorKind,
            >(nums_of(r)[i]),
{
    assert forall|i: int| 0 <= i < 8 implies {
        &&& !(#[trigger] region_fields(r)[i]).contains(',')
        &&& !region_fields(r)[i].contains('+')
        &&& region_fields(r)[i].len() >= 1
        &&& parse_u32(trim(region_fields(r)[i])) == Ok::<u32, ParseErrorKind>(nums_of(r)[i])
    } by {
        let n = nums_of(r)[i];
        lemma_dec_facts(n as nat);
        lemma_parse_dec(n);
        let d = dec(n as nat);
        assert(!is_ws(d[0]));
        assert(!is_ws(d.last())) by {
            assert(d[d.len() - 1] == d.last());
        }
        lemma_trim_solid(d);
    }
}

proof fn lemma_parse_fields_all(fs: Seq<Seq<char>>, ns: Seq<u32>)
    requires
        fs.len() == ns.len(),
        forall|i: int|
            0 <= i < fs.len() ==> parse_u32(trim(#[trigger] fs[i])) == Ok::<u32, ParseErrorKind>(
                ns[i],
            ),
    ensures
        parse_fields(fs) == Ok::<Seq<u32>, Seq<char>>(ns),
    decreases fs.len(),
{
    if fs.len() > 0 {
        let f0 = fs.drop_last();
        let n0 = ns.drop_last();
        assert forall|i: int| 0 <= i < f0.len() implies parse_u32(trim(#[trigger] f0[i]))
            == Ok::<u32, ParseErrorKind>(n0[i]) by {
            assert(f0[i] == fs[i]);
        }
        lemma_parse_fields_all(f0, n0);
        assert(fs[fs.len() - 1] == fs.last());
        assert(parse_u32(trim(fs[fs.len() - 1])) == Ok::<u32, ParseErrorKind>(
            ns[ns.len() - 1],
        ));
        assert(fs.drop_last() == f0);
        assert(parse_fields(fs.drop_last()) == Ok::<Seq<u32>, Seq<char>>(n0));
        assert(n0.push(ns[ns.len() - 1]) =~= ns);
    } else {
        assert(ns =~= Seq::<u32>::empty());
    }
}

/// A region's text reads back as its eight coordinates.
proof fn lemma_parse_region_text(r: [(u32, u32); 4])
    ensures
        parse_line(region_text(r)) == Ok::<Seq<u32>, Seq<char>>(nums_of(r)),
        !region_text(r).contains('+'),
        !is_blank(region_text(r)),
{
    lemma_region_fields(r);
    let fs = region_fields(r);
    lemma_split_join(fs, ',');
    lemma_parse_fields_all(fs, nums_of(r));
    lemma_join_chars(fs, ',', '+');
    lemma_join_ends(fs, ',');
    let t = region_text(r);
    lemma_dec_facts(nums_of(r)[0] as nat);
    lemma_dec_facts(nums_of(r)[7] as nat);
    assert(fs[0] == dec(nums_of(r)[0] as nat));
    assert(fs.last() == dec(nums_of(r)[7] as nat)) by {
        assert(fs[7] == fs.last());
    }
    let d7 = dec(nums_of(r)[7] as nat);
    assert(!is_ws(d7.last())) by {
        assert(d7[d7.len() - 1] == d7.last());
    }
    assert(!is_ws(t[0]));
    lemma_trim_solid(t);
}

proof fn lemma_parse_lines_all(rs: Seq<[(u32, u32); 4]>)
    ensures
        nonblank(texts_of(rs)) == texts_of(rs),
        parse_lines(texts_of(rs)) == Ok::<
            Seq<Seq<u32>>,
            Seq<char>,
        >(nums_all(rs)),
    decreases rs.len(),
{
    let ts = texts_of(rs);
    if rs.len() > 0 {
        let front = rs.drop_last();
        lemma_parse_lines_all(front);
        assert(ts.drop_last() =~= texts_of(front));
        assert(ts.last() == region_text(rs.last()));
        lemma_parse_region_text(rs.last());
        assert(nums_all(rs) =~= nums_all(front).push(nums_of(rs.last())));
        assert(nonblank(ts.drop_last()).push(ts.last()) =~= ts);
    } else {
        assert(ts =~= Seq::<Seq<char>>::empty());
        assert(nums_all(rs) =~= Seq::<Seq<u32>>::empty());
    }
}

/// Reading back what `serialize_crops` wrote gives the same regions.
pub proof fn law_crops_roundtrip(rs: Seq<[(u32, u32); 4]>)
    ensures
        crops_of_text(crops_text(rs)) == Ok::<Seq<Seq<u32>>, Seq<char>>(
            nums_all(rs),
        ),
        forall|i: int| 0 <= i < rs.len() ==> points_of(nums_of(#[trigger] rs[i])) == rs[i]@,
{
    let ts = texts_of(rs);
    lemma_parse_lines_all(rs);
    if rs.len() == 0 {
        assert(ts.len() == 0);
        assert(crops_text(rs) =~= Seq::<char>::empty());
        assert(split(Seq::<char>::empty(), '+') =~= seq![Seq::<char>::empty()]);
        let ps = seq![Seq::<char>::empty()];
        assert(ps.drop_last() =~= Seq::<Seq<char>>::empty());
        assert(is_blank(Seq::<char>::empty()));
        assert(ps.last() == Seq::<char>::empty());
        assert(nonblank(ps.drop_last()) =~= Seq::<Seq<char>>::empty());
        assert(nonblank(ps) =~= Seq::<Seq<char>>::empty());
        assert(parse_lines(Seq::<Seq<char>>::empty()) == Ok::<Seq<Seq<u32>>, Seq<char>>(
            Seq::<Seq<u32>>::empty(),
        ));
        assert(nums_all(rs) =~= Seq::<Seq<u32>>::empty());
    } else {
        assert forall|i: int| 0 <= i < ts.len() implies !(#[trigger] ts[i]).contains('+') by {
            lemma_parse_region_text(rs[i]);
        }
        lemma_split_join(ts, '+');
        assert(split(crops_text(rs), '+') == ts);
        assert(nonblank(ts) == ts);
        assert(parse_lines(ts) == Ok::<Seq<Seq<u32>>, Seq<char>>(nums_all(rs)));
    }
    assert forall|i: int| 0 <= i < rs.len() implies points_of(nums_of(#[trigger] rs[i]))
        == rs[i]@ by {
        assert(points_of(nums_of(rs[i])) =~= rs[i]@);
    }
}

/// Text in the form that `serialize_crops` writes: nothing, or regions of
/// eight comma-separated decimals (no sign, no spaces, no leading zeros)
/// joined by `+`.
pub open spec fn is_crops_text(s: Seq<char>) -> bool {
    exists|rs: Seq<[(u32, u32); 4]>| #[trigger] crops_text(rs) == s
}

/// Writing back the regions that `deserialize_crops` read from text in that
/// form gives the same text.
pub proof fn law_crops_text_roundtrip(s: Seq<char>, v: Seq<[(u32, u32); 4]>)
    requires
        is_crops_text(s),
        crops_of_text(s) matches Ok(ls) && regions_match(v, ls),
    ensures
        crops_text(v) == s,
{
    let rs = choose|rs: Seq<[(u32, u32); 4]>| #[trigger] crops_text(rs) == s;
    law_crops_roundtrip(rs);
    let ls = crops_of_text(s)->Ok_0;
    assert(ls == nums_all(rs));
    assert forall|i: int| 0 <= i < v.len() implies #[trigger] texts_of(v)[i] == texts_of(rs)[i] by {
        assert(v[i]@ == points_of(ls[i]));
        assert(ls[i] == nums_of(rs[i]));
        assert(points_of(nums_of(rs[i])) == rs[i]@);
        assert(nums_of(v[i]) =~= nums_of(rs[i]));
    }
    assert(texts_of(v) =~= texts_of(rs));
}

// ---------------------------------------------------------------------------
// Executable functions
// ---------------------------------------------------------------------------

/// Serialize multiple crop regions to a `+`-separated string.
/// Each region encodes one crop as `x1,y1,x2,y2,x3,y3,x4,y4` (TL, TR, BR, BL order).
pub fn serialize_crops(regions: &[[(u32, u32); 4]]) -> (s: String)
    ensures
        s@ == crops_text(regions@),
{
    let mut out = String::new();
    let mut i: usize = 0;
    while i < regions.len()
        invariant
            i <= regions.len(),
            out@ == crops_text(regions@.take(i as int)),
        decreases regions.len() - i,
    {
        let ghost before = out@;
        if i > 0 {
            push_char(&mut out, '+');
        }
        let ghost after_sep = out@;
        write_region(&mut out, &regions[i]);
        proof {
            let ts_next = texts_of(regions@.take(i as int + 1));
            let ts = texts_of(regions@.take(i as int));
            assert(ts_next.drop_last() =~= ts);
            assert(ts_next.last() == region_text(regions@[i as int]));
            if i == 0 {
                assert(ts_next =~= seq![region_text(regions@[0])]);
                assert(out@ =~= region_text(regions@[0]));
            } else {
                assert(out@ =~= join(ts, '+').push('+') + region_text(regions@[i as int]));
            }
        }
        i = i + 1;
    }
    assert(regions@.take(regions.len() as int) =~= regions@);
    out
}

fn write_region(out: &mut String, r: &[(u32, u32); 4])
    ensures
        final(out)@ == old(out)@ + region_text(*r),
{
    let ghost start = out@;
    let ghost fs = region_fields(*r);
    let ns: [u32; 8] = [r[0].0, r[0].1, r[1].0, r[1].1, r[2].0, r[2].1, r[3].0, r[3].1];
    assert(ns@ =~= nums_of(*r));
    push_dec(out, ns[0] as u64);
    proof {
        assert(fs.take(1) =~= seq![fs[0]]);
        assert(out@ =~= start + join(fs.take(1), ','));
    }
    let mut k: usize = 1;
    while k < 8
        invariant
            1 <= k <= 8,
            ns@ == nums_of(*r),
            fs == region_fields(*r),
            out@ == start + join(fs.take(k as int), ','),
        decreases 8 - k,
    {
        let ghost before = out@;
        push_char(out, ',');
        push_dec(out, ns[k] as u64);
        proof {
            assert(fs.take(k as int + 1).drop_last() =~= fs.take(k as int));
            assert(fs.take(k as int + 1).last() == fs[k as int]);
            assert(fs[k as int] == dec(ns@[k as int] as nat));
            assert(out@ =~= start + join(fs.take(k as int + 1), ','));
        }
        k = k + 1;
    }
    assert(fs.take(8) =~= fs);
}

/// The message of a parse error, as a `String`.
fn parse_error_string(k: ParseErrorKind) -> (m: String)
    ensures
        m@ == parse_error_message(k),
{
    match k {
        ParseErrorKind::Empty => string_from("cannot parse integer from empty string"),
        ParseErrorKind::InvalidDigit => string_from("invalid digit found in string"),
        ParseErrorKind::PosOverflow => string_from("number too large to fit in target type"),
    }
}

/// One region's line: eight comma-separated numbers.
fn parse_region(line: &Vec<char>) -> (r: Result<[(u32, u32); 4], String>)
    ensures
        match parse_line(line@) {
            Ok(ns) => r matches Ok(v) && v@ == points_of(ns),
            Err(e) => r matches Err(m) && m@ == e,
        },
{
    let fields = split_chars(line, ',');
    let ghost fs = views(fields@);
    let mut nums: Vec<u32> = Vec::new();
    let mut i: usize = 0;
    while i < fields.len()
        invariant
            i <= fields.len(),
            fs == views(fields@),
            fs == split(line@, ','),
            parse_fields(fs.take(i as int)) == Ok::<Seq<u32>, Seq<char>>(nums@),
        decreases fields.len() - i,
    {
        let t = trim_chars(&fields[i]);
        assert(fs.take(i as int + 1).drop_last() =~= fs.take(i as int));
        assert(fs.take(i as int + 1).last() == fields@[i as int]@);
        match parse_u32_chars(&t) {
            Err(k) => {
                proof {
                    assert(fs =~= fs.take(i as int + 1) + fs.skip(i as int + 1));
                    lemma_parse_fields_err(fs.take(i as int + 1), fs.skip(i as int + 1));
                }
                return Err(parse_error_string(k));
            },
            Ok(n) => {
                nums.push(n);
            },
        }
        i = i + 1;
    }
    assert(fs.take(fields.len() as int) =~= fs);
    if nums.len() != 8 {
        let mut m = string_from("expected 8 values, got ");
        push_dec(&mut m, nums.len() as u64);
        return Err(m);
    }
    let v = [(nums[0], nums[1]), (nums[2], nums[3]), (nums[4], nums[5]), (nums[6], nums[7])];
    assert(v@ =~= points_of(nums@));
    Ok(v)
}

/// Deserialize crop regions from the format produced by `serialize_crops`.
/// Regions are separated by `+`; blank regions are skipped. The first malformed
/// region gives the error: the message of its first field that is not a number,
/// or `expected 8 values, got N`.
pub fn deserialize_crops(s: &str) -> (r: Result<Vec<[(u32, u32); 4]>, String>)
    ensures
        match crops_of_text(s@) {
            Ok(ls) => r matches Ok(v) && regions_match(v@, ls),
            Err(e) => r matches Err(m) && m@ == e,
        },
{
    let chars = chars_of(s);
    let pieces = split_chars(&chars, '+');
    let ghost ps = views(pieces@);
    let mut out: Vec<[(u32, u32); 4]> = Vec::new();
    let ghost mut acc: Seq<Seq<u32>> = Seq::empty();
    let mut i: usize = 0;
    while i < pieces.len()
        invariant
            i <= pieces.len(),
            ps == views(pieces@),
            ps == split(s@, '+'),
            parse_lines(nonblank(ps.take(i as int))) == Ok::<Seq<Seq<u32>>, Seq<char>>(acc),
            regions_match(out@, acc),
        decreases pieces.len() - i,
    {
        let t = trim_chars(&pieces[i]);
        assert(ps.take(i as int + 1).drop_last() =~= ps.take(i as int));
        assert(ps.take(i as int + 1).last() == pieces@[i as int]@);
        let ghost nb = nonblank(ps.take(i as int));
        if t.len() > 0 {
            assert(!is_blank(pieces@[i as int]@));
            assert(nonblank(ps.take(i as int + 1)) == nb.push(pieces@[i as int]@));
            assert(nb.push(pieces@[i as int]@).drop_last() =~= nb);
            match parse_region(&pieces[i]) {
                Err(m) => {
                    proof {
                        let a = ps.take(i as int + 1);
                        let b = ps.skip(i as int + 1);
                        assert(ps =~= a + b);
                        lemma_nonblank_concat(a, b);
                        lemma_parse_lines_err(nonblank(a), nonblank(b));
                    }
                    return Err(m);
                },
                Ok(region) => {
                    let ghost ns = parse_line(pieces@[i as int]@)->Ok_0;
                    out.push(region);
                    proof {
                        acc = acc.push(ns);
                    }
                },
            }
        } else {
            assert(is_blank(pieces@[i as int]@));
            assert(nonblank(ps.take(i as int + 1)) == nb);
        }
        i = i + 1;
    }
    assert(ps.take(pieces.len() as int) =~= ps);
    Ok(out)
}

} // verus!
