//! The texts that the services exchange: the vision server's answer, how the
//! controller reads it, the two-crop specification on the command line, and
//! the URLs the controller fetches from.
use vstd::prelude::*;
use crate::client::append;
use crate::text::{
    chars_of, dec, lemma_dec_facts, lemma_parse_dec, lemma_parse_digits_prefix_err,
    lemma_split_join, lemma_trim_solid, is_digit, is_ws, join, parse_digits, parse_u32,
    parse_u32_chars, push_dec, split, split_chars, string_from, string_of, trim, trim_chars, views,
    ParseErrorKind,
};

verus! {

broadcast use vstd::string::group_string_axioms;

/// A reading of the display as a volume: zero reads as off.
pub open spec fn shown_volume(r: Option<u32>) -> Option<u32> {
    match r {
        Some(v) => if v != 0 { Some(v) } else { None },
        None => None,
    }
}

/// A detection result as a volume: zero reads as off (blank or black display).
pub fn displayed_volume(r: Option<u32>) -> (v: Option<u32>)
    ensures
        v == shown_volume(r),
        (r matches Some(x) && x != 0) ==> v == r,
        (r is None || r == Some(0u32)) ==> v is None,
{
    match r {
        Some(v) => if v != 0 { Some(v) } else { None },
        None => None,
    }
}

/// The volume in a vision server's answer: a number after trimming, zero or
/// anything else reading as no volume.
pub open spec fn volume_of_text(s: Seq<char>) -> Option<u32> {
    match parse_u32(trim(s)) {
        Ok(v) => shown_volume(Some(v)),
        Err(_) => None,
    }
}

/// Reads the vision server's answer as a volume (`None` when off or not a number).
pub fn volume_from_text(s: &str) -> (v: Option<u32>)
    ensures
        v == volume_of_text(s@),
{
    let chars = chars_of(s);
    let t = trim_chars(&chars);
    match parse_u32_chars(&t) {
        Ok(v) => displayed_volume(Some(v)),
        Err(_) => None,
    }
}

/// The vision server's answer text for a detection: the number, or `None`.
pub open spec fn answer_text(r: Option<u32>) -> Seq<char> {
    match r {
        Some(n) => dec(n as nat),
        None => "None"@,
    }
}

/// The vision server's answer for a detection.
pub fn detect_answer(r: Option<u32>) -> (s: String)
    ensures
        s@ == answer_text(r),
{
    match r {
        Some(n) => {
            let mut s = String::new();
            push_dec(&mut s, n as u64);
            s
        },
        None => string_from("None"),
    }
}

/// The vision server's reply to a detection: status 200 with the answer, or
/// status 400 with `Detection error: ` and the message when detection failed.
pub fn detection_reply(r: Result<Option<u32>, String>) -> (reply: (u16, String))
    ensures
        match r {
            Ok(n) => reply.0 == 200 && reply.1@ == answer_text(n),
            Err(e) => reply.0 == 400 && reply.1@ == "Detection error: "@ + e@,
        },
{
    match r {
        Ok(n) => (200, detect_answer(n)),
        Err(e) => {
            let mut s = string_from("Detection error: ");
            append(&mut s, e.as_str());
            (400, s)
        },
    }
}

/// Only zero and an empty display read as off: every other reading is the
/// volume itself, and the volume read from the decimal text of a nonzero
/// number is that number.
pub proof fn law_nonzero_volume_shown(v: u32)
    ensures
        v != 0 ==> shown_volume(Some(v)) == Some(v),
        v != 0 ==> volume_of_text(dec(v as nat)) == Some(v),
        shown_volume(Some(0u32)) is None,
        shown_volume(None) is None,
        volume_of_text(dec(0)) is None,
{
    law_answer_roundtrip(Some(v));
    law_answer_roundtrip(Some(0u32));
}

/// The controller reads back what the vision server answers: the number, with
/// zero (and an empty display) as off.
pub proof fn law_answer_roundtrip(r: Option<u32>)
    ensures
        volume_of_text(answer_text(r)) == shown_volume(r),
{
    match r {
        Some(n) => {
            lemma_dec_facts(n as nat);
            lemma_parse_dec(n);
            let d = dec(n as nat);
            assert(d[d.len() - 1] == d.last());
            lemma_trim_solid(d);
        },
        None => {
            reveal_strlit("None");
            let s = "None"@;
            assert(s.len() == 4);
            assert(s[0] == 'N');
            assert(s.last() == 'e');
            lemma_trim_solid(s);
            assert(s.take(1).drop_last() =~= Seq::<char>::empty());
            assert(parse_digits(s.take(1)) is Err);
            lemma_parse_digits_prefix_err(s, 1);
        },
    }
}

/// `crop1+crop2` from a two-crop specification, each trimmed; `None` unless it
/// has exactly two parts.
pub open spec fn crop_pair_of(s: Seq<char>) -> Option<(Seq<char>, Seq<char>)> {
    let ps = split(s, '+');
    if ps.len() == 2 {
        Some((trim(ps[0]), trim(ps[1])))
    } else {
        None
    }
}

/// Splits a two-crop specification `crop1+crop2` into its trimmed parts;
/// `None` when it does not have exactly two.
pub fn split_crop_pair(spec: &str) -> (r: Option<(String, String)>)
    ensures
        match crop_pair_of(spec@) {
            None => r is None,
            Some((a, b)) => r matches Some((x, y)) && x@ == a && y@ == b,
        },
{
    let chars = chars_of(spec);
    let parts = split_chars(&chars, '+');
    if parts.len() != 2 {
        return None;
    }
    assert(views(parts@)[0] == parts@[0]@);
    assert(views(parts@)[1] == parts@[1]@);
    let a = trim_chars(&parts[0]);
    let b = trim_chars(&parts[1]);
    Some((string_of(&a), string_of(&b)))
}

/// Two crops joined back into one specification: `{crop1}+{crop2}`.
pub fn join_crop_pair(crop1: &str, crop2: &str) -> (s: String)
    ensures
        s@ == crop1@ + "+"@ + crop2@,
{
    let mut s = string_from(crop1);
    append(&mut s, "+");
    append(&mut s, crop2);
    s
}

/// Joining two trimmed crops without `+` and splitting the result gives them back.
pub proof fn law_crop_pair_roundtrip(a: Seq<char>, b: Seq<char>)
    requires
        !a.contains('+'),
        !b.contains('+'),
        trim(a) == a,
        trim(b) == b,
    ensures
        crop_pair_of(a + "+"@ + b) == Some((a, b)),
{
    reveal_strlit("+");
    let ps = seq![a, b];
    assert(a + "+"@ + b =~= join(ps, '+')) by {
        assert(ps.drop_last() =~= seq![a]);
        assert("+"@ =~= seq!['+']);
        assert(join(seq![a], '+') == a);
        assert(ps.last() == b);
        assert(join(ps, '+') == a.push('+') + b);
    }
    assert forall|i: int| 0 <= i < 2 implies !(#[trigger] ps[i]).contains('+') by {
        if i == 0 {
            assert(ps[i] == a);
        } else {
            assert(ps[i] == b);
        }
    }
    lemma_split_join(ps, '+');
}

/// The vision server's detection URL for two crops.
pub fn detect_url(crop1: &str, crop2: &str) -> (u: String)
    ensures
        u@ == "http://192.168.1.235:3001/detect?index=2&crop1="@ + crop1@ + "&crop2="@ + crop2@,
{
    let mut s = string_from("http://192.168.1.235:3001/detect?index=2&crop1=");
    append(&mut s, crop1);
    append(&mut s, "&crop2=");
    append(&mut s, crop2);
    s
}

/// The camera's capture URL: `{cam_url}/capture`.
pub fn capture_url(cam_url: &str) -> (u: String)
    ensures
        u@ == cam_url@ + "/capture"@,
{
    let mut s = string_from(cam_url);
    append(&mut s, "/capture");
    s
}

/// The crop pair a detection request uses: each crop from the request, else
/// its default; a crop with neither is refused with a message naming it.
pub open spec fn requested_crops(
    crop1: Option<Seq<char>>,
    crop2: Option<Seq<char>>,
    default1: Option<Seq<char>>,
    default2: Option<Seq<char>>,
) -> Result<Seq<char>, Seq<char>> {
    let c1 = if crop1 is Some { crop1 } else { default1 };
    let c2 = if crop2 is Some { crop2 } else { default2 };
    match (c1, c2) {
        (None, _) => Err("Missing `crop1` query param and DEFAULT_CROP1 env var is not set"@),
        (Some(_), None) => Err("Missing `crop2` query param and DEFAULT_CROP2 env var is not set"@),
        (Some(a), Some(b)) => Ok(a + "+"@ + b),
    }
}

/// The views of an optional text.
pub open spec fn opt_view(o: Option<String>) -> Option<Seq<char>> {
    match o {
        Some(s) => Some(s@),
        None => None,
    }
}

/// The crop pair of a detection request, with the server's defaults. The
/// server answers an `Err` with status 400 and its message.
pub fn resolve_crop_pair(
    crop1: Option<String>,
    crop2: Option<String>,
    default1: &Option<String>,
    default2: &Option<String>,
) -> (r: Result<String, String>)
    ensures
        match requested_crops(opt_view(crop1), opt_view(crop2), opt_view(*default1), opt_view(*default2)) {
            Ok(s) => r matches Ok(t) && t@ == s,
            Err(e) => r matches Err(m) && m@ == e,
        },
{
    let c1: Option<String> = match crop1 {
        Some(c) => Some(c),
        None => match default1 {
            Some(d) => Some(d.clone()),
            None => None,
        },
    };
    let c1 = match c1 {
        Some(c) => c,
        None => {
            return Err(string_from("Missing `crop1` query param and DEFAULT_CROP1 env var is not set"));
        },
    };
    let c2: Option<String> = match crop2 {
        Some(c) => Some(c),
        None => match default2 {
            Some(d) => Some(d.clone()),
            None => None,
        },
    };
    let c2 = match c2 {
        Some(c) => c,
        None => {
            return Err(string_from("Missing `crop2` query param and DEFAULT_CROP2 env var is not set"));
        },
    };
    Ok(join_crop_pair(c1.as_str(), c2.as_str()))
}

} // verus!
