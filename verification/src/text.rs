//! Character-level text handling shared by the crop codec and the wire formats:
//! splitting on a separator, trimming Unicode white space, decimal rendering
//! and parsing of `u32` values with the standard library's rules.
use vstd::prelude::*;

verus! {

broadcast use vstd::string::group_string_axioms;

// ---------------------------------------------------------------------------
// Specifications
// ---------------------------------------------------------------------------

/// Unicode `White_Space`, as `char::is_whitespace` defines it.
pub open spec fn is_ws(c: char) -> bool {
    ||| c == '\t' || c == '\n' || c == '\u{0B}' || c == '\u{0C}' || c == '\r' || c == ' '
    ||| c == '\u{85}' || c == '\u{A0}' || c == '\u{1680}'
    ||| ('\u{2000}' <= c && c <= '\u{200A}')
    ||| c == '\u{2028}' || c == '\u{2029}' || c == '\u{202F}' || c == '\u{205F}'
    ||| c == '\u{3000}'
}

/// `s` with its leading white space removed.
pub open spec fn trim_start(s: Seq<char>) -> Seq<char>
    decreases s.len(),
{
    if s.len() > 0 && is_ws(s[0]) {
        trim_start(s.drop_first())
    } else {
        s
    }
}

/// `s` with its trailing white space removed.
pub open spec fn trim_end(s: Seq<char>) -> Seq<char>
    decreases s.len(),
{
    if s.len() > 0 && is_ws(s.last()) {
        trim_end(s.drop_last())
    } else {
        s
    }
}

/// `str::trim`: white space removed at both ends.
pub open spec fn trim(s: Seq<char>) -> Seq<char> {
    trim_end(trim_start(s))
}

/// `str::split(sep)`: the pieces of `s` between occurrences of `sep`, in order.
/// There is always at least one piece; `sep` occurs in none of them.
pub open spec fn split(s: Seq<char>, sep: char) -> Seq<Seq<char>>
    decreases s.len(),
{
    if s.len() == 0 {
        seq![Seq::<char>::empty()]
    } else {
        let r = split(s.drop_last(), sep);
        if s.last() == sep {
            r.push(Seq::<char>::empty())
        } else {
            r.update(r.len() - 1, r.last().push(s.last()))
        }
    }
}

/// The pieces joined into one text, `sep` between each two neighbours.
pub open spec fn join(pieces: Seq<Seq<char>>, sep: char) -> Seq<char>
    decreases pieces.len(),
{
    if pieces.len() == 0 {
        Seq::<char>::empty()
    } else if pieces.len() == 1 {
        pieces[0]
    } else {
        join(pieces.drop_last(), sep).push(sep) + pieces.last()
    }
}

/// The texts held by a sequence of character vectors.
pub open spec fn views(v: Seq<Vec<char>>) -> Seq<Seq<char>> {
    v.map_values(|x: Vec<char>| x@)
}

pub open spec fn is_digit(c: char) -> bool {
    '0' <= c && c <= '9'
}

pub open spec fn digit_value(c: char) -> int {
    (c as int) - ('0' as int)
}

pub open spec fn digit_char(d: nat) -> char
    recommends
        d < 10,
{
    ((d + ('0' as int)) as u32) as char
}

/// The decimal rendering of `n`, without sign or leading zeros (`"0"` for zero).
pub open spec fn dec(n: nat) -> Seq<char>
    decreases n,
{
    if n < 10 {
        seq![digit_char(n)]
    } else {
        dec(n / 10).push(digit_char(n % 10))
    }
}

/// Why a text is not a `u32`; the kinds of `core::num::ParseIntError`
/// that parsing an unsigned integer can give.
#[derive(Debug, Clone, Copy, PartialEq, Eq)]
pub enum ParseErrorKind {
    Empty,
    InvalidDigit,
    PosOverflow,
}

/// The value of a run of decimal digits, scanned from the left as the standard
/// library does: the first character that is not a digit, or the first prefix
/// whose value exceeds `u32::MAX`, decides the error.
pub open spec fn parse_digits(s: Seq<char>) -> Result<nat, ParseErrorKind>
    decreases s.len(),
{
    if s.len() == 0 {
        Ok(0nat)
    } else {
        match parse_digits(s.drop_last()) {
            Err(e) => Err(e),
            Ok(v) => if !is_digit(s.last()) {
                Err(ParseErrorKind::InvalidDigit)
            } else if v * 10 + digit_value(s.last()) > u32::MAX {
                Err(ParseErrorKind::PosOverflow)
            } else {
                Ok((v * 10 + digit_value(s.last())) as nat)
            },
        }
    }
}

/// `str::parse::<u32>`: an optional `+` followed by decimal digits.
pub open spec fn parse_u32(s: Seq<char>) -> Result<u32, ParseErrorKind> {
    if s.len() == 0 {
        Err(ParseErrorKind::Empty)
    } else if s.len() == 1 && (s[0] == '+' || s[0] == '-') {
        Err(ParseErrorKind::InvalidDigit)
    } else {
        let digits = if s[0] == '+' { s.drop_first() } else { s };
        match parse_digits(digits) {
            Ok(v) => Ok(v as u32),
            Err(e) => Err(e),
        }
    }
}

/// The message of a `ParseIntError` of the given kind, as its `Display` writes it.
pub open spec fn parse_error_message(k: ParseErrorKind) -> Seq<char> {
    match k {
        ParseErrorKind::Empty => "cannot parse integer from empty string"@,
        ParseErrorKind::InvalidDigit => "invalid digit found in string"@,
        ParseErrorKind::PosOverflow => "number too large to fit in target type"@,
    }
}

// ---------------------------------------------------------------------------
// Lemmas
// ---------------------------------------------------------------------------

pub proof fn lemma_split_nonempty(s: Seq<char>, sep: char)
    ensures
        split(s, sep).len() >= 1,
    decreases s.len(),
{
    if s.len() > 0 {
        lemma_split_nonempty(s.drop_last(), sep);
    }
}

/// Appending text without the separator only lengthens the last piece.
pub proof fn lemma_split_extend(s: Seq<char>, t: Seq<char>, sep: char)
    requires
        !t.contains(sep),
    ensures
        split(s + t, sep) == split(s, sep).update(
            split(s, sep).len() - 1,
            split(s, sep).last() + t,
        ),
    decreases t.len(),
{
    lemma_split_nonempty(s, sep);
    if t.len() == 0 {
        assert(s + t =~= s);
        assert(split(s, sep).last() + t =~= split(s, sep).last());
        assert(split(s, sep).update(split(s, sep).len() - 1, split(s, sep).last())
            =~= split(s, sep));
    } else {
        let t0 = t.drop_last();
        assert(!t0.contains(sep)) by {
            if t0.contains(sep) {
                let i = choose|i: int| 0 <= i < t0.len() && t0[i] == sep;
                assert(t[i] == sep);
            }
        }
        lemma_split_extend(s, t0, sep);
        assert((s + t).drop_last() =~= s + t0);
        assert((s + t).last() == t.last());
        assert(t.last() != sep) by {
            assert(t[t.len() - 1] == t.last());
        }
        lemma_split_nonempty(s + t0, sep);
        assert(split(s, sep).last() + t0 + seq![t.last()] =~= split(s, sep).last() + t);
        assert((split(s, sep).last() + t0).push(t.last()) =~= split(s, sep).last() + t);
    }
}

/// A text without the separator is a single piece.
pub proof fn lemma_split_plain(t: Seq<char>, sep: char)
    requires
        !t.contains(sep),
    ensures
        split(t, sep) == seq![t],
{
    lemma_split_extend(Seq::<char>::empty(), t, sep);
    assert(Seq::<char>::empty() + t =~= t);
    assert(split(Seq::<char>::empty(), sep) =~= seq![Seq::<char>::empty()]);
    assert(Seq::<char>::empty() + t =~= t);
    assert(seq![Seq::<char>::empty()].update(0, Seq::<char>::empty() + t) =~= seq![t]);
}

/// Splitting undoes joining when no piece holds the separator.
pub proof fn lemma_split_join(pieces: Seq<Seq<char>>, sep: char)
    requires
        pieces.len() >= 1,
        forall|i: int| 0 <= i < pieces.len() ==> !(#[trigger] pieces[i]).contains(sep),
    ensures
        split(join(pieces, sep), sep) == pieces,
    decreases pieces.len(),
{
    if pieces.len() == 1 {
        lemma_split_plain(pieces[0], sep);
        assert(seq![pieces[0]] =~= pieces);
    } else {
        let front = pieces.drop_last();
        assert forall|i: int| 0 <= i < front.len() implies !(#[trigger] front[i]).contains(sep) by {
            assert(front[i] == pieces[i]);
        }
        lemma_split_join(front, sep);
        let j = join(front, sep).push(sep);
        assert(j.drop_last() =~= join(front, sep));
        assert(split(j, sep) == front.push(Seq::<char>::empty()));
        assert(!pieces.last().contains(sep)) by {
            assert(pieces[pieces.len() - 1] == pieces.last());
        }
        lemma_split_extend(j, pieces.last(), sep);
        assert(Seq::<char>::empty() + pieces.last() =~= pieces.last());
        assert(front.push(Seq::<char>::empty()).update(front.len() as int, pieces.last())
            =~= pieces);
    }
}

pub proof fn lemma_digit_char(d: nat)
    requires
        d < 10,
    ensures
        is_digit(digit_char(d)),
        digit_value(digit_char(d)) == d,
        !is_ws(digit_char(d)),
        digit_char(d) != '+',
        digit_char(d) != '-',
        digit_char(d) != ',',
{
}

pub proof fn lemma_dec_facts(n: nat)
    ensures
        dec(n).len() >= 1,
        forall|i: int| 0 <= i < dec(n).len() ==> is_digit(#[trigger] dec(n)[i]),
        forall|i: int| 0 <= i < dec(n).len() ==> !is_ws(#[trigger] dec(n)[i]),
        !dec(n).contains('+'),
        !dec(n).contains(','),
        !dec(n).contains('-'),
    decreases n,
{
    if n < 10 {
        lemma_digit_char(n);
    } else {
        lemma_dec_facts(n / 10);
        lemma_digit_char(n % 10);
    }
    assert forall|i: int| 0 <= i < dec(n).len() implies !is_ws(#[trigger] dec(n)[i]) by {
        assert(is_digit(dec(n)[i]));
    }
    assert(!dec(n).contains('+')) by {
        if dec(n).contains('+') {
            let i = choose|i: int| 0 <= i < dec(n).len() && dec(n)[i] == '+';
            assert(is_digit(dec(n)[i]));
        }
    }
    assert(!dec(n).contains(',')) by {
        if dec(n).contains(',') {
            let i = choose|i: int| 0 <= i < dec(n).len() && dec(n)[i] == ',';
            assert(is_digit(dec(n)[i]));
        }
    }
    assert(!dec(n).contains('-')) by {
        if dec(n).contains('-') {
            let i = choose|i: int| 0 <= i < dec(n).len() && dec(n)[i] == '-';
            assert(is_digit(dec(n)[i]));
        }
    }
}

/// Parsing reads back a decimal rendering.
pub proof fn lemma_parse_dec(n: u32)
    ensures
        parse_digits(dec(n as nat)) == Ok::<nat, ParseErrorKind>(n as nat),
        parse_u32(dec(n as nat)) == Ok::<u32, ParseErrorKind>(n),
    decreases n,
{
    lemma_dec_facts(n as nat);
    if n < 10 {
        lemma_digit_char(n as nat);
        let s = dec(n as nat);
        assert(s.drop_last() =~= Seq::<char>::empty());
        assert(parse_digits(s.drop_last()) == Ok::<nat, ParseErrorKind>(0nat));
    } else {
        lemma_parse_dec(n / 10);
        lemma_digit_char((n % 10) as nat);
        let s = dec(n as nat);
        assert(s.drop_last() =~= dec((n / 10) as nat));
        assert(s.last() == digit_char((n % 10) as nat));
        assert((n / 10) as int * 10 + (n % 10) as int == n as int) by (nonlinear_arith);
    }
    let s = dec(n as nat);
    assert(is_digit(s[0]));
    assert(s[0] != '+' && s[0] != '-');
}

/// Text that starts and ends with a character other than white space is its own trim.
pub proof fn lemma_trim_solid(s: Seq<char>)
    requires
        s.len() >= 1,
        !is_ws(s[0]),
        !is_ws(s.last()),
    ensures
        trim(s) == s,
{
}

/// Once a prefix fails to parse, the whole run fails the same way.
pub proof fn lemma_parse_digits_prefix_err(s: Seq<char>, k: int)
    requires
        0 <= k <= s.len(),
        parse_digits(s.take(k)) is Err,
    ensures
        parse_digits(s) == parse_digits(s.take(k)),
    decreases s.len() - k,
{
    if k < s.len() {
        assert(s.take(k + 1).drop_last() =~= s.take(k));
        lemma_parse_digits_prefix_err(s, k + 1);
    } else {
        assert(s.take(k) =~= s);
    }
}

// ---------------------------------------------------------------------------
// Executable functions
// ---------------------------------------------------------------------------

/// Appends a character to a `String` (`String::push`).
#[verifier::external_body]
pub(crate) fn push_char(s: &mut String, c: char)
    ensures
        final(s)@ == old(s)@.push(c),
{
    s.push(c)
}

/// The characters of `s`, in order.
pub fn chars_of(s: &str) -> (v: Vec<char>)
    ensures
        v@ == s@,
{
    let mut v: Vec<char> = Vec::new();
    for c in it: s.chars()
        invariant
            it.seq() == s@,
            v@ == it.seq().take(it.index() as int),
    {
        v.push(c);
    }
    assert(v@ =~= s@);
    v
}

/// A `String` holding the given characters.
pub fn string_of(v: &Vec<char>) -> (s: String)
    ensures
        s@ == v@,
{
    let mut s = String::new();
    let mut i: usize = 0;
    while i < v.len()
        invariant
            i <= v.len(),
            s@ == v@.take(i as int),
        decreases v.len() - i,
    {
        push_char(&mut s, v[i]);
        i = i + 1;
        assert(s@ =~= v@.take(i as int));
    }
    assert(v@.take(v.len() as int) =~= v@);
    s
}

pub fn is_whitespace(c: char) -> (b: bool)
    ensures
        b == is_ws(c),
{
    c == '\t' || c == '\n' || c == '\u{0B}' || c == '\u{0C}' || c == '\r' || c == ' '
        || c == '\u{85}' || c == '\u{A0}' || c == '\u{1680}' || ('\u{2000}' <= c && c
        <= '\u{200A}') || c == '\u{2028}' || c == '\u{2029}' || c == '\u{202F}' || c
        == '\u{205F}' || c == '\u{3000}'
}

/// `str::trim` on a character sequence.
pub fn trim_chars(s: &Vec<char>) -> (r: Vec<char>)
    ensures
        r@ == trim(s@),
{
    let mut lo: usize = 0;
    assert(s@.subrange(0, s@.len() as int) =~= s@);
    while lo < s.len() && is_whitespace(s[lo])
        invariant
            lo <= s.len(),
            trim_start(s@) == trim_start(s@.subrange(lo as int, s@.len() as int)),
        decreases s.len() - lo,
    {
        assert(s@.subrange(lo as int, s@.len() as int).drop_first()
            =~= s@.subrange(lo as int + 1, s@.len() as int));
        lo = lo + 1;
    }
    let ghost mid = s@.subrange(lo as int, s@.len() as int);
    assert(trim_start(mid) == mid);
    let mut hi: usize = s.len();
    while hi > lo && is_whitespace(s[hi - 1])
        invariant
            lo <= hi <= s.len(),
            mid == s@.subrange(lo as int, s@.len() as int),
            trim_end(mid) == trim_end(s@.subrange(lo as int, hi as int)),
        decreases hi - lo,
    {
        assert(s@.subrange(lo as int, hi as int).drop_last()
            =~= s@.subrange(lo as int, hi as int - 1));
        hi = hi - 1;
    }
    let mut r: Vec<char> = Vec::new();
    let mut i: usize = lo;
    while i < hi
        invariant
            lo <= i <= hi <= s.len(),
            r@ == s@.subrange(lo as int, i as int),
        decreases hi - i,
    {
        r.push(s[i]);
        i = i + 1;
        assert(r@ =~= s@.subrange(lo as int, i as int));
    }
    r
}

/// `str::split(sep)` on a character sequence.
pub fn split_chars(s: &Vec<char>, sep: char) -> (r: Vec<Vec<char>>)
    ensures
        views(r@) == split(s@, sep),
{
    let mut done: Vec<Vec<char>> = Vec::new();
    let mut cur: Vec<char> = Vec::new();
    let mut i: usize = 0;
    while i < s.len()
        invariant
            i <= s.len(),
            views(done@).push(cur@) == split(s@.take(i as int), sep),
        decreases s.len() - i,
    {
        let c = s[i];
        let ghost pre = s@.take(i as int);
        assert(s@.take(i as int + 1).drop_last() =~= pre);
        assert(s@.take(i as int + 1).last() == c);
        if c == sep {
            let piece = cur;
            done.push(piece);
            cur = Vec::new();
            assert(views(done@) =~= split(pre, sep));
            assert(views(done@).push(cur@) =~= split(s@.take(i as int + 1), sep));
        } else {
            cur.push(c);
            assert(views(done@).push(cur@) =~= split(s@.take(i as int + 1), sep));
        }
        i = i + 1;
    }
    assert(s@.take(s.len() as int) =~= s@);
    let last = cur;
    done.push(last);
    assert(views(done@) =~= split(s@, sep));
    done
}

/// `str::parse::<u32>` on a character sequence.
pub fn parse_u32_chars(s: &Vec<char>) -> (r: Result<u32, ParseErrorKind>)
    ensures
        r == parse_u32(s@),
{
    let n = s.len();
    if n == 0 {
        return Err(ParseErrorKind::Empty);
    }
    if n == 1 && (s[0] == '+' || s[0] == '-') {
        return Err(ParseErrorKind::InvalidDigit);
    }
    let start: usize = if s[0] == '+' { 1 } else { 0 };
    let ghost digits = if s@[0] == '+' { s@.drop_first() } else { s@ };
    assert(digits =~= s@.subrange(start as int, n as int));
    let mut acc: u32 = 0;
    let mut i: usize = start;
    while i < n
        invariant
            start <= i <= n,
            n == s.len(),
            digits == s@.subrange(start as int, n as int),
            n >= 1,
            !(n == 1 && (s@[0] == '+' || s@[0] == '-')),
            digits == if s@[0] == '+' { s@.drop_first() } else { s@ },
            parse_digits(digits.take(i - start)) == Ok::<nat, ParseErrorKind>(acc as nat),
        decreases n - i,
    {
        let c = s[i];
        let ghost k = i - start;
        assert(digits.take(k + 1).drop_last() =~= digits.take(k));
        assert(digits.take(k + 1).last() == c);
        if !('0' <= c && c <= '9') {
            proof {
                assert(parse_digits(digits.take(k + 1)) == Err::<nat, ParseErrorKind>(
                    ParseErrorKind::InvalidDigit));
                lemma_parse_digits_prefix_err(digits, k + 1);
            }
            return Err(ParseErrorKind::InvalidDigit);
        }
        let d: u32 = (c as u32) - ('0' as u32);
        if acc > 429496729 || (acc == 429496729 && d > 5) {
            proof {
                assert(acc * 10 + d > u32::MAX) by (nonlinear_arith)
                    requires
                        acc > 429496729 || (acc == 429496729 && d > 5),
                ;
                assert(parse_digits(digits.take(k + 1)) == Err::<nat, ParseErrorKind>(
                    ParseErrorKind::PosOverflow));
                lemma_parse_digits_prefix_err(digits, k + 1);
            }
            return Err(ParseErrorKind::PosOverflow);
        }
        assert(acc * 10 + d <= u32::MAX) by (nonlinear_arith)
            requires
                !(acc > 429496729 || (acc == 429496729 && d > 5)),
                d < 10,
        ;
        acc = acc * 10 + d;
        i = i + 1;
    }
    assert(digits.take(n - start) =~= digits);
    Ok(acc)
}

/// Appends the decimal rendering of `n`.
pub fn push_dec(out: &mut String, n: u64)
    ensures
        final(out)@ == old(out)@ + dec(n as nat),
    decreases n,
{
    if n >= 10 {
        push_dec(out, n / 10);
    }
    let d = n % 10;
    let c = char_of_digit(d);
    push_char(out, c);
    proof {
        if n >= 10 {
            assert(old(out)@ + dec((n / 10) as nat) + seq![c] =~= old(out)@ + dec(n as nat));
        } else {
            assert(old(out)@ + seq![c] =~= old(out)@ + dec(n as nat));
        }
    }
}

/// The decimal digit character of `d`.
pub fn char_of_digit(d: u64) -> (c: char)
    requires
        d < 10,
    ensures
        c == digit_char(d as nat),
{
    match d {
        0 => '0',
        1 => '1',
        2 => '2',
        3 => '3',
        4 => '4',
        5 => '5',
        6 => '6',
        7 => '7',
        8 => '8',
        _ => '9',
    }
}

/// A `String` holding the given text.
pub fn string_from(s: &str) -> (r: String)
    ensures
        r@ == s@,
{
    let v = chars_of(s);
    string_of(&v)
}

/// Every character of a join is the separator or a character of some piece.
pub proof fn lemma_join_chars(pieces: Seq<Seq<char>>, sep: char, c: char)
    requires
        c != sep,
        forall|i: int| 0 <= i < pieces.len() ==> !(#[trigger] pieces[i]).contains(c),
    ensures
        !join(pieces, sep).contains(c),
    decreases pieces.len(),
{
    if pieces.len() == 1 {
        assert(!pieces[0].contains(c));
    } else if pieces.len() > 1 {
        let front = pieces.drop_last();
        assert forall|i: int| 0 <= i < front.len() implies !(#[trigger] front[i]).contains(c) by {
            assert(front[i] == pieces[i]);
        }
        lemma_join_chars(front, sep, c);
        let j = join(front, sep).push(sep) + pieces.last();
        assert(!pieces.last().contains(c)) by {
            assert(pieces[pieces.len() - 1] == pieces.last());
        }
        if j.contains(c) {
            let k = choose|k: int| 0 <= k < j.len() && j[k] == c;
            let m = join(front, sep).len();
            if k < m {
                assert(join(front, sep)[k] == c);
            } else if k == m {
                assert(j[k] == sep);
            } else {
                assert(pieces.last()[k - m - 1] == c);
            }
        }
    }
}

/// The first and last characters of a join of non-empty pieces.
pub proof fn lemma_join_ends(pieces: Seq<Seq<char>>, sep: char)
    requires
        pieces.len() >= 1,
        forall|i: int| 0 <= i < pieces.len() ==> (#[trigger] pieces[i]).len() >= 1,
    ensures
        join(pieces, sep).len() >= 1,
        join(pieces, sep)[0] == pieces[0][0],
        join(pieces, sep).last() == pieces.last().last(),
    decreases pieces.len(),
{
    if pieces.len() > 1 {
        let front = pieces.drop_last();
        assert forall|i: int| 0 <= i < front.len() implies (#[trigger] front[i]).len() >= 1 by {
            assert(front[i] == pieces[i]);
        }
        lemma_join_ends(front, sep);
        assert(pieces[pieces.len() - 1] == pieces.last());
        assert(front[0] == pieces[0]);
    }
}

} // verus!
