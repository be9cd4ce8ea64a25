use vstd::prelude::*;
use crate::errors::LookupError;

verus! {

/// The first position at or after `from` where `b` occurs in `s`, or
/// `s.len()` if it does not occur there.
pub open spec fn find_byte(s: Seq<u8>, b: u8, from: int) -> int
    recommends
        0 <= from <= s.len(),
    decreases s.len() - from when 0 <= from
{
    if from >= s.len() {
        s.len() as int
    } else if s[from] == b {
        from
    } else {
        find_byte(s, b, from + 1)
    }
}

pub proof fn lemma_find_byte_props(s: Seq<u8>, b: u8, from: int)
    requires
        0 <= from <= s.len(),
    ensures
        from <= find_byte(s, b, from) <= s.len(),
        find_byte(s, b, from) < s.len() ==> s[find_byte(s, b, from)] == b,
        forall|j: int| from <= j < find_byte(s, b, from) ==> s[j] != b,
    decreases s.len() - from,
{
    if from < s.len() && s[from] != b {
        lemma_find_byte_props(s, b, from + 1);
    }
}

pub proof fn lemma_find_byte_unique(s: Seq<u8>, b: u8, from: int, e: int)
    requires
        0 <= from <= e <= s.len(),
        forall|j: int| from <= j < e ==> s[j] != b,
        e < s.len() ==> s[e] == b,
    ensures
        find_byte(s, b, from) == e,
    decreases e - from,
{
    if from < e {
        lemma_find_byte_unique(s, b, from + 1, e);
    }
}

/// A line as delimited by `\n`, with one trailing `\r` dropped.
pub open spec fn strip_cr(l: Seq<u8>) -> Seq<u8> {
    if l.len() > 0 && l.last() == 0x0Du8 {
        l.drop_last()
    } else {
        l
    }
}

/// ASCII uppercase folding of one byte: `a-z` maps to `A-Z`.
pub open spec fn upper_byte(b: u8) -> u8 {
    if 0x61 <= b <= 0x7A {
        (b - 0x20) as u8
    } else {
        b
    }
}

/// ASCII uppercase folding of a byte string.
pub open spec fn upper_of(s: Seq<u8>) -> Seq<u8> {
    s.map_values(|b: u8| upper_byte(b))
}

/// Case-insensitive equality of two hexadecimal byte strings.
pub open spec fn hex_eq_ci(a: Seq<u8>, b: Seq<u8>) -> bool {
    upper_of(a) == upper_of(b)
}

/// The position of the first `:` in a line, or the line's length if none.
pub open spec fn first_colon(l: Seq<u8>) -> int {
    find_byte(l, 0x3Au8, 0)
}

/// Whether a line holds a `:` separator at all.
pub open spec fn has_colon(l: Seq<u8>) -> bool {
    first_colon(l) < l.len()
}

/// The part of a line before its first `:`: a candidate hash suffix.
pub open spec fn suffix_part(l: Seq<u8>) -> Seq<u8> {
    l.subrange(0, first_colon(l))
}

/// The part of a line after its first `:`: the decimal occurrence count.
pub open spec fn count_part(l: Seq<u8>) -> Seq<u8>
    recommends
        has_colon(l),
{
    l.subrange(first_colon(l) + 1, l.len() as int)
}

/// Whether a line names the queried suffix: it splits on `:` and its suffix
/// part equals the queried suffix up to hexadecimal case.
pub open spec fn line_matches(l: Seq<u8>, suffix: Seq<u8>) -> bool {
    has_colon(l) && hex_eq_ci(suffix_part(l), suffix)
}

/// Whether a byte is a decimal ASCII digit.
pub open spec fn is_dec_digit(b: u8) -> bool {
    0x30 <= b <= 0x39
}

pub open spec fn all_dec_digits(s: Seq<u8>) -> bool {
    forall|i: int| 0 <= i < s.len() ==> is_dec_digit(#[trigger] s[i])
}

/// The numeric value of a decimal digit string.
pub open spec fn dec_value(s: Seq<u8>) -> nat
    recommends
        all_dec_digits(s),
    decreases s.len(),
{
    if s.len() == 0 {
        0
    } else {
        (dec_value(s.drop_last()) * 10 + (s.last() - 0x30)) as nat
    }
}

/// Whether a count segment is a well-formed non-negative decimal integer
/// that fits the result type.
pub open spec fn count_parses(s: Seq<u8>) -> bool {
    s.len() > 0 && all_dec_digits(s) && dec_value(s) <= u32::MAX
}

/// The outcome of the line that names the queried suffix: its count, or a
/// parse error when the count segment is not a valid number.
pub open spec fn line_result(l: Seq<u8>) -> Result<u32, LookupError>
    recommends
        has_colon(l),
{
    if count_parses(count_part(l)) {
        Ok(dec_value(count_part(l)) as u32)
    } else {
        Err(LookupError::ParseError)
    }
}

/// The scan over a list of lines: the first line that names the queried
/// suffix decides the result; when no line does, the count is 0.
pub open spec fn scan_lines(ls: Seq<Seq<u8>>, suffix: Seq<u8>) -> Result<u32, LookupError>
    decreases ls.len(),
{
    if ls.len() == 0 {
        Ok(0)
    } else if line_matches(strip_cr(ls[0]), suffix) {
        line_result(strip_cr(ls[0]))
    } else {
        scan_lines(ls.drop_first(), suffix)
    }
}

/// The lines of `s` from position `from` on, split on `\n`.
pub open spec fn lines_from(s: Seq<u8>, from: int) -> Seq<Seq<u8>>
    recommends
        0 <= from,
    decreases s.len() + 1 - from when 0 <= from via lines_from_dec
{
    if from > s.len() {
        Seq::empty()
    } else {
        seq![s.subrange(from, find_byte(s, 0x0Au8, from))]
            + lines_from(s, find_byte(s, 0x0Au8, from) + 1)
    }
}

#[via_fn]
proof fn lines_from_dec(s: Seq<u8>, from: int) {
    if from <= s.len() {
        lemma_find_byte_props(s, 0x0Au8, from);
    }
}

/// The lines of a response body.
pub open spec fn body_lines(s: Seq<u8>) -> Seq<Seq<u8>> {
    lines_from(s, 0)
}

/// The result of scanning a response body for a hash suffix.
pub open spec fn spec_count_for_suffix(body: Seq<u8>, suffix: Seq<u8>) -> Result<u32, LookupError> {
    scan_lines(body_lines(body), suffix)
}


/// A prefix of a digit string never exceeds the whole string's value.
pub proof fn lemma_dec_value_prefix_le(s: Seq<u8>, k: int)
    requires
        0 <= k <= s.len(),
        all_dec_digits(s),
    ensures
        dec_value(s.subrange(0, k)) <= dec_value(s),
    decreases s.len() - k,
{
    if k == s.len() {
        assert(s.subrange(0, k) =~= s);
    } else {
        let p = s.subrange(0, k);
        let q = s.subrange(0, k + 1);
        assert(q.drop_last() =~= p);
        assert(dec_value(q) == dec_value(p) * 10 + (s[k] - 0x30));
        lemma_dec_value_prefix_le(s, k + 1);
    }
}

/// Finds the first occurrence of `b` in `s` at or after `from`.
fn find_byte_from(s: &[u8], b: u8, from: usize) -> (r: usize)
    requires
        from <= s@.len(),
    ensures
        r == find_byte(s@, b, from as int),
{
    let n = s.len();
    let mut j = from;
    while j < n
        invariant
            from <= j <= n,
            n == s@.len(),
            forall|k: int| from <= k < j ==> s@[k] != b,
        decreases n - j,
    {
        if s[j] == b {
            proof {
                lemma_find_byte_unique(s@, b, from as int, j as int);
            }
            return j;
        }
        j = j + 1;
    }
    proof {
        lemma_find_byte_unique(s@, b, from as int, n as int);
    }
    n
}

/// Folds one byte to ASCII uppercase.
fn upper_byte_of(b: u8) -> (r: u8)
    ensures
        r == upper_byte(b),
{
    if 0x61 <= b && b <= 0x7A {
        b - 0x20
    } else {
        b
    }
}

/// Compares two byte strings for equality up to ASCII case.
fn bytes_eq_ci(a: &[u8], b: &[u8]) -> (r: bool)
    ensures
        r == hex_eq_ci(a@, b@),
{
    let n = a.len();
    if n != b.len() {
        proof {
            assert(upper_of(a@).len() != upper_of(b@).len());
        }
        return false;
    }
    let mut i: usize = 0;
    while i < n
        invariant
            0 <= i <= n,
            n == a@.len() && n == b@.len(),
            forall|k: int| 0 <= k < i ==> upper_of(a@)[k] == upper_of(b@)[k],
        decreases n - i,
    {
        let ua = upper_byte_of(a[i]);
        let ub = upper_byte_of(b[i]);
        if ua != ub {
            proof {
                assert(upper_of(a@)[i as int] != upper_of(b@)[i as int]);
            }
            return false;
        }
        i = i + 1;
    }
    proof {
        assert(upper_of(a@) =~= upper_of(b@));
    }
    true
}

/// Parses a decimal count segment. Returns the value exactly when the
/// segment is non-empty, all digits, and fits a `u32`.
fn parse_count(s: &[u8]) -> (r: Option<u32>)
    ensures
        count_parses(s@) ==> r == Some(dec_value(s@) as u32),
        !count_parses(s@) ==> r == None::<u32>,
{
    let n = s.len();
    if n == 0 {
        return None;
    }
    let mut acc: u64 = 0;
    let mut i: usize = 0;
    while i < n
        invariant
            0 <= i <= n,
            n == s@.len(),
            all_dec_digits(s@.subrange(0, i as int)),
            acc == dec_value(s@.subrange(0, i as int)),
            acc <= u32::MAX,
        decreases n - i,
    {
        let b = s[i];
        if b < 0x30 || b > 0x39 {
            proof {
                assert(!is_dec_digit(s@[i as int]));
            }
            return None;
        }
        proof {
            let p = s@.subrange(0, i as int);
            let q = s@.subrange(0, i + 1);
            assert(q.drop_last() =~= p);
            assert(forall|k: int| 0 <= k < q.len() ==> is_dec_digit(#[trigger] q[k]));
        }
        let next: u64 = acc * 10 + ((b - 0x30) as u64);
        if next > 0xFFFF_FFFF {
            proof {
                if all_dec_digits(s@) {
                    lemma_dec_value_prefix_le(s@, i + 1);
                }
            }
            return None;
        }
        acc = next;
        i = i + 1;
    }
    proof {
        assert(s@.subrange(0, n as int) =~= s@);
    }
    Some(acc as u32)
}

/// Holds one line against the queried suffix: `None` when the line does not
/// name the suffix; otherwise the parsed count, or `Some(None)` when the
/// count segment is malformed.
fn match_line(line: &[u8], suffix: &[u8]) -> (r: Option<Option<u32>>)
    ensures
        !line_matches(line@, suffix@) ==> r == None::<Option<u32>>,
        line_matches(line@, suffix@) && count_parses(count_part(line@)) ==> r == Some(
            Some(dec_value(count_part(line@)) as u32),
        ),
        line_matches(line@, suffix@) && !count_parses(count_part(line@)) ==> r == Some(
            None::<u32>,
        ),
{
    let n = line.len();
    let ci = find_byte_from(line, 0x3A, 0);
    proof {
        lemma_find_byte_props(line@, 0x3Au8, 0);
    }
    if ci == n {
        return None;
    }
    let sp = vstd::slice::slice_subrange(line, 0, ci);
    if !bytes_eq_ci(sp, suffix) {
        return None;
    }
    let cp = vstd::slice::slice_subrange(line, ci + 1, n);
    match parse_count(cp) {
        Some(c) => Some(Some(c)),
        None => Some(None),
    }
}

/// Scans a response body, line by line, for the queried hash suffix.
///
/// The body is a sequence of `\n`-separated lines of the form
/// `SUFFIX:COUNT`; a trailing `\r` on a line is tolerated. The first line
/// whose suffix equals `suffix` up to hexadecimal case decides the result:
/// its decimal count, or a parse error when that count is malformed. Lines
/// that do not name the suffix, well-formed or not, are skipped. When no
/// line names the suffix, the password is not in the corpus and the count
/// is 0.
pub fn count_for_suffix(body: &[u8], suffix: &[u8]) -> (r: Result<u32, LookupError>)
    ensures
        r == spec_count_for_suffix(body@, suffix@),
{
    let n = body.len();
    let mut pos: usize = 0;
    while pos <= n
        invariant
            0 <= pos <= n + 1,
            n == body@.len(),
            scan_lines(lines_from(body@, pos as int), suffix@) == spec_count_for_suffix(
                body@,
                suffix@,
            ),
        decreases n + 1 - pos,
    {
        let e = find_byte_from(body, 0x0A, pos);
        proof {
            lemma_find_byte_props(body@, 0x0Au8, pos as int);
        }
        let lend = if e > pos && body[e - 1] == 0x0D {
            e - 1
        } else {
            e
        };
        let line = vstd::slice::slice_subrange(body, pos, lend);
        proof {
            let raw = body@.subrange(pos as int, e as int);
            assert(strip_cr(raw) =~= body@.subrange(pos as int, lend as int));
            let ls = lines_from(body@, pos as int);
            assert(ls == seq![raw] + lines_from(body@, e + 1));
            assert(ls[0] == raw);
            assert(ls.drop_first() =~= lines_from(body@, e + 1));
        }
        match match_line(line, suffix) {
            Some(Some(c)) => {
                return Ok(c);
            },
            Some(None) => {
                return Err(LookupError::ParseError);
            },
            None => {
                if e == n {
                    proof {
                        let raw = body@.subrange(pos as int, e as int);
                        let ls = lines_from(body@, pos as int);
                        assert(ls == seq![raw] + lines_from(body@, e + 1));
                        assert(strip_cr(ls[0]) == line@);
                        assert(!line_matches(strip_cr(ls[0]), suffix@));
                        assert(scan_lines(ls, suffix@) == scan_lines(ls.drop_first(), suffix@));
                        assert(ls.drop_first() =~= lines_from(body@, e + 1));
                        assert(lines_from(body@, e + 1) =~= Seq::<Seq<u8>>::empty());
                        assert(scan_lines(ls.drop_first(), suffix@) == Ok::<u32, LookupError>(0));
                    }
                    return Ok(0);
                }
                pos = e + 1;
            },
        }
    }
    proof {
        assert(lines_from(body@, pos as int) =~= Seq::<Seq<u8>>::empty());
    }
    Ok(0)
}

} // verus!
