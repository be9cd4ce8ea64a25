use vstd::prelude::*;
use crate::errors::LookupError;
use crate::response::{
    body_lines, line_matches, line_result, scan_lines, spec_count_for_suffix, strip_cr,
};
use crate::lookup::spec_lookup_outcome;

verus! {

/// The index of the first line that names the queried suffix, or the number
/// of lines when none does.
pub open spec fn first_match(ls: Seq<Seq<u8>>, suffix: Seq<u8>) -> int
    decreases ls.len(),
{
    if ls.len() == 0 {
        0
    } else if line_matches(strip_cr(ls[0]), suffix) {
        0
    } else {
        1 + first_match(ls.drop_first(), suffix)
    }
}

pub proof fn lemma_scan_is_first_match(ls: Seq<Seq<u8>>, suffix: Seq<u8>)
    ensures
        0 <= first_match(ls, suffix) <= ls.len(),
        forall|i: int|
            0 <= i < first_match(ls, suffix) ==> !line_matches(strip_cr(#[trigger] ls[i]), suffix),
        first_match(ls, suffix) == ls.len() ==> scan_lines(ls, suffix) == Ok::<u32, LookupError>(0),
        first_match(ls, suffix) < ls.len() ==> line_matches(
            strip_cr(ls[first_match(ls, suffix)]),
            suffix,
        ) && scan_lines(ls, suffix) == line_result(strip_cr(ls[first_match(ls, suffix)])),
    decreases ls.len(),
{
    if ls.len() > 0 && !line_matches(strip_cr(ls[0]), suffix) {
        let rest = ls.drop_first();
        lemma_scan_is_first_match(rest, suffix);
        let k = first_match(ls, suffix);
        assert forall|i: int| 0 <= i < k implies !line_matches(
            strip_cr(#[trigger] ls[i]),
            suffix,
        ) by {
            if i > 0 {
                assert(ls[i] == rest[i - 1]);
            }
        }
        if k < ls.len() {
            assert(ls[k] == rest[k - 1]);
        }
    }
}

/// Law: on a well-formed body, the scan returns the count on the line whose
/// suffix part case-insensitively equals the computed suffix — the first
/// such line — or 0 when no line matches.
pub proof fn lemma_count_is_first_matching_line(body: Seq<u8>, suffix: Seq<u8>)
    ensures
        0 <= first_match(body_lines(body), suffix) <= body_lines(body).len(),
        forall|i: int|
            0 <= i < first_match(body_lines(body), suffix) ==> !line_matches(
                strip_cr(#[trigger] body_lines(body)[i]),
                suffix,
            ),
        first_match(body_lines(body), suffix) == body_lines(body).len() ==> spec_count_for_suffix(
            body,
            suffix,
        ) == Ok::<u32, LookupError>(0),
        first_match(body_lines(body), suffix) < body_lines(body).len() ==> line_matches(
            strip_cr(body_lines(body)[first_match(body_lines(body), suffix)]),
            suffix,
        ) && spec_count_for_suffix(body, suffix) == line_result(
            strip_cr(body_lines(body)[first_match(body_lines(body), suffix)]),
        ),
{
    lemma_scan_is_first_match(body_lines(body), suffix);
}

/// Law: when a body holds several lines naming the same suffix, the first
/// occurrence decides the result; the scan never errors on the duplication
/// itself.
pub proof fn lemma_duplicate_suffix_first_wins(body: Seq<u8>, suffix: Seq<u8>, j: int)
    requires
        0 <= j < body_lines(body).len(),
        line_matches(strip_cr(body_lines(body)[j]), suffix),
    ensures
        first_match(body_lines(body), suffix) <= j,
        spec_count_for_suffix(body, suffix) == line_result(
            strip_cr(body_lines(body)[first_match(body_lines(body), suffix)]),
        ),
{
    lemma_scan_is_first_match(body_lines(body), suffix);
}

/// Law: a lookup is a pure function of the password and the corpus response:
/// re-issuing the same query against an unchanged response yields the same
/// result.
pub proof fn lemma_lookup_repeatable(
    password: Seq<u8>,
    status: u16,
    body: Seq<u8>,
    r1: Result<u32, LookupError>,
    r2: Result<u32, LookupError>,
)
    requires
        r1 == spec_lookup_outcome(password, status, body),
        r2 == spec_lookup_outcome(password, status, body),
    ensures
        r1 == r2,
{
}

} // verus!
