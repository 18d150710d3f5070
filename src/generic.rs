use vstd::prelude::*;

use crate::pattern::{capture, regex_group, Pattern};
use crate::text::{chars_of, contains_chars, contains_seq};
use crate::utils::{offender, offender_of, ParseError, ParsingStatus};

verus! {

/// The view of an optional filter string.
pub open spec fn filter_view(f: Option<&String>) -> Option<Seq<char>> {
    match f {
        Some(s) => Some(s@),
        None => None,
    }
}

/// Whether the filters let `line` through to address extraction: a line
/// holding the negative filter is benign, and so is one lacking the positive
/// filter.
pub open spec fn flagged(line: Seq<char>, positive: Option<Seq<char>>, negative: Option<
    Seq<char>,
>) -> bool {
    !(negative is Some && contains_seq(line, negative->0)) && !(positive is Some && !contains_seq(
        line,
        positive->0,
    ))
}

/// The verdict of the generic parser on `line`, where `address` is what its
/// address pattern captured there: benign where the filters do not flag the
/// line, else an offence by the captured address, or a failure where it is
/// no IP literal.
pub open spec fn generic_outcome(
    line: Seq<char>,
    positive: Option<Seq<char>>,
    negative: Option<Seq<char>>,
    address: Option<Seq<char>>,
) -> Result<ParsingStatus, ParseError> {
    if flagged(line, positive, negative) {
        offender(address)
    } else {
        Ok(ParsingStatus::OkEntry)
    }
}

fn holds(line: &Vec<char>, f: &String) -> (r: bool)
    ensures
        r == contains_seq(line@, f@),
{
    let fs = chars_of(f.as_str());
    contains_chars(line, &fs)
}

/// Classifies one line with the user's filters and address pattern (its
/// first group is the address).
pub fn parse(line: &str, ip: &Pattern, positive: Option<&String>, negative: Option<&String>) -> (r:
    Result<ParsingStatus, ParseError>)
    ensures
        r == generic_outcome(
            line@,
            filter_view(positive),
            filter_view(negative),
            regex_group(ip@, line@, 1),
        ),
{
    let cs = chars_of(line);
    if let Some(ne) = negative {
        if holds(&cs, ne) {
            return Ok(ParsingStatus::OkEntry);
        }
    }
    if let Some(po) = positive {
        if !holds(&cs, po) {
            return Ok(ParsingStatus::OkEntry);
        }
    }
    offender_of(capture(ip, line, 1))
}


/// With the same filter string, positive mode and negative mode are
/// complements: exactly one of them flags a line, and on each line the mode
/// that does not flag it finds it benign while the other reports its address.
pub proof fn lemma_modes_complement(line: Seq<char>, f: Seq<char>, address: Option<Seq<char>>)
    ensures
        flagged(line, Some(f), None) != flagged(line, None, Some(f)),
        generic_outcome(line, Some(f), None, address) == (if contains_seq(line, f) {
            offender(address)
        } else {
            Ok(ParsingStatus::OkEntry)
        }),
        generic_outcome(line, None, Some(f), address) == (if contains_seq(line, f) {
            Ok(ParsingStatus::OkEntry)
        } else {
            offender(address)
        }),
{
}

} // verus!
