use vstd::prelude::*;

use crate::addr::{ip_of, parse_ip, IpAddr};
use crate::pattern::{compile, Pattern};
use crate::text::{
    chars_of, contains_chars, contains_seq, parse_u32, remove_all, remove_all_chars, split,
    split_chars, u32_of, views,
};

verus! {

#[verifier::external_type_specification]
#[verifier::external_body]
pub struct ExSystemTime(std::time::SystemTime);

#[verifier::external_type_specification]
#[verifier::external_body]
pub struct ExSystemTimeError(std::time::SystemTimeError);

/// Relies on `std::time::SystemTime::now`: reads the system clock.
pub assume_specification[ std::time::SystemTime::now ]() -> std::time::SystemTime;

/// Relies on `std::time::SystemTime::duration_since`: the time elapsed since
/// `earlier`, or an error where `earlier` is later.
pub assume_specification[ std::time::SystemTime::duration_since ](
    t: &std::time::SystemTime,
    earlier: std::time::SystemTime,
) -> Result<std::time::Duration, std::time::SystemTimeError>;

/// Relies on `std::time::Duration::as_secs`: the whole seconds of a duration.
pub assume_specification[ std::time::Duration::as_secs ](d: &std::time::Duration) -> u64;

/// Relies on `std::time::UNIX_EPOCH`: the time of the Unix epoch.
#[verifier::external_body]
fn unix_epoch() -> std::time::SystemTime {
    std::time::UNIX_EPOCH
}

/// The current time in whole seconds since the Unix epoch; 0 where the
/// clock is set before the epoch.
pub fn get_epoch() -> u64 {
    let now = std::time::SystemTime::now();
    match now.duration_since(unix_epoch()) {
        Ok(d) => d.as_secs(),
        Err(_) => 0,
    }
}

/// What a parser makes of one log line.
#[derive(Clone, Copy, Debug, PartialEq, Eq)]
pub enum ParsingStatus {
    /// Nothing to act on.
    OkEntry,
    /// The line records an offence by this address.
    BadEntry(IpAddr),
}

/// Why a log line could not be classified.
#[derive(Clone, Copy, Debug, PartialEq, Eq)]
pub enum ParseError {
    /// No valid IP address where the format puts it.
    Address,
    /// No valid status code where the format puts it.
    Status,
    /// The line is not a well-formed document of its format.
    Document,
}

/// Why a configuration was refused.
#[derive(Clone, Copy, Debug, PartialEq, Eq)]
pub enum ConfigError {
    /// A regular expression does not compile.
    InvalidPattern,
    /// Some generic parser options are given, but not both the address
    /// pattern and the log path.
    GenericIncomplete,
    /// The generic parser needs exactly one of a positive and a negative filter.
    GenericFilter,
    /// No log source is configured.
    NoSources,
    /// The list of acceptable statuses is refused.
    Statuses(StatusListError),
}

/// The view of an optional text.
pub open spec fn opt_view(t: Option<&str>) -> Option<Seq<char>> {
    match t {
        Some(s) => Some(s@),
        None => None,
    }
}

/// An offence by the address written `token`; a failure where there is no
/// token or it is no IP literal.
pub open spec fn offender(token: Option<Seq<char>>) -> Result<ParsingStatus, ParseError> {
    match token {
        Some(t) => match ip_of(t) {
            Some(a) => Ok(ParsingStatus::BadEntry(a)),
            None => Err(ParseError::Address),
        },
        None => Err(ParseError::Address),
    }
}

/// The offence recorded by the address token `token`.
pub fn offender_of(token: Option<&str>) -> (r: Result<ParsingStatus, ParseError>)
    ensures
        r == offender(opt_view(token)),
{
    match token {
        Some(t) => match parse_ip(t) {
            Some(a) => Ok(ParsingStatus::BadEntry(a)),
            None => Err(ParseError::Address),
        },
        None => Err(ParseError::Address),
    }
}

/// `status` is one of the acceptable codes.
pub open spec fn acceptable(statuses: Seq<u32>, status: int) -> bool {
    exists|i: int| 0 <= i < statuses.len() && statuses[i] == status
}

/// Whether `status` is one of `statuses`.
pub fn is_acceptable(statuses: &[u32], status: u64) -> (r: bool)
    ensures
        r == acceptable(statuses@, status as int),
{
    for i in 0..statuses.len()
        invariant
            forall|j: int| 0 <= j < i ==> statuses@[j] != status,
    {
        if statuses[i] as u64 == status {
            return true;
        }
    }
    false
}

/// The verdict on a line of an access log, from the address token and the
/// status found in it: a failure where either is missing or the address is
/// no IP literal; else benign where the status is acceptable, and an offence
/// by the address where it is not.
pub open spec fn status_outcome(
    address: Option<Seq<char>>,
    status: Option<int>,
    statuses: Seq<u32>,
) -> Result<ParsingStatus, ParseError> {
    match offender(address) {
        Ok(v) => match status {
            Some(s) => if acceptable(statuses, s) {
                Ok(ParsingStatus::OkEntry)
            } else {
                Ok(v)
            },
            None => Err(ParseError::Status),
        },
        Err(e) => Err(e),
    }
}

/// The verdict on a line of an access log, from the address token and the status found in it.
pub fn status_verdict(address: Option<&str>, status: Option<u64>, valid_statuses: &[u32]) -> (r:
    Result<ParsingStatus, ParseError>)
    ensures
        r == status_outcome(
            opt_view(address),
            match status {
                Some(s) => Some(s as int),
                None => None,
            },
            valid_statuses@,
        ),
{
    let v = match offender_of(address) {
        Ok(v) => v,
        Err(e) => return Err(e),
    };
    match status {
        Some(s) => if is_acceptable(valid_statuses, s) {
            Ok(ParsingStatus::OkEntry)
        } else {
            Ok(v)
        },
        None => Err(ParseError::Status),
    }
}

/// Of an access log line with a valid address and a status: where the
/// status is acceptable the line is benign, and where it is not the line is
/// an offence by exactly that address.
pub proof fn lemma_status_decides(address: Seq<char>, status: int, statuses: Seq<u32>)
    requires
        ip_of(address) is Some,
    ensures
        acceptable(statuses, status) ==> status_outcome(Some(address), Some(status), statuses)
            == Ok::<ParsingStatus, ParseError>(ParsingStatus::OkEntry),
        !acceptable(statuses, status) ==> status_outcome(Some(address), Some(status), statuses)
            == Ok::<ParsingStatus, ParseError>(ParsingStatus::BadEntry(ip_of(address)->0)),
{
}

/// Compiles a regular expression given in the configuration.
pub fn parse_regex(a: &str) -> (r: Result<Pattern, ConfigError>)
    ensures
        match r {
            Ok(p) => p@ == a@ && crate::pattern::regex_compiles(a@),
            Err(e) => e == ConfigError::InvalidPattern && !crate::pattern::regex_compiles(a@),
        },
{
    match compile(a) {
        Ok(p) => Ok(p),
        Err(_) => Err(ConfigError::InvalidPattern),
    }
}

/// Why a list of acceptable statuses was refused.
#[derive(Clone, Copy, Debug, PartialEq, Eq)]
pub enum StatusListError {
    /// A token with a wildcard `x` does not name a range of codes.
    InvalidRange,
    /// A token is not a status code.
    InvalidStatus,
}

pub open spec fn two_x() -> Seq<char> {
    seq!['x', 'x']
}

pub open spec fn one_x() -> Seq<char> {
    seq!['x']
}

/// The `width` codes `base * width`, `base * width + 1`, ..., where they all fit in a `u32`.
pub open spec fn code_range(base: Option<u32>, width: int) -> Result<Seq<u32>, StatusListError> {
    match base {
        Some(b) => if b * width + width - 1 <= u32::MAX {
            Ok(Seq::new(width as nat, |i: int| (b * width + i) as u32))
        } else {
            Err(StatusListError::InvalidRange)
        },
        None => Err(StatusListError::InvalidRange),
    }
}

/// The codes that one token of the list stands for: with "xx" in it, the
/// hundred codes of the century that the rest names; else with an "x", the
/// ten codes of the decade; else the one code that it is.
pub open spec fn token_codes(t: Seq<char>) -> Result<Seq<u32>, StatusListError> {
    if contains_seq(t, two_x()) {
        code_range(u32_of(remove_all(t, two_x())), 100)
    } else if contains_seq(t, one_x()) {
        code_range(u32_of(remove_all(t, one_x())), 10)
    } else {
        match u32_of(t) {
            Some(v) => Ok(seq![v]),
            None => Err(StatusListError::InvalidStatus),
        }
    }
}

/// The codes of the tokens `ps`, in order; the first token refused gives the error.
pub open spec fn tokens_codes(ps: Seq<Seq<char>>) -> Result<Seq<u32>, StatusListError>
    decreases ps.len(),
{
    if ps.len() == 0 {
        Ok(Seq::empty())
    } else {
        match tokens_codes(ps.drop_last()) {
            Ok(a) => match token_codes(ps.last()) {
                Ok(b) => Ok(a + b),
                Err(e) => Err(e),
            },
            Err(e) => Err(e),
        }
    }
}

/// The codes of a comma-separated list of acceptable statuses.
pub open spec fn statuses_of(a: Seq<char>) -> Result<Seq<u32>, StatusListError> {
    tokens_codes(split(a, ','))
}

fn code_range_exec(base: Option<u32>, width: u32) -> (r: Result<Vec<u32>, StatusListError>)
    requires
        width == 10 || width == 100,
    ensures
        match r {
            Ok(v) => code_range(base, width as int) == Ok::<Seq<u32>, StatusListError>(v@),
            Err(e) => code_range(base, width as int) == Err::<Seq<u32>, StatusListError>(e),
        },
{
    let b = match base {
        Some(b) => b,
        None => return Err(StatusListError::InvalidRange),
    };
    assert((b as int) * (width as int) <= 0xffff_ffff * 100) by (nonlinear_arith)
        requires
            b <= 0xffff_ffffu32,
            width <= 100,
    ;
    let top: u64 = (b as u64) * (width as u64) + (width as u64) - 1;
    if top > 0xffff_ffffu64 {
        return Err(StatusListError::InvalidRange);
    }
    let start: u32 = b * width;
    let mut v: Vec<u32> = Vec::new();
    for i in 0..width
        invariant
            start == b * width,
            b * width + width - 1 <= u32::MAX,
            v@ == Seq::new(i as nat, |j: int| (b * width + j) as u32),
    {
        v.push(start + i);
        assert(v@ =~= Seq::new((i + 1) as nat, |j: int| (b * width + j) as u32));
    }
    Ok(v)
}

fn token_codes_exec(t: &Vec<char>) -> (r: Result<Vec<u32>, StatusListError>)
    ensures
        match r {
            Ok(v) => token_codes(t@) == Ok::<Seq<u32>, StatusListError>(v@),
            Err(e) => token_codes(t@) == Err::<Seq<u32>, StatusListError>(e),
        },
{
    let xx: Vec<char> = vec!['x', 'x'];
    let x: Vec<char> = vec!['x'];
    assert(xx@ =~= two_x());
    assert(x@ =~= one_x());
    if contains_chars(t, &xx) {
        let rest = remove_all_chars(t, &xx);
        code_range_exec(parse_u32(&rest), 100)
    } else if contains_chars(t, &x) {
        let rest = remove_all_chars(t, &x);
        code_range_exec(parse_u32(&rest), 10)
    } else {
        match parse_u32(t) {
            Some(v) => {
                let mut one: Vec<u32> = Vec::new();
                one.push(v);
                assert(one@ =~= seq![v]);
                Ok(one)
            },
            None => Err(StatusListError::InvalidStatus),
        }
    }
}

/// Reads the list of acceptable HTTP statuses: comma-separated tokens, each
/// a code ("404"), a decade ("40x": 400 to 409) or a century ("4xx": 400 to
/// 499). The codes come out in the order of the tokens.
pub fn parse_statuses(a: &str) -> (r: Result<Vec<u32>, StatusListError>)
    ensures
        match r {
            Ok(v) => statuses_of(a@) == Ok::<Seq<u32>, StatusListError>(v@),
            Err(e) => statuses_of(a@) == Err::<Seq<u32>, StatusListError>(e),
        },
{
    let cs = chars_of(a);
    let ps = split_chars(&cs, ',');
    let ghost v = views(ps@);
    let mut out: Vec<u32> = Vec::new();
    assert(v.subrange(0, 0) =~= Seq::<Seq<char>>::empty());
    for i in 0..ps.len()
        invariant
            v == views(ps@),
            v == split(a@, ','),
            tokens_codes(v.subrange(0, i as int)) == Ok::<Seq<u32>, StatusListError>(out@),
    {
        let ghost pre = v.subrange(0, i + 1);
        assert(pre.drop_last() =~= v.subrange(0, i as int));
        assert(pre.last() == ps@[i as int]@);
        match token_codes_exec(&ps[i]) {
            Ok(codes) => {
                let ghost o = out@;
                for j in 0..codes.len()
                    invariant
                        out@ == o + codes@.subrange(0, j as int),
                {
                    out.push(codes[j]);
                    assert(out@ =~= o + codes@.subrange(0, j + 1));
                }
                assert(codes@.subrange(0, codes.len() as int) =~= codes@);
            },
            Err(e) => {
                proof {
                    lemma_tokens_codes_err(v, i + 1, e);
                }
                return Err(e);
            },
        }
    }
    assert(v.subrange(0, ps.len() as int) =~= v);
    Ok(out)
}

proof fn lemma_tokens_codes_err(ps: Seq<Seq<char>>, i: int, e: StatusListError)
    requires
        0 <= i <= ps.len(),
        tokens_codes(ps.subrange(0, i)) == Err::<Seq<u32>, StatusListError>(e),
    ensures
        tokens_codes(ps) == Err::<Seq<u32>, StatusListError>(e),
    decreases ps.len() - i,
{
    if i == ps.len() {
        assert(ps.subrange(0, i) =~= ps);
    } else {
        assert(ps.subrange(0, i + 1).drop_last() =~= ps.subrange(0, i));
        lemma_tokens_codes_err(ps, i + 1, e);
    }
}

} // verus!
