use vstd::prelude::*;

use crate::pattern::{capture, compile, regex_compiles, regex_group, Pattern};
use crate::text::u32_of;
use crate::addr::ip_of;
use crate::utils::{
    acceptable, lemma_status_decides, opt_view, status_outcome, status_verdict, ConfigError,
    ParseError, ParsingStatus,
};

verus! {

/// The address: the first whitespace-delimited token of the line.
pub const CLF_ADDRESS: &'static str = r"^(\S+)\s";

/// The status: the number in the `<status> <size>` pair that ends the line.
pub const CLF_STATUS: &'static str = r"(\d+)\s(\w+)$";

/// The compiled patterns of the Common Log Format.
pub struct ClfPatterns {
    address: Pattern,
    status: Pattern,
}

impl ClfPatterns {
    #[verifier::type_invariant]
    spec fn inv(&self) -> bool {
        self.address@ == CLF_ADDRESS@ && self.status@ == CLF_STATUS@
    }

    /// Compiles the two patterns.
    pub fn new() -> (r: Result<ClfPatterns, ConfigError>)
        ensures
            r is Ok <==> regex_compiles(CLF_ADDRESS@) && regex_compiles(CLF_STATUS@),
            r is Err ==> r == Err::<ClfPatterns, ConfigError>(ConfigError::InvalidPattern),
    {
        let address = match compile(CLF_ADDRESS) {
            Ok(p) => p,
            Err(_) => return Err(ConfigError::InvalidPattern),
        };
        let status = match compile(CLF_STATUS) {
            Ok(p) => p,
            Err(_) => return Err(ConfigError::InvalidPattern),
        };
        Ok(ClfPatterns { address, status })
    }
}

/// The status number of a status token.
pub open spec fn status_number(token: Option<Seq<char>>) -> Option<int> {
    match token {
        Some(t) => match u32_of(t) {
            Some(v) => Some(v as int),
            None => None,
        },
        None => None,
    }
}

/// The verdict on a Common Log Format line whose address token and status
/// token are those given.
pub open spec fn clf_outcome(
    address: Option<Seq<char>>,
    status: Option<Seq<char>>,
    statuses: Seq<u32>,
) -> Result<ParsingStatus, ParseError> {
    status_outcome(address, status_number(status), statuses)
}

/// The verdict on a Common Log Format line, from its address token and its
/// status token as the patterns found them (`None` where one found nothing).
pub fn classify(address: Option<&str>, status: Option<&str>, valid_statuses: &[u32]) -> (r: Result<
    ParsingStatus,
    ParseError,
>)
    ensures
        r == clf_outcome(opt_view(address), opt_view(status), valid_statuses@),
{
    let number: Option<u64> = match status {
        Some(t) => {
            let cs = crate::text::chars_of(t);
            match crate::text::parse_u32(&cs) {
                Some(v) => Some(v as u64),
                None => None,
            }
        },
        None => None,
    };
    status_verdict(address, number, valid_statuses)
}

/// Classifies one Common Log Format line: an offence by its address where
/// its status is not one of `valid_statuses`, benign where it is.
pub fn parse(patterns: &ClfPatterns, line: &str, valid_statuses: &[u32]) -> (r: Result<
    ParsingStatus,
    ParseError,
>)
    ensures
        r == clf_outcome(
            regex_group(CLF_ADDRESS@, line@, 1),
            regex_group(CLF_STATUS@, line@, 1),
            valid_statuses@,
        ),
{
    proof {
        use_type_invariant(patterns);
    }
    let address = capture(&patterns.address, line, 1);
    let status = capture(&patterns.status, line, 1);
    classify(address, status, valid_statuses)
}


/// A Common Log Format line whose address field is an IP literal and whose
/// status field is a number: benign where the status is acceptable, else an
/// offence by exactly that address.
pub proof fn lemma_clf_status_decides(line: Seq<char>, statuses: Seq<u32>)
    requires
        regex_group(CLF_ADDRESS@, line, 1) is Some,
        ip_of(regex_group(CLF_ADDRESS@, line, 1)->0) is Some,
        regex_group(CLF_STATUS@, line, 1) is Some,
        u32_of(regex_group(CLF_STATUS@, line, 1)->0) is Some,
    ensures
        ({
            let a = regex_group(CLF_ADDRESS@, line, 1);
            let st = regex_group(CLF_STATUS@, line, 1);
            let s = u32_of(st->0)->0 as int;
            let r = clf_outcome(a, st, statuses);
            &&& acceptable(statuses, s) ==> r == Ok::<ParsingStatus, ParseError>(
                ParsingStatus::OkEntry,
            )
            &&& !acceptable(statuses, s) ==> r == Ok::<ParsingStatus, ParseError>(
                ParsingStatus::BadEntry(ip_of(a->0)->0),
            )
        }),
{
    let a = regex_group(CLF_ADDRESS@, line, 1);
    let st = regex_group(CLF_STATUS@, line, 1);
    lemma_status_decides(a->0, u32_of(st->0)->0 as int, statuses);
}

} // verus!
