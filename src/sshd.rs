use vstd::prelude::*;

use crate::pattern::{capture, compile, regex_compiles, regex_group, Pattern};
use crate::text::{chars_of, contains_chars, contains_seq};
use crate::utils::{offender, offender_of, ConfigError, ParseError, ParsingStatus};

verus! {

/// Trigger of the rule on failed password logins.
pub const FAILED_PASSWORD: &'static str = "Failed password";

/// Trigger of the rule on logins as unknown users.
pub const INVALID_USER: &'static str = "Invalid user ";

/// Trigger of the rule on PAM authentication failures.
pub const AUTH_FAILURE: &'static str = "authentication failure";

/// Extracts the token that follows "from " (second group).
pub const FROM_ADDRESS: &'static str = r"(from.)(\S+)";

/// Extracts the value of the "rhost=" field (second group).
pub const RHOST_ADDRESS: &'static str = r"(rhost=)(\S+)";

/// The rules' triggers, in the order in which they are tried.
pub open spec fn triggers() -> Seq<Seq<char>> {
    seq![FAILED_PASSWORD@, INVALID_USER@, AUTH_FAILURE@]
}

/// The rules' extraction patterns, in the same order.
pub open spec fn extractors() -> Seq<Seq<char>> {
    seq![FROM_ADDRESS@, FROM_ADDRESS@, RHOST_ADDRESS@]
}

/// The first of the triggers `ts[i..]` that occurs in `line`.
pub open spec fn first_from(line: Seq<char>, ts: Seq<Seq<char>>, i: int) -> Option<int>
    decreases ts.len() - i,
{
    if i < 0 || i >= ts.len() {
        None
    } else if contains_seq(line, ts[i]) {
        Some(i)
    } else {
        first_from(line, ts, i + 1)
    }
}

/// What `first_from` selects: the least index from `i` on whose trigger
/// occurs in `line`.
pub proof fn lemma_first_from(line: Seq<char>, ts: Seq<Seq<char>>, i: int)
    requires
        0 <= i <= ts.len(),
    ensures
        match first_from(line, ts, i) {
            Some(k) => i <= k < ts.len() && contains_seq(line, ts[k]) && forall|m: int|
                i <= m < k ==> !contains_seq(line, #[trigger] ts[m]),
            None => forall|m: int| i <= m < ts.len() ==> !contains_seq(line, #[trigger] ts[m]),
        },
    decreases ts.len() - i,
{
    if i < ts.len() && !contains_seq(line, ts[i]) {
        lemma_first_from(line, ts, i + 1);
    }
}

/// The rule selected for `line`: the first whose trigger occurs in it.
pub open spec fn selected_rule(line: Seq<char>) -> Option<int> {
    first_from(line, triggers(), 0)
}

/// The verdict on an sshd log line: benign where no trigger occurs in it;
/// else an offence by the address that the selected rule's pattern extracts,
/// or a failure where it extracts no IP literal.
pub open spec fn sshd_outcome(line: Seq<char>) -> Result<ParsingStatus, ParseError> {
    match selected_rule(line) {
        Some(i) => offender(regex_group(extractors()[i], line, 2)),
        None => Ok(ParsingStatus::OkEntry),
    }
}

struct Rule {
    trigger: Vec<char>,
    extractor: Pattern,
}

/// The ordered rules of the sshd parser, compiled.
pub struct SshdRules {
    rules: Vec<Rule>,
}

impl SshdRules {
    #[verifier::type_invariant]
    spec fn inv(&self) -> bool {
        &&& self.rules.len() == 3
        &&& forall|i: int|
            0 <= i < 3 ==> (#[trigger] self.rules@[i]).trigger@ == triggers()[i]
                && self.rules@[i].extractor@ == extractors()[i]
    }

    /// Compiles the rules.
    pub fn new() -> (r: Result<SshdRules, ConfigError>)
        ensures
            r is Ok <==> regex_compiles(FROM_ADDRESS@) && regex_compiles(RHOST_ADDRESS@),
            r is Err ==> r == Err::<SshdRules, ConfigError>(ConfigError::InvalidPattern),
    {
        let failed = match compile(FROM_ADDRESS) {
            Ok(p) => p,
            Err(_) => return Err(ConfigError::InvalidPattern),
        };
        let invalid = match compile(FROM_ADDRESS) {
            Ok(p) => p,
            Err(_) => return Err(ConfigError::InvalidPattern),
        };
        let auth = match compile(RHOST_ADDRESS) {
            Ok(p) => p,
            Err(_) => return Err(ConfigError::InvalidPattern),
        };
        let mut rules: Vec<Rule> = Vec::new();
        rules.push(Rule { trigger: chars_of(FAILED_PASSWORD), extractor: failed });
        rules.push(Rule { trigger: chars_of(INVALID_USER), extractor: invalid });
        rules.push(Rule { trigger: chars_of(AUTH_FAILURE), extractor: auth });
        Ok(SshdRules { rules })
    }

    /// The index of the rule selected for `line`: the first whose trigger
    /// occurs in it.
    pub fn select(&self, line: &str) -> (r: Option<usize>)
        ensures
            match r {
                Some(i) => i < 3 && selected_rule(line@) == Some(i as int),
                None => selected_rule(line@) is None,
            },
    {
        proof {
            use_type_invariant(self);
        }
        let cs = chars_of(line);
        let mut i: usize = 0;
        while i < self.rules.len()
            invariant
                self.rules.len() == 3,
                forall|k: int|
                    0 <= k < 3 ==> (#[trigger] self.rules@[k]).trigger@ == triggers()[k],
                cs@ == line@,
                i <= 3,
                selected_rule(line@) == first_from(line@, triggers(), i as int),
            decreases 3 - i,
        {
            assert(self.rules@[i as int].trigger@ == triggers()[i as int]);
            if contains_chars(&cs, &self.rules[i].trigger) {
                return Some(i);
            }
            i = i + 1;
        }
        None
    }
}

/// Classifies one sshd log line with the first rule whose trigger occurs in
/// it; no later rule is tried.
pub fn parse(rules: &SshdRules, line: &str) -> (r: Result<ParsingStatus, ParseError>)
    ensures
        r == sshd_outcome(line@),
{
    proof {
        use_type_invariant(rules);
    }
    match rules.select(line) {
        Some(i) => {
            assert(rules.rules@[i as int].extractor@ == extractors()[i as int]);
            offender_of(capture(&rules.rules[i].extractor, line, 2))
        },
        None => Ok(ParsingStatus::OkEntry),
    }
}


/// A line in which no trigger occurs is benign.
pub proof fn lemma_no_trigger_benign(line: Seq<char>)
    requires
        forall|i: int| 0 <= i < 3 ==> !contains_seq(line, #[trigger] triggers()[i]),
    ensures
        sshd_outcome(line) == Ok::<ParsingStatus, ParseError>(ParsingStatus::OkEntry),
{
    lemma_first_from(line, triggers(), 0);
    if let Some(k) = selected_rule(line) {
        assert(!contains_seq(line, triggers()[k]));
    }
}

/// A line holding both "Failed password" and "authentication failure" is
/// classified by the first rule alone: its address is what follows "from ".
pub proof fn lemma_first_rule_wins(line: Seq<char>)
    requires
        contains_seq(line, FAILED_PASSWORD@),
        contains_seq(line, AUTH_FAILURE@),
    ensures
        sshd_outcome(line) == offender(regex_group(FROM_ADDRESS@, line, 2)),
{
    assert(triggers()[0] == FAILED_PASSWORD@);
}

} // verus!
