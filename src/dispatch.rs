use vstd::prelude::*;

use crate::addr::IpAddr;
use crate::clf::{clf_outcome, ClfPatterns, CLF_ADDRESS, CLF_STATUS};
use crate::generic::generic_outcome;
use crate::jail::{record_step, Jail};
use crate::json::json_outcome;
use crate::pattern::{regex_compiles, regex_group, Pattern};
use crate::sshd::{sshd_outcome, SshdRules, FROM_ADDRESS, RHOST_ADDRESS};
use crate::utils::{parse_regex, parse_statuses, statuses_of, ConfigError, ParseError, ParsingStatus};

verus! {

/// The log formats, one parser each.
#[derive(Clone, Copy, Debug, PartialEq, Eq)]
pub enum ParserKind {
    Sshd,
    Clf,
    Json,
    Generic,
}

/// What the daemon was asked to watch, as plain values: the canonical path
/// of each log source, the generic parser's options, and the list of
/// acceptable HTTP statuses.
pub struct Settings {
    pub sshd_logpath: Option<String>,
    pub clf_logpath: Option<String>,
    pub json_logpath: Option<String>,
    pub generic_logpath: Option<String>,
    pub generic_ip: Option<String>,
    pub generic_positive: Option<String>,
    pub generic_negative: Option<String>,
    pub valid_http_statuses: String,
}

pub open spec fn opt_string(s: Option<String>) -> Option<Seq<char>> {
    match s {
        Some(x) => Some(x@),
        None => None,
    }
}

/// Why the settings are refused, checked in this order: the status list;
/// generic options without both the address pattern and the log path;
/// generic options without exactly one filter; no log source at all. `None`
/// where none of these holds.
pub open spec fn settings_error(s: Settings) -> Option<ConfigError> {
    let any_generic = s.generic_ip is Some || s.generic_logpath is Some || s.generic_positive is Some
        || s.generic_negative is Some;
    if statuses_of(s.valid_http_statuses@) is Err {
        Some(ConfigError::Statuses(statuses_of(s.valid_http_statuses@)->Err_0))
    } else if any_generic && (s.generic_ip is None || s.generic_logpath is None) {
        Some(ConfigError::GenericIncomplete)
    } else if any_generic && (s.generic_positive is Some == s.generic_negative is Some) {
        Some(ConfigError::GenericFilter)
    } else if s.sshd_logpath is None && s.clf_logpath is None && s.json_logpath is None
        && s.generic_logpath is None {
        Some(ConfigError::NoSources)
    } else {
        None
    }
}

/// All the patterns that the settings ask for compile.
pub open spec fn patterns_compile(s: Settings) -> bool {
    &&& regex_compiles(CLF_ADDRESS@)
    &&& regex_compiles(CLF_STATUS@)
    &&& regex_compiles(FROM_ADDRESS@)
    &&& regex_compiles(RHOST_ADDRESS@)
    &&& (s.generic_logpath is Some ==> regex_compiles(s.generic_ip->0@))
}

/// The generic parser of one source.
struct GenericSource {
    path: String,
    ip: Pattern,
    positive: Option<String>,
    negative: Option<String>,
}

/// What the dispatcher is, as values.
pub struct DispatcherView {
    pub sshd: Option<Seq<char>>,
    pub clf: Option<Seq<char>>,
    pub json: Option<Seq<char>>,
    pub generic: Option<Seq<char>>,
    pub generic_ip: Seq<char>,
    pub generic_positive: Option<Seq<char>>,
    pub generic_negative: Option<Seq<char>>,
    pub statuses: Seq<u32>,
}

/// Maps each configured source to its parser, and holds the parsers'
/// compiled patterns.
pub struct Dispatcher {
    sshd_path: Option<String>,
    clf_path: Option<String>,
    json_path: Option<String>,
    generic: Option<GenericSource>,
    statuses: Vec<u32>,
    clf: ClfPatterns,
    sshd: SshdRules,
}

impl View for Dispatcher {
    type V = DispatcherView;

    closed spec fn view(&self) -> DispatcherView {
        DispatcherView {
            sshd: opt_string(self.sshd_path),
            clf: opt_string(self.clf_path),
            json: opt_string(self.json_path),
            generic: match self.generic {
                Some(g) => Some(g.path@),
                None => None,
            },
            generic_ip: match self.generic {
                Some(g) => g.ip@,
                None => Seq::empty(),
            },
            generic_positive: match self.generic {
                Some(g) => opt_string(g.positive),
                None => None,
            },
            generic_negative: match self.generic {
                Some(g) => opt_string(g.negative),
                None => None,
            },
            statuses: self.statuses@,
        }
    }
}

/// The parser that `source` feeds: the first of sshd, CLF, JSON and generic
/// whose configured path it is.
pub open spec fn route(d: DispatcherView, source: Seq<char>) -> Option<ParserKind> {
    if d.sshd == Some(source) {
        Some(ParserKind::Sshd)
    } else if d.clf == Some(source) {
        Some(ParserKind::Clf)
    } else if d.json == Some(source) {
        Some(ParserKind::Json)
    } else if d.generic == Some(source) {
        Some(ParserKind::Generic)
    } else {
        None
    }
}

/// The verdict of parser `kind` on `line`.
pub open spec fn verdict(d: DispatcherView, kind: ParserKind, line: Seq<char>) -> Result<
    ParsingStatus,
    ParseError,
> {
    match kind {
        ParserKind::Sshd => sshd_outcome(line),
        ParserKind::Clf => clf_outcome(
            regex_group(CLF_ADDRESS@, line, 1),
            regex_group(CLF_STATUS@, line, 1),
            d.statuses,
        ),
        ParserKind::Json => json_outcome(line, d.statuses),
        ParserKind::Generic => generic_outcome(
            line,
            d.generic_positive,
            d.generic_negative,
            regex_group(d.generic_ip, line, 1),
        ),
    }
}

fn same(a: &Option<String>, b: &str) -> (r: bool)
    ensures
        r == (opt_string(*a) == Some(b@)),
{
    match a {
        Some(x) => {
            let bs = b.to_owned();
            *x == bs
        },
        None => false,
    }
}


/// What became of one line.
#[derive(Clone, Copy, Debug, PartialEq, Eq)]
pub enum Outcome {
    /// The line records no offence.
    Benign,
    /// An offence by the address, counted; no ban yet.
    Remanded(IpAddr),
    /// An offence by the address that bans it: it is to be blocked.
    Banned(IpAddr),
}

/// The parser that read a line, and what became of the line.
#[derive(Clone, Copy, Debug, PartialEq, Eq)]
pub struct Assessment {
    pub parser: ParserKind,
    pub outcome: Outcome,
}

/// Why a line was dropped.
#[derive(Clone, Copy, Debug, PartialEq, Eq)]
pub enum DispatchError {
    /// The line comes from a source that no parser is configured for.
    UnknownSource,
    /// The parser could not classify the line.
    Parse(ParseError),
}

/// The dispatcher that `configure` builds from settings that pass.
pub open spec fn configured(s: Settings) -> DispatcherView {
    let generic = s.generic_logpath is Some;
    DispatcherView {
        sshd: opt_string(s.sshd_logpath),
        clf: opt_string(s.clf_logpath),
        json: opt_string(s.json_logpath),
        generic: opt_string(s.generic_logpath),
        generic_ip: if generic {
            s.generic_ip->0@
        } else {
            Seq::empty()
        },
        generic_positive: if generic {
            opt_string(s.generic_positive)
        } else {
            None
        },
        generic_negative: if generic {
            opt_string(s.generic_negative)
        } else {
            None
        },
        statuses: statuses_of(s.valid_http_statuses@)->Ok_0,
    }
}

impl Dispatcher {
    /// Checks the settings and compiles the parsers they ask for.
    pub fn configure(s: Settings) -> (r: Result<Dispatcher, ConfigError>)
        ensures
            settings_error(s) is Some ==> r == Err::<Dispatcher, ConfigError>(
                settings_error(s)->0,
            ),
            settings_error(s) is None ==> (r is Ok <==> patterns_compile(s)),
            settings_error(s) is None && !patterns_compile(s) ==> r == Err::<
                Dispatcher,
                ConfigError,
            >(ConfigError::InvalidPattern),
            r is Ok ==> r->Ok_0@ == configured(s),
    {
        let ghost s0 = s;
        let Settings {
            sshd_logpath,
            clf_logpath,
            json_logpath,
            generic_logpath,
            generic_ip,
            generic_positive,
            generic_negative,
            valid_http_statuses,
        } = s;
        let statuses = match parse_statuses(valid_http_statuses.as_str()) {
            Ok(v) => v,
            Err(e) => return Err(ConfigError::Statuses(e)),
        };
        let any_generic = generic_ip.is_some() || generic_logpath.is_some()
            || generic_positive.is_some() || generic_negative.is_some();
        if any_generic && (generic_ip.is_none() || generic_logpath.is_none()) {
            return Err(ConfigError::GenericIncomplete);
        }
        if any_generic && (generic_positive.is_some() == generic_negative.is_some()) {
            return Err(ConfigError::GenericFilter);
        }
        if sshd_logpath.is_none() && clf_logpath.is_none() && json_logpath.is_none()
            && generic_logpath.is_none() {
            return Err(ConfigError::NoSources);
        }
        let clf = match ClfPatterns::new() {
            Ok(p) => p,
            Err(e) => return Err(e),
        };
        let sshd = match SshdRules::new() {
            Ok(p) => p,
            Err(e) => return Err(e),
        };
        let generic = match generic_logpath {
            Some(path) => {
                let ip = match &generic_ip {
                    Some(text) => match parse_regex(text.as_str()) {
                        Ok(p) => p,
                        Err(e) => return Err(e),
                    },
                    None => return Err(ConfigError::GenericIncomplete),
                };
                Some(
                    GenericSource {
                        path,
                        ip,
                        positive: generic_positive,
                        negative: generic_negative,
                    },
                )
            },
            None => None,
        };
        let d = Dispatcher {
            sshd_path: sshd_logpath,
            clf_path: clf_logpath,
            json_path: json_logpath,
            generic,
            statuses,
            clf,
            sshd,
        };
        assert(d@ == configured(s0));
        Ok(d)
    }

    /// The parser configured for `source`.
    pub fn route(&self, source: &str) -> (r: Option<ParserKind>)
        ensures
            r == route(self@, source@),
    {
        if same(&self.sshd_path, source) {
            Some(ParserKind::Sshd)
        } else if same(&self.clf_path, source) {
            Some(ParserKind::Clf)
        } else if same(&self.json_path, source) {
            Some(ParserKind::Json)
        } else {
            match &self.generic {
                Some(g) => {
                    let gs = source.to_owned();
                    if g.path == gs {
                        Some(ParserKind::Generic)
                    } else {
                        None
                    }
                },
                None => None,
            }
        }
    }

    /// The verdict of parser `kind` on `line`.
    pub fn classify(&self, kind: ParserKind, line: &str) -> (r: Result<ParsingStatus, ParseError>)
        requires
            kind == ParserKind::Generic ==> self@.generic is Some,
        ensures
            r == verdict(self@, kind, line@),
    {
        match kind {
            ParserKind::Sshd => crate::sshd::parse(&self.sshd, line),
            ParserKind::Clf => crate::clf::parse(&self.clf, line, self.statuses.as_slice()),
            ParserKind::Json => crate::json::parse(line, self.statuses.as_slice()),
            ParserKind::Generic => match &self.generic {
                Some(g) => crate::generic::parse(line, &g.ip, g.positive.as_ref(), g.negative.as_ref()),
                None => Err(ParseError::Document),
            },
        }
    }

    /// Handles one line from `source` at time `now` (seconds): finds its
    /// parser, classifies the line, and records an offence in `jail`. A line
    /// that cannot be handled leaves `jail` as it was.
    pub fn assess(&self, jail: &mut Jail, source: &str, line: &str, now: u64) -> (r: Result<
        Assessment,
        DispatchError,
    >)
        requires
            old(jail).wf(),
        ensures
            final(jail).wf(),
            match route(self@, source@) {
                None => r == Err::<Assessment, DispatchError>(DispatchError::UnknownSource)
                    && final(jail)@ == old(jail)@,
                Some(k) => match verdict(self@, k, line@) {
                    Err(e) => r == Err::<Assessment, DispatchError>(DispatchError::Parse(e))
                        && final(jail)@ == old(jail)@,
                    Ok(ParsingStatus::OkEntry) => r == Ok::<Assessment, DispatchError>(
                        Assessment { parser: k, outcome: Outcome::Benign },
                    ) && final(jail)@ == old(jail)@,
                    Ok(ParsingStatus::BadEntry(a)) => {
                        let step = record_step(
                            old(jail)@.ledger,
                            a,
                            old(jail)@.allowance,
                            old(jail)@.jailtime,
                            now,
                        );
                        &&& final(jail)@.allowance == old(jail)@.allowance
                        &&& final(jail)@.jailtime == old(jail)@.jailtime
                        &&& final(jail)@.ledger == step.0
                        &&& r == Ok::<Assessment, DispatchError>(
                            Assessment {
                                parser: k,
                                outcome: if step.1 {
                                    Outcome::Banned(a)
                                } else {
                                    Outcome::Remanded(a)
                                },
                            },
                        )
                    },
                },
            },
    {
        let kind = match self.route(source) {
            Some(k) => k,
            None => return Err(DispatchError::UnknownSource),
        };
        match self.classify(kind, line) {
            Err(e) => Err(DispatchError::Parse(e)),
            Ok(ParsingStatus::OkEntry) => Ok(Assessment { parser: kind, outcome: Outcome::Benign }),
            Ok(ParsingStatus::BadEntry(a)) => {
                let banned = jail.sentence(a, now);
                let outcome = if banned {
                    Outcome::Banned(a)
                } else {
                    Outcome::Remanded(a)
                };
                Ok(Assessment { parser: kind, outcome })
            },
        }
    }
}

} // verus!
