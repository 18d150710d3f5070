use vstd::prelude::*;

use std::collections::HashMap;
use std::hash::Hash;

use crate::addr::IpAddr;
use vstd::std_specs::hash::obeys_key_model;

verus! {

broadcast use vstd::std_specs::hash::group_hash_axioms;

/// The offence record of one address: how many offences were counted in its
/// window, and when the window started (seconds).
pub type Record = (u8, u64);

/// The record of an address after one more offence at `now`, before the ban
/// decision: a fresh count where there was none or its window has passed
/// (`now > start + window`), else one more in the same window.
pub open spec fn counted(old: Option<Record>, window: u32, now: u64) -> (int, u64) {
    match old {
        Some(r) => if now > r.1 + window {
            (1, now)
        } else {
            (r.0 + 1, r.1)
        },
        None => (1, now),
    }
}

/// One offence by `key` at `now` in a ledger: the new ledger, and whether
/// the offence is the one that bans. Where the count reaches `allowance` the
/// key is banned and its record removed; else the record is kept.
pub open spec fn record_step<K>(ledger: Map<K, Record>, key: K, allowance: u8, window: u32, now: u64) -> (
    Map<K, Record>,
    bool,
) {
    let old = if ledger.contains_key(key) {
        Some(ledger[key])
    } else {
        None
    };
    let c = counted(old, window, now);
    if c.0 < allowance {
        (ledger.insert(key, (c.0 as u8, c.1)), false)
    } else {
        (ledger.remove(key), true)
    }
}

/// Every record holds between one and `allowance - 1` offences.
pub open spec fn records_below<K>(ledger: Map<K, Record>, allowance: u8) -> bool {
    forall|k: K| #[trigger] ledger.contains_key(k) ==> 1 <= ledger[k].0 < allowance
}

/// The ledger and the ban decisions after offences by `key` at `times`, in order.
pub open spec fn offences<K>(
    ledger: Map<K, Record>,
    key: K,
    allowance: u8,
    window: u32,
    times: Seq<u64>,
) -> (Map<K, Record>, Seq<bool>)
    decreases times.len(),
{
    if times.len() == 0 {
        (ledger, Seq::empty())
    } else {
        let before = offences(ledger, key, allowance, window, times.drop_last());
        let step = record_step(before.0, key, allowance, window, times.last());
        (step.0, before.1.push(step.1))
    }
}

proof fn lemma_offences_count<K>(
    ledger: Map<K, Record>,
    key: K,
    allowance: u8,
    window: u32,
    times: Seq<u64>,
    j: int,
)
    requires
        !ledger.contains_key(key),
        1 <= j < allowance,
        j <= times.len(),
        forall|i: int| 0 <= i < times.len() ==> #[trigger] times[i] <= times[0] + window,
    ensures
        ({
            let r = offences(ledger, key, allowance, window, times.subrange(0, j));
            &&& r.0.contains_key(key)
            &&& r.0[key] == (j as u8, times[0])
            &&& r.1 == Seq::new(j as nat, |i: int| false)
        }),
    decreases j,
{
    let t = times.subrange(0, j);
    assert(t.drop_last() =~= times.subrange(0, j - 1));
    if j == 1 {
        assert(times.subrange(0, 0) =~= Seq::<u64>::empty());
        assert(offences(ledger, key, allowance, window, t).1 =~= Seq::new(1, |i: int| false));
    } else {
        lemma_offences_count(ledger, key, allowance, window, times, j - 1);
        assert(t.last() == times[j - 1]);
        assert(offences(ledger, key, allowance, window, t).1 =~= Seq::new(
            j as nat,
            |i: int| false,
        ));
    }
}

/// Offences by an address that has no record, all within the window that
/// the first one opens: the first `allowance - 1` are counted, the
/// `allowance`-th bans it, and its record is then gone, so that a later
/// offence starts a fresh count.
pub proof fn lemma_ban_at_allowance<K>(
    ledger: Map<K, Record>,
    key: K,
    allowance: u8,
    window: u32,
    times: Seq<u64>,
)
    requires
        !ledger.contains_key(key),
        allowance >= 1,
        times.len() == allowance,
        forall|i: int| 0 <= i < times.len() ==> #[trigger] times[i] <= times[0] + window,
    ensures
        offences(ledger, key, allowance, window, times).1 == Seq::new(
            allowance as nat,
            |i: int| i == allowance - 1,
        ),
        !offences(ledger, key, allowance, window, times).0.contains_key(key),
{
    let a = allowance as int;
    assert(times.drop_last() =~= times.subrange(0, a - 1));
    let before = offences(ledger, key, allowance, window, times.subrange(0, a - 1));
    if a == 1 {
        assert(times.subrange(0, 0) =~= Seq::<u64>::empty());
    } else {
        lemma_offences_count(ledger, key, allowance, window, times, a - 1);
        assert(times.last() == times[a - 1]);
        assert(times[a - 1] <= times[0] + window);
    }
    let step = record_step(before.0, key, allowance, window, times.last());
    assert(step.1);
    assert(offences(ledger, key, allowance, window, times) == (step.0, before.1.push(step.1)));
    assert(offences(ledger, key, allowance, window, times).1 =~= Seq::new(
        allowance as nat,
        |i: int| i == allowance - 1,
    ));
}

/// An offence by an address without a record (never seen, or banned since)
/// opens a window at `now` with a count of one; it bans only where the
/// allowance is one.
pub proof fn lemma_fresh_count<K>(ledger: Map<K, Record>, key: K, allowance: u8, window: u32, now: u64)
    requires
        !ledger.contains_key(key),
    ensures
        allowance > 1 ==> record_step(ledger, key, allowance, window, now) == (
            ledger.insert(key, (1u8, now)),
            false,
        ),
        allowance <= 1 ==> record_step(ledger, key, allowance, window, now) == (
            ledger.remove(key),
            true,
        ),
{
}

/// An offence after the window of an address's record has passed starts a
/// fresh count of one, in a window that opens then; it bans only where the
/// allowance is one.
pub proof fn lemma_window_restarts<K>(
    ledger: Map<K, Record>,
    key: K,
    allowance: u8,
    window: u32,
    now: u64,
)
    requires
        ledger.contains_key(key),
        now > ledger[key].1 + window,
    ensures
        allowance > 1 ==> record_step(ledger, key, allowance, window, now) == (
            ledger.insert(key, (1u8, now)),
            false,
        ),
        allowance <= 1 ==> record_step(ledger, key, allowance, window, now) == (
            ledger.remove(key),
            true,
        ),
{
}

/// The ledger of both address families as one map from addresses.
pub open spec fn ledger_of(v4: Map<u32, Record>, v6: Map<u128, Record>) -> Map<IpAddr, Record> {
    Map::new(
        |a: IpAddr|
            match a {
                IpAddr::V4(k) => v4.contains_key(k),
                IpAddr::V6(k) => v6.contains_key(k),
            },
        |a: IpAddr|
            match a {
                IpAddr::V4(k) => v4[k],
                IpAddr::V6(k) => v6[k],
            },
    )
}

/// What a jail is: its allowance, its window (seconds), and its ledger.
pub struct JailView {
    pub allowance: u8,
    pub jailtime: u32,
    pub ledger: Map<IpAddr, Record>,
}

/// The offence ledger: counts offences per address within a time window,
/// and decides when an address is to be banned.
pub struct Jail {
    allowance: u8,
    jailtime: u32,
    v4: HashMap<u32, Record>,
    v6: HashMap<u128, Record>,
}

impl View for Jail {
    type V = JailView;

    closed spec fn view(&self) -> JailView {
        JailView { allowance: self.allowance, jailtime: self.jailtime, ledger: ledger_of(self.v4@, self.v6@) }
    }
}

fn record_in<K: Copy + Eq + Hash>(
    m: &mut HashMap<K, Record>,
    key: K,
    allowance: u8,
    window: u32,
    now: u64,
) -> (banned: bool)
    requires
        obeys_key_model::<K>(),
        records_below(old(m)@, allowance),
    ensures
        (final(m)@, banned) == record_step(old(m)@, key, allowance, window, now),
        records_below(final(m)@, allowance),
{
    let (hits, start): (u8, u64) = match m.get(&key) {
        Some(r) => {
            let (h, s) = *r;
            if now >= s && now - s > window as u64 {
                (1, now)
            } else {
                (h + 1, s)
            }
        },
        None => (1, now),
    };
    if hits < allowance {
        m.insert(key, (hits, start));
        false
    } else {
        m.remove(&key);
        true
    }
}

impl Jail {
    /// Well-formed: every record holds between one and `allowance - 1` offences.
    pub closed spec fn wf(&self) -> bool {
        records_below(self.v4@, self.allowance) && records_below(self.v6@, self.allowance)
    }

    /// An empty jail that bans an address at its `allowance`-th offence
    /// within `jailtime` seconds of the first.
    pub fn new(allowance: u8, jailtime: u32) -> (r: Jail)
        ensures
            r.wf(),
            r@.allowance == allowance,
            r@.jailtime == jailtime,
            r@.ledger == Map::<IpAddr, Record>::empty(),
    {
        let r = Jail { allowance, jailtime, v4: HashMap::new(), v6: HashMap::new() };
        assert(r@.ledger =~= Map::<IpAddr, Record>::empty());
        r
    }

    /// The record of `ip`: its count and the start of its window.
    pub fn record_of(&self, ip: IpAddr) -> (r: Option<Record>)
        ensures
            r == (if self@.ledger.contains_key(ip) {
                Some(self@.ledger[ip])
            } else {
                None
            }),
    {
        match ip {
            IpAddr::V4(k) => match self.v4.get(&k) {
                Some(r) => Some(*r),
                None => None,
            },
            IpAddr::V6(k) => match self.v6.get(&k) {
                Some(r) => Some(*r),
                None => None,
            },
        }
    }

    /// Records one offence by `ip` at `now` (seconds); true where this
    /// offence bans `ip`, whose record is then gone.
    pub fn sentence(&mut self, ip: IpAddr, now: u64) -> (banned: bool)
        requires
            old(self).wf(),
        ensures
            final(self).wf(),
            final(self)@.allowance == old(self)@.allowance,
            final(self)@.jailtime == old(self)@.jailtime,
            (final(self)@.ledger, banned) == record_step(
                old(self)@.ledger,
                ip,
                old(self)@.allowance,
                old(self)@.jailtime,
                now,
            ),
    {
        let ghost l = self@.ledger;
        match ip {
            IpAddr::V4(k) => {
                let ghost m6 = self.v6@;
                let banned = record_in(&mut self.v4, k, self.allowance, self.jailtime, now);
                proof {
                    let step = record_step(l, ip, self.allowance, self.jailtime, now);
                    assert(l.contains_key(ip) == old(self).v4@.contains_key(k));
                    assert(ledger_of(self.v4@, m6) =~= step.0);
                }
                banned
            },
            IpAddr::V6(k) => {
                let ghost m4 = self.v4@;
                let banned = record_in(&mut self.v6, k, self.allowance, self.jailtime, now);
                proof {
                    let step = record_step(l, ip, self.allowance, self.jailtime, now);
                    assert(l.contains_key(ip) == old(self).v6@.contains_key(k));
                    assert(ledger_of(m4, self.v6@) =~= step.0);
                }
                banned
            },
        }
    }
}

} // verus!
