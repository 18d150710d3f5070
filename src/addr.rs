use vstd::prelude::*;

use crate::text::{
    all_dec, all_hex, chars_of, digits_value, is_dec_digit, is_hex_digit, occurs_at, read_digits,
    split, split_chars, sub_chars, views,
};

verus! {

/// An IP address: an IPv4 address as its 32-bit number, or an IPv6
/// address as its 128-bit number (the octets or groups read most
/// significant first).
#[derive(Clone, Copy, Debug, PartialEq, Eq, Hash)]
pub enum IpAddr {
    V4(u32),
    V6(u128),
}

/// A decimal octet of a dotted quad: one to three digits, no leading zero
/// but in "0" itself, at most 255.
pub open spec fn octet_of(p: Seq<char>) -> Option<u8> {
    if 1 <= p.len() <= 3 && all_dec(p) && !(p.len() > 1 && p[0] == '0') && digits_value(p, 10)
        <= 255 {
        Some(digits_value(p, 10) as u8)
    } else {
        None
    }
}

/// A group of an IPv6 address: one to four hexadecimal digits.
pub open spec fn h16_of(p: Seq<char>) -> Option<u16> {
    if 1 <= p.len() <= 4 && all_hex(p) {
        Some(digits_value(p, 16) as u16)
    } else {
        None
    }
}

/// The four octets of a dotted-quad IPv4 literal.
pub open spec fn ipv4_octets(s: Seq<char>) -> Option<Seq<u8>> {
    let ps = split(s, '.');
    if ps.len() == 4 && (forall|i: int| 0 <= i < 4 ==> (#[trigger] octet_of(ps[i])) is Some) {
        Some(Seq::new(4, |i: int| octet_of(ps[i])->0))
    } else {
        None
    }
}

/// The number of four octets, the first one most significant.
pub open spec fn octets_value(o: Seq<u8>) -> int {
    ((o[0] * 256 + o[1]) * 256 + o[2]) * 256 + o[3]
}

/// Every piece is a group.
pub open spec fn all_h16(ps: Seq<Seq<char>>) -> bool {
    forall|i: int| 0 <= i < ps.len() ==> (#[trigger] h16_of(ps[i])) is Some
}

/// The values of pieces that are all groups.
pub open spec fn h16_values(ps: Seq<Seq<char>>) -> Seq<u16> {
    Seq::new(ps.len(), |i: int| h16_of(ps[i])->0)
}

/// Colon-separated pieces of an IPv6 address: groups, the last of which
/// may instead be a dotted quad standing for two groups.
pub open spec fn group_list(ps: Seq<Seq<char>>) -> Option<Seq<u16>> {
    if all_h16(ps) {
        Some(h16_values(ps))
    } else if ps.len() >= 1 && all_h16(ps.drop_last()) && ipv4_octets(ps.last()) is Some {
        let o = ipv4_octets(ps.last())->0;
        Some(h16_values(ps.drop_last()) + seq![(o[0] * 256 + o[1]) as u16, (o[2] * 256 + o[3]) as u16])
    } else {
        None
    }
}

pub open spec fn double_colon() -> Seq<char> {
    seq![':', ':']
}

/// `k` is where the first "::" of `s` stands.
pub open spec fn first_double_colon(s: Seq<char>, k: int) -> bool {
    occurs_at(s, double_colon(), k) && forall|j: int| 0 <= j < k ==> !occurs_at(s, double_colon(), j)
}

/// The eight groups of an IPv6 literal: eight groups written out (the last
/// two possibly as a dotted quad), or a "::" that stands for one or more zero
/// groups between the groups written before it and those written after it.
pub open spec fn ipv6_groups(s: Seq<char>) -> Option<Seq<u16>> {
    if exists|k: int| first_double_colon(s, k) {
        let k = choose|k: int| first_double_colon(s, k);
        let head = s.subrange(0, k);
        let tail = s.subrange(k + 2, s.len() as int);
        let hg: Option<Seq<u16>> = if head.len() == 0 {
            Some(Seq::empty())
        } else if all_h16(split(head, ':')) {
            Some(h16_values(split(head, ':')))
        } else {
            None
        };
        let tg: Option<Seq<u16>> = if tail.len() == 0 {
            Some(Seq::empty())
        } else {
            group_list(split(tail, ':'))
        };
        if hg is Some && tg is Some && hg->0.len() + tg->0.len() <= 7 {
            Some(hg->0 + Seq::new((8 - hg->0.len() - tg->0.len()) as nat, |i: int| 0u16) + tg->0)
        } else {
            None
        }
    } else {
        match group_list(split(s, ':')) {
            Some(g) => if g.len() == 8 {
                Some(g)
            } else {
                None
            },
            None => None,
        }
    }
}

/// The number of a sequence of groups, the first one most significant.
pub open spec fn groups_value(g: Seq<u16>) -> int
    decreases g.len(),
{
    if g.len() == 0 {
        0
    } else {
        groups_value(g.drop_last()) * 65536 + g.last()
    }
}

/// The address that the text `s` is a literal of: a dotted quad, else an
/// IPv6 literal.
pub open spec fn ip_of(s: Seq<char>) -> Option<IpAddr> {
    if ipv4_octets(s) is Some {
        Some(IpAddr::V4(octets_value(ipv4_octets(s)->0) as u32))
    } else if ipv6_groups(s) is Some {
        Some(IpAddr::V6(groups_value(ipv6_groups(s)->0) as u128))
    } else {
        None
    }
}

fn octet(p: &Vec<char>) -> (r: Option<u8>)
    ensures
        r == octet_of(p@),
{
    if p.len() < 1 || p.len() > 3 {
        return None;
    }
    for i in 0..p.len()
        invariant
            forall|j: int| 0 <= j < i ==> is_dec_digit(#[trigger] p@[j]),
    {
        if !('0' <= p[i] && p[i] <= '9') {
            return None;
        }
    }
    if p.len() > 1 && p[0] == '0' {
        return None;
    }
    match read_digits(p, 10) {
        Some(v) => if v <= 255 {
            Some(v as u8)
        } else {
            None
        },
        None => None,
    }
}

fn h16(p: &Vec<char>) -> (r: Option<u16>)
    ensures
        r == h16_of(p@),
{
    if p.len() < 1 || p.len() > 4 {
        return None;
    }
    for i in 0..p.len()
        invariant
            forall|j: int| 0 <= j < i ==> is_hex_digit(#[trigger] p@[j]),
    {
        let c = p[i];
        if !(('0' <= c && c <= '9') || ('a' <= c && c <= 'f') || ('A' <= c && c <= 'F')) {
            return None;
        }
    }
    proof {
        lemma_h16_small(p@);
    }
    match read_digits(p, 16) {
        Some(v) => Some(v as u16),
        None => None,
    }
}

proof fn lemma_h16_small(p: Seq<char>)
    requires
        p.len() <= 4,
        all_hex(p),
    ensures
        digits_value(p, 16) < pow16(p.len()),
        pow16(p.len()) <= 65536,
    decreases p.len(),
{
    if p.len() > 0 {
        assert(all_hex(p.drop_last())) by {
            assert(forall|i: int| 0 <= i < p.len() - 1 ==> p.drop_last()[i] == p[i]);
        }
        lemma_h16_small(p.drop_last());
        assert(is_hex_digit(p.last()));
        let v = digits_value(p.drop_last(), 16);
        let b = pow16((p.len() - 1) as nat);
        assert(v * 16 + 15 < b * 16) by (nonlinear_arith)
            requires
                v < b,
        ;
    }
    reveal_with_fuel(pow16, 5);
}

/// 16 to the power `n`.
pub open spec fn pow16(n: nat) -> int
    decreases n,
{
    if n == 0 {
        1
    } else {
        16 * pow16((n - 1) as nat)
    }
}


fn dotted_quad(cs: &Vec<char>) -> (r: Option<(u8, u8, u8, u8)>)
    ensures
        match r {
            Some(o) => ipv4_octets(cs@) == Some(seq![o.0, o.1, o.2, o.3]),
            None => ipv4_octets(cs@) is None,
        },
{
    let ps = split_chars(cs, '.');
    if ps.len() != 4 {
        return None;
    }
    let ghost v = split(cs@, '.');
    assert(forall|i: int| 0 <= i < 4 ==> v[i] == (#[trigger] ps@[i])@);
    let a = match octet(&ps[0]) {
        Some(a) => a,
        None => {
            assert(octet_of(v[0]) is None);
            return None;
        },
    };
    let b = match octet(&ps[1]) {
        Some(b) => b,
        None => {
            assert(octet_of(v[1]) is None);
            return None;
        },
    };
    let c = match octet(&ps[2]) {
        Some(c) => c,
        None => {
            assert(octet_of(v[2]) is None);
            return None;
        },
    };
    let d = match octet(&ps[3]) {
        Some(d) => d,
        None => {
            assert(octet_of(v[3]) is None);
            return None;
        },
    };
    assert(forall|i: int| 0 <= i < 4 ==> (#[trigger] octet_of(v[i])) is Some) by {
        assert(octet_of(v[0]) is Some && octet_of(v[1]) is Some);
        assert(octet_of(v[2]) is Some && octet_of(v[3]) is Some);
    }
    assert(Seq::new(4, |i: int| octet_of(v[i])->0) =~= seq![a, b, c, d]);
    Some((a, b, c, d))
}

/// The values of the first `count` pieces, where all of them are groups.
fn leading_groups(ps: &Vec<Vec<char>>, count: usize) -> (r: Option<Vec<u16>>)
    requires
        count <= ps.len(),
    ensures
        match r {
            Some(g) => all_h16(views(ps@).subrange(0, count as int)) && g@ == h16_values(
                views(ps@).subrange(0, count as int),
            ),
            None => !all_h16(views(ps@).subrange(0, count as int)),
        },
{
    let ghost v = views(ps@);
    let mut g: Vec<u16> = Vec::new();
    for i in 0..count
        invariant
            count <= ps.len(),
            v == views(ps@),
            all_h16(v.subrange(0, i as int)),
            g@ == h16_values(v.subrange(0, i as int)),
    {
        assert(v[i as int] == ps@[i as int]@);
        match h16(&ps[i]) {
            Some(x) => {
                g.push(x);
                assert(all_h16(v.subrange(0, i + 1))) by {
                    assert(forall|j: int| 0 <= j < i ==> v.subrange(0, i + 1)[j] == v.subrange(0, i as int)[j]);
                }
                assert(g@ =~= h16_values(v.subrange(0, i + 1))) by {
                    assert(forall|j: int| 0 <= j < i ==> v.subrange(0, i + 1)[j] == v.subrange(0, i as int)[j]);
                }
            },
            None => {
                assert(h16_of(v.subrange(0, count as int)[i as int]) is None);
                return None;
            },
        }
    }
    Some(g)
}

/// The groups of colon-separated pieces of an IPv6 address.
fn groups(ps: &Vec<Vec<char>>) -> (r: Option<Vec<u16>>)
    ensures
        match r {
            Some(g) => group_list(views(ps@)) == Some(g@),
            None => group_list(views(ps@)) is None,
        },
{
    let ghost v = views(ps@);
    let n = ps.len();
    assert(v.subrange(0, n as int) =~= v);
    match leading_groups(ps, n) {
        Some(g) => return Some(g),
        None => {},
    }
    if n == 0 {
        return None;
    }
    assert(v.subrange(0, n - 1) =~= v.drop_last());
    assert(v.last() == ps@[n - 1]@);
    let mut g = match leading_groups(ps, n - 1) {
        Some(g) => g,
        None => return None,
    };
    match dotted_quad(&ps[n - 1]) {
        Some((a, b, c, d)) => {
            let hi: u16 = (a as u16) * 256 + (b as u16);
            let lo: u16 = (c as u16) * 256 + (d as u16);
            let ghost g0 = g@;
            g.push(hi);
            g.push(lo);
            assert(g@ =~= g0 + seq![hi, lo]);
            Some(g)
        },
        None => None,
    }
}

proof fn lemma_occurs_double_colon(s: Seq<char>, k: int)
    ensures
        occurs_at(s, double_colon(), k) <==> (0 <= k && k + 2 <= s.len() && s[k] == ':' && s[k
            + 1] == ':'),
{
    if 0 <= k && k + 2 <= s.len() {
        let t = s.subrange(k, k + 2);
        if s[k] == ':' && s[k + 1] == ':' {
            assert(t =~= double_colon());
        }
        if t == double_colon() {
            assert(t[0] == s[k] && t[1] == s[k + 1]);
        }
    }
}

/// The eight groups of an IPv6 literal.
fn ipv6(cs: &Vec<char>) -> (r: Option<Vec<u16>>)
    ensures
        match r {
            Some(g) => ipv6_groups(cs@) == Some(g@),
            None => ipv6_groups(cs@) is None,
        },
{
    let n = cs.len();
    let mut k: usize = 0;
    let mut found = false;
    while n > 0 && k < n - 1
        invariant_except_break
            !found,
        invariant
            n == cs.len(),
            k <= n,
            forall|j: int| 0 <= j < k ==> !occurs_at(cs@, double_colon(), j),
        ensures
            k <= n,
            forall|j: int| 0 <= j < k ==> !occurs_at(cs@, double_colon(), j),
            found ==> k + 1 < n && cs@[k as int] == ':' && cs@[k + 1] == ':',
            !found ==> k + 1 >= n,
        decreases n - k,
    {
        if cs[k] == ':' && cs[k + 1] == ':' {
            found = true;
            break;
        }
        proof {
            lemma_occurs_double_colon(cs@, k as int);
        }
        k = k + 1;
    }
    if !found {
        assert forall|j: int| !first_double_colon(cs@, j) by {
            lemma_occurs_double_colon(cs@, j);
            if 0 <= j && j + 2 <= n {
                assert(j < k);
            }
        }
        let ps = split_chars(cs, ':');
        return match groups(&ps) {
            Some(g) => if g.len() == 8 {
                Some(g)
            } else {
                None
            },
            None => None,
        };
    }
    proof {
        lemma_occurs_double_colon(cs@, k as int);
        assert(first_double_colon(cs@, k as int));
        let kk = choose|kk: int| first_double_colon(cs@, kk);
        assert(kk == k) by {
            if kk < k {
                assert(!occurs_at(cs@, double_colon(), kk));
            }
            if kk > k {
                assert(!occurs_at(cs@, double_colon(), k as int));
            }
        }
    }
    let head = sub_chars(cs, 0, k);
    let tail = sub_chars(cs, k + 2, n);
    let hg: Vec<u16> = if head.len() == 0 {
        Vec::new()
    } else {
        let hp = split_chars(&head, ':');
        assert(views(hp@).subrange(0, hp.len() as int) =~= views(hp@));
        match leading_groups(&hp, hp.len()) {
            Some(g) => g,
            None => return None,
        }
    };
    let tg: Vec<u16> = if tail.len() == 0 {
        Vec::new()
    } else {
        let tp = split_chars(&tail, ':');
        match groups(&tp) {
            Some(g) => g,
            None => return None,
        }
    };
    if hg.len() > 7 || tg.len() > 7 - hg.len() {
        return None;
    }
    let zeros: usize = 8 - hg.len() - tg.len();
    let mut out: Vec<u16> = Vec::new();
    for i in 0..hg.len()
        invariant
            out@ == hg@.subrange(0, i as int),
    {
        out.push(hg[i]);
        assert(out@ =~= hg@.subrange(0, i + 1));
    }
    assert(hg@.subrange(0, hg.len() as int) =~= hg@);
    let ghost zs = Seq::new(zeros as nat, |i: int| 0u16);
    for i in 0..zeros
        invariant
            zeros == 8 - hg.len() - tg.len(),
            zs == Seq::new(zeros as nat, |i: int| 0u16),
            out@ == hg@ + zs.subrange(0, i as int),
    {
        out.push(0);
        assert(out@ =~= hg@ + zs.subrange(0, i + 1));
    }
    assert(zs.subrange(0, zeros as int) =~= zs);
    for i in 0..tg.len()
        invariant
            out@ == hg@ + zs + tg@.subrange(0, i as int),
    {
        out.push(tg[i]);
        assert(out@ =~= hg@ + zs + tg@.subrange(0, i + 1));
    }
    assert(tg@.subrange(0, tg.len() as int) =~= tg@);
    Some(out)
}


/// 65536 to the power `n`.
pub open spec fn pow65536(n: nat) -> int
    decreases n,
{
    if n == 0 {
        1
    } else {
        65536 * pow65536((n - 1) as nat)
    }
}

proof fn lemma_pow65536_mono(a: nat, b: nat)
    requires
        a <= b,
    ensures
        1 <= pow65536(a) <= pow65536(b),
    decreases b,
{
    if a < b {
        lemma_pow65536_mono(a, (b - 1) as nat);
    } else if a > 0 {
        lemma_pow65536_mono((a - 1) as nat, (a - 1) as nat);
    }
}

proof fn lemma_groups_value_bound(g: Seq<u16>)
    ensures
        0 <= groups_value(g) < pow65536(g.len()),
    decreases g.len(),
{
    if g.len() > 0 {
        lemma_groups_value_bound(g.drop_last());
        let v = groups_value(g.drop_last());
        let b = pow65536((g.len() - 1) as nat);
        let x = g.last() as int;
        assert(0 <= v * 65536 + x < b * 65536) by (nonlinear_arith)
            requires
                0 <= v < b,
                0 <= x < 65536,
        ;
    }
}

fn groups_number(g: &Vec<u16>) -> (r: u128)
    requires
        g.len() == 8,
    ensures
        r == groups_value(g@),
{
    let mut acc: u128 = 0;
    assert(g@.subrange(0, 0) =~= Seq::<u16>::empty());
    proof {
        reveal_with_fuel(pow65536, 9);
    }
    assert(pow65536(8) == 0x1_0000_0000_0000_0000_0000_0000_0000_0000int);
    for i in 0..8
        invariant
            g.len() == 8,
            pow65536(8) == 0x1_0000_0000_0000_0000_0000_0000_0000_0000int,
            acc == groups_value(g@.subrange(0, i as int)),
    {
        let ghost next = g@.subrange(0, i + 1);
        assert(next.drop_last() =~= g@.subrange(0, i as int));
        proof {
            lemma_groups_value_bound(next);
            lemma_pow65536_mono((i + 1) as nat, 8);
        }
        acc = acc * 65536 + g[i] as u128;
    }
    assert(g@.subrange(0, 8) =~= g@);
    acc
}

/// The address written by the literal `s`: a dotted quad such as "8.8.8.8",
/// or an IPv6 literal such as "2001:db8::1" or "::ffff:1.2.3.4".
pub fn parse_ip(s: &str) -> (r: Option<IpAddr>)
    ensures
        r == ip_of(s@),
{
    let cs = chars_of(s);
    match dotted_quad(&cs) {
        Some((a, b, c, d)) => {
            let v: u32 = (a as u32) * 16777216 + (b as u32) * 65536 + (c as u32) * 256 + (d as u32);
            return Some(IpAddr::V4(v));
        },
        None => {},
    }
    match ipv6(&cs) {
        Some(g) => {
            assert(g@.len() == 8);
            Some(IpAddr::V6(groups_number(&g)))
        },
        None => None,
    }
}

} // verus!
