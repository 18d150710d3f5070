use vstd::prelude::*;

verus! {

/// `pat` occurs in `s` starting at index `i`.
pub open spec fn occurs_at(s: Seq<char>, pat: Seq<char>, i: int) -> bool {
    0 <= i && i + pat.len() <= s.len() && s.subrange(i, i + pat.len()) == pat
}

/// `pat` occurs somewhere in `s`.
pub open spec fn contains_seq(s: Seq<char>, pat: Seq<char>) -> bool {
    exists|i: int| occurs_at(s, pat, i)
}

/// The characters of `s`, in order.
pub fn chars_of(s: &str) -> (r: Vec<char>)
    ensures
        r@ == s@,
{
    let mut r: Vec<char> = Vec::new();
    for c in it: s.chars()
        invariant
            it.seq() == s@,
            r@ == it.seq().subrange(0, it.index() as int),
    {
        r.push(c);
    }
    r
}

/// Whether `pat` occurs in `s`.
pub fn contains_chars(s: &Vec<char>, pat: &Vec<char>) -> (r: bool)
    ensures
        r == contains_seq(s@, pat@),
{
    if pat.len() > s.len() {
        assert(forall|i: int| !occurs_at(s@, pat@, i));
        return false;
    }
    let last: usize = s.len() - pat.len();
    let mut i: usize = 0;
    while i <= last
        invariant
            last == s.len() - pat.len(),
            i <= last + 1,
            forall|k: int| 0 <= k < i ==> !occurs_at(s@, pat@, k),
        decreases last + 1 - i,
    {
        let mut j: usize = 0;
        let mut same = true;
        while j < pat.len()
            invariant
                i <= last,
                last == s.len() - pat.len(),
                j <= pat.len(),
                same == (forall|m: int| 0 <= m < j ==> s@[i + m] == pat@[m]),
            decreases pat.len() - j,
        {
            if s[i + j] != pat[j] {
                same = false;
            }
            j = j + 1;
        }
        if same {
            assert(s@.subrange(i as int, i + pat.len()) =~= pat@);
            assert(occurs_at(s@, pat@, i as int));
            return true;
        }
        assert(!occurs_at(s@, pat@, i as int)) by {
            if occurs_at(s@, pat@, i as int) {
                assert forall|m: int| 0 <= m < pat.len() implies s@[i + m] == pat@[m] by {
                    assert(s@.subrange(i as int, i + pat.len())[m] == s@[i + m]);
                }
            }
        }
        i = i + 1;
    }
    assert forall|k: int| !occurs_at(s@, pat@, k) by {
        if 0 <= k && k + pat.len() <= s.len() {
            assert(k < i);
        }
    }
    false
}


/// A decimal digit.
pub open spec fn is_dec_digit(c: char) -> bool {
    '0' <= c && c <= '9'
}

/// A hexadecimal digit, in either case.
pub open spec fn is_hex_digit(c: char) -> bool {
    ('0' <= c && c <= '9') || ('a' <= c && c <= 'f') || ('A' <= c && c <= 'F')
}

/// The value of a hexadecimal (or decimal) digit.
pub open spec fn digit_value(c: char) -> int {
    if '0' <= c && c <= '9' {
        c as int - '0' as int
    } else if 'a' <= c && c <= 'f' {
        c as int - 'a' as int + 10
    } else {
        c as int - 'A' as int + 10
    }
}

/// The number written by the digits `s` in base `radix`, most significant first.
pub open spec fn digits_value(s: Seq<char>, radix: int) -> int
    decreases s.len(),
{
    if s.len() == 0 {
        0
    } else {
        digits_value(s.drop_last(), radix) * radix + digit_value(s.last())
    }
}

/// Every character of `s` is a decimal digit.
pub open spec fn all_dec(s: Seq<char>) -> bool {
    forall|i: int| 0 <= i < s.len() ==> is_dec_digit(#[trigger] s[i])
}

/// Every character of `s` is a hexadecimal digit.
pub open spec fn all_hex(s: Seq<char>) -> bool {
    forall|i: int| 0 <= i < s.len() ==> is_hex_digit(#[trigger] s[i])
}

/// `s` cut at every occurrence of `sep`; the pieces may be empty, and there is
/// always one more piece than there are separators.
pub open spec fn split(s: Seq<char>, sep: char) -> Seq<Seq<char>>
    decreases s.len(),
{
    if s.len() == 0 {
        seq![Seq::empty()]
    } else {
        let p = split(s.drop_last(), sep);
        if s.last() == sep {
            p.push(Seq::empty())
        } else {
            p.update(p.len() - 1, p.last().push(s.last()))
        }
    }
}

pub proof fn lemma_split_nonempty(s: Seq<char>, sep: char)
    ensures
        split(s, sep).len() >= 1,
    decreases s.len(),
{
    if s.len() > 0 {
        lemma_split_nonempty(s.drop_last(), sep);
    }
}

/// The views of a sequence of character vectors.
pub open spec fn views(v: Seq<Vec<char>>) -> Seq<Seq<char>> {
    v.map_values(|x: Vec<char>| x@)
}

/// The pieces of `s` between occurrences of `sep`.
pub fn split_chars(s: &Vec<char>, sep: char) -> (r: Vec<Vec<char>>)
    ensures
        views(r@) == split(s@, sep),
{
    let mut pieces: Vec<Vec<char>> = Vec::new();
    let mut cur: Vec<char> = Vec::new();
    let n: usize = s.len();
    assert(s@.subrange(0, 0) =~= Seq::<char>::empty());
    assert(views(pieces@).push(cur@) =~= split(s@.subrange(0, 0), sep));
    for i in 0..n
        invariant
            n == s.len(),
            views(pieces@).push(cur@) == split(s@.subrange(0, i as int), sep),
    {
        let c = s[i];
        let ghost pre = s@.subrange(0, i as int);
        assert(s@.subrange(0, i + 1).drop_last() =~= pre);
        if c == sep {
            pieces.push(cur);
            cur = Vec::new();
            assert(views(pieces@).push(cur@) =~= split(s@.subrange(0, i + 1), sep));
        } else {
            let ghost old_cur = cur@;
            cur.push(c);
            proof {
                lemma_split_nonempty(pre, sep);
            }
            assert(views(pieces@).push(cur@) =~= split(s@.subrange(0, i + 1), sep));
        }
    }
    assert(s@.subrange(0, n as int) =~= s@);
    pieces.push(cur);
    assert(views(pieces@) =~= split(s@, sep));
    pieces
}

/// A copy of `s[lo..hi]`.
pub fn sub_chars(s: &Vec<char>, lo: usize, hi: usize) -> (r: Vec<char>)
    requires
        lo <= hi <= s.len(),
    ensures
        r@ == s@.subrange(lo as int, hi as int),
{
    let mut r: Vec<char> = Vec::new();
    for i in lo..hi
        invariant
            lo <= hi <= s.len(),
            r@ == s@.subrange(lo as int, i as int),
    {
        r.push(s[i]);
        assert(r@ =~= s@.subrange(lo as int, i + 1));
    }
    r
}


/// Digits of base `radix` (10 or 16).
pub open spec fn all_digits(s: Seq<char>, radix: int) -> bool {
    if radix == 16 {
        all_hex(s)
    } else {
        all_dec(s)
    }
}

pub proof fn lemma_digits_value_prefix(s: Seq<char>, radix: int, i: int)
    requires
        radix == 10 || radix == 16,
        all_digits(s, radix),
        0 <= i <= s.len(),
    ensures
        0 <= digits_value(s.subrange(0, i), radix) <= digits_value(s, radix),
    decreases s.len() - i,
{
    if i == s.len() {
        assert(s.subrange(0, i) =~= s);
        lemma_digits_value_nonneg(s, radix);
    } else {
        lemma_digits_value_prefix(s, radix, i + 1);
        let t = s.subrange(0, i + 1);
        assert(t.drop_last() =~= s.subrange(0, i));
        assert(is_dec_digit(s[i]) || is_hex_digit(s[i]));
        lemma_digits_value_nonneg(s.subrange(0, i), radix);
        let v = digits_value(s.subrange(0, i), radix);
        assert(v * radix >= v) by (nonlinear_arith)
            requires
                v >= 0,
                radix >= 1,
        ;
    }
}

pub proof fn lemma_digits_value_nonneg(s: Seq<char>, radix: int)
    requires
        radix == 10 || radix == 16,
        all_digits(s, radix),
    ensures
        digits_value(s, radix) >= 0,
    decreases s.len(),
{
    if s.len() > 0 {
        assert(all_digits(s.drop_last(), radix)) by {
            assert(forall|i: int| 0 <= i < s.len() - 1 ==> s.drop_last()[i] == s[i]);
        }
        lemma_digits_value_nonneg(s.drop_last(), radix);
        let v = digits_value(s.drop_last(), radix);
        assert(v * radix >= 0) by (nonlinear_arith)
            requires
                v >= 0,
                radix >= 1,
        ;
        assert(is_dec_digit(s.last()) || is_hex_digit(s.last()));
    }
}

/// The value of the digits `s` of base `radix`, where it fits in a `u32`.
pub fn read_digits(s: &Vec<char>, radix: u32) -> (r: Option<u64>)
    requires
        radix == 10 || radix == 16,
        all_digits(s@, radix as int),
    ensures
        match r {
            Some(v) => v == digits_value(s@, radix as int) && v <= u32::MAX,
            None => digits_value(s@, radix as int) > u32::MAX,
        },
{
    let mut acc: u64 = 0;
    let n: usize = s.len();
    assert(s@.subrange(0, 0) =~= Seq::<char>::empty());
    for i in 0..n
        invariant
            n == s.len(),
            radix == 10 || radix == 16,
            all_digits(s@, radix as int),
            acc == digits_value(s@.subrange(0, i as int), radix as int),
            acc <= u32::MAX,
    {
        let c = s[i];
        assert(is_dec_digit(s@[i as int]) || is_hex_digit(s@[i as int]));
        let d: u64 = if '0' <= c && c <= '9' {
            (c as u32 - '0' as u32) as u64
        } else if 'a' <= c && c <= 'f' {
            (c as u32 - 'a' as u32 + 10) as u64
        } else {
            (c as u32 - 'A' as u32 + 10) as u64
        };
        assert(s@.subrange(0, i + 1).drop_last() =~= s@.subrange(0, i as int));
        assert(acc * (radix as u64) <= 16 * 0xffff_ffffu64) by (nonlinear_arith)
            requires
                acc <= 0xffff_ffffu64,
                radix <= 16,
        ;
        let next: u64 = acc * (radix as u64) + d;
        if next > 0xffff_ffffu64 {
            proof {
                lemma_digits_value_prefix(s@, radix as int, i + 1);
            }
            return None;
        }
        acc = next;
    }
    assert(s@.subrange(0, n as int) =~= s@);
    Some(acc)
}


/// Whether `pat` occurs in `s` at index `i`.
pub fn occurs_at_exec(s: &Vec<char>, pat: &Vec<char>, i: usize) -> (r: bool)
    ensures
        r == occurs_at(s@, pat@, i as int),
{
    if i > s.len() || pat.len() > s.len() - i {
        return false;
    }
    let mut j: usize = 0;
    while j < pat.len()
        invariant
            i + pat.len() <= s.len(),
            j <= pat.len(),
            forall|m: int| 0 <= m < j ==> s@[i + m] == pat@[m],
        decreases pat.len() - j,
    {
        if s[i + j] != pat[j] {
            assert(s@.subrange(i as int, i + pat.len())[j as int] != pat@[j as int]);
            return false;
        }
        j = j + 1;
    }
    assert(s@.subrange(i as int, i + pat.len()) =~= pat@);
    true
}

/// `s` with every occurrence of `pat` taken out, matched from the left and
/// without overlap.
pub open spec fn remove_all(s: Seq<char>, pat: Seq<char>) -> Seq<char>
    decreases s.len(),
{
    if s.len() == 0 || pat.len() == 0 {
        s
    } else if pat.len() <= s.len() && s.subrange(0, pat.len() as int) == pat {
        remove_all(s.subrange(pat.len() as int, s.len() as int), pat)
    } else {
        seq![s[0]] + remove_all(s.drop_first(), pat)
    }
}

/// `s` with every occurrence of `pat` taken out.
pub fn remove_all_chars(s: &Vec<char>, pat: &Vec<char>) -> (r: Vec<char>)
    requires
        pat.len() >= 1,
    ensures
        r@ == remove_all(s@, pat@),
{
    let n = s.len();
    let mut out: Vec<char> = Vec::new();
    let mut i: usize = 0;
    assert(s@.subrange(0, n as int) =~= s@);
    while i < n
        invariant
            n == s.len(),
            pat.len() >= 1,
            i <= n,
            out@ + remove_all(s@.subrange(i as int, n as int), pat@) == remove_all(s@, pat@),
        decreases n - i,
    {
        let ghost rest = s@.subrange(i as int, n as int);
        if occurs_at_exec(s, pat, i) {
            assert(rest.subrange(0, pat.len() as int) =~= s@.subrange(i as int, i + pat.len()));
            assert(rest.subrange(pat.len() as int, rest.len() as int) =~= s@.subrange(
                i + pat.len(),
                n as int,
            ));
            i = i + pat.len();
        } else {
            assert(!(pat.len() <= rest.len() && rest.subrange(0, pat.len() as int) == pat@)) by {
                if pat.len() <= rest.len() {
                    assert(rest.subrange(0, pat.len() as int) =~= s@.subrange(
                        i as int,
                        i + pat.len(),
                    ));
                }
            }
            assert(rest.drop_first() =~= s@.subrange(i + 1, n as int));
            let ghost o = out@;
            out.push(s[i]);
            assert(out@ =~= o + seq![rest[0]]);
            assert(out@ + remove_all(s@.subrange(i + 1, n as int), pat@) =~= o + (seq![rest[0]]
                + remove_all(rest.drop_first(), pat@)));
            i = i + 1;
        }
    }
    assert(s@.subrange(n as int, n as int) =~= Seq::<char>::empty());
    assert(out@ + Seq::<char>::empty() =~= out@);
    out
}

/// What `u32`'s `FromStr` reads: an optional '+' and one or more decimal
/// digits, whose number fits in a `u32`.
pub open spec fn u32_of(t: Seq<char>) -> Option<u32> {
    let d = if t.len() > 0 && t[0] == '+' {
        t.drop_first()
    } else {
        t
    };
    if d.len() >= 1 && all_dec(d) && digits_value(d, 10) <= u32::MAX {
        Some(digits_value(d, 10) as u32)
    } else {
        None
    }
}

/// The `u32` written by `t`.
pub fn parse_u32(t: &Vec<char>) -> (r: Option<u32>)
    ensures
        r == u32_of(t@),
{
    let d: Vec<char> = if t.len() > 0 && t[0] == '+' {
        sub_chars(t, 1, t.len())
    } else {
        sub_chars(t, 0, t.len())
    };
    assert(t@.subrange(0, t.len() as int) =~= t@);
    assert(t.len() > 0 ==> t@.subrange(1, t.len() as int) =~= t@.drop_first());
    assert(d@ =~= (if t@.len() > 0 && t@[0] == '+' {
        t@.drop_first()
    } else {
        t@
    }));
    if d.len() == 0 {
        return None;
    }
    for i in 0..d.len()
        invariant
            d@ == (if t@.len() > 0 && t@[0] == '+' {
                t@.drop_first()
            } else {
                t@
            }),
            forall|j: int| 0 <= j < i ==> is_dec_digit(#[trigger] d@[j]),
    {
        if !('0' <= d[i] && d[i] <= '9') {
            assert(!is_dec_digit(d@[i as int]));
            return None;
        }
    }
    match read_digits(&d, 10) {
        Some(v) => Some(v as u32),
        None => None,
    }
}

} // verus!
