//! IP address literals: the exact set of strings that `IpAddr::from_str`
//! accepts, stated as a grammar over characters and decided by verified
//! recognisers.

use vstd::prelude::*;
use crate::text::{
    all_digits, digits_value, is_digit, is_ws, join, lemma_join_split, lemma_split_nonempty, parse_u64_chars,
    split, split_chars, trim, trim_end, trim_start, views,
};

verus! {

// ---------------------------------------------------------------------------
// Grammar
// ---------------------------------------------------------------------------

/// An ASCII hexadecimal digit.
pub open spec fn is_hex(c: char) -> bool {
    ||| ('0' <= c && c <= '9')
    ||| ('a' <= c && c <= 'f')
    ||| ('A' <= c && c <= 'F')
}

/// A decimal octet as the standard IPv4 parser reads it: one to three digits,
/// no leading zero unless the octet is `0` itself, value at most 255.
pub open spec fn is_dec_octet(p: Seq<char>) -> bool {
    &&& 1 <= p.len() <= 3
    &&& all_digits(p)
    &&& (p.len() == 1 || p[0] != '0')
    &&& digits_value(p) <= 255
}

/// A dotted-quad IPv4 literal.
pub open spec fn is_ipv4_literal(s: Seq<char>) -> bool {
    let parts = split(s, '.');
    &&& parts.len() == 4
    &&& forall|k: int| 0 <= k < 4 ==> is_dec_octet(#[trigger] parts[k])
}

/// A 16-bit IPv6 group: one to four hexadecimal digits.
pub open spec fn is_h16(p: Seq<char>) -> bool {
    &&& 1 <= p.len() <= 4
    &&& forall|i: int| 0 <= i < p.len() ==> is_hex(#[trigger] p[i])
}

/// A colon-separated run of IPv6 groups; the last piece may instead be an
/// embedded IPv4 address (worth two groups) when `allow_v4` holds.
pub open spec fn groups_ok(ps: Seq<Seq<char>>, allow_v4: bool) -> bool {
    &&& ps.len() >= 1
    &&& forall|k: int| 0 <= k < ps.len() - 1 ==> is_h16(#[trigger] ps[k])
    &&& (is_h16(ps.last()) || (allow_v4 && is_ipv4_literal(ps.last())))
}

/// The number of 16-bit groups a run of pieces stands for.
pub open spec fn groups_count(ps: Seq<Seq<char>>) -> int {
    if ps.len() > 0 && is_ipv4_literal(ps.last()) {
        ps.len() as int + 1
    } else {
        ps.len() as int
    }
}

/// An IPv6 literal: eight groups, or fewer groups with exactly one `::`
/// standing for at least one group of zeros; an embedded IPv4 address may
/// only end the literal.
pub open spec fn is_ipv6_literal(s: Seq<char>) -> bool {
    let p = split(s, ':');
    let n = p.len() as int;
    ||| (groups_ok(p, true) && groups_count(p) == 8)
    ||| (n == 3 && p[0].len() == 0 && p[1].len() == 0 && p[2].len() == 0)
    ||| (n >= 3 && p[0].len() == 0 && p[1].len() == 0 && groups_ok(p.subrange(2, n), true)
        && groups_count(p.subrange(2, n)) <= 7)
    ||| (n >= 3 && p[n - 1].len() == 0 && p[n - 2].len() == 0 && groups_ok(
        p.subrange(0, n - 2),
        false,
    ) && groups_count(p.subrange(0, n - 2)) <= 7)
    ||| exists|k: int|
        0 < k < n - 1 && (#[trigger] p[k]).len() == 0 && groups_ok(p.subrange(0, k), false)
            && groups_ok(p.subrange(k + 1, n), true) && groups_count(p.subrange(0, k))
            + groups_count(p.subrange(k + 1, n)) <= 7
}

/// What `IpAddr::from_str` accepts.
pub open spec fn is_ip_literal(s: Seq<char>) -> bool {
    is_ipv4_literal(s) || is_ipv6_literal(s)
}

/// Characters that can appear in an IP literal.
pub open spec fn is_ip_char(c: char) -> bool {
    is_hex(c) || c == '.' || c == ':'
}

// ---------------------------------------------------------------------------
// Lemmas
// ---------------------------------------------------------------------------

proof fn lemma_join_chars(ps: Seq<Seq<char>>, sep: char)
    requires
        is_ip_char(sep),
        forall|k: int, j: int| 0 <= k < ps.len() && 0 <= j < ps[k].len() ==> is_ip_char(#[trigger] ps[k][j]),
    ensures
        forall|i: int| 0 <= i < join(ps, sep).len() ==> is_ip_char(#[trigger] join(ps, sep)[i]),
    decreases ps.len(),
{
    if ps.len() == 1 {
        assert forall|i: int| 0 <= i < join(ps, sep).len() implies is_ip_char(#[trigger] join(ps, sep)[i]) by {
            assert(join(ps, sep)[i] == ps[0][i]);
        }
    } else if ps.len() > 1 {
        let q = ps.drop_last();
        assert forall|k: int, j: int| 0 <= k < q.len() && 0 <= j < q[k].len() implies is_ip_char(#[trigger] q[k][j]) by {
            assert(q[k] == ps[k]);
        }
        lemma_join_chars(q, sep);
        let a = join(q, sep).push(sep);
        let l = ps.last();
        assert forall|i: int| 0 <= i < join(ps, sep).len() implies is_ip_char(#[trigger] join(ps, sep)[i]) by {
            if i < join(q, sep).len() {
                assert(join(ps, sep)[i] == join(q, sep)[i]);
            } else if i == join(q, sep).len() {
                assert(join(ps, sep)[i] == sep);
            } else {
                assert(join(ps, sep)[i] == l[i - a.len()]);
                assert(ps[ps.len() - 1] == l);
            }
        }
    }
}

proof fn lemma_ipv4_chars(s: Seq<char>)
    requires
        is_ipv4_literal(s),
    ensures
        forall|i: int| 0 <= i < s.len() ==> is_ip_char(#[trigger] s[i]),
{
    let parts = split(s, '.');
    assert forall|k: int, j: int| 0 <= k < parts.len() && 0 <= j < parts[k].len() implies is_ip_char(#[trigger] parts[k][j]) by {
        assert(is_dec_octet(parts[k]));
        assert(is_digit(parts[k][j]));
    }
    lemma_join_chars(parts, '.');
    lemma_join_split(s, '.');
}

proof fn lemma_piece_chars(p: Seq<char>)
    requires
        is_h16(p) || is_ipv4_literal(p) || p.len() == 0,
    ensures
        forall|j: int| 0 <= j < p.len() ==> is_ip_char(#[trigger] p[j]),
{
    if is_ipv4_literal(p) {
        lemma_ipv4_chars(p);
    }
}

proof fn lemma_ipv6_chars(s: Seq<char>)
    requires
        is_ipv6_literal(s),
    ensures
        forall|i: int| 0 <= i < s.len() ==> is_ip_char(#[trigger] s[i]),
{
    let p = split(s, ':');
    let n = p.len() as int;
    // every piece is a group, an embedded IPv4 address, or empty
    assert forall|k: int| 0 <= k < n implies (is_h16(#[trigger] p[k]) || is_ipv4_literal(p[k]) || p[k].len() == 0) by {
        if groups_ok(p, true) && groups_count(p) == 8 {
            if k < n - 1 {
            } else {
                assert(p[k] == p.last());
            }
        } else if n == 3 && p[0].len() == 0 && p[1].len() == 0 && p[2].len() == 0 {
        } else if n >= 3 && p[0].len() == 0 && p[1].len() == 0 && groups_ok(p.subrange(2, n), true)
            && groups_count(p.subrange(2, n)) <= 7 {
            let t = p.subrange(2, n);
            if k >= 2 {
                assert(p[k] == t[k - 2]);
                if k - 2 < t.len() - 1 {
                    assert(is_h16(t[k - 2]));
                } else {
                    assert(t[k - 2] == t.last());
                }
            }
        } else if n >= 3 && p[n - 1].len() == 0 && p[n - 2].len() == 0 && groups_ok(
            p.subrange(0, n - 2),
            false,
        ) && groups_count(p.subrange(0, n - 2)) <= 7 {
            let h = p.subrange(0, n - 2);
            if k < n - 2 {
                assert(p[k] == h[k]);
                if k < h.len() - 1 {
                    assert(is_h16(h[k]));
                } else {
                    assert(h[k] == h.last());
                }
            }
        } else {
            let g = choose|g: int|
                0 < g < n - 1 && (#[trigger] p[g]).len() == 0 && groups_ok(p.subrange(0, g), false)
                    && groups_ok(p.subrange(g + 1, n), true) && groups_count(p.subrange(0, g))
                    + groups_count(p.subrange(g + 1, n)) <= 7;
            let h = p.subrange(0, g);
            let t = p.subrange(g + 1, n);
            if k < g {
                assert(p[k] == h[k]);
                if k < h.len() - 1 {
                    assert(is_h16(h[k]));
                } else {
                    assert(h[k] == h.last());
                }
            } else if k > g {
                assert(p[k] == t[k - g - 1]);
                if k - g - 1 < t.len() - 1 {
                    assert(is_h16(t[k - g - 1]));
                } else {
                    assert(t[k - g - 1] == t.last());
                }
            }
        }
    }
    assert forall|k: int, j: int| 0 <= k < p.len() && 0 <= j < p[k].len() implies is_ip_char(#[trigger] p[k][j]) by {
        assert(is_h16(p[k]) || is_ipv4_literal(p[k]) || p[k].len() == 0);
        lemma_piece_chars(p[k]);
    }
    lemma_join_chars(p, ':');
    lemma_join_split(s, ':');
}

/// Every character of an IP literal is a hexadecimal digit, `.` or `:`.
pub proof fn lemma_ip_literal_chars(s: Seq<char>)
    requires
        is_ip_literal(s),
    ensures
        forall|i: int| 0 <= i < s.len() ==> is_ip_char(#[trigger] s[i]),
{
    if is_ipv4_literal(s) {
        lemma_ipv4_chars(s);
    } else {
        lemma_ipv6_chars(s);
    }
}

/// `trim_start(s)` is a suffix of `s` preceded only by whitespace.
pub proof fn lemma_trim_start_index(s: Seq<char>) -> (a: int)
    ensures
        0 <= a <= s.len(),
        trim_start(s) == s.subrange(a, s.len() as int),
        forall|k: int| 0 <= k < a ==> is_ws(#[trigger] s[k]),
    decreases s.len(),
{
    if s.len() > 0 && is_ws(s[0]) {
        let b = lemma_trim_start_index(s.drop_first());
        assert(s.drop_first().subrange(b, s.drop_first().len() as int) == s.subrange(
            b + 1,
            s.len() as int,
        ));
        assert forall|k: int| 0 <= k < b + 1 implies is_ws(#[trigger] s[k]) by {
            if k > 0 {
                assert(s[k] == s.drop_first()[k - 1]);
            }
        }
        b + 1
    } else {
        assert(s.subrange(0, s.len() as int) == s);
        0
    }
}

/// `trim_end(s)` is a prefix of `s` followed only by whitespace.
pub proof fn lemma_trim_end_index(s: Seq<char>) -> (b: int)
    ensures
        0 <= b <= s.len(),
        trim_end(s) == s.subrange(0, b),
        forall|k: int| b <= k < s.len() ==> is_ws(#[trigger] s[k]),
    decreases s.len(),
{
    if s.len() > 0 && is_ws(s.last()) {
        let b = lemma_trim_end_index(s.drop_last());
        assert(s.drop_last().subrange(0, b) == s.subrange(0, b));
        assert forall|k: int| b <= k < s.len() implies is_ws(#[trigger] s[k]) by {
            if k < s.len() - 1 {
                assert(s[k] == s.drop_last()[k]);
            }
        }
        b
    } else {
        assert(s.subrange(0, s.len() as int) == s);
        s.len() as int
    }
}

/// The characters of `s` outside `trim(s)` are whitespace.
pub proof fn lemma_trim_index(s: Seq<char>) -> (r: (int, int))
    ensures
        0 <= r.0 <= r.1 <= s.len(),
        trim(s) == s.subrange(r.0, r.1),
        forall|k: int| 0 <= k < r.0 ==> is_ws(#[trigger] s[k]),
        forall|k: int| r.1 <= k < s.len() ==> is_ws(#[trigger] s[k]),
{
    let a = lemma_trim_start_index(s);
    let t = s.subrange(a, s.len() as int);
    let b = lemma_trim_end_index(t);
    assert(t.subrange(0, b) == s.subrange(a, a + b));
    assert forall|k: int| a + b <= k < s.len() implies is_ws(#[trigger] s[k]) by {
        assert(s[k] == t[k - a]);
    }
    (a, a + b)
}

// ---------------------------------------------------------------------------
// Recognisers
// ---------------------------------------------------------------------------

/// `char::is_ascii_hexdigit`.
pub fn char_is_hex(c: char) -> (b: bool)
    ensures
        b == is_hex(c),
{
    ('0' <= c && c <= '9') || ('a' <= c && c <= 'f') || ('A' <= c && c <= 'F')
}

/// Whether `p` is a decimal octet.
pub fn check_dec_octet(p: &[char]) -> (b: bool)
    ensures
        b == is_dec_octet(p@),
{
    if p.len() < 1 || p.len() > 3 {
        return false;
    }
    if p.len() > 1 && p[0] == '0' {
        return false;
    }
    match parse_u64_chars(p) {
        Some(v) => {
            // p has no leading '+' here exactly when it parses as plain digits
            if p[0] == '+' {
                assert(!is_digit(p@[0]));
                return false;
            }
            assert(!(p@.len() > 1 && p@[0] == '+'));
            v <= 255
        },
        None => {
            proof {
                if is_dec_octet(p@) {
                    assert(!(p@.len() > 1 && p@[0] == '+')) by {
                        assert(is_digit(p@[0]));
                    }
                    assert(digits_value(p@) <= u64::MAX);
                }
            }
            false
        },
    }
}

/// Whether `s` is a dotted-quad IPv4 literal.
pub fn check_ipv4(s: &[char]) -> (b: bool)
    ensures
        b == is_ipv4_literal(s@),
{
    let parts = split_chars(s, '.');
    if parts.len() != 4 {
        return false;
    }
    for k in 0..4usize
        invariant
            parts@.len() == 4,
            views(parts@) == split(s@, '.'),
            forall|j: int| 0 <= j < k ==> is_dec_octet(#[trigger] split(s@, '.')[j]),
    {
        assert(parts@[k as int]@ == split(s@, '.')[k as int]);
        if !check_dec_octet(parts[k].as_slice()) {
            return false;
        }
    }
    true
}

/// Whether `p` is a 16-bit IPv6 group.
pub fn check_h16(p: &[char]) -> (b: bool)
    ensures
        b == is_h16(p@),
{
    if p.len() < 1 || p.len() > 4 {
        return false;
    }
    let n = p.len();
    for i in 0..n
        invariant
            n == p@.len(),
            forall|j: int| 0 <= j < i ==> is_hex(#[trigger] p@[j]),
    {
        if !char_is_hex(p[i]) {
            return false;
        }
    }
    true
}

/// Evaluate `groups_ok` and `groups_count` on `ps[lo..hi]`.
pub fn check_groups(ps: &Vec<Vec<char>>, lo: usize, hi: usize, allow_v4: bool) -> (r: Option<
    u128,
>)
    requires
        lo <= hi <= ps@.len(),
    ensures
        r is Some <==> groups_ok(views(ps@).subrange(lo as int, hi as int), allow_v4),
        r matches Some(c) ==> c == groups_count(views(ps@).subrange(lo as int, hi as int)),
{
    let ghost g = views(ps@).subrange(lo as int, hi as int);
    if lo == hi {
        return None;
    }
    let mut k = lo;
    while k < hi - 1
        invariant
            lo <= k < hi,
            hi <= ps@.len(),
            g == views(ps@).subrange(lo as int, hi as int),
            forall|j: int| 0 <= j < k - lo ==> is_h16(#[trigger] g[j]),
        decreases hi - k,
    {
        assert(g[k - lo] == ps@[k as int]@);
        if !check_h16(ps[k].as_slice()) {
            return None;
        }
        k += 1;
    }
    assert(g.last() == ps@[hi - 1]@);
    let last = ps[hi - 1].as_slice();
    let last_v4 = check_ipv4(last);
    let last_h16 = check_h16(last);
    if last_h16 {
        proof {
            // a group never contains '.', so it is not an IPv4 literal
            if is_ipv4_literal(g.last()) {
                lemma_ipv4_has_dot(g.last());
            }
        }
        Some((hi - lo) as u128)
    } else if allow_v4 && last_v4 {
        Some((hi - lo) as u128 + 1)
    } else {
        None
    }
}

proof fn lemma_ipv4_has_dot(s: Seq<char>)
    requires
        is_ipv4_literal(s),
    ensures
        !is_h16(s),
{
    let parts = split(s, '.');
    lemma_join_split(s, '.');
    // join of four pieces contains a '.' right after the first piece
    let q = parts.drop_last();
    let q2 = q.drop_last();
    let q3 = q2.drop_last();
    assert(q3.len() == 1);
    assert(join(q3, '.') == parts[0]);
    assert(join(q2, '.') == join(q3, '.').push('.') + q2.last());
    let i = parts[0].len() as int;
    assert(join(q2, '.')[i] == '.');
    assert(join(q, '.') == join(q2, '.').push('.') + q.last());
    assert(join(q, '.')[i] == '.');
    assert(join(parts, '.') == join(q, '.').push('.') + parts.last());
    assert(s[i] == '.');
    if is_h16(s) {
        assert(is_hex(s[i]));
    }
}

/// The middle `::` of an IPv6 literal can only sit at the first empty piece.
proof fn lemma_mid_gap(pv: Seq<Seq<char>>, k: int)
    requires
        0 <= k <= pv.len(),
        forall|j: int| 0 <= j < k ==> (#[trigger] pv[j]).len() != 0,
        k < pv.len() ==> pv[k].len() == 0,
    ensures
        (exists|g: int|
            0 < g < pv.len() - 1 && (#[trigger] pv[g]).len() == 0 && groups_ok(pv.subrange(0, g), false)
                && groups_ok(pv.subrange(g + 1, pv.len() as int), true) && groups_count(pv.subrange(0, g))
                + groups_count(pv.subrange(g + 1, pv.len() as int)) <= 7) <==> (0 < k
            < pv.len() - 1 && groups_ok(pv.subrange(0, k), false) && groups_ok(
            pv.subrange(k + 1, pv.len() as int),
            true,
        ) && groups_count(pv.subrange(0, k)) + groups_count(pv.subrange(k + 1, pv.len() as int))
            <= 7),
{
    let n = pv.len() as int;
    if exists|g: int|
        0 < g < n - 1 && (#[trigger] pv[g]).len() == 0 && groups_ok(pv.subrange(0, g), false)
            && groups_ok(pv.subrange(g + 1, n), true) && groups_count(pv.subrange(0, g))
            + groups_count(pv.subrange(g + 1, n)) <= 7 {
        let g = choose|g: int|
            0 < g < n - 1 && (#[trigger] pv[g]).len() == 0 && groups_ok(pv.subrange(0, g), false)
                && groups_ok(pv.subrange(g + 1, n), true) && groups_count(pv.subrange(0, g))
                + groups_count(pv.subrange(g + 1, n)) <= 7;
        assert forall|j: int| 0 <= j < g implies (#[trigger] pv[j]).len() != 0 by {
            let h = pv.subrange(0, g);
            assert(pv[j] == h[j]);
            if j < g - 1 {
                assert(is_h16(h[j]));
            } else {
                assert(h[j] == h.last());
            }
        }
        if k < g {
            assert(pv[k].len() != 0);
        }
        if k > g {
            assert(pv[g].len() != 0);
        }
        assert(k == g);
    }
}

/// Whether `s` is an IPv6 literal.
#[verifier::rlimit(40)]
pub fn check_ipv6(s: &[char]) -> (b: bool)
    ensures
        b == is_ipv6_literal(s@),
{
    let p = split_chars(s, ':');
    let ghost pv = split(s@, ':');
    proof {
        lemma_split_nonempty(s@, ':');
    }
    let n = p.len();
    assert(views(p@).len() == n);
    let full = match check_groups(&p, 0, n, true) {
        Some(c) => c == 8,
        None => false,
    };
    assert(views(p@).subrange(0, n as int) == pv);
    let only = n == 3 && p[0].len() == 0 && p[1].len() == 0 && p[2].len() == 0;
    assert(n == 3 ==> (p@[0]@ == pv[0] && p@[1]@ == pv[1] && p@[2]@ == pv[2]));
    let lead = if n >= 3 && p[0].len() == 0 && p[1].len() == 0 {
        match check_groups(&p, 2, n, true) {
            Some(c) => c <= 7,
            None => false,
        }
    } else {
        false
    };
    assert(n >= 3 ==> (p@[0]@ == pv[0] && p@[1]@ == pv[1]));
    let trail = if n >= 3 && p[n - 1].len() == 0 && p[n - 2].len() == 0 {
        match check_groups(&p, 0, n - 2, false) {
            Some(c) => c <= 7,
            None => false,
        }
    } else {
        false
    };
    assert(n >= 3 ==> (p@[n - 1]@ == pv[n - 1] && p@[n - 2]@ == pv[n - 2]));
    // the gap in the middle can only be the first empty piece
    let mut k: usize = 0;
    while k < n && p[k].len() != 0
        invariant
            k <= n,
            n == p@.len(),
            pv == views(p@),
            forall|j: int| 0 <= j < k ==> (#[trigger] pv[j]).len() != 0,
        decreases n - k,
    {
        k += 1;
    }
    let mid = if 0 < k && k < n && k + 1 < n {
        assert(pv[k as int].len() == 0);
        match (check_groups(&p, 0, k, false), check_groups(&p, k + 1, n, true)) {
            (Some(a), Some(b)) => a <= 7 && b <= 7 - a,
            _ => false,
        }
    } else {
        false
    };
    proof {
        lemma_mid_gap(pv, k as int);
    }
    full || only || lead || trail || mid
}

/// Whether `s` is an IP literal (`IpAddr::from_str(s).is_ok()`).
pub fn check_ip(s: &[char]) -> (b: bool)
    ensures
        b == is_ip_literal(s@),
{
    check_ipv4(s) || check_ipv6(s)
}

} // verus!
