//! Textual IPv4 / IPv6 address decoding.
//!
//! The accepted grammar is the standard one: dotted-decimal IPv4 with at most
//! three digits per octet and no leading zeros, and colon-separated IPv6 with
//! one to four hex digits per group, at most one `::` run of zero groups, and
//! an optional trailing embedded IPv4 address.

use vstd::prelude::*;
use vstd::string::*;

verus! {

/// An IP address of either family, as the integer that its bits spell.
#[derive(Clone, Copy, Debug, PartialEq, Eq, Structural)]
pub enum IpAddress {
    /// An IPv4 address; `162.125.0.0` is `V4(0xA27D_0000)`.
    V4(u32),
    /// An IPv6 address; `::1` is `V6(1)`.
    V6(u128),
}

/// The pieces of `s` between occurrences of `sep`; never empty.
pub open spec fn split_on(s: Seq<char>, sep: char) -> Seq<Seq<char>>
    decreases s.len(),
{
    if s.len() == 0 {
        seq![Seq::<char>::empty()]
    } else {
        let prev = split_on(s.drop_last(), sep);
        if s.last() == sep {
            prev.push(Seq::<char>::empty())
        } else {
            prev.update(prev.len() - 1, prev.last().push(s.last()))
        }
    }
}

pub open spec fn hex_digit(c: char) -> Option<nat> {
    if '0' <= c && c <= '9' {
        Some((c as u32 - '0' as u32) as nat)
    } else if 'a' <= c && c <= 'f' {
        Some((c as u32 - 'a' as u32 + 10) as nat)
    } else if 'A' <= c && c <= 'F' {
        Some((c as u32 - 'A' as u32 + 10) as nat)
    } else {
        None
    }
}

pub open spec fn is_dec_digit(c: char) -> bool {
    '0' <= c && c <= '9'
}

/// Whether `c` is a digit in base `radix` (10 or 16).
pub open spec fn is_digit_in(c: char, radix: nat) -> bool {
    if radix == 10 {
        is_dec_digit(c)
    } else {
        hex_digit(c) is Some
    }
}

/// The value of the digit string `s` in base `radix`.
pub open spec fn digits_value(s: Seq<char>, radix: nat) -> nat
    decreases s.len(),
{
    if s.len() == 0 {
        0
    } else {
        digits_value(s.drop_last(), radix) * radix + match hex_digit(s.last()) {
            Some(d) => d,
            None => 0,
        }
    }
}

/// One IPv6 group: one to four hex digits.
pub open spec fn hex_group(p: Seq<char>) -> Option<u16> {
    if 1 <= p.len() <= 4 && (forall|i: int| 0 <= i < p.len() ==> #[trigger] is_digit_in(p[i], 16)) {
        Some(digits_value(p, 16) as u16)
    } else {
        None
    }
}

/// One IPv4 octet: one to three decimal digits, no leading zero, at most 255.
pub open spec fn dec_octet(p: Seq<char>) -> Option<u8> {
    if 1 <= p.len() <= 3 && (forall|i: int| 0 <= i < p.len() ==> #[trigger] is_digit_in(p[i], 10))
        && !(p.len() > 1 && p[0] == '0') && digits_value(p, 10) <= 255 {
        Some(digits_value(p, 10) as u8)
    } else {
        None
    }
}

/// The IPv4 address that `s` spells in dotted-decimal form.
pub open spec fn ipv4_text(s: Seq<char>) -> Option<u32> {
    let ps = split_on(s, '.');
    if ps.len() == 4 && (forall|i: int| 0 <= i < 4 ==> (#[trigger] dec_octet(ps[i])) is Some) {
        Some(
            (dec_octet(ps[0])->0 as int * 0x100_0000 + dec_octet(ps[1])->0 as int * 0x1_0000
                + dec_octet(ps[2])->0 as int * 0x100 + dec_octet(ps[3])->0 as int) as u32,
        )
    } else {
        None
    }
}

/// `radix` raised to the power `n`.
pub open spec fn radix_pow(radix: nat, n: nat) -> nat
    decreases n,
{
    if n == 0 {
        1
    } else {
        radix * radix_pow(radix, (n - 1) as nat)
    }
}

/// The characters of each piece.
pub open spec fn pieces_view(ps: Seq<Vec<char>>) -> Seq<Seq<char>> {
    ps.map_values(|p: Vec<char>| p@)
}

/// The groups of the pieces `ps`, each one to four hex digits.
pub open spec fn hex_groups(ps: Seq<Seq<char>>) -> Option<Seq<u16>> {
    if forall|i: int| 0 <= i < ps.len() ==> (#[trigger] hex_group(ps[i])) is Some {
        Some(Seq::new(ps.len(), |i: int| hex_group(ps[i])->0))
    } else {
        None
    }
}

/// The groups of the pieces `ps` when the last one may be an embedded IPv4
/// address, which stands for two groups.
pub open spec fn tail_groups(ps: Seq<Seq<char>>) -> Option<Seq<u16>> {
    if ps.len() == 0 {
        Some(Seq::<u16>::empty())
    } else {
        match ipv4_text(ps.last()) {
            Some(v) => match hex_groups(ps.drop_last()) {
                Some(g) => Some(g.push((v / 0x1_0000) as u16).push((v % 0x1_0000) as u16)),
                None => None,
            },
            None => hex_groups(ps),
        }
    }
}

/// The colon-separated fields of `s`; none when `s` is empty.
pub open spec fn colon_fields(s: Seq<char>) -> Seq<Seq<char>> {
    if s.len() == 0 {
        Seq::<Seq<char>>::empty()
    } else {
        split_on(s, ':')
    }
}

/// The first position at or after `from` where `::` starts.
pub open spec fn double_colon_from(s: Seq<char>, from: nat) -> Option<nat>
    decreases s.len() - from,
{
    if from + 1 >= s.len() {
        None
    } else if s[from as int] == ':' && s[from + 1 as int] == ':' {
        Some(from)
    } else {
        double_colon_from(s, from + 1)
    }
}

/// The eight groups that `s` spells in colon-hex form.
pub open spec fn ipv6_groups(s: Seq<char>) -> Option<Seq<u16>> {
    match double_colon_from(s, 0) {
        None => {
            let g = tail_groups(split_on(s, ':'));
            if g is Some && g->0.len() == 8 {
                g
            } else {
                None
            }
        },
        Some(i) => {
            let h = hex_groups(colon_fields(s.take(i as int)));
            let t = tail_groups(colon_fields(s.skip(i + 2 as int)));
            if h is Some && t is Some && h->0.len() + t->0.len() <= 7 {
                Some(h->0 + Seq::new((8 - h->0.len() - t->0.len()) as nat, |j: int| 0u16) + t->0)
            } else {
                None
            }
        },
    }
}

/// The 128-bit value of eight groups, the first one most significant.
pub open spec fn groups_value(g: Seq<u16>) -> u128 {
    (g[0] as int * 0x1_0000_0000_0000_0000_0000_0000_0000 + g[1] as int * 0x1_0000_0000_0000_0000_0000_0000
        + g[2] as int * 0x1_0000_0000_0000_0000_0000 + g[3] as int * 0x1_0000_0000_0000_0000
        + g[4] as int * 0x1_0000_0000_0000 + g[5] as int * 0x1_0000_0000 + g[6] as int * 0x1_0000
        + g[7] as int) as u128
}

/// The address that `s` spells: IPv4 when it is dotted-decimal, else IPv6.
pub open spec fn ip_text(s: Seq<char>) -> Option<IpAddress> {
    match ipv4_text(s) {
        Some(v) => Some(IpAddress::V4(v)),
        None => match ipv6_groups(s) {
            Some(g) => Some(IpAddress::V6(groups_value(g))),
            None => None,
        },
    }
}

proof fn lemma_pow16_small(n: nat)
    requires
        n <= 4,
    ensures
        radix_pow(16, n) <= 0x1_0000,
{
    reveal_with_fuel(radix_pow, 5);
    if n == 0 {
    } else if n == 1 {
    } else if n == 2 {
    } else if n == 3 {
    } else {
    }
}

/// The value of `c` as a hex digit.
fn digit_of(c: char) -> (r: Option<u32>)
    ensures
        r is Some <==> hex_digit(c) is Some,
        r is Some ==> r->0 == hex_digit(c)->0,
{
    if '0' <= c && c <= '9' {
        Some(c as u32 - '0' as u32)
    } else if 'a' <= c && c <= 'f' {
        Some(c as u32 - 'a' as u32 + 10)
    } else if 'A' <= c && c <= 'F' {
        Some(c as u32 - 'A' as u32 + 10)
    } else {
        None
    }
}

/// The value of the digit string `p` in base `radix`, if every character is
/// a digit of that base.
fn parse_number(p: &Vec<char>, radix: u32) -> (r: Option<u32>)
    requires
        p.len() <= 4,
        radix == 10 || radix == 16,
    ensures
        r is Some <==> forall|i: int| 0 <= i < p@.len() ==> #[trigger] is_digit_in(p@[i], radix as nat),
        r is Some ==> r->0 == digits_value(p@, radix as nat),
        r is Some ==> r->0 < radix_pow(16, p.len() as nat),
{
    let mut v: u32 = 0;
    let mut i: usize = 0;
    proof {
        lemma_pow16_small(p.len() as nat);
        assert(p@.take(0) =~= Seq::<char>::empty());
    }
    while i < p.len()
        invariant
            i <= p.len() <= 4,
            radix == 10 || radix == 16,
            forall|j: int| 0 <= j < i ==> #[trigger] is_digit_in(p@[j], radix as nat),
            v == digits_value(p@.take(i as int), radix as nat),
            v < radix_pow(16, i as nat),
        decreases p.len() - i,
    {
        let c = p[i];
        let d = match digit_of(c) {
            Some(d) => d,
            None => {
                assert(!is_digit_in(p@[i as int], radix as nat));
                return None;
            },
        };
        if radix == 10 && !('0' <= c && c <= '9') {
            assert(!is_digit_in(p@[i as int], radix as nat));
            return None;
        }
        proof {
            let pre = p@.take(i as int);
            let next = p@.take(i + 1);
            assert(next.drop_last() =~= pre);
            assert(next.last() == c);
            assert(d < radix);
            let b = radix_pow(16, i as nat);
            assert(radix_pow(16, (i + 1) as nat) == 16 * b);
            lemma_pow16_small((i + 1) as nat);
            assert(v * radix + d < 16 * b) by (nonlinear_arith)
                requires
                    v < b,
                    d < radix,
                    radix <= 16,
            ;
        }
        v = v * radix + d;
        i += 1;
    }
    proof {
        assert(p@.take(p.len() as int) =~= p@);
    }
    Some(v)
}

/// One IPv6 group.
fn parse_hex_group(p: &Vec<char>) -> (r: Option<u16>)
    ensures
        r == hex_group(p@),
{
    if p.len() == 0 || p.len() > 4 {
        return None;
    }
    match parse_number(p, 16) {
        Some(v) => {
            proof {
                lemma_pow16_small(p.len() as nat);
            }
            Some(v as u16)
        },
        None => None,
    }
}

/// One IPv4 octet.
fn parse_dec_octet(p: &Vec<char>) -> (r: Option<u8>)
    ensures
        r == dec_octet(p@),
{
    if p.len() == 0 || p.len() > 3 {
        return None;
    }
    if p.len() > 1 && p[0] == '0' {
        return None;
    }
    match parse_number(p, 10) {
        Some(v) => {
            if v > 255 {
                None
            } else {
                Some(v as u8)
            }
        },
        None => None,
    }
}

/// The IPv4 address that `cs` spells.
fn parse_ipv4(cs: &Vec<char>) -> (r: Option<u32>)
    ensures
        r == ipv4_text(cs@),
{
    let ps = split_chars(cs, 0, cs.len(), '.');
    proof {
        assert(cs@.subrange(0, cs@.len() as int) =~= cs@);
    }
    let ghost pv = split_on(cs@, '.');
    if ps.len() != 4 {
        return None;
    }
    proof {
        assert(forall|k: int| 0 <= k < 4 ==> #[trigger] pv[k] == ps@[k]@);
    }
    let a = parse_dec_octet(&ps[0]);
    let b = parse_dec_octet(&ps[1]);
    let c = parse_dec_octet(&ps[2]);
    let d = parse_dec_octet(&ps[3]);
    match (a, b, c, d) {
        (Some(a), Some(b), Some(c), Some(d)) => {
            proof {
                assert forall|k: int| 0 <= k < 4 implies (#[trigger] dec_octet(pv[k])) is Some by {
                    if k == 0 {
                    } else if k == 1 {
                    } else if k == 2 {
                    } else {
                    }
                }
            }
            Some(a as u32 * 0x100_0000 + b as u32 * 0x1_0000 + c as u32 * 0x100 + d as u32)
        },
        _ => {
            proof {
                if a is None {
                    assert(dec_octet(pv[0]) is None);
                } else if b is None {
                    assert(dec_octet(pv[1]) is None);
                } else if c is None {
                    assert(dec_octet(pv[2]) is None);
                } else {
                    assert(dec_octet(pv[3]) is None);
                }
            }
            None
        },
    }
}

/// The characters of `s`, in order.
fn chars_of(s: &str) -> (r: Vec<char>)
    ensures
        r@ == s@,
{
    let n = s.unicode_len();
    let mut r: Vec<char> = Vec::new();
    let mut i: usize = 0;
    while i < n
        invariant
            i <= n,
            n == s@.len(),
            r@ == s@.take(i as int),
        decreases n - i,
    {
        r.push(s.get_char(i));
        i += 1;
        assert(r@ =~= s@.take(i as int));
    }
    assert(r@ =~= s@);
    r
}

/// The pieces of `cs[lo..hi]` between occurrences of `sep`.
fn split_chars(cs: &Vec<char>, lo: usize, hi: usize, sep: char) -> (r: Vec<Vec<char>>)
    requires
        lo <= hi <= cs.len(),
    ensures
        pieces_view(r@) == split_on(cs@.subrange(lo as int, hi as int), sep),
{
    let ghost sub = cs@.subrange(lo as int, hi as int);
    let mut parts: Vec<Vec<char>> = Vec::new();
    let mut cur: Vec<char> = Vec::new();
    let mut i: usize = lo;
    proof {
        assert(sub.take(0) =~= Seq::<char>::empty());
        assert(pieces_view(parts@).push(cur@) =~= split_on(sub.take(0), sep));
    }
    while i < hi
        invariant
            lo <= i <= hi <= cs.len(),
            sub == cs@.subrange(lo as int, hi as int),
            pieces_view(parts@).push(cur@) == split_on(sub.take(i - lo), sep),
        decreases hi - i,
    {
        let c = cs[i];
        let ghost pre = sub.take(i - lo);
        let ghost next = sub.take(i + 1 - lo);
        proof {
            assert(next.drop_last() =~= pre);
            assert(next.last() == c);
        }
        let ghost old_parts = pieces_view(parts@);
        if c == sep {
            let done = cur;
            parts.push(done);
            cur = Vec::new();
            proof {
                assert(pieces_view(parts@) =~= old_parts.push(done@));
                assert(pieces_view(parts@).push(cur@) =~= split_on(next, sep));
            }
        } else {
            cur.push(c);
            proof {
                let prev = split_on(pre, sep);
                assert(pieces_view(parts@).push(cur@) =~= prev.update(prev.len() - 1, prev.last().push(c)));
            }
        }
        i += 1;
    }
    let ghost old_parts = pieces_view(parts@);
    let last = cur;
    parts.push(last);
    proof {
        assert(pieces_view(parts@) =~= old_parts.push(last@));
        assert(sub.take(hi - lo) =~= sub);
        assert(pieces_view(parts@) =~= split_on(sub, sep));
    }
    parts
}


/// The groups of the pieces `ps[0..n]`, each one to four hex digits.
fn parse_hex_groups(ps: &Vec<Vec<char>>, n: usize) -> (r: Option<Vec<u16>>)
    requires
        n <= ps.len(),
    ensures
        match hex_groups(pieces_view(ps@).take(n as int)) {
            Some(g) => r is Some && r->0@ == g,
            None => r is None,
        },
{
    let ghost pv = pieces_view(ps@).take(n as int);
    let mut out: Vec<u16> = Vec::new();
    let mut i: usize = 0;
    while i < n
        invariant
            i <= n <= ps.len(),
            pv == pieces_view(ps@).take(n as int),
            out@.len() == i,
            forall|j: int| 0 <= j < i ==> (#[trigger] hex_group(pv[j])) is Some && out@[j] == hex_group(pv[j])->0,
        decreases n - i,
    {
        assert(pv[i as int] == ps@[i as int]@);
        match parse_hex_group(&ps[i]) {
            Some(g) => {
                out.push(g);
            },
            None => {
                assert(hex_group(pv[i as int]) is None);
                return None;
            },
        }
        i += 1;
    }
    assert(out@ =~= Seq::new(pv.len(), |j: int| hex_group(pv[j])->0));
    Some(out)
}

/// The groups of the pieces `ps`, the last of which may be an embedded IPv4
/// address.
fn parse_tail_groups(ps: &Vec<Vec<char>>) -> (r: Option<Vec<u16>>)
    ensures
        match tail_groups(pieces_view(ps@)) {
            Some(g) => r is Some && r->0@ == g,
            None => r is None,
        },
{
    let ghost pv = pieces_view(ps@);
    if ps.len() == 0 {
        return Some(Vec::new());
    }
    let n = ps.len() - 1;
    assert(pv.last() == ps@[n as int]@);
    assert(pv.take(ps.len() as int) =~= pv);
    assert(pv.take(n as int) =~= pv.drop_last());
    match parse_ipv4(&ps[n]) {
        Some(v) => match parse_hex_groups(ps, n) {
            Some(g) => {
                let mut g = g;
                g.push((v / 0x1_0000) as u16);
                g.push((v % 0x1_0000) as u16);
                Some(g)
            },
            None => None,
        },
        None => parse_hex_groups(ps, ps.len()),
    }
}

/// The colon-separated fields of `cs[lo..hi]`.
fn colon_fields_of(cs: &Vec<char>, lo: usize, hi: usize) -> (r: Vec<Vec<char>>)
    requires
        lo <= hi <= cs.len(),
    ensures
        pieces_view(r@) == colon_fields(cs@.subrange(lo as int, hi as int)),
{
    if lo == hi {
        let r: Vec<Vec<char>> = Vec::new();
        assert(pieces_view(r@) =~= Seq::<Seq<char>>::empty());
        r
    } else {
        split_chars(cs, lo, hi, ':')
    }
}

proof fn lemma_double_colon_bounds(s: Seq<char>, from: nat)
    ensures
        double_colon_from(s, from) is Some ==> from <= double_colon_from(s, from)->0
            && double_colon_from(s, from)->0 + 1 < s.len(),
    decreases s.len() - from,
{
    if from + 1 < s.len() && !(s[from as int] == ':' && s[from + 1 as int] == ':') {
        lemma_double_colon_bounds(s, from + 1);
    }
}

/// The first position where `::` starts in `cs`.
fn find_double_colon(cs: &Vec<char>) -> (r: Option<usize>)
    ensures
        match double_colon_from(cs@, 0) {
            Some(i) => r == Some(i as usize) && i + 1 < cs.len(),
            None => r is None,
        },
{
    proof {
        lemma_double_colon_bounds(cs@, 0);
    }
    let mut i: usize = 0;
    while i < cs.len()
        invariant
            i <= cs.len(),
            double_colon_from(cs@, 0) == double_colon_from(cs@, i as nat),
        decreases cs.len() - i,
    {
        if i + 1 < cs.len() && cs[i] == ':' && cs[i + 1] == ':' {
            return Some(i);
        }
        i += 1;
    }
    None
}

/// The eight groups that `cs` spells in colon-hex form.
fn parse_ipv6_groups(cs: &Vec<char>) -> (r: Option<Vec<u16>>)
    ensures
        match ipv6_groups(cs@) {
            Some(g) => r is Some && r->0@ == g,
            None => r is None,
        },
{
    match find_double_colon(cs) {
        None => {
            let ps = split_chars(cs, 0, cs.len(), ':');
            assert(cs@.subrange(0, cs@.len() as int) =~= cs@);
            match parse_tail_groups(&ps) {
                Some(g) => {
                    if g.len() == 8 {
                        Some(g)
                    } else {
                        None
                    }
                },
                None => None,
            }
        },
        Some(i) => {
            let hs = colon_fields_of(cs, 0, i);
            let ts = colon_fields_of(cs, i + 2, cs.len());
            assert(cs@.subrange(0, i as int) =~= cs@.take(i as int));
            assert(cs@.subrange(i + 2, cs@.len() as int) =~= cs@.skip(i + 2));
            assert(pieces_view(hs@).take(hs.len() as int) =~= pieces_view(hs@));
            let h = match parse_hex_groups(&hs, hs.len()) {
                Some(h) => h,
                None => return None,
            };
            let t = match parse_tail_groups(&ts) {
                Some(t) => t,
                None => return None,
            };
            if h.len() > 7 || t.len() > 7 - h.len() {
                return None;
            }
            let ghost gh = h@;
            let ghost gt = t@;
            let zeros = 8 - h.len() - t.len();
            let mut out = h;
            let mut k: usize = 0;
            while k < zeros
                invariant
                    k <= zeros,
                    out@ == gh + Seq::new(k as nat, |j: int| 0u16),
                decreases zeros - k,
            {
                out.push(0);
                k += 1;
                assert(out@ =~= gh + Seq::new(k as nat, |j: int| 0u16));
            }
            let mut m: usize = 0;
            while m < t.len()
                invariant
                    m <= t.len(),
                    t@ == gt,
                    out@ == gh + Seq::new(zeros as nat, |j: int| 0u16) + gt.take(m as int),
                decreases t.len() - m,
            {
                out.push(t[m]);
                m += 1;
                assert(out@ =~= gh + Seq::new(zeros as nat, |j: int| 0u16) + gt.take(m as int));
            }
            assert(gt.take(gt.len() as int) =~= gt);
            Some(out)
        },
    }
}

/// Decodes a textual IP address: dotted-decimal IPv4 (`162.125.0.0`) or
/// colon-hex IPv6, compressed (`2001:db8::1`) or not, with an optional
/// embedded IPv4 tail (`::ffff:10.0.0.1`). `None` for anything else,
/// the empty string included.
pub fn decode_ip(token: &str) -> (r: Option<IpAddress>)
    ensures
        r == ip_text(token@),
{
    let cs = chars_of(token);
    match parse_ipv4(&cs) {
        Some(v) => Some(IpAddress::V4(v)),
        None => match parse_ipv6_groups(&cs) {
            Some(g) => {
                let v: u128 = g[0] as u128 * 0x1_0000_0000_0000_0000_0000_0000_0000
                    + g[1] as u128 * 0x1_0000_0000_0000_0000_0000_0000
                    + g[2] as u128 * 0x1_0000_0000_0000_0000_0000
                    + g[3] as u128 * 0x1_0000_0000_0000_0000
                    + g[4] as u128 * 0x1_0000_0000_0000
                    + g[5] as u128 * 0x1_0000_0000
                    + g[6] as u128 * 0x1_0000
                    + g[7] as u128;
                Some(IpAddress::V6(v))
            },
            None => None,
        },
    }
}

} // verus!
