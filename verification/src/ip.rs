//! IP addresses: the textual forms that are accepted, parsing, formatting
//! and the classification of an address as loopback.

use vstd::prelude::*;
use crate::text::{
    all_dec_digits, all_hex_digits, dec_digit_char, dec_text, dec_value, hex_value, is_dec_digit,
    is_hex_digit, lemma_split_append_free, lemma_split_free, lemma_split_nonempty, lemma_split_push,
    lemma_split_push_sep, push_char, push_dec, split, chars_of, join, lemma_join_split,
    dec_digit_value, hex_text, push_hex, concat_str, sep_free, lemma_split_join, hex_digit_value,
    hex_lower_char,
};

verus! {

/// An IPv4 address (four octets) or an IPv6 address (eight 16-bit groups).
#[derive(Clone, Copy, Debug, PartialEq, Eq)]
pub enum IpAddress {
    V4([u8; 4]),
    V6([u16; 8]),
}

/// The mathematical value of an address.
pub enum IpView {
    V4(Seq<u8>),
    V6(Seq<u16>),
}

impl View for IpAddress {
    type V = IpView;

    open spec fn view(&self) -> IpView {
        match self {
            IpAddress::V4(o) => IpView::V4(o@),
            IpAddress::V6(g) => IpView::V6(g@),
        }
    }
}

/// The value of an optional address.
pub open spec fn opt_ip_view(a: Option<IpAddress>) -> Option<IpView> {
    match a {
        Some(x) => Some(x@),
        None => None,
    }
}

/// A decimal octet: one to three digits, no leading zero, at most 255.
pub open spec fn dec_octet(t: Seq<char>) -> Option<u8> {
    if 1 <= t.len() <= 3 && all_dec_digits(t) && (t.len() == 1 || t[0] != '0') && dec_value(t)
        <= 255 {
        Some(dec_value(t) as u8)
    } else {
        None
    }
}

/// Dotted-decimal IPv4 text: four decimal octets separated by dots.
pub open spec fn spec_parse_ipv4(s: Seq<char>) -> Option<Seq<u8>> {
    let ps = split(s, '.');
    if ps.len() == 4 && dec_octet(ps[0]) is Some && dec_octet(ps[1]) is Some && dec_octet(
        ps[2],
    ) is Some && dec_octet(ps[3]) is Some {
        Some(
            seq![
                dec_octet(ps[0]).unwrap(),
                dec_octet(ps[1]).unwrap(),
                dec_octet(ps[2]).unwrap(),
                dec_octet(ps[3]).unwrap(),
            ],
        )
    } else {
        None
    }
}

/// The dotted-decimal text of four octets.
pub open spec fn ipv4_text(o: Seq<u8>) -> Seq<char> {
    dec_text(o[0] as nat) + seq!['.'] + dec_text(o[1] as nat) + seq!['.'] + dec_text(o[2] as nat)
        + seq!['.'] + dec_text(o[3] as nat)
}

/// A 16-bit group: one to four hexadecimal digits, either case.
pub open spec fn hex_group(t: Seq<char>) -> Option<u16> {
    if 1 <= t.len() <= 4 && all_hex_digits(t) {
        Some(hex_value(t) as u16)
    } else {
        None
    }
}

/// Every piece is a 16-bit group.
pub open spec fn hex_groups_ok(ps: Seq<Seq<char>>) -> bool {
    forall|j: int| 0 <= j < ps.len() ==> (#[trigger] hex_group(ps[j])) is Some
}

/// The values of pieces that are all 16-bit groups.
pub open spec fn hex_values(ps: Seq<Seq<char>>) -> Seq<u16> {
    Seq::new(ps.len(), |j: int| hex_group(ps[j]).unwrap())
}

/// The two 16-bit groups that an embedded IPv4 address stands for.
pub open spec fn ipv4_groups(o: Seq<u8>) -> Seq<u16> {
    seq![(o[0] * 256 + o[1]) as u16, (o[2] * 256 + o[3]) as u16]
}

/// The groups of a colon-separated run of 16-bit groups; when `v4_tail`
/// holds, the last piece may instead be an embedded IPv4 address, which
/// stands for two groups. The empty run has no groups.
pub open spec fn groups(t: Seq<char>, v4_tail: bool) -> Option<Seq<u16>> {
    if t.len() == 0 {
        Some(Seq::<u16>::empty())
    } else {
        let ps = split(t, ':');
        let init = ps.drop_last();
        let last = ps.last();
        if !hex_groups_ok(init) {
            None
        } else if hex_group(last) is Some {
            Some(hex_values(init).push(hex_group(last).unwrap()))
        } else if v4_tail && spec_parse_ipv4(last) is Some {
            Some(hex_values(init) + ipv4_groups(spec_parse_ipv4(last).unwrap()))
        } else {
            None
        }
    }
}

/// The index of the first "::" at or after `i`, or -1.
pub open spec fn double_colon_from(s: Seq<char>, i: int) -> int
    decreases s.len() - i,
{
    if i < 0 || i + 1 >= s.len() {
        -1
    } else if s[i] == ':' && s[i + 1] == ':' {
        i
    } else {
        double_colon_from(s, i + 1)
    }
}

/// IPv6 text: either eight groups, or groups before and after one "::"
/// that stands for at least one zero group. Only the last piece of the
/// whole text may be an embedded IPv4 address.
pub open spec fn spec_parse_ipv6(s: Seq<char>) -> Option<Seq<u16>> {
    let k = double_colon_from(s, 0);
    if k < 0 {
        match groups(s, true) {
            Some(g) => if g.len() == 8 {
                Some(g)
            } else {
                None
            },
            None => None,
        }
    } else {
        let h = groups(s.subrange(0, k), false);
        let t = groups(s.subrange(k + 2, s.len() as int), true);
        if h is Some && t is Some && h.unwrap().len() + t.unwrap().len() <= 7 {
            Some(
                h.unwrap() + Seq::new(
                    (8 - h.unwrap().len() - t.unwrap().len()) as nat,
                    |i: int| 0u16,
                ) + t.unwrap(),
            )
        } else {
            None
        }
    }
}

/// An address text: IPv4 when it is dotted-decimal text, else IPv6.
pub open spec fn spec_parse_ip(s: Seq<char>) -> Option<IpView> {
    match spec_parse_ipv4(s) {
        Some(o) => Some(IpView::V4(o)),
        None => match spec_parse_ipv6(s) {
            Some(g) => Some(IpView::V6(g)),
            None => None,
        },
    }
}

/// Loopback addresses: 127.0.0.0/8 and ::1.
pub open spec fn is_loopback_view(a: IpView) -> bool {
    match a {
        IpView::V4(o) => o[0] == 127,
        IpView::V6(g) => g =~= seq![0u16, 0, 0, 0, 0, 0, 0, 1],
    }
}

/// The value of a decimal octet text, if it is one.
fn parse_dec_octet(v: &Vec<char>, lo: usize, hi: usize) -> (r: Option<u8>)
    requires
        lo <= hi <= v@.len(),
    ensures
        r == dec_octet(v@.subrange(lo as int, hi as int)),
{
    let ghost t = v@.subrange(lo as int, hi as int);
    if hi - lo < 1 || hi - lo > 3 {
        return None;
    }
    if hi - lo > 1 && v[lo] == '0' {
        assert(t[0] == '0');
        return None;
    }
    let mut val: u32 = 0;
    let mut i = lo;
    while i < hi
        invariant
            lo <= i <= hi,
            hi - lo <= 3,
            hi <= v@.len(),
            t == v@.subrange(lo as int, hi as int),
            all_dec_digits(v@.subrange(lo as int, i as int)),
            val == dec_value(v@.subrange(lo as int, i as int)),
            i - lo == 0 ==> val == 0,
            i - lo == 1 ==> val < 10,
            i - lo == 2 ==> val < 100,
            i - lo == 3 ==> val < 1000,
        decreases hi - i,
    {
        let c = v[i];
        if !(c >= '0' && c <= '9') {
            assert(t[i - lo] == c);
            assert(!all_dec_digits(t));
            return None;
        }
        let d = (c as u32) - ('0' as u32);
        val = val * 10 + d;
        i += 1;
        proof {
            let u = v@.subrange(lo as int, i as int);
            assert(u.drop_last() =~= v@.subrange(lo as int, i - 1));
            assert(u.last() == c);
            assert forall|k: int| 0 <= k < u.len() implies is_dec_digit(#[trigger] u[k]) by {
                if k < u.len() - 1 {
                    assert(u[k] == v@.subrange(lo as int, i - 1)[k]);
                }
            }
        }
    }
    assert(v@.subrange(lo as int, i as int) =~= t);
    if val > 255 {
        return None;
    }
    Some(val as u8)
}

/// The value of a 16-bit group text, if it is one.
fn parse_hex_group(v: &Vec<char>, lo: usize, hi: usize) -> (r: Option<u16>)
    requires
        lo <= hi <= v@.len(),
    ensures
        r == hex_group(v@.subrange(lo as int, hi as int)),
{
    let ghost t = v@.subrange(lo as int, hi as int);
    if hi - lo < 1 || hi - lo > 4 {
        return None;
    }
    let mut val: u32 = 0;
    let mut i = lo;
    while i < hi
        invariant
            lo <= i <= hi,
            hi - lo <= 4,
            hi <= v@.len(),
            t == v@.subrange(lo as int, hi as int),
            all_hex_digits(v@.subrange(lo as int, i as int)),
            val == hex_value(v@.subrange(lo as int, i as int)),
            i - lo == 0 ==> val == 0,
            i - lo == 1 ==> val < 16,
            i - lo == 2 ==> val < 256,
            i - lo == 3 ==> val < 4096,
            i - lo == 4 ==> val < 65536,
        decreases hi - i,
    {
        let c = v[i];
        let d: u32;
        if c >= '0' && c <= '9' {
            d = (c as u32) - ('0' as u32);
        } else if c >= 'a' && c <= 'f' {
            d = (c as u32) - ('a' as u32) + 10;
        } else if c >= 'A' && c <= 'F' {
            d = (c as u32) - ('A' as u32) + 10;
        } else {
            assert(t[i - lo] == c);
            assert(!all_hex_digits(t));
            return None;
        }
        val = val * 16 + d;
        i += 1;
        proof {
            let u = v@.subrange(lo as int, i as int);
            assert(u.drop_last() =~= v@.subrange(lo as int, i - 1));
            assert(u.last() == c);
            assert forall|k: int| 0 <= k < u.len() implies is_hex_digit(#[trigger] u[k]) by {
                if k < u.len() - 1 {
                    assert(u[k] == v@.subrange(lo as int, i - 1)[k]);
                }
            }
        }
    }
    assert(v@.subrange(lo as int, i as int) =~= t);
    Some(val as u16)
}

/// The pieces of a text between index ranges.
pub open spec fn range_pieces(v: Seq<char>, rs: Seq<(usize, usize)>) -> Seq<Seq<char>> {
    rs.map_values(|r: (usize, usize)| v.subrange(r.0 as int, r.1 as int))
}

/// The index ranges of the pieces of `v[lo..hi]` between separators.
pub(crate) fn split_range(v: &Vec<char>, lo: usize, hi: usize, sep: char) -> (ps: Vec<(usize, usize)>)
    requires
        lo <= hi <= v@.len(),
    ensures
        range_pieces(v@, ps@) == split(v@.subrange(lo as int, hi as int), sep),
        forall|j: int| 0 <= j < ps@.len() ==> lo <= (#[trigger] ps@[j]).0 <= ps@[j].1 <= hi,
{
    let mut done: Vec<(usize, usize)> = Vec::new();
    let mut start = lo;
    let mut i = lo;
    assert(v@.subrange(lo as int, lo as int) =~= Seq::<char>::empty());
    assert(range_pieces(v@, done@).push(v@.subrange(start as int, i as int)) =~= seq![
        Seq::<char>::empty(),
    ]);
    while i < hi
        invariant
            lo <= start <= i <= hi,
            hi <= v@.len(),
            forall|j: int| 0 <= j < done@.len() ==> lo <= (#[trigger] done@[j]).0 <= done@[j].1 <= start,
            split(v@.subrange(lo as int, i as int), sep) == range_pieces(v@, done@).push(
                v@.subrange(start as int, i as int),
            ),
        decreases hi - i,
    {
        let c = v[i];
        let ghost old_pieces = range_pieces(v@, done@);
        proof {
            assert(v@.subrange(lo as int, i + 1) =~= v@.subrange(lo as int, i as int).push(c));
            lemma_split_push(v@.subrange(lo as int, i as int), c, sep);
        }
        let ghost st = start;
        let ghost ii = i;
        if c == sep {
            done.push((start, i));
            start = i + 1;
            i += 1;
            assert(range_pieces(v@, done@) =~= old_pieces.push(v@.subrange(st as int, ii as int)));
            assert(v@.subrange(start as int, i as int) =~= Seq::<char>::empty());
        } else {
            i += 1;
            assert(v@.subrange(start as int, i as int) =~= v@.subrange(start as int, i - 1).push(c));
        }
    }
    let ghost before = range_pieces(v@, done@);
    done.push((start, hi));
    assert(range_pieces(v@, done@) =~= before.push(v@.subrange(start as int, hi as int)));
    done
}

/// Parses dotted-decimal IPv4 text in `v[lo..hi]`.
fn parse_ipv4_range(v: &Vec<char>, lo: usize, hi: usize) -> (r: Option<[u8; 4]>)
    requires
        lo <= hi <= v@.len(),
    ensures
        match r {
            Some(o) => spec_parse_ipv4(v@.subrange(lo as int, hi as int)) == Some(o@),
            None => spec_parse_ipv4(v@.subrange(lo as int, hi as int)) is None,
        },
{
    let ps = split_range(v, lo, hi, '.');
    let ghost pv = split(v@.subrange(lo as int, hi as int), '.');
    if ps.len() != 4 {
        return None;
    }
    assert(range_pieces(v@, ps@)[0] == v@.subrange(ps@[0].0 as int, ps@[0].1 as int));
    assert(range_pieces(v@, ps@)[1] == v@.subrange(ps@[1].0 as int, ps@[1].1 as int));
    assert(range_pieces(v@, ps@)[2] == v@.subrange(ps@[2].0 as int, ps@[2].1 as int));
    assert(range_pieces(v@, ps@)[3] == v@.subrange(ps@[3].0 as int, ps@[3].1 as int));
    let (a0, b0) = ps[0];
    let (a1, b1) = ps[1];
    let (a2, b2) = ps[2];
    let (a3, b3) = ps[3];
    let o0 = parse_dec_octet(v, a0, b0);
    let o1 = parse_dec_octet(v, a1, b1);
    let o2 = parse_dec_octet(v, a2, b2);
    let o3 = parse_dec_octet(v, a3, b3);
    match (o0, o1, o2, o3) {
        (Some(x0), Some(x1), Some(x2), Some(x3)) => {
            let o = [x0, x1, x2, x3];
            assert(o@ =~= seq![x0, x1, x2, x3]);
            Some(o)
        },
        _ => None,
    }
}

/// The dotted-decimal text of an IPv4 address.
pub fn format_ipv4(o: &[u8; 4]) -> (r: String)
    ensures
        r@ == ipv4_text(o@),
{
    let mut s = String::new();
    push_dec(&mut s, o[0] as u64);
    push_char(&mut s, '.');
    push_dec(&mut s, o[1] as u64);
    push_char(&mut s, '.');
    push_dec(&mut s, o[2] as u64);
    push_char(&mut s, '.');
    push_dec(&mut s, o[3] as u64);
    assert(s@ =~= ipv4_text(o@));
    s
}

/// Parses the groups of `v[lo..hi]` (see `groups`).
fn parse_groups(v: &Vec<char>, lo: usize, hi: usize, v4_tail: bool) -> (r: Option<Vec<u16>>)
    requires
        lo <= hi <= v@.len(),
    ensures
        match r {
            Some(g) => groups(v@.subrange(lo as int, hi as int), v4_tail) == Some(g@),
            None => groups(v@.subrange(lo as int, hi as int), v4_tail) is None,
        },
{
    let ghost t = v@.subrange(lo as int, hi as int);
    if lo == hi {
        let out: Vec<u16> = Vec::new();
        assert(out@ =~= Seq::<u16>::empty());
        return Some(out);
    }
    let ps = split_range(v, lo, hi, ':');
    let ghost pv = split(t, ':');
    proof {
        lemma_split_nonempty(t, ':');
    }
    let n = ps.len();
    let mut out: Vec<u16> = Vec::new();
    let mut j: usize = 0;
    assert(pv.take(0) =~= Seq::<Seq<char>>::empty());
    assert(hex_values(pv.take(0)) =~= Seq::<u16>::empty());
    while j < n - 1
        invariant
            n == ps@.len(),
            n >= 1,
            j <= n - 1,
            hi <= v@.len(),
            pv == range_pieces(v@, ps@),
            pv == split(t, ':'),
            t == v@.subrange(lo as int, hi as int),
            lo < hi,
            pv.len() == n,
            forall|k: int| 0 <= k < ps@.len() ==> lo <= (#[trigger] ps@[k]).0 <= ps@[k].1 <= hi,
            hex_groups_ok(pv.take(j as int)),
            out@ == hex_values(pv.take(j as int)),
        decreases n - 1 - j,
    {
        let (a, b) = ps[j];
        assert(pv[j as int] == v@.subrange(a as int, b as int));
        match parse_hex_group(v, a, b) {
            Some(x) => {
                out.push(x);
            },
            None => {
                assert(pv.drop_last()[j as int] == pv[j as int]);
                assert(hex_group(pv.drop_last()[j as int]) is None);
                assert(!hex_groups_ok(pv.drop_last()));
                assert(t.len() != 0);
                assert(groups(t, v4_tail) is None);
                return None;
            },
        }
        proof {
            let tk = pv.take(j + 1);
            assert(tk.drop_last() =~= pv.take(j as int));
            assert forall|k: int| 0 <= k < tk.len() implies (#[trigger] hex_group(tk[k])) is Some by {
                if k < j {
                    assert(tk[k] == pv.take(j as int)[k]);
                }
            }
            assert(out@ =~= hex_values(tk));
        }
        j += 1;
    }
    assert(pv.take(j as int) =~= pv.drop_last());
    let (a, b) = ps[n - 1];
    assert(pv[n - 1] == v@.subrange(a as int, b as int));
    assert(pv.last() == pv[n - 1]);
    match parse_hex_group(v, a, b) {
        Some(x) => {
            out.push(x);
            return Some(out);
        },
        None => {},
    }
    if v4_tail {
        match parse_ipv4_range(v, a, b) {
            Some(o) => {
                out.push((o[0] as u16) * 256 + (o[1] as u16));
                out.push((o[2] as u16) * 256 + (o[3] as u16));
                assert(out@ =~= hex_values(pv.drop_last()) + ipv4_groups(o@));
                Some(out)
            },
            None => None,
        }
    } else {
        None
    }
}

/// The index of the first "::" in `v`.
fn find_double_colon(v: &Vec<char>) -> (r: Option<usize>)
    ensures
        match r {
            Some(k) => double_colon_from(v@, 0) == k && k + 1 < v@.len(),
            None => double_colon_from(v@, 0) == -1,
        },
{
    let n = v.len();
    let mut i: usize = 0;
    while n > 0 && i < n - 1
        invariant
            i <= n,
            n == v@.len(),
            double_colon_from(v@, 0) == double_colon_from(v@, i as int),
        decreases n - i,
    {
        if v[i] == ':' && v[i + 1] == ':' {
            return Some(i);
        }
        i += 1;
    }
    None
}

/// Eight groups as an array.
fn groups_array(g: &Vec<u16>) -> (r: [u16; 8])
    requires
        g@.len() == 8,
    ensures
        r@ == g@,
{
    let r = [g[0], g[1], g[2], g[3], g[4], g[5], g[6], g[7]];
    assert(r@ =~= g@);
    r
}

/// Parses IPv6 text.
fn parse_ipv6_chars(v: &Vec<char>) -> (r: Option<[u16; 8]>)
    ensures
        match r {
            Some(g) => spec_parse_ipv6(v@) == Some(g@),
            None => spec_parse_ipv6(v@) is None,
        },
{
    let n = v.len();
    assert(v@.subrange(0, n as int) =~= v@);
    match find_double_colon(v) {
        None => match parse_groups(v, 0, n, true) {
            Some(g) => {
                if g.len() == 8 {
                    Some(groups_array(&g))
                } else {
                    None
                }
            },
            None => None,
        },
        Some(k) => {
            let h = parse_groups(v, 0, k, false);
            let t = parse_groups(v, k + 2, n, true);
            match (h, t) {
                (Some(h), Some(t)) => {
                    if h.len() <= 7 && t.len() <= 7 - h.len() {
                        let z = 8 - h.len() - t.len();
                        let mut out = h;
                        let ghost h0 = out@;
                        let mut i: usize = 0;
                        while i < z
                            invariant
                                i <= z,
                                out@ == h0 + Seq::new(i as nat, |x: int| 0u16),
                            decreases z - i,
                        {
                            out.push(0);
                            i += 1;
                            assert(out@ =~= h0 + Seq::new(i as nat, |x: int| 0u16));
                        }
                        let ghost mid = out@;
                        let mut j: usize = 0;
                        while j < t.len()
                            invariant
                                j <= t@.len(),
                                out@ == mid + t@.take(j as int),
                            decreases t@.len() - j,
                        {
                            out.push(t[j]);
                            j += 1;
                            assert(out@ =~= mid + t@.take(j as int));
                        }
                        assert(t@.take(t@.len() as int) =~= t@);
                        Some(groups_array(&out))
                    } else {
                        None
                    }
                },
                _ => None,
            }
        },
    }
}

/// Parses an IP address: dotted-decimal IPv4 text, or IPv6 text.
pub fn parse_ip_addr(s: &str) -> (r: Option<IpAddress>)
    ensures
        opt_ip_view(r) == spec_parse_ip(s@),
{
    let v = chars_of(s);
    let n = v.len();
    assert(v@.subrange(0, n as int) =~= v@);
    match parse_ipv4_range(&v, 0, n) {
        Some(o) => Some(IpAddress::V4(o)),
        None => match parse_ipv6_chars(&v) {
            Some(g) => Some(IpAddress::V6(g)),
            None => None,
        },
    }
}

/// Whether an address is a loopback address.
pub fn is_loopback(a: &IpAddress) -> (r: bool)
    ensures
        r == is_loopback_view(a@),
{
    match a {
        IpAddress::V4(o) => o[0] == 127,
        IpAddress::V6(g) => {
            let r = g[0] == 0 && g[1] == 0 && g[2] == 0 && g[3] == 0 && g[4] == 0 && g[5] == 0
                && g[6] == 0 && g[7] == 1;
            assert(r == (g@ =~= seq![0u16, 0, 0, 0, 0, 0, 0, 1]));
            r
        },
    }
}

/// The decimal text of an octet value is a decimal octet of that value.
pub proof fn lemma_dec_text_octet(n: nat)
    requires
        n <= 255,
    ensures
        dec_octet(dec_text(n)) == Some(n as u8),
        all_dec_digits(dec_text(n)),
{
    reveal_with_fuel(dec_text, 3);
    reveal_with_fuel(dec_value, 4);
    let t = dec_text(n);
    if n < 10 {
        assert(t =~= seq![dec_digit_char(n)]);
        assert(t.drop_last() =~= Seq::<char>::empty());
    } else if n < 100 {
        assert(dec_text(n / 10) =~= seq![dec_digit_char(n / 10)]);
        assert(t =~= seq![dec_digit_char(n / 10), dec_digit_char(n % 10)]);
        assert(t.drop_last() =~= seq![dec_digit_char(n / 10)]);
        assert(t.drop_last().drop_last() =~= Seq::<char>::empty());
        assert(dec_value(t) == (n / 10) * 10 + n % 10);
    } else {
        assert(dec_text(n / 100) =~= seq![dec_digit_char(n / 100)]);
        assert((n / 10) / 10 == n / 100);
        assert(dec_text(n / 10) =~= seq![dec_digit_char(n / 100), dec_digit_char((n / 10) % 10)]);
        assert(t =~= seq![
            dec_digit_char(n / 100),
            dec_digit_char((n / 10) % 10),
            dec_digit_char(n % 10),
        ]);
        assert(t.drop_last() =~= seq![dec_digit_char(n / 100), dec_digit_char((n / 10) % 10)]);
        assert(t.drop_last().drop_last() =~= seq![dec_digit_char(n / 100)]);
        assert(t.drop_last().drop_last().drop_last() =~= Seq::<char>::empty());
        assert(dec_value(t) == ((n / 100) * 10 + (n / 10) % 10) * 10 + n % 10);
    }
}

/// Parsing the dotted-decimal text of an IPv4 address gives the address
/// back.
pub proof fn law_ipv4_text_roundtrip(o: Seq<u8>)
    requires
        o.len() == 4,
    ensures
        spec_parse_ipv4(ipv4_text(o)) == Some(o),
        spec_parse_ip(ipv4_text(o)) == Some(IpView::V4(o)),
{
    let d0 = dec_text(o[0] as nat);
    let d1 = dec_text(o[1] as nat);
    let d2 = dec_text(o[2] as nat);
    let d3 = dec_text(o[3] as nat);
    lemma_dec_text_octet(o[0] as nat);
    lemma_dec_text_octet(o[1] as nat);
    lemma_dec_text_octet(o[2] as nat);
    lemma_dec_text_octet(o[3] as nat);
    assert forall|k: int| 0 <= k < d0.len() implies d0[k] != '.' by {
        assert(is_dec_digit(d0[k]));
    }
    assert forall|k: int| 0 <= k < d1.len() implies d1[k] != '.' by {
        assert(is_dec_digit(d1[k]));
    }
    assert forall|k: int| 0 <= k < d2.len() implies d2[k] != '.' by {
        assert(is_dec_digit(d2[k]));
    }
    assert forall|k: int| 0 <= k < d3.len() implies d3[k] != '.' by {
        assert(is_dec_digit(d3[k]));
    }
    lemma_split_free(d0, '.');
    let x1 = d0.push('.');
    lemma_split_push_sep(d0, '.');
    lemma_split_append_free(x1, d1, '.');
    assert(split(x1 + d1, '.') =~= seq![d0, d1]);
    let x2 = (x1 + d1).push('.');
    lemma_split_push_sep(x1 + d1, '.');
    lemma_split_append_free(x2, d2, '.');
    assert(split(x2 + d2, '.') =~= seq![d0, d1, d2]);
    let x3 = (x2 + d2).push('.');
    lemma_split_push_sep(x2 + d2, '.');
    lemma_split_append_free(x3, d3, '.');
    assert(split(x3 + d3, '.') =~= seq![d0, d1, d2, d3]);
    assert(ipv4_text(o) =~= x3 + d3);
    assert(seq![o[0], o[1], o[2], o[3]] =~= o);
}

/// A decimal octet text is the decimal text of its value.
pub proof fn lemma_dec_octet_is_dec_text(t: Seq<char>)
    requires
        dec_octet(t) is Some,
    ensures
        t == dec_text(dec_octet(t).unwrap() as nat),
{
    reveal_with_fuel(dec_value, 4);
    reveal_with_fuel(dec_text, 3);
    let v = dec_value(t);
    if t.len() == 1 {
        assert(t.drop_last() =~= Seq::<char>::empty());
        assert(dec_digit_char(dec_digit_value(t[0])) == t[0]);
        assert(t =~= dec_text(v));
    } else if t.len() == 2 {
        assert(t.drop_last() =~= seq![t[0]]);
        assert(t.drop_last().drop_last() =~= Seq::<char>::empty());
        let a = dec_digit_value(t[0]);
        let b = dec_digit_value(t[1]);
        assert(is_dec_digit(t[0]) && is_dec_digit(t[1]));
        assert(v == a * 10 + b);
        assert(a >= 1);
        assert(v / 10 == a && v % 10 == b);
        assert(dec_digit_char(a) == t[0]);
        assert(dec_digit_char(b) == t[1]);
        assert(t =~= dec_text(v));
    } else {
        assert(t.drop_last() =~= seq![t[0], t[1]]);
        assert(t.drop_last().drop_last() =~= seq![t[0]]);
        assert(t.drop_last().drop_last().drop_last() =~= Seq::<char>::empty());
        let a = dec_digit_value(t[0]);
        let b = dec_digit_value(t[1]);
        let c = dec_digit_value(t[2]);
        assert(is_dec_digit(t[0]) && is_dec_digit(t[1]) && is_dec_digit(t[2]));
        assert(v == (a * 10 + b) * 10 + c);
        assert(a >= 1);
        assert(v / 10 == a * 10 + b && v % 10 == c);
        assert((v / 10) / 10 == a && (v / 10) % 10 == b);
        assert(dec_digit_char(a) == t[0]);
        assert(dec_digit_char(b) == t[1]);
        assert(dec_digit_char(c) == t[2]);
        assert(dec_text(v / 10) =~= seq![t[0], t[1]]);
        assert(t =~= dec_text(v));
    }
}

/// An IPv4 address has exactly one accepted text: whatever text parses as
/// an IPv4 address is that address's dotted-decimal text.
pub proof fn law_ipv4_text_is_canonical(s: Seq<char>)
    requires
        spec_parse_ipv4(s) is Some,
    ensures
        s == ipv4_text(spec_parse_ipv4(s).unwrap()),
{
    let ps = split(s, '.');
    let o = spec_parse_ipv4(s).unwrap();
    lemma_join_split(s, '.');
    lemma_dec_octet_is_dec_text(ps[0]);
    lemma_dec_octet_is_dec_text(ps[1]);
    lemma_dec_octet_is_dec_text(ps[2]);
    lemma_dec_octet_is_dec_text(ps[3]);
    let p3 = ps.drop_last();
    let p2 = p3.drop_last();
    let p1 = p2.drop_last();
    assert(p1 =~= seq![ps[0]]);
    assert(join(p1, '.') == ps[0]);
    assert(join(p2, '.') == join(p1, '.').push('.') + ps[1]);
    assert(join(p3, '.') == join(p2, '.').push('.') + ps[2]);
    assert(join(ps, '.') == join(p3, '.').push('.') + ps[3]);
    assert(s =~= ipv4_text(o));
}

/// The hexadecimal texts of some groups.
pub open spec fn group_texts(gs: Seq<u16>) -> Seq<Seq<char>> {
    gs.map_values(|g: u16| hex_text(g as nat))
}

/// Groups in lowercase hexadecimal without leading zeros, separated by
/// colons.
pub open spec fn groups_text(gs: Seq<u16>) -> Seq<char> {
    join(group_texts(gs), ':')
}

/// The number of consecutive zero groups from position `i` on.
pub open spec fn zeros_from(g: Seq<u16>, i: int) -> int
    decreases 8 - i,
{
    if i < 0 || i >= 8 || i >= g.len() || g[i] != 0 {
        0
    } else {
        1 + zeros_from(g, i + 1)
    }
}

/// Among positions `i` to 7, the first that starts a longest run of zero
/// groups.
pub open spec fn widest_zero_run(g: Seq<u16>, i: int) -> int
    decreases 8 - i,
{
    if i >= 7 {
        7
    } else {
        let b = widest_zero_run(g, i + 1);
        if zeros_from(g, i) >= zeros_from(g, b) {
            i
        } else {
            b
        }
    }
}

/// An IPv4-mapped IPv6 address: `::ffff:a.b.c.d`.
pub open spec fn is_ipv4_mapped(g: Seq<u16>) -> bool {
    g[0] == 0 && g[1] == 0 && g[2] == 0 && g[3] == 0 && g[4] == 0 && g[5] == 0xffff
}

/// The IPv4 address inside an IPv4-mapped address.
pub open spec fn mapped_ipv4(g: Seq<u16>) -> Seq<u8> {
    seq![(g[6] / 256) as u8, (g[6] % 256) as u8, (g[7] / 256) as u8, (g[7] % 256) as u8]
}

/// The text of an IPv6 address: IPv4-mapped addresses as `::ffff:`
/// followed by dotted-decimal; otherwise lowercase hexadecimal groups, with
/// the first longest run of two or more zero groups written as "::".
pub open spec fn ipv6_text(g: Seq<u16>) -> Seq<char> {
    if is_ipv4_mapped(g) {
        "::ffff:"@ + ipv4_text(mapped_ipv4(g))
    } else {
        let s = widest_zero_run(g, 0);
        let l = zeros_from(g, s);
        if l > 1 {
            groups_text(g.subrange(0, s)) + "::"@ + groups_text(g.subrange(s + l, 8))
        } else {
            groups_text(g)
        }
    }
}

/// The text of an address.
pub open spec fn ip_text(a: IpView) -> Seq<char> {
    match a {
        IpView::V4(o) => ipv4_text(o),
        IpView::V6(g) => ipv6_text(g),
    }
}

/// Writing one group more.
proof fn lemma_groups_text_push(x: Seq<u16>, y: u16)
    ensures
        groups_text(x.push(y)) == (if x.len() == 0 {
            hex_text(y as nat)
        } else {
            groups_text(x).push(':') + hex_text(y as nat)
        }),
{
    let ps = group_texts(x.push(y));
    assert(ps =~= group_texts(x).push(hex_text(y as nat)));
    assert(ps.drop_last() =~= group_texts(x));
    if x.len() == 0 {
        assert(ps.len() == 1);
    }
}

/// Appends the groups `g[a..b]`, separated by colons.
fn push_groups(out: &mut String, g: &[u16; 8], a: usize, b: usize)
    requires
        a <= b <= 8,
    ensures
        final(out)@ == old(out)@ + groups_text(g@.subrange(a as int, b as int)),
{
    let ghost s0 = out@;
    let mut j = a;
    assert(g@.subrange(a as int, a as int) =~= Seq::<u16>::empty());
    assert(group_texts(Seq::<u16>::empty()) =~= Seq::<Seq<char>>::empty());
    assert(out@ =~= s0 + groups_text(g@.subrange(a as int, j as int)));
    while j < b
        invariant
            a <= j <= b <= 8,
            out@ == s0 + groups_text(g@.subrange(a as int, j as int)),
        decreases b - j,
    {
        let ghost x = g@.subrange(a as int, j as int);
        if j > a {
            push_char(out, ':');
        }
        push_hex(out, g[j]);
        proof {
            lemma_groups_text_push(x, g@[j as int]);
            assert(g@.subrange(a as int, j + 1) =~= x.push(g@[j as int]));
        }
        j += 1;
        assert(out@ =~= s0 + groups_text(g@.subrange(a as int, j as int)));
    }
}

/// The number of consecutive zero groups from `i` on.
fn zeros_at(g: &[u16; 8], i: usize) -> (r: usize)
    requires
        i <= 8,
    ensures
        r == zeros_from(g@, i as int),
        i + r <= 8,
{
    let mut j = i;
    while j < 8 && g[j] == 0
        invariant
            i <= j <= 8,
            zeros_from(g@, i as int) == (j - i) + zeros_from(g@, j as int),
        decreases 8 - j,
    {
        j += 1;
    }
    j - i
}

/// The first position that starts a longest run of zero groups.
fn widest_run(g: &[u16; 8]) -> (r: usize)
    ensures
        r == widest_zero_run(g@, 0),
        r <= 7,
{
    let mut b: usize = 7;
    let mut i: usize = 7;
    while i > 0
        invariant
            i <= 7,
            b <= 7,
            b == widest_zero_run(g@, i as int),
        decreases i,
    {
        i -= 1;
        if zeros_at(g, i) >= zeros_at(g, b) {
            b = i;
        }
    }
    b
}

/// The text of an IPv6 address.
pub fn format_ipv6(g: &[u16; 8]) -> (r: String)
    ensures
        r@ == ipv6_text(g@),
{
    if g[0] == 0 && g[1] == 0 && g[2] == 0 && g[3] == 0 && g[4] == 0 && g[5] == 0xffff {
        let o = [(g[6] / 256) as u8, (g[6] % 256) as u8, (g[7] / 256) as u8, (g[7] % 256) as u8];
        assert(o@ =~= mapped_ipv4(g@));
        concat_str("::ffff:", format_ipv4(&o).as_str())
    } else {
        let s = widest_run(g);
        let l = zeros_at(g, s);
        let mut out = String::new();
        if l > 1 {
            push_groups(&mut out, g, 0, s);
            push_char(&mut out, ':');
            push_char(&mut out, ':');
            push_groups(&mut out, g, s + l, 8);
            proof {
                reveal_strlit("::");
            }
            assert(out@ =~= ipv6_text(g@));
        } else {
            push_groups(&mut out, g, 0, 8);
            assert(g@.subrange(0, 8) =~= g@);
            assert(out@ =~= ipv6_text(g@));
        }
        out
    }
}

/// The text of an address.
pub fn format_ip(a: &IpAddress) -> (r: String)
    ensures
        r@ == ip_text(a@),
{
    match a {
        IpAddress::V4(o) => format_ipv4(o),
        IpAddress::V6(g) => format_ipv6(g),
    }
}

/// The hexadecimal text of a number is hexadecimal digits with that value,
/// at most four of them below 65536.
proof fn lemma_hex_text(n: nat)
    ensures
        all_hex_digits(hex_text(n)),
        hex_value(hex_text(n)) == n,
        hex_text(n).len() >= 1,
        n < 16 ==> hex_text(n).len() == 1,
        n < 256 ==> hex_text(n).len() <= 2,
        n < 4096 ==> hex_text(n).len() <= 3,
        n < 65536 ==> hex_text(n).len() <= 4,
    decreases n,
{
    let t = hex_text(n);
    if n < 16 {
        assert(t.drop_last() =~= Seq::<char>::empty());
        assert(is_hex_digit(t[0]));
        assert(hex_digit_value(hex_lower_char(n)) == n);
        assert(t.last() == hex_lower_char(n));
        assert(hex_value(t) == hex_value(t.drop_last()) * 16 + hex_digit_value(t.last()));
        assert(hex_value(Seq::<char>::empty()) == 0);
    } else {
        lemma_hex_text(n / 16);
        assert(t.drop_last() =~= hex_text(n / 16));
        let d = n % 16;
        assert(hex_digit_value(hex_lower_char(d)) == d);
        assert(t.last() == hex_lower_char(d));
        assert(hex_value(t) == hex_value(t.drop_last()) * 16 + hex_digit_value(t.last()));
        assert((n / 16) * 16 + n % 16 == n);
        assert forall|k: int| 0 <= k < t.len() implies is_hex_digit(#[trigger] t[k]) by {
            if k < t.len() - 1 {
                assert(t[k] == hex_text(n / 16)[k]);
            }
        }
    }
}

/// The hexadecimal text of a group is a 16-bit group of that value, and
/// holds neither colons nor dots.
proof fn lemma_hex_group_text(n: u16)
    ensures
        hex_group(hex_text(n as nat)) == Some(n),
        sep_free(hex_text(n as nat), ':'),
        sep_free(hex_text(n as nat), '.'),
{
    lemma_hex_text(n as nat);
    let t = hex_text(n as nat);
    assert forall|k: int| 0 <= k < t.len() implies t[k] != ':' && t[k] != '.' by {
        assert(is_hex_digit(t[k]));
    }
}

/// No "::" occurs in `t`.
pub open spec fn no_double_colon(t: Seq<char>) -> bool {
    forall|i: int| 0 <= i < t.len() - 1 ==> !(#[trigger] t[i] == ':' && t[i + 1] == ':')
}

/// Every character is a hexadecimal digit or a colon.
pub open spec fn hex_or_colon(t: Seq<char>) -> bool {
    forall|i: int| 0 <= i < t.len() ==> (#[trigger] t[i] == ':' || is_hex_digit(t[i]))
}

/// Groups written with single colons between them: no "::", only digits
/// and colons, and a digit last.
proof fn lemma_groups_text_shape(gs: Seq<u16>)
    ensures
        no_double_colon(groups_text(gs)),
        hex_or_colon(groups_text(gs)),
        gs.len() > 0 ==> groups_text(gs).len() > 0 && is_hex_digit(groups_text(gs).last()),
        gs.len() == 0 ==> groups_text(gs).len() == 0,
    decreases gs.len(),
{
    if gs.len() == 0 {
        assert(group_texts(gs) =~= Seq::<Seq<char>>::empty());
    } else {
        let x = gs.drop_last();
        let y = gs.last();
        lemma_groups_text_shape(x);
        lemma_groups_text_push(x, y);
        assert(x.push(y) =~= gs);
        lemma_hex_text(y as nat);
        let h = hex_text(y as nat);
        let t = groups_text(gs);
        if x.len() == 0 {
            assert(t == h);
            assert forall|i: int| 0 <= i < t.len() implies (#[trigger] t[i] == ':' || is_hex_digit(
                t[i],
            )) by {
                assert(is_hex_digit(h[i]));
            }
            assert forall|i: int| 0 <= i < t.len() - 1 implies !(#[trigger] t[i] == ':' && t[i + 1]
                == ':') by {
                assert(is_hex_digit(h[i]));
            }
            assert(is_hex_digit(h[h.len() - 1]));
        } else {
            let u = groups_text(x);
            assert(t == u.push(':') + h);
            assert forall|i: int| 0 <= i < t.len() implies (#[trigger] t[i] == ':' || is_hex_digit(
                t[i],
            )) by {
                if i < u.len() {
                    assert(t[i] == u[i]);
                } else if i > u.len() {
                    assert(t[i] == h[i - u.len() - 1]);
                    assert(is_hex_digit(h[i - u.len() - 1]));
                }
            }
            assert forall|i: int| 0 <= i < t.len() - 1 implies !(#[trigger] t[i] == ':' && t[i + 1]
                == ':') by {
                if i < u.len() - 1 {
                    assert(t[i] == u[i] && t[i + 1] == u[i + 1]);
                } else if i == u.len() - 1 {
                    assert(t[i] == u.last());
                } else if i == u.len() {
                    assert(t[i + 1] == h[0]);
                    assert(is_hex_digit(h[0]));
                } else {
                    assert(t[i] == h[i - u.len() - 1]);
                    assert(is_hex_digit(h[i - u.len() - 1]));
                }
            }
            assert(t.last() == h.last());
            assert(is_hex_digit(h[h.len() - 1]));
        }
    }
}

/// Groups written with colons between them read back as those groups.
proof fn lemma_groups_text_parse(gs: Seq<u16>, v4_tail: bool)
    ensures
        groups(groups_text(gs), v4_tail) == Some(gs),
{
    lemma_groups_text_shape(gs);
    if gs.len() == 0 {
        assert(gs =~= Seq::<u16>::empty());
    } else {
        let ps = group_texts(gs);
        assert forall|j: int| 0 <= j < ps.len() implies sep_free(#[trigger] ps[j], ':') by {
            lemma_hex_group_text(gs[j]);
        }
        lemma_split_join(ps, ':');
        let init = ps.drop_last();
        assert forall|j: int| 0 <= j < init.len() implies (#[trigger] hex_group(init[j])) is Some by {
            assert(init[j] == hex_text(gs[j] as nat));
            lemma_hex_group_text(gs[j]);
        }
        lemma_hex_group_text(gs.last());
        assert(ps.last() == hex_text(gs.last() as nat));
        assert forall|j: int| 0 <= j < init.len() implies hex_values(init)[j] == gs[j] by {
            assert(init[j] == hex_text(gs[j] as nat));
            lemma_hex_group_text(gs[j]);
        }
        assert(hex_values(init).push(gs.last()) =~= gs);
    }
}

/// The first "::" at or after `i` is at `d` when none comes before it.
proof fn lemma_double_colon_at(s: Seq<char>, i: int, d: int)
    requires
        0 <= i <= d,
        d + 1 < s.len(),
        s[d] == ':' && s[d + 1] == ':',
        forall|j: int| i <= j < d ==> !(#[trigger] s[j] == ':' && s[j + 1] == ':'),
    ensures
        double_colon_from(s, i) == d,
    decreases d - i,
{
    if i < d {
        lemma_double_colon_at(s, i + 1, d);
    }
}

/// No "::" at or after `i`.
proof fn lemma_double_colon_none(s: Seq<char>, i: int)
    requires
        0 <= i,
        forall|j: int| i <= j < s.len() - 1 ==> !(#[trigger] s[j] == ':' && s[j + 1] == ':'),
    ensures
        double_colon_from(s, i) == -1,
    decreases s.len() - i,
{
    if i + 1 < s.len() {
        lemma_double_colon_none(s, i + 1);
    }
}

/// Text without a dot is not IPv4 text.
proof fn lemma_dotless_not_ipv4(s: Seq<char>)
    requires
        sep_free(s, '.'),
    ensures
        spec_parse_ipv4(s) is None,
{
    if spec_parse_ipv4(s) is Some {
        law_ipv4_text_is_canonical(s);
        let o = spec_parse_ipv4(s).unwrap();
        let d0 = dec_text(o[0] as nat);
        assert(ipv4_text(o)[d0.len() as int] == '.');
    }
}

/// Text that starts with a colon is not IPv4 text.
proof fn lemma_colon_start_not_ipv4(s: Seq<char>)
    requires
        s.len() > 0,
        s[0] == ':',
    ensures
        spec_parse_ipv4(s) is None,
{
    if spec_parse_ipv4(s) is Some {
        law_ipv4_text_is_canonical(s);
        let o = spec_parse_ipv4(s).unwrap();
        lemma_dec_text_octet(o[0] as nat);
        let d0 = dec_text(o[0] as nat);
        assert(d0.len() >= 1);
        assert(ipv4_text(o)[0] == d0[0]);
        assert(is_dec_digit(d0[0]));
    }
}

/// Zero groups from `i` on: how many there are, and that they are zero.
proof fn lemma_zeros_from(g: Seq<u16>, i: int)
    requires
        g.len() == 8,
        0 <= i <= 8,
    ensures
        0 <= zeros_from(g, i) <= 8 - i,
        forall|k: int| i <= k < i + zeros_from(g, i) ==> g[k] == 0,
    decreases 8 - i,
{
    if i < 8 && g[i] == 0 {
        lemma_zeros_from(g, i + 1);
    }
}

/// The start of the widest zero run is a position.
proof fn lemma_widest_zero_run(g: Seq<u16>, i: int)
    requires
        0 <= i <= 7,
    ensures
        i <= widest_zero_run(g, i) <= 7,
    decreases 8 - i,
{
    if i < 7 {
        lemma_widest_zero_run(g, i + 1);
    }
}

/// Reading back the text of an IPv4-mapped address.
proof fn lemma_mapped_roundtrip(g: Seq<u16>)
    requires
        g.len() == 8,
        is_ipv4_mapped(g),
    ensures
        spec_parse_ip(ipv6_text(g)) == Some(IpView::V6(g)),
{
    reveal_strlit("::ffff:");
    let o = mapped_ipv4(g);
    let v = ipv4_text(o);
    let s = ipv6_text(g);
    assert(s == "::ffff:"@ + v);
    lemma_colon_start_not_ipv4(s);
    assert(double_colon_from(s, 0) == 0);
    let tail = s.subrange(2, s.len() as int);
    let ffff = seq!['f', 'f', 'f', 'f'];
    assert(tail =~= ffff.push(':') + v);
    law_ipv4_text_roundtrip(o);
    lemma_dec_text_octet(o[0] as nat);
    lemma_dec_text_octet(o[1] as nat);
    lemma_dec_text_octet(o[2] as nat);
    lemma_dec_text_octet(o[3] as nat);
    assert forall|k: int| 0 <= k < v.len() implies v[k] != ':' by {
        let d0 = dec_text(o[0] as nat);
        let d1 = dec_text(o[1] as nat);
        let d2 = dec_text(o[2] as nat);
        let d3 = dec_text(o[3] as nat);
        if k < d0.len() {
            assert(is_dec_digit(d0[k]));
        } else if d0.len() < k < d0.len() + 1 + d1.len() {
            assert(is_dec_digit(d1[k - d0.len() - 1]));
        } else if d0.len() + 1 + d1.len() < k < d0.len() + 1 + d1.len() + 1 + d2.len() {
            assert(is_dec_digit(d2[k - d0.len() - 1 - d1.len() - 1]));
        } else if d0.len() + 1 + d1.len() + 1 + d2.len() + 1 <= k {
            assert(is_dec_digit(d3[k - d0.len() - 1 - d1.len() - 1 - d2.len() - 1]));
        }
    }
    lemma_split_free(ffff, ':');
    lemma_split_push_sep(ffff, ':');
    lemma_split_append_free(ffff.push(':'), v, ':');
    let ps = split(tail, ':');
    assert(ps =~= seq![ffff, v]);
    reveal_with_fuel(hex_value, 5);
    assert(ffff.drop_last() =~= seq!['f', 'f', 'f']);
    assert(ffff.drop_last().drop_last() =~= seq!['f', 'f']);
    assert(ffff.drop_last().drop_last().drop_last() =~= seq!['f']);
    assert(ffff.drop_last().drop_last().drop_last().drop_last() =~= Seq::<char>::empty());
    assert(hex_value(ffff) == 0xffff);
    assert(hex_group(ffff) == Some(0xffffu16));
    let d0 = dec_text(o[0] as nat);
    assert(v[d0.len() as int] == '.');
    assert(!is_hex_digit(v[d0.len() as int]));
    assert(hex_group(v) is None);
    assert(hex_values(ps.drop_last()) =~= seq![0xffffu16]);
    assert((g[6] / 256) * 256 + g[6] % 256 == g[6]);
    assert((g[7] / 256) * 256 + g[7] % 256 == g[7]);
    assert(ipv4_groups(o) =~= seq![g[6], g[7]]);
    assert(groups(tail, true) == Some(seq![0xffffu16, g[6], g[7]]));
    assert(s.subrange(0, 0) =~= Seq::<char>::empty());
    assert(groups(s.subrange(0, 0), false) == Some(Seq::<u16>::empty()));
    assert(Seq::<u16>::empty() + Seq::new(5, |i: int| 0u16) + seq![0xffffu16, g[6], g[7]] =~= g);
}

/// Reading back the text of an IPv6 address that is not IPv4-mapped.
proof fn lemma_unmapped_roundtrip(g: Seq<u16>)
    requires
        g.len() == 8,
        !is_ipv4_mapped(g),
    ensures
        spec_parse_ip(ipv6_text(g)) == Some(IpView::V6(g)),
{
    let st = widest_zero_run(g, 0);
    lemma_widest_zero_run(g, 0);
    let l = zeros_from(g, st);
    lemma_zeros_from(g, st);
    let s = ipv6_text(g);
    if l > 1 {
        reveal_strlit("::");
        let hg = g.subrange(0, st);
        let tg = g.subrange(st + l, 8);
        let h = groups_text(hg);
        let t = groups_text(tg);
        lemma_groups_text_shape(hg);
        lemma_groups_text_shape(tg);
        assert(s == h + "::"@ + t);
        assert(s =~= h.push(':').push(':') + t);
        assert forall|k: int| 0 <= k < s.len() implies s[k] != '.' by {
            if k < h.len() {
                assert(s[k] == h[k]);
            } else if k >= h.len() + 2 {
                assert(s[k] == t[k - h.len() - 2]);
            }
        }
        lemma_dotless_not_ipv4(s);
        assert forall|j: int| 0 <= j < h.len() implies !(#[trigger] s[j] == ':' && s[j + 1] == ':') by {
            if j < h.len() - 1 {
                assert(s[j] == h[j] && s[j + 1] == h[j + 1]);
            } else {
                assert(s[j] == h.last());
            }
        }
        lemma_double_colon_at(s, 0, h.len() as int);
        assert(s.subrange(0, h.len() as int) =~= h);
        assert(s.subrange(h.len() as int + 2, s.len() as int) =~= t);
        lemma_groups_text_parse(hg, false);
        lemma_groups_text_parse(tg, true);
        assert forall|k: int| 0 <= k < 8 implies (hg + Seq::new(
            (8 - hg.len() - tg.len()) as nat,
            |i: int| 0u16,
        ) + tg)[k] == g[k] by {
            if st <= k < st + l {
                assert(g[k] == 0);
            }
        }
        assert(hg + Seq::new((8 - hg.len() - tg.len()) as nat, |i: int| 0u16) + tg =~= g);
    } else {
        lemma_groups_text_shape(g);
        assert forall|k: int| 0 <= k < s.len() implies s[k] != '.' by {
            assert(s[k] == ':' || is_hex_digit(s[k]));
        }
        lemma_dotless_not_ipv4(s);
        lemma_double_colon_none(s, 0);
        lemma_groups_text_parse(g, true);
    }
}

/// Reading back the text of an address gives the address.
pub proof fn law_ip_text_roundtrip(a: IpView)
    requires
        match a {
            IpView::V4(o) => o.len() == 4,
            IpView::V6(g) => g.len() == 8,
        },
    ensures
        spec_parse_ip(ip_text(a)) == Some(a),
{
    match a {
        IpView::V4(o) => {
            law_ipv4_text_roundtrip(o);
        },
        IpView::V6(g) => {
            if is_ipv4_mapped(g) {
                lemma_mapped_roundtrip(g);
            } else {
                lemma_unmapped_roundtrip(g);
            }
        },
    }
}

} // verus!
