//! Character-level helpers shared by the parsers and formatters.

use vstd::prelude::*;
use vstd::string::StrSliceExecFns;

verus! {

/// Decimal digit test.
pub open spec fn is_dec_digit(c: char) -> bool {
    '0' <= c && c <= '9'
}

/// Value of a decimal digit.
pub open spec fn dec_digit_value(c: char) -> nat {
    (c as int - '0' as int) as nat
}

/// Hexadecimal digit test, either case.
pub open spec fn is_hex_digit(c: char) -> bool {
    ||| ('0' <= c && c <= '9')
    ||| ('a' <= c && c <= 'f')
    ||| ('A' <= c && c <= 'F')
}

/// Value of a hexadecimal digit.
pub open spec fn hex_digit_value(c: char) -> nat {
    if '0' <= c && c <= '9' {
        (c as int - '0' as int) as nat
    } else if 'a' <= c && c <= 'f' {
        (c as int - 'a' as int + 10) as nat
    } else {
        (c as int - 'A' as int + 10) as nat
    }
}

/// The character of a decimal digit value.
pub open spec fn dec_digit_char(d: nat) -> char {
    ('0' as int + d) as char
}

/// Value of a string of decimal digits, most significant first.
pub open spec fn dec_value(t: Seq<char>) -> nat
    decreases t.len(),
{
    if t.len() == 0 {
        0
    } else {
        dec_value(t.drop_last()) * 10 + dec_digit_value(t.last())
    }
}

/// Value of a string of hexadecimal digits, most significant first.
pub open spec fn hex_value(t: Seq<char>) -> nat
    decreases t.len(),
{
    if t.len() == 0 {
        0
    } else {
        hex_value(t.drop_last()) * 16 + hex_digit_value(t.last())
    }
}

/// Every character of `t` is a decimal digit.
pub open spec fn all_dec_digits(t: Seq<char>) -> bool {
    forall|i: int| 0 <= i < t.len() ==> is_dec_digit(#[trigger] t[i])
}

/// Every character of `t` is a hexadecimal digit.
pub open spec fn all_hex_digits(t: Seq<char>) -> bool {
    forall|i: int| 0 <= i < t.len() ==> is_hex_digit(#[trigger] t[i])
}

/// The decimal text of `n`, without leading zeros ("0" for zero).
pub open spec fn dec_text(n: nat) -> Seq<char>
    decreases n,
{
    if n < 10 {
        seq![dec_digit_char(n)]
    } else {
        dec_text(n / 10).push(dec_digit_char(n % 10))
    }
}

/// The pieces of `s` between occurrences of `sep`, in order; an empty
/// string has one empty piece.
pub open spec fn split(s: Seq<char>, sep: char) -> Seq<Seq<char>>
    decreases s.len(),
{
    if s.len() == 0 {
        seq![Seq::<char>::empty()]
    } else {
        let p = split(s.drop_last(), sep);
        if s.last() == sep {
            p.push(Seq::<char>::empty())
        } else {
            p.update(p.len() - 1, p.last().push(s.last()))
        }
    }
}

/// The pieces joined back with `sep` between them.
pub open spec fn join(ps: Seq<Seq<char>>, sep: char) -> Seq<char>
    decreases ps.len(),
{
    if ps.len() == 0 {
        Seq::<char>::empty()
    } else if ps.len() == 1 {
        ps[0]
    } else {
        join(ps.drop_last(), sep).push(sep) + ps.last()
    }
}

/// `split` always yields at least one piece.
pub proof fn lemma_split_nonempty(s: Seq<char>, sep: char)
    ensures
        split(s, sep).len() >= 1,
    decreases s.len(),
{
    if s.len() > 0 {
        lemma_split_nonempty(s.drop_last(), sep);
    }
}

/// Splitting one character more.
pub proof fn lemma_split_push(s: Seq<char>, c: char, sep: char)
    ensures
        split(s.push(c), sep) == (if c == sep {
            split(s, sep).push(Seq::<char>::empty())
        } else {
            split(s, sep).update(split(s, sep).len() - 1, split(s, sep).last().push(c))
        }),
{
    assert(s.push(c).drop_last() =~= s);
}

/// Joining the pieces of a split gives the string back.
pub proof fn lemma_join_split(s: Seq<char>, sep: char)
    ensures
        join(split(s, sep), sep) == s,
    decreases s.len(),
{
    if s.len() > 0 {
        let t = s.drop_last();
        lemma_join_split(t, sep);
        lemma_split_nonempty(t, sep);
        let p = split(t, sep);
        if s.last() == sep {
            assert(split(s, sep).drop_last() =~= p);
            assert(s =~= t.push(sep) + Seq::<char>::empty());
        } else {
            let q = split(s, sep);
            if p.len() == 1 {
                assert(q[0] =~= s);
            } else {
                assert(q.drop_last() =~= p.drop_last());
                assert(q.last() == p.last().push(s.last()));
                assert(t == join(p.drop_last(), sep).push(sep) + p.last());
                assert(s =~= t.push(s.last()));
                assert(s =~= join(p.drop_last(), sep).push(sep) + p.last().push(s.last()));
                assert(join(q, sep) == join(q.drop_last(), sep).push(sep) + q.last());
            }
        }
    }
}


/// Splitting after appending a separator-free string extends the last piece.
pub proof fn lemma_split_append_free(x: Seq<char>, y: Seq<char>, sep: char)
    requires
        forall|k: int| 0 <= k < y.len() ==> y[k] != sep,
    ensures
        split(x + y, sep) == split(x, sep).update(
            split(x, sep).len() - 1,
            split(x, sep).last() + y,
        ),
    decreases y.len(),
{
    lemma_split_nonempty(x, sep);
    if y.len() == 0 {
        assert(x + y =~= x);
        assert(split(x, sep).last() + y =~= split(x, sep).last());
        assert(split(x, sep).update(split(x, sep).len() - 1, split(x, sep).last())
            =~= split(x, sep));
    } else {
        let y1 = y.drop_last();
        lemma_split_append_free(x, y1, sep);
        assert(x + y =~= (x + y1).push(y.last()));
        lemma_split_push(x + y1, y.last(), sep);
        assert((split(x, sep).last() + y1).push(y.last()) =~= split(x, sep).last() + y);
        assert(split(x + y, sep) =~= split(x, sep).update(
            split(x, sep).len() - 1,
            split(x, sep).last() + y,
        ));
    }
}

/// Splitting after appending one separator opens a new empty piece.
pub proof fn lemma_split_push_sep(x: Seq<char>, sep: char)
    ensures
        split(x.push(sep), sep) == split(x, sep).push(Seq::<char>::empty()),
{
    lemma_split_push(x, sep, sep);
}

/// A separator-free string is a single piece.
pub proof fn lemma_split_free(y: Seq<char>, sep: char)
    requires
        forall|k: int| 0 <= k < y.len() ==> y[k] != sep,
    ensures
        split(y, sep) == seq![y],
{
    lemma_split_append_free(Seq::<char>::empty(), y, sep);
    assert(Seq::<char>::empty() + y =~= y);
    assert(split(Seq::<char>::empty(), sep) =~= seq![Seq::<char>::empty()]);
    assert(seq![Seq::<char>::empty()].update(0, Seq::<char>::empty() + y) =~= seq![y]);
}

/// Appends one character to a string.
#[verifier::external_body]
pub(crate) fn push_char(s: &mut String, c: char)
    ensures
        final(s)@ == old(s)@.push(c),
{
    s.push(c);
}

/// The characters of a string, in order.
pub fn chars_of(s: &str) -> (v: Vec<char>)
    ensures
        v@ == s@,
{
    let n = s.unicode_len();
    let mut v: Vec<char> = Vec::new();
    let mut i: usize = 0;
    while i < n
        invariant
            n == s@.len(),
            i <= n,
            v@ == s@.subrange(0, i as int),
        decreases n - i,
    {
        let c = s.get_char(i);
        v.push(c);
        i += 1;
        assert(v@ =~= s@.subrange(0, i as int));
    }
    assert(s@.subrange(0, n as int) =~= s@);
    v
}

/// The concatenation of two strings.
pub fn concat_str(a: &str, b: &str) -> (r: String)
    ensures
        r@ == a@ + b@,
{
    let mut r = a.to_owned();
    r.append(b);
    r
}

/// Appends the decimal text of `n`.
pub fn push_dec(out: &mut String, n: u64)
    ensures
        final(out)@ == old(out)@ + dec_text(n as nat),
    decreases n,
{
    let ghost s0 = out@;
    if n < 10 {
        push_char(out, dec_char_of(n));
        assert(out@ =~= s0 + dec_text(n as nat));
    } else {
        push_dec(out, n / 10);
        push_char(out, dec_char_of(n % 10));
        assert(out@ =~= s0 + dec_text(n as nat));
    }
}

/// The character of a decimal digit value.
fn dec_char_of(d: u64) -> (c: char)
    requires
        d < 10,
    ensures
        c == dec_digit_char(d as nat),
        is_dec_digit(c),
{
    ((d as u8) + ('0' as u8)) as char
}

/// The decimal text of `n`.
pub fn dec_string(n: u64) -> (r: String)
    ensures
        r@ == dec_text(n as nat),
{
    let mut r = String::new();
    push_dec(&mut r, n);
    assert(r@ =~= dec_text(n as nat));
    r
}

/// The lowercase hexadecimal digit of a value below 16.
pub open spec fn hex_lower_char(d: nat) -> char {
    if d < 10 {
        ('0' as int + d) as char
    } else {
        ('a' as int + d - 10) as char
    }
}

/// Lowercase hexadecimal text of bytes, two digits per byte, high nibble
/// first.
pub open spec fn hex_lower(bytes: Seq<u8>) -> Seq<char>
    decreases bytes.len(),
{
    if bytes.len() == 0 {
        Seq::<char>::empty()
    } else {
        hex_lower(bytes.drop_last()) + seq![
            hex_lower_char((bytes.last() / 16) as nat),
            hex_lower_char((bytes.last() % 16) as nat),
        ]
    }
}

/// Distinct digit values below 16 have distinct hexadecimal digits.
pub proof fn lemma_hex_lower_char_injective(a: nat, b: nat)
    requires
        a < 16,
        b < 16,
        hex_lower_char(a) == hex_lower_char(b),
    ensures
        a == b,
{
    let ca = hex_lower_char(a) as int;
    let cb = hex_lower_char(b) as int;
    assert(a < 10 ==> ca == 48 + a);
    assert(a >= 10 ==> ca == 87 + a);
    assert(b < 10 ==> cb == 48 + b);
    assert(b >= 10 ==> cb == 87 + b);
}

/// The hexadecimal text of bytes is two characters per byte.
pub proof fn lemma_hex_lower_len(bytes: Seq<u8>)
    ensures
        hex_lower(bytes).len() == 2 * bytes.len(),
    decreases bytes.len(),
{
    if bytes.len() > 0 {
        lemma_hex_lower_len(bytes.drop_last());
    }
}

/// Different bytes have different hexadecimal texts.
pub proof fn lemma_hex_lower_injective(a: Seq<u8>, b: Seq<u8>)
    requires
        hex_lower(a) == hex_lower(b),
    ensures
        a == b,
    decreases a.len(),
{
    lemma_hex_lower_len(a);
    lemma_hex_lower_len(b);
    assert(a.len() == b.len());
    if a.len() > 0 {
        let ha = hex_lower(a);
        let n = ha.len();
        let pa = hex_lower(a.drop_last());
        let pb = hex_lower(b.drop_last());
        lemma_hex_lower_len(a.drop_last());
        lemma_hex_lower_len(b.drop_last());
        assert(pa =~= ha.subrange(0, n - 2));
        assert(pb =~= ha.subrange(0, n - 2));
        lemma_hex_lower_injective(a.drop_last(), b.drop_last());
        let x = a.last();
        let y = b.last();
        assert(ha[n - 2] == hex_lower_char((x / 16) as nat));
        assert(ha[n - 2] == hex_lower_char((y / 16) as nat));
        assert(ha[n - 1] == hex_lower_char((x % 16) as nat));
        assert(ha[n - 1] == hex_lower_char((y % 16) as nat));
        lemma_hex_lower_char_injective((x / 16) as nat, (y / 16) as nat);
        lemma_hex_lower_char_injective((x % 16) as nat, (y % 16) as nat);
        assert(x == y);
        assert(a =~= a.drop_last().push(x));
        assert(b =~= b.drop_last().push(y));
    }
}

/// `sep` does not occur in `t`.
pub open spec fn sep_free(t: Seq<char>, sep: char) -> bool {
    forall|k: int| 0 <= k < t.len() ==> t[k] != sep
}

/// Splitting pieces that were joined gives the pieces back, when none
/// holds the separator.
pub proof fn lemma_split_join(ps: Seq<Seq<char>>, sep: char)
    requires
        ps.len() >= 1,
        forall|j: int| 0 <= j < ps.len() ==> sep_free(#[trigger] ps[j], sep),
    ensures
        split(join(ps, sep), sep) == ps,
    decreases ps.len(),
{
    if ps.len() == 1 {
        assert(sep_free(ps[0], sep));
        lemma_split_free(ps[0], sep);
        assert(seq![ps[0]] =~= ps);
    } else {
        let q = ps.drop_last();
        assert forall|j: int| 0 <= j < q.len() implies sep_free(#[trigger] q[j], sep) by {
            assert(q[j] == ps[j]);
        }
        lemma_split_join(q, sep);
        lemma_split_push_sep(join(q, sep), sep);
        assert(sep_free(ps[ps.len() - 1], sep));
        lemma_split_append_free(join(q, sep).push(sep), ps.last(), sep);
        assert(Seq::<char>::empty() + ps.last() =~= ps.last());
        assert(q.push(Seq::<char>::empty()).update(q.len() as int, ps.last()) =~= ps);
    }
}

/// The lowercase hexadecimal text of `n`, without leading zeros ("0" for
/// zero).
pub open spec fn hex_text(n: nat) -> Seq<char>
    decreases n,
{
    if n < 16 {
        seq![hex_lower_char(n)]
    } else {
        hex_text(n / 16).push(hex_lower_char(n % 16))
    }
}

/// The lowercase hexadecimal digit of a value below 16.
fn hex_char_of(d: u16) -> (c: char)
    requires
        d < 16,
    ensures
        c == hex_lower_char(d as nat),
{
    if d < 10 {
        ((d as u8) + ('0' as u8)) as char
    } else {
        ((d as u8) - 10 + ('a' as u8)) as char
    }
}

/// Appends the lowercase hexadecimal text of `n`.
pub fn push_hex(out: &mut String, n: u16)
    ensures
        final(out)@ == old(out)@ + hex_text(n as nat),
    decreases n,
{
    let ghost s0 = out@;
    if n < 16 {
        push_char(out, hex_char_of(n));
        assert(out@ =~= s0 + hex_text(n as nat));
    } else {
        push_hex(out, n / 16);
        push_char(out, hex_char_of(n % 16));
        assert(out@ =~= s0 + hex_text(n as nat));
    }
}

} // verus!
