//! Byte-level text: the line, field and number syntax shared by the
//! command encoders, the response decoders and the notification framer.
use numtoa::NumToA;
use vstd::prelude::*;
use vstd::string::*;
use vstd::utf8::*;

verus! {

broadcast use vstd::string::group_string_axioms;

/// The UTF-8 bytes of a piece of text.
pub open spec fn bytes_of(s: &str) -> Seq<u8> {
    s.spec_bytes()
}

/// An ASCII decimal digit.
pub open spec fn is_digit(b: u8) -> bool {
    48 <= b <= 57
}

/// A character with Unicode's White_Space property.
pub open spec fn is_white_space(c: char) -> bool {
    let u = c as u32;
    (9 <= u <= 13) || u == 0x20 || u == 0x85 || u == 0xa0 || u == 0x1680 || (0x2000 <= u
        <= 0x200a) || u == 0x2028 || u == 0x2029 || u == 0x202f || u == 0x205f || u == 0x3000
}

/// UTF-8 text made of white space only (the empty text included): the text
/// that trimming leaves empty.
pub open spec fn is_blank(s: Seq<u8>) -> bool {
    &&& valid_utf8(s)
    &&& forall|i: int|
        0 <= i < decode_utf8(s).len() ==> is_white_space(#[trigger] decode_utf8(s)[i])
}

pub open spec fn is_ascii_seq(s: Seq<u8>) -> bool {
    forall|i: int| 0 <= i < s.len() ==> #[trigger] s[i] < 128
}

pub open spec fn all_digits(s: Seq<u8>) -> bool {
    forall|i: int| 0 <= i < s.len() ==> is_digit(#[trigger] s[i])
}

pub open spec fn starts_with(s: Seq<u8>, p: Seq<u8>) -> bool {
    p.len() <= s.len() && s.subrange(0, p.len() as int) == p
}

/// The pieces of `s` between occurrences of `sep`: `n` separators give
/// `n + 1` pieces, some of them possibly empty.
pub open spec fn split(s: Seq<u8>, sep: u8) -> Seq<Seq<u8>>
    decreases s.len(),
{
    if s.len() == 0 {
        seq![Seq::empty()]
    } else {
        let pieces = split(s.drop_last(), sep);
        if s.last() == sep {
            pieces.push(Seq::empty())
        } else {
            pieces.update(pieces.len() - 1, pieces.last().push(s.last()))
        }
    }
}

/// A line without the carriage return that ends it, if any.
pub open spec fn strip_cr(l: Seq<u8>) -> Seq<u8> {
    if l.len() > 0 && l.last() == 13 {
        l.drop_last()
    } else {
        l
    }
}

/// The lines of a response: split at line feeds, with a `\r` that ends a
/// line dropped, on the last line too (where no line feed follows it). A
/// final line feed leaves an empty last line, which none of the decoders
/// tells apart from a missing one.
pub open spec fn lines(s: Seq<u8>) -> Seq<Seq<u8>> {
    split(s, 10).map_values(|l: Seq<u8>| strip_cr(l))
}

/// The first index at or after `i` that holds `x`.
pub open spec fn find_from(s: Seq<u8>, x: u8, i: int) -> Option<int>
    decreases s.len() - i,
{
    if i < 0 || i >= s.len() {
        None
    } else if s[i] == x {
        Some(i)
    } else {
        find_from(s, x, i + 1)
    }
}

/// The value of a sequence of decimal digits.
pub open spec fn decimal_value(s: Seq<u8>) -> nat
    decreases s.len(),
{
    if s.len() == 0 {
        0
    } else {
        10 * decimal_value(s.drop_last()) + (s.last() - 48) as nat
    }
}

/// The decimal digits of `n`, most significant first, without leading zeros.
pub open spec fn decimal(n: nat) -> Seq<u8>
    decreases n,
{
    if n < 10 {
        seq![(48 + n) as u8]
    } else {
        decimal(n / 10).push((48 + n % 10) as u8)
    }
}

pub open spec fn pow10(k: nat) -> nat
    decreases k,
{
    if k == 0 {
        1
    } else {
        10 * pow10((k - 1) as nat)
    }
}

pub proof fn lemma_split_nonempty(s: Seq<u8>, sep: u8)
    ensures
        split(s, sep).len() >= 1,
    decreases s.len(),
{
    if s.len() > 0 {
        lemma_split_nonempty(s.drop_last(), sep);
    }
}

/// UTF-8 text that starts with the byte of `A` does not start with white
/// space.
pub proof fn lemma_starts_with_letter(s: Seq<u8>)
    requires
        valid_utf8(s),
        s.len() > 0,
        s[0] == 65,
    ensures
        !is_blank(s),
{
    let b = s[0];
    assert((b & 0x7f) == 65) by (bit_vector)
        requires
            b == 65,
    ;
    assert(decode_utf8(s)[0] == (65u32 as char));
}

/// ASCII bytes are UTF-8 text.
pub proof fn lemma_ascii_valid_utf8(s: Seq<u8>)
    requires
        is_ascii_seq(s),
    ensures
        valid_utf8(s),
    decreases s.len(),
{
    if s.len() > 0 {
        let b = s[0];
        assert(b < 128);
        assert((b & 0x7f) <= 0x7f) by (bit_vector);
        let rest = s.subrange(1, s.len() as int);
        assert forall|i: int| 0 <= i < rest.len() implies #[trigger] rest[i] < 128 by {
            assert(rest[i] == s[i + 1]);
        }
        lemma_ascii_valid_utf8(rest);
        assert(pop_first_scalar(s) =~= rest);
    }
}

/// A piece of UTF-8 text that ASCII bytes (or the ends of the text) border
/// is UTF-8 text.
pub proof fn lemma_valid_between(s: Seq<u8>, x: int, e: int)
    requires
        valid_utf8(s),
        1 <= x <= e <= s.len(),
        s[x - 1] < 128,
        e == s.len() || s[e] < 128,
    ensures
        valid_utf8(s.subrange(x, e)),
{
    is_char_boundary_iff_not_is_continuation_byte(s, x - 1);
    valid_utf8_split(s, x - 1);
    let t = s.subrange(x - 1, s.len() as int);
    assert(t[0] == s[x - 1]);
    assert(pop_first_scalar(t) =~= s.subrange(x, s.len() as int));
    let u = s.subrange(x, s.len() as int);
    if e < s.len() {
        assert(u[e - x] == s[e]);
        is_char_boundary_iff_not_is_continuation_byte(u, e - x);
        valid_utf8_split(u, e - x);
        assert(u.subrange(0, e - x) =~= s.subrange(x, e));
    } else {
        assert(u =~= s.subrange(x, e));
    }
}

/// The bytes of ASCII text are all below 128.
pub proof fn lemma_ascii_text(t: &str)
    requires
        is_ascii(t),
    ensures
        is_ascii_seq(bytes_of(t)),
{
    assert forall|i: int| 0 <= i < bytes_of(t).len() implies #[trigger] bytes_of(t)[i] < 128 by {
        assert(t@[i] <= '\u{7f}');
    }
}

pub proof fn lemma_decimal_len(n: nat, k: nat)
    requires
        n < pow10(k),
        k >= 1,
    ensures
        decimal(n).len() <= k,
    decreases k,
{
    if n >= 10 {
        let p = pow10((k - 1) as nat);
        assert(n < 10 * p);
        assert(k >= 2) by {
            if k == 1 {
                assert(pow10(0) == 1);
            }
        }
        assert(n / 10 < p) by (nonlinear_arith)
            requires
                n < 10 * p,
        ;
        lemma_decimal_len(n / 10, (k - 1) as nat);
    }
}

/// At most three digits below 256, at most five below 65536.
pub proof fn lemma_decimal_short(n: nat)
    ensures
        n < 256 ==> decimal(n).len() <= 3,
        n < 65536 ==> decimal(n).len() <= 5,
{
    assert(pow10(0) == 1);
    assert(pow10(1) == 10);
    assert(pow10(2) == 100);
    assert(pow10(3) == 1000);
    assert(pow10(4) == 10000);
    assert(pow10(5) == 100000);
    if n < 256 {
        lemma_decimal_len(n, 3);
    }
    if n < 65536 {
        lemma_decimal_len(n, 5);
    }
}

pub proof fn lemma_decimal_digits(n: nat)
    ensures
        decimal(n).len() >= 1,
        all_digits(decimal(n)),
    decreases n,
{
    if n >= 10 {
        lemma_decimal_digits(n / 10);
    }
}

pub proof fn lemma_decimal_prefix(s: Seq<u8>, i: int)
    requires
        0 <= i < s.len(),
    ensures
        decimal_value(s.take(i + 1)) == 10 * decimal_value(s.take(i)) + (s[i] - 48) as nat,
{
    assert(s.take(i + 1).drop_last() =~= s.take(i));
}

pub proof fn lemma_decimal_prefix_le(s: Seq<u8>, i: int)
    requires
        0 <= i <= s.len(),
        all_digits(s),
    ensures
        decimal_value(s.take(i)) <= decimal_value(s),
    decreases s.len(),
{
    if i < s.len() {
        let t = s.drop_last();
        assert(s.take(i) =~= t.take(i));
        lemma_decimal_prefix_le(t, i);
    } else {
        assert(s.take(i) =~= s);
    }
}

/// Appends the bytes of `s`.
pub(crate) fn push_text(buf: &mut Vec<u8>, s: &str)
    ensures
        final(buf)@ == old(buf)@ + bytes_of(s),
{
    let b = s.as_bytes();
    buf.extend_from_slice(b);
    assert(final(buf)@ =~= old(buf)@ + bytes_of(s));
}

/// The bytes of `s`, in a vector of their own.
pub(crate) fn text_vec(s: &str) -> (r: Vec<u8>)
    ensures
        r@ == bytes_of(s),
{
    let mut v: Vec<u8> = Vec::new();
    push_text(&mut v, s);
    assert(v@ =~= bytes_of(s));
    v
}

/// Appends the bytes of `s`.
pub(crate) fn push_bytes(buf: &mut Vec<u8>, s: &[u8])
    ensures
        final(buf)@ == old(buf)@ + s@,
{
    buf.extend_from_slice(s);
    assert(final(buf)@ =~= old(buf)@ + s@);
}

pub(crate) fn starts_with_bytes(s: &[u8], p: &[u8]) -> (r: bool)
    ensures
        r == starts_with(s@, p@),
{
    if p.len() > s.len() {
        return false;
    }
    let mut i: usize = 0;
    while i < p.len()
        invariant
            p@.len() <= s@.len(),
            i <= p@.len(),
            forall|j: int| 0 <= j < i ==> s@[j] == p@[j],
        decreases p@.len() - i,
    {
        if s[i] != p[i] {
            assert(s@.subrange(0, p@.len() as int)[i as int] != p@[i as int]);
            return false;
        }
        i = i + 1;
    }
    assert(s@.subrange(0, p@.len() as int) =~= p@);
    true
}

pub(crate) fn same_bytes(a: &[u8], b: &[u8]) -> (r: bool)
    ensures
        r == (a@ == b@),
{
    if a.len() != b.len() {
        return false;
    }
    let mut i: usize = 0;
    while i < a.len()
        invariant
            a@.len() == b@.len(),
            i <= a@.len(),
            forall|j: int| 0 <= j < i ==> a@[j] == b@[j],
        decreases a@.len() - i,
    {
        if a[i] != b[i] {
            return false;
        }
        i = i + 1;
    }
    assert(a@ =~= b@);
    true
}

pub(crate) fn ascii_bytes(s: &[u8]) -> (r: bool)
    ensures
        r == is_ascii_seq(s@),
{
    let mut i: usize = 0;
    while i < s.len()
        invariant
            i <= s@.len(),
            forall|j: int| 0 <= j < i ==> #[trigger] s@[j] < 128,
        decreases s@.len() - i,
    {
        if s[i] >= 128 {
            return false;
        }
        i = i + 1;
    }
    true
}

pub(crate) fn digit_bytes(s: &[u8]) -> (r: bool)
    ensures
        r == all_digits(s@),
{
    let mut i: usize = 0;
    while i < s.len()
        invariant
            i <= s@.len(),
            forall|j: int| 0 <= j < i ==> is_digit(#[trigger] s@[j]),
        decreases s@.len() - i,
    {
        if s[i] < 48 || s[i] > 57 {
            return false;
        }
        i = i + 1;
    }
    true
}

/// The first index at or after `from` that holds `x`.
pub(crate) fn find_byte(s: &[u8], x: u8, from: usize) -> (r: Option<usize>)
    ensures
        match r {
            Some(i) => find_from(s@, x, from as int) == Some(i as int),
            None => find_from(s@, x, from as int) is None,
        },
{
    let mut i: usize = from;
    while i < s.len()
        invariant
            from <= i,
            find_from(s@, x, from as int) == find_from(s@, x, i as int),
        decreases s@.len() - i,
    {
        if s[i] == x {
            return Some(i);
        }
        i = i + 1;
    }
    None
}

/// Where the pieces of `split(s, sep)` lie in `s`.
pub(crate) fn split_ranges(s: &[u8], sep: u8) -> (r: Vec<(usize, usize)>)
    ensures
        r@.len() == split(s@, sep).len(),
        forall|k: int|
            0 <= k < r@.len() ==> {
                &&& (#[trigger] r@[k]).0 <= r@[k].1 <= s@.len()
                &&& s@.subrange(r@[k].0 as int, r@[k].1 as int) == split(s@, sep)[k]
                &&& (r@[k].1 == s@.len() || s@[r@[k].1 as int] == sep)
            },
{
    let mut r: Vec<(usize, usize)> = Vec::new();
    let mut start: usize = 0;
    let mut i: usize = 0;
    assert(s@.subrange(0, 0) =~= Seq::<u8>::empty());
    while i < s.len()
        invariant
            start <= i <= s@.len(),
            split(s@.subrange(0, i as int), sep).len() == r@.len() + 1,
            split(s@.subrange(0, i as int), sep)[r@.len() as int] == s@.subrange(
                start as int,
                i as int,
            ),
            forall|k: int|
                0 <= k < r@.len() ==> {
                    &&& (#[trigger] r@[k]).0 <= r@[k].1 < start
                    &&& s@.subrange(r@[k].0 as int, r@[k].1 as int) == split(
                        s@.subrange(0, i as int),
                        sep,
                    )[k]
                    &&& s@[r@[k].1 as int] == sep
                },
        decreases s@.len() - i,
    {
        let ghost before = s@.subrange(0, i as int);
        let ghost after = s@.subrange(0, i + 1);
        assert(after.drop_last() =~= before);
        assert(after.last() == s@[i as int]);
        if s[i] == sep {
            r.push((start, i));
            start = i + 1;
            assert(s@.subrange(start as int, i + 1) =~= Seq::<u8>::empty());
        } else {
            assert(s@.subrange(start as int, i + 1) =~= s@.subrange(start as int, i as int).push(
                s@[i as int],
            ));
        }
        i = i + 1;
    }
    r.push((start, i));
    assert(s@.subrange(0, s@.len() as int) =~= s@);
    r
}

/// Where the lines of `s` lie in it.
pub(crate) fn line_ranges(s: &[u8]) -> (r: Vec<(usize, usize)>)
    ensures
        r@.len() == lines(s@).len(),
        forall|k: int|
            0 <= k < r@.len() ==> {
                &&& (#[trigger] r@[k]).0 <= r@[k].1 <= s@.len()
                &&& s@.subrange(r@[k].0 as int, r@[k].1 as int) == lines(s@)[k]
                &&& (r@[k].1 == s@.len() || s@[r@[k].1 as int] == 10 || s@[r@[k].1 as int] == 13)
            },
{
    let pieces = split_ranges(s, 10);
    let mut r: Vec<(usize, usize)> = Vec::new();
    let mut k: usize = 0;
    while k < pieces.len()
        invariant
            k <= pieces@.len(),
            pieces@.len() == split(s@, 10).len(),
            r@.len() == k,
            forall|j: int|
                0 <= j < pieces@.len() ==> {
                    &&& (#[trigger] pieces@[j]).0 <= pieces@[j].1 <= s@.len()
                    &&& s@.subrange(pieces@[j].0 as int, pieces@[j].1 as int) == split(s@, 10)[j]
                    &&& (pieces@[j].1 == s@.len() || s@[pieces@[j].1 as int] == 10)
                },
            forall|j: int|
                0 <= j < k ==> {
                    &&& (#[trigger] r@[j]).0 <= r@[j].1 <= s@.len()
                    &&& s@.subrange(r@[j].0 as int, r@[j].1 as int) == lines(s@)[j]
                    &&& (r@[j].1 == s@.len() || s@[r@[j].1 as int] == 10 || s@[r@[j].1 as int]
                        == 13)
                },
        decreases pieces@.len() - k,
    {
        let (a, e) = pieces[k];
        let ghost piece = s@.subrange(a as int, e as int);
        if e > a && s[e - 1] == 13 {
            assert(piece.last() == s@[e - 1]);
            assert(s@.subrange(a as int, e - 1) =~= piece.drop_last());
            r.push((a, e - 1));
        } else {
            r.push((a, e));
        }
        k = k + 1;
    }
    r
}

/// Relies on numtoa's `NumToA<u16>::numtoa` in base 10, which writes the
/// decimal digits of `n`, without leading zeros, at the end of the buffer
/// and returns them; five bytes hold every `u16`.
#[verifier::external_body]
fn u16_digits(n: u16) -> (r: Vec<u8>)
    ensures
        r@ == decimal(n as nat),
{
    let mut buf = [0u8; 5];
    n.numtoa(10, &mut buf).to_vec()
}

/// Appends the decimal digits of `n`.
pub(crate) fn push_decimal(buf: &mut Vec<u8>, n: u16)
    ensures
        final(buf)@ == old(buf)@ + decimal(n as nat),
{
    let d = u16_digits(n);
    push_bytes(buf, d.as_slice());
}

/// Relies on `str::trim`, which removes the leading and trailing characters
/// with the White_Space property: what is left is empty exactly when every
/// character is white space.
#[verifier::external_body]
pub(crate) fn trimmed(t: &str) -> (r: &str)
    ensures
        r@.len() == 0 <==> forall|i: int| 0 <= i < t@.len() ==> is_white_space(#[trigger] t@[i]),
{
    t.trim()
}

/// Relies on `core::str::from_utf8`: it succeeds exactly on valid UTF-8,
/// and the text it returns is made of the same bytes.
#[verifier::external_body]
pub(crate) fn as_text(b: &[u8]) -> (r: Option<&str>)
    ensures
        r is Some <==> valid_utf8(b@),
        r matches Some(t) ==> bytes_of(t) == b@,
{
    core::str::from_utf8(b).ok()
}

} // verus!
