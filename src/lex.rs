//! Byte-level scanning primitives shared by the frame grammar.
use vstd::prelude::*;
use vstd::string::StringSliceAdditionalSpecFns;

verus! {

/// `lit` occurs in `s` starting at `pos`.
pub open spec fn lit_at(s: Seq<u8>, pos: int, lit: Seq<u8>) -> bool {
    0 <= pos && pos + lit.len() <= s.len() && s.subrange(pos, pos + lit.len()) == lit
}

pub open spec fn is_digit(b: u8) -> bool {
    48 <= b <= 57
}

/// Space or horizontal tab.
pub open spec fn is_blank(b: u8) -> bool {
    b == 32 || b == 9
}

/// ASCII whitespace: space, tab, line feed, vertical tab, form feed, carriage return.
pub open spec fn is_ws(b: u8) -> bool {
    b == 32 || (9 <= b <= 13)
}

/// Index of the first `b` at or after `p`, or the length of `s` when there is none.
pub open spec fn byte_end(s: Seq<u8>, p: int, b: u8) -> int
    decreases s.len() - p,
{
    if p < 0 || p >= s.len() {
        s.len() as int
    } else if s[p] == b {
        p
    } else {
        byte_end(s, p + 1, b)
    }
}

/// End of the run of blanks that starts at `p`.
pub open spec fn blanks_end(s: Seq<u8>, p: int) -> int
    decreases s.len() - p,
{
    if p < 0 || p >= s.len() {
        s.len() as int
    } else if is_blank(s[p]) {
        blanks_end(s, p + 1)
    } else {
        p
    }
}

/// End of the run of decimal digits that starts at `p`.
pub open spec fn digits_end(s: Seq<u8>, p: int) -> int
    decreases s.len() - p,
{
    if p < 0 || p >= s.len() {
        s.len() as int
    } else if is_digit(s[p]) {
        digits_end(s, p + 1)
    } else {
        p
    }
}

/// The value of a string of decimal digits.
pub open spec fn decimal(d: Seq<u8>) -> nat
    decreases d.len(),
{
    if d.len() == 0 {
        0
    } else {
        decimal(d.drop_last()) * 10 + (d.last() - 48) as nat
    }
}

/// `s` without its trailing whitespace.
pub open spec fn trim_end(s: Seq<u8>) -> Seq<u8>
    decreases s.len(),
{
    if s.len() > 0 && is_ws(s.last()) {
        trim_end(s.drop_last())
    } else {
        s
    }
}

pub proof fn lemma_byte_end_bounds(s: Seq<u8>, p: int, b: u8)
    requires
        0 <= p <= s.len(),
    ensures
        p <= byte_end(s, p, b) <= s.len(),
        byte_end(s, p, b) < s.len() ==> s[byte_end(s, p, b)] == b,
    decreases s.len() - p,
{
    if p < s.len() && s[p] != b {
        lemma_byte_end_bounds(s, p + 1, b);
    }
}

/// A run of blanks stops at the first byte that is not one.
pub proof fn lemma_blanks_end_before(s: Seq<u8>, q: int, e: int)
    requires
        0 <= q <= e < s.len(),
        !is_blank(s[e]),
    ensures
        q <= blanks_end(s, q) <= e,
    decreases e - q,
{
    if q < e && is_blank(s[q]) {
        lemma_blanks_end_before(s, q + 1, e);
    }
}

pub proof fn lemma_digits_end_bounds(s: Seq<u8>, p: int)
    requires
        0 <= p <= s.len(),
    ensures
        p <= digits_end(s, p) <= s.len(),
        forall|i: int| p <= i < digits_end(s, p) ==> is_digit(#[trigger] s[i]),
    decreases s.len() - p,
{
    if p < s.len() && is_digit(s[p]) {
        lemma_digits_end_bounds(s, p + 1);
    }
}

/// A longer string of digits never has a smaller value.
pub proof fn lemma_decimal_monotone(d: Seq<u8>, k: int)
    requires
        0 <= k <= d.len(),
        forall|i: int| 0 <= i < d.len() ==> is_digit(#[trigger] d[i]),
    ensures
        decimal(d.subrange(0, k)) <= decimal(d),
    decreases d.len() - k,
{
    if k < d.len() {
        let e = d.subrange(0, k + 1);
        assert(e.drop_last() =~= d.subrange(0, k));
        assert(decimal(d.subrange(0, k)) <= decimal(e));
        lemma_decimal_monotone(d, k + 1);
    } else {
        assert(d.subrange(0, k) =~= d);
    }
}

/// Whether `lit` occurs in `s` at `pos`.
pub fn starts_with_at(s: &[u8], pos: usize, lit: &[u8]) -> (r: bool)
    ensures
        r == lit_at(s@, pos as int, lit@),
        s@.len() <= usize::MAX,
{
    if pos > s.len() || lit.len() > s.len() - pos {
        return false;
    }
    let mut i: usize = 0;
    while i < lit.len()
        invariant
            i <= lit@.len(),
            pos + lit@.len() <= s@.len(),
            s@.len() <= usize::MAX,
            forall|j: int| 0 <= j < i ==> s@[pos + j] == lit@[j],
        decreases lit@.len() - i,
    {
        if s[pos + i] != lit[i] {
            assert(s@.subrange(pos as int, pos + lit@.len())[i as int] != lit@[i as int]);
            return false;
        }
        i += 1;
    }
    assert(s@.subrange(pos as int, pos + lit@.len()) =~= lit@);
    true
}

/// Index of the first `b` at or after `pos`, or the length of `s`.
pub fn find_byte(s: &[u8], pos: usize, b: u8) -> (r: usize)
    requires
        pos <= s@.len(),
    ensures
        r == byte_end(s@, pos as int, b),
        pos <= r <= s@.len(),
        r < s@.len() ==> s@[r as int] == b,
{
    proof {
        lemma_byte_end_bounds(s@, pos as int, b);
    }
    let mut i = pos;
    while i < s.len() && s[i] != b
        invariant
            pos <= i <= s@.len(),
            byte_end(s@, pos as int, b) == byte_end(s@, i as int, b),
        decreases s@.len() - i,
    {
        i += 1;
    }
    i
}

/// End of the run of blanks that starts at `pos`.
pub fn skip_blanks(s: &[u8], pos: usize) -> (r: usize)
    requires
        pos <= s@.len(),
    ensures
        r == blanks_end(s@, pos as int),
        pos <= r <= s@.len(),
{
    let mut i = pos;
    while i < s.len() && (s[i] == 32 || s[i] == 9)
        invariant
            pos <= i <= s@.len(),
            blanks_end(s@, pos as int) == blanks_end(s@, i as int),
        decreases s@.len() - i,
    {
        i += 1;
    }
    i
}

/// End of the run of digits that starts at `pos`.
pub fn skip_digits(s: &[u8], pos: usize) -> (r: usize)
    requires
        pos <= s@.len(),
    ensures
        r == digits_end(s@, pos as int),
        pos <= r <= s@.len(),
{
    let mut i = pos;
    while i < s.len() && 48 <= s[i] && s[i] <= 57
        invariant
            pos <= i <= s@.len(),
            digits_end(s@, pos as int) == digits_end(s@, i as int),
        decreases s@.len() - i,
    {
        i += 1;
    }
    i
}

/// The value of the digits `s[from..to]`, when it fits in a `u32`.
pub fn decimal_value(s: &[u8], from: usize, to: usize) -> (r: Option<u32>)
    requires
        from <= to <= s@.len(),
        forall|i: int| from <= i < to ==> is_digit(#[trigger] s@[i]),
    ensures
        match r {
            Some(v) => v as nat == decimal(s@.subrange(from as int, to as int)),
            None => decimal(s@.subrange(from as int, to as int)) > u32::MAX,
        },
{
    let ghost d = s@.subrange(from as int, to as int);
    let mut v: u32 = 0;
    let mut i = from;
    assert(d.subrange(0, 0).len() == 0);
    while i < to
        invariant
            from <= i <= to <= s@.len(),
            d == s@.subrange(from as int, to as int),
            forall|j: int| from <= j < to ==> is_digit(#[trigger] s@[j]),
            v as nat == decimal(d.subrange(0, i - from)),
        decreases to - i,
    {
        let digit: u32 = (s[i] - 48) as u32;
        let ghost e = d.subrange(0, i - from + 1);
        proof {
            assert(e.drop_last() =~= d.subrange(0, i - from));
            assert(e.last() == s@[i as int]);
        }
        if v > (u32::MAX - digit) / 10 {
            proof {
                assert(forall|j: int| 0 <= j < d.len() ==> is_digit(#[trigger] d[j])) by {
                    assert forall|j: int| 0 <= j < d.len() implies is_digit(#[trigger] d[j]) by {
                        assert(d[j] == s@[from + j]);
                    }
                }
                assert(decimal(e) > u32::MAX) by (nonlinear_arith)
                    requires
                        decimal(e) == (v as nat) * 10 + digit as nat,
                        v > (u32::MAX - digit) / 10,
                        digit <= 9,
                ;
                lemma_decimal_monotone(d, i - from + 1);
            }
            return None;
        }
        v = v * 10 + digit;
        i += 1;
    }
    assert(d.subrange(0, to - from) =~= d);
    Some(v)
}

/// End of `s[from..to]` once trailing whitespace is removed.
pub fn trimmed_end(s: &[u8], from: usize, to: usize) -> (r: usize)
    requires
        from <= to <= s@.len(),
    ensures
        from <= r <= to,
        s@.subrange(from as int, r as int) == trim_end(s@.subrange(from as int, to as int)),
{
    let mut e = to;
    while e > from && (s[e - 1] == 32 || (9 <= s[e - 1] && s[e - 1] <= 13))
        invariant
            from <= e <= to <= s@.len(),
            trim_end(s@.subrange(from as int, e as int)) == trim_end(s@.subrange(from as int, to as int)),
        decreases e,
    {
        assert(s@.subrange(from as int, e as int).drop_last() =~= s@.subrange(from as int, e - 1));
        e -= 1;
    }
    e
}

/// A copy of `s[from..to]`.
pub fn copy_range(s: &[u8], from: usize, to: usize) -> (r: Vec<u8>)
    requires
        from <= to <= s@.len(),
    ensures
        r@ == s@.subrange(from as int, to as int),
{
    let mut r: Vec<u8> = Vec::with_capacity(to - from);
    let mut i = from;
    while i < to
        invariant
            from <= i <= to <= s@.len(),
            r@ == s@.subrange(from as int, i as int),
        decreases to - i,
    {
        r.push(s[i]);
        i += 1;
        assert(r@ =~= s@.subrange(from as int, i as int));
    }
    r
}

/// The bytes of `s`, owned.
pub fn bytes_of(s: &str) -> (r: Vec<u8>)
    ensures
        r@ == s.spec_bytes(),
{
    let b = s.as_bytes();
    let r = copy_range(b, 0, b.len());
    assert(b@.subrange(0, b@.len() as int) =~= b@);
    r
}

/// Appends `src` to `dst`.
pub fn append(dst: &mut Vec<u8>, src: &[u8])
    ensures
        final(dst)@ == old(dst)@ + src@,
{
    let mut i: usize = 0;
    while i < src.len()
        invariant
            i <= src@.len(),
            dst@ == old(dst)@ + src@.subrange(0, i as int),
        decreases src@.len() - i,
    {
        dst.push(src[i]);
        i += 1;
        assert(dst@ =~= old(dst)@ + src@.subrange(0, i as int));
    }
    assert(src@.subrange(0, i as int) =~= src@);
}

/// The decimal digits of `n`, without leading zeros.
pub open spec fn decimal_text(n: nat) -> Seq<u8>
    decreases n,
{
    if n < 10 {
        seq![(48 + n) as u8]
    } else {
        decimal_text(n / 10).push((48 + n % 10) as u8)
    }
}

/// Appends the decimal digits of `n` to `dst`.
pub fn push_decimal(dst: &mut Vec<u8>, n: u64)
    ensures
        final(dst)@ == old(dst)@ + decimal_text(n as nat),
    decreases n,
{
    if n >= 10 {
        push_decimal(dst, n / 10);
    }
    dst.push((48 + n % 10) as u8);
    assert(dst@ =~= old(dst)@ + decimal_text(n as nat));
}

/// Whether two byte strings are equal.
pub fn bytes_eq(a: &[u8], b: &[u8]) -> (r: bool)
    ensures
        r == (a@ == b@),
{
    if a.len() != b.len() {
        return false;
    }
    let r = starts_with_at(a, 0, b);
    assert(a@.subrange(0, b@.len() as int) =~= a@);
    r
}

} // verus!

verus! {

/// The digits of `n` are a non-empty run of digits whose value is `n`.
pub proof fn lemma_decimal_text(n: nat)
    ensures
        decimal_text(n).len() > 0,
        forall|i: int| 0 <= i < decimal_text(n).len() ==> is_digit(#[trigger] decimal_text(n)[i]),
        decimal(decimal_text(n)) == n,
    decreases n,
{
    let d = decimal_text(n);
    if n < 10 {
        assert(d.drop_last() =~= Seq::<u8>::empty());
        assert(d.last() == (48 + n) as u8);
        assert(((48 + n) as u8) as nat == 48 + n);
        assert(decimal(d) == decimal(d.drop_last()) * 10 + (d.last() - 48) as nat);
    } else {
        lemma_decimal_text(n / 10);
        assert(d.drop_last() =~= decimal_text(n / 10));
        assert(d.last() == (48 + n % 10) as u8);
        assert(((48 + n % 10) as u8) as nat == 48 + n % 10);
        assert(decimal(d) == decimal(d.drop_last()) * 10 + (d.last() - 48) as nat);
        assert(n == (n / 10) * 10 + n % 10) by (nonlinear_arith);
        assert forall|i: int| 0 <= i < d.len() implies is_digit(#[trigger] d[i]) by {
            if i < d.len() - 1 {
                assert(d[i] == decimal_text(n / 10)[i]);
            }
        }
    }
}

/// A run of exactly `k` digits from `p`, followed by a non-digit or the end.
pub proof fn lemma_digits_end_at(s: Seq<u8>, p: int, k: int)
    requires
        0 <= p,
        0 <= k,
        p + k <= s.len(),
        forall|i: int| p <= i < p + k ==> is_digit(#[trigger] s[i]),
        p + k == s.len() || !is_digit(s[p + k]),
    ensures
        digits_end(s, p) == p + k,
    decreases k,
{
    if k > 0 {
        lemma_digits_end_at(s, p + 1, k - 1);
    }
}

} // verus!
