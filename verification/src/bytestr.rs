//! Byte-string helpers for the URL surface: equality, prefix tests, searching,
//! copying, and the decimal numerals used for ids, with their specifications.

use vstd::prelude::*;

verus! {

/// True when `b` is an ASCII decimal digit.
pub open spec fn is_dec_digit(b: u8) -> bool {
    48 <= b <= 57
}

/// True when every byte of `s` is an ASCII decimal digit.
pub open spec fn all_dec_digits(s: Seq<u8>) -> bool {
    forall|i: int| 0 <= i < s.len() ==> is_dec_digit(#[trigger] s[i])
}

/// The integer a sequence of ASCII digits denotes, most significant first.
pub open spec fn dec_val(s: Seq<u8>) -> int
    decreases s.len(),
{
    if s.len() == 0 {
        0
    } else {
        dec_val(s.drop_last()) * 10 + (s.last() as int - 48)
    }
}

/// The digits after an optional leading `+` sign, as `str::parse` for an
/// unsigned integer understands them.
pub open spec fn digits_part(s: Seq<u8>) -> Seq<u8> {
    if s.len() > 0 && s[0] == '+' as u8 {
        s.drop_first()
    } else {
        s
    }
}

/// True when `s` is a numeral that `str::parse::<u32>` would accept:
/// an optional `+`, then one or more digits, denoting a value within `u32`.
pub open spec fn is_u32_numeral(s: Seq<u8>) -> bool {
    let d = digits_part(s);
    d.len() > 0 && all_dec_digits(d) && dec_val(d) <= u32::MAX
}

/// The shortest decimal numeral for `n`, most significant digit first.
pub open spec fn dec_rep(n: nat) -> Seq<u8>
    decreases n,
{
    if n < 10 {
        seq![(48 + n) as u8]
    } else {
        dec_rep(n / 10).push((48 + n % 10) as u8)
    }
}

/// True when no byte of `s` equals `b`.
pub open spec fn no_byte(s: Seq<u8>, b: u8) -> bool {
    forall|i: int| 0 <= i < s.len() ==> #[trigger] s[i] != b
}

/// True when some byte of `s` equals `b`.
pub open spec fn has_byte(s: Seq<u8>, b: u8) -> bool {
    exists|i: int| 0 <= i < s.len() && s[i] == b
}

/// The first index of `b` in `s` (meaningful under `has_byte`).
pub open spec fn first_at(s: Seq<u8>, b: u8) -> int {
    choose|i: int| 0 <= i < s.len() && s[i] == b && no_byte(s.take(i), b)
}

/// An index holding `b` with no earlier one is the first index of `b`.
pub proof fn lemma_first_at(s: Seq<u8>, b: u8, i: int)
    requires
        0 <= i < s.len(),
        s[i] == b,
        no_byte(s.take(i), b),
    ensures
        has_byte(s, b),
        first_at(s, b) == i,
{
    assert(has_byte(s, b));
    let j = first_at(s, b);
    assert(0 <= j < s.len() && s[j] == b && no_byte(s.take(j), b));
    if j < i {
        assert(s.take(i)[j] == s[j]);
        assert(false);
    } else if i < j {
        assert(s.take(j)[i] == s[i]);
        assert(false);
    }
}

/// True when `pre` is a prefix of `s`.
pub open spec fn spec_starts_with(s: Seq<u8>, pre: Seq<u8>) -> bool {
    pre.len() <= s.len() && s.take(pre.len() as int) == pre
}

pub proof fn lemma_dec_val_take_step(d: Seq<u8>, j: int)
    requires
        0 < j <= d.len(),
    ensures
        dec_val(d.take(j)) == dec_val(d.take(j - 1)) * 10 + (d[j - 1] as int - 48),
{
    assert(d.take(j).drop_last() =~= d.take(j - 1));
    assert(d.take(j).last() == d[j - 1]);
}

pub proof fn lemma_dec_val_nonneg(d: Seq<u8>)
    requires
        all_dec_digits(d),
    ensures
        dec_val(d) >= 0,
    decreases d.len(),
{
    if d.len() > 0 {
        assert(all_dec_digits(d.drop_last())) by {
            assert(forall|i: int|
                0 <= i < d.len() - 1 ==> #[trigger] d.drop_last()[i] == d[i]);
        }
        lemma_dec_val_nonneg(d.drop_last());
    }
}

pub proof fn lemma_dec_val_monotone(d: Seq<u8>, i: int, j: int)
    requires
        all_dec_digits(d),
        0 <= i <= j <= d.len(),
    ensures
        dec_val(d.take(i)) <= dec_val(d.take(j)),
    decreases j - i,
{
    if i < j {
        lemma_dec_val_monotone(d, i, j - 1);
        lemma_dec_val_take_step(d, j);
        assert(all_dec_digits(d.take(j - 1))) by {
            assert(forall|k: int|
                0 <= k < j - 1 ==> #[trigger] d.take(j - 1)[k] == d[k]);
        }
        lemma_dec_val_nonneg(d.take(j - 1));
    }
}

/// Byte-for-byte equality of two slices.
pub fn bytes_eq(a: &[u8], b: &[u8]) -> (r: bool)
    ensures
        r == (a@ == b@),
{
    if a.len() != b.len() {
        assert(a@ != b@) by {
            assert(a@.len() != b@.len());
        }
        return false;
    }
    let n = a.len();
    let mut i: usize = 0;
    while i < n
        invariant
            i <= n,
            n == a@.len() == b@.len(),
            forall|k: int| 0 <= k < i ==> a@[k] == b@[k],
        decreases n - i,
    {
        if a[i] != b[i] {
            return false;
        }
        i += 1;
    }
    assert(a@ =~= b@);
    true
}

/// Does `s` begin with `pre`?
pub fn starts_with(s: &[u8], pre: &[u8]) -> (r: bool)
    ensures
        r == spec_starts_with(s@, pre@),
{
    if pre.len() > s.len() {
        return false;
    }
    let n = pre.len();
    let mut i: usize = 0;
    while i < n
        invariant
            i <= n,
            n == pre@.len() <= s@.len(),
            forall|k: int| 0 <= k < i ==> s@[k] == pre@[k],
        decreases n - i,
    {
        if s[i] != pre[i] {
            assert(s@.take(n as int)[i as int] != pre@[i as int]);
            return false;
        }
        i += 1;
    }
    assert(s@.take(n as int) =~= pre@);
    true
}

/// The first index of `b` in `s`, if any.
pub fn find_byte(s: &[u8], b: u8) -> (r: Option<usize>)
    ensures
        match r {
            Some(i) => i < s@.len() && s@[i as int] == b && no_byte(s@.take(i as int), b),
            None => no_byte(s@, b),
        },
{
    let n = s.len();
    let mut i: usize = 0;
    while i < n
        invariant
            i <= n,
            n == s@.len(),
            forall|k: int| 0 <= k < i ==> #[trigger] s@[k] != b,
        decreases n - i,
    {
        if s[i] == b {
            assert(forall|k: int| 0 <= k < i ==> #[trigger] s@.take(i as int)[k] != b);
            return Some(i);
        }
        i += 1;
    }
    None
}

/// A fresh vector holding `s[from..to]`.
pub fn copy_range(s: &[u8], from: usize, to: usize) -> (r: Vec<u8>)
    requires
        from <= to <= s@.len(),
    ensures
        r@ == s@.subrange(from as int, to as int),
{
    let mut r: Vec<u8> = Vec::new();
    let mut i: usize = from;
    while i < to
        invariant
            from <= i <= to <= s@.len(),
            r@ == s@.subrange(from as int, i as int),
        decreases to - i,
    {
        r.push(s[i]);
        assert(r@ =~= s@.subrange(from as int, i + 1 as int));
        i += 1;
    }
    r
}

/// Parse an ASCII numeral exactly as `str::parse::<u32>` does: an optional
/// leading `+`, then one or more decimal digits, rejecting values above
/// `u32::MAX` and any other shape.
pub fn parse_u32(s: &[u8]) -> (r: Option<u32>)
    ensures
        r.is_some() == is_u32_numeral(s@),
        r matches Some(v) ==> v as int == dec_val(digits_part(s@)),
{
    let ghost d = digits_part(s@);
    let mut start: usize = 0;
    if s.len() > 0 && s[0] == '+' as u8 {
        start = 1;
    }
    assert(d =~= s@.subrange(start as int, s@.len() as int));
    if start == s.len() {
        return None;
    }
    let n = s.len();
    let mut i: usize = start;
    let mut acc: u64 = 0;
    while i < n
        invariant
            start <= i <= n,
            n == s@.len(),
            start < n,
            d == digits_part(s@),
            d == s@.subrange(start as int, n as int),
            all_dec_digits(d.take(i - start)),
            acc <= u32::MAX,
            acc as int == dec_val(d.take(i - start)),
        decreases n - i,
    {
        let b = s[i];
        assert(d[i - start] == b);
        if !(48 <= b && b <= 57) {
            assert(!all_dec_digits(d));
            return None;
        }
        let acc2: u64 = acc * 10 + (b - 48) as u64;
        assert(all_dec_digits(d.take(i + 1 - start))) by {
            assert(forall|k: int|
                0 <= k < i + 1 - start ==> #[trigger] d.take(i + 1 - start)[k] == d[k]);
        }
        proof {
            lemma_dec_val_take_step(d, i + 1 - start);
        }
        if acc2 > u32::MAX as u64 {
            assert(!is_u32_numeral(s@)) by {
                if all_dec_digits(d) && dec_val(d) <= u32::MAX {
                    lemma_dec_val_monotone(d, i + 1 - start, d.len() as int);
                    assert(d.take(d.len() as int) =~= d);
                }
            }
            return None;
        }
        acc = acc2;
        i += 1;
    }
    assert(d.take(d.len() as int) =~= d);
    Some(acc as u32)
}

/// Render `n` as its shortest decimal numeral.
pub fn u32_to_dec(n: u32) -> (r: Vec<u8>)
    ensures
        r@ == dec_rep(n as nat),
    decreases n,
{
    if n < 10 {
        let mut r: Vec<u8> = Vec::new();
        r.push(48 + n as u8);
        assert(r@ =~= dec_rep(n as nat));
        r
    } else {
        let mut r = u32_to_dec(n / 10);
        r.push(48 + (n % 10) as u8);
        assert(r@ =~= dec_rep(n as nat));
        r
    }
}

pub proof fn lemma_dec_rep_digits(n: nat)
    ensures
        all_dec_digits(dec_rep(n)),
        dec_rep(n).len() > 0,
        is_dec_digit(dec_rep(n)[0]),
    decreases n,
{
    if n >= 10 {
        lemma_dec_rep_digits(n / 10);
        assert(forall|i: int|
            0 <= i < dec_rep(n / 10).len()
                ==> #[trigger] dec_rep(n)[i] == dec_rep(n / 10)[i]);
    }
}

/// A decimal rendering parses back to the value it was made from.
pub proof fn lemma_dec_rep_val(n: nat)
    ensures
        dec_val(dec_rep(n)) == n,
    decreases n,
{
    if n < 10 {
        assert(dec_rep(n).drop_last() =~= Seq::<u8>::empty());
        assert(dec_val(Seq::<u8>::empty()) == 0);
        assert(dec_rep(n).last() == (48 + n) as u8);
        assert(dec_val(dec_rep(n)) == n);
    } else {
        lemma_dec_rep_val(n / 10);
        assert(dec_rep(n).drop_last() =~= dec_rep(n / 10));
        assert(dec_rep(n).last() == (48 + n % 10) as u8);
        assert(dec_val(dec_rep(n)) == dec_val(dec_rep(n / 10)) * 10 + (n % 10));
        assert(n / 10 * 10 + n % 10 == n) by {
            vstd::arithmetic::div_mod::lemma_fundamental_div_mod(n as int, 10);
        }
    }
}

/// A decimal rendering of a `u32` is itself a `u32` numeral.
pub proof fn lemma_dec_rep_numeral(n: u32)
    ensures
        is_u32_numeral(dec_rep(n as nat)),
        dec_val(digits_part(dec_rep(n as nat))) == n,
{
    lemma_dec_rep_digits(n as nat);
    lemma_dec_rep_val(n as nat);
    assert(dec_rep(n as nat)[0] != '+' as u8);
    assert(digits_part(dec_rep(n as nat)) == dec_rep(n as nat));
}

} // verus!
