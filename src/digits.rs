use vstd::prelude::*;
use vstd::slice::slice_subrange;

verus! {

/// Position of the first `c` in `b`, or the length of `b` when there is none.
pub open spec fn first_index(b: Seq<u8>, c: u8) -> nat
    decreases b.len(),
{
    if b.len() == 0 {
        0
    } else if b[0] == c {
        0
    } else {
        1 + first_index(b.drop_first(), c)
    }
}

pub open spec fn contains_byte(b: Seq<u8>, c: u8) -> bool {
    first_index(b, c) < b.len()
}

/// What lies before and after the first `c`, when `c` occurs.
pub open spec fn split_at_byte(b: Seq<u8>, c: u8) -> Option<(Seq<u8>, Seq<u8>)> {
    let i = first_index(b, c);
    if i < b.len() {
        Some((b.subrange(0, i as int), b.subrange(i + 1 as int, b.len() as int)))
    } else {
        None
    }
}

proof fn lemma_first_index(b: Seq<u8>, c: u8, i: int)
    requires
        0 <= i <= b.len(),
        i == b.len() || b[i] == c,
        forall|j: int| 0 <= j < i ==> b[j] != c,
    ensures
        first_index(b, c) == i,
    decreases b.len(),
{
    if b.len() > 0 && i > 0 {
        lemma_first_index(b.drop_first(), c, i - 1);
    }
}

/// Index of the first `c` in `b`, or `b.len()` when there is none.
pub fn find_byte(b: &[u8], c: u8) -> (r: usize)
    ensures
        r == first_index(b@, c),
{
    let mut i: usize = 0;
    while i < b.len()
        invariant
            i <= b@.len(),
            forall|j: int| 0 <= j < i ==> b@[j] != c,
        decreases b@.len() - i,
    {
        if b[i] == c {
            proof {
                lemma_first_index(b@, c, i as int);
            }
            return i;
        }
        i += 1;
    }
    proof {
        lemma_first_index(b@, c, i as int);
    }
    i
}

/// Splits `b` around the first `c`; `None` when `c` does not occur.
pub fn split_once(b: &[u8], c: u8) -> (r: Option<(&[u8], &[u8])>)
    ensures
        match r {
            Some(p) => split_at_byte(b@, c) == Some((p.0@, p.1@)),
            None => split_at_byte(b@, c) is None,
        },
{
    let i = find_byte(b, c);
    if i < b.len() {
        let before = slice_subrange(b, 0, i);
        let after = slice_subrange(b, i + 1, b.len());
        Some((before, after))
    } else {
        None
    }
}

pub open spec fn is_digit(c: u8) -> bool {
    48 <= c <= 57
}

pub open spec fn all_digits(b: Seq<u8>) -> bool {
    forall|j: int| 0 <= j < b.len() ==> is_digit(#[trigger] b[j])
}

/// The number that a run of decimal digits writes, most significant first.
pub open spec fn digits_value(b: Seq<u8>) -> nat
    decreases b.len(),
{
    if b.len() == 0 {
        0
    } else {
        digits_value(b.drop_last()) * 10 + (b.last() - 48) as nat
    }
}

/// The value of a non-empty run of decimal digits that fits in a `u64`.
pub open spec fn decimal_u64(b: Seq<u8>) -> Option<u64> {
    if b.len() > 0 && all_digits(b) && digits_value(b) <= u64::MAX {
        Some(digits_value(b) as u64)
    } else {
        None
    }
}

/// Whether every byte of `b` is a decimal digit.
pub fn is_all_digits(b: &[u8]) -> (r: bool)
    ensures
        r == all_digits(b@),
{
    let mut i: usize = 0;
    while i < b.len()
        invariant
            i <= b@.len(),
            forall|j: int| 0 <= j < i ==> is_digit(#[trigger] b@[j]),
        decreases b@.len() - i,
    {
        if b[i] < 48 || b[i] > 57 {
            assert(!is_digit(b@[i as int]));
            return false;
        }
        i += 1;
    }
    true
}

proof fn lemma_digits_value_prefix(b: Seq<u8>, k: int)
    requires
        0 <= k <= b.len(),
        all_digits(b),
    ensures
        digits_value(b.subrange(0, k)) <= digits_value(b),
    decreases b.len(),
{
    if k < b.len() {
        let p = b.drop_last();
        assert(p.subrange(0, k) =~= b.subrange(0, k));
        lemma_digits_value_prefix(p, k);
    } else {
        assert(b.subrange(0, k) =~= b);
    }
}

/// Parses a non-empty run of decimal digits into a `u64`; `None` when a byte
/// is not a digit, the run is empty, or the value does not fit.
pub fn parse_decimal(b: &[u8]) -> (r: Option<u64>)
    ensures
        r == decimal_u64(b@),
{
    if b.len() == 0 {
        return None;
    }
    let mut acc: u64 = 0;
    let mut i: usize = 0;
    while i < b.len()
        invariant
            i <= b@.len(),
            all_digits(b@.subrange(0, i as int)),
            acc == digits_value(b@.subrange(0, i as int)),
        decreases b@.len() - i,
    {
        let c = b[i];
        assert(b@.subrange(0, i + 1).drop_last() =~= b@.subrange(0, i as int));
        if c < 48 || c > 57 {
            assert(!is_digit(b@[i as int]));
            return None;
        }
        let d = (c - 48) as u64;
        if acc > (u64::MAX - d) / 10 {
            proof {
                if all_digits(b@) {
                    lemma_digits_value_prefix(b@, i + 1);
                }
            }
            return None;
        }
        acc = acc * 10 + d;
        i += 1;
    }
    assert(b@.subrange(0, i as int) =~= b@);
    Some(acc)
}

/// A fraction of a second right-padded with zeros to nine digits.
pub open spec fn pad_to_nine(b: Seq<u8>) -> Seq<u8> {
    b + Seq::new((9 - b.len()) as nat, |_j: int| 48u8)
}

/// Nanoseconds written by at most nine fractional digits (none means zero).
pub open spec fn fraction_value(b: Seq<u8>) -> nat {
    digits_value(pad_to_nine(b))
}

/// Reads at most nine fractional digits as nanoseconds.
pub fn parse_fraction(b: &[u8]) -> (r: u64)
    requires
        b@.len() <= 9,
        all_digits(b@),
    ensures
        r == fraction_value(b@),
        r <= 999_999_999,
{
    let ghost p = pad_to_nine(b@);
    let mut acc: u64 = 0;
    let mut i: usize = 0;
    let mut bound: u64 = 1;
    while i < 9
        invariant
            i <= 9,
            b@.len() <= 9,
            p == pad_to_nine(b@),
            p.len() == 9,
            all_digits(b@),
            acc == digits_value(p.subrange(0, i as int)),
            acc < bound,
            bound <= 1_000_000_000,
            i == 0 ==> bound == 1,
            i == 1 ==> bound == 10,
            i == 2 ==> bound == 100,
            i == 3 ==> bound == 1000,
            i == 4 ==> bound == 10000,
            i == 5 ==> bound == 100000,
            i == 6 ==> bound == 1000000,
            i == 7 ==> bound == 10000000,
            i == 8 ==> bound == 100000000,
            i == 9 ==> bound == 1000000000,
        decreases 9 - i,
    {
        assert(p.subrange(0, i + 1).drop_last() =~= p.subrange(0, i as int));
        let d: u64 = if i < b.len() {
            (b[i] - 48) as u64
        } else {
            0
        };
        assert(d == p[i as int] - 48);
        acc = acc * 10 + d;
        bound = bound * 10;
        i += 1;
    }
    assert(p.subrange(0, 9) =~= p);
    acc
}

} // verus!
