//! Unsigned decimal numerals: reading one token and writing one value.
use vstd::prelude::*;

verus! {

/// The byte of the ASCII digit `0`.
pub const ZERO: u8 = 48;

/// The byte of the ASCII sign `+`.
pub const PLUS: u8 = 43;

pub open spec fn is_digit(b: u8) -> bool {
    ZERO <= b && b <= ZERO + 9
}

pub open spec fn all_digits(s: Seq<u8>) -> bool {
    forall|i: int| 0 <= i < s.len() ==> #[trigger] is_digit(s[i])
}

/// The value of a string of digits, most significant first.
pub open spec fn digits_value(s: Seq<u8>) -> nat
    decreases s.len(),
{
    if s.len() == 0 {
        0
    } else {
        digits_value(s.drop_last()) * 10 + (s.last() - ZERO) as nat
    }
}

/// The digits of a numeral: what follows an optional leading `+`.
pub open spec fn numeral_digits(s: Seq<u8>) -> Seq<u8> {
    if s.len() > 0 && s[0] == PLUS {
        s.drop_first()
    } else {
        s
    }
}

/// A numeral is an optional `+` followed by at least one digit.
pub open spec fn is_numeral(s: Seq<u8>) -> bool {
    numeral_digits(s).len() > 0 && all_digits(numeral_digits(s))
}

/// The value that a token stands for, if it is a numeral whose value fits in `u64`.
pub open spec fn numeral_value(s: Seq<u8>) -> Option<u64> {
    if is_numeral(s) && digits_value(numeral_digits(s)) <= u64::MAX {
        Some(digits_value(numeral_digits(s)) as u64)
    } else {
        None
    }
}

/// The shortest decimal digits of `n`, most significant first.
pub open spec fn decimal(n: nat) -> Seq<u8>
    decreases n,
{
    if n < 10 {
        seq![(ZERO + n) as u8]
    } else {
        decimal(n / 10).push((ZERO + n % 10) as u8)
    }
}

/// A longer string of digits never has a smaller value than its prefix.
proof fn lemma_prefix_value_le(s: Seq<u8>, k: int)
    requires
        all_digits(s),
        0 <= k <= s.len(),
    ensures
        digits_value(s.subrange(0, k)) <= digits_value(s),
    decreases s.len(),
{
    if k < s.len() {
        let t = s.drop_last();
        assert(t.subrange(0, k) =~= s.subrange(0, k));
        lemma_prefix_value_le(t, k);
    } else {
        assert(s.subrange(0, k) =~= s);
    }
}

/// Reads a token as an unsigned 64-bit number: an optional `+` and then
/// decimal digits. Returns `None` for anything else, and for a value that
/// does not fit.
pub fn parse_u64(token: &[u8]) -> (r: Option<u64>)
    ensures
        r == numeral_value(token@),
{
    let n = token.len();
    let mut start: usize = 0;
    if n > 0 && token[0] == PLUS {
        start = 1;
    }
    let ghost ds = numeral_digits(token@);
    assert(ds =~= token@.subrange(start as int, n as int));
    if start == n {
        return None;
    }
    let mut value: u64 = 0;
    let mut i: usize = start;
    while i < n
        invariant
            start <= i <= n,
            n == token@.len(),
            ds == token@.subrange(start as int, n as int),
            ds == numeral_digits(token@),
            all_digits(ds.subrange(0, i - start)),
            value as nat == digits_value(ds.subrange(0, i - start)),
        decreases n - i,
    {
        let b = token[i];
        assert(ds[i - start] == b);
        if b < ZERO || b > ZERO + 9 {
            assert(!is_digit(ds[i - start]));
            return None;
        }
        let ghost pre = ds.subrange(0, i - start);
        let ghost next = ds.subrange(0, i - start + 1);
        assert(next.drop_last() =~= pre);
        assert(next.last() == b);
        let wide: u128 = value as u128 * 10 + (b - ZERO) as u128;
        assert(wide == digits_value(next));
        if wide > u64::MAX as u128 {
            proof {
                if all_digits(ds) {
                    lemma_prefix_value_le(ds, i - start + 1);
                }
            }
            return None;
        }
        value = wide as u64;
        i = i + 1;
    }
    assert(ds.subrange(0, n - start) =~= ds);
    Some(value)
}

/// Appends the decimal digits of `n` to `out`.
pub fn push_decimal(n: u64, out: &mut Vec<u8>)
    ensures
        final(out)@ == old(out)@ + decimal(n as nat),
    decreases n,
{
    if n >= 10 {
        push_decimal(n / 10, out);
    }
    let d: u8 = (n % 10) as u8;
    out.push(ZERO + d);
    proof {
        if n >= 10 {
            assert(decimal(n as nat) == decimal((n / 10) as nat).push((ZERO + n % 10) as u8));
        }
    }
    assert(final(out)@ =~= old(out)@ + decimal(n as nat));
}

} // verus!
