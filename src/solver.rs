//! The sum of a case's values modulo its modulus, and the reading of one case
//! from its two lines.
use vstd::prelude::*;
use vstd::arithmetic::div_mod::lemma_add_mod_noop;
use crate::decimal::{numeral_value, parse_u64};
use crate::tokens::{numbers, parse_numbers, split_tokens, tokens};

verus! {

/// Why one case could not be solved.
#[derive(Clone, Copy, Debug, PartialEq, Eq, Structural)]
pub enum CaseError {
    /// The first line of the case holds no token.
    MissingCount,
    /// The count is not an unsigned 64-bit numeral.
    BadCount,
    /// The first line of the case holds only one token.
    MissingModulus,
    /// The modulus is not an unsigned 64-bit numeral.
    BadModulus,
    /// A token of the values line is not an unsigned 64-bit numeral.
    BadValue,
    /// The modulus is zero.
    ZeroModulus,
}

/// The sum of a sequence of values.
pub open spec fn sum(c: Seq<u64>) -> int
    decreases c.len(),
{
    if c.len() == 0 {
        0
    } else {
        sum(c.drop_last()) + c.last()
    }
}

/// The count and the modulus that the first line of a case gives. Tokens
/// after the second are not read.
pub open spec fn header_fields(h: Seq<u8>) -> Result<(u64, u64), CaseError> {
    let ts = tokens(h);
    if ts.len() < 1 {
        Err(CaseError::MissingCount)
    } else if numeral_value(ts[0]) is None {
        Err(CaseError::BadCount)
    } else if ts.len() < 2 {
        Err(CaseError::MissingModulus)
    } else if numeral_value(ts[1]) is None {
        Err(CaseError::BadModulus)
    } else {
        Ok((numeral_value(ts[0])->Some_0, numeral_value(ts[1])->Some_0))
    }
}

/// The answer to a case with modulus `m` and values line `v`. The values
/// line alone decides how many values are summed.
pub open spec fn values_result(m: u64, v: Seq<u8>) -> Result<u64, CaseError> {
    match numbers(v) {
        None => Err(CaseError::BadValue),
        Some(c) => if m == 0 {
            Err(CaseError::ZeroModulus)
        } else {
            Ok((sum(c) % (m as int)) as u64)
        },
    }
}

/// The answer to a case given by its first line `h` and its values line `v`.
pub open spec fn case_result(h: Seq<u8>, v: Seq<u8>) -> Result<u64, CaseError> {
    match header_fields(h) {
        Err(e) => Err(e),
        Ok((_, m)) => values_result(m, v),
    }
}

/// The sum of the values of `c` modulo `m`. The sum is reduced as it goes, so
/// the result is exact however large the true sum is.
pub fn solve(c: &[u64], m: u64) -> (r: u64)
    requires
        m > 0,
    ensures
        r as int == sum(c@) % (m as int),
{
    let mut acc: u64 = 0;
    let mut i: usize = 0;
    assert(sum(c@.subrange(0, 0)) == 0);
    assert(0int % (m as int) == 0);
    while i < c.len()
        invariant
            m > 0,
            i <= c@.len(),
            acc < m,
            acc as int == sum(c@.subrange(0, i as int)) % (m as int),
        decreases c@.len() - i,
    {
        let ghost pre = c@.subrange(0, i as int);
        let ghost next = c@.subrange(0, i + 1);
        assert(next.drop_last() =~= pre);
        let x = c[i];
        let wide: u128 = acc as u128 + (x % m) as u128;
        let reduced: u64 = (wide % (m as u128)) as u64;
        proof {
            lemma_add_mod_noop(sum(pre), x as int, m as int);
            assert((acc as int) % (m as int) == acc as int) by {
                vstd::arithmetic::div_mod::lemma_small_mod(acc as nat, m as nat);
            }
            assert(sum(next) == sum(pre) + x);
        }
        acc = reduced;
        i = i + 1;
    }
    assert(c@.subrange(0, i as int) =~= c@);
    acc
}

/// Reads the count and the modulus from the first line of a case.
pub fn parse_header(h: &[u8]) -> (r: Result<(u64, u64), CaseError>)
    ensures
        r == header_fields(h@),
{
    let ts = split_tokens(h);
    let ghost tv = tokens(h@);
    if ts.len() < 1 {
        return Err(CaseError::MissingCount);
    }
    assert(ts@[0]@ == tv[0]);
    let n = match parse_u64(ts[0].as_slice()) {
        Some(n) => n,
        None => return Err(CaseError::BadCount),
    };
    if ts.len() < 2 {
        return Err(CaseError::MissingModulus);
    }
    assert(ts@[1]@ == tv[1]);
    let m = match parse_u64(ts[1].as_slice()) {
        Some(m) => m,
        None => return Err(CaseError::BadModulus),
    };
    Ok((n, m))
}

/// Solves one case from its first line `h`, which gives the count and the
/// modulus, and its values line `v`.
pub fn solve_case(h: &[u8], v: &[u8]) -> (r: Result<u64, CaseError>)
    ensures
        r == case_result(h@, v@),
{
    match parse_header(h) {
        Ok((_, m)) => solve_values(m, v),
        Err(e) => Err(e),
    }
}

/// Solves a case with modulus `m` from its values line `v`.
pub fn solve_values(m: u64, v: &[u8]) -> (r: Result<u64, CaseError>)
    ensures
        r == values_result(m, v@),
{
    let c = match parse_numbers(v) {
        Some(c) => c,
        None => return Err(CaseError::BadValue),
    };
    if m == 0 {
        return Err(CaseError::ZeroModulus);
    }
    Ok(solve(c.as_slice(), m))
}

} // verus!
