//! Splitting a line into whitespace-separated tokens, and reading a line of
//! numbers.
use vstd::prelude::*;
use crate::decimal::{numeral_value, parse_u64};

verus! {

/// ASCII whitespace: tab, line feed, vertical tab, form feed, carriage
/// return and space.
pub open spec fn is_space(b: u8) -> bool {
    (9 <= b && b <= 13) || b == 32
}

/// Scanning `s` from the left: the tokens already closed by whitespace, and
/// the token still being read (empty between tokens).
pub open spec fn scan(s: Seq<u8>) -> (Seq<Seq<u8>>, Seq<u8>)
    decreases s.len(),
{
    if s.len() == 0 {
        (seq![], seq![])
    } else {
        let (done, cur) = scan(s.drop_last());
        let b = s.last();
        if is_space(b) {
            if cur.len() > 0 {
                (done.push(cur), seq![])
            } else {
                (done, cur)
            }
        } else {
            (done, cur.push(b))
        }
    }
}

/// The maximal runs of non-whitespace bytes of `s`, in order.
pub open spec fn tokens(s: Seq<u8>) -> Seq<Seq<u8>> {
    let (done, cur) = scan(s);
    if cur.len() > 0 {
        done.push(cur)
    } else {
        done
    }
}

/// The values of the tokens of `s`, if every token is a numeral that fits in
/// `u64`.
pub open spec fn numbers(s: Seq<u8>) -> Option<Seq<u64>> {
    let ts = tokens(s);
    if forall|i: int| 0 <= i < ts.len() ==> (#[trigger] numeral_value(ts[i])) is Some {
        Some(Seq::new(ts.len(), |i: int| numeral_value(ts[i])->Some_0))
    } else {
        None
    }
}

/// The byte strings held by a sequence of vectors.
pub open spec fn byte_views(v: Seq<Vec<u8>>) -> Seq<Seq<u8>> {
    v.map_values(|x: Vec<u8>| x@)
}

fn is_space_byte(b: u8) -> (r: bool)
    ensures
        r == is_space(b),
{
    (9 <= b && b <= 13) || b == 32
}

/// Splits `line` at whitespace into its tokens.
pub fn split_tokens(line: &[u8]) -> (r: Vec<Vec<u8>>)
    ensures
        byte_views(r@) == tokens(line@),
{
    let mut done: Vec<Vec<u8>> = Vec::new();
    let mut cur: Vec<u8> = Vec::new();
    let mut i: usize = 0;
    while i < line.len()
        invariant
            i <= line@.len(),
            (byte_views(done@), cur@) == scan(line@.subrange(0, i as int)),
        decreases line@.len() - i,
    {
        let ghost pre = line@.subrange(0, i as int);
        assert(line@.subrange(0, i + 1).drop_last() =~= pre);
        let b = line[i];
        if is_space_byte(b) {
            if cur.len() > 0 {
                let ghost d = byte_views(done@);
                let ghost c = cur@;
                done.push(cur);
                assert(byte_views(done@) =~= d.push(c));
                cur = Vec::new();
                assert(cur@ =~= Seq::<u8>::empty());
            }
        } else {
            cur.push(b);
        }
        i = i + 1;
    }
    assert(line@.subrange(0, i as int) =~= line@);
    if cur.len() > 0 {
        let ghost d = byte_views(done@);
        let ghost c = cur@;
        done.push(cur);
        assert(byte_views(done@) =~= d.push(c));
    }
    done
}

/// Reads `line` as whitespace-separated unsigned numbers. Returns `None` if
/// a token is not a numeral or its value does not fit in `u64`.
pub fn parse_numbers(line: &[u8]) -> (r: Option<Vec<u64>>)
    ensures
        match r {
            Some(v) => numbers(line@) == Some(v@),
            None => numbers(line@) is None,
        },
{
    let ts = split_tokens(line);
    let ghost tv = tokens(line@);
    let mut values: Vec<u64> = Vec::new();
    let mut i: usize = 0;
    while i < ts.len()
        invariant
            i <= ts@.len(),
            byte_views(ts@) == tv,
            tv == tokens(line@),
            values@.len() == i,
            forall|j: int| 0 <= j < i ==> numeral_value(tv[j]) == Some(#[trigger] values@[j]),
        decreases ts@.len() - i,
    {
        assert(ts@[i as int]@ == tv[i as int]);
        match parse_u64(ts[i].as_slice()) {
            Some(v) => {
                values.push(v);
            },
            None => {
                assert(numeral_value(tv[i as int]) is None);
                return None;
            },
        }
        i = i + 1;
    }
    assert forall|j: int| 0 <= j < tv.len() implies (#[trigger] numeral_value(tv[j])) is Some by {
        assert(numeral_value(tv[j]) == Some(values@[j]));
    }
    assert(values@ =~= Seq::new(tv.len(), |j: int| numeral_value(tv[j])->Some_0));
    Some(values)
}

} // verus!
