//! A whole input: the number of cases, then two lines for each case, and one
//! output line for each case solved.
use vstd::prelude::*;
use crate::decimal::{decimal, numeral_value, parse_u64, push_decimal};
use crate::solver::{header_fields, parse_header, solve_values, values_result, CaseError};
use crate::tokens::byte_views;

verus! {

/// Why a run stopped before it had solved every case.
#[derive(Clone, Copy, Debug, PartialEq, Eq, Structural)]
pub enum RunError {
    /// The input has no first line.
    MissingCaseCount,
    /// The first line is not an unsigned 64-bit numeral.
    BadCaseCount,
    /// The input ends before a line of case `case` (numbered from 1).
    MissingLine { case: u64 },
    /// A line of case `case` (numbered from 1) is malformed.
    BadCase { case: u64, error: CaseError },
}

/// What a run writes, one line per solved case without its line break, and
/// why it stopped early, if it did.
#[derive(Debug)]
pub struct Transcript {
    pub output: Vec<Vec<u8>>,
    pub error: Option<RunError>,
}

/// The bytes of `Case #`.
pub open spec fn case_label() -> Seq<u8> {
    seq![67u8, 97u8, 115u8, 101u8, 32u8, 35u8]
}

/// The bytes of `: `.
pub open spec fn separator() -> Seq<u8> {
    seq![58u8, 32u8]
}

/// The output line `Case #x: y`.
pub open spec fn case_text(x: nat, y: nat) -> Seq<u8> {
    case_label() + decimal(x) + separator() + decimal(y)
}

/// How case `i` (counted from 0) of the input lines `ls` ends: its answer, or
/// why it has none. Its first line is `ls[2 * i + 1]`, its values line the
/// next one; the values line is only looked for once the first line is read.
pub open spec fn case_outcome(ls: Seq<Seq<u8>>, i: nat) -> Result<u64, RunError> {
    let case = (i + 1) as u64;
    let h: int = 2 * i as int + 1;
    if h >= ls.len() {
        Err(RunError::MissingLine { case })
    } else {
        match header_fields(ls[h]) {
            Err(error) => Err(RunError::BadCase { case, error }),
            Ok((_, m)) => if h + 1 >= ls.len() {
                Err(RunError::MissingLine { case })
            } else {
                match values_result(m, ls[h + 1]) {
                    Ok(y) => Ok(y),
                    Err(error) => Err(RunError::BadCase { case, error }),
                }
            },
        }
    }
}

/// Reads the number of cases from the first line, which must be a numeral
/// and nothing else.
pub fn case_count(line: &[u8]) -> (r: Option<u64>)
    ensures
        r == numeral_value(line@),
{
    parse_u64(line)
}

/// The output line for case `x` with answer `y`: `Case #x: y`.
pub fn case_line(x: u64, y: u64) -> (r: Vec<u8>)
    ensures
        r@ == case_text(x as nat, y as nat),
{
    let mut out: Vec<u8> = vec![67u8, 97u8, 115u8, 101u8, 32u8, 35u8];
    assert(out@ =~= case_label());
    push_decimal(x, &mut out);
    out.push(58u8);
    out.push(32u8);
    assert(out@ =~= case_label() + decimal(x as nat) + separator());
    push_decimal(y, &mut out);
    out
}

/// Runs a whole input given as its lines, without line breaks. The first
/// line gives the number of cases `t`; cases `1..=t` follow, two lines each,
/// and each solved case `x` writes `Case #x: y`. The run stops at the first
/// case that is missing a line or is malformed, and writes nothing for it.
/// Lines after the last case are not read.
pub fn run(lines: &[Vec<u8>]) -> (r: Transcript)
    ensures
        ({
            let ls = byte_views(lines@);
            &&& ls.len() == 0 ==> r.output@.len() == 0 && r.error == Some(RunError::MissingCaseCount)
            &&& ls.len() > 0 && numeral_value(ls[0]) is None ==> r.output@.len() == 0 && r.error
                == Some(RunError::BadCaseCount)
            &&& ls.len() > 0 && numeral_value(ls[0]) is Some ==> {
                let t = numeral_value(ls[0])->Some_0;
                &&& r.output@.len() <= t
                &&& forall|i: int|
                    0 <= i < r.output@.len() ==> (#[trigger] case_outcome(ls, i as nat)) is Ok
                        && r.output@[i]@ == case_text(
                        (i + 1) as nat,
                        case_outcome(ls, i as nat)->Ok_0 as nat,
                    )
                &&& r.output@.len() == t ==> r.error is None
                &&& r.output@.len() < t ==> r.error == Some(
                    case_outcome(ls, r.output@.len())->Err_0,
                ) && case_outcome(ls, r.output@.len()) is Err
            }
        }),
{
    let ghost ls = byte_views(lines@);
    if lines.len() == 0 {
        return Transcript { output: Vec::new(), error: Some(RunError::MissingCaseCount) };
    }
    assert(lines@[0]@ == ls[0]);
    let t = match parse_u64(lines[0].as_slice()) {
        Some(t) => t,
        None => return Transcript { output: Vec::new(), error: Some(RunError::BadCaseCount) },
    };
    let mut output: Vec<Vec<u8>> = Vec::new();
    let mut x: u64 = 0;
    while x < t
        invariant
            ls == byte_views(lines@),
            ls.len() > 0,
            numeral_value(ls[0]) == Some(t),
            x <= t,
            output@.len() == x,
            forall|i: int|
                0 <= i < x ==> (#[trigger] case_outcome(ls, i as nat)) is Ok && output@[i]@
                    == case_text((i + 1) as nat, case_outcome(ls, i as nat)->Ok_0 as nat),
        decreases t - x,
    {
        let ghost outcome = case_outcome(ls, x as nat);
        let case: u64 = x + 1;
        let h: u128 = 2 * (x as u128) + 1;
        if h >= lines.len() as u128 {
            return Transcript { output, error: Some(RunError::MissingLine { case }) };
        }
        let h: usize = h as usize;
        assert(lines@[h as int]@ == ls[h as int]);
        let m = match parse_header(lines[h].as_slice()) {
            Ok((_, m)) => m,
            Err(error) => return Transcript { output, error: Some(RunError::BadCase { case, error }) },
        };
        if h + 1 >= lines.len() {
            return Transcript { output, error: Some(RunError::MissingLine { case }) };
        }
        assert(lines@[h + 1]@ == ls[h + 1]);
        let y = match solve_values(m, lines[h + 1].as_slice()) {
            Ok(y) => y,
            Err(error) => return Transcript { output, error: Some(RunError::BadCase { case, error }) },
        };
        assert(outcome == Ok::<u64, RunError>(y));
        let line = case_line(case, y);
        output.push(line);
        x = x + 1;
    }
    Transcript { output, error: None }
}

} // verus!
