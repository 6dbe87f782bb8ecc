use vstd::prelude::*;

verus! {

/// Why a page could not be served.
#[derive(Clone, Copy, Debug, PartialEq, Eq, Structural)]
pub enum PageError {
    /// The start offset is not below the number of entries, and there are some.
    OutOfRange,
    /// The start offset was given as text that is not a decimal number.
    BadStartFormat,
}

/// Whether `c` is an ASCII decimal digit.
pub open spec fn is_digit(c: char) -> bool {
    '0' <= c && c <= '9'
}

/// Whether `s` is one or more ASCII decimal digits.
pub open spec fn is_decimal(s: Seq<char>) -> bool {
    s.len() > 0 && forall|i: int| 0 <= i < s.len() ==> is_digit(#[trigger] s[i])
}

/// The number that the decimal digits `s` write.
pub open spec fn decimal_value(s: Seq<char>) -> nat
    decreases s.len(),
{
    if s.len() == 0 {
        0
    } else {
        10 * decimal_value(s.drop_last()) + ((s.last() as u32 - '0' as u32) as nat)
    }
}

/// The start offset that text gives: its decimal value, or `u64::MAX` for a
/// value past it (any such offset is past every index); `BadStartFormat` for
/// text that is not a decimal number.
pub open spec fn start_spec(s: Seq<char>) -> Result<u64, PageError> {
    if !is_decimal(s) {
        Err(PageError::BadStartFormat)
    } else if decimal_value(s) > u64::MAX {
        Ok(u64::MAX)
    } else {
        Ok(decimal_value(s) as u64)
    }
}

/// Reads a start offset written in decimal.
pub fn parse_start(text: &str) -> (r: Result<u64, PageError>)
    ensures
        r == start_spec(text@),
{
    let n: usize = text.unicode_len();
    if n == 0 {
        return Err(PageError::BadStartFormat);
    }
    let mut acc: u64 = 0;
    let mut i: usize = 0;
    while i < n
        invariant
            n == text@.len(),
            i <= n,
            forall|j: int| 0 <= j < i ==> is_digit(#[trigger] text@[j]),
            acc == (if decimal_value(text@.subrange(0, i as int)) > u64::MAX {
                u64::MAX as int
            } else {
                decimal_value(text@.subrange(0, i as int)) as int
            }),
        decreases n - i,
    {
        let c = text.get_char(i);
        if !('0' <= c && c <= '9') {
            assert(!is_decimal(text@));
            return Err(PageError::BadStartFormat);
        }
        let d: u64 = (c as u32 - '0' as u32) as u64;
        let ghost prev = decimal_value(text@.subrange(0, i as int));
        proof {
            assert(text@.subrange(0, i + 1).drop_last() =~= text@.subrange(0, i as int));
            assert(decimal_value(text@.subrange(0, i + 1)) == 10 * prev + d);
        }
        if acc > (u64::MAX - d) / 10 {
            proof {
                assert(10 * acc + d > u64::MAX) by (nonlinear_arith)
                    requires acc > (u64::MAX - d) / 10, d <= 9;
                assert(prev >= acc);
                assert(10 * prev + d >= 10 * acc + d) by (nonlinear_arith)
                    requires prev >= acc;
            }
            acc = u64::MAX;
        } else {
            proof {
                assert(10 * acc + d <= u64::MAX) by (nonlinear_arith)
                    requires acc <= (u64::MAX - d) / 10, d <= 9;
                assert(acc as int == prev);
            }
            acc = 10 * acc + d;
        }
        i += 1;
    }
    assert(text@.subrange(0, n as int) =~= text@);
    Ok(acc)
}

/// The half-open range `[start, end)` of index positions that a page covers,
/// for an index of `len` entries.
///
/// An empty index gives the empty range whatever is asked. Otherwise an absent
/// start is `0` and must be below `len`; an absent limit takes everything from
/// the start on; and the end is clamped to `len`.
pub open spec fn page_spec(len: int, start: Option<u64>, limit: Option<u64>) -> Result<(int, int), PageError> {
    let s: int = match start {
        Some(s) => s as int,
        None => 0,
    };
    if len == 0 {
        Ok((0, 0))
    } else if s >= len {
        Err(PageError::OutOfRange)
    } else {
        let l: int = match limit {
            Some(l) => l as int,
            None => len - s,
        };
        Ok((s, if s + l < len { s + l } else { len }))
    }
}

/// Resolves a start offset and a limit against an index of `len` entries into
/// the range of positions to list.
pub fn page_bounds(len: u64, start: Option<u64>, limit: Option<u64>) -> (r: Result<(u64, u64), PageError>)
    ensures
        match page_spec(len as int, start, limit) {
            Ok((s, e)) => r == Ok::<(u64, u64), PageError>((s as u64, e as u64)),
            Err(err) => r == Err::<(u64, u64), PageError>(err),
        },
        r matches Ok((s, e)) ==> s <= e <= len,
{
    if len == 0 {
        return Ok((0, 0));
    }
    let s: u64 = match start {
        Some(s) => s,
        None => 0,
    };
    if s >= len {
        return Err(PageError::OutOfRange);
    }
    let rest: u64 = len - s;
    let e: u64 = match limit {
        Some(l) => if l < rest { s + l } else { len },
        None => len,
    };
    Ok((s, e))
}

} // verus!
