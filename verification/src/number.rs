use vstd::prelude::*;

verus! {

/// Why a text is no number.
#[derive(Debug, PartialEq, Eq)]
pub enum IntErrorKind {
    /// The text is empty.
    Empty,
    /// The text holds something other than a digit.
    InvalidDigit,
    /// The number is too large for its type.
    PosOverflow,
}

pub open spec fn is_digit(b: u8) -> bool {
    48 <= b <= 57
}

/// Reads the digits `d` after the value `acc` read so far, one digit at a
/// time from the left: fails at the first byte that is no digit, or as
/// soon as the value exceeds `usize::MAX`.
pub open spec fn scan_digits(d: Seq<u8>, acc: nat) -> Result<usize, IntErrorKind>
    decreases d.len(),
{
    if d.len() == 0 {
        Ok(acc as usize)
    } else if !is_digit(d[0]) {
        Err(IntErrorKind::InvalidDigit)
    } else if acc * 10 + (d[0] - 48) > usize::MAX {
        Err(IntErrorKind::PosOverflow)
    } else {
        scan_digits(d.skip(1), (acc * 10 + (d[0] - 48)) as nat)
    }
}

/// The unsigned number a decimal text stands for: an optional `+` and one
/// or more digits, read as `usize::from_str` reads them.
pub open spec fn decimal_usize(s: Seq<u8>) -> Result<usize, IntErrorKind> {
    if s.len() == 0 {
        Err(IntErrorKind::Empty)
    } else if s.len() == 1 && (s[0] == 43 || s[0] == 45) {
        Err(IntErrorKind::InvalidDigit)
    } else if s[0] == 43 {
        scan_digits(s.skip(1), 0)
    } else {
        scan_digits(s, 0)
    }
}

/// Reads an unsigned decimal number.
pub fn parse_usize(text: &[u8]) -> (r: Result<usize, IntErrorKind>)
    ensures
        r == decimal_usize(text@),
{
    let len = text.len();
    if len == 0 {
        return Err(IntErrorKind::Empty);
    }
    if len == 1 && (text[0] == 43 || text[0] == 45) {
        return Err(IntErrorKind::InvalidDigit);
    }
    let mut i: usize = if text[0] == 43 { 1 } else { 0 };
    let ghost start = i as int;
    let mut acc: usize = 0;
    assert(text@.skip(0) =~= text@);
    while i < len
        invariant
            len == text@.len(),
            start <= i <= len,
            start == 0 || start == 1,
            decimal_usize(text@) == scan_digits(text@.skip(i as int), acc as nat),
        decreases len - i,
    {
        let b = text[i];
        assert(text@.skip(i as int)[0] == b);
        assert(text@.skip(i as int).skip(1) =~= text@.skip(i + 1));
        if b < 48 || b > 57 {
            return Err(IntErrorKind::InvalidDigit);
        }
        match acc.checked_mul(10) {
            Some(m) => match m.checked_add((b - 48) as usize) {
                Some(v) => {
                    acc = v;
                },
                None => {
                    return Err(IntErrorKind::PosOverflow);
                },
            },
            None => {
                assert(acc * 10 + (b - 48) > usize::MAX);
                return Err(IntErrorKind::PosOverflow);
            },
        }
        i = i + 1;
    }
    assert(text@.skip(i as int).len() == 0);
    Ok(acc)
}

} // verus!
