//! The run-length field written before a line when counting is on.
use vstd::prelude::*;

verus! {

/// The ASCII decimal digits of `n`, most significant first, without leading zeros.
pub open spec fn decimal(n: nat) -> Seq<u8>
    decreases n,
{
    if n < 10 {
        seq![(48 + n) as u8]
    } else {
        decimal(n / 10).push((48 + n % 10) as u8)
    }
}

/// `k` space bytes.
pub open spec fn spaces(k: nat) -> Seq<u8> {
    Seq::new(k, |i: int| 32u8)
}

/// The width that a count field takes at least.
pub const FIELD_WIDTH: usize = 4;

/// `n` in decimal, right-aligned with spaces in a field at least four bytes wide.
pub open spec fn count_field(n: nat) -> Seq<u8> {
    let d = decimal(n);
    if d.len() < FIELD_WIDTH {
        spaces((FIELD_WIDTH - d.len()) as nat) + d
    } else {
        d
    }
}

/// What stands before a line when counting is on: the count field and one space.
pub open spec fn count_prefix(n: nat) -> Seq<u8> {
    count_field(n).push(32u8)
}

/// Writes the decimal digits of `n`.
pub fn decimal_digits(n: u64) -> (r: Vec<u8>)
    ensures
        r@ == decimal(n as nat),
{
    let mut m: u64 = n;
    let mut digits: Vec<u8> = Vec::new();
    loop
        invariant_except_break
            decimal(n as nat) == decimal(m as nat) + digits@,
        ensures
            decimal(n as nat) == digits@,
        decreases m,
    {
        let d: u8 = (m % 10) as u8 + 48u8;
        let ghost before = digits@;
        digits.insert(0, d);
        if m < 10 {
            assert(digits@ =~= decimal(m as nat) + before);
            break;
        }
        assert(decimal(m as nat) + before =~= decimal((m / 10) as nat) + digits@);
        m = m / 10;
    }
    digits
}

/// Writes the count field of `n` followed by one space.
pub fn count_prefix_bytes(n: u64) -> (r: Vec<u8>)
    ensures
        r@ == count_prefix(n as nat),
{
    let digits = decimal_digits(n);
    let mut out: Vec<u8> = Vec::new();
    let mut pad: usize = 0;
    let width: usize = if digits.len() < FIELD_WIDTH { FIELD_WIDTH - digits.len() } else { 0 };
    while pad < width
        invariant
            pad <= width,
            out@ == spaces(pad as nat),
        decreases width - pad,
    {
        out.push(32u8);
        pad = pad + 1;
        assert(out@ =~= spaces(pad as nat));
    }
    let mut i: usize = 0;
    while i < digits.len()
        invariant
            i <= digits@.len(),
            out@ == spaces(width as nat) + digits@.subrange(0, i as int),
        decreases digits@.len() - i,
    {
        out.push(digits[i]);
        i = i + 1;
        assert(out@ =~= spaces(width as nat) + digits@.subrange(0, i as int));
    }
    out.push(32u8);
    assert(digits@.subrange(0, digits@.len() as int) =~= digits@);
    assert(spaces(0) + digits@ =~= digits@);
    out
}

} // verus!
