use vstd::prelude::*;

verus! {

/// Width in which a line number is right-justified.
pub const NUMBER_WIDTH: usize = 6;

/// The ASCII digit for a value below ten.
pub open spec fn digit_byte(d: nat) -> u8 {
    (48 + d) as u8
}

/// The decimal digits of `n`, most significant first, without leading zeros.
pub open spec fn decimal(n: nat) -> Seq<u8>
    decreases n,
{
    if n < 10 {
        seq![digit_byte(n)]
    } else {
        decimal(n / 10).push(digit_byte(n % 10))
    }
}

/// `k` spaces.
pub open spec fn spaces(k: nat) -> Seq<u8> {
    Seq::new(k, |i: int| 32u8)
}

/// The decimal digits of `n`, right-justified with spaces in `NUMBER_WIDTH` columns
/// (wider numbers are written in full).
pub open spec fn padded(n: nat) -> Seq<u8> {
    let d = decimal(n);
    if d.len() < NUMBER_WIDTH {
        spaces((NUMBER_WIDTH - d.len()) as nat) + d
    } else {
        d
    }
}

/// What stands before a numbered line: the padded number and a tab.
pub open spec fn prefix(n: nat) -> Seq<u8> {
    padded(n).push(9u8)
}

/// Appends the decimal digits of `n` to `out`.
fn push_decimal(n: u64, out: &mut Vec<u8>)
    ensures
        final(out)@ == old(out)@ + decimal(n as nat),
    decreases n,
{
    if n >= 10 {
        push_decimal(n / 10, out);
    }
    let d: u8 = (n % 10) as u8;
    out.push(48u8 + d);
    proof {
        assert(decimal(n as nat) == if n < 10 {
            seq![digit_byte(n as nat)]
        } else {
            decimal((n / 10) as nat).push(digit_byte((n % 10) as nat))
        });
        assert(final(out)@ =~= old(out)@ + decimal(n as nat));
    }
}

/// Appends the line-number prefix of `n` to `out`: the number right-justified
/// in `NUMBER_WIDTH` columns, then a tab.
pub fn push_prefix(n: u64, out: &mut Vec<u8>)
    ensures
        final(out)@ == old(out)@ + prefix(n as nat),
{
    let mut digits: Vec<u8> = Vec::new();
    push_decimal(n, &mut digits);
    assert(digits@ =~= decimal(n as nat));
    let ghost start = out@;
    if digits.len() < NUMBER_WIDTH {
        let pad: usize = NUMBER_WIDTH - digits.len();
        let mut i: usize = 0;
        while i < pad
            invariant
                i <= pad,
                out@ == start + spaces(i as nat),
            decreases pad - i,
        {
            out.push(32u8);
            i = i + 1;
            assert(out@ =~= start + spaces(i as nat));
        }
    }
    let mut j: usize = 0;
    let ghost mid = out@;
    while j < digits.len()
        invariant
            j <= digits.len(),
            out@ == mid + digits@.take(j as int),
        decreases digits.len() - j,
    {
        out.push(digits[j]);
        j = j + 1;
        assert(out@ =~= mid + digits@.take(j as int));
    }
    out.push(9u8);
    assert(digits@.take(digits.len() as int) =~= digits@);
    assert(out@ =~= old(out)@ + prefix(n as nat));
}

} // verus!
