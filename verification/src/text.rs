//! Decimal text.

use vstd::prelude::*;

verus! {

/// `String::push` appends one character.
pub assume_specification[ String::push ](s: &mut String, c: char)
    ensures
        final(s)@ == old(s)@.push(c),
;

/// The character of a decimal digit.
pub open spec fn digit(d: nat) -> char {
    (48 + d) as char
}

/// Decimal digits of a number, without leading zeros.
pub open spec fn decimal(n: nat) -> Seq<char>
    decreases n,
{
    if n < 10 {
        seq![digit(n)]
    } else {
        decimal(n / 10).push(digit(n % 10))
    }
}

/// Appends the decimal digits of `n`.
pub fn push_decimal(out: &mut String, n: usize)
    ensures
        final(out)@ == old(out)@ + decimal(n as nat),
    decreases n,
{
    if n < 10 {
        out.push((48u8 + (n as u8)) as char);
        assert(out@ =~= old(out)@ + decimal(n as nat));
    } else {
        push_decimal(out, n / 10);
        out.push((48u8 + ((n % 10) as u8)) as char);
        assert(out@ =~= old(out)@ + decimal(n as nat));
    }
}

/// Appends `s` and a line feed.
pub fn push_line(out: &mut String, s: &str)
    ensures
        final(out)@ == old(out)@ + s@ + seq!['\n'],
{
    out.append(s);
    out.push('\n');
    assert(out@ =~= old(out)@ + s@ + seq!['\n']);
}

/// Appends the decimal digits of `n` and a line feed.
pub fn push_decimal_line(out: &mut String, n: usize)
    ensures
        final(out)@ == old(out)@ + decimal(n as nat) + seq!['\n'],
{
    push_decimal(out, n);
    out.push('\n');
    assert(out@ =~= old(out)@ + decimal(n as nat) + seq!['\n']);
}

} // verus!
