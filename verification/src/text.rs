//! Plain-text rendering helpers shared by the record formatters.

use vstd::prelude::*;

verus! {

/// The character that stands for the decimal digit `d`.
pub open spec fn digit(d: nat) -> char
    recommends
        d < 10,
{
    seq!['0', '1', '2', '3', '4', '5', '6', '7', '8', '9'][d as int]
}

/// The decimal rendering of `n`, most significant digit first, without
/// leading zeros.
pub open spec fn decimal(n: nat) -> Seq<char>
    decreases n,
{
    if n < 10 {
        seq![digit(n)]
    } else {
        decimal(n / 10).push(digit(n % 10))
    }
}

/// `n` tab characters.
pub open spec fn tabs(n: nat) -> Seq<char> {
    Seq::new(n, |i: int| '\t')
}

/// Appends `n` tab characters to `out`.
pub fn push_tabs(out: &mut String, n: usize)
    ensures
        final(out)@ == old(out)@ + tabs(n as nat),
{
    let mut i: usize = 0;
    while i < n
        invariant
            i <= n,
            out@ == old(out)@ + tabs(i as nat),
        decreases n - i,
    {
        out.append("\t");
        i += 1;
        proof {
            reveal_strlit("\t");
        }
        assert(out@ =~= old(out)@ + tabs(i as nat));
    }
}

/// Appends the decimal rendering of `n` to `out`.
pub fn push_decimal(out: &mut String, n: u64)
    ensures
        final(out)@ == old(out)@ + decimal(n as nat),
    decreases n,
{
    if n >= 10 {
        push_decimal(out, n / 10);
    }
    let d: usize = (n % 10) as usize;
    proof {
        reveal_strlit("0123456789");
    }
    let digits: &str = "0123456789";
    let piece: &str = digits.substring_ascii(d, d + 1);
    out.append(piece);
    assert(piece@ =~= seq![digit((n % 10) as nat)]);
    assert(final(out)@ =~= old(out)@ + decimal(n as nat));
}

/// One line of a record's text: a space, the field's name, a colon and a
/// space, the value, a semicolon and a line break.
pub open spec fn field(name: Seq<char>, value: Seq<char>) -> Seq<char> {
    " "@ + name + ": "@ + value + ";\n"@
}

/// Appends the line for a field whose value is text.
pub fn push_field(out: &mut String, name: &str, value: &str)
    ensures
        final(out)@ == old(out)@ + field(name@, value@),
{
    out.append(" ");
    out.append(name);
    out.append(": ");
    out.append(value);
    out.append(";\n");
    assert(out@ =~= old(out)@ + field(name@, value@));
}

/// Appends the line for a field whose value is a number, in decimal.
pub fn push_number_field(out: &mut String, name: &str, value: u64)
    ensures
        final(out)@ == old(out)@ + field(name@, decimal(value as nat)),
{
    out.append(" ");
    out.append(name);
    out.append(": ");
    push_decimal(out, value);
    out.append(";\n");
    assert(out@ =~= old(out)@ + field(name@, decimal(value as nat)));
}

} // verus!
