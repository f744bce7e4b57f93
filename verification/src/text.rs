use vstd::prelude::*;

verus! {

/// Spaces per indentation level of the emitted Lean text.
pub const INDENT_WIDTH: usize = 2;

/// `String::push`: appends the character `c` at the end of `s`.
#[verifier::external_body]
pub fn push_char(s: &mut String, c: char)
    ensures
        final(s)@ == old(s)@.push(c),
{
    s.push(c);
}

/// The character of a decimal digit.
pub open spec fn digit_char(d: nat) -> char {
    (d + 48) as char
}

/// The decimal representation of `n`, without leading zeros.
pub open spec fn decimal(n: nat) -> Seq<char>
    decreases n,
{
    if n < 10 {
        seq![digit_char(n)]
    } else {
        decimal(n / 10) + seq![digit_char(n % 10)]
    }
}

/// Appends the decimal representation of `n` to `s`.
pub fn push_decimal(s: &mut String, n: usize)
    ensures
        final(s)@ == old(s)@ + decimal(n as nat),
    decreases n,
{
    if n >= 10 {
        push_decimal(s, n / 10);
    }
    let d: u8 = (n % 10) as u8;
    let c: char = (d + 48) as char;
    assert(c == digit_char((n % 10) as nat));
    push_char(s, c);
    assert(s@ =~= old(s)@ + decimal(n as nat));
}

/// The decimal representation of `n`.
pub fn to_decimal_string(n: usize) -> (r: String)
    ensures
        r@ == decimal(n as nat),
{
    let mut s = String::new();
    push_decimal(&mut s, n);
    assert(s@ =~= decimal(n as nat));
    s
}

/// The indentation of a line at `level`.
pub open spec fn spec_indent(level: nat) -> Seq<char> {
    Seq::new(level * INDENT_WIDTH as nat, |i: int| ' ')
}

/// Appends the indentation of a line at `level` to `s`.
pub fn push_indent(s: &mut String, level: usize)
    requires
        level * INDENT_WIDTH <= usize::MAX,
    ensures
        final(s)@ == old(s)@ + spec_indent(level as nat),
{
    let n: usize = level * INDENT_WIDTH;
    let mut i: usize = 0;
    while i < n
        invariant
            i <= n,
            n == level * INDENT_WIDTH,
            s@ =~= old(s)@ + Seq::new(i as nat, |j: int| ' '),
        decreases n - i,
    {
        push_char(s, ' ');
        i = i + 1;
    }
}

/// The indentation of a line at `level`.
pub fn indent(level: usize) -> (r: String)
    requires
        level * INDENT_WIDTH <= usize::MAX,
    ensures
        r@ == spec_indent(level as nat),
{
    let mut s = String::new();
    push_indent(&mut s, level);
    assert(s@ =~= spec_indent(level as nat));
    s
}

} // verus!
