//! Small verified string utilities shared by the diagnostic renderers.

use vstd::prelude::*;

verus! {

/// Appends `c` at the end of `s`, by `std::string::String::push`; the
/// characters already in `s` stay as they were.
#[verifier::external_body]
pub fn push_char(s: &mut String, c: char)
    ensures
        final(s)@ == old(s)@.push(c),
{
    s.push(c);
}

/// Equality of two string slices, by their character sequences.
pub fn str_eq(a: &str, b: &str) -> (r: bool)
    ensures
        r == (a@ == b@),
{
    let x = a.to_owned();
    let y = b.to_owned();
    x == y
}

/// The decimal digit character for `d < 10`.
pub open spec fn digit_char(d: nat) -> char {
    if d == 0 { '0' }
    else if d == 1 { '1' }
    else if d == 2 { '2' }
    else if d == 3 { '3' }
    else if d == 4 { '4' }
    else if d == 5 { '5' }
    else if d == 6 { '6' }
    else if d == 7 { '7' }
    else if d == 8 { '8' }
    else { '9' }
}

/// Decimal rendering of a natural number, most significant digit first,
/// without leading zeros (zero renders as `"0"`).
pub open spec fn nat_digits(n: nat) -> Seq<char>
    decreases n,
{
    if n < 10 {
        seq![digit_char(n)]
    } else {
        nat_digits(n / 10).push(digit_char(n % 10))
    }
}

/// Decimal rendering of an integer with a leading `-` for negatives.
pub open spec fn int_digits(n: int) -> Seq<char> {
    if n < 0 {
        seq!['-'] + nat_digits((-n) as nat)
    } else {
        nat_digits(n as nat)
    }
}

fn digit_to_char(d: u64) -> (c: char)
    requires
        d < 10,
    ensures
        c == digit_char(d as nat),
{
    if d == 0 { '0' }
    else if d == 1 { '1' }
    else if d == 2 { '2' }
    else if d == 3 { '3' }
    else if d == 4 { '4' }
    else if d == 5 { '5' }
    else if d == 6 { '6' }
    else if d == 7 { '7' }
    else if d == 8 { '8' }
    else { '9' }
}

/// Appends the decimal rendering of `n` to `s`.
pub fn push_u64(s: &mut String, n: u64)
    ensures
        final(s)@ == old(s)@ + nat_digits(n as nat),
    decreases n,
{
    if n < 10 {
        push_char(s, digit_to_char(n));
        assert(nat_digits(n as nat) =~= seq![digit_char(n as nat)]);
    } else {
        push_u64(s, n / 10);
        push_char(s, digit_to_char(n % 10));
        assert(nat_digits(n as nat) =~= nat_digits((n / 10) as nat).push(
            digit_char((n % 10) as nat),
        ));
    }
}

/// Appends the decimal rendering of a `usize`.
pub fn push_usize(s: &mut String, n: usize)
    ensures
        final(s)@ == old(s)@ + nat_digits(n as nat),
{
    push_u64(s, n as u64);
}

/// Appends the decimal rendering of an `i64` (with a `-` when negative).
pub fn push_i64(s: &mut String, n: i64)
    ensures
        final(s)@ == old(s)@ + int_digits(n as int),
{
    if n < 0 {
        push_char(s, '-');
        let m: u64 = ((-(n + 1)) as u64) + 1;
        assert(m as int == -(n as int));
        push_u64(s, m);
        assert(old(s)@.push('-') + nat_digits(m as nat) =~= old(s)@ + (seq!['-'] + nat_digits(
            m as nat,
        )));
    } else {
        push_u64(s, n as u64);
    }
}

/// Appends a string slice.
pub fn push_str(s: &mut String, t: &str)
    ensures
        final(s)@ == old(s)@ + t@,
{
    s.append(t);
}

/// A fresh `String` holding `t`.
pub fn string_of(t: &str) -> (r: String)
    ensures
        r@ == t@,
{
    t.to_owned()
}

/// `n` copies of character `c`.
pub open spec fn repeat_char(c: char, n: nat) -> Seq<char>
    decreases n,
{
    if n == 0 {
        Seq::<char>::empty()
    } else {
        repeat_char(c, (n - 1) as nat).push(c)
    }
}

/// Appends `n` copies of `c`.
pub fn push_repeat(s: &mut String, c: char, n: usize)
    ensures
        final(s)@ == old(s)@ + repeat_char(c, n as nat),
{
    let mut i: usize = 0;
    while i < n
        invariant
            i <= n,
            s@ == old(s)@ + repeat_char(c, i as nat),
        decreases n - i,
    {
        push_char(s, c);
        i = i + 1;
        assert(repeat_char(c, i as nat) == repeat_char(c, (i - 1) as nat).push(c));
        assert(s@ =~= old(s)@ + repeat_char(c, i as nat));
    }
}

/// Number of characters of the decimal rendering of `n`.
pub fn decimal_width(n: usize) -> (w: usize)
    ensures
        w as nat == nat_digits(n as nat).len(),
        1 <= w,
        w as int <= n as int + 1,
    decreases n,
{
    if n < 10 {
        1
    } else {
        let w = decimal_width(n / 10);
        assert(nat_digits(n as nat).len() == nat_digits((n / 10) as nat).len() + 1);
        w + 1
    }
}

} // verus!
