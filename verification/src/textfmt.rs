//! Plain-text column formatting: space padding, lower-case hexadecimal and
//! decimal renderings of unsigned numbers, as the report's columns need them.

use vstd::prelude::*;

verus! {

/// `n` copies of the character `c`.
pub open spec fn repeat_char(c: char, n: int) -> Seq<char>
    decreases n,
{
    if n <= 0 {
        Seq::empty()
    } else {
        repeat_char(c, n - 1).push(c)
    }
}

/// `n` blank cells.
pub open spec fn spec_spaces(n: int) -> Seq<char> {
    repeat_char(' ', n)
}

/// `repeat_char` yields exactly `n` cells (none for a nonpositive count).
pub proof fn lemma_repeat_char_len(c: char, n: int)
    ensures
        repeat_char(c, n).len() == if n <= 0 {
            0int
        } else {
            n
        },
    decreases n,
{
    if n > 0 {
        lemma_repeat_char_len(c, n - 1);
    }
}

/// `s` right-aligned in a column of width `w` (unchanged when already wider).
pub open spec fn pad_left(s: Seq<char>, w: int) -> Seq<char> {
    if s.len() < w {
        spec_spaces(w - s.len()) + s
    } else {
        s
    }
}

/// `s` left-aligned in a column of width `w` (unchanged when already wider).
pub open spec fn pad_right(s: Seq<char>, w: int) -> Seq<char> {
    if s.len() < w {
        s + spec_spaces(w - s.len())
    } else {
        s
    }
}

/// The lower-case hexadecimal digit for a value below 16.
pub open spec fn hex_char(d: int) -> char {
    if d == 0 {
        '0'
    } else if d == 1 {
        '1'
    } else if d == 2 {
        '2'
    } else if d == 3 {
        '3'
    } else if d == 4 {
        '4'
    } else if d == 5 {
        '5'
    } else if d == 6 {
        '6'
    } else if d == 7 {
        '7'
    } else if d == 8 {
        '8'
    } else if d == 9 {
        '9'
    } else if d == 10 {
        'a'
    } else if d == 11 {
        'b'
    } else if d == 12 {
        'c'
    } else if d == 13 {
        'd'
    } else if d == 14 {
        'e'
    } else {
        'f'
    }
}

/// The decimal digit for a value below 10.
pub open spec fn dec_char(d: int) -> char {
    hex_char(if 0 <= d < 10 {
        d
    } else {
        0
    })
}

/// The lower-case hexadecimal rendering of `n`, most significant digit first,
/// without a leading radix mark ("0" for zero).
pub open spec fn spec_hex(n: int) -> Seq<char>
    decreases n,
{
    if n < 16 {
        seq![hex_char(n)]
    } else {
        spec_hex(n / 16).push(hex_char(n % 16))
    }
}

/// The decimal rendering of `n`, most significant digit first ("0" for zero).
pub open spec fn spec_dec(n: int) -> Seq<char>
    decreases n,
{
    if n < 10 {
        seq![dec_char(n)]
    } else {
        spec_dec(n / 10).push(dec_char(n % 10))
    }
}

/// Relies on `String::push`: appends exactly the given character.
#[verifier::external_body]
pub(crate) fn push_char(s: &mut String, c: char)
    ensures
        final(s)@ == old(s)@.push(c),
{
    s.push(c);
}

/// Appends `n` blank cells to `s`.
pub fn push_spaces(s: &mut String, n: usize)
    ensures
        final(s)@ == old(s)@ + spec_spaces(n as int),
{
    let mut i: usize = 0;
    while i < n
        invariant
            i <= n,
            s@ == old(s)@ + spec_spaces(i as int),
        decreases n - i,
    {
        push_char(s, ' ');
        i = i + 1;
        assert(old(s)@ + spec_spaces(i as int) =~= (old(s)@ + spec_spaces(i - 1)).push(' '));
    }
}

/// The lower-case hexadecimal digit character of `d`.
fn hex_digit(d: u64) -> (c: char)
    requires
        d < 16,
    ensures
        c == hex_char(d as int),
{
    if d == 0 {
        '0'
    } else if d == 1 {
        '1'
    } else if d == 2 {
        '2'
    } else if d == 3 {
        '3'
    } else if d == 4 {
        '4'
    } else if d == 5 {
        '5'
    } else if d == 6 {
        '6'
    } else if d == 7 {
        '7'
    } else if d == 8 {
        '8'
    } else if d == 9 {
        '9'
    } else if d == 10 {
        'a'
    } else if d == 11 {
        'b'
    } else if d == 12 {
        'c'
    } else if d == 13 {
        'd'
    } else if d == 14 {
        'e'
    } else {
        'f'
    }
}

/// Appends the hexadecimal rendering of `n` to `s`.
pub fn push_hex(s: &mut String, n: u64)
    ensures
        final(s)@ == old(s)@ + spec_hex(n as int),
    decreases n,
{
    if n < 16 {
        let c = hex_digit(n);
        push_char(s, c);
        assert(old(s)@ + spec_hex(n as int) =~= old(s)@.push(hex_char(n as int)));
    } else {
        push_hex(s, n / 16);
        let c = hex_digit(n % 16);
        push_char(s, c);
        assert(old(s)@ + spec_hex(n as int) =~= (old(s)@ + spec_hex(n as int / 16)).push(
            hex_char(n as int % 16),
        ));
    }
}

/// Appends the decimal rendering of `n` to `s`.
pub fn push_dec(s: &mut String, n: u64)
    ensures
        final(s)@ == old(s)@ + spec_dec(n as int),
    decreases n,
{
    if n < 10 {
        let c = hex_digit(n);
        push_char(s, c);
        assert(old(s)@ + spec_dec(n as int) =~= old(s)@.push(dec_char(n as int)));
    } else {
        push_dec(s, n / 10);
        let c = hex_digit(n % 10);
        push_char(s, c);
        assert(old(s)@ + spec_dec(n as int) =~= (old(s)@ + spec_dec(n as int / 10)).push(
            dec_char(n as int % 10),
        ));
    }
}

/// The hexadecimal rendering of `n` as a fresh string.
pub fn hex_string(n: u64) -> (r: String)
    ensures
        r@ == spec_hex(n as int),
{
    let mut s = String::new();
    push_hex(&mut s, n);
    assert(Seq::<char>::empty() + spec_hex(n as int) =~= spec_hex(n as int));
    s
}

/// The decimal rendering of `n` as a fresh string.
pub fn dec_string(n: u64) -> (r: String)
    ensures
        r@ == spec_dec(n as int),
{
    let mut s = String::new();
    push_dec(&mut s, n);
    assert(Seq::<char>::empty() + spec_dec(n as int) =~= spec_dec(n as int));
    s
}

} // verus!
