use vstd::prelude::*;
use vstd::string::StrSliceExecFns;
use vstd::string::StringExecFns;

verus! {

/// Relies on `String::push`: appends the given character to the end of the
/// string, leaving the earlier characters unchanged.
#[verifier::external_body]
pub(crate) fn push_char(s: &mut String, c: char)
    ensures
        final(s)@ == old(s)@.push(c),
{
    s.push(c);
}

/// Whether `c` is an ASCII decimal digit.
pub open spec fn is_digit_char(c: char) -> bool {
    48 <= c as u32 <= 57
}

/// The numeric value of an ASCII decimal digit.
pub open spec fn digit_val(c: char) -> int {
    c as u32 - 48
}

/// The ASCII digit whose numeric value is `d` (meaningful for 0 through 9).
pub open spec fn digit_char(d: int) -> char {
    if d == 0 {
        '0'
    } else if d == 1 {
        '1'
    } else if d == 2 {
        '2'
    } else if d == 3 {
        '3'
    } else if d == 4 {
        '4'
    } else if d == 5 {
        '5'
    } else if d == 6 {
        '6'
    } else if d == 7 {
        '7'
    } else if d == 8 {
        '8'
    } else {
        '9'
    }
}

/// The decimal representation of `n`, most significant digit first, with no
/// leading zeros (`0` is written as the single digit `0`).
pub open spec fn dec_digits(n: nat) -> Seq<char>
    decreases n,
{
    if n < 10 {
        seq![digit_char(n as int)]
    } else {
        dec_digits(n / 10).push(digit_char((n % 10) as int))
    }
}

/// The decimal representation of `n`, left-padded with zeros to `w` digits.
/// When the representation is already `w` digits or more it is returned in
/// full, untruncated.
pub open spec fn pad_decimal(n: nat, w: nat) -> Seq<char> {
    if dec_digits(n).len() >= w {
        dec_digits(n)
    } else {
        Seq::new((w - dec_digits(n).len()) as nat, |i: int| '0') + dec_digits(n)
    }
}

/// Every character of a decimal representation is a digit, and the first one
/// is `0` only for the number zero itself.
pub proof fn lemma_dec_digits_shape(n: nat)
    ensures
        dec_digits(n).len() >= 1,
        forall|i: int| 0 <= i < dec_digits(n).len() ==> is_digit_char(#[trigger] dec_digits(n)[i]),
        forall|i: int|
            0 <= i < dec_digits(n).len() ==> digit_val(#[trigger] dec_digits(n)[i]) <= 9,
        n >= 1 ==> dec_digits(n)[0] != '0',
    decreases n,
{
    if n < 10 {
    } else {
        lemma_dec_digits_shape(n / 10);
    }
}

/// The ASCII digit of value `d`, as an executable function.
pub(crate) fn digit_to_char(d: u32) -> (c: char)
    requires
        d < 10,
    ensures
        c == digit_char(d as int),
{
    match d {
        0 => '0',
        1 => '1',
        2 => '2',
        3 => '3',
        4 => '4',
        5 => '5',
        6 => '6',
        7 => '7',
        8 => '8',
        _ => '9',
    }
}

/// Writes `n` in decimal, most significant digit first, without leading
/// zeros.
pub fn u32_to_decimal(n: u32) -> (s: String)
    ensures
        s@ == dec_digits(n as nat),
    decreases n,
{
    if n < 10 {
        let mut s = String::new();
        push_char(&mut s, digit_to_char(n));
        s
    } else {
        let mut s = u32_to_decimal(n / 10);
        push_char(&mut s, digit_to_char(n % 10));
        s
    }
}

/// Writes `n` in decimal, left-zero-padded to `width` digits; a
/// representation longer than `width` is written in full.
pub fn render_padded(n: u32, width: usize) -> (s: String)
    ensures
        s@ == pad_decimal(n as nat, width as nat),
{
    let d = u32_to_decimal(n);
    let dl = d.as_str().unicode_len();
    if dl >= width {
        d
    } else {
        let mut s = String::new();
        let zeros = width - dl;
        let mut i: usize = 0;
        while i < zeros
            invariant
                i <= zeros,
                s@ =~= Seq::new(i as nat, |j: int| '0'),
            decreases zeros - i,
        {
            push_char(&mut s, '0');
            i = i + 1;
            proof {
                assert(s@ =~= Seq::new(i as nat, |j: int| '0'));
            }
        }
        s.append(d.as_str());
        proof {
            assert(s@ =~= Seq::new((width - dec_digits(n as nat).len()) as nat, |j: int| '0')
                + dec_digits(n as nat));
        }
        s
    }
}

/// Collects the characters of a string slice into a vector.
pub(crate) fn str_to_chars(s: &str) -> (v: Vec<char>)
    ensures
        v@ == s@,
{
    let n = s.unicode_len();
    let mut v: Vec<char> = Vec::new();
    let mut i: usize = 0;
    while i < n
        invariant
            i <= n,
            n == s@.len(),
            v@ == s@.take(i as int),
        decreases n - i,
    {
        v.push(s.get_char(i));
        i = i + 1;
        proof {
            assert(v@ =~= s@.take(i as int));
        }
    }
    proof {
        assert(s@.take(n as int) =~= s@);
    }
    v
}

/// A character below a bound round-trips through its scalar value: casting
/// the value back gives the same character.
pub proof fn lemma_char_value_round_trip(c: char)
    requires
        (c as u32) < 0xD800,
    ensures
        (((c as u32) as int) as char) == c,
{
}

} // verus!
