use vstd::prelude::*;

use crate::filesystem::hex_val;
use crate::filesystem::is_hex_char;
use crate::natural_sort::pow10;
use crate::strutil::dec_digits;
use crate::strutil::digit_char;
use crate::strutil::digit_val;
use crate::strutil::is_digit_char;
use crate::strutil::lemma_char_value_round_trip;
use crate::strutil::lemma_dec_digits_shape;
use crate::strutil::push_char;

verus! {

// The persisted plan format is a structured text document: a single object
// with the fields `version` (decimal integer), `platform`, `path` (strings),
// and `plan` (a list of objects with the string fields `src`, `dest`, `id`),
// in that order, without surrounding whitespace. String values are written
// between double quotes; the quote, the backslash and the control characters
// are escaped. This module defines the encoding, a parser for it, and the
// proof that the parser inverts the encoder.
/// The lower-case hexadecimal digit of value `d` (meaningful for 0 to 15).
pub open spec fn hex_lower(d: int) -> char {
    if d == 0 {
        '0'
    } else if d == 1 {
        '1'
    } else if d == 2 {
        '2'
    } else if d == 3 {
        '3'
    } else if d == 4 {
        '4'
    } else if d == 5 {
        '5'
    } else if d == 6 {
        '6'
    } else if d == 7 {
        '7'
    } else if d == 8 {
        '8'
    } else if d == 9 {
        '9'
    } else if d == 10 {
        'a'
    } else if d == 11 {
        'b'
    } else if d == 12 {
        'c'
    } else if d == 13 {
        'd'
    } else if d == 14 {
        'e'
    } else {
        'f'
    }
}

/// The escape sequence a character is written as inside a quoted string:
/// quote and backslash get a backslash, the common control characters their
/// letter escapes, any other control character a `\u00..` escape, and
/// everything else stands for itself.
pub open spec fn esc_char(c: char) -> Seq<char> {
    if c == '"' {
        seq!['\\', '"']
    } else if c == '\\' {
        seq!['\\', '\\']
    } else if c == '\u{8}' {
        seq!['\\', 'b']
    } else if c == '\t' {
        seq!['\\', 't']
    } else if c == '\n' {
        seq!['\\', 'n']
    } else if c == '\u{c}' {
        seq!['\\', 'f']
    } else if c == '\r' {
        seq!['\\', 'r']
    } else if (c as u32) < 32 {
        seq!['\\', 'u', '0', '0', hex_lower((c as u32 / 16) as int), hex_lower((c as u32 % 16) as int)]
    } else {
        seq![c]
    }
}

/// A whole string value, escaped character by character.
pub open spec fn esc_string(s: Seq<char>) -> Seq<char>
    decreases s.len(),
{
    if s.len() == 0 {
        Seq::empty()
    } else {
        esc_char(s.first()) + esc_string(s.drop_first())
    }
}

/// The opening text of the document, up to the version number.
pub open spec fn lit_version() -> Seq<char> {
    seq!['{', '"', 'v', 'e', 'r', 's', 'i', 'o', 'n', '"', ':']
}

/// The text between the version number and the platform string.
pub open spec fn lit_platform() -> Seq<char> {
    seq![',', '"', 'p', 'l', 'a', 't', 'f', 'o', 'r', 'm', '"', ':', '"']
}

/// The text between the platform string and the path string.
pub open spec fn lit_path() -> Seq<char> {
    seq![',', '"', 'p', 'a', 't', 'h', '"', ':', '"']
}

/// The text between the path string and the element list.
pub open spec fn lit_plan() -> Seq<char> {
    seq![',', '"', 'p', 'l', 'a', 'n', '"', ':', '[']
}

/// The opening text of one element, up to its source name.
pub open spec fn lit_src() -> Seq<char> {
    seq!['{', '"', 's', 'r', 'c', '"', ':', '"']
}

/// The text between an element's source name and destination name.
pub open spec fn lit_dest() -> Seq<char> {
    seq![',', '"', 'd', 'e', 's', 't', '"', ':', '"']
}

/// The text between an element's destination name and identity.
pub open spec fn lit_id() -> Seq<char> {
    seq![',', '"', 'i', 'd', '"', ':', '"']
}

/// One encoded plan element, from its source, destination and identity
/// strings.
pub open spec fn ser_element3(src: Seq<char>, dest: Seq<char>, id: Seq<char>) -> Seq<char> {
    lit_src() + esc_string(src) + seq!['"'] + lit_dest() + esc_string(dest) + seq!['"'] + lit_id()
        + esc_string(id) + seq!['"', '}']
}

/// The encoded element list, comma-separated.
pub open spec fn ser_elements3(es: Seq<(Seq<char>, Seq<char>, Seq<char>)>) -> Seq<char>
    decreases es.len(),
{
    if es.len() == 0 {
        Seq::empty()
    } else if es.len() == 1 {
        ser_element3(es[0].0, es[0].1, es[0].2)
    } else {
        ser_element3(es[0].0, es[0].1, es[0].2) + seq![','] + ser_elements3(es.drop_first())
    }
}

/// The whole encoded plan document.
pub open spec fn ser_plan_parts(
    version: nat,
    platform: Seq<char>,
    path: Seq<char>,
    es: Seq<(Seq<char>, Seq<char>, Seq<char>)>,
) -> Seq<char> {
    lit_version() + dec_digits(version) + lit_platform() + esc_string(platform) + seq!['"']
        + lit_path() + esc_string(path) + seq!['"'] + lit_plan() + ser_elements3(es) + seq![']', '}']
}

/// Whether `s` begins with `pre`.
pub open spec fn starts_with(s: Seq<char>, pre: Seq<char>) -> bool {
    s.len() >= pre.len() && s.take(pre.len() as int) == pre
}

/// Consumes the exact text `pre`, or fails.
pub open spec fn parse_lit(s: Seq<char>, pre: Seq<char>) -> Option<Seq<char>> {
    if starts_with(s, pre) {
        Some(s.skip(pre.len() as int))
    } else {
        None
    }
}

/// Consumes a maximal digit run, accumulating its value onto `acc`.
pub open spec fn parse_digits_loop(s: Seq<char>, acc: nat) -> (nat, Seq<char>)
    decreases s.len(),
{
    if s.len() > 0 && is_digit_char(s.first()) {
        parse_digits_loop(s.drop_first(), (acc * 10 + digit_val(s.first())) as nat)
    } else {
        (acc, s)
    }
}

/// Consumes a non-empty digit run and yields its value.
pub open spec fn parse_number(s: Seq<char>) -> Option<(nat, Seq<char>)> {
    if s.len() > 0 && is_digit_char(s.first()) {
        Some(parse_digits_loop(s, 0))
    } else {
        None
    }
}

/// Whether `e` is a single-letter escape, and the character it stands for.
pub open spec fn is_named_escape(e: char) -> bool {
    e == '"' || e == '\\' || e == '/' || e == 'b' || e == 't' || e == 'n' || e == 'f' || e == 'r'
}

/// The character a single-letter escape stands for.
pub open spec fn unescape_named(e: char) -> char {
    if e == '"' {
        '"'
    } else if e == '\\' {
        '\\'
    } else if e == '/' {
        '/'
    } else if e == 'b' {
        '\u{8}'
    } else if e == 't' {
        '\t'
    } else if e == 'n' {
        '\n'
    } else if e == 'f' {
        '\u{c}'
    } else {
        '\r'
    }
}

/// Consumes the body of a quoted string up to and including the closing
/// quote, undoing the escapes; fails on a bare control character, an unknown
/// escape, or a missing close.
pub open spec fn parse_string_body(s: Seq<char>) -> Option<(Seq<char>, Seq<char>)>
    decreases s.len(),
{
    if s.len() == 0 {
        None
    } else if s.first() == '"' {
        Some((Seq::empty(), s.drop_first()))
    } else if s.first() == '\\' {
        if s.len() < 2 {
            None
        } else if is_named_escape(s[1]) {
            match parse_string_body(s.skip(2)) {
                Some((v, rest)) => Some((seq![unescape_named(s[1])] + v, rest)),
                None => None,
            }
        } else if s[1] == 'u' {
            if s.len() < 6 {
                None
            } else if s[2] == '0' && s[3] == '0' && is_hex_char(s[4]) && is_hex_char(s[5]) && hex_val(
                s[4],
            ) * 16 + hex_val(s[5]) < 32 {
                match parse_string_body(s.skip(6)) {
                    Some((v, rest)) => Some(
                        (seq![((hex_val(s[4]) * 16 + hex_val(s[5])) as char)] + v, rest),
                    ),
                    None => None,
                }
            } else {
                None
            }
        } else {
            None
        }
    } else if (s.first() as u32) < 32 {
        None
    } else {
        match parse_string_body(s.drop_first()) {
            Some((v, rest)) => Some((seq![s.first()] + v, rest)),
            None => None,
        }
    }
}

/// Consumes one encoded element.
pub open spec fn parse_element(s: Seq<char>) -> Option<
    ((Seq<char>, Seq<char>, Seq<char>), Seq<char>),
> {
    match parse_lit(s, lit_src()) {
        None => None,
        Some(s1) => match parse_string_body(s1) {
            None => None,
            Some((src, s2)) => match parse_lit(s2, lit_dest()) {
                None => None,
                Some(s3) => match parse_string_body(s3) {
                    None => None,
                    Some((dest, s4)) => match parse_lit(s4, lit_id()) {
                        None => None,
                        Some(s5) => match parse_string_body(s5) {
                            None => None,
                            Some((id, s6)) => match parse_lit(s6, seq!['}']) {
                                None => None,
                                Some(s7) => Some(((src, dest, id), s7)),
                            },
                        },
                    },
                },
            },
        },
    }
}

/// Consumes one or more comma-separated elements and the closing bracket.
pub open spec fn parse_elements_ne(s: Seq<char>) -> Option<
    (Seq<(Seq<char>, Seq<char>, Seq<char>)>, Seq<char>),
>
    decreases s.len(),
{
    match parse_element(s) {
        None => None,
        Some((e, rest)) => {
            if rest.len() > 0 && rest.first() == ',' {
                if rest.len() < s.len() {
                    match parse_elements_ne(rest.drop_first()) {
                        None => None,
                        Some((es, rest2)) => Some((seq![e] + es, rest2)),
                    }
                } else {
                    None
                }
            } else if rest.len() > 0 && rest.first() == ']' {
                Some((seq![e], rest.drop_first()))
            } else {
                None
            }
        },
    }
}

/// Consumes the element list and the closing bracket; the list may be empty.
pub open spec fn parse_elements(s: Seq<char>) -> Option<
    (Seq<(Seq<char>, Seq<char>, Seq<char>)>, Seq<char>),
> {
    if s.len() > 0 && s.first() == ']' {
        Some((Seq::empty(), s.drop_first()))
    } else {
        parse_elements_ne(s)
    }
}

/// Parses a whole plan document: version, platform, path and elements, with
/// nothing left over. Unknown fields, another field order, or trailing text
/// are refused.
pub open spec fn parse_plan(s: Seq<char>) -> Option<
    (nat, Seq<char>, Seq<char>, Seq<(Seq<char>, Seq<char>, Seq<char>)>),
> {
    match parse_lit(s, lit_version()) {
        None => None,
        Some(s1) => match parse_number(s1) {
            None => None,
            Some((v, s2)) => match parse_lit(s2, lit_platform()) {
                None => None,
                Some(s3) => match parse_string_body(s3) {
                    None => None,
                    Some((pf, s4)) => match parse_lit(s4, lit_path()) {
                        None => None,
                        Some(s5) => match parse_string_body(s5) {
                            None => None,
                            Some((pa, s6)) => match parse_lit(s6, lit_plan()) {
                                None => None,
                                Some(s7) => match parse_elements(s7) {
                                    None => None,
                                    Some((es, s8)) => {
                                        if s8.len() == 1 && s8[0] == '}' {
                                            Some((v, pf, pa, es))
                                        } else {
                                            None
                                        }
                                    },
                                },
                            },
                        },
                    },
                },
            },
        },
    }
}

/// A literal consumes exactly itself.
pub proof fn lemma_parse_lit_exact(pre: Seq<char>, rest: Seq<char>)
    ensures
        parse_lit(pre + rest, pre) == Some(rest),
{
    assert((pre + rest).take(pre.len() as int) =~= pre);
    assert((pre + rest).skip(pre.len() as int) =~= rest);
}

/// The value of a lower-case hexadecimal digit is the one it was made from.
pub proof fn lemma_hex_lower_val(d: int)
    requires
        0 <= d < 16,
    ensures
        is_hex_char(hex_lower(d)),
        hex_val(hex_lower(d)) == d,
{
}

/// Escaping a character appends to the escaped string.
pub proof fn lemma_esc_string_snoc(s: Seq<char>, c: char)
    ensures
        esc_string(s.push(c)) == esc_string(s) + esc_char(c),
    decreases s.len(),
{
    if s.len() == 0 {
        assert(s.push(c).first() == c);
        assert(s.push(c).drop_first() =~= Seq::<char>::empty());
        assert(esc_string(Seq::<char>::empty()) == Seq::<char>::empty());
        assert(esc_string(s.push(c)) == esc_char(c) + Seq::<char>::empty());
        assert(esc_char(c) + Seq::<char>::empty() =~= Seq::<char>::empty() + esc_char(c));
    } else {
        lemma_esc_string_snoc(s.drop_first(), c);
        assert(s.push(c).first() == s.first());
        assert(s.push(c).drop_first() =~= s.drop_first().push(c));
        assert(esc_char(s.first()) + (esc_string(s.drop_first()) + esc_char(c)) =~= (esc_char(
            s.first(),
        ) + esc_string(s.drop_first())) + esc_char(c));
    }
}

/// Appending an element to the list appends its encoding, with a comma
/// ahead when the list was not empty.
pub proof fn lemma_ser_elements_snoc(
    es: Seq<(Seq<char>, Seq<char>, Seq<char>)>,
    e: (Seq<char>, Seq<char>, Seq<char>),
)
    ensures
        es.len() == 0 ==> ser_elements3(es.push(e)) == ser_element3(e.0, e.1, e.2),
        es.len() > 0 ==> ser_elements3(es.push(e)) == ser_elements3(es) + seq![','] + ser_element3(
            e.0,
            e.1,
            e.2,
        ),
    decreases es.len(),
{
    if es.len() == 0 {
        assert(es.push(e)[0] == e);
    } else {
        lemma_ser_elements_snoc(es.drop_first(), e);
        assert(es.push(e)[0] == es[0]);
        assert(es.push(e).drop_first() =~= es.drop_first().push(e));
        let h = ser_element3(es[0].0, es[0].1, es[0].2);
        if es.len() == 1 {
            assert(es.drop_first().len() == 0);
            assert(ser_elements3(es.push(e)) == h + seq![','] + ser_elements3(
                es.drop_first().push(e),
            ));
            assert(ser_elements3(es) == h);
        } else {
            assert(h + seq![','] + (ser_elements3(es.drop_first()) + seq![','] + ser_element3(
                e.0,
                e.1,
                e.2,
            )) =~= (h + seq![','] + ser_elements3(es.drop_first())) + seq![','] + ser_element3(
                e.0,
                e.1,
                e.2,
            ));
        }
    }
}

/// Parsing a string body undoes the escaping: on the escaped text followed
/// by a closing quote and anything else, it yields the original string and
/// the anything else.
pub proof fn lemma_parse_esc(v: Seq<char>, rest: Seq<char>)
    ensures
        parse_string_body(esc_string(v) + seq!['"'] + rest) == Some((v, rest)),
    decreases v.len(),
{
    let s = esc_string(v) + seq!['"'] + rest;
    if v.len() == 0 {
        assert(s.first() == '"');
        assert(s.drop_first() =~= rest);
        assert(Some((Seq::<char>::empty(), s.drop_first())) == parse_string_body(s));
        assert(parse_string_body(s) == Some((v, rest)));
    } else {
        let c = v.first();
        let tail = esc_string(v.drop_first()) + seq!['"'] + rest;
        assert(s =~= esc_char(c) + tail);
        lemma_parse_esc(v.drop_first(), rest);
        let e = esc_char(c);
        assert(forall|k: int| 0 <= k < e.len() ==> s[k] == e[k]);
        if c == '"' || c == '\\' {
            assert(s.first() == '\\');
            assert(s[1] == c);
            assert(is_named_escape(s[1]));
            assert(unescape_named(s[1]) == c);
            assert(s.skip(2) =~= tail);
            assert(seq![c] + v.drop_first() =~= v);
        } else if c == '\u{8}' || c == '\t' || c == '\n' || c == '\u{c}' || c == '\r' {
            assert(s.first() == '\\');
            assert(is_named_escape(s[1]));
            assert(unescape_named(s[1]) == c);
            assert(s.skip(2) =~= tail);
            assert(seq![c] + v.drop_first() =~= v);
        } else if (c as u32) < 32 {
            assert(s.first() == '\\');
            assert(s[1] == 'u');
            assert(!is_named_escape('u'));
            assert(s[2] == '0');
            assert(s[3] == '0');
            let hi = (c as u32 / 16) as int;
            let lo = (c as u32 % 16) as int;
            assert(s[4] == hex_lower(hi));
            assert(s[5] == hex_lower(lo));
            lemma_hex_lower_val(hi);
            lemma_hex_lower_val(lo);
            assert(hex_val(s[4]) * 16 + hex_val(s[5]) == c as u32) by {
                assert(hex_val(s[4]) == hi);
                assert(hex_val(s[5]) == lo);
                assert(hi * 16 + lo == c as u32) by (nonlinear_arith)
                    requires
                        hi == c as u32 / 16,
                        lo == c as u32 % 16,
                ;
            }
            lemma_char_value_round_trip(c);
            assert(((hex_val(s[4]) * 16 + hex_val(s[5])) as char) == c);
            assert(s.len() >= 6);
            assert(s.skip(6) =~= tail);
            assert(seq![c] + v.drop_first() =~= v);
        } else {
            assert(s.first() == c);
            assert(c != '"' && c != '\\');
            assert(!((s.first() as u32) < 32));
            assert(s.drop_first() =~= tail);
            assert(seq![c] + v.drop_first() =~= v);
        }
    }
}

/// Reading the digits of `n` multiplies the accumulator by the right power
/// of ten, adds `n`, and goes on with whatever follows.
proof fn lemma_digits_loop(n: nat, rest: Seq<char>, acc: nat)
    ensures
        parse_digits_loop(dec_digits(n) + rest, acc) == parse_digits_loop(
            rest,
            (acc * pow10(dec_digits(n).len()) + n) as nat,
        ),
    decreases n,
{
    lemma_dec_digits_shape(n);
    let s = dec_digits(n) + rest;
    if n < 10 {
        assert(s.first() == digit_char(n as int)) by {
            assert(dec_digits(n)[0] == digit_char(n as int));
        }
        assert(is_digit_char(s.first()));
        assert(digit_val(s.first()) == n);
        assert(s.drop_first() =~= rest);
        assert(pow10(1) == 10 * pow10(0));
        assert(parse_digits_loop(s, acc) == parse_digits_loop(rest, (acc * 10 + n) as nat));
        assert(acc * 10 == acc * pow10(1)) by (nonlinear_arith)
            requires
                pow10(1) == 10,
        ;
    } else {
        let q = n / 10;
        let r = n % 10;
        let k = dec_digits(q).len();
        assert(dec_digits(n) == dec_digits(q).push(digit_char(r as int)));
        let rest1 = seq![digit_char(r as int)] + rest;
        assert(s =~= dec_digits(q) + rest1);
        assert(rest1.first() == digit_char(r as int));
        assert(is_digit_char(rest1.first()) && digit_val(rest1.first()) == r) by {
            lemma_dec_digits_shape(r);
            assert(dec_digits(r)[0] == digit_char(r as int));
        }
        lemma_digits_loop(q, rest1, acc);
        let acc1 = (acc * pow10(k) + q) as nat;
        assert(parse_digits_loop(s, acc) == parse_digits_loop(rest1, acc1));
        assert(rest1.drop_first() =~= rest);
        assert(parse_digits_loop(rest1, acc1) == parse_digits_loop(rest, (acc1 * 10 + r) as nat));
        assert(dec_digits(n).len() == k + 1);
        assert(acc1 * 10 + r == acc * pow10(k + 1) + n) by {
            assert(pow10(k + 1) == 10 * pow10(k));
            assert((acc * pow10(k) + q) * 10 == acc * (10 * pow10(k)) + q * 10) by (
            nonlinear_arith);
            assert(q * 10 + r == n);
        }
    }
}

/// A decimal representation followed by a non-digit parses back to its
/// number.
pub proof fn lemma_parse_number_of_dec(n: nat, rest: Seq<char>)
    requires
        rest.len() == 0 || !is_digit_char(rest.first()),
    ensures
        parse_number(dec_digits(n) + rest) == Some((n, rest)),
{
    lemma_dec_digits_shape(n);
    let s = dec_digits(n) + rest;
    assert(s.first() == dec_digits(n)[0]);
    assert(is_digit_char(s.first()));
    lemma_digits_loop(n, rest, 0);
    assert(0 * pow10(dec_digits(n).len()) + n == n) by (nonlinear_arith);
    assert(parse_digits_loop(rest, n) == (n, rest));
}

/// An encoded element followed by anything parses back to its three
/// strings and the anything.
pub proof fn lemma_parse_element_of_ser(
    a: Seq<char>,
    b: Seq<char>,
    c: Seq<char>,
    rest: Seq<char>,
)
    ensures
        parse_element(ser_element3(a, b, c) + rest) == Some(((a, b, c), rest)),
{
    let s = ser_element3(a, b, c) + rest;
    let t1 = esc_string(a) + seq!['"'] + (lit_dest() + (esc_string(b) + seq!['"'] + (lit_id() + (
    esc_string(c) + seq!['"'] + (seq!['}'] + rest)))));
    assert(s =~= lit_src() + t1);
    lemma_parse_lit_exact(lit_src(), t1);
    lemma_parse_esc(
        a,
        lit_dest() + (esc_string(b) + seq!['"'] + (lit_id() + (esc_string(c) + seq!['"'] + (
        seq!['}'] + rest)))),
    );
    lemma_parse_lit_exact(
        lit_dest(),
        esc_string(b) + seq!['"'] + (lit_id() + (esc_string(c) + seq!['"'] + (seq!['}'] + rest))),
    );
    lemma_parse_esc(b, lit_id() + (esc_string(c) + seq!['"'] + (seq!['}'] + rest)));
    lemma_parse_lit_exact(lit_id(), esc_string(c) + seq!['"'] + (seq!['}'] + rest));
    lemma_parse_esc(c, seq!['}'] + rest);
    lemma_parse_lit_exact(seq!['}'], rest);
}

/// A non-empty encoded element list, the closing bracket, and anything
/// parse back to the elements and the anything.
#[verifier::rlimit(100)]
proof fn lemma_parse_elements_ne_of_ser(
    es: Seq<(Seq<char>, Seq<char>, Seq<char>)>,
    rest: Seq<char>,
)
    requires
        es.len() >= 1,
    ensures
        parse_elements_ne(ser_elements3(es) + seq![']'] + rest) == Some((es, rest)),
    decreases es.len(),
{
    let e = es[0];
    let s = ser_elements3(es) + seq![']'] + rest;
    if es.len() == 1 {
        assert(s =~= ser_element3(e.0, e.1, e.2) + (seq![']'] + rest));
        lemma_parse_element_of_ser(e.0, e.1, e.2, seq![']'] + rest);
        let r1 = seq![']'] + rest;
        assert(r1.first() == ']');
        assert(r1.first() != ',');
        assert(r1.drop_first() =~= rest);
        assert(seq![e] =~= es);
    } else {
        let more = ser_elements3(es.drop_first()) + seq![']'] + rest;
        assert(s =~= ser_element3(e.0, e.1, e.2) + (seq![','] + more));
        lemma_parse_element_of_ser(e.0, e.1, e.2, seq![','] + more);
        let r1 = seq![','] + more;
        assert(r1.first() == ',');
        assert(r1.len() < s.len()) by {
            assert(ser_element3(e.0, e.1, e.2).len() >= lit_src().len());
        }
        assert(r1.drop_first() =~= more);
        lemma_parse_elements_ne_of_ser(es.drop_first(), rest);
        assert(seq![e] + es.drop_first() =~= es);
    }
}

/// The encoded element list, the closing bracket, and anything parse back
/// to the elements and the anything.
pub proof fn lemma_parse_elements_of_ser(
    es: Seq<(Seq<char>, Seq<char>, Seq<char>)>,
    rest: Seq<char>,
)
    ensures
        parse_elements(ser_elements3(es) + seq![']'] + rest) == Some((es, rest)),
{
    let s = ser_elements3(es) + seq![']'] + rest;
    if es.len() == 0 {
        assert(s.first() == ']');
        assert(s.drop_first() =~= rest);
        assert(Seq::<(Seq<char>, Seq<char>, Seq<char>)>::empty() =~= es);
    } else {
        assert(s.first() == ser_element3(es[0].0, es[0].1, es[0].2)[0]);
        assert(s.first() == '{');
        lemma_parse_elements_ne_of_ser(es, rest);
    }
}

/// The parser inverts the encoder: an encoded plan document parses back to
/// exactly the version, platform, path and elements it was made from.
pub proof fn lemma_parse_plan_of_ser(
    version: nat,
    platform: Seq<char>,
    path: Seq<char>,
    es: Seq<(Seq<char>, Seq<char>, Seq<char>)>,
)
    ensures
        parse_plan(ser_plan_parts(version, platform, path, es)) == Some(
            (version, platform, path, es),
        ),
{
    let s = ser_plan_parts(version, platform, path, es);
    let t1 = dec_digits(version) + (lit_platform() + (esc_string(platform) + seq!['"'] + (
    lit_path() + (esc_string(path) + seq!['"'] + (lit_plan() + (ser_elements3(es) + seq![']'] + (
    seq!['}'])))))));
    assert(s =~= lit_version() + t1);
    lemma_parse_lit_exact(lit_version(), t1);
    let t2 = lit_platform() + (esc_string(platform) + seq!['"'] + (lit_path() + (esc_string(path)
        + seq!['"'] + (lit_plan() + (ser_elements3(es) + seq![']'] + (seq!['}']))))));
    assert(t2.first() == ',');
    assert(!is_digit_char(','));
    lemma_parse_number_of_dec(version, t2);
    let t3 = esc_string(platform) + seq!['"'] + (lit_path() + (esc_string(path) + seq!['"'] + (
    lit_plan() + (ser_elements3(es) + seq![']'] + (seq!['}'])))));
    lemma_parse_lit_exact(lit_platform(), t3);
    let t4 = lit_path() + (esc_string(path) + seq!['"'] + (lit_plan() + (ser_elements3(es)
        + seq![']'] + (seq!['}']))));
    lemma_parse_esc(platform, t4);
    let t5 = esc_string(path) + seq!['"'] + (lit_plan() + (ser_elements3(es) + seq![']'] + (
    seq!['}'])));
    lemma_parse_lit_exact(lit_path(), t5);
    let t6 = lit_plan() + (ser_elements3(es) + seq![']'] + (seq!['}']));
    lemma_parse_esc(path, t6);
    let t7 = ser_elements3(es) + seq![']'] + (seq!['}']);
    lemma_parse_lit_exact(lit_plan(), t7);
    let t8: Seq<char> = seq!['}'];
    assert(t7 =~= ser_elements3(es) + seq![']'] + t8);
    lemma_parse_elements_of_ser(es, t8);
    assert(t8.len() == 1 && t8[0] == '}');
}

/// Appends the escape sequence of one character.
fn push_escaped_char(out: &mut String, c: char)
    ensures
        final(out)@ == old(out)@ + esc_char(c),
{
    let ghost out0 = out@;
    if c == '"' {
        push_char(out, '\\');
        push_char(out, '"');
    } else if c == '\\' {
        push_char(out, '\\');
        push_char(out, '\\');
    } else if c == '\u{8}' {
        push_char(out, '\\');
        push_char(out, 'b');
    } else if c == '\t' {
        push_char(out, '\\');
        push_char(out, 't');
    } else if c == '\n' {
        push_char(out, '\\');
        push_char(out, 'n');
    } else if c == '\u{c}' {
        push_char(out, '\\');
        push_char(out, 'f');
    } else if c == '\r' {
        push_char(out, '\\');
        push_char(out, 'r');
    } else if (c as u32) < 32 {
        let u = c as u32;
        push_char(out, '\\');
        push_char(out, 'u');
        push_char(out, '0');
        push_char(out, '0');
        push_char(out, hex_lower_digit((u / 16) as u8));
        push_char(out, hex_lower_digit((u % 16) as u8));
    } else {
        push_char(out, c);
    }
    proof {
        assert(out@ =~= out0 + esc_char(c));
    }
}

/// The lower-case hexadecimal digit of a nibble, as an executable function.
fn hex_lower_digit(d: u8) -> (c: char)
    requires
        d < 16,
    ensures
        c == hex_lower(d as int),
{
    match d {
        0 => '0',
        1 => '1',
        2 => '2',
        3 => '3',
        4 => '4',
        5 => '5',
        6 => '6',
        7 => '7',
        8 => '8',
        9 => '9',
        10 => 'a',
        11 => 'b',
        12 => 'c',
        13 => 'd',
        14 => 'e',
        _ => 'f',
    }
}

/// Appends a string value in its escaped form.
pub(crate) fn append_escaped(out: &mut String, s: &str)
    ensures
        final(out)@ == old(out)@ + esc_string(s@),
{
    let n = s.unicode_len();
    let mut i: usize = 0;
    while i < n
        invariant
            i <= n,
            n == s@.len(),
            out@ == old(out)@ + esc_string(s@.take(i as int)),
        decreases n - i,
    {
        let c = s.get_char(i);
        push_escaped_char(out, c);
        i = i + 1;
        proof {
            assert(s@.take(i as int) =~= s@.take(i as int - 1).push(s@[i as int - 1]));
            lemma_esc_string_snoc(s@.take(i as int - 1), s@[i as int - 1]);
            assert(old(out)@ + esc_string(s@.take(i as int)) =~= (old(out)@ + esc_string(
                s@.take(i as int - 1),
            )) + esc_char(s@[i as int - 1]));
        }
    }
    proof {
        assert(s@.take(n as int) =~= s@);
        assert(out@ =~= old(out)@ + esc_string(s@));
    }
}

/// Consumes the exact text `lit` at position `i` of `cs`.
pub(crate) fn scan_lit(cs: &Vec<char>, i: usize, lit: &str) -> (r: Option<usize>)
    requires
        i <= cs@.len(),
    ensures
        match r {
            Some(j) => i <= j <= cs@.len() && j - i == lit@.len() && parse_lit(
                cs@.skip(i as int),
                lit@,
            ) == Some(cs@.skip(j as int)),
            None => parse_lit(cs@.skip(i as int), lit@) is None,
        },
{
    let n = lit.unicode_len();
    if cs.len() - i < n {
        proof {
            assert(cs@.skip(i as int).len() < lit@.len());
        }
        return None;
    }
    let mut k: usize = 0;
    while k < n
        invariant
            k <= n,
            n == lit@.len(),
            i + n <= cs@.len(),
            i + n <= usize::MAX,
            forall|m: int| 0 <= m < k ==> cs@[i + m] == lit@[m],
        decreases n - k,
    {
        let c = cs[i + k];
        let l = lit.get_char(k);
        if c != l {
            proof {
                let s = cs@.skip(i as int);
                assert(s.take(lit@.len() as int)[k as int] == cs@[i + k]);
                assert(s.take(lit@.len() as int) != lit@);
            }
            return None;
        }
        k = k + 1;
    }
    proof {
        let s = cs@.skip(i as int);
        assert(s.take(lit@.len() as int) =~= lit@);
        assert(s.skip(lit@.len() as int) =~= cs@.skip(i + n));
    }
    Some(i + n)
}

/// Consumes the version number at position `i`: reports whether its value
/// is exactly 1 and where it ends.
pub(crate) fn scan_version(cs: &Vec<char>, i: usize) -> (r: Option<(bool, usize)>)
    requires
        i <= cs@.len(),
    ensures
        match r {
            Some((one, j)) => i <= j <= cs@.len() && match parse_number(cs@.skip(i as int)) {
                Some((v, rest)) => rest == cs@.skip(j as int) && (one <==> v == 1),
                None => false,
            },
            None => parse_number(cs@.skip(i as int)) is None,
        },
{
    if i >= cs.len() {
        return None;
    }
    let c0 = cs[i];
    if !((c0 as u32) >= 48 && (c0 as u32) <= 57) {
        return None;
    }
    let ghost s0 = cs@.skip(i as int);
    let mut j = i;
    let mut acc: u64 = 0;
    let ghost mut specacc: nat = 0;
    proof {
        assert(s0.first() == cs@[i as int]);
        assert(is_digit_char(s0.first()));
        assert(cs@.skip(j as int) == s0);
    }
    while j < cs.len() && (cs[j] as u32) >= 48 && (cs[j] as u32) <= 57
        invariant
            i <= j <= cs@.len(),
            parse_digits_loop(s0, 0) == parse_digits_loop(cs@.skip(j as int), specacc),
            specacc < 1000000 ==> acc == specacc,
            specacc >= 1000000 ==> acc >= 1000000,
            acc < 10000000,
        decreases cs@.len() - j,
    {
        let c = cs[j];
        let d = (c as u32 - 48) as u64;
        proof {
            let rem = cs@.skip(j as int);
            assert(rem.first() == cs@[j as int]);
            assert(is_digit_char(rem.first()));
            assert(digit_val(rem.first()) == d);
            assert(rem.drop_first() =~= cs@.skip(j as int + 1));
            assert(parse_digits_loop(rem, specacc) == parse_digits_loop(
                cs@.skip(j as int + 1),
                (specacc * 10 + digit_val(rem.first())) as nat,
            ));
            specacc = (specacc * 10 + digit_val(rem.first())) as nat;
        }
        if acc < 1000000 {
            acc = acc * 10 + d;
        }
        j = j + 1;
    }
    proof {
        let rem = cs@.skip(j as int);
        if rem.len() > 0 {
            assert(rem.first() == cs@[j as int]);
            assert(!is_digit_char(rem.first()));
        }
        assert(parse_digits_loop(rem, specacc) == (specacc, rem));
        assert(parse_number(s0) == Some((specacc, cs@.skip(j as int))));
    }
    Some((acc == 1, j))
}

/// The character of a scalar value below 32, as an executable function.
fn char_from_small(v: u8) -> (c: char)
    requires
        v < 32,
    ensures
        c as u32 == v as u32,
{
    match v {
        0 => '\u{0}',
        1 => '\u{1}',
        2 => '\u{2}',
        3 => '\u{3}',
        4 => '\u{4}',
        5 => '\u{5}',
        6 => '\u{6}',
        7 => '\u{7}',
        8 => '\u{8}',
        9 => '\u{9}',
        10 => '\u{a}',
        11 => '\u{b}',
        12 => '\u{c}',
        13 => '\u{d}',
        14 => '\u{e}',
        15 => '\u{f}',
        16 => '\u{10}',
        17 => '\u{11}',
        18 => '\u{12}',
        19 => '\u{13}',
        20 => '\u{14}',
        21 => '\u{15}',
        22 => '\u{16}',
        23 => '\u{17}',
        24 => '\u{18}',
        25 => '\u{19}',
        26 => '\u{1a}',
        27 => '\u{1b}',
        28 => '\u{1c}',
        29 => '\u{1d}',
        30 => '\u{1e}',
        _ => '\u{1f}',
    }
}

/// Consumes a quoted string body at position `i` of `cs`, undoing the
/// escapes, up to and including the closing quote.
pub(crate) fn scan_string_body(cs: &Vec<char>, i: usize) -> (r: Option<(String, usize)>)
    requires
        i <= cs@.len(),
    ensures
        match r {
            Some((v, j)) => i <= j <= cs@.len() && parse_string_body(cs@.skip(i as int)) == Some(
                (v@, cs@.skip(j as int)),
            ),
            None => parse_string_body(cs@.skip(i as int)) is None,
        },
{
    let ghost s0 = cs@.skip(i as int);
    let mut out = String::new();
    let mut pos = i;
    loop
        invariant
            i <= pos <= cs@.len(),
            s0 == cs@.skip(i as int),
            parse_string_body(s0) == (match parse_string_body(cs@.skip(pos as int)) {
                Some((v, rest)) => Some((out@ + v, rest)),
                None => None::<(Seq<char>, Seq<char>)>,
            }),
        decreases cs@.len() - pos,
    {
        if pos >= cs.len() {
            proof {
                assert(cs@.skip(pos as int).len() == 0);
            }
            return None;
        }
        let c = cs[pos];
        let ghost rem = cs@.skip(pos as int);
        proof {
            assert(rem.first() == cs@[pos as int]);
        }
        if c == '"' {
            proof {
                assert(rem.drop_first() =~= cs@.skip(pos as int + 1));
                assert(out@ + Seq::<char>::empty() =~= out@);
            }
            return Some((out, pos + 1));
        } else if c == '\\' {
            if cs.len() - pos < 2 {
                proof {
                    assert(rem.len() < 2);
                }
                return None;
            }
            let e = cs[pos + 1];
            proof {
                assert(rem[1] == cs@[pos as int + 1]);
            }
            let ghost out0 = out@;
            if e == '"' || e == '\\' || e == '/' || e == 'b' || e == 't' || e == 'n' || e == 'f'
                || e == 'r' {
                let u = if e == '"' {
                    '"'
                } else if e == '\\' {
                    '\\'
                } else if e == '/' {
                    '/'
                } else if e == 'b' {
                    '\u{8}'
                } else if e == 't' {
                    '\t'
                } else if e == 'n' {
                    '\n'
                } else if e == 'f' {
                    '\u{c}'
                } else {
                    '\r'
                };
                push_char(&mut out, u);
                pos = pos + 2;
                proof {
                    assert(is_named_escape(rem[1]));
                    assert(u == unescape_named(rem[1]));
                    assert(rem.skip(2) =~= cs@.skip(pos as int));
                    assert(out@ =~= out0.push(u));
                    if parse_string_body(cs@.skip(pos as int)) is Some {
                        let (v, rest) = parse_string_body(cs@.skip(pos as int))->0;
                        assert(out0 + (seq![u] + v) =~= out@ + v);
                    }
                }
            } else if e == 'u' {
                if cs.len() - pos < 6 {
                    proof {
                        assert(rem.len() < 6);
                    }
                    return None;
                }
                let c2 = cs[pos + 2];
                let c3 = cs[pos + 3];
                let c4 = cs[pos + 4];
                let c5 = cs[pos + 5];
                proof {
                    assert(rem[2] == cs@[pos as int + 2]);
                    assert(rem[3] == cs@[pos as int + 3]);
                    assert(rem[4] == cs@[pos as int + 4]);
                    assert(rem[5] == cs@[pos as int + 5]);
                    assert(!is_named_escape('u'));
                }
                if c2 != '0' || c3 != '0' {
                    return None;
                }
                let h1 = crate::filesystem::hex_value(c4);
                let h2 = crate::filesystem::hex_value(c5);
                if h1 >= 16 || h2 >= 16 {
                    return None;
                }
                let val = h1 * 16 + h2;
                if val >= 32 {
                    return None;
                }
                let u = char_from_small(val);
                push_char(&mut out, u);
                pos = pos + 6;
                proof {
                    lemma_char_value_round_trip(u);
                    assert(((hex_val(rem[4]) * 16 + hex_val(rem[5])) as char) == u);
                    assert(rem.skip(6) =~= cs@.skip(pos as int));
                    assert(out@ =~= out0.push(u));
                    if parse_string_body(cs@.skip(pos as int)) is Some {
                        let (v, rest) = parse_string_body(cs@.skip(pos as int))->0;
                        assert(out0 + (seq![u] + v) =~= out@ + v);
                    }
                }
            } else {
                proof {
                    assert(!is_named_escape(rem[1]));
                    assert(rem[1] != 'u');
                }
                return None;
            }
        } else if (c as u32) < 32 {
            return None;
        } else {
            let ghost out0 = out@;
            push_char(&mut out, c);
            pos = pos + 1;
            proof {
                assert(rem.drop_first() =~= cs@.skip(pos as int));
                assert(out@ =~= out0.push(c));
                if parse_string_body(cs@.skip(pos as int)) is Some {
                    let (v, rest) = parse_string_body(cs@.skip(pos as int))->0;
                    assert(out0 + (seq![c] + v) =~= out@ + v);
                }
            }
        }
    }
}

/// The views of the three strings of a scanned element.
pub open spec fn views3(es: Seq<(String, String, String)>) -> Seq<
    (Seq<char>, Seq<char>, Seq<char>),
> {
    es.map_values(|t: (String, String, String)| (t.0@, t.1@, t.2@))
}

/// Consumes one encoded element at position `i` of `cs`.
pub(crate) fn scan_element(cs: &Vec<char>, i: usize) -> (r: Option<(String, String, String, usize)>)
    requires
        i <= cs@.len(),
    ensures
        match r {
            Some((a, b, c, j)) => i < j <= cs@.len() && parse_element(cs@.skip(i as int)) == Some(
                ((a@, b@, c@), cs@.skip(j as int)),
            ),
            None => parse_element(cs@.skip(i as int)) is None,
        },
{
    proof {
        reveal_strlit("{\"src\":\"");
        reveal_strlit(",\"dest\":\"");
        reveal_strlit(",\"id\":\"");
        reveal_strlit("}");
        assert("{\"src\":\""@ =~= lit_src());
        assert(",\"dest\":\""@ =~= lit_dest());
        assert(",\"id\":\""@ =~= lit_id());
        assert("}"@ =~= seq!['}']);
    }
    let j1 = match scan_lit(cs, i, "{\"src\":\"") {
        Some(j) => j,
        None => {
            return None;
        },
    };
    let (a, j2) = match scan_string_body(cs, j1) {
        Some(p) => p,
        None => {
            return None;
        },
    };
    let j3 = match scan_lit(cs, j2, ",\"dest\":\"") {
        Some(j) => j,
        None => {
            return None;
        },
    };
    let (b, j4) = match scan_string_body(cs, j3) {
        Some(p) => p,
        None => {
            return None;
        },
    };
    let j5 = match scan_lit(cs, j4, ",\"id\":\"") {
        Some(j) => j,
        None => {
            return None;
        },
    };
    let (c, j6) = match scan_string_body(cs, j5) {
        Some(p) => p,
        None => {
            return None;
        },
    };
    let j7 = match scan_lit(cs, j6, "}") {
        Some(j) => j,
        None => {
            return None;
        },
    };
    Some((a, b, c, j7))
}

/// Consumes the element list and its closing bracket at position `i`.
pub(crate) fn scan_elements(cs: &Vec<char>, i: usize) -> (r: Option<
    (Vec<(String, String, String)>, usize),
>)
    requires
        i <= cs@.len(),
    ensures
        match r {
            Some((es, j)) => i <= j <= cs@.len() && parse_elements(cs@.skip(i as int)) == Some(
                (views3(es@), cs@.skip(j as int)),
            ),
            None => parse_elements(cs@.skip(i as int)) is None,
        },
{
    if i < cs.len() {
        let c0 = cs[i];
        if c0 == ']' {
            let empty: Vec<(String, String, String)> = Vec::new();
            proof {
                assert(cs@.skip(i as int).first() == cs@[i as int]);
                assert(cs@.skip(i as int).drop_first() =~= cs@.skip(i as int + 1));
                assert(views3(empty@) =~= Seq::<(Seq<char>, Seq<char>, Seq<char>)>::empty());
            }
            return Some((empty, i + 1));
        }
    }
    proof {
        let s = cs@.skip(i as int);
        if s.len() > 0 {
            assert(s.first() == cs@[i as int]);
        }
        assert(parse_elements(s) == parse_elements_ne(s));
    }
    let mut acc: Vec<(String, String, String)> = Vec::new();
    let mut pos = i;
    loop
        invariant
            i <= pos <= cs@.len(),
            parse_elements(cs@.skip(i as int)) == (match parse_elements_ne(cs@.skip(pos as int)) {
                Some((es, rest)) => Some((views3(acc@) + es, rest)),
                None => None::<(Seq<(Seq<char>, Seq<char>, Seq<char>)>, Seq<char>)>,
            }),
        decreases cs@.len() - pos,
    {
        let ghost s = cs@.skip(pos as int);
        let (a, b, c, j) = match scan_element(cs, pos) {
            Some(p) => p,
            None => {
                return None;
            },
        };
        let ghost e3 = (a@, b@, c@);
        let ghost acc0 = acc@;
        acc.push((a, b, c));
        proof {
            assert(views3(acc@) =~= views3(acc0).push(e3));
        }
        if j < cs.len() {
            let sep = cs[j];
            let ghost rest = cs@.skip(j as int);
            proof {
                assert(rest.first() == cs@[j as int]);
                assert(rest.len() < s.len());
            }
            if sep == ',' {
                proof {
                    assert(rest.drop_first() =~= cs@.skip(j as int + 1));
                }
                pos = j + 1;
                proof {
                    if parse_elements_ne(cs@.skip(pos as int)) is Some {
                        let (es, r2) = parse_elements_ne(cs@.skip(pos as int))->0;
                        assert(views3(acc0) + (seq![e3] + es) =~= views3(acc@) + es);
                    }
                }
            } else if sep == ']' {
                proof {
                    assert(rest.drop_first() =~= cs@.skip(j as int + 1));
                    assert(views3(acc0) + seq![e3] =~= views3(acc@));
                }
                return Some((acc, j + 1));
            } else {
                return None;
            }
        } else {
            proof {
                assert(cs@.skip(j as int).len() == 0);
            }
            return None;
        }
    }
}

} // verus!
