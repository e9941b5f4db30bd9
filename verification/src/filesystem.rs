use vstd::prelude::*;
use vstd::string::StrSliceExecFns;

use crate::strutil::push_char;

verus! {

/// The file-system side of the rename planner that can be reasoned about:
/// the textual codec for durable file identifiers. A platform's identifier
/// is a fixed-size byte block; its textual form is uppercase hexadecimal
/// with the byte order reversed relative to storage and no separators.
pub struct FileSystem {}

/// The uppercase hexadecimal digit of value `d` (meaningful for 0 to 15).
pub open spec fn hex_char(d: int) -> char {
    if d == 0 {
        '0'
    } else if d == 1 {
        '1'
    } else if d == 2 {
        '2'
    } else if d == 3 {
        '3'
    } else if d == 4 {
        '4'
    } else if d == 5 {
        '5'
    } else if d == 6 {
        '6'
    } else if d == 7 {
        '7'
    } else if d == 8 {
        '8'
    } else if d == 9 {
        '9'
    } else if d == 10 {
        'A'
    } else if d == 11 {
        'B'
    } else if d == 12 {
        'C'
    } else if d == 13 {
        'D'
    } else if d == 14 {
        'E'
    } else {
        'F'
    }
}

/// The two uppercase hexadecimal digits of a byte, high nibble first.
pub open spec fn hex_byte(b: u8) -> Seq<char> {
    seq![hex_char(b as int / 16), hex_char(b as int % 16)]
}

/// The identity string of a byte block: hexadecimal pairs, last byte first.
pub open spec fn id_encoding(b: Seq<u8>) -> Seq<char>
    decreases b.len(),
{
    if b.len() == 0 {
        Seq::empty()
    } else {
        hex_byte(b.last()) + id_encoding(b.drop_last())
    }
}

/// The value of a hexadecimal digit character, either case; 16 marks a
/// character that is no hexadecimal digit.
pub open spec fn hex_val(c: char) -> int {
    if 48 <= c as u32 <= 57 {
        c as u32 - 48
    } else if 65 <= c as u32 <= 70 {
        c as u32 - 55
    } else if 97 <= c as u32 <= 102 {
        c as u32 - 87
    } else {
        16
    }
}

/// Whether `c` is a hexadecimal digit.
pub open spec fn is_hex_char(c: char) -> bool {
    hex_val(c) < 16
}

/// A well-formed identity string: an even number of hexadecimal digits.
pub open spec fn valid_id_string(s: Seq<char>) -> bool {
    &&& s.len() % 2 == 0
    &&& forall|k: int| 0 <= k < s.len() ==> is_hex_char(#[trigger] s[k])
}

/// The byte block denoted by an identity string: the first digit pair is
/// the last byte.
pub open spec fn id_decoding(s: Seq<char>) -> Seq<u8>
    decreases s.len(),
{
    if s.len() < 2 {
        Seq::empty()
    } else {
        id_decoding(s.skip(2)).push(((hex_val(s[0]) * 16 + hex_val(s[1])) as u8))
    }
}

/// Encoding one more byte at the front of the block prepends nothing: its
/// digits go to the end of the string.
pub proof fn lemma_id_encoding_step(b: Seq<u8>)
    requires
        b.len() >= 1,
    ensures
        id_encoding(b) == id_encoding(b.drop_first()) + hex_byte(b.first()),
    decreases b.len(),
{
    if b.len() == 1 {
        assert(b.drop_last() =~= Seq::<u8>::empty());
        assert(b.drop_first() =~= Seq::<u8>::empty());
        assert(id_encoding(b) =~= id_encoding(b.drop_first()) + hex_byte(b.first()));
    } else {
        lemma_id_encoding_step(b.drop_last());
        assert(b.drop_last().drop_first() =~= b.drop_first().drop_last());
        assert(b.drop_last().first() == b.first());
        assert(b.drop_first().last() == b.last());
        assert(hex_byte(b.last()) + (id_encoding(b.drop_first().drop_last()) + hex_byte(b.first()))
            =~= (hex_byte(b.last()) + id_encoding(b.drop_first().drop_last())) + hex_byte(
            b.first(),
        ));
    }
}

/// Decoding inverts encoding: the identity string of a byte block denotes
/// exactly that block, and is always well formed.
pub proof fn lemma_file_id_round_trip(b: Seq<u8>)
    ensures
        id_decoding(id_encoding(b)) == b,
        valid_id_string(id_encoding(b)),
        id_encoding(b).len() == 2 * b.len(),
    decreases b.len(),
{
    if b.len() == 0 {
        assert(id_decoding(id_encoding(b)) =~= b);
    } else {
        lemma_file_id_round_trip(b.drop_last());
        let s = id_encoding(b);
        let x = b.last();
        assert(s == hex_byte(x) + id_encoding(b.drop_last()));
        assert(s.len() == 2 + id_encoding(b.drop_last()).len());
        assert(s.skip(2) =~= id_encoding(b.drop_last()));
        assert(s[0] == hex_char(x as int / 16));
        assert(s[1] == hex_char(x as int % 16));
        assert(hex_val(hex_char(x as int / 16)) == x as int / 16);
        assert(hex_val(hex_char(x as int % 16)) == x as int % 16);
        assert((x as int / 16) * 16 + x as int % 16 == x as int);
        assert(id_decoding(s) == id_decoding(s.skip(2)).push(x));
        assert(id_decoding(s) =~= b.drop_last().push(x));
        assert(b.drop_last().push(x) =~= b);
        assert forall|k: int| 0 <= k < s.len() implies is_hex_char(#[trigger] s[k]) by {
            if k >= 2 {
                assert(s[k] == id_encoding(b.drop_last())[k - 2]);
            }
        }
    }
}

/// The uppercase hexadecimal digit of a nibble, as an executable function.
fn hex_digit(d: u8) -> (c: char)
    requires
        d < 16,
    ensures
        c == hex_char(d as int),
{
    match d {
        0 => '0',
        1 => '1',
        2 => '2',
        3 => '3',
        4 => '4',
        5 => '5',
        6 => '6',
        7 => '7',
        8 => '8',
        9 => '9',
        10 => 'A',
        11 => 'B',
        12 => 'C',
        13 => 'D',
        14 => 'E',
        _ => 'F',
    }
}

/// The value of a hexadecimal digit character, 16 for any other character.
pub(crate) fn hex_value(c: char) -> (v: u8)
    ensures
        v as int == hex_val(c),
{
    let u = c as u32;
    if 48 <= u && u <= 57 {
        (u - 48) as u8
    } else if 65 <= u && u <= 70 {
        (u - 55) as u8
    } else if 97 <= u && u <= 102 {
        (u - 87) as u8
    } else {
        16
    }
}

impl FileSystem {
    /// Renders a raw file identifier as text: each byte as two uppercase
    /// hexadecimal digits, last byte first, with no separators.
    pub fn encode_file_id(id: &Vec<u8>) -> (s: String)
        ensures
            s@ == id_encoding(id@),
    {
        let mut s = String::new();
        let mut i = id.len();
        while i > 0
            invariant
                i <= id@.len(),
                s@ == id_encoding(id@.skip(i as int)),
            decreases i,
        {
            let b = id[i - 1];
            push_char(&mut s, hex_digit(b / 16));
            push_char(&mut s, hex_digit(b % 16));
            i = i - 1;
            proof {
                let rest = id@.skip(i as int);
                assert(rest.first() == id@[i as int]);
                assert(rest.drop_first() =~= id@.skip(i as int + 1));
                lemma_id_encoding_step(rest);
                assert(s@ =~= id_encoding(id@.skip(i as int + 1)) + hex_byte(id@[i as int]));
            }
        }
        proof {
            assert(id@.skip(0) =~= id@);
        }
        s
    }

    /// Reads an identity string back into its raw byte form: pairs of
    /// hexadecimal digits, reversed relative to the encoding direction.
    /// Succeeds exactly on an even number of hexadecimal digits.
    pub fn decode_file_id(s: &str) -> (r: Result<Vec<u8>, String>)
        ensures
            r is Ok <==> valid_id_string(s@),
            r is Ok ==> r->Ok_0@ == id_decoding(s@),
    {
        let n = s.unicode_len();
        if n % 2 != 0 {
            return Err(String::from_str("invalid file id string"));
        }
        let mut v: Vec<u8> = Vec::new();
        let mut i = n;
        while i > 0
            invariant
                i <= n,
                i % 2 == 0,
                n == s@.len(),
                v@ == id_decoding(s@.skip(i as int)),
                forall|k: int| i <= k < n ==> is_hex_char(#[trigger] s@[k]),
            decreases i,
        {
            let c1 = s.get_char(i - 2);
            let c2 = s.get_char(i - 1);
            let h1 = hex_value(c1);
            let h2 = hex_value(c2);
            if h1 >= 16 || h2 >= 16 {
                return Err(String::from_str("invalid file id string"));
            }
            v.push(h1 * 16 + h2);
            i = i - 2;
            proof {
                let rest = s@.skip(i as int);
                assert(rest.len() >= 2);
                assert(rest[0] == s@[i as int]);
                assert(rest[1] == s@[i as int + 1]);
                assert(rest.skip(2) =~= s@.skip(i as int + 2));
                assert(v@ =~= id_decoding(s@.skip(i as int + 2)).push(
                    ((hex_val(rest[0]) * 16 + hex_val(rest[1])) as u8),
                ));
            }
        }
        proof {
            assert(s@.skip(0) =~= s@);
        }
        Ok(v)
    }
}

} // verus!
