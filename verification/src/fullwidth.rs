use vstd::prelude::*;
use vstd::string::StrSliceExecFns;

use crate::strutil::push_char;

verus! {

/// Conversion between half-width (ASCII) decimal digits and their full-width
/// counterparts. Characters other than the ten decimal digits pass through
/// unchanged.
pub struct FullWidth {}

/// The full-width counterpart of a half-width decimal digit; any other
/// character is returned unchanged.
pub open spec fn fullwidth_of(c: char) -> char {
    if c == '0' {
        '０'
    } else if c == '1' {
        '１'
    } else if c == '2' {
        '２'
    } else if c == '3' {
        '３'
    } else if c == '4' {
        '４'
    } else if c == '5' {
        '５'
    } else if c == '6' {
        '６'
    } else if c == '7' {
        '７'
    } else if c == '8' {
        '８'
    } else if c == '9' {
        '９'
    } else {
        c
    }
}

/// The half-width counterpart of a full-width decimal digit; any other
/// character is returned unchanged.
pub open spec fn halfwidth_of(c: char) -> char {
    if c == '０' {
        '0'
    } else if c == '１' {
        '1'
    } else if c == '２' {
        '2'
    } else if c == '３' {
        '3'
    } else if c == '４' {
        '4'
    } else if c == '５' {
        '5'
    } else if c == '６' {
        '6'
    } else if c == '７' {
        '7'
    } else if c == '８' {
        '8'
    } else if c == '９' {
        '9'
    } else {
        c
    }
}

/// A string with every half-width decimal digit replaced by its full-width
/// counterpart.
pub open spec fn to_fullwidth(s: Seq<char>) -> Seq<char> {
    s.map_values(|c: char| fullwidth_of(c))
}

/// A string with every full-width decimal digit replaced by its half-width
/// counterpart.
pub open spec fn to_halfwidth(s: Seq<char>) -> Seq<char> {
    s.map_values(|c: char| halfwidth_of(c))
}

impl FullWidth {
    /// Replaces every half-width decimal digit of `s` by the full-width digit
    /// of the same value; all other characters are copied unchanged.
    pub fn halfwidth_to_fullwidth_number(s: &str) -> (r: String)
        ensures
            r@ == to_fullwidth(s@),
    {
        let n = s.unicode_len();
        let mut r = String::new();
        let mut i: usize = 0;
        while i < n
            invariant
                i <= n,
                n == s@.len(),
                r@ == to_fullwidth(s@.subrange(0, i as int)),
            decreases n - i,
        {
            let c = s.get_char(i);
            let fc = if c == '0' {
                '０'
            } else if c == '1' {
                '１'
            } else if c == '2' {
                '２'
            } else if c == '3' {
                '３'
            } else if c == '4' {
                '４'
            } else if c == '5' {
                '５'
            } else if c == '6' {
                '６'
            } else if c == '7' {
                '７'
            } else if c == '8' {
                '８'
            } else if c == '9' {
                '９'
            } else {
                c
            };
            push_char(&mut r, fc);
            i = i + 1;
            proof {
                assert(s@.subrange(0, i as int)
                    =~= s@.subrange(0, i as int - 1).push(s@[i as int - 1]));
                assert(to_fullwidth(s@.subrange(0, i as int))
                    =~= to_fullwidth(s@.subrange(0, i as int - 1)).push(fc));
            }
        }
        proof {
            assert(s@.subrange(0, n as int) =~= s@);
        }
        r
    }

    /// Replaces every full-width decimal digit of `s` by the half-width digit
    /// of the same value; all other characters are copied unchanged.
    pub fn fullwidth_to_halfwidth_number(s: &str) -> (r: String)
        ensures
            r@ == to_halfwidth(s@),
    {
        let n = s.unicode_len();
        let mut r = String::new();
        let mut i: usize = 0;
        while i < n
            invariant
                i <= n,
                n == s@.len(),
                r@ == to_halfwidth(s@.subrange(0, i as int)),
            decreases n - i,
        {
            let c = s.get_char(i);
            let hc = if c == '０' {
                '0'
            } else if c == '１' {
                '1'
            } else if c == '２' {
                '2'
            } else if c == '３' {
                '3'
            } else if c == '４' {
                '4'
            } else if c == '５' {
                '5'
            } else if c == '６' {
                '6'
            } else if c == '７' {
                '7'
            } else if c == '８' {
                '8'
            } else if c == '９' {
                '9'
            } else {
                c
            };
            push_char(&mut r, hc);
            i = i + 1;
            proof {
                assert(s@.subrange(0, i as int)
                    =~= s@.subrange(0, i as int - 1).push(s@[i as int - 1]));
                assert(to_halfwidth(s@.subrange(0, i as int))
                    =~= to_halfwidth(s@.subrange(0, i as int - 1)).push(hc));
            }
        }
        proof {
            assert(s@.subrange(0, n as int) =~= s@);
        }
        r
    }
}

} // verus!
