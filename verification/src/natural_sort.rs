use core::cmp::Ordering;
use vstd::prelude::*;
use vstd::string::StrSliceExecFns;

use crate::strutil::digit_val;
use crate::strutil::is_digit_char;

verus! {

/// Natural-order string comparison: contiguous digit runs are compared by
/// their numeric value, everything else character by character.
pub struct NaturalSort {}

/// The character at position `i`, or the NUL sentinel once `i` is past the
/// end; the sentinel orders below every character of a shorter string's
/// counterpart.
pub open spec fn char_at(s: Seq<char>, i: int) -> char {
    if 0 <= i < s.len() {
        s[i]
    } else {
        '\0'
    }
}

/// Every character of `s` in `[i, j)` is a decimal digit.
pub open spec fn all_digits(s: Seq<char>, i: int, j: int) -> bool {
    forall|k: int| i <= k < j ==> is_digit_char(#[trigger] s[k])
}

/// The first position at or after `i` that is past the end of `s` or holds a
/// non-digit: the exclusive end of the digit run starting at `i`.
pub open spec fn digit_run_end(s: Seq<char>, i: int) -> int
    decreases s.len() - i,
{
    if i < 0 || i >= s.len() || !is_digit_char(s[i]) {
        i
    } else {
        digit_run_end(s, i + 1)
    }
}

/// The numeric value of the digits of `s` in `[i, j)`; an empty range has
/// value zero.
pub open spec fn run_value(s: Seq<char>, i: int, j: int) -> nat
    decreases j - i,
{
    if i >= j {
        0
    } else {
        (run_value(s, i, j - 1) * 10 + digit_val(s[j - 1])) as nat
    }
}

/// Ten to the power `n`.
pub open spec fn pow10(n: nat) -> nat
    decreases n,
{
    if n == 0 {
        1
    } else {
        10 * pow10((n - 1) as nat)
    }
}

/// The comparison of two numeric values as an `Ordering`.
pub open spec fn value_order(va: nat, vb: nat) -> Ordering {
    if va < vb {
        Ordering::Less
    } else if va > vb {
        Ordering::Greater
    } else {
        Ordering::Equal
    }
}

/// The natural-order comparison of `a` and `b` from position `i` onward: the
/// shorter string is padded with a sentinel below every character; at the
/// first differing position, two digits start a numeric comparison of the
/// digit runs from that position, and any other pair decides the order
/// directly.
pub open spec fn cmp_from(a: Seq<char>, b: Seq<char>, i: int) -> Ordering
    decreases (if a.len() > b.len() {
        a.len()
    } else {
        b.len()
    }) - i,
{
    let m: int = if a.len() > b.len() {
        a.len() as int
    } else {
        b.len() as int
    };
    if i < 0 || i >= m {
        Ordering::Equal
    } else {
        let ca = char_at(a, i);
        let cb = char_at(b, i);
        if ca == cb {
            cmp_from(a, b, i + 1)
        } else if is_digit_char(ca) && is_digit_char(cb) {
            value_order(
                run_value(a, i, digit_run_end(a, i)),
                run_value(b, i, digit_run_end(b, i)),
            )
        } else if (ca as u32) < (cb as u32) {
            Ordering::Less
        } else {
            Ordering::Greater
        }
    }
}

/// The natural order of two strings.
pub open spec fn natural_cmp(a: Seq<char>, b: Seq<char>) -> Ordering {
    cmp_from(a, b, 0)
}

/// The numeric value of a whole digit string.
pub open spec fn digits_value(s: Seq<char>) -> nat {
    run_value(s, 0, s.len() as int)
}

/// The views of a sequence of string slices.
pub open spec fn views_of(s: Seq<&str>) -> Seq<Seq<char>> {
    s.map_values(|x: &str| x@)
}

/// A sequence of strings is in natural order when no adjacent pair is out of
/// order.
pub open spec fn natural_sorted(s: Seq<&str>) -> bool {
    forall|k: int|
        0 <= k < s.len() - 1 ==> #[trigger] natural_cmp(s[k]@, s[k + 1]@) != Ordering::Greater
}

/// The digit run starting at `i` ends at or after `i`, within bounds, covers
/// only digits, and stops at the first non-digit.
pub proof fn lemma_digit_run_end(s: Seq<char>, i: int)
    requires
        0 <= i <= s.len(),
    ensures
        i <= digit_run_end(s, i) <= s.len(),
        all_digits(s, i, digit_run_end(s, i)),
        digit_run_end(s, i) == s.len() || !is_digit_char(s[digit_run_end(s, i)]),
    decreases s.len() - i,
{
    if i < s.len() && is_digit_char(s[i]) {
        lemma_digit_run_end(s, i + 1);
    }
}

/// Ten to any power is positive, and the power function is monotonic.
pub proof fn lemma_pow10_mono(m: nat, n: nat)
    requires
        m <= n,
    ensures
        1 <= pow10(m) <= pow10(n),
    decreases n,
{
    if n > 0 {
        if m == n {
            lemma_pow10_mono((n - 1) as nat, (n - 1) as nat);
        } else {
            lemma_pow10_mono(m, (n - 1) as nat);
        }
    }
}

/// A leading zero does not change the value of a digit run.
pub proof fn lemma_run_value_skip_zero(s: Seq<char>, i: int, j: int)
    requires
        i < j,
        0 <= i < s.len(),
        digit_val(s[i]) == 0,
    ensures
        run_value(s, i, j) == run_value(s, i + 1, j),
    decreases j - i,
{
    if j - 1 == i {
        assert(run_value(s, i, j) == (run_value(s, i, i) * 10 + digit_val(s[i])) as nat);
    } else {
        lemma_run_value_skip_zero(s, i, j - 1);
    }
}

/// Any prefix of zeros can be stripped without changing a run's value.
pub proof fn lemma_run_value_strip_zeros(s: Seq<char>, i: int, sa: int, j: int)
    requires
        0 <= i <= sa <= j,
        j <= s.len(),
        forall|k: int| i <= k < sa ==> digit_val(#[trigger] s[k]) == 0,
    ensures
        run_value(s, i, j) == run_value(s, sa, j),
    decreases sa - i,
{
    if i < sa {
        lemma_run_value_skip_zero(s, i, j);
        lemma_run_value_strip_zeros(s, i + 1, sa, j);
    }
}

/// A run of `j - i` digits has value below ten to that power.
pub proof fn lemma_run_value_upper(s: Seq<char>, i: int, j: int)
    requires
        0 <= i <= j <= s.len(),
        all_digits(s, i, j),
    ensures
        run_value(s, i, j) < pow10((j - i) as nat),
    decreases j - i,
{
    if i < j {
        lemma_run_value_upper(s, i, j - 1);
        assert(digit_val(s[j - 1]) <= 9);
        assert(run_value(s, i, j - 1) * 10 <= (pow10((j - i - 1) as nat) - 1) * 10) by (
        nonlinear_arith)
            requires
                run_value(s, i, j - 1) <= pow10((j - i - 1) as nat) - 1,
        ;
    }
}

/// A digit run that does not start with zero has value at least ten to the
/// power of one less than its length.
pub proof fn lemma_run_value_lower(s: Seq<char>, i: int, j: int)
    requires
        0 <= i < j <= s.len(),
        all_digits(s, i, j),
        digit_val(s[i]) >= 1,
    ensures
        run_value(s, i, j) >= pow10((j - i - 1) as nat),
    decreases j - i,
{
    if j == i + 1 {
    } else {
        lemma_run_value_lower(s, i, j - 1);
        assert(run_value(s, i, j - 1) * 10 >= pow10((j - i - 2) as nat) * 10) by (nonlinear_arith)
            requires
                run_value(s, i, j - 1) >= pow10((j - i - 2) as nat),
        ;
    }
}

/// Peeling the most significant digit off a run.
pub proof fn lemma_run_value_head(s: Seq<char>, i: int, j: int)
    requires
        0 <= i < j <= s.len(),
        all_digits(s, i, j),
    ensures
        run_value(s, i, j) == digit_val(s[i]) * pow10((j - i - 1) as nat) + run_value(s, i + 1, j),
    decreases j - i,
{
    if j == i + 1 {
        assert(is_digit_char(s[i]));
        assert(run_value(s, i, j) == (run_value(s, i, i) * 10 + digit_val(s[i])) as nat);
        assert(run_value(s, i + 1, j) == 0);
        assert(pow10(0) == 1);
        assert(digit_val(s[i]) * pow10((j - i - 1) as nat) == digit_val(s[i])) by (nonlinear_arith)
            requires
                pow10((j - i - 1) as nat) == 1,
        ;
    } else {
        lemma_run_value_head(s, i, j - 1);
        assert(is_digit_char(s[i]));
        assert(is_digit_char(s[j - 1]));
        let d = digit_val(s[i]);
        let p = pow10((j - i - 2) as nat);
        assert(pow10((j - i - 1) as nat) == 10 * p);
        assert((d * p + run_value(s, i + 1, j - 1)) * 10 == d * (10 * p) + run_value(
            s,
            i + 1,
            j - 1,
        ) * 10) by (nonlinear_arith);
        assert(run_value(s, i, j) == (run_value(s, i, j - 1) * 10 + digit_val(s[j - 1])) as nat);
        assert(run_value(s, i + 1, j) == (run_value(s, i + 1, j - 1) * 10 + digit_val(
            s[j - 1],
        )) as nat);
        assert(run_value(s, i, j) == digit_val(s[i]) * pow10((j - i - 1) as nat) + run_value(
            s,
            i + 1,
            j,
        ));
    }
}

/// Swapping the arguments of the comparison reverses its result.
pub proof fn lemma_cmp_flip(a: Seq<char>, b: Seq<char>, i: int)
    ensures
        cmp_from(a, b, i) == Ordering::Less <==> cmp_from(b, a, i) == Ordering::Greater,
        cmp_from(a, b, i) == Ordering::Equal <==> cmp_from(b, a, i) == Ordering::Equal,
    decreases (if a.len() > b.len() {
        a.len()
    } else {
        b.len()
    }) - i,
{
    let m: int = if a.len() > b.len() {
        a.len() as int
    } else {
        b.len() as int
    };
    if 0 <= i < m {
        if char_at(a, i) == char_at(b, i) {
            lemma_cmp_flip(a, b, i + 1);
        }
    }
}

/// Every string compares equal to itself: the comparison is reflexive.
pub proof fn lemma_natural_cmp_reflexive(a: Seq<char>)
    ensures
        natural_cmp(a, a) == Ordering::Equal,
{
    lemma_cmp_refl_from(a, 0);
}

proof fn lemma_cmp_refl_from(a: Seq<char>, i: int)
    ensures
        cmp_from(a, a, i) == Ordering::Equal,
    decreases a.len() - i,
{
    if 0 <= i < a.len() {
        lemma_cmp_refl_from(a, i + 1);
    }
}

/// On digit-only strings of equal length, and on digit-only strings whose
/// first characters differ, the natural order agrees with the numeric order
/// of the values the strings denote, regardless of leading zeros.
pub proof fn lemma_natural_cmp_digits(a: Seq<char>, b: Seq<char>)
    requires
        a.len() > 0,
        b.len() > 0,
        all_digits(a, 0, a.len() as int),
        all_digits(b, 0, b.len() as int),
        a.len() == b.len() || a[0] != b[0],
    ensures
        natural_cmp(a, b) == value_order(digits_value(a), digits_value(b)),
{
    if a[0] != b[0] {
        lemma_digit_run_end_all(a);
        lemma_digit_run_end_all(b);
    } else {
        lemma_cmp_digits_from(a, b, 0);
    }
}

/// The digit run starting at 0 of an all-digit string is the whole string.
proof fn lemma_digit_run_end_all(s: Seq<char>)
    requires
        all_digits(s, 0, s.len() as int),
        s.len() > 0,
    ensures
        digit_run_end(s, 0) == s.len(),
{
    lemma_digit_run_end(s, 0);
    if digit_run_end(s, 0) < s.len() {
        assert(is_digit_char(s[digit_run_end(s, 0)]));
    }
}

proof fn lemma_cmp_digits_from(a: Seq<char>, b: Seq<char>, i: int)
    requires
        a.len() == b.len(),
        all_digits(a, 0, a.len() as int),
        all_digits(b, 0, b.len() as int),
        0 <= i <= a.len(),
    ensures
        cmp_from(a, b, i) == value_order(
            run_value(a, i, a.len() as int),
            run_value(b, i, b.len() as int),
        ),
    decreases a.len() - i,
{
    let n = a.len() as int;
    if i == n {
    } else if a[i] == b[i] {
        lemma_cmp_digits_from(a, b, i + 1);
        lemma_run_value_head(a, i, n);
        lemma_run_value_head(b, i, n);
    } else {
        lemma_digit_run_end(a, i);
        lemma_digit_run_end(b, i);
        lemma_run_end_of_all(a, i);
        lemma_run_end_of_all(b, i);
        lemma_cmp_runs_by_value(a, i, n, b, i, n);
    }
}

/// In an all-digit string every run extends to the end.
proof fn lemma_run_end_of_all(s: Seq<char>, i: int)
    requires
        all_digits(s, 0, s.len() as int),
        0 <= i < s.len(),
    ensures
        digit_run_end(s, i) == s.len(),
    decreases s.len() - i,
{
    if i + 1 < s.len() {
        lemma_run_end_of_all(s, i + 1);
    } else {
        lemma_digit_run_end(s, i);
    }
}

/// Equal-length digit runs compare by value as by their first differing
/// digit pair, stated as an ordering.
proof fn lemma_cmp_runs_by_value(s: Seq<char>, i: int, j: int, t: Seq<char>, p: int, q: int)
    requires
        0 <= i < j <= s.len(),
        0 <= p < q <= t.len(),
        j - i == q - p,
        all_digits(s, i, j),
        all_digits(t, p, q),
    ensures
        digit_val(s[i]) < digit_val(t[p]) ==> run_value(s, i, j) < run_value(t, p, q),
        digit_val(s[i]) > digit_val(t[p]) ==> run_value(s, i, j) > run_value(t, p, q),
{
    lemma_run_value_head(s, i, j);
    lemma_run_value_head(t, p, q);
    lemma_run_value_upper(s, i + 1, j);
    lemma_run_value_upper(t, p + 1, q);
    let n1 = (j - i - 1) as nat;
    let da = digit_val(s[i]);
    let db = digit_val(t[p]);
    if da < db {
        assert((da + 1) * pow10(n1) <= db * pow10(n1)) by (nonlinear_arith)
            requires
                da + 1 <= db,
        ;
        assert((da + 1) * pow10(n1) == da * pow10(n1) + pow10(n1)) by (nonlinear_arith);
    }
    if db < da {
        assert((db + 1) * pow10(n1) <= da * pow10(n1)) by (nonlinear_arith)
            requires
                db + 1 <= da,
        ;
        assert((db + 1) * pow10(n1) == db * pow10(n1) + pow10(n1)) by (nonlinear_arith);
    }
}

/// Whether `c` is an ASCII decimal digit.
fn is_digit_c(c: char) -> (r: bool)
    ensures
        r == is_digit_char(c),
{
    let u = c as u32;
    48 <= u && u <= 57
}

/// Compares two digit runs by numeric value: leading zeros are stripped,
/// then a longer run is larger, and runs of equal length compare by their
/// first differing digit.
fn compare_digit_runs(a: &str, ai: usize, aj: usize, b: &str, bi: usize, bj: usize) -> (o: Ordering)
    requires
        ai <= aj <= a@.len(),
        bi <= bj <= b@.len(),
        all_digits(a@, ai as int, aj as int),
        all_digits(b@, bi as int, bj as int),
    ensures
        o == value_order(run_value(a@, ai as int, aj as int), run_value(b@, bi as int, bj as int)),
{
    let mut sa = ai;
    while sa < aj && a.get_char(sa) as u32 == 48
        invariant
            ai <= sa <= aj <= a@.len(),
            forall|k: int| ai <= k < sa ==> digit_val(#[trigger] a@[k]) == 0,
        decreases aj - sa,
    {
        sa = sa + 1;
    }
    let mut sb = bi;
    while sb < bj && b.get_char(sb) as u32 == 48
        invariant
            bi <= sb <= bj <= b@.len(),
            forall|k: int| bi <= k < sb ==> digit_val(#[trigger] b@[k]) == 0,
        decreases bj - sb,
    {
        sb = sb + 1;
    }
    proof {
        lemma_run_value_strip_zeros(a@, ai as int, sa as int, aj as int);
        lemma_run_value_strip_zeros(b@, bi as int, sb as int, bj as int);
    }
    let la = aj - sa;
    let lb = bj - sb;
    if la < lb {
        proof {
            lemma_run_value_upper(a@, sa as int, aj as int);
            lemma_run_value_lower(b@, sb as int, bj as int);
            lemma_pow10_mono(la as nat, (lb - 1) as nat);
        }
        Ordering::Less
    } else if lb < la {
        proof {
            lemma_run_value_upper(b@, sb as int, bj as int);
            lemma_run_value_lower(a@, sa as int, aj as int);
            lemma_pow10_mono(lb as nat, (la - 1) as nat);
        }
        Ordering::Greater
    } else {
        let mut k: usize = 0;
        while k < la
            invariant
                k <= la,
                la == aj - sa,
                la == bj - sb,
                ai <= sa <= aj <= a@.len(),
                bi <= sb <= bj <= b@.len(),
                all_digits(a@, ai as int, aj as int),
                all_digits(b@, bi as int, bj as int),
                value_order(run_value(a@, ai as int, aj as int), run_value(b@, bi as int, bj as int))
                    == value_order(
                    run_value(a@, sa + k as int, aj as int),
                    run_value(b@, sb + k as int, bj as int),
                ),
            decreases la - k,
        {
            let ua = a.get_char(sa + k) as u32;
            let ub = b.get_char(sb + k) as u32;
            if ua == ub {
                k = k + 1;
                proof {
                    lemma_run_value_head(a@, sa + k as int - 1, aj as int);
                    lemma_run_value_head(b@, sb + k as int - 1, bj as int);
                }
            } else {
                proof {
                    lemma_cmp_runs_by_value(
                        a@,
                        sa + k as int,
                        aj as int,
                        b@,
                        sb + k as int,
                        bj as int,
                    );
                }
                if ua < ub {
                    return Ordering::Less;
                } else {
                    return Ordering::Greater;
                }
            }
        }
        proof {
            assert(run_value(a@, sa + la as int, aj as int) == 0);
            assert(run_value(b@, sb + la as int, bj as int) == 0);
        }
        Ordering::Equal
    }
}

/// Taking the element at `oidx` out and putting it back at `j` keeps the
/// multiset of strings, and extends the sorted prefix by one when the
/// insertion point was chosen by the scan: everything moved right was
/// greater than the element, and its new left neighbour is not.
#[verifier::rlimit(100)]
proof fn lemma_insertion_step(before: Seq<&str>, after: Seq<&str>, j: int, oidx: int)
    requires
        0 <= j <= oidx < before.len(),
        after == before.remove(oidx).insert(j, before[oidx]),
        forall|k: int|
            0 <= k < oidx - 1 && k + 1 < before.len() ==> #[trigger] natural_cmp(
                before[k]@,
                before[k + 1]@,
            ) != Ordering::Greater,
        forall|k: int|
            j <= k < oidx ==> #[trigger] natural_cmp(before[k]@, before[oidx]@)
                == Ordering::Greater,
        j == 0 || natural_cmp(before[j - 1]@, before[oidx]@) != Ordering::Greater,
    ensures
        after.len() == before.len(),
        views_of(after).to_multiset() == views_of(before).to_multiset(),
        forall|k: int|
            0 <= k < oidx && k + 1 < after.len() ==> #[trigger] natural_cmp(
                after[k]@,
                after[k + 1]@,
            ) != Ordering::Greater,
{
    let x = before[oidx];
    before.remove_ensures(oidx);
    before.remove(oidx).insert_ensures(j, x);
    assert forall|k: int| 0 <= k < oidx && k + 1 < after.len() implies #[trigger] natural_cmp(
        after[k]@,
        after[k + 1]@,
    ) != Ordering::Greater by {
        if k + 1 < j {
            assert(after[k] == before[k]);
            assert(after[k + 1] == before[k + 1]);
            assert(natural_cmp(before[k]@, before[k + 1]@) != Ordering::Greater);
        } else if k + 1 == j {
            assert(after[k] == before[k]);
            assert(after[k + 1] == x);
            assert(natural_cmp(before[j - 1]@, before[oidx]@) != Ordering::Greater);
        } else if k == j {
            assert(after[k] == x);
            assert(after[k + 1] == before[k]);
            assert(natural_cmp(before[k]@, before[oidx]@) == Ordering::Greater);
            lemma_cmp_flip(x@, before[k]@, 0);
        } else {
            assert(after[k] == before[k - 1]);
            assert(after[k + 1] == before[k]);
            assert(natural_cmp(before[k - 1]@, before[k]@) != Ordering::Greater);
        }
    }
    broadcast use vstd::seq_lib::group_to_multiset_ensures;
    broadcast use vstd::seq_lib::to_multiset_insert;
    broadcast use vstd::seq_lib::to_multiset_remove;

    assert(views_of(before.remove(oidx)) =~= views_of(before).remove(oidx));
    assert(views_of(after) =~= views_of(before.remove(oidx)).insert(j, x@));
    assert(views_of(before)[oidx] == x@);
    assert(views_of(after).to_multiset() =~= views_of(before).to_multiset());
}

impl NaturalSort {
    /// Compares two strings in natural order: at the first position where
    /// they differ, two digits compare as the numbers their digit runs
    /// spell, and any other pair of characters compares directly; the
    /// shorter string is padded with a sentinel that orders below every
    /// character.
    pub fn strcmp_natural(a: &str, b: &str) -> (r: Ordering)
        ensures
            r == natural_cmp(a@, b@),
    {
        let a_len = a.unicode_len();
        let b_len = b.unicode_len();
        let max_len = if a_len > b_len {
            a_len
        } else {
            b_len
        };
        let mut i: usize = 0;
        while i < max_len
            invariant
                i <= max_len,
                a_len == a@.len(),
                b_len == b@.len(),
                max_len == (if a_len > b_len {
                    a_len
                } else {
                    b_len
                }),
                natural_cmp(a@, b@) == cmp_from(a@, b@, i as int),
            decreases max_len - i,
        {
            let ca = if i < a_len {
                a.get_char(i)
            } else {
                '\0'
            };
            let cb = if i < b_len {
                b.get_char(i)
            } else {
                '\0'
            };
            proof {
                assert(ca == char_at(a@, i as int));
                assert(cb == char_at(b@, i as int));
            }
            if ca == cb {
                i = i + 1;
            } else {
                if is_digit_c(ca) && is_digit_c(cb) {
                    let mut aj = i;
                    while aj < a_len && is_digit_c(a.get_char(aj))
                        invariant
                            i <= aj <= a_len,
                            a_len == a@.len(),
                            digit_run_end(a@, i as int) == digit_run_end(a@, aj as int),
                        decreases a_len - aj,
                    {
                        aj = aj + 1;
                    }
                    let mut bj = i;
                    while bj < b_len && is_digit_c(b.get_char(bj))
                        invariant
                            i <= bj <= b_len,
                            b_len == b@.len(),
                            digit_run_end(b@, i as int) == digit_run_end(b@, bj as int),
                        decreases b_len - bj,
                    {
                        bj = bj + 1;
                    }
                    proof {
                        assert(digit_run_end(a@, aj as int) == aj as int);
                        assert(digit_run_end(b@, bj as int) == bj as int);
                        lemma_digit_run_end(a@, i as int);
                        lemma_digit_run_end(b@, i as int);
                    }
                    return compare_digit_runs(a, i, aj, b, i, bj);
                } else if (ca as u32) < (cb as u32) {
                    return Ordering::Less;
                } else {
                    return Ordering::Greater;
                }
            }
        }
        Ordering::Equal
    }

    /// Sorts the strings into natural order. The result holds exactly the
    /// same strings (as a multiset of their character sequences), and no
    /// adjacent pair is out of order; strings that compare equal may end in
    /// either relative order.
    pub fn natural_sort(v: &mut Vec<&str>)
        ensures
            final(v)@.len() == old(v)@.len(),
            views_of(final(v)@).to_multiset() == views_of(old(v)@).to_multiset(),
            natural_sorted(final(v)@),
    {
        let ghost orig = v@;
        if v.len() < 2 {
            return ;
        }
        let mut idx: usize = 1;
        while idx < v.len()
            invariant
                1 <= idx,
                v@.len() == orig.len(),
                views_of(v@).to_multiset() == views_of(orig).to_multiset(),
                forall|k: int|
                    0 <= k < idx - 1 && k + 1 < v@.len() ==> #[trigger] natural_cmp(
                        v@[k]@,
                        v@[k + 1]@,
                    ) != Ordering::Greater,
            decreases v@.len() - idx,
        {
            let x: &str = v[idx];
            let mut j = idx;
            let mut scanning = true;
            while scanning
                invariant
                    j <= idx < v@.len(),
                    x == v@[idx as int],
                    forall|k: int|
                        j <= k < idx ==> #[trigger] natural_cmp(v@[k]@, x@) == Ordering::Greater,
                    !scanning ==> (j == 0 || natural_cmp(v@[j - 1]@, x@) != Ordering::Greater),
                decreases 2 * j + (if scanning {
                    1int
                } else {
                    0int
                }),
            {
                if j == 0 {
                    scanning = false;
                } else {
                    let g = match Self::strcmp_natural(v[j - 1], x) {
                        Ordering::Greater => true,
                        _ => false,
                    };
                    if g {
                        j = j - 1;
                    } else {
                        scanning = false;
                    }
                }
            }
            let ghost before = v@;
            let ghost oidx = idx as int;
            let y = v.remove(idx);
            v.insert(j, y);
            proof {
                assert(v@ == before.remove(oidx).insert(j as int, y));
                lemma_insertion_step(before, v@, j as int, oidx);
            }
            idx = idx + 1;
        }
    }
}

} // verus!
