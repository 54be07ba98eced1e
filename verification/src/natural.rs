//! Natural lexical order on strings: contiguous digit runs compare as
//! numbers, everything else case-insensitively, so `"Item 9"` comes before
//! `"Item 10"`. The comparison itself lives in an outside crate; this module
//! gives it a name, records the one structural fact the sorts need — the
//! order is total — and bounds the digit runs a compared string may carry,
//! since the comparison accumulates an aligned run into a 64-bit value that
//! holds at most nineteen digits.

use vstd::prelude::*;
use vstd::string::StrSliceExecFns;

verus! {

/// How many digits one character can add to a digit run in the compared
/// streams. An ASCII digit adds exactly one. Any other ASCII character
/// transliterates to itself and ends the run. A character outside ASCII
/// transliterates to a short ASCII replacement; the longest digit run any
/// replacement contains is ten characters (a billionth fraction), so ten
/// bounds its contribution.
pub open spec fn digit_weight(c: char) -> int {
    if 48 <= c as u32 && c as u32 <= 57 {
        1
    } else if (c as u32) < 128 {
        0
    } else {
        10
    }
}

/// Scanning left to right with `carried` digits already accumulated, every
/// digit run stays below twenty digits.
pub open spec fn digit_runs_below(s: Seq<char>, carried: int) -> bool
    decreases s.len(),
{
    if s.len() == 0 {
        true
    } else if digit_weight(s[0]) == 0 {
        digit_runs_below(s.drop_first(), 0)
    } else {
        carried + digit_weight(s[0]) < 20 && digit_runs_below(
            s.drop_first(),
            carried + digit_weight(s[0]),
        )
    }
}

/// Whether a string is safe to hand the natural comparison: no digit run of
/// twenty or more digits can arise from it, so the comparison's 64-bit
/// accumulator cannot overflow.
pub open spec fn nat_cmp_safe(s: Seq<char>) -> bool {
    digit_runs_below(s, 0)
}

/// Check that a string is safe to hand the natural comparison.
pub fn name_digits_safe(s: &str) -> (r: bool)
    ensures
        r == nat_cmp_safe(s@),
{
    let n = s.unicode_len();
    let mut i: usize = 0;
    let mut carried: u32 = 0;
    proof {
        assert(s@.skip(0) =~= s@);
    }
    while i < n
        invariant
            n == s@.len(),
            0 <= i <= n,
            carried <= 19,
            nat_cmp_safe(s@) == digit_runs_below(s@.skip(i as int), carried as int),
        decreases n - i,
    {
        let c = s.get_char(i);
        let u = c as u32;
        let w: u32 = if 48 <= u && u <= 57 {
            1
        } else if u < 128 {
            0
        } else {
            10
        };
        proof {
            assert(s@.skip(i as int)[0] == s@[i as int]);
            assert(digit_weight(s@[i as int]) == w as int);
            assert(s@.skip(i as int).drop_first() =~= s@.skip(i as int + 1));
        }
        if w == 0 {
            carried = 0;
        } else if carried + w < 20 {
            carried = carried + w;
        } else {
            proof {
                assert(!digit_runs_below(s@.skip(i as int), carried as int));
            }
            return false;
        }
        i += 1;
    }
    proof {
        assert(s@.skip(n as int) =~= Seq::<char>::empty());
    }
    true
}

/// Whether `lexical_sort::natural_lexical_cmp` answers `Less` or `Equal`
/// for this pair of strings. The answer depends on the two strings alone.
pub uninterp spec fn nat_le_raw(a: Seq<char>, b: Seq<char>) -> bool;

/// Natural lexical order, total by construction: where the raw relation
/// holds in neither direction, both sides count as ordered. Of the real
/// comparison the two disagree nowhere, since one direction always holds.
pub open spec fn nat_le(a: Seq<char>, b: Seq<char>) -> bool {
    nat_le_raw(a, b) || !nat_le_raw(b, a)
}

/// Natural lexical order is total: any two strings are comparable.
pub proof fn lemma_nat_le_total(a: Seq<char>, b: Seq<char>)
    ensures
        nat_le(a, b) || nat_le(b, a),
{
}

/// Relies on `lexical_sort::natural_lexical_cmp`: a deterministic comparison
/// of the two strings (maximal digit runs compare as numbers, other
/// characters case-insensitively by their ASCII transliteration, ties broken
/// by plain byte order), which answers `Greater` for the swapped pair
/// whenever it answers `Less`, and conversely. Aligned digit runs accumulate
/// into a 64-bit value, which overflows — a panic under overflow checks —
/// once an aligned run reaches twenty digits; the bound demanded of both
/// strings keeps every run shorter than that.
#[verifier::external_body]
pub fn nat_le_exec(a: &str, b: &str) -> (r: bool)
    requires
        nat_cmp_safe(a@),
        nat_cmp_safe(b@),
    ensures
        r == nat_le_raw(a@, b@),
        r == nat_le(a@, b@),
{
    lexical_sort::natural_lexical_cmp(a, b) != core::cmp::Ordering::Greater
}

} // verus!
