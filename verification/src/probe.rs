//! Parsing the dimension probe's output.
//!
//! The probe tool is asked for `%w %h` and must print exactly two decimal
//! integers separated by one space; any other output shape is a probe
//! failure and leaves the record's dimensions unset.

use vstd::prelude::*;
use vstd::string::StrSliceExecFns;

use crate::media::is_digit;

verus! {

/// A non-empty run of decimal digits.
pub open spec fn digit_seq(s: Seq<char>) -> bool {
    s.len() > 0 && forall|i: int| 0 <= i < s.len() ==> is_digit(#[trigger] s[i])
}

/// The value of a run of decimal digits.
pub open spec fn dec_value(s: Seq<char>) -> int
    decreases s.len(),
{
    if s.len() == 0 {
        0
    } else {
        dec_value(s.drop_last()) * 10 + (s.last() as u32 - 48)
    }
}

/// Position `i` splits `s` into a width and a height: a space with a
/// representable decimal number on each side.
pub open spec fn valid_split(s: Seq<char>, i: int) -> bool {
    &&& 0 <= i < s.len()
    &&& s[i] == ' '
    &&& digit_seq(s.take(i))
    &&& digit_seq(s.skip(i + 1))
    &&& dec_value(s.take(i)) <= u32::MAX
    &&& dec_value(s.skip(i + 1)) <= u32::MAX
}

proof fn lemma_dec_value_bounds(s: Seq<char>, k: int)
    requires
        forall|i: int| 0 <= i < s.len() ==> is_digit(#[trigger] s[i]),
        0 <= k <= s.len(),
    ensures
        0 <= dec_value(s.take(k)) <= dec_value(s),
    decreases s.len(),
{
    if s.len() == 0 {
        assert(s.take(k) =~= s);
    } else if k == s.len() {
        assert(s.take(k) =~= s);
        lemma_dec_value_bounds(s.drop_last(), s.len() - 1);
        assert(s.drop_last().take(s.len() - 1) =~= s.drop_last());
    } else {
        assert(forall|i: int|
            0 <= i < s.drop_last().len() ==> is_digit(#[trigger] s.drop_last()[i]));
        lemma_dec_value_bounds(s.drop_last(), k);
        assert(s.drop_last().take(k) =~= s.take(k));
        assert(48 <= s.last() as u32 <= 57);
    }
}

/// Parses the decimal number in `s[from..to]` (by character position).
pub(crate) fn parse_u32_range(s: &str, from: usize, to: usize) -> (r: Option<u32>)
    requires
        from <= to <= s@.len(),
    ensures
        ({
            let sub = s@.subrange(from as int, to as int);
            match r {
                Some(v) => digit_seq(sub) && dec_value(sub) <= u32::MAX && v == dec_value(sub),
                None => !(digit_seq(sub) && dec_value(sub) <= u32::MAX),
            }
        }),
{
    let ghost sub = s@.subrange(from as int, to as int);
    if from == to {
        return None;
    }
    let mut acc: u64 = 0;
    let mut k: usize = 0;
    let len = to - from;
    while k < len
        invariant
            0 <= k <= len == to - from,
            from <= to <= s@.len(),
            sub == s@.subrange(from as int, to as int),
            acc <= u32::MAX,
            acc == dec_value(sub.take(k as int)),
            forall|i: int| 0 <= i < k ==> is_digit(#[trigger] sub[i]),
        decreases len - k,
    {
        let c = s.get_char(from + k);
        proof {
            assert(sub[k as int] == s@[from + k]);
        }
        if !(c as u32 >= 48 && c as u32 <= 57) {
            proof {
                assert(!is_digit(sub[k as int]));
            }
            return None;
        }
        let d: u64 = (c as u32 - 48) as u64;
        let next: u64 = acc * 10 + d;
        proof {
            assert(sub.take(k + 1).drop_last() =~= sub.take(k as int));
            assert(sub.take(k + 1).last() == sub[k as int]);
            assert(dec_value(sub.take(k + 1)) == dec_value(sub.take(k as int)) * 10 + (
            sub[k as int] as u32 - 48));
        }
        if next > 0xFFFF_FFFFu64 {
            proof {
                if digit_seq(sub) {
                    lemma_dec_value_bounds(sub, k + 1);
                }
            }
            return None;
        }
        acc = next;
        k = k + 1;
    }
    proof {
        assert(sub.take(len as int) =~= sub);
    }
    Some(acc as u32)
}

/// The position of the first space in `s`, if any.
fn find_space(s: &str) -> (r: Option<usize>)
    ensures
        match r {
            Some(p) => p < s@.len() && s@[p as int] == ' ' && forall|j: int|
                0 <= j < p ==> s@[j] != ' ',
            None => forall|j: int| 0 <= j < s@.len() ==> s@[j] != ' ',
        },
{
    let n = s.unicode_len();
    let mut p: usize = 0;
    while p < n
        invariant
            0 <= p <= n == s@.len(),
            forall|j: int| 0 <= j < p ==> s@[j] != ' ',
        decreases n - p,
    {
        if s.get_char(p) == ' ' {
            return Some(p);
        }
        p = p + 1;
    }
    None
}

/// Parses the probe tool's output: exactly two decimal integers separated
/// by a single space give the width and the height; everything else is
/// rejected.
pub fn parse_dimensions(out: &str) -> (r: Option<(u32, u32)>)
    ensures
        (r is Some) <==> exists|i: int| valid_split(out@, i),
        forall|i: int|
            valid_split(out@, i) ==> r == Some(
                (
                    dec_value(out@.take(i)) as u32,
                    dec_value(out@.skip(i + 1)) as u32,
                ),
            ),
{
    let n = out.unicode_len();
    // A valid split can only be at the first space, since the width's
    // digits may not contain a space.
    let p = match find_space(out) {
        Some(p) => p,
        None => {
            proof {
                assert forall|i: int| !valid_split(out@, i) by {
                    if 0 <= i < out@.len() {
                        assert(out@[i] != ' ');
                    }
                }
            }
            return None;
        }
    };
    proof {
        assert forall|i: int| valid_split(out@, i) implies i == p by {
            if i < p {
                assert(out@[i] != ' ');
            }
            if i > p {
                assert(out@.take(i)[p as int] == out@[p as int]);
                assert(is_digit(out@.take(i)[p as int]));
            }
        }
    }
    let w = parse_u32_range(out, 0, p);
    let h = parse_u32_range(out, p + 1, n);
    proof {
        assert(out@.subrange(0, p as int) =~= out@.take(p as int));
        assert(out@.subrange(p + 1, n as int) =~= out@.skip(p + 1));
    }
    match (w, h) {
        (Some(wv), Some(hv)) => {
            proof {
                assert(valid_split(out@, p as int));
            }
            Some((wv, hv))
        }
        _ => {
            proof {
                assert(!valid_split(out@, p as int));
            }
            None
        }
    }
}

} // verus!
