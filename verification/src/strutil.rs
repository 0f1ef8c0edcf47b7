//! Small string and sequence helpers shared by the library.

use vstd::prelude::*;
use vstd::string::StrSliceExecFns;
use vstd::string::StringExecFns;

verus! {

/// Appends one character to a string.
///
/// Relies on `String::push`: appends the given char to the end of this
/// `String`.
#[verifier::external_body]
pub(crate) fn push_char(s: &mut String, c: char)
    ensures
        final(s)@ == old(s)@.push(c),
{
    s.push(c);
}

/// Stepping a filter one element forward, for loops that build a filtered
/// sequence left to right.
pub(crate) proof fn lemma_filter_take_step<A>(s: Seq<A>, pred: spec_fn(A) -> bool, i: int)
    requires
        0 <= i < s.len(),
    ensures
        s.take(i + 1).filter(pred) == if pred(s[i]) {
            s.take(i).filter(pred).push(s[i])
        } else {
            s.take(i).filter(pred)
        },
{
    reveal(Seq::filter);
    assert(s.take(i + 1).drop_last() =~= s.take(i));
    assert(s.take(i + 1).last() == s[i]);
}

/// Compares two string slices by their characters.
pub fn str_eq(a: &str, b: &str) -> (r: bool)
    ensures
        r == (a@ == b@),
{
    String::from_str(a) == String::from_str(b)
}

/// Joins a directory path and a file name with a single separator.
pub fn join_path(dir: &str, name: &str) -> (r: String)
    ensures
        r@ == dir@ + "/"@ + name@,
{
    String::from_str(dir).concat("/").concat(name)
}

/// True when `a` is `b` or differs from the lower-case letter `b` only in
/// ASCII case.
pub open spec fn lower_eq(a: char, b: char) -> bool {
    a == b || (65 <= a as u32 <= 90 && a as u32 + 32 == b as u32)
}

/// Compares one character of a name against a lower-case pattern character,
/// ignoring ASCII case.
pub fn char_matches_lower(a: char, b: char) -> (r: bool)
    ensures
        r == lower_eq(a, b),
{
    a == b || (a as u32 >= 65 && a as u32 <= 90 && a as u32 + 32 == b as u32)
}

/// True when `name` ends in a dot followed by the extension `ext` (compared
/// ignoring ASCII case), with at least one character before the dot.
pub open spec fn ext_matches(name: Seq<char>, ext: Seq<char>) -> bool {
    &&& name.len() >= ext.len() + 2
    &&& name[name.len() - ext.len() - 1] == '.'
    &&& forall|i: int|
        0 <= i < ext.len() ==> lower_eq(name[name.len() - ext.len() + i], ext[i])
}

/// Decides whether `name` carries the file-name extension `ext`, given in
/// lower case, comparing ignoring ASCII case. A leading dot alone (a hidden
/// file such as `.mp4`) does not count as an extension.
pub fn has_extension(name: &str, ext: &str) -> (r: bool)
    ensures
        r == ext_matches(name@, ext@),
{
    let n = name.unicode_len();
    let m = ext.unicode_len();
    if n < 2 || n - 2 < m {
        return false;
    }
    if name.get_char(n - m - 1) != '.' {
        return false;
    }
    let mut i: usize = 0;
    while i < m
        invariant
            0 <= i <= m,
            m + 2 <= n == name@.len(),
            m == ext@.len(),
            forall|j: int| 0 <= j < i ==> lower_eq(name@[n - m + j], ext@[j]),
        decreases m - i,
    {
        if !char_matches_lower(name.get_char(n - m + i), ext.get_char(i)) {
            return false;
        }
        i = i + 1;
    }
    true
}

} // verus!
