//! Filling in templates: every occurrence of a placeholder is replaced by a
//! value.

use vstd::prelude::*;
use crate::text::{chars_of, push_all, string_of};

verus! {

/// `pattern` stands at the start of `s`.
pub open spec fn starts_with(s: Seq<char>, pattern: Seq<char>) -> bool {
    pattern.len() <= s.len() && s.take(pattern.len() as int) == pattern
}

/// The text `s` with every occurrence of `pattern` replaced by `value`.
/// Occurrences are found from left to right and do not overlap; what has been
/// put in is not searched again. An empty pattern occurs nowhere.
pub open spec fn substituted(s: Seq<char>, pattern: Seq<char>, value: Seq<char>) -> Seq<char>
    decreases s.len(),
{
    if pattern.len() == 0 || s.len() < pattern.len() {
        s
    } else if starts_with(s, pattern) {
        value + substituted(s.skip(pattern.len() as int), pattern, value)
    } else {
        seq![s[0]] + substituted(s.drop_first(), pattern, value)
    }
}

/// Whether `pattern` stands in `s` at position `at`.
fn matches_at(s: &Vec<char>, at: usize, pattern: &Vec<char>) -> (yes: bool)
    requires
        at <= s.len(),
    ensures
        yes == starts_with(s@.skip(at as int), pattern@),
{
    if pattern.len() > s.len() - at {
        return false;
    }
    let ghost rest = s@.skip(at as int);
    let mut j: usize = 0;
    while j < pattern.len()
        invariant
            j <= pattern.len(),
            at + pattern.len() <= s.len(),
            rest == s@.skip(at as int),
            rest.take(j as int) == pattern@.take(j as int),
        decreases pattern.len() - j,
    {
        if s[at + j] != pattern[j] {
            assert(rest.take(pattern.len() as int)[j as int] != pattern@[j as int]);
            return false;
        }
        assert(rest.take(j + 1) =~= rest.take(j as int).push(rest[j as int]));
        assert(pattern@.take(j + 1) =~= pattern@.take(j as int).push(pattern@[j as int]));
        j = j + 1;
    }
    assert(pattern@.take(pattern.len() as int) =~= pattern@);
    true
}

/// Replaces every occurrence of `pattern` in `s` by `value`.
pub fn substitute_chars(s: &Vec<char>, pattern: &Vec<char>, value: &Vec<char>) -> (out: Vec<char>)
    ensures
        out@ == substituted(s@, pattern@, value@),
{
    let mut out: Vec<char> = Vec::new();
    let mut i: usize = 0;
    assert(s@.skip(0) =~= s@);
    while i < s.len()
        invariant
            i <= s.len(),
            substituted(s@, pattern@, value@) == out@ + substituted(
                s@.skip(i as int),
                pattern@,
                value@,
            ),
        decreases s.len() - i,
    {
        let ghost rest = s@.skip(i as int);
        if pattern.len() > 0 && matches_at(s, i, pattern) {
            proof {
                assert(rest.skip(pattern.len() as int) =~= s@.skip(i + pattern.len()));
            }
            let ghost before = out@;
            push_all(&mut out, value);
            assert(out@ + substituted(s@.skip(i + pattern.len()), pattern@, value@) =~= before + (
            value@ + substituted(s@.skip(i + pattern.len()), pattern@, value@)));
            i = i + pattern.len();
        } else {
            proof {
                assert(rest.drop_first() =~= s@.skip(i + 1));
                assert(rest[0] == s@[i as int]);
                if pattern.len() == 0 || rest.len() < pattern.len() {
                    lemma_nothing_to_substitute(rest, pattern@, value@);
                    lemma_nothing_to_substitute(rest.drop_first(), pattern@, value@);
                    assert(rest =~= seq![rest[0]] + rest.drop_first());
                }
            }
            let ghost before = out@;
            out.push(s[i]);
            assert(out@ + substituted(s@.skip(i + 1), pattern@, value@) =~= before + (seq![
                s@[i as int],
            ] + substituted(s@.skip(i + 1), pattern@, value@)));
            i = i + 1;
        }
    }
    assert(s@.skip(i as int) =~= Seq::<char>::empty());
    assert(out@ + Seq::<char>::empty() =~= out@);
    out
}

/// A text shorter than the pattern, or any text when the pattern is empty,
/// stays as it is.
pub proof fn lemma_nothing_to_substitute(s: Seq<char>, pattern: Seq<char>, value: Seq<char>)
    requires
        pattern.len() == 0 || s.len() < pattern.len(),
    ensures
        substituted(s, pattern, value) == s,
{
}

/// Replaces every occurrence of `pattern` in `text` by `value`.
pub fn substitute(text: &str, pattern: &str, value: &str) -> (out: String)
    ensures
        out@ == substituted(text@, pattern@, value@),
{
    let s = chars_of(text);
    let p = chars_of(pattern);
    let v = chars_of(value);
    let out = substitute_chars(&s, &p, &v);
    string_of(&out)
}

} // verus!
