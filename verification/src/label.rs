//! Wording of chart titles and identifiers: letter case, words, joining.
//!
//! Letter case and the set of whitespace characters are those of Unicode as
//! the standard library knows them. They are functions of the character or
//! text alone and are given names here.

use vstd::prelude::*;
use crate::text::{chars_of, push_all, push_str, string_of};

verus! {

/// The upper-case form of a character, which may be more than one character
/// long; the character itself where it has none.
pub uninterp spec fn uppercase(c: char) -> Seq<char>;

/// The lower-case form of a text.
pub uninterp spec fn lowercase(s: Seq<char>) -> Seq<char>;

/// Whether a character is whitespace.
pub uninterp spec fn whitespace(c: char) -> bool;

/// `char::is_whitespace` tells whether the character has the Unicode
/// property White_Space; the answer depends on the character alone.
pub assume_specification[ char::is_whitespace ](c: char) -> (yes: bool)
    ensures
        yes == whitespace(c),
;

/// Calls `char::to_uppercase` and collects the characters it yields. The
/// contract claims only that they are the ones named [`uppercase`].
#[verifier::external_body]
pub(crate) fn to_upper(c: char) -> (upper: Vec<char>)
    ensures
        upper@ == uppercase(c),
{
    c.to_uppercase().collect()
}

/// Calls `str::to_lowercase`. The contract claims only that the result is
/// the text named [`lowercase`].
#[verifier::external_body]
pub(crate) fn to_lower(s: &str) -> (lower: String)
    ensures
        lower@ == lowercase(s@),
{
    s.to_lowercase()
}

/// The name of the directory that holds a module's data: the module's name
/// in lower case.
pub fn module_directory(module: &str) -> (name: String)
    ensures
        name@ == lowercase(module@),
{
    to_lower(module)
}

/// A text with its first character in upper case and the rest as it is.
pub open spec fn capitalized(s: Seq<char>) -> Seq<char>
    recommends
        s.len() > 0,
{
    uppercase(s[0]) + s.drop_first()
}

/// The number of characters before the first whitespace of `s`.
pub open spec fn word_len(s: Seq<char>) -> int
    decreases s.len(),
{
    if s.len() == 0 || whitespace(s[0]) {
        0
    } else {
        1 + word_len(s.drop_first())
    }
}

/// The words of `s`: the longest runs of characters that are not whitespace,
/// from left to right.
pub open spec fn words(s: Seq<char>) -> Seq<Seq<char>>
    decreases s.len(),
    via words_decreases
{
    if s.len() == 0 {
        Seq::empty()
    } else if whitespace(s[0]) {
        words(s.drop_first())
    } else {
        seq![s.take(word_len(s))] + words(s.skip(word_len(s)))
    }
}

#[via_fn]
proof fn words_decreases(s: Seq<char>) {
    if s.len() > 0 && !whitespace(s[0]) {
        lemma_word_len_bounds(s);
    }
}

/// A word is no longer than the text it starts.
pub proof fn lemma_word_len_bounds(s: Seq<char>)
    ensures
        0 <= word_len(s) <= s.len(),
        s.len() > 0 && !whitespace(s[0]) ==> word_len(s) >= 1,
    decreases s.len(),
{
    if s.len() > 0 && !whitespace(s[0]) {
        lemma_word_len_bounds(s.drop_first());
    }
}

/// Where the first `n` characters of `s` are not whitespace and the next
/// one, if any, is, the first word of `s` is `n` long.
pub proof fn lemma_word_len(s: Seq<char>, n: int)
    requires
        0 <= n <= s.len(),
        forall|j: int| 0 <= j < n ==> !whitespace(s[j]),
        n < s.len() ==> whitespace(s[n]),
    ensures
        word_len(s) == n,
    decreases n,
{
    if n > 0 {
        let rest = s.drop_first();
        assert forall|j: int| 0 <= j < n - 1 implies !whitespace(rest[j]) by {
            assert(rest[j] == s[j + 1]);
        }
        lemma_word_len(rest, n - 1);
    }
}

/// The texts `parts` with `sep` between each two of them.
pub open spec fn joined(parts: Seq<Seq<char>>, sep: Seq<char>) -> Seq<char>
    decreases parts.len(),
{
    if parts.len() == 0 {
        Seq::empty()
    } else if parts.len() == 1 {
        parts[0]
    } else {
        joined(parts.drop_last(), sep) + sep + parts.last()
    }
}

/// Each text of `parts` in lower case.
pub open spec fn all_lowercase(parts: Seq<Seq<char>>) -> Seq<Seq<char>> {
    Seq::new(parts.len(), |i: int| lowercase(parts[i]))
}

/// The identifier made from a title: its words in lower case, joined by
/// underscores.
pub open spec fn identifier(title: Seq<char>) -> Seq<char> {
    joined(all_lowercase(words(title)), "_"@)
}

/// The texts that a sequence of strings holds.
pub open spec fn strings_text(parts: Seq<String>) -> Seq<Seq<char>> {
    Seq::new(parts.len(), |i: int| parts[i]@)
}

/// The words of `s`.
pub fn split_words(s: &str) -> (found: Vec<String>)
    ensures
        strings_text(found@) == words(s@),
{
    let chars = chars_of(s);
    let mut found: Vec<String> = Vec::new();
    let mut word: Vec<char> = Vec::new();
    let mut start: usize = 0;
    let mut i: usize = 0;
    assert(chars@.skip(0) =~= chars@);
    assert(strings_text(found@) =~= Seq::<Seq<char>>::empty());
    while i < chars.len()
        invariant
            start <= i <= chars.len(),
            chars@ == s@,
            word@ == chars@.subrange(start as int, i as int),
            forall|j: int| start <= j < i ==> !whitespace(chars@[j]),
            words(chars@) == strings_text(found@) + words(chars@.skip(start as int)),
        decreases chars.len() - i,
    {
        let c = chars[i];
        if c.is_whitespace() {
            let ghost rest = chars@.skip(start as int);
            let ghost after = chars@.skip(i as int);
            proof {
                assert(after[0] == c);
                assert(after.drop_first() =~= chars@.skip(i + 1));
                assert(words(after) == words(chars@.skip(i + 1)));
            }
            if word.len() > 0 {
                proof {
                    assert forall|j: int| 0 <= j < i - start implies !whitespace(rest[j]) by {
                        assert(rest[j] == chars@[start + j]);
                    }
                    assert(rest[i - start] == c);
                    lemma_word_len(rest, i - start);
                    assert(rest[0] == chars@[start as int]);
                    assert(rest.take(i - start) =~= word@);
                    assert(rest.skip(i - start) =~= after);
                    assert(words(rest) == seq![word@] + words(after));
                }
                let ghost before = strings_text(found@);
                let text = string_of(&word);
                found.push(text);
                assert(strings_text(found@) =~= before + seq![word@]);
                assert(words(chars@) =~= strings_text(found@) + words(chars@.skip(i + 1)));
                word = Vec::new();
            } else {
                assert(chars@.skip(start as int) =~= after);
            }
            start = i + 1;
            assert(word@ =~= chars@.subrange(start as int, start as int));
        } else {
            word.push(c);
            assert(word@ =~= chars@.subrange(start as int, i + 1));
        }
        i = i + 1;
    }
    if word.len() > 0 {
        let ghost rest = chars@.skip(start as int);
        proof {
            assert forall|j: int| 0 <= j < rest.len() implies !whitespace(rest[j]) by {
                assert(rest[j] == chars@[start + j]);
            }
            lemma_word_len(rest, rest.len() as int);
            assert(rest[0] == chars@[start as int]);
            assert(rest.take(rest.len() as int) =~= word@);
            assert(rest.skip(rest.len() as int) =~= Seq::<char>::empty());
            assert(words(rest.skip(rest.len() as int)) =~= Seq::<Seq<char>>::empty());
            assert(words(rest) =~= seq![word@]);
        }
        let ghost before = strings_text(found@);
        let text = string_of(&word);
        found.push(text);
        assert(strings_text(found@) =~= before + seq![word@]);
    } else {
        assert(chars@.skip(start as int) =~= Seq::<char>::empty());
        assert(words(chars@.skip(start as int)) =~= Seq::<Seq<char>>::empty());
        assert(words(chars@) =~= strings_text(found@));
    }
    found
}

/// The identifier made from a title: its words in lower case, joined by
/// underscores.
pub fn identifier_of(title: &str) -> (id: String)
    ensures
        id@ == identifier(title@),
{
    let found = split_words(title);
    let ghost parts = all_lowercase(words(title@));
    let mut out: Vec<char> = Vec::new();
    let mut i: usize = 0;
    assert(parts.take(0) =~= Seq::<Seq<char>>::empty());
    while i < found.len()
        invariant
            i <= found.len(),
            strings_text(found@) == words(title@),
            parts == all_lowercase(words(title@)),
            parts.len() == found.len(),
            out@ == joined(parts.take(i as int), "_"@),
        decreases found.len() - i,
    {
        let ghost upto = parts.take(i + 1);
        proof {
            assert(upto.drop_last() =~= parts.take(i as int));
            assert(strings_text(found@)[i as int] == found@[i as int]@);
            assert(upto.last() == lowercase(found@[i as int]@));
        }
        if i > 0 {
            push_str(&mut out, "_");
        }
        let lower = to_lower(found[i].as_str());
        let lower_chars = chars_of(lower.as_str());
        push_all(&mut out, &lower_chars);
        proof {
            if i == 0 {
                assert(upto[0] == upto.last());
                assert(out@ =~= upto[0]);
            }
        }
        i = i + 1;
    }
    assert(parts.take(i as int) =~= parts);
    string_of(&out)
}

} // verus!
