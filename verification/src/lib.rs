//! Usage statistics for a catalog of infrastructure modules: grouping of
//! per-version download counts, merging of dated traffic samples, module
//! categories, chart traces and report assembly.

use vstd::prelude::*;

pub mod address;
pub mod category;
pub mod data;
pub mod dates;
pub mod github;
pub mod graph;
pub mod label;
pub mod number;
pub mod ordered;
pub mod registry;
pub mod render;
pub mod template;
pub mod text;

verus! {

/// A label was empty where a word was needed.
#[derive(Debug, Clone, Copy, PartialEq, Eq)]
pub struct EmptyLabel;

/// Puts the first character of a label in upper case and leaves the rest as
/// it is. An empty label has no first character and is refused.
pub fn titlecase(s: String) -> (out: Result<String, EmptyLabel>)
    ensures
        s@.len() == 0 <==> out is Err,
        out matches Ok(t) ==> t@ == label::capitalized(s@),
{
    let chars = text::chars_of(s.as_str());
    if chars.len() == 0 {
        return Err(EmptyLabel);
    }
    let mut out = label::to_upper(chars[0]);
    let mut i: usize = 1;
    while i < chars.len()
        invariant
            1 <= i <= chars.len(),
            out@ == label::uppercase(chars@[0]) + chars@.subrange(1, i as int),
        decreases chars.len() - i,
    {
        out.push(chars[i]);
        i = i + 1;
    }
    assert(chars@.subrange(1, chars.len() as int) =~= chars@.drop_first());
    Ok(text::string_of(&out))
}

} // verus!
