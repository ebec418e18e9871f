//! Identifiers derived from benchmark names. A derived identifier names a
//! directory or a probe, so it holds no space, no path separator and no
//! hyphen: each is written as an underscore.

use vstd::prelude::*;
use crate::text::{to_chars, string_of};

verus! {

/// `c` may not stand in a derived identifier.
pub open spec fn is_forbidden(c: char) -> bool {
    c == ' ' || c == '/' || c == '-'
}

/// `c` as it stands in a derived identifier.
pub open spec fn normalized_char(c: char) -> char {
    if is_forbidden(c) {
        '_'
    } else {
        c
    }
}

/// `s` with each forbidden character written as an underscore.
pub open spec fn normalized(s: Seq<char>) -> Seq<char> {
    Seq::new(s.len(), |i: int| normalized_char(s[i]))
}

/// The identifier derived from `name`: `name` with each space, slash and
/// hyphen written as an underscore.
pub fn normalize_identifier(name: &str) -> (id: String)
    ensures
        id@ == normalized(name@),
{
    let chars = to_chars(name);
    let mut out: Vec<char> = Vec::new();
    let mut i: usize = 0;
    while i < chars.len()
        invariant
            i <= chars.len(),
            out@.len() == i,
            forall|j: int| 0 <= j < i ==> out@[j] == normalized_char(chars@[j]),
        decreases chars.len() - i,
    {
        let c = chars[i];
        if c == ' ' || c == '/' || c == '-' {
            out.push('_');
        } else {
            out.push(c);
        }
        i += 1;
    }
    assert(out@ =~= normalized(name@));
    string_of(&out)
}

/// Normalizing leaves the length alone and leaves no forbidden character.
pub proof fn lemma_normalized_is_clean(s: Seq<char>)
    ensures
        normalized(s).len() == s.len(),
        forall|i: int| 0 <= i < s.len() ==> !is_forbidden(#[trigger] normalized(s)[i]),
{
}

/// Normalizing twice gives what normalizing once gives.
pub proof fn lemma_normalized_idempotent(s: Seq<char>)
    ensures
        normalized(normalized(s)) == normalized(s),
{
    assert(normalized(normalized(s)) =~= normalized(s));
}

/// A name without forbidden characters is its own identifier.
pub proof fn lemma_normalized_fixes_clean(s: Seq<char>)
    requires
        forall|i: int| 0 <= i < s.len() ==> !is_forbidden(#[trigger] s[i]),
    ensures
        normalized(s) == s,
{
    assert(normalized(s) =~= s);
}

} // verus!
