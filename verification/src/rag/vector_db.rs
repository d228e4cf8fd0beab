//! Naming of the per-library vector collections.
use vstd::prelude::*;

use crate::text::{chars_of, is_alphanumeric, push_char, spec_is_alphanumeric};

verus! {

/// A character kept as it is in a collection directory name.
pub open spec fn keeps(c: char) -> bool {
    spec_is_alphanumeric(c) || c == '-' || c == '_'
}

/// The directory name of a library's collection: every character that is
/// not alphanumeric, `-` or `_` becomes `_`.
pub open spec fn spec_sanitize(s: Seq<char>) -> Seq<char> {
    s.map_values(|c: char| if keeps(c) { c } else { '_' })
}

/// The directory name of the collection of library `s`.
pub fn sanitize(s: &str) -> (r: String)
    ensures
        r@ == spec_sanitize(s@),
{
    let cs = chars_of(s);
    let mut r = String::new();
    let mut i: usize = 0;
    while i < cs.len()
        invariant
            i <= cs.len(),
            cs@ == s@,
            r@ == s@.take(i as int).map_values(|c: char| if keeps(c) { c } else { '_' }),
        decreases cs.len() - i,
    {
        let c = cs[i];
        if is_alphanumeric(c) || c == '-' || c == '_' {
            push_char(&mut r, c);
        } else {
            push_char(&mut r, '_');
        }
        assert(s@.take(i + 1) =~= s@.take(i as int).push(c));
        assert(r@ =~= s@.take(i + 1).map_values(|c: char| if keeps(c) { c } else { '_' }));
        i = i + 1;
    }
    assert(s@.take(cs.len() as int) =~= s@);
    r
}

/// Sanitizing is idempotent: a sanitized name is its own directory name,
/// and it holds only kept characters.
pub proof fn lemma_sanitize_idempotent(s: Seq<char>)
    ensures
        spec_sanitize(spec_sanitize(s)) == spec_sanitize(s),
        forall|i: int| 0 <= i < s.len() ==> keeps(#[trigger] spec_sanitize(s)[i]),
        spec_sanitize(s).len() == s.len(),
{
    assert(spec_sanitize(spec_sanitize(s)) =~= spec_sanitize(s));
}

/// The vector size of a new collection: the dimension probed from the
/// embedding engine (truncated to 32 bits), or the pool's default.
pub fn collection_dim(probed: Option<usize>, default: u32) -> (d: u32)
    ensures
        d == match probed {
            Some(p) => p as u32,
            None => default,
        },
{
    match probed {
        Some(p) => p as u32,
        None => default,
    }
}

} // verus!
