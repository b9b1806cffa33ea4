//! Small shape predicates for index ids and keys.
//!
//! An index id is non-empty `/`-separated text whose segments are non-empty
//! and made of lowercase ASCII letters, digits, `-`, `_` and `.`.

use vstd::prelude::*;

use crate::text::chars_of;

verus! {

/// A character allowed inside an id segment.
pub open spec fn is_id_char(c: char) -> bool {
    ('a' <= c && c <= 'z') || ('0' <= c && c <= '9') || c == '-' || c == '_' || c == '.'
}

/// The index id grammar: non-empty segments of id characters separated by
/// single `/`s.
pub open spec fn index_id(s: Seq<char>) -> bool {
    &&& s.len() > 0
    &&& s[0] != '/'
    &&& s.last() != '/'
    &&& forall|i: int| 0 <= i < s.len() ==> is_id_char(#[trigger] s[i]) || s[i] == '/'
    &&& forall|i: int| 0 <= i < s.len() - 1 ==> !(#[trigger] s[i] == '/' && s[i + 1] == '/')
}

/// Returns true when `value` is a stable index id.
pub fn is_index_id(value: &str) -> (b: bool)
    ensures
        b == index_id(value@),
{
    let v = chars_of(value);
    let n = v.len();
    if n == 0 || v[0] == '/' || v[n - 1] == '/' {
        return false;
    }
    let mut i: usize = 0;
    while i < n
        invariant
            i <= n == v.len(),
            v@ == value@,
            forall|k: int| 0 <= k < i ==> is_id_char(#[trigger] v@[k]) || v@[k] == '/',
            forall|k: int| 0 <= k < i && k < n - 1 ==> !(#[trigger] v@[k] == '/' && v@[k + 1] == '/'),
        decreases n - i,
    {
        let c = v[i];
        let ok = ('a' <= c && c <= 'z') || ('0' <= c && c <= '9') || c == '-' || c == '_' || c == '.'
            || c == '/';
        if !ok {
            assert(!(is_id_char(v@[i as int]) || v@[i as int] == '/'));
            return false;
        }
        if c == '/' && i + 1 < n && v[i + 1] == '/' {
            assert(v@[i as int] == '/' && v@[i + 1] == '/');
            return false;
        }
        i += 1;
    }
    true
}

/// Returns true when `value` is a canonical feature key (an index id).
pub fn is_canonical_key(value: &str) -> (b: bool)
    ensures
        b == index_id(value@),
{
    is_index_id(value)
}

} // verus!
