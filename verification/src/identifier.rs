//! Object identifier validation: the fixed two-part `container/object-key`
//! textual format used everywhere in the core's contracts.
//!
//! An identifier must split into exactly two non-empty parts on its first
//! separator; anything else fails fast with `InvalidIdentifier`, before any
//! call towards the blob store.

use vstd::prelude::*;

use crate::errors::ImageError;

verus! {

/// `i` is the position of the identifier's first separator.
pub open spec fn is_first_sep(s: Seq<char>, i: int) -> bool {
    &&& 0 <= i < s.len()
    &&& s[i] == '/'
    &&& forall|j: int| 0 <= j < i ==> s[j] != '/'
}

/// A well-formed identifier: its first separator has at least one character
/// on each side.
pub open spec fn spec_valid_identifier(s: Seq<char>) -> bool {
    exists|i: int| is_first_sep(s, i) && 1 <= i < s.len() - 1
}

/// Splits an identifier into container name and object key on its first
/// separator.  Both parts must be non-empty; a malformed identifier fails
/// with `InvalidIdentifier` and nothing else is touched.
pub fn split_identifier<'a>(identifier: &'a str) -> (r: Result<(&'a str, &'a str), ImageError>)
    ensures
        r is Ok <==> spec_valid_identifier(identifier@),
        r matches Err(e) ==> e == ImageError::InvalidIdentifier,
        r matches Ok(parts) ==> {
            let i = parts.0@.len() as int;
            &&& is_first_sep(identifier@, i)
            &&& 1 <= i < identifier@.len() - 1
            &&& parts.0@ == identifier@.subrange(0, i)
            &&& parts.1@ == identifier@.subrange(i + 1, identifier@.len() as int)
        },
{
    let n = identifier.unicode_len();
    let mut i: usize = 0;
    while i < n
        invariant
            n == identifier@.len(),
            0 <= i <= n,
            forall|j: int| 0 <= j < i ==> identifier@[j] != '/',
        decreases n - i,
    {
        if identifier.get_char(i) == '/' {
            if i < 1 || i >= n - 1 {
                proof {
                    assert forall|k: int| !(is_first_sep(identifier@, k) && 1 <= k
                        < identifier@.len() - 1) by {
                        if is_first_sep(identifier@, k) {
                            if k < i {
                                assert(identifier@[k] != '/');
                            }
                            if k > i {
                                assert(identifier@[i as int] != '/');
                            }
                        }
                    }
                }
                return Err(ImageError::InvalidIdentifier);
            }
            let container = identifier.substring_char(0, i);
            let object_key = identifier.substring_char(i + 1, n);
            proof {
                assert(is_first_sep(identifier@, i as int));
                assert(container@.len() == i as int);
            }
            return Ok((container, object_key));
        }
        i = i + 1;
    }
    proof {
        assert forall|k: int| !is_first_sep(identifier@, k) by {
            if 0 <= k < identifier@.len() {
                assert(identifier@[k] != '/');
            }
        }
    }
    Err(ImageError::InvalidIdentifier)
}

/// Returns whether an identifier is well formed, without splitting it.
pub fn validate_identifier(identifier: &str) -> (r: bool)
    ensures
        r == spec_valid_identifier(identifier@),
{
    match split_identifier(identifier) {
        Ok(_) => true,
        Err(_) => false,
    }
}

} // verus!
