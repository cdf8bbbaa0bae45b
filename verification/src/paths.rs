//! Request-path classification for the asset fallback.
//!
//! A single-page frontend serves `index.html` for every route-looking
//! path and real files for paths whose last segment carries an
//! extension; this tells the two apart.

use vstd::prelude::*;
use vstd::string::StrSliceExecFns;

verus! {

/// The path's last segment — everything behind the rightmost `/` —
/// contains a dot.
pub open spec fn spec_path_looks_like_file(s: Seq<char>) -> bool {
    exists|i: int|
        0 <= i < s.len() && s[i] == '.' && forall|j: int| i < j < s.len() ==> s[j] != '/'
}

/// Does this request path name a file rather than a frontend route?
pub fn path_looks_like_file(path: &str) -> (r: bool)
    ensures
        r == spec_path_looks_like_file(path@),
{
    let n = path.unicode_len();
    let mut i: usize = n;
    while i > 0
        invariant
            i <= n,
            n == path@.len(),
            forall|j: int| i <= j < n ==> path@[j] != '.' && path@[j] != '/',
        decreases i,
    {
        i -= 1;
        let c = path.get_char(i);
        if c == '/' {
            proof {
                assert forall|w: int|
                    0 <= w < path@.len() && path@[w] == '.' implies !(forall|j: int|
                    w < j < path@.len() ==> path@[j] != '/') by {
                    assert(w < i < path@.len() && path@[i as int] == '/');
                }
            }
            return false;
        }
        if c == '.' {
            proof {
                assert(forall|j: int| i < j < path@.len() ==> path@[j] != '/');
            }
            return true;
        }
    }
    false
}

} // verus!
