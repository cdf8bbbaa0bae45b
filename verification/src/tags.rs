//! Tag input validation: names and the fixed colour palette.

use vstd::prelude::*;
use vstd::string::StrSliceExecFns;
use vstd::string::StringExecFns;
use vstd::string::StringSliceAdditionalSpecFns;

verus! {

/// Request body for creating a new tag.
#[derive(Debug)]
pub struct CreateTagRequest {
    /// Name of the tag.
    pub name: String,
    /// Optional colour key from the palette.
    pub color: Option<String>,
}

/// Request body for updating a tag. An absent field leaves the value
/// alone; a present `color` of `None` clears it.
#[derive(Debug)]
pub struct UpdateTagRequest {
    pub name: Option<String>,
    pub color: Option<Option<String>>,
}

/// Two string slices hold the same characters.
fn str_eq(a: &str, b: &str) -> (r: bool)
    ensures
        r == (a@ == b@),
{
    let na = a.unicode_len();
    let nb = b.unicode_len();
    if na != nb {
        return false;
    }
    let mut i: usize = 0;
    while i < na
        invariant
            i <= na,
            na == a@.len(),
            na == b@.len(),
            forall|k: int| 0 <= k < i ==> a@[k] == b@[k],
        decreases na - i,
    {
        if a.get_char(i) != b.get_char(i) {
            return false;
        }
        i += 1;
    }
    proof {
        assert(a@ =~= b@);
    }
    true
}

/// The colour keys of the palette.
pub open spec fn valid_tag_color(s: Seq<char>) -> bool {
    ||| s == "terracotta"@
    ||| s == "sage"@
    ||| s == "ocean"@
    ||| s == "amber"@
    ||| s == "plum"@
    ||| s == "clay"@
    ||| s == "moss"@
    ||| s == "slate"@
    ||| s == "mauve"@
    ||| s == "sand"@
}

/// Check a colour key against the palette.
pub fn is_valid_tag_color(color: &str) -> (r: bool)
    ensures
        r == valid_tag_color(color@),
{
    str_eq(color, "terracotta") || str_eq(color, "sage") || str_eq(color, "ocean") || str_eq(
        color,
        "amber",
    ) || str_eq(color, "plum") || str_eq(color, "clay") || str_eq(color, "moss") || str_eq(
        color,
        "slate",
    ) || str_eq(color, "mauve") || str_eq(color, "sand")
}

/// Why a tag name was rejected, if it was: empty names and names over
/// fifty bytes are refused.
pub open spec fn spec_tag_name_error(name: &str) -> Option<Seq<char>> {
    if name@.len() == 0 {
        Some("Tag name cannot be empty"@)
    } else if name.spec_bytes().len() > 50 {
        Some("Tag name cannot exceed 50 characters"@)
    } else {
        None
    }
}

/// Validate a tag name that was already trimmed of whitespace.
pub fn validate_tag_name(name: &str) -> (r: Result<(), String>)
    ensures
        r is Ok <==> spec_tag_name_error(name) is None,
        r matches Err(m) ==> Some(m@) == spec_tag_name_error(name),
{
    if name.is_empty() {
        return Err(String::from_str("Tag name cannot be empty"));
    }
    if name.as_bytes().len() > 50 {
        return Err(String::from_str("Tag name cannot exceed 50 characters"));
    }
    Ok(())
}

} // verus!
