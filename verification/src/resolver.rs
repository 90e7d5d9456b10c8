use vstd::prelude::*;
use vstd::string::StrSliceExecFns;
use vstd::string::StringExecFns;

use crate::error::NveError;
use crate::release::NodeRelease;
use crate::version::{matches_semver, spec_matches, ParsedVersion};

verus! {

/// Whether a catalog tag matches a selector: it must carry the leading
/// `'v'`, and what remains must satisfy the selector.
pub open spec fn tag_matches(t: Seq<char>, sel: &ParsedVersion) -> bool {
    t.len() > 0 && t[0] == 'v' && spec_matches(t.skip(1), sel)
}

/// Resolves a selector against the release catalog: the first entry, in
/// catalog order, whose stripped tag matches, with its `'v'` removed.
/// The catalog is trusted to be ordered newest-first, so the first match
/// stands for the latest one.  When nothing matches, the selector's raw
/// text comes back inside the error.
pub fn resolve(releases: &Vec<NodeRelease>, sel: &ParsedVersion) -> (r: Result<String, NveError>)
    ensures
        r is Ok <==> exists|i: int|
            0 <= i < releases@.len() && tag_matches(#[trigger] releases@[i].version@, sel),
        r matches Ok(v) ==> exists|i: int|
            {
                &&& 0 <= i < releases@.len()
                &&& tag_matches(#[trigger] releases@[i].version@, sel)
                &&& v@ == releases@[i].version@.skip(1)
                &&& forall|j: int|
                    0 <= j < i ==> !tag_matches(#[trigger] releases@[j].version@, sel)
            },
        r matches Err(e) ==> {
            &&& e matches NveError::VersionNotFound(s) && s@ == sel.full_version@
            &&& forall|i: int|
                0 <= i < releases@.len() ==> !tag_matches(#[trigger] releases@[i].version@, sel)
        },
{
    let mut i: usize = 0;
    while i < releases.len()
        invariant
            0 <= i <= releases@.len(),
            forall|j: int| 0 <= j < i ==> !tag_matches(#[trigger] releases@[j].version@, sel),
        decreases releases@.len() - i,
    {
        let tag = &releases[i].version;
        let n = tag.as_str().unicode_len();
        if n > 0 && tag.as_str().get_char(0) == 'v' {
            let stripped = tag.as_str().substring_char(1, n);
            proof {
                assert(tag@.subrange(1, n as int) =~= tag@.skip(1));
            }
            if matches_semver(stripped, sel) {
                return Ok(String::from_str(stripped));
            }
        }
        i = i + 1;
    }
    Err(NveError::VersionNotFound(sel.full_version.clone()))
}

} // verus!
