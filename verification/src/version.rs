use vstd::prelude::*;
use vstd::string::StringExecFns;

use crate::semver::{parse_semver, sem_major, sem_minor, sem_patch, sem_valid};
use crate::text::{dec_val, is_digits, parse_u64, split_char, split_str};

verus! {

/// A partial version selector: `major[.minor[.patch]]`.
#[derive(Debug, Clone)]
pub struct ParsedVersion {
    pub major: u64,
    pub minor: Option<u64>,
    pub patch: Option<u64>,
    pub full_version: String,
}

/// A valid selector component: a non-empty run of decimal digits whose
/// value fits in a `u64`.
pub open spec fn component_ok(p: Seq<char>) -> bool {
    is_digits(p) && dec_val(p) <= u64::MAX
}

/// The selector grammar: one to three dot-separated numeric components.
pub open spec fn selector_ok(s: Seq<char>) -> bool {
    let parts = split_char(s, '.');
    &&& 1 <= parts.len() <= 3
    &&& forall|i: int| 0 <= i < parts.len() ==> component_ok(#[trigger] parts[i])
}

/// The selector that parsing `s` yields: each component read as a number,
/// the absent ones `None`, and the raw input kept.
pub open spec fn parse_result_of(v: &ParsedVersion, s: Seq<char>) -> bool {
    let parts = split_char(s, '.');
    &&& v.major == dec_val(parts[0])
    &&& if parts.len() >= 2 {
        v.minor matches Some(mn) && mn == dec_val(parts[1])
    } else {
        v.minor is None
    }
    &&& if parts.len() >= 3 {
        v.patch matches Some(pt) && pt == dec_val(parts[2])
    } else {
        v.patch is None
    }
    &&& v.full_version@ == s
}

impl ParsedVersion {
    /// Parses a partial version selector.  Accepts exactly the strings of
    /// one to three dot-separated decimal components; everything else is
    /// rejected with one message that quotes the input.
    pub fn parse(input: &str) -> (r: Result<ParsedVersion, String>)
        ensures
            r is Ok <==> selector_ok(input@),
            r matches Ok(v) ==> parse_result_of(&v, input@),
            r matches Err(m) ==> m@ == "Formato inválido: '"@ + input@ + "'"@,
    {
        let parts = split_str(input, '.');
        if parts.len() == 0 || parts.len() > 3 {
            return Err(format_error(input));
        }
        let major = match parse_u64(parts[0].as_str()) {
            Some(v) => v,
            None => {
                proof {
                    assert(split_char(input@, '.')[0] == parts@.map_values(|t: String| t@)[0]);
                }
                return Err(format_error(input));
            },
        };
        let minor = if parts.len() > 1 {
            match parse_u64(parts[1].as_str()) {
                Some(v) => Some(v),
                None => {
                    proof {
                        assert(split_char(input@, '.')[1] == parts@.map_values(|t: String| t@)[1]);
                    }
                    return Err(format_error(input));
                },
            }
        } else {
            None
        };
        let patch = if parts.len() > 2 {
            match parse_u64(parts[2].as_str()) {
                Some(v) => Some(v),
                None => {
                    proof {
                        assert(split_char(input@, '.')[2] == parts@.map_values(|t: String| t@)[2]);
                    }
                    return Err(format_error(input));
                },
            }
        } else {
            None
        };
        Ok(ParsedVersion { major, minor, patch, full_version: String::from_str(input) })
    }
}

/// The one rejection message of the selector parser.
fn format_error(input: &str) -> (r: String)
    ensures
        r@ == "Formato inválido: '"@ + input@ + "'"@,
{
    String::from_str("Formato inválido: '").concat(input).concat("'")
}

/// Whether `ver` is a full semantic version whose numeric core satisfies
/// the selector: major always compared, minor and patch only where the
/// selector sets them; pre-release and build metadata are ignored.
pub open spec fn spec_matches(ver: Seq<char>, sel: &ParsedVersion) -> bool {
    &&& sem_valid(ver)
    &&& sem_major(ver) == sel.major
    &&& (sel.minor matches Some(mn) ==> sem_minor(ver) == mn)
    &&& (sel.patch matches Some(pt) ==> sem_patch(ver) == pt)
}

/// Pre-release and build metadata play no part in matching: two valid
/// versions with the same numeric core satisfy exactly the same selectors.
pub proof fn lemma_matches_ignores_suffixes(x: Seq<char>, y: Seq<char>, sel: &ParsedVersion)
    requires
        sem_valid(x),
        sem_valid(y),
        sem_major(x) == sem_major(y),
        sem_minor(x) == sem_minor(y),
        sem_patch(x) == sem_patch(y),
    ensures
        spec_matches(x, sel) == spec_matches(y, sel),
{
}

/// Tests a candidate version string against a selector.  A string that is
/// no full semantic version never matches (and is no error).
pub fn matches_semver(ver: &str, sel: &ParsedVersion) -> (r: bool)
    ensures
        r == spec_matches(ver@, sel),
{
    match parse_semver(ver) {
        Some(v) => {
            let minor_ok = match sel.minor {
                Some(mn) => v.minor == mn,
                None => true,
            };
            let patch_ok = match sel.patch {
                Some(pt) => v.patch == pt,
                None => true,
            };
            v.major == sel.major && minor_ok && patch_ok
        },
        None => false,
    }
}

} // verus!
