use vstd::multiset::Multiset;
use vstd::prelude::*;
use vstd::string::StringExecFns;

use crate::error::NveError;
use crate::semver::{
    lemma_sem_cmp_str, lemma_sem_str_cmp_antisym, lemma_sem_str_cmp_trans, parse_semver,
    sem_build, sem_major, sem_minor, sem_patch, sem_pre, sem_str_cmp, semver_cmp,
    SemVer,
};
use crate::text::{
    lemma_lex_cmp_antisym, lemma_lex_cmp_trans, lex_cmp, str_lex_cmp, Cmp,
};
use crate::version::{parse_result_of, selector_ok, spec_matches, ParsedVersion};

verus! {

broadcast use {vstd::seq_lib::group_to_multiset_ensures, vstd::multiset::group_multiset_axioms};

/// Parses a selector, turning the rejection into the library's error.
pub fn parse_spec(input: &str) -> (r: Result<ParsedVersion, NveError>)
    ensures
        r is Ok <==> selector_ok(input@),
        r matches Ok(v) ==> parse_result_of(&v, input@),
        r matches Err(e) ==> e matches NveError::InvalidVersionFormat(s) && s@ == input@,
{
    match ParsedVersion::parse(input) {
        Ok(v) => Ok(v),
        Err(_) => Err(NveError::InvalidVersionFormat(String::from_str(input))),
    }
}

/// The version that `v` stands for agrees with the string `s` component by
/// component.
spec fn corresponds(v: &SemVer, s: Seq<char>) -> bool {
    &&& v.major == sem_major(s)
    &&& v.minor == sem_minor(s)
    &&& v.patch == sem_patch(s)
    &&& v.pre_seq() == sem_pre(s)
    &&& v.build_seq() == sem_build(s)
}

/// Picks, among the installed directory names, the best match for a
/// selector: of the names that are full semantic versions satisfying the
/// selector, the maximum in the version order.  `None` when nothing
/// matches.
pub fn resolve_installed(installed: &Vec<String>, sel: &ParsedVersion) -> (r: Option<String>)
    ensures
        r is Some <==> exists|i: int|
            0 <= i < installed@.len() && spec_matches(#[trigger] installed@[i]@, sel),
        r matches Some(out) ==> {
            &&& exists|i: int| 0 <= i < installed@.len() && #[trigger] installed@[i]@ == out@
            &&& spec_matches(out@, sel)
            &&& forall|j: int|
                0 <= j < installed@.len() && spec_matches(#[trigger] installed@[j]@, sel)
                    ==> sem_str_cmp(installed@[j]@, out@) <= 0
        },
{
    let mut best: Option<(String, SemVer)> = None;
    let mut idx: usize = 0;
    while idx < installed.len()
        invariant
            0 <= idx <= installed@.len(),
            best is None ==> forall|i: int|
                0 <= i < idx ==> !spec_matches(#[trigger] installed@[i]@, sel),
            best matches Some(p) ==> {
                &&& exists|i: int| 0 <= i < idx && #[trigger] installed@[i]@ == p.0@
                &&& spec_matches(p.0@, sel)
                &&& corresponds(&p.1, p.0@)
                &&& forall|j: int|
                    0 <= j < idx && spec_matches(#[trigger] installed@[j]@, sel) ==> sem_str_cmp(
                        installed@[j]@,
                        p.0@,
                    ) <= 0
            },
        decreases installed@.len() - idx,
    {
        let s = &installed[idx];
        match parse_semver(s.as_str()) {
            Some(v) => {
                let minor_ok = match sel.minor {
                    Some(mn) => v.minor == mn,
                    None => true,
                };
                let patch_ok = match sel.patch {
                    Some(pt) => v.patch == pt,
                    None => true,
                };
                if v.major == sel.major && minor_ok && patch_ok {
                    assert(spec_matches(installed@[idx as int]@, sel));
                    match best {
                        None => {
                            proof {
                                lemma_sem_str_cmp_antisym(s@, s@);
                            }
                            best = Some((s.clone(), v));
                        },
                        Some(p) => {
                            let c = semver_cmp(&p.1, &v);
                            proof {
                                lemma_sem_cmp_str(&p.1, &v, p.0@, s@);
                            }
                            if c == Cmp::Lt {
                                proof {
                                    assert forall|j: int|
                                        0 <= j < idx + 1 && spec_matches(
                                            #[trigger] installed@[j]@,
                                            sel,
                                        ) implies sem_str_cmp(installed@[j]@, s@) <= 0 by {
                                        if j < idx {
                                            lemma_sem_str_cmp_trans(installed@[j]@, p.0@, s@);
                                        } else {
                                            lemma_sem_str_cmp_antisym(s@, s@);
                                        }
                                    }
                                }
                                best = Some((s.clone(), v));
                            } else {
                                proof {
                                    lemma_sem_str_cmp_antisym(p.0@, s@);
                                }
                                best = Some(p);
                            }
                        },
                    }
                } else {
                    assert(!spec_matches(installed@[idx as int]@, sel));
                }
            },
            None => {
                assert(!spec_matches(installed@[idx as int]@, sel));
            },
        }
        idx = idx + 1;
    }
    match best {
        Some(p) => Some(p.0),
        None => None,
    }
}

/// The best installed match for a selector, or the error that says the
/// selector names nothing installed.
pub fn resolve_installed_required(installed: &Vec<String>, sel: &ParsedVersion) -> (r: Result<
    String,
    NveError,
>)
    ensures
        r is Ok <==> exists|i: int|
            0 <= i < installed@.len() && spec_matches(#[trigger] installed@[i]@, sel),
        r matches Ok(out) ==> {
            &&& exists|i: int| 0 <= i < installed@.len() && #[trigger] installed@[i]@ == out@
            &&& spec_matches(out@, sel)
            &&& forall|j: int|
                0 <= j < installed@.len() && spec_matches(#[trigger] installed@[j]@, sel)
                    ==> sem_str_cmp(installed@[j]@, out@) <= 0
        },
        r matches Err(e) ==> e matches NveError::VersionNotInstalled(s) && s@
            == sel.full_version@,
{
    match resolve_installed(installed, sel) {
        Some(out) => Ok(out),
        None => Err(NveError::VersionNotInstalled(sel.full_version.clone())),
    }
}

/// Non-decreasing in the code-point order, pair by pair.
pub open spec fn sorted_lex(s: Seq<Seq<char>>) -> bool {
    forall|i: int, j: int| 0 <= i < j < s.len() ==> lex_cmp(#[trigger] s[i], #[trigger] s[j]) <= 0
}

/// Index of a minimal element of `rem` under the code-point order.
fn min_index(rem: &Vec<String>) -> (m: usize)
    requires
        rem@.len() > 0,
    ensures
        0 <= m < rem@.len(),
        forall|k: int| 0 <= k < rem@.len() ==> lex_cmp(rem@[m as int]@, #[trigger] rem@[k]@) <= 0,
{
    let mut m: usize = 0;
    let mut k: usize = 1;
    proof {
        lemma_lex_cmp_antisym(rem@[0]@, rem@[0]@);
    }
    while k < rem.len()
        invariant
            0 <= m < k <= rem@.len(),
            forall|j: int| 0 <= j < k ==> lex_cmp(rem@[m as int]@, #[trigger] rem@[j]@) <= 0,
        decreases rem@.len() - k,
    {
        let c = str_lex_cmp(rem[k].as_str(), rem[m].as_str());
        if c == Cmp::Lt {
            proof {
                assert forall|j: int| 0 <= j < k + 1 implies lex_cmp(
                    rem@[k as int]@,
                    #[trigger] rem@[j]@,
                ) <= 0 by {
                    if j < k {
                        lemma_lex_cmp_trans(rem@[k as int]@, rem@[m as int]@, rem@[j]@);
                    } else {
                        lemma_lex_cmp_antisym(rem@[k as int]@, rem@[k as int]@);
                    }
                }
            }
            m = k;
        } else {
            proof {
                lemma_lex_cmp_antisym(rem@[k as int]@, rem@[m as int]@);
            }
        }
        k = k + 1;
    }
    m
}

/// Sorts version names into the code-point order, keeping exactly the same
/// names.
pub fn sort_versions(versions: &Vec<String>) -> (r: Vec<String>)
    ensures
        sorted_lex(r@.map_values(|s: String| s@)),
        r@.map_values(|s: String| s@).to_multiset() == versions@.map_values(
            |s: String| s@,
        ).to_multiset(),
{
    let ghost goal = versions@.map_values(|s: String| s@);
    let mut rem: Vec<String> = Vec::new();
    let mut i: usize = 0;
    while i < versions.len()
        invariant
            0 <= i <= versions@.len(),
            rem@.map_values(|s: String| s@) == versions@.map_values(|s: String| s@).take(i as int),
        decreases versions@.len() - i,
    {
        let x = versions[i].clone();
        proof {
            assert(x@ == versions@.map_values(|s: String| s@)[i as int]);
            assert(rem@.push(x).map_values(|s: String| s@) =~= rem@.map_values(
                |s: String| s@,
            ).push(x@));
            assert(versions@.map_values(|s: String| s@).take(i + 1) =~= versions@.map_values(
                |s: String| s@,
            ).take(i as int).push(x@));
        }
        rem.push(x);
        i = i + 1;
    }
    proof {
        assert(goal.take(goal.len() as int) =~= goal);
    }
    let mut out: Vec<String> = Vec::new();
    while rem.len() > 0
        invariant
            sorted_lex(out@.map_values(|s: String| s@)),
            forall|a: int, b: int|
                0 <= a < out@.len() && 0 <= b < rem@.len() ==> lex_cmp(
                    #[trigger] out@[a]@,
                    #[trigger] rem@[b]@,
                ) <= 0,
            out@.map_values(|s: String| s@).to_multiset().add(
                rem@.map_values(|s: String| s@).to_multiset(),
            ) =~= goal.to_multiset(),
        decreases rem@.len(),
    {
        let ghost rem_old = rem@;
        let ghost out_old = out@;
        let m = min_index(&rem);
        let x = rem.remove(m);
        proof {
            assert(rem@.map_values(|s: String| s@) =~= rem_old.map_values(|s: String| s@).remove(
                m as int,
            ));
            assert(rem_old.map_values(|s: String| s@).remove(m as int).to_multiset()
                =~= rem_old.map_values(|s: String| s@).to_multiset().remove(x@));
            assert(out_old.push(x).map_values(|s: String| s@) =~= out_old.map_values(
                |s: String| s@,
            ).push(x@));
            assert(out_old.map_values(|s: String| s@).push(x@).to_multiset() =~= out_old.map_values(
                |s: String| s@,
            ).to_multiset().insert(x@));
            assert(rem_old.map_values(|s: String| s@)[m as int] == x@);
            assert(rem_old.map_values(|s: String| s@).to_multiset().count(x@) >= 1) by {
                assert(rem_old.map_values(|s: String| s@).contains(x@));
            }
            assert(out_old.map_values(|s: String| s@).to_multiset().insert(x@).add(
                rem_old.map_values(|s: String| s@).to_multiset().remove(x@),
            ) =~= out_old.map_values(|s: String| s@).to_multiset().add(
                rem_old.map_values(|s: String| s@).to_multiset(),
            ));
            assert(forall|b: int|
                0 <= b < rem@.len() ==> lex_cmp(x@, #[trigger] rem@[b]@) <= 0);
        }
        out.push(x);
    }
    proof {
        assert(rem@.map_values(|s: String| s@).to_multiset() =~= Multiset::<Seq<char>>::empty());
        assert(out@.map_values(|s: String| s@).to_multiset().add(Multiset::<Seq<char>>::empty())
            =~= out@.map_values(|s: String| s@).to_multiset());
    }
    out
}

} // verus!
