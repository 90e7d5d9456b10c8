use vstd::prelude::*;
use vstd::string::StrSliceExecFns;

use crate::error::NveError;
use crate::text::{split_char, split_str};

verus! {

/// One entry as the archive container stores it: its raw path (with `/`
/// separators), whether it is a directory entry, and its contents.
#[derive(Debug)]
pub struct RawEntry {
    pub path: String,
    pub is_dir: bool,
    pub data: Vec<u8>,
}

impl RawEntry {
    /// The plain values an entry carries.
    pub open spec fn model(&self) -> (Seq<char>, bool, Seq<u8>) {
        (self.path@, self.is_dir, self.data@)
    }
}

/// The plain values of a whole entry list.
pub open spec fn entry_models(s: Seq<RawEntry>) -> Seq<(Seq<char>, bool, Seq<u8>)> {
    s.map_values(|e: RawEntry| e.model())
}

/// A path segment that sanitization drops: empty, `.`, or `..`.  Dropping
/// them is what keeps every output path inside the target directory.
pub open spec fn dropped_seg(g: Seq<char>) -> bool {
    g.len() == 0 || g =~= seq!['.'] || g =~= seq!['.', '.']
}

/// The segments of a split path that sanitization keeps, in order.
pub open spec fn keep_segs(segs: Seq<Seq<char>>) -> Seq<Seq<char>>
    decreases segs.len(),
{
    if segs.len() == 0 {
        Seq::empty()
    } else if dropped_seg(segs.last()) {
        keep_segs(segs.drop_last())
    } else {
        keep_segs(segs.drop_last()).push(segs.last())
    }
}

/// The sanitized segments of an entry path.
pub open spec fn clean_segs(p: Seq<char>) -> Seq<Seq<char>> {
    keep_segs(split_char(p, '/'))
}

/// The relative segments an entry is written under: its sanitized path
/// with the one leading wrapper segment stripped.  Empty for the wrapper
/// directory itself and for loose entries at the archive root.
pub open spec fn rel_segs(p: Seq<char>) -> Seq<Seq<char>> {
    let c = clean_segs(p);
    if c.len() <= 1 {
        Seq::empty()
    } else {
        c.skip(1)
    }
}

/// One write the extractor asks for, relative to the target directory.
#[derive(Debug)]
pub enum ExtractAction {
    MakeDir { rel: Vec<String> },
    WriteFile { rel: Vec<String>, data: Vec<u8> },
}

impl ExtractAction {
    /// The plain values of an action: its relative segments, and the file
    /// contents (`None` for a directory).
    pub open spec fn model(&self) -> (Seq<Seq<char>>, Option<Seq<u8>>) {
        match self {
            ExtractAction::MakeDir { rel } => (rel@.map_values(|s: String| s@), None),
            ExtractAction::WriteFile { rel, data } => (
                rel@.map_values(|s: String| s@),
                Some(data@),
            ),
        }
    }
}

/// The plain values of a whole plan.
pub open spec fn action_models(s: Seq<ExtractAction>) -> Seq<(Seq<Seq<char>>, Option<Seq<u8>>)> {
    s.map_values(|a: ExtractAction| a.model())
}

/// The actions an entry list calls for, in order: one per entry whose
/// relative path is non-empty, a directory creation or a file write.
pub open spec fn plan_of(entries: Seq<(Seq<char>, bool, Seq<u8>)>) -> Seq<
    (Seq<Seq<char>>, Option<Seq<u8>>),
>
    decreases entries.len(),
{
    if entries.len() == 0 {
        Seq::empty()
    } else {
        let rest = plan_of(entries.drop_last());
        let e = entries.last();
        if rel_segs(e.0).len() == 0 {
            rest
        } else if e.1 {
            rest.push((rel_segs(e.0), None))
        } else {
            rest.push((rel_segs(e.0), Some(e.2)))
        }
    }
}

/// Whether a split segment is dropped by sanitization.
fn is_dropped_seg(s: &str) -> (r: bool)
    ensures
        r == dropped_seg(s@),
{
    let n = s.unicode_len();
    if n == 0 {
        return true;
    }
    if n == 1 && s.get_char(0) == '.' {
        proof {
            assert(s@ =~= seq!['.']);
        }
        return true;
    }
    if n == 2 && s.get_char(0) == '.' && s.get_char(1) == '.' {
        proof {
            assert(s@ =~= seq!['.', '.']);
        }
        return true;
    }
    proof {
        if n == 1 {
            assert(s@[0] != '.');
            assert(!(s@ =~= seq!['.']));
            assert(!(s@ =~= seq!['.', '.']));
        } else if n == 2 {
            assert(!(s@ =~= seq!['.']));
            assert(!(s@ =~= seq!['.', '.']));
        } else {
            assert(!(s@ =~= seq!['.']));
            assert(!(s@ =~= seq!['.', '.']));
        }
    }
    false
}

/// The sanitized segments of one entry path.
fn clean_segments(path: &str) -> (r: Vec<String>)
    ensures
        r@.map_values(|s: String| s@) == clean_segs(path@),
{
    let segs = split_str(path, '/');
    let mut out: Vec<String> = Vec::new();
    let mut i: usize = 0;
    let ghost segs_model = segs@.map_values(|s: String| s@);
    proof {
        assert(segs_model.take(0) =~= Seq::<Seq<char>>::empty());
        assert(out@.map_values(|s: String| s@) =~= keep_segs(segs_model.take(0)));
    }
    while i < segs.len()
        invariant
            0 <= i <= segs@.len(),
            segs_model == segs@.map_values(|s: String| s@),
            segs_model == split_char(path@, '/'),
            out@.map_values(|s: String| s@) == keep_segs(segs_model.take(i as int)),
        decreases segs@.len() - i,
    {
        let keep = !is_dropped_seg(segs[i].as_str());
        proof {
            assert(segs_model.take(i + 1).drop_last() =~= segs_model.take(i as int));
            assert(segs_model.take(i + 1).last() == segs_model[i as int]);
            assert(segs_model[i as int] == segs@[i as int]@);
        }
        if keep {
            let x = segs[i].clone();
            proof {
                assert(out@.push(x).map_values(|s: String| s@) =~= out@.map_values(
                    |s: String| s@,
                ).push(x@));
            }
            out.push(x);
        }
        i = i + 1;
    }
    proof {
        assert(segs_model.take(segs_model.len() as int) =~= segs_model);
    }
    out
}

/// Copies a byte vector.
fn clone_bytes(v: &Vec<u8>) -> (r: Vec<u8>)
    ensures
        r@ == v@,
{
    let mut out: Vec<u8> = Vec::new();
    let mut i: usize = 0;
    while i < v.len()
        invariant
            0 <= i <= v@.len(),
            out@ == v@.take(i as int),
        decreases v@.len() - i,
    {
        let b = v[i];
        proof {
            assert(v@.take(i + 1) =~= v@.take(i as int).push(v@[i as int]));
        }
        out.push(b);
        i = i + 1;
    }
    proof {
        assert(v@.take(v@.len() as int) =~= v@);
    }
    out
}

/// Plans the extraction of a materialized archive: strips the one wrapper
/// segment from every sanitized entry path, skips the wrapper itself and
/// loose root-level entries, and fails with the one "empty archive" error
/// exactly when nothing at all would be written.
pub fn plan_extraction(entries: &Vec<RawEntry>) -> (r: Result<Vec<ExtractAction>, NveError>)
    ensures
        r is Ok <==> plan_of(entry_models(entries@)).len() > 0,
        r matches Ok(p) ==> action_models(p@) == plan_of(entry_models(entries@)),
        r matches Err(e) ==> (e matches NveError::ExtractError(m) && m@ == "empty archive"@),
{
    let mut plan: Vec<ExtractAction> = Vec::new();
    let mut i: usize = 0;
    let ghost ms = entry_models(entries@);
    proof {
        assert(ms.take(0) =~= Seq::<(Seq<char>, bool, Seq<u8>)>::empty());
        assert(action_models(plan@) =~= plan_of(ms.take(0)));
    }
    while i < entries.len()
        invariant
            0 <= i <= entries@.len(),
            ms == entry_models(entries@),
            action_models(plan@) == plan_of(ms.take(i as int)),
        decreases entries@.len() - i,
    {
        proof {
            assert(ms.take(i + 1).drop_last() =~= ms.take(i as int));
            assert(ms.take(i + 1).last() == ms[i as int]);
            assert(ms[i as int] == entries@[i as int].model());
        }
        let clean = clean_segments(entries[i].path.as_str());
        if clean.len() > 1 {
            let mut rel: Vec<String> = Vec::new();
            let mut j: usize = 1;
            proof {
                assert(rel@.map_values(|s: String| s@) =~= clean@.map_values(
                    |s: String| s@,
                ).subrange(1, 1));
            }
            while j < clean.len()
                invariant
                    1 <= j <= clean@.len(),
                    rel@.map_values(|s: String| s@) == clean@.map_values(
                        |s: String| s@,
                    ).subrange(1, j as int),
                decreases clean@.len() - j,
            {
                let x = clean[j].clone();
                proof {
                    assert(rel@.push(x).map_values(|s: String| s@) =~= rel@.map_values(
                        |s: String| s@,
                    ).push(x@));
                    assert(clean@.map_values(|s: String| s@).subrange(1, j + 1)
                        =~= clean@.map_values(|s: String| s@).subrange(1, j as int).push(
                        clean@.map_values(|s: String| s@)[j as int],
                    ));
                }
                rel.push(x);
                j = j + 1;
            }
            proof {
                assert(clean@.map_values(|s: String| s@).subrange(
                    1,
                    clean@.len() as int,
                ) =~= clean_segs(entries@[i as int].path@).skip(1));
                assert(rel@.map_values(|s: String| s@) == rel_segs(entries@[i as int].path@));
            }
            let action = if entries[i].is_dir {
                ExtractAction::MakeDir { rel }
            } else {
                ExtractAction::WriteFile { rel, data: clone_bytes(&entries[i].data) }
            };
            proof {
                assert(action_models(plan@.push(action)) =~= action_models(plan@).push(
                    action.model(),
                ));
            }
            plan.push(action);
        } else {
            proof {
                assert(rel_segs(entries@[i as int].path@).len() == 0);
            }
        }
        i = i + 1;
    }
    proof {
        assert(ms.take(ms.len() as int) =~= ms);
    }
    if plan.len() == 0 {
        Err(NveError::extract_err("empty archive"))
    } else {
        Ok(plan)
    }
}

/// No sanitized segment is dropped, so every planned path stays inside the
/// target: each of its segments is non-empty and is neither `.` nor `..`.
pub proof fn lemma_keep_segs_contained(segs: Seq<Seq<char>>)
    ensures
        forall|k: int|
            0 <= k < keep_segs(segs).len() ==> !dropped_seg(#[trigger] keep_segs(segs)[k]),
    decreases segs.len(),
{
    if segs.len() > 0 {
        lemma_keep_segs_contained(segs.drop_last());
        assert forall|k: int| 0 <= k < keep_segs(segs).len() implies !dropped_seg(
            #[trigger] keep_segs(segs)[k],
        ) by {
            if !dropped_seg(segs.last()) && k == keep_segs(segs).len() - 1 {
                assert(keep_segs(segs)[k] == segs.last());
            } else {
                assert(keep_segs(segs)[k] == keep_segs(segs.drop_last())[k]);
            }
        }
    }
}

/// Every action of a plan writes strictly below the target directory: its
/// relative path is non-empty, and none of its segments is empty, `.` or
/// `..` — no entry can escape by traversal or an absolute path.
pub proof fn lemma_plan_paths_contained(entries: Seq<(Seq<char>, bool, Seq<u8>)>)
    ensures
        forall|k: int|
            0 <= k < plan_of(entries).len() ==> (#[trigger] plan_of(entries)[k].0).len() > 0,
        forall|k: int, g: int|
            0 <= k < plan_of(entries).len() && 0 <= g < plan_of(entries)[k].0.len()
                ==> !dropped_seg(#[trigger] plan_of(entries)[k].0[g]),
    decreases entries.len(),
{
    if entries.len() > 0 {
        lemma_plan_paths_contained(entries.drop_last());
        let e = entries.last();
        let rest = plan_of(entries.drop_last());
        if rel_segs(e.0).len() > 0 {
            lemma_keep_segs_contained(split_char(e.0, '/'));
            assert forall|g: int| 0 <= g < rel_segs(e.0).len() implies !dropped_seg(
                #[trigger] rel_segs(e.0)[g],
            ) by {
                assert(rel_segs(e.0)[g] == clean_segs(e.0)[g + 1]);
            }
            assert forall|k: int| 0 <= k < plan_of(entries).len() implies (#[trigger] plan_of(
                entries,
            )[k].0).len() > 0 by {
                if k < rest.len() {
                    assert(plan_of(entries)[k] == rest[k]);
                } else {
                    assert(plan_of(entries)[k].0 == rel_segs(e.0));
                }
            }
            assert forall|k: int, g: int|
                0 <= k < plan_of(entries).len() && 0 <= g < plan_of(entries)[k].0.len() implies !dropped_seg(
                #[trigger] plan_of(entries)[k].0[g],
            ) by {
                if k < rest.len() {
                    assert(plan_of(entries)[k] == rest[k]);
                } else {
                    assert(plan_of(entries)[k].0 == rel_segs(e.0));
                }
            }
        } else {
            assert(plan_of(entries) == rest);
        }
    }
}

} // verus!
