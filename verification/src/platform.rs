use vstd::prelude::*;
use vstd::string::StringExecFns;

use crate::error::NveError;
use crate::text::{find_char, split_char, split_str};

verus! {

/// The Unix flavours the distribution names.
#[derive(Debug, Clone, Copy, PartialEq, Eq, Structural)]
pub enum UnixOs {
    Linux,
    Darwin,
}

/// The processor architectures the distribution names.
#[derive(Debug, Clone, Copy, PartialEq, Eq, Structural)]
pub enum Arch {
    X64,
    Arm64,
}

/// The distribution's name for a Unix flavour.
pub open spec fn unix_os_tag(os: UnixOs) -> Seq<char> {
    match os {
        UnixOs::Linux => "linux"@,
        UnixOs::Darwin => "darwin"@,
    }
}

/// The distribution's name for an architecture.
pub open spec fn arch_tag(arch: Arch) -> Seq<char> {
    match arch {
        Arch::X64 => "x64"@,
        Arch::Arm64 => "arm64"@,
    }
}

fn unix_os_tag_str(os: UnixOs) -> (r: &'static str)
    ensures
        r@ == unix_os_tag(os),
{
    match os {
        UnixOs::Linux => "linux",
        UnixOs::Darwin => "darwin",
    }
}

fn arch_tag_str(arch: Arch) -> (r: &'static str)
    ensures
        r@ == arch_tag(arch),
{
    match arch {
        Arch::X64 => "x64",
        Arch::Arm64 => "arm64",
    }
}

/// The platform strategy for Unix hosts, where the activation pointer is a
/// symbolic link.  The host's flavour and architecture are detected by the
/// surrounding application and handed in once.
#[derive(Debug, Clone, Copy)]
pub struct UnixPlatform {
    pub os: UnixOs,
    pub arch: Arch,
}

impl UnixPlatform {
    pub fn new(os: UnixOs, arch: Arch) -> (r: Result<UnixPlatform, NveError>)
        ensures
            r matches Ok(p) && p.os == os && p.arch == arch,
    {
        Ok(UnixPlatform { os, arch })
    }

    /// The distribution's names for this host.
    pub fn os_arch(&self) -> (r: (String, String))
        ensures
            r.0@ == unix_os_tag(self.os),
            r.1@ == arch_tag(self.arch),
    {
        (
            String::from_str(unix_os_tag_str(self.os)),
            String::from_str(arch_tag_str(self.arch)),
        )
    }

    /// The archive file name of a version for this host.
    pub fn archive_name(&self, version: &str) -> (r: String)
        ensures
            r@ == "node-v"@ + version@ + "-"@ + unix_os_tag(self.os) + "-"@ + arch_tag(self.arch)
                + ".tar.xz"@,
    {
        String::from_str("node-v").concat(version).concat("-").concat(
            unix_os_tag_str(self.os),
        ).concat("-").concat(arch_tag_str(self.arch)).concat(".tar.xz")
    }
}

/// The platform strategy for Windows hosts, where the activation pointer
/// is a directory junction.
#[derive(Debug, Clone, Copy)]
pub struct WindowsPlatform {
    pub arch: Arch,
}

impl WindowsPlatform {
    pub fn new(arch: Arch) -> (r: Result<WindowsPlatform, NveError>)
        ensures
            r matches Ok(p) && p.arch == arch,
    {
        Ok(WindowsPlatform { arch })
    }

    /// The distribution's names for this host.
    pub fn os_arch(&self) -> (r: (String, String))
        ensures
            r.0@ == "win"@,
            r.1@ == arch_tag(self.arch),
    {
        (String::from_str("win"), String::from_str(arch_tag_str(self.arch)))
    }

    /// The archive file name of a version for this host.
    pub fn archive_name(&self, version: &str) -> (r: String)
        ensures
            r@ == "node-v"@ + version@ + "-win-"@ + arch_tag(self.arch) + ".zip"@,
    {
        String::from_str("node-v").concat(version).concat("-win-").concat(
            arch_tag_str(self.arch),
        ).concat(".zip")
    }

    /// The name of a version's directory on this host.
    pub fn version_dir_name_for(&self, version: &str) -> (r: String)
        ensures
            r@ == "node-v"@ + version@ + "-win-"@ + arch_tag(self.arch),
    {
        String::from_str("node-v").concat(version).concat("-win-").concat(
            arch_tag_str(self.arch),
        )
    }
}

/// The non-empty path segments of `p`, split on `'/'`.
pub open spec fn path_segs(p: Seq<char>) -> Seq<Seq<char>> {
    nonempty_segs(split_char(p, '/'))
}

/// The segments of a split path that are non-empty, in order.
pub open spec fn nonempty_segs(segs: Seq<Seq<char>>) -> Seq<Seq<char>>
    decreases segs.len(),
{
    if segs.len() == 0 {
        Seq::empty()
    } else if segs.last().len() == 0 {
        nonempty_segs(segs.drop_last())
    } else {
        nonempty_segs(segs.drop_last()).push(segs.last())
    }
}

/// Whether a resolved pointer target designates a version tag: the tag's
/// segments are non-empty and equal the target's trailing segments.
pub open spec fn target_designates(target: Seq<char>, tag: Seq<char>) -> bool {
    let t = path_segs(target);
    let v = path_segs(tag);
    &&& v.len() > 0
    &&& t.len() >= v.len()
    &&& t.skip(t.len() - v.len()) == v
}

/// The non-empty segments of a path.
fn split_path_segs(p: &str) -> (r: Vec<String>)
    ensures
        r@.map_values(|s: String| s@) == path_segs(p@),
{
    let segs = split_str(p, '/');
    let mut out: Vec<String> = Vec::new();
    let mut i: usize = 0;
    let ghost segs_model = segs@.map_values(|s: String| s@);
    proof {
        assert(segs_model.take(0) =~= Seq::<Seq<char>>::empty());
        assert(out@.map_values(|s: String| s@) =~= nonempty_segs(segs_model.take(0)));
    }
    while i < segs.len()
        invariant
            0 <= i <= segs@.len(),
            segs_model == segs@.map_values(|s: String| s@),
            segs_model == split_char(p@, '/'),
            out@.map_values(|s: String| s@) == nonempty_segs(segs_model.take(i as int)),
        decreases segs@.len() - i,
    {
        proof {
            assert(segs_model.take(i + 1).drop_last() =~= segs_model.take(i as int));
            assert(segs_model.take(i + 1).last() == segs_model[i as int]);
            assert(segs_model[i as int] == segs@[i as int]@);
        }
        if segs[i].as_str().unicode_len() > 0 {
            let x = segs[i].clone();
            proof {
                assert(out@.push(x).map_values(|s: String| s@) =~= out@.map_values(
                    |s: String| s@,
                ).push(x@));
            }
            out.push(x);
        }
        i = i + 1;
    }
    proof {
        assert(segs_model.take(segs_model.len() as int) =~= segs_model);
    }
    out
}

/// Decides whether a resolved pointer target designates a version tag.
/// The caller reads the pointer; this settles what it points at.
pub fn is_current_target(target: &str, tag: &str) -> (r: bool)
    ensures
        r == target_designates(target@, tag@),
{
    let t = split_path_segs(target);
    let v = split_path_segs(tag);
    if v.len() == 0 || t.len() < v.len() {
        return false;
    }
    let off: usize = t.len() - v.len();
    let ghost tm = t@.map_values(|s: String| s@);
    let ghost vm = v@.map_values(|s: String| s@);
    let mut i: usize = 0;
    while i < v.len()
        invariant
            0 <= i <= v@.len(),
            v@.len() <= t@.len(),
            off == t@.len() - v@.len(),
            tm == t@.map_values(|s: String| s@),
            vm == v@.map_values(|s: String| s@),
            tm == path_segs(target@),
            vm == path_segs(tag@),
            t@.len() <= usize::MAX,
            forall|k: int| 0 <= k < i ==> tm[off + k] == vm[k],
        decreases v@.len() - i,
    {
        proof {
            assert(off + i < t@.len());
        }
        if !(t[off + i] == v[i]) {
            proof {
                assert(tm[off + i as int] != vm[i as int]);
                assert(tm.skip(tm.len() - vm.len())[i as int] == tm[off + i as int]);
            }
            return false;
        }
        i = i + 1;
    }
    proof {
        assert(tm.skip(tm.len() - vm.len()) =~= vm);
    }
    true
}

/// The activation pointer's state: absent, present but empty (after the
/// active version was removed), or designating one version directory.
#[derive(Debug)]
pub enum CurrentRef {
    Absent,
    Empty,
    Active { version_dir: String },
}

/// Whether a pointer state makes the given version tag current.
pub open spec fn ref_designates(c: &CurrentRef, tag: Seq<char>) -> bool {
    match c {
        CurrentRef::Active { version_dir } => target_designates(version_dir@, tag),
        _ => false,
    }
}

/// The activation state machine: one mutable pointer, at most one active
/// version, switched and cleared destructively but atomically.  The
/// surrounding application mirrors each transition onto the platform
/// primitive (symbolic link, junction, or full copy).
#[derive(Debug)]
pub struct Activation {
    pub current: CurrentRef,
}

impl Activation {
    /// A host starts with no pointer at all.
    pub fn start() -> (r: Activation)
        ensures
            r.current is Absent,
    {
        Activation { current: CurrentRef::Absent }
    }

    /// Activates a version directory.  Destructive-idempotent: whatever
    /// the pointer held before — nothing, an empty container, or another
    /// version — it designates exactly the given directory afterwards.
    pub fn set_current(&mut self, version_dir: &str)
        ensures
            final(self).current matches CurrentRef::Active { version_dir: d } && d@
                == version_dir@,
    {
        self.current = CurrentRef::Active { version_dir: String::from_str(version_dir) };
    }

    /// Removes the active version: the pointer stays present but becomes
    /// an empty container, so existence checks keep behaving the same on
    /// every platform.
    pub fn clear_active(&mut self)
        ensures
            final(self).current is Empty,
            forall|t: Seq<char>| !ref_designates(&final(self).current, t),
    {
        self.current = CurrentRef::Empty;
    }

    /// Whether the given tag names the active version.  False — never an
    /// error — when the pointer is absent or empty.
    pub fn is_current(&self, tag: &str) -> (r: bool)
        ensures
            r == ref_designates(&self.current, tag@),
    {
        match &self.current {
            CurrentRef::Active { version_dir } => is_current_target(version_dir.as_str(), tag),
            _ => false,
        }
    }
}

/// A plain version tag: non-empty, without a separator.
pub open spec fn plain_tag(t: Seq<char>) -> bool {
    t.len() > 0 && find_char(t, '/') == -1
}

/// At most one version is active: after the pointer is set to a version
/// directory, a plain tag is current exactly when it is the directory's
/// final segment — so two different plain tags are never both current.
pub proof fn lemma_one_version_active(c: &CurrentRef, t1: Seq<char>, t2: Seq<char>)
    requires
        plain_tag(t1),
        plain_tag(t2),
        t1 != t2,
        ref_designates(c, t1),
    ensures
        !ref_designates(c, t2),
{
    let d = c->Active_version_dir;
    lemma_plain_tag_segs(t1);
    lemma_plain_tag_segs(t2);
    let t = path_segs(d@);
    assert(t.skip(t.len() - 1) =~= seq![t.last()]);
    assert(t.last() == t1);
    if ref_designates(c, t2) {
        assert(t.last() == t2);
    }
}

/// A plain tag is its own single path segment.
proof fn lemma_plain_tag_segs(t: Seq<char>)
    requires
        plain_tag(t),
    ensures
        path_segs(t) =~= seq![t],
{
    assert(find_char(t, '/') == -1);
    assert(split_char(t, '/') =~= seq![t]);
    assert(seq![t].drop_last() =~= Seq::<Seq<char>>::empty());
    assert(seq![t].last() == t);
    assert(nonempty_segs(Seq::<Seq<char>>::empty()) =~= Seq::<Seq<char>>::empty());
    assert(nonempty_segs(seq![t]) =~= Seq::<Seq<char>>::empty().push(t));
}

} // verus!
