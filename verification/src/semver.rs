use vstd::prelude::*;
use vstd::string::StrSliceExecFns;

use crate::text::{
    cmp_val, dec_val, find_char, is_digit, is_digits, lemma_lex_cmp_trans, lex_cmp, parse_u64,
    split_char, split_str, str_lex_cmp, Cmp,
};

verus! {

/// A fully qualified semantic version: `major.minor.patch`, an optional
/// pre-release chain and optional build metadata.
#[derive(Debug, Clone)]
pub struct SemVer {
    pub major: u64,
    pub minor: u64,
    pub patch: u64,
    pub pre: Vec<String>,
    pub build: Vec<String>,
}

impl SemVer {
    /// The pre-release identifiers, as character sequences.
    pub open spec fn pre_seq(&self) -> Seq<Seq<char>> {
        self.pre@.map_values(|s: String| s@)
    }

    /// The build-metadata identifiers, as character sequences.
    pub open spec fn build_seq(&self) -> Seq<Seq<char>> {
        self.build@.map_values(|s: String| s@)
    }
}

/// A numeric component of the version core: decimal digits, no leading zero,
/// and a value that fits in a `u64`.
pub open spec fn is_core_num(p: Seq<char>) -> bool {
    is_digits(p) && (p.len() == 1 || p[0] != '0') && dec_val(p) <= u64::MAX
}

/// A character allowed in pre-release and build identifiers.
pub open spec fn is_ident_char(c: char) -> bool {
    is_digit(c) || (97 <= (c as u32) && (c as u32) <= 122) || (65 <= (c as u32) && (c as u32)
        <= 90) || c == '-'
}

/// Every character of `s` is a decimal digit (holds for the empty sequence).
pub open spec fn all_digits(s: Seq<char>) -> bool {
    forall|i: int| 0 <= i < s.len() ==> is_digit(#[trigger] s[i])
}

/// A valid pre-release identifier: non-empty, identifier characters only,
/// and no leading zero if it is all digits.
pub open spec fn is_pre_ident(p: Seq<char>) -> bool {
    p.len() > 0 && (forall|i: int| 0 <= i < p.len() ==> is_ident_char(#[trigger] p[i])) && (
    all_digits(p) ==> (p.len() == 1 || p[0] != '0'))
}

/// A valid build identifier: non-empty, identifier characters only.
pub open spec fn is_build_ident(p: Seq<char>) -> bool {
    p.len() > 0 && (forall|i: int| 0 <= i < p.len() ==> is_ident_char(#[trigger] p[i]))
}

/// The part of `s` before its first `'+'`.
pub open spec fn before_plus(s: Seq<char>) -> Seq<char> {
    let f = find_char(s, '+');
    if f < 0 {
        s
    } else {
        s.take(f)
    }
}

/// The build metadata of `s`: what follows its first `'+'`, if any.
pub open spec fn build_part(s: Seq<char>) -> Option<Seq<char>> {
    let f = find_char(s, '+');
    if f < 0 {
        None
    } else {
        Some(s.skip(f + 1))
    }
}

/// The version core of `s`: the part before the first `'-'` that precedes
/// any `'+'`.
pub open spec fn core_part(s: Seq<char>) -> Seq<char> {
    let b = before_plus(s);
    let f = find_char(b, '-');
    if f < 0 {
        b
    } else {
        b.take(f)
    }
}

/// The pre-release part of `s`: what stands between the first `'-'` and the
/// build metadata, if such a `'-'` exists.
pub open spec fn pre_part(s: Seq<char>) -> Option<Seq<char>> {
    let b = before_plus(s);
    let f = find_char(b, '-');
    if f < 0 {
        None
    } else {
        Some(b.skip(f + 1))
    }
}

/// A valid version core: exactly three numeric components.
pub open spec fn core_ok(c: Seq<char>) -> bool {
    let parts = split_char(c, '.');
    parts.len() == 3 && is_core_num(parts[0]) && is_core_num(parts[1]) && is_core_num(parts[2])
}

/// A valid pre-release chain: dot-separated valid identifiers.
pub open spec fn pre_ok(p: Seq<char>) -> bool {
    let ids = split_char(p, '.');
    forall|i: int| 0 <= i < ids.len() ==> is_pre_ident(#[trigger] ids[i])
}

/// Valid build metadata: dot-separated valid identifiers.
pub open spec fn build_ok(p: Seq<char>) -> bool {
    let ids = split_char(p, '.');
    forall|i: int| 0 <= i < ids.len() ==> is_build_ident(#[trigger] ids[i])
}

/// Whether `s` is a valid full semantic version.
pub open spec fn sem_valid(s: Seq<char>) -> bool {
    &&& core_ok(core_part(s))
    &&& match pre_part(s) {
        Some(p) => pre_ok(p),
        None => true,
    }
    &&& match build_part(s) {
        Some(b) => build_ok(b),
        None => true,
    }
}

pub open spec fn sem_major(s: Seq<char>) -> int {
    dec_val(split_char(core_part(s), '.')[0])
}

pub open spec fn sem_minor(s: Seq<char>) -> int {
    dec_val(split_char(core_part(s), '.')[1])
}

pub open spec fn sem_patch(s: Seq<char>) -> int {
    dec_val(split_char(core_part(s), '.')[2])
}

/// The pre-release identifiers of `s` (empty when there is no pre-release).
pub open spec fn sem_pre(s: Seq<char>) -> Seq<Seq<char>> {
    match pre_part(s) {
        Some(p) => split_char(p, '.'),
        None => Seq::empty(),
    }
}

/// The build identifiers of `s` (empty when there is no build metadata).
pub open spec fn sem_build(s: Seq<char>) -> Seq<Seq<char>> {
    match build_part(s) {
        Some(b) => split_char(b, '.'),
        None => Seq::empty(),
    }
}

/// Finds the first occurrence of `sep` in `s`, by character index.
fn find_in_str(s: &str, sep: char) -> (r: Option<usize>)
    ensures
        r matches Some(i) ==> 0 <= i < s@.len() && find_char(s@, sep) == i,
        r is None ==> find_char(s@, sep) == -1,
{
    let n = s.unicode_len();
    let mut i: usize = 0;
    while i < n
        invariant
            n == s@.len(),
            0 <= i <= n,
            forall|k: int| 0 <= k < i ==> s@[k] != sep,
        decreases n - i,
    {
        if s.get_char(i) == sep {
            proof {
                crate::text::lemma_find_char_at_root(s@, sep, i as int);
            }
            return Some(i);
        }
        i = i + 1;
    }
    proof {
        crate::text::lemma_find_char_none_root(s@, sep);
    }
    None
}

/// Checks that `p` is a valid pre-release identifier.
fn check_pre_ident(p: &str) -> (r: bool)
    ensures
        r == is_pre_ident(p@),
{
    let n = p.unicode_len();
    if n == 0 {
        return false;
    }
    let mut i: usize = 0;
    let mut digits_only = true;
    while i < n
        invariant
            n == p@.len(),
            0 <= i <= n,
            forall|k: int| 0 <= k < i ==> is_ident_char(#[trigger] p@[k]),
            digits_only == (forall|k: int| 0 <= k < i ==> is_digit(#[trigger] p@[k])),
        decreases n - i,
    {
        let c = p.get_char(i);
        let is_d = '0' <= c && c <= '9';
        let ok = is_d || ('a' <= c && c <= 'z') || ('A' <= c && c <= 'Z') || c == '-';
        if !ok {
            return false;
        }
        digits_only = digits_only && is_d;
        i = i + 1;
    }
    if digits_only && n > 1 && p.get_char(0) == '0' {
        return false;
    }
    true
}

/// Checks that `p` is a valid build identifier.
fn check_build_ident(p: &str) -> (r: bool)
    ensures
        r == is_build_ident(p@),
{
    let n = p.unicode_len();
    if n == 0 {
        return false;
    }
    let mut i: usize = 0;
    while i < n
        invariant
            n == p@.len(),
            0 <= i <= n,
            forall|k: int| 0 <= k < i ==> is_ident_char(#[trigger] p@[k]),
        decreases n - i,
    {
        let c = p.get_char(i);
        let ok = ('0' <= c && c <= '9') || ('a' <= c && c <= 'z') || ('A' <= c && c <= 'Z') || c
            == '-';
        if !ok {
            return false;
        }
        i = i + 1;
    }
    true
}

/// Reads one numeric core component; succeeds exactly on `is_core_num`.
fn parse_core_num(p: &str) -> (r: Option<u64>)
    ensures
        r is Some <==> is_core_num(p@),
        r matches Some(v) ==> v == dec_val(p@),
{
    let n = p.unicode_len();
    if n > 1 && p.get_char(0) == '0' {
        return None;
    }
    parse_u64(p)
}

/// Parses a full semantic version.  Returns `None` exactly when the string
/// is not one.
pub fn parse_semver(s: &str) -> (r: Option<SemVer>)
    ensures
        r is Some <==> sem_valid(s@),
        r matches Some(v) ==> {
            &&& v.major == sem_major(s@)
            &&& v.minor == sem_minor(s@)
            &&& v.patch == sem_patch(s@)
            &&& v.pre_seq() == sem_pre(s@)
            &&& v.build_seq() == sem_build(s@)
        },
{
    let n = s.unicode_len();
    let (before, build_str): (&str, Option<&str>) = match find_in_str(s, '+') {
        Some(i) => {
            let b = s.substring_char(0, i);
            let rest = s.substring_char(i + 1, n);
            proof {
                assert(s@.subrange(0, i as int) =~= s@.take(i as int));
                assert(s@.subrange(i + 1, n as int) =~= s@.skip(i + 1));
            }
            (b, Some(rest))
        },
        None => (s, None),
    };
    let bn = before.unicode_len();
    let (core, pre_str): (&str, Option<&str>) = match find_in_str(before, '-') {
        Some(i) => {
            let c = before.substring_char(0, i);
            let rest = before.substring_char(i + 1, bn);
            proof {
                assert(before@.subrange(0, i as int) =~= before@.take(i as int));
                assert(before@.subrange(i + 1, bn as int) =~= before@.skip(i + 1));
            }
            (c, Some(rest))
        },
        None => (before, None),
    };
    proof {
        assert(before@ == before_plus(s@));
        assert(core@ == core_part(s@));
    }
    let core_parts = split_str(core, '.');
    if core_parts.len() != 3 {
        return None;
    }
    let major = match parse_core_num(core_parts[0].as_str()) {
        Some(v) => v,
        None => {
            return None;
        },
    };
    let minor = match parse_core_num(core_parts[1].as_str()) {
        Some(v) => v,
        None => {
            return None;
        },
    };
    let patch = match parse_core_num(core_parts[2].as_str()) {
        Some(v) => v,
        None => {
            return None;
        },
    };
    let pre: Vec<String> = match pre_str {
        Some(p) => {
            let ids = split_str(p, '.');
            let mut i: usize = 0;
            while i < ids.len()
                invariant
                    0 <= i <= ids@.len(),
                    ids@.map_values(|t: String| t@) == split_char(pre_part(s@).unwrap(), '.'),
                    pre_part(s@) is Some,
                    forall|k: int| 0 <= k < i ==> is_pre_ident(
                        #[trigger] split_char(pre_part(s@).unwrap(), '.')[k],
                    ),
                decreases ids@.len() - i,
            {
                if !check_pre_ident(ids[i].as_str()) {
                    proof {
                        assert(split_char(pre_part(s@).unwrap(), '.')[i as int] == ids@.map_values(
                            |t: String| t@,
                        )[i as int]);
                    }
                    return None;
                }
                i = i + 1;
            }
            ids
        },
        None => Vec::new(),
    };
    let build: Vec<String> = match build_str {
        Some(b) => {
            let ids = split_str(b, '.');
            let mut i: usize = 0;
            while i < ids.len()
                invariant
                    0 <= i <= ids@.len(),
                    ids@.map_values(|t: String| t@) == split_char(build_part(s@).unwrap(), '.'),
                    build_part(s@) is Some,
                    forall|k: int| 0 <= k < i ==> is_build_ident(
                        #[trigger] split_char(build_part(s@).unwrap(), '.')[k],
                    ),
                decreases ids@.len() - i,
            {
                if !check_build_ident(ids[i].as_str()) {
                    proof {
                        assert(split_char(build_part(s@).unwrap(), '.')[i as int] == ids@.map_values(
                            |t: String| t@,
                        )[i as int]);
                    }
                    return None;
                }
                i = i + 1;
            }
            ids
        },
        None => Vec::new(),
    };
    proof {
        if pre_part(s@) is None {
            assert(sem_pre(s@) =~= Seq::<Seq<char>>::empty());
            assert(Seq::<String>::empty().map_values(|t: String| t@) =~= Seq::<Seq<char>>::empty());
        }
        if build_part(s@) is None {
            assert(sem_build(s@) =~= Seq::<Seq<char>>::empty());
            assert(Seq::<String>::empty().map_values(|t: String| t@) =~= Seq::<Seq<char>>::empty());
        }
    }
    Some(SemVer { major, minor, patch, pre, build })
}

/// Three-way compare of two integers.
pub open spec fn int_cmp(a: int, b: int) -> int {
    if a < b {
        -1
    } else if a > b {
        1
    } else {
        0
    }
}

/// Numeric identifiers without leading zeros order by length, then text.
pub open spec fn num_ident_cmp(a: Seq<char>, b: Seq<char>) -> int {
    if a.len() != b.len() {
        int_cmp(a.len() as int, b.len() as int)
    } else {
        lex_cmp(a, b)
    }
}

/// Order of two pre-release identifiers: numeric ones order numerically and
/// come before alphanumeric ones; alphanumeric ones order by code point.
pub open spec fn pre_ident_cmp(a: Seq<char>, b: Seq<char>) -> int {
    if all_digits(a) && all_digits(b) {
        num_ident_cmp(a, b)
    } else if all_digits(a) {
        -1
    } else if all_digits(b) {
        1
    } else {
        lex_cmp(a, b)
    }
}

/// `s` without its leading zeros.
pub open spec fn trim_zeros(s: Seq<char>) -> Seq<char>
    decreases s.len(),
{
    if s.len() > 0 && s[0] == '0' {
        trim_zeros(s.drop_first())
    } else {
        s
    }
}

/// Order of two build identifiers.  Numeric ones (leading zeros allowed)
/// order by value and then by their written length; numeric ones come before
/// alphanumeric ones; alphanumeric ones order by code point.
pub open spec fn build_ident_cmp(a: Seq<char>, b: Seq<char>) -> int {
    if all_digits(a) && all_digits(b) {
        let ta = trim_zeros(a);
        let tb = trim_zeros(b);
        if ta.len() != tb.len() {
            int_cmp(ta.len() as int, tb.len() as int)
        } else if lex_cmp(ta, tb) != 0 {
            lex_cmp(ta, tb)
        } else {
            int_cmp(a.len() as int, b.len() as int)
        }
    } else if all_digits(a) {
        -1
    } else if all_digits(b) {
        1
    } else {
        lex_cmp(a, b)
    }
}

/// Identifier chains order element-wise; a chain that runs out first while
/// agreeing so far orders before the longer one.
pub open spec fn chain_cmp(
    f: spec_fn(Seq<char>, Seq<char>) -> int,
    p: Seq<Seq<char>>,
    q: Seq<Seq<char>>,
) -> int
    decreases p.len(),
{
    if p.len() == 0 && q.len() == 0 {
        0
    } else if p.len() == 0 {
        -1
    } else if q.len() == 0 {
        1
    } else if f(p[0], q[0]) != 0 {
        f(p[0], q[0])
    } else {
        chain_cmp(f, p.drop_first(), q.drop_first())
    }
}

pub open spec fn pre_f() -> spec_fn(Seq<char>, Seq<char>) -> int {
    |a: Seq<char>, b: Seq<char>| pre_ident_cmp(a, b)
}

pub open spec fn build_f() -> spec_fn(Seq<char>, Seq<char>) -> int {
    |a: Seq<char>, b: Seq<char>| build_ident_cmp(a, b)
}

/// Order of two pre-release chains: a release (no pre-release) comes after
/// every pre-release.
pub open spec fn pre_cmp(p: Seq<Seq<char>>, q: Seq<Seq<char>>) -> int {
    if p.len() == 0 && q.len() == 0 {
        0
    } else if p.len() == 0 {
        1
    } else if q.len() == 0 {
        -1
    } else {
        chain_cmp(pre_f(), p, q)
    }
}

/// Order of two build-metadata chains: absent metadata comes first.
pub open spec fn build_cmp(p: Seq<Seq<char>>, q: Seq<Seq<char>>) -> int {
    chain_cmp(build_f(), p, q)
}

/// The total order on parsed versions: numeric core first, then pre-release
/// precedence, with build metadata as the final tie-break.
pub open spec fn sem_cmp(a: &SemVer, b: &SemVer) -> int {
    if a.major != b.major {
        int_cmp(a.major as int, b.major as int)
    } else if a.minor != b.minor {
        int_cmp(a.minor as int, b.minor as int)
    } else if a.patch != b.patch {
        int_cmp(a.patch as int, b.patch as int)
    } else if pre_cmp(a.pre_seq(), b.pre_seq()) != 0 {
        pre_cmp(a.pre_seq(), b.pre_seq())
    } else {
        build_cmp(a.build_seq(), b.build_seq())
    }
}

/// The same order, read off two valid version strings.
pub open spec fn sem_str_cmp(x: Seq<char>, y: Seq<char>) -> int {
    if sem_major(x) != sem_major(y) {
        int_cmp(sem_major(x), sem_major(y))
    } else if sem_minor(x) != sem_minor(y) {
        int_cmp(sem_minor(x), sem_minor(y))
    } else if sem_patch(x) != sem_patch(y) {
        int_cmp(sem_patch(x), sem_patch(y))
    } else if pre_cmp(sem_pre(x), sem_pre(y)) != 0 {
        pre_cmp(sem_pre(x), sem_pre(y))
    } else {
        build_cmp(sem_build(x), sem_build(y))
    }
}

/// Versions whose components agree with two strings compare as the strings
/// do.
pub proof fn lemma_sem_cmp_str(va: &SemVer, vb: &SemVer, x: Seq<char>, y: Seq<char>)
    requires
        va.major == sem_major(x),
        va.minor == sem_minor(x),
        va.patch == sem_patch(x),
        va.pre_seq() == sem_pre(x),
        va.build_seq() == sem_build(x),
        vb.major == sem_major(y),
        vb.minor == sem_minor(y),
        vb.patch == sem_patch(y),
        vb.pre_seq() == sem_pre(y),
        vb.build_seq() == sem_build(y),
    ensures
        sem_cmp(va, vb) == sem_str_cmp(x, y),
{
}

/// Compares two strings as `trim_zeros` plus `lex_cmp` describe, after
/// dropping the leading zeros of each.
fn trim_zeros_str(s: &str) -> (r: &str)
    ensures
        r@ == trim_zeros(s@),
{
    let n = s.unicode_len();
    let mut k: usize = 0;
    while k < n && s.get_char(k) == '0'
        invariant
            n == s@.len(),
            0 <= k <= n,
            forall|j: int| 0 <= j < k ==> s@[j] == '0',
        decreases n - k,
    {
        k = k + 1;
    }
    proof {
        lemma_trim_zeros_skip(s@, k as int);
        assert(s@.subrange(k as int, n as int) =~= s@.skip(k as int));
    }
    s.substring_char(k, n)
}

/// If everything before `k` is a zero and `k` is not, trimming drops
/// exactly `k` characters.
proof fn lemma_trim_zeros_skip(s: Seq<char>, k: int)
    requires
        0 <= k <= s.len(),
        forall|j: int| 0 <= j < k ==> s[j] == '0',
        k < s.len() ==> s[k] != '0',
    ensures
        trim_zeros(s) == s.skip(k),
    decreases k,
{
    if k == 0 {
        assert(s.skip(0) =~= s);
    } else {
        assert(s[0] == '0');
        lemma_trim_zeros_skip(s.drop_first(), k - 1);
        assert(s.drop_first().skip(k - 1) =~= s.skip(k));
    }
}

/// Compares two pre-release identifiers.
fn pre_ident_cmp_str(a: &str, b: &str) -> (r: Cmp)
    ensures
        cmp_val(r) == pre_ident_cmp(a@, b@),
{
    let da = crate::text::str_all_digits(a);
    let db = crate::text::str_all_digits(b);
    if da && db {
        let an = a.unicode_len();
        let bn = b.unicode_len();
        if an != bn {
            if an < bn {
                Cmp::Lt
            } else {
                Cmp::Gt
            }
        } else {
            str_lex_cmp(a, b)
        }
    } else if da {
        Cmp::Lt
    } else if db {
        Cmp::Gt
    } else {
        str_lex_cmp(a, b)
    }
}

/// Compares two build identifiers.
fn build_ident_cmp_str(a: &str, b: &str) -> (r: Cmp)
    ensures
        cmp_val(r) == build_ident_cmp(a@, b@),
{
    let da = crate::text::str_all_digits(a);
    let db = crate::text::str_all_digits(b);
    if da && db {
        let ta = trim_zeros_str(a);
        let tb = trim_zeros_str(b);
        let tan = ta.unicode_len();
        let tbn = tb.unicode_len();
        if tan != tbn {
            if tan < tbn {
                Cmp::Lt
            } else {
                Cmp::Gt
            }
        } else {
            let c = str_lex_cmp(ta, tb);
            if !(c == Cmp::Eq) {
                c
            } else {
                let an = a.unicode_len();
                let bn = b.unicode_len();
                if an < bn {
                    Cmp::Lt
                } else if bn < an {
                    Cmp::Gt
                } else {
                    Cmp::Eq
                }
            }
        }
    } else if da {
        Cmp::Lt
    } else if db {
        Cmp::Gt
    } else {
        str_lex_cmp(a, b)
    }
}

/// Stepping over an equal pair keeps a chain comparison.
proof fn lemma_chain_step(
    f: spec_fn(Seq<char>, Seq<char>) -> int,
    p: Seq<Seq<char>>,
    q: Seq<Seq<char>>,
    i: int,
)
    requires
        0 <= i < p.len(),
        0 <= i < q.len(),
        f(p[i], q[i]) == 0,
    ensures
        chain_cmp(f, p.skip(i), q.skip(i)) == chain_cmp(f, p.skip(i + 1), q.skip(i + 1)),
{
    assert(p.skip(i)[0] == p[i]);
    assert(q.skip(i)[0] == q[i]);
    assert(p.skip(i).drop_first() =~= p.skip(i + 1));
    assert(q.skip(i).drop_first() =~= q.skip(i + 1));
}

/// Compares two pre-release chains of identifiers element-wise.
fn pre_chain_cmp_vec(p: &Vec<String>, q: &Vec<String>) -> (r: Cmp)
    ensures
        cmp_val(r) == chain_cmp(
            pre_f(),
            p@.map_values(|s: String| s@),
            q@.map_values(|s: String| s@),
        ),
{
    let ghost pm = p@.map_values(|s: String| s@);
    let ghost qm = q@.map_values(|s: String| s@);
    let mut i: usize = 0;
    proof {
        assert(pm.skip(0) =~= pm);
        assert(qm.skip(0) =~= qm);
    }
    loop
        invariant
            pm == p@.map_values(|s: String| s@),
            qm == q@.map_values(|s: String| s@),
            0 <= i <= p@.len(),
            0 <= i <= q@.len(),
            chain_cmp(pre_f(), pm, qm) == chain_cmp(pre_f(), pm.skip(i as int), qm.skip(i as int)),
        decreases p@.len() - i,
    {
        if i == p.len() && i == q.len() {
            return Cmp::Eq;
        }
        if i == p.len() {
            return Cmp::Lt;
        }
        if i == q.len() {
            return Cmp::Gt;
        }
        let c = pre_ident_cmp_str(p[i].as_str(), q[i].as_str());
        proof {
            assert(pm.skip(i as int)[0] == pm[i as int]);
            assert(qm.skip(i as int)[0] == qm[i as int]);
        }
        if !(c == Cmp::Eq) {
            return c;
        }
        proof {
            lemma_chain_step(pre_f(), pm, qm, i as int);
        }
        i = i + 1;
    }
}

/// Compares two build chains of identifiers element-wise.
fn build_chain_cmp_vec(p: &Vec<String>, q: &Vec<String>) -> (r: Cmp)
    ensures
        cmp_val(r) == build_cmp(p@.map_values(|s: String| s@), q@.map_values(|s: String| s@)),
{
    let ghost pm = p@.map_values(|s: String| s@);
    let ghost qm = q@.map_values(|s: String| s@);
    let mut i: usize = 0;
    proof {
        assert(pm.skip(0) =~= pm);
        assert(qm.skip(0) =~= qm);
    }
    loop
        invariant
            pm == p@.map_values(|s: String| s@),
            qm == q@.map_values(|s: String| s@),
            0 <= i <= p@.len(),
            0 <= i <= q@.len(),
            chain_cmp(build_f(), pm, qm) == chain_cmp(
                build_f(),
                pm.skip(i as int),
                qm.skip(i as int),
            ),
        decreases p@.len() - i,
    {
        if i == p.len() && i == q.len() {
            return Cmp::Eq;
        }
        if i == p.len() {
            return Cmp::Lt;
        }
        if i == q.len() {
            return Cmp::Gt;
        }
        let c = build_ident_cmp_str(p[i].as_str(), q[i].as_str());
        proof {
            assert(pm.skip(i as int)[0] == pm[i as int]);
            assert(qm.skip(i as int)[0] == qm[i as int]);
        }
        if !(c == Cmp::Eq) {
            return c;
        }
        proof {
            lemma_chain_step(build_f(), pm, qm, i as int);
        }
        i = i + 1;
    }
}

/// Compares two parsed versions in the total order `sem_cmp`.
pub fn semver_cmp(a: &SemVer, b: &SemVer) -> (r: Cmp)
    ensures
        cmp_val(r) == sem_cmp(a, b),
{
    if a.major != b.major {
        return if a.major < b.major {
            Cmp::Lt
        } else {
            Cmp::Gt
        };
    }
    if a.minor != b.minor {
        return if a.minor < b.minor {
            Cmp::Lt
        } else {
            Cmp::Gt
        };
    }
    if a.patch != b.patch {
        return if a.patch < b.patch {
            Cmp::Lt
        } else {
            Cmp::Gt
        };
    }
    let pc = if a.pre.len() == 0 && b.pre.len() == 0 {
        Cmp::Eq
    } else if a.pre.len() == 0 {
        Cmp::Gt
    } else if b.pre.len() == 0 {
        Cmp::Lt
    } else {
        pre_chain_cmp_vec(&a.pre, &b.pre)
    };
    if !(pc == Cmp::Eq) {
        return pc;
    }
    build_chain_cmp_vec(&a.build, &b.build)
}

/// `pre_ident_cmp` is transitive; an equal outcome forces both legs equal.
proof fn lemma_pre_ident_cmp_trans(a: Seq<char>, b: Seq<char>, c: Seq<char>)
    requires
        pre_ident_cmp(a, b) <= 0,
        pre_ident_cmp(b, c) <= 0,
    ensures
        pre_ident_cmp(a, c) <= 0,
        pre_ident_cmp(a, c) == 0 ==> pre_ident_cmp(a, b) == 0 && pre_ident_cmp(b, c) == 0,
{
    if all_digits(a) && all_digits(b) && all_digits(c) {
        assert(a.len() <= b.len() && b.len() <= c.len());
        if a.len() == c.len() {
            lemma_lex_cmp_trans(a, b, c);
        }
    } else if !all_digits(a) && !all_digits(b) && !all_digits(c) {
        lemma_lex_cmp_trans(a, b, c);
    }
}

/// `build_ident_cmp` is transitive; an equal outcome forces both legs equal.
proof fn lemma_build_ident_cmp_trans(a: Seq<char>, b: Seq<char>, c: Seq<char>)
    requires
        build_ident_cmp(a, b) <= 0,
        build_ident_cmp(b, c) <= 0,
    ensures
        build_ident_cmp(a, c) <= 0,
        build_ident_cmp(a, c) == 0 ==> build_ident_cmp(a, b) == 0 && build_ident_cmp(b, c) == 0,
{
    if all_digits(a) && all_digits(b) && all_digits(c) {
        let ta = trim_zeros(a);
        let tb = trim_zeros(b);
        let tc = trim_zeros(c);
        assert(ta.len() <= tb.len() && tb.len() <= tc.len());
        if ta.len() == tc.len() {
            lemma_lex_cmp_trans(ta, tb, tc);
            if lex_cmp(ta, tc) == 0 {
                assert(a.len() <= b.len() && b.len() <= c.len());
            }
        }
    } else if !all_digits(a) && !all_digits(b) && !all_digits(c) {
        lemma_lex_cmp_trans(a, b, c);
    }
}

/// Chains compare transitively when their element order does.
proof fn lemma_chain_cmp_trans(
    f: spec_fn(Seq<char>, Seq<char>) -> int,
    p: Seq<Seq<char>>,
    q: Seq<Seq<char>>,
    r: Seq<Seq<char>>,
)
    requires
        forall|x: Seq<char>, y: Seq<char>, z: Seq<char>|
            #![trigger f(x, y), f(y, z)]
            f(x, y) <= 0 && f(y, z) <= 0 ==> f(x, z) <= 0 && (f(x, z) == 0 ==> f(x, y) == 0 && f(
                y,
                z,
            ) == 0),
        chain_cmp(f, p, q) <= 0,
        chain_cmp(f, q, r) <= 0,
    ensures
        chain_cmp(f, p, r) <= 0,
        chain_cmp(f, p, r) == 0 ==> chain_cmp(f, p, q) == 0 && chain_cmp(f, q, r) == 0,
    decreases p.len(),
{
    if p.len() == 0 {
        if r.len() == 0 && q.len() > 0 {
            assert(chain_cmp(f, q, r) == 1);
        }
    } else {
        assert(q.len() > 0) by {
            if q.len() == 0 {
                assert(chain_cmp(f, p, q) == 1);
            }
        }
        assert(r.len() > 0) by {
            if r.len() == 0 {
                assert(chain_cmp(f, q, r) == 1);
            }
        }
        let c1 = f(p[0], q[0]);
        let c2 = f(q[0], r[0]);
        assert(c1 <= 0) by {
            if c1 > 0 {
                assert(chain_cmp(f, p, q) == c1);
            }
        }
        assert(c2 <= 0) by {
            if c2 > 0 {
                assert(chain_cmp(f, q, r) == c2);
            }
        }
        assert(f(p[0], r[0]) <= 0 && (f(p[0], r[0]) == 0 ==> c1 == 0 && c2 == 0));
        if f(p[0], r[0]) == 0 {
            lemma_chain_cmp_trans(f, p.drop_first(), q.drop_first(), r.drop_first());
        }
    }
}

/// The element-order premise of `lemma_chain_cmp_trans`, for pre-release
/// identifiers.
proof fn lemma_pre_f_trans()
    ensures
        forall|x: Seq<char>, y: Seq<char>, z: Seq<char>|
            #![trigger pre_f()(x, y), pre_f()(y, z)]
            pre_f()(x, y) <= 0 && pre_f()(y, z) <= 0 ==> pre_f()(x, z) <= 0 && (pre_f()(x, z) == 0
                ==> pre_f()(x, y) == 0 && pre_f()(y, z) == 0),
{
    assert forall|x: Seq<char>, y: Seq<char>, z: Seq<char>|
        #![trigger pre_f()(x, y), pre_f()(y, z)]
        pre_f()(x, y) <= 0 && pre_f()(y, z) <= 0 implies pre_f()(x, z) <= 0 && (pre_f()(x, z) == 0
        ==> pre_f()(x, y) == 0 && pre_f()(y, z) == 0) by {
        lemma_pre_ident_cmp_trans(x, y, z);
    }
}

/// The element-order premise of `lemma_chain_cmp_trans`, for build
/// identifiers.
proof fn lemma_build_f_trans()
    ensures
        forall|x: Seq<char>, y: Seq<char>, z: Seq<char>|
            #![trigger build_f()(x, y), build_f()(y, z)]
            build_f()(x, y) <= 0 && build_f()(y, z) <= 0 ==> build_f()(x, z) <= 0 && (build_f()(
                x,
                z,
            ) == 0 ==> build_f()(x, y) == 0 && build_f()(y, z) == 0),
{
    assert forall|x: Seq<char>, y: Seq<char>, z: Seq<char>|
        #![trigger build_f()(x, y), build_f()(y, z)]
        build_f()(x, y) <= 0 && build_f()(y, z) <= 0 implies build_f()(x, z) <= 0 && (build_f()(
        x,
        z,
    ) == 0 ==> build_f()(x, y) == 0 && build_f()(y, z) == 0) by {
        lemma_build_ident_cmp_trans(x, y, z);
    }
}

/// `pre_cmp` is transitive; an equal outcome forces both legs equal.
proof fn lemma_pre_cmp_trans(p: Seq<Seq<char>>, q: Seq<Seq<char>>, r: Seq<Seq<char>>)
    requires
        pre_cmp(p, q) <= 0,
        pre_cmp(q, r) <= 0,
    ensures
        pre_cmp(p, r) <= 0,
        pre_cmp(p, r) == 0 ==> pre_cmp(p, q) == 0 && pre_cmp(q, r) == 0,
{
    if p.len() > 0 && q.len() > 0 && r.len() > 0 {
        lemma_pre_f_trans();
        lemma_chain_cmp_trans(pre_f(), p, q, r);
    }
}

/// `pre_ident_cmp` flips its sign when the sides swap.
proof fn lemma_pre_ident_cmp_antisym(a: Seq<char>, b: Seq<char>)
    ensures
        pre_ident_cmp(b, a) == -pre_ident_cmp(a, b),
{
    crate::text::lemma_lex_cmp_antisym(a, b);
}

/// `build_ident_cmp` flips its sign when the sides swap.
proof fn lemma_build_ident_cmp_antisym(a: Seq<char>, b: Seq<char>)
    ensures
        build_ident_cmp(b, a) == -build_ident_cmp(a, b),
{
    crate::text::lemma_lex_cmp_antisym(a, b);
    crate::text::lemma_lex_cmp_antisym(trim_zeros(a), trim_zeros(b));
}

/// Chain comparison flips its sign when the sides swap, provided the
/// element order does.
proof fn lemma_chain_cmp_antisym(
    f: spec_fn(Seq<char>, Seq<char>) -> int,
    p: Seq<Seq<char>>,
    q: Seq<Seq<char>>,
)
    requires
        forall|x: Seq<char>, y: Seq<char>| #[trigger] f(x, y) == -f(y, x),
    ensures
        chain_cmp(f, q, p) == -chain_cmp(f, p, q),
    decreases p.len(),
{
    if p.len() > 0 && q.len() > 0 {
        assert(f(q[0], p[0]) == -f(p[0], q[0]));
        if f(p[0], q[0]) == 0 {
            lemma_chain_cmp_antisym(f, p.drop_first(), q.drop_first());
        }
    }
}

/// The order on version strings flips its sign when the sides swap.
pub proof fn lemma_sem_str_cmp_antisym(x: Seq<char>, y: Seq<char>)
    ensures
        sem_str_cmp(y, x) == -sem_str_cmp(x, y),
{
    assert forall|a: Seq<char>, b: Seq<char>| #[trigger] pre_f()(a, b) == -pre_f()(b, a) by {
        lemma_pre_ident_cmp_antisym(b, a);
    }
    assert forall|a: Seq<char>, b: Seq<char>| #[trigger] build_f()(a, b) == -build_f()(b, a) by {
        lemma_build_ident_cmp_antisym(b, a);
    }
    lemma_chain_cmp_antisym(pre_f(), sem_pre(x), sem_pre(y));
    lemma_chain_cmp_antisym(build_f(), sem_build(x), sem_build(y));
}

/// The order `sem_str_cmp` on valid version strings is transitive.
pub proof fn lemma_sem_str_cmp_trans(x: Seq<char>, y: Seq<char>, z: Seq<char>)
    requires
        sem_str_cmp(x, y) <= 0,
        sem_str_cmp(y, z) <= 0,
    ensures
        sem_str_cmp(x, z) <= 0,
{
    assert(sem_major(x) <= sem_major(y) && sem_major(y) <= sem_major(z));
    if sem_major(x) == sem_major(z) {
        assert(sem_minor(x) <= sem_minor(y) && sem_minor(y) <= sem_minor(z));
        if sem_minor(x) == sem_minor(z) {
            assert(sem_patch(x) <= sem_patch(y) && sem_patch(y) <= sem_patch(z));
            if sem_patch(x) == sem_patch(z) {
                assert(pre_cmp(sem_pre(x), sem_pre(y)) <= 0);
                assert(pre_cmp(sem_pre(y), sem_pre(z)) <= 0);
                lemma_pre_cmp_trans(sem_pre(x), sem_pre(y), sem_pre(z));
                if pre_cmp(sem_pre(x), sem_pre(z)) == 0 {
                    assert(build_cmp(sem_build(x), sem_build(y)) <= 0);
                    assert(build_cmp(sem_build(y), sem_build(z)) <= 0);
                    lemma_build_f_trans();
                    lemma_chain_cmp_trans(build_f(), sem_build(x), sem_build(y), sem_build(z));
                }
            }
        }
    }
}

} // verus!
