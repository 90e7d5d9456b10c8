use vstd::prelude::*;
use vstd::string::StrSliceExecFns;
use vstd::string::StringExecFns;

verus! {

/// Three-way comparison result.
#[derive(Clone, Copy, Debug, PartialEq, Eq, Structural)]
pub enum Cmp {
    Lt,
    Eq,
    Gt,
}

/// The integer a `Cmp` stands for: -1, 0 or 1.
pub open spec fn cmp_val(c: Cmp) -> int {
    match c {
        Cmp::Lt => -1,
        Cmp::Eq => 0,
        Cmp::Gt => 1,
    }
}

/// Index of the first occurrence of `sep` in `s`, or -1 if `sep` does not
/// occur.
pub open spec fn find_char(s: Seq<char>, sep: char) -> int
    decreases s.len(),
{
    if s.len() == 0 {
        -1
    } else if s[0] == sep {
        0
    } else {
        let r = find_char(s.drop_first(), sep);
        if r < 0 {
            -1
        } else {
            r + 1
        }
    }
}

/// `s` split on `sep`: always one piece more than there are separators.
pub open spec fn split_char(s: Seq<char>, sep: char) -> Seq<Seq<char>>
    decreases s.len(),
{
    let f = find_char(s, sep);
    if 0 <= f < s.len() {
        seq![s.take(f)] + split_char(s.skip(f + 1), sep)
    } else {
        seq![s]
    }
}

/// If `s` has no `sep` before position `i` and `s[i] == sep`, then the first
/// `sep` of `s.skip(start)` stands at `i - start`.
proof fn lemma_find_char_at(s: Seq<char>, sep: char, start: int, i: int)
    requires
        0 <= start <= i < s.len(),
        forall|k: int| start <= k < i ==> s[k] != sep,
        s[i] == sep,
    ensures
        find_char(s.skip(start), sep) == i - start,
    decreases i - start,
{
    if start == i {
        assert(s.skip(start)[0] == sep);
    } else {
        lemma_find_char_at(s, sep, start + 1, i);
        assert(s.skip(start)[0] == s[start]);
        assert(s.skip(start).drop_first() =~= s.skip(start + 1));
    }
}

/// If `s` has no `sep` at or after `start`, `s.skip(start)` has none at all.
proof fn lemma_find_char_none(s: Seq<char>, sep: char, start: int)
    requires
        0 <= start <= s.len(),
        forall|k: int| start <= k < s.len() ==> s[k] != sep,
    ensures
        find_char(s.skip(start), sep) == -1,
    decreases s.len() - start,
{
    if start < s.len() {
        lemma_find_char_none(s, sep, start + 1);
        assert(s.skip(start)[0] == s[start]);
        assert(s.skip(start).drop_first() =~= s.skip(start + 1));
    }
}

/// The first `sep` of `s` stands at `i` if nothing before `i` is `sep`.
pub proof fn lemma_find_char_at_root(s: Seq<char>, sep: char, i: int)
    requires
        0 <= i < s.len(),
        forall|k: int| 0 <= k < i ==> s[k] != sep,
        s[i] == sep,
    ensures
        find_char(s, sep) == i,
{
    lemma_find_char_at(s, sep, 0, i);
    assert(s.skip(0) =~= s);
}

/// A sequence without `sep` has no first occurrence of it.
pub proof fn lemma_find_char_none_root(s: Seq<char>, sep: char)
    requires
        forall|k: int| 0 <= k < s.len() ==> s[k] != sep,
    ensures
        find_char(s, sep) == -1,
{
    lemma_find_char_none(s, sep, 0);
    assert(s.skip(0) =~= s);
}

/// Splits `s` on `sep`, as `split_char` describes.
pub fn split_str(s: &str, sep: char) -> (r: Vec<String>)
    ensures
        r@.map_values(|t: String| t@) == split_char(s@, sep),
{
    let n = s.unicode_len();
    let mut pieces: Vec<String> = Vec::new();
    let mut start: usize = 0;
    let mut i: usize = 0;
    proof {
        assert(s@.skip(0) =~= s@);
        assert(Seq::<String>::empty().map_values(|t: String| t@) =~= Seq::<Seq<char>>::empty());
    }
    while i < n
        invariant
            n == s@.len(),
            0 <= start <= i <= n,
            forall|k: int| start <= k < i ==> s@[k] != sep,
            split_char(s@, sep) == pieces@.map_values(|t: String| t@) + split_char(
                s@.skip(start as int),
                sep,
            ),
        decreases n - i,
    {
        let c = s.get_char(i);
        if c == sep {
            let piece = String::from_str(s.substring_char(start, i));
            proof {
                lemma_find_char_at(s@, sep, start as int, i as int);
                assert(s@.skip(start as int).take(i - start) =~= s@.subrange(
                    start as int,
                    i as int,
                ));
                assert(s@.skip(start as int).skip(i - start + 1) =~= s@.skip(i + 1));
                assert((pieces@.push(piece)).map_values(|t: String| t@) =~= pieces@.map_values(
                    |t: String| t@,
                ).push(piece@));
            }
            pieces.push(piece);
            start = i + 1;
        }
        i = i + 1;
    }
    let piece = String::from_str(s.substring_char(start, n));
    proof {
        lemma_find_char_none(s@, sep, start as int);
        assert(s@.subrange(start as int, n as int) =~= s@.skip(start as int));
        assert((pieces@.push(piece)).map_values(|t: String| t@) =~= pieces@.map_values(
            |t: String| t@,
        ).push(piece@));
        assert(pieces@.map_values(|t: String| t@).push(s@.skip(start as int)) =~= pieces@.map_values(
            |t: String| t@,
        ) + seq![s@.skip(start as int)]);
    }
    pieces.push(piece);
    pieces
}

/// Lexicographic order on character sequences, by code point: -1, 0 or 1.
pub open spec fn lex_cmp(a: Seq<char>, b: Seq<char>) -> int
    decreases a.len(),
{
    if a.len() == 0 && b.len() == 0 {
        0
    } else if a.len() == 0 {
        -1
    } else if b.len() == 0 {
        1
    } else if (a[0] as u32) < (b[0] as u32) {
        -1
    } else if (b[0] as u32) < (a[0] as u32) {
        1
    } else {
        lex_cmp(a.drop_first(), b.drop_first())
    }
}

/// `lex_cmp` from a common position onward: stepping over an equal head
/// character keeps the verdict.
proof fn lemma_lex_cmp_step(a: Seq<char>, b: Seq<char>, i: int)
    requires
        0 <= i < a.len(),
        0 <= i < b.len(),
        a[i] == b[i],
    ensures
        lex_cmp(a.skip(i), b.skip(i)) == lex_cmp(a.skip(i + 1), b.skip(i + 1)),
{
    assert(a.skip(i)[0] == a[i]);
    assert(b.skip(i)[0] == b[i]);
    assert(a.skip(i).drop_first() =~= a.skip(i + 1));
    assert(b.skip(i).drop_first() =~= b.skip(i + 1));
}

/// Compares two strings lexicographically by code point.
pub fn str_lex_cmp(a: &str, b: &str) -> (r: Cmp)
    ensures
        cmp_val(r) == lex_cmp(a@, b@),
{
    let an = a.unicode_len();
    let bn = b.unicode_len();
    let mut i: usize = 0;
    proof {
        assert(a@.skip(0) =~= a@);
        assert(b@.skip(0) =~= b@);
    }
    loop
        invariant
            an == a@.len(),
            bn == b@.len(),
            0 <= i <= an,
            0 <= i <= bn,
            lex_cmp(a@, b@) == lex_cmp(a@.skip(i as int), b@.skip(i as int)),
        decreases an - i,
    {
        if i == an && i == bn {
            assert(a@.skip(i as int).len() == 0);
            assert(b@.skip(i as int).len() == 0);
            return Cmp::Eq;
        }
        if i == an {
            assert(a@.skip(i as int).len() == 0);
            assert(b@.skip(i as int).len() > 0);
            return Cmp::Lt;
        }
        if i == bn {
            assert(b@.skip(i as int).len() == 0);
            assert(a@.skip(i as int).len() > 0);
            return Cmp::Gt;
        }
        let ca = a.get_char(i);
        let cb = b.get_char(i);
        assert(a@.skip(i as int)[0] == a@[i as int]);
        assert(b@.skip(i as int)[0] == b@[i as int]);
        if (ca as u32) < (cb as u32) {
            return Cmp::Lt;
        }
        if (cb as u32) < (ca as u32) {
            return Cmp::Gt;
        }
        proof {
            lemma_lex_cmp_step(a@, b@, i as int);
        }
        i = i + 1;
    }
}

/// `lex_cmp` is antisymmetric: swapping the sides flips the sign.
pub proof fn lemma_lex_cmp_antisym(a: Seq<char>, b: Seq<char>)
    ensures
        lex_cmp(b, a) == -lex_cmp(a, b),
    decreases a.len(),
{
    if a.len() == 0 || b.len() == 0 {
    } else if (a[0] as u32) < (b[0] as u32) || (b[0] as u32) < (a[0] as u32) {
        assert(lex_cmp(a, b) == -lex_cmp(b, a));
    } else {
        lemma_lex_cmp_antisym(a.drop_first(), b.drop_first());
        assert(lex_cmp(a, b) == lex_cmp(a.drop_first(), b.drop_first()));
        assert(lex_cmp(b, a) == lex_cmp(b.drop_first(), a.drop_first()));
    }
}

/// `lex_cmp` is transitive, and an equal outcome forces both legs equal.
pub proof fn lemma_lex_cmp_trans(a: Seq<char>, b: Seq<char>, c: Seq<char>)
    requires
        lex_cmp(a, b) <= 0,
        lex_cmp(b, c) <= 0,
    ensures
        lex_cmp(a, c) <= 0,
        lex_cmp(a, c) == 0 ==> lex_cmp(a, b) == 0 && lex_cmp(b, c) == 0,
    decreases a.len(),
{
    if a.len() == 0 {
        if c.len() == 0 && b.len() > 0 {
            assert(lex_cmp(b, c) == 1);
        }
    } else {
        assert(b.len() > 0);
        assert(c.len() > 0) by {
            if c.len() == 0 {
                assert(lex_cmp(b, c) == 1);
            }
        }
        assert(!((b[0] as u32) < (a[0] as u32)));
        assert(!((c[0] as u32) < (b[0] as u32)));
        if (a[0] as u32) < (b[0] as u32) || (b[0] as u32) < (c[0] as u32) {
            assert((a[0] as u32) < (c[0] as u32));
            assert(lex_cmp(a, c) == -1);
        } else {
            assert(lex_cmp(a, b) == lex_cmp(a.drop_first(), b.drop_first()));
            assert(lex_cmp(b, c) == lex_cmp(b.drop_first(), c.drop_first()));
            assert(lex_cmp(a, c) == lex_cmp(a.drop_first(), c.drop_first()));
            lemma_lex_cmp_trans(a.drop_first(), b.drop_first(), c.drop_first());
        }
    }
}

/// An ASCII decimal digit.
pub open spec fn is_digit(c: char) -> bool {
    48 <= (c as u32) && (c as u32) <= 57
}

/// The value of a decimal digit.
pub open spec fn digit_val(c: char) -> int {
    (c as u32) - 48
}

/// A non-empty run of decimal digits.
pub open spec fn is_digits(s: Seq<char>) -> bool {
    s.len() > 0 && forall|i: int| 0 <= i < s.len() ==> is_digit(#[trigger] s[i])
}

/// The number a run of decimal digits denotes.
pub open spec fn dec_val(s: Seq<char>) -> int
    decreases s.len(),
{
    if s.len() == 0 {
        0
    } else {
        dec_val(s.drop_last()) * 10 + digit_val(s.last())
    }
}

/// A digit run denotes at least 0; its prefixes denote no more than it does.
pub proof fn lemma_dec_val_bounds(s: Seq<char>)
    requires
        forall|i: int| 0 <= i < s.len() ==> is_digit(#[trigger] s[i]),
    ensures
        dec_val(s) >= 0,
        forall|i: int| 0 <= i <= s.len() ==> dec_val(#[trigger] s.take(i)) <= dec_val(s),
    decreases s.len(),
{
    if s.len() > 0 {
        lemma_dec_val_bounds(s.drop_last());
        assert forall|i: int| 0 <= i <= s.len() implies dec_val(#[trigger] s.take(i)) <= dec_val(
            s,
        ) by {
            if i < s.len() {
                assert(s.take(i) =~= s.drop_last().take(i));
                assert(dec_val(s.drop_last().take(i)) <= dec_val(s.drop_last()));
            } else {
                assert(s.take(i) =~= s);
            }
        }
    }
}

/// Reads a non-negative decimal number.  Succeeds exactly on non-empty
/// all-digit strings whose value fits in a `u64`; leading zeros are read as
/// the same number.
pub fn parse_u64(s: &str) -> (r: Option<u64>)
    ensures
        r is Some <==> is_digits(s@) && dec_val(s@) <= u64::MAX,
        r matches Some(v) ==> v == dec_val(s@),
{
    let n = s.unicode_len();
    if n == 0 {
        return None;
    }
    let mut acc: u64 = 0;
    let mut i: usize = 0;
    while i < n
        invariant
            n == s@.len(),
            0 <= i <= n,
            forall|k: int| 0 <= k < i ==> is_digit(#[trigger] s@[k]),
            acc == dec_val(s@.take(i as int)),
        decreases n - i,
    {
        let c = s.get_char(i);
        if !('0' <= c && c <= '9') {
            return None;
        }
        let d: u64 = (c as u32 as u64) - 48;
        if acc > (u64::MAX - d) / 10 {
            proof {
                assert(acc * 10 + d > u64::MAX) by (nonlinear_arith)
                    requires
                        acc > (u64::MAX - d) / 10,
                        0 <= d <= 9,
                        acc >= 0,
                ;
                assert(s@.take(i + 1).drop_last() =~= s@.take(i as int));
                assert(s@.take(i + 1).last() == s@[i as int]);
                assert(dec_val(s@.take(i + 1)) == acc * 10 + d);
                if is_digits(s@) {
                    lemma_dec_val_bounds(s@);
                    assert(dec_val(s@) >= dec_val(s@.take(i + 1)));
                }
            }
            return None;
        }
        proof {
            assert(acc * 10 + d <= u64::MAX) by (nonlinear_arith)
                requires
                    acc <= (u64::MAX - d) / 10,
                    0 <= d <= 9,
                    acc >= 0,
            ;
            assert(s@.take(i + 1).drop_last() =~= s@.take(i as int));
            assert(s@.take(i + 1).last() == s@[i as int]);
        }
        acc = acc * 10 + d;
        i = i + 1;
    }
    proof {
        assert(s@.take(n as int) =~= s@);
    }
    Some(acc)
}

/// Whether every character of `s` is a decimal digit (true when empty).
pub fn str_all_digits(s: &str) -> (r: bool)
    ensures
        r == forall|i: int| 0 <= i < s@.len() ==> is_digit(#[trigger] s@[i]),
{
    let n = s.unicode_len();
    let mut i: usize = 0;
    while i < n
        invariant
            n == s@.len(),
            0 <= i <= n,
            forall|k: int| 0 <= k < i ==> is_digit(#[trigger] s@[k]),
        decreases n - i,
    {
        let c = s.get_char(i);
        if !('0' <= c && c <= '9') {
            return false;
        }
        i = i + 1;
    }
    true
}

} // verus!
