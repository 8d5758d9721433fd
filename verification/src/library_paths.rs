//! Library block paths as the block-type catalog keys them.

use crate::text::{chars_of, copy_range, string_of, trim, trim_chars};
use vstd::prelude::*;

verus! {

/// A line break turned into a space (long names wrap in the model file),
/// and `\\` into `/`.
pub open spec fn path_char(c: char) -> char {
    if c == '\n' || c == '\r' {
        ' '
    } else if c == '\\' {
        '/'
    } else {
        c
    }
}

/// The position of the first `/` in `s` from `k` on.
pub open spec fn first_slash_from(s: Seq<char>, k: int) -> Option<int>
    decreases s.len() - k,
{
    if k < 0 || k >= s.len() {
        None
    } else if s[k] == '/' {
        Some(k)
    } else {
        first_slash_from(s, k + 1)
    }
}

/// Whether `s` ends with `suffix`.
pub open spec fn has_suffix(s: Seq<char>, suffix: Seq<char>) -> bool {
    suffix.len() <= s.len() && s.subrange(s.len() - suffix.len(), s.len() as int) == suffix
}

/// A library name without a `.slx` (or `.SLX`) suffix.
pub open spec fn without_slx(lib: Seq<char>) -> Seq<char> {
    if has_suffix(lib, ".slx"@) || has_suffix(lib, ".SLX"@) {
        lib.subrange(0, lib.len() - 4)
    } else {
        lib
    }
}

/// A library block path as the catalog keys it: trimmed, line breaks as
/// spaces, `\\` as `/`, and the library part before the first `/` without
/// a `.slx` suffix; none for a blank path.
pub open spec fn normalized_library_path(path: Seq<char>) -> Option<Seq<char>> {
    let t = trim(path);
    if t.len() == 0 {
        None
    } else {
        let p = t.map_values(|c: char| path_char(c));
        match first_slash_from(p, 0) {
            None => Some(p),
            Some(i) => Some(without_slx(p.subrange(0, i)) + seq!['/'] + p.subrange(i + 1, p.len() as int)),
        }
    }
}

/// Whether the characters `s` end with `suffix`.
fn ends_with(s: &[char], suffix: &[char]) -> (r: bool)
    ensures
        r == has_suffix(s@, suffix@),
{
    if suffix.len() > s.len() {
        return false;
    }
    let off = s.len() - suffix.len();
    let mut j: usize = 0;
    while j < suffix.len()
        invariant
            off == s@.len() - suffix@.len(),
            s@.len() == s.len(),
            suffix@.len() <= s@.len(),
            j <= suffix@.len(),
            forall|k: int| 0 <= k < j ==> s@[off + k] == suffix@[k],
        decreases suffix@.len() - j,
    {
        if s[off + j] != suffix[j] {
            assert(s@.subrange(off as int, s@.len() as int)[j as int] != suffix@[j as int]);
            return false;
        }
        j = j + 1;
    }
    assert(s@.subrange(off as int, s@.len() as int) =~= suffix@);
    true
}

/// A library block path as the catalog keys it.
pub fn normalize_library_block_path(path: &str) -> (r: Option<String>)
    ensures
        match r {
            Some(s) => normalized_library_path(path@) == Some(s@),
            None => normalized_library_path(path@) is None,
        },
{
    let cs = chars_of(path);
    let t = trim_chars(cs.as_slice());
    if t.len() == 0 {
        return None;
    }
    let mut p: Vec<char> = Vec::new();
    let mut i: usize = 0;
    while i < t.len()
        invariant
            i <= t@.len(),
            p@ == t@.take(i as int).map_values(|c: char| path_char(c)),
        decreases t@.len() - i,
    {
        let c = t[i];
        let d = if c == '\n' || c == '\r' {
            ' '
        } else if c == '\\' {
            '/'
        } else {
            c
        };
        p.push(d);
        i = i + 1;
        assert(p@ =~= t@.take(i as int).map_values(|c: char| path_char(c)));
    }
    assert(t@.take(t@.len() as int) =~= t@);
    let mut k: usize = 0;
    while k < p.len()
        invariant
            k <= p@.len(),
            p@ == trim(path@).map_values(|c: char| path_char(c)),
            trim(path@).len() > 0,
            first_slash_from(p@, 0) == first_slash_from(p@, k as int),
        decreases p@.len() - k,
    {
        if p[k] == '/' {
            let lib = copy_range(p.as_slice(), 0, k);
            let rest = copy_range(p.as_slice(), k + 1, p.len());
            proof {
                reveal_strlit(".slx");
                reveal_strlit(".SLX");
            }
            let lib_norm = if ends_with(lib.as_slice(), chars_of(".slx").as_slice()) || ends_with(
                lib.as_slice(),
                chars_of(".SLX").as_slice(),
            ) {
                copy_range(lib.as_slice(), 0, lib.len() - 4)
            } else {
                lib
            };
            assert(lib_norm@ == without_slx(p@.subrange(0, k as int)));
            assert(first_slash_from(p@, 0) == Some(k as int));
            let mut out = lib_norm;
            out.push('/');
            let mut j: usize = 0;
            let ghost head = out@;
            while j < rest.len()
                invariant
                    j <= rest@.len(),
                    out@ == head + rest@.take(j as int),
                decreases rest@.len() - j,
            {
                out.push(rest[j]);
                j = j + 1;
                assert(out@ =~= head + rest@.take(j as int));
            }
            assert(rest@.take(rest@.len() as int) =~= rest@);
            assert(out@ =~= without_slx(p@.subrange(0, k as int)) + seq!['/'] + p@.subrange(
                k + 1,
                p@.len() as int,
            ));
            return Some(string_of(out.as_slice()));
        }
        k = k + 1;
    }
    Some(string_of(p.as_slice()))
}

} // verus!
