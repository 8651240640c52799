//! Byte-level path reasoning.
//!
//! The library models a filesystem path as a vector of bytes, so that the
//! rules it enforces — which file names count as images, how a path is
//! joined to or stripped of a directory prefix — are plain functions of
//! those bytes.

use vstd::prelude::*;

verus! {

/// The byte `.`
pub const DOT: u8 = 46;

/// The byte `/`
pub const SLASH: u8 = 47;

/// The byte `\`
pub const BACKSLASH: u8 = 92;

/// A path separator: `/` or `\`.
pub open spec fn is_sep(b: u8) -> bool {
    b == SLASH || b == BACKSLASH
}

/// ASCII lowercasing of one byte; other bytes are unchanged.
pub open spec fn spec_lower(b: u8) -> u8 {
    if 65 <= b && b <= 90 {
        (b + 32) as u8
    } else {
        b
    }
}

/// `p` ends in a dot followed by `ext` (given in lowercase), where that dot
/// is not the first byte of the path's last component. This is what it means
/// for a path to carry the extension `ext`, case-insensitively: the bytes
/// after the final dot match `ext`, and a name that *begins* with the dot
/// (a hidden file such as `.png`) has no extension at all.
pub open spec fn spec_has_ext(p: Seq<u8>, ext: Seq<u8>) -> bool {
    let d = p.len() - ext.len() - 1;
    &&& p.len() >= ext.len() + 2
    &&& p[d] == DOT
    &&& !is_sep(p[d - 1])
    &&& forall|k: int| 0 <= k < ext.len() ==> spec_lower(p[d + 1 + k]) == ext[k]
}

/// The path ends in one of the image extensions `png`, `jpg`, `jpeg`,
/// compared without regard to ASCII case.
pub open spec fn spec_has_image_ext(p: Seq<u8>) -> bool {
    ||| spec_has_ext(p, seq![112u8, 110u8, 103u8])
    ||| spec_has_ext(p, seq![106u8, 112u8, 103u8])
    ||| spec_has_ext(p, seq![106u8, 112u8, 101u8, 103u8])
}

/// ASCII lowercasing of one byte.
pub fn lower_byte(b: u8) -> (r: u8)
    ensures
        r == spec_lower(b),
{
    if 65 <= b && b <= 90 {
        b + 32
    } else {
        b
    }
}

/// Does `p` end in `.` + the three bytes `e0 e1 e2` (lowercase expected),
/// compared case-insensitively, with the dot not opening the last component?
fn has_ext3(p: &Vec<u8>, e0: u8, e1: u8, e2: u8) -> (r: bool)
    ensures
        r == spec_has_ext(p@, seq![e0, e1, e2]),
{
    let n = p.len();
    if n < 5 {
        return false;
    }
    let d = n - 4;
    if p[d] != DOT {
        return false;
    }
    if p[d - 1] == SLASH || p[d - 1] == BACKSLASH {
        return false;
    }
    lower_byte(p[d + 1]) == e0 && lower_byte(p[d + 2]) == e1 && lower_byte(p[d + 3]) == e2
}

/// Does `p` end in `.` + the four bytes `e0 e1 e2 e3`, as in `has_ext3`?
fn has_ext4(p: &Vec<u8>, e0: u8, e1: u8, e2: u8, e3: u8) -> (r: bool)
    ensures
        r == spec_has_ext(p@, seq![e0, e1, e2, e3]),
{
    let n = p.len();
    if n < 6 {
        return false;
    }
    let d = n - 5;
    if p[d] != DOT {
        return false;
    }
    if p[d - 1] == SLASH || p[d - 1] == BACKSLASH {
        return false;
    }
    lower_byte(p[d + 1]) == e0 && lower_byte(p[d + 2]) == e1 && lower_byte(p[d + 3]) == e2
        && lower_byte(p[d + 4]) == e3
}

/// True iff `path` names an image file: its extension is `png`, `jpg` or
/// `jpeg`, case-insensitively.
pub fn has_image_ext(path: &Vec<u8>) -> (r: bool)
    ensures
        r == spec_has_image_ext(path@),
{
    has_ext3(path, 112, 110, 103) || has_ext3(path, 106, 112, 103)
        || has_ext4(path, 106, 112, 101, 103)
}

/// A fresh byte vector holding the same bytes.
pub fn clone_bytes(v: &Vec<u8>) -> (r: Vec<u8>)
    ensures
        r@ == v@,
{
    let mut r: Vec<u8> = Vec::new();
    let mut i: usize = 0;
    while i < v.len()
        invariant
            i <= v@.len(),
            r@ =~= v@.subrange(0, i as int),
        decreases v@.len() - i,
    {
        r.push(v[i]);
        i += 1;
    }
    proof {
        assert(r@ =~= v@);
    }
    r
}

/// True iff the two byte vectors hold the same bytes.
pub fn bytes_eq(a: &Vec<u8>, b: &Vec<u8>) -> (r: bool)
    ensures
        r == (a@ == b@),
{
    if a.len() != b.len() {
        return false;
    }
    let mut i: usize = 0;
    while i < a.len()
        invariant
            i <= a.len(),
            a@.len() == b@.len(),
            forall|j: int| 0 <= j < i ==> a@[j] == b@[j],
        decreases a.len() - i,
    {
        if a[i] != b[i] {
            return false;
        }
        i += 1;
    }
    proof {
        assert(a@ =~= b@);
    }
    true
}

/// The bytes of `p` begin with the bytes of `prefix`.
pub open spec fn spec_starts_with(p: Seq<u8>, prefix: Seq<u8>) -> bool {
    p.len() >= prefix.len() && p.subrange(0, prefix.len() as int) == prefix
}

/// `name` appended to `base`, with a `/` between them unless `base` is empty
/// or already ends in a separator.
pub open spec fn spec_join(base: Seq<u8>, name: Seq<u8>) -> Seq<u8> {
    if base.len() == 0 {
        name
    } else if is_sep(base.last()) {
        base + name
    } else {
        base + seq![SLASH] + name
    }
}

/// Joins a directory path and an entry name into one path.
pub fn join_path(base: &Vec<u8>, name: &Vec<u8>) -> (r: Vec<u8>)
    ensures
        r@ == spec_join(base@, name@),
{
    let mut r: Vec<u8> = Vec::new();
    let mut i: usize = 0;
    while i < base.len()
        invariant
            i <= base.len(),
            r@ =~= base@.subrange(0, i as int),
        decreases base.len() - i,
    {
        r.push(base[i]);
        i += 1;
    }
    assert(r@ =~= base@);
    if base.len() > 0 && !(base[base.len() - 1] == SLASH || base[base.len() - 1] == BACKSLASH) {
        r.push(SLASH);
    }
    let ghost mid = r@;
    let mut j: usize = 0;
    while j < name.len()
        invariant
            j <= name.len(),
            r@ =~= mid + name@.subrange(0, j as int),
        decreases name.len() - j,
    {
        r.push(name[j]);
        j += 1;
    }
    proof {
        assert(r@ =~= spec_join(base@, name@));
    }
    r
}

/// `p` with the directory prefix `root` removed, as a display aid: when `p`
/// starts with `root` at a component boundary, the remainder after the
/// boundary; otherwise `p` itself.
pub open spec fn spec_strip_prefix(p: Seq<u8>, root: Seq<u8>) -> Seq<u8> {
    if root.len() <= p.len() && p.subrange(0, root.len() as int) == root {
        let rest = p.skip(root.len() as int);
        if rest.len() == 0 {
            rest
        } else if is_sep(rest[0]) {
            rest.skip(1)
        } else if root.len() > 0 && is_sep(root.last()) {
            rest
        } else {
            p
        }
    } else {
        p
    }
}

/// True iff `path` begins with the bytes of `root`.
pub fn is_prefix_of(root: &Vec<u8>, path: &Vec<u8>) -> (r: bool)
    ensures
        r == (root@.len() <= path@.len() && path@.subrange(0, root@.len() as int) == root@),
{
    let n = root.len();
    if n > path.len() {
        return false;
    }
    let mut i: usize = 0;
    while i < n
        invariant
            i <= n,
            n <= path@.len(),
            n == root@.len(),
            forall|j: int| 0 <= j < i ==> path@[j] == root@[j],
        decreases n - i,
    {
        if path[i] != root[i] {
            proof {
                assert(path@.subrange(0, n as int)[i as int] == path@[i as int]);
            }
            return false;
        }
        i += 1;
    }
    proof {
        assert(path@.subrange(0, n as int) =~= root@);
    }
    true
}

/// Removes the directory prefix `root` from `path` where it applies,
/// returning the remainder (or the whole path where it does not).
pub fn strip_prefix(path: &Vec<u8>, root: &Vec<u8>) -> (r: Vec<u8>)
    ensures
        r@ == spec_strip_prefix(path@, root@),
{
    let n = root.len();
    let is_prefix = is_prefix_of(root, path);
    let start: usize = if is_prefix {
        if n == path.len() {
            n
        } else if path[n] == SLASH || path[n] == BACKSLASH {
            n + 1
        } else if n > 0 && (root[n - 1] == SLASH || root[n - 1] == BACKSLASH) {
            n
        } else {
            0
        }
    } else {
        0
    };
    let mut r: Vec<u8> = Vec::new();
    let mut k: usize = start;
    while k < path.len()
        invariant
            start <= k <= path@.len(),
            r@ =~= path@.subrange(start as int, k as int),
        decreases path.len() - k,
    {
        r.push(path[k]);
        k += 1;
    }
    proof {
        assert(r@ =~= path@.skip(start as int));
        assert(r@ =~= spec_strip_prefix(path@, root@));
    }
    r
}

} // verus!
