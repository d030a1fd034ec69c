//! Paths as `std::path::Path` reads them, in Unix or in Windows syntax: the
//! final component (file name), its stem and extension, the parent
//! directory, joining, replacing the extension, and comparison by
//! components.
//!
//! A path is read as text. It may start with a prefix (Windows only: a
//! drive, a share, a device or a verbatim prefix), then a root separator or
//! a leading `.` segment; the rest, the body, is split at separators (`/` on
//! Unix; `/` and `\` on Windows; only `\` after a verbatim prefix), and
//! empty segments are ignored, as are `.` segments except after a verbatim
//! prefix.
use vstd::prelude::*;
use crate::prefix::{
    drive_at, is_verbatim_kind, lemma_next_sep, lemma_prefix_len, next_sep, prefix_kind, verbatim_start, prefix_len, prefix_of,
    prefix_token, same_prefix_of, upper, win_sep, PrefixKind,
};
use crate::text::{ascii_lower, chars_of, texts};

verus! {

/// The path syntax of a system.
#[derive(Debug, Clone, Copy, PartialEq, Eq, Structural)]
pub enum PathSyntax {
    Unix,
    Windows,
}

/// Which characters separate the components of a path's body.
#[derive(Debug, Clone, Copy, PartialEq, Eq, Structural)]
pub enum Seps {
    /// `/` only (Unix).
    Slash,
    /// `/` and `\` (Windows).
    Both,
    /// `\` only (after a Windows verbatim prefix).
    Backslash,
}

pub open spec fn is_sep(m: Seps, c: char) -> bool {
    match m {
        Seps::Slash => c == '/',
        Seps::Both => c == '/' || c == '\\',
        Seps::Backslash => c == '\\',
    }
}

/// Whether `.` segments of the body are dropped (all but verbatim paths).
pub open spec fn skips_dot(m: Seps) -> bool {
    !(m is Backslash)
}

pub open spec fn kind_of(sx: PathSyntax, p: Seq<char>) -> PrefixKind {
    match sx {
        PathSyntax::Unix => PrefixKind::NoPrefix,
        PathSyntax::Windows => prefix_kind(p),
    }
}

/// Length of the prefix of `p` (there is none on Unix).
pub open spec fn pre_len(sx: PathSyntax, p: Seq<char>) -> int {
    match sx {
        PathSyntax::Unix => 0,
        PathSyntax::Windows => prefix_len(p),
    }
}

/// The separators of the body of `p`.
pub open spec fn seps_of(sx: PathSyntax, p: Seq<char>) -> Seps {
    match sx {
        PathSyntax::Unix => Seps::Slash,
        PathSyntax::Windows => if is_verbatim_kind(prefix_kind(p)) {
            Seps::Backslash
        } else {
            Seps::Both
        },
    }
}

/// A separator that can stand as the root, just after the prefix.
pub open spec fn root_sep(sx: PathSyntax, c: char) -> bool {
    match sx {
        PathSyntax::Unix => c == '/',
        PathSyntax::Windows => win_sep(c),
    }
}

/// A separator just after the prefix: the root.
pub open spec fn has_root(sx: PathSyntax, p: Seq<char>) -> bool {
    let n = pre_len(sx, p);
    n < p.len() && root_sep(sx, p[n])
}

/// A path without root, and without a prefix other than a drive, whose
/// first segment after the prefix is `.`.
pub open spec fn starts_at_cur_dir(sx: PathSyntax, p: Seq<char>) -> bool {
    let n = pre_len(sx, p);
    &&& !has_root(sx, p)
    &&& (kind_of(sx, p) is NoPrefix || kind_of(sx, p) is Disk)
    &&& n < p.len()
    &&& p[n] == '.'
    &&& (n + 1 == p.len() || is_sep(seps_of(sx, p), p[n + 1]))
}

/// Number of leading characters that come before the body: the prefix, then
/// the root, or a leading `.` segment.
pub open spec fn body_start(sx: PathSyntax, p: Seq<char>) -> int {
    pre_len(sx, p) + if has_root(sx, p) || starts_at_cur_dir(sx, p) {
        1int
    } else {
        0int
    }
}

/// `p.take(k)` ends with a separator, or with a `.` segment that is dropped.
pub open spec fn ends_ignorable(m: Seps, p: Seq<char>, k: int) -> bool {
    is_sep(m, p[k - 1]) || (skips_dot(m) && p[k - 1] == '.' && k >= 2 && is_sep(m, p[k - 2]))
}

/// Length of `p.take(k)` once trailing separators and dropped `.` segments
/// are cut, never going below `f`.
pub open spec fn trim_len(m: Seps, p: Seq<char>, f: int, k: int) -> int
    decreases k,
{
    if k > f && k >= 1 && ends_ignorable(m, p, k) {
        trim_len(m, p, f, k - 1)
    } else {
        k
    }
}

/// Where the segment that ends at `k` begins: just after the last separator
/// before `k`, or at `f`.
pub open spec fn seg_start(m: Seps, p: Seq<char>, f: int, k: int) -> int
    decreases k,
{
    if k <= f || k <= 0 || is_sep(m, p[k - 1]) {
        k
    } else {
        seg_start(m, p, f, k - 1)
    }
}

/// Position `(start, end)` of the last component of the body, if the body
/// has one.
pub open spec fn last_span(sx: PathSyntax, p: Seq<char>) -> Option<(int, int)> {
    let m = seps_of(sx, p);
    let f = body_start(sx, p);
    let e = trim_len(m, p, f, p.len() as int);
    if e > f {
        Some((seg_start(m, p, f, e), e))
    } else {
        None
    }
}

pub open spec fn dot_dot() -> Seq<char> {
    seq!['.', '.']
}

/// A component that stands for a directory, not a name: `.` or `..`.
pub open spec fn is_dot_name(n: Seq<char>) -> bool {
    n == seq!['.'] || n == dot_dot()
}

/// The final component of `p`, unless it is `..` (or, in a verbatim path,
/// `.`) or there is none.
pub open spec fn file_name(sx: PathSyntax, p: Seq<char>) -> Option<Seq<char>> {
    match last_span(sx, p) {
        Some((s, e)) => if is_dot_name(p.subrange(s, e)) {
            None
        } else {
            Some(p.subrange(s, e))
        },
        None => None,
    }
}

/// Index of the last `.` in `n`, or -1.
pub open spec fn last_dot(n: Seq<char>) -> int
    decreases n.len(),
{
    if n.len() == 0 {
        -1
    } else if n.last() == '.' {
        n.len() - 1
    } else {
        last_dot(n.drop_last())
    }
}

/// The part of a file name before its last `.`; the whole name when it has
/// no `.` besides a leading one.
pub open spec fn stem_of(n: Seq<char>) -> Seq<char> {
    let d = last_dot(n);
    if d <= 0 {
        n
    } else {
        n.take(d)
    }
}

/// The part of a file name after its last `.`, when that `.` is not the
/// first character.
pub open spec fn extension_of(n: Seq<char>) -> Option<Seq<char>> {
    let d = last_dot(n);
    if d <= 0 {
        None
    } else {
        Some(n.skip(d + 1))
    }
}

pub open spec fn file_stem(sx: PathSyntax, p: Seq<char>) -> Option<Seq<char>> {
    match file_name(sx, p) {
        Some(n) => Some(stem_of(n)),
        None => None,
    }
}

pub open spec fn extension(sx: PathSyntax, p: Seq<char>) -> Option<Seq<char>> {
    match file_name(sx, p) {
        Some(n) => extension_of(n),
        None => None,
    }
}

/// The path without its final component. A path with no component after
/// its prefix and root has no parent, and neither has the empty path; a
/// bare leading `.` (without prefix) has the empty parent.
pub open spec fn parent(sx: PathSyntax, p: Seq<char>) -> Option<Seq<char>> {
    match last_span(sx, p) {
        Some((s, e)) => Some(p.take(trim_len(seps_of(sx, p), p, body_start(sx, p), s))),
        None => if starts_at_cur_dir(sx, p) && pre_len(sx, p) == 0 {
            Some(Seq::empty())
        } else {
            None
        },
    }
}

/// `base` with `name` pushed onto it on Unix: an absolute `name` replaces
/// `base`; otherwise a `/` is put between them unless `base` is empty or
/// already ends with one.
pub open spec fn unix_join(base: Seq<char>, name: Seq<char>) -> Seq<char> {
    if has_root(PathSyntax::Unix, name) {
        name
    } else if base.len() == 0 || base.last() == '/' {
        base + name
    } else {
        base + seq!['/'] + name
    }
}

/// The components of a verbatim directory after its prefix, with those of
/// `name` pushed on: the root (written `\`) starts over from the prefix,
/// `.` is skipped, `..` drops a preceding name, anything else is added.
pub open spec fn push_components(items: Seq<Seq<char>>, comps: Seq<Seq<char>>) -> Seq<Seq<char>>
    decreases comps.len(),
{
    if comps.len() == 0 {
        items
    } else {
        let before = push_components(items, comps.drop_last());
        let c = comps.last();
        if c == seq!['\\'] {
            seq![seq!['\\']]
        } else if c == seq!['.'] {
            before
        } else if c == dot_dot() {
            if before.len() > 0 && !is_dot_name(before.last()) && before.last() != seq!['\\'] {
                before.drop_last()
            } else {
                before
            }
        } else {
            before.push(c)
        }
    }
}

/// Each component but the root after a `\`.
pub open spec fn prefixed_each(items: Seq<Seq<char>>) -> Seq<char>
    decreases items.len(),
{
    if items.len() == 0 {
        Seq::empty()
    } else {
        prefixed_each(items.drop_last()) + if items.last() == seq!['\\'] {
            Seq::empty()
        } else {
            seq!['\\'] + items.last()
        }
    }
}

/// Components written out after a verbatim prefix: the root alone is
/// written `\`; otherwise each component but the root follows a `\`.
pub open spec fn render_components(items: Seq<Seq<char>>) -> Seq<char> {
    if items == seq![seq!['\\']] {
        seq!['\\']
    } else {
        prefixed_each(items)
    }
}

/// `base` with `name` pushed onto it on Windows, as `Path::join` does it:
/// a `name` with a prefix replaces `base`; onto a verbatim `base` the
/// components are rebuilt (`push_components`) and written out with `\`; a
/// `name` with a root keeps only the prefix of `base`; otherwise a `\` goes
/// in between unless `base` is empty, ends with a separator, or is a drive
/// alone.
pub open spec fn windows_join(base: Seq<char>, name: Seq<char>) -> Seq<char> {
    if !(prefix_kind(name) is NoPrefix) {
        name
    } else if is_verbatim_kind(prefix_kind(base)) && name.len() > 0 {
        base.take(prefix_len(base)) + render_components(
            push_components(components(PathSyntax::Windows, base), components(PathSyntax::Windows, name)),
        )
    } else if name.len() > 0 && win_sep(name[0]) {
        base.take(prefix_len(base)) + name
    } else if base.len() > 0 && !win_sep(base.last()) && !(prefix_kind(base) is Disk
        && base.len() == 2) {
        base + seq!['\\'] + name
    } else {
        base + name
    }
}

/// `base` with `name` pushed onto it, as `Path::join` does it.
pub open spec fn join(sx: PathSyntax, base: Seq<char>, name: Seq<char>) -> Seq<char> {
    match sx {
        PathSyntax::Unix => unix_join(base, name),
        PathSyntax::Windows => windows_join(base, name),
    }
}

/// The path ends with a file name made of `..` and an extension, such as
/// `..x`, with nothing after it.
pub open spec fn ends_in_dot_dot_extension(sx: PathSyntax, p: Seq<char>) -> bool {
    match (file_name(sx, p), last_span(sx, p)) {
        (Some(n), Some((_, end))) => end == p.len() && last_dot(n) == 1 && n[0] == '.',
        _ => false,
    }
}

/// `p` with the extension of its file name replaced by `ext`, as
/// `Path::with_extension` does it: the text is cut just after the file stem,
/// then `.` and `ext` are added (nothing is added for an empty `ext`). A path
/// without a file name is left alone. One case differs: when the path ends
/// with a file name made of `..` and an extension (such as `..x`), the old
/// extension is cut off first, which leaves a `..` that takes no extension.
pub open spec fn with_extension(sx: PathSyntax, p: Seq<char>, ext: Seq<char>) -> Seq<char> {
    match (file_name(sx, p), last_span(sx, p)) {
        (Some(n), Some((start, end))) => if ends_in_dot_dot_extension(sx, p) {
            p.take(start + 2)
        } else {
            let kept = p.take(start + stem_of(n).len());
            if ext.len() == 0 {
                kept
            } else {
                kept + seq!['.'] + ext
            }
        },
        _ => p,
    }
}

/// The components that come before the body: the root (`/` on Unix, `\`
/// on Windows, where a share or a device implies it), or else a leading
/// `.` when there is no prefix. The prefix itself is compared apart (see
/// `path_key`).
pub open spec fn start_components(sx: PathSyntax, p: Seq<char>) -> Seq<Seq<char>> {
    match sx {
        PathSyntax::Unix => if has_root(sx, p) {
            seq![seq!['/']]
        } else if starts_at_cur_dir(sx, p) {
            seq![seq!['.']]
        } else {
            Seq::empty()
        },
        PathSyntax::Windows => {
            let k = prefix_kind(p);
            if has_root(sx, p) || k is Unc || k is DeviceNs {
                seq![seq!['\\']]
            } else if starts_at_cur_dir(sx, p) && k is NoPrefix {
                seq![seq!['.']]
            } else {
                Seq::empty()
            }
        },
    }
}

/// The components of `p.take(k)`, with separators `m` and body start `f`:
/// those before the body, then every body component as its text (`..`
/// included, and `.` after a verbatim prefix).
pub open spec fn comps_upto(sx: PathSyntax, p: Seq<char>, m: Seps, f: int, k: int) -> Seq<Seq<char>>
    decreases k,
{
    let e = trim_len(m, p, f, k);
    if e > f && e >= 1 {
        let s = seg_start(m, p, f, e);
        proof {
            lemma_comps_step(m, p, f, k);
        }
        comps_upto(sx, p, m, f, trim_len(m, p, f, s)).push(p.subrange(s, e))
    } else {
        start_components(sx, p)
    }
}

/// The components of `p` after its prefix, as `Path::components` yields
/// them (up to how the root is written).
pub open spec fn components(sx: PathSyntax, p: Seq<char>) -> Seq<Seq<char>> {
    comps_upto(sx, p, seps_of(sx, p), body_start(sx, p), p.len() as int)
}

/// What `==` on paths compares: the prefix (see `prefix_token`; none on
/// Unix) and the components.
pub open spec fn path_key(sx: PathSyntax, p: Seq<char>) -> (Seq<char>, Seq<Seq<char>>) {
    let pre = match sx {
        PathSyntax::Unix => Seq::empty(),
        PathSyntax::Windows => prefix_token(p),
    };
    (pre, components(sx, p))
}

pub proof fn lemma_trim_len(m: Seps, p: Seq<char>, f: int, k: int)
    ensures
        trim_len(m, p, f, k) <= k,
        k >= f ==> trim_len(m, p, f, k) >= f,
        k >= 0 ==> trim_len(m, p, f, k) >= 0,
        trim_len(m, p, f, k) > f && trim_len(m, p, f, k) >= 1 ==> !ends_ignorable(m, p, trim_len(m, p, f, k)),
    decreases k,
{
    if k > f && k >= 1 && ends_ignorable(m, p, k) {
        lemma_trim_len(m, p, f, k - 1);
    }
}

pub proof fn lemma_seg_start(m: Seps, p: Seq<char>, f: int, k: int)
    ensures
        seg_start(m, p, f, k) <= k,
        k >= f ==> seg_start(m, p, f, k) >= f,
        k >= 0 ==> seg_start(m, p, f, k) >= 0,
        k > f && k >= 1 && !is_sep(m, p[k - 1]) ==> seg_start(m, p, f, k) < k,
    decreases k,
{
    if !(k <= f || k <= 0 || is_sep(m, p[k - 1])) {
        lemma_seg_start(m, p, f, k - 1);
    }
}

/// Each component is followed in `comps_upto` by a strictly shorter prefix.
pub proof fn lemma_comps_step(m: Seps, p: Seq<char>, f: int, k: int)
    requires
        trim_len(m, p, f, k) > f,
        trim_len(m, p, f, k) >= 1,
    ensures
        trim_len(m, p, f, seg_start(m, p, f, trim_len(m, p, f, k))) < k,
        trim_len(m, p, f, seg_start(m, p, f, trim_len(m, p, f, k))) >= 0,
        0 <= seg_start(m, p, f, trim_len(m, p, f, k)),
        seg_start(m, p, f, trim_len(m, p, f, k)) < trim_len(m, p, f, k),
{
    let e = trim_len(m, p, f, k);
    lemma_trim_len(m, p, f, k);
    lemma_seg_start(m, p, f, e);
    lemma_trim_len(m, p, f, seg_start(m, p, f, e));
}

/// No separator lies between `seg_start(m, p, f, k)` and `k`; the segment
/// starts at `f` or just after a separator.
pub proof fn lemma_seg_start_plain(m: Seps, p: Seq<char>, f: int, k: int)
    requires
        0 <= f <= k <= p.len(),
    ensures
        forall|i: int| seg_start(m, p, f, k) <= i < k ==> !is_sep(m, p[i]),
        seg_start(m, p, f, k) == f || (seg_start(m, p, f, k) >= 1 && is_sep(m, p[seg_start(m, p, f, k) - 1])),
    decreases k,
{
    if !(k <= f || k <= 0 || is_sep(m, p[k - 1])) {
        lemma_seg_start_plain(m, p, f, k - 1);
    }
}

/// Scanning back from `k` over characters that are not separators reaches
/// `s` when the segment starts there.
proof fn lemma_seg_start_at(m: Seps, q: Seq<char>, f: int, k: int, s: int)
    requires
        0 <= f <= s <= k <= q.len(),
        forall|i: int| s <= i < k ==> !is_sep(m, q[i]),
        s == f || (s >= 1 && is_sep(m, q[s - 1])),
    ensures
        seg_start(m, q, f, k) == s,
    decreases k - s,
{
    if k > s {
        lemma_seg_start_at(m, q, f, k - 1, s);
    }
}

/// A path whose text from `s` to its end is one component, not followed by
/// anything to skip, has that component last.
pub proof fn lemma_last_span_at(sx: PathSyntax, q: Seq<char>, s: int)
    requires
        body_start(sx, q) <= s < q.len(),
        forall|i: int| s <= i < q.len() ==> !is_sep(seps_of(sx, q), q[i]),
        s == body_start(sx, q) || is_sep(seps_of(sx, q), q[s - 1]),
        !ends_ignorable(seps_of(sx, q), q, q.len() as int),
    ensures
        last_span(sx, q) == Some((s, q.len() as int)),
{
    if sx is Windows {
        lemma_prefix_len(q);
    }
    lemma_seg_start_at(seps_of(sx, q), q, body_start(sx, q), q.len() as int, s);
}

pub proof fn lemma_body_start(sx: PathSyntax, p: Seq<char>)
    ensures
        0 <= pre_len(sx, p) <= body_start(sx, p) <= p.len(),
{
    if sx is Windows {
        lemma_prefix_len(p);
    }
}

/// The span of the last component holds no separator and starts at the
/// body start or just after a separator; it ends where trailing separators
/// and dropped `.` segments begin.
pub proof fn lemma_last_span_plain(sx: PathSyntax, p: Seq<char>)
    ensures
        last_span(sx, p) matches Some((s, e)) ==> {
            &&& body_start(sx, p) <= s < e <= p.len()
            &&& forall|i: int| s <= i < e ==> !is_sep(seps_of(sx, p), p[i])
            &&& s == body_start(sx, p) || is_sep(seps_of(sx, p), p[s - 1])
        },
{
    let m = seps_of(sx, p);
    let f = body_start(sx, p);
    lemma_body_start(sx, p);
    lemma_trim_len(m, p, f, p.len() as int);
    if let Some((s, e)) = last_span(sx, p) {
        lemma_seg_start(m, p, f, e);
        lemma_seg_start_plain(m, p, f, e);
        lemma_comps_step(m, p, f, p.len() as int);
    }
}

/// The last `.` of a name ending in `.` and a dot-free extension is that
/// `.`.
pub proof fn lemma_last_dot_before(a: Seq<char>, x: Seq<char>)
    requires
        forall|i: int| 0 <= i < x.len() ==> x[i] != '.',
    ensures
        last_dot(a + seq!['.'] + x) == a.len(),
    decreases x.len(),
{
    if x.len() > 0 {
        lemma_last_dot_before(a, x.drop_last());
        assert((a + seq!['.'] + x).drop_last() =~= a + seq!['.'] + x.drop_last());
    } else {
        assert(a + seq!['.'] + x =~= (a + seq!['.']));
    }
}

/// `last_dot` is -1 or a position of a `.`.
pub proof fn lemma_last_dot_range(n: Seq<char>)
    ensures
        -1 <= last_dot(n) < n.len(),
        last_dot(n) >= 0 ==> n[last_dot(n)] == '.',
    decreases n.len(),
{
    if n.len() > 0 && n.last() != '.' {
        lemma_last_dot_range(n.drop_last());
    }
}

/// A file stem is never empty and holds no separator.
pub proof fn lemma_file_stem_plain(sx: PathSyntax, p: Seq<char>)
    ensures
        file_stem(sx, p) matches Some(st) ==> st.len() > 0 && forall|i: int|
            0 <= i < st.len() ==> !is_sep(seps_of(sx, p), st[i]),
{
    lemma_last_span_plain(sx, p);
    if let Some(n) = file_name(sx, p) {
        lemma_last_dot_range(n);
    }
}

/// Trimming looks only at the text before `k`.
pub proof fn lemma_trim_len_prefix(m: Seps, p: Seq<char>, q: Seq<char>, f: int, k: int)
    requires
        0 <= k <= p.len(),
        k <= q.len(),
        q.take(k) == p.take(k),
    ensures
        trim_len(m, q, f, k) == trim_len(m, p, f, k),
    decreases k,
{
    if k > f && k >= 1 {
        assert(q[k - 1] == q.take(k)[k - 1]);
        assert(p[k - 1] == p.take(k)[k - 1]);
        if k >= 2 {
            assert(q[k - 2] == q.take(k)[k - 2]);
            assert(p[k - 2] == p.take(k)[k - 2]);
        }
        if ends_ignorable(m, p, k) {
            assert(q.take(k - 1) =~= q.take(k).take(k - 1));
            assert(p.take(k - 1) =~= p.take(k).take(k - 1));
            lemma_trim_len_prefix(m, p, q, f, k - 1);
        }
    }
}

/// The last component of a path is the last of its components; a path
/// without a body component has only those that come before the body.
pub proof fn lemma_components_last(sx: PathSyntax, p: Seq<char>)
    ensures
        match last_span(sx, p) {
            Some((s, e)) => components(sx, p).len() > 0 && components(sx, p).last() == p.subrange(s, e),
            None => components(sx, p) == start_components(sx, p),
        },
{
    lemma_body_start(sx, p);
}

/// Two Windows paths that start with different drives (letters that differ
/// even ignoring case) are never the same path, whatever follows.
pub proof fn lemma_other_drive_other_path(a: Seq<char>, b: Seq<char>)
    requires
        drive_at(a, 0),
        drive_at(b, 0),
        ascii_lower(a[0]) != ascii_lower(b[0]),
    ensures
        path_key(PathSyntax::Windows, a) != path_key(PathSyntax::Windows, b),
{
    assert(prefix_kind(a) is Disk);
    assert(prefix_kind(b) is Disk);
    let ta = prefix_token(a);
    let tb = prefix_token(b);
    assert(ta[2] == upper(a[0]));
    assert(tb[2] == upper(b[0]));
    assert((a[0] as u32) != (b[0] as u32));
    assert(upper(a[0]) != upper(b[0]));
}

proof fn lemma_trim_seg_agree(m: Seps, p: Seq<char>, q: Seq<char>, f: int, k: int)
    requires
        f >= 2,
        p.len() == q.len(),
        forall|i: int| 1 <= i < p.len() ==> p[i] == q[i],
        k <= p.len(),
    ensures
        trim_len(m, p, f, k) == trim_len(m, q, f, k),
        seg_start(m, p, f, k) == seg_start(m, q, f, k),
    decreases k,
{
    if k > f && k >= 1 {
        assert(p[k - 1] == q[k - 1]);
        assert(p[k - 2] == q[k - 2]);
        lemma_trim_seg_agree(m, p, q, f, k - 1);
    }
}

proof fn lemma_comps_agree(sx: PathSyntax, p: Seq<char>, q: Seq<char>, m: Seps, f: int, k: int)
    requires
        f >= 2,
        p.len() == q.len(),
        forall|i: int| 1 <= i < p.len() ==> p[i] == q[i],
        start_components(sx, p) == start_components(sx, q),
        0 <= k <= p.len(),
    ensures
        comps_upto(sx, p, m, f, k) == comps_upto(sx, q, m, f, k),
    decreases k,
{
    lemma_trim_seg_agree(m, p, q, f, k);
    let e = trim_len(m, p, f, k);
    lemma_trim_len(m, p, f, k);
    if e > f && e >= 1 {
        lemma_comps_step(m, p, f, k);
        let s = seg_start(m, p, f, e);
        lemma_trim_seg_agree(m, p, q, f, e);
        lemma_trim_seg_agree(m, p, q, f, s);
        lemma_seg_start(m, p, f, e);
        lemma_comps_agree(sx, p, q, m, f, trim_len(m, p, f, s));
        assert(p.subrange(s, e) =~= q.subrange(s, e));
    }
}

/// A Windows drive letter is read without case: two paths that differ only
/// in the case of their drive letter are the same path.
pub proof fn lemma_drive_letter_case(a: Seq<char>, b: Seq<char>)
    requires
        drive_at(a, 0),
        drive_at(b, 0),
        ascii_lower(a[0]) == ascii_lower(b[0]),
        a.len() == b.len(),
        forall|i: int| 1 <= i < a.len() ==> a[i] == b[i],
    ensures
        path_key(PathSyntax::Windows, a) == path_key(PathSyntax::Windows, b),
{
    let w = PathSyntax::Windows;
    assert(prefix_kind(a) is Disk);
    assert(prefix_kind(b) is Disk);
    assert(upper(a[0]) == upper(b[0]));
    assert(prefix_token(a) =~= prefix_token(b));
    assert(has_root(w, a) == has_root(w, b));
    assert(starts_at_cur_dir(w, a) == starts_at_cur_dir(w, b));
    assert(body_start(w, a) == body_start(w, b));
    assert(seps_of(w, a) == seps_of(w, b));
    assert(start_components(w, a) == start_components(w, b));
    lemma_comps_agree(w, a, b, seps_of(w, a), body_start(w, a), a.len() as int);
}

/// A name of at least three characters with no separator (neither `/` nor,
/// on Windows, `\`), joined onto any directory, ends the joined path as it
/// is written.
pub proof fn lemma_join_ends_with_name(sx: PathSyntax, d: Seq<char>, n: Seq<char>)
    requires
        n.len() >= 3,
        forall|i: int| 0 <= i < n.len() ==> n[i] != '/' && (sx is Windows ==> n[i] != '\\'),
    ensures
        join(sx, d, n).len() >= n.len(),
        join(sx, d, n).subrange(join(sx, d, n).len() - n.len(), join(sx, d, n).len() as int) == n,
{
    let q = join(sx, d, n);
    match sx {
        PathSyntax::Unix => {
            assert(!has_root(sx, n));
        },
        PathSyntax::Windows => {
            if prefix_kind(n) is NoPrefix && is_verbatim_kind(prefix_kind(d)) {
                let w = PathSyntax::Windows;
                assert(pre_len(w, n) == 0);
                assert(!has_root(w, n));
                assert(!starts_at_cur_dir(w, n));
                assert(body_start(w, n) == 0);
                let m = seps_of(w, n);
                assert(m == Seps::Both);
                assert(!ends_ignorable(m, n, n.len() as int));
                assert(trim_len(m, n, 0, n.len() as int) == n.len());
                lemma_seg_start_at(m, n, 0, n.len() as int, 0);
                assert(trim_len(m, n, 0, 0) == 0);
                assert(start_components(w, n) =~= Seq::<Seq<char>>::empty());
                assert(comps_upto(w, n, m, 0, 0) == start_components(w, n));
                assert(n.subrange(0, n.len() as int) =~= n);
                assert(components(w, n) =~= seq![n]);
                let items = components(w, d);
                let comps = seq![n];
                assert(comps.drop_last() =~= Seq::<Seq<char>>::empty());
                assert(n != seq!['\\'] && n != seq!['.'] && n != dot_dot());
                assert(push_components(items, comps.drop_last()) == items);
                assert(comps.last() == n);
                assert(push_components(items, comps) == items.push(n));
                let all = items.push(n);
                assert(all.drop_last() =~= items);
                assert(all != seq![seq!['\\']]) by {
                    if all == seq![seq!['\\']] {
                        assert(all.last() == n);
                    }
                }
                assert(render_components(all) == prefixed_each(items) + (seq!['\\'] + n));
            }
        },
    }
    assert(q.subrange(q.len() - n.len(), q.len() as int) =~= n);
}

/// Two texts that agree before `t`, the second having no separator from
/// `t` on, find the same separator before `t`, and none at all past it.
proof fn lemma_next_sep_agree(p: Seq<char>, q: Seq<char>, t: int, i: int, v: bool)
    requires
        0 <= i,
        0 <= t <= p.len(),
        t <= q.len(),
        p.take(t) == q.take(t),
        forall|j: int| t <= j < q.len() ==> !win_sep(q[j]),
    ensures
        next_sep(p, i, v) < t ==> next_sep(q, i, v) == next_sep(p, i, v),
        next_sep(p, i, v) >= t ==> next_sep(q, i, v) == q.len(),
    decreases q.len() - i,
{
    lemma_next_sep(p, i, v);
    lemma_next_sep(q, i, v);
    if i < q.len() {
        if i < t {
            assert(q[i] == q.take(t)[i]);
            assert(p[i] == p.take(t)[i]);
        }
        lemma_next_sep_agree(p, q, t, i + 1, v);
    }
}

/// Cutting a path inside its body (not just after a separator) and adding
/// text that holds no separator and no `:` and starts with `.` keeps how the
/// path starts: its prefix, its separators and where its body starts.
pub proof fn lemma_shape_kept(sx: PathSyntax, p: Seq<char>, q: Seq<char>, t: int)
    requires
        body_start(sx, p) < t <= p.len(),
        t <= q.len(),
        p.take(t) == q.take(t),
        !is_sep(seps_of(sx, p), p[t - 1]),
        forall|j: int| t <= j < q.len() ==> !win_sep(q[j]) && q[j] != ':',
        q.len() > t ==> q[t] == '.',
        q.len() == t ==> t >= body_start(sx, p) + 2,
    ensures
        kind_of(sx, q) == kind_of(sx, p),
        pre_len(sx, q) == pre_len(sx, p),
        seps_of(sx, q) == seps_of(sx, p),
        has_root(sx, q) == has_root(sx, p),
        starts_at_cur_dir(sx, q) == starts_at_cur_dir(sx, p),
        body_start(sx, q) == body_start(sx, p),
{
    lemma_body_start(sx, p);
    assert forall|j: int| 0 <= j < t implies q[j] == p[j] by {
        assert(q[j] == q.take(t)[j]);
        assert(p[j] == p.take(t)[j]);
    }
    if sx is Windows {
        lemma_prefix_len(p);
        lemma_prefix_len(q);
        lemma_next_sep_agree(p, q, t, 2, false);
        lemma_next_sep_agree(p, q, t, 4, false);
        lemma_next_sep_agree(p, q, t, 4, true);
        lemma_next_sep_agree(p, q, t, 8, true);
        lemma_next_sep(p, 2, false);
        lemma_next_sep(p, 8, true);
        let se = next_sep(p, 2, false);
        if se < p.len() {
            lemma_next_sep_agree(p, q, t, se + 1, false);
            lemma_next_sep(p, se + 1, false);
        }
        let ve = next_sep(p, 8, true);
        if ve < p.len() {
            lemma_next_sep_agree(p, q, t, ve + 1, true);
            lemma_next_sep(p, ve + 1, true);
        }
        let f = body_start(sx, p);
        let two_p = p.len() >= 2 && win_sep(p[0]) && win_sep(p[1]);
        let two_q = q.len() >= 2 && win_sep(q[0]) && win_sep(q[1]);
        if t == 1 {
            assert(!win_sep(p[0]));
            assert(q.len() > 1);
            assert(q[1] == '.');
            assert(!two_p && !two_q);
            assert(!drive_at(q, 0));
            assert(!drive_at(p, 0));
        } else {
            assert(two_q == two_p);
            assert(drive_at(q, 0) == drive_at(p, 0));
        }
        if two_p {
            assert(t >= 2);
            if t < 4 {
                assert(!verbatim_start(p)) by {
                    if verbatim_start(p) {
                        assert(prefix_len(p) >= 4);
                    }
                }
                if t == 2 {
                    assert(q.len() > 2);
                    assert(q[2] == '.');
                } else if q.len() > 3 {
                    assert(q[3] == '.');
                }
            }
            assert(verbatim_start(q) == verbatim_start(p));
            if verbatim_start(p) {
                assert(t >= 5);
                let unc_p = p.len() >= 8 && p[4] == 'U' && p[5] == 'N' && p[6] == 'C' && win_sep(p[7]);
                let unc_q = q.len() >= 8 && q[4] == 'U' && q[5] == 'N' && q[6] == 'C' && win_sep(q[7]);
                if t < 8 {
                    assert(!unc_p) by {
                        if unc_p {
                            assert(prefix_len(p) >= 8);
                        }
                    }
                    if q.len() > 7 {
                        assert(!win_sep(q[7]));
                    }
                }
                assert(unc_q == unc_p);
                if !unc_p {
                    let vd_p = drive_at(p, 4) && (p.len() == 6 || p[6] == '\\');
                    let vd_q = drive_at(q, 4) && (q.len() == 6 || q[6] == '\\');
                    if t == 5 {
                        assert(prefix_len(p) == 4);
                        assert(p[4] == '\\');
                    } else if t == 6 {
                        assert(!vd_p) by {
                            if vd_p {
                                assert(prefix_len(p) == 6);
                            }
                        }
                        if q.len() == 6 {
                            assert(prefix_len(p) == 4);
                            assert(p[4] == '\\');
                        } else {
                            assert(q[6] == '.');
                        }
                    }
                    assert(vd_q == vd_p);
                }
                assert(prefix_kind(q) == prefix_kind(p));
            } else {
                if t < 4 {
                    assert(!(p.len() >= 4 && p[2] == '.' && win_sep(p[3]))) by {
                        if p.len() >= 4 && p[2] == '.' && win_sep(p[3]) {
                            assert(prefix_len(p) >= 4);
                        }
                    }
                    if q.len() > 3 {
                        assert(!win_sep(q[3]));
                    }
                }
                assert((q.len() >= 4 && q[2] == '.' && win_sep(q[3])) == (p.len() >= 4 && p[2] == '.' && win_sep(p[3])));
                assert(prefix_kind(q) == prefix_kind(p));
            }
        }
        assert(prefix_kind(q) == prefix_kind(p));
        assert(prefix_len(q) == prefix_len(p));
    }
}

// ---------------------------------------------------------------------------
// Executable counterparts, over the characters of a path.

pub fn is_sep_of(m: Seps, c: char) -> (r: bool)
    ensures
        r == is_sep(m, c),
{
    match m {
        Seps::Slash => c == '/',
        Seps::Both => c == '/' || c == '\\',
        Seps::Backslash => c == '\\',
    }
}

/// The separators of `p`, the length of its prefix, and where its body
/// starts.
pub fn path_shape(sx: PathSyntax, p: &Vec<char>) -> (r: (Seps, usize, usize))
    ensures
        r.0 == seps_of(sx, p@),
        r.1 == pre_len(sx, p@),
        r.2 == body_start(sx, p@),
        r.1 <= r.2 <= p.len(),
{
    proof {
        lemma_body_start(sx, p@);
    }
    let (k, n) = match sx {
        PathSyntax::Unix => (PrefixKind::NoPrefix, 0),
        PathSyntax::Windows => prefix_of(p),
    };
    let m = match sx {
        PathSyntax::Unix => Seps::Slash,
        PathSyntax::Windows => match k {
            PrefixKind::Verbatim | PrefixKind::VerbatimUnc | PrefixKind::VerbatimDisk => Seps::Backslash,
            _ => Seps::Both,
        },
    };
    let root = n < p.len() && match sx {
        PathSyntax::Unix => p[n] == '/',
        PathSyntax::Windows => p[n] == '/' || p[n] == '\\',
    };
    let plain = match k {
        PrefixKind::NoPrefix | PrefixKind::Disk => true,
        _ => false,
    };
    let cur = !root && plain && n < p.len() && p[n] == '.' && (n + 1 == p.len() || is_sep_of(
        m,
        p[n + 1],
    ));
    if root || cur {
        (m, n, n + 1)
    } else {
        (m, n, n)
    }
}

fn ends_ignorable_of(m: Seps, p: &Vec<char>, k: usize) -> (r: bool)
    requires
        1 <= k <= p.len(),
    ensures
        r == ends_ignorable(m, p@, k as int),
{
    let dots = match m {
        Seps::Backslash => false,
        _ => true,
    };
    is_sep_of(m, p[k - 1]) || (dots && p[k - 1] == '.' && k >= 2 && is_sep_of(m, p[k - 2]))
}

pub fn trim_len_of(m: Seps, p: &Vec<char>, f: usize, k: usize) -> (r: usize)
    requires
        k <= p.len(),
    ensures
        r == trim_len(m, p@, f as int, k as int),
        r <= k,
{
    let mut j = k;
    while j > f && j >= 1 && ends_ignorable_of(m, p, j)
        invariant
            j <= k <= p.len(),
            trim_len(m, p@, f as int, j as int) == trim_len(m, p@, f as int, k as int),
        decreases j,
    {
        j = j - 1;
    }
    j
}

pub fn seg_start_of(m: Seps, p: &Vec<char>, f: usize, k: usize) -> (r: usize)
    requires
        k <= p.len(),
    ensures
        r == seg_start(m, p@, f as int, k as int),
        r <= k,
{
    let mut j = k;
    while !(j <= f || j == 0 || is_sep_of(m, p[j - 1]))
        invariant
            j <= k <= p.len(),
            seg_start(m, p@, f as int, j as int) == seg_start(m, p@, f as int, k as int),
        decreases j,
    {
        j = j - 1;
    }
    j
}

/// The span of the last body component of `p`, if any.
pub fn last_span_of(sx: PathSyntax, p: &Vec<char>) -> (r: Option<(usize, usize)>)
    ensures
        match r {
            Some((s, e)) => last_span(sx, p@) == Some((s as int, e as int)) && s < e <= p.len(),
            None => last_span(sx, p@) is None,
        },
{
    let (m, _n, f) = path_shape(sx, p);
    let e = trim_len_of(m, p, f, p.len());
    if e > f {
        let s = seg_start_of(m, p, f, e);
        proof {
            lemma_comps_step(m, p@, f as int, p.len() as int);
        }
        Some((s, e))
    } else {
        None
    }
}

/// Whether `p[s..e]` is `.` or `..`.
fn is_dot_name_at(p: &Vec<char>, s: usize, e: usize) -> (r: bool)
    requires
        s <= e <= p.len(),
    ensures
        r == is_dot_name(p@.subrange(s as int, e as int)),
{
    let ghost n = p@.subrange(s as int, e as int);
    if e - s == 1 {
        assert(n[0] == p@[s as int]);
        assert(n.len() != dot_dot().len());
        if p[s] == '.' {
            assert(n =~= seq!['.']);
        }
        p[s] == '.'
    } else if e - s == 2 {
        assert(n[0] == p@[s as int]);
        assert(n[1] == p@[s + 1]);
        assert(n.len() != seq!['.'].len());
        if p[s] == '.' && p[s + 1] == '.' {
            assert(n =~= dot_dot());
        }
        p[s] == '.' && p[s + 1] == '.'
    } else {
        assert(n.len() != seq!['.'].len() && n.len() != dot_dot().len());
        false
    }
}

/// Span of the file name of `p`, if it has one.
pub fn file_name_span(sx: PathSyntax, p: &Vec<char>) -> (r: Option<(usize, usize)>)
    ensures
        match r {
            Some((s, e)) => s < e <= p.len() && last_span(sx, p@) == Some((s as int, e as int))
                && file_name(sx, p@) == Some(p@.subrange(s as int, e as int)),
            None => file_name(sx, p@) is None,
        },
{
    match last_span_of(sx, p) {
        Some((s, e)) => {
            if is_dot_name_at(p, s, e) {
                None
            } else {
                Some((s, e))
            }
        },
        None => None,
    }
}

/// Index of the last `.` in `p[s..e]`, relative to `s`, if there is one.
fn last_dot_in(p: &Vec<char>, s: usize, e: usize) -> (r: Option<usize>)
    requires
        s <= e <= p.len(),
    ensures
        match r {
            Some(d) => last_dot(p@.subrange(s as int, e as int)) == d && d < e - s,
            None => last_dot(p@.subrange(s as int, e as int)) == -1,
        },
{
    let mut j = e;
    while j > s && p[j - 1] != '.'
        invariant
            s <= j <= e <= p.len(),
            last_dot(p@.subrange(s as int, j as int)) == last_dot(p@.subrange(s as int, e as int)),
        decreases j,
    {
        assert(p@.subrange(s as int, j - 1) =~= p@.subrange(s as int, j as int).drop_last());
        j = j - 1;
    }
    if j > s {
        Some(j - s - 1)
    } else {
        None
    }
}

/// The file name of `path`, as `Path::file_name` gives it.
pub fn path_file_name(sx: PathSyntax, path: &str) -> (r: Option<String>)
    ensures
        match r {
            Some(n) => file_name(sx, path@) == Some(n@),
            None => file_name(sx, path@) is None,
        },
{
    let p = chars_of(path);
    match file_name_span(sx, &p) {
        Some((s, e)) => Some(String::from_str(path.substring_char(s, e))),
        None => None,
    }
}

/// Length of the stem of the file name `p[s..e]`.
fn stem_len(p: &Vec<char>, s: usize, e: usize) -> (r: usize)
    requires
        s <= e <= p.len(),
    ensures
        r == stem_of(p@.subrange(s as int, e as int)).len(),
        r <= e - s,
        stem_of(p@.subrange(s as int, e as int)) == p@.subrange(s as int, s + r),
{
    match last_dot_in(p, s, e) {
        Some(d) if d > 0 => {
            assert(p@.subrange(s as int, e as int).take(d as int) =~= p@.subrange(
                s as int,
                s + d,
            ));
            d
        },
        _ => e - s,
    }
}

/// The file stem of `path`, as `Path::file_stem` gives it.
pub fn path_file_stem(sx: PathSyntax, path: &str) -> (r: Option<String>)
    ensures
        match r {
            Some(n) => file_stem(sx, path@) == Some(n@),
            None => file_stem(sx, path@) is None,
        },
{
    let p = chars_of(path);
    match file_name_span(sx, &p) {
        Some((s, e)) => {
            let k = stem_len(&p, s, e);
            Some(String::from_str(path.substring_char(s, s + k)))
        },
        None => None,
    }
}

/// Span of the extension of the file name of `p`, if it has one.
pub fn extension_span(sx: PathSyntax, p: &Vec<char>) -> (r: Option<(usize, usize)>)
    ensures
        match r {
            Some((a, b)) => a <= b <= p.len() && extension(sx, p@) == Some(p@.subrange(a as int, b as int)),
            None => extension(sx, p@) is None,
        },
{
    match file_name_span(sx, p) {
        Some((s, e)) => {
            match last_dot_in(p, s, e) {
                Some(d) if d > 0 => {
                    let a = s + d + 1;
                    assert(p@.subrange(s as int, e as int).skip(d + 1) =~= p@.subrange(
                        a as int,
                        e as int,
                    ));
                    Some((a, e))
                },
                _ => None,
            }
        },
        None => None,
    }
}

/// The extension of `path`, as `Path::extension` gives it.
pub fn path_extension(sx: PathSyntax, path: &str) -> (r: Option<String>)
    ensures
        match r {
            Some(x) => extension(sx, path@) == Some(x@),
            None => extension(sx, path@) is None,
        },
{
    let p = chars_of(path);
    match extension_span(sx, &p) {
        Some((a, b)) => Some(String::from_str(path.substring_char(a, b))),
        None => None,
    }
}

/// The parent of `path`, as `Path::parent` gives it.
pub fn path_parent(sx: PathSyntax, path: &str) -> (r: Option<String>)
    ensures
        match r {
            Some(x) => parent(sx, path@) == Some(x@),
            None => parent(sx, path@) is None,
        },
{
    let p = chars_of(path);
    let (m, n, f) = path_shape(sx, &p);
    match last_span_of(sx, &p) {
        Some((s, e)) => {
            let k = trim_len_of(m, &p, f, s);
            Some(String::from_str(path.substring_char(0, k)))
        },
        None => {
            if n == 0 && f == 1 && !(match sx {
                PathSyntax::Unix => p[0] == '/',
                PathSyntax::Windows => p[0] == '/' || p[0] == '\\',
            }) {
                Some(String::new())
            } else {
                None
            }
        },
    }
}

fn unix_join_of(base: &str, name: &str) -> (r: String)
    ensures
        r@ == unix_join(base@, name@),
{
    let b = chars_of(base);
    let n = chars_of(name);
    if n.len() > 0 && n[0] == '/' {
        String::from_str(name)
    } else if b.len() == 0 || b[b.len() - 1] == '/' {
        let mut r = String::from_str(base);
        r.append(name);
        r
    } else {
        let mut r = String::from_str(base);
        r.append("/");
        r.append(name);
        proof {
            reveal_strlit("/");
        }
        r
    }
}

fn is_text(s: &String, c: char) -> (r: bool)
    ensures
        r == (s@ == seq![c]),
{
    let v = chars_of(s.as_str());
    if v.len() == 1 && v[0] == c {
        assert(v@ =~= seq![c]);
        true
    } else {
        assert(v@.len() != 1 ==> v@ != seq![c]);
        false
    }
}

fn is_dot_dot_text(s: &String) -> (r: bool)
    ensures
        r == (s@ == dot_dot()),
{
    let v = chars_of(s.as_str());
    if v.len() == 2 && v[0] == '.' && v[1] == '.' {
        assert(v@ =~= dot_dot());
        true
    } else {
        assert(v@.len() != 2 ==> v@ != dot_dot());
        false
    }
}

/// The rebuilt components of a verbatim `base` with those of `name` pushed
/// on.
fn push_components_of(base: &str, name: &str) -> (r: Vec<String>)
    ensures
        texts(r@) == push_components(components(PathSyntax::Windows, base@), components(PathSyntax::Windows, name@)),
{
    let mut items = path_components(PathSyntax::Windows, base);
    let nc = path_components(PathSyntax::Windows, name);
    let ghost init = texts(items@);
    let ghost all = texts(nc@);
    let mut j: usize = 0;
    while j < nc.len()
        invariant
            j <= nc.len(),
            all == texts(nc@),
            texts(items@) == push_components(init, all.take(j as int)),
        decreases nc.len() - j,
    {
        assert(all.take(j + 1).drop_last() =~= all.take(j as int));
        let c = &nc[j];
        let ghost before = texts(items@);
        if is_text(c, '\\') {
            items = Vec::new();
            items.push(String::from_str("\\"));
            proof {
                reveal_strlit("\\");
                assert("\\"@ =~= seq!['\\']);
            }
            assert(texts(items@) =~= seq![seq!['\\']]);
        } else if is_text(c, '.') {
        } else if is_dot_dot_text(c) {
            if items.len() > 0 {
                let k = items.len() - 1;
                let last = &items[k];
                assert(last@ == before.last());
                if !(is_text(last, '.') || is_dot_dot_text(last) || is_text(last, '\\')) {
                    items.pop();
                    assert(texts(items@) =~= before.drop_last());
                }
            }
        } else {
            items.push(c.clone());
            assert(texts(items@) =~= before.push(all[j as int]));
        }
        j = j + 1;
    }
    assert(all.take(j as int) =~= all);
    items
}

/// `render_components` of `items`, computed.
fn render_of(items: &Vec<String>) -> (r: String)
    ensures
        r@ == render_components(texts(items@)),
{
    proof {
        reveal_strlit("\\");
    }
    let ghost all = texts(items@);
    assert("\\"@ =~= seq!['\\']);
    if items.len() == 1 {
        assert(all[0] == items@[0]@);
        if is_text(&items[0], '\\') {
            assert(all =~= seq![seq!['\\']]);
            return String::from_str("\\");
        }
        assert(all != seq![seq!['\\']]) by {
            if all == seq![seq!['\\']] {
                assert(all[0] == seq!['\\']);
            }
        }
    } else {
        assert(all.len() != 1);
        assert(all != seq![seq!['\\']]);
    }
    let mut r = String::new();
    let mut i: usize = 0;
    while i < items.len()
        invariant
            i <= items.len(),
            all == texts(items@),
            "\\"@ == seq!['\\'],
            r@ == prefixed_each(all.take(i as int)),
        decreases items.len() - i,
    {
        assert(all.take(i + 1).drop_last() =~= all.take(i as int));
        assert(all[i as int] == items@[i as int]@);
        assert(all.take(i + 1).last() == all[i as int]);
        if !is_text(&items[i], '\\') {
            r.append("\\");
            r.append(items[i].as_str());
        }
        i = i + 1;
        assert(r@ =~= prefixed_each(all.take(i as int)));
    }
    assert(all.take(i as int) =~= all);
    r
}

fn windows_join_of(base: &str, name: &str) -> (r: String)
    ensures
        r@ == windows_join(base@, name@),
{
    proof {
        reveal_strlit("\\");
    }
    let nv = chars_of(name);
    let (nk, _) = prefix_of(&nv);
    match nk {
        PrefixKind::NoPrefix => {},
        _ => {
            return String::from_str(name);
        },
    }
    let bv = chars_of(base);
    let (bk, bn) = prefix_of(&bv);
    let verbatim = match bk {
        PrefixKind::Verbatim | PrefixKind::VerbatimUnc | PrefixKind::VerbatimDisk => true,
        _ => false,
    };
    if verbatim && nv.len() > 0 {
        let items = push_components_of(base, name);
        let mut r = String::from_str(base.substring_char(0, bn));
        assert(bv@.subrange(0, bn as int) =~= bv@.take(bn as int));
        let rest = render_of(&items);
        r.append(rest.as_str());
        return r;
    }
    if nv.len() > 0 && (nv[0] == '/' || nv[0] == '\\') {
        let mut r = String::from_str(base.substring_char(0, bn));
        assert(bv@.subrange(0, bn as int) =~= bv@.take(bn as int));
        r.append(name);
        return r;
    }
    let disk_alone = match bk {
        PrefixKind::Disk => bv.len() == 2,
        _ => false,
    };
    let mut r = String::from_str(base);
    if bv.len() > 0 && !(bv[bv.len() - 1] == '/' || bv[bv.len() - 1] == '\\') && !disk_alone {
        r.append("\\");
    }
    r.append(name);
    r
}

/// `base` joined with `name`, as `Path::join` gives it.
pub fn path_join(sx: PathSyntax, base: &str, name: &str) -> (r: String)
    ensures
        r@ == join(sx, base@, name@),
{
    match sx {
        PathSyntax::Unix => unix_join_of(base, name),
        PathSyntax::Windows => windows_join_of(base, name),
    }
}

/// `path` with its extension replaced by `ext`, as `Path::with_extension`
/// gives it.
pub fn path_with_extension(sx: PathSyntax, path: &str, ext: &str) -> (r: String)
    ensures
        r@ == with_extension(sx, path@, ext@),
{
    let p = chars_of(path);
    match file_name_span(sx, &p) {
        Some((s, e)) => {
            if e == p.len() && p[s] == '.' {
                if let Some(1) = last_dot_in(&p, s, e) {
                    assert(p@.subrange(s as int, e as int)[0] == p@[s as int]);
                    assert(p@.take(s + 2) =~= p@.subrange(0, s + 2));
                    return String::from_str(path.substring_char(0, s + 2));
                }
            }
            assert(p@.subrange(s as int, e as int)[0] == p@[s as int]);
            let k = stem_len(&p, s, e);
            let mut r = String::from_str(path.substring_char(0, s + k));
            assert(p@.take(s + k) =~= p@.subrange(0, s + k));
            if !ext.is_empty() {
                r.append(".");
                r.append(ext);
                proof {
                    reveal_strlit(".");
                }
            }
            r
        },
        None => String::from_str(path),
    }
}

/// `start_components`, computed.
fn start_components_of(sx: PathSyntax, p: &Vec<char>) -> (r: Vec<String>)
    ensures
        texts(r@) == start_components(sx, p@),
{
    proof {
        reveal_strlit("/");
        reveal_strlit(".");
        reveal_strlit("\\");
        assert("/"@ =~= seq!['/']);
        assert("."@ =~= seq!['.']);
        assert("\\"@ =~= seq!['\\']);
    }
    let (_m, n, f) = path_shape(sx, p);
    let mut r: Vec<String> = Vec::new();
    let root = n < p.len() && match sx {
        PathSyntax::Unix => p[n] == '/',
        PathSyntax::Windows => p[n] == '/' || p[n] == '\\',
    };
    let cur = !root && f > n;
    match sx {
        PathSyntax::Unix => {
            if root {
                r.push(String::from_str("/"));
                assert(texts(r@) =~= seq![seq!['/']]);
            } else if cur {
                r.push(String::from_str("."));
                assert(texts(r@) =~= seq![seq!['.']]);
            } else {
                assert(texts(r@) =~= Seq::<Seq<char>>::empty());
            }
        },
        PathSyntax::Windows => {
            let (k, _) = prefix_of(p);
            let implied = match k {
                PrefixKind::Unc | PrefixKind::DeviceNs => true,
                _ => false,
            };
            let plain = match k {
                PrefixKind::NoPrefix => true,
                _ => false,
            };
            if root || implied {
                r.push(String::from_str("\\"));
                assert(texts(r@) =~= seq![seq!['\\']]);
            } else if cur && plain {
                r.push(String::from_str("."));
                assert(texts(r@) =~= seq![seq!['.']]);
            } else {
                assert(texts(r@) =~= Seq::<Seq<char>>::empty());
            }
        },
    }
    r
}

/// Components of `p.take(k)`, each as text.
fn comps_upto_of(sx: PathSyntax, path: &str, p: &Vec<char>, m: Seps, f: usize, k: usize) -> (r: Vec<String>)
    requires
        p@ == path@,
        k <= p.len(),
    ensures
        texts(r@) == comps_upto(sx, p@, m, f as int, k as int),
    decreases k,
{
    let e = trim_len_of(m, p, f, k);
    if e > f && e >= 1 {
        let s = seg_start_of(m, p, f, e);
        let t = trim_len_of(m, p, f, s);
        proof {
            lemma_comps_step(m, p@, f as int, k as int);
        }
        let mut r = comps_upto_of(sx, path, p, m, f, t);
        let ghost before = r@;
        r.push(String::from_str(path.substring_char(s, e)));
        assert(texts(r@) =~= texts(before).push(p@.subrange(s as int, e as int)));
        r
    } else {
        start_components_of(sx, p)
    }
}

/// The components of `path`, each as text (see `components`).
pub fn path_components(sx: PathSyntax, path: &str) -> (r: Vec<String>)
    ensures
        texts(r@) == components(sx, path@),
{
    let p = chars_of(path);
    let (m, _n, f) = path_shape(sx, &p);
    comps_upto_of(sx, path, &p, m, f, p.len())
}

/// Whether two paths name the same thing component by component, as `==`
/// on `Path` decides.
pub fn same_path(sx: PathSyntax, a: &str, b: &str) -> (r: bool)
    ensures
        r == (path_key(sx, a@) == path_key(sx, b@)),
{
    if let PathSyntax::Windows = sx {
        let av = chars_of(a);
        let bv = chars_of(b);
        if !same_prefix_of(&av, &bv) {
            return false;
        }
    }
    let ca = path_components(sx, a);
    let cb = path_components(sx, b);
    let ghost va = texts(ca@);
    let ghost vb = texts(cb@);
    if ca.len() != cb.len() {
        assert(va.len() != vb.len());
        return false;
    }
    let mut i: usize = 0;
    while i < ca.len()
        invariant
            ca.len() == cb.len(),
            i <= ca.len(),
            va == texts(ca@),
            vb == texts(cb@),
            va == components(sx, a@),
            vb == components(sx, b@),
            forall|j: int| 0 <= j < i ==> va[j] == vb[j],
        decreases ca.len() - i,
    {
        if !(ca[i] == cb[i]) {
            assert(va[i as int] != vb[i as int]);
            return false;
        }
        i = i + 1;
    }
    assert(va =~= vb);
    true
}

} // verus!
