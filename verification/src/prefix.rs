//! The prefix of a Windows path, as `std::path` parses it: a drive (`C:`),
//! a share (`\\server\share`), a device (`\\.\name`), or one of the verbatim
//! forms (`\\?\name`, `\\?\C:`, `\\?\UNC\server\share`).
use vstd::prelude::*;

verus! {

/// The kinds of Windows path prefix.
#[derive(Debug, Clone, Copy, PartialEq, Eq, Structural)]
pub enum PrefixKind {
    NoPrefix,
    Disk,
    Unc,
    DeviceNs,
    Verbatim,
    VerbatimUnc,
    VerbatimDisk,
}

pub open spec fn win_sep(c: char) -> bool {
    c == '/' || c == '\\'
}

pub open spec fn is_ascii_letter(c: char) -> bool {
    ('a' <= c <= 'z') || ('A' <= c <= 'Z')
}

/// A drive letter and `:` at position `i`.
pub open spec fn drive_at(p: Seq<char>, i: int) -> bool {
    0 <= i && i + 1 < p.len() && is_ascii_letter(p[i]) && p[i + 1] == ':'
}

/// The first separator at or after `i` (only `\` when `verbatim`), or the
/// end of `p`.
pub open spec fn next_sep(p: Seq<char>, i: int, verbatim: bool) -> int
    decreases p.len() - i,
{
    if i < 0 || i >= p.len() {
        p.len() as int
    } else if (if verbatim { p[i] == '\\' } else { win_sep(p[i]) }) {
        i
    } else {
        next_sep(p, i + 1, verbatim)
    }
}

/// `p` starts with `\\?\` written with backslashes only.
pub open spec fn verbatim_start(p: Seq<char>) -> bool {
    p.len() >= 4 && p[0] == '\\' && p[1] == '\\' && p[2] == '?' && p[3] == '\\'
}

/// Where the share of `\\server\share` ends; the server ends at
/// `next_sep(p, 2, false)`.
pub open spec fn unc_share_end(p: Seq<char>) -> int {
    let server_end = next_sep(p, 2, false);
    if server_end < p.len() {
        next_sep(p, server_end + 1, false)
    } else {
        server_end
    }
}

/// The kind of prefix `p` starts with. Two separators of either kind open a
/// share, a device or (written `\\?\` exactly) a verbatim prefix; a share
/// needs a server and a share name, else there is no prefix. Otherwise a
/// leading drive letter and `:` is a drive.
pub open spec fn prefix_kind(p: Seq<char>) -> PrefixKind {
    if p.len() >= 2 && win_sep(p[0]) && win_sep(p[1]) {
        if verbatim_start(p) {
            if p.len() >= 8 && p[4] == 'U' && p[5] == 'N' && p[6] == 'C' && win_sep(p[7]) {
                PrefixKind::VerbatimUnc
            } else if drive_at(p, 4) && (p.len() == 6 || p[6] == '\\') {
                PrefixKind::VerbatimDisk
            } else {
                PrefixKind::Verbatim
            }
        } else if p.len() >= 4 && p[2] == '.' && win_sep(p[3]) {
            PrefixKind::DeviceNs
        } else if next_sep(p, 2, false) > 2 && next_sep(p, 2, false) < p.len() && unc_share_end(p)
            > next_sep(p, 2, false) + 1 {
            PrefixKind::Unc
        } else {
            PrefixKind::NoPrefix
        }
    } else if drive_at(p, 0) {
        PrefixKind::Disk
    } else {
        PrefixKind::NoPrefix
    }
}

pub open spec fn is_verbatim_kind(k: PrefixKind) -> bool {
    k is Verbatim || k is VerbatimUnc || k is VerbatimDisk
}

/// Length of the prefix of `p` (0 when there is none). A verbatim share
/// with an empty share name ends after the server.
pub open spec fn prefix_len(p: Seq<char>) -> int {
    match prefix_kind(p) {
        PrefixKind::NoPrefix => 0,
        PrefixKind::Disk => 2,
        PrefixKind::Unc => unc_share_end(p),
        PrefixKind::DeviceNs => next_sep(p, 4, false),
        PrefixKind::Verbatim => next_sep(p, 4, true),
        PrefixKind::VerbatimDisk => 6,
        PrefixKind::VerbatimUnc => {
            let server_end = next_sep(p, 8, true);
            if server_end < p.len() && next_sep(p, server_end + 1, true) > server_end + 1 {
                next_sep(p, server_end + 1, true)
            } else {
                server_end
            }
        },
    }
}

pub open spec fn upper(c: char) -> char {
    if 'a' <= c <= 'z' {
        ((c as u8) - 32) as char
    } else {
        c
    }
}

pub open spec fn backslashed(c: char) -> char {
    if c == '/' {
        '\\'
    } else {
        c
    }
}

/// Tag of each prefix kind in `prefix_token`.
pub open spec fn kind_tag(k: PrefixKind) -> char {
    match k {
        PrefixKind::NoPrefix => 'n',
        PrefixKind::Disk => 'd',
        PrefixKind::Unc => 'u',
        PrefixKind::DeviceNs => 'e',
        PrefixKind::Verbatim => 'v',
        PrefixKind::VerbatimUnc => 'w',
        PrefixKind::VerbatimDisk => 'x',
    }
}

/// The prefix as `==` on paths compares it: its kind and its parts. Drive
/// letters compare without case; in a share or a device, `/` and `\` are
/// the same separator; a verbatim prefix compares as written, but for the
/// separator after `UNC`. The token starts with `\` and the kind's tag, so
/// that it equals no other component.
pub open spec fn prefix_token(p: Seq<char>) -> Seq<char> {
    seq!['\\', kind_tag(prefix_kind(p))] + token_body(p)
}

/// How the character at `i` of a prefix of kind `k` is compared.
pub open spec fn canon(k: PrefixKind, c: char, i: int) -> char {
    match k {
        PrefixKind::Unc | PrefixKind::DeviceNs => backslashed(c),
        PrefixKind::VerbatimUnc => if i == 7 {
            '\\'
        } else {
            c
        },
        _ => c,
    }
}

/// The parts of the prefix of `p` that `==` compares.
pub open spec fn token_body(p: Seq<char>) -> Seq<char> {
    let k = prefix_kind(p);
    match k {
        PrefixKind::Disk => seq![upper(p[0]), ':'],
        PrefixKind::VerbatimDisk => seq![upper(p[4]), ':'],
        _ => Seq::new(prefix_len(p) as nat, |i: int| canon(k, p[i], i)),
    }
}

pub proof fn lemma_next_sep(p: Seq<char>, i: int, verbatim: bool)
    requires
        0 <= i,
    ensures
        i <= p.len() ==> i <= next_sep(p, i, verbatim) <= p.len(),
        i > p.len() ==> next_sep(p, i, verbatim) == p.len(),
        forall|j: int| i <= j < next_sep(p, i, verbatim) ==> !(if verbatim { p[j] == '\\' } else { win_sep(p[j]) }),
        next_sep(p, i, verbatim) < p.len() ==> (if verbatim { p[next_sep(p, i, verbatim)] == '\\' } else { win_sep(p[next_sep(p, i, verbatim)]) }),
    decreases p.len() - i,
{
    if i < p.len() && !(if verbatim { p[i] == '\\' } else { win_sep(p[i]) }) {
        lemma_next_sep(p, i + 1, verbatim);
    }
}

/// A prefix ends at the end of `p` or just before a separator (only `\`
/// after a verbatim prefix), except a drive, which may be followed by
/// anything.
pub proof fn lemma_prefix_len(p: Seq<char>)
    ensures
        0 <= prefix_len(p) <= p.len(),
        prefix_kind(p) is NoPrefix <==> prefix_len(p) == 0,
        prefix_len(p) < p.len() && !(prefix_kind(p) is Disk) && !(prefix_kind(p) is NoPrefix) ==> win_sep(p[prefix_len(p)]),
        prefix_len(p) < p.len() && is_verbatim_kind(prefix_kind(p)) ==> p[prefix_len(p)] == '\\',
        !(prefix_kind(p) is NoPrefix) && !(prefix_kind(p) is Disk) ==> prefix_len(p) >= 4,
        prefix_kind(p) is VerbatimUnc ==> prefix_len(p) >= 8,
{
    lemma_next_sep(p, 2, false);
    lemma_next_sep(p, 4, false);
    lemma_next_sep(p, 4, true);
    lemma_next_sep(p, 8, true);
    let s = next_sep(p, 2, false);
    if s < p.len() {
        lemma_next_sep(p, s + 1, false);
    }
    let v = next_sep(p, 8, true);
    if v < p.len() {
        lemma_next_sep(p, v + 1, true);
    }
    if prefix_kind(p) is VerbatimDisk && 6 < p.len() {
        assert(p[6] == '\\');
    }
    if prefix_kind(p) is Unc {
        assert(prefix_len(p) == next_sep(p, s + 1, false));
    }
}

// ---------------------------------------------------------------------------
// Executable counterparts

pub fn next_sep_of(p: &Vec<char>, i: usize, verbatim: bool) -> (r: usize)
    requires
        i <= p.len(),
    ensures
        r == next_sep(p@, i as int, verbatim),
        i <= r <= p.len(),
{
    proof {
        lemma_next_sep(p@, i as int, verbatim);
    }
    let mut j = i;
    while j < p.len() && !sep_in(p[j], verbatim)
        invariant
            i <= j <= p.len(),
            next_sep(p@, j as int, verbatim) == next_sep(p@, i as int, verbatim),
        decreases p.len() - j,
    {
        j = j + 1;
    }
    j
}

fn sep_in(c: char, verbatim: bool) -> (r: bool)
    ensures
        r == (if verbatim { c == '\\' } else { win_sep(c) }),
{
    if verbatim {
        c == '\\'
    } else {
        c == '/' || c == '\\'
    }
}

fn is_sep_char(c: char) -> (r: bool)
    ensures
        r == win_sep(c),
{
    c == '/' || c == '\\'
}

fn is_letter(c: char) -> (r: bool)
    ensures
        r == is_ascii_letter(c),
{
    ('a' <= c && c <= 'z') || ('A' <= c && c <= 'Z')
}

/// The kind and length of the prefix of `p`.
pub fn prefix_of(p: &Vec<char>) -> (r: (PrefixKind, usize))
    ensures
        r.0 == prefix_kind(p@),
        r.1 == prefix_len(p@),
        r.1 <= p.len(),
{
    proof {
        lemma_prefix_len(p@);
    }
    let n = p.len();
    if n >= 2 && is_sep_char(p[0]) && is_sep_char(p[1]) {
        if n >= 4 && p[0] == '\\' && p[1] == '\\' && p[2] == '?' && p[3] == '\\' {
            if n >= 8 && p[4] == 'U' && p[5] == 'N' && p[6] == 'C' && is_sep_char(p[7]) {
                let server_end = next_sep_of(p, 8, true);
                if server_end < n {
                    let share_end = next_sep_of(p, server_end + 1, true);
                    if share_end > server_end + 1 {
                        return (PrefixKind::VerbatimUnc, share_end);
                    }
                }
                (PrefixKind::VerbatimUnc, server_end)
            } else if n >= 6 && is_letter(p[4]) && p[5] == ':' && (n == 6 || p[6] == '\\') {
                (PrefixKind::VerbatimDisk, 6)
            } else {
                (PrefixKind::Verbatim, next_sep_of(p, 4, true))
            }
        } else if n >= 4 && p[2] == '.' && is_sep_char(p[3]) {
            (PrefixKind::DeviceNs, next_sep_of(p, 4, false))
        } else {
            let server_end = next_sep_of(p, 2, false);
            if server_end > 2 && server_end < n {
                let share_end = next_sep_of(p, server_end + 1, false);
                if share_end > server_end + 1 {
                    return (PrefixKind::Unc, share_end);
                }
            }
            (PrefixKind::NoPrefix, 0)
        }
    } else if n >= 2 && is_letter(p[0]) && p[1] == ':' {
        (PrefixKind::Disk, 2)
    } else {
        (PrefixKind::NoPrefix, 0)
    }
}

fn upper_of(c: char) -> (r: char)
    ensures
        r == upper(c),
{
    if 'a' <= c && c <= 'z' {
        ((c as u8) - 32) as char
    } else {
        c
    }
}

fn canon_of(k: PrefixKind, c: char, i: usize) -> (r: char)
    ensures
        r == canon(k, c, i as int),
{
    match k {
        PrefixKind::Unc | PrefixKind::DeviceNs => if c == '/' {
            '\\'
        } else {
            c
        },
        PrefixKind::VerbatimUnc => if i == 7 {
            '\\'
        } else {
            c
        },
        _ => c,
    }
}

/// Whether `a` and `b` have prefixes that `==` on paths takes as equal.
pub fn same_prefix_of(a: &Vec<char>, b: &Vec<char>) -> (r: bool)
    ensures
        r == (prefix_token(a@) == prefix_token(b@)),
{
    let (ka, na) = prefix_of(a);
    let (kb, nb) = prefix_of(b);
    let ghost ta = prefix_token(a@);
    let ghost tb = prefix_token(b@);
    if ka != kb {
        assert(ta[1] != tb[1]);
        return false;
    }
    let ghost ba = token_body(a@);
    let ghost bb = token_body(b@);
    assert(ta == tb <==> ba == bb) by {
        if ba == bb {
            assert(ta =~= tb);
        }
        if ta == tb {
            assert(ba =~= ta.skip(2));
            assert(bb =~= tb.skip(2));
        }
    }
    match ka {
        PrefixKind::Disk => {
            let r = upper_of(a[0]) == upper_of(b[0]);
            assert(r == (ba =~= bb)) by {
                if ba == bb {
                    assert(ba[0] == bb[0]);
                }
            }
            r
        },
        PrefixKind::VerbatimDisk => {
            let r = upper_of(a[4]) == upper_of(b[4]);
            assert(r == (ba =~= bb)) by {
                if ba == bb {
                    assert(ba[0] == bb[0]);
                }
            }
            r
        },
        _ => {
            if na != nb {
                assert(ba.len() != bb.len());
                return false;
            }
            assert(ba.len() == na && bb.len() == nb);
            let mut i: usize = 0;
            while i < na
                invariant
                    na == nb,
                    ta == prefix_token(a@),
                    tb == prefix_token(b@),
                    (ta == tb) == (ba == bb),
                    nb == prefix_len(b@),
                    ba.len() == na,
                    bb.len() == na,
                    forall|j: int| 0 <= j < na ==> ba[j] == canon(ka, a@[j], j) && bb[j] == canon(ka, b@[j], j),
                    na <= a.len(),
                    nb <= b.len(),
                    na == prefix_len(a@),
                    ka == prefix_kind(a@),
                    ka == prefix_kind(b@),
                    !(ka is Disk) && !(ka is VerbatimDisk),
                    i <= na,
                    ba == token_body(a@),
                    bb == token_body(b@),
                    forall|j: int| 0 <= j < i ==> ba[j] == bb[j],
                decreases na - i,
            {
                if canon_of(ka, a[i], i) != canon_of(ka, b[i], i) {
                    assert(ba[i as int] != bb[i as int]);
                    return false;
                }
                i = i + 1;
            }
            assert(ba =~= bb);
            true
        },
    }
}

} // verus!
