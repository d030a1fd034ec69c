//! Reading a `PATH` value and joining a file name onto one of its
//! directories, as `std::env::split_paths` and `Path::join` do it, for Unix
//! and for Windows.
use vstd::prelude::*;
use crate::path::{join, path_join, PathSyntax};
use crate::text::{chars_of, index_before, pieces_upto, split_on, split_text, texts};

verus! {

// ---------------------------------------------------------------------------
// Splitting a Windows `PATH`

/// The entries of the Windows list `s` from position `i` on, with `cur` the
/// entry read so far and `quoted` whether a `"` is open: entries are
/// separated by `;` outside quotes, and the `"` characters themselves are
/// dropped.
pub open spec fn windows_entries_from(s: Seq<char>, i: int, cur: Seq<char>, quoted: bool) -> Seq<Seq<char>>
    decreases s.len() - i,
{
    if i < 0 || i >= s.len() {
        seq![cur]
    } else if s[i] == '"' {
        windows_entries_from(s, i + 1, cur, !quoted)
    } else if s[i] == ';' && !quoted {
        seq![cur] + windows_entries_from(s, i + 1, Seq::empty(), false)
    } else {
        windows_entries_from(s, i + 1, cur.push(s[i]), quoted)
    }
}

/// The directories of a `PATH` value in `syntax`: cut at every `:` on Unix;
/// on Windows, cut at every `;` outside double quotes, with the quotes
/// removed.
pub open spec fn path_entries(syntax: PathSyntax, s: Seq<char>) -> Seq<Seq<char>> {
    match syntax {
        PathSyntax::Unix => split_on(s, ':'),
        PathSyntax::Windows => windows_entries_from(s, 0, Seq::empty(), false),
    }
}

/// Directories written one after another with `sep` between them.
pub open spec fn joined(ds: Seq<Seq<char>>, sep: char) -> Seq<char>
    decreases ds.len(),
{
    if ds.len() == 0 {
        Seq::empty()
    } else if ds.len() == 1 {
        ds[0]
    } else {
        ds[0] + seq![sep] + joined(ds.drop_first(), sep)
    }
}

proof fn lemma_entries_shift(x: Seq<char>, y: Seq<char>, i: int, cur: Seq<char>, quoted: bool)
    requires
        0 <= i,
    ensures
        windows_entries_from(x + y, x.len() + i, cur, quoted) == windows_entries_from(y, i, cur, quoted),
    decreases y.len() - i,
{
    if i < y.len() {
        assert((x + y)[x.len() + i] == y[i]);
        lemma_entries_shift(x, y, i + 1, cur.push(y[i]), quoted);
        lemma_entries_shift(x, y, i + 1, cur, !quoted);
        lemma_entries_shift(x, y, i + 1, Seq::empty(), false);
    }
}

proof fn lemma_entries_run(s: Seq<char>, i: int, j: int, cur: Seq<char>)
    requires
        0 <= i <= j <= s.len(),
        forall|k: int| i <= k < j ==> s[k] != ';' && s[k] != '"',
    ensures
        windows_entries_from(s, i, cur, false) == windows_entries_from(s, j, cur + s.subrange(i, j), false),
    decreases j - i,
{
    if i < j {
        lemma_entries_run(s, i + 1, j, cur.push(s[i]));
        assert(cur.push(s[i]) + s.subrange(i + 1, j) =~= cur + s.subrange(i, j));
    } else {
        assert(cur + s.subrange(i, j) =~= cur);
    }
}

/// Splitting a Windows `PATH` gives back the directories it was made of:
/// directories without `;` or `"` (spaces and any other character
/// allowed), joined with `;`, split into exactly those directories, in
/// order.
pub proof fn lemma_windows_path_list_round_trip(ds: Seq<Seq<char>>)
    requires
        ds.len() >= 1,
        forall|k: int, i: int| 0 <= k < ds.len() && 0 <= i < ds[k].len() ==> #[trigger] ds[k][i] != ';' && ds[k][i] != '"',
    ensures
        path_entries(PathSyntax::Windows, joined(ds, ';')) == ds,
    decreases ds.len(),
{
    let s = joined(ds, ';');
    let d0 = ds[0];
    assert forall|k: int| 0 <= k < d0.len() implies d0[k] != ';' && d0[k] != '"' by {
        assert(ds[0][k] == d0[k]);
    }
    if ds.len() == 1 {
        lemma_entries_run(s, 0, s.len() as int, Seq::empty());
        assert(Seq::<char>::empty() + s.subrange(0, s.len() as int) =~= d0);
        assert(seq![d0] =~= ds);
    } else {
        let rest = ds.drop_first();
        let rs = joined(rest, ';');
        assert(s == d0 + seq![';'] + rs);
        assert forall|k: int| 0 <= k < d0.len() implies s[k] != ';' && s[k] != '"' by {
            assert(s[k] == d0[k]);
        }
        lemma_entries_run(s, 0, d0.len() as int, Seq::empty());
        assert(Seq::<char>::empty() + s.subrange(0, d0.len() as int) =~= d0);
        assert(s[d0.len() as int] == ';');
        assert(s =~= (d0 + seq![';']) + rs);
        lemma_entries_shift(d0 + seq![';'], rs, 0, Seq::empty(), false);
        assert forall|k: int, i: int| 0 <= k < rest.len() && 0 <= i < rest[k].len() implies #[trigger] rest[k][i] != ';' && rest[k][i] != '"' by {
            assert(rest[k] == ds[k + 1]);
            assert(ds[k + 1][i] == rest[k][i]);
        }
        lemma_windows_path_list_round_trip(rest);
        assert(seq![d0] + rest =~= ds);
    }
}

proof fn lemma_joined_last(ds: Seq<Seq<char>>, sep: char)
    requires
        ds.len() >= 2,
    ensures
        joined(ds, sep) == joined(ds.drop_last(), sep) + seq![sep] + ds.last(),
    decreases ds.len(),
{
    let a = ds.drop_first();
    let b = ds.drop_last();
    if ds.len() == 2 {
        assert(b =~= seq![ds[0]]);
        assert(a =~= seq![ds[1]]);
        assert(joined(a, sep) == ds[1]);
        assert(joined(b, sep) == ds[0]);
        assert(joined(ds, sep) == ds[0] + seq![sep] + joined(a, sep));
    } else {
        lemma_joined_last(a, sep);
        assert(a.drop_last() =~= b.drop_first());
        assert(b[0] == ds[0]);
        assert(a.last() == ds.last());
        assert(joined(ds, sep) == ds[0] + seq![sep] + joined(a, sep));
        assert(joined(b, sep) == b[0] + seq![sep] + joined(b.drop_first(), sep));
        assert(joined(ds, sep) =~= joined(b, sep) + seq![sep] + ds.last());
    }
}

proof fn lemma_index_before_prefix(s: Seq<char>, t: Seq<char>, c: char, k: int)
    requires
        0 <= k <= s.len(),
        k <= t.len(),
        s.take(k) == t.take(k),
    ensures
        index_before(s, c, k) == index_before(t, c, k),
    decreases k,
{
    if k > 0 {
        assert(s[k - 1] == s.take(k)[k - 1]);
        assert(t[k - 1] == t.take(k)[k - 1]);
        assert(s.take(k - 1) =~= s.take(k).take(k - 1));
        assert(t.take(k - 1) =~= t.take(k).take(k - 1));
        lemma_index_before_prefix(s, t, c, k - 1);
    }
}

proof fn lemma_pieces_prefix(s: Seq<char>, t: Seq<char>, c: char, k: int)
    requires
        0 <= k <= s.len(),
        k <= t.len(),
        s.take(k) == t.take(k),
    ensures
        pieces_upto(s, c, k) == pieces_upto(t, c, k),
    decreases k,
{
    lemma_index_before_prefix(s, t, c, k);
    let j = index_before(s, c, k);
    crate::text::lemma_index_before(s, c, k);
    if j < 0 {
        assert(s.take(k) == t.take(k));
    } else {
        assert(s.take(j) =~= s.take(k).take(j));
        assert(t.take(j) =~= t.take(k).take(j));
        lemma_pieces_prefix(s, t, c, j);
        assert(s.subrange(j + 1, k) =~= t.subrange(j + 1, k)) by {
            assert forall|i: int| j + 1 <= i < k implies s[i] == t[i] by {
                assert(s[i] == s.take(k)[i]);
                assert(t[i] == t.take(k)[i]);
            }
        }
    }
}

proof fn lemma_index_before_at(s: Seq<char>, c: char, j: int, k: int)
    requires
        -1 <= j < k <= s.len(),
        j >= 0 ==> s[j] == c,
        forall|i: int| j < i < k ==> s[i] != c,
    ensures
        index_before(s, c, k) == j,
    decreases k,
{
    if k > j + 1 {
        lemma_index_before_at(s, c, j, k - 1);
    }
}

/// Splitting a Unix `PATH` gives back the directories it was made of:
/// directories without `:`, joined with `:`, split into exactly those
/// directories, in order.
pub proof fn lemma_unix_path_list_round_trip(ds: Seq<Seq<char>>)
    requires
        ds.len() >= 1,
        forall|k: int, i: int| 0 <= k < ds.len() && 0 <= i < ds[k].len() ==> #[trigger] ds[k][i] != ':',
    ensures
        path_entries(PathSyntax::Unix, joined(ds, ':')) == ds,
    decreases ds.len(),
{
    let s = joined(ds, ':');
    if ds.len() == 1 {
        assert forall|i: int| -1 < i < s.len() implies s[i] != ':' by {
            assert(ds[0][i] == s[i]);
        }
        lemma_index_before_at(s, ':', -1, s.len() as int);
        assert(s.take(s.len() as int) =~= s);
        assert(seq![s] =~= ds);
    } else {
        lemma_joined_last(ds, ':');
        let init = ds.drop_last();
        let is = joined(init, ':');
        let last = ds.last();
        let j = is.len() as int;
        assert(s =~= is + seq![':'] + last);
        assert forall|i: int| j < i < s.len() implies s[i] != ':' by {
            assert(s[i] == last[i - j - 1]);
            assert(ds[ds.len() - 1][i - j - 1] == last[i - j - 1]);
        }
        lemma_index_before_at(s, ':', j, s.len() as int);
        assert(s.take(j) =~= is.take(j));
        lemma_pieces_prefix(s, is, ':', j);
        assert forall|k: int, i: int| 0 <= k < init.len() && 0 <= i < init[k].len() implies #[trigger] init[k][i] != ':' by {
            assert(init[k] == ds[k]);
            assert(ds[k][i] == init[k][i]);
        }
        lemma_unix_path_list_round_trip(init);
        assert(s.subrange(j + 1, s.len() as int) =~= last);
        assert(init.push(last) =~= ds);
    }
}

fn split_windows(s: &str) -> (r: Vec<String>)
    ensures
        texts(r@) == windows_entries_from(s@, 0, Seq::empty(), false),
{
    let v = chars_of(s);
    let n = v.len();
    let mut out: Vec<String> = Vec::new();
    let mut cur = String::new();
    let mut run: usize = 0;
    let mut quoted = false;
    let mut i: usize = 0;
    while i < n
        invariant
            n == v@.len(),
            v@ == s@,
            run <= i <= n,
            windows_entries_from(v@, 0, Seq::empty(), false) == texts(out@)
                + windows_entries_from(v@, i as int, cur@ + v@.subrange(run as int, i as int), quoted),
        decreases n - i,
    {
        let ghost before = texts(out@);
        let ghost full = cur@ + v@.subrange(run as int, i as int);
        if v[i] == '"' {
            cur.append(s.substring_char(run, i));
            run = i + 1;
            quoted = !quoted;
            assert(cur@ + v@.subrange(run as int, (i + 1) as int) =~= full);
        } else if v[i] == ';' && !quoted {
            cur.append(s.substring_char(run, i));
            assert(cur@ =~= full);
            out.push(cur);
            cur = String::new();
            run = i + 1;
            assert(texts(out@) =~= before.push(full));
            assert(cur@ + v@.subrange(run as int, (i + 1) as int) =~= Seq::<char>::empty());
            assert(before + (seq![full] + windows_entries_from(v@, (i + 1) as int, Seq::empty(), false))
                =~= before.push(full) + windows_entries_from(v@, (i + 1) as int, Seq::empty(), false));
        } else {
            assert(cur@ + v@.subrange(run as int, (i + 1) as int) =~= full.push(v@[i as int]));
        }
        i = i + 1;
    }
    let ghost before = texts(out@);
    cur.append(s.substring_char(run, n));
    let ghost last = cur@;
    out.push(cur);
    assert(texts(out@) =~= before.push(last));
    out
}

/// The directories of a `PATH` value, as `std::env::split_paths` lists them
/// in `syntax`.
pub fn split_path_list(syntax: PathSyntax, s: &str) -> (r: Vec<String>)
    ensures
        texts(r@) == path_entries(syntax, s@),
{
    match syntax {
        PathSyntax::Unix => split_text(s, ':'),
        PathSyntax::Windows => split_windows(s),
    }
}

/// A file name joined onto directory `d` in `syntax`.
pub fn join_file_name(syntax: PathSyntax, d: &str, name: &str) -> (r: String)
    ensures
        r@ == join(syntax, d@, name@),
{
    path_join(syntax, d, name)
}

} // verus!
