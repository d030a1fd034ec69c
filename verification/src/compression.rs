//! What the compressor decides about files before and after a run: which
//! paths are PDF files, where the compressed copy goes by default, and how a
//! size is shown.
use vstd::prelude::*;
use crate::path::{
    body_start, components, ends_ignorable, extension, extension_of, extension_span, file_name, file_stem, has_root, join,
    last_dot, last_span, lemma_components_last, lemma_file_stem_plain, lemma_last_dot_before,
    lemma_last_dot_range, lemma_last_span_at, lemma_last_span_plain, lemma_trim_len, parent, path_file_stem, path_join,
    is_sep, lemma_join_ends_with_name, path_key, path_parent, seps_of, stem_of, trim_len, PathSyntax, Seps,
};
use crate::prefix::{prefix_kind, PrefixKind};
use crate::text::{chars_of, decimal, digit_char, digit_text, eq_ignore_ascii_case, push_decimal, span_eq_ignore_ascii_case};

verus! {

// ---------------------------------------------------------------------------
// PDF file names

pub open spec fn pdf_word() -> Seq<char> {
    seq!['p', 'd', 'f']
}

/// The path's file name has the extension `pdf`, in any ASCII case.
pub open spec fn has_pdf_extension(sx: PathSyntax, p: Seq<char>) -> bool {
    match extension(sx, p) {
        Some(x) => eq_ignore_ascii_case(x, pdf_word()),
        None => false,
    }
}

/// Whether `path`, read in `syntax`, names a PDF file by its extension
/// (`pdf`, any case).
pub fn is_pdf_in(syntax: PathSyntax, path: &str) -> (r: bool)
    ensures
        r == has_pdf_extension(syntax, path@),
{
    let p = chars_of(path);
    let word = vec!['p', 'd', 'f'];
    assert(word@ =~= pdf_word());
    match extension_span(syntax, &p) {
        Some((a, b)) => span_eq_ignore_ascii_case(&p, a, b, &word),
        None => false,
    }
}

/// Whether the Unix path `path` names a PDF file by its extension (`pdf`,
/// any case).
pub fn is_pdf(path: &str) -> (r: bool)
    ensures
        r == has_pdf_extension(PathSyntax::Unix, path@),
{
    is_pdf_in(PathSyntax::Unix, path)
}

// ---------------------------------------------------------------------------
// Default output location

/// The default output for `input`: in the input's directory (`.` when it has
/// none), named after the input's stem (`document` when it has none)
/// followed by `_compressed.pdf`.
pub open spec fn output_path_for(sx: PathSyntax, input: Seq<char>) -> Seq<char> {
    let dir = match parent(sx, input) {
        Some(d) => d,
        None => "."@,
    };
    join(sx, dir, output_name_for(sx, input))
}

/// Where the compressed copy of `input`, read in `syntax`, goes unless the
/// user picks another file.
pub fn generate_output_path_in(syntax: PathSyntax, input: &str) -> (r: String)
    ensures
        r@ == output_path_for(syntax, input@),
{
    let dir = match path_parent(syntax, input) {
        Some(d) => d,
        None => String::from_str("."),
    };
    let mut name = match path_file_stem(syntax, input) {
        Some(s) => s,
        None => String::from_str("document"),
    };
    name.append("_compressed.pdf");
    path_join(syntax, dir.as_str(), name.as_str())
}

/// Where the compressed copy of the Unix path `input` goes unless the user
/// picks another file.
pub fn generate_output_path(input: &str) -> (r: String)
    ensures
        r@ == output_path_for(PathSyntax::Unix, input@),
{
    generate_output_path_in(PathSyntax::Unix, input)
}

/// The name given to the default output of `input`.
pub open spec fn output_name_for(sx: PathSyntax, input: Seq<char>) -> Seq<char> {
    let stem = match file_stem(sx, input) {
        Some(s) => s,
        None => "document"@,
    };
    stem + "_compressed.pdf"@
}

/// `s` ends with `t`.
pub open spec fn ends_with(s: Seq<char>, t: Seq<char>) -> bool {
    s.len() >= t.len() && s.subrange(s.len() - t.len(), s.len() as int) == t
}

/// The default output ends with the input's file stem (its file name up to
/// the last `.`, or the whole name when that `.` comes first) followed by
/// `_compressed.pdf`, or with `document_compressed.pdf` when the input has
/// no file name. The one exception: after a Windows verbatim prefix, where
/// `/` is no separator, a stem holding a `/` is rewritten with `\` (unless
/// it makes the new name start with a prefix of its own).
pub proof fn lemma_output_ends_with_stem(sx: PathSyntax, input: Seq<char>)
    requires
        sx is Windows ==> (file_stem(sx, input) matches Some(st) ==> (forall|i: int|
            0 <= i < st.len() ==> st[i] != '/') || !(prefix_kind(st + "_compressed.pdf"@) is NoPrefix)),
    ensures
        file_stem(sx, input) matches Some(st) ==> ends_with(output_path_for(sx, input), st + "_compressed.pdf"@),
        file_stem(sx, input) is None ==> ends_with(output_path_for(sx, input), "document_compressed.pdf"@),
{
    reveal_strlit("_compressed.pdf");
    reveal_strlit("document");
    reveal_strlit("document_compressed.pdf");
    assert("document_compressed.pdf"@ =~= "document"@ + "_compressed.pdf"@);
    lemma_file_stem_plain(sx, input);
    let dir = match parent(sx, input) {
        Some(d) => d,
        None => "."@,
    };
    let n = output_name_for(sx, input);
    let q = output_path_for(sx, input);
    let suffix = "_compressed.pdf"@;
    if sx is Windows && !(prefix_kind(n) is NoPrefix) {
        assert(q == n);
        assert(q.subrange(0, q.len() as int) =~= q);
    } else {
        assert forall|i: int| 0 <= i < n.len() implies n[i] != '/' && (sx is Windows ==> n[i] != '\\') by {
            match file_stem(sx, input) {
                Some(st) => {
                    if i < st.len() {
                        assert(n[i] == st[i]);
                        assert(!is_sep(seps_of(sx, input), st[i]));
                    } else {
                        assert(n[i] == suffix[i - st.len()]);
                    }
                },
                None => {
                    assert(n[i] == "document_compressed.pdf"@[i]);
                },
            }
        }
        lemma_join_ends_with_name(sx, dir, n);
    }
}

/// The default output ends in the component `output_name_for(PathSyntax::Unix, input)`.
proof fn lemma_output_last_component(input: Seq<char>)
    ensures
        ({
            let q = output_path_for(PathSyntax::Unix, input);
            let name = output_name_for(PathSyntax::Unix, input);
            &&& last_span(PathSyntax::Unix, q) == Some(((q.len() - name.len()) as int, q.len() as int))
            &&& q.subrange(q.len() - name.len(), q.len() as int) == name
            &&& extension_of(name) == Some(pdf_word())
            &&& name.len() > 15
            &&& forall|i: int| 0 <= i < name.len() ==> name[i] != '/'
            &&& name.last() == 'f'
            &&& name[name.len() - 4] == '.'
            &&& (file_stem(PathSyntax::Unix, input) matches Some(st) ==> name.take(st.len() as int) == st
                && name[st.len() as int] == '_')
        }),
{
    reveal_strlit("_compressed.pdf");
    reveal_strlit("document");
    reveal_strlit(".");
    lemma_file_stem_plain(PathSyntax::Unix, input);
    let dir = match parent(PathSyntax::Unix, input) {
        Some(d) => d,
        None => "."@,
    };
    let stem = match file_stem(PathSyntax::Unix, input) {
        Some(s) => s,
        None => "document"@,
    };
    let name = output_name_for(PathSyntax::Unix, input);
    let suffix = "_compressed.pdf"@;
    assert(stem.len() > 0);
    assert forall|i: int| 0 <= i < name.len() implies name[i] != '/' by {
        if i < stem.len() {
            assert(name[i] == stem[i]);
        } else {
            assert(name[i] == suffix[i - stem.len()]);
        }
    }
    let base = stem + seq!['_', 'c', 'o', 'm', 'p', 'r', 'e', 's', 's', 'e', 'd'];
    assert(name =~= base + seq!['.'] + pdf_word());
    lemma_last_dot_before(base, pdf_word());
    lemma_last_dot_range(name);
    assert(name.skip(base.len() + 1int) =~= pdf_word());
    let q = output_path_for(PathSyntax::Unix, input);
    let s: int = q.len() - name.len();
    if dir.len() == 0 {
        assert(q =~= name);
        assert(body_start(PathSyntax::Unix, q) == 0);
    } else if dir.last() == '/' {
        assert(q =~= dir + name);
        assert(q[s - 1] == '/');
    } else {
        assert(q =~= dir + seq!['/'] + name);
        assert(q[s - 1] == '/');
    }
    assert(q.subrange(s, q.len() as int) =~= name);
    assert forall|i: int| s <= i < q.len() implies q[i] != '/' by {
        assert(q[i] == name[i - s]);
    }
    lemma_last_span_at(PathSyntax::Unix, q, s);
    if let Some(st) = file_stem(PathSyntax::Unix, input) {
        assert(name.take(st.len() as int) =~= st);
    }
}

/// The default output of a Unix path is always a PDF file by its name.
pub proof fn lemma_output_path_is_pdf(input: Seq<char>)
    ensures
        has_pdf_extension(PathSyntax::Unix, output_path_for(PathSyntax::Unix, input)),
{
    lemma_output_last_component(input);
    let q = output_path_for(PathSyntax::Unix, input);
    let name = output_name_for(PathSyntax::Unix, input);
    assert(name != seq!['.', '.']);
    assert(file_name(PathSyntax::Unix, q) == Some(name));
}

/// The default output of a Unix path never names the input itself, so a
/// compression to it is never refused for writing over its input.
pub proof fn lemma_output_path_is_another_file(input: Seq<char>)
    ensures
        path_key(PathSyntax::Unix, output_path_for(PathSyntax::Unix, input)) != path_key(PathSyntax::Unix, input),
{
    assert(path_key(PathSyntax::Unix, input).1 == components(PathSyntax::Unix, input));
    assert(path_key(PathSyntax::Unix, output_path_for(PathSyntax::Unix, input)).1 == components(PathSyntax::Unix, output_path_for(PathSyntax::Unix, input)));
    lemma_output_last_component(input);
    lemma_components_last(PathSyntax::Unix, input);
    lemma_components_last(PathSyntax::Unix, output_path_for(PathSyntax::Unix, input));
    lemma_last_span_plain(PathSyntax::Unix, input);
    let q = output_path_for(PathSyntax::Unix, input);
    let name = output_name_for(PathSyntax::Unix, input);
    assert(components(PathSyntax::Unix, q).last() == name);
    if components(PathSyntax::Unix, q) == components(PathSyntax::Unix, input) {
        match last_span(PathSyntax::Unix, input) {
            Some((s, e)) => {
                let n = input.subrange(s, e);
                assert(n == name);
                if n == seq!['.', '.'] {
                    assert(n.len() == 2);
                } else {
                    assert(file_name(PathSyntax::Unix, input) == Some(n));
                    lemma_last_dot_range(n);
                    let st = stem_of(n);
                    if last_dot(n) <= 0 {
                        assert(st == n);
                    } else {
                        assert(n[st.len() as int] == '.');
                    }
                }
            },
            None => {},
        }
    }
}

/// The default output of a Unix path goes in the input's own directory: it
/// has the same parent as the input, whenever the input has one.
pub proof fn lemma_output_path_keeps_directory(input: Seq<char>)
    ensures
        parent(PathSyntax::Unix, input) matches Some(d) ==> parent(PathSyntax::Unix, output_path_for(PathSyntax::Unix, input)) == Some(d),
{
    lemma_output_last_component(input);
    let q = output_path_for(PathSyntax::Unix, input);
    let name = output_name_for(PathSyntax::Unix, input);
    let s: int = q.len() - name.len();
    assert(!has_root(PathSyntax::Unix, name));
    if let Some(d) = parent(PathSyntax::Unix, input) {
        let fq = body_start(PathSyntax::Unix, q);
        if d.len() == 0 {
            assert(s == 0);
            assert(trim_len(Seps::Slash, q, fq, s) == 0);
        } else {
            match last_span(PathSyntax::Unix, input) {
                Some((sp, ep)) => {
                    let fp = body_start(PathSyntax::Unix, input);
                    lemma_last_span_plain(PathSyntax::Unix, input);
                    lemma_trim_len(Seps::Slash, input, fp, sp);
                    let t = trim_len(Seps::Slash, input, fp, sp);
                    assert(d =~= input.take(t));
                    if d.last() == '/' {
                        assert(q =~= d + name);
                        assert(t == fp);
                        assert(q[0] == '/');
                        assert(trim_len(Seps::Slash, q, fq, s) == s);
                    } else {
                        assert(q =~= d + seq!['/'] + name);
                        assert(q[s - 1] == '/');
                        assert(q.take(t) =~= d);
                        if t > fp {
                            assert(!ends_ignorable(Seps::Slash, input, t));
                            assert(q[t - 1] == input[t - 1]);
                            if t >= 2 {
                                assert(q[t - 2] == input[t - 2]);
                            }
                        } else {
                            assert(q[0] == input[0]);
                            assert(fq == 1);
                        }
                        assert(trim_len(Seps::Slash, q, fq, t) == t);
                        assert(trim_len(Seps::Slash, q, fq, s) == trim_len(Seps::Slash, q, fq, t));
                    }
                },
                None => {},
            }
        }
        assert(parent(PathSyntax::Unix, q) == Some(q.take(trim_len(Seps::Slash, q, fq, s))));
        assert(q.take(d.len() as int) =~= d);
    }
}

// ---------------------------------------------------------------------------
// Sizes

/// `num / den` rounded to the nearest integer, halves going to the even one.
pub open spec fn round_half_even(num: nat, den: nat) -> nat {
    let q = num / den;
    let r = num % den;
    if 2 * r > den || (2 * r == den && q % 2 == 1) {
        q + 1
    } else {
        q
    }
}

/// The gap between neighbouring 64-bit floats near `n`: the least power of
/// two `s` (starting from `from`) with `n < 2^53 * s`.
pub open spec fn float_spacing_from(n: nat, from: nat) -> nat
    decreases n - from,
{
    if from == 0 || n < 9007199254740992 * from {
        from
    } else {
        float_spacing_from(n, 2 * from)
    }
}

/// The value of `n as f64`: `n` rounded to the nearest 64-bit float, halves
/// going to the float with an even significand.
pub open spec fn as_float_value(n: nat) -> nat {
    let s = float_spacing_from(n, 1);
    round_half_even(n, s) * s
}

/// `h` hundredths written with two decimals, as `{:.2}` writes them.
pub open spec fn two_decimals(h: nat) -> Seq<char> {
    decimal(h / 100) + seq!['.', digit_char(h / 10), digit_char(h)]
}

/// A size as the user sees it: whole bytes under 1 KB, otherwise kilobytes
/// or megabytes (of 1024) with two decimals, rounded half to even from the
/// floating-point value.
pub open spec fn size_text(bytes: nat) -> Seq<char> {
    if bytes >= 1048576 {
        two_decimals(round_half_even(100 * as_float_value(bytes), 1048576)) + seq![' ', 'M', 'B']
    } else if bytes >= 1024 {
        two_decimals(round_half_even(100 * bytes, 1024)) + seq![' ', 'K', 'B']
    } else {
        decimal(bytes) + seq![' ', 'B']
    }
}

fn round_half_even_of(num: u128, den: u128) -> (r: u128)
    requires
        0 < den <= 0x1_0000_0000_0000_0000,
        num < 0x1_0000_0000_0000_0000_0000_0000,
    ensures
        r == round_half_even(num as nat, den as nat),
        r <= num / den + 1,
{
    let q = num / den;
    let r = num % den;
    if 2 * r > den || (2 * r == den && q % 2 == 1) {
        q + 1
    } else {
        q
    }
}

/// The value of `n as f64`, computed exactly with integers.
fn float_value_of(n: u64) -> (r: u128)
    ensures
        r == as_float_value(n as nat),
        r <= 0x1_0000_0000_0000_1000,
{
    let mut s: u128 = 1;
    while (n as u128) >= 9007199254740992u128 * s
        invariant
            1 <= s <= 4096,
            float_spacing_from(n as nat, s as nat) == float_spacing_from(n as nat, 1),
        decreases n - s,
    {
        s = s * 2;
    }
    let q = round_half_even_of(n as u128, s);
    assert(q <= (n as u128) / s + 1);
    assert(((n as u128) / s) * s <= n) by (nonlinear_arith)
        requires
            s >= 1,
    ;
    assert(q * s <= (n as u128) + s) by (nonlinear_arith)
        requires
            q <= (n as u128) / s + 1,
            ((n as u128) / s) * s <= n,
            s >= 1,
    ;
    q * s
}

/// Appends `h` hundredths with two decimals.
fn push_two_decimals(out: &mut String, h: u128)
    ensures
        final(out)@ == old(out)@ + two_decimals(h as nat),
{
    push_decimal(out, h / 100);
    out.append(".");
    out.append(digit_text(((h / 10) % 10) as u8));
    out.append(digit_text((h % 10) as u8));
    proof {
        reveal_strlit(".");
        assert(digit_char(((h / 10) % 10) as nat) == digit_char((h / 10) as nat));
        assert(digit_char((h % 10) as nat) == digit_char(h as nat));
    }
    assert(final(out)@ =~= old(out)@ + two_decimals(h as nat));
}

/// A file size for display, such as `512 B`, `1.50 KB` or `5.00 MB`.
pub fn format_file_size(bytes: u64) -> (r: String)
    ensures
        r@ == size_text(bytes as nat),
{
    let mut out = String::new();
    if bytes >= 1048576 {
        let v = float_value_of(bytes);
        let h = round_half_even_of(100 * v, 1048576);
        push_two_decimals(&mut out, h);
        out.append(" MB");
        proof {
            reveal_strlit(" MB");
        }
    } else if bytes >= 1024 {
        let h = round_half_even_of(100 * (bytes as u128), 1024);
        push_two_decimals(&mut out, h);
        out.append(" KB");
        proof {
            reveal_strlit(" KB");
        }
    } else {
        push_decimal(&mut out, bytes as u128);
        out.append(" B");
        proof {
            reveal_strlit(" B");
        }
    }
    assert(out@ =~= size_text(bytes as nat));
    out
}

} // verus!
