//! Character-level helpers shared by the path, size and message code:
//! reading a string as characters, decimal rendering of integers,
//! ASCII case folding and whitespace trimming.
use vstd::prelude::*;

verus! {

/// The characters of `s`, in order.
pub fn chars_of(s: &str) -> (v: Vec<char>)
    ensures
        v@ == s@,
{
    let mut v: Vec<char> = Vec::new();
    for c in it: s.chars()
        invariant
            v@ == it.seq().take(it.index() as int),
    {
        v.push(c);
    }
    v
}

/// The decimal digit character for `d` (taken modulo ten).
pub open spec fn digit_char(d: nat) -> char {
    ((d % 10) + 48) as char
}

/// Decimal notation of `n`, without leading zeros (`0` is written `"0"`).
pub open spec fn decimal(n: nat) -> Seq<char>
    decreases n,
{
    if n < 10 {
        seq![digit_char(n)]
    } else {
        decimal(n / 10).push(digit_char(n % 10))
    }
}

/// Decimal notation of a signed integer, with a leading `-` when negative.
pub open spec fn signed_decimal(n: int) -> Seq<char> {
    if n < 0 {
        seq!['-'] + decimal((-n) as nat)
    } else {
        decimal(n as nat)
    }
}

/// A one-character string holding the digit `d`.
pub fn digit_text(d: u8) -> (r: &'static str)
    requires
        d < 10,
    ensures
        r@ == seq![digit_char(d as nat)],
{
    proof {
        reveal_strlit("0");
        reveal_strlit("1");
        reveal_strlit("2");
        reveal_strlit("3");
        reveal_strlit("4");
        reveal_strlit("5");
        reveal_strlit("6");
        reveal_strlit("7");
        reveal_strlit("8");
        reveal_strlit("9");
    }
    match d {
        0 => "0",
        1 => "1",
        2 => "2",
        3 => "3",
        4 => "4",
        5 => "5",
        6 => "6",
        7 => "7",
        8 => "8",
        _ => "9",
    }
}

/// Appends the decimal notation of `n` to `out`.
pub fn push_decimal(out: &mut String, n: u128)
    ensures
        final(out)@ == old(out)@ + decimal(n as nat),
    decreases n,
{
    if n >= 10 {
        push_decimal(out, n / 10);
    }
    let d = (n % 10) as u8;
    out.append(digit_text(d));
    proof {
        assert(digit_char(d as nat) == digit_char((n % 10) as nat));
        if n >= 10 {
            assert(decimal(n as nat) == decimal((n / 10) as nat).push(digit_char((n % 10) as nat)));
        }
    }
}

/// Appends the decimal notation of a signed number to `out`.
pub fn push_signed_decimal(out: &mut String, n: i64)
    ensures
        final(out)@ == old(out)@ + signed_decimal(n as int),
{
    if n < 0 {
        out.append("-");
        let magnitude: u128 = (0i128 - (n as i128)) as u128;
        push_decimal(out, magnitude);
        proof {
            reveal_strlit("-");
        }
    } else {
        push_decimal(out, n as u128);
    }
}

/// ASCII lower-case of `c`; every other character is left alone.
pub open spec fn ascii_lower(c: char) -> char {
    if 'A' <= c <= 'Z' {
        ((c as u32) + 32) as char
    } else {
        c
    }
}

/// Equality of two texts once ASCII letters are folded to lower case.
pub open spec fn eq_ignore_ascii_case(a: Seq<char>, b: Seq<char>) -> bool {
    &&& a.len() == b.len()
    &&& forall|i: int| 0 <= i < a.len() ==> #[trigger] ascii_lower(a[i]) == ascii_lower(b[i])
}

/// ASCII lower-case of one character.
pub fn to_ascii_lower(c: char) -> (r: char)
    ensures
        r == ascii_lower(c),
{
    if 'A' <= c && c <= 'Z' {
        ((c as u8) + 32) as char
    } else {
        c
    }
}

/// Whether `v[from..to]` equals `word` up to ASCII case.
pub fn span_eq_ignore_ascii_case(v: &Vec<char>, from: usize, to: usize, word: &Vec<char>) -> (r: bool)
    requires
        from <= to <= v.len(),
    ensures
        r == eq_ignore_ascii_case(v@.subrange(from as int, to as int), word@),
{
    if to - from != word.len() {
        return false;
    }
    let mut i: usize = 0;
    while i < word.len()
        invariant
            from <= to <= v.len(),
            to - from == word.len(),
            i <= word.len(),
            forall|j: int|
                0 <= j < i ==> #[trigger] ascii_lower(v@[from + j]) == ascii_lower(word@[j]),
        decreases word.len() - i,
    {
        if to_ascii_lower(v[from + i]) != to_ascii_lower(word[i]) {
            assert(ascii_lower(v@.subrange(from as int, to as int)[i as int]) != ascii_lower(
                word@[i as int],
            ));
            return false;
        }
        i = i + 1;
    }
    assert forall|j: int| 0 <= j < word@.len() implies #[trigger] ascii_lower(
        v@.subrange(from as int, to as int)[j],
    ) == ascii_lower(word@[j]) by {
        assert(v@.subrange(from as int, to as int)[j] == v@[from + j]);
    }
    true
}

/// The characters that Unicode gives the `White_Space` property, which is
/// what `char::is_whitespace` tests.
pub open spec fn is_white_space(c: char) -> bool {
    let u = c as u32;
    ||| 0x09 <= u <= 0x0D
    ||| u == 0x20
    ||| u == 0x85
    ||| u == 0xA0
    ||| u == 0x1680
    ||| 0x2000 <= u <= 0x200A
    ||| u == 0x2028
    ||| u == 0x2029
    ||| u == 0x202F
    ||| u == 0x205F
    ||| u == 0x3000
}

pub fn white_space(c: char) -> (r: bool)
    ensures
        r == is_white_space(c),
{
    let u = c as u32;
    (0x09 <= u && u <= 0x0D) || u == 0x20 || u == 0x85 || u == 0xA0 || u == 0x1680 || (0x2000 <= u
        && u <= 0x200A) || u == 0x2028 || u == 0x2029 || u == 0x202F || u == 0x205F || u == 0x3000
}

/// Index of the first non-white-space character of `s` at or after `i`
/// (`s.len()` when there is none).
pub open spec fn skip_white_from(s: Seq<char>, i: int) -> int
    decreases s.len() - i,
{
    if 0 <= i < s.len() && is_white_space(s[i]) {
        skip_white_from(s, i + 1)
    } else {
        i
    }
}

/// End of `s[lo..j]` once trailing white space is removed.
pub open spec fn trim_white_to(s: Seq<char>, lo: int, j: int) -> int
    decreases j - lo,
{
    if lo < j && is_white_space(s[j - 1]) {
        trim_white_to(s, lo, j - 1)
    } else {
        j
    }
}

/// `s` without leading and trailing white space, as `str::trim` gives it.
pub open spec fn trim_white(s: Seq<char>) -> Seq<char> {
    let a = skip_white_from(s, 0);
    s.subrange(a, trim_white_to(s, a, s.len() as int))
}

/// The code points listed with the `White_Space` property in Unicode's
/// `PropList.txt`, one by one (25 of them).
pub open spec fn listed_white_space(c: char) -> bool {
    let u = c as u32;
    ||| u == 0x0009
    ||| u == 0x000A
    ||| u == 0x000B
    ||| u == 0x000C
    ||| u == 0x000D
    ||| u == 0x0020
    ||| u == 0x0085
    ||| u == 0x00A0
    ||| u == 0x1680
    ||| u == 0x2000
    ||| u == 0x2001
    ||| u == 0x2002
    ||| u == 0x2003
    ||| u == 0x2004
    ||| u == 0x2005
    ||| u == 0x2006
    ||| u == 0x2007
    ||| u == 0x2008
    ||| u == 0x2009
    ||| u == 0x200A
    ||| u == 0x2028
    ||| u == 0x2029
    ||| u == 0x202F
    ||| u == 0x205F
    ||| u == 0x3000
}

proof fn lemma_skip_white_char(s: Seq<char>, i: int)
    requires
        0 <= i <= s.len(),
    ensures
        i <= skip_white_from(s, i) <= s.len(),
        forall|k: int| i <= k < skip_white_from(s, i) ==> is_white_space(s[k]),
        skip_white_from(s, i) < s.len() ==> !is_white_space(s[skip_white_from(s, i)]),
    decreases s.len() - i,
{
    if i < s.len() && is_white_space(s[i]) {
        lemma_skip_white_char(s, i + 1);
    }
}

proof fn lemma_skip_white_at(s: Seq<char>, i: int, a: int)
    requires
        0 <= i <= a <= s.len(),
        forall|k: int| i <= k < a ==> is_white_space(s[k]),
        a == s.len() || !is_white_space(s[a]),
    ensures
        skip_white_from(s, i) == a,
    decreases a - i,
{
    if i < a {
        lemma_skip_white_at(s, i + 1, a);
    }
}

proof fn lemma_trim_white_to_char(s: Seq<char>, lo: int, j: int)
    requires
        0 <= lo <= j <= s.len(),
    ensures
        lo <= trim_white_to(s, lo, j) <= j,
        forall|k: int| trim_white_to(s, lo, j) <= k < j ==> is_white_space(s[k]),
        trim_white_to(s, lo, j) > lo ==> !is_white_space(s[trim_white_to(s, lo, j) - 1]),
    decreases j - lo,
{
    if lo < j && is_white_space(s[j - 1]) {
        lemma_trim_white_to_char(s, lo, j - 1);
    }
}

proof fn lemma_trim_white_to_at(s: Seq<char>, lo: int, j: int, b: int)
    requires
        0 <= lo <= b <= j <= s.len(),
        forall|k: int| b <= k < j ==> is_white_space(s[k]),
        b == lo || !is_white_space(s[b - 1]),
    ensures
        trim_white_to(s, lo, j) == b,
    decreases j - b,
{
    if b < j {
        lemma_trim_white_to_at(s, lo, j - 1, b);
    }
}

/// White space that `trim` removes, padded around any text on either side,
/// is all removed again: trimming the padded text gives what trimming the
/// text gives (for instance a `\r\n` line end is dropped).
pub proof fn lemma_trim_drops_white_padding(w1: Seq<char>, t: Seq<char>, w2: Seq<char>)
    requires
        forall|k: int| 0 <= k < w1.len() ==> listed_white_space(#[trigger] w1[k]),
        forall|k: int| 0 <= k < w2.len() ==> listed_white_space(#[trigger] w2[k]),
    ensures
        trim_white(w1 + t + w2) == trim_white(t),
{
    let x = w1 + t + w2;
    let n1 = w1.len() as int;
    let nt = t.len() as int;
    assert forall|k: int| 0 <= k < x.len() && (k < n1 || k >= n1 + nt) implies is_white_space(#[trigger] x[k]) by {
        if k < n1 {
            assert(x[k] == w1[k]);
            assert(listed_white_space(w1[k]));
        } else {
            assert(x[k] == w2[k - n1 - nt]);
            assert(listed_white_space(w2[k - n1 - nt]));
        }
    }
    assert forall|k: int| 0 <= k < nt implies #[trigger] x[n1 + k] == t[k] by {}
    lemma_skip_white_char(t, 0);
    let at = skip_white_from(t, 0);
    lemma_trim_white_to_char(t, at, nt);
    let bt = trim_white_to(t, at, nt);
    if at < nt {
        assert forall|k: int| 0 <= k < n1 + at implies is_white_space(x[k]) by {
            if k >= n1 {
                assert(x[k] == t[k - n1]);
            }
        }
        assert(x[n1 + at] == t[at]);
        lemma_skip_white_at(x, 0, n1 + at);
        assert(bt > at);
        assert forall|k: int| n1 + bt <= k < x.len() implies is_white_space(x[k]) by {
            if k < n1 + nt {
                assert(x[k] == t[k - n1]);
            }
        }
        assert(x[n1 + bt - 1] == t[bt - 1]);
        lemma_trim_white_to_at(x, n1 + at, x.len() as int, n1 + bt);
        assert(x.subrange(n1 + at, n1 + bt) =~= t.subrange(at, bt));
    } else {
        assert forall|k: int| 0 <= k < x.len() implies is_white_space(x[k]) by {
            if n1 <= k < n1 + nt {
                assert(x[k] == t[k - n1]);
            }
        }
        lemma_skip_white_at(x, 0, x.len() as int);
        lemma_trim_white_to_at(x, x.len() as int, x.len() as int, x.len() as int);
        assert(bt == nt);
        assert(x.subrange(x.len() as int, x.len() as int) =~= t.subrange(nt, nt));
    }
}

/// Text that neither starts nor ends with white space is left as it is by
/// `trim`.
pub proof fn lemma_trim_keeps_text(s: Seq<char>)
    requires
        s.len() > 0 ==> !listed_white_space(s[0]) && !listed_white_space(s[s.len() - 1]),
    ensures
        trim_white(s) == s,
{
    if s.len() > 0 {
        lemma_skip_white_at(s, 0, 0);
        lemma_trim_white_to_at(s, 0, s.len() as int, s.len() as int);
    }
    assert(s.subrange(0, s.len() as int) =~= s);
}

/// `s` with surrounding white space removed.
pub fn trim(s: &str) -> (r: String)
    ensures
        r@ == trim_white(s@),
{
    let v = chars_of(s);
    let n = v.len();
    let mut a: usize = 0;
    while a < n && white_space(v[a])
        invariant
            n == v@.len(),
            a <= n,
            skip_white_from(v@, a as int) == skip_white_from(v@, 0),
        decreases n - a,
    {
        a = a + 1;
    }
    let mut b: usize = n;
    while a < b && white_space(v[b - 1])
        invariant
            n == v@.len(),
            a <= b <= n,
            skip_white_from(v@, 0) == a,
            trim_white_to(v@, a as int, b as int) == trim_white_to(v@, a as int, n as int),
        decreases b - a,
    {
        b = b - 1;
    }
    let piece = s.substring_char(a, b);
    String::from_str(piece)
}

/// Largest index `j < k` with `s[j] == c`, or -1.
pub open spec fn index_before(s: Seq<char>, c: char, k: int) -> int
    decreases k,
{
    if k <= 0 {
        -1
    } else if s[k - 1] == c {
        k - 1
    } else {
        index_before(s, c, k - 1)
    }
}

pub proof fn lemma_index_before(s: Seq<char>, c: char, k: int)
    ensures
        index_before(s, c, k) < k || index_before(s, c, k) == -1,
        index_before(s, c, k) >= -1,
    decreases k,
{
    if k > 0 && s[k - 1] != c {
        lemma_index_before(s, c, k - 1);
    }
}

/// The pieces of `s.take(k)` between occurrences of `c`.
pub open spec fn pieces_upto(s: Seq<char>, c: char, k: int) -> Seq<Seq<char>>
    decreases k,
{
    let j = index_before(s, c, k);
    if j < 0 {
        seq![s.take(k)]
    } else {
        proof {
            lemma_index_before(s, c, k);
        }
        pieces_upto(s, c, j).push(s.subrange(j + 1, k))
    }
}

/// `s` cut at every `c`; an empty `s` is one empty piece.
pub open spec fn split_on(s: Seq<char>, c: char) -> Seq<Seq<char>> {
    pieces_upto(s, c, s.len() as int)
}

/// The texts of a list of strings.
pub open spec fn texts(v: Seq<String>) -> Seq<Seq<char>> {
    v.map_values(|t: String| t@)
}

fn index_before_of(v: &Vec<char>, c: char, k: usize) -> (r: Option<usize>)
    requires
        k <= v.len(),
    ensures
        match r {
            Some(j) => index_before(v@, c, k as int) == j && j < k,
            None => index_before(v@, c, k as int) == -1,
        },
{
    let mut j = k;
    while j > 0 && v[j - 1] != c
        invariant
            j <= k <= v.len(),
            index_before(v@, c, j as int) == index_before(v@, c, k as int),
        decreases j,
    {
        j = j - 1;
    }
    if j > 0 {
        Some(j - 1)
    } else {
        None
    }
}

fn pieces_upto_of(s: &str, v: &Vec<char>, c: char, k: usize) -> (r: Vec<String>)
    requires
        v@ == s@,
        k <= v.len(),
    ensures
        texts(r@) == pieces_upto(v@, c, k as int),
    decreases k,
{
    match index_before_of(v, c, k) {
        Some(j) => {
            let mut r = pieces_upto_of(s, v, c, j);
            let ghost before = r@;
            r.push(String::from_str(s.substring_char(j + 1, k)));
            assert(texts(r@) =~= texts(before).push(v@.subrange(j + 1, k as int)));
            r
        },
        None => {
            let mut r: Vec<String> = Vec::new();
            r.push(String::from_str(s.substring_char(0, k)));
            assert(v@.subrange(0, k as int) =~= v@.take(k as int));
            assert(texts(r@) =~= seq![v@.take(k as int)]);
            r
        },
    }
}

/// `s` cut at every occurrence of `c`, as `str::split` cuts it.
pub fn split_text(s: &str, c: char) -> (r: Vec<String>)
    ensures
        texts(r@) == split_on(s@, c),
{
    let v = chars_of(s);
    pieces_upto_of(s, &v, c, v.len())
}

} // verus!
