//! Character-level text model shared by the whole library.
//!
//! Text is modelled as `Seq<char>`; strings are handled through their view.

use vstd::prelude::*;
use vstd::std_specs::iter::IteratorSpec;

verus! {

/// `char::is_whitespace`: the Unicode `White_Space` property, which is this
/// fixed list of code points.
pub open spec fn is_ws(c: char) -> bool {
    ||| ('\u{9}' <= c && c <= '\u{d}')
    ||| c == ' '
    ||| c == '\u{85}'
    ||| c == '\u{a0}'
    ||| c == '\u{1680}'
    ||| ('\u{2000}' <= c && c <= '\u{200a}')
    ||| c == '\u{2028}'
    ||| c == '\u{2029}'
    ||| c == '\u{202f}'
    ||| c == '\u{205f}'
    ||| c == '\u{3000}'
}

pub fn is_whitespace(c: char) -> (r: bool)
    ensures
        r == is_ws(c),
{
    ('\u{9}' <= c && c <= '\u{d}') || c == ' ' || c == '\u{85}' || c == '\u{a0}' || c
        == '\u{1680}' || ('\u{2000}' <= c && c <= '\u{200a}') || c == '\u{2028}' || c
        == '\u{2029}' || c == '\u{202f}' || c == '\u{205f}' || c == '\u{3000}'
}

/// The characters of a string slice, in order.
pub fn chars_of(s: &str) -> (v: Vec<char>)
    ensures
        v@ == s@,
{
    broadcast use vstd::string::group_string_axioms;

    let mut v: Vec<char> = Vec::new();
    for c in it: s.chars()
        invariant
            v@ == it.seq().take(it.index() as int),
    {
        v.push(c);
    }
    assert(v@ == s@);
    v
}

} // verus!

verus! {

pub open spec fn ascii_lower(c: char) -> char {
    if 'A' <= c && c <= 'Z' {
        ((c as u32) + 32) as char
    } else {
        c
    }
}

pub fn to_ascii_lower(c: char) -> (r: char)
    ensures
        r == ascii_lower(c),
{
    if 'A' <= c && c <= 'Z' {
        let u: u32 = c as u32;
        let l: u8 = (u + 32) as u8;
        l as char
    } else {
        c
    }
}

pub open spec fn digit_char(d: nat) -> char {
    ((d + 48) as u8) as char
}

pub fn digit(d: u8) -> (c: char)
    requires
        d < 10,
    ensures
        c == digit_char(d as nat),
{
    (d + 48) as char
}

} // verus!

verus! {

/// Leading `White_Space` removed (`str::trim_start`).
pub open spec fn trim_start(s: Seq<char>) -> Seq<char>
    decreases s.len(),
{
    if s.len() > 0 && is_ws(s[0]) {
        trim_start(s.drop_first())
    } else {
        s
    }
}

/// Trailing `White_Space` removed (`str::trim_end`).
pub open spec fn trim_end(s: Seq<char>) -> Seq<char>
    decreases s.len(),
{
    if s.len() > 0 && is_ws(s.last()) {
        trim_end(s.drop_last())
    } else {
        s
    }
}

/// Both ends trimmed (`str::trim`).
pub open spec fn trim(s: Seq<char>) -> Seq<char> {
    trim_end(trim_start(s))
}

/// `s[i..j]` as a new vector.
pub fn slice_chars(v: &Vec<char>, i: usize, j: usize) -> (r: Vec<char>)
    requires
        i <= j <= v.len(),
    ensures
        r@ == v@.subrange(i as int, j as int),
{
    let mut r: Vec<char> = Vec::new();
    let mut k = i;
    while k < j
        invariant
            i <= k <= j <= v.len(),
            r@ == v@.subrange(i as int, k as int),
        decreases j - k,
    {
        r.push(v[k]);
        assert(r@ =~= v@.subrange(i as int, k + 1));
        k += 1;
    }
    r
}

/// Index of the first non-whitespace character at or after `i`, together with
/// the fact that everything skipped was whitespace.
pub fn trim_bounds(v: &Vec<char>) -> (r: (usize, usize))
    ensures
        r.0 <= r.1 <= v.len(),
        trim(v@) == v@.subrange(r.0 as int, r.1 as int),
{
    let n = v.len();
    let mut i: usize = 0;
    assert(v@.subrange(0, n as int) =~= v@);
    while i < n && is_whitespace(v[i])
        invariant
            i <= n == v.len(),
            trim_start(v@) == trim_start(v@.subrange(i as int, n as int)),
        decreases n - i,
    {
        assert(v@.subrange(i as int, n as int).drop_first() =~= v@.subrange(i + 1, n as int));
        i += 1;
    }
    assert(trim_start(v@) == v@.subrange(i as int, n as int));
    let mut j: usize = n;
    while j > i && is_whitespace(v[j - 1])
        invariant
            i <= j <= n == v.len(),
            trim(v@) == trim_end(v@.subrange(i as int, j as int)),
        decreases j - i,
    {
        assert(v@.subrange(i as int, j as int).drop_last() =~= v@.subrange(i as int, j - 1));
        j -= 1;
    }
    (i, j)
}

pub fn trim_chars(v: &Vec<char>) -> (r: Vec<char>)
    ensures
        r@ == trim(v@),
{
    let (i, j) = trim_bounds(v);
    slice_chars(v, i, j)
}

/// Calls `String::push`: the character is appended at the end, as its
/// documentation states.
#[verifier::external_body]
pub(crate) fn string_push(s: &mut String, c: char)
    ensures
        final(s)@ == old(s)@.push(c),
{
    s.push(c)
}

/// A `String` holding exactly these characters.
pub fn string_of(v: &Vec<char>) -> (s: String)
    ensures
        s@ == v@,
{
    let mut s = String::new();
    let mut k: usize = 0;
    while k < v.len()
        invariant
            k <= v.len(),
            s@ == v@.subrange(0, k as int),
        decreases v.len() - k,
    {
        string_push(&mut s, v[k]);
        assert(s@ =~= v@.subrange(0, k + 1));
        k += 1;
    }
    assert(v@.subrange(0, v.len() as int) =~= v@);
    s
}

pub open spec fn starts_with(s: Seq<char>, p: Seq<char>) -> bool {
    p.len() <= s.len() && s.subrange(0, p.len() as int) == p
}

pub open spec fn ends_with(s: Seq<char>, p: Seq<char>) -> bool {
    p.len() <= s.len() && s.subrange(s.len() - p.len(), s.len() as int) == p
}

/// `needle` occurs in `hay` starting at index `i`.
pub open spec fn occurs_at(hay: Seq<char>, needle: Seq<char>, i: int) -> bool {
    0 <= i && i + needle.len() <= hay.len() && hay.subrange(i, i + needle.len()) == needle
}

pub open spec fn contains(hay: Seq<char>, needle: Seq<char>) -> bool {
    exists|i: int| occurs_at(hay, needle, i)
}

pub fn occurs_at_exec(hay: &Vec<char>, needle: &Vec<char>, i: usize) -> (r: bool)
    ensures
        r == occurs_at(hay@, needle@, i as int),
{
    if i > hay.len() || needle.len() > hay.len() - i {
        return false;
    }
    let mut k: usize = 0;
    while k < needle.len()
        invariant
            k <= needle.len(),
            i + needle.len() <= hay.len(),
            forall|m: int| 0 <= m < k ==> hay@[i + m] == needle@[m],
        decreases needle.len() - k,
    {
        if hay[i + k] != needle[k] {
            assert(hay@.subrange(i as int, i + needle.len())[k as int] != needle@[k as int]);
            return false;
        }
        k += 1;
    }
    assert(hay@.subrange(i as int, i + needle.len()) =~= needle@);
    true
}

/// First index at or after `i` at which `needle` occurs in `hay`.
pub open spec fn find_from(hay: Seq<char>, needle: Seq<char>, i: int) -> Option<int>
    decreases hay.len() + 1 - i,
{
    if i < 0 || i > hay.len() {
        None
    } else if occurs_at(hay, needle, i) {
        Some(i)
    } else {
        find_from(hay, needle, i + 1)
    }
}

/// First index at which `needle` occurs in `hay` (`str::find`).
pub open spec fn find(hay: Seq<char>, needle: Seq<char>) -> Option<int> {
    find_from(hay, needle, 0)
}

pub proof fn lemma_find_from(hay: Seq<char>, needle: Seq<char>, i: int)
    requires
        0 <= i,
    ensures
        match find_from(hay, needle, i) {
            Some(k) => i <= k && occurs_at(hay, needle, k) && forall|j: int|
                i <= j < k ==> !occurs_at(hay, needle, j),
            None => forall|j: int| i <= j ==> !occurs_at(hay, needle, j),
        },
    decreases hay.len() + 1 - i,
{
    if i <= hay.len() && !occurs_at(hay, needle, i) {
        lemma_find_from(hay, needle, i + 1);
    }
}

pub proof fn lemma_find(hay: Seq<char>, needle: Seq<char>)
    ensures
        match find(hay, needle) {
            Some(k) => occurs_at(hay, needle, k) && forall|j: int|
                0 <= j < k ==> !occurs_at(hay, needle, j),
            None => !contains(hay, needle),
        },
{
    lemma_find_from(hay, needle, 0);
}

/// First index at which `needle` occurs in `hay`, if any (`str::find`).
pub fn find_chars(hay: &Vec<char>, needle: &Vec<char>) -> (r: Option<usize>)
    ensures
        match r {
            Some(i) => find(hay@, needle@) == Some(i as int),
            None => find(hay@, needle@) is None,
        },
        match r {
            Some(i) => occurs_at(hay@, needle@, i as int) && forall|j: int|
                0 <= j < i ==> !occurs_at(hay@, needle@, j),
            None => !contains(hay@, needle@),
        },
{
    proof {
        lemma_find(hay@, needle@);
    }
    if needle.len() > hay.len() {
        return None;
    }
    let last = hay.len() - needle.len();
    let mut i: usize = 0;
    loop
        invariant
            i <= last,
            last + needle.len() == hay.len(),
            forall|j: int| 0 <= j < i ==> !occurs_at(hay@, needle@, j),
        ensures
            forall|j: int| 0 <= j <= last ==> !occurs_at(hay@, needle@, j),
        decreases last - i,
    {
        if occurs_at_exec(hay, needle, i) {
            proof {
                lemma_find(hay@, needle@);
            }
            return Some(i);
        }
        if i == last {
            break ;
        }
        i += 1;
    }
    assert forall|j: int| !occurs_at(hay@, needle@, j) by {
        if 0 <= j && j <= last {
        }
    }
    None
}

pub fn contains_chars(hay: &Vec<char>, needle: &Vec<char>) -> (r: bool)
    ensures
        r == contains(hay@, needle@),
{
    match find_chars(hay, needle) {
        Some(_) => true,
        None => false,
    }
}

pub fn starts_with_chars(s: &Vec<char>, p: &Vec<char>) -> (r: bool)
    ensures
        r == starts_with(s@, p@),
{
    let r = occurs_at_exec(s, p, 0);
    assert(r == starts_with(s@, p@));
    r
}

pub fn ends_with_chars(s: &Vec<char>, p: &Vec<char>) -> (r: bool)
    ensures
        r == ends_with(s@, p@),
{
    if p.len() > s.len() {
        return false;
    }
    occurs_at_exec(s, p, s.len() - p.len())
}

} // verus!

verus! {

/// The character sequences of a list of character vectors.
pub open spec fn views(v: Seq<Vec<char>>) -> Seq<Seq<char>> {
    Seq::new(v.len(), |i: int| v[i]@)
}

pub proof fn lemma_views_push(v: Seq<Vec<char>>, x: Vec<char>)
    ensures
        views(v.push(x)) == views(v).push(x@),
{
    assert(views(v.push(x)) =~= views(v).push(x@));
}

/// Index of the first `'\n'` at or after `i`, or `s.len()` when there is none.
pub open spec fn nl_from(s: Seq<char>, i: int) -> int
    decreases s.len() - i,
{
    if i < 0 || i >= s.len() {
        s.len() as int
    } else if s[i] == '\n' {
        i
    } else {
        nl_from(s, i + 1)
    }
}

pub proof fn lemma_nl_from(s: Seq<char>, i: int)
    requires
        0 <= i <= s.len(),
    ensures
        i <= nl_from(s, i) <= s.len(),
        nl_from(s, i) < s.len() ==> s[nl_from(s, i)] == '\n',
        forall|k: int| i <= k < nl_from(s, i) ==> s[k] != '\n',
    decreases s.len() - i,
{
    if i < s.len() && s[i] != '\n' {
        lemma_nl_from(s, i + 1);
    }
}

/// A line with the `'\r'` of a `"\r\n"` ending removed.
pub open spec fn strip_cr(l: Seq<char>) -> Seq<char> {
    if l.len() > 0 && l.last() == '\r' {
        l.drop_last()
    } else {
        l
    }
}

/// The lines of `s` from index `i` on, as `str::lines` yields them: split at
/// `'\n'`, a `'\r'` before the `'\n'` dropped, no empty line after a final
/// line ending.
pub open spec fn lines_from(s: Seq<char>, i: int) -> Seq<Seq<char>>
    decreases s.len() - i,
{
    if i < 0 || i >= s.len() {
        seq![]
    } else {
        let e = nl_from(s, i);
        proof {
            lemma_nl_from(s, i);
        }
        if e < s.len() {
            seq![strip_cr(s.subrange(i, e))] + lines_from(s, e + 1)
        } else {
            seq![s.subrange(i, s.len() as int)]
        }
    }
}

pub open spec fn lines(s: Seq<char>) -> Seq<Seq<char>> {
    lines_from(s, 0)
}

pub fn lines_of(v: &Vec<char>) -> (r: Vec<Vec<char>>)
    ensures
        views(r@) == lines(v@),
{
    let n = v.len();
    let mut out: Vec<Vec<char>> = Vec::new();
    let mut i: usize = 0;
    while i < n
        invariant
            i <= n == v.len(),
            views(out@) + lines_from(v@, i as int) == lines(v@),
        decreases n - i,
    {
        let mut e = i;
        while e < n && v[e] != '\n'
            invariant
                i <= e <= n == v.len(),
                nl_from(v@, i as int) == nl_from(v@, e as int),
            decreases n - e,
        {
            e += 1;
        }
        proof {
            lemma_nl_from(v@, i as int);
        }
        let ghost old_out = views(out@);
        if e < n {
            let mut line = slice_chars(v, i, e);
            if line.len() > 0 && line[line.len() - 1] == '\r' {
                line.pop();
            }
            assert(line@ == strip_cr(v@.subrange(i as int, e as int)));
            out.push(line);
            assert(views(out@) =~= old_out.push(strip_cr(v@.subrange(i as int, e as int))));
            assert(views(out@) + lines_from(v@, e + 1) =~= old_out + lines_from(
                v@,
                i as int,
            ));
            i = e + 1;
        } else {
            let line = slice_chars(v, i, n);
            out.push(line);
            assert(views(out@) =~= old_out.push(v@.subrange(i as int, n as int)));
            assert(views(out@) + lines_from(v@, n as int) =~= old_out + lines_from(
                v@,
                i as int,
            ));
            i = n;
        }
    }
    assert(views(out@) =~= lines(v@));
    out
}

/// End of the run of non-whitespace characters starting at `i`.
pub open spec fn word_end(s: Seq<char>, i: int) -> int
    decreases s.len() - i,
{
    if i < 0 || i >= s.len() {
        s.len() as int
    } else if is_ws(s[i]) {
        i
    } else {
        word_end(s, i + 1)
    }
}

pub proof fn lemma_word_end(s: Seq<char>, i: int)
    requires
        0 <= i <= s.len(),
    ensures
        i <= word_end(s, i) <= s.len(),
        word_end(s, i) < s.len() ==> is_ws(s[word_end(s, i)]),
        forall|k: int| i <= k < word_end(s, i) ==> !is_ws(s[k]),
    decreases s.len() - i,
{
    if i < s.len() && !is_ws(s[i]) {
        lemma_word_end(s, i + 1);
    }
}

/// The whitespace-separated words of `s` from index `i` on
/// (`str::split_whitespace`).
pub open spec fn words_from(s: Seq<char>, i: int) -> Seq<Seq<char>>
    decreases s.len() - i,
{
    if i < 0 || i >= s.len() {
        seq![]
    } else if is_ws(s[i]) {
        words_from(s, i + 1)
    } else {
        let e = word_end(s, i);
        proof {
            lemma_word_end(s, i + 1);
        }
        seq![s.subrange(i, e)] + words_from(s, e)
    }
}

pub open spec fn words(s: Seq<char>) -> Seq<Seq<char>> {
    words_from(s, 0)
}

pub fn words_of(v: &Vec<char>) -> (r: Vec<Vec<char>>)
    ensures
        views(r@) == words(v@),
{
    let n = v.len();
    let mut out: Vec<Vec<char>> = Vec::new();
    let mut i: usize = 0;
    while i < n
        invariant
            i <= n == v.len(),
            views(out@) + words_from(v@, i as int) == words(v@),
        decreases n - i,
    {
        let ghost old_out = views(out@);
        if is_whitespace(v[i]) {
            i += 1;
        } else {
            let mut e = i + 1;
            proof {
                lemma_word_end(v@, i + 1);
            }
            while e < n && !is_whitespace(v[e])
                invariant
                    i < e <= n == v.len(),
                    word_end(v@, i as int) == word_end(v@, e as int),
                decreases n - e,
            {
                e += 1;
            }
            proof {
                lemma_word_end(v@, e as int);
            }
            let w = slice_chars(v, i, e);
            out.push(w);
            assert(views(out@) =~= old_out.push(v@.subrange(i as int, e as int)));
            assert(views(out@) + words_from(v@, e as int) =~= old_out + words_from(
                v@,
                i as int,
            ));
            i = e;
        }
    }
    assert(views(out@) =~= words(v@));
    out
}

/// Decimal digits of `n`, most significant first (`usize`'s `Display`).
pub open spec fn decimal(n: nat) -> Seq<char>
    decreases n,
{
    if n < 10 {
        seq![digit_char(n)]
    } else {
        decimal(n / 10).push(digit_char(n % 10))
    }
}

pub fn push_decimal(s: &mut String, n: usize)
    ensures
        final(s)@ == old(s)@ + decimal(n as nat),
    decreases n,
{
    if n >= 10 {
        push_decimal(s, n / 10);
    }
    let d = digit((n % 10) as u8);
    string_push(s, d);
    assert(s@ =~= old(s)@ + decimal(n as nat));
}

pub fn push_chars(s: &mut String, v: &Vec<char>)
    ensures
        final(s)@ == old(s)@ + v@,
{
    let mut k: usize = 0;
    while k < v.len()
        invariant
            k <= v.len(),
            s@ == old(s)@ + v@.subrange(0, k as int),
        decreases v.len() - k,
    {
        string_push(s, v[k]);
        assert(s@ =~= old(s)@ + v@.subrange(0, k + 1));
        k += 1;
    }
    assert(v@.subrange(0, v.len() as int) =~= v@);
}

pub open spec fn is_ascii_seq(s: Seq<char>) -> bool {
    forall|i: int| 0 <= i < s.len() ==> (s[i] as u32) < 128
}

pub open spec fn is_ascii_digit(c: char) -> bool {
    '0' <= c && c <= '9'
}

pub open spec fn is_ascii_letter(c: char) -> bool {
    ('a' <= c && c <= 'z') || ('A' <= c && c <= 'Z')
}

pub open spec fn is_ascii_alnum(c: char) -> bool {
    is_ascii_digit(c) || is_ascii_letter(c)
}

pub fn ascii_alnum(c: char) -> (r: bool)
    ensures
        r == is_ascii_alnum(c),
{
    ('0' <= c && c <= '9') || ('a' <= c && c <= 'z') || ('A' <= c && c <= 'Z')
}

/// `str::to_lowercase` of text that is not all ASCII: the Unicode lowercase
/// mapping, which takes the Unicode case tables to state.
pub uninterp spec fn unicode_lowercase(s: Seq<char>) -> Seq<char>;

/// `str::to_lowercase`: ASCII text maps letter by letter to ASCII lowercase,
/// as the Unicode case tables give for ASCII; other text by the Unicode
/// mapping.
pub open spec fn lowercase(s: Seq<char>) -> Seq<char> {
    if is_ascii_seq(s) {
        s.map_values(|c: char| ascii_lower(c))
    } else {
        unicode_lowercase(s)
    }
}

/// Calls `str::to_lowercase`. The contract states the ASCII case letter by
/// letter and names the result for other text.
#[verifier::external_body]
pub(crate) fn to_lowercase(v: &Vec<char>) -> (r: Vec<char>)
    ensures
        r@ == lowercase(v@),
        !is_ascii_seq(v@) ==> r@ == unicode_lowercase(v@),
{
    let s: String = v.iter().collect();
    s.to_lowercase().chars().collect()
}

/// `char::is_alphanumeric`: Unicode `Alphabetic` or `Numeric`.
pub uninterp spec fn is_alphanumeric(c: char) -> bool;

/// Calls `char::is_alphanumeric`; for ASCII it agrees with the ASCII letters
/// and digits.
#[verifier::external_body]
pub(crate) fn char_is_alphanumeric(c: char) -> (r: bool)
    ensures
        r == is_alphanumeric(c),
        (c as u32) < 128 ==> (r <==> is_ascii_alnum(c)),
{
    c.is_alphanumeric()
}

/// Alphanumeric as `char::is_alphanumeric` decides it: the ASCII letters
/// and digits below 128, the Unicode property above.
pub open spec fn alnum_char(c: char) -> bool {
    if (c as u32) < 128 {
        is_ascii_alnum(c)
    } else {
        is_alphanumeric(c)
    }
}

/// Alphabetic as `char::is_alphabetic` decides it: the ASCII letters below
/// 128, the Unicode property above.
pub open spec fn alpha_char(c: char) -> bool {
    if (c as u32) < 128 {
        is_ascii_letter(c)
    } else {
        is_alphabetic(c)
    }
}

/// `char::is_alphabetic`: the Unicode `Alphabetic` property.
pub uninterp spec fn is_alphabetic(c: char) -> bool;

/// Calls `char::is_alphabetic`; for ASCII it agrees with the ASCII letters.
#[verifier::external_body]
pub(crate) fn char_is_alphabetic(c: char) -> (r: bool)
    ensures
        r == is_alphabetic(c),
        (c as u32) < 128 ==> (r <==> is_ascii_letter(c)),
{
    c.is_alphabetic()
}

/// `str::eq_ignore_ascii_case`.
pub open spec fn eq_ignore_ascii_case(a: Seq<char>, b: Seq<char>) -> bool {
    a.len() == b.len() && forall|i: int| 0 <= i < a.len() ==> ascii_lower(a[i]) == ascii_lower(b[i])
}

pub fn eq_ignore_ascii_case_chars(a: &Vec<char>, b: &Vec<char>) -> (r: bool)
    ensures
        r == eq_ignore_ascii_case(a@, b@),
{
    if a.len() != b.len() {
        return false;
    }
    let mut k: usize = 0;
    while k < a.len()
        invariant
            k <= a.len() == b.len(),
            forall|i: int| 0 <= i < k ==> ascii_lower(a@[i]) == ascii_lower(b@[i]),
        decreases a.len() - k,
    {
        if to_ascii_lower(a[k]) != to_ascii_lower(b[k]) {
            return false;
        }
        k += 1;
    }
    true
}

} // verus!

verus! {

/// Leading copies of `c` removed (`str::trim_start_matches(c)`).
pub open spec fn strip_leading_char(s: Seq<char>, c: char) -> Seq<char>
    decreases s.len(),
{
    if s.len() > 0 && s[0] == c {
        strip_leading_char(s.drop_first(), c)
    } else {
        s
    }
}

/// Trailing copies of `c` removed (`str::trim_end_matches(c)`).
pub open spec fn strip_trailing_char(s: Seq<char>, c: char) -> Seq<char>
    decreases s.len(),
{
    if s.len() > 0 && s.last() == c {
        strip_trailing_char(s.drop_last(), c)
    } else {
        s
    }
}

/// Copies of `c` removed at both ends (`str::trim_matches(c)`).
pub open spec fn trim_char(s: Seq<char>, c: char) -> Seq<char> {
    strip_trailing_char(strip_leading_char(s, c), c)
}

pub fn strip_leading_char_chars(v: &Vec<char>, c: char) -> (r: Vec<char>)
    ensures
        r@ == strip_leading_char(v@, c),
{
    let n = v.len();
    let mut i: usize = 0;
    assert(v@.subrange(0, n as int) =~= v@);
    while i < n && v[i] == c
        invariant
            i <= n == v.len(),
            strip_leading_char(v@, c) == strip_leading_char(v@.subrange(i as int, n as int), c),
        decreases n - i,
    {
        assert(v@.subrange(i as int, n as int).drop_first() =~= v@.subrange(i + 1, n as int));
        i += 1;
    }
    slice_chars(v, i, n)
}

pub fn strip_trailing_char_chars(v: &Vec<char>, c: char) -> (r: Vec<char>)
    ensures
        r@ == strip_trailing_char(v@, c),
{
    let n = v.len();
    let mut j: usize = n;
    assert(v@.subrange(0, n as int) =~= v@);
    while j > 0 && v[j - 1] == c
        invariant
            j <= n == v.len(),
            strip_trailing_char(v@, c) == strip_trailing_char(v@.subrange(0, j as int), c),
        decreases j,
    {
        assert(v@.subrange(0, j as int).drop_last() =~= v@.subrange(0, j - 1));
        j -= 1;
    }
    slice_chars(v, 0, j)
}

pub fn trim_char_chars(v: &Vec<char>, c: char) -> (r: Vec<char>)
    ensures
        r@ == trim_char(v@, c),
{
    let a = strip_leading_char_chars(v, c);
    strip_trailing_char_chars(&a, c)
}

/// Index of the first `c` at or after `i`, or `s.len()`.
pub open spec fn char_from(s: Seq<char>, c: char, i: int) -> int
    decreases s.len() - i,
{
    if i < 0 || i >= s.len() {
        s.len() as int
    } else if s[i] == c {
        i
    } else {
        char_from(s, c, i + 1)
    }
}

pub proof fn lemma_char_from(s: Seq<char>, c: char, i: int)
    requires
        0 <= i <= s.len(),
    ensures
        i <= char_from(s, c, i) <= s.len(),
        char_from(s, c, i) < s.len() ==> s[char_from(s, c, i)] == c,
        forall|k: int| i <= k < char_from(s, c, i) ==> s[k] != c,
    decreases s.len() - i,
{
    if i < s.len() && s[i] != c {
        lemma_char_from(s, c, i + 1);
    }
}

/// The pieces of `s` from index `i` on between occurrences of `c`
/// (`str::split(c)`: `k` separators give `k + 1` pieces).
pub open spec fn split_char_from(s: Seq<char>, c: char, i: int) -> Seq<Seq<char>>
    decreases s.len() + 1 - i,
{
    if i < 0 || i > s.len() {
        seq![]
    } else {
        let e = char_from(s, c, i);
        proof {
            lemma_char_from(s, c, i);
        }
        if e < s.len() {
            seq![s.subrange(i, e)] + split_char_from(s, c, e + 1)
        } else {
            seq![s.subrange(i, s.len() as int)]
        }
    }
}

pub open spec fn split_char(s: Seq<char>, c: char) -> Seq<Seq<char>> {
    split_char_from(s, c, 0)
}

pub fn split_char_chars(v: &Vec<char>, c: char) -> (r: Vec<Vec<char>>)
    ensures
        views(r@) == split_char(v@, c),
{
    let n = v.len();
    let mut out: Vec<Vec<char>> = Vec::new();
    let mut i: usize = 0;
    loop
        invariant
            i <= n == v.len(),
            views(out@) + split_char_from(v@, c, i as int) == split_char(v@, c),
        decreases n - i,
    {
        let mut e = i;
        while e < n && v[e] != c
            invariant
                i <= e <= n == v.len(),
                char_from(v@, c, i as int) == char_from(v@, c, e as int),
            decreases n - e,
        {
            e += 1;
        }
        proof {
            lemma_char_from(v@, c, i as int);
        }
        let ghost old_out = views(out@);
        let piece = slice_chars(v, i, e);
        out.push(piece);
        assert(views(out@) =~= old_out.push(v@.subrange(i as int, e as int)));
        if e < n {
            assert(views(out@) + split_char_from(v@, c, e + 1) =~= old_out + split_char_from(
                v@,
                c,
                i as int,
            ));
            i = e + 1;
        } else {
            assert(views(out@) =~= old_out + split_char_from(v@, c, i as int));
            assert(views(out@) =~= split_char(v@, c));
            return out;
        }
    }
}

/// Index of the last `c` in `s`, if any (`str::rfind(c)`).
pub open spec fn last_index_of(s: Seq<char>, c: char) -> Option<int>
    decreases s.len(),
{
    if s.len() == 0 {
        None
    } else if s.last() == c {
        Some(s.len() - 1)
    } else {
        last_index_of(s.drop_last(), c)
    }
}

pub proof fn lemma_last_index_of(s: Seq<char>, c: char)
    ensures
        match last_index_of(s, c) {
            Some(k) => 0 <= k < s.len() && s[k] == c && forall|j: int| k < j < s.len() ==> s[j] != c,
            None => forall|j: int| 0 <= j < s.len() ==> s[j] != c,
        },
    decreases s.len(),
{
    if s.len() > 0 && s.last() != c {
        lemma_last_index_of(s.drop_last(), c);
        assert(forall|j: int| 0 <= j < s.len() - 1 ==> s.drop_last()[j] == s[j]);
    }
}

pub fn last_index_of_chars(v: &Vec<char>, c: char) -> (r: Option<usize>)
    ensures
        match r {
            Some(k) => last_index_of(v@, c) == Some(k as int),
            None => last_index_of(v@, c) is None,
        },
{
    let mut j: usize = v.len();
    assert(v@.subrange(0, j as int) =~= v@);
    while j > 0
        invariant
            j <= v.len(),
            last_index_of(v@, c) == last_index_of(v@.subrange(0, j as int), c),
        decreases j,
    {
        if v[j - 1] == c {
            return Some(j - 1);
        }
        assert(v@.subrange(0, j as int).drop_last() =~= v@.subrange(0, j - 1));
        j -= 1;
    }
    None
}

/// Leading `'\r'` and `'\n'` removed (`trim_start_matches(['\r', '\n'])`).
pub open spec fn strip_leading_newlines(s: Seq<char>) -> Seq<char>
    decreases s.len(),
{
    if s.len() > 0 && (s[0] == '\r' || s[0] == '\n') {
        strip_leading_newlines(s.drop_first())
    } else {
        s
    }
}

pub fn strip_leading_newlines_chars(v: &Vec<char>) -> (r: Vec<char>)
    ensures
        r@ == strip_leading_newlines(v@),
{
    let n = v.len();
    let mut i: usize = 0;
    assert(v@.subrange(0, n as int) =~= v@);
    while i < n && (v[i] == '\r' || v[i] == '\n')
        invariant
            i <= n == v.len(),
            strip_leading_newlines(v@) == strip_leading_newlines(v@.subrange(i as int, n as int)),
        decreases n - i,
    {
        assert(v@.subrange(i as int, n as int).drop_first() =~= v@.subrange(i + 1, n as int));
        i += 1;
    }
    slice_chars(v, i, n)
}

} // verus!

verus! {

/// Items joined with `sep` between consecutive ones (`[..].join(sep)`).
pub open spec fn join(ts: Seq<Seq<char>>, sep: Seq<char>) -> Seq<char>
    decreases ts.len(),
{
    if ts.len() == 0 {
        seq![]
    } else if ts.len() == 1 {
        ts[0]
    } else {
        join(ts.drop_last(), sep) + sep + ts.last()
    }
}

pub fn join_chars(ts: &Vec<Vec<char>>, sep: &Vec<char>) -> (r: Vec<char>)
    ensures
        r@ == join(views(ts@), sep@),
{
    let mut out: Vec<char> = Vec::new();
    let mut j: usize = 0;
    while j < ts.len()
        invariant
            j <= ts.len(),
            out@ == join(views(ts@).take(j as int), sep@),
        decreases ts.len() - j,
    {
        let ghost ks = views(ts@);
        assert(ks.take(j + 1).drop_last() =~= ks.take(j as int));
        assert(ks.take(j + 1).last() == ts@[j as int]@);
        let ghost before = out@;
        if j > 0 {
            let mut m: usize = 0;
            while m < sep.len()
                invariant
                    m <= sep.len(),
                    out@ == before + sep@.take(m as int),
                decreases sep.len() - m,
            {
                out.push(sep[m]);
                assert(out@ =~= before + sep@.take(m + 1));
                m += 1;
            }
            assert(sep@.take(sep.len() as int) =~= sep@);
        }
        let ghost mid = out@;
        let item = &ts[j];
        let mut m: usize = 0;
        while m < item.len()
            invariant
                m <= item.len(),
                out@ == mid + item@.take(m as int),
            decreases item.len() - m,
        {
            out.push(item[m]);
            assert(out@ =~= mid + item@.take(m + 1));
            m += 1;
        }
        assert(item@.take(item.len() as int) =~= item@);
        if j == 0 {
            assert(ks.take(1)[0] == ts@[0]@);
            assert(out@ =~= join(ks.take(1), sep@));
        } else {
            assert(out@ =~= join(ks.take(j + 1), sep@));
        }
        j += 1;
    }
    assert(views(ts@).take(ts.len() as int) =~= views(ts@));
    out
}

} // verus!

verus! {

pub fn trim_end_chars(v: &Vec<char>) -> (r: Vec<char>)
    ensures
        r@ == trim_end(v@),
{
    let n = v.len();
    let mut j: usize = n;
    assert(v@.subrange(0, n as int) =~= v@);
    while j > 0 && is_whitespace(v[j - 1])
        invariant
            j <= n == v.len(),
            trim_end(v@) == trim_end(v@.subrange(0, j as int)),
        decreases j,
    {
        assert(v@.subrange(0, j as int).drop_last() =~= v@.subrange(0, j - 1));
        j -= 1;
    }
    slice_chars(v, 0, j)
}

pub fn has_char(v: &Vec<char>, c: char) -> (r: bool)
    ensures
        r == v@.contains(c),
{
    let mut k: usize = 0;
    while k < v.len()
        invariant
            k <= v.len(),
            forall|i: int| 0 <= i < k ==> v@[i] != c,
        decreases v.len() - k,
    {
        if v[k] == c {
            assert(v@[k as int] == c);
            return true;
        }
        k += 1;
    }
    false
}

} // verus!

verus! {

pub proof fn lemma_lines_from_len(s: Seq<char>, i: int)
    requires
        0 <= i <= s.len(),
    ensures
        lines_from(s, i).len() <= s.len() - i,
    decreases s.len() - i,
{
    if i < s.len() {
        lemma_nl_from(s, i);
        let e = nl_from(s, i);
        if e < s.len() {
            lemma_lines_from_len(s, e + 1);
        }
    }
}

} // verus!

verus! {

/// Number of bytes of `c` in UTF-8.
pub open spec fn char_utf8_len(c: char) -> nat {
    if (c as u32) < 0x80 {
        1
    } else if (c as u32) < 0x800 {
        2
    } else if (c as u32) < 0x10000 {
        3
    } else {
        4
    }
}

/// Number of bytes of `s` in UTF-8 (`str::len`).
pub open spec fn utf8_len(s: Seq<char>) -> nat
    decreases s.len(),
{
    if s.len() == 0 {
        0
    } else {
        utf8_len(s.drop_last()) + char_utf8_len(s.last())
    }
}

/// The number of leading characters of `s` whose UTF-8 encoding fits in `n`
/// bytes.
pub open spec fn utf8_cut(s: Seq<char>, n: nat) -> nat
    decreases s.len(),
{
    if s.len() == 0 || utf8_len(s) <= n {
        s.len()
    } else {
        utf8_cut(s.drop_last(), n)
    }
}

/// Byte `n` of `s` falls on a character boundary, or past the end.
pub open spec fn utf8_boundary(s: Seq<char>, n: nat) -> bool {
    utf8_len(s) <= n || utf8_len(s.take(utf8_cut(s, n) as int)) == n
}

pub fn char_len_utf8(c: char) -> (r: usize)
    ensures
        r == char_utf8_len(c),
        1 <= r <= 4,
{
    let n = c as u32;
    if n < 0x80 {
        1
    } else if n < 0x800 {
        2
    } else if n < 0x10000 {
        3
    } else {
        4
    }
}

pub proof fn lemma_utf8_take_push(s: Seq<char>, k: int)
    requires
        0 <= k < s.len(),
    ensures
        utf8_len(s.take(k + 1)) == utf8_len(s.take(k)) + char_utf8_len(s[k]),
{
    assert(s.take(k + 1).drop_last() =~= s.take(k));
}

/// Longer prefixes take at least as many bytes.
pub proof fn lemma_utf8_take_mono(s: Seq<char>, j: int, k: int)
    requires
        0 <= j <= k <= s.len(),
    ensures
        utf8_len(s.take(j)) + (k - j) <= utf8_len(s.take(k)),
    decreases k - j,
{
    if j < k {
        lemma_utf8_take_mono(s, j, k - 1);
        lemma_utf8_take_push(s, k - 1);
    }
}

/// The cut is the prefix length `k` whose bytes fit while the next
/// character's do not.
pub proof fn lemma_utf8_cut_at(s: Seq<char>, n: nat, k: int)
    requires
        0 <= k <= s.len(),
        utf8_len(s.take(k)) <= n,
        k == s.len() || utf8_len(s.take(k + 1)) > n,
    ensures
        utf8_cut(s, n) == k,
    decreases s.len(),
{
    assert(s.take(s.len() as int) =~= s);
    if s.len() == 0 {
    } else if k == s.len() {
    } else {
        lemma_utf8_take_mono(s, k + 1, s.len() as int);
        let t = s.drop_last();
        assert forall|m: int| 0 <= m <= t.len() implies t.take(m) =~= s.take(m) by {}
        lemma_utf8_cut_at(t, n, k);
    }
}

/// The cut of `v` at `n` bytes and the bytes it covers.
pub fn utf8_cut_chars(v: &Vec<char>, n: usize) -> (r: (usize, usize))
    ensures
        r.0 == utf8_cut(v@, n as nat),
        r.1 == utf8_len(v@.take(r.0 as int)),
        r.1 <= n,
        r.0 < v.len() <==> utf8_len(v@) > n,
{
    let mut k: usize = 0;
    let mut acc: usize = 0;
    while k < v.len()
        invariant
            k <= v.len(),
            acc == utf8_len(v@.take(k as int)),
            acc <= n,
        ensures
            k <= v.len(),
            acc == utf8_len(v@.take(k as int)),
            acc <= n,
            k == v.len() || utf8_len(v@.take(k + 1)) > n,
        decreases v.len() - k,
    {
        let c = char_len_utf8(v[k]);
        proof {
            lemma_utf8_take_push(v@, k as int);
        }
        if c > n - acc {
            break;
        }
        acc = acc + c;
        k += 1;
    }
    proof {
        lemma_utf8_cut_at(v@, n as nat, k as int);
        assert(v@.take(v.len() as int) =~= v@);
        if k < v.len() {
            lemma_utf8_take_mono(v@, k + 1, v.len() as int);
        }
    }
    (k, acc)
}

} // verus!

verus! {

/// `Path::join` of a directory and a relative or absolute name, as Unix
/// paths join: an absolute name replaces the directory, and a separator is
/// added unless the directory is empty or already ends with one.
pub open spec fn join_path(dir: Seq<char>, name: Seq<char>) -> Seq<char> {
    if name.len() > 0 && name[0] == '/' {
        name
    } else if dir.len() == 0 {
        name
    } else if dir.last() == '/' {
        dir + name
    } else {
        dir + seq!['/'] + name
    }
}

pub fn join_path_str(dir: &str, name: &Vec<char>) -> (r: String)
    ensures
        r@ == join_path(dir@, name@),
{
    if name.len() > 0 && name[0] == '/' {
        return string_of(name);
    }
    let d = chars_of(dir);
    let mut s = String::from_str(dir);
    if d.len() > 0 && d[d.len() - 1] != '/' {
        string_push(&mut s, '/');
    }
    push_chars(&mut s, name);
    s
}

} // verus!

verus! {

pub proof fn lemma_nl_from_shift(p: Seq<char>, s: Seq<char>, i: int)
    requires
        0 <= i <= s.len(),
    ensures
        nl_from(p + s, p.len() + i) == p.len() + nl_from(s, i),
    decreases s.len() - i,
{
    if i < s.len() {
        assert((p + s)[p.len() + i] == s[i]);
        if s[i] != '\n' {
            lemma_nl_from_shift(p, s, i + 1);
        }
    }
}

pub proof fn lemma_lines_from_shift(p: Seq<char>, s: Seq<char>, i: int)
    requires
        0 <= i <= s.len(),
    ensures
        lines_from(p + s, p.len() + i) == lines_from(s, i),
    decreases s.len() - i,
{
    if i < s.len() {
        lemma_nl_from_shift(p, s, i);
        lemma_nl_from(s, i);
        let e = nl_from(s, i);
        assert((p + s).subrange(p.len() + i, p.len() + e) =~= s.subrange(i, e));
        assert((p + s).subrange(p.len() + i, (p + s).len() as int) =~= s.subrange(i, s.len() as int));
        if e < s.len() {
            lemma_lines_from_shift(p, s, e + 1);
        }
    }
}

/// The first line of `x + "\n" + y` is `x` (its `'\r'` dropped); the rest
/// are the lines of `y`.
pub proof fn lemma_lines_first(x: Seq<char>, y: Seq<char>)
    requires
        !x.contains('\n'),
    ensures
        lines(x + seq!['\n'] + y) == seq![strip_cr(x)] + lines(y),
{
    let p = x + seq!['\n'];
    let s = p + y;
    lemma_nl_from(s, 0);
    let e = nl_from(s, 0);
    assert(s[x.len() as int] == '\n');
    if e < x.len() {
        assert(x[e] == s[e]);
    }
    assert(e == x.len());
    assert(s.subrange(0, e) =~= x);
    lemma_lines_from_shift(p, y, 0);
    assert(lines(s) == seq![strip_cr(x)] + lines_from(s, e + 1));
}

/// A non-empty text without a line break is one line.
pub proof fn lemma_lines_single(x: Seq<char>)
    requires
        x.len() > 0,
        !x.contains('\n'),
    ensures
        lines(x) == seq![x],
{
    lemma_nl_from(x, 0);
    let e = nl_from(x, 0);
    if e < x.len() {
        assert(x.contains('\n'));
    }
    assert(x.subrange(0, x.len() as int) =~= x);
}

proof fn lemma_lines_from_concat(x: Seq<char>, y: Seq<char>, i: int)
    requires
        x.len() > 0,
        x.last() == '\n',
        0 <= i <= x.len(),
    ensures
        lines_from(x + y, i) == lines_from(x, i) + lines(y),
    decreases x.len() - i,
{
    let s = x + y;
    if i == x.len() {
        lemma_lines_from_shift(x, y, 0);
        assert(lines_from(x, i) =~= seq![]);
        assert(seq![] + lines(y) =~= lines(y));
    } else {
        lemma_nl_from(x, i);
        lemma_nl_from(s, i);
        let e = nl_from(x, i);
        let f = nl_from(s, i);
        assert(s[x.len() - 1] == '\n');
        assert(x[x.len() - 1] == '\n');
        if f < e {
            assert(s[f] == x[f]);
        }
        if e < f {
            assert(s[e] == x[e]);
        }
        assert(e == f);
        assert(s.subrange(i, e) =~= x.subrange(i, e));
        lemma_lines_from_concat(x, y, e + 1);
        assert(lines_from(x, i) == seq![strip_cr(x.subrange(i, e))] + lines_from(x, e + 1));
        assert(seq![strip_cr(x.subrange(i, e))] + (lines_from(x, e + 1) + lines(y)) =~= (seq![
            strip_cr(x.subrange(i, e)),
        ] + lines_from(x, e + 1)) + lines(y));
    }
}

/// Lines of a text ending in a line break, then of what follows.
pub proof fn lemma_lines_concat(x: Seq<char>, y: Seq<char>)
    requires
        x.len() > 0,
        x.last() == '\n',
    ensures
        lines(x + y) == lines(x) + lines(y),
{
    lemma_lines_from_concat(x, y, 0);
}

proof fn lemma_lines_from_newline_end(x: Seq<char>, i: int)
    requires
        x.len() > 0,
        x.last() != '\n',
        x.last() != '\r',
        0 <= i < x.len(),
    ensures
        lines_from(x + seq!['\n'], i) == lines_from(x, i),
    decreases x.len() - i,
{
    let s = x + seq!['\n'];
    lemma_nl_from(x, i);
    lemma_nl_from(s, i);
    let e = nl_from(x, i);
    let f = nl_from(s, i);
    assert(s[x.len() as int] == '\n');
    if f < e {
        assert(s[f] == x[f]);
    }
    if e < x.len() {
        assert(s[e] == x[e]);
        assert(e == f);
        assert(s.subrange(i, e) =~= x.subrange(i, e));
        assert(e + 1 < x.len());
        lemma_lines_from_newline_end(x, e + 1);
    } else {
        assert(f == x.len());
        assert(s.subrange(i, f) =~= x.subrange(i, x.len() as int));
        lemma_lines_from_shift(s, seq![], 0);
        assert(s + seq![] =~= s);
        assert(lines_from(s, f + 1) =~= seq![]);
    }
}

/// A final line break adds no line.
pub proof fn lemma_lines_newline_end(x: Seq<char>)
    requires
        x.len() > 0,
        x.last() != '\n',
        x.last() != '\r',
    ensures
        lines(x + seq!['\n']) == lines(x),
{
    lemma_lines_from_newline_end(x, 0);
}

/// `trim` leaves alone text whose ends are not whitespace.
pub proof fn lemma_trim_id(s: Seq<char>)
    requires
        s.len() > 0 ==> !is_ws(s[0]) && !is_ws(s.last()),
    ensures
        trim(s) == s,
{
}

proof fn lemma_trim_start_suffix(s: Seq<char>)
    ensures
        exists|k: int| 0 <= k <= s.len() && trim_start(s) == s.skip(k),
        trim_start(s).len() > 0 ==> !is_ws(trim_start(s)[0]),
    decreases s.len(),
{
    if s.len() > 0 && is_ws(s[0]) {
        lemma_trim_start_suffix(s.drop_first());
        let k = choose|k: int| 0 <= k <= s.drop_first().len() && trim_start(s.drop_first()) == s.drop_first().skip(k);
        assert(s.drop_first().skip(k) =~= s.skip(k + 1));
    } else {
        assert(s.skip(0) =~= s);
    }
}

proof fn lemma_trim_end_prefix(s: Seq<char>)
    ensures
        exists|k: int| 0 <= k <= s.len() && trim_end(s) == s.take(k),
        trim_end(s).len() > 0 ==> !is_ws(trim_end(s).last()),
    decreases s.len(),
{
    if s.len() > 0 && is_ws(s.last()) {
        lemma_trim_end_prefix(s.drop_last());
        let k = choose|k: int| 0 <= k <= s.drop_last().len() && trim_end(s.drop_last()) == s.drop_last().take(k);
        assert(s.drop_last().take(k) =~= s.take(k));
    } else {
        assert(s.take(s.len() as int) =~= s);
    }
}

/// Trimmed text starts and ends with a non-whitespace character and is a
/// piece of the given text.
pub proof fn lemma_trim_ends(s: Seq<char>)
    ensures
        trim(s).len() > 0 ==> !is_ws(trim(s)[0]) && !is_ws(trim(s).last()),
        exists|a: int, b: int| 0 <= a <= b <= s.len() && trim(s) == s.subrange(a, b),
{
    lemma_trim_start_suffix(s);
    let t = trim_start(s);
    lemma_trim_end_prefix(t);
    let k = choose|k: int| 0 <= k <= s.len() && t == s.skip(k);
    let j = choose|j: int| 0 <= j <= t.len() && trim_end(t) == t.take(j);
    assert(t.take(j) =~= s.subrange(k, k + j));
    if trim(s).len() > 0 {
        assert(trim(s)[0] == t[0]);
    }
}

} // verus!

verus! {

proof fn lemma_find_from_at(hay: Seq<char>, needle: Seq<char>, i: int, k: int)
    requires
        0 <= i <= k,
        occurs_at(hay, needle, k),
        forall|j: int| i <= j < k ==> !occurs_at(hay, needle, j),
    ensures
        find_from(hay, needle, i) == Some(k),
    decreases k - i,
{
    if i < k {
        lemma_find_from_at(hay, needle, i + 1, k);
    }
}

/// `find` gives the first occurrence.
pub proof fn lemma_find_at(hay: Seq<char>, needle: Seq<char>, k: int)
    requires
        0 <= k,
        occurs_at(hay, needle, k),
        forall|j: int| 0 <= j < k ==> !occurs_at(hay, needle, j),
    ensures
        find(hay, needle) == Some(k),
{
    lemma_find_from_at(hay, needle, 0, k);
}

} // verus!

verus! {

proof fn lemma_word_end_shift(p: Seq<char>, s: Seq<char>, i: int)
    requires
        0 <= i <= s.len(),
    ensures
        word_end(p + s, p.len() + i) == p.len() + word_end(s, i),
    decreases s.len() - i,
{
    if i < s.len() {
        assert((p + s)[p.len() + i] == s[i]);
        if !is_ws(s[i]) {
            lemma_word_end_shift(p, s, i + 1);
        }
    }
}

/// Words read past a prefix are the words of the rest.
pub proof fn lemma_words_shift(p: Seq<char>, s: Seq<char>, i: int)
    requires
        0 <= i <= s.len(),
    ensures
        words_from(p + s, p.len() + i) == words_from(s, i),
    decreases s.len() - i,
{
    if i < s.len() {
        assert((p + s)[p.len() + i] == s[i]);
        if is_ws(s[i]) {
            lemma_words_shift(p, s, i + 1);
        } else {
            lemma_word_end_shift(p, s, i);
            lemma_word_end(s, i + 1);
            let e = word_end(s, i);
            lemma_words_shift(p, s, e);
            assert((p + s).subrange(p.len() + i, p.len() + e) =~= s.subrange(i, e));
        }
    }
}

proof fn lemma_word_end_concat(x: Seq<char>, y: Seq<char>, j: int)
    requires
        0 <= j <= x.len(),
        word_end(x, j) < x.len() || y.len() == 0 || is_ws(y[0]),
    ensures
        word_end(x + y, j) == word_end(x, j),
    decreases x.len() - j,
{
    if j < x.len() {
        assert((x + y)[j] == x[j]);
        if !is_ws(x[j]) {
            lemma_word_end_concat(x, y, j + 1);
        }
    } else if y.len() > 0 {
        assert((x + y)[j] == y[0]);
    }
}

proof fn lemma_words_from_concat(x: Seq<char>, y: Seq<char>, i: int)
    requires
        0 <= i <= x.len(),
        x.len() == 0 || y.len() == 0 || is_ws(x.last()) || is_ws(y[0]),
    ensures
        words_from(x + y, i) == words_from(x, i) + words(y),
    decreases x.len() - i,
{
    if i == x.len() {
        lemma_words_shift(x, y, 0);
        assert(words_from(x, i) + words(y) =~= words(y));
    } else {
        assert((x + y)[i] == x[i]);
        if is_ws(x[i]) {
            lemma_words_from_concat(x, y, i + 1);
        } else {
            lemma_word_end(x, i);
            lemma_word_end(x, i + 1);
            let e = word_end(x, i);
            if e == x.len() {
                assert(!is_ws(x[x.len() - 1]));
            }
            lemma_word_end_concat(x, y, i);
            lemma_words_from_concat(x, y, e);
            assert((x + y).subrange(i, e) =~= x.subrange(i, e));
            assert(seq![x.subrange(i, e)] + (words_from(x, e) + words(y)) =~= (seq![
                x.subrange(i, e),
            ] + words_from(x, e)) + words(y));
        }
    }
}

/// Words of two texts that whitespace keeps apart are the words of each.
pub proof fn lemma_words_concat(x: Seq<char>, y: Seq<char>)
    requires
        x.len() == 0 || y.len() == 0 || is_ws(x.last()) || is_ws(y[0]),
    ensures
        words(x + y) == words(x) + words(y),
{
    lemma_words_from_concat(x, y, 0);
}

/// A single whitespace character holds no word.
pub proof fn lemma_words_ws_char(c: char)
    requires
        is_ws(c),
    ensures
        words(seq![c]) == Seq::<Seq<char>>::empty(),
{
    assert(words_from(seq![c], 1) == Seq::<Seq<char>>::empty());
}

/// Trailing whitespace holds no word.
pub proof fn lemma_words_trim_end(s: Seq<char>)
    ensures
        words(trim_end(s)) == words(s),
    decreases s.len(),
{
    if s.len() > 0 && is_ws(s.last()) {
        let a = s.drop_last();
        lemma_words_trim_end(a);
        lemma_words_concat(a, seq![s.last()]);
        lemma_words_ws_char(s.last());
        assert(a + seq![s.last()] =~= s);
        assert(words(a) + Seq::<Seq<char>>::empty() =~= words(a));
    }
}

/// The words of each piece, one piece after the other.
pub open spec fn words_all(ps: Seq<Seq<char>>) -> Seq<Seq<char>>
    decreases ps.len(),
{
    if ps.len() == 0 {
        seq![]
    } else {
        words_all(ps.drop_last()) + words(ps.last())
    }
}

pub proof fn lemma_words_all_concat(a: Seq<Seq<char>>, b: Seq<Seq<char>>)
    ensures
        words_all(a + b) == words_all(a) + words_all(b),
    decreases b.len(),
{
    if b.len() == 0 {
        assert(a + b =~= a);
        assert(words_all(a) + words_all(b) =~= words_all(a));
    } else {
        lemma_words_all_concat(a, b.drop_last());
        assert((a + b).drop_last() =~= a + b.drop_last());
        assert((a + b).last() == b.last());
        assert(words_all(a) + (words_all(b.drop_last()) + words(b.last())) =~= (words_all(a)
            + words_all(b.drop_last())) + words(b.last()));
    }
}

pub proof fn lemma_words_all_single(a: Seq<char>)
    ensures
        words_all(seq![a]) == words(a),
{
    assert(seq![a].drop_last() =~= Seq::<Seq<char>>::empty());
    assert(seq![a].last() == a);
    assert(words_all(Seq::<Seq<char>>::empty()) == Seq::<Seq<char>>::empty());
    assert(Seq::<Seq<char>>::empty() + words(a) =~= words(a));
}

proof fn lemma_words_split_from(t: Seq<char>, i: int)
    requires
        0 <= i <= t.len(),
    ensures
        words_all(split_char_from(t, '\n', i)) == words_from(t, i),
    decreases t.len() + 1 - i,
{
    lemma_char_from(t, '\n', i);
    let e = char_from(t, '\n', i);
    assert(t.take(i) + t.skip(i) =~= t);
    lemma_words_shift(t.take(i), t.skip(i), 0);
    if e < t.len() {
        lemma_words_split_from(t, e + 1);
        let a = t.subrange(i, e);
        let r = t.skip(e);
        assert(t.skip(i) =~= a + r);
        lemma_words_concat(a, r);
        assert(r =~= seq!['\n'] + t.skip(e + 1));
        lemma_words_concat(seq!['\n'], t.skip(e + 1));
        lemma_words_ws_char('\n');
        assert(Seq::<Seq<char>>::empty() + words(t.skip(e + 1)) =~= words(t.skip(e + 1)));
        assert(t.take(e + 1) + t.skip(e + 1) =~= t);
        lemma_words_shift(t.take(e + 1), t.skip(e + 1), 0);
        lemma_words_all_concat(seq![a], split_char_from(t, '\n', e + 1));
        lemma_words_all_single(a);
    } else {
        let a = t.subrange(i, t.len() as int);
        assert(t.skip(i) =~= a);
        lemma_words_all_single(a);
    }
}

/// Splitting at line breaks keeps the words.
pub proof fn lemma_words_split(t: Seq<char>)
    ensures
        words_all(split_char(t, '\n')) == words(t),
{
    lemma_words_split_from(t, 0);
}

/// Each word is non-empty and starts and ends with a non-whitespace character.
pub proof fn lemma_words_from_solid(s: Seq<char>, i: int)
    requires
        0 <= i,
    ensures
        forall|k: int|
            0 <= k < words_from(s, i).len() ==> (#[trigger] words_from(s, i)[k]).len() > 0 && !is_ws(
                words_from(s, i)[k][0],
            ) && !is_ws(words_from(s, i)[k].last()),
    decreases s.len() - i,
{
    if i < s.len() {
        if is_ws(s[i]) {
            lemma_words_from_solid(s, i + 1);
            assert(words_from(s, i) == words_from(s, i + 1));
        } else {
            lemma_word_end(s, i);
            lemma_word_end(s, i + 1);
            let e = word_end(s, i);
            lemma_words_from_solid(s, e);
            let w = s.subrange(i, e);
            assert(!is_ws(w[0]) && !is_ws(w.last()));
            let ws = words_from(s, i);
            assert(ws == seq![w] + words_from(s, e));
            assert forall|k: int| 0 <= k < ws.len() implies (#[trigger] ws[k]).len() > 0 && !is_ws(
                ws[k][0],
            ) && !is_ws(ws[k].last()) by {
                if k > 0 {
                    assert(ws[k] == words_from(s, e)[k - 1]);
                }
            }
        }
    }
}

/// Joined non-empty pieces start with the first piece's first character and
/// end with the last piece's last character.
pub proof fn lemma_join_ends(ts: Seq<Seq<char>>, sep: Seq<char>)
    requires
        forall|k: int| 0 <= k < ts.len() ==> (#[trigger] ts[k]).len() > 0,
    ensures
        ts.len() > 0 ==> join(ts, sep).len() > 0 && join(ts, sep)[0] == ts[0][0] && join(ts, sep).last()
            == ts.last().last(),
    decreases ts.len(),
{
    if ts.len() > 1 {
        let d = ts.drop_last();
        assert forall|k: int| 0 <= k < d.len() implies (#[trigger] d[k]).len() > 0 by {
            assert(d[k] == ts[k]);
        }
        lemma_join_ends(d, sep);
        assert(d[0] == ts[0]);
        assert(ts.last().len() > 0);
    } else if ts.len() == 1 {
        assert(ts[0].len() > 0);
    }
}

/// Words joined by single spaces need no trimming.
pub proof fn lemma_trim_joined_words(s: Seq<char>)
    ensures
        trim(join(words(s), seq![' '])) == join(words(s), seq![' ']),
{
    let ws = words(s);
    lemma_words_from_solid(s, 0);
    assert forall|k: int| 0 <= k < ws.len() implies (#[trigger] ws[k]).len() > 0 by {}
    lemma_join_ends(ws, seq![' ']);
    let j = join(ws, seq![' ']);
    if j.len() > 0 {
        assert(ws.len() > 0);
        assert(!is_ws(ws[0][0]));
        assert(!is_ws(ws.last().last())) by {
            assert(ws.last() == ws[ws.len() - 1]);
        }
    }
    lemma_trim_id(j);
}

} // verus!
