//! Lexical helpers of the search index: tokens, queries, snippets.

use vstd::prelude::*;
use vstd::string::StringExecFns;
use crate::corpus::{opt_view, string_views, CannedResponse};
use crate::text::{
    char_is_alphanumeric, chars_of, alnum_char, join, join_chars, lowercase, slice_chars,
    string_of, to_lowercase, views,
};

verus! {

/// Default index directory (gitignored) under the working tree.
pub fn default_index_dir() -> (r: String)
    ensures
        r@ == ".canonic-index"@,
{
    String::from_str(".canonic-index")
}

/// One document stored in the search index.
#[derive(Debug, Clone)]
pub struct IndexDoc {
    pub id: String,
    pub title: String,
    pub content: String,
    pub path: String,
    pub tags: Vec<String>,
    pub sop: Option<String>,
}

impl IndexDoc {
    /// The indexed form of a response.
    pub fn from_response(r: &CannedResponse) -> (d: IndexDoc)
        ensures
            d.id@ == r.id@,
            d.title@ == r.title@,
            d.content@ == r.content@,
            d.path@ == r.path@,
            string_views(d.tags@) == string_views(r.tags@),
            opt_view(d.sop) == opt_view(r.sop),
    {
        let mut tags: Vec<String> = Vec::new();
        let mut k: usize = 0;
        while k < r.tags.len()
            invariant
                k <= r.tags.len(),
                string_views(tags@) == string_views(r.tags@).take(k as int),
            decreases r.tags.len() - k,
        {
            let ghost prev = tags@;
            let t = r.tags[k].clone();
            tags.push(t);
            proof {
                crate::corpus::lemma_string_views_push(prev, t);
            }
            assert(string_views(tags@) =~= string_views(r.tags@).take(k + 1));
            k += 1;
        }
        assert(string_views(r.tags@).take(r.tags.len() as int) =~= string_views(r.tags@));
        let sop = match &r.sop {
            Some(s) => Some(s.clone()),
            None => None,
        };
        IndexDoc {
            id: r.id.clone(),
            title: r.title.clone(),
            content: r.content.clone(),
            path: r.path.clone(),
            tags,
            sop,
        }
    }
}

/// End of the run of alphanumeric characters starting at `i`.
pub open spec fn alnum_end(s: Seq<char>, i: int) -> int
    decreases s.len() - i,
{
    if i < 0 || i >= s.len() {
        s.len() as int
    } else if !alnum_char(s[i]) {
        i
    } else {
        alnum_end(s, i + 1)
    }
}

pub proof fn lemma_alnum_end(s: Seq<char>, i: int)
    requires
        0 <= i <= s.len(),
    ensures
        i <= alnum_end(s, i) <= s.len(),
        alnum_end(s, i) < s.len() ==> !alnum_char(s[alnum_end(s, i)]),
        forall|k: int| i <= k < alnum_end(s, i) ==> alnum_char(s[k]),
    decreases s.len() - i,
{
    if i < s.len() && alnum_char(s[i]) {
        lemma_alnum_end(s, i + 1);
    }
}

/// The maximal runs of alphanumeric characters of `s` from `i` on.
pub open spec fn alnum_runs_from(s: Seq<char>, i: int) -> Seq<Seq<char>>
    decreases s.len() - i,
{
    if i < 0 || i >= s.len() {
        seq![]
    } else if !alnum_char(s[i]) {
        alnum_runs_from(s, i + 1)
    } else {
        let e = alnum_end(s, i);
        proof {
            lemma_alnum_end(s, i + 1);
        }
        seq![s.subrange(i, e)] + alnum_runs_from(s, e)
    }
}

/// Tokens of a text: the runs of alphanumeric characters of its lowercase form.
pub open spec fn tokens(text: Seq<char>) -> Seq<Seq<char>> {
    alnum_runs_from(lowercase(text), 0)
}

pub fn token_chars(text: &Vec<char>) -> (r: Vec<Vec<char>>)
    ensures
        views(r@) == tokens(text@),
{
    let v = to_lowercase(text);
    let n = v.len();
    let mut out: Vec<Vec<char>> = Vec::new();
    let mut i: usize = 0;
    while i < n
        invariant
            i <= n == v.len(),
            views(out@) + alnum_runs_from(v@, i as int) == alnum_runs_from(v@, 0),
        decreases n - i,
    {
        let ghost old_out = views(out@);
        if !char_is_alphanumeric(v[i]) {
            i += 1;
        } else {
            let mut e = i + 1;
            proof {
                lemma_alnum_end(v@, i + 1);
            }
            while e < n && char_is_alphanumeric(v[e])
                invariant
                    i < e <= n == v.len(),
                    alnum_end(v@, i as int) == alnum_end(v@, e as int),
                decreases n - e,
            {
                e += 1;
            }
            proof {
                lemma_alnum_end(v@, e as int);
            }
            let w = slice_chars(&v, i, e);
            out.push(w);
            assert(views(out@) =~= old_out.push(v@.subrange(i as int, e as int)));
            assert(views(out@) + alnum_runs_from(v@, e as int) =~= old_out + alnum_runs_from(
                v@,
                i as int,
            ));
            i = e;
        }
    }
    assert(views(out@) =~= alnum_runs_from(v@, 0));
    out
}

/// Tokenize for pure lexical helpers: lowercase, split at every
/// non-alphanumeric character, empty pieces dropped.
pub fn tokenize(text: &str) -> (r: Vec<String>)
    ensures
        string_views(r@) == tokens(text@),
{
    let ts = token_chars(&chars_of(text));
    let mut out: Vec<String> = Vec::new();
    let mut k: usize = 0;
    while k < ts.len()
        invariant
            k <= ts.len(),
            string_views(out@) == views(ts@).take(k as int),
        decreases ts.len() - k,
    {
        let s = string_of(&ts[k]);
        let ghost prev = out@;
        out.push(s);
        proof {
            crate::corpus::lemma_string_views_push(prev, s);
        }
        assert(string_views(out@) =~= views(ts@).take(k + 1));
        k += 1;
    }
    assert(views(ts@).take(ts.len() as int) =~= views(ts@));
    out
}

/// A query reduced to its tokens separated by single spaces.
pub open spec fn sanitized(query: Seq<char>) -> Seq<char> {
    join(tokens(query), seq![' '])
}

/// Strip characters that break the query parser; keep alphanumeric terms.
pub fn sanitize_query(query: &str) -> (r: String)
    ensures
        r@ == sanitized(query@),
{
    let ts = token_chars(&chars_of(query));
    let sp = vec![' '];
    assert(sp@ =~= seq![' ']);
    string_of(&join_chars(&ts, &sp))
}

} // verus!

verus! {

/// `s` with every line break turned into a space.
pub open spec fn flatten(s: Seq<char>) -> Seq<char> {
    s.map_values(|c: char| if c == '\n' { ' ' } else { c })
}

/// Where in `lower` the first query token that occurs there is found, tokens
/// taken in query order.
pub open spec fn first_match(lower: Seq<char>, qts: Seq<Seq<char>>) -> Option<int>
    decreases qts.len(),
{
    if qts.len() == 0 {
        None
    } else {
        match crate::text::find(lower, qts[0]) {
            Some(i) => Some(i),
            None => first_match(lower, qts.drop_first()),
        }
    }
}

/// The character index the snippet starts at: 40 characters before the
/// first match in the lowercase text, or the start.
pub open spec fn snippet_start(text: Seq<char>, query: Seq<char>) -> int {
    let m = match first_match(lowercase(flatten(text)), tokens(query)) {
        Some(i) => i,
        None => 0,
    };
    if m < 40 {
        0
    } else {
        m - 40
    }
}

/// The snippet window fits the text. The match index is taken in the
/// lowercase text and applied to the text itself, so it can lie past the end
/// only where lowercasing lengthens the text.
pub open spec fn snippet_in_range(text: Seq<char>, query: Seq<char>) -> bool {
    snippet_start(text, query) <= flatten(text).len()
}

/// A window of at most 120 characters of the flattened text around the first
/// query match, with `...` marking cut text on either side.
pub open spec fn snippet_text(text: Seq<char>, query: Seq<char>) -> Seq<char> {
    let flat = flatten(text);
    let start = snippet_start(text, query);
    let end = if start + 120 < flat.len() {
        start + 120
    } else {
        flat.len() as int
    };
    if flat.len() == 0 {
        seq![]
    } else {
        (if start > 0 {
            "..."@
        } else {
            seq![]
        }) + flat.subrange(start, end) + if end < flat.len() {
            "..."@
        } else {
            seq![]
        }
    }
}

fn flatten_chars(v: &Vec<char>) -> (r: Vec<char>)
    ensures
        r@ == flatten(v@),
{
    let mut out: Vec<char> = Vec::new();
    let mut k: usize = 0;
    while k < v.len()
        invariant
            k <= v.len(),
            out@ == flatten(v@.take(k as int)),
        decreases v.len() - k,
    {
        out.push(if v[k] == '\n' { ' ' } else { v[k] });
        assert(flatten(v@.take(k + 1)) =~= flatten(v@.take(k as int)).push(
            if v@[k as int] == '\n' { ' ' } else { v@[k as int] },
        ));
        k += 1;
    }
    assert(v@.take(v.len() as int) =~= v@);
    out
}

/// The flattened text and the snippet's start index.
fn snippet_window(text: &str, query: &str) -> (r: (Vec<char>, usize))
    ensures
        r.0@ == flatten(text@),
        r.1 == snippet_start(text@, query@),
{
    let flat = flatten_chars(&chars_of(text));
    let lower = to_lowercase(&flat);
    let qts = token_chars(&chars_of(query));
    let ghost all = views(qts@);
    let mut pos: Option<usize> = None;
    let mut k: usize = 0;
    assert(all.subrange(0, all.len() as int) =~= all);
    while k < qts.len()
        invariant_except_break
            pos is None,
        invariant
            k <= qts.len(),
            all == views(qts@),
            first_match(lower@, all) == first_match(lower@, all.subrange(k as int, all.len() as int)),
        ensures
            pos is None ==> first_match(lower@, all) is None,
            pos matches Some(i) ==> first_match(lower@, all) == Some(i as int),
        decreases qts.len() - k,
    {
        let ghost rest = all.subrange(k as int, all.len() as int);
        assert(rest[0] == qts@[k as int]@);
        assert(rest.drop_first() =~= all.subrange(k + 1, all.len() as int));
        match crate::text::find_chars(&lower, &qts[k]) {
            Some(i) => {
                pos = Some(i);
                break;
            },
            None => {},
        }
        k += 1;
    }
    proof {
        if pos is None {
            assert(all.subrange(all.len() as int, all.len() as int) =~= seq![]);
        }
    }
    let m: usize = match pos {
        Some(i) => i,
        None => 0,
    };
    let start = if m < 40 {
        0
    } else {
        m - 40
    };
    (flat, start)
}

/// The search-hit snippet of `text` for `query` (see [`snippet_text`]).
pub fn snippet_for(text: &str, query: &str) -> (r: String)
    requires
        snippet_in_range(text@, query@),
    ensures
        r@ == snippet_text(text@, query@),
{
    let (flat, start) = snippet_window(text, query);
    if flat.len() == 0 {
        return String::new();
    }
    let total = flat.len();
    let end = if total >= 120 && start < total - 120 {
        start + 120
    } else {
        total
    };
    let mut s = String::new();
    if start > 0 {
        s.append("...");
    }
    let body = slice_chars(&flat, start, end);
    crate::text::push_chars(&mut s, &body);
    if end < total {
        s.append("...");
    }
    s
}

/// The snippet where its window fits the text, else `None` (see
/// [`snippet_in_range`]).
pub fn snippet(text: &str, query: &str) -> (r: Option<String>)
    ensures
        snippet_in_range(text@, query@) <==> r is Some,
        r matches Some(s) ==> s@ == snippet_text(text@, query@),
{
    let (flat, start) = snippet_window(text, query);
    if start <= flat.len() {
        Some(snippet_for(text, query))
    } else {
        None
    }
}

} // verus!

verus! {

/// Characters trimmed off both ends of a query word.
pub open spec fn is_junk(c: char) -> bool {
    !alnum_char(c) && c != '-'
}

/// Index of the first non-junk character at or after `i`.
pub open spec fn junk_lead(w: Seq<char>, i: int) -> int
    decreases w.len() - i,
{
    if i < 0 || i >= w.len() {
        w.len() as int
    } else if !is_junk(w[i]) {
        i
    } else {
        junk_lead(w, i + 1)
    }
}

/// Index just past the last non-junk character before `j`.
pub open spec fn junk_trail(w: Seq<char>, j: int) -> int
    decreases j,
{
    if j <= 0 || j > w.len() {
        0
    } else if !is_junk(w[j - 1]) {
        j
    } else {
        junk_trail(w, j - 1)
    }
}

/// `w` with junk trimmed off both ends (`str::trim_matches`).
pub open spec fn trim_junk(w: Seq<char>) -> Seq<char> {
    let a = junk_lead(w, 0);
    if a >= w.len() {
        seq![]
    } else {
        w.subrange(a, junk_trail(w, w.len() as int))
    }
}

/// Of the words longer than 3 bytes, the first `budget`, trimmed, the empty
/// ones dropped.
pub open spec fn pick_words(ws: Seq<Seq<char>>, budget: nat) -> Seq<Seq<char>>
    decreases ws.len(),
{
    if ws.len() == 0 || budget == 0 {
        seq![]
    } else if crate::text::utf8_len(ws[0]) > 3 {
        let t = trim_junk(ws[0]);
        let rest = pick_words(ws.drop_first(), (budget - 1) as nat);
        if t.len() == 0 {
            rest
        } else {
            seq![t] + rest
        }
    } else {
        pick_words(ws.drop_first(), budget)
    }
}

/// The near-duplicate query of a response: its title, a space, and the
/// picked words of its content joined by spaces.
pub open spec fn self_query(title: Seq<char>, content: Seq<char>) -> Seq<char> {
    title + seq![' '] + join(pick_words(crate::text::words(content), 40), seq![' '])
}

proof fn lemma_junk_lead(w: Seq<char>, i: int)
    requires
        0 <= i <= w.len(),
    ensures
        i <= junk_lead(w, i) <= w.len(),
        junk_lead(w, i) < w.len() ==> !is_junk(w[junk_lead(w, i)]),
    decreases w.len() - i,
{
    if i < w.len() && is_junk(w[i]) {
        lemma_junk_lead(w, i + 1);
    }
}

proof fn lemma_junk_trail(w: Seq<char>, j: int, a: int)
    requires
        0 <= a < j <= w.len(),
        !is_junk(w[a]),
    ensures
        a < junk_trail(w, j) <= j,
    decreases j,
{
    if is_junk(w[j - 1]) {
        lemma_junk_trail(w, j - 1, a);
    }
}

fn trim_junk_chars(w: &Vec<char>) -> (r: Vec<char>)
    ensures
        r@ == trim_junk(w@),
{
    let n = w.len();
    let mut a: usize = 0;
    proof {
        lemma_junk_lead(w@, 0);
    }
    while a < n && !char_is_alphanumeric(w[a]) && w[a] != '-'
        invariant
            a <= n == w.len(),
            junk_lead(w@, 0) == junk_lead(w@, a as int),
        decreases n - a,
    {
        a += 1;
    }
    if a >= n {
        return Vec::new();
    }
    let mut b: usize = n;
    proof {
        lemma_junk_trail(w@, n as int, a as int);
    }
    while b > a + 1 && !char_is_alphanumeric(w[b - 1]) && w[b - 1] != '-'
        invariant
            a < b <= n == w.len(),
            a == junk_lead(w@, 0),
            !is_junk(w@[a as int]),
            junk_trail(w@, n as int) == junk_trail(w@, b as int),
        decreases b,
    {
        b -= 1;
    }
    slice_chars(w, a, b)
}

/// The near-duplicate query of a response (see [`self_query`]).
pub fn self_query_for(doc: &CannedResponse) -> (r: String)
    ensures
        r@ == self_query(doc.title@, doc.content@),
{
    let ws = crate::text::words_of(&chars_of(doc.content.as_str()));
    let ghost all = views(ws@);
    let mut picked: Vec<Vec<char>> = Vec::new();
    let mut budget: usize = 40;
    let mut k: usize = 0;
    assert(all.subrange(0, all.len() as int) =~= all);
    while k < ws.len()
        invariant
            k <= ws.len(),
            budget <= 40,
            all == views(ws@),
            views(picked@) + pick_words(all.subrange(k as int, all.len() as int), budget as nat)
                == pick_words(all, 40),
        decreases ws.len() - k,
    {
        let ghost rest = all.subrange(k as int, all.len() as int);
        assert(rest[0] == ws@[k as int]@);
        assert(rest.drop_first() =~= all.subrange(k + 1, all.len() as int));
        if budget == 0 {
            assert(pick_words(rest, 0) =~= seq![]);
            assert(pick_words(all.subrange(all.len() as int, all.len() as int), 0) =~= seq![]);
            k = ws.len();
        } else {
            let w = &ws[k];
            let (cut, _bytes) = crate::text::utf8_cut_chars(w, 3);
            if cut < w.len() {
                let t = trim_junk_chars(w);
                budget = budget - 1;
                if t.len() > 0 {
                    let ghost prev = picked@;
                    picked.push(t);
                    proof {
                        crate::text::lemma_views_push(prev, t);
                    }
                    assert(views(picked@) + pick_words(all.subrange(k + 1, all.len() as int), budget as nat)
                        =~= views(prev) + pick_words(rest, (budget + 1) as nat));
                }
            }
            k += 1;
        }
    }
    assert(all.subrange(all.len() as int, all.len() as int) =~= seq![]);
    assert(views(picked@) =~= pick_words(all, 40));
    let sp = vec![' '];
    assert(sp@ =~= seq![' ']);
    let joined = join_chars(&picked, &sp);
    let mut s = doc.title.clone();
    crate::text::string_push(&mut s, ' ');
    crate::text::push_chars(&mut s, &joined);
    assert(s@ =~= self_query(doc.title@, doc.content@));
    s
}

} // verus!

verus! {

/// The tokens in order of first occurrence, each once.
pub open spec fn distinct(ts: Seq<Seq<char>>) -> Seq<Seq<char>>
    decreases ts.len(),
{
    if ts.len() == 0 {
        seq![]
    } else {
        let d = distinct(ts.drop_last());
        if d.contains(ts.last()) {
            d
        } else {
            d.push(ts.last())
        }
    }
}

/// How many of `ts` occur in `other`.
pub open spec fn count_in(ts: Seq<Seq<char>>, other: Seq<Seq<char>>) -> nat
    decreases ts.len(),
{
    if ts.len() == 0 {
        0
    } else {
        count_in(ts.drop_last(), other) + if other.contains(ts.last()) {
            1nat
        } else {
            0nat
        }
    }
}

pub proof fn lemma_count_in_le(ts: Seq<Seq<char>>, other: Seq<Seq<char>>)
    ensures
        count_in(ts, other) <= ts.len(),
    decreases ts.len(),
{
    if ts.len() > 0 {
        lemma_count_in_le(ts.drop_last(), other);
    }
}

/// The token sets of two texts: the size of their intersection and of their
/// union.
pub open spec fn token_overlap(a: Seq<char>, b: Seq<char>) -> (nat, nat) {
    let da = distinct(tokens(a));
    let db = distinct(tokens(b));
    (count_in(da, tokens(b)), da.len() + (db.len() - count_in(db, tokens(a))) as nat)
}

fn same_chars(a: &Vec<char>, b: &Vec<char>) -> (r: bool)
    ensures
        r == (a@ == b@),
{
    if a.len() != b.len() {
        return false;
    }
    let mut k: usize = 0;
    while k < a.len()
        invariant
            k <= a.len() == b.len(),
            forall|i: int| 0 <= i < k ==> a@[i] == b@[i],
        decreases a.len() - k,
    {
        if a[k] != b[k] {
            return false;
        }
        k += 1;
    }
    assert(a@ =~= b@);
    true
}

fn holds_token(list: &Vec<Vec<char>>, t: &Vec<char>) -> (r: bool)
    ensures
        r == views(list@).contains(t@),
{
    let mut k: usize = 0;
    while k < list.len()
        invariant
            k <= list.len(),
            forall|i: int| 0 <= i < k ==> views(list@)[i] != t@,
        decreases list.len() - k,
    {
        if same_chars(&list[k], t) {
            assert(views(list@)[k as int] == t@);
            return true;
        }
        k += 1;
    }
    false
}

fn distinct_chars(ts: &Vec<Vec<char>>) -> (r: Vec<Vec<char>>)
    ensures
        views(r@) == distinct(views(ts@)),
{
    let mut out: Vec<Vec<char>> = Vec::new();
    let mut k: usize = 0;
    while k < ts.len()
        invariant
            k <= ts.len(),
            views(out@) == distinct(views(ts@).take(k as int)),
        decreases ts.len() - k,
    {
        assert(views(ts@).take(k + 1).drop_last() =~= views(ts@).take(k as int));
        assert(views(ts@).take(k + 1).last() == ts@[k as int]@);
        if !holds_token(&out, &ts[k]) {
            let ghost prev = out@;
            let t = ts[k].clone();
            assert(t@ == ts@[k as int]@);
            out.push(t);
            proof {
                crate::text::lemma_views_push(prev, t);
            }
        }
        k += 1;
    }
    assert(views(ts@).take(ts.len() as int) =~= views(ts@));
    out
}

fn count_held(ts: &Vec<Vec<char>>, other: &Vec<Vec<char>>) -> (n: usize)
    ensures
        n == count_in(views(ts@), views(other@)),
{
    let mut n: usize = 0;
    let mut k: usize = 0;
    while k < ts.len()
        invariant
            k <= ts.len(),
            n == count_in(views(ts@).take(k as int), views(other@)),
            n <= k,
        decreases ts.len() - k,
    {
        assert(views(ts@).take(k + 1).drop_last() =~= views(ts@).take(k as int));
        assert(views(ts@).take(k + 1).last() == ts@[k as int]@);
        if holds_token(other, &ts[k]) {
            n = n + 1;
        }
        k += 1;
    }
    assert(views(ts@).take(ts.len() as int) =~= views(ts@));
    n
}

/// The token sets of `a` and `b`: the size of their intersection, of the set
/// of `a`, and of the part of `b`'s set outside `a`'s. The Jaccard
/// similarity is the first over the sum of the other two (taken as 1 when
/// that sum is 0).
pub fn jaccard_counts(a: &str, b: &str) -> (r: (usize, usize, usize))
    ensures
        r.0 == token_overlap(a@, b@).0,
        r.1 + r.2 == token_overlap(a@, b@).1,
        r.1 == distinct(tokens(a@)).len(),
{
    let ta = token_chars(&chars_of(a));
    let tb = token_chars(&chars_of(b));
    let da = distinct_chars(&ta);
    let db = distinct_chars(&tb);
    let inter = count_held(&da, &tb);
    let both = count_held(&db, &ta);
    proof {
        lemma_count_in_le(views(db@), views(ta@));
    }
    assert(views(db@).len() == db@.len());
    assert(views(da@).len() == da@.len());
    (inter, da.len(), db.len() - both)
}

} // verus!

verus! {

proof fn lemma_distinct_empty(ts: Seq<Seq<char>>)
    ensures
        (distinct(ts).len() == 0) <==> (ts.len() == 0),
    decreases ts.len(),
{
    if ts.len() > 0 {
        lemma_distinct_empty(ts.drop_last());
        let d = distinct(ts.drop_last());
        if d.contains(ts.last()) {
            assert(d.len() > 0);
        }
    }
}

proof fn lemma_count_in_empty(ts: Seq<Seq<char>>)
    ensures
        count_in(ts, seq![]) == 0,
    decreases ts.len(),
{
    if ts.len() > 0 {
        lemma_count_in_empty(ts.drop_last());
    }
}

/// The overlap is never larger than the union, and the union is empty
/// exactly when neither text has a token; so the Jaccard ratio lies in
/// [0, 1].
pub proof fn law_overlap_within_union(a: Seq<char>, b: Seq<char>)
    ensures
        token_overlap(a, b).0 <= token_overlap(a, b).1,
        (token_overlap(a, b).1 == 0) <==> (tokens(a).len() == 0 && tokens(b).len() == 0),
{
    let da = distinct(tokens(a));
    let db = distinct(tokens(b));
    lemma_count_in_le(da, tokens(b));
    lemma_count_in_le(db, tokens(a));
    lemma_distinct_empty(tokens(a));
    lemma_distinct_empty(tokens(b));
    if tokens(a).len() == 0 {
        lemma_count_in_empty(db);
        assert(tokens(a) =~= seq![]);
    }
}

} // verus!

verus! {

/// The members of `ts` that occur in `other`, in order.
pub open spec fn keep_in(ts: Seq<Seq<char>>, other: Seq<Seq<char>>) -> Seq<Seq<char>>
    decreases ts.len(),
{
    if ts.len() == 0 {
        seq![]
    } else {
        let k = keep_in(ts.drop_last(), other);
        if other.contains(ts.last()) {
            k.push(ts.last())
        } else {
            k
        }
    }
}

proof fn lemma_push_contains(s: Seq<Seq<char>>, l: Seq<char>)
    ensures
        forall|x: Seq<char>| s.push(l).contains(x) <==> (s.contains(x) || x == l),
{
    assert forall|x: Seq<char>| s.push(l).contains(x) <==> (s.contains(x) || x == l) by {
        if s.push(l).contains(x) {
            let i = choose|i: int| 0 <= i < s.push(l).len() && s.push(l)[i] == x;
            if i < s.len() {
                assert(s[i] == x);
            }
        }
        if s.contains(x) {
            let i = choose|i: int| 0 <= i < s.len() && s[i] == x;
            assert(s.push(l)[i] == x);
        }
        if x == l {
            assert(s.push(l)[s.len() as int] == x);
        }
    }
}

proof fn lemma_push_no_dup(s: Seq<Seq<char>>, l: Seq<char>)
    requires
        s.no_duplicates(),
        !s.contains(l),
    ensures
        s.push(l).no_duplicates(),
{
    let t = s.push(l);
    assert forall|i: int, j: int| 0 <= i < t.len() && 0 <= j < t.len() && i != j implies t[i] != t[j] by {
        if i < s.len() && j < s.len() {
            assert(t[i] == s[i] && t[j] == s[j]);
        } else if i == s.len() {
            if t[i] == t[j] {
                assert(s[j] == l);
            }
        } else {
            if t[i] == t[j] {
                assert(s[i] == l);
            }
        }
    }
}

proof fn lemma_distinct_members(ts: Seq<Seq<char>>)
    ensures
        distinct(ts).no_duplicates(),
        forall|x: Seq<char>| distinct(ts).contains(x) <==> ts.contains(x),
    decreases ts.len(),
{
    if ts.len() > 0 {
        let p = ts.drop_last();
        let l = ts.last();
        lemma_distinct_members(p);
        assert(ts =~= p.push(l));
        lemma_push_contains(p, l);
        let d = distinct(p);
        if !d.contains(l) {
            lemma_push_contains(d, l);
            lemma_push_no_dup(d, l);
        }
        assert forall|x: Seq<char>| distinct(ts).contains(x) <==> ts.contains(x) by {
            assert(ts.contains(x) <==> (p.contains(x) || x == l));
            assert(d.contains(x) <==> p.contains(x));
            assert(d.contains(l) <==> p.contains(l));
            if !d.contains(l) {
                assert(distinct(ts) == d.push(l));
                assert(d.push(l).contains(x) <==> (d.contains(x) || x == l));
            } else {
                assert(distinct(ts) == d);
            }
        }
    }
}

proof fn lemma_keep_in(ts: Seq<Seq<char>>, other: Seq<Seq<char>>)
    requires
        ts.no_duplicates(),
    ensures
        keep_in(ts, other).no_duplicates(),
        forall|x: Seq<char>| keep_in(ts, other).contains(x) <==> (ts.contains(x) && other.contains(x)),
        count_in(ts, other) == keep_in(ts, other).len(),
    decreases ts.len(),
{
    if ts.len() > 0 {
        let p = ts.drop_last();
        let l = ts.last();
        assert forall|i: int, j: int| 0 <= i < p.len() && 0 <= j < p.len() && i != j implies p[i]
            != p[j] by {
            assert(p[i] == ts[i] && p[j] == ts[j]);
        }
        assert(!p.contains(l)) by {
            if p.contains(l) {
                let i = choose|i: int| 0 <= i < p.len() && p[i] == l;
                assert(ts[i] == ts[ts.len() - 1]);
            }
        }
        lemma_keep_in(p, other);
        assert(ts =~= p.push(l));
        lemma_push_contains(p, l);
        let k = keep_in(p, other);
        if other.contains(l) {
            lemma_push_contains(k, l);
            lemma_push_no_dup(k, l);
        }
        assert forall|x: Seq<char>| keep_in(ts, other).contains(x) <==> (ts.contains(x) && other.contains(x)) by {
            assert(ts.contains(x) <==> (p.contains(x) || x == l));
            assert(k.contains(x) <==> (p.contains(x) && other.contains(x)));
            if other.contains(l) {
                assert(keep_in(ts, other) == k.push(l));
                assert(k.push(l).contains(x) <==> (k.contains(x) || x == l));
            } else {
                assert(keep_in(ts, other) == k);
            }
        }
    }
}

/// The token overlap is symmetric: swapping the two texts changes neither
/// the number of shared tokens nor the size of the union, so the Jaccard
/// similarity taken from them is symmetric.
pub proof fn law_overlap_symmetric(a: Seq<char>, b: Seq<char>)
    ensures
        token_overlap(a, b) == token_overlap(b, a),
{
    let ta = tokens(a);
    let tb = tokens(b);
    lemma_distinct_members(ta);
    lemma_distinct_members(tb);
    let da = distinct(ta);
    let db = distinct(tb);
    lemma_keep_in(da, tb);
    lemma_keep_in(db, ta);
    let ka = keep_in(da, tb);
    let kb = keep_in(db, ta);
    assert forall|x: Seq<char>| ka.contains(x) <==> kb.contains(x) by {
        assert(ka.contains(x) <==> (da.contains(x) && tb.contains(x)));
        assert(kb.contains(x) <==> (db.contains(x) && ta.contains(x)));
        assert(da.contains(x) <==> ta.contains(x));
        assert(db.contains(x) <==> tb.contains(x));
    }
    assert(ka.to_set() =~= kb.to_set());
    ka.unique_seq_to_set();
    kb.unique_seq_to_set();
    lemma_count_in_le(da, tb);
    lemma_count_in_le(db, ta);
}

} // verus!
