//! Canned responses as loaded from markdown: front matter, tags, title.

use vstd::prelude::*;
use vstd::string::StringExecFns;
use crate::text::{
    chars_of, find, is_ws, split_char_from, find_chars, last_index_of, last_index_of_chars, lines, lines_of, slice_chars,
    split_char, split_char_chars, starts_with, strip_leading_char, strip_leading_char_chars,
    strip_leading_newlines, strip_leading_newlines_chars, string_of, trim, trim_char,
    trim_char_chars, trim_chars, views,
};

verus! {

/// One canned response derived from a markdown file under the corpus.
#[derive(Debug, Clone)]
pub struct CannedResponse {
    /// Stable id (front matter `id` or file stem).
    pub id: String,
    /// Display title (front matter `title`, else first heading, else id).
    pub title: String,
    /// Front matter `prefix`, when present.
    pub prefix: Option<String>,
    /// Front matter `sop`, when present.
    pub sop: Option<String>,
    /// Full markdown text as stored on disk.
    pub body: String,
    /// Text with the front matter stripped, used for search and checks.
    pub content: String,
    /// Path of the source markdown file.
    pub path: String,
    /// Tags from front matter.
    pub tags: Vec<String>,
}

pub open spec fn opt_view(o: Option<String>) -> Option<Seq<char>> {
    match o {
        Some(s) => Some(s@),
        None => None,
    }
}

pub open spec fn string_views(v: Seq<String>) -> Seq<Seq<char>> {
    Seq::new(v.len(), |i: int| v[i]@)
}

pub proof fn lemma_string_views_push(v: Seq<String>, s: String)
    ensures
        string_views(v.push(s)) == string_views(v).push(s@),
{
    assert(string_views(v.push(s)) =~= string_views(v).push(s@));
}

/// Default corpus directory relative to the working tree.
pub fn default_corpus_dir() -> (r: String)
    ensures
        r@ == seq!['c', 'o', 'r', 'p', 'u', 's', '/', 'r', 'e', 's', 'p', 'o', 'n', 's', 'e', 's'],
{
    let v = vec!['c', 'o', 'r', 'p', 'u', 's', '/', 'r', 'e', 's', 'p', 'o', 'n', 's', 'e', 's'];
    string_of(&v)
}

pub open spec fn fm_open() -> Seq<char> {
    seq!['-', '-', '-']
}

pub open spec fn fm_close() -> Seq<char> {
    seq!['\n', '-', '-', '-']
}

/// The front-matter block and the text after it, when `raw` (after any
/// leading byte-order marks) opens with `---` and a later line starts with
/// `---`.
pub open spec fn front_matter_parts(raw: Seq<char>) -> Option<(Seq<char>, Seq<char>)> {
    let t = strip_leading_char(raw, '\u{feff}');
    if !starts_with(t, fm_open()) {
        None
    } else {
        let rest = strip_leading_newlines(t.skip(3));
        match find(rest, fm_close()) {
            Some(end) => Some((rest.take(end), strip_leading_newlines(rest.skip(end + 4)))),
            None => None,
        }
    }
}

/// The `key: value` pair a front-matter line holds: trimmed, not empty,
/// not a `#` comment, split at its first `:`.
pub open spec fn entry_of(line: Seq<char>) -> Option<(Seq<char>, Seq<char>)> {
    let t = trim(line);
    if t.len() == 0 || t[0] == '#' {
        None
    } else {
        match find(t, seq![':']) {
            Some(k) => Some((trim(t.take(k)), trim(t.skip(k + 1)))),
            None => None,
        }
    }
}

/// The entries of a list of front-matter lines, in order.
pub open spec fn entries(ls: Seq<Seq<char>>) -> Seq<(Seq<char>, Seq<char>)>
    decreases ls.len(),
{
    if ls.len() == 0 {
        seq![]
    } else {
        let rest = entries(ls.drop_last());
        match entry_of(ls.last()) {
            Some(e) => rest.push(e),
            None => rest,
        }
    }
}

/// Value of `key`: that of its last entry, as later lines override earlier ones.
pub open spec fn lookup(es: Seq<(Seq<char>, Seq<char>)>, key: Seq<char>) -> Option<Seq<char>>
    decreases es.len(),
{
    if es.len() == 0 {
        None
    } else if es.last().0 == key {
        Some(es.last().1)
    } else {
        lookup(es.drop_last(), key)
    }
}

/// Front-matter entries of a markdown text (none without a closed block).
pub open spec fn front_matter_entries(raw: Seq<char>) -> Seq<(Seq<char>, Seq<char>)> {
    match front_matter_parts(raw) {
        Some((block, _)) => entries(lines(block)),
        None => seq![],
    }
}

/// The text after the front matter (all of `raw` without a closed block).
pub open spec fn front_matter_content(raw: Seq<char>) -> Seq<char> {
    match front_matter_parts(raw) {
        Some((_, body)) => body,
        None => raw,
    }
}

pub open spec fn entry_views(v: Seq<(Vec<char>, Vec<char>)>) -> Seq<(Seq<char>, Seq<char>)> {
    Seq::new(v.len(), |i: int| (v[i].0@, v[i].1@))
}

fn entry_of_chars(line: &Vec<char>) -> (r: Option<(Vec<char>, Vec<char>)>)
    ensures
        match r {
            Some(e) => entry_of(line@) == Some((e.0@, e.1@)),
            None => entry_of(line@) is None,
        },
{
    let t = trim_chars(line);
    if t.len() == 0 || t[0] == '#' {
        return None;
    }
    let colon = vec![':'];
    assert(colon@ =~= seq![':']);
    match find_chars(&t, &colon) {
        Some(k) => {
            let key = trim_chars(&slice_chars(&t, 0, k));
            let value = trim_chars(&slice_chars(&t, k + 1, t.len()));
            assert(t@.take(k as int) =~= t@.subrange(0, k as int));
            assert(t@.skip(k + 1) =~= t@.subrange(k + 1, t@.len() as int));
            Some((key, value))
        },
        None => None,
    }
}

/// Split a markdown text into its front-matter entries and its content.
/// A minimal reading of YAML: `key: value` lines between `---` markers.
pub fn split_front_matter(raw: &Vec<char>) -> (r: (Vec<(Vec<char>, Vec<char>)>, Vec<char>))
    ensures
        entry_views(r.0@) == front_matter_entries(raw@),
        r.1@ == front_matter_content(raw@),
{
    let t = strip_leading_char_chars(raw, '\u{feff}');
    let open = vec!['-', '-', '-'];
    assert(open@ =~= fm_open());
    if !crate::text::starts_with_chars(&t, &open) {
        let empty: Vec<(Vec<char>, Vec<char>)> = Vec::new();
        assert(entry_views(empty@) =~= seq![]);
        assert(raw@.subrange(0, raw@.len() as int) =~= raw@);
        return (empty, slice_chars(raw, 0, raw.len()));
    }
    let rest = strip_leading_newlines_chars(&slice_chars(&t, 3, t.len()));
    assert(t@.skip(3) =~= t@.subrange(3, t@.len() as int));
    let close = vec!['\n', '-', '-', '-'];
    assert(close@ =~= fm_close());
    match find_chars(&rest, &close) {
        Some(end) => {
            assert(crate::text::occurs_at(rest@, close@, end as int));
            assert(close@.len() == 4);
            assert(end + 4 <= rest.len());
            let block = slice_chars(&rest, 0, end);
            let body = strip_leading_newlines_chars(&slice_chars(&rest, end + 4, rest.len()));
            assert(rest@.take(end as int) =~= block@);
            assert(rest@.skip(end + 4) =~= rest@.subrange(end + 4, rest@.len() as int));
            let ls = lines_of(&block);
            let mut out: Vec<(Vec<char>, Vec<char>)> = Vec::new();
            let mut k: usize = 0;
            while k < ls.len()
                invariant
                    k <= ls.len(),
                    views(ls@) == lines(block@),
                    entry_views(out@) == entries(lines(block@).take(k as int)),
                decreases ls.len() - k,
            {
                let ghost prev = entry_views(out@);
                assert(lines(block@).take(k + 1).drop_last() =~= lines(block@).take(k as int));
                assert(lines(block@).take(k + 1).last() == ls@[k as int]@);
                match entry_of_chars(&ls[k]) {
                    Some(e) => {
                        out.push(e);
                        assert(entry_views(out@) =~= prev.push((e.0@, e.1@)));
                    },
                    None => {},
                }
                k += 1;
            }
            assert(lines(block@).take(ls.len() as int) =~= lines(block@));
            (out, body)
        },
        None => {
            let empty: Vec<(Vec<char>, Vec<char>)> = Vec::new();
            assert(entry_views(empty@) =~= seq![]);
            assert(raw@.subrange(0, raw@.len() as int) =~= raw@);
            (empty, slice_chars(raw, 0, raw.len()))
        },
    }
}

fn lookup_chars(es: &Vec<(Vec<char>, Vec<char>)>, key: &Vec<char>) -> (r: Option<Vec<char>>)
    ensures
        match r {
            Some(v) => lookup(entry_views(es@), key@) == Some(v@),
            None => lookup(entry_views(es@), key@) is None,
        },
{
    let mut j = es.len();
    assert(entry_views(es@).take(j as int) =~= entry_views(es@));
    while j > 0
        invariant
            j <= es.len(),
            lookup(entry_views(es@), key@) == lookup(entry_views(es@).take(j as int), key@),
        decreases j,
    {
        assert(entry_views(es@).take(j as int).last() == (es@[j - 1].0@, es@[j - 1].1@));
        if crate::text::occurs_at_exec(&es[j - 1].0, key, 0) && es[j - 1].0.len() == key.len() {
            assert(es@[j - 1].0@ =~= key@);
            return Some(slice_chars(&es[j - 1].1, 0, es[j - 1].1.len()));
        }
        assert(es@[j - 1].0@ != key@) by {
            if es@[j - 1].0@ == key@ {
                assert(es@[j - 1].0@.subrange(0, key@.len() as int) =~= key@);
            }
        }
        assert(entry_views(es@).take(j as int).drop_last() =~= entry_views(es@).take(j - 1));
        j -= 1;
    }
    None
}

} // verus!

verus! {

/// One tag cleaned of spaces and of surrounding double, then single quotes.
pub open spec fn clean_tag(p: Seq<char>) -> Seq<char> {
    trim_char(trim_char(trim(p), '"'), '\'')
}

/// Cleaned pieces, empty ones dropped.
pub open spec fn clean_tags(ps: Seq<Seq<char>>) -> Seq<Seq<char>>
    decreases ps.len(),
{
    if ps.len() == 0 {
        seq![]
    } else {
        let rest = clean_tags(ps.drop_last());
        let t = clean_tag(ps.last());
        if t.len() > 0 {
            rest.push(t)
        } else {
            rest
        }
    }
}

/// Tags of a front-matter value: `[a, "b", 'c']` lists, else the value itself.
pub open spec fn tags_of(s: Seq<char>) -> Seq<Seq<char>> {
    let t = trim(s);
    if t.len() > 0 && t[0] == '[' && t.last() == ']' {
        clean_tags(split_char(t.subrange(1, t.len() - 1), ','))
    } else if t.len() == 0 {
        seq![]
    } else {
        seq![t]
    }
}

pub fn parse_tags(s: &Vec<char>) -> (r: Vec<Vec<char>>)
    ensures
        views(r@) == tags_of(s@),
{
    let t = trim_chars(s);
    if t.len() > 0 && t[0] == '[' && t[t.len() - 1] == ']' {
        assert(t.len() >= 2) by {
            if t.len() == 1 {
                assert(t@.last() == t@[0]);
            }
        }
        let inner = slice_chars(&t, 1, t.len() - 1);
        let pieces = split_char_chars(&inner, ',');
        let mut out: Vec<Vec<char>> = Vec::new();
        let mut k: usize = 0;
        while k < pieces.len()
            invariant
                k <= pieces.len(),
                views(pieces@) == split_char(inner@, ','),
                views(out@) == clean_tags(views(pieces@).take(k as int)),
            decreases pieces.len() - k,
        {
            let ghost prev = views(out@);
            assert(views(pieces@).take(k + 1).drop_last() =~= views(pieces@).take(k as int));
            assert(views(pieces@).take(k + 1).last() == pieces@[k as int]@);
            let c = trim_char_chars(&trim_char_chars(&trim_chars(&pieces[k]), '"'), '\'');
            if c.len() > 0 {
                out.push(c);
                assert(views(out@) =~= prev.push(c@));
            }
            k += 1;
        }
        assert(views(pieces@).take(pieces.len() as int) =~= views(pieces@));
        out
    } else if t.len() == 0 {
        let out: Vec<Vec<char>> = Vec::new();
        assert(views(out@) =~= seq![]);
        out
    } else {
        let mut out: Vec<Vec<char>> = Vec::new();
        out.push(t);
        assert(views(out@) =~= seq![trim(s@)]);
        out
    }
}

/// The title a markdown line gives when it is a `#` heading.
pub open spec fn heading_of(line: Seq<char>) -> Option<Seq<char>> {
    let t = trim(line);
    if t.len() > 0 && t[0] == '#' {
        let title = trim(strip_leading_char(t.skip(1), '#'));
        if title.len() > 0 {
            Some(title)
        } else {
            None
        }
    } else {
        None
    }
}

/// The first non-empty heading among `ls`.
pub open spec fn first_heading_in(ls: Seq<Seq<char>>) -> Option<Seq<char>>
    decreases ls.len(),
{
    if ls.len() == 0 {
        None
    } else {
        match heading_of(ls[0]) {
            Some(h) => Some(h),
            None => first_heading_in(ls.drop_first()),
        }
    }
}

fn heading_of_chars(line: &Vec<char>) -> (r: Option<Vec<char>>)
    ensures
        match r {
            Some(h) => heading_of(line@) == Some(h@),
            None => heading_of(line@) is None,
        },
{
    let t = trim_chars(line);
    if t.len() > 0 && t[0] == '#' {
        let after = slice_chars(&t, 1, t.len());
        assert(t@.skip(1) =~= after@);
        let title = trim_chars(&strip_leading_char_chars(&after, '#'));
        if title.len() > 0 {
            Some(title)
        } else {
            None
        }
    } else {
        None
    }
}

/// First markdown heading of `content` with a non-empty title.
pub fn first_heading(content: &Vec<char>) -> (r: Option<Vec<char>>)
    ensures
        match r {
            Some(h) => first_heading_in(lines(content@)) == Some(h@),
            None => first_heading_in(lines(content@)) is None,
        },
{
    let ls = lines_of(content);
    let mut k: usize = 0;
    assert(views(ls@).skip(0) =~= views(ls@));
    while k < ls.len()
        invariant
            k <= ls.len(),
            views(ls@) == lines(content@),
            first_heading_in(lines(content@)) == first_heading_in(views(ls@).skip(k as int)),
        decreases ls.len() - k,
    {
        assert(views(ls@).skip(k as int)[0] == ls@[k as int]@);
        assert(views(ls@).skip(k as int).drop_first() =~= views(ls@).skip(k + 1));
        match heading_of_chars(&ls[k]) {
            Some(h) => {
                return Some(h);
            },
            None => {},
        }
        k += 1;
    }
    None
}

/// Path components of `pieces`: non-empty and not `.`.
pub open spec fn components(pieces: Seq<Seq<char>>) -> Seq<Seq<char>>
    decreases pieces.len(),
{
    if pieces.len() == 0 {
        seq![]
    } else {
        let rest = components(pieces.drop_last());
        let p = pieces.last();
        if p.len() == 0 || p == seq!['.'] {
            rest
        } else {
            rest.push(p)
        }
    }
}

/// Final component of a `/`-separated path (`Path::file_name`): none for an
/// empty path, the root, or a path ending in `..`.
pub open spec fn file_name(path: Seq<char>) -> Option<Seq<char>> {
    let cs = components(split_char(path, '/'));
    if cs.len() == 0 || cs.last() == seq!['.', '.'] {
        None
    } else {
        Some(cs.last())
    }
}

/// A file name without its extension (`Path::file_stem`): up to the last
/// `.`, unless that `.` is the first character.
pub open spec fn stem_of(name: Seq<char>) -> Seq<char> {
    match last_index_of(name, '.') {
        Some(k) => if k == 0 {
            name
        } else {
            name.take(k)
        },
        None => name,
    }
}

pub open spec fn file_stem(path: Seq<char>) -> Option<Seq<char>> {
    match file_name(path) {
        Some(n) => Some(stem_of(n)),
        None => None,
    }
}

/// The final component of a path (see [`file_name`]).
pub fn file_name_chars(path: &Vec<char>) -> (r: Option<Vec<char>>)
    ensures
        match r {
            Some(s) => file_name(path@) == Some(s@),
            None => file_name(path@) is None,
        },
{
    let pieces = split_char_chars(path, '/');
    let mut comps: Vec<Vec<char>> = Vec::new();
    let mut k: usize = 0;
    while k < pieces.len()
        invariant
            k <= pieces.len(),
            views(pieces@) == split_char(path@, '/'),
            views(comps@) == components(views(pieces@).take(k as int)),
        decreases pieces.len() - k,
    {
        let ghost prev = views(comps@);
        assert(views(pieces@).take(k + 1).drop_last() =~= views(pieces@).take(k as int));
        assert(views(pieces@).take(k + 1).last() == pieces@[k as int]@);
        let p = &pieces[k];
        let is_dot = p.len() == 1 && p[0] == '.';
        assert(is_dot == (p@ == seq!['.'])) by {
            if p@.len() == 1 && p@[0] == '.' {
                assert(p@ =~= seq!['.']);
            }
        }
        if !(p.len() == 0 || is_dot) {
            comps.push(slice_chars(p, 0, p.len()));
            assert(p@.subrange(0, p@.len() as int) =~= p@);
            assert(views(comps@) =~= prev.push(p@));
        }
        k += 1;
    }
    assert(views(pieces@).take(pieces.len() as int) =~= views(pieces@));
    if comps.len() == 0 {
        return None;
    }
    let last = &comps[comps.len() - 1];
    assert(views(comps@).last() == last@);
    let is_dotdot = last.len() == 2 && last[0] == '.' && last[1] == '.';
    assert(is_dotdot == (last@ == seq!['.', '.'])) by {
        if last@.len() == 2 && last@[0] == '.' && last@[1] == '.' {
            assert(last@ =~= seq!['.', '.']);
        }
    }
    if is_dotdot {
        return None;
    }
    Some(slice_chars(last, 0, last.len()))
}

pub fn file_stem_chars(path: &Vec<char>) -> (r: Option<Vec<char>>)
    ensures
        match r {
            Some(s) => file_stem(path@) == Some(s@),
            None => file_stem(path@) is None,
        },
{
    let last = match file_name_chars(path) {
        Some(n) => n,
        None => return None,
    };
    proof {
        crate::text::lemma_last_index_of(last@, '.');
    }
    match last_index_of_chars(&last, '.') {
        Some(k) => {
            if k == 0 {
                Some(last)
            } else {
                Some(slice_chars(&last, 0, k))
            }
        },
        None => Some(last),
    }
}

/// The extension of a file name (`Path::extension`): after its last `.`,
/// unless that `.` is the first character.
pub open spec fn extension_of(name: Seq<char>) -> Option<Seq<char>> {
    match last_index_of(name, '.') {
        Some(k) => if k == 0 {
            None
        } else {
            Some(name.skip(k + 1))
        },
        None => None,
    }
}

/// A path whose file name has the extension `md`.
pub open spec fn markdown_path(path: Seq<char>) -> bool {
    match file_name(path) {
        Some(n) => extension_of(n) == Some(seq!['m', 'd']),
        None => false,
    }
}

/// Whether `path` names a markdown file (extension `md`).
pub fn is_markdown_path(path: &str) -> (r: bool)
    ensures
        r == markdown_path(path@),
{
    let name = match file_name_chars(&chars_of(path)) {
        Some(n) => n,
        None => return false,
    };
    proof {
        crate::text::lemma_last_index_of(name@, '.');
    }
    match last_index_of_chars(&name, '.') {
        Some(k) => {
            if k == 0 {
                false
            } else {
                assert(k < name.len());
                let ext = slice_chars(&name, k + 1, name.len());
                assert(ext@ =~= name@.skip(k + 1));
                let same = ext.len() == 2 && ext[0] == 'm' && ext[1] == 'd';
                assert(same == (ext@ == seq!['m', 'd'])) by {
                    if ext@.len() == 2 && ext@[0] == 'm' && ext@[1] == 'd' {
                        assert(ext@ =~= seq!['m', 'd']);
                    }
                }
                same
            }
        },
        None => false,
    }
}

} // verus!

verus! {

pub open spec fn key_id() -> Seq<char> {
    seq!['i', 'd']
}

pub open spec fn key_title() -> Seq<char> {
    seq!['t', 'i', 't', 'l', 'e']
}

pub open spec fn key_tags() -> Seq<char> {
    seq!['t', 'a', 'g', 's']
}

pub open spec fn key_prefix() -> Seq<char> {
    seq!['p', 'r', 'e', 'f', 'i', 'x']
}

pub open spec fn key_sop() -> Seq<char> {
    seq!['s', 'o', 'p']
}

pub open spec fn unknown_stem() -> Seq<char> {
    seq!['u', 'n', 'k', 'n', 'o', 'w', 'n']
}

/// Front-matter value of `key` in a markdown text.
pub open spec fn fm_value(raw: Seq<char>, key: Seq<char>) -> Option<Seq<char>> {
    lookup(front_matter_entries(raw), key)
}

/// Id of a response: front matter `id`, else the file stem, else `unknown`.
pub open spec fn response_id(path: Seq<char>, raw: Seq<char>) -> Seq<char> {
    match fm_value(raw, key_id()) {
        Some(v) => v,
        None => match file_stem(path) {
            Some(s) => s,
            None => unknown_stem(),
        },
    }
}

/// Title of a response: front matter `title`, else the first heading of the
/// content, else the id.
pub open spec fn response_title(path: Seq<char>, raw: Seq<char>) -> Seq<char> {
    match fm_value(raw, key_title()) {
        Some(t) => t,
        None => match first_heading_in(lines(front_matter_content(raw))) {
            Some(h) => h,
            None => response_id(path, raw),
        },
    }
}

pub open spec fn response_tags(raw: Seq<char>) -> Seq<Seq<char>> {
    match fm_value(raw, key_tags()) {
        Some(v) => tags_of(v),
        None => seq![],
    }
}

/// Whether `r` is the response that the markdown text `raw` at `path` holds.
pub open spec fn parsed_from(r: CannedResponse, path: Seq<char>, raw: Seq<char>) -> bool {
    &&& r.id@ == response_id(path, raw)
    &&& r.title@ == response_title(path, raw)
    &&& opt_view(r.prefix) == fm_value(raw, key_prefix())
    &&& opt_view(r.sop) == fm_value(raw, key_sop())
    &&& r.body@ == raw
    &&& r.content@ == front_matter_content(raw)
    &&& r.path@ == path
    &&& string_views(r.tags@) == response_tags(raw)
}

fn opt_string(o: Option<Vec<char>>) -> (r: Option<String>)
    ensures
        opt_view(r) == match o {
            Some(v) => Some(v@),
            None => None::<Seq<char>>,
        },
{
    match o {
        Some(v) => Some(string_of(&v)),
        None => None,
    }
}

/// Build the response that a markdown text read from `path` holds.
pub fn parse_response(path: &str, raw: &str) -> (r: CannedResponse)
    ensures
        parsed_from(r, path@, raw@),
{
    let raw_v = chars_of(raw);
    let path_v = chars_of(path);
    let (es, content) = split_front_matter(&raw_v);
    let k_id = vec!['i', 'd'];
    let k_title = vec!['t', 'i', 't', 'l', 'e'];
    let k_tags = vec!['t', 'a', 'g', 's'];
    let k_prefix = vec!['p', 'r', 'e', 'f', 'i', 'x'];
    let k_sop = vec!['s', 'o', 'p'];
    assert(k_id@ =~= key_id());
    assert(k_title@ =~= key_title());
    assert(k_tags@ =~= key_tags());
    assert(k_prefix@ =~= key_prefix());
    assert(k_sop@ =~= key_sop());
    let id: Vec<char> = match lookup_chars(&es, &k_id) {
        Some(v) => v,
        None => match file_stem_chars(&path_v) {
            Some(s) => s,
            None => {
                let u = vec!['u', 'n', 'k', 'n', 'o', 'w', 'n'];
                assert(u@ =~= unknown_stem());
                u
            },
        },
    };
    let title: Vec<char> = match lookup_chars(&es, &k_title) {
        Some(t) => t,
        None => match first_heading(&content) {
            Some(h) => h,
            None => slice_chars(&id, 0, id.len()),
        },
    };
    assert(id@.subrange(0, id@.len() as int) =~= id@);
    let tag_chars: Vec<Vec<char>> = match lookup_chars(&es, &k_tags) {
        Some(v) => parse_tags(&v),
        None => {
            let e: Vec<Vec<char>> = Vec::new();
            assert(views(e@) =~= seq![]);
            e
        },
    };
    let mut tags: Vec<String> = Vec::new();
    let mut k: usize = 0;
    while k < tag_chars.len()
        invariant
            k <= tag_chars.len(),
            string_views(tags@) == views(tag_chars@).take(k as int),
        decreases tag_chars.len() - k,
    {
        let s = string_of(&tag_chars[k]);
        let ghost prev = tags@;
        tags.push(s);
        assert(tags@ =~= prev.push(s));
        assert(string_views(prev).len() == prev.len());
        assert(views(tag_chars@).take(k as int).len() == k);
        assert(prev.len() == k);
        assert(tags@.len() == k + 1);
        assert(tags@[k as int]@ == tag_chars@[k as int]@);
        assert(string_views(tags@) =~= views(tag_chars@).take(k + 1));
        k += 1;
    }
    assert(views(tag_chars@).take(tag_chars.len() as int) =~= views(tag_chars@));
    let prefix = opt_string(lookup_chars(&es, &k_prefix));
    let sop = opt_string(lookup_chars(&es, &k_sop));
    CannedResponse {
        id: string_of(&id),
        title: string_of(&title),
        prefix,
        sop,
        body: string_of(&raw_v),
        content: string_of(&content),
        path: string_of(&path_v),
        tags,
    }
}

} // verus!

verus! {

/// Code-point order of strings, which is the byte order of their UTF-8
/// encodings (`str::cmp`): `a` comes strictly before `b`.
pub open spec fn str_less(a: Seq<char>, b: Seq<char>) -> bool
    decreases a.len(),
{
    if b.len() == 0 {
        false
    } else if a.len() == 0 {
        true
    } else if a[0] != b[0] {
        (a[0] as u32) < (b[0] as u32)
    } else {
        str_less(a.drop_first(), b.drop_first())
    }
}

/// `x` placed after every response whose id does not come after its id.
pub open spec fn insert_by_id(s: Seq<CannedResponse>, x: CannedResponse) -> Seq<CannedResponse>
    decreases s.len(),
{
    if s.len() == 0 {
        seq![x]
    } else if str_less(x.id@, s.last().id@) {
        insert_by_id(s.drop_last(), x).push(s.last())
    } else {
        s.push(x)
    }
}

/// The responses ordered by id, responses with equal ids kept in their
/// order (a stable sort).
pub open spec fn sorted_by_id(s: Seq<CannedResponse>) -> Seq<CannedResponse>
    decreases s.len(),
{
    if s.len() == 0 {
        seq![]
    } else {
        insert_by_id(sorted_by_id(s.drop_last()), s.last())
    }
}

fn id_less(a: &String, b: &String) -> (r: bool)
    ensures
        r == str_less(a@, b@),
{
    let x = chars_of(a.as_str());
    let y = chars_of(b.as_str());
    let mut k: usize = 0;
    assert(x@.skip(0) =~= x@);
    assert(y@.skip(0) =~= y@);
    while k < x.len() && k < y.len() && x[k] == y[k]
        invariant
            k <= x.len(),
            k <= y.len(),
            x@ == a@,
            y@ == b@,
            str_less(a@, b@) == str_less(x@.skip(k as int), y@.skip(k as int)),
        decreases x.len() - k,
    {
        assert(x@.skip(k as int).drop_first() =~= x@.skip(k + 1));
        assert(y@.skip(k as int).drop_first() =~= y@.skip(k + 1));
        k += 1;
    }
    if k >= y.len() {
        assert(y@.skip(k as int).len() == 0);
        false
    } else if k >= x.len() {
        assert(x@.skip(k as int).len() == 0);
        true
    } else {
        assert(x@.skip(k as int)[0] == x@[k as int]);
        assert(y@.skip(k as int)[0] == y@[k as int]);
        (x[k] as u32) < (y[k] as u32)
    }
}

proof fn lemma_insert_at(s: Seq<CannedResponse>, x: CannedResponse, j: int)
    requires
        0 <= j <= s.len(),
        forall|m: int| j <= m < s.len() ==> str_less(x.id@, #[trigger] s[m].id@),
        j == 0 || !str_less(x.id@, s[j - 1].id@),
    ensures
        insert_by_id(s, x) == s.take(j).push(x) + s.skip(j),
    decreases s.len(),
{
    if s.len() == 0 {
        assert(s.take(j).push(x) + s.skip(j) =~= seq![x]);
    } else if j == s.len() {
        assert(s.take(j).push(x) + s.skip(j) =~= s.push(x));
    } else {
        assert(str_less(x.id@, s.last().id@));
        let t = s.drop_last();
        assert forall|m: int| j <= m < t.len() implies str_less(x.id@, #[trigger] t[m].id@) by {
            assert(t[m] == s[m]);
        }
        lemma_insert_at(t, x, j);
        assert(t.take(j).push(x) + t.skip(j) + seq![s.last()] =~= s.take(j).push(x) + s.skip(j));
    }
}

/// The responses ordered by id; equal ids keep their order.
pub fn sort_by_id(docs: Vec<CannedResponse>) -> (r: Vec<CannedResponse>)
    ensures
        r@ == sorted_by_id(docs@),
{
    let ghost orig = docs@;
    let mut rest = docs;
    let n = rest.len();
    let mut out: Vec<CannedResponse> = Vec::new();
    let mut k: usize = 0;
    while rest.len() > 0
        invariant
            k <= orig.len() == n,
            rest@ == orig.skip(k as int),
            out@ == sorted_by_id(orig.take(k as int)),
        decreases rest.len(),
    {
        assert(orig.skip(k as int).len() == orig.len() - k);
        assert(k < orig.len());
        let d = rest.remove(0);
        assert(d == orig[k as int]);
        let mut pos = out.len();
        while pos > 0 && id_less(&d.id, &out[pos - 1].id)
            invariant
                pos <= out.len(),
                forall|m: int| pos <= m < out@.len() ==> str_less(d.id@, #[trigger] out@[m].id@),
            decreases pos,
        {
            pos -= 1;
        }
        proof {
            lemma_insert_at(out@, d, pos as int);
            assert(orig.take(k + 1).drop_last() =~= orig.take(k as int));
            assert(orig.take(k + 1).last() == d);
        }
        let ghost before = out@;
        out.insert(pos, d);
        assert(out@ =~= before.take(pos as int).push(d) + before.skip(pos as int));
        assert(rest@ =~= orig.skip(k + 1));
        k += 1;
    }
    assert(orig.take(k as int) =~= orig);
    out
}

} // verus!

verus! {

proof fn lemma_str_less_irreflexive(a: Seq<char>)
    ensures
        !str_less(a, a),
    decreases a.len(),
{
    if a.len() > 0 {
        lemma_str_less_irreflexive(a.drop_first());
    }
}

proof fn lemma_str_less_transitive(a: Seq<char>, b: Seq<char>, c: Seq<char>)
    requires
        str_less(a, b),
        str_less(b, c),
    ensures
        str_less(a, c),
    decreases a.len(),
{
    if a.len() > 0 && b.len() > 0 && c.len() > 0 && a[0] == b[0] && b[0] == c[0] {
        lemma_str_less_transitive(a.drop_first(), b.drop_first(), c.drop_first());
    }
}

proof fn lemma_str_less_total(a: Seq<char>, b: Seq<char>)
    requires
        a != b,
    ensures
        str_less(a, b) || str_less(b, a),
    decreases a.len(),
{
    if a.len() > 0 && b.len() > 0 && a[0] == b[0] {
        if a.drop_first() == b.drop_first() {
            assert(a =~= seq![a[0]] + a.drop_first());
            assert(b =~= seq![b[0]] + b.drop_first());
        }
        lemma_str_less_total(a.drop_first(), b.drop_first());
    } else if a.len() > 0 && b.len() > 0 {
        assert((a[0] as u32) != (b[0] as u32)) by {
            vstd::utf8::char_u32_cast(a[0], a[0] as u32);
            vstd::utf8::char_u32_cast(b[0], b[0] as u32);
        }
    } else if a.len() == 0 && b.len() == 0 {
        assert(a =~= b);
    }
}

/// "Not after" is transitive.
proof fn lemma_not_after_transitive(a: Seq<char>, b: Seq<char>, c: Seq<char>)
    requires
        !str_less(b, a),
        !str_less(c, b),
    ensures
        !str_less(c, a),
{
    if str_less(c, a) {
        if a == b {
        } else {
            lemma_str_less_total(a, b);
            lemma_str_less_transitive(c, a, b);
        }
    }
}

/// Ids never decrease along `s`.
pub open spec fn ids_ordered(s: Seq<CannedResponse>) -> bool {
    forall|i: int, j: int| 0 <= i < j < s.len() ==> !str_less(#[trigger] s[j].id@, #[trigger] s[i].id@)
}

proof fn lemma_insert_by_id(s: Seq<CannedResponse>, x: CannedResponse)
    requires
        ids_ordered(s),
    ensures
        ids_ordered(insert_by_id(s, x)),
        insert_by_id(s, x).to_multiset() == s.to_multiset().insert(x),
        insert_by_id(s, x).len() == s.len() + 1,
    decreases s.len(),
{
    broadcast use vstd::seq_lib::group_to_multiset_ensures;

    if s.len() == 0 {
        assert(seq![x] =~= Seq::<CannedResponse>::empty().push(x));
    } else if str_less(x.id@, s.last().id@) {
        let t = s.drop_last();
        let l = s.last();
        lemma_insert_by_id(t, x);
        let u = insert_by_id(t, x);
        assert(s =~= t.push(l));
        assert forall|e: CannedResponse| u.contains(e) implies !str_less(l.id@, e.id@) by {
            assert(u.to_multiset().count(e) > 0);
            if e == x {
                if str_less(l.id@, x.id@) {
                    lemma_str_less_transitive(x.id@, l.id@, x.id@);
                    lemma_str_less_irreflexive(x.id@);
                }
            } else {
                assert(t.to_multiset().count(e) > 0);
                let k = choose|k: int| 0 <= k < t.len() && t[k] == e;
                assert(s[k] == e);
                assert(s[s.len() - 1] == l);
            }
        }
        let r = u.push(l);
        assert forall|i: int, j: int| 0 <= i < j < r.len() implies !str_less(#[trigger] r[j].id@, #[trigger] r[i].id@) by {
            if j == r.len() - 1 {
                assert(u.contains(r[i]));
            } else {
                assert(r[i] == u[i] && r[j] == u[j]);
            }
        }
    } else {
        let r = s.push(x);
        assert forall|i: int, j: int| 0 <= i < j < r.len() implies !str_less(#[trigger] r[j].id@, #[trigger] r[i].id@) by {
            if j == r.len() - 1 {
                if i < s.len() - 1 {
                    assert(!str_less(s[s.len() - 1].id@, s[i].id@));
                    lemma_not_after_transitive(s[i].id@, s[s.len() - 1].id@, x.id@);
                }
            } else {
                assert(r[i] == s[i] && r[j] == s[j]);
            }
        }
    }
}

/// Sorting by id yields the same responses with ids in order.
pub proof fn law_sort_by_id(s: Seq<CannedResponse>)
    ensures
        ids_ordered(sorted_by_id(s)),
        sorted_by_id(s).to_multiset() == s.to_multiset(),
    decreases s.len(),
{
    broadcast use vstd::seq_lib::group_to_multiset_ensures;

    if s.len() > 0 {
        law_sort_by_id(s.drop_last());
        lemma_insert_by_id(sorted_by_id(s.drop_last()), s.last());
        assert(s =~= s.drop_last().push(s.last()));
    } else {
        assert(s.to_multiset() =~= vstd::multiset::Multiset::empty());
        assert(sorted_by_id(s).to_multiset() =~= vstd::multiset::Multiset::empty());
    }
}

} // verus!

verus! {

/// Every line break of `b` is followed, within `b`, by something other than
/// `-`: no front-matter closing starts inside `b`.
pub open spec fn no_fence_break(b: Seq<char>) -> bool {
    forall|j: int| 0 <= j < b.len() && #[trigger] b[j] == '\n' ==> j + 1 < b.len() && b[j + 1] != '-'
}

pub proof fn lemma_no_fence_break_join(x: Seq<char>, y: Seq<char>)
    requires
        !x.contains('\n'),
        y.len() > 0,
        y[0] != '-',
        no_fence_break(y),
    ensures
        no_fence_break(x + seq!['\n'] + y),
{
    let s = x + seq!['\n'] + y;
    assert forall|j: int| 0 <= j < s.len() && #[trigger] s[j] == '\n' implies j + 1 < s.len() && s[j + 1] != '-' by {
        if j < x.len() {
            assert(s[j] == x[j]);
            assert(x.contains('\n'));
        } else if j == x.len() {
            assert(s[j + 1] == y[0]);
        } else {
            assert(s[j] == y[j - x.len() - 1]);
            assert(s[j + 1] == y[j - x.len()]);
        }
    }
}

pub proof fn lemma_no_fence_break_line(x: Seq<char>)
    requires
        !x.contains('\n'),
    ensures
        no_fence_break(x),
{
    assert forall|j: int| 0 <= j < x.len() && #[trigger] x[j] == '\n' implies j + 1 < x.len() && x[j + 1] != '-' by {
        assert(x.contains('\n'));
    }
}

/// A text that opens with `---`, a line break, a block without a closing
/// inside it, a closing `---` line and a blank line splits into that block
/// and the rest.
pub proof fn lemma_front_matter_parts(b: Seq<char>, c: Seq<char>)
    requires
        b.len() > 0,
        b[0] != '\r' && b[0] != '\n',
        no_fence_break(b),
        c.len() > 0,
        c[0] != '\r' && c[0] != '\n',
    ensures
        front_matter_parts(seq!['-', '-', '-', '\n'] + b + seq!['\n', '-', '-', '-', '\n', '\n'] + c)
            == Some((b, c)),
{
    let raw = seq!['-', '-', '-', '\n'] + b + seq!['\n', '-', '-', '-', '\n', '\n'] + c;
    assert(strip_leading_char(raw, '\u{feff}') == raw);
    assert(raw.subrange(0, 3) =~= fm_open());
    let rest0 = raw.skip(3);
    let rest = b + seq!['\n', '-', '-', '-', '\n', '\n'] + c;
    assert(rest0 =~= seq!['\n'] + rest);
    assert(rest0.drop_first() =~= rest);
    assert(strip_leading_newlines(rest) == rest);
    assert(strip_leading_newlines(rest0) == rest);
    let n = b.len() as int;
    assert(rest.subrange(n, n + 4) =~= fm_close());
    assert forall|j: int| 0 <= j < n implies !crate::text::occurs_at(rest, fm_close(), j) by {
        if crate::text::occurs_at(rest, fm_close(), j) {
            assert(rest.subrange(j, j + 4)[0] == rest[j]);
            assert(rest.subrange(j, j + 4)[1] == rest[j + 1]);
            assert(rest[j] == b[j]);
            assert(j + 1 < n);
            assert(rest[j + 1] == b[j + 1]);
        }
    }
    crate::text::lemma_find_at(rest, fm_close(), n);
    assert(rest.take(n) =~= b);
    let after = rest.skip(n + 4);
    assert(after =~= seq!['\n', '\n'] + c);
    assert(after.drop_first().drop_first() =~= c);
    assert(strip_leading_newlines(c) == c);
    assert(strip_leading_newlines(after.drop_first()) == c);
}

} // verus!

verus! {

/// The front-matter line `key: v` holds the entry `(key, v)`.
pub proof fn lemma_entry_line(key: Seq<char>, v: Seq<char>)
    requires
        key.len() > 0,
        !is_ws(key[0]),
        !is_ws(key.last()),
        key[0] != '#',
        !key.contains(':'),
        v.len() > 0,
        !is_ws(v[0]),
        !is_ws(v.last()),
    ensures
        entry_of(key + seq![':', ' '] + v) == Some((key, v)),
{
    let line = key + seq![':', ' '] + v;
    assert(line[0] == key[0]);
    assert(line.last() == v.last());
    crate::text::lemma_trim_id(line);
    let n = key.len() as int;
    assert(line.subrange(n, n + 1) =~= seq![':']);
    assert forall|j: int| 0 <= j < n implies !crate::text::occurs_at(line, seq![':'], j) by {
        if crate::text::occurs_at(line, seq![':'], j) {
            assert(line.subrange(j, j + 1)[0] == line[j]);
            assert(line[j] == key[j]);
            assert(key.contains(':'));
        }
    }
    crate::text::lemma_find_at(line, seq![':'], n);
    assert(line.take(n) =~= key);
    crate::text::lemma_trim_id(key);
    let tail = line.skip(n + 1);
    assert(tail =~= seq![' '] + v);
    assert(tail.drop_first() =~= v);
    assert(crate::text::trim_start(tail) == crate::text::trim_start(v));
    crate::text::lemma_trim_id(v);
}

proof fn lemma_split_last(s: Seq<char>, c: char, i: int, q: int)
    requires
        0 <= i <= q <= s.len(),
        q == i || s[q - 1] == c,
        forall|m: int| q <= m < s.len() ==> s[m] != c,
    ensures
        split_char_from(s, c, i).len() > 0,
        split_char_from(s, c, i).last() == s.subrange(q, s.len() as int),
    decreases s.len() - i,
{
    crate::text::lemma_char_from(s, c, i);
    let e = crate::text::char_from(s, c, i);
    if e < s.len() {
        assert(e < q);
        lemma_split_last(s, c, e + 1, q);
    } else {
        if q > i {
            assert(s[q - 1] != c);
        }
    }
}

/// The file stem of `stem.md` placed under any directory is `stem`.
pub proof fn lemma_file_stem_join(dir: Seq<char>, stem: Seq<char>)
    requires
        stem.len() > 0,
        stem[0] != '/',
        !stem.contains('/'),
        !stem.contains('.'),
    ensures
        file_stem(crate::text::join_path(dir, stem + seq!['.', 'm', 'd'])) == Some(stem),
{
    let name = stem + seq!['.', 'm', 'd'];
    let s = crate::text::join_path(dir, name);
    assert(name[0] == stem[0]);
    let p: Seq<char> = if dir.len() == 0 {
        seq![]
    } else if dir.last() == '/' {
        dir
    } else {
        dir + seq!['/']
    };
    assert(s =~= p + name);
    let q = p.len() as int;
    assert forall|m: int| q <= m < s.len() implies s[m] != '/' by {
        assert(s[m] == name[m - q]);
        if m - q < stem.len() {
            assert(name[m - q] == stem[m - q]);
            if stem[m - q] == '/' {
                assert(stem.contains('/'));
            }
        }
    }
    if q > 0 {
        assert(s[q - 1] == p[q - 1]);
    }
    lemma_split_last(s, '/', 0, q);
    assert(s.subrange(q, s.len() as int) =~= name);
    let ps = split_char(s, '/');
    assert(ps.last() == name);
    assert(name.len() >= 4);
    assert(name != seq!['.']);
    assert(components(ps) == components(ps.drop_last()).push(name));
    assert(name != seq!['.', '.']);
    assert(file_name(s) == Some(name));
    let k = stem.len() as int;
    let n1 = name.drop_last();
    let n2 = n1.drop_last();
    assert(n2 =~= stem + seq!['.']);
    assert(n2.last() == '.');
    assert(last_index_of(n2, '.') == Some(k));
    assert(n1.last() == 'm');
    assert(last_index_of(n1, '.') == Some(k));
    assert(name.last() == 'd');
    assert(last_index_of(name, '.') == Some(k));
    assert(name.take(k) =~= stem);
    assert(k != 0);
}

} // verus!

verus! {

/// The inventory line of a response: id, title, `sop=` with the sop (`-`
/// when absent) and path, separated by tabs.
pub open spec fn list_line_text(doc: CannedResponse) -> Seq<char> {
    doc.id@ + "\t"@ + doc.title@ + "\tsop="@ + match doc.sop {
        Some(s) => s@,
        None => "-"@,
    } + "\t"@ + doc.path@
}

pub fn list_line(doc: &CannedResponse) -> (r: String)
    ensures
        r@ == list_line_text(*doc),
{
    let mut s = doc.id.clone();
    s.append("\t");
    s.append(doc.title.as_str());
    s.append("\tsop=");
    match &doc.sop {
        Some(v) => s.append(v.as_str()),
        None => s.append("-"),
    }
    s.append("\t");
    s.append(doc.path.as_str());
    s
}

} // verus!

verus! {

proof fn lemma_first_heading_at(ls: Seq<Seq<char>>, i: int)
    requires
        0 <= i < ls.len(),
        heading_of(ls[i]) is Some,
        forall|j: int| 0 <= j < i ==> heading_of(#[trigger] ls[j]) is None,
    ensures
        first_heading_in(ls) == heading_of(ls[i]),
    decreases i,
{
    if i > 0 {
        let d = ls.drop_first();
        assert(heading_of(ls[0]) is None);
        assert forall|j: int| 0 <= j < i - 1 implies heading_of(#[trigger] d[j]) is None by {
            assert(d[j] == ls[j + 1]);
        }
        assert(d[i - 1] == ls[i]);
        lemma_first_heading_at(d, i - 1);
    }
}

proof fn lemma_no_heading(ls: Seq<Seq<char>>)
    requires
        forall|j: int| 0 <= j < ls.len() ==> heading_of(#[trigger] ls[j]) is None,
    ensures
        first_heading_in(ls) is None,
    decreases ls.len(),
{
    if ls.len() > 0 {
        let d = ls.drop_first();
        assert(heading_of(ls[0]) is None);
        assert forall|j: int| 0 <= j < d.len() implies heading_of(#[trigger] d[j]) is None by {
            assert(d[j] == ls[j + 1]);
        }
        lemma_no_heading(d);
    }
}

/// Without a front-matter title, the title is the text of the first line of
/// the content that is a non-empty heading: headings on later lines never
/// replace it. With no heading line at all, the title is the id.
pub proof fn law_title_is_first_heading(path: Seq<char>, raw: Seq<char>)
    requires
        fm_value(raw, key_title()) is None,
    ensures
        ({
            let ls = lines(front_matter_content(raw));
            &&& forall|i: int|
                0 <= i < ls.len() && heading_of(ls[i]) is Some && (forall|j: int|
                    0 <= j < i ==> heading_of(#[trigger] ls[j]) is None) ==> response_title(path, raw)
                    == heading_of(#[trigger] ls[i])->0
            &&& (forall|j: int| 0 <= j < ls.len() ==> heading_of(#[trigger] ls[j]) is None)
                ==> response_title(path, raw) == response_id(path, raw)
        }),
{
    let ls = lines(front_matter_content(raw));
    assert forall|i: int|
        0 <= i < ls.len() && heading_of(ls[i]) is Some && (forall|j: int|
            0 <= j < i ==> heading_of(#[trigger] ls[j]) is None) implies response_title(path, raw)
        == heading_of(#[trigger] ls[i])->0 by {
        lemma_first_heading_at(ls, i);
    }
    if forall|j: int| 0 <= j < ls.len() ==> heading_of(#[trigger] ls[j]) is None {
        lemma_no_heading(ls);
    }
}

} // verus!

verus! {

/// `n` copies of `c`.
pub open spec fn repeat_char(c: char, n: nat) -> Seq<char> {
    Seq::new(n, |_i: int| c)
}

proof fn lemma_trim_start_ws_prefix(w: Seq<char>, x: Seq<char>)
    requires
        forall|i: int| 0 <= i < w.len() ==> is_ws(#[trigger] w[i]),
        x.len() > 0 && !is_ws(x[0]),
    ensures
        crate::text::trim_start(w + x) == x,
    decreases w.len(),
{
    if w.len() > 0 {
        assert((w + x)[0] == w[0]);
        assert((w + x).drop_first() =~= w.drop_first() + x);
        lemma_trim_start_ws_prefix(w.drop_first(), x);
    } else {
        assert(w + x =~= x);
    }
}

proof fn lemma_trim_end_ws_suffix(x: Seq<char>, w: Seq<char>)
    requires
        forall|i: int| 0 <= i < w.len() ==> is_ws(#[trigger] w[i]),
        x.len() > 0 && !is_ws(x.last()),
    ensures
        crate::text::trim_end(x + w) == x,
    decreases w.len(),
{
    if w.len() > 0 {
        assert((x + w).last() == w.last());
        assert((x + w).drop_last() =~= x + w.drop_last());
        lemma_trim_end_ws_suffix(x, w.drop_last());
    } else {
        assert(x + w =~= x);
    }
}

proof fn lemma_strip_leading_repeat(c: char, n: nat, z: Seq<char>)
    requires
        z.len() > 0 && z[0] != c,
    ensures
        strip_leading_char(repeat_char(c, n) + z, c) == z,
    decreases n,
{
    if n > 0 {
        assert((repeat_char(c, n) + z)[0] == c);
        assert((repeat_char(c, n) + z).drop_first() =~= repeat_char(c, (n - 1) as nat) + z);
        lemma_strip_leading_repeat(c, (n - 1) as nat, z);
    } else {
        assert(repeat_char(c, n) + z =~= z);
    }
}

proof fn lemma_strip_trailing_repeat(c: char, z: Seq<char>, m: nat)
    requires
        z.len() > 0 && z.last() != c,
    ensures
        crate::text::strip_trailing_char(z + repeat_char(c, m), c) == z,
    decreases m,
{
    if m > 0 {
        assert((z + repeat_char(c, m)).last() == c);
        assert((z + repeat_char(c, m)).drop_last() =~= z + repeat_char(c, (m - 1) as nat));
        lemma_strip_trailing_repeat(c, z, (m - 1) as nat);
    } else {
        assert(z + repeat_char(c, m) =~= z);
    }
}

/// A tag written inside quotes (any number of `"` or of `'` on either
/// side) and surrounded by whitespace is read without them: the cleaned
/// tag is the text between the quotes.
pub proof fn law_tag_quotes_removed(core: Seq<char>, q: char, n: nat, m: nat, w1: Seq<char>, w2: Seq<char>)
    requires
        q == '"' || q == '\'',
        core.len() > 0,
        core[0] != '"' && core[0] != '\'' && core.last() != '"' && core.last() != '\'',
        !is_ws(core[0]) && !is_ws(core.last()),
        forall|i: int| 0 <= i < w1.len() ==> is_ws(#[trigger] w1[i]),
        forall|i: int| 0 <= i < w2.len() ==> is_ws(#[trigger] w2[i]),
    ensures
        clean_tag(w1 + repeat_char(q, n) + core + repeat_char(q, m) + w2) == core,
{
    let y = repeat_char(q, n) + core + repeat_char(q, m);
    assert(y.len() > 0);
    if n > 0 {
        assert(y[0] == q);
    } else {
        assert(y[0] == core[0]);
    }
    if m > 0 {
        assert(y.last() == q);
    } else {
        assert(y.last() == core.last());
    }
    assert(w1 + repeat_char(q, n) + core + repeat_char(q, m) + w2 =~= w1 + (y + w2));
    assert((y + w2)[0] == y[0]);
    lemma_trim_start_ws_prefix(w1, y + w2);
    lemma_trim_end_ws_suffix(y, w2);
    assert(trim(w1 + (y + w2)) == y);
    let other = if q == '"' { '\'' } else { '"' };
    // the quote that is not used leaves the text as it is
    assert(strip_leading_char(y, other) == y);
    assert(crate::text::strip_trailing_char(y, other) == y);
    assert(trim_char(y, other) == y);
    // the quote that is used comes off both sides
    assert(y =~= repeat_char(q, n) + (core + repeat_char(q, m)));
    lemma_strip_leading_repeat(q, n, core + repeat_char(q, m));
    lemma_strip_trailing_repeat(q, core, m);
    assert(trim_char(y, q) == core);
    assert(strip_leading_char(core, '"') == core);
    assert(strip_leading_char(core, '\'') == core);
    assert(crate::text::strip_trailing_char(core, '"') == core);
    assert(crate::text::strip_trailing_char(core, '\'') == core);
}

/// A bracketed tag list with one quoted item gives that item without its
/// quotes and the whitespace around them.
pub proof fn law_single_quoted_tag_list(core: Seq<char>, q: char, n: nat, m: nat, w1: Seq<char>, w2: Seq<char>)
    requires
        q == '"' || q == '\'',
        core.len() > 0,
        core[0] != '"' && core[0] != '\'' && core.last() != '"' && core.last() != '\'',
        !is_ws(core[0]) && !is_ws(core.last()),
        !core.contains(','),
        forall|i: int| 0 <= i < w1.len() ==> is_ws(#[trigger] w1[i]),
        forall|i: int| 0 <= i < w2.len() ==> is_ws(#[trigger] w2[i]),
    ensures
        tags_of(seq!['['] + w1 + repeat_char(q, n) + core + repeat_char(q, m) + w2 + seq![']'])
            == seq![core],
{
    let item = w1 + repeat_char(q, n) + core + repeat_char(q, m) + w2;
    let s = seq!['['] + w1 + repeat_char(q, n) + core + repeat_char(q, m) + w2 + seq![']'];
    assert(s =~= seq!['['] + item + seq![']']);
    assert(s[0] == '[' && s.last() == ']');
    crate::text::lemma_trim_id(s);
    assert(s.subrange(1, s.len() - 1) =~= item);
    assert(!item.contains(',')) by {
        if item.contains(',') {
            let i = choose|i: int| 0 <= i < item.len() && item[i] == ',';
            let a = w1.len() as int;
            let b = a + n;
            let c2 = b + core.len();
            let d = c2 + m;
            if i < a {
                assert(item[i] == w1[i]);
                assert(is_ws(w1[i]));
            } else if i < b {
                assert(item[i] == q);
            } else if i < c2 {
                assert(item[i] == core[i - b]);
                assert(core.contains(','));
            } else if i < d {
                assert(item[i] == q);
            } else {
                assert(item[i] == w2[i - d]);
                assert(is_ws(w2[i - d]));
            }
        }
    }
    crate::text::lemma_char_from(item, ',', 0);
    let e = crate::text::char_from(item, ',', 0);
    if e < item.len() {
        assert(item[e] == ',');
    }
    assert(item.subrange(0, item.len() as int) =~= item);
    assert(split_char(item, ',') == seq![item]);
    law_tag_quotes_removed(core, q, n, m, w1, w2);
    assert(seq![item].drop_last() =~= Seq::<Seq<char>>::empty());
    assert(seq![item].last() == item);
    assert(clean_tags(Seq::<Seq<char>>::empty()) == Seq::<Seq<char>>::empty());
    assert(clean_tags(seq![item]) =~= seq![core]);
}

} // verus!

verus! {

/// The tags of consecutive list items follow one another: the cleaned tags
/// of `a` then `b` are those of `a` followed by those of `b`.
pub proof fn law_clean_tags_concat(a: Seq<Seq<char>>, b: Seq<Seq<char>>)
    ensures
        clean_tags(a + b) == clean_tags(a) + clean_tags(b),
    decreases b.len(),
{
    if b.len() == 0 {
        assert(a + b =~= a);
        assert(clean_tags(a) + clean_tags(b) =~= clean_tags(a));
    } else {
        law_clean_tags_concat(a, b.drop_last());
        assert((a + b).drop_last() =~= a + b.drop_last());
        assert((a + b).last() == b.last());
        let t = clean_tag(b.last());
        if t.len() > 0 {
            assert(clean_tags(a) + clean_tags(b.drop_last()).push(t) =~= (clean_tags(a) + clean_tags(
                b.drop_last(),
            )).push(t));
        }
    }
}

/// One list item gives its cleaned text as a tag, unless that is empty.
pub proof fn law_clean_tags_single(p: Seq<char>)
    ensures
        clean_tags(seq![p]) == if clean_tag(p).len() > 0 {
            seq![clean_tag(p)]
        } else {
            Seq::<Seq<char>>::empty()
        },
{
    assert(seq![p].drop_last() =~= Seq::<Seq<char>>::empty());
    assert(seq![p].last() == p);
    assert(clean_tags(Seq::<Seq<char>>::empty()) == Seq::<Seq<char>>::empty());
    assert(Seq::<Seq<char>>::empty().push(clean_tag(p)) =~= seq![clean_tag(p)]);
}

} // verus!
