//! Markdown outline helpers: ATX headings, GitHub-style anchor slugs and
//! the table of contents of a document.

use std::collections::HashMap;

use vstd::prelude::*;

pub use crate::events::extract_links;

use crate::text::{
    ascii_alnum, chars_of, count_leading, count_leading_ws, count_trailing, count_trailing_ws,
    decimal, is_ascii_alnum, lemma_leading_count_bound, leading_count, leading_ws, lines,
    push_char, push_decimal, split_lines, string_of, to_lowercase, trailing_count, trailing_ws,
    trim_end, trim_end_char, trim_start_char, unicode_lowercase, is_ascii_upper,
};

verus! {

broadcast use vstd::string::group_string_axioms;

/// A hyperlink found in a markdown document.
#[derive(Debug, Clone, PartialEq, Eq)]
pub struct DocumentLink {
    /// Source line number (0-based) where the link starts.
    pub line: usize,
    /// The link destination.
    pub url: String,
    /// Display text of the link.
    pub text: String,
}

/// A heading of the document, for the outline.
#[derive(Debug, Clone, PartialEq, Eq)]
pub struct TocEntry {
    /// Heading level (1-6).
    pub level: u8,
    /// Display text (backticks removed).
    pub text: String,
    /// Line number (0-based) in the source.
    pub line: usize,
    /// GitHub-style anchor slug, without the leading `#`.
    pub slug: String,
    /// Lower-cased display text reduced to ASCII letters and digits, for
    /// relaxed anchor matching.
    pub slug_normalized: String,
}

/// What a `TocEntry` holds, as plain values.
pub struct TocEntryView {
    pub level: u8,
    pub text: Seq<char>,
    pub line: usize,
    pub slug: Seq<char>,
    pub slug_normalized: Seq<char>,
}

impl View for TocEntry {
    type V = TocEntryView;

    open spec fn view(&self) -> TocEntryView {
        TocEntryView {
            level: self.level,
            text: self.text@,
            line: self.line,
            slug: self.slug@,
            slug_normalized: self.slug_normalized@,
        }
    }
}

/// The views of outline entries.
pub open spec fn toc_views(v: Seq<TocEntry>) -> Seq<TocEntryView> {
    v.map_values(|e: TocEntry| e@)
}

// ---------------------------------------------------------------------------
// Character filters
// ---------------------------------------------------------------------------

/// `s` without any occurrence of `c`.
pub open spec fn remove_char(s: Seq<char>, c: char) -> Seq<char>
    decreases s.len(),
{
    if s.len() == 0 {
        Seq::empty()
    } else if s.last() == c {
        remove_char(s.drop_last(), c)
    } else {
        remove_char(s.drop_last(), c).push(s.last())
    }
}

/// Only the ASCII letters and digits of `s`.
pub open spec fn keep_alnum(s: Seq<char>) -> Seq<char>
    decreases s.len(),
{
    if s.len() == 0 {
        Seq::empty()
    } else if is_ascii_alnum(s.last()) {
        keep_alnum(s.drop_last()).push(s.last())
    } else {
        keep_alnum(s.drop_last())
    }
}

/// A character kept in a slug.
pub open spec fn is_slug_char(c: char) -> bool {
    is_ascii_alnum(c) || c == ' ' || c == '-' || c == '_'
}

/// ASCII letters, digits, `-` and `_` of `s`, with spaces turned into `-`.
pub open spec fn keep_slug_chars(s: Seq<char>) -> Seq<char>
    decreases s.len(),
{
    if s.len() == 0 {
        Seq::empty()
    } else if is_slug_char(s.last()) {
        keep_slug_chars(s.drop_last()).push(
            if s.last() == ' ' {
                '-'
            } else {
                s.last()
            },
        )
    } else {
        keep_slug_chars(s.drop_last())
    }
}

fn remove_char_exec(s: &Vec<char>, lo: usize, hi: usize, c: char) -> (r: Vec<char>)
    requires
        lo <= hi <= s@.len(),
    ensures
        r@ == remove_char(s@.subrange(lo as int, hi as int), c),
{
    let mut r: Vec<char> = Vec::new();
    let mut i = lo;
    while i < hi
        invariant
            lo <= i <= hi <= s@.len(),
            r@ == remove_char(s@.subrange(lo as int, i as int), c),
        decreases hi - i,
    {
        assert(s@.subrange(lo as int, i + 1).drop_last() =~= s@.subrange(lo as int, i as int));
        if s[i] != c {
            r.push(s[i]);
        }
        i = i + 1;
    }
    r
}

fn keep_alnum_exec(s: &Vec<char>) -> (r: Vec<char>)
    ensures
        r@ == keep_alnum(s@),
{
    let mut r: Vec<char> = Vec::new();
    let mut i: usize = 0;
    while i < s.len()
        invariant
            i <= s@.len(),
            r@ == keep_alnum(s@.take(i as int)),
        decreases s@.len() - i,
    {
        assert(s@.take(i + 1).drop_last() =~= s@.take(i as int));
        if ascii_alnum(s[i]) {
            r.push(s[i]);
        }
        i = i + 1;
    }
    assert(s@.take(s@.len() as int) =~= s@);
    r
}

fn keep_slug_chars_exec(s: &Vec<char>) -> (r: Vec<char>)
    ensures
        r@ == keep_slug_chars(s@),
{
    let mut r: Vec<char> = Vec::new();
    let mut i: usize = 0;
    while i < s.len()
        invariant
            i <= s@.len(),
            r@ == keep_slug_chars(s@.take(i as int)),
        decreases s@.len() - i,
    {
        assert(s@.take(i + 1).drop_last() =~= s@.take(i as int));
        let c = s[i];
        if ascii_alnum(c) || c == ' ' || c == '-' || c == '_' {
            r.push(
                if c == ' ' {
                    '-'
                } else {
                    c
                },
            );
        }
        i = i + 1;
    }
    assert(s@.take(s@.len() as int) =~= s@);
    r
}

/// Normalizing keeps exactly the ASCII letters and digits, in order: a
/// single character stays when it is one and goes otherwise, and the
/// normalized text of two texts joined is theirs joined.
pub proof fn normalize_keeps_ascii_letters_and_digits(s: Seq<char>, t: Seq<char>, c: char)
    ensures
        keep_alnum(s + t) == keep_alnum(s) + keep_alnum(t),
        keep_alnum(seq![c]) == (if ('a' <= c <= 'z') || ('A' <= c <= 'Z') || ('0' <= c <= '9') {
            seq![c]
        } else {
            Seq::<char>::empty()
        }),
    decreases t.len(),
{
    assert(seq![c].drop_last() =~= Seq::<char>::empty());
    assert(keep_alnum(Seq::<char>::empty()) == Seq::<char>::empty());
    assert(seq![c].last() == c);
    if is_ascii_alnum(c) {
        assert(keep_alnum(seq![c]) =~= Seq::<char>::empty().push(c));
    }
    if t.len() == 0 {
        assert(s + t =~= s);
        assert(keep_alnum(s) + keep_alnum(t) =~= keep_alnum(s));
    } else {
        normalize_keeps_ascii_letters_and_digits(s, t.drop_last(), c);
        assert((s + t).drop_last() =~= s + t.drop_last());
        assert((s + t).last() == t.last());
        assert(keep_alnum(s + t) =~= keep_alnum(s) + keep_alnum(t));
    }
}


/// Strips everything except ASCII letters and digits, for fuzzy anchor
/// comparison.
pub fn normalize_for_match(s: &str) -> (r: String)
    ensures
        r@ == keep_alnum(s@),
{
    let v = chars_of(s);
    let k = keep_alnum_exec(&v);
    string_of(k.as_slice())
}

// ---------------------------------------------------------------------------
// Slugs
// ---------------------------------------------------------------------------

/// The counter `github_slug` keeps of the slug bases it produced.
pub type SlugSeen = HashMap<String, u32>;

/// How many times each slug base was produced so far (the contents of the
/// `seen` map of `github_slug`).
pub uninterp spec fn slug_counts(m: HashMap<String, u32>) -> Map<Seq<char>, u32>;

/// std `HashMap::get` on the slug counter: the count stored for `key`, if
/// any (keys compare by their characters).
#[verifier::external_body]
fn seen_count(m: &HashMap<String, u32>, key: &String) -> (r: Option<u32>)
    ensures
        r == (if slug_counts(*m).contains_key(key@) {
            Some(slug_counts(*m)[key@])
        } else {
            None::<u32>
        }),
{
    m.get(key).copied()
}

/// std `HashMap::insert` on the slug counter: afterwards `key` maps to `n`
/// and every other key is unchanged.
#[verifier::external_body]
fn set_seen_count(m: &mut HashMap<String, u32>, key: String, n: u32)
    ensures
        slug_counts(*final(m)) == slug_counts(*old(m)).insert(key@, n),
{
    m.insert(key, n);
}

/// The slug base of a heading: backticks removed, lower-cased, only ASCII
/// letters, digits, spaces, `-` and `_` kept, spaces turned into `-`.
pub open spec fn slug_base(text: Seq<char>) -> Seq<char> {
    keep_slug_chars(unicode_lowercase(remove_char(text, '`')))
}

/// The slug for the `count`-th earlier occurrence of `base`: the base itself
/// the first time, then `base-0`, `base-1`, ...
pub open spec fn slug_text(base: Seq<char>, count: nat) -> Seq<char> {
    if count == 0 {
        base
    } else {
        base + "-"@ + decimal((count - 1) as nat)
    }
}

/// The count recorded for `base` (zero when absent).
pub open spec fn count_of(seen: Map<Seq<char>, u32>, base: Seq<char>) -> nat {
    if seen.contains_key(base) {
        seen[base] as nat
    } else {
        0
    }
}

/// A character a slug base may hold: an ASCII lower-case letter, a digit,
/// `-` or `_`.
pub open spec fn is_slug_base_char(c: char) -> bool {
    ('a' <= c && c <= 'z') || ('0' <= c && c <= '9') || c == '-' || c == '_'
}

proof fn lemma_keep_slug_chars_shape(s: Seq<char>)
    requires
        forall|i: int| 0 <= i < s.len() ==> !is_ascii_upper(#[trigger] s[i]),
    ensures
        forall|i: int|
            0 <= i < keep_slug_chars(s).len() ==> is_slug_base_char(#[trigger] keep_slug_chars(s)[i]),
    decreases s.len(),
{
    if s.len() > 0 {
        let p = s.drop_last();
        assert forall|i: int| 0 <= i < p.len() implies !is_ascii_upper(#[trigger] p[i]) by {
            assert(p[i] == s[i]);
        }
        lemma_keep_slug_chars_shape(p);
        let c = s.last();
        assert(!is_ascii_upper(s[s.len() - 1]));
        if is_slug_char(c) {
            let m = if c == ' ' {
                '-'
            } else {
                c
            };
            assert(is_slug_base_char(m));
            let k = keep_slug_chars(s);
            assert(k == keep_slug_chars(p).push(m));
            assert forall|i: int| 0 <= i < k.len() implies is_slug_base_char(#[trigger] k[i]) by {
                if i < k.len() - 1 {
                    assert(k[i] == keep_slug_chars(p)[i]);
                }
            }
        }
    }
}

/// Computes the slug base of `text`.
fn slug_base_exec(text: &str) -> (r: String)
    ensures
        r@ == slug_base(text@),
        forall|i: int| 0 <= i < r@.len() ==> is_slug_base_char(#[trigger] r@[i]),
{
    let v = chars_of(text);
    let no_ticks = remove_char_exec(&v, 0, v.len(), '`');
    assert(v@.subrange(0, v@.len() as int) =~= v@);
    let s = string_of(no_ticks.as_slice());
    let low = to_lowercase(s.as_str());
    proof {
        lemma_keep_slug_chars_shape(low@);
    }
    slug_chars(low.as_str())
}

/// The slug base of already lower-cased heading text: its ASCII letters,
/// digits, `-` and `_` and its spaces (as `-`), in order.
pub fn slug_chars(lowered: &str) -> (r: String)
    ensures
        r@ == keep_slug_chars(lowered@),
{
    let lv = chars_of(lowered);
    let kept = keep_slug_chars_exec(&lv);
    string_of(kept.as_slice())
}

/// The slug of a slug base, deduplicated through `seen` (the step of
/// `github_slug` after lower-casing): `#` and the base the first time,
/// `-0`, `-1`, ... appended after; `seen` records one more occurrence.
pub fn slug_for_base(base: &str, seen: &mut HashMap<String, u32>) -> (r: String)
    requires
        count_of(slug_counts(*old(seen)), base@) < u32::MAX,
    ensures
        r@ == "#"@ + slug_text(base@, count_of(slug_counts(*old(seen)), base@)),
        slug_counts(*final(seen)) == slug_counts(*old(seen)).insert(
            base@,
            (count_of(slug_counts(*old(seen)), base@) + 1) as u32,
        ),
{
    let mut key = String::new();
    crate::text::push_str(&mut key, base);
    let count: u32 = match seen_count(seen, &key) {
        Some(c) => c,
        None => 0,
    };
    let mut r = String::new();
    crate::text::push_str(&mut r, "#");
    crate::text::push_str(&mut r, base);
    if count > 0 {
        crate::text::push_str(&mut r, "-");
        push_decimal(&mut r, (count - 1) as u128);
    }
    set_seen_count(seen, key, count + 1);
    assert(r@ =~= "#"@ + slug_text(base@, count_of(slug_counts(*old(seen)), base@)));
    r
}

/// The slug `github_slug` gives for `text` with the counter `counts`: `#`,
/// the slug base, and a `-n` suffix from the second occurrence on.
pub open spec fn github_slug_of(text: Seq<char>, counts: Map<Seq<char>, u32>) -> Seq<char> {
    "#"@ + slug_text(slug_base(text), count_of(counts, slug_base(text)))
}

/// The counter after `github_slug` has seen `text`: one more occurrence of
/// its slug base.
pub open spec fn counts_after_slug(text: Seq<char>, counts: Map<Seq<char>, u32>) -> Map<
    Seq<char>,
    u32,
> {
    counts.insert(slug_base(text), (count_of(counts, slug_base(text)) + 1) as u32)
}

/// Generates a GitHub-style anchor slug (with a leading `#`) for a heading,
/// deduplicated through `seen`: the first occurrence of a base gets the base
/// itself, later ones `-0`, `-1`, ... appended. `seen` records one more
/// occurrence of the base. The base holds only lower-case ASCII letters,
/// digits, `-` and `_`.
pub fn github_slug(text: &str, seen: &mut HashMap<String, u32>) -> (r: String)
    requires
        count_of(slug_counts(*old(seen)), slug_base(text@)) < u32::MAX,
    ensures
        r@ == github_slug_of(text@, slug_counts(*old(seen))),
        slug_counts(*final(seen)) == counts_after_slug(text@, slug_counts(*old(seen))),
        forall|i: int| 0 <= i < slug_base(text@).len() ==> is_slug_base_char(#[trigger] slug_base(text@)[i]),
{
    let base = slug_base_exec(text);
    slug_for_base(base.as_str(), seen)
}

/// A fresh slug counter: no base produced yet.
pub fn new_slug_counter() -> (seen: HashMap<String, u32>)
    ensures
        slug_counts(seen) == Map::<Seq<char>, u32>::empty(),
{
    let seen = new_seen();
    assert(slug_counts(seen) =~= Map::<Seq<char>, u32>::empty());
    seen
}

// ---------------------------------------------------------------------------
// ATX headings
// ---------------------------------------------------------------------------

/// The heading text of an ATX heading line (`## Title ##` gives `Title`),
/// or `None` when the line is not one: one to six `#`, then a space.
pub open spec fn atx_text(line: Seq<char>) -> Option<Seq<char>> {
    let hashes = leading_count(line, '#');
    let t = line.skip(hashes as int);
    if hashes == 0 || hashes > 6 || t.len() == 0 || t[0] != ' ' {
        None
    } else {
        let rest = t.drop_first();
        let text = trim_end_char(trim_end_char(trim_end(rest), '#'), ' ');
        Some(
            if text.len() == 0 {
                crate::text::trim(rest)
            } else {
                text
            },
        )
    }
}

/// A line is an ATX heading exactly when it is one to six `#` and then a
/// space.
pub proof fn atx_heading_lines(line: Seq<char>)
    ensures
        atx_text(line) is Some <==> exists|h: int|
            1 <= h <= 6 && h < line.len() && #[trigger] line.take(h) == Seq::new(
                h as nat,
                |j: int| '#',
            ) && line[h] == ' ',
{
    lemma_leading_count_bound(line, '#');
    let lc = leading_count(line, '#') as int;
    if atx_text(line) is Some {
        assert(line.take(lc) =~= Seq::new(lc as nat, |j: int| '#'));
        assert(line.skip(lc)[0] == line[lc]);
    }
    if exists|h: int|
        1 <= h <= 6 && h < line.len() && #[trigger] line.take(h) == Seq::new(h as nat, |j: int| '#')
            && line[h] == ' ' {
        let h = choose|h: int|
            1 <= h <= 6 && h < line.len() && #[trigger] line.take(h) == Seq::new(
                h as nat,
                |j: int| '#',
            ) && line[h] == ' ';
        if lc < h {
            assert(line.take(h)[lc] == '#');
        } else if lc > h {
            assert(line[h] == '#');
        }
        assert(line.skip(h)[0] == line[h]);
    }
}

/// Extracts the heading text from an ATX heading line, or `None` if the
/// line is not a valid ATX heading.
#[verifier::rlimit(50)]
pub fn extract_atx_heading(line: &str) -> (r: Option<&str>)
    ensures
        r matches Some(t) ==> atx_text(line@) == Some(t@),
        r is None ==> atx_text(line@) is None,
{
    let v = chars_of(line);
    let n = v.len();
    let hashes = count_leading(&v, 0, n, '#');
    assert(v@.subrange(0, n as int) =~= v@);
    proof {
        lemma_leading_count_bound(v@, '#');
    }
    if hashes == 0 || hashes > 6 || hashes >= n || v[hashes] != ' ' {
        return None;
    }
    let lo = hashes + 1;
    let ghost rest = v@.skip(hashes as int).drop_first();
    assert(rest =~= v@.subrange(lo as int, n as int));
    let e1 = n - count_trailing_ws(&v, lo, n);
    assert(trim_end(rest) =~= v@.subrange(lo as int, e1 as int));
    let e2 = e1 - count_trailing(&v, lo, e1, '#');
    assert(trim_end_char(trim_end(rest), '#') =~= v@.subrange(lo as int, e2 as int));
    let e3 = e2 - count_trailing(&v, lo, e2, ' ');
    assert(trim_end_char(trim_end_char(trim_end(rest), '#'), ' ') =~= v@.subrange(
        lo as int,
        e3 as int,
    ));
    if e3 > lo {
        let t = line.substring_char(lo, e3);
        Some(t)
    } else {
        let s = lo + count_leading_ws(&v, lo, e1);
        assert(crate::text::trim(rest) =~= v@.subrange(s as int, e1 as int));
        let t = line.substring_char(s, e1);
        Some(t)
    }
}

// ---------------------------------------------------------------------------
// Table of contents
// ---------------------------------------------------------------------------

/// Level and text of an outline heading line: one to six `#`, a space,
/// then text with trailing whitespace and `#` removed and trimmed; `None`
/// when the line is no heading or the text is empty.
pub open spec fn toc_heading(line: Seq<char>) -> Option<(nat, Seq<char>)> {
    let hashes = leading_count(line, '#');
    let t = line.skip(hashes as int);
    if hashes == 0 || hashes > 6 || t.len() == 0 || t[0] != ' ' {
        None
    } else {
        let h = crate::text::trim(trim_end_char(trim_end(t.drop_first()), '#'));
        if h.len() == 0 {
            None
        } else {
            Some((hashes, h))
        }
    }
}

/// The outline entries of the first `k` lines, and the slug counts after
/// them.
pub open spec fn toc_scan(ls: Seq<Seq<char>>, k: nat) -> (Seq<TocEntryView>, Map<Seq<char>, u32>)
    decreases k,
{
    if k == 0 || k > ls.len() {
        (Seq::empty(), Map::empty())
    } else {
        let (es, seen) = toc_scan(ls, (k - 1) as nat);
        match toc_heading(ls[k - 1]) {
            None => (es, seen),
            Some((level, h)) => {
                let base = slug_base(h);
                let c = count_of(seen, base);
                let display = remove_char(h, '`');
                let e = TocEntryView {
                    level: level as u8,
                    text: display,
                    line: (k - 1) as usize,
                    slug: slug_text(base, c),
                    slug_normalized: keep_alnum(unicode_lowercase(display)),
                };
                (es.push(e), seen.insert(base, (c + 1) as u32))
            },
        }
    }
}

/// The outline of a document.
pub open spec fn toc_of(src: Seq<char>) -> Seq<TocEntryView> {
    toc_scan(lines(src), lines(src).len()).0
}

/// Outline line parsing: `(level, start, end)` of the heading text.
fn toc_heading_exec(v: &Vec<char>) -> (r: Option<(usize, usize, usize)>)
    ensures
        r matches Some((level, lo, hi)) ==> lo <= hi <= v@.len() && toc_heading(v@) == Some(
            (level as nat, v@.subrange(lo as int, hi as int)),
        ),
        r is None ==> toc_heading(v@) is None,
{
    let n = v.len();
    let hashes = count_leading(v, 0, n, '#');
    assert(v@.subrange(0, n as int) =~= v@);
    if hashes == 0 || hashes > 6 || hashes >= n || v[hashes] != ' ' {
        return None;
    }
    let lo = hashes + 1;
    let ghost rest = v@.skip(hashes as int).drop_first();
    assert(rest =~= v@.subrange(lo as int, n as int));
    let e1 = n - count_trailing_ws(v, lo, n);
    assert(trim_end(rest) =~= v@.subrange(lo as int, e1 as int));
    let e2 = e1 - count_trailing(v, lo, e1, '#');
    let ghost u = trim_end_char(trim_end(rest), '#');
    assert(u =~= v@.subrange(lo as int, e2 as int));
    let e3 = e2 - count_trailing_ws(v, lo, e2);
    assert(trim_end(u) =~= v@.subrange(lo as int, e3 as int));
    let s = lo + count_leading_ws(v, lo, e3);
    assert(crate::text::trim(u) =~= v@.subrange(s as int, e3 as int));
    if s >= e3 {
        return None;
    }
    Some((hashes, s, e3))
}

/// A fresh, empty slug counter (std `HashMap::new`).
#[verifier::external_body]
fn new_seen() -> (seen: SlugSeen)
    ensures
        slug_counts(seen).dom() == Set::<Seq<char>>::empty(),
{
    HashMap::new()
}

/// `s` holds no `#`.
pub open spec fn no_hash(s: Seq<char>) -> bool {
    forall|i: int| 0 <= i < s.len() ==> s[i] != '#'
}

proof fn lemma_keep_slug_chars_no_hash(s: Seq<char>)
    ensures
        no_hash(keep_slug_chars(s)),
    decreases s.len(),
{
    if s.len() > 0 {
        lemma_keep_slug_chars_no_hash(s.drop_last());
    }
}

proof fn lemma_decimal_no_hash(n: nat)
    ensures
        no_hash(decimal(n)),
    decreases n,
{
    if n >= 10 {
        lemma_decimal_no_hash(n / 10);
    }
}

/// The slug base has no `#`, so stripping leading `#` from `#slug` leaves
/// the slug.
proof fn lemma_slug_text_no_hash(base: Seq<char>, c: nat)
    requires
        no_hash(base),
    ensures
        trim_start_char("#"@ + slug_text(base, c), '#') == slug_text(base, c),
{
    reveal_strlit("#");
    reveal_strlit("-");
    let st = slug_text(base, c);
    if c > 0 {
        lemma_decimal_no_hash((c - 1) as nat);
    }
    assert(no_hash(st));
    let g = "#"@ + st;
    crate::text::lemma_leading_count_is(g, '#', 1);
    assert(g.skip(1) =~= st);
}

/// How many of the first `k` lines are outline headings whose slug base
/// is `b`.
pub open spec fn base_occurrences(ls: Seq<Seq<char>>, k: nat, b: Seq<char>) -> nat
    decreases k,
{
    if k == 0 || k > ls.len() {
        0
    } else {
        base_occurrences(ls, (k - 1) as nat, b) + match toc_heading(ls[k - 1]) {
            Some((_, h)) => if slug_base(h) == b {
                1nat
            } else {
                0nat
            },
            None => 0nat,
        }
    }
}

/// How many entries of `es` have display text with slug base `b`.
pub open spec fn entries_with_base(es: Seq<TocEntryView>, b: Seq<char>) -> nat
    decreases es.len(),
{
    if es.len() == 0 {
        0
    } else {
        entries_with_base(es.drop_last(), b) + if slug_base(es.last().text) == b {
            1nat
        } else {
            0nat
        }
    }
}

proof fn lemma_remove_char_twice(s: Seq<char>, c: char)
    ensures
        remove_char(remove_char(s, c), c) == remove_char(s, c),
    decreases s.len(),
{
    if s.len() > 0 {
        lemma_remove_char_twice(s.drop_last(), c);
        if s.last() != c {
            let r = remove_char(s.drop_last(), c);
            assert(remove_char(s, c) == r.push(s.last()));
            assert(r.push(s.last()).drop_last() =~= r);
        }
    }
}

proof fn lemma_occurrences_mono(ls: Seq<Seq<char>>, i: nat, j: nat, b: Seq<char>)
    requires
        i <= j <= ls.len(),
    ensures
        base_occurrences(ls, i, b) <= base_occurrences(ls, j, b),
    decreases j - i,
{
    if i < j {
        lemma_occurrences_mono(ls, i, (j - 1) as nat, b);
    }
}

/// A line of `h` '#' characters and a space: `toc_heading` reads it as a
/// level-`h` heading with the trimmed rest as text, when that is not empty.
proof fn lemma_toc_heading_line(l: Seq<char>, h: int)
    requires
        1 <= h <= 6,
        h < l.len(),
        l.take(h) == Seq::new(h as nat, |j: int| '#'),
        l[h] == ' ',
    ensures
        toc_heading(l) == (if crate::text::trim(trim_end_char(trim_end(l.skip(h + 1)), '#')).len() == 0 {
            None
        } else {
            Some((h as nat, crate::text::trim(trim_end_char(trim_end(l.skip(h + 1)), '#'))))
        }),
{
    lemma_leading_count_bound(l, '#');
    let lc = leading_count(l, '#') as int;
    if lc < h {
        assert(l.take(h)[lc] == '#');
    } else if lc > h {
        assert(l[h] == '#');
    }
    assert(l.skip(h).drop_first() =~= l.skip(h + 1));
}

/// What `toc_heading` accepts is such a line.
proof fn lemma_toc_heading_shape(l: Seq<char>)
    ensures
        toc_heading(l) matches Some(p) ==> {
            let h = p.0 as int;
            &&& 1 <= h <= 6
            &&& h < l.len()
            &&& l.take(h) == Seq::new(h as nat, |j: int| '#')
            &&& l[h] == ' '
            &&& p.1 == crate::text::trim(trim_end_char(trim_end(l.skip(h + 1)), '#'))
            &&& p.1.len() > 0
        },
{
    lemma_leading_count_bound(l, '#');
    if toc_heading(l) is Some {
        let h = leading_count(l, '#') as int;
        assert(l.take(h) =~= Seq::new(h as nat, |j: int| '#'));
        assert(l.skip(h).drop_first() =~= l.skip(h + 1));
        assert(l.skip(h)[0] == l[h]);
    }
}

/// The scan's entries are the heading lines among the first `n`, in order.
proof fn lemma_toc_scan_lines(ls: Seq<Seq<char>>, n: nat)
    requires
        n <= ls.len(),
        ls.len() <= usize::MAX,
    ensures
        forall|k: int|
            0 <= k < n && (#[trigger] toc_heading(ls[k])) is Some ==> exists|i: int|
                0 <= i < toc_scan(ls, n).0.len() && (#[trigger] toc_scan(ls, n).0[i]).line == k
                    && toc_scan(ls, n).0[i].level == toc_heading(ls[k]).unwrap().0 as u8
                    && toc_scan(ls, n).0[i].text == remove_char(toc_heading(ls[k]).unwrap().1, '`'),
        forall|i: int|
            0 <= i < toc_scan(ls, n).0.len() ==> {
                let e = #[trigger] toc_scan(ls, n).0[i];
                &&& e.line < n
                &&& toc_heading(ls[e.line as int]) is Some
                &&& e.level == toc_heading(ls[e.line as int]).unwrap().0 as u8
                &&& e.text == remove_char(toc_heading(ls[e.line as int]).unwrap().1, '`')
            },
        forall|i: int, j: int|
            0 <= i < j < toc_scan(ls, n).0.len() ==> toc_scan(ls, n).0[i].line < toc_scan(
                ls,
                n,
            ).0[j].line,
    decreases n,
{
    if n > 0 {
        lemma_toc_scan_lines(ls, (n - 1) as nat);
        let es = toc_scan(ls, (n - 1) as nat).0;
        let es2 = toc_scan(ls, n).0;
        if toc_heading(ls[n - 1]) is Some {
            assert(es2 == es.push(es2[es.len() as int]));
            assert forall|k: int|
                0 <= k < n && (#[trigger] toc_heading(ls[k])) is Some implies exists|i: int|
                    0 <= i < es2.len() && (#[trigger] es2[i]).line == k && es2[i].level
                        == toc_heading(ls[k]).unwrap().0 as u8 && es2[i].text == remove_char(
                        toc_heading(ls[k]).unwrap().1,
                        '`',
                    ) by {
                if k < n - 1 {
                    let i = choose|i: int|
                        0 <= i < es.len() && (#[trigger] es[i]).line == k && es[i].level
                            == toc_heading(ls[k]).unwrap().0 as u8 && es[i].text == remove_char(
                            toc_heading(ls[k]).unwrap().1,
                            '`',
                        );
                    assert(es2[i] == es[i]);
                } else {
                    assert(es2[es.len() as int].line == k);
                }
            }
            assert forall|i: int| 0 <= i < es2.len() implies {
                let e = #[trigger] es2[i];
                &&& e.line < n
                &&& toc_heading(ls[e.line as int]) is Some
                &&& e.level == toc_heading(ls[e.line as int]).unwrap().0 as u8
                &&& e.text == remove_char(toc_heading(ls[e.line as int]).unwrap().1, '`')
            } by {
                if i < es.len() {
                    assert(es2[i] == es[i]);
                }
            }
            assert forall|i: int, j: int| 0 <= i < j < es2.len() implies es2[i].line < es2[j].line by {
                if j < es.len() {
                    assert(es2[i] == es[i] && es2[j] == es[j]);
                } else {
                    assert(es2[i] == es[i]);
                }
            }
        }
    }
}

/// Every heading line is in the outline, and the outline holds nothing
/// else, in line order: a source line of `h` '#' characters (1 to 6), a
/// space and text that is not empty once trailing whitespace and '#' are
/// trimmed gives an entry on that line with level `h` and that text without
/// backticks; every entry comes from such a line. (For a document whose
/// lines a `usize` can number.)
pub proof fn outline_lists_every_heading(src: Seq<char>)
    requires
        lines(src).len() <= usize::MAX,
    ensures
        forall|k: int, h: int|
            0 <= k < lines(src).len() && 1 <= h <= 6 && h < lines(src)[k].len()
                && #[trigger] lines(src)[k].take(h) == Seq::new(h as nat, |j: int| '#')
                && lines(src)[k][h] == ' ' && crate::text::trim(
                trim_end_char(trim_end(lines(src)[k].skip(h + 1)), '#'),
            ).len() > 0 ==> exists|i: int|
                0 <= i < toc_of(src).len() && (#[trigger] toc_of(src)[i]).line == k
                    && toc_of(src)[i].level == h && toc_of(src)[i].text == remove_char(
                    crate::text::trim(trim_end_char(trim_end(lines(src)[k].skip(h + 1)), '#')),
                    '`',
                ),
        forall|i: int|
            0 <= i < toc_of(src).len() ==> {
                let e = #[trigger] toc_of(src)[i];
                let l = lines(src)[e.line as int];
                let h = e.level as int;
                &&& e.line < lines(src).len()
                &&& 1 <= h <= 6
                &&& h < l.len()
                &&& l.take(h) == Seq::new(h as nat, |j: int| '#')
                &&& l[h] == ' '
                &&& crate::text::trim(trim_end_char(trim_end(l.skip(h + 1)), '#')).len() > 0
                &&& e.text == remove_char(
                    crate::text::trim(trim_end_char(trim_end(l.skip(h + 1)), '#')),
                    '`',
                )
            },
        forall|i: int, j: int|
            0 <= i < j < toc_of(src).len() ==> toc_of(src)[i].line < toc_of(src)[j].line,
{
    let ls = lines(src);
    lemma_toc_scan_lines(ls, ls.len());
    assert forall|k: int, h: int|
        0 <= k < ls.len() && 1 <= h <= 6 && h < ls[k].len() && #[trigger] ls[k].take(h)
            == Seq::new(h as nat, |j: int| '#') && ls[k][h] == ' ' && crate::text::trim(
            trim_end_char(trim_end(ls[k].skip(h + 1)), '#'),
        ).len() > 0 implies exists|i: int|
        0 <= i < toc_of(src).len() && (#[trigger] toc_of(src)[i]).line == k && toc_of(src)[i].level
            == h && toc_of(src)[i].text == remove_char(
            crate::text::trim(trim_end_char(trim_end(ls[k].skip(h + 1)), '#')),
            '`',
        ) by {
        lemma_toc_heading_line(ls[k], h);
        assert(toc_heading(ls[k]) is Some);
        assert(toc_of(src) == toc_scan(ls, ls.len()).0);
        let i = choose|i: int|
            0 <= i < toc_scan(ls, ls.len()).0.len() && (#[trigger] toc_scan(ls, ls.len()).0[i]).line
                == k && toc_scan(ls, ls.len()).0[i].level == toc_heading(ls[k]).unwrap().0 as u8
                && toc_scan(ls, ls.len()).0[i].text == remove_char(toc_heading(ls[k]).unwrap().1, '`');
        assert(toc_of(src)[i].line == k);
    }
    assert forall|i: int| 0 <= i < toc_of(src).len() implies {
        let e = #[trigger] toc_of(src)[i];
        let l = lines(src)[e.line as int];
        let h = e.level as int;
        &&& e.line < lines(src).len()
        &&& 1 <= h <= 6
        &&& h < l.len()
        &&& l.take(h) == Seq::new(h as nat, |j: int| '#')
        &&& l[h] == ' '
        &&& crate::text::trim(trim_end_char(trim_end(l.skip(h + 1)), '#')).len() > 0
        &&& e.text == remove_char(crate::text::trim(trim_end_char(trim_end(l.skip(h + 1)), '#')), '`')
    } by {
        let e = toc_of(src)[i];
        lemma_toc_heading_shape(ls[e.line as int]);
    }
}

proof fn lemma_toc_scan_counts(ls: Seq<Seq<char>>, k: nat)
    requires
        k <= ls.len(),
        forall|b: Seq<char>| #[trigger] base_occurrences(ls, k, b) < u32::MAX,
    ensures
        forall|b: Seq<char>| #[trigger] count_of(toc_scan(ls, k).1, b) == base_occurrences(ls, k, b),
        forall|b: Seq<char>| #[trigger] entries_with_base(toc_scan(ls, k).0, b) == base_occurrences(ls, k, b),
        forall|i: int|
            0 <= i < toc_scan(ls, k).0.len() ==> (#[trigger] toc_scan(ls, k).0[i]).slug == slug_text(
                slug_base(toc_scan(ls, k).0[i].text),
                entries_with_base(toc_scan(ls, k).0.take(i), slug_base(toc_scan(ls, k).0[i].text)),
            ),
    decreases k,
{
    if k > 0 {
        let k1 = (k - 1) as nat;
        assert forall|b: Seq<char>| #[trigger] base_occurrences(ls, k1, b) < u32::MAX by {
            lemma_occurrences_mono(ls, k1, k, b);
        }
        lemma_toc_scan_counts(ls, k1);
        let (es, seen) = toc_scan(ls, k1);
        match toc_heading(ls[k - 1]) {
            None => {},
            Some((level, h)) => {
                let base = slug_base(h);
                let c = count_of(seen, base);
                let display = remove_char(h, '`');
                lemma_remove_char_twice(h, '`');
                assert(slug_base(display) == base);
                assert(c == base_occurrences(ls, k1, base));
                assert(base_occurrences(ls, k, base) == c + 1);
                let (es2, seen2) = toc_scan(ls, k);
                assert(seen2 == seen.insert(base, (c + 1) as u32));
                assert(es2.drop_last() =~= es);
                assert(es2.last().text == display);
                assert forall|b: Seq<char>| #[trigger] count_of(seen2, b) == base_occurrences(ls, k, b) by {
                    if b != base {
                        assert(count_of(seen, b) == base_occurrences(ls, k1, b));
                    }
                }
                assert forall|b: Seq<char>| #[trigger] entries_with_base(es2, b) == base_occurrences(ls, k, b) by {
                    assert(entries_with_base(es, b) == base_occurrences(ls, k1, b));
                }
                assert forall|i: int| 0 <= i < es2.len() implies (#[trigger] es2[i]).slug == slug_text(
                    slug_base(es2[i].text),
                    entries_with_base(es2.take(i), slug_base(es2[i].text)),
                ) by {
                    if i < es.len() {
                        assert(es2[i] == es[i]);
                        assert(es2.take(i) =~= es.take(i));
                    } else {
                        assert(es2.take(i) =~= es);
                        assert(entries_with_base(es, base) == c);
                    }
                }
            },
        }
    }
}

/// The slug counter that `github_slug` leaves after being run, from a fresh
/// counter, over the display texts of the first `k` entries in order (each
/// call records one more occurrence of the text's slug base).
pub open spec fn slug_counts_through(es: Seq<TocEntryView>, k: nat) -> Map<Seq<char>, u32>
    decreases k,
{
    if k == 0 || k > es.len() {
        Map::empty()
    } else {
        counts_after_slug(es[k - 1].text, slug_counts_through(es, (k - 1) as nat))
    }
}

proof fn lemma_entries_with_base_take(es: Seq<TocEntryView>, k: nat, b: Seq<char>)
    requires
        k <= es.len(),
    ensures
        entries_with_base(es.take(k as int), b) <= entries_with_base(es, b),
    decreases es.len(),
{
    if k < es.len() {
        assert(es.drop_last().take(k as int) =~= es.take(k as int));
        lemma_entries_with_base_take(es.drop_last(), k, b);
    } else {
        assert(es.take(k as int) =~= es);
    }
}

proof fn lemma_slug_counts_through(es: Seq<TocEntryView>, k: nat)
    requires
        k <= es.len(),
        forall|b: Seq<char>| #[trigger] entries_with_base(es, b) < u32::MAX,
    ensures
        forall|b: Seq<char>|
            #[trigger] count_of(slug_counts_through(es, k), b) == entries_with_base(es.take(k as int), b),
    decreases k,
{
    if k == 0 {
        assert forall|b: Seq<char>|
            #[trigger] count_of(slug_counts_through(es, k), b) == entries_with_base(es.take(k as int), b) by {
            assert(es.take(0) =~= Seq::<TocEntryView>::empty());
        }
    } else {
        lemma_slug_counts_through(es, (k - 1) as nat);
        let t = es.take(k as int);
        assert(t.drop_last() =~= es.take(k - 1));
        assert(t.last() == es[k - 1]);
        let prev = slug_counts_through(es, (k - 1) as nat);
        let b0 = slug_base(es[k - 1].text);
        assert(count_of(prev, b0) == entries_with_base(es.take(k - 1), b0));
        lemma_entries_with_base_take(es, k, b0);
        assert(entries_with_base(t, b0) == entries_with_base(es.take(k - 1), b0) + 1);
        assert(slug_counts_through(es, k) == prev.insert(b0, (count_of(prev, b0) + 1) as u32));
        assert forall|b: Seq<char>|
            #[trigger] count_of(slug_counts_through(es, k), b) == entries_with_base(es.take(k as int), b) by {
            assert(count_of(prev, b) == entries_with_base(es.take(k - 1), b));
            if b != b0 {
                assert(entries_with_base(t, b) == entries_with_base(es.take(k - 1), b));
            }
        }
    }
}

/// The outline's slugs are GitHub slugs threaded through the outline in
/// order: starting from a fresh counter and running `github_slug` over the
/// entries' display texts in order, each call gives `#` and that entry's
/// slug (the base itself the first time, then `-0`, `-1`, ...), and the
/// counter moves on as `github_slug` moves it. Each entry's normalized text
/// is `normalize_for_match` of its lower-cased display text (the ASCII
/// letters and digits of `to_lowercase`).
pub proof fn outline_slugs_thread_github_slug(src: Seq<char>)
    requires
        forall|b: Seq<char>| #[trigger] base_occurrences(lines(src), lines(src).len(), b) < u32::MAX,
    ensures
        slug_counts_through(toc_of(src), 0) == Map::<Seq<char>, u32>::empty(),
        forall|i: int|
            0 <= i < toc_of(src).len() ==> "#"@ + (#[trigger] toc_of(src)[i]).slug == github_slug_of(
                toc_of(src)[i].text,
                slug_counts_through(toc_of(src), i as nat),
            ) && slug_counts_through(toc_of(src), (i + 1) as nat) == counts_after_slug(
                toc_of(src)[i].text,
                slug_counts_through(toc_of(src), i as nat),
            ) && toc_of(src)[i].slug_normalized == keep_alnum(unicode_lowercase(toc_of(src)[i].text)),
        forall|i: int|
            0 <= i < toc_of(src).len() ==> (#[trigger] toc_of(src)[i]).slug == slug_text(
                slug_base(toc_of(src)[i].text),
                entries_with_base(toc_of(src).take(i), slug_base(toc_of(src)[i].text)),
            ),
{
    lemma_toc_scan_counts(lines(src), lines(src).len());
    lemma_toc_scan_normalized(lines(src), lines(src).len());
    let es = toc_of(src);
    assert forall|i: int| 0 <= i < es.len() implies "#"@ + (#[trigger] es[i]).slug == github_slug_of(
        es[i].text,
        slug_counts_through(es, i as nat),
    ) by {
        lemma_slug_counts_through(es, i as nat);
        assert(count_of(slug_counts_through(es, i as nat), slug_base(es[i].text))
            == entries_with_base(es.take(i), slug_base(es[i].text)));
    }
}

proof fn lemma_toc_scan_normalized(ls: Seq<Seq<char>>, k: nat)
    ensures
        forall|i: int|
            0 <= i < toc_scan(ls, k).0.len() ==> (#[trigger] toc_scan(ls, k).0[i]).slug_normalized
                == keep_alnum(unicode_lowercase(toc_scan(ls, k).0[i].text)),
    decreases k,
{
    if k > 0 && k <= ls.len() {
        lemma_toc_scan_normalized(ls, (k - 1) as nat);
        let es = toc_scan(ls, (k - 1) as nat).0;
        let es2 = toc_scan(ls, k).0;
        assert forall|i: int| 0 <= i < es2.len() implies (#[trigger] es2[i]).slug_normalized
            == keep_alnum(unicode_lowercase(es2[i].text)) by {
            if i < es.len() {
                assert(es2[i] == es[i]);
            }
        }
    }
}

/// Extracts all headings of the document for the outline: lines with one
/// to six `#` and a space, non-empty text; each with its level, display text
/// (backticks removed), line, deduplicated slug and normalized text.
pub fn extract_toc(source: &str) -> (r: Vec<TocEntry>)
    requires
        forall|b: Seq<char>|
            #[trigger] base_occurrences(lines(source@), lines(source@).len(), b) < u32::MAX,
    ensures
        r@.len() == toc_of(source@).len(),
        forall|i: int| 0 <= i < r@.len() ==> #[trigger] r@[i]@ == toc_of(source@)[i],
{
    let src = chars_of(source);
    let ls = split_lines(&src);
    let ghost spec_ls = lines(source@);
    let mut seen = new_seen();
    assert(slug_counts(seen) =~= Map::<Seq<char>, u32>::empty());
    let mut entries: Vec<TocEntry> = Vec::new();
    let mut i: usize = 0;
    while i < ls.len()
        invariant
            spec_ls == lines(source@),
            ls@.len() == spec_ls.len(),
            forall|b: Seq<char>|
                #[trigger] base_occurrences(spec_ls, spec_ls.len(), b) < u32::MAX,
            forall|k: int| 0 <= k < ls@.len() ==> #[trigger] ls@[k]@ == spec_ls[k],
            i <= ls@.len(),
            entries@.len() == toc_scan(spec_ls, i as nat).0.len(),
            forall|k: int|
                0 <= k < entries@.len() ==> #[trigger] entries@[k]@ == toc_scan(
                    spec_ls,
                    i as nat,
                ).0[k],
            slug_counts(seen) == toc_scan(spec_ls, i as nat).1,
        decreases ls@.len() - i,
    {
        let ghost before = toc_scan(spec_ls, i as nat);
        match toc_heading_exec(&ls[i]) {
            None => {},
            Some((level, lo, hi)) => {
                let h = crate::text::slice_vec(&ls[i], lo, hi);
                let hs = string_of(h.as_slice());
                let dv = remove_char_exec(&ls[i], lo, hi, '`');
                let display = string_of(dv.as_slice());
                let ghost base = slug_base(hs@);
                let ghost c = count_of(slug_counts(seen), base);
                proof {
                    assert forall|b: Seq<char>| #[trigger] base_occurrences(spec_ls, i as nat, b) < u32::MAX by {
                        lemma_occurrences_mono(spec_ls, i as nat, spec_ls.len(), b);
                    }
                    lemma_toc_scan_counts(spec_ls, i as nat);
                    assert(c == base_occurrences(spec_ls, i as nat, base));
                    lemma_occurrences_mono(spec_ls, (i + 1) as nat, spec_ls.len(), base);
                }
                let gs = github_slug(hs.as_str(), &mut seen);
                let gv = chars_of(gs.as_str());
                let k = count_leading(&gv, 0, gv.len(), '#');
                assert(gv@.subrange(0, gv@.len() as int) =~= gv@);
                let sv = crate::text::slice_vec(&gv, k, gv.len());
                let slug = string_of(sv.as_slice());
                proof {
                    lemma_keep_slug_chars_no_hash(unicode_lowercase(remove_char(hs@, '`')));
                    lemma_slug_text_no_hash(base, c);
                    assert(sv@ =~= gv@.skip(k as int));
                }
                let low = to_lowercase(display.as_str());
                let norm = normalize_for_match(low.as_str());
                let e = TocEntry { level: level as u8, text: display, line: i, slug, slug_normalized: norm };
                entries.push(e);
            },
        }
        i = i + 1;
        assert(entries@.len() == toc_scan(spec_ls, i as nat).0.len());
    }
    entries
}


proof fn lemma_toc_scan_order(ls: Seq<Seq<char>>, k: nat)
    requires
        ls.len() <= usize::MAX,
    ensures
        forall|i: int, j: int|
            0 <= i < j < toc_scan(ls, k).0.len() ==> toc_scan(ls, k).0[i].line < toc_scan(
                ls,
                k,
            ).0[j].line,
        forall|i: int|
            0 <= i < toc_scan(ls, k).0.len() ==> toc_scan(ls, k).0[i].line < k && 1
                <= toc_scan(ls, k).0[i].level <= 6,
    decreases k,
{
    if k > 0 && k <= ls.len() {
        lemma_toc_scan_order(ls, (k - 1) as nat);
        let es = toc_scan(ls, (k - 1) as nat).0;
        match toc_heading(ls[k - 1]) {
            None => {},
            Some((level, h)) => {
                let now = toc_scan(ls, k).0;
                assert(now.len() == es.len() + 1);
                assert(now[es.len() as int].line == (k - 1) as usize);
                assert(now[es.len() as int].level == level as u8);
                assert(forall|i: int| 0 <= i < es.len() ==> now[i] == es[i]);
            },
        }
    }
}

/// The outline lists headings in document order: their lines strictly
/// increase and lie within the document, and every level is 1 to 6.
pub proof fn outline_in_document_order(src: Seq<char>)
    requires
        lines(src).len() <= usize::MAX,
    ensures
        forall|i: int, j: int|
            0 <= i < j < toc_of(src).len() ==> toc_of(src)[i].line < toc_of(src)[j].line,
        forall|i: int|
            0 <= i < toc_of(src).len() ==> toc_of(src)[i].line < lines(src).len() && 1
                <= toc_of(src)[i].level <= 6,
{
    lemma_toc_scan_order(lines(src), lines(src).len());
}


/// Repeated headings get distinct slugs: the slugs `github_slug` gives the
/// successive occurrences of one slug base (its counts 0, 1, 2, ...) are
/// pairwise different.
pub proof fn repeated_headings_get_distinct_slugs(base: Seq<char>, c1: nat, c2: nat)
    requires
        c1 != c2,
    ensures
        slug_text(base, c1) != slug_text(base, c2),
{
    reveal_strlit("-");
    if c1 > 0 && c2 > 0 {
        let d1 = decimal((c1 - 1) as nat);
        let d2 = decimal((c2 - 1) as nat);
        crate::text::lemma_decimal_value((c1 - 1) as nat);
        crate::text::lemma_decimal_value((c2 - 1) as nat);
        if slug_text(base, c1) == slug_text(base, c2) {
            let k: int = base.len() + 1int;
            assert(slug_text(base, c1).skip(k) =~= d1);
            assert(slug_text(base, c2).skip(k) =~= d2);
        }
    } else if c1 == 0 {
        assert(slug_text(base, c2).len() > base.len());
    } else {
        assert(slug_text(base, c1).len() > base.len());
    }
}

} // verus!
