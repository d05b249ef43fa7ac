//! In-document search, anchor resolution, link classification and image
//! source detection.

use vstd::prelude::*;
use vstd::string::StringSliceAdditionalSpecFns;
use vstd::string::StrSliceExecFns;
use vstd::utf8::{decode_utf8, encode_utf8, valid_utf8};

use crate::paths::{join_path, path_join};
use crate::markdown::{keep_alnum, normalize_for_match, TocEntry, TocEntryView};
use crate::text::{chars_of, has_prefix, lines, push_char, push_str, split_lines, starts_with, string_of, to_lowercase, unicode_lowercase};

verus! {

broadcast use vstd::string::group_string_axioms;

// ---------------------------------------------------------------------------
// Search
// ---------------------------------------------------------------------------

/// `needle` occurs in `hay` at position `i`.
pub open spec fn occurs_at<A>(hay: Seq<A>, needle: Seq<A>, i: int) -> bool {
    0 <= i && i + needle.len() <= hay.len() && hay.subrange(i, i + needle.len()) == needle
}

/// `needle` occurs somewhere in `hay`.
pub open spec fn contains_seq(hay: Seq<char>, needle: Seq<char>) -> bool {
    exists|i: int| occurs_at(hay, needle, i)
}

/// Whether `needle` occurs in `hay`.
pub fn contains_chars(hay: &Vec<char>, needle: &Vec<char>) -> (r: bool)
    ensures
        r == contains_seq(hay@, needle@),
{
    let hl = hay.len();
    let nl = needle.len();
    if nl == 0 {
        assert(occurs_at(hay@, needle@, 0)) by {
            assert(hay@.subrange(0, 0) =~= needle@);
        }
        return true;
    }
    if nl > hl {
        proof {
            assert forall|i: int| !occurs_at(hay@, needle@, i) by {}
        }
        return false;
    }
    let last = hl - nl;
    let mut i: usize = 0;
    while i < last + 1
        invariant
            hl == hay@.len(),
            nl == needle@.len(),
            nl >= 1,
            last + nl == hl,
            i <= last + 1,
            forall|j: int| 0 <= j < i ==> !occurs_at(hay@, needle@, j),
        decreases last + 1 - i,
    {
        let mut k: usize = 0;
        let mut same = true;
        while k < nl
            invariant
                hl == hay@.len(),
                nl == needle@.len(),
                i <= last,
                last + nl == hl,
                k <= nl,
                same == forall|m: int| 0 <= m < k ==> hay@[i + m] == needle@[m],
            decreases nl - k,
        {
            if hay[i + k] != needle[k] {
                same = false;
            }
            k = k + 1;
        }
        if same {
            assert(hay@.subrange(i as int, i + needle@.len()) =~= needle@);
            assert(occurs_at(hay@, needle@, i as int));
            return true;
        }
        proof {
            assert(!occurs_at(hay@, needle@, i as int)) by {
                let m = choose|m: int| 0 <= m < needle@.len() && hay@[i + m] != needle@[m];
                assert(hay@.subrange(i as int, i + needle@.len())[m] != needle@[m]);
            }
        }
        i = i + 1;
    }
    false
}

/// The lines (0-based) among the first `k` whose lower-cased text contains
/// `query_lower`, in order.
pub open spec fn hits_upto(ls: Seq<Seq<char>>, query_lower: Seq<char>, k: nat) -> Seq<usize>
    decreases k,
{
    if k == 0 || k > ls.len() {
        Seq::empty()
    } else {
        let r = hits_upto(ls, query_lower, (k - 1) as nat);
        if contains_seq(unicode_lowercase(ls[k - 1]), query_lower) {
            r.push((k - 1) as usize)
        } else {
            r
        }
    }
}

/// The search hits of a document: no hits for an empty query, else the
/// lines whose lower-cased text contains the (already lower-cased) query.
pub open spec fn search_hits_of(src: Seq<char>, query_lower: Seq<char>) -> Seq<usize> {
    if query_lower.len() == 0 {
        Seq::empty()
    } else {
        hits_upto(lines(src), query_lower, lines(src).len())
    }
}

/// Recomputes the search hits: the 0-based lines whose lower-cased text
/// contains `query_lower`; none for an empty query.
pub fn search_hits(raw: &str, query_lower: &str) -> (r: Vec<usize>)
    ensures
        r@ == search_hits_of(raw@, query_lower@),
{
    let q = chars_of(query_lower);
    if q.len() == 0 {
        return Vec::new();
    }
    let src = chars_of(raw);
    let ls = split_lines(&src);
    let ghost sl = lines(raw@);
    let mut hits: Vec<usize> = Vec::new();
    let mut i: usize = 0;
    while i < ls.len()
        invariant
            sl == lines(src@),
            src@ == raw@,
            q@ == query_lower@,
            ls@.len() == sl.len(),
            forall|k: int| 0 <= k < ls@.len() ==> #[trigger] ls@[k]@ == sl[k],
            i <= ls@.len(),
            hits@ == hits_upto(sl, q@, i as nat),
        decreases ls@.len() - i,
    {
        let s = string_of(ls[i].as_slice());
        let low = to_lowercase(s.as_str());
        let lv = chars_of(low.as_str());
        if contains_chars(&lv, &q) {
            hits.push(i);
        }
        i = i + 1;
    }
    hits
}

proof fn lemma_hits_upto(ls: Seq<Seq<char>>, q: Seq<char>, k: nat)
    requires
        k <= ls.len(),
        ls.len() <= usize::MAX,
    ensures
        forall|i: int, j: int|
            0 <= i < j < hits_upto(ls, q, k).len() ==> hits_upto(ls, q, k)[i] < hits_upto(ls, q, k)[j],
        forall|i: int|
            0 <= i < hits_upto(ls, q, k).len() ==> hits_upto(ls, q, k)[i] < k && contains_seq(
                unicode_lowercase(ls[hits_upto(ls, q, k)[i] as int]),
                q,
            ),
        forall|m: int|
            0 <= m < k && contains_seq(unicode_lowercase(#[trigger] ls[m]), q) ==> hits_upto(
                ls,
                q,
                k,
            ).contains(m as usize),
    decreases k,
{
    if k > 0 {
        lemma_hits_upto(ls, q, (k - 1) as nat);
        let r = hits_upto(ls, q, (k - 1) as nat);
        let h = hits_upto(ls, q, k);
        if contains_seq(unicode_lowercase(ls[k - 1]), q) {
            assert(h == r.push((k - 1) as usize));
            assert forall|m: int|
                0 <= m < k && contains_seq(unicode_lowercase(#[trigger] ls[m]), q) implies h.contains(
                m as usize,
            ) by {
                if m < k - 1 {
                    let w = choose|w: int| 0 <= w < r.len() && r[w] == m as usize;
                    assert(h[w] == m as usize);
                } else {
                    assert(h[r.len() as int] == m as usize);
                }
            }
        } else {
            assert forall|m: int|
                0 <= m < k && contains_seq(unicode_lowercase(#[trigger] ls[m]), q) implies h.contains(
                m as usize,
            ) by {
                assert(m < k - 1);
            }
        }
    }
}

/// A line is a search hit exactly when its lower-cased text contains the
/// (non-empty, lower-cased) query, and the hits come in ascending line
/// order.
pub proof fn search_hits_are_matching_lines(src: Seq<char>, q: Seq<char>)
    requires
        q.len() > 0,
        lines(src).len() <= usize::MAX,
    ensures
        forall|i: int, j: int|
            0 <= i < j < search_hits_of(src, q).len() ==> search_hits_of(src, q)[i]
                < search_hits_of(src, q)[j],
        forall|i: int|
            0 <= i < search_hits_of(src, q).len() ==> search_hits_of(src, q)[i] < lines(src).len()
                && contains_seq(unicode_lowercase(lines(src)[search_hits_of(src, q)[i] as int]), q),
        forall|m: int|
            0 <= m < lines(src).len() && contains_seq(unicode_lowercase(#[trigger] lines(src)[m]), q)
                ==> search_hits_of(src, q).contains(m as usize),
{
    lemma_hits_upto(lines(src), q, lines(src).len());
}

/// The hit selected after a new search: the first, when there is one.
pub fn first_hit(hits: &Vec<usize>) -> (r: Option<usize>)
    ensures
        hits@.len() == 0 ==> r is None,
        hits@.len() > 0 ==> r == Some(0usize),
{
    if hits.len() == 0 {
        None
    } else {
        Some(0)
    }
}

/// The first position at or after `from` where `needle` occurs in `hay`.
pub open spec fn first_occurrence<A>(hay: Seq<A>, needle: Seq<A>, from: int) -> Option<int>
    decreases hay.len() + 1 - from,
{
    if from < 0 || from + needle.len() > hay.len() {
        None
    } else if occurs_at(hay, needle, from) {
        Some(from)
    } else {
        first_occurrence(hay, needle, from + 1)
    }
}

pub proof fn lemma_first_occurrence<A>(hay: Seq<A>, needle: Seq<A>, from: int)
    ensures
        first_occurrence(hay, needle, from) matches Some(p) ==> from <= p && p + needle.len()
            <= hay.len() && occurs_at(hay, needle, p),
    decreases hay.len() + 1 - from,
{
    if from >= 0 && from + needle.len() <= hay.len() && !occurs_at(hay, needle, from) {
        lemma_first_occurrence(hay, needle, from + 1);
    }
}

/// A cut at byte `i` of UTF-8 text falls between characters: at either
/// end, or before a byte that does not continue a character.
pub open spec fn cut_between_chars(bytes: Seq<u8>, i: int) -> bool {
    i == 0 || i == bytes.len() || (0 < i < bytes.len() && !vstd::utf8::is_continuation_byte(bytes[i]))
}

/// The pieces a text is cut into for highlighting, from byte `c` on. The
/// work is on UTF-8 bytes: the lower-cased query `ql` is looked for in the
/// lower-cased text `tl` from `c`; at a match at `p`, the text's bytes
/// `c..p` (when not empty) are a plain piece and its bytes `p..p + qn` a
/// highlighted one, `qn` being the byte length of the query as typed, and
/// the search goes on from `p + qn`; after the last match, the rest of the
/// text is a plain piece. `None` when the query is empty (the search would
/// not advance) or a cut falls inside a character of the text or of the
/// lower-cased text, or past their ends, which happens when lower-casing
/// changes byte lengths.
pub open spec fn pieces_from(t: Seq<u8>, tl: Seq<u8>, ql: Seq<u8>, qn: nat, c: int) -> Option<
    Seq<(Seq<u8>, bool)>,
>
    decreases t.len() + tl.len() + 2 - c,
{
    if qn == 0 || c < 0 || c > tl.len() || !cut_between_chars(tl, c) {
        None
    } else {
        match first_occurrence(tl, ql, c) {
            Some(p) => {
                let e = p + qn;
                if p < c || e > t.len() || !cut_between_chars(t, p) || !cut_between_chars(t, e) || (
                p > c && !cut_between_chars(t, c)) {
                    None
                } else {
                    match pieces_from(t, tl, ql, qn, e) {
                        None => None,
                        Some(rest) => Some(
                            (if p > c {
                                seq![(t.subrange(c, p), false)]
                            } else {
                                Seq::empty()
                            }) + seq![(t.subrange(p, e), true)] + rest,
                        ),
                    }
                }
            },
            None => if c < t.len() {
                if cut_between_chars(t, c) {
                    Some(seq![(t.subrange(c, t.len() as int), false)])
                } else {
                    None
                }
            } else {
                Some(Seq::empty())
            },
        }
    }
}

/// The highlight pieces of a text (its UTF-8 bytes `t`), given its
/// lower-cased bytes, the lower-cased query's bytes and the query's byte
/// length: one plain empty piece for an empty text, else `pieces_from` the
/// start.
pub open spec fn highlight_pieces(t: Seq<u8>, tl: Seq<u8>, ql: Seq<u8>, qn: nat) -> Option<
    Seq<(Seq<u8>, bool)>,
> {
    if t.len() == 0 {
        Some(seq![(Seq::<u8>::empty(), false)])
    } else {
        pieces_from(t, tl, ql, qn, 0)
    }
}

fn occurs_at_bytes(hay: &[u8], needle: &[u8], i: usize) -> (r: bool)
    requires
        i + needle@.len() <= hay@.len(),
    ensures
        r == occurs_at(hay@, needle@, i as int),
{
    let hl = hay.len();
    let mut k: usize = 0;
    while k < needle.len()
        invariant
            hl == hay@.len(),
            i + needle@.len() <= hay@.len(),
            k <= needle@.len(),
            forall|m: int| 0 <= m < k ==> hay@[i + m] == needle@[m],
        decreases needle@.len() - k,
    {
        if hay[i + k] != needle[k] {
            assert(hay@.subrange(i as int, i + needle@.len())[k as int] != needle@[k as int]);
            return false;
        }
        k = k + 1;
    }
    assert(hay@.subrange(i as int, i + needle@.len()) =~= needle@);
    true
}

fn find_bytes_from(hay: &[u8], needle: &[u8], from: usize) -> (r: Option<usize>)
    ensures
        r matches Some(p) ==> first_occurrence(hay@, needle@, from as int) == Some(p as int),
        r is None ==> first_occurrence(hay@, needle@, from as int) is None,
    decreases hay@.len() + 1 - from,
{
    if from > hay.len() || needle.len() > hay.len() - from {
        return None;
    }
    if needle.len() == 0 {
        assert(hay@.subrange(from as int, from as int) =~= needle@);
        return Some(from);
    }
    if occurs_at_bytes(hay, needle, from) {
        return Some(from);
    }
    find_bytes_from(hay, needle, from + 1)
}

fn cut_between_chars_exec(bytes: &[u8], i: usize) -> (r: bool)
    ensures
        r == cut_between_chars(bytes@, i as int),
{
    i == 0 || i == bytes.len() || (i < bytes.len() && !(0x80u8 <= bytes[i] && bytes[i] <= 0xbfu8))
}

/// A cut between characters of a string's bytes is a character boundary.
proof fn lemma_cut_is_boundary(bytes: Seq<u8>, i: int)
    requires
        valid_utf8(bytes),
        cut_between_chars(bytes, i),
    ensures
        vstd::utf8::is_char_boundary(bytes, i),
{
    vstd::utf8::is_char_boundary_start_end_of_seq(bytes);
    if 0 < i < bytes.len() {
        vstd::utf8::is_char_boundary_iff_not_is_continuation_byte(bytes, i);
    }
}

/// The part of `s` between byte positions `a` and `b`, both between
/// characters, as a new string.
fn byte_slice(s: &str, a: usize, b: usize) -> (r: String)
    requires
        a <= b <= s.spec_bytes().len(),
        cut_between_chars(s.spec_bytes(), a as int),
        cut_between_chars(s.spec_bytes(), b as int),
    ensures
        encode_utf8(r@) == s.spec_bytes().subrange(a as int, b as int),
{
    let ghost sb = s.spec_bytes();
    proof {
        vstd::utf8::encode_utf8_valid_utf8(s@);
        lemma_cut_is_boundary(sb, a as int);
    }
    let (_, rest) = s.split_at(a);
    let ghost rb = rest.spec_bytes();
    assert(rb =~= sb.subrange(a as int, sb.len() as int));
    proof {
        vstd::utf8::encode_utf8_valid_utf8(rest@);
        let j = b - a;
        assert(cut_between_chars(rb, j)) by {
            if 0 < j < rb.len() {
                assert(rb[j] == sb[b as int]);
            }
        }
        lemma_cut_is_boundary(rb, j);
    }
    let (mid, _) = rest.split_at(b - a);
    assert(mid.spec_bytes() =~= sb.subrange(a as int, b as int));
    let mut r = String::new();
    push_str(&mut r, mid);
    assert(r@ =~= mid@);
    r
}

/// Cuts a text into highlight pieces given its lower-cased form, the
/// lower-cased query and the query's byte length (see `highlight_pieces`);
/// `None` where the cut cannot be made.
pub fn highlight_segments(text: &str, text_lower: &str, query_lower: &str, query_len: usize) -> (r: Option<
    Vec<(String, bool)>,
>)
    ensures
        highlight_pieces(text.spec_bytes(), text_lower.spec_bytes(), query_lower.spec_bytes(), query_len as nat)
            is None <==> r is None,
        r matches Some(v) ==> ({
            let hp = highlight_pieces(
                text.spec_bytes(),
                text_lower.spec_bytes(),
                query_lower.spec_bytes(),
                query_len as nat,
            )->0;
            &&& v@.len() == hp.len()
            &&& forall|i: int|
                0 <= i < v@.len() ==> encode_utf8((#[trigger] v@[i]).0@) == hp[i].0 && v@[i].1 == hp[i].1
        }),
{
    let t = text.as_bytes();
    let tl = text_lower.as_bytes();
    let ql = query_lower.as_bytes();
    let ghost qn = query_len as nat;
    let mut r: Vec<(String, bool)> = Vec::new();
    if t.len() == 0 {
        r.push((String::new(), false));
        proof {
            assert(encode_utf8(Seq::<char>::empty()) =~= Seq::<u8>::empty());
            assert(r@[0].0@ == Seq::<char>::empty());
        }
        return Some(r);
    }
    let ghost whole = pieces_from(t@, tl@, ql@, qn, 0);
    let mut cursor: usize = 0;
    loop
        invariant
            t@ == text.spec_bytes(),
            tl@ == text_lower.spec_bytes(),
            ql@ == query_lower.spec_bytes(),
            qn == query_len as nat,
            t@.len() > 0,
            whole == pieces_from(t@, tl@, ql@, qn, 0),
            whole is Some <==> pieces_from(t@, tl@, ql@, qn, cursor as int) is Some,
            pieces_from(t@, tl@, ql@, qn, cursor as int) matches Some(rest) ==> whole->0 =~= (
            r@.map_values(|x: (String, bool)| (encode_utf8(x.0@), x.1)) + rest),
        decreases t@.len() + tl@.len() + 2 - cursor,
    {
        let ghost here = pieces_from(t@, tl@, ql@, qn, cursor as int);
        let ghost done = r@.map_values(|x: (String, bool)| (encode_utf8(x.0@), x.1));
        if query_len == 0 || cursor > tl.len() || !cut_between_chars_exec(tl, cursor) {
            return None;
        }
        match find_bytes_from(tl, ql, cursor) {
            Some(p) => {
                proof {
                    lemma_first_occurrence(tl@, ql@, cursor as int);
                }
                if p > t.len() || query_len > t.len() - p {
                    return None;
                }
                let e = p + query_len;
                if !cut_between_chars_exec(t, p) || !cut_between_chars_exec(t, e) || (p > cursor
                    && !cut_between_chars_exec(t, cursor)) {
                    return None;
                }
                let ghost next = pieces_from(t@, tl@, ql@, qn, e as int);
                let ghost before: Seq<(Seq<u8>, bool)> = if p > cursor {
                    seq![(t@.subrange(cursor as int, p as int), false)]
                } else {
                    Seq::empty()
                };
                if p > cursor {
                    let piece = byte_slice(text, cursor, p);
                    r.push((piece, false));
                }
                let hit = byte_slice(text, p, e);
                r.push((hit, true));
                proof {
                    let done2 = r@.map_values(|x: (String, bool)| (encode_utf8(x.0@), x.1));
                    assert(done2 =~= done + before + seq![(t@.subrange(p as int, e as int), true)]);
                    if next is Some {
                        assert(here == Some(before + seq![(t@.subrange(p as int, e as int), true)] + next->0));
                        assert(whole->0 =~= done2 + next->0);
                    }
                }
                cursor = e;
            },
            None => {
                if cursor < t.len() {
                    if !cut_between_chars_exec(t, cursor) {
                        return None;
                    }
                    let n = t.len();
                    let piece = byte_slice(text, cursor, n);
                    r.push((piece, false));
                }
                proof {
                    let done2 = r@.map_values(|x: (String, bool)| (encode_utf8(x.0@), x.1));
                    assert(here is Some);
                    assert(whole->0 =~= done2);
                }
                return Some(r);
            },
        }
    }
}

/// The highlight pieces of a text for a query, both lower-cased here with
/// std's `to_lowercase`; see `highlight_segments`.
pub fn search_highlights(text: &str, query: &str) -> (r: Option<Vec<(String, bool)>>)
    ensures
        highlight_pieces(
            text.spec_bytes(),
            encode_utf8(unicode_lowercase(text@)),
            encode_utf8(unicode_lowercase(query@)),
            query.spec_bytes().len(),
        ) is None <==> r is None,
        r matches Some(v) ==> ({
            let hp = highlight_pieces(
                text.spec_bytes(),
                encode_utf8(unicode_lowercase(text@)),
                encode_utf8(unicode_lowercase(query@)),
                query.spec_bytes().len(),
            )->0;
            &&& v@.len() == hp.len()
            &&& forall|i: int|
                0 <= i < v@.len() ==> encode_utf8((#[trigger] v@[i]).0@) == hp[i].0 && v@[i].1 == hp[i].1
        }),
{
    let tl = to_lowercase(text);
    let ql = to_lowercase(query);
    let tls = tl.as_str();
    let qls = ql.as_str();
    assert(tls.spec_bytes() == encode_utf8(unicode_lowercase(text@)));
    assert(qls.spec_bytes() == encode_utf8(unicode_lowercase(query@)));
    let n = query.as_bytes().len();
    highlight_segments(text, tls, qls, n)
}

// ---------------------------------------------------------------------------
// Anchors
// ---------------------------------------------------------------------------

/// First outline entry whose slug is `target`.
pub open spec fn first_slug_match(toc: Seq<TocEntryView>, target: Seq<char>) -> Option<nat>
    decreases toc.len(),
{
    if toc.len() == 0 {
        None
    } else if toc[0].slug == target {
        Some(0)
    } else {
        match first_slug_match(toc.drop_first(), target) {
            Some(i) => Some(i + 1),
            None => None,
        }
    }
}

/// First outline entry whose normalized text is `target`.
pub open spec fn first_normalized_match(toc: Seq<TocEntryView>, target: Seq<char>) -> Option<nat>
    decreases toc.len(),
{
    if toc.len() == 0 {
        None
    } else if toc[0].slug_normalized == target {
        Some(0)
    } else {
        match first_normalized_match(toc.drop_first(), target) {
            Some(i) => Some(i + 1),
            None => None,
        }
    }
}

/// The outline entry an anchor link points to: none for an empty outline or
/// document; else the first entry whose slug is the lower-cased anchor;
/// else, when the anchor has letters or digits, the first entry whose
/// normalized text equals the anchor's.
pub open spec fn anchor_target(toc: Seq<TocEntryView>, line_count: nat, anchor: Seq<char>) -> Option<nat> {
    anchor_target_lowered(toc, line_count, unicode_lowercase(anchor))
}

/// The outline entry an already lower-cased anchor `t` points to: none for
/// an empty outline or document; else the first entry whose slug is `t`;
/// else, when `t` has letters or digits, the first entry whose normalized
/// text equals its letters and digits.
pub open spec fn anchor_target_lowered(toc: Seq<TocEntryView>, line_count: nat, t: Seq<char>) -> Option<nat> {
    if toc.len() == 0 || line_count == 0 {
        None
    } else {
        match first_slug_match(toc, t) {
            Some(i) => Some(i),
            None => {
                let n = keep_alnum(t);
                if n.len() == 0 {
                    None
                } else {
                    first_normalized_match(toc, n)
                }
            },
        }
    }
}

proof fn lemma_first_slug_step(toc: Seq<TocEntryView>, target: Seq<char>, i: int)
    requires
        0 <= i < toc.len(),
        toc[i].slug == target,
        forall|j: int| 0 <= j < i ==> toc[j].slug != target,
    ensures
        first_slug_match(toc, target) == Some(i as nat),
    decreases i,
{
    if i > 0 {
        lemma_first_slug_step(toc.drop_first(), target, i - 1);
    }
}

proof fn lemma_first_norm_step(toc: Seq<TocEntryView>, target: Seq<char>, i: int)
    requires
        0 <= i < toc.len(),
        toc[i].slug_normalized == target,
        forall|j: int| 0 <= j < i ==> toc[j].slug_normalized != target,
    ensures
        first_normalized_match(toc, target) == Some(i as nat),
    decreases i,
{
    if i > 0 {
        lemma_first_norm_step(toc.drop_first(), target, i - 1);
    }
}

proof fn lemma_first_slug_none(toc: Seq<TocEntryView>, target: Seq<char>)
    requires
        forall|j: int| 0 <= j < toc.len() ==> toc[j].slug != target,
    ensures
        first_slug_match(toc, target) is None,
    decreases toc.len(),
{
    if toc.len() > 0 {
        lemma_first_slug_none(toc.drop_first(), target);
    }
}

proof fn lemma_first_norm_none(toc: Seq<TocEntryView>, target: Seq<char>)
    requires
        forall|j: int| 0 <= j < toc.len() ==> toc[j].slug_normalized != target,
    ensures
        first_normalized_match(toc, target) is None,
    decreases toc.len(),
{
    if toc.len() > 0 {
        lemma_first_norm_none(toc.drop_first(), target);
    }
}

/// Resolves an in-document anchor (the part after `#`) to an outline entry.
pub fn find_anchor(toc: &Vec<TocEntry>, line_count: usize, anchor: &str) -> (r: Option<usize>)
    ensures
        r matches Some(i) ==> anchor_target(crate::markdown::toc_views(toc@), line_count as nat, anchor@) == Some(i as nat),
        r is None ==> anchor_target(crate::markdown::toc_views(toc@), line_count as nat, anchor@) is None,
{
    let target = to_lowercase(anchor);
    find_anchor_lowered(toc, line_count, target.as_str())
}

/// Resolves an already lower-cased anchor to an outline entry (the step of
/// `find_anchor` after lower-casing).
pub fn find_anchor_lowered(toc: &Vec<TocEntry>, line_count: usize, lowered: &str) -> (r: Option<usize>)
    ensures
        r matches Some(i) ==> anchor_target_lowered(crate::markdown::toc_views(toc@), line_count as nat, lowered@) == Some(i as nat),
        r is None ==> anchor_target_lowered(crate::markdown::toc_views(toc@), line_count as nat, lowered@) is None,
{
    let ghost tv = crate::markdown::toc_views(toc@);
    if toc.len() == 0 || line_count == 0 {
        return None;
    }
    let target = string_of(chars_of(lowered).as_slice());
    let mut i: usize = 0;
    while i < toc.len()
        invariant
            tv == crate::markdown::toc_views(toc@),
            tv.len() > 0,
            line_count > 0,
            target@ == lowered@,
            i <= toc@.len(),
            forall|j: int| 0 <= j < i ==> tv[j].slug != target@,
        decreases toc@.len() - i,
    {
        if toc[i].slug == target {
            proof {
                lemma_first_slug_step(tv, target@, i as int);
            }
            return Some(i);
        }
        i = i + 1;
    }
    proof {
        lemma_first_slug_none(tv, target@);
    }
    let norm = normalize_for_match(target.as_str());
    if norm.as_str().is_empty() {
        return None;
    }
    let mut j: usize = 0;
    while j < toc.len()
        invariant
            tv == crate::markdown::toc_views(toc@),
            tv.len() > 0,
            line_count > 0,
            target@ == lowered@,
            first_slug_match(tv, target@) is None,
            norm@ == keep_alnum(target@),
            norm@.len() > 0,
            j <= toc@.len(),
            forall|m: int| 0 <= m < j ==> tv[m].slug_normalized != norm@,
        decreases toc@.len() - j,
    {
        if toc[j].slug_normalized == norm {
            proof {
                lemma_first_norm_step(tv, norm@, j as int);
            }
            return Some(j);
        }
        j = j + 1;
    }
    proof {
        lemma_first_norm_none(tv, norm@);
    }
    None
}

// ---------------------------------------------------------------------------
// Links
// ---------------------------------------------------------------------------

/// The value of an ASCII hexadecimal digit (either case).
pub open spec fn hex_value(b: u8) -> Option<u8> {
    if 48 <= b <= 57 {
        Some((b - 48) as u8)
    } else if 65 <= b <= 70 {
        Some((b - 55) as u8)
    } else if 97 <= b <= 102 {
        Some((b - 87) as u8)
    } else {
        None
    }
}

/// Percent-decoding of bytes: each `%` followed by two hexadecimal digits
/// becomes the byte they spell; every other byte stays as it is.
pub open spec fn percent_decoding(b: Seq<u8>) -> Seq<u8>
    decreases b.len(),
{
    if b.len() == 0 {
        Seq::empty()
    } else if b[0] == 37 && b.len() >= 3 && hex_value(b[1]) is Some && hex_value(b[2]) is Some {
        seq![(hex_value(b[1])->0 * 16 + hex_value(b[2])->0) as u8] + percent_decoding(b.skip(3))
    } else {
        seq![b[0]] + percent_decoding(b.skip(1))
    }
}

/// `urlencoding::decode`: per its source, the UTF-8 bytes of the text are
/// percent-decoded (each `%` and two hexadecimal digits, either case,
/// become one byte; all other bytes stay) and the result is the text those
/// bytes encode; an error (`None`) when they are not valid UTF-8.
#[verifier::external_body]
fn percent_decode(s: &str) -> (r: Option<String>)
    ensures
        r is Some <==> valid_utf8(percent_decoding(s.spec_bytes())),
        r matches Some(d) ==> d@ == decode_utf8(percent_decoding(s.spec_bytes())),
{
    urlencoding::decode(s).ok().map(|c| c.into_owned())
}

/// A byte kept as is by percent-encoding.
pub open spec fn unreserved_byte(b: u8) -> bool {
    (48 <= b && b <= 57) || (65 <= b && b <= 90) || (97 <= b && b <= 122) || b == 45 || b == 46
        || b == 95 || b == 126
}

/// An upper-case hex digit for `d < 16`.
pub open spec fn upper_hex(d: u8) -> char {
    if d < 10 {
        (48 + d) as char
    } else {
        (55 + d) as char
    }
}

/// The percent-encoding of one byte.
pub open spec fn percent_encoded_byte(b: u8) -> Seq<char> {
    if unreserved_byte(b) {
        seq![b as char]
    } else {
        seq!['%', upper_hex(b / 16), upper_hex(b % 16)]
    }
}

/// Percent-encoding of UTF-8 bytes: ASCII letters, digits, `-`, `.`, `_`
/// and `~` are kept, every other byte becomes `%XX` (upper-case hex).
pub open spec fn percent_encoding(bytes: Seq<u8>) -> Seq<char>
    decreases bytes.len(),
{
    if bytes.len() == 0 {
        Seq::empty()
    } else {
        percent_encoded_byte(bytes[0]) + percent_encoding(bytes.drop_first())
    }
}

/// `urlencoding::encode`: per its documentation and source, every byte of
/// the UTF-8 text except ASCII letters, digits, `-`, `_`, `.` and `~`
/// becomes `%` and two upper-case hex digits; those are kept.
#[verifier::external_body]
fn percent_encode(s: &str) -> (r: String)
    ensures
        r@ == percent_encoding(s.spec_bytes()),
{
    urlencoding::encode(s).into_owned()
}

proof fn lemma_encode_utf8_append(a: Seq<char>, b: Seq<char>)
    ensures
        encode_utf8(a + b) == encode_utf8(a) + encode_utf8(b),
    decreases a.len(),
{
    if a.len() == 0 {
        assert(a + b =~= b);
        assert(encode_utf8(a) + encode_utf8(b) =~= encode_utf8(b));
    } else {
        lemma_encode_utf8_append(a.drop_first(), b);
        assert((a + b).drop_first() =~= a.drop_first() + b);
        assert((a + b)[0] == a[0]);
        assert(encode_utf8(a + b) =~= encode_utf8(a) + encode_utf8(b));
    }
}

proof fn lemma_decode_encoded_byte(b: u8, rest: Seq<u8>)
    ensures
        percent_decoding(encode_utf8(percent_encoded_byte(b)) + rest) == seq![b] + percent_decoding(
            rest,
        ),
{
    let p = percent_encoded_byte(b);
    assert(vstd::utf8::is_ascii_chars(p));
    vstd::utf8::is_ascii_chars_encode_utf8(p);
    let e = encode_utf8(p);
    let all = e + rest;
    if unreserved_byte(b) {
        assert(e.len() == 1);
        assert(e[0] == p[0] as u8);
        assert(all[0] == b);
        assert(all.skip(1) =~= rest);
    } else {
        assert(e.len() == 3);
        assert(all[0] == 37);
        assert(all[1] == p[1] as u8);
        assert(all[2] == p[2] as u8);
        assert(hex_value(all[1]) == Some(b / 16));
        assert(hex_value(all[2]) == Some(b % 16));
        assert(all.skip(3) =~= rest);
        assert((b / 16) * 16 + b % 16 == b);
    }
}

proof fn lemma_decode_encode(bytes: Seq<u8>)
    ensures
        percent_decoding(encode_utf8(percent_encoding(bytes))) == bytes,
    decreases bytes.len(),
{
    if bytes.len() > 0 {
        let rest = bytes.drop_first();
        lemma_decode_encode(rest);
        lemma_encode_utf8_append(percent_encoded_byte(bytes[0]), percent_encoding(rest));
        lemma_decode_encoded_byte(bytes[0], encode_utf8(percent_encoding(rest)));
        assert(seq![bytes[0]] + rest =~= bytes);
    }
}

/// A diagram's pseudo-link leads back to its code: classifying the link
/// that `mermaid_link` builds for any code gives `Mermaid` of that code.
pub proof fn mermaid_link_roundtrip(code: Seq<char>)
    ensures
        link_target(mermaid_scheme() + percent_encoding(encode_utf8(code)))
            == LinkTargetView::Mermaid(code),
{
    reveal_strlit("smdr-mermaid:");
    let pe = percent_encoding(encode_utf8(code));
    let url = mermaid_scheme() + pe;
    assert(url.take(mermaid_scheme().len() as int) =~= mermaid_scheme());
    assert(url.skip(mermaid_scheme().len() as int) =~= pe);
    lemma_decode_encode(encode_utf8(code));
    vstd::utf8::encode_utf8_valid_utf8(code);
    vstd::utf8::encode_utf8_decode_utf8(code);
}

/// The scheme of the pseudo-links that open a mermaid diagram.
pub open spec fn mermaid_scheme() -> Seq<char> {
    "smdr-mermaid:"@
}

/// The pseudo-link a mermaid diagram's button carries.
pub fn mermaid_link(code: &str) -> (r: String)
    ensures
        r@ == mermaid_scheme() + percent_encoding(code.spec_bytes()),
{
    let mut r = String::new();
    push_str(&mut r, "smdr-mermaid:");
    let e = percent_encode(code);
    push_str(&mut r, e.as_str());
    r
}

/// Where a clicked link leads.
#[derive(Debug, Clone, PartialEq, Eq)]
pub enum LinkTarget {
    /// A mermaid diagram's pseudo-link: the diagram code.
    Mermaid(String),
    /// An `http://` or `https://` address, opened in the browser.
    External,
    /// An in-document anchor (the text after `#`).
    Anchor(String),
    /// A local file path (a `file://` prefix removed), relative to the
    /// current document unless absolute.
    Local(String),
}

/// What a `LinkTarget` holds.
pub enum LinkTargetView {
    Mermaid(Seq<char>),
    External,
    Anchor(Seq<char>),
    Local(Seq<char>),
}

impl View for LinkTarget {
    type V = LinkTargetView;

    open spec fn view(&self) -> LinkTargetView {
        match self {
            LinkTarget::Mermaid(c) => LinkTargetView::Mermaid(c@),
            LinkTarget::External => LinkTargetView::External,
            LinkTarget::Anchor(a) => LinkTargetView::Anchor(a@),
            LinkTarget::Local(p) => LinkTargetView::Local(p@),
        }
    }
}

/// The target of a link URL: mermaid pseudo-links (decoded, or taken as
/// they are when they do not decode), web addresses, anchors, and local
/// files.
pub open spec fn link_target(url: Seq<char>) -> LinkTargetView {
    if starts_with(url, mermaid_scheme()) {
        let rest = url.skip(mermaid_scheme().len() as int);
        LinkTargetView::Mermaid(
            if valid_utf8(percent_decoding(encode_utf8(rest))) {
                decode_utf8(percent_decoding(encode_utf8(rest)))
            } else {
                rest
            },
        )
    } else if starts_with(url, "http://"@) || starts_with(url, "https://"@) {
        LinkTargetView::External
    } else if starts_with(url, "#"@) {
        LinkTargetView::Anchor(url.skip(1))
    } else if starts_with(url, "file://"@) {
        LinkTargetView::Local(url.skip(7))
    } else {
        LinkTargetView::Local(url)
    }
}

/// Classifies a clicked link.
pub fn classify_link(url: &str) -> (r: LinkTarget)
    ensures
        r@ == link_target(url@),
{
    let v = chars_of(url);
    let n = v.len();
    proof {
        reveal_strlit("smdr-mermaid:");
        reveal_strlit("#");
        reveal_strlit("file://");
    }
    if has_prefix(&v, "smdr-mermaid:") {
        let rest = url.substring_char(13, n);
        match percent_decode(rest) {
            Some(d) => LinkTarget::Mermaid(d),
            None => LinkTarget::Mermaid(string_of(crate::text::slice_vec(&v, 13, n).as_slice())),
        }
    } else if has_prefix(&v, "http://") || has_prefix(&v, "https://") {
        LinkTarget::External
    } else if has_prefix(&v, "#") {
        let rest = crate::text::slice_vec(&v, 1, n);
        assert(rest@ =~= url@.skip(1));
        LinkTarget::Anchor(string_of(rest.as_slice()))
    } else if has_prefix(&v, "file://") {
        let rest = crate::text::slice_vec(&v, 7, n);
        assert(rest@ =~= url@.skip(7));
        LinkTarget::Local(string_of(rest.as_slice()))
    } else {
        LinkTarget::Local(string_of(v.as_slice()))
    }
}

// ---------------------------------------------------------------------------
// Images
// ---------------------------------------------------------------------------

/// An `http://` or `https://` address.
pub open spec fn is_remote(url: Seq<char>) -> bool {
    starts_with(url, "http://"@) || starts_with(url, "https://"@)
}

/// Whether an image address is fetched over the network.
pub fn is_remote_url(url: &str) -> (r: bool)
    ensures
        r == is_remote(url@),
{
    let v = chars_of(url);
    has_prefix(&v, "http://") || has_prefix(&v, "https://")
}

/// A path taken relative to `base` unless it is absolute (begins with `/`).
pub open spec fn resolved_path(base: Seq<char>, p: Seq<char>) -> Seq<char> {
    if starts_with(p, "/"@) {
        p
    } else {
        path_join(base, p)
    }
}

/// Resolves a local link or image path against the directory of the
/// current document.
pub fn resolve_path(base_dir: &str, p: &str) -> (r: String)
    ensures
        r@ == resolved_path(base_dir@, p@),
{
    let v = chars_of(p);
    proof {
        reveal_strlit("/");
    }
    if has_prefix(&v, "/") {
        string_of(v.as_slice())
    } else {
        join_path(base_dir, p)
    }
}

/// Where an image is loaded from.
#[derive(Debug, Clone, PartialEq, Eq)]
pub enum ImageSource {
    /// Fetched over the network from this address.
    Remote(String),
    /// A remote image while network fetching is disabled: not loaded.
    Blocked,
    /// Read from this local file.
    Local(String),
}

/// What an `ImageSource` holds.
pub enum ImageSourceView {
    Remote(Seq<char>),
    Blocked,
    Local(Seq<char>),
}

impl View for ImageSource {
    type V = ImageSourceView;

    open spec fn view(&self) -> ImageSourceView {
        match self {
            ImageSource::Remote(u) => ImageSourceView::Remote(u@),
            ImageSource::Blocked => ImageSourceView::Blocked,
            ImageSource::Local(p) => ImageSourceView::Local(p@),
        }
    }
}

/// The source of an image: web addresses are fetched only when the
/// network is enabled; other addresses are files relative to the
/// document's directory unless absolute.
pub open spec fn image_source_of(url: Seq<char>, base_dir: Seq<char>, network_enabled: bool) -> ImageSourceView {
    if is_remote(url) {
        if network_enabled {
            ImageSourceView::Remote(url)
        } else {
            ImageSourceView::Blocked
        }
    } else {
        ImageSourceView::Local(resolved_path(base_dir, url))
    }
}

/// Decides where an image is loaded from.
pub fn image_source(url: &str, base_dir: &str, network_enabled: bool) -> (r: ImageSource)
    ensures
        r@ == image_source_of(url@, base_dir@, network_enabled),
{
    if is_remote_url(url) {
        if network_enabled {
            let v = chars_of(url);
            ImageSource::Remote(string_of(v.as_slice()))
        } else {
            ImageSource::Blocked
        }
    } else {
        ImageSource::Local(resolve_path(base_dir, url))
    }
}

/// The image addresses of `urls` neither loaded nor failed before, in
/// order.
pub open spec fn images_pending(urls: Seq<Seq<char>>, cached: Seq<Seq<char>>, failed: Seq<Seq<char>>) -> Seq<Seq<char>>
    decreases urls.len(),
{
    if urls.len() == 0 {
        Seq::empty()
    } else {
        let r = images_pending(urls.drop_last(), cached, failed);
        if cached.contains(urls.last()) || failed.contains(urls.last()) {
            r
        } else {
            r.push(urls.last())
        }
    }
}

fn contains_str(xs: &Vec<String>, s: &str) -> (r: bool)
    ensures
        r == xs@.map_values(|x: String| x@).contains(s@),
{
    let ghost v = xs@.map_values(|x: String| x@);
    let sv = chars_of(s);
    let mut i: usize = 0;
    while i < xs.len()
        invariant
            i <= xs@.len(),
            v == xs@.map_values(|x: String| x@),
            sv@ == s@,
            forall|j: int| 0 <= j < i ==> v[j] != s@,
        decreases xs@.len() - i,
    {
        let xv = chars_of(xs[i].as_str());
        if crate::text::vec_eq(&xv, &sv) {
            assert(v[i as int] == s@);
            return true;
        }
        i = i + 1;
    }
    false
}

/// The images of a document still to load: those neither in the cache nor
/// known to have failed.
pub fn images_to_load(urls: &Vec<String>, cached: &Vec<String>, failed: &Vec<String>) -> (r: Vec<String>)
    ensures
        r@.map_values(|x: String| x@) == images_pending(
            urls@.map_values(|x: String| x@),
            cached@.map_values(|x: String| x@),
            failed@.map_values(|x: String| x@),
        ),
{
    let ghost uv = urls@.map_values(|x: String| x@);
    let ghost cv = cached@.map_values(|x: String| x@);
    let ghost fv = failed@.map_values(|x: String| x@);
    let mut r: Vec<String> = Vec::new();
    let mut i: usize = 0;
    while i < urls.len()
        invariant
            i <= urls@.len(),
            uv == urls@.map_values(|x: String| x@),
            cv == cached@.map_values(|x: String| x@),
            fv == failed@.map_values(|x: String| x@),
            r@.map_values(|x: String| x@) == images_pending(uv.take(i as int), cv, fv),
        decreases urls@.len() - i,
    {
        assert(uv.take(i + 1).drop_last() =~= uv.take(i as int));
        let u = urls[i].as_str();
        if !contains_str(cached, u) && !contains_str(failed, u) {
            let v = chars_of(u);
            r.push(string_of(v.as_slice()));
            assert(r@.map_values(|x: String| x@) =~= images_pending(uv.take(i as int), cv, fv).push(u@));
        }
        i = i + 1;
    }
    assert(uv.take(urls@.len() as int) =~= uv);
    r
}

/// `bytes` begins with `p`.
pub open spec fn bytes_start_with(bytes: Seq<u8>, p: Seq<u8>) -> bool {
    p.len() <= bytes.len() && bytes.take(p.len() as int) == p
}

/// The bytes `<svg`.
pub open spec fn svg_tag() -> Seq<u8> {
    seq![60u8, 115u8, 118u8, 103u8]
}

/// The bytes `<?xml`.
pub open spec fn xml_decl() -> Seq<u8> {
    seq![60u8, 63u8, 120u8, 109u8, 108u8]
}

/// An image is SVG when its address ends with `.svg`, or its data starts
/// with `<?xml` or `<svg`, or `<svg` starts within its first 256 positions.
pub open spec fn is_svg(url: Seq<char>, bytes: Seq<u8>) -> bool {
    ||| (url.len() >= 4 && url.skip(url.len() - 4) == ".svg"@)
    ||| bytes_start_with(bytes, xml_decl())
    ||| bytes_start_with(bytes, svg_tag())
    ||| exists|i: int| 0 <= i < 256 && i + 4 <= bytes.len() && #[trigger] bytes.subrange(i, i + 4) == svg_tag()
}

fn bytes_at(bytes: &[u8], i: usize, p: &[u8]) -> (r: bool)
    requires
        i + p@.len() <= bytes@.len(),
    ensures
        r == (bytes@.subrange(i as int, i + p@.len()) == p@),
{
    let bl = bytes.len();
    let mut k: usize = 0;
    while k < p.len()
        invariant
            bl == bytes@.len(),
            i + p@.len() <= bytes@.len(),
            k <= p@.len(),
            forall|m: int| 0 <= m < k ==> bytes@[i + m] == p@[m],
        decreases p@.len() - k,
    {
        if bytes[i + k] != p[k] {
            assert(bytes@.subrange(i as int, i + p@.len())[k as int] != p@[k as int]);
            return false;
        }
        k = k + 1;
    }
    assert(bytes@.subrange(i as int, i + p@.len()) =~= p@);
    true
}

/// Whether loaded image data (from address `url`) is SVG.
pub fn looks_like_svg(url: &str, bytes: &[u8]) -> (r: bool)
    ensures
        r == is_svg(url@, bytes@),
{
    let v = chars_of(url);
    let n = v.len();
    let ends_svg = if n >= 4 {
        let tail = crate::text::slice_vec(&v, n - 4, n);
        let dot_svg = chars_of(".svg");
        assert(tail@ =~= url@.skip(url@.len() - 4));
        crate::text::vec_eq(&tail, &dot_svg)
    } else {
        false
    };
    let xml: [u8; 5] = [60u8, 63u8, 120u8, 109u8, 108u8];
    let svg: [u8; 4] = [60u8, 115u8, 118u8, 103u8];
    assert(xml@ =~= xml_decl());
    assert(svg@ =~= svg_tag());
    let starts_xml = if bytes.len() >= 5 {
        let b = bytes_at(bytes, 0, xml.as_slice());
        assert(bytes@.subrange(0, 5) =~= bytes@.take(5));
        b
    } else {
        false
    };
    let starts_svg = if bytes.len() >= 4 {
        let b = bytes_at(bytes, 0, svg.as_slice());
        assert(bytes@.subrange(0, 4) =~= bytes@.take(4));
        b
    } else {
        false
    };
    if ends_svg || starts_xml || starts_svg {
        return true;
    }
    let mut i: usize = 0;
    while i < 256 && i + 4 <= bytes.len()
        invariant
            svg@ == svg_tag(),
            i <= 256,
            forall|j: int| 0 <= j < i && j + 4 <= bytes@.len() ==> #[trigger] bytes@.subrange(j, j + 4) != svg_tag(),
        decreases 256 - i,
    {
        if bytes_at(bytes, i, svg.as_slice()) {
            return true;
        }
        i = i + 1;
    }
    false
}

// ---------------------------------------------------------------------------
// Files
// ---------------------------------------------------------------------------

/// A markdown file extension (compared lower-cased).
pub open spec fn markdown_extension(ext_lower: Seq<char>) -> bool {
    ext_lower == "md"@ || ext_lower == "markdown"@ || ext_lower == "mdown"@ || ext_lower == "mkd"@
}

/// Whether a file extension looks like markdown, ignoring case.
pub fn is_markdown_extension(ext: &str) -> (r: bool)
    ensures
        r == markdown_extension(unicode_lowercase(ext@)),
        crate::text::all_ascii(ext@) ==> r == markdown_extension(
            ext@.map_values(|c: char| crate::text::ascii_lower(c)),
        ),
{
    let low = to_lowercase(ext);
    is_markdown_extension_lowered(low.as_str())
}

/// Whether an already lower-cased file extension is a markdown one.
pub fn is_markdown_extension_lowered(ext_lower: &str) -> (r: bool)
    ensures
        r == markdown_extension(ext_lower@),
{
    let v = chars_of(ext_lower);
    let a = chars_of("md");
    let b = chars_of("markdown");
    let c = chars_of("mdown");
    let d = chars_of("mkd");
    crate::text::vec_eq(&v, &a) || crate::text::vec_eq(&v, &b) || crate::text::vec_eq(&v, &c)
        || crate::text::vec_eq(&v, &d)
}

} // verus!
