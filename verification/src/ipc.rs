//! Wire format of the single-instance hand-off: the paths to open travel
//! over one connection, one per line.

use vstd::prelude::*;

use crate::annotate::{join_lines, lemma_lines_of_join, no_newline, no_trailing_cr};
use crate::text::{chars_of, count_leading_ws, count_trailing_ws, lines, push_char, push_str, split_lines, string_of, trim};

verus! {

broadcast use vstd::string::group_string_axioms;

/// The request text for a batch of paths: each path followed by `'\n'`.
pub fn encode_paths(paths: &Vec<String>) -> (r: String)
    ensures
        r@ == join_lines(paths@.map_values(|p: String| p@)),
{
    let ghost v = paths@.map_values(|p: String| p@);
    let mut r = String::new();
    let mut i: usize = 0;
    while i < paths.len()
        invariant
            i <= paths@.len(),
            v == paths@.map_values(|p: String| p@),
            r@ == join_lines(v.take(i as int)),
        decreases paths@.len() - i,
    {
        push_str(&mut r, paths[i].as_str());
        push_char(&mut r, '\n');
        assert(v.take((i + 1) as int).drop_last() =~= v.take(i as int));
        i = i + 1;
        assert(r@ =~= join_lines(v.take(i as int)));
    }
    assert(v.take(paths@.len() as int) =~= v);
    r
}

/// The trimmed, non-empty lines of `xs`, in order.
pub open spec fn nonempty_trimmed(xs: Seq<Seq<char>>) -> Seq<Seq<char>>
    decreases xs.len(),
{
    if xs.len() == 0 {
        Seq::empty()
    } else {
        let r = nonempty_trimmed(xs.drop_last());
        let t = trim(xs.last());
        if t.len() == 0 {
            r
        } else {
            r.push(t)
        }
    }
}

/// The paths of a received request: every line trimmed, empty lines skipped.
pub fn decode_paths(buf: &str) -> (r: Vec<String>)
    ensures
        r@.len() == nonempty_trimmed(lines(buf@)).len(),
        forall|k: int| 0 <= k < r@.len() ==> #[trigger] r@[k]@ == nonempty_trimmed(lines(buf@))[k],
{
    let v = chars_of(buf);
    let ls = split_lines(&v);
    let ghost sl = lines(buf@);
    let mut r: Vec<String> = Vec::new();
    let mut i: usize = 0;
    while i < ls.len()
        invariant
            sl == lines(v@),
            v@ == buf@,
            ls@.len() == sl.len(),
            forall|k: int| 0 <= k < ls@.len() ==> #[trigger] ls@[k]@ == sl[k],
            i <= ls@.len(),
            r@.len() == nonempty_trimmed(sl.take(i as int)).len(),
            forall|k: int|
                0 <= k < r@.len() ==> #[trigger] r@[k]@ == nonempty_trimmed(sl.take(i as int))[k],
        decreases ls@.len() - i,
    {
        assert(sl.take(i + 1).drop_last() =~= sl.take(i as int));
        let l = &ls[i];
        let n = l.len();
        let e = n - count_trailing_ws(l, 0, n);
        let s = count_leading_ws(l, 0, e);
        assert(l@.subrange(0, n as int) =~= l@);
        assert(trim(l@) =~= l@.subrange(s as int, e as int));
        if s < e {
            let t = crate::text::slice_vec(l, s, e);
            r.push(string_of(t.as_slice()));
        }
        i = i + 1;
    }
    assert(sl.take(ls@.len() as int) =~= sl);
    r
}

/// A path that survives the round trip: non-empty, one line, no
/// surrounding whitespace.
pub open spec fn plain_path(p: Seq<char>) -> bool {
    p.len() > 0 && no_newline(p) && trim(p) == p
}

proof fn lemma_trim_nonempty(xs: Seq<Seq<char>>)
    requires
        forall|k: int| 0 <= k < xs.len() ==> plain_path(#[trigger] xs[k]),
    ensures
        nonempty_trimmed(xs) == xs,
    decreases xs.len(),
{
    if xs.len() > 0 {
        lemma_trim_nonempty(xs.drop_last());
        assert(plain_path(xs[xs.len() - 1]));
        assert(xs.drop_last().push(xs.last()) =~= xs);
    }
}

/// Decoding an encoded batch gives back the same paths, when each path is a
/// plain path.
pub proof fn decode_encode_roundtrip(paths: Seq<Seq<char>>)
    requires
        forall|k: int| 0 <= k < paths.len() ==> plain_path(#[trigger] paths[k]),
    ensures
        nonempty_trimmed(lines(join_lines(paths))) == paths,
{
    assert forall|k: int| 0 <= k < paths.len() implies no_newline(#[trigger] paths[k])
        && no_trailing_cr(paths[k]) by {
        let p = paths[k];
        assert(plain_path(p));
        crate::text::lemma_trailing_ws_bound(p);
        crate::text::lemma_leading_ws_bound(crate::text::trim_end(p));
        if p.last() == '\r' {
            assert(crate::text::is_ws(p.last()));
            assert(crate::text::trailing_ws(p) > 0);
            assert(trim(p).len() < p.len());
        }
    }
    lemma_lines_of_join(paths);
    lemma_trim_nonempty(paths);
}

} // verus!
