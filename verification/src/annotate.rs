//! Review annotations and the renderers of a completed review turn.
//!
//! A review attaches comments to 0-based source lines. A turn is rendered
//! as the whole document with an HTML-comment marker line after each
//! annotated line (`render_annotated_md`), or as an insertion-only
//! unified-diff transport (`render_diff`). The JSON envelope is produced by
//! the serializer outside this crate and handed to `render`.

use vstd::prelude::*;

use crate::text::{
    chars_of, decimal, find_char, lemma_find_char, lemma_find_char_is, lines, push_char, push_chars,
    push_decimal, push_str, split_lines, starts_with, strip_cr,
};

verus! {

broadcast use vstd::string::group_string_axioms;

/// What the annotator asks to be done with an annotated line.
#[derive(Debug, Clone, Copy, PartialEq, Eq, Structural)]
pub enum Kind {
    /// Explicit thumbs-up on a section.
    Accept,
    /// Cancel/kill this item.
    Reject,
    /// Chose among offered options; see `value`.
    Choice,
    /// Freeform feedback anchored to a line.
    Note,
}

/// The lower-case name of a kind.
pub open spec fn kind_name(k: Kind) -> Seq<char> {
    match k {
        Kind::Accept => "accept"@,
        Kind::Reject => "reject"@,
        Kind::Choice => "choice"@,
        Kind::Note => "note"@,
    }
}

impl Kind {
    /// All kinds, in the order a composer lists them.
    pub fn all() -> (r: Vec<Kind>)
        ensures
            r@ == seq![Kind::Note, Kind::Accept, Kind::Reject, Kind::Choice],
    {
        let r = vec![Kind::Note, Kind::Accept, Kind::Reject, Kind::Choice];
        assert(r@ =~= seq![Kind::Note, Kind::Accept, Kind::Reject, Kind::Choice]);
        r
    }

    /// The lower-case name (`accept`, `reject`, `choice`, `note`).
    pub fn as_str(&self) -> (r: &'static str)
        ensures
            r@ == kind_name(*self),
    {
        match self {
            Kind::Accept => "accept",
            Kind::Reject => "reject",
            Kind::Choice => "choice",
            Kind::Note => "note",
        }
    }
}

/// One comment anchored to a source line of the document under review.
#[derive(Debug, Clone, PartialEq, Eq)]
pub struct Annotation {
    /// Source line number (0-based).
    pub line: usize,
    /// Optional inclusive end line (0-based) for a range comment.
    pub end_line: Option<usize>,
    /// The machine-actionable intent.
    pub kind: Kind,
    /// Freeform comment text.
    pub comment: Option<String>,
    /// For `Kind::Choice`: the option picked.
    pub value: Option<String>,
}

/// The full result of one review turn.
#[derive(Debug, Clone, PartialEq, Eq)]
pub struct ReviewEnvelope {
    /// Schema tag so consumers can version-gate.
    pub schema: String,
    /// The file under review.
    pub file: String,
    /// Opaque id set by whoever launched the review (may be empty).
    pub cut_id: String,
    /// `submitted` or `cancelled`.
    pub status: String,
    /// The comments authored this turn.
    pub annotations: Vec<Annotation>,
}

/// The schema tag every envelope carries.
pub const SCHEMA_TAG: &'static str = "smdr.review/v1";

/// Output serializer for a completed review turn.
#[derive(Clone, Copy, Debug, PartialEq, Eq, Structural)]
pub enum OutputFormat {
    /// Annotated markdown: whole document plus inline markers.
    Md,
    /// Structured JSON envelope (the default).
    Json,
    /// Unified-diff review transport.
    Diff,
}

impl OutputFormat {
    /// The format used when none is asked for: the JSON envelope.
    pub fn default_format() -> (r: OutputFormat)
        ensures
            r == OutputFormat::Json,
    {
        OutputFormat::Json
    }
}

impl ReviewEnvelope {
    /// A submitted envelope for `file` carrying `annotations`.
    pub fn submitted(file: &str, annotations: Vec<Annotation>) -> (r: ReviewEnvelope)
        ensures
            r.schema@ == SCHEMA_TAG@,
            r.file@ == file@,
            r.cut_id@ == Seq::<char>::empty(),
            r.status@ == "submitted"@,
            r.annotations@ == annotations@,
    {
        let mut schema = String::new();
        push_str(&mut schema, SCHEMA_TAG);
        let mut f = String::new();
        push_str(&mut f, file);
        let mut status = String::new();
        push_str(&mut status, "submitted");
        ReviewEnvelope { schema, file: f, cut_id: String::new(), status, annotations }
    }
}

// ---------------------------------------------------------------------------
// Markers
// ---------------------------------------------------------------------------

/// How every marker line begins.
pub open spec fn marker_prefix() -> Seq<char> {
    "<!-- smdr["@
}

/// The inline HTML-comment marker of one annotation, e.g.
/// `<!-- smdr[choice]=B: go with B -->`.
pub open spec fn marker_text(a: Annotation) -> Seq<char> {
    let value = match a.value {
        Some(v) => "="@ + v@,
        None => Seq::<char>::empty(),
    };
    let comment = match a.comment {
        Some(c) => ": "@ + c@,
        None => Seq::<char>::empty(),
    };
    marker_prefix() + kind_name(a.kind) + "]"@ + value + comment + " -->"@
}

/// The marker of one annotation.
pub fn marker(a: &Annotation) -> (s: String)
    ensures
        s@ == marker_text(*a),
{
    let mut s = String::new();
    push_str(&mut s, "<!-- smdr[");
    push_str(&mut s, a.kind.as_str());
    push_str(&mut s, "]");
    let ghost after_kind = s@;
    match &a.value {
        Some(v) => {
            push_str(&mut s, "=");
            push_str(&mut s, v.as_str());
        },
        None => {},
    }
    let ghost after_value = s@;
    match &a.comment {
        Some(c) => {
            push_str(&mut s, ": ");
            push_str(&mut s, c.as_str());
        },
        None => {},
    }
    push_str(&mut s, " -->");
    assert(s@ =~= marker_text(*a));
    s
}

/// A marker spells its annotation out: `<!-- smdr[`, the kind's name
/// (`accept`, `reject`, `choice`, `note`) and `]`, then `=` and the picked
/// option when there is one, then ` -->`; a comment goes, after `: `, right
/// before the closing ` -->` and changes nothing else. So the option is
/// shown whether or not there is a comment.
pub proof fn marker_spells_out_annotation(a: Annotation, c: String)
    ensures
        ({
            let name = match a.kind {
                Kind::Accept => "accept"@,
                Kind::Reject => "reject"@,
                Kind::Choice => "choice"@,
                Kind::Note => "note"@,
            };
            let bare = Annotation { comment: None, ..a };
            &&& a.value is None ==> marker_text(bare) == "<!-- smdr["@ + name + "] -->"@
            &&& a.value matches Some(v) ==> marker_text(bare) == "<!-- smdr["@ + name + "]="@ + v@
                + " -->"@
            &&& marker_text(Annotation { comment: Some(c), ..a }) == marker_text(bare).take(
                marker_text(bare).len() - 4,
            ) + ": "@ + c@ + " -->"@
        }),
{
    reveal_strlit("<!-- smdr[");
    reveal_strlit("]");
    reveal_strlit("=");
    reveal_strlit("]=");
    reveal_strlit(": ");
    reveal_strlit(" -->");
    reveal_strlit("] -->");
    let name = kind_name(a.kind);
    let bare = Annotation { comment: None, ..a };
    let value = match a.value {
        Some(v) => "="@ + v@,
        None => Seq::<char>::empty(),
    };
    let head = marker_prefix() + name + "]"@ + value;
    assert(marker_text(bare) =~= head + " -->"@);
    assert(marker_text(bare).take(marker_text(bare).len() - 4) =~= head);
    assert(marker_text(Annotation { comment: Some(c), ..a }) =~= head + ": "@ + c@ + " -->"@);
    match a.value {
        Some(v) => {
            assert(marker_text(bare) =~= "<!-- smdr["@ + name + "]="@ + v@ + " -->"@);
        },
        None => {
            assert(marker_text(bare) =~= "<!-- smdr["@ + name + "] -->"@);
        },
    }
}

/// The markers of the annotations anchored to `line`, in annotation order.
pub open spec fn markers_on(anns: Seq<Annotation>, line: int) -> Seq<Seq<char>>
    decreases anns.len(),
{
    if anns.len() == 0 {
        Seq::empty()
    } else {
        let rest = markers_on(anns.drop_last(), line);
        if anns.last().line == line {
            rest.push(marker_text(anns.last()))
        } else {
            rest
        }
    }
}

/// Where the markers of an annotation go: after its own line (`None`), or,
/// in the diff of an `n`-line document (`Some(n)`), after its diff anchor.
pub open spec fn group_key(a: Annotation, n: Option<nat>) -> int {
    match n {
        None => a.line as int,
        Some(n) => diff_anchor(a, n),
    }
}

/// The markers of the annotations whose group key is `k`, in annotation
/// order.
pub open spec fn markers_keyed(anns: Seq<Annotation>, n: Option<nat>, k: int) -> Seq<Seq<char>>
    decreases anns.len(),
{
    if anns.len() == 0 {
        Seq::empty()
    } else {
        let rest = markers_keyed(anns.drop_last(), n, k);
        if group_key(anns.last(), n) == k {
            rest.push(marker_text(anns.last()))
        } else {
            rest
        }
    }
}

/// The texts of some strings.
pub open spec fn texts(v: Seq<String>) -> Seq<Seq<char>> {
    v.map_values(|m: String| m@)
}

/// The optional document length as a number.
pub open spec fn nat_opt(n: Option<usize>) -> Option<nat> {
    match n {
        Some(x) => Some(x as nat),
        None => None,
    }
}

/// Grouping by own line gives `markers_on`; grouping by diff anchor gives
/// `markers_at_anchor`.
proof fn lemma_markers_keyed(anns: Seq<Annotation>, n: nat, k: int)
    ensures
        markers_keyed(anns, None, k) == markers_on(anns, k),
        markers_keyed(anns, Some(n), k) == markers_at_anchor(anns, k, n),
    decreases anns.len(),
{
    if anns.len() > 0 {
        lemma_markers_keyed(anns.drop_last(), n, k);
    }
}

/// A group is non-empty exactly when some annotation has its key.
proof fn lemma_markers_keyed_nonempty(anns: Seq<Annotation>, n: Option<nat>, k: int)
    ensures
        markers_keyed(anns, n, k).len() > 0 <==> exists|j: int|
            0 <= j < anns.len() && group_key(anns[j], n) == k,
    decreases anns.len(),
{
    if anns.len() > 0 {
        let p = anns.drop_last();
        lemma_markers_keyed_nonempty(p, n, k);
        if markers_keyed(p, n, k).len() > 0 {
            let j = choose|j: int| 0 <= j < p.len() && group_key(p[j], n) == k;
            assert(anns[j] == p[j]);
        }
        if exists|j: int| 0 <= j < anns.len() && group_key(anns[j], n) == k {
            let j = choose|j: int| 0 <= j < anns.len() && group_key(anns[j], n) == k;
            if j < anns.len() - 1 {
                assert(anns[j] == p[j]);
            }
        }
    }
}

/// The markers of a review grouped by where they go: one group per key
/// that has annotations, keys strictly ascending, each group holding the
/// markers of its annotations in annotation order.
struct MarkerGroups {
    keys: Vec<usize>,
    groups: Vec<Vec<String>>,
}

impl MarkerGroups {
    /// The groups of `anns` keyed by `group_key(_, n)`.
    spec fn wf(self, anns: Seq<Annotation>, n: Option<nat>) -> bool {
        &&& self.keys@.len() == self.groups@.len()
        &&& forall|i: int, j: int| 0 <= i < j < self.keys@.len() ==> self.keys@[i] < self.keys@[j]
        &&& forall|i: int|
            0 <= i < self.keys@.len() ==> texts(#[trigger] self.groups@[i]@) == markers_keyed(
                anns,
                n,
                self.keys@[i] as int,
            )
        &&& forall|i: int| 0 <= i < self.keys@.len() ==> (#[trigger] self.groups@[i]@).len() > 0
        &&& forall|j: int|
            0 <= j < anns.len() ==> exists|i: int|
                0 <= i < self.keys@.len() && self.keys@[i] == group_key(#[trigger] anns[j], n)
    }

    /// Groups the markers of `anns` by own line (`n` is `None`) or by diff
    /// anchor in an `n`-line document.
    fn build(anns: &Vec<Annotation>, n: Option<usize>) -> (g: Self)
        ensures
            g.wf(anns@, nat_opt(n)),
    {
        let ghost nn = nat_opt(n);
        let mut g = MarkerGroups { keys: Vec::new(), groups: Vec::new() };
        let mut i: usize = 0;
        assert(anns@.take(0) =~= Seq::<Annotation>::empty());
        while i < anns.len()
            invariant
                i <= anns@.len(),
                nn == nat_opt(n),
                g.wf(anns@.take(i as int), nn),
            decreases anns@.len() - i,
        {
            let ghost a_prev = anns@.take(i as int);
            let ghost a_next = anns@.take((i + 1) as int);
            assert(a_next.drop_last() =~= a_prev);
            assert(a_next.last() == anns@[i as int]);
            let a = &anns[i];
            let key: usize = match n {
                None => a.line,
                Some(cnt) => {
                    let last: usize = if cnt == 0 {
                        0
                    } else {
                        cnt - 1
                    };
                    if a.line <= last {
                        a.line
                    } else {
                        last
                    }
                },
            };
            assert(key as int == group_key(anns@[i as int], nn));
            let m = marker(a);
            let mut p: usize = 0;
            while p < g.keys.len() && g.keys[p] < key
                invariant
                    p <= g.keys@.len(),
                    forall|j: int| 0 <= j < p ==> g.keys@[j] < key,
                decreases g.keys@.len() - p,
            {
                p = p + 1;
            }
            let ghost ok = g.keys@;
            let ghost og = g.groups@;
            proof {
                assert forall|k: int| #![trigger markers_keyed(a_next, nn, k)]
                    markers_keyed(a_next, nn, k) == (if k == key {
                        markers_keyed(a_prev, nn, k).push(marker_text(anns@[i as int]))
                    } else {
                        markers_keyed(a_prev, nn, k)
                    }) by {}
            }
            if p < g.keys.len() && g.keys[p] == key {
                let mut v = g.groups.remove(p);
                v.push(m);
                g.groups.insert(p, v);
                proof {
                    assert(g.groups@ =~= og.update(p as int, v));
                    assert(texts(v@) =~= texts(og[p as int]@).push(m@));
                    assert forall|q: int| 0 <= q < g.keys@.len() implies texts(
                        #[trigger] g.groups@[q]@,
                    ) == markers_keyed(a_next, nn, g.keys@[q] as int) by {
                        if q != p {
                            if q < p {
                                assert(ok[q] < ok[p as int]);
                            } else {
                                assert(ok[p as int] < ok[q]);
                            }
                        }
                    }
                    assert forall|j: int| 0 <= j < a_next.len() implies exists|q: int|
                        0 <= q < g.keys@.len() && g.keys@[q] == group_key(
                            #[trigger] a_next[j],
                            nn,
                        ) by {
                        if j < i {
                            assert(a_next[j] == a_prev[j]);
                            let q = choose|q: int|
                                0 <= q < ok.len() && ok[q] == group_key(#[trigger] a_prev[j], nn);
                            assert(g.keys@[q] == ok[q]);
                        } else {
                            assert(g.keys@[p as int] == group_key(a_next[j], nn));
                        }
                    }
                }
            } else {
                g.keys.insert(p, key);
                let mut v: Vec<String> = Vec::new();
                v.push(m);
                g.groups.insert(p, v);
                proof {
                    assert(g.keys@ =~= ok.insert(p as int, key));
                    assert(g.groups@ =~= og.insert(p as int, v));
                    assert forall|q: int| p <= q < ok.len() implies ok[q] > key by {
                        if q > p {
                            assert(ok[p as int] < ok[q]);
                        }
                    }
                    assert(markers_keyed(a_prev, nn, key as int).len() == 0) by {
                        lemma_markers_keyed_nonempty(a_prev, nn, key as int);
                        if markers_keyed(a_prev, nn, key as int).len() > 0 {
                            let j = choose|j: int|
                                0 <= j < a_prev.len() && group_key(a_prev[j], nn) == key;
                            let q = choose|q: int|
                                0 <= q < ok.len() && ok[q] == group_key(#[trigger] a_prev[j], nn);
                            assert(q < p || q >= p);
                        }
                    }
                    assert(texts(v@) =~= seq![m@]);
                    assert(markers_keyed(a_prev, nn, key as int) =~= Seq::<Seq<char>>::empty());
                    assert forall|q1: int, q2: int|
                        0 <= q1 < q2 < g.keys@.len() implies g.keys@[q1] < g.keys@[q2] by {
                        if q2 < p {
                            assert(ok[q1] < ok[q2]);
                        } else if q2 == p {
                        } else if q1 < p {
                            assert(g.keys@[q2] == ok[q2 - 1]);
                        } else if q1 == p {
                            assert(g.keys@[q2] == ok[q2 - 1]);
                        } else {
                            assert(ok[q1 - 1] < ok[q2 - 1]);
                        }
                    }
                    assert forall|q: int| 0 <= q < g.keys@.len() implies texts(
                        #[trigger] g.groups@[q]@,
                    ) == markers_keyed(a_next, nn, g.keys@[q] as int) by {
                        if q < p {
                            assert(g.groups@[q] == og[q] && g.keys@[q] == ok[q]);
                        } else if q > p {
                            assert(g.groups@[q] == og[q - 1] && g.keys@[q] == ok[q - 1]);
                        }
                    }
                    assert forall|j: int| 0 <= j < a_next.len() implies exists|q: int|
                        0 <= q < g.keys@.len() && g.keys@[q] == group_key(
                            #[trigger] a_next[j],
                            nn,
                        ) by {
                        if j < i {
                            assert(a_next[j] == a_prev[j]);
                            let q = choose|q: int|
                                0 <= q < ok.len() && ok[q] == group_key(#[trigger] a_prev[j], nn);
                            if q < p {
                                assert(g.keys@[q] == ok[q]);
                            } else {
                                assert(g.keys@[q + 1] == ok[q]);
                            }
                        } else {
                            assert(g.keys@[p as int] == group_key(a_next[j], nn));
                        }
                    }
                }
            }
            i = i + 1;
        }
        assert(anns@.take(anns@.len() as int) =~= anns@);
        g
    }

    /// A copy of the markers whose key is `k`.
    fn markers_at(&self, k: usize, Ghost(anns): Ghost<Seq<Annotation>>, Ghost(n): Ghost<Option<nat>>) -> (ms: Vec<String>)
        requires
            self.wf(anns, n),
        ensures
            texts(ms@) == markers_keyed(anns, n, k as int),
    {
        let mut q: usize = 0;
        while q < self.keys.len()
            invariant
                q <= self.keys@.len(),
                self.wf(anns, n),
                forall|j: int| 0 <= j < q ==> self.keys@[j] != k,
            decreases self.keys@.len() - q,
        {
            if self.keys[q] == k {
                let src = &self.groups[q];
                let mut ms: Vec<String> = Vec::new();
                let mut t: usize = 0;
                while t < src.len()
                    invariant
                        t <= src@.len(),
                        texts(ms@) == texts(src@).take(t as int),
                    decreases src@.len() - t,
                {
                    let mut c = String::new();
                    push_str(&mut c, src[t].as_str());
                    assert(c@ =~= src@[t as int]@);
                    let ghost prev = ms@;
                    ms.push(c);
                    assert(texts(ms@) =~= texts(prev).push(src@[t as int]@));
                    assert(texts(src@).take(t + 1) =~= texts(src@).take(t as int).push(
                        src@[t as int]@,
                    ));
                    t = t + 1;
                }
                assert(texts(src@).take(src@.len() as int) =~= texts(src@));
                assert(texts(self.groups@[q as int]@) == markers_keyed(anns, n, k as int));
                return ms;
            }
            q = q + 1;
        }
        proof {
            lemma_markers_keyed_nonempty(anns, n, k as int);
            if markers_keyed(anns, n, k as int).len() > 0 {
                let j = choose|j: int| 0 <= j < anns.len() && group_key(anns[j], n) == k;
                let q2 = choose|q2: int|
                    0 <= q2 < self.keys@.len() && self.keys@[q2] == group_key(#[trigger] anns[j], n);
                assert(self.keys@[q2] != k);
            }
        }
        let ms: Vec<String> = Vec::new();
        assert(texts(ms@) =~= markers_keyed(anns, n, k as int));
        ms
    }

    /// The smallest annotated line that is at least `k`, for the groups by
    /// own line.
    fn first_line_from(&self, k: usize, Ghost(anns): Ghost<Seq<Annotation>>) -> (r: Option<usize>)
        requires
            self.wf(anns, None),
        ensures
            r matches Some(m) ==> min_line_from(anns, k as int) == Some(m as int),
            r is None ==> min_line_from(anns, k as int) is None,
    {
        let mut q: usize = 0;
        while q < self.keys.len() && self.keys[q] < k
            invariant
                q <= self.keys@.len(),
                self.wf(anns, None),
                forall|j: int| 0 <= j < q ==> self.keys@[j] < k,
            decreases self.keys@.len() - q,
        {
            q = q + 1;
        }
        proof {
            lemma_min_line_from(anns, k as int);
            lemma_count_from_mono(anns, k as int);
            if q < self.keys@.len() {
                let m = self.keys@[q as int];
                assert(texts(self.groups@[q as int]@) == markers_keyed(anns, None, m as int));
                assert(self.groups@[q as int]@.len() > 0);
                lemma_markers_keyed_nonempty(anns, None, m as int);
                let j = choose|j: int| 0 <= j < anns.len() && group_key(anns[j], None) == m;
                assert(anns[j].line >= k);
                let m2 = min_line_from(anns, k as int)->0;
                let j2 = choose|j2: int| 0 <= j2 < anns.len() && anns[j2].line == m2;
                let q2 = choose|q2: int|
                    0 <= q2 < self.keys@.len() && self.keys@[q2] == group_key(#[trigger] anns[j2], None);
                if q2 < q {
                    assert(self.keys@[q2] < k);
                } else if q2 > q {
                    assert(self.keys@[q as int] < self.keys@[q2]);
                }
            } else {
                if min_line_from(anns, k as int) is Some {
                    let m2 = min_line_from(anns, k as int)->0;
                    let j = choose|j: int| 0 <= j < anns.len() && anns[j].line == m2;
                    let q2 = choose|q2: int|
                        0 <= q2 < self.keys@.len() && self.keys@[q2] == group_key(#[trigger] anns[j], None);
                    assert(self.keys@[q2] < k);
                }
            }
        }
        if q < self.keys.len() {
            Some(self.keys[q])
        } else {
            None
        }
    }
}

// ---------------------------------------------------------------------------
// Annotated markdown
// ---------------------------------------------------------------------------

/// Joins lines, each followed by `'\n'`.
pub open spec fn join_lines(xs: Seq<Seq<char>>) -> Seq<char>
    decreases xs.len(),
{
    if xs.len() == 0 {
        Seq::empty()
    } else {
        join_lines(xs.drop_last()) + xs.last() + seq!['\n']
    }
}

/// Number of annotations whose line is at least `k`.
pub open spec fn count_from(anns: Seq<Annotation>, k: int) -> nat
    decreases anns.len(),
{
    if anns.len() == 0 {
        0
    } else {
        count_from(anns.drop_last(), k) + if anns.last().line >= k {
            1nat
        } else {
            0nat
        }
    }
}

/// The smallest annotated line that is at least `k`, if any.
pub open spec fn min_line_from(anns: Seq<Annotation>, k: int) -> Option<int>
    decreases anns.len(),
{
    if anns.len() == 0 {
        None
    } else {
        let r = min_line_from(anns.drop_last(), k);
        let l = anns.last().line as int;
        if l >= k {
            match r {
                Some(m) => Some(if m <= l {
                    m
                } else {
                    l
                }),
                None => Some(l),
            }
        } else {
            r
        }
    }
}

pub proof fn lemma_min_line_from(anns: Seq<Annotation>, k: int)
    ensures
        min_line_from(anns, k) is None <==> count_from(anns, k) == 0,
        min_line_from(anns, k) matches Some(m) ==> {
            &&& m >= k
            &&& exists|j: int| 0 <= j < anns.len() && anns[j].line == m
            &&& forall|j: int| 0 <= j < anns.len() && anns[j].line >= k ==> anns[j].line >= m
            &&& count_from(anns, m + 1) < count_from(anns, k)
        },
    decreases anns.len(),
{
    if anns.len() > 0 {
        let p = anns.drop_last();
        lemma_min_line_from(p, k);
        lemma_count_from_mono(p, k);
        let l = anns.last().line as int;
        match min_line_from(anns, k) {
            Some(m) => {
                if l >= k && (min_line_from(p, k) is None || m == l) {
                    assert(anns[anns.len() - 1].line == m);
                    lemma_count_from_le(p, k, m + 1);
                } else {
                    let j = choose|j: int| 0 <= j < p.len() && p[j].line == m;
                    assert(anns[j] == p[j]);
                    lemma_count_from_le(p, k, m + 1);
                }
                assert forall|j: int| 0 <= j < anns.len() && anns[j].line >= k implies anns[j].line
                    >= m by {
                    if j < anns.len() - 1 {
                        assert(anns[j] == p[j]);
                    }
                }
            },
            None => {},
        }
    }
}

/// Raising the bound never adds annotations.
pub proof fn lemma_count_from_le(anns: Seq<Annotation>, k1: int, k2: int)
    requires
        k1 <= k2,
    ensures
        count_from(anns, k2) <= count_from(anns, k1),
    decreases anns.len(),
{
    if anns.len() > 0 {
        lemma_count_from_le(anns.drop_last(), k1, k2);
    }
}

/// A count of zero means no annotation is at or past the bound.
pub proof fn lemma_count_from_mono(anns: Seq<Annotation>, k: int)
    ensures
        count_from(anns, k) == 0 ==> forall|j: int| 0 <= j < anns.len() ==> anns[j].line < k,
        count_from(anns, k) <= anns.len(),
    decreases anns.len(),
{
    if anns.len() > 0 {
        lemma_count_from_mono(anns.drop_last(), k);
        if count_from(anns, k) == 0 {
            assert forall|j: int| 0 <= j < anns.len() implies anns[j].line < k by {
                if j < anns.len() - 1 {
                    assert(anns[j] == anns.drop_last()[j]);
                }
            }
        }
    }
}

/// The markers of annotations at or past line `k`, grouped by ascending
/// line, annotations on one line in their given order.
pub open spec fn markers_from(anns: Seq<Annotation>, k: int) -> Seq<Seq<char>>
    decreases count_from(anns, k),
{
    match min_line_from(anns, k) {
        None => Seq::empty(),
        Some(m) => {
            proof {
                lemma_min_line_from(anns, k);
            }
            markers_on(anns, m) + markers_from(anns, m + 1)
        },
    }
}

/// The output lines of the annotated document for the first `k` source
/// lines: each source line followed by its markers.
pub open spec fn annotated_prefix(ls: Seq<Seq<char>>, anns: Seq<Annotation>, k: nat) -> Seq<
    Seq<char>,
>
    decreases k,
{
    if k == 0 {
        Seq::empty()
    } else {
        annotated_prefix(ls, anns, (k - 1) as nat).push(ls[k - 1]) + markers_on(anns, k - 1)
    }
}

/// All output lines of the annotated document: every source line followed
/// by the markers anchored to it, then the markers of annotations past the
/// end of the document.
pub open spec fn annotated_lines(src: Seq<char>, anns: Seq<Annotation>) -> Seq<Seq<char>> {
    let ls = lines(src);
    annotated_prefix(ls, anns, ls.len()) + markers_from(anns, ls.len() as int)
}

/// The annotated document.
pub open spec fn annotated_md(src: Seq<char>, anns: Seq<Annotation>) -> Seq<char> {
    join_lines(annotated_lines(src, anns))
}

pub proof fn lemma_join_lines_append(xs: Seq<Seq<char>>, ys: Seq<Seq<char>>)
    ensures
        join_lines(xs + ys) == join_lines(xs) + join_lines(ys),
    decreases ys.len(),
{
    if ys.len() == 0 {
        assert(xs + ys =~= xs);
        assert(join_lines(xs) + join_lines(ys) =~= join_lines(xs));
    } else {
        lemma_join_lines_append(xs, ys.drop_last());
        assert((xs + ys).drop_last() =~= xs + ys.drop_last());
        assert(join_lines(xs + ys) =~= join_lines(xs) + join_lines(ys));
    }
}

/// Appends every string of `ms`, each followed by `'\n'`.
fn push_lines(out: &mut String, ms: &Vec<String>)
    ensures
        final(out)@ == old(out)@ + join_lines(ms@.map_values(|m: String| m@)),
{
    let ghost v = ms@.map_values(|m: String| m@);
    let mut i: usize = 0;
    while i < ms.len()
        invariant
            i <= ms@.len(),
            v == ms@.map_values(|m: String| m@),
            out@ == old(out)@ + join_lines(v.take(i as int)),
        decreases ms@.len() - i,
    {
        push_str(out, ms[i].as_str());
        push_char(out, '\n');
        assert(v.take((i + 1) as int).drop_last() =~= v.take(i as int));
        i = i + 1;
        assert(out@ =~= old(out)@ + join_lines(v.take(i as int)));
    }
    assert(v.take(ms@.len() as int) =~= v);
}

/// Re-emits the whole source document with each annotation woven in as a
/// marker line right after the line it is anchored to; annotations past the
/// end of the document are appended, grouped by ascending line. Source lines
/// are never changed: only marker lines are inserted.
pub fn render_annotated_md(source: &str, env: &ReviewEnvelope) -> (out: String)
    ensures
        out@ == annotated_md(source@, env.annotations@),
{
    let anns = &env.annotations;
    let src = chars_of(source);
    let ls = split_lines(&src);
    let ghost spec_ls = lines(source@);
    let groups = MarkerGroups::build(anns, None);
    let mut out = String::new();
    let mut i: usize = 0;
    while i < ls.len()
        invariant
            groups.wf(anns@, None),
            src@ == source@,
            spec_ls == lines(src@),
            ls@.len() == spec_ls.len(),
            forall|k: int| 0 <= k < ls@.len() ==> #[trigger] ls@[k]@ == spec_ls[k],
            i <= ls@.len(),
            out@ == join_lines(annotated_prefix(spec_ls, anns@, i as nat)),
        decreases ls@.len() - i,
    {
        let ghost before = annotated_prefix(spec_ls, anns@, i as nat);
        push_chars(&mut out, ls[i].as_slice());
        push_char(&mut out, '\n');
        let ms = groups.markers_at(i, Ghost(anns@), Ghost(None));
        push_lines(&mut out, &ms);
        proof {
            lemma_markers_keyed(anns@, 0, i as int);
            let mv = ms@.map_values(|m: String| m@);
            assert(mv =~= markers_on(anns@, i as int));
            lemma_join_lines_append(before.push(spec_ls[i as int]), markers_on(anns@, i as int));
            assert(before.push(spec_ls[i as int]).drop_last() =~= before);
            assert(annotated_prefix(spec_ls, anns@, (i + 1) as nat) == before.push(
                spec_ls[i as int],
            ) + markers_on(anns@, i as int));
        }
        i = i + 1;
    }
    // Annotations past the end of the document, by ascending line.
    let n = ls.len();
    let ghost done = annotated_prefix(spec_ls, anns@, n as nat);
    let mut k: usize = n;
    let mut finished = false;
    proof {
        lemma_join_lines_append(done, markers_from(anns@, n as int));
    }
    while !finished
        invariant
            groups.wf(anns@, None),
            done == annotated_prefix(spec_ls, anns@, ls@.len() as nat),
            spec_ls == lines(source@),
            ls@.len() == spec_ls.len(),
            !finished ==> out@ + join_lines(markers_from(anns@, k as int)) == join_lines(
                annotated_lines(source@, anns@),
            ),
            finished ==> out@ == join_lines(annotated_lines(source@, anns@)),
        decreases count_from(anns@, k as int) + if finished {
            0int
        } else {
            1int
        },
    {
        let ghost rest = markers_from(anns@, k as int);
        match groups.first_line_from(k, Ghost(anns@)) {
            None => {
                assert(rest =~= Seq::<Seq<char>>::empty());
                assert(out@ + join_lines(rest) =~= out@);
                finished = true;
            },
            Some(m) => {
                proof {
                    lemma_min_line_from(anns@, k as int);
                }
                let ms = groups.markers_at(m, Ghost(anns@), Ghost(None));
                let ghost before = out@;
                push_lines(&mut out, &ms);
                proof {
                    lemma_markers_keyed(anns@, 0, m as int);
                    let mv = ms@.map_values(|x: String| x@);
                    assert(mv =~= markers_on(anns@, m as int));
                    lemma_join_lines_append(
                        markers_on(anns@, m as int),
                        markers_from(anns@, m + 1),
                    );
                }
                if m == usize::MAX {
                    proof {
                        lemma_markers_from_empty(anns@, m + 1);
                        assert(out@ + join_lines(markers_from(anns@, m + 1)) =~= out@);
                    }
                    finished = true;
                } else {
                    k = m + 1;
                }
            },
        }
    }
    out
}

/// No annotation at or past `k` means no trailing markers.
pub proof fn lemma_markers_from_empty(anns: Seq<Annotation>, k: int)
    requires
        forall|j: int| 0 <= j < anns.len() ==> anns[j].line < k,
    ensures
        markers_from(anns, k) == Seq::<Seq<char>>::empty(),
{
    lemma_min_line_from(anns, k);
    if count_from(anns, k) > 0 {
        let m = min_line_from(anns, k)->0;
        let j = choose|j: int| 0 <= j < anns.len() && anns[j].line == m;
        assert(anns[j].line < k);
    }
}

// ---------------------------------------------------------------------------
// Diff transport
// ---------------------------------------------------------------------------

/// Unchanged context lines emitted on each side of an insertion.
pub const DIFF_CONTEXT: usize = 6;

/// The line an annotation's markers are inserted after in the diff: its own
/// line, clamped to the last line of the document (0 for an empty one).
pub open spec fn diff_anchor(a: Annotation, n: nat) -> int {
    let last = if n == 0 {
        0int
    } else {
        n - 1
    };
    if a.line <= last {
        a.line as int
    } else {
        last
    }
}

/// The markers inserted after line `at` of an `n`-line document.
pub open spec fn markers_at_anchor(anns: Seq<Annotation>, at: int, n: nat) -> Seq<Seq<char>>
    decreases anns.len(),
{
    if anns.len() == 0 {
        Seq::empty()
    } else {
        let rest = markers_at_anchor(anns.drop_last(), at, n);
        if diff_anchor(anns.last(), n) == at {
            rest.push(marker_text(anns.last()))
        } else {
            rest
        }
    }
}

/// First context line of the hunk around `at`.
pub open spec fn hunk_start(at: int) -> int {
    if at >= DIFF_CONTEXT {
        at - DIFF_CONTEXT
    } else {
        0
    }
}

/// One past the last context line of the hunk around `at`.
pub open spec fn hunk_end(at: int, n: nat) -> int {
    if at + DIFF_CONTEXT + 1 <= n {
        at + DIFF_CONTEXT + 1
    } else {
        n as int
    }
}

/// Inserted lines: `'+'`, the marker, `'\n'`.
pub open spec fn plus_lines(ms: Seq<Seq<char>>) -> Seq<char>
    decreases ms.len(),
{
    if ms.len() == 0 {
        Seq::empty()
    } else {
        plus_lines(ms.drop_last()) + "+"@ + ms.last() + "\n"@
    }
}

/// Context lines `lo..hi` (each `' '`, the line, `'\n'`), with the
/// insertions right after line `at`.
pub open spec fn context_lines(ls: Seq<Seq<char>>, lo: int, hi: int, at: int, ms: Seq<Seq<char>>) -> Seq<char>
    decreases hi - lo,
{
    if hi <= lo {
        Seq::empty()
    } else {
        context_lines(ls, lo, hi - 1, at, ms) + " "@ + ls[hi - 1] + "\n"@ + if hi - 1 == at {
            plus_lines(ms)
        } else {
            Seq::empty()
        }
    }
}

/// The `@@ -s,c +s,t @@` header line of a hunk.
pub open spec fn hunk_header(first: nat, ctx: nat, total: nat) -> Seq<char> {
    "@@ -"@ + decimal(first) + ","@ + decimal(ctx) + " +"@ + decimal(first) + ","@ + decimal(
        total,
    ) + " @@\n"@
}

/// One hunk: its header and its lines. A document without lines has no
/// context, and the hunk is the insertions alone.
pub open spec fn hunk_text(ls: Seq<Seq<char>>, at: int, ms: Seq<Seq<char>>) -> Seq<char> {
    let start = hunk_start(at);
    let end = hunk_end(at, ls.len());
    let ctx = end - start;
    hunk_header((start + 1) as nat, ctx as nat, (ctx + ms.len()) as nat) + if ls.len() == 0 {
        plus_lines(ms)
    } else {
        context_lines(ls, start, end, at, ms)
    }
}

/// The hunks of all anchors below `b`, by ascending anchor.
pub open spec fn hunks_below(ls: Seq<Seq<char>>, anns: Seq<Annotation>, b: nat) -> Seq<char>
    decreases b,
{
    if b == 0 {
        Seq::empty()
    } else {
        let ms = markers_at_anchor(anns, b - 1, ls.len());
        hunks_below(ls, anns, (b - 1) as nat) + if ms.len() > 0 {
            hunk_text(ls, b - 1, ms)
        } else {
            Seq::empty()
        }
    }
}

/// The two header lines of the diff transport.
pub open spec fn diff_header(file: Seq<char>) -> Seq<char> {
    "--- a/"@ + file + "\n"@ + "+++ b/"@ + file
        + "  (smdr review \u{2014} INSERTIONS ONLY, do not git-apply)\n"@
}

/// The diff transport: empty without annotations; otherwise the header and
/// one insertion-only hunk per anchor line.
pub open spec fn diff_text(src: Seq<char>, file: Seq<char>, anns: Seq<Annotation>) -> Seq<char> {
    if anns.len() == 0 {
        Seq::empty()
    } else {
        let ls = lines(src);
        let b = if ls.len() == 0 {
            1nat
        } else {
            ls.len()
        };
        diff_header(file) + hunks_below(ls, anns, b)
    }
}

/// Appends `'+'`, each marker and `'\n'`.
fn push_plus_lines(out: &mut String, ms: &Vec<String>)
    ensures
        final(out)@ == old(out)@ + plus_lines(ms@.map_values(|m: String| m@)),
{
    let ghost v = ms@.map_values(|m: String| m@);
    let mut i: usize = 0;
    while i < ms.len()
        invariant
            i <= ms@.len(),
            v == ms@.map_values(|m: String| m@),
            out@ == old(out)@ + plus_lines(v.take(i as int)),
        decreases ms@.len() - i,
    {
        push_str(out, "+");
        push_str(out, ms[i].as_str());
        push_str(out, "\n");
        assert(v.take((i + 1) as int).drop_last() =~= v.take(i as int));
        i = i + 1;
        assert(out@ =~= old(out)@ + plus_lines(v.take(i as int)));
    }
    assert(v.take(ms@.len() as int) =~= v);
}

/// Appends a hunk header.
fn push_hunk_header(out: &mut String, first: u128, ctx: u128, total: u128)
    ensures
        final(out)@ == old(out)@ + hunk_header(first as nat, ctx as nat, total as nat),
{
    push_str(out, "@@ -");
    push_decimal(out, first);
    push_str(out, ",");
    push_decimal(out, ctx);
    push_str(out, " +");
    push_decimal(out, first);
    push_str(out, ",");
    push_decimal(out, total);
    push_str(out, " @@\n");
    assert(out@ =~= old(out)@ + hunk_header(first as nat, ctx as nat, total as nat));
}

/// Appends the context lines `lo..hi` with the insertions after `at`.
fn push_context(
    out: &mut String,
    ls: &Vec<Vec<char>>,
    lo: usize,
    hi: usize,
    at: usize,
    ms: &Vec<String>,
    Ghost(spec_ls): Ghost<Seq<Seq<char>>>,
)
    requires
        lo <= hi <= ls@.len(),
        ls@.len() == spec_ls.len(),
        forall|k: int| 0 <= k < ls@.len() ==> #[trigger] ls@[k]@ == spec_ls[k],
    ensures
        final(out)@ == old(out)@ + context_lines(
            spec_ls,
            lo as int,
            hi as int,
            at as int,
            ms@.map_values(|m: String| m@),
        ),
{
    let ghost mv = ms@.map_values(|m: String| m@);
    let mut idx = lo;
    while idx < hi
        invariant
            lo <= idx <= hi <= ls@.len(),
            mv == ms@.map_values(|m: String| m@),
            ls@.len() == spec_ls.len(),
            forall|k: int| 0 <= k < ls@.len() ==> #[trigger] ls@[k]@ == spec_ls[k],
            out@ == old(out)@ + context_lines(spec_ls, lo as int, idx as int, at as int, mv),
        decreases hi - idx,
    {
        let ghost before = out@;
        push_str(out, " ");
        push_chars(out, ls[idx].as_slice());
        push_str(out, "\n");
        if idx == at {
            push_plus_lines(out, ms);
        }
        idx = idx + 1;
        assert(out@ =~= old(out)@ + context_lines(spec_ls, lo as int, idx as int, at as int, mv));
    }
}

/// Appends one hunk.
fn push_hunk(
    out: &mut String,
    ls: &Vec<Vec<char>>,
    at: usize,
    ms: &Vec<String>,
    Ghost(spec_ls): Ghost<Seq<Seq<char>>>,
)
    requires
        at < ls@.len() || (at == 0 && ls@.len() == 0),
        ls@.len() == spec_ls.len(),
        forall|k: int| 0 <= k < ls@.len() ==> #[trigger] ls@[k]@ == spec_ls[k],
    ensures
        final(out)@ == old(out)@ + hunk_text(spec_ls, at as int, ms@.map_values(|m: String| m@)),
{
    let n = ls.len();
    let start: usize = if at >= DIFF_CONTEXT {
        at - DIFF_CONTEXT
    } else {
        0
    };
    let end: usize = if n - at > DIFF_CONTEXT {
        at + DIFF_CONTEXT + 1
    } else {
        n
    };
    assert(start == hunk_start(at as int));
    assert(end == hunk_end(at as int, n as nat));
    let ctx = end - start;
    push_hunk_header(out, start as u128 + 1, ctx as u128, ctx as u128 + ms.len() as u128);
    if n == 0 {
        push_plus_lines(out, ms);
    } else {
        push_context(out, ls, start, end, at, ms, Ghost(spec_ls));
    }
}

/// Renders the unified-diff review transport: empty when there are no
/// annotations; otherwise a `---`/`+++` header and, for each anchor line in
/// ascending order, one hunk of up to `DIFF_CONTEXT` context lines on each
/// side with the markers inserted after the anchor. Every hunk is a pure
/// insertion: no source line is removed or changed.
pub fn render_diff(source: &str, env: &ReviewEnvelope) -> (out: String)
    ensures
        out@ == diff_text(source@, env.file@, env.annotations@),
{
    let anns = &env.annotations;
    if anns.len() == 0 {
        return String::new();
    }
    let src = chars_of(source);
    let ls = split_lines(&src);
    let ghost spec_ls = lines(source@);
    let n = ls.len();
    let mut out = String::new();
    push_str(&mut out, "--- a/");
    push_str(&mut out, env.file.as_str());
    push_str(&mut out, "\n");
    push_str(&mut out, "+++ b/");
    push_str(&mut out, env.file.as_str());
    push_str(&mut out, "  (smdr review \u{2014} INSERTIONS ONLY, do not git-apply)\n");
    let ghost head = out@;
    assert(head =~= diff_header(env.file@));
    let bound: usize = if n == 0 {
        1
    } else {
        n
    };
    let groups = MarkerGroups::build(anns, Some(n));
    let mut b: usize = 0;
    while b < bound
        invariant
            groups.wf(anns@, Some(n as nat)),
            b <= bound,
            bound as nat == (if spec_ls.len() == 0 {
                1nat
            } else {
                spec_ls.len()
            }),
            n == ls@.len(),
            spec_ls == lines(source@),
            ls@.len() == spec_ls.len(),
            forall|k: int| 0 <= k < ls@.len() ==> #[trigger] ls@[k]@ == spec_ls[k],
            out@ == head + hunks_below(spec_ls, anns@, b as nat),
        decreases bound - b,
    {
        let ms = groups.markers_at(b, Ghost(anns@), Ghost(Some(n as nat)));
        proof {
            lemma_markers_keyed(anns@, n as nat, b as int);
        }
        let ghost mv = ms@.map_values(|m: String| m@);
        assert(mv =~= markers_at_anchor(anns@, b as int, n as nat));
        if ms.len() > 0 {
            push_hunk(&mut out, &ls, b, &ms, Ghost(spec_ls));
        }
        b = b + 1;
        assert(out@ =~= head + hunks_below(spec_ls, anns@, b as nat));
    }
    out
}

/// Renders one review turn in the requested format. `json` is the
/// serialized envelope, which is what the `Json` format emits.
pub fn render(source: &str, env: &ReviewEnvelope, format: OutputFormat, json: &str) -> (out: String)
    ensures
        format == OutputFormat::Md ==> out@ == annotated_md(source@, env.annotations@),
        format == OutputFormat::Json ==> out@ == json@,
        format == OutputFormat::Diff ==> out@ == diff_text(source@, env.file@, env.annotations@),
{
    match format {
        OutputFormat::Md => render_annotated_md(source, env),
        OutputFormat::Json => {
            let mut s = String::new();
            push_str(&mut s, json);
            s
        },
        OutputFormat::Diff => render_diff(source, env),
    }
}

// ---------------------------------------------------------------------------
// Laws of the annotated document
// ---------------------------------------------------------------------------

/// `s` holds no newline.
pub open spec fn no_newline(s: Seq<char>) -> bool {
    forall|i: int| 0 <= i < s.len() ==> s[i] != '\n'
}

/// `s` does not end with a carriage return.
pub open spec fn no_trailing_cr(s: Seq<char>) -> bool {
    s.len() == 0 || s.last() != '\r'
}

/// The lines that do not start with the marker prefix, in order.
pub open spec fn without_markers(xs: Seq<Seq<char>>) -> Seq<Seq<char>>
    decreases xs.len(),
{
    if xs.len() == 0 {
        Seq::empty()
    } else {
        let r = without_markers(xs.drop_last());
        if starts_with(xs.last(), marker_prefix()) {
            r
        } else {
            r.push(xs.last())
        }
    }
}

/// The comment and value of an annotation hold no newline.
pub open spec fn single_line_annotation(a: Annotation) -> bool {
    &&& (a.comment matches Some(c) ==> no_newline(c@))
    &&& (a.value matches Some(v) ==> no_newline(v@))
}

proof fn lemma_join_front(xs: Seq<Seq<char>>)
    requires
        xs.len() > 0,
    ensures
        join_lines(xs) == xs[0] + seq!['\n'] + join_lines(xs.drop_first()),
    decreases xs.len(),
{
    if xs.len() == 1 {
        assert(xs.drop_first() =~= Seq::<Seq<char>>::empty());
        assert(xs.drop_last() =~= Seq::<Seq<char>>::empty());
        assert(join_lines(xs) =~= xs[0] + seq!['\n'] + join_lines(xs.drop_first()));
    } else {
        lemma_join_front(xs.drop_last());
        assert(xs.drop_last().drop_first() =~= xs.drop_first().drop_last());
        assert(xs.drop_last()[0] == xs[0]);
        assert(xs.drop_first().last() == xs.last());
        assert(join_lines(xs) =~= xs[0] + seq!['\n'] + join_lines(xs.drop_first()));
    }
}

/// Splitting joined lines gives the lines back, when none holds a newline
/// or ends with a carriage return.
pub proof fn lemma_lines_of_join(xs: Seq<Seq<char>>)
    requires
        forall|k: int| 0 <= k < xs.len() ==> no_newline(#[trigger] xs[k]) && no_trailing_cr(xs[k]),
    ensures
        lines(join_lines(xs)) == xs,
    decreases xs.len(),
{
    if xs.len() == 0 {
        assert(lines(join_lines(xs)) =~= xs);
    } else {
        let x = xs[0];
        let rest = xs.drop_first();
        assert forall|k: int| 0 <= k < rest.len() implies no_newline(#[trigger] rest[k])
            && no_trailing_cr(rest[k]) by {
            assert(rest[k] == xs[k + 1]);
        }
        lemma_lines_of_join(rest);
        lemma_join_front(xs);
        let s = join_lines(xs);
        assert(s =~= x + seq!['\n'] + join_lines(rest));
        assert(no_newline(xs[0]) && no_trailing_cr(xs[0]));
        lemma_find_char_is(s, '\n', x.len() as int);
        assert(s.take(x.len() as int) =~= x);
        assert(s.skip(x.len() as int + 1) =~= join_lines(rest));
        assert(strip_cr(x) == x);
        assert(lines(s) =~= seq![x] + rest);
        assert(seq![x] + rest =~= xs);
    }
}

/// No line of a text holds a newline.
pub proof fn lemma_lines_no_newline(s: Seq<char>)
    ensures
        forall|k: int| 0 <= k < lines(s).len() ==> no_newline(#[trigger] lines(s)[k]),
    decreases s.len(),
{
    if s.len() > 0 {
        lemma_find_char(s, '\n');
        let i = find_char(s, '\n');
        if i < s.len() {
            lemma_lines_no_newline(s.skip(i as int + 1));
            let first = strip_cr(s.take(i as int));
            assert(no_newline(first)) by {
                assert forall|j: int| 0 <= j < first.len() implies first[j] != '\n' by {
                    assert(first[j] == s[j]);
                }
            }
            let ls = lines(s);
            assert(ls == seq![first] + lines(s.skip(i as int + 1)));
            assert forall|k: int| 0 <= k < ls.len() implies no_newline(#[trigger] ls[k]) by {
                if k > 0 {
                    assert(ls[k] == lines(s.skip(i as int + 1))[k - 1]);
                }
            }
        }
    }
}

proof fn lemma_marker_shape(a: Annotation)
    requires
        single_line_annotation(a),
    ensures
        starts_with(marker_text(a), marker_prefix()),
        no_newline(marker_text(a)),
        no_trailing_cr(marker_text(a)),
{
    reveal_strlit("<!-- smdr[");
    reveal_strlit("accept");
    reveal_strlit("reject");
    reveal_strlit("choice");
    reveal_strlit("note");
    reveal_strlit("]");
    reveal_strlit("=");
    reveal_strlit(": ");
    reveal_strlit(" -->");
    let m = marker_text(a);
    assert(m.take(marker_prefix().len() as int) =~= marker_prefix());
    let value = match a.value {
        Some(v) => "="@ + v@,
        None => Seq::<char>::empty(),
    };
    let comment = match a.comment {
        Some(c) => ": "@ + c@,
        None => Seq::<char>::empty(),
    };
    assert(no_newline(value));
    assert(no_newline(comment));
    assert(no_newline(kind_name(a.kind)));
    assert(m == marker_prefix() + kind_name(a.kind) + "]"@ + value + comment + " -->"@);
}

/// Every marker anchored to a line is the marker of one of the annotations.
proof fn lemma_markers_on_from(anns: Seq<Annotation>, l: int)
    ensures
        forall|j: int|
            0 <= j < markers_on(anns, l).len() ==> exists|i: int|
                0 <= i < anns.len() && #[trigger] markers_on(anns, l)[j] == marker_text(anns[i]),
    decreases anns.len(),
{
    if anns.len() > 0 {
        let p = anns.drop_last();
        lemma_markers_on_from(p, l);
        assert forall|j: int| 0 <= j < markers_on(anns, l).len() implies exists|i: int|
            0 <= i < anns.len() && #[trigger] markers_on(anns, l)[j] == marker_text(anns[i]) by {
            if j < markers_on(p, l).len() {
                let i = choose|i: int| 0 <= i < p.len() && markers_on(p, l)[j] == marker_text(p[i]);
                assert(anns[i] == p[i]);
            } else {
                assert(markers_on(anns, l)[j] == marker_text(anns[anns.len() - 1]));
            }
        }
    }
}

/// Every trailing marker is the marker of one of the annotations.
proof fn lemma_markers_from_from(anns: Seq<Annotation>, k: int)
    ensures
        forall|j: int|
            0 <= j < markers_from(anns, k).len() ==> exists|i: int|
                0 <= i < anns.len() && #[trigger] markers_from(anns, k)[j] == marker_text(anns[i]),
    decreases count_from(anns, k),
{
    lemma_min_line_from(anns, k);
    match min_line_from(anns, k) {
        None => {},
        Some(m) => {
            lemma_markers_from_from(anns, m + 1);
            lemma_markers_on_from(anns, m);
            let a = markers_on(anns, m);
            let b = markers_from(anns, m + 1);
            assert(markers_from(anns, k) == a + b);
            assert forall|j: int| 0 <= j < markers_from(anns, k).len() implies exists|i: int|
                0 <= i < anns.len() && #[trigger] markers_from(anns, k)[j] == marker_text(
                    anns[i],
                ) by {
                if j < a.len() {
                    assert(markers_from(anns, k)[j] == a[j]);
                } else {
                    assert(markers_from(anns, k)[j] == b[j - a.len()]);
                }
            }
        },
    }
}

proof fn lemma_without_markers_append(xs: Seq<Seq<char>>, ys: Seq<Seq<char>>)
    ensures
        without_markers(xs + ys) == without_markers(xs) + without_markers(ys),
    decreases ys.len(),
{
    if ys.len() == 0 {
        assert(xs + ys =~= xs);
        assert(without_markers(xs) + without_markers(ys) =~= without_markers(xs));
    } else {
        lemma_without_markers_append(xs, ys.drop_last());
        assert((xs + ys).drop_last() =~= xs + ys.drop_last());
        assert((xs + ys).last() == ys.last());
        assert(without_markers(xs + ys) =~= without_markers(xs) + without_markers(ys));
    }
}

proof fn lemma_without_markers_all(xs: Seq<Seq<char>>)
    requires
        forall|j: int| 0 <= j < xs.len() ==> starts_with(#[trigger] xs[j], marker_prefix()),
    ensures
        without_markers(xs) == Seq::<Seq<char>>::empty(),
    decreases xs.len(),
{
    if xs.len() > 0 {
        lemma_without_markers_all(xs.drop_last());
        assert(starts_with(xs[xs.len() - 1], marker_prefix()));
    }
}

/// Every marker of `anns` has the marker shape when the annotations are
/// single-line.
proof fn lemma_all_markers_shape(anns: Seq<Annotation>, xs: Seq<Seq<char>>)
    requires
        forall|j: int| 0 <= j < anns.len() ==> single_line_annotation(#[trigger] anns[j]),
        forall|j: int|
            0 <= j < xs.len() ==> exists|i: int|
                0 <= i < anns.len() && #[trigger] xs[j] == marker_text(anns[i]),
    ensures
        forall|j: int|
            0 <= j < xs.len() ==> starts_with(#[trigger] xs[j], marker_prefix()) && no_newline(
                xs[j],
            ) && no_trailing_cr(xs[j]),
{
    assert forall|j: int| 0 <= j < xs.len() implies starts_with(#[trigger] xs[j], marker_prefix())
        && no_newline(xs[j]) && no_trailing_cr(xs[j]) by {
        let i = choose|i: int| 0 <= i < anns.len() && xs[j] == marker_text(anns[i]);
        lemma_marker_shape(anns[i]);
    }
}

proof fn lemma_prefix_shape(ls: Seq<Seq<char>>, anns: Seq<Annotation>, k: nat)
    requires
        k <= ls.len(),
        forall|j: int| 0 <= j < anns.len() ==> single_line_annotation(#[trigger] anns[j]),
        forall|j: int|
            0 <= j < ls.len() ==> !starts_with(#[trigger] ls[j], marker_prefix()) && no_newline(
                ls[j],
            ) && no_trailing_cr(ls[j]),
    ensures
        without_markers(annotated_prefix(ls, anns, k)) == ls.take(k as int),
        forall|j: int|
            0 <= j < annotated_prefix(ls, anns, k).len() ==> no_newline(
                #[trigger] annotated_prefix(ls, anns, k)[j],
            ) && no_trailing_cr(annotated_prefix(ls, anns, k)[j]),
    decreases k,
{
    if k == 0 {
        assert(ls.take(0) =~= Seq::<Seq<char>>::empty());
    } else {
        let before = annotated_prefix(ls, anns, (k - 1) as nat);
        lemma_prefix_shape(ls, anns, (k - 1) as nat);
        let ms = markers_on(anns, k - 1);
        lemma_markers_on_from(anns, k - 1);
        lemma_all_markers_shape(anns, ms);
        lemma_without_markers_all(ms);
        lemma_without_markers_append(before.push(ls[k - 1]), ms);
        assert(before.push(ls[k - 1]).drop_last() =~= before);
        assert(ls.take(k as int) =~= ls.take(k - 1).push(ls[k - 1]));
        let all = annotated_prefix(ls, anns, k);
        assert(all == before.push(ls[k - 1]) + ms);
        assert forall|j: int| 0 <= j < all.len() implies no_newline(#[trigger] all[j])
            && no_trailing_cr(all[j]) by {
            if j < before.len() {
                assert(all[j] == before[j]);
            } else if j == before.len() {
                assert(all[j] == ls[k - 1]);
            } else {
                assert(all[j] == ms[j - before.len() - 1]);
            }
        }
    }
}

/// The annotated document only inserts marker lines: splitting it into
/// lines gives the source lines, each followed by the markers anchored to
/// it, then the markers past the end; dropping the marker lines gives back
/// exactly the source lines. This holds when no source line looks like a
/// marker or ends with a carriage return, and no comment or value spans
/// several lines.
pub proof fn annotated_md_only_inserts_markers(src: Seq<char>, anns: Seq<Annotation>)
    requires
        forall|j: int| 0 <= j < anns.len() ==> single_line_annotation(#[trigger] anns[j]),
        forall|k: int|
            0 <= k < lines(src).len() ==> !starts_with(#[trigger] lines(src)[k], marker_prefix())
                && no_trailing_cr(lines(src)[k]),
    ensures
        lines(annotated_md(src, anns)) == annotated_lines(src, anns),
        without_markers(lines(annotated_md(src, anns))) == lines(src),
{
    let ls = lines(src);
    lemma_lines_no_newline(src);
    lemma_prefix_shape(ls, anns, ls.len());
    let pre = annotated_prefix(ls, anns, ls.len());
    let tail = markers_from(anns, ls.len() as int);
    lemma_markers_from_from(anns, ls.len() as int);
    lemma_all_markers_shape(anns, tail);
    let all = annotated_lines(src, anns);
    assert(all == pre + tail);
    assert forall|j: int| 0 <= j < all.len() implies no_newline(#[trigger] all[j])
        && no_trailing_cr(all[j]) by {
        if j < pre.len() {
            assert(all[j] == pre[j]);
        } else {
            assert(all[j] == tail[j - pre.len()]);
        }
    }
    lemma_lines_of_join(all);
    lemma_without_markers_all(tail);
    lemma_without_markers_append(pre, tail);
    assert(ls.take(ls.len() as int) =~= ls);
    assert(without_markers(pre) + without_markers(tail) =~= ls);
}


// ---------------------------------------------------------------------------
// The diff transport only inserts
// ---------------------------------------------------------------------------

/// A line of a hunk body that inserts (it begins with `'+'`).
pub open spec fn is_insert_line(l: Seq<char>) -> bool {
    l.len() > 0 && l[0] == '+'
}

/// The lines of a hunk body that are not insertions, in order.
pub open spec fn context_only(xs: Seq<Seq<char>>) -> Seq<Seq<char>>
    decreases xs.len(),
{
    if xs.len() == 0 {
        Seq::empty()
    } else {
        let r = context_only(xs.drop_last());
        if is_insert_line(xs.last()) {
            r
        } else {
            r.push(xs.last())
        }
    }
}

/// The insertion lines of a hunk body, in order.
pub open spec fn inserts_only(xs: Seq<Seq<char>>) -> Seq<Seq<char>>
    decreases xs.len(),
{
    if xs.len() == 0 {
        Seq::empty()
    } else {
        let r = inserts_only(xs.drop_last());
        if is_insert_line(xs.last()) {
            r.push(xs.last())
        } else {
            r
        }
    }
}

/// Each line prefixed with `'+'`.
pub open spec fn plus_marked(ms: Seq<Seq<char>>) -> Seq<Seq<char>> {
    ms.map_values(|m: Seq<char>| "+"@ + m)
}

/// Each line prefixed with `' '`.
pub open spec fn space_marked(ls: Seq<Seq<char>>) -> Seq<Seq<char>> {
    ls.map_values(|l: Seq<char>| " "@ + l)
}

/// The lines of a hunk body: the context lines `lo..hi`, each `' '` and the
/// source line, with the insertions right after line `at`.
pub open spec fn hunk_body(ls: Seq<Seq<char>>, lo: int, hi: int, at: int, ms: Seq<Seq<char>>) -> Seq<
    Seq<char>,
>
    decreases hi - lo,
{
    if hi <= lo {
        Seq::empty()
    } else {
        hunk_body(ls, lo, hi - 1, at, ms).push(" "@ + ls[hi - 1]) + if hi - 1 == at {
            plus_marked(ms)
        } else {
            Seq::empty()
        }
    }
}

proof fn lemma_filters_append(xs: Seq<Seq<char>>, ys: Seq<Seq<char>>)
    ensures
        context_only(xs + ys) == context_only(xs) + context_only(ys),
        inserts_only(xs + ys) == inserts_only(xs) + inserts_only(ys),
    decreases ys.len(),
{
    if ys.len() == 0 {
        assert(xs + ys =~= xs);
        assert(context_only(xs) + context_only(ys) =~= context_only(xs));
        assert(inserts_only(xs) + inserts_only(ys) =~= inserts_only(xs));
    } else {
        lemma_filters_append(xs, ys.drop_last());
        assert((xs + ys).drop_last() =~= xs + ys.drop_last());
        assert((xs + ys).last() == ys.last());
        assert(context_only(xs + ys) =~= context_only(xs) + context_only(ys));
        assert(inserts_only(xs + ys) =~= inserts_only(xs) + inserts_only(ys));
    }
}

proof fn lemma_plus_marked(ms: Seq<Seq<char>>)
    ensures
        context_only(plus_marked(ms)) == Seq::<Seq<char>>::empty(),
        inserts_only(plus_marked(ms)) == plus_marked(ms),
        plus_lines(ms) == join_lines(plus_marked(ms)),
    decreases ms.len(),
{
    reveal_strlit("+");
    reveal_strlit("\n");
    if ms.len() > 0 {
        let p = ms.drop_last();
        lemma_plus_marked(p);
        assert(plus_marked(ms).drop_last() =~= plus_marked(p));
        assert(plus_marked(ms).last() == "+"@ + ms.last());
        assert(("+"@ + ms.last())[0] == '+');
        assert("\n"@ =~= seq!['\n']);
        assert(join_lines(plus_marked(ms)) =~= join_lines(plus_marked(p)) + ("+"@ + ms.last())
            + seq!['\n']);
        assert(plus_lines(ms) =~= plus_lines(p) + "+"@ + ms.last() + "\n"@);
        assert(plus_lines(ms) =~= join_lines(plus_marked(ms)));
    } else {
        assert(plus_marked(ms) =~= Seq::<Seq<char>>::empty());
    }
}

proof fn lemma_hunk_body(ls: Seq<Seq<char>>, lo: int, hi: int, at: int, ms: Seq<Seq<char>>)
    requires
        0 <= lo <= hi <= ls.len(),
    ensures
        context_lines(ls, lo, hi, at, ms) == join_lines(hunk_body(ls, lo, hi, at, ms)),
        context_only(hunk_body(ls, lo, hi, at, ms)) == space_marked(ls.subrange(lo, hi)),
        inserts_only(hunk_body(ls, lo, hi, at, ms)) == (if lo <= at < hi {
            plus_marked(ms)
        } else {
            Seq::<Seq<char>>::empty()
        }),
    decreases hi - lo,
{
    reveal_strlit(" ");
    reveal_strlit("\n");
    if hi > lo {
        lemma_hunk_body(ls, lo, hi - 1, at, ms);
        lemma_plus_marked(ms);
        let before = hunk_body(ls, lo, hi - 1, at, ms);
        let line = " "@ + ls[hi - 1];
        let extra = if hi - 1 == at {
            plus_marked(ms)
        } else {
            Seq::<Seq<char>>::empty()
        };
        assert(line[0] == ' ');
        assert(before.push(line).drop_last() =~= before);
        lemma_filters_append(before.push(line), extra);
        lemma_join_lines_append(before.push(line), extra);
        assert(join_lines(Seq::<Seq<char>>::empty()) =~= Seq::<char>::empty());
        assert(context_only(Seq::<Seq<char>>::empty()) =~= Seq::<Seq<char>>::empty());
        assert(inserts_only(Seq::<Seq<char>>::empty()) =~= Seq::<Seq<char>>::empty());
        assert(space_marked(ls.subrange(lo, hi)) =~= space_marked(ls.subrange(lo, hi - 1)).push(
            line,
        ));
        assert(join_lines(before.push(line)) =~= join_lines(before) + line + seq!['\n']);
        assert(context_lines(ls, lo, hi, at, ms) =~= join_lines(hunk_body(ls, lo, hi, at, ms)));
    } else {
        assert(space_marked(ls.subrange(lo, hi)) =~= Seq::<Seq<char>>::empty());
    }
}

/// Every hunk of the diff transport is a pure insertion: its body is the
/// context lines around the anchor, each `' '` and the unchanged source
/// line, in source order, with the markers (each after a `'+'`) inserted
/// right after the anchor line and nothing else; no line is removed.
pub proof fn diff_hunks_only_insert(ls: Seq<Seq<char>>, at: int, ms: Seq<Seq<char>>)
    requires
        0 <= at < ls.len(),
    ensures
        hunk_text(ls, at, ms) == hunk_header(
            (hunk_start(at) + 1) as nat,
            (hunk_end(at, ls.len()) - hunk_start(at)) as nat,
            (hunk_end(at, ls.len()) - hunk_start(at) + ms.len()) as nat,
        ) + join_lines(hunk_body(ls, hunk_start(at), hunk_end(at, ls.len()), at, ms)),
        context_only(hunk_body(ls, hunk_start(at), hunk_end(at, ls.len()), at, ms)) == space_marked(
            ls.subrange(hunk_start(at), hunk_end(at, ls.len())),
        ),
        inserts_only(hunk_body(ls, hunk_start(at), hunk_end(at, ls.len()), at, ms)) == plus_marked(
            ms,
        ),
{
    lemma_hunk_body(ls, hunk_start(at), hunk_end(at, ls.len()), at, ms);
}


/// A hunk shows six unchanged lines on each side of its anchor line, fewer
/// only where the document begins or ends.
pub proof fn diff_context_is_six_lines(at: int, n: nat)
    requires
        0 <= at < n,
    ensures
        0 <= hunk_start(at) <= at < hunk_end(at, n) <= n,
        at - hunk_start(at) == (if at >= 6 {
            6
        } else {
            at
        }),
        hunk_end(at, n) - at - 1 == (if at + 7 <= n {
            6
        } else {
            n - at - 1
        }),
{
}

/// The diff transport is empty exactly when there are no annotations.
pub proof fn diff_empty_iff_no_annotations(src: Seq<char>, file: Seq<char>, anns: Seq<Annotation>)
    ensures
        (diff_text(src, file, anns).len() == 0) <==> (anns.len() == 0),
{
    reveal_strlit("--- a/");
    if anns.len() > 0 {
        let ls = lines(src);
        let b = if ls.len() == 0 {
            1nat
        } else {
            ls.len()
        };
        assert(diff_text(src, file, anns) == diff_header(file) + hunks_below(ls, anns, b));
        assert(diff_header(file).len() >= 6);
    }
}


proof fn lemma_markers_at_zero(anns: Seq<Annotation>)
    ensures
        markers_at_anchor(anns, 0, 0) == anns.map_values(|a: Annotation| marker_text(a)),
    decreases anns.len(),
{
    if anns.len() > 0 {
        lemma_markers_at_zero(anns.drop_last());
        assert(anns.drop_last().map_values(|a: Annotation| marker_text(a)).push(marker_text(anns.last()))
            =~= anns.map_values(|a: Annotation| marker_text(a)));
    } else {
        assert(anns.map_values(|a: Annotation| marker_text(a)) =~= Seq::<Seq<char>>::empty());
    }
}

/// For a document without lines, every annotation still becomes one
/// inserted marker line, in annotation order, in a single hunk whose counts
/// match: no context line, as many added lines as annotations.
pub proof fn diff_of_empty_source(src: Seq<char>, file: Seq<char>, anns: Seq<Annotation>)
    requires
        lines(src).len() == 0,
        anns.len() > 0,
    ensures
        diff_text(src, file, anns) == diff_header(file) + hunk_header(1, 0, anns.len())
            + plus_lines(anns.map_values(|a: Annotation| marker_text(a))),
{
    let ls = lines(src);
    lemma_markers_at_zero(anns);
    let ms = markers_at_anchor(anns, 0, 0);
    assert(hunks_below(ls, anns, 0) == Seq::<char>::empty());
    assert(hunks_below(ls, anns, 1) =~= hunk_text(ls, 0, ms));
}

} // verus!
