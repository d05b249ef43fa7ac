//! Links and mermaid diagrams found through the markdown parser's event
//! stream.
//!
//! The parser (pulldown-cmark) is called by `markdown_events`, which turns
//! each event into an `MdEvent` of this crate; the verified functions below
//! walk those events.

use vstd::prelude::*;
use vstd::string::StringSliceAdditionalSpecFns;

use pulldown_cmark::{CodeBlockKind, Event, Options, Parser, Tag, TagEnd};

use crate::markdown::DocumentLink;
use crate::text::{push_char, push_str};

verus! {

broadcast use vstd::string::group_string_axioms;

/// The parser events the reader looks at, as plain values.
#[derive(Debug, Clone, PartialEq, Eq)]
pub enum MdEvent {
    /// Start of a link: its destination, and the byte offset in the
    /// source where it starts.
    LinkStart(String, usize),
    /// End of a link.
    LinkEnd,
    /// Start of a code block: the info string of a fenced block, `None`
    /// for an indented one.
    CodeBlockStart(Option<String>),
    /// End of a code block.
    CodeBlockEnd,
    /// A text node.
    Text(String),
    /// An inline code node.
    Code(String),
    /// Any other event.
    Other,
}

/// What an `MdEvent` holds.
pub enum MdEventView {
    LinkStart(Seq<char>, usize),
    LinkEnd,
    CodeBlockStart(Option<Seq<char>>),
    CodeBlockEnd,
    Text(Seq<char>),
    Code(Seq<char>),
    Other,
}

impl View for MdEvent {
    type V = MdEventView;

    open spec fn view(&self) -> MdEventView {
        match self {
            MdEvent::LinkStart(url, offset) => MdEventView::LinkStart(url@, *offset),
            MdEvent::LinkEnd => MdEventView::LinkEnd,
            MdEvent::CodeBlockStart(lang) => MdEventView::CodeBlockStart(
                match lang {
                    Some(l) => Some(l@),
                    None => None,
                },
            ),
            MdEvent::CodeBlockEnd => MdEventView::CodeBlockEnd,
            MdEvent::Text(t) => MdEventView::Text(t@),
            MdEvent::Code(c) => MdEventView::Code(c@),
            MdEvent::Other => MdEventView::Other,
        }
    }
}

/// The events pulldown-cmark produces for a document with all extensions
/// enabled (a function of the source text alone).
pub uninterp spec fn parsed_events(source: Seq<char>) -> Seq<MdEventView>;

/// Runs pulldown-cmark (`Parser::new_ext` with `Options::all()`, walked with
/// `into_offset_iter`) and converts each event one for one: link starts
/// with their destination and start offset, link ends, code block starts
/// and ends, text and inline code; everything else becomes `Other`. The
/// contract only names the result; the parser's behaviour is not stated.
#[verifier::external_body]
pub(crate) fn markdown_events(source: &str) -> (r: Vec<MdEvent>)
    ensures
        r@.len() == parsed_events(source@).len(),
        forall|i: int| 0 <= i < r@.len() ==> #[trigger] r@[i]@ == parsed_events(source@)[i],
{
    let mut out = Vec::new();
    for (ev, range) in Parser::new_ext(source, Options::all()).into_offset_iter() {
        out.push(match ev {
            Event::Start(Tag::Link { dest_url, .. }) => MdEvent::LinkStart(dest_url.to_string(), range.start),
            Event::End(TagEnd::Link) => MdEvent::LinkEnd,
            Event::Start(Tag::CodeBlock(CodeBlockKind::Fenced(l))) => MdEvent::CodeBlockStart(Some(l.to_string())),
            Event::Start(Tag::CodeBlock(CodeBlockKind::Indented)) => MdEvent::CodeBlockStart(None),
            Event::End(TagEnd::CodeBlock) => MdEvent::CodeBlockEnd,
            Event::Text(t) => MdEvent::Text(t.to_string()),
            Event::Code(c) => MdEvent::Code(c.to_string()),
            _ => MdEvent::Other,
        });
    }
    out
}

// ---------------------------------------------------------------------------
// Links
// ---------------------------------------------------------------------------

/// Number of `'\n'` bytes in `bytes`.
pub open spec fn newline_count(bytes: Seq<u8>) -> nat
    decreases bytes.len(),
{
    if bytes.len() == 0 {
        0
    } else {
        newline_count(bytes.drop_last()) + if bytes.last() == 10u8 {
            1nat
        } else {
            0nat
        }
    }
}

/// The 0-based line of byte offset `offset`: the newlines before it.
pub open spec fn line_of_offset(bytes: Seq<u8>, offset: nat) -> nat {
    newline_count(bytes.take(if offset <= bytes.len() {
        offset as int
    } else {
        bytes.len() as int
    }))
}

/// A link as plain values: line, destination, display text.
pub struct LinkView {
    pub line: nat,
    pub url: Seq<char>,
    pub text: Seq<char>,
}

/// The state of the link scan.
pub struct LinkScan {
    /// The open link: destination and line.
    pub open: Option<(Seq<char>, nat)>,
    /// Text collected inside the open link.
    pub text: Seq<char>,
    /// Links completed so far.
    pub links: Seq<LinkView>,
}

/// One step of the link scan.
pub open spec fn link_step(bytes: Seq<u8>, st: LinkScan, ev: MdEventView) -> LinkScan {
    match ev {
        MdEventView::LinkStart(url, offset) => LinkScan {
            open: Some((url, line_of_offset(bytes, offset as nat))),
            text: Seq::empty(),
            links: st.links,
        },
        MdEventView::LinkEnd => match st.open {
            Some((url, line)) => LinkScan {
                open: None,
                text: Seq::empty(),
                links: st.links.push(
                    LinkView {
                        line,
                        url,
                        text: if st.text.len() == 0 {
                            url
                        } else {
                            st.text
                        },
                    },
                ),
            },
            None => LinkScan { open: None, text: Seq::empty(), links: st.links },
        },
        MdEventView::Text(t) => if st.open is Some {
            LinkScan { open: st.open, text: st.text + t, links: st.links }
        } else {
            st
        },
        MdEventView::Code(c) => if st.open is Some {
            LinkScan { open: st.open, text: st.text + "`"@ + c + "`"@, links: st.links }
        } else {
            st
        },
        _ => st,
    }
}

/// The link scan after the first `k` events.
pub open spec fn link_scan(bytes: Seq<u8>, evs: Seq<MdEventView>, k: nat) -> LinkScan
    decreases k,
{
    if k == 0 || k > evs.len() {
        LinkScan { open: None, text: Seq::empty(), links: Seq::empty() }
    } else {
        link_step(bytes, link_scan(bytes, evs, (k - 1) as nat), evs[k - 1])
    }
}

/// The links of a document, given its events.
pub open spec fn links_of(bytes: Seq<u8>, evs: Seq<MdEventView>) -> Seq<LinkView> {
    link_scan(bytes, evs, evs.len()).links
}

/// The view of a found link.
pub open spec fn link_view(l: DocumentLink) -> LinkView {
    LinkView { line: l.line as nat, url: l.url@, text: l.text@ }
}

/// Counts the newlines before byte `offset`.
fn line_at(bytes: &[u8], offset: usize) -> (r: usize)
    ensures
        r as nat == line_of_offset(bytes@, offset as nat),
{
    let end = if offset <= bytes.len() {
        offset
    } else {
        bytes.len()
    };
    let mut count: usize = 0;
    let mut i: usize = 0;
    while i < end
        invariant
            i <= end <= bytes@.len(),
            count as nat == newline_count(bytes@.take(i as int)),
            count <= i,
        decreases end - i,
    {
        assert(bytes@.take(i + 1).drop_last() =~= bytes@.take(i as int));
        if bytes[i] == 10u8 {
            count = count + 1;
        }
        i = i + 1;
    }
    count
}

/// Copies a string.
fn copy_string(s: &String) -> (r: String)
    ensures
        r@ == s@,
{
    let mut r = String::new();
    push_str(&mut r, s.as_str());
    r
}

/// Collects the links of a document from its parser events: each link with
/// the line it starts on, its destination, and its display text (text and
/// inline code inside it, code wrapped in backticks; the destination when
/// that text is empty).
pub fn links_from_events(source: &str, events: &Vec<MdEvent>) -> (r: Vec<DocumentLink>)
    ensures
        r@.len() == links_of(source.spec_bytes(), events@.map_values(|e: MdEvent| e@)).len(),
        forall|i: int|
            0 <= i < r@.len() ==> link_view(#[trigger] r@[i]) == links_of(
                source.spec_bytes(),
                events@.map_values(|e: MdEvent| e@),
            )[i],
{
    let bytes = source.as_bytes();
    let ghost evs = events@.map_values(|e: MdEvent| e@);
    let mut links: Vec<DocumentLink> = Vec::new();
    let mut open: Option<(String, usize)> = None;
    let mut text = String::new();
    let mut k: usize = 0;
    while k < events.len()
        invariant
            bytes@ == source.spec_bytes(),
            evs == events@.map_values(|e: MdEvent| e@),
            k <= events@.len(),
            link_scan(bytes@, evs, k as nat).text == text@,
            link_scan(bytes@, evs, k as nat).open == (match open {
                Some((u, l)) => Some((u@, l as nat)),
                None => None,
            }),
            links@.len() == link_scan(bytes@, evs, k as nat).links.len(),
            forall|i: int|
                0 <= i < links@.len() ==> link_view(#[trigger] links@[i]) == link_scan(
                    bytes@,
                    evs,
                    k as nat,
                ).links[i],
        decreases events@.len() - k,
    {
        let ghost before = link_scan(bytes@, evs, k as nat);
        match &events[k] {
            MdEvent::LinkStart(url, offset) => {
                let line = line_at(bytes, *offset);
                open = Some((copy_string(url), line));
                text = String::new();
            },
            MdEvent::LinkEnd => {
                match open {
                    Some((url, line)) => {
                        let display = if text.as_str().is_empty() {
                            copy_string(&url)
                        } else {
                            copy_string(&text)
                        };
                        links.push(DocumentLink { line, url, text: display });
                    },
                    None => {},
                }
                open = None;
                text = String::new();
            },
            MdEvent::Text(t) => {
                if open.is_some() {
                    push_str(&mut text, t.as_str());
                }
            },
            MdEvent::Code(c) => {
                if open.is_some() {
                    push_char(&mut text, '`');
                    push_str(&mut text, c.as_str());
                    push_char(&mut text, '`');
                    proof {
                        reveal_strlit("`");
                    }
                }
            },
            _ => {},
        }
        k = k + 1;
        proof {
            assert(link_scan(bytes@, evs, k as nat) == link_step(bytes@, before, evs[k - 1]));
        }
        assert(text@ =~= link_scan(bytes@, evs, k as nat).text);
    }
    links
}

/// Extracts all links from the markdown source with their line positions.
pub fn extract_links(source: &str) -> (r: Vec<DocumentLink>)
    ensures
        r@.len() == links_of(source.spec_bytes(), parsed_events(source@)).len(),
        forall|i: int|
            0 <= i < r@.len() ==> link_view(#[trigger] r@[i]) == links_of(
                source.spec_bytes(),
                parsed_events(source@),
            )[i],
{
    let events = markdown_events(source);
    assert(events@.map_values(|e: MdEvent| e@) =~= parsed_events(source@));
    links_from_events(source, &events)
}

/// The byte offset a link-start event gives.
pub open spec fn start_offset(ev: MdEventView) -> Option<usize> {
    match ev {
        MdEventView::LinkStart(_, o) => Some(o),
        _ => None,
    }
}

/// The events start links at nondecreasing byte offsets, as a parse of a
/// document in source order does.
pub open spec fn starts_in_order(evs: Seq<MdEventView>) -> bool {
    forall|i: int, j: int|
        0 <= i < j < evs.len() && (#[trigger] start_offset(evs[i])) is Some && (#[trigger] start_offset(
            evs[j],
        )) is Some ==> start_offset(evs[i])->0 <= start_offset(evs[j])->0
}

/// The offset of the last link start among the first `k` events.
pub open spec fn last_start(evs: Seq<MdEventView>, k: nat) -> Option<usize>
    decreases k,
{
    if k == 0 || k > evs.len() {
        None
    } else {
        match start_offset(evs[k - 1]) {
            Some(o) => Some(o),
            None => last_start(evs, (k - 1) as nat),
        }
    }
}

/// The last link start so far is not after any later one.
proof fn lemma_last_start_before(evs: Seq<MdEventView>, k: nat, j: int)
    requires
        starts_in_order(evs),
        k <= j < evs.len(),
        start_offset(evs[j]) is Some,
        last_start(evs, k) is Some,
    ensures
        last_start(evs, k)->0 <= start_offset(evs[j])->0,
    decreases k,
{
    if k > 0 && start_offset(evs[k - 1]) is None {
        lemma_last_start_before(evs, (k - 1) as nat, j);
    }
}

/// Counting newlines over a longer prefix never gives fewer.
proof fn lemma_line_of_offset_mono(bytes: Seq<u8>, a: nat, b: nat)
    requires
        a <= b,
    ensures
        line_of_offset(bytes, a) <= line_of_offset(bytes, b),
    decreases b,
{
    let ea = if a <= bytes.len() {
        a
    } else {
        bytes.len()
    };
    let eb = if b <= bytes.len() {
        b
    } else {
        bytes.len()
    };
    if ea < eb {
        assert(bytes.take(eb as int).drop_last() =~= bytes.take(eb - 1));
        lemma_line_of_offset_mono(bytes, a, (eb - 1) as nat);
    }
}

/// The link scan keeps its links in line order, none after the last link
/// start, and the open link on the line of the last link start.
proof fn lemma_link_scan_ordered(bytes: Seq<u8>, evs: Seq<MdEventView>, k: nat)
    requires
        starts_in_order(evs),
        k <= evs.len(),
    ensures
        ({
            let st = link_scan(bytes, evs, k);
            &&& forall|a: int, b: int|
                0 <= a < b < st.links.len() ==> st.links[a].line <= st.links[b].line
            &&& (st.links.len() > 0 || st.open is Some) ==> last_start(evs, k) is Some
            &&& forall|a: int|
                0 <= a < st.links.len() ==> st.links[a].line <= line_of_offset(
                    bytes,
                    last_start(evs, k)->0 as nat,
                )
            &&& st.open matches Some(p) ==> p.1 == line_of_offset(bytes, last_start(evs, k)->0 as nat)
        }),
    decreases k,
{
    if k > 0 {
        lemma_link_scan_ordered(bytes, evs, (k - 1) as nat);
        let prev = link_scan(bytes, evs, (k - 1) as nat);
        let ev = evs[k - 1];
        assert(link_scan(bytes, evs, k) == link_step(bytes, prev, ev));
        match ev {
            MdEventView::LinkStart(u, o) => {
                if last_start(evs, (k - 1) as nat) is Some {
                    lemma_last_start_before(evs, (k - 1) as nat, k - 1);
                    lemma_line_of_offset_mono(
                        bytes,
                        last_start(evs, (k - 1) as nat)->0 as nat,
                        o as nat,
                    );
                }
            },
            _ => {},
        }
    }
}

/// Links come out in the order of the events that start them: when the
/// events start links at nondecreasing byte offsets (source order), the
/// links' lines never decrease.
pub proof fn links_in_source_order(bytes: Seq<u8>, evs: Seq<MdEventView>)
    requires
        starts_in_order(evs),
    ensures
        forall|a: int, b: int|
            0 <= a < b < links_of(bytes, evs).len() ==> links_of(bytes, evs)[a].line <= links_of(
                bytes,
                evs,
            )[b].line,
{
    lemma_link_scan_ordered(bytes, evs, evs.len());
}

/// Inside a link, the display text grows by each text piece, in event
/// order (inline code wrapped in backticks), and nothing else changes;
/// outside a link, text and code are ignored.
pub proof fn link_text_accumulates(bytes: Seq<u8>, st: LinkScan, t: Seq<char>)
    ensures
        st.open is Some ==> link_step(bytes, st, MdEventView::Text(t)).text == st.text + t,
        st.open is Some ==> link_step(bytes, st, MdEventView::Code(t)).text == st.text + "`"@ + t
            + "`"@,
        link_step(bytes, st, MdEventView::Text(t)).open == st.open,
        link_step(bytes, st, MdEventView::Code(t)).open == st.open,
        link_step(bytes, st, MdEventView::Text(t)).links == st.links,
        link_step(bytes, st, MdEventView::Code(t)).links == st.links,
        st.open is None ==> link_step(bytes, st, MdEventView::Text(t)) == st,
        st.open is None ==> link_step(bytes, st, MdEventView::Code(t)) == st,
{
}

/// A link made of two text pieces gets them both, in order, as its display
/// text (its destination when both are empty), the line its start offset
/// is on and its destination: for the events `LinkStart(u, o)`, `Text(a)`,
/// `Text(b)`, `LinkEnd` there is exactly that one link.
pub proof fn link_of_two_text_pieces(bytes: Seq<u8>, u: Seq<char>, o: usize, a: Seq<char>, b: Seq<char>)
    ensures
        links_of(
            bytes,
            seq![
                MdEventView::LinkStart(u, o),
                MdEventView::Text(a),
                MdEventView::Text(b),
                MdEventView::LinkEnd,
            ],
        ) == seq![
            LinkView {
                line: line_of_offset(bytes, o as nat),
                url: u,
                text: if (a + b).len() == 0 {
                    u
                } else {
                    a + b
                },
            },
        ],
{
    let evs = seq![
        MdEventView::LinkStart(u, o),
        MdEventView::Text(a),
        MdEventView::Text(b),
        MdEventView::LinkEnd,
    ];
    let s1 = link_scan(bytes, evs, 1);
    let s2 = link_scan(bytes, evs, 2);
    let s3 = link_scan(bytes, evs, 3);
    let line = line_of_offset(bytes, o as nat);
    assert(link_scan(bytes, evs, 0).links == Seq::<LinkView>::empty());
    assert(s1.text == Seq::<char>::empty() && s1.open == Some((u, line)) && s1.links.len() == 0);
    assert(s2.text =~= a && s2.open == Some((u, line)) && s2.links.len() == 0);
    assert(s3.text =~= a + b && s3.open == Some((u, line)) && s3.links.len() == 0);
    assert(link_scan(bytes, evs, 4) == link_step(bytes, s3, MdEventView::LinkEnd));
    assert(links_of(bytes, evs) =~= seq![
        LinkView {
            line: line_of_offset(bytes, o as nat),
            url: u,
            text: if (a + b).len() == 0 {
                u
            } else {
                a + b
            },
        },
    ]);
}

// ---------------------------------------------------------------------------
// Mermaid diagrams
// ---------------------------------------------------------------------------

/// The state of the mermaid scan.
pub struct MermaidScan {
    pub inside: bool,
    pub code: Seq<char>,
    pub found: Seq<Seq<char>>,
}

/// One step: a fenced block tagged `mermaid` starts collecting; its text is
/// collected; at its end the code is kept unless already known or found.
pub open spec fn mermaid_step(known: Seq<Seq<char>>, st: MermaidScan, ev: MdEventView) -> MermaidScan {
    match ev {
        MdEventView::CodeBlockStart(Some(l)) => if l == "mermaid"@ {
            MermaidScan { inside: true, code: Seq::empty(), found: st.found }
        } else {
            st
        },
        MdEventView::CodeBlockEnd => if st.inside {
            if known.contains(st.code) || st.found.contains(st.code) {
                MermaidScan { inside: false, code: st.code, found: st.found }
            } else {
                MermaidScan { inside: false, code: Seq::empty(), found: st.found.push(st.code) }
            }
        } else {
            st
        },
        MdEventView::Text(t) => if st.inside {
            MermaidScan { inside: true, code: st.code + t, found: st.found }
        } else {
            st
        },
        _ => st,
    }
}

/// The mermaid scan after the first `k` events.
pub open spec fn mermaid_scan(known: Seq<Seq<char>>, evs: Seq<MdEventView>, k: nat) -> MermaidScan
    decreases k,
{
    if k == 0 || k > evs.len() {
        MermaidScan { inside: false, code: Seq::empty(), found: Seq::empty() }
    } else {
        mermaid_step(known, mermaid_scan(known, evs, (k - 1) as nat), evs[k - 1])
    }
}

/// The diagrams found are new and each is found once: none is among the
/// known ones, and no two are the same.
pub proof fn mermaid_found_are_new(known: Seq<Seq<char>>, evs: Seq<MdEventView>)
    ensures
        forall|i: int|
            0 <= i < mermaid_scan(known, evs, evs.len()).found.len() ==> !known.contains(
                #[trigger] mermaid_scan(known, evs, evs.len()).found[i],
            ),
        forall|i: int, j: int|
            0 <= i < j < mermaid_scan(known, evs, evs.len()).found.len() ==> mermaid_scan(
                known,
                evs,
                evs.len(),
            ).found[i] != mermaid_scan(known, evs, evs.len()).found[j],
{
    lemma_mermaid_found_new(known, evs, evs.len());
}

proof fn lemma_mermaid_found_new(known: Seq<Seq<char>>, evs: Seq<MdEventView>, k: nat)
    ensures
        forall|i: int|
            0 <= i < mermaid_scan(known, evs, k).found.len() ==> !known.contains(
                #[trigger] mermaid_scan(known, evs, k).found[i],
            ),
        forall|i: int, j: int|
            0 <= i < j < mermaid_scan(known, evs, k).found.len() ==> mermaid_scan(known, evs, k).found[i]
                != mermaid_scan(known, evs, k).found[j],
    decreases k,
{
    if k > 0 && k <= evs.len() {
        lemma_mermaid_found_new(known, evs, (k - 1) as nat);
        let st = mermaid_scan(known, evs, (k - 1) as nat);
        let f = st.found;
        let f2 = mermaid_scan(known, evs, k).found;
        if f2.len() > f.len() {
            assert(f2 == f.push(st.code));
            assert forall|i: int, j: int| 0 <= i < j < f2.len() implies f2[i] != f2[j] by {
                if j == f.len() {
                    assert(f2[i] == f[i]);
                    assert(f.contains(f[i]));
                } else {
                    assert(f2[i] == f[i] && f2[j] == f[j]);
                }
            }
            assert forall|i: int| 0 <= i < f2.len() implies !known.contains(#[trigger] f2[i]) by {
                if i < f.len() {
                    assert(f2[i] == f[i]);
                }
            }
        } else {
            assert(f2 == f);
        }
    }
}

/// A fenced block tagged `mermaid` made of two text pieces gives, as its
/// diagram, both pieces in order, unless that code is known; a block with
/// another tag gives nothing.
pub proof fn mermaid_block_code(known: Seq<Seq<char>>, tag: Seq<char>, a: Seq<char>, b: Seq<char>)
    ensures
        ({
            let evs = seq![
                MdEventView::CodeBlockStart(Some(tag)),
                MdEventView::Text(a),
                MdEventView::Text(b),
                MdEventView::CodeBlockEnd,
            ];
            let found = mermaid_scan(known, evs, evs.len()).found;
            &&& tag == "mermaid"@ && !known.contains(a + b) ==> found == seq![a + b]
            &&& tag == "mermaid"@ && known.contains(a + b) ==> found == Seq::<Seq<char>>::empty()
            &&& tag != "mermaid"@ ==> found == Seq::<Seq<char>>::empty()
        }),
{
    let evs = seq![
        MdEventView::CodeBlockStart(Some(tag)),
        MdEventView::Text(a),
        MdEventView::Text(b),
        MdEventView::CodeBlockEnd,
    ];
    let s0 = mermaid_scan(known, evs, 0);
    let s1 = mermaid_scan(known, evs, 1);
    let s2 = mermaid_scan(known, evs, 2);
    let s3 = mermaid_scan(known, evs, 3);
    assert(s0.found.len() == 0 && !s0.inside);
    if tag == "mermaid"@ {
        assert(s1.inside && s1.code.len() == 0 && s1.found.len() == 0);
        assert(s2.inside && s2.code =~= a && s2.found.len() == 0);
        assert(s3.inside && s3.code =~= a + b && s3.found.len() == 0);
        assert(mermaid_scan(known, evs, 4) == mermaid_step(known, s3, MdEventView::CodeBlockEnd));
        assert(!s3.found.contains(a + b));
        if !known.contains(a + b) {
            assert(mermaid_scan(known, evs, 4).found =~= seq![a + b]);
        }
    } else {
        assert(s1 == s0);
        assert(s2 == s0);
        assert(s3 == s0);
    }
}

/// Whether `s` occurs in `xs`.
fn contains_string(xs: &Vec<String>, s: &String) -> (r: bool)
    ensures
        r == xs@.map_values(|x: String| x@).contains(s@),
{
    let ghost v = xs@.map_values(|x: String| x@);
    let mut i: usize = 0;
    while i < xs.len()
        invariant
            i <= xs@.len(),
            v == xs@.map_values(|x: String| x@),
            forall|j: int| 0 <= j < i ==> v[j] != s@,
        decreases xs@.len() - i,
    {
        if xs[i] == *s {
            assert(v[i as int] == s@);
            return true;
        }
        i = i + 1;
    }
    false
}

/// The mermaid diagrams of a document (from its events) that still need
/// rendering: the code of each fenced `mermaid` block, skipping code that is
/// in `known` or already found, in document order.
pub fn new_mermaid_blocks(events: &Vec<MdEvent>, known: &Vec<String>) -> (r: Vec<String>)
    ensures
        r@.map_values(|x: String| x@) == mermaid_scan(
            known@.map_values(|x: String| x@),
            events@.map_values(|e: MdEvent| e@),
            events@.len(),
        ).found,
{
    let ghost evs = events@.map_values(|e: MdEvent| e@);
    let ghost kn = known@.map_values(|x: String| x@);
    let mut found: Vec<String> = Vec::new();
    let mut inside = false;
    let mut code = String::new();
    let mut k: usize = 0;
    while k < events.len()
        invariant
            evs == events@.map_values(|e: MdEvent| e@),
            kn == known@.map_values(|x: String| x@),
            k <= events@.len(),
            mermaid_scan(kn, evs, k as nat).inside == inside,
            mermaid_scan(kn, evs, k as nat).code == code@,
            mermaid_scan(kn, evs, k as nat).found == found@.map_values(|x: String| x@),
        decreases events@.len() - k,
    {
        let ghost before = mermaid_scan(kn, evs, k as nat);
        match &events[k] {
            MdEvent::CodeBlockStart(Some(l)) => {
                let lv = crate::text::chars_of(l.as_str());
                let mv = crate::text::chars_of("mermaid");
                if crate::text::vec_eq(&lv, &mv) {
                    inside = true;
                    code = String::new();
                }
            },
            MdEvent::CodeBlockEnd => {
                if inside {
                    inside = false;
                    if !contains_string(known, &code) && !contains_string(&found, &code) {
                        let c = copy_string(&code);
                        found.push(c);
                        code = String::new();
                        assert(found@.map_values(|x: String| x@) =~= before.found.push(before.code));
                    }
                }
            },
            MdEvent::Text(t) => {
                if inside {
                    push_str(&mut code, t.as_str());
                }
            },
            _ => {},
        }
        k = k + 1;
        assert(mermaid_scan(kn, evs, k as nat) == mermaid_step(kn, before, evs[k - 1]));
    }
    found
}

/// The mermaid diagrams of a document that still need rendering.
pub fn mermaid_blocks_to_render(source: &str, known: &Vec<String>) -> (r: Vec<String>)
    ensures
        r@.map_values(|x: String| x@) == mermaid_scan(
            known@.map_values(|x: String| x@),
            parsed_events(source@),
            parsed_events(source@).len(),
        ).found,
{
    let events = markdown_events(source);
    assert(events@.map_values(|e: MdEvent| e@) =~= parsed_events(source@));
    new_mermaid_blocks(&events, known)
}

} // verus!
