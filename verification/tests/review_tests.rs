//! Review envelopes, markers, annotated markdown, the diff transport and
//! draft file names.

use smdr::annotate::{
    marker, render, render_annotated_md, render_diff, Annotation, Kind, OutputFormat,
    ReviewEnvelope, SCHEMA_TAG,
};
use smdr::paths::{draft_file_name, draft_path, hash_path};

const DOC: &str = "# Title\nalpha\nbravo\ncharlie\ndelta\necho\nfoxtrot\ngolf\nhotel\n";

fn one(line: usize, kind: Kind, comment: &str) -> ReviewEnvelope {
    ReviewEnvelope::submitted(
        "draft.md",
        vec![Annotation { line, end_line: None, kind, comment: Some(comment.into()), value: None }],
    )
}

fn bare(line: usize, kind: Kind) -> Annotation {
    Annotation { line, end_line: None, kind, comment: None, value: None }
}

#[test]
fn submitted_sets_schema_and_status() {
    let env = ReviewEnvelope::submitted("x.md", vec![]);
    assert_eq!(env.schema, "smdr.review/v1");
    assert_eq!(env.status, "submitted");
}

#[test]
fn annotated_md_inserts_marker_after_line_and_preserves_source() {
    let env = one(2, Kind::Reject, "drop this");
    let out = render_annotated_md(DOC, &env);
    for l in DOC.lines() {
        assert!(out.contains(l), "missing source line: {l}");
    }
    let pos_bravo = out.find("bravo\n").unwrap();
    let pos_marker = out.find("<!-- smdr[reject]: drop this -->").unwrap();
    assert!(pos_marker > pos_bravo);
    let non_marker: Vec<&str> = out.lines().filter(|l| !l.starts_with("<!-- smdr[")).collect();
    assert_eq!(non_marker, DOC.lines().collect::<Vec<_>>());
}

#[test]
fn diff_is_insertion_only_with_context() {
    let env = one(4, Kind::Note, "tighten");
    let out = render_diff(DOC, &env);
    assert!(out.starts_with("--- a/draft.md\n"));
    assert!(out.contains("do not git-apply"));
    assert!(out.contains("@@ "));
    for l in out.lines() {
        if let Some(rest) = l.strip_prefix('+') {
            if rest.starts_with("++") {
                continue;
            }
            assert!(rest.starts_with("<!-- smdr["), "unexpected added line: {l}");
        }
        assert!(!l.starts_with('-') || l.starts_with("---"), "diff must not remove source lines: {l}");
    }
}

#[test]
fn diff_empty_when_no_annotations() {
    let env = ReviewEnvelope::submitted("draft.md", vec![]);
    assert_eq!(render_diff(DOC, &env), "");
}

#[test]
fn hash_is_stable_and_path_dependent() {
    let a = "/tmp/smdr-test/one.md";
    let b = "/tmp/smdr-test/two.md";
    assert_eq!(hash_path(a), hash_path(a), "hash must be deterministic");
    assert_ne!(hash_path(a), hash_path(b), "distinct paths differ");
    assert_eq!(hash_path(a).len(), 16);
}

#[test]
fn hash_path_is_fnv1a_in_hex() {
    assert_eq!(hash_path(""), "cbf29ce484222325");
    assert_eq!(hash_path("a"), "af63dc4c8601ec8c");
    assert_eq!(hash_path("/tmp/smdr-test/one.md"), "69f08ff7c05e2381");
}

#[test]
fn draft_path_joins_temp_dir_and_hash() {
    assert_eq!(draft_file_name("a"), "af63dc4c8601ec8c.json");
    assert_eq!(draft_path("/tmp", "a"), "/tmp/smdr-drafts/af63dc4c8601ec8c.json");
    assert_eq!(draft_path("/tmp/", "a"), "/tmp/smdr-drafts/af63dc4c8601ec8c.json");
}

#[test]
fn marker_formats_value_and_comment() {
    assert_eq!(marker(&bare(0, Kind::Accept)), "<!-- smdr[accept] -->");
    let choice = Annotation {
        line: 14,
        end_line: None,
        kind: Kind::Choice,
        comment: Some("go with B".into()),
        value: Some("B".into()),
    };
    assert_eq!(marker(&choice), "<!-- smdr[choice]=B: go with B -->");
    let reject = Annotation {
        line: 31,
        end_line: Some(33),
        kind: Kind::Reject,
        comment: Some("don't do this one".into()),
        value: None,
    };
    assert_eq!(marker(&reject), "<!-- smdr[reject]: don't do this one -->");
    assert_eq!(Kind::Note.as_str(), "note");
    assert_eq!(Kind::all(), vec![Kind::Note, Kind::Accept, Kind::Reject, Kind::Choice]);
    assert_eq!(SCHEMA_TAG, "smdr.review/v1");
}

#[test]
fn annotated_md_groups_markers_and_appends_past_end() {
    let env = ReviewEnvelope::submitted(
        "d.md",
        vec![bare(1, Kind::Note), bare(7, Kind::Reject), bare(1, Kind::Accept), bare(3, Kind::Choice)],
    );
    let out = render_annotated_md("a\nb\nc\n", &env);
    assert_eq!(
        out,
        "a\nb\n<!-- smdr[note] -->\n<!-- smdr[accept] -->\nc\n<!-- smdr[choice] -->\n<!-- smdr[reject] -->\n"
    );
    assert_eq!(render_annotated_md("", &ReviewEnvelope::submitted("d.md", vec![])), "");
    assert_eq!(render_annotated_md("x\r\ny", &ReviewEnvelope::submitted("d.md", vec![])), "x\ny\n");
}

#[test]
fn diff_hunk_exact_text() {
    let env = one(4, Kind::Note, "tighten");
    let out = render_diff(DOC, &env);
    assert_eq!(
        out,
        "--- a/draft.md\n+++ b/draft.md  (smdr review \u{2014} INSERTIONS ONLY, do not git-apply)\n\
@@ -1,9 +1,10 @@\n # Title\n alpha\n bravo\n charlie\n delta\n+<!-- smdr[note]: tighten -->\n echo\n foxtrot\n golf\n hotel\n"
    );
}

#[test]
fn diff_clamps_anchor_and_trims_context() {
    let src = "l0\nl1\nl2\nl3\nl4\nl5\nl6\nl7\nl8\nl9\n";
    let env = ReviewEnvelope::submitted("f.md", vec![bare(99, Kind::Accept)]);
    let out = render_diff(src, &env);
    assert_eq!(
        out,
        "--- a/f.md\n+++ b/f.md  (smdr review \u{2014} INSERTIONS ONLY, do not git-apply)\n\
@@ -4,7 +4,8 @@\n l3\n l4\n l5\n l6\n l7\n l8\n l9\n+<!-- smdr[accept] -->\n"
    );
    let two = ReviewEnvelope::submitted("f.md", vec![bare(9, Kind::Note), bare(0, Kind::Note)]);
    let out2 = render_diff(src, &two);
    assert_eq!(out2.matches("@@ -").count(), 2);
    assert!(out2.find("@@ -1,7").unwrap() < out2.find("@@ -4,7").unwrap());
}

#[test]
fn diff_of_empty_source_keeps_every_marker() {
    let env = ReviewEnvelope::submitted("e.md", vec![bare(3, Kind::Note), bare(0, Kind::Accept)]);
    let out = render_diff("", &env);
    assert_eq!(
        out,
        "--- a/e.md\n+++ b/e.md  (smdr review \u{2014} INSERTIONS ONLY, do not git-apply)\n@@ -1,0 +1,2 @@\n+<!-- smdr[note] -->\n+<!-- smdr[accept] -->\n"
    );
}

#[test]
fn render_dispatches_on_format() {
    let env = one(0, Kind::Note, "n");
    assert_eq!(render(DOC, &env, OutputFormat::Md, "{}"), render_annotated_md(DOC, &env));
    assert_eq!(render(DOC, &env, OutputFormat::Diff, "{}"), render_diff(DOC, &env));
    assert_eq!(render(DOC, &env, OutputFormat::Json, "{\"schema\":1}"), "{\"schema\":1}");
    assert_eq!(OutputFormat::default_format(), OutputFormat::Json);
    let json_default = render(DOC, &env, OutputFormat::default_format(), "{}");
    assert_eq!(json_default, "{}");
}

#[test]
fn diff_groups_markers_of_one_anchor_in_order() {
    let src = "a\nb\nc\n";
    let env = ReviewEnvelope::submitted(
        "g.md",
        vec![bare(2, Kind::Note), bare(0, Kind::Accept), bare(50, Kind::Reject), bare(2, Kind::Choice)],
    );
    let out = render_diff(src, &env);
    assert_eq!(
        out,
        "--- a/g.md\n+++ b/g.md  (smdr review \u{2014} INSERTIONS ONLY, do not git-apply)\n\
@@ -1,3 +1,4 @@\n a\n+<!-- smdr[accept] -->\n b\n c\n\
@@ -1,3 +1,6 @@\n a\n b\n c\n+<!-- smdr[note] -->\n+<!-- smdr[reject] -->\n+<!-- smdr[choice] -->\n"
    );
}
