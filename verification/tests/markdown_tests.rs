//! Slug generation, heading parsing, outline and link extraction.

use smdr::markdown::{
    extract_atx_heading, extract_links, extract_toc, github_slug, new_slug_counter, normalize_for_match, slug_chars,
    slug_for_base,
};
use std::collections::HashMap;

#[test]
fn markdown_tests_slug_simple_heading() {
    let mut seen = HashMap::new();
    assert_eq!(github_slug("Severity Legend", &mut seen), "#severity-legend");
}

#[test]
fn markdown_tests_slug_apostrophe_removed() {
    let mut seen = HashMap::new();
    assert_eq!(github_slug("What's Done Well", &mut seen), "#whats-done-well");
}

#[test]
fn markdown_tests_slug_preserves_consecutive_hyphens() {
    let mut seen = HashMap::new();
    assert_eq!(
        github_slug("Part I \u{2014} Rust Idioms & Anti-patterns", &mut seen),
        "#part-i--rust-idioms--anti-patterns"
    );
}

#[test]
fn markdown_tests_slug_strips_backticks_keeps_content() {
    let mut seen = HashMap::new();
    assert_eq!(
        github_slug("`run_async` spawns a runtime", &mut seen),
        "#run_async-spawns-a-runtime"
    );
}

#[test]
fn markdown_tests_slug_preserves_underscores() {
    let mut seen = HashMap::new();
    assert_eq!(github_slug("`let _ =` silences errors", &mut seen), "#let-_--silences-errors");
}

#[test]
fn markdown_tests_slug_emoji_and_special_chars_removed() {
    let mut seen = HashMap::new();
    assert_eq!(
        github_slug(
            "I-1 \u{1f534} `HeapError::Success` \u{2014} success state inside an error enum",
            &mut seen
        ),
        "#i-1--heaperrorsuccess--success-state-inside-an-error-enum"
    );
}

#[test]
fn markdown_tests_slug_deduplication() {
    let mut seen = HashMap::new();
    assert_eq!(github_slug("Heading", &mut seen), "#heading");
    assert_eq!(github_slug("Heading", &mut seen), "#heading-0");
    assert_eq!(github_slug("Heading", &mut seen), "#heading-1");
}

#[test]
fn markdown_tests_extract_atx_heading_basic() {
    assert_eq!(extract_atx_heading("## Hello World"), Some("Hello World"));
    assert_eq!(extract_atx_heading("### Foo"), Some("Foo"));
    assert_eq!(extract_atx_heading("Not a heading"), None);
    assert_eq!(extract_atx_heading("####### Too many"), None);
}

#[test]
fn markdown_tests_extract_atx_heading_trailing_hashes() {
    assert_eq!(extract_atx_heading("## Title ##"), Some("Title"));
}

#[test]
fn markdown_tests_normalize_strips_non_alphanumeric() {
    assert_eq!(normalize_for_match("severity-legend"), "severitylegend");
    assert_eq!(
        normalize_for_match("i-1--heaperror-success--success-state-inside-an-error-enum"),
        "i1heaperrorsuccesssuccessstateinsideanerrorenum"
    );
}

#[test]
fn markdown_tests_anchor_match_relaxed_handles_nonstandard_slug() {
    let heading = "I-1 \u{1f534} `HeapError::Success` \u{2014} success state inside an error enum";
    let anchor = "i-1--heaperror-success--success-state-inside-an-error-enum";

    let anchor_normalized = normalize_for_match(&anchor.to_lowercase());
    let heading_normalized = normalize_for_match(&heading.replace('`', "").to_lowercase());
    assert_eq!(anchor_normalized, heading_normalized);
}

#[test]
fn markdown_tests_extract_links_finds_inline_links() {
    let md = "Hello [world](https://example.com) and [foo](./bar.md)";
    let links = extract_links(md);
    assert_eq!(links.len(), 2);
    assert_eq!(links[0].text, "world");
    assert_eq!(links[0].url, "https://example.com");
    assert_eq!(links[1].text, "foo");
    assert_eq!(links[1].url, "./bar.md");
}

#[test]
fn markdown_tests_extract_links_finds_anchor_links() {
    let md = "- [Section One](#section-one)\n- [Section Two](#section-two)\n";
    let links = extract_links(md);
    assert_eq!(links.len(), 2);
    assert_eq!(links[0].url, "#section-one");
    assert_eq!(links[1].url, "#section-two");
    assert_eq!(links[0].line, 0);
    assert_eq!(links[1].line, 1);
}

#[test]
fn markdown_tests_extract_links_with_code_in_text() {
    let md = "See [`Config`](./config.md) for details.";
    let links = extract_links(md);
    assert_eq!(links.len(), 1);
    assert_eq!(links[0].text, "`Config`");
    assert_eq!(links[0].url, "./config.md");
}

#[test]
fn markdown_tests_extract_toc_basic() {
    let md = "# Title\n\nSome text\n\n## Section One\n\nContent\n\n### Subsection\n\n## Section Two\n";
    let toc = extract_toc(md);
    assert_eq!(toc.len(), 4);
    assert_eq!(toc[0].level, 1);
    assert_eq!(toc[0].text, "Title");
    assert_eq!(toc[0].line, 0);
    assert_eq!(toc[1].level, 2);
    assert_eq!(toc[1].text, "Section One");
    assert_eq!(toc[1].line, 4);
    assert_eq!(toc[2].level, 3);
    assert_eq!(toc[2].text, "Subsection");
    assert_eq!(toc[2].line, 8);
    assert_eq!(toc[3].level, 2);
    assert_eq!(toc[3].text, "Section Two");
    assert_eq!(toc[3].line, 10);
}

#[test]
fn markdown_tests_extract_toc_strips_backticks() {
    let md = "## `Config` options\n";
    let toc = extract_toc(md);
    assert_eq!(toc.len(), 1);
    assert_eq!(toc[0].text, "Config options");
}

#[test]
fn markdown_tests_extract_toc_skips_non_headings() {
    let md = "Not a heading\n#nospace\n####### Too many\n## Valid\n";
    let toc = extract_toc(md);
    assert_eq!(toc.len(), 1);
    assert_eq!(toc[0].text, "Valid");
    assert_eq!(toc[0].line, 3);
}

#[test]
fn markdown_tests_extract_toc_trailing_hashes() {
    let md = "## Title ##\n";
    let toc = extract_toc(md);
    assert_eq!(toc.len(), 1);
    assert_eq!(toc[0].text, "Title");
}

#[test]
fn slug_steps_after_lower_casing() {
    assert_eq!(slug_chars("what's done well"), "whats-done-well");
    assert_eq!(slug_chars("a_b - c!"), "a_b---c");
    assert_eq!(slug_chars(""), "");
    let mut seen = new_slug_counter();
    assert!(seen.is_empty());
    assert_eq!(slug_for_base("intro", &mut seen), "#intro");
    assert_eq!(slug_for_base("intro", &mut seen), "#intro-0");
    assert_eq!(slug_for_base("other", &mut seen), "#other");
    assert_eq!(slug_for_base("intro", &mut seen), "#intro-1");
    assert_eq!(seen.get("intro"), Some(&3));
}

#[test]
fn slug_is_lower_case_ascii() {
    let mut seen = new_slug_counter();
    let slug = github_slug("Déjà VU: Über Straße 42_X", &mut seen);
    assert!(slug[1..].chars().all(|c| c.is_ascii_lowercase() || c.is_ascii_digit() || c == '-' || c == '_'));
    assert_eq!(github_slug("ABC", &mut seen), "#abc");
}

#[test]
fn outline_slugs_follow_github_slug_in_order() {
    let toc = extract_toc("# A\n# A\n## B b\n# A\n");
    let slugs: Vec<&str> = toc.iter().map(|e| e.slug.as_str()).collect();
    assert_eq!(slugs, vec!["a", "a-0", "b-b", "a-1"]);
    let mut seen = new_slug_counter();
    for e in &toc {
        assert_eq!(github_slug(&e.text, &mut seen)[1..], e.slug);
    }
    let norm: Vec<&str> = toc.iter().map(|e| e.slug_normalized.as_str()).collect();
    assert_eq!(norm, vec!["a", "a", "bb", "a"]);
}

#[test]
fn links_come_in_source_order() {
    let md = "[a](1.md) and [b](2.md)\n\ntext\n\n- [c](3.md)\n\n> [d](#x)\n";
    let links = extract_links(md);
    let got: Vec<(usize, &str)> = links.iter().map(|l| (l.line, l.url.as_str())).collect();
    assert_eq!(got, vec![(0, "1.md"), (0, "2.md"), (4, "3.md"), (6, "#x")]);
    assert!(links.windows(2).all(|w| w[0].line <= w[1].line));
}
