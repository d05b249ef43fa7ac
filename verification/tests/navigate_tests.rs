//! Search hits, anchor resolution, link classification and image sniffing.

use smdr::markdown::extract_toc;
use smdr::navigate::{
    classify_link, find_anchor, find_anchor_lowered, first_hit, highlight_segments, image_source, images_to_load, resolve_path, search_highlights, ImageSource, is_markdown_extension, is_markdown_extension_lowered, is_remote_url, looks_like_svg,
    mermaid_link, search_hits, LinkTarget,
};

#[test]
fn search_hits_are_lines_containing_query() {
    let doc = "Alpha\nbeta ALPHA\ngamma\r\nalphabet";
    assert_eq!(search_hits(doc, "alpha"), vec![0, 1, 3]);
    assert_eq!(search_hits(doc, "gamma"), vec![2]);
    assert_eq!(search_hits(doc, ""), Vec::<usize>::new());
    assert_eq!(search_hits(doc, "zeta"), Vec::<usize>::new());
    assert_eq!(search_hits("", "a"), Vec::<usize>::new());
    assert_eq!(first_hit(&vec![3, 7]), Some(0));
    assert_eq!(first_hit(&vec![]), None);
}

#[test]
fn anchors_resolve_by_slug_then_relaxed() {
    let toc = extract_toc("# Title\n\n## Section One\n\n## Section One\n");
    assert_eq!(toc[1].slug, "section-one");
    assert_eq!(toc[2].slug, "section-one-0");
    assert_eq!(toc[1].slug_normalized, "sectionone");
    assert_eq!(find_anchor(&toc, 5, "Section-One"), Some(1));
    assert_eq!(find_anchor(&toc, 5, "section-one-0"), Some(2));
    assert_eq!(find_anchor(&toc, 5, "section_one"), Some(1));
    assert_eq!(find_anchor(&toc, 5, "---"), None);
    assert_eq!(find_anchor(&toc, 5, "missing"), None);
    assert_eq!(find_anchor(&toc, 0, "title"), None);
    assert_eq!(find_anchor(&Vec::new(), 5, "title"), None);
}

#[test]
fn links_are_classified() {
    assert_eq!(classify_link("smdr-mermaid:graph%20TD"), LinkTarget::Mermaid("graph TD".to_string()));
    assert_eq!(classify_link("smdr-mermaid:%FF"), LinkTarget::Mermaid("%FF".to_string()));
    assert_eq!(classify_link("https://example.com"), LinkTarget::External);
    assert_eq!(classify_link("http://example.com"), LinkTarget::External);
    assert_eq!(classify_link("#sec"), LinkTarget::Anchor("sec".to_string()));
    assert_eq!(classify_link("file:///tmp/a.md"), LinkTarget::Local("/tmp/a.md".to_string()));
    assert_eq!(classify_link("docs/a.md"), LinkTarget::Local("docs/a.md".to_string()));
}

#[test]
fn mermaid_links_percent_encode_the_code() {
    let code = "graph TD;\nA-->B";
    let link = mermaid_link(code);
    assert_eq!(link, "smdr-mermaid:graph%20TD%3B%0AA--%3EB");
    assert_eq!(classify_link(&link), LinkTarget::Mermaid(code.to_string()));
    assert_eq!(mermaid_link("a.b_c~d-e"), "smdr-mermaid:a.b_c~d-e");
    assert_eq!(mermaid_link("\u{e9}"), "smdr-mermaid:%C3%A9");
}

#[test]
fn remote_and_markdown_checks() {
    assert!(is_remote_url("http://a/b.png"));
    assert!(is_remote_url("https://a/b.png"));
    assert!(!is_remote_url("ftp://a/b.png"));
    assert!(!is_remote_url("img/b.png"));
    assert!(is_markdown_extension("md"));
    assert!(is_markdown_extension("MarkDown"));
    assert!(is_markdown_extension("MKD"));
    assert!(is_markdown_extension("mdown"));
    assert!(!is_markdown_extension("txt"));
    assert!(!is_markdown_extension(""));
}

#[test]
fn svg_is_detected_by_name_or_content() {
    assert!(looks_like_svg("pic.svg", b""));
    assert!(looks_like_svg("pic", b"<?xml version=\"1.0\"?>"));
    assert!(looks_like_svg("pic", b"<svg xmlns=\"x\"/>"));
    assert!(looks_like_svg("pic", b"\n\n  <!-- c --> <svg>"));
    assert!(!looks_like_svg("pic.png", b"\x89PNG\r\n"));
    let mut far = vec![b' '; 300];
    far.extend_from_slice(b"<svg>");
    assert!(!looks_like_svg("pic", &far));
    let mut near = vec![b' '; 255];
    near.extend_from_slice(b"<svg>");
    assert!(looks_like_svg("pic", &near));
}

#[test]
fn image_sources_and_paths() {
    assert_eq!(image_source("https://x/p.png", "/doc", true), ImageSource::Remote("https://x/p.png".to_string()));
    assert_eq!(image_source("https://x/p.png", "/doc", false), ImageSource::Blocked);
    assert_eq!(image_source("img/p.png", "/doc", false), ImageSource::Local("/doc/img/p.png".to_string()));
    assert_eq!(image_source("/abs/p.png", "/doc", true), ImageSource::Local("/abs/p.png".to_string()));
    assert_eq!(resolve_path(".", "a.md"), "./a.md");
    assert_eq!(resolve_path("/d/", "a.md"), "/d/a.md");
    assert_eq!(resolve_path("/d", "/e/a.md"), "/e/a.md");
}

#[test]
fn only_new_images_are_loaded() {
    let urls = vec!["a.png".to_string(), "b.png".to_string(), "c.png".to_string(), "a.png".to_string()];
    let cached = vec!["b.png".to_string()];
    let failed = vec!["c.png".to_string()];
    assert_eq!(images_to_load(&urls, &cached, &failed), vec!["a.png".to_string(), "a.png".to_string()]);
    assert_eq!(images_to_load(&urls, &urls, &vec![]), Vec::<String>::new());
}

fn seg(t: &str, h: bool) -> (String, bool) {
    (t.to_string(), h)
}

#[test]
fn search_highlights_split_at_each_match() {
    assert_eq!(
        search_highlights("Hello hello", "HELLO"),
        Some(vec![seg("Hello", true), seg(" ", false), seg("hello", true)])
    );
    assert_eq!(
        search_highlights("a-b-a", "a"),
        Some(vec![seg("a", true), seg("-b-", false), seg("a", true)])
    );
    assert_eq!(search_highlights("xyz", "q"), Some(vec![seg("xyz", false)]));
    assert_eq!(search_highlights("", "q"), Some(vec![seg("", false)]));
    assert_eq!(search_highlights("abc", ""), None);
    assert_eq!(search_highlights("\u{130}x", "x"), None);
    assert_eq!(
        highlight_segments("aaaa", "aaaa", "aa", 2),
        Some(vec![seg("aa", true), seg("aa", true)])
    );
}

#[test]
fn search_highlights_cut_at_byte_offsets() {
    // Lower-casing that keeps byte lengths lines up: whole characters.
    assert_eq!(
        search_highlights("ÉtÉ été", "ÉTÉ"),
        Some(vec![seg("ÉtÉ", true), seg(" ", false), seg("été", true)])
    );
    // Lower-casing that lengthens the text shifts the cuts.
    assert_eq!(search_highlights("\u{130}ab", "a"), Some(vec![seg("\u{130}a", false), seg("b", true)]));
    // A cut that would fall inside a character gives no pieces.
    assert_eq!(search_highlights("\u{212A}x", "k"), None);
    // The typed query's byte length sets the highlighted length.
    assert_eq!(highlight_segments("abcd", "abcd", "b", 2), Some(vec![seg("a", false), seg("bc", true), seg("d", false)]));
    assert_eq!(highlight_segments("abc", "abc", "c", 2), None);
}

#[test]
fn lowered_steps_of_anchor_and_extension() {
    let toc = extract_toc("# Title\n\n## Section One\n\n## Section One\n");
    assert_eq!(find_anchor_lowered(&toc, 5, "section-one"), Some(1));
    assert_eq!(find_anchor_lowered(&toc, 5, "section-one-0"), Some(2));
    assert_eq!(find_anchor_lowered(&toc, 5, "section_one"), Some(1));
    assert_eq!(find_anchor_lowered(&toc, 5, "missing"), None);
    assert!(is_markdown_extension("MD"));
    assert!(is_markdown_extension_lowered("md"));
    assert!(is_markdown_extension_lowered("markdown"));
    assert!(!is_markdown_extension_lowered("MD"));
    assert!(!is_markdown_extension_lowered("txt"));
}
