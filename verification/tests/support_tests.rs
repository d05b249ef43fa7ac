//! Mermaid block discovery, file locations, start-up configuration and the
//! single-instance wire format.

use smdr::annotate::OutputFormat;
use smdr::config::{launch_mode, LaunchMode, PersistedState, ViewerConfig};
use smdr::events::{mermaid_blocks_to_render, new_mermaid_blocks, MdEvent};
use smdr::ipc::{decode_paths, encode_paths};
use smdr::paths::{
    desktop_entry_path, desktop_file_contents, ensure_xdg_assets, icon_path, join_path,
    needs_update, socket_path, state_path, xdg_data_home, XdgStep,
};
use smdr::theme::ThemeArg;

#[test]
fn mermaid_blocks_found_once_in_order() {
    let md = "```mermaid\ngraph TD\n```\n\ntext\n\n```rust\nfn x() {}\n```\n\n```mermaid\nA-->B\n```\n\n```mermaid\ngraph TD\n```\n";
    let found = mermaid_blocks_to_render(md, &vec![]);
    assert_eq!(found, vec!["graph TD\n".to_string(), "A-->B\n".to_string()]);
    let again = mermaid_blocks_to_render(md, &vec!["A-->B\n".to_string()]);
    assert_eq!(again, vec!["graph TD\n".to_string()]);
}

#[test]
fn mermaid_scan_over_events() {
    let evs = vec![
        MdEvent::Text("outside".to_string()),
        MdEvent::CodeBlockStart(Some("mermaid".to_string())),
        MdEvent::Text("a".to_string()),
        MdEvent::Text("b".to_string()),
        MdEvent::CodeBlockEnd,
        MdEvent::CodeBlockStart(None),
        MdEvent::Text("c".to_string()),
        MdEvent::CodeBlockEnd,
    ];
    assert_eq!(new_mermaid_blocks(&evs, &vec![]), vec!["ab".to_string()]);
    assert_eq!(new_mermaid_blocks(&evs, &vec!["ab".to_string()]), Vec::<String>::new());
}

#[test]
fn paths_are_joined_like_pathbuf() {
    assert_eq!(join_path("/a", "b"), "/a/b");
    assert_eq!(join_path("/a/", "b"), "/a/b");
    assert_eq!(join_path("", "b"), "b");
    assert_eq!(state_path(Some("/home/u")), Some("/home/u/.state/smdr/state".to_string()));
    assert_eq!(state_path(None), None);
    assert_eq!(socket_path(Some("/run/user/1000"), 1000), Some("/run/user/1000/smdr-1000.sock".to_string()));
    assert_eq!(socket_path(None, 0), Some("/tmp/smdr-0.sock".to_string()));
}

#[test]
fn xdg_locations_and_stamp() {
    assert_eq!(xdg_data_home("/home/u", None), "/home/u/.local/share");
    assert_eq!(xdg_data_home("/home/u", Some("/xdg")), "/xdg");
    assert_eq!(icon_path("/d"), "/d/icons/hicolor/256x256/apps/smdr.png");
    assert_eq!(desktop_entry_path("/d"), "/d/applications/smdr.desktop");
    let entry = desktop_file_contents("0.1.2");
    assert!(entry.starts_with("[Desktop Entry]\nType=Application\nName=smdr\n"));
    assert!(entry.ends_with("StartupNotify=true\nX-Version=0.1.2\n"));
    assert!(!needs_update(&entry, "0.1.2"));
    assert!(needs_update(&entry, "0.2.0"));
    assert!(needs_update("", "0.1.2"));
}

#[test]
fn xdg_steps_cover_missing_and_stale_files() {
    assert!(ensure_xdg_assets(None, None, false, None, "1").is_empty());
    let all = ensure_xdg_assets(Some("/home/u"), None, false, None, "1");
    assert_eq!(
        all,
        vec![
            XdgStep::InstallIcon(
                "/home/u/.local/share/icons/hicolor/256x256/apps/smdr.png".to_string(),
                "/home/u/.local/share/icons/hicolor".to_string(),
            ),
            XdgStep::InstallDesktopEntry(
                "/home/u/.local/share/applications/smdr.desktop".to_string(),
                desktop_file_contents("1"),
                "/home/u/.local/share/applications".to_string(),
            ),
        ]
    );
    let current = desktop_file_contents("1");
    assert!(ensure_xdg_assets(Some("/home/u"), Some("/x"), true, Some(&current), "1").is_empty());
    let stale = ensure_xdg_assets(Some("/home/u"), Some("/x"), true, Some(&current), "2");
    assert_eq!(stale.len(), 1);
    assert!(matches!(&stale[0], XdgStep::InstallDesktopEntry(p, _, _) if p == "/x/applications/smdr.desktop"));
}

#[test]
fn config_from_options_and_startup_theme() {
    let c = ViewerConfig::from_options(None, true, true, false, None, OutputFormat::Diff);
    assert_eq!(c.theme, ThemeArg::System);
    assert!(!c.theme_explicit);
    assert!(c.watch);
    assert!(!c.network_enabled);
    assert!(c.ipc_enabled);
    let saved = PersistedState { theme: ThemeArg::Nord };
    assert_eq!(c.startup_theme(Some(saved)), ThemeArg::Nord);
    assert_eq!(c.startup_theme(None), ThemeArg::System);
    let e = ViewerConfig::from_options(Some(ThemeArg::Dark), false, false, true, Some("o".into()), OutputFormat::Md);
    assert!(e.theme_explicit && e.review_mode && !e.ipc_enabled && e.network_enabled);
    assert_eq!(e.review_out, Some("o".to_string()));
    assert_eq!(e.review_format, OutputFormat::Md);
    assert_eq!(e.startup_theme(Some(saved)), ThemeArg::Dark);
    assert_eq!(PersistedState::default().theme, ThemeArg::System);
}

#[test]
fn launch_modes() {
    assert_eq!(launch_mode(true, true, true, true, true), LaunchMode::ListThemes);
    assert_eq!(launch_mode(false, true, true, true, false), LaunchMode::ReviewWithoutFile);
    assert_eq!(launch_mode(false, true, false, true, true), LaunchMode::ReviewWithoutFile);
    assert_eq!(launch_mode(false, true, true, false, false), LaunchMode::HeadlessReview);
    assert_eq!(launch_mode(false, true, false, false, true), LaunchMode::ReviewWindow);
    assert_eq!(launch_mode(false, false, true, true, true), LaunchMode::Stdin);
    assert_eq!(launch_mode(false, false, false, true, false), LaunchMode::NoInput);
    assert_eq!(launch_mode(false, false, false, false, true), LaunchMode::Files);
}

#[test]
fn ipc_paths_round_trip() {
    let paths = vec!["/a/one.md".to_string(), "/b/two words.md".to_string()];
    let wire = encode_paths(&paths);
    assert_eq!(wire, "/a/one.md\n/b/two words.md\n");
    assert_eq!(decode_paths(&wire), paths);
    assert_eq!(decode_paths("  /x.md \r\n\n\t\n/y.md"), vec!["/x.md".to_string(), "/y.md".to_string()]);
    assert_eq!(encode_paths(&vec![]), "");
}

#[test]
fn second_xdg_run_plans_nothing() {
    let first = ensure_xdg_assets(Some("/home/u"), None, false, None, "0.3.1");
    assert_eq!(first.len(), 2);
    let written = match &first[1] {
        XdgStep::InstallDesktopEntry(_, c, _) => c.clone(),
        _ => panic!("desktop entry expected"),
    };
    assert!(ensure_xdg_assets(Some("/home/u"), None, true, Some(&written), "0.3.1").is_empty());
}
