//! Navigation history, tabs, selections, two-key sequences, the key map and
//! line comments.

use smdr::annotate::Kind;
use smdr::markdown::DocumentLink;
use smdr::viewer::{
    activate, command_for_key, cycle_next, cycle_prev, press_pending_key, section_for_line, sidebar_next,
    open_target, sidebar_prev, sidebar_toggle_focus, search_counter, sidebar_toggle_visibility, status_text, toggle_overlay, Command,
    Activation, CommentList, KeyContext, KeyPress, KeySequence, Modifiers, NamedKey, NavHistory, OpenTarget, OverlayKind,
    SidebarState, TabClose, TabStrip, LINE_SCROLL, PAGE_SCROLL,
};

#[test]
fn cyclic_selection_wraps_both_ways() {
    assert_eq!(cycle_next(None, 3), Some(0));
    assert_eq!(cycle_next(Some(1), 3), Some(2));
    assert_eq!(cycle_next(Some(2), 3), Some(0));
    assert_eq!(cycle_prev(None, 3), Some(2));
    assert_eq!(cycle_prev(Some(0), 3), Some(2));
    assert_eq!(cycle_prev(Some(2), 3), Some(1));
    for i in 0..5 {
        assert_eq!(cycle_prev(cycle_next(Some(i), 5), 5), Some(i));
        assert_eq!(cycle_next(cycle_prev(Some(i), 5), 5), Some(i));
    }
}

#[test]
fn outline_selection_stops_at_ends() {
    assert_eq!(sidebar_next(None, 4), Some(0));
    assert_eq!(sidebar_next(Some(2), 4), Some(3));
    assert_eq!(sidebar_next(Some(3), 4), Some(3));
    assert_eq!(sidebar_prev(Some(0)), Some(0));
    assert_eq!(sidebar_prev(Some(3)), Some(2));
    assert_eq!(sidebar_prev(None), Some(0));
}

#[test]
fn section_in_view_is_last_heading_above() {
    let lines = vec![0usize, 4, 8, 10];
    assert_eq!(section_for_line(&lines, 0), 0);
    assert_eq!(section_for_line(&lines, 5), 1);
    assert_eq!(section_for_line(&lines, 8), 2);
    assert_eq!(section_for_line(&lines, 100), 3);
    assert_eq!(section_for_line(&vec![3usize, 9], 1), 0);
    assert_eq!(section_for_line(&vec![], 7), 0);
}

#[test]
fn two_key_sequences() {
    let (p, a) = press_pending_key(None, 'g');
    assert_eq!((p, a), (Some('g'), KeySequence::Nothing));
    assert_eq!(press_pending_key(p, 'g'), (None, KeySequence::ScrollToTop));
    assert_eq!(press_pending_key(Some('G'), 'G'), (None, KeySequence::ScrollToBottom));
    assert_eq!(press_pending_key(Some('q'), 'q'), (None, KeySequence::Exit));
    assert_eq!(press_pending_key(Some('Z'), 'Z'), (None, KeySequence::Exit));
    assert_eq!(press_pending_key(Some('`'), '`'), (None, KeySequence::JumpToLastPosition));
    assert_eq!(press_pending_key(Some('g'), 'q'), (Some('q'), KeySequence::Nothing));
    assert_eq!(press_pending_key(Some('x'), 'x'), (None, KeySequence::Nothing));
    assert_eq!(press_pending_key(Some('g'), 't'), (None, KeySequence::NextTab));
    assert_eq!(press_pending_key(Some('g'), 'T'), (None, KeySequence::PrevTab));
    assert_eq!(press_pending_key(Some('t'), 'g'), (Some('g'), KeySequence::Nothing));
}

#[test]
fn overlays_and_sidebar_toggle() {
    assert_eq!(toggle_overlay(OverlayKind::Hidden, OverlayKind::Shortcuts), OverlayKind::Shortcuts);
    assert_eq!(toggle_overlay(OverlayKind::Shortcuts, OverlayKind::Shortcuts), OverlayKind::Hidden);
    assert_eq!(toggle_overlay(OverlayKind::About, OverlayKind::Shortcuts), OverlayKind::Shortcuts);
    let closed = SidebarState { open: false, focused: false, selected: Some(1) };
    let (s, scroll) = sidebar_toggle_visibility(closed, Some(4));
    assert_eq!(s, SidebarState { open: true, focused: true, selected: Some(4) });
    assert!(scroll);
    let (s2, scroll2) = sidebar_toggle_visibility(s, Some(0));
    assert_eq!(s2, SidebarState { open: false, focused: false, selected: Some(4) });
    assert!(!scroll2);
    let (s3, _) = sidebar_toggle_focus(SidebarState { open: true, focused: true, selected: Some(2) }, Some(5));
    assert_eq!(s3, SidebarState { open: true, focused: false, selected: Some(2) });
    let (s4, r4) = sidebar_toggle_focus(s3, Some(5));
    assert_eq!(s4, SidebarState { open: true, focused: true, selected: Some(5) });
    assert!(r4);
}

#[test]
fn history_push_back_forward() {
    let mut h = NavHistory::new("a");
    assert!(!h.back());
    assert!(!h.forward());
    h.push("b");
    h.push("c");
    assert_eq!((h.index(), h.len(), *h.current()), (2, 3, "c"));
    assert!(h.back());
    assert!(h.back());
    assert_eq!(*h.current(), "a");
    assert!(!h.back());
    assert!(h.forward());
    assert_eq!(*h.current(), "b");
    h.push("d");
    assert_eq!(h.len(), 3);
    assert!(!h.forward());
    assert!(h.back());
    assert_eq!(*h.current(), "b");
    h.set_current("B");
    assert_eq!(*h.current(), "B");
}

fn visual(t: &TabStrip<&'static str>, cur: &'static str) -> Vec<&'static str> {
    let mut v = t.background().clone();
    v.insert(t.active(), cur);
    v
}

#[test]
fn tabs_open_switch_close() {
    let mut t: TabStrip<&'static str> = TabStrip::new();
    assert_eq!(t.next_slot(), None);
    assert_eq!(t.prev_slot(), None);
    t.open_new("a");
    t.open_new("b");
    assert_eq!(visual(&t, "c"), vec!["a", "b", "c"]);
    assert_eq!(t.active(), 2);
    assert_eq!(t.next_slot(), Some(0));
    assert_eq!(t.prev_slot(), Some(1));
    assert!(!t.can_switch(2));
    assert!(!t.can_switch(3));
    assert!(t.can_switch(0));
    let incoming = t.switch(0, "c");
    assert_eq!(incoming, "a");
    assert_eq!(visual(&t, incoming), vec!["a", "b", "c"]);
    assert_eq!(t.slot_of(0), 1);
    match t.close(2) {
        TabClose::Removed => {}
        _ => panic!("expected a background tab to close"),
    }
    assert_eq!(visual(&t, "a"), vec!["a", "b"]);
    match t.close(0) {
        TabClose::Promote(x) => assert_eq!(x, "b"),
        _ => panic!("expected the neighbour to be promoted"),
    }
    assert_eq!(t.background_len(), 0);
    assert!(matches!(t.close(0), TabClose::ExitApp));
}

#[test]
fn closing_last_active_tab_promotes_left_neighbour() {
    let mut t: TabStrip<&'static str> = TabStrip::new();
    t.open_new("a");
    t.open_new("b");
    match t.close(2) {
        TabClose::Promote(x) => assert_eq!(x, "b"),
        _ => panic!("expected promotion"),
    }
    assert_eq!(t.active(), 1);
    assert_eq!(visual(&t, "b"), vec!["a", "b"]);
    assert!(matches!(t.close(7), TabClose::Ignored));
}

fn none() -> Modifiers {
    Modifiers { control: false, shift: false, alt: false }
}

fn doc() -> KeyContext {
    KeyContext { search_mode: false, has_overlay: false, sidebar_focused: false, composing: false, review_mode: false }
}

fn ch(c: char) -> KeyPress {
    KeyPress::Character { key: Some(c), shifted: Some(c) }
}

#[test]
fn key_map_document_view() {
    assert_eq!(command_for_key(ch('j'), none(), doc()), Some(Command::ScrollBy(LINE_SCROLL)));
    assert_eq!(command_for_key(ch('k'), none(), doc()), Some(Command::ScrollBy(-40)));
    assert_eq!(command_for_key(ch('/'), none(), doc()), Some(Command::SearchOpen));
    assert_eq!(command_for_key(ch('g'), none(), doc()), Some(Command::PendingKey('g')));
    let ctrl = Modifiers { control: true, shift: false, alt: false };
    assert_eq!(command_for_key(ch('d'), ctrl, doc()), Some(Command::ScrollBy(PAGE_SCROLL)));
    assert_eq!(command_for_key(ch('t'), ctrl, doc()), Some(Command::CycleTheme));
    assert_eq!(command_for_key(KeyPress::Named(NamedKey::Home), none(), doc()), Some(Command::ScrollToTop));
    let shift = Modifiers { control: false, shift: true, alt: false };
    assert_eq!(command_for_key(KeyPress::Named(NamedKey::Tab), shift, doc()), Some(Command::FocusPrevLink));
    let alt = Modifiers { control: false, shift: false, alt: true };
    assert_eq!(command_for_key(ch('j'), alt, doc()), None);
}

#[test]
fn key_map_escape_and_modes() {
    let esc = KeyPress::Named(NamedKey::Escape);
    let overlay = KeyContext { search_mode: true, has_overlay: true, sidebar_focused: true, composing: true, review_mode: true };
    assert_eq!(command_for_key(esc, none(), overlay), Some(Command::CloseOverlay));
    let search = KeyContext { search_mode: true, has_overlay: false, sidebar_focused: true, composing: false, review_mode: false };
    assert_eq!(command_for_key(esc, none(), search), Some(Command::SearchClose));
    assert_eq!(command_for_key(ch('j'), none(), search), None);
    let side = KeyContext { search_mode: false, has_overlay: false, sidebar_focused: true, composing: false, review_mode: false };
    assert_eq!(command_for_key(esc, none(), side), Some(Command::UnfocusSidebar));
    assert_eq!(command_for_key(ch('j'), none(), side), Some(Command::SidebarNext));
    assert_eq!(command_for_key(KeyPress::Named(NamedKey::Enter), none(), side), Some(Command::SidebarActivate));
    assert_eq!(command_for_key(esc, none(), doc()), None);
}

#[test]
fn comments_replace_delete_and_stay_sorted() {
    let mut c = CommentList::new();
    c.submit(5, "  five  ");
    c.submit(1, "one");
    c.submit(3, "three");
    let lines: Vec<usize> = c.items().iter().map(|x| x.line).collect();
    assert_eq!(lines, vec![1, 3, 5]);
    assert_eq!(c.text_on(5), Some("five".to_string()));
    c.submit(3, "again");
    assert_eq!(c.text_on(3), Some("again".to_string()));
    assert_eq!(c.items().len(), 3);
    c.submit(1, "   ");
    assert_eq!(c.text_on(1), None);
    assert_eq!(c.items().len(), 2);
    assert_eq!(c.text_on(9), None);
}

#[test]
fn reopening_an_open_document_never_duplicates_it() {
    let bg = vec!["/a.md".to_string(), "/c.md".to_string(), "/c.md".to_string()];
    assert_eq!(open_target("/b.md", &bg, 1, "/b.md"), OpenTarget::ReloadActive);
    assert_eq!(open_target("/b.md", &bg, 1, "/a.md"), OpenTarget::SwitchTo(0));
    assert_eq!(open_target("/b.md", &bg, 1, "/c.md"), OpenTarget::SwitchTo(2));
    assert_eq!(open_target("/b.md", &bg, 0, "/a.md"), OpenTarget::SwitchTo(1));
    assert_eq!(open_target("/b.md", &bg, 1, "/d.md"), OpenTarget::OpenNew);
    assert_eq!(open_target("/b.md", &vec![], 0, "/d.md"), OpenTarget::OpenNew);
}

#[test]
fn status_bar_messages() {
    let links = vec![
        DocumentLink { line: 0, url: "https://a".to_string(), text: "A".to_string() },
        DocumentLink { line: 2, url: "#b".to_string(), text: "B".to_string() },
    ];
    assert_eq!(status_text(3, false, Some(1), "foo", &links, Some(0)), "[2/3] \"foo\"");
    assert_eq!(status_text(3, false, None, "foo", &links, None), "[0/3] \"foo\"");
    assert_eq!(status_text(3, true, Some(1), "foo", &links, Some(1)), "[2/2] B \u{2192} #b");
    assert_eq!(status_text(0, false, None, "", &links, Some(0)), "[1/2] A \u{2192} https://a");
    assert_eq!(status_text(0, false, None, "", &links, None), "");
}

#[test]
fn search_counter_texts() {
    assert_eq!(search_counter(0, None, true), "");
    assert_eq!(search_counter(0, None, false), "No matches");
    assert_eq!(search_counter(12, Some(0), false), "1/12");
    assert_eq!(search_counter(12, None, false), "0/12");
}

#[test]
fn comments_become_note_annotations() {
    let mut c = CommentList::new();
    c.submit(7, "later");
    c.submit(2, " first ");
    let anns = c.to_annotations();
    assert_eq!(anns.len(), 2);
    assert_eq!((anns[0].line, anns[0].kind, anns[0].comment.as_deref()), (2, Kind::Note, Some("first")));
    assert_eq!((anns[1].line, anns[1].comment.as_deref()), (7, Some("later")));
    assert!(anns.iter().all(|a| a.value.is_none() && a.end_line.is_none()));
}

#[test]
fn key_map_tabs_review_and_composer() {
    let ctrl = Modifiers { control: true, shift: false, alt: false };
    let ctrl_shift = Modifiers { control: true, shift: true, alt: false };
    let tab = KeyPress::Named(NamedKey::Tab);
    assert_eq!(command_for_key(tab, ctrl, doc()), Some(Command::NextTab));
    assert_eq!(command_for_key(tab, ctrl_shift, doc()), Some(Command::PrevTab));
    assert_eq!(command_for_key(ch('w'), ctrl, doc()), Some(Command::CloseActiveTab));
    assert_eq!(command_for_key(ch('t'), none(), doc()), Some(Command::PendingKey('t')));
    assert_eq!(command_for_key(ch('c'), none(), doc()), None);
    let review = KeyContext { search_mode: false, has_overlay: false, sidebar_focused: false, composing: false, review_mode: true };
    assert_eq!(command_for_key(ch('c'), none(), review), Some(Command::ToggleCommentMode));
    let enter = KeyPress::Named(NamedKey::Enter);
    assert_eq!(command_for_key(enter, ctrl, review), Some(Command::ReviewSubmit));
    assert_eq!(command_for_key(enter, ctrl, doc()), Some(Command::ActivateLink));
    let composing = KeyContext { composing: true, ..review };
    assert_eq!(command_for_key(KeyPress::Named(NamedKey::Escape), none(), composing), Some(Command::CommentCancel));
    assert_eq!(command_for_key(ch('j'), none(), composing), None);
    assert_eq!(command_for_key(enter, ctrl, composing), Some(Command::ReviewSubmit));
}

#[test]
fn enter_follows_link_or_next_hit() {
    assert_eq!(activate(Some(2), 5, Some(1)), Activation::FollowLink(2));
    assert_eq!(activate(None, 3, None), Activation::NextHit(0));
    assert_eq!(activate(None, 3, Some(1)), Activation::NextHit(2));
    assert_eq!(activate(None, 3, Some(2)), Activation::NextHit(0));
    assert_eq!(activate(None, 0, None), Activation::Nothing);
}

#[test]
fn history_leave_records_place_and_moves() {
    let mut h = NavHistory::new(("a", 0));
    assert!(!h.leave_back(("a", 5)));
    assert_eq!(*h.current(), ("a", 0));
    h.push(("b", 0));
    assert!(!h.leave_forward(("b", 9)));
    assert_eq!(*h.current(), ("b", 0));
    assert!(h.leave_back(("b", 7)));
    assert_eq!((h.index(), *h.current()), (0, ("a", 0)));
    assert!(h.leave_forward(("a", 3)));
    assert_eq!((h.index(), *h.current()), (1, ("b", 7)));
    assert!(h.leave_back(("b", 8)));
    assert_eq!(*h.current(), ("a", 3));
}

#[test]
fn comment_submit_gives_whole_list() {
    let mut c = CommentList::new();
    c.submit(4, "d");
    c.submit(1, "a");
    c.submit(9, "z");
    c.submit(4, "  D ");
    c.submit(6, "f");
    c.submit(9, " ");
    let pairs: Vec<(usize, &str)> = c.items().iter().map(|x| (x.line, x.text.as_str())).collect();
    assert_eq!(pairs, vec![(1, "a"), (4, "D"), (6, "f")]);
}
