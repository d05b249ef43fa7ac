//! Theme enumeration, names and cycling.

use smdr::theme::ThemeArg;

#[test]
fn theme_tests_theme_arg_all_contains_all_variants() {
    assert_eq!(ThemeArg::ALL.len(), 23);
}

#[test]
fn theme_tests_theme_arg_display() {
    assert_eq!(ThemeArg::System.to_string(), "System");
    assert_eq!(ThemeArg::SolarizedLight.to_string(), "Solarized Light");
    assert_eq!(ThemeArg::CatppuccinFrappe.to_string(), "Catppuccin Frapp\u{e9}");
}

#[test]
fn theme_slugs_are_kebab_case() {
    assert_eq!(ThemeArg::System.slug(), "system");
    assert_eq!(ThemeArg::SolarizedDark.slug(), "solarized-dark");
    assert_eq!(ThemeArg::TokyoNightStorm.slug(), "tokyo-night-storm");
    assert_eq!(ThemeArg::Ferra.slug(), "ferra");
}

#[test]
fn theme_descriptions_and_names() {
    assert_eq!(ThemeArg::System.description(), "Follow OS dark/light preference");
    assert_eq!(ThemeArg::Dracula.description(), "Popular dark theme with vibrant colors");
    assert_eq!(ThemeArg::Ferra.description(), "Warm, muted dark theme");
    assert_eq!(ThemeArg::Ferra.display_name(), "Ferra");
    assert_eq!(ThemeArg::CatppuccinFrappe.display_name(), "Catppuccin Frapp\u{e9}");
}

#[test]
fn theme_cycle_visits_every_theme_once() {
    let mut t = ThemeArg::System;
    let mut seen = Vec::new();
    for _ in 0..ThemeArg::ALL.len() {
        assert!(!seen.contains(&t));
        seen.push(t);
        t = t.cycled();
    }
    assert_eq!(t, ThemeArg::System);
    assert_eq!(ThemeArg::Ferra.cycled(), ThemeArg::System);
    assert_eq!(ThemeArg::System.cycled(), ThemeArg::Light);
}

#[test]
fn theme_index_and_at_agree() {
    for (i, t) in ThemeArg::ALL.iter().enumerate() {
        assert_eq!(t.index(), i);
        assert_eq!(ThemeArg::at(i), *t);
    }
    assert_eq!(ThemeArg::all().len(), 23);
}

#[test]
fn theme_slugs_are_pairwise_distinct() {
    for (i, a) in ThemeArg::ALL.iter().enumerate() {
        for b in &ThemeArg::ALL[i + 1..] {
            assert_ne!(a.slug(), b.slug());
        }
    }
}
