//! Theme selector: names, display names and descriptions of the built-in
//! themes, and cycling through them.

use vstd::prelude::*;

verus! {

/// The built-in themes.
#[derive(Debug, Clone, Copy, PartialEq, Eq, Structural)]
pub enum ThemeArg {
    /// Follow the operating-system dark/light preference (default).
    System,
    /// Light theme.
    Light,
    /// Dark theme.
    Dark,
    /// Dracula — popular dark theme with vibrant colors.
    Dracula,
    /// Nord — arctic, north-bluish color palette.
    Nord,
    /// Solarized Light.
    SolarizedLight,
    /// Solarized Dark.
    SolarizedDark,
    /// Gruvbox Light.
    GruvboxLight,
    /// Gruvbox Dark.
    GruvboxDark,
    /// Catppuccin Latte.
    CatppuccinLatte,
    /// Catppuccin Frapp\u{e9}.
    CatppuccinFrappe,
    /// Catppuccin Macchiato.
    CatppuccinMacchiato,
    /// Catppuccin Mocha.
    CatppuccinMocha,
    /// Tokyo Night.
    TokyoNight,
    /// Tokyo Night Storm.
    TokyoNightStorm,
    /// Tokyo Night Light.
    TokyoNightLight,
    /// Kanagawa Wave.
    KanagawaWave,
    /// Kanagawa Dragon.
    KanagawaDragon,
    /// Kanagawa Lotus.
    KanagawaLotus,
    /// Moonfly.
    Moonfly,
    /// Nightfly.
    Nightfly,
    /// Oxocarbon.
    Oxocarbon,
    /// Ferra.
    Ferra,
}

/// Number of built-in themes.
pub const THEME_COUNT: usize = 23;

/// Position of a theme in the selector order.
pub open spec fn theme_index(t: ThemeArg) -> nat {
    match t {
        ThemeArg::System => 0,
        ThemeArg::Light => 1,
        ThemeArg::Dark => 2,
        ThemeArg::Dracula => 3,
        ThemeArg::Nord => 4,
        ThemeArg::SolarizedLight => 5,
        ThemeArg::SolarizedDark => 6,
        ThemeArg::GruvboxLight => 7,
        ThemeArg::GruvboxDark => 8,
        ThemeArg::CatppuccinLatte => 9,
        ThemeArg::CatppuccinFrappe => 10,
        ThemeArg::CatppuccinMacchiato => 11,
        ThemeArg::CatppuccinMocha => 12,
        ThemeArg::TokyoNight => 13,
        ThemeArg::TokyoNightStorm => 14,
        ThemeArg::TokyoNightLight => 15,
        ThemeArg::KanagawaWave => 16,
        ThemeArg::KanagawaDragon => 17,
        ThemeArg::KanagawaLotus => 18,
        ThemeArg::Moonfly => 19,
        ThemeArg::Nightfly => 20,
        ThemeArg::Oxocarbon => 21,
        ThemeArg::Ferra => 22,
    }
}

/// The theme at position `i` of the selector order (`System` past the end).
pub open spec fn theme_at(i: nat) -> ThemeArg {
    if i == 0 {
        ThemeArg::System
    } else if i == 1 {
        ThemeArg::Light
    } else if i == 2 {
        ThemeArg::Dark
    } else if i == 3 {
        ThemeArg::Dracula
    } else if i == 4 {
        ThemeArg::Nord
    } else if i == 5 {
        ThemeArg::SolarizedLight
    } else if i == 6 {
        ThemeArg::SolarizedDark
    } else if i == 7 {
        ThemeArg::GruvboxLight
    } else if i == 8 {
        ThemeArg::GruvboxDark
    } else if i == 9 {
        ThemeArg::CatppuccinLatte
    } else if i == 10 {
        ThemeArg::CatppuccinFrappe
    } else if i == 11 {
        ThemeArg::CatppuccinMacchiato
    } else if i == 12 {
        ThemeArg::CatppuccinMocha
    } else if i == 13 {
        ThemeArg::TokyoNight
    } else if i == 14 {
        ThemeArg::TokyoNightStorm
    } else if i == 15 {
        ThemeArg::TokyoNightLight
    } else if i == 16 {
        ThemeArg::KanagawaWave
    } else if i == 17 {
        ThemeArg::KanagawaDragon
    } else if i == 18 {
        ThemeArg::KanagawaLotus
    } else if i == 19 {
        ThemeArg::Moonfly
    } else if i == 20 {
        ThemeArg::Nightfly
    } else if i == 21 {
        ThemeArg::Oxocarbon
    } else if i == 22 {
        ThemeArg::Ferra
    } else {
        ThemeArg::System
    }
}

/// The CLI name of a theme.
pub open spec fn theme_slug(t: ThemeArg) -> Seq<char> {
    match t {
        ThemeArg::System => "system"@,
        ThemeArg::Light => "light"@,
        ThemeArg::Dark => "dark"@,
        ThemeArg::Dracula => "dracula"@,
        ThemeArg::Nord => "nord"@,
        ThemeArg::SolarizedLight => "solarized-light"@,
        ThemeArg::SolarizedDark => "solarized-dark"@,
        ThemeArg::GruvboxLight => "gruvbox-light"@,
        ThemeArg::GruvboxDark => "gruvbox-dark"@,
        ThemeArg::CatppuccinLatte => "catppuccin-latte"@,
        ThemeArg::CatppuccinFrappe => "catppuccin-frappe"@,
        ThemeArg::CatppuccinMacchiato => "catppuccin-macchiato"@,
        ThemeArg::CatppuccinMocha => "catppuccin-mocha"@,
        ThemeArg::TokyoNight => "tokyo-night"@,
        ThemeArg::TokyoNightStorm => "tokyo-night-storm"@,
        ThemeArg::TokyoNightLight => "tokyo-night-light"@,
        ThemeArg::KanagawaWave => "kanagawa-wave"@,
        ThemeArg::KanagawaDragon => "kanagawa-dragon"@,
        ThemeArg::KanagawaLotus => "kanagawa-lotus"@,
        ThemeArg::Moonfly => "moonfly"@,
        ThemeArg::Nightfly => "nightfly"@,
        ThemeArg::Oxocarbon => "oxocarbon"@,
        ThemeArg::Ferra => "ferra"@,
    }
}

/// The human-readable name of a theme.
pub open spec fn theme_display_name(t: ThemeArg) -> Seq<char> {
    match t {
        ThemeArg::System => "System"@,
        ThemeArg::Light => "Light"@,
        ThemeArg::Dark => "Dark"@,
        ThemeArg::Dracula => "Dracula"@,
        ThemeArg::Nord => "Nord"@,
        ThemeArg::SolarizedLight => "Solarized Light"@,
        ThemeArg::SolarizedDark => "Solarized Dark"@,
        ThemeArg::GruvboxLight => "Gruvbox Light"@,
        ThemeArg::GruvboxDark => "Gruvbox Dark"@,
        ThemeArg::CatppuccinLatte => "Catppuccin Latte"@,
        ThemeArg::CatppuccinFrappe => "Catppuccin Frapp\u{e9}"@,
        ThemeArg::CatppuccinMacchiato => "Catppuccin Macchiato"@,
        ThemeArg::CatppuccinMocha => "Catppuccin Mocha"@,
        ThemeArg::TokyoNight => "Tokyo Night"@,
        ThemeArg::TokyoNightStorm => "Tokyo Night Storm"@,
        ThemeArg::TokyoNightLight => "Tokyo Night Light"@,
        ThemeArg::KanagawaWave => "Kanagawa Wave"@,
        ThemeArg::KanagawaDragon => "Kanagawa Dragon"@,
        ThemeArg::KanagawaLotus => "Kanagawa Lotus"@,
        ThemeArg::Moonfly => "Moonfly"@,
        ThemeArg::Nightfly => "Nightfly"@,
        ThemeArg::Oxocarbon => "Oxocarbon"@,
        ThemeArg::Ferra => "Ferra"@,
    }
}

/// The one-line description of a theme.
pub open spec fn theme_description(t: ThemeArg) -> Seq<char> {
    match t {
        ThemeArg::System => "Follow OS dark/light preference"@,
        ThemeArg::Light => "Light theme"@,
        ThemeArg::Dark => "Dark theme"@,
        ThemeArg::Dracula => "Popular dark theme with vibrant colors"@,
        ThemeArg::Nord => "Arctic, north-bluish color palette"@,
        ThemeArg::SolarizedLight => "Ethan Schoonover's light palette"@,
        ThemeArg::SolarizedDark => "Ethan Schoonover's dark palette"@,
        ThemeArg::GruvboxLight => "Retro groove light palette"@,
        ThemeArg::GruvboxDark => "Retro groove dark palette"@,
        ThemeArg::CatppuccinLatte => "Soothing pastel, light variant"@,
        ThemeArg::CatppuccinFrappe => "Soothing pastel, mid-dark variant"@,
        ThemeArg::CatppuccinMacchiato => "Soothing pastel, darker variant"@,
        ThemeArg::CatppuccinMocha => "Soothing pastel, darkest variant"@,
        ThemeArg::TokyoNight => "Dark theme with purple/blue accents"@,
        ThemeArg::TokyoNightStorm => "Slightly lighter Tokyo Night"@,
        ThemeArg::TokyoNightLight => "Light variant of Tokyo Night"@,
        ThemeArg::KanagawaWave => "Dark blue inspired by Hokusai"@,
        ThemeArg::KanagawaDragon => "Darker Kanagawa variant"@,
        ThemeArg::KanagawaLotus => "Light Kanagawa variant"@,
        ThemeArg::Moonfly => "Dark theme with emerald accents"@,
        ThemeArg::Nightfly => "Dark theme with blue accents"@,
        ThemeArg::Oxocarbon => "IBM Carbon-inspired dark theme"@,
        ThemeArg::Ferra => "Warm, muted dark theme"@,
    }
}

/// The theme after `t` in the selector order, wrapping around.
pub open spec fn theme_after(t: ThemeArg) -> ThemeArg {
    theme_at((theme_index(t) + 1) % (THEME_COUNT as nat))
}

/// The theme before `t` in the selector order, wrapping around.
pub open spec fn theme_before(t: ThemeArg) -> ThemeArg {
    theme_at(((theme_index(t) + THEME_COUNT - 1) % (THEME_COUNT as int)) as nat)
}

impl ThemeArg {
    /// All themes, in selector order.
    pub const ALL: [ThemeArg; 23] = [
        ThemeArg::System,
        ThemeArg::Light,
        ThemeArg::Dark,
        ThemeArg::Dracula,
        ThemeArg::Nord,
        ThemeArg::SolarizedLight,
        ThemeArg::SolarizedDark,
        ThemeArg::GruvboxLight,
        ThemeArg::GruvboxDark,
        ThemeArg::CatppuccinLatte,
        ThemeArg::CatppuccinFrappe,
        ThemeArg::CatppuccinMacchiato,
        ThemeArg::CatppuccinMocha,
        ThemeArg::TokyoNight,
        ThemeArg::TokyoNightStorm,
        ThemeArg::TokyoNightLight,
        ThemeArg::KanagawaWave,
        ThemeArg::KanagawaDragon,
        ThemeArg::KanagawaLotus,
        ThemeArg::Moonfly,
        ThemeArg::Nightfly,
        ThemeArg::Oxocarbon,
        ThemeArg::Ferra,
    ];

    /// All themes, in selector order, as a vector.
    pub fn all() -> (r: Vec<ThemeArg>)
        ensures
            r@.len() == THEME_COUNT,
            forall|i: int| 0 <= i < THEME_COUNT ==> #[trigger] r@[i] == theme_at(i as nat),
    {
        let mut r: Vec<ThemeArg> = Vec::new();
        let mut i: usize = 0;
        while i < THEME_COUNT
            invariant
                i <= THEME_COUNT,
                r@.len() == i,
                forall|j: int| 0 <= j < i ==> #[trigger] r@[j] == theme_at(j as nat),
            decreases THEME_COUNT - i,
        {
            r.push(ThemeArg::at(i));
            i = i + 1;
        }
        r
    }

    /// The theme at position `i` of the selector order (`System` past the end).
    pub fn at(i: usize) -> (t: ThemeArg)
        ensures
            t == theme_at(i as nat),
    {
        if i == 0 {
            ThemeArg::System
        } else if i == 1 {
            ThemeArg::Light
        } else if i == 2 {
            ThemeArg::Dark
        } else if i == 3 {
            ThemeArg::Dracula
        } else if i == 4 {
            ThemeArg::Nord
        } else if i == 5 {
            ThemeArg::SolarizedLight
        } else if i == 6 {
            ThemeArg::SolarizedDark
        } else if i == 7 {
            ThemeArg::GruvboxLight
        } else if i == 8 {
            ThemeArg::GruvboxDark
        } else if i == 9 {
            ThemeArg::CatppuccinLatte
        } else if i == 10 {
            ThemeArg::CatppuccinFrappe
        } else if i == 11 {
            ThemeArg::CatppuccinMacchiato
        } else if i == 12 {
            ThemeArg::CatppuccinMocha
        } else if i == 13 {
            ThemeArg::TokyoNight
        } else if i == 14 {
            ThemeArg::TokyoNightStorm
        } else if i == 15 {
            ThemeArg::TokyoNightLight
        } else if i == 16 {
            ThemeArg::KanagawaWave
        } else if i == 17 {
            ThemeArg::KanagawaDragon
        } else if i == 18 {
            ThemeArg::KanagawaLotus
        } else if i == 19 {
            ThemeArg::Moonfly
        } else if i == 20 {
            ThemeArg::Nightfly
        } else if i == 21 {
            ThemeArg::Oxocarbon
        } else if i == 22 {
            ThemeArg::Ferra
        } else {
            ThemeArg::System
        }
    }

    /// Position of the theme in the selector order.
    pub fn index(self) -> (i: usize)
        ensures
            i as nat == theme_index(self),
            i < THEME_COUNT,
    {
        match self {
            ThemeArg::System => 0,
            ThemeArg::Light => 1,
            ThemeArg::Dark => 2,
            ThemeArg::Dracula => 3,
            ThemeArg::Nord => 4,
            ThemeArg::SolarizedLight => 5,
            ThemeArg::SolarizedDark => 6,
            ThemeArg::GruvboxLight => 7,
            ThemeArg::GruvboxDark => 8,
            ThemeArg::CatppuccinLatte => 9,
            ThemeArg::CatppuccinFrappe => 10,
            ThemeArg::CatppuccinMacchiato => 11,
            ThemeArg::CatppuccinMocha => 12,
            ThemeArg::TokyoNight => 13,
            ThemeArg::TokyoNightStorm => 14,
            ThemeArg::TokyoNightLight => 15,
            ThemeArg::KanagawaWave => 16,
            ThemeArg::KanagawaDragon => 17,
            ThemeArg::KanagawaLotus => 18,
            ThemeArg::Moonfly => 19,
            ThemeArg::Nightfly => 20,
            ThemeArg::Oxocarbon => 21,
            ThemeArg::Ferra => 22,
        }
    }

    /// CLI-friendly name (kebab case).
    pub fn slug(self) -> (r: &'static str)
        ensures
            r@ == theme_slug(self),
    {
        match self {
            ThemeArg::System => "system",
            ThemeArg::Light => "light",
            ThemeArg::Dark => "dark",
            ThemeArg::Dracula => "dracula",
            ThemeArg::Nord => "nord",
            ThemeArg::SolarizedLight => "solarized-light",
            ThemeArg::SolarizedDark => "solarized-dark",
            ThemeArg::GruvboxLight => "gruvbox-light",
            ThemeArg::GruvboxDark => "gruvbox-dark",
            ThemeArg::CatppuccinLatte => "catppuccin-latte",
            ThemeArg::CatppuccinFrappe => "catppuccin-frappe",
            ThemeArg::CatppuccinMacchiato => "catppuccin-macchiato",
            ThemeArg::CatppuccinMocha => "catppuccin-mocha",
            ThemeArg::TokyoNight => "tokyo-night",
            ThemeArg::TokyoNightStorm => "tokyo-night-storm",
            ThemeArg::TokyoNightLight => "tokyo-night-light",
            ThemeArg::KanagawaWave => "kanagawa-wave",
            ThemeArg::KanagawaDragon => "kanagawa-dragon",
            ThemeArg::KanagawaLotus => "kanagawa-lotus",
            ThemeArg::Moonfly => "moonfly",
            ThemeArg::Nightfly => "nightfly",
            ThemeArg::Oxocarbon => "oxocarbon",
            ThemeArg::Ferra => "ferra",
        }
    }

    /// Human-readable name (used in the theme picker).
    pub fn display_name(self) -> (r: &'static str)
        ensures
            r@ == theme_display_name(self),
    {
        match self {
            ThemeArg::System => "System",
            ThemeArg::Light => "Light",
            ThemeArg::Dark => "Dark",
            ThemeArg::Dracula => "Dracula",
            ThemeArg::Nord => "Nord",
            ThemeArg::SolarizedLight => "Solarized Light",
            ThemeArg::SolarizedDark => "Solarized Dark",
            ThemeArg::GruvboxLight => "Gruvbox Light",
            ThemeArg::GruvboxDark => "Gruvbox Dark",
            ThemeArg::CatppuccinLatte => "Catppuccin Latte",
            ThemeArg::CatppuccinFrappe => "Catppuccin Frapp\u{e9}",
            ThemeArg::CatppuccinMacchiato => "Catppuccin Macchiato",
            ThemeArg::CatppuccinMocha => "Catppuccin Mocha",
            ThemeArg::TokyoNight => "Tokyo Night",
            ThemeArg::TokyoNightStorm => "Tokyo Night Storm",
            ThemeArg::TokyoNightLight => "Tokyo Night Light",
            ThemeArg::KanagawaWave => "Kanagawa Wave",
            ThemeArg::KanagawaDragon => "Kanagawa Dragon",
            ThemeArg::KanagawaLotus => "Kanagawa Lotus",
            ThemeArg::Moonfly => "Moonfly",
            ThemeArg::Nightfly => "Nightfly",
            ThemeArg::Oxocarbon => "Oxocarbon",
            ThemeArg::Ferra => "Ferra",
        }
    }

    /// Human-readable description.
    pub fn description(self) -> (r: &'static str)
        ensures
            r@ == theme_description(self),
    {
        match self {
            ThemeArg::System => "Follow OS dark/light preference",
            ThemeArg::Light => "Light theme",
            ThemeArg::Dark => "Dark theme",
            ThemeArg::Dracula => "Popular dark theme with vibrant colors",
            ThemeArg::Nord => "Arctic, north-bluish color palette",
            ThemeArg::SolarizedLight => "Ethan Schoonover's light palette",
            ThemeArg::SolarizedDark => "Ethan Schoonover's dark palette",
            ThemeArg::GruvboxLight => "Retro groove light palette",
            ThemeArg::GruvboxDark => "Retro groove dark palette",
            ThemeArg::CatppuccinLatte => "Soothing pastel, light variant",
            ThemeArg::CatppuccinFrappe => "Soothing pastel, mid-dark variant",
            ThemeArg::CatppuccinMacchiato => "Soothing pastel, darker variant",
            ThemeArg::CatppuccinMocha => "Soothing pastel, darkest variant",
            ThemeArg::TokyoNight => "Dark theme with purple/blue accents",
            ThemeArg::TokyoNightStorm => "Slightly lighter Tokyo Night",
            ThemeArg::TokyoNightLight => "Light variant of Tokyo Night",
            ThemeArg::KanagawaWave => "Dark blue inspired by Hokusai",
            ThemeArg::KanagawaDragon => "Darker Kanagawa variant",
            ThemeArg::KanagawaLotus => "Light Kanagawa variant",
            ThemeArg::Moonfly => "Dark theme with emerald accents",
            ThemeArg::Nightfly => "Dark theme with blue accents",
            ThemeArg::Oxocarbon => "IBM Carbon-inspired dark theme",
            ThemeArg::Ferra => "Warm, muted dark theme",
        }
    }

    /// The text shown for the theme: its display name.
    pub fn to_string(&self) -> (r: String)
        ensures
            r@ == theme_display_name(*self),
    {
        let mut r = String::new();
        crate::text::push_str(&mut r, self.display_name());
        r
    }

    /// The next theme in the selector order, wrapping to the first.
    pub fn cycled(self) -> (t: ThemeArg)
        ensures
            t == theme_after(self),
    {
        let i = self.index();
        ThemeArg::at((i + 1) % THEME_COUNT)
    }
}

/// Positions and themes correspond one to one.
pub proof fn theme_index_roundtrip(t: ThemeArg)
    ensures
        theme_index(t) < THEME_COUNT,
        theme_at(theme_index(t)) == t,
{
}

/// Cycling forward then backward returns the theme: the cycle visits every
/// theme once before coming back.
pub proof fn theme_cycle_inverse(t: ThemeArg)
    ensures
        theme_before(theme_after(t)) == t,
        theme_after(theme_before(t)) == t,
{
    let i = theme_index(t);
    assert(theme_index(theme_at((i + 1) % 23)) == (i + 1) % 23) by {
        lemma_index_at(((i + 1) % 23) as nat);
    }
    assert(theme_index(theme_at(((i + 22) % 23) as nat)) == (i + 22) % 23) by {
        lemma_index_at(((i + 22) % 23) as nat);
    }
}

proof fn lemma_index_at(i: nat)
    requires
        i < THEME_COUNT,
    ensures
        theme_index(theme_at(i)) == i,
{
}

/// Cycling `THEME_COUNT` times returns to the starting theme, and no fewer
/// steps do.
pub proof fn theme_cycle_period(t: ThemeArg, k: nat)
    requires
        0 < k <= THEME_COUNT,
    ensures
        theme_after_n(t, k) == t <==> k == THEME_COUNT,
{
    lemma_after_n_index(t, k);
    lemma_index_at(((theme_index(t) + k) % 23) as nat);
}

/// `k` steps of cycling.
pub open spec fn theme_after_n(t: ThemeArg, k: nat) -> ThemeArg
    decreases k,
{
    if k == 0 {
        t
    } else {
        theme_after(theme_after_n(t, (k - 1) as nat))
    }
}

proof fn lemma_after_n_index(t: ThemeArg, k: nat)
    ensures
        theme_after_n(t, k) == theme_at(((theme_index(t) + k) % 23) as nat),
    decreases k,
{
    if k > 0 {
        lemma_after_n_index(t, (k - 1) as nat);
        let j = ((theme_index(t) + k - 1) % 23) as nat;
        lemma_index_at(j);
        assert((j + 1) % 23 == (theme_index(t) + k) % 23);
    }
}


/// The 23 theme slugs are pairwise different, so a slug names one theme.
#[verifier::rlimit(100)]
pub proof fn theme_slugs_distinct(t1: ThemeArg, t2: ThemeArg)
    requires
        t1 != t2,
    ensures
        theme_slug(t1) != theme_slug(t2),
{
    reveal_strlit("system");
    reveal_strlit("light");
    reveal_strlit("dark");
    reveal_strlit("dracula");
    reveal_strlit("nord");
    reveal_strlit("solarized-light");
    reveal_strlit("solarized-dark");
    reveal_strlit("gruvbox-light");
    reveal_strlit("gruvbox-dark");
    reveal_strlit("catppuccin-latte");
    reveal_strlit("catppuccin-frappe");
    reveal_strlit("catppuccin-macchiato");
    reveal_strlit("catppuccin-mocha");
    reveal_strlit("tokyo-night");
    reveal_strlit("tokyo-night-storm");
    reveal_strlit("tokyo-night-light");
    reveal_strlit("kanagawa-wave");
    reveal_strlit("kanagawa-dragon");
    reveal_strlit("kanagawa-lotus");
    reveal_strlit("moonfly");
    reveal_strlit("nightfly");
    reveal_strlit("oxocarbon");
    reveal_strlit("ferra");
    let a = theme_slug(t1);
    let b = theme_slug(t2);
    if a.len() == b.len() {
        assert(a[0] != b[0] || a[1] != b[1] || a[2] != b[2] || a[a.len() - 1] != b[b.len() - 1] || a[a.len() - 2] != b[b.len() - 2] || a[a.len() - 3] != b[b.len() - 3] || a[5] != b[5] || a[6] != b[6] || a[9] != b[9] || a[11] != b[11]);
    }
}

} // verus!
