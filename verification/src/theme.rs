//! The selectable color themes, by name. The color tables themselves
//! are rendering data and live with the interface, outside this crate's
//! concern; the cache and settings only ever carry the name.

use vstd::prelude::*;

verus! {

/// Name of a selectable color theme.
#[derive(Debug, Clone, Copy, PartialEq, Eq, Structural, Default)]
pub enum ThemeName {
    #[default]
    Default,
    CatppuccinMocha,
    CatppuccinMacchiato,
    CatppuccinFrappe,
    CatppuccinLatte,
    GruvboxDark,
    TokyoNight,
    TokyoNightStorm,
    TokyoNightLight,
    Nord,
    Dracula,
    OneDark,
    SolarizedDark,
    SolarizedLight,
    Monokai,
}

impl ThemeName {
    /// Every theme, in selector order, starting from the default.
    pub fn all() -> (r: Vec<ThemeName>)
        ensures
            r@ == seq![
                ThemeName::Default,
                ThemeName::CatppuccinMocha,
                ThemeName::CatppuccinMacchiato,
                ThemeName::CatppuccinFrappe,
                ThemeName::CatppuccinLatte,
                ThemeName::GruvboxDark,
                ThemeName::TokyoNight,
                ThemeName::TokyoNightStorm,
                ThemeName::TokyoNightLight,
                ThemeName::Nord,
                ThemeName::Dracula,
                ThemeName::OneDark,
                ThemeName::SolarizedDark,
                ThemeName::SolarizedLight,
                ThemeName::Monokai,
            ],
    {
        let mut r: Vec<ThemeName> = Vec::new();
        r.push(ThemeName::Default);
        r.push(ThemeName::CatppuccinMocha);
        r.push(ThemeName::CatppuccinMacchiato);
        r.push(ThemeName::CatppuccinFrappe);
        r.push(ThemeName::CatppuccinLatte);
        r.push(ThemeName::GruvboxDark);
        r.push(ThemeName::TokyoNight);
        r.push(ThemeName::TokyoNightStorm);
        r.push(ThemeName::TokyoNightLight);
        r.push(ThemeName::Nord);
        r.push(ThemeName::Dracula);
        r.push(ThemeName::OneDark);
        r.push(ThemeName::SolarizedDark);
        r.push(ThemeName::SolarizedLight);
        r.push(ThemeName::Monokai);
        proof {
            assert(r@ =~= seq![
                ThemeName::Default,
                ThemeName::CatppuccinMocha,
                ThemeName::CatppuccinMacchiato,
                ThemeName::CatppuccinFrappe,
                ThemeName::CatppuccinLatte,
                ThemeName::GruvboxDark,
                ThemeName::TokyoNight,
                ThemeName::TokyoNightStorm,
                ThemeName::TokyoNightLight,
                ThemeName::Nord,
                ThemeName::Dracula,
                ThemeName::OneDark,
                ThemeName::SolarizedDark,
                ThemeName::SolarizedLight,
                ThemeName::Monokai,
            ]);
        }
        r
    }

    /// The display label of this theme.
    pub fn as_str(&self) -> (r: &'static str)
        ensures
            *self is Default ==> r@ == "Default"@,
            *self is CatppuccinMocha ==> r@ == "Catppuccin Mocha"@,
            *self is CatppuccinMacchiato ==> r@ == "Catppuccin Macchiato"@,
            *self is CatppuccinFrappe ==> r@ == "Catppuccin Frappe"@,
            *self is CatppuccinLatte ==> r@ == "Catppuccin Latte"@,
            *self is GruvboxDark ==> r@ == "Gruvbox Dark"@,
            *self is TokyoNight ==> r@ == "Tokyo Night"@,
            *self is TokyoNightStorm ==> r@ == "Tokyo Night Storm"@,
            *self is TokyoNightLight ==> r@ == "Tokyo Night Light"@,
            *self is Nord ==> r@ == "Nord"@,
            *self is Dracula ==> r@ == "Dracula"@,
            *self is OneDark ==> r@ == "One Dark"@,
            *self is SolarizedDark ==> r@ == "Solarized Dark"@,
            *self is SolarizedLight ==> r@ == "Solarized Light"@,
            *self is Monokai ==> r@ == "Monokai"@,
    {
        match self {
            ThemeName::Default => "Default",
            ThemeName::CatppuccinMocha => "Catppuccin Mocha",
            ThemeName::CatppuccinMacchiato => "Catppuccin Macchiato",
            ThemeName::CatppuccinFrappe => "Catppuccin Frappe",
            ThemeName::CatppuccinLatte => "Catppuccin Latte",
            ThemeName::GruvboxDark => "Gruvbox Dark",
            ThemeName::TokyoNight => "Tokyo Night",
            ThemeName::TokyoNightStorm => "Tokyo Night Storm",
            ThemeName::TokyoNightLight => "Tokyo Night Light",
            ThemeName::Nord => "Nord",
            ThemeName::Dracula => "Dracula",
            ThemeName::OneDark => "One Dark",
            ThemeName::SolarizedDark => "Solarized Dark",
            ThemeName::SolarizedLight => "Solarized Light",
            ThemeName::Monokai => "Monokai",
        }
    }
}

} // verus!
