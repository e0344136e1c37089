use minecli::theme::ThemeName;

#[test]
fn test_theme_name_display() {
    assert_eq!(ThemeName::Default.as_str(), "Default");
    assert_eq!(ThemeName::CatppuccinMocha.as_str(), "Catppuccin Mocha");
}

#[test]
fn test_theme_name_list() {
    let all = ThemeName::all();
    assert_eq!(all.len(), 15);
    assert_eq!(all[0], ThemeName::Default);
    assert_eq!(all[14], ThemeName::Monokai);
}
