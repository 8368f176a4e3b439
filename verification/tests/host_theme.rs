use herdr_configurable_picker::host_theme::{
    accent_from_config, accent_from_theme, builtin_accent, parse_color, Color,
};

#[test]
fn resolves_builtin_theme_accents() {
    assert_eq!(
        accent_from_config("[theme]\nname = \"dracula\"\n"),
        Some(Color::Rgb(189, 147, 249))
    );
    assert_eq!(
        accent_from_config("[theme]\nname = \"Tokyo Night\"\n"),
        Some(Color::Rgb(122, 162, 247)),
        "same name normalization as the host"
    );
}

#[test]
fn custom_accent_override_wins() {
    let config = "[theme]\nname = \"dracula\"\n\n[theme.custom]\naccent = \"#ff79c6\"\n";
    assert_eq!(
        accent_from_config(config),
        Some(Color::Rgb(0xff, 0x79, 0xc6))
    );
}

#[test]
fn defaults_to_catppuccin_and_falls_back_to_dark_name() {
    assert_eq!(
        accent_from_config("# no theme section\n"),
        Some(Color::Rgb(137, 180, 250)),
        "the host defaults to catppuccin"
    );
    let auto = "[theme]\nauto_switch = true\ndark_name = \"nord\"\n";
    assert_eq!(accent_from_config(auto), Some(Color::Rgb(136, 192, 208)));
}

#[test]
fn unknown_theme_or_broken_config_yields_none() {
    assert_eq!(accent_from_config("[theme]\nname = \"my-theme\"\n"), None);
    assert_eq!(accent_from_config("not [ toml"), None);
}

#[test]
fn palette_names_ignore_case_and_separators() {
    assert_eq!(builtin_accent("ROSE_PINE dawn"), Some(Color::Rgb(144, 122, 169)));
    assert_eq!(builtin_accent("Terminal"), Some(Color::Blue));
    assert_eq!(builtin_accent("gruvbox light"), Some(Color::Rgb(7, 102, 120)));
    assert_eq!(builtin_accent("rose pine dusk"), None);
}

#[test]
fn a_custom_accent_that_is_not_a_color_falls_back_to_the_name() {
    assert_eq!(
        accent_from_theme(Some("pink"), Some("nord"), None),
        Some(Color::Rgb(136, 192, 208))
    );
    assert_eq!(
        accent_from_theme(Some("#00FF7f"), Some("nord"), None),
        Some(Color::Rgb(0, 255, 127))
    );
    assert_eq!(accent_from_theme(None, None, Some("vesper")), Some(Color::Rgb(255, 199, 153)));
}

#[test]
fn parse_color_reads_hex_triplets_only() {
    assert_eq!(parse_color("#0a0B0c"), Some(Color::Rgb(10, 11, 12)));
    assert_eq!(parse_color("#12345"), None);
    assert_eq!(parse_color("123456"), None);
    assert_eq!(parse_color("#12345g"), None);
}

#[test]
fn a_name_and_its_normalized_form_give_the_same_accent() {
    let tokyo = Some(Color::Rgb(122, 162, 247));
    assert_eq!(builtin_accent("Tokyo Night"), tokyo);
    assert_eq!(builtin_accent("tokyo_night"), tokyo);
    assert_eq!(builtin_accent("TOKYO-NIGHT"), tokyo);
    assert_eq!(builtin_accent("tokyo-night"), tokyo);
    assert_eq!(builtin_accent("terminal"), Some(Color::Blue));
    assert_eq!(builtin_accent("my-theme"), None);
}
