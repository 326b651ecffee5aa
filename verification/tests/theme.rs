use broski::theme::{Color, TerminalKind, Theme};

#[test]
fn theme_round_trips_by_name() {
    for name in Theme::NAMES {
        let theme: Theme = name.parse().expect("name parses");
        assert_eq!(theme.name(), name);
    }
}

#[test]
fn theme_parsing_is_case_insensitive() {
    assert_eq!("DARK".parse::<Theme>().unwrap(), Theme::Dark);
    assert_eq!("High-Contrast".parse::<Theme>().unwrap(), Theme::HighContrast);
    assert_eq!("hc".parse::<Theme>().unwrap(), Theme::HighContrast);
}

#[test]
fn empty_string_resolves_to_default() {
    assert_eq!("".parse::<Theme>().unwrap(), Theme::Default);
}

#[test]
fn unknown_theme_errors_with_helpful_list() {
    let err = "neon".parse::<Theme>().expect_err("should fail");
    let msg = err.message();
    assert!(msg.contains("unknown theme 'neon'"));
    assert!(msg.contains("default"));
    assert!(msg.contains("dark"));
}

#[test]
fn each_palette_has_distinct_failed_color() {
    // Sanity: the four built-in themes should at least differ in their
    // semantic-failure color so users can tell them apart.
    let mut seen = std::collections::HashSet::new();
    for theme in [Theme::Default, Theme::Dark, Theme::Light, Theme::HighContrast] {
        seen.insert(format!("{:?}", theme.palette(None).failed));
    }
    assert!(seen.len() >= 2, "expected at least two distinct failed colors");
}

#[test]
fn auto_theme_parses_and_round_trips() {
    assert_eq!("auto".parse::<Theme>().unwrap(), Theme::Auto);
    assert_eq!("AUTO".parse::<Theme>().unwrap(), Theme::Auto);
    assert_eq!(Theme::Auto.name(), "auto");
    assert!(Theme::NAMES.contains(&"auto"));
}

#[test]
fn auto_theme_resolves_to_a_concrete_variant() {
    // Without a TTY (cargo test), terminal-light fails fast and
    // resolved() falls back to Default. With a TTY it'll be Dark or
    // Light. Either way the result must NOT be Auto, and palette()
    // must work without recursing.
    let resolved = Theme::Auto.resolved(None);
    assert!(matches!(resolved, Theme::Default | Theme::Dark | Theme::Light));
    // palette() on Auto should also self-resolve and not loop.
    let _ = Theme::Auto.palette(None);
}

#[test]
fn non_auto_themes_resolve_to_themselves() {
    assert_eq!(Theme::Default.resolved(None), Theme::Default);
    assert_eq!(Theme::Dark.resolved(None), Theme::Dark);
    assert_eq!(Theme::Light.resolved(None), Theme::Light);
    assert_eq!(Theme::HighContrast.resolved(None), Theme::HighContrast);
}

#[test]
fn auto_theme_follows_the_terminal() {
    assert_eq!(Theme::Auto.resolved(Some(TerminalKind::Dark)), Theme::Dark);
    assert_eq!(Theme::Auto.resolved(Some(TerminalKind::Light)), Theme::Light);
    assert_eq!(Theme::Light.resolved(Some(TerminalKind::Dark)), Theme::Light);
    assert_eq!(Theme::Auto.palette(Some(TerminalKind::Dark)), Theme::Dark.palette(None));
    assert_eq!(Theme::Auto.palette(None), Theme::default().palette(None));
}

#[test]
fn palettes_have_their_colours() {
    assert_eq!(Theme::Dark.palette(None).accent, Color::Rgb(120, 200, 220));
    assert_eq!(Theme::Light.palette(None).eta, Color::Rgb(120, 60, 160));
    assert_eq!(Theme::HighContrast.palette(None).cached, Color::Cyan);
    assert_eq!(Theme::Default.palette(None).stderr, Color::LightRed);
}

#[test]
fn unknown_theme_message_is_exact() {
    let err = " Neon ".parse::<Theme>().expect_err("should fail");
    assert_eq!(
        err.message(),
        "unknown theme 'neon'; expected one of default, dark, light, high-contrast, auto"
    );
    assert_eq!(" \tHighContrast\n".parse::<Theme>().unwrap(), Theme::HighContrast);
}
