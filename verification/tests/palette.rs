//! Themes: detection, built-in colors, theme files and selection.

use flowlens::palette::{
    ansi_color, detected_theme, parse_cli_theme, parse_color, role_of, set_color, theme_from_file,
    tier_from_env, BuiltinTheme, Color, ColorTier, Role, Theme, ThemeArgument, ThemeColors,
    ThemeError, ThemeSelection, ThemeState,
};

/// Reads the text of a theme file and hands its parts to the library.
fn load_fixture(label: &str, json: &str) -> Result<Theme, String> {
    let file: serde_json::Value = serde_json::from_str(json).map_err(|error| error.to_string())?;
    let name = file.get("name").and_then(|name| name.as_str()).map(str::to_string);
    let base = file.get("base").and_then(|base| base.as_str()).unwrap().to_string();
    let settings: Vec<(String, Option<String>)> = match file.get("colors") {
        Some(colors) => colors
            .as_object()
            .unwrap()
            .iter()
            .map(|(role, value)| (role.clone(), value.as_str().map(str::to_string)))
            .collect(),
        None => Vec::new(),
    };
    theme_from_file(name, &base, label, &settings).map_err(|error| error.message())
}

const ROLES: [(&str, Role); 34] = [
    ("ui.page_bg", Role::PageBg),
    ("ui.panel_bg", Role::PanelBg),
    ("ui.popup_bg", Role::PopupBg),
    ("ui.text", Role::Text),
    ("ui.title", Role::Title),
    ("ui.header", Role::Header),
    ("ui.label", Role::Label),
    ("ui.secondary", Role::Secondary),
    ("ui.placeholder", Role::Placeholder),
    ("ui.border", Role::Border),
    ("ui.focus_border", Role::FocusBorder),
    ("ui.active_tab_fg", Role::ActiveTabFg),
    ("ui.inactive_tab_fg", Role::InactiveTabFg),
    ("ui.active_tab_bg", Role::ActiveTabBg),
    ("ui.selection_bg", Role::SelectionBg),
    ("ui.key", Role::Key),
    ("ui.setting_label", Role::SettingLabel),
    ("ui.hint", Role::Hint),
    ("ui.setting_value", Role::SettingValue),
    ("feedback.warning", Role::Warning),
    ("feedback.error", Role::Error),
    ("brand.foreground", Role::Brand),
    ("data.inbound", Role::Inbound),
    ("data.outbound", Role::Outbound),
    ("data.local_endpoint", Role::LocalEndpoint),
    ("data.remote_endpoint", Role::RemoteEndpoint),
    ("data.identity", Role::Identity),
    ("data.protocol", Role::Protocol),
    ("data.address_family", Role::AddressFamily),
    ("data.attribution", Role::Attribution),
    ("data.total", Role::Total),
    ("data.time", Role::Time),
    ("chart.track", Role::ChartTrack),
    ("chart.combined", Role::ChartCombined),
];

fn all_colors(colors: ThemeColors) -> Vec<Color> {
    ROLES.iter().map(|(_, role)| colors.get(*role)).collect()
}

#[test]
fn no_color_overrides_everything() {
    assert_eq!(
        tier_from_env(Some("truecolor"), "xterm-256color", Some("1")),
        ColorTier::Monochrome
    );
}

#[test]
fn empty_no_color_is_ignored() {
    assert_eq!(tier_from_env(None, "xterm", Some("")), ColorTier::Sixteen);
}

#[test]
fn colorterm_truecolor_wins_over_term() {
    assert_eq!(
        tier_from_env(Some(" TrueColor "), "linux", None),
        ColorTier::Truecolor
    );
    assert_eq!(
        tier_from_env(Some("24bit"), "xterm", None),
        ColorTier::Truecolor
    );
}

#[test]
fn terminal_tiers_follow_the_documented_fallback_order() {
    assert_eq!(tier_from_env(None, "dumb", None), ColorTier::Monochrome);
    assert_eq!(
        tier_from_env(None, "screen-256color", None),
        ColorTier::Truecolor
    );
    for term in ["ansi", "linux", "screen", "xterm", "vt220"] {
        assert_eq!(
            tier_from_env(None, term, None),
            ColorTier::Sixteen,
            "{term}"
        );
    }
    assert_eq!(
        tier_from_env(Some("other"), "unrecognized", None),
        ColorTier::Truecolor
    );
}

#[test]
fn terminal_names_are_trimmed_and_lowered() {
    assert_eq!(tier_from_env(None, "\u{2003}DUMB\t", None), ColorTier::Monochrome);
    assert_eq!(tier_from_env(None, "", None), ColorTier::Truecolor);
    assert_eq!(tier_from_env(None, " \n ", None), ColorTier::Truecolor);
    assert_eq!(tier_from_env(None, "v", None), ColorTier::Truecolor);
    assert_eq!(tier_from_env(None, "vt", None), ColorTier::Sixteen);
    assert_eq!(tier_from_env(None, "vt-256COLOR", None), ColorTier::Truecolor);
    assert_eq!(tier_from_env(Some("truecolors"), "linux", None), ColorTier::Sixteen);
}

#[test]
fn explicit_selection_overrides_detected_theme_and_auto_restores_it() {
    let mut state = ThemeState::with_detected(
        BuiltinTheme::Mono,
        ThemeSelection::Builtin(BuiltinTheme::Dark),
        None,
    );
    assert_eq!(state.resolved.base, BuiltinTheme::Dark);
    state.select(ThemeSelection::Auto);
    assert_eq!(state.resolved.base, BuiltinTheme::Mono);
    assert_eq!(state.selection_label(), "Auto (Mono)");
}

#[test]
fn builtins_cover_the_approved_dark_and_ansi16_roles() {
    let dark = Theme::builtin(BuiltinTheme::Dark);
    assert_eq!(dark.colors.page_bg, Color::Rgb(11, 17, 24));
    assert_eq!(dark.colors.popup_bg, Color::Rgb(19, 29, 41));
    assert_eq!(dark.colors.local_endpoint, Color::Rgb(22, 198, 12));
    assert_eq!(dark.colors.total, Color::Rgb(244, 247, 250));
    assert_eq!(dark.colors.chart_track, Color::Rgb(37, 52, 67));

    let ansi = Theme::builtin(BuiltinTheme::Ansi16);
    assert_eq!(ansi.colors.inbound, Color::Yellow);
    assert_eq!(ansi.colors.outbound, Color::Cyan);
    assert_eq!(ansi.colors.local_endpoint, Color::LightGreen);
    assert_eq!(ansi.colors.warning, Color::Yellow);
    assert_eq!(ansi.colors.error, Color::Red);
    assert_eq!(ansi.colors.brand, Color::Magenta);
    assert_eq!(ansi.colors.focus_border, Color::Gray);
    assert_eq!(ansi.colors.chart_combined, Color::Gray);
    assert_eq!(ansi.colors.selection_bg, Color::Reset);
}

#[test]
fn dark_builtin_gives_every_role_its_color() {
    let secondary = Color::Rgb(147, 162, 180);
    let text = Color::Rgb(216, 224, 232);
    let title = Color::Rgb(244, 247, 250);
    let dark = Theme::builtin(BuiltinTheme::Dark);
    assert_eq!(dark.name, "FlowLens Dark");
    for role in [
        Role::Header,
        Role::Label,
        Role::Secondary,
        Role::Placeholder,
        Role::FocusBorder,
        Role::InactiveTabFg,
        Role::Hint,
        Role::Time,
        Role::ChartCombined,
    ] {
        assert_eq!(dark.colors.get(role), secondary, "{role:?}");
    }
    for role in [
        Role::Text,
        Role::Key,
        Role::SettingLabel,
        Role::RemoteEndpoint,
        Role::Identity,
        Role::Protocol,
        Role::AddressFamily,
        Role::Attribution,
    ] {
        assert_eq!(dark.colors.get(role), text, "{role:?}");
    }
    for role in [Role::Title, Role::ActiveTabFg, Role::SettingValue, Role::Total] {
        assert_eq!(dark.colors.get(role), title, "{role:?}");
    }
    assert_eq!(dark.colors.panel_bg, Color::Rgb(11, 17, 24));
    assert_eq!(dark.colors.border, Color::Rgb(61, 76, 95));
    assert_eq!(dark.colors.active_tab_bg, Color::Rgb(28, 44, 61));
    assert_eq!(dark.colors.warning, Color::Rgb(245, 186, 69));
    assert_eq!(dark.colors.error, Color::Rgb(241, 139, 160));
    assert_eq!(dark.colors.brand, Color::Rgb(185, 160, 247));
    assert_eq!(dark.colors.inbound, Color::Rgb(245, 186, 69));
    assert_eq!(dark.colors.outbound, Color::Rgb(67, 198, 232));
}

#[test]
fn mono_builtin_has_no_colored_roles() {
    assert!(
        all_colors(Theme::builtin(BuiltinTheme::Mono).colors)
            .iter()
            .all(|color| *color == Color::Reset)
    );
}

#[test]
fn selection_and_navigation_styles_follow_theme_rules_and_overrides() {
    let dark = Theme::builtin(BuiltinTheme::Dark);
    let dark_selection = dark.selection_style();
    assert_eq!(dark_selection.bg, Some(Color::Rgb(28, 44, 61)));
    assert!(dark_selection.bold);

    let mut ansi = Theme::builtin(BuiltinTheme::Ansi16);
    let ansi_selection = ansi.selection_style();
    assert_eq!(ansi_selection.bg, None);
    assert!(!ansi_selection.reversed);
    ansi.colors.selection_bg = Color::Blue;
    ansi.colors.active_tab_bg = Color::Yellow;
    assert_eq!(ansi.selection_style().bg, Some(Color::Blue));
    assert!(!ansi.selection_style().reversed);
    assert_eq!(ansi.active_tab_style().bg, Some(Color::Yellow));
    assert!(!ansi.active_tab_style().reversed);

    let mono = Theme::builtin(BuiltinTheme::Mono);
    assert!(mono.selection_style().reversed);
    assert!(mono.active_tab_style().reversed);
}

#[test]
fn active_tab_is_swapped_where_it_has_no_background() {
    let ansi = Theme::builtin(BuiltinTheme::Ansi16).active_tab_style();
    assert_eq!(ansi.fg, Some(Color::Reset));
    assert_eq!(ansi.bg, None);
    assert!(ansi.bold && ansi.reversed);
    let dark = Theme::builtin(BuiltinTheme::Dark).active_tab_style();
    assert_eq!(dark.fg, Some(Color::Rgb(244, 247, 250)));
    assert_eq!(dark.bg, Some(Color::Rgb(28, 44, 61)));
    assert!(dark.bold && !dark.reversed);
}

#[test]
fn file_inherits_and_roles_are_independent() {
    let theme = load_fixture(
        "inherit",
        r##"{"base":"dark","colors":{"ui.title":"#010203","data.total":"#040506"}}"##,
    )
    .unwrap();
    assert_eq!(theme.colors.title, Color::Rgb(1, 2, 3));
    assert_eq!(theme.colors.total, Color::Rgb(4, 5, 6));
    assert_eq!(theme.colors.inbound, Color::Rgb(245, 186, 69));
}

#[test]
fn every_role_can_be_set_by_its_name_alone() {
    let before = Theme::builtin(BuiltinTheme::Dark).colors;
    for (name, role) in ROLES {
        assert_eq!(role_of(name), Some(role));
        let mut colors = before;
        assert_eq!(set_color(&mut colors, name, Color::Rgb(1, 2, 3)), Ok(()));
        for (_, other) in ROLES {
            let expected = if other == role { Color::Rgb(1, 2, 3) } else { before.get(other) };
            assert_eq!(colors.get(other), expected, "{name} {other:?}");
        }
    }
    assert_eq!(role_of("page_bg"), None);
    assert_eq!(role_of("ui.page_bg "), None);
}

#[test]
fn rejects_invalid_theme_constraints() {
    assert!(
        load_fixture(
            "ansi-rgb",
            r##"{"base":"ansi16","colors":{"ui.border":"#000000"}}"##
        )
        .unwrap_err()
        .contains("does not accept RGB")
    );
}

#[test]
fn rejects_unknown_roles_and_invalid_base() {
    assert!(
        load_fixture("role", r#"{"base":"dark","colors":{"data.unknown":"red"}}"#)
            .unwrap_err()
            .contains("Unknown theme color role")
    );
    assert!(
        load_fixture("base", r#"{"base":"solarized"}"#)
            .unwrap_err()
            .contains("Invalid theme base")
    );
}

#[test]
fn rejects_non_ascii_hex_and_non_default_mono_values_without_panicking() {
    assert!(
        load_fixture(
            "unicode",
            r##"{"base":"dark","colors":{"ui.border":"#€€€"}}"##
        )
        .unwrap_err()
        .contains("Invalid color")
    );
    assert!(
        load_fixture("mono", r#"{"base":"mono","colors":{"ui.text":"white"}}"#)
            .unwrap_err()
            .contains("only accepts `default`")
    );
}

#[test]
fn theme_errors_say_what_is_wrong() {
    let text = |color: Result<Color, ThemeError>| color.unwrap_err().message();
    assert_eq!(
        text(parse_color(None, BuiltinTheme::Dark, "ui.text")),
        "Invalid color for `ui.text`: expected a string"
    );
    assert_eq!(
        text(parse_color(Some("#12345"), BuiltinTheme::Dark, "ui.text")),
        "Invalid color `#12345` for `ui.text`"
    );
    assert_eq!(
        text(parse_color(Some("#+12345"), BuiltinTheme::Dark, "ui.text")),
        "Invalid color `#+12345` for `ui.text`"
    );
    assert_eq!(
        text(parse_color(Some("white"), BuiltinTheme::Mono, "ui.text")),
        "Theme base mono only accepts `default` for `ui.text`"
    );
    assert_eq!(
        text(parse_color(Some("#0a0B0c"), BuiltinTheme::Ansi16, "ui.text")),
        "Theme base ansi16 does not accept RGB color `#0a0B0c` for `ui.text`"
    );
    let mut colors = Theme::builtin(BuiltinTheme::Dark).colors;
    assert_eq!(
        set_color(&mut colors, "ui.nothing", Color::Red).unwrap_err().message(),
        "Unknown theme color role `ui.nothing`"
    );
    assert_eq!(colors, Theme::builtin(BuiltinTheme::Dark).colors);
    assert_eq!(
        load_fixture("base", r#"{"base":"solarized"}"#).unwrap_err(),
        "Invalid theme base `solarized`; expected dark, signal-deck, ansi16, or mono"
    );
}

#[test]
fn colors_are_spelled_by_name_or_in_hexadecimal() {
    let dark = |value| parse_color(Some(value), BuiltinTheme::Dark, "ui.text");
    assert_eq!(dark("default"), Ok(Color::Reset));
    assert_eq!(dark("#0a0B0c"), Ok(Color::Rgb(10, 11, 12)));
    assert_eq!(dark("#ffFFff"), Ok(Color::Rgb(255, 255, 255)));
    assert_eq!(dark("light_magenta"), Ok(Color::LightMagenta));
    assert!(dark("Red").is_err());
    let names = [
        ("black", Color::Black),
        ("red", Color::Red),
        ("green", Color::Green),
        ("yellow", Color::Yellow),
        ("blue", Color::Blue),
        ("magenta", Color::Magenta),
        ("cyan", Color::Cyan),
        ("gray", Color::Gray),
        ("dark_gray", Color::DarkGray),
        ("light_red", Color::LightRed),
        ("light_green", Color::LightGreen),
        ("light_yellow", Color::LightYellow),
        ("light_blue", Color::LightBlue),
        ("light_magenta", Color::LightMagenta),
        ("light_cyan", Color::LightCyan),
        ("white", Color::White),
    ];
    for (name, color) in names {
        assert_eq!(ansi_color(name), Some(color));
        assert_eq!(parse_color(Some(name), BuiltinTheme::Ansi16, "ui.text"), Ok(color));
    }
    assert_eq!(ansi_color("orange"), None);
}

#[test]
fn file_theme_can_be_reselected_after_switching_to_auto() {
    let file = load_fixture(
        "choice",
        r##"{"name":"Session file","base":"dark","colors":{"ui.title":"#010203"}}"##,
    )
    .unwrap();
    let mut state =
        ThemeState::with_detected(BuiltinTheme::Ansi16, ThemeSelection::File, Some(file));
    assert_eq!(state.selection_label(), "Session file");
    state.select(ThemeSelection::Auto);
    assert_eq!(state.selection_label(), "Auto (ANSI 16)");
    state.select(ThemeSelection::File);
    assert_eq!(state.resolved.colors.title, Color::Rgb(1, 2, 3));
}

#[test]
fn theme_is_named_after_its_file_unless_it_has_a_name() {
    assert_eq!(load_fixture("evening", r#"{"base":"dark"}"#).unwrap().name, "evening");
    assert_eq!(load_fixture("evening", r#"{"name":"","base":"dark"}"#).unwrap().name, "evening");
    assert_eq!(load_fixture("evening", r#"{"name":"Own","base":"mono"}"#).unwrap().name, "Own");
}

#[test]
fn choices_offer_the_file_only_if_one_was_loaded() {
    let without = ThemeState::auto(ColorTier::Sixteen);
    assert_eq!(
        without.choices(),
        [
            ThemeSelection::Auto,
            ThemeSelection::Builtin(BuiltinTheme::Dark),
            ThemeSelection::Builtin(BuiltinTheme::SignalDeck),
            ThemeSelection::Builtin(BuiltinTheme::Ansi16),
            ThemeSelection::Builtin(BuiltinTheme::Mono),
        ]
    );
    assert_eq!(without.resolved.base, BuiltinTheme::Ansi16);
    let with = ThemeState::with_selection(
        ColorTier::Truecolor,
        ThemeSelection::File,
        Some(Theme::builtin(BuiltinTheme::Mono)),
    );
    assert_eq!(with.choices().last(), Some(&ThemeSelection::File));
    assert_eq!(with.choices().len(), 6);
    assert_eq!(detected_theme(ColorTier::Monochrome), BuiltinTheme::Mono);
}

#[test]
fn command_line_names_a_theme_or_a_file() {
    assert_eq!(parse_cli_theme("auto"), ThemeArgument::Selection(ThemeSelection::Auto));
    for (name, theme) in [
        ("dark", BuiltinTheme::Dark),
        ("signal-deck", BuiltinTheme::SignalDeck),
        ("ansi16", BuiltinTheme::Ansi16),
        ("mono", BuiltinTheme::Mono),
    ] {
        let selection = ThemeSelection::Builtin(theme);
        assert_eq!(parse_cli_theme(name), ThemeArgument::Selection(selection));
    }
    assert_eq!(parse_cli_theme("Dark"), ThemeArgument::Path("Dark".to_string()));
}

#[test]
fn signal_deck_is_the_default_of_a_true_color_terminal() {
    assert_eq!(detected_theme(ColorTier::Truecolor), BuiltinTheme::SignalDeck);
    let state = ThemeState::auto(ColorTier::Truecolor);
    assert_eq!(state.resolved, Theme::builtin(BuiltinTheme::SignalDeck));
    assert_eq!(state.selection_label(), "Auto (Signal Deck)");
    assert!(all_colors(state.resolved.colors)
        .iter()
        .all(|color| matches!(color, Color::Rgb(_, _, _))));
    assert_eq!(
        state.resolved.selection_style().bg,
        Some(state.resolved.colors.selection_bg)
    );
    assert!(!state.resolved.active_tab_style().reversed);
}

#[test]
fn built_in_themes_have_the_documented_labels() {
    let state = ThemeState::auto(ColorTier::Monochrome);
    let labels: Vec<&str> = state
        .choices()
        .iter()
        .filter_map(|choice| match choice {
            ThemeSelection::Builtin(theme) => Some(theme.label()),
            _ => None,
        })
        .collect();
    assert_eq!(labels, ["FlowLens Dark", "Signal Deck", "ANSI 16", "Mono"]);
}

#[test]
fn signal_deck_is_a_base_of_theme_files() {
    let theme = load_fixture(
        "deck",
        r##"{"base":"signal-deck","colors":{"ui.title":"#010203"}}"##,
    )
    .unwrap();
    assert_eq!(theme.base, BuiltinTheme::SignalDeck);
    assert_eq!(theme.colors.title, Color::Rgb(1, 2, 3));
    assert_eq!(theme.colors.text, Theme::builtin(BuiltinTheme::SignalDeck).colors.text);
}
