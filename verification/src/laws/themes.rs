//! How colors are named, set and refused.

use vstd::prelude::*;

use crate::address_text::hex_digit;
use crate::palette::{
    color_named, color_of, color_spelled, colors_of, colors_set, fitting_theme, lowered,
    role_named, selection_named, theme_name, theme_named, tier_of, BuiltinTheme, Color, ColorTier,
    Role, ThemeColors, ThemeFault, ThemeSelection,
};
use crate::scan::{digit_in, holds, starts_with, trimmed};

verus! {

proof fn lemma_role_names()
    ensures
        role_named("ui.page_bg"@) == Some(Role::PageBg),
        role_named("ui.panel_bg"@) == Some(Role::PanelBg),
        role_named("ui.popup_bg"@) == Some(Role::PopupBg),
        role_named("ui.text"@) == Some(Role::Text),
        role_named("ui.title"@) == Some(Role::Title),
        role_named("ui.header"@) == Some(Role::Header),
        role_named("ui.label"@) == Some(Role::Label),
        role_named("ui.secondary"@) == Some(Role::Secondary),
        role_named("ui.placeholder"@) == Some(Role::Placeholder),
        role_named("ui.border"@) == Some(Role::Border),
        role_named("ui.focus_border"@) == Some(Role::FocusBorder),
        role_named("ui.active_tab_fg"@) == Some(Role::ActiveTabFg),
        role_named("ui.inactive_tab_fg"@) == Some(Role::InactiveTabFg),
        role_named("ui.active_tab_bg"@) == Some(Role::ActiveTabBg),
        role_named("ui.selection_bg"@) == Some(Role::SelectionBg),
        role_named("ui.key"@) == Some(Role::Key),
        role_named("ui.setting_label"@) == Some(Role::SettingLabel),
        role_named("ui.hint"@) == Some(Role::Hint),
        role_named("ui.setting_value"@) == Some(Role::SettingValue),
        role_named("feedback.warning"@) == Some(Role::Warning),
        role_named("feedback.error"@) == Some(Role::Error),
        role_named("brand.foreground"@) == Some(Role::Brand),
        role_named("data.inbound"@) == Some(Role::Inbound),
        role_named("data.outbound"@) == Some(Role::Outbound),
        role_named("data.local_endpoint"@) == Some(Role::LocalEndpoint),
        role_named("data.remote_endpoint"@) == Some(Role::RemoteEndpoint),
        role_named("data.identity"@) == Some(Role::Identity),
        role_named("data.protocol"@) == Some(Role::Protocol),
        role_named("data.address_family"@) == Some(Role::AddressFamily),
        role_named("data.attribution"@) == Some(Role::Attribution),
        role_named("data.total"@) == Some(Role::Total),
        role_named("data.time"@) == Some(Role::Time),
        role_named("chart.track"@) == Some(Role::ChartTrack),
        role_named("chart.combined"@) == Some(Role::ChartCombined),
{
    reveal_strlit("ui.page_bg");
    assert("ui.page_bg"@.len() == 10);
    reveal_strlit("ui.panel_bg");
    assert("ui.panel_bg"@.len() == 11);
    reveal_strlit("ui.popup_bg");
    assert("ui.popup_bg"@.len() == 11);
    reveal_strlit("ui.text");
    assert("ui.text"@.len() == 7);
    reveal_strlit("ui.title");
    assert("ui.title"@.len() == 8);
    reveal_strlit("ui.header");
    assert("ui.header"@.len() == 9);
    reveal_strlit("ui.label");
    assert("ui.label"@.len() == 8);
    reveal_strlit("ui.secondary");
    assert("ui.secondary"@.len() == 12);
    reveal_strlit("ui.placeholder");
    assert("ui.placeholder"@.len() == 14);
    reveal_strlit("ui.border");
    assert("ui.border"@.len() == 9);
    reveal_strlit("ui.focus_border");
    assert("ui.focus_border"@.len() == 15);
    reveal_strlit("ui.active_tab_fg");
    assert("ui.active_tab_fg"@.len() == 16);
    reveal_strlit("ui.inactive_tab_fg");
    assert("ui.inactive_tab_fg"@.len() == 18);
    reveal_strlit("ui.active_tab_bg");
    assert("ui.active_tab_bg"@.len() == 16);
    reveal_strlit("ui.selection_bg");
    assert("ui.selection_bg"@.len() == 15);
    reveal_strlit("ui.key");
    assert("ui.key"@.len() == 6);
    reveal_strlit("ui.setting_label");
    assert("ui.setting_label"@.len() == 16);
    reveal_strlit("ui.hint");
    assert("ui.hint"@.len() == 7);
    reveal_strlit("ui.setting_value");
    assert("ui.setting_value"@.len() == 16);
    reveal_strlit("feedback.warning");
    assert("feedback.warning"@.len() == 16);
    reveal_strlit("feedback.error");
    assert("feedback.error"@.len() == 14);
    reveal_strlit("brand.foreground");
    assert("brand.foreground"@.len() == 16);
    reveal_strlit("data.inbound");
    assert("data.inbound"@.len() == 12);
    reveal_strlit("data.outbound");
    assert("data.outbound"@.len() == 13);
    reveal_strlit("data.local_endpoint");
    assert("data.local_endpoint"@.len() == 19);
    reveal_strlit("data.remote_endpoint");
    assert("data.remote_endpoint"@.len() == 20);
    reveal_strlit("data.identity");
    assert("data.identity"@.len() == 13);
    reveal_strlit("data.protocol");
    assert("data.protocol"@.len() == 13);
    reveal_strlit("data.address_family");
    assert("data.address_family"@.len() == 19);
    reveal_strlit("data.attribution");
    assert("data.attribution"@.len() == 16);
    reveal_strlit("data.total");
    assert("data.total"@.len() == 10);
    reveal_strlit("data.time");
    assert("data.time"@.len() == 9);
    reveal_strlit("chart.track");
    assert("chart.track"@.len() == 11);
    reveal_strlit("chart.combined");
    assert("chart.combined"@.len() == 14);
    assert("ui.popup_bg"@[4] != "ui.panel_bg"@[4]);
    assert("ui.label"@[3] != "ui.title"@[3]);
    assert("ui.border"@[3] != "ui.header"@[3]);
    assert("ui.active_tab_bg"@[14] != "ui.active_tab_fg"@[14]);
    assert("ui.selection_bg"@[3] != "ui.focus_border"@[3]);
    assert("ui.setting_label"@[3] != "ui.active_tab_fg"@[3]);
    assert("ui.setting_label"@[3] != "ui.active_tab_bg"@[3]);
    assert("ui.hint"@[3] != "ui.text"@[3]);
    assert("ui.setting_value"@[3] != "ui.active_tab_fg"@[3]);
    assert("ui.setting_value"@[3] != "ui.active_tab_bg"@[3]);
    assert("ui.setting_value"@[11] != "ui.setting_label"@[11]);
    assert("feedback.warning"@[0] != "ui.active_tab_fg"@[0]);
    assert("feedback.warning"@[0] != "ui.active_tab_bg"@[0]);
    assert("feedback.warning"@[0] != "ui.setting_label"@[0]);
    assert("feedback.warning"@[0] != "ui.setting_value"@[0]);
    assert("feedback.error"@[0] != "ui.placeholder"@[0]);
    assert("brand.foreground"@[0] != "ui.active_tab_fg"@[0]);
    assert("brand.foreground"@[0] != "ui.active_tab_bg"@[0]);
    assert("brand.foreground"@[0] != "ui.setting_label"@[0]);
    assert("brand.foreground"@[0] != "ui.setting_value"@[0]);
    assert("brand.foreground"@[0] != "feedback.warning"@[0]);
    assert("data.inbound"@[0] != "ui.secondary"@[0]);
    assert("data.identity"@[5] != "data.outbound"@[5]);
    assert("data.protocol"@[5] != "data.outbound"@[5]);
    assert("data.protocol"@[5] != "data.identity"@[5]);
    assert("data.address_family"@[5] != "data.local_endpoint"@[5]);
    assert("data.attribution"@[0] != "ui.active_tab_fg"@[0]);
    assert("data.attribution"@[0] != "ui.active_tab_bg"@[0]);
    assert("data.attribution"@[0] != "ui.setting_label"@[0]);
    assert("data.attribution"@[0] != "ui.setting_value"@[0]);
    assert("data.attribution"@[0] != "feedback.warning"@[0]);
    assert("data.attribution"@[0] != "brand.foreground"@[0]);
    assert("data.total"@[0] != "ui.page_bg"@[0]);
    assert("data.time"@[0] != "ui.header"@[0]);
    assert("data.time"@[0] != "ui.border"@[0]);
    assert("chart.track"@[0] != "ui.panel_bg"@[0]);
    assert("chart.track"@[0] != "ui.popup_bg"@[0]);
    assert("chart.combined"@[0] != "ui.placeholder"@[0]);
    assert("chart.combined"@[0] != "feedback.error"@[0]);
}

/// Each name of the page and its controls names the color of that name: setting it changes that color and no other, and
/// asking for it gives that color.
pub proof fn lemma_names_of_the_page_and_its_controls(colors: ThemeColors, color: Color)
    ensures
        role_named("ui.page_bg"@) matches Some(role) && colors.color(role) == colors.page_bg
            && colors.with(role, color) == (ThemeColors { page_bg: color, ..colors }),
        role_named("ui.panel_bg"@) matches Some(role) && colors.color(role) == colors.panel_bg
            && colors.with(role, color) == (ThemeColors { panel_bg: color, ..colors }),
        role_named("ui.popup_bg"@) matches Some(role) && colors.color(role) == colors.popup_bg
            && colors.with(role, color) == (ThemeColors { popup_bg: color, ..colors }),
        role_named("ui.text"@) matches Some(role) && colors.color(role) == colors.text
            && colors.with(role, color) == (ThemeColors { text: color, ..colors }),
        role_named("ui.title"@) matches Some(role) && colors.color(role) == colors.title
            && colors.with(role, color) == (ThemeColors { title: color, ..colors }),
        role_named("ui.header"@) matches Some(role) && colors.color(role) == colors.header
            && colors.with(role, color) == (ThemeColors { header: color, ..colors }),
        role_named("ui.label"@) matches Some(role) && colors.color(role) == colors.label
            && colors.with(role, color) == (ThemeColors { label: color, ..colors }),
        role_named("ui.secondary"@) matches Some(role) && colors.color(role) == colors.secondary
            && colors.with(role, color) == (ThemeColors { secondary: color, ..colors }),
        role_named("ui.placeholder"@) matches Some(role) && colors.color(role) == colors.placeholder
            && colors.with(role, color) == (ThemeColors { placeholder: color, ..colors }),
        role_named("ui.border"@) matches Some(role) && colors.color(role) == colors.border
            && colors.with(role, color) == (ThemeColors { border: color, ..colors }),
        role_named("ui.focus_border"@) matches Some(role) && colors.color(role) == colors.focus_border
            && colors.with(role, color) == (ThemeColors { focus_border: color, ..colors }),
        role_named("ui.active_tab_fg"@) matches Some(role) && colors.color(role) == colors.active_tab_fg
            && colors.with(role, color) == (ThemeColors { active_tab_fg: color, ..colors }),
        role_named("ui.inactive_tab_fg"@) matches Some(role) && colors.color(role) == colors.inactive_tab_fg
            && colors.with(role, color) == (ThemeColors { inactive_tab_fg: color, ..colors }),
        role_named("ui.active_tab_bg"@) matches Some(role) && colors.color(role) == colors.active_tab_bg
            && colors.with(role, color) == (ThemeColors { active_tab_bg: color, ..colors }),
        role_named("ui.selection_bg"@) matches Some(role) && colors.color(role) == colors.selection_bg
            && colors.with(role, color) == (ThemeColors { selection_bg: color, ..colors }),
        role_named("ui.key"@) matches Some(role) && colors.color(role) == colors.key
            && colors.with(role, color) == (ThemeColors { key: color, ..colors }),
        role_named("ui.setting_label"@) matches Some(role) && colors.color(role) == colors.setting_label
            && colors.with(role, color) == (ThemeColors { setting_label: color, ..colors }),
        role_named("ui.hint"@) matches Some(role) && colors.color(role) == colors.hint
            && colors.with(role, color) == (ThemeColors { hint: color, ..colors }),
        role_named("ui.setting_value"@) matches Some(role) && colors.color(role) == colors.setting_value
            && colors.with(role, color) == (ThemeColors { setting_value: color, ..colors }),
{
    lemma_role_names();
}

/// Each name of feedback, brand, data and charts names the color of that name: setting it changes that color and no other, and
/// asking for it gives that color.
pub proof fn lemma_names_of_feedback_and_data(colors: ThemeColors, color: Color)
    ensures
        role_named("feedback.warning"@) matches Some(role) && colors.color(role) == colors.warning
            && colors.with(role, color) == (ThemeColors { warning: color, ..colors }),
        role_named("feedback.error"@) matches Some(role) && colors.color(role) == colors.error
            && colors.with(role, color) == (ThemeColors { error: color, ..colors }),
        role_named("brand.foreground"@) matches Some(role) && colors.color(role) == colors.brand
            && colors.with(role, color) == (ThemeColors { brand: color, ..colors }),
        role_named("data.inbound"@) matches Some(role) && colors.color(role) == colors.inbound
            && colors.with(role, color) == (ThemeColors { inbound: color, ..colors }),
        role_named("data.outbound"@) matches Some(role) && colors.color(role) == colors.outbound
            && colors.with(role, color) == (ThemeColors { outbound: color, ..colors }),
        role_named("data.local_endpoint"@) matches Some(role) && colors.color(role) == colors.local_endpoint
            && colors.with(role, color) == (ThemeColors { local_endpoint: color, ..colors }),
        role_named("data.remote_endpoint"@) matches Some(role) && colors.color(role) == colors.remote_endpoint
            && colors.with(role, color) == (ThemeColors { remote_endpoint: color, ..colors }),
        role_named("data.identity"@) matches Some(role) && colors.color(role) == colors.identity
            && colors.with(role, color) == (ThemeColors { identity: color, ..colors }),
        role_named("data.protocol"@) matches Some(role) && colors.color(role) == colors.protocol
            && colors.with(role, color) == (ThemeColors { protocol: color, ..colors }),
        role_named("data.address_family"@) matches Some(role) && colors.color(role) == colors.address_family
            && colors.with(role, color) == (ThemeColors { address_family: color, ..colors }),
        role_named("data.attribution"@) matches Some(role) && colors.color(role) == colors.attribution
            && colors.with(role, color) == (ThemeColors { attribution: color, ..colors }),
        role_named("data.total"@) matches Some(role) && colors.color(role) == colors.total
            && colors.with(role, color) == (ThemeColors { total: color, ..colors }),
        role_named("data.time"@) matches Some(role) && colors.color(role) == colors.time
            && colors.with(role, color) == (ThemeColors { time: color, ..colors }),
        role_named("chart.track"@) matches Some(role) && colors.color(role) == colors.chart_track
            && colors.with(role, color) == (ThemeColors { chart_track: color, ..colors }),
        role_named("chart.combined"@) matches Some(role) && colors.color(role) == colors.chart_combined
            && colors.with(role, color) == (ThemeColors { chart_combined: color, ..colors }),
{
    lemma_role_names();
}

/// The sixteen colors are spelled by their names, and the terminal's own color by `default`.
pub proof fn lemma_colors_by_name()
    ensures
        color_spelled("default"@) == Some(Color::Reset),
        color_spelled("black"@) == Some(Color::Black),
        color_spelled("red"@) == Some(Color::Red),
        color_spelled("green"@) == Some(Color::Green),
        color_spelled("yellow"@) == Some(Color::Yellow),
        color_spelled("blue"@) == Some(Color::Blue),
        color_spelled("magenta"@) == Some(Color::Magenta),
        color_spelled("cyan"@) == Some(Color::Cyan),
        color_spelled("gray"@) == Some(Color::Gray),
        color_spelled("dark_gray"@) == Some(Color::DarkGray),
        color_spelled("light_red"@) == Some(Color::LightRed),
        color_spelled("light_green"@) == Some(Color::LightGreen),
        color_spelled("light_yellow"@) == Some(Color::LightYellow),
        color_spelled("light_blue"@) == Some(Color::LightBlue),
        color_spelled("light_magenta"@) == Some(Color::LightMagenta),
        color_spelled("light_cyan"@) == Some(Color::LightCyan),
        color_spelled("white"@) == Some(Color::White),
{
    reveal_strlit("default");
    assert("default"@.len() == 7);
    reveal_strlit("black");
    assert("black"@.len() == 5);
    reveal_strlit("red");
    assert("red"@.len() == 3);
    reveal_strlit("green");
    assert("green"@.len() == 5);
    reveal_strlit("yellow");
    assert("yellow"@.len() == 6);
    reveal_strlit("blue");
    assert("blue"@.len() == 4);
    reveal_strlit("magenta");
    assert("magenta"@.len() == 7);
    reveal_strlit("cyan");
    assert("cyan"@.len() == 4);
    reveal_strlit("gray");
    assert("gray"@.len() == 4);
    reveal_strlit("dark_gray");
    assert("dark_gray"@.len() == 9);
    reveal_strlit("light_red");
    assert("light_red"@.len() == 9);
    reveal_strlit("light_green");
    assert("light_green"@.len() == 11);
    reveal_strlit("light_yellow");
    assert("light_yellow"@.len() == 12);
    reveal_strlit("light_blue");
    assert("light_blue"@.len() == 10);
    reveal_strlit("light_magenta");
    assert("light_magenta"@.len() == 13);
    reveal_strlit("light_cyan");
    assert("light_cyan"@.len() == 10);
    reveal_strlit("white");
    assert("white"@.len() == 5);
    assert("green"@[0] != "black"@[0]);
    assert("magenta"@[0] != "default"@[0]);
    assert("cyan"@[0] != "blue"@[0]);
    assert("gray"@[0] != "blue"@[0]);
    assert("gray"@[0] != "cyan"@[0]);
    assert("light_red"@[0] != "dark_gray"@[0]);
    assert("light_cyan"@[6] != "light_blue"@[6]);
    assert("white"@[0] != "black"@[0]);
    assert("white"@[0] != "green"@[0]);
}

/// A color of red, green and blue is spelled by a hash sign and two hexadecimal digits for
/// each.
pub proof fn lemma_colors_by_number(red: u8, green: u8, blue: u8)
    ensures
        color_spelled(
            seq![
                '#',
                hex_digit((red / 16) as nat),
                hex_digit((red % 16) as nat),
                hex_digit((green / 16) as nat),
                hex_digit((green % 16) as nat),
                hex_digit((blue / 16) as nat),
                hex_digit((blue % 16) as nat),
            ],
        ) == Some(Color::Rgb(red, green, blue)),
{
    let value = seq![
        '#',
        hex_digit((red / 16) as nat),
        hex_digit((red % 16) as nat),
        hex_digit((green / 16) as nat),
        hex_digit((green % 16) as nat),
        hex_digit((blue / 16) as nat),
        hex_digit((blue % 16) as nat),
    ];
    assert(digit_in(value[1], 16) == Some((red / 16) as nat));
    assert(digit_in(value[2], 16) == Some((red % 16) as nat));
    assert(digit_in(value[3], 16) == Some((green / 16) as nat));
    assert(digit_in(value[4], 16) == Some((green % 16) as nat));
    assert(digit_in(value[5], 16) == Some((blue / 16) as nat));
    assert(digit_in(value[6], 16) == Some((blue % 16) as nat));
    reveal_strlit("default");
    reveal_strlit("black");
    reveal_strlit("red");
    reveal_strlit("green");
    reveal_strlit("yellow");
    reveal_strlit("blue");
    reveal_strlit("magenta");
    reveal_strlit("cyan");
    reveal_strlit("gray");
    reveal_strlit("dark_gray");
    reveal_strlit("light_red");
    reveal_strlit("light_green");
    reveal_strlit("light_yellow");
    reveal_strlit("light_blue");
    reveal_strlit("light_magenta");
    reveal_strlit("light_cyan");
    reveal_strlit("white");
    assert(value[0] != "default"@[0]);
    assert(value[0] != "magenta"@[0]);
    assert(color_named(value) is None);
}

/// Setting the color of a role changes that role's color and no other's.
pub proof fn lemma_roles_are_set_apart(colors: ThemeColors, role: Role, color: Color, other: Role)
    ensures
        colors.with(role, color).color(role) == color,
        other != role ==> colors.with(role, color).color(other) == colors.color(other),
{
}

/// A theme without colors takes no color but the terminal's own, and one of sixteen colors none
/// of red, green and blue; the others take any. A value that is no text or spells no color is
/// refused.
pub proof fn lemma_themes_take_fitting_colors(
    value: Seq<char>,
    base: BuiltinTheme,
    role: Seq<char>,
    color: Color,
)
    requires
        color_spelled(value) == Some(color),
    ensures
        base == BuiltinTheme::Dark || base == BuiltinTheme::SignalDeck || color == Color::Reset
            ==> color_of(Some(value), base, role) == Ok::<Color, ThemeFault>(color),
        base == BuiltinTheme::Mono && color != Color::Reset ==> color_of(Some(value), base, role)
            == Err::<Color, ThemeFault>(ThemeFault::MonoColor(role)),
        base == BuiltinTheme::Ansi16 && color is Rgb ==> color_of(Some(value), base, role) == Err::<
            Color,
            ThemeFault,
        >(ThemeFault::AnsiRgb(value, role)),
        base == BuiltinTheme::Ansi16 && !(color is Rgb) ==> color_of(Some(value), base, role)
            == Ok::<Color, ThemeFault>(color),
        color_of(None, base, role) == Err::<Color, ThemeFault>(ThemeFault::NotText(role)),
{
}

/// Settings are made one after the other on the colors of the base, so that a later one wins.
/// The first that is refused decides what is reported: a wrong color before an unknown role.
pub proof fn lemma_settings_are_made_in_order(
    base: BuiltinTheme,
    settings: Seq<(Seq<char>, Option<Seq<char>>)>,
    role: Seq<char>,
    value: Option<Seq<char>>,
)
    ensures
        colors_set(base, Seq::<(Seq<char>, Option<Seq<char>>)>::empty()) == Ok::<
            ThemeColors,
            ThemeFault,
        >(colors_of(base)),
        ({
            let before = colors_set(base, settings);
            let after = colors_set(base, settings.push((role, value)));
            &&& before is Err ==> after == before
            &&& before matches Ok(colors) ==> {
                &&& color_of(value, base, role) matches Err(fault) ==> after == Err::<
                    ThemeColors,
                    ThemeFault,
                >(fault)
                &&& color_of(value, base, role) is Ok && role_named(role) is None ==> after == Err::<
                    ThemeColors,
                    ThemeFault,
                >(ThemeFault::UnknownRole(role))
                &&& color_of(value, base, role) is Ok && role_named(role) is Some ==> after == Ok::<
                    ThemeColors,
                    ThemeFault,
                >(colors.with(role_named(role)->0, color_of(value, base, role)->Ok_0))
            }
        }),
{
    assert(settings.push((role, value)).drop_last() =~= settings);
}

/// Colors are left out if that is asked for, whatever the terminal is. Else a terminal that
/// says so has all colors, in any case of letters and with blanks around; else its kind
/// decides.
pub proof fn lemma_terminals_by_what_they_say(
    colorterm: Option<Seq<char>>,
    term: Seq<char>,
    no_color: Option<Seq<char>>,
)
    ensures
        ({
            let plain = no_color matches Some(asked) && asked.len() > 0;
            let full = colorterm matches Some(said) && (lowered(trimmed(said)) == "truecolor"@
                || lowered(trimmed(said)) == "24bit"@);
            let kind = lowered(trimmed(term));
            let tier = tier_of(colorterm, term, no_color);
            &&& plain ==> tier == ColorTier::Monochrome
            &&& !plain && full ==> tier == ColorTier::Truecolor
            &&& !plain && !full && kind == "dumb"@ ==> tier == ColorTier::Monochrome
            &&& !plain && !full && kind != "dumb"@ && holds(kind, "256color"@) ==> tier
                == ColorTier::Truecolor
            &&& !plain && !full && kind != "dumb"@ && !holds(kind, "256color"@) ==> (tier
                == ColorTier::Sixteen <==> kind == "ansi"@ || kind == "linux"@ || kind == "screen"@
                || kind == "xterm"@ || starts_with(kind, "vt"@))
            &&& tier == ColorTier::Truecolor ==> fitting_theme(tier) == BuiltinTheme::SignalDeck
            &&& tier == ColorTier::Sixteen ==> fitting_theme(tier) == BuiltinTheme::Ansi16
            &&& tier == ColorTier::Monochrome ==> fitting_theme(tier) == BuiltinTheme::Mono
        }),
{
}

/// Capital letters are made small, and nothing else changes.
pub proof fn lemma_letters_are_made_small(text: Seq<char>, i: int)
    requires
        0 <= i < text.len(),
    ensures
        lowered(text).len() == text.len(),
        'A' <= text[i] <= 'Z' ==> lowered(text)[i] as int == text[i] as int + 32,
        !('A' <= text[i] <= 'Z') ==> lowered(text)[i] == text[i],
{
}

/// The themes are selected by their names, and the fitting one by `auto`. A theme of a file is
/// called by the name that it gives itself, or by that of the file.
pub proof fn lemma_themes_by_name(name: Seq<char>, stem: Seq<char>)
    ensures
        selection_named("auto"@) == Some(ThemeSelection::Auto),
        selection_named("dark"@) == Some(ThemeSelection::Builtin(BuiltinTheme::Dark)),
        selection_named("signal-deck"@) == Some(ThemeSelection::Builtin(BuiltinTheme::SignalDeck)),
        selection_named("ansi16"@) == Some(ThemeSelection::Builtin(BuiltinTheme::Ansi16)),
        selection_named("mono"@) == Some(ThemeSelection::Builtin(BuiltinTheme::Mono)),
        theme_named(name) is None && name != "auto"@ ==> selection_named(name) is None,
        name.len() > 0 ==> theme_name(Some(name), stem) == name,
        name.len() == 0 ==> theme_name(Some(name), stem) == stem,
        theme_name(None, stem) == stem,
{
    reveal_strlit("auto");
    reveal_strlit("dark");
    reveal_strlit("signal-deck");
    reveal_strlit("ansi16");
    reveal_strlit("mono");
    assert("dark"@[0] != "auto"@[0]);
    assert("mono"@[0] != "auto"@[0]);
    assert("mono"@[0] != "dark"@[0]);
    assert("signal-deck"@.len() != "auto"@.len());
    assert("signal-deck"@.len() != "dark"@.len());
    assert("ansi16"@.len() != "auto"@.len());
    assert("ansi16"@.len() != "dark"@.len());
    assert("ansi16"@.len() != "signal-deck"@.len());
    assert("mono"@.len() != "signal-deck"@.len());
    assert("mono"@.len() != "ansi16"@.len());
}

/// The colors of the themes.
pub proof fn lemma_colors_of_the_themes()
    ensures
        colors_of(BuiltinTheme::Dark) == (ThemeColors {
            page_bg: Color::Rgb(11, 17, 24),
            panel_bg: Color::Rgb(11, 17, 24),
            popup_bg: Color::Rgb(19, 29, 41),
            text: Color::Rgb(216, 224, 232),
            title: Color::Rgb(244, 247, 250),
            header: Color::Rgb(147, 162, 180),
            label: Color::Rgb(147, 162, 180),
            secondary: Color::Rgb(147, 162, 180),
            placeholder: Color::Rgb(147, 162, 180),
            border: Color::Rgb(61, 76, 95),
            focus_border: Color::Rgb(147, 162, 180),
            active_tab_fg: Color::Rgb(244, 247, 250),
            inactive_tab_fg: Color::Rgb(147, 162, 180),
            active_tab_bg: Color::Rgb(28, 44, 61),
            selection_bg: Color::Rgb(28, 44, 61),
            key: Color::Rgb(216, 224, 232),
            setting_label: Color::Rgb(216, 224, 232),
            hint: Color::Rgb(147, 162, 180),
            setting_value: Color::Rgb(244, 247, 250),
            warning: Color::Rgb(245, 186, 69),
            error: Color::Rgb(241, 139, 160),
            brand: Color::Rgb(185, 160, 247),
            inbound: Color::Rgb(245, 186, 69),
            outbound: Color::Rgb(67, 198, 232),
            local_endpoint: Color::Rgb(22, 198, 12),
            remote_endpoint: Color::Rgb(216, 224, 232),
            identity: Color::Rgb(216, 224, 232),
            protocol: Color::Rgb(216, 224, 232),
            address_family: Color::Rgb(216, 224, 232),
            attribution: Color::Rgb(216, 224, 232),
            total: Color::Rgb(244, 247, 250),
            time: Color::Rgb(147, 162, 180),
            chart_track: Color::Rgb(37, 52, 67),
            chart_combined: Color::Rgb(147, 162, 180),
        }),
        colors_of(BuiltinTheme::SignalDeck) == (ThemeColors {
            page_bg: Color::Rgb(7, 11, 16),
            panel_bg: Color::Rgb(7, 11, 16),
            popup_bg: Color::Rgb(14, 22, 31),
            text: Color::Rgb(206, 219, 226),
            title: Color::Rgb(240, 248, 252),
            header: Color::Rgb(126, 146, 160),
            label: Color::Rgb(126, 146, 160),
            secondary: Color::Rgb(126, 146, 160),
            placeholder: Color::Rgb(126, 146, 160),
            border: Color::Rgb(38, 58, 73),
            focus_border: Color::Rgb(64, 201, 196),
            active_tab_fg: Color::Rgb(240, 248, 252),
            inactive_tab_fg: Color::Rgb(126, 146, 160),
            active_tab_bg: Color::Rgb(18, 46, 58),
            selection_bg: Color::Rgb(18, 46, 58),
            key: Color::Rgb(206, 219, 226),
            setting_label: Color::Rgb(206, 219, 226),
            hint: Color::Rgb(126, 146, 160),
            setting_value: Color::Rgb(240, 248, 252),
            warning: Color::Rgb(255, 193, 84),
            error: Color::Rgb(255, 107, 119),
            brand: Color::Rgb(64, 201, 196),
            inbound: Color::Rgb(94, 226, 146),
            outbound: Color::Rgb(90, 176, 255),
            local_endpoint: Color::Rgb(176, 222, 92),
            remote_endpoint: Color::Rgb(206, 219, 226),
            identity: Color::Rgb(206, 219, 226),
            protocol: Color::Rgb(206, 219, 226),
            address_family: Color::Rgb(206, 219, 226),
            attribution: Color::Rgb(206, 219, 226),
            total: Color::Rgb(240, 248, 252),
            time: Color::Rgb(126, 146, 160),
            chart_track: Color::Rgb(24, 38, 49),
            chart_combined: Color::Rgb(64, 201, 196),
        }),
        colors_of(BuiltinTheme::Ansi16) == (ThemeColors {
            page_bg: Color::Reset,
            panel_bg: Color::Reset,
            popup_bg: Color::Reset,
            text: Color::Reset,
            title: Color::Reset,
            header: Color::DarkGray,
            label: Color::DarkGray,
            secondary: Color::DarkGray,
            placeholder: Color::DarkGray,
            border: Color::Gray,
            focus_border: Color::Gray,
            active_tab_fg: Color::Reset,
            inactive_tab_fg: Color::DarkGray,
            active_tab_bg: Color::Reset,
            selection_bg: Color::Reset,
            key: Color::Reset,
            setting_label: Color::Reset,
            hint: Color::DarkGray,
            setting_value: Color::Reset,
            warning: Color::Yellow,
            error: Color::Red,
            brand: Color::Magenta,
            inbound: Color::Yellow,
            outbound: Color::Cyan,
            local_endpoint: Color::LightGreen,
            remote_endpoint: Color::Reset,
            identity: Color::Reset,
            protocol: Color::Reset,
            address_family: Color::Reset,
            attribution: Color::Reset,
            total: Color::Reset,
            time: Color::DarkGray,
            chart_track: Color::Gray,
            chart_combined: Color::Gray,
        }),
        forall|role: Role| #[trigger] colors_of(BuiltinTheme::Mono).color(role) == Color::Reset,
{
}

} // verus!
