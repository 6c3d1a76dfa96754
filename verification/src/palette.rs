//! Colors of the terminal interface: built-in themes, theme files and their selection.

use vstd::prelude::*;
use vstd::string::*;

use crate::scan::{
    digit_in, digit_value, holds, holds_text, spells, starts_at, starts_with, trim, trimmed,
};
use crate::text::{chars_of, optional_view, same_text, text_view};

verus! {

/// A color of the terminal.
#[derive(Clone, Copy, Debug, PartialEq, Eq, Structural)]
pub enum Color {
    /// The terminal's own color.
    Reset,
    Black,
    Red,
    Green,
    Yellow,
    Blue,
    Magenta,
    Cyan,
    Gray,
    DarkGray,
    LightRed,
    LightGreen,
    LightYellow,
    LightBlue,
    LightMagenta,
    LightCyan,
    White,
    Rgb(u8, u8, u8),
}

/// How a piece of text is drawn; what is absent stays as it is.
#[derive(Clone, Copy, Debug, PartialEq, Eq, Structural)]
pub struct Style {
    pub fg: Option<Color>,
    pub bg: Option<Color>,
    pub bold: bool,
    pub reversed: bool,
}

/// The themes that need no file.
#[derive(Clone, Copy, Debug, PartialEq, Eq, Structural)]
pub enum BuiltinTheme {
    Dark,
    /// The one that is used where nothing else is asked for and the terminal has all colors.
    SignalDeck,
    Ansi16,
    Mono,
}

/// Which theme is used.
#[derive(Clone, Copy, Debug, PartialEq, Eq, Structural)]
pub enum ThemeSelection {
    /// The one that fits the terminal.
    Auto,
    Builtin(BuiltinTheme),
    /// The one that was loaded from a file.
    File,
}

/// How many colors a terminal has.
#[derive(Clone, Copy, Debug, PartialEq, Eq, Structural)]
pub enum ColorTier {
    Monochrome,
    Sixteen,
    Truecolor,
}

/// What a color is used for.
#[derive(Clone, Copy, Debug, PartialEq, Eq, Structural)]
pub enum Role {
    PageBg,
    PanelBg,
    PopupBg,
    Text,
    Title,
    Header,
    Label,
    Secondary,
    Placeholder,
    Border,
    FocusBorder,
    ActiveTabFg,
    InactiveTabFg,
    ActiveTabBg,
    SelectionBg,
    Key,
    SettingLabel,
    Hint,
    SettingValue,
    Warning,
    Error,
    Brand,
    Inbound,
    Outbound,
    LocalEndpoint,
    RemoteEndpoint,
    Identity,
    Protocol,
    AddressFamily,
    Attribution,
    Total,
    Time,
    ChartTrack,
    ChartCombined,
}

/// The color of each role.
#[derive(Clone, Copy, Debug, PartialEq, Eq, Structural)]
pub struct ThemeColors {
    pub page_bg: Color,
    pub panel_bg: Color,
    pub popup_bg: Color,
    pub text: Color,
    pub title: Color,
    pub header: Color,
    pub label: Color,
    pub secondary: Color,
    pub placeholder: Color,
    pub border: Color,
    pub focus_border: Color,
    pub active_tab_fg: Color,
    pub inactive_tab_fg: Color,
    pub active_tab_bg: Color,
    pub selection_bg: Color,
    pub key: Color,
    pub setting_label: Color,
    pub hint: Color,
    pub setting_value: Color,
    pub warning: Color,
    pub error: Color,
    pub brand: Color,
    pub inbound: Color,
    pub outbound: Color,
    pub local_endpoint: Color,
    pub remote_endpoint: Color,
    pub identity: Color,
    pub protocol: Color,
    pub address_family: Color,
    pub attribution: Color,
    pub total: Color,
    pub time: Color,
    pub chart_track: Color,
    pub chart_combined: Color,
}

/// The label of a built-in theme.
pub open spec fn theme_label(theme: BuiltinTheme) -> Seq<char> {
    match theme {
        BuiltinTheme::Dark => "FlowLens Dark"@,
        BuiltinTheme::SignalDeck => "Signal Deck"@,
        BuiltinTheme::Ansi16 => "ANSI 16"@,
        BuiltinTheme::Mono => "Mono"@,
    }
}

/// The built-in theme of a name.
pub open spec fn theme_named(name: Seq<char>) -> Option<BuiltinTheme> {
    if name == "dark"@ {
        Some(BuiltinTheme::Dark)
    } else if name == "signal-deck"@ {
        Some(BuiltinTheme::SignalDeck)
    } else if name == "ansi16"@ {
        Some(BuiltinTheme::Ansi16)
    } else if name == "mono"@ {
        Some(BuiltinTheme::Mono)
    } else {
        None
    }
}

impl BuiltinTheme {
    /// The label of a built-in theme.
    pub fn label(self) -> (label: &'static str)
        ensures
            label@ == theme_label(self),
    {
        match self {
            BuiltinTheme::Dark => "FlowLens Dark",
            BuiltinTheme::SignalDeck => "Signal Deck",
            BuiltinTheme::Ansi16 => "ANSI 16",
            BuiltinTheme::Mono => "Mono",
        }
    }

    /// The built-in theme of a name.
    pub fn parse(value: &str) -> (theme: Option<BuiltinTheme>)
        ensures
            theme == theme_named(value@),
    {
        if same_text(value, "dark") {
            Some(BuiltinTheme::Dark)
        } else if same_text(value, "signal-deck") {
            Some(BuiltinTheme::SignalDeck)
        } else if same_text(value, "ansi16") {
            Some(BuiltinTheme::Ansi16)
        } else if same_text(value, "mono") {
            Some(BuiltinTheme::Mono)
        } else {
            None
        }
    }
}

/// An ASCII capital as a small letter.
pub open spec fn lower_char(c: char) -> char {
    if 0x41 <= c as int <= 0x5a {
        (c as int + 0x20) as char
    } else {
        c
    }
}

/// A text with ASCII capitals as small letters.
pub open spec fn lowered(text: Seq<char>) -> Seq<char> {
    text.map_values(|c: char| lower_char(c))
}

/// How many colors a terminal has, by what `TERM` says of it.
pub open spec fn tier_of_term(term: Seq<char>) -> ColorTier {
    if term == "dumb"@ {
        ColorTier::Monochrome
    } else if holds(term, "256color"@) {
        ColorTier::Truecolor
    } else if term == "ansi"@ || term == "linux"@ || term == "screen"@ || term == "xterm"@
        || starts_with(term, "vt"@) {
        ColorTier::Sixteen
    } else {
        ColorTier::Truecolor
    }
}

/// How many colors a terminal has: none if `NO_COLOR` says something, else all if
/// `COLORTERM` says so, else what `TERM` says.
pub open spec fn tier_of(
    colorterm: Option<Seq<char>>,
    term: Seq<char>,
    no_color: Option<Seq<char>>,
) -> ColorTier {
    if no_color is Some && no_color->0.len() > 0 {
        ColorTier::Monochrome
    } else if colorterm is Some && (lowered(trimmed(colorterm->0)) == "truecolor"@ || lowered(
        trimmed(colorterm->0),
    ) == "24bit"@) {
        ColorTier::Truecolor
    } else {
        tier_of_term(lowered(trimmed(term)))
    }
}

fn lower(c: char) -> (lowered: char)
    ensures
        lowered == lower_char(c),
{
    let code: u32 = c as u32;
    if 0x41 <= code && code <= 0x5a {
        ((code + 0x20) as u8) as char
    } else {
        c
    }
}

/// A text without the white space around it, with ASCII capitals as small letters.
fn trim_and_lower(text: &str) -> (result: Vec<char>)
    ensures
        result@ == lowered(trimmed(text@)),
{
    let kept = trim(&chars_of(text));
    let mut result: Vec<char> = Vec::new();
    let mut i: usize = 0;
    while i < kept.len()
        invariant
            i <= kept@.len(),
            result@ == lowered(kept@.take(i as int)),
        decreases kept@.len() - i,
    {
        result.push(lower(kept[i]));
        assert(result@ =~= lowered(kept@.take(i + 1)));
        i += 1;
    }
    assert(kept@.take(i as int) =~= kept@);
    result
}

/// How many colors a terminal has, by what its environment says.
pub fn tier_from_env(colorterm: Option<&str>, term: &str, no_color: Option<&str>) -> (tier:
    ColorTier)
    ensures
        tier == tier_of(optional_view(colorterm), term@, optional_view(no_color)),
{
    if let Some(value) = no_color {
        if chars_of(value).len() > 0 {
            return ColorTier::Monochrome;
        }
    }
    if let Some(value) = colorterm {
        let value = trim_and_lower(value);
        if spells(&value, "truecolor") || spells(&value, "24bit") {
            return ColorTier::Truecolor;
        }
    }
    let term = trim_and_lower(term);
    if spells(&term, "dumb") {
        return ColorTier::Monochrome;
    }
    if holds_text(&term, "256color") {
        return ColorTier::Truecolor;
    }
    let vt = chars_of("vt");
    assert(term@.skip(0) =~= term@);
    if spells(&term, "ansi") || spells(&term, "linux") || spells(&term, "screen") || spells(
        &term,
        "xterm",
    ) || starts_at(&term, 0, &vt) {
        return ColorTier::Sixteen;
    }
    ColorTier::Truecolor
}

/// The built-in theme that fits a terminal.
pub open spec fn fitting_theme(tier: ColorTier) -> BuiltinTheme {
    match tier {
        ColorTier::Truecolor => BuiltinTheme::SignalDeck,
        ColorTier::Sixteen => BuiltinTheme::Ansi16,
        ColorTier::Monochrome => BuiltinTheme::Mono,
    }
}

/// The built-in theme that fits a terminal.
pub fn detected_theme(tier: ColorTier) -> (theme: BuiltinTheme)
    ensures
        theme == fitting_theme(tier),
{
    match tier {
        ColorTier::Truecolor => BuiltinTheme::SignalDeck,
        ColorTier::Sixteen => BuiltinTheme::Ansi16,
        ColorTier::Monochrome => BuiltinTheme::Mono,
    }
}

/// The colors that a built-in theme is made of.
#[derive(Clone, Copy, Debug, PartialEq, Eq, Structural)]
pub struct Shades {
    pub page: Color,
    pub popup: Color,
    pub text: Color,
    pub title: Color,
    pub secondary: Color,
    pub border: Color,
    pub focus: Color,
    pub selection: Color,
    pub warning: Color,
    pub error: Color,
    pub brand: Color,
    pub inbound: Color,
    pub outbound: Color,
    pub local_endpoint: Color,
    pub track: Color,
}

/// The colors that a built-in theme is made of. Those of Signal Deck are chosen here:
/// cool lines on a page close to black, bright where traffic is shown.
pub open spec fn shades_of(base: BuiltinTheme) -> Shades {
    match base {
        BuiltinTheme::Dark => Shades {
            page: Color::Rgb(11, 17, 24),
            popup: Color::Rgb(19, 29, 41),
            text: Color::Rgb(216, 224, 232),
            title: Color::Rgb(244, 247, 250),
            secondary: Color::Rgb(147, 162, 180),
            border: Color::Rgb(61, 76, 95),
            focus: Color::Rgb(147, 162, 180),
            selection: Color::Rgb(28, 44, 61),
            warning: Color::Rgb(245, 186, 69),
            error: Color::Rgb(241, 139, 160),
            brand: Color::Rgb(185, 160, 247),
            inbound: Color::Rgb(245, 186, 69),
            outbound: Color::Rgb(67, 198, 232),
            local_endpoint: Color::Rgb(22, 198, 12),
            track: Color::Rgb(37, 52, 67),
        },
        BuiltinTheme::SignalDeck => Shades {
            page: Color::Rgb(7, 11, 16),
            popup: Color::Rgb(14, 22, 31),
            text: Color::Rgb(206, 219, 226),
            title: Color::Rgb(240, 248, 252),
            secondary: Color::Rgb(126, 146, 160),
            border: Color::Rgb(38, 58, 73),
            focus: Color::Rgb(64, 201, 196),
            selection: Color::Rgb(18, 46, 58),
            warning: Color::Rgb(255, 193, 84),
            error: Color::Rgb(255, 107, 119),
            brand: Color::Rgb(64, 201, 196),
            inbound: Color::Rgb(94, 226, 146),
            outbound: Color::Rgb(90, 176, 255),
            local_endpoint: Color::Rgb(176, 222, 92),
            track: Color::Rgb(24, 38, 49),
        },
        BuiltinTheme::Ansi16 => Shades {
            page: Color::Reset,
            popup: Color::Reset,
            text: Color::Reset,
            title: Color::Reset,
            secondary: Color::DarkGray,
            border: Color::Gray,
            focus: Color::Gray,
            selection: Color::Reset,
            warning: Color::Yellow,
            error: Color::Red,
            brand: Color::Magenta,
            inbound: Color::Yellow,
            outbound: Color::Cyan,
            local_endpoint: Color::LightGreen,
            track: Color::Gray,
        },
        BuiltinTheme::Mono => Shades {
            page: Color::Reset,
            popup: Color::Reset,
            text: Color::Reset,
            title: Color::Reset,
            secondary: Color::Reset,
            border: Color::Reset,
            focus: Color::Reset,
            selection: Color::Reset,
            warning: Color::Reset,
            error: Color::Reset,
            brand: Color::Reset,
            inbound: Color::Reset,
            outbound: Color::Reset,
            local_endpoint: Color::Reset,
            track: Color::Reset,
        },
    }
}

/// The color of each role in a built-in theme.
pub open spec fn colors_of(base: BuiltinTheme) -> ThemeColors {
    let shades = shades_of(base);
    colors_from(shades)
}

/// The color of each role, made of shades.
pub open spec fn colors_from(shades: Shades) -> ThemeColors {
    ThemeColors {
        page_bg: shades.page,
        panel_bg: shades.page,
        popup_bg: shades.popup,
        text: shades.text,
        title: shades.title,
        header: shades.secondary,
        label: shades.secondary,
        secondary: shades.secondary,
        placeholder: shades.secondary,
        border: shades.border,
        focus_border: shades.focus,
        active_tab_fg: shades.title,
        inactive_tab_fg: shades.secondary,
        active_tab_bg: shades.selection,
        selection_bg: shades.selection,
        key: shades.text,
        setting_label: shades.text,
        hint: shades.secondary,
        setting_value: shades.title,
        warning: shades.warning,
        error: shades.error,
        brand: shades.brand,
        inbound: shades.inbound,
        outbound: shades.outbound,
        local_endpoint: shades.local_endpoint,
        remote_endpoint: shades.text,
        identity: shades.text,
        protocol: shades.text,
        address_family: shades.text,
        attribution: shades.text,
        total: shades.title,
        time: shades.secondary,
        chart_track: shades.track,
        chart_combined: shades.focus,
    }
}

fn builtin_shades(base: BuiltinTheme) -> (shades: Shades)
    ensures
        shades == shades_of(base),
{
    match base {
        BuiltinTheme::Dark => Shades {
            page: Color::Rgb(11, 17, 24),
            popup: Color::Rgb(19, 29, 41),
            text: Color::Rgb(216, 224, 232),
            title: Color::Rgb(244, 247, 250),
            secondary: Color::Rgb(147, 162, 180),
            border: Color::Rgb(61, 76, 95),
            focus: Color::Rgb(147, 162, 180),
            selection: Color::Rgb(28, 44, 61),
            warning: Color::Rgb(245, 186, 69),
            error: Color::Rgb(241, 139, 160),
            brand: Color::Rgb(185, 160, 247),
            inbound: Color::Rgb(245, 186, 69),
            outbound: Color::Rgb(67, 198, 232),
            local_endpoint: Color::Rgb(22, 198, 12),
            track: Color::Rgb(37, 52, 67),
        },
        BuiltinTheme::SignalDeck => Shades {
            page: Color::Rgb(7, 11, 16),
            popup: Color::Rgb(14, 22, 31),
            text: Color::Rgb(206, 219, 226),
            title: Color::Rgb(240, 248, 252),
            secondary: Color::Rgb(126, 146, 160),
            border: Color::Rgb(38, 58, 73),
            focus: Color::Rgb(64, 201, 196),
            selection: Color::Rgb(18, 46, 58),
            warning: Color::Rgb(255, 193, 84),
            error: Color::Rgb(255, 107, 119),
            brand: Color::Rgb(64, 201, 196),
            inbound: Color::Rgb(94, 226, 146),
            outbound: Color::Rgb(90, 176, 255),
            local_endpoint: Color::Rgb(176, 222, 92),
            track: Color::Rgb(24, 38, 49),
        },
        BuiltinTheme::Ansi16 => Shades {
            page: Color::Reset,
            popup: Color::Reset,
            text: Color::Reset,
            title: Color::Reset,
            secondary: Color::DarkGray,
            border: Color::Gray,
            focus: Color::Gray,
            selection: Color::Reset,
            warning: Color::Yellow,
            error: Color::Red,
            brand: Color::Magenta,
            inbound: Color::Yellow,
            outbound: Color::Cyan,
            local_endpoint: Color::LightGreen,
            track: Color::Gray,
        },
        BuiltinTheme::Mono => Shades {
            page: Color::Reset,
            popup: Color::Reset,
            text: Color::Reset,
            title: Color::Reset,
            secondary: Color::Reset,
            border: Color::Reset,
            focus: Color::Reset,
            selection: Color::Reset,
            warning: Color::Reset,
            error: Color::Reset,
            brand: Color::Reset,
            inbound: Color::Reset,
            outbound: Color::Reset,
            local_endpoint: Color::Reset,
            track: Color::Reset,
        },
    }
}

/// The color of each role in a built-in theme.
pub fn builtin_colors(base: BuiltinTheme) -> (colors: ThemeColors)
    ensures
        colors == colors_of(base),
{
    let shades = builtin_shades(base);
    ThemeColors {
        page_bg: shades.page,
        panel_bg: shades.page,
        popup_bg: shades.popup,
        text: shades.text,
        title: shades.title,
        header: shades.secondary,
        label: shades.secondary,
        secondary: shades.secondary,
        placeholder: shades.secondary,
        border: shades.border,
        focus_border: shades.focus,
        active_tab_fg: shades.title,
        inactive_tab_fg: shades.secondary,
        active_tab_bg: shades.selection,
        selection_bg: shades.selection,
        key: shades.text,
        setting_label: shades.text,
        hint: shades.secondary,
        setting_value: shades.title,
        warning: shades.warning,
        error: shades.error,
        brand: shades.brand,
        inbound: shades.inbound,
        outbound: shades.outbound,
        local_endpoint: shades.local_endpoint,
        remote_endpoint: shades.text,
        identity: shades.text,
        protocol: shades.text,
        address_family: shades.text,
        attribution: shades.text,
        total: shades.title,
        time: shades.secondary,
        chart_track: shades.track,
        chart_combined: shades.focus,
    }
}

/// The role that a theme file calls by this name.
pub open spec fn role_named(name: Seq<char>) -> Option<Role> {
    if name == "ui.page_bg"@ {
        Some(Role::PageBg)
    } else if name == "ui.panel_bg"@ {
        Some(Role::PanelBg)
    } else if name == "ui.popup_bg"@ {
        Some(Role::PopupBg)
    } else if name == "ui.text"@ {
        Some(Role::Text)
    } else if name == "ui.title"@ {
        Some(Role::Title)
    } else if name == "ui.header"@ {
        Some(Role::Header)
    } else if name == "ui.label"@ {
        Some(Role::Label)
    } else if name == "ui.secondary"@ {
        Some(Role::Secondary)
    } else if name == "ui.placeholder"@ {
        Some(Role::Placeholder)
    } else if name == "ui.border"@ {
        Some(Role::Border)
    } else if name == "ui.focus_border"@ {
        Some(Role::FocusBorder)
    } else if name == "ui.active_tab_fg"@ {
        Some(Role::ActiveTabFg)
    } else if name == "ui.inactive_tab_fg"@ {
        Some(Role::InactiveTabFg)
    } else if name == "ui.active_tab_bg"@ {
        Some(Role::ActiveTabBg)
    } else if name == "ui.selection_bg"@ {
        Some(Role::SelectionBg)
    } else if name == "ui.key"@ {
        Some(Role::Key)
    } else if name == "ui.setting_label"@ {
        Some(Role::SettingLabel)
    } else if name == "ui.hint"@ {
        Some(Role::Hint)
    } else if name == "ui.setting_value"@ {
        Some(Role::SettingValue)
    } else if name == "feedback.warning"@ {
        Some(Role::Warning)
    } else if name == "feedback.error"@ {
        Some(Role::Error)
    } else if name == "brand.foreground"@ {
        Some(Role::Brand)
    } else if name == "data.inbound"@ {
        Some(Role::Inbound)
    } else if name == "data.outbound"@ {
        Some(Role::Outbound)
    } else if name == "data.local_endpoint"@ {
        Some(Role::LocalEndpoint)
    } else if name == "data.remote_endpoint"@ {
        Some(Role::RemoteEndpoint)
    } else if name == "data.identity"@ {
        Some(Role::Identity)
    } else if name == "data.protocol"@ {
        Some(Role::Protocol)
    } else if name == "data.address_family"@ {
        Some(Role::AddressFamily)
    } else if name == "data.attribution"@ {
        Some(Role::Attribution)
    } else if name == "data.total"@ {
        Some(Role::Total)
    } else if name == "data.time"@ {
        Some(Role::Time)
    } else if name == "chart.track"@ {
        Some(Role::ChartTrack)
    } else if name == "chart.combined"@ {
        Some(Role::ChartCombined)
    } else {
        None
    }
}

/// The role that a theme file calls by this name.
pub fn role_of(name: &str) -> (role: Option<Role>)
    ensures
        role == role_named(name@),
{
    if same_text(name, "ui.page_bg") {
        Some(Role::PageBg)
    } else if same_text(name, "ui.panel_bg") {
        Some(Role::PanelBg)
    } else if same_text(name, "ui.popup_bg") {
        Some(Role::PopupBg)
    } else if same_text(name, "ui.text") {
        Some(Role::Text)
    } else if same_text(name, "ui.title") {
        Some(Role::Title)
    } else if same_text(name, "ui.header") {
        Some(Role::Header)
    } else if same_text(name, "ui.label") {
        Some(Role::Label)
    } else if same_text(name, "ui.secondary") {
        Some(Role::Secondary)
    } else if same_text(name, "ui.placeholder") {
        Some(Role::Placeholder)
    } else if same_text(name, "ui.border") {
        Some(Role::Border)
    } else if same_text(name, "ui.focus_border") {
        Some(Role::FocusBorder)
    } else if same_text(name, "ui.active_tab_fg") {
        Some(Role::ActiveTabFg)
    } else if same_text(name, "ui.inactive_tab_fg") {
        Some(Role::InactiveTabFg)
    } else if same_text(name, "ui.active_tab_bg") {
        Some(Role::ActiveTabBg)
    } else if same_text(name, "ui.selection_bg") {
        Some(Role::SelectionBg)
    } else if same_text(name, "ui.key") {
        Some(Role::Key)
    } else if same_text(name, "ui.setting_label") {
        Some(Role::SettingLabel)
    } else if same_text(name, "ui.hint") {
        Some(Role::Hint)
    } else if same_text(name, "ui.setting_value") {
        Some(Role::SettingValue)
    } else if same_text(name, "feedback.warning") {
        Some(Role::Warning)
    } else if same_text(name, "feedback.error") {
        Some(Role::Error)
    } else if same_text(name, "brand.foreground") {
        Some(Role::Brand)
    } else if same_text(name, "data.inbound") {
        Some(Role::Inbound)
    } else if same_text(name, "data.outbound") {
        Some(Role::Outbound)
    } else if same_text(name, "data.local_endpoint") {
        Some(Role::LocalEndpoint)
    } else if same_text(name, "data.remote_endpoint") {
        Some(Role::RemoteEndpoint)
    } else if same_text(name, "data.identity") {
        Some(Role::Identity)
    } else if same_text(name, "data.protocol") {
        Some(Role::Protocol)
    } else if same_text(name, "data.address_family") {
        Some(Role::AddressFamily)
    } else if same_text(name, "data.attribution") {
        Some(Role::Attribution)
    } else if same_text(name, "data.total") {
        Some(Role::Total)
    } else if same_text(name, "data.time") {
        Some(Role::Time)
    } else if same_text(name, "chart.track") {
        Some(Role::ChartTrack)
    } else if same_text(name, "chart.combined") {
        Some(Role::ChartCombined)
    } else {
        None
    }
}

impl ThemeColors {
    /// The color of a role.
    pub open spec fn color(self, role: Role) -> Color {
        match role {
            Role::PageBg => self.page_bg,
            Role::PanelBg => self.panel_bg,
            Role::PopupBg => self.popup_bg,
            Role::Text => self.text,
            Role::Title => self.title,
            Role::Header => self.header,
            Role::Label => self.label,
            Role::Secondary => self.secondary,
            Role::Placeholder => self.placeholder,
            Role::Border => self.border,
            Role::FocusBorder => self.focus_border,
            Role::ActiveTabFg => self.active_tab_fg,
            Role::InactiveTabFg => self.inactive_tab_fg,
            Role::ActiveTabBg => self.active_tab_bg,
            Role::SelectionBg => self.selection_bg,
            Role::Key => self.key,
            Role::SettingLabel => self.setting_label,
            Role::Hint => self.hint,
            Role::SettingValue => self.setting_value,
            Role::Warning => self.warning,
            Role::Error => self.error,
            Role::Brand => self.brand,
            Role::Inbound => self.inbound,
            Role::Outbound => self.outbound,
            Role::LocalEndpoint => self.local_endpoint,
            Role::RemoteEndpoint => self.remote_endpoint,
            Role::Identity => self.identity,
            Role::Protocol => self.protocol,
            Role::AddressFamily => self.address_family,
            Role::Attribution => self.attribution,
            Role::Total => self.total,
            Role::Time => self.time,
            Role::ChartTrack => self.chart_track,
            Role::ChartCombined => self.chart_combined,
        }
    }

    /// The color of a role.
    pub fn get(&self, role: Role) -> (color: Color)
        ensures
            color == self.color(role),
    {
        match role {
            Role::PageBg => self.page_bg,
            Role::PanelBg => self.panel_bg,
            Role::PopupBg => self.popup_bg,
            Role::Text => self.text,
            Role::Title => self.title,
            Role::Header => self.header,
            Role::Label => self.label,
            Role::Secondary => self.secondary,
            Role::Placeholder => self.placeholder,
            Role::Border => self.border,
            Role::FocusBorder => self.focus_border,
            Role::ActiveTabFg => self.active_tab_fg,
            Role::InactiveTabFg => self.inactive_tab_fg,
            Role::ActiveTabBg => self.active_tab_bg,
            Role::SelectionBg => self.selection_bg,
            Role::Key => self.key,
            Role::SettingLabel => self.setting_label,
            Role::Hint => self.hint,
            Role::SettingValue => self.setting_value,
            Role::Warning => self.warning,
            Role::Error => self.error,
            Role::Brand => self.brand,
            Role::Inbound => self.inbound,
            Role::Outbound => self.outbound,
            Role::LocalEndpoint => self.local_endpoint,
            Role::RemoteEndpoint => self.remote_endpoint,
            Role::Identity => self.identity,
            Role::Protocol => self.protocol,
            Role::AddressFamily => self.address_family,
            Role::Attribution => self.attribution,
            Role::Total => self.total,
            Role::Time => self.time,
            Role::ChartTrack => self.chart_track,
            Role::ChartCombined => self.chart_combined,
        }
    }

    /// The same colors but for one role.
    pub open spec fn with(self, role: Role, color: Color) -> Self {
        match role {
            Role::PageBg => ThemeColors { page_bg: color, ..self },
            Role::PanelBg => ThemeColors { panel_bg: color, ..self },
            Role::PopupBg => ThemeColors { popup_bg: color, ..self },
            Role::Text => ThemeColors { text: color, ..self },
            Role::Title => ThemeColors { title: color, ..self },
            Role::Header => ThemeColors { header: color, ..self },
            Role::Label => ThemeColors { label: color, ..self },
            Role::Secondary => ThemeColors { secondary: color, ..self },
            Role::Placeholder => ThemeColors { placeholder: color, ..self },
            Role::Border => ThemeColors { border: color, ..self },
            Role::FocusBorder => ThemeColors { focus_border: color, ..self },
            Role::ActiveTabFg => ThemeColors { active_tab_fg: color, ..self },
            Role::InactiveTabFg => ThemeColors { inactive_tab_fg: color, ..self },
            Role::ActiveTabBg => ThemeColors { active_tab_bg: color, ..self },
            Role::SelectionBg => ThemeColors { selection_bg: color, ..self },
            Role::Key => ThemeColors { key: color, ..self },
            Role::SettingLabel => ThemeColors { setting_label: color, ..self },
            Role::Hint => ThemeColors { hint: color, ..self },
            Role::SettingValue => ThemeColors { setting_value: color, ..self },
            Role::Warning => ThemeColors { warning: color, ..self },
            Role::Error => ThemeColors { error: color, ..self },
            Role::Brand => ThemeColors { brand: color, ..self },
            Role::Inbound => ThemeColors { inbound: color, ..self },
            Role::Outbound => ThemeColors { outbound: color, ..self },
            Role::LocalEndpoint => ThemeColors { local_endpoint: color, ..self },
            Role::RemoteEndpoint => ThemeColors { remote_endpoint: color, ..self },
            Role::Identity => ThemeColors { identity: color, ..self },
            Role::Protocol => ThemeColors { protocol: color, ..self },
            Role::AddressFamily => ThemeColors { address_family: color, ..self },
            Role::Attribution => ThemeColors { attribution: color, ..self },
            Role::Total => ThemeColors { total: color, ..self },
            Role::Time => ThemeColors { time: color, ..self },
            Role::ChartTrack => ThemeColors { chart_track: color, ..self },
            Role::ChartCombined => ThemeColors { chart_combined: color, ..self },
        }
    }

    /// Gives a role another color.
    pub fn set(&mut self, role: Role, color: Color)
        ensures
            *final(self) == old(self).with(role, color),
    {
        match role {
            Role::PageBg => self.page_bg = color,
            Role::PanelBg => self.panel_bg = color,
            Role::PopupBg => self.popup_bg = color,
            Role::Text => self.text = color,
            Role::Title => self.title = color,
            Role::Header => self.header = color,
            Role::Label => self.label = color,
            Role::Secondary => self.secondary = color,
            Role::Placeholder => self.placeholder = color,
            Role::Border => self.border = color,
            Role::FocusBorder => self.focus_border = color,
            Role::ActiveTabFg => self.active_tab_fg = color,
            Role::InactiveTabFg => self.inactive_tab_fg = color,
            Role::ActiveTabBg => self.active_tab_bg = color,
            Role::SelectionBg => self.selection_bg = color,
            Role::Key => self.key = color,
            Role::SettingLabel => self.setting_label = color,
            Role::Hint => self.hint = color,
            Role::SettingValue => self.setting_value = color,
            Role::Warning => self.warning = color,
            Role::Error => self.error = color,
            Role::Brand => self.brand = color,
            Role::Inbound => self.inbound = color,
            Role::Outbound => self.outbound = color,
            Role::LocalEndpoint => self.local_endpoint = color,
            Role::RemoteEndpoint => self.remote_endpoint = color,
            Role::Identity => self.identity = color,
            Role::Protocol => self.protocol = color,
            Role::AddressFamily => self.address_family = color,
            Role::Attribution => self.attribution = color,
            Role::Total => self.total = color,
            Role::Time => self.time = color,
            Role::ChartTrack => self.chart_track = color,
            Role::ChartCombined => self.chart_combined = color,
        }
    }
}

/// Giving a role a color changes that role and no other.
pub proof fn lemma_roles_are_independent(
    colors: ThemeColors,
    role: Role,
    color: Color,
    other: Role,
)
    ensures
        colors.with(role, color).color(other) == if other == role {
            color
        } else {
            colors.color(other)
        },
{
}

/// The theme without colors leaves every role to the terminal.
pub proof fn lemma_mono_has_no_colors(role: Role)
    ensures
        colors_of(BuiltinTheme::Mono).color(role) == Color::Reset,
{
}

/// The themes for terminals with all colors give every role a color of their own, and the
/// one for sixteen colors none beyond those.
pub proof fn lemma_themes_keep_to_their_colors(role: Role)
    ensures
        colors_of(BuiltinTheme::Dark).color(role) is Rgb,
        colors_of(BuiltinTheme::SignalDeck).color(role) is Rgb,
        !(colors_of(BuiltinTheme::Ansi16).color(role) is Rgb),
{
}

/// The color of a name.
pub open spec fn color_named(value: Seq<char>) -> Option<Color> {
    if value == "black"@ {
        Some(Color::Black)
    } else if value == "red"@ {
        Some(Color::Red)
    } else if value == "green"@ {
        Some(Color::Green)
    } else if value == "yellow"@ {
        Some(Color::Yellow)
    } else if value == "blue"@ {
        Some(Color::Blue)
    } else if value == "magenta"@ {
        Some(Color::Magenta)
    } else if value == "cyan"@ {
        Some(Color::Cyan)
    } else if value == "gray"@ {
        Some(Color::Gray)
    } else if value == "dark_gray"@ {
        Some(Color::DarkGray)
    } else if value == "light_red"@ {
        Some(Color::LightRed)
    } else if value == "light_green"@ {
        Some(Color::LightGreen)
    } else if value == "light_yellow"@ {
        Some(Color::LightYellow)
    } else if value == "light_blue"@ {
        Some(Color::LightBlue)
    } else if value == "light_magenta"@ {
        Some(Color::LightMagenta)
    } else if value == "light_cyan"@ {
        Some(Color::LightCyan)
    } else if value == "white"@ {
        Some(Color::White)
    } else {
        None
    }
}

/// The color of a name.
pub fn ansi_color(value: &str) -> (color: Option<Color>)
    ensures
        color == color_named(value@),
{
    if same_text(value, "black") {
        Some(Color::Black)
    } else if same_text(value, "red") {
        Some(Color::Red)
    } else if same_text(value, "green") {
        Some(Color::Green)
    } else if same_text(value, "yellow") {
        Some(Color::Yellow)
    } else if same_text(value, "blue") {
        Some(Color::Blue)
    } else if same_text(value, "magenta") {
        Some(Color::Magenta)
    } else if same_text(value, "cyan") {
        Some(Color::Cyan)
    } else if same_text(value, "gray") {
        Some(Color::Gray)
    } else if same_text(value, "dark_gray") {
        Some(Color::DarkGray)
    } else if same_text(value, "light_red") {
        Some(Color::LightRed)
    } else if same_text(value, "light_green") {
        Some(Color::LightGreen)
    } else if same_text(value, "light_yellow") {
        Some(Color::LightYellow)
    } else if same_text(value, "light_blue") {
        Some(Color::LightBlue)
    } else if same_text(value, "light_magenta") {
        Some(Color::LightMagenta)
    } else if same_text(value, "light_cyan") {
        Some(Color::LightCyan)
    } else if same_text(value, "white") {
        Some(Color::White)
    } else {
        None
    }
}

/// Why a theme file makes no theme.
#[derive(Debug, PartialEq, Eq)]
pub enum ThemeError {
    /// The base is no built-in theme.
    InvalidBase { base: String },
    /// The color of a role is no text.
    NotText { role: String },
    /// The color of a role is none.
    InvalidColor { value: String, role: String },
    /// A color on a base without colors.
    MonoColor { role: String },
    /// An RGB color on a base with sixteen colors.
    AnsiRgb { value: String, role: String },
    /// No such role.
    UnknownRole { role: String },
}

/// Why a theme file makes no theme, as a mathematical value.
pub ghost enum ThemeFault {
    InvalidBase(Seq<char>),
    NotText(Seq<char>),
    InvalidColor(Seq<char>, Seq<char>),
    MonoColor(Seq<char>),
    AnsiRgb(Seq<char>, Seq<char>),
    UnknownRole(Seq<char>),
}

impl View for ThemeError {
    type V = ThemeFault;

    open spec fn view(&self) -> ThemeFault {
        match *self {
            ThemeError::InvalidBase { base } => ThemeFault::InvalidBase(base@),
            ThemeError::NotText { role } => ThemeFault::NotText(role@),
            ThemeError::InvalidColor { value, role } => ThemeFault::InvalidColor(value@, role@),
            ThemeError::MonoColor { role } => ThemeFault::MonoColor(role@),
            ThemeError::AnsiRgb { value, role } => ThemeFault::AnsiRgb(value@, role@),
            ThemeError::UnknownRole { role } => ThemeFault::UnknownRole(role@),
        }
    }
}

/// What to say of a theme file that makes no theme.
pub open spec fn fault_text(fault: ThemeFault) -> Seq<char> {
    match fault {
        ThemeFault::InvalidBase(base) => "Invalid theme base `"@ + base
            + "`; expected dark, signal-deck, ansi16, or mono"@,
        ThemeFault::NotText(role) => "Invalid color for `"@ + role + "`: expected a string"@,
        ThemeFault::InvalidColor(value, role) => "Invalid color `"@ + value + "` for `"@ + role
            + seq!['`'],
        ThemeFault::MonoColor(role) => "Theme base mono only accepts `default` for `"@ + role
            + seq!['`'],
        ThemeFault::AnsiRgb(value, role) => "Theme base ansi16 does not accept RGB color `"@ + value
            + "` for `"@ + role + seq!['`'],
        ThemeFault::UnknownRole(role) => "Unknown theme color role `"@ + role + seq!['`'],
    }
}

impl ThemeError {
    /// What to say of it.
    pub fn message(&self) -> (message: String)
        ensures
            message@ == fault_text(self@),
    {
        let mut message = String::new();
        match self {
            ThemeError::InvalidBase { base } => {
                message.append("Invalid theme base `");
                message.append(base.as_str());
                message.append("`; expected dark, signal-deck, ansi16, or mono");
            },
            ThemeError::NotText { role } => {
                message.append("Invalid color for `");
                message.append(role.as_str());
                message.append("`: expected a string");
            },
            ThemeError::InvalidColor { value, role } => {
                message.append("Invalid color `");
                message.append(value.as_str());
                message.append("` for `");
                message.append(role.as_str());
                message.push('`');
            },
            ThemeError::MonoColor { role } => {
                message.append("Theme base mono only accepts `default` for `");
                message.append(role.as_str());
                message.push('`');
            },
            ThemeError::AnsiRgb { value, role } => {
                message.append("Theme base ansi16 does not accept RGB color `");
                message.append(value.as_str());
                message.append("` for `");
                message.append(role.as_str());
                message.push('`');
            },
            ThemeError::UnknownRole { role } => {
                message.append("Unknown theme color role `");
                message.append(role.as_str());
                message.push('`');
            },
        }
        assert(message@ =~= fault_text(self@));
        message
    }
}

/// The value of two hexadecimal digits.
pub open spec fn hex_pair(high: char, low: char) -> nat {
    digit_in(high, 16)->0 * 16 + digit_in(low, 16)->0
}

/// Whether a text is a number sign and six hexadecimal digits.
pub open spec fn is_hex_color(value: Seq<char>) -> bool {
    &&& value.len() == 7
    &&& value[0] == '#'
    &&& forall|i: int| 1 <= i < 7 ==> digit_in(#[trigger] value[i], 16) is Some
}

/// The color that a text spells: the terminal's own, one of a name, or a hexadecimal one.
pub open spec fn color_spelled(value: Seq<char>) -> Option<Color> {
    if value == "default"@ {
        Some(Color::Reset)
    } else if color_named(value) is Some {
        color_named(value)
    } else if is_hex_color(value) {
        Some(
            Color::Rgb(
                hex_pair(value[1], value[2]) as u8,
                hex_pair(value[3], value[4]) as u8,
                hex_pair(value[5], value[6]) as u8,
            ),
        )
    } else {
        None
    }
}

/// The color of a role in a theme file: a text that spells one which the base allows.
pub open spec fn color_of(value: Option<Seq<char>>, base: BuiltinTheme, role: Seq<char>) -> Result<
    Color,
    ThemeFault,
> {
    match value {
        None => Err(ThemeFault::NotText(role)),
        Some(value) => match color_spelled(value) {
            None => Err(ThemeFault::InvalidColor(value, role)),
            Some(color) => if base == BuiltinTheme::Mono && color != Color::Reset {
                Err(ThemeFault::MonoColor(role))
            } else if base == BuiltinTheme::Ansi16 && color is Rgb {
                Err(ThemeFault::AnsiRgb(value, role))
            } else {
                Ok(color)
            },
        },
    }
}

/// A theme's result with its error as a mathematical value.
pub open spec fn fault_view<T>(result: Result<T, ThemeError>) -> Result<T, ThemeFault> {
    match result {
        Ok(value) => Ok(value),
        Err(error) => Err(error@),
    }
}

/// The value of two hexadecimal digits, if they are.
fn read_hex_pair(high: char, low: char) -> (value: Option<u8>)
    ensures
        match value {
            Some(value) => digit_in(high, 16) is Some && digit_in(low, 16) is Some && value
                == hex_pair(high, low),
            None => digit_in(high, 16) is None || digit_in(low, 16) is None,
        },
{
    let high_value = digit_value(high, 16);
    let low_value = digit_value(low, 16);
    match (high_value, low_value) {
        (Some(high_value), Some(low_value)) => Some((high_value * 16 + low_value) as u8),
        _ => None,
    }
}

/// The color that a hexadecimal text spells.
fn hex_color(value: &str) -> (color: Option<Color>)
    ensures
        color == if is_hex_color(value@) {
            Some(
                Color::Rgb(
                    hex_pair(value@[1], value@[2]) as u8,
                    hex_pair(value@[3], value@[4]) as u8,
                    hex_pair(value@[5], value@[6]) as u8,
                ),
            )
        } else {
            None
        },
{
    let chars = chars_of(value);
    if chars.len() != 7 || chars[0] != '#' {
        return None;
    }
    let red = read_hex_pair(chars[1], chars[2]);
    let green = read_hex_pair(chars[3], chars[4]);
    let blue = read_hex_pair(chars[5], chars[6]);
    match (red, green, blue) {
        (Some(red), Some(green), Some(blue)) => Some(Color::Rgb(red, green, blue)),
        _ => None,
    }
}

/// The color of a role in a theme file; `value` is absent where it is no text.
pub fn parse_color(value: Option<&str>, base: BuiltinTheme, role: &str) -> (color: Result<
    Color,
    ThemeError,
>)
    ensures
        fault_view(color) == color_of(optional_view(value), base, role@),
{
    let value = match value {
        Some(value) => value,
        None => {
            return Err(ThemeError::NotText { role: role.to_owned() });
        },
    };
    let color = if same_text(value, "default") {
        Color::Reset
    } else if let Some(color) = ansi_color(value) {
        color
    } else if let Some(color) = hex_color(value) {
        color
    } else {
        return Err(ThemeError::InvalidColor { value: value.to_owned(), role: role.to_owned() });
    };
    if base == BuiltinTheme::Mono && color != Color::Reset {
        return Err(ThemeError::MonoColor { role: role.to_owned() });
    }
    if base == BuiltinTheme::Ansi16 {
        if let Color::Rgb(_, _, _) = color {
            return Err(ThemeError::AnsiRgb { value: value.to_owned(), role: role.to_owned() });
        }
    }
    Ok(color)
}

/// Gives the role of a name another color; no other role changes.
pub fn set_color(colors: &mut ThemeColors, role: &str, color: Color) -> (result: Result<
    (),
    ThemeError,
>)
    ensures
        match role_named(role@) {
            Some(named) => result == Ok::<(), ThemeError>(()) && *final(colors)
                == old(colors).with(named, color),
            None => fault_view(result) == Err::<(), ThemeFault>(ThemeFault::UnknownRole(role@))
                && *final(colors) == *old(colors),
        },
{
    match role_of(role) {
        Some(named) => {
            colors.set(named, color);
            Ok(())
        },
        None => Err(ThemeError::UnknownRole { role: role.to_owned() }),
    }
}

/// A theme: a name, the built-in theme that it is made from, and its colors.
#[derive(Debug, PartialEq, Eq)]
pub struct Theme {
    pub name: String,
    pub base: BuiltinTheme,
    pub colors: ThemeColors,
}

/// A theme as a mathematical value.
pub ghost struct ThemeView {
    pub name: Seq<char>,
    pub base: BuiltinTheme,
    pub colors: ThemeColors,
}

impl View for Theme {
    type V = ThemeView;

    open spec fn view(&self) -> ThemeView {
        ThemeView { name: self.name@, base: self.base, colors: self.colors }
    }
}

impl Clone for Theme {
    fn clone(&self) -> (copy: Self)
        ensures
            copy == *self,
    {
        Theme { name: self.name.clone(), base: self.base, colors: self.colors }
    }
}

/// A built-in theme.
pub open spec fn builtin_theme(base: BuiltinTheme) -> ThemeView {
    ThemeView { name: theme_label(base), base, colors: colors_of(base) }
}

/// No style at all.
pub open spec fn plain_style() -> Style {
    Style { fg: None, bg: None, bold: false, reversed: false }
}

impl Theme {
    /// A built-in theme.
    pub fn builtin(base: BuiltinTheme) -> (theme: Self)
        ensures
            theme@ == builtin_theme(base),
    {
        Theme { name: base.label().to_owned(), base, colors: builtin_colors(base) }
    }

    /// How the selected row is drawn: bold, on the selection's background, or with the
    /// colors swapped where there are none.
    pub fn selection_style(&self) -> (style: Style)
        ensures
            style.fg is None,
            style == (Style {
                bold: true,
                reversed: self.base == BuiltinTheme::Mono,
                bg: match self.base {
                    BuiltinTheme::Dark | BuiltinTheme::SignalDeck => Some(self.colors.selection_bg),
                    BuiltinTheme::Ansi16 => if self.colors.selection_bg == Color::Reset {
                        None
                    } else {
                        Some(self.colors.selection_bg)
                    },
                    BuiltinTheme::Mono => None,
                },
                ..plain_style()
            }),
    {
        let bg = match self.base {
            BuiltinTheme::Dark | BuiltinTheme::SignalDeck => Some(self.colors.selection_bg),
            BuiltinTheme::Ansi16 => {
                if self.colors.selection_bg == Color::Reset {
                    None
                } else {
                    Some(self.colors.selection_bg)
                }
            },
            BuiltinTheme::Mono => None,
        };
        Style { fg: None, bg, bold: true, reversed: self.base == BuiltinTheme::Mono }
    }

    /// How the active tab is drawn: bold, on its background, or with the colors swapped
    /// where it has none.
    pub fn active_tab_style(&self) -> (style: Style)
        ensures
            style.bold,
            style.fg == Some(self.colors.active_tab_fg),
            match self.base {
                BuiltinTheme::Dark | BuiltinTheme::SignalDeck => style.bg == Some(
                    self.colors.active_tab_bg,
                ) && !style.reversed,
                BuiltinTheme::Ansi16 => if self.colors.active_tab_bg == Color::Reset {
                    style.bg is None && style.reversed
                } else {
                    style.bg == Some(self.colors.active_tab_bg) && !style.reversed
                },
                BuiltinTheme::Mono => style.bg is None && style.reversed,
            },
    {
        let bg = match self.base {
            BuiltinTheme::Dark | BuiltinTheme::SignalDeck => Some(self.colors.active_tab_bg),
            BuiltinTheme::Ansi16 => {
                if self.colors.active_tab_bg == Color::Reset {
                    None
                } else {
                    Some(self.colors.active_tab_bg)
                }
            },
            BuiltinTheme::Mono => None,
        };
        Style { fg: Some(self.colors.active_tab_fg), bg, bold: true, reversed: bg.is_none() }
    }
}

/// The roles and values of a theme file, as mathematical values.
pub open spec fn settings_view(settings: Seq<(String, Option<String>)>) -> Seq<
    (Seq<char>, Option<Seq<char>>),
> {
    settings.map_values(
        |setting: (String, Option<String>)| (setting.0@, text_view(setting.1)),
    )
}

/// The colors of a theme file: those of the base, in which each setting, first to last,
/// has changed its role; or the first fault.
pub open spec fn colors_set(
    base: BuiltinTheme,
    settings: Seq<(Seq<char>, Option<Seq<char>>)>,
) -> Result<ThemeColors, ThemeFault>
    decreases settings.len(),
{
    if settings.len() == 0 {
        Ok(colors_of(base))
    } else {
        let (role, value) = settings.last();
        match (colors_set(base, settings.drop_last()), color_of(value, base, role)) {
            (Err(fault), _) => Err(fault),
            (Ok(_), Err(fault)) => Err(fault),
            (Ok(colors), Ok(color)) => match role_named(role) {
                Some(named) => Ok(colors.with(named, color)),
                None => Err(ThemeFault::UnknownRole(role)),
            },
        }
    }
}

/// The name of a theme from a file: the one in the file, or that of the file.
pub open spec fn theme_name(name: Option<Seq<char>>, file_stem: Seq<char>) -> Seq<char> {
    if name is Some && name->0.len() > 0 {
        name->0
    } else {
        file_stem
    }
}

/// The theme that a file describes: a base with some roles in other colors.
pub fn theme_from_file(
    name: Option<String>,
    base: &str,
    file_stem: &str,
    settings: &Vec<(String, Option<String>)>,
) -> (theme: Result<Theme, ThemeError>)
    ensures
        match theme_named(base@) {
            None => fault_view(theme) == Err::<Theme, ThemeFault>(ThemeFault::InvalidBase(base@)),
            Some(builtin) => match (theme, colors_set(builtin, settings_view(settings@))) {
                (Ok(theme), Ok(colors)) => {
                    &&& theme.name@ == theme_name(text_view(name), file_stem@)
                    &&& theme.base == builtin
                    &&& theme.colors == colors
                },
                (Err(error), Err(fault)) => error@ == fault,
                _ => false,
            },
        },
{
    let builtin = match BuiltinTheme::parse(base) {
        Some(builtin) => builtin,
        None => {
            return Err(ThemeError::InvalidBase { base: base.to_owned() });
        },
    };
    let ghost views = settings_view(settings@);
    let mut colors = builtin_colors(builtin);
    let mut i: usize = 0;
    assert(views.take(0).len() == 0);
    while i < settings.len()
        invariant
            i <= settings@.len(),
            views == settings_view(settings@),
            theme_named(base@) == Some(builtin),
            colors_set(builtin, views.take(i as int)) == Ok::<ThemeColors, ThemeFault>(colors),
        decreases settings@.len() - i,
    {
        let ghost next = views.take(i + 1);
        assert(next.drop_last() =~= views.take(i as int));
        assert(next.last() == (settings@[i as int].0@, text_view(settings@[i as int].1)));
        let role = settings[i].0.as_str();
        let value = match &settings[i].1 {
            Some(value) => Some(value.as_str()),
            None => None,
        };
        match parse_color(value, builtin, role) {
            Ok(color) => {
                match set_color(&mut colors, role, color) {
                    Ok(()) => {},
                    Err(error) => {
                        proof {
                            lemma_fault_stays(builtin, views, i + 1, error@);
                        }
                        return Err(error);
                    },
                }
            },
            Err(error) => {
                proof {
                    lemma_fault_stays(builtin, views, i + 1, error@);
                }
                return Err(error);
            },
        }
        i += 1;
    }
    assert(views.take(i as int) =~= views);
    let name = match name {
        Some(name) => {
            if chars_of(name.as_str()).len() > 0 {
                name
            } else {
                file_stem.to_owned()
            }
        },
        None => file_stem.to_owned(),
    };
    Ok(Theme { name, base: builtin, colors })
}

/// The first fault of a theme file is its result.
proof fn lemma_fault_stays(
    base: BuiltinTheme,
    settings: Seq<(Seq<char>, Option<Seq<char>>)>,
    read: int,
    fault: ThemeFault,
)
    requires
        0 < read <= settings.len(),
        colors_set(base, settings.take(read)) == Err::<ThemeColors, ThemeFault>(fault),
    ensures
        colors_set(base, settings) == Err::<ThemeColors, ThemeFault>(fault),
    decreases settings.len() - read,
{
    if read == settings.len() {
        assert(settings.take(read) =~= settings);
    } else {
        let longer = settings.take(read + 1);
        assert(longer.drop_last() =~= settings.take(read));
        lemma_fault_stays(base, settings, read + 1, fault);
    }
}

/// What the command line says of the theme.
#[derive(Debug, PartialEq, Eq)]
pub enum ThemeArgument {
    /// A theme that needs no file.
    Selection(ThemeSelection),
    /// The path of a theme file.
    Path(String),
}

/// The theme that a command-line value asks for without a file.
pub open spec fn selection_named(value: Seq<char>) -> Option<ThemeSelection> {
    if value == "auto"@ {
        Some(ThemeSelection::Auto)
    } else {
        match theme_named(value) {
            Some(theme) => Some(ThemeSelection::Builtin(theme)),
            None => None,
        }
    }
}

/// What a command-line value says of the theme: a known name, else a path.
pub fn parse_cli_theme(value: &str) -> (argument: ThemeArgument)
    ensures
        match selection_named(value@) {
            Some(selection) => argument == ThemeArgument::Selection(selection),
            None => argument matches ThemeArgument::Path(path) && path@ == value@,
        },
{
    if same_text(value, "auto") {
        return ThemeArgument::Selection(ThemeSelection::Auto);
    }
    match BuiltinTheme::parse(value) {
        Some(theme) => ThemeArgument::Selection(ThemeSelection::Builtin(theme)),
        None => ThemeArgument::Path(value.to_owned()),
    }
}

/// The theme in use, and what it can be changed to.
#[derive(Debug)]
pub struct ThemeState {
    pub selection: ThemeSelection,
    pub detected: BuiltinTheme,
    pub resolved: Theme,
    pub loaded_file: Option<Theme>,
}

/// The theme that a selection means.
pub open spec fn resolved_theme(
    detected: BuiltinTheme,
    loaded_file: Option<Theme>,
    selection: ThemeSelection,
) -> ThemeView {
    match selection {
        ThemeSelection::Auto => builtin_theme(detected),
        ThemeSelection::Builtin(base) => builtin_theme(base),
        ThemeSelection::File => loaded_file->0@,
    }
}

impl ThemeState {
    /// The theme in use is the one that the selection means.
    pub open spec fn wf(self) -> bool {
        &&& self.selection is File ==> self.loaded_file is Some
        &&& self.resolved@ == resolved_theme(self.detected, self.loaded_file, self.selection)
    }

    /// The theme that fits the terminal.
    pub fn auto(tier: ColorTier) -> (state: Self)
        ensures
            state.wf(),
            state.selection == ThemeSelection::Auto,
            state.detected == fitting_theme(tier),
            state.loaded_file is None,
    {
        let detected = detected_theme(tier);
        ThemeState {
            selection: ThemeSelection::Auto,
            detected,
            resolved: Theme::builtin(detected),
            loaded_file: None,
        }
    }

    /// A selected theme; the file's only if one was loaded.
    pub fn with_selection(
        tier: ColorTier,
        selection: ThemeSelection,
        loaded_file: Option<Theme>,
    ) -> (state: Self)
        requires
            selection is File ==> loaded_file is Some,
        ensures
            state.wf(),
            state.selection == selection,
            state.detected == fitting_theme(tier),
            state.loaded_file == loaded_file,
    {
        ThemeState::with_detected(detected_theme(tier), selection, loaded_file)
    }

    /// A selected theme; the file's only if one was loaded.
    pub fn with_detected(
        detected: BuiltinTheme,
        selection: ThemeSelection,
        loaded_file: Option<Theme>,
    ) -> (state: Self)
        requires
            selection is File ==> loaded_file is Some,
        ensures
            state.wf(),
            state.selection == selection,
            state.detected == detected,
            state.loaded_file == loaded_file,
    {
        let mut state = ThemeState {
            selection: ThemeSelection::Auto,
            detected,
            resolved: Theme::builtin(detected),
            loaded_file,
        };
        state.select(selection);
        state
    }

    /// Changes the theme; to the file's only if one was loaded.
    pub fn select(&mut self, selection: ThemeSelection)
        requires
            selection is File ==> old(self).loaded_file is Some,
        ensures
            final(self).wf(),
            final(self).selection == selection,
            final(self).detected == old(self).detected,
            final(self).loaded_file == old(self).loaded_file,
    {
        self.selection = selection;
        match selection {
            ThemeSelection::Auto => {
                self.resolved = Theme::builtin(self.detected);
            },
            ThemeSelection::Builtin(base) => {
                self.resolved = Theme::builtin(base);
            },
            ThemeSelection::File => {
                if let Some(theme) = &self.loaded_file {
                    self.resolved = theme.clone();
                }
            },
        }
    }

    /// The selections there are: automatic, the built-in themes, and the file's if one
    /// was loaded.
    pub fn choices(&self) -> (choices: Vec<ThemeSelection>)
        ensures
            choices@ == seq![
                ThemeSelection::Auto,
                ThemeSelection::Builtin(BuiltinTheme::Dark),
                ThemeSelection::Builtin(BuiltinTheme::SignalDeck),
                ThemeSelection::Builtin(BuiltinTheme::Ansi16),
                ThemeSelection::Builtin(BuiltinTheme::Mono),
            ] + (if self.loaded_file is Some {
                seq![ThemeSelection::File]
            } else {
                Seq::empty()
            }),
    {
        let mut choices: Vec<ThemeSelection> = Vec::new();
        choices.push(ThemeSelection::Auto);
        choices.push(ThemeSelection::Builtin(BuiltinTheme::Dark));
        choices.push(ThemeSelection::Builtin(BuiltinTheme::SignalDeck));
        choices.push(ThemeSelection::Builtin(BuiltinTheme::Ansi16));
        choices.push(ThemeSelection::Builtin(BuiltinTheme::Mono));
        if self.loaded_file.is_some() {
            choices.push(ThemeSelection::File);
        }
        assert(choices@ =~= seq![
            ThemeSelection::Auto,
            ThemeSelection::Builtin(BuiltinTheme::Dark),
            ThemeSelection::Builtin(BuiltinTheme::SignalDeck),
            ThemeSelection::Builtin(BuiltinTheme::Ansi16),
            ThemeSelection::Builtin(BuiltinTheme::Mono),
        ] + (if self.loaded_file is Some {
            seq![ThemeSelection::File]
        } else {
            Seq::empty()
        }));
        choices
    }

    /// What the selection is called.
    pub open spec fn label(self) -> Seq<char> {
        match self.selection {
            ThemeSelection::Auto => "Auto ("@ + theme_label(self.detected) + seq![')'],
            ThemeSelection::Builtin(base) => theme_label(base),
            ThemeSelection::File => match self.loaded_file {
                Some(theme) => theme.name@,
                None => Seq::empty(),
            },
        }
    }

    /// What the selection is called.
    pub fn selection_label(&self) -> (label: String)
        ensures
            label@ == self.label(),
    {
        match self.selection {
            ThemeSelection::Auto => {
                let mut label = "Auto (".to_owned();
                label.append(self.detected.label());
                label.push(')');
                assert(label@ =~= "Auto ("@ + theme_label(self.detected) + seq![')']);
                label
            },
            ThemeSelection::Builtin(base) => base.label().to_owned(),
            ThemeSelection::File => match &self.loaded_file {
                Some(theme) => theme.name.clone(),
                None => String::new(),
            },
        }
    }
}

/// Selecting a theme and then the automatic one again restores what the terminal fits.
pub proof fn lemma_auto_restores_the_detected_theme(
    before: ThemeState,
    between: ThemeState,
    after: ThemeState,
)
    requires
        before.wf(),
        before.selection == ThemeSelection::Auto,
        between.detected == before.detected,
        after.wf(),
        after.selection == ThemeSelection::Auto,
        after.detected == between.detected,
    ensures
        after.resolved@ == before.resolved@,
{
}

} // verus!
