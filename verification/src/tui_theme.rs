//! The colours of the terminal interface.

use crate::config::GuiTheme;
use vstd::prelude::*;

verus! {

/// A colour of a terminal.
#[derive(Debug, Clone, Copy, PartialEq, Eq, Structural)]
pub enum TuiColor {
    Black,
    White,
    Gray,
    DarkGray,
    Cyan,
    LightCyan,
    Green,
    Blue,
    Yellow,
    Rgb(u8, u8, u8),
}

/// The colours of the terminal interface.
#[derive(Debug, Clone, Copy, PartialEq, Eq, Structural)]
pub struct TuiThemePalette {
    pub header_fg: TuiColor,
    pub content_fg: TuiColor,
    pub muted_fg: TuiColor,
    pub accent_fg: TuiColor,
    pub selected_fg: TuiColor,
    pub selected_bg: TuiColor,
    pub background: TuiColor,
}

/// The colours of each scheme.
pub open spec fn tui_palette(theme: GuiTheme) -> TuiThemePalette {
    match theme {
        GuiTheme::DefaultDark => TuiThemePalette {
            header_fg: TuiColor::Gray,
            content_fg: TuiColor::White,
            muted_fg: TuiColor::DarkGray,
            accent_fg: TuiColor::Cyan,
            selected_fg: TuiColor::Black,
            selected_bg: TuiColor::Green,
            background: TuiColor::Black,
        },
        GuiTheme::Light => TuiThemePalette {
            header_fg: TuiColor::Black,
            content_fg: TuiColor::Black,
            muted_fg: TuiColor::Gray,
            accent_fg: TuiColor::Blue,
            selected_fg: TuiColor::White,
            selected_bg: TuiColor::Blue,
            background: TuiColor::White,
        },
        GuiTheme::HighContrast => TuiThemePalette {
            header_fg: TuiColor::Yellow,
            content_fg: TuiColor::White,
            muted_fg: TuiColor::Gray,
            accent_fg: TuiColor::LightCyan,
            selected_fg: TuiColor::Black,
            selected_bg: TuiColor::Yellow,
            background: TuiColor::Black,
        },
        GuiTheme::OceanBlue => TuiThemePalette {
            header_fg: TuiColor::Rgb(102, 194, 255),
            content_fg: TuiColor::Rgb(220, 235, 250),
            muted_fg: TuiColor::Rgb(132, 153, 176),
            accent_fg: TuiColor::Rgb(82, 170, 232),
            selected_fg: TuiColor::Rgb(220, 235, 250),
            selected_bg: TuiColor::Rgb(45, 80, 112),
            background: TuiColor::Rgb(18, 26, 36),
        },
        GuiTheme::ShadesOfPurple => TuiThemePalette {
            header_fg: TuiColor::Rgb(203, 166, 255),
            content_fg: TuiColor::Rgb(236, 225, 255),
            muted_fg: TuiColor::Rgb(160, 135, 194),
            accent_fg: TuiColor::Rgb(173, 130, 255),
            selected_fg: TuiColor::Rgb(242, 230, 255),
            selected_bg: TuiColor::Rgb(96, 63, 145),
            background: TuiColor::Rgb(31, 20, 51),
        },
        GuiTheme::Novare => TuiThemePalette {
            header_fg: TuiColor::Rgb(109, 219, 212),
            content_fg: TuiColor::Rgb(226, 232, 247),
            muted_fg: TuiColor::Rgb(140, 160, 186),
            accent_fg: TuiColor::Rgb(116, 99, 184),
            selected_fg: TuiColor::Rgb(236, 241, 255),
            selected_bg: TuiColor::Rgb(83, 128, 166),
            background: TuiColor::Rgb(14, 24, 38),
        },
        GuiTheme::NovareLight => TuiThemePalette {
            header_fg: TuiColor::Rgb(32, 73, 84),
            content_fg: TuiColor::Rgb(32, 73, 84),
            muted_fg: TuiColor::Rgb(82, 131, 140),
            accent_fg: TuiColor::Rgb(41, 169, 143),
            selected_fg: TuiColor::Rgb(17, 50, 57),
            selected_bg: TuiColor::Rgb(120, 206, 186),
            background: TuiColor::Rgb(250, 255, 253),
        },
        GuiTheme::Dracula => TuiThemePalette {
            header_fg: TuiColor::Rgb(139, 233, 253),
            content_fg: TuiColor::Rgb(248, 248, 242),
            muted_fg: TuiColor::Rgb(138, 146, 168),
            accent_fg: TuiColor::Rgb(255, 121, 198),
            selected_fg: TuiColor::Rgb(248, 248, 242),
            selected_bg: TuiColor::Rgb(98, 114, 164),
            background: TuiColor::Rgb(40, 42, 54),
        },
        GuiTheme::Nord => TuiThemePalette {
            header_fg: TuiColor::Rgb(136, 192, 208),
            content_fg: TuiColor::Rgb(216, 222, 233),
            muted_fg: TuiColor::Rgb(143, 156, 182),
            accent_fg: TuiColor::Rgb(129, 161, 193),
            selected_fg: TuiColor::Rgb(236, 239, 244),
            selected_bg: TuiColor::Rgb(94, 129, 172),
            background: TuiColor::Rgb(46, 52, 64),
        },
        GuiTheme::SolarizedDark => TuiThemePalette {
            header_fg: TuiColor::Rgb(38, 139, 210),
            content_fg: TuiColor::Rgb(131, 148, 150),
            muted_fg: TuiColor::Rgb(88, 110, 117),
            accent_fg: TuiColor::Rgb(42, 161, 152),
            selected_fg: TuiColor::Rgb(238, 232, 213),
            selected_bg: TuiColor::Rgb(7, 54, 66),
            background: TuiColor::Rgb(0, 43, 54),
        },
        GuiTheme::SolarizedLight => TuiThemePalette {
            header_fg: TuiColor::Rgb(38, 139, 210),
            content_fg: TuiColor::Rgb(88, 110, 117),
            muted_fg: TuiColor::Rgb(147, 161, 161),
            accent_fg: TuiColor::Rgb(181, 137, 0),
            selected_fg: TuiColor::Rgb(88, 110, 117),
            selected_bg: TuiColor::Rgb(238, 232, 213),
            background: TuiColor::Rgb(253, 246, 227),
        },
        GuiTheme::OneDark => TuiThemePalette {
            header_fg: TuiColor::Rgb(97, 175, 239),
            content_fg: TuiColor::Rgb(171, 178, 191),
            muted_fg: TuiColor::Rgb(128, 136, 150),
            accent_fg: TuiColor::Rgb(198, 120, 221),
            selected_fg: TuiColor::Rgb(220, 223, 228),
            selected_bg: TuiColor::Rgb(62, 68, 82),
            background: TuiColor::Rgb(40, 44, 52),
        },
    }
}

/// The colours of a scheme.
pub fn tui_theme_palette(theme: GuiTheme) -> (res: TuiThemePalette)
    ensures
        res == tui_palette(theme),
{
    match theme {
        GuiTheme::DefaultDark => TuiThemePalette {
            header_fg: TuiColor::Gray,
            content_fg: TuiColor::White,
            muted_fg: TuiColor::DarkGray,
            accent_fg: TuiColor::Cyan,
            selected_fg: TuiColor::Black,
            selected_bg: TuiColor::Green,
            background: TuiColor::Black,
        },
        GuiTheme::Light => TuiThemePalette {
            header_fg: TuiColor::Black,
            content_fg: TuiColor::Black,
            muted_fg: TuiColor::Gray,
            accent_fg: TuiColor::Blue,
            selected_fg: TuiColor::White,
            selected_bg: TuiColor::Blue,
            background: TuiColor::White,
        },
        GuiTheme::HighContrast => TuiThemePalette {
            header_fg: TuiColor::Yellow,
            content_fg: TuiColor::White,
            muted_fg: TuiColor::Gray,
            accent_fg: TuiColor::LightCyan,
            selected_fg: TuiColor::Black,
            selected_bg: TuiColor::Yellow,
            background: TuiColor::Black,
        },
        GuiTheme::OceanBlue => TuiThemePalette {
            header_fg: TuiColor::Rgb(102, 194, 255),
            content_fg: TuiColor::Rgb(220, 235, 250),
            muted_fg: TuiColor::Rgb(132, 153, 176),
            accent_fg: TuiColor::Rgb(82, 170, 232),
            selected_fg: TuiColor::Rgb(220, 235, 250),
            selected_bg: TuiColor::Rgb(45, 80, 112),
            background: TuiColor::Rgb(18, 26, 36),
        },
        GuiTheme::ShadesOfPurple => TuiThemePalette {
            header_fg: TuiColor::Rgb(203, 166, 255),
            content_fg: TuiColor::Rgb(236, 225, 255),
            muted_fg: TuiColor::Rgb(160, 135, 194),
            accent_fg: TuiColor::Rgb(173, 130, 255),
            selected_fg: TuiColor::Rgb(242, 230, 255),
            selected_bg: TuiColor::Rgb(96, 63, 145),
            background: TuiColor::Rgb(31, 20, 51),
        },
        GuiTheme::Novare => TuiThemePalette {
            header_fg: TuiColor::Rgb(109, 219, 212),
            content_fg: TuiColor::Rgb(226, 232, 247),
            muted_fg: TuiColor::Rgb(140, 160, 186),
            accent_fg: TuiColor::Rgb(116, 99, 184),
            selected_fg: TuiColor::Rgb(236, 241, 255),
            selected_bg: TuiColor::Rgb(83, 128, 166),
            background: TuiColor::Rgb(14, 24, 38),
        },
        GuiTheme::NovareLight => TuiThemePalette {
            header_fg: TuiColor::Rgb(32, 73, 84),
            content_fg: TuiColor::Rgb(32, 73, 84),
            muted_fg: TuiColor::Rgb(82, 131, 140),
            accent_fg: TuiColor::Rgb(41, 169, 143),
            selected_fg: TuiColor::Rgb(17, 50, 57),
            selected_bg: TuiColor::Rgb(120, 206, 186),
            background: TuiColor::Rgb(250, 255, 253),
        },
        GuiTheme::Dracula => TuiThemePalette {
            header_fg: TuiColor::Rgb(139, 233, 253),
            content_fg: TuiColor::Rgb(248, 248, 242),
            muted_fg: TuiColor::Rgb(138, 146, 168),
            accent_fg: TuiColor::Rgb(255, 121, 198),
            selected_fg: TuiColor::Rgb(248, 248, 242),
            selected_bg: TuiColor::Rgb(98, 114, 164),
            background: TuiColor::Rgb(40, 42, 54),
        },
        GuiTheme::Nord => TuiThemePalette {
            header_fg: TuiColor::Rgb(136, 192, 208),
            content_fg: TuiColor::Rgb(216, 222, 233),
            muted_fg: TuiColor::Rgb(143, 156, 182),
            accent_fg: TuiColor::Rgb(129, 161, 193),
            selected_fg: TuiColor::Rgb(236, 239, 244),
            selected_bg: TuiColor::Rgb(94, 129, 172),
            background: TuiColor::Rgb(46, 52, 64),
        },
        GuiTheme::SolarizedDark => TuiThemePalette {
            header_fg: TuiColor::Rgb(38, 139, 210),
            content_fg: TuiColor::Rgb(131, 148, 150),
            muted_fg: TuiColor::Rgb(88, 110, 117),
            accent_fg: TuiColor::Rgb(42, 161, 152),
            selected_fg: TuiColor::Rgb(238, 232, 213),
            selected_bg: TuiColor::Rgb(7, 54, 66),
            background: TuiColor::Rgb(0, 43, 54),
        },
        GuiTheme::SolarizedLight => TuiThemePalette {
            header_fg: TuiColor::Rgb(38, 139, 210),
            content_fg: TuiColor::Rgb(88, 110, 117),
            muted_fg: TuiColor::Rgb(147, 161, 161),
            accent_fg: TuiColor::Rgb(181, 137, 0),
            selected_fg: TuiColor::Rgb(88, 110, 117),
            selected_bg: TuiColor::Rgb(238, 232, 213),
            background: TuiColor::Rgb(253, 246, 227),
        },
        GuiTheme::OneDark => TuiThemePalette {
            header_fg: TuiColor::Rgb(97, 175, 239),
            content_fg: TuiColor::Rgb(171, 178, 191),
            muted_fg: TuiColor::Rgb(128, 136, 150),
            accent_fg: TuiColor::Rgb(198, 120, 221),
            selected_fg: TuiColor::Rgb(220, 223, 228),
            selected_bg: TuiColor::Rgb(62, 68, 82),
            background: TuiColor::Rgb(40, 44, 52),
        },
    }
}

/// What is written can be told from what it is written on, in every scheme.
pub proof fn text_differs_from_background(theme: GuiTheme)
    ensures
        tui_palette(theme).header_fg != tui_palette(theme).background,
        tui_palette(theme).content_fg != tui_palette(theme).background,
        tui_palette(theme).muted_fg != tui_palette(theme).background,
        tui_palette(theme).accent_fg != tui_palette(theme).background,
        tui_palette(theme).selected_fg != tui_palette(theme).selected_bg,
{
}

/// Schemes that differ look different.
pub proof fn schemes_look_different(a: GuiTheme, b: GuiTheme)
    requires
        a != b,
    ensures
        tui_palette(a) != tui_palette(b),
{
}

} // verus!
