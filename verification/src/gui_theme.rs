//! The colours of the graphical interface.

use crate::config::GuiTheme;
use vstd::prelude::*;

verus! {

/// A colour, by its parts of red, green and blue.
#[derive(Debug, Clone, Copy, PartialEq, Eq, Structural)]
pub struct Rgb {
    pub r: u8,
    pub g: u8,
    pub b: u8,
}

/// The colours that a scheme sets.
#[derive(Debug, Clone, Copy, PartialEq, Eq, Structural)]
pub struct VisualPalette {
    pub text: Rgb,
    pub hyperlink: Rgb,
    pub selection_bg: Rgb,
    pub selection_stroke: Rgb,
    pub panel: Rgb,
    pub window: Rgb,
    pub faint_bg: Rgb,
    pub extreme_bg: Rgb,
    pub code_bg: Rgb,
    pub inactive_bg: Rgb,
    pub hovered_bg: Rgb,
    pub active_bg: Rgb,
    pub open_bg: Rgb,
    pub active_fg: Option<Rgb>,
    pub open_fg: Option<Rgb>,
}

/// A scheme: the toolkit's dark or light colours, and those that are set on top of them.
#[derive(Debug, Clone, Copy, PartialEq, Eq, Structural)]
pub struct ThemeVisuals {
    pub dark: bool,
    pub palette: Option<VisualPalette>,
}

/// The colours of each scheme.
pub open spec fn visuals_of(theme: GuiTheme) -> ThemeVisuals {
    match theme {
        GuiTheme::DefaultDark => ThemeVisuals { dark: true, palette: None },
        GuiTheme::Light => ThemeVisuals { dark: false, palette: None },
        GuiTheme::HighContrast => ThemeVisuals {
            dark: true,
            palette: Some(
                VisualPalette {
                    text: Rgb { r: 255, g: 255, b: 255 },
                    hyperlink: Rgb { r: 120, g: 210, b: 255 },
                    selection_bg: Rgb { r: 255, g: 214, b: 0 },
                    selection_stroke: Rgb { r: 0, g: 0, b: 0 },
                    panel: Rgb { r: 0, g: 0, b: 0 },
                    window: Rgb { r: 8, g: 8, b: 8 },
                    faint_bg: Rgb { r: 18, g: 18, b: 18 },
                    extreme_bg: Rgb { r: 0, g: 0, b: 0 },
                    code_bg: Rgb { r: 14, g: 14, b: 14 },
                    inactive_bg: Rgb { r: 24, g: 24, b: 24 },
                    hovered_bg: Rgb { r: 46, g: 46, b: 46 },
                    active_bg: Rgb { r: 255, g: 214, b: 0 },
                    open_bg: Rgb { r: 255, g: 214, b: 0 },
                    active_fg: Some(Rgb { r: 0, g: 0, b: 0 }),
                    open_fg: Some(Rgb { r: 0, g: 0, b: 0 }),
                },
            ),
        },
        GuiTheme::OceanBlue => ThemeVisuals {
            dark: true,
            palette: Some(
                VisualPalette {
                    text: Rgb { r: 220, g: 235, b: 250 },
                    hyperlink: Rgb { r: 102, g: 194, b: 255 },
                    selection_bg: Rgb { r: 46, g: 95, b: 138 },
                    selection_stroke: Rgb { r: 225, g: 243, b: 255 },
                    panel: Rgb { r: 18, g: 26, b: 36 },
                    window: Rgb { r: 20, g: 31, b: 43 },
                    faint_bg: Rgb { r: 23, g: 36, b: 50 },
                    extreme_bg: Rgb { r: 13, g: 20, b: 30 },
                    code_bg: Rgb { r: 17, g: 29, b: 43 },
                    inactive_bg: Rgb { r: 29, g: 52, b: 74 },
                    hovered_bg: Rgb { r: 36, g: 66, b: 92 },
                    active_bg: Rgb { r: 45, g: 80, b: 112 },
                    open_bg: Rgb { r: 45, g: 80, b: 112 },
                    active_fg: None,
                    open_fg: None,
                },
            ),
        },
        GuiTheme::ShadesOfPurple => ThemeVisuals {
            dark: true,
            palette: Some(
                VisualPalette {
                    text: Rgb { r: 236, g: 225, b: 255 },
                    hyperlink: Rgb { r: 203, g: 166, b: 255 },
                    selection_bg: Rgb { r: 96, g: 63, b: 145 },
                    selection_stroke: Rgb { r: 242, g: 230, b: 255 },
                    panel: Rgb { r: 31, g: 20, b: 51 },
                    window: Rgb { r: 38, g: 24, b: 63 },
                    faint_bg: Rgb { r: 45, g: 30, b: 72 },
                    extreme_bg: Rgb { r: 24, g: 16, b: 40 },
                    code_bg: Rgb { r: 42, g: 27, b: 69 },
                    inactive_bg: Rgb { r: 68, g: 45, b: 106 },
                    hovered_bg: Rgb { r: 87, g: 58, b: 133 },
                    active_bg: Rgb { r: 102, g: 68, b: 154 },
                    open_bg: Rgb { r: 102, g: 68, b: 154 },
                    active_fg: None,
                    open_fg: None,
                },
            ),
        },
        GuiTheme::Novare => ThemeVisuals {
            dark: true,
            palette: Some(
                VisualPalette {
                    text: Rgb { r: 226, g: 232, b: 247 },
                    hyperlink: Rgb { r: 109, g: 219, b: 212 },
                    selection_bg: Rgb { r: 116, g: 99, b: 184 },
                    selection_stroke: Rgb { r: 236, g: 241, b: 255 },
                    panel: Rgb { r: 14, g: 24, b: 38 },
                    window: Rgb { r: 18, g: 31, b: 49 },
                    faint_bg: Rgb { r: 25, g: 40, b: 61 },
                    extreme_bg: Rgb { r: 10, g: 17, b: 29 },
                    code_bg: Rgb { r: 16, g: 28, b: 45 },
                    inactive_bg: Rgb { r: 44, g: 63, b: 90 },
                    hovered_bg: Rgb { r: 57, g: 81, b: 113 },
                    active_bg: Rgb { r: 83, g: 128, b: 166 },
                    open_bg: Rgb { r: 83, g: 128, b: 166 },
                    active_fg: None,
                    open_fg: None,
                },
            ),
        },
        GuiTheme::NovareLight => ThemeVisuals {
            dark: false,
            palette: Some(
                VisualPalette {
                    text: Rgb { r: 32, g: 73, b: 84 },
                    hyperlink: Rgb { r: 41, g: 169, b: 143 },
                    selection_bg: Rgb { r: 120, g: 206, b: 186 },
                    selection_stroke: Rgb { r: 17, g: 50, b: 57 },
                    panel: Rgb { r: 244, g: 253, b: 250 },
                    window: Rgb { r: 250, g: 255, b: 253 },
                    faint_bg: Rgb { r: 231, g: 247, b: 241 },
                    extreme_bg: Rgb { r: 221, g: 240, b: 233 },
                    code_bg: Rgb { r: 233, g: 247, b: 241 },
                    inactive_bg: Rgb { r: 214, g: 237, b: 230 },
                    hovered_bg: Rgb { r: 196, g: 229, b: 219 },
                    active_bg: Rgb { r: 84, g: 199, b: 171 },
                    open_bg: Rgb { r: 84, g: 199, b: 171 },
                    active_fg: None,
                    open_fg: None,
                },
            ),
        },
        GuiTheme::Dracula => ThemeVisuals {
            dark: true,
            palette: Some(
                VisualPalette {
                    text: Rgb { r: 248, g: 248, b: 242 },
                    hyperlink: Rgb { r: 139, g: 233, b: 253 },
                    selection_bg: Rgb { r: 98, g: 114, b: 164 },
                    selection_stroke: Rgb { r: 248, g: 248, b: 242 },
                    panel: Rgb { r: 40, g: 42, b: 54 },
                    window: Rgb { r: 43, g: 46, b: 64 },
                    faint_bg: Rgb { r: 52, g: 55, b: 76 },
                    extreme_bg: Rgb { r: 31, g: 33, b: 43 },
                    code_bg: Rgb { r: 49, g: 52, b: 70 },
                    inactive_bg: Rgb { r: 68, g: 71, b: 90 },
                    hovered_bg: Rgb { r: 80, g: 84, b: 106 },
                    active_bg: Rgb { r: 98, g: 114, b: 164 },
                    open_bg: Rgb { r: 98, g: 114, b: 164 },
                    active_fg: None,
                    open_fg: None,
                },
            ),
        },
        GuiTheme::Nord => ThemeVisuals {
            dark: true,
            palette: Some(
                VisualPalette {
                    text: Rgb { r: 216, g: 222, b: 233 },
                    hyperlink: Rgb { r: 136, g: 192, b: 208 },
                    selection_bg: Rgb { r: 94, g: 129, b: 172 },
                    selection_stroke: Rgb { r: 236, g: 239, b: 244 },
                    panel: Rgb { r: 46, g: 52, b: 64 },
                    window: Rgb { r: 52, g: 60, b: 74 },
                    faint_bg: Rgb { r: 59, g: 66, b: 82 },
                    extreme_bg: Rgb { r: 42, g: 48, b: 60 },
                    code_bg: Rgb { r: 52, g: 58, b: 72 },
                    inactive_bg: Rgb { r: 67, g: 76, b: 94 },
                    hovered_bg: Rgb { r: 79, g: 90, b: 110 },
                    active_bg: Rgb { r: 94, g: 129, b: 172 },
                    open_bg: Rgb { r: 94, g: 129, b: 172 },
                    active_fg: None,
                    open_fg: None,
                },
            ),
        },
        GuiTheme::SolarizedDark => ThemeVisuals {
            dark: true,
            palette: Some(
                VisualPalette {
                    text: Rgb { r: 131, g: 148, b: 150 },
                    hyperlink: Rgb { r: 38, g: 139, b: 210 },
                    selection_bg: Rgb { r: 7, g: 54, b: 66 },
                    selection_stroke: Rgb { r: 238, g: 232, b: 213 },
                    panel: Rgb { r: 0, g: 43, b: 54 },
                    window: Rgb { r: 3, g: 50, b: 62 },
                    faint_bg: Rgb { r: 7, g: 54, b: 66 },
                    extreme_bg: Rgb { r: 0, g: 34, b: 44 },
                    code_bg: Rgb { r: 0, g: 49, b: 61 },
                    inactive_bg: Rgb { r: 20, g: 73, b: 83 },
                    hovered_bg: Rgb { r: 32, g: 87, b: 99 },
                    active_bg: Rgb { r: 38, g: 139, b: 210 },
                    open_bg: Rgb { r: 38, g: 139, b: 210 },
                    active_fg: None,
                    open_fg: None,
                },
            ),
        },
        GuiTheme::SolarizedLight => ThemeVisuals {
            dark: false,
            palette: Some(
                VisualPalette {
                    text: Rgb { r: 88, g: 110, b: 117 },
                    hyperlink: Rgb { r: 38, g: 139, b: 210 },
                    selection_bg: Rgb { r: 238, g: 232, b: 213 },
                    selection_stroke: Rgb { r: 88, g: 110, b: 117 },
                    panel: Rgb { r: 253, g: 246, b: 227 },
                    window: Rgb { r: 250, g: 243, b: 224 },
                    faint_bg: Rgb { r: 247, g: 240, b: 220 },
                    extreme_bg: Rgb { r: 238, g: 232, b: 213 },
                    code_bg: Rgb { r: 238, g: 232, b: 213 },
                    inactive_bg: Rgb { r: 242, g: 236, b: 217 },
                    hovered_bg: Rgb { r: 232, g: 226, b: 207 },
                    active_bg: Rgb { r: 181, g: 137, b: 0 },
                    open_bg: Rgb { r: 181, g: 137, b: 0 },
                    active_fg: None,
                    open_fg: None,
                },
            ),
        },
        GuiTheme::OneDark => ThemeVisuals {
            dark: true,
            palette: Some(
                VisualPalette {
                    text: Rgb { r: 171, g: 178, b: 191 },
                    hyperlink: Rgb { r: 97, g: 175, b: 239 },
                    selection_bg: Rgb { r: 62, g: 68, b: 82 },
                    selection_stroke: Rgb { r: 220, g: 223, b: 228 },
                    panel: Rgb { r: 40, g: 44, b: 52 },
                    window: Rgb { r: 44, g: 49, b: 58 },
                    faint_bg: Rgb { r: 46, g: 52, b: 62 },
                    extreme_bg: Rgb { r: 34, g: 37, b: 44 },
                    code_bg: Rgb { r: 39, g: 43, b: 51 },
                    inactive_bg: Rgb { r: 62, g: 68, b: 82 },
                    hovered_bg: Rgb { r: 73, g: 80, b: 96 },
                    active_bg: Rgb { r: 82, g: 90, b: 108 },
                    open_bg: Rgb { r: 82, g: 90, b: 108 },
                    active_fg: None,
                    open_fg: None,
                },
            ),
        },
    }
}

/// The colours of a scheme.
pub fn visuals_for_theme(theme: GuiTheme) -> (res: ThemeVisuals)
    ensures
        res == visuals_of(theme),
{
    match theme {
        GuiTheme::DefaultDark => ThemeVisuals { dark: true, palette: None },
        GuiTheme::Light => ThemeVisuals { dark: false, palette: None },
        GuiTheme::HighContrast => ThemeVisuals {
            dark: true,
            palette: Some(
                VisualPalette {
                    text: Rgb { r: 255, g: 255, b: 255 },
                    hyperlink: Rgb { r: 120, g: 210, b: 255 },
                    selection_bg: Rgb { r: 255, g: 214, b: 0 },
                    selection_stroke: Rgb { r: 0, g: 0, b: 0 },
                    panel: Rgb { r: 0, g: 0, b: 0 },
                    window: Rgb { r: 8, g: 8, b: 8 },
                    faint_bg: Rgb { r: 18, g: 18, b: 18 },
                    extreme_bg: Rgb { r: 0, g: 0, b: 0 },
                    code_bg: Rgb { r: 14, g: 14, b: 14 },
                    inactive_bg: Rgb { r: 24, g: 24, b: 24 },
                    hovered_bg: Rgb { r: 46, g: 46, b: 46 },
                    active_bg: Rgb { r: 255, g: 214, b: 0 },
                    open_bg: Rgb { r: 255, g: 214, b: 0 },
                    active_fg: Some(Rgb { r: 0, g: 0, b: 0 }),
                    open_fg: Some(Rgb { r: 0, g: 0, b: 0 }),
                },
            ),
        },
        GuiTheme::OceanBlue => ThemeVisuals {
            dark: true,
            palette: Some(
                VisualPalette {
                    text: Rgb { r: 220, g: 235, b: 250 },
                    hyperlink: Rgb { r: 102, g: 194, b: 255 },
                    selection_bg: Rgb { r: 46, g: 95, b: 138 },
                    selection_stroke: Rgb { r: 225, g: 243, b: 255 },
                    panel: Rgb { r: 18, g: 26, b: 36 },
                    window: Rgb { r: 20, g: 31, b: 43 },
                    faint_bg: Rgb { r: 23, g: 36, b: 50 },
                    extreme_bg: Rgb { r: 13, g: 20, b: 30 },
                    code_bg: Rgb { r: 17, g: 29, b: 43 },
                    inactive_bg: Rgb { r: 29, g: 52, b: 74 },
                    hovered_bg: Rgb { r: 36, g: 66, b: 92 },
                    active_bg: Rgb { r: 45, g: 80, b: 112 },
                    open_bg: Rgb { r: 45, g: 80, b: 112 },
                    active_fg: None,
                    open_fg: None,
                },
            ),
        },
        GuiTheme::ShadesOfPurple => ThemeVisuals {
            dark: true,
            palette: Some(
                VisualPalette {
                    text: Rgb { r: 236, g: 225, b: 255 },
                    hyperlink: Rgb { r: 203, g: 166, b: 255 },
                    selection_bg: Rgb { r: 96, g: 63, b: 145 },
                    selection_stroke: Rgb { r: 242, g: 230, b: 255 },
                    panel: Rgb { r: 31, g: 20, b: 51 },
                    window: Rgb { r: 38, g: 24, b: 63 },
                    faint_bg: Rgb { r: 45, g: 30, b: 72 },
                    extreme_bg: Rgb { r: 24, g: 16, b: 40 },
                    code_bg: Rgb { r: 42, g: 27, b: 69 },
                    inactive_bg: Rgb { r: 68, g: 45, b: 106 },
                    hovered_bg: Rgb { r: 87, g: 58, b: 133 },
                    active_bg: Rgb { r: 102, g: 68, b: 154 },
                    open_bg: Rgb { r: 102, g: 68, b: 154 },
                    active_fg: None,
                    open_fg: None,
                },
            ),
        },
        GuiTheme::Novare => ThemeVisuals {
            dark: true,
            palette: Some(
                VisualPalette {
                    text: Rgb { r: 226, g: 232, b: 247 },
                    hyperlink: Rgb { r: 109, g: 219, b: 212 },
                    selection_bg: Rgb { r: 116, g: 99, b: 184 },
                    selection_stroke: Rgb { r: 236, g: 241, b: 255 },
                    panel: Rgb { r: 14, g: 24, b: 38 },
                    window: Rgb { r: 18, g: 31, b: 49 },
                    faint_bg: Rgb { r: 25, g: 40, b: 61 },
                    extreme_bg: Rgb { r: 10, g: 17, b: 29 },
                    code_bg: Rgb { r: 16, g: 28, b: 45 },
                    inactive_bg: Rgb { r: 44, g: 63, b: 90 },
                    hovered_bg: Rgb { r: 57, g: 81, b: 113 },
                    active_bg: Rgb { r: 83, g: 128, b: 166 },
                    open_bg: Rgb { r: 83, g: 128, b: 166 },
                    active_fg: None,
                    open_fg: None,
                },
            ),
        },
        GuiTheme::NovareLight => ThemeVisuals {
            dark: false,
            palette: Some(
                VisualPalette {
                    text: Rgb { r: 32, g: 73, b: 84 },
                    hyperlink: Rgb { r: 41, g: 169, b: 143 },
                    selection_bg: Rgb { r: 120, g: 206, b: 186 },
                    selection_stroke: Rgb { r: 17, g: 50, b: 57 },
                    panel: Rgb { r: 244, g: 253, b: 250 },
                    window: Rgb { r: 250, g: 255, b: 253 },
                    faint_bg: Rgb { r: 231, g: 247, b: 241 },
                    extreme_bg: Rgb { r: 221, g: 240, b: 233 },
                    code_bg: Rgb { r: 233, g: 247, b: 241 },
                    inactive_bg: Rgb { r: 214, g: 237, b: 230 },
                    hovered_bg: Rgb { r: 196, g: 229, b: 219 },
                    active_bg: Rgb { r: 84, g: 199, b: 171 },
                    open_bg: Rgb { r: 84, g: 199, b: 171 },
                    active_fg: None,
                    open_fg: None,
                },
            ),
        },
        GuiTheme::Dracula => ThemeVisuals {
            dark: true,
            palette: Some(
                VisualPalette {
                    text: Rgb { r: 248, g: 248, b: 242 },
                    hyperlink: Rgb { r: 139, g: 233, b: 253 },
                    selection_bg: Rgb { r: 98, g: 114, b: 164 },
                    selection_stroke: Rgb { r: 248, g: 248, b: 242 },
                    panel: Rgb { r: 40, g: 42, b: 54 },
                    window: Rgb { r: 43, g: 46, b: 64 },
                    faint_bg: Rgb { r: 52, g: 55, b: 76 },
                    extreme_bg: Rgb { r: 31, g: 33, b: 43 },
                    code_bg: Rgb { r: 49, g: 52, b: 70 },
                    inactive_bg: Rgb { r: 68, g: 71, b: 90 },
                    hovered_bg: Rgb { r: 80, g: 84, b: 106 },
                    active_bg: Rgb { r: 98, g: 114, b: 164 },
                    open_bg: Rgb { r: 98, g: 114, b: 164 },
                    active_fg: None,
                    open_fg: None,
                },
            ),
        },
        GuiTheme::Nord => ThemeVisuals {
            dark: true,
            palette: Some(
                VisualPalette {
                    text: Rgb { r: 216, g: 222, b: 233 },
                    hyperlink: Rgb { r: 136, g: 192, b: 208 },
                    selection_bg: Rgb { r: 94, g: 129, b: 172 },
                    selection_stroke: Rgb { r: 236, g: 239, b: 244 },
                    panel: Rgb { r: 46, g: 52, b: 64 },
                    window: Rgb { r: 52, g: 60, b: 74 },
                    faint_bg: Rgb { r: 59, g: 66, b: 82 },
                    extreme_bg: Rgb { r: 42, g: 48, b: 60 },
                    code_bg: Rgb { r: 52, g: 58, b: 72 },
                    inactive_bg: Rgb { r: 67, g: 76, b: 94 },
                    hovered_bg: Rgb { r: 79, g: 90, b: 110 },
                    active_bg: Rgb { r: 94, g: 129, b: 172 },
                    open_bg: Rgb { r: 94, g: 129, b: 172 },
                    active_fg: None,
                    open_fg: None,
                },
            ),
        },
        GuiTheme::SolarizedDark => ThemeVisuals {
            dark: true,
            palette: Some(
                VisualPalette {
                    text: Rgb { r: 131, g: 148, b: 150 },
                    hyperlink: Rgb { r: 38, g: 139, b: 210 },
                    selection_bg: Rgb { r: 7, g: 54, b: 66 },
                    selection_stroke: Rgb { r: 238, g: 232, b: 213 },
                    panel: Rgb { r: 0, g: 43, b: 54 },
                    window: Rgb { r: 3, g: 50, b: 62 },
                    faint_bg: Rgb { r: 7, g: 54, b: 66 },
                    extreme_bg: Rgb { r: 0, g: 34, b: 44 },
                    code_bg: Rgb { r: 0, g: 49, b: 61 },
                    inactive_bg: Rgb { r: 20, g: 73, b: 83 },
                    hovered_bg: Rgb { r: 32, g: 87, b: 99 },
                    active_bg: Rgb { r: 38, g: 139, b: 210 },
                    open_bg: Rgb { r: 38, g: 139, b: 210 },
                    active_fg: None,
                    open_fg: None,
                },
            ),
        },
        GuiTheme::SolarizedLight => ThemeVisuals {
            dark: false,
            palette: Some(
                VisualPalette {
                    text: Rgb { r: 88, g: 110, b: 117 },
                    hyperlink: Rgb { r: 38, g: 139, b: 210 },
                    selection_bg: Rgb { r: 238, g: 232, b: 213 },
                    selection_stroke: Rgb { r: 88, g: 110, b: 117 },
                    panel: Rgb { r: 253, g: 246, b: 227 },
                    window: Rgb { r: 250, g: 243, b: 224 },
                    faint_bg: Rgb { r: 247, g: 240, b: 220 },
                    extreme_bg: Rgb { r: 238, g: 232, b: 213 },
                    code_bg: Rgb { r: 238, g: 232, b: 213 },
                    inactive_bg: Rgb { r: 242, g: 236, b: 217 },
                    hovered_bg: Rgb { r: 232, g: 226, b: 207 },
                    active_bg: Rgb { r: 181, g: 137, b: 0 },
                    open_bg: Rgb { r: 181, g: 137, b: 0 },
                    active_fg: None,
                    open_fg: None,
                },
            ),
        },
        GuiTheme::OneDark => ThemeVisuals {
            dark: true,
            palette: Some(
                VisualPalette {
                    text: Rgb { r: 171, g: 178, b: 191 },
                    hyperlink: Rgb { r: 97, g: 175, b: 239 },
                    selection_bg: Rgb { r: 62, g: 68, b: 82 },
                    selection_stroke: Rgb { r: 220, g: 223, b: 228 },
                    panel: Rgb { r: 40, g: 44, b: 52 },
                    window: Rgb { r: 44, g: 49, b: 58 },
                    faint_bg: Rgb { r: 46, g: 52, b: 62 },
                    extreme_bg: Rgb { r: 34, g: 37, b: 44 },
                    code_bg: Rgb { r: 39, g: 43, b: 51 },
                    inactive_bg: Rgb { r: 62, g: 68, b: 82 },
                    hovered_bg: Rgb { r: 73, g: 80, b: 96 },
                    active_bg: Rgb { r: 82, g: 90, b: 108 },
                    open_bg: Rgb { r: 82, g: 90, b: 108 },
                    active_fg: None,
                    open_fg: None,
                },
            ),
        },
    }
}

/// The colour of the button that starts the stream, in each scheme.
pub open spec fn start_color_of(theme: GuiTheme) -> Rgb {
    match theme {
        GuiTheme::DefaultDark => Rgb { r: 38, g: 174, b: 96 },
        GuiTheme::Light => Rgb { r: 46, g: 160, b: 67 },
        GuiTheme::HighContrast => Rgb { r: 255, g: 214, b: 0 },
        GuiTheme::OceanBlue => Rgb { r: 38, g: 132, b: 190 },
        GuiTheme::ShadesOfPurple => Rgb { r: 126, g: 87, b: 194 },
        GuiTheme::Novare => Rgb { r: 88, g: 214, b: 184 },
        GuiTheme::NovareLight => Rgb { r: 72, g: 196, b: 165 },
        GuiTheme::Dracula => Rgb { r: 80, g: 220, b: 141 },
        GuiTheme::Nord => Rgb { r: 136, g: 192, b: 208 },
        GuiTheme::SolarizedDark => Rgb { r: 42, g: 161, b: 152 },
        GuiTheme::SolarizedLight => Rgb { r: 133, g: 153, b: 0 },
        GuiTheme::OneDark => Rgb { r: 152, g: 195, b: 121 },
    }
}

/// The colour of the button that starts the stream.
pub fn start_button_color(theme: GuiTheme) -> (res: Rgb)
    ensures
        res == start_color_of(theme),
{
    match theme {
        GuiTheme::DefaultDark => Rgb { r: 38, g: 174, b: 96 },
        GuiTheme::Light => Rgb { r: 46, g: 160, b: 67 },
        GuiTheme::HighContrast => Rgb { r: 255, g: 214, b: 0 },
        GuiTheme::OceanBlue => Rgb { r: 38, g: 132, b: 190 },
        GuiTheme::ShadesOfPurple => Rgb { r: 126, g: 87, b: 194 },
        GuiTheme::Novare => Rgb { r: 88, g: 214, b: 184 },
        GuiTheme::NovareLight => Rgb { r: 72, g: 196, b: 165 },
        GuiTheme::Dracula => Rgb { r: 80, g: 220, b: 141 },
        GuiTheme::Nord => Rgb { r: 136, g: 192, b: 208 },
        GuiTheme::SolarizedDark => Rgb { r: 42, g: 161, b: 152 },
        GuiTheme::SolarizedLight => Rgb { r: 133, g: 153, b: 0 },
        GuiTheme::OneDark => Rgb { r: 152, g: 195, b: 121 },
    }
}

/// The colour of the button that stops the stream, in each scheme.
pub open spec fn stop_color_of(theme: GuiTheme) -> Rgb {
    match theme {
        GuiTheme::DefaultDark => Rgb { r: 190, g: 45, b: 45 },
        GuiTheme::Light => Rgb { r: 200, g: 55, b: 55 },
        GuiTheme::HighContrast => Rgb { r: 255, g: 106, b: 106 },
        GuiTheme::OceanBlue => Rgb { r: 181, g: 77, b: 77 },
        GuiTheme::ShadesOfPurple => Rgb { r: 168, g: 86, b: 124 },
        GuiTheme::Novare => Rgb { r: 167, g: 146, b: 214 },
        GuiTheme::NovareLight => Rgb { r: 55, g: 150, b: 129 },
        GuiTheme::Dracula => Rgb { r: 255, g: 85, b: 85 },
        GuiTheme::Nord => Rgb { r: 191, g: 97, b: 106 },
        GuiTheme::SolarizedDark => Rgb { r: 220, g: 50, b: 47 },
        GuiTheme::SolarizedLight => Rgb { r: 203, g: 75, b: 22 },
        GuiTheme::OneDark => Rgb { r: 224, g: 108, b: 117 },
    }
}

/// The colour of the button that stops the stream.
pub fn stop_button_color(theme: GuiTheme) -> (res: Rgb)
    ensures
        res == stop_color_of(theme),
{
    match theme {
        GuiTheme::DefaultDark => Rgb { r: 190, g: 45, b: 45 },
        GuiTheme::Light => Rgb { r: 200, g: 55, b: 55 },
        GuiTheme::HighContrast => Rgb { r: 255, g: 106, b: 106 },
        GuiTheme::OceanBlue => Rgb { r: 181, g: 77, b: 77 },
        GuiTheme::ShadesOfPurple => Rgb { r: 168, g: 86, b: 124 },
        GuiTheme::Novare => Rgb { r: 167, g: 146, b: 214 },
        GuiTheme::NovareLight => Rgb { r: 55, g: 150, b: 129 },
        GuiTheme::Dracula => Rgb { r: 255, g: 85, b: 85 },
        GuiTheme::Nord => Rgb { r: 191, g: 97, b: 106 },
        GuiTheme::SolarizedDark => Rgb { r: 220, g: 50, b: 47 },
        GuiTheme::SolarizedLight => Rgb { r: 203, g: 75, b: 22 },
        GuiTheme::OneDark => Rgb { r: 224, g: 108, b: 117 },
    }
}

/// A scheme is drawn on the toolkit's light colours exactly where it counts as light.
pub proof fn light_schemes_are_drawn_light(theme: GuiTheme)
    ensures
        visuals_of(theme).dark == !theme.light(),
{
}

/// The two buttons can be told apart in every scheme.
pub proof fn buttons_differ(theme: GuiTheme)
    ensures
        start_color_of(theme) != stop_color_of(theme),
{
}

/// In every scheme that sets colours, text and selected text stand out from what they are written
/// on: bright on dark in the dark ones, dark on bright in the light ones.
pub proof fn text_stands_out(theme: GuiTheme)
    ensures
        visuals_of(theme).palette is None == (theme == GuiTheme::DefaultDark || theme
            == GuiTheme::Light),
        visuals_of(theme).palette is Some ==> {
            let brightness = |c: Rgb| 299 * c.r + 587 * c.g + 114 * c.b;
            let palette = visuals_of(theme).palette->0;
            let dark = visuals_of(theme).dark;
            &&& dark ==> brightness(palette.text) > brightness(palette.panel) + 80_000
            &&& dark ==> brightness(palette.text) > brightness(palette.window) + 80_000
            &&& !dark ==> brightness(palette.text) + 80_000 < brightness(palette.panel)
            &&& !dark ==> brightness(palette.text) + 80_000 < brightness(palette.window)
            &&& palette.selection_bg != palette.selection_stroke
            &&& palette.active_bg == palette.open_bg
        },
{
}

/// Schemes that differ look different.
pub proof fn schemes_look_different(a: GuiTheme, b: GuiTheme)
    requires
        a != b,
    ensures
        visuals_of(a) != visuals_of(b),
        start_color_of(a) != start_color_of(b),
        stop_color_of(a) != stop_color_of(b),
{
}

} // verus!
