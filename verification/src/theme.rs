//! The colour themes of the user interface.

use vstd::prelude::*;

verus! {

/// A colour theme of the user interface.
#[derive(Debug, Clone, Copy, PartialEq, Eq, Structural)]
pub enum UiTheme {
    /// Neon cyan on deep midnight.
    CyberNeon,
    /// Synthwave purple and hot pink.
    TokyoNight,
    /// Radiant emerald on dark pine.
    ForestEmerald,
    /// Warm amber and coral red.
    SunsetAmber,
    /// Classic obsidian slate.
    DarkSlate,
    /// Bright designer mode.
    StudioLight,
}

impl Default for UiTheme {
    fn default() -> (t: UiTheme)
        ensures
            t == UiTheme::CyberNeon,
    {
        UiTheme::CyberNeon
    }
}

/// The label of each theme.
pub open spec fn theme_name(t: UiTheme) -> Seq<char> {
    match t {
        UiTheme::CyberNeon => "Cyber Neon"@,
        UiTheme::TokyoNight => "Tokyo Purple"@,
        UiTheme::ForestEmerald => "Forest Emerald"@,
        UiTheme::SunsetAmber => "Sunset Amber"@,
        UiTheme::DarkSlate => "Dark Slate"@,
        UiTheme::StudioLight => "Studio Light"@,
    }
}

/// Main accent colour of each theme.
pub open spec fn accent_spec(t: UiTheme) -> [u8; 3] {
    match t {
        UiTheme::CyberNeon => [6u8, 182u8, 212u8],
        UiTheme::TokyoNight => [168u8, 85u8, 247u8],
        UiTheme::ForestEmerald => [16u8, 185u8, 129u8],
        UiTheme::SunsetAmber => [249u8, 115u8, 22u8],
        UiTheme::DarkSlate => [59u8, 130u8, 246u8],
        UiTheme::StudioLight => [37u8, 99u8, 235u8],
    }
}

/// Secondary accent colour of each theme.
pub open spec fn secondary_spec(t: UiTheme) -> [u8; 3] {
    match t {
        UiTheme::CyberNeon => [59u8, 130u8, 246u8],
        UiTheme::TokyoNight => [236u8, 72u8, 153u8],
        UiTheme::ForestEmerald => [52u8, 211u8, 153u8],
        UiTheme::SunsetAmber => [244u8, 63u8, 94u8],
        UiTheme::DarkSlate => [96u8, 165u8, 250u8],
        UiTheme::StudioLight => [14u8, 165u8, 233u8],
    }
}

/// Side panel background of each theme.
pub open spec fn panel_bg_spec(t: UiTheme) -> [u8; 3] {
    match t {
        UiTheme::CyberNeon => [11u8, 15u8, 25u8],
        UiTheme::TokyoNight => [19u8, 15u8, 30u8],
        UiTheme::ForestEmerald => [12u8, 24u8, 21u8],
        UiTheme::SunsetAmber => [26u8, 18u8, 16u8],
        UiTheme::DarkSlate => [16u8, 18u8, 24u8],
        UiTheme::StudioLight => [248u8, 250u8, 252u8],
    }
}

/// Preview canvas background of each theme.
pub open spec fn canvas_bg_spec(t: UiTheme) -> [u8; 3] {
    match t {
        UiTheme::CyberNeon => [26u8, 32u8, 46u8],
        UiTheme::TokyoNight => [32u8, 26u8, 48u8],
        UiTheme::ForestEmerald => [24u8, 36u8, 32u8],
        UiTheme::SunsetAmber => [36u8, 28u8, 26u8],
        UiTheme::DarkSlate => [28u8, 32u8, 42u8],
        UiTheme::StudioLight => [228u8, 234u8, 242u8],
    }
}

/// Card background of each theme.
pub open spec fn card_bg_spec(t: UiTheme) -> [u8; 3] {
    match t {
        UiTheme::CyberNeon => [17u8, 24u8, 39u8],
        UiTheme::TokyoNight => [29u8, 23u8, 46u8],
        UiTheme::ForestEmerald => [19u8, 36u8, 32u8],
        UiTheme::SunsetAmber => [38u8, 26u8, 24u8],
        UiTheme::DarkSlate => [22u8, 25u8, 33u8],
        UiTheme::StudioLight => [255u8, 255u8, 255u8],
    }
}

/// Card outline of each theme.
pub open spec fn card_border_spec(t: UiTheme) -> [u8; 3] {
    match t {
        UiTheme::CyberNeon => [30u8, 58u8, 86u8],
        UiTheme::TokyoNight => [60u8, 40u8, 95u8],
        UiTheme::ForestEmerald => [30u8, 68u8, 56u8],
        UiTheme::SunsetAmber => [72u8, 42u8, 36u8],
        UiTheme::DarkSlate => [38u8, 43u8, 56u8],
        UiTheme::StudioLight => [226u8, 232u8, 240u8],
    }
}

impl UiTheme {
    /// The theme's label.
    pub fn name(&self) -> (r: &'static str)
        ensures
            r@ == theme_name(*self),
    {
        match self {
            UiTheme::CyberNeon => "Cyber Neon",
            UiTheme::TokyoNight => "Tokyo Purple",
            UiTheme::ForestEmerald => "Forest Emerald",
            UiTheme::SunsetAmber => "Sunset Amber",
            UiTheme::DarkSlate => "Dark Slate",
            UiTheme::StudioLight => "Studio Light",
        }
    }

    /// The bullet shown before every theme's label.
    pub fn emoji(&self) -> (r: &'static str)
        ensures
            r@ == "\u{25CF}"@,
    {
        "\u{25CF}"
    }

    /// Every theme but the light one is dark.
    pub fn is_dark(&self) -> (r: bool)
        ensures
            r == (*self != UiTheme::StudioLight),
    {
        !matches!(self, UiTheme::StudioLight)
    }

    /// Main accent colour (RGB).
    pub fn accent_color(&self) -> (r: [u8; 3])
        ensures
            r == accent_spec(*self),
    {
        match self {
            UiTheme::CyberNeon => [6, 182, 212],
            UiTheme::TokyoNight => [168, 85, 247],
            UiTheme::ForestEmerald => [16, 185, 129],
            UiTheme::SunsetAmber => [249, 115, 22],
            UiTheme::DarkSlate => [59, 130, 246],
            UiTheme::StudioLight => [37, 99, 235],
        }
    }

    /// Secondary accent colour (RGB).
    pub fn secondary_accent(&self) -> (r: [u8; 3])
        ensures
            r == secondary_spec(*self),
    {
        match self {
            UiTheme::CyberNeon => [59, 130, 246],
            UiTheme::TokyoNight => [236, 72, 153],
            UiTheme::ForestEmerald => [52, 211, 153],
            UiTheme::SunsetAmber => [244, 63, 94],
            UiTheme::DarkSlate => [96, 165, 250],
            UiTheme::StudioLight => [14, 165, 233],
        }
    }

    /// Side panel background (RGB).
    pub fn panel_bg(&self) -> (r: [u8; 3])
        ensures
            r == panel_bg_spec(*self),
    {
        match self {
            UiTheme::CyberNeon => [11, 15, 25],
            UiTheme::TokyoNight => [19, 15, 30],
            UiTheme::ForestEmerald => [12, 24, 21],
            UiTheme::SunsetAmber => [26, 18, 16],
            UiTheme::DarkSlate => [16, 18, 24],
            UiTheme::StudioLight => [248, 250, 252],
        }
    }

    /// Preview canvas background (RGB).
    pub fn canvas_bg(&self) -> (r: [u8; 3])
        ensures
            r == canvas_bg_spec(*self),
    {
        match self {
            UiTheme::CyberNeon => [26, 32, 46],
            UiTheme::TokyoNight => [32, 26, 48],
            UiTheme::ForestEmerald => [24, 36, 32],
            UiTheme::SunsetAmber => [36, 28, 26],
            UiTheme::DarkSlate => [28, 32, 42],
            UiTheme::StudioLight => [228, 234, 242],
        }
    }

    /// Card background (RGB).
    pub fn card_bg(&self) -> (r: [u8; 3])
        ensures
            r == card_bg_spec(*self),
    {
        match self {
            UiTheme::CyberNeon => [17, 24, 39],
            UiTheme::TokyoNight => [29, 23, 46],
            UiTheme::ForestEmerald => [19, 36, 32],
            UiTheme::SunsetAmber => [38, 26, 24],
            UiTheme::DarkSlate => [22, 25, 33],
            UiTheme::StudioLight => [255, 255, 255],
        }
    }

    /// Card outline (RGB).
    pub fn card_border(&self) -> (r: [u8; 3])
        ensures
            r == card_border_spec(*self),
    {
        match self {
            UiTheme::CyberNeon => [30, 58, 86],
            UiTheme::TokyoNight => [60, 40, 95],
            UiTheme::ForestEmerald => [30, 68, 56],
            UiTheme::SunsetAmber => [72, 42, 36],
            UiTheme::DarkSlate => [38, 43, 56],
            UiTheme::StudioLight => [226, 232, 240],
        }
    }

    /// Main text colour (RGB): near white on dark themes, dark slate on the light one.
    pub fn text_primary(&self) -> (r: [u8; 3])
        ensures
            r == (if *self != UiTheme::StudioLight { [243u8, 244u8, 246u8] } else { [15u8, 23u8, 42u8] }),
    {
        if self.is_dark() {
            [243, 244, 246]
        } else {
            [15, 23, 42]
        }
    }

    /// Secondary text colour (RGB).
    pub fn text_muted(&self) -> (r: [u8; 3])
        ensures
            r == (if *self != UiTheme::StudioLight { [148u8, 163u8, 184u8] } else { [100u8, 116u8, 139u8] }),
    {
        if self.is_dark() {
            [148, 163, 184]
        } else {
            [100, 116, 139]
        }
    }
}

} // verus!
