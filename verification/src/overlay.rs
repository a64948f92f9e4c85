//! Overlay presentation choices and their fixed names.
use vstd::prelude::*;
use vstd::string::*;

verus! {

#[derive(Clone, Copy, Debug, PartialEq, Eq, Structural)]
pub enum OverlayPreset {
    Compact,
    FpsOnly,
    Detailed,
    Custom,
}

#[derive(Clone, Copy, Debug, PartialEq, Eq, Structural)]
pub enum OverlayLayout {
    Grid,
    Ribbon,
    Telemetry,
}

#[derive(Clone, Copy, Debug, PartialEq, Eq, Structural)]
pub enum OverlayPalette {
    Redunar,
    Glacier,
    Ember,
    Mint,
    Mono,
    Amethyst,
    Solar,
    Rose,
}

#[derive(Clone, Copy, Debug, PartialEq, Eq, Structural)]
pub enum OverlayCorner {
    TopLeft,
    TopRight,
    BottomLeft,
    BottomRight,
}

/// Appearance that a profile has when the user changed nothing.
#[derive(Clone, Copy, Debug, PartialEq, Eq, Structural)]
pub struct OverlayDefaults {
    pub layout: OverlayLayout,
    pub palette: OverlayPalette,
    pub opacity_percent: u8,
    pub metric_bits: u16,
}

pub open spec fn preset_text(preset: OverlayPreset) -> &'static str {
    match preset {
        OverlayPreset::Compact => "compact",
        OverlayPreset::FpsOnly => "fps-only",
        OverlayPreset::Detailed => "detailed",
        OverlayPreset::Custom => "custom",
    }
}

pub fn overlay_preset_name(preset: OverlayPreset) -> (result: &'static str)
    ensures
        result == preset_text(preset),
{
    match preset {
        OverlayPreset::Compact => "compact",
        OverlayPreset::FpsOnly => "fps-only",
        OverlayPreset::Detailed => "detailed",
        OverlayPreset::Custom => "custom",
    }
}

pub open spec fn layout_text(layout: OverlayLayout) -> &'static str {
    match layout {
        OverlayLayout::Grid => "grid",
        OverlayLayout::Ribbon => "ribbon",
        OverlayLayout::Telemetry => "telemetry",
    }
}

pub fn overlay_layout_name(layout: OverlayLayout) -> (result: &'static str)
    ensures
        result == layout_text(layout),
{
    match layout {
        OverlayLayout::Grid => "grid",
        OverlayLayout::Ribbon => "ribbon",
        OverlayLayout::Telemetry => "telemetry",
    }
}

pub open spec fn palette_text(palette: OverlayPalette) -> &'static str {
    match palette {
        OverlayPalette::Redunar => "redunar",
        OverlayPalette::Glacier => "glacier",
        OverlayPalette::Ember => "ember",
        OverlayPalette::Mint => "mint",
        OverlayPalette::Mono => "mono",
        OverlayPalette::Amethyst => "amethyst",
        OverlayPalette::Solar => "solar",
        OverlayPalette::Rose => "rose",
    }
}

pub fn overlay_palette_name(palette: OverlayPalette) -> (result: &'static str)
    ensures
        result == palette_text(palette),
{
    match palette {
        OverlayPalette::Redunar => "redunar",
        OverlayPalette::Glacier => "glacier",
        OverlayPalette::Ember => "ember",
        OverlayPalette::Mint => "mint",
        OverlayPalette::Mono => "mono",
        OverlayPalette::Amethyst => "amethyst",
        OverlayPalette::Solar => "solar",
        OverlayPalette::Rose => "rose",
    }
}

pub open spec fn corner_text(corner: OverlayCorner) -> &'static str {
    match corner {
        OverlayCorner::TopLeft => "top-left",
        OverlayCorner::TopRight => "top-right",
        OverlayCorner::BottomLeft => "bottom-left",
        OverlayCorner::BottomRight => "bottom-right",
    }
}

pub fn overlay_corner_name(corner: OverlayCorner) -> (result: &'static str)
    ensures
        result == corner_text(corner),
{
    match corner {
        OverlayCorner::TopLeft => "top-left",
        OverlayCorner::TopRight => "top-right",
        OverlayCorner::BottomLeft => "bottom-left",
        OverlayCorner::BottomRight => "bottom-right",
    }
}

pub open spec fn switch_text(on: bool) -> &'static str {
    if on {
        "1"
    } else {
        "0"
    }
}

/// How a switch is written in an environment.
pub fn switch_name(on: bool) -> (result: &'static str)
    ensures
        result == switch_text(on),
{
    if on {
        "1"
    } else {
        "0"
    }
}

} // verus!
