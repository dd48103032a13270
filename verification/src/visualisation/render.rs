use vstd::prelude::*;

use crate::render::{fill_frame, filled_frame};

verus! {

/// Opaque black background.
pub const BLACK_BACKGROUND: [u8; 4] = [0, 0, 0, 255];

/// Opaque white background.
pub const WHITE_BACKGROUND: [u8; 4] = [255, 255, 255, 255];

/// Fully transparent background.
pub const TRANSPARENT_BACKGROUND: [u8; 4] = [0, 0, 0, 0];

/// Number of colour variants in a palette; boids pick one each.
pub const COLOUR_VARIANT_COUNT: usize = 33;

/// Index of the variant that matches the smoothed base colour exactly.
pub const CENTRE_VARIANT: usize = 16;

/// What is drawn behind the boids.
#[derive(Debug, Clone, Copy, PartialEq, Eq, Structural)]
pub enum BackgroundMode {
    Black,
    White,
    Transparent,
    Boid,
}

/// The mode that follows `mode` in display order:
/// black, white, transparent, boid colour, and back to black.
pub open spec fn next_mode(mode: BackgroundMode) -> BackgroundMode {
    match mode {
        BackgroundMode::Black => BackgroundMode::White,
        BackgroundMode::White => BackgroundMode::Transparent,
        BackgroundMode::Transparent => BackgroundMode::Boid,
        BackgroundMode::Boid => BackgroundMode::Black,
    }
}

/// The colour a background mode clears to, given the current palette.
pub open spec fn background_colour(mode: BackgroundMode, palette: ColourPalette) -> [u8; 4] {
    match mode {
        BackgroundMode::Black => BLACK_BACKGROUND,
        BackgroundMode::White => WHITE_BACKGROUND,
        BackgroundMode::Transparent => TRANSPARENT_BACKGROUND,
        BackgroundMode::Boid => palette.normal[CENTRE_VARIANT as int],
    }
}

impl Default for BackgroundMode {
    fn default() -> (mode: Self)
        ensures
            mode == BackgroundMode::Transparent,
    {
        BackgroundMode::Transparent
    }
}

impl BackgroundMode {
    /// Cycles to the next background mode.
    pub fn next(self) -> (mode: Self)
        ensures
            mode == next_mode(self),
    {
        match self {
            Self::Black => Self::White,
            Self::White => Self::Transparent,
            Self::Transparent => Self::Boid,
            Self::Boid => Self::Black,
        }
    }

    /// The colour this mode clears the frame to.
    pub fn colour(self, palette: &ColourPalette) -> (colour: [u8; 4])
        ensures
            colour == background_colour(self, *palette),
    {
        match self {
            Self::Black => BLACK_BACKGROUND,
            Self::White => WHITE_BACKGROUND,
            Self::Transparent => TRANSPARENT_BACKGROUND,
            Self::Boid => palette.base_colour(),
        }
    }
}

/// Cycling the background four times returns to the starting mode, and no
/// mode is its own successor.
pub proof fn lemma_background_cycle(mode: BackgroundMode)
    ensures
        next_mode(next_mode(next_mode(next_mode(mode)))) == mode,
        next_mode(mode) != mode,
{
}

/// The RGBA colours of every palette variant, without and with a full ripple
/// pulse. Boids keep a stable variant index into these tables.
#[derive(Debug, Clone, Copy)]
pub struct ColourPalette {
    pub normal: [[u8; 4]; 33],
    pub pulsing: [[u8; 4]; 33],
}

/// The variant index a boid's stored index selects: indices past the end
/// select the last variant.
pub open spec fn clamped_variant(index: u8) -> int {
    if index < COLOUR_VARIANT_COUNT {
        index as int
    } else {
        COLOUR_VARIANT_COUNT - 1
    }
}

impl ColourPalette {
    /// A palette made of the given variant tables.
    pub fn from_variants(normal: [[u8; 4]; 33], pulsing: [[u8; 4]; 33]) -> (palette: Self)
        ensures
            palette.normal == normal,
            palette.pulsing == pulsing,
    {
        ColourPalette { normal, pulsing }
    }

    /// The colour of the centre variant, which is the smoothed audio colour.
    pub fn base_colour(&self) -> (colour: [u8; 4])
        ensures
            colour == self.normal[CENTRE_VARIANT as int],
    {
        self.normal[CENTRE_VARIANT]
    }

    /// The resting and pulsing colours of the variant a boid's index selects.
    pub fn variant(&self, index: u8) -> (colours: ([u8; 4], [u8; 4]))
        ensures
            colours.0 == self.normal[clamped_variant(index)],
            colours.1 == self.pulsing[clamped_variant(index)],
    {
        let index = if (index as usize) < COLOUR_VARIANT_COUNT {
            index as usize
        } else {
            COLOUR_VARIANT_COUNT - 1
        };
        (self.normal[index], self.pulsing[index])
    }
}

/// Clears the frame to the colour of the selected background.
pub fn clear_frame(frame: &mut [u8], background: BackgroundMode, palette: &ColourPalette)
    ensures
        final(frame)@ == filled_frame(old(frame)@, background_colour(background, *palette)),
{
    let colour = background.colour(palette);
    fill_frame(frame, colour);
}

} // verus!
