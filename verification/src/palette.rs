//! The colours in hand: a palette, and the primary and secondary colour.

use vstd::prelude::*;
use crate::pixels::Rgba;

verus! {

/// Width of the background, in pixels.
pub const WIDTH: u32 = 512;

/// Height of the background, in pixels.
pub const HEIGHT: u32 = 512;

/// The colours in hand, as places in the palette or as colours of their own.
#[allow(inconsistent_fields)]
pub enum ColorState {
    Indexed { primary: u8, secondary: u8 },
    Color { primary: Rgba, secondary: Rgba },
}

impl Default for ColorState {
    fn default() -> (state: ColorState)
        ensures
            state == (ColorState::Color {
                primary: Rgba { r: 255, g: 255, b: 255, a: 255 },
                secondary: Rgba { r: 0, g: 0, b: 0, a: 0 },
            }),
    {
        ColorState::Color {
            primary: Rgba { r: 255, g: 255, b: 255, a: 255 },
            secondary: Rgba { r: 0, g: 0, b: 0, a: 0 },
        }
    }
}

/// A palette and the colours in hand.
pub struct ColorPalette {
    pub palette: Vec<Rgba>,
    pub color_state: ColorState,
}

impl Default for ColorPalette {
    fn default() -> (colors: ColorPalette)
        ensures
            colors.palette@.len() == 0,
            colors.color_state == (ColorState::Color {
                primary: Rgba { r: 255, g: 255, b: 255, a: 255 },
                secondary: Rgba { r: 0, g: 0, b: 0, a: 0 },
            }),
    {
        ColorPalette { palette: Vec::new(), color_state: ColorState::default() }
    }
}

impl ColorPalette {
    /// An indexed colour in hand names a place of the palette.
    pub open spec fn wf(&self) -> bool {
        match self.color_state {
            ColorState::Indexed { primary, secondary } => primary < self.palette@.len(),
            ColorState::Color { .. } => true,
        }
    }

    /// The primary colour.
    pub fn primary_color(&self) -> (color: Rgba)
        requires
            self.wf(),
        ensures
            color == (match self.color_state {
                ColorState::Indexed { primary, secondary } => self.palette@[primary as int],
                ColorState::Color { primary, secondary } => primary,
            }),
    {
        match &self.color_state {
            ColorState::Indexed { primary, .. } => self.palette[*primary as usize],
            ColorState::Color { primary, .. } => *primary,
        }
    }

    /// The secondary colour. Of indexed colours, the palette entry of the
    /// primary place stands for both.
    pub fn secondary_color(&self) -> (color: Rgba)
        requires
            self.wf(),
        ensures
            color == (match self.color_state {
                ColorState::Indexed { primary, secondary } => self.palette@[primary as int],
                ColorState::Color { primary, secondary } => secondary,
            }),
    {
        match &self.color_state {
            ColorState::Indexed { primary, .. } => self.palette[*primary as usize],
            ColorState::Color { secondary, .. } => *secondary,
        }
    }

    /// Makes the palette entry at `index` the primary colour: of indexed
    /// colours the place is taken, of other colours the entry itself, which
    /// must exist.
    pub fn set_primary(&mut self, index: u8)
        requires
            old(self).color_state is Color ==> index < old(self).palette@.len(),
        ensures
            final(self).palette@ == old(self).palette@,
            index < old(self).palette@.len() ==> final(self).wf(),
            final(self).color_state == (match old(self).color_state {
                ColorState::Indexed { primary, secondary } => ColorState::Indexed {
                    primary: index,
                    secondary,
                },
                ColorState::Color { primary, secondary } => ColorState::Color {
                    primary: old(self).palette@[index as int],
                    secondary,
                },
            }),
    {
        let color = match &self.color_state {
            ColorState::Indexed { .. } => None,
            ColorState::Color { .. } => Some(self.palette[index as usize]),
        };
        match &mut self.color_state {
            ColorState::Indexed { primary, .. } => {
                *primary = index;
            },
            ColorState::Color { primary, .. } => {
                if let Some(color) = color {
                    *primary = color;
                }
            },
        }
    }
}

} // verus!
