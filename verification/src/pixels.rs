//! The pixel model: a closed set of pixel kinds, each fixing a component
//! type (8-bit or 16-bit unsigned) and a channel count (1, 3 or 4).

use vstd::prelude::*;

verus! {

/// A pixel kind: component width times channel count.
#[derive(Clone, Copy, Debug, PartialEq, Eq, Structural)]
pub enum PixelType {
    /// One 8-bit component.
    U8,
    /// Three 8-bit components.
    U8x3,
    /// Four 8-bit components.
    U8x4,
    /// One 16-bit component.
    U16,
    /// Three 16-bit components.
    U16x3,
    /// Four 16-bit components.
    U16x4,
}

/// The channel count of the kind: 1, 3 or 4.
pub open spec fn spec_components(pt: PixelType) -> int {
    match pt {
        PixelType::U8 => 1,
        PixelType::U8x3 => 3,
        PixelType::U8x4 => 4,
        PixelType::U16 => 1,
        PixelType::U16x3 => 3,
        PixelType::U16x4 => 4,
    }
}

/// The byte width of one component: 1 or 2.
pub open spec fn spec_component_size(pt: PixelType) -> int {
    match pt {
        PixelType::U8 => 1,
        PixelType::U8x3 => 1,
        PixelType::U8x4 => 1,
        PixelType::U16 => 2,
        PixelType::U16x3 => 2,
        PixelType::U16x4 => 2,
    }
}

/// The largest value a component of the kind can hold.
pub open spec fn spec_component_max(pt: PixelType) -> int {
    if spec_component_size(pt) == 1 {
        255
    } else {
        65535
    }
}

impl PixelType {
    /// The channel count of the kind.
    pub fn components(self) -> (r: u32)
        ensures
            r == spec_components(self),
    {
        match self {
            PixelType::U8 => 1,
            PixelType::U8x3 => 3,
            PixelType::U8x4 => 4,
            PixelType::U16 => 1,
            PixelType::U16x3 => 3,
            PixelType::U16x4 => 4,
        }
    }

    /// The byte width of one component.
    pub fn component_size(self) -> (r: u32)
        ensures
            r == spec_component_size(self),
    {
        match self {
            PixelType::U8 | PixelType::U8x3 | PixelType::U8x4 => 1,
            PixelType::U16 | PixelType::U16x3 | PixelType::U16x4 => 2,
        }
    }

    /// The largest value a component of the kind can hold.
    pub fn component_max(self) -> (r: u32)
        ensures
            r == spec_component_max(self),
    {
        if self.component_size() == 1 {
            255
        } else {
            65535
        }
    }

    /// The number of bytes in one pixel.
    pub fn bytes_per_pixel(self) -> (r: u32)
        ensures
            r == spec_components(self) * spec_component_size(self),
            1 <= r <= 8,
    {
        self.components() * self.component_size()
    }
}

} // verus!
