//! Writing-mode-aware logical geometry.
//!
//! Lengths are measured in app units (`Au`, 1/60 of a CSS pixel) with
//! saturating arithmetic, so size computations are total. Logical types
//! (`LogicalSize`, `LogicalMargin`, `LogicalPoint`) name the inline and
//! block axes; `WritingMode` says how those axes map onto the physical
//! horizontal and vertical axes.

use vstd::prelude::*;

verus! {

/// Clamps a mathematical integer into the `i32` range.
pub open spec fn clamp_i32(x: int) -> int {
    if x > i32::MAX as int {
        i32::MAX as int
    } else if x < i32::MIN as int {
        i32::MIN as int
    } else {
        x
    }
}

/// An app unit: 1/60 of a CSS pixel, stored as an `i32`.
#[derive(Debug, Copy, Clone, PartialEq, Eq, Structural)]
pub struct Au(pub i32);

impl Au {
    pub fn zero() -> (r: Au)
        ensures
            r.0 == 0,
    {
        Au(0)
    }

    /// App units per CSS pixel.
    pub open spec fn spec_per_px() -> int {
        60
    }

    pub fn from_px(px: i32) -> (r: Au)
        ensures
            r.0 == clamp_i32(px * 60),
    {
        let wide: i64 = px as i64 * 60;
        Au(clamp_to_i32(wide))
    }

    /// Saturating addition on app units.
    pub fn saturating_add(self, other: Au) -> (r: Au)
        ensures
            r.0 == clamp_i32(self.0 + other.0),
    {
        let wide: i64 = self.0 as i64 + other.0 as i64;
        Au(clamp_to_i32(wide))
    }

    /// Saturating subtraction on app units.
    pub fn saturating_sub(self, other: Au) -> (r: Au)
        ensures
            r.0 == clamp_i32(self.0 - other.0),
    {
        let wide: i64 = self.0 as i64 - other.0 as i64;
        Au(clamp_to_i32(wide))
    }

    /// The larger of two app unit values.
    pub fn max(self, other: Au) -> (r: Au)
        ensures
            r.0 == if self.0 >= other.0 {
                self.0
            } else {
                other.0
            },
    {
        if self.0 >= other.0 {
            self
        } else {
            other
        }
    }
}

/// Clamps an `i64` into the `i32` range.
pub fn clamp_to_i32(x: i64) -> (r: i32)
    ensures
        r as int == clamp_i32(x as int),
{
    if x > i32::MAX as i64 {
        i32::MAX
    } else if x < i32::MIN as i64 {
        i32::MIN
    } else {
        x as i32
    }
}

/// A size along the physical axes.
#[derive(Debug, Copy, Clone, PartialEq, Eq, Structural)]
pub struct PhysicalSize<T> {
    pub width: T,
    pub height: T,
}

/// Per-side physical values, in `top`/`right`/`bottom`/`left` order.
#[derive(Debug, Copy, Clone, PartialEq, Eq, Structural)]
pub struct PhysicalSides<T> {
    pub top: T,
    pub right: T,
    pub bottom: T,
    pub left: T,
}

/// How the logical inline and block axes map onto the physical axes.
///
/// `horizontal` says the inline axis is the physical horizontal axis.
/// `inline_reversed` says the inline axis runs against the physical
/// left-to-right (or top-to-bottom) direction; `block_reversed` says the
/// block axis runs right-to-left (only in vertical modes).
#[derive(Debug, Copy, Clone, PartialEq, Eq, Structural)]
pub struct WritingMode {
    pub horizontal: bool,
    pub inline_reversed: bool,
    pub block_reversed: bool,
}

impl WritingMode {
    pub fn is_vertical(self) -> (r: bool)
        ensures
            r == !self.horizontal,
    {
        !self.horizontal
    }
}

/// A size along the logical axes of some writing mode.
#[derive(Debug, Copy, Clone, PartialEq, Eq, Structural)]
pub struct LogicalSize<T> {
    pub inline: T,
    pub block: T,
}

impl<T> LogicalSize<T> {
    pub open spec fn spec_from_physical(wm: WritingMode, size: PhysicalSize<T>) -> LogicalSize<T> {
        if wm.horizontal {
            LogicalSize { inline: size.width, block: size.height }
        } else {
            LogicalSize { inline: size.height, block: size.width }
        }
    }

    pub fn new(inline: T, block: T) -> (r: LogicalSize<T>)
        ensures
            r.inline == inline,
            r.block == block,
    {
        LogicalSize { inline, block }
    }

    pub fn from_physical(wm: WritingMode, size: PhysicalSize<T>) -> (r: LogicalSize<T>)
        ensures
            r == Self::spec_from_physical(wm, size),
    {
        if wm.horizontal {
            LogicalSize { inline: size.width, block: size.height }
        } else {
            LogicalSize { inline: size.height, block: size.width }
        }
    }
}

/// Per-side values along the logical axes of some writing mode.
#[derive(Debug, Copy, Clone, PartialEq, Eq, Structural)]
pub struct LogicalMargin<T> {
    pub block_start: T,
    pub block_end: T,
    pub inline_start: T,
    pub inline_end: T,
}

impl<T> LogicalMargin<T> {
    pub open spec fn spec_from_physical(wm: WritingMode, sides: PhysicalSides<T>) -> LogicalMargin<
        T,
    > {
        if wm.horizontal {
            LogicalMargin {
                block_start: sides.top,
                block_end: sides.bottom,
                inline_start: if wm.inline_reversed {
                    sides.right
                } else {
                    sides.left
                },
                inline_end: if wm.inline_reversed {
                    sides.left
                } else {
                    sides.right
                },
            }
        } else {
            LogicalMargin {
                block_start: if wm.block_reversed {
                    sides.right
                } else {
                    sides.left
                },
                block_end: if wm.block_reversed {
                    sides.left
                } else {
                    sides.right
                },
                inline_start: if wm.inline_reversed {
                    sides.bottom
                } else {
                    sides.top
                },
                inline_end: if wm.inline_reversed {
                    sides.top
                } else {
                    sides.bottom
                },
            }
        }
    }

    pub fn from_physical(wm: WritingMode, sides: PhysicalSides<T>) -> (r: LogicalMargin<T>)
        ensures
            r == Self::spec_from_physical(wm, sides),
    {
        if wm.horizontal {
            let (inline_start, inline_end) = if wm.inline_reversed {
                (sides.right, sides.left)
            } else {
                (sides.left, sides.right)
            };
            LogicalMargin { block_start: sides.top, block_end: sides.bottom, inline_start, inline_end }
        } else {
            let (block_start, block_end) = if wm.block_reversed {
                (sides.right, sides.left)
            } else {
                (sides.left, sides.right)
            };
            let (inline_start, inline_end) = if wm.inline_reversed {
                (sides.bottom, sides.top)
            } else {
                (sides.top, sides.bottom)
            };
            LogicalMargin { block_start, block_end, inline_start, inline_end }
        }
    }
}

impl LogicalMargin<Au> {
    /// Sum of the two inline-axis sides, saturating.
    pub fn inline_start_end(self) -> (r: Au)
        ensures
            r.0 == clamp_i32(self.inline_start.0 + self.inline_end.0),
    {
        self.inline_start.saturating_add(self.inline_end)
    }

    /// Sum of the two block-axis sides, saturating.
    pub fn block_start_end(self) -> (r: Au)
        ensures
            r.0 == clamp_i32(self.block_start.0 + self.block_end.0),
    {
        self.block_start.saturating_add(self.block_end)
    }

    /// Componentwise saturating sum of two logical margins.
    pub fn saturating_add(self, other: LogicalMargin<Au>) -> (r: LogicalMargin<Au>)
        ensures
            r.block_start.0 == clamp_i32(self.block_start.0 + other.block_start.0),
            r.block_end.0 == clamp_i32(self.block_end.0 + other.block_end.0),
            r.inline_start.0 == clamp_i32(self.inline_start.0 + other.inline_start.0),
            r.inline_end.0 == clamp_i32(self.inline_end.0 + other.inline_end.0),
    {
        LogicalMargin {
            block_start: self.block_start.saturating_add(other.block_start),
            block_end: self.block_end.saturating_add(other.block_end),
            inline_start: self.inline_start.saturating_add(other.inline_start),
            inline_end: self.inline_end.saturating_add(other.inline_end),
        }
    }
}

/// A point along the logical axes: an inline offset and a block offset.
#[derive(Debug, Copy, Clone, PartialEq, Eq, Structural)]
pub struct LogicalPoint<T> {
    pub i: T,
    pub b: T,
}

impl LogicalPoint<Au> {
    pub fn zero() -> (r: LogicalPoint<Au>)
        ensures
            r.i.0 == 0,
            r.b.0 == 0,
    {
        LogicalPoint { i: Au(0), b: Au(0) }
    }

    pub fn new(i: Au, b: Au) -> (r: LogicalPoint<Au>)
        ensures
            r.i == i,
            r.b == b,
    {
        LogicalPoint { i, b }
    }
}

} // verus!
