//! The computed-style snapshot consumed by box generation and layout.
//!
//! A style snapshot carries the display type (outside and inside), the
//! out-of-flow flags, writing-mode properties, box-model lengths, sizing
//! properties, the white-space category and the pseudo-element tag.
//! Percentages are stored as integer hundredths of a percent
//! (10000 = 100%), so every resolution step is exact integer arithmetic.

use vstd::prelude::*;

use crate::geometry::{
    clamp_i32, Au, LogicalMargin, LogicalSize, PhysicalSides, PhysicalSize, WritingMode,
};

verus! {

#[derive(Debug, Copy, Clone, PartialEq, Eq, Structural)]
pub enum DisplayInside {
    NoBox,
    Flow,
    FlowRoot,
}

#[derive(Debug, Copy, Clone, PartialEq, Eq, Structural)]
pub enum DisplayOutside {
    NoBox,
    Contents,
    Block,
    Inline,
}

/// The `display` property: an outside type, an inside type, and the
/// list-item flag.
#[derive(Debug, Copy, Clone, PartialEq, Eq, Structural)]
pub struct Display {
    pub outside: DisplayOutside,
    pub inside: DisplayInside,
    pub is_list_item: bool,
}

impl Display {
    pub fn new_list_item(outside: DisplayOutside, inside: DisplayInside, is_list_item: bool) -> (r:
        Display)
        ensures
            r == (Display { outside, inside, is_list_item }),
    {
        Display { outside, inside, is_list_item }
    }

    pub fn new(outside: DisplayOutside, inside: DisplayInside) -> (r: Display)
        ensures
            r == (Display { outside, inside, is_list_item: false }),
    {
        Display::new_list_item(outside, inside, false)
    }

    pub fn block() -> (r: Display)
        ensures
            r == (Display {
                outside: DisplayOutside::Block,
                inside: DisplayInside::Flow,
                is_list_item: false,
            }),
    {
        Display::new(DisplayOutside::Block, DisplayInside::Flow)
    }

    pub fn inline() -> (r: Display)
        ensures
            r == (Display {
                outside: DisplayOutside::Inline,
                inside: DisplayInside::Flow,
                is_list_item: false,
            }),
    {
        Display::new(DisplayOutside::Inline, DisplayInside::Flow)
    }

    pub fn inside(&self) -> (r: DisplayInside)
        ensures
            r == self.inside,
    {
        self.inside
    }

    pub fn outside(&self) -> (r: DisplayOutside)
        ensures
            r == self.outside,
    {
        self.outside
    }

    pub fn is_list_item(&self) -> (r: bool)
        ensures
            r == self.is_list_item,
    {
        self.is_list_item
    }

    pub fn is_none(&self) -> (r: bool)
        ensures
            r == (self.outside == DisplayOutside::NoBox),
    {
        self.outside() == DisplayOutside::NoBox
    }

    pub fn is_contents(&self) -> (r: bool)
        ensures
            r == (self.outside == DisplayOutside::Contents),
    {
        self.outside() == DisplayOutside::Contents
    }

    pub fn is_inline_inside(&self) -> (r: bool)
        ensures
            r == (self.outside == DisplayOutside::Inline && self.inside == DisplayInside::Flow),
    {
        self.outside() == DisplayOutside::Inline && self.inside() == DisplayInside::Flow
    }

    pub open spec fn spec_is_block_outside(self) -> bool {
        self.outside == DisplayOutside::Block
    }

    pub fn is_block_outside(self) -> (r: bool)
        ensures
            r == self.spec_is_block_outside(),
    {
        self.outside() == DisplayOutside::Block
    }

    pub open spec fn spec_is_inline_outside(self) -> bool {
        self.outside == DisplayOutside::Inline
    }

    pub fn is_inline_outside(self) -> (r: bool)
        ensures
            r == self.spec_is_inline_outside(),
    {
        self.outside() == DisplayOutside::Inline
    }

    /// The blockified display of an inline-level box: `inline` becomes
    /// `block`, `inline-block` becomes `block`; anything already
    /// block-level (or boxless) is unchanged.
    pub open spec fn spec_blockify(self) -> Display {
        if self.outside != DisplayOutside::Inline {
            self
        } else {
            Display {
                outside: DisplayOutside::Block,
                inside: if self.inside == DisplayInside::FlowRoot {
                    DisplayInside::Flow
                } else {
                    self.inside
                },
                is_list_item: self.is_list_item,
            }
        }
    }

    pub fn blockify(self) -> (r: Display)
        ensures
            r == self.spec_blockify(),
    {
        let outside = match self.outside() {
            DisplayOutside::Block | DisplayOutside::Contents | DisplayOutside::NoBox => {
                return self;
            },
            DisplayOutside::Inline => DisplayOutside::Block,
        };
        let inside = match self.inside() {
            DisplayInside::FlowRoot => DisplayInside::Flow,
            inside => inside,
        };
        Display::new_list_item(outside, inside, self.is_list_item())
    }
}

#[derive(Debug, Copy, Clone, PartialEq, Eq, Structural)]
pub enum WhiteSpace {
    Normal,
    Pre,
    Nowrap,
    PreWrap,
    BreakSpaces,
    PreLine,
}

impl WhiteSpace {
    pub open spec fn spec_collapses_spaces(self) -> bool {
        self == WhiteSpace::Normal || self == WhiteSpace::Nowrap || self == WhiteSpace::PreLine
    }

    pub fn collapses_spaces(self) -> (r: bool)
        ensures
            r == self.spec_collapses_spaces(),
    {
        match self {
            WhiteSpace::Normal | WhiteSpace::Nowrap | WhiteSpace::PreLine => true,
            _ => false,
        }
    }

    pub open spec fn spec_collapses_newlines(self) -> bool {
        self == WhiteSpace::Normal || self == WhiteSpace::Nowrap
    }

    pub fn collapses_newlines(self) -> (r: bool)
        ensures
            r == self.spec_collapses_newlines(),
    {
        match self {
            WhiteSpace::Pre
            | WhiteSpace::PreWrap
            | WhiteSpace::PreLine
            | WhiteSpace::BreakSpaces => false,
            WhiteSpace::Normal | WhiteSpace::Nowrap => true,
        }
    }
}

#[derive(Debug, Copy, Clone, PartialEq, Eq, Structural)]
pub enum BoxSizing {
    ContentBox,
    BorderBox,
}

impl BoxSizing {
    pub fn border_box(self) -> (r: bool)
        ensures
            r == (self == BoxSizing::BorderBox),
    {
        match self {
            BoxSizing::BorderBox => true,
            BoxSizing::ContentBox => false,
        }
    }

    pub fn content_box(self) -> (r: bool)
        ensures
            r == (self == BoxSizing::ContentBox),
    {
        match self {
            BoxSizing::ContentBox => true,
            BoxSizing::BorderBox => false,
        }
    }
}

#[derive(Debug, Copy, Clone, PartialEq, Eq, Structural)]
pub enum Position {
    Static,
    Absolute,
    Fixed,
    Relative,
    Sticky,
}

impl Position {
    pub open spec fn spec_is_out_of_flow(self) -> bool {
        self == Position::Absolute || self == Position::Fixed
    }

    pub fn is_out_of_flow(&self) -> (r: bool)
        ensures
            r == self.spec_is_out_of_flow(),
    {
        match *self {
            Position::Absolute | Position::Fixed => true,
            Position::Static | Position::Relative | Position::Sticky => false,
        }
    }
}

#[derive(Debug, Copy, Clone, PartialEq, Eq, Structural)]
pub enum Direction {
    Ltr,
    Rtl,
}

#[derive(Debug, Copy, Clone, PartialEq, Eq, Structural)]
pub enum Float {
    Left,
    Right,
    NoFloat,
}

#[derive(Debug, Copy, Clone, PartialEq, Eq, Structural)]
pub enum Overflow {
    Visible,
    Hidden,
    Scroll,
    Auto,
}

#[derive(Debug, Copy, Clone, PartialEq, Eq, Structural)]
pub enum Clear {
    NoClear,
    Left,
    Right,
    Both,
}

#[derive(Debug, Copy, Clone, PartialEq, Eq, Structural)]
pub enum BorderStyle {
    NoBorder,
    Solid,
    Double,
    Dotted,
    Dashed,
    Hidden,
    Groove,
    Ridge,
    Inset,
    Outset,
}

/// The `writing-mode` property keyword, before combination with
/// `direction` into a used writing mode.
#[derive(Debug, Copy, Clone, PartialEq, Eq, Structural)]
pub enum WritingModeKeyword {
    HorizontalTb,
    VerticalRl,
    VerticalLr,
    SidewaysRl,
    SidewaysLr,
}

#[derive(Debug, Copy, Clone, PartialEq, Eq, Structural)]
pub enum TextOrientation {
    Mixed,
    Upright,
    Sideways,
}

#[derive(Debug, Copy, Clone, PartialEq, Eq, Structural)]
pub enum FontWeight {
    Normal,
    Bold,
}

#[derive(Debug, Copy, Clone, PartialEq, Eq, Structural)]
pub enum FontStyle {
    Normal,
    Italic,
}

#[derive(Debug, Copy, Clone, PartialEq, Eq, Structural)]
pub enum GenericFamily {
    Serif,
    SansSerif,
    Monospace,
}

/// A font family given by name. The font loader collaborator resolves
/// it; this crate only carries it.
#[derive(Debug, Clone, PartialEq, Eq)]
pub struct NamedFamily {
    pub name: String,
}

#[derive(Debug, Clone, PartialEq, Eq)]
pub enum SingleFontFamily {
    Generic(GenericFamily),
    Named(NamedFamily),
}

/// An ordered font family fallback list.
#[derive(Debug, Clone, PartialEq, Eq)]
pub struct FontFamilyList(pub Vec<SingleFontFamily>);

impl FontFamilyList {
    pub fn families(&self) -> (r: &Vec<SingleFontFamily>)
        ensures
            r == &self.0,
    {
        &self.0
    }
}

/// The used writing mode: the combination of `direction`,
/// `writing-mode` and `text-orientation` into an axis mapping.
pub fn used_writing_mode(
    direction: Direction,
    keyword: WritingModeKeyword,
    _text_orientation: TextOrientation,
) -> (r: WritingMode)
    ensures
        r == spec_used_writing_mode(direction, keyword),
{
    let rtl = direction == Direction::Rtl;
    match keyword {
        WritingModeKeyword::HorizontalTb => WritingMode {
            horizontal: true,
            inline_reversed: rtl,
            block_reversed: false,
        },
        WritingModeKeyword::VerticalRl | WritingModeKeyword::SidewaysRl => WritingMode {
            horizontal: false,
            inline_reversed: rtl,
            block_reversed: true,
        },
        WritingModeKeyword::VerticalLr => WritingMode {
            horizontal: false,
            inline_reversed: rtl,
            block_reversed: false,
        },
        WritingModeKeyword::SidewaysLr => WritingMode {
            horizontal: false,
            inline_reversed: !rtl,
            block_reversed: false,
        },
    }
}

pub open spec fn spec_used_writing_mode(direction: Direction, keyword: WritingModeKeyword)
    -> WritingMode {
    let rtl = direction == Direction::Rtl;
    match keyword {
        WritingModeKeyword::HorizontalTb => WritingMode {
            horizontal: true,
            inline_reversed: rtl,
            block_reversed: false,
        },
        WritingModeKeyword::VerticalRl | WritingModeKeyword::SidewaysRl => WritingMode {
            horizontal: false,
            inline_reversed: rtl,
            block_reversed: true,
        },
        WritingModeKeyword::VerticalLr => WritingMode {
            horizontal: false,
            inline_reversed: rtl,
            block_reversed: false,
        },
        WritingModeKeyword::SidewaysLr => WritingMode {
            horizontal: false,
            inline_reversed: !rtl,
            block_reversed: false,
        },
    }
}

/// A percentage in integer hundredths of a percent: 10000 is 100%.
#[derive(Debug, Copy, Clone, PartialEq, Eq, Structural)]
pub struct Percentage(pub i32);

/// A fixed length in app units.
#[derive(Debug, Copy, Clone, PartialEq, Eq, Structural)]
pub struct Length(pub Au);

impl Length {
    pub fn is_zero(&self) -> (r: bool)
        ensures
            r == (self.0.0 == 0),
    {
        self.0.0 == 0
    }

    pub fn zero() -> (r: Length)
        ensures
            r.0.0 == 0,
    {
        Length(Au(0))
    }
}

/// `floor(|a * b| / 10000)` with the sign of `a * b`: truncating
/// division, as a single mathematical statement.
pub open spec fn scale_trunc(a: int, b: int) -> int {
    let m = (abs_int(a) * abs_int(b)) / 10000;
    if (a < 0) != (b < 0) {
        -m
    } else {
        m
    }
}

pub open spec fn abs_int(x: int) -> int {
    if x < 0 {
        -x
    } else {
        x
    }
}

/// Scales `basis` by a percentage, truncating toward zero and
/// saturating into the app-unit range.
pub fn scale_by_percent(basis: Au, p: Percentage) -> (r: Au)
    ensures
        r.0 == clamp_i32(scale_trunc(basis.0 as int, p.0 as int)),
{
    let a_neg = basis.0 < 0;
    let b_neg = p.0 < 0;
    let a_mag: u64 = if a_neg {
        (-(basis.0 as i64)) as u64
    } else {
        basis.0 as u64
    };
    let b_mag: u64 = if b_neg {
        (-(p.0 as i64)) as u64
    } else {
        p.0 as u64
    };
    assert(a_mag * b_mag <= 0x8000_0000u64 * 0x8000_0000u64) by (nonlinear_arith)
        requires
            a_mag <= 0x8000_0000u64,
            b_mag <= 0x8000_0000u64,
    ;
    let m: u64 = (a_mag * b_mag) / 10000;
    let wide: i64 = if a_neg != b_neg {
        -(m as i64)
    } else {
        m as i64
    };
    Au(crate::geometry::clamp_to_i32(wide))
}

/// A length with an optional percentage component.
#[derive(Debug, Copy, Clone, PartialEq, Eq, Structural)]
pub struct LengthPercentage {
    pub fixed: Length,
    pub percentage: Option<Percentage>,
}

impl LengthPercentage {
    pub fn zero() -> (r: LengthPercentage)
        ensures
            r == LengthPercentage::spec_zero(),
    {
        LengthPercentage { fixed: Length(Au(0)), percentage: None }
    }

    pub open spec fn spec_zero() -> LengthPercentage {
        LengthPercentage { fixed: Length(Au(0)), percentage: None }
    }

    pub fn is_zero(&self) -> (r: bool)
        ensures
            r == (self.fixed.0.0 == 0 && self.percentage is None),
    {
        self.fixed.is_zero() && self.percentage.is_none()
    }

    /// The resolved value against a percentage-resolution basis.
    pub open spec fn spec_resolve(self, basis: Au) -> int {
        let scaled = match self.percentage {
            Some(p) => clamp_i32(scale_trunc(basis.0 as int, p.0 as int)),
            None => 0,
        };
        clamp_i32(self.fixed.0.0 + scaled)
    }

    pub fn resolve(&self, percentage_resolution_size: Au) -> (r: Au)
        ensures
            r.0 == self.spec_resolve(percentage_resolution_size),
    {
        let scaled = match self.percentage {
            Some(p) => scale_by_percent(percentage_resolution_size, p),
            None => Au(0),
        };
        self.fixed.0.saturating_add(scaled)
    }

    /// Resolves against a basis when one is present; a percentage with
    /// no basis does not resolve.
    pub fn maybe_resolve(&self, percentage_resolution_size: Option<Au>) -> (r: Option<Au>)
        ensures
            match self.percentage {
                Some(_) => match percentage_resolution_size {
                    Some(basis) => r == Some(Au(self.spec_resolve(basis) as i32)),
                    None => r is None,
                },
                None => r == Some(self.fixed.0),
            },
    {
        match self.percentage {
            Some(_) => match percentage_resolution_size {
                Some(basis) => Some(self.resolve(basis)),
                None => None,
            },
            None => Some(self.fixed.0),
        }
    }
}

#[derive(Debug, Copy, Clone, PartialEq, Eq, Structural)]
pub enum LengthPercentageOrAuto {
    LengthPercentage(LengthPercentage),
    Auto,
}

impl LengthPercentageOrAuto {
    pub fn auto() -> (r: LengthPercentageOrAuto)
        ensures
            r is Auto,
    {
        LengthPercentageOrAuto::Auto
    }

    pub fn is_auto(&self) -> (r: bool)
        ensures
            r == (self is Auto),
    {
        match *self {
            LengthPercentageOrAuto::Auto => true,
            LengthPercentageOrAuto::LengthPercentage(_) => false,
        }
    }

    pub open spec fn spec_is_zero(self) -> bool {
        match self {
            LengthPercentageOrAuto::LengthPercentage(lp) => lp.fixed.0.0 == 0 && lp.percentage
                is None,
            LengthPercentageOrAuto::Auto => false,
        }
    }

    pub fn is_zero(&self) -> (r: bool)
        ensures
            r == self.spec_is_zero(),
    {
        match *self {
            LengthPercentageOrAuto::LengthPercentage(ref lp) => lp.is_zero(),
            LengthPercentageOrAuto::Auto => false,
        }
    }

    pub fn is_zero_or_auto(&self) -> (r: bool)
        ensures
            r == (self is Auto || self.spec_is_zero()),
    {
        self.is_auto() || self.is_zero()
    }
}

#[derive(Debug, Copy, Clone, PartialEq, Eq, Structural)]
pub enum SizeKeyword {
    Auto,
    MinContent,
    MaxContent,
}

/// A sizing property value: a length-percentage or a keyword.
#[derive(Debug, Copy, Clone, PartialEq, Eq, Structural)]
pub enum Size {
    LengthPercentage(LengthPercentage),
    Keyword(SizeKeyword),
}

impl Size {
    pub fn auto() -> (r: Size)
        ensures
            r == Size::Keyword(SizeKeyword::Auto),
    {
        Size::Keyword(SizeKeyword::Auto)
    }
}

#[derive(Debug, Copy, Clone, PartialEq, Eq, Structural)]
pub enum PseudoElement {
    Before,
    After,
    Viewport,
    /// An anonymous block wrapping inline contents directly inside
    /// another block.
    InlineInsideBlockWrapper,
    /// An anonymous block wrapping a block inserted inside an inline.
    BlockInsideInlineWrapper,
    /// An anonymous inline box for the continuation of an inline.
    InlineContinuation,
}

impl PseudoElement {
    pub open spec fn spec_is_anonymous(self) -> bool {
        self != PseudoElement::Before && self != PseudoElement::After
    }

    /// Whether this pseudo tag marks a synthesized anonymous box.
    pub fn is_anonymous(self) -> (r: bool)
        ensures
            r == self.spec_is_anonymous(),
    {
        match self {
            PseudoElement::Before | PseudoElement::After => false,
            PseudoElement::Viewport
            | PseudoElement::InlineInsideBlockWrapper
            | PseudoElement::InlineContinuation
            | PseudoElement::BlockInsideInlineWrapper => true,
        }
    }
}

/// A style snapshot still under construction by the style system.
#[derive(Debug, Copy, Clone, PartialEq, Eq, Structural)]
pub struct MutableComputedStyle {
    pub pseudo: Option<PseudoElement>,
    pub writing_mode: WritingMode,
    pub display: Display,
    /// The display value before blockification; needed for
    /// hypothetical positions of out-of-flow boxes.
    pub original_display: Display,
    pub computed_writing_mode: WritingModeKeyword,
    pub position: Position,
    pub box_sizing: BoxSizing,
    pub float: Float,
    pub clear: Clear,
    pub overflow_x: Overflow,
    pub overflow_y: Overflow,
    pub direction: Direction,
    pub text_orientation: TextOrientation,
    pub width: Size,
    pub height: Size,
    pub min_width: Size,
    pub min_height: Size,
    pub max_width: Size,
    pub max_height: Size,
    pub padding_top: LengthPercentage,
    pub padding_right: LengthPercentage,
    pub padding_bottom: LengthPercentage,
    pub padding_left: LengthPercentage,
    pub margin_top: LengthPercentageOrAuto,
    pub margin_right: LengthPercentageOrAuto,
    pub margin_bottom: LengthPercentageOrAuto,
    pub margin_left: LengthPercentageOrAuto,
    pub border_top_width: Length,
    pub border_right_width: Length,
    pub border_bottom_width: Length,
    pub border_left_width: Length,
    pub border_top_style: BorderStyle,
    pub border_right_style: BorderStyle,
    pub border_bottom_style: BorderStyle,
    pub border_left_style: BorderStyle,
    pub top: LengthPercentage,
    pub right: LengthPercentage,
    pub bottom: LengthPercentage,
    pub left: LengthPercentage,
    pub white_space: WhiteSpace,
    pub font_size: Length,
    pub font_style: FontStyle,
    pub font_weight: FontWeight,
}

impl MutableComputedStyle {
    pub open spec fn spec_is_floating(self) -> bool {
        self.float != Float::NoFloat
    }

    pub fn is_floating(&self) -> (r: bool)
        ensures
            r == self.spec_is_floating(),
    {
        self.float != Float::NoFloat
    }

    pub fn is_out_of_flow_positioned(&self) -> (r: bool)
        ensures
            r == self.position.spec_is_out_of_flow(),
    {
        self.position.is_out_of_flow()
    }

    pub open spec fn spec_is_out_of_flow(self) -> bool {
        self.position.spec_is_out_of_flow() || self.spec_is_floating()
    }

    pub fn is_out_of_flow(&self) -> (r: bool)
        ensures
            r == self.spec_is_out_of_flow(),
    {
        self.is_out_of_flow_positioned() || self.is_floating()
    }

    /// The fixed-up final style: records the original display,
    /// reconciles the two overflow axes, and blockifies out-of-flow
    /// boxes and the root element's box.
    ///
    /// The overflow reconciliation is inherited from the modeled
    /// system as it stands: when the two axes differ and one is
    /// Visible, the other axis is coerced to Auto and the Visible one
    /// is kept, rather than coercing the Visible axis itself.
    pub fn finish(self, is_root_element: bool) -> (r: ComputedStyle)
        ensures
            r == self.spec_finish(is_root_element),
    {
        let mut this = self;
        this.original_display = this.display;
        if this.overflow_x != this.overflow_y {
            if this.overflow_x == Overflow::Visible {
                this.overflow_y = Overflow::Auto;
            }
            if this.overflow_y == Overflow::Visible {
                this.overflow_x = Overflow::Auto;
            }
        }
        if this.is_out_of_flow() || is_root_element {
            this.display = this.display.blockify();
        }
        ComputedStyle {
            pseudo: this.pseudo,
            writing_mode: this.writing_mode,
            display: this.display,
            original_display: this.original_display,
            computed_writing_mode: this.computed_writing_mode,
            position: this.position,
            box_sizing: this.box_sizing,
            float: this.float,
            clear: this.clear,
            overflow_x: this.overflow_x,
            overflow_y: this.overflow_y,
            direction: this.direction,
            text_orientation: this.text_orientation,
            width: this.width,
            height: this.height,
            min_width: this.min_width,
            min_height: this.min_height,
            max_width: this.max_width,
            max_height: this.max_height,
            padding_top: this.padding_top,
            padding_right: this.padding_right,
            padding_bottom: this.padding_bottom,
            padding_left: this.padding_left,
            margin_top: this.margin_top,
            margin_right: this.margin_right,
            margin_bottom: this.margin_bottom,
            margin_left: this.margin_left,
            border_top_width: this.border_top_width,
            border_right_width: this.border_right_width,
            border_bottom_width: this.border_bottom_width,
            border_left_width: this.border_left_width,
            border_top_style: this.border_top_style,
            border_right_style: this.border_right_style,
            border_bottom_style: this.border_bottom_style,
            border_left_style: this.border_left_style,
            top: this.top,
            right: this.right,
            bottom: this.bottom,
            left: this.left,
            white_space: this.white_space,
            font_size: this.font_size,
            font_style: this.font_style,
            font_weight: this.font_weight,
        }
    }

    pub open spec fn spec_finish(self, is_root_element: bool) -> ComputedStyle {
        let overflow_x = if self.overflow_x != self.overflow_y && self.overflow_y
            == Overflow::Visible {
            Overflow::Auto
        } else {
            self.overflow_x
        };
        let overflow_y = if self.overflow_x != self.overflow_y && self.overflow_x
            == Overflow::Visible {
            Overflow::Auto
        } else {
            self.overflow_y
        };
        let display = if self.spec_is_out_of_flow() || is_root_element {
            self.display.spec_blockify()
        } else {
            self.display
        };
        ComputedStyle {
            pseudo: self.pseudo,
            writing_mode: self.writing_mode,
            display,
            original_display: self.display,
            computed_writing_mode: self.computed_writing_mode,
            position: self.position,
            box_sizing: self.box_sizing,
            float: self.float,
            clear: self.clear,
            overflow_x,
            overflow_y,
            direction: self.direction,
            text_orientation: self.text_orientation,
            width: self.width,
            height: self.height,
            min_width: self.min_width,
            min_height: self.min_height,
            max_width: self.max_width,
            max_height: self.max_height,
            padding_top: self.padding_top,
            padding_right: self.padding_right,
            padding_bottom: self.padding_bottom,
            padding_left: self.padding_left,
            margin_top: self.margin_top,
            margin_right: self.margin_right,
            margin_bottom: self.margin_bottom,
            margin_left: self.margin_left,
            border_top_width: self.border_top_width,
            border_right_width: self.border_right_width,
            border_bottom_width: self.border_bottom_width,
            border_left_width: self.border_left_width,
            border_top_style: self.border_top_style,
            border_right_style: self.border_right_style,
            border_bottom_style: self.border_bottom_style,
            border_left_style: self.border_left_style,
            top: self.top,
            right: self.right,
            bottom: self.bottom,
            left: self.left,
            white_space: self.white_space,
            font_size: self.font_size,
            font_style: self.font_style,
            font_weight: self.font_weight,
        }
    }
}

/// A finished style snapshot. Once produced it is treated as an
/// immutable value: nothing in this crate mutates one in place.
#[derive(Debug, Copy, Clone, PartialEq, Eq, Structural)]
pub struct ComputedStyle {
    pub pseudo: Option<PseudoElement>,
    pub writing_mode: WritingMode,
    pub display: Display,
    /// The display value before blockification.
    pub original_display: Display,
    pub computed_writing_mode: WritingModeKeyword,
    pub position: Position,
    pub box_sizing: BoxSizing,
    pub float: Float,
    pub clear: Clear,
    pub overflow_x: Overflow,
    pub overflow_y: Overflow,
    pub direction: Direction,
    pub text_orientation: TextOrientation,
    pub width: Size,
    pub height: Size,
    pub min_width: Size,
    pub min_height: Size,
    pub max_width: Size,
    pub max_height: Size,
    pub padding_top: LengthPercentage,
    pub padding_right: LengthPercentage,
    pub padding_bottom: LengthPercentage,
    pub padding_left: LengthPercentage,
    pub margin_top: LengthPercentageOrAuto,
    pub margin_right: LengthPercentageOrAuto,
    pub margin_bottom: LengthPercentageOrAuto,
    pub margin_left: LengthPercentageOrAuto,
    pub border_top_width: Length,
    pub border_right_width: Length,
    pub border_bottom_width: Length,
    pub border_left_width: Length,
    pub border_top_style: BorderStyle,
    pub border_right_style: BorderStyle,
    pub border_bottom_style: BorderStyle,
    pub border_left_style: BorderStyle,
    pub top: LengthPercentage,
    pub right: LengthPercentage,
    pub bottom: LengthPercentage,
    pub left: LengthPercentage,
    pub white_space: WhiteSpace,
    pub font_size: Length,
    pub font_style: FontStyle,
    pub font_weight: FontWeight,
}

impl ComputedStyle {
    /// The initial style: every property at its initial value.
    pub fn initial() -> (r: MutableComputedStyle)
        ensures
            r == ComputedStyle::spec_initial(),
    {
        MutableComputedStyle {
            pseudo: None,
            writing_mode: used_writing_mode(
                Direction::Ltr,
                WritingModeKeyword::HorizontalTb,
                TextOrientation::Mixed,
            ),
            display: Display::inline(),
            original_display: Display::inline(),
            computed_writing_mode: WritingModeKeyword::HorizontalTb,
            position: Position::Static,
            box_sizing: BoxSizing::ContentBox,
            float: Float::NoFloat,
            clear: Clear::NoClear,
            overflow_x: Overflow::Visible,
            overflow_y: Overflow::Visible,
            direction: Direction::Ltr,
            text_orientation: TextOrientation::Mixed,
            width: Size::auto(),
            height: Size::auto(),
            min_width: Size::auto(),
            min_height: Size::auto(),
            max_width: Size::auto(),
            max_height: Size::auto(),
            padding_top: LengthPercentage::zero(),
            padding_right: LengthPercentage::zero(),
            padding_bottom: LengthPercentage::zero(),
            padding_left: LengthPercentage::zero(),
            margin_top: LengthPercentageOrAuto::Auto,
            margin_right: LengthPercentageOrAuto::Auto,
            margin_bottom: LengthPercentageOrAuto::Auto,
            margin_left: LengthPercentageOrAuto::Auto,
            border_top_width: Length::zero(),
            border_right_width: Length::zero(),
            border_bottom_width: Length::zero(),
            border_left_width: Length::zero(),
            border_top_style: BorderStyle::NoBorder,
            border_right_style: BorderStyle::NoBorder,
            border_bottom_style: BorderStyle::NoBorder,
            border_left_style: BorderStyle::NoBorder,
            top: LengthPercentage::zero(),
            right: LengthPercentage::zero(),
            bottom: LengthPercentage::zero(),
            left: LengthPercentage::zero(),
            white_space: WhiteSpace::Normal,
            font_size: Length(Au(960)),
            font_style: FontStyle::Normal,
            font_weight: FontWeight::Normal,
        }
    }

    pub open spec fn spec_initial() -> MutableComputedStyle {
        MutableComputedStyle {
            pseudo: None,
            writing_mode: spec_used_writing_mode(Direction::Ltr, WritingModeKeyword::HorizontalTb),
            display: Display {
                outside: DisplayOutside::Inline,
                inside: DisplayInside::Flow,
                is_list_item: false,
            },
            original_display: Display {
                outside: DisplayOutside::Inline,
                inside: DisplayInside::Flow,
                is_list_item: false,
            },
            computed_writing_mode: WritingModeKeyword::HorizontalTb,
            position: Position::Static,
            box_sizing: BoxSizing::ContentBox,
            float: Float::NoFloat,
            clear: Clear::NoClear,
            overflow_x: Overflow::Visible,
            overflow_y: Overflow::Visible,
            direction: Direction::Ltr,
            text_orientation: TextOrientation::Mixed,
            width: Size::Keyword(SizeKeyword::Auto),
            height: Size::Keyword(SizeKeyword::Auto),
            min_width: Size::Keyword(SizeKeyword::Auto),
            min_height: Size::Keyword(SizeKeyword::Auto),
            max_width: Size::Keyword(SizeKeyword::Auto),
            max_height: Size::Keyword(SizeKeyword::Auto),
            padding_top: LengthPercentage::spec_zero(),
            padding_right: LengthPercentage::spec_zero(),
            padding_bottom: LengthPercentage::spec_zero(),
            padding_left: LengthPercentage::spec_zero(),
            margin_top: LengthPercentageOrAuto::Auto,
            margin_right: LengthPercentageOrAuto::Auto,
            margin_bottom: LengthPercentageOrAuto::Auto,
            margin_left: LengthPercentageOrAuto::Auto,
            border_top_width: Length(Au(0)),
            border_right_width: Length(Au(0)),
            border_bottom_width: Length(Au(0)),
            border_left_width: Length(Au(0)),
            border_top_style: BorderStyle::NoBorder,
            border_right_style: BorderStyle::NoBorder,
            border_bottom_style: BorderStyle::NoBorder,
            border_left_style: BorderStyle::NoBorder,
            top: LengthPercentage::spec_zero(),
            right: LengthPercentage::spec_zero(),
            bottom: LengthPercentage::spec_zero(),
            left: LengthPercentage::spec_zero(),
            white_space: WhiteSpace::Normal,
            font_size: Length(Au(960)),
            font_style: FontStyle::Normal,
            font_weight: FontWeight::Normal,
        }
    }

    /// A fresh style inheriting the inherited properties from `self`
    /// and resetting every other property to its initial value.
    pub fn inherited(&self) -> (r: MutableComputedStyle)
        ensures
            r == (MutableComputedStyle {
                direction: self.direction,
                writing_mode: self.writing_mode,
                text_orientation: self.text_orientation,
                computed_writing_mode: self.computed_writing_mode,
                white_space: self.white_space,
                font_size: self.font_size,
                font_style: self.font_style,
                font_weight: self.font_weight,
                ..ComputedStyle::spec_initial()
            }),
    {
        let mut style = ComputedStyle::initial();
        style.direction = self.direction;
        style.writing_mode = self.writing_mode;
        style.text_orientation = self.text_orientation;
        style.computed_writing_mode = self.computed_writing_mode;
        style.white_space = self.white_space;
        style.font_size = self.font_size;
        style.font_style = self.font_style;
        style.font_weight = self.font_weight;
        style
    }

    pub open spec fn spec_new_anonymous(pseudo: PseudoElement, display: Display) -> ComputedStyle {
        MutableComputedStyle {
            pseudo: Some(pseudo),
            display,
            original_display: display,
            ..ComputedStyle::spec_initial()
        }.spec_finish(false)
    }

    /// A synthesized style for an anonymous box.
    pub fn new_anonymous(pseudo: PseudoElement, display: Display) -> (r: ComputedStyle)
        requires
            pseudo.spec_is_anonymous(),
        ensures
            r == ComputedStyle::spec_new_anonymous(pseudo, display),
    {
        let mut style = ComputedStyle::initial();
        style.pseudo = Some(pseudo);
        style.display = display;
        style.original_display = display;
        style.finish(false)
    }

    /// The style of the viewport root box.
    pub fn for_viewport() -> (r: ComputedStyle)
        ensures
            r == ComputedStyle::spec_new_anonymous(
                PseudoElement::Viewport,
                Display {
                    outside: DisplayOutside::Block,
                    inside: DisplayInside::Flow,
                    is_list_item: false,
                },
            ),
    {
        ComputedStyle::new_anonymous(PseudoElement::Viewport, Display::block())
    }

    /// The style of the anonymous block holding a block inserted
    /// inside an inline.
    pub fn for_ib_split_block_wrapper() -> (r: ComputedStyle)
        ensures
            r == ComputedStyle::spec_new_anonymous(
                PseudoElement::BlockInsideInlineWrapper,
                Display {
                    outside: DisplayOutside::Block,
                    inside: DisplayInside::Flow,
                    is_list_item: false,
                },
            ),
    {
        ComputedStyle::new_anonymous(PseudoElement::BlockInsideInlineWrapper, Display::block())
    }

    /// The style of the anonymous block wrapping inline content inside
    /// a block.
    pub fn for_inline_inside_block_wrapper() -> (r: ComputedStyle)
        ensures
            r == ComputedStyle::spec_new_anonymous(
                PseudoElement::InlineInsideBlockWrapper,
                Display {
                    outside: DisplayOutside::Block,
                    inside: DisplayInside::Flow,
                    is_list_item: false,
                },
            ),
    {
        ComputedStyle::new_anonymous(PseudoElement::InlineInsideBlockWrapper, Display::block())
    }

    pub open spec fn spec_is_floating(self) -> bool {
        self.float != Float::NoFloat
    }

    pub fn is_floating(&self) -> (r: bool)
        ensures
            r == self.spec_is_floating(),
    {
        self.float != Float::NoFloat
    }

    pub fn is_out_of_flow_positioned(&self) -> (r: bool)
        ensures
            r == self.position.spec_is_out_of_flow(),
    {
        self.position.is_out_of_flow()
    }

    pub open spec fn spec_is_out_of_flow(self) -> bool {
        self.position.spec_is_out_of_flow() || self.spec_is_floating()
    }

    pub fn is_out_of_flow(&self) -> (r: bool)
        ensures
            r == self.spec_is_out_of_flow(),
    {
        self.is_out_of_flow_positioned() || self.is_floating()
    }

    pub open spec fn spec_is_in_flow(self) -> bool {
        !self.spec_is_out_of_flow()
    }

    pub fn is_ib_split_wrapper(&self) -> (r: bool)
        ensures
            r == (self.pseudo == Some(PseudoElement::BlockInsideInlineWrapper)),
    {
        self.pseudo == Some(PseudoElement::BlockInsideInlineWrapper)
    }

    pub open spec fn spec_is_anonymous(self) -> bool {
        match self.pseudo {
            Some(p) => p.spec_is_anonymous(),
            None => false,
        }
    }

    pub fn is_anonymous(&self) -> (r: bool)
        ensures
            r == self.spec_is_anonymous(),
    {
        match self.pseudo {
            Some(p) => p.is_anonymous(),
            None => false,
        }
    }

    pub fn physical_padding(&self) -> (r: PhysicalSides<LengthPercentage>)
        ensures
            r == (PhysicalSides {
                top: self.padding_top,
                right: self.padding_right,
                bottom: self.padding_bottom,
                left: self.padding_left,
            }),
    {
        PhysicalSides {
            top: self.padding_top,
            right: self.padding_right,
            bottom: self.padding_bottom,
            left: self.padding_left,
        }
    }

    pub fn physical_margin(&self) -> (r: PhysicalSides<LengthPercentageOrAuto>)
        ensures
            r == (PhysicalSides {
                top: self.margin_top,
                right: self.margin_right,
                bottom: self.margin_bottom,
                left: self.margin_left,
            }),
    {
        PhysicalSides {
            top: self.margin_top,
            right: self.margin_right,
            bottom: self.margin_bottom,
            left: self.margin_left,
        }
    }

    pub fn physical_border_widths(&self) -> (r: PhysicalSides<Au>)
        ensures
            r == (PhysicalSides {
                top: self.border_top_width.0,
                right: self.border_right_width.0,
                bottom: self.border_bottom_width.0,
                left: self.border_left_width.0,
            }),
    {
        PhysicalSides {
            top: self.border_top_width.0,
            right: self.border_right_width.0,
            bottom: self.border_bottom_width.0,
            left: self.border_left_width.0,
        }
    }

    /// The sizing properties along this style's logical axes.
    pub fn size(&self) -> (r: LogicalSize<Size>)
        ensures
            r == LogicalSize::spec_from_physical(
                self.writing_mode,
                PhysicalSize { width: self.width, height: self.height },
            ),
    {
        LogicalSize::from_physical(
            self.writing_mode,
            PhysicalSize { width: self.width, height: self.height },
        )
    }

    pub fn max_size(&self) -> (r: LogicalSize<Size>)
        ensures
            r == LogicalSize::spec_from_physical(
                self.writing_mode,
                PhysicalSize { width: self.max_width, height: self.max_height },
            ),
    {
        LogicalSize::from_physical(
            self.writing_mode,
            PhysicalSize { width: self.max_width, height: self.max_height },
        )
    }

    pub fn min_size(&self) -> (r: LogicalSize<Size>)
        ensures
            r == LogicalSize::spec_from_physical(
                self.writing_mode,
                PhysicalSize { width: self.min_width, height: self.min_height },
            ),
    {
        LogicalSize::from_physical(
            self.writing_mode,
            PhysicalSize { width: self.min_width, height: self.min_height },
        )
    }

    /// The margin properties along this style's logical axes.
    pub fn margin(&self) -> (r: LogicalMargin<LengthPercentageOrAuto>)
        ensures
            r == LogicalMargin::spec_from_physical(
                self.writing_mode,
                PhysicalSides {
                    top: self.margin_top,
                    right: self.margin_right,
                    bottom: self.margin_bottom,
                    left: self.margin_left,
                },
            ),
    {
        LogicalMargin::from_physical(self.writing_mode, self.physical_margin())
    }

    /// The padding properties along this style's logical axes.
    pub fn padding(&self) -> (r: LogicalMargin<LengthPercentage>)
        ensures
            r == LogicalMargin::spec_from_physical(
                self.writing_mode,
                PhysicalSides {
                    top: self.padding_top,
                    right: self.padding_right,
                    bottom: self.padding_bottom,
                    left: self.padding_left,
                },
            ),
    {
        LogicalMargin::from_physical(self.writing_mode, self.physical_padding())
    }

    /// The used border widths along this style's logical axes.
    pub fn border_widths(&self) -> (r: LogicalMargin<Au>)
        ensures
            r == LogicalMargin::spec_from_physical(
                self.writing_mode,
                PhysicalSides {
                    top: self.border_top_width.0,
                    right: self.border_right_width.0,
                    bottom: self.border_bottom_width.0,
                    left: self.border_left_width.0,
                },
            ),
    {
        LogicalMargin::from_physical(self.writing_mode, self.physical_border_widths())
    }
}

} // verus!
