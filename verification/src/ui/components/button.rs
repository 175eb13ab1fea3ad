//! The sizes, styles and tints of buttons.
use vstd::prelude::*;

verus! {

/// The size of a button.
#[derive(Debug, Clone, Copy, PartialEq, Eq, Structural)]
pub enum ButtonSize {
    Large,
    Default,
    Compact,
    /// The smallest size, without padding.
    Plain,
}

/// The color a tinted button is given.
#[derive(Debug, Clone, Copy, PartialEq, Eq, Structural)]
pub enum TintColor {
    Accent,
    Error,
    Warning,
    Success,
}

/// The visual style of a button.
#[derive(Debug, Clone, Copy, PartialEq, Eq, Structural)]
pub enum ButtonStyle {
    /// A filled button with a solid background color.
    Filled,
    /// A button colored to stand out, like a selected state, an error or a success.
    Tinted(TintColor),
    /// The default style: a transparent background that shows hover and active states.
    Subtle,
    /// Only the foreground color changes on hover and active states.
    Transparent,
}

impl Default for ButtonSize {
    fn default() -> (r: Self)
        ensures
            r == ButtonSize::Default,
    {
        ButtonSize::Default
    }
}

impl Default for TintColor {
    fn default() -> (r: Self)
        ensures
            r == TintColor::Accent,
    {
        TintColor::Accent
    }
}

impl Default for ButtonStyle {
    fn default() -> (r: Self)
        ensures
            r == ButtonStyle::Subtle,
    {
        ButtonStyle::Subtle
    }
}

} // verus!
