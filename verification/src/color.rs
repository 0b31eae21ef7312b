//! Colors as they are painted.
use vstd::prelude::*;

verus! {

/// A color with its alpha multiplied into the other channels.
#[derive(Clone, Copy, Debug, PartialEq, Eq, Structural)]
pub struct Color {
    /// Red, multiplied by alpha.
    pub r: u8,
    /// Green, multiplied by alpha.
    pub g: u8,
    /// Blue, multiplied by alpha.
    pub b: u8,
    /// Opacity.
    pub a: u8,
}

/// `channel * alpha / 255`, rounded to the nearest integer. There is no tie: 255
/// is odd.
pub open spec fn attenuated(channel: u8, alpha: u8) -> u8 {
    ((2 * channel * alpha + 255) / 510) as u8
}

impl Color {
    /// The color that shows the channels `r`, `g` and `b` at opacity `a`.
    pub open spec fn faded(r: u8, g: u8, b: u8, a: u8) -> Color {
        Color { r: attenuated(r, a), g: attenuated(g, a), b: attenuated(b, a), a }
    }

    /// An opaque color.
    #[verifier::allow_in_spec]
    pub fn opaque(r: u8, g: u8, b: u8) -> (color: Color)
        returns
            (Color { r, g, b, a: 255 }),
    {
        Color { r, g, b, a: 255 }
    }

    /// No color at all.
    #[verifier::allow_in_spec]
    pub fn transparent() -> (color: Color)
        returns
            (Color { r: 0, g: 0, b: 0, a: 0 }),
    {
        Color { r: 0, g: 0, b: 0, a: 0 }
    }
}

/// Calls `egui::Color32::from_rgba_unmultiplied`, which keeps the alpha channel
/// and multiplies each of the others by it with rounding, and reads the four
/// channels of the result.
#[verifier::external_body]
pub(crate) fn from_rgba_unmultiplied(r: u8, g: u8, b: u8, a: u8) -> (color: Color)
    ensures
        color == Color::faded(r, g, b, a),
{
    let [r, g, b, a] = egui::Color32::from_rgba_unmultiplied(r, g, b, a).to_array();
    Color { r, g, b, a }
}

/// Fading keeps the opacity and brings every channel to the integer next to
/// `channel * a / 255`.
pub proof fn law_fading(r: u8, g: u8, b: u8, a: u8)
    ensures
        Color::faded(r, g, b, a).a == a,
        -127 <= 255 * Color::faded(r, g, b, a).r - r * a <= 127,
        -127 <= 255 * Color::faded(r, g, b, a).g - g * a <= 127,
        -127 <= 255 * Color::faded(r, g, b, a).b - b * a <= 127,
{
    lemma_attenuated(r, a);
    lemma_attenuated(g, a);
    lemma_attenuated(b, a);
}

/// A channel that is faded is off by less than half a step.
proof fn lemma_attenuated(channel: u8, alpha: u8)
    ensures
        -127 <= 255 * attenuated(channel, alpha) - channel * alpha <= 127,
{
    assert(channel * alpha <= 255 * 255) by (nonlinear_arith)
        requires
            channel <= 255,
            alpha <= 255,
    ;
    assert(channel * alpha >= 0) by (nonlinear_arith);
    assert(2 * channel * alpha == 2 * (channel * alpha)) by (nonlinear_arith);
}

/// An opaque color shows its channels as they are, and the transparent one
/// nothing.
pub proof fn law_plain_colors(r: u8, g: u8, b: u8)
    ensures
        Color::opaque(r, g, b).r == r,
        Color::opaque(r, g, b).g == g,
        Color::opaque(r, g, b).b == b,
        Color::opaque(r, g, b).a == 255,
        Color::opaque(r, g, b) == Color::faded(r, g, b, 255),
        Color::transparent() == Color::faded(r, g, b, 0),
{
}

} // verus!
