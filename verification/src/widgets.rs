//! The two controls in the corners of the window: what they look like, where
//! they are, and what they ask for when they are used.
use crate::binary32::Binary32;
use crate::color::{from_rgba_unmultiplied, Color};
use crate::geometry::{Pos2, Rect, Vec2};
use vstd::arithmetic::power2::*;
use vstd::prelude::*;

verus! {

/// A shape to be painted.
#[derive(Clone, Copy, Debug, PartialEq, Eq, Structural)]
pub enum Shape {
    /// A straight line.
    Segment { from: Pos2, to: Pos2, width: Binary32, color: Color },
    /// A filled rectangle with rounded corners.
    FilledRect { rect: Rect, corner_radius: Binary32, color: Color },
}

/// The mouse cursor to be shown.
#[derive(Clone, Copy, Debug, PartialEq, Eq, Structural)]
pub enum CursorIcon {
    /// The arrow along the diagonal that runs down to the right.
    ResizeNwSe,
    /// The hand that points.
    PointingHand,
}

/// Something asked of the window.
#[derive(Clone, Copy, Debug, PartialEq, Eq, Structural)]
pub enum Command {
    /// Let the window follow the pointer.
    StartDrag,
    /// Let the right bottom corner follow the pointer.
    BeginResizeSouthEast,
    /// Close the window.
    Close,
    /// Show this cursor.
    Cursor(CursorIcon),
    /// Paint another frame.
    Repaint,
    /// Paint another frame after so many milliseconds at the latest.
    RepaintAfter(u64),
}

/// What a control takes notice of.
#[derive(Clone, Copy, Debug, PartialEq, Eq, Structural)]
pub enum Sense {
    /// Clicks.
    Click,
    /// Drags.
    Drag,
    /// Both.
    ClickAndDrag,
}

/// How a control is to be registered, once in each frame.
#[derive(Clone, Copy, Debug, PartialEq, Eq)]
pub struct Interaction {
    /// Where the control is.
    pub rect: Rect,
    /// What tells the control from the others, below the id of what it stands in.
    pub id: &'static str,
    /// What it takes notice of.
    pub sense: Sense,
}

impl Interaction {
    /// The interaction has this area, id and sense.
    pub open spec fn describes(self, rect: Rect, id: Seq<char>, sense: Sense) -> bool {
        self.rect == rect && self.id@ == id && self.sense == sense
    }
}

/// What a control paints and asks for in one frame, each in this order.
#[derive(Debug)]
pub struct Drawing {
    /// The shapes, the first one at the bottom.
    pub shapes: Vec<Shape>,
    /// The commands, which follow the painting.
    pub commands: Vec<Command>,
}

/// Side of the resize grip: 14 points.
#[verifier::allow_in_spec]
pub fn grip_size() -> (size: Binary32)
    returns
        (Binary32 { bits: 0x4160_0000 }),
{
    Binary32 { bits: 0x4160_0000 }
}

/// How long the inner line of the resize grip is, of the outer one: 0.55.
#[verifier::allow_in_spec]
pub fn inner_ratio() -> (ratio: Binary32)
    returns
        (Binary32 { bits: 0x3f0c_cccd }),
{
    Binary32 { bits: 0x3f0c_cccd }
}

/// Side of the close button: 20 points.
#[verifier::allow_in_spec]
pub fn close_size() -> (size: Binary32)
    returns
        (Binary32 { bits: 0x41a0_0000 }),
{
    Binary32 { bits: 0x41a0_0000 }
}

/// Distance of the close button from the window's edges, and the radius of its
/// corners: 4 points.
#[verifier::allow_in_spec]
pub fn close_inset() -> (inset: Binary32)
    returns
        (Binary32 { bits: 0x4080_0000 }),
{
    Binary32 { bits: 0x4080_0000 }
}

/// Distance of the cross from the close button's edges: 5 points.
#[verifier::allow_in_spec]
pub fn cross_margin() -> (margin: Binary32)
    returns
        (Binary32 { bits: 0x40a0_0000 }),
{
    Binary32 { bits: 0x40a0_0000 }
}

/// Width of the lines of both controls: 1.5 points.
#[verifier::allow_in_spec]
pub fn stroke_width() -> (width: Binary32)
    returns
        (Binary32 { bits: 0x3fc0_0000 }),
{
    Binary32 { bits: 0x3fc0_0000 }
}

/// The resize grip: a square in the right bottom corner of the panel.
pub open spec fn grip_area(panel: Rect) -> Rect {
    Rect::sized(
        (Pos2 {
            x: panel.max.x.difference(grip_size()),
            y: panel.max.y.difference(grip_size()),
        }),
        Vec2::splat(grip_size()),
    )
}

/// The close button: a square near the right top corner of the panel.
pub open spec fn close_area(panel: Rect) -> Rect {
    Rect::sized(
        (Pos2 {
            x: panel.max.x.difference(close_size()).difference(close_inset()),
            y: panel.min.y.sum(close_inset()),
        }),
        Vec2::splat(close_size()),
    )
}

/// A diagonal line across a corner, `length` away from it along both sides.
pub open spec fn corner_line(corner: Pos2, length: Binary32) -> Shape {
    Shape::Segment {
        from: corner.moved_back((Vec2 { x: length, y: Binary32::zero() })),
        to: corner.moved_back((Vec2 { x: Binary32::zero(), y: length })),
        width: stroke_width(),
        color: Color::faded(180, 180, 200, 160),
    }
}

/// The two lines of the resize grip.
pub open spec fn grip_shapes(panel: Rect) -> Seq<Shape> {
    let corner = grip_area(panel).max;
    seq![
        corner_line(corner, grip_size()),
        corner_line(corner, grip_size().product(inner_ratio())),
    ]
}

/// What the resize grip asks for.
pub open spec fn grip_commands(drag_started: bool, hovered: bool) -> Seq<Command> {
    let resize = if drag_started {
        seq![Command::BeginResizeSouthEast]
    } else {
        seq![]
    };
    let hover = if hovered {
        seq![Command::Cursor(CursorIcon::ResizeNwSe), Command::Repaint]
    } else {
        seq![]
    };
    resize + hover
}

/// The close button's background: red under the pointer.
pub open spec fn close_background(hovered: bool) -> Color {
    if hovered {
        Color::faded(210, 50, 50, 220)
    } else {
        Color::faded(80, 80, 100, 140)
    }
}

/// The close button's background and the two lines of its cross.
pub open spec fn close_shapes(panel: Rect, hovered: bool) -> Seq<Shape> {
    let button = close_area(panel);
    let margin = Vec2::splat(cross_margin());
    seq![
        Shape::FilledRect {
            rect: button,
            corner_radius: close_inset(),
            color: close_background(hovered),
        },
        Shape::Segment {
            from: button.min.moved(margin),
            to: button.max.moved_back(margin),
            width: stroke_width(),
            color: Color::opaque(230, 230, 235),
        },
        Shape::Segment {
            from: (Pos2 {
                x: button.max.x.difference(cross_margin()),
                y: button.min.y.sum(cross_margin()),
            }),
            to: (Pos2 {
                x: button.min.x.sum(cross_margin()),
                y: button.max.y.difference(cross_margin()),
            }),
            width: stroke_width(),
            color: Color::opaque(230, 230, 235),
        },
    ]
}

/// What the close button asks for.
pub open spec fn close_commands(clicked: bool, hovered: bool) -> Seq<Command> {
    let close = if clicked {
        seq![Command::Close]
    } else {
        seq![]
    };
    let hover = if hovered {
        seq![Command::Cursor(CursorIcon::PointingHand), Command::Repaint]
    } else {
        seq![]
    };
    close + hover
}

/// Where the resize grip is.
pub fn resize_grip_rect(panel: Rect) -> (rect: Rect)
    ensures
        rect == grip_area(panel),
{
    Rect::from_min_size(
        Pos2 { x: panel.max.x.minus(grip_size()), y: panel.max.y.minus(grip_size()) },
        Vec2::splat(grip_size()),
    )
}

/// Where the close button is.
pub fn close_button_rect(panel: Rect) -> (rect: Rect)
    ensures
        rect == close_area(panel),
{
    Rect::from_min_size(
        Pos2 {
            x: panel.max.x.minus(close_size()).minus(close_inset()),
            y: panel.min.y.plus(close_inset()),
        },
        Vec2::splat(close_size()),
    )
}

/// How the resize grip is registered.
pub fn resize_grip_interaction(panel: Rect) -> (interaction: Interaction)
    ensures
        interaction.describes(grip_area(panel), "resize_grip"@, Sense::ClickAndDrag),
        interaction.rect == grip_area(panel),
        interaction.id@ == "resize_grip"@,
        interaction.sense == Sense::ClickAndDrag,
{
    Interaction { rect: resize_grip_rect(panel), id: "resize_grip", sense: Sense::ClickAndDrag }
}

/// How the close button is registered.
pub fn close_button_interaction(panel: Rect) -> (interaction: Interaction)
    ensures
        interaction.describes(close_area(panel), "close_button"@, Sense::Click),
        interaction.rect == close_area(panel),
        interaction.id@ == "close_button"@,
        interaction.sense == Sense::Click,
{
    Interaction { rect: close_button_rect(panel), id: "close_button", sense: Sense::Click }
}

/// How the invisible area that lets the whole panel be dragged is registered.
pub fn drag_area_interaction(panel: Rect) -> (interaction: Interaction)
    ensures
        interaction.describes(panel, "drag"@, Sense::Drag),
        interaction.rect == panel,
        interaction.id@ == "drag"@,
        interaction.sense == Sense::Drag,
{
    Interaction { rect: panel, id: "drag", sense: Sense::Drag }
}

/// A diagonal line across a corner.
fn line_across(corner: Pos2, length: Binary32, color: Color) -> (shape: Shape)
    requires
        color == Color::faded(180, 180, 200, 160),
    ensures
        shape == corner_line(corner, length),
{
    Shape::Segment {
        from: corner.minus(Vec2 { x: length, y: Binary32::zero() }),
        to: corner.minus(Vec2 { x: Binary32::zero(), y: length }),
        width: stroke_width(),
        color,
    }
}

/// The resize grip of a panel, given how the pointer uses it.
pub fn draw_resize_grip(panel: Rect, drag_started: bool, hovered: bool) -> (drawing: Drawing)
    ensures
        drawing.shapes@ == grip_shapes(panel),
        drawing.commands@ == grip_commands(drag_started, hovered),
{
    let corner: Pos2 = resize_grip_rect(panel).max;
    let color: Color = from_rgba_unmultiplied(180, 180, 200, 160);
    let mut shapes: Vec<Shape> = Vec::new();
    shapes.push(line_across(corner, grip_size(), color));
    shapes.push(line_across(corner, grip_size().times(inner_ratio()), color));
    let mut commands: Vec<Command> = Vec::new();
    if drag_started {
        commands.push(Command::BeginResizeSouthEast);
    }
    if hovered {
        commands.push(Command::Cursor(CursorIcon::ResizeNwSe));
        commands.push(Command::Repaint);
    }
    Drawing { shapes, commands }
}

/// The close button of a panel, given how the pointer uses it.
pub fn draw_close_button(panel: Rect, clicked: bool, hovered: bool) -> (drawing: Drawing)
    ensures
        drawing.shapes@ == close_shapes(panel, hovered),
        drawing.commands@ == close_commands(clicked, hovered),
{
    let button: Rect = close_button_rect(panel);
    let background: Color = if hovered {
        from_rgba_unmultiplied(210, 50, 50, 220)
    } else {
        from_rgba_unmultiplied(80, 80, 100, 140)
    };
    let margin: Vec2 = Vec2::splat(cross_margin());
    let cross: Color = Color::opaque(230, 230, 235);
    let mut shapes: Vec<Shape> = Vec::new();
    shapes.push(
        Shape::FilledRect { rect: button, corner_radius: close_inset(), color: background },
    );
    shapes.push(
        Shape::Segment {
            from: button.min.plus(margin),
            to: button.max.minus(margin),
            width: stroke_width(),
            color: cross,
        },
    );
    shapes.push(
        Shape::Segment {
            from: Pos2 {
                x: button.max.x.minus(cross_margin()),
                y: button.min.y.plus(cross_margin()),
            },
            to: Pos2 {
                x: button.min.x.plus(cross_margin()),
                y: button.max.y.minus(cross_margin()),
            },
            width: stroke_width(),
            color: cross,
        },
    );
    let mut commands: Vec<Command> = Vec::new();
    if clicked {
        commands.push(Command::Close);
    }
    if hovered {
        commands.push(Command::Cursor(CursorIcon::PointingHand));
        commands.push(Command::Repaint);
    }
    Drawing { shapes, commands }
}

/// What the invisible drag area asks for.
pub fn drag_area(drag_started: bool) -> (command: Option<Command>)
    ensures
        command == if drag_started {
            Some(Command::StartDrag)
        } else {
            None
        },
{
    if drag_started {
        Some(Command::StartDrag)
    } else {
        None
    }
}

/// The window is closed by a click on the close button and by nothing else, and
/// resized by dragging the resize grip and by nothing else.
pub proof fn law_controls_do_one_thing(used: bool, hovered: bool)
    ensures
        close_commands(used, hovered).contains(Command::Close) <==> used,
        grip_commands(used, hovered).contains(Command::BeginResizeSouthEast) <==> used,
        !close_commands(used, hovered).contains(Command::BeginResizeSouthEast),
        !grip_commands(used, hovered).contains(Command::Close),
{
    if used {
        assert(close_commands(used, hovered)[0] == Command::Close);
        assert(grip_commands(used, hovered)[0] == Command::BeginResizeSouthEast);
    }
}

/// The sizes in points, in units of `2^-149`.
pub proof fn law_sizes()
    ensures
        grip_size().value() == 14 * pow2(149),
        close_size().value() == 20 * pow2(149),
        close_inset().value() == 4 * pow2(149),
        cross_margin().value() == 5 * pow2(149),
        2 * stroke_width().value() == 3 * pow2(149),
{
    lemma2_to64();
    lemma_size(grip_size(), 130, 0xe0_0000);
    lemma_size(close_size(), 131, 0xa0_0000);
    lemma_size(close_inset(), 129, 0x80_0000);
    lemma_size(cross_margin(), 129, 0xa0_0000);
    lemma_size(stroke_width(), 127, 0xc0_0000);
    lemma_pow2_adds(20, 129);
    lemma_pow2_adds(19, 130);
    lemma_pow2_adds(21, 128);
    lemma_pow2_adds(23, 126);
}

/// The value of a number with a given exponent and significand.
proof fn lemma_size(size: Binary32, exponent: nat, significand: nat)
    requires
        exponent >= 1,
        size.bits == (exponent - 1) * 0x80_0000 + significand,
        0x80_0000 <= significand < 0x100_0000,
        size.bits < 0x8000_0000,
    ensures
        size.value() == significand * pow2((exponent - 1) as nat),
{
    lemma2_to64();
    let pattern = size.pattern();
    assert(pattern / pow2(23) == exponent);
    assert(pattern % pow2(23) == significand - 0x80_0000);
}

/// The number is `n`, exactly.
pub open spec fn is_whole(number: Binary32, n: int) -> bool {
    !number.is_nan() && !number.is_infinite() && number.value() == n * pow2(149)
}

/// Where the panel's edges are whole points, the resize grip is the square of 14
/// points in its right bottom corner, and the close button is the square of 20
/// points that is 4 points away from its right and its top edge.
pub proof fn law_controls_are_in_the_corners(panel: Rect, right: int, top: int, bottom: int)
    requires
        is_whole(panel.max.x, right),
        is_whole(panel.min.y, top),
        is_whole(panel.max.y, bottom),
        -0x80_0000 <= right <= 0x80_0000,
        -0x80_0000 <= top <= 0x80_0000,
        -0x80_0000 <= bottom <= 0x80_0000,
    ensures
        is_whole(grip_area(panel).min.x, right - 14),
        is_whole(grip_area(panel).min.y, bottom - 14),
        is_whole(grip_area(panel).max.x, right),
        is_whole(grip_area(panel).max.y, bottom),
        is_whole(close_area(panel).min.x, right - 24),
        is_whole(close_area(panel).min.y, top + 4),
        is_whole(close_area(panel).max.x, right - 4),
        is_whole(close_area(panel).max.y, top + 24),
{
    law_sizes();
    let grip = grip_area(panel);
    crate::binary32::law_whole_difference_is_exact(panel.max.x, right, grip_size(), 14);
    crate::binary32::law_whole_difference_is_exact(panel.max.y, bottom, grip_size(), 14);
    crate::binary32::law_whole_sum_is_exact(grip.min.x, right - 14, grip_size(), 14);
    crate::binary32::law_whole_sum_is_exact(grip.min.y, bottom - 14, grip_size(), 14);
    let close = close_area(panel);
    crate::binary32::law_whole_difference_is_exact(panel.max.x, right, close_size(), 20);
    crate::binary32::law_whole_difference_is_exact(
        panel.max.x.difference(close_size()),
        right - 20,
        close_inset(),
        4,
    );
    crate::binary32::law_whole_sum_is_exact(panel.min.y, top, close_inset(), 4);
    crate::binary32::law_whole_sum_is_exact(close.min.x, right - 24, close_size(), 20);
    crate::binary32::law_whole_sum_is_exact(close.min.y, top + 4, close_size(), 20);
}

/// What the resize grip asks for: to resize if a drag started, then, under the
/// pointer, for its cursor and another frame.
pub proof fn law_grip_commands(drag_started: bool, hovered: bool)
    ensures
        ({
            let commands = grip_commands(drag_started, hovered);
            let first: int = if drag_started {
                1
            } else {
                0
            };
            &&& commands.len() == first + if hovered {
                2int
            } else {
                0
            }
            &&& drag_started ==> commands[0] == Command::BeginResizeSouthEast
            &&& hovered ==> commands[first] == Command::Cursor(CursorIcon::ResizeNwSe)
            &&& hovered ==> commands[first + 1] == Command::Repaint
        }),
{
}

/// What the close button asks for: to close if it was clicked, then, under the
/// pointer, for its cursor and another frame.
pub proof fn law_close_commands(clicked: bool, hovered: bool)
    ensures
        ({
            let commands = close_commands(clicked, hovered);
            let first: int = if clicked {
                1
            } else {
                0
            };
            &&& commands.len() == first + if hovered {
                2int
            } else {
                0
            }
            &&& clicked ==> commands[0] == Command::Close
            &&& hovered ==> commands[first] == Command::Cursor(CursorIcon::PointingHand)
            &&& hovered ==> commands[first + 1] == Command::Repaint
        }),
{
}

/// Where the controls are in any panel: the corners follow from the panel's edges
/// by single-precision sums and differences with the sizes of [`law_sizes`].
pub proof fn law_areas(panel: Rect)
    ensures
        grip_area(panel).min.x == panel.max.x.difference(grip_size()),
        grip_area(panel).min.y == panel.max.y.difference(grip_size()),
        grip_area(panel).max.x == grip_area(panel).min.x.sum(grip_size()),
        grip_area(panel).max.y == grip_area(panel).min.y.sum(grip_size()),
        close_area(panel).min.x == panel.max.x.difference(close_size()).difference(close_inset()),
        close_area(panel).min.y == panel.min.y.sum(close_inset()),
        close_area(panel).max.x == close_area(panel).min.x.sum(close_size()),
        close_area(panel).max.y == close_area(panel).min.y.sum(close_size()),
{
}

/// The resize grip depends on the right and the bottom edge only, and the close
/// button on the right and the top edge only.
pub proof fn law_controls_keep_to_their_edges(panel: Rect, other: Rect)
    ensures
        panel.max == other.max ==> grip_area(panel) == grip_area(other),
        panel.max == other.max ==> grip_shapes(panel) == grip_shapes(other),
        panel.max.x == other.max.x && panel.min.y == other.min.y ==> close_area(panel)
            == close_area(other),
{
}

/// The lines of the resize grip, for any panel: both run across the right bottom
/// corner of its area, the outer one from side to side, the inner one 0.55 times
/// as far from the corner.
pub proof fn law_grip_shapes(panel: Rect, i: int)
    requires
        0 <= i < 2,
    ensures
        grip_shapes(panel).len() == 2,
        grip_shapes(panel)[i] matches Shape::Segment { from, to, width, color } && {
            let corner = grip_area(panel).max;
            let length = if i == 0 {
                grip_size()
            } else {
                grip_size().product((Binary32 { bits: 0x3f0c_cccd }))
            };
            &&& from.x == corner.x.difference(length)
            &&& from.y == corner.y.difference((Binary32 { bits: 0 }))
            &&& to.x == corner.x.difference((Binary32 { bits: 0 }))
            &&& to.y == corner.y.difference(length)
            &&& 2 * width.value() == 3 * pow2(149)
            &&& color == Color::faded(180, 180, 200, 160)
        },
{
    law_sizes();
}

/// The close button, for any panel: its area filled in a color that tells whether
/// the pointer is over it, and a cross of two lines from corner to corner, five
/// points inside.
pub proof fn law_close_shapes(panel: Rect, hovered: bool)
    ensures
        close_shapes(panel, hovered).len() == 3,
        close_shapes(panel, hovered)[0] matches Shape::FilledRect { rect, corner_radius, color } && {
            &&& rect == close_area(panel)
            &&& corner_radius.value() == 4 * pow2(149)
            &&& hovered ==> color == Color::faded(210, 50, 50, 220)
            &&& !hovered ==> color == Color::faded(80, 80, 100, 140)
        },
        close_shapes(panel, hovered)[1] matches Shape::Segment { from, to, width, color } && {
            &&& from.x == close_area(panel).min.x.sum(cross_margin())
            &&& from.y == close_area(panel).min.y.sum(cross_margin())
            &&& to.x == close_area(panel).max.x.difference(cross_margin())
            &&& to.y == close_area(panel).max.y.difference(cross_margin())
            &&& 2 * width.value() == 3 * pow2(149)
            &&& color == (Color { r: 230, g: 230, b: 235, a: 255 })
        },
        close_shapes(panel, hovered)[2] matches Shape::Segment { from, to, width, color } && {
            &&& from.x == close_area(panel).max.x.difference(cross_margin())
            &&& from.y == close_area(panel).min.y.sum(cross_margin())
            &&& to.x == close_area(panel).min.x.sum(cross_margin())
            &&& to.y == close_area(panel).max.y.difference(cross_margin())
            &&& 2 * width.value() == 3 * pow2(149)
            &&& color == (Color { r: 230, g: 230, b: 235, a: 255 })
        },
{
    law_sizes();
}

/// Where the panel's edges are whole points, the cross of the close button runs
/// between whole points too.
pub proof fn law_cross_in_whole_points(
    panel: Rect,
    hovered: bool,
    right: int,
    top: int,
    bottom: int,
)
    requires
        is_whole(panel.max.x, right),
        is_whole(panel.min.y, top),
        is_whole(panel.max.y, bottom),
        -0x80_0000 <= right <= 0x80_0000,
        -0x80_0000 <= top <= 0x80_0000,
        -0x80_0000 <= bottom <= 0x80_0000,
    ensures
        close_shapes(panel, hovered)[1] matches Shape::Segment { from, to, .. } && {
            &&& is_whole(from.x, right - 19) && is_whole(from.y, top + 9)
            &&& is_whole(to.x, right - 9) && is_whole(to.y, top + 19)
        },
        close_shapes(panel, hovered)[2] matches Shape::Segment { from, to, .. } && {
            &&& is_whole(from.x, right - 9) && is_whole(from.y, top + 9)
            &&& is_whole(to.x, right - 19) && is_whole(to.y, top + 19)
        },
{
    law_controls_are_in_the_corners(panel, right, top, bottom);
    law_close_shapes(panel, hovered);
    let button = close_area(panel);
    lemma_inset(button.min.x, right - 24, button.max.x, right - 4);
    lemma_inset(button.min.y, top + 4, button.max.y, top + 24);
}

/// The margin of the cross takes five points off both ends.
proof fn lemma_inset(low: Binary32, m: int, high: Binary32, n: int)
    requires
        is_whole(low, m),
        is_whole(high, n),
        -0xff_0000 < m < 0xff_0000,
        -0xff_0000 < n < 0xff_0000,
    ensures
        is_whole(low.sum(cross_margin()), m + 5),
        is_whole(high.difference(cross_margin()), n - 5),
{
    law_sizes();
    crate::binary32::law_whole_sum_is_exact(low, m, cross_margin(), 5);
    crate::binary32::law_whole_difference_is_exact(high, n, cross_margin(), 5);
}

} // verus!
