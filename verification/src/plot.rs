//! The plot of the pedal inputs.
use crate::binary32::Binary32;
use crate::binary64::Binary64;
use crate::color::Color;
use crate::telemetry::Inputs;
use std::collections::VecDeque;
use vstd::arithmetic::power2::*;
use vstd::prelude::*;

verus! {

/// A point of a line.
#[derive(Clone, Copy, Debug, PartialEq, Eq, Structural)]
pub struct Point {
    /// The number of the sample, the oldest one being zero.
    pub x: Binary64,
    /// The input in percent.
    pub y: Binary64,
}

/// A line of the plot.
#[derive(Debug)]
pub struct Line {
    /// The name of the line.
    pub name: &'static str,
    /// The points from left to right.
    pub points: Vec<Point>,
    /// The width of the line.
    pub width: Binary32,
    /// The color of the line.
    pub color: Color,
}

/// The two lines of the plot.
#[derive(Debug)]
pub struct InputLines {
    /// The throttle's line, painted first.
    pub throttle: Line,
    /// The brake's line, painted above the other.
    pub brake: Line,
}

/// How the plot is shown. Pairs are the horizontal and the vertical setting.
#[derive(Clone, Copy, Debug, PartialEq, Eq)]
pub struct PlotOptions {
    /// The plot's id.
    pub id: &'static str,
    /// A horizontal coordinate that is always in view.
    pub include_x: Binary64,
    /// Two vertical coordinates that are always in view.
    pub include_y: (Binary64, Binary64),
    /// Zooming with the pointer.
    pub allow_zoom: bool,
    /// Panning with the pointer.
    pub allow_drag: bool,
    /// Zooming to a box.
    pub allow_boxed_zoom: bool,
    /// Scrolling.
    pub allow_scroll: bool,
    /// Resetting the view with a double click.
    pub allow_double_click_reset: bool,
    /// The axes.
    pub show_axes: (bool, bool),
    /// The grid.
    pub show_grid: (bool, bool),
    /// The background.
    pub show_background: bool,
    /// The pointer's horizontal coordinate.
    pub show_x: bool,
    /// The pointer's vertical coordinate.
    pub show_y: bool,
    /// The grid ends where the data ends.
    pub clamp_grid: bool,
}

/// The plot of a queue of samples.
#[derive(Debug)]
pub struct InputPlot {
    /// How it is shown.
    pub options: PlotOptions,
    /// What it shows.
    pub lines: InputLines,
}

/// One hundred percent.
#[verifier::allow_in_spec]
pub fn full_percent() -> (full: Binary64)
    returns
        (Binary64 { bits: 0x4059_0000_0000_0000 }),
{
    Binary64 { bits: 0x4059_0000_0000_0000 }
}

/// Zero percent.
#[verifier::allow_in_spec]
pub fn zero_percent() -> (zero: Binary64)
    returns
        (Binary64 { bits: 0 }),
{
    Binary64 { bits: 0 }
}

/// Width of the lines: 2 points.
#[verifier::allow_in_spec]
pub fn line_width() -> (width: Binary32)
    returns
        (Binary32 { bits: 0x4000_0000 }),
{
    Binary32 { bits: 0x4000_0000 }
}

/// The view is fixed: nothing the pointer does moves it, only the vertical axis
/// and its grid lines are shown, and the range from 0 to 100 is in view.
pub open spec fn fixed_view() -> PlotOptions {
    PlotOptions {
        id: "pedal_inputs",
        include_x: zero_percent(),
        include_y: (zero_percent(), full_percent()),
        allow_zoom: false,
        allow_drag: false,
        allow_boxed_zoom: false,
        allow_scroll: false,
        allow_double_click_reset: false,
        show_axes: (false, true),
        show_grid: (false, true),
        show_background: false,
        show_x: false,
        show_y: false,
        clamp_grid: true,
    }
}

/// The throttle input of each sample over the sample's number.
pub open spec fn throttle_points(queue: Seq<Inputs>) -> Seq<Point> {
    Seq::new(
        queue.len(),
        |i: int| Point { x: Binary64::counted(i as nat), y: queue[i].throttle },
    )
}

/// The brake input of each sample over the sample's number.
pub open spec fn brake_points(queue: Seq<Inputs>) -> Seq<Point> {
    Seq::new(
        queue.len(),
        |i: int| Point { x: Binary64::counted(i as nat), y: queue[i].brake },
    )
}

impl InputLines {
    /// The lines of a queue of samples: a green one for the throttle and a red
    /// one for the brake, under one name.
    pub open spec fn show(self, queue: Seq<Inputs>) -> bool {
        &&& self.throttle.name@ == "inputs"@
        &&& self.throttle.points@ == throttle_points(queue)
        &&& self.throttle.width == line_width()
        &&& self.throttle.color == Color::opaque(0, 255, 0)
        &&& self.brake.name@ == "inputs"@
        &&& self.brake.points@ == brake_points(queue)
        &&& self.brake.width == line_width()
        &&& self.brake.color == Color::opaque(255, 0, 0)
    }
}

/// The lines of a queue of samples.
pub fn line_from_inputs(queue: &VecDeque<Inputs>) -> (lines: InputLines)
    ensures
        lines.show(queue@),
        lines.throttle.points.len() == queue@.len(),
        lines.brake.points.len() == queue@.len(),
        forall|i: int|
            0 <= i < queue@.len() ==> (#[trigger] lines.throttle.points@[i]).y == queue@[i].throttle,
        forall|i: int|
            0 <= i < queue@.len() ==> (#[trigger] lines.brake.points@[i]).y == queue@[i].brake,
{
    let mut throttle: Vec<Point> = Vec::new();
    let mut brake: Vec<Point> = Vec::new();
    let count: usize = queue.len();
    let mut index: usize = 0;
    while index < count
        invariant
            index <= count,
            count == queue@.len(),
            throttle@ == throttle_points(queue@).take(index as int),
            brake@ == brake_points(queue@).take(index as int),
        decreases count - index,
    {
        let x: Binary64 = Binary64::from_count(index as u64);
        let inputs: Inputs = queue[index];
        throttle.push(Point { x, y: inputs.throttle() });
        brake.push(Point { x, y: inputs.brake() });
        index = index + 1;
    }
    assert(throttle@ == throttle_points(queue@));
    assert(brake@ == brake_points(queue@));
    InputLines {
        throttle: Line {
            name: "inputs",
            points: throttle,
            width: line_width(),
            color: Color::opaque(0, 255, 0),
        },
        brake: Line {
            name: "inputs",
            points: brake,
            width: line_width(),
            color: Color::opaque(255, 0, 0),
        },
    }
}

/// The plot of a queue of samples.
pub fn draw_input_lines(queue: &VecDeque<Inputs>) -> (plot: InputPlot)
    ensures
        plot.options == fixed_view(),
        plot.lines.show(queue@),
        plot.lines.throttle.points.len() == queue@.len(),
        plot.lines.brake.points.len() == queue@.len(),
        forall|i: int|
            0 <= i < queue@.len() ==> (#[trigger] plot.lines.throttle.points@[i]).y
                == queue@[i].throttle,
        forall|i: int|
            0 <= i < queue@.len() ==> (#[trigger] plot.lines.brake.points@[i]).y == queue@[i].brake,
{
    let options: PlotOptions = PlotOptions {
        id: "pedal_inputs",
        include_x: zero_percent(),
        include_y: (zero_percent(), full_percent()),
        allow_zoom: false,
        allow_drag: false,
        allow_boxed_zoom: false,
        allow_scroll: false,
        allow_double_click_reset: false,
        show_axes: (false, true),
        show_grid: (false, true),
        show_background: false,
        show_x: false,
        show_y: false,
        clamp_grid: true,
    };
    InputPlot { options, lines: line_from_inputs(queue) }
}

/// The values of the ends of the range in view.
pub(crate) proof fn lemma_range()
    ensures
        zero_percent().value() == 0,
        full_percent().value() == 100 * pow2(1074),
{
    lemma2_to64();
    lemma2_to64_rest();
    assert(zero_percent().pattern() == 0);
    let pattern: nat = 0x4059_0000_0000_0000;
    assert(full_percent().pattern() == pattern);
    assert(pattern / pow2(52) == 1029);
    assert(pattern % pow2(52) == 0x9_0000_0000_0000);
    assert(full_percent().magnitude() == 0x19_0000_0000_0000 * pow2(1028));
    lemma_pow2_adds(46, 1028);
    assert(pow2(46) == 0x4000_0000_0000);
    assert(0x19_0000_0000_0000 * pow2(1028) == 100 * (0x4000_0000_0000 * pow2(1028)))
        by (nonlinear_arith);
}

/// An input from 0 to 1 lies in the range that is always in view.
pub proof fn law_inputs_are_in_view(input: Binary32)
    requires
        !input.is_nan(),
        0 <= input.value() <= pow2(149),
    ensures
        zero_percent().value() <= crate::telemetry::percent(input).value() <= full_percent().value(),
{
    lemma_range();
    crate::telemetry::law_percent_is_in_range(input);
}

/// The points of both lines stand above one another, one unit apart.
pub proof fn law_points_are_numbered(queue: Seq<Inputs>, i: int)
    requires
        0 <= i < queue.len(),
        i < 0x20_0000_0000_0000,
    ensures
        throttle_points(queue)[i].x == brake_points(queue)[i].x,
        throttle_points(queue)[i].x.value() == i * pow2(1074),
{
    crate::binary64::law_count_is_exact(i as nat);
}

/// The height of a line at a sample is the line's own pedal in that sample, and
/// nothing is left out: there is one point for each sample, at the sample's
/// number.
pub proof fn law_points_show_the_pedals(queue: Seq<Inputs>, i: int)
    requires
        0 <= i < queue.len(),
    ensures
        throttle_points(queue).len() == queue.len(),
        brake_points(queue).len() == queue.len(),
        throttle_points(queue)[i].y == queue[i].throttle,
        brake_points(queue)[i].y == queue[i].brake,
        throttle_points(queue)[i].x == Binary64::counted(i as nat),
        brake_points(queue)[i].x == Binary64::counted(i as nat),
{
}

/// A point depends on one pedal of one sample only: where that is the same in two
/// queues, so is the point, whatever else differs.
pub proof fn law_points_are_independent(queue: Seq<Inputs>, other: Seq<Inputs>, i: int)
    requires
        0 <= i < queue.len(),
        i < other.len(),
    ensures
        queue[i].throttle == other[i].throttle <==> throttle_points(queue)[i] == throttle_points(
            other,
        )[i],
        queue[i].brake == other[i].brake <==> brake_points(queue)[i] == brake_points(other)[i],
{
}

/// Lines that show a queue have its points, and their name, width and color do not
/// depend on it.
pub proof fn law_lines(lines: InputLines, queue: Seq<Inputs>)
    requires
        lines.show(queue),
    ensures
        lines.throttle.points@ == throttle_points(queue),
        lines.brake.points@ == brake_points(queue),
        lines.throttle.name@ == "inputs"@,
        lines.brake.name@ == "inputs"@,
        lines.throttle.width.value() == 2 * pow2(149),
        lines.brake.width.value() == 2 * pow2(149),
        lines.throttle.color == (Color { r: 0, g: 255, b: 0, a: 255 }),
        lines.brake.color == (Color { r: 255, g: 0, b: 0, a: 255 }),
{
    lemma2_to64();
    lemma_pow2_adds(22, 127);
    crate::binary32::law_fields(false, 128, 0, line_width());
    assert(0x80_0000 * pow2(127) == 2 * (0x40_0000 * pow2(127))) by (nonlinear_arith);
}

} // verus!
