//! The state of the window and what a frame does with it.
use crate::binary32::Binary32;
use crate::color::Color;
use crate::geometry::{Pos2, Rect, Vec2};
use crate::plot::{full_percent, zero_percent};
use crate::telemetry::Inputs;
use crate::widgets::{close_button_rect, resize_grip_rect, Command, Shape};
use std::collections::VecDeque;
use vstd::arithmetic::power2::*;
use vstd::math::*;
use vstd::prelude::*;

verus! {

/// How many samples the plot shows.
pub const SAMPLES: usize = 1000;

/// How long a frame without data may stay on the screen, in milliseconds.
pub const IDLE_REPAINT_MS: u64 = 10000;

/// The words that ask the player to start driving.
pub const HEADING: &'static str = "Start driving";

/// The receiving half of a channel.
#[verifier::external_type_specification]
#[verifier::external_body]
#[verifier::reject_recursive_types(T)]
pub struct ExReceiver<T>(flume::Receiver<T>);

/// Calls `flume::Receiver::try_recv`, which returns at once with a waiting
/// value, which then leaves the channel, if there is one. Nothing is claimed of
/// the result, nor of what stays in the channel: both are up to whoever else holds
/// one of its halves, while the call is made too.
#[verifier::external_body]
fn try_recv(receiver: &flume::Receiver<Inputs>) -> (received: Option<Inputs>) {
    receiver.try_recv().ok()
}

/// The colors that the window is set up with.
#[derive(Clone, Copy, Debug, PartialEq, Eq, Structural)]
pub struct Visuals {
    /// The dark theme.
    pub dark_mode: bool,
    /// The background of panels.
    pub panel_fill: Color,
    /// The background of windows.
    pub window_fill: Color,
    /// The color of all text.
    pub override_text_color: Color,
}

/// How the window is opened.
#[derive(Clone, Copy, Debug, PartialEq, Eq)]
pub struct WindowOptions {
    /// The name of the window.
    pub title: &'static str,
    /// Its size at first.
    pub inner_size: Vec2,
    /// The smallest size it can be given.
    pub min_inner_size: Vec2,
    /// A frame and a title bar.
    pub decorations: bool,
    /// What is behind it shows through.
    pub transparent: bool,
    /// It stays above other windows.
    pub always_on_top: bool,
}

/// What the pointer does during a frame.
#[derive(Clone, Copy, Debug, PartialEq, Eq, Structural)]
pub struct Pointer {
    /// The primary button went down in this frame.
    pub primary_pressed: bool,
    /// The primary button is down.
    pub primary_down: bool,
    /// How far the pointer moved since the last frame.
    pub delta: Vec2,
    /// Where the pointer is, if it is over the window.
    pub hover_pos: Option<Pos2>,
}

/// A part of a frame. What is inside a panel is told by the function named.
#[derive(Clone, Copy, Debug, PartialEq, Eq)]
pub enum Step {
    /// The panel of [`draw_game_not_running_fallback`].
    GameNotRunning,
    /// The panel of [`draw_input_panel`].
    InputPanel,
    /// A heading in the middle.
    Heading(&'static str),
    /// The plot of the queue.
    InputLines,
    /// The area that lets the panel be dragged.
    DragArea,
    /// The resize grip.
    ResizeGrip,
    /// The close button.
    CloseButton,
    /// A command to the window.
    Command(Command),
}

/// The state of the window.
pub struct App {
    receiver: flume::Receiver<Inputs>,
    queue: VecDeque<Inputs>,
    drag_pending: bool,
    is_receiving_data: bool,
}

/// What matters of the window's state.
#[verifier::ext_equal]
pub struct AppView {
    /// The samples on display, the oldest one first.
    pub queue: Seq<Inputs>,
    /// The primary button went down where the window can be dragged, and the
    /// pointer has not moved since.
    pub drag_pending: bool,
    /// At least one sample has come.
    pub is_receiving_data: bool,
}

impl View for App {
    type V = AppView;

    closed spec fn view(&self) -> AppView {
        AppView {
            queue: self.queue@,
            drag_pending: self.drag_pending,
            is_receiving_data: self.is_receiving_data,
        }
    }
}

/// The sample shown in place of those that have not come yet.
pub open spec fn placeholder() -> Inputs {
    Inputs { throttle: zero_percent(), brake: full_percent() }
}

impl AppView {
    /// The state before the first frame.
    pub open spec fn initial() -> AppView {
        AppView {
            queue: Seq::new(SAMPLES as nat, |i: int| placeholder()),
            drag_pending: false,
            is_receiving_data: false,
        }
    }

    /// The queue is always full.
    pub open spec fn well_formed(self) -> bool {
        self.queue.len() == SAMPLES
    }

    /// A sample that came takes the place of the oldest one.
    pub open spec fn received(self, received: Option<Inputs>) -> AppView {
        match received {
            Some(inputs) => AppView {
                queue: self.queue.push(inputs).drop_first(),
                is_receiving_data: true,
                ..self
            },
            None => self,
        }
    }

    /// A drag is pending once the button is down, if it went down on neither of
    /// the controls.
    pub open spec fn held(self, panel: Rect, pointer: Pointer) -> bool {
        pointer.primary_down && (self.drag_pending || (pointer.primary_pressed
            && match pointer.hover_pos {
            Some(position) => !crate::widgets::grip_area(panel).covers(position)
                && !crate::widgets::close_area(panel).covers(position),
            None => false,
        }))
    }

    /// The window starts to follow the pointer when it moves during a pending
    /// drag.
    pub open spec fn drags(self, panel: Rect, pointer: Pointer) -> bool {
        self.held(panel, pointer) && moves(pointer.delta)
    }

    /// The state after the pointer was looked at.
    pub open spec fn pointed(self, panel: Rect, pointer: Pointer) -> AppView {
        AppView {
            drag_pending: self.held(panel, pointer) && !moves(pointer.delta),
            ..self
        }
    }

    /// The state after a frame.
    pub open spec fn next(
        self,
        received: Option<Inputs>,
        panel: Rect,
        pointer: Pointer,
    ) -> AppView {
        let now = self.received(received);
        if now.is_receiving_data {
            now.pointed(panel, pointer)
        } else {
            now
        }
    }

    /// The parts of a frame.
    pub open spec fn steps(
        self,
        received: Option<Inputs>,
        panel: Rect,
        pointer: Pointer,
    ) -> Seq<Step> {
        let now = self.received(received);
        if !now.is_receiving_data {
            seq![
                Step::GameNotRunning,
                Step::CloseButton,
                Step::Command(Command::RepaintAfter(IDLE_REPAINT_MS)),
            ]
        } else {
            let drag = if now.drags(panel, pointer) {
                seq![Step::Command(Command::StartDrag)]
            } else {
                seq![]
            };
            drag + seq![
                Step::InputPanel,
                Step::ResizeGrip,
                Step::CloseButton,
                Step::Command(Command::Repaint),
            ]
        }
    }
}

/// The displacement is not nothing: its squared length is above zero.
pub open spec fn moves(delta: Vec2) -> bool {
    delta.squared_length().more_than(Binary32::zero())
}

/// The colors that the window is set up with.
pub fn visuals() -> (visuals: Visuals)
    ensures
        visuals == (Visuals {
            dark_mode: true,
            panel_fill: Color::transparent(),
            window_fill: Color::transparent(),
            override_text_color: Color::opaque(220, 225, 232),
        }),
{
    Visuals {
        dark_mode: true,
        panel_fill: Color::transparent(),
        window_fill: Color::transparent(),
        override_text_color: Color::opaque(220, 225, 232),
    }
}

/// How the window is opened: 600 by 125 points, at least 300 by 100, without
/// decorations, transparent and always on top.
pub fn window_options() -> (options: WindowOptions)
    ensures
        options.title@ == "Pedal Overlay"@,
        options.inner_size.x.bits == 0x4416_0000,
        options.inner_size.y.bits == 0x42fa_0000,
        options.min_inner_size.x.bits == 0x4396_0000,
        options.min_inner_size.y.bits == 0x42c8_0000,
        !options.decorations,
        options.transparent,
        options.always_on_top,
{
    WindowOptions {
        title: "Pedal Overlay",
        inner_size: Vec2 {
            x: Binary32 { bits: 0x4416_0000 },
            y: Binary32 { bits: 0x42fa_0000 },
        },
        min_inner_size: Vec2 {
            x: Binary32 { bits: 0x4396_0000 },
            y: Binary32 { bits: 0x42c8_0000 },
        },
        decorations: false,
        transparent: true,
        always_on_top: true,
    }
}

impl App {
    /// Where the samples come from.
    pub closed spec fn source(self) -> flume::Receiver<Inputs> {
        self.receiver
    }

    /// The state before the first frame: a queue full of placeholders.
    pub fn new(receiver: flume::Receiver<Inputs>) -> (app: App)
        ensures
            app@ == AppView::initial(),
            app.source() == receiver,
            app@.well_formed(),
    {
        let mut queue: VecDeque<Inputs> = VecDeque::new();
        let mut filled: usize = 0;
        while filled < SAMPLES
            invariant
                filled <= SAMPLES,
                queue@ == Seq::new(filled as nat, |i: int| placeholder()),
            decreases SAMPLES - filled,
        {
            queue.push_back(Inputs::new(zero_percent(), full_percent()));
            filled = filled + 1;
        }
        App { receiver, queue, drag_pending: false, is_receiving_data: false }
    }

    /// The samples on display, the oldest one first.
    pub fn queue(&self) -> (queue: &VecDeque<Inputs>)
        ensures
            queue@ == self@.queue,
    {
        &self.queue
    }

    /// A frame in which `received` came through the channel.
    pub fn update(&mut self, received: Option<Inputs>, panel: Rect, pointer: Pointer) -> (steps:
        Vec<Step>)
        ensures
            old(self)@.well_formed() ==> final(self)@.well_formed(),
            final(self).source() == old(self).source(),
            final(self)@ == old(self)@.next(received, panel, pointer),
            steps@ == old(self)@.steps(received, panel, pointer),
    {
        if let Some(inputs) = received {
            self.queue.push_back(inputs);
            self.queue.pop_front();
            self.is_receiving_data = true;
        }
        proof {
            assert(self@ =~= old(self)@.received(received));
        }
        let mut steps: Vec<Step> = Vec::new();
        if !self.is_receiving_data {
            steps.push(Step::GameNotRunning);
            steps.push(Step::CloseButton);
            steps.push(Step::Command(Command::RepaintAfter(IDLE_REPAINT_MS)));
            return steps;
        }
        if let Some(command) = add_window_drag(panel, pointer, self) {
            steps.push(Step::Command(command));
        }
        steps.push(Step::InputPanel);
        steps.push(Step::ResizeGrip);
        steps.push(Step::CloseButton);
        steps.push(Step::Command(Command::Repaint));
        steps
    }

    /// A frame: asks the channel for one sample and goes on with what came. What
    /// is in the channel before and after is up to the sending half as well, and
    /// is not stated.
    pub fn ui(&mut self, panel: Rect, pointer: Pointer) -> (steps: Vec<Step>)
        ensures
            old(self)@.well_formed() ==> final(self)@.well_formed(),
            final(self).source() == old(self).source(),
            exists|received: Option<Inputs>| #[trigger]
                old(self)@.next(received, panel, pointer) == final(self)@ && old(self)@.steps(
                    received,
                    panel,
                    pointer,
                ) == steps@,
    {
        let received: Option<Inputs> = try_recv(&self.receiver);
        self.update(received, panel, pointer)
    }
}

/// Looks at the pointer, and says whether the window shall follow it.
pub fn add_window_drag(panel: Rect, pointer: Pointer, state: &mut App) -> (command: Option<Command>)
    ensures
        final(state)@ == old(state)@.pointed(panel, pointer),
        final(state).source() == old(state).source(),
        command == if old(state)@.drags(panel, pointer) {
            Some(Command::StartDrag)
        } else {
            None
        },
{
    if pointer.primary_pressed {
        if let Some(position) = pointer.hover_pos {
            if !resize_grip_rect(panel).contains(position) && !close_button_rect(panel).contains(
                position,
            ) {
                state.drag_pending = true;
            }
        }
    }
    if !pointer.primary_down {
        state.drag_pending = false;
    }
    if state.drag_pending && pointer.delta.length_sq().exceeds(Binary32::zero()) {
        state.drag_pending = false;
        return Some(Command::StartDrag);
    }
    None
}

/// What the panel shows while nothing has come.
pub fn draw_game_not_running_fallback() -> (steps: Vec<Step>)
    ensures
        steps@ == seq![Step::Heading(HEADING), Step::DragArea, Step::ResizeGrip],
{
    let mut steps: Vec<Step> = Vec::new();
    steps.push(Step::Heading(HEADING));
    steps.push(Step::DragArea);
    steps.push(Step::ResizeGrip);
    steps
}

/// What the panel shows once samples come.
pub fn draw_input_panel() -> (steps: Vec<Step>)
    ensures
        steps@ == seq![Step::InputLines, Step::DragArea],
{
    let mut steps: Vec<Step> = Vec::new();
    steps.push(Step::InputLines);
    steps.push(Step::DragArea);
    steps
}

/// The input of one frame: what came through the channel, the panel, and what
/// the pointer did.
pub struct FrameInput {
    /// What came through the channel.
    pub received: Option<Inputs>,
    /// The area of the panel.
    pub panel: Rect,
    /// What the pointer did.
    pub pointer: Pointer,
}

/// The samples that came in a series of frames, in order.
pub open spec fn arrivals(frames: Seq<FrameInput>) -> Seq<Inputs>
    decreases frames.len(),
{
    if frames.len() == 0 {
        seq![]
    } else {
        let earlier = arrivals(frames.drop_last());
        match frames.last().received {
            Some(inputs) => earlier.push(inputs),
            None => earlier,
        }
    }
}

impl AppView {
    /// The state after a series of frames.
    pub open spec fn after(self, frames: Seq<FrameInput>) -> AppView
        decreases frames.len(),
    {
        if frames.len() == 0 {
            self
        } else {
            let frame = frames.last();
            self.after(frames.drop_last()).next(frame.received, frame.panel, frame.pointer)
        }
    }
}

/// The button goes down in this frame, on neither of the controls.
pub open spec fn presses(panel: Rect, pointer: Pointer) -> bool {
    &&& pointer.primary_pressed
    &&& pointer.hover_pos matches Some(position)
    &&& !crate::widgets::grip_area(panel).covers(position)
    &&& !crate::widgets::close_area(panel).covers(position)
}

/// The queue always shows as many samples as it is made for: the latest ones
/// that came, in their order, after what is left of the queue as it was.
pub proof fn law_queue_shows_the_latest(state: AppView, frames: Seq<FrameInput>)
    requires
        state.well_formed(),
    ensures
        state.after(frames).well_formed(),
        state.after(frames).queue == (state.queue + arrivals(frames)).skip(
            arrivals(frames).len() as int,
        ),
        arrivals(frames).len() >= SAMPLES ==> state.after(frames).queue == arrivals(frames).skip(
            arrivals(frames).len() - SAMPLES,
        ),
        state.after(frames).is_receiving_data <==> state.is_receiving_data || arrivals(frames).len()
            > 0,
    decreases frames.len(),
{
    if frames.len() > 0 {
        law_queue_shows_the_latest(state, frames.drop_last());
    }
    assert(state.after(frames).queue =~= (state.queue + arrivals(frames)).skip(
        arrivals(frames).len() as int,
    ));
    if arrivals(frames).len() >= SAMPLES {
        assert(state.after(frames).queue =~= arrivals(frames).skip(
            arrivals(frames).len() - SAMPLES,
        ));
    }
}

/// The fallback is shown until the first sample comes, and never again.
pub proof fn law_fallback_until_data(
    frames: Seq<FrameInput>,
    received: Option<Inputs>,
    panel: Rect,
    pointer: Pointer,
)
    ensures
        AppView::initial().after(frames).steps(received, panel, pointer).contains(
            Step::GameNotRunning,
        ) <==> arrivals(frames).len() == 0 && received is None,
        AppView::initial().after(frames).steps(received, panel, pointer).contains(
            Step::InputPanel,
        ) <==> arrivals(frames).len() > 0 || received is Some,
{
    law_queue_shows_the_latest(AppView::initial(), frames);
    let state = AppView::initial().after(frames);
    let steps = state.steps(received, panel, pointer);
    if state.received(received).is_receiving_data {
        if state.received(received).drags(panel, pointer) {
            assert(steps[1] == Step::InputPanel);
        } else {
            assert(steps[0] == Step::InputPanel);
        }
    } else {
        assert(steps[0] == Step::GameNotRunning);
    }
}

/// Every frame has the close button.
pub proof fn law_close_button_is_always_there(
    state: AppView,
    received: Option<Inputs>,
    panel: Rect,
    pointer: Pointer,
)
    ensures
        state.steps(received, panel, pointer).contains(Step::CloseButton),
{
    let now = state.received(received);
    let steps = state.steps(received, panel, pointer);
    if !now.is_receiving_data {
        assert(steps[1] == Step::CloseButton);
    } else if now.drags(panel, pointer) {
        assert(steps[3] == Step::CloseButton);
    } else {
        assert(steps[2] == Step::CloseButton);
    }
}

/// Without the button held down no drag starts and none is pending.
pub proof fn law_drag_needs_the_button(state: AppView, panel: Rect, pointer: Pointer)
    requires
        !pointer.primary_down,
    ensures
        !state.drags(panel, pointer),
        !state.pointed(panel, pointer).drag_pending,
{
}

/// A drag that starts is no longer pending: it starts once for each press.
pub proof fn law_drag_starts_once(state: AppView, panel: Rect, pointer: Pointer)
    requires
        state.drags(panel, pointer),
    ensures
        !state.pointed(panel, pointer).drag_pending,
        forall|later: Rect, then: Pointer|
            !presses(later, then) ==> !(#[trigger] state.pointed(panel, pointer).drags(later, then)),
{
}

/// Without a press on neither of the controls no drag ever starts: a press on
/// the resize grip or on the close button does not move the window.
pub proof fn law_drag_needs_a_press(
    state: AppView,
    frames: Seq<FrameInput>,
    panel: Rect,
    pointer: Pointer,
)
    requires
        !state.drag_pending,
        forall|i: int|
            0 <= i < frames.len() ==> !presses(
                (#[trigger] frames[i]).panel,
                frames[i].pointer,
            ),
        !presses(panel, pointer),
    ensures
        !state.after(frames).drag_pending,
        !state.after(frames).drags(panel, pointer),
    decreases frames.len(),
{
    if frames.len() > 0 {
        let frame = frames.last();
        assert(frame == frames[frames.len() - 1]);
        assert forall|i: int| 0 <= i < frames.drop_last().len() implies !presses(
            (#[trigger] frames.drop_last()[i]).panel,
            frames.drop_last()[i].pointer,
        ) by {
            assert(frames.drop_last()[i] == frames[i]);
        }
        law_drag_needs_a_press(state, frames.drop_last(), frame.panel, frame.pointer);
    }
}

/// A pressed pointer that stays where it is keeps the drag pending, and the first
/// displacement starts it.
pub proof fn law_press_then_move(
    state: AppView,
    panel: Rect,
    press: Pointer,
    later: Rect,
    motion: Pointer,
)
    requires
        presses(panel, press),
        press.primary_down,
        !moves(press.delta),
        motion.primary_down,
        moves(motion.delta),
    ensures
        !state.drags(panel, press),
        state.pointed(panel, press).drag_pending,
        state.pointed(panel, press).drags(later, motion),
{
}

/// A press on the close button as it is painted does not count.
pub proof fn law_painted_button_does_not_drag(panel: Rect, pointer: Pointer, hovered: bool)
    requires
        crate::widgets::close_shapes(panel, hovered)[0] matches Shape::FilledRect { rect, .. }
            && pointer.hover_pos matches Some(position) && rect.covers(position),
    ensures
        !presses(panel, pointer),
{
}

/// A finite displacement counts as one if and only if it exceeds `2^-75` points
/// in one of the two directions; a smaller one has a squared length of zero.
pub proof fn law_moves(delta: Vec2)
    requires
        !delta.x.is_nan(),
        !delta.x.is_infinite(),
        !delta.y.is_nan(),
        !delta.y.is_infinite(),
    ensures
        moves(delta) <==> delta.x.magnitude() > pow2(74) || delta.y.magnitude() > pow2(74),
{
    crate::binary32::law_square_vanishes(delta.x);
    crate::binary32::law_square_vanishes(delta.y);
    crate::binary32::law_sum_vanishes(delta.x.product(delta.x), delta.y.product(delta.y));
}

/// A displacement with an infinite coordinate counts as one, and one with a
/// coordinate that is no number does not.
pub proof fn law_moves_of_specials(delta: Vec2)
    ensures
        delta.x.is_nan() || delta.y.is_nan() ==> !moves(delta),
        !delta.x.is_nan() && !delta.y.is_nan() && (delta.x.is_infinite() || delta.y.is_infinite())
            ==> moves(delta),
{
    let x = delta.x.product(delta.x);
    let y = delta.y.product(delta.y);
    crate::binary32::lemma_zero_pattern(delta.x);
    crate::binary32::lemma_zero_pattern(delta.y);
    crate::binary32::law_product_of_specials(delta.x, delta.x);
    crate::binary32::law_product_of_specials(delta.y, delta.y);
    crate::binary32::law_sum_of_specials(x, y);
    if !delta.x.is_nan() && !delta.y.is_nan() {
        if !delta.x.is_infinite() {
            crate::binary32::law_square_vanishes(delta.x);
        }
        if !delta.y.is_infinite() {
            crate::binary32::law_square_vanishes(delta.y);
        }
        crate::binary32::lemma_zero_pattern(x);
        crate::binary32::lemma_zero_pattern(y);
        crate::binary32::law_sum_vanishes(x, y);
    }
}

/// When a drag starts: the button is down, it went down on neither of the
/// controls, now or before, and the pointer moves, whichever way. That holds in the
/// frame of the press as in any later one. What is left pending is a press that has
/// not moved yet.
pub proof fn law_drag_starts(state: AppView, panel: Rect, pointer: Pointer)
    ensures
        ({
            let pressed = pointer.primary_pressed && match pointer.hover_pos {
                Some(position) => !crate::widgets::grip_area(panel).covers(position)
                    && !crate::widgets::close_area(panel).covers(position),
                None => false,
            };
            let ready = pointer.primary_down && (state.drag_pending || pressed);
            &&& pressed == presses(panel, pointer)
            &&& state.drags(panel, pointer) <==> ready && moves(pointer.delta)
            &&& state.pointed(panel, pointer).drag_pending <==> ready && !moves(pointer.delta)
            &&& state.pointed(panel, pointer).queue == state.queue
            &&& state.pointed(panel, pointer).is_receiving_data == state.is_receiving_data
        }),
{
}

/// The same over the numbers of a finite displacement: a press starts a drag in
/// its own frame if the pointer moves by more than `2^-75` points in either
/// direction, and in no other case.
pub proof fn law_press_with_a_move(state: AppView, panel: Rect, pointer: Pointer, position: Pos2)
    requires
        pointer.hover_pos == Some(position),
        !crate::widgets::grip_area(panel).covers(position),
        !crate::widgets::close_area(panel).covers(position),
        pointer.primary_pressed,
        pointer.primary_down,
        !pointer.delta.x.is_nan() && !pointer.delta.x.is_infinite(),
        !pointer.delta.y.is_nan() && !pointer.delta.y.is_infinite(),
    ensures
        state.drags(panel, pointer) <==> abs(pointer.delta.x.value()) > pow2(74) || abs(
            pointer.delta.y.value(),
        ) > pow2(74),
        state.pointed(panel, pointer).drag_pending == !state.drags(panel, pointer),
{
    law_moves(pointer.delta);
}

/// Which way the pointer moves does not matter, nor does where it is once a drag is
/// pending.
pub proof fn law_direction_does_not_matter(
    state: AppView,
    panel: Rect,
    pointer: Pointer,
    other: Pointer,
)
    requires
        pointer.primary_down == other.primary_down,
        moves(pointer.delta) == moves(other.delta),
        state.drag_pending || (pointer.primary_pressed == other.primary_pressed
            && pointer.hover_pos == other.hover_pos),
    ensures
        state.drags(panel, pointer) == state.drags(panel, other),
        state.pointed(panel, pointer) == state.pointed(panel, other),
{
}

/// What a frame does to the state: a sample that came is last in the queue and
/// pushes every other one forward by one place, nothing else changes the queue, and
/// data that came once has come for good. The pointer is looked at only then.
pub proof fn law_frame(
    state: AppView,
    received: Option<Inputs>,
    panel: Rect,
    pointer: Pointer,
)
    requires
        state.queue.len() == 1000,
    ensures
        ({
            let next = state.next(received, panel, pointer);
            let data = state.is_receiving_data || received is Some;
            &&& next.queue.len() == 1000
            &&& received is None ==> next.queue == state.queue
            &&& received matches Some(inputs) ==> next.queue[999] == inputs && forall|i: int|
                0 <= i < 999 ==> #[trigger] next.queue[i] == state.queue[i + 1]
            &&& next.is_receiving_data == data
            &&& !data ==> next.drag_pending == state.drag_pending
            &&& data ==> next.drag_pending == (pointer.primary_down && (state.drag_pending
                || presses(panel, pointer)) && !moves(pointer.delta))
        }),
{
}

/// What a frame shows. Before data: the fallback, the close button, and a frame
/// after ten seconds. With data, whatever the pointer does: the plot, the resize
/// grip, the close button and another frame, in this order and each once; the
/// pointer can only put the start of a drag in front.
pub proof fn law_parts_of_a_frame(
    state: AppView,
    received: Option<Inputs>,
    panel: Rect,
    pointer: Pointer,
)
    ensures
        ({
            let steps = state.steps(received, panel, pointer);
            let count = steps.len() as int;
            let data = state.is_receiving_data || received is Some;
            &&& !data ==> {
                &&& count == 3
                &&& steps[0] == Step::GameNotRunning
                &&& steps[1] == Step::CloseButton
                &&& steps[2] == Step::Command(Command::RepaintAfter(10000))
            }
            &&& data ==> {
                &&& count == 4 || count == 5
                &&& steps[count - 4] == Step::InputPanel
                &&& steps[count - 3] == Step::ResizeGrip
                &&& steps[count - 2] == Step::CloseButton
                &&& steps[count - 1] == Step::Command(Command::Repaint)
                &&& count == 5 ==> steps[0] == Step::Command(Command::StartDrag)
                &&& count == 5 <==> pointer.primary_down && (state.drag_pending || presses(
                    panel,
                    pointer,
                )) && moves(pointer.delta)
            }
        }),
{
}

/// Two pointers make frames with the same parts, but for the start of a drag.
pub proof fn law_pointer_changes_nothing_else(
    state: AppView,
    received: Option<Inputs>,
    panel: Rect,
    pointer: Pointer,
    other: Pointer,
)
    requires
        state.drags(panel, pointer) == state.drags(panel, other),
    ensures
        state.steps(received, panel, pointer) == state.steps(received, panel, other),
        state.next(received, panel, pointer).queue == state.next(received, panel, other).queue,
        state.next(received, panel, pointer).is_receiving_data == state.next(
            received,
            panel,
            other,
        ).is_receiving_data,
{
}

/// Before the first frame every place in the queue holds a released throttle and a
/// brake at a hundred percent, nothing has come, and no drag is pending.
pub proof fn law_before_the_first_frame(i: int)
    requires
        0 <= i < 1000,
    ensures
        AppView::initial().queue.len() == 1000,
        AppView::initial().queue[i].throttle.bits == 0,
        AppView::initial().queue[i].brake.value() == 100 * pow2(1074),
        !AppView::initial().drag_pending,
        !AppView::initial().is_receiving_data,
{
    crate::plot::lemma_range();
}

} // verus!
