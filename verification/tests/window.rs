use egui::{pos2, vec2, Color32};
use std::collections::VecDeque;
use telemetry_overlay::app::{
    draw_input_panel, visuals, window_options, HEADING, IDLE_REPAINT_MS, SAMPLES,
};
use telemetry_overlay::binary32::Binary32;
use telemetry_overlay::binary64::Binary64;
use telemetry_overlay::color::Color;
use telemetry_overlay::geometry::{Pos2, Rect, Vec2};
use telemetry_overlay::plot::line_from_inputs;
use telemetry_overlay::widgets::{
    close_button_interaction, close_button_rect, drag_area, drag_area_interaction,
    resize_grip_interaction, resize_grip_rect, Command, CursorIcon, Interaction, Sense, Shape,
};
use telemetry_overlay::{
    add_window_drag, draw_close_button, draw_game_not_running_fallback, draw_input_lines,
    draw_resize_grip, App, Inputs, Pointer, Step,
};

fn single(x: f32) -> Binary32 {
    Binary32 { bits: x.to_bits() }
}

fn double(x: f64) -> Binary64 {
    Binary64 { bits: x.to_bits() }
}

fn at(p: egui::Pos2) -> Pos2 {
    Pos2 { x: single(p.x), y: single(p.y) }
}

fn rect(r: egui::Rect) -> Rect {
    Rect { min: at(r.min), max: at(r.max) }
}

fn color(c: Color32) -> Color {
    let [r, g, b, a] = c.to_array();
    Color { r, g, b, a }
}

fn sample(n: usize) -> Inputs {
    Inputs::new(double(n as f64), double(100.0 - n as f64))
}

fn panels() -> Vec<egui::Rect> {
    vec![
        egui::Rect::from_min_max(pos2(0.0, 0.0), pos2(600.0, 125.0)),
        egui::Rect::from_min_max(pos2(8.0, 8.0), pos2(299.33334, 99.7)),
        egui::Rect::from_min_max(pos2(-3.25, 0.1), pos2(0.3, 7.7)),
        egui::Rect::from_min_max(pos2(1.0e7, 1.0e7), pos2(1.6777217e7, 3.0e7)),
    ]
}

fn grip(panel: egui::Rect) -> egui::Rect {
    egui::Rect::from_min_size(
        pos2(panel.right() - 14.0, panel.bottom() - 14.0),
        egui::Vec2::splat(14.0),
    )
}

fn button(panel: egui::Rect) -> egui::Rect {
    egui::Rect::from_min_size(
        pos2(panel.right() - 20.0 - 4.0, panel.top() + 4.0),
        egui::Vec2::splat(20.0),
    )
}

fn pointer(pressed: bool, down: bool, dx: f32, dy: f32, hover: Option<(f32, f32)>) -> Pointer {
    Pointer {
        primary_pressed: pressed,
        primary_down: down,
        delta: Vec2 { x: single(dx), y: single(dy) },
        hover_pos: hover.map(|(x, y)| at(pos2(x, y))),
    }
}

fn idle() -> Pointer {
    pointer(false, false, 0.0, 0.0, None)
}

fn small_panel() -> Rect {
    rect(panels()[0])
}

fn app() -> App {
    let (_sender, receiver) = flume::bounded(1);
    App::new(receiver)
}

#[test]
fn controls_are_where_the_toolkit_puts_them() {
    for panel in panels() {
        assert_eq!(resize_grip_rect(rect(panel)), rect(grip(panel)));
        assert_eq!(close_button_rect(rect(panel)), rect(button(panel)));
    }
}

#[test]
fn controls_are_in_the_corners_of_a_whole_panel() {
    let square = |left: f32, top: f32, right: f32, bottom: f32| Rect {
        min: at(pos2(left, top)),
        max: at(pos2(right, bottom)),
    };
    assert_eq!(resize_grip_rect(small_panel()), square(586.0, 111.0, 600.0, 125.0));
    assert_eq!(close_button_rect(small_panel()), square(576.0, 4.0, 596.0, 24.0));
}

#[test]
fn hit_tests_agree_with_the_toolkit() {
    for panel in panels() {
        for area in [grip(panel), button(panel)] {
            for dx in [-1.0, -0.001, 0.0, 3.0, 13.999, 14.0, 14.001, 20.0, 21.0, f32::NAN] {
                for dy in [-1.0, 0.0, 7.5, 14.0, 20.0, 20.001] {
                    let p = area.min + vec2(dx, dy);
                    assert_eq!(rect(area).contains(at(p)), area.contains(p));
                }
            }
        }
    }
}

#[test]
fn lengths_agree_with_the_toolkit() {
    for (x, y) in [(3.0, 4.0), (0.1, -0.7), (1.0e-20, 1.0e-23), (1.0e30, 0.0), (0.0, 0.0)] {
        let ours = Vec2 { x: single(x), y: single(y) }.length_sq();
        assert_eq!(ours, single(vec2(x, y).length_sq()));
    }
}

#[test]
fn resize_grip_is_two_diagonal_lines() {
    for panel in panels() {
        let drawing = draw_resize_grip(rect(panel), false, false);
        let br = grip(panel).right_bottom();
        let width = single(1.5);
        let col = color(Color32::from_rgba_unmultiplied(180, 180, 200, 160));
        let line = |size: f32| Shape::Segment {
            from: at(br - vec2(size, 0.0)),
            to: at(br - vec2(0.0, size)),
            width,
            color: col,
        };
        let grip_size = 14.0;
        assert_eq!(drawing.shapes, vec![line(grip_size), line(grip_size * 0.55)]);
        assert_eq!(drawing.commands, vec![]);
    }
}

#[test]
fn resize_grip_resizes_when_dragged() {
    let drawing = draw_resize_grip(small_panel(), true, false);
    assert_eq!(drawing.commands, vec![Command::BeginResizeSouthEast]);
    let drawing = draw_resize_grip(small_panel(), true, true);
    assert_eq!(
        drawing.commands,
        vec![
            Command::BeginResizeSouthEast,
            Command::Cursor(CursorIcon::ResizeNwSe),
            Command::Repaint,
        ],
    );
}

#[test]
fn close_button_is_a_cross_on_a_background() {
    for panel in panels() {
        for hovered in [false, true] {
            let drawing = draw_close_button(rect(panel), false, hovered);
            let btn = button(panel);
            let background = if hovered {
                Color32::from_rgba_unmultiplied(210, 50, 50, 220)
            } else {
                Color32::from_rgba_unmultiplied(80, 80, 100, 140)
            };
            let cross = color(Color32::from_rgb(230, 230, 235));
            let m = 5.0;
            let expected = vec![
                Shape::FilledRect {
                    rect: rect(btn),
                    corner_radius: single(4.0),
                    color: color(background),
                },
                Shape::Segment {
                    from: at(btn.min + vec2(m, m)),
                    to: at(btn.max - vec2(m, m)),
                    width: single(1.5),
                    color: cross,
                },
                Shape::Segment {
                    from: at(pos2(btn.max.x - m, btn.min.y + m)),
                    to: at(pos2(btn.min.x + m, btn.max.y - m)),
                    width: single(1.5),
                    color: cross,
                },
            ];
            assert_eq!(drawing.shapes, expected);
        }
    }
}

#[test]
fn background_is_premultiplied() {
    let drawing = draw_close_button(small_panel(), false, true);
    match drawing.shapes[0] {
        Shape::FilledRect { color, .. } => {
            // 210 * 220 / 255 = 181.2 and 50 * 220 / 255 = 43.1
            assert_eq!(color, Color { r: 181, g: 43, b: 43, a: 220 });
        }
        other => panic!("{other:?}"),
    }
}

#[test]
fn close_button_closes_when_clicked() {
    assert_eq!(draw_close_button(small_panel(), false, false).commands, vec![]);
    assert_eq!(draw_close_button(small_panel(), true, false).commands, vec![Command::Close]);
    assert_eq!(
        draw_close_button(small_panel(), true, true).commands,
        vec![
            Command::Close,
            Command::Cursor(CursorIcon::PointingHand),
            Command::Repaint,
        ],
    );
}

#[test]
fn panels_have_their_parts() {
    assert_eq!(
        draw_game_not_running_fallback(),
        vec![Step::Heading("Start driving"), Step::DragArea, Step::ResizeGrip],
    );
    assert_eq!(draw_input_panel(), vec![Step::InputLines, Step::DragArea]);
    assert_eq!(drag_area(true), Some(Command::StartDrag));
    assert_eq!(drag_area(false), None);
    assert_eq!(HEADING, "Start driving");
}

#[test]
fn controls_are_registered_with_their_ids() {
    for panel in panels() {
        assert_eq!(
            resize_grip_interaction(rect(panel)),
            Interaction {
                rect: rect(grip(panel)),
                id: "resize_grip",
                sense: Sense::ClickAndDrag,
            },
        );
        assert_eq!(
            close_button_interaction(rect(panel)),
            Interaction { rect: rect(button(panel)), id: "close_button", sense: Sense::Click },
        );
        assert_eq!(
            drag_area_interaction(rect(panel)),
            Interaction { rect: rect(panel), id: "drag", sense: Sense::Drag },
        );
    }
}

#[test]
fn the_window_is_opened_on_top() {
    let options = window_options();
    assert_eq!(options.title, "Pedal Overlay");
    assert_eq!(options.inner_size, Vec2 { x: single(600.0), y: single(125.0) });
    assert_eq!(options.min_inner_size, Vec2 { x: single(300.0), y: single(100.0) });
    assert!(!options.decorations && options.transparent && options.always_on_top);
}

#[test]
fn colors_of_the_window() {
    let visuals = visuals();
    assert!(visuals.dark_mode);
    assert_eq!(visuals.panel_fill, color(Color32::TRANSPARENT));
    assert_eq!(visuals.window_fill, color(Color32::TRANSPARENT));
    assert_eq!(visuals.override_text_color, color(Color32::from_rgb(220, 225, 232)));
}

#[test]
fn queue_starts_full_of_placeholders() {
    let app = app();
    assert_eq!(app.queue().len(), 1000);
    assert!(app.queue().iter().all(|i| *i == Inputs::new(double(0.0), double(100.0))));
}

#[test]
fn fallback_is_shown_until_data_comes() {
    let mut app = app();
    let waiting = vec![
        Step::GameNotRunning,
        Step::CloseButton,
        Step::Command(Command::RepaintAfter(10000)),
    ];
    let running = vec![
        Step::InputPanel,
        Step::ResizeGrip,
        Step::CloseButton,
        Step::Command(Command::Repaint),
    ];
    assert_eq!(IDLE_REPAINT_MS, 10000);
    assert_eq!(app.update(None, small_panel(), idle()), waiting);
    assert_eq!(app.update(Some(sample(1)), small_panel(), idle()), running);
    assert_eq!(app.update(None, small_panel(), idle()), running);
}

#[test]
fn a_sample_takes_the_place_of_the_oldest() {
    let mut app = app();
    app.update(Some(sample(1)), small_panel(), idle());
    app.update(None, small_panel(), idle());
    app.update(Some(sample(2)), small_panel(), idle());
    assert_eq!(app.queue().len(), 1000);
    assert_eq!(app.queue()[997], Inputs::new(double(0.0), double(100.0)));
    assert_eq!(app.queue()[998], sample(1));
    assert_eq!(app.queue()[999], sample(2));
}

#[test]
fn queue_shows_the_latest_samples() {
    let mut app = app();
    for n in 0..2500 {
        app.update(Some(sample(n)), small_panel(), idle());
    }
    assert_eq!(app.queue().len(), SAMPLES);
    for (i, inputs) in app.queue().iter().enumerate() {
        assert_eq!(*inputs, sample(1500 + i));
    }
}

#[test]
fn a_frame_takes_one_sample_from_the_channel() {
    let (sender, receiver) = flume::bounded(10);
    let mut app = App::new(receiver);
    assert_eq!(app.ui(small_panel(), idle())[0], Step::GameNotRunning);
    sender.send(sample(1)).unwrap();
    sender.send(sample(2)).unwrap();
    assert_eq!(app.ui(small_panel(), idle())[0], Step::InputPanel);
    assert_eq!(app.queue()[999], sample(1));
    assert_eq!(sender.len(), 1);
    app.ui(small_panel(), idle());
    assert_eq!(app.queue()[998], sample(1));
    assert_eq!(app.queue()[999], sample(2));
    drop(sender);
    assert_eq!(app.ui(small_panel(), idle())[0], Step::InputPanel);
    assert_eq!(app.queue()[999], sample(2));
}

#[test]
fn a_press_and_a_move_drag_the_window_once() {
    let mut app = app();
    let panel = small_panel();
    let middle = Some((300.0, 60.0));
    assert_eq!(add_window_drag(panel, pointer(true, true, 0.0, 0.0, middle), &mut app), None);
    assert_eq!(add_window_drag(panel, pointer(false, true, 0.0, 0.0, middle), &mut app), None);
    assert_eq!(
        add_window_drag(panel, pointer(false, true, 1.0, 0.0, middle), &mut app),
        Some(Command::StartDrag),
    );
    assert_eq!(add_window_drag(panel, pointer(false, true, 1.0, 0.0, middle), &mut app), None);
}

#[test]
fn a_press_with_a_move_drags_at_once() {
    let mut app = app();
    app.update(Some(sample(0)), small_panel(), idle());
    let steps = app.update(
        None,
        small_panel(),
        pointer(true, true, 0.0, -0.5, Some((300.0, 60.0))),
    );
    assert_eq!(steps[0], Step::Command(Command::StartDrag));
    assert_eq!(steps.len(), 5);
}

#[test]
fn a_press_on_a_control_does_not_drag() {
    let panel = small_panel();
    for spot in [(590.0, 120.0), (586.0, 111.0), (600.0, 125.0), (580.0, 10.0), (576.0, 4.0)] {
        let mut app = app();
        add_window_drag(panel, pointer(true, true, 0.0, 0.0, Some(spot)), &mut app);
        let moved = pointer(false, true, 5.0, 5.0, Some((300.0, 60.0)));
        assert_eq!(add_window_drag(panel, moved, &mut app), None, "{spot:?}");
    }
}

#[test]
fn releasing_the_button_forgets_the_press() {
    let mut app = app();
    let panel = small_panel();
    let middle = Some((300.0, 60.0));
    add_window_drag(panel, pointer(true, true, 0.0, 0.0, middle), &mut app);
    add_window_drag(panel, pointer(false, false, 0.0, 0.0, middle), &mut app);
    assert_eq!(add_window_drag(panel, pointer(false, true, 9.0, 9.0, middle), &mut app), None);
}

#[test]
fn a_press_outside_the_window_does_not_drag() {
    let mut app = app();
    assert_eq!(
        add_window_drag(small_panel(), pointer(true, true, 9.0, 9.0, None), &mut app),
        None,
    );
}

#[test]
fn displacements_too_small_to_square_do_not_drag() {
    let panel = small_panel();
    let middle = Some((300.0, 60.0));
    let edge = f32::from_bits((127 - 75) << 23);
    for (delta, drags) in [(edge, false), (f32::from_bits(edge.to_bits() + 1), true)] {
        assert_eq!(vec2(delta, 0.0).length_sq() > 0.0, drags);
        let mut app = app();
        let command = add_window_drag(panel, pointer(true, true, delta, 0.0, middle), &mut app);
        assert_eq!(command.is_some(), drags);
    }
}

#[test]
fn the_pointer_is_ignored_before_data_comes() {
    let mut app = app();
    let panel = small_panel();
    app.update(None, panel, pointer(true, true, 0.0, 0.0, Some((300.0, 60.0))));
    let steps = app.update(Some(sample(0)), panel, pointer(false, true, 4.0, 0.0, None));
    assert_eq!(steps[0], Step::InputPanel);
}

#[test]
fn lines_follow_the_queue() {
    let queue: VecDeque<Inputs> = (0..1000).map(sample).collect();
    let lines = line_from_inputs(&queue);
    assert_eq!(lines.throttle.points.len(), 1000);
    assert_eq!(lines.brake.points.len(), 1000);
    for i in 0..1000 {
        assert_eq!(lines.throttle.points[i].x, double(i as f64));
        assert_eq!(lines.throttle.points[i].y, queue[i].throttle());
        assert_eq!(lines.brake.points[i].x, double(i as f64));
        assert_eq!(lines.brake.points[i].y, queue[i].brake());
    }
    assert_eq!(lines.throttle.color, color(Color32::GREEN));
    assert_eq!(lines.brake.color, color(Color32::RED));
    assert_eq!(lines.throttle.name, "inputs");
    assert_eq!(lines.brake.name, "inputs");
    assert_eq!(lines.throttle.width, single(2.0));
    assert_eq!(lines.brake.width, single(2.0));
    assert!(line_from_inputs(&VecDeque::new()).throttle.points.is_empty());
}

#[test]
fn the_plot_cannot_be_moved() {
    let plot = draw_input_lines(&VecDeque::from([sample(3)]));
    let o = plot.options;
    assert_eq!(o.id, "pedal_inputs");
    assert_eq!(o.include_x, double(0.0));
    assert_eq!(o.include_y, (double(0.0), double(100.0)));
    assert!(!o.allow_zoom && !o.allow_drag && !o.allow_boxed_zoom && !o.allow_scroll);
    assert!(!o.allow_double_click_reset && !o.show_background && !o.show_x && !o.show_y);
    assert_eq!(o.show_axes, (false, true));
    assert_eq!(o.show_grid, (false, true));
    assert!(o.clamp_grid);
    assert_eq!(plot.lines.throttle.points[0].y, double(3.0));
    assert_eq!(plot.lines.brake.points[0].y, double(97.0));
}
