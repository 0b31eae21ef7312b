//! A pedal overlay: samples of the throttle and the brake, read from a racing
//! game's shared memory, plotted in a small window that stays on top.

pub mod app;
pub mod binary32;
pub mod binary64;
pub mod color;
pub mod geometry;
pub mod plot;
pub mod rounding;
pub mod sampler;
pub mod telemetry;
pub mod widgets;

pub use app::{add_window_drag, draw_game_not_running_fallback, App, Pointer, Step};
pub use plot::draw_input_lines;
pub use telemetry::{Inputs, PhysicsPage, INFINITE, PERIOD_100NS, PERIOD_MS};
pub use widgets::{draw_close_button, draw_resize_grip};
