//! What the thread that samples the game does next.
use crate::telemetry::{Inputs, PhysicsPage, PAGE_SIZE, PERIOD_MS};
use vstd::prelude::*;

verus! {

/// How long to wait before the shared memory is looked for again, in
/// milliseconds.
pub const RETRY_MS: u64 = 5000;

/// How many samples may wait for the window to take them.
pub const CHANNEL_CAPACITY: usize = 1000;

/// What happened last.
#[derive(Clone, Copy, Debug)]
pub enum Event {
    /// The shared memory could not be opened.
    OpenFailed,
    /// The shared memory was opened.
    Opened,
    /// The ticker ticked, and these are the bytes of the page.
    Ticked([u8; PAGE_SIZE]),
    /// The inputs were handed over, or nobody takes them any more.
    Sent,
}

/// What to do next.
#[derive(Clone, Copy, Debug)]
pub enum Action {
    /// Sleep for so many milliseconds, then open the shared memory.
    OpenAfter(u64),
    /// Start a ticker with a period of so many milliseconds and wait for it.
    StartTicking(u64),
    /// Hand these inputs over to the window.
    Send(Inputs),
    /// Wait for the ticker.
    WaitForTick,
}

/// Opening is tried until it succeeds; from then on each tick's page is handed
/// over as inputs, without an end.
pub fn next_action(event: Event) -> (action: Action)
    ensures
        match event {
            Event::OpenFailed => action == Action::OpenAfter(RETRY_MS),
            Event::Opened => action == Action::StartTicking(PERIOD_MS),
            Event::Ticked(bytes) => {
                let page = PhysicsPage::parsed(bytes@);
                action == Action::Send(
                    Inputs { throttle: crate::telemetry::percent(page.throttle), brake: crate::telemetry::percent(page.brake) },
                )
            },
            Event::Sent => action == Action::WaitForTick,
        },
{
    match event {
        Event::OpenFailed => Action::OpenAfter(RETRY_MS),
        Event::Opened => Action::StartTicking(PERIOD_MS),
        Event::Ticked(bytes) => Action::Send(Inputs::from(PhysicsPage::from_bytes(&bytes))),
        Event::Sent => Action::WaitForTick,
    }
}

} // verus!
