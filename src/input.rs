//! What the application does with each window event.
use vstd::prelude::*;

verus! {

/// The keys the application reacts to.
#[derive(PartialEq, Eq, Structural, Clone, Copy, Debug)]
pub enum Key {
    Space,
    Escape,
    P,
    Other,
}

/// Whether a key went down or up.
#[derive(PartialEq, Eq, Structural, Clone, Copy, Debug)]
pub enum KeyState {
    Pressed,
    Released,
}

/// How the event loop waits between ticks.
#[derive(PartialEq, Eq, Structural, Clone, Copy, Debug)]
pub enum Flow {
    /// Tick continuously: the animation runs.
    Poll,
    /// Tick only on events: the animation is paused.
    Wait,
    /// Any other mode.
    Other,
}

/// A window event, reduced to what the application reads of it.
#[derive(PartialEq, Eq, Structural, Clone, Copy, Debug)]
pub enum WindowInput {
    CloseRequested,
    RedrawRequested,
    Resized { width: u32, height: u32 },
    Keyboard { key: Key, state: KeyState },
    Other,
}

/// What the application does in answer.
#[derive(PartialEq, Eq, Structural, Clone, Copy, Debug)]
pub enum AppCommand {
    /// Leave the event loop.
    Exit,
    /// Draw a frame.
    Draw,
    /// Resize the surface.
    Resize { width: u32, height: u32 },
    /// Restart the animation clock.
    RestartClock,
    /// Switch the event loop to another flow.
    SetFlow(Flow),
    /// Nothing.
    Ignore,
}

/// The answer to `input` while the loop runs in `flow`: closing the window
/// exits; without a renderer every other event is ignored; otherwise a redraw
/// draws, a resize resizes, releasing Space restarts the clock, releasing
/// Escape exits, and releasing P switches between polling and waiting.
pub open spec fn command_for(input: WindowInput, flow: Flow, has_renderer: bool) -> AppCommand {
    match input {
        WindowInput::CloseRequested => AppCommand::Exit,
        _ => if !has_renderer {
            AppCommand::Ignore
        } else {
            match input {
                WindowInput::RedrawRequested => AppCommand::Draw,
                WindowInput::Resized { width, height } => AppCommand::Resize { width, height },
                WindowInput::Keyboard { key, state: KeyState::Released } => match key {
                    Key::Space => AppCommand::RestartClock,
                    Key::Escape => AppCommand::Exit,
                    Key::P => match flow {
                        Flow::Poll => AppCommand::SetFlow(Flow::Wait),
                        Flow::Wait => AppCommand::SetFlow(Flow::Poll),
                        Flow::Other => AppCommand::Ignore,
                    },
                    Key::Other => AppCommand::Ignore,
                },
                _ => AppCommand::Ignore,
            }
        },
    }
}

/// Decides what the application does with one window event.
pub fn on_window_input(input: WindowInput, flow: Flow, has_renderer: bool) -> (r: AppCommand)
    ensures
        r == command_for(input, flow, has_renderer),
{
    if let WindowInput::CloseRequested = input {
        return AppCommand::Exit;
    }
    if !has_renderer {
        return AppCommand::Ignore;
    }
    match input {
        WindowInput::RedrawRequested => AppCommand::Draw,
        WindowInput::Resized { width, height } => AppCommand::Resize { width, height },
        WindowInput::Keyboard { key, state } => {
            if state == KeyState::Pressed {
                AppCommand::Ignore
            } else {
                match key {
                    Key::Space => AppCommand::RestartClock,
                    Key::Escape => AppCommand::Exit,
                    Key::P => match flow {
                        Flow::Poll => AppCommand::SetFlow(Flow::Wait),
                        Flow::Wait => AppCommand::SetFlow(Flow::Poll),
                        Flow::Other => AppCommand::Ignore,
                    },
                    Key::Other => AppCommand::Ignore,
                }
            }
        },
        _ => AppCommand::Ignore,
    }
}

} // verus!
