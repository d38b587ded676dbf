use flying_dragon::geometry::{append_indices, MeshError};
use flying_dragon::input::{on_window_input, AppCommand, Flow, Key, KeyState, WindowInput};
use flying_dragon::{frame_action, surface_size, FrameAction, SurfaceStatus};

#[test]
fn surface_outcomes() {
    assert_eq!(frame_action(SurfaceStatus::Ready), FrameAction::Render);
    assert_eq!(frame_action(SurfaceStatus::Timeout), FrameAction::Skip);
    assert_eq!(frame_action(SurfaceStatus::Outdated), FrameAction::ReconfigureAndSkip);
    assert_eq!(frame_action(SurfaceStatus::Lost), FrameAction::ReconfigureAndSkip);
    assert_eq!(frame_action(SurfaceStatus::Occluded), FrameAction::Skip);
    assert_eq!(frame_action(SurfaceStatus::Invalid), FrameAction::ReconfigureAndSkip);
}

#[test]
fn surface_size_is_at_least_one() {
    assert_eq!(surface_size(0, 0), (1, 1));
    assert_eq!(surface_size(1024, 0), (1024, 1));
    assert_eq!(surface_size(1024, 768), (1024, 768));
}

fn released(key: Key) -> WindowInput {
    WindowInput::Keyboard { key, state: KeyState::Released }
}

#[test]
fn window_events() {
    assert_eq!(on_window_input(WindowInput::CloseRequested, Flow::Poll, false), AppCommand::Exit);
    assert_eq!(on_window_input(WindowInput::RedrawRequested, Flow::Poll, false), AppCommand::Ignore);
    assert_eq!(on_window_input(WindowInput::RedrawRequested, Flow::Poll, true), AppCommand::Draw);
    assert_eq!(
        on_window_input(WindowInput::Resized { width: 640, height: 480 }, Flow::Poll, true),
        AppCommand::Resize { width: 640, height: 480 }
    );
    assert_eq!(on_window_input(released(Key::Space), Flow::Poll, true), AppCommand::RestartClock);
    assert_eq!(on_window_input(released(Key::Escape), Flow::Wait, true), AppCommand::Exit);
    assert_eq!(on_window_input(released(Key::P), Flow::Poll, true), AppCommand::SetFlow(Flow::Wait));
    assert_eq!(on_window_input(released(Key::P), Flow::Wait, true), AppCommand::SetFlow(Flow::Poll));
    assert_eq!(on_window_input(released(Key::P), Flow::Other, true), AppCommand::Ignore);
    assert_eq!(
        on_window_input(WindowInput::Keyboard { key: Key::Escape, state: KeyState::Pressed }, Flow::Poll, true),
        AppCommand::Ignore
    );
    assert_eq!(on_window_input(released(Key::Other), Flow::Poll, true), AppCommand::Ignore);
    assert_eq!(on_window_input(WindowInput::Other, Flow::Poll, true), AppCommand::Ignore);
}

#[test]
fn merged_indices_are_shifted() {
    let mut merged = vec![0, 1, 2];
    assert_eq!(append_indices(&mut merged, 3, &vec![0, 2, 1]), Ok(()));
    assert_eq!(merged, vec![0, 1, 2, 3, 5, 4]);
    assert_eq!(append_indices(&mut merged, 10, &vec![]), Ok(()));
    assert_eq!(merged.len(), 6);
}

#[test]
fn merged_index_overflow_is_rejected() {
    let mut merged = vec![7];
    assert_eq!(
        append_indices(&mut merged, u32::MAX - 1, &vec![1, 2]),
        Err(MeshError::IndexOverflow)
    );
    assert_eq!(merged, vec![7]);
}
