use flowengine::spectrum::bass_band_sum;
use flowengine::windowed::{frame_tick, on_frame_outcome, on_window_event, pick_surface_format, Action, FrameOutcome, WindowInput};

#[test]
fn surface_format_prefers_linear() {
    assert_eq!(pick_surface_format(&vec![true, false, false]), 1);
    assert_eq!(pick_surface_format(&vec![true, true]), 0);
    assert_eq!(pick_surface_format(&vec![false]), 0);
}

#[test]
fn window_events_without_gpu_are_ignored() {
    assert_eq!(on_window_event(false, WindowInput::CloseRequested), Action::Nothing);
    assert_eq!(on_window_event(false, WindowInput::RedrawRequested), Action::Nothing);
}

#[test]
fn window_events_with_gpu() {
    assert_eq!(on_window_event(true, WindowInput::CloseRequested), Action::Exit);
    assert_eq!(on_window_event(true, WindowInput::Key { escape: true, space: false, pressed: false }), Action::Exit);
    assert_eq!(on_window_event(true, WindowInput::Key { escape: false, space: true, pressed: true }), Action::ToggleBars);
    assert_eq!(on_window_event(true, WindowInput::Key { escape: false, space: true, pressed: false }), Action::Nothing);
    assert_eq!(on_window_event(true, WindowInput::Key { escape: false, space: false, pressed: true }), Action::Nothing);
    assert_eq!(on_window_event(true, WindowInput::Resized { width: 800, height: 600 }), Action::Resize { width: 800, height: 600 });
    assert_eq!(on_window_event(true, WindowInput::RedrawRequested), Action::Render);
    assert_eq!(on_window_event(true, WindowInput::Other), Action::Nothing);
}

#[test]
fn frame_outcomes() {
    assert_eq!(on_frame_outcome(FrameOutcome::Presented, 10, 20), Action::Nothing);
    assert_eq!(on_frame_outcome(FrameOutcome::SurfaceLost, 10, 20), Action::Resize { width: 10, height: 20 });
    assert_eq!(on_frame_outcome(FrameOutcome::SurfaceOutdated, 10, 20), Action::Resize { width: 10, height: 20 });
    assert_eq!(on_frame_outcome(FrameOutcome::OutOfMemory, 10, 20), Action::Exit);
    assert_eq!(on_frame_outcome(FrameOutcome::OtherError, 10, 20), Action::Report);
}

#[test]
fn snapshots_every_thirtieth_frame() {
    assert_eq!(frame_tick(0, true), (true, 1));
    assert_eq!(frame_tick(29, true), (false, 30));
    assert_eq!(frame_tick(30, true), (true, 31));
    assert_eq!(frame_tick(30, false), (false, 31));
    assert_eq!(frame_tick(u32::MAX, true), (false, 0));
}

#[test]
fn bass_band_adds_bins_1_to_16() {
    let mut bytes = [0u8; 256];
    for (i, b) in bytes.iter_mut().enumerate() {
        *b = i as u8;
    }
    assert_eq!(bass_band_sum(&bytes), (1..=16).sum::<u32>());
    assert_eq!(bass_band_sum(&[255u8; 256]), 16 * 255);
}
