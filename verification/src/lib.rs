//! Verified core of an audio-reactive visualizer: the HUD text rasterizer, the
//! rolling sample window, the frame-readback conversions, the output selection
//! for direct scanout, the decisions of the windowed front end, the bass band of
//! the spectrum, and the audio-session paths restored under sudo.
pub mod text;
pub mod window;
pub mod frame;
pub mod display;
pub mod windowed;
pub mod spectrum;
pub mod session;
