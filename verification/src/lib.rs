//! A verified frame compositing and animation engine for per-key LED
//! lighting: layered visual state (idle substrate, progress bars,
//! notification markers, flash overlays) is rendered into flat color frames
//! and animated through a FIFO frame queue.

pub mod color;
pub mod engine;
pub mod events;
pub mod frame;
pub mod geometry;
pub mod notifications;
pub mod progress;
