//! Spectral analysis of captured audio for an audio-reactive renderer.
//!
//! Captured chunks queue up in a [`store::BufferManager`]; each frame takes
//! an exact span of time from the front of the queue, cut to a power-of-two
//! transform size, with a per-size transform state kept in a
//! [`cache::SpectralCache`] and the transform indices clipped to the
//! configured frequencies. [`pod`] and [`format`] read and build the format
//! objects that a capture stream negotiates with.
pub mod cache;
pub mod chunk;
pub mod format;
pub mod pod;
pub mod spectrum;
pub mod store;
