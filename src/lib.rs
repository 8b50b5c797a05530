//! Compute core of an audio visualiser: sample windows, the sizes and bins of
//! spectral downsampling, a min/max chunk pyramid for waveform plots,
//! spectrogram tiles with the choice of resolution level, and a colour
//! gradient for their cells.
//!
//! Samples and rates enter as order keys of their single-precision bit
//! patterns (`sample_key`); the numeric transforms stay with the caller.

pub mod colormap;
pub mod grid;
pub mod pixels;
pub mod preprocess;
pub mod sample_key;
pub mod spectrogram;
pub mod tile;
pub mod waveform;
pub mod window;

pub use colormap::{gradient_bytes, gradient_color, gradient_colors};
pub use preprocess::{downsampled_len, fft_size_for, fit_downsampled, fit_len, low_band};
pub use sample_key::{sample_bits, sample_key};
pub use spectrogram::{
    column_sample, fill_column, select_resolution, PassStep, Resolution, SpectrogramPass,
};
pub use tile::SpectrogramTile;
pub use waveform::{aggregate_minmax, clamp_range, paint_columns, paint_columns_bytes, WaveformRenderer};
pub use window::copy_centered_window;
