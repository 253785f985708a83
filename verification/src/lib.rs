//! A spectral compressor bank in fixed-point arithmetic: dynamic range
//! compression applied independently to every frequency bin of a short-time
//! Fourier frame, with every function verified against its contract.
//!
//! Once per block, [`bank::CompressorBank::process`] takes the spectrum of
//! every channel and, bin by bin, moves the bin's envelope towards the bin's
//! magnitude ([`envelope`]), measures the envelope against the target of the
//! channel's frame ([`spectrum`]), turns the level difference into a gain by
//! the thresholds and ratios of the six knobs ([`gain`], [`params`]), and
//! scales the bin by that gain, which leaves its phase alone.
//!
//! Nothing here is floating point. Magnitudes and gains are Q16 integers,
//! levels are whole millidecibels, ratios are thousandths and times are
//! microseconds; [`decibel`] converts between magnitudes and levels on top of
//! the base-two logarithm and power of [`logarithm`], which come with a
//! proved bound on how far they are from the true ones, and of the integer
//! roots of [`numeric`].

pub mod bank;
pub mod decibel;
pub mod envelope;
pub mod gain;
pub mod logarithm;
pub mod numeric;
pub mod params;
pub mod spectrum;
