//! Extraction of targeted ion chromatograms (XICs) from the scans of
//! LC-MS acquisitions.
//!
//! Given the scans of an acquisition and a catalog of target compounds,
//! the library finds for each target ion the samples whose mass lies in
//! the ion's window, names the terms of the ion's summed intensity and
//! picks its retention time: the acquisition time at which the signal
//! peaked. It also holds the policy by which a list of acquisition files
//! is cut into batches.
//!
//! # Quantities
//!
//! Every measured quantity (a mass-to-charge ratio, an intensity, an
//! acquisition time) is carried as a *rank*: an `i64` that compares as the
//! quantity does, with `0` standing for the zero quantity. The library
//! compares ranks and hands them back; it never does arithmetic on them.
//! So the window around a mass is given to it, and a summed intensity
//! comes back as the terms of the sum, which the caller adds up.
//!
//! # Modules
//!
//! - [`spectrum`]: the scans of an acquisition.
//! - [`xic`]: the chromatogram of one ion and the peak in it.
//! - [`matching`]: the ion matcher, from a run and a window to the
//!   chromatogram's terms and retention time.
//! - [`measurements`]: the catalog of compounds and the measurement of a
//!   file.
//! - [`processing`]: the engine that runs the matcher over a catalog.
//! - [`batching`]: batches of files.
//! - [`loading`]: what is computed once a file has been read.
//! - [`parallel`]: fan-out over a worker pool.

pub mod batching;
pub mod loading;
pub mod matching;
pub mod measurements;
pub mod parallel;
pub mod processing;
pub mod spectrum;
pub mod xic;
