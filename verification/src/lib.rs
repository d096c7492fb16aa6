//! The exact parts of a synthetic performance-measurement suite, each with a
//! contract that is proved against a mathematical model of what it computes.
//!
//! - `cpu`: primality by trial division and the prime count of the prime
//!   kernel.
//! - `fft`: bit reversal, the bit-reversal pass of the in-place transform and
//!   the buffer length it needs.
//! - `matrix`: the row bands of the parallel matrix kernel and the merge of a
//!   band into the shared result.
//! - `rounds`: the repeat-count policy of the kernels that finish too fast to
//!   time.
//! - `stats`: the rank of a percentile among sorted measurements.
//! - `memory`, `disk`: the byte pattern and checksum of the memory kernel,
//!   the aligned buffers of the disk kernel.
//! - `args`: the command line.
//! - `sysinfo_capture`: the record of the machine a run was made on.
//! - `board_game`: noughts and crosses under exhaustive search.
//!
//! Arithmetic on real numbers (throughput, the matrix product, the escape
//! iteration, the butterflies, mean and deviation) and all input and output
//! are left to the program that uses this library.

pub mod args;
pub mod board_game;
pub mod cpu;
pub mod disk;
pub mod fft;
pub mod matrix;
pub mod memory;
pub mod rounds;
pub mod stats;
pub mod sysinfo_capture;
