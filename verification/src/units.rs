//! Physical units carried as integers counting hundredths: degrees
//! Celsius and watts. All arithmetic on them is exact and proved free
//! of overflow; the textual renderings are specified to the byte.

pub mod celsius;
pub mod watts;

pub use celsius::Celsius;
pub use celsius::ABSOLUTE_ZERO_CENTI;
pub use watts::Watts;
