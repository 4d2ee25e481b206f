//! A software (bit-banged) SPI bus master built from generic digital-pin
//! capabilities, with the bit-level shift protocol verified: MSB-first
//! serialization onto the data-out line, one clock pulse per bit with a
//! configurable idle polarity, and sampling of the data-in line on the
//! active phase of each pulse.

pub mod bits;
pub mod signal;
pub mod spi;
