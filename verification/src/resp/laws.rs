//! What holds of the wire format, proved once and for all.
//!
//! * [`round_trip`]: the wire form of a well-formed frame reads back as the
//!   frame, with nothing left over.
//! * [`delivery`]: until its last byte has arrived, a frame reads as
//!   incomplete.
//! * [`sound`]: what is read is well formed and lies within the bytes; a
//!   byte that is no tag starts no frame.
//! * [`settled`]: more bytes never change a verdict; the order in which
//!   keys are put into a map does not show on the wire.
//! * [`lines`]: how lines and headers read.

pub mod delivery;
pub mod lines;
pub mod round_trip;
pub mod settled;
pub mod sound;
