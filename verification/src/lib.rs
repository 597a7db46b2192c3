//! Control of a tube-cutting machine over a serial line.
//!
//! The library builds G-code programs for cuts across a tube, among them the
//! split cut that is made in two halves from the middle outward; it reads
//! the machine's status reports; and it gates the flow of commands to the
//! machine, so that one line at a time is in flight.
//!
//! All quantities are counts of thousandths, held in `i64`: thousandths of a
//! millimetre, of a second, of a degree, of a millimetre per minute. The
//! library neither reads nor writes: a front end hands it bytes and takes
//! bytes back.

pub mod cut;
pub mod fixed;
pub mod gcode;
pub mod scan;
pub mod sender;
pub mod settings;
pub mod simple;
pub mod status;
