//! Rendering of human-readable diagnostic messages.
//!
//! A diagnostic carries a severity, a file name, a message, and optionally a
//! half-open byte range into the source text it concerns.  The library maps
//! the byte offset to a line and column, lays the diagnostic out as five text
//! segments (header, severity label, message, context line, caret line), and
//! paints the segments with ANSI styles for terminal display.

pub mod diagnostics;
pub mod locate;
pub mod style;
