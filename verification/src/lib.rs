//! Recovery of symbolic music from a page of engraved notation given as a
//! vector-graphics content stream.
//!
//! The pipeline interprets drawing operations into canonical geometry
//! ([`interp`]), detects staves and bars from line statistics ([`recognizer`],
//! [`stanza`]), collects noteheads into two timed voices per staff
//! ([`collector`]), and merges the voices into an absolute-time event list
//! ([`smf`]). All geometry is carried in fixed-point arithmetic ([`fixed`])
//! so that equality and ordering are exact.

pub mod bar;
pub mod collector;
pub mod fixed;
pub mod geom;
pub mod interp;
pub mod matrix;
pub mod recognizer;
pub mod smf;
pub mod stanza;
pub mod stems;
