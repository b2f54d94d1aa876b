//! A segment-aware binary deserializer core.
//!
//! Values are read from a byte source through a *barrier*: a count of the
//! bytes that the current segment still allows to be read. Reads that would
//! cross the barrier fail with `ErrorKind::SegmentEnded` after skipping the
//! rest of the segment, which lets newer data layouts carry extra trailing
//! fields that older readers simply skip.

pub mod de;
pub mod error;
pub mod options;
pub mod read;
