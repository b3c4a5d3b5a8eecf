//! MCPL particle-list header codec: the byte layout of the header block,
//! its validation on read and on write, and the integer bookkeeping of the
//! particle region that follows it.

pub mod gzip;
pub mod stats;
pub mod statsum;
pub mod header;
pub mod read;
pub mod laws;
pub mod region;
