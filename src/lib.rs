//! Windowed packet-stream feature extraction.
//!
//! A stream of decoded packets is cut into non-overlapping time windows; for
//! each window the library aggregates protocol counters, a flow table, a
//! port table, TCP flag tallies and size samples, and seals the window into
//! one feature record.
//!
//! Times are whole microseconds and every value of a record is an exact
//! integer: ratios, means, spreads and rates follow from the record's totals
//! (the spread from `size_sum_of_squares`), and rates divide by the
//! configured window length even for a final window that was cut short.

pub mod packet;
pub mod aggregate;
pub mod histogram;
pub mod ranking;
pub mod window;
pub mod engine;
pub mod laws;
