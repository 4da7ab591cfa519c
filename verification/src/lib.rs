//! Verified core of a log-rewriting pipeline: gzip-compressed files of
//! newline-delimited JSON records are decoded line by line, each record's
//! embedded epoch-seconds value is normalized to an epoch-milliseconds
//! `timestamp` field, and the record is routed to one of two compressed
//! output partitions (`cim` / `non_cim`) keyed by its `cimcompliance` field.

pub mod bytes;
pub mod numtext;
pub mod record;
pub mod ser;
pub mod codec;
pub mod gz;
pub mod clock;
pub mod route;
pub mod normalize;
pub mod naming;
pub mod lines;
pub mod sink;
pub mod pipeline;
