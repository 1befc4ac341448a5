//! Flow-cytometry (FCS) file decoding and event gating.
//!
//! The decoder reads a file held in memory: the fixed header, the delimited
//! metadata segment, and the data segment, split into one column of raw
//! elements per channel. Gating turns per-event membership into index lists
//! and intersects them; projection reads channels back out as point pairs or
//! as an export table.
mod dataset;
mod element;
mod error;
mod gating;
mod header;
mod metadata;
mod projection;
mod text;

pub use dataset::{
    channel_gains, channel_names, decode_dataset, decode_fcs, deinterleave, element_kind,
    is_big_endian, ElementKind, FcsData, FcsMetadata, HeaderSummary,
};
pub use element::read_element;
pub use error::FcsError;
pub use gating::{intersect_filters, ray_parity, select_indices, FilterResult};
pub use header::{parse_header, FcsHeader, HEADER_LEN};
pub use metadata::{bytes_equal, copy_range, parse_metadata, MetadataMap};
pub use projection::{
    find_channel, parse_export_format, project_points, project_table, select_rows, ChannelPair,
    ExportFormat,
};
pub use text::{decimal_bytes, parse_decimal, trim_ws};
