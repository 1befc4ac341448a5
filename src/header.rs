//! The fixed 58-byte header: a version tag and the segment offsets.
use vstd::prelude::*;
use vstd::utf8::valid_utf8;
use crate::error::FcsError;
use crate::metadata::{copy_range, is_utf8};
use crate::text::{decimal_spec, parse_decimal, trim_ws, trim_spec};

verus! {

/// Length of the fixed header.
pub const HEADER_LEN: usize = 58;

/// The offsets that the header declares, and its version tag.
pub struct FcsHeader {
    pub version: Vec<u8>,
    pub text_start: usize,
    pub text_end: usize,
    pub data_start: usize,
    pub data_end: usize,
    pub analysis_start: usize,
    pub analysis_end: usize,
}

/// The number written, padded with whitespace, in `file[lo..hi]`.
pub open spec fn field_spec(file: Seq<u8>, lo: int, hi: int) -> Option<nat> {
    decimal_spec(trim_spec(file.subrange(lo, hi)))
}

/// When a header can be read from `file`.
pub open spec fn header_ok(file: Seq<u8>) -> bool {
    &&& file.len() >= 58
    &&& valid_utf8(file.subrange(0, 6))
    &&& valid_utf8(file.subrange(42, 50))
    &&& valid_utf8(file.subrange(50, 58))
    &&& field_spec(file, 10, 18) is Some
    &&& field_spec(file, 18, 26) is Some
    &&& field_spec(file, 26, 34) is Some
    &&& field_spec(file, 34, 42) is Some
}

/// An optional field's value, zero where it does not parse.
pub open spec fn field_or_zero(file: Seq<u8>, lo: int, hi: int) -> nat {
    match field_spec(file, lo, hi) {
        Some(v) => v,
        None => 0,
    }
}

fn read_field(file: &[u8], lo: usize, hi: usize) -> (r: Option<usize>)
    requires
        lo <= hi <= file@.len(),
    ensures
        match field_spec(file@, lo as int, hi as int) {
            Some(v) => r == Some(v as usize),
            None => r is None,
        },
{
    let raw = copy_range(file, lo, hi);
    let t = trim_ws(raw.as_slice());
    parse_decimal(t.as_slice())
}

/// Reads the fixed header at the start of `file`.
pub fn parse_header(file: &[u8]) -> (r: Result<FcsHeader, FcsError>)
    ensures
        r is Ok <==> header_ok(file@),
        r matches Err(e) ==> e == FcsError::MalformedHeader,
        r matches Ok(h) ==> {
            &&& h.version@ == file@.subrange(0, 6)
            &&& Some(h.text_start as nat) == field_spec(file@, 10, 18)
            &&& Some(h.text_end as nat) == field_spec(file@, 18, 26)
            &&& Some(h.data_start as nat) == field_spec(file@, 26, 34)
            &&& Some(h.data_end as nat) == field_spec(file@, 34, 42)
            &&& h.analysis_start == field_or_zero(file@, 42, 50)
            &&& h.analysis_end == field_or_zero(file@, 50, 58)
        },
{
    if file.len() < HEADER_LEN {
        return Err(FcsError::MalformedHeader);
    }
    let version = copy_range(file, 0, 6);
    let a0 = copy_range(file, 42, 50);
    let a1 = copy_range(file, 50, 58);
    if !is_utf8(version.as_slice()) || !is_utf8(a0.as_slice()) || !is_utf8(a1.as_slice()) {
        return Err(FcsError::MalformedHeader);
    }
    let text_start = match read_field(file, 10, 18) {
        Some(v) => v,
        None => return Err(FcsError::MalformedHeader),
    };
    let text_end = match read_field(file, 18, 26) {
        Some(v) => v,
        None => return Err(FcsError::MalformedHeader),
    };
    let data_start = match read_field(file, 26, 34) {
        Some(v) => v,
        None => return Err(FcsError::MalformedHeader),
    };
    let data_end = match read_field(file, 34, 42) {
        Some(v) => v,
        None => return Err(FcsError::MalformedHeader),
    };
    let analysis_start = match read_field(file, 42, 50) {
        Some(v) => v,
        None => 0,
    };
    let analysis_end = match read_field(file, 50, 58) {
        Some(v) => v,
        None => 0,
    };
    Ok(FcsHeader { version, text_start, text_end, data_start, data_end, analysis_start, analysis_end })
}

} // verus!
