//! Reading a dataset back out: two channels as points, or chosen events as a table.
use vstd::prelude::*;
use vstd::utf8::encode_utf8;
use crate::dataset::FcsData;
use crate::error::FcsError;
use crate::metadata::bytes_equal;

verus! {

/// The two channels to plot against each other.
pub struct ChannelPair {
    pub x: String,
    pub y: String,
}

/// Finds the first channel named `name`.
pub fn find_channel(data: &FcsData, name: &[u8]) -> (r: Option<usize>)
    ensures
        match r {
            Some(c) => c < data.channels@.len() && data.channels@[c as int]@ == name@
                && forall|k: int| 0 <= k < c ==> #[trigger] data.channels@[k]@ != name@,
            None => forall|k: int| 0 <= k < data.channels@.len() ==> #[trigger] data.channels@[k]@ != name@,
        },
{
    let mut i: usize = 0;
    while i < data.channels.len()
        invariant
            i <= data.channels@.len(),
            forall|k: int| 0 <= k < i ==> #[trigger] data.channels@[k]@ != name@,
        decreases data.channels@.len() - i,
    {
        if bytes_equal(data.channels[i].as_slice(), name) {
            return Some(i);
        }
        i = i + 1;
    }
    None
}

/// Pairs the raw elements of the two named channels, event by event.
pub fn project_points(data: &FcsData, pair: &ChannelPair) -> (r: Result<Vec<(u64, u64)>, FcsError>)
    requires
        data.wf(),
    ensures
        ({
            let xs = encode_utf8(pair.x@);
            let ys = encode_utf8(pair.y@);
            let has_x = exists|c: int| 0 <= c < data.channels@.len() && #[trigger] data.channels@[c]@ == xs;
            let has_y = exists|c: int| 0 <= c < data.channels@.len() && #[trigger] data.channels@[c]@ == ys;
            match r {
                Err(e) => e == FcsError::ChannelNotFound && !(has_x && has_y),
                Ok(points) => exists|cx: int, cy: int| {
                    &&& 0 <= cx < data.channels@.len() && 0 <= cy < data.channels@.len()
                    &&& data.channels@[cx]@ == xs && data.channels@[cy]@ == ys
                    &&& forall|k: int| 0 <= k < cx ==> #[trigger] data.channels@[k]@ != xs
                    &&& forall|k: int| 0 <= k < cy ==> #[trigger] data.channels@[k]@ != ys
                    &&& points@.len() == data.columns@[cx]@.len() == data.columns@[cy]@.len()
                    &&& forall|e: int| 0 <= e < points@.len() ==> #[trigger] points@[e]
                        == (data.columns@[cx]@[e], data.columns@[cy]@[e])
                },
            }
        }),
{
    let cx = match find_channel(data, pair.x.as_str().as_bytes()) {
        Some(c) => c,
        None => return Err(FcsError::ChannelNotFound),
    };
    let cy = match find_channel(data, pair.y.as_str().as_bytes()) {
        Some(c) => c,
        None => return Err(FcsError::ChannelNotFound),
    };
    let xs = &data.columns[cx];
    let ys = &data.columns[cy];
    if xs.len() != ys.len() {
        return Err(FcsError::LengthMismatch);
    }
    let mut points: Vec<(u64, u64)> = Vec::new();
    let mut e: usize = 0;
    while e < xs.len()
        invariant
            e <= xs@.len() == ys@.len(),
            points@.len() == e,
            forall|k: int| 0 <= k < e ==> #[trigger] points@[k] == (xs@[k], ys@[k]),
        decreases xs@.len() - e,
    {
        points.push((xs[e], ys[e]));
        e = e + 1;
    }
    Ok(points)
}

/// The entries of `col` at each index of `indices` that is in range, in the order given.
pub open spec fn rows_spec(col: Seq<u64>, indices: Seq<usize>) -> Seq<u64>
    decreases indices.len(),
{
    if indices.len() == 0 {
        Seq::empty()
    } else {
        let rest = rows_spec(col, indices.drop_last());
        if indices.last() < col.len() {
            rest.push(col[indices.last() as int])
        } else {
            rest
        }
    }
}

/// Picks the entries of `col` at `indices`, skipping indices out of range.
pub fn select_rows(col: &Vec<u64>, indices: &Vec<usize>) -> (r: Vec<u64>)
    ensures
        r@ == rows_spec(col@, indices@),
{
    let mut r: Vec<u64> = Vec::new();
    let mut i: usize = 0;
    while i < indices.len()
        invariant
            i <= indices@.len(),
            r@ == rows_spec(col@, indices@.subrange(0, i as int)),
        decreases indices@.len() - i,
    {
        assert(indices@.subrange(0, i + 1).drop_last() =~= indices@.subrange(0, i as int));
        let k = indices[i];
        if k < col.len() {
            r.push(col[k]);
        }
        i = i + 1;
    }
    assert(indices@.subrange(0, indices@.len() as int) =~= indices@);
    r
}

/// The export table: one column per channel, in channel order, holding the chosen events.
pub fn project_table(data: &FcsData, indices: &Vec<usize>) -> (r: Vec<Vec<u64>>)
    ensures
        r@.len() == data.columns@.len(),
        forall|c: int| 0 <= c < r@.len() ==> #[trigger] r@[c]@ == rows_spec(data.columns@[c]@, indices@),
{
    let mut r: Vec<Vec<u64>> = Vec::new();
    let mut c: usize = 0;
    while c < data.columns.len()
        invariant
            c <= data.columns@.len(),
            r@.len() == c,
            forall|k: int| 0 <= k < c ==> #[trigger] r@[k]@ == rows_spec(data.columns@[k]@, indices@),
        decreases data.columns@.len() - c,
    {
        r.push(select_rows(&data.columns[c], indices));
        c = c + 1;
    }
    r
}

/// The file formats a selection can be written to.
#[derive(Debug, Clone, Copy, PartialEq, Eq, Structural)]
pub enum ExportFormat {
    Csv,
    Excel,
    Parquet,
}

pub open spec fn format_spec(name: Seq<u8>) -> Option<ExportFormat> {
    if name == seq![0x63u8, 0x73u8, 0x76u8] {
        Some(ExportFormat::Csv)
    } else if name == seq![0x78u8, 0x6cu8, 0x73u8, 0x78u8]
        || name == seq![0x65u8, 0x78u8, 0x63u8, 0x65u8, 0x6cu8] {
        Some(ExportFormat::Excel)
    } else if name == seq![0x70u8, 0x61u8, 0x72u8, 0x71u8, 0x75u8, 0x65u8, 0x74u8] {
        Some(ExportFormat::Parquet)
    } else {
        None
    }
}

/// Reads a format token: `csv`, `xlsx` or `excel`, `parquet`.
pub fn parse_export_format(name: &str) -> (r: Result<ExportFormat, FcsError>)
    ensures
        match format_spec(encode_utf8(name@)) {
            Some(f) => r == Ok::<ExportFormat, FcsError>(f),
            None => r == Err::<ExportFormat, FcsError>(FcsError::UnsupportedExportFormat),
        },
{
    let b = name.as_bytes();
    let ghost s = b@;
    let csv = vec![0x63u8, 0x73u8, 0x76u8];
    let xlsx = vec![0x78u8, 0x6cu8, 0x73u8, 0x78u8];
    let excel = vec![0x65u8, 0x78u8, 0x63u8, 0x65u8, 0x6cu8];
    let parquet = vec![0x70u8, 0x61u8, 0x72u8, 0x71u8, 0x75u8, 0x65u8, 0x74u8];
    assert(csv@ =~= seq![0x63u8, 0x73u8, 0x76u8]);
    assert(xlsx@ =~= seq![0x78u8, 0x6cu8, 0x73u8, 0x78u8]);
    assert(excel@ =~= seq![0x65u8, 0x78u8, 0x63u8, 0x65u8, 0x6cu8]);
    assert(parquet@ =~= seq![0x70u8, 0x61u8, 0x72u8, 0x71u8, 0x75u8, 0x65u8, 0x74u8]);
    if bytes_equal(b, csv.as_slice()) {
        Ok(ExportFormat::Csv)
    } else if bytes_equal(b, xlsx.as_slice()) || bytes_equal(b, excel.as_slice()) {
        Ok(ExportFormat::Excel)
    } else if bytes_equal(b, parquet.as_slice()) {
        Ok(ExportFormat::Parquet)
    } else {
        Err(FcsError::UnsupportedExportFormat)
    }
}

} // verus!
