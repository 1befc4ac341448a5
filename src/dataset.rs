//! Decoding a whole file: header, metadata, and the event grid of the data segment.
use vstd::prelude::*;
use crate::element::{element_value, read_element};
use crate::error::FcsError;
use crate::header::{parse_header, FcsHeader, header_ok, field_spec};
use crate::metadata::{parse_metadata, segment_map, segment_ok, MetadataMap};
use crate::text::{decimal_bytes, decimal_repr, decimal_spec, parse_decimal};

verus! {

/// How each stored element is encoded.
#[derive(Debug, Clone, Copy, PartialEq, Eq, Structural)]
pub enum ElementKind {
    /// 4-byte IEEE float; the column holds its bit pattern.
    Float32,
    /// 8-byte IEEE float; the column holds its bit pattern.
    Float64,
    /// 2-byte unsigned integer.
    Unsigned16,
    /// 4-byte unsigned integer.
    Unsigned32,
}

impl ElementKind {
    /// Bytes per element.
    pub open spec fn width_spec(self) -> nat {
        match self {
            ElementKind::Float32 => 4,
            ElementKind::Float64 => 8,
            ElementKind::Unsigned16 => 2,
            ElementKind::Unsigned32 => 4,
        }
    }

    /// Whether a gain applies to this encoding.
    pub open spec fn is_integer(self) -> bool {
        self is Unsigned16 || self is Unsigned32
    }

    /// Bytes per element, as a machine integer.
    pub fn width(self) -> (r: usize)
        ensures
            r == self.width_spec(),
    {
        match self {
            ElementKind::Float32 => 4,
            ElementKind::Float64 => 8,
            ElementKind::Unsigned16 => 2,
            ElementKind::Unsigned32 => 4,
        }
    }
}

/// `$PAR`, the channel count.
pub open spec fn key_par() -> Seq<u8> { seq![0x24u8, 0x50u8, 0x41u8, 0x52u8] }
/// `$TOT`, the event count.
pub open spec fn key_tot() -> Seq<u8> { seq![0x24u8, 0x54u8, 0x4fu8, 0x54u8] }
/// `$DATATYPE`, `F` for floats or `I` for unsigned integers.
pub open spec fn key_datatype() -> Seq<u8> {
    seq![0x24u8, 0x44u8, 0x41u8, 0x54u8, 0x41u8, 0x54u8, 0x59u8, 0x50u8, 0x45u8]
}
/// `$BYTEORD`, the byte order.
pub open spec fn key_byteord() -> Seq<u8> { seq![0x24u8, 0x42u8, 0x59u8, 0x54u8, 0x45u8, 0x4fu8, 0x52u8, 0x44u8] }
/// `$P1B`, the bit width, shared by all channels.
pub open spec fn key_bits() -> Seq<u8> { seq![0x24u8, 0x50u8, 0x31u8, 0x42u8] }
/// `4,3,2,1`, the byte order that selects big-endian.
pub open spec fn big_endian_order() -> Seq<u8> { seq![0x34u8, 0x2cu8, 0x33u8, 0x2cu8, 0x32u8, 0x2cu8, 0x31u8] }

/// `$P<i>N`, the key of channel `i`'s name.
pub open spec fn name_key(i: nat) -> Seq<u8> { seq![0x24u8, 0x50u8] + decimal_repr(i) + seq![0x4eu8] }

/// `$P<i>E`, the key of channel `i`'s gain.
pub open spec fn gain_key(i: nat) -> Seq<u8> { seq![0x24u8, 0x50u8] + decimal_repr(i) + seq![0x45u8] }

/// A count stored under `key`; zero where it is absent or not a number.
pub open spec fn count_spec(m: Map<Seq<u8>, Seq<u8>>, key: Seq<u8>) -> nat {
    if m.contains_key(key) {
        match decimal_spec(m[key]) {
            Some(v) => v,
            None => 0,
        }
    } else {
        0
    }
}

/// The declared bit width of the first channel, 32 where absent or not a number.
pub open spec fn bits_spec(m: Map<Seq<u8>, Seq<u8>>) -> nat {
    if m.contains_key(key_bits()) && decimal_spec(m[key_bits()]) is Some {
        decimal_spec(m[key_bits()])->0
    } else {
        32
    }
}

/// The element encoding that the metadata declares, if it is one this decoder reads.
pub open spec fn kind_spec(m: Map<Seq<u8>, Seq<u8>>) -> Option<ElementKind> {
    let dt = if m.contains_key(key_datatype()) { m[key_datatype()] } else { seq![0x46u8] };
    if dt == seq![0x46u8] {
        Some(if bits_spec(m) == 32 { ElementKind::Float32 } else { ElementKind::Float64 })
    } else if dt == seq![0x49u8] {
        Some(if bits_spec(m) == 16 { ElementKind::Unsigned16 } else { ElementKind::Unsigned32 })
    } else {
        None
    }
}

pub open spec fn big_spec(m: Map<Seq<u8>, Seq<u8>>) -> bool {
    m.contains_key(key_byteord()) && m[key_byteord()] == big_endian_order()
}

/// The name of channel `i` (counted from one), or `Channel<i>` where none is declared.
pub open spec fn channel_name(m: Map<Seq<u8>, Seq<u8>>, i: nat) -> Seq<u8> {
    if m.contains_key(name_key(i)) {
        m[name_key(i)]
    } else {
        seq![0x43u8, 0x68u8, 0x61u8, 0x6eu8, 0x6eu8, 0x65u8, 0x6cu8] + decimal_repr(i)
    }
}

/// The gain text of channel `i` (counted from one); integer encodings only.
pub open spec fn gain_spec(m: Map<Seq<u8>, Seq<u8>>, i: nat, kind: ElementKind) -> Option<Seq<u8>> {
    if kind.is_integer() && m.contains_key(gain_key(i)) {
        Some(m[gain_key(i)])
    } else {
        None
    }
}

/// The bytes of element `idx` of the row-major grid in `seg`.
pub open spec fn element_bytes(seg: Seq<u8>, idx: nat, w: nat) -> Seq<u8> {
    seg.subrange((idx * w) as int, (idx * w + w) as int)
}

/// The summary of a decoded file.
pub struct HeaderSummary {
    pub version: Vec<u8>,
    pub total_events: usize,
    pub total_channels: usize,
}

/// The header summary and all metadata pairs.
pub struct FcsMetadata {
    pub header: HeaderSummary,
    pub text: MetadataMap,
}

/// A decoded file: one column of raw elements per channel, in declaration order.
pub struct FcsData {
    pub channels: Vec<Vec<u8>>,
    pub kind: ElementKind,
    pub columns: Vec<Vec<u64>>,
    pub gains: Vec<Option<Vec<u8>>>,
    pub metadata: FcsMetadata,
}

pub open spec fn opt_view(o: Option<Vec<u8>>) -> Option<Seq<u8>> {
    match o {
        Some(v) => Some(v@),
        None => None,
    }
}

impl FcsData {
    /// Every channel has a name, a gain entry and a column of `total_events` elements.
    pub open spec fn wf(&self) -> bool {
        &&& self.metadata.text.wf()
        &&& self.channels@.len() == self.metadata.header.total_channels
        &&& self.columns@.len() == self.channels@.len()
        &&& self.gains@.len() == self.channels@.len()
        &&& forall|c: int| 0 <= c < self.columns@.len()
            ==> #[trigger] self.columns@[c]@.len() == self.metadata.header.total_events
    }
}

/// A copy of `b`.
fn copy_bytes(b: &Vec<u8>) -> (r: Vec<u8>)
    ensures
        r@ == b@,
{
    let r = crate::metadata::copy_range(b.as_slice(), 0, b.len());
    assert(b@.subrange(0, b@.len() as int) =~= b@);
    r
}

/// `$P<i>` followed by `last`.
fn indexed_key(i: usize, last: u8) -> (r: Vec<u8>)
    ensures
        r@ == seq![0x24u8, 0x50u8] + decimal_repr(i as nat) + seq![last],
{
    let mut r: Vec<u8> = vec![0x24u8, 0x50u8];
    let digits = decimal_bytes(i);
    let mut k: usize = 0;
    while k < digits.len()
        invariant
            k <= digits@.len(),
            r@ == seq![0x24u8, 0x50u8] + digits@.subrange(0, k as int),
        decreases digits@.len() - k,
    {
        r.push(digits[k]);
        k = k + 1;
        assert(r@ =~= seq![0x24u8, 0x50u8] + digits@.subrange(0, k as int));
    }
    r.push(last);
    assert(r@ =~= seq![0x24u8, 0x50u8] + decimal_repr(i as nat) + seq![last]);
    r
}

fn key_par_bytes() -> (r: Vec<u8>)
    ensures
        r@ == key_par(),
{
    let r = vec![0x24u8, 0x50u8, 0x41u8, 0x52u8];
    assert(r@ =~= key_par());
    r
}

fn key_tot_bytes() -> (r: Vec<u8>)
    ensures
        r@ == key_tot(),
{
    let r = vec![0x24u8, 0x54u8, 0x4fu8, 0x54u8];
    assert(r@ =~= key_tot());
    r
}

fn key_datatype_bytes() -> (r: Vec<u8>)
    ensures
        r@ == key_datatype(),
{
    let r = vec![0x24u8, 0x44u8, 0x41u8, 0x54u8, 0x41u8, 0x54u8, 0x59u8, 0x50u8, 0x45u8];
    assert(r@ =~= key_datatype());
    r
}

fn key_byteord_bytes() -> (r: Vec<u8>)
    ensures
        r@ == key_byteord(),
{
    let r = vec![0x24u8, 0x42u8, 0x59u8, 0x54u8, 0x45u8, 0x4fu8, 0x52u8, 0x44u8];
    assert(r@ =~= key_byteord());
    r
}

fn key_bits_bytes() -> (r: Vec<u8>)
    ensures
        r@ == key_bits(),
{
    let r = vec![0x24u8, 0x50u8, 0x31u8, 0x42u8];
    assert(r@ =~= key_bits());
    r
}

/// The count stored under `key`, zero where absent or not a number.
fn count_of(m: &MetadataMap, key: &Vec<u8>) -> (r: usize)
    requires
        m.wf(),
    ensures
        r == count_spec(m@, key@),
{
    match m.get(key.as_slice()) {
        Some(v) => match parse_decimal(v.as_slice()) {
            Some(n) => n,
            None => 0,
        },
        None => 0,
    }
}

/// The element encoding that `m` declares.
pub fn element_kind(m: &MetadataMap) -> (r: Option<ElementKind>)
    requires
        m.wf(),
    ensures
        r == kind_spec(m@),
{
    let bits: usize = match m.get(key_bits_bytes().as_slice()) {
        Some(v) => match parse_decimal(v.as_slice()) {
            Some(n) => n,
            None => 32,
        },
        None => 32,
    };
    let dkey = key_datatype_bytes();
    let code: u8 = match m.get(dkey.as_slice()) {
        Some(v) => if v.len() == 1 { v[0] } else { 0 },
        None => 0x46u8,
    };
    proof {
        if m@.contains_key(key_datatype()) {
            let dt = m@[key_datatype()];
            if dt.len() != 1 {
                assert(dt != seq![0x46u8] && dt != seq![0x49u8]);
            } else {
                assert(dt == seq![dt[0]]);
            }
        }
    }
    if code == 0x46u8 {
        Some(if bits == 32 { ElementKind::Float32 } else { ElementKind::Float64 })
    } else if code == 0x49u8 {
        Some(if bits == 16 { ElementKind::Unsigned16 } else { ElementKind::Unsigned32 })
    } else {
        None
    }
}

/// Whether `m` declares big-endian byte order (`4,3,2,1`).
pub fn is_big_endian(m: &MetadataMap) -> (r: bool)
    requires
        m.wf(),
    ensures
        r == big_spec(m@),
{
    match m.get(key_byteord_bytes().as_slice()) {
        Some(v) => {
            let r = v.len() == 7 && v[0] == 0x34u8 && v[1] == 0x2cu8 && v[2] == 0x33u8
                && v[3] == 0x2cu8 && v[4] == 0x32u8 && v[5] == 0x2cu8 && v[6] == 0x31u8;
            proof {
                if r {
                    assert(v@ =~= big_endian_order());
                } else if v@ == big_endian_order() {
                    assert(v@[0] == 0x34u8);
                }
            }
            r
        },
        None => false,
    }
}

/// The names of channels `1..=npar`, in order.
pub fn channel_names(m: &MetadataMap, npar: usize) -> (r: Vec<Vec<u8>>)
    requires
        m.wf(),
        npar < usize::MAX,
    ensures
        r@.len() == npar,
        forall|c: int| 0 <= c < npar ==> #[trigger] r@[c]@ == channel_name(m@, (c + 1) as nat),
{
    let mut r: Vec<Vec<u8>> = Vec::new();
    let mut c: usize = 0;
    while c < npar
        invariant
            m.wf(),
            c <= npar < usize::MAX,
            r@.len() == c,
            forall|j: int| 0 <= j < c ==> #[trigger] r@[j]@ == channel_name(m@, (j + 1) as nat),
        decreases npar - c,
    {
        let key = indexed_key(c + 1, 0x4eu8);
        let name = match m.get(key.as_slice()) {
            Some(v) => copy_bytes(v),
            None => {
                let mut d: Vec<u8> = vec![0x43u8, 0x68u8, 0x61u8, 0x6eu8, 0x6eu8, 0x65u8, 0x6cu8];
                let digits = decimal_bytes(c + 1);
                let mut k: usize = 0;
                while k < digits.len()
                    invariant
                        k <= digits@.len(),
                        d@ == seq![0x43u8, 0x68u8, 0x61u8, 0x6eu8, 0x6eu8, 0x65u8, 0x6cu8]
                            + digits@.subrange(0, k as int),
                    decreases digits@.len() - k,
                {
                    d.push(digits[k]);
                    k = k + 1;
                    assert(d@ =~= seq![0x43u8, 0x68u8, 0x61u8, 0x6eu8, 0x6eu8, 0x65u8, 0x6cu8]
                        + digits@.subrange(0, k as int));
                }
                assert(digits@.subrange(0, digits@.len() as int) =~= digits@);
                d
            },
        };
        r.push(name);
        c = c + 1;
    }
    r
}

/// The gain text of channels `1..=npar`, present only for integer encodings.
pub fn channel_gains(m: &MetadataMap, npar: usize, kind: ElementKind) -> (r: Vec<Option<Vec<u8>>>)
    requires
        m.wf(),
        npar < usize::MAX,
    ensures
        r@.len() == npar,
        forall|c: int| 0 <= c < npar ==> #[trigger] opt_view(r@[c]) == gain_spec(m@, (c + 1) as nat, kind),
{
    let integer = match kind {
        ElementKind::Unsigned16 | ElementKind::Unsigned32 => true,
        _ => false,
    };
    let mut r: Vec<Option<Vec<u8>>> = Vec::new();
    let mut c: usize = 0;
    while c < npar
        invariant
            m.wf(),
            c <= npar < usize::MAX,
            integer == kind.is_integer(),
            r@.len() == c,
            forall|j: int| 0 <= j < c ==> #[trigger] opt_view(r@[j]) == gain_spec(m@, (j + 1) as nat, kind),
        decreases npar - c,
    {
        let g = if integer {
            let key = indexed_key(c + 1, 0x45u8);
            match m.get(key.as_slice()) {
                Some(v) => Some(copy_bytes(v)),
                None => None,
            }
        } else {
            None
        };
        r.push(g);
        c = c + 1;
    }
    r
}

proof fn lemma_grid_offset(e: nat, c: nat, npar: nat, ntot: nat, w: nat)
    requires
        e < ntot,
        c < npar,
    ensures
        (e * npar + c) * w + w <= npar * ntot * w,
{
    assert(e * npar + c + 1 <= ntot * npar) by (nonlinear_arith)
        requires e < ntot, c < npar;
    assert((e * npar + c + 1) * w <= (ntot * npar) * w) by (nonlinear_arith)
        requires e * npar + c + 1 <= ntot * npar;
    assert((e * npar + c) * w + w == (e * npar + c + 1) * w) by (nonlinear_arith);
    assert(npar * ntot * w == (ntot * npar) * w) by (nonlinear_arith);
}

/// Splits the row-major grid in `seg` into one column per channel:
/// element `e * npar + c` is event `e` of channel `c`.
pub fn deinterleave(seg: &[u8], npar: usize, ntot: usize, w: usize, big: bool) -> (r: Vec<Vec<u64>>)
    requires
        1 <= w <= 8,
        npar * ntot * w <= seg@.len(),
    ensures
        r@.len() == npar,
        forall|c: int| 0 <= c < npar ==> (#[trigger] r@[c])@.len() == ntot,
        forall|c: int, e: int| 0 <= c < npar && 0 <= e < ntot ==> (#[trigger] r@[c]@[e]) as nat
            == element_value(element_bytes(seg@, (e * npar + c) as nat, w as nat), big),
{
    let n = seg.len();
    let mut cols: Vec<Vec<u64>> = Vec::new();
    let mut c: usize = 0;
    while c < npar
        invariant
            c <= npar,
            1 <= w <= 8,
            npar * ntot * w <= seg@.len(),
            n == seg@.len(),
            cols@.len() == c,
            forall|j: int| 0 <= j < c ==> (#[trigger] cols@[j])@.len() == ntot,
            forall|j: int, e: int| 0 <= j < c && 0 <= e < ntot ==> (#[trigger] cols@[j]@[e]) as nat
                == element_value(element_bytes(seg@, (e * npar + j) as nat, w as nat), big),
        decreases npar - c,
    {
        let mut col: Vec<u64> = Vec::new();
        let mut e: usize = 0;
        while e < ntot
            invariant
                c < npar,
                e <= ntot,
                1 <= w <= 8,
                npar * ntot * w <= seg@.len(),
                n == seg@.len(),
                col@.len() == e,
                forall|k: int| 0 <= k < e ==> (#[trigger] col@[k]) as nat
                    == element_value(element_bytes(seg@, (k * npar + c) as nat, w as nat), big),
            decreases ntot - e,
        {
            proof {
                lemma_grid_offset(e as nat, c as nat, npar as nat, ntot as nat, w as nat);
                assert(e * npar + c <= (e * npar + c) * w) by (nonlinear_arith)
                    requires w >= 1;
            }
            let off = (e * npar + c) * w;
            col.push(read_element(seg, off, w, big));
            e = e + 1;
        }
        cols.push(col);
        c = c + 1;
    }
    cols
}

/// The first failure in reading the data segment `file[ds..=de]` under metadata `m`.
pub open spec fn data_error(file: Seq<u8>, ds: nat, de: nat, m: Map<Seq<u8>, Seq<u8>>) -> Option<FcsError> {
    let par = count_spec(m, key_par());
    let tot = count_spec(m, key_tot());
    if par == 0 || tot == 0 {
        Some(FcsError::InvalidDataset)
    } else if !(ds <= de && de < file.len()) {
        Some(FcsError::TruncatedData)
    } else if kind_spec(m) is None {
        Some(FcsError::UnsupportedDataType)
    } else if de + 1 - ds < par * tot * kind_spec(m)->0.width_spec() {
        Some(FcsError::TruncatedData)
    } else {
        None
    }
}

/// `d` is what the data segment `file[ds..=de]` holds under metadata `m`.
pub open spec fn decoded_from(
    d: FcsData,
    file: Seq<u8>,
    ds: nat,
    de: nat,
    m: Map<Seq<u8>, Seq<u8>>,
) -> bool {
    let par = count_spec(m, key_par());
    let tot = count_spec(m, key_tot());
    let kind = kind_spec(m)->0;
    let seg = file.subrange(ds as int, de + 1 as int);
    &&& d.wf()
    &&& d.metadata.text@ == m
    &&& d.metadata.header.total_channels == par
    &&& d.metadata.header.total_events == tot
    &&& d.kind == kind
    &&& forall|c: int| 0 <= c < par ==> #[trigger] d.channels@[c]@ == channel_name(m, (c + 1) as nat)
    &&& forall|c: int| 0 <= c < par ==> #[trigger] opt_view(d.gains@[c]) == gain_spec(m, (c + 1) as nat, kind)
    &&& forall|c: int, e: int| 0 <= c < par && 0 <= e < tot ==> (#[trigger] d.columns@[c]@[e]) as nat
        == element_value(element_bytes(seg, (e * par + c) as nat, kind.width_spec()), big_spec(m))
}

/// Decodes the data segment `file[header.data_start..=header.data_end]` under `text`.
pub fn decode_dataset(file: &[u8], header: FcsHeader, text: MetadataMap) -> (r: Result<FcsData, FcsError>)
    requires
        text.wf(),
    ensures
        match data_error(file@, header.data_start as nat, header.data_end as nat, text@) {
            Some(e) => r == Err::<FcsData, FcsError>(e),
            None => r matches Ok(d) && decoded_from(d, file@, header.data_start as nat,
                header.data_end as nat, text@) && d.metadata.header.version@ == header.version@,
        },
{
    let npar = count_of(&text, &key_par_bytes());
    let ntot = count_of(&text, &key_tot_bytes());
    if npar == 0 || ntot == 0 {
        return Err(FcsError::InvalidDataset);
    }
    let ds = header.data_start;
    let de = header.data_end;
    if ds > de || de >= file.len() {
        return Err(FcsError::TruncatedData);
    }
    let kind = match element_kind(&text) {
        Some(k) => k,
        None => return Err(FcsError::UnsupportedDataType),
    };
    let w = kind.width();
    let len = de + 1 - ds;
    if npar > len / w {
        proof {
            assert(npar * w > len) by (nonlinear_arith) requires npar > len / w, w >= 1;
            assert(npar * ntot * w >= npar * w) by (nonlinear_arith) requires ntot >= 1;
        }
        return Err(FcsError::TruncatedData);
    }
    proof {
        assert(npar * w <= len) by (nonlinear_arith) requires npar <= len / w, w >= 1;
        assert(npar * w >= 1) by (nonlinear_arith) requires npar >= 1, w >= 1;
    }
    let row = npar * w;
    if ntot > len / row {
        proof {
            assert(ntot * row > len) by (nonlinear_arith) requires ntot > len / row, row >= 1;
            assert(npar * ntot * w == ntot * row) by (nonlinear_arith) requires row == npar * w;
        }
        return Err(FcsError::TruncatedData);
    }
    proof {
        assert(ntot * row <= len) by (nonlinear_arith) requires ntot <= len / row, row >= 1;
        assert(npar * ntot * w == ntot * row) by (nonlinear_arith) requires row == npar * w;
        assert(npar < usize::MAX) by (nonlinear_arith) requires npar * w <= len, w >= 2, len <= usize::MAX;
    }
    let big = is_big_endian(&text);
    let seg = crate::metadata::copy_range(file, ds, de + 1);
    let columns = deinterleave(seg.as_slice(), npar, ntot, w, big);
    let channels = channel_names(&text, npar);
    let gains = channel_gains(&text, npar, kind);
    let header_summary = HeaderSummary { version: header.version, total_events: ntot, total_channels: npar };
    Ok(FcsData {
        channels,
        kind,
        columns,
        gains,
        metadata: FcsMetadata { header: header_summary, text },
    })
}

/// The first failure in decoding `file`, if any.
pub open spec fn decode_error(file: Seq<u8>) -> Option<FcsError> {
    if !header_ok(file) {
        Some(FcsError::MalformedHeader)
    } else {
        let ts = field_spec(file, 10, 18)->0;
        let te = field_spec(file, 18, 26)->0;
        let ds = field_spec(file, 26, 34)->0;
        let de = field_spec(file, 34, 42)->0;
        if !(ts <= te && te < file.len() && segment_ok(file.subrange(ts as int, te + 1 as int))) {
            Some(FcsError::MalformedMetadata)
        } else {
            data_error(file, ds, de, segment_map(file.subrange(ts as int, te + 1 as int)))
        }
    }
}

/// Decodes a whole FCS file held in memory.
pub fn decode_fcs(file: &[u8]) -> (r: Result<FcsData, FcsError>)
    ensures
        match decode_error(file@) {
            Some(e) => r == Err::<FcsData, FcsError>(e),
            None => r matches Ok(d) && {
                let ts = field_spec(file@, 10, 18)->0;
                let te = field_spec(file@, 18, 26)->0;
                &&& decoded_from(d, file@, field_spec(file@, 26, 34)->0, field_spec(file@, 34, 42)->0,
                    segment_map(file@.subrange(ts as int, te + 1 as int)))
                &&& d.metadata.header.version@ == file@.subrange(0, 6)
            },
        },
{
    let header = match parse_header(file) {
        Ok(h) => h,
        Err(e) => return Err(e),
    };
    let text = match parse_metadata(file, header.text_start, header.text_end) {
        Ok(m) => m,
        Err(e) => return Err(e),
    };
    decode_dataset(file, header, text)
}

/// Two files whose data segments hold the same elements, one stored big-endian and
/// the other little-endian with each element's bytes reversed, decode to the same columns.
pub proof fn lemma_byte_order_columns(
    d1: FcsData,
    file1: Seq<u8>,
    ds1: nat,
    de1: nat,
    m1: Map<Seq<u8>, Seq<u8>>,
    d2: FcsData,
    file2: Seq<u8>,
    ds2: nat,
    de2: nat,
    m2: Map<Seq<u8>, Seq<u8>>,
)
    requires
        decoded_from(d1, file1, ds1, de1, m1),
        decoded_from(d2, file2, ds2, de2, m2),
        big_spec(m1),
        !big_spec(m2),
        count_spec(m1, key_par()) == count_spec(m2, key_par()),
        count_spec(m1, key_tot()) == count_spec(m2, key_tot()),
        kind_spec(m1) == kind_spec(m2),
        forall|idx: nat| idx < count_spec(m1, key_par()) * count_spec(m1, key_tot()) ==>
            #[trigger] element_bytes(file2.subrange(ds2 as int, de2 + 1 as int), idx, kind_spec(m2)->0.width_spec())
                == element_bytes(file1.subrange(ds1 as int, de1 + 1 as int), idx, kind_spec(m1)->0.width_spec()).reverse(),
    ensures
        d1.columns@.len() == d2.columns@.len(),
        forall|c: int, e: int| 0 <= c < d1.columns@.len() && 0 <= e < d1.metadata.header.total_events
            ==> #[trigger] d1.columns@[c]@[e] == d2.columns@[c]@[e],
{
    let par = count_spec(m1, key_par());
    let tot = count_spec(m1, key_tot());
    let w = kind_spec(m1)->0.width_spec();
    assert forall|c: int, e: int| 0 <= c < d1.columns@.len() && 0 <= e < d1.metadata.header.total_events
        implies #[trigger] d1.columns@[c]@[e] == d2.columns@[c]@[e] by {
        let idx = (e * par + c) as nat;
        assert(e * par + c < par * tot) by (nonlinear_arith)
            requires 0 <= e < tot, 0 <= c < par;
        let b1 = element_bytes(file1.subrange(ds1 as int, de1 + 1 as int), idx, w);
        let b2 = element_bytes(file2.subrange(ds2 as int, de2 + 1 as int), idx, w);
        assert(b2 == b1.reverse());
        crate::element::lemma_byte_order_mirror(b1);
    }
}

} // verus!
