use fcs_gate::{
    decode_fcs, parse_header, parse_metadata, read_element, ElementKind, FcsError,
};

fn field(n: usize) -> String {
    format!("{:>8}", n)
}

/// Lays out a file: header, metadata text, then the data bytes.
fn build_file(text: &str, data: &[u8]) -> Vec<u8> {
    let text_start = 58;
    let text_end = text_start + text.len() - 1;
    let data_start = text_end + 1;
    let data_end = data_start + data.len() - 1;
    let mut out = Vec::new();
    out.extend_from_slice(b"FCS3.0    ");
    out.extend_from_slice(field(text_start).as_bytes());
    out.extend_from_slice(field(text_end).as_bytes());
    out.extend_from_slice(field(data_start).as_bytes());
    out.extend_from_slice(field(data_end).as_bytes());
    out.extend_from_slice(field(0).as_bytes());
    out.extend_from_slice(field(0).as_bytes());
    assert_eq!(out.len(), 58);
    out.extend_from_slice(text.as_bytes());
    out.extend_from_slice(data);
    out
}

fn f32_payload(values: &[f32], big: bool) -> Vec<u8> {
    let mut out = Vec::new();
    for v in values {
        if big {
            out.extend_from_slice(&v.to_be_bytes());
        } else {
            out.extend_from_slice(&v.to_le_bytes());
        }
    }
    out
}

fn float_columns(cols: &Vec<Vec<u64>>) -> Vec<Vec<f32>> {
    cols.iter().map(|c| c.iter().map(|&b| f32::from_bits(b as u32)).collect()).collect()
}

#[test]
fn three_channels_two_events_float_little_endian() {
    let text = "/$PAR/3/$TOT/2/$DATATYPE/F/$BYTEORD/1,2,3,4/$P1N/FSC/$P2N/SSC/$P3N/FL1/";
    let data = f32_payload(&[1.5, 2.5, 3.5, 4.5, 5.5, 6.5], false);
    let d = decode_fcs(&build_file(text, &data)).unwrap();
    assert_eq!(d.kind, ElementKind::Float32);
    assert_eq!(d.channels, vec![b"FSC".to_vec(), b"SSC".to_vec(), b"FL1".to_vec()]);
    let cols = float_columns(&d.columns);
    assert_eq!(cols, vec![vec![1.5, 4.5], vec![2.5, 5.5], vec![3.5, 6.5]]);
    assert_eq!(d.metadata.header.total_events, 2);
    assert_eq!(d.metadata.header.total_channels, 3);
    assert_eq!(d.metadata.header.version, b"FCS3.0".to_vec());
}

#[test]
fn big_endian_payload_decodes_like_little_endian() {
    let values = [1.25f32, -2.0, 1000.0, 0.5, 7.0, 3.0];
    let le = "/$PAR/3/$TOT/2/$DATATYPE/F/$BYTEORD/1,2,3,4/";
    let be = "/$PAR/3/$TOT/2/$DATATYPE/F/$BYTEORD/4,3,2,1/";
    let d1 = decode_fcs(&build_file(le, &f32_payload(&values, false))).unwrap();
    let d2 = decode_fcs(&build_file(be, &f32_payload(&values, true))).unwrap();
    assert_eq!(d1.columns, d2.columns);
    assert_eq!(float_columns(&d2.columns)[1], vec![-2.0, 7.0]);
}

#[test]
fn integer_channel_keeps_raw_value_and_reports_gain() {
    let text = "/$PAR/1/$TOT/1/$DATATYPE/I/$P1B/16/$P1E/2.0/";
    let d = decode_fcs(&build_file(text, &10u16.to_le_bytes())).unwrap();
    assert_eq!(d.kind, ElementKind::Unsigned16);
    assert_eq!(d.columns, vec![vec![10u64]]);
    assert_eq!(d.gains, vec![Some(b"2.0".to_vec())]);
    let raw = d.columns[0][0] as f64;
    let gain: f64 = std::str::from_utf8(d.gains[0].as_ref().unwrap()).unwrap().parse().unwrap();
    assert_eq!(raw / gain, 5.0);
}

#[test]
fn integer_channel_without_gain() {
    let text = "/$PAR/2/$TOT/1/$DATATYPE/I/$P2E/0/";
    let mut data = Vec::new();
    data.extend_from_slice(&10u32.to_le_bytes());
    data.extend_from_slice(&70000u32.to_le_bytes());
    let d = decode_fcs(&build_file(text, &data)).unwrap();
    assert_eq!(d.kind, ElementKind::Unsigned32);
    assert_eq!(d.columns, vec![vec![10u64], vec![70000u64]]);
    assert_eq!(d.gains, vec![None, Some(b"0".to_vec())]);
}

#[test]
fn float_gain_is_not_reported() {
    let text = "/$PAR/1/$TOT/1/$P1E/2.0/";
    let d = decode_fcs(&build_file(text, &f32_payload(&[3.0], false))).unwrap();
    assert_eq!(d.gains, vec![None]);
}

#[test]
fn sixty_four_bit_floats() {
    let text = "/$PAR/2/$TOT/1/$DATATYPE/F/$P1B/64/$BYTEORD/4,3,2,1/";
    let mut data = Vec::new();
    data.extend_from_slice(&0.1f64.to_be_bytes());
    data.extend_from_slice(&(-3.5f64).to_be_bytes());
    let d = decode_fcs(&build_file(text, &data)).unwrap();
    assert_eq!(d.kind, ElementKind::Float64);
    assert_eq!(f64::from_bits(d.columns[0][0]), 0.1);
    assert_eq!(f64::from_bits(d.columns[1][0]), -3.5);
}

#[test]
fn missing_names_get_placeholders() {
    let text = "/$PAR/3/$TOT/1/$P2N/SSC/";
    let d = decode_fcs(&build_file(text, &f32_payload(&[1.0, 2.0, 3.0], false))).unwrap();
    assert_eq!(d.channels, vec![b"Channel1".to_vec(), b"SSC".to_vec(), b"Channel3".to_vec()]);
}

#[test]
fn extra_elements_are_ignored() {
    let text = "/$PAR/2/$TOT/1/";
    let d = decode_fcs(&build_file(text, &f32_payload(&[1.0, 2.0, 3.0], false))).unwrap();
    assert_eq!(float_columns(&d.columns), vec![vec![1.0], vec![2.0]]);
}

#[test]
fn missing_parameter_count_is_invalid() {
    let text = "/$TOT/2/";
    let r = decode_fcs(&build_file(text, &f32_payload(&[1.0, 2.0], false)));
    assert_eq!(r.err(), Some(FcsError::InvalidDataset));
}

#[test]
fn zero_event_count_is_invalid() {
    let text = "/$PAR/2/$TOT/0/";
    let r = decode_fcs(&build_file(text, &f32_payload(&[1.0, 2.0], false)));
    assert_eq!(r.err(), Some(FcsError::InvalidDataset));
}

#[test]
fn missing_event_count_is_invalid() {
    let text = "/$PAR/1/";
    let r = decode_fcs(&build_file(text, &f32_payload(&[1.0], false)));
    assert_eq!(r.err(), Some(FcsError::InvalidDataset));
}

#[test]
fn unknown_data_type_is_unsupported() {
    let text = "/$PAR/1/$TOT/1/$DATATYPE/D/";
    let r = decode_fcs(&build_file(text, &[0u8; 8]));
    assert_eq!(r.err(), Some(FcsError::UnsupportedDataType));
}

#[test]
fn short_payload_is_truncated() {
    let text = "/$PAR/2/$TOT/2/";
    let r = decode_fcs(&build_file(text, &f32_payload(&[1.0, 2.0, 3.0], false)));
    assert_eq!(r.err(), Some(FcsError::TruncatedData));
}

#[test]
fn data_segment_past_end_is_truncated() {
    let text = "/$PAR/1/$TOT/1/";
    let mut file = build_file(text, &f32_payload(&[1.0], false));
    file.truncate(file.len() - 2);
    assert_eq!(decode_fcs(&file).err(), Some(FcsError::TruncatedData));
}

#[test]
fn short_header_is_malformed() {
    assert_eq!(decode_fcs(&[b'F'; 40]).err(), Some(FcsError::MalformedHeader));
    assert!(parse_header(&[b' '; 57]).is_err());
}

#[test]
fn header_fields_are_read() {
    let file = build_file("/$PAR/1/", b"abcd");
    let h = parse_header(&file).unwrap();
    assert_eq!(h.version, b"FCS3.0".to_vec());
    assert_eq!((h.text_start, h.text_end), (58, 65));
    assert_eq!((h.data_start, h.data_end), (66, 69));
    assert_eq!((h.analysis_start, h.analysis_end), (0, 0));
}

#[test]
fn bad_required_offset_is_malformed() {
    let mut file = build_file("/$PAR/1/", b"abcd");
    file[12] = b'x';
    assert_eq!(parse_header(&file).err(), Some(FcsError::MalformedHeader));
}

#[test]
fn bad_analysis_offset_defaults_to_zero() {
    let mut file = build_file("/$PAR/1/", b"abcd");
    file[45] = b'x';
    file[53] = b'?';
    let h = parse_header(&file).unwrap();
    assert_eq!((h.analysis_start, h.analysis_end), (0, 0));
}

#[test]
fn metadata_pairs_are_trimmed_and_dangling_key_dropped() {
    let seg = b"| $A | 1 |  | skipped |$B|two|$A|3|tail";
    let m = parse_metadata(seg, 0, seg.len() - 1).unwrap();
    assert_eq!(m.get(b"$A"), Some(&b"3".to_vec()));
    assert_eq!(m.get(b"$B"), Some(&b"two".to_vec()));
    assert_eq!(m.get(b""), None);
    assert_eq!(m.get(b"tail"), None);
    assert_eq!(m.entries().len(), 2);
}

#[test]
fn doubled_delimiter_is_two_tokens() {
    let seg = b"/$A/a//b/$B/c/";
    let m = parse_metadata(seg, 0, seg.len() - 1).unwrap();
    assert_eq!(m.get(b"$A"), Some(&b"a".to_vec()));
    assert_eq!(m.get(b"$B"), Some(&b"c".to_vec()));
    assert_eq!(m.entries().len(), 2);
}

#[test]
fn metadata_out_of_bounds_or_not_text_is_malformed() {
    let seg = b"/$A/1/";
    assert_eq!(parse_metadata(seg, 0, seg.len()).err(), Some(FcsError::MalformedMetadata));
    assert_eq!(parse_metadata(seg, 3, 2).err(), Some(FcsError::MalformedMetadata));
    let bad = [b'/', b'$', b'A', b'/', 0xff, b'/'];
    assert_eq!(parse_metadata(&bad, 0, 5).err(), Some(FcsError::MalformedMetadata));
}

#[test]
fn elements_read_in_both_orders() {
    let b = [0x01u8, 0x02, 0x03, 0x04];
    assert_eq!(read_element(&b, 0, 4, false), 0x04030201);
    assert_eq!(read_element(&b, 0, 4, true), 0x01020304);
    assert_eq!(read_element(&b, 1, 2, true), 0x0203);
}

#[test]
fn metadata_values_lose_unicode_whitespace() {
    let seg = "/\u{a0}$A\u{2003}/\u{202f}v\u{a0}/";
    let m = parse_metadata(seg.as_bytes(), 0, seg.len() - 1).unwrap();
    assert_eq!(m.get(b"$A"), Some(&b"v".to_vec()));
}

#[test]
fn header_text_must_be_utf8() {
    let mut file = build_file("/$PAR/1/", b"abcd");
    file[2] = 0xff;
    assert_eq!(parse_header(&file).err(), Some(FcsError::MalformedHeader));
    let mut file = build_file("/$PAR/1/", b"abcd");
    file[55] = 0xc3;
    assert_eq!(parse_header(&file).err(), Some(FcsError::MalformedHeader));
}
