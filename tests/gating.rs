use fcs_gate::{
    decimal_bytes, decode_fcs, find_channel, intersect_filters, parse_decimal,
    parse_export_format, project_points, project_table, ray_parity, select_indices,
    trim_ws, ChannelPair, ExportFormat, FcsError,
};

#[test]
fn intersect_three_filters() {
    let r = intersect_filters(&vec![vec![1, 2, 3], vec![2, 3, 4], vec![3, 4, 5]]);
    assert_eq!(r, vec![3]);
}

#[test]
fn intersect_no_filters() {
    assert_eq!(intersect_filters(&vec![]), Vec::<usize>::new());
}

#[test]
fn intersect_filter_with_itself() {
    let f = vec![0, 4, 9, 12];
    assert_eq!(intersect_filters(&vec![f.clone(), f.clone()]), f);
    assert_eq!(intersect_filters(&vec![f.clone()]), f);
}

#[test]
fn intersect_sorts_the_result() {
    let r = intersect_filters(&vec![vec![9, 2, 7, 5], vec![5, 7, 9]]);
    assert_eq!(r, vec![5, 7, 9]);
}

#[test]
fn intersect_with_empty_filter() {
    assert_eq!(intersect_filters(&vec![vec![1, 2], vec![]]), Vec::<usize>::new());
}

#[test]
fn select_indices_keeps_order_and_count() {
    let r = select_indices(&vec![false, true, true, false, true]);
    assert_eq!(r.indices, vec![1, 2, 4]);
    assert_eq!(r.count, 3);
    let none = select_indices(&vec![]);
    assert_eq!(none.count, 0);
}

#[test]
fn parity_rule() {
    assert!(ray_parity(&vec![false, true, false, false]));
    assert!(!ray_parity(&vec![false, true, true, false]));
    assert!(!ray_parity(&vec![false, false, false, false]));
}

#[test]
fn parity_degenerate_polygon_is_outside() {
    assert!(!ray_parity(&vec![true, false]));
    assert!(!ray_parity(&vec![true]));
    assert!(!ray_parity(&vec![]));
}

fn sample_file() -> Vec<u8> {
    let text = "/$PAR/3/$TOT/3/$P1N/FSC/$P2N/SSC/$P3N/FL1/$DATATYPE/I/$P1B/16/";
    let data: Vec<u8> = (1u16..=9).flat_map(|v| v.to_le_bytes()).collect();
    let mut out = Vec::new();
    let text_end = 58 + text.len() - 1;
    let data_start = text_end + 1;
    let data_end = data_start + data.len() - 1;
    out.extend_from_slice(b"FCS3.1    ");
    for n in [58, text_end, data_start, data_end] {
        out.extend_from_slice(format!("{:<8}", n).as_bytes());
    }
    out.extend_from_slice(b"                ");
    out.extend_from_slice(text.as_bytes());
    out.extend_from_slice(&data);
    out
}

#[test]
fn points_pair_two_channels() {
    let d = decode_fcs(&sample_file()).unwrap();
    let pair = ChannelPair { x: "FL1".to_string(), y: "FSC".to_string() };
    assert_eq!(project_points(&d, &pair).unwrap(), vec![(3, 1), (6, 4), (9, 7)]);
}

#[test]
fn points_unknown_channel() {
    let d = decode_fcs(&sample_file()).unwrap();
    let pair = ChannelPair { x: "FSC".to_string(), y: "APC".to_string() };
    assert_eq!(project_points(&d, &pair).err(), Some(FcsError::ChannelNotFound));
    assert_eq!(find_channel(&d, b"SSC"), Some(1));
    assert_eq!(find_channel(&d, b"ssc"), None);
}

#[test]
fn table_follows_channel_order_and_skips_out_of_range() {
    let d = decode_fcs(&sample_file()).unwrap();
    let t = project_table(&d, &vec![2, 7, 0]);
    assert_eq!(t, vec![vec![7, 1], vec![8, 2], vec![9, 3]]);
    let t2 = project_table(&d, &vec![0, 1]);
    assert_eq!(t2, vec![vec![1, 4], vec![2, 5], vec![3, 6]]);
}

#[test]
fn export_format_tokens() {
    assert_eq!(parse_export_format("csv"), Ok(ExportFormat::Csv));
    assert_eq!(parse_export_format("xlsx"), Ok(ExportFormat::Excel));
    assert_eq!(parse_export_format("excel"), Ok(ExportFormat::Excel));
    assert_eq!(parse_export_format("parquet"), Ok(ExportFormat::Parquet));
    assert_eq!(parse_export_format("CSV"), Err(FcsError::UnsupportedExportFormat));
    assert_eq!(parse_export_format(""), Err(FcsError::UnsupportedExportFormat));
}

#[test]
fn decimal_numbers() {
    assert_eq!(parse_decimal(b"42"), Some(42));
    assert_eq!(parse_decimal(b"+7"), Some(7));
    assert_eq!(parse_decimal(b""), None);
    assert_eq!(parse_decimal(b"+"), None);
    assert_eq!(parse_decimal(b"-1"), None);
    assert_eq!(parse_decimal(b"1 2"), None);
    assert_eq!(parse_decimal(b"18446744073709551615"), Some(usize::MAX));
    assert_eq!(parse_decimal(b"18446744073709551616"), None);
    assert_eq!(decimal_bytes(0), b"0".to_vec());
    assert_eq!(decimal_bytes(1207), b"1207".to_vec());
}

#[test]
fn trimming() {
    assert_eq!(trim_ws(b" \t a b \r\n"), b"a b".to_vec());
    assert_eq!(trim_ws(b"   "), Vec::<u8>::new());
    assert_eq!(trim_ws("\u{a0} x\u{3000}\u{2009}".as_bytes()), b"x".to_vec());
    assert_eq!(trim_ws("\u{85}y\u{1680}".as_bytes()), b"y".to_vec());
    assert_eq!(trim_ws("\u{e9}z\u{e9}".as_bytes()), "\u{e9}z\u{e9}".as_bytes().to_vec());
}

#[test]
fn intersect_order_does_not_matter() {
    let a = vec![8, 1, 5, 3];
    let b = vec![3, 9, 8, 4];
    assert_eq!(intersect_filters(&vec![a.clone(), b.clone()]), vec![3, 8]);
    assert_eq!(intersect_filters(&vec![b, a]), vec![3, 8]);
}
