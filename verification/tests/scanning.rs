use stocktrack::scan::{classify, format_custom_code, parse_custom_code, Scan, ScanOp};

#[test]
fn mode_tokens_map_to_their_modes() {
    assert_eq!(ScanOp::from_str("???"), Some(ScanOp::Idle));
    assert_eq!(ScanOp::from_str("+++"), Some(ScanOp::Register));
    assert_eq!(ScanOp::from_str(">>>"), Some(ScanOp::Add));
    assert_eq!(ScanOp::from_str("<<<"), Some(ScanOp::Remove));
    assert_eq!(ScanOp::from_str("///"), Some(ScanOp::Open));
    assert_eq!(ScanOp::from_str("</<"), Some(ScanOp::Finish));
    assert_eq!(ScanOp::from_str("~+~"), None);
    assert_eq!(ScanOp::from_str("4000417025005"), None);
    assert_eq!(ScanOp::from_str(""), None);
}

#[test]
fn parse_custom_code_extracts_both_ids() {
    assert_eq!(parse_custom_code("~1|2~"), Some((1, 2)));
    assert_eq!(parse_custom_code("~17|2345~"), Some((17, 2345)));
    assert_eq!(parse_custom_code("~2147483647|1~"), Some((2147483647, 1)));
}

#[test]
fn parse_custom_code_rejects_malformed_strings() {
    assert_eq!(parse_custom_code(""), None);
    assert_eq!(parse_custom_code("~|~"), None);
    assert_eq!(parse_custom_code("~1|~"), None);
    assert_eq!(parse_custom_code("~|2~"), None);
    assert_eq!(parse_custom_code("~12~"), None);
    assert_eq!(parse_custom_code("1|2"), None);
    assert_eq!(parse_custom_code("~1|2"), None);
    assert_eq!(parse_custom_code("~a|2~"), None);
    assert_eq!(parse_custom_code("~1|2~x"), None);
    // one past the largest id no longer fits
    assert_eq!(parse_custom_code("~2147483648|1~"), None);
}

#[test]
fn format_custom_code_renders_the_label_code() {
    assert_eq!(format_custom_code(1, 2), "~1|2~");
    assert_eq!(format_custom_code(17, 2345), "~17|2345~");
    assert_eq!(format_custom_code(0, 2147483647), "~0|2147483647~");
}

#[test]
fn format_then_parse_round_trips() {
    for &(a, b) in &[(1, 1), (12, 9), (407, 10020), (2147483647, 2147483646)] {
        let code = format_custom_code(a, b);
        assert_eq!(parse_custom_code(&code), Some((a, b)));
    }
}

#[test]
fn classify_follows_priority_order() {
    assert_eq!(classify("+++"), Scan::Token(ScanOp::Register));
    assert_eq!(classify("???"), Scan::Token(ScanOp::Idle));
    assert_eq!(classify("~+~"), Scan::CustomAction);
    assert_eq!(classify("~3|44~"), Scan::RemovalRef(3, 44));
    assert_eq!(classify("4000417025005"), Scan::Barcode);
    assert_eq!(classify("~+1~"), Scan::Barcode);
    assert_eq!(classify(""), Scan::Barcode);
}
