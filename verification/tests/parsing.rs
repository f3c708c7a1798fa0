use gaia_pipeline::table::{is_number, parse_table, split_bytes};

fn num(s: &str) -> bool {
    is_number(&s.as_bytes().to_vec())
}

#[test]
fn numeric_fields_accepted() {
    assert!(num("0"));
    assert!(num("7"));
    assert!(num("123456789"));
    assert!(num("-2.5"));
    assert!(num("+2.5"));
    assert!(num(".5"));
    assert!(num("-.5"));
    assert!(num("1."));
    assert!(num("1.e5"));
    assert!(num("1e5"));
    assert!(num("1E5"));
    assert!(num("1e+5"));
    assert!(num("-1.25e-3"));
}

#[test]
fn non_numeric_fields_rejected() {
    assert!(!num(""));
    assert!(!num("-"));
    assert!(!num("+"));
    assert!(!num("."));
    assert!(!num("-."));
    assert!(!num("e5"));
    assert!(!num("1e"));
    assert!(!num("1e-"));
    assert!(!num("1.2.3"));
    assert!(!num("1,2"));
    assert!(!num(" 1"));
    assert!(!num("1 "));
    assert!(!num("nan"));
    assert!(!num("inf"));
    assert!(!num("abc"));
    assert!(!num("--1"));
}

#[test]
fn split_keeps_empty_segments() {
    let segs = split_bytes(&b"a,b,,c".to_vec(), b',');
    let segs: Vec<&[u8]> = segs.iter().map(|s| s.as_slice()).collect();
    assert_eq!(segs, vec![&b"a"[..], &b"b"[..], &b""[..], &b"c"[..]]);
}

#[test]
fn split_of_empty_is_one_empty_segment() {
    let segs = split_bytes(&Vec::new(), b',');
    assert_eq!(segs.len(), 1);
    assert!(segs[0].is_empty());
}

#[test]
fn split_separator_at_ends() {
    let segs = split_bytes(&b",x,".to_vec(), b',');
    let segs: Vec<&[u8]> = segs.iter().map(|s| s.as_slice()).collect();
    assert_eq!(segs, vec![&b""[..], &b"x"[..], &b""[..]]);
}

#[test]
fn header_is_skipped_and_rows_parsed() {
    let text = b"ra,dec,parallax\n1.0,2.0,3.0\n-4,5e1,.25\n".to_vec();
    let rows = parse_table(&text);
    assert_eq!(rows.len(), 2);
    assert_eq!(rows[0].ra, b"1.0".to_vec());
    assert_eq!(rows[0].dec, b"2.0".to_vec());
    assert_eq!(rows[0].parallax, b"3.0".to_vec());
    assert_eq!(rows[1].ra, b"-4".to_vec());
    assert_eq!(rows[1].dec, b"5e1".to_vec());
    assert_eq!(rows[1].parallax, b".25".to_vec());
}

#[test]
fn malformed_rows_are_skipped_individually() {
    let text = b"ra,dec,parallax\n1,2\n1,2,3,4\nx,2,3\n1,y,3\n1,2,z\n7,8,9\n\n".to_vec();
    let rows = parse_table(&text);
    assert_eq!(rows.len(), 1);
    assert_eq!(rows[0].ra, b"7".to_vec());
    assert_eq!(rows[0].dec, b"8".to_vec());
    assert_eq!(rows[0].parallax, b"9".to_vec());
}

#[test]
fn carriage_returns_are_trimmed() {
    let text = b"ra,dec,parallax\r\n1,2,3\r\n".to_vec();
    let rows = parse_table(&text);
    assert_eq!(rows.len(), 1);
    assert_eq!(rows[0].parallax, b"3".to_vec());
}

#[test]
fn missing_final_newline_still_yields_last_row() {
    let text = b"ra,dec,parallax\n1,2,3".to_vec();
    let rows = parse_table(&text);
    assert_eq!(rows.len(), 1);
}

#[test]
fn empty_text_and_header_only_yield_no_rows() {
    assert_eq!(parse_table(&Vec::new()).len(), 0);
    assert_eq!(parse_table(&b"ra,dec,parallax\n".to_vec()).len(), 0);
}

#[test]
fn header_line_is_never_a_row_even_if_numeric() {
    let text = b"1,2,3\n4,5,6\n".to_vec();
    let rows = parse_table(&text);
    assert_eq!(rows.len(), 1);
    assert_eq!(rows[0].ra, b"4".to_vec());
}
