// Line-match grouping, text-encoding detection, and word wrapping.

use myglob::grep::GrepLineMatches;
use myglob::matcher::Matcher;
use myglob::textenc::decode_text;
use myglob::textfmt::Options;

#[test]
fn iterator() {
    let m = Matcher::new("(?m)pommes".to_string()).unwrap();
    let haystack = "Recette de la tarte aux pommes\r\nPréparez la pâte\r\nPrécuire la pâte 10 minutes\r\nPeler les pommes et ajouter les pommes\r\nFaire cuire\r\nLaisser refroidire\r\nDéguster!";

    let res: Vec<GrepLineMatches> = GrepLineMatches::new(haystack, &m);
    assert_eq!(res.len(), 2);
    assert_eq!(res[0].line, "Recette de la tarte aux pommes");
    assert_eq!(res[0].ranges.len(), 1);
    assert_eq!(res[0].ranges[0], (24, 30));

    assert_eq!(res[1].line, "Peler les pommes et ajouter les pommes");
    assert_eq!(res[1].ranges.len(), 2);
    assert_eq!(res[1].ranges[0], (10, 16));
    assert_eq!(res[1].ranges[1], (32, 38));
}

#[test]
fn grouping_reports_no_lines_without_matches() {
    let m = Matcher::new("zzz".to_string()).unwrap();
    let res = GrepLineMatches::new("nothing here\nnor here", &m);
    assert!(res.is_empty());
}

#[test]
fn decode_utf8_text() {
    let bytes: Vec<u8> = "quelques prénoms: géraldine".as_bytes().to_vec();
    let r = decode_text(&bytes);
    assert_eq!(r.unwrap(), "quelques prénoms: géraldine");
}

#[test]
fn decode_utf16le_text_with_bom() {
    let mut bytes: Vec<u8> = vec![0xFF, 0xFE];
    for c in "abcdef".chars() {
        bytes.push(c as u8);
        bytes.push(0);
    }
    let r = decode_text(&bytes);
    assert_eq!(r.unwrap(), "abcdef");
}

#[test]
fn decode_windows_1252_text() {
    let mut bytes: Vec<u8> = Vec::new();
    bytes.extend_from_slice(b"plenty of plain ascii text around the accent g");
    bytes.push(0xE9);
    bytes.extend_from_slice(b"raldine and then some more plain text");
    let r = decode_text(&bytes);
    assert_eq!(
        r.unwrap(),
        "plenty of plain ascii text around the accent g\u{e9}raldine and then some more plain text"
    );
}

#[test]
fn binary_bytes_are_rejected() {
    let bytes: Vec<u8> = vec![0x81; 16];
    let r = decode_text(&bytes);
    assert_eq!(
        r.unwrap_err(),
        "File does not appear to be UTF-8, UTF-16 or Windows-1252 encoded."
    );
}

#[test]
fn format_line_wraps_greedily() {
    assert_eq!(Options::format_line("aaa bbb ccc", 7), "aaa bbb\nccc");
    assert_eq!(Options::format_line("", 10), "");
    assert_eq!(Options::format_line("one", 10), "one");
}

#[test]
fn format_line_keeps_bullet_margin() {
    assert_eq!(Options::format_line("• aa bb", 5), "• aa\n  bb");
}

#[test]
fn format_text_wraps_each_line() {
    assert_eq!(Options::format_text("aaa bbb ccc\nddd", 7), "aaa bbb\nccc\nddd");
}
