//! Deterministic naming and identifier derivation.

use pdfraster::formats::{ext_str, Format};
use pdfraster::ids::derive_identifier;
use pdfraster::names::{archive_name, decimal_string, padded3_string, page_name, single_name};

#[test]
fn derives_identifier_by_stripping_suffix() {
    assert_eq!(derive_identifier("invoice.pdf"), "invoice");
    assert_eq!(derive_identifier("report.pdf"), "report");
    assert_eq!(derive_identifier("no-suffix"), "no-suffix");
    assert_eq!(derive_identifier("archive.tar.pdf"), "archive.tar");
    assert_eq!(derive_identifier("double.pdf.pdf"), "double");
    assert_eq!(derive_identifier(".pdf"), "");
    assert_eq!(derive_identifier(""), "");
}

#[test]
fn renders_decimal_numbers() {
    assert_eq!(decimal_string(0), "0");
    assert_eq!(decimal_string(7), "7");
    assert_eq!(decimal_string(42), "42");
    assert_eq!(decimal_string(1000), "1000");
}

#[test]
fn pads_page_numbers_to_three_digits() {
    assert_eq!(padded3_string(1), "001");
    assert_eq!(padded3_string(12), "012");
    assert_eq!(padded3_string(123), "123");
    assert_eq!(padded3_string(1234), "1234");
}

#[test]
fn builds_page_entry_names() {
    let id = String::from("report");
    assert_eq!(page_name(&id, 1, "png"), "report-page-001.png");
    assert_eq!(page_name(&id, 3, "jpeg"), "report-page-003.jpeg");
    assert_eq!(page_name(&id, 1000, "png"), "report-page-1000.png");
}

#[test]
fn builds_single_and_archive_names() {
    let id = String::from("invoice");
    assert_eq!(single_name(&id, "png"), "invoice.png");
    assert_eq!(single_name(&id, "jpeg"), "invoice.jpeg");
    assert_eq!(archive_name(&id), "invoice.zip");
}

#[test]
fn format_extensions() {
    assert_eq!(ext_str(Format::Png), "png");
    assert_eq!(ext_str(Format::Jpeg), "jpeg");
}

#[test]
fn process_file_uppercases_lossily() {
    assert_eq!(pdfraster::process_file(b"hello, world"), "HELLO, WORLD");
    assert_eq!(pdfraster::process_file(b""), "");
    // Invalid UTF-8 becomes replacement characters, then uppercased.
    assert_eq!(pdfraster::process_file(&[0x61, 0xff]), "A\u{fffd}");
}
