//! The address source: trimming, blank rejection, line splitting, and
//! mode selection.

use m365check::addr::{clean_line, extract_addresses, split_lines, trim_bytes};
use m365check::run::{choose_mode, Mode};

#[test]
fn trim_removes_surrounding_whitespace() {
    assert_eq!(trim_bytes(b"  alice@example.com  "), b"alice@example.com".to_vec());
    assert_eq!(trim_bytes(b"\tbob@example.com\r\n"), b"bob@example.com".to_vec());
    assert_eq!(trim_bytes(b"carol@example.com"), b"carol@example.com".to_vec());
    assert_eq!(trim_bytes(b""), b"".to_vec());
    assert_eq!(trim_bytes(b" \t\r\n "), b"".to_vec());
}

#[test]
fn trim_keeps_inner_whitespace() {
    assert_eq!(trim_bytes(b" a b "), b"a b".to_vec());
}

#[test]
fn blank_lines_yield_no_address() {
    assert_eq!(clean_line(b""), None);
    assert_eq!(clean_line(b"   "), None);
    assert_eq!(clean_line(b"\t\r\n"), None);
}

#[test]
fn nonblank_line_yields_trimmed_address() {
    assert_eq!(clean_line(b" alice@example.com\r\n"), Some(b"alice@example.com".to_vec()));
}

#[test]
fn split_lines_drops_separators() {
    assert_eq!(
        split_lines(b"a\nb\nc"),
        vec![b"a".to_vec(), b"b".to_vec(), b"c".to_vec()]
    );
    assert_eq!(split_lines(b""), vec![b"".to_vec()]);
    assert_eq!(split_lines(b"a\n"), vec![b"a".to_vec(), b"".to_vec()]);
}

#[test]
fn extract_addresses_skips_blank_lines() {
    let content = b"alice@example.com\n\nbob@example.com";
    assert_eq!(
        extract_addresses(content),
        vec![b"alice@example.com".to_vec(), b"bob@example.com".to_vec()]
    );
}

#[test]
fn extract_addresses_trims_every_line() {
    let content = b"  alice@example.com \n \t \n\tbob@example.com\r\n";
    assert_eq!(
        extract_addresses(content),
        vec![b"alice@example.com".to_vec(), b"bob@example.com".to_vec()]
    );
}

#[test]
fn extract_addresses_of_empty_input_is_empty() {
    assert_eq!(extract_addresses(b""), Vec::<Vec<u8>>::new());
}

#[test]
fn literal_address_selects_single_mode() {
    assert_eq!(choose_mode(b"alice@example.com", b""), Mode::Single);
    assert_eq!(choose_mode(b"alice@example.com", b"list.txt"), Mode::Single);
}

#[test]
fn file_selects_batch_mode() {
    assert_eq!(choose_mode(b"", b"list.txt"), Mode::Batch);
}

#[test]
fn neither_option_selects_interactive_mode() {
    assert_eq!(choose_mode(b"", b""), Mode::Interactive);
}
