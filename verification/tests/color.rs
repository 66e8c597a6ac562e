use voyager_disco::color::{hex_to_rgb, rgb_to_hex, ColorError};

fn invalid_input(s: &str) -> String {
    match hex_to_rgb(s) {
        Err(ColorError::InvalidHexColor(t)) => t,
        Ok(c) => panic!("{s:?} was accepted as {c:?}"),
    }
}

#[test]
fn hex_without_hash() {
    assert_eq!(hex_to_rgb("ff00aa").unwrap(), (0xff, 0x00, 0xaa));
}

#[test]
fn hex_with_hash() {
    assert_eq!(hex_to_rgb("#ff00aa").unwrap(), (255, 0, 170));
}

#[test]
fn hex_upper_and_mixed_case() {
    assert_eq!(hex_to_rgb("FF00AA").unwrap(), (255, 0, 170));
    assert_eq!(hex_to_rgb("#0aB1c9").unwrap(), (0x0a, 0xb1, 0xc9));
}

#[test]
fn hex_black_and_white() {
    assert_eq!(hex_to_rgb("000000").unwrap(), (0, 0, 0));
    assert_eq!(hex_to_rgb("#ffffff").unwrap(), (255, 255, 255));
}

#[test]
fn hex_wrong_length_is_refused() {
    assert_eq!(invalid_input("ff00a"), "ff00a");
    assert_eq!(invalid_input("ff00aa0"), "ff00aa0");
    assert_eq!(invalid_input(""), "");
    assert_eq!(invalid_input("#"), "#");
}

#[test]
fn hex_only_one_hash_is_stripped() {
    assert_eq!(invalid_input("##ff00aa"), "##ff00aa");
}

#[test]
fn hex_non_hex_digit_is_refused() {
    assert_eq!(invalid_input("gg0000"), "gg0000");
    assert_eq!(invalid_input("#ff 0aa"), "#ff 0aa");
    assert_eq!(invalid_input("ff00a\u{e9}"), "ff00a\u{e9}");
    assert_eq!(invalid_input("+f00aa"), "+f00aa");
}

#[test]
fn rgb_to_hex_writes_lower_case_with_hash() {
    assert_eq!(rgb_to_hex(255, 0, 170), "#ff00aa");
    assert_eq!(rgb_to_hex(0, 0, 0), "#000000");
    assert_eq!(rgb_to_hex(0x0a, 0xb1, 0xc9), "#0ab1c9");
}

#[test]
fn rgb_to_hex_reads_back() {
    for (r, g, b) in [(1u8, 2u8, 3u8), (255, 255, 255), (16, 15, 240), (127, 128, 9)] {
        assert_eq!(hex_to_rgb(&rgb_to_hex(r, g, b)).unwrap(), (r, g, b));
    }
}

#[test]
fn invalid_color_message() {
    match hex_to_rgb("#12") {
        Err(e) => assert_eq!(
            e.message(),
            "Invalid hex color: \"#12\". Expected format: ff00aa or #ff00aa"
        ),
        Ok(_) => panic!("accepted"),
    }
}
