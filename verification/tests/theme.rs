use voyager_disco::color::ColorError;
use voyager_disco::theme::{accent_from_table, read_theme_accent, ThemeError};

#[test]
fn accent_is_read() {
    let text = "foreground = \"#ffffff\"\naccent = \"#ff00aa\"\nbackground = \"#000000\"\n";
    assert_eq!(read_theme_accent(text).unwrap(), (255, 0, 170));
}

#[test]
fn accent_without_hash_is_read() {
    assert_eq!(read_theme_accent("accent = '7aa2f7'").unwrap(), (0x7a, 0xa2, 0xf7));
}

#[test]
fn missing_accent() {
    assert!(matches!(
        read_theme_accent("foreground = \"#ffffff\"\n"),
        Err(ThemeError::MissingAccent)
    ));
    assert!(matches!(read_theme_accent(""), Err(ThemeError::MissingAccent)));
}

#[test]
fn invalid_accent_holds_the_value() {
    match read_theme_accent("accent = \"blue\"") {
        Err(ThemeError::InvalidAccent(ColorError::InvalidHexColor(v))) => assert_eq!(v, "blue"),
        other => panic!("unexpected {other:?}"),
    }
}

#[test]
fn malformed_toml_is_a_parse_error() {
    assert!(matches!(read_theme_accent("accent = "), Err(ThemeError::Parse(_))));
    assert!(matches!(read_theme_accent("accent = \"#ff00aa\"\naccent = \"#00ff00\""), Err(ThemeError::Parse(_))));
}

#[test]
fn non_string_value_is_a_parse_error() {
    assert!(matches!(read_theme_accent("accent = 5"), Err(ThemeError::Parse(_))));
    assert!(matches!(
        read_theme_accent("accent = \"#ff00aa\"\n[extra]\nx = \"y\""),
        Err(ThemeError::Parse(_))
    ));
}

#[test]
fn table_lookup_takes_the_accent_entry() {
    let entries = vec![
        ("background".to_string(), "#000000".to_string()),
        ("accent".to_string(), "#010203".to_string()),
    ];
    assert_eq!(accent_from_table(&entries).unwrap(), (1, 2, 3));
    assert!(matches!(accent_from_table(&vec![]), Err(ThemeError::MissingAccent)));
}

#[test]
fn theme_error_messages() {
    assert_eq!(ThemeError::MissingAccent.message(), "No 'accent' key found in colors.toml");
    let parse = read_theme_accent("accent = ").unwrap_err();
    assert_eq!(parse.message(), "Failed to parse colors.toml");
    let invalid = read_theme_accent("accent = \"blue\"").unwrap_err();
    assert_eq!(invalid.message(), "Invalid accent color in colors.toml");
}
