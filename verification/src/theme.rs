//! The accent colour of the current Omarchy theme, read from its `colors.toml`.
use std::collections::BTreeMap;
use vstd::prelude::*;
use vstd::string::*;
use crate::color::{ColorError, decode_hex_color, hex_to_rgb, is_hex_color};

verus! {

#[verifier::external_type_specification]
#[verifier::external_body]
pub struct ExTomlDeError(toml::de::Error);

/// The string-valued table that `toml::from_str` reads from a TOML document, as its
/// entries in ascending key order; `None` where the document is not valid TOML or
/// holds a value that is not a string.
pub uninterp spec fn toml_string_table(text: Seq<char>) -> Option<Seq<(Seq<char>, Seq<char>)>>;

/// Whether no key occurs twice among `entries`.
pub open spec fn keys_distinct(entries: Seq<(Seq<char>, Seq<char>)>) -> bool {
    forall|i: int, j: int| 0 <= i < j < entries.len() ==> #[trigger] entries[i].0 != #[trigger] entries[j].0
}

/// Calls `toml::from_str` for a map from strings to strings and hands out the map's
/// entries. The contract claims that the result is a function of the text alone
/// (named `toml_string_table`), that an error comes exactly where that name is `None`,
/// and that a map never holds a key twice.
#[verifier::external_body]
fn parse_string_table(text: &str) -> (r: Result<Vec<(String, String)>, toml::de::Error>)
    ensures
        r matches Ok(entries) ==> toml_string_table(text@) == Some(entries.deep_view()) && keys_distinct(
            entries.deep_view(),
        ),
        r is Err ==> toml_string_table(text@) is None,
{
    match toml::from_str::<BTreeMap<String, String>>(text) {
        Ok(table) => Ok(table.into_iter().collect()),
        Err(e) => Err(e),
    }
}

/// Why the accent colour could not be had.
#[derive(Debug)]
pub enum ThemeError {
    /// `colors.toml` is not a table of strings; the error that the TOML parser gave.
    Parse(toml::de::Error),
    /// The table has no `accent` key.
    MissingAccent,
    /// The `accent` value is not a hex colour.
    InvalidAccent(ColorError),
}

impl ThemeError {
    /// The text of this error. For a parse error and an invalid accent it is the line
    /// that stands above the cause (the parser's error, or the colour error).
    pub open spec fn message_text(&self) -> Seq<char> {
        match self {
            ThemeError::Parse(_) => "Failed to parse colors.toml"@,
            ThemeError::MissingAccent => "No 'accent' key found in colors.toml"@,
            ThemeError::InvalidAccent(_) => "Invalid accent color in colors.toml"@,
        }
    }

    /// The text of this error; for a parse error and an invalid accent, the line that
    /// stands above the cause.
    pub fn message(&self) -> (r: String)
        ensures
            r@ == self.message_text(),
    {
        match self {
            ThemeError::Parse(_) => String::from_str("Failed to parse colors.toml"),
            ThemeError::MissingAccent => String::from_str("No 'accent' key found in colors.toml"),
            ThemeError::InvalidAccent(_) => String::from_str("Invalid accent color in colors.toml"),
        }
    }
}

/// The value of the first entry whose key is `accent`.
pub open spec fn accent_of(entries: Seq<(Seq<char>, Seq<char>)>) -> Option<Seq<char>>
    decreases entries.len(),
{
    if entries.len() == 0 {
        None
    } else {
        match accent_of(entries.drop_last()) {
            Some(a) => Some(a),
            None => if entries.last().0 == "accent"@ {
                Some(entries.last().1)
            } else {
                None
            },
        }
    }
}

/// Whether `r` is what the accent of a table of `entries` decodes to: the colour of
/// its `accent` value, an error when there is no such value, or an error that holds the
/// value when it is not a hex colour.
pub open spec fn is_accent_result(
    entries: Seq<(Seq<char>, Seq<char>)>,
    r: Result<(u8, u8, u8), ThemeError>,
) -> bool {
    match accent_of(entries) {
        None => r matches Err(ThemeError::MissingAccent),
        Some(a) => if is_hex_color(a) {
            r matches Ok(c) && c == decode_hex_color(a)
        } else {
            r matches Err(ThemeError::InvalidAccent(ColorError::InvalidHexColor(t))) && t@ == a
        },
    }
}

proof fn lemma_accent_of_prefix(entries: Seq<(Seq<char>, Seq<char>)>, n: int)
    requires
        0 <= n <= entries.len(),
        accent_of(entries.take(n)) is Some,
    ensures
        accent_of(entries) == accent_of(entries.take(n)),
    decreases entries.len() - n,
{
    if n < entries.len() {
        assert(entries.take(n + 1).drop_last() =~= entries.take(n));
        lemma_accent_of_prefix(entries, n + 1);
    } else {
        assert(entries.take(n) =~= entries);
    }
}

/// Decodes the accent colour of a theme from the entries of its `colors.toml`.
pub fn accent_from_table(entries: &Vec<(String, String)>) -> (r: Result<(u8, u8, u8), ThemeError>)
    ensures
        is_accent_result(entries.deep_view(), r),
{
    let key = String::from_str("accent");
    let mut i: usize = 0;
    while i < entries.len()
        invariant
            0 <= i <= entries.len(),
            key@ == "accent"@,
            accent_of(entries.deep_view().take(i as int)) is None,
        decreases entries.len() - i,
    {
        let ghost dv = entries.deep_view();
        assert(dv.take(i + 1).drop_last() =~= dv.take(i as int));
        assert(dv.take(i + 1).last() == dv[i as int]);
        if entries[i].0 == key {
            proof {
                lemma_accent_of_prefix(dv, i + 1);
            }
            return match hex_to_rgb(entries[i].1.as_str()) {
                Ok(c) => Ok(c),
                Err(e) => Err(ThemeError::InvalidAccent(e)),
            };
        }
        i = i + 1;
    }
    assert(entries.deep_view().take(entries.len() as int) =~= entries.deep_view());
    Err(ThemeError::MissingAccent)
}

/// Decodes the accent colour of a theme from the text of its `colors.toml`.
pub fn read_theme_accent(colors_toml: &str) -> (r: Result<(u8, u8, u8), ThemeError>)
    ensures
        toml_string_table(colors_toml@) is None ==> r matches Err(ThemeError::Parse(_)),
        toml_string_table(colors_toml@) matches Some(entries) ==> is_accent_result(entries, r),
{
    match parse_string_table(colors_toml) {
        Ok(entries) => accent_from_table(&entries),
        Err(e) => Err(ThemeError::Parse(e)),
    }
}

} // verus!
