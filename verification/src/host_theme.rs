//! The accent color of the host's theme, so the picker blends in. The host
//! exposes no theme to plugins, so this follows the host's own resolution:
//! read `[theme]` from its `config.toml`, honor a `[theme.custom] accent`
//! override, else look the built-in palette's accent up by name.

use vstd::prelude::*;
use crate::text::{chars_of, same_chars};

verus! {

/// A terminal color.
#[derive(Clone, Copy, Debug, PartialEq, Eq, Structural)]
pub enum Color {
    /// The terminal's own blue.
    Blue,
    /// A 24-bit color.
    Rgb(u8, u8, u8),
}

/// The value of a hexadecimal digit.
pub open spec fn hex_value(c: char) -> Option<u8> {
    if '0' <= c <= '9' {
        Some(((c as u32) - ('0' as u32)) as u8)
    } else if 'a' <= c <= 'f' {
        Some(((c as u32) - ('a' as u32) + 10) as u8)
    } else if 'A' <= c <= 'F' {
        Some(((c as u32) - ('A' as u32) + 10) as u8)
    } else {
        None
    }
}

/// The byte written by two hexadecimal digits.
pub open spec fn hex_byte(hi: char, lo: char) -> Option<u8> {
    match (hex_value(hi), hex_value(lo)) {
        (Some(h), Some(l)) => Some((h * 16 + l) as u8),
        _ => None,
    }
}

/// The color a `#rrggbb` text names.
pub open spec fn color_of(s: Seq<char>) -> Option<Color> {
    if s.len() == 7 && s[0] == '#' {
        match (hex_byte(s[1], s[2]), hex_byte(s[3], s[4]), hex_byte(s[5], s[6])) {
            (Some(r), Some(g), Some(b)) => Some(Color::Rgb(r, g, b)),
            _ => None,
        }
    } else {
        None
    }
}

/// The value of a hexadecimal digit.
fn hex_digit(c: char) -> (r: Option<u8>)
    ensures
        r == hex_value(c),
{
    if '0' <= c && c <= '9' {
        Some(((c as u32) - ('0' as u32)) as u8)
    } else if 'a' <= c && c <= 'f' {
        Some(((c as u32) - ('a' as u32) + 10) as u8)
    } else if 'A' <= c && c <= 'F' {
        Some(((c as u32) - ('A' as u32) + 10) as u8)
    } else {
        None
    }
}

/// The byte written by two hexadecimal digits.
fn hex_pair(hi: char, lo: char) -> (r: Option<u8>)
    ensures
        r == hex_byte(hi, lo),
{
    match (hex_digit(hi), hex_digit(lo)) {
        (Some(h), Some(l)) => Some(h * 16 + l),
        _ => None,
    }
}

/// Parses a `#rrggbb` color.
pub fn parse_color(text: &str) -> (r: Option<Color>)
    ensures
        r == color_of(text@),
{
    let s = chars_of(text);
    if s.len() != 7 || s[0] != '#' {
        return None;
    }
    match (hex_pair(s[1], s[2]), hex_pair(s[3], s[4]), hex_pair(s[5], s[6])) {
        (Some(r), Some(g), Some(b)) => Some(Color::Rgb(r, g, b)),
        _ => None,
    }
}

/// A palette name with spaces and underscores written as dashes, the
/// normalization the host applies after lowercasing.
pub open spec fn dashed(s: Seq<char>) -> Seq<char> {
    s.map_values(|c: char| if c == ' ' || c == '_' { '-' } else { c })
}

/// The accents of the host's built-in palettes, by normalized name.
pub open spec fn palette_accent(name: Seq<char>) -> Option<Color> {
    if name == "catppuccin"@ || name == "catppuccin-mocha"@ {
        Some(Color::Rgb(137, 180, 250))
    } else if name == "catppuccin-latte"@ || name == "latte"@ || name == "light"@ {
        Some(Color::Rgb(30, 102, 245))
    } else if name == "terminal"@ {
        Some(Color::Blue)
    } else if name == "tokyo-night"@ || name == "tokyonight"@ {
        Some(Color::Rgb(122, 162, 247))
    } else if name == "tokyo-night-day"@ || name == "tokyo-day"@ || name == "tokyonight-day"@ {
        Some(Color::Rgb(46, 125, 233))
    } else if name == "dracula"@ {
        Some(Color::Rgb(189, 147, 249))
    } else if name == "nord"@ {
        Some(Color::Rgb(136, 192, 208))
    } else if name == "gruvbox"@ || name == "gruvbox-dark"@ {
        Some(Color::Rgb(215, 153, 33))
    } else if name == "gruvbox-light"@ {
        Some(Color::Rgb(7, 102, 120))
    } else if name == "one-dark"@ || name == "onedark"@ {
        Some(Color::Rgb(97, 175, 239))
    } else if name == "one-light"@ || name == "onelight"@ {
        Some(Color::Rgb(64, 120, 242))
    } else if name == "solarized"@ || name == "solarized-dark"@ || name == "solarized-light"@ {
        Some(Color::Rgb(38, 139, 210))
    } else if name == "kanagawa"@ {
        Some(Color::Rgb(126, 156, 216))
    } else if name == "kanagawa-lotus"@ || name == "lotus"@ {
        Some(Color::Rgb(77, 105, 155))
    } else if name == "rose-pine"@ || name == "rosepine"@ {
        Some(Color::Rgb(196, 167, 231))
    } else if name == "rose-pine-dawn"@ || name == "rosepine-dawn"@ || name == "dawn"@ {
        Some(Color::Rgb(144, 122, 169))
    } else if name == "vesper"@ {
        Some(Color::Rgb(255, 199, 153))
    } else {
        None
    }
}

/// The accent of the built-in palette called `lowered` (already
/// lowercase); spaces and underscores count as dashes.
pub fn accent_of_lowered_name(lowered: &str) -> (r: Option<Color>)
    ensures
        r == palette_accent(dashed(lowered@)),
{
    let cs = chars_of(lowered);
    let mut n: Vec<char> = Vec::new();
    let mut i: usize = 0;
    while i < cs.len()
        invariant
            i <= cs@.len(),
            n@ == dashed(cs@.take(i as int)),
        decreases cs@.len() - i,
    {
        let c = cs[i];
        n.push(if c == ' ' || c == '_' { '-' } else { c });
        assert(n@ =~= dashed(cs@.take(i + 1)));
        i = i + 1;
    }
    assert(cs@.take(cs@.len() as int) =~= cs@);
    let n = n.as_slice();
    if same_chars(n, "catppuccin") || same_chars(n, "catppuccin-mocha") {
        Some(Color::Rgb(137, 180, 250))
    } else if same_chars(n, "catppuccin-latte") || same_chars(n, "latte") || same_chars(n, "light") {
        Some(Color::Rgb(30, 102, 245))
    } else if same_chars(n, "terminal") {
        Some(Color::Blue)
    } else if same_chars(n, "tokyo-night") || same_chars(n, "tokyonight") {
        Some(Color::Rgb(122, 162, 247))
    } else if same_chars(n, "tokyo-night-day") || same_chars(n, "tokyo-day") || same_chars(
        n,
        "tokyonight-day",
    ) {
        Some(Color::Rgb(46, 125, 233))
    } else if same_chars(n, "dracula") {
        Some(Color::Rgb(189, 147, 249))
    } else if same_chars(n, "nord") {
        Some(Color::Rgb(136, 192, 208))
    } else if same_chars(n, "gruvbox") || same_chars(n, "gruvbox-dark") {
        Some(Color::Rgb(215, 153, 33))
    } else if same_chars(n, "gruvbox-light") {
        Some(Color::Rgb(7, 102, 120))
    } else if same_chars(n, "one-dark") || same_chars(n, "onedark") {
        Some(Color::Rgb(97, 175, 239))
    } else if same_chars(n, "one-light") || same_chars(n, "onelight") {
        Some(Color::Rgb(64, 120, 242))
    } else if same_chars(n, "solarized") || same_chars(n, "solarized-dark") || same_chars(
        n,
        "solarized-light",
    ) {
        Some(Color::Rgb(38, 139, 210))
    } else if same_chars(n, "kanagawa") {
        Some(Color::Rgb(126, 156, 216))
    } else if same_chars(n, "kanagawa-lotus") || same_chars(n, "lotus") {
        Some(Color::Rgb(77, 105, 155))
    } else if same_chars(n, "rose-pine") || same_chars(n, "rosepine") {
        Some(Color::Rgb(196, 167, 231))
    } else if same_chars(n, "rose-pine-dawn") || same_chars(n, "rosepine-dawn") || same_chars(
        n,
        "dawn",
    ) {
        Some(Color::Rgb(144, 122, 169))
    } else if same_chars(n, "vesper") {
        Some(Color::Rgb(255, 199, 153))
    } else {
        None
    }
}

/// What `str::to_lowercase` gives for a text: its Unicode lowercase form,
/// left unspelled here.
pub uninterp spec fn unicode_lowercase(s: Seq<char>) -> Seq<char>;

/// Every character of `s` is ASCII.
pub open spec fn is_ascii_text(s: Seq<char>) -> bool {
    forall|i: int| 0 <= i < s.len() ==> (#[trigger] s[i] as u32) < 128
}

/// `s` with the ASCII capitals `A`..`Z` made `a`..`z`.
pub open spec fn ascii_lowered(s: Seq<char>) -> Seq<char> {
    s.map_values(|c: char| if 'A' <= c <= 'Z' { ((c as u32) + 32) as char } else { c })
}

/// A palette name as the host compares it, for an ASCII name: lowercased,
/// spaces and underscores written as dashes.
pub open spec fn normalized_name(s: Seq<char>) -> Seq<char> {
    dashed(ascii_lowered(s))
}

/// `str::to_lowercase`: the Unicode lowercase form of the text (a
/// character may lower to several, and a final sigma lowers by its
/// context). Claimed: the result is a function of the text, and on ASCII
/// text, whose Unicode lowercase mapping takes `A`..`Z` to `a`..`z` and
/// keeps every other character, it is that mapping.
#[verifier::external_body]
fn lowercase(s: &str) -> (r: String)
    ensures
        r@ == unicode_lowercase(s@),
        is_ascii_text(s@) ==> r@ == ascii_lowered(s@),
{
    s.to_lowercase()
}

/// The accent of the built-in palette called `name`, matched the way the
/// host matches palette names: lowercased, with spaces and underscores
/// counted as dashes.
pub fn builtin_accent(name: &str) -> (r: Option<Color>)
    ensures
        r == palette_accent(dashed(unicode_lowercase(name@))),
        is_ascii_text(name@) ==> r == palette_accent(normalized_name(name@)),
{
    let lowered = lowercase(name);
    accent_of_lowered_name(lowered.as_str())
}

/// Normalizing an ASCII palette name twice changes nothing, and the result
/// is ASCII again; so [`builtin_accent`] gives a name and its normalized
/// form (`Tokyo Night` and `tokyo-night`) the same accent.
pub proof fn law_normalizing_a_name_twice_changes_nothing(name: Seq<char>)
    requires
        is_ascii_text(name),
    ensures
        is_ascii_text(normalized_name(name)),
        normalized_name(normalized_name(name)) == normalized_name(name),
        palette_accent(normalized_name(normalized_name(name))) == palette_accent(
            normalized_name(name),
        ),
{
    let n = normalized_name(name);
    assert forall|i: int| 0 <= i < n.len() implies (#[trigger] n[i] as u32) < 128 by {
        assert(name[i] as u32 <= 127);
    }
    assert(normalized_name(n) =~= n);
}

/// The text of an optional string slice.
pub open spec fn opt_str(s: Option<&str>) -> Option<Seq<char>> {
    match s {
        Some(x) => Some(x@),
        None => None,
    }
}

/// The accent a `[theme]` section gives: a custom accent that parses as a
/// color wins; otherwise the palette named by `name`, else by `dark_name`
/// (the picker cannot see the host's light/dark appearance), else the
/// host's default, `catppuccin`.
pub open spec fn theme_accent(
    custom: Option<Seq<char>>,
    name: Option<Seq<char>>,
    dark_name: Option<Seq<char>>,
) -> Option<Color> {
    let by_name = palette_accent(
        dashed(
            unicode_lowercase(
                match name {
                    Some(n) => n,
                    None => match dark_name {
                        Some(d) => d,
                        None => "catppuccin"@,
                    },
                },
            ),
        ),
    );
    match custom {
        Some(c) => match color_of(c) {
            Some(color) => Some(color),
            None => by_name,
        },
        None => by_name,
    }
}

/// A custom accent that parses as a color wins over any palette name.
pub proof fn law_custom_accent_wins(
    custom: Seq<char>,
    name: Option<Seq<char>>,
    dark_name: Option<Seq<char>>,
)
    requires
        color_of(custom) is Some,
    ensures
        theme_accent(Some(custom), name, dark_name) == color_of(custom),
{
}

/// The accent of a `[theme]` section with the given `custom.accent`,
/// `name` and `dark_name` entries.
pub fn accent_from_theme(custom: Option<&str>, name: Option<&str>, dark_name: Option<&str>) -> (r:
    Option<Color>)
    ensures
        r == theme_accent(opt_str(custom), opt_str(name), opt_str(dark_name)),
{
    if let Some(c) = custom {
        if let Some(color) = parse_color(c) {
            return Some(color);
        }
    }
    let chosen = match name {
        Some(n) => n,
        None => match dark_name {
            Some(d) => d,
            None => "catppuccin",
        },
    };
    builtin_accent(chosen)
}


/// A TOML value of the `toml` crate, carried through opaquely.
#[verifier::external_type_specification]
#[verifier::external_body]
pub struct ExTomlValue(toml::Value);

/// The string leaves of a TOML value: each string reachable through
/// tables, keyed by its path of table keys (the empty path for a value that
/// is itself a string). Arrays and other scalars contribute nothing.
pub uninterp spec fn toml_strings(v: toml::Value) -> Map<Seq<Seq<char>>, Seq<char>>;

/// The string leaves of the document `toml` parses from a text, or `None`
/// when it does not accept the text.
pub uninterp spec fn toml_document_strings(text: Seq<char>) -> Option<Map<Seq<Seq<char>>, Seq<char>>>;

/// The string at `path` of a map of string leaves, if there is one.
pub open spec fn leaf(m: Map<Seq<Seq<char>>, Seq<char>>, path: Seq<Seq<char>>) -> Option<Seq<char>> {
    if m.contains_key(path) {
        Some(m[path])
    } else {
        None
    }
}

/// `str::parse::<toml::Value>`, which the `toml` crate implements with
/// `toml::from_str`: the whole document as a value. Claimed: it succeeds
/// exactly when the text is one `toml` accepts, and the value's string
/// leaves are those of that document.
#[verifier::external_body]
fn parse_toml(text: &str) -> (r: Option<toml::Value>)
    ensures
        r is Some <==> toml_document_strings(text@) is Some,
        r matches Some(v) ==> toml_document_strings(text@) == Some(toml_strings(v)),
{
    text.parse::<toml::Value>().ok()
}

/// `toml::Value::get` with a string key, which yields the entry under
/// `key` when the value is a table holding it and `None` otherwise.
/// Claimed: the entry's string leaves are those of the value under `key`;
/// with no entry, the value has no string leaf under `key`.
#[verifier::external_body]
fn toml_get<'a>(value: &'a toml::Value, key: &str) -> (r: Option<&'a toml::Value>)
    ensures
        match r {
            Some(c) => forall|p: Seq<Seq<char>>| #[trigger]
                leaf(toml_strings(*c), p) == leaf(toml_strings(*value), seq![key@] + p),
            None => forall|p: Seq<Seq<char>>| #[trigger]
                leaf(toml_strings(*value), seq![key@] + p) is None,
        },
{
    value.get(key)
}

/// `toml::Value::as_str`, which yields the text of a string value and
/// `None` for any other value. Claimed: the text is the value's leaf at the
/// empty path, and there is no such leaf when `None` comes back.
#[verifier::external_body]
fn toml_as_str<'a>(value: &'a toml::Value) -> (r: Option<&'a str>)
    ensures
        opt_str(r) == leaf(toml_strings(*value), Seq::empty()),
{
    value.as_str()
}

/// The string at `key` of an optional table.
fn string_entry<'a>(table: Option<&'a toml::Value>, key: &str) -> (r: Option<&'a str>)
    ensures
        match table {
            Some(t) => opt_str(r) == leaf(toml_strings(*t), seq![key@]),
            None => r is None,
        },
{
    match table {
        Some(t) => match toml_get(t, key) {
            Some(v) => {
                let s = toml_as_str(v);
                assert(seq![key@] + Seq::<Seq<char>>::empty() =~= seq![key@]);
                assert(leaf(toml_strings(*v), Seq::empty()) == leaf(toml_strings(*t), seq![key@] + Seq::<Seq<char>>::empty()));
                s
            },
            None => {
                assert(seq![key@] + Seq::<Seq<char>>::empty() =~= seq![key@]);
                assert(leaf(toml_strings(*t), seq![key@] + Seq::<Seq<char>>::empty()) is None);
                None
            },
        },
        None => None,
    }
}

/// The host accent a `config.toml` text gives: `None` when the text is not
/// TOML; otherwise the accent of its `[theme]` section (see
/// [`accent_from_theme`]), read from the strings at `theme.custom.accent`,
/// `theme.name` and `theme.dark_name`.
pub fn accent_from_config(config_toml: &str) -> (r: Option<Color>)
    ensures
        match toml_document_strings(config_toml@) {
            None => r is None,
            Some(doc) => r == theme_accent(
                leaf(doc, seq!["theme"@, "custom"@, "accent"@]),
                leaf(doc, seq!["theme"@, "name"@]),
                leaf(doc, seq!["theme"@, "dark_name"@]),
            ),
        },
{
    let doc = match parse_toml(config_toml) {
        Some(d) => d,
        None => return None,
    };
    let ghost strings = toml_strings(doc);
    let theme = toml_get(&doc, "theme");
    let custom = match theme {
        Some(t) => {
            let c = toml_get(t, "custom");
            let a = string_entry(c, "accent");
            proof {
                let p = seq!["custom"@, "accent"@];
                assert(leaf(toml_strings(*t), p) == leaf(strings, seq!["theme"@] + p));
                assert(seq!["theme"@] + p =~= seq!["theme"@, "custom"@, "accent"@]);
                match c {
                    Some(cv) => {
                        assert(leaf(toml_strings(*cv), seq!["accent"@]) == leaf(toml_strings(*t), seq!["custom"@] + seq!["accent"@]));
                        assert(seq!["custom"@] + seq!["accent"@] =~= p);
                    },
                    None => {
                        assert(leaf(toml_strings(*t), seq!["custom"@] + seq!["accent"@]) is None);
                        assert(seq!["custom"@] + seq!["accent"@] =~= p);
                    },
                }
            }
            a
        },
        None => {
            proof {
                let p = seq!["custom"@, "accent"@];
                assert(leaf(strings, seq!["theme"@] + p) is None);
                assert(seq!["theme"@] + p =~= seq!["theme"@, "custom"@, "accent"@]);
            }
            None
        },
    };
    let name = string_entry(theme, "name");
    let dark_name = string_entry(theme, "dark_name");
    proof {
        match theme {
            Some(t) => {
                assert(leaf(toml_strings(*t), seq!["name"@]) == leaf(strings, seq!["theme"@] + seq!["name"@]));
                assert(seq!["theme"@] + seq!["name"@] =~= seq!["theme"@, "name"@]);
                assert(leaf(toml_strings(*t), seq!["dark_name"@]) == leaf(strings, seq!["theme"@] + seq!["dark_name"@]));
                assert(seq!["theme"@] + seq!["dark_name"@] =~= seq!["theme"@, "dark_name"@]);
            },
            None => {
                assert(leaf(strings, seq!["theme"@] + seq!["name"@]) is None);
                assert(seq!["theme"@] + seq!["name"@] =~= seq!["theme"@, "name"@]);
                assert(leaf(strings, seq!["theme"@] + seq!["dark_name"@]) is None);
                assert(seq!["theme"@] + seq!["dark_name"@] =~= seq!["theme"@, "dark_name"@]);
            },
        }
    }
    accent_from_theme(custom, name, dark_name)
}

} // verus!
