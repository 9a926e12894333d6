//! Color specifications: parsing (`#RRGGBB`, ANSI names, 256-color indices,
//! `$alias`, Zellij palette names) and resolution of Zellij palette names
//! against the current theme.
use vstd::prelude::*;
use vstd::utf8::encode_utf8;

use crate::numbers::{hex_groups_cut_character, hex_groups_split_char, hex_to_rgb, hex_triple, parse_u8_chars, parse_u8_decimal};
use crate::palette::{default_styling, MultiplayerColors, PaletteColor, StyleDeclaration, Styling, ZellijState};
use crate::text::{chars_between, chars_of, equals_str, has_prefix, push_char, split_once, split_once_chars, starts_with};
use crate::text_map::TextMap;

verus! {

/// The sixteen named terminal colors, in the order of their indices 0..=15.
#[derive(Clone, Copy, Debug, PartialEq, Eq, Structural)]
pub enum AnsiColor {
    Black,
    Red,
    Green,
    Yellow,
    Blue,
    Magenta,
    Cyan,
    White,
    BrightBlack,
    BrightRed,
    BrightGreen,
    BrightYellow,
    BrightBlue,
    BrightMagenta,
    BrightCyan,
    BrightWhite,
}

/// A terminal color: named, a 256-color index, or true color.
#[derive(Clone, Copy, Debug, PartialEq, Eq, Structural)]
pub enum Color {
    Ansi(AnsiColor),
    Ansi256(u8),
    Rgb(u8, u8, u8),
}

/// A color as written in a format string: fixed when parsed, or a Zellij
/// palette name (`text_selected.base`, `player_1`) resolved when rendering.
#[derive(Clone, Debug, PartialEq)]
pub enum ColorSource {
    Static(Color),
    Zellij(String),
}

/// The mathematical value of a [`ColorSource`].
pub enum ColorSourceView {
    Static(Color),
    Zellij(Seq<char>),
}

impl View for ColorSource {
    type V = ColorSourceView;

    open spec fn view(&self) -> ColorSourceView {
        match self {
            ColorSource::Static(c) => ColorSourceView::Static(*c),
            ColorSource::Zellij(s) => ColorSourceView::Zellij(s@),
        }
    }
}

/// The value of an optional color source.
pub open spec fn source_view(o: Option<ColorSource>) -> Option<ColorSourceView> {
    match o {
        Some(s) => Some(s@),
        None => None,
    }
}

/// The named ANSI color that a name denotes (`"default"` denotes none).
pub open spec fn ansi_color_named(c: Seq<char>) -> Option<AnsiColor> {
    if c == "black"@ {
        Some(AnsiColor::Black)
    } else if c == "red"@ {
        Some(AnsiColor::Red)
    } else if c == "green"@ {
        Some(AnsiColor::Green)
    } else if c == "yellow"@ {
        Some(AnsiColor::Yellow)
    } else if c == "blue"@ {
        Some(AnsiColor::Blue)
    } else if c == "magenta"@ {
        Some(AnsiColor::Magenta)
    } else if c == "cyan"@ {
        Some(AnsiColor::Cyan)
    } else if c == "white"@ {
        Some(AnsiColor::White)
    } else if c == "bright_black"@ {
        Some(AnsiColor::BrightBlack)
    } else if c == "bright_red"@ {
        Some(AnsiColor::BrightRed)
    } else if c == "bright_green"@ {
        Some(AnsiColor::BrightGreen)
    } else if c == "bright_yellow"@ {
        Some(AnsiColor::BrightYellow)
    } else if c == "bright_blue"@ {
        Some(AnsiColor::BrightBlue)
    } else if c == "bright_magenta"@ {
        Some(AnsiColor::BrightMagenta)
    } else if c == "bright_cyan"@ {
        Some(AnsiColor::BrightCyan)
    } else if c == "bright_white"@ {
        Some(AnsiColor::BrightWhite)
    } else {
        None
    }
}

fn color_by_name_chars(v: &[char]) -> (r: Option<AnsiColor>)
    ensures
        r == ansi_color_named(v@),
{
    if equals_str(v, "black") {
        Some(AnsiColor::Black)
    } else if equals_str(v, "red") {
        Some(AnsiColor::Red)
    } else if equals_str(v, "green") {
        Some(AnsiColor::Green)
    } else if equals_str(v, "yellow") {
        Some(AnsiColor::Yellow)
    } else if equals_str(v, "blue") {
        Some(AnsiColor::Blue)
    } else if equals_str(v, "magenta") {
        Some(AnsiColor::Magenta)
    } else if equals_str(v, "cyan") {
        Some(AnsiColor::Cyan)
    } else if equals_str(v, "white") {
        Some(AnsiColor::White)
    } else if equals_str(v, "bright_black") {
        Some(AnsiColor::BrightBlack)
    } else if equals_str(v, "bright_red") {
        Some(AnsiColor::BrightRed)
    } else if equals_str(v, "bright_green") {
        Some(AnsiColor::BrightGreen)
    } else if equals_str(v, "bright_yellow") {
        Some(AnsiColor::BrightYellow)
    } else if equals_str(v, "bright_blue") {
        Some(AnsiColor::BrightBlue)
    } else if equals_str(v, "bright_magenta") {
        Some(AnsiColor::BrightMagenta)
    } else if equals_str(v, "bright_cyan") {
        Some(AnsiColor::BrightCyan)
    } else if equals_str(v, "bright_white") {
        Some(AnsiColor::BrightWhite)
    } else {
        None
    }
}

/// The named ANSI color called `color`, if any.
pub fn color_by_name(color: &str) -> (r: Option<AnsiColor>)
    ensures
        r == ansi_color_named(color@),
{
    let v = chars_of(color);
    color_by_name_chars(v.as_slice())
}

/// `player_N` with `N` in `1..=10` (as `str::parse::<u8>` reads `N`).
pub open spec fn player_index(name: Seq<char>) -> Option<u8> {
    if has_prefix(name, "player_"@) {
        match parse_u8_decimal(name.skip("player_"@.len() as int)) {
            Some(n) => if 1 <= n <= 10 {
                Some(n)
            } else {
                None
            },
            None => None,
        }
    } else {
        None
    }
}

fn parse_player_index_chars(v: &[char]) -> (r: Option<u8>)
    ensures
        r == player_index(v@),
{
    let prefix = chars_of("player_");
    if !starts_with(v, prefix.as_slice()) {
        return None;
    }
    let rest = chars_between(v, prefix.len(), v.len());
    assert(rest@ == v@.skip(prefix@.len() as int));
    match parse_u8_chars(rest.as_slice()) {
        Some(n) => if 1 <= n && n <= 10 {
            Some(n)
        } else {
            None
        },
        None => None,
    }
}

/// Parses `player_N` into `N` when `N` is a Zellij player index (1..=10).
pub fn parse_player_index(name: &str) -> (r: Option<u8>)
    ensures
        r == player_index(name@),
        r matches Some(n) ==> 1 <= n <= 10,
{
    let v = chars_of(name);
    parse_player_index_chars(v.as_slice())
}

/// The declaration of a Zellij style category: `Some(Some(d))` when the
/// category is known and present, `Some(None)` for an absent
/// `frame_unselected`, `None` for an unknown category.
pub open spec fn category_declaration(styling: Styling, category: Seq<char>) -> Option<
    Option<StyleDeclaration>,
> {
    if category == "text_unselected"@ {
        Some(Some(styling.text_unselected))
    } else if category == "text_selected"@ {
        Some(Some(styling.text_selected))
    } else if category == "ribbon_unselected"@ {
        Some(Some(styling.ribbon_unselected))
    } else if category == "ribbon_selected"@ {
        Some(Some(styling.ribbon_selected))
    } else if category == "table_title"@ {
        Some(Some(styling.table_title))
    } else if category == "table_cell_unselected"@ {
        Some(Some(styling.table_cell_unselected))
    } else if category == "table_cell_selected"@ {
        Some(Some(styling.table_cell_selected))
    } else if category == "list_unselected"@ {
        Some(Some(styling.list_unselected))
    } else if category == "list_selected"@ {
        Some(Some(styling.list_selected))
    } else if category == "frame_unselected"@ {
        Some(styling.frame_unselected)
    } else if category == "frame_selected"@ {
        Some(Some(styling.frame_selected))
    } else if category == "frame_highlight"@ {
        Some(Some(styling.frame_highlight))
    } else if category == "exit_code_success"@ {
        Some(Some(styling.exit_code_success))
    } else if category == "exit_code_error"@ {
        Some(Some(styling.exit_code_error))
    } else {
        None
    }
}

/// `r` holds references to what `category_declaration` gives.
pub open spec fn declaration_ref_matches(
    r: Option<Option<&StyleDeclaration>>,
    d: Option<Option<StyleDeclaration>>,
) -> bool {
    match r {
        None => d is None,
        Some(None) => d == Some(None::<StyleDeclaration>),
        Some(Some(x)) => d == Some(Some(*x)),
    }
}

fn category_declaration_chars<'a>(styling: &'a Styling, v: &[char]) -> (r: Option<
    Option<&'a StyleDeclaration>,
>)
    ensures
        declaration_ref_matches(r, category_declaration(*styling, v@)),
{
    Some(
        Some(
            if equals_str(v, "text_unselected") {
                &styling.text_unselected
            } else if equals_str(v, "text_selected") {
                &styling.text_selected
            } else if equals_str(v, "ribbon_unselected") {
                &styling.ribbon_unselected
            } else if equals_str(v, "ribbon_selected") {
                &styling.ribbon_selected
            } else if equals_str(v, "table_title") {
                &styling.table_title
            } else if equals_str(v, "table_cell_unselected") {
                &styling.table_cell_unselected
            } else if equals_str(v, "table_cell_selected") {
                &styling.table_cell_selected
            } else if equals_str(v, "list_unselected") {
                &styling.list_unselected
            } else if equals_str(v, "list_selected") {
                &styling.list_selected
            } else if equals_str(v, "frame_unselected") {
                return Some(styling.frame_unselected.as_ref());
            } else if equals_str(v, "frame_selected") {
                &styling.frame_selected
            } else if equals_str(v, "frame_highlight") {
                &styling.frame_highlight
            } else if equals_str(v, "exit_code_success") {
                &styling.exit_code_success
            } else if equals_str(v, "exit_code_error") {
                &styling.exit_code_error
            } else {
                return None;
            },
        ),
    )
}

/// Looks up the declaration of a Zellij style category (see
/// [`category_declaration`] for the three outcomes).
pub fn style_declaration_for_category<'a>(styling: &'a Styling, category: &str) -> (r: Option<
    Option<&'a StyleDeclaration>,
>)
    ensures
        declaration_ref_matches(r, category_declaration(*styling, category@)),
{
    let v = chars_of(category);
    category_declaration_chars(styling, v.as_slice())
}

/// The color of a declaration that a field name selects.
pub open spec fn declaration_field(style: StyleDeclaration, field: Seq<char>) -> Option<
    PaletteColor,
> {
    if field == "base"@ {
        Some(style.base)
    } else if field == "background"@ {
        Some(style.background)
    } else if field == "emphasis_0"@ {
        Some(style.emphasis_0)
    } else if field == "emphasis_1"@ {
        Some(style.emphasis_1)
    } else if field == "emphasis_2"@ {
        Some(style.emphasis_2)
    } else if field == "emphasis_3"@ {
        Some(style.emphasis_3)
    } else {
        None
    }
}

/// The six field names of a style declaration.
pub open spec fn is_style_field(field: Seq<char>) -> bool {
    ||| field == "base"@
    ||| field == "background"@
    ||| field == "emphasis_0"@
    ||| field == "emphasis_1"@
    ||| field == "emphasis_2"@
    ||| field == "emphasis_3"@
}

fn style_field_chars(style: &StyleDeclaration, v: &[char]) -> (r: Option<PaletteColor>)
    ensures
        r == declaration_field(*style, v@),
{
    if equals_str(v, "base") {
        Some(style.base)
    } else if equals_str(v, "background") {
        Some(style.background)
    } else if equals_str(v, "emphasis_0") {
        Some(style.emphasis_0)
    } else if equals_str(v, "emphasis_1") {
        Some(style.emphasis_1)
    } else if equals_str(v, "emphasis_2") {
        Some(style.emphasis_2)
    } else if equals_str(v, "emphasis_3") {
        Some(style.emphasis_3)
    } else {
        None
    }
}

/// Extracts a named field from a style declaration.
pub fn get_style_field(style: &StyleDeclaration, field: &str) -> (r: Option<PaletteColor>)
    ensures
        r == declaration_field(*style, field@),
{
    let v = chars_of(field);
    style_field_chars(style, v.as_slice())
}

/// Zellij's palette naming patterns: `category.field` or `player_N`.
pub open spec fn is_zellij_name(name: Seq<char>) -> bool {
    ||| player_index(name) is Some
    ||| match split_once(name, '.') {
        Some((category, field)) => category_declaration(default_styling(), category) is Some
            && is_style_field(field),
        None => false,
    }
}

fn is_zellij_color_name_chars(v: &[char]) -> (b: bool)
    ensures
        b == is_zellij_name(v@),
{
    if parse_player_index_chars(v).is_some() {
        return true;
    }
    match split_once_chars(v, '.') {
        None => false,
        Some((category, field)) => {
            let styling = Styling::default();
            let decl = category_declaration_chars(&styling, category.as_slice());
            decl.is_some() && (equals_str(field.as_slice(), "base") || equals_str(
                field.as_slice(),
                "background",
            ) || equals_str(field.as_slice(), "emphasis_0") || equals_str(
                field.as_slice(),
                "emphasis_1",
            ) || equals_str(field.as_slice(), "emphasis_2") || equals_str(
                field.as_slice(),
                "emphasis_3",
            ))
        },
    }
}

/// Whether `name` follows Zellij's palette naming: `category.field` for
/// a style declaration color, or `player_N` for a multiplayer color.
pub fn is_zellij_color_name(name: &str) -> (b: bool)
    ensures
        b == is_zellij_name(name@),
{
    let v = chars_of(name);
    is_zellij_color_name_chars(v.as_slice())
}

/// The terminal color of a palette entry.
pub open spec fn palette_to_color(p: PaletteColor) -> Color {
    match p {
        PaletteColor::Rgb((r, g, b)) => Color::Rgb(r, g, b),
        PaletteColor::EightBit(n) => Color::Ansi256(n),
    }
}

/// Converts a palette entry into the terminal color it is rendered with.
pub fn palette_color_to_anstyle(palette_color: PaletteColor) -> (c: Color)
    ensures
        c == palette_to_color(palette_color),
{
    match palette_color {
        PaletteColor::Rgb((r, g, b)) => Color::Rgb(r, g, b),
        PaletteColor::EightBit(n) => Color::Ansi256(n),
    }
}

/// The multiplayer color of player `n`.
pub open spec fn player_color(m: MultiplayerColors, n: u8) -> Option<PaletteColor> {
    if n == 1 {
        Some(m.player_1)
    } else if n == 2 {
        Some(m.player_2)
    } else if n == 3 {
        Some(m.player_3)
    } else if n == 4 {
        Some(m.player_4)
    } else if n == 5 {
        Some(m.player_5)
    } else if n == 6 {
        Some(m.player_6)
    } else if n == 7 {
        Some(m.player_7)
    } else if n == 8 {
        Some(m.player_8)
    } else if n == 9 {
        Some(m.player_9)
    } else if n == 10 {
        Some(m.player_10)
    } else {
        None
    }
}

/// The color a Zellij palette name stands for in `styling`.
pub open spec fn zellij_color(name: Seq<char>, styling: Styling) -> Option<Color> {
    match player_index(name) {
        Some(n) => match player_color(styling.multiplayer_user_colors, n) {
            Some(p) => Some(palette_to_color(p)),
            None => None,
        },
        None => match split_once(name, '.') {
            Some((category, field)) => match category_declaration(styling, category) {
                Some(Some(decl)) => match declaration_field(decl, field) {
                    Some(p) => Some(palette_to_color(p)),
                    None => None,
                },
                _ => None,
            },
            None => None,
        },
    }
}

/// Resolves a Zellij color name against the current palette; `None` when
/// the name is unknown or names an absent declaration.
pub fn resolve_zellij_color(name: &str, styling: &Styling) -> (r: Option<Color>)
    ensures
        r == zellij_color(name@, *styling),
{
    let v = chars_of(name);
    if let Some(n) = parse_player_index_chars(v.as_slice()) {
        let m = &styling.multiplayer_user_colors;
        let palette_color = if n == 1 {
            m.player_1
        } else if n == 2 {
            m.player_2
        } else if n == 3 {
            m.player_3
        } else if n == 4 {
            m.player_4
        } else if n == 5 {
            m.player_5
        } else if n == 6 {
            m.player_6
        } else if n == 7 {
            m.player_7
        } else if n == 8 {
            m.player_8
        } else if n == 9 {
            m.player_9
        } else if n == 10 {
            m.player_10
        } else {
            return None;
        };
        return Some(palette_color_to_anstyle(palette_color));
    }
    let (category, field) = match split_once_chars(v.as_slice(), '.') {
        Some(p) => p,
        None => return None,
    };
    let style_decl = match category_declaration_chars(styling, category.as_slice()) {
        Some(Some(d)) => d,
        _ => return None,
    };
    let palette_color = match style_field_chars(style_decl, field.as_slice()) {
        Some(p) => p,
        None => return None,
    };
    Some(palette_color_to_anstyle(palette_color))
}

/// The color a source stands for in a given theme.
pub open spec fn source_color(source: ColorSourceView, styling: Styling) -> Option<Color> {
    match source {
        ColorSourceView::Static(c) => Some(c),
        ColorSourceView::Zellij(name) => zellij_color(name, styling),
    }
}

/// Resolves a color source to a color when rendering.
pub fn resolve_color_source(source: &ColorSource, state: &ZellijState) -> (r: Option<Color>)
    ensures
        r == source_color(source@, state.colors),
{
    match source {
        ColorSource::Static(color) => Some(*color),
        ColorSource::Zellij(name) => resolve_zellij_color(name.as_str(), &state.colors),
    }
}

/// The color a specification denotes by itself (no alias lookup):
/// a Zellij name, `#RRGGBB`, an ANSI name, or a 256-color index with an
/// optional `colour` prefix.
pub open spec fn direct_color(c: Seq<char>) -> Option<ColorSourceView> {
    if is_zellij_name(c) {
        Some(ColorSourceView::Zellij(c))
    } else if c.len() > 0 && c[0] == '#' {
        match hex_triple(encode_utf8(c.drop_first())) {
            Ok(rgb) => if rgb.len() == 3 {
                Some(ColorSourceView::Static(Color::Rgb(rgb[0], rgb[1], rgb[2])))
            } else {
                None
            },
            Err(_) => None,
        }
    } else if ansi_color_named(c) is Some {
        Some(ColorSourceView::Static(Color::Ansi(ansi_color_named(c)->0)))
    } else {
        let digits = if has_prefix(c, "colour"@) {
            c.skip("colour"@.len() as int)
        } else {
            c
        };
        match parse_u8_decimal(digits) {
            Some(n) => Some(ColorSourceView::Static(Color::Ansi256(n))),
            None => None,
        }
    }
}

/// The configuration key under which `$name` is looked up.
pub open spec fn alias_key(c: Seq<char>) -> Seq<char> {
    "color_"@ + c.drop_first()
}

/// The color a specification denotes: `$name` is replaced by the
/// configured `color_name` once (an alias of an alias denotes nothing).
pub open spec fn color_spec(c: Seq<char>, config: Map<Seq<char>, String>) -> Option<ColorSourceView> {
    if c.len() > 0 && c[0] == '$' {
        if config.contains_key(alias_key(c)) {
            let value = config[alias_key(c)]@;
            if value.len() > 0 && value[0] == '$' {
                None
            } else {
                direct_color(value)
            }
        } else {
            None
        }
    } else {
        direct_color(c)
    }
}

/// Parsing `c` by itself would cut a character while reading its hex groups.
pub open spec fn direct_color_splits_char(c: Seq<char>) -> bool {
    &&& !is_zellij_name(c)
    &&& c.len() > 0
    &&& c[0] == '#'
    &&& hex_groups_split_char(encode_utf8(c.drop_first()))
}

/// Parsing `c` (through its alias, if any) would cut a character while
/// reading its hex groups.
pub open spec fn color_splits_char(c: Seq<char>, config: Map<Seq<char>, String>) -> bool {
    if c.len() > 0 && c[0] == '$' {
        &&& config.contains_key(alias_key(c))
        &&& !(config[alias_key(c)]@.len() > 0 && config[alias_key(c)]@[0] == '$')
        &&& direct_color_splits_char(config[alias_key(c)]@)
    } else {
        direct_color_splits_char(c)
    }
}

fn direct_color_cuts_character(color: &str, v: &[char]) -> (b: bool)
    requires
        v@ == color@,
    ensures
        b == direct_color_splits_char(color@),
{
    if is_zellij_color_name_chars(v) || !(v.len() > 0 && v[0] == '#') {
        return false;
    }
    let rest = color.substring_char(1, v.len());
    assert(rest@ == color@.drop_first());
    hex_groups_cut_character(rest)
}

/// Whether parsing `color` would cut a character while reading hex groups
/// (see [`color_splits_char`]); [`parse_color`] needs this to be false.
pub fn color_cuts_character(color: &str, config: &TextMap<String>) -> (b: bool)
    ensures
        b == color_splits_char(color@, config.view()),
{
    let v = chars_of(color);
    if v.len() > 0 && v[0] == '$' {
        let mut key = "color_".to_owned();
        let ghost base = key@;
        let mut i: usize = 1;
        while i < v.len()
            invariant
                1 <= i <= v@.len(),
                key@ == base + v@.subrange(1, i as int),
            decreases v@.len() - i,
        {
            push_char(&mut key, v[i]);
            i += 1;
            assert(key@ == base + v@.subrange(1, i as int));
        }
        assert(v@.subrange(1, v@.len() as int) == v@.drop_first());
        return match config.get(key.as_str()) {
            Some(value) => {
                let w = chars_of(value.as_str());
                !(w.len() > 0 && w[0] == '$') && direct_color_cuts_character(value.as_str(), w.as_slice())
            },
            None => false,
        };
    }
    direct_color_cuts_character(color, v.as_slice())
}

fn direct_color_exec(color: &str, v: &[char]) -> (r: Option<ColorSource>)
    requires
        v@ == color@,
        !direct_color_splits_char(color@),
    ensures
        source_view(r) == direct_color(color@),
{
    if is_zellij_color_name_chars(v) {
        return Some(ColorSource::Zellij(color.to_owned()));
    }
    if v.len() > 0 && v[0] == '#' {
        let rest = color.substring_char(1, v.len());
        assert(rest@ == color@.drop_first());
        let rgb = match hex_to_rgb(rest) {
            Ok(rgb) => rgb,
            Err(_) => return None,
        };
        if rgb.len() != 3 {
            return None;
        }
        return Some(ColorSource::Static(Color::Rgb(rgb[0], rgb[1], rgb[2])));
    }
    if let Some(ansi_color) = color_by_name_chars(v) {
        return Some(ColorSource::Static(Color::Ansi(ansi_color)));
    }
    let prefix = chars_of("colour");
    let digits = if starts_with(v, prefix.as_slice()) {
        chars_between(v, prefix.len(), v.len())
    } else {
        chars_between(v, 0, v.len())
    };
    assert(v@.subrange(0, v@.len() as int) == v@);
    assert(has_prefix(v@, prefix@) ==> v@.subrange(prefix@.len() as int, v@.len() as int) == v@.skip(
        prefix@.len() as int,
    ));
    match parse_u8_chars(digits.as_slice()) {
        Some(n) => Some(ColorSource::Static(Color::Ansi256(n))),
        None => None,
    }
}

/// Parses a color specification. `$name` is resolved through the
/// configuration's `color_name` entry, one level deep; Zellij palette names
/// stay symbolic so they can follow theme changes.
pub fn parse_color(color: &str, config: &TextMap<String>) -> (r: Option<ColorSource>)
    requires
        !color_splits_char(color@, config.view()),
    ensures
        source_view(r) == color_spec(color@, config.view()),
    decreases config.size(),
{
    let v = chars_of(color);
    if v.len() > 0 && v[0] == '$' {
        let mut key = "color_".to_owned();
        let ghost base = key@;
        let mut i: usize = 1;
        while i < v.len()
            invariant
                1 <= i <= v@.len(),
                key@ == base + v@.subrange(1, i as int),
            decreases v@.len() - i,
        {
            push_char(&mut key, v[i]);
            i += 1;
            assert(key@ == base + v@.subrange(1, i as int));
        }
        assert(v@.subrange(1, v@.len() as int) == v@.drop_first());
        let alias_value = match config.get(key.as_str()) {
            Some(value) => value,
            None => return None,
        };
        let empty: TextMap<String> = TextMap::new();
        return parse_color(alias_value.as_str(), &empty);
    }
    direct_color_exec(color, v.as_slice())
}

} // verus!
