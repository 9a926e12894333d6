use std::cell::Cell;

use zjstatus::color::{
    color_by_name, color_cuts_character, get_style_field, parse_color, parse_player_index,
    resolve_color_source, resolve_zellij_color, style_declaration_for_category, AnsiColor, Color,
    ColorSource,
};
use zjstatus::mask::{
    cache_mask_from_content, event_mask_from_widget_name, widget_key_and_name, EVENT_ALWAYS,
    EVENT_COMMAND, EVENT_MODE, EVENT_NONE, EVENT_TAB,
};
use zjstatus::numbers::{hex_groups_cut_character, hex_to_rgb, parse_u8_chars, HexColorError};
use zjstatus::palette::{PaletteColor, StyleDeclaration, Styling, ZellijState};
use zjstatus::part::{
    format_cuts_character, format_string_cuts_character, FormattedPart, Widget,
};
use zjstatus::text_map::TextMap;

fn config_with(entries: &[(&str, &str)]) -> TextMap<String> {
    let mut config = TextMap::new();
    for (k, v) in entries {
        config.insert(k.to_string(), v.to_string());
    }
    config
}

fn state(mask: u8) -> ZellijState {
    ZellijState {
        cache_mask: mask,
        colors: Styling::default(),
    }
}

struct Echo {
    calls: Cell<usize>,
}

impl Widget for Echo {
    fn process(&self, name: &str, _state: &ZellijState) -> String {
        self.calls.set(self.calls.get() + 1);
        format!("<{}:{}>", name, self.calls.get())
    }
}

fn echo() -> Echo {
    Echo {
        calls: Cell::new(0),
    }
}

#[test]
fn hex_errors_and_signs() {
    assert_eq!(hex_to_rgb("010"), Err(HexColorError::WrongLength));
    assert_eq!(hex_to_rgb("01020g"), Err(HexColorError::InvalidDigit));
    assert_eq!(hex_to_rgb("FFfF00"), Ok(vec![255, 255, 0]));
    assert_eq!(hex_to_rgb("+f+f+f"), Ok(vec![15, 15, 15]));
    assert_eq!(hex_to_rgb("-f+f+f"), Err(HexColorError::InvalidDigit));
    // three two-byte characters: the first group is not a number
    assert_eq!(hex_to_rgb("ééé"), Err(HexColorError::InvalidDigit));
    assert!(!hex_groups_cut_character("ééé"));
    assert!(hex_groups_cut_character("aé123"));
    assert!(hex_groups_cut_character("12aé3"));
    assert!(!hex_groups_cut_character("1gaé3"));
    assert!(!hex_groups_cut_character("0102"));
}

#[test]
fn decimal_parsing_follows_str_parse() {
    let p = |s: &str| parse_u8_chars(&s.chars().collect::<Vec<char>>());
    assert_eq!(p("0"), Some(0));
    assert_eq!(p("255"), Some(255));
    assert_eq!(p("0000255"), Some(255));
    assert_eq!(p("256"), None);
    assert_eq!(p("+7"), Some(7));
    assert_eq!(p("+"), None);
    assert_eq!(p(""), None);
    assert_eq!(p("-1"), None);
    assert_eq!(p("12a"), None);
    assert_eq!(p("99999999999999999999"), None);
}

#[test]
fn named_and_indexed_colors() {
    let config: TextMap<String> = TextMap::new();
    assert_eq!(color_by_name("red"), Some(AnsiColor::Red));
    assert_eq!(color_by_name("bright_white"), Some(AnsiColor::BrightWhite));
    assert_eq!(color_by_name("default"), None);
    assert_eq!(
        parse_color("magenta", &config),
        Some(ColorSource::Static(Color::Ansi(AnsiColor::Magenta)))
    );
    assert_eq!(
        parse_color("colour42", &config),
        Some(ColorSource::Static(Color::Ansi256(42)))
    );
    assert_eq!(
        parse_color("+7", &config),
        Some(ColorSource::Static(Color::Ansi256(7)))
    );
    assert_eq!(parse_color("colour", &config), None);
    assert_eq!(parse_color("default", &config), None);
    assert_eq!(parse_color("", &config), None);
}

#[test]
fn aliases_resolve_one_level() {
    let config = config_with(&[
        ("color_a", "$b"),
        ("color_b", "red"),
        ("color_theme", "text_selected.base"),
    ]);
    assert_eq!(parse_color("$a", &config), None);
    assert_eq!(
        parse_color("$b", &config),
        Some(ColorSource::Static(Color::Ansi(AnsiColor::Red)))
    );
    assert_eq!(
        parse_color("$theme", &config),
        Some(ColorSource::Zellij("text_selected.base".to_owned()))
    );
    assert_eq!(parse_color("$", &config), None);
}

#[test]
fn palette_names_stay_symbolic_with_any_config() {
    let config = config_with(&[("color_player_1", "red"), ("player_1", "blue")]);
    assert_eq!(
        parse_color("player_1", &config),
        Some(ColorSource::Zellij("player_1".to_owned()))
    );
    assert_eq!(
        parse_color("exit_code_success.emphasis_2", &config),
        Some(ColorSource::Zellij("exit_code_success.emphasis_2".to_owned()))
    );
}

#[test]
fn accepted_palette_names_resolve() {
    let styling = Styling::default();
    for name in [
        "text_unselected.base",
        "table_cell_selected.emphasis_2",
        "list_selected.background",
        "frame_highlight.emphasis_0",
        "player_7",
    ] {
        assert!(resolve_zellij_color(name, &styling).is_some(), "{}", name);
    }
    assert_eq!(resolve_zellij_color("frame_unselected.emphasis_3", &styling), None);
    assert_eq!(
        resolve_zellij_color("player_1", &styling),
        Some(Color::Ansi256(201))
    );
}

#[test]
fn player_indices() {
    assert_eq!(parse_player_index("player_3"), Some(3));
    assert_eq!(parse_player_index("player_03"), Some(3));
    assert_eq!(parse_player_index("player_+3"), Some(3));
    assert_eq!(parse_player_index("player_"), None);
    assert_eq!(parse_player_index("player_256"), None);
    assert_eq!(parse_player_index("layer_3"), None);
}

#[test]
fn categories_and_fields() {
    let styling = Styling::default();
    assert!(style_declaration_for_category(&styling, "bogus").is_none());
    assert_eq!(
        style_declaration_for_category(&styling, "frame_unselected"),
        Some(None)
    );
    assert_eq!(
        style_declaration_for_category(&styling, "text_selected"),
        Some(Some(&styling.text_selected))
    );
    let decl = StyleDeclaration {
        emphasis_3: PaletteColor::Rgb((9, 8, 7)),
        ..StyleDeclaration::default()
    };
    assert_eq!(
        get_style_field(&decl, "emphasis_3"),
        Some(PaletteColor::Rgb((9, 8, 7)))
    );
    assert_eq!(get_style_field(&decl, "base"), Some(PaletteColor::EightBit(0)));
    assert_eq!(get_style_field(&decl, "Base"), None);
}

#[test]
fn color_sources_resolve() {
    let mut s = state(0);
    s.colors.text_selected.base = PaletteColor::Rgb((1, 1, 1));
    assert_eq!(
        resolve_color_source(&ColorSource::Static(Color::Ansi256(3)), &s),
        Some(Color::Ansi256(3))
    );
    assert_eq!(
        resolve_color_source(&ColorSource::Zellij("text_selected.base".to_owned()), &s),
        Some(Color::Rgb(1, 1, 1))
    );
}

#[test]
fn widget_masks() {
    assert_eq!(event_mask_from_widget_name("tabs"), EVENT_TAB);
    assert_eq!(event_mask_from_widget_name("swap_layout"), EVENT_TAB);
    assert_eq!(event_mask_from_widget_name("mode"), EVENT_MODE);
    assert_eq!(event_mask_from_widget_name("session"), EVENT_MODE);
    assert_eq!(event_mask_from_widget_name("command"), EVENT_ALWAYS);
    assert_eq!(event_mask_from_widget_name("datetime"), EVENT_ALWAYS);
    assert_eq!(event_mask_from_widget_name("notifications"), EVENT_ALWAYS);
    assert_eq!(event_mask_from_widget_name("pipe"), EVENT_ALWAYS);
    assert_eq!(event_mask_from_widget_name("unknown"), EVENT_NONE);
}

#[test]
fn placeholders_found_by_regex() {
    let config: TextMap<String> = TextMap::new();
    let widgets: TextMap<Echo> = TextMap::new();
    let mut p = FormattedPart::from_format_string("{mode} {tabs}{x}{Bad}{a_1}{}{{b}}", &config);
    assert_eq!(
        p.format_string_with_widgets(&widgets, &state(0)),
        "Use of uninitialized widget Use of uninitialized widgetUse of uninitialized widget{Bad}Use of uninitialized widget{}{Use of uninitialized widget}"
    );
    let mut p = FormattedPart::from_format_string("no widgets", &config);
    assert_eq!(p.format_string_with_widgets(&widgets, &state(0)), "no widgets");
    assert!(p.cache.is_empty());
    let (key, name) = widget_key_and_name("{command_git}");
    assert_eq!(key.iter().collect::<String>(), "command_git");
    assert_eq!(name.iter().collect::<String>(), "command");
    let (key, name) = widget_key_and_name("{pipe_x}");
    assert_eq!(key.iter().collect::<String>(), "pipe_x");
    assert_eq!(name.iter().collect::<String>(), "pipe");
}

#[test]
fn content_masks() {
    assert_eq!(cache_mask_from_content("plain text"), EVENT_NONE);
    assert_eq!(cache_mask_from_content("{mode} {swap_layout}"), EVENT_MODE | EVENT_TAB);
    assert_eq!(cache_mask_from_content("{command_git}"), EVENT_ALWAYS);
    assert_eq!(cache_mask_from_content("{pipe_status} {session}"), EVENT_ALWAYS | EVENT_MODE);
    assert_eq!(cache_mask_from_content("{unknown}"), EVENT_NONE);
}

#[test]
fn parse_directives_and_content() {
    let config = config_with(&[("color_bg", "#010203")]);
    let p = FormattedPart::from_format_string(
        "#[fg=red,bg=$bg,bold,italics,reverse,us=colour9]hello]world",
        &config,
    );
    assert_eq!(p.fg, Some(ColorSource::Static(Color::Ansi(AnsiColor::Red))));
    assert_eq!(p.bg, Some(ColorSource::Static(Color::Rgb(1, 2, 3))));
    assert_eq!(p.us, Some(ColorSource::Static(Color::Ansi256(9))));
    assert!(p.reverse);
    assert!(!p.bold);
    assert_eq!(
        p.effects,
        anstyle::Effects::BOLD | anstyle::Effects::ITALIC | anstyle::Effects::INVERT
    );
    assert_eq!(p.content, "hello]world");
    assert_eq!(p.cache_mask, EVENT_NONE);
    assert_eq!(p.cached_content, "");
    assert!(p.cache.is_empty());
}

#[test]
fn parse_without_directives() {
    let config: TextMap<String> = TextMap::new();
    let p = FormattedPart::from_format_string("just {mode} text", &config);
    assert_eq!(p.content, "just {mode} text");
    assert_eq!(p.fg, None);
    assert_eq!(p.effects, anstyle::Effects::new());
    assert_eq!(p.cache_mask, EVENT_MODE);

    let p = FormattedPart::from_format_string("#[fg=nonsense,fg=blue,fg=nope]x", &config);
    assert_eq!(p.fg, None);
    let p = FormattedPart::from_format_string("#[fg=nonsense,fg=blue]x", &config);
    assert_eq!(p.fg, Some(ColorSource::Static(Color::Ansi(AnsiColor::Blue))));
    let p = FormattedPart::from_format_string("#[]", &config);
    assert_eq!(p.content, "");
}

#[test]
fn every_effect_name() {
    let config: TextMap<String> = TextMap::new();
    let p = FormattedPart::from_format_string(
        "#[bold,italic,underscore,blink,hidden,dim,strikethrough,double-underscore,curly-underscore,dotted-underscore,dashed-underscore,reverse,unknown]x",
        &config,
    );
    let expected = anstyle::Effects::BOLD
        | anstyle::Effects::DIMMED
        | anstyle::Effects::ITALIC
        | anstyle::Effects::UNDERLINE
        | anstyle::Effects::DOUBLE_UNDERLINE
        | anstyle::Effects::CURLY_UNDERLINE
        | anstyle::Effects::DOTTED_UNDERLINE
        | anstyle::Effects::DASHED_UNDERLINE
        | anstyle::Effects::BLINK
        | anstyle::Effects::INVERT
        | anstyle::Effects::HIDDEN
        | anstyle::Effects::STRIKETHROUGH;
    assert_eq!(p.effects, expected);
    let p = FormattedPart::from_format_string("#[hidden]x", &config);
    assert_eq!(p.effects, anstyle::Effects::HIDDEN);
}

#[test]
fn parse_effect_only_adds() {
    let mut p = FormattedPart::default();
    p.parse_and_set_effect("bold");
    p.parse_and_set_effect("nothing");
    p.parse_and_set_effect("dim");
    assert_eq!(p.effects, anstyle::Effects::BOLD | anstyle::Effects::DIMMED);
    assert_eq!(p.content, "");
}

#[test]
fn palette_directive_adds_mode_mask() {
    let config: TextMap<String> = TextMap::new();
    let p = FormattedPart::from_format_string("#[bg=player_2]{tabs}", &config);
    assert_eq!(p.cache_mask, EVENT_TAB | EVENT_MODE);
    let p = FormattedPart::from_format_string("#[us=frame_unselected.base]{command_x}", &config);
    assert_eq!(p.cache_mask, EVENT_ALWAYS | EVENT_MODE);
}

#[test]
fn segments_of_a_format_string() {
    let config: TextMap<String> = TextMap::new();
    let parts = FormattedPart::multiple_from_format_string("#[fg=red]a#[bold]b", &config);
    assert_eq!(parts.len(), 3);
    assert_eq!(parts[0].content, "");
    assert_eq!(parts[1].content, "a");
    assert_eq!(parts[1].fg, Some(ColorSource::Static(Color::Ansi(AnsiColor::Red))));
    assert_eq!(parts[2].content, "b");
    assert_eq!(parts[2].effects, anstyle::Effects::BOLD);
    let parts = FormattedPart::multiple_from_format_string("no style", &config);
    assert_eq!(parts.len(), 1);
    assert_eq!(parts[0].content, "no style");
}

#[test]
fn segment_reconstruction() {
    let config: TextMap<String> = TextMap::new();
    let format = "fg=red,bold]x]y";
    let p = FormattedPart::from_format_string(&format!("#[{}", format), &config);
    assert_eq!(format!("{}]{}", "fg=red,bold", p.content), format);
}

#[test]
fn cut_character_checks() {
    let config = config_with(&[("color_x", "#aé123")]);
    assert!(color_cuts_character("#aé123", &config));
    assert!(color_cuts_character("$x", &config));
    assert!(!color_cuts_character("$y", &config));
    assert!(!color_cuts_character("#ééé", &config));
    assert!(format_cuts_character("#[fg=$x]a", &config));
    assert!(!format_cuts_character("fg=$x", &config));
    assert!(format_string_cuts_character("ok#[bg=#aé123]x", &config));
    assert!(!format_string_cuts_character("ok#[bg=#010203]x", &config));
}

#[test]
fn plain_part_renders_text() {
    let p = FormattedPart::default();
    assert_eq!(p.format_string("hi", &state(0)), "hi");
    let config: TextMap<String> = TextMap::new();
    let p = FormattedPart::from_format_string("#[fg=nonsense]x", &config);
    assert_eq!(p.format_string("plain", &state(0)), "plain");
}

#[test]
fn styled_rendering() {
    let config: TextMap<String> = TextMap::new();
    let p = FormattedPart::from_format_string("#[fg=red]x", &config);
    assert_eq!(p.format_string("hi", &state(0)), "\x1b[0m\x1b[31mhi\x1b[0m");
    let p = FormattedPart::from_format_string("#[bold]x", &config);
    assert_eq!(p.format_string("hi", &state(0)), "\x1b[0m\x1b[1mhi\x1b[0m");
    let p = FormattedPart::from_format_string("#[fg=player_1]x", &config);
    assert_eq!(p.format_string("hi", &state(0)), "\x1b[0m\x1b[38;5;201mhi\x1b[0m");
    let p = FormattedPart::from_format_string("#[fg=frame_unselected.base]x", &config);
    assert_eq!(p.format_string("hi", &state(0)), "hi");
    let p = FormattedPart::from_format_string("#[fg=#010203]x", &config);
    assert_eq!(p.format_string("t", &state(0)), "\x1b[0m\x1b[38;2;1;2;3mt\x1b[0m");
    let p = FormattedPart::from_format_string("#[bg=blue,us=colour5]x", &config);
    assert_eq!(p.format_string("t", &state(0)), "\x1b[0m\x1b[44m\x1b[58;5;5mt\x1b[0m");
}

#[test]
fn widgets_are_cached_until_their_events() {
    let config: TextMap<String> = TextMap::new();
    let mut widgets: TextMap<Echo> = TextMap::new();
    widgets.insert("mode".to_owned(), echo());
    widgets.insert("tabs".to_owned(), echo());
    let mut p = FormattedPart::from_format_string("{mode} x {tabs}", &config);
    assert_eq!(p.cache_mask, EVENT_MODE | EVENT_TAB);

    let first = p.format_string_with_widgets(&widgets, &state(0));
    assert_eq!(first, "<mode:1> x <tabs:1>");
    assert_eq!(p.cached_content, first);

    // nothing happened: the cached rendering comes back
    let second = p.format_string_with_widgets(&widgets, &state(EVENT_COMMAND));
    assert_eq!(second, first);
    assert_eq!(widgets.get("mode").unwrap().calls.get(), 1);

    // a tab event refreshes both (the tab mask includes the mode bit)
    let third = p.format_string_with_widgets(&widgets, &state(EVENT_TAB));
    assert_eq!(third, "<mode:2> x <tabs:2>");
}

#[test]
fn widget_cache_survives_unrelated_events() {
    let config: TextMap<String> = TextMap::new();
    let mut widgets: TextMap<Echo> = TextMap::new();
    widgets.insert("mode".to_owned(), echo());
    widgets.insert("datetime".to_owned(), echo());
    let mut p = FormattedPart::from_format_string("{mode}|{datetime}", &config);
    assert_eq!(p.cache_mask, EVENT_MODE | EVENT_ALWAYS);
    assert_eq!(p.format_string_with_widgets(&widgets, &state(0)), "<mode:1>|<datetime:1>");
    // the part is always re-rendered, but the mode widget's output is reused
    assert_eq!(p.format_string_with_widgets(&widgets, &state(0)), "<mode:1>|<datetime:2>");
    assert_eq!(p.format_string_with_widgets(&widgets, &state(EVENT_MODE)), "<mode:2>|<datetime:3>");
}

#[test]
fn missing_and_prefixed_widgets() {
    let config: TextMap<String> = TextMap::new();
    let mut widgets: TextMap<Echo> = TextMap::new();
    widgets.insert("command".to_owned(), echo());
    let mut p = FormattedPart::from_format_string("{nope} {command_git} {command_git}", &config);
    assert_eq!(
        p.format_string_with_widgets(&widgets, &state(0)),
        "Use of uninitialized widget <command_git:1> <command_git:1>"
    );
}

#[test]
fn part_without_widgets_is_not_served_from_cache() {
    let config: TextMap<String> = TextMap::new();
    let widgets: TextMap<Echo> = TextMap::new();
    let mut p = FormattedPart::from_format_string("#[fg=text_selected.base]hi", &config);
    let mut s = state(0);
    let first = p.format_string_with_widgets(&widgets, &s);
    assert_eq!(first, "\x1b[0m\x1b[38;5;245mhi\x1b[0m");
    s.colors.text_selected.base = PaletteColor::EightBit(9);
    s.cache_mask = EVENT_MODE;
    let second = p.format_string_with_widgets(&widgets, &s);
    assert_eq!(second, "\x1b[0m\x1b[38;5;9mhi\x1b[0m");
    assert_eq!(p.cached_content, second);
}

#[test]
fn text_map_operations() {
    let mut m: TextMap<String> = TextMap::new();
    assert!(m.is_empty());
    m.insert("a".to_owned(), "1".to_owned());
    m.insert("b".to_owned(), "2".to_owned());
    m.insert("a".to_owned(), "3".to_owned());
    assert!(!m.is_empty());
    assert_eq!(m.get("a"), Some(&"3".to_owned()));
    assert_eq!(m.get("b"), Some(&"2".to_owned()));
    assert_eq!(m.get("c"), None);
    let c = m.clone();
    assert_eq!(c.get("a"), Some(&"3".to_owned()));
}

#[test]
fn default_theme_values() {
    let s = Styling::default();
    assert_eq!(s.frame_unselected, None);
    assert_eq!(s.text_unselected.base, PaletteColor::EightBit(245));
    assert_eq!(s.multiplayer_user_colors.player_10, PaletteColor::EightBit(215));
    let p = FormattedPart::default();
    assert_eq!(p.cache_mask, 0);
    assert_eq!(p.content, "");
}

#[test]
fn mixed_static_and_palette_colors() {
    let config: TextMap<String> = TextMap::new();
    let p = FormattedPart::from_format_string("#[fg=#FF0000,bg=text_selected.background]x", &config);
    assert_eq!(p.fg, Some(ColorSource::Static(Color::Rgb(255, 0, 0))));
    assert_eq!(
        p.bg,
        Some(ColorSource::Zellij("text_selected.background".to_owned()))
    );
    assert_eq!(p.cache_mask, EVENT_MODE);
    assert_eq!(
        p.format_string("t", &state(0)),
        "\x1b[0m\x1b[38;2;255;0;0m\x1b[48;5;238mt\x1b[0m"
    );
}

#[test]
fn cloned_part_keeps_style_and_cache() {
    let config: TextMap<String> = TextMap::new();
    let mut widgets: TextMap<Echo> = TextMap::new();
    widgets.insert("mode".to_owned(), echo());
    let mut p = FormattedPart::from_format_string("#[bold,fg=green]{mode}", &config);
    let first = p.format_string_with_widgets(&widgets, &state(0));
    let mut q = p.clone();
    assert_eq!(q.effects, anstyle::Effects::BOLD);
    assert_eq!(q.fg, p.fg);
    assert_eq!(q.cache.get("mode"), Some(&"<mode:1>".to_owned()));
    assert_eq!(q.format_string_with_widgets(&widgets, &state(0)), first);
}

#[test]
fn text_map_equality_ignores_insertion_order() {
    let a = config_with(&[("x", "1"), ("y", "2")]);
    let b = config_with(&[("y", "2"), ("x", "1")]);
    assert!(a == b);
    let c = config_with(&[("x", "1"), ("y", "3")]);
    assert!(a != c);
    let d = config_with(&[("x", "1")]);
    assert!(a != d);
    assert!(d != a);
    let empty: TextMap<String> = TextMap::new();
    assert!(empty == TextMap::new());
}

#[test]
fn parsed_parts_compare_by_value() {
    let config: TextMap<String> = TextMap::new();
    let p = FormattedPart::from_format_string("#[fg=red,bold]{mode}", &config);
    let q = FormattedPart::from_format_string("#[fg=red,bold]{mode}", &config);
    assert_eq!(p, q);
    let r = FormattedPart::from_format_string("#[fg=red,bold]{tabs}", &config);
    assert_ne!(p, r);
    let mut widgets: TextMap<Echo> = TextMap::new();
    widgets.insert("mode".to_owned(), echo());
    let mut s = p.clone();
    s.format_string_with_widgets(&widgets, &state(0));
    assert_ne!(p, s);
    assert_eq!(s.clone(), s);
}

#[test]
fn last_color_directive_wins_and_effects_add_up() {
    let config: TextMap<String> = TextMap::new();
    let p = FormattedPart::from_format_string(
        "#[fg=red,bg=blue,fg=green,us=colour1,us=colour2,bold,dim,bold]a]b",
        &config,
    );
    assert_eq!(p.fg, Some(ColorSource::Static(Color::Ansi(AnsiColor::Green))));
    assert_eq!(p.bg, Some(ColorSource::Static(Color::Ansi(AnsiColor::Blue))));
    assert_eq!(p.us, Some(ColorSource::Static(Color::Ansi256(2))));
    assert_eq!(p.effects, anstyle::Effects::BOLD | anstyle::Effects::DIMMED);
    assert!(!p.reverse);
    assert_eq!(p.content, "a]b");
}

#[test]
fn separator_splits_content_mask() {
    let left = "{mode}";
    let right = "{command_x}";
    for sep in [' ', '-', '|', '#'] {
        let joined = format!("{}{}{}", left, sep, right);
        assert_eq!(
            cache_mask_from_content(&joined),
            cache_mask_from_content(left) | cache_mask_from_content(right)
        );
    }
    assert_eq!(cache_mask_from_content("{mode}-{tabs}"), EVENT_MODE | EVENT_TAB);
}

#[test]
fn player_names_parse_back() {
    for n in 1u8..=10 {
        assert_eq!(parse_player_index(&format!("player_{}", n)), Some(n));
    }
    assert_eq!(parse_player_index("player_0"), None);
    assert_eq!(parse_player_index("player_11"), None);
}

#[test]
fn widget_is_asked_with_the_full_key() {
    let config: TextMap<String> = TextMap::new();
    let mut widgets: TextMap<Echo> = TextMap::new();
    widgets.insert("pipe".to_owned(), echo());
    let mut p = FormattedPart::from_format_string("{pipe_status}", &config);
    assert_eq!(p.format_string_with_widgets(&widgets, &state(0)), "<pipe_status:1>");
    assert_eq!(p.cache.get("pipe_status"), Some(&"<pipe_status:1>".to_owned()));
}
