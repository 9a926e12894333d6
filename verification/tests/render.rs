use zjstatus::color::{
    is_zellij_color_name, palette_color_to_anstyle, parse_color, resolve_zellij_color, Color,
    ColorSource,
};
use zjstatus::mask::EVENT_MODE;
use zjstatus::numbers::hex_to_rgb;
use zjstatus::palette::{PaletteColor, StyleDeclaration, Styling};
use zjstatus::part::FormattedPart;
use zjstatus::text_map::TextMap;

fn config_with(entries: &[(&str, &str)]) -> TextMap<String> {
    let mut config = TextMap::new();
    for (k, v) in entries {
        config.insert(k.to_string(), v.to_string());
    }
    config
}

#[test]
fn test_hex_to_rgb() {
    let result = hex_to_rgb("010203");
    let expected = Vec::from([1, 2, 3]);
    assert!(result.is_ok());
    assert_eq!(result.unwrap(), expected);
}

#[test]
fn test_hex_to_rgb_with_invalid_input() {
    let result = hex_to_rgb("#010203");
    assert!(result.is_err());

    let result = hex_to_rgb(" 010203");
    assert!(result.is_err());

    let result = hex_to_rgb("010");
    assert!(result.is_err());
}

#[test]
fn test_parse_color() {
    let config = config_with(&[("color_green", "#00ff00")]);

    let result = parse_color("#010203", &config);
    assert_eq!(result, Some(ColorSource::Static(Color::Rgb(1, 2, 3))));

    let result = parse_color("255", &config);
    assert_eq!(result, Some(ColorSource::Static(Color::Ansi256(255))));

    let result = parse_color("365", &config);
    assert_eq!(result, None);

    let result = parse_color("#365", &config);
    assert_eq!(result, None);

    let result = parse_color("$green", &config);
    assert_eq!(result, Some(ColorSource::Static(Color::Rgb(0, 255, 0))));

    let result = parse_color("$blue", &config);
    assert_eq!(result, None);
}

#[test]
fn test_parse_color_zellij_names() {
    let config: TextMap<String> = TextMap::new();

    assert_eq!(
        parse_color("text_selected.base", &config),
        Some(ColorSource::Zellij("text_selected.base".to_owned()))
    );
    assert_eq!(
        parse_color("ribbon_unselected.emphasis_1", &config),
        Some(ColorSource::Zellij("ribbon_unselected.emphasis_1".to_owned()))
    );
    assert_eq!(
        parse_color("player_1", &config),
        Some(ColorSource::Zellij("player_1".to_owned()))
    );
    assert_eq!(
        parse_color("player_10", &config),
        Some(ColorSource::Zellij("player_10".to_owned()))
    );

    assert_eq!(parse_color("player_0", &config), None);
    assert_eq!(parse_color("player_11", &config), None);
    assert_eq!(parse_color("not_a_category.base", &config), None);
    assert_eq!(parse_color("text_selected.not_a_field", &config), None);
    assert_eq!(parse_color("text_selected", &config), None);
}

#[test]
fn test_is_zellij_color_name() {
    assert!(is_zellij_color_name("text_selected.base"));
    assert!(is_zellij_color_name("frame_highlight.emphasis_3"));
    assert!(is_zellij_color_name("exit_code_error.background"));
    assert!(is_zellij_color_name("player_1"));
    assert!(is_zellij_color_name("player_10"));

    assert!(!is_zellij_color_name("player_0"));
    assert!(!is_zellij_color_name("player_11"));
    assert!(!is_zellij_color_name("player_abc"));
    assert!(!is_zellij_color_name("text_selected"));
    assert!(!is_zellij_color_name("text_selected.bogus"));
    assert!(!is_zellij_color_name("bogus.base"));
    assert!(!is_zellij_color_name("#abcdef"));
    assert!(!is_zellij_color_name("blue"));
}

#[test]
fn test_palette_color_to_anstyle() {
    assert_eq!(
        palette_color_to_anstyle(PaletteColor::Rgb((10, 20, 30))),
        Color::Rgb(10, 20, 30)
    );
    assert_eq!(
        palette_color_to_anstyle(PaletteColor::EightBit(42)),
        Color::Ansi256(42)
    );
}

#[test]
fn test_resolve_zellij_color_style_declaration() {
    let mut styling = Styling::default();
    styling.text_selected.base = PaletteColor::Rgb((1, 2, 3));
    styling.ribbon_unselected.emphasis_1 = PaletteColor::EightBit(7);

    assert_eq!(
        resolve_zellij_color("text_selected.base", &styling),
        Some(Color::Rgb(1, 2, 3))
    );
    assert_eq!(
        resolve_zellij_color("ribbon_unselected.emphasis_1", &styling),
        Some(Color::Ansi256(7))
    );
    assert_eq!(resolve_zellij_color("bogus.base", &styling), None);
}

#[test]
fn test_resolve_zellij_color_player() {
    let mut styling = Styling::default();
    styling.multiplayer_user_colors.player_3 = PaletteColor::Rgb((33, 33, 33));
    styling.multiplayer_user_colors.player_10 = PaletteColor::EightBit(200);

    assert_eq!(
        resolve_zellij_color("player_3", &styling),
        Some(Color::Rgb(33, 33, 33))
    );
    assert_eq!(
        resolve_zellij_color("player_10", &styling),
        Some(Color::Ansi256(200))
    );
    assert_eq!(resolve_zellij_color("player_0", &styling), None);
    assert_eq!(resolve_zellij_color("player_11", &styling), None);
}

#[test]
fn test_resolve_zellij_color_frame_unselected_absent() {
    let styling = Styling {
        frame_unselected: None,
        ..Styling::default()
    };
    assert_eq!(resolve_zellij_color("frame_unselected.base", &styling), None);
    assert_eq!(
        resolve_zellij_color("frame_unselected.background", &styling),
        None
    );

    assert!(is_zellij_color_name("frame_unselected.base"));
}

#[test]
fn test_resolve_zellij_color_frame_unselected_present() {
    let styling = Styling {
        frame_unselected: Some(StyleDeclaration {
            base: PaletteColor::Rgb((5, 5, 5)),
            ..StyleDeclaration::default()
        }),
        ..Styling::default()
    };
    assert_eq!(
        resolve_zellij_color("frame_unselected.base", &styling),
        Some(Color::Rgb(5, 5, 5))
    );
}

#[test]
fn test_cache_mask_includes_mode_for_zellij_colors() {
    let config: TextMap<String> = TextMap::new();

    let zellij_part = FormattedPart::from_format_string("#[fg=text_selected.base]hi", &config);
    assert!(
        zellij_part.cache_mask & EVENT_MODE != 0,
        "FormattedPart with a Zellij color should set the Mode cache mask"
    );

    let static_part = FormattedPart::from_format_string("#[fg=#ffffff]hi", &config);
    assert_eq!(
        static_part.cache_mask & EVENT_MODE,
        0,
        "FormattedPart with only static colors should not set the Mode cache mask"
    );
}
