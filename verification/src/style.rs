//! Text effects and the rendering of styled text, both done by `anstyle`.
use vstd::prelude::*;

use crate::color::Color;

verus! {

/// `anstyle`'s set of text effects.
#[verifier::external_type_specification]
#[verifier::external_body]
pub struct ExEffects(anstyle::Effects);

/// One text effect.
#[derive(Clone, Copy, Debug, PartialEq, Eq, Structural)]
pub enum Effect {
    Bold,
    Dimmed,
    Italic,
    Underline,
    DoubleUnderline,
    CurlyUnderline,
    DottedUnderline,
    DashedUnderline,
    Blink,
    Invert,
    Hidden,
    Strikethrough,
}

/// The effects that an `anstyle::Effects` value holds.
pub uninterp spec fn effects_of(e: anstyle::Effects) -> Set<Effect>;

/// Trusted: `anstyle::Effects::new` returns the empty set of effects.
pub assume_specification[ anstyle::Effects::new ]() -> (e: anstyle::Effects)
    ensures
        effects_of(e) == Set::<Effect>::empty(),
;

/// Trusted: `anstyle::Effects::insert` returns the union of both sets of
/// effects (its source ors the two bit sets).
pub assume_specification[ anstyle::Effects::insert ](
    this: anstyle::Effects,
    other: anstyle::Effects,
) -> (e: anstyle::Effects)
    ensures
        effects_of(e) == effects_of(this).union(effects_of(other)),
;

/// Trusted: `anstyle::Effects` derives `Clone` and `Copy`, so a clone is the
/// same value.
pub assume_specification[ <anstyle::Effects as Clone>::clone ](e: &anstyle::Effects) -> (r:
    anstyle::Effects)
    ensures
        r == *e,
;

/// Trusted: each of `anstyle::Effects`'s constants `BOLD`, `DIMMED`, ...
/// `STRIKETHROUGH` holds exactly the one effect it is named after.
#[verifier::external_body]
pub(crate) fn single_effect(effect: Effect) -> (e: anstyle::Effects)
    ensures
        effects_of(e) == set![effect],
{
    match effect {
        Effect::Bold => anstyle::Effects::BOLD,
        Effect::Dimmed => anstyle::Effects::DIMMED,
        Effect::Italic => anstyle::Effects::ITALIC,
        Effect::Underline => anstyle::Effects::UNDERLINE,
        Effect::DoubleUnderline => anstyle::Effects::DOUBLE_UNDERLINE,
        Effect::CurlyUnderline => anstyle::Effects::CURLY_UNDERLINE,
        Effect::DottedUnderline => anstyle::Effects::DOTTED_UNDERLINE,
        Effect::DashedUnderline => anstyle::Effects::DASHED_UNDERLINE,
        Effect::Blink => anstyle::Effects::BLINK,
        Effect::Invert => anstyle::Effects::INVERT,
        Effect::Hidden => anstyle::Effects::HIDDEN,
        Effect::Strikethrough => anstyle::Effects::STRIKETHROUGH,
    }
}

/// The escape sequence that resets all colors and effects.
pub open spec fn reset_code() -> Seq<char> {
    seq!['\u{1b}', '[', '0', 'm']
}

/// A style with no color and no effect.
pub open spec fn is_plain_style(
    fg: Option<Color>,
    bg: Option<Color>,
    us: Option<Color>,
    effects: Set<Effect>,
) -> bool {
    &&& fg is None
    &&& bg is None
    &&& us is None
    &&& effects == Set::<Effect>::empty()
}

/// The reset code that closes text in a style: none for a plain style.
pub open spec fn style_reset(
    fg: Option<Color>,
    bg: Option<Color>,
    us: Option<Color>,
    effects: Set<Effect>,
) -> Seq<char> {
    if is_plain_style(fg, bg, us, effects) {
        Seq::<char>::empty()
    } else {
        reset_code()
    }
}

/// The escape codes with which `anstyle` starts text in the style with the
/// given colors and effects.
pub uninterp spec fn style_codes(
    fg: Option<Color>,
    bg: Option<Color>,
    us: Option<Color>,
    effects: Set<Effect>,
) -> Seq<char>;

/// Trusted: `anstyle::Style::render` of the style built by `Style::new()
/// .fg_color(..).bg_color(..).underline_color(..).effects(..)`. The contract
/// names the result ([`style_codes`] of the colors and effects) and claims
/// only that a plain style writes nothing (it renders no effect and no color).
#[verifier::external_body]
pub(crate) fn render_style_codes(
    fg: Option<Color>,
    bg: Option<Color>,
    us: Option<Color>,
    effects: anstyle::Effects,
) -> (r: String)
    ensures
        r@ == style_codes(fg, bg, us, effects_of(effects)),
        is_plain_style(fg, bg, us, effects_of(effects)) ==> r@ == Seq::<char>::empty(),
{
    let conv = |c: Color| match c {
        Color::Ansi(a) => anstyle::Ansi256Color(a as u8).into_ansi().map(anstyle::Color::Ansi),
        Color::Ansi256(n) => Some(anstyle::Color::Ansi256(anstyle::Ansi256Color(n))),
        Color::Rgb(r, g, b) => Some(anstyle::Color::Rgb(anstyle::RgbColor(r, g, b))),
    };
    let style = anstyle::Style::new().fg_color(fg.and_then(conv)).bg_color(bg.and_then(conv))
        .underline_color(us.and_then(conv)).effects(effects);
    format!("{}", style.render())
}

/// Trusted: `anstyle::Style::render_reset` of the same style. Its source
/// writes the reset code `"\x1B[0m"` unless the style equals `Style::new()`,
/// which (every terminal color converting to `Some`) is exactly a plain style.
#[verifier::external_body]
pub(crate) fn render_style_reset(
    fg: Option<Color>,
    bg: Option<Color>,
    us: Option<Color>,
    effects: anstyle::Effects,
) -> (r: String)
    ensures
        r@ == style_reset(fg, bg, us, effects_of(effects)),
{
    let conv = |c: Color| match c {
        Color::Ansi(a) => anstyle::Ansi256Color(a as u8).into_ansi().map(anstyle::Color::Ansi),
        Color::Ansi256(n) => Some(anstyle::Color::Ansi256(anstyle::Ansi256Color(n))),
        Color::Rgb(r, g, b) => Some(anstyle::Color::Rgb(anstyle::RgbColor(r, g, b))),
    };
    let style = anstyle::Style::new().fg_color(fg.and_then(conv)).bg_color(bg.and_then(conv))
        .underline_color(us.and_then(conv)).effects(effects);
    format!("{}", style.render_reset())
}

} // verus!
