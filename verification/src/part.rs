//! Formatted parts: one `#[style]content` segment of a format string, how it
//! is parsed, and how it is rendered with its widgets and caches.
use vstd::prelude::*;

use crate::color::{Color, color_cuts_character, color_spec, color_splits_char, parse_color, resolve_color_source, source_color, source_view, ColorSource, ColorSourceView};
use crate::mask::{cache_mask_from_content, content_mask, placeholder_key, widget_event_mask, widget_of_key, widget_key_and_name, widget_placeholders, widget_placeholders_in, lemma_placeholder_shape, EVENT_ALWAYS, EVENT_MODE};
use crate::palette::{Styling, ZellijState};
use crate::style::{effects_of, render_style_codes, render_style_reset, single_effect, style_codes, style_reset, Effect};
use crate::text::{chars_between, chars_of, equals_str, has_prefix, join_chars, replace_all, replace_chars, split_chars, split_on, starts_with, string_of, lemma_split_tail, lemma_split_on_nonempty};
use crate::text_map::TextMap;

verus! {

/// A widget: produces the text that replaces its placeholder.
pub trait Widget {
    /// `out` is an output that this widget may give for the placeholder key
    /// `key` in `state`. A widget that states nothing of its outputs may give
    /// any output.
    open spec fn produces(&self, key: Seq<char>, state: ZellijState, out: Seq<char>) -> bool {
        true
    }

    /// The output for the placeholder key `name` (e.g. `command_git`).
    fn process(&self, name: &str, state: &ZellijState) -> (r: String)
        ensures
            self.produces(name@, *state, r@),
    ;
}

/// One segment of a format string: its style, its text (with widget
/// placeholders), and what is cached of its last rendering.
#[derive(Clone, Debug, PartialEq)]
pub struct FormattedPart {
    pub fg: Option<ColorSource>,
    pub bg: Option<ColorSource>,
    pub us: Option<ColorSource>,
    pub effects: anstyle::Effects,
    pub bold: bool,
    pub italic: bool,
    pub underscore: bool,
    pub reverse: bool,
    pub blink: bool,
    pub hidden: bool,
    pub dimmed: bool,
    pub strikethrough: bool,
    pub double_underscore: bool,
    pub curly_underscore: bool,
    pub dotted_underscore: bool,
    pub dashed_underscore: bool,
    pub content: String,
    pub cache_mask: u8,
    pub cached_content: String,
    pub cache: TextMap<String>,
}

/// None of the (unused) flag fields is set.
pub open spec fn flags_clear(p: FormattedPart) -> bool {
    &&& !p.bold
    &&& !p.italic
    &&& !p.underscore
    &&& !p.blink
    &&& !p.hidden
    &&& !p.dimmed
    &&& !p.strikethrough
    &&& !p.double_underscore
    &&& !p.curly_underscore
    &&& !p.dotted_underscore
    &&& !p.dashed_underscore
}

/// A part with no style, no content and nothing cached.
pub open spec fn is_blank(p: FormattedPart) -> bool {
    &&& p.fg is None
    &&& p.bg is None
    &&& p.us is None
    &&& effects_of(p.effects) == Set::<Effect>::empty()
    &&& flags_clear(p)
    &&& !p.reverse
    &&& p.content@ == Seq::<char>::empty()
    &&& p.cache_mask == 0
    &&& p.cached_content@ == Seq::<char>::empty()
    &&& p.cache.view() == Map::<Seq<char>, String>::empty()
}

impl Default for FormattedPart {
    fn default() -> (p: Self)
        ensures
            is_blank(p),
    {
        Self {
            fg: None,
            bg: None,
            us: None,
            effects: anstyle::Effects::new(),
            bold: false,
            italic: false,
            underscore: false,
            reverse: false,
            blink: false,
            hidden: false,
            dimmed: false,
            strikethrough: false,
            double_underscore: false,
            curly_underscore: false,
            dotted_underscore: false,
            dashed_underscore: false,
            content: String::new(),
            cache_mask: 0,
            cached_content: String::new(),
            cache: TextMap::new(),
        }
    }
}

/// The effect that a style directive names.
pub open spec fn effect_named(part: Seq<char>) -> Option<Effect> {
    if part == "bold"@ {
        Some(Effect::Bold)
    } else if part == "italic"@ || part == "italics"@ {
        Some(Effect::Italic)
    } else if part == "underscore"@ {
        Some(Effect::Underline)
    } else if part == "blink"@ {
        Some(Effect::Blink)
    } else if part == "hidden"@ {
        Some(Effect::Hidden)
    } else if part == "dim"@ {
        Some(Effect::Dimmed)
    } else if part == "strikethrough"@ {
        Some(Effect::Strikethrough)
    } else if part == "double-underscore"@ {
        Some(Effect::DoubleUnderline)
    } else if part == "curly-underscore"@ {
        Some(Effect::CurlyUnderline)
    } else if part == "dotted-underscore"@ {
        Some(Effect::DottedUnderline)
    } else if part == "dashed-underscore"@ {
        Some(Effect::DashedUnderline)
    } else if part == "reverse"@ {
        Some(Effect::Invert)
    } else {
        None
    }
}

fn effect_named_chars(v: &[char]) -> (r: Option<Effect>)
    ensures
        r == effect_named(v@),
{
    if equals_str(v, "bold") {
        Some(Effect::Bold)
    } else if equals_str(v, "italic") || equals_str(v, "italics") {
        Some(Effect::Italic)
    } else if equals_str(v, "underscore") {
        Some(Effect::Underline)
    } else if equals_str(v, "blink") {
        Some(Effect::Blink)
    } else if equals_str(v, "hidden") {
        Some(Effect::Hidden)
    } else if equals_str(v, "dim") {
        Some(Effect::Dimmed)
    } else if equals_str(v, "strikethrough") {
        Some(Effect::Strikethrough)
    } else if equals_str(v, "double-underscore") {
        Some(Effect::DoubleUnderline)
    } else if equals_str(v, "curly-underscore") {
        Some(Effect::CurlyUnderline)
    } else if equals_str(v, "dotted-underscore") {
        Some(Effect::DottedUnderline)
    } else if equals_str(v, "dashed-underscore") {
        Some(Effect::DashedUnderline)
    } else if equals_str(v, "reverse") {
        Some(Effect::Invert)
    } else {
        None
    }
}

/// The effects after applying a style directive to `effects`.
pub open spec fn with_effect_of(effects: Set<Effect>, part: Seq<char>) -> Set<Effect> {
    match effect_named(part) {
        Some(e) => effects.insert(e),
        None => effects,
    }
}

/// Everything but the effects is the same in both parts.
pub open spec fn same_but_effects(a: FormattedPart, b: FormattedPart) -> bool {
    &&& a.fg == b.fg
    &&& a.bg == b.bg
    &&& a.us == b.us
    &&& a.bold == b.bold
    &&& a.italic == b.italic
    &&& a.underscore == b.underscore
    &&& a.reverse == b.reverse
    &&& a.blink == b.blink
    &&& a.hidden == b.hidden
    &&& a.dimmed == b.dimmed
    &&& a.strikethrough == b.strikethrough
    &&& a.double_underscore == b.double_underscore
    &&& a.curly_underscore == b.curly_underscore
    &&& a.dotted_underscore == b.dotted_underscore
    &&& a.dashed_underscore == b.dashed_underscore
    &&& a.content == b.content
    &&& a.cache_mask == b.cache_mask
    &&& a.cached_content == b.cached_content
    &&& a.cache == b.cache
}

/// The styles that a list of directives sets, applied in order.
pub struct StyleSpec {
    pub fg: Option<ColorSourceView>,
    pub bg: Option<ColorSourceView>,
    pub us: Option<ColorSourceView>,
    pub reverse: bool,
    pub effects: Set<Effect>,
}

/// No directive applied yet.
pub open spec fn no_style() -> StyleSpec {
    StyleSpec { fg: None, bg: None, us: None, reverse: false, effects: Set::empty() }
}

/// One directive applied: `fg=`, `bg=`, `us=` set a color (to nothing when
/// the color does not parse), `reverse` sets the flag, and effect names add
/// their effect.
pub open spec fn apply_directive(
    st: StyleSpec,
    part: Seq<char>,
    config: Map<Seq<char>, String>,
) -> StyleSpec {
    StyleSpec {
        fg: if has_prefix(part, "fg="@) {
            color_spec(part.skip("fg="@.len() as int), config)
        } else {
            st.fg
        },
        bg: if has_prefix(part, "bg="@) {
            color_spec(part.skip("bg="@.len() as int), config)
        } else {
            st.bg
        },
        us: if has_prefix(part, "us="@) {
            color_spec(part.skip("us="@.len() as int), config)
        } else {
            st.us
        },
        reverse: st.reverse || part == "reverse"@,
        effects: with_effect_of(st.effects, part),
    }
}

/// The directives applied left to right.
pub open spec fn apply_directives(
    st: StyleSpec,
    parts: Seq<Seq<char>>,
    config: Map<Seq<char>, String>,
) -> StyleSpec
    decreases parts.len(),
{
    if parts.len() == 0 {
        st
    } else {
        apply_directive(apply_directives(st, parts.drop_last(), config), parts.last(), config)
    }
}

/// A directive whose color would cut a character while parsing hex groups.
pub open spec fn directive_splits_char(part: Seq<char>, config: Map<Seq<char>, String>) -> bool {
    ||| has_prefix(part, "fg="@) && color_splits_char(part.skip("fg="@.len() as int), config)
    ||| has_prefix(part, "bg="@) && color_splits_char(part.skip("bg="@.len() as int), config)
    ||| has_prefix(part, "us="@) && color_splits_char(part.skip("us="@.len() as int), config)
}

/// The `#[`-separated segments of a format string.
pub open spec fn segments(s: Seq<char>) -> Seq<Seq<char>> {
    split_on(s, seq!['#', '['])
}

/// The format without its leading `#[`, if it has one.
pub open spec fn without_opening(format: Seq<char>) -> Seq<char> {
    if has_prefix(format, seq!['#', '[']) {
        format.skip(2)
    } else {
        format
    }
}

/// The style directives of a format (none when it has no `]`).
pub open spec fn directives(format: Seq<char>) -> Seq<Seq<char>> {
    let pieces = split_on(without_opening(format), seq![']']);
    if pieces.len() <= 1 {
        seq![]
    } else {
        split_on(pieces[0], seq![','])
    }
}

/// The text of a format: all of it when it has no `]`, else what follows
/// the first `]`.
pub open spec fn format_content(format: Seq<char>) -> Seq<char> {
    let f = without_opening(format);
    let pieces = split_on(f, seq![']']);
    if pieces.len() <= 1 {
        f
    } else {
        f.skip(pieces[0].len() + 1int)
    }
}

/// Parsing `format` would cut a character in a hex color.
pub open spec fn format_splits_char(format: Seq<char>, config: Map<Seq<char>, String>) -> bool {
    exists|i: int|
        0 <= i < directives(format).len() && directive_splits_char(
            #[trigger] directives(format)[i],
            config,
        )
}

/// Some color of the style is a Zellij palette name.
pub open spec fn has_palette_color(st: StyleSpec) -> bool {
    ||| st.fg matches Some(ColorSourceView::Zellij(_))
    ||| st.bg matches Some(ColorSourceView::Zellij(_))
    ||| st.us matches Some(ColorSourceView::Zellij(_))
}

/// `p` is the part that `format` parses into: its directives set the
/// colors and effects, its text is what follows the first `]`, and its
/// mask is that of its widgets, plus the mode bit when a color follows the
/// theme.
pub open spec fn parsed_from(p: FormattedPart, format: Seq<char>, config: Map<Seq<char>, String>) -> bool {
    let st = apply_directives(no_style(), directives(format), config);
    let f = without_opening(format);
    &&& source_view(p.fg) == st.fg
    &&& source_view(p.bg) == st.bg
    &&& source_view(p.us) == st.us
    &&& p.reverse == st.reverse
    &&& effects_of(p.effects) == st.effects
    &&& flags_clear(p)
    &&& p.content@ == format_content(format)
    &&& p.cache_mask == if has_palette_color(st) {
        content_mask(f) | EVENT_MODE
    } else {
        content_mask(f)
    }
    &&& p.cached_content@ == Seq::<char>::empty()
    &&& p.cache.view() == Map::<Seq<char>, String>::empty()
}

/// The color a part's source gives in a theme.
pub open spec fn resolved(o: Option<ColorSource>, styling: Styling) -> Option<Color> {
    match o {
        Some(s) => source_color(s@, styling),
        None => None,
    }
}

/// What a part renders `text` as in a theme: the style's reset code (none
/// for a plain style), its escape codes, the text, and the reset code again.
pub open spec fn rendered(p: FormattedPart, text: Seq<char>, styling: Styling) -> Seq<char> {
    let fg = resolved(p.fg, styling);
    let bg = resolved(p.bg, styling);
    let us = resolved(p.us, styling);
    let effects = effects_of(p.effects);
    let reset = style_reset(fg, bg, us, effects);
    reset + style_codes(fg, bg, us, effects) + text + reset
}

/// The cached rendering can be returned: the part does not re-render on
/// every pass, none of its events happened, and its widget cache is filled.
pub open spec fn cache_hit(p: FormattedPart, state_mask: u8) -> bool {
    &&& p.cache_mask & EVENT_ALWAYS == 0
    &&& p.cache_mask & state_mask == 0
    &&& p.cache.view().dom() != Set::<Seq<char>>::empty()
}

/// The text used for a widget that is not registered.
pub open spec fn missing_widget_text() -> Seq<char> {
    "Use of uninitialized widget"@
}

/// The placeholder `m` is replaced by its cached output: its widget's events
/// did not happen, the widget is not re-run on every pass, and its key is
/// cached.
pub open spec fn served_from_cache(
    cache: Map<Seq<char>, Seq<char>>,
    m: Seq<char>,
    state_mask: u8,
) -> bool {
    let key = placeholder_key(m);
    let mask = widget_event_mask(widget_of_key(key));
    &&& mask & EVENT_ALWAYS == 0
    &&& mask & state_mask == 0
    &&& cache.contains_key(key)
}

/// One placeholder replaced: by its cached output when the widget's events
/// did not happen and the key is cached, else by fresh output (`fresh` for a
/// registered widget, the missing-widget text otherwise), which is cached.
pub open spec fn widget_step(
    text: Seq<char>,
    cache: Map<Seq<char>, Seq<char>>,
    m: Seq<char>,
    fresh: Seq<char>,
    state_mask: u8,
    known: Set<Seq<char>>,
) -> (Seq<char>, Map<Seq<char>, Seq<char>>) {
    let key = placeholder_key(m);
    let name = widget_of_key(key);
    if served_from_cache(cache, m, state_mask) {
        (replace_all(text, m, cache[key]), cache)
    } else {
        let out = if known.contains(name) {
            fresh
        } else {
            missing_widget_text()
        };
        (replace_all(text, m, out), cache.insert(key, out))
    }
}

/// All placeholders replaced in order, the `k`-th registered widget that is
/// asked for output giving `fresh[k]`.
pub open spec fn widget_pass(
    text: Seq<char>,
    cache: Map<Seq<char>, Seq<char>>,
    ms: Seq<Seq<char>>,
    fresh: Seq<Seq<char>>,
    state_mask: u8,
    known: Set<Seq<char>>,
) -> (Seq<char>, Map<Seq<char>, Seq<char>>)
    decreases ms.len(),
{
    if ms.len() == 0 {
        (text, cache)
    } else {
        let prev = widget_pass(text, cache, ms.drop_last(), fresh, state_mask, known);
        widget_step(prev.0, prev.1, ms.last(), fresh[ms.len() - 1], state_mask, known)
    }
}

/// Of the first `n` placeholders of the pass, each that is not served from
/// the cache and whose widget is registered gets as fresh output one that the
/// widget produces for the placeholder's full key.
pub open spec fn outputs_produced<W: Widget>(
    widgets: Map<Seq<char>, W>,
    state: ZellijState,
    text: Seq<char>,
    cache: Map<Seq<char>, Seq<char>>,
    ms: Seq<Seq<char>>,
    fresh: Seq<Seq<char>>,
    n: int,
) -> bool {
    forall|k: int|
        0 <= k < n ==> {
            let before = widget_pass(text, cache, ms.take(k), fresh, state.cache_mask, widgets.dom()).1;
            let key = placeholder_key(ms[k]);
            let name = widget_of_key(key);
            (!served_from_cache(before, ms[k], state.cache_mask) && widgets.contains_key(name))
                ==> widgets[name].produces(key, state, #[trigger] fresh[k])
        }
}

/// The pass over `ms` only reads the first `ms.len()` fresh outputs.
pub proof fn lemma_widget_pass_fresh_prefix(
    text: Seq<char>,
    cache: Map<Seq<char>, Seq<char>>,
    ms: Seq<Seq<char>>,
    fresh1: Seq<Seq<char>>,
    fresh2: Seq<Seq<char>>,
    state_mask: u8,
    known: Set<Seq<char>>,
)
    requires
        forall|k: int| 0 <= k < ms.len() ==> fresh1[k] == fresh2[k],
    ensures
        widget_pass(text, cache, ms, fresh1, state_mask, known) == widget_pass(
            text,
            cache,
            ms,
            fresh2,
            state_mask,
            known,
        ),
    decreases ms.len(),
{
    if ms.len() > 0 {
        lemma_widget_pass_fresh_prefix(text, cache, ms.drop_last(), fresh1, fresh2, state_mask, known);
    }
}

/// The widget cache as text.
pub open spec fn cache_text(cache: Map<Seq<char>, String>) -> Map<Seq<char>, Seq<char>> {
    cache.map_values(|s: String| s@)
}

/// The style and text of two parts are the same.
pub open spec fn same_style_and_content(a: FormattedPart, b: FormattedPart) -> bool {
    &&& a.fg == b.fg
    &&& a.bg == b.bg
    &&& a.us == b.us
    &&& a.effects == b.effects
    &&& a.bold == b.bold
    &&& a.italic == b.italic
    &&& a.underscore == b.underscore
    &&& a.reverse == b.reverse
    &&& a.blink == b.blink
    &&& a.hidden == b.hidden
    &&& a.dimmed == b.dimmed
    &&& a.strikethrough == b.strikethrough
    &&& a.double_underscore == b.double_underscore
    &&& a.curly_underscore == b.curly_underscore
    &&& a.dotted_underscore == b.dotted_underscore
    &&& a.dashed_underscore == b.dashed_underscore
    &&& a.content == b.content
    &&& a.cache_mask == b.cache_mask
}

fn directive_cuts_character(part: &[char], config: &TextMap<String>) -> (b: bool)
    ensures
        b == directive_splits_char(part@, config.view()),
{
    let fg_prefix = chars_of("fg=");
    let bg_prefix = chars_of("bg=");
    let us_prefix = chars_of("us=");
    if starts_with(part, fg_prefix.as_slice()) {
        let color = string_of(part, fg_prefix.len(), part.len());
        assert(color@ == part@.skip("fg="@.len() as int));
        if color_cuts_character(color.as_str(), config) {
            return true;
        }
    }
    if starts_with(part, bg_prefix.as_slice()) {
        let color = string_of(part, bg_prefix.len(), part.len());
        assert(color@ == part@.skip("bg="@.len() as int));
        if color_cuts_character(color.as_str(), config) {
            return true;
        }
    }
    if starts_with(part, us_prefix.as_slice()) {
        let color = string_of(part, us_prefix.len(), part.len());
        assert(color@ == part@.skip("us="@.len() as int));
        if color_cuts_character(color.as_str(), config) {
            return true;
        }
    }
    false
}

/// Whether parsing the segment `format` would cut a character in a hex
/// color (see [`format_splits_char`]); [`FormattedPart::from_format_string`]
/// needs this to be false.
pub fn format_cuts_character(format: &str, config: &TextMap<String>) -> (b: bool)
    ensures
        b == format_splits_char(format@, config.view()),
{
    let v = chars_of(format);
    let open = vec!['#', '['];
    assert(open@ == seq!['#', '[']);
    let f = if starts_with(v.as_slice(), open.as_slice()) {
        chars_between(v.as_slice(), 2, v.len())
    } else {
        chars_between(v.as_slice(), 0, v.len())
    };
    assert(v@.subrange(0, v@.len() as int) == v@);
    assert(f@ == without_opening(format@));
    let close = vec![']'];
    assert(close@ == seq![']']);
    let pieces = split_chars(f.as_slice(), close.as_slice());
    if pieces.len() <= 1 {
        assert(directives(format@).len() == 0);
        return false;
    }
    let comma = vec![','];
    assert(comma@ == seq![',']);
    assert(pieces@[0]@ == split_on(f@, seq![']'])[0]);
    let parts = split_chars(pieces[0].as_slice(), comma.as_slice());
    let ghost attrs = directives(format@);
    assert(parts@.map_values(|p: Vec<char>| p@) == attrs);
    let mut i: usize = 0;
    while i < parts.len()
        invariant
            parts@.map_values(|p: Vec<char>| p@) == attrs,
            attrs == directives(format@),
            i <= parts@.len(),
            forall|k: int| 0 <= k < i ==> !directive_splits_char(#[trigger] attrs[k], config.view()),
        decreases parts@.len() - i,
    {
        assert(parts@[i as int]@ == attrs[i as int]);
        if directive_cuts_character(parts[i].as_slice(), config) {
            return true;
        }
        i += 1;
    }
    false
}

/// Whether parsing some segment of `config_string` would cut a character in
/// a hex color; [`FormattedPart::multiple_from_format_string`] needs this to
/// be false.
pub fn format_string_cuts_character(config_string: &str, config: &TextMap<String>) -> (b: bool)
    ensures
        b == exists|i: int|
            0 <= i < segments(config_string@).len() && format_splits_char(
                #[trigger] segments(config_string@)[i],
                config.view(),
            ),
{
    let v = chars_of(config_string);
    let sep = vec!['#', '['];
    assert(sep@ == seq!['#', '[']);
    let pieces = split_chars(v.as_slice(), sep.as_slice());
    let ghost ps = segments(config_string@);
    let mut i: usize = 0;
    while i < pieces.len()
        invariant
            pieces@.map_values(|p: Vec<char>| p@) == ps,
            ps == segments(config_string@),
            i <= pieces@.len(),
            forall|k: int| 0 <= k < i ==> !format_splits_char(#[trigger] ps[k], config.view()),
        decreases pieces@.len() - i,
    {
        let piece = string_of(pieces[i].as_slice(), 0, pieces[i].len());
        assert(pieces[i as int]@.subrange(0, pieces[i as int]@.len() as int) == ps[i as int]);
        if format_cuts_character(piece.as_str(), config) {
            return true;
        }
        i += 1;
    }
    false
}

impl FormattedPart {
    /// Parses each `#[`-separated segment of a format string.
    pub fn multiple_from_format_string(config_string: &str, config: &TextMap<String>) -> (parts: Vec<
        Self,
    >)
        requires
            forall|i: int|
                0 <= i < segments(config_string@).len() ==> !format_splits_char(
                    #[trigger] segments(config_string@)[i],
                    config.view(),
                ),
        ensures
            parts@.len() == segments(config_string@).len(),
            forall|i: int|
                0 <= i < parts@.len() ==> parsed_from(
                    #[trigger] parts@[i],
                    segments(config_string@)[i],
                    config.view(),
                ),
    {
        let v = chars_of(config_string);
        let sep = vec!['#', '['];
        let pieces = split_chars(v.as_slice(), sep.as_slice());
        let ghost ps = segments(config_string@);
        assert(sep@ == seq!['#', '[']);
        let mut parts: Vec<Self> = Vec::new();
        let mut i: usize = 0;
        while i < pieces.len()
            invariant
                pieces@.map_values(|p: Vec<char>| p@) == ps,
                ps == segments(config_string@),
                forall|k: int| 0 <= k < ps.len() ==> !format_splits_char(#[trigger] ps[k], config.view()),
                i <= pieces@.len(),
                parts@.len() == i,
                forall|k: int| 0 <= k < i ==> parsed_from(#[trigger] parts@[k], ps[k], config.view()),
            decreases pieces@.len() - i,
        {
            let piece = string_of(pieces[i].as_slice(), 0, pieces[i].len());
            assert(pieces[i as int]@.subrange(0, pieces[i as int]@.len() as int) == ps[i as int]);
            parts.push(Self::from_format_string(piece.as_str(), config));
            i += 1;
        }
        parts
    }

    /// Parses one segment: `[#[]directive,directive,...]content`.
    pub fn from_format_string(format: &str, config: &TextMap<String>) -> (p: Self)
        requires
            !format_splits_char(format@, config.view()),
        ensures
            parsed_from(p, format@, config.view()),
    {
        let v = chars_of(format);
        let open = vec!['#', '['];
        assert(open@ == seq!['#', '[']);
        let f = if starts_with(v.as_slice(), open.as_slice()) {
            chars_between(v.as_slice(), 2, v.len())
        } else {
            chars_between(v.as_slice(), 0, v.len())
        };
        assert(v@.subrange(0, v@.len() as int) == v@);
        assert(f@ == without_opening(format@));
        let f_text = string_of(f.as_slice(), 0, f.len());
        assert(f@.subrange(0, f@.len() as int) == f@);
        let mut result = FormattedPart::default();
        result.cache_mask = cache_mask_from_content(f_text.as_str());
        let close = vec![']'];
        assert(close@ == seq![']']);
        let mut format_content_split = split_chars(f.as_slice(), close.as_slice());
        let ghost pieces = split_on(f@, seq![']']);
        proof {
            lemma_split_on_nonempty(f@, seq![']']);
        }
        if format_content_split.len() == 1 {
            result.content = f_text;
            return result;
        }
        let comma = vec![','];
        assert(comma@ == seq![',']);
        let first = format_content_split.remove(0);
        assert(first@ == pieces[0]);
        let parts = split_chars(first.as_slice(), comma.as_slice());
        let content = join_chars(format_content_split.as_slice(), close.as_slice());
        proof {
            lemma_split_tail(f@, seq![']']);
            assert(format_content_split@.map_values(|p: Vec<char>| p@) == pieces.drop_first());
        }
        result.content = string_of(content.as_slice(), 0, content.len());
        assert(content@.subrange(0, content@.len() as int) == content@);
        let ghost attrs = split_on(pieces[0], seq![',']);
        assert(attrs == directives(format@));
        let mut i: usize = 0;
        while i < parts.len()
            invariant
                parts@.map_values(|p: Vec<char>| p@) == attrs,
                attrs == directives(format@),
                !format_splits_char(format@, config.view()),
                i <= parts@.len(),
                source_view(result.fg) == apply_directives(no_style(), attrs.take(i as int), config.view()).fg,
                source_view(result.bg) == apply_directives(no_style(), attrs.take(i as int), config.view()).bg,
                source_view(result.us) == apply_directives(no_style(), attrs.take(i as int), config.view()).us,
                result.reverse == apply_directives(no_style(), attrs.take(i as int), config.view()).reverse,
                effects_of(result.effects) == apply_directives(no_style(), attrs.take(i as int), config.view()).effects,
                flags_clear(result),
                result.content@ == format_content(format@),
                result.cache_mask == content_mask(f@),
                result.cached_content@ == Seq::<char>::empty(),
                result.cache.view() == Map::<Seq<char>, String>::empty(),
            decreases parts@.len() - i,
        {
            let part = &parts[i];
            let ghost a = attrs[i as int];
            assert(part@ == a);
            assert(!directive_splits_char(a, config.view()));
            let fg_prefix = chars_of("fg=");
            let bg_prefix = chars_of("bg=");
            let us_prefix = chars_of("us=");
            if starts_with(part.as_slice(), fg_prefix.as_slice()) {
                let color = string_of(part.as_slice(), fg_prefix.len(), part.len());
                assert(color@ == a.skip("fg="@.len() as int));
                result.fg = parse_color(color.as_str(), config);
            }
            if starts_with(part.as_slice(), bg_prefix.as_slice()) {
                let color = string_of(part.as_slice(), bg_prefix.len(), part.len());
                assert(color@ == a.skip("bg="@.len() as int));
                result.bg = parse_color(color.as_str(), config);
            }
            if starts_with(part.as_slice(), us_prefix.as_slice()) {
                let color = string_of(part.as_slice(), us_prefix.len(), part.len());
                assert(color@ == a.skip("us="@.len() as int));
                result.us = parse_color(color.as_str(), config);
            }
            if equals_str(part.as_slice(), "reverse") {
                result.reverse = true;
            }
            result.set_effect_chars(part.as_slice());
            i += 1;
            assert(attrs.take(i as int).drop_last() == attrs.take(i - 1));
        }
        assert(attrs.take(attrs.len() as int) == attrs);
        let has_zellij_colors = matches!(result.fg, Some(ColorSource::Zellij(_))) || matches!(
            result.bg,
            Some(ColorSource::Zellij(_))
        ) || matches!(result.us, Some(ColorSource::Zellij(_)));
        if has_zellij_colors {
            result.cache_mask = result.cache_mask | EVENT_MODE;
        }
        result
    }

    fn set_effect_chars(&mut self, v: &[char])
        ensures
            same_but_effects(*final(self), *old(self)),
            effects_of(final(self).effects) == with_effect_of(effects_of(old(self).effects), v@),
    {
        match effect_named_chars(v) {
            Some(effect) => {
                self.effects = self.effects.insert(single_effect(effect));
            },
            None => {},
        }
    }

    /// Adds the effect that a style directive names, if it names one.
    pub fn parse_and_set_effect(&mut self, part: &str)
        ensures
            same_but_effects(*final(self), *old(self)),
            effects_of(final(self).effects) == with_effect_of(effects_of(old(self).effects), part@),
    {
        let v = chars_of(part);
        self.set_effect_chars(v.as_slice())
    }

    /// Renders `text` in this part's style, palette colors resolved against
    /// the current theme.
    pub fn format_string(&self, text: &str, state: &ZellijState) -> (r: String)
        ensures
            r@ == rendered(*self, text@, state.colors),
    {
        let fg = match &self.fg {
            Some(fg_source) => resolve_color_source(fg_source, state),
            None => None,
        };
        let bg = match &self.bg {
            Some(bg_source) => resolve_color_source(bg_source, state),
            None => None,
        };
        let us = match &self.us {
            Some(us_source) => resolve_color_source(us_source, state),
            None => None,
        };
        let reset = render_style_reset(fg, bg, us, self.effects);
        let codes = render_style_codes(fg, bg, us, self.effects);
        let mut out = reset.clone();
        out.append(codes.as_str());
        out.append(text);
        out.append(reset.as_str());
        out
    }

    /// Replaces one placeholder in `output` as [`widget_step`] describes;
    /// the ghost result is the widget output that was asked for, if any.
    fn replace_placeholder<W: Widget>(
        &mut self,
        widgets: &TextMap<W>,
        state: &ZellijState,
        match_name: &str,
        output: Vec<char>,
    ) -> (r: (Vec<char>, Ghost<Seq<char>>))
        requires
            match_name@.len() >= 3,
        ensures
            ({
                let step = widget_step(
                    output@,
                    cache_text(old(self).cache.view()),
                    match_name@,
                    r.1@,
                    state.cache_mask,
                    widgets.view().dom(),
                );
                &&& r.0@ == step.0
                &&& cache_text(final(self).cache.view()) == step.1
            }),
            ({
                let key = placeholder_key(match_name@);
                let name = widget_of_key(key);
                (!served_from_cache(cache_text(old(self).cache.view()), match_name@, state.cache_mask)
                    && widgets.view().contains_key(name)) ==> widgets.view()[name].produces(
                    key,
                    *state,
                    r.1@,
                )
            }),
            same_style_and_content(*final(self), *old(self)),
            final(self).cached_content == old(self).cached_content,
    {
        let m = chars_of(match_name);
        let (widget_key, widget_key_name) = widget_key_and_name(match_name);
        let key_text = string_of(widget_key.as_slice(), 0, widget_key.len());
        let name_text = string_of(widget_key_name.as_slice(), 0, widget_key_name.len());
        assert(widget_key@.subrange(0, widget_key@.len() as int) == widget_key@);
        assert(widget_key_name@.subrange(0, widget_key_name@.len() as int) == widget_key_name@);
        let widget_mask = crate::mask::event_mask_from_widget_name(name_text.as_str());
        let skip_widget_cache = widget_mask & EVENT_ALWAYS != 0;
        let ghost prev_cache = cache_text(self.cache.view());
        if !skip_widget_cache && widget_mask & state.cache_mask == 0 {
            match self.cache.get(key_text.as_str()) {
                Some(res) => {
                    let r = chars_of(res.as_str());
                    let next = replace_chars(output.as_slice(), m.as_slice(), r.as_slice());
                    assert(prev_cache.contains_key(widget_key@));
                    assert(prev_cache[widget_key@] == r@);
                    return (next, Ghost(Seq::<char>::empty()));
                },
                None => {},
            }
        }
        let result = match widgets.get(name_text.as_str()) {
            Some(widget) => widget.process(key_text.as_str(), state),
            None => "Use of uninitialized widget".to_owned(),
        };
        let ghost result_view = result@;
        let r = chars_of(result.as_str());
        self.cache.insert(key_text, result);
        let next = replace_chars(output.as_slice(), m.as_slice(), r.as_slice());
        assert(cache_text(self.cache.view()) =~= prev_cache.insert(widget_key@, result_view));
        (next, Ghost(result_view))
    }

    /// Renders the part: the cached rendering when nothing it depends on
    /// changed, else its text with each widget placeholder replaced (by
    /// cached widget output where still valid, else by what the registered
    /// widget gives for the placeholder's full key), which is then cached.
    pub fn format_string_with_widgets<W: Widget>(
        &mut self,
        widgets: &TextMap<W>,
        state: &ZellijState,
    ) -> (r: String)
        ensures
            cache_hit(*old(self), state.cache_mask) ==> {
                &&& r@ == old(self).cached_content@
                &&& *final(self) == *old(self)
            },
            !cache_hit(*old(self), state.cache_mask) ==> {
                &&& same_style_and_content(*final(self), *old(self))
                &&& final(self).cached_content@ == r@
                &&& exists|fresh: Seq<Seq<char>>|
                    #![trigger widget_pass(old(self).content@, cache_text(old(self).cache.view()), widget_placeholders(old(self).content@), fresh, state.cache_mask, widgets.view().dom())]
                    {
                        let ms = widget_placeholders(old(self).content@);
                        let pass = widget_pass(
                            old(self).content@,
                            cache_text(old(self).cache.view()),
                            ms,
                            fresh,
                            state.cache_mask,
                            widgets.view().dom(),
                        );
                        &&& fresh.len() == ms.len()
                        &&& outputs_produced(
                            widgets.view(),
                            *state,
                            old(self).content@,
                            cache_text(old(self).cache.view()),
                            ms,
                            fresh,
                            ms.len() as int,
                        )
                        &&& r@ == rendered(*old(self), pass.0, state.colors)
                        &&& cache_text(final(self).cache.view()) == pass.1
                    }
            },
    {
        let skip_cache = self.cache_mask & EVENT_ALWAYS != 0;
        if !skip_cache && self.cache_mask & state.cache_mask == 0 && !self.cache.is_empty() {
            return self.cached_content.clone();
        }
        let matches = widget_placeholders_in(self.content.as_str());
        let ghost ms = matches@.map_values(|m: String| m@);
        proof {
            lemma_placeholder_shape(self.content@);
        }
        let mut output = chars_of(self.content.as_str());
        let ghost mut fresh: Seq<Seq<char>> = seq![];
        let mut i: usize = 0;
        while i < matches.len()
            invariant
                ms == matches@.map_values(|m: String| m@),
                ms == widget_placeholders(old(self).content@),
                forall|k: int|
                    0 <= k < ms.len() ==> {
                        let m = #[trigger] ms[k];
                        &&& m.len() >= 3
                    },
                i <= ms.len(),
                fresh.len() == i,
                same_style_and_content(*self, *old(self)),
                self.cached_content == old(self).cached_content,
                ({
                    let pass = widget_pass(
                        old(self).content@,
                        cache_text(old(self).cache.view()),
                        ms.take(i as int),
                        fresh,
                        state.cache_mask,
                        widgets.view().dom(),
                    );
                    &&& output@ == pass.0
                    &&& cache_text(self.cache.view()) == pass.1
                }),
                outputs_produced(
                    widgets.view(),
                    *state,
                    old(self).content@,
                    cache_text(old(self).cache.view()),
                    ms,
                    fresh,
                    i as int,
                ),
            decreases ms.len() - i,
        {
            assert(ms[i as int] == matches@[i as int]@);
            let (next, Ghost(used)) = self.replace_placeholder(
                widgets,
                state,
                matches[i].as_str(),
                output,
            );
            output = next;
            proof {
                let known = widgets.view().dom();
                let prev_fresh = fresh;
                fresh = fresh.push(used);
                lemma_widget_pass_fresh_prefix(
                    old(self).content@,
                    cache_text(old(self).cache.view()),
                    ms.take(i as int),
                    prev_fresh,
                    fresh,
                    state.cache_mask,
                    known,
                );
                assert(ms.take(i + 1).drop_last() == ms.take(i as int));
                assert(ms.take(i + 1).last() == ms[i as int]);
                assert forall|k: int| 0 <= k < i + 1 implies {
                    let before = widget_pass(
                        old(self).content@,
                        cache_text(old(self).cache.view()),
                        ms.take(k),
                        fresh,
                        state.cache_mask,
                        known,
                    ).1;
                    let key = placeholder_key(ms[k]);
                    let name = widget_of_key(key);
                    (!served_from_cache(before, ms[k], state.cache_mask) && widgets.view().contains_key(name))
                        ==> widgets.view()[name].produces(key, *state, #[trigger] fresh[k])
                } by {
                    lemma_widget_pass_fresh_prefix(
                        old(self).content@,
                        cache_text(old(self).cache.view()),
                        ms.take(k),
                        prev_fresh,
                        fresh,
                        state.cache_mask,
                        known,
                    );
                    if k < i {
                        assert(fresh[k] == prev_fresh[k]);
                    } else {
                        assert(ms.take(k) == ms.take(i as int));
                    }
                }
            }
            i += 1;
        }
        let output_text = string_of(output.as_slice(), 0, output.len());
        assert(output@.subrange(0, output@.len() as int) == output@);
        assert(ms.take(ms.len() as int) == ms);
        let res = self.format_string(output_text.as_str(), state);
        self.cached_content = res.clone();
        assert(rendered(*self, output@, state.colors) == rendered(*old(self), output@, state.colors));
        res
    }
}

} // verus!
