//! Properties that span several functions of the library.
use vstd::prelude::*;

use crate::color::{
    ansi_color_named, category_declaration, color_spec, declaration_field, direct_color,
    is_style_field, is_zellij_name, palette_to_color, player_color, player_index, source_view,
    zellij_color, AnsiColor, Color, ColorSourceView,
};
use crate::mask::{
    content_mask, is_widget_name_char, name_run, placeholder_key, placeholder_len,
    placeholders_mask, widget_event_mask, widget_of_key, widget_placeholders, EVENT_ALWAYS,
    EVENT_MODE,
};
use crate::numbers::{
    all_decimal, decimal_digit, decimal_value, hex_digit, hex_pair, hex_triple, parse_u8_decimal,
    HexColorError,
};
use crate::palette::{default_styling, PaletteColor, StyleDeclaration, Styling};
use crate::part::{
    apply_directive, apply_directives, cache_hit, cache_text, directives, effect_named,
    format_content, has_palette_color, no_style, parsed_from, rendered, resolved,
    served_from_cache, widget_pass, widget_step, without_opening, FormattedPart, StyleSpec,
};
use crate::style::{effects_of, reset_code, style_codes, style_reset, Effect};
use crate::text::{has_prefix, join_with, replace_all, lemma_join_split, lemma_split_tail, split_on, split_once};

verus! {

/// The names of the style categories all start with a lowercase letter.
proof fn lemma_category_starts_with_letter(category: Seq<char>)
    requires
        category_declaration(default_styling(), category) is Some,
    ensures
        category.len() > 0,
        'a' <= category[0] <= 'z',
{
    reveal_strlit("text_unselected");
    reveal_strlit("text_selected");
    reveal_strlit("ribbon_unselected");
    reveal_strlit("ribbon_selected");
    reveal_strlit("table_title");
    reveal_strlit("table_cell_unselected");
    reveal_strlit("table_cell_selected");
    reveal_strlit("list_unselected");
    reveal_strlit("list_selected");
    reveal_strlit("frame_unselected");
    reveal_strlit("frame_selected");
    reveal_strlit("frame_highlight");
    reveal_strlit("exit_code_success");
    reveal_strlit("exit_code_error");
}

/// A Zellij palette name starts with a lowercase letter.
proof fn lemma_palette_name_starts_with_letter(name: Seq<char>)
    requires
        is_zellij_name(name),
    ensures
        name.len() > 0,
        'a' <= name[0] <= 'z',
{
    if player_index(name) is Some {
        reveal_strlit("player_");
        assert(name.subrange(0, 7)[0] == name[0]);
    } else {
        let (category, field) = split_once(name, '.')->0;
        lemma_category_starts_with_letter(category);
        crate::text::lemma_first_occurrence(name, seq!['.']);
    }
}

/// A Zellij palette name is kept as a name when parsed, whatever the
/// configuration: it is resolved only when rendering.
pub proof fn lemma_palette_names_stay_symbolic(name: Seq<char>, config: Map<Seq<char>, String>)
    requires
        is_zellij_name(name),
    ensures
        color_spec(name, config) == Some(ColorSourceView::Zellij(name)),
{
    lemma_palette_name_starts_with_letter(name);
}

/// An alias whose configured value is itself an alias denotes no color:
/// aliases are resolved one level deep.
pub proof fn lemma_alias_resolution_single_level(c: Seq<char>, config: Map<Seq<char>, String>)
    requires
        c.len() > 0,
        c[0] == '$',
        config.contains_key(crate::color::alias_key(c)),
        config[crate::color::alias_key(c)]@.len() > 0,
        config[crate::color::alias_key(c)]@[0] == '$',
    ensures
        color_spec(c, config) is None,
{
}

/// Every name accepted as a palette name when parsing resolves to a color
/// when rendering, except `frame_unselected.*` when the theme has no
/// declaration for unselected frames.
pub proof fn lemma_palette_names_resolve(name: Seq<char>, styling: Styling)
    requires
        is_zellij_name(name),
    ensures
        zellij_color(name, styling) is None <==> ({
            &&& player_index(name) is None
            &&& split_once(name, '.') matches Some((category, _)) && category == "frame_unselected"@
            &&& styling.frame_unselected is None
        }),
{
    match player_index(name) {
        Some(n) => {
            assert(player_color(styling.multiplayer_user_colors, n) is Some);
        },
        None => {
            reveal_strlit("text_unselected");
            reveal_strlit("text_selected");
            reveal_strlit("ribbon_unselected");
            reveal_strlit("ribbon_selected");
            reveal_strlit("table_title");
            reveal_strlit("table_cell_unselected");
            reveal_strlit("table_cell_selected");
            reveal_strlit("list_unselected");
            reveal_strlit("list_selected");
            reveal_strlit("frame_unselected");
            reveal_strlit("frame_selected");
            reveal_strlit("frame_highlight");
            reveal_strlit("exit_code_success");
            reveal_strlit("exit_code_error");
            let (category, field) = split_once(name, '.')->0;
            assert(is_style_field(field));
            assert(category_declaration(default_styling(), category) is Some);
            if category == "frame_unselected"@ {
                assert("frame_unselected"@.len() == 16);
                assert("text_unselected"@.len() == 15);
                assert(category != "text_unselected"@);
                assert(category_declaration(styling, category) == Some(styling.frame_unselected));
            } else {
                assert(category_declaration(styling, category) matches Some(Some(_)));
            }
            match category_declaration(styling, category) {
                Some(Some(decl)) => {
                    assert(declaration_field(decl, field) is Some);
                },
                _ => {},
            }
        },
    }
}

/// A part that shows a palette color is rendered anew after a mode change
/// (the theme follows the mode).
pub proof fn lemma_palette_color_refreshes_on_mode_change(
    p: FormattedPart,
    format: Seq<char>,
    config: Map<Seq<char>, String>,
    events: u8,
)
    requires
        parsed_from(p, format, config),
        has_palette_color(apply_directives(no_style(), directives(format), config)),
        events & EVENT_MODE != 0,
    ensures
        !cache_hit(p, events),
{
    let m = content_mask(without_opening(format));
    assert((m | EVENT_MODE) & events != 0) by (bit_vector)
        requires
            events & EVENT_MODE != 0,
            EVENT_MODE == 1u8,
    ;
}

/// The mask of a list of placeholders holds every event of each of them.
proof fn lemma_mask_holds_each(ms: Seq<Seq<char>>, k: int)
    requires
        0 <= k < ms.len(),
    ensures
        placeholders_mask(ms) | widget_event_mask(widget_of_key(placeholder_key(ms[k])))
            == placeholders_mask(ms),
    decreases ms.len(),
{
    let a = placeholders_mask(ms.drop_last());
    let l = widget_event_mask(widget_of_key(placeholder_key(ms.last())));
    let m = widget_event_mask(widget_of_key(placeholder_key(ms[k])));
    if k == ms.len() - 1 {
        assert((a | l) | l == a | l) by (bit_vector);
    } else {
        lemma_mask_holds_each(ms.drop_last(), k);
        assert(ms.drop_last()[k] == ms[k]);
        assert((a | l) | m == a | l) by (bit_vector)
            requires
                a | m == a,
        ;
    }
}

/// A parsed part depends on the events of every widget it shows: when one
/// of them happens, or when the widget refreshes on every pass, the part is
/// rendered anew rather than taken from its cache.
pub proof fn lemma_widget_events_refresh_part(
    p: FormattedPart,
    format: Seq<char>,
    config: Map<Seq<char>, String>,
    k: int,
    events: u8,
)
    requires
        parsed_from(p, format, config),
        0 <= k < widget_placeholders(without_opening(format)).len(),
    ensures
        ({
            let mask = widget_event_mask(
                widget_of_key(placeholder_key(widget_placeholders(without_opening(format))[k])),
            );
            &&& events & mask != 0 ==> !cache_hit(p, events)
            &&& mask & EVENT_ALWAYS != 0 ==> !cache_hit(p, events)
        }),
{
    let ms = widget_placeholders(without_opening(format));
    let mask = widget_event_mask(widget_of_key(placeholder_key(ms[k])));
    let c = content_mask(without_opening(format));
    lemma_mask_holds_each(ms, k);
    let cm = p.cache_mask;
    assert(cm | mask == cm) by (bit_vector)
        requires
            c | mask == c,
            cm == c || cm == c | 1u8,
    ;
    assert(events & mask != 0 ==> events & cm != 0) by (bit_vector)
        requires
            cm | mask == cm,
    ;
    assert(mask & EVENT_ALWAYS != 0 ==> cm & EVENT_ALWAYS != 0) by (bit_vector)
        requires
            cm | mask == cm,
            EVENT_ALWAYS == 128u8,
    ;
}

/// Nothing of a segment is lost in parsing: its directives joined by `,`,
/// then `]`, then its content give back the segment (after its `#[`).
pub proof fn lemma_segment_reconstructs(format: Seq<char>)
    requires
        split_on(without_opening(format), seq![']']).len() > 1,
    ensures
        without_opening(format) == join_with(directives(format), seq![',']) + seq![']']
            + format_content(format),
{
    let f = without_opening(format);
    let pieces = split_on(f, seq![']']);
    lemma_split_tail(f, seq![']']);
    lemma_join_split(pieces[0], seq![',']);
    let i = crate::text::first_occurrence(f, seq![']'])->0;
    crate::text::lemma_first_occurrence(f, seq![']']);
    assert(f == f.take(i) + seq![']'] + f.skip(i + 1)) by {
        assert(f.subrange(i, i + 1) == seq![']']);
    }
}

/// Rendering fills the widget cache when the text has a placeholder.
pub proof fn lemma_pass_fills_cache(
    text: Seq<char>,
    cache: Map<Seq<char>, Seq<char>>,
    ms: Seq<Seq<char>>,
    fresh: Seq<Seq<char>>,
    events: u8,
    known: Set<Seq<char>>,
)
    requires
        ms.len() > 0,
    ensures
        widget_pass(text, cache, ms, fresh, events, known).1.contains_key(
            crate::mask::placeholder_key(ms.last()),
        ),
        widget_pass(text, cache, ms, fresh, events, known).1.dom() != Set::<Seq<char>>::empty(),
{
    let prev = widget_pass(text, cache, ms.drop_last(), fresh, events, known);
    let key = crate::mask::placeholder_key(ms.last());
    let next = widget_step(prev.0, prev.1, ms.last(), fresh[ms.len() - 1], events, known);
    assert(next.1.contains_key(key));
    if next.1.dom() == Set::<Seq<char>>::empty() {
        assert(!Set::<Seq<char>>::empty().contains(key));
    }
}

/// After a part with a placeholder has been rendered, rendering it again
/// before any of its events happens returns the cached rendering, as long as
/// none of its widgets refreshes on every pass.
pub proof fn lemma_second_render_hits(
    p: FormattedPart,
    text: Seq<char>,
    cache: Map<Seq<char>, Seq<char>>,
    fresh: Seq<Seq<char>>,
    first_events: u8,
    known: Set<Seq<char>>,
    second_events: u8,
)
    requires
        widget_placeholders(text).len() > 0,
        cache_text(p.cache.view()) == widget_pass(
            text,
            cache,
            widget_placeholders(text),
            fresh,
            first_events,
            known,
        ).1,
        p.cache_mask & EVENT_ALWAYS == 0,
        p.cache_mask & second_events == 0,
    ensures
        cache_hit(p, second_events),
{
    lemma_pass_fills_cache(text, cache, widget_placeholders(text), fresh, first_events, known);
    let ms = widget_placeholders(text);
    let k = crate::mask::placeholder_key(ms.last());
    assert(cache_text(p.cache.view()).contains_key(k));
    assert(p.cache.view().dom().contains(k));
    if p.cache.view().dom() == Set::<Seq<char>>::empty() {
        assert(!Set::<Seq<char>>::empty().contains(k));
    }
}

/// The text after `prefix` in the last of `parts` that starts with it.
pub open spec fn last_setting(parts: Seq<Seq<char>>, prefix: Seq<char>) -> Option<Seq<char>>
    decreases parts.len(),
{
    if parts.len() == 0 {
        None
    } else if has_prefix(parts.last(), prefix) {
        Some(parts.last().skip(prefix.len() as int))
    } else {
        last_setting(parts.drop_last(), prefix)
    }
}

/// The color that the last of `parts` starting with `prefix` names, or none
/// when no part starts with it.
pub open spec fn last_color_setting(
    parts: Seq<Seq<char>>,
    prefix: Seq<char>,
    config: Map<Seq<char>, String>,
) -> Option<ColorSourceView> {
    match last_setting(parts, prefix) {
        Some(c) => color_spec(c, config),
        None => None,
    }
}

/// The effects that some of `parts` names.
pub open spec fn named_effects(parts: Seq<Seq<char>>) -> Set<Effect> {
    Set::new(|e: Effect| exists|i: int| 0 <= i < parts.len() && effect_named(parts[i]) == Some(e))
}

proof fn lemma_apply_directives(st: StyleSpec, parts: Seq<Seq<char>>, config: Map<Seq<char>, String>)
    ensures
        ({
            let r = apply_directives(st, parts, config);
            &&& r.fg == match last_setting(parts, "fg="@) {
                Some(c) => color_spec(c, config),
                None => st.fg,
            }
            &&& r.bg == match last_setting(parts, "bg="@) {
                Some(c) => color_spec(c, config),
                None => st.bg,
            }
            &&& r.us == match last_setting(parts, "us="@) {
                Some(c) => color_spec(c, config),
                None => st.us,
            }
            &&& r.effects == st.effects.union(named_effects(parts))
            &&& r.reverse == (st.reverse || parts.contains("reverse"@))
        }),
    decreases parts.len(),
{
    if parts.len() > 0 {
        let init = parts.drop_last();
        let last = parts.last();
        lemma_apply_directives(st, init, config);
        let prev = apply_directives(st, init, config);
        let r = apply_directive(prev, last, config);
        assert(r == apply_directives(st, parts, config));
        assert(r.effects =~= st.effects.union(named_effects(parts))) by {
            assert forall|e: Effect| #[trigger] named_effects(parts).contains(e) implies
                named_effects(init).contains(e) || effect_named(last) == Some(e) by {
                let i = choose|i: int| 0 <= i < parts.len() && effect_named(parts[i]) == Some(e);
                if i < parts.len() - 1 {
                    assert(init[i] == parts[i]);
                }
            }
            assert forall|e: Effect| #[trigger] named_effects(init).contains(e) implies
                named_effects(parts).contains(e) by {
                let i = choose|i: int| 0 <= i < init.len() && effect_named(init[i]) == Some(e);
                assert(init[i] == parts[i]);
            }
            if let Some(e) = effect_named(last) {
                assert(parts[parts.len() - 1] == last);
                assert(named_effects(parts).contains(e));
            }
        }
        assert(parts.contains("reverse"@) == (init.contains("reverse"@) || last == "reverse"@)) by {
            if parts.contains("reverse"@) {
                let i = choose|i: int| 0 <= i < parts.len() && parts[i] == "reverse"@;
                if i < parts.len() - 1 {
                    assert(init[i] == parts[i]);
                }
            }
            if init.contains("reverse"@) {
                let i = choose|i: int| 0 <= i < init.len() && init[i] == "reverse"@;
                assert(parts[i] == init[i]);
            }
            if last == "reverse"@ {
                assert(parts[parts.len() - 1] == last);
            }
        }
    } else {
        assert(st.effects.union(named_effects(parts)) =~= st.effects);
    }
}

/// A segment's directives are the `,`-separated pieces before its first `]`,
/// and its content is everything after that `]` (later `]`s included).
proof fn lemma_directives_and_content(format: Seq<char>)
    requires
        split_once(without_opening(format), ']') is Some,
    ensures
        ({
            let (attrs, rest) = split_once(without_opening(format), ']')->0;
            &&& directives(format) == split_on(attrs, seq![','])
            &&& format_content(format) == rest
        }),
{
    let f = without_opening(format);
    crate::text::lemma_first_occurrence(f, seq![']']);
    let i = crate::text::first_occurrence(f, seq![']'])->0;
    let pieces = split_on(f, seq![']']);
    assert(pieces == seq![f.take(i)] + split_on(f.skip(i + 1), seq![']']));
    crate::text::lemma_split_on_nonempty(f.skip(i + 1), seq![']']);
}

/// In a segment's directives (the `,`-separated pieces before its first
/// `]`), the last `fg=` sets the foreground color, the last `bg=` the
/// background and the last `us=` the underline color; with no such
/// directive the part has no such color. Its content is everything after
/// the first `]`, later `]`s included.
pub proof fn lemma_last_color_directive_wins(
    p: FormattedPart,
    format: Seq<char>,
    config: Map<Seq<char>, String>,
)
    requires
        parsed_from(p, format, config),
        split_once(without_opening(format), ']') is Some,
    ensures
        ({
            let (attrs, rest) = split_once(without_opening(format), ']')->0;
            let parts = split_on(attrs, seq![',']);
            &&& source_view(p.fg) == last_color_setting(parts, "fg="@, config)
            &&& source_view(p.bg) == last_color_setting(parts, "bg="@, config)
            &&& source_view(p.us) == last_color_setting(parts, "us="@, config)
            &&& p.content@ == rest
        }),
{
    lemma_directives_and_content(format);
    lemma_apply_directives(no_style(), directives(format), config);
}

/// A part's effects are those that its directives name, taken together
/// (directives that name none add nothing), and it is reversed exactly when
/// one of its directives is `reverse`.
pub proof fn lemma_effects_are_union_of_directives(
    p: FormattedPart,
    format: Seq<char>,
    config: Map<Seq<char>, String>,
)
    requires
        parsed_from(p, format, config),
    ensures
        effects_of(p.effects) == named_effects(directives(format)),
        p.reverse == directives(format).contains("reverse"@),
{
    lemma_apply_directives(no_style(), directives(format), config);
    assert(Set::<Effect>::empty().union(named_effects(directives(format))) =~= named_effects(
        directives(format),
    ));
}

/// A character that cannot be part of a placeholder.
pub open spec fn breaks_placeholders(c: char) -> bool {
    !is_widget_name_char(c) && c != '{' && c != '}'
}

proof fn lemma_name_run_stops(x: Seq<char>, sep: char, y: Seq<char>)
    requires
        !is_widget_name_char(sep),
    ensures
        name_run(x + seq![sep] + y) == name_run(x),
    decreases x.len(),
{
    let s = x + seq![sep] + y;
    if x.len() > 0 {
        assert(s[0] == x[0]);
        assert(s.drop_first() == x.drop_first() + seq![sep] + y);
        lemma_name_run_stops(x.drop_first(), sep, y);
    } else {
        assert(s[0] == sep);
    }
}

proof fn lemma_placeholders_split(a: Seq<char>, sep: char, b: Seq<char>)
    requires
        breaks_placeholders(sep),
    ensures
        widget_placeholders(a + seq![sep] + b) == widget_placeholders(a) + widget_placeholders(b),
    decreases a.len(),
{
    let s = a + seq![sep] + b;
    if a.len() == 0 {
        assert(s[0] == sep);
        assert(s.drop_first() == b);
        assert(widget_placeholders(a) == Seq::<Seq<char>>::empty());
        assert(widget_placeholders(a) + widget_placeholders(b) == widget_placeholders(b));
    } else {
        assert(s[0] == a[0]);
        assert(s.drop_first() == a.drop_first() + seq![sep] + b);
        lemma_name_run_stops(a.drop_first(), sep, b);
        crate::mask::lemma_name_run(a.drop_first());
        let k = name_run(a.drop_first());
        if a[0] == '{' && k >= 1 && k + 1 < s.len() {
            if k + 1 < a.len() {
                assert(s[k + 1 as int] == a[k + 1 as int]);
            } else {
                assert(s[k + 1 as int] == sep);
            }
        }
        assert(placeholder_len(s) == placeholder_len(a));
        match placeholder_len(a) {
            Some(n) => {
                assert(s.take(n as int) == a.take(n as int));
                assert(s.skip(n as int) == a.skip(n as int) + seq![sep] + b);
                lemma_placeholders_split(a.skip(n as int), sep, b);
                assert(widget_placeholders(s) == seq![a.take(n as int)] + widget_placeholders(
                    a.skip(n as int) + seq![sep] + b,
                ));
                assert(seq![a.take(n as int)] + (widget_placeholders(a.skip(n as int))
                    + widget_placeholders(b)) == (seq![a.take(n as int)] + widget_placeholders(
                    a.skip(n as int),
                )) + widget_placeholders(b));
            },
            None => {
                lemma_placeholders_split(a.drop_first(), sep, b);
            },
        }
    }
}

proof fn lemma_placeholders_mask_concat(ms1: Seq<Seq<char>>, ms2: Seq<Seq<char>>)
    ensures
        placeholders_mask(ms1 + ms2) == placeholders_mask(ms1) | placeholders_mask(ms2),
    decreases ms2.len(),
{
    let a = placeholders_mask(ms1);
    if ms2.len() == 0 {
        assert(ms1 + ms2 == ms1);
        assert(a | 0u8 == a) by (bit_vector);
    } else {
        lemma_placeholders_mask_concat(ms1, ms2.drop_last());
        assert((ms1 + ms2).drop_last() == ms1 + ms2.drop_last());
        assert((ms1 + ms2).last() == ms2.last());
        let b = placeholders_mask(ms2.drop_last());
        let w = widget_event_mask(widget_of_key(placeholder_key(ms2.last())));
        assert((a | b) | w == a | (b | w)) by (bit_vector);
    }
}

/// A character that cannot be part of a placeholder (not in `[a-z0-9_{}]`)
/// splits the update mask: the mask of the joined text is the union of the
/// masks of both sides.
pub proof fn lemma_separator_splits_mask(a: Seq<char>, sep: char, b: Seq<char>)
    requires
        breaks_placeholders(sep),
    ensures
        content_mask(a + seq![sep] + b) == content_mask(a) | content_mask(b),
{
    lemma_placeholders_split(a, sep, b);
    lemma_placeholders_mask_concat(widget_placeholders(a), widget_placeholders(b));
}

/// The character of a decimal digit.
pub open spec fn digit_char(d: nat) -> char {
    if d == 0 {
        '0'
    } else if d == 1 {
        '1'
    } else if d == 2 {
        '2'
    } else if d == 3 {
        '3'
    } else if d == 4 {
        '4'
    } else if d == 5 {
        '5'
    } else if d == 6 {
        '6'
    } else if d == 7 {
        '7'
    } else if d == 8 {
        '8'
    } else {
        '9'
    }
}

/// The decimal text of `n`, without leading zeros.
pub open spec fn decimal_text(n: nat) -> Seq<char>
    decreases n,
{
    if n < 10 {
        seq![digit_char(n)]
    } else {
        decimal_text(n / 10).push(digit_char(n % 10))
    }
}

proof fn lemma_digit_char(d: nat)
    requires
        d < 10,
    ensures
        decimal_digit(digit_char(d)) == Some(d),
{
    assert('0' as nat == 48 && '9' as nat == 57);
    assert('1' as nat == 49 && '2' as nat == 50 && '3' as nat == 51 && '4' as nat == 52);
    assert('5' as nat == 53 && '6' as nat == 54 && '7' as nat == 55 && '8' as nat == 56);
}

proof fn lemma_decimal_text(n: nat)
    ensures
        decimal_text(n).len() > 0,
        all_decimal(decimal_text(n)),
        decimal_value(decimal_text(n)) == n,
        decimal_text(n)[0] != '+',
    decreases n,
{
    let t = decimal_text(n);
    if n < 10 {
        lemma_digit_char(n);
        assert(t.drop_last() == Seq::<char>::empty());
        assert(t.last() == digit_char(n));
        assert(decimal_value(t.drop_last()) == 0);
        assert(decimal_value(t) == 0 * 10 + n);
    } else {
        lemma_digit_char(n % 10);
        lemma_decimal_text(n / 10);
        let u = decimal_text(n / 10);
        assert(t.drop_last() == u);
        assert(t[0] == u[0]);
        assert forall|i: int| 0 <= i < t.len() implies (#[trigger] decimal_digit(t[i])) is Some by {
            if i < u.len() {
                assert(t[i] == u[i]);
            }
        }
        assert(t.last() == digit_char(n % 10));
        assert(decimal_value(t) == decimal_value(u) * 10 + n % 10);
        assert((n / 10) * 10 + n % 10 == n) by (nonlinear_arith);
    }
}

/// The decimal text of a number up to 255 parses back to that number.
pub proof fn lemma_decimal_parses_back(n: u8)
    ensures
        parse_u8_decimal(decimal_text(n as nat)) == Some(n),
{
    lemma_decimal_text(n as nat);
}

/// `player_` followed by the decimal text of a player number (1 to 10) is
/// that player's palette name.
pub proof fn lemma_player_name_parses_back(n: u8)
    requires
        1 <= n <= 10,
    ensures
        player_index("player_"@ + decimal_text(n as nat)) == Some(n),
{
    reveal_strlit("player_");
    let name = "player_"@ + decimal_text(n as nat);
    assert(name.take(7) == "player_"@);
    assert(name.skip(7) == decimal_text(n as nat));
    lemma_decimal_parses_back(n);
}

/// The cached rendering of a part is returned exactly when the part has
/// cached widget output, does not re-render on every pass, and none of the
/// events that happened is one of its events: a single shared event bit,
/// whichever it is, makes the part render anew.
pub proof fn lemma_shared_event_skips_cache(p: FormattedPart, events: u8)
    ensures
        p.cache_mask & events != 0 ==> !cache_hit(p, events),
        p.cache_mask & EVENT_ALWAYS != 0 ==> !cache_hit(p, events),
        cache_hit(p, events) <==> {
            &&& p.cache_mask & (events | EVENT_ALWAYS) == 0
            &&& p.cache.view().dom() != Set::<Seq<char>>::empty()
        },
{
    let m = p.cache_mask;
    assert(m & (events | 128u8) == 0 <==> (m & 128u8 == 0 && m & events == 0)) by (bit_vector);
}

/// A placeholder is filled from the widget cache exactly when its key is
/// cached, its widget does not refresh on every pass and none of the events
/// that happened is one of its widget's events.
pub proof fn lemma_shared_event_skips_widget_cache(
    cache: Map<Seq<char>, Seq<char>>,
    m: Seq<char>,
    events: u8,
)
    ensures
        ({
            let mask = widget_event_mask(widget_of_key(placeholder_key(m)));
            &&& mask & events != 0 ==> !served_from_cache(cache, m, events)
            &&& served_from_cache(cache, m, events) <==> {
                &&& mask & (events | EVENT_ALWAYS) == 0
                &&& cache.contains_key(placeholder_key(m))
            }
        }),
{
    let mask = widget_event_mask(widget_of_key(placeholder_key(m)));
    assert(mask & (events | 128u8) == 0 <==> (mask & 128u8 == 0 && mask & events == 0))
        by (bit_vector);
}

/// A part renders text with its own effects whatever its colors: the
/// style's codes are those of its resolved colors together with all of its
/// effects, and a part with any effect starts and ends with the reset code.
pub proof fn lemma_rendering_keeps_effects(p: FormattedPart, text: Seq<char>, styling: Styling)
    ensures
        ({
            let fg = resolved(p.fg, styling);
            let bg = resolved(p.bg, styling);
            let us = resolved(p.us, styling);
            let reset = style_reset(fg, bg, us, effects_of(p.effects));
            &&& rendered(p, text, styling) == reset + style_codes(fg, bg, us, effects_of(p.effects))
                + text + reset
            &&& effects_of(p.effects) != Set::<Effect>::empty() ==> rendered(p, text, styling)
                == reset_code() + style_codes(fg, bg, us, effects_of(p.effects)) + text
                + reset_code()
        }),
{
}

/// Every name that resolves to a color of the theme is also accepted as a
/// palette name when parsing.
pub proof fn lemma_resolvable_names_are_accepted(name: Seq<char>, styling: Styling)
    requires
        zellij_color(name, styling) is Some,
    ensures
        is_zellij_name(name),
{
    if player_index(name) is None {
        let (category, field) = split_once(name, '.')->0;
        assert(category_declaration(default_styling(), category) is Some);
        assert(is_style_field(field));
    }
}

/// `player_N` (N from 1 to 10) resolves to the theme's color for player N.
pub proof fn lemma_player_names_select_their_color(n: u8, styling: Styling)
    requires
        1 <= n <= 10,
    ensures
        ({
            let c = zellij_color("player_"@ + decimal_text(n as nat), styling);
            let m = styling.multiplayer_user_colors;
            &&& n == 1 ==> c == Some(palette_to_color(m.player_1))
            &&& n == 2 ==> c == Some(palette_to_color(m.player_2))
            &&& n == 3 ==> c == Some(palette_to_color(m.player_3))
            &&& n == 4 ==> c == Some(palette_to_color(m.player_4))
            &&& n == 5 ==> c == Some(palette_to_color(m.player_5))
            &&& n == 6 ==> c == Some(palette_to_color(m.player_6))
            &&& n == 7 ==> c == Some(palette_to_color(m.player_7))
            &&& n == 8 ==> c == Some(palette_to_color(m.player_8))
            &&& n == 9 ==> c == Some(palette_to_color(m.player_9))
            &&& n == 10 ==> c == Some(palette_to_color(m.player_10))
        }),
{
    lemma_player_name_parses_back(n);
}

/// The ASCII byte that writes the hexadecimal digit `d` (below 16), in
/// upper or lower case.
pub open spec fn hex_text_byte(d: u8, upper: bool) -> u8 {
    if d < 10 {
        (48 + d) as u8
    } else if upper {
        (55 + d) as u8
    } else {
        (87 + d) as u8
    }
}

/// A byte is an ASCII hexadecimal digit (`0-9`, `a-f`, `A-F`).
pub open spec fn is_hex_byte(b: u8) -> bool {
    exists|d: u8, upper: bool| d < 16 && hex_text_byte(d, upper) == b
}

proof fn lemma_hex_text_byte(d: u8, upper: bool)
    requires
        d < 16,
    ensures
        hex_digit(hex_text_byte(d, upper)) == Some(d),
        hex_text_byte(d, upper) != 43,
{
}

/// Every byte written as two hexadecimal digits (either case) reads back
/// as that byte.
pub proof fn lemma_hex_pair_round_trip(v: u8, upper: bool)
    ensures
        hex_pair(hex_text_byte(v / 16, upper), hex_text_byte(v % 16, upper)) == Some(v),
{
    lemma_hex_text_byte(v / 16, upper);
    lemma_hex_text_byte(v % 16, upper);
    assert((v / 16) * 16 + v % 16 == v) by (nonlinear_arith);
}

/// A two-byte group that does not start with `+` is read exactly when both
/// of its bytes are hexadecimal digits.
pub proof fn lemma_hex_pair_accepts_hex_digits(b0: u8, b1: u8)
    requires
        b0 != 43,
    ensures
        hex_pair(b0, b1) is Some <==> is_hex_byte(b0) && is_hex_byte(b1),
{
    assert forall|b: u8| #[trigger] hex_digit(b) is Some <==> is_hex_byte(b) by {
        if hex_digit(b) is Some {
            let d = hex_digit(b)->0;
            let upper = 65 <= b <= 70;
            assert(hex_text_byte(d, upper) == b);
        }
        if is_hex_byte(b) {
            let (d, upper) = choose|d: u8, upper: bool| d < 16 && hex_text_byte(d, upper) == b;
            lemma_hex_text_byte(d, upper);
        }
    }
}

/// The six hexadecimal digits of an `RRGGBB` color read back as its three
/// components.
pub proof fn lemma_rgb_text_round_trip(r: u8, g: u8, b: u8, upper: bool)
    ensures
        hex_triple(
            seq![
                hex_text_byte(r / 16, upper),
                hex_text_byte(r % 16, upper),
                hex_text_byte(g / 16, upper),
                hex_text_byte(g % 16, upper),
                hex_text_byte(b / 16, upper),
                hex_text_byte(b % 16, upper),
            ],
        ) == Ok::<Seq<u8>, HexColorError>(seq![r, g, b]),
{
    lemma_hex_pair_round_trip(r, upper);
    lemma_hex_pair_round_trip(g, upper);
    lemma_hex_pair_round_trip(b, upper);
}

/// Different style directives name different effects (`italic` and
/// `italics` are the one pair of spellings of the same effect), and every
/// effect has a directive that names it.
pub proof fn lemma_effect_names_are_distinct(a: Seq<char>, b: Seq<char>, e: Effect)
    ensures
        effect_named(a) is Some && effect_named(a) == effect_named(b) ==> a == b || (
        effect_named(a) == Some(Effect::Italic)),
        effect_named(a) == Some(Effect::Italic) ==> a == "italic"@ || a == "italics"@,
        exists|name: Seq<char>| effect_named(name) == Some(e),
{
    reveal_strlit("bold");
    reveal_strlit("italic");
    reveal_strlit("italics");
    reveal_strlit("underscore");
    reveal_strlit("blink");
    reveal_strlit("hidden");
    reveal_strlit("dim");
    reveal_strlit("strikethrough");
    reveal_strlit("double-underscore");
    reveal_strlit("curly-underscore");
    reveal_strlit("dotted-underscore");
    reveal_strlit("dashed-underscore");
    reveal_strlit("reverse");
    assert("bold"@.len() == 4);
    assert("italic"@.len() == 6 && "italic"@[0] == 'i');
    assert("italics"@.len() == 7 && "italics"@[0] == 'i');
    assert("underscore"@.len() == 10);
    assert("blink"@.len() == 5);
    assert("hidden"@.len() == 6 && "hidden"@[0] == 'h');
    assert("dim"@.len() == 3);
    assert("strikethrough"@.len() == 13);
    assert("double-underscore"@.len() == 17 && "double-underscore"@[1] == 'o' && "double-underscore"@[2] == 'u');
    assert("curly-underscore"@.len() == 16);
    assert("dotted-underscore"@.len() == 17 && "dotted-underscore"@[1] == 'o' && "dotted-underscore"@[2] == 't');
    assert("dashed-underscore"@.len() == 17 && "dashed-underscore"@[1] == 'a');
    assert("reverse"@.len() == 7 && "reverse"@[0] == 'r');
    match e {
        Effect::Bold => {
            assert(effect_named("bold"@) == Some(e));
        },
        Effect::Dimmed => {
            assert(effect_named("dim"@) == Some(e));
        },
        Effect::Italic => {
            assert(effect_named("italic"@) == Some(e));
        },
        Effect::Underline => {
            assert(effect_named("underscore"@) == Some(e));
        },
        Effect::DoubleUnderline => {
            assert(effect_named("double-underscore"@) == Some(e));
        },
        Effect::CurlyUnderline => {
            assert(effect_named("curly-underscore"@) == Some(e));
        },
        Effect::DottedUnderline => {
            assert(effect_named("dotted-underscore"@) == Some(e));
        },
        Effect::DashedUnderline => {
            assert(effect_named("dashed-underscore"@) == Some(e));
        },
        Effect::Blink => {
            assert(effect_named("blink"@) == Some(e));
        },
        Effect::Invert => {
            assert(effect_named("reverse"@) == Some(e));
        },
        Effect::Hidden => {
            assert(effect_named("hidden"@) == Some(e));
        },
        Effect::Strikethrough => {
            assert(effect_named("strikethrough"@) == Some(e));
        },
    }
}

/// Different names denote different terminal colors, and each of the
/// sixteen terminal colors has a name.
pub proof fn lemma_ansi_names_are_distinct(a: Seq<char>, b: Seq<char>, c: AnsiColor)
    ensures
        ansi_color_named(a) is Some && ansi_color_named(a) == ansi_color_named(b) ==> a == b,
        exists|name: Seq<char>| ansi_color_named(name) == Some(c),
{
    reveal_strlit("black");
    reveal_strlit("red");
    reveal_strlit("green");
    reveal_strlit("yellow");
    reveal_strlit("blue");
    reveal_strlit("magenta");
    reveal_strlit("cyan");
    reveal_strlit("white");
    reveal_strlit("bright_black");
    reveal_strlit("bright_red");
    reveal_strlit("bright_green");
    reveal_strlit("bright_yellow");
    reveal_strlit("bright_blue");
    reveal_strlit("bright_magenta");
    reveal_strlit("bright_cyan");
    reveal_strlit("bright_white");
    assert("black"@.len() == 5 && "black"@[0] == 'b');
    assert("red"@.len() == 3);
    assert("green"@.len() == 5 && "green"@[0] == 'g');
    assert("yellow"@.len() == 6);
    assert("blue"@.len() == 4 && "blue"@[0] == 'b');
    assert("magenta"@.len() == 7);
    assert("cyan"@.len() == 4 && "cyan"@[0] == 'c');
    assert("white"@.len() == 5 && "white"@[0] == 'w');
    assert("bright_black"@.len() == 12 && "bright_black"@[7] == 'b');
    assert("bright_red"@.len() == 10);
    assert("bright_green"@.len() == 12 && "bright_green"@[7] == 'g');
    assert("bright_yellow"@.len() == 13);
    assert("bright_blue"@.len() == 11 && "bright_blue"@[7] == 'b');
    assert("bright_magenta"@.len() == 14);
    assert("bright_cyan"@.len() == 11 && "bright_cyan"@[7] == 'c');
    assert("bright_white"@.len() == 12 && "bright_white"@[7] == 'w');
    match c {
        AnsiColor::Black => {
            assert(ansi_color_named("black"@) == Some(c));
        },
        AnsiColor::Red => {
            assert(ansi_color_named("red"@) == Some(c));
        },
        AnsiColor::Green => {
            assert(ansi_color_named("green"@) == Some(c));
        },
        AnsiColor::Yellow => {
            assert(ansi_color_named("yellow"@) == Some(c));
        },
        AnsiColor::Blue => {
            assert(ansi_color_named("blue"@) == Some(c));
        },
        AnsiColor::Magenta => {
            assert(ansi_color_named("magenta"@) == Some(c));
        },
        AnsiColor::Cyan => {
            assert(ansi_color_named("cyan"@) == Some(c));
        },
        AnsiColor::White => {
            assert(ansi_color_named("white"@) == Some(c));
        },
        AnsiColor::BrightBlack => {
            assert(ansi_color_named("bright_black"@) == Some(c));
        },
        AnsiColor::BrightRed => {
            assert(ansi_color_named("bright_red"@) == Some(c));
        },
        AnsiColor::BrightGreen => {
            assert(ansi_color_named("bright_green"@) == Some(c));
        },
        AnsiColor::BrightYellow => {
            assert(ansi_color_named("bright_yellow"@) == Some(c));
        },
        AnsiColor::BrightBlue => {
            assert(ansi_color_named("bright_blue"@) == Some(c));
        },
        AnsiColor::BrightMagenta => {
            assert(ansi_color_named("bright_magenta"@) == Some(c));
        },
        AnsiColor::BrightCyan => {
            assert(ansi_color_named("bright_cyan"@) == Some(c));
        },
        AnsiColor::BrightWhite => {
            assert(ansi_color_named("bright_white"@) == Some(c));
        },
    }
}

/// A declaration whose six colors all differ.
pub open spec fn distinct_declaration() -> StyleDeclaration {
    StyleDeclaration {
        base: PaletteColor::EightBit(0),
        background: PaletteColor::EightBit(1),
        emphasis_0: PaletteColor::EightBit(2),
        emphasis_1: PaletteColor::EightBit(3),
        emphasis_2: PaletteColor::EightBit(4),
        emphasis_3: PaletteColor::EightBit(5),
    }
}

/// The six field names select six different colors of a declaration, and
/// exactly the field names select one.
pub proof fn lemma_declaration_fields_are_distinct(f1: Seq<char>, f2: Seq<char>, d: StyleDeclaration)
    ensures
        declaration_field(d, f1) is Some <==> is_style_field(f1),
        (is_style_field(f1) && is_style_field(f2) && f1 != f2) ==> declaration_field(
            distinct_declaration(),
            f1,
        ) != declaration_field(distinct_declaration(), f2),
{
}

/// Decimal numbers above 255 are not read as a `u8`, and a leading `+` is
/// accepted before one that is.
pub proof fn lemma_decimal_range(n: nat)
    ensures
        n > 255 ==> parse_u8_decimal(decimal_text(n)) is None,
        n <= 255 ==> parse_u8_decimal(seq!['+'] + decimal_text(n)) == Some(n as u8),
{
    lemma_decimal_text(n);
    assert((seq!['+'] + decimal_text(n)).drop_first() == decimal_text(n));
}

/// A declaration whose six colors are all the 256-color index `k`.
pub open spec fn uniform_declaration(k: u8) -> StyleDeclaration {
    StyleDeclaration {
        base: PaletteColor::EightBit(k),
        background: PaletteColor::EightBit(k),
        emphasis_0: PaletteColor::EightBit(k),
        emphasis_1: PaletteColor::EightBit(k),
        emphasis_2: PaletteColor::EightBit(k),
        emphasis_3: PaletteColor::EightBit(k),
    }
}

/// A theme whose fourteen style declarations all differ.
pub open spec fn numbered_styling() -> Styling {
    Styling {
        text_unselected: uniform_declaration(0),
        text_selected: uniform_declaration(1),
        ribbon_unselected: uniform_declaration(2),
        ribbon_selected: uniform_declaration(3),
        exit_code_success: uniform_declaration(4),
        exit_code_error: uniform_declaration(5),
        frame_unselected: Some(uniform_declaration(6)),
        frame_selected: uniform_declaration(7),
        frame_highlight: uniform_declaration(8),
        table_title: uniform_declaration(9),
        table_cell_unselected: uniform_declaration(10),
        table_cell_selected: uniform_declaration(11),
        list_unselected: uniform_declaration(12),
        list_selected: uniform_declaration(13),
        multiplayer_user_colors: default_styling().multiplayer_user_colors,
    }
}

/// Different category names select different declarations of the theme.
pub proof fn lemma_categories_are_distinct(c1: Seq<char>, c2: Seq<char>)
    ensures
        (category_declaration(numbered_styling(), c1) is Some && c1 != c2 && category_declaration(
            numbered_styling(),
            c2,
        ) is Some) ==> category_declaration(numbered_styling(), c1) != category_declaration(
            numbered_styling(),
            c2,
        ),
{
    reveal_strlit("text_unselected");
    reveal_strlit("text_selected");
    reveal_strlit("ribbon_unselected");
    reveal_strlit("ribbon_selected");
    reveal_strlit("table_title");
    reveal_strlit("table_cell_unselected");
    reveal_strlit("table_cell_selected");
    reveal_strlit("list_unselected");
    reveal_strlit("list_selected");
    reveal_strlit("frame_unselected");
    reveal_strlit("frame_selected");
    reveal_strlit("frame_highlight");
    reveal_strlit("exit_code_success");
    reveal_strlit("exit_code_error");
    assert("text_unselected"@.len() == 15 && "text_unselected"@[0] == 't');
    assert("text_selected"@.len() == 13 && "text_selected"@[0] == 't');
    assert("ribbon_unselected"@.len() == 17 && "ribbon_unselected"@[0] == 'r');
    assert("ribbon_selected"@.len() == 15 && "ribbon_selected"@[0] == 'r');
    assert("table_title"@.len() == 11);
    assert("table_cell_unselected"@.len() == 21);
    assert("table_cell_selected"@.len() == 19);
    assert("list_unselected"@.len() == 15 && "list_unselected"@[0] == 'l');
    assert("list_selected"@.len() == 13 && "list_selected"@[0] == 'l');
    assert("frame_unselected"@.len() == 16);
    assert("frame_selected"@.len() == 14);
    assert("frame_highlight"@.len() == 15 && "frame_highlight"@[0] == 'f');
    assert("exit_code_success"@.len() == 17 && "exit_code_success"@[0] == 'e');
    assert("exit_code_error"@.len() == 15 && "exit_code_error"@[0] == 'e');
}

/// Keys `command_*` belong to the `command` widget and keys `pipe_*` to the
/// `pipe` widget, whatever follows the prefix.
pub proof fn lemma_prefixed_keys_belong_to_their_widget(rest: Seq<char>)
    ensures
        widget_of_key("command_"@ + rest) == "command"@,
        widget_of_key("pipe_"@ + rest) == "pipe"@,
{
    reveal_strlit("command_");
    reveal_strlit("pipe_");
    assert(("command_"@ + rest).take(8) == "command_"@);
    let k = "pipe_"@ + rest;
    assert(k.subrange(0, 5) == "pipe_"@);
    assert(k[0] == 'p');
    if has_prefix(k, "command_"@) {
        assert(k.subrange(0, 8)[0] == 'c');
    }
}

/// An alias `$name` whose configured `color_name` value is not itself an
/// alias denotes what that value denotes when written directly.
pub proof fn lemma_alias_reads_color_key(name: Seq<char>, config: Map<Seq<char>, String>)
    requires
        config.contains_key("color_"@ + name),
        !(config["color_"@ + name]@.len() > 0 && config["color_"@ + name]@[0] == '$'),
    ensures
        color_spec(seq!['$'] + name, config) == color_spec(config["color_"@ + name]@, config),
{
    assert((seq!['$'] + name).drop_first() == name);
}

proof fn lemma_no_dot(t: Seq<char>)
    requires
        forall|i: int| 0 <= i < t.len() ==> t[i] != '.',
    ensures
        split_once(t, '.') is None,
{
    crate::text::lemma_first_occurrence(t, seq!['.']);
    if let Some(i) = crate::text::first_occurrence(t, seq!['.']) {
        assert(t.subrange(i, i + 1)[0] == t[i]);
    }
}

/// A 256-color index is read from its decimal text, with or without the
/// `colour` prefix.
pub proof fn lemma_indexed_colors_parse(n: u8, config: Map<Seq<char>, String>)
    ensures
        color_spec(decimal_text(n as nat), config) == Some(
            ColorSourceView::Static(Color::Ansi256(n)),
        ),
        color_spec("colour"@ + decimal_text(n as nat), config) == Some(
            ColorSourceView::Static(Color::Ansi256(n)),
        ),
{
    reveal_strlit("player_");
    reveal_strlit("colour");
    reveal_strlit("black");
    reveal_strlit("red");
    reveal_strlit("green");
    reveal_strlit("yellow");
    reveal_strlit("blue");
    reveal_strlit("magenta");
    reveal_strlit("cyan");
    reveal_strlit("white");
    reveal_strlit("bright_black");
    reveal_strlit("bright_red");
    reveal_strlit("bright_green");
    reveal_strlit("bright_yellow");
    reveal_strlit("bright_blue");
    reveal_strlit("bright_magenta");
    reveal_strlit("bright_cyan");
    reveal_strlit("bright_white");
    assert("black"@.len() == 5 && "black"@[0] == 'b');
    assert("red"@.len() == 3 && "red"@[0] == 'r');
    assert("green"@.len() == 5 && "green"@[0] == 'g');
    assert("yellow"@.len() == 6 && "yellow"@[0] == 'y');
    assert("blue"@.len() == 4 && "blue"@[0] == 'b');
    assert("magenta"@.len() == 7 && "magenta"@[0] == 'm');
    assert("cyan"@.len() == 4 && "cyan"@[0] == 'c');
    assert("white"@.len() == 5 && "white"@[0] == 'w');
    assert("bright_black"@.len() == 12 && "bright_black"@[0] == 'b');
    assert("bright_red"@.len() == 10 && "bright_red"@[0] == 'b');
    assert("bright_green"@.len() == 12 && "bright_green"@[0] == 'b');
    assert("bright_yellow"@.len() == 13 && "bright_yellow"@[0] == 'b');
    assert("bright_blue"@.len() == 11 && "bright_blue"@[0] == 'b');
    assert("bright_magenta"@.len() == 14 && "bright_magenta"@[0] == 'b');
    assert("bright_cyan"@.len() == 11 && "bright_cyan"@[0] == 'b');
    assert("bright_white"@.len() == 12 && "bright_white"@[0] == 'b');
    let t = decimal_text(n as nat);
    lemma_decimal_text(n as nat);
    assert(decimal_digit(t[0]) is Some);
    assert forall|i: int| 0 <= i < t.len() implies t[i] != '.' by {
        assert(decimal_digit(t[i]) is Some);
    }
    lemma_no_dot(t);
    if has_prefix(t, "player_"@) {
        assert(t.subrange(0, 7)[0] == t[0]);
    }
    if has_prefix(t, "colour"@) {
        assert(t.subrange(0, 6)[0] == t[0]);
    }
    assert(direct_color(t) == Some(ColorSourceView::Static(Color::Ansi256(n))));
    let u = "colour"@ + t;
    assert(u[0] == 'c');
    assert(u.len() >= 7);
    assert forall|i: int| 0 <= i < u.len() implies u[i] != '.' by {
        if i >= 6 {
            assert(u[i] == t[i - 6]);
            assert(decimal_digit(t[i - 6]) is Some);
        }
    }
    lemma_no_dot(u);
    if has_prefix(u, "player_"@) {
        assert(u.subrange(0, 7)[0] == u[0]);
    }
    assert(u.subrange(0, 6) == "colour"@);
    assert(u.skip(6) == t);
    assert(direct_color(u) == Some(ColorSourceView::Static(Color::Ansi256(n))));
}

/// A render pass keeps every cached key and caches the key of every
/// placeholder it replaced.
pub proof fn lemma_pass_caches_every_key(
    text: Seq<char>,
    cache: Map<Seq<char>, Seq<char>>,
    ms: Seq<Seq<char>>,
    fresh: Seq<Seq<char>>,
    events: u8,
    known: Set<Seq<char>>,
)
    ensures
        forall|key: Seq<char>|
            #[trigger] cache.contains_key(key) ==> widget_pass(
                text,
                cache,
                ms,
                fresh,
                events,
                known,
            ).1.contains_key(key),
        forall|k: int|
            0 <= k < ms.len() ==> widget_pass(text, cache, ms, fresh, events, known).1.contains_key(
                placeholder_key(#[trigger] ms[k]),
            ),
    decreases ms.len(),
{
    if ms.len() > 0 {
        let init = ms.drop_last();
        lemma_pass_caches_every_key(text, cache, init, fresh, events, known);
        let prev = widget_pass(text, cache, init, fresh, events, known);
        let next = widget_pass(text, cache, ms, fresh, events, known);
        assert(next == widget_step(prev.0, prev.1, ms.last(), fresh[ms.len() - 1], events, known));
        assert forall|key: Seq<char>| #[trigger] prev.1.contains_key(key) implies next.1.contains_key(
            key,
        ) by {}
        assert forall|k: int| 0 <= k < ms.len() implies next.1.contains_key(
            placeholder_key(#[trigger] ms[k]),
        ) by {
            if k < ms.len() - 1 {
                assert(init[k] == ms[k]);
                assert(prev.1.contains_key(placeholder_key(init[k])));
            }
        }
    }
}

/// Each step writes into the text exactly what the cache holds for the
/// placeholder's key afterwards, and changes no other key of the cache.
pub proof fn lemma_step_output_matches_cache(
    text: Seq<char>,
    cache: Map<Seq<char>, Seq<char>>,
    m: Seq<char>,
    fresh: Seq<char>,
    events: u8,
    known: Set<Seq<char>>,
)
    ensures
        ({
            let step = widget_step(text, cache, m, fresh, events, known);
            let key = placeholder_key(m);
            &&& step.1.contains_key(key)
            &&& step.0 == replace_all(text, m, step.1[key])
            &&& forall|other: Seq<char>|
                other != key ==> (#[trigger] step.1.contains_key(other) <==> cache.contains_key(
                    other,
                )) && (cache.contains_key(other) ==> step.1[other] == cache[other])
        }),
{
}

} // verus!
