//! Widget placeholders (`{name}`) in format strings and the update masks
//! that tell which events make a rendered part stale.
use vstd::prelude::*;

use crate::text::{chars_between, chars_of, equals_str, has_prefix, starts_with};

verus! {

/// No event invalidates the part.
pub const EVENT_NONE: u8 = 0b0000_0000;

/// A mode change (also the theme: palette colors follow the mode).
pub const EVENT_MODE: u8 = 0b0000_0001;

/// A tab or pane change.
pub const EVENT_TAB: u8 = 0b0000_0011;

/// A session change.
pub const EVENT_SESSION: u8 = 0b0000_0101;

/// A command result.
pub const EVENT_COMMAND: u8 = 0b0000_1000;

/// Re-render on every render pass.
pub const EVENT_ALWAYS: u8 = 0b1000_0000;

/// Characters allowed in a widget name.
pub open spec fn is_widget_name_char(c: char) -> bool {
    ('a' <= c && c <= 'z') || c == '_' || ('0' <= c && c <= '9')
}

/// How many widget-name characters `s` starts with.
pub open spec fn name_run(s: Seq<char>) -> nat
    decreases s.len(),
{
    if s.len() > 0 && is_widget_name_char(s[0]) {
        1 + name_run(s.drop_first())
    } else {
        0
    }
}

/// The length of the placeholder `{name}` (name non-empty) that `s` starts
/// with, if it starts with one.
pub open spec fn placeholder_len(s: Seq<char>) -> Option<nat> {
    if s.len() > 0 && s[0] == '{' {
        let k = name_run(s.drop_first());
        if k >= 1 && k + 1 < s.len() && s[k + 1 as int] == '}' {
            Some(k + 2)
        } else {
            None
        }
    } else {
        None
    }
}

/// The successive non-overlapping, leftmost-first matches of the pattern
/// `\{[a-z_0-9]+\}` in `s`.
pub open spec fn widget_placeholders(s: Seq<char>) -> Seq<Seq<char>>
    decreases s.len(),
{
    if s.len() == 0 {
        seq![]
    } else {
        match placeholder_len(s) {
            Some(n) => if 0 < n <= s.len() {
                seq![s.take(n as int)] + widget_placeholders(s.skip(n as int))
            } else {
                widget_placeholders(s.drop_first())
            },
            None => widget_placeholders(s.drop_first()),
        }
    }
}

/// Trusted: the widget placeholders of `text`, in order, found by
/// `regex::Regex::new("(\\{[a-z_0-9]+\\})")` and `Regex::find_iter`. The
/// contract claims the successive non-overlapping, leftmost-first matches
/// that the regex crate documents, spelled out for this pattern in
/// [`widget_placeholders`].
#[verifier::external_body]
pub(crate) fn widget_placeholders_in(text: &str) -> (r: Vec<String>)
    ensures
        r@.map_values(|m: String| m@) == widget_placeholders(text@),
{
    let re = regex::Regex::new("(\\{[a-z_0-9]+\\})").unwrap();
    re.find_iter(text).map(|m| m.as_str().to_owned()).collect()
}

pub(crate) proof fn lemma_name_run(s: Seq<char>)
    ensures
        name_run(s) <= s.len(),
        forall|i: int| 0 <= i < name_run(s) ==> #[trigger] is_widget_name_char(s[i]),
        name_run(s) < s.len() ==> !is_widget_name_char(s[name_run(s) as int]),
    decreases s.len(),
{
    if s.len() > 0 && is_widget_name_char(s[0]) {
        lemma_name_run(s.drop_first());
        assert forall|i: int| 0 <= i < name_run(s) implies #[trigger] is_widget_name_char(s[i]) by {
            if i > 0 {
                assert(s[i] == s.drop_first()[i - 1]);
            }
        }
    }
}

/// Every placeholder is `{`, one or more name characters, then `}`.
pub proof fn lemma_placeholder_shape(s: Seq<char>)
    ensures
        forall|i: int|
            0 <= i < widget_placeholders(s).len() ==> {
                let m = #[trigger] widget_placeholders(s)[i];
                &&& m.len() >= 3
                &&& m[0] == '{'
                &&& m[m.len() - 1] == '}'
                &&& forall|j: int| 1 <= j < m.len() - 1 ==> is_widget_name_char(m[j])
            },
    decreases s.len(),
{
    if s.len() > 0 {
        match placeholder_len(s) {
            Some(n) => if 0 < n <= s.len() {
                lemma_placeholder_shape(s.skip(n as int));
                lemma_name_run(s.drop_first());
                let m = s.take(n as int);
                assert forall|j: int| 1 <= j < m.len() - 1 implies is_widget_name_char(m[j]) by {
                    assert(m[j] == s.drop_first()[j - 1]);
                }
                let ps = widget_placeholders(s);
                assert forall|i: int| 0 <= i < ps.len() implies {
                    let m = #[trigger] ps[i];
                    &&& m.len() >= 3
                    &&& m[0] == '{'
                    &&& m[m.len() - 1] == '}'
                    &&& forall|j: int| 1 <= j < m.len() - 1 ==> is_widget_name_char(m[j])
                } by {
                    if i > 0 {
                        assert(ps[i] == widget_placeholders(s.skip(n as int))[i - 1]);
                    } else {
                        assert(ps[i] == m);
                    }
                }
            } else {
                lemma_placeholder_shape(s.drop_first());
                assert(widget_placeholders(s) == widget_placeholders(s.drop_first()));
            },
            None => {
                lemma_placeholder_shape(s.drop_first());
                assert(widget_placeholders(s) == widget_placeholders(s.drop_first()));
            },
        }
    }
}

/// The widget key of a placeholder: the name between its braces.
pub open spec fn placeholder_key(m: Seq<char>) -> Seq<char> {
    m.subrange(1, m.len() - 1)
}

/// The widget a key refers to: `command_*` keys belong to the `command`
/// widget, `pipe_*` keys to the `pipe` widget, any other key to itself.
pub open spec fn widget_of_key(key: Seq<char>) -> Seq<char> {
    if has_prefix(key, "command_"@) {
        "command"@
    } else if has_prefix(key, "pipe_"@) {
        "pipe"@
    } else {
        key
    }
}

/// The events that make a widget's output stale.
pub open spec fn widget_event_mask(name: Seq<char>) -> u8 {
    if name == "command"@ {
        EVENT_ALWAYS
    } else if name == "datetime"@ {
        EVENT_ALWAYS
    } else if name == "mode"@ {
        EVENT_MODE
    } else if name == "notifications"@ {
        EVENT_ALWAYS
    } else if name == "session"@ {
        EVENT_MODE
    } else if name == "swap_layout"@ {
        EVENT_TAB
    } else if name == "tabs"@ {
        EVENT_TAB
    } else if name == "pipe"@ {
        EVENT_ALWAYS
    } else {
        EVENT_NONE
    }
}

fn event_mask_chars(v: &[char]) -> (m: u8)
    ensures
        m == widget_event_mask(v@),
{
    if equals_str(v, "command") {
        EVENT_ALWAYS
    } else if equals_str(v, "datetime") {
        EVENT_ALWAYS
    } else if equals_str(v, "mode") {
        EVENT_MODE
    } else if equals_str(v, "notifications") {
        EVENT_ALWAYS
    } else if equals_str(v, "session") {
        EVENT_MODE
    } else if equals_str(v, "swap_layout") {
        EVENT_TAB
    } else if equals_str(v, "tabs") {
        EVENT_TAB
    } else if equals_str(v, "pipe") {
        EVENT_ALWAYS
    } else {
        EVENT_NONE
    }
}

/// The events that make the named widget's output stale.
pub fn event_mask_from_widget_name(name: &str) -> (m: u8)
    ensures
        m == widget_event_mask(name@),
{
    let v = chars_of(name);
    event_mask_chars(v.as_slice())
}

/// The key of a placeholder and the widget it refers to.
pub fn widget_key_and_name(placeholder: &str) -> (r: (Vec<char>, Vec<char>))
    requires
        placeholder@.len() >= 2,
    ensures
        r.0@ == placeholder_key(placeholder@),
        r.1@ == widget_of_key(placeholder_key(placeholder@)),
{
    let v = chars_of(placeholder);
    let key = chars_between(v.as_slice(), 1, v.len() - 1);
    let command = chars_of("command_");
    let pipe = chars_of("pipe_");
    let name = if starts_with(key.as_slice(), command.as_slice()) {
        chars_of("command")
    } else if starts_with(key.as_slice(), pipe.as_slice()) {
        chars_of("pipe")
    } else {
        chars_between(key.as_slice(), 0, key.len())
    };
    assert(key@.subrange(0, key@.len() as int) == key@);
    (key, name)
}

/// The update mask of a sequence of placeholders: the union of the masks of
/// the widgets they refer to.
pub open spec fn placeholders_mask(ms: Seq<Seq<char>>) -> u8
    decreases ms.len(),
{
    if ms.len() == 0 {
        EVENT_NONE
    } else {
        placeholders_mask(ms.drop_last()) | widget_event_mask(
            widget_of_key(placeholder_key(ms.last())),
        )
    }
}

/// The update mask of a text: the union of the masks of its widgets.
pub open spec fn content_mask(content: Seq<char>) -> u8 {
    placeholders_mask(widget_placeholders(content))
}

/// The union of the update masks of the widgets that `content` refers to.
pub fn cache_mask_from_content(content: &str) -> (m: u8)
    ensures
        m == content_mask(content@),
{
    let matches = widget_placeholders_in(content);
    let ghost ms = matches@.map_values(|m: String| m@);
    proof {
        lemma_placeholder_shape(content@);
    }
    let mut output: u8 = EVENT_NONE;
    let mut i: usize = 0;
    while i < matches.len()
        invariant
            ms == matches@.map_values(|m: String| m@),
            ms == widget_placeholders(content@),
            i <= ms.len(),
            output == placeholders_mask(ms.take(i as int)),
            forall|k: int| 0 <= k < ms.len() ==> (#[trigger] ms[k]).len() >= 3,
        decreases ms.len() - i,
    {
        assert(ms[i as int] == matches@[i as int]@);
        let (_key, name) = widget_key_and_name(matches[i].as_str());
        output = output | event_mask_chars(name.as_slice());
        i += 1;
        assert(ms.take(i as int).drop_last() == ms.take(i - 1));
    }
    assert(ms.take(ms.len() as int) == ms);
    output
}

} // verus!
