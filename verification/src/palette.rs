//! The Zellij color palette that dynamic colors are resolved against: the
//! plain-value shape of Zellij's `Styling`, `StyleDeclaration`,
//! `MultiplayerColors` and `PaletteColor`.
use vstd::prelude::*;

verus! {

/// A palette entry: a true color or an index into the 256-color table.
#[derive(Clone, Copy, Debug, PartialEq, Eq)]
pub enum PaletteColor {
    Rgb((u8, u8, u8)),
    EightBit(u8),
}

/// The six colors of one style category.
#[derive(Clone, Copy, Debug, PartialEq, Eq)]
pub struct StyleDeclaration {
    pub base: PaletteColor,
    pub background: PaletteColor,
    pub emphasis_0: PaletteColor,
    pub emphasis_1: PaletteColor,
    pub emphasis_2: PaletteColor,
    pub emphasis_3: PaletteColor,
}

/// The colors assigned to the (up to ten) users of a shared session.
#[derive(Clone, Copy, Debug, PartialEq, Eq)]
pub struct MultiplayerColors {
    pub player_1: PaletteColor,
    pub player_2: PaletteColor,
    pub player_3: PaletteColor,
    pub player_4: PaletteColor,
    pub player_5: PaletteColor,
    pub player_6: PaletteColor,
    pub player_7: PaletteColor,
    pub player_8: PaletteColor,
    pub player_9: PaletteColor,
    pub player_10: PaletteColor,
}

/// The full theme: one declaration per style category; `frame_unselected`
/// may be absent (no frame for unselected panes).
#[derive(Clone, Copy, Debug, PartialEq, Eq)]
pub struct Styling {
    pub text_unselected: StyleDeclaration,
    pub text_selected: StyleDeclaration,
    pub ribbon_unselected: StyleDeclaration,
    pub ribbon_selected: StyleDeclaration,
    pub table_title: StyleDeclaration,
    pub table_cell_unselected: StyleDeclaration,
    pub table_cell_selected: StyleDeclaration,
    pub list_unselected: StyleDeclaration,
    pub list_selected: StyleDeclaration,
    pub frame_unselected: Option<StyleDeclaration>,
    pub frame_selected: StyleDeclaration,
    pub frame_highlight: StyleDeclaration,
    pub exit_code_success: StyleDeclaration,
    pub exit_code_error: StyleDeclaration,
    pub multiplayer_user_colors: MultiplayerColors,
}

/// What rendering reads of the plugin's state: the events seen since the
/// last render (as an update mask) and the current theme.
pub struct ZellijState {
    pub cache_mask: u8,
    pub colors: Styling,
}

impl Default for PaletteColor {
    fn default() -> (c: Self)
        ensures
            c == PaletteColor::EightBit(0),
    {
        PaletteColor::EightBit(0)
    }
}

/// A declaration whose six colors are all `c`.
pub open spec fn uniform_declaration(c: PaletteColor) -> StyleDeclaration {
    StyleDeclaration {
        base: c,
        background: c,
        emphasis_0: c,
        emphasis_1: c,
        emphasis_2: c,
        emphasis_3: c,
    }
}

impl Default for StyleDeclaration {
    fn default() -> (d: Self)
        ensures
            d == uniform_declaration(PaletteColor::EightBit(0)),
    {
        let c = PaletteColor::EightBit(0);
        StyleDeclaration {
            base: c,
            background: c,
            emphasis_0: c,
            emphasis_1: c,
            emphasis_2: c,
            emphasis_3: c,
        }
    }
}

impl Default for MultiplayerColors {
    fn default() -> (m: Self)
        ensures
            m.player_1 == PaletteColor::EightBit(0),
            m.player_2 == PaletteColor::EightBit(0),
            m.player_3 == PaletteColor::EightBit(0),
            m.player_4 == PaletteColor::EightBit(0),
            m.player_5 == PaletteColor::EightBit(0),
            m.player_6 == PaletteColor::EightBit(0),
            m.player_7 == PaletteColor::EightBit(0),
            m.player_8 == PaletteColor::EightBit(0),
            m.player_9 == PaletteColor::EightBit(0),
            m.player_10 == PaletteColor::EightBit(0),
    {
        let c = PaletteColor::EightBit(0);
        MultiplayerColors {
            player_1: c,
            player_2: c,
            player_3: c,
            player_4: c,
            player_5: c,
            player_6: c,
            player_7: c,
            player_8: c,
            player_9: c,
            player_10: c,
        }
    }
}

/// Shorthand for a declaration of 256-color indices.
pub open spec fn eight_bit_declaration(
    base: u8,
    e0: u8,
    e1: u8,
    e2: u8,
    e3: u8,
    background: u8,
) -> StyleDeclaration {
    StyleDeclaration {
        base: PaletteColor::EightBit(base),
        emphasis_0: PaletteColor::EightBit(e0),
        emphasis_1: PaletteColor::EightBit(e1),
        emphasis_2: PaletteColor::EightBit(e2),
        emphasis_3: PaletteColor::EightBit(e3),
        background: PaletteColor::EightBit(background),
    }
}

fn eight_bit(base: u8, e0: u8, e1: u8, e2: u8, e3: u8, background: u8) -> (d: StyleDeclaration)
    ensures
        d == eight_bit_declaration(base, e0, e1, e2, e3, background),
{
    StyleDeclaration {
        base: PaletteColor::EightBit(base),
        emphasis_0: PaletteColor::EightBit(e0),
        emphasis_1: PaletteColor::EightBit(e1),
        emphasis_2: PaletteColor::EightBit(e2),
        emphasis_3: PaletteColor::EightBit(e3),
        background: PaletteColor::EightBit(background),
    }
}

/// Zellij's built-in theme (256-color indices: bright gray 245, orange 166,
/// cyan 51, green 154, magenta 201, gray 238, black 16, red 124, white 255,
/// blue 45, yellow 226, gold 136, silver 245, purple 99, pink 207, brown 215).
pub open spec fn default_styling() -> Styling {
    Styling {
        text_unselected: eight_bit_declaration(245, 166, 51, 154, 201, 238),
        text_selected: eight_bit_declaration(245, 166, 51, 154, 201, 238),
        ribbon_unselected: eight_bit_declaration(16, 124, 255, 45, 201, 238),
        ribbon_selected: eight_bit_declaration(16, 124, 166, 201, 45, 154),
        exit_code_success: eight_bit_declaration(154, 51, 16, 201, 45, 238),
        exit_code_error: eight_bit_declaration(124, 226, 136, 245, 99, 238),
        frame_unselected: None,
        frame_selected: eight_bit_declaration(154, 166, 51, 201, 215, 238),
        frame_highlight: eight_bit_declaration(166, 201, 99, 154, 154, 154),
        table_title: eight_bit_declaration(154, 166, 51, 154, 201, 238),
        table_cell_unselected: eight_bit_declaration(245, 166, 51, 154, 201, 238),
        table_cell_selected: eight_bit_declaration(154, 166, 51, 124, 201, 238),
        list_unselected: eight_bit_declaration(245, 166, 51, 154, 201, 238),
        list_selected: eight_bit_declaration(154, 166, 51, 124, 201, 238),
        multiplayer_user_colors: MultiplayerColors {
            player_1: PaletteColor::EightBit(201),
            player_2: PaletteColor::EightBit(45),
            player_3: PaletteColor::EightBit(99),
            player_4: PaletteColor::EightBit(226),
            player_5: PaletteColor::EightBit(51),
            player_6: PaletteColor::EightBit(136),
            player_7: PaletteColor::EightBit(124),
            player_8: PaletteColor::EightBit(245),
            player_9: PaletteColor::EightBit(207),
            player_10: PaletteColor::EightBit(215),
        },
    }
}

impl Default for Styling {
    fn default() -> (s: Self)
        ensures
            s == default_styling(),
    {
        Styling {
            text_unselected: eight_bit(245, 166, 51, 154, 201, 238),
            text_selected: eight_bit(245, 166, 51, 154, 201, 238),
            ribbon_unselected: eight_bit(16, 124, 255, 45, 201, 238),
            ribbon_selected: eight_bit(16, 124, 166, 201, 45, 154),
            exit_code_success: eight_bit(154, 51, 16, 201, 45, 238),
            exit_code_error: eight_bit(124, 226, 136, 245, 99, 238),
            frame_unselected: None,
            frame_selected: eight_bit(154, 166, 51, 201, 215, 238),
            frame_highlight: eight_bit(166, 201, 99, 154, 154, 154),
            table_title: eight_bit(154, 166, 51, 154, 201, 238),
            table_cell_unselected: eight_bit(245, 166, 51, 154, 201, 238),
            table_cell_selected: eight_bit(154, 166, 51, 124, 201, 238),
            list_unselected: eight_bit(245, 166, 51, 154, 201, 238),
            list_selected: eight_bit(154, 166, 51, 124, 201, 238),
            multiplayer_user_colors: MultiplayerColors {
                player_1: PaletteColor::EightBit(201),
                player_2: PaletteColor::EightBit(45),
                player_3: PaletteColor::EightBit(99),
                player_4: PaletteColor::EightBit(226),
                player_5: PaletteColor::EightBit(51),
                player_6: PaletteColor::EightBit(136),
                player_7: PaletteColor::EightBit(124),
                player_8: PaletteColor::EightBit(245),
                player_9: PaletteColor::EightBit(207),
                player_10: PaletteColor::EightBit(215),
            },
        }
    }
}

} // verus!
