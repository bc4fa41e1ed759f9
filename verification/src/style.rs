//! Colours, frames, icons and labels that belong to each tier.

use vstd::prelude::*;
use crate::text::str_eq;

verus! {

/// Resets every terminal attribute.
pub const RESET: &'static str = "\x1b[0m";

/// Bold text.
pub const BOLD: &'static str = "\x1b[1m";

/// Dim text.
pub const DIM: &'static str = "\x1b[2m";

/// Green text.
pub const GREEN: &'static str = "\x1b[38;2;120;220;120m";

/// Cyan text.
pub const CYAN: &'static str = "\x1b[38;2;120;200;230m";

/// Columns of a card, frame included.
pub const CARD_WIDTH: usize = 32;

/// Columns between two cards laid side by side.
pub const CARD_GAP: usize = 3;

/// Cards offered at each pick.
pub const CHOICES_PER_PICK: usize = 3;

/// Columns of the synergy panel: three cards and the gaps between them.
pub const PANEL_WIDTH: usize = CARD_WIDTH * CHOICES_PER_PICK + CARD_GAP * (CHOICES_PER_PICK - 1);

/// The characters that draw a card's frame.
pub struct Borders {
    pub tl: &'static str,
    pub tr: &'static str,
    pub bl: &'static str,
    pub br: &'static str,
    pub h: &'static str,
    pub v: &'static str,
    pub div_l: &'static str,
    pub div_r: &'static str,
}

/// A frame's characters as plain text.
pub struct BordersView {
    pub tl: Seq<char>,
    pub tr: Seq<char>,
    pub bl: Seq<char>,
    pub br: Seq<char>,
    pub h: Seq<char>,
    pub v: Seq<char>,
    pub div_l: Seq<char>,
    pub div_r: Seq<char>,
}

impl View for Borders {
    type V = BordersView;

    open spec fn view(&self) -> BordersView {
        BordersView {
            tl: self.tl@,
            tr: self.tr@,
            bl: self.bl@,
            br: self.br@,
            h: self.h@,
            v: self.v@,
            div_l: self.div_l@,
            div_r: self.div_r@,
        }
    }
}

/// The rounded frame of silver cards.
pub open spec fn silver_frame() -> BordersView {
    BordersView {
        tl: "╭"@,
        tr: "╮"@,
        bl: "╰"@,
        br: "╯"@,
        h: "─"@,
        v: "│"@,
        div_l: "├"@,
        div_r: "┤"@,
    }
}

/// The heavy frame of gold cards.
pub open spec fn gold_frame() -> BordersView {
    BordersView {
        tl: "┏"@,
        tr: "┓"@,
        bl: "┗"@,
        br: "┛"@,
        h: "━"@,
        v: "┃"@,
        div_l: "┠"@,
        div_r: "┨"@,
    }
}

/// The double frame of prism cards.
pub open spec fn prism_frame() -> BordersView {
    BordersView {
        tl: "╔"@,
        tr: "╗"@,
        bl: "╚"@,
        br: "╝"@,
        h: "═"@,
        v: "║"@,
        div_l: "╟"@,
        div_r: "╢"@,
    }
}

/// The frame of a tier; an unknown tier is drawn as silver.
pub open spec fn borders_spec(tier: Seq<char>) -> BordersView {
    if tier == "silver"@ {
        silver_frame()
    } else if tier == "gold"@ {
        gold_frame()
    } else if tier == "prism"@ {
        prism_frame()
    } else {
        silver_frame()
    }
}

/// The frame of a tier; an unknown tier is drawn as silver.
pub fn borders_for(tier: &str) -> (b: Borders)
    ensures
        b@ == borders_spec(tier@),
{
    if str_eq(tier, "silver") {
        Borders { tl: "╭", tr: "╮", bl: "╰", br: "╯", h: "─", v: "│", div_l: "├", div_r: "┤" }
    } else if str_eq(tier, "gold") {
        Borders { tl: "┏", tr: "┓", bl: "┗", br: "┛", h: "━", v: "┃", div_l: "┠", div_r: "┨" }
    } else if str_eq(tier, "prism") {
        Borders { tl: "╔", tr: "╗", bl: "╚", br: "╝", h: "═", v: "║", div_l: "╟", div_r: "╢" }
    } else {
        Borders { tl: "╭", tr: "╮", bl: "╰", br: "╯", h: "─", v: "│", div_l: "├", div_r: "┤" }
    }
}

/// The name of a tier as shown to the player; "?" for an unknown tier.
pub open spec fn tier_label_spec(tier: Seq<char>) -> Seq<char> {
    if tier == "silver"@ {
        "실버"@
    } else if tier == "gold"@ {
        "골드"@
    } else if tier == "prism"@ {
        "프리즘"@
    } else {
        "?"@
    }
}

/// The name of a tier as shown to the player; "?" for an unknown tier.
pub fn tier_label(tier: &str) -> (r: &'static str)
    ensures
        r@ == tier_label_spec(tier@),
{
    if str_eq(tier, "silver") {
        "실버"
    } else if str_eq(tier, "gold") {
        "골드"
    } else if str_eq(tier, "prism") {
        "프리즘"
    } else {
        "?"
    }
}

/// The colour sequence of a tier; empty for an unknown tier.
pub open spec fn tier_color_spec(tier: Seq<char>) -> Seq<char> {
    if tier == "silver"@ {
        "\x1b[38;2;200;200;210m"@
    } else if tier == "gold"@ {
        "\x1b[38;2;255;200;75m"@
    } else if tier == "prism"@ {
        "\x1b[38;2;230;130;230m"@
    } else {
        ""@
    }
}

/// The colour sequence of a tier; empty for an unknown tier.
pub fn tier_color(tier: &str) -> (r: &'static str)
    ensures
        r@ == tier_color_spec(tier@),
{
    if str_eq(tier, "silver") {
        "\x1b[38;2;200;200;210m"
    } else if str_eq(tier, "gold") {
        "\x1b[38;2;255;200;75m"
    } else if str_eq(tier, "prism") {
        "\x1b[38;2;230;130;230m"
    } else {
        ""
    }
}

/// The four rows of the silver gem.
pub open spec fn silver_icon() -> Seq<Seq<char>> {
    seq![
        "     ▟████▙     "@,
        "    ▟██████▙    "@,
        "    ▜██████▛    "@,
        "     ▜████▛     "@,
    ]
}

/// The four rows of the gold coin.
pub open spec fn gold_icon() -> Seq<Seq<char>> {
    seq![
        "       ▄▄▄▄     "@,
        "     ▟██████▙   "@,
        "     ▜██████▛   "@,
        "       ▀▀▀▀     "@,
    ]
}

/// The four rows of the prism crystal.
pub open spec fn prism_icon() -> Seq<Seq<char>> {
    seq![
        "     ▄▟▙▄▟▙▄    "@,
        "    ▟██▜█▛██▙   "@,
        "    ▜██▟█▙██▛   "@,
        "     ▀▜▛▀▜▛▀    "@,
    ]
}

/// The icon of a tier; an unknown tier shows the silver gem.
pub open spec fn icon_spec(tier: Seq<char>) -> Seq<Seq<char>> {
    if tier == "silver"@ {
        silver_icon()
    } else if tier == "gold"@ {
        gold_icon()
    } else if tier == "prism"@ {
        prism_icon()
    } else {
        silver_icon()
    }
}

/// The icon of a tier; an unknown tier shows the silver gem.
pub fn icon_for(tier: &str) -> (r: [&'static str; 4])
    ensures
        r@.map_values(|x: &str| x@) == icon_spec(tier@),
{
    let r = if str_eq(tier, "silver") {
        ["     ▟████▙     ", "    ▟██████▙    ", "    ▜██████▛    ", "     ▜████▛     "]
    } else if str_eq(tier, "gold") {
        ["       ▄▄▄▄     ", "     ▟██████▙   ", "     ▜██████▛   ", "       ▀▀▀▀     "]
    } else if str_eq(tier, "prism") {
        ["     ▄▟▙▄▟▙▄    ", "    ▟██▜█▛██▙   ", "    ▜██▟█▙██▛   ", "     ▀▜▛▀▜▛▀    "]
    } else {
        ["     ▟████▙     ", "    ▟██████▙    ", "    ▜██████▛    ", "     ▜████▛     "]
    };
    assert(r@.map_values(|x: &str| x@) =~= icon_spec(tier@));
    r
}

} // verus!
