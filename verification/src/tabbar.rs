//! The tab line: each tab rendered with the theme's colours and the emoji
//! badge of its agents turned into a coloured marker.
use vstd::prelude::*;
use vstd::string::*;
use crate::model::TabInfo;
use crate::text::{chars_of, decimal, starts_with_chars, string_of};

verus! {

/// A colour of the theme: true colour or an index of the 256-colour palette.
#[derive(Clone, Copy, Debug, PartialEq, Eq, Structural)]
pub enum PaletteColor {
    Rgb(u8, u8, u8),
    EightBit(u8),
}

/// Foreground, background and weight of a piece of text.
#[derive(Clone, Copy, Debug, PartialEq, Eq, Structural)]
pub struct TextStyle {
    pub foreground: PaletteColor,
    pub background: PaletteColor,
    pub bold: bool,
}

/// The colours of one element of the theme.
#[derive(Clone, Copy, Debug, PartialEq, Eq, Structural)]
pub struct StyleDeclaration {
    pub base: PaletteColor,
    pub background: PaletteColor,
    pub emphasis_0: PaletteColor,
    pub emphasis_1: PaletteColor,
    pub emphasis_2: PaletteColor,
    pub emphasis_3: PaletteColor,
}

/// The colours that mark the other users' cursors.
#[derive(Clone, Copy, Debug, PartialEq, Eq, Structural)]
pub struct MultiplayerColors {
    pub player_1: PaletteColor,
    pub player_2: PaletteColor,
    pub player_3: PaletteColor,
    pub player_4: PaletteColor,
    pub player_5: PaletteColor,
    pub player_6: PaletteColor,
    pub player_7: PaletteColor,
    pub player_8: PaletteColor,
    pub player_9: PaletteColor,
    pub player_10: PaletteColor,
}

/// The parts of the theme that the tab line uses.
#[derive(Clone, Copy, Debug, PartialEq, Eq, Structural)]
pub struct Styling {
    pub text_unselected: StyleDeclaration,
    pub ribbon_unselected: StyleDeclaration,
    pub multiplayer_user_colors: MultiplayerColors,
}

/// What the terminal can draw.
#[derive(Clone, Copy, Debug, PartialEq, Eq, Structural)]
pub struct PluginCapabilities {
    pub arrow_fonts: bool,
}

/// A rendered piece of the tab line: its styled text, its width in columns,
/// and the tab it shows.
pub struct LinePart {
    pub part: String,
    pub len: usize,
    pub tab_index: Option<usize>,
}

impl Default for LinePart {
    fn default() -> (r: Self)
        ensures
            r.part@.len() == 0,
            r.len == 0,
            r.tab_index is None,
    {
        LinePart { part: String::new(), len: 0, tab_index: None }
    }
}

impl LinePart {
    /// Appends another part: its text follows and its width adds up.
    pub fn append(&mut self, to_append: &LinePart)
        requires
            old(self).len + to_append.len <= usize::MAX,
        ensures
            final(self).part@ == old(self).part@ + to_append.part@,
            final(self).len == old(self).len + to_append.len,
            final(self).tab_index == old(self).tab_index,
    {
        self.part.append(to_append.part.as_str());
        self.len = self.len + to_append.len;
    }
}

/// The digits that follow a colour's SGR selector (`38;` or `48;`): `5;n`
/// for a palette index, `2;r;g;b` for true colour.
pub open spec fn colour_code(c: PaletteColor) -> Seq<char> {
    match c {
        PaletteColor::Rgb(r, g, b) => "2;"@ + decimal(r as nat) + ";"@ + decimal(g as nat) + ";"@ + decimal(b as nat),
        PaletteColor::EightBit(n) => "5;"@ + decimal(n as nat),
    }
}

/// The escape code that `ansi_term` writes before text in `style`: `1` when
/// bold, then the background, then the foreground.
pub open spec fn style_prefix(style: TextStyle) -> Seq<char> {
    "\u{1b}["@ + (if style.bold {
        "1;"@
    } else {
        seq![]
    }) + "48;"@ + colour_code(style.background) + ";38;"@ + colour_code(style.foreground) + "m"@
}

/// The text that `ansi_term` prints for `text` painted in `style`: the
/// style's escape code, the text, and the reset code.
pub open spec fn ansi_paint(style: TextStyle, text: Seq<char>) -> Seq<char> {
    style_prefix(style) + text + "\u{1b}[0m"@
}

/// The escape code `ansi_term` writes between a piece in style `a` and one
/// in a different style `b` that keeps bold where `a` had it: the parts of
/// `b` that differ (bold, background, foreground), joined by `;`.
pub open spec fn extra_prefix(a: TextStyle, b: TextStyle) -> Seq<char> {
    let bold = !a.bold && b.bold;
    let bg = a.background != b.background;
    let fg = a.foreground != b.foreground;
    "\u{1b}["@ + (if bold {
        "1"@
    } else {
        seq![]
    }) + (if bg {
        (if bold { ";"@ } else { seq![] }) + "48;"@ + colour_code(b.background)
    } else {
        seq![]
    }) + (if fg {
        (if bold || bg { ";"@ } else { seq![] }) + "38;"@ + colour_code(b.foreground)
    } else {
        seq![]
    }) + "m"@
}

/// What `ansi_term` writes between a piece in style `a` and the next in
/// style `b`: nothing for the same style; a reset and `b`'s whole code where
/// bold is dropped; otherwise the code of what changed.
pub open spec fn style_change(a: TextStyle, b: TextStyle) -> Seq<char> {
    if a == b {
        seq![]
    } else if a.bold && !b.bold {
        "\u{1b}[0m"@ + style_prefix(b)
    } else {
        extra_prefix(a, b)
    }
}

/// The painted pieces written one after another, without the final reset:
/// the first with its whole code, each next one after the change of style.
pub open spec fn ansi_run(parts: Seq<(TextStyle, Seq<char>)>) -> Seq<char>
    decreases parts.len(),
{
    if parts.len() == 0 {
        seq![]
    } else if parts.len() == 1 {
        style_prefix(parts[0].0) + parts[0].1
    } else {
        ansi_run(parts.drop_last()) + style_change(parts[parts.len() - 2].0, parts.last().0) + parts.last().1
    }
}

/// The text that `ansi_term::ANSIStrings` prints for a run of pieces whose
/// styles all set both colours: the run, then one reset (nothing at all for
/// no pieces).
pub open spec fn ansi_concat(parts: Seq<(TextStyle, Seq<char>)>) -> Seq<char> {
    if parts.len() == 0 {
        seq![]
    } else {
        ansi_run(parts) + "\u{1b}[0m"@
    }
}

/// The columns that `unicode_width`'s `UnicodeWidthStr::width` gives `text`.
pub uninterp spec fn str_width(text: Seq<char>) -> nat;

/// `Style::paint(text).to_string()` in `ansi_term`, for a style with both
/// colours set and the given weight (see `ansi_paint`).
#[verifier::external_body]
fn paint(style: TextStyle, text: &str) -> (r: String)
    ensures
        r@ == ansi_paint(style, text@),
{
    let colour = |c: PaletteColor| match c {
        PaletteColor::Rgb(r, g, b) => ansi_term::Colour::RGB(r, g, b),
        PaletteColor::EightBit(i) => ansi_term::Colour::Fixed(i),
    };
    let fg = Some(colour(style.foreground));
    let bg = Some(colour(style.background));
    ansi_term::Style { foreground: fg, background: bg, is_bold: style.bold, ..ansi_term::Style::new() }.paint(text).to_string()
}

/// The views of painted pieces.
pub open spec fn piece_views(parts: Seq<(TextStyle, String)>) -> Seq<(TextStyle, Seq<char>)> {
    parts.map_values(|p: (TextStyle, String)| (p.0, p.1@))
}

/// `ansi_term::ANSIStrings(..).to_string()` for the pieces, each painted in
/// its style: the texts with the escape codes between them.
#[verifier::external_body]
fn paint_all(parts: &Vec<(TextStyle, String)>) -> (r: String)
    ensures
        r@ == ansi_concat(piece_views(parts@)),
{
    let colour = |c: PaletteColor| match c {
        PaletteColor::Rgb(r, g, b) => ansi_term::Colour::RGB(r, g, b),
        PaletteColor::EightBit(i) => ansi_term::Colour::Fixed(i),
    };
    let strings: Vec<ansi_term::ANSIString> = parts.iter().map(|(s, t)| ansi_term::Style { foreground: Some(colour(s.foreground)), background: Some(colour(s.background)), is_bold: s.bold, ..ansi_term::Style::new() }.paint(t.as_str())).collect();
    ansi_term::ANSIStrings(&strings).to_string()
}

/// `UnicodeWidthStr::width` of `unicode_width`: the columns `text` takes.
#[verifier::external_body]
fn display_width(text: &str) -> (r: usize)
    ensures
        r == str_width(text@),
{
    unicode_width::UnicodeWidthStr::width(text)
}

/// The style with these colours, not bold.
pub fn style(foreground: PaletteColor, background: PaletteColor) -> (r: TextStyle)
    ensures
        r == (TextStyle { foreground: foreground, background: background, bold: false }),
{
    TextStyle { foreground, background, bold: false }
}

impl TextStyle {
    /// The same style, bold.
    pub fn bold(self) -> (r: TextStyle)
        ensures
            r == (TextStyle { bold: true, ..self }),
    {
        TextStyle { bold: true, ..self }
    }
}

/// The style with these colours, bold.
pub open spec fn bold_style(foreground: PaletteColor, background: PaletteColor) -> TextStyle {
    TextStyle { foreground: foreground, background: background, bold: true }
}

/// The style with these colours, not bold.
pub open spec fn plain_style(foreground: PaletteColor, background: PaletteColor) -> TextStyle {
    TextStyle { foreground: foreground, background: background, bold: false }
}

/// The colours of another user's cursor: the player's colour on black, for
/// the ten players that have one.
pub open spec fn player_colors(client_id: u16, colors: MultiplayerColors) -> Option<(PaletteColor, PaletteColor)> {
    let black = PaletteColor::EightBit(16);
    if client_id == 1 { Some((colors.player_1, black)) }
    else if client_id == 2 { Some((colors.player_2, black)) }
    else if client_id == 3 { Some((colors.player_3, black)) }
    else if client_id == 4 { Some((colors.player_4, black)) }
    else if client_id == 5 { Some((colors.player_5, black)) }
    else if client_id == 6 { Some((colors.player_6, black)) }
    else if client_id == 7 { Some((colors.player_7, black)) }
    else if client_id == 8 { Some((colors.player_8, black)) }
    else if client_id == 9 { Some((colors.player_9, black)) }
    else if client_id == 10 { Some((colors.player_10, black)) }
    else { None }
}

/// The colours of client `client_id`'s cursor (primary, secondary).
pub fn client_id_to_colors(client_id: u16, colors: MultiplayerColors) -> (r: Option<(PaletteColor, PaletteColor)>)
    ensures
        r == player_colors(client_id, colors),
{
    let black = PaletteColor::EightBit(16);
    if client_id == 1 { Some((colors.player_1, black)) }
    else if client_id == 2 { Some((colors.player_2, black)) }
    else if client_id == 3 { Some((colors.player_3, black)) }
    else if client_id == 4 { Some((colors.player_4, black)) }
    else if client_id == 5 { Some((colors.player_5, black)) }
    else if client_id == 6 { Some((colors.player_6, black)) }
    else if client_id == 7 { Some((colors.player_7, black)) }
    else if client_id == 8 { Some((colors.player_8, black)) }
    else if client_id == 9 { Some((colors.player_9, black)) }
    else if client_id == 10 { Some((colors.player_10, black)) }
    else { None }
}

/// One painted blank per client that has a cursor colour, in order.
pub open spec fn cursor_pieces(clients: Seq<u16>, colors: MultiplayerColors) -> Seq<(TextStyle, Seq<char>)>
    decreases clients.len(),
{
    if clients.len() == 0 {
        seq![]
    } else {
        let rest = cursor_pieces(clients.drop_last(), colors);
        match player_colors(clients.last(), colors) {
            Some((primary, secondary)) => rest.push((plain_style(secondary, primary), " "@)),
            None => rest,
        }
    }
}

/// The cursor marks of the other clients, and their width.
pub fn cursors(focused_clients: &[u16], multiplayer_colors: MultiplayerColors) -> (r: (Vec<(TextStyle, String)>, usize))
    ensures
        piece_views(r.0@) == cursor_pieces(focused_clients@, multiplayer_colors),
        r.1 == cursor_pieces(focused_clients@, multiplayer_colors).len(),
{
    let mut len: usize = 0;
    let mut out: Vec<(TextStyle, String)> = Vec::new();
    let mut i: usize = 0;
    assert(focused_clients@.take(0) =~= Seq::<u16>::empty());
    assert(piece_views(out@) =~= Seq::<(TextStyle, Seq<char>)>::empty());
    while i < focused_clients.len()
        invariant
            i <= focused_clients@.len(),
            piece_views(out@) == cursor_pieces(focused_clients@.take(i as int), multiplayer_colors),
            len == out@.len(),
            len <= i,
        decreases focused_clients@.len() - i,
    {
        assert(focused_clients@.take(i + 1).drop_last() =~= focused_clients@.take(i as int));
        assert(focused_clients@.take(i + 1).last() == focused_clients@[i as int]);
        match client_id_to_colors(focused_clients[i], multiplayer_colors) {
            Some((primary, secondary)) => {
                let ghost before = out@;
                let blank = string_of(chars_of(" ").as_slice());
                out.push((style(secondary, primary), blank));
                assert(piece_views(out@) =~= piece_views(before).push((plain_style(secondary, primary), " "@)));
                len = len + 1;
            },
            None => {},
        }
        i = i + 1;
    }
    assert(focused_clients@.take(focused_clients@.len() as int) =~= focused_clients@);
    (out, len)
}

/// The badges a tab name may start with: the emoji prefix, the marker drawn
/// in its place, and the marker's colour on an unselected and a selected tab.
pub open spec fn badge_rules() -> Seq<(Seq<char>, Seq<char>, (u8, u8, u8), (u8, u8, u8))> {
    seq![
        ("[🟠 ↻] "@, "[↻]"@, (255u8, 165u8, 0u8), (154u8, 75u8, 0u8)),
        ("[🔴 ↻] "@, "[↻]"@, (255u8, 165u8, 0u8), (154u8, 75u8, 0u8)),
        ("[🔴 !] "@, "[!]"@, (255u8, 77u8, 77u8), (180u8, 35u8, 24u8)),
        ("[🔵 ✓] "@, "[✓]"@, (80u8, 160u8, 255u8), (23u8, 92u8, 211u8)),
        ("[🟡 !] "@, "[!]"@, (255u8, 210u8, 80u8), (128u8, 91u8, 0u8)),
        ("[🔴 ✕] "@, "[✕]"@, (255u8, 77u8, 77u8), (180u8, 35u8, 24u8)),
        ("[🟡 Ⅱ] "@, "[Ⅱ]"@, (255u8, 210u8, 80u8), (128u8, 91u8, 0u8)),
    ]
}

/// The first rule whose prefix starts `name`: its marker and colour, and the
/// rest of the name; or no badge and the whole name.
pub open spec fn badge_from(
    name: Seq<char>,
    rules: Seq<(Seq<char>, Seq<char>, (u8, u8, u8), (u8, u8, u8))>,
    selected: bool,
) -> (Option<(Seq<char>, (u8, u8, u8))>, Seq<char>)
    decreases rules.len(),
{
    if rules.len() == 0 {
        (None, name)
    } else if rules[0].0.is_prefix_of(name) {
        (Some((rules[0].1, if selected { rules[0].3 } else { rules[0].2 })), name.skip(rules[0].0.len() as int))
    } else {
        badge_from(name, rules.drop_first(), selected)
    }
}

/// A tab name split into its badge and the name behind it.
pub open spec fn badge_split(name: Seq<char>, selected: bool) -> (Option<(Seq<char>, (u8, u8, u8))>, Seq<char>) {
    badge_from(name, badge_rules(), selected)
}

/// A badge: the marker drawn and its colour.
pub type Badge = (&'static str, (u8, u8, u8));

/// The views of a badge.
pub open spec fn badge_view(b: Option<Badge>) -> Option<(Seq<char>, (u8, u8, u8))> {
    match b {
        Some((s, c)) => Some((s@, c)),
        None => None,
    }
}

/// Splits a tab name into its badge (see `badge_rules`) and the rest.
pub fn split_badge(name: &str, selected: bool) -> (r: (Option<Badge>, &str))
    ensures
        (badge_view(r.0), r.1@) == badge_split(name@, selected),
        r.1@.len() <= name@.len() && r.1@ == name@.skip(name@.len() - r.1@.len()),
        r.0 is None ==> r.1@ == name@,
{
    let rules: Vec<(&'static str, &'static str, (u8, u8, u8), (u8, u8, u8))> = vec![
        ("[🟠 ↻] ", "[↻]", (255u8, 165u8, 0u8), (154u8, 75u8, 0u8)),
        ("[🔴 ↻] ", "[↻]", (255u8, 165u8, 0u8), (154u8, 75u8, 0u8)),
        ("[🔴 !] ", "[!]", (255u8, 77u8, 77u8), (180u8, 35u8, 24u8)),
        ("[🔵 ✓] ", "[✓]", (80u8, 160u8, 255u8), (23u8, 92u8, 211u8)),
        ("[🟡 !] ", "[!]", (255u8, 210u8, 80u8), (128u8, 91u8, 0u8)),
        ("[🔴 ✕] ", "[✕]", (255u8, 77u8, 77u8), (180u8, 35u8, 24u8)),
        ("[🟡 Ⅱ] ", "[Ⅱ]", (255u8, 210u8, 80u8), (128u8, 91u8, 0u8)),
    ];
    let ghost rv = rules@.map_values(|r: (&'static str, &'static str, (u8, u8, u8), (u8, u8, u8))| (r.0@, r.1@, r.2, r.3));
    assert(rv =~= badge_rules());
    let chars = chars_of(name);
    let mut i: usize = 0;
    assert(rv.skip(0) =~= rv);
    while i < rules.len()
        invariant
            i <= rules@.len(),
            rv == rules@.map_values(|r: (&'static str, &'static str, (u8, u8, u8), (u8, u8, u8))| (r.0@, r.1@, r.2, r.3)),
            rv == badge_rules(),
            chars@ == name@,
            badge_split(name@, selected) == badge_from(name@, rv.skip(i as int), selected),
        decreases rules@.len() - i,
    {
        let (prefix, symbol, color, selected_color) = rules[i];
        assert(rv.skip(i as int).drop_first() =~= rv.skip(i + 1));
        assert(rv.skip(i as int)[0] == (prefix@, symbol@, color, selected_color));
        let p = chars_of(prefix);
        if starts_with_chars(&chars, &p) {
            let n = name.unicode_len();
            let rest = name.substring_char(p.len(), n);
            assert(rest@ =~= name@.skip(p@.len() as int));
            return (Some((symbol, if selected { selected_color } else { color })), rest);
        }
        i = i + 1;
    }
    (None, name)
}


/// The background of a tab: light grey when it is active, the theme's first
/// emphasis when it is an alternate tab, else the ribbon's background.
pub open spec fn tab_background(active: bool, alternate: bool, palette: Styling) -> PaletteColor {
    if active {
        PaletteColor::Rgb(241, 243, 245)
    } else if alternate {
        palette.ribbon_unselected.emphasis_1
    } else {
        palette.ribbon_unselected.background
    }
}

/// The text colour of a tab: red (dark on the active tab, the theme's third
/// emphasis elsewhere) while its bell flashes, else dark grey when active and
/// the ribbon's base colour otherwise.
pub open spec fn tab_foreground(active: bool, flashing: bool, palette: Styling) -> PaletteColor {
    if flashing {
        if active {
            PaletteColor::Rgb(180, 35, 24)
        } else {
            palette.ribbon_unselected.emphasis_3
        }
    } else if active {
        PaletteColor::Rgb(32, 36, 43)
    } else {
        palette.ribbon_unselected.base
    }
}

/// The painted pieces of a tab's label: a blank, the badge's marker in its
/// own colour and a blank when there is a badge, then the name and a blank.
pub open spec fn label_pieces(
    badge: Option<(Seq<char>, (u8, u8, u8))>,
    name: Seq<char>,
    fg: PaletteColor,
    bg: PaletteColor,
) -> Seq<(TextStyle, Seq<char>)> {
    let base = bold_style(fg, bg);
    match badge {
        Some((symbol, rgb)) => seq![
            (base, " "@),
            (bold_style(PaletteColor::Rgb(rgb.0, rgb.1, rgb.2), bg), symbol),
            (base, " "@),
            (base, name + " "@),
        ],
        None => seq![(base, " "@), (base, name + " "@)],
    }
}

/// The text of a rendered tab: the label between two separators, with the
/// other clients' cursors in brackets after the label when there are any.
pub open spec fn rendered_tab(
    text: Seq<char>,
    tab: TabInfo,
    alternate: bool,
    palette: Styling,
    separator: Seq<char>,
) -> Seq<char> {
    let bg = tab_background(tab.active, alternate, palette);
    let fg = tab_foreground(tab.active, tab.is_flashing_bell, palette);
    let fill = palette.text_unselected.background;
    let split = badge_split(text, tab.active);
    let left = ansi_paint(plain_style(fill, bg), separator);
    let right = ansi_paint(plain_style(bg, fill), separator);
    let label = ansi_concat(label_pieces(split.0, split.1, fg, bg));
    let clients = tab.other_focused_clients@;
    if clients.len() == 0 {
        left + label + right
    } else {
        left + label + ansi_paint(bold_style(fg, bg), "["@) + ansi_concat(
            cursor_pieces(clients, palette.multiplayer_user_colors),
        ) + ansi_paint(bold_style(fg, bg), "]"@) + right
    }
}

/// The columns a rendered tab takes: the name, two separators and two
/// blanks; the marker and a blank for a badge; the cursors and their brackets.
pub open spec fn tab_width(text: Seq<char>, tab: TabInfo, palette: Styling, separator: Seq<char>) -> int {
    let split = badge_split(text, tab.active);
    let clients = tab.other_focused_clients@;
    let badge_width: int = match split.0 {
        Some((symbol, _)) => str_width(symbol) + 1int,
        None => 0,
    };
    let cursor_width: int = if clients.len() == 0 {
        0
    } else {
        cursor_pieces(clients, palette.multiplayer_user_colors).len() + 2int
    };
    str_width(split.1) + 2 * str_width(separator) + 2 + badge_width + cursor_width
}

/// `n`, or `usize::MAX` where `n` is larger.
pub open spec fn capped(n: int) -> int {
    if n > usize::MAX { usize::MAX as int } else { n }
}

/// Renders one tab of the tab line. The width counts columns and stops at
/// `usize::MAX`.
pub fn render_tab(
    text: String,
    tab: &TabInfo,
    is_alternate_tab: bool,
    palette: Styling,
    separator: &str,
) -> (r: LinePart)
    ensures
        r.part@ == rendered_tab(text@, *tab, is_alternate_tab, palette, separator@),
        r.len == capped(tab_width(text@, *tab, palette, separator@)),
        r.tab_index == Some(tab.position),
{
    let focused_clients = tab.other_focused_clients.as_slice();
    let separator_width = display_width(separator);
    let alternate_tab_color = if is_alternate_tab {
        palette.ribbon_unselected.emphasis_1
    } else {
        palette.ribbon_unselected.background
    };
    let background_color = if tab.active {
        PaletteColor::Rgb(241, 243, 245)
    } else if is_alternate_tab {
        alternate_tab_color
    } else {
        palette.ribbon_unselected.background
    };
    let foreground_color = if tab.is_flashing_bell {
        if tab.active {
            PaletteColor::Rgb(180, 35, 24)
        } else {
            palette.ribbon_unselected.emphasis_3
        }
    } else if tab.active {
        PaletteColor::Rgb(32, 36, 43)
    } else {
        palette.ribbon_unselected.base
    };
    let separator_fill_color = palette.text_unselected.background;
    let left_separator = paint(style(separator_fill_color, background_color), separator);
    let (badge, name) = split_badge(text.as_str(), tab.active);
    let base = style(foreground_color, background_color).bold();
    let mut label: Vec<(TextStyle, String)> = Vec::new();
    label.push((base, String::from_str(" ")));
    let name_width = display_width(name);
    let mut tab_text_len = name_width.saturating_add(separator_width.saturating_add(separator_width)).saturating_add(2);
    match badge {
        Some((symbol, color)) => {
            label.push((style(PaletteColor::Rgb(color.0, color.1, color.2), background_color).bold(), String::from_str(symbol)));
            label.push((base, String::from_str(" ")));
            tab_text_len = tab_text_len.saturating_add(display_width(symbol)).saturating_add(1);
        },
        None => {},
    }
    let mut named = String::from_str(name);
    named.append(" ");
    label.push((base, named));
    let ghost split = badge_split(text@, tab.active);
    assert(piece_views(label@) =~= label_pieces(split.0, split.1, foreground_color, background_color));
    let tab_styled_text = paint_all(&label);
    let right_separator = paint(style(background_color, separator_fill_color), separator);
    let mut part = left_separator;
    part.append(tab_styled_text.as_str());
    if focused_clients.len() > 0 {
        let (cursor_section, extra_length) = cursors(focused_clients, palette.multiplayer_user_colors);
        tab_text_len = tab_text_len.saturating_add(extra_length).saturating_add(2);
        let cursor_beginning = paint(base, "[");
        let cursor_text = paint_all(&cursor_section);
        let cursor_end = paint(base, "]");
        part.append(cursor_beginning.as_str());
        part.append(cursor_text.as_str());
        part.append(cursor_end.as_str());
    }
    part.append(right_separator.as_str());
    LinePart { part, len: tab_text_len, tab_index: Some(tab.position) }
}


/// The separator between tabs: the powerline arrow, unless the terminal is
/// told to draw the simplified interface.
pub open spec fn separator_for(capabilities: PluginCapabilities) -> Seq<char> {
    if !capabilities.arrow_fonts {
        "\u{e0b0}"@
    } else {
        ""@
    }
}

/// The separator between tabs for these capabilities.
fn tab_separator(capabilities: PluginCapabilities) -> (r: &'static str)
    ensures
        r@ == separator_for(capabilities),
{
    if !capabilities.arrow_fonts {
        "\u{e0b0}"
    } else {
        ""
    }
}

/// A tab's name with its state: "(FULLSCREEN)" or else "(SYNC)", then "[!]"
/// while it has a bell.
pub open spec fn decorated_name(name: Seq<char>, tab: TabInfo) -> Seq<char> {
    let mode = if tab.is_fullscreen_active {
        name + " (FULLSCREEN)"@
    } else if tab.is_sync_panes_active {
        name + " (SYNC)"@
    } else {
        name
    };
    if tab.has_bell_notification || tab.is_flashing_bell {
        mode + " [!]"@
    } else {
        mode
    }
}

/// Renders a tab with its state added to its name. Alternate tabs take their
/// own colour only where the simplified interface draws no arrows between them.
pub fn tab_style(
    tabname: String,
    tab: &TabInfo,
    is_alternate_tab: bool,
    palette: Styling,
    capabilities: PluginCapabilities,
) -> (r: LinePart)
    ensures
        r.part@ == rendered_tab(
            decorated_name(tabname@, *tab),
            *tab,
            is_alternate_tab && capabilities.arrow_fonts,
            palette,
            separator_for(capabilities),
        ),
        r.len == capped(
            tab_width(decorated_name(tabname@, *tab), *tab, palette, separator_for(capabilities)),
        ),
        r.tab_index == Some(tab.position),
{
    let mut tabname = tabname;
    let mut is_alternate_tab = is_alternate_tab;
    let separator = tab_separator(capabilities);
    if tab.is_fullscreen_active {
        tabname.append(" (FULLSCREEN)");
    } else if tab.is_sync_panes_active {
        tabname.append(" (SYNC)");
    }
    if tab.has_bell_notification || tab.is_flashing_bell {
        tabname.append(" [!]");
    }
    if !capabilities.arrow_fonts {
        is_alternate_tab = false;
    }
    render_tab(tabname, tab, is_alternate_tab, palette, separator)
}

/// The column where part `i` of the line starts: the widths before it.
pub open spec fn span_start(parts: Seq<LinePart>, i: int) -> int
    decreases i,
{
    if i <= 0 {
        0
    } else {
        span_start(parts, i - 1) + parts[i - 1].len
    }
}

/// Whether column `col` falls within part `i` of the line.
pub open spec fn covers(parts: Seq<LinePart>, i: int, col: int) -> bool {
    span_start(parts, i) <= col < span_start(parts, i) + parts[i].len
}

/// Parts further right start no further left.
pub proof fn lemma_span_start_monotone(parts: Seq<LinePart>, i: int, j: int)
    requires
        0 <= i <= j <= parts.len(),
    ensures
        span_start(parts, i) + (if i < j { parts[i].len as int } else { 0 }) <= span_start(parts, j),
    decreases j - i,
{
    if i < j {
        lemma_span_start_monotone(parts, i + 1, j);
    }
}

/// At most one part of the line covers a column.
pub proof fn lemma_one_part_per_column(parts: Seq<LinePart>, i: int, j: int, col: int)
    requires
        0 <= i < parts.len(),
        0 <= j < parts.len(),
        covers(parts, i, col),
        covers(parts, j, col),
    ensures
        i == j,
{
    if i < j {
        lemma_span_start_monotone(parts, i, j);
    } else if j < i {
        lemma_span_start_monotone(parts, j, i);
    }
}

/// The part of the line under column `mouse_click_col`, if any.
pub fn get_clicked_line_part(tab_line: &[LinePart], mouse_click_col: usize) -> (r: Option<&LinePart>)
    ensures
        match r {
            Some(p) => exists|i: int|
                0 <= i < tab_line@.len() && covers(tab_line@, i, mouse_click_col as int) && *p
                    == tab_line@[i],
            None => forall|i: int|
                0 <= i < tab_line@.len() ==> !covers(tab_line@, i, mouse_click_col as int),
        },
{
    let mut start: usize = 0;
    let mut k: usize = 0;
    while k < tab_line.len()
        invariant
            k <= tab_line@.len(),
            start == span_start(tab_line@, k as int),
            start <= mouse_click_col,
            forall|i: int| 0 <= i < k ==> !covers(tab_line@, i, mouse_click_col as int),
        decreases tab_line@.len() - k,
    {
        let width = tab_line[k].len;
        if mouse_click_col - start < width {
            return Some(&tab_line[k]);
        }
        proof {
            assert forall|i: int| 0 <= i < k + 1 implies !covers(tab_line@, i, mouse_click_col as int) by {
                if i < k {
                } else {
                    assert(i == k);
                }
            }
        }
        start = start + width;
        k = k + 1;
    }
    None
}

/// The tab that a click on a part of the line switches to, counted from 1:
/// the part's tab unless it is the active one.
pub open spec fn focus_target(part: LinePart, active_tab_idx: usize) -> Option<usize> {
    match part.tab_index {
        Some(t) => if t + 1 != active_tab_idx {
            Some((t + 1) as usize)
        } else {
            None
        },
        None => None,
    }
}

/// The tab to switch to after a click on column `mouse_click_col`, counted
/// from 1; none where the click hit no tab or the active one.
pub fn get_tab_to_focus(tab_line: &[LinePart], active_tab_idx: usize, mouse_click_col: usize) -> (r: Option<usize>)
    requires
        forall|i: int| #![auto]
            0 <= i < tab_line@.len() && tab_line@[i].tab_index is Some ==> tab_line@[i].tab_index->0 < usize::MAX,
    ensures
        r != Some(active_tab_idx),
        r is Some ==> exists|i: int|
            0 <= i < tab_line@.len() && covers(tab_line@, i, mouse_click_col as int)
                && r == focus_target(tab_line@[i], active_tab_idx),
        forall|i: int|
            0 <= i < tab_line@.len() && covers(tab_line@, i, mouse_click_col as int) ==> r
                == focus_target(#[trigger] tab_line@[i], active_tab_idx),
        (forall|i: int| 0 <= i < tab_line@.len() ==> !covers(tab_line@, i, mouse_click_col as int))
            ==> r is None,
{
    match get_clicked_line_part(tab_line, mouse_click_col) {
        Some(part) => {
            proof {
                let k = choose|k: int|
                    0 <= k < tab_line@.len() && covers(tab_line@, k, mouse_click_col as int) && *part
                        == tab_line@[k];
                assert forall|i: int|
                    0 <= i < tab_line@.len() && covers(tab_line@, i, mouse_click_col as int) implies *part
                    == tab_line@[i] by {
                    lemma_one_part_per_column(tab_line@, i, k, mouse_click_col as int);
                }
                assert(tab_line@[k].tab_index == part.tab_index);
            }
            match part.tab_index {
                Some(index) => {
                    let clicked_tab_idx = index + 1;
                    if clicked_tab_idx != active_tab_idx {
                        Some(clicked_tab_idx)
                    } else {
                        None
                    }
                },
                None => None,
            }
        },
        None => None,
    }
}

/// A column falls in at most one part of the line.
pub proof fn law_a_column_falls_in_one_part_at_most(parts: Seq<LinePart>, i: int, j: int, col: int)
    requires
        0 <= i < parts.len(),
        0 <= j < parts.len(),
        covers(parts, i, col),
        covers(parts, j, col),
    ensures
        i == j,
{
    if i < j {
        lemma_span_start_monotone(parts, i, j);
    } else if j < i {
        lemma_span_start_monotone(parts, j, i);
    }
}

/// Every column before the end of the first `k` parts falls in one of them.
proof fn lemma_columns_are_covered(parts: Seq<LinePart>, k: int, col: int)
    requires
        0 <= k <= parts.len(),
        0 <= col < span_start(parts, k),
    ensures
        exists|i: int| 0 <= i < k && covers(parts, i, col),
    decreases k,
{
    if k > 0 {
        if col < span_start(parts, k - 1) {
            lemma_columns_are_covered(parts, k - 1, col);
        } else {
            assert(covers(parts, k - 1, col));
        }
    }
}

/// The parts tile the line from its first column: every column before the
/// line's end falls in exactly one part.
pub proof fn law_every_column_of_the_line_falls_in_a_part(parts: Seq<LinePart>, col: int)
    requires
        0 <= col < span_start(parts, parts.len() as int),
    ensures
        exists|i: int| 0 <= i < parts.len() && covers(parts, i, col),
{
    lemma_columns_are_covered(parts, parts.len() as int, col);
}

/// The first part starts at the first column, and each next part right
/// where the one before it ends.
pub proof fn law_parts_start_where_the_one_before_ends(parts: Seq<LinePart>, i: int)
    requires
        0 <= i < parts.len(),
    ensures
        span_start(parts, 0) == 0,
        covers(parts, i, span_start(parts, i)) <==> parts[i].len > 0,
        i + 1 < parts.len() ==> span_start(parts, i + 1) == span_start(parts, i) + parts[i].len,
{
}

} // verus!
