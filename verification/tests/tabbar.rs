use unicode_width::UnicodeWidthStr;
use zellij_codex::model::TabInfo;
use zellij_codex::tabbar::{
    get_tab_to_focus, render_tab, split_badge, MultiplayerColors, PaletteColor, StyleDeclaration, Styling,
};

fn declaration(base: u8, e0: u8, e1: u8, e2: u8, e3: u8, background: u8) -> StyleDeclaration {
    StyleDeclaration {
        base: PaletteColor::EightBit(base),
        background: PaletteColor::EightBit(background),
        emphasis_0: PaletteColor::EightBit(e0),
        emphasis_1: PaletteColor::EightBit(e1),
        emphasis_2: PaletteColor::EightBit(e2),
        emphasis_3: PaletteColor::EightBit(e3),
    }
}

/// Zellij's default theme, as far as the tab line reads it.
fn default_styling() -> Styling {
    Styling {
        text_unselected: declaration(245, 166, 51, 154, 201, 238),
        ribbon_unselected: declaration(16, 124, 255, 45, 201, 238),
        multiplayer_user_colors: MultiplayerColors {
            player_1: PaletteColor::EightBit(201),
            player_2: PaletteColor::EightBit(45),
            player_3: PaletteColor::EightBit(99),
            player_4: PaletteColor::EightBit(226),
            player_5: PaletteColor::EightBit(51),
            player_6: PaletteColor::EightBit(136),
            player_7: PaletteColor::EightBit(124),
            player_8: PaletteColor::EightBit(245),
            player_9: PaletteColor::EightBit(207),
            player_10: PaletteColor::EightBit(215),
        },
    }
}

#[test]
fn badges_use_rgb_for_active_and_inactive_tabs() {
    for active in [true, false] {
        for (prefix, symbol, inactive_rgb, active_rgb) in [
            ("[🟠 ↻] ", "[↻]", "255;165;0", "154;75;0"),
            ("[🔴 !] ", "[!]", "255;77;77", "180;35;24"),
            ("[🔵 ✓] ", "[✓]", "80;160;255", "23;92;211"),
        ] {
            let tab = TabInfo {
                active,
                ..Default::default()
            };
            let rendered = render_tab(format!("{prefix}project"), &tab, false, default_styling(), "");
            let rgb = if active { active_rgb } else { inactive_rgb };
            assert!(rendered.part.contains(&format!("38;2;{rgb}")));
            if active {
                assert!(rendered.part.contains("48;2;241;243;245"));
                assert!(rendered.part.contains("38;2;32;36;43"));
            }
            assert!(rendered.part.contains(symbol));
            assert!(!rendered.part.contains(prefix));
            assert_eq!(rendered.len, " [↻] project ".width());
        }
    }
}

#[test]
fn idle_names_and_click_positions_are_preserved() {
    let tab = TabInfo {
        position: 3,
        ..Default::default()
    };
    let rendered = render_tab("project".to_string(), &tab, false, default_styling(), "");
    assert_eq!(rendered.len, 9);
    assert_eq!(get_tab_to_focus(&[rendered], 1, 3), Some(4));
    assert_eq!(split_badge("project", false), (None, "project"));
}

#[test]
fn a_badge_is_drawn_with_only_the_codes_that_change() {
    let tab = TabInfo { position: 0, ..Default::default() };
    let rendered = render_tab("[🔵 ✓] project".to_string(), &tab, false, default_styling(), "");
    let separator = "\u{1b}[48;5;238;38;5;238m\u{1b}[0m";
    let label = "\u{1b}[1;48;5;238;38;5;16m \u{1b}[38;2;80;160;255m[✓]\u{1b}[38;5;16m project \u{1b}[0m";
    assert_eq!(rendered.part, format!("{separator}{label}{separator}"));
    assert_eq!(rendered.len, " [✓] project ".width());
}
