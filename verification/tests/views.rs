//! The keyboard picture, the splash screen, the help and the catalogue.

use tang::held_notes::HeldNotes;
use tang::plugin::PluginInfo;
use tang::scale::ScaleSetting;
use tang::tui::catalog::{build_catalog, selector_items};
use tang::tui::editor::SelectorMode;
use tang::tui::help::{build_help_lines, help_style, popup_extent, HelpStyle};
use tang::tui::piano_view::{choose_layout, max_kb_height, render_keyboard, scale_picker_entries, Shade};
use tang::paths::System;
use tang::tui::splash::{bar_fill, display_name, progress_line, BAR_WIDTH};
use tang::tui::tree::Area;

#[test]
fn names_are_short_on_the_splash_screen() {
    let linux = System::Linux;
    assert_eq!(display_name(linux, "vst3:Pianoteq 9"), "Pianoteq 9");
    assert_eq!(display_name(linux, "./fx/reverb.lv2"), "reverb");
    assert_eq!(display_name(linux, "http://x/y"), "http://x/y");
    assert_eq!(display_name(linux, "com.u-he.diva"), "com.u-he.diva");
    assert_eq!(display_name(linux, r"a/b\c.lv2"), r"b\c");
    assert_eq!(display_name(System::Windows, r"a/b\c.lv2"), "c");
    assert_eq!(display_name(System::Windows, r"C:\fx\reverb.lv2"), "reverb");
}

#[test]
fn progress_fills_the_bar() {
    assert_eq!(bar_fill(0, 0), None);
    assert_eq!(bar_fill(1, 2), Some(BAR_WIDTH / 2));
    assert_eq!(bar_fill(9, 3), Some(BAR_WIDTH));
    let (bar, text) = progress_line(1, 4).unwrap();
    assert_eq!(bar.chars().count(), BAR_WIDTH);
    assert_eq!(bar.chars().filter(|&c| c == '▓').count(), 9);
    assert_eq!(text, " 1/4");
    assert!(progress_line(0, 0).is_none());
}

#[test]
fn the_help_has_headings() {
    let lines = build_help_lines();
    assert_eq!(lines.len(), 45);
    assert!(lines.iter().any(|l| matches!(help_style(l), HelpStyle::Heading)));
    assert_eq!(popup_extent(100, 60, 10), 60);
    assert_eq!(popup_extent(10, 60, 10), 10);
}

#[test]
fn wide_areas_show_more_octaves() {
    let (narrow, _) = choose_layout(20);
    let (wide, key) = choose_layout(200);
    assert!(wide > narrow);
    assert!(wide as u16 * 7 * key as u16 <= 200);
    assert!(max_kb_height(key) >= 4);
}

#[test]
fn keyboards_fill_the_width() {
    // As many octaves as fit, and then the widest keys.
    assert_eq!(choose_layout(84), (4, 3));
    assert_eq!(choose_layout(230), (10, 3));
    assert_eq!(choose_layout(231), (11, 3));
    assert_eq!(choose_layout(308), (11, 4));
    assert_eq!(choose_layout(385), (11, 5));
    for width in [2688, 3584, 4480, 8960, 9216, u16::MAX] {
        assert_eq!(choose_layout(width), (11, 5));
    }
    // Narrow keys are the last resort.
    assert_eq!(choose_layout(83), (5, 2));
    assert_eq!(choose_layout(55), (7, 1));
    assert_eq!(choose_layout(14), (2, 1));
    assert_eq!(choose_layout(0), (2, 1));
}

#[test]
fn held_keys_are_shaded() {
    let area = Area { x: 2, y: 1, width: 120, height: 12 };
    let scale = ScaleSetting::default();
    let mut held = HeldNotes::new();
    let idle = render_keyboard(area, &held, &scale, 4);
    assert!(!idle.is_empty());
    assert!(!idle.iter().any(|p| p.bg == Some(Shade::WhiteBodyHeld)));
    held.note_on(60);
    let played = render_keyboard(area, &held, &scale, 4);
    assert!(played.iter().any(|p| p.bg == Some(Shade::WhiteBodyHeld) || p.fg == Shade::WhiteBodyHeld));
    for p in &played {
        assert!(p.x0 >= area.x && p.x1 <= area.x + area.width);
        assert!(p.y0 >= area.y && p.y1 <= area.y + area.height);
    }
    let tiny = Area { x: 0, y: 0, width: 3, height: 2 };
    assert!(render_keyboard(tiny, &held, &scale, 4).is_empty());
}

#[test]
fn every_scale_can_be_picked() {
    let entries = scale_picker_entries();
    assert_eq!(entries.len(), 12 * 15);
    assert_eq!(entries[0].display, "C Major");
    for e in &entries {
        let s = ScaleSetting { root: e.root, scale_idx: e.scale_idx };
        assert_eq!(s.display(), e.display);
    }
}

fn info(name: &str, is_instrument: bool) -> PluginInfo {
    PluginInfo {
        name: name.to_string(),
        id: format!("clap:{name}"),
        is_instrument,
        param_count: 3,
        preset_count: 2,
        path: String::new(),
        scan_ms: 0,
    }
}

#[test]
fn the_catalogue_is_sorted_without_regard_to_case() {
    let catalog = build_catalog(vec![
        info("zeta", true),
        info("Über", false),
        info("Alpha", true),
        info("ÄTHER", true),
        info("alpha", false),
    ]);
    let names: Vec<_> = catalog.iter().map(|p| p.name.as_str()).collect();
    assert_eq!(names, vec!["Alpha", "alpha", "zeta", "ÄTHER", "Über"]);
    let items = selector_items(&catalog, SelectorMode::Instrument);
    let shown: Vec<_> = items.iter().map(|i| (i.name.as_str(), i.index)).collect();
    assert_eq!(shown, vec![("Alpha", 0), ("zeta", 2), ("ÄTHER", 3)]);
    assert_eq!(items[0].format, "CLAP");
    assert_eq!(selector_items(&catalog, SelectorMode::Effect).len(), 2);
}
