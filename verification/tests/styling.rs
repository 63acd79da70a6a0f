use weovim::color::Color;
use weovim::events::{HighlightAttr, RgbAttr};
use weovim::highlight::HighlightGroups;

fn red() -> Color {
    Color::from_rgb(0xFF, 0, 0)
}

fn blue() -> Color {
    Color::from_rgb(0, 0, 0xFF)
}

fn green() -> Color {
    Color::from_rgb(0, 0xFF, 0)
}

#[test]
fn color_packing_round_trips() {
    let c = Color::from_rgb_u64(0x123456);
    assert_eq!((c.r, c.g, c.b, c.a), (0x12, 0x34, 0x56, 0xFF));
    let c = Color::from_rgba_u64(0x11223344);
    assert_eq!((c.r, c.g, c.b, c.a), (0x11, 0x22, 0x33, 0x44));
    assert_eq!(Color::from_rgba(9, 8, 7, 6).to_rgba(), [9, 8, 7, 6]);
}

#[test]
fn absent_channels_inherit_the_current_default() {
    let mut groups = HighlightGroups::default();
    groups.set_default(RgbAttr { foreground: Some(red()), special: Some(green()), ..RgbAttr::default() });
    // Define id 5 with only a background.
    groups.define(5, RgbAttr { background: Some(blue()), ..RgbAttr::default() });
    let resolved = groups.group_color_set(5);
    assert_eq!(resolved.background, Some(blue()));
    assert_eq!(resolved.foreground, Some(red()));
    assert_eq!(resolved.special, Some(green()));
    // Changing the default afterwards changes the resolution, with no
    // second definition.
    groups.set_default(RgbAttr { foreground: Some(green()), ..RgbAttr::default() });
    let resolved = groups.group_color_set(5);
    assert_eq!(resolved.foreground, Some(green()));
    assert_eq!(resolved.special, None);
    assert_eq!(resolved.background, Some(blue()));
}

#[test]
fn reverse_swaps_after_filling() {
    let mut groups = HighlightGroups::default();
    groups.set_default(RgbAttr { foreground: Some(red()), background: Some(blue()), ..RgbAttr::default() });
    groups.define(1, RgbAttr { reverse: true, ..RgbAttr::default() });
    let resolved = groups.group_color_set(1);
    assert_eq!(resolved.foreground, Some(blue()));
    assert_eq!(resolved.background, Some(red()));
}

#[test]
fn cursor_attribute_swaps_unconditionally() {
    let mut groups = HighlightGroups::default();
    groups.define(
        2,
        RgbAttr { foreground: Some(red()), background: Some(blue()), ..RgbAttr::default() },
    );
    let cursor = groups.cursor_color_set(2);
    assert_eq!(cursor.foreground, Some(blue()));
    assert_eq!(cursor.background, Some(red()));
}

#[test]
fn an_unknown_id_resolves_to_the_default() {
    let mut groups = HighlightGroups::default();
    groups.set_default(RgbAttr { foreground: Some(red()), ..RgbAttr::default() });
    let resolved = groups.group_color_set(99);
    assert_eq!(resolved.foreground, Some(red()));
    assert_eq!(resolved.background, None);
}

#[test]
fn growth_gaps_hold_the_empty_attribute() {
    let mut groups = HighlightGroups::default();
    groups.set_default(RgbAttr { foreground: Some(green()), ..RgbAttr::default() });
    groups.define(4, RgbAttr { bold: true, ..RgbAttr::default() });
    // Id 2 was never defined; the growth to id 4 left it empty, so it
    // inherits wholly from the default.
    let gap = groups.group_color_set(2);
    assert_eq!(gap.foreground, Some(green()));
    assert!(!gap.bold);
}

#[test]
fn redefining_an_id_takes_the_last_definition() {
    let mut groups = HighlightGroups::default();
    groups.update(vec![
        HighlightAttr { id: 3, rgb_attr: RgbAttr { italic: true, ..RgbAttr::default() } },
        HighlightAttr { id: 3, rgb_attr: RgbAttr { bold: true, ..RgbAttr::default() } },
    ]);
    let resolved = groups.group_color_set(3);
    assert!(resolved.bold);
    assert!(!resolved.italic);
}
