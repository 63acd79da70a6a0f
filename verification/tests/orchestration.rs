use weovim::api::{ui_attach_request, UiOptions, UI_EXT_LINEGRID, UI_RGB};
use weovim::buffer::new_triple_buffer;
use weovim::color::Color;
use weovim::editor::{parse_guifont, Editor, UiEditorEvent};
use weovim::events::{
    CursorShape, DefaultColorSet, GridCell, GridGoto, GridLine, HighlightAttr, ModeInfo,
    RedrawEvent, RgbAttr, UiOption,
};
use weovim::highlight::HighlightGroups;

#[test]
fn triple_buffer_roles_never_collide() {
    let mut tb = new_triple_buffer();
    // Drive every interleaving pattern of publishes and acquires for a
    // while; the writer's and reader's slot indices must stay disjoint at
    // every step, as must the back slot.
    for step in 0..64u32 {
        if step % 3 == 0 {
            tb.buffer().resize(1, step as usize % 5);
            tb.publish();
        }
        if step % 2 == 0 {
            let _ = tb.acquire();
        }
        let input = tb.input_index();
        let output = tb.output_index();
        let back = tb.back_descriptor() & 0b11;
        assert_ne!(input, output);
        assert_ne!(input, back);
        assert_ne!(output, back);
    }
}

#[test]
fn publish_reports_unconsumed_publications() {
    let mut tb = new_triple_buffer();
    assert!(!tb.publish()); // nothing was pending
    assert!(tb.publish()); // the first publication was never acquired
    let _ = tb.acquire();
    assert!(!tb.publish()); // the reader caught up
}

#[test]
fn reader_sees_the_latest_published_grid() {
    let mut tb = new_triple_buffer();
    tb.buffer().resize(2, 2);
    tb.publish();
    assert_eq!(tb.acquire().rows(), 2);
    // Re-reading without a new publication is safe and stable.
    assert_eq!(tb.acquire().rows(), 2);
    tb.buffer().resize(3, 3);
    tb.publish();
    assert_eq!(tb.acquire().rows(), 3);
}

#[test]
fn end_to_end_redraw_produces_the_sectioned_row() {
    let mut editor = Editor::new();
    editor.on_redraw_event(RedrawEvent::GridResize { grid: 1, width: 10, height: 1 });
    editor.on_redraw_event(RedrawEvent::HlAttrDefine(HighlightAttr {
        id: 1,
        rgb_attr: RgbAttr {
            foreground: Some(Color::from_rgb_u64(0xFF0000)),
            ..RgbAttr::default()
        },
    }));
    editor.on_redraw_event(RedrawEvent::GridLine(GridLine {
        grid: 1,
        row: 0,
        col_start: 0,
        cells: vec![
            GridCell { text: "H".to_string(), hl_id: 1, repeated: 1 },
            // The wire tuple omitted its id; the decoder carried id 1 forward.
            GridCell { text: "i".to_string(), hl_id: 1, repeated: 4 },
        ],
    }));
    editor.on_redraw_event(RedrawEvent::Flush);

    // The presentation side maintains the highlight table from the queued
    // definitions and resolves at render time.
    let mut groups = HighlightGroups::default();
    let mut woken = false;
    for event in editor.take_events() {
        match event {
            UiEditorEvent::DefineHlAttr(h) => groups.define(h.id, h.rgb_attr),
            UiEditorEvent::SetDefaultColorsSet(d) => groups.set_default(RgbAttr {
                foreground: Some(d.foreground),
                background: Some(d.background),
                special: Some(d.special),
                ..RgbAttr::default()
            }),
            UiEditorEvent::Redraw => woken = true,
            UiEditorEvent::FontChanged(_) => {}
        }
    }
    assert!(woken);
    let snapshot = editor.acquire();
    let rows = snapshot.rendered_lines(&groups);
    assert_eq!(rows.len(), 1);
    assert_eq!(rows[0].text(), "Hiiii");
    assert_eq!(rows[0].n_sections(), 1);
    assert_eq!(rows[0].sections[0].start, 0);
    assert_eq!(rows[0].sections[0].end, 5);
    assert_eq!(rows[0].sections[0].attr.foreground, Some(Color::from_rgb_u64(0xFF0000)));
}

#[test]
fn flush_skips_the_wake_when_one_is_in_flight() {
    let mut editor = Editor::new();
    editor.on_redraw_event(RedrawEvent::Flush);
    editor.on_redraw_event(RedrawEvent::Flush);
    let wakes = editor
        .take_events()
        .iter()
        .filter(|e| matches!(e, UiEditorEvent::Redraw))
        .count();
    // The second publication found the first unconsumed: one wake.
    assert_eq!(wakes, 1);
}

#[test]
fn mode_change_is_bounds_checked() {
    let mut editor = Editor::new();
    editor.on_redraw_event(RedrawEvent::ModeInfoSet {
        cursor_style_enabled: true,
        mode_infos: vec![
            ModeInfo { cursor_shape: CursorShape::Block, cell_percentage: 0, attr_id: 0 },
            ModeInfo { cursor_shape: CursorShape::Vertical, cell_percentage: 25, attr_id: 2 },
        ],
    });
    editor.on_redraw_event(RedrawEvent::ModeChange(1));
    assert_eq!(editor.current_mode().unwrap().cursor_shape, CursorShape::Vertical);
    // An index outside the mode table is ignored.
    editor.on_redraw_event(RedrawEvent::ModeChange(9));
    assert_eq!(editor.current_mode().unwrap().cursor_shape, CursorShape::Vertical);
}

#[test]
fn cursor_moves_travel_with_the_snapshot() {
    let mut editor = Editor::new();
    editor.on_redraw_event(RedrawEvent::GridResize { grid: 1, width: 4, height: 4 });
    editor.on_redraw_event(RedrawEvent::GridCursorGoto(GridGoto { grid: 1, row: 2, column: 3 }));
    editor.on_redraw_event(RedrawEvent::Flush);
    let snapshot = editor.acquire();
    let cursor = snapshot.cursor();
    assert_eq!((cursor.row, cursor.col), (2, 3));
}

#[test]
fn title_and_busy_state_track_events() {
    let mut editor = Editor::new();
    editor.on_redraw_event(RedrawEvent::SetTitle("scratch".to_string()));
    editor.on_redraw_event(RedrawEvent::Busy(true));
    assert_eq!(editor.title(), "scratch");
    assert!(editor.is_busy());
    editor.on_redraw_event(RedrawEvent::Busy(false));
    assert!(!editor.is_busy());
}

#[test]
fn option_toggles_move_the_capability_flags() {
    let mut editor = Editor::new();
    editor.on_redraw_event(RedrawEvent::OptionSet(UiOption::Toggle {
        option: "ext_linegrid".to_string(),
        value: true,
    }));
    assert!(editor.ui_options().contains(UI_EXT_LINEGRID));
    editor.on_redraw_event(RedrawEvent::OptionSet(UiOption::Toggle {
        option: "ext_linegrid".to_string(),
        value: false,
    }));
    assert!(!editor.ui_options().contains(UI_EXT_LINEGRID));
}

#[test]
fn guifont_options_queue_the_parsed_fonts() {
    let mut editor = Editor::new();
    editor.on_redraw_event(RedrawEvent::OptionSet(UiOption::Text {
        option: "guifont".to_string(),
        value: "Fira Code:h11,Backup:hbad".to_string(),
    }));
    let events = editor.take_events();
    assert_eq!(events.len(), 1);
    match &events[0] {
        UiEditorEvent::FontChanged(fonts) => {
            assert_eq!(fonts.len(), 2);
            assert_eq!(fonts[0].family, "Fira Code");
            assert_eq!(fonts[0].size, 11);
            assert_eq!(fonts[1].family, "Backup");
            // An unparsable size falls back to the default.
            assert_eq!(fonts[1].size, 12);
        }
        other => panic!("expected a font change, got {:?}", other),
    }
}

#[test]
fn guifont_entries_without_a_size_name_no_font() {
    let fonts = parse_guifont("plain,with size:h14");
    assert_eq!(fonts.len(), 1);
    assert_eq!(fonts[0].family, "with size");
    assert_eq!(fonts[0].size, 14);
    assert_eq!(parse_guifont("").len(), 0);
}

#[test]
fn default_colors_are_forwarded_not_stored() {
    let mut editor = Editor::new();
    editor.on_redraw_event(RedrawEvent::DefaultColorsSet(DefaultColorSet {
        foreground: Color::from_rgb_u64(0xFFFFFF),
        background: Color::from_rgb_u64(0),
        special: Color::from_rgb_u64(0xFF0000),
    }));
    let events = editor.take_events();
    assert_eq!(events.len(), 1);
    assert!(matches!(events[0], UiEditorEvent::SetDefaultColorsSet(_)));
}

#[test]
fn attach_request_encodes_the_exact_frame() {
    let opts = UiOptions::empty().insert(UI_RGB).insert(UI_EXT_LINEGRID);
    let bytes = ui_attach_request(80, 300, opts);
    let mut expected: Vec<u8> = Vec::new();
    expected.push(0x94); // [kind, id, method, args]
    expected.push(0x00); // request
    expected.extend_from_slice(&[0xce, 0xFF, 0xFF, 0xFF, 0xFF]); // unanswered id
    expected.push(0xa0 + 14);
    expected.extend_from_slice(b"nvim_ui_attach");
    expected.push(0x93); // [width, height, options]
    expected.push(80);
    expected.extend_from_slice(&[0xcd, 0x01, 0x2c]); // 300
    expected.push(0x8a); // ten option pairs
    let pairs: [(&str, bool); 10] = [
        ("rgb", true),
        ("override", false),
        ("ext_cmdline", false),
        ("ext_hlstate", false),
        ("ext_linegrid", true),
        ("ext_messages", false),
        ("ext_multigrid", false),
        ("ext_popupmenu", false),
        ("ext_tabline", false),
        ("ext_termcolors", false),
    ];
    for (key, on) in pairs {
        expected.push(0xa0 + key.len() as u8);
        expected.extend_from_slice(key.as_bytes());
        expected.push(if on { 0xc3 } else { 0xc2 });
    }
    assert_eq!(bytes, expected);
}

#[test]
fn oversized_grid_requests_are_ignored() {
    let mut editor = Editor::new();
    editor.on_redraw_event(RedrawEvent::GridResize {
        grid: 1,
        width: u64::MAX,
        height: u64::MAX,
    });
    editor.on_redraw_event(RedrawEvent::Flush);
    assert_eq!(editor.acquire().rows(), 0);
}

#[test]
fn reader_output_is_safe_before_any_publication() {
    let mut tb = new_triple_buffer();
    assert_eq!(tb.output().rows(), 0);
    let _ = tb.acquire();
    assert_eq!(tb.output().rows(), 0);
}
