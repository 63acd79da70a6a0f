use weovim::events::{
    decode_batch, decode_message, decode_read, ensure_parameters_count, read_color, CursorShape,
    ReadStatus, RedrawEvent, UiOption,
};
use weovim::msgpack::{
    read_array_len, read_bool, read_i64, read_map_len, read_string, read_u64, skip_value,
};

fn uint(out: &mut Vec<u8>, v: u64) {
    if v < 0x80 {
        out.push(v as u8);
    } else if v <= 0xFF {
        out.push(0xcc);
        out.push(v as u8);
    } else if v <= 0xFFFF {
        out.push(0xcd);
        out.extend_from_slice(&(v as u16).to_be_bytes());
    } else if v <= 0xFFFF_FFFF {
        out.push(0xce);
        out.extend_from_slice(&(v as u32).to_be_bytes());
    } else {
        out.push(0xcf);
        out.extend_from_slice(&v.to_be_bytes());
    }
}

fn sint8(out: &mut Vec<u8>, v: i8) {
    out.push(0xd0);
    out.push(v as u8);
}

fn fixstr(out: &mut Vec<u8>, s: &str) {
    assert!(s.len() < 32);
    out.push(0xa0 + s.len() as u8);
    out.extend_from_slice(s.as_bytes());
}

fn array(out: &mut Vec<u8>, n: usize) {
    assert!(n < 16);
    out.push(0x90 + n as u8);
}

fn map(out: &mut Vec<u8>, n: usize) {
    assert!(n < 16);
    out.push(0x80 + n as u8);
}

fn boolean(out: &mut Vec<u8>, b: bool) {
    out.push(if b { 0xc3 } else { 0xc2 });
}

#[test]
fn read_u64_accepts_every_unsigned_form() {
    assert_eq!(read_u64(&[0x07], 0), Some((7, 1)));
    assert_eq!(read_u64(&[0xcc, 0xFF], 0), Some((255, 2)));
    assert_eq!(read_u64(&[0xcd, 0x01, 0x00], 0), Some((256, 3)));
    assert_eq!(read_u64(&[0xce, 0x00, 0x01, 0x00, 0x00], 0), Some((65536, 5)));
    assert_eq!(
        read_u64(&[0xcf, 0xFF, 0xFF, 0xFF, 0xFF, 0xFF, 0xFF, 0xFF, 0xFF], 0),
        Some((u64::MAX, 9))
    );
    // A nonnegative value under a signed marker is accepted too.
    assert_eq!(read_u64(&[0xd0, 0x05], 0), Some((5, 2)));
}

#[test]
fn read_u64_rejects_negatives_and_truncation() {
    assert_eq!(read_u64(&[0xe5], 0), None);
    assert_eq!(read_u64(&[0xd0, 0x80], 0), None);
    assert_eq!(read_u64(&[0xcd, 0x01], 0), None);
    assert_eq!(read_u64(&[], 0), None);
}

#[test]
fn read_i64_handles_signs() {
    assert_eq!(read_i64(&[0xe5], 0), Some((-27, 1)));
    assert_eq!(read_i64(&[0xd0, 0xFE], 0), Some((-2, 2)));
    assert_eq!(read_i64(&[0xd1, 0xFF, 0x00], 0), Some((-256, 3)));
    assert_eq!(read_i64(&[0x11], 0), Some((17, 1)));
    // A u64 beyond the i64 range is rejected.
    assert_eq!(
        read_i64(&[0xcf, 0xFF, 0xFF, 0xFF, 0xFF, 0xFF, 0xFF, 0xFF, 0xFF], 0),
        None
    );
}

#[test]
fn read_headers_and_bool() {
    assert_eq!(read_array_len(&[0x93], 0), Some((3, 1)));
    assert_eq!(read_array_len(&[0xdc, 0x01, 0x00], 0), Some((256, 3)));
    assert_eq!(read_map_len(&[0x82], 0), Some((2, 1)));
    assert_eq!(read_bool(&[0xc3], 0), Some((true, 1)));
    assert_eq!(read_bool(&[0xc2], 0), Some((false, 1)));
    assert_eq!(read_bool(&[0x01], 0), None);
}

#[test]
fn read_string_decodes_utf8_and_rejects_invalid() {
    let mut b = Vec::new();
    fixstr(&mut b, "héllo");
    let (s, p) = read_string(&b, 0).unwrap();
    assert_eq!(s, "héllo");
    assert_eq!(p, b.len());
    // A lone continuation byte is not UTF-8.
    let bad = [0xa1, 0x80];
    assert_eq!(read_string(&bad, 0), None);
}

#[test]
fn skip_value_crosses_nested_structures() {
    let mut b = Vec::new();
    array(&mut b, 2);
    map(&mut b, 1);
    fixstr(&mut b, "k");
    uint(&mut b, 300);
    fixstr(&mut b, "tail");
    uint(&mut b, 1);
    let after = skip_value(&b, 0, b.len()).unwrap();
    assert_eq!(read_u64(&b, after), Some((1, b.len())));
}

#[test]
fn parameter_count_is_enforced() {
    assert_eq!(ensure_parameters_count(&[0x92, 0x01, 0x02], 0, 2), Some(1));
    assert_eq!(ensure_parameters_count(&[0x92, 0x01, 0x02], 0, 3), None);
}

#[test]
fn read_color_unpacks_channels() {
    let mut b = Vec::new();
    uint(&mut b, 0xFF8040);
    let (c, _) = read_color(&b, 0).unwrap();
    assert_eq!(c.r, 0xFF);
    assert_eq!(c.g, 0x80);
    assert_eq!(c.b, 0x40);
    assert_eq!(c.a, 0xFF);
}

#[test]
fn grid_line_carries_highlight_forward() {
    // One batch: grid_line with two tuples; only the first names an id.
    let mut b = Vec::new();
    array(&mut b, 1);
    array(&mut b, 2);
    fixstr(&mut b, "grid_line");
    array(&mut b, 4);
    uint(&mut b, 1); // grid
    uint(&mut b, 0); // row
    uint(&mut b, 0); // col_start
    array(&mut b, 2); // two cells
    array(&mut b, 3);
    fixstr(&mut b, "H");
    uint(&mut b, 7);
    uint(&mut b, 1);
    array(&mut b, 1);
    fixstr(&mut b, "i");
    let (events, p) = decode_batch(&b, 0).unwrap();
    assert_eq!(p, b.len());
    assert_eq!(events.len(), 1);
    match &events[0] {
        RedrawEvent::GridLine(line) => {
            assert_eq!(line.grid, 1);
            assert_eq!(line.cells.len(), 2);
            assert_eq!(line.cells[0].text, "H");
            assert_eq!(line.cells[0].hl_id, 7);
            assert_eq!(line.cells[1].text, "i");
            assert_eq!(line.cells[1].hl_id, 7);
            assert_eq!(line.cells[1].repeated, 1);
        }
        other => panic!("expected a grid line event, got {:?}", other),
    }
}

#[test]
fn grid_line_without_any_highlight_fails() {
    // The first tuple omits its id: nothing can be carried forward.
    let mut b = Vec::new();
    array(&mut b, 1);
    array(&mut b, 2);
    fixstr(&mut b, "grid_line");
    array(&mut b, 4);
    uint(&mut b, 1);
    uint(&mut b, 0);
    uint(&mut b, 0);
    array(&mut b, 1);
    array(&mut b, 1);
    fixstr(&mut b, "x");
    assert!(decode_batch(&b, 0).is_none());
}

#[test]
fn unknown_event_names_are_skipped() {
    let mut b = Vec::new();
    array(&mut b, 2);
    // A name the decoder does not know, whose tuple must be skipped whole.
    array(&mut b, 2);
    fixstr(&mut b, "tabline_update");
    array(&mut b, 2);
    uint(&mut b, 1);
    fixstr(&mut b, "ignored");
    // Followed by a recognized batch.
    array(&mut b, 2);
    fixstr(&mut b, "flush");
    array(&mut b, 0);
    let (events, p) = decode_batch(&b, 0).unwrap();
    assert_eq!(p, b.len());
    assert_eq!(events.len(), 1);
    assert!(matches!(events[0], RedrawEvent::Flush));
}

#[test]
fn mode_info_set_reads_shapes_and_percentages() {
    let mut b = Vec::new();
    array(&mut b, 1);
    array(&mut b, 2);
    fixstr(&mut b, "mode_info_set");
    array(&mut b, 2);
    boolean(&mut b, true);
    array(&mut b, 2);
    map(&mut b, 2);
    fixstr(&mut b, "cursor_shape");
    fixstr(&mut b, "vertical");
    fixstr(&mut b, "cell_percentage");
    uint(&mut b, 25);
    map(&mut b, 1);
    fixstr(&mut b, "cursor_shape");
    fixstr(&mut b, "horizontal");
    let (events, _) = decode_batch(&b, 0).unwrap();
    match &events[0] {
        RedrawEvent::ModeInfoSet { cursor_style_enabled, mode_infos } => {
            assert!(cursor_style_enabled);
            assert_eq!(mode_infos.len(), 2);
            assert_eq!(mode_infos[0].cursor_shape, CursorShape::Vertical);
            assert_eq!(mode_infos[0].cell_percentage, 25);
            assert_eq!(mode_infos[1].cursor_shape, CursorShape::Horizontal);
        }
        other => panic!("expected mode info, got {:?}", other),
    }
}

#[test]
fn unknown_cursor_shape_is_a_decode_error() {
    let mut b = Vec::new();
    array(&mut b, 1);
    array(&mut b, 2);
    fixstr(&mut b, "mode_info_set");
    array(&mut b, 2);
    boolean(&mut b, false);
    array(&mut b, 1);
    map(&mut b, 1);
    fixstr(&mut b, "cursor_shape");
    fixstr(&mut b, "diagonal");
    assert!(decode_batch(&b, 0).is_none());
}

#[test]
fn hl_attr_define_reads_colors_and_flags() {
    let mut b = Vec::new();
    array(&mut b, 1);
    array(&mut b, 2);
    fixstr(&mut b, "hl_attr_define");
    array(&mut b, 4);
    uint(&mut b, 5);
    map(&mut b, 3);
    fixstr(&mut b, "background");
    uint(&mut b, 0x00FF00);
    fixstr(&mut b, "bold");
    boolean(&mut b, true);
    fixstr(&mut b, "blend");
    uint(&mut b, 30);
    map(&mut b, 0); // terminal attributes, read and discarded
    array(&mut b, 0); // info
    let (events, _) = decode_batch(&b, 0).unwrap();
    match &events[0] {
        RedrawEvent::HlAttrDefine(h) => {
            assert_eq!(h.id, 5);
            let bg = h.rgb_attr.background.unwrap();
            assert_eq!((bg.r, bg.g, bg.b), (0, 0xFF, 0));
            assert!(h.rgb_attr.bold);
            assert!(!h.rgb_attr.italic);
            assert!(h.rgb_attr.foreground.is_none());
            assert_eq!(h.rgb_attr.blend, 30);
        }
        other => panic!("expected a highlight definition, got {:?}", other),
    }
}

#[test]
fn grid_scroll_reads_negative_rows() {
    let mut b = Vec::new();
    array(&mut b, 1);
    array(&mut b, 2);
    fixstr(&mut b, "grid_scroll");
    array(&mut b, 7);
    uint(&mut b, 1);
    uint(&mut b, 2); // top
    uint(&mut b, 5); // bottom
    uint(&mut b, 0); // left
    uint(&mut b, 10); // right
    sint8(&mut b, -2); // rows
    uint(&mut b, 0); // columns, reserved
    let (events, _) = decode_batch(&b, 0).unwrap();
    match &events[0] {
        RedrawEvent::GridScroll(s) => {
            assert_eq!((s.top, s.bottom, s.left, s.right), (2, 5, 0, 10));
            assert_eq!(s.rows, -2);
        }
        other => panic!("expected a scroll event, got {:?}", other),
    }
}

#[test]
fn option_set_distinguishes_kinds() {
    let mut b = Vec::new();
    array(&mut b, 1);
    array(&mut b, 3);
    fixstr(&mut b, "option_set");
    array(&mut b, 2);
    fixstr(&mut b, "ext_linegrid");
    boolean(&mut b, true);
    array(&mut b, 2);
    fixstr(&mut b, "linespace");
    sint8(&mut b, -1);
    let (events, _) = decode_batch(&b, 0).unwrap();
    assert_eq!(events.len(), 2);
    match &events[0] {
        RedrawEvent::OptionSet(UiOption::Toggle { option, value }) => {
            assert_eq!(option, "ext_linegrid");
            assert!(value);
        }
        other => panic!("expected a toggle option, got {:?}", other),
    }
    match &events[1] {
        RedrawEvent::OptionSet(UiOption::Int { option, value }) => {
            assert_eq!(option, "linespace");
            assert_eq!(*value, -1);
        }
        other => panic!("expected an integer option, got {:?}", other),
    }
}

fn redraw_frame(payload: &[u8]) -> Vec<u8> {
    let mut b = Vec::new();
    array(&mut b, 3);
    uint(&mut b, 2); // notification
    fixstr(&mut b, "redraw");
    b.extend_from_slice(payload);
    b
}

#[test]
fn decode_read_walks_every_frame() {
    let mut payload = Vec::new();
    array(&mut payload, 1);
    array(&mut payload, 2);
    fixstr(&mut payload, "busy_start");
    array(&mut payload, 0);
    let mut b = redraw_frame(&payload);
    b.extend_from_slice(&redraw_frame(&payload));
    let (events, status) = decode_read(&b);
    assert_eq!(status, ReadStatus::Complete);
    assert_eq!(events.len(), 2);
    assert!(matches!(events[0], RedrawEvent::Busy(true)));
}

#[test]
fn decode_read_abandons_other_traffic() {
    let mut payload = Vec::new();
    array(&mut payload, 1);
    array(&mut payload, 2);
    fixstr(&mut payload, "flush");
    array(&mut payload, 0);
    let mut b = redraw_frame(&payload);
    // A response frame: the rest of the read is ignorable.
    let mut resp = Vec::new();
    array(&mut resp, 4);
    uint(&mut resp, 1);
    b.extend_from_slice(&resp);
    let (events, status) = decode_read(&b);
    assert_eq!(status, ReadStatus::Interrupted);
    assert_eq!(events.len(), 1);
}

#[test]
fn decode_read_reports_malformed_frames() {
    let mut payload = Vec::new();
    array(&mut payload, 1);
    array(&mut payload, 2);
    fixstr(&mut payload, "flush");
    array(&mut payload, 0);
    let mut b = redraw_frame(&payload);
    b.push(0xc1); // never a value
    let (events, status) = decode_read(&b);
    assert_eq!(status, ReadStatus::Failed);
    assert_eq!(events.len(), 1);
}

#[test]
fn decode_message_hands_back_positions() {
    let mut payload = Vec::new();
    array(&mut payload, 1);
    array(&mut payload, 2);
    fixstr(&mut payload, "mouse_on");
    array(&mut payload, 0);
    let b = redraw_frame(&payload);
    let (events, p) = decode_message(&b, 0).unwrap();
    assert_eq!(p, b.len());
    let events = events.unwrap();
    assert!(matches!(events[0], RedrawEvent::Mouse(true)));
}
