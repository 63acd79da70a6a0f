use weovim::events::{GridCell, GridLine, GridScroll};
use weovim::highlight::HighlightGroups;
use weovim::lines::{GridError, Lines, RenderedLine};

fn cell(text: &str, hl_id: u64, repeated: u64) -> GridCell {
    GridCell { text: text.to_string(), hl_id, repeated }
}

fn line(row: u64, col_start: u64, cells: Vec<GridCell>) -> GridLine {
    GridLine { grid: 1, row, col_start, cells }
}

fn rendered(grid: &mut Lines) -> Vec<RenderedLine> {
    grid.render();
    let groups = HighlightGroups::default();
    grid.rendered_lines(&groups)
}

#[test]
fn resize_and_update_render_a_row() {
    let mut grid = Lines::default();
    grid.resize(1, 10);
    assert_eq!(grid.rows(), 1);
    assert_eq!(grid.cols(), 10);
    grid.update_line(&line(0, 0, vec![cell("H", 1, 1), cell("i", 1, 4)])).unwrap();
    let rows = rendered(&mut grid);
    assert_eq!(rows.len(), 1);
    assert_eq!(rows[0].text(), "Hiiii");
    assert_eq!(rows[0].n_sections(), 1);
    assert_eq!(rows[0].sections[0].start, 0);
    assert_eq!(rows[0].sections[0].end, 5);
}

#[test]
fn sections_cover_the_text_without_gaps() {
    let mut grid = Lines::default();
    grid.resize(1, 8);
    grid.update_line(
        &line(0, 0, vec![cell("a", 1, 2), cell("b", 2, 3), cell("c", 1, 3)]),
    )
    .unwrap();
    let rows = rendered(&mut grid);
    let row = &rows[0];
    assert_eq!(row.text(), "aabbbccc");
    // Contiguous coverage from 0 to the full length, no overlaps, and no
    // two neighbours with the same style boundary id are possible here.
    let mut at = 0;
    for sec in &row.sections {
        assert_eq!(sec.start, at);
        assert!(sec.end > sec.start);
        at = sec.end;
    }
    assert_eq!(at, row.text().chars().count());
    assert_eq!(row.n_sections(), 3);
}

#[test]
fn update_beyond_the_row_is_rejected_whole() {
    let mut grid = Lines::default();
    grid.resize(2, 4);
    // Nine cells into a four-column row.
    let r = grid.update_line(&line(0, 0, vec![cell("x", 1, 9)]));
    assert_eq!(r, Err(GridError::OutOfBounds));
    // A row the grid does not have.
    let r = grid.update_line(&line(5, 0, vec![cell("x", 1, 1)]));
    assert_eq!(r, Err(GridError::OutOfBounds));
    // The rejected updates changed nothing.
    let rows = rendered(&mut grid);
    assert_eq!(rows[0].text(), "");
}

#[test]
fn update_tail_keeps_the_rest_of_the_row() {
    let mut grid = Lines::default();
    grid.resize(1, 6);
    grid.update_line(&line(0, 0, vec![cell("a", 1, 6)])).unwrap();
    grid.update_line(&line(0, 2, vec![cell("b", 1, 2)])).unwrap();
    let rows = rendered(&mut grid);
    assert_eq!(rows[0].text(), "aabbaa");
}

#[test]
fn clear_resets_cells_but_not_the_shape() {
    let mut grid = Lines::default();
    grid.resize(2, 3);
    grid.update_line(&line(0, 0, vec![cell("x", 1, 3)])).unwrap();
    grid.clear();
    assert_eq!(grid.rows(), 2);
    assert_eq!(grid.cols(), 3);
    let rows = rendered(&mut grid);
    assert_eq!(rows[0].text(), "");
    assert_eq!(rows[1].text(), "");
}

#[test]
fn scroll_moves_rows_up_and_spares_the_outside() {
    let mut grid = Lines::default();
    grid.resize(7, 10);
    for r in 0..7u64 {
        let text = ((b'a' + r as u8) as char).to_string();
        grid.update_line(&line(r, 0, vec![cell(&text, 1, 10)])).unwrap();
    }
    // Scroll the region rows 2..=5, all ten columns, up by two rows.
    grid.scroll(&GridScroll { grid: 1, top: 2, bottom: 5, left: 0, right: 10, rows: 2 })
        .unwrap();
    let rows = rendered(&mut grid);
    // Row 2 now shows what row 4 held before the scroll.
    assert_eq!(rows[2].text(), "eeeeeeeeee");
    assert_eq!(rows[3].text(), "ffffffffff");
    // Rows outside the region are untouched.
    assert_eq!(rows[0].text(), "aaaaaaaaaa");
    assert_eq!(rows[1].text(), "bbbbbbbbbb");
    assert_eq!(rows[6].text(), "gggggggggg");
    // The vacated rows keep their stale content until a line update.
    assert_eq!(rows[4].text(), "eeeeeeeeee");
    assert_eq!(rows[5].text(), "ffffffffff");
}

#[test]
fn scroll_moves_rows_down_in_the_safe_order() {
    let mut grid = Lines::default();
    grid.resize(6, 4);
    for r in 0..6u64 {
        let text = ((b'a' + r as u8) as char).to_string();
        grid.update_line(&line(r, 0, vec![cell(&text, 1, 4)])).unwrap();
    }
    grid.scroll(&GridScroll { grid: 1, top: 1, bottom: 4, left: 0, right: 4, rows: -1 })
        .unwrap();
    let rows = rendered(&mut grid);
    assert_eq!(rows[0].text(), "aaaa");
    assert_eq!(rows[2].text(), "bbbb");
    assert_eq!(rows[3].text(), "cccc");
    assert_eq!(rows[4].text(), "dddd");
    assert_eq!(rows[5].text(), "ffff");
}

#[test]
fn scroll_on_a_partial_column_span_leaves_other_columns() {
    let mut grid = Lines::default();
    grid.resize(4, 4);
    grid.update_line(&line(0, 0, vec![cell("a", 1, 4)])).unwrap();
    grid.update_line(&line(1, 0, vec![cell("b", 1, 4)])).unwrap();
    grid.scroll(&GridScroll { grid: 1, top: 0, bottom: 1, left: 0, right: 2, rows: 1 })
        .unwrap();
    let rows = rendered(&mut grid);
    assert_eq!(rows[0].text(), "bbaa");
    assert_eq!(rows[1].text(), "bbbb");
}

#[test]
fn scroll_outside_the_grid_is_rejected() {
    let mut grid = Lines::default();
    grid.resize(3, 3);
    let r = grid.scroll(&GridScroll { grid: 1, top: 0, bottom: 5, left: 0, right: 3, rows: 1 });
    assert_eq!(r, Err(GridError::OutOfBounds));
    let r = grid.scroll(&GridScroll { grid: 1, top: 0, bottom: 2, left: 2, right: 1, rows: 1 });
    assert_eq!(r, Err(GridError::OutOfBounds));
    // A move of zero rows is a valid no-op.
    assert!(grid.scroll(&GridScroll { grid: 1, top: 0, bottom: 2, left: 0, right: 3, rows: 0 })
        .is_ok());
}

#[test]
fn render_twice_is_byte_identical() {
    let mut grid = Lines::default();
    grid.resize(2, 5);
    grid.update_line(&line(0, 0, vec![cell("x", 3, 2), cell("y", 4, 3)])).unwrap();
    let groups = HighlightGroups::default();
    grid.render();
    let first: Vec<(String, Vec<(usize, usize)>)> = grid
        .rendered_lines(&groups)
        .iter()
        .map(|l| {
            (l.text().to_string(), l.sections.iter().map(|s| (s.start, s.end)).collect())
        })
        .collect();
    grid.render();
    let second: Vec<(String, Vec<(usize, usize)>)> = grid
        .rendered_lines(&groups)
        .iter()
        .map(|l| {
            (l.text().to_string(), l.sections.iter().map(|s| (s.start, s.end)).collect())
        })
        .collect();
    assert_eq!(first, second);
}

#[test]
fn cell_text_is_capped_at_the_combining_limit() {
    let mut grid = Lines::default();
    grid.resize(1, 2);
    grid.update_line(&line(0, 0, vec![cell("abcdefgh", 1, 1)])).unwrap();
    let rows = rendered(&mut grid);
    assert_eq!(rows[0].text(), "abcdef");
}

#[test]
fn double_width_filler_renders_as_nothing() {
    let mut grid = Lines::default();
    grid.resize(1, 4);
    grid.update_line(&line(0, 0, vec![cell("永", 2, 1), cell("", 2, 1), cell("!", 2, 1)]))
        .unwrap();
    let rows = rendered(&mut grid);
    assert_eq!(rows[0].text(), "永!");
    assert_eq!(rows[0].n_sections(), 1);
}

#[test]
fn a_zero_repeat_cell_writes_nothing() {
    let mut grid = Lines::default();
    grid.resize(1, 3);
    grid.update_line(&line(0, 0, vec![cell("x", 1, 0), cell("y", 1, 3)])).unwrap();
    let rows = rendered(&mut grid);
    assert_eq!(rows[0].text(), "yyy");
}

#[test]
fn an_empty_grid_renders_no_rows() {
    let mut grid = Lines::default();
    let rows = rendered(&mut grid);
    assert_eq!(rows.len(), 0);
}
