//! The grid state engine: a flat cell matrix with run-length updates,
//! scroll-region moves, resizes, dirty-row tracking, and a cached,
//! highlight-sectioned textual rendering of each row.

use crate::cursor::Cursor;
use crate::events::{GridCell, GridCellV, GridLine, GridScroll};
use vstd::prelude::*;
use vstd::string::StrSliceExecFns;

verus! {

broadcast use vstd::slice::axiom_spec_len;

/// Relies on String::push: appends the given char to the end of the string.
pub assume_specification[ String::push ](s: &mut String, ch: char)
    ensures
        final(s)@ == old(s)@.push(ch),
;

/// Relies on String::clear: truncates the string, removing all contents.
pub assume_specification[ String::clear ](s: &mut String)
    ensures
        final(s)@ == Seq::<char>::empty(),
;

/// The longest combining sequence a cell can hold: the editor's own limit on
/// composing characters.
pub const MAX_COMBINE: usize = 6;

/// One cell of the grid: a grapheme cluster of at most [`MAX_COMBINE`]
/// characters and its highlight group. A cell with empty text renders as
/// nothing: it is the right half of a double-width character, or a cell no
/// update has reached yet.
#[derive(Debug)]
pub struct LineCell {
    /// The characters shown in the cell.
    pub text: String,
    /// The highlight group of the cell.
    pub hl_id: u64,
}

/// Spec-level value of a [`LineCell`].
pub struct LineCellV {
    pub text: Seq<char>,
    pub hl_id: u64,
}

impl View for LineCell {
    type V = LineCellV;

    open spec fn view(&self) -> LineCellV {
        LineCellV { text: self.text@, hl_id: self.hl_id }
    }
}

/// The cell no update has reached: empty text, and a highlight id no group
/// uses, so that a real update always starts a fresh section.
pub open spec fn empty_cell() -> LineCellV {
    LineCellV { text: Seq::empty(), hl_id: u64::MAX }
}

impl Default for LineCell {
    /// The cell no update has reached yet.
    fn default() -> (r: Self)
        ensures
            r@ == empty_cell(),
    {
        LineCell { text: String::new(), hl_id: u64::MAX }
    }
}

impl Clone for LineCell {
    fn clone(&self) -> (r: Self)
        ensures
            r@ == self@,
    {
        LineCell { text: self.text.clone(), hl_id: self.hl_id }
    }
}

impl LineCell {
    /// Builds the cell a decoded update describes, keeping at most
    /// [`MAX_COMBINE`] characters of its text.
    pub fn new(cell: &GridCell) -> (r: Self)
        ensures
            r@ == cell_to_line_cell(cell@),
    {
        let mut r = LineCell::default();
        r.update(cell);
        r
    }

    /// Resets the cell to the state no update has reached.
    pub fn clear(&mut self)
        ensures
            final(self)@ == empty_cell(),
    {
        *self = LineCell::default();
    }

    /// Overwrites the cell from a decoded update, keeping at most
    /// [`MAX_COMBINE`] characters of its text.
    pub fn update(&mut self, cell: &GridCell)
        ensures
            final(self)@ == cell_to_line_cell(cell@),
    {
        let len = cell.text.as_str().unicode_len();
        if len <= MAX_COMBINE {
            self.text = cell.text.clone();
        } else {
            self.text = cell.text.as_str().substring_char(0, MAX_COMBINE).to_owned();
            proof {
                assert(self.text@ =~= cell.text@.take(MAX_COMBINE as int));
            }
        }
        self.hl_id = cell.hl_id;
    }
}

/// The grid cell a decoded update cell stands for, its text truncated to
/// [`MAX_COMBINE`] characters.
pub open spec fn cell_to_line_cell(c: GridCellV) -> LineCellV {
    LineCellV {
        text: if c.text.len() <= MAX_COMBINE {
            c.text
        } else {
            c.text.take(MAX_COMBINE as int)
        },
        hl_id: c.hl_id,
    }
}

/// A maximal run of one rendered row sharing a single highlight id.
#[derive(Debug, Copy, Clone, PartialEq, Eq, Structural)]
pub struct Section {
    /// The highlight id shared by the run.
    pub hl: u64,
    /// The first character of the run.
    pub start: usize,
    /// One past the last character of the run.
    pub end: usize,
}

/// The cached rendering of one row: its text, and the maximal sections of
/// equal highlight.
#[derive(Debug)]
pub struct SectionedLine {
    /// The full text of the row.
    pub text: String,
    /// The maximal runs of equal highlight, in order, covering `text`.
    pub sections: Vec<Section>,
}

/// Spec-level value of a [`SectionedLine`].
pub struct SectionedLineV {
    pub text: Seq<char>,
    pub sections: Seq<Section>,
}

impl View for SectionedLine {
    type V = SectionedLineV;

    open spec fn view(&self) -> SectionedLineV {
        SectionedLineV { text: self.text@, sections: self.sections@ }
    }
}

/// The empty rendering.
pub open spec fn empty_sectioned() -> SectionedLineV {
    SectionedLineV { text: Seq::empty(), sections: Seq::empty() }
}

impl Default for SectionedLine {
    /// The empty rendering.
    fn default() -> (r: Self)
        ensures
            r@ == empty_sectioned(),
    {
        SectionedLine { text: String::new(), sections: Vec::new() }
    }
}

impl Clone for SectionedLine {
    fn clone(&self) -> (r: Self)
        ensures
            r@ == self@,
    {
        SectionedLine { text: self.text.clone(), sections: self.sections.clone() }
    }
}

impl SectionedLine {
    /// Empties the cached rendering, keeping its allocations.
    pub fn clear(&mut self)
        ensures
            final(self)@ == empty_sectioned(),
    {
        self.text.clear();
        self.sections.clear();
    }
}

/// The characters a row of cells renders to: each cell's text in order;
/// a cell with empty text contributes nothing.
pub open spec fn row_chars(cells: Seq<LineCellV>) -> Seq<char>
    decreases cells.len(),
{
    if cells.len() == 0 {
        Seq::empty()
    } else {
        cells[0].text + row_chars(cells.drop_first())
    }
}

/// The highlight id behind each rendered character: a cell's id repeated
/// once per character of its text.
pub open spec fn row_hls(cells: Seq<LineCellV>) -> Seq<u64>
    decreases cells.len(),
{
    if cells.len() == 0 {
        Seq::empty()
    } else {
        Seq::new(cells[0].text.len(), |i: int| cells[0].hl_id) + row_hls(cells.drop_first())
    }
}

/// Appending one cell extends the rendered characters and ids at the end.
pub proof fn lemma_row_push(cells: Seq<LineCellV>, c: LineCellV)
    ensures
        row_chars(cells.push(c)) == row_chars(cells) + c.text,
        row_hls(cells.push(c)) == row_hls(cells) + Seq::new(c.text.len(), |i: int| c.hl_id),
    decreases cells.len(),
{
    let s1 = cells.push(c);
    let ids = Seq::new(c.text.len(), |i: int| c.hl_id);
    assert(s1[0] == if cells.len() == 0 {
        c
    } else {
        cells[0]
    });
    if cells.len() == 0 {
        assert(s1.drop_first() =~= Seq::<LineCellV>::empty());
        assert(row_chars(s1.drop_first()) =~= Seq::<char>::empty());
        assert(row_chars(s1) =~= row_chars(cells) + c.text);
        assert(row_hls(s1.drop_first()) =~= Seq::<u64>::empty());
        assert(row_hls(s1) =~= row_hls(cells) + ids);
    } else {
        lemma_row_push(cells.drop_first(), c);
        assert(s1.drop_first() =~= cells.drop_first().push(c));
        assert(row_chars(s1) == s1[0].text + row_chars(s1.drop_first()));
        assert(row_chars(s1) =~= row_chars(cells) + c.text);
        assert(row_hls(s1) == Seq::new(s1[0].text.len(), |i: int| s1[0].hl_id) + row_hls(
            s1.drop_first(),
        ));
        assert(Seq::new(s1[0].text.len(), |i: int| s1[0].hl_id) =~= Seq::new(
            cells[0].text.len(),
            |i: int| cells[0].hl_id,
        ));
        assert(row_hls(s1) =~= row_hls(cells) + ids);
    }
}

/// The rendered characters and their ids line up.
pub proof fn lemma_row_lens(cells: Seq<LineCellV>)
    ensures
        row_chars(cells).len() == row_hls(cells).len(),
    decreases cells.len(),
{
    if cells.len() > 0 {
        lemma_row_lens(cells.drop_first());
    }
}

/// `sections` is exactly the list of maximal runs of equal ids in `hls`:
/// the sections are nonempty, contiguous from 0 to `hls.len()`, each
/// constant in `hls`, and no two neighbours share an id.
pub open spec fn sections_ok(sections: Seq<Section>, hls: Seq<u64>) -> bool {
    if hls.len() == 0 {
        sections.len() == 0
    } else {
        &&& sections.len() > 0
        &&& sections[0].start == 0
        &&& sections.last().end == hls.len()
        &&& forall|i: int| 0 <= i < sections.len() ==> (#[trigger] sections[i]).start
            < sections[i].end
        &&& forall|i: int| 0 < i < sections.len() ==> (#[trigger] sections[i]).start == sections[
            i - 1
        ].end
        &&& forall|i: int, j: int|
            0 <= i < sections.len() && (#[trigger] sections[i]).start <= j < sections[i].end
                ==> #[trigger] hls[j] == sections[i].hl
        &&& forall|i: int| 0 < i < sections.len() ==> (#[trigger] sections[i]).hl != sections[
            i - 1
        ].hl
    }
}

/// A cached rendering is faithful to its row of cells: the text is what the
/// cells render to and the sections are the maximal equal-highlight runs.
pub open spec fn rendered(sl: SectionedLineV, cells: Seq<LineCellV>) -> bool {
    &&& sl.text == row_chars(cells)
    &&& sections_ok(sl.sections, row_hls(cells))
}


/// Errors of the grid engine: an update or scroll that names cells outside
/// the grid is a protocol violation, rejected rather than trusted.
#[derive(Debug, Copy, Clone, PartialEq, Eq, Structural)]
pub enum GridError {
    /// The event names a row or column span outside the grid.
    OutOfBounds,
}

/// The grid: a flat cell matrix in row-major order, the per-row rendering
/// cache, the dirty-row flags, and the cursor carried with the snapshot.
#[derive(Debug)]
pub struct Lines {
    /// Row `r` occupies `cells[r * cols..(r + 1) * cols]`.
    cells: Vec<LineCell>,
    rows: usize,
    cols: usize,
    cached_sections: Vec<SectionedLine>,
    dirty_lines: Vec<bool>,
    cursor: Cursor,
}

/// Spec-level value of a [`Lines`].
pub struct LinesV {
    /// Row `r` occupies `cells[r * cols..(r + 1) * cols]`.
    pub cells: Seq<LineCellV>,
    /// Number of rows.
    pub rows: int,
    /// Number of columns.
    pub cols: int,
    /// The cached rendering of each row.
    pub cached: Seq<SectionedLineV>,
    /// Whether each row's cached rendering is stale.
    pub dirty: Seq<bool>,
    /// The cursor to present with the grid.
    pub cursor: Cursor,
}

impl View for Lines {
    type V = LinesV;

    closed spec fn view(&self) -> LinesV {
        LinesV {
            cells: self.cells@.map_values(|c: LineCell| c@),
            rows: self.rows as int,
            cols: self.cols as int,
            cached: self.cached_sections@.map_values(|s: SectionedLine| s@),
            dirty: self.dirty_lines@,
            cursor: self.cursor,
        }
    }
}

/// The grid's shape invariant: the flat cell array holds exactly
/// `rows * cols` cells, there is one cache entry and one dirty flag per row,
/// and no cell's text exceeds [`MAX_COMBINE`] characters.
pub open spec fn wf(v: LinesV) -> bool {
    &&& v.rows >= 0
    &&& v.cols >= 0
    &&& v.cells.len() == v.rows * v.cols
    &&& v.cached.len() == v.rows
    &&& v.dirty.len() == v.rows
    &&& forall|i: int| 0 <= i < v.cells.len() ==> (#[trigger] v.cells[i]).text.len() <= MAX_COMBINE
}

/// The cells of row `r`.
pub open spec fn row_of(v: LinesV, r: int) -> Seq<LineCellV> {
    v.cells.subrange(r * v.cols, (r + 1) * v.cols)
}

/// Bounds of a row's span inside the flat array.
pub proof fn lemma_row_span(rows: int, cols: int, r: int)
    by (nonlinear_arith)
    requires
        0 <= r < rows,
        cols >= 0,
    ensures
        0 <= r * cols,
        (r + 1) * cols <= rows * cols,
        r * cols + cols == (r + 1) * cols,
{
}

/// Distinct rows occupy disjoint spans.
pub proof fn lemma_rows_disjoint(cols: int, r1: int, r2: int)
    by (nonlinear_arith)
    requires
        0 <= r1 < r2,
        cols >= 0,
    ensures
        (r1 + 1) * cols <= r2 * cols,
{
}

impl Default for Lines {
    /// The empty grid: no rows, no columns, nothing cached.
    fn default() -> (r: Self)
        ensures
            wf(r@),
            r@.rows == 0,
            r@.cols == 0,
            r@.cursor == (Cursor { row: 0, col: 0, shape: crate::events::CursorShape::Block }),
    {
        let r = Lines {
            cells: Vec::new(),
            rows: 0,
            cols: 0,
            cached_sections: Vec::new(),
            dirty_lines: Vec::new(),
            cursor: Cursor::default(),
        };
        proof {
            assert(r@.cells =~= Seq::<LineCellV>::empty());
            assert(r@.cached =~= Seq::<SectionedLineV>::empty());
        }
        r
    }
}

impl Lines {
    /// Resizes the grid, preserving no content: every cell is reset, every
    /// row is marked dirty, and the editor follows with a full repaint.
    pub fn resize(&mut self, rows: usize, columns: usize)
        requires
            rows * columns <= usize::MAX,
        ensures
            wf(final(self)@),
            final(self)@.rows == rows,
            final(self)@.cols == columns,
            final(self)@.cells == Seq::new((rows * columns) as nat, |i: int| empty_cell()),
            final(self)@.dirty == Seq::new(rows as nat, |i: int| true),
            final(self)@.cached == Seq::new(rows as nat, |i: int| empty_sectioned()),
            final(self)@.cursor == old(self)@.cursor,
            final(self)@ == spec_resized(old(self)@.cursor, rows as int, columns as int),
    {
        let n = rows * columns;
        let mut cells: Vec<LineCell> = Vec::new();
        while cells.len() < n
            invariant
                cells@.len() <= n,
                forall|i: int| 0 <= i < cells@.len() ==> (#[trigger] cells@[i])@ == empty_cell(),
            decreases n - cells.len(),
        {
            cells.push(LineCell::default());
        }
        let mut cached: Vec<SectionedLine> = Vec::new();
        while cached.len() < rows
            invariant
                cached@.len() <= rows,
                forall|i: int| 0 <= i < cached@.len() ==> (#[trigger] cached@[i])@
                    == empty_sectioned(),
            decreases rows - cached.len(),
        {
            cached.push(SectionedLine::default());
        }
        let mut dirty: Vec<bool> = Vec::new();
        while dirty.len() < rows
            invariant
                dirty@.len() <= rows,
                forall|i: int| 0 <= i < dirty@.len() ==> (#[trigger] dirty@[i]) == true,
            decreases rows - dirty.len(),
        {
            dirty.push(true);
        }
        self.cells = cells;
        self.rows = rows;
        self.cols = columns;
        self.cached_sections = cached;
        self.dirty_lines = dirty;
        proof {
            assert(final(self)@.cells =~= Seq::new((rows * columns) as nat, |i: int| empty_cell()));
            assert(final(self)@.dirty =~= Seq::new(rows as nat, |i: int| true));
            assert(final(self)@.cached =~= Seq::new(rows as nat, |i: int| empty_sectioned()));
        }
    }

    /// Resets every cell to the empty cell and marks every row dirty,
    /// without changing the grid's shape.
    pub fn clear(&mut self)
        requires
            wf(old(self)@),
        ensures
            wf(final(self)@),
            final(self)@.rows == old(self)@.rows,
            final(self)@.cols == old(self)@.cols,
            final(self)@.cells == Seq::new(old(self)@.cells.len(), |i: int| empty_cell()),
            final(self)@.dirty == Seq::new(old(self)@.rows as nat, |i: int| true),
            final(self)@.cached == Seq::new(old(self)@.rows as nat, |i: int| empty_sectioned()),
            final(self)@.cursor == old(self)@.cursor,
            final(self)@ == spec_cleared(old(self)@),
    {
        let n = self.cells.len();
        let mut i: usize = 0;
        while i < n
            invariant
                i <= n == self.cells@.len(),
                self.rows == old(self).rows,
                self.cols == old(self).cols,
                self.cursor == old(self).cursor,
                self.cached_sections@ == old(self).cached_sections@,
                self.dirty_lines@ == old(self).dirty_lines@,
                forall|j: int| 0 <= j < i ==> (#[trigger] self.cells@[j])@ == empty_cell(),
            decreases n - i,
        {
            self.cells[i] = LineCell::default();
            i = i + 1;
        }
        let rows = self.rows;
        let mut r: usize = 0;
        while r < rows
            invariant
                r <= rows == self.rows,
                self.cols == old(self).cols,
                self.cursor == old(self).cursor,
                self.cells@.len() == old(self).cells@.len(),
                forall|j: int| 0 <= j < self.cells@.len() ==> (#[trigger] self.cells@[j])@
                    == empty_cell(),
                self.cached_sections@.len() == old(self).cached_sections@.len(),
                self.dirty_lines@.len() == old(self).dirty_lines@.len(),
                rows <= self.cached_sections@.len() && rows <= self.dirty_lines@.len(),
                forall|j: int| 0 <= j < r ==> (#[trigger] self.cached_sections@[j])@
                    == empty_sectioned(),
                forall|j: int| 0 <= j < r ==> (#[trigger] self.dirty_lines@[j]) == true,
            decreases rows - r,
        {
            let mut sl = SectionedLine::default();
            self.cached_sections[r] = sl;
            self.dirty_lines[r] = true;
            r = r + 1;
        }
        proof {
            assert(final(self)@.cells =~= Seq::new(old(self)@.cells.len(), |i: int| empty_cell()));
            assert(final(self)@.dirty =~= Seq::new(old(self)@.rows as nat, |i: int| true));
            assert(final(self)@.cached =~= Seq::new(
                old(self)@.rows as nat,
                |i: int| empty_sectioned(),
            ));
        }
    }
}



/// The flat cell run a decoded update describes: each update cell repeated
/// `repeated` times, texts truncated to [`MAX_COMBINE`].
pub open spec fn expand_cells(cells: Seq<GridCellV>) -> Seq<LineCellV>
    decreases cells.len(),
{
    if cells.len() == 0 {
        Seq::empty()
    } else {
        Seq::new(cells[0].repeated as nat, |i: int| cell_to_line_cell(cells[0])) + expand_cells(
            cells.drop_first(),
        )
    }
}

/// How many grid cells a decoded update covers: the sum of its repeat
/// counts.
pub open spec fn expand_len(cells: Seq<GridCellV>) -> int
    decreases cells.len(),
{
    if cells.len() == 0 {
        0int
    } else {
        cells[0].repeated + expand_len(cells.drop_first())
    }
}

/// The expansion's length is the sum of the repeat counts.
pub proof fn lemma_expand_len(cells: Seq<GridCellV>)
    ensures
        expand_cells(cells).len() == expand_len(cells),
        expand_len(cells) >= 0,
    decreases cells.len(),
{
    if cells.len() > 0 {
        lemma_expand_len(cells.drop_first());
    }
}

/// Appending one update cell extends the expansion at the end.
pub proof fn lemma_expand_push(cells: Seq<GridCellV>, c: GridCellV)
    ensures
        expand_cells(cells.push(c)) == expand_cells(cells) + Seq::new(
            c.repeated as nat,
            |i: int| cell_to_line_cell(c),
        ),
        expand_len(cells.push(c)) == expand_len(cells) + c.repeated,
    decreases cells.len(),
{
    let s1 = cells.push(c);
    if cells.len() == 0 {
        assert(s1[0] == c);
        assert(s1.drop_first() =~= Seq::<GridCellV>::empty());
        assert(expand_cells(s1) == Seq::new(s1[0].repeated as nat, |i: int| cell_to_line_cell(
            s1[0],
        )) + expand_cells(s1.drop_first()));
        assert(expand_cells(s1) =~= expand_cells(cells) + Seq::new(
            c.repeated as nat,
            |i: int| cell_to_line_cell(c),
        ));
        assert(expand_len(s1) == s1[0].repeated + expand_len(s1.drop_first()));
    } else {
        lemma_expand_push(cells.drop_first(), c);
        assert(s1.drop_first() =~= cells.drop_first().push(c));
        assert(s1[0] == cells[0]);
        assert(expand_cells(s1) == Seq::new(
            s1[0].repeated as nat,
            |i: int| cell_to_line_cell(s1[0]),
        ) + expand_cells(s1.drop_first()));
        assert(Seq::new(s1[0].repeated as nat, |i: int| cell_to_line_cell(s1[0])) =~= Seq::new(
            cells[0].repeated as nat,
            |i: int| cell_to_line_cell(cells[0]),
        ));
        assert(expand_cells(s1) =~= expand_cells(cells) + Seq::new(
            c.repeated as nat,
            |i: int| cell_to_line_cell(c),
        ));
    }
}

/// Expands a decoded update into the flat cell run it describes, refusing
/// an update longer than `limit` cells.
fn expand_update(cells: &Vec<GridCell>, limit: usize) -> (r: Option<Vec<LineCell>>)
    ensures
        match r {
            Some(v) => v@.map_values(|c: LineCell| c@) == expand_cells(
                cells@.map_values(|c: GridCell| c@),
            ) && v@.len() <= limit,
            None => expand_len(cells@.map_values(|c: GridCell| c@)) > limit,
        },
{
    let ghost all = cells@.map_values(|c: GridCell| c@);
    let mut out: Vec<LineCell> = Vec::new();
    let n = cells.len();
    let mut ci: usize = 0;
    proof {
        assert(all.take(0) =~= Seq::<GridCellV>::empty());
        assert(out@.map_values(|c: LineCell| c@) =~= expand_cells(all.take(0)));
    }
    while ci < n
        invariant
            ci <= n == cells@.len(),
            all == cells@.map_values(|c: GridCell| c@),
            out@.map_values(|c: LineCell| c@) == expand_cells(all.take(ci as int)),
            out@.len() <= limit,
        decreases n - ci,
    {
        proof {
            lemma_expand_len(all.take(ci as int));
        }
        let cell = &cells[ci];
        let rep64 = cell.repeated;
        if rep64 > (limit - out.len()) as u64 {
            proof {
                lemma_expand_split(all, ci as int);
                lemma_expand_len(all.take(ci as int));
                lemma_expand_len(all.skip(ci as int));
                lemma_expand_first_le(all.skip(ci as int));
            }
            return None;
        }
        let rep = rep64 as usize;
        let lc = LineCell::new(cell);
        let ghost out_before = out@;
        let mut k: usize = 0;
        while k < rep
            invariant
                k <= rep,
                out@.len() == out_before.len() + k,
                out@.map_values(|c: LineCell| c@) == out_before.map_values(|c: LineCell| c@)
                    + Seq::new(k as nat, |i: int| cell_to_line_cell(all[ci as int])),
                lc@ == cell_to_line_cell(all[ci as int]),
            decreases rep - k,
        {
            let ghost prev = out@;
            let lc2 = lc.clone();
            out.push(lc2);
            proof {
                assert(out@ =~= prev.push(lc2));
                assert(out@.map_values(|c: LineCell| c@) =~= prev.map_values(
                    |c: LineCell| c@,
                ).push(lc2@));
                assert(out@.map_values(|c: LineCell| c@) =~= out_before.map_values(
                    |c: LineCell| c@,
                ) + Seq::new((k + 1) as nat, |i: int| cell_to_line_cell(all[ci as int])));
            }
            k = k + 1;
        }
        proof {
            lemma_expand_push(all.take(ci as int), all[ci as int]);
            assert(all.take(ci as int).push(all[ci as int]) =~= all.take(ci + 1));
            assert(out@.map_values(|c: LineCell| c@) =~= expand_cells(all.take(ci + 1)));
        }
        ci = ci + 1;
    }
    proof {
        assert(all.take(n as int) =~= all);
    }
    Some(out)
}

/// An update's span splits at any cell boundary.
pub proof fn lemma_expand_split(cells: Seq<GridCellV>, i: int)
    requires
        0 <= i <= cells.len(),
    ensures
        expand_len(cells) == expand_len(cells.take(i)) + expand_len(cells.skip(i)),
    decreases i,
{
    if i == 0 {
        assert(cells.take(0) =~= Seq::<GridCellV>::empty());
        assert(cells.skip(0) =~= cells);
    } else {
        lemma_expand_split(cells.drop_first(), i - 1);
        assert(cells.take(i).drop_first() =~= cells.drop_first().take(i - 1));
        assert(cells.skip(i) =~= cells.drop_first().skip(i - 1));
        assert(cells.take(i)[0] == cells[0]);
        assert(expand_len(cells.take(i)) == cells[0].repeated + expand_len(
            cells.drop_first().take(i - 1),
        ));
    }
}

/// A nonempty update covers at least its first cell's repeat count.
pub proof fn lemma_expand_first_le(cells: Seq<GridCellV>)
    requires
        cells.len() > 0,
    ensures
        expand_len(cells) >= cells[0].repeated,
{
    lemma_expand_len(cells.drop_first());
}



/// Every cell of an expansion keeps its text within [`MAX_COMBINE`].
pub proof fn lemma_expand_bounded(cells: Seq<GridCellV>)
    ensures
        forall|i: int| 0 <= i < expand_cells(cells).len() ==> (#[trigger] expand_cells(
            cells,
        )[i]).text.len() <= MAX_COMBINE,
    decreases cells.len(),
{
    if cells.len() > 0 {
        lemma_expand_bounded(cells.drop_first());
        let a = Seq::new(cells[0].repeated as nat, |i: int| cell_to_line_cell(cells[0]));
        let b = expand_cells(cells.drop_first());
        assert(expand_cells(cells) == a + b);
        assert forall|i: int| 0 <= i < expand_cells(cells).len() implies (#[trigger] expand_cells(
            cells,
        )[i]).text.len() <= MAX_COMBINE by {
            if i < a.len() {
                assert(expand_cells(cells)[i] == a[i]);
            } else {
                assert(expand_cells(cells)[i] == b[i - a.len()]);
            }
        }
    }
}

impl Lines {
    /// Marks one row dirty, dropping its cached rendering.
    fn dirty_line(&mut self, row: usize)
        requires
            wf(old(self)@),
            row < old(self)@.rows,
        ensures
            final(self)@ == (LinesV {
                dirty: old(self)@.dirty.update(row as int, true),
                cached: old(self)@.cached.update(row as int, empty_sectioned()),
                ..old(self)@
            }),
    {
        self.dirty_lines[row] = true;
        let sl = SectionedLine::default();
        self.cached_sections[row] = sl;
        proof {
            assert(final(self)@.cached =~= old(self)@.cached.update(
                row as int,
                empty_sectioned(),
            ));
        }
    }

    /// Overwrites a contiguous run of one row from a decoded update,
    /// repeat-expanded, and marks the row dirty. An update that would reach
    /// past the row's columns, or names a row the grid does not have, is
    /// rejected whole.
    pub fn update_line(&mut self, grid_line: &GridLine) -> (r: Result<(), GridError>)
        requires
            wf(old(self)@),
        ensures
            wf(final(self)@),
            r is Ok <==> (grid_line@.row < old(self)@.rows && grid_line@.col_start + expand_len(
                grid_line@.cells,
            ) <= old(self)@.cols),
            r is Err ==> final(self)@ == old(self)@,
            r is Ok ==> ({
                let row = grid_line@.row as int;
                let base = row * old(self)@.cols + grid_line@.col_start;
                let exp = expand_cells(grid_line@.cells);
                &&& final(self)@.rows == old(self)@.rows
                &&& final(self)@.cols == old(self)@.cols
                &&& final(self)@.cursor == old(self)@.cursor
                &&& final(self)@.dirty == old(self)@.dirty.update(row, true)
                &&& final(self)@.cached == old(self)@.cached.update(row, empty_sectioned())
                &&& final(self)@.cells.len() == old(self)@.cells.len()
                &&& forall|i: int|
                    0 <= i < final(self)@.cells.len() ==> #[trigger] final(self)@.cells[i] == (
                    if base <= i < base + exp.len() {
                        exp[i - base]
                    } else {
                        old(self)@.cells[i]
                    })
                &&& final(self)@ == spec_line_applied(old(self)@, grid_line@)
            }),
    {
        proof {
            lemma_expand_len(grid_line@.cells);
        }
        if grid_line.row >= self.rows as u64 {
            return Err(GridError::OutOfBounds);
        }
        if grid_line.col_start > self.cols as u64 {
            return Err(GridError::OutOfBounds);
        }
        let row = grid_line.row as usize;
        let col_start = grid_line.col_start as usize;
        let limit = self.cols - col_start;
        match expand_update(&grid_line.cells, limit) {
            None => Err(GridError::OutOfBounds),
            Some(exp) => {
                let total = self.cells.len();
                proof {
                    lemma_row_span(self@.rows, self@.cols, row as int);
                    lemma_expand_len(grid_line@.cells);
                    lemma_expand_bounded(grid_line@.cells);
                    assert(row as int * self@.cols + col_start as int + exp@.len()
                        <= total as int);
                }
                let base = row * self.cols + col_start;
                let m = exp.len();
                let ghost expv = exp@.map_values(|c: LineCell| c@);
                let mut j: usize = 0;
                while j < m
                    invariant
                        j <= m == exp@.len(),
                        expv == exp@.map_values(|c: LineCell| c@),
                        base + m <= self.cells@.len() <= usize::MAX,
                        self.cells@.len() == old(self).cells@.len(),
                        self.rows == old(self).rows,
                        self.cols == old(self).cols,
                        self.cursor == old(self).cursor,
                        self.cached_sections@ == old(self).cached_sections@,
                        self.dirty_lines@ == old(self).dirty_lines@,
                        forall|i: int|
                            0 <= i < self.cells@.len() ==> (#[trigger] self.cells@[i])@ == (
                            if base <= i < base + j {
                                expv[i - base]
                            } else {
                                old(self)@.cells[i]
                            }),
                    decreases m - j,
                {
                    let lc = exp[j].clone();
                    self.cells[base + j] = lc;
                    j = j + 1;
                }
                self.dirty_line(row);
                proof {
                    assert(final(self)@.cells =~= self@.cells);
                    assert(final(self)@.cells =~= spec_line_applied(old(self)@, grid_line@).cells);
                    assert(final(self)@.dirty =~= spec_line_applied(old(self)@, grid_line@).dirty);
                    assert(final(self)@.cached =~= spec_line_applied(
                        old(self)@,
                        grid_line@,
                    ).cached);
                }
                Ok(())
            },
        }
    }
}



/// Whether row `r` receives content in the scroll `gs`: both `r` and its
/// source row `r + gs.rows` lie inside the region.
pub open spec fn in_dst(gs: GridScroll, r: int) -> bool {
    gs.rows != 0 && gs.top <= r <= gs.bottom && gs.top <= r + gs.rows <= gs.bottom
}

/// The cell at flat index `i` after the rows of `[lo, hi]` that `gs` moves
/// have been filled from their source rows.
pub open spec fn scrolled_cell(
    cells: Seq<LineCellV>,
    gs: GridScroll,
    cols: int,
    lo: int,
    hi: int,
    i: int,
) -> LineCellV {
    if cols > 0 && in_dst(gs, i / cols) && lo <= i / cols <= hi && gs.left <= i % cols < gs.right {
        cells[i + gs.rows * cols]
    } else {
        cells[i]
    }
}

impl Lines {
    /// Copies the column span `[left, right)` of row `src_row` over the same
    /// span of row `dst_row`. The two rows must differ, so source and
    /// destination never overlap.
    fn copy_span(&mut self, dst_row: usize, src_row: usize, left: usize, right: usize)
        requires
            wf(old(self)@),
            dst_row < old(self)@.rows,
            src_row < old(self)@.rows,
            dst_row != src_row,
            left <= right <= old(self)@.cols,
        ensures
            wf(final(self)@),
            final(self)@ == (LinesV { cells: final(self)@.cells, ..old(self)@ }),
            final(self)@.cells.len() == old(self)@.cells.len(),
            forall|i: int|
                0 <= i < final(self)@.cells.len() ==> #[trigger] final(self)@.cells[i] == (
                if dst_row * old(self)@.cols + left <= i < dst_row * old(self)@.cols + right {
                    old(self)@.cells[i - dst_row * old(self)@.cols + src_row * old(self)@.cols]
                } else {
                    old(self)@.cells[i]
                }),
    {
        proof {
            lemma_row_span(self@.rows, self@.cols, dst_row as int);
            lemma_row_span(self@.rows, self@.cols, src_row as int);
            if dst_row < src_row {
                lemma_rows_disjoint(self@.cols, dst_row as int, src_row as int);
            } else {
                lemma_rows_disjoint(self@.cols, src_row as int, dst_row as int);
            }
        }
        let total = self.cells.len();
        let dst_base = dst_row * self.cols;
        let src_base = src_row * self.cols;
        let mut c = left;
        while c < right
            invariant
                left <= c <= right <= old(self)@.cols,
                dst_base == dst_row * old(self)@.cols,
                src_base == src_row * old(self)@.cols,
                dst_base + old(self)@.cols <= total,
                src_base + old(self)@.cols <= total,
                dst_base + old(self)@.cols <= src_base || src_base + old(self)@.cols <= dst_base,
                total == self.cells@.len() == old(self).cells@.len(),
                total <= usize::MAX,
                self.rows == old(self).rows,
                self.cols == old(self).cols,
                self.cursor == old(self).cursor,
                self.cached_sections@ == old(self).cached_sections@,
                self.dirty_lines@ == old(self).dirty_lines@,
                forall|i: int|
                    0 <= i < self.cells@.len() ==> (#[trigger] self.cells@[i])@ == (if dst_base
                        + left <= i < dst_base + c {
                        old(self)@.cells[i - dst_base + src_base]
                    } else {
                        old(self)@.cells[i]
                    }),
            decreases right - c,
        {
            let tmp = self.cells[src_base + c].clone();
            self.cells[dst_base + c] = tmp;
            c = c + 1;
        }
    }

    /// Moves the column span `[left, right)` of every row of the region
    /// `[top, bottom]` by `rows` rows, copying each destination row from its
    /// source before the source is overwritten; the vacated rows keep their
    /// old content for the line updates that follow to repaint. A region
    /// outside the grid is rejected whole; a move of zero rows is a no-op.
    pub fn scroll(&mut self, gs: &GridScroll) -> (r: Result<(), GridError>)
        requires
            wf(old(self)@),
        ensures
            wf(final(self)@),
            r is Ok <==> (gs.top <= gs.bottom && gs.bottom < old(self)@.rows && gs.left <= gs.right
                && gs.right <= old(self)@.cols),
            r is Err ==> final(self)@ == old(self)@,
            r is Ok ==> ({
                &&& final(self)@.rows == old(self)@.rows
                &&& final(self)@.cols == old(self)@.cols
                &&& final(self)@.cursor == old(self)@.cursor
                &&& final(self)@.cells.len() == old(self)@.cells.len()
                &&& forall|i: int|
                    0 <= i < final(self)@.cells.len() ==> #[trigger] final(self)@.cells[i]
                        == scrolled_cell(
                        old(self)@.cells,
                        *gs,
                        old(self)@.cols,
                        gs.top as int,
                        gs.bottom as int,
                        i,
                    )
                &&& final(self)@.dirty.len() == old(self)@.dirty.len()
                &&& forall|r: int|
                    0 <= r < old(self)@.rows ==> #[trigger] final(self)@.dirty[r] == (in_dst(
                        *gs,
                        r,
                    ) || old(self)@.dirty[r])
                &&& final(self)@.cached.len() == old(self)@.cached.len()
                &&& forall|r: int|
                    0 <= r < old(self)@.rows ==> #[trigger] final(self)@.cached[r] == (if in_dst(
                        *gs,
                        r,
                    ) {
                        empty_sectioned()
                    } else {
                        old(self)@.cached[r]
                    })
                &&& final(self)@ == spec_scrolled(old(self)@, *gs)
            }),
    {
        if !(gs.top <= gs.bottom && gs.bottom < self.rows as u64 && gs.left <= gs.right
            && gs.right <= self.cols as u64) {
            return Err(GridError::OutOfBounds);
        }
        let top = gs.top as usize;
        let bottom = gs.bottom as usize;
        let left = gs.left as usize;
        let right = gs.right as usize;
        let delta = gs.rows;
        if delta == 0 {
            proof {
                lemma_scroll_noop(old(self)@, *gs);
                assert(final(self)@.cells =~= spec_scrolled(old(self)@, *gs).cells);
                assert(final(self)@.dirty =~= spec_scrolled(old(self)@, *gs).dirty);
                assert(final(self)@.cached =~= spec_scrolled(old(self)@, *gs).cached);
            }
            return Ok(());
        }
        if delta > 0 {
            if delta as u64 > (bottom - top) as u64 {
                proof {
                    lemma_scroll_noop(old(self)@, *gs);
                    assert(final(self)@.cells =~= spec_scrolled(old(self)@, *gs).cells);
                    assert(final(self)@.dirty =~= spec_scrolled(old(self)@, *gs).dirty);
                    assert(final(self)@.cached =~= spec_scrolled(old(self)@, *gs).cached);
                }
                return Ok(());
            }
            let d = delta as usize;
            let mut i = top;
            while i <= bottom - d
                invariant
                    wf(self@),
                    gs.rows == delta > 0,
                    d == delta as int,
                    top == gs.top as int,
                    bottom == gs.bottom as int,
                    left == gs.left as int,
                    right == gs.right as int,
                    top <= i <= bottom - d + 1,
                    d <= bottom - top,
                    bottom < self@.rows,
                    left <= right <= self@.cols,
                    self@.rows == old(self)@.rows,
                    self@.cols == old(self)@.cols,
                    self@.cursor == old(self)@.cursor,
                    self@.cells.len() == old(self)@.cells.len(),
                    forall|k: int|
                        0 <= k < self@.cells.len() ==> #[trigger] self@.cells[k] == scrolled_cell(
                            old(self)@.cells,
                            *gs,
                            old(self)@.cols,
                            gs.top as int,
                            i - 1,
                            k,
                        ),
                    self@.dirty.len() == old(self)@.dirty.len(),
                    forall|r: int|
                        0 <= r < old(self)@.rows ==> #[trigger] self@.dirty[r] == ((in_dst(*gs, r)
                            && r < i) || old(self)@.dirty[r]),
                    self@.cached.len() == old(self)@.cached.len(),
                    forall|r: int|
                        0 <= r < old(self)@.rows ==> #[trigger] self@.cached[r] == (if in_dst(
                            *gs,
                            r,
                        ) && r < i {
                            empty_sectioned()
                        } else {
                            old(self)@.cached[r]
                        }),
                decreases bottom - d + 1 - i,
            {
                let ghost mid = self@;
                proof {
                    assert(in_dst(*gs, i as int));
                }
                self.copy_span(i, i + d, left, right);
                self.dirty_line(i);
                proof {
                    lemma_row_span(old(self)@.rows, old(self)@.cols, gs.bottom as int);
                    if old(self)@.cols == 0 {
                        assert(old(self)@.cells.len() == old(self)@.rows * 0);
                    }
                    lemma_scroll_step_asc(
                        old(self)@.cells,
                        mid.cells,
                        self@.cells,
                        *gs,
                        old(self)@.cols,
                        i as int,
                    );
                }
                i = i + 1;
            }
            proof {
                assert forall|k: int| 0 <= k < self@.cells.len() implies #[trigger] self@.cells[k]
                    == scrolled_cell(
                    old(self)@.cells,
                    *gs,
                    old(self)@.cols,
                    gs.top as int,
                    gs.bottom as int,
                    k,
                ) by {
                    lemma_scrolled_cell_widen(
                        old(self)@.cells,
                        *gs,
                        old(self)@.cols,
                        (i - 1) as int,
                        k,
                    );
                }
                assert(final(self)@.cells =~= spec_scrolled(old(self)@, *gs).cells);
                assert(final(self)@.dirty =~= spec_scrolled(old(self)@, *gs).dirty);
                assert(final(self)@.cached =~= spec_scrolled(old(self)@, *gs).cached);
            }
            Ok(())
        } else {
            let du64: u64 = if delta == i64::MIN {
                0x8000_0000_0000_0000u64
            } else {
                (-delta) as u64
            };
            if du64 > (bottom - top) as u64 {
                proof {
                    lemma_scroll_noop(old(self)@, *gs);
                    assert(final(self)@.cells =~= spec_scrolled(old(self)@, *gs).cells);
                    assert(final(self)@.dirty =~= spec_scrolled(old(self)@, *gs).dirty);
                    assert(final(self)@.cached =~= spec_scrolled(old(self)@, *gs).cached);
                }
                return Ok(());
            }
            let d = du64 as usize;
            let count = bottom - top - d + 1;
            let mut j: usize = 0;
            while j < count
                invariant
                    wf(self@),
                    gs.rows == delta < 0,
                    d == -(delta as int),
                    top == gs.top as int,
                    bottom == gs.bottom as int,
                    left == gs.left as int,
                    right == gs.right as int,
                    count == bottom - top - d + 1,
                    0 <= j <= count,
                    d <= bottom - top,
                    bottom < self@.rows,
                    left <= right <= self@.cols,
                    self@.rows == old(self)@.rows,
                    self@.cols == old(self)@.cols,
                    self@.cursor == old(self)@.cursor,
                    self@.cells.len() == old(self)@.cells.len(),
                    forall|k: int|
                        0 <= k < self@.cells.len() ==> #[trigger] self@.cells[k] == scrolled_cell(
                            old(self)@.cells,
                            *gs,
                            old(self)@.cols,
                            gs.bottom - j + 1,
                            gs.bottom as int,
                            k,
                        ),
                    self@.dirty.len() == old(self)@.dirty.len(),
                    forall|r: int|
                        0 <= r < old(self)@.rows ==> #[trigger] self@.dirty[r] == ((in_dst(*gs, r)
                            && r > bottom - j) || old(self)@.dirty[r]),
                    self@.cached.len() == old(self)@.cached.len(),
                    forall|r: int|
                        0 <= r < old(self)@.rows ==> #[trigger] self@.cached[r] == (if in_dst(
                            *gs,
                            r,
                        ) && r > bottom - j {
                            empty_sectioned()
                        } else {
                            old(self)@.cached[r]
                        }),
                decreases count - j,
            {
                let i = bottom - j;
                let ghost mid = self@;
                proof {
                    assert(in_dst(*gs, i as int));
                }
                self.copy_span(i, i - d, left, right);
                self.dirty_line(i);
                proof {
                    lemma_row_span(old(self)@.rows, old(self)@.cols, gs.bottom as int);
                    if old(self)@.cols == 0 {
                        assert(old(self)@.cells.len() == old(self)@.rows * 0);
                    }
                    lemma_scroll_step_desc(
                        old(self)@.cells,
                        mid.cells,
                        self@.cells,
                        *gs,
                        old(self)@.cols,
                        i as int,
                    );
                }
                j = j + 1;
            }
                        proof {
                assert forall|k: int| 0 <= k < self@.cells.len() implies #[trigger] self@.cells[k]
                    == scrolled_cell(
                    old(self)@.cells,
                    *gs,
                    old(self)@.cols,
                    gs.top as int,
                    gs.bottom as int,
                    k,
                ) by {
                    lemma_scrolled_cell_widen_desc(
                        old(self)@.cells,
                        *gs,
                        old(self)@.cols,
                        gs.bottom - j + 1,
                        k,
                    );
                }
                assert(final(self)@.cells =~= spec_scrolled(old(self)@, *gs).cells);
                assert(final(self)@.dirty =~= spec_scrolled(old(self)@, *gs).dirty);
                assert(final(self)@.cached =~= spec_scrolled(old(self)@, *gs).cached);
            }
            Ok(())
        }
    }
}

/// When no row is a destination, a scroll changes nothing.
proof fn lemma_scroll_noop(v: LinesV, gs: GridScroll)
    requires
        gs.rows == 0 || gs.rows > gs.bottom - gs.top || gs.rows < gs.top - gs.bottom,
    ensures
        forall|r: int| !in_dst(gs, r),
        forall|i: int|
            0 <= i < v.cells.len() ==> #[trigger] scrolled_cell(
                v.cells,
                gs,
                v.cols,
                gs.top as int,
                gs.bottom as int,
                i,
            ) == v.cells[i],
{
}

/// After copying row `i` from its source and with rows `[top, i - 1]`
/// already filled, rows `[top, i]` are filled.
proof fn lemma_scroll_step_asc(
    orig: Seq<LineCellV>,
    mid: Seq<LineCellV>,
    now: Seq<LineCellV>,
    gs: GridScroll,
    cols: int,
    i: int,
)
    requires
        cols >= 0,
        mid.len() == orig.len(),
        now.len() == orig.len(),
        gs.rows > 0,
        gs.top <= i,
        i + gs.rows <= gs.bottom,
        gs.left <= gs.right <= cols,
        (gs.bottom + 1) * cols <= orig.len(),
        orig.len() == 0 || cols > 0,
        forall|k: int|
            0 <= k < mid.len() ==> #[trigger] mid[k] == scrolled_cell(
                orig,
                gs,
                cols,
                gs.top as int,
                i - 1,
                k,
            ),
        forall|k: int|
            0 <= k < now.len() ==> #[trigger] now[k] == (if i * cols + gs.left <= k < i * cols
                + gs.right {
                mid[k - i * cols + (i + gs.rows) * cols]
            } else {
                mid[k]
            }),
    ensures
        forall|k: int|
            0 <= k < now.len() ==> #[trigger] now[k] == scrolled_cell(
                orig,
                gs,
                cols,
                gs.top as int,
                i,
                k,
            ),
{
    lemma_scroll_step(orig, mid, now, gs, cols, i, gs.top as int, i - 1, gs.top as int, i);
}

/// After copying row `i` from its source and with rows `[i + 1, bottom]`
/// already filled, rows `[i, bottom]` are filled.
proof fn lemma_scroll_step_desc(
    orig: Seq<LineCellV>,
    mid: Seq<LineCellV>,
    now: Seq<LineCellV>,
    gs: GridScroll,
    cols: int,
    i: int,
)
    requires
        cols >= 0,
        mid.len() == orig.len(),
        now.len() == orig.len(),
        gs.rows < 0,
        gs.top <= i + gs.rows,
        i <= gs.bottom,
        gs.left <= gs.right <= cols,
        (gs.bottom + 1) * cols <= orig.len(),
        orig.len() == 0 || cols > 0,
        forall|k: int|
            0 <= k < mid.len() ==> #[trigger] mid[k] == scrolled_cell(
                orig,
                gs,
                cols,
                i + 1,
                gs.bottom as int,
                k,
            ),
        forall|k: int|
            0 <= k < now.len() ==> #[trigger] now[k] == (if i * cols + gs.left <= k < i * cols
                + gs.right {
                mid[k - i * cols + (i + gs.rows) * cols]
            } else {
                mid[k]
            }),
    ensures
        forall|k: int|
            0 <= k < now.len() ==> #[trigger] now[k] == scrolled_cell(
                orig,
                gs,
                cols,
                i,
                gs.bottom as int,
                k,
            ),
{
    lemma_scroll_step(orig, mid, now, gs, cols, i, i + 1, gs.bottom as int, i, gs.bottom as int);
}

/// Copying row `i` from row `i + gs.rows` extends the filled band from
/// `[lo0, hi0]` to `[lo1, hi1]`, which adds exactly row `i`; the source row
/// lies outside both bands, so it still holds its pre-scroll content.
proof fn lemma_scroll_step(
    orig: Seq<LineCellV>,
    mid: Seq<LineCellV>,
    now: Seq<LineCellV>,
    gs: GridScroll,
    cols: int,
    i: int,
    lo0: int,
    hi0: int,
    lo1: int,
    hi1: int,
)
    requires
        cols >= 0,
        mid.len() == orig.len(),
        now.len() == orig.len(),
        gs.rows != 0,
        in_dst(gs, i),
        gs.left <= gs.right <= cols,
        (gs.bottom + 1) * cols <= orig.len(),
        orig.len() == 0 || cols > 0,
        lo1 <= i <= hi1,
        (lo1 == lo0 && hi1 == i && hi0 == i - 1) || (lo1 == i && lo0 == i + 1 && hi1 == hi0),
        !(lo0 <= i + gs.rows <= hi0),
        forall|k: int|
            0 <= k < mid.len() ==> #[trigger] mid[k] == scrolled_cell(orig, gs, cols, lo0, hi0, k),
        forall|k: int|
            0 <= k < now.len() ==> #[trigger] now[k] == (if i * cols + gs.left <= k < i * cols
                + gs.right {
                mid[k - i * cols + (i + gs.rows) * cols]
            } else {
                mid[k]
            }),
    ensures
        forall|k: int|
            0 <= k < now.len() ==> #[trigger] now[k] == scrolled_cell(orig, gs, cols, lo1, hi1, k),
{
    assert forall|k: int| 0 <= k < now.len() implies #[trigger] now[k] == scrolled_cell(
        orig,
        gs,
        cols,
        lo1,
        hi1,
        k,
    ) by {
        assert(cols > 0);
        let r = k / cols;
        let c = k % cols;
        vstd::arithmetic::div_mod::lemma_fundamental_div_mod(k, cols);
        vstd::arithmetic::div_mod::lemma_mod_bound(k, cols);
        assert(k == cols * r + c);
        assert(cols * r == r * cols) by (nonlinear_arith);
        if i * cols + gs.left <= k < i * cols + gs.right {
            // Inside the copied span: row i, a column of [left, right).
            assert(i * cols <= k < i * cols + cols);
            vstd::arithmetic::div_mod::lemma_fundamental_div_mod_converse(
                k,
                cols,
                i,
                k - i * cols,
            );
            assert(r == i && c == k - i * cols);
            let k2 = k - i * cols + (i + gs.rows) * cols;
            assert((i + gs.rows) * cols == i * cols + gs.rows * cols) by (nonlinear_arith);
            assert(k2 == k + gs.rows * cols);
            assert((i + gs.rows) * cols <= k2 < (i + gs.rows) * cols + cols);
            assert((i + gs.rows + 1) * cols == (i + gs.rows) * cols + cols) by (nonlinear_arith);
            assert((i + gs.rows + 1) * cols <= (gs.bottom + 1) * cols) by (nonlinear_arith)
                requires
                    i + gs.rows + 1 <= gs.bottom + 1,
                    cols >= 0,
            ;
            assert(0 <= k2 < orig.len()) by {
                assert((i + gs.rows) * cols >= 0) by (nonlinear_arith)
                    requires
                        i + gs.rows >= 0,
                        cols >= 0,
                ;
            }
            vstd::arithmetic::div_mod::lemma_fundamental_div_mod_converse(
                k2,
                cols,
                i + gs.rows,
                k2 - (i + gs.rows) * cols,
            );
            assert(k2 / cols == i + gs.rows);
            assert(mid[k2] == orig[k2]);
            assert(now[k] == orig[k + gs.rows * cols]);
            assert(scrolled_cell(orig, gs, cols, lo1, hi1, k) == orig[k + gs.rows * cols]);
        } else {
            assert(now[k] == mid[k]);
            if r == i {
                assert(i * cols <= k < (i + 1) * cols) by (nonlinear_arith)
                    requires
                        k == cols * i + c,
                        0 <= c < cols,
                ;
                // Row i outside the copied span: the column is outside
                // [left, right), so neither band touches the cell.
                assert(!(gs.left <= c < gs.right));
                assert(scrolled_cell(orig, gs, cols, lo0, hi0, k) == orig[k]);
                assert(scrolled_cell(orig, gs, cols, lo1, hi1, k) == orig[k]);
            } else {
                assert(scrolled_cell(orig, gs, cols, lo1, hi1, k) == scrolled_cell(
                    orig,
                    gs,
                    cols,
                    lo0,
                    hi0,
                    k,
                ));
            }
        }
    }
}

/// Widening the processed band beyond the region adds no destination rows.
proof fn lemma_scrolled_cell_widen(
    cells: Seq<LineCellV>,
    gs: GridScroll,
    cols: int,
    hi: int,
    k: int,
)
    requires
        gs.rows > 0,
        hi >= gs.bottom - gs.rows,
    ensures
        scrolled_cell(cells, gs, cols, gs.top as int, hi, k) == scrolled_cell(
            cells,
            gs,
            cols,
            gs.top as int,
            gs.bottom as int,
            k,
        ),
{
}

/// Narrowing the processed band below the region adds no destination rows.
proof fn lemma_scrolled_cell_widen_desc(
    cells: Seq<LineCellV>,
    gs: GridScroll,
    cols: int,
    lo: int,
    k: int,
)
    requires
        gs.rows < 0,
        lo <= gs.top - gs.rows,
    ensures
        scrolled_cell(cells, gs, cols, lo, gs.bottom as int, k) == scrolled_cell(
            cells,
            gs,
            cols,
            gs.top as int,
            gs.bottom as int,
            k,
        ),
{
}



/// Every section of a well-sectioned list ends within the row.
proof fn lemma_section_end_le(secs: Seq<Section>, hls: Seq<u64>, i: int)
    requires
        sections_ok(secs, hls),
        hls.len() > 0,
        0 <= i < secs.len(),
    ensures
        secs[i].end <= hls.len(),
    decreases secs.len() - i,
{
    if i < secs.len() - 1 {
        lemma_section_end_le(secs, hls, i + 1);
    }
}

/// An open run growing by characters of its own id stays the final run.
#[verifier::rlimit(100)]
proof fn lemma_run_extend(secs: Seq<Section>, open_run: Section, hls: Seq<u64>, add: Seq<u64>)
    requires
        open_run.end == hls.len(),
        sections_ok(secs.push(open_run), hls),
        add.len() > 0,
        forall|i: int| 0 <= i < add.len() ==> #[trigger] add[i] == open_run.hl,
        hls.len() + add.len() <= usize::MAX,
    ensures
        sections_ok(
            secs.push(Section { end: (hls.len() + add.len()) as usize, ..open_run }),
            hls + add,
        ),
{
    let s0 = secs.push(open_run);
    let grown = Section { end: (hls.len() + add.len()) as usize, ..open_run };
    let s1 = secs.push(grown);
    let hls1 = hls + add;
    assert(hls.len() > 0);
    assert(s1.len() == s0.len());
    assert(forall|i: int| 0 <= i < s0.len() - 1 ==> s1[i] == s0[i]);
    assert(s1.last() == grown);
    assert(s1[0].start == 0);
    assert forall|i: int| 0 <= i < s1.len() implies (#[trigger] s1[i]).start < s1[i].end by {
        assert(s0[i].start < s0[i].end);
    }
    assert forall|i: int| 0 < i < s1.len() implies (#[trigger] s1[i]).start == s1[i - 1].end by {
        assert(s0[i].start == s0[i - 1].end);
    }
    assert forall|i: int, j: int|
        0 <= i < s1.len() && (#[trigger] s1[i]).start <= j < s1[i].end implies #[trigger] hls1[j]
        == s1[i].hl by {
        if i < s1.len() - 1 {
            assert(s0[i] == s1[i]);
            lemma_section_end_le(s0, hls, i);
            assert(hls[j] == s0[i].hl);
            assert(hls1[j] == hls[j]);
        } else {
            if j < hls.len() {
                assert(s0[i].start <= j < s0[i].end);
                assert(hls[j] == s0[i].hl);
                assert(hls1[j] == hls[j]);
            } else {
                assert(hls1[j] == add[j - hls.len()]);
            }
        }
    }
    assert forall|i: int| 0 < i < s1.len() implies (#[trigger] s1[i]).hl != s1[i - 1].hl by {
        assert(s0[i].hl != s0[i - 1].hl);
    }
}

/// Characters of a fresh id close the open run and start a new final run.
#[verifier::rlimit(100)]
proof fn lemma_run_new(
    secs: Seq<Section>,
    open_run: Section,
    hls: Seq<u64>,
    add: Seq<u64>,
    h2: u64,
)
    requires
        open_run.end == hls.len(),
        sections_ok(secs.push(open_run), hls),
        add.len() > 0,
        forall|i: int| 0 <= i < add.len() ==> #[trigger] add[i] == h2,
        h2 != open_run.hl,
        hls.len() + add.len() <= usize::MAX,
    ensures
        sections_ok(
            secs.push(open_run).push(
                Section {
                    hl: h2,
                    start: hls.len() as usize,
                    end: (hls.len() + add.len()) as usize,
                },
            ),
            hls + add,
        ),
{
    let s0 = secs.push(open_run);
    let fresh = Section {
        hl: h2,
        start: hls.len() as usize,
        end: (hls.len() + add.len()) as usize,
    };
    let s1 = s0.push(fresh);
    let hls1 = hls + add;
    assert(hls.len() > 0);
    assert(forall|i: int| 0 <= i < s0.len() ==> s1[i] == s0[i]);
    assert(s1.last() == fresh);
    assert(s1[0] == s0[0]);
    assert forall|i: int| 0 <= i < s1.len() implies (#[trigger] s1[i]).start < s1[i].end by {
        if i < s0.len() {
            assert(s0[i].start < s0[i].end);
        }
    }
    assert forall|i: int| 0 < i < s1.len() implies (#[trigger] s1[i]).start == s1[i - 1].end by {
        if i < s0.len() {
            assert(s0[i].start == s0[i - 1].end);
        } else {
            assert(s1[i - 1] == open_run);
        }
    }
    assert forall|i: int, j: int|
        0 <= i < s1.len() && (#[trigger] s1[i]).start <= j < s1[i].end implies #[trigger] hls1[j]
        == s1[i].hl by {
        if i < s0.len() {
            assert(s0[i].start <= j < s0[i].end);
            lemma_section_end_le(s0, hls, i);
            assert(hls[j] == s0[i].hl);
            assert(hls1[j] == hls[j]);
        } else {
            assert(hls1[j] == add[j - hls.len()]);
        }
    }
    assert forall|i: int| 0 < i < s1.len() implies (#[trigger] s1[i]).hl != s1[i - 1].hl by {
        if i < s0.len() {
            assert(s0[i].hl != s0[i - 1].hl);
        } else {
            assert(s1[i - 1] == open_run);
        }
    }
}

/// The first characters of a row open its first run.
proof fn lemma_run_first(hl: u64, add: Seq<u64>)
    requires
        add.len() > 0,
        forall|i: int| 0 <= i < add.len() ==> #[trigger] add[i] == hl,
        add.len() <= usize::MAX,
    ensures
        sections_ok(
            Seq::<Section>::empty().push(Section { hl, start: 0, end: add.len() as usize }),
            add,
        ),
{
    let s1 = Seq::<Section>::empty().push(Section { hl, start: 0, end: add.len() as usize });
    assert(s1.len() == 1);
    assert(s1.last() == s1[0]);
}

/// Renders the cells `[start, end)` of the flat array into a sectioned line:
/// the cells' characters in order, coalesced into maximal runs of equal
/// highlight.
fn render_line(cells: &Vec<LineCell>, start: usize, end: usize) -> (r: SectionedLine)
    requires
        start <= end <= cells@.len(),
    ensures
        rendered(r@, cells@.subrange(start as int, end as int).map_values(|c: LineCell| c@)),
{
    let ghost all = cells@.subrange(start as int, end as int).map_values(|c: LineCell| c@);
    let mut text = String::new();
    let mut sections: Vec<Section> = Vec::new();
    let mut cur_hl: u64 = 0;
    let mut cur_start: usize = 0;
    let mut i = start;
    proof {
        assert(cells@.subrange(start as int, start as int).map_values(|c: LineCell| c@)
            =~= Seq::<LineCellV>::empty());
    }
    while i < end
        invariant
            start <= i <= end <= cells@.len(),
            all == cells@.subrange(start as int, end as int).map_values(|c: LineCell| c@),
            ({
                let processed = cells@.subrange(start as int, i as int).map_values(
                    |c: LineCell| c@,
                );
                let hls = row_hls(processed);
                &&& text@ == row_chars(processed)
                &&& text@.len() == hls.len()
                &&& (hls.len() == 0 ==> sections@.len() == 0 && cur_start == 0)
                &&& (hls.len() > 0 ==> cur_start < hls.len() && sections_ok(
                    sections@.push(
                        Section { hl: cur_hl, start: cur_start, end: hls.len() as usize },
                    ),
                    hls,
                ))
            }),
        decreases end - i,
    {
        let ghost processed = cells@.subrange(start as int, i as int).map_values(
            |c: LineCell| c@,
        );
        let ghost hls = row_hls(processed);
        let cell = &cells[i];
        proof {
            lemma_row_lens(processed);
            assert(cells@.subrange(start as int, i + 1).map_values(|c: LineCell| c@)
                =~= processed.push(cell@));
            lemma_row_push(processed, cell@);
        }
        let ghost processed1 = processed.push(cell@);
        let ghost add = Seq::new(cell@.text.len(), |k: int| cell@.hl_id);
        if !cell.text.as_str().is_empty() {
            let tl = text.as_str().unicode_len();
            let ghost old_hl = cur_hl;
            let ghost old_start = cur_start;
            let ghost old_secs = sections@;
            if tl == 0 {
                cur_hl = cell.hl_id;
                cur_start = 0;
                proof {
                    assert(row_chars(processed) =~= Seq::<char>::empty());
                    assert(hls =~= Seq::<u64>::empty());
                    assert(row_hls(processed1) =~= add);
                }
            } else if cell.hl_id != cur_hl {
                sections.push(Section { hl: cur_hl, start: cur_start, end: tl });
                cur_start = tl;
                cur_hl = cell.hl_id;
            }
            let ghost secs_mid = sections@;
            text.append(cell.text.as_str());
            let tl2 = text.as_str().unicode_len();
            proof {
                assert(tl2 as nat == text@.len());
                assert(row_hls(processed1) =~= hls + add);
                assert(text@ == row_chars(processed1));
                lemma_row_lens(processed1);
                if hls.len() == 0 {
                    lemma_run_first(cell@.hl_id, add);
                    assert(Seq::<Section>::empty().push(
                        Section { hl: cell@.hl_id, start: 0, end: add.len() as usize },
                    ) =~= secs_mid.push(
                        Section {
                            hl: cur_hl,
                            start: cur_start,
                            end: row_hls(processed1).len() as usize,
                        },
                    ));
                } else if cell@.hl_id != old_hl {
                    lemma_run_new(
                        secs_mid.drop_last(),
                        Section { hl: old_hl, start: old_start, end: tl },
                        hls,
                        add,
                        cell@.hl_id,
                    );
                    assert(secs_mid.drop_last() =~= old_secs);
                } else {
                    lemma_run_extend(
                        secs_mid,
                        Section { hl: old_hl, start: old_start, end: tl },
                        hls,
                        add,
                    );
                }
            }
        } else {
            proof {
                assert(cell@.text =~= Seq::<char>::empty());
                assert(add =~= Seq::<u64>::empty());
                assert(row_chars(processed1) =~= row_chars(processed));
                assert(row_hls(processed1) =~= hls);
            }
        }
        i = i + 1;
    }
    let tl = text.as_str().unicode_len();
    if tl > 0 {
        sections.push(Section { hl: cur_hl, start: cur_start, end: tl });
    }
    proof {
        assert(cells@.subrange(start as int, end as int).map_values(|c: LineCell| c@) == all);
    }
    SectionedLine { text, sections }
}



/// One rendered row handed to the presentation layer: the row's text and its
/// sections with the highlight ids resolved through the highlight table.
#[derive(Debug)]
pub struct RenderedLine {
    /// The full text of the row.
    pub text: String,
    /// The row's sections, resolved.
    pub sections: Vec<RenderedSection>,
}

/// One section of a rendered row, its style resolved at render time.
#[derive(Debug, Copy, Clone, PartialEq, Eq, Structural)]
pub struct RenderedSection {
    /// The first character of the section.
    pub start: usize,
    /// One past the last character of the section.
    pub end: usize,
    /// The resolved style of the section.
    pub attr: crate::events::RgbAttr,
}

impl RenderedLine {
    /// The row's text.
    pub fn text(&self) -> (r: &str)
        ensures
            r@ == self.text@,
    {
        self.text.as_str()
    }

    /// How many sections the row has.
    pub fn n_sections(&self) -> (r: usize)
        ensures
            r == self.sections@.len(),
    {
        self.sections.len()
    }
}

impl Lines {
    /// The number of rows.
    pub fn rows(&self) -> (r: usize)
        ensures
            r == self@.rows,
    {
        self.rows
    }

    /// The number of columns.
    pub fn cols(&self) -> (r: usize)
        ensures
            r == self@.cols,
    {
        self.cols
    }

    /// The cursor carried with the grid.
    pub fn cursor(&self) -> (r: Cursor)
        ensures
            r == self@.cursor,
    {
        self.cursor
    }

    /// The cursor, for the events that move or reshape it.
    pub fn cursor_mut(&mut self) -> (r: &mut Cursor)
        ensures
            *r == old(self)@.cursor,
            final(self)@ == (LinesV { cursor: *final(r), ..old(self)@ }),
    {
        &mut self.cursor
    }

    /// Recomputes the cached rendering of every dirty row and clears all the
    /// dirty flags; clean rows keep their cache untouched, so rendering with
    /// no intervening mutation changes nothing.
    pub fn render(&mut self)
        requires
            wf(old(self)@),
        ensures
            wf(final(self)@),
            final(self)@.cells == old(self)@.cells,
            final(self)@.rows == old(self)@.rows,
            final(self)@.cols == old(self)@.cols,
            final(self)@.cursor == old(self)@.cursor,
            final(self)@.dirty == Seq::new(old(self)@.rows as nat, |r: int| false),
            final(self)@.cached.len() == old(self)@.rows,
            forall|r: int|
                0 <= r < old(self)@.rows && old(self)@.dirty[r] ==> rendered(
                    #[trigger] final(self)@.cached[r],
                    row_of(old(self)@, r),
                ),
            forall|r: int|
                0 <= r < old(self)@.rows && !old(self)@.dirty[r] ==> #[trigger] final(self)@.cached[r]
                    == old(self)@.cached[r],
            (forall|r: int| 0 <= r < old(self)@.rows ==> !(#[trigger] old(self)@.dirty[r]))
                ==> final(self)@ == old(self)@,
            render_rel(old(self)@, final(self)@),
    {
        let rows = self.rows;
        let mut r: usize = 0;
        while r < rows
            invariant
                wf(self@),
                r <= rows == self@.rows,
                self@.cells == old(self)@.cells,
                self@.cols == old(self)@.cols,
                self@.cursor == old(self)@.cursor,
                self@.cached.len() == old(self)@.cached.len(),
                self@.dirty.len() == old(self)@.dirty.len(),
                forall|j: int| r <= j < rows ==> #[trigger] self@.dirty[j] == old(self)@.dirty[j],
                forall|j: int| r <= j < rows ==> #[trigger] self@.cached[j] == old(
                    self,
                )@.cached[j],
                forall|j: int| 0 <= j < r ==> !(#[trigger] self@.dirty[j]),
                forall|j: int|
                    0 <= j < r && old(self)@.dirty[j] ==> rendered(
                        #[trigger] self@.cached[j],
                        row_of(old(self)@, j),
                    ),
                forall|j: int| 0 <= j < r && !old(self)@.dirty[j] ==> #[trigger] self@.cached[j]
                    == old(self)@.cached[j],
            decreases rows - r,
        {
            let total = self.cells.len();
            proof {
                lemma_row_span(self@.rows, self@.cols, r as int);
                assert(r as int * self@.cols + self@.cols <= total as int);
            }
            if self.dirty_lines[r] {
                let start = r * self.cols;
                let end = start + self.cols;
                let sl = render_line(&self.cells, start, end);
                let ghost slv = sl@;
                let ghost pre = self@;
                proof {
                    assert(self.cells@.subrange(start as int, end as int).map_values(
                        |c: LineCell| c@,
                    ) =~= row_of(old(self)@, r as int));
                }
                self.cached_sections[r] = sl;
                proof {
                    assert(self@.cached =~= pre.cached.update(r as int, slv));
                }
            }
            let ghost pre2 = self@;
            self.dirty_lines[r] = false;
            proof {
                assert(self@.dirty =~= pre2.dirty.update(r as int, false));
                assert(self@.cached =~= pre2.cached);
            }
            r = r + 1;
        }
        proof {
            assert(final(self)@.dirty =~= Seq::new(old(self)@.rows as nat, |j: int| false));
            if forall|j: int| 0 <= j < old(self)@.rows ==> !(#[trigger] old(self)@.dirty[j]) {
                assert(final(self)@.cached =~= old(self)@.cached);
                assert(final(self)@.dirty =~= old(self)@.dirty);
            }
        }
    }

    /// The cached rendering of every row, each section's highlight id
    /// resolved through `groups` at call time, so that highlight
    /// redefinitions retroactively affect already-cached rows.
    pub fn rendered_lines(&self, groups: &crate::highlight::HighlightGroups) -> (r: Vec<
        RenderedLine,
    >)
        ensures
            r@.len() == self@.cached.len(),
            forall|i: int|
                0 <= i < r@.len() ==> ({
                    let line = #[trigger] r@[i];
                    let sl = self@.cached[i];
                    &&& line.text@ == sl.text
                    &&& line.sections@.len() == sl.sections.len()
                    &&& forall|j: int|
                        0 <= j < sl.sections.len() ==> ({
                            let sec = #[trigger] line.sections@[j];
                            &&& sec.start == sl.sections[j].start
                            &&& sec.end == sl.sections[j].end
                            &&& sec.attr == crate::highlight::spec_resolve(
                                groups@,
                                sl.sections[j].hl,
                            )
                        })
                }),
    {
        let n = self.cached_sections.len();
        let mut out: Vec<RenderedLine> = Vec::new();
        let mut i: usize = 0;
        while i < n
            invariant
                i <= n == self.cached_sections@.len(),
                out@.len() == i,
                forall|k: int|
                    0 <= k < i ==> ({
                        let line = #[trigger] out@[k];
                        let sl = self@.cached[k];
                        &&& line.text@ == sl.text
                        &&& line.sections@.len() == sl.sections.len()
                        &&& forall|j: int|
                            0 <= j < sl.sections.len() ==> ({
                                let sec = #[trigger] line.sections@[j];
                                &&& sec.start == sl.sections[j].start
                                &&& sec.end == sl.sections[j].end
                                &&& sec.attr == crate::highlight::spec_resolve(
                                    groups@,
                                    sl.sections[j].hl,
                                )
                            })
                    }),
            decreases n - i,
        {
            let cached = &self.cached_sections[i];
            let m = cached.sections.len();
            let mut secs: Vec<RenderedSection> = Vec::new();
            let mut j: usize = 0;
            while j < m
                invariant
                    j <= m == cached.sections@.len(),
                    secs@.len() == j,
                    forall|k: int|
                        0 <= k < j ==> ({
                            let sec = #[trigger] secs@[k];
                            &&& sec.start == cached.sections@[k].start
                            &&& sec.end == cached.sections@[k].end
                            &&& sec.attr == crate::highlight::spec_resolve(
                                groups@,
                                cached.sections@[k].hl,
                            )
                        }),
                decreases m - j,
            {
                let sec = cached.sections[j];
                secs.push(
                    RenderedSection {
                        start: sec.start,
                        end: sec.end,
                        attr: groups.group_color_set(sec.hl),
                    },
                );
                j = j + 1;
            }
            out.push(RenderedLine { text: cached.text.clone(), sections: secs });
            i = i + 1;
        }
        out
    }
}

impl Clone for Lines {
    fn clone(&self) -> (r: Self)
        ensures
            r@ == self@,
    {
        let mut cells: Vec<LineCell> = Vec::new();
        let n = self.cells.len();
        let mut i: usize = 0;
        while i < n
            invariant
                i <= n == self.cells@.len(),
                cells@.len() == i,
                forall|k: int| 0 <= k < i ==> (#[trigger] cells@[k])@ == self.cells@[k]@,
            decreases n - i,
        {
            let c = self.cells[i].clone();
            cells.push(c);
            i = i + 1;
        }
        let mut cached: Vec<SectionedLine> = Vec::new();
        let m = self.cached_sections.len();
        let mut j: usize = 0;
        while j < m
            invariant
                j <= m == self.cached_sections@.len(),
                cached@.len() == j,
                forall|k: int| 0 <= k < j ==> (#[trigger] cached@[k])@
                    == self.cached_sections@[k]@,
            decreases m - j,
        {
            let c = self.cached_sections[j].clone();
            cached.push(c);
            j = j + 1;
        }
        let r = Lines {
            cells,
            rows: self.rows,
            cols: self.cols,
            cached_sections: cached,
            dirty_lines: self.dirty_lines.clone(),
            cursor: self.cursor,
        };
        proof {
            assert(r@.cells =~= self@.cells);
            assert(r@.cached =~= self@.cached);
            assert(r@.dirty =~= self@.dirty);
        }
        r
    }
}



/// The grid right after `resize(rows, cols)`: every cell reset, every row
/// dirty, the cursor kept.
pub open spec fn spec_resized(cur: Cursor, rows: int, cols: int) -> LinesV {
    LinesV {
        cells: Seq::new((rows * cols) as nat, |i: int| empty_cell()),
        rows,
        cols,
        cached: Seq::new(rows as nat, |i: int| empty_sectioned()),
        dirty: Seq::new(rows as nat, |i: int| true),
        cursor: cur,
    }
}

/// The grid right after `clear()`: same shape, every cell reset, every row
/// dirty.
pub open spec fn spec_cleared(v: LinesV) -> LinesV {
    LinesV {
        cells: Seq::new(v.cells.len(), |i: int| empty_cell()),
        cached: Seq::new(v.rows as nat, |i: int| empty_sectioned()),
        dirty: Seq::new(v.rows as nat, |i: int| true),
        ..v
    }
}

/// The grid after a fitting line update is applied.
pub open spec fn spec_line_applied(v: LinesV, l: crate::events::GridLineV) -> LinesV {
    let base = l.row * v.cols + l.col_start;
    let exp = expand_cells(l.cells);
    LinesV {
        cells: Seq::new(
            v.cells.len(),
            |i: int|
                if base <= i < base + exp.len() {
                    exp[i - base]
                } else {
                    v.cells[i]
                },
        ),
        dirty: v.dirty.update(l.row as int, true),
        cached: v.cached.update(l.row as int, empty_sectioned()),
        ..v
    }
}

/// The grid after a valid scroll is applied.
pub open spec fn spec_scrolled(v: LinesV, gs: GridScroll) -> LinesV {
    LinesV {
        cells: Seq::new(
            v.cells.len(),
            |i: int| scrolled_cell(v.cells, gs, v.cols, gs.top as int, gs.bottom as int, i),
        ),
        dirty: Seq::new(v.rows as nat, |r: int| in_dst(gs, r) || v.dirty[r]),
        cached: Seq::new(
            v.rows as nat,
            |r: int|
                if in_dst(gs, r) {
                    empty_sectioned()
                } else {
                    v.cached[r]
                },
        ),
        ..v
    }
}



/// How a grid relates to itself across `render`: cells, shape and cursor
/// kept, every dirty flag cleared, each previously dirty row's cache
/// recomputed faithfully from its cells, each clean row's cache untouched.
pub open spec fn render_rel(pre: LinesV, post: LinesV) -> bool {
    &&& post.cells == pre.cells
    &&& post.rows == pre.rows
    &&& post.cols == pre.cols
    &&& post.cursor == pre.cursor
    &&& post.dirty == Seq::new(pre.rows as nat, |r: int| false)
    &&& post.cached.len() == pre.rows
    &&& forall|r: int|
        0 <= r < pre.rows && pre.dirty[r] ==> rendered(#[trigger] post.cached[r], row_of(pre, r))
    &&& forall|r: int|
        0 <= r < pre.rows && !pre.dirty[r] ==> #[trigger] post.cached[r] == pre.cached[r]
}



/// The maximal-run conditions pin the section list: two lists that both
/// satisfy [`sections_ok`] for the same ids are equal, so a faithful cache
/// is unique.
pub proof fn lemma_sections_unique(s1: Seq<Section>, s2: Seq<Section>, hls: Seq<u64>)
    requires
        sections_ok(s1, hls),
        sections_ok(s2, hls),
    ensures
        s1 == s2,
{
    if hls.len() == 0 {
        assert(s1 =~= s2);
    } else {
        lemma_sections_eq_from(s1, s2, hls, 0);
        assert(s1 =~= s2);
    }
}

/// From two sections that start together, the two lists agree to their
/// common end, and end together.
proof fn lemma_sections_eq_from(s1: Seq<Section>, s2: Seq<Section>, hls: Seq<u64>, i: int)
    requires
        sections_ok(s1, hls),
        sections_ok(s2, hls),
        hls.len() > 0,
        0 <= i < s1.len(),
        i < s2.len(),
        s1[i].start == s2[i].start,
    ensures
        s1.len() == s2.len(),
        forall|k: int| i <= k < s1.len() ==> #[trigger] s1[k] == s2[k],
    decreases s1.len() - i,
{
    lemma_section_eq_at(s1, s2, hls, i);
    if i + 1 < s1.len() {
        lemma_sections_eq_from(s1, s2, hls, i + 1);
    }
}

/// Two sections starting at the same place over the same ids coincide: they
/// share their run's id, and both end exactly where the run ends.
proof fn lemma_section_eq_at(s1: Seq<Section>, s2: Seq<Section>, hls: Seq<u64>, i: int)
    requires
        sections_ok(s1, hls),
        sections_ok(s2, hls),
        hls.len() > 0,
        0 <= i < s1.len(),
        0 <= i < s2.len(),
        s1[i].start == s2[i].start,
    ensures
        s1[i] == s2[i],
        i + 1 < s1.len() && i + 1 < s2.len() ==> s1[i + 1].start == s2[i + 1].start,
        (i + 1 < s1.len()) == (i + 1 < s2.len()),
{
    lemma_section_end_le(s1, hls, i);
    lemma_section_end_le(s2, hls, i);
    assert(s1[i].hl == hls[s1[i].start as int]);
    assert(s2[i].hl == hls[s2[i].start as int]);
    // Neither end can fall strictly inside the other's run: the shorter
    // section would be followed by one opening with the same id.
    lemma_section_end_eq(s1, s2, hls, i);
    lemma_section_end_eq(s2, s1, hls, i);
    if i + 1 < s1.len() && i + 1 < s2.len() {
        assert(s1[i + 1].start == s1[i].end);
        assert(s2[i + 1].start == s2[i].end);
    }
    // One list cannot stop at i while the other continues: the stopper
    // ends at the row's end, leaving the continuer's next section empty.
    if i + 1 < s1.len() && !(i + 1 < s2.len()) {
        assert(s2[i].end == hls.len());
        lemma_section_end_le(s1, hls, i + 1);
        assert(s1[i + 1].start == s1[i].end);
        assert(s1[i + 1].start < s1[i + 1].end);
        assert(false);
    }
    if i + 1 < s2.len() && !(i + 1 < s1.len()) {
        assert(s1[i].end == hls.len());
        lemma_section_end_le(s2, hls, i + 1);
        assert(s2[i + 1].start == s2[i].end);
        assert(s2[i + 1].start < s2[i + 1].end);
        assert(false);
    }
}

/// A section cannot end strictly before another section of the same start:
/// the character right after it would continue the same run.
proof fn lemma_section_end_eq(s1: Seq<Section>, s2: Seq<Section>, hls: Seq<u64>, i: int)
    requires
        sections_ok(s1, hls),
        sections_ok(s2, hls),
        hls.len() > 0,
        0 <= i < s1.len(),
        0 <= i < s2.len(),
        s1[i].start == s2[i].start,
    ensures
        s1[i].end >= s2[i].end,
{
    lemma_section_end_le(s1, hls, i);
    lemma_section_end_le(s2, hls, i);
    if s1[i].end < s2[i].end {
        // The position s1[i].end lies inside s2[i]'s run, so it carries the
        // run's id; but in s1 it opens the next section, whose id differs.
        assert(hls[s1[i].end as int] == s2[i].hl);
        assert(s2[i].hl == hls[s2[i].start as int]);
        assert(s1[i].hl == hls[s1[i].start as int]);
        assert(i + 1 < s1.len());
        assert(s1[i + 1].start == s1[i].end);
        assert(s1[i + 1].hl != s1[i].hl);
        lemma_section_end_le(s1, hls, i + 1);
        assert(hls[s1[i + 1].start as int] == s1[i + 1].hl);
        assert(false);
    }
}

} // verus!
