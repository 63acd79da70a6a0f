//! Typed redraw events and their decoder.
//!
//! The editor streams notifications whose payload is an array of event
//! batches; each batch is an array holding an event name followed by one or
//! more parameter tuples. The decoder turns one read's worth of bytes into an
//! ordered event list, preserving order exactly, skipping unknown event names,
//! and failing (never panicking) on any structural violation.

use crate::color::Color;
use crate::msgpack;
use vstd::prelude::*;

verus! {

broadcast use vstd::slice::axiom_spec_len;

/// Possible shapes of the cursor.
#[derive(Debug, Copy, Clone, PartialEq, Eq, Structural)]
pub enum CursorShape {
    Block,
    Horizontal,
    Vertical,
}

impl Default for CursorShape {
    /// The shape used before any mode information has arrived.
    fn default() -> (r: Self)
        ensures
            r == CursorShape::Block,
    {
        CursorShape::Block
    }
}

/// Properties of one editor mode.
#[derive(Debug, Copy, Clone, PartialEq, Eq, Structural)]
pub struct ModeInfo {
    /// The shape of the cursor in this mode.
    pub cursor_shape: CursorShape,
    /// The percentage of the cell occupied by the cursor, as carried on the
    /// wire (0 to 100).
    pub cell_percentage: u64,
    /// Cursor highlight group id. When 0, background and foreground should be
    /// swapped.
    pub attr_id: u64,
}

/// Default colors to be used when a highlight group provides none.
#[derive(Debug, Copy, Clone, PartialEq, Eq, Structural)]
pub struct DefaultColorSet {
    /// The default foreground color.
    pub foreground: Color,
    /// The default background color.
    pub background: Color,
    /// The default special color.
    pub special: Color,
}

/// RGB properties of a highlight group.
///
/// An absent color channel means "inherit the default set currently in
/// force"; inheritance is resolved at lookup time, never baked in at store
/// time.
#[derive(Debug, Copy, Clone, PartialEq, Eq, Structural)]
pub struct RgbAttr {
    /// Foreground color.
    pub foreground: Option<Color>,
    /// Background color.
    pub background: Option<Color>,
    /// Color for underline and undercurl, when present.
    pub special: Option<Color>,
    /// Blend level (0-100).
    pub blend: u8,
    /// Reverse video: foreground and background are switched.
    pub reverse: bool,
    /// Italic text.
    pub italic: bool,
    /// Bold text.
    pub bold: bool,
    /// Strikethrough text.
    pub strikethrough: bool,
    /// Underlined text, in the `special` color.
    pub underline: bool,
    /// Undercurled text, in the `special` color.
    pub undercurl: bool,
}

/// The attribute with no colors and no style flags: every channel inherits
/// the defaults in force at lookup time.
pub open spec fn rgb_attr_empty() -> RgbAttr {
    RgbAttr {
        foreground: None,
        background: None,
        special: None,
        blend: 0,
        reverse: false,
        italic: false,
        bold: false,
        strikethrough: false,
        underline: false,
        undercurl: false,
    }
}

impl Default for RgbAttr {
    /// The empty attribute.
    fn default() -> (r: Self)
        ensures
            r == rgb_attr_empty(),
    {
        RgbAttr {
            foreground: None,
            background: None,
            special: None,
            blend: 0,
            reverse: false,
            italic: false,
            bold: false,
            strikethrough: false,
            underline: false,
            undercurl: false,
        }
    }
}

impl RgbAttr {
    /// The attribute with foreground and background switched.
    pub open spec fn spec_reversed(self) -> RgbAttr {
        RgbAttr { foreground: self.background, background: self.foreground, ..self }
    }

    /// The same attribute with foreground and background switched.
    pub fn reverse_rgb_attr(self) -> (r: RgbAttr)
        ensures
            r == self.spec_reversed(),
    {
        RgbAttr { foreground: self.background, background: self.foreground, ..self }
    }
}

/// Defines a highlight group with the given id.
#[derive(Debug, Copy, Clone, PartialEq, Eq, Structural)]
pub struct HighlightAttr {
    /// Index of the highlight group.
    pub id: u64,
    /// RGB properties of the group.
    pub rgb_attr: RgbAttr,
}

/// Content of one grid cell as carried by a `grid_line` event.
#[derive(Debug, Clone)]
pub struct GridCell {
    /// The grapheme cluster to put in the cell.
    pub text: String,
    /// The highlight group of the cell.
    pub hl_id: u64,
    /// How many consecutive cells this content fills.
    pub repeated: u64,
}

/// Spec-level value of a [`GridCell`].
pub struct GridCellV {
    pub text: Seq<char>,
    pub hl_id: u64,
    pub repeated: u64,
}

impl View for GridCell {
    type V = GridCellV;

    open spec fn view(&self) -> GridCellV {
        GridCellV { text: self.text@, hl_id: self.hl_id, repeated: self.repeated }
    }
}

/// Redraws a continuous part of a row, starting at `col_start`.
#[derive(Debug, Clone)]
pub struct GridLine {
    /// The grid being redrawn.
    pub grid: u64,
    /// The row being redrawn.
    pub row: u64,
    /// The first column being redrawn.
    pub col_start: u64,
    /// The cells to write, already carrying their resolved highlight ids.
    pub cells: Vec<GridCell>,
}

/// Spec-level value of a [`GridLine`].
pub struct GridLineV {
    pub grid: u64,
    pub row: u64,
    pub col_start: u64,
    pub cells: Seq<GridCellV>,
}

impl View for GridLine {
    type V = GridLineV;

    open spec fn view(&self) -> GridLineV {
        GridLineV {
            grid: self.grid,
            row: self.row,
            col_start: self.col_start,
            cells: self.cells@.map_values(|c: GridCell| c@),
        }
    }
}

/// Moves the cursor on a grid.
#[derive(Debug, Default, Copy, Clone, PartialEq, Eq, Structural)]
pub struct GridGoto {
    /// The current grid.
    pub grid: u64,
    /// The row position of the cursor.
    pub row: u64,
    /// The column position of the cursor.
    pub column: u64,
}

/// The grid region to be scrolled.
#[derive(Debug, Default, Copy, Clone, PartialEq, Eq, Structural)]
pub struct GridScroll {
    /// The target grid.
    pub grid: u64,
    /// The top row of the region, inclusive.
    pub top: u64,
    /// The bottom row of the region, inclusive.
    pub bottom: u64,
    /// The left column of the region, inclusive.
    pub left: u64,
    /// The right column of the region, exclusive.
    pub right: u64,
    /// How many rows to scroll: positive moves content up, negative down.
    pub rows: i64,
}

/// An option change related to the UI.
#[derive(Debug)]
pub enum UiOption {
    /// An option carrying a string value, such as the gui font list.
    Text { option: String, value: String },
    /// An option carrying an integer value, such as the line spacing.
    Int { option: String, value: i64 },
    /// An option carrying a boolean value, such as an external-widget toggle.
    Toggle { option: String, value: bool },
}

/// Spec-level value of a [`UiOption`].
pub enum UiOptionV {
    Text { option: Seq<char>, value: Seq<char> },
    Int { option: Seq<char>, value: i64 },
    Toggle { option: Seq<char>, value: bool },
}

impl View for UiOption {
    type V = UiOptionV;

    open spec fn view(&self) -> UiOptionV {
        match self {
            UiOption::Text { option, value } => UiOptionV::Text {
                option: option@,
                value: value@,
            },
            UiOption::Int { option, value } => UiOptionV::Int { option: option@, value: *value },
            UiOption::Toggle { option, value } => UiOptionV::Toggle {
                option: option@,
                value: *value,
            },
        }
    }
}

/// One redraw instruction from the editor.
///
/// Events must be handled in order; a `Flush` marks a complete, renderable
/// screen state.
#[derive(Debug)]
pub enum RedrawEvent {
    /// Set the window title.
    SetTitle(String),
    /// Set the icon (minimized) window title.
    SetIcon(String),
    /// Replace the whole array of mode properties.
    ModeInfoSet {
        /// Whether the UI should set the cursor style.
        cursor_style_enabled: bool,
        /// The properties of every mode, replacing earlier ones wholesale.
        mode_infos: Vec<ModeInfo>,
    },
    /// A UI-related option changed.
    OptionSet(UiOption),
    /// The editor mode changed; the payload indexes the `ModeInfoSet` array
    /// and must be bounds-checked.
    ModeChange(u64),
    /// The mouse was enabled or disabled.
    Mouse(bool),
    /// The editor started or stopped being busy.
    Busy(bool),
    /// The editor is done redrawing the screen.
    Flush,
    /// Resize a grid; the grid is created if it was not seen before.
    GridResize { grid: u64, width: u64, height: u64 },
    /// Set the colors used when a highlight group provides none.
    DefaultColorsSet(DefaultColorSet),
    /// Add a highlight group to the highlight table.
    HlAttrDefine(HighlightAttr),
    /// A builtin highlight group was tied to a previously defined attribute.
    HlGroupSet { name: String, hl_id: u64 },
    /// Redraw a continuous part of a row.
    GridLine(GridLine),
    /// Clear a grid.
    GridClear(u64),
    /// The grid will not be used anymore.
    GridDestroy(u64),
    /// Move the cursor and make the carried grid current.
    GridCursorGoto(GridGoto),
    /// Scroll a region of a grid: an optimized "copy these screen cells".
    /// The vacated area is refilled by `GridLine` events that follow.
    GridScroll(GridScroll),
}

/// Spec-level value of a [`RedrawEvent`].
pub enum RedrawEventV {
    SetTitle(Seq<char>),
    SetIcon(Seq<char>),
    ModeInfoSet { cursor_style_enabled: bool, mode_infos: Seq<ModeInfo> },
    OptionSet(UiOptionV),
    ModeChange(u64),
    Mouse(bool),
    Busy(bool),
    Flush,
    GridResize { grid: u64, width: u64, height: u64 },
    DefaultColorsSet(DefaultColorSet),
    HlAttrDefine(HighlightAttr),
    HlGroupSet { name: Seq<char>, hl_id: u64 },
    GridLine(GridLineV),
    GridClear(u64),
    GridDestroy(u64),
    GridCursorGoto(GridGoto),
    GridScroll(GridScroll),
}

impl View for RedrawEvent {
    type V = RedrawEventV;

    open spec fn view(&self) -> RedrawEventV {
        match self {
            RedrawEvent::SetTitle(t) => RedrawEventV::SetTitle(t@),
            RedrawEvent::SetIcon(t) => RedrawEventV::SetIcon(t@),
            RedrawEvent::ModeInfoSet { cursor_style_enabled, mode_infos } => {
                RedrawEventV::ModeInfoSet {
                    cursor_style_enabled: *cursor_style_enabled,
                    mode_infos: mode_infos@,
                }
            },
            RedrawEvent::OptionSet(o) => RedrawEventV::OptionSet(o@),
            RedrawEvent::ModeChange(m) => RedrawEventV::ModeChange(*m),
            RedrawEvent::Mouse(b) => RedrawEventV::Mouse(*b),
            RedrawEvent::Busy(b) => RedrawEventV::Busy(*b),
            RedrawEvent::Flush => RedrawEventV::Flush,
            RedrawEvent::GridResize { grid, width, height } => RedrawEventV::GridResize {
                grid: *grid,
                width: *width,
                height: *height,
            },
            RedrawEvent::DefaultColorsSet(d) => RedrawEventV::DefaultColorsSet(*d),
            RedrawEvent::HlAttrDefine(h) => RedrawEventV::HlAttrDefine(*h),
            RedrawEvent::HlGroupSet { name, hl_id } => RedrawEventV::HlGroupSet {
                name: name@,
                hl_id: *hl_id,
            },
            RedrawEvent::GridLine(l) => RedrawEventV::GridLine(l@),
            RedrawEvent::GridClear(g) => RedrawEventV::GridClear(*g),
            RedrawEvent::GridDestroy(g) => RedrawEventV::GridDestroy(*g),
            RedrawEvent::GridCursorGoto(g) => RedrawEventV::GridCursorGoto(*g),
            RedrawEvent::GridScroll(s) => RedrawEventV::GridScroll(*s),
        }
    }
}


/// The event kinds the decoder recognizes. `Ignored` stands for the names
/// that are recognized but carry nothing the client uses.
#[derive(Debug, Copy, Clone, PartialEq, Eq, Structural)]
pub enum EventKind {
    SetTitle,
    SetIcon,
    ModeInfoSet,
    OptionSet,
    ModeChange,
    MouseOn,
    MouseOff,
    BusyStart,
    BusyStop,
    Flush,
    Ignored,
    GridResize,
    DefaultColorsSet,
    HlAttrDefine,
    HlGroupSet,
    GridLine,
    GridClear,
    GridDestroy,
    GridCursorGoto,
    GridScroll,
}

/// The position after an array header declaring exactly `count` elements.
pub open spec fn spec_params(bytes: Seq<u8>, pos: int, count: nat) -> Option<int> {
    match msgpack::spec_read_array_len(bytes, pos) {
        Some((n, p)) => if n == count {
            Some(p)
        } else {
            None
        },
        None => None,
    }
}

/// A packed 24-bit RGB color read as an integer.
pub open spec fn spec_color(bytes: Seq<u8>, pos: int) -> Option<(Color, int)> {
    match msgpack::spec_read_u64(bytes, pos) {
        Some((v, p)) => Some(
            (
                Color {
                    r: ((v >> 16) & 0xFF) as u8,
                    g: ((v >> 8) & 0xFF) as u8,
                    b: (v & 0xFF) as u8,
                    a: 0xFF,
                },
                p,
            ),
        ),
        None => None,
    }
}

/// One key/value pair of a mode-properties map folded into `acc`.
/// Keys the client does not use are read and discarded; an unknown key is a
/// decode error.
pub open spec fn spec_mode_info_pairs(bytes: Seq<u8>, pos: int, k: nat, acc: ModeInfo) -> Option<
    (ModeInfo, int),
>
    decreases k,
{
    if k == 0 {
        Some((acc, pos))
    } else {
        match msgpack::spec_read_str(bytes, pos) {
            Some((key, p1)) => {
                if key == "cursor_shape"@ {
                    match msgpack::spec_read_str(bytes, p1) {
                        Some((v, p2)) => {
                            if v == "block"@ {
                                spec_mode_info_pairs(
                                    bytes,
                                    p2,
                                    (k - 1) as nat,
                                    ModeInfo { cursor_shape: CursorShape::Block, ..acc },
                                )
                            } else if v == "horizontal"@ {
                                spec_mode_info_pairs(
                                    bytes,
                                    p2,
                                    (k - 1) as nat,
                                    ModeInfo { cursor_shape: CursorShape::Horizontal, ..acc },
                                )
                            } else if v == "vertical"@ {
                                spec_mode_info_pairs(
                                    bytes,
                                    p2,
                                    (k - 1) as nat,
                                    ModeInfo { cursor_shape: CursorShape::Vertical, ..acc },
                                )
                            } else {
                                None
                            }
                        },
                        None => None,
                    }
                } else if key == "cell_percentage"@ {
                    match msgpack::spec_read_u64(bytes, p1) {
                        Some((v, p2)) => spec_mode_info_pairs(
                            bytes,
                            p2,
                            (k - 1) as nat,
                            ModeInfo { cell_percentage: v, ..acc },
                        ),
                        None => None,
                    }
                } else if key == "attr_id"@ || key == "hl_id"@ {
                    match msgpack::spec_read_u64(bytes, p1) {
                        Some((v, p2)) => spec_mode_info_pairs(
                            bytes,
                            p2,
                            (k - 1) as nat,
                            ModeInfo { attr_id: v, ..acc },
                        ),
                        None => None,
                    }
                } else if key == "blinkoff"@ || key == "blinkon"@ || key == "blinkwait"@ || key
                    == "attr_id_lm"@ || key == "id_lm"@ || key == "mouse_shape"@ {
                    match msgpack::spec_read_u64(bytes, p1) {
                        Some((v, p2)) => spec_mode_info_pairs(bytes, p2, (k - 1) as nat, acc),
                        None => None,
                    }
                } else if key == "short_name"@ || key == "name"@ {
                    match msgpack::spec_read_str(bytes, p1) {
                        Some((v, p2)) => spec_mode_info_pairs(bytes, p2, (k - 1) as nat, acc),
                        None => None,
                    }
                } else {
                    None
                }
            },
            None => None,
        }
    }
}

/// `n` consecutive mode-properties maps.
pub open spec fn spec_mode_infos(bytes: Seq<u8>, pos: int, n: nat) -> Option<(Seq<ModeInfo>, int)>
    decreases n,
{
    if n == 0 {
        Some((Seq::empty(), pos))
    } else {
        match msgpack::spec_read_map_len(bytes, pos) {
            Some((k, p1)) => {
                let start = ModeInfo {
                    cursor_shape: CursorShape::Block,
                    cell_percentage: 0,
                    attr_id: 0,
                };
                match spec_mode_info_pairs(bytes, p1, k, start) {
                    Some((info, p2)) => match spec_mode_infos(bytes, p2, (n - 1) as nat) {
                        Some((rest, p3)) => Some((seq![info] + rest, p3)),
                        None => None,
                    },
                    None => None,
                }
            },
            None => None,
        }
    }
}

/// One key/value pair of a highlight-attribute map folded into `acc`.
/// A style flag is set by the key's presence, whatever boolean it carries.
pub open spec fn spec_rgb_pairs(bytes: Seq<u8>, pos: int, k: nat, acc: RgbAttr) -> Option<
    (RgbAttr, int),
>
    decreases k,
{
    if k == 0 {
        Some((acc, pos))
    } else {
        match msgpack::spec_read_str(bytes, pos) {
            Some((key, p1)) => {
                if key == "foreground"@ {
                    match spec_color(bytes, p1) {
                        Some((c, p2)) => spec_rgb_pairs(
                            bytes,
                            p2,
                            (k - 1) as nat,
                            RgbAttr { foreground: Some(c), ..acc },
                        ),
                        None => None,
                    }
                } else if key == "background"@ {
                    match spec_color(bytes, p1) {
                        Some((c, p2)) => spec_rgb_pairs(
                            bytes,
                            p2,
                            (k - 1) as nat,
                            RgbAttr { background: Some(c), ..acc },
                        ),
                        None => None,
                    }
                } else if key == "special"@ {
                    match spec_color(bytes, p1) {
                        Some((c, p2)) => spec_rgb_pairs(
                            bytes,
                            p2,
                            (k - 1) as nat,
                            RgbAttr { special: Some(c), ..acc },
                        ),
                        None => None,
                    }
                } else if key == "blend"@ {
                    match msgpack::spec_read_u64(bytes, p1) {
                        Some((v, p2)) => spec_rgb_pairs(
                            bytes,
                            p2,
                            (k - 1) as nat,
                            RgbAttr { blend: (v & 0xFF) as u8, ..acc },
                        ),
                        None => None,
                    }
                } else if key == "reverse"@ {
                    match msgpack::spec_read_bool(bytes, p1) {
                        Some((v, p2)) => spec_rgb_pairs(
                            bytes,
                            p2,
                            (k - 1) as nat,
                            RgbAttr { reverse: true, ..acc },
                        ),
                        None => None,
                    }
                } else if key == "italic"@ {
                    match msgpack::spec_read_bool(bytes, p1) {
                        Some((v, p2)) => spec_rgb_pairs(
                            bytes,
                            p2,
                            (k - 1) as nat,
                            RgbAttr { italic: true, ..acc },
                        ),
                        None => None,
                    }
                } else if key == "bold"@ {
                    match msgpack::spec_read_bool(bytes, p1) {
                        Some((v, p2)) => spec_rgb_pairs(
                            bytes,
                            p2,
                            (k - 1) as nat,
                            RgbAttr { bold: true, ..acc },
                        ),
                        None => None,
                    }
                } else if key == "strikethrough"@ {
                    match msgpack::spec_read_bool(bytes, p1) {
                        Some((v, p2)) => spec_rgb_pairs(
                            bytes,
                            p2,
                            (k - 1) as nat,
                            RgbAttr { strikethrough: true, ..acc },
                        ),
                        None => None,
                    }
                } else if key == "underline"@ {
                    match msgpack::spec_read_bool(bytes, p1) {
                        Some((v, p2)) => spec_rgb_pairs(
                            bytes,
                            p2,
                            (k - 1) as nat,
                            RgbAttr { underline: true, ..acc },
                        ),
                        None => None,
                    }
                } else if key == "undercurl"@ {
                    match msgpack::spec_read_bool(bytes, p1) {
                        Some((v, p2)) => spec_rgb_pairs(
                            bytes,
                            p2,
                            (k - 1) as nat,
                            RgbAttr { undercurl: true, ..acc },
                        ),
                        None => None,
                    }
                } else {
                    None
                }
            },
            None => None,
        }
    }
}

/// A whole highlight-attribute map.
pub open spec fn spec_rgb_map(bytes: Seq<u8>, pos: int) -> Option<(RgbAttr, int)> {
    match msgpack::spec_read_map_len(bytes, pos) {
        Some((k, p1)) => spec_rgb_pairs(bytes, p1, k, rgb_attr_empty()),
        None => None,
    }
}

/// `n` consecutive cell tuples of a `grid_line` event. A tuple that omits its
/// highlight id takes the last id seen in the same line; omitting the repeat
/// count means once. `last` is the id carried forward; decoding fails if a
/// tuple omits its id before any id was seen.
pub open spec fn spec_cells(bytes: Seq<u8>, pos: int, n: nat, last: Option<u64>) -> Option<
    (Seq<GridCellV>, int),
>
    decreases n,
{
    if n == 0 {
        Some((Seq::empty(), pos))
    } else {
        match msgpack::spec_read_array_len(bytes, pos) {
            Some((t, p1)) => {
                if 1 <= t <= 3 {
                    match msgpack::spec_read_str(bytes, p1) {
                        Some((text, p2)) => {
                            if t == 1 {
                                match last {
                                    Some(h) => {
                                        let cell = GridCellV { text, hl_id: h, repeated: 1 };
                                        match spec_cells(bytes, p2, (n - 1) as nat, last) {
                                            Some((rest, q)) => Some((seq![cell] + rest, q)),
                                            None => None,
                                        }
                                    },
                                    None => None,
                                }
                            } else {
                                match msgpack::spec_read_u64(bytes, p2) {
                                    Some((h, p3)) => {
                                        if t == 2 {
                                            let cell = GridCellV { text, hl_id: h, repeated: 1 };
                                            match spec_cells(bytes, p3, (n - 1) as nat, Some(h)) {
                                                Some((rest, q)) => Some((seq![cell] + rest, q)),
                                                None => None,
                                            }
                                        } else {
                                            match msgpack::spec_read_u64(bytes, p3) {
                                                Some((rep, p4)) => {
                                                    let cell = GridCellV {
                                                        text,
                                                        hl_id: h,
                                                        repeated: rep,
                                                    };
                                                    match spec_cells(
                                                        bytes,
                                                        p4,
                                                        (n - 1) as nat,
                                                        Some(h),
                                                    ) {
                                                        Some((rest, q)) => Some(
                                                            (seq![cell] + rest, q),
                                                        ),
                                                        None => None,
                                                    }
                                                },
                                                None => None,
                                            }
                                        }
                                    },
                                    None => None,
                                }
                            }
                        },
                        None => None,
                    }
                } else {
                    None
                }
            },
            None => None,
        }
    }
}



/// One parameter tuple of the event kind `kind`, yielding the event it
/// carries, or no event for the recognized-but-unused names.
pub open spec fn spec_tuple(bytes: Seq<u8>, pos: int, kind: EventKind) -> Option<
    (Option<RedrawEventV>, int),
> {
    match kind {
        EventKind::SetTitle => match spec_params(bytes, pos, 1) {
            Some(p) => match msgpack::spec_read_str(bytes, p) {
                Some((t, q)) => Some((Some(RedrawEventV::SetTitle(t)), q)),
                None => None,
            },
            None => None,
        },
        EventKind::SetIcon => match spec_params(bytes, pos, 1) {
            Some(p) => match msgpack::spec_read_str(bytes, p) {
                Some((t, q)) => Some((Some(RedrawEventV::SetIcon(t)), q)),
                None => None,
            },
            None => None,
        },
        EventKind::ModeInfoSet => match spec_params(bytes, pos, 2) {
            Some(p) => match msgpack::spec_read_bool(bytes, p) {
                Some((cse, p1)) => match msgpack::spec_read_array_len(bytes, p1) {
                    Some((n, p2)) => match spec_mode_infos(bytes, p2, n) {
                        Some((infos, q)) => Some(
                            (
                                Some(
                                    RedrawEventV::ModeInfoSet {
                                        cursor_style_enabled: cse,
                                        mode_infos: infos,
                                    },
                                ),
                                q,
                            ),
                        ),
                        None => None,
                    },
                    None => None,
                },
                None => None,
            },
            None => None,
        },
        EventKind::OptionSet => match spec_params(bytes, pos, 2) {
            Some(p) => match msgpack::spec_read_str(bytes, p) {
                Some((option, p1)) => {
                    if option == "ambiwidth"@ || option == "guifontwide"@ || option == "guifont"@
                        || option == "guifontset"@ {
                        match msgpack::spec_read_str(bytes, p1) {
                            Some((value, q)) => Some(
                                (
                                    Some(
                                        RedrawEventV::OptionSet(
                                            UiOptionV::Text { option, value },
                                        ),
                                    ),
                                    q,
                                ),
                            ),
                            None => None,
                        }
                    } else if option == "pumblend"@ || option == "showtabline"@ || option
                        == "ttimeoutlen"@ || option == "linespace"@ {
                        match msgpack::spec_read_i64(bytes, p1) {
                            Some((value, q)) => Some(
                                (
                                    Some(
                                        RedrawEventV::OptionSet(UiOptionV::Int { option, value }),
                                    ),
                                    q,
                                ),
                            ),
                            None => None,
                        }
                    } else if option == "arabicshape"@ || option == "termguicolors"@ || option
                        == "emoji"@ || option == "mousefocus"@ || option == "ttimeout"@ || option
                        == "ext_linegrid"@ || option == "ext_multigrid"@ || option
                        == "ext_hlstate"@ || option == "ext_termcolors"@ || option
                        == "ext_cmdline"@ || option == "ext_popupmenu"@ || option
                        == "ext_tabline"@ || option == "ext_wildmenu"@ || option
                        == "ext_messages"@ {
                        match msgpack::spec_read_bool(bytes, p1) {
                            Some((value, q)) => Some(
                                (
                                    Some(
                                        RedrawEventV::OptionSet(
                                            UiOptionV::Toggle { option, value },
                                        ),
                                    ),
                                    q,
                                ),
                            ),
                            None => None,
                        }
                    } else {
                        None
                    }
                },
                None => None,
            },
            None => None,
        },
        EventKind::ModeChange => match spec_params(bytes, pos, 2) {
            Some(p) => match msgpack::spec_read_str(bytes, p) {
                Some((name, p1)) => match msgpack::spec_read_u64(bytes, p1) {
                    Some((idx, q)) => Some((Some(RedrawEventV::ModeChange(idx)), q)),
                    None => None,
                },
                None => None,
            },
            None => None,
        },
        EventKind::MouseOn => match spec_params(bytes, pos, 0) {
            Some(q) => Some((Some(RedrawEventV::Mouse(true)), q)),
            None => None,
        },
        EventKind::MouseOff => match spec_params(bytes, pos, 0) {
            Some(q) => Some((Some(RedrawEventV::Mouse(false)), q)),
            None => None,
        },
        EventKind::BusyStart => match spec_params(bytes, pos, 0) {
            Some(q) => Some((Some(RedrawEventV::Busy(true)), q)),
            None => None,
        },
        EventKind::BusyStop => match spec_params(bytes, pos, 0) {
            Some(q) => Some((Some(RedrawEventV::Busy(false)), q)),
            None => None,
        },
        EventKind::Flush => match spec_params(bytes, pos, 0) {
            Some(q) => Some((Some(RedrawEventV::Flush), q)),
            None => None,
        },
        EventKind::Ignored => match spec_params(bytes, pos, 0) {
            Some(q) => Some((None, q)),
            None => None,
        },
        EventKind::GridResize => match spec_params(bytes, pos, 3) {
            Some(p) => match msgpack::spec_read_u64(bytes, p) {
                Some((grid, p1)) => match msgpack::spec_read_u64(bytes, p1) {
                    Some((width, p2)) => match msgpack::spec_read_u64(bytes, p2) {
                        Some((height, q)) => Some(
                            (Some(RedrawEventV::GridResize { grid, width, height }), q),
                        ),
                        None => None,
                    },
                    None => None,
                },
                None => None,
            },
            None => None,
        },
        EventKind::DefaultColorsSet => match spec_params(bytes, pos, 5) {
            Some(p) => match spec_color(bytes, p) {
                Some((foreground, p1)) => match spec_color(bytes, p1) {
                    Some((background, p2)) => match spec_color(bytes, p2) {
                        Some((special, p3)) => match msgpack::spec_read_u64(bytes, p3) {
                            Some((c1, p4)) => match msgpack::spec_read_u64(bytes, p4) {
                                Some((c2, q)) => Some(
                                    (
                                        Some(
                                            RedrawEventV::DefaultColorsSet(
                                                DefaultColorSet { foreground, background, special },
                                            ),
                                        ),
                                        q,
                                    ),
                                ),
                                None => None,
                            },
                            None => None,
                        },
                        None => None,
                    },
                    None => None,
                },
                None => None,
            },
            None => None,
        },
        EventKind::HlAttrDefine => match spec_params(bytes, pos, 4) {
            Some(p) => match msgpack::spec_read_u64(bytes, p) {
                Some((id, p1)) => match spec_rgb_map(bytes, p1) {
                    Some((rgb_attr, p2)) => match spec_rgb_map(bytes, p2) {
                        Some((cterm, p3)) => match spec_params(bytes, p3, 0) {
                            Some(q) => Some(
                                (Some(RedrawEventV::HlAttrDefine(HighlightAttr { id, rgb_attr })), q),
                            ),
                            None => None,
                        },
                        None => None,
                    },
                    None => None,
                },
                None => None,
            },
            None => None,
        },
        EventKind::HlGroupSet => match spec_params(bytes, pos, 2) {
            Some(p) => match msgpack::spec_read_str(bytes, p) {
                Some((name, p1)) => match msgpack::spec_read_u64(bytes, p1) {
                    Some((hl_id, q)) => Some((Some(RedrawEventV::HlGroupSet { name, hl_id }), q)),
                    None => None,
                },
                None => None,
            },
            None => None,
        },
        EventKind::GridLine => match spec_params(bytes, pos, 4) {
            Some(p) => match msgpack::spec_read_u64(bytes, p) {
                Some((grid, p1)) => match msgpack::spec_read_u64(bytes, p1) {
                    Some((row, p2)) => match msgpack::spec_read_u64(bytes, p2) {
                        Some((col_start, p3)) => match msgpack::spec_read_array_len(bytes, p3) {
                            Some((n, p4)) => match spec_cells(bytes, p4, n, None) {
                                Some((cells, q)) => Some(
                                    (
                                        Some(
                                            RedrawEventV::GridLine(
                                                GridLineV { grid, row, col_start, cells },
                                            ),
                                        ),
                                        q,
                                    ),
                                ),
                                None => None,
                            },
                            None => None,
                        },
                        None => None,
                    },
                    None => None,
                },
                None => None,
            },
            None => None,
        },
        EventKind::GridClear => match spec_params(bytes, pos, 1) {
            Some(p) => match msgpack::spec_read_u64(bytes, p) {
                Some((grid, q)) => Some((Some(RedrawEventV::GridClear(grid)), q)),
                None => None,
            },
            None => None,
        },
        EventKind::GridDestroy => match spec_params(bytes, pos, 1) {
            Some(p) => match msgpack::spec_read_u64(bytes, p) {
                Some((grid, q)) => Some((Some(RedrawEventV::GridDestroy(grid)), q)),
                None => None,
            },
            None => None,
        },
        EventKind::GridCursorGoto => match spec_params(bytes, pos, 3) {
            Some(p) => match msgpack::spec_read_u64(bytes, p) {
                Some((grid, p1)) => match msgpack::spec_read_u64(bytes, p1) {
                    Some((row, p2)) => match msgpack::spec_read_u64(bytes, p2) {
                        Some((column, q)) => Some(
                            (Some(RedrawEventV::GridCursorGoto(GridGoto { grid, row, column })), q),
                        ),
                        None => None,
                    },
                    None => None,
                },
                None => None,
            },
            None => None,
        },
        EventKind::GridScroll => match spec_params(bytes, pos, 7) {
            Some(p) => match msgpack::spec_read_u64(bytes, p) {
                Some((grid, p1)) => match msgpack::spec_read_u64(bytes, p1) {
                    Some((top, p2)) => match msgpack::spec_read_u64(bytes, p2) {
                        Some((bottom, p3)) => match msgpack::spec_read_u64(bytes, p3) {
                            Some((left, p4)) => match msgpack::spec_read_u64(bytes, p4) {
                                Some((right, p5)) => match msgpack::spec_read_i64(bytes, p5) {
                                    Some((rows, p6)) => match msgpack::spec_read_u64(bytes, p6) {
                                        Some((cols, q)) => Some(
                                            (
                                                Some(
                                                    RedrawEventV::GridScroll(
                                                        GridScroll {
                                                            grid,
                                                            top,
                                                            bottom,
                                                            left,
                                                            right,
                                                            rows,
                                                        },
                                                    ),
                                                ),
                                                q,
                                            ),
                                        ),
                                        None => None,
                                    },
                                    None => None,
                                },
                                None => None,
                            },
                            None => None,
                        },
                        None => None,
                    },
                    None => None,
                },
                None => None,
            },
            None => None,
        },
    }
}

/// `n` consecutive parameter tuples of one event kind, in order.
pub open spec fn spec_events(bytes: Seq<u8>, pos: int, kind: EventKind, n: nat) -> Option<
    (Seq<RedrawEventV>, int),
>
    decreases n,
{
    if n == 0 {
        Some((Seq::empty(), pos))
    } else {
        match spec_tuple(bytes, pos, kind) {
            Some((ev, p)) => match spec_events(bytes, p, kind, (n - 1) as nat) {
                Some((rest, q)) => match ev {
                    Some(e) => Some((seq![e] + rest, q)),
                    None => Some((rest, q)),
                },
                None => None,
            },
            None => None,
        }
    }
}

/// The event kind a name denotes, or `None` for a name the decoder does not
/// recognize and skips.
pub open spec fn spec_kind_of(name: Seq<char>) -> Option<EventKind> {
    if name == "set_title"@ {
        Some(EventKind::SetTitle)
    } else if name == "set_icon"@ {
        Some(EventKind::SetIcon)
    } else if name == "mode_info_set"@ {
        Some(EventKind::ModeInfoSet)
    } else if name == "option_set"@ {
        Some(EventKind::OptionSet)
    } else if name == "mode_change"@ {
        Some(EventKind::ModeChange)
    } else if name == "mouse_on"@ {
        Some(EventKind::MouseOn)
    } else if name == "mouse_off"@ {
        Some(EventKind::MouseOff)
    } else if name == "busy_start"@ {
        Some(EventKind::BusyStart)
    } else if name == "busy_stop"@ {
        Some(EventKind::BusyStop)
    } else if name == "flush"@ {
        Some(EventKind::Flush)
    } else if name == "suspend"@ || name == "update_menu"@ || name == "bell"@ || name
        == "visual_bell"@ {
        Some(EventKind::Ignored)
    } else if name == "grid_resize"@ {
        Some(EventKind::GridResize)
    } else if name == "default_colors_set"@ {
        Some(EventKind::DefaultColorsSet)
    } else if name == "hl_attr_define"@ {
        Some(EventKind::HlAttrDefine)
    } else if name == "hl_group_set"@ {
        Some(EventKind::HlGroupSet)
    } else if name == "grid_line"@ {
        Some(EventKind::GridLine)
    } else if name == "grid_clear"@ {
        Some(EventKind::GridClear)
    } else if name == "grid_destroy"@ {
        Some(EventKind::GridDestroy)
    } else if name == "grid_cursor_goto"@ {
        Some(EventKind::GridCursorGoto)
    } else if name == "grid_scroll"@ {
        Some(EventKind::GridScroll)
    } else {
        None
    }
}

/// One event batch: the event name, then one parameter tuple per repetition.
/// A batch with an unrecognized name is skipped whole and yields no event.
pub open spec fn spec_decode_single(bytes: Seq<u8>, pos: int) -> Option<(Seq<RedrawEventV>, int)> {
    match msgpack::spec_read_array_len(bytes, pos) {
        Some((l, p0)) => {
            if l >= 1 {
                match msgpack::spec_read_str(bytes, p0) {
                    Some((name, p1)) => match spec_kind_of(name) {
                        Some(kind) => spec_events(bytes, p1, kind, (l - 1) as nat),
                        None => match msgpack::spec_skip_n(
                            bytes,
                            p1,
                            (l - 1) as nat,
                            bytes.len(),
                        ) {
                            Some(q) => Some((Seq::empty(), q)),
                            None => None,
                        },
                    },
                    None => None,
                }
            } else {
                None
            }
        },
        None => None,
    }
}

/// `n` consecutive event batches, their events concatenated in order.
pub open spec fn spec_batches(bytes: Seq<u8>, pos: int, n: nat) -> Option<(Seq<RedrawEventV>, int)>
    decreases n,
{
    if n == 0 {
        Some((Seq::empty(), pos))
    } else {
        match spec_decode_single(bytes, pos) {
            Some((evs, p)) => match spec_batches(bytes, p, (n - 1) as nat) {
                Some((rest, q)) => Some((evs + rest, q)),
                None => None,
            },
            None => None,
        }
    }
}

/// The payload of one redraw notification: an array of event batches.
pub open spec fn spec_decode_batch(bytes: Seq<u8>, pos: int) -> Option<(Seq<RedrawEventV>, int)> {
    match msgpack::spec_read_array_len(bytes, pos) {
        Some((n, p)) => spec_batches(bytes, p, n),
        None => None,
    }
}

/// One RPC frame. `Some((Some(events), p))` is a redraw notification ending
/// at `p`; `Some((None, p))` is other traffic, ignorable with the rest of the
/// read; `None` is a malformed frame.
pub open spec fn spec_decode_message(bytes: Seq<u8>, pos: int) -> Option<
    (Option<Seq<RedrawEventV>>, int),
> {
    match msgpack::spec_read_array_len(bytes, pos) {
        Some((frame_len, p0)) => match msgpack::spec_read_u64(bytes, p0) {
            Some((msg_kind, p1)) => {
                if msg_kind == 0 || msg_kind == 1 {
                    // A request or response: nothing the client consumes.
                    Some((None, p1))
                } else if msg_kind == 2 {
                    match msgpack::spec_read_str(bytes, p1) {
                        Some((method, p2)) => {
                            if method == "redraw"@ {
                                match spec_decode_batch(bytes, p2) {
                                    Some((evs, q)) => Some((Some(evs), q)),
                                    None => None,
                                }
                            } else {
                                Some((None, p2))
                            }
                        },
                        None => None,
                    }
                } else {
                    None
                }
            },
            None => None,
        },
        None => None,
    }
}

/// How decoding one read's worth of bytes ended.
#[derive(Debug, Copy, Clone, PartialEq, Eq, Structural)]
pub enum ReadStatus {
    /// Every frame was a redraw notification and the buffer was consumed
    /// exactly.
    Complete,
    /// A frame carried other traffic; the rest of the read is ignored, since
    /// the client does not know how to delimit it.
    Interrupted,
    /// A structural violation; the rest of the read cannot be trusted.
    Failed,
}

/// Every frame of one read, front to back: the events of its redraw
/// notifications in order, and how decoding ended.
pub open spec fn spec_read_frames(bytes: Seq<u8>, pos: int) -> (Seq<RedrawEventV>, ReadStatus)
    decreases bytes.len() - pos,
{
    if pos < 0 || pos > bytes.len() {
        (Seq::empty(), ReadStatus::Failed)
    } else if pos == bytes.len() {
        (Seq::empty(), ReadStatus::Complete)
    } else {
        match spec_decode_message(bytes, pos) {
            Some((Some(evs), p)) => {
                if pos < p <= bytes.len() {
                    let (rest, status) = spec_read_frames(bytes, p);
                    (evs + rest, status)
                } else {
                    (evs, ReadStatus::Failed)
                }
            },
            Some((None, p)) => (Seq::empty(), ReadStatus::Interrupted),
            None => (Seq::empty(), ReadStatus::Failed),
        }
    }
}



/// Compares a decoded string against a literal.
fn str_eq_lit(s: &String, lit: &str) -> (r: bool)
    ensures
        r == (s@ == lit@),
{
    s.eq(&lit.to_owned())
}

/// Reads an array header and checks that it declares exactly `count`
/// elements, as the fixed-arity parameter tuples require.
pub fn ensure_parameters_count(bytes: &[u8], pos: usize, count: usize) -> (r: Option<usize>)
    ensures
        match spec_params(bytes@, pos as int, count as nat) {
            Some(p) => r == Some(p as usize),
            None => r is None,
        },
{
    proof {
        msgpack::lemma_len_fits(bytes);
    }
    match msgpack::read_array_len(bytes, pos) {
        Some((n, p)) => if n == count {
            Some(p)
        } else {
            None
        },
        None => None,
    }
}

/// Reads a packed 24-bit RGB color.
pub fn read_color(bytes: &[u8], pos: usize) -> (r: Option<(Color, usize)>)
    ensures
        match spec_color(bytes@, pos as int) {
            Some((c, p)) => r == Some((c, p as usize)),
            None => r is None,
        },
{
    proof {
        msgpack::lemma_len_fits(bytes);
    }
    match msgpack::read_u64(bytes, pos) {
        Some((v, p)) => Some((Color::from_rgb_u64(v), p)),
        None => None,
    }
}

/// The event kind a decoded name denotes.
fn kind_of(name: &String) -> (r: Option<EventKind>)
    ensures
        r == spec_kind_of(name@),
{
    if str_eq_lit(name, "set_title") {
        Some(EventKind::SetTitle)
    } else if str_eq_lit(name, "set_icon") {
        Some(EventKind::SetIcon)
    } else if str_eq_lit(name, "mode_info_set") {
        Some(EventKind::ModeInfoSet)
    } else if str_eq_lit(name, "option_set") {
        Some(EventKind::OptionSet)
    } else if str_eq_lit(name, "mode_change") {
        Some(EventKind::ModeChange)
    } else if str_eq_lit(name, "mouse_on") {
        Some(EventKind::MouseOn)
    } else if str_eq_lit(name, "mouse_off") {
        Some(EventKind::MouseOff)
    } else if str_eq_lit(name, "busy_start") {
        Some(EventKind::BusyStart)
    } else if str_eq_lit(name, "busy_stop") {
        Some(EventKind::BusyStop)
    } else if str_eq_lit(name, "flush") {
        Some(EventKind::Flush)
    } else if str_eq_lit(name, "suspend") || str_eq_lit(name, "update_menu") || str_eq_lit(
        name,
        "bell",
    ) || str_eq_lit(name, "visual_bell") {
        Some(EventKind::Ignored)
    } else if str_eq_lit(name, "grid_resize") {
        Some(EventKind::GridResize)
    } else if str_eq_lit(name, "default_colors_set") {
        Some(EventKind::DefaultColorsSet)
    } else if str_eq_lit(name, "hl_attr_define") {
        Some(EventKind::HlAttrDefine)
    } else if str_eq_lit(name, "hl_group_set") {
        Some(EventKind::HlGroupSet)
    } else if str_eq_lit(name, "grid_line") {
        Some(EventKind::GridLine)
    } else if str_eq_lit(name, "grid_clear") {
        Some(EventKind::GridClear)
    } else if str_eq_lit(name, "grid_destroy") {
        Some(EventKind::GridDestroy)
    } else if str_eq_lit(name, "grid_cursor_goto") {
        Some(EventKind::GridCursorGoto)
    } else if str_eq_lit(name, "grid_scroll") {
        Some(EventKind::GridScroll)
    } else {
        None
    }
}

/// Folds the key/value pairs of one mode-properties map.
#[verifier::rlimit(100)]
fn decode_mode_info_pairs(bytes: &[u8], pos: usize, k: usize, acc: ModeInfo) -> (r: Option<
    (ModeInfo, usize),
>)
    requires
        pos <= bytes@.len(),
    ensures
        match spec_mode_info_pairs(bytes@, pos as int, k as nat, acc) {
            Some((info, p)) => r == Some((info, p as usize)),
            None => r is None,
        },
        spec_mode_info_pairs(bytes@, pos as int, k as nat, acc) matches Some((info, p)) ==> pos
            <= p <= bytes@.len(),
    decreases k,
{
    proof {
        msgpack::lemma_len_fits(bytes);
    }
    if k == 0 {
        return Some((acc, pos));
    }
    match msgpack::read_string(bytes, pos) {
        Some((key, p1)) => {
            if str_eq_lit(&key, "cursor_shape") {
                match msgpack::read_string(bytes, p1) {
                    Some((v, p2)) => {
                        let shape: Option<CursorShape> = if str_eq_lit(&v, "block") {
                            Some(CursorShape::Block)
                        } else if str_eq_lit(&v, "horizontal") {
                            Some(CursorShape::Horizontal)
                        } else if str_eq_lit(&v, "vertical") {
                            Some(CursorShape::Vertical)
                        } else {
                            None
                        };
                        match shape {
                            Some(cs) => {
                                proof {
                                    assert(spec_mode_info_pairs(bytes@, pos as int, k as nat, acc)
                                        == spec_mode_info_pairs(
                                        bytes@,
                                        p2 as int,
                                        (k - 1) as nat,
                                        ModeInfo { cursor_shape: cs, ..acc },
                                    ));
                                }
                                decode_mode_info_pairs(
                                    bytes,
                                    p2,
                                    k - 1,
                                    ModeInfo { cursor_shape: cs, ..acc },
                                )
                            },
                            None => None,
                        }
                    },
                    None => None,
                }
            } else if str_eq_lit(&key, "cell_percentage") {
                match msgpack::read_u64(bytes, p1) {
                    Some((v, p2)) => decode_mode_info_pairs(
                        bytes,
                        p2,
                        k - 1,
                        ModeInfo { cell_percentage: v, ..acc },
                    ),
                    None => None,
                }
            } else if str_eq_lit(&key, "attr_id") || str_eq_lit(&key, "hl_id") {
                match msgpack::read_u64(bytes, p1) {
                    Some((v, p2)) => decode_mode_info_pairs(
                        bytes,
                        p2,
                        k - 1,
                        ModeInfo { attr_id: v, ..acc },
                    ),
                    None => None,
                }
            } else if str_eq_lit(&key, "blinkoff") || str_eq_lit(&key, "blinkon") || str_eq_lit(
                &key,
                "blinkwait",
            ) || str_eq_lit(&key, "attr_id_lm") || str_eq_lit(&key, "id_lm") || str_eq_lit(
                &key,
                "mouse_shape",
            ) {
                match msgpack::read_u64(bytes, p1) {
                    Some((v, p2)) => decode_mode_info_pairs(bytes, p2, k - 1, acc),
                    None => None,
                }
            } else if str_eq_lit(&key, "short_name") || str_eq_lit(&key, "name") {
                match msgpack::read_string(bytes, p1) {
                    Some((v, p2)) => decode_mode_info_pairs(bytes, p2, k - 1, acc),
                    None => None,
                }
            } else {
                None
            }
        },
        None => None,
    }
}

/// Decodes `n` consecutive mode-properties maps.
#[verifier::rlimit(100)]
fn decode_mode_infos(bytes: &[u8], pos: usize, n: usize) -> (r: Option<(Vec<ModeInfo>, usize)>)
    requires
        pos <= bytes@.len(),
    ensures
        match spec_mode_infos(bytes@, pos as int, n as nat) {
            Some((infos, p)) => r matches Some((v, q)) && v@ == infos && q == p,
            None => r is None,
        },
        spec_mode_infos(bytes@, pos as int, n as nat) matches Some((infos, p)) ==> pos <= p
            <= bytes@.len(),
    decreases n,
{
    proof {
        msgpack::lemma_len_fits(bytes);
    }
    if n == 0 {
        let v: Vec<ModeInfo> = Vec::new();
        proof {
            assert(v@ =~= Seq::<ModeInfo>::empty());
        }
        return Some((v, pos));
    }
    match msgpack::read_map_len(bytes, pos) {
        Some((k, p1)) => {
            let start = ModeInfo {
                cursor_shape: CursorShape::Block,
                cell_percentage: 0,
                attr_id: 0,
            };
            match decode_mode_info_pairs(bytes, p1, k, start) {
                Some((info, p2)) => match decode_mode_infos(bytes, p2, n - 1) {
                    Some((mut rest, p3)) => {
                        let mut v: Vec<ModeInfo> = Vec::new();
                        v.push(info);
                        v.append(&mut rest);
                        proof {
                            let (infos, p) = spec_mode_infos(
                                bytes@,
                                pos as int,
                                n as nat,
                            ).unwrap();
                            assert(v@ =~= infos);
                        }
                        Some((v, p3))
                    },
                    None => None,
                },
                None => None,
            }
        },
        None => None,
    }
}

/// Folds the key/value pairs of one highlight-attribute map.
#[verifier::rlimit(100)]
fn decode_rgb_pairs(bytes: &[u8], pos: usize, k: usize, acc: RgbAttr) -> (r: Option<
    (RgbAttr, usize),
>)
    requires
        pos <= bytes@.len(),
    ensures
        match spec_rgb_pairs(bytes@, pos as int, k as nat, acc) {
            Some((attr, p)) => r == Some((attr, p as usize)),
            None => r is None,
        },
        spec_rgb_pairs(bytes@, pos as int, k as nat, acc) matches Some((attr, p)) ==> pos <= p
            <= bytes@.len(),
    decreases k,
{
    proof {
        msgpack::lemma_len_fits(bytes);
    }
    if k == 0 {
        return Some((acc, pos));
    }
    match msgpack::read_string(bytes, pos) {
        Some((key, p1)) => {
            if str_eq_lit(&key, "foreground") {
                match read_color(bytes, p1) {
                    Some((c, p2)) => decode_rgb_pairs(
                        bytes,
                        p2,
                        k - 1,
                        RgbAttr { foreground: Some(c), ..acc },
                    ),
                    None => None,
                }
            } else if str_eq_lit(&key, "background") {
                match read_color(bytes, p1) {
                    Some((c, p2)) => decode_rgb_pairs(
                        bytes,
                        p2,
                        k - 1,
                        RgbAttr { background: Some(c), ..acc },
                    ),
                    None => None,
                }
            } else if str_eq_lit(&key, "special") {
                match read_color(bytes, p1) {
                    Some((c, p2)) => decode_rgb_pairs(
                        bytes,
                        p2,
                        k - 1,
                        RgbAttr { special: Some(c), ..acc },
                    ),
                    None => None,
                }
            } else if str_eq_lit(&key, "blend") {
                match msgpack::read_u64(bytes, p1) {
                    Some((v, p2)) => {
                        proof {
                            assert(v & 0xFF <= 0xFF) by (bit_vector);
                        }
                        decode_rgb_pairs(
                            bytes,
                            p2,
                            k - 1,
                            RgbAttr { blend: (v & 0xFF) as u8, ..acc },
                        )
                    },
                    None => None,
                }
            } else if str_eq_lit(&key, "reverse") {
                match msgpack::read_bool(bytes, p1) {
                    Some((v, p2)) => decode_rgb_pairs(
                        bytes,
                        p2,
                        k - 1,
                        RgbAttr { reverse: true, ..acc },
                    ),
                    None => None,
                }
            } else if str_eq_lit(&key, "italic") {
                match msgpack::read_bool(bytes, p1) {
                    Some((v, p2)) => decode_rgb_pairs(
                        bytes,
                        p2,
                        k - 1,
                        RgbAttr { italic: true, ..acc },
                    ),
                    None => None,
                }
            } else if str_eq_lit(&key, "bold") {
                match msgpack::read_bool(bytes, p1) {
                    Some((v, p2)) => decode_rgb_pairs(bytes, p2, k - 1, RgbAttr { bold: true, ..acc }),
                    None => None,
                }
            } else if str_eq_lit(&key, "strikethrough") {
                match msgpack::read_bool(bytes, p1) {
                    Some((v, p2)) => decode_rgb_pairs(
                        bytes,
                        p2,
                        k - 1,
                        RgbAttr { strikethrough: true, ..acc },
                    ),
                    None => None,
                }
            } else if str_eq_lit(&key, "underline") {
                match msgpack::read_bool(bytes, p1) {
                    Some((v, p2)) => decode_rgb_pairs(
                        bytes,
                        p2,
                        k - 1,
                        RgbAttr { underline: true, ..acc },
                    ),
                    None => None,
                }
            } else if str_eq_lit(&key, "undercurl") {
                match msgpack::read_bool(bytes, p1) {
                    Some((v, p2)) => decode_rgb_pairs(
                        bytes,
                        p2,
                        k - 1,
                        RgbAttr { undercurl: true, ..acc },
                    ),
                    None => None,
                }
            } else {
                None
            }
        },
        None => None,
    }
}

/// Decodes one whole highlight-attribute map.
#[verifier::rlimit(100)]
fn decode_rgb_map(bytes: &[u8], pos: usize) -> (r: Option<(RgbAttr, usize)>)
    ensures
        match spec_rgb_map(bytes@, pos as int) {
            Some((attr, p)) => r == Some((attr, p as usize)),
            None => r is None,
        },
        spec_rgb_map(bytes@, pos as int) matches Some((attr, p)) ==> pos < p <= bytes@.len(),
{
    proof {
        msgpack::lemma_len_fits(bytes);
    }
    match msgpack::read_map_len(bytes, pos) {
        Some((k, p1)) => decode_rgb_pairs(bytes, p1, k, RgbAttr::default()),
        None => None,
    }
}

/// Decodes `n` consecutive cell tuples of a `grid_line` event, carrying the
/// last explicitly seen highlight id forward.
#[verifier::rlimit(100)]
fn decode_cells(bytes: &[u8], pos: usize, n: usize, last: Option<u64>) -> (r: Option<
    (Vec<GridCell>, usize),
>)
    requires
        pos <= bytes@.len(),
    ensures
        match spec_cells(bytes@, pos as int, n as nat, last) {
            Some((cells, p)) => r matches Some((v, q)) && v@.map_values(|c: GridCell| c@) == cells
                && q == p,
            None => r is None,
        },
        spec_cells(bytes@, pos as int, n as nat, last) matches Some((cells, p)) ==> pos <= p
            <= bytes@.len(),
    decreases n,
{
    proof {
        msgpack::lemma_len_fits(bytes);
    }
    if n == 0 {
        let v: Vec<GridCell> = Vec::new();
        proof {
            assert(v@.map_values(|c: GridCell| c@) =~= Seq::<GridCellV>::empty());
        }
        return Some((v, pos));
    }
    match msgpack::read_array_len(bytes, pos) {
        Some((t, p1)) => {
            if 1 <= t && t <= 3 {
                match msgpack::read_string(bytes, p1) {
                    Some((text, p2)) => {
                        let step: Option<(GridCell, Option<u64>, usize)> = if t == 1 {
                            match last {
                                Some(h) => Some(
                                    (GridCell { text, hl_id: h, repeated: 1 }, last, p2),
                                ),
                                None => None,
                            }
                        } else {
                            match msgpack::read_u64(bytes, p2) {
                                Some((h, p3)) => {
                                    if t == 2 {
                                        Some(
                                            (
                                                GridCell { text, hl_id: h, repeated: 1 },
                                                Some(h),
                                                p3,
                                            ),
                                        )
                                    } else {
                                        match msgpack::read_u64(bytes, p3) {
                                            Some((rep, p4)) => Some(
                                                (
                                                    GridCell { text, hl_id: h, repeated: rep },
                                                    Some(h),
                                                    p4,
                                                ),
                                            ),
                                            None => None,
                                        }
                                    }
                                },
                                None => None,
                            }
                        };
                        match step {
                            Some((cell, carry, p_next)) => {
                                match decode_cells(bytes, p_next, n - 1, carry) {
                                    Some((mut rest, q)) => {
                                        let ghost cell_v = cell@;
                                        let mut v: Vec<GridCell> = Vec::new();
                                        v.push(cell);
                                        v.append(&mut rest);
                                        proof {
                                            let (cells, p) = spec_cells(
                                                bytes@,
                                                pos as int,
                                                n as nat,
                                                last,
                                            ).unwrap();
                                            assert(v@.map_values(|c: GridCell| c@) =~= cells);
                                        }
                                        Some((v, q))
                                    },
                                    None => None,
                                }
                            },
                            None => None,
                        }
                    },
                    None => None,
                }
            } else {
                None
            }
        },
        None => None,
    }
}



/// The view of an optional event.
pub open spec fn view_opt(o: Option<RedrawEvent>) -> Option<RedrawEventV> {
    match o {
        Some(e) => Some(e@),
        None => None,
    }
}

/// Decodes one parameter tuple of the corresponding event kind.
fn decode_tuple_set_title(bytes: &[u8], pos: usize) -> (r: Option<(Option<RedrawEvent>, usize)>)
    ensures
        match spec_tuple(bytes@, pos as int, EventKind::SetTitle) {
            Some((ev, p)) => r matches Some((re, q)) && view_opt(re) == ev && q == p,
            None => r is None,
        },
        spec_tuple(bytes@, pos as int, EventKind::SetTitle) matches Some((ev, p)) ==> pos < p
            <= bytes@.len(),
{
    proof {
        msgpack::lemma_len_fits(bytes);
    }
    match ensure_parameters_count(bytes, pos, 1) {
        Some(p) => match msgpack::read_string(bytes, p) {
            Some((t, q)) => Some((Some(RedrawEvent::SetTitle(t)), q)),
            None => None,
        },
        None => None,
    }
}

/// Decodes one parameter tuple of the corresponding event kind.
fn decode_tuple_set_icon(bytes: &[u8], pos: usize) -> (r: Option<(Option<RedrawEvent>, usize)>)
    ensures
        match spec_tuple(bytes@, pos as int, EventKind::SetIcon) {
            Some((ev, p)) => r matches Some((re, q)) && view_opt(re) == ev && q == p,
            None => r is None,
        },
        spec_tuple(bytes@, pos as int, EventKind::SetIcon) matches Some((ev, p)) ==> pos < p
            <= bytes@.len(),
{
    proof {
        msgpack::lemma_len_fits(bytes);
    }
    match ensure_parameters_count(bytes, pos, 1) {
        Some(p) => match msgpack::read_string(bytes, p) {
            Some((t, q)) => Some((Some(RedrawEvent::SetIcon(t)), q)),
            None => None,
        },
        None => None,
    }
}

/// Decodes one parameter tuple of the corresponding event kind.
fn decode_tuple_mode_info_set(bytes: &[u8], pos: usize) -> (r: Option<(Option<RedrawEvent>, usize)>)
    ensures
        match spec_tuple(bytes@, pos as int, EventKind::ModeInfoSet) {
            Some((ev, p)) => r matches Some((re, q)) && view_opt(re) == ev && q == p,
            None => r is None,
        },
        spec_tuple(bytes@, pos as int, EventKind::ModeInfoSet) matches Some((ev, p)) ==> pos < p
            <= bytes@.len(),
{
    proof {
        msgpack::lemma_len_fits(bytes);
    }
    match ensure_parameters_count(bytes, pos, 2) {
        Some(p) => match msgpack::read_bool(bytes, p) {
            Some((cse, p1)) => match msgpack::read_array_len(bytes, p1) {
                Some((n, p2)) => match decode_mode_infos(bytes, p2, n) {
                    Some((infos, q)) => Some(
                        (
                            Some(
                                RedrawEvent::ModeInfoSet {
                                    cursor_style_enabled: cse,
                                    mode_infos: infos,
                                },
                            ),
                            q,
                        ),
                    ),
                    None => None,
                },
                None => None,
            },
            None => None,
        },
        None => None,
    }
}

/// Decodes one parameter tuple of the corresponding event kind.
fn decode_tuple_option_set(bytes: &[u8], pos: usize) -> (r: Option<(Option<RedrawEvent>, usize)>)
    ensures
        match spec_tuple(bytes@, pos as int, EventKind::OptionSet) {
            Some((ev, p)) => r matches Some((re, q)) && view_opt(re) == ev && q == p,
            None => r is None,
        },
        spec_tuple(bytes@, pos as int, EventKind::OptionSet) matches Some((ev, p)) ==> pos < p
            <= bytes@.len(),
{
    proof {
        msgpack::lemma_len_fits(bytes);
    }
    match ensure_parameters_count(bytes, pos, 2) {
        Some(p) => match msgpack::read_string(bytes, p) {
            Some((option, p1)) => {
                if str_eq_lit(&option, "ambiwidth") || str_eq_lit(&option, "guifontwide")
                    || str_eq_lit(&option, "guifont") || str_eq_lit(&option, "guifontset") {
                    match msgpack::read_string(bytes, p1) {
                        Some((value, q)) => Some(
                            (
                                Some(
                                    RedrawEvent::OptionSet(UiOption::Text { option, value }),
                                ),
                                q,
                            ),
                        ),
                        None => None,
                    }
                } else if str_eq_lit(&option, "pumblend") || str_eq_lit(&option, "showtabline")
                    || str_eq_lit(&option, "ttimeoutlen") || str_eq_lit(&option, "linespace") {
                    match msgpack::read_i64(bytes, p1) {
                        Some((value, q)) => Some(
                            (
                                Some(RedrawEvent::OptionSet(UiOption::Int { option, value })),
                                q,
                            ),
                        ),
                        None => None,
                    }
                } else if str_eq_lit(&option, "arabicshape") || str_eq_lit(
                    &option,
                    "termguicolors",
                ) || str_eq_lit(&option, "emoji") || str_eq_lit(&option, "mousefocus")
                    || str_eq_lit(&option, "ttimeout") || str_eq_lit(&option, "ext_linegrid")
                    || str_eq_lit(&option, "ext_multigrid") || str_eq_lit(
                    &option,
                    "ext_hlstate",
                ) || str_eq_lit(&option, "ext_termcolors") || str_eq_lit(
                    &option,
                    "ext_cmdline",
                ) || str_eq_lit(&option, "ext_popupmenu") || str_eq_lit(&option, "ext_tabline")
                    || str_eq_lit(&option, "ext_wildmenu") || str_eq_lit(
                    &option,
                    "ext_messages",
                ) {
                    match msgpack::read_bool(bytes, p1) {
                        Some((value, q)) => Some(
                            (
                                Some(
                                    RedrawEvent::OptionSet(UiOption::Toggle { option, value }),
                                ),
                                q,
                            ),
                        ),
                        None => None,
                    }
                } else {
                    None
                }
            },
            None => None,
        },
        None => None,
    }
}

/// Decodes one parameter tuple of the corresponding event kind.
fn decode_tuple_mode_change(bytes: &[u8], pos: usize) -> (r: Option<(Option<RedrawEvent>, usize)>)
    ensures
        match spec_tuple(bytes@, pos as int, EventKind::ModeChange) {
            Some((ev, p)) => r matches Some((re, q)) && view_opt(re) == ev && q == p,
            None => r is None,
        },
        spec_tuple(bytes@, pos as int, EventKind::ModeChange) matches Some((ev, p)) ==> pos < p
            <= bytes@.len(),
{
    proof {
        msgpack::lemma_len_fits(bytes);
    }
    match ensure_parameters_count(bytes, pos, 2) {
        Some(p) => match msgpack::read_string(bytes, p) {
            Some((name, p1)) => match msgpack::read_u64(bytes, p1) {
                Some((idx, q)) => Some((Some(RedrawEvent::ModeChange(idx)), q)),
                None => None,
            },
            None => None,
        },
        None => None,
    }
}

/// Decodes one parameter tuple of the corresponding event kind.
fn decode_tuple_mouse_on(bytes: &[u8], pos: usize) -> (r: Option<(Option<RedrawEvent>, usize)>)
    ensures
        match spec_tuple(bytes@, pos as int, EventKind::MouseOn) {
            Some((ev, p)) => r matches Some((re, q)) && view_opt(re) == ev && q == p,
            None => r is None,
        },
        spec_tuple(bytes@, pos as int, EventKind::MouseOn) matches Some((ev, p)) ==> pos < p
            <= bytes@.len(),
{
    proof {
        msgpack::lemma_len_fits(bytes);
    }
    match ensure_parameters_count(bytes, pos, 0) {
        Some(q) => Some((Some(RedrawEvent::Mouse(true)), q)),
        None => None,
    }
}

/// Decodes one parameter tuple of the corresponding event kind.
fn decode_tuple_mouse_off(bytes: &[u8], pos: usize) -> (r: Option<(Option<RedrawEvent>, usize)>)
    ensures
        match spec_tuple(bytes@, pos as int, EventKind::MouseOff) {
            Some((ev, p)) => r matches Some((re, q)) && view_opt(re) == ev && q == p,
            None => r is None,
        },
        spec_tuple(bytes@, pos as int, EventKind::MouseOff) matches Some((ev, p)) ==> pos < p
            <= bytes@.len(),
{
    proof {
        msgpack::lemma_len_fits(bytes);
    }
    match ensure_parameters_count(bytes, pos, 0) {
        Some(q) => Some((Some(RedrawEvent::Mouse(false)), q)),
        None => None,
    }
}

/// Decodes one parameter tuple of the corresponding event kind.
fn decode_tuple_busy_start(bytes: &[u8], pos: usize) -> (r: Option<(Option<RedrawEvent>, usize)>)
    ensures
        match spec_tuple(bytes@, pos as int, EventKind::BusyStart) {
            Some((ev, p)) => r matches Some((re, q)) && view_opt(re) == ev && q == p,
            None => r is None,
        },
        spec_tuple(bytes@, pos as int, EventKind::BusyStart) matches Some((ev, p)) ==> pos < p
            <= bytes@.len(),
{
    proof {
        msgpack::lemma_len_fits(bytes);
    }
    match ensure_parameters_count(bytes, pos, 0) {
        Some(q) => Some((Some(RedrawEvent::Busy(true)), q)),
        None => None,
    }
}

/// Decodes one parameter tuple of the corresponding event kind.
fn decode_tuple_busy_stop(bytes: &[u8], pos: usize) -> (r: Option<(Option<RedrawEvent>, usize)>)
    ensures
        match spec_tuple(bytes@, pos as int, EventKind::BusyStop) {
            Some((ev, p)) => r matches Some((re, q)) && view_opt(re) == ev && q == p,
            None => r is None,
        },
        spec_tuple(bytes@, pos as int, EventKind::BusyStop) matches Some((ev, p)) ==> pos < p
            <= bytes@.len(),
{
    proof {
        msgpack::lemma_len_fits(bytes);
    }
    match ensure_parameters_count(bytes, pos, 0) {
        Some(q) => Some((Some(RedrawEvent::Busy(false)), q)),
        None => None,
    }
}

/// Decodes one parameter tuple of the corresponding event kind.
fn decode_tuple_flush(bytes: &[u8], pos: usize) -> (r: Option<(Option<RedrawEvent>, usize)>)
    ensures
        match spec_tuple(bytes@, pos as int, EventKind::Flush) {
            Some((ev, p)) => r matches Some((re, q)) && view_opt(re) == ev && q == p,
            None => r is None,
        },
        spec_tuple(bytes@, pos as int, EventKind::Flush) matches Some((ev, p)) ==> pos < p
            <= bytes@.len(),
{
    proof {
        msgpack::lemma_len_fits(bytes);
    }
    match ensure_parameters_count(bytes, pos, 0) {
        Some(q) => Some((Some(RedrawEvent::Flush), q)),
        None => None,
    }
}

/// Decodes one parameter tuple of the corresponding event kind.
fn decode_tuple_ignored(bytes: &[u8], pos: usize) -> (r: Option<(Option<RedrawEvent>, usize)>)
    ensures
        match spec_tuple(bytes@, pos as int, EventKind::Ignored) {
            Some((ev, p)) => r matches Some((re, q)) && view_opt(re) == ev && q == p,
            None => r is None,
        },
        spec_tuple(bytes@, pos as int, EventKind::Ignored) matches Some((ev, p)) ==> pos < p
            <= bytes@.len(),
{
    proof {
        msgpack::lemma_len_fits(bytes);
    }
    match ensure_parameters_count(bytes, pos, 0) {
        Some(q) => Some((None, q)),
        None => None,
    }
}

/// Decodes one parameter tuple of the corresponding event kind.
fn decode_tuple_grid_resize(bytes: &[u8], pos: usize) -> (r: Option<(Option<RedrawEvent>, usize)>)
    ensures
        match spec_tuple(bytes@, pos as int, EventKind::GridResize) {
            Some((ev, p)) => r matches Some((re, q)) && view_opt(re) == ev && q == p,
            None => r is None,
        },
        spec_tuple(bytes@, pos as int, EventKind::GridResize) matches Some((ev, p)) ==> pos < p
            <= bytes@.len(),
{
    proof {
        msgpack::lemma_len_fits(bytes);
    }
    match ensure_parameters_count(bytes, pos, 3) {
        Some(p) => match msgpack::read_u64(bytes, p) {
            Some((grid, p1)) => match msgpack::read_u64(bytes, p1) {
                Some((width, p2)) => match msgpack::read_u64(bytes, p2) {
                    Some((height, q)) => Some(
                        (Some(RedrawEvent::GridResize { grid, width, height }), q),
                    ),
                    None => None,
                },
                None => None,
            },
            None => None,
        },
        None => None,
    }
}

/// Decodes one parameter tuple of the corresponding event kind.
fn decode_tuple_default_colors_set(bytes: &[u8], pos: usize) -> (r: Option<(Option<RedrawEvent>, usize)>)
    ensures
        match spec_tuple(bytes@, pos as int, EventKind::DefaultColorsSet) {
            Some((ev, p)) => r matches Some((re, q)) && view_opt(re) == ev && q == p,
            None => r is None,
        },
        spec_tuple(bytes@, pos as int, EventKind::DefaultColorsSet) matches Some((ev, p)) ==> pos < p
            <= bytes@.len(),
{
    proof {
        msgpack::lemma_len_fits(bytes);
    }
    match ensure_parameters_count(bytes, pos, 5) {
        Some(p) => match read_color(bytes, p) {
            Some((foreground, p1)) => match read_color(bytes, p1) {
                Some((background, p2)) => match read_color(bytes, p2) {
                    Some((special, p3)) => match msgpack::read_u64(bytes, p3) {
                        Some((c1, p4)) => match msgpack::read_u64(bytes, p4) {
                            Some((c2, q)) => Some(
                                (
                                    Some(
                                        RedrawEvent::DefaultColorsSet(
                                            DefaultColorSet { foreground, background, special },
                                        ),
                                    ),
                                    q,
                                ),
                            ),
                            None => None,
                        },
                        None => None,
                    },
                    None => None,
                },
                None => None,
            },
            None => None,
        },
        None => None,
    }
}

/// Decodes one parameter tuple of the corresponding event kind.
fn decode_tuple_hl_attr_define(bytes: &[u8], pos: usize) -> (r: Option<(Option<RedrawEvent>, usize)>)
    ensures
        match spec_tuple(bytes@, pos as int, EventKind::HlAttrDefine) {
            Some((ev, p)) => r matches Some((re, q)) && view_opt(re) == ev && q == p,
            None => r is None,
        },
        spec_tuple(bytes@, pos as int, EventKind::HlAttrDefine) matches Some((ev, p)) ==> pos < p
            <= bytes@.len(),
{
    proof {
        msgpack::lemma_len_fits(bytes);
    }
    match ensure_parameters_count(bytes, pos, 4) {
        Some(p) => match msgpack::read_u64(bytes, p) {
            Some((id, p1)) => match decode_rgb_map(bytes, p1) {
                Some((rgb_attr, p2)) => match decode_rgb_map(bytes, p2) {
                    Some((cterm, p3)) => match ensure_parameters_count(bytes, p3, 0) {
                        Some(q) => Some(
                            (
                                Some(
                                    RedrawEvent::HlAttrDefine(HighlightAttr { id, rgb_attr }),
                                ),
                                q,
                            ),
                        ),
                        None => None,
                    },
                    None => None,
                },
                None => None,
            },
            None => None,
        },
        None => None,
    }
}

/// Decodes one parameter tuple of the corresponding event kind.
fn decode_tuple_hl_group_set(bytes: &[u8], pos: usize) -> (r: Option<(Option<RedrawEvent>, usize)>)
    ensures
        match spec_tuple(bytes@, pos as int, EventKind::HlGroupSet) {
            Some((ev, p)) => r matches Some((re, q)) && view_opt(re) == ev && q == p,
            None => r is None,
        },
        spec_tuple(bytes@, pos as int, EventKind::HlGroupSet) matches Some((ev, p)) ==> pos < p
            <= bytes@.len(),
{
    proof {
        msgpack::lemma_len_fits(bytes);
    }
    match ensure_parameters_count(bytes, pos, 2) {
        Some(p) => match msgpack::read_string(bytes, p) {
            Some((name, p1)) => match msgpack::read_u64(bytes, p1) {
                Some((hl_id, q)) => Some((Some(RedrawEvent::HlGroupSet { name, hl_id }), q)),
                None => None,
            },
            None => None,
        },
        None => None,
    }
}

/// Decodes one parameter tuple of the corresponding event kind.
fn decode_tuple_grid_line(bytes: &[u8], pos: usize) -> (r: Option<(Option<RedrawEvent>, usize)>)
    ensures
        match spec_tuple(bytes@, pos as int, EventKind::GridLine) {
            Some((ev, p)) => r matches Some((re, q)) && view_opt(re) == ev && q == p,
            None => r is None,
        },
        spec_tuple(bytes@, pos as int, EventKind::GridLine) matches Some((ev, p)) ==> pos < p
            <= bytes@.len(),
{
    proof {
        msgpack::lemma_len_fits(bytes);
    }
    match ensure_parameters_count(bytes, pos, 4) {
        Some(p) => match msgpack::read_u64(bytes, p) {
            Some((grid, p1)) => match msgpack::read_u64(bytes, p1) {
                Some((row, p2)) => match msgpack::read_u64(bytes, p2) {
                    Some((col_start, p3)) => match msgpack::read_array_len(bytes, p3) {
                        Some((n, p4)) => match decode_cells(bytes, p4, n, None) {
                            Some((cells, q)) => Some(
                                (
                                    Some(
                                        RedrawEvent::GridLine(
                                            GridLine { grid, row, col_start, cells },
                                        ),
                                    ),
                                    q,
                                ),
                            ),
                            None => None,
                        },
                        None => None,
                    },
                    None => None,
                },
                None => None,
            },
            None => None,
        },
        None => None,
    }
}

/// Decodes one parameter tuple of the corresponding event kind.
fn decode_tuple_grid_clear(bytes: &[u8], pos: usize) -> (r: Option<(Option<RedrawEvent>, usize)>)
    ensures
        match spec_tuple(bytes@, pos as int, EventKind::GridClear) {
            Some((ev, p)) => r matches Some((re, q)) && view_opt(re) == ev && q == p,
            None => r is None,
        },
        spec_tuple(bytes@, pos as int, EventKind::GridClear) matches Some((ev, p)) ==> pos < p
            <= bytes@.len(),
{
    proof {
        msgpack::lemma_len_fits(bytes);
    }
    match ensure_parameters_count(bytes, pos, 1) {
        Some(p) => match msgpack::read_u64(bytes, p) {
            Some((grid, q)) => Some((Some(RedrawEvent::GridClear(grid)), q)),
            None => None,
        },
        None => None,
    }
}

/// Decodes one parameter tuple of the corresponding event kind.
fn decode_tuple_grid_destroy(bytes: &[u8], pos: usize) -> (r: Option<(Option<RedrawEvent>, usize)>)
    ensures
        match spec_tuple(bytes@, pos as int, EventKind::GridDestroy) {
            Some((ev, p)) => r matches Some((re, q)) && view_opt(re) == ev && q == p,
            None => r is None,
        },
        spec_tuple(bytes@, pos as int, EventKind::GridDestroy) matches Some((ev, p)) ==> pos < p
            <= bytes@.len(),
{
    proof {
        msgpack::lemma_len_fits(bytes);
    }
    match ensure_parameters_count(bytes, pos, 1) {
        Some(p) => match msgpack::read_u64(bytes, p) {
            Some((grid, q)) => Some((Some(RedrawEvent::GridDestroy(grid)), q)),
            None => None,
        },
        None => None,
    }
}

/// Decodes one parameter tuple of the corresponding event kind.
fn decode_tuple_grid_cursor_goto(bytes: &[u8], pos: usize) -> (r: Option<(Option<RedrawEvent>, usize)>)
    ensures
        match spec_tuple(bytes@, pos as int, EventKind::GridCursorGoto) {
            Some((ev, p)) => r matches Some((re, q)) && view_opt(re) == ev && q == p,
            None => r is None,
        },
        spec_tuple(bytes@, pos as int, EventKind::GridCursorGoto) matches Some((ev, p)) ==> pos < p
            <= bytes@.len(),
{
    proof {
        msgpack::lemma_len_fits(bytes);
    }
    match ensure_parameters_count(bytes, pos, 3) {
        Some(p) => match msgpack::read_u64(bytes, p) {
            Some((grid, p1)) => match msgpack::read_u64(bytes, p1) {
                Some((row, p2)) => match msgpack::read_u64(bytes, p2) {
                    Some((column, q)) => Some(
                        (Some(RedrawEvent::GridCursorGoto(GridGoto { grid, row, column })), q),
                    ),
                    None => None,
                },
                None => None,
            },
            None => None,
        },
        None => None,
    }
}

/// Decodes one parameter tuple of the corresponding event kind.
fn decode_tuple_grid_scroll(bytes: &[u8], pos: usize) -> (r: Option<(Option<RedrawEvent>, usize)>)
    ensures
        match spec_tuple(bytes@, pos as int, EventKind::GridScroll) {
            Some((ev, p)) => r matches Some((re, q)) && view_opt(re) == ev && q == p,
            None => r is None,
        },
        spec_tuple(bytes@, pos as int, EventKind::GridScroll) matches Some((ev, p)) ==> pos < p
            <= bytes@.len(),
{
    proof {
        msgpack::lemma_len_fits(bytes);
    }
    match ensure_parameters_count(bytes, pos, 7) {
        Some(p) => match msgpack::read_u64(bytes, p) {
            Some((grid, p1)) => match msgpack::read_u64(bytes, p1) {
                Some((top, p2)) => match msgpack::read_u64(bytes, p2) {
                    Some((bottom, p3)) => match msgpack::read_u64(bytes, p3) {
                        Some((left, p4)) => match msgpack::read_u64(bytes, p4) {
                            Some((right, p5)) => match msgpack::read_i64(bytes, p5) {
                                Some((rows, p6)) => match msgpack::read_u64(bytes, p6) {
                                    Some((cols, q)) => Some(
                                        (
                                            Some(
                                                RedrawEvent::GridScroll(
                                                    GridScroll {
                                                        grid,
                                                        top,
                                                        bottom,
                                                        left,
                                                        right,
                                                        rows,
                                                    },
                                                ),
                                            ),
                                            q,
                                        ),
                                    ),
                                    None => None,
                                },
                                None => None,
                            },
                            None => None,
                        },
                        None => None,
                    },
                    None => None,
                },
                None => None,
            },
            None => None,
        },
        None => None,
    }
}

/// Decodes one parameter tuple of the event kind `kind`.
fn decode_tuple(bytes: &[u8], pos: usize, kind: EventKind) -> (r: Option<
    (Option<RedrawEvent>, usize),
>)
    ensures
        match spec_tuple(bytes@, pos as int, kind) {
            Some((ev, p)) => r matches Some((re, q)) && view_opt(re) == ev && q == p,
            None => r is None,
        },
        spec_tuple(bytes@, pos as int, kind) matches Some((ev, p)) ==> pos < p <= bytes@.len(),
{
    match kind {
        EventKind::SetTitle => decode_tuple_set_title(bytes, pos),
        EventKind::SetIcon => decode_tuple_set_icon(bytes, pos),
        EventKind::ModeInfoSet => decode_tuple_mode_info_set(bytes, pos),
        EventKind::OptionSet => decode_tuple_option_set(bytes, pos),
        EventKind::ModeChange => decode_tuple_mode_change(bytes, pos),
        EventKind::MouseOn => decode_tuple_mouse_on(bytes, pos),
        EventKind::MouseOff => decode_tuple_mouse_off(bytes, pos),
        EventKind::BusyStart => decode_tuple_busy_start(bytes, pos),
        EventKind::BusyStop => decode_tuple_busy_stop(bytes, pos),
        EventKind::Flush => decode_tuple_flush(bytes, pos),
        EventKind::Ignored => decode_tuple_ignored(bytes, pos),
        EventKind::GridResize => decode_tuple_grid_resize(bytes, pos),
        EventKind::DefaultColorsSet => decode_tuple_default_colors_set(bytes, pos),
        EventKind::HlAttrDefine => decode_tuple_hl_attr_define(bytes, pos),
        EventKind::HlGroupSet => decode_tuple_hl_group_set(bytes, pos),
        EventKind::GridLine => decode_tuple_grid_line(bytes, pos),
        EventKind::GridClear => decode_tuple_grid_clear(bytes, pos),
        EventKind::GridDestroy => decode_tuple_grid_destroy(bytes, pos),
        EventKind::GridCursorGoto => decode_tuple_grid_cursor_goto(bytes, pos),
        EventKind::GridScroll => decode_tuple_grid_scroll(bytes, pos),
    }
}

/// Decodes `n` consecutive parameter tuples of one event kind.
fn decode_events(bytes: &[u8], pos: usize, kind: EventKind, n: usize) -> (r: Option<
    (Vec<RedrawEvent>, usize),
>)
    requires
        pos <= bytes@.len(),
    ensures
        match spec_events(bytes@, pos as int, kind, n as nat) {
            Some((evs, p)) => r matches Some((v, q)) && v@.map_values(|e: RedrawEvent| e@) == evs
                && q == p,
            None => r is None,
        },
        spec_events(bytes@, pos as int, kind, n as nat) matches Some((evs, p)) ==> pos <= p
            <= bytes@.len(),
    decreases n,
{
    proof {
        msgpack::lemma_len_fits(bytes);
    }
    if n == 0 {
        let v: Vec<RedrawEvent> = Vec::new();
        proof {
            assert(v@.map_values(|e: RedrawEvent| e@) =~= Seq::<RedrawEventV>::empty());
        }
        return Some((v, pos));
    }
    match decode_tuple(bytes, pos, kind) {
        Some((ev, p)) => match decode_events(bytes, p, kind, n - 1) {
            Some((mut rest, q)) => {
                let mut v: Vec<RedrawEvent> = Vec::new();
                match ev {
                    Some(e) => {
                        v.push(e);
                    },
                    None => {},
                }
                v.append(&mut rest);
                proof {
                    let (evs, pp) = spec_events(bytes@, pos as int, kind, n as nat).unwrap();
                    assert(v@.map_values(|e: RedrawEvent| e@) =~= evs);
                }
                Some((v, q))
            },
            None => None,
        },
        None => None,
    }
}

/// Decodes one event batch: a name, then its parameter tuples. A batch with
/// an unrecognized name is skipped whole and yields no event.
fn decode_single(bytes: &[u8], pos: usize) -> (r: Option<(Vec<RedrawEvent>, usize)>)
    ensures
        match spec_decode_single(bytes@, pos as int) {
            Some((evs, p)) => r matches Some((v, q)) && v@.map_values(|e: RedrawEvent| e@) == evs
                && q == p,
            None => r is None,
        },
        spec_decode_single(bytes@, pos as int) matches Some((evs, p)) ==> pos < p <= bytes@.len(),
{
    proof {
        msgpack::lemma_len_fits(bytes);
    }
    match msgpack::read_array_len(bytes, pos) {
        Some((l, p0)) => {
            if l >= 1 {
                match msgpack::read_string(bytes, p0) {
                    Some((name, p1)) => match kind_of(&name) {
                        Some(kind) => decode_events(bytes, p1, kind, l - 1),
                        None => match msgpack::skip_n(bytes, p1, l - 1, bytes.len()) {
                            Some(q) => {
                                let v: Vec<RedrawEvent> = Vec::new();
                                proof {
                                    assert(v@.map_values(|e: RedrawEvent| e@)
                                        =~= Seq::<RedrawEventV>::empty());
                                }
                                Some((v, q))
                            },
                            None => None,
                        },
                    },
                    None => None,
                }
            } else {
                None
            }
        },
        None => None,
    }
}

/// Decodes `n` consecutive event batches.
fn decode_batches(bytes: &[u8], pos: usize, n: usize) -> (r: Option<(Vec<RedrawEvent>, usize)>)
    requires
        pos <= bytes@.len(),
    ensures
        match spec_batches(bytes@, pos as int, n as nat) {
            Some((evs, p)) => r matches Some((v, q)) && v@.map_values(|e: RedrawEvent| e@) == evs
                && q == p,
            None => r is None,
        },
        spec_batches(bytes@, pos as int, n as nat) matches Some((evs, p)) ==> pos <= p
            <= bytes@.len(),
    decreases n,
{
    proof {
        msgpack::lemma_len_fits(bytes);
    }
    if n == 0 {
        let v: Vec<RedrawEvent> = Vec::new();
        proof {
            assert(v@.map_values(|e: RedrawEvent| e@) =~= Seq::<RedrawEventV>::empty());
        }
        return Some((v, pos));
    }
    match decode_single(bytes, pos) {
        Some((mut evs, p)) => match decode_batches(bytes, p, n - 1) {
            Some((mut rest, q)) => {
                evs.append(&mut rest);
                proof {
                    let (all, pp) = spec_batches(bytes@, pos as int, n as nat).unwrap();
                    assert(evs@.map_values(|e: RedrawEvent| e@) =~= all);
                }
                Some((evs, q))
            },
            None => None,
        },
        None => None,
    }
}

/// Decodes the payload of one redraw notification: an array of event batches,
/// their events in order.
pub fn decode_batch(bytes: &[u8], pos: usize) -> (r: Option<(Vec<RedrawEvent>, usize)>)
    ensures
        match spec_decode_batch(bytes@, pos as int) {
            Some((evs, p)) => r matches Some((v, q)) && v@.map_values(|e: RedrawEvent| e@) == evs
                && q == p,
            None => r is None,
        },
        spec_decode_batch(bytes@, pos as int) matches Some((evs, p)) ==> pos < p <= bytes@.len(),
{
    proof {
        msgpack::lemma_len_fits(bytes);
    }
    match msgpack::read_array_len(bytes, pos) {
        Some((n, p)) => decode_batches(bytes, p, n),
        None => None,
    }
}

/// Decodes one RPC frame: `Some((Some(events), p))` for a redraw
/// notification, `Some((None, p))` for other traffic, `None` for a malformed
/// frame.
pub fn decode_message(bytes: &[u8], pos: usize) -> (r: Option<
    (Option<Vec<RedrawEvent>>, usize),
>)
    ensures
        match spec_decode_message(bytes@, pos as int) {
            Some((Some(evs), p)) => r matches Some((Some(v), q)) && v@.map_values(
                |e: RedrawEvent| e@,
            ) == evs && q == p,
            Some((None, p)) => r == Some((None::<Vec<RedrawEvent>>, p as usize)),
            None => r is None,
        },
        spec_decode_message(bytes@, pos as int) matches Some((evs, p)) ==> pos < p
            <= bytes@.len(),
{
    proof {
        msgpack::lemma_len_fits(bytes);
    }
    match msgpack::read_array_len(bytes, pos) {
        Some((frame_len, p0)) => match msgpack::read_u64(bytes, p0) {
            Some((msg_kind, p1)) => {
                if msg_kind == 0 || msg_kind == 1 {
                    Some((None, p1))
                } else if msg_kind == 2 {
                    match msgpack::read_string(bytes, p1) {
                        Some((method, p2)) => {
                            if str_eq_lit(&method, "redraw") {
                                match decode_batch(bytes, p2) {
                                    Some((evs, q)) => Some((Some(evs), q)),
                                    None => None,
                                }
                            } else {
                                Some((None, p2))
                            }
                        },
                        None => None,
                    }
                } else {
                    None
                }
            },
            None => None,
        },
        None => None,
    }
}

/// Decodes every frame of one read, front to back, and reports how decoding
/// ended. The events of earlier frames are returned even when a later frame
/// interrupts or fails: the caller applies them in order, exactly as they
/// were received.
pub fn decode_read(bytes: &[u8]) -> (r: (Vec<RedrawEvent>, ReadStatus))
    ensures
        r.0@.map_values(|e: RedrawEvent| e@) == spec_read_frames(bytes@, 0).0,
        r.1 == spec_read_frames(bytes@, 0).1,
{
    proof {
        msgpack::lemma_len_fits(bytes);
    }
    let mut acc: Vec<RedrawEvent> = Vec::new();
    let mut pos: usize = 0;
    proof {
        assert(acc@.map_values(|e: RedrawEvent| e@) =~= Seq::<RedrawEventV>::empty());
    }
    loop
        invariant
            pos <= bytes@.len() <= usize::MAX,
            spec_read_frames(bytes@, 0).0 == acc@.map_values(|e: RedrawEvent| e@)
                + spec_read_frames(bytes@, pos as int).0,
            spec_read_frames(bytes@, 0).1 == spec_read_frames(bytes@, pos as int).1,
        decreases bytes@.len() - pos,
    {
        if pos >= bytes.len() {
            proof {
                assert(spec_read_frames(bytes@, 0).0 =~= acc@.map_values(|e: RedrawEvent| e@));
            }
            return (acc, ReadStatus::Complete);
        }
        match decode_message(bytes, pos) {
            Some((Some(mut evs), p)) => {
                let ghost acc_old = acc@;
                let ghost evs_v = evs@;
                let ghost prev = pos as int;
                acc.append(&mut evs);
                proof {
                    assert(acc@.map_values(|e: RedrawEvent| e@) =~= acc_old.map_values(
                        |e: RedrawEvent| e@,
                    ) + evs_v.map_values(|e: RedrawEvent| e@));
                    assert(spec_read_frames(bytes@, prev).0 == evs_v.map_values(
                        |e: RedrawEvent| e@,
                    ) + spec_read_frames(bytes@, p as int).0);
                    assert(spec_read_frames(bytes@, 0).0 =~= acc@.map_values(|e: RedrawEvent| e@)
                        + spec_read_frames(bytes@, p as int).0);
                }
                pos = p;
            },
            Some((None, p)) => {
                proof {
                    assert(spec_read_frames(bytes@, 0).0 =~= acc@.map_values(
                        |e: RedrawEvent| e@,
                    ));
                }
                return (acc, ReadStatus::Interrupted);
            },
            None => {
                proof {
                    assert(spec_read_frames(bytes@, 0).0 =~= acc@.map_values(
                        |e: RedrawEvent| e@,
                    ));
                }
                return (acc, ReadStatus::Failed);
            },
        }
    }
}


/// Every one of the `n` cell tuples at `pos` omits its highlight id: each
/// is a one-element tuple holding only its text.
pub open spec fn cells_omit_id(bytes: Seq<u8>, pos: int, n: nat) -> bool
    decreases n,
{
    n == 0 || (match msgpack::spec_read_array_len(bytes, pos) {
        Some((t, p1)) => t == 1 && (match msgpack::spec_read_str(bytes, p1) {
            Some((text, p2)) => cells_omit_id(bytes, p2, (n - 1) as nat),
            None => true,
        }),
        None => true,
    })
}

/// Cells decoded under a carried id, all of whose tuples omit their own id,
/// all carry that id.
pub proof fn lemma_carry_forward_rest(bytes: Seq<u8>, pos: int, n: nat, h: u64)
    requires
        spec_cells(bytes, pos, n, Some(h)) is Some,
        cells_omit_id(bytes, pos, n),
    ensures
        ({
            let (cells, p) = spec_cells(bytes, pos, n, Some(h)).unwrap();
            forall|i: int| 0 <= i < cells.len() ==> (#[trigger] cells[i]).hl_id == h
        }),
    decreases n,
{
    if n > 0 {
        match msgpack::spec_read_array_len(bytes, pos) {
            Some((t, p1)) => {
                match msgpack::spec_read_str(bytes, p1) {
                    Some((text, p2)) => {
                        lemma_carry_forward_rest(bytes, p2, (n - 1) as nat, h);
                        let (cells, p) = spec_cells(bytes, pos, n, Some(h)).unwrap();
                        let (rest, q) = spec_cells(bytes, p2, (n - 1) as nat, Some(h)).unwrap();
                        assert(cells == seq![GridCellV { text, hl_id: h, repeated: 1 }] + rest);
                        assert forall|i: int| 0 <= i < cells.len() implies (#[trigger] cells[i]).hl_id
                            == h by {
                            if i > 0 {
                                assert(cells[i] == rest[i - 1]);
                            }
                        }
                    },
                    None => {},
                }
            },
            None => {},
        }
    }
}

/// Carry-forward decoding: in a line whose first cell tuple alone carries a
/// highlight id, every decoded cell shares that one id. Decoding under no
/// carried id succeeds only when the first tuple carries its own id, and
/// each later tuple that omits its id takes the last one seen.
pub proof fn lemma_carry_forward(bytes: Seq<u8>, pos: int, n: nat)
    requires
        n > 0,
        spec_cells(bytes, pos, n, None) is Some,
        ({
            // Every tuple after the first omits its id.
            match msgpack::spec_read_array_len(bytes, pos) {
                Some((t, p1)) => match msgpack::spec_read_str(bytes, p1) {
                    Some((text, p2)) => {
                        let after: int = if t == 2 {
                            match msgpack::spec_read_u64(bytes, p2) {
                                Some((hl, p3)) => p3,
                                None => p2,
                            }
                        } else {
                            match msgpack::spec_read_u64(bytes, p2) {
                                Some((hl, p3)) => match msgpack::spec_read_u64(bytes, p3) {
                                    Some((rep, p4)) => p4,
                                    None => p3,
                                },
                                None => p2,
                            }
                        };
                        cells_omit_id(bytes, after, (n - 1) as nat)
                    },
                    None => true,
                },
                None => true,
            }
        }),
    ensures
        ({
            let (cells, p) = spec_cells(bytes, pos, n, None).unwrap();
            &&& cells.len() > 0
            &&& forall|i: int| 0 <= i < cells.len() ==> (#[trigger] cells[i]).hl_id == cells[
                0
            ].hl_id
        }),
{
    let (cells, p) = spec_cells(bytes, pos, n, None).unwrap();
    match msgpack::spec_read_array_len(bytes, pos) {
        Some((t, p1)) => {
            // A first tuple of one element would leave no id to carry:
            // decoding would have failed, so the first tuple carries one.
            assert(t != 1);
            match msgpack::spec_read_str(bytes, p1) {
                Some((text, p2)) => {
                    match msgpack::spec_read_u64(bytes, p2) {
                        Some((h, p3)) => {
                            if t == 2 {
                                lemma_carry_forward_rest(bytes, p3, (n - 1) as nat, h);
                                let (rest, q) = spec_cells(
                                    bytes,
                                    p3,
                                    (n - 1) as nat,
                                    Some(h),
                                ).unwrap();
                                assert(cells == seq![
                                    GridCellV { text, hl_id: h, repeated: 1 },
                                ] + rest);
                                assert forall|i: int| 0 <= i < cells.len() implies (
                                #[trigger] cells[i]).hl_id == cells[0].hl_id by {
                                    if i > 0 {
                                        assert(cells[i] == rest[i - 1]);
                                    }
                                }
                            } else {
                                match msgpack::spec_read_u64(bytes, p3) {
                                    Some((rep, p4)) => {
                                        lemma_carry_forward_rest(bytes, p4, (n - 1) as nat, h);
                                        let (rest, q) = spec_cells(
                                            bytes,
                                            p4,
                                            (n - 1) as nat,
                                            Some(h),
                                        ).unwrap();
                                        assert(cells == seq![
                                            GridCellV { text, hl_id: h, repeated: rep },
                                        ] + rest);
                                        assert forall|i: int| 0 <= i < cells.len() implies (
                                        #[trigger] cells[i]).hl_id == cells[0].hl_id by {
                                            if i > 0 {
                                                assert(cells[i] == rest[i - 1]);
                                            }
                                        }
                                    },
                                    None => {},
                                }
                            }
                        },
                        None => {},
                    }
                },
                None => {},
            }
        },
        None => {},
    }
}


} // verus!
