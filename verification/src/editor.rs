//! The orchestrator: routes decoded redraw events to the grid, the mode
//! table and the option state, queues the events the presentation side must
//! see, and publishes a rendered snapshot through the triple buffer on each
//! flush.

use crate::api;
use crate::api::UiOptions;
use crate::buffer::{back_dirty, back_idx, new_triple_buffer, tb_wf, TripleBuffer, TripleBufferV};
use crate::events::{
    DefaultColorSet, GridGoto, GridLine, GridScroll, HighlightAttr, ModeInfo, RedrawEvent,
    UiOption,
};
use crate::cursor::Cursor;
use crate::lines::{
    expand_len, render_rel, spec_cleared, spec_line_applied, spec_resized, spec_scrolled, wf,
    Lines, LinesV,
};
use vstd::prelude::*;
use vstd::string::{StrSliceExecFns, StringExecFns};

verus! {

broadcast use vstd::slice::axiom_spec_len;

/// One font the gui font option names: a family and a point size.
#[derive(Debug)]
pub struct FontCandidate {
    /// The family name, as written in the option.
    pub family: String,
    /// The requested size.
    pub size: u8,
}

/// Spec-level value of a [`FontCandidate`].
pub struct FontCandidateV {
    pub family: Seq<char>,
    pub size: u8,
}

impl View for FontCandidate {
    type V = FontCandidateV;

    open spec fn view(&self) -> FontCandidateV {
        FontCandidateV { family: self.family@, size: self.size }
    }
}

/// The size a font entry falls back to when its size field does not parse.
pub const DEFAULT_FONT_SIZE: u8 = 12;

/// The first position at or after `from` holding `c`, or the end.
pub open spec fn spec_find_char(s: Seq<char>, c: char, from: int) -> int
    decreases s.len() - from,
    when 0 <= from <= s.len()
{
    if from >= s.len() {
        s.len() as int
    } else if s[from] == c {
        from
    } else {
        spec_find_char(s, c, from + 1)
    }
}

/// The first position at or after `from` where the size marker, a colon
/// followed by the letter h, starts; or the end.
pub open spec fn spec_find_size_marker(s: Seq<char>, from: int) -> int
    decreases s.len() - from,
    when 0 <= from <= s.len()
{
    if from >= s.len() {
        s.len() as int
    } else if s[from] == ':' && from + 1 < s.len() && s[from + 1] == 'h' {
        from
    } else {
        spec_find_size_marker(s, from + 1)
    }
}

/// The value of the decimal digits of `s`, accumulated onto `acc`; `None`
/// when a non-digit appears.
pub open spec fn spec_digits(s: Seq<char>, acc: int) -> Option<int>
    decreases s.len(),
{
    if s.len() == 0 {
        Some(acc)
    } else if '0' <= s[0] <= '9' {
        spec_digits(s.drop_first(), acc * 10 + (s[0] as int - '0' as int))
    } else {
        None
    }
}

/// The number an unsigned decimal string denotes: an optional leading plus
/// sign, then one or more digits, in range for a `u8`.
pub open spec fn spec_parse_u8(s: Seq<char>) -> Option<u8> {
    let body = if s.len() > 0 && s[0] == '+' {
        s.drop_first()
    } else {
        s
    };
    if body.len() == 0 {
        None
    } else {
        match spec_digits(body, 0) {
            Some(v) => if v <= 255 {
                Some(v as u8)
            } else {
                None
            },
            None => None,
        }
    }
}

/// The font one comma-separated entry names: the text before the size
/// marker and the size after it, falling back to [`DEFAULT_FONT_SIZE`] when
/// the size does not parse. An entry without a size marker names no font.
pub open spec fn spec_font_of(seg: Seq<char>) -> Option<FontCandidateV> {
    let h = spec_find_size_marker(seg, 0);
    if h == seg.len() {
        None
    } else {
        let size = match spec_parse_u8(seg.subrange(h + 2, seg.len() as int)) {
            Some(v) => v,
            None => DEFAULT_FONT_SIZE,
        };
        Some(FontCandidateV { family: seg.subrange(0, h), size })
    }
}

/// The fonts a gui font option value names, in order: its comma-separated
/// entries that carry a size marker.
pub open spec fn spec_parse_guifont(s: Seq<char>, from: int) -> Seq<FontCandidateV>
    decreases s.len() - from,
    when 0 <= from <= s.len()
    via spec_parse_guifont_dec
{
    let c = spec_find_char(s, ',', from);
    let seg = s.subrange(from, c);
    let rest: Seq<FontCandidateV> = if c == s.len() {
        Seq::empty()
    } else {
        spec_parse_guifont(s, c + 1)
    };
    match spec_font_of(seg) {
        Some(f) => seq![f] + rest,
        None => rest,
    }
}

#[via_fn]
proof fn spec_parse_guifont_dec(s: Seq<char>, from: int) {
    if 0 <= from <= s.len() {
        lemma_find_char_range(s, ',', from);
    }
}

/// The position at or after `from` where `spec_find_char` stops lies between
/// `from` and the end.
pub proof fn lemma_find_char_range(s: Seq<char>, c: char, from: int)
    requires
        0 <= from <= s.len(),
    ensures
        from <= spec_find_char(s, c, from) <= s.len(),
    decreases s.len() - from,
{
    if from < s.len() && s[from] != c {
        lemma_find_char_range(s, c, from + 1);
    }
}

/// The characters of a string, in order.
fn str_chars(s: &str) -> (r: Vec<char>)
    ensures
        r@ == s@,
{
    let n = s.unicode_len();
    let mut r: Vec<char> = Vec::new();
    let mut i: usize = 0;
    while i < n
        invariant
            i <= n == s@.len(),
            r@ == s@.take(i as int),
        decreases n - i,
    {
        let ch = s.get_char(i);
        r.push(ch);
        proof {
            assert(r@ =~= s@.take(i + 1));
        }
        i = i + 1;
    }
    proof {
        assert(s@.take(n as int) =~= s@);
    }
    r
}

/// Finds the first `c` at or after `from`.
fn find_char(s: &Vec<char>, c: char, from: usize) -> (r: usize)
    requires
        from <= s@.len(),
    ensures
        r == spec_find_char(s@, c, from as int),
        from <= r <= s@.len(),
    decreases s@.len() - from,
{
    if from >= s.len() {
        s.len()
    } else if s[from] == c {
        from
    } else {
        find_char(s, c, from + 1)
    }
}

/// Accumulated digit values only grow.
proof fn lemma_digits_grow(s: Seq<char>, acc: int)
    requires
        acc >= 0,
    ensures
        spec_digits(s, acc) matches Some(v) ==> v >= acc,
    decreases s.len(),
{
    if s.len() > 0 && '0' <= s[0] <= '9' {
        lemma_digits_grow(s.drop_first(), acc * 10 + (s[0] as int - '0' as int));
    }
}

/// Reads the digits of `s[i..]` accumulated onto `acc`, reporting a value
/// beyond 255 as `None`.
fn digits_from(s: &Vec<char>, i: usize, acc: u16) -> (r: Option<u8>)
    requires
        i <= s@.len(),
        acc <= 255,
    ensures
        match spec_digits(s@.subrange(i as int, s@.len() as int), acc as int) {
            Some(v) => if v <= 255 {
                r == Some(v as u8)
            } else {
                r is None
            },
            None => r is None,
        },
    decreases s@.len() - i,
{
    let ghost sub = s@.subrange(i as int, s@.len() as int);
    if i >= s.len() {
        proof {
            assert(sub.len() == 0);
        }
        Some(acc as u8)
    } else {
        let ch = s[i];
        proof {
            assert(sub[0] == s@[i as int]);
            assert(sub.drop_first() =~= s@.subrange(i + 1, s@.len() as int));
        }
        if '0' <= ch && ch <= '9' {
            let d = (ch as u32 - '0' as u32) as u16;
            let next = acc * 10 + d;
            if next > 255 {
                proof {
                    lemma_digits_grow(sub.drop_first(), next as int);
                }
                None
            } else {
                digits_from(s, i + 1, next)
            }
        } else {
            None
        }
    }
}

/// Parses an unsigned decimal number in range for a `u8`.
fn parse_u8_chars(s: &Vec<char>, from: usize) -> (r: Option<u8>)
    requires
        from <= s@.len(),
    ensures
        r == spec_parse_u8(s@.subrange(from as int, s@.len() as int)),
{
    let ghost whole = s@.subrange(from as int, s@.len() as int);
    let start = if from < s.len() && s[from] == '+' {
        from + 1
    } else {
        from
    };
    proof {
        if from < s@.len() && s@[from as int] == '+' {
            assert(whole.drop_first() =~= s@.subrange(from + 1, s@.len() as int));
        }
    }
    if start >= s.len() {
        return None;
    }
    digits_from(s, start, 0)
}




/// The fonts a gui font option value names, in the order written: each
/// comma-separated entry carrying a size marker becomes a candidate, its
/// family the text before the marker and its size the number after it, or
/// [`DEFAULT_FONT_SIZE`] when that number does not parse.
pub fn parse_guifont(guifont: &str) -> (r: Vec<FontCandidate>)
    ensures
        r@.map_values(|f: FontCandidate| f@) == spec_parse_guifont(guifont@, 0),
{
    let chars = str_chars(guifont);
    parse_guifont_from(&chars, 0)
}

/// Parses the entries of `s[from..]`.
fn parse_guifont_from(s: &Vec<char>, from: usize) -> (r: Vec<FontCandidate>)
    requires
        from <= s@.len(),
    ensures
        r@.map_values(|f: FontCandidate| f@) == spec_parse_guifont(s@, from as int),
    decreases s@.len() - from,
{
    let c = find_char(s, ',', from);
    // The entry, taken out as its own sequence.
    let mut seg: Vec<char> = Vec::new();
    let mut k = from;
    while k < c
        invariant
            from <= k <= c <= s@.len(),
            seg@ == s@.subrange(from as int, k as int),
        decreases c - k,
    {
        seg.push(s[k]);
        proof {
            assert(seg@ =~= s@.subrange(from as int, k + 1));
        }
        k = k + 1;
    }
    proof {
        assert(seg@ =~= s@.subrange(from as int, c as int));
    }
    let h = find_size_marker(&seg, 0);
    proof {
        lemma_marker_range(seg@, 0);
        lemma_marker_props(seg@, 0);
    }
    let cand: Option<FontCandidate> = if h == seg.len() {
        None
    } else {
        let size = match parse_u8_chars(&seg, h + 2) {
            Some(v) => v,
            None => DEFAULT_FONT_SIZE,
        };
        let mut family = String::new();
        let mut j: usize = 0;
        while j < h
            invariant
                j <= h <= seg@.len(),
                family@ == seg@.subrange(0, j as int),
            decreases h - j,
        {
            family.push(seg[j]);
            proof {
                assert(family@ =~= seg@.subrange(0, j + 1));
            }
            j = j + 1;
        }
        Some(FontCandidate { family, size })
    };
    let rest: Vec<FontCandidate> = if c == s.len() {
        Vec::new()
    } else {
        parse_guifont_from(s, c + 1)
    };
    match cand {
        Some(f) => {
            let mut out: Vec<FontCandidate> = Vec::new();
            out.push(f);
            let mut tail = rest;
            out.append(&mut tail);
            proof {
                assert(out@.map_values(|f: FontCandidate| f@) =~= spec_parse_guifont(
                    s@,
                    from as int,
                ));
            }
            out
        },
        None => {
            proof {
                assert(rest@.map_values(|f: FontCandidate| f@) =~= spec_parse_guifont(
                    s@,
                    from as int,
                ));
            }
            rest
        },
    }
}

/// Finds the first size marker at or after `from`: a colon followed by the
/// letter h.
fn find_size_marker(s: &Vec<char>, from: usize) -> (r: usize)
    requires
        from <= s@.len(),
    ensures
        r == spec_find_size_marker(s@, from as int),
        from <= r <= s@.len(),
    decreases s@.len() - from,
{
    if from >= s.len() {
        s.len()
    } else if s[from] == ':' && from + 1 < s.len() && s[from + 1] == 'h' {
        from
    } else {
        find_size_marker(s, from + 1)
    }
}

/// A found marker really is one: a colon followed by the letter h, inside
/// the sequence.
pub proof fn lemma_marker_props(seg: Seq<char>, from: int)
    requires
        0 <= from <= seg.len(),
    ensures
        ({
            let r = spec_find_size_marker(seg, from);
            r < seg.len() ==> seg[r] == ':' && r + 1 < seg.len() && seg[r + 1] == 'h'
        }),
    decreases seg.len() - from,
{
    if from < seg.len() && !(seg[from] == ':' && from + 1 < seg.len() && seg[from + 1] == 'h') {
        lemma_marker_props(seg, from + 1);
    }
}

/// The first marker at or after `from` is in `[from, len]`.
pub proof fn lemma_marker_range(seg: Seq<char>, from: int)
    requires
        0 <= from <= seg.len(),
    ensures
        from <= spec_find_size_marker(seg, from) <= seg.len(),
    decreases seg.len() - from,
{
    if from < seg.len() && !(seg[from] == ':' && from + 1 < seg.len() && seg[from + 1] == 'h') {
        lemma_marker_range(seg, from + 1);
    }
}


/// An event the presentation side must see, queued by the orchestrator and
/// drained by the embedding loop.
#[derive(Debug)]
pub enum UiEditorEvent {
    /// The gui font option changed: the fonts it names, in preference order.
    FontChanged(Vec<FontCandidate>),
    /// The default colors changed.
    SetDefaultColorsSet(DefaultColorSet),
    /// A highlight group was defined or redefined.
    DefineHlAttr(HighlightAttr),
    /// A fresh snapshot was published and no redraw is already in flight.
    Redraw,
}

/// Spec-level value of a [`UiEditorEvent`].
pub enum UiEditorEventV {
    FontChanged(Seq<FontCandidateV>),
    SetDefaultColorsSet(DefaultColorSet),
    DefineHlAttr(HighlightAttr),
    Redraw,
}

impl View for UiEditorEvent {
    type V = UiEditorEventV;

    open spec fn view(&self) -> UiEditorEventV {
        match self {
            UiEditorEvent::FontChanged(fonts) => UiEditorEventV::FontChanged(
                fonts@.map_values(|f: FontCandidate| f@),
            ),
            UiEditorEvent::SetDefaultColorsSet(d) => UiEditorEventV::SetDefaultColorsSet(*d),
            UiEditorEvent::DefineHlAttr(h) => UiEditorEventV::DefineHlAttr(*h),
            UiEditorEvent::Redraw => UiEditorEventV::Redraw,
        }
    }
}

/// The orchestrator's state: the triple-buffered grid, the mode table, the
/// option state the presentation side polls, and the queue of events it
/// drains.
#[derive(Debug)]
pub struct Editor {
    lines: TripleBuffer,
    modes: Vec<ModeInfo>,
    curr_mode: usize,
    title: String,
    ui_options: UiOptions,
    cursor_style_enabled: bool,
    mouse_focus_enabled: bool,
    mouse_enabled: bool,
    linespace: i64,
    buzy: bool,
    pending: Vec<UiEditorEvent>,
}

/// Spec-level value of an [`Editor`].
pub struct EditorV {
    /// The triple-buffered grids.
    pub buffer: TripleBufferV,
    /// The mode properties, replaced wholesale by a mode-info-set event.
    pub modes: Seq<ModeInfo>,
    /// The index of the current mode in `modes`.
    pub curr_mode: int,
    /// The window title.
    pub title: Seq<char>,
    /// The capability flags the option events toggled.
    pub ui_options: u16,
    /// Whether the UI should set the cursor style.
    pub cursor_style_enabled: bool,
    /// Whether mouse focus is enabled.
    pub mouse_focus_enabled: bool,
    /// Whether the mouse is enabled.
    pub mouse_enabled: bool,
    /// The line spacing option.
    pub linespace: i64,
    /// Whether the editor reported itself busy.
    pub buzy: bool,
    /// The queued events, oldest first.
    pub pending: Seq<UiEditorEventV>,
}

impl View for Editor {
    type V = EditorV;

    closed spec fn view(&self) -> EditorV {
        EditorV {
            buffer: self.lines@,
            modes: self.modes@,
            curr_mode: self.curr_mode as int,
            title: self.title@,
            ui_options: self.ui_options.0,
            cursor_style_enabled: self.cursor_style_enabled,
            mouse_focus_enabled: self.mouse_focus_enabled,
            mouse_enabled: self.mouse_enabled,
            linespace: self.linespace,
            buzy: self.buzy,
            pending: self.pending@.map_values(|e: UiEditorEvent| e@),
        }
    }
}

/// The orchestrator's invariant: the buffer's roles are disjoint and all
/// three grids are well-shaped.
pub open spec fn editor_wf(v: EditorV) -> bool {
    &&& tb_wf(v.buffer)
    &&& forall|i: int| 0 <= i < 3 ==> wf(#[trigger] v.buffer.slots[i])
}

/// The writer-side grid: the slot the next events mutate and the next flush
/// publishes.
pub open spec fn working_grid(v: EditorV) -> LinesV {
    v.buffer.slots[v.buffer.input_idx as int]
}

impl Editor {
    /// A fresh editor: an empty grid in every slot, no modes, no title, no
    /// options set, nothing queued.
    pub fn new() -> (r: Editor)
        ensures
            editor_wf(r@),
            r@.modes.len() == 0,
            r@.curr_mode == 0,
            r@.title.len() == 0,
            r@.ui_options == 0,
            !r@.cursor_style_enabled,
            !r@.mouse_focus_enabled,
            !r@.mouse_enabled,
            r@.linespace == 0,
            !r@.buzy,
            r@.pending.len() == 0,
            !back_dirty(r@.buffer),
            working_grid(r@).rows == 0,
    {
        let r = Editor {
            lines: new_triple_buffer(),
            modes: Vec::new(),
            curr_mode: 0,
            title: String::new(),
            ui_options: UiOptions::empty(),
            cursor_style_enabled: false,
            mouse_focus_enabled: false,
            mouse_enabled: false,
            linespace: 0,
            buzy: false,
            pending: Vec::new(),
        };
        proof {
            assert(r@.pending =~= Seq::<UiEditorEventV>::empty());
            assert(0u8 & crate::buffer::BACK_DIRTY_BIT == 0) by (bit_vector);
        }
        r
    }

    /// Replaces the mode table wholesale and records whether the UI should
    /// set the cursor style.
    pub fn set_modes_info(&mut self, modes: &Vec<ModeInfo>, cursor_style_enabled: bool)
        ensures
            final(self)@ == (EditorV {
                modes: modes@,
                cursor_style_enabled,
                ..old(self)@
            }),
    {
        let n = modes.len();
        let mut fresh: Vec<ModeInfo> = Vec::new();
        let mut i: usize = 0;
        while i < n
            invariant
                i <= n == modes@.len(),
                fresh@ == modes@.take(i as int),
            decreases n - i,
        {
            fresh.push(modes[i]);
            proof {
                assert(fresh@ =~= modes@.take(i + 1));
            }
            i = i + 1;
        }
        proof {
            assert(modes@.take(n as int) =~= modes@);
        }
        self.modes = fresh;
        self.cursor_style_enabled = cursor_style_enabled;
    }

    /// Switches the current mode; an index beyond the mode table is a
    /// protocol violation and is ignored.
    pub fn change_mode(&mut self, mode_idx: u64)
        ensures
            mode_idx < old(self)@.modes.len() ==> final(self)@ == (EditorV {
                curr_mode: mode_idx as int,
                ..old(self)@
            }),
            mode_idx >= old(self)@.modes.len() ==> final(self)@ == old(self)@,
    {
        if mode_idx < self.modes.len() as u64 {
            self.curr_mode = mode_idx as usize;
        }
    }

    /// The properties of the current mode, when the mode table has them.
    pub fn current_mode(&self) -> (r: Option<ModeInfo>)
        ensures
            self@.curr_mode < self@.modes.len() ==> r == Some(self@.modes[self@.curr_mode]),
            self@.curr_mode >= self@.modes.len() ==> r is None,
    {
        if self.curr_mode < self.modes.len() {
            Some(self.modes[self.curr_mode])
        } else {
            None
        }
    }

    /// Records whether the mouse is enabled.
    pub fn set_mouse(&mut self, enabled: bool)
        ensures
            final(self)@ == (EditorV { mouse_enabled: enabled, ..old(self)@ }),
    {
        self.mouse_enabled = enabled;
    }

    /// Records whether the editor is busy.
    pub fn set_buzy(&mut self, buzy: bool)
        ensures
            final(self)@ == (EditorV { buzy, ..old(self)@ }),
    {
        self.buzy = buzy;
    }

    /// Records the window title.
    pub fn set_title(&mut self, title: String)
        ensures
            final(self)@ == (EditorV { title: title@, ..old(self)@ }),
    {
        self.title = title;
    }

    /// The window title.
    pub fn title(&self) -> (r: &str)
        ensures
            r@ == self@.title,
    {
        self.title.as_str()
    }

    /// Whether the editor is busy.
    pub fn is_busy(&self) -> (r: bool)
        ensures
            r == self@.buzy,
    {
        self.buzy
    }

    /// The capability flags in force.
    pub fn ui_options(&self) -> (r: UiOptions)
        ensures
            r.0 == self@.ui_options,
    {
        self.ui_options
    }

    /// Queues an event for the presentation side.
    fn send_event(&mut self, event: UiEditorEvent)
        ensures
            final(self)@ == (EditorV {
                pending: old(self)@.pending.push(event@),
                ..old(self)@
            }),
    {
        let ghost ev = event@;
        self.pending.push(event);
        proof {
            assert(final(self)@.pending =~= old(self)@.pending.push(ev));
        }
    }

    /// Hands over the queued events, oldest first, leaving the queue empty.
    /// The embedding loop forwards them to the presentation side, retrying
    /// rather than dropping when its channel is full: these events are rare
    /// and must not be lost.
    pub fn take_events(&mut self) -> (r: Vec<UiEditorEvent>)
        ensures
            r@.map_values(|e: UiEditorEvent| e@) == old(self)@.pending,
            final(self)@ == (EditorV { pending: Seq::empty(), ..old(self)@ }),
    {
        let mut taken: Vec<UiEditorEvent> = Vec::new();
        core::mem::swap(&mut taken, &mut self.pending);
        proof {
            assert(final(self)@.pending =~= Seq::<UiEditorEventV>::empty());
        }
        taken
    }
}


/// Whether a requested grid size fits the machine: both dimensions and
/// their product are within the address space.
pub open spec fn dims_fit(width: u64, height: u64) -> bool {
    &&& width <= usize::MAX
    &&& height <= usize::MAX
    &&& (height == 0 || width as int <= usize::MAX as int / height as int)
}

impl Editor {
    /// Reallocates the grid to the requested size, preserving no content;
    /// the editor follows with a full repaint. A size beyond the machine's
    /// address space is ignored.
    pub fn resize_grid(&mut self, width: u64, height: u64)
        requires
            editor_wf(old(self)@),
        ensures
            editor_wf(final(self)@),
            dims_fit(width, height) ==> final(self)@ == (EditorV {
                buffer: TripleBufferV {
                    slots: old(self)@.buffer.slots.update(
                        old(self)@.buffer.input_idx as int,
                        spec_resized(working_grid(old(self)@).cursor, height as int, width as int),
                    ),
                    ..old(self)@.buffer
                },
                ..old(self)@
            }),
            !dims_fit(width, height) ==> final(self)@ == old(self)@,
    {
        if width <= usize::MAX as u64 && height <= usize::MAX as u64 {
            let w = width as usize;
            let h = height as usize;
            if h == 0 || w <= usize::MAX / h {
                proof {
                    if h != 0 {
                        vstd::arithmetic::div_mod::lemma_fundamental_div_mod(
                            usize::MAX as int,
                            h as int,
                        );
                        vstd::arithmetic::div_mod::lemma_mod_bound(usize::MAX as int, h as int);
                        assert(h as int * (usize::MAX as int / h as int) == (usize::MAX as int
                            / h as int) * h as int) by (nonlinear_arith);
                        assert((usize::MAX as int / h as int) * h as int <= usize::MAX as int);
                        vstd::arithmetic::mul::lemma_mul_inequality(
                            w as int,
                            usize::MAX as int / h as int,
                            h as int,
                        );
                        assert(w as int * h as int <= usize::MAX as int);
                    } else {
                        assert(h as int * w as int == 0) by (nonlinear_arith)
                            requires
                                h as int == 0,
                        ;
                    }
                    assert(h as int * w as int == w as int * h as int) by (nonlinear_arith);
                    assert(h as int * w as int <= usize::MAX as int);
                }
                let g = self.lines.buffer();
                g.resize(h, w);
                proof {
                    assert(final(self)@ == (EditorV {
                        buffer: TripleBufferV {
                            slots: old(self)@.buffer.slots.update(
                                old(self)@.buffer.input_idx as int,
                                spec_resized(
                                    working_grid(old(self)@).cursor,
                                    height as int,
                                    width as int,
                                ),
                            ),
                            ..old(self)@.buffer
                        },
                        ..old(self)@
                    }));
                }
            }
        }
    }

    /// Resets every cell of the grid and marks every row dirty, without
    /// changing its shape.
    pub fn clear_grid(&mut self)
        requires
            editor_wf(old(self)@),
        ensures
            editor_wf(final(self)@),
            final(self)@ == (EditorV {
                buffer: TripleBufferV {
                    slots: old(self)@.buffer.slots.update(
                        old(self)@.buffer.input_idx as int,
                        spec_cleared(working_grid(old(self)@)),
                    ),
                    ..old(self)@.buffer
                },
                ..old(self)@
            }),
    {
        let g = self.lines.buffer();
        g.clear();
    }

    /// Applies a decoded line update to the grid; an update reaching outside
    /// the grid is a protocol violation and is ignored whole.
    pub fn redraw_grid_line(&mut self, grid_line: &GridLine)
        requires
            editor_wf(old(self)@),
        ensures
            editor_wf(final(self)@),
            ({
                let g = working_grid(old(self)@);
                let fits = grid_line@.row < g.rows && grid_line@.col_start + expand_len(
                    grid_line@.cells,
                ) <= g.cols;
                &&& fits ==> final(self)@ == (EditorV {
                    buffer: TripleBufferV {
                        slots: old(self)@.buffer.slots.update(
                            old(self)@.buffer.input_idx as int,
                            spec_line_applied(g, grid_line@),
                        ),
                        ..old(self)@.buffer
                    },
                    ..old(self)@
                })
                &&& !fits ==> final(self)@ == old(self)@
            }),
    {
        let g = self.lines.buffer();
        let result = g.update_line(grid_line);
        proof {
            if result is Err {
                assert(final(self)@.buffer.slots =~= old(self)@.buffer.slots);
            }
        }
    }

    /// Applies a decoded scroll to the grid; a region outside the grid is a
    /// protocol violation and is ignored whole.
    pub fn scroll_grid(&mut self, scroll: &GridScroll)
        requires
            editor_wf(old(self)@),
        ensures
            editor_wf(final(self)@),
            ({
                let g = working_grid(old(self)@);
                let valid = scroll.top <= scroll.bottom && scroll.bottom < g.rows && scroll.left
                    <= scroll.right && scroll.right <= g.cols;
                &&& valid ==> final(self)@ == (EditorV {
                    buffer: TripleBufferV {
                        slots: old(self)@.buffer.slots.update(
                            old(self)@.buffer.input_idx as int,
                            spec_scrolled(g, *scroll),
                        ),
                        ..old(self)@.buffer
                    },
                    ..old(self)@
                })
                &&& !valid ==> final(self)@ == old(self)@
            }),
    {
        let g = self.lines.buffer();
        let result = g.scroll(scroll);
        proof {
            if result is Err {
                assert(final(self)@.buffer.slots =~= old(self)@.buffer.slots);
            }
        }
    }

    /// Moves the cursor carried with the grid; a position beyond the
    /// machine's address space is ignored.
    pub fn move_cursor(&mut self, cursor_goto: &GridGoto)
        requires
            editor_wf(old(self)@),
        ensures
            editor_wf(final(self)@),
            cursor_goto.row <= usize::MAX && cursor_goto.column <= usize::MAX ==> final(self)@
                == (EditorV {
                buffer: TripleBufferV {
                    slots: old(self)@.buffer.slots.update(
                        old(self)@.buffer.input_idx as int,
                        LinesV {
                            cursor: Cursor {
                                row: cursor_goto.row as usize,
                                col: cursor_goto.column as usize,
                                shape: working_grid(old(self)@).cursor.shape,
                            },
                            ..working_grid(old(self)@)
                        },
                    ),
                    ..old(self)@.buffer
                },
                ..old(self)@
            }),
            !(cursor_goto.row <= usize::MAX && cursor_goto.column <= usize::MAX)
                ==> final(self)@ == old(self)@,
    {
        if cursor_goto.row <= usize::MAX as u64 && cursor_goto.column <= usize::MAX as u64 {
            let g = self.lines.buffer();
            let c = g.cursor_mut();
            c.move_to(cursor_goto.row as usize, cursor_goto.column as usize);
        }
    }

    /// Queues the new default colors for the presentation side.
    pub fn set_default_color_set(&mut self, color_set: DefaultColorSet)
        ensures
            final(self)@ == (EditorV {
                pending: old(self)@.pending.push(UiEditorEventV::SetDefaultColorsSet(color_set)),
                ..old(self)@
            }),
    {
        self.send_event(UiEditorEvent::SetDefaultColorsSet(color_set));
    }

    /// Queues a highlight definition for the presentation side.
    pub fn define_hl_attr(&mut self, hl_attr: HighlightAttr)
        ensures
            final(self)@ == (EditorV {
                pending: old(self)@.pending.push(UiEditorEventV::DefineHlAttr(hl_attr)),
                ..old(self)@
            }),
    {
        self.send_event(UiEditorEvent::DefineHlAttr(hl_attr));
    }

    /// Renders the dirty rows of the working grid, publishes it, and queues
    /// a redraw wake unless one is already in flight.
    pub fn flush(&mut self)
        requires
            editor_wf(old(self)@),
        ensures
            editor_wf(final(self)@),
            ({
                let v0 = old(self)@;
                let inp = v0.buffer.input_idx as int;
                let bk = back_idx(v0.buffer) as int;
                let shown = final(self)@.buffer.slots[inp];
                &&& render_rel(working_grid(v0), shown)
                &&& final(self)@.buffer.slots == v0.buffer.slots.update(inp, shown).update(
                    bk,
                    shown,
                )
                &&& back_idx(final(self)@.buffer) == v0.buffer.input_idx
                &&& back_dirty(final(self)@.buffer)
                &&& final(self)@.buffer.input_idx == back_idx(v0.buffer)
                &&& final(self)@.buffer.output_idx == v0.buffer.output_idx
                &&& final(self)@.pending == (if back_dirty(v0.buffer) {
                    v0.pending
                } else {
                    v0.pending.push(UiEditorEventV::Redraw)
                })
                &&& final(self)@.modes == v0.modes
                &&& final(self)@.curr_mode == v0.curr_mode
                &&& final(self)@.title == v0.title
                &&& final(self)@.ui_options == v0.ui_options
            }),
    {
        let g = self.lines.buffer();
        g.render();
        let in_flight = self.lines.publish();
        if !in_flight {
            self.send_event(UiEditorEvent::Redraw);
        }
    }

    /// Takes the latest published snapshot for the presentation side,
    /// keeping the current one when nothing new was published.
    pub fn acquire(&mut self) -> (r: &Lines)
        requires
            editor_wf(old(self)@),
        ensures
            editor_wf(final(self)@),
            final(self)@.buffer.slots == old(self)@.buffer.slots,
            final(self)@.pending == old(self)@.pending,
            r@ == final(self)@.buffer.slots[final(self)@.buffer.output_idx as int],
    {
        self.lines.acquire()
    }
}



/// `v1` is `v0` with the writer-side grid replaced by `g2` and everything
/// else unchanged.
pub open spec fn grid_updated(v0: EditorV, v1: EditorV, g2: LinesV) -> bool {
    v1 == (EditorV {
        buffer: TripleBufferV {
            slots: v0.buffer.slots.update(v0.buffer.input_idx as int, g2),
            ..v0.buffer
        },
        ..v0
    })
}

/// The flag set with `flag` switched on or off.
pub open spec fn toggle_flag(opts: u16, flag: u16, value: bool) -> u16 {
    if value {
        opts | flag
    } else {
        opts & !flag
    }
}

/// The editor after one option event: the gui font options queue the fonts
/// they name, the line spacing and capability toggles update their state,
/// and any other option changes nothing.
pub open spec fn apply_option(v: EditorV, o: crate::events::UiOptionV) -> EditorV {
    match o {
        crate::events::UiOptionV::Text { option, value } => {
            if option == "guifont"@ || option == "guifontset"@ {
                let fonts = spec_parse_guifont(value, 0);
                if fonts.len() > 0 {
                    EditorV { pending: v.pending.push(UiEditorEventV::FontChanged(fonts)), ..v }
                } else {
                    v
                }
            } else {
                v
            }
        },
        crate::events::UiOptionV::Int { option, value } => {
            if option == "linespace"@ {
                EditorV { linespace: value, ..v }
            } else {
                v
            }
        },
        crate::events::UiOptionV::Toggle { option, value } => {
            if option == "ext_linegrid"@ {
                EditorV { ui_options: toggle_flag(v.ui_options, api::UI_EXT_LINEGRID, value), ..v }
            } else if option == "ext_multigrid"@ {
                EditorV {
                    ui_options: toggle_flag(v.ui_options, api::UI_EXT_MULTIGRID, value),
                    ..v
                }
            } else if option == "ext_hlstate"@ {
                EditorV { ui_options: toggle_flag(v.ui_options, api::UI_EXT_HLSTATE, value), ..v }
            } else if option == "ext_termcolors"@ {
                EditorV {
                    ui_options: toggle_flag(v.ui_options, api::UI_EXT_TERMCOLORS, value),
                    ..v
                }
            } else if option == "ext_cmdline"@ {
                EditorV { ui_options: toggle_flag(v.ui_options, api::UI_EXT_CMDLINE, value), ..v }
            } else if option == "ext_popupmenu"@ {
                EditorV {
                    ui_options: toggle_flag(v.ui_options, api::UI_EXT_POPUPMENU, value),
                    ..v
                }
            } else if option == "ext_tabline"@ {
                EditorV { ui_options: toggle_flag(v.ui_options, api::UI_EXT_TABLINE, value), ..v }
            } else if option == "ext_messages"@ {
                EditorV {
                    ui_options: toggle_flag(v.ui_options, api::UI_EXT_MESSAGES, value),
                    ..v
                }
            } else if option == "mousefocus"@ {
                EditorV { mouse_focus_enabled: value, ..v }
            } else {
                v
            }
        },
    }
}

/// Compares a decoded option name against a literal.
fn opt_is(s: &String, lit: &str) -> (r: bool)
    ensures
        r == (s@ == lit@),
{
    s.eq(&lit.to_owned())
}

impl Editor {
    /// Applies one option event: gui font changes queue the fonts they
    /// name, line spacing and the capability toggles update their state,
    /// and any other option is ignored.
    pub fn set_ui_option(&mut self, option: UiOption)
        ensures
            final(self)@ == apply_option(old(self)@, option@),
    {
        match option {
            UiOption::Text { option, value } => {
                if opt_is(&option, "guifont") || opt_is(&option, "guifontset") {
                    let fonts = parse_guifont(value.as_str());
                    if fonts.len() > 0 {
                        self.send_event(UiEditorEvent::FontChanged(fonts));
                    }
                }
            },
            UiOption::Int { option, value } => {
                if opt_is(&option, "linespace") {
                    self.linespace = value;
                }
            },
            UiOption::Toggle { option, value } => {
                if opt_is(&option, "ext_linegrid") {
                    self.set_ui_option_if(api::UI_EXT_LINEGRID, value);
                } else if opt_is(&option, "ext_multigrid") {
                    self.set_ui_option_if(api::UI_EXT_MULTIGRID, value);
                } else if opt_is(&option, "ext_hlstate") {
                    self.set_ui_option_if(api::UI_EXT_HLSTATE, value);
                } else if opt_is(&option, "ext_termcolors") {
                    self.set_ui_option_if(api::UI_EXT_TERMCOLORS, value);
                } else if opt_is(&option, "ext_cmdline") {
                    self.set_ui_option_if(api::UI_EXT_CMDLINE, value);
                } else if opt_is(&option, "ext_popupmenu") {
                    self.set_ui_option_if(api::UI_EXT_POPUPMENU, value);
                } else if opt_is(&option, "ext_tabline") {
                    self.set_ui_option_if(api::UI_EXT_TABLINE, value);
                } else if opt_is(&option, "ext_messages") {
                    self.set_ui_option_if(api::UI_EXT_MESSAGES, value);
                } else if opt_is(&option, "mousefocus") {
                    self.mouse_focus_enabled = value;
                }
            },
        }
    }

    /// Switches one capability flag on or off.
    fn set_ui_option_if(&mut self, ui_option: u16, flag: bool)
        ensures
            final(self)@ == (EditorV {
                ui_options: toggle_flag(old(self)@.ui_options, ui_option, flag),
                ..old(self)@
            }),
    {
        if flag {
            self.ui_options = self.ui_options.insert(ui_option);
        } else {
            self.ui_options = self.ui_options.remove(ui_option);
        }
    }

    /// Routes one decoded redraw event to the state it concerns. Events the
    /// client does not use change nothing.
    pub fn on_redraw_event(&mut self, event: RedrawEvent)
        requires
            editor_wf(old(self)@),
        ensures
            editor_wf(final(self)@),
            match event {
                RedrawEvent::SetTitle(t) => final(self)@ == (EditorV {
                    title: t@,
                    ..old(self)@
                }),
                RedrawEvent::SetIcon(_) => final(self)@ == old(self)@,
                RedrawEvent::ModeInfoSet { cursor_style_enabled, mode_infos } => final(self)@
                    == (EditorV { modes: mode_infos@, cursor_style_enabled, ..old(self)@ }),
                RedrawEvent::OptionSet(o) => final(self)@ == apply_option(old(self)@, o@),
                RedrawEvent::ModeChange(m) => {
                    if m < old(self)@.modes.len() {
                        final(self)@ == (EditorV { curr_mode: m as int, ..old(self)@ })
                    } else {
                        final(self)@ == old(self)@
                    }
                },
                RedrawEvent::Mouse(b) => final(self)@ == (EditorV {
                    mouse_enabled: b,
                    ..old(self)@
                }),
                RedrawEvent::Busy(b) => final(self)@ == (EditorV { buzy: b, ..old(self)@ }),
                RedrawEvent::Flush => ({
                    let v0 = old(self)@;
                    let inp = v0.buffer.input_idx as int;
                    let bk = back_idx(v0.buffer) as int;
                    let shown = final(self)@.buffer.slots[inp];
                    &&& render_rel(working_grid(v0), shown)
                    &&& final(self)@.buffer.slots == v0.buffer.slots.update(inp, shown).update(
                        bk,
                        shown,
                    )
                    &&& back_dirty(final(self)@.buffer)
                    &&& final(self)@.buffer.input_idx == back_idx(v0.buffer)
                    &&& final(self)@.buffer.output_idx == v0.buffer.output_idx
                    &&& final(self)@.pending == (if back_dirty(v0.buffer) {
                        v0.pending
                    } else {
                        v0.pending.push(UiEditorEventV::Redraw)
                    })
                }),
                RedrawEvent::GridResize { grid, width, height } => {
                    if dims_fit(width, height) {
                        grid_updated(
                            old(self)@,
                            final(self)@,
                            spec_resized(
                                working_grid(old(self)@).cursor,
                                height as int,
                                width as int,
                            ),
                        )
                    } else {
                        final(self)@ == old(self)@
                    }
                },
                RedrawEvent::DefaultColorsSet(d) => final(self)@ == (EditorV {
                    pending: old(self)@.pending.push(UiEditorEventV::SetDefaultColorsSet(d)),
                    ..old(self)@
                }),
                RedrawEvent::HlAttrDefine(h) => final(self)@ == (EditorV {
                    pending: old(self)@.pending.push(UiEditorEventV::DefineHlAttr(h)),
                    ..old(self)@
                }),
                RedrawEvent::HlGroupSet { .. } => final(self)@ == old(self)@,
                RedrawEvent::GridLine(l) => ({
                    let g = working_grid(old(self)@);
                    let fits = l@.row < g.rows && l@.col_start + expand_len(l@.cells) <= g.cols;
                    if fits {
                        grid_updated(old(self)@, final(self)@, spec_line_applied(g, l@))
                    } else {
                        final(self)@ == old(self)@
                    }
                }),
                RedrawEvent::GridClear(_) => grid_updated(
                    old(self)@,
                    final(self)@,
                    spec_cleared(working_grid(old(self)@)),
                ),
                RedrawEvent::GridDestroy(_) => final(self)@ == old(self)@,
                RedrawEvent::GridCursorGoto(gt) => {
                    if gt.row <= usize::MAX && gt.column <= usize::MAX {
                        grid_updated(
                            old(self)@,
                            final(self)@,
                            LinesV {
                                cursor: Cursor {
                                    row: gt.row as usize,
                                    col: gt.column as usize,
                                    shape: working_grid(old(self)@).cursor.shape,
                                },
                                ..working_grid(old(self)@)
                            },
                        )
                    } else {
                        final(self)@ == old(self)@
                    }
                },
                RedrawEvent::GridScroll(gs) => ({
                    let g = working_grid(old(self)@);
                    let valid = gs.top <= gs.bottom && gs.bottom < g.rows && gs.left <= gs.right
                        && gs.right <= g.cols;
                    if valid {
                        grid_updated(old(self)@, final(self)@, spec_scrolled(g, gs))
                    } else {
                        final(self)@ == old(self)@
                    }
                }),
            },
    {
        match event {
            RedrawEvent::SetTitle(t) => self.set_title(t),
            RedrawEvent::SetIcon(_) => {},
            RedrawEvent::ModeInfoSet { cursor_style_enabled, mode_infos } => {
                self.set_modes_info(&mode_infos, cursor_style_enabled);
            },
            RedrawEvent::OptionSet(o) => self.set_ui_option(o),
            RedrawEvent::ModeChange(m) => self.change_mode(m),
            RedrawEvent::Mouse(b) => self.set_mouse(b),
            RedrawEvent::Busy(b) => self.set_buzy(b),
            RedrawEvent::Flush => self.flush(),
            RedrawEvent::GridResize { grid, width, height } => self.resize_grid(width, height),
            RedrawEvent::DefaultColorsSet(d) => self.set_default_color_set(d),
            RedrawEvent::HlAttrDefine(h) => self.define_hl_attr(h),
            RedrawEvent::HlGroupSet { .. } => {},
            RedrawEvent::GridLine(l) => self.redraw_grid_line(&l),
            RedrawEvent::GridClear(_) => self.clear_grid(),
            RedrawEvent::GridDestroy(_) => {},
            RedrawEvent::GridCursorGoto(gt) => self.move_cursor(&gt),
            RedrawEvent::GridScroll(gs) => self.scroll_grid(&gs),
        }
    }
}


} // verus!
