//! The terminal emulator: a grid of character cells, a cursor and the
//! current graphic rendition, driven by the actions that an escape-sequence
//! parser reports.

use std::collections::BTreeMap;

use vstd::prelude::*;

use crate::anim::{CellView, CharacterCell};
use crate::attributes::{
    attr_wf, color_class, default_attr, law_sgr_basic_colors, spec_set_sgr, AttrView, CellAttributes,
};
use crate::grid::{
    grid_view, lemma_grid_update, opt_cell_view, row_clear_from, row_delete, row_erase,
    row_insert_blanks, row_view,
};
use crate::order::lemma_usize_keys_ordered;
use crate::text::string_push;

verus! {

/// What `UnicodeWidthChar::width` of the `unicode-width` crate gives for `c`.
pub uninterp spec fn char_width(c: char) -> Option<usize>;

/// Calls `unicode_width::UnicodeWidthChar::width`. Its result is named by
/// [`char_width`]; the source of the crate also shows that ASCII control
/// characters (below U+0020 and U+007F..U+009F) have no width, that printable
/// ASCII is one column wide, and that every other character has a width of at
/// most three columns.
#[verifier::external_body]
fn unicode_char_width(c: char) -> (r: Option<usize>)
    ensures
        r == char_width(c),
        (c as u32) < 0x20 ==> r is None,
        0x20 <= (c as u32) < 0x7f ==> r == Some(1usize),
        0x7f <= (c as u32) < 0xa0 ==> r is None,
        (c as u32) >= 0xa0 ==> r is Some && r.unwrap() <= 3,
{
    unicode_width::UnicodeWidthChar::width(c)
}

/// Columns taken by a character written to the screen: its display width,
/// and one column for characters that have none.
pub open spec fn advance_width(c: char) -> nat {
    match char_width(c) {
        Some(w) => w as nat,
        None => 1,
    }
}

/// One event reported by the escape-sequence parser.
pub enum TermAction {
    /// A printable character.
    Print(char),
    /// A C0 control byte.
    Execute(u8),
    /// A control sequence: its parameter groups and its final character.
    Csi { params: Vec<Vec<u16>>, action: char },
    /// An escape sequence and its final byte.
    Esc(u8),
}

/// The mathematical value of a [`TermAction`].
pub enum ActionView {
    Print(char),
    Execute(u8),
    Csi { params: Seq<Seq<u16>>, action: char },
    Esc(u8),
}

impl View for TermAction {
    type V = ActionView;

    open spec fn view(&self) -> ActionView {
        match self {
            TermAction::Print(c) => ActionView::Print(*c),
            TermAction::Execute(b) => ActionView::Execute(*b),
            TermAction::Csi { params, action } => ActionView::Csi {
                params: params_view(params@),
                action: *action,
            },
            TermAction::Esc(b) => ActionView::Esc(*b),
        }
    }
}

/// The parameter groups of a control sequence as sequences.
pub open spec fn params_view(params: Seq<Vec<u16>>) -> Seq<Seq<u16>> {
    Seq::new(params.len(), |i: int| params[i]@)
}

/// The mathematical value of the emulator.
pub struct EmuView {
    pub width: nat,
    pub height: nat,
    pub cursor_row: nat,
    pub cursor_col: nat,
    pub saved_cursor: Option<(usize, usize)>,
    pub grid: Seq<Seq<Option<CellView>>>,
    pub attr: AttrView,
}

/// `n - 1`, or 0 for 0.
pub open spec fn sat1(n: nat) -> nat {
    if n == 0 { 0 } else { (n - 1) as nat }
}

pub open spec fn min(a: int, b: int) -> int {
    if a < b { a } else { b }
}

/// A row of `w` empty cells.
pub open spec fn blank_row(w: nat) -> Seq<Option<CellView>> {
    Seq::new(w, |j: int| None)
}

/// The grid has `height` rows of `width` cells, the cursor lies on the
/// screen (or at 0 along an empty dimension), and the sizes fit a `u16`.
pub open spec fn emu_wf(e: EmuView) -> bool {
    &&& e.width <= 0xffff
    &&& e.height <= 0xffff
    &&& e.grid.len() == e.height
    &&& forall|r: int| 0 <= r < e.height ==> (#[trigger] e.grid[r]).len() == e.width
    &&& e.cursor_row < e.height || e.cursor_row == 0
    &&& e.cursor_col < e.width || e.cursor_col == 0
    &&& attr_wf(e.attr)
}

/// A fresh screen: empty cells, cursor at the origin, default rendition.
pub open spec fn emu_init(width: nat, height: nat) -> EmuView {
    EmuView {
        width,
        height,
        cursor_row: 0,
        cursor_col: 0,
        saved_cursor: None,
        grid: Seq::new(height, |r: int| blank_row(width)),
        attr: default_attr(),
    }
}

/// Cursor moved to `(row, col)`, clamped to the last row and column.
pub open spec fn e_set_cursor(e: EmuView, row: int, col: int) -> EmuView {
    EmuView {
        cursor_row: min(row, sat1(e.height) as int) as nat,
        cursor_col: min(col, sat1(e.width) as int) as nat,
        ..e
    }
}

/// The top `rows` lines (at most the whole screen) leave the screen and as
/// many empty lines enter at the bottom; the cursor goes to the last line.
pub open spec fn e_scroll_up(e: EmuView, rows: nat) -> EmuView {
    let n = min(rows as int, e.height as int);
    EmuView {
        grid: e.grid.skip(n) + Seq::new(n as nat, |i: int| blank_row(e.width)),
        cursor_row: sat1(e.height),
        ..e
    }
}

pub open spec fn e_linefeed(e: EmuView) -> EmuView {
    if e.cursor_row + 1 >= e.height {
        e_scroll_up(e, 1)
    } else {
        EmuView { cursor_row: e.cursor_row + 1, ..e }
    }
}

pub open spec fn e_carriage_return(e: EmuView) -> EmuView {
    EmuView { cursor_col: 0, ..e }
}

pub open spec fn e_backspace(e: EmuView) -> EmuView {
    if e.cursor_col > 0 {
        EmuView { cursor_col: (e.cursor_col - 1) as nat, ..e }
    } else {
        e
    }
}

pub open spec fn e_clear_screen(e: EmuView) -> EmuView {
    e_set_cursor(EmuView { grid: Seq::new(e.height, |r: int| blank_row(e.width)), ..e }, 0, 0)
}

/// The cursor's line emptied from the cursor to its end.
pub open spec fn e_clear_line_from_cursor(e: EmuView) -> EmuView {
    if e.cursor_row < e.height {
        let row = e.grid[e.cursor_row as int];
        EmuView {
            grid: e.grid.update(
                e.cursor_row as int,
                Seq::new(row.len(), |j: int| if j < e.cursor_col { row[j] } else { None }),
            ),
            ..e
        }
    } else {
        e
    }
}

/// The screen emptied from the cursor to its end.
pub open spec fn e_clear_to_screen_end(e: EmuView) -> EmuView {
    let e1 = e_clear_line_from_cursor(e);
    EmuView {
        grid: Seq::new(
            e1.grid.len(),
            |r: int| if r > e1.cursor_row { blank_row(e1.width) } else { e1.grid[r] },
        ),
        ..e1
    }
}

/// The cursor's line emptied.
pub open spec fn e_clear_line(e: EmuView) -> EmuView {
    if e.cursor_row < e.height {
        EmuView { grid: e.grid.update(e.cursor_row as int, blank_row(e.width)), ..e }
    } else {
        e
    }
}

/// Number of cells that an insertion, deletion or erasure of `count` cells
/// at the cursor touches: `count` capped at the cells from the cursor to the
/// end of the line, and 0 when the cursor is off the screen.
pub open spec fn edit_span(e: EmuView, count: nat) -> nat {
    if e.cursor_row >= e.height || e.cursor_col >= e.width {
        0
    } else {
        min(count as int, (e.width - e.cursor_col) as int) as nat
    }
}

/// ICH: `count` empty cells inserted at the cursor; the cells after it move
/// right and those pushed past the end of the line are lost.
pub open spec fn e_insert_blank_chars(e: EmuView, count: nat) -> EmuView {
    let n = edit_span(e, count);
    if n == 0 {
        e
    } else {
        let row = e.grid[e.cursor_row as int];
        let c = e.cursor_col;
        EmuView {
            grid: e.grid.update(
                e.cursor_row as int,
                Seq::new(
                    e.width,
                    |j: int|
                        if j < c {
                            row[j]
                        } else if j < c + n {
                            None
                        } else {
                            row[j - n]
                        },
                ),
            ),
            ..e
        }
    }
}

/// DCH: `count` cells deleted at the cursor; the rest of the line moves
/// left and empty cells fill its end.
pub open spec fn e_delete_chars(e: EmuView, count: nat) -> EmuView {
    let n = edit_span(e, count);
    if n == 0 {
        e
    } else {
        let row = e.grid[e.cursor_row as int];
        let c = e.cursor_col;
        EmuView {
            grid: e.grid.update(
                e.cursor_row as int,
                Seq::new(
                    e.width,
                    |j: int|
                        if j < c {
                            row[j]
                        } else if j + n < e.width {
                            row[j + n]
                        } else {
                            None
                        },
                ),
            ),
            ..e
        }
    }
}

/// ECH: `count` cells from the cursor emptied in place.
pub open spec fn e_erase_chars(e: EmuView, count: nat) -> EmuView {
    let n = edit_span(e, count);
    if n == 0 {
        e
    } else {
        let row = e.grid[e.cursor_row as int];
        let c = e.cursor_col;
        EmuView {
            grid: e.grid.update(
                e.cursor_row as int,
                Seq::new(e.width, |j: int| if c <= j < c + n { None } else { row[j] }),
            ),
            ..e
        }
    }
}

/// The cell that a character written with rendition `a` gets.
pub open spec fn written_cell(a: AttrView, ch: char) -> CellView {
    CellView {
        text: seq![ch],
        color: if a.inverse { a.bg } else { a.fg },
        background_color: if a.inverse { a.fg } else { a.bg },
        bold: a.bold,
        italics: a.italics,
        underscore: a.underline,
        strikethrough: a.strikethrough,
    }
}

/// A zero-width character joins the text of the cell left of the cursor.
pub open spec fn e_join_previous(e: EmuView, ch: char) -> EmuView {
    if e.cursor_col > 0 && e.cursor_row < e.height {
        let row = e.grid[e.cursor_row as int];
        let col = e.cursor_col - 1;
        match row[col] {
            Some(cell) => EmuView {
                grid: e.grid.update(
                    e.cursor_row as int,
                    row.update(col, Some(CellView { text: cell.text.push(ch), ..cell })),
                ),
                ..e
            },
            None => e,
        }
    } else {
        e
    }
}

/// A character written at the cursor: past the last column it first moves
/// to the start of the next line; the cursor then advances by the
/// character's width, stopping at the last column.
pub open spec fn e_put_char(e: EmuView, ch: char) -> EmuView {
    let w = advance_width(ch);
    if w == 0 {
        e_join_previous(e, ch)
    } else {
        let e1 = if e.cursor_col >= e.width {
            EmuView { cursor_col: 0, ..e_linefeed(e) }
        } else {
            e
        };
        let e2 = if e1.cursor_row < e1.height {
            EmuView {
                grid: e1.grid.update(
                    e1.cursor_row as int,
                    e1.grid[e1.cursor_row as int].update(
                        e1.cursor_col as int,
                        Some(written_cell(e1.attr, ch)),
                    ),
                ),
                ..e1
            }
        } else {
            e1
        };
        let c = min((e2.cursor_col + w) as int, e2.width as int);
        EmuView { cursor_col: if c >= e2.width { sat1(e2.width) } else { c as nat }, ..e2 }
    }
}

pub open spec fn e_move_up(e: EmuView, count: nat) -> EmuView {
    EmuView {
        cursor_row: if e.cursor_row >= count { (e.cursor_row - count) as nat } else { 0 },
        ..e
    }
}

pub open spec fn e_move_down(e: EmuView, count: nat) -> EmuView {
    EmuView { cursor_row: min((e.cursor_row + count) as int, sat1(e.height) as int) as nat, ..e }
}

pub open spec fn e_move_right(e: EmuView, count: nat) -> EmuView {
    EmuView { cursor_col: min((e.cursor_col + count) as int, sat1(e.width) as int) as nat, ..e }
}

pub open spec fn e_move_left(e: EmuView, count: nat) -> EmuView {
    EmuView {
        cursor_col: if e.cursor_col >= count { (e.cursor_col - count) as nat } else { 0 },
        ..e
    }
}

/// First value of parameter group `idx` of a control sequence, or `default`
/// when the group is absent, empty or 0: the parser hands on an omitted
/// parameter as 0, and an omitted or zero parameter means the default.
pub open spec fn csi_param(params: Seq<Seq<u16>>, idx: int, default: int) -> int {
    if 0 <= idx < params.len() && params[idx].len() > 0 && params[idx][0] != 0 {
        params[idx][0] as int
    } else {
        default
    }
}

/// A one-based position turned zero-based.
pub open spec fn zero_based(p: int) -> int {
    if p <= 0 { 0 } else { p - 1 }
}

/// A count parameter, at least 1.
pub open spec fn count_param(p: int) -> nat {
    if p < 1 { 1 } else { p as nat }
}

/// Effect of a control sequence with final character `action`.
pub open spec fn e_csi(e: EmuView, params: Seq<Seq<u16>>, action: char) -> EmuView {
    let p0 = csi_param(params, 0, 1);
    if action == '@' {
        e_insert_blank_chars(e, count_param(p0))
    } else if action == 'A' {
        e_move_up(e, p0 as nat)
    } else if action == 'B' {
        e_move_down(e, p0 as nat)
    } else if action == 'C' {
        e_move_right(e, p0 as nat)
    } else if action == 'D' {
        e_move_left(e, p0 as nat)
    } else if action == 'E' {
        e_carriage_return(e_move_down(e, p0 as nat))
    } else if action == 'F' {
        e_carriage_return(e_move_up(e, p0 as nat))
    } else if action == 'G' {
        e_set_cursor(e, e.cursor_row as int, zero_based(p0))
    } else if action == 'H' || action == 'f' {
        e_set_cursor(e, zero_based(p0), zero_based(csi_param(params, 1, 1)))
    } else if action == 'J' {
        let mode = csi_param(params, 0, 0);
        if mode == 0 {
            e_clear_to_screen_end(e)
        } else if mode == 2 {
            e_clear_screen(e)
        } else {
            e
        }
    } else if action == 'K' {
        let mode = csi_param(params, 0, 0);
        if mode == 0 {
            e_clear_line_from_cursor(e)
        } else if mode == 2 {
            e_clear_line(e)
        } else {
            e
        }
    } else if action == 'P' {
        e_delete_chars(e, count_param(p0))
    } else if action == 'm' {
        EmuView { attr: spec_set_sgr(e.attr, params.flatten()), ..e }
    } else if action == 's' {
        EmuView { saved_cursor: Some((e.cursor_row as usize, e.cursor_col as usize)), ..e }
    } else if action == 'u' {
        match e.saved_cursor {
            Some((r, c)) => e_set_cursor(e, r as int, c as int),
            None => e,
        }
    } else if action == 'X' {
        e_erase_chars(e, count_param(p0))
    } else {
        e
    }
}

/// Effect of a C0 control: line feed, vertical tab and form feed start a new
/// line; carriage return and backspace move the cursor.
pub open spec fn e_execute(e: EmuView, b: u8) -> EmuView {
    if b == 10 || b == 11 || b == 12 {
        e_carriage_return(e_linefeed(e))
    } else if b == 13 {
        e_carriage_return(e)
    } else if b == 8 {
        e_backspace(e)
    } else {
        e
    }
}

/// Effect of an escape sequence: `ESC c` resets the screen and rendition.
pub open spec fn e_esc(e: EmuView, b: u8) -> EmuView {
    if b == 0x63 {
        EmuView { attr: default_attr(), ..e_clear_screen(e) }
    } else {
        e
    }
}

/// Effect of one parser action.
pub open spec fn e_apply(e: EmuView, a: ActionView) -> EmuView {
    match a {
        ActionView::Print(c) => e_put_char(e, c),
        ActionView::Execute(b) => e_execute(e, b),
        ActionView::Csi { params, action } => e_csi(e, params, action),
        ActionView::Esc(b) => e_esc(e, b),
    }
}

/// Effect of a sequence of parser actions, in order.
pub open spec fn e_apply_all(e: EmuView, actions: Seq<ActionView>) -> EmuView
    decreases actions.len(),
{
    if actions.len() == 0 {
        e
    } else {
        e_apply_all(e_apply(e, actions[0]), actions.drop_first())
    }
}

/// Writing `c` stays within the screen: a character that takes columns needs
/// a screen with at least one column, unless the screen has no line at all.
pub open spec fn print_ok(e: EmuView, c: char) -> bool {
    e.width > 0 || e.height == 0 || advance_width(c) == 0
}

/// Every character that the actions print can be written, whatever the
/// state the earlier actions leave.
pub open spec fn actions_ok(e: EmuView, actions: Seq<ActionView>) -> bool {
    forall|i: int|
        0 <= i < actions.len() ==> (#[trigger] actions[i] matches ActionView::Print(c) ==> (
        e.width > 0 || e.height == 0 || advance_width(c) == 0))
}

/// The columns that writing `c` takes.
pub(crate) fn char_advance(c: char) -> (r: usize)
    ensures
        r == advance_width(c),
{
    match unicode_char_width(c) {
        Some(w) => w,
        None => 1,
    }
}

/// The terminal screen.
pub(crate) struct TerminalEmulator {
    pub(crate) width: usize,
    pub(crate) height: usize,
    pub(crate) cursor_row: usize,
    pub(crate) cursor_col: usize,
    pub(crate) saved_cursor: Option<(usize, usize)>,
    pub(crate) cells: Vec<Vec<Option<CharacterCell>>>,
    pub(crate) attr: CellAttributes,
}

broadcast use crate::grid::group_grid_views;

/// A row of `w` empty cells.
fn blank_row_vec(w: usize) -> (v: Vec<Option<CharacterCell>>)
    ensures
        row_view(v@) == blank_row(w as nat),
        v@.len() == w,
{
    let mut v: Vec<Option<CharacterCell>> = Vec::new();
    let mut j: usize = 0;
    while j < w
        invariant
            j <= w,
            v@.len() == j,
            forall|k: int| 0 <= k < j ==> v@[k] is None,
        decreases w - j,
    {
        v.push(None);
        j = j + 1;
    }
    assert(row_view(v@) =~= blank_row(w as nat));
    v
}

/// `h` rows of `w` empty cells.
fn blank_grid(w: usize, h: usize) -> (g: Vec<Vec<Option<CharacterCell>>>)
    ensures
        grid_view(g@) == Seq::new(h as nat, |r: int| blank_row(w as nat)),
{
    let mut g: Vec<Vec<Option<CharacterCell>>> = Vec::new();
    let mut i: usize = 0;
    while i < h
        invariant
            i <= h,
            g@.len() == i,
            grid_view(g@) == Seq::new(i as nat, |r: int| blank_row(w as nat)),
        decreases h - i,
    {
        let row = blank_row_vec(w);
        let ghost old_g = g@;
        g.push(row);
        assert forall|r: int| 0 <= r < i + 1 implies grid_view(g@)[r] == blank_row(w as nat) by {
            if r < i {
                assert(grid_view(old_g)[r] == blank_row(w as nat));
            }
        }
        assert(grid_view(g@) =~= Seq::new((i + 1) as nat, |r: int| blank_row(w as nat)));
        i = i + 1;
    }
    g
}

impl TerminalEmulator {
    pub(crate) open spec fn view(&self) -> EmuView {
        EmuView {
            width: self.width as nat,
            height: self.height as nat,
            cursor_row: self.cursor_row as nat,
            cursor_col: self.cursor_col as nat,
            saved_cursor: self.saved_cursor,
            grid: grid_view(self.cells@),
            attr: self.attr@,
        }
    }

    pub(crate) fn new(width: usize, height: usize) -> (r: Self)
        requires
            width <= 0xffff,
            height <= 0xffff,
        ensures
            r@ == emu_init(width as nat, height as nat),
            emu_wf(r@),
    {
        TerminalEmulator {
            width,
            height,
            cursor_row: 0,
            cursor_col: 0,
            saved_cursor: None,
            cells: blank_grid(width, height),
            attr: CellAttributes::default(),
        }
    }

    fn set_cursor(&mut self, row: usize, col: usize)
        requires
            emu_wf(old(self)@),
        ensures
            final(self)@ == e_set_cursor(old(self)@, row as int, col as int),
            emu_wf(final(self)@),
    {
        let last_row = if self.height > 0 { self.height - 1 } else { 0 };
        let last_col = if self.width > 0 { self.width - 1 } else { 0 };
        self.cursor_row = if row < last_row { row } else { last_row };
        self.cursor_col = if col < last_col { col } else { last_col };
    }

    fn scroll_up(&mut self, rows: usize)
        requires
            emu_wf(old(self)@),
        ensures
            final(self)@ == e_scroll_up(old(self)@, rows as nat),
            emu_wf(final(self)@),
    {
        let n = if rows < self.height { rows } else { self.height };
        let ghost g0 = self@.grid;
        let ghost w = self.width as nat;
        let mut k: usize = 0;
        while k < n
            invariant
                k <= n,
                n <= self.height,
                self.height == old(self).height,
                self.width == old(self).width,
                self.cursor_row == old(self).cursor_row,
                self.cursor_col == old(self).cursor_col,
                self.saved_cursor == old(self).saved_cursor,
                self.attr == old(self).attr,
                self.cells@.len() == self.height,
                g0 == old(self)@.grid,
                w == self.width as nat,
                emu_wf(old(self)@),
                grid_view(self.cells@) == g0.skip(k as int) + Seq::new(k as nat, |i: int| blank_row(w)),
            decreases n - k,
        {
            let ghost before = self.cells@;
            self.cells.remove(0);
            let row = blank_row_vec(self.width);
            self.cells.push(row);
            let ghost target = g0.skip(k + 1) + Seq::new((k + 1) as nat, |i: int| blank_row(w));
            assert forall|r: int| 0 <= r < self.height implies grid_view(self.cells@)[r] == target[r] by {
                assert(g0.len() == self.height);
                assert(self.cells@.len() == self.height);
                assert(grid_view(self.cells@)[r] == row_view(self.cells@[r]@));
                let prev = g0.skip(k as int) + Seq::new(k as nat, |i: int| blank_row(w));
                if r < self.height - 1 {
                    assert(self.cells@[r] == before[r + 1]);
                    assert(grid_view(before)[r + 1] == row_view(before[r + 1]@));
                    assert(grid_view(before)[r + 1] == prev[r + 1]);
                    if r + 1 < self.height - k {
                        assert(prev[r + 1] == g0[k + r + 1]);
                        assert(target[r] == g0[k + 1 + r]);
                        assert(grid_view(self.cells@)[r] == target[r]);
                    } else {
                        assert(prev[r + 1] == blank_row(w));
                        assert(target[r] == blank_row(w));
                        assert(grid_view(self.cells@)[r] == target[r]);
                    }
                } else {
                    assert(self.cells@[r] == row);
                    assert(target[r] == blank_row(w));
                    assert(row_view(row@) == blank_row(w));
                    assert(grid_view(self.cells@)[r] == target[r]);
                }
            }
            assert(grid_view(self.cells@) =~= target);
            k = k + 1;
        }
        self.cursor_row = if self.height > 0 { self.height - 1 } else { 0 };
        proof {
            let e = self@;
            assert(e.grid == e_scroll_up(old(self)@, rows as nat).grid);
            assert forall|r: int| 0 <= r < e.height implies (#[trigger] e.grid[r]).len() == e.width by {
                if r < e.height - n {
                    assert(e.grid[r] == g0[r + n]);
                }
            }
        }
    }

    /// Takes row `r` out of the grid, leaving an empty vector in its place.
    fn take_row(&mut self, r: usize) -> (row: Vec<Option<CharacterCell>>)
        requires
            r < old(self).cells@.len(),
        ensures
            row == old(self).cells@[r as int],
            final(self).cells@.len() == old(self).cells@.len(),
            forall|i: int|
                0 <= i < old(self).cells@.len() && i != r ==> final(self).cells@[i]
                    == old(self).cells@[i],
            final(self).width == old(self).width,
            final(self).height == old(self).height,
            final(self).cursor_row == old(self).cursor_row,
            final(self).cursor_col == old(self).cursor_col,
            final(self).saved_cursor == old(self).saved_cursor,
            final(self).attr == old(self).attr,
    {
        let mut row: Vec<Option<CharacterCell>> = Vec::new();
        self.cells.set_and_swap(r, &mut row);
        row
    }

    /// Puts `row` back as row `r` of the grid.
    fn put_row(&mut self, r: usize, row: Vec<Option<CharacterCell>>)
        requires
            r < old(self).cells@.len(),
        ensures
            final(self).cells@ == old(self).cells@.update(r as int, row),
            final(self).width == old(self).width,
            final(self).height == old(self).height,
            final(self).cursor_row == old(self).cursor_row,
            final(self).cursor_col == old(self).cursor_col,
            final(self).saved_cursor == old(self).saved_cursor,
            final(self).attr == old(self).attr,
    {
        self.cells.set(r, row);
    }

    fn linefeed(&mut self)
        requires
            emu_wf(old(self)@),
        ensures
            final(self)@ == e_linefeed(old(self)@),
            emu_wf(final(self)@),
    {
        if self.cursor_row + 1 >= self.height {
            self.scroll_up(1);
        } else {
            self.cursor_row = self.cursor_row + 1;
        }
    }

    fn carriage_return(&mut self)
        requires
            emu_wf(old(self)@),
        ensures
            final(self)@ == e_carriage_return(old(self)@),
            emu_wf(final(self)@),
    {
        self.cursor_col = 0;
    }

    fn backspace(&mut self)
        requires
            emu_wf(old(self)@),
        ensures
            final(self)@ == e_backspace(old(self)@),
            emu_wf(final(self)@),
    {
        if self.cursor_col > 0 {
            self.cursor_col = self.cursor_col - 1;
        }
    }

    fn clear_screen(&mut self)
        requires
            emu_wf(old(self)@),
        ensures
            final(self)@ == e_clear_screen(old(self)@),
            emu_wf(final(self)@),
    {
        self.cells = blank_grid(self.width, self.height);
        self.set_cursor(0, 0);
    }

    fn clear_line_from_cursor(&mut self)
        requires
            emu_wf(old(self)@),
        ensures
            final(self)@ == e_clear_line_from_cursor(old(self)@),
            emu_wf(final(self)@),
    {
        if self.cursor_row < self.height {
            let r = self.cursor_row;
            let ghost cells0 = self.cells@;
            let mut row = self.take_row(r);
            row_clear_from(&mut row, self.cursor_col);
            self.put_row(r, row);
            proof {
                assert(self.cells@ =~= cells0.update(r as int, row));
                lemma_grid_update(cells0, r as int, row);
                let e = self@;
                let e0 = old(self)@;
                assert(e.grid == e_clear_line_from_cursor(e0).grid);
                assert forall|i: int| 0 <= i < e.height implies (#[trigger] e.grid[i]).len() == e.width by {
                    if i != r {
                        assert(e.grid[i] == e0.grid[i]);
                    }
                }
            }
        }
    }

    fn clear_line(&mut self)
        requires
            emu_wf(old(self)@),
        ensures
            final(self)@ == e_clear_line(old(self)@),
            emu_wf(final(self)@),
    {
        if self.cursor_row < self.height {
            let r = self.cursor_row;
            let ghost cells0 = self.cells@;
            let row = blank_row_vec(self.width);
            self.put_row(r, row);
            proof {
                lemma_grid_update(cells0, r as int, row);
                let e = self@;
                let e0 = old(self)@;
                assert forall|i: int| 0 <= i < e.height implies (#[trigger] e.grid[i]).len() == e.width by {
                    if i != r {
                        assert(e.grid[i] == e0.grid[i]);
                    }
                }
            }
        }
    }

    fn clear_to_screen_end(&mut self)
        requires
            emu_wf(old(self)@),
        ensures
            final(self)@ == e_clear_to_screen_end(old(self)@),
            emu_wf(final(self)@),
    {
        self.clear_line_from_cursor();
        let ghost e1 = self@;
        let mut r: usize = self.cursor_row + 1;
        while r < self.height
            invariant
                e1.cursor_row < r,
                emu_wf(e1),
                self.width == e1.width,
                self.height == e1.height,
                self.cursor_row == e1.cursor_row,
                self.cursor_col == e1.cursor_col,
                self.saved_cursor == e1.saved_cursor,
                self.attr@ == e1.attr,
                self.cells@.len() == e1.height,
                forall|i: int|
                    0 <= i < e1.height ==> #[trigger] grid_view(self.cells@)[i] == (if e1.cursor_row
                        < i < r {
                        blank_row(e1.width)
                    } else {
                        e1.grid[i]
                    }),
            decreases self.height - r,
        {
            let ghost cells0 = self.cells@;
            let row = blank_row_vec(self.width);
            self.put_row(r, row);
            proof {
                lemma_grid_update(cells0, r as int, row);
            }
            r = r + 1;
        }
        proof {
            let e = self@;
            assert(e.grid =~= e_clear_to_screen_end(old(self)@).grid);
        }
    }

    fn insert_blank_chars(&mut self, count: usize)
        requires
            emu_wf(old(self)@),
        ensures
            final(self)@ == e_insert_blank_chars(old(self)@, count as nat),
            emu_wf(final(self)@),
    {
        if self.cursor_row >= self.height || self.cursor_col >= self.width {
            return;
        }
        let available = self.width - self.cursor_col;
        let n = if count < available { count } else { available };
        if n == 0 {
            return;
        }
        let r = self.cursor_row;
        let ghost cells0 = self.cells@;
        let mut row = self.take_row(r);
        row_insert_blanks(&mut row, self.cursor_col, n);
        self.put_row(r, row);
        proof {
            assert(self.cells@ =~= cells0.update(r as int, row));
            lemma_grid_update(cells0, r as int, row);
            let e = self@;
            let e0 = old(self)@;
            assert(e.grid =~= e_insert_blank_chars(e0, count as nat).grid);
            assert forall|i: int| 0 <= i < e.height implies (#[trigger] e.grid[i]).len() == e.width by {
                if i != r {
                    assert(e.grid[i] == e0.grid[i]);
                }
            }
        }
    }

    fn delete_chars(&mut self, count: usize)
        requires
            emu_wf(old(self)@),
        ensures
            final(self)@ == e_delete_chars(old(self)@, count as nat),
            emu_wf(final(self)@),
    {
        if self.cursor_row >= self.height || self.cursor_col >= self.width {
            return;
        }
        let available = self.width - self.cursor_col;
        let n = if count < available { count } else { available };
        if n == 0 {
            return;
        }
        let r = self.cursor_row;
        let ghost cells0 = self.cells@;
        let mut row = self.take_row(r);
        row_delete(&mut row, self.cursor_col, n);
        self.put_row(r, row);
        proof {
            assert(self.cells@ =~= cells0.update(r as int, row));
            lemma_grid_update(cells0, r as int, row);
            let e = self@;
            let e0 = old(self)@;
            assert(e.grid =~= e_delete_chars(e0, count as nat).grid);
            assert forall|i: int| 0 <= i < e.height implies (#[trigger] e.grid[i]).len() == e.width by {
                if i != r {
                    assert(e.grid[i] == e0.grid[i]);
                }
            }
        }
    }

    fn erase_chars(&mut self, count: usize)
        requires
            emu_wf(old(self)@),
        ensures
            final(self)@ == e_erase_chars(old(self)@, count as nat),
            emu_wf(final(self)@),
    {
        if self.cursor_row >= self.height || self.cursor_col >= self.width {
            return;
        }
        let available = self.width - self.cursor_col;
        let n = if count < available { count } else { available };
        if n == 0 {
            return;
        }
        let r = self.cursor_row;
        let ghost cells0 = self.cells@;
        let mut row = self.take_row(r);
        row_erase(&mut row, self.cursor_col, n);
        self.put_row(r, row);
        proof {
            assert(self.cells@ =~= cells0.update(r as int, row));
            lemma_grid_update(cells0, r as int, row);
            let e = self@;
            let e0 = old(self)@;
            assert(e.grid =~= e_erase_chars(e0, count as nat).grid);
            assert forall|i: int| 0 <= i < e.height implies (#[trigger] e.grid[i]).len() == e.width by {
                if i != r {
                    assert(e.grid[i] == e0.grid[i]);
                }
            }
        }
    }

    fn move_up(&mut self, count: usize)
        requires
            emu_wf(old(self)@),
        ensures
            final(self)@ == e_move_up(old(self)@, count as nat),
            emu_wf(final(self)@),
    {
        self.cursor_row = if self.cursor_row >= count { self.cursor_row - count } else { 0 };
    }

    fn move_down(&mut self, count: usize)
        requires
            emu_wf(old(self)@),
            count <= 0xffff,
        ensures
            final(self)@ == e_move_down(old(self)@, count as nat),
            emu_wf(final(self)@),
    {
        let last = if self.height > 0 { self.height - 1 } else { 0 };
        let target = self.cursor_row + count;
        self.cursor_row = if target < last { target } else { last };
    }

    fn move_right(&mut self, count: usize)
        requires
            emu_wf(old(self)@),
            count <= 0xffff,
        ensures
            final(self)@ == e_move_right(old(self)@, count as nat),
            emu_wf(final(self)@),
    {
        let last = if self.width > 0 { self.width - 1 } else { 0 };
        let target = self.cursor_col + count;
        self.cursor_col = if target < last { target } else { last };
    }

    fn move_left(&mut self, count: usize)
        requires
            emu_wf(old(self)@),
        ensures
            final(self)@ == e_move_left(old(self)@, count as nat),
            emu_wf(final(self)@),
    {
        self.cursor_col = if self.cursor_col >= count { self.cursor_col - count } else { 0 };
    }

    /// A zero-width character joins the text of the cell left of the cursor.
    fn join_previous(&mut self, ch: char)
        requires
            emu_wf(old(self)@),
        ensures
            final(self)@ == e_join_previous(old(self)@, ch),
            emu_wf(final(self)@),
    {
        if self.cursor_col > 0 && self.cursor_row < self.height {
            let r = self.cursor_row;
            let col = self.cursor_col - 1;
            let ghost cells0 = self.cells@;
            let mut row = self.take_row(r);
            let ghost row0 = row@;
            let slot = row.remove(col);
            match slot {
                Some(cell) => {
                    let mut cell = cell;
                    string_push(&mut cell.text, ch);
                    row.insert(col, Some(cell));
                },
                None => {
                    row.insert(col, None);
                },
            }
            self.put_row(r, row);
            proof {
                assert(self.cells@ =~= cells0.update(r as int, row));
                lemma_grid_update(cells0, r as int, row);
                let e = self@;
                let e0 = old(self)@;
                assert(row_view(row@) =~= e_join_previous(e0, ch).grid[r as int]) by {
                    assert forall|j: int| 0 <= j < row@.len() implies #[trigger] row_view(row@)[j]
                        == e_join_previous(e0, ch).grid[r as int][j] by {
                        if j != col {
                            assert(row@[j] == row0[j]);
                            assert(row_view(row0)[j] == opt_cell_view(row0[j]));
                        }
                    }
                }
                assert(e.grid =~= e_join_previous(e0, ch).grid);
                assert forall|i: int| 0 <= i < e.height implies (#[trigger] e.grid[i]).len() == e.width by {
                    if i != r {
                        assert(e.grid[i] == e0.grid[i]);
                    }
                }
            }
        }
    }

    /// Writes `ch` at the cursor with the current rendition.
    fn write_cell(&mut self, ch: char)
        requires
            emu_wf(old(self)@),
            old(self).cursor_row < old(self).height,
            old(self).cursor_col < old(self).width,
        ensures
            final(self)@ == (EmuView {
                grid: old(self)@.grid.update(
                    old(self).cursor_row as int,
                    old(self)@.grid[old(self).cursor_row as int].update(
                        old(self).cursor_col as int,
                        Some(written_cell(old(self)@.attr, ch)),
                    ),
                ),
                ..old(self)@
            }),
            emu_wf(final(self)@),
    {
        let (fg, bg) = self.attr.effective_colors();
        let mut text = String::new();
        string_push(&mut text, ch);
        let cell = CharacterCell {
            text,
            color: fg,
            background_color: bg,
            bold: self.attr.bold,
            italics: self.attr.italics,
            underscore: self.attr.underline,
            strikethrough: self.attr.strikethrough,
        };
        let r = self.cursor_row;
        let c = self.cursor_col;
        let ghost cells0 = self.cells@;
        let mut row = self.take_row(r);
        let ghost row0 = row@;
        row.set(c, Some(cell));
        self.put_row(r, row);
        proof {
            assert(self.cells@ =~= cells0.update(r as int, row));
            lemma_grid_update(cells0, r as int, row);
            let e = self@;
            let e0 = old(self)@;
            assert(text@ =~= seq![ch]);
            assert(row_view(row@) =~= e0.grid[r as int].update(c as int, Some(written_cell(e0.attr, ch)))) by {
                assert forall|j: int| 0 <= j < row@.len() && j != c implies #[trigger] row_view(row@)[j]
                    == e0.grid[r as int][j] by {
                    assert(row@[j] == row0[j]);
                    assert(row_view(row0)[j] == opt_cell_view(row0[j]));
                }
            }
            assert forall|i: int| 0 <= i < e.height implies (#[trigger] e.grid[i]).len() == e.width by {
                if i != r {
                    assert(e.grid[i] == e0.grid[i]);
                }
            }
        }
    }

    /// Writes a printable character at the cursor.
    fn put_char(&mut self, ch: char)
        requires
            emu_wf(old(self)@),
            print_ok(old(self)@, ch),
        ensures
            final(self)@ == e_put_char(old(self)@, ch),
            emu_wf(final(self)@),
    {
        let w: usize = match unicode_char_width(ch) {
            Some(w) => w,
            None => 1,
        };
        if w == 0 {
            self.join_previous(ch);
            return;
        }
        if self.cursor_col >= self.width {
            self.linefeed();
            self.cursor_col = 0;
        }
        if self.cursor_row < self.height {
            self.write_cell(ch);
        }
        let target = self.cursor_col + w;
        let c = if target < self.width { target } else { self.width };
        self.cursor_col = if c >= self.width {
            if self.width > 0 { self.width - 1 } else { 0 }
        } else {
            c
        };
    }
}

/// First value of parameter group `idx`, or `default`.
fn csi_param_of(params: &Vec<Vec<u16>>, idx: usize, default: u16) -> (r: u16)
    ensures
        r as int == csi_param(params_view(params@), idx as int, default as int),
{
    if idx < params.len() && params[idx].len() > 0 && params[idx][0] != 0 {
        params[idx][0]
    } else {
        default
    }
}

fn zero_based_of(p: u16) -> (r: usize)
    ensures
        r as int == zero_based(p as int),
{
    if p == 0 {
        0
    } else {
        (p - 1) as usize
    }
}

fn count_param_of(p: u16) -> (r: usize)
    ensures
        r as nat == count_param(p as int),
        r <= 0xffff,
{
    if p < 1 {
        1
    } else {
        p as usize
    }
}

/// All parameter values of a control sequence, group after group.
fn flatten_params(params: &Vec<Vec<u16>>) -> (r: Vec<u16>)
    ensures
        r@ == params_view(params@).flatten(),
{
    let mut r: Vec<u16> = Vec::new();
    let mut i: usize = 0;
    while i < params.len()
        invariant
            i <= params.len(),
            r@ == params_view(params@).take(i as int).flatten(),
        decreases params.len() - i,
    {
        let group = &params[i];
        let ghost r0 = r@;
        let mut j: usize = 0;
        while j < group.len()
            invariant
                j <= group.len(),
                r@ == r0 + group@.take(j as int),
            decreases group.len() - j,
        {
            r.push(group[j]);
            assert(r@ =~= r0 + group@.take(j + 1));
            j = j + 1;
        }
        proof {
            let pv = params_view(params@);
            assert(pv.take(i + 1) =~= pv.take(i as int).push(group@));
            pv.take(i as int).lemma_flatten_push(group@);
            assert(group@.take(j as int) =~= group@);
        }
        i = i + 1;
    }
    assert(params_view(params@).take(i as int) =~= params_view(params@));
    r
}

impl TerminalEmulator {
    /// Cursor movement sequences (`A` to `H`, `f`, `s`, `u`).
    fn csi_move(&mut self, params: &Vec<Vec<u16>>, action: char)
        requires
            emu_wf(old(self)@),
            action == 'A' || action == 'B' || action == 'C' || action == 'D' || action == 'E'
                || action == 'F' || action == 'G' || action == 'H' || action == 'f' || action
                == 's' || action == 'u',
        ensures
            final(self)@ == e_csi(old(self)@, params_view(params@), action),
            emu_wf(final(self)@),
    {
        let p0 = csi_param_of(params, 0, 1);
        if action == 'A' {
            self.move_up(p0 as usize);
        } else if action == 'B' {
            self.move_down(p0 as usize);
        } else if action == 'C' {
            self.move_right(p0 as usize);
        } else if action == 'D' {
            self.move_left(p0 as usize);
        } else if action == 'E' {
            self.move_down(p0 as usize);
            self.carriage_return();
        } else if action == 'F' {
            self.move_up(p0 as usize);
            self.carriage_return();
        } else if action == 'G' {
            let col = zero_based_of(p0);
            self.set_cursor(self.cursor_row, col);
        } else if action == 'H' || action == 'f' {
            let row = zero_based_of(p0);
            let col = zero_based_of(csi_param_of(params, 1, 1));
            self.set_cursor(row, col);
        } else if action == 's' {
            self.saved_cursor = Some((self.cursor_row, self.cursor_col));
        } else {
            if let Some((r, c)) = self.saved_cursor {
                self.set_cursor(r, c);
            }
        }
    }

    /// Erasure, insertion and deletion sequences (`J`, `K`, `@`, `P`, `X`).
    fn csi_edit(&mut self, params: &Vec<Vec<u16>>, action: char)
        requires
            emu_wf(old(self)@),
            action == 'J' || action == 'K' || action == '@' || action == 'P' || action == 'X',
        ensures
            final(self)@ == e_csi(old(self)@, params_view(params@), action),
            emu_wf(final(self)@),
    {
        if action == 'J' {
            let mode = csi_param_of(params, 0, 0);
            if mode == 0 {
                self.clear_to_screen_end();
            } else if mode == 2 {
                self.clear_screen();
            }
        } else if action == 'K' {
            let mode = csi_param_of(params, 0, 0);
            if mode == 0 {
                self.clear_line_from_cursor();
            } else if mode == 2 {
                self.clear_line();
            }
        } else {
            let count = count_param_of(csi_param_of(params, 0, 1));
            if action == '@' {
                self.insert_blank_chars(count);
            } else if action == 'P' {
                self.delete_chars(count);
            } else {
                self.erase_chars(count);
            }
        }
    }

    /// Applies a control sequence.
    fn csi_dispatch(&mut self, params: &Vec<Vec<u16>>, action: char)
        requires
            emu_wf(old(self)@),
        ensures
            final(self)@ == e_csi(old(self)@, params_view(params@), action),
            emu_wf(final(self)@),
    {
        if action == 'A' || action == 'B' || action == 'C' || action == 'D' || action == 'E'
            || action == 'F' || action == 'G' || action == 'H' || action == 'f' || action == 's'
            || action == 'u' {
            self.csi_move(params, action);
        } else if action == 'J' || action == 'K' || action == '@' || action == 'P' || action
            == 'X' {
            self.csi_edit(params, action);
        } else if action == 'm' {
            let vals = flatten_params(params);
            self.attr.set_sgr(&vals);
        }
    }

    /// Applies a C0 control.
    fn execute(&mut self, byte: u8)
        requires
            emu_wf(old(self)@),
        ensures
            final(self)@ == e_execute(old(self)@, byte),
            emu_wf(final(self)@),
    {
        if byte == 10 || byte == 11 || byte == 12 {
            self.linefeed();
            self.carriage_return();
        } else if byte == 13 {
            self.carriage_return();
        } else if byte == 8 {
            self.backspace();
        }
    }

    /// Applies an escape sequence.
    fn esc_dispatch(&mut self, byte: u8)
        requires
            emu_wf(old(self)@),
        ensures
            final(self)@ == e_esc(old(self)@, byte),
            emu_wf(final(self)@),
    {
        if byte == 0x63 {
            self.clear_screen();
            self.attr.reset();
        }
    }

    /// Applies one action of the escape-sequence parser.
    pub(crate) fn apply(&mut self, action: &TermAction)
        requires
            emu_wf(old(self)@),
            action@ matches ActionView::Print(c) ==> print_ok(old(self)@, c),
        ensures
            final(self)@ == e_apply(old(self)@, action@),
            emu_wf(final(self)@),
    {
        match action {
            TermAction::Print(c) => self.put_char(*c),
            TermAction::Execute(b) => self.execute(*b),
            TermAction::Csi { params, action } => self.csi_dispatch(params, *action),
            TermAction::Esc(b) => self.esc_dispatch(*b),
        }
    }
}

/// The actions as values.
pub open spec fn actions_view(actions: Seq<TermAction>) -> Seq<ActionView> {
    Seq::new(actions.len(), |i: int| actions[i]@)
}

/// The cell that marks the cursor in a snapshot: a blank in reversed
/// default colors.
pub open spec fn cursor_cell() -> CellView {
    CellView {
        text: " "@,
        color: "background"@,
        background_color: "foreground"@,
        bold: false,
        italics: false,
        underscore: false,
        strikethrough: false,
    }
}

/// The occupied cells of a row, by column.
pub open spec fn row_cells(row: Seq<Option<CellView>>) -> Map<usize, CellView> {
    Map::new(|c: usize| c < row.len() && row[c as int] is Some, |c: usize| row[c as int]->0)
}

/// Snapshot of the screen: for every line, its occupied cells by column,
/// with the cursor cell at the cursor position.
pub open spec fn snapshot(e: EmuView) -> Map<usize, Map<usize, CellView>> {
    Map::new(
        |r: usize| r < e.height || r == e.cursor_row,
        |r: usize|
            if r == e.cursor_row {
                (if r < e.height { row_cells(e.grid[r as int]) } else { Map::empty() }).insert(
                    e.cursor_col as usize,
                    cursor_cell(),
                )
            } else {
                row_cells(e.grid[r as int])
            },
    )
}

/// A line of a frame buffer as a map of cell values.
pub open spec fn line_view(line: BTreeMap<usize, CharacterCell>) -> Map<usize, CellView> {
    Map::new(|c: usize| line@.contains_key(c), |c: usize| line@[c]@)
}

/// A frame buffer as a map of lines of cell values.
pub open spec fn buffer_view(b: BTreeMap<usize, BTreeMap<usize, CharacterCell>>) -> Map<
    usize,
    Map<usize, CellView>,
> {
    Map::new(|r: usize| b@.contains_key(r), |r: usize| line_view(b@[r]))
}

/// Every frame shows the cursor: the snapshot of a screen holds the cursor
/// cell at the cursor's position.
pub proof fn law_snapshot_shows_cursor(e: EmuView)
    requires
        emu_wf(e),
    ensures
        snapshot(e).contains_key(e.cursor_row as usize),
        snapshot(e)[e.cursor_row as usize].contains_key(e.cursor_col as usize),
        snapshot(e)[e.cursor_row as usize][e.cursor_col as usize] == cursor_cell(),
{
}

/// The line under the cursor with its last `n` cells emptied.
pub open spec fn line_without_tail(e: EmuView, n: nat) -> Seq<Option<CellView>> {
    Seq::new(e.width, |j: int| if j + n < e.width { e.grid[e.cursor_row as int][j] } else { None })
}

/// Inserting blanks and then deleting as many characters at the cursor gives
/// the line back, except that its last cells are left empty: as many as
/// were inserted (no more than fit after the cursor). Nothing else changes.
pub proof fn law_insert_then_delete(e: EmuView, count: nat)
    requires
        emu_wf(e),
    ensures
        ({
            let n = edit_span(e, count);
            let f = e_delete_chars(e_insert_blank_chars(e, count), count);
            if n == 0 {
                f == e
            } else {
                f == EmuView { grid: e.grid.update(e.cursor_row as int, line_without_tail(e, n)), ..e }
            }
        }),
{
    let n = edit_span(e, count);
    let g = e_insert_blank_chars(e, count);
    assert(edit_span(g, count) == n);
    if n > 0 {
        let f = e_delete_chars(g, count);
        let r = e.cursor_row as int;
        assert(f.grid[r] =~= line_without_tail(e, n));
        assert(f.grid =~= e.grid.update(r, line_without_tail(e, n)));
    }
}

/// The same through control sequences: `CSI n @` followed by `CSI n P` (an
/// omitted or zero count meaning 1) gives the line under the cursor back,
/// except that its last cells are left empty, as many as were inserted.
pub proof fn law_insert_then_delete_sequences(e: EmuView, params: Seq<Seq<u16>>)
    requires
        emu_wf(e),
    ensures
        ({
            let count = count_param(csi_param(params, 0, 1));
            let n = edit_span(e, count);
            let f = e_apply_all(
                e,
                seq![ActionView::Csi { params, action: '@' }, ActionView::Csi { params, action: 'P' }],
            );
            if n == 0 {
                f == e
            } else {
                f == EmuView { grid: e.grid.update(e.cursor_row as int, line_without_tail(e, n)), ..e }
            }
        }),
{
    let count = count_param(csi_param(params, 0, 1));
    law_insert_then_delete(e, count);
    let acts = seq![ActionView::Csi { params, action: '@' }, ActionView::Csi { params, action: 'P' }];
    let g = e_apply(e, acts[0]);
    assert(acts.drop_first() =~= seq![ActionView::Csi { params, action: 'P' }]);
    assert(acts.drop_first().drop_first() =~= Seq::<ActionView>::empty());
    assert(e_apply_all(e, acts) == e_apply_all(g, acts.drop_first()));
    assert(e_apply_all(g, acts.drop_first()) == e_apply_all(e_apply(g, acts[1]), acts.drop_first().drop_first()));
}

/// No action moves the cursor below the last line of a screen that has
/// lines.
pub proof fn lemma_apply_keeps_cursor_row(e: EmuView, a: ActionView)
    requires
        e.cursor_row < e.height,
    ensures
        e_apply(e, a).cursor_row < e.height,
{
}

/// Erasing to the end of the line (`CSI K`, `CSI 0 K`): every cell of the
/// cursor's line at or right of the cursor becomes empty, the cells left of
/// it and every other line stay as they were, and the cursor does not move.
pub proof fn law_erase_to_line_end(e: EmuView, params: Seq<Seq<u16>>)
    requires
        emu_wf(e),
        e.cursor_row < e.height,
        csi_param(params, 0, 0) == 0,
    ensures
        ({
            let f = e_apply(e, ActionView::Csi { params, action: 'K' });
            let r = e.cursor_row as int;
            &&& f.cursor_row == e.cursor_row && f.cursor_col == e.cursor_col
            &&& f.grid.len() == e.grid.len()
            &&& f.grid[r].len() == e.width
            &&& forall|j: int| e.cursor_col <= j < e.width ==> (#[trigger] f.grid[r][j]) is None
            &&& forall|j: int| 0 <= j < e.cursor_col && j < e.width ==> #[trigger] f.grid[r][j] == e.grid[r][j]
            &&& forall|i: int| 0 <= i < e.height && i != r ==> #[trigger] f.grid[i] == e.grid[i]
        }),
{
}

/// Erasing the whole line (`CSI 2 K`): every cell of the cursor's line
/// becomes empty, and the other lines and the cursor stay as they were.
pub proof fn law_erase_line(e: EmuView, params: Seq<Seq<u16>>)
    requires
        emu_wf(e),
        e.cursor_row < e.height,
        csi_param(params, 0, 0) == 2,
    ensures
        ({
            let f = e_apply(e, ActionView::Csi { params, action: 'K' });
            let r = e.cursor_row as int;
            &&& f.cursor_row == e.cursor_row && f.cursor_col == e.cursor_col
            &&& f.grid.len() == e.grid.len()
            &&& f.grid[r].len() == e.width
            &&& forall|j: int| 0 <= j < e.width ==> (#[trigger] f.grid[r][j]) is None
            &&& forall|i: int| 0 <= i < e.height && i != r ==> #[trigger] f.grid[i] == e.grid[i]
        }),
{
}

/// Erasing to the end of the screen (`CSI J`, `CSI 0 J`): the cursor's line
/// is emptied from the cursor on and every line below it entirely; the
/// lines above it, the cells left of the cursor and the cursor stay.
pub proof fn law_erase_below(e: EmuView, params: Seq<Seq<u16>>)
    requires
        emu_wf(e),
        e.cursor_row < e.height,
        csi_param(params, 0, 0) == 0,
    ensures
        ({
            let f = e_apply(e, ActionView::Csi { params, action: 'J' });
            let r = e.cursor_row as int;
            &&& f.cursor_row == e.cursor_row && f.cursor_col == e.cursor_col
            &&& f.grid.len() == e.grid.len()
            &&& forall|i: int, j: int| r < i < e.height && 0 <= j < e.width ==> (#[trigger] f.grid[i][j]) is None
            &&& forall|j: int| e.cursor_col <= j < e.width ==> (#[trigger] f.grid[r][j]) is None
            &&& forall|j: int| 0 <= j < e.cursor_col && j < e.width ==> #[trigger] f.grid[r][j] == e.grid[r][j]
            &&& forall|i: int| 0 <= i < r ==> #[trigger] f.grid[i] == e.grid[i]
        }),
{
}

/// Erasing the screen (`CSI 2 J`): every cell becomes empty and the cursor
/// goes to the top left corner.
pub proof fn law_erase_screen(e: EmuView, params: Seq<Seq<u16>>)
    requires
        emu_wf(e),
        csi_param(params, 0, 0) == 2,
    ensures
        ({
            let f = e_apply(e, ActionView::Csi { params, action: 'J' });
            &&& f.cursor_row == 0 && f.cursor_col == 0
            &&& f.grid.len() == e.height
            &&& forall|i: int, j: int| 0 <= i < e.height && 0 <= j < e.width ==> (#[trigger] f.grid[i][j]) is None
        }),
{
}

/// A foreground color and then a character: after `CSI n m` with
/// `30 <= n <= 37` (on a rendition that is neither bold nor inverse), the
/// next character written at the cursor is drawn in palette color `n - 30`
/// on the background it had before.
pub proof fn law_foreground_then_print(e: EmuView, n: u16, c: char)
    requires
        emu_wf(e),
        30 <= n <= 37,
        !e.attr.bold,
        !e.attr.inverse,
        e.cursor_row < e.height,
        e.cursor_col < e.width,
        advance_width(c) > 0,
    ensures
        ({
            let f = e_apply_all(
                e,
                seq![ActionView::Csi { params: seq![seq![n]], action: 'm' }, ActionView::Print(c)],
            );
            f.grid[e.cursor_row as int][e.cursor_col as int] matches Some(cell) && cell.text == seq![c]
                && cell.color == color_class((n - 30) as nat) && cell.background_color == e.attr.bg
        }),
{
    law_sgr_basic_colors(e.attr, n);
    let acts = seq![ActionView::Csi { params: seq![seq![n]], action: 'm' }, ActionView::Print(c)];
    let g = e_apply(e, acts[0]);
    assert(seq![seq![n]].flatten() =~= seq![n]) by {
        assert(seq![seq![n]].drop_first() =~= Seq::<Seq<u16>>::empty());
        assert(seq![seq![n]].flatten() == seq![n] + Seq::<Seq<u16>>::empty().flatten());
    }
    assert(acts.drop_first() =~= seq![ActionView::Print(c)]);
    assert(acts.drop_first().drop_first() =~= Seq::<ActionView>::empty());
    assert(e_apply_all(e, acts) == e_apply_all(g, acts.drop_first()));
    assert(e_apply_all(g, acts.drop_first()) == e_apply_all(e_apply(g, acts[1]), acts.drop_first().drop_first()));
}

/// No action changes the size of the screen.
pub proof fn lemma_apply_keeps_size(e: EmuView, a: ActionView)
    ensures
        e_apply(e, a).width == e.width,
        e_apply(e, a).height == e.height,
{
}

/// The screen keeps its size whatever the output: replaying any actions
/// leaves its width and height as they were.
pub proof fn law_screen_keeps_size(e: EmuView, actions: Seq<ActionView>)
    ensures
        e_apply_all(e, actions).width == e.width,
        e_apply_all(e, actions).height == e.height,
    decreases actions.len(),
{
    if actions.len() > 0 {
        lemma_apply_keeps_size(e, actions[0]);
        law_screen_keeps_size(e_apply(e, actions[0]), actions.drop_first());
    }
}

/// Whether an action is the control sequence that saves the cursor.
pub open spec fn saves_cursor(a: ActionView) -> bool {
    a matches ActionView::Csi { action, .. } && action == 's'
}

/// An action other than saving the cursor keeps the saved position and the
/// size of the screen.
proof fn lemma_apply_keeps_saved(e: EmuView, a: ActionView)
    requires
        !saves_cursor(a),
    ensures
        e_apply(e, a).saved_cursor == e.saved_cursor,
        e_apply(e, a).width == e.width,
        e_apply(e, a).height == e.height,
{
}

proof fn lemma_apply_all_keeps_saved(e: EmuView, actions: Seq<ActionView>)
    requires
        forall|i: int| 0 <= i < actions.len() ==> !saves_cursor(#[trigger] actions[i]),
    ensures
        e_apply_all(e, actions).saved_cursor == e.saved_cursor,
        e_apply_all(e, actions).width == e.width,
        e_apply_all(e, actions).height == e.height,
    decreases actions.len(),
{
    if actions.len() > 0 {
        assert(!saves_cursor(actions[0]));
        lemma_apply_keeps_saved(e, actions[0]);
        let rest = actions.drop_first();
        assert forall|i: int| 0 <= i < rest.len() implies !saves_cursor(#[trigger] rest[i]) by {
            assert(rest[i] == actions[i + 1]);
        }
        lemma_apply_all_keeps_saved(e_apply(e, actions[0]), rest);
    }
}

/// Saving and restoring the cursor: after `CSI s`, any output that does not
/// save the cursor again, and `CSI u`, the cursor is back where it was
/// saved.
pub proof fn law_restore_saved_cursor(
    e: EmuView,
    save_params: Seq<Seq<u16>>,
    mid: Seq<ActionView>,
    restore_params: Seq<Seq<u16>>,
)
    requires
        emu_wf(e),
        forall|i: int| 0 <= i < mid.len() ==> !saves_cursor(#[trigger] mid[i]),
    ensures
        ({
            let saved = e_apply(e, ActionView::Csi { params: save_params, action: 's' });
            let m = e_apply_all(saved, mid);
            let restored = e_apply(m, ActionView::Csi { params: restore_params, action: 'u' });
            restored.cursor_row == e.cursor_row && restored.cursor_col == e.cursor_col
        }),
{
    let saved = e_apply(e, ActionView::Csi { params: save_params, action: 's' });
    lemma_apply_all_keeps_saved(saved, mid);
}

/// Restoring the cursor when it was never saved changes nothing: from a
/// screen with no saved position, after any output that does not save the
/// cursor, `CSI u` leaves the screen as it is.
pub proof fn law_restore_without_save(e: EmuView, mid: Seq<ActionView>, restore_params: Seq<Seq<u16>>)
    requires
        e.saved_cursor is None,
        forall|i: int| 0 <= i < mid.len() ==> !saves_cursor(#[trigger] mid[i]),
    ensures
        ({
            let m = e_apply_all(e, mid);
            e_apply(m, ActionView::Csi { params: restore_params, action: 'u' }) == m
        }),
{
    lemma_apply_all_keeps_saved(e, mid);
}

fn cursor_cell_exec() -> (c: CharacterCell)
    ensures
        c@ == cursor_cell(),
{
    CharacterCell {
        text: " ".to_owned(),
        color: "background".to_owned(),
        background_color: "foreground".to_owned(),
        bold: false,
        italics: false,
        underscore: false,
        strikethrough: false,
    }
}

impl TerminalEmulator {
    /// Applies the actions in order.
    pub(crate) fn apply_all(&mut self, actions: &Vec<TermAction>)
        requires
            emu_wf(old(self)@),
            actions_ok(old(self)@, actions_view(actions@)),
        ensures
            final(self)@ == e_apply_all(old(self)@, actions_view(actions@)),
            emu_wf(final(self)@),
            final(self).width == old(self).width,
            final(self).height == old(self).height,
    {
        let ghost av = actions_view(actions@);
        assert(av.skip(0) =~= av);
        let mut i: usize = 0;
        while i < actions.len()
            invariant
                i <= actions.len(),
                av == actions_view(actions@),
                emu_wf(self@),
                self.width == old(self).width,
                self.height == old(self).height,
                actions_ok(old(self)@, av),
                e_apply_all(self@, av.skip(i as int)) == e_apply_all(old(self)@, av),
            decreases actions.len() - i,
        {
            let ghost before = self@;
            proof {
                assert(av[i as int] == actions[i as int]@);
                lemma_apply_keeps_size(before, av[i as int]);
            }
            self.apply(&actions[i]);
            proof {
                assert(av.skip(i as int).drop_first() =~= av.skip(i + 1));
                assert(av.skip(i as int)[0] == av[i as int]);
            }
            i = i + 1;
        }
        assert(av.skip(i as int) =~= Seq::<ActionView>::empty());
    }

    /// The occupied cells of row `r` as a map by column, with the cursor cell
    /// when the cursor is on that row.
    fn line_snapshot(&self, r: usize) -> (line: BTreeMap<usize, CharacterCell>)
        requires
            emu_wf(self@),
            r < self.height,
        ensures
            line_view(line) == snapshot(self@)[r],
    {
        proof {
            lemma_usize_keys_ordered();
        }
        let row = &self.cells[r];
        let ghost rv = self@.grid[r as int];
        let mut line: BTreeMap<usize, CharacterCell> = BTreeMap::new();
        let mut c: usize = 0;
        while c < row.len()
            invariant
                c <= row@.len(),
                row@.len() == self.width,
                row == self.cells@[r as int],
                rv == row_view(row@),
                line_view(line) == Map::new(
                    |k: usize| k < c && rv[k as int] is Some,
                    |k: usize| rv[k as int]->0,
                ),
            decreases row.len() - c,
        {
            let ghost before = line;
            assert(rv[c as int] == opt_cell_view(row@[c as int]));
            match &row[c] {
                Some(cell) => {
                    line.insert(c, cell.clone());
                    assert(line@ == before@.insert(c, *cell));
                },
                None => {},
            }
            assert forall|k: usize| #[trigger] line_view(line).contains_key(k) <==> (k < c + 1
                && rv[k as int] is Some) by {
                assert(line_view(before).contains_key(k) <==> before@.contains_key(k));
            }
            assert forall|k: usize| #[trigger] line_view(line).contains_key(k) implies line_view(line)[k]
                == rv[k as int]->0 by {
                if k != c {
                    assert(line@[k] == before@[k]);
                    assert(line_view(before)[k] == before@[k]@);
                }
            }
            assert(line_view(line) =~= Map::new(
                |k: usize| k < c + 1 && rv[k as int] is Some,
                |k: usize| rv[k as int]->0,
            ));
            c = c + 1;
        }
        if r == self.cursor_row {
            line.insert(self.cursor_col, cursor_cell_exec());
        }
        assert(line_view(line) =~= snapshot(self@)[r]);
        line
    }

    /// Snapshot of the screen, as a map from line to the occupied cells of
    /// the line by column, with the cursor drawn as a blank in reversed colors.
    pub(crate) fn buffer(&self) -> (b: BTreeMap<usize, BTreeMap<usize, CharacterCell>>)
        requires
            emu_wf(self@),
        ensures
            buffer_view(b) == snapshot(self@),
    {
        proof {
            lemma_usize_keys_ordered();
        }
        let mut buffer: BTreeMap<usize, BTreeMap<usize, CharacterCell>> = BTreeMap::new();
        let mut r: usize = 0;
        while r < self.height
            invariant
                r <= self.height,
                emu_wf(self@),
                buffer_view(buffer) == Map::new(
                    |k: usize| k < r,
                    |k: usize| snapshot(self@)[k],
                ),
            decreases self.height - r,
        {
            let line = self.line_snapshot(r);
            let ghost before = buffer;
            buffer.insert(r, line);
            assert(buffer@ == before@.insert(r, line));
            assert forall|k: usize| #[trigger] buffer_view(buffer).contains_key(k) <==> k < r + 1 by {
                assert(buffer_view(before).contains_key(k) <==> before@.contains_key(k));
            }
            assert forall|k: usize| #[trigger] buffer_view(buffer).contains_key(k) implies buffer_view(buffer)[k]
                == snapshot(self@)[k] by {
                if k != r {
                    assert(buffer@[k] == before@[k]);
                    assert(buffer_view(before)[k] == line_view(before@[k]));
                }
            }
            assert(buffer_view(buffer) =~= Map::new(
                |k: usize| k < r + 1,
                |k: usize| snapshot(self@)[k],
            ));
            r = r + 1;
        }
        let ghost before = buffer;
        if self.cursor_row >= self.height {
            let mut line: BTreeMap<usize, CharacterCell> = BTreeMap::new();
            line.insert(self.cursor_col, cursor_cell_exec());
            assert(line_view(line) =~= snapshot(self@)[self.cursor_row]);
            buffer.insert(self.cursor_row, line);
            assert(buffer@ == before@.insert(self.cursor_row, line));
        }
        assert forall|k: usize| #[trigger] buffer_view(buffer).contains_key(k) <==> snapshot(self@).contains_key(k) by {
            assert(buffer_view(before).contains_key(k) <==> before@.contains_key(k));
        }
        assert forall|k: usize| #[trigger] buffer_view(buffer).contains_key(k) implies buffer_view(buffer)[k]
            == snapshot(self@)[k] by {
            if k != self.cursor_row || self.cursor_row < self.height {
                assert(buffer@[k] == before@[k]);
                assert(buffer_view(before)[k] == line_view(before@[k]));
            }
        }
        assert(buffer_view(buffer) =~= snapshot(self@));
        buffer
    }
}

} // verus!
