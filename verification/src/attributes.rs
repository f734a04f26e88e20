//! Graphic rendition state of the terminal (SGR) and the color names it
//! produces.

use vstd::prelude::*;

use crate::text::{decimal, hex2, push_decimal, push_hex2, push_str};

verus! {

/// `"color"` followed by the decimal index: the CSS class of a palette color.
pub open spec fn color_class(idx: nat) -> Seq<char> {
    "color"@ + decimal(idx)
}

/// Class of a basic ANSI color: the index is capped at 7 and moved to the
/// bright half of the palette when `bright` holds.
pub open spec fn spec_ansi_color_class(idx: u8, bright: bool) -> Seq<char> {
    let base: nat = if idx > 7 { 7 } else { idx as nat };
    color_class(if bright { base + 8 } else { base })
}

/// `v` clamped into `0..=255`.
pub open spec fn clamp_byte(v: int) -> u8 {
    (if v < 0 { 0 } else if v > 255 { 255 } else { v }) as u8
}

/// Intensity of one component of the 6x6x6 color cube.
pub open spec fn cube_component(v: int) -> u8 {
    (if v == 0 { 0 } else { 55 + 40 * v }) as u8
}

/// `#rrggbb` in lowercase hexadecimal.
pub open spec fn css_rgb(r: u8, g: u8, b: u8) -> Seq<char> {
    "#"@ + hex2(r) + hex2(g) + hex2(b)
}

/// The color of index `idx` (clamped to `0..=255`) of the xterm 256-color
/// palette: a palette class for the first 16, a color of the 6x6x6 cube,
/// or a gray level.
pub open spec fn spec_color_from_256(idx: i64) -> Seq<char> {
    let i = clamp_byte(idx as int);
    if i <= 15 {
        spec_ansi_color_class(if i > 7 { 7 } else { i }, i >= 8)
    } else if i <= 231 {
        let c = i - 16;
        css_rgb(cube_component(c / 36), cube_component((c / 6) % 6), cube_component(c % 6))
    } else {
        let v = (8 + 10 * (i - 232)) as u8;
        css_rgb(v, v, v)
    }
}

/// A 24-bit color from three components, each clamped to `0..=255`.
pub open spec fn spec_rgb_color(r: i64, g: i64, b: i64) -> Seq<char> {
    css_rgb(clamp_byte(r as int), clamp_byte(g as int), clamp_byte(b as int))
}

/// Appends `"color"` and the decimal index.
fn push_color_class(s: &mut String, idx: u64)
    ensures
        final(s)@ == old(s)@ + color_class(idx as nat),
{
    push_str(s, "color");
    push_decimal(s, idx as u128);
    assert(final(s)@ =~= old(s)@ + color_class(idx as nat));
}

pub fn ansi_color_class(idx: u8, bright: bool) -> (r: String)
    ensures
        r@ == spec_ansi_color_class(idx, bright),
{
    let base: u8 = if idx > 7 { 7 } else { idx };
    let color_idx: u8 = if bright { base + 8 } else { base };
    let mut s = String::new();
    push_color_class(&mut s, color_idx as u64);
    assert(s@ =~= spec_ansi_color_class(idx, bright));
    s
}

fn clamp(v: i64) -> (r: u8)
    ensures
        r == clamp_byte(v as int),
{
    if v < 0 {
        0
    } else if v > 255 {
        255
    } else {
        v as u8
    }
}

fn push_css_rgb(s: &mut String, r: u8, g: u8, b: u8)
    ensures
        final(s)@ == old(s)@ + css_rgb(r, g, b),
{
    push_str(s, "#");
    push_hex2(s, r);
    push_hex2(s, g);
    push_hex2(s, b);
    assert(final(s)@ =~= old(s)@ + css_rgb(r, g, b));
}

fn cube(v: u8) -> (r: u8)
    requires
        v <= 5,
    ensures
        r == cube_component(v as int),
{
    if v == 0 {
        0
    } else {
        55 + 40 * v
    }
}

pub fn color_from_256(idx: i64) -> (r: String)
    ensures
        r@ == spec_color_from_256(idx),
{
    let i = clamp(idx);
    if i <= 15 {
        ansi_color_class(if i > 7 { 7 } else { i }, i >= 8)
    } else if i <= 231 {
        let c = i - 16;
        let mut s = String::new();
        push_css_rgb(&mut s, cube(c / 36), cube((c / 6) % 6), cube(c % 6));
        assert(s@ =~= spec_color_from_256(idx));
        s
    } else {
        let v: u8 = 8 + 10 * (i - 232);
        let mut s = String::new();
        push_css_rgb(&mut s, v, v, v);
        assert(s@ =~= spec_color_from_256(idx));
        s
    }
}

pub fn rgb_color(r: i64, g: i64, b: i64) -> (res: String)
    ensures
        res@ == spec_rgb_color(r, g, b),
{
    let mut s = String::new();
    push_css_rgb(&mut s, clamp(r), clamp(g), clamp(b));
    assert(s@ =~= spec_rgb_color(r, g, b));
    s
}

} // verus!

verus! {

/// Current graphic rendition: colors and text style applied to the next
/// characters written to the screen.
pub(crate) struct CellAttributes {
    pub(crate) fg: String,
    pub(crate) bg: String,
    pub(crate) fg_palette: Option<u8>,
    pub(crate) fg_is_bright: bool,
    pub(crate) fg_bright_from_bold: bool,
    pub(crate) bg_palette: Option<u8>,
    pub(crate) bg_is_bright: bool,
    pub(crate) bold: bool,
    pub(crate) italics: bool,
    pub(crate) underline: bool,
    pub(crate) strikethrough: bool,
    pub(crate) inverse: bool,
}

/// The mathematical value of [`CellAttributes`].
pub struct AttrView {
    pub fg: Seq<char>,
    pub bg: Seq<char>,
    pub fg_palette: Option<u8>,
    pub fg_is_bright: bool,
    pub fg_bright_from_bold: bool,
    pub bg_palette: Option<u8>,
    pub bg_is_bright: bool,
    pub bold: bool,
    pub italics: bool,
    pub underline: bool,
    pub strikethrough: bool,
    pub inverse: bool,
}

impl CellAttributes {
    pub(crate) open spec fn view(&self) -> AttrView {
        AttrView {
            fg: self.fg@,
            bg: self.bg@,
            fg_palette: self.fg_palette,
            fg_is_bright: self.fg_is_bright,
            fg_bright_from_bold: self.fg_bright_from_bold,
            bg_palette: self.bg_palette,
            bg_is_bright: self.bg_is_bright,
            bold: self.bold,
            italics: self.italics,
            underline: self.underline,
            strikethrough: self.strikethrough,
            inverse: self.inverse,
        }
    }
}

/// Palette indices of a rendition are base colors (at most 7).
pub open spec fn attr_wf(a: AttrView) -> bool {
    &&& a.fg_palette matches Some(i) ==> i <= 7
    &&& a.bg_palette matches Some(i) ==> i <= 7
}

/// Default rendition: default colors, no style.
pub open spec fn default_attr() -> AttrView {
    AttrView {
        fg: "foreground"@,
        bg: "background"@,
        fg_palette: None,
        fg_is_bright: false,
        fg_bright_from_bold: false,
        bg_palette: None,
        bg_is_bright: false,
        bold: false,
        italics: false,
        underline: false,
        strikethrough: false,
        inverse: false,
    }
}

/// Palette index (0..=15) of a base color and its brightness.
pub open spec fn palette_index(base: u8, bright: bool) -> nat {
    if bright { base as nat + 8 } else { base as nat }
}

/// The foreground class recomputed from the palette color, if there is one.
pub open spec fn with_fg_class(a: AttrView) -> AttrView {
    match a.fg_palette {
        Some(idx) => AttrView { fg: color_class(palette_index(idx, a.fg_is_bright)), ..a },
        None => a,
    }
}

/// Bold text shows a palette foreground in its bright variant; leaving bold
/// undoes a brightening that bold caused.
pub open spec fn bold_intensity(a: AttrView) -> AttrView {
    if a.fg_palette is Some {
        if a.bold && !a.fg_is_bright {
            with_fg_class(AttrView { fg_is_bright: true, fg_bright_from_bold: true, ..a })
        } else if !a.bold && a.fg_bright_from_bold {
            with_fg_class(AttrView { fg_is_bright: false, fg_bright_from_bold: false, ..a })
        } else {
            a
        }
    } else {
        a
    }
}

pub open spec fn cap7(idx: u8) -> u8 {
    if idx > 7 { 7 } else { idx }
}

pub open spec fn spec_set_fg_palette(a: AttrView, idx: u8, bright: bool) -> AttrView {
    bold_intensity(
        with_fg_class(
            AttrView {
                fg_palette: Some(cap7(idx)),
                fg_is_bright: bright,
                fg_bright_from_bold: false,
                ..a
            },
        ),
    )
}

pub open spec fn spec_set_bg_palette(a: AttrView, idx: u8, bright: bool) -> AttrView {
    AttrView {
        bg_palette: Some(cap7(idx)),
        bg_is_bright: bright,
        bg: color_class(palette_index(cap7(idx), bright)),
        ..a
    }
}

pub open spec fn spec_set_fg_custom(a: AttrView, css: Seq<char>) -> AttrView {
    AttrView { fg_palette: None, fg_is_bright: false, fg_bright_from_bold: false, fg: css, ..a }
}

pub open spec fn spec_set_bg_custom(a: AttrView, css: Seq<char>) -> AttrView {
    AttrView { bg_palette: None, bg_is_bright: false, bg: css, ..a }
}

/// A color selected by an extended SGR parameter (`38;5;n` or `48;5;n`):
/// the first 16 entries select the palette.
pub open spec fn spec_fg_256(a: AttrView, idx: u16) -> AttrView {
    if idx < 16 {
        spec_set_fg_palette(a, (idx % 8) as u8, idx >= 8)
    } else {
        spec_set_fg_custom(a, spec_color_from_256(idx as i64))
    }
}

pub open spec fn spec_bg_256(a: AttrView, idx: u16) -> AttrView {
    if idx < 16 {
        spec_set_bg_palette(a, (idx % 8) as u8, idx >= 8)
    } else {
        spec_set_bg_custom(a, spec_color_from_256(idx as i64))
    }
}

/// Effect of an SGR parameter that stands alone (all but 38 and 48).
pub open spec fn sgr_single(a: AttrView, v: u16) -> AttrView {
    if v == 0 {
        default_attr()
    } else if v == 1 {
        bold_intensity(AttrView { bold: true, ..a })
    } else if v == 3 {
        AttrView { italics: true, ..a }
    } else if v == 4 {
        AttrView { underline: true, ..a }
    } else if v == 7 {
        AttrView { inverse: true, ..a }
    } else if v == 9 {
        AttrView { strikethrough: true, ..a }
    } else if v == 22 {
        bold_intensity(AttrView { bold: false, ..a })
    } else if v == 23 {
        AttrView { italics: false, ..a }
    } else if v == 24 {
        AttrView { underline: false, ..a }
    } else if v == 27 {
        AttrView { inverse: false, ..a }
    } else if v == 29 {
        AttrView { strikethrough: false, ..a }
    } else {
        sgr_color(a, v)
    }
}

/// Effect of a basic color parameter (30-37, 39, 40-47, 49, 90-97, 100-107).
pub open spec fn sgr_color(a: AttrView, v: u16) -> AttrView {
    if 30 <= v <= 37 {
        spec_set_fg_palette(a, (v - 30) as u8, false)
    } else if 90 <= v <= 97 {
        spec_set_fg_palette(a, (v - 90) as u8, true)
    } else if v == 39 {
        spec_set_fg_custom(a, "foreground"@)
    } else if 40 <= v <= 47 {
        spec_set_bg_palette(a, (v - 40) as u8, false)
    } else if 100 <= v <= 107 {
        spec_set_bg_palette(a, (v - 100) as u8, true)
    } else if v == 49 {
        spec_set_bg_custom(a, "background"@)
    } else {
        a
    }
}

/// Effect of an extended color parameter (38 for the foreground, 48 for the
/// background) at position `i`: `;5;n` selects from the 256-color palette,
/// `;2;r;g;b` a 24-bit color. Returns the position of the next parameter.
pub open spec fn sgr_extended(a: AttrView, p: Seq<u16>, i: int) -> (AttrView, int) {
    let fg = p[i] == 38;
    if i + 1 < p.len() && p[i + 1] == 5 {
        if i + 2 < p.len() {
            (if fg { spec_fg_256(a, p[i + 2]) } else { spec_bg_256(a, p[i + 2]) }, i + 3)
        } else {
            (a, i + 1)
        }
    } else if i + 1 < p.len() && p[i + 1] == 2 {
        if i + 4 < p.len() {
            let css = spec_rgb_color(p[i + 2] as i64, p[i + 3] as i64, p[i + 4] as i64);
            (if fg { spec_set_fg_custom(a, css) } else { spec_set_bg_custom(a, css) }, i + 5)
        } else {
            (a, i + 1)
        }
    } else {
        (a, i + 1)
    }
}

/// One step of SGR processing at position `i` of the parameters: the new
/// rendition and the position of the next parameter to read.
pub open spec fn sgr_step(a: AttrView, p: Seq<u16>, i: int) -> (AttrView, int) {
    if p[i] == 38 || p[i] == 48 {
        sgr_extended(a, p, i)
    } else {
        (sgr_single(a, p[i]), i + 1)
    }
}

/// The rendition after applying the SGR parameters from position `i` on.
pub open spec fn sgr_from(a: AttrView, p: Seq<u16>, i: int) -> AttrView
    decreases p.len() - i,
{
    if i < 0 || i >= p.len() {
        a
    } else {
        let (b, next) = sgr_step(a, p, i);
        if next <= i {
            b
        } else {
            sgr_from(b, p, next)
        }
    }
}

/// SGR (`CSI ... m`): no parameter resets the rendition; otherwise every
/// parameter is applied in order.
pub open spec fn spec_set_sgr(a: AttrView, p: Seq<u16>) -> AttrView {
    if p.len() == 0 {
        default_attr()
    } else {
        sgr_from(a, p, 0)
    }
}

impl CellAttributes {
    pub(crate) fn default() -> (r: Self)
        ensures
            r@ == default_attr(),
    {
        CellAttributes {
            fg: "foreground".to_owned(),
            bg: "background".to_owned(),
            fg_palette: None,
            fg_is_bright: false,
            fg_bright_from_bold: false,
            bg_palette: None,
            bg_is_bright: false,
            bold: false,
            italics: false,
            underline: false,
            strikethrough: false,
            inverse: false,
        }
    }

    pub(crate) fn reset(&mut self)
        ensures
            final(self)@ == default_attr(),
    {
        *self = CellAttributes::default();
    }

    fn update_fg_class(&mut self)
        requires
            old(self).fg_palette matches Some(i) ==> i <= 7,
        ensures
            final(self)@ == with_fg_class(old(self)@),
    {
        if let Some(idx) = self.fg_palette {
            let class_idx: u8 = if self.fg_is_bright { idx + 8 } else { idx };
            let mut s = String::new();
            push_color_class(&mut s, class_idx as u64);
            assert(s@ =~= color_class(palette_index(idx, self.fg_is_bright)));
            self.fg = s;
        }
    }

    fn apply_bold_intensity(&mut self)
        requires
            old(self).fg_palette matches Some(i) ==> i <= 7,
        ensures
            final(self)@ == bold_intensity(old(self)@),
    {
        if self.fg_palette.is_some() {
            if self.bold && !self.fg_is_bright {
                self.fg_is_bright = true;
                self.fg_bright_from_bold = true;
                self.update_fg_class();
            } else if !self.bold && self.fg_bright_from_bold {
                self.fg_is_bright = false;
                self.fg_bright_from_bold = false;
                self.update_fg_class();
            }
        }
    }

    pub(crate) fn set_fg_palette(&mut self, idx: u8, bright: bool)
        ensures
            final(self)@ == spec_set_fg_palette(old(self)@, idx, bright),
    {
        let base: u8 = if idx > 7 { 7 } else { idx };
        self.fg_palette = Some(base);
        self.fg_is_bright = bright;
        self.fg_bright_from_bold = false;
        self.update_fg_class();
        self.apply_bold_intensity();
    }

    pub(crate) fn set_bg_palette(&mut self, idx: u8, bright: bool)
        ensures
            final(self)@ == spec_set_bg_palette(old(self)@, idx, bright),
    {
        let base: u8 = if idx > 7 { 7 } else { idx };
        self.bg_palette = Some(base);
        self.bg_is_bright = bright;
        let class_idx: u8 = if bright { base + 8 } else { base };
        let mut s = String::new();
        push_color_class(&mut s, class_idx as u64);
        self.bg = s;
    }

    pub(crate) fn set_fg_default(&mut self)
        ensures
            final(self)@ == spec_set_fg_custom(old(self)@, "foreground"@),
    {
        self.fg_palette = None;
        self.fg_is_bright = false;
        self.fg_bright_from_bold = false;
        self.fg = "foreground".to_owned();
    }

    pub(crate) fn set_bg_default(&mut self)
        ensures
            final(self)@ == spec_set_bg_custom(old(self)@, "background"@),
    {
        self.bg_palette = None;
        self.bg_is_bright = false;
        self.bg = "background".to_owned();
    }

    pub(crate) fn set_fg_custom(&mut self, css: String)
        ensures
            final(self)@ == spec_set_fg_custom(old(self)@, css@),
    {
        self.fg_palette = None;
        self.fg_is_bright = false;
        self.fg_bright_from_bold = false;
        self.fg = css;
    }

    pub(crate) fn set_bg_custom(&mut self, css: String)
        ensures
            final(self)@ == spec_set_bg_custom(old(self)@, css@),
    {
        self.bg_palette = None;
        self.bg_is_bright = false;
        self.bg = css;
    }

    fn set_fg_256(&mut self, idx: u16)
        requires
            attr_wf(old(self)@),
        ensures
            final(self)@ == spec_fg_256(old(self)@, idx),
            attr_wf(final(self)@),
    {
        if idx < 16 {
            self.set_fg_palette((idx % 8) as u8, idx >= 8);
        } else {
            self.set_fg_custom(color_from_256(idx as i64));
        }
    }

    fn set_bg_256(&mut self, idx: u16)
        requires
            attr_wf(old(self)@),
        ensures
            final(self)@ == spec_bg_256(old(self)@, idx),
            attr_wf(final(self)@),
    {
        if idx < 16 {
            self.set_bg_palette((idx % 8) as u8, idx >= 8);
        } else {
            self.set_bg_custom(color_from_256(idx as i64));
        }
    }

    fn sgr_color(&mut self, v: u16)
        requires
            attr_wf(old(self)@),
        ensures
            final(self)@ == sgr_color(old(self)@, v),
            attr_wf(final(self)@),
    {
        if 30 <= v && v <= 37 {
            self.set_fg_palette((v - 30) as u8, false);
        } else if 90 <= v && v <= 97 {
            self.set_fg_palette((v - 90) as u8, true);
        } else if v == 39 {
            self.set_fg_default();
        } else if 40 <= v && v <= 47 {
            self.set_bg_palette((v - 40) as u8, false);
        } else if 100 <= v && v <= 107 {
            self.set_bg_palette((v - 100) as u8, true);
        } else if v == 49 {
            self.set_bg_default();
        }
    }

    fn sgr_single(&mut self, v: u16)
        requires
            attr_wf(old(self)@),
        ensures
            final(self)@ == sgr_single(old(self)@, v),
            attr_wf(final(self)@),
    {
        if v == 0 {
            self.reset();
        } else if v == 1 {
            self.bold = true;
            self.apply_bold_intensity();
        } else if v == 3 {
            self.italics = true;
        } else if v == 4 {
            self.underline = true;
        } else if v == 7 {
            self.inverse = true;
        } else if v == 9 {
            self.strikethrough = true;
        } else if v == 22 {
            self.bold = false;
            self.apply_bold_intensity();
        } else if v == 23 {
            self.italics = false;
        } else if v == 24 {
            self.underline = false;
        } else if v == 27 {
            self.inverse = false;
        } else if v == 29 {
            self.strikethrough = false;
        } else {
            self.sgr_color(v);
        }
    }

    fn sgr_extended(&mut self, p: &Vec<u16>, i: usize) -> (next: usize)
        requires
            i < p.len(),
            p[i as int] == 38 || p[i as int] == 48,
            attr_wf(old(self)@),
        ensures
            final(self)@ == sgr_extended(old(self)@, p@, i as int).0,
            next as int == sgr_extended(old(self)@, p@, i as int).1,
            attr_wf(final(self)@),
    {
        let fg = p[i] == 38;
        let rest = p.len() - i;
        if rest > 1 && p[i + 1] == 5 {
            if rest > 2 {
                if fg {
                    self.set_fg_256(p[i + 2]);
                } else {
                    self.set_bg_256(p[i + 2]);
                }
                return i + 3;
            }
        } else if rest > 1 && p[i + 1] == 2 {
            if rest > 4 {
                let css = rgb_color(p[i + 2] as i64, p[i + 3] as i64, p[i + 4] as i64);
                if fg {
                    self.set_fg_custom(css);
                } else {
                    self.set_bg_custom(css);
                }
                return i + 5;
            }
        }
        i + 1
    }

    /// Applies the SGR parameter at position `i` and returns the position of
    /// the next one.
    fn sgr_step(&mut self, p: &Vec<u16>, i: usize) -> (next: usize)
        requires
            i < p.len(),
            attr_wf(old(self)@),
        ensures
            final(self)@ == sgr_step(old(self)@, p@, i as int).0,
            next as int == sgr_step(old(self)@, p@, i as int).1,
            attr_wf(final(self)@),
    {
        if p[i] == 38 || p[i] == 48 {
            self.sgr_extended(p, i)
        } else {
            self.sgr_single(p[i]);
            i + 1
        }
    }

    /// Applies the parameters of an SGR sequence (`CSI ... m`).
    pub(crate) fn set_sgr(&mut self, params: &Vec<u16>)
        requires
            attr_wf(old(self)@),
        ensures
            final(self)@ == spec_set_sgr(old(self)@, params@),
            attr_wf(final(self)@),
    {
        if params.len() == 0 {
            self.reset();
            return;
        }
        let ghost start = self@;
        let mut i: usize = 0;
        while i < params.len()
            invariant
                i <= params.len(),
                attr_wf(self@),
                sgr_from(self@, params@, i as int) == sgr_from(start, params@, 0),
            decreases params.len() - i,
        {
            let ghost before = self@;
            let next = self.sgr_step(params, i);
            assert(sgr_from(before, params@, i as int) == sgr_from(self@, params@, next as int));
            i = next;
        }
    }

    /// Foreground and background colors as drawn: swapped in inverse video.
    pub(crate) fn effective_colors(&self) -> (r: (String, String))
        ensures
            r.0@ == (if self.inverse { self.bg@ } else { self.fg@ }),
            r.1@ == (if self.inverse { self.fg@ } else { self.bg@ }),
    {
        if self.inverse {
            (self.bg.clone(), self.fg.clone())
        } else {
            (self.fg.clone(), self.bg.clone())
        }
    }
}

/// The consistency of a rendition: a palette color is a base color whose
/// class is that of its index moved to the bright half when bright; a
/// brightening caused by bold belongs to a bold palette foreground; and a
/// bold palette foreground is bright.
pub open spec fn sgr_consistent(a: AttrView) -> bool {
    &&& a.fg_palette matches Some(i) ==> i <= 7 && a.fg == color_class(palette_index(i, a.fg_is_bright))
    &&& a.bg_palette matches Some(j) ==> j <= 7 && a.bg == color_class(palette_index(j, a.bg_is_bright))
    &&& a.fg_bright_from_bold ==> a.bold && a.fg_is_bright && a.fg_palette is Some
    &&& a.bold && a.fg_palette is Some ==> a.fg_is_bright
}

/// The rendition after SGR sequences with the parameters `ps`, one after
/// the other, from `a`.
pub open spec fn sgr_after(a: AttrView, ps: Seq<Seq<u16>>) -> AttrView
    decreases ps.len(),
{
    if ps.len() == 0 {
        a
    } else {
        sgr_after(spec_set_sgr(a, ps[0]), ps.drop_first())
    }
}

proof fn lemma_bold_intensity_consistent(a: AttrView)
    requires
        a.fg_palette matches Some(i) ==> i <= 7 && a.fg == color_class(palette_index(i, a.fg_is_bright)),
        a.bg_palette matches Some(j) ==> j <= 7 && a.bg == color_class(palette_index(j, a.bg_is_bright)),
        a.fg_bright_from_bold ==> a.fg_is_bright && a.fg_palette is Some,
    ensures
        sgr_consistent(bold_intensity(a)),
{
}

proof fn lemma_sgr_step_consistent(a: AttrView, p: Seq<u16>, i: int)
    requires
        sgr_consistent(a),
        0 <= i < p.len(),
    ensures
        sgr_consistent(sgr_step(a, p, i).0),
        sgr_step(a, p, i).1 > i,
{
    if p[i] != 38 && p[i] != 48 {
        let v = p[i];
        if v == 1 {
            lemma_bold_intensity_consistent(AttrView { bold: true, ..a });
        } else if v == 22 {
            lemma_bold_intensity_consistent(AttrView { bold: false, ..a });
        } else if 30 <= v <= 37 || 90 <= v <= 97 {
            let bright = 90 <= v;
            let idx = (if bright { v - 90 } else { v - 30 }) as u8;
            lemma_bold_intensity_consistent(with_fg_class(
                AttrView { fg_palette: Some(cap7(idx)), fg_is_bright: bright, fg_bright_from_bold: false, ..a },
            ));
        }
    } else {
        let fg = p[i] == 38;
        if fg && i + 2 < p.len() && p[i + 1] == 5 && p[i + 2] < 16 {
            let idx = p[i + 2];
            lemma_bold_intensity_consistent(with_fg_class(
                AttrView {
                    fg_palette: Some(cap7((idx % 8) as u8)),
                    fg_is_bright: idx >= 8,
                    fg_bright_from_bold: false,
                    ..a
                },
            ));
        }
    }
}

proof fn lemma_sgr_from_consistent(a: AttrView, p: Seq<u16>, i: int)
    requires
        sgr_consistent(a),
        0 <= i,
    ensures
        sgr_consistent(sgr_from(a, p, i)),
    decreases p.len() - i,
{
    if i < p.len() {
        lemma_sgr_step_consistent(a, p, i);
        let (b, next) = sgr_step(a, p, i);
        lemma_sgr_from_consistent(b, p, next);
    }
}

/// Every rendition reached from the default one by SGR sequences is
/// consistent: a palette foreground or background is a base color drawn
/// with the class of its index (moved to the bright half when bright), a
/// brightening caused by bold belongs to a bold palette foreground, and a
/// bold palette foreground is always bright.
pub proof fn lemma_sgr_reachable_consistent(ps: Seq<Seq<u16>>)
    ensures
        sgr_consistent(sgr_after(default_attr(), ps)),
{
    lemma_sgr_after_consistent(default_attr(), ps);
}

/// SGR sequences keep a rendition consistent.
pub proof fn lemma_sgr_after_consistent(a: AttrView, ps: Seq<Seq<u16>>)
    requires
        sgr_consistent(a),
    ensures
        sgr_consistent(sgr_after(a, ps)),
    decreases ps.len(),
{
    if ps.len() > 0 {
        if ps[0].len() > 0 {
            lemma_sgr_from_consistent(a, ps[0], 0);
        }
        lemma_sgr_after_consistent(spec_set_sgr(a, ps[0]), ps.drop_first());
    }
}

/// A basic color parameter as the only SGR parameter: `30`-`37` sets the
/// foreground to palette color `n - 30` (its bright variant `n - 22` while
/// bold), `90`-`97` to the bright color `n - 82`, `40`-`47` sets the
/// background to palette color `n - 40` and `100`-`107` to the bright
/// color `n - 92`; `39` and `49` bring back the default foreground and
/// background. The other side's color and every text style stay as they
/// were.
pub proof fn law_sgr_basic_colors(a: AttrView, n: u16)
    ensures
        ({
            let b = spec_set_sgr(a, seq![n]);
            &&& (30 <= n <= 37 || 90 <= n <= 97) ==> {
                let base: nat = if n <= 37 { (n - 30) as nat } else { (n - 90) as nat };
                let bright = n >= 90 || a.bold;
                &&& b.fg_palette == Some(base as u8)
                &&& b.fg == color_class(if bright { base + 8 } else { base })
                &&& b.bg == a.bg && b.bg_palette == a.bg_palette && b.bg_is_bright == a.bg_is_bright
            }
            &&& (40 <= n <= 47 || 100 <= n <= 107) ==> {
                let base: nat = if n <= 47 { (n - 40) as nat } else { (n - 100) as nat };
                &&& b.bg_palette == Some(base as u8)
                &&& b.bg == color_class(if n >= 100 { base + 8 } else { base })
                &&& b.fg == a.fg && b.fg_palette == a.fg_palette && b.fg_is_bright == a.fg_is_bright
            }
            &&& n == 39 ==> b.fg == "foreground"@ && b.fg_palette is None && b.bg == a.bg && b.bg_palette
                == a.bg_palette
            &&& n == 49 ==> b.bg == "background"@ && b.bg_palette is None && b.fg == a.fg && b.fg_palette
                == a.fg_palette
            &&& (30 <= n <= 37 || 90 <= n <= 97 || 40 <= n <= 47 || 100 <= n <= 107 || n == 39 || n == 49) ==> {
                &&& b.bold == a.bold && b.italics == a.italics && b.underline == a.underline
                &&& b.strikethrough == a.strikethrough && b.inverse == a.inverse
            }
        }),
{
    let p = seq![n];
    assert(sgr_from(a, p, 0) == sgr_from(sgr_step(a, p, 0).0, p, sgr_step(a, p, 0).1));
}

} // verus!
