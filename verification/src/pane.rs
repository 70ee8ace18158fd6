//! A pane: a rectangular region with an offset, a declared size, an
//! optional border config, content lines, inline escape-code annotations
//! and a local cursor. Rendering writes the pane's rows into the frame
//! buffer left to right, top to bottom, under the first-writer-wins rule.

use vstd::prelude::*;
use crate::ansi::ANSICode;
use crate::border::BufferBorder;
use crate::editor::CursorPosition;
use crate::frame::{spec_write_seq, FrameView, RenderBuffer};
use crate::rows::{
    auto_height, auto_width, border_rows, border_rows_exec, join_rows, join_rows_exec,
    max_line_len, views_of,
};
use crate::text::chars_of_str;

verus! {

/// The views of a sequence of strings.
pub open spec fn str_views(s: Seq<String>) -> Seq<Seq<char>> {
    s.map_values(|x: String| x@)
}

/// Length and elements of `str_views`.
pub proof fn lemma_str_views(s: Seq<String>)
    ensures
        str_views(s).len() == s.len(),
        forall|j: int| 0 <= j < s.len() ==> #[trigger] str_views(s)[j] == s[j]@,
{
}

/// Read access to a pane's content lines.
pub trait ContentRef {
    /// The content as character sequences, line by line.
    spec fn content_view(&self) -> Seq<Seq<char>>;

    /// The content lines.
    fn content(&self) -> (r: &Vec<String>)
        ensures
            str_views(r@) == self.content_view(),
    ;
}

/// Read access to a pane's geometry: offset, size and padding.
pub trait BufferDims {
    /// The declared width.
    spec fn width_spec(&self) -> u16;

    /// The declared height.
    spec fn height_spec(&self) -> u16;

    /// The horizontal offset.
    spec fn offx_spec(&self) -> u16;

    /// The vertical offset.
    spec fn offy_spec(&self) -> u16;

    /// The top padding.
    spec fn tpad_spec(&self) -> u16;

    /// The bottom padding.
    spec fn dpad_spec(&self) -> u16;

    /// The left padding.
    spec fn lpad_spec(&self) -> u16;

    /// The right padding.
    spec fn rpad_spec(&self) -> u16;

    /// Whether the horizontal padding leaves room for text.
    open spec fn dims_wf(&self) -> bool {
        self.lpad_spec() + self.rpad_spec() <= self.width_spec()
    }

    /// The width left for text once padding is accounted for.
    open spec fn text_len_spec(&self) -> int {
        self.width_spec() - self.lpad_spec() - self.rpad_spec()
    }

    fn width(&self) -> (r: u16)
        ensures
            r == self.width_spec(),
    ;

    fn height(&self) -> (r: u16)
        ensures
            r == self.height_spec(),
    ;

    fn offx(&self) -> (r: u16)
        ensures
            r == self.offx_spec(),
    ;

    fn offy(&self) -> (r: u16)
        ensures
            r == self.offy_spec(),
    ;

    fn tpad(&self) -> (r: u16)
        ensures
            r == self.tpad_spec(),
    ;

    fn dpad(&self) -> (r: u16)
        ensures
            r == self.dpad_spec(),
    ;

    fn lpad(&self) -> (r: u16)
        ensures
            r == self.lpad_spec(),
    ;

    fn rpad(&self) -> (r: u16)
        ensures
            r == self.rpad_spec(),
    ;

    /// The width left for text once padding is accounted for.
    fn get_text_len(&self) -> (r: u16)
        requires
            self.dims_wf(),
        ensures
            r == self.text_len_spec(),
    ;
}

/// One row write into the frame buffer: skipped entirely when the row
/// would leave the grid.
pub open spec fn spec_write_row(v: FrameView, idx: int, row: Seq<char>) -> FrameView {
    if 0 <= idx && idx + row.len() <= v.grid.len() {
        spec_write_seq(v, idx, row)
    } else {
        v
    }
}

/// Rows written top to bottom from `(x, y)`, each under the claim rule.
pub open spec fn write_rows(v: FrameView, x: int, y: int, tw: int, rows: Seq<Seq<char>>) -> FrameView
    decreases rows.len(),
{
    if rows.len() == 0 {
        v
    } else {
        write_rows(spec_write_row(v, x + y * tw, rows[0]), x, y + 1, tw, rows.drop_first())
    }
}

/// A rectangular text pane.
#[derive(Debug)]
pub struct Buffer {
    pub offx: u16,
    pub offy: u16,
    pub width: u16,
    pub height: u16,
    pub border: Option<BufferBorder>,
    pub ctrl_codes: Vec<(ANSICode, usize)>,
    pub cursor_pos: CursorPosition,
    pub content: Vec<String>,
}

impl Buffer {
    /// The pane's text: its content lines, each followed by a newline.
    pub open spec fn text(&self) -> Seq<char> {
        join_rows(str_views(self.content@))
    }

    /// The rows this pane paints.
    pub open spec fn spec_rows(&self) -> Seq<Seq<char>> {
        match self.border {
            Some(cfg) => border_rows(self.text(), cfg, self.width as nat, self.height as nat),
            None => str_views(self.content@),
        }
    }

    /// The frame buffer state after this pane has rendered into `v` under
    /// terminal width `tw`.
    pub open spec fn spec_render(&self, tw: int, v: FrameView) -> FrameView {
        write_rows(v, self.offx as int, self.offy as int, tw, self.spec_rows())
    }

    /// A pane at the given offset and size, with the default border and no
    /// content.
    pub fn new(offx: u16, offy: u16, width: u16, height: u16) -> (r: Buffer)
        ensures
            r.offx == offx && r.offy == offy && r.width == width && r.height == height,
            r.border matches Some(b) && b.border_shown == 0xF && b.lpad == 1 && b.rpad == 1
                && b.tpad == 1 && b.dpad == 1,
            r.ctrl_codes@.len() == 0,
            r.cursor_pos == (CursorPosition { x: 0, y: 0 }),
            r.content@.len() == 0,
    {
        Buffer {
            offx,
            offy,
            width,
            height,
            border: Some(BufferBorder::default()),
            ctrl_codes: Vec::new(),
            cursor_pos: CursorPosition { x: 0, y: 0 },
            content: Vec::new(),
        }
    }

    /// The default pane: a 20 by 20 pane at the origin.
    pub fn default() -> (r: Buffer)
        ensures
            r.offx == 0 && r.offy == 0 && r.width == 20 && r.height == 20,
            r.border matches Some(b) && b.border_shown == 0xF && b.lpad == 1 && b.rpad == 1
                && b.tpad == 1 && b.dpad == 1,
            r.ctrl_codes@.len() == 0,
            r.cursor_pos == (CursorPosition { x: 0, y: 0 }),
            r.content@.len() == 0,
    {
        Buffer::new(0, 0, 20, 20)
    }

    /// The pane's inline escape-code annotations.
    pub fn ctrl_codes(&self) -> (r: &Vec<(ANSICode, usize)>)
        ensures
            r == &self.ctrl_codes,
    {
        &self.ctrl_codes
    }

    /// Adds one inline annotation at a content-relative index.
    pub fn push_ctrl_code(&mut self, code: ANSICode, idx: usize)
        ensures
            final(self).ctrl_codes@ == old(self).ctrl_codes@.push((code, idx)),
            final(self).offx == old(self).offx,
            final(self).offy == old(self).offy,
            final(self).width == old(self).width,
            final(self).height == old(self).height,
            final(self).border == old(self).border,
            final(self).cursor_pos == old(self).cursor_pos,
            final(self).content == old(self).content,
    {
        self.ctrl_codes.push((code, idx));
    }

    /// The pane's border config, if it has one.
    pub fn border(&self) -> (r: Option<&BufferBorder>)
        ensures
            match r {
                Some(b) => self.border matches Some(c) && *b == c,
                None => self.border is None,
            },
    {
        self.border.as_ref()
    }

    /// Replaces the border config.
    pub fn set_border(&mut self, border: Option<BufferBorder>)
        ensures
            *final(self) == (Buffer { border, ..*old(self) }),
    {
        self.border = border;
    }

    /// The declared size as `(width, height)`.
    pub fn size(&self) -> (r: (u16, u16))
        ensures
            r.0 == self.width,
            r.1 == self.height,
    {
        (self.width, self.height)
    }

    /// The offset as `(x, y)`.
    pub fn offsets(&self) -> (r: (u16, u16))
        ensures
            r.0 == self.offx,
            r.1 == self.offy,
    {
        (self.offx, self.offy)
    }

    /// The content lines.
    pub fn lines(&self) -> (r: &Vec<String>)
        ensures
            r == &self.content,
    {
        &self.content
    }

    /// Replaces the content lines.
    pub fn set_content(&mut self, content: Vec<String>)
        ensures
            *final(self) == (Buffer { content, ..*old(self) }),
    {
        self.content = content;
    }

    /// Moves the pane's local cursor.
    pub fn set_cursor_pos(&mut self, new_pos: CursorPosition)
        ensures
            *final(self) == (Buffer { cursor_pos: new_pos, ..*old(self) }),
    {
        self.cursor_pos = new_pos;
    }

    /// The pane's local cursor.
    pub fn cursor_position(&self) -> (r: CursorPosition)
        ensures
            r == self.cursor_pos,
    {
        self.cursor_pos
    }

    /// Where the pane's text begins on screen: the offset moved past the
    /// left and top border and padding.
    pub fn get_start_of_text(&self) -> (r: (u16, u16))
        requires
            self.border matches Some(b) ==> self.offx + b.lpad + 1 <= u16::MAX && self.offy
                + b.tpad + 1 <= u16::MAX,
        ensures
            match self.border {
                Some(b) => r.0 == self.offx + b.lpad + (if b.shows_left() {
                    1int
                } else {
                    0int
                }) && r.1 == self.offy + b.tpad + (if b.shows_top() {
                    1int
                } else {
                    0int
                }),
                None => r.0 == self.offx && r.1 == self.offy,
            },
    {
        let mut x = self.offx;
        let mut y = self.offy;
        match self.border.as_ref() {
            Some(b) => {
                let shows = b.get_borders_shown();
                x = x + b.lpad + if shows[0] {
                    1
                } else {
                    0
                };
                y = y + b.tpad + if shows[1] {
                    1
                } else {
                    0
                };
            },
            None => {},
        }
        (x, y)
    }

    /// The length of the longest content line.
    pub open spec fn auto_width_of(&self) -> nat {
        max_line_len(str_views(self.content@))
    }

    /// The length of the longest content line.
    #[verifier::loop_isolation(false)]
    pub fn get_auto_width(&self) -> (r: usize)
        ensures
            r == self.auto_width_of(),
    {
        let ghost line_views = str_views(self.content@);
        let mut maxlen: usize = 0;
        proof {
            lemma_str_views(self.content@);
            assert(line_views.skip(0) =~= line_views);
        }
        let mut i: usize = 0;
        while i < self.content.len()
            invariant
                0 <= i <= self.content@.len(),
                max_line_len(line_views) == (if maxlen >= max_line_len(
                    line_views.skip(i as int),
                ) {
                    maxlen as nat
                } else {
                    max_line_len(line_views.skip(i as int))
                }),
            decreases self.content@.len() - i,
        {
            proof {
                crate::rows::lemma_line_views_skip_step(line_views, i as int);
            }
            let len_i = self.content[i].as_str().unicode_len();
            if len_i > maxlen {
                maxlen = len_i;
            }
            i += 1;
        }
        proof {
            assert(line_views.skip(i as int) =~= Seq::<Seq<char>>::empty());
        }
        maxlen
    }

    /// The pane after centering: the border's left and top padding are
    /// recomputed so the content sits centered in the current size; the
    /// rest of the border (or a fresh default-glyph border if none was
    /// set) is kept.
    pub open spec fn spec_center(p: Buffer) -> Buffer {
        let base = match p.border {
            Some(b) => b,
            None => BufferBorder {
                border_shown: 0xF,
                corner: [
                    crate::border::CORNER,
                    crate::border::CORNER,
                    crate::border::CORNER,
                    crate::border::CORNER,
                ],
                hborder: crate::border::HBORDER,
                vborder: crate::border::VBORDER,
                lpad: 0,
                rpad: 0,
                tpad: 0,
                dpad: 0,
            },
        };
        Buffer {
            border: Some(
                BufferBorder {
                    tpad: (((p.height as int - 1 - p.content@.len()) / 2) as u16),
                    lpad: (((p.width as int - Buffer::spec_auto_width(p)) / 2) as u16),
                    ..base
                },
            ),
            ..p
        }
    }

    /// The length of the longest content line, as a spec value.
    pub open spec fn spec_auto_width(p: Buffer) -> int {
        max_line_len(str_views(p.content@)) as int
    }

    /// Whether the pane's size leaves room to center its content.
    pub open spec fn center_ok(p: Buffer) -> bool {
        &&& p.content@.len() + 1 <= p.height
        &&& Buffer::spec_auto_width(p) <= p.width
    }

    /// Recomputes the border's left and top padding so the content sits
    /// centered in the pane's current size. Reads the current width and
    /// height, so it is a one-shot placement, not a persistent policy.
    pub fn center(&mut self)
        requires
            Buffer::center_ok(*old(self)),
        ensures
            *final(self) == Buffer::spec_center(*old(self)),
    {
        let len = self.get_auto_width();
        let mut border = match self.border.take() {
            Some(b) => b,
            None => BufferBorder::blank(),
        };
        border.tpad = (self.height - 1 - (self.content.len() as u16)) / 2;
        border.lpad = (self.width - (len as u16)) / 2;
        self.border = Some(border);
        proof {
            assert(*self =~= Buffer::spec_center(*old(self)));
        }
    }

    /// Resizes the pane to fit its content and the current border's
    /// padding, borders included.
    pub fn auto_size(&mut self)
        requires
            ({
                let lp = match old(self).border {
                    Some(b) => b.lpad as nat,
                    None => 0,
                };
                let rp = match old(self).border {
                    Some(b) => b.rpad as nat,
                    None => 0,
                };
                let tp = match old(self).border {
                    Some(b) => b.tpad as nat,
                    None => 0,
                };
                let dp = match old(self).border {
                    Some(b) => b.dpad as nat,
                    None => 0,
                };
                auto_width(old(self).text(), lp, rp) <= u16::MAX && auto_height(
                    old(self).text(),
                    tp,
                    dp,
                ) <= u16::MAX
            }),
        ensures
            ({
                let lp = match old(self).border {
                    Some(b) => b.lpad as nat,
                    None => 0,
                };
                let rp = match old(self).border {
                    Some(b) => b.rpad as nat,
                    None => 0,
                };
                let tp = match old(self).border {
                    Some(b) => b.tpad as nat,
                    None => 0,
                };
                let dp = match old(self).border {
                    Some(b) => b.dpad as nat,
                    None => 0,
                };
                *final(self) == (Buffer {
                    width: auto_width(old(self).text(), lp, rp) as u16,
                    height: auto_height(old(self).text(), tp, dp) as u16,
                    ..*old(self)
                })
            }),
    {
        let (lp, rp, tp, dp) = match self.border.as_ref() {
            Some(b) => (b.lpad, b.rpad, b.tpad, b.dpad),
            None => (0, 0, 0, 0),
        };
        let text = self.text_chars();
        let s = crate::text::string_from_chars(&text);
        let (w, h) = crate::rows::get_auto_size(s.as_str(), lp, rp, tp, dp);
        self.width = w;
        self.height = h;
    }

    /// The pane's content lines as character vectors.
    #[verifier::loop_isolation(false)]
    fn content_chars(&self) -> (r: Vec<Vec<char>>)
        ensures
            views_of(r@) == str_views(self.content@),
    {
        let mut r: Vec<Vec<char>> = Vec::new();
        proof {
            lemma_str_views(self.content@);
            crate::rows::lemma_views(r@);
            assert(views_of(r@) =~= str_views(self.content@).take(0));
        }
        let mut i: usize = 0;
        while i < self.content.len()
            invariant
                i <= self.content@.len(),
                views_of(r@) =~= str_views(self.content@).take(i as int),
            decreases self.content@.len() - i,
        {
            let line = chars_of_str(self.content[i].as_str());
            let ghost pre = r@;
            let ghost lv = line;
            r.push(line);
            proof {
                crate::rows::lemma_views(pre);
                crate::rows::lemma_views(r@);
                lemma_str_views(self.content@);
                assert(views_of(r@) =~= str_views(self.content@).take(i as int + 1));
            }
            i += 1;
        }
        proof {
            assert(str_views(self.content@).take(self.content@.len() as int) =~= str_views(
                self.content@,
            ));
        }
        r
    }

    /// The pane's text — content lines joined, a newline after each — as
    /// one character vector.
    fn text_chars(&self) -> (r: Vec<char>)
        ensures
            r@ == self.text(),
    {
        let lines = self.content_chars();
        join_rows_exec(&lines)
    }

    /// Writes this pane's rows into the frame buffer, left to right, top
    /// to bottom, each cell under the first-writer-wins rule; a row that
    /// would leave the grid is dropped whole.
    #[verifier::loop_isolation(false)]
    pub fn render(&self, term_width: u16, render_buf: &mut RenderBuffer)
        requires
            old(render_buf).wf(),
        ensures
            final(render_buf).wf(),
            final(render_buf)@ == self.spec_render(term_width as int, old(render_buf)@),
    {
        let rows: Vec<Vec<char>> = match self.border.as_ref() {
            Some(cfg) => {
                let text = self.text_chars();
                border_rows_exec(&text, cfg, self.width, self.height)
            },
            None => self.content_chars(),
        };
        let ghost all = views_of(rows@);
        let ghost v0 = render_buf@;
        proof {
            assert(all.skip(0) =~= all);
        }
        let mut i: usize = 0;
        while i < rows.len()
            invariant
                i <= rows@.len(),
                render_buf.wf(),
                write_rows(
                    render_buf@,
                    self.offx as int,
                    self.offy as int + i,
                    term_width as int,
                    all.skip(i as int),
                ) == write_rows(v0, self.offx as int, self.offy as int, term_width as int, all),
            decreases rows@.len() - i,
        {
            proof {
                crate::rows::lemma_views(rows@);
                crate::rows::lemma_line_views_skip_step(all, i as int);
            }
            write_row(render_buf, self.offx, self.offy, i, term_width, &rows[i]);
            i += 1;
        }
        proof {
            assert(all.skip(i as int) =~= Seq::<Seq<char>>::empty());
        }
    }
}

/// Writes one row at `(x, y0 + i)` if it fits inside the grid; a row that
/// would leave the grid is dropped.
fn write_row(rb: &mut RenderBuffer, x: u16, y0: u16, i: usize, term_width: u16, row: &Vec<char>)
    requires
        old(rb).wf(),
    ensures
        final(rb).wf(),
        final(rb)@ == spec_write_row(
            old(rb)@,
            x as int + (y0 as int + i) * (term_width as int),
            row@,
        ),
{
    let n = rb.grid_len();
    proof {
        assert((y0 as int + i) * (term_width as int) <= (0xFFFFint + 0xFFFF_FFFF_FFFF_FFFFint)
            * 0xFFFFint) by (nonlinear_arith)
            requires
                y0 <= 0xFFFFint,
                i <= 0xFFFF_FFFF_FFFF_FFFFint,
                term_width <= 0xFFFFint,
        ;
    }
    let y128: u128 = (y0 as u128) + (i as u128);
    let idx128: u128 = (x as u128) + y128 * (term_width as u128);
    let fits = idx128 + (row.len() as u128) <= (n as u128);
    if fits {
        let idx: usize = idx128 as usize;
        rb.write_chars_idx(idx, row);
    }
}

impl ContentRef for Buffer {
    open spec fn content_view(&self) -> Seq<Seq<char>> {
        str_views(self.content@)
    }

    fn content(&self) -> (r: &Vec<String>) {
        &self.content
    }
}

impl BufferDims for Buffer {
    open spec fn width_spec(&self) -> u16 {
        self.width
    }

    open spec fn height_spec(&self) -> u16 {
        self.height
    }

    open spec fn offx_spec(&self) -> u16 {
        self.offx
    }

    open spec fn offy_spec(&self) -> u16 {
        self.offy
    }

    open spec fn tpad_spec(&self) -> u16 {
        match self.border {
            Some(b) => b.tpad,
            None => 0,
        }
    }

    open spec fn dpad_spec(&self) -> u16 {
        match self.border {
            Some(b) => b.dpad,
            None => 0,
        }
    }

    open spec fn lpad_spec(&self) -> u16 {
        match self.border {
            Some(b) => b.lpad,
            None => 0,
        }
    }

    open spec fn rpad_spec(&self) -> u16 {
        match self.border {
            Some(b) => b.rpad,
            None => 0,
        }
    }

    fn width(&self) -> (r: u16) {
        self.width
    }

    fn height(&self) -> (r: u16) {
        self.height
    }

    fn offx(&self) -> (r: u16) {
        self.offx
    }

    fn offy(&self) -> (r: u16) {
        self.offy
    }

    fn tpad(&self) -> (r: u16) {
        match self.border.as_ref() {
            Some(b) => b.tpad,
            None => 0,
        }
    }

    fn dpad(&self) -> (r: u16) {
        match self.border.as_ref() {
            Some(b) => b.dpad,
            None => 0,
        }
    }

    fn lpad(&self) -> (r: u16) {
        match self.border.as_ref() {
            Some(b) => b.lpad,
            None => 0,
        }
    }

    fn rpad(&self) -> (r: u16) {
        match self.border.as_ref() {
            Some(b) => b.rpad,
            None => 0,
        }
    }

    fn get_text_len(&self) -> (r: u16) {
        self.width - self.lpad() - self.rpad()
    }
}


/// Idempotent centering: centering a pane a second time, with no
/// intervening content or dimension change, computes the same padding and
/// leaves the pane exactly as one centering did.
pub proof fn lemma_center_idempotent(p: Buffer)
    ensures
        Buffer::spec_center(Buffer::spec_center(p)) == Buffer::spec_center(p),
{
}

} // verus!
