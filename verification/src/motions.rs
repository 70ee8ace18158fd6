//! Vim-style cursor motions: pure functions from a pane's dimensions and
//! content to a new cursor coordinate. The render subsystem exposes exactly
//! the dimensions-and-content view they consume, nothing more.

use vstd::prelude::*;
use crate::editor::CursorPosition;
use crate::pane::{BufferDims, ContentRef};
use crate::rows::find_char;

verus! {

/// Which way a motion moves.
#[derive(PartialEq, Eq, Structural, Clone, Copy, Debug)]
pub enum MotionDirection {
    Foward,
    Backward,
}

/// The number of visual lines the content occupies: each content line
/// counts one row per full wrap of the text width, plus one.
pub open spec fn spec_lines_count(content: Seq<Seq<char>>, tl: int) -> int
    decreases content.len(),
{
    if content.len() == 0 {
        0
    } else {
        content[0].len() as int / tl + 1 + spec_lines_count(content.drop_first(), tl)
    }
}

/// The wrap walk: where visual line `y` starts, as a content-line index
/// and an offset into that line; `None` when the walk runs off the
/// content.
pub open spec fn line_walk(content: Seq<Seq<char>>, tl: int, y: int) -> Option<(int, int)>
    decreases y,
{
    if y <= 0 {
        Some((0, 0))
    } else {
        match line_walk(content, tl, y - 1) {
            None => None,
            Some(p) => {
                if p.0 >= content.len() {
                    None
                } else if content[p.0].len() - p.1 <= tl {
                    Some((p.0 + 1, 0))
                } else {
                    Some((p.0, p.1 + tl))
                }
            },
        }
    }
}

/// Whether visual line `y` exists: the walk ends on a real content line.
pub open spec fn line_walk_valid(content: Seq<Seq<char>>, tl: int, y: int) -> bool {
    match line_walk(content, tl, y) {
        Some(p) => 0 <= p.0 < content.len() && 0 <= p.1 <= content[p.0].len(),
        None => false,
    }
}

/// How many characters visual line `y` holds.
pub open spec fn line_len_at(content: Seq<Seq<char>>, tl: int, y: int) -> int {
    match line_walk(content, tl, y) {
        Some(p) => content[p.0].len() - p.1,
        None => 0,
    }
}

/// A walk that reaches `y` passed through every earlier line, and the
/// offsets stay inside their content line.
pub proof fn lemma_line_walk_prefix(content: Seq<Seq<char>>, tl: int, y: int, k: int)
    requires
        tl >= 1,
        0 <= k <= y,
        line_walk(content, tl, y) is Some,
    ensures
        line_walk(content, tl, k) is Some,
        line_walk(content, tl, k)->Some_0.0 >= 0,
        line_walk(content, tl, k)->Some_0.1 >= 0,
        line_walk(content, tl, k)->Some_0.0 < content.len() ==> line_walk(
            content,
            tl,
            k,
        )->Some_0.1 <= content[line_walk(content, tl, k)->Some_0.0].len(),
    decreases y - k,
{
    if k < y {
        lemma_line_walk_prefix_step(content, tl, y);
        lemma_line_walk_prefix(content, tl, y - 1, k);
    } else {
        lemma_line_walk_offsets(content, tl, y);
    }
}

proof fn lemma_line_walk_prefix_step(content: Seq<Seq<char>>, tl: int, y: int)
    requires
        y >= 1,
        line_walk(content, tl, y) is Some,
    ensures
        line_walk(content, tl, y - 1) is Some,
{
}

proof fn lemma_line_walk_offsets(content: Seq<Seq<char>>, tl: int, y: int)
    requires
        tl >= 1,
        0 <= y,
        line_walk(content, tl, y) is Some,
    ensures
        line_walk(content, tl, y)->Some_0.0 >= 0,
        line_walk(content, tl, y)->Some_0.1 >= 0,
        line_walk(content, tl, y)->Some_0.0 < content.len() ==> line_walk(
            content,
            tl,
            y,
        )->Some_0.1 <= content[line_walk(content, tl, y)->Some_0.0].len(),
    decreases y,
{
    if y > 0 {
        lemma_line_walk_offsets(content, tl, y - 1);
    }
}

/// How many visual lines the buffer's content fills.
#[verifier::loop_isolation(false)]
pub fn get_lines<T: BufferDims + ContentRef>(buf: &T) -> (r: u32)
    requires
        buf.dims_wf(),
        buf.text_len_spec() >= 1,
        spec_lines_count(buf.content_view(), buf.text_len_spec()) <= u32::MAX,
        forall|j: int|
            0 <= j < buf.content_view().len() ==> (#[trigger] buf.content_view()[j]).len()
                <= u32::MAX,
    ensures
        r == spec_lines_count(buf.content_view(), buf.text_len_spec()),
{
    let content = buf.content();
    let tl = buf.get_text_len() as u32;
    let ghost cv = buf.content_view();
    let ghost tls = buf.text_len_spec();
    let mut ret: u32 = 0;
    proof {
        crate::pane::lemma_str_views(content@);
        assert(cv.skip(0) =~= cv);
        lemma_lines_count_nonneg(cv, tls);
    }
    let mut i: usize = 0;
    while i < content.len()
        invariant
            i <= content@.len(),
            cv.len() == content@.len(),
            ret + spec_lines_count(cv.skip(i as int), tls) == spec_lines_count(cv, tls),
            ret >= 0,
        decreases content@.len() - i,
    {
        proof {
            crate::pane::lemma_str_views(content@);
            assert(cv.skip(i as int)[0] == cv[i as int]);
            assert(cv.skip(i as int).drop_first() =~= cv.skip(i as int + 1));
            lemma_lines_count_nonneg(cv.skip(i as int + 1), tls);
            assert(cv[i as int].len() as int / tls >= 0);
        }
        let line_len = content[i].as_str().unicode_len() as u32;
        proof {
            assert(line_len == cv[i as int].len());
            assert(spec_lines_count(cv.skip(i as int), tls) == cv[i as int].len() as int / tls + 1
                + spec_lines_count(cv.skip(i as int + 1), tls));
            assert(ret + (line_len as int) / (tl as int) + 1 <= spec_lines_count(cv, tls));
        }
        ret = ret + line_len / tl + 1;
        i += 1;
    }
    proof {
        assert(cv.skip(i as int) =~= Seq::<Seq<char>>::empty());
    }
    ret
}

proof fn lemma_lines_count_nonneg(content: Seq<Seq<char>>, tl: int)
    requires
        tl >= 1,
    ensures
        spec_lines_count(content, tl) >= 0,
    decreases content.len(),
{
    if content.len() > 0 {
        lemma_lines_count_nonneg(content.drop_first(), tl);
    }
}

/// The length of visual line `y`, found by walking the wrap layout.
#[verifier::loop_isolation(false)]
pub fn get_line_len<T: BufferDims + ContentRef>(buf: T, y: usize) -> (r: u32)
    requires
        buf.dims_wf(),
        buf.text_len_spec() >= 1,
        line_walk_valid(buf.content_view(), buf.text_len_spec(), y as int),
        line_len_at(buf.content_view(), buf.text_len_spec(), y as int) <= u32::MAX,
    ensures
        r == line_len_at(buf.content_view(), buf.text_len_spec(), y as int),
{
    let ghost cv = buf.content_view();
    let ghost tls = buf.text_len_spec();
    let content = buf.content();
    let total_lines = content.len();
    let text_len = buf.get_text_len() as usize;
    let mut line_idx: usize = 0;
    let mut vec_idx: usize = 0;
    let mut start_idx: usize = 0;
    proof {
        crate::pane::lemma_str_views(content@);
        lemma_line_walk_prefix(cv, tls, y as int, 0);
    }
    while line_idx < y
        invariant
            line_idx <= y,
            cv.len() == content@.len(),
            total_lines == content@.len(),
            line_walk(cv, tls, line_idx as int) == Some((vec_idx as int, start_idx as int)),
        decreases y - line_idx,
    {
        proof {
            crate::pane::lemma_str_views(content@);
            lemma_line_walk_prefix(cv, tls, y as int, line_idx as int + 1);
            assert(line_walk(cv, tls, line_idx as int + 1) is Some);
            assert(vec_idx < content@.len());
            lemma_line_walk_prefix(cv, tls, y as int, line_idx as int);
            assert(start_idx <= cv[vec_idx as int].len());
        }
        let line_len = content[vec_idx].as_str().unicode_len();
        proof {
            assert(line_len == cv[vec_idx as int].len());
        }
        if line_len - start_idx <= text_len {
            start_idx = 0;
            vec_idx += 1;
        } else {
            start_idx += text_len;
        }
        line_idx += 1;
    }
    proof {
        crate::pane::lemma_str_views(content@);
        assert(vec_idx < content@.len());
    }
    let line_len = content[vec_idx].as_str().unicode_len();
    (line_len - start_idx) as u32
}

/// The index just past the last occurrence of `c` in `s`, minus one; `-1`
/// when `c` does not occur.
pub open spec fn rfind_char(s: Seq<char>, c: char) -> int
    decreases s.len(),
{
    if s.len() == 0 {
        -1
    } else if s[s.len() - 1] == c {
        s.len() - 1
    } else {
        rfind_char(s.drop_last(), c)
    }
}

/// A backward scan that stopped at `k` on the first hit (or ran out) found
/// `rfind_char`.
pub proof fn lemma_rfind_char_is(s: Seq<char>, c: char, k: int)
    requires
        -1 <= k < s.len(),
        forall|j: int| k < j < s.len() ==> s[j] != c,
        k >= 0 ==> s[k] == c,
    ensures
        rfind_char(s, c) == k,
    decreases s.len(),
{
    if s.len() == 0 {
    } else if s[s.len() - 1] == c {
        assert(k == s.len() - 1);
    } else {
        assert(k < s.len() - 1);
        assert forall|j: int| k < j < s.drop_last().len() implies s.drop_last()[j] != c by {
            assert(s.drop_last()[j] == s[j]);
        }
        assert(k >= 0 ==> s.drop_last()[k] == s[k]);
        lemma_rfind_char_is(s.drop_last(), c, k);
    }
}

/// Where a character search lands: the raw hit for an inclusive search,
/// one short of it otherwise; the cursor column when nothing is found.
pub open spec fn char_search_result(
    chr: char,
    line: Seq<char>,
    x: int,
    dir: MotionDirection,
    with_search_result: bool,
) -> int {
    if dir == MotionDirection::Foward {
        let rel = find_char(line.skip(x), chr);
        if rel < line.len() - x {
            if with_search_result {
                x + rel
            } else {
                x + rel - 1
            }
        } else {
            x
        }
    } else {
        let p = rfind_char(line.take(x), chr);
        if p >= 0 {
            if with_search_result {
                p
            } else {
                p + 1
            }
        } else {
            x
        }
    }
}

/// Whether a character search is meaningful: the cursor row exists, the
/// column lies in the row, and the landing spot is a real column.
pub open spec fn char_search_ok(
    chr: char,
    content: Seq<Seq<char>>,
    pos: CursorPosition,
    dir: MotionDirection,
    with_search_result: bool,
) -> bool {
    &&& (pos.y as int) < content.len()
    &&& (pos.x as int) <= content[pos.y as int].len()
    &&& content[pos.y as int].len() <= u32::MAX
    &&& char_search_result(chr, content[pos.y as int], pos.x as int, dir, with_search_result)
        >= 0
}

/// Searches the cursor's line for `chr`, forward from or backward to the
/// cursor column, and hands back the column the motion lands on.
#[verifier::loop_isolation(false)]
pub fn get_char_search(
    chr: char,
    content: &Vec<String>,
    cursor_position: &CursorPosition,
    direction: MotionDirection,
    with_search_result: bool,
) -> (r: u32)
    requires
        char_search_ok(
            chr,
            crate::pane::str_views(content@),
            *cursor_position,
            direction,
            with_search_result,
        ),
    ensures
        r == char_search_result(
            chr,
            crate::pane::str_views(content@)[cursor_position.y as int],
            cursor_position.x as int,
            direction,
            with_search_result,
        ),
{
    proof {
        crate::pane::lemma_str_views(content@);
    }
    let ghost lv = crate::pane::str_views(content@)[cursor_position.y as int];
    let line = &content[cursor_position.y as usize];
    let x = cursor_position.x as usize;
    let n = line.as_str().unicode_len();
    if direction == MotionDirection::Foward {
        let mut i: usize = x;
        while i < n && line.as_str().get_char(i) != chr
            invariant
                x <= i <= n,
                n == lv.len(),
                lv == line@,
                forall|k: int| x <= k < i ==> lv[k] != chr,
            decreases n - i,
        {
            i += 1;
        }
        proof {
            assert forall|k: int| 0 <= k < i - x implies lv.skip(x as int)[k] != chr by {
                assert(lv.skip(x as int)[k] == lv[k + x]);
            }
            assert(i < n ==> lv.skip(x as int)[i - x] == lv[i as int]);
            crate::rows::lemma_find_char_is(lv.skip(x as int), chr, i - x as int);
        }
        if i < n {
            if with_search_result {
                i as u32
            } else {
                (i - 1) as u32
            }
        } else {
            cursor_position.x
        }
    } else {
        let mut k: usize = x;
        let mut hit: bool = false;
        while k > 0 && !hit
            invariant
                k <= x,
                x <= lv.len(),
                lv == line@,
                !hit ==> forall|j: int| k <= j < x ==> lv[j] != chr,
                hit ==> k < x && lv[k as int] == chr && (forall|j: int|
                    k < j < x ==> lv[j] != chr),
            decreases k + (if hit {
                0int
            } else {
                1int
            }),
        {
            if line.as_str().get_char(k - 1) == chr {
                k = k - 1;
                hit = true;
            } else {
                k = k - 1;
            }
        }
        proof {
            assert forall|j: int|
                (if hit {
                    k as int
                } else {
                    -1int
                }) < j < lv.take(x as int).len() implies lv.take(x as int)[j] != chr by {
                assert(lv.take(x as int)[j] == lv[j]);
            }
            if hit {
                assert(lv.take(x as int)[k as int] == lv[k as int]);
                lemma_rfind_char_is(lv.take(x as int), chr, k as int);
            } else {
                lemma_rfind_char_is(lv.take(x as int), chr, -1);
            }
        }
        if hit {
            if with_search_result {
                k as u32
            } else {
                (k + 1) as u32
            }
        } else {
            cursor_position.x
        }
    }
}

/// A cursor motion: a pure function from a pane's dimensions and content
/// to a new cursor coordinate.
pub trait Motion {
    /// Whether the motion is meaningful for this content, pane height,
    /// text width and cursor.
    spec fn ok_for(
        &self,
        content: Seq<Seq<char>>,
        height: u16,
        tl: int,
        pos: CursorPosition,
        dir: MotionDirection,
    ) -> bool;

    /// The cursor the motion moves to.
    spec fn result_for(
        &self,
        content: Seq<Seq<char>>,
        height: u16,
        tl: int,
        pos: CursorPosition,
        dir: MotionDirection,
    ) -> CursorPosition;

    /// Computes the cursor the motion moves to.
    fn get_new_cursor_position<B: BufferDims + ContentRef>(
        &self,
        buf: B,
        cursor_position: &CursorPosition,
        direction: MotionDirection,
    ) -> (r: CursorPosition)
        requires
            buf.dims_wf(),
            self.ok_for(
                buf.content_view(),
                buf.height_spec(),
                buf.text_len_spec(),
                *cursor_position,
                direction,
            ),
        ensures
            r == self.result_for(
                buf.content_view(),
                buf.height_spec(),
                buf.text_len_spec(),
                *cursor_position,
                direction,
            ),
    ;
}

/// One column left or right, stopping at the line ends.
pub struct LeftRightMotion;

/// One visual line up or down, clamping the column to the new line.
pub struct UpDownMotion;

/// To the beginning of the next or previous word.
pub struct BeginningWordMotion;

/// To the end of the next or previous word.
pub struct EndWordMotion;

/// Onto the next or previous occurrence of a character.
pub struct UntilWithMotion(pub char);

/// Just before the next or after the previous occurrence of a character.
pub struct UntilWithoutMotion(pub char);

/// The clamped line length the left/right motion works against.
pub open spec fn lr_line_len(content: Seq<Seq<char>>, tl: int, pos: CursorPosition) -> int {
    let ll = line_len_at(content, tl, pos.y as int);
    if ll <= tl {
        ll
    } else {
        tl
    }
}

impl Motion for LeftRightMotion {
    open spec fn ok_for(
        &self,
        content: Seq<Seq<char>>,
        height: u16,
        tl: int,
        pos: CursorPosition,
        dir: MotionDirection,
    ) -> bool {
        &&& tl >= 1
        &&& line_walk_valid(content, tl, pos.y as int)
        &&& line_len_at(content, tl, pos.y as int) <= u32::MAX
        &&& lr_line_len(content, tl, pos) >= 1
        &&& pos.x as int + 1 <= u32::MAX
    }

    open spec fn result_for(
        &self,
        content: Seq<Seq<char>>,
        height: u16,
        tl: int,
        pos: CursorPosition,
        dir: MotionDirection,
    ) -> CursorPosition {
        let ll = lr_line_len(content, tl, pos);
        if (dir == MotionDirection::Foward && pos.x as int == ll - 1) || (dir
            == MotionDirection::Backward && pos.x == 0) {
            pos
        } else if dir == MotionDirection::Foward {
            CursorPosition { x: (pos.x + 1) as u32, y: pos.y }
        } else {
            CursorPosition { x: (pos.x - 1) as u32, y: pos.y }
        }
    }

    fn get_new_cursor_position<B: BufferDims + ContentRef>(
        &self,
        buf: B,
        cursor_position: &CursorPosition,
        direction: MotionDirection,
    ) -> (r: CursorPosition) {
        let text_len = buf.get_text_len() as u32;
        let raw = get_line_len(buf, cursor_position.y as usize);
        let line_len = if raw < text_len {
            raw
        } else {
            text_len
        };
        if (direction == MotionDirection::Foward && cursor_position.x == line_len - 1) || (
        direction == MotionDirection::Backward && cursor_position.x == 0) {
            CursorPosition { x: cursor_position.x, y: cursor_position.y }
        } else if direction == MotionDirection::Foward {
            CursorPosition { x: cursor_position.x + 1, y: cursor_position.y }
        } else {
            CursorPosition { x: cursor_position.x - 1, y: cursor_position.y }
        }
    }
}

impl Motion for UpDownMotion {
    open spec fn ok_for(
        &self,
        content: Seq<Seq<char>>,
        height: u16,
        tl: int,
        pos: CursorPosition,
        dir: MotionDirection,
    ) -> bool {
        let total = spec_lines_count(content, tl);
        let limit = if (height as int) <= total {
            height as int
        } else {
            total
        };
        let stay = (dir == MotionDirection::Foward && pos.y as int == limit - 1) || (dir
            == MotionDirection::Backward && pos.y == 0);
        &&& tl >= 1
        &&& total <= u16::MAX
        &&& forall|j: int| 0 <= j < content.len() ==> (#[trigger] content[j]).len() <= u32::MAX
        &&& limit >= 1
        &&& pos.y as int + 1 <= u32::MAX
        &&& !stay ==> {
            let ny = if dir == MotionDirection::Foward {
                pos.y as int + 1
            } else {
                pos.y as int - 1
            };
            &&& line_walk_valid(content, tl, ny)
            &&& line_len_at(content, tl, ny) <= u32::MAX
            &&& line_len_at(content, tl, ny) >= 1
        }
    }

    open spec fn result_for(
        &self,
        content: Seq<Seq<char>>,
        height: u16,
        tl: int,
        pos: CursorPosition,
        dir: MotionDirection,
    ) -> CursorPosition {
        let total = spec_lines_count(content, tl);
        let limit = if (height as int) <= total {
            height as int
        } else {
            total
        };
        if (dir == MotionDirection::Foward && pos.y as int == limit - 1) || (dir
            == MotionDirection::Backward && pos.y == 0) {
            pos
        } else {
            let ny = if dir == MotionDirection::Foward {
                pos.y as int + 1
            } else {
                pos.y as int - 1
            };
            let nll = line_len_at(content, tl, ny);
            if nll - 1 <= pos.x as int {
                CursorPosition { x: (nll - 1) as u32, y: ny as u32 }
            } else {
                CursorPosition { x: pos.x, y: ny as u32 }
            }
        }
    }

    fn get_new_cursor_position<B: BufferDims + ContentRef>(
        &self,
        buf: B,
        cursor_position: &CursorPosition,
        direction: MotionDirection,
    ) -> (r: CursorPosition) {
        let len = get_lines(&buf);
        let height = buf.height();
        let limit: u32 = if (height as u32) <= len {
            height as u32
        } else {
            len
        };
        if (direction == MotionDirection::Foward && cursor_position.y == limit - 1) || (direction
            == MotionDirection::Backward && cursor_position.y == 0) {
            return CursorPosition { x: cursor_position.x, y: cursor_position.y };
        }
        let new_y: u32 = if direction == MotionDirection::Foward {
            cursor_position.y + 1
        } else {
            cursor_position.y - 1
        };
        let new_line_len = get_line_len(buf, new_y as usize);
        if new_line_len - 1 <= cursor_position.x {
            CursorPosition { x: new_line_len - 1, y: new_y }
        } else {
            CursorPosition { x: cursor_position.x, y: new_y }
        }
    }
}

impl Motion for UntilWithMotion {
    open spec fn ok_for(
        &self,
        content: Seq<Seq<char>>,
        height: u16,
        tl: int,
        pos: CursorPosition,
        dir: MotionDirection,
    ) -> bool {
        char_search_ok(self.0, content, pos, dir, true)
    }

    open spec fn result_for(
        &self,
        content: Seq<Seq<char>>,
        height: u16,
        tl: int,
        pos: CursorPosition,
        dir: MotionDirection,
    ) -> CursorPosition {
        CursorPosition {
            x: char_search_result(self.0, content[pos.y as int], pos.x as int, dir, true) as u32,
            y: pos.y,
        }
    }

    fn get_new_cursor_position<B: BufferDims + ContentRef>(
        &self,
        buf: B,
        cursor_position: &CursorPosition,
        direction: MotionDirection,
    ) -> (r: CursorPosition) {
        CursorPosition {
            x: get_char_search(self.0, buf.content(), cursor_position, direction, true),
            y: cursor_position.y,
        }
    }
}

impl Motion for UntilWithoutMotion {
    open spec fn ok_for(
        &self,
        content: Seq<Seq<char>>,
        height: u16,
        tl: int,
        pos: CursorPosition,
        dir: MotionDirection,
    ) -> bool {
        char_search_ok(self.0, content, pos, dir, false)
    }

    open spec fn result_for(
        &self,
        content: Seq<Seq<char>>,
        height: u16,
        tl: int,
        pos: CursorPosition,
        dir: MotionDirection,
    ) -> CursorPosition {
        CursorPosition {
            x: char_search_result(self.0, content[pos.y as int], pos.x as int, dir, false) as u32,
            y: pos.y,
        }
    }

    fn get_new_cursor_position<B: BufferDims + ContentRef>(
        &self,
        buf: B,
        cursor_position: &CursorPosition,
        direction: MotionDirection,
    ) -> (r: CursorPosition) {
        CursorPosition {
            x: get_char_search(self.0, buf.content(), cursor_position, direction, false),
            y: cursor_position.y,
        }
    }
}

} // verus!
