//! Assembly of the rows a bordered pane paints: top border, top padding,
//! content lines (split on newlines, then hard-wrapped), bottom padding,
//! filler up to the declared height, and bottom border. Every row is built
//! so that borders, padding and text together consume exactly the pane's
//! declared width whenever the geometry admits it.

use vstd::prelude::*;
use crate::border::{mask_bit, BufferBorder, PADDING};
use crate::text::{chars_of_str, push_all, string_from_chars};

verus! {

/// Index of the first occurrence of `c` in `s`, or `s.len()` if absent.
pub open spec fn find_char(s: Seq<char>, c: char) -> nat
    decreases s.len(),
{
    if s.len() == 0 {
        0
    } else if s[0] == c {
        0
    } else {
        1 + find_char(s.skip(1), c)
    }
}

/// A scan that stopped at `i` on the first hit (or the end) found
/// `find_char`.
pub proof fn lemma_find_char_is(s: Seq<char>, c: char, i: int)
    requires
        0 <= i <= s.len(),
        forall|k: int| 0 <= k < i ==> s[k] != c,
        i < s.len() ==> s[i] == c,
    ensures
        find_char(s, c) == i,
    decreases s.len(),
{
    if s.len() == 0 {
    } else if s[0] == c {
        assert(i == 0);
    } else {
        assert(s[0] != c);
        assert(i >= 1);
        assert forall|k: int| 0 <= k < i - 1 implies s.skip(1)[k] != c by {
            assert(s.skip(1)[k] == s[k + 1]);
        }
        assert(i - 1 < s.skip(1).len() ==> s.skip(1)[i - 1] == s[i]);
        lemma_find_char_is(s.skip(1), c, i - 1);
    }
}

/// The lines of `s`, split on `'\n'`. An empty text has no lines; a
/// trailing newline does not open a final empty line.
pub open spec fn split_lines(s: Seq<char>) -> Seq<Seq<char>>
    decreases s.len(),
{
    if s.len() == 0 {
        seq![]
    } else {
        let i = find_char(s, '\n');
        if i >= s.len() {
            seq![s]
        } else {
            seq![s.take(i as int)] + split_lines(s.skip(i as int + 1))
        }
    }
}

/// `line` cut into pieces of at most `cap` characters; the whole line if it
/// fits or if no positive cap is available.
pub open spec fn hard_wrap(line: Seq<char>, cap: nat) -> Seq<Seq<char>>
    decreases line.len(),
{
    if line.len() <= cap || cap == 0 {
        seq![line]
    } else {
        seq![line.take(cap as int)] + hard_wrap(line.skip(cap as int), cap)
    }
}

/// Each line wrapped in turn, in order.
pub open spec fn wrap_lines(lines: Seq<Seq<char>>, cap: nat) -> Seq<Seq<char>>
    decreases lines.len(),
{
    if lines.len() == 0 {
        seq![]
    } else {
        hard_wrap(lines[0], cap) + wrap_lines(lines.drop_first(), cap)
    }
}

/// The content chunks of a text: split on newlines, then hard-wrapped.
pub open spec fn wrap_text(s: Seq<char>, cap: nat) -> Seq<Seq<char>> {
    wrap_lines(split_lines(s), cap)
}

/// `c` if `show` holds, else nothing.
pub open spec fn gated(show: bool, c: char) -> Seq<char> {
    if show {
        seq![c]
    } else {
        seq![]
    }
}

/// `n` copies of `c`.
pub open spec fn rep(c: char, n: nat) -> Seq<char> {
    Seq::new(n, |i: int| c)
}

/// A framing row: optional left glyph, `wwb` fill glyphs, optional right
/// glyph.
pub open spec fn frame_row(
    show_left: bool,
    show_right: bool,
    cl: char,
    cr: char,
    fill: char,
    wwb: nat,
) -> Seq<char> {
    gated(show_left, cl) + rep(fill, wwb) + gated(show_right, cr)
}

/// The top border row of a config.
pub open spec fn top_row(cfg: BufferBorder, wwb: nat) -> Seq<char> {
    frame_row(cfg.shows_left(), cfg.shows_right(), cfg.corner[0], cfg.corner[1], cfg.hborder, wwb)
}

/// The bottom border row of a config: bottom-left and bottom-right corner
/// glyphs, clockwise numbering.
pub open spec fn bottom_row(cfg: BufferBorder, wwb: nat) -> Seq<char> {
    frame_row(cfg.shows_left(), cfg.shows_right(), cfg.corner[3], cfg.corner[2], cfg.hborder, wwb)
}

/// A padding or filler row.
pub open spec fn blank_row(cfg: BufferBorder, wwb: nat) -> Seq<char> {
    frame_row(cfg.shows_left(), cfg.shows_right(), cfg.vborder, cfg.vborder, PADDING, wwb)
}

/// Trailing padding so that left pad, chunk and right pad together cover
/// `wwb` cells.
pub open spec fn pad_after(wwb: nat, lpad: nat, chunk_len: nat) -> nat {
    if lpad + chunk_len <= wwb {
        (wwb - lpad - chunk_len) as nat
    } else {
        0
    }
}

/// A content row: optional left edge, left padding, the chunk, padding out
/// to the content width, optional right edge.
pub open spec fn content_row(cfg: BufferBorder, wwb: nat, chunk: Seq<char>) -> Seq<char> {
    gated(cfg.shows_left(), cfg.vborder) + rep(PADDING, cfg.lpad as nat) + chunk + rep(
        PADDING,
        pad_after(wwb, cfg.lpad as nat, chunk.len()),
    ) + gated(cfg.shows_right(), cfg.vborder)
}

/// `n` copies of a row.
pub open spec fn rep_rows(row: Seq<char>, n: nat) -> Seq<Seq<char>> {
    Seq::new(n, |i: int| row)
}

/// A single row if `show` holds, else nothing.
pub open spec fn gated_row(show: bool, row: Seq<char>) -> Seq<Seq<char>> {
    if show {
        seq![row]
    } else {
        seq![]
    }
}

/// The width left for padding and content once the vertical edges are
/// accounted for.
pub open spec fn wwb_of(cfg: BufferBorder, w: nat) -> nat {
    if cfg.n_vborders() <= w {
        (w - cfg.n_vborders()) as nat
    } else {
        0
    }
}

/// The wrap capacity of one content row.
pub open spec fn row_cap(cfg: BufferBorder, w: nat) -> nat {
    let wwb = wwb_of(cfg, w);
    if cfg.lpad + cfg.rpad < wwb {
        (wwb - cfg.lpad - cfg.rpad) as nat
    } else {
        0
    }
}

/// How many filler rows bring the pane to its declared height.
pub open spec fn filler_count(cfg: BufferBorder, h: nat, nchunks: nat) -> nat {
    let used = cfg.n_hborders() + cfg.tpad + cfg.dpad + nchunks;
    if h >= used {
        (h - used) as nat
    } else {
        0
    }
}

/// One content row for each chunk, in order.
pub open spec fn content_rows_of(cfg: BufferBorder, wwb: nat, chunks: Seq<Seq<char>>) -> Seq<
    Seq<char>,
> {
    Seq::new(chunks.len(), |j: int| content_row(cfg, wwb, chunks[j]))
}

/// Every row a bordered pane of size `w` by `h` paints, top to bottom.
pub open spec fn border_rows(text: Seq<char>, cfg: BufferBorder, w: nat, h: nat) -> Seq<Seq<char>> {
    let wwb = wwb_of(cfg, w);
    let chunks = wrap_text(text, row_cap(cfg, w));
    gated_row(cfg.shows_top(), top_row(cfg, wwb)) + rep_rows(blank_row(cfg, wwb), cfg.tpad as nat)
        + content_rows_of(cfg, wwb, chunks) + rep_rows(blank_row(cfg, wwb), cfg.dpad as nat)
        + rep_rows(blank_row(cfg, wwb), filler_count(cfg, h, chunks.len())) + gated_row(
        cfg.shows_down(),
        bottom_row(cfg, wwb),
    )
}

/// The rows joined into one text, each row followed by a newline.
pub open spec fn join_rows(rows: Seq<Seq<char>>) -> Seq<char>
    decreases rows.len(),
{
    if rows.len() == 0 {
        seq![]
    } else {
        rows[0] + seq!['\n'] + join_rows(rows.drop_first())
    }
}

/// The views of a sequence of character vectors.
pub open spec fn views_of(s: Seq<Vec<char>>) -> Seq<Seq<char>> {
    s.map_values(|v: Vec<char>| v@)
}

/// Length and elements of `views_of`.
pub proof fn lemma_views(s: Seq<Vec<char>>)
    ensures
        views_of(s).len() == s.len(),
        forall|j: int| 0 <= j < s.len() ==> #[trigger] views_of(s)[j] == s[j]@,
{
}

proof fn lemma_views_push(s: Seq<Vec<char>>, v: Vec<char>)
    ensures
        views_of(s.push(v)) =~= views_of(s).push(v@),
{
    lemma_views(s);
    lemma_views(s.push(v));
}

proof fn lemma_views_prepend(s: Seq<Vec<char>>, v: Vec<char>)
    ensures
        views_of(s.insert(0, v)) =~= seq![v@] + views_of(s),
{
    lemma_views(s);
    lemma_views(s.insert(0, v));
}

/// Stepping one element into the tail of a sequence.
proof fn lemma_skip_step<A>(s: Seq<A>, i: int)
    requires
        0 <= i < s.len(),
    ensures
        s.skip(i).len() == s.len() - i,
        s.skip(i)[0] == s[i],
        s.skip(i).drop_first() =~= s.skip(i + 1),
{
}

/// Stepping one element into the tail of a sequence of rows.
pub proof fn lemma_line_views_skip_step(s: Seq<Seq<char>>, i: int)
    requires
        0 <= i < s.len(),
    ensures
        s.skip(i).len() == s.len() - i,
        s.skip(i)[0] == s[i],
        s.skip(i).drop_first() =~= s.skip(i + 1),
{
}

/// The characters of `v` between `a` and `b`.
pub fn vec_subrange(v: &Vec<char>, a: usize, b: usize) -> (r: Vec<char>)
    requires
        a <= b <= v@.len(),
    ensures
        r@ == v@.subrange(a as int, b as int),
{
    let mut r: Vec<char> = Vec::new();
    let mut i: usize = a;
    while i < b
        invariant
            a <= i <= b <= v@.len(),
            r@ == v@.subrange(a as int, i as int),
        decreases b - i,
    {
        r.push(v[i]);
        proof {
            assert(r@ =~= v@.subrange(a as int, i as int + 1));
        }
        i += 1;
    }
    r
}

/// The lines of `text`, split on newline characters.
pub fn split_lines_exec(text: &Vec<char>) -> (r: Vec<Vec<char>>)
    ensures
        views_of(r@) == split_lines(text@),
    decreases text@.len(),
{
    if text.len() == 0 {
        Vec::new()
    } else {
        let mut i: usize = 0;
        while i < text.len() && text[i] != '\n'
            invariant
                0 <= i <= text@.len(),
                forall|k: int| 0 <= k < i ==> text@[k] != '\n',
            decreases text@.len() - i,
        {
            i += 1;
        }
        proof {
            lemma_find_char_is(text@, '\n', i as int);
        }
        if i == text.len() {
            let whole = vec_subrange(text, 0, text.len());
            let mut r: Vec<Vec<char>> = Vec::new();
            r.push(whole);
            proof {
                assert(whole@ =~= text@);
                assert(views_of(r@) =~= seq![text@]);
            }
            r
        } else {
            let head = vec_subrange(text, 0, i);
            let rest = vec_subrange(text, i + 1, text.len());
            proof {
                assert(head@ =~= text@.take(i as int));
                assert(rest@ =~= text@.skip(i as int + 1));
            }
            let mut r = split_lines_exec(&rest);
            let ghost pre = r@;
            r.insert(0, head);
            proof {
                lemma_views_prepend(pre, head);
                assert(views_of(r@) =~= seq![head@] + split_lines(rest@));
            }
            r
        }
    }
}

/// `line` cut into pieces of at most `cap` characters.
pub fn wrap_line_exec(line: &Vec<char>, cap: usize) -> (r: Vec<Vec<char>>)
    ensures
        views_of(r@) == hard_wrap(line@, cap as nat),
    decreases line@.len(),
{
    if line.len() <= cap || cap == 0 {
        let whole = vec_subrange(line, 0, line.len());
        let mut r: Vec<Vec<char>> = Vec::new();
        r.push(whole);
        proof {
            assert(whole@ =~= line@);
            assert(views_of(r@) =~= seq![line@]);
        }
        r
    } else {
        let head = vec_subrange(line, 0, cap);
        let rest = vec_subrange(line, cap, line.len());
        proof {
            assert(head@ =~= line@.take(cap as int));
            assert(rest@ =~= line@.skip(cap as int));
        }
        let mut r = wrap_line_exec(&rest, cap);
        let ghost pre = r@;
        r.insert(0, head);
        proof {
            lemma_views_prepend(pre, head);
            assert(views_of(r@) =~= seq![head@] + hard_wrap(rest@, cap as nat));
        }
        r
    }
}

/// The content chunks of `text`: lines split on newlines, each hard-wrapped
/// at `cap`.
pub fn wrap_text_exec(text: &Vec<char>, cap: usize) -> (r: Vec<Vec<char>>)
    ensures
        views_of(r@) == wrap_text(text@, cap as nat),
{
    let lines = split_lines_exec(text);
    let ghost line_views = views_of(lines@);
    let mut chunks: Vec<Vec<char>> = Vec::new();
    proof {
        lemma_views(chunks@);
        assert(views_of(chunks@) =~= Seq::<Seq<char>>::empty());
        assert(line_views.skip(0) =~= line_views);
        assert(views_of(chunks@) + wrap_lines(line_views.skip(0), cap as nat) =~= wrap_text(
            text@,
            cap as nat,
        ));
    }
    let mut i: usize = 0;
    while i < lines.len()
        invariant
            0 <= i <= lines@.len(),
            line_views == views_of(lines@),
            line_views == split_lines(text@),
            views_of(chunks@) + wrap_lines(line_views.skip(i as int), cap as nat) == wrap_text(
                text@,
                cap as nat,
            ),
        decreases lines@.len() - i,
    {
        let mut piece = wrap_line_exec(&lines[i], cap);
        proof {
            lemma_views(lines@);
            lemma_skip_step(line_views, i as int);
            assert(line_views.skip(i as int)[0] == lines@[i as int]@);
            assert(wrap_lines(line_views.skip(i as int), cap as nat) == hard_wrap(
                lines@[i as int]@,
                cap as nat,
            ) + wrap_lines(line_views.skip(i as int + 1), cap as nat));
        }
        let ghost pre_vecs = chunks@;
        let ghost pre = views_of(chunks@);
        let ghost piece_vecs = piece@;
        let ghost piece_views = views_of(piece@);
        chunks.append(&mut piece);
        proof {
            lemma_views(pre_vecs);
            lemma_views(piece_vecs);
            lemma_views(chunks@);
            assert(chunks@ == pre_vecs + piece_vecs);
            assert(views_of(chunks@) =~= pre + piece_views);
            assert(views_of(chunks@) + wrap_lines(line_views.skip(i as int + 1), cap as nat) =~= wrap_text(
                text@,
                cap as nat,
            ));
        }
        i += 1;
    }
    proof {
        assert(line_views.skip(i as int) =~= Seq::<Seq<char>>::empty());
        assert(views_of(chunks@) =~= wrap_text(text@, cap as nat));
    }
    chunks
}

/// Parameters of one framing row.
pub struct CreateLineParams {
    pub width: u16,
    pub show_left: bool,
    pub show_right: bool,
    pub cornerl: char,
    pub cornerr: char,
    pub filler: char,
    pub width_without_border: u16,
}

/// One framing row as a vector of characters.
pub fn frame_row_exec(
    show_left: bool,
    show_right: bool,
    cl: char,
    cr: char,
    fill: char,
    wwb: u16,
) -> (r: Vec<char>)
    ensures
        r@ == frame_row(show_left, show_right, cl, cr, fill, wwb as nat),
{
    let mut r: Vec<char> = Vec::new();
    if show_left {
        r.push(cl);
    }
    crate::text::push_repeat(&mut r, fill, wwb as usize);
    if show_right {
        r.push(cr);
    }
    proof {
        assert(r@ =~= frame_row(show_left, show_right, cl, cr, fill, wwb as nat));
    }
    r
}

/// A horizontal border or blank line, built from explicit parameters.
pub fn create_line(params: &CreateLineParams) -> (r: String)
    ensures
        r@ == frame_row(
            params.show_left,
            params.show_right,
            params.cornerl,
            params.cornerr,
            params.filler,
            params.width_without_border as nat,
        ),
{
    let row = frame_row_exec(
        params.show_left,
        params.show_right,
        params.cornerl,
        params.cornerr,
        params.filler,
        params.width_without_border,
    );
    string_from_chars(&row)
}

/// One content row of a bordered pane.
fn content_row_exec(cfg: &BufferBorder, wwb: u16, chunk: &Vec<char>) -> (r: Vec<char>)
    ensures
        r@ == content_row(*cfg, wwb as nat, chunk@),
{
    let shows = cfg.get_borders_shown();
    let mut r: Vec<char> = Vec::new();
    if shows[0] {
        r.push(cfg.vborder);
    }
    crate::text::push_repeat(&mut r, PADDING, cfg.lpad as usize);
    push_all(&mut r, chunk);
    let fill: usize = if chunk.len() <= (wwb as usize) && (cfg.lpad as usize) <= (wwb as usize)
        - chunk.len() {
        (wwb as usize) - chunk.len() - (cfg.lpad as usize)
    } else {
        0
    };
    crate::text::push_repeat(&mut r, PADDING, fill);
    if shows[3] {
        r.push(cfg.vborder);
    }
    proof {
        assert(r@ =~= content_row(*cfg, wwb as nat, chunk@));
    }
    r
}

/// Appends `count` blank rows to `rows`.
#[verifier::loop_isolation(false)]
fn push_blank_rows(
    rows: &mut Vec<Vec<char>>,
    show_left: bool,
    show_right: bool,
    vglyph: char,
    wwb: u16,
    count: usize,
)
    ensures
        views_of(final(rows)@) =~= views_of(old(rows)@) + rep_rows(
            frame_row(show_left, show_right, vglyph, vglyph, PADDING, wwb as nat),
            count as nat,
        ),
{
    let ghost row = frame_row(show_left, show_right, vglyph, vglyph, PADDING, wwb as nat);
    let mut k: usize = 0;
    proof {
        assert(views_of(rows@) =~= views_of(old(rows)@) + rep_rows(row, 0));
    }
    while k < count
        invariant
            k <= count,
            views_of(rows@) =~= views_of(old(rows)@) + rep_rows(row, k as nat),
        decreases count - k,
    {
        let blank = frame_row_exec(show_left, show_right, vglyph, vglyph, PADDING, wwb);
        let ghost pre = rows@;
        let ghost b = blank;
        rows.push(blank);
        proof {
            lemma_views_push(pre, b);
            assert(rep_rows(row, (k + 1) as nat) =~= rep_rows(row, k as nat).push(row));
            assert(views_of(rows@) =~= views_of(old(rows)@) + rep_rows(row, (k + 1) as nat));
        }
        k += 1;
    }
}

/// Appends one content row per chunk to `rows`.
#[verifier::loop_isolation(false)]
fn push_content_rows(rows: &mut Vec<Vec<char>>, cfg: &BufferBorder, wwb: u16, chunks: &Vec<
    Vec<char>,
>)
    ensures
        views_of(final(rows)@) =~= views_of(old(rows)@) + content_rows_of(
            *cfg,
            wwb as nat,
            views_of(chunks@),
        ),
{
    let mut ci: usize = 0;
    proof {
        lemma_views(chunks@);
        assert(views_of(rows@) =~= views_of(old(rows)@) + content_rows_of(
            *cfg,
            wwb as nat,
            views_of(chunks@).take(0),
        ));
    }
    while ci < chunks.len()
        invariant
            ci <= chunks@.len(),
            views_of(rows@) =~= views_of(old(rows)@) + content_rows_of(
                *cfg,
                wwb as nat,
                views_of(chunks@).take(ci as int),
            ),
        decreases chunks@.len() - ci,
    {
        let row = content_row_exec(cfg, wwb, &chunks[ci]);
        let ghost pre = rows@;
        rows.push(row);
        proof {
            lemma_views(chunks@);
            lemma_views_push(pre, rows@[rows@.len() - 1]);
            assert(content_rows_of(*cfg, wwb as nat, views_of(chunks@).take(ci as int + 1))
                =~= content_rows_of(*cfg, wwb as nat, views_of(chunks@).take(ci as int)).push(
                content_row(*cfg, wwb as nat, chunks@[ci as int]@),
            ));
            assert(views_of(rows@) =~= views_of(old(rows)@) + content_rows_of(
                *cfg,
                wwb as nat,
                views_of(chunks@).take(ci as int + 1),
            ));
        }
        ci += 1;
    }
    proof {
        lemma_views(chunks@);
        assert(views_of(chunks@).take(chunks@.len() as int) =~= views_of(chunks@));
    }
}

/// Every row the pane paints, in paint order.
#[verifier::rlimit(60)]
pub fn border_rows_exec(text: &Vec<char>, cfg: &BufferBorder, w: u16, h: u16) -> (r: Vec<
    Vec<char>,
>)
    ensures
        views_of(r@) == border_rows(text@, *cfg, w as nat, h as nat),
{
    let (vb, hb) = cfg.get_number_of_borders();
    let wwb: u16 = if vb <= w {
        w - vb
    } else {
        0
    };
    let cap: usize = if (cfg.lpad as usize) + (cfg.rpad as usize) < (wwb as usize) {
        (wwb as usize) - (cfg.lpad as usize) - (cfg.rpad as usize)
    } else {
        0
    };
    proof {
        assert(wwb as nat == wwb_of(*cfg, w as nat));
        assert(cap as nat == row_cap(*cfg, w as nat));
    }
    let chunks = wrap_text_exec(text, cap);
    let shows = cfg.get_borders_shown();

    let ghost wwbn = wwb as nat;
    let ghost part_top = gated_row(cfg.shows_top(), top_row(*cfg, wwbn));
    let ghost part_tpad = rep_rows(blank_row(*cfg, wwbn), cfg.tpad as nat);
    let ghost part_content = content_rows_of(*cfg, wwbn, views_of(chunks@));
    let ghost part_dpad = rep_rows(blank_row(*cfg, wwbn), cfg.dpad as nat);
    let ghost part_fill = rep_rows(
        blank_row(*cfg, wwbn),
        filler_count(*cfg, h as nat, views_of(chunks@).len()),
    );
    let ghost part_bottom = gated_row(cfg.shows_down(), bottom_row(*cfg, wwbn));

    let mut rows: Vec<Vec<char>> = Vec::new();
    if shows[1] {
        rows.push(frame_row_exec(shows[0], shows[3], cfg.corner[0], cfg.corner[1], cfg.hborder, wwb));
    }
    proof {
        lemma_views(rows@);
        assert(views_of(rows@) =~= part_top);
    }

    push_blank_rows(&mut rows, shows[0], shows[3], cfg.vborder, wwb, cfg.tpad as usize);
    proof {
        assert(views_of(rows@) =~= part_top + part_tpad);
    }

    push_content_rows(&mut rows, cfg, wwb, &chunks);
    proof {
        assert(views_of(rows@) =~= part_top + part_tpad + part_content);
    }

    push_blank_rows(&mut rows, shows[0], shows[3], cfg.vborder, wwb, cfg.dpad as usize);
    proof {
        assert(views_of(rows@) =~= part_top + part_tpad + part_content + part_dpad);
    }

    // Filler: clamped step-wise subtraction of what is already used equals
    // the clamped subtraction of the whole sum.
    let mut remaining: usize = h as usize;
    remaining = if remaining > hb as usize {
        remaining - hb as usize
    } else {
        0
    };
    remaining = if remaining > cfg.tpad as usize {
        remaining - cfg.tpad as usize
    } else {
        0
    };
    remaining = if remaining > cfg.dpad as usize {
        remaining - cfg.dpad as usize
    } else {
        0
    };
    remaining = if remaining > chunks.len() {
        remaining - chunks.len()
    } else {
        0
    };
    proof {
        lemma_views(chunks@);
        assert(remaining as nat == filler_count(*cfg, h as nat, views_of(chunks@).len()));
    }
    push_blank_rows(&mut rows, shows[0], shows[3], cfg.vborder, wwb, remaining);
    proof {
        assert(views_of(rows@) =~= part_top + part_tpad + part_content + part_dpad + part_fill);
    }

    if shows[2] {
        let ghost pre = rows@;
        rows.push(frame_row_exec(shows[0], shows[3], cfg.corner[3], cfg.corner[2], cfg.hborder, wwb));
        proof {
            lemma_views_push(pre, rows@[rows@.len() - 1]);
        }
    }
    proof {
        assert(views_of(rows@) =~= part_top + part_tpad + part_content + part_dpad + part_fill
            + part_bottom);
    }
    rows
}

/// The rows joined into one string, each row followed by a newline.
pub fn join_rows_exec(rows: &Vec<Vec<char>>) -> (r: Vec<char>)
    ensures
        r@ == join_rows(views_of(rows@)),
{
    let ghost all = views_of(rows@);
    let mut out: Vec<char> = Vec::new();
    proof {
        assert(all.skip(0) =~= all);
        assert(out@ + join_rows(all) =~= join_rows(all));
    }
    let mut i: usize = 0;
    while i < rows.len()
        invariant
            0 <= i <= rows@.len(),
            all == views_of(rows@),
            out@ + join_rows(all.skip(i as int)) == join_rows(all),
        decreases rows@.len() - i,
    {
        proof {
            lemma_skip_step(all, i as int);
            assert(join_rows(all.skip(i as int)) == all[i as int] + seq!['\n'] + join_rows(
                all.skip(i as int + 1),
            ));
        }
        push_all(&mut out, &rows[i]);
        out.push('\n');
        proof {
            assert(out@ + join_rows(all.skip(i as int + 1)) =~= join_rows(all));
        }
        i += 1;
    }
    proof {
        assert(all.skip(i as int) =~= Seq::<Seq<char>>::empty());
        assert(out@ =~= join_rows(all));
    }
    out
}


/// The longest line length among `lines`.
pub open spec fn max_line_len(lines: Seq<Seq<char>>) -> nat
    decreases lines.len(),
{
    if lines.len() == 0 {
        0
    } else {
        let rest = max_line_len(lines.drop_first());
        if lines[0].len() >= rest {
            lines[0].len()
        } else {
            rest
        }
    }
}

/// The width a pane needs to show `text` with the given horizontal padding
/// and both vertical borders.
pub open spec fn auto_width(text: Seq<char>, lpad: nat, rpad: nat) -> nat {
    max_line_len(split_lines(text)) + 2 + lpad + rpad
}

/// The height a pane needs to show `text` with the given vertical padding
/// and both horizontal borders.
pub open spec fn auto_height(text: Seq<char>, tpad: nat, dpad: nat) -> nat {
    split_lines(text).len() + tpad + dpad + 2
}

/// The geometry a border config must satisfy before rendering: the padding
/// must leave room inside the declared size, and the vertical edges must
/// fit in the width. Violations are caller bugs, not runtime states.
pub open spec fn fits(cfg: BufferBorder, w: nat, h: nat) -> bool {
    &&& cfg.n_vborders() <= w
    &&& cfg.lpad + cfg.rpad < w
    &&& cfg.tpad + cfg.dpad < h
}

/// The full bordered rendering of `text`, as one string with a newline
/// after every row.
pub open spec fn bordered(text: Seq<char>, cfg: BufferBorder, w: nat, h: nat) -> Seq<char> {
    join_rows(border_rows(text, cfg, w, h))
}

/// Width and height that fit `content` with the given padding, borders
/// included.
#[verifier::loop_isolation(false)]
pub fn get_auto_size(content: &str, lpad: u16, rpad: u16, tpad: u16, dpad: u16) -> (r: (u16, u16))
    requires
        auto_width(content@, lpad as nat, rpad as nat) <= u16::MAX,
        auto_height(content@, tpad as nat, dpad as nat) <= u16::MAX,
    ensures
        r.0 == auto_width(content@, lpad as nat, rpad as nat),
        r.1 == auto_height(content@, tpad as nat, dpad as nat),
{
    let text = chars_of_str(content);
    let lines = split_lines_exec(&text);
    let ghost line_views = views_of(lines@);
    let mut maxlen: usize = 0;
    proof {
        lemma_views(lines@);
        assert(line_views.skip(0) =~= line_views);
    }
    let mut i: usize = 0;
    while i < lines.len()
        invariant
            0 <= i <= lines@.len(),
            maxlen <= usize::MAX,
            max_line_len(line_views) == (if maxlen >= max_line_len(line_views.skip(i as int)) {
                maxlen as nat
            } else {
                max_line_len(line_views.skip(i as int))
            }),
        decreases lines@.len() - i,
    {
        proof {
            lemma_skip_step(line_views, i as int);
            assert(max_line_len(line_views.skip(i as int)) == (if line_views[i as int].len()
                >= max_line_len(line_views.skip(i as int + 1)) {
                line_views[i as int].len()
            } else {
                max_line_len(line_views.skip(i as int + 1))
            }));
        }
        if lines[i].len() > maxlen {
            maxlen = lines[i].len();
        }
        i += 1;
    }
    proof {
        assert(line_views.skip(i as int) =~= Seq::<Seq<char>>::empty());
        assert(maxlen == max_line_len(line_views));
    }
    let w: u16 = (maxlen as u16) + 2 + lpad + rpad;
    let h: u16 = (lines.len() as u16) + tpad + dpad + 2;
    (w, h)
}

/// Renders `content` inside a border of the given fixed size. Without a
/// config the content is returned as it is.
pub fn to_string_border_full_with_struct(
    content: &str,
    max_width: u16,
    max_height: u16,
    config: Option<&BufferBorder>,
) -> (r: String)
    requires
        match config {
            Some(cfg) => fits(*cfg, max_width as nat, max_height as nat),
            None => true,
        },
    ensures
        match config {
            Some(cfg) => r@ == bordered(content@, *cfg, max_width as nat, max_height as nat),
            None => r@ == content@,
        },
{
    match config {
        None => content.to_owned(),
        Some(cfg) => {
            let text = chars_of_str(content);
            let rows = border_rows_exec(&text, cfg, max_width, max_height);
            let joined = join_rows_exec(&rows);
            string_from_chars(&joined)
        },
    }
}

/// Renders `content` inside a border sized automatically from the content
/// and the config's padding. Without a config the content is returned as
/// it is.
pub fn to_string_border(content: &str, config: Option<&BufferBorder>) -> (r: String)
    requires
        match config {
            Some(cfg) => auto_width(content@, cfg.lpad as nat, cfg.rpad as nat) <= u16::MAX
                && auto_height(content@, cfg.tpad as nat, cfg.dpad as nat) <= u16::MAX,
            None => true,
        },
    ensures
        match config {
            Some(cfg) => r@ == bordered(
                content@,
                *cfg,
                auto_width(content@, cfg.lpad as nat, cfg.rpad as nat),
                auto_height(content@, cfg.tpad as nat, cfg.dpad as nat),
            ),
            None => r@ == content@,
        },
{
    match config {
        None => content.to_owned(),
        Some(cfg) => {
            let (w, h) = get_auto_size(content, cfg.lpad, cfg.rpad, cfg.tpad, cfg.dpad);
            to_string_border_full_with_struct(content, w, h, Some(cfg))
        },
    }
}

/// The visibility mask built from four edge flags, in the order right,
/// bottom, top, left.
pub open spec fn mask_from(right: bool, down: bool, top: bool, left: bool) -> u8 {
    (((if left {
        8int
    } else {
        0int
    }) + (if top {
        4int
    } else {
        0int
    }) + (if down {
        2int
    } else {
        0int
    }) + (if right {
        1int
    } else {
        0int
    })) as u8)
}

proof fn lemma_mask_from_bits(right: bool, down: bool, top: bool, left: bool)
    ensures
        mask_bit(mask_from(right, down, top, left), 3) == left,
        mask_bit(mask_from(right, down, top, left), 2) == top,
        mask_bit(mask_from(right, down, top, left), 1) == down,
        mask_bit(mask_from(right, down, top, left), 0) == right,
{
    let a: u8 = if left {
        1
    } else {
        0
    };
    let b: u8 = if top {
        1
    } else {
        0
    };
    let c: u8 = if down {
        1
    } else {
        0
    };
    let d: u8 = if right {
        1
    } else {
        0
    };
    assert(mask_from(right, down, top, left) == (8 * a + 4 * b + 2 * c + d) as u8);
    let m: u8 = (8 * a + 4 * b + 2 * c + d) as u8;
    assert(((m >> 3) & 1 == 1) == (a == 1) && ((m >> 2) & 1 == 1) == (b == 1) && ((m >> 1) & 1
        == 1) == (c == 1) && ((m >> 0) & 1 == 1) == (d == 1)) by (bit_vector)
        requires
            a <= 1,
            b <= 1,
            c <= 1,
            d <= 1,
            m == (8 * a + 4 * b + 2 * c + d) as u8,
    ;
}

/// The border config assembled from loose parts: edge flags in the order
/// right, bottom, top, left, one glyph for all corners, and padding.
pub open spec fn border_from_parts(
    borders_shown: (bool, bool, bool, bool),
    corner: char,
    hborder: char,
    vborder: char,
    lpad: u16,
    rpad: u16,
    tpad: u16,
    dpad: u16,
) -> BufferBorder {
    BufferBorder {
        border_shown: mask_from(borders_shown.0, borders_shown.1, borders_shown.2, borders_shown.3),
        corner: [corner, corner, corner, corner],
        hborder,
        vborder,
        lpad,
        rpad,
        tpad,
        dpad,
    }
}

/// Builds the border config from loose parts.
fn build_border_from_parts(
    borders_shown: (bool, bool, bool, bool),
    corner: char,
    hborder: char,
    vborder: char,
    lpad: u16,
    rpad: u16,
    tpad: u16,
    dpad: u16,
) -> (cfg: BufferBorder)
    ensures
        cfg == border_from_parts(borders_shown, corner, hborder, vborder, lpad, rpad, tpad, dpad),
        cfg.shows_left() == borders_shown.3,
        cfg.shows_top() == borders_shown.2,
        cfg.shows_down() == borders_shown.1,
        cfg.shows_right() == borders_shown.0,
        cfg.n_vborders() <= 2,
{
    let (r, d, t, l) = borders_shown;
    let mut mask: u8 = 0;
    if l {
        mask += 8;
    }
    if t {
        mask += 4;
    }
    if d {
        mask += 2;
    }
    if r {
        mask += 1;
    }
    proof {
        lemma_mask_from_bits(r, d, t, l);
    }
    BufferBorder::new(mask, [corner, corner, corner, corner], hborder, vborder, lpad, rpad, tpad, dpad)
}

/// Renders `content` in a fixed-size border assembled from loose parts.
pub fn to_string_border_full(
    content: &str,
    max_height: u16,
    max_width: u16,
    borders_shown: (bool, bool, bool, bool),
    corner: char,
    hborder: char,
    vborder: char,
    lpad: u16,
    rpad: u16,
    tpad: u16,
    dpad: u16,
) -> (r: String)
    requires
        fits(
            border_from_parts(borders_shown, corner, hborder, vborder, lpad, rpad, tpad, dpad),
            max_width as nat,
            max_height as nat,
        ),
    ensures
        r@ == bordered(
            content@,
            border_from_parts(borders_shown, corner, hborder, vborder, lpad, rpad, tpad, dpad),
            max_width as nat,
            max_height as nat,
        ),
{
    let cfg = build_border_from_parts(borders_shown, corner, hborder, vborder, lpad, rpad, tpad, dpad);
    to_string_border_full_with_struct(content, max_width, max_height, Some(&cfg))
}

/// Renders `content` in a border assembled from loose parts, sized
/// automatically from the content and padding.
pub fn to_string_border_ipad(
    content: &str,
    show_borders: (bool, bool, bool, bool),
    corner: char,
    hborder: char,
    vborder: char,
    lpad: u16,
    rpad: u16,
    tpad: u16,
    dpad: u16,
) -> (r: String)
    requires
        auto_width(content@, lpad as nat, rpad as nat) <= u16::MAX,
        auto_height(content@, tpad as nat, dpad as nat) <= u16::MAX,
    ensures
        r@ == bordered(
            content@,
            border_from_parts(show_borders, corner, hborder, vborder, lpad, rpad, tpad, dpad),
            auto_width(content@, lpad as nat, rpad as nat),
            auto_height(content@, tpad as nat, dpad as nat),
        ),
{
    let (w, h) = get_auto_size(content, lpad, rpad, tpad, dpad);
    let cfg = build_border_from_parts(show_borders, corner, hborder, vborder, lpad, rpad, tpad, dpad);
    to_string_border_full_with_struct(content, w, h, Some(&cfg))
}


/// With any positive capacity, every chunk the wrapper produces fits it.
pub proof fn lemma_hard_wrap_caps(line: Seq<char>, cap: nat)
    requires
        cap >= 1,
    ensures
        forall|k: int|
            0 <= k < hard_wrap(line, cap).len() ==> (#[trigger] hard_wrap(line, cap)[k]).len()
                <= cap,
    decreases line.len(),
{
    if line.len() <= cap || cap == 0 {
    } else {
        lemma_hard_wrap_caps(line.skip(cap as int), cap);
        assert forall|k: int| 0 <= k < hard_wrap(line, cap).len() implies (#[trigger] hard_wrap(
            line,
            cap,
        )[k]).len() <= cap by {
            if k > 0 {
                assert(hard_wrap(line, cap)[k] == hard_wrap(line.skip(cap as int), cap)[k - 1]);
            }
        }
    }
}

/// Every chunk of a wrapped text fits the capacity.
pub proof fn lemma_wrap_lines_caps(lines: Seq<Seq<char>>, cap: nat)
    requires
        cap >= 1,
    ensures
        forall|k: int|
            0 <= k < wrap_lines(lines, cap).len() ==> (#[trigger] wrap_lines(lines, cap)[k]).len()
                <= cap,
    decreases lines.len(),
{
    if lines.len() == 0 {
    } else {
        lemma_hard_wrap_caps(lines[0], cap);
        lemma_wrap_lines_caps(lines.drop_first(), cap);
        assert forall|k: int| 0 <= k < wrap_lines(lines, cap).len() implies (#[trigger] wrap_lines(
            lines,
            cap,
        )[k]).len() <= cap by {
            let head = hard_wrap(lines[0], cap);
            if k >= head.len() {
                assert(wrap_lines(lines, cap)[k] == wrap_lines(lines.drop_first(), cap)[k
                    - head.len()]);
            } else {
                assert(wrap_lines(lines, cap)[k] == head[k]);
            }
        }
    }
}

/// Border exactness: for any pane of fixed width `w` and height `h` whose
/// border shows all four edges, whose padding leaves room for text, and
/// whose content rows fit the declared height, rendering paints exactly
/// `h` rows, each exactly `w` columns wide — trailing filler and bottom
/// border included.
pub proof fn lemma_border_exactness(text: Seq<char>, cfg: BufferBorder, w: nat, h: nat)
    requires
        cfg.shows_left() && cfg.shows_right() && cfg.shows_top() && cfg.shows_down(),
        w >= 2,
        cfg.lpad + cfg.rpad < w - 2,
        cfg.n_hborders() + cfg.tpad + cfg.dpad + wrap_text(text, row_cap(cfg, w)).len() <= h,
    ensures
        border_rows(text, cfg, w, h).len() == h,
        forall|i: int| 0 <= i < h ==> (#[trigger] border_rows(text, cfg, w, h)[i]).len() == w,
{
    let wwb = wwb_of(cfg, w);
    let cap = row_cap(cfg, w);
    let chunks = wrap_text(text, cap);
    let rows = border_rows(text, cfg, w, h);
    assert(cfg.n_vborders() == 2);
    assert(cfg.n_hborders() == 2);
    assert(wwb == w - 2);
    assert(cap == wwb - cfg.lpad - cfg.rpad);
    assert(cap >= 1);
    lemma_wrap_lines_caps(split_lines(text), cap);
    let filler = filler_count(cfg, h, chunks.len());
    assert(2 + cfg.tpad + cfg.dpad + chunks.len() + filler == h);
    assert(top_row(cfg, wwb).len() == w);
    assert(bottom_row(cfg, wwb).len() == w);
    assert(blank_row(cfg, wwb).len() == w);
    assert forall|k: int| 0 <= k < chunks.len() implies (#[trigger] content_rows_of(
        cfg,
        wwb,
        chunks,
    )[k]).len() == w by {
        assert(chunks[k].len() <= cap);
        assert(pad_after(wwb, cfg.lpad as nat, chunks[k].len()) == wwb - cfg.lpad
            - chunks[k].len());
        assert(content_row(cfg, wwb, chunks[k]).len() == 1 + cfg.lpad + chunks[k].len() + (wwb
            - cfg.lpad - chunks[k].len()) + 1);
    }
    assert(rows.len() == h);
    assert forall|i: int| 0 <= i < h implies (#[trigger] rows[i]).len() == w by {
        let a = gated_row(cfg.shows_top(), top_row(cfg, wwb));
        let b = rep_rows(blank_row(cfg, wwb), cfg.tpad as nat);
        let c = content_rows_of(cfg, wwb, chunks);
        let d = rep_rows(blank_row(cfg, wwb), cfg.dpad as nat);
        let e = rep_rows(blank_row(cfg, wwb), filler);
        let f = gated_row(cfg.shows_down(), bottom_row(cfg, wwb));
        assert(rows == a + b + c + d + e + f);
        if i < 1 {
            assert(rows[i] == top_row(cfg, wwb));
        } else if i < 1 + b.len() {
            assert(rows[i] == b[i - 1]);
        } else if i < 1 + b.len() + c.len() {
            assert(rows[i] == c[i - 1 - b.len()]);
        } else if i < 1 + b.len() + c.len() + d.len() {
            assert(rows[i] == d[i - 1 - b.len() - c.len()]);
        } else if i < 1 + b.len() + c.len() + d.len() + e.len() {
            assert(rows[i] == e[i - 1 - b.len() - c.len() - d.len()]);
        } else {
            assert(rows[i] == bottom_row(cfg, wwb));
        }
    }
}

} // verus!

