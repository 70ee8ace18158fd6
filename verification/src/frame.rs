//! The frame buffer (compositor): one character grid sized to the terminal,
//! a parallel claim bitmap, and three escape-code lists. Writes silently
//! no-op on a cell already claimed this frame — first writer wins, at cell
//! granularity — and a flush gap-fills unclaimed cells and emits one
//! escape-interleaved character stream.

use vstd::prelude::*;
use vstd::multiset::Multiset;
use vstd::arithmetic::div_mod::{lemma_div_is_ordered, lemma_fundamental_div_mod};
use crate::ansi::{code_chars, ANSICode};
use crate::text::{chars_of_str, string_from_chars};

verus! {

/// The glyph written into every cell no pane claimed this frame.
pub const GAP_CHAR: char = '@';

/// How many claim bits one bitmap word packs.
pub const BITS_PER_EL: usize = 32;

/// The abstract state of a frame buffer: the character grid, which cells
/// are claimed this frame, and the three escape-code lists.
#[verifier::ext_equal]
pub ghost struct FrameView {
    pub grid: Seq<char>,
    pub claimed: Seq<bool>,
    pub init_codes: Seq<ANSICode>,
    pub last_codes: Seq<ANSICode>,
    pub codes: Seq<(ANSICode, usize)>,
}

/// Whether claim bit `i` is set in the packed words.
pub open spec fn lock_bit(words: Seq<u32>, i: int) -> bool {
    &&& 0 <= i
    &&& i / 32 < words.len()
    &&& (words[i / 32] >> ((i % 32) as u32)) & 1 == 1
}

/// The claim bits of the first `n` cells.
pub open spec fn claimed_of(words: Seq<u32>, n: nat) -> Seq<bool> {
    Seq::new(n, |i: int| lock_bit(words, i))
}

proof fn lemma_u32_bit01(w: u32, j: u32)
    requires
        j < 32,
    ensures
        ((w >> j) & 1 > 0) == ((w >> j) & 1 == 1),
{
    assert(((w >> j) & 1 > 0) == ((w >> j) & 1 == 1)) by (bit_vector);
}

/// Setting one bit of a word leaves every other bit alone.
proof fn lemma_u32_set_bit(w: u32, j: u32, k: u32)
    requires
        j < 32,
        k < 32,
    ensures
        j == k ==> ((w | (1u32 << j)) >> k) & 1 == 1,
        j != k ==> ((w | (1u32 << j)) >> k) & 1 == (w >> k) & 1,
{
    assert(j == k ==> ((w | (1u32 << j)) >> k) & 1 == 1) by (bit_vector)
        requires
            j < 32,
            k < 32,
    ;
    assert(j != k ==> ((w | (1u32 << j)) >> k) & 1 == (w >> k) & 1) by (bit_vector)
        requires
            j < 32,
            k < 32,
    ;
}

proof fn lemma_u32_zero_bit(j: u32)
    requires
        j < 32,
    ensures
        (0u32 >> j) & 1 == 0,
{
    assert((0u32 >> j) & 1 == 0) by (bit_vector);
}

/// Distinct cell indices differ in their word or in their bit.
proof fn lemma_distinct_cells(i: int, j: int)
    requires
        0 <= i,
        0 <= j,
        i != j,
        i / 32 == j / 32,
    ensures
        i % 32 != j % 32,
{
    lemma_fundamental_div_mod(i, 32);
    lemma_fundamental_div_mod(j, 32);
}

/// The state after writing `c` at cell `idx`: stored and claimed if the
/// cell was free, untouched if it was already claimed.
pub open spec fn spec_write(v: FrameView, idx: int, c: char) -> FrameView {
    if 0 <= idx < v.grid.len() && !v.claimed[idx] {
        FrameView {
            grid: v.grid.update(idx, c),
            claimed: v.claimed.update(idx, true),
            ..v
        }
    } else {
        v
    }
}

/// The state after writing a run of characters at consecutive cells
/// starting at `idx`, each under the claim rule.
pub open spec fn spec_write_seq(v: FrameView, idx: int, s: Seq<char>) -> FrameView
    decreases s.len(),
{
    if s.len() == 0 {
        v
    } else {
        spec_write_seq(spec_write(v, idx, s[0]), idx + 1, s.drop_first())
    }
}

/// Writing one more character continues the run.
pub proof fn lemma_write_seq_snoc(v: FrameView, idx: int, s: Seq<char>, c: char)
    ensures
        spec_write_seq(v, idx, s.push(c)) == spec_write(
            spec_write_seq(v, idx, s),
            idx + s.len(),
            c,
        ),
    decreases s.len(),
{
    if s.len() == 0 {
        assert(s.push(c)[0] == c);
        assert(s.push(c).drop_first() =~= Seq::<char>::empty());
        assert(spec_write_seq(v, idx, s.push(c)) == spec_write_seq(
            spec_write(v, idx, c),
            idx + 1,
            Seq::<char>::empty(),
        ));
        assert(spec_write_seq(spec_write(v, idx, c), idx + 1, Seq::<char>::empty()) == spec_write(
            v,
            idx,
            c,
        ));
        assert(spec_write_seq(v, idx, s) == v);
    } else {
        assert(s.push(c)[0] == s[0]);
        assert(s.push(c).drop_first() =~= s.drop_first().push(c));
        lemma_write_seq_snoc(spec_write(v, idx, s[0]), idx + 1, s.drop_first(), c);
    }
}

/// The grid after gap-filling: claimed cells keep their character, all
/// others hold the gap glyph.
pub open spec fn flush_grid(v: FrameView) -> Seq<char> {
    Seq::new(
        v.grid.len(),
        |i: int|
            if v.claimed[i] {
                v.grid[i]
            } else {
                GAP_CHAR
            },
    )
}

/// A bitmap-guarded frame buffer: a flat character grid, the packed claim
/// bitmap, and the escape codes to emit before, inside and after the grid.
pub struct RenderBuffer {
    data: Vec<char>,
    init_ctrl_codes: Vec<ANSICode>,
    last_ctrl_codes: Vec<ANSICode>,
    ctrl_codes: Vec<(ANSICode, usize)>,
    write_locks: Vec<u32>,
}

impl View for RenderBuffer {
    type V = FrameView;

    closed spec fn view(&self) -> FrameView {
        FrameView {
            grid: self.data@,
            claimed: claimed_of(self.write_locks@, self.data@.len()),
            init_codes: self.init_ctrl_codes@,
            last_codes: self.last_ctrl_codes@,
            codes: self.ctrl_codes@,
        }
    }
}

impl RenderBuffer {
    /// The representation invariant: enough bitmap words for every cell,
    /// and every positional code inside the grid.
    pub closed spec fn wf(&self) -> bool {
        &&& self.data@.len() <= usize::MAX
        &&& self.write_locks@.len() == self.data@.len() / 32 + 1
        &&& forall|k: int|
            0 <= k < self.ctrl_codes@.len() ==> (#[trigger] self.ctrl_codes@[k]).1
                < self.data@.len()
    }

    /// A buffer sized for a `term_width` by `term_height` grid, fully
    /// unclaimed, every cell holding the gap glyph.
    pub fn new(term_width: u16, term_height: u16) -> (r: RenderBuffer)
        ensures
            r.wf(),
            r@.grid.len() == term_width as int * term_height as int,
            r@.grid =~= Seq::new((term_width as nat) * (term_height as nat), |i: int| GAP_CHAR),
            r@.claimed =~= Seq::new((term_width as nat) * (term_height as nat), |i: int| false),
            r@.init_codes.len() == 0,
            r@.last_codes.len() == 0,
            r@.codes.len() == 0,
    {
        proof {
            assert((term_width as int) * (term_height as int) <= 65535int * 65535int)
                by (nonlinear_arith)
                requires
                    term_width <= 65535,
                    term_height <= 65535,
            ;
        }
        let chars_cap: usize = (term_width as usize) * (term_height as usize);
        let mut data: Vec<char> = Vec::new();
        let mut i: usize = 0;
        while i < chars_cap
            invariant
                i <= chars_cap,
                data@ =~= Seq::new(i as nat, |k: int| GAP_CHAR),
            decreases chars_cap - i,
        {
            data.push(GAP_CHAR);
            proof {
                assert(data@ =~= Seq::new((i + 1) as nat, |k: int| GAP_CHAR));
            }
            i += 1;
        }
        let words: usize = chars_cap / BITS_PER_EL + 1;
        let mut write_locks: Vec<u32> = Vec::new();
        let mut j: usize = 0;
        while j < words
            invariant
                j <= words,
                write_locks@ =~= Seq::new(j as nat, |k: int| 0u32),
            decreases words - j,
        {
            write_locks.push(0);
            proof {
                assert(write_locks@ =~= Seq::new((j + 1) as nat, |k: int| 0u32));
            }
            j += 1;
        }
        let r = RenderBuffer {
            data,
            init_ctrl_codes: Vec::new(),
            last_ctrl_codes: Vec::new(),
            ctrl_codes: Vec::new(),
            write_locks,
        };
        proof {
            assert forall|i: int| 0 <= i < r.data@.len() implies !lock_bit(r.write_locks@, i) by {
                lemma_div_is_ordered(i, r.data@.len() as int - 1, 32);
                lemma_u32_zero_bit((i % 32) as u32);
            }
            assert(r@.claimed =~= Seq::new(
                (term_width as nat) * (term_height as nat),
                |i: int| false,
            ));
        }
        r
    }

    /// How many cells the grid holds.
    pub fn grid_len(&self) -> (r: usize)
        ensures
            r == self@.grid.len(),
    {
        self.data.len()
    }

    /// Starts a new frame: every claim bit is reset and the positional
    /// codes of the previous frame are dropped. The grid itself, and the
    /// pre- and post-amble code lists, stay.
    pub fn clear(&mut self)
        requires
            old(self).wf(),
        ensures
            final(self).wf(),
            final(self)@.grid == old(self)@.grid,
            final(self)@.claimed =~= Seq::new(old(self)@.grid.len(), |i: int| false),
            final(self)@.init_codes == old(self)@.init_codes,
            final(self)@.last_codes == old(self)@.last_codes,
            final(self)@.codes.len() == 0,
    {
        let n = self.write_locks.len();
        let mut j: usize = 0;
        while j < n
            invariant
                j <= n,
                n == self.write_locks@.len(),
                self.data@ == old(self).data@,
                self.init_ctrl_codes@ == old(self).init_ctrl_codes@,
                self.last_ctrl_codes@ == old(self).last_ctrl_codes@,
                self.ctrl_codes@ == old(self).ctrl_codes@,
                forall|k: int| 0 <= k < j ==> self.write_locks@[k] == 0,
            decreases n - j,
        {
            self.write_locks.set(j, 0);
            j += 1;
        }
        self.ctrl_codes.clear();
        proof {
            assert forall|i: int| 0 <= i < self.data@.len() implies !lock_bit(
                self.write_locks@,
                i,
            ) by {
                lemma_div_is_ordered(i, self.data@.len() as int - 1, 32);
                lemma_u32_zero_bit((i % 32) as u32);
            }
            assert(self@.claimed =~= Seq::new(old(self)@.grid.len(), |i: int| false));
        }
    }

    /// The linear cell index of `(x, y)` under the rendering-time terminal
    /// width.
    #[inline(always)]
    pub fn conv_idx(x: usize, y: usize, term_width: u16) -> (r: usize)
        requires
            x + y * (term_width as int) <= usize::MAX,
        ensures
            r == x + y * (term_width as int),
    {
        x + y * (term_width as usize)
    }

    /// Tests and takes the claim on cell `idx`: true and claimed if it was
    /// free, false and no change if it was taken.
    fn check_lock(&mut self, idx: usize) -> (r: bool)
        requires
            old(self).wf(),
            idx < old(self)@.grid.len(),
        ensures
            final(self).wf(),
            r == !old(self)@.claimed[idx as int],
            final(self)@.grid == old(self)@.grid,
            final(self)@.init_codes == old(self)@.init_codes,
            final(self)@.last_codes == old(self)@.last_codes,
            final(self)@.codes == old(self)@.codes,
            r ==> final(self)@.claimed =~= old(self)@.claimed.update(idx as int, true),
            !r ==> final(self)@.claimed == old(self)@.claimed,
    {
        proof {
            lemma_div_is_ordered(idx as int, self.data@.len() as int - 1, 32);
            lemma_u32_bit01(self.write_locks@[idx as int / 32], (idx % 32) as u32);
        }
        let word_idx = idx / BITS_PER_EL;
        let bit_idx = (idx % BITS_PER_EL) as u32;
        let word = self.write_locks[word_idx];
        if (word >> bit_idx) & 1 == 0 {
            self.write_locks.set(word_idx, word | (1u32 << bit_idx));
            proof {
                assert forall|i: int| 0 <= i < self.data@.len() implies lock_bit(
                    self.write_locks@,
                    i,
                ) == if i == idx {
                    true
                } else {
                    lock_bit(old(self).write_locks@, i)
                } by {
                    lemma_div_is_ordered(i, self.data@.len() as int - 1, 32);
                    if i / 32 == idx as int / 32 {
                        if i != idx {
                            lemma_distinct_cells(i, idx as int);
                        }
                        lemma_u32_set_bit(
                            old(self).write_locks@[i / 32],
                            (idx as int % 32) as u32,
                            (i % 32) as u32,
                        );
                    }
                }
                assert(self@.claimed =~= old(self)@.claimed.update(idx as int, true));
            }
            true
        } else {
            false
        }
    }

    /// Writes one character at cell `idx` under the claim rule.
    fn write_at(&mut self, idx: usize, c: char)
        requires
            old(self).wf(),
            idx < old(self)@.grid.len(),
        ensures
            final(self).wf(),
            final(self)@ == spec_write(old(self)@, idx as int, c),
    {
        if self.check_lock(idx) {
            self.data.set(idx, c);
        }
        proof {
            assert(self@ =~= spec_write(old(self)@, idx as int, c));
        }
    }

    /// Writes one character at `(x, y)` under the claim rule: a cell
    /// already claimed this frame keeps its first writer's character.
    pub fn write(&mut self, x: usize, y: usize, term_width: u16, c: char)
        requires
            old(self).wf(),
            x + y * (term_width as int) < old(self)@.grid.len(),
        ensures
            final(self).wf(),
            final(self)@ == spec_write(old(self)@, x + y * (term_width as int), c),
    {
        let idx = RenderBuffer::conv_idx(x, y, term_width);
        self.write_at(idx, c);
    }

    /// Writes a run of characters at consecutive cells starting at `idx`,
    /// each cell under the claim rule.
    pub fn write_chars_idx(&mut self, idx: usize, s: &Vec<char>)
        requires
            old(self).wf(),
            idx + s@.len() <= old(self)@.grid.len(),
        ensures
            final(self).wf(),
            final(self)@ == spec_write_seq(old(self)@, idx as int, s@),
    {
        let start = idx;
        let ghost v0 = self@;
        let mut i: usize = 0;
        proof {
            assert(s@.take(0) =~= Seq::<char>::empty());
        }
        while i < s.len()
            invariant
                i <= s@.len(),
                start == idx,
                start + s@.len() <= self@.grid.len(),
                self.wf(),
                self@ == spec_write_seq(v0, start as int, s@.take(i as int)),
                self@.grid.len() == v0.grid.len(),
            decreases s@.len() - i,
        {
            proof {
                lemma_write_seq_snoc(v0, start as int, s@.take(i as int), s@[i as int]);
                assert(s@.take(i as int).push(s@[i as int]) =~= s@.take(i as int + 1));
            }
            self.write_at(start + i, s[i]);
            i += 1;
        }
        proof {
            assert(s@.take(s@.len() as int) =~= s@);
        }
    }

    /// Writes a run of characters left to right from `(x, y)`, each cell
    /// under the claim rule.
    pub fn write_chars(&mut self, x: usize, y: usize, term_width: u16, s: &Vec<char>)
        requires
            old(self).wf(),
            x + y * (term_width as int) + s@.len() <= old(self)@.grid.len(),
        ensures
            final(self).wf(),
            final(self)@ == spec_write_seq(old(self)@, x + y * (term_width as int), s@),
    {
        let start = RenderBuffer::conv_idx(x, y, term_width);
        self.write_chars_idx(start, s);
    }

    /// Writes the characters of `s` left to right from `(x, y)`, each cell
    /// under the claim rule.
    pub fn write_str(&mut self, x: usize, y: usize, term_width: u16, s: &str)
        requires
            old(self).wf(),
            x + y * (term_width as int) + s@.len() <= old(self)@.grid.len(),
        ensures
            final(self).wf(),
            final(self)@ == spec_write_seq(old(self)@, x + y * (term_width as int), s@),
    {
        let v = chars_of_str(s);
        self.write_chars(x, y, term_width, &v);
    }

    /// Appends a code to the list emitted after the whole grid.
    pub fn add_last_ctrl_code(&mut self, code: ANSICode)
        requires
            old(self).wf(),
        ensures
            final(self).wf(),
            final(self)@ == (FrameView {
                last_codes: old(self)@.last_codes.push(code),
                ..old(self)@
            }),
    {
        self.last_ctrl_codes.push(code);
        proof {
            assert(final(self)@ =~= (FrameView {
                last_codes: old(self)@.last_codes.push(code),
                ..old(self)@
            }));
        }
    }

    /// Appends a code to the list emitted before the grid.
    pub fn add_init_ctrl_code(&mut self, code: ANSICode)
        requires
            old(self).wf(),
        ensures
            final(self).wf(),
            final(self)@ == (FrameView {
                init_codes: old(self)@.init_codes.push(code),
                ..old(self)@
            }),
    {
        self.init_ctrl_codes.push(code);
        proof {
            assert(final(self)@ =~= (FrameView {
                init_codes: old(self)@.init_codes.push(code),
                ..old(self)@
            }));
        }
    }

    /// Records a positional code for a cell, unless that cell is already
    /// claimed this frame.
    pub fn add_ctrl_code_single_idx(&mut self, code: (ANSICode, usize))
        requires
            old(self).wf(),
            code.1 < old(self)@.grid.len(),
        ensures
            final(self).wf(),
            final(self)@ == (FrameView {
                codes: if old(self)@.claimed[code.1 as int] {
                    old(self)@.codes
                } else {
                    old(self)@.codes.push(code)
                },
                ..old(self)@
            }),
    {
        proof {
            lemma_div_is_ordered(code.1 as int, self.data@.len() as int - 1, 32);
            lemma_u32_bit01(self.write_locks@[code.1 as int / 32], (code.1 % 32) as u32);
        }
        let word = self.write_locks[code.1 / BITS_PER_EL];
        if (word >> ((code.1 % BITS_PER_EL) as u32)) & 1 == 0 {
            self.ctrl_codes.push(code);
        }
        proof {
            assert(final(self)@ =~= (FrameView {
                codes: if old(self)@.claimed[code.1 as int] {
                    old(self)@.codes
                } else {
                    old(self)@.codes.push(code)
                },
                ..old(self)@
            }));
        }
    }

    /// Records a positional code for the cell at `(x, y)`, unless that
    /// cell is already claimed this frame.
    pub fn add_ctrl_code(&mut self, code: ANSICode, x: usize, y: usize, term_width: u16)
        requires
            old(self).wf(),
            x + y * (term_width as int) < old(self)@.grid.len(),
        ensures
            final(self).wf(),
            final(self)@ == (FrameView {
                codes: if old(self)@.claimed[x + y * (term_width as int)] {
                    old(self)@.codes
                } else {
                    old(self)@.codes.push((code, (x + y * (term_width as int)) as usize))
                },
                ..old(self)@
            }),
    {
        let idx = RenderBuffer::conv_idx(x, y, term_width);
        self.add_ctrl_code_single_idx((code, idx));
    }

    /// Gap-fills the grid: every cell left unclaimed this frame receives
    /// the gap glyph, so the whole grid is defined.
    pub fn fill_rest(&mut self)
        requires
            old(self).wf(),
        ensures
            final(self).wf(),
            final(self)@ == (FrameView { grid: flush_grid(old(self)@), ..old(self)@ }),
    {
        let n = self.data.len();
        let mut i: usize = 0;
        while i < n
            invariant
                i <= n,
                n == self.data@.len(),
                self.wf(),
                self.write_locks@ == old(self).write_locks@,
                self.init_ctrl_codes@ == old(self).init_ctrl_codes@,
                self.last_ctrl_codes@ == old(self).last_ctrl_codes@,
                self.ctrl_codes@ == old(self).ctrl_codes@,
                self.data@.len() == old(self).data@.len(),
                forall|k: int|
                    0 <= k < i ==> self.data@[k] == (if old(self)@.claimed[k] {
                        old(self)@.grid[k]
                    } else {
                        GAP_CHAR
                    }),
                forall|k: int| i <= k < n ==> self.data@[k] == old(self)@.grid[k],
            decreases n - i,
        {
            proof {
                lemma_div_is_ordered(i as int, self.data@.len() as int - 1, 32);
                lemma_u32_bit01(self.write_locks@[i as int / 32], (i % 32) as u32);
            }
            let word = self.write_locks[i / BITS_PER_EL];
            if (word >> ((i % BITS_PER_EL) as u32)) & 1 == 0 {
                self.data.set(i, GAP_CHAR);
            }
            i += 1;
        }
        proof {
            assert(self@ =~= (FrameView { grid: flush_grid(old(self)@), ..old(self)@ }));
        }
    }
}


/// The control-sequence characters of a list of codes, in order.
pub open spec fn concat_codes(cs: Seq<ANSICode>) -> Seq<char>
    decreases cs.len(),
{
    if cs.len() == 0 {
        seq![]
    } else {
        code_chars(cs[0]) + concat_codes(cs.drop_first())
    }
}

/// Positional codes listed in ascending cell-index order.
pub open spec fn sorted_by_idx(cs: Seq<(ANSICode, usize)>) -> bool {
    forall|i: int, j: int| 0 <= i < j < cs.len() ==> (#[trigger] cs[i]).1 <= (#[trigger] cs[j]).1
}

/// The character stream of the grid from cell `i` on, with each positional
/// code emitted just before its cell. `codes` is consumed from the front
/// and is expected ascending.
pub open spec fn emit_cells(grid: Seq<char>, codes: Seq<(ANSICode, usize)>, i: int) -> Seq<char>
    decreases grid.len() - i, codes.len(),
{
    if i < 0 || i >= grid.len() {
        seq![]
    } else if codes.len() > 0 && codes[0].1 == i {
        code_chars(codes[0].0) + emit_cells(grid, codes.drop_first(), i)
    } else {
        seq![grid[i]] + emit_cells(grid, codes, i + 1)
    }
}

/// The whole emission of one flush: the pre-amble codes, the gap-filled
/// grid interleaved with the sorted positional codes, the post-amble
/// codes.
pub open spec fn flush_output(v: FrameView, sorted: Seq<(ANSICode, usize)>) -> Seq<char> {
    concat_codes(v.init_codes) + emit_cells(flush_grid(v), sorted, 0) + concat_codes(v.last_codes)
}

/// Sorts positional codes ascending by cell index; the result is a
/// permutation of the input.
#[verifier::loop_isolation(false)]
fn sort_codes(v: Vec<(ANSICode, usize)>) -> (r: Vec<(ANSICode, usize)>)
    ensures
        sorted_by_idx(r@),
        r@.to_multiset() == v@.to_multiset(),
{
    broadcast use vstd::seq_lib::group_to_multiset_ensures;

    let mut src = v;
    let mut out: Vec<(ANSICode, usize)> = Vec::new();
    proof {
        assert(out@.to_multiset().add(src@.to_multiset()) =~= v@.to_multiset());
    }
    while src.len() > 0
        invariant
            sorted_by_idx(out@),
            out@.to_multiset().add(src@.to_multiset()) == v@.to_multiset(),
            forall|a: int, b: int|
                0 <= a < out@.len() && 0 <= b < src@.len() ==> (#[trigger] out@[a]).1 <= (
                #[trigger] src@[b]).1,
        decreases src@.len(),
    {
        let mut m: usize = 0;
        let mut j: usize = 1;
        while j < src.len()
            invariant
                m < j || (j == 1 && m == 0),
                m < src@.len(),
                j <= src@.len(),
                src@.len() > 0,
                forall|k: int| 0 <= k < j ==> (#[trigger] src@[k]).1 >= src@[m as int].1,
            decreases src@.len() - j,
        {
            if src[j].1 < src[m].1 {
                m = j;
            }
            j += 1;
        }
        let ghost src_pre = src@;
        let ghost out_pre = out@;
        let x = src.remove(m);
        out.push(x);
        proof {
            assert(src_pre.contains(src_pre[m as int]));
            assert(x == src_pre[m as int]);
            assert(src@ == src_pre.remove(m as int));
            assert(src_pre.remove(m as int).to_multiset() =~= src_pre.to_multiset().remove(x));
            assert(out@ == out_pre.push(x));
            assert(out_pre.push(x).to_multiset() =~= out_pre.to_multiset().insert(x));
            assert(out@.to_multiset().add(src@.to_multiset()) =~= v@.to_multiset()) by {
                assert forall|e: (ANSICode, usize)|
                    out@.to_multiset().add(src@.to_multiset()).count(e) == v@.to_multiset().count(
                        e,
                    ) by {
                    assert(src_pre.to_multiset().count(x) > 0);
                }
            }
            assert forall|a: int, b: int|
                0 <= a < out@.len() && 0 <= b < src@.len() implies (#[trigger] out@[a]).1 <= (
            #[trigger] src@[b]).1 by {
                assert(src@[b] == if b < m {
                    src_pre[b]
                } else {
                    src_pre[b + 1]
                });
                if a < out_pre.len() {
                    assert(out@[a] == out_pre[a]);
                } else {
                    assert(out@[a] == x);
                }
            }
            assert(sorted_by_idx(out@)) by {
                assert forall|a: int, b: int| 0 <= a < b < out@.len() implies (
                #[trigger] out@[a]).1 <= (#[trigger] out@[b]).1 by {
                    if b < out_pre.len() {
                        assert(out@[a] == out_pre[a] && out@[b] == out_pre[b]);
                    } else {
                        assert(out@[b] == x);
                        assert(src_pre.contains(x));
                    }
                }
            }
        }
    }
    proof {
        assert(src@.to_multiset() =~= Multiset::<(ANSICode, usize)>::empty());
        assert(out@.to_multiset() =~= v@.to_multiset());
    }
    out
}

/// Appends the control sequences of every code in `cs` to `out`.
#[verifier::loop_isolation(false)]
fn push_concat_codes(out: &mut Vec<char>, cs: &Vec<ANSICode>)
    ensures
        final(out)@ == old(out)@ + concat_codes(cs@),
{
    let mut k: usize = 0;
    proof {
        assert(cs@.skip(0) =~= cs@);
    }
    while k < cs.len()
        invariant
            k <= cs@.len(),
            out@ + concat_codes(cs@.skip(k as int)) == old(out)@ + concat_codes(cs@),
        decreases cs@.len() - k,
    {
        proof {
            assert(cs@.skip(k as int).len() > 0);
            assert(cs@.skip(k as int)[0] == cs@[k as int]);
            assert(cs@.skip(k as int).drop_first() =~= cs@.skip(k as int + 1));
        }
        crate::ansi::push_code(out, cs[k]);
        k += 1;
    }
    proof {
        assert(cs@.skip(cs@.len() as int) =~= Seq::<ANSICode>::empty());
        assert(out@ =~= old(out)@ + concat_codes(cs@));
    }
}

/// Appends the escape-interleaved grid stream to `out`.
#[verifier::loop_isolation(false)]
fn push_emit_cells(out: &mut Vec<char>, grid: &Vec<char>, codes: &Vec<(ANSICode, usize)>)
    requires
        sorted_by_idx(codes@),
        forall|k: int| 0 <= k < codes@.len() ==> (#[trigger] codes@[k]).1 < grid@.len(),
    ensures
        final(out)@ == old(out)@ + emit_cells(grid@, codes@, 0),
{
    let mut i: usize = 0;
    let mut ci: usize = 0;
    proof {
        assert(codes@.skip(0) =~= codes@);
    }
    while i < grid.len()
        invariant
            i <= grid@.len(),
            ci <= codes@.len(),
            forall|k: int| ci <= k < codes@.len() ==> (#[trigger] codes@[k]).1 >= i,
            out@ + emit_cells(grid@, codes@.skip(ci as int), i as int) == old(out)@ + emit_cells(
                grid@,
                codes@,
                0,
            ),
        decreases grid@.len() - i,
    {
        while ci < codes.len() && codes[ci].1 == i
            invariant
                i < grid@.len(),
                ci <= codes@.len(),
                forall|k: int| ci <= k < codes@.len() ==> (#[trigger] codes@[k]).1 >= i,
                out@ + emit_cells(grid@, codes@.skip(ci as int), i as int) == old(out)@
                    + emit_cells(grid@, codes@, 0),
            decreases codes@.len() - ci,
        {
            proof {
                assert(codes@.skip(ci as int)[0] == codes@[ci as int]);
                assert(codes@.skip(ci as int).drop_first() =~= codes@.skip(ci as int + 1));
                assert(emit_cells(grid@, codes@.skip(ci as int), i as int) == code_chars(
                    codes@[ci as int].0,
                ) + emit_cells(grid@, codes@.skip(ci as int + 1), i as int));
            }
            crate::ansi::push_code(out, codes[ci].0);
            ci += 1;
        }
        proof {
            let rest = codes@.skip(ci as int);
            assert(rest.len() > 0 ==> rest[0] == codes@[ci as int]);
            assert(!(rest.len() > 0 && rest[0].1 == i));
            assert(emit_cells(grid@, rest, i as int) == seq![grid@[i as int]] + emit_cells(
                grid@,
                rest,
                i as int + 1,
            ));
            assert forall|k: int| ci <= k < codes@.len() implies (#[trigger] codes@[k]).1 >= i + 1
                by {
                assert(codes@[ci as int].1 <= codes@[k].1);
            }
        }
        out.push(grid[i]);
        i += 1;
    }
    proof {
        assert(emit_cells(grid@, codes@.skip(ci as int), i as int) =~= Seq::<char>::empty());
        assert(out@ =~= old(out)@ + emit_cells(grid@, codes@, 0));
    }
}

impl RenderBuffer {
    /// Finalizes the frame: gap-fills every unclaimed cell, consumes the
    /// positional codes, and returns the emission — pre-amble codes, the
    /// grid with the positional codes interleaved in ascending cell-index
    /// order whatever order they were added in, and post-amble codes.
    pub fn flush(&mut self) -> (r: String)
        requires
            old(self).wf(),
        ensures
            final(self).wf(),
            final(self)@.grid == flush_grid(old(self)@),
            final(self)@.claimed == old(self)@.claimed,
            final(self)@.init_codes == old(self)@.init_codes,
            final(self)@.last_codes == old(self)@.last_codes,
            final(self)@.codes.len() == 0,
            exists|sorted: Seq<(ANSICode, usize)>|
                {
                    &&& sorted.to_multiset() == old(self)@.codes.to_multiset()
                    &&& #[trigger] sorted_by_idx(sorted)
                    &&& r@ == flush_output(old(self)@, sorted)
                },
    {
        broadcast use vstd::seq_lib::group_to_multiset_ensures;

        self.fill_rest();
        let mut codes: Vec<(ANSICode, usize)> = Vec::new();
        core::mem::swap(&mut codes, &mut self.ctrl_codes);
        let ghost unsorted = codes@;
        let sorted = sort_codes(codes);
        proof {
            assert forall|k: int| 0 <= k < sorted@.len() implies (#[trigger] sorted@[k]).1
                < self.data@.len() by {
                assert(sorted@.to_multiset().count(sorted@[k]) > 0);
                assert(unsorted.contains(sorted@[k]));
            }
        }
        let mut out: Vec<char> = Vec::new();
        push_concat_codes(&mut out, &self.init_ctrl_codes);
        push_emit_cells(&mut out, &self.data, &sorted);
        push_concat_codes(&mut out, &self.last_ctrl_codes);
        proof {
            assert(out@ =~= flush_output(old(self)@, sorted@));
        }
        string_from_chars(&out)
    }

    /// Some single set bit of `val` as a power of two, or zero for zero.
    pub fn find_nearest_smaller_pow2(val: u32) -> (r: u32)
        ensures
            val == 0 ==> r == 0,
            val != 0 ==> (exists|k: u32| k < 32 && r == 1u32 << k) && r & val == r && r != 0,
    {
        if val == 0 {
            return 0;
        }
        let mut k: u32 = 0;
        proof {
            assert(val % (1u32 << 0) == 0) by (bit_vector);
        }
        while k < 31 && (val >> k) & 1 == 0
            invariant
                k <= 31,
                val % (1u32 << k) == 0,
            decreases 31 - k,
        {
            proof {
                assert(((val >> k) & 1 == 0 && val % (1u32 << k) == 0) ==> val % (1u32 << (k + 1))
                    == 0) by (bit_vector)
                    requires
                        k < 31,
                ;
            }
            k += 1;
        }
        if (val >> k) & 1 == 1 {
            let r = 1u32 << k;
            proof {
                assert(((val >> k) & 1 == 1) ==> ((1u32 << k) & val == 1u32 << k && 1u32 << k != 0))
                    by (bit_vector)
                    requires
                        k < 32,
                ;
                assert(exists|kk: u32| kk < 32 && r == 1u32 << kk) by {
                    assert(k < 32 && r == 1u32 << k);
                }
            }
            r
        } else {
            proof {
                assert(((val >> k) & 1 == 0) || ((val >> k) & 1 == 1)) by (bit_vector);
                assert(!(val % (1u32 << 31) == 0 && (val >> 31u32) & 1 != 1 && val != 0))
                    by (bit_vector);
            }
            1
        }
    }
}

/// A frame-long sequence of single-cell writes, applied in order under the
/// claim rule.
pub open spec fn apply_writes(v: FrameView, ops: Seq<(int, char)>) -> FrameView
    decreases ops.len(),
{
    if ops.len() == 0 {
        v
    } else {
        apply_writes(spec_write(v, ops[0].0, ops[0].1), ops.drop_first())
    }
}

/// A cell already claimed keeps its character and its claim through any
/// further writes.
pub proof fn lemma_claimed_cell_stable(v: FrameView, ops: Seq<(int, char)>, i: int)
    requires
        v.claimed.len() == v.grid.len(),
        0 <= i < v.grid.len(),
        v.claimed[i],
    ensures
        apply_writes(v, ops).grid.len() == v.grid.len(),
        apply_writes(v, ops).claimed.len() == v.claimed.len(),
        apply_writes(v, ops).grid[i] == v.grid[i],
        apply_writes(v, ops).claimed[i],
    decreases ops.len(),
{
    if ops.len() == 0 {
    } else {
        lemma_claimed_cell_stable(spec_write(v, ops[0].0, ops[0].1), ops.drop_first(), i);
    }
}

/// Claim monotonicity: for any sequence of writes within one frame, a
/// cell's final character is the one stored by the first write that
/// targeted it; every later write to that cell is a no-op.
pub proof fn lemma_first_writer_wins(v: FrameView, ops: Seq<(int, char)>, i: int, k: int)
    requires
        v.claimed.len() == v.grid.len(),
        0 <= i < v.grid.len(),
        !v.claimed[i],
        0 <= k < ops.len(),
        ops[k].0 == i,
        forall|j: int| 0 <= j < k ==> (#[trigger] ops[j]).0 != i,
    ensures
        apply_writes(v, ops).grid[i] == ops[k].1,
        apply_writes(v, ops).claimed[i],
    decreases ops.len(),
{
    let v1 = spec_write(v, ops[0].0, ops[0].1);
    if k == 0 {
        assert(v1.grid[i] == ops[0].1);
        assert(v1.claimed[i]);
        lemma_claimed_cell_stable(v1, ops.drop_first(), i);
    } else {
        assert(ops[0].0 != i);
        assert(v1.claimed.len() == v1.grid.len());
        assert(!v1.claimed[i]);
        assert forall|j: int| 0 <= j < k - 1 implies (#[trigger] ops.drop_first()[j]).0 != i by {
            assert(ops.drop_first()[j] == ops[j + 1]);
        }
        assert(ops.drop_first()[k - 1] == ops[k]);
        lemma_first_writer_wins(v1, ops.drop_first(), i, k - 1);
    }
}

/// Full coverage: after a flush, every cell of the grid holds a defined
/// character — what its first writer stored if the cell was claimed, else
/// the gap glyph.
pub proof fn lemma_full_coverage(v: FrameView, i: int)
    requires
        0 <= i < v.grid.len(),
    ensures
        flush_grid(v).len() == v.grid.len(),
        v.claimed[i] ==> flush_grid(v)[i] == v.grid[i],
        !v.claimed[i] ==> flush_grid(v)[i] == GAP_CHAR,
{
}

/// No stale cells: once the claim bitmap is reset, a flush with no
/// intervening writes paints every cell with the gap glyph — nothing of
/// the previous frame survives.
pub proof fn lemma_no_stale_after_clear(v: FrameView, i: int)
    requires
        0 <= i < v.grid.len(),
        forall|k: int| 0 <= k < v.claimed.len() ==> !v.claimed[k],
        v.claimed.len() == v.grid.len(),
    ensures
        flush_grid(v)[i] == GAP_CHAR,
{
}

} // verus!
