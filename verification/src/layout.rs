//! The layout engine: a pluggable policy per layer owns a keyed collection
//! of panes and repositions them. The built-in policy is a master/stack
//! tiler: one master pane spans the full height on the left, the remaining
//! panes stack top to bottom beside it in ascending id order.

use vstd::prelude::*;
use vstd::arithmetic::div_mod::lemma_fundamental_div_mod;
use crate::border::BufferBorder;
use crate::frame::{FrameView, RenderBuffer};
use crate::pane::Buffer;

verus! {

/// The id a layer assigns to a pane: allocated monotonically, never
/// reused.
pub type BufferId = u32;

/// Whether the keyed collection holds a pane under `id`.
pub open spec fn stack_has(s: Seq<(BufferId, Buffer)>, id: BufferId) -> bool {
    exists|i: int| 0 <= i < s.len() && (#[trigger] s[i]).0 == id
}

/// The position of `id` in the keyed collection.
pub open spec fn stack_idx(s: Seq<(BufferId, Buffer)>, id: BufferId) -> int {
    choose|i: int| 0 <= i < s.len() && (#[trigger] s[i]).0 == id
}

/// The pane the keyed collection holds under `id`.
pub open spec fn stack_get(s: Seq<(BufferId, Buffer)>, id: BufferId) -> Buffer {
    s[stack_idx(s, id)].1
}

/// Keys strictly increase along the collection.
pub open spec fn stack_sorted(s: Seq<(BufferId, Buffer)>) -> bool {
    forall|i: int, j: int| 0 <= i < j < s.len() ==> (#[trigger] s[i]).0 < (#[trigger] s[j]).0
}

/// In a sorted collection an id names at most one slot.
pub proof fn lemma_stack_idx_unique(s: Seq<(BufferId, Buffer)>, id: BufferId, i: int)
    requires
        stack_sorted(s),
        0 <= i < s.len(),
        s[i].0 == id,
    ensures
        stack_has(s, id),
        stack_idx(s, id) == i,
        stack_get(s, id) == s[i].1,
{
    assert(stack_has(s, id));
    let j = stack_idx(s, id);
    if j < i {
        assert(s[j].0 < s[i].0);
    } else if j > i {
        assert(s[i].0 < s[j].0);
    }
}

/// A mutable borrow of the pane in slot `i`; the key and every other
/// slot stay.
fn stack_entry_mut(v: &mut Vec<(BufferId, Buffer)>, i: usize) -> (r: &mut Buffer)
    requires
        i < old(v)@.len(),
    ensures
        *r == old(v)@[i as int].1,
        final(v)@ == old(v)@.update(i as int, (old(v)@[i as int].0, *final(r))),
{
    let entry = &mut v[i];
    &mut entry.1
}

/// What a pane keeps across a reorder: its content, its annotations and
/// its cursor.
pub open spec fn same_payload(a: Buffer, b: Buffer) -> bool {
    &&& a.content == b.content
    &&& a.ctrl_codes == b.ctrl_codes
    &&& a.cursor_pos == b.cursor_pos
}

/// The master's place after a reorder over `n` stack panes: the full
/// height at the origin, `split` wide while any stack pane exists, else
/// the full terminal width, with every border edge shown.
pub open spec fn master_arranged(
    m: Buffer,
    old_m: Buffer,
    split: u16,
    n: int,
    tw: u16,
    th: u16,
) -> bool {
    &&& m.offx == 0
    &&& m.offy == 0
    &&& m.height == th
    &&& m.width == (if n > 0 {
        split as int
    } else {
        tw as int
    })
    &&& same_payload(m, old_m)
    &&& (m.border is Some <==> old_m.border is Some)
    &&& match (m.border, old_m.border) {
        (Some(b), Some(ob)) => b.border_shown == 0xF && b.same_glyphs(&ob),
        _ => true,
    }
}

/// Stack pane `i` of `n` after a reorder: to the right of the split, its
/// slice of the height in ascending id order; the last pane absorbs the
/// division remainder; the left edge is suppressed everywhere, the top
/// edge everywhere but on the first pane.
pub open spec fn stack_arranged(
    p: Buffer,
    old_p: Buffer,
    i: int,
    n: int,
    split: u16,
    tw: u16,
    th: u16,
) -> bool {
    let per = (th as int) / n;
    &&& p.offx == split
    &&& p.width == tw - split
    &&& p.offy == i * per
    &&& p.height == (if i == n - 1 {
        th - per * (n - 1)
    } else {
        per
    })
    &&& same_payload(p, old_p)
    &&& (p.border is Some <==> old_p.border is Some)
    &&& match (p.border, old_p.border) {
        (Some(b), Some(ob)) => {
            &&& !b.shows_left()
            &&& b.shows_top() == (i == 0)
            &&& b.shows_down() == ob.shows_down()
            &&& b.shows_right() == ob.shows_right()
            &&& b.same_glyphs(&ob)
        },
        _ => true,
    }
}

/// The built-in master/stack tiling policy of one layer.
pub struct MasterLayout {
    pub master_id: BufferId,
    pub top_key: BufferId,
    pub master: Option<Buffer>,
    pub split_width: u16,
    pub buffers: Vec<(BufferId, Buffer)>,
}

impl MasterLayout {
    /// The layer invariant: stack keys strictly ascending, every key below
    /// the allocation counter, the master's id outside the stack, and no
    /// stack without a master.
    pub open spec fn wf(&self) -> bool {
        &&& stack_sorted(self.buffers@)
        &&& self.buffers@.len() <= u16::MAX
        &&& (self.master is None ==> self.buffers@.len() == 0)
        &&& forall|i: int|
            0 <= i < self.buffers@.len() ==> (#[trigger] self.buffers@[i]).0 < self.top_key
        &&& (self.master is Some ==> self.master_id < self.top_key)
        &&& (self.master is Some ==> forall|i: int|
            0 <= i < self.buffers@.len() ==> (#[trigger] self.buffers@[i]).0 != self.master_id)
    }

    /// An empty layer whose split sits at half the terminal width.
    pub fn new(term_width: u16) -> (r: MasterLayout)
        ensures
            r.wf(),
            r.master is None,
            r.buffers@.len() == 0,
            r.top_key == 0,
            r.master_id == u32::MAX,
            r.split_width == term_width / 2,
    {
        MasterLayout {
            master_id: u32::MAX,
            top_key: 0,
            master: None,
            split_width: term_width / 2,
            buffers: Vec::new(),
        }
    }

    /// Allocates the next pane id.
    fn get_id(&mut self) -> (r: BufferId)
        requires
            old(self).top_key < u32::MAX,
        ensures
            r == old(self).top_key,
            final(self).top_key == old(self).top_key + 1,
            final(self).master_id == old(self).master_id,
            final(self).master == old(self).master,
            final(self).split_width == old(self).split_width,
            final(self).buffers == old(self).buffers,
    {
        let ret = self.top_key;
        self.top_key = self.top_key + 1;
        ret
    }

    /// The built-in policy never reports itself full.
    pub fn is_full(&self) -> (r: bool)
        ensures
            r == false,
    {
        false
    }

    /// The focus to fall back to after a removal: the current master, if
    /// any.
    pub fn get_next_focused(&self) -> (r: Option<BufferId>)
        ensures
            r == (if self.master is Some {
                Some(self.master_id)
            } else {
                Option::<BufferId>::None
            }),
    {
        if self.master.is_some() {
            Some(self.master_id)
        } else {
            None
        }
    }

    /// The pane under `name`: the master or a stack pane.
    #[verifier::loop_isolation(false)]
    pub fn get_buf(&self, name: BufferId) -> (r: Result<&Buffer, &'static str>)
        requires
            self.wf(),
        ensures
            match r {
                Ok(b) => (self.master matches Some(m) && self.master_id == name && *b == m) || (
                !(self.master is Some && self.master_id == name) && stack_has(self.buffers@, name)
                    && *b == stack_get(self.buffers@, name)),
                Err(e) => !(self.master is Some && self.master_id == name) && !stack_has(
                    self.buffers@,
                    name,
                ) && e@ == "not found"@,
            },
    {
        if self.master.is_some() && self.master_id == name {
            match self.master.as_ref() {
                Some(m) => Ok(m),
                None => Err("not found"),
            }
        } else {
            let mut i: usize = 0;
            while i < self.buffers.len()
                invariant
                    i <= self.buffers@.len(),
                    forall|k: int| 0 <= k < i ==> (#[trigger] self.buffers@[k]).0 != name,
                decreases self.buffers@.len() - i,
            {
                if self.buffers[i].0 == name {
                    proof {
                        lemma_stack_idx_unique(self.buffers@, name, i as int);
                    }
                    return Ok(&self.buffers[i].1);
                }
                i += 1;
            }
            proof {
                assert(!stack_has(self.buffers@, name));
            }
            Err("not found")
        }
    }

    /// Whether the layer holds a pane under `name`.
    pub fn has_buf(&self, name: BufferId) -> (r: bool)
        requires
            self.wf(),
        ensures
            r == ((self.master is Some && self.master_id == name) || stack_has(
                self.buffers@,
                name,
            )),
    {
        match self.get_buf(name) {
            Ok(_) => true,
            Err(_) => false,
        }
    }

    /// A mutable borrow of the pane under `name`. The caller's writes land
    /// in that very slot; everything else stays.
    #[verifier::loop_isolation(false)]
    pub fn get_buf_mut(&mut self, name: BufferId) -> (r: &mut Buffer)
        requires
            old(self).wf(),
            (old(self).master is Some && old(self).master_id == name) || stack_has(
                old(self).buffers@,
                name,
            ),
        ensures
            final(self).master_id == old(self).master_id,
            final(self).top_key == old(self).top_key,
            final(self).split_width == old(self).split_width,
            old(self).master is Some && old(self).master_id == name ==> {
                &&& *r == old(self).master->Some_0
                &&& final(self).master matches Some(m2) && m2 == *final(r)
                &&& final(self).buffers == old(self).buffers
            },
            !(old(self).master is Some && old(self).master_id == name) ==> {
                &&& stack_has(old(self).buffers@, name)
                &&& *r == stack_get(old(self).buffers@, name)
                &&& final(self).buffers@ == old(self).buffers@.update(
                    stack_idx(old(self).buffers@, name),
                    (name, *final(r)),
                )
                &&& final(self).master == old(self).master
            },
    {
        if self.master.is_some() && self.master_id == name {
            match self.master.as_mut() {
                Some(m) => m,
                None => vstd::pervasive::unreached(),
            }
        } else {
            let ghost s0 = self.buffers@;
            let n = self.buffers.len();
            let mut i: usize = 0;
            while i < n
                invariant
                    self.buffers@ == s0,
                    self.master == old(self).master,
                    self.master_id == old(self).master_id,
                    self.top_key == old(self).top_key,
                    self.split_width == old(self).split_width,
                    stack_sorted(s0),
                    n == self.buffers@.len(),
                    i <= n,
                    stack_has(s0, name),
                    forall|k: int| 0 <= k < i ==> (#[trigger] self.buffers@[k]).0 != name,
                decreases n - i,
            {
                if self.buffers[i].0 == name {
                    proof {
                        lemma_stack_idx_unique(self.buffers@, name, i as int);
                    }
                    return stack_entry_mut(&mut self.buffers, i);
                }
                i += 1;
            }
            proof {
                assert(!stack_has(s0, name));
            }
            vstd::pervasive::unreached()
        }
    }

    /// Recomputes every pane's geometry: the master keeps the full height
    /// on the left, the stack panes share the height beside it in
    /// ascending id order, the last absorbing the division remainder;
    /// shared edges are drawn once.
    #[verifier::loop_isolation(false)]
    pub fn reorder(&mut self, term_width: u16, term_height: u16)
        requires
            old(self).wf(),
            old(self).master is Some,
            old(self).split_width <= term_width,
            old(self).buffers@.len() <= u16::MAX,
        ensures
            final(self).wf(),
            final(self).master_id == old(self).master_id,
            final(self).top_key == old(self).top_key,
            final(self).split_width == old(self).split_width,
            final(self).buffers@.len() == old(self).buffers@.len(),
            old(self).master matches Some(om) && final(self).master matches Some(m)
                && master_arranged(
                m,
                om,
                old(self).split_width,
                old(self).buffers@.len() as int,
                term_width,
                term_height,
            ),
            forall|i: int|
                0 <= i < old(self).buffers@.len() ==> (#[trigger] final(self).buffers@[i]).0 == old(
                    self,
                ).buffers@[i].0,
            forall|i: int|
                0 <= i < old(self).buffers@.len() ==> stack_arranged(
                    (#[trigger] final(self).buffers@[i]).1,
                    old(self).buffers@[i].1,
                    i,
                    old(self).buffers@.len() as int,
                    old(self).split_width,
                    term_width,
                    term_height,
                ),
    {
        let n = self.buffers.len();
        let mut master = self.master.take().unwrap();
        master.offx = 0;
        master.offy = 0;
        master.width = if n > 0 {
            self.split_width
        } else {
            term_width
        };
        match &mut master.border {
            Some(b) => {
                b.show_all(true);
            },
            None => {},
        }
        master.height = term_height;
        self.master = Some(master);
        if n > 0 {
            let len16: u16 = n as u16;
            let per: u16 = term_height / len16;
            proof {
                lemma_per_bounds(term_height as int, n as int);
            }
            let ghost old_stack = self.buffers@;
            let mut new_stack: Vec<(BufferId, Buffer)> = Vec::new();
            while self.buffers.len() > 0
                invariant
                    n == old_stack.len(),
                    n <= u16::MAX,
                    n > 0,
                    len16 == n,
                    per == (term_height as int) / (n as int),
                    per * (n - 1) <= term_height,
                    new_stack@.len() + self.buffers@.len() == n,
                    self.buffers@ =~= old_stack.skip(new_stack@.len() as int),
                    self.split_width == old(self).split_width,
                    self.split_width <= term_width,
                    self.master == final_master_frame(*old(self), term_width, term_height, n as int),
                    self.master_id == old(self).master_id,
                    self.top_key == old(self).top_key,
                    forall|i: int|
                        0 <= i < new_stack@.len() ==> (#[trigger] new_stack@[i]).0
                            == old_stack[i].0,
                    forall|i: int|
                        0 <= i < new_stack@.len() ==> stack_arranged(
                            (#[trigger] new_stack@[i]).1,
                            old_stack[i].1,
                            i,
                            n as int,
                            old(self).split_width,
                            term_width,
                            term_height,
                        ),
                decreases self.buffers@.len(),
            {
                let i = new_stack.len();
                let (id, mut pane) = self.buffers.remove(0);
                proof {
                    assert(old_stack.skip(i as int)[0] == old_stack[i as int]);
                    assert(old_stack.skip(i as int).remove(0) =~= old_stack.skip(i as int + 1));
                }
                match &mut pane.border {
                    Some(b) => {
                        b.showl(false);
                        b.showt(i == 0);
                    },
                    None => {},
                }
                pane.height = if i == n - 1 {
                    proof {
                        assert(per * (len16 - 1) == per * (n - 1));
                    }
                    term_height - per * (len16 - 1)
                } else {
                    per
                };
                pane.width = term_width - self.split_width;
                pane.offx = self.split_width;
                proof {
                    lemma_offy_bounds(term_height as int, n as int, i as int);
                }
                pane.offy = (i as u16) * per;
                new_stack.push((id, pane));
            }
            proof {
                assert(old_stack.skip(n as int) =~= Seq::<(BufferId, Buffer)>::empty());
            }
            self.buffers = new_stack;
        }
    }
}

/// What the master looks like after the geometry pass, before the stack is
/// rebuilt.
pub open spec fn final_master_frame(l: MasterLayout, tw: u16, th: u16, n: int) -> Option<Buffer> {
    match l.master {
        None => None,
        Some(m) => Some(
            Buffer {
                offx: 0,
                offy: 0,
                width: (if n > 0 {
                    l.split_width
                } else {
                    tw
                }),
                height: th,
                border: match m.border {
                    Some(b) => Some(BufferBorder { border_shown: 0xF, ..b }),
                    None => None,
                },
                ..m
            },
        ),
    }
}

/// With `n` panes sharing `th` rows, `n - 1` full shares leave room for
/// the last pane.
proof fn lemma_per_bounds(th: int, n: int)
    requires
        th >= 0,
        n >= 1,
    ensures
        (th / n) * (n - 1) <= th,
        th - (th / n) * (n - 1) >= th / n,
{
    lemma_fundamental_div_mod(th, n);
    assert((th / n) * (n - 1) == n * (th / n) - (th / n)) by (nonlinear_arith);
}

/// Stack pane `i` starts within the terminal height.
proof fn lemma_offy_bounds(th: int, n: int, i: int)
    requires
        th >= 0,
        n >= 1,
        0 <= i < n,
    ensures
        i * (th / n) <= th,
        i * (th / n) >= 0,
{
    lemma_fundamental_div_mod(th, n);
    assert(i * (th / n) <= n * (th / n)) by (nonlinear_arith)
        requires
            0 <= i < n,
            th / n >= 0,
    ;
    assert(i * (th / n) >= 0) by (nonlinear_arith)
        requires
            i >= 0,
            th / n >= 0,
    ;
}



/// The frame after each pane of the stack has rendered, in order.
pub open spec fn render_stack(v: FrameView, panes: Seq<(BufferId, Buffer)>, tw: int) -> FrameView
    decreases panes.len(),
{
    if panes.len() == 0 {
        v
    } else {
        render_stack(panes[0].1.spec_render(tw, v), panes.drop_first(), tw)
    }
}

/// The frame after a whole layer has rendered: the master first, then the
/// stack panes in ascending id order.
pub open spec fn spec_render_layer(l: MasterLayout, tw: int, v: FrameView) -> FrameView {
    match l.master {
        None => v,
        Some(m) => render_stack(m.spec_render(tw, v), l.buffers@, tw),
    }
}

proof fn lemma_panes_skip_step(s: Seq<(BufferId, Buffer)>, i: int)
    requires
        0 <= i < s.len(),
    ensures
        s.skip(i).len() == s.len() - i,
        s.skip(i)[0] == s[i],
        s.skip(i).drop_first() =~= s.skip(i + 1),
{
}

/// How `add_buf` changes a layer: the very first pane becomes the master,
/// any later pane joins the end of the stack under the freshly allocated
/// id, and the whole layer is retiled.
pub open spec fn add_rel(pre: MasterLayout, post: MasterLayout, buf: Buffer, tw: u16, th: u16) -> bool {
    &&& post.top_key == pre.top_key + 1
    &&& post.split_width == pre.split_width
    &&& (pre.master is None ==> {
        &&& post.master_id == pre.top_key
        &&& post.buffers@.len() == 0
        &&& post.master matches Some(m) && master_arranged(m, buf, pre.split_width, 0, tw, th)
    })
    &&& (pre.master is Some ==> {
        let n1 = pre.buffers@.len() as int + 1;
        &&& post.master_id == pre.master_id
        &&& post.buffers@.len() == n1
        &&& pre.master matches Some(om) && post.master matches Some(m) && master_arranged(
            m,
            om,
            pre.split_width,
            n1,
            tw,
            th,
        )
        &&& forall|i: int|
            0 <= i < n1 - 1 ==> (#[trigger] post.buffers@[i]).0 == pre.buffers@[i].0
        &&& forall|i: int|
            0 <= i < n1 - 1 ==> stack_arranged(
                (#[trigger] post.buffers@[i]).1,
                pre.buffers@[i].1,
                i,
                n1,
                pre.split_width,
                tw,
                th,
            )
        &&& post.buffers@[n1 - 1].0 == pre.top_key
        &&& stack_arranged(post.buffers@[n1 - 1].1, buf, n1 - 1, n1, pre.split_width, tw, th)
    })
}

/// Whether a layer holds a pane under `name` at all.
pub open spec fn holds(l: MasterLayout, name: BufferId) -> bool {
    (l.master is Some && l.master_id == name) || stack_has(l.buffers@, name)
}

/// The pane a layer would hand back for `name`.
pub open spec fn pane_of(l: MasterLayout, name: BufferId) -> Buffer {
    if l.master is Some && l.master_id == name {
        l.master->Some_0
    } else {
        stack_get(l.buffers@, name)
    }
}

/// How `rem_buf` changes a layer when `name` is present: a removed master
/// is replaced by the lowest-id stack pane; removing the only pane leaves
/// the layer empty; any removal that leaves panes behind retiles them.
pub open spec fn rem_rel(pre: MasterLayout, post: MasterLayout, name: BufferId, tw: u16, th: u16) -> bool {
    &&& post.top_key == pre.top_key
    &&& post.split_width == pre.split_width
    &&& ((pre.master is Some && pre.master_id == name && pre.buffers@.len() > 0) ==> {
        let n1 = pre.buffers@.len() as int - 1;
        &&& post.master_id == pre.buffers@[0].0
        &&& post.buffers@.len() == n1
        &&& post.master matches Some(m) && master_arranged(
            m,
            pre.buffers@[0].1,
            pre.split_width,
            n1,
            tw,
            th,
        )
        &&& forall|i: int|
            0 <= i < n1 ==> (#[trigger] post.buffers@[i]).0 == pre.buffers@[i + 1].0
        &&& forall|i: int|
            0 <= i < n1 ==> stack_arranged(
                (#[trigger] post.buffers@[i]).1,
                pre.buffers@[i + 1].1,
                i,
                n1,
                pre.split_width,
                tw,
                th,
            )
    })
    &&& ((pre.master is Some && pre.master_id == name && pre.buffers@.len() == 0) ==> {
        &&& post.master is None
        &&& post.buffers@.len() == 0
        &&& post.master_id == pre.master_id
    })
    &&& ((!(pre.master is Some && pre.master_id == name) && stack_has(pre.buffers@, name)) ==> {
        let j = stack_idx(pre.buffers@, name);
        let n1 = pre.buffers@.len() as int - 1;
        &&& post.master_id == pre.master_id
        &&& post.buffers@.len() == n1
        &&& pre.master matches Some(om) && post.master matches Some(m) && master_arranged(
            m,
            om,
            pre.split_width,
            n1,
            tw,
            th,
        )
        &&& forall|i: int|
            0 <= i < n1 ==> (#[trigger] post.buffers@[i]).0 == pre.buffers@.remove(j)[i].0
        &&& forall|i: int|
            0 <= i < n1 ==> stack_arranged(
                (#[trigger] post.buffers@[i]).1,
                pre.buffers@.remove(j)[i].1,
                i,
                n1,
                pre.split_width,
                tw,
                th,
            )
    })
}

impl MasterLayout {
    /// Makes a fresh pane the layer's newest member: the first pane ever
    /// added becomes the master, any later one joins the stack under a
    /// freshly allocated id; the whole layer is then retiled. The id the
    /// caller passes is ignored — ids are allocated here, never by the
    /// caller — and a duplicate id cannot arise.
    pub fn add_buf(
        &mut self,
        _name: BufferId,
        buf: Buffer,
        term_width: u16,
        term_height: u16,
    ) -> (r: Result<BufferId, &'static str>)
        requires
            old(self).wf(),
            old(self).top_key < u32::MAX,
            old(self).split_width <= term_width,
            old(self).buffers@.len() + 1 <= u16::MAX,
        ensures
            final(self).wf(),
            r matches Ok(id) && id == old(self).top_key,
            add_rel(*old(self), *final(self), buf, term_width, term_height),
    {
        let name = self.get_id();
        if self.master.is_none() {
            self.master = Some(buf);
            self.master_id = name;
        } else {
            let ghost pre = self.buffers@;
            self.buffers.push((name, buf));
            proof {
                assert forall|i: int, j: int|
                    0 <= i < j < self.buffers@.len() implies (#[trigger] self.buffers@[i]).0 < (
                #[trigger] self.buffers@[j]).0 by {
                    if j < pre.len() {
                        assert(pre[i].0 < pre[j].0);
                    }
                }
            }
        }
        self.reorder(term_width, term_height);
        Ok(name)
    }

    /// Removes the pane under `name`. A removed master is replaced by the
    /// lowest-id stack pane, which is promoted out of the stack; removing
    /// the only pane leaves the layer empty. Any removal that leaves panes
    /// behind retiles the layer.
    #[verifier::loop_isolation(false)]
    pub fn rem_buf(&mut self, name: BufferId, term_width: u16, term_height: u16) -> (r: Result<
        Buffer,
        &'static str,
    >)
        requires
            old(self).wf(),
            old(self).split_width <= term_width,
            old(self).buffers@.len() <= u16::MAX,
            old(self).master is None ==> old(self).master_id != name,
        ensures
            final(self).wf(),
            holds(*old(self), name) ==> {
                &&& r matches Ok(b) && b == pane_of(*old(self), name)
                &&& rem_rel(*old(self), *final(self), name, term_width, term_height)
            },
            !holds(*old(self), name) ==> {
                &&& r matches Err(e) && e@ == "not found"@
                &&& final(self).master == old(self).master
                &&& final(self).master_id == old(self).master_id
                &&& final(self).top_key == old(self).top_key
                &&& final(self).split_width == old(self).split_width
                &&& final(self).buffers@ == old(self).buffers@
            },
    {
        if self.master.is_some() && self.master_id == name {
            if self.buffers.len() > 0 {
                let ghost pre = self.buffers@;
                let (key, new_master) = self.buffers.remove(0);
                let old_master = self.master.take().unwrap();
                self.master = Some(new_master);
                self.master_id = key;
                proof {
                    assert(self.buffers@ =~= pre.skip(1));
                    assert forall|i: int| 0 <= i < self.buffers@.len() implies (
                    #[trigger] self.buffers@[i]).0 != key by {
                        assert(pre[0].0 < pre[i + 1].0);
                    }
                }
                self.reorder(term_width, term_height);
                Ok(old_master)
            } else {
                let old_master = self.master.take().unwrap();
                Ok(old_master)
            }
        } else {
            let ghost s0 = self.buffers@;
            let n = self.buffers.len();
            let mut i: usize = 0;
            while i < n
                invariant
                    *self == *old(self),
                    self.buffers@ == s0,
                    stack_sorted(s0),
                    n == s0.len(),
                    i <= n,
                    forall|k: int| 0 <= k < i ==> (#[trigger] s0[k]).0 != name,
                decreases n - i,
            {
                if self.buffers[i].0 == name {
                    proof {
                        lemma_stack_idx_unique(s0, name, i as int);
                    }
                    let (_, pane) = self.buffers.remove(i);
                    proof {
                        assert forall|a: int, b: int|
                            0 <= a < b < self.buffers@.len() implies (
                        #[trigger] self.buffers@[a]).0 < (#[trigger] self.buffers@[b]).0 by {
                            let pa: int = if a < i { a } else { a + 1 };
                            let pb: int = if b < i { b } else { b + 1 };
                            assert(s0[pa].0 < s0[pb].0);
                        }
                    }
                    self.reorder(term_width, term_height);
                    return Ok(pane);
                }
                i += 1;
            }
            proof {
                assert(!stack_has(s0, name));
            }
            Err("not found")
        }
    }

    /// Swaps a stack pane into the master slot; the old master joins the
    /// stack under its own id, keeping ascending key order. The layer is
    /// not retiled here.
    #[verifier::loop_isolation(false)]
    pub fn change_master(&mut self, new_master_id: BufferId) -> (r: Result<(), &'static str>)
        requires
            old(self).wf(),
            old(self).master is Some,
        ensures
            final(self).wf(),
            final(self).top_key == old(self).top_key,
            final(self).split_width == old(self).split_width,
            stack_has(old(self).buffers@, new_master_id) ==> {
                let j = stack_idx(old(self).buffers@, new_master_id);
                &&& r is Ok
                &&& final(self).master_id == new_master_id
                &&& final(self).master matches Some(m) && m == stack_get(
                    old(self).buffers@,
                    new_master_id,
                )
                &&& old(self).master matches Some(om) && exists|k: int|
                    0 <= k <= old(self).buffers@.remove(j).len() && final(self).buffers@ == old(
                        self,
                    ).buffers@.remove(j).insert(k, (old(self).master_id, om))
            },
            !stack_has(old(self).buffers@, new_master_id) ==> {
                &&& r matches Err(e) && e@ == "New master not found!"@
                &&& *final(self) == *old(self)
            },
    {
        let ghost s0 = self.buffers@;
        let n = self.buffers.len();
        let mut j: usize = 0;
        let mut found = false;
        while j < n && !found
            invariant
                self.buffers@ == s0,
                *self == *old(self),
                n == s0.len(),
                j <= n,
                !found ==> forall|k: int| 0 <= k < j ==> (#[trigger] s0[k]).0 != new_master_id,
                found ==> j < n && s0[j as int].0 == new_master_id,
            decreases n - j + (if found { 0int } else { 1int }),
        {
            if self.buffers[j].0 == new_master_id {
                found = true;
            } else {
                j += 1;
            }
        }
        if !found {
            proof {
                assert(!stack_has(s0, new_master_id));
            }
            return Err("New master not found!");
        }
        proof {
            lemma_stack_idx_unique(s0, new_master_id, j as int);
        }
        let (_, new_master) = self.buffers.remove(j);
        let old_master = self.master.take().unwrap();
        let old_id = self.master_id;
        let ghost s1 = self.buffers@;
        let m = self.buffers.len();
        let mut k: usize = 0;
        while k < m && self.buffers[k].0 < old_id
            invariant
                self.buffers@ == s1,
                self.master is None,
                self.master_id == old(self).master_id,
                self.top_key == old(self).top_key,
                self.split_width == old(self).split_width,
                m == s1.len(),
                k <= m,
                forall|t: int| 0 <= t < k ==> (#[trigger] s1[t]).0 < old_id,
            decreases m - k,
        {
            k += 1;
        }
        proof {
            assert(s1 =~= s0.remove(j as int));
            assert forall|t: int| k <= t < s1.len() implies (#[trigger] s1[t]).0 > old_id by {
                let pt: int = if t < j { t } else { t + 1 };
                assert(s1[t] == s0[pt]);
                assert(s0[pt].0 != old_id);
                if t > k || s1[k as int].0 > old_id {
                }
                if !(s1[t].0 > old_id) {
                    assert(s1[t].0 < old_id);
                    assert(t >= k);
                    if t > 0 && k < t {
                    }
                    assert(false);
                }
            }
        }
        self.buffers.insert(k, (old_id, old_master));
        self.master = Some(new_master);
        self.master_id = new_master_id;
        proof {
            let s2 = self.buffers@;
            assert(s2 == s1.insert(k as int, (old_id, old_master)));
            assert forall|a: int, b: int| 0 <= a < b < s2.len() implies (#[trigger] s2[a]).0 < (
            #[trigger] s2[b]).0 by {
                if a == k {
                    assert(s2[b] == s1[b - 1]);
                } else if b == k {
                    assert(s2[a] == s1[a]);
                } else {
                    let pa: int = if a < k { a } else { a - 1 };
                    let pb: int = if b < k { b } else { b - 1 };
                    assert(s2[a] == s1[pa] && s2[b] == s1[pb]);
                }
            }
        }
        Ok(())
    }

    /// Renders the whole layer into the frame buffer: the master first,
    /// then every stack pane in ascending id order.
    #[verifier::loop_isolation(false)]
    pub fn render(&self, term_width: u16, render_buf: &mut RenderBuffer)
        requires
            old(render_buf).wf(),
        ensures
            final(render_buf).wf(),
            final(render_buf)@ == spec_render_layer(*self, term_width as int, old(render_buf)@),
    {
        match self.master.as_ref() {
            None => {},
            Some(m) => {
                m.render(term_width, render_buf);
                let ghost target = render_stack(
                    render_buf@,
                    self.buffers@,
                    term_width as int,
                );
                proof {
                    assert(self.buffers@.skip(0) =~= self.buffers@);
                }
                let mut i: usize = 0;
                while i < self.buffers.len()
                    invariant
                        i <= self.buffers@.len(),
                        render_buf.wf(),
                        render_stack(
                            render_buf@,
                            self.buffers@.skip(i as int),
                            term_width as int,
                        ) == target,
                    decreases self.buffers@.len() - i,
                {
                    proof {
                        lemma_panes_skip_step(self.buffers@, i as int);
                    }
                    self.buffers[i].1.render(term_width, render_buf);
                    i += 1;
                }
                proof {
                    assert(self.buffers@.skip(i as int) =~= Seq::<(BufferId, Buffer)>::empty());
                }
            },
        }
    }
}

/// One compositing layer's layout policy: a closed set of variants, with
/// the master/stack tiler as the built-in one.
pub enum Layout {
    Master(MasterLayout),
}

impl Layout {
    /// The layer invariant of the underlying policy.
    pub open spec fn wf(&self) -> bool {
        match self {
            Layout::Master(m) => m.wf(),
        }
    }

    /// The underlying master/stack state.
    pub open spec fn as_master(&self) -> MasterLayout {
        match self {
            Layout::Master(m) => *m,
        }
    }

    /// Whether the policy refuses another pane.
    pub fn is_full(&self) -> (r: bool)
        ensures
            r == false,
    {
        match self {
            Layout::Master(m) => m.is_full(),
        }
    }

    /// Renders the layer into the frame buffer.
    pub fn render(&self, term_width: u16, render_buf: &mut RenderBuffer)
        requires
            old(render_buf).wf(),
        ensures
            final(render_buf).wf(),
            final(render_buf)@ == spec_render_layer(
                self.as_master(),
                term_width as int,
                old(render_buf)@,
            ),
    {
        match self {
            Layout::Master(m) => m.render(term_width, render_buf),
        }
    }
}

} // verus!
