//! The buffer manager: an ordered list of layers (each bound to one layout
//! policy), placement-preference lists, the focus, and the frame buffer.
//! A re-render walks the layers from the topmost down to layer zero, so the
//! topmost layer's panes win overlapping cells under the compositor's
//! first-writer-wins rule, and then flushes one escape-code stream.

use vstd::prelude::*;
use crate::ansi::ANSICode;
use crate::editor::{Buffer as MotionBuffer, CursorPosition};
use crate::frame::{
    flush_grid, flush_output, sorted_by_idx, FrameView, RenderBuffer,
};
use crate::layout::{
    add_rel, holds, lemma_stack_idx_unique, pane_of, rem_rel, spec_render_layer, stack_idx,
    BufferId, Layout, MasterLayout,
};
use crate::pane::Buffer;
use crate::text::{chars_of_str, string_from_chars};

verus! {

/// A (layer index, pane id) pair identifying one pane globally. Not itself
/// owning; purely a lookup key.
#[derive(Debug, Clone, Copy, PartialEq, Eq, Structural)]
pub struct BufferRef {
    pub layer: u8,
    pub id: BufferId,
}

/// The frame state a cleared buffer presents: same grid, nothing claimed,
/// positional codes dropped, pre- and post-amble codes kept.
pub open spec fn cleared_view(v: FrameView) -> FrameView {
    FrameView {
        grid: v.grid,
        claimed: Seq::new(v.grid.len(), |i: int| false),
        init_codes: v.init_codes,
        last_codes: v.last_codes,
        codes: Seq::empty(),
    }
}

/// The frame after every layer has rendered, walked from the topmost layer
/// down to layer zero, so the topmost writes — and therefore wins — first.
pub open spec fn render_layers(v: FrameView, layers: Seq<Layout>, tw: int) -> FrameView
    decreases layers.len(),
{
    if layers.len() == 0 {
        v
    } else {
        spec_render_layer(layers[0].as_master(), tw, render_layers(v, layers.drop_first(), tw))
    }
}

proof fn lemma_render_layers_skip(layers: Seq<Layout>, v: FrameView, tw: int, k: int)
    requires
        0 <= k < layers.len(),
    ensures
        render_layers(v, layers.skip(k), tw) == spec_render_layer(
            layers[k].as_master(),
            tw,
            render_layers(v, layers.skip(k + 1), tw),
        ),
{
    assert(layers.skip(k).len() > 0);
    assert(layers.skip(k)[0] == layers[k]);
    assert(layers.skip(k).drop_first() =~= layers.skip(k + 1));
}

/// The manager: the frame buffer, the placement-preference lists, the
/// ordered layers, the focus, and the terminal size as last reported.
pub struct BufferManager {
    pub render_buf: RenderBuffer,
    pub tiled_layouts: Vec<usize>,
    pub free_layouts: Vec<usize>,
    pub layers: Vec<Layout>,
    pub focused: Option<BufferRef>,
    pub term_size: (u16, u16),
}

impl BufferManager {
    /// The manager invariant: a well-formed frame buffer, well-formed
    /// layers, preference lists that index existing layers, and few enough
    /// layers that a layer index fits the reference type.
    pub open spec fn wf(&self) -> bool {
        &&& self.render_buf.wf()
        &&& forall|i: int| 0 <= i < self.layers@.len() ==> (#[trigger] self.layers@[i]).wf()
        &&& forall|i: int|
            0 <= i < self.tiled_layouts@.len() ==> (#[trigger] self.tiled_layouts@[i])
                < self.layers@.len()
        &&& forall|i: int|
            0 <= i < self.free_layouts@.len() ==> (#[trigger] self.free_layouts@[i])
                < self.layers@.len()
        &&& self.layers@.len() <= 255
    }

    /// The master/stack state of layer `l`.
    pub open spec fn layer_master(&self, l: int) -> MasterLayout {
        self.layers@[l].as_master()
    }

    /// A manager over a `term_width` by `term_height` terminal with one
    /// tiled master/stack layer and nothing focused.
    pub fn new(term_width: u16, term_height: u16) -> (r: BufferManager)
        ensures
            r.wf(),
            r.layers@.len() == 1,
            r.layer_master(0).master is None,
            r.layer_master(0).split_width == term_width / 2,
            r.layer_master(0).top_key == 0,
            r.tiled_layouts@ == seq![0usize],
            r.free_layouts@.len() == 0,
            r.focused is None,
            r.term_size == (term_width, term_height),
            r.render_buf@.grid.len() == term_width as int * term_height as int,
            r.render_buf@.init_codes.len() == 0,
            r.render_buf@.last_codes.len() == 0,
            r.render_buf@.codes.len() == 0,
    {
        let ml = MasterLayout::new(term_width);
        let mut layers: Vec<Layout> = Vec::new();
        layers.push(Layout::Master(ml));
        let mut tiled: Vec<usize> = Vec::new();
        tiled.push(0);
        proof {
            assert(tiled@ =~= seq![0usize]);
        }
        BufferManager {
            render_buf: RenderBuffer::new(term_width, term_height),
            tiled_layouts: tiled,
            free_layouts: Vec::new(),
            layers,
            focused: None,
            term_size: (term_width, term_height),
        }
    }

    /// Appends a layer; layers are append-only and numbered by creation
    /// order.
    pub fn add_layer(&mut self, layout: Layout)
        requires
            old(self).wf(),
            layout.wf(),
            old(self).layers@.len() < 255,
        ensures
            final(self).wf(),
            final(self).layers@ == old(self).layers@.push(layout),
            final(self).tiled_layouts == old(self).tiled_layouts,
            final(self).free_layouts == old(self).free_layouts,
            final(self).render_buf == old(self).render_buf,
            final(self).focused == old(self).focused,
            final(self).term_size == old(self).term_size,
    {
        self.layers.push(layout);
    }

    /// Appends a layer and marks it as accepting tiled placement.
    pub fn add_tiled_layer(&mut self, layout: Layout)
        requires
            old(self).wf(),
            layout.wf(),
            old(self).layers@.len() < 255,
        ensures
            final(self).wf(),
            final(self).layers@ == old(self).layers@.push(layout),
            final(self).tiled_layouts@ == old(self).tiled_layouts@.push(
                old(self).layers@.len() as usize,
            ),
            final(self).free_layouts == old(self).free_layouts,
            final(self).focused == old(self).focused,
            final(self).term_size == old(self).term_size,
    {
        self.add_layer(layout);
        let idx = self.layers.len() - 1;
        self.tiled_layouts.push(idx);
    }

    /// Appends a layer and marks it as accepting free placement.
    pub fn add_free_layer(&mut self, layout: Layout)
        requires
            old(self).wf(),
            layout.wf(),
            old(self).layers@.len() < 255,
        ensures
            final(self).wf(),
            final(self).layers@ == old(self).layers@.push(layout),
            final(self).free_layouts@ == old(self).free_layouts@.push(
                old(self).layers@.len() as usize,
            ),
            final(self).tiled_layouts == old(self).tiled_layouts,
            final(self).focused == old(self).focused,
            final(self).term_size == old(self).term_size,
    {
        self.add_layer(layout);
        let idx = self.layers.len() - 1;
        self.free_layouts.push(idx);
    }

    /// Whether layer `layer` can take one more pane without exhausting its
    /// id space or its geometry.
    pub open spec fn can_place(&self, layer: int) -> bool {
        &&& self.layer_master(layer).top_key < u32::MAX
        &&& self.layer_master(layer).split_width <= self.term_size.0
        &&& self.layer_master(layer).buffers@.len() + 1 <= u16::MAX
    }

    /// The placement-preference list for tiled or free requests.
    pub open spec fn prefs_of(&self, tiled: bool) -> Seq<usize> {
        if tiled {
            self.tiled_layouts@
        } else {
            self.free_layouts@
        }
    }

    /// Whether every layer on the chosen preference list can take one more
    /// pane.
    pub fn can_allocate(&self, tiled: bool) -> (r: bool)
        requires
            self.wf(),
        ensures
            r == (forall|i: int|
                0 <= i < self.prefs_of(tiled).len() ==> self.can_place(
                    #[trigger] self.prefs_of(tiled)[i] as int,
                )),
    {
        let prefs = if tiled {
            &self.tiled_layouts
        } else {
            &self.free_layouts
        };
        let mut i: usize = 0;
        while i < prefs.len()
            invariant
                prefs@ == self.prefs_of(tiled),
                self.wf(),
                i <= prefs@.len(),
                forall|k: int|
                    0 <= k < i ==> self.can_place(#[trigger] self.prefs_of(tiled)[k] as int),
            decreases prefs@.len() - i,
        {
            let l = prefs[i];
            let ok = match &self.layers[l] {
                Layout::Master(m) => m.top_key < u32::MAX && m.split_width <= self.term_size.0
                    && m.buffers.len() < u16::MAX as usize,
            };
            if !ok {
                proof {
                    assert(!self.can_place(self.prefs_of(tiled)[i as int] as int));
                }
                return false;
            }
            i += 1;
        }
        true
    }

    /// Hands a pane to layer `layer`'s layout, which assigns it a fresh id
    /// and retiles. A layer index past the end is an orphaned reference.
    pub fn add_buf(&mut self, layer: u8, _id: BufferId, buf: Buffer) -> (r: Result<
        BufferId,
        &'static str,
    >)
        requires
            old(self).wf(),
            (layer as int) < old(self).layers@.len() ==> old(self).can_place(layer as int),
        ensures
            final(self).wf(),
            final(self).term_size == old(self).term_size,
            final(self).focused == old(self).focused,
            final(self).layers@.len() == old(self).layers@.len(),
            (layer as int) >= old(self).layers@.len() ==> {
                &&& r matches Err(e) && e@ == "Overflow!"@
                &&& final(self).layers@ == old(self).layers@
            },
            (layer as int) < old(self).layers@.len() ==> {
                &&& r matches Ok(id) && id == old(self).layer_master(layer as int).top_key
                &&& add_rel(
                    old(self).layer_master(layer as int),
                    final(self).layer_master(layer as int),
                    buf,
                    old(self).term_size.0,
                    old(self).term_size.1,
                )
                &&& forall|l: int|
                    0 <= l < old(self).layers@.len() && l != layer as int ==> final(self).layers@[l] == old(self).layers@[l]
            },
    {
        let l = layer as usize;
        if l >= self.layers.len() {
            return Err("Overflow!");
        }
        let (tw, th) = self.term_size;
        let layer_ref = &mut self.layers[l];
        match layer_ref {
            Layout::Master(m) => {
                let r = m.add_buf(0, buf, tw, th);
                proof {
                    assert(final(self).layers@ =~= old(self).layers@.update(
                        l as int,
                        *final(layer_ref),
                    ));
                }
                r
            },
        }
    }

    /// Adds a default pane to layer `layer`.
    pub fn add_new_buf(&mut self, layer: u8, id: BufferId) -> (r: Result<BufferId, &'static str>)
        requires
            old(self).wf(),
            (layer as int) < old(self).layers@.len() ==> old(self).can_place(layer as int),
        ensures
            final(self).wf(),
            final(self).term_size == old(self).term_size,
            final(self).focused == old(self).focused,
            final(self).layers@.len() == old(self).layers@.len(),
            (layer as int) >= old(self).layers@.len() ==> (r matches Err(e) && e@
                == "Overflow!"@),
            (layer as int) < old(self).layers@.len() ==> {
                &&& r matches Ok(i) && i == old(self).layer_master(layer as int).top_key
                &&& forall|l: int|
                    0 <= l < old(self).layers@.len() && l != layer as int ==> final(self).layers@[l] == old(self).layers@[l]
                &&& exists|d: Buffer|
                    {
                        &&& d.offx == 0 && d.offy == 0 && d.width == 20 && d.height == 20
                        &&& d.content@.len() == 0
                        &&& #[trigger] add_rel(
                            old(self).layer_master(layer as int),
                            final(self).layer_master(layer as int),
                            d,
                            old(self).term_size.0,
                            old(self).term_size.1,
                        )
                    }
            },
    {
        self.add_buf(layer, id, Buffer::default())
    }

    /// Removes the pane `id` from layer `layer`; on success, if the layout
    /// suggests a replacement focus, the focus moves to it.
    pub fn rem_buf(&mut self, layer: usize, id: BufferId) -> (r: Result<Buffer, &'static str>)
        requires
            old(self).wf(),
            layer < old(self).layers@.len() ==> {
                &&& old(self).layer_master(layer as int).split_width <= old(self).term_size.0
                &&& old(self).layer_master(layer as int).master is None ==> old(self).layer_master(
                    layer as int,
                ).master_id != id
            },
        ensures
            final(self).wf(),
            final(self).term_size == old(self).term_size,
            final(self).layers@.len() == old(self).layers@.len(),
            layer >= old(self).layers@.len() ==> {
                &&& r matches Err(e) && e@ == "Overflow!"@
                &&& final(self).layers@ == old(self).layers@
                &&& final(self).focused == old(self).focused
            },
            layer < old(self).layers@.len() && holds(old(self).layer_master(layer as int), id)
                ==> {
                &&& r matches Ok(b) && b == pane_of(old(self).layer_master(layer as int), id)
                &&& rem_rel(
                    old(self).layer_master(layer as int),
                    final(self).layer_master(layer as int),
                    id,
                    old(self).term_size.0,
                    old(self).term_size.1,
                )
                &&& forall|l: int|
                    0 <= l < old(self).layers@.len() && l != layer as int ==> final(self).layers@[l] == old(self).layers@[l]
                &&& final(self).focused == (if final(self).layer_master(layer as int).master
                    is Some {
                    Some(
                        BufferRef {
                            layer: layer as u8,
                            id: final(self).layer_master(layer as int).master_id,
                        },
                    )
                } else {
                    old(self).focused
                })
            },
            layer < old(self).layers@.len() && !holds(old(self).layer_master(layer as int), id)
                ==> {
                &&& r matches Err(e) && e@ == "not found"@
                &&& final(self).focused == old(self).focused
            },
    {
        if layer >= self.layers.len() {
            return Err("Overflow!");
        }
        let (tw, th) = self.term_size;
        let layer_ref = &mut self.layers[layer];
        let res = match layer_ref {
            Layout::Master(m) => m.rem_buf(id, tw, th),
        };
        if res.is_ok() {
            let next = match &self.layers[layer] {
                Layout::Master(m) => m.get_next_focused(),
            };
            match next {
                Some(nid) => {
                    self.focused = Some(BufferRef { layer: layer as u8, id: nid });
                },
                None => {},
            }
        }
        proof {
            assert(self.layers@ =~= old(self).layers@.update(
                layer as int,
                self.layers@[layer as int],
            ));
        }
        res
    }

    /// The pane a reference points at.
    pub fn get_buf(&self, layer: u8, id: BufferId) -> (r: Result<&Buffer, &'static str>)
        requires
            self.wf(),
        ensures
            match r {
                Ok(b) => (layer as int) < self.layers@.len() && holds(
                    self.layer_master(layer as int),
                    id,
                ) && *b == pane_of(self.layer_master(layer as int), id),
                Err(e) => ((layer as int) >= self.layers@.len() || !holds(
                    self.layer_master(layer as int),
                    id,
                )) && e@ == "not found"@,
            },
    {
        if (layer as usize) >= self.layers.len() {
            return Err("not found");
        }
        match &self.layers[layer as usize] {
            Layout::Master(m) => m.get_buf(id),
        }
    }

    /// The focused pane, if a focus is set and still valid.
    pub fn get_focused(&self) -> (r: Result<&Buffer, &'static str>)
        requires
            self.wf(),
        ensures
            self.focused is None ==> (r matches Err(e) && e@ == "no focused buffer"@),
            match self.focused {
                Some(fr) => match r {
                    Ok(b) => (fr.layer as int) < self.layers@.len() && holds(
                        self.layer_master(fr.layer as int),
                        fr.id,
                    ) && *b == pane_of(self.layer_master(fr.layer as int), fr.id),
                    Err(e) => true,
                },
                None => true,
            },
    {
        match self.focused {
            Some(fr) => self.get_buf(fr.layer, fr.id),
            None => Err("no focused buffer"),
        }
    }

    /// Moves the focus to an existing pane and queues a cursor-placement
    /// code for the end of the next flush, so mid-frame writes cannot
    /// overwrite it.
    pub fn change_focus(&mut self, bufman_ref: BufferRef) -> (r: Result<(), &'static str>)
        requires
            old(self).wf(),
            (bufman_ref.layer as int) < old(self).layers@.len() && holds(
                old(self).layer_master(bufman_ref.layer as int),
                bufman_ref.id,
            ) ==> crate::manager::start_ok(
                pane_of(old(self).layer_master(bufman_ref.layer as int), bufman_ref.id),
            ),
        ensures
            final(self).wf(),
            final(self).layers == old(self).layers,
            final(self).term_size == old(self).term_size,
            (bufman_ref.layer as int) < old(self).layers@.len() && holds(
                old(self).layer_master(bufman_ref.layer as int),
                bufman_ref.id,
            ) ==> {
                let p = pane_of(old(self).layer_master(bufman_ref.layer as int), bufman_ref.id);
                &&& r is Ok
                &&& final(self).focused == Some(bufman_ref)
                &&& final(self).render_buf@ == (FrameView {
                    last_codes: old(self).render_buf@.last_codes.push(
                        ANSICode::SetCursor(start_x(p), start_y(p)),
                    ),
                    ..old(self).render_buf@
                })
            },
            !((bufman_ref.layer as int) < old(self).layers@.len() && holds(
                old(self).layer_master(bufman_ref.layer as int),
                bufman_ref.id,
            )) ==> {
                &&& r matches Err(e) && e@ == "not found"@
                &&& final(self).focused == old(self).focused
                &&& final(self).render_buf == old(self).render_buf
            },
    {
        let (x, y) = match self.get_buf(bufman_ref.layer, bufman_ref.id) {
            Ok(b) => b.get_start_of_text(),
            Err(_) => {
                return Err("not found");
            },
        };
        self.focused = Some(bufman_ref);
        self.render_buf.add_last_ctrl_code(ANSICode::SetCursor(x, y));
        Ok(())
    }

    /// Clears the frame buffer, renders every layer from the topmost down
    /// to layer zero, and flushes: the returned string is the whole frame
    /// as one escape-interleaved stream.
    #[verifier::loop_isolation(false)]
    pub fn rerender(&mut self) -> (r: String)
        requires
            old(self).wf(),
        ensures
            final(self).wf(),
            final(self).layers == old(self).layers,
            final(self).focused == old(self).focused,
            final(self).term_size == old(self).term_size,
            final(self).tiled_layouts == old(self).tiled_layouts,
            final(self).free_layouts == old(self).free_layouts,
            ({
                let rendered = render_layers(
                    cleared_view(old(self).render_buf@),
                    old(self).layers@,
                    old(self).term_size.0 as int,
                );
                &&& final(self).render_buf@.grid == flush_grid(rendered)
                &&& final(self).render_buf@.codes.len() == 0
                &&& exists|sorted: Seq<(ANSICode, usize)>|
                    {
                        &&& sorted.to_multiset() == rendered.codes.to_multiset()
                        &&& #[trigger] sorted_by_idx(sorted)
                        &&& r@ == flush_output(rendered, sorted)
                    }
            }),
    {
        let ghost v_start = self.render_buf@;
        self.render_buf.clear();
        proof {
            assert(self.render_buf@ =~= cleared_view(v_start));
        }
        let ghost v0 = self.render_buf@;
        let tw = self.term_size.0;
        let mut k: usize = self.layers.len();
        proof {
            assert(self.layers@.skip(k as int) =~= Seq::<Layout>::empty());
        }
        while k > 0
            invariant
                k <= self.layers@.len(),
                self.layers == old(self).layers,
                self.focused == old(self).focused,
                self.term_size == old(self).term_size,
                self.tiled_layouts == old(self).tiled_layouts,
                self.free_layouts == old(self).free_layouts,
                tw == self.term_size.0,
                self.render_buf.wf(),
                self.render_buf@ == render_layers(v0, self.layers@.skip(k as int), tw as int),
            decreases k,
        {
            k = k - 1;
            proof {
                lemma_render_layers_skip(self.layers@, v0, tw as int, k as int);
            }
            let layer_ref = &self.layers[k];
            layer_ref.render(tw, &mut self.render_buf);
        }
        proof {
            assert(self.layers@.skip(0) =~= self.layers@);
        }
        self.render_buf.flush()
    }

    /// Takes the new terminal size, recreates the frame buffer for it, and
    /// re-renders the whole frame.
    pub fn resize(&mut self, term_width: u16, term_height: u16) -> (r: String)
        requires
            old(self).wf(),
        ensures
            final(self).wf(),
            final(self).layers == old(self).layers,
            final(self).focused == old(self).focused,
            final(self).term_size == (term_width, term_height),
            ({
                let fresh = FrameView {
                    grid: Seq::new((term_width as nat) * (term_height as nat), |i: int| crate::frame::GAP_CHAR),
                    claimed: Seq::new((term_width as nat) * (term_height as nat), |i: int| false),
                    init_codes: Seq::empty(),
                    last_codes: Seq::empty(),
                    codes: Seq::empty(),
                };
                let rendered = render_layers(fresh, old(self).layers@, term_width as int);
                &&& final(self).render_buf@.grid == flush_grid(rendered)
                &&& exists|sorted: Seq<(ANSICode, usize)>|
                    {
                        &&& sorted.to_multiset() == rendered.codes.to_multiset()
                        &&& #[trigger] sorted_by_idx(sorted)
                        &&& r@ == flush_output(rendered, sorted)
                    }
            }),
    {
        self.term_size = (term_width, term_height);
        self.render_buf = RenderBuffer::new(term_width, term_height);
        proof {
            assert(cleared_view(self.render_buf@) =~= self.render_buf@);
            assert(cleared_view(self.render_buf@) =~= (FrameView {
                grid: Seq::new((term_width as nat) * (term_height as nat), |i: int| crate::frame::GAP_CHAR),
                claimed: Seq::new((term_width as nat) * (term_height as nat), |i: int| false),
                init_codes: Seq::empty(),
                last_codes: Seq::empty(),
                codes: Seq::empty(),
            }));
        }
        self.rerender()
    }
}

/// Whether a pane's text origin can be computed without overflowing the
/// coordinate type.
pub open spec fn start_ok(p: Buffer) -> bool {
    match p.border {
        Some(b) => p.offx + b.lpad + 1 <= u16::MAX && p.offy + b.tpad + 1 <= u16::MAX,
        None => true,
    }
}

/// The column where a pane's text begins.
pub open spec fn start_x(p: Buffer) -> u16 {
    match p.border {
        Some(b) => (p.offx + b.lpad + (if b.shows_left() {
            1int
        } else {
            0int
        })) as u16,
        None => p.offx,
    }
}

/// The row where a pane's text begins.
pub open spec fn start_y(p: Buffer) -> u16 {
    match p.border {
        Some(b) => (p.offy + b.tpad + (if b.shows_top() {
            1int
        } else {
            0int
        })) as u16,
        None => p.offy,
    }
}


/// All fields of a pane except its annotation list.
pub open spec fn same_but_codes(a: Buffer, b: Buffer) -> bool {
    &&& a.offx == b.offx
    &&& a.offy == b.offy
    &&& a.width == b.width
    &&& a.height == b.height
    &&& a.border == b.border
    &&& a.cursor_pos == b.cursor_pos
    &&& a.content == b.content
}

/// All fields of a pane except its content lines.
pub open spec fn same_but_content(a: Buffer, b: Buffer) -> bool {
    &&& a.offx == b.offx
    &&& a.offy == b.offy
    &&& a.width == b.width
    &&& a.height == b.height
    &&& a.border == b.border
    &&& a.cursor_pos == b.cursor_pos
    &&& a.ctrl_codes == b.ctrl_codes
}

/// All fields of a pane except its cursor.
pub open spec fn same_but_cursor(a: Buffer, b: Buffer) -> bool {
    &&& a.offx == b.offx
    &&& a.offy == b.offy
    &&& a.width == b.width
    &&& a.height == b.height
    &&& a.border == b.border
    &&& a.content == b.content
    &&& a.ctrl_codes == b.ctrl_codes
}

/// How one pane replacement changes a layer: only the slot under `id`
/// differs between `pre` and `post`; every other slot, and the key order,
/// keeps its place.
pub open spec fn layer_pane_updated(pre: MasterLayout, post: MasterLayout, id: BufferId) -> bool {
    &&& post.master_id == pre.master_id
    &&& post.top_key == pre.top_key
    &&& post.split_width == pre.split_width
    &&& (pre.master is Some && pre.master_id == id ==> post.buffers == pre.buffers
        && post.master is Some)
    &&& (!(pre.master is Some && pre.master_id == id) ==> post.master == pre.master
        && post.buffers@ =~= pre.buffers@.update(
        stack_idx(pre.buffers@, id),
        (id, post.buffers@[stack_idx(pre.buffers@, id)].1),
    ))
}

/// The externally issued handle to one pane, together with the motion
/// engine's working state for it.
pub struct ClientBuffer {
    pub bufman_ref: BufferRef,
    pub motion_stuff: MotionBuffer,
}

impl ClientBuffer {
    /// The pane id this handle points at.
    fn id(&self) -> (r: BufferId)
        ensures
            r == self.bufman_ref.id,
    {
        self.bufman_ref.id
    }

    /// The layer this handle points at.
    fn layer(&self) -> (r: u8)
        ensures
            r == self.bufman_ref.layer,
    {
        self.bufman_ref.layer
    }

    /// The motion engine's cursor for this pane.
    pub fn cursor_position(&self) -> (r: &CursorPosition)
        ensures
            r == &self.motion_stuff.cursor_position,
    {
        &self.motion_stuff.cursor_position
    }

    /// Creates a pane on the first layer of the chosen placement-preference
    /// list that is not full, and hands back its owning handle. Fails when
    /// no candidate layer accepts the pane.
    #[verifier::loop_isolation(false)]
    pub fn build(man: &mut BufferManager, id: BufferId, tiled: bool) -> (r: Result<
        ClientBuffer,
        String,
    >)
        requires
            old(man).wf(),
            forall|i: int|
                0 <= i < old(man).prefs_of(tiled).len() ==> old(man).can_place(
                    #[trigger] old(man).prefs_of(tiled)[i] as int,
                ),
        ensures
            final(man).wf(),
            final(man).term_size == old(man).term_size,
            final(man).focused == old(man).focused,
            old(man).prefs_of(tiled).len() == 0 ==> {
                &&& r matches Err(e) && e@ == "all layers full!"@
                &&& final(man).layers@ == old(man).layers@
            },
            old(man).prefs_of(tiled).len() > 0 ==> {
                let l = old(man).prefs_of(tiled)[0] as int;
                &&& r matches Ok(cb) && cb.bufman_ref == (BufferRef {
                    layer: l as u8,
                    id: old(man).layer_master(l).top_key,
                }) && cb.motion_stuff.content@.len() == 0 && cb.motion_stuff.cursor_position == (
                CursorPosition { x: 0, y: 0 })
                &&& exists|d: Buffer|
                    {
                        &&& d.offx == 0 && d.offy == 0 && d.width == 20 && d.height == 20
                        &&& d.content@.len() == 0
                        &&& #[trigger] add_rel(
                            old(man).layer_master(l),
                            final(man).layer_master(l),
                            d,
                            old(man).term_size.0,
                            old(man).term_size.1,
                        )
                    }
                &&& forall|k: int|
                    0 <= k < old(man).layers@.len() && k != l ==> final(man).layers@[k] == old(man).layers@[k]
            },
    {
        let prefs_len = if tiled {
            man.tiled_layouts.len()
        } else {
            man.free_layouts.len()
        };
        let mut i: usize = 0;
        while i < prefs_len
            invariant
                *man == *old(man),
                man.wf(),
                prefs_len == old(man).prefs_of(tiled).len(),
                i == 0,
            decreases prefs_len - i,
        {
            let l = if tiled {
                man.tiled_layouts[i]
            } else {
                man.free_layouts[i]
            };
            let full = match &man.layers[l] {
                Layout::Master(m) => m.is_full(),
            };
            if !full {
                proof {
                    assert(l == old(man).prefs_of(tiled)[0]);
                    assert(old(man).can_place(old(man).prefs_of(tiled)[0] as int));
                }
                let layer8 = l as u8;
                match man.add_new_buf(layer8, id) {
                    Ok(newid) => {
                        return Ok(
                            ClientBuffer {
                                bufman_ref: BufferRef { layer: layer8, id: newid },
                                motion_stuff: MotionBuffer::new(
                                    Vec::new(),
                                    CursorPosition { x: 0, y: 0 },
                                ),
                            },
                        );
                    },
                    Err(_) => {
                        return vstd::pervasive::unreached();
                    },
                }
            }
            i += 1;
        }
        Err("all layers full!".to_owned())
    }

    /// Creates a pane on the first tiled-placement layer with room.
    pub fn build_on_tiled(man: &mut BufferManager, id: BufferId) -> (r: Result<
        ClientBuffer,
        String,
    >)
        requires
            old(man).wf(),
            forall|i: int|
                0 <= i < old(man).prefs_of(true).len() ==> old(man).can_place(
                    #[trigger] old(man).prefs_of(true)[i] as int,
                ),
        ensures
            final(man).wf(),
            final(man).term_size == old(man).term_size,
            old(man).prefs_of(true).len() == 0 ==> (r matches Err(e) && e@
                == "all layers full!"@),
            old(man).prefs_of(true).len() > 0 ==> (r matches Ok(cb) && cb.bufman_ref == (
            BufferRef {
                layer: old(man).prefs_of(true)[0] as u8,
                id: old(man).layer_master(old(man).prefs_of(true)[0] as int).top_key,
            })),
    {
        ClientBuffer::build(man, id, true)
    }

    /// Creates a pane on the first free-placement layer with room.
    pub fn build_on_free(man: &mut BufferManager, id: BufferId) -> (r: Result<ClientBuffer, String>)
        requires
            old(man).wf(),
            forall|i: int|
                0 <= i < old(man).prefs_of(false).len() ==> old(man).can_place(
                    #[trigger] old(man).prefs_of(false)[i] as int,
                ),
        ensures
            final(man).wf(),
            final(man).term_size == old(man).term_size,
            old(man).prefs_of(false).len() == 0 ==> (r matches Err(e) && e@
                == "all layers full!"@),
            old(man).prefs_of(false).len() > 0 ==> (r matches Ok(cb) && cb.bufman_ref == (
            BufferRef {
                layer: old(man).prefs_of(false)[0] as u8,
                id: old(man).layer_master(old(man).prefs_of(false)[0] as int).top_key,
            })),
    {
        ClientBuffer::build(man, id, false)
    }

    /// Moves the focus to this handle's pane, queues the cursor-placement
    /// code for the next flush, and hands back the on-screen position where
    /// the pane's text begins.
    pub fn focus(&self, man: &mut BufferManager) -> (r: Result<(u16, u16), String>)
        requires
            old(man).wf(),
            (self.bufman_ref.layer as int) < old(man).layers@.len() && holds(
                old(man).layer_master(self.bufman_ref.layer as int),
                self.bufman_ref.id,
            ) ==> start_ok(
                pane_of(old(man).layer_master(self.bufman_ref.layer as int), self.bufman_ref.id),
            ),
        ensures
            final(man).wf(),
            final(man).layers == old(man).layers,
            final(man).term_size == old(man).term_size,
            (self.bufman_ref.layer as int) < old(man).layers@.len() && holds(
                old(man).layer_master(self.bufman_ref.layer as int),
                self.bufman_ref.id,
            ) ==> {
                let p = pane_of(
                    old(man).layer_master(self.bufman_ref.layer as int),
                    self.bufman_ref.id,
                );
                &&& r matches Ok(xy) && xy == (start_x(p), start_y(p))
                &&& final(man).focused == Some(self.bufman_ref)
                &&& final(man).render_buf@ == (FrameView {
                    last_codes: old(man).render_buf@.last_codes.push(
                        ANSICode::SetCursor(start_x(p), start_y(p)),
                    ),
                    ..old(man).render_buf@
                })
            },
            !((self.bufman_ref.layer as int) < old(man).layers@.len() && holds(
                old(man).layer_master(self.bufman_ref.layer as int),
                self.bufman_ref.id,
            )) ==> {
                &&& r matches Err(e) && e@ == "not found"@
                &&& final(man).focused == old(man).focused
            },
    {
        match man.change_focus(self.bufman_ref) {
            Err(e) => Err(e.to_owned()),
            Ok(()) => {
                match man.get_buf(self.layer(), self.id()) {
                    Ok(b) => Ok(b.get_start_of_text()),
                    Err(_) => vstd::pervasive::unreached(),
                }
            },
        }
    }

    /// Annotates a byte range of this pane's content: the color code at the
    /// range start, a reset at the range end. The annotations take effect
    /// at the next render.
    pub fn set_color(&self, man: &mut BufferManager, start: usize, end: usize, color: ANSICode)
        requires
            old(man).wf(),
            (self.bufman_ref.layer as int) < old(man).layers@.len(),
            holds(old(man).layer_master(self.bufman_ref.layer as int), self.bufman_ref.id),
        ensures
            final(man).wf(),
            final(man).focused == old(man).focused,
            final(man).term_size == old(man).term_size,
            final(man).layers@.len() == old(man).layers@.len(),
            forall|k: int|
                0 <= k < old(man).layers@.len() && k != self.bufman_ref.layer as int ==> final(man).layers@[k] == old(man).layers@[k],
            ({
                let l = self.bufman_ref.layer as int;
                let p0 = pane_of(old(man).layer_master(l), self.bufman_ref.id);
                let p1 = pane_of(final(man).layer_master(l), self.bufman_ref.id);
                &&& holds(final(man).layer_master(l), self.bufman_ref.id)
                &&& p1.ctrl_codes@ == p0.ctrl_codes@.push((color, start)).push(
                    (ANSICode::Reset, end),
                )
                &&& same_but_codes(p1, p0)
                &&& layer_pane_updated(
                    old(man).layer_master(l),
                    final(man).layer_master(l),
                    self.bufman_ref.id,
                )
            }),
    {
        let l = self.bufman_ref.layer as usize;
        let ghost pre = man.layer_master(l as int);
        let layer_ref = &mut man.layers[l];
        match layer_ref {
            Layout::Master(m) => {
                let b = m.get_buf_mut(self.bufman_ref.id);
                b.push_ctrl_code(color, start);
                b.push_ctrl_code(ANSICode::reset(), end);
            },
        }
        proof {
            assert(man.layers@ =~= old(man).layers@.update(l as int, man.layers@[l as int]));
            if pre.master is Some && pre.master_id == self.bufman_ref.id {
            } else {
                lemma_stack_idx_unique(
                    man.layer_master(l as int).buffers@,
                    self.bufman_ref.id,
                    stack_idx(pre.buffers@, self.bufman_ref.id),
                );
            }
        }
    }

    /// Replaces this pane's content with `content`, split on newlines, and
    /// re-renders the whole frame; the emitted stream is handed back.
    pub fn set_content(&self, man: &mut BufferManager, content: &str) -> (r: Result<String, String>)
        requires
            old(man).wf(),
            (self.bufman_ref.layer as int) < old(man).layers@.len(),
            holds(old(man).layer_master(self.bufman_ref.layer as int), self.bufman_ref.id),
        ensures
            final(man).wf(),
            final(man).focused == old(man).focused,
            final(man).term_size == old(man).term_size,
            final(man).layers@.len() == old(man).layers@.len(),
            forall|k: int|
                0 <= k < old(man).layers@.len() && k != self.bufman_ref.layer as int ==> final(man).layers@[k] == old(man).layers@[k],
            ({
                let l = self.bufman_ref.layer as int;
                let p0 = pane_of(old(man).layer_master(l), self.bufman_ref.id);
                let p1 = pane_of(final(man).layer_master(l), self.bufman_ref.id);
                &&& holds(final(man).layer_master(l), self.bufman_ref.id)
                &&& crate::pane::str_views(p1.content@) == crate::rows::split_lines(content@)
                &&& same_but_content(p1, p0)
                &&& layer_pane_updated(
                    old(man).layer_master(l),
                    final(man).layer_master(l),
                    self.bufman_ref.id,
                )
            }),
            ({
                let rendered = render_layers(
                    cleared_view(old(man).render_buf@),
                    final(man).layers@,
                    old(man).term_size.0 as int,
                );
                r matches Ok(out) ==> exists|sorted: Seq<(ANSICode, usize)>|
                    {
                        &&& sorted.to_multiset() == rendered.codes.to_multiset()
                        &&& #[trigger] sorted_by_idx(sorted)
                        &&& out@ == flush_output(rendered, sorted)
                    }
            }),
            r is Ok,
    {
        let text = chars_of_str(content);
        let line_vecs = crate::rows::split_lines_exec(&text);
        let mut lines: Vec<String> = Vec::new();
        let mut i: usize = 0;
        while i < line_vecs.len()
            invariant
                i <= line_vecs@.len(),
                crate::pane::str_views(lines@) =~= crate::rows::views_of(line_vecs@).take(i as int),
            decreases line_vecs@.len() - i,
        {
            let ghost pre_lines = lines@;
            lines.push(string_from_chars(&line_vecs[i]));
            proof {
                crate::pane::lemma_str_views(pre_lines);
                crate::pane::lemma_str_views(lines@);
                crate::rows::lemma_views(line_vecs@);
                assert(crate::pane::str_views(lines@) =~= crate::rows::views_of(
                    line_vecs@,
                ).take(i as int + 1));
            }
            i += 1;
        }
        proof {
            crate::rows::lemma_views(line_vecs@);
            assert(crate::rows::views_of(line_vecs@).take(line_vecs@.len() as int)
                =~= crate::rows::views_of(line_vecs@));
        }
        let l = self.bufman_ref.layer as usize;
        let ghost pre = man.layer_master(l as int);
        let layer_ref = &mut man.layers[l];
        match layer_ref {
            Layout::Master(m) => {
                let b = m.get_buf_mut(self.bufman_ref.id);
                b.set_content(lines);
            },
        }
        proof {
            assert(man.layers@ =~= old(man).layers@.update(l as int, man.layers@[l as int]));
            if pre.master is Some && pre.master_id == self.bufman_ref.id {
            } else {
                lemma_stack_idx_unique(
                    man.layer_master(l as int).buffers@,
                    self.bufman_ref.id,
                    stack_idx(pre.buffers@, self.bufman_ref.id),
                );
            }
        }
        let out = man.rerender();
        Ok(out)
    }

    /// Centers this pane's content inside its current size by recomputing
    /// the border's left and top padding.
    pub fn center(&self, man: &mut BufferManager)
        requires
            old(man).wf(),
            (self.bufman_ref.layer as int) < old(man).layers@.len(),
            holds(old(man).layer_master(self.bufman_ref.layer as int), self.bufman_ref.id),
            Buffer::center_ok(
                pane_of(old(man).layer_master(self.bufman_ref.layer as int), self.bufman_ref.id),
            ),
        ensures
            final(man).wf(),
            final(man).focused == old(man).focused,
            final(man).term_size == old(man).term_size,
            final(man).layers@.len() == old(man).layers@.len(),
            forall|k: int|
                0 <= k < old(man).layers@.len() && k != self.bufman_ref.layer as int ==> final(man).layers@[k] == old(man).layers@[k],
            ({
                let l = self.bufman_ref.layer as int;
                let p0 = pane_of(old(man).layer_master(l), self.bufman_ref.id);
                let p1 = pane_of(final(man).layer_master(l), self.bufman_ref.id);
                &&& holds(final(man).layer_master(l), self.bufman_ref.id)
                &&& p1 == Buffer::spec_center(p0)
                &&& layer_pane_updated(
                    old(man).layer_master(l),
                    final(man).layer_master(l),
                    self.bufman_ref.id,
                )
            }),
    {
        let l = self.bufman_ref.layer as usize;
        let ghost pre = man.layer_master(l as int);
        let layer_ref = &mut man.layers[l];
        match layer_ref {
            Layout::Master(m) => {
                let b = m.get_buf_mut(self.bufman_ref.id);
                b.center();
            },
        }
        proof {
            assert(man.layers@ =~= old(man).layers@.update(l as int, man.layers@[l as int]));
            if pre.master is Some && pre.master_id == self.bufman_ref.id {
            } else {
                lemma_stack_idx_unique(
                    man.layer_master(l as int).buffers@,
                    self.bufman_ref.id,
                    stack_idx(pre.buffers@, self.bufman_ref.id),
                );
            }
        }
    }

    /// Moves this pane to another layer: it leaves its current layer —
    /// promoting or retiling what stays behind — and joins the target
    /// layer under a freshly allocated id, which this handle then tracks.
    /// A target layer past the end is an orphaned reference; the pane is
    /// gone either way, as removal happens first.
    pub fn move_to_layer(&mut self, man: &mut BufferManager, layer: u8) -> (r: Result<(), String>)
        requires
            old(man).wf(),
            (old(self).bufman_ref.layer as int) < old(man).layers@.len(),
            holds(
                old(man).layer_master(old(self).bufman_ref.layer as int),
                old(self).bufman_ref.id,
            ),
            old(man).layer_master(old(self).bufman_ref.layer as int).split_width <= old(
                man,
            ).term_size.0,
            (layer as int) < old(man).layers@.len() ==> old(man).can_place(layer as int),
        ensures
            final(man).wf(),
            final(man).term_size == old(man).term_size,
            final(man).layers@.len() == old(man).layers@.len(),
            (layer as int) >= old(man).layers@.len() ==> {
                &&& r is Err
                &&& *final(self) == *old(self)
            },
            (layer as int) < old(man).layers@.len() ==> {
                let moved = pane_of(
                    old(man).layer_master(old(self).bufman_ref.layer as int),
                    old(self).bufman_ref.id,
                );
                let new_id = old(man).layer_master(layer as int).top_key;
                &&& r is Ok
                &&& final(self).bufman_ref == (BufferRef { layer, id: new_id })
                &&& final(self).motion_stuff == old(self).motion_stuff
                &&& holds(final(man).layer_master(layer as int), new_id)
                &&& crate::layout::same_payload(
                    pane_of(final(man).layer_master(layer as int), new_id),
                    moved,
                )
            },
    {
        let src_layer = self.bufman_ref.layer as usize;
        let ghost src_pre = man.layer_master(src_layer as int);
        let buf = match man.rem_buf(src_layer, self.bufman_ref.id) {
            Ok(b) => b,
            Err(_) => {
                return vstd::pervasive::unreached();
            },
        };
        proof {
            if (layer as int) < man.layers@.len() {
                assert(man.layer_master(layer as int).top_key == old(man).layer_master(
                    layer as int,
                ).top_key);
                assert(man.layer_master(layer as int).buffers@.len() <= old(man).layer_master(
                    layer as int,
                ).buffers@.len());
            }
        }
        match man.add_buf(layer, self.bufman_ref.id, buf) {
            Ok(newid) => {
                self.bufman_ref = BufferRef { layer, id: newid };
                proof {
                    let post = man.layer_master(layer as int);
                    if post.master is Some && post.master_id == newid {
                    } else {
                        crate::layout::lemma_stack_idx_unique(
                            post.buffers@,
                            newid,
                            post.buffers@.len() - 1,
                        );
                    }
                }
                Ok(())
            },
            Err(e) => Err(e.to_owned()),
        }
    }

    /// This pane's content lines.
    pub fn get_content<'a>(&self, man: &'a BufferManager) -> (r: Result<
        &'a Vec<String>,
        &'static str,
    >)
        requires
            man.wf(),
        ensures
            match r {
                Ok(v) => (self.bufman_ref.layer as int) < man.layers@.len() && holds(
                    man.layer_master(self.bufman_ref.layer as int),
                    self.bufman_ref.id,
                ) && v == &pane_of(
                    man.layer_master(self.bufman_ref.layer as int),
                    self.bufman_ref.id,
                ).content,
                Err(e) => e@ == "not found"@,
            },
    {
        match man.get_buf(self.bufman_ref.layer, self.bufman_ref.id) {
            Ok(b) => Ok(b.lines()),
            Err(e) => Err(e),
        }
    }
}

/// Moves the focused pane's local cursor; without a valid focus nothing
/// changes.
pub fn update_cursor_pos(man: &mut BufferManager, new_pos: CursorPosition)
    requires
        old(man).wf(),
    ensures
        final(man).wf(),
        final(man).focused == old(man).focused,
        final(man).term_size == old(man).term_size,
        final(man).layers@.len() == old(man).layers@.len(),
        match old(man).focused {
            None => final(man).layers == old(man).layers,
            Some(fr) => {
                &&& !((fr.layer as int) < old(man).layers@.len() && holds(
                    old(man).layer_master(fr.layer as int),
                    fr.id,
                )) ==> final(man).layers == old(man).layers
                &&& ((fr.layer as int) < old(man).layers@.len() && holds(
                    old(man).layer_master(fr.layer as int),
                    fr.id,
                )) ==> {
                    let p0 = pane_of(old(man).layer_master(fr.layer as int), fr.id);
                    let p1 = pane_of(final(man).layer_master(fr.layer as int), fr.id);
                    &&& holds(final(man).layer_master(fr.layer as int), fr.id)
                    &&& p1.cursor_pos == new_pos
                    &&& same_but_cursor(p1, p0)
                    &&& forall|k: int|
                        0 <= k < old(man).layers@.len() && k != fr.layer as int ==> final(man).layers@[k] == old(man).layers@[k]
                }
            },
        },
{
    let fr = match man.focused {
        Some(fr) => fr,
        None => {
            return ;
        },
    };
    let l = fr.layer as usize;
    if l >= man.layers.len() {
        return ;
    }
    let found = match &man.layers[l] {
        Layout::Master(m) => m.has_buf(fr.id),
    };
    if !found {
        return ;
    }
    let ghost pre = man.layer_master(l as int);
    let layer_ref = &mut man.layers[l];
    match layer_ref {
        Layout::Master(m) => {
            let b = m.get_buf_mut(fr.id);
            b.set_cursor_pos(new_pos);
        },
    }
    proof {
        assert(man.layers@ =~= old(man).layers@.update(l as int, man.layers@[l as int]));
        if pre.master is Some && pre.master_id == fr.id {
        } else {
            lemma_stack_idx_unique(
                man.layer_master(l as int).buffers@,
                fr.id,
                stack_idx(pre.buffers@, fr.id),
            );
        }
    }
}

} // verus!
