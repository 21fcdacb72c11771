//! Batching of geometry into draw calls: consecutive geometry drawn with the same
//! state goes into one draw call, as long as its vertex and index buffers have room.
//!
//! `V` is the vertex type and `S` the render state of a draw call (texture, clip,
//! viewport, model matrix, pipeline, render pass, draw mode, capture, uniforms);
//! whether the current state equals that of the last draw call is the caller's to
//! tell.
use vstd::prelude::*;

verus! {

/// The buffers of one draw call: a fixed capacity, and how much of it is filled.
pub struct DrawBuffers<V> {
    pub vertices: Vec<V>,
    pub indices: Vec<u16>,
    pub vertices_count: usize,
    pub indices_count: usize,
}

/// The number of items of a batch that are kept: at most `max`.
pub open spec fn clamped(len: int, max: int) -> int {
    if len < max { len } else { max }
}

/// Draw calls in use this frame, and spare ones kept from earlier frames: the
/// buffers and the state of each.
pub struct DrawCallBatcher<V, S> {
    buffers: Vec<DrawBuffers<V>>,
    states: Vec<S>,
    draw_calls_count: usize,
    max_vertices: usize,
    max_indices: usize,
    blank: V,
    break_batching: bool,
}

impl<V: Copy, S> DrawCallBatcher<V, S> {
    pub closed spec fn calls(&self) -> Seq<DrawBuffers<V>> {
        self.buffers@
    }

    pub closed spec fn call_states(&self) -> Seq<S> {
        self.states@
    }

    /// Whether the next geometry is forced into a new draw call.
    pub closed spec fn batching_broken(&self) -> bool {
        self.break_batching
    }

    /// How many draw calls are in use this frame.
    pub closed spec fn in_use(&self) -> int {
        self.draw_calls_count as int
    }

    pub closed spec fn vertex_capacity(&self) -> int {
        self.max_vertices as int
    }

    pub closed spec fn index_capacity(&self) -> int {
        self.max_indices as int
    }

    /// One state per draw call, and every draw call has buffers of the full capacity.
    pub closed spec fn wf(&self) -> bool {
        &&& self.states@.len() == self.buffers@.len()
        &&& self.draw_calls_count <= self.buffers@.len()
        &&& forall|i: int|
            0 <= i < self.buffers@.len() ==> {
                &&& (#[trigger] self.buffers@[i]).vertices@.len() == self.max_vertices
                &&& self.buffers@[i].indices@.len() == self.max_indices
            }
    }

    /// The last draw call in use.
    pub open spec fn current_call(&self) -> DrawBuffers<V> {
        self.calls()[self.in_use() - 1]
    }

    /// Whether geometry of `n_vertices` vertices and `n_indices` indices (after
    /// clamping) starts a new draw call: there is none yet, the state changed,
    /// batching was broken, or the last call's buffers have no room left for it.
    pub open spec fn needs_new_call(&self, n_vertices: int, n_indices: int, same_state: bool) -> bool {
        ||| self.in_use() == 0
        ||| !same_state
        ||| self.calls()[self.in_use() - 1].vertices_count >= self.vertex_capacity() - n_vertices
        ||| self.calls()[self.in_use() - 1].indices_count >= self.index_capacity() - n_indices
        ||| self.batching_broken()
    }

    /// No draw calls, buffers of `max_vertices` vertices and `max_indices` indices.
    pub fn new(max_vertices: usize, max_indices: usize, blank: V) -> (b: Self)
        ensures
            b.wf(),
            b.in_use() == 0,
            b.calls().len() == 0,
            b.vertex_capacity() == max_vertices,
            b.index_capacity() == max_indices,
            !b.batching_broken(),
    {
        DrawCallBatcher {
            buffers: Vec::new(),
            states: Vec::new(),
            draw_calls_count: 0,
            max_vertices,
            max_indices,
            blank,
            break_batching: false,
        }
    }

    fn empty_buffers(max_vertices: usize, max_indices: usize, blank: V) -> (c: DrawBuffers<V>)
        ensures
            c.vertices@.len() == max_vertices,
            c.indices@.len() == max_indices,
            c.vertices_count == 0,
            c.indices_count == 0,
    {
        let mut vertices: Vec<V> = Vec::new();
        let mut k: usize = 0;
        while k < max_vertices
            invariant
                vertices@.len() == k,
                k <= max_vertices,
            decreases max_vertices - k,
        {
            vertices.push(blank);
            k = k + 1;
        }
        let mut indices: Vec<u16> = Vec::new();
        k = 0;
        while k < max_indices
            invariant
                indices@.len() == k,
                k <= max_indices,
            decreases max_indices - k,
        {
            indices.push(0);
            k = k + 1;
        }
        DrawBuffers { vertices, indices, vertices_count: 0, indices_count: 0 }
    }

    /// Starts a frame with no draw call in use.
    pub fn clear_draw_calls(&mut self)
        requires
            old(self).wf(),
        ensures
            final(self).wf(),
            final(self).in_use() == 0,
            final(self).calls() == old(self).calls(),
            final(self).call_states() == old(self).call_states(),
            final(self).vertex_capacity() == old(self).vertex_capacity(),
            final(self).index_capacity() == old(self).index_capacity(),
            final(self).batching_broken() == old(self).batching_broken(),
    {
        self.draw_calls_count = 0;
    }

    /// Forces the next geometry into a new draw call (after a uniform changed).
    pub fn break_batching(&mut self)
        requires
            old(self).wf(),
        ensures
            final(self).wf(),
            final(self).batching_broken(),
            final(self).in_use() == old(self).in_use(),
            final(self).calls() == old(self).calls(),
            final(self).call_states() == old(self).call_states(),
            final(self).vertex_capacity() == old(self).vertex_capacity(),
            final(self).index_capacity() == old(self).index_capacity(),
    {
        self.break_batching = true;
    }

    /// The vertex and index capacity of each draw call.
    pub fn capacities(&self) -> (r: (usize, usize))
        ensures
            r.0 == self.vertex_capacity(),
            r.1 == self.index_capacity(),
    {
        (self.max_vertices, self.max_indices)
    }

    /// How many draw calls are in use.
    pub fn draw_calls_count(&self) -> (n: usize)
        ensures
            n == self.in_use(),
    {
        self.draw_calls_count
    }

    /// The buffers of draw call number `i`.
    pub fn draw_call(&self, i: usize) -> (c: &DrawBuffers<V>)
        requires
            i < self.calls().len(),
        ensures
            *c == self.calls()[i as int],
    {
        &self.buffers[i]
    }

    /// The state of draw call number `i`.
    pub fn draw_call_state(&self, i: usize) -> (s: &S)
        requires
            i < self.call_states().len(),
        ensures
            *s == self.call_states()[i as int],
    {
        &self.states[i]
    }

    /// Whether geometry of `n_vertices` vertices and `n_indices` indices starts a new
    /// draw call, and the vertex count that its indices are offset by.
    pub fn plan(&self, n_vertices: usize, n_indices: usize, same_state: bool) -> (r: (bool, usize))
        requires
            self.wf(),
        ensures
            r.0 == self.needs_new_call(
                clamped(n_vertices as int, self.vertex_capacity()),
                clamped(n_indices as int, self.index_capacity()),
                same_state,
            ),
            r.1 == if r.0 { 0 } else { self.calls()[self.in_use() - 1].vertices_count as int },
    {
        let nv = if n_vertices < self.max_vertices { n_vertices } else { self.max_vertices };
        let ni = if n_indices < self.max_indices { n_indices } else { self.max_indices };
        if self.draw_calls_count == 0 || !same_state || self.break_batching {
            return (true, 0);
        }
        let last = &self.buffers[self.draw_calls_count - 1];
        if last.vertices_count >= self.max_vertices - nv || last.indices_count >= self.max_indices - ni {
            (true, 0)
        } else {
            (false, last.vertices_count)
        }
    }

    /// Adds geometry drawn with `state`; `same_state` tells whether `state` equals
    /// that of the last draw call. At most the buffers' capacity of vertices and of
    /// indices is kept. The geometry starts a new draw call (see `needs_new_call`),
    /// or is appended to the last one, its indices offset by the vertices already there.
    pub fn geometry(&mut self, vertices: &[V], indices: &[u16], state: S, same_state: bool)
        requires
            old(self).wf(),
            forall|j: int|
                0 <= j < clamped(indices@.len() as int, old(self).index_capacity()) ==> #[trigger] indices@[j] + (
                if old(self).needs_new_call(
                    clamped(vertices@.len() as int, old(self).vertex_capacity()),
                    clamped(indices@.len() as int, old(self).index_capacity()),
                    same_state,
                ) {
                    0
                } else {
                    (old(self).calls()[old(self).in_use() - 1].vertices_count as u16) as int
                }) <= u16::MAX,
        ensures
            final(self).wf(),
            final(self).vertex_capacity() == old(self).vertex_capacity(),
            final(self).index_capacity() == old(self).index_capacity(),
            ({
                let nv = clamped(vertices@.len() as int, old(self).vertex_capacity());
                let ni = clamped(indices@.len() as int, old(self).index_capacity());
                let fresh = old(self).needs_new_call(nv, ni, same_state);
                let t = final(self).in_use() - 1;
                let base_v = if fresh { 0 } else { old(self).calls()[t].vertices_count as int };
                let base_i = if fresh { 0 } else { old(self).calls()[t].indices_count as int };
                let dc = final(self).current_call();
                &&& final(self).in_use() == old(self).in_use() + if fresh { 1int } else { 0int }
                &&& final(self).batching_broken() == (old(self).batching_broken() && !fresh)
                &&& final(self).calls().len() == if fresh && old(self).in_use() == old(self).calls().len() {
                    old(self).calls().len() + 1int
                } else {
                    old(self).calls().len() as int
                }
                &&& forall|i: int| 0 <= i < old(self).calls().len() && i != t ==> {
                    &&& #[trigger] final(self).calls()[i] == old(self).calls()[i]
                    &&& final(self).call_states()[i] == old(self).call_states()[i]
                }
                &&& final(self).call_states()[t] == if fresh { state } else { old(self).call_states()[t] }
                &&& dc.vertices_count == base_v + nv
                &&& dc.indices_count == base_i + ni
                &&& forall|k: int| 0 <= k < base_v ==> #[trigger] dc.vertices@[k] == old(self).calls()[t].vertices@[k]
                &&& forall|k: int| 0 <= k < base_i ==> #[trigger] dc.indices@[k] == old(self).calls()[t].indices@[k]
                &&& forall|k: int| base_v <= k < base_v + nv ==> #[trigger] dc.vertices@[k] == vertices@[k - base_v]
                &&& forall|k: int|
                    base_i <= k < base_i + ni ==> #[trigger] dc.indices@[k] == indices@[k - base_i] + (base_v as u16) as int
            }),
    {
        let nv = if vertices.len() < self.max_vertices { vertices.len() } else { self.max_vertices };
        let ni = if indices.len() < self.max_indices { indices.len() } else { self.max_indices };
        let (fresh, _) = self.plan(vertices.len(), indices.len(), same_state);
        if fresh {
            if self.draw_calls_count >= self.buffers.len() {
                let c = Self::empty_buffers(self.max_vertices, self.max_indices, self.blank);
                self.buffers.push(c);
                self.states.push(state);
            } else {
                let t = self.draw_calls_count;
                self.buffers[t].vertices_count = 0;
                self.buffers[t].indices_count = 0;
                self.states.set(t, state);
            }
            assert(self.draw_calls_count < self.buffers.len());
            self.draw_calls_count = self.draw_calls_count + 1;
            self.break_batching = false;
        }
        assert(self.draw_calls_count <= self.buffers@.len());
        let t = self.draw_calls_count - 1;
        let mut dc = DrawBuffers { vertices: Vec::new(), indices: Vec::new(), vertices_count: 0, indices_count: 0 };
        core::mem::swap(&mut dc, &mut self.buffers[t]);
        let base_v = dc.vertices_count;
        let base_i = dc.indices_count;
        let ghost dc0 = dc;
        let mut i: usize = 0;
        while i < nv
            invariant
                0 <= i <= nv,
                nv <= vertices@.len(),
                base_v + nv <= dc.vertices.len(),
                dc.vertices@.len() == dc0.vertices@.len(),
                dc.indices@ == dc0.indices@,
                dc.vertices_count == dc0.vertices_count,
                dc.indices_count == dc0.indices_count,
                forall|j: int| 0 <= j < base_v ==> #[trigger] dc.vertices@[j] == dc0.vertices@[j],
                forall|j: int| 0 <= j < i ==> #[trigger] dc.vertices@[base_v + j] == vertices@[j],
            decreases nv - i,
        {
            dc.vertices.set(base_v + i, vertices[i]);
            i = i + 1;
        }
        let ghost dc1 = dc;
        i = 0;
        while i < ni
            invariant
                0 <= i <= ni,
                ni <= indices@.len(),
                base_i + ni <= dc.indices.len(),
                dc.indices@.len() == dc0.indices@.len(),
                dc.vertices@ == dc1.vertices@,
                dc.vertices_count == dc0.vertices_count,
                dc.indices_count == dc0.indices_count,
                forall|j: int| 0 <= j < base_i ==> #[trigger] dc.indices@[j] == dc0.indices@[j],
                forall|j: int| 0 <= j < i ==> #[trigger] dc.indices@[base_i + j] == indices@[j] + (base_v as u16) as int,
                forall|j: int| 0 <= j < ni ==> #[trigger] indices@[j] + (base_v as u16) as int <= u16::MAX,
            decreases ni - i,
        {
            dc.indices.set(base_i + i, indices[i] + base_v as u16);
            i = i + 1;
        }
        dc.vertices_count = base_v + nv;
        dc.indices_count = base_i + ni;
        proof {
            assert forall|k: int| base_v <= k < base_v + nv implies #[trigger] dc.vertices@[k] == vertices@[k - base_v] by {
                assert(dc.vertices@[base_v + (k - base_v)] == vertices@[k - base_v]);
            }
            assert forall|k: int| base_i <= k < base_i + ni implies #[trigger] dc.indices@[k] == indices@[k - base_i]
                + (base_v as u16) as int by {
                assert(dc.indices@[base_i + (k - base_i)] == indices@[k - base_i] + (base_v as u16) as int);
            }
        }
        core::mem::swap(&mut dc, &mut self.buffers[t]);
    }
}


/// What a draw call is drawn into, as the renderer reports it: its viewport and
/// clip rect if the state sets them, the size of its target (the render pass's
/// texture or the screen), and whether draw calls are being captured for telemetry.
#[derive(Clone, Copy, Debug)]
pub struct DrawTarget {
    pub viewport: Option<(i32, i32, i32, i32)>,
    pub clip: Option<(i32, i32, i32, i32)>,
    pub size: (u32, u32),
    pub capture: bool,
}

/// One step of drawing the batched draw calls: which call, the viewport and the
/// scissor rect to apply, how many indices to draw, and whether to record it.
#[derive(Clone, Copy, Debug, PartialEq, Eq)]
pub struct DrawCommand {
    pub call: usize,
    pub viewport: (i32, i32, i32, i32),
    pub scissor: (i32, i32, i32, i32),
    pub indices_count: usize,
    pub track: bool,
}

/// The viewport of a draw call: its own, or the whole target.
pub open spec fn viewport_of(t: DrawTarget) -> (i32, i32, i32, i32) {
    match t.viewport {
        Some(v) => v,
        None => (0, 0, t.size.0 as i32, t.size.1 as i32),
    }
}

/// The scissor rect of a draw call: its clip rect with y counted from the bottom of
/// the target, or the whole target.
pub open spec fn scissor_of(t: DrawTarget) -> (i32, i32, i32, i32) {
    match t.clip {
        Some(c) => (c.0, (t.size.1 as i32 - (c.1 + c.3)) as i32, c.2, c.3),
        None => (0, 0, t.size.0 as i32, t.size.1 as i32),
    }
}

/// Whether the scissor arithmetic of `t` stays within `i32`.
pub open spec fn clip_fits(t: DrawTarget) -> bool {
    match t.clip {
        Some(c) => i32::MIN <= c.1 + c.3 <= i32::MAX && i32::MIN <= t.size.1 as i32 - (c.1 + c.3) <= i32::MAX,
        None => true,
    }
}

/// The scissor rect of a draw call drawn into `t`.
fn scissor(t: DrawTarget) -> (r: (i32, i32, i32, i32))
    requires
        clip_fits(t),
    ensures
        r == scissor_of(t),
{
    match t.clip {
        Some(c) => (c.0, t.size.1 as i32 - (c.1 + c.3), c.2, c.3),
        None => (0, 0, t.size.0 as i32, t.size.1 as i32),
    }
}

impl<V: Copy, S> DrawCallBatcher<V, S> {
    /// The draw calls in use, in the order they were made, each drawn into the
    /// target that `targets` gives for it. The caller submits the commands in order
    /// and then starts over with `clear_draw_calls`.
    pub fn draw_plan(&self, targets: &Vec<DrawTarget>) -> (cmds: Vec<DrawCommand>)
        requires
            self.wf(),
            targets@.len() == self.in_use(),
            forall|i: int| 0 <= i < targets@.len() ==> clip_fits(#[trigger] targets@[i]),
        ensures
            cmds@.len() == self.in_use(),
            forall|i: int|
                0 <= i < cmds@.len() ==> #[trigger] cmds@[i] == (DrawCommand {
                    call: i as usize,
                    viewport: viewport_of(targets@[i]),
                    scissor: scissor_of(targets@[i]),
                    indices_count: self.calls()[i].indices_count,
                    track: targets@[i].capture,
                }),
    {
        let mut cmds: Vec<DrawCommand> = Vec::new();
        let n = self.draw_calls_count;
        let mut i: usize = 0;
        while i < n
            invariant
                n == self.in_use(),
                self.wf(),
                targets@.len() == n,
                forall|j: int| 0 <= j < targets@.len() ==> clip_fits(#[trigger] targets@[j]),
                0 <= i <= n,
                cmds@.len() == i,
                forall|j: int|
                    0 <= j < i ==> #[trigger] cmds@[j] == (DrawCommand {
                        call: j as usize,
                        viewport: viewport_of(targets@[j]),
                        scissor: scissor_of(targets@[j]),
                        indices_count: self.calls()[j].indices_count,
                        track: targets@[j].capture,
                    }),
            decreases n - i,
        {
            let t = targets[i];
            let viewport = match t.viewport {
                Some(v) => v,
                None => (0, 0, t.size.0 as i32, t.size.1 as i32),
            };
            let cmd = DrawCommand {
                call: i,
                viewport,
                scissor: scissor(t),
                indices_count: self.buffers[i].indices_count,
                track: t.capture,
            };
            cmds.push(cmd);
            i = i + 1;
        }
        cmds
    }
}

/// Batching does not change what geometry draws: after its vertices are placed from
/// `base_v` on and its indices offset by `base_v`, each index of the batch still
/// points at the vertex it pointed at in the geometry.
pub proof fn law_batched_indices_keep_their_vertices<V>(
    dc: DrawBuffers<V>,
    vertices: Seq<V>,
    indices: Seq<u16>,
    base_v: int,
    base_i: int,
    nv: int,
    ni: int,
)
    requires
        0 <= base_v <= u16::MAX,
        0 <= nv <= vertices.len(),
        0 <= ni <= indices.len(),
        base_v + nv <= dc.vertices@.len(),
        0 <= base_i,
        base_i + ni <= dc.indices@.len(),
        forall|k: int| base_v <= k < base_v + nv ==> #[trigger] dc.vertices@[k] == vertices[k - base_v],
        forall|k: int| base_i <= k < base_i + ni ==> #[trigger] dc.indices@[k] == indices[k - base_i] + (base_v as u16) as int,
    ensures
        forall|j: int|
            0 <= j < ni && indices[j] < nv ==> dc.vertices@[dc.indices@[base_i + j] as int] == vertices[#[trigger] indices[j] as int],
{
    assert((base_v as u16) as int == base_v);
    assert forall|j: int| 0 <= j < ni && indices[j] < nv implies dc.vertices@[dc.indices@[base_i + j] as int]
        == vertices[#[trigger] indices[j] as int] by {
        assert(dc.indices@[base_i + j] == indices[(base_i + j) - base_i] + (base_v as u16) as int);
        assert(dc.indices@[base_i + j] == indices[j] + base_v);
        assert(dc.vertices@[base_v + indices[j]] == vertices[(base_v + indices[j]) - base_v]);
    }
}

/// A clipped draw call's scissor rect is its clip rect with y counted from the bottom
/// of the render target: it keeps the clip's x, width and height, and its y plus the
/// clip's y and height make the target's height. It depends on the target alone: the
/// viewport, whatever it is, does not change it. An unclipped call's scissor is the
/// whole target.
pub proof fn law_scissor_flips_clip_against_target_height(t: DrawTarget, u: DrawTarget)
    requires
        clip_fits(t),
        0 <= t.size.1 <= i32::MAX,
    ensures
        t.clip matches Some(c) ==> {
            let r = scissor_of(t);
            &&& r.0 == c.0 && r.2 == c.2 && r.3 == c.3
            &&& r.1 + c.1 + c.3 == t.size.1
        },
        t.clip is None ==> scissor_of(t) == (0i32, 0i32, t.size.0 as i32, t.size.1 as i32),
        u.clip == t.clip && u.size == t.size ==> scissor_of(u) == scissor_of(t),
{
}

/// A draw call's viewport is the one its state sets, or else the whole render
/// target; the clip rect does not change it.
pub proof fn law_viewport_is_own_or_whole_target(t: DrawTarget, u: DrawTarget)
    ensures
        t.viewport matches Some(v) ==> viewport_of(t) == v,
        t.viewport is None ==> viewport_of(t) == (0i32, 0i32, t.size.0 as i32, t.size.1 as i32),
        u.viewport == t.viewport && u.size == t.size ==> viewport_of(u) == viewport_of(t),
{
}

} // verus!
