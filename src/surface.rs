use vstd::prelude::*;

verus! {

/// What the render side tracks of one background-layer surface.
#[derive(Clone, Copy, Debug, PartialEq, Eq, Structural)]
pub struct SurfaceSlot {
    /// The compositor's handle of the monitor this surface covers.
    pub output_id: u32,
    /// The compositor has granted a geometry, and it was acknowledged.
    pub configured: bool,
    /// A new frame may be drawn.
    pub needs_redraw: bool,
    /// A repaint notification was requested and has not fired yet.
    pub repaint_pending: bool,
}

/// A compositor event addressed to the surface created at `index`.
#[derive(Clone, Copy, Debug, PartialEq, Eq, Structural)]
pub enum SurfaceEvent {
    Configure { index: usize, width: u32, height: u32 },
    Closed { index: usize },
    FrameDone { index: usize },
}

/// One change to the surface table: a compositor event, or the presentation
/// of a frame on the listed monitors.
pub enum SurfaceOp {
    Event(SurfaceEvent),
    Present(Vec<u32>),
}

pub open spec fn fresh_slot(output_id: u32) -> SurfaceSlot {
    SurfaceSlot { output_id, configured: false, needs_redraw: false, repaint_pending: false }
}

pub open spec fn is_ready(s: SurfaceSlot) -> bool {
    s.configured && s.needs_redraw
}

/// The monitors whose surface may be redrawn, in creation order.
pub open spec fn ready_ids(slots: Seq<SurfaceSlot>) -> Seq<u32>
    decreases slots.len(),
{
    if slots.len() == 0 {
        Seq::empty()
    } else {
        let rest = ready_ids(slots.drop_last());
        if is_ready(slots.last()) {
            rest.push(slots.last().output_id)
        } else {
            rest
        }
    }
}

pub open spec fn event_step(slots: Seq<SurfaceSlot>, e: SurfaceEvent) -> Seq<SurfaceSlot> {
    match e {
        SurfaceEvent::Configure { index, .. } => if index < slots.len() {
            slots.update(
                index as int,
                SurfaceSlot { configured: true, needs_redraw: true, ..slots[index as int] },
            )
        } else {
            slots
        },
        SurfaceEvent::Closed { index } => if index < slots.len() {
            slots.update(
                index as int,
                SurfaceSlot {
                    configured: false,
                    needs_redraw: false,
                    repaint_pending: false,
                    ..slots[index as int]
                },
            )
        } else {
            slots
        },
        SurfaceEvent::FrameDone { index } => if index < slots.len() {
            let s = slots[index as int];
            slots.update(
                index as int,
                SurfaceSlot {
                    repaint_pending: false,
                    needs_redraw: if s.configured { true } else { s.needs_redraw },
                    ..s
                },
            )
        } else {
            slots
        },
    }
}

/// A slot after a frame was presented on the monitors in `outputs`.
pub open spec fn presented_slot(s: SurfaceSlot, outputs: Seq<u32>) -> SurfaceSlot {
    if outputs.contains(s.output_id) {
        SurfaceSlot { needs_redraw: false, repaint_pending: true, ..s }
    } else {
        s
    }
}

pub open spec fn present_step(slots: Seq<SurfaceSlot>, outputs: Seq<u32>) -> Seq<SurfaceSlot> {
    Seq::new(slots.len(), |i: int| presented_slot(slots[i], outputs))
}

pub open spec fn op_step(slots: Seq<SurfaceSlot>, op: SurfaceOp) -> Seq<SurfaceSlot> {
    match op {
        SurfaceOp::Event(e) => event_step(slots, e),
        SurfaceOp::Present(outputs) => present_step(slots, outputs@),
    }
}

pub open spec fn run_ops(slots: Seq<SurfaceSlot>, ops: Seq<SurfaceOp>) -> Seq<SurfaceSlot>
    decreases ops.len(),
{
    if ops.len() == 0 {
        slots
    } else {
        op_step(run_ops(slots, ops.drop_last()), ops.last())
    }
}

pub open spec fn configures(op: SurfaceOp, index: int) -> bool {
    match op {
        SurfaceOp::Event(SurfaceEvent::Configure { index: i, .. }) => i == index,
        _ => false,
    }
}

pub open spec fn distinct_ids(slots: Seq<SurfaceSlot>) -> bool {
    forall|i: int, j: int|
        0 <= i < slots.len() && 0 <= j < slots.len() && i != j ==> slots[i].output_id
            != slots[j].output_id
}

/// One slot per background surface, in the order the surfaces were created.
pub struct SurfaceTable {
    slots: Vec<SurfaceSlot>,
}

impl View for SurfaceTable {
    type V = Seq<SurfaceSlot>;

    closed spec fn view(&self) -> Seq<SurfaceSlot> {
        self.slots@
    }
}

impl SurfaceTable {
    /// One unconfigured surface for each monitor, in the given order.
    pub fn for_outputs(output_ids: &Vec<u32>) -> (r: Self)
        ensures
            r@ == Seq::new(output_ids@.len(), |i: int| fresh_slot(output_ids@[i])),
    {
        let mut slots: Vec<SurfaceSlot> = Vec::new();
        let mut i: usize = 0;
        while i < output_ids.len()
            invariant
                i <= output_ids@.len(),
                slots@ == Seq::new(i as nat, |k: int| fresh_slot(output_ids@[k])),
            decreases output_ids@.len() - i,
        {
            slots.push(
                SurfaceSlot {
                    output_id: output_ids[i],
                    configured: false,
                    needs_redraw: false,
                    repaint_pending: false,
                },
            );
            i = i + 1;
            assert(slots@ =~= Seq::new(i as nat, |k: int| fresh_slot(output_ids@[k])));
        }
        SurfaceTable { slots }
    }

    pub fn len(&self) -> (r: usize)
        ensures
            r == self@.len(),
    {
        self.slots.len()
    }

    pub fn slot(&self, index: usize) -> (r: SurfaceSlot)
        requires
            index < self@.len(),
        ensures
            r == self@[index as int],
    {
        self.slots[index]
    }

    /// Applies one compositor event. Returns whether the surface must commit
    /// right away: a configure of a known surface with a non-empty geometry.
    pub fn handle_event(&mut self, event: SurfaceEvent) -> (commit: bool)
        ensures
            final(self)@ == event_step(old(self)@, event),
            commit == match event {
                SurfaceEvent::Configure { index, width, height } => index < old(self)@.len()
                    && width > 0 && height > 0,
                _ => false,
            },
    {
        match event {
            SurfaceEvent::Configure { index, width, height } => {
                if index < self.slots.len() {
                    let s = self.slots[index];
                    self.slots.set(index, SurfaceSlot { configured: true, needs_redraw: true, ..s });
                    width > 0 && height > 0
                } else {
                    false
                }
            },
            SurfaceEvent::Closed { index } => {
                if index < self.slots.len() {
                    let s = self.slots[index];
                    self.slots.set(
                        index,
                        SurfaceSlot {
                            configured: false,
                            needs_redraw: false,
                            repaint_pending: false,
                            ..s
                        },
                    );
                }
                false
            },
            SurfaceEvent::FrameDone { index } => {
                if index < self.slots.len() {
                    let s = self.slots[index];
                    let redraw = if s.configured { true } else { s.needs_redraw };
                    self.slots.set(
                        index,
                        SurfaceSlot { repaint_pending: false, needs_redraw: redraw, ..s },
                    );
                }
                false
            },
        }
    }

    /// The monitors whose surface is configured and due for a new frame.
    pub fn ready_output_ids(&self) -> (r: Vec<u32>)
        ensures
            r@ == ready_ids(self@),
    {
        let mut r: Vec<u32> = Vec::new();
        let mut i: usize = 0;
        while i < self.slots.len()
            invariant
                i <= self.slots@.len(),
                r@ == ready_ids(self.slots@.subrange(0, i as int)),
            decreases self.slots@.len() - i,
        {
            let s = self.slots[i];
            assert(self.slots@.subrange(0, i + 1).drop_last() =~= self.slots@.subrange(0, i as int));
            if s.configured && s.needs_redraw {
                r.push(s.output_id);
            }
            i = i + 1;
        }
        assert(self.slots@.subrange(0, i as int) =~= self.slots@);
        r
    }

    /// Records that a frame was presented on `outputs`. Each of their surfaces
    /// stops being due for a redraw; those without a repaint request in flight
    /// get one, and their indexes are returned so that the caller requests the
    /// notification and commits.
    pub fn mark_presented(&mut self, outputs: &Vec<u32>) -> (requested: Vec<usize>)
        ensures
            final(self)@ == present_step(old(self)@, outputs@),
            forall|k: int|
                0 <= k < requested@.len() ==> requested@[k] < old(self)@.len() && outputs@.contains(
                    old(self)@[requested@[k] as int].output_id,
                ) && !old(self)@[requested@[k] as int].repaint_pending,
            forall|i: int|
                0 <= i < old(self)@.len() && outputs@.contains(old(self)@[i].output_id)
                    && !old(self)@[i].repaint_pending ==> requested@.contains(i as usize),
    {
        let ghost before = self.slots@;
        let mut requested: Vec<usize> = Vec::new();
        let mut i: usize = 0;
        while i < self.slots.len()
            invariant
                i <= self.slots@.len(),
                self.slots@.len() == before.len(),
                forall|k: int| 0 <= k < i ==> self.slots@[k] == presented_slot(before[k], outputs@),
                forall|k: int| i <= k < before.len() ==> self.slots@[k] == before[k],
                forall|k: int|
                    0 <= k < requested@.len() ==> requested@[k] < i && outputs@.contains(
                        before[requested@[k] as int].output_id,
                    ) && !before[requested@[k] as int].repaint_pending,
                forall|k: int|
                    0 <= k < i && outputs@.contains(before[k].output_id)
                        && !before[k].repaint_pending ==> requested@.contains(k as usize),
            decreases before.len() - i,
        {
            let s = self.slots[i];
            let mut hit = false;
            let mut j: usize = 0;
            while j < outputs.len()
                invariant
                    j <= outputs@.len(),
                    hit == outputs@.subrange(0, j as int).contains(s.output_id),
                decreases outputs@.len() - j,
            {
                if outputs[j] == s.output_id {
                    hit = true;
                }
                proof {
                    let sub = outputs@.subrange(0, j + 1);
                    assert(sub[j as int] == outputs@[j as int]);
                    if outputs@.subrange(0, j as int).contains(s.output_id) {
                        let w = choose|w: int|
                            0 <= w < j && outputs@.subrange(0, j as int)[w] == s.output_id;
                        assert(sub[w] == s.output_id);
                    }
                    if sub.contains(s.output_id) {
                        let w = choose|w: int| 0 <= w < j + 1 && sub[w] == s.output_id;
                        if w < j {
                            assert(outputs@.subrange(0, j as int)[w] == s.output_id);
                        }
                    }
                }
                j = j + 1;
            }
            assert(outputs@.subrange(0, outputs@.len() as int) =~= outputs@);
            let ghost req_before = requested@;
            assert(s == before[i as int]);
            if hit {
                let pending = s.repaint_pending;
                if !pending {
                    requested.push(i);
                }
                self.slots.set(i, SurfaceSlot { needs_redraw: false, repaint_pending: true, ..s });
            }
            proof {
                assert forall|k: int|
                    0 <= k < i + 1 && outputs@.contains(before[k].output_id)
                        && !before[k].repaint_pending implies requested@.contains(k as usize) by {
                    if k == i {
                        assert(requested@.last() == i);
                    } else {
                        assert(req_before.contains(k as usize));
                        let w = choose|w: int| 0 <= w < req_before.len() && req_before[w] == k as usize;
                        assert(requested@[w] == k as usize);
                    }
                }
            }
            i = i + 1;
        }
        assert(self.slots@ =~= present_step(before, outputs@));
        requested
    }
}

/// A surface is listed as ready only while it is configured.
pub proof fn lemma_ready_means_configured(slots: Seq<SurfaceSlot>, id: u32)
    ensures
        ready_ids(slots).contains(id) ==> exists|i: int|
            0 <= i < slots.len() && slots[i].output_id == id && is_ready(slots[i]),
    decreases slots.len(),
{
    if slots.len() > 0 {
        let rest = slots.drop_last();
        lemma_ready_means_configured(rest, id);
        if ready_ids(slots).contains(id) {
            if ready_ids(rest).contains(id) {
                let i = choose|i: int|
                    0 <= i < rest.len() && rest[i].output_id == id && is_ready(rest[i]);
                assert(slots[i] == rest[i]);
            } else {
                let k = choose|k: int| 0 <= k < ready_ids(slots).len() && ready_ids(slots)[k] == id;
                assert(ready_ids(slots)[k] == id);
                assert(is_ready(slots.last()));
                if k < ready_ids(rest).len() {
                    assert(ready_ids(rest)[k] == id);
                }
                assert(slots[slots.len() - 1] == slots.last());
            }
        }
    }
}

/// A surface that has never received a configure event is never selected for
/// redraw: starting from freshly created surfaces, whatever events arrive and
/// whatever is presented, as long as none of the events configures the surface
/// at `index`, its monitor is not among the ready ones.
pub proof fn lemma_unconfigured_never_ready(output_ids: Seq<u32>, ops: Seq<SurfaceOp>, index: int)
    requires
        0 <= index < output_ids.len(),
        forall|a: int, b: int|
            0 <= a < output_ids.len() && 0 <= b < output_ids.len() && a != b ==> output_ids[a]
                != output_ids[b],
        forall|k: int| 0 <= k < ops.len() ==> !configures(#[trigger] ops[k], index),
    ensures
        !ready_ids(run_ops(Seq::new(output_ids.len(), |i: int| fresh_slot(output_ids[i])), ops)).contains(
            output_ids[index],
        ),
{
    let start = Seq::new(output_ids.len(), |i: int| fresh_slot(output_ids[i]));
    lemma_run_keeps_unconfigured(start, ops, index);
    let end = run_ops(start, ops);
    lemma_ready_means_configured(end, output_ids[index]);
    if ready_ids(end).contains(output_ids[index]) {
        let i = choose|i: int|
            0 <= i < end.len() && end[i].output_id == output_ids[index] && is_ready(end[i]);
        assert(end[i].output_id == start[i].output_id);
        assert(start[i].output_id == output_ids[i]);
    }
}

proof fn lemma_run_keeps_unconfigured(start: Seq<SurfaceSlot>, ops: Seq<SurfaceOp>, index: int)
    requires
        0 <= index < start.len(),
        !start[index].configured,
        forall|k: int| 0 <= k < ops.len() ==> !configures(#[trigger] ops[k], index),
    ensures
        run_ops(start, ops).len() == start.len(),
        !run_ops(start, ops)[index].configured,
        forall|i: int| 0 <= i < start.len() ==> run_ops(start, ops)[i].output_id == start[i].output_id,
    decreases ops.len(),
{
    if ops.len() > 0 {
        let prefix = ops.drop_last();
        assert forall|k: int| 0 <= k < prefix.len() implies !configures(#[trigger] prefix[k], index) by {
            assert(prefix[k] == ops[k]);
        }
        lemma_run_keeps_unconfigured(start, prefix, index);
        assert(!configures(ops[ops.len() - 1], index));
    }
}

} // verus!
