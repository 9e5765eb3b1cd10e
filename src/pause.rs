use vstd::prelude::*;

verus! {

/// What the render loop logs after polling the pause signal.
#[derive(Clone, Copy, Debug, PartialEq, Eq, Structural)]
pub enum PauseEdge {
    /// Nothing changed.
    Steady,
    /// The signal came up: rendering stops.
    Pausing,
    /// The signal went away: rendering resumes.
    Resuming,
}

/// Suspends rendering while an outside signal (a foreground game) is up, and
/// reports each change of the signal once.
pub struct PauseGate {
    paused: bool,
}

/// Next state of the pause gate, and the edge it reports, from its state and the
/// signal just polled.
pub open spec fn gate_step(paused: bool, signal: bool) -> (bool, PauseEdge) {
    if signal {
        (true, if paused { PauseEdge::Steady } else { PauseEdge::Pausing })
    } else {
        (false, if paused { PauseEdge::Resuming } else { PauseEdge::Steady })
    }
}

/// State of the pause gate after polling `signals` in order.
pub open spec fn gate_state(paused: bool, signals: Seq<bool>) -> bool
    decreases signals.len(),
{
    if signals.len() == 0 {
        paused
    } else {
        gate_step(gate_state(paused, signals.drop_last()), signals.last()).0
    }
}

/// The edges reported while polling `signals` in order, one per poll.
pub open spec fn gate_edges(paused: bool, signals: Seq<bool>) -> Seq<PauseEdge>
    decreases signals.len(),
{
    if signals.len() == 0 {
        Seq::empty()
    } else {
        let before = signals.drop_last();
        gate_edges(paused, before).push(gate_step(gate_state(paused, before), signals.last()).1)
    }
}

impl PauseGate {
    pub closed spec fn is_paused_spec(&self) -> bool {
        self.paused
    }

    /// A gate that lets rendering run.
    pub fn new() -> (r: Self)
        ensures
            !r.is_paused_spec(),
    {
        PauseGate { paused: false }
    }

    pub fn is_paused(&self) -> (r: bool)
        ensures
            r == self.is_paused_spec(),
    {
        self.paused
    }

    /// Feeds the signal just polled; returns the edge to log.
    pub fn observe(&mut self, signal: bool) -> (edge: PauseEdge)
        ensures
            (final(self).is_paused_spec(), edge) == gate_step(old(self).is_paused_spec(), signal),
    {
        if signal {
            if self.paused {
                PauseEdge::Steady
            } else {
                self.paused = true;
                PauseEdge::Pausing
            }
        } else {
            if self.paused {
                self.paused = false;
                PauseEdge::Resuming
            } else {
                PauseEdge::Steady
            }
        }
    }
}

proof fn lemma_gate_state(signals: Seq<bool>)
    ensures
        signals.len() > 0 ==> gate_state(false, signals) == signals.last(),
        signals.len() == 0 ==> gate_state(false, signals) == false,
        gate_edges(false, signals).len() == signals.len(),
    decreases signals.len(),
{
    if signals.len() > 0 {
        lemma_gate_state(signals.drop_last());
    }
}

/// Starting from a running gate, the poll at position `k` reports a pause
/// exactly when the signal rose there and a resume exactly when it fell there,
/// and nothing otherwise: one log line per edge, however many polls see the
/// signal held constant.
pub proof fn lemma_one_log_per_edge(signals: Seq<bool>, k: int)
    requires
        0 <= k < signals.len(),
    ensures
        gate_edges(false, signals).len() == signals.len(),
        (gate_edges(false, signals)[k] == PauseEdge::Pausing) <==> (signals[k] && (k == 0
            || !signals[k - 1])),
        (gate_edges(false, signals)[k] == PauseEdge::Resuming) <==> (!signals[k] && k > 0
            && signals[k - 1]),
        (gate_edges(false, signals)[k] == PauseEdge::Steady) <==> (if k == 0 {
            !signals[k]
        } else {
            signals[k] == signals[k - 1]
        }),
    decreases signals.len(),
{
    lemma_gate_state(signals);
    let before = signals.drop_last();
    lemma_gate_state(before);
    if k < signals.len() - 1 {
        lemma_one_log_per_edge(before, k);
        assert(gate_edges(false, signals)[k] == gate_edges(false, before)[k]);
        assert(before[k] == signals[k]);
        if k > 0 {
            assert(before[k - 1] == signals[k - 1]);
        }
    } else {
        if k > 0 {
            assert(before.last() == signals[k - 1]);
        }
    }
}

/// Polling one signal after another: the state after the first `k` polls is
/// `gate_state` of them, and the edge the next poll reports (what
/// `PauseGate::observe`, and so `RenderRuntime::step`, returns there) is entry
/// `k` of `gate_edges`.
pub proof fn lemma_edge_of_poll(paused: bool, signals: Seq<bool>, k: int)
    requires
        0 <= k < signals.len(),
    ensures
        gate_state(paused, signals.subrange(0, k + 1)) == gate_step(
            gate_state(paused, signals.subrange(0, k)),
            signals[k],
        ).0,
        gate_edges(paused, signals)[k] == gate_step(gate_state(paused, signals.subrange(0, k)), signals[k]).1,
    decreases signals.len(),
{
    let p = signals.subrange(0, k + 1);
    assert(p.drop_last() =~= signals.subrange(0, k));
    assert(p.last() == signals[k]);
    lemma_edges_len(paused, signals);
    if k < signals.len() - 1 {
        let before = signals.drop_last();
        lemma_edge_of_poll(paused, before, k);
        assert(before.subrange(0, k) =~= signals.subrange(0, k));
        lemma_edges_len(paused, before);
    } else {
        assert(signals.drop_last() =~= signals.subrange(0, k));
        lemma_edges_len(paused, signals.drop_last());
    }
}

proof fn lemma_edges_len(paused: bool, signals: Seq<bool>)
    ensures
        gate_edges(paused, signals).len() == signals.len(),
    decreases signals.len(),
{
    if signals.len() > 0 {
        lemma_edges_len(paused, signals.drop_last());
    }
}

} // verus!
