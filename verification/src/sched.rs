//! Scheduler glue: the per-tick pipeline and the state shared with the USB
//! context.
//!
//! The tick interrupt runs scan → debounce → layout → encode once per fixed
//! period and publishes the finished report into the outbox; the
//! higher-priority USB interrupt drains the outbox inside the same
//! priority-ceiling critical section. Because `tick` computes the whole
//! report before anything is published, the USB side only ever observes
//! fully-computed ticks. The bootloader handoff is the pipeline's one
//! terminal outcome: when `tick` reports it, the caller must transfer
//! control and never run the pipeline again.

use vstd::prelude::*;

use crate::config::KeyboardConfig;
use crate::debounce::Debouncer;
use crate::debounce::KeyEvent;
use crate::debounce::grid_view;
use crate::debounce::lemma_grid_events_bounds;
use crate::debounce::spec_grid_events;
use crate::debounce::spec_step_cell;
use crate::layout::LayoutEngine;
use crate::layout::LayoutModel;
use crate::layout::spec_event;
use crate::layout::spec_tick;
use crate::report::HidReport;
use crate::report::encode;
use crate::report::spec_encode;

verus! {

/// The layout state after a whole tick's event stream, fed in scan order.
pub open spec fn spec_feed_events(
    layers: Seq<Seq<Seq<crate::layout::Action>>>,
    m: LayoutModel,
    evs: Seq<KeyEvent>,
) -> LayoutModel
    decreases evs.len(),
{
    if evs.len() <= 0 {
        m
    } else {
        spec_feed_events(layers, spec_event(layers, m, evs[0]), evs.drop_first())
    }
}


/// What one tick of the pipeline hands back to the interrupt frame.
pub struct TickResult {
    /// The fully-computed report of this tick, ready for the outbox.
    pub report: HidReport,
    /// The update-mode action fired: hand control to the bootloader now;
    /// this tick is the last.
    pub enter_update: bool,
}

/// The whole per-tick pipeline: debouncer and layout engine over one shared
/// configuration.
pub struct Keyboard {
    pub debouncer: Debouncer,
    pub layout: LayoutEngine,
}

impl Keyboard {
    /// Both halves are well-formed and the layer tables cover exactly the
    /// scanned grid.
    pub open spec fn wf(self) -> bool {
        &&& self.debouncer.wf()
        &&& self.layout.wf()
        &&& self.layout.spec_rows() == self.debouncer.cfg.num_multiplexers
        &&& self.layout.spec_cols() == self.debouncer.cfg.max_channels
    }

    /// Build the pipeline from the configuration, the chatter window, the
    /// initial baseline of every cell and the layer stack.
    pub fn new(
        cfg: KeyboardConfig,
        window: u8,
        baseline: u16,
        layers: Vec<Vec<Vec<crate::layout::Action>>>,
    ) -> (k: Keyboard)
        requires
            cfg.wf(),
            window >= 1,
            layers@.len() >= 1,
            layers@[0]@.len() == cfg.num_multiplexers,
            layers@[0]@[0]@.len() == cfg.max_channels,
            forall|l: int|
                0 <= l < layers@.len() ==> (#[trigger] layers@[l])@.len() == layers@[0]@.len(),
            forall|l: int, r: int|
                0 <= l < layers@.len() && 0 <= r < layers@[l]@.len() ==> (
                #[trigger] layers@[l]@[r])@.len() == layers@[0]@[0]@.len(),
        ensures
            k.wf(),
            k.debouncer.cfg == cfg,
            k.debouncer.window == window,
            k.layout.layers == layers,
            k.layout.model() == (LayoutModel {
                pressed: Seq::<crate::layout::PressedKey>::empty(),
                taps: Seq::<u8>::empty(),
                pending_update: false,
            }),
    {
        let debouncer = Debouncer::new(cfg, window, baseline);
        let layout = LayoutEngine::new(layers);
        Keyboard { debouncer, layout }
    }

    /// Build the pipeline after checking the configuration and the layer
    /// stack at runtime: `Some` exactly when the configuration is usable,
    /// the window is at least one tick, and the tables cover the grid.
    pub fn try_new(
        cfg: KeyboardConfig,
        window: u8,
        baseline: u16,
        layers: Vec<Vec<Vec<crate::layout::Action>>>,
    ) -> (r: Option<Keyboard>)
        ensures
            r is Some <==> (cfg.wf() && window >= 1 && crate::layout::spec_layers_cover(
                layers,
                cfg.num_multiplexers,
                cfg.max_channels,
            )),
            match r {
                Some(k) => {
                    &&& k.wf()
                    &&& k.debouncer.cfg == cfg
                    &&& k.debouncer.window == window
                    &&& k.layout.layers == layers
                    &&& k.layout.model() == (LayoutModel {
                        pressed: Seq::<crate::layout::PressedKey>::empty(),
                        taps: Seq::<u8>::empty(),
                        pending_update: false,
                    })
                },
                None => true,
            },
    {
        if cfg.check_wf() && window >= 1 && crate::layout::layers_cover_grid(
            &layers,
            cfg.num_multiplexers,
            cfg.max_channels,
        ) {
            Some(Keyboard::new(cfg, window, baseline, layers))
        } else {
            None
        }
    }

    /// One tick: debounce the fresh sample grid, feed the events to the
    /// layout engine in scan order, advance its timers, and encode the
    /// active keycodes. The result is a fully-computed report — nothing
    /// partial ever leaves this function — plus the terminal update-mode
    /// signal.
    pub fn tick(&mut self, samples: &Vec<Vec<u16>>) -> (r: TickResult)
        requires
            old(self).wf(),
            samples@.len() == old(self).debouncer.cells@.len(),
            forall|i: int|
                0 <= i < samples@.len() ==> (#[trigger] samples@[i])@.len()
                    == old(self).debouncer.cells@[i]@.len(),
        ensures
            final(self).wf(),
            final(self).debouncer.cfg == old(self).debouncer.cfg,
            final(self).debouncer.window == old(self).debouncer.window,
            final(self).layout.layers == old(self).layout.layers,
            forall|i: int, j: int|
                0 <= i < final(self).debouncer.cells@.len() && 0 <= j
                    < final(self).debouncer.cells@[i]@.len() ==> (
                #[trigger] final(self).debouncer.cells@[i]@[j]) == spec_step_cell(
                    old(self).debouncer.cfg,
                    old(self).debouncer.window,
                    old(self).debouncer.cells@[i]@[j],
                    samples@[i]@[j],
                ).0,
            ({
                let evs = spec_grid_events(
                    old(self).debouncer.cfg,
                    old(self).debouncer.window,
                    grid_view(old(self).debouncer.cells),
                    grid_view(*samples),
                    0,
                );
                let m1 = spec_feed_events(
                    old(self).layout.layers_view(),
                    old(self).layout.model(),
                    evs,
                );
                &&& final(self).layout.model() == spec_tick(m1).0
                &&& r.enter_update == spec_tick(m1).1.update
                &&& r.report.modifiers == spec_encode(spec_tick(m1).1.keys).0
                &&& r.report.keys@ == spec_encode(spec_tick(m1).1.keys).1
                &&& r.report.wf()
            }),
    {
        let ghost lv = self.layout.layers_view();
        let ghost m0 = self.layout.model();
        let evs = self.debouncer.events(samples);
        let ghost evseq = evs@;
        proof {
            lemma_grid_events_bounds(
                old(self).debouncer.cfg,
                old(self).debouncer.window,
                grid_view(old(self).debouncer.cells),
                grid_view(*samples),
                0,
                old(self).debouncer.cfg.max_channels as int,
            );
            assert(evseq.skip(0) =~= evseq);
        }
        let ghost deb1 = self.debouncer;
        let n = evs.len();
        let mut i: usize = 0;
        while i < n
            invariant
                n == evseq.len(),
                i <= n,
                evs@ == evseq,
                self.debouncer == deb1,
                deb1.wf(),
                deb1.cfg == old(self).debouncer.cfg,
                deb1.window == old(self).debouncer.window,
                deb1.cells@.len() == old(self).debouncer.cells@.len(),
                forall|a: int|
                    0 <= a < deb1.cells@.len() ==> (#[trigger] deb1.cells@[a])@.len()
                        == old(self).debouncer.cells@[a]@.len(),
                forall|a: int, b: int|
                    0 <= a < deb1.cells@.len() && 0 <= b < deb1.cells@[a]@.len() ==> (
                    #[trigger] deb1.cells@[a]@[b]) == spec_step_cell(
                        old(self).debouncer.cfg,
                        old(self).debouncer.window,
                        old(self).debouncer.cells@[a]@[b],
                        samples@[a]@[b],
                    ).0,
                self.layout.wf(),
                self.layout.layers == old(self).layout.layers,
                self.layout.layers_view() == lv,
                self.layout.spec_rows() == old(self).debouncer.cfg.num_multiplexers,
                self.layout.spec_cols() == old(self).debouncer.cfg.max_channels,
                forall|t: int|
                    0 <= t < evseq.len() ==> (#[trigger] evseq[t]).row
                        < old(self).debouncer.cfg.num_multiplexers && evseq[t].col
                        < old(self).debouncer.cfg.max_channels,
                spec_feed_events(lv, self.layout.model(), evseq.skip(i as int))
                    == spec_feed_events(lv, m0, evseq),
            decreases n - i,
        {
            let ev = evs[i];
            proof {
                assert(evseq.skip(i as int)[0] == evseq[i as int]);
                assert(evseq.skip(i as int).drop_first() =~= evseq.skip(i + 1));
            }
            self.layout.event(ev);
            i = i + 1;
        }
        proof {
            assert(evseq.skip(n as int) =~= Seq::<KeyEvent>::empty());
        }
        let out = self.layout.tick();
        let report = encode(&out.keycodes);
        TickResult { report, enter_update: out.update }
    }
}

/// The report outbox shared between the tick and USB interrupt contexts.
/// The device frame wraps it in its priority-ceiling critical section; this
/// type carries the data discipline: the tick side publishes only
/// fully-computed reports, the USB side drains them one at a time.
pub struct Outbox {
    pub pending: Option<HidReport>,
}

impl Outbox {
    /// An empty outbox: nothing to transmit yet.
    pub fn new() -> (o: Outbox)
        ensures
            o.pending is None,
    {
        Outbox { pending: None }
    }

    /// Publish this tick's report, replacing any report the USB side has not
    /// drained yet: the outbox always holds the latest fully-computed tick.
    pub fn publish(&mut self, report: HidReport)
        ensures
            final(self).pending == Some(report),
    {
        self.pending = Some(report);
    }

    /// Drain the pending report, leaving the outbox empty; `None` when the
    /// tick side has published nothing since the last drain.
    pub fn take(&mut self) -> (r: Option<HidReport>)
        ensures
            final(self).pending is None,
            r == old(self).pending,
    {
        self.pending.take()
    }
}

/// The bounded busy-retry policy for mirroring report bytes on the debug
/// serial stream. The transport may report zero bytes written; retrying
/// forever from the tick context could starve the next tick, so the retry
/// count is capped and the mirror is best-effort.
pub struct RetryPolicy {
    pub max_attempts: u32,
}

impl RetryPolicy {
    /// Retry exactly while the transport accepted nothing and attempts
    /// remain.
    pub fn should_retry(&self, attempts_made: u32, wrote: usize) -> (r: bool)
        ensures
            r == (wrote == 0 && attempts_made < self.max_attempts),
    {
        wrote == 0 && attempts_made < self.max_attempts
    }
}

} // verus!
