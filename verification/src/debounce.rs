//! Per-key hysteresis debouncer.
//!
//! Every key cell runs a four-state machine (idle, actuating, actuated,
//! releasing). A candidate state change must hold for a whole chatter window
//! of consecutive ticks before it is confirmed and an event is emitted, so a
//! transient spike shorter than the window produces nothing. Deviations under
//! `ignore_below` never start an actuation. A cell that has sat idle for
//! `recalibration_rate` ticks has its baseline nudged toward the latest
//! reading, compensating for sensor drift; a cell that is anywhere else in
//! the state machine keeps its baseline untouched.

use vstd::prelude::*;

use crate::config::KeyboardConfig;
use crate::config::deviation;
use crate::config::spec_deviation;

verus! {

/// Logical state of one key cell.
#[derive(Clone, Copy, PartialEq, Eq, Structural, Debug)]
pub enum CellState {
    /// At rest; the only state in which the baseline may recalibrate.
    Idle,
    /// The raw value crossed the actuation threshold; counting agreeing ticks.
    Actuating,
    /// Confirmed pressed.
    Actuated,
    /// The raw value fell under the release threshold; counting agreeing ticks.
    Releasing,
}

/// One physical key position: calibrated baseline, debounce state, the
/// consecutive-agreement counter of the chatter filter, and how long the cell
/// has sat idle since its last recalibration.
#[derive(Clone, Copy, PartialEq, Eq, Structural, Debug)]
pub struct KeyCell {
    pub state: CellState,
    pub count: u8,
    pub baseline: u16,
    pub idle_ticks: u32,
}

/// A raw sample is a candidate press when its press-direction deviation
/// reaches the actuation threshold and is not dismissed as noise.
pub open spec fn spec_press_cond(cfg: KeyboardConfig, baseline: u16, raw: u16) -> bool {
    let dev = spec_deviation(cfg.north_down, baseline, raw);
    dev >= cfg.actuation_threshold && dev >= cfg.ignore_below
}

/// A raw sample is a candidate release when its deviation has fallen strictly
/// under the release threshold. The comparison is strict so that with equal
/// thresholds a reading sitting exactly on them keeps the key pressed rather
/// than oscillating.
pub open spec fn spec_release_cond(cfg: KeyboardConfig, baseline: u16, raw: u16) -> bool {
    spec_deviation(cfg.north_down, baseline, raw) < cfg.release_threshold
}

/// Baseline after one recalibration step: nudged halfway toward the most
/// recent raw reading.
pub open spec fn spec_recalibrated(baseline: u16, raw: u16) -> u16 {
    ((baseline + raw) / 2) as u16
}

/// One tick of one key cell: the successor cell and the event it emits, if
/// any (`Some(true)` press, `Some(false)` release). This is the whole
/// behaviour of the debouncer on a single cell; the executable step is proved
/// equal to it.
pub open spec fn spec_step_cell(cfg: KeyboardConfig, window: u8, cell: KeyCell, raw: u16) -> (
    KeyCell,
    Option<bool>,
) {
    match cell.state {
        CellState::Idle => {
            if spec_press_cond(cfg, cell.baseline, raw) {
                if window <= 1 {
                    (
                        KeyCell {
                            state: CellState::Actuated,
                            count: 0,
                            baseline: cell.baseline,
                            idle_ticks: 0,
                        },
                        Some(true),
                    )
                } else {
                    (
                        KeyCell {
                            state: CellState::Actuating,
                            count: 1,
                            baseline: cell.baseline,
                            idle_ticks: 0,
                        },
                        None,
                    )
                }
            } else {
                if cell.idle_ticks + 1 >= cfg.recalibration_rate {
                    (
                        KeyCell {
                            state: CellState::Idle,
                            count: 0,
                            baseline: spec_recalibrated(cell.baseline, raw),
                            idle_ticks: 0,
                        },
                        None,
                    )
                } else {
                    (
                        KeyCell {
                            state: CellState::Idle,
                            count: 0,
                            baseline: cell.baseline,
                            idle_ticks: (cell.idle_ticks + 1) as u32,
                        },
                        None,
                    )
                }
            }
        },
        CellState::Actuating => {
            if spec_press_cond(cfg, cell.baseline, raw) {
                if cell.count + 1 >= window {
                    (
                        KeyCell {
                            state: CellState::Actuated,
                            count: 0,
                            baseline: cell.baseline,
                            idle_ticks: 0,
                        },
                        Some(true),
                    )
                } else {
                    (
                        KeyCell {
                            state: CellState::Actuating,
                            count: (cell.count + 1) as u8,
                            baseline: cell.baseline,
                            idle_ticks: 0,
                        },
                        None,
                    )
                }
            } else {
                (
                    KeyCell {
                        state: CellState::Idle,
                        count: 0,
                        baseline: cell.baseline,
                        idle_ticks: 0,
                    },
                    None,
                )
            }
        },
        CellState::Actuated => {
            if spec_release_cond(cfg, cell.baseline, raw) {
                if window <= 1 {
                    (
                        KeyCell {
                            state: CellState::Idle,
                            count: 0,
                            baseline: cell.baseline,
                            idle_ticks: 0,
                        },
                        Some(false),
                    )
                } else {
                    (
                        KeyCell {
                            state: CellState::Releasing,
                            count: 1,
                            baseline: cell.baseline,
                            idle_ticks: 0,
                        },
                        None,
                    )
                }
            } else {
                (
                    KeyCell {
                        state: CellState::Actuated,
                        count: 0,
                        baseline: cell.baseline,
                        idle_ticks: 0,
                    },
                    None,
                )
            }
        },
        CellState::Releasing => {
            if spec_release_cond(cfg, cell.baseline, raw) {
                if cell.count + 1 >= window {
                    (
                        KeyCell {
                            state: CellState::Idle,
                            count: 0,
                            baseline: cell.baseline,
                            idle_ticks: 0,
                        },
                        Some(false),
                    )
                } else {
                    (
                        KeyCell {
                            state: CellState::Releasing,
                            count: (cell.count + 1) as u8,
                            baseline: cell.baseline,
                            idle_ticks: 0,
                        },
                        None,
                    )
                }
            } else {
                (
                    KeyCell {
                        state: CellState::Actuated,
                        count: 0,
                        baseline: cell.baseline,
                        idle_ticks: 0,
                    },
                    None,
                )
            }
        },
    }
}

impl KeyCell {
    /// Counters stay inside their windows, so the step never overflows them.
    pub open spec fn wf(self, cfg: KeyboardConfig, window: u8) -> bool {
        &&& self.count < window
        &&& self.idle_ticks < cfg.recalibration_rate
    }

    /// A fresh cell: at rest on the given baseline.
    pub fn new(baseline: u16) -> (c: KeyCell)
        ensures
            c == (KeyCell { state: CellState::Idle, count: 0, baseline, idle_ticks: 0 }),
    {
        KeyCell { state: CellState::Idle, count: 0, baseline, idle_ticks: 0 }
    }

    /// Advance this cell by one tick on the raw sample `raw`; returns
    /// `Some(true)` on a confirmed press, `Some(false)` on a confirmed
    /// release, `None` otherwise. Behaves exactly as `spec_step_cell`.
    pub fn step(&mut self, cfg: KeyboardConfig, window: u8, raw: u16) -> (ev: Option<bool>)
        requires
            cfg.wf(),
            window >= 1,
            old(self).wf(cfg, window),
        ensures
            *final(self) == spec_step_cell(cfg, window, *old(self), raw).0,
            ev == spec_step_cell(cfg, window, *old(self), raw).1,
            final(self).wf(cfg, window),
    {
        let dev = deviation(cfg.north_down, self.baseline, raw);
        let press = dev >= cfg.actuation_threshold && dev >= cfg.ignore_below;
        let release = dev < cfg.release_threshold;
        match self.state {
            CellState::Idle => {
                if press {
                    if window <= 1 {
                        self.state = CellState::Actuated;
                        self.count = 0;
                        self.idle_ticks = 0;
                        Some(true)
                    } else {
                        self.state = CellState::Actuating;
                        self.count = 1;
                        self.idle_ticks = 0;
                        None
                    }
                } else {
                    self.count = 0;
                    if self.idle_ticks >= cfg.recalibration_rate - 1 {
                        self.baseline = ((self.baseline as u32 + raw as u32) / 2) as u16;
                        self.idle_ticks = 0;
                    } else {
                        self.idle_ticks = self.idle_ticks + 1;
                    }
                    None
                }
            },
            CellState::Actuating => {
                self.idle_ticks = 0;
                if press {
                    if self.count >= window - 1 {
                        self.state = CellState::Actuated;
                        self.count = 0;
                        Some(true)
                    } else {
                        self.count = self.count + 1;
                        None
                    }
                } else {
                    self.state = CellState::Idle;
                    self.count = 0;
                    None
                }
            },
            CellState::Actuated => {
                self.idle_ticks = 0;
                if release {
                    if window <= 1 {
                        self.state = CellState::Idle;
                        self.count = 0;
                        Some(false)
                    } else {
                        self.state = CellState::Releasing;
                        self.count = 1;
                        None
                    }
                } else {
                    self.count = 0;
                    None
                }
            },
            CellState::Releasing => {
                self.idle_ticks = 0;
                if release {
                    if self.count >= window - 1 {
                        self.state = CellState::Idle;
                        self.count = 0;
                        Some(false)
                    } else {
                        self.count = self.count + 1;
                        None
                    }
                } else {
                    self.state = CellState::Actuated;
                    self.count = 0;
                    None
                }
            },
        }
    }
}

/// A cell run over a whole sample sequence: the final cell and the event
/// (or `None`) each tick emitted, in order.
pub open spec fn spec_run_cell(
    cfg: KeyboardConfig,
    window: u8,
    cell: KeyCell,
    raws: Seq<u16>,
) -> (KeyCell, Seq<Option<bool>>)
    decreases raws.len(),
{
    if raws.len() <= 0 {
        (cell, Seq::empty())
    } else {
        let first = spec_step_cell(cfg, window, cell, raws[0]);
        let rest = spec_run_cell(cfg, window, first.0, raws.drop_first());
        (rest.0, seq![first.1] + rest.1)
    }
}

/// Shifting a run one step: the state reached after `i + 1` samples is the
/// state the stepped cell reaches after the first `i` samples of the tail.
proof fn lemma_run_take_shift(
    cfg: KeyboardConfig,
    window: u8,
    cell: KeyCell,
    raws: Seq<u16>,
    i: int,
)
    requires
        0 <= i < raws.len(),
    ensures
        spec_run_cell(cfg, window, cell, raws.take(i + 1)).0 == spec_run_cell(
            cfg,
            window,
            spec_step_cell(cfg, window, cell, raws[0]).0,
            raws.drop_first().take(i),
        ).0,
{
    assert(raws.take(i + 1)[0] == raws[0]);
    assert(raws.take(i + 1).drop_first() =~= raws.drop_first().take(i));
}

/// While a cell sees no candidate press it stays idle and emits nothing;
/// only its baseline and idle counter may move (recalibration). The
/// no-press hypothesis is read against the baseline the cell holds at each
/// tick, since recalibration may shift it along the way.
pub proof fn lemma_idle_stays(cfg: KeyboardConfig, window: u8, cell: KeyCell, raws: Seq<u16>)
    requires
        cfg.wf(),
        window >= 1,
        cell.state == CellState::Idle,
        forall|i: int|
            0 <= i < raws.len() ==> !spec_press_cond(
                cfg,
                spec_run_cell(cfg, window, cell, #[trigger] raws.take(i)).0.baseline,
                raws[i],
            ),
    ensures
        spec_run_cell(cfg, window, cell, raws).0.state == CellState::Idle,
        spec_run_cell(cfg, window, cell, raws).1.len() == raws.len(),
        forall|i: int|
            0 <= i < raws.len() ==> #[trigger] spec_run_cell(cfg, window, cell, raws).1[i]
                is None,
    decreases raws.len(),
{
    if raws.len() > 0 {
        assert(raws.take(0) =~= Seq::<u16>::empty());
        assert(!spec_press_cond(cfg, cell.baseline, raws[0]));
        let first = spec_step_cell(cfg, window, cell, raws[0]);
        let tail = raws.drop_first();
        assert forall|i: int|
            0 <= i < tail.len() implies !spec_press_cond(
            cfg,
            spec_run_cell(cfg, window, first.0, #[trigger] tail.take(i)).0.baseline,
            tail[i],
        ) by {
            lemma_run_take_shift(cfg, window, cell, raws, i);
            assert(tail[i] == raws[i + 1]);
            assert(!spec_press_cond(
                cfg,
                spec_run_cell(cfg, window, cell, raws.take(i + 1)).0.baseline,
                raws[i + 1],
            ));
        }
        lemma_idle_stays(cfg, window, first.0, tail);
        let r = spec_run_cell(cfg, window, cell, raws);
        let rt = spec_run_cell(cfg, window, first.0, tail);
        assert forall|i: int| 0 <= i < raws.len() implies #[trigger] r.1[i] is None by {
            if i > 0 {
                assert(r.1[i] == rt.1[i - 1]);
            }
        }
    }
}

/// While a confirmed press keeps its deviation at or above the release
/// threshold the cell stays actuated, emits nothing, and its baseline never
/// moves. With equal actuation and release thresholds this is what makes a
/// reading sitting exactly on them hold the key down instead of oscillating.
pub proof fn lemma_actuated_stays(cfg: KeyboardConfig, window: u8, cell: KeyCell, raws: Seq<u16>)
    requires
        cfg.wf(),
        window >= 1,
        cell.state == CellState::Actuated,
        forall|i: int|
            0 <= i < raws.len() ==> spec_deviation(cfg.north_down, cell.baseline, #[trigger] raws[i])
                >= cfg.release_threshold,
    ensures
        spec_run_cell(cfg, window, cell, raws).0.state == CellState::Actuated,
        spec_run_cell(cfg, window, cell, raws).0.baseline == cell.baseline,
        spec_run_cell(cfg, window, cell, raws).1.len() == raws.len(),
        forall|i: int|
            0 <= i < raws.len() ==> #[trigger] spec_run_cell(cfg, window, cell, raws).1[i]
                is None,
    decreases raws.len(),
{
    if raws.len() > 0 {
        let first = spec_step_cell(cfg, window, cell, raws[0]);
        let tail = raws.drop_first();
        assert(first.0.state == CellState::Actuated && first.0.baseline == cell.baseline);
        lemma_actuated_stays(cfg, window, first.0, tail);
        let r = spec_run_cell(cfg, window, cell, raws);
        let rt = spec_run_cell(cfg, window, first.0, tail);
        assert forall|i: int| 0 <= i < raws.len() implies #[trigger] r.1[i] is None by {
            if i > 0 {
                assert(r.1[i] == rt.1[i - 1]);
            }
        }
    }
}

/// Counting ticks toward a press: from `Actuating` with `count` agreeing
/// ticks already seen, a press condition held long enough confirms exactly
/// one press, at the tick that completes the window, and never another event.
proof fn lemma_actuating_counts(cfg: KeyboardConfig, window: u8, cell: KeyCell, raws: Seq<u16>)
    requires
        cfg.wf(),
        window >= 1,
        cell.state == CellState::Actuating,
        1 <= cell.count < window,
        raws.len() >= window - cell.count,
        forall|i: int|
            0 <= i < raws.len() ==> spec_press_cond(cfg, cell.baseline, #[trigger] raws[i]),
    ensures
        spec_run_cell(cfg, window, cell, raws).0.state == CellState::Actuated,
        spec_run_cell(cfg, window, cell, raws).0.baseline == cell.baseline,
        spec_run_cell(cfg, window, cell, raws).1.len() == raws.len(),
        forall|i: int|
            0 <= i < raws.len() ==> #[trigger] spec_run_cell(cfg, window, cell, raws).1[i] == (
            if i == window - cell.count - 1 {
                Some(true)
            } else {
                None
            }),
    decreases raws.len(),
{
    let first = spec_step_cell(cfg, window, cell, raws[0]);
    let tail = raws.drop_first();
    let r = spec_run_cell(cfg, window, cell, raws);
    if cell.count + 1 >= window {
        assert(first.1 == Some(true) && first.0.state == CellState::Actuated);
        assert forall|i: int|
            0 <= i < tail.len() implies spec_deviation(
            cfg.north_down,
            first.0.baseline,
            #[trigger] tail[i],
        ) >= cfg.release_threshold by {
            assert(spec_press_cond(cfg, cell.baseline, raws[i + 1]));
        }
        lemma_actuated_stays(cfg, window, first.0, tail);
        let rt = spec_run_cell(cfg, window, first.0, tail);
        assert forall|i: int|
            0 <= i < raws.len() implies #[trigger] r.1[i] == (if i == window - cell.count - 1 {
            Some(true)
        } else {
            None
        }) by {
            if i > 0 {
                assert(r.1[i] == rt.1[i - 1]);
            }
        }
    } else {
        assert(first.1 is None && first.0.state == CellState::Actuating && first.0.count
            == cell.count + 1);
        assert forall|i: int|
            0 <= i < tail.len() implies spec_press_cond(cfg, first.0.baseline, #[trigger] tail[i]) by {
            assert(spec_press_cond(cfg, cell.baseline, raws[i + 1]));
        }
        lemma_actuating_counts(cfg, window, first.0, tail);
        let rt = spec_run_cell(cfg, window, first.0, tail);
        assert forall|i: int|
            0 <= i < raws.len() implies #[trigger] r.1[i] == (if i == window - cell.count - 1 {
            Some(true)
        } else {
            None
        }) by {
            if i > 0 {
                assert(r.1[i] == rt.1[i - 1]);
            }
        }
    }
}

/// Counting ticks toward a release: the mirror of `lemma_actuating_counts`.
/// The release hypothesis is read against the evolving baseline, though while
/// the cell is counting its baseline in fact stays put; once the release is
/// confirmed the deviation sits under the release threshold, hence under the
/// actuation threshold, so the idle cell sees no new press.
proof fn lemma_releasing_counts(cfg: KeyboardConfig, window: u8, cell: KeyCell, raws: Seq<u16>)
    requires
        cfg.wf(),
        window >= 1,
        cell.state == CellState::Releasing,
        1 <= cell.count < window,
        raws.len() >= window - cell.count,
        forall|i: int|
            0 <= i < raws.len() ==> spec_deviation(
                cfg.north_down,
                spec_run_cell(cfg, window, cell, #[trigger] raws.take(i)).0.baseline,
                raws[i],
            ) < cfg.release_threshold,
    ensures
        spec_run_cell(cfg, window, cell, raws).0.state == CellState::Idle,
        spec_run_cell(cfg, window, cell, raws).1.len() == raws.len(),
        forall|i: int|
            0 <= i < raws.len() ==> #[trigger] spec_run_cell(cfg, window, cell, raws).1[i] == (
            if i == window - cell.count - 1 {
                Some(false)
            } else {
                None
            }),
    decreases raws.len(),
{
    assert(raws.take(0) =~= Seq::<u16>::empty());
    assert(spec_deviation(cfg.north_down, cell.baseline, raws[0]) < cfg.release_threshold);
    let first = spec_step_cell(cfg, window, cell, raws[0]);
    let tail = raws.drop_first();
    let r = spec_run_cell(cfg, window, cell, raws);
    if cell.count + 1 >= window {
        assert(first.1 == Some(false) && first.0.state == CellState::Idle);
        assert forall|i: int|
            0 <= i < tail.len() implies !spec_press_cond(
            cfg,
            spec_run_cell(cfg, window, first.0, #[trigger] tail.take(i)).0.baseline,
            tail[i],
        ) by {
            lemma_run_take_shift(cfg, window, cell, raws, i);
            assert(tail[i] == raws[i + 1]);
            assert(spec_deviation(
                cfg.north_down,
                spec_run_cell(cfg, window, cell, raws.take(i + 1)).0.baseline,
                raws[i + 1],
            ) < cfg.release_threshold);
        }
        lemma_idle_stays(cfg, window, first.0, tail);
        let rt = spec_run_cell(cfg, window, first.0, tail);
        assert forall|i: int|
            0 <= i < raws.len() implies #[trigger] r.1[i] == (if i == window - cell.count - 1 {
            Some(false)
        } else {
            None
        }) by {
            if i > 0 {
                assert(r.1[i] == rt.1[i - 1]);
            }
        }
    } else {
        assert(first.1 is None && first.0.state == CellState::Releasing && first.0.count
            == cell.count + 1 && first.0.baseline == cell.baseline);
        assert forall|i: int|
            0 <= i < tail.len() implies spec_deviation(
            cfg.north_down,
            spec_run_cell(cfg, window, first.0, #[trigger] tail.take(i)).0.baseline,
            tail[i],
        ) < cfg.release_threshold by {
            lemma_run_take_shift(cfg, window, cell, raws, i);
            assert(tail[i] == raws[i + 1]);
            assert(spec_deviation(
                cfg.north_down,
                spec_run_cell(cfg, window, cell, raws.take(i + 1)).0.baseline,
                raws[i + 1],
            ) < cfg.release_threshold);
        }
        lemma_releasing_counts(cfg, window, first.0, tail);
        let rt = spec_run_cell(cfg, window, first.0, tail);
        assert forall|i: int|
            0 <= i < raws.len() implies #[trigger] r.1[i] == (if i == window - cell.count - 1 {
            Some(false)
        } else {
            None
        }) by {
            if i > 0 {
                assert(r.1[i] == rt.1[i - 1]);
            }
        }
    }
}

/// Raw sequences that never deviate from the cell's (possibly recalibrating)
/// baseline by `ignore_below` or more are pure noise: an idle cell emits no
/// event on them, ever.
pub proof fn lemma_noise_emits_nothing(
    cfg: KeyboardConfig,
    window: u8,
    cell: KeyCell,
    raws: Seq<u16>,
)
    requires
        cfg.wf(),
        window >= 1,
        cell.state == CellState::Idle,
        forall|i: int|
            0 <= i < raws.len() ==> spec_deviation(
                cfg.north_down,
                spec_run_cell(cfg, window, cell, #[trigger] raws.take(i)).0.baseline,
                raws[i],
            ) < cfg.ignore_below,
    ensures
        spec_run_cell(cfg, window, cell, raws).0.state == CellState::Idle,
        spec_run_cell(cfg, window, cell, raws).1.len() == raws.len(),
        forall|i: int|
            0 <= i < raws.len() ==> #[trigger] spec_run_cell(cfg, window, cell, raws).1[i]
                is None,
{
    assert forall|i: int|
        0 <= i < raws.len() implies !spec_press_cond(
        cfg,
        spec_run_cell(cfg, window, cell, #[trigger] raws.take(i)).0.baseline,
        raws[i],
    ) by {
        assert(spec_deviation(
            cfg.north_down,
            spec_run_cell(cfg, window, cell, raws.take(i)).0.baseline,
            raws[i],
        ) < cfg.ignore_below);
    }
    lemma_idle_stays(cfg, window, cell, raws);
}

/// A monotonic (or any) ramp that holds the press condition from an idle
/// cell for at least the chatter window confirms exactly one press, at the
/// tick that completes the window, and no other event however long it is
/// held; the baseline never moves while the key is away from rest.
pub proof fn lemma_ramp_presses_once(
    cfg: KeyboardConfig,
    window: u8,
    cell: KeyCell,
    raws: Seq<u16>,
)
    requires
        cfg.wf(),
        window >= 1,
        cell.state == CellState::Idle,
        raws.len() >= window,
        forall|i: int|
            0 <= i < raws.len() ==> spec_press_cond(cfg, cell.baseline, #[trigger] raws[i]),
    ensures
        spec_run_cell(cfg, window, cell, raws).0.state == CellState::Actuated,
        spec_run_cell(cfg, window, cell, raws).0.baseline == cell.baseline,
        spec_run_cell(cfg, window, cell, raws).1.len() == raws.len(),
        forall|i: int|
            0 <= i < raws.len() ==> #[trigger] spec_run_cell(cfg, window, cell, raws).1[i] == (
            if i == window - 1 {
                Some(true)
            } else {
                None
            }),
{
    let first = spec_step_cell(cfg, window, cell, raws[0]);
    let tail = raws.drop_first();
    let r = spec_run_cell(cfg, window, cell, raws);
    assert(spec_press_cond(cfg, cell.baseline, raws[0]));
    if window <= 1 {
        assert(first.1 == Some(true) && first.0.state == CellState::Actuated);
        assert forall|i: int|
            0 <= i < tail.len() implies spec_deviation(
            cfg.north_down,
            first.0.baseline,
            #[trigger] tail[i],
        ) >= cfg.release_threshold by {
            assert(spec_press_cond(cfg, cell.baseline, raws[i + 1]));
        }
        lemma_actuated_stays(cfg, window, first.0, tail);
        let rt = spec_run_cell(cfg, window, first.0, tail);
        assert forall|i: int|
            0 <= i < raws.len() implies #[trigger] r.1[i] == (if i == window - 1 {
            Some(true)
        } else {
            None
        }) by {
            if i > 0 {
                assert(r.1[i] == rt.1[i - 1]);
            }
        }
    } else {
        assert(first.1 is None && first.0.state == CellState::Actuating && first.0.count == 1);
        assert forall|i: int|
            0 <= i < tail.len() implies spec_press_cond(cfg, first.0.baseline, #[trigger] tail[i]) by {
            assert(spec_press_cond(cfg, cell.baseline, raws[i + 1]));
        }
        lemma_actuating_counts(cfg, window, first.0, tail);
        let rt = spec_run_cell(cfg, window, first.0, tail);
        assert forall|i: int|
            0 <= i < raws.len() implies #[trigger] r.1[i] == (if i == window - 1 {
            Some(true)
        } else {
            None
        }) by {
            if i > 0 {
                assert(r.1[i] == rt.1[i - 1]);
            }
        }
    }
}

/// A single-tick transient spike shorter than the chatter window emits no
/// event and leaves the cell idle on its old baseline.
pub proof fn lemma_spike_emits_nothing(cfg: KeyboardConfig, window: u8, cell: KeyCell, raw0: u16, raw1: u16)
    requires
        cfg.wf(),
        window >= 2,
        cell.state == CellState::Idle,
        spec_press_cond(cfg, cell.baseline, raw0),
        !spec_press_cond(cfg, cell.baseline, raw1),
    ensures
        spec_run_cell(cfg, window, cell, seq![raw0, raw1]).0.state == CellState::Idle,
        spec_run_cell(cfg, window, cell, seq![raw0, raw1]).0.baseline == cell.baseline,
        spec_run_cell(cfg, window, cell, seq![raw0, raw1]).1 =~= seq![
            None::<bool>,
            None::<bool>,
        ],
{
    let raws = seq![raw0, raw1];
    assert(raws[0] == raw0 && raws.len() == 2);
    let first = spec_step_cell(cfg, window, cell, raw0);
    assert(first.0.state == CellState::Actuating && first.0.baseline == cell.baseline);
    let tail = raws.drop_first();
    assert(tail =~= seq![raw1]);
    assert(tail[0] == raw1 && tail.len() == 1);
    let second = spec_step_cell(cfg, window, first.0, raw1);
    assert(second.0.state == CellState::Idle && second.0.baseline == cell.baseline);
    assert(tail.drop_first() =~= Seq::<u16>::empty());
    assert(spec_run_cell(cfg, window, second.0, tail.drop_first()) == (
        second.0,
        Seq::<Option<bool>>::empty(),
    ));
    assert(spec_run_cell(cfg, window, first.0, tail) == (
        second.0,
        seq![second.1] + Seq::<Option<bool>>::empty(),
    ));
    assert(spec_run_cell(cfg, window, cell, raws) == (
        second.0,
        seq![first.1] + (seq![second.1] + Seq::<Option<bool>>::empty()),
    ));
}

/// After a confirmed press, a ramp that holds the deviation strictly under
/// the release threshold (read against the evolving baseline) for at least
/// the chatter window confirms exactly one release, at the tick that
/// completes the window, and ends idle.
pub proof fn lemma_ramp_releases_once(
    cfg: KeyboardConfig,
    window: u8,
    cell: KeyCell,
    raws: Seq<u16>,
)
    requires
        cfg.wf(),
        window >= 1,
        cell.state == CellState::Actuated,
        raws.len() >= window,
        forall|i: int|
            0 <= i < raws.len() ==> spec_deviation(
                cfg.north_down,
                spec_run_cell(cfg, window, cell, #[trigger] raws.take(i)).0.baseline,
                raws[i],
            ) < cfg.release_threshold,
    ensures
        spec_run_cell(cfg, window, cell, raws).0.state == CellState::Idle,
        spec_run_cell(cfg, window, cell, raws).1.len() == raws.len(),
        forall|i: int|
            0 <= i < raws.len() ==> #[trigger] spec_run_cell(cfg, window, cell, raws).1[i] == (
            if i == window - 1 {
                Some(false)
            } else {
                None
            }),
{
    assert(raws.take(0) =~= Seq::<u16>::empty());
    assert(spec_deviation(cfg.north_down, cell.baseline, raws[0]) < cfg.release_threshold);
    let first = spec_step_cell(cfg, window, cell, raws[0]);
    let tail = raws.drop_first();
    let r = spec_run_cell(cfg, window, cell, raws);
    if window <= 1 {
        assert(first.1 == Some(false) && first.0.state == CellState::Idle);
        assert forall|i: int|
            0 <= i < tail.len() implies !spec_press_cond(
            cfg,
            spec_run_cell(cfg, window, first.0, #[trigger] tail.take(i)).0.baseline,
            tail[i],
        ) by {
            lemma_run_take_shift(cfg, window, cell, raws, i);
            assert(tail[i] == raws[i + 1]);
            assert(spec_deviation(
                cfg.north_down,
                spec_run_cell(cfg, window, cell, raws.take(i + 1)).0.baseline,
                raws[i + 1],
            ) < cfg.release_threshold);
        }
        lemma_idle_stays(cfg, window, first.0, tail);
        let rt = spec_run_cell(cfg, window, first.0, tail);
        assert forall|i: int|
            0 <= i < raws.len() implies #[trigger] r.1[i] == (if i == window - 1 {
            Some(false)
        } else {
            None
        }) by {
            if i > 0 {
                assert(r.1[i] == rt.1[i - 1]);
            }
        }
    } else {
        assert(first.1 is None && first.0.state == CellState::Releasing && first.0.count == 1);
        assert forall|i: int|
            0 <= i < tail.len() implies spec_deviation(
            cfg.north_down,
            spec_run_cell(cfg, window, first.0, #[trigger] tail.take(i)).0.baseline,
            tail[i],
        ) < cfg.release_threshold by {
            lemma_run_take_shift(cfg, window, cell, raws, i);
            assert(tail[i] == raws[i + 1]);
            assert(spec_deviation(
                cfg.north_down,
                spec_run_cell(cfg, window, cell, raws.take(i + 1)).0.baseline,
                raws[i + 1],
            ) < cfg.release_threshold);
        }
        lemma_releasing_counts(cfg, window, first.0, tail);
        let rt = spec_run_cell(cfg, window, first.0, tail);
        assert forall|i: int|
            0 <= i < raws.len() implies #[trigger] r.1[i] == (if i == window - 1 {
            Some(false)
        } else {
            None
        }) by {
            if i > 0 {
                assert(r.1[i] == rt.1[i - 1]);
            }
        }
    }
}

/// With the actuation and release thresholds equal, a reading whose
/// deviation sits exactly on them keeps a pressed key pressed: the boundary
/// case is defined and cannot oscillate.
pub proof fn lemma_equal_thresholds_defined(
    cfg: KeyboardConfig,
    window: u8,
    cell: KeyCell,
    raw: u16,
)
    requires
        cfg.wf(),
        window >= 1,
        cfg.actuation_threshold == cfg.release_threshold,
        cell.state == CellState::Actuated,
        spec_deviation(cfg.north_down, cell.baseline, raw) == cfg.actuation_threshold,
    ensures
        spec_step_cell(cfg, window, cell, raw).0.state == CellState::Actuated,
        spec_step_cell(cfg, window, cell, raw).1 is None,
{
}

/// One step never moves the baseline of a cell that is anywhere but idle.
pub proof fn lemma_baseline_fixed_unless_idle(
    cfg: KeyboardConfig,
    window: u8,
    cell: KeyCell,
    raw: u16,
)
    requires
        cell.state != CellState::Idle,
    ensures
        spec_step_cell(cfg, window, cell, raw).0.baseline == cell.baseline,
{
}

/// The baseline moves only by recalibration: the cell was idle, saw no
/// candidate press, and had sat idle for the full recalibration period.
pub proof fn lemma_recalibration_needs_long_idle(
    cfg: KeyboardConfig,
    window: u8,
    cell: KeyCell,
    raw: u16,
)
    requires
        spec_step_cell(cfg, window, cell, raw).0.baseline != cell.baseline,
    ensures
        cell.state == CellState::Idle,
        !spec_press_cond(cfg, cell.baseline, raw),
        cell.idle_ticks + 1 >= cfg.recalibration_rate,
        spec_step_cell(cfg, window, cell, raw).0.baseline == spec_recalibrated(
            cell.baseline,
            raw,
        ),
{
}

/// A key held actuated for any stretch of ticks — a recalibration period or
/// longer included — never has its baseline drift toward the pressed value.
pub proof fn lemma_held_key_keeps_baseline(
    cfg: KeyboardConfig,
    window: u8,
    cell: KeyCell,
    raws: Seq<u16>,
)
    requires
        cfg.wf(),
        window >= 1,
        cell.state == CellState::Actuated,
        forall|i: int|
            0 <= i < raws.len() ==> spec_deviation(cfg.north_down, cell.baseline, #[trigger] raws[i])
                >= cfg.release_threshold,
    ensures
        spec_run_cell(cfg, window, cell, raws).0.baseline == cell.baseline,
        spec_run_cell(cfg, window, cell, raws).0.state == CellState::Actuated,
{
    lemma_actuated_stays(cfg, window, cell, raws);
}

/// A debounced press (`pressed == true`) or release of the key at grid
/// position (`row`, `col`), where `row` is the multiplexer index and `col`
/// the channel index.
#[derive(Clone, Copy, PartialEq, Eq, Structural, Debug)]
pub struct KeyEvent {
    pub row: u8,
    pub col: u8,
    pub pressed: bool,
}

/// The event one cell contributes to a tick's event stream: nothing, or a
/// single press/release at its position.
pub open spec fn spec_cell_events(
    cfg: KeyboardConfig,
    window: u8,
    row: u8,
    col: u8,
    cell: KeyCell,
    raw: u16,
) -> Seq<KeyEvent> {
    match spec_step_cell(cfg, window, cell, raw).1 {
        Some(p) => seq![KeyEvent { row, col, pressed: p }],
        None => Seq::empty(),
    }
}

/// Events of one multiplexer row from channel `col` on, in channel order.
pub open spec fn spec_row_events(
    cfg: KeyboardConfig,
    window: u8,
    row: u8,
    cells: Seq<KeyCell>,
    raws: Seq<u16>,
    col: int,
) -> Seq<KeyEvent>
    decreases cells.len() - col,
{
    if col < 0 || col >= cells.len() || cells.len() != raws.len() || cells.len() > u8::MAX + 1 {
        Seq::empty()
    } else {
        spec_cell_events(cfg, window, row, col as u8, cells[col], raws[col]) + spec_row_events(
            cfg,
            window,
            row,
            cells,
            raws,
            col + 1,
        )
    }
}

/// Events of the whole grid from multiplexer `row` on: row-major scan order,
/// the order in which the layout engine must consume them.
pub open spec fn spec_grid_events(
    cfg: KeyboardConfig,
    window: u8,
    cells: Seq<Seq<KeyCell>>,
    raws: Seq<Seq<u16>>,
    row: int,
) -> Seq<KeyEvent>
    decreases cells.len() - row,
{
    if row < 0 || row >= cells.len() || cells.len() != raws.len() || cells.len() > u8::MAX + 1 {
        Seq::empty()
    } else {
        spec_row_events(cfg, window, row as u8, cells[row], raws[row], 0) + spec_grid_events(
            cfg,
            window,
            cells,
            raws,
            row + 1,
        )
    }
}

/// Every event of one row's stream carries that row, points at an in-range
/// channel at or after `col`, and the stream is strictly ordered by channel:
/// one key cell contributes at most one event per tick.
pub proof fn lemma_row_events_bounds(
    cfg: KeyboardConfig,
    window: u8,
    row: u8,
    cells: Seq<KeyCell>,
    raws: Seq<u16>,
    col: int,
)
    requires
        col >= 0,
    ensures
        forall|t: int|
            0 <= t < spec_row_events(cfg, window, row, cells, raws, col).len() ==> (
            #[trigger] spec_row_events(cfg, window, row, cells, raws, col)[t]).row == row
                && col <= spec_row_events(cfg, window, row, cells, raws, col)[t].col
                < cells.len(),
        forall|t1: int, t2: int|
            0 <= t1 < t2 < spec_row_events(cfg, window, row, cells, raws, col).len() ==> (
            #[trigger] spec_row_events(cfg, window, row, cells, raws, col)[t1]).col < (
            #[trigger] spec_row_events(cfg, window, row, cells, raws, col)[t2]).col,
    decreases cells.len() - col,
{
    if !(col < 0 || col >= cells.len() || cells.len() != raws.len() || cells.len() > u8::MAX
        + 1) {
        lemma_row_events_bounds(cfg, window, row, cells, raws, col + 1);
        let evs = spec_row_events(cfg, window, row, cells, raws, col);
        let head = spec_cell_events(cfg, window, row, col as u8, cells[col], raws[col]);
        let rest = spec_row_events(cfg, window, row, cells, raws, col + 1);
        assert forall|t: int|
            0 <= t < evs.len() implies (#[trigger] evs[t]).row == row && col <= evs[t].col
            < cells.len() by {
            if t < head.len() {
                assert(evs[t] == head[t]);
            } else {
                assert(evs[t] == rest[t - head.len()]);
            }
        }
        assert forall|t1: int, t2: int|
            0 <= t1 < t2 < evs.len() implies (#[trigger] evs[t1]).col < (#[trigger] evs[t2]).col by {
            if t1 < head.len() {
                assert(evs[t1] == head[t1]);
                assert(evs[t2] == rest[t2 - head.len()]);
            } else {
                assert(evs[t1] == rest[t1 - head.len()]);
                assert(evs[t2] == rest[t2 - head.len()]);
            }
        }
    }
}

/// Every event of the grid stream points at an in-range cell of its
/// (rectangular) grid, and the stream is strictly ordered by (multiplexer,
/// channel): the layout engine sees each tick's events in scan order, at
/// most one per key cell.
pub proof fn lemma_grid_events_bounds(
    cfg: KeyboardConfig,
    window: u8,
    cells: Seq<Seq<KeyCell>>,
    raws: Seq<Seq<u16>>,
    row: int,
    ncols: int,
)
    requires
        row >= 0,
        forall|i: int| 0 <= i < cells.len() ==> (#[trigger] cells[i]).len() == ncols,
    ensures
        forall|t: int|
            0 <= t < spec_grid_events(cfg, window, cells, raws, row).len() ==> row <= (
            #[trigger] spec_grid_events(cfg, window, cells, raws, row)[t]).row < cells.len()
                && spec_grid_events(cfg, window, cells, raws, row)[t].col < ncols,
        forall|t1: int, t2: int|
            0 <= t1 < t2 < spec_grid_events(cfg, window, cells, raws, row).len() ==> ((
            #[trigger] spec_grid_events(cfg, window, cells, raws, row)[t1]).row < (
            #[trigger] spec_grid_events(cfg, window, cells, raws, row)[t2]).row || (
            spec_grid_events(cfg, window, cells, raws, row)[t1].row == spec_grid_events(
                cfg,
                window,
                cells,
                raws,
                row,
            )[t2].row && spec_grid_events(cfg, window, cells, raws, row)[t1].col
                < spec_grid_events(cfg, window, cells, raws, row)[t2].col)),
    decreases cells.len() - row,
{
    if !(row < 0 || row >= cells.len() || cells.len() != raws.len() || cells.len() > u8::MAX
        + 1) {
        lemma_row_events_bounds(cfg, window, row as u8, cells[row], raws[row], 0);
        lemma_grid_events_bounds(cfg, window, cells, raws, row + 1, ncols);
        let evs = spec_grid_events(cfg, window, cells, raws, row);
        let head = spec_row_events(cfg, window, row as u8, cells[row], raws[row], 0);
        let rest = spec_grid_events(cfg, window, cells, raws, row + 1);
        assert forall|t: int|
            0 <= t < evs.len() implies row <= (#[trigger] evs[t]).row < cells.len() && evs[t].col
            < ncols by {
            if t < head.len() {
                assert(evs[t] == head[t]);
                assert(head[t].col < cells[row].len());
            } else {
                assert(evs[t] == rest[t - head.len()]);
            }
        }
        assert forall|t1: int, t2: int|
            0 <= t1 < t2 < evs.len() implies ((#[trigger] evs[t1]).row < (#[trigger] evs[t2]).row
            || (evs[t1].row == evs[t2].row && evs[t1].col < evs[t2].col)) by {
            if t1 < head.len() && t2 < head.len() {
                assert(evs[t1] == head[t1]);
                assert(evs[t2] == head[t2]);
            } else if t1 < head.len() {
                assert(evs[t1] == head[t1]);
                assert(evs[t2] == rest[t2 - head.len()]);
            } else {
                assert(evs[t1] == rest[t1 - head.len()]);
                assert(evs[t2] == rest[t2 - head.len()]);
            }
        }
    }
}

/// View of a sample or cell grid as a sequence of row sequences.
pub open spec fn grid_view<T>(g: Vec<Vec<T>>) -> Seq<Seq<T>> {
    g@.map_values(|r: Vec<T>| r@)
}

/// The debouncer: one `KeyCell` per (multiplexer, channel) position, stepped
/// once per tick on that tick's raw sample grid.
pub struct Debouncer {
    pub cfg: KeyboardConfig,
    pub window: u8,
    pub cells: Vec<Vec<KeyCell>>,
}

impl Debouncer {
    /// Grid dimensions follow the configuration and every cell is inside its
    /// counters' windows.
    pub open spec fn wf(self) -> bool {
        &&& self.cfg.wf()
        &&& self.window >= 1
        &&& self.cells@.len() == self.cfg.num_multiplexers
        &&& forall|i: int|
            0 <= i < self.cells@.len() ==> (#[trigger] self.cells@[i])@.len()
                == self.cfg.max_channels
        &&& forall|i: int, j: int|
            0 <= i < self.cells@.len() && 0 <= j < self.cells@[i]@.len()
                ==> (#[trigger] self.cells@[i]@[j]).wf(self.cfg, self.window)
    }

    /// A fresh debouncer: every cell idle on `baseline`, confirming a state
    /// change only after `window` consecutive agreeing ticks.
    pub fn new(cfg: KeyboardConfig, window: u8, baseline: u16) -> (d: Debouncer)
        requires
            cfg.wf(),
            window >= 1,
        ensures
            d.wf(),
            d.cfg == cfg,
            d.window == window,
            forall|i: int, j: int|
                0 <= i < d.cells@.len() && 0 <= j < d.cells@[i]@.len()
                    ==> (#[trigger] d.cells@[i]@[j]) == (KeyCell {
                    state: CellState::Idle,
                    count: 0,
                    baseline,
                    idle_ticks: 0,
                }),
    {
        let mut cells: Vec<Vec<KeyCell>> = Vec::new();
        let mut i: usize = 0;
        while i < cfg.num_multiplexers as usize
            invariant
                i <= cfg.num_multiplexers,
                cells@.len() == i,
                forall|a: int|
                    0 <= a < i ==> (#[trigger] cells@[a])@.len() == cfg.max_channels,
                forall|a: int, b: int|
                    0 <= a < i && 0 <= b < cells@[a]@.len() ==> (#[trigger] cells@[a]@[b])
                        == (KeyCell {
                        state: CellState::Idle,
                        count: 0,
                        baseline,
                        idle_ticks: 0,
                    }),
            decreases cfg.num_multiplexers - i,
        {
            let mut row: Vec<KeyCell> = Vec::new();
            let mut j: usize = 0;
            while j < cfg.max_channels as usize
                invariant
                    j <= cfg.max_channels,
                    row@.len() == j,
                    forall|b: int|
                        0 <= b < j ==> (#[trigger] row@[b]) == (KeyCell {
                            state: CellState::Idle,
                            count: 0,
                            baseline,
                            idle_ticks: 0,
                        }),
                decreases cfg.max_channels - j,
            {
                row.push(KeyCell::new(baseline));
                j = j + 1;
            }
            cells.push(row);
            i = i + 1;
        }
        Debouncer { cfg, window, cells }
    }

    /// One tick: step every cell on its raw sample and collect the confirmed
    /// press/release events in row-major scan order.
    pub fn events(&mut self, samples: &Vec<Vec<u16>>) -> (evs: Vec<KeyEvent>)
        requires
            old(self).wf(),
            samples@.len() == old(self).cells@.len(),
            forall|i: int|
                0 <= i < samples@.len() ==> (#[trigger] samples@[i])@.len()
                    == old(self).cells@[i]@.len(),
        ensures
            final(self).wf(),
            final(self).cfg == old(self).cfg,
            final(self).window == old(self).window,
            final(self).cells@.len() == old(self).cells@.len(),
            forall|i: int|
                0 <= i < final(self).cells@.len() ==> (#[trigger] final(self).cells@[i])@.len()
                    == old(self).cells@[i]@.len(),
            forall|i: int, j: int|
                0 <= i < final(self).cells@.len() && 0 <= j < final(self).cells@[i]@.len() ==> (
                #[trigger] final(self).cells@[i]@[j]) == spec_step_cell(
                    old(self).cfg,
                    old(self).window,
                    old(self).cells@[i]@[j],
                    samples@[i]@[j],
                ).0,
            evs@ == spec_grid_events(
                old(self).cfg,
                old(self).window,
                grid_view(old(self).cells),
                grid_view(*samples),
                0,
            ),
    {
        let ghost cfg = self.cfg;
        let ghost window = self.window;
        let ghost cells0 = grid_view(self.cells);
        let ghost raws = grid_view(*samples);
        let mut evs: Vec<KeyEvent> = Vec::new();
        let rows = self.cells.len();
        let mut i: usize = 0;
        proof {
            assert(evs@ + spec_grid_events(cfg, window, cells0, raws, 0) =~= spec_grid_events(
                cfg,
                window,
                cells0,
                raws,
                0,
            ));
        }
        while i < rows
            invariant
                self.cfg == cfg,
                self.window == window,
                cfg.wf(),
                window >= 1,
                rows == self.cells@.len(),
                rows == cells0.len(),
                rows == raws.len(),
                raws == grid_view(*samples),
                samples@.len() == rows,
                rows <= u8::MAX + 1,
                i <= rows,
                forall|a: int| 0 <= a < rows ==> (#[trigger] cells0[a]).len() == raws[a].len(),
                forall|a: int|
                    0 <= a < rows ==> (#[trigger] self.cells@[a])@.len() == cells0[a].len(),
                forall|a: int|
                    0 <= a < rows ==> (#[trigger] cells0[a]).len() <= u8::MAX + 1,
                forall|a: int, b: int|
                    i <= a < rows && 0 <= b < cells0[a].len() ==> (#[trigger] self.cells@[a]@[b])
                        == cells0[a][b],
                forall|a: int, b: int|
                    0 <= a < i && 0 <= b < cells0[a].len() ==> (#[trigger] self.cells@[a]@[b])
                        == spec_step_cell(cfg, window, cells0[a][b], raws[a][b]).0,
                forall|a: int, b: int|
                    0 <= a < rows && 0 <= b < self.cells@[a]@.len() ==> (
                    #[trigger] self.cells@[a]@[b]).wf(cfg, window),
                evs@ + spec_grid_events(cfg, window, cells0, raws, i as int) == spec_grid_events(
                    cfg,
                    window,
                    cells0,
                    raws,
                    0,
                ),
            decreases rows - i,
        {
            let cols = self.cells[i].len();
            let mut j: usize = 0;
            while j < cols
                invariant
                    self.cfg == cfg,
                    self.window == window,
                    cfg.wf(),
                    window >= 1,
                    rows == self.cells@.len(),
                    rows == cells0.len(),
                    rows == raws.len(),
                    raws == grid_view(*samples),
                    samples@.len() == rows,
                    rows <= u8::MAX + 1,
                    i < rows,
                    cols == cells0[i as int].len(),
                    cols == raws[i as int].len(),
                    cols <= u8::MAX + 1,
                    j <= cols,
                    forall|a: int| 0 <= a < rows ==> (#[trigger] cells0[a]).len() == raws[a].len(),
                    forall|a: int|
                        0 <= a < rows ==> (#[trigger] self.cells@[a])@.len() == cells0[a].len(),
                    forall|a: int|
                        0 <= a < rows ==> (#[trigger] cells0[a]).len() <= u8::MAX + 1,
                    forall|a: int, b: int|
                        i < a < rows && 0 <= b < cells0[a].len() ==> (
                        #[trigger] self.cells@[a]@[b]) == cells0[a][b],
                    forall|b: int|
                        j <= b < cols ==> (#[trigger] self.cells@[i as int]@[b]) == cells0[i as int][b],
                    forall|a: int, b: int|
                        0 <= a < i && 0 <= b < cells0[a].len() ==> (#[trigger] self.cells@[a]@[b])
                            == spec_step_cell(cfg, window, cells0[a][b], raws[a][b]).0,
                    forall|b: int|
                        0 <= b < j ==> (#[trigger] self.cells@[i as int]@[b]) == spec_step_cell(
                            cfg,
                            window,
                            cells0[i as int][b],
                            raws[i as int][b],
                        ).0,
                    forall|a: int, b: int|
                        0 <= a < rows && 0 <= b < self.cells@[a]@.len() ==> (
                        #[trigger] self.cells@[a]@[b]).wf(cfg, window),
                    evs@ + spec_row_events(cfg, window, i as u8, cells0[i as int], raws[i as int], j as int)
                        + spec_grid_events(cfg, window, cells0, raws, i + 1) == spec_grid_events(
                        cfg,
                        window,
                        cells0,
                        raws,
                        0,
                    ),
                decreases cols - j,
            {
                let mut cell = self.cells[i][j];
                let ev = cell.step(self.cfg, self.window, samples[i][j]);
                self.cells[i][j] = cell;
                match ev {
                    Some(p) => {
                        evs.push(KeyEvent { row: i as u8, col: j as u8, pressed: p });
                    },
                    None => {},
                }
                proof {
                    assert(evs@ + spec_row_events(
                        cfg,
                        window,
                        i as u8,
                        cells0[i as int],
                        raws[i as int],
                        j + 1,
                    ) + spec_grid_events(cfg, window, cells0, raws, i + 1) =~= spec_grid_events(
                        cfg,
                        window,
                        cells0,
                        raws,
                        0,
                    ));
                }
                j = j + 1;
            }
            proof {
                assert(spec_row_events(cfg, window, i as u8, cells0[i as int], raws[i as int], cols as int)
                    =~= Seq::<KeyEvent>::empty());
                assert(evs@ + spec_grid_events(cfg, window, cells0, raws, i + 1) =~= spec_grid_events(
                    cfg,
                    window,
                    cells0,
                    raws,
                    0,
                ));
            }
            i = i + 1;
        }
        proof {
            assert(spec_grid_events(cfg, window, cells0, raws, rows as int) =~= Seq::<
                KeyEvent,
            >::empty());
            assert(evs@ =~= spec_grid_events(cfg, window, cells0, raws, 0));
        }
        evs
    }
}

} // verus!
