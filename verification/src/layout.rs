//! Layered key-mapping state machine.
//!
//! The engine consumes the debouncer's press/release events in scan order and
//! advances one time-step per tick. A position resolves through the layer
//! stack: the topmost active layer with a defined (non-transparent) action
//! wins, falling through to the base layer. A layer-shift key activates its
//! layer while held; a tap-hold key starts a disambiguation timer and resolves
//! as its hold action once held past the timeout, or as its tap keycode when
//! released earlier; the reserved update-mode action arms the bootloader
//! handoff on its *release*, never on its press, and the next `tick` reports
//! it exactly once.

use vstd::prelude::*;

use crate::debounce::KeyEvent;

verus! {

/// What a tap-hold binding becomes when it is held past its timeout.
#[derive(Clone, Copy, PartialEq, Eq, Structural, Debug)]
pub enum HoldKind {
    /// Activate this layer while the key stays held.
    HoldLayer(usize),
    /// Emit this keycode (typically a modifier) while the key stays held.
    HoldKey(u8),
}

/// One cell of a layer table.
#[derive(Clone, Copy, PartialEq, Eq, Structural, Debug)]
pub enum Action {
    /// Transparent: fall through to the next active layer below.
    Trans,
    /// Defined but inert: stops the fallthrough and does nothing.
    NoOp,
    /// A plain HID keycode; modifier keycodes (0xE0..=0xE7) go here too.
    Key(u8),
    /// Shift to the given layer while held.
    Layer(usize),
    /// Tap-hold: `tap` when released within `timeout` ticks, `hold` once
    /// held for `timeout` ticks.
    HoldTap { hold: HoldKind, tap: u8, timeout: u16 },
    /// The reserved "enter firmware update mode" action: releasing it tells
    /// the scheduler to jump to the bootloader.
    UpdateMode,
}

/// What a currently held key contributes to the engine.
#[derive(Clone, Copy, PartialEq, Eq, Structural, Debug)]
pub enum PressedKind {
    /// Contributes this keycode while held.
    Held(u8),
    /// Keeps this layer active while held.
    HeldLayer(usize),
    /// The update-mode action: its release arms the bootloader handoff.
    HeldUpdate,
    /// An unresolved tap-hold, `elapsed` ticks into its timeout.
    Pending { hold: HoldKind, tap: u8, timeout: u16, elapsed: u16 },
}

/// A key that is physically down, with the contribution that was resolved
/// for it when it was pressed.
#[derive(Clone, Copy, PartialEq, Eq, Structural, Debug)]
pub struct PressedKey {
    pub row: u8,
    pub col: u8,
    pub kind: PressedKind,
}

/// The mutable part of the engine, as mathematics: what `event` and `tick`
/// are specified over.
pub struct LayoutModel {
    /// Keys currently down, in press order.
    pub pressed: Seq<PressedKey>,
    /// Tap keycodes to report in the coming tick only.
    pub taps: Seq<u8>,
    /// A qualifying update-mode release happened since the last tick.
    pub pending_update: bool,
}

/// A layer `l` is active while some held key shifted to it.
pub open spec fn spec_layer_active(pressed: Seq<PressedKey>, l: int) -> bool {
    exists|k: int|
        0 <= k < pressed.len() && ((#[trigger] pressed[k]).kind matches PressedKind::HeldLayer(a)
            && a == l)
}

/// Layer resolution scanning down from layer `top`: the topmost layer that is
/// active (the base layer always is) and defines a non-transparent action
/// wins; below the base layer the position is inert.
pub open spec fn spec_resolve_from(
    layers: Seq<Seq<Seq<Action>>>,
    pressed: Seq<PressedKey>,
    top: int,
    r: int,
    c: int,
) -> Action
    decreases top + 1,
{
    if top < 0 || top >= layers.len() {
        Action::NoOp
    } else if (top == 0 || spec_layer_active(pressed, top)) && layers[top][r][c] != Action::Trans {
        layers[top][r][c]
    } else {
        spec_resolve_from(layers, pressed, top - 1, r, c)
    }
}

/// The action a position resolves to under the currently active layers.
pub open spec fn spec_resolve(
    layers: Seq<Seq<Seq<Action>>>,
    pressed: Seq<PressedKey>,
    r: int,
    c: int,
) -> Action {
    spec_resolve_from(layers, pressed, layers.len() - 1, r, c)
}

/// The contribution a freshly pressed key makes under action `a`, if any.
pub open spec fn spec_entry_for(a: Action, row: u8, col: u8) -> Option<PressedKey> {
    match a {
        Action::Trans => None,
        Action::NoOp => None,
        Action::Key(k) => Some(PressedKey { row, col, kind: PressedKind::Held(k) }),
        Action::Layer(l) => Some(PressedKey { row, col, kind: PressedKind::HeldLayer(l) }),
        Action::HoldTap { hold, tap, timeout } => Some(
            PressedKey {
                row,
                col,
                kind: PressedKind::Pending { hold, tap, timeout, elapsed: 0 },
            },
        ),
        Action::UpdateMode => Some(PressedKey { row, col, kind: PressedKind::HeldUpdate }),
    }
}

/// Index of the first held key at (`row`, `col`) from position `i` on, or -1.
pub open spec fn spec_find_from(pressed: Seq<PressedKey>, row: u8, col: u8, i: int) -> int
    decreases pressed.len() - i,
{
    if i < 0 || i >= pressed.len() {
        -1
    } else if pressed[i].row == row && pressed[i].col == col {
        i
    } else {
        spec_find_from(pressed, row, col, i + 1)
    }
}

/// A found index points at a held key at the position searched for.
pub proof fn lemma_find_from_props(pressed: Seq<PressedKey>, row: u8, col: u8, i: int)
    requires
        0 <= i <= pressed.len(),
    ensures
        spec_find_from(pressed, row, col, i) == -1 || (i <= spec_find_from(pressed, row, col, i)
            < pressed.len() && pressed[spec_find_from(pressed, row, col, i)].row == row && pressed[
            spec_find_from(pressed, row, col, i)
        ].col == col),
    decreases pressed.len() - i,
{
    if i < pressed.len() && !(pressed[i].row == row && pressed[i].col == col) {
        lemma_find_from_props(pressed, row, col, i + 1);
    }
}

/// One press or release event, as mathematics. A press of a free position
/// resolves an action and records its contribution; a release removes the
/// first entry at that position, queues the tap keycode of a still-pending
/// tap-hold, and arms the update flag when the entry was the update-mode
/// action — pressing never arms it.
pub open spec fn spec_event(
    layers: Seq<Seq<Seq<Action>>>,
    m: LayoutModel,
    ev: KeyEvent,
) -> LayoutModel {
    if ev.pressed {
        if spec_find_from(m.pressed, ev.row, ev.col, 0) >= 0 {
            m
        } else {
            match spec_entry_for(
                spec_resolve(layers, m.pressed, ev.row as int, ev.col as int),
                ev.row,
                ev.col,
            ) {
                Some(e) => LayoutModel { pressed: m.pressed.push(e), ..m },
                None => m,
            }
        }
    } else {
        let i = spec_find_from(m.pressed, ev.row, ev.col, 0);
        if i < 0 {
            m
        } else {
            let e = m.pressed[i];
            LayoutModel {
                pressed: m.pressed.remove(i),
                taps: match e.kind {
                    PressedKind::Pending { tap, .. } => m.taps.push(tap),
                    _ => m.taps,
                },
                pending_update: m.pending_update || e.kind == PressedKind::HeldUpdate,
            }
        }
    }
}

/// One tick of one held key: a pending tap-hold counts toward its timeout and
/// resolves as its hold action once the timeout is reached; everything else
/// is unchanged.
pub open spec fn spec_advance_entry(e: PressedKey) -> PressedKey {
    match e.kind {
        PressedKind::Pending { hold, tap, timeout, elapsed } => {
            if elapsed + 1 >= timeout {
                match hold {
                    HoldKind::HoldLayer(l) => PressedKey { kind: PressedKind::HeldLayer(l), ..e },
                    HoldKind::HoldKey(k) => PressedKey { kind: PressedKind::Held(k), ..e },
                }
            } else {
                PressedKey {
                    kind: PressedKind::Pending {
                        hold,
                        tap,
                        timeout,
                        elapsed: (elapsed + 1) as u16,
                    },
                    ..e
                }
            }
        },
        _ => e,
    }
}

/// The keycodes the held keys from position `i` on contribute, in press
/// order: resolved keys only, never an unresolved tap-hold.
pub open spec fn spec_held_keys_from(pressed: Seq<PressedKey>, i: int) -> Seq<u8>
    decreases pressed.len() - i,
{
    if i < 0 || i >= pressed.len() {
        Seq::empty()
    } else {
        (match pressed[i].kind {
            PressedKind::Held(k) => seq![k],
            _ => Seq::<u8>::empty(),
        }) + spec_held_keys_from(pressed, i + 1)
    }
}

/// What one tick returns: the active keycodes (held keys first, in press
/// order, then this tick's tap keycodes) and whether the update-mode handoff
/// fires now.
pub struct TickModel {
    pub keys: Seq<u8>,
    pub update: bool,
}

/// One tick, as mathematics: all timers advance and resolve, the tap queue
/// and the update flag are handed out exactly once and cleared.
pub open spec fn spec_tick(m: LayoutModel) -> (LayoutModel, TickModel) {
    let adv = m.pressed.map_values(|e: PressedKey| spec_advance_entry(e));
    (
        LayoutModel { pressed: adv, taps: Seq::empty(), pending_update: false },
        TickModel { keys: spec_held_keys_from(adv, 0) + m.taps, update: m.pending_update },
    )
}

/// Resolution below `top` never looks at layers above `top`.
proof fn lemma_resolve_from_topmost(
    layers: Seq<Seq<Seq<Action>>>,
    pressed: Seq<PressedKey>,
    top: int,
    l: int,
    r: int,
    c: int,
)
    requires
        0 <= l <= top < layers.len(),
        l == 0 || spec_layer_active(pressed, l),
        layers[l][r][c] != Action::Trans,
        forall|j: int|
            l < j <= top ==> !(spec_layer_active(pressed, j) && #[trigger] layers[j][r][c]
                != Action::Trans),
    ensures
        spec_resolve_from(layers, pressed, top, r, c) == layers[l][r][c],
    decreases top,
{
    if top > l {
        assert(!(spec_layer_active(pressed, top) && layers[top][r][c] != Action::Trans));
        lemma_resolve_from_topmost(layers, pressed, top - 1, l, r, c);
    }
}

/// Layer resolution, the general law: the topmost active layer that defines
/// a non-transparent action at a position decides that position; every
/// active layer above it leaves the position transparent or is inactive, and
/// whatever sits below it is never consulted.
pub proof fn lemma_topmost_active_layer_wins(
    layers: Seq<Seq<Seq<Action>>>,
    pressed: Seq<PressedKey>,
    l: int,
    r: int,
    c: int,
)
    requires
        0 <= l < layers.len(),
        l == 0 || spec_layer_active(pressed, l),
        layers[l][r][c] != Action::Trans,
        forall|j: int|
            l < j < layers.len() ==> !(spec_layer_active(pressed, j) && #[trigger] layers[j][r][c]
                != Action::Trans),
    ensures
        spec_resolve(layers, pressed, r, c) == layers[l][r][c],
{
    lemma_resolve_from_topmost(layers, pressed, layers.len() - 1, l, r, c);
}

/// Pressing a free position that resolves to a layer shift activates that
/// layer for every event that follows while it stays held.
pub proof fn lemma_layer_shift_activates(
    layers: Seq<Seq<Seq<Action>>>,
    m: LayoutModel,
    ev: KeyEvent,
    l: usize,
)
    requires
        ev.pressed,
        spec_find_from(m.pressed, ev.row, ev.col, 0) == -1,
        spec_resolve(layers, m.pressed, ev.row as int, ev.col as int) == Action::Layer(l),
    ensures
        spec_layer_active(spec_event(layers, m, ev).pressed, l as int),
{
    let p = spec_event(layers, m, ev).pressed;
    assert(p[p.len() - 1].kind == PressedKind::HeldLayer(l));
}

/// Releasing the key that kept a layer active deactivates the layer, as long
/// as no other held key shifts to it: presses that follow resolve without it.
pub proof fn lemma_layer_shift_release_deactivates(
    layers: Seq<Seq<Seq<Action>>>,
    m: LayoutModel,
    ev: KeyEvent,
    l: usize,
)
    requires
        !ev.pressed,
        forall|k: int|
            0 <= k < m.pressed.len() && ((#[trigger] m.pressed[k]).kind
                matches PressedKind::HeldLayer(a) && a == l) ==> k == spec_find_from(
                m.pressed,
                ev.row,
                ev.col,
                0,
            ),
        spec_find_from(m.pressed, ev.row, ev.col, 0) >= 0,
    ensures
        !spec_layer_active(spec_event(layers, m, ev).pressed, l as int),
{
    let i = spec_find_from(m.pressed, ev.row, ev.col, 0);
    lemma_find_from_props(m.pressed, ev.row, ev.col, 0);
    let p = spec_event(layers, m, ev).pressed;
    assert(p =~= m.pressed.remove(i));
    assert forall|k: int|
        0 <= k < p.len() implies !((#[trigger] p[k]).kind matches PressedKind::HeldLayer(a) && a
        == l) by {
        if k < i {
            assert(p[k] == m.pressed.take(i)[k]);
            assert(p[k] == m.pressed[k]);
        } else {
            assert(p[k] == m.pressed.skip(i + 1)[k - i]);
            assert(p[k] == m.pressed[k + 1]);
        }
    }
}

/// A press never arms the update-mode handoff: only a release can.
pub proof fn lemma_press_never_arms_update(
    layers: Seq<Seq<Seq<Action>>>,
    m: LayoutModel,
    ev: KeyEvent,
)
    requires
        ev.pressed,
    ensures
        spec_event(layers, m, ev).pending_update == m.pending_update,
{
}

/// A qualifying update-mode release fires on the next tick and exactly once:
/// the tick that reports it disarms it, so a second tick with no new
/// qualifying release in between reports nothing.
pub proof fn lemma_update_fires_exactly_once(m: LayoutModel)
    ensures
        spec_tick(m).1.update == m.pending_update,
        spec_tick(m).0.pending_update == false,
        spec_tick(spec_tick(m).0).1.update == false,
{
}

/// The layer stack covers a `rows` by `cols` grid: at least one layer and
/// every layer a full table of that shape.
pub open spec fn spec_layers_cover(layers: Vec<Vec<Vec<Action>>>, rows: u8, cols: u8) -> bool {
    &&& layers@.len() >= 1
    &&& forall|l: int| 0 <= l < layers@.len() ==> (#[trigger] layers@[l])@.len() == rows as nat
    &&& forall|l: int, r: int|
        0 <= l < layers@.len() && 0 <= r < layers@[l]@.len() ==> (#[trigger] layers@[l]@[r])@.len()
            == cols as nat
}

/// Runtime check that a layer stack covers the scanned grid, for callers
/// that receive the tables from outside.
pub fn layers_cover_grid(layers: &Vec<Vec<Vec<Action>>>, rows: u8, cols: u8) -> (ok: bool)
    ensures
        ok == spec_layers_cover(*layers, rows, cols),
{
    if layers.len() == 0 {
        return false;
    }
    let nl = layers.len();
    let mut l: usize = 0;
    while l < nl
        invariant
            nl == layers@.len(),
            l <= nl,
            forall|a: int| 0 <= a < l ==> (#[trigger] layers@[a])@.len() == rows as nat,
            forall|a: int, r: int|
                0 <= a < l && 0 <= r < layers@[a]@.len() ==> (#[trigger] layers@[a]@[r])@.len()
                    == cols as nat,
        decreases nl - l,
    {
        let nr = layers[l].len();
        if nr != rows as usize {
            return false;
        }
        let mut r: usize = 0;
        while r < nr
            invariant
                nl == layers@.len(),
                l < nl,
                nr == layers@[l as int]@.len(),
                r <= nr,
                forall|b: int|
                    0 <= b < r ==> (#[trigger] layers@[l as int]@[b])@.len() == cols as nat,
            decreases nr - r,
        {
            if layers[l][r].len() != cols as usize {
                return false;
            }
            r = r + 1;
        }
        l = l + 1;
    }
    true
}

/// What `LayoutEngine::tick` hands to the report encoder and the scheduler.
pub struct TickOut {
    /// Currently active keycodes, in engine iteration order.
    pub keycodes: Vec<u8>,
    /// The update-mode action was released since the previous tick: the
    /// scheduler must hand control to the bootloader, exactly once.
    pub update: bool,
}

/// The layout engine: an immutable layer stack and the in-flight state of
/// the held keys. It runs for the device's uptime; there is no reset.
pub struct LayoutEngine {
    pub layers: Vec<Vec<Vec<Action>>>,
    pub pressed: Vec<PressedKey>,
    pub taps: Vec<u8>,
    pub pending_update: bool,
}

impl LayoutEngine {
    /// Rows of every layer table.
    pub open spec fn spec_rows(self) -> nat {
        self.layers@[0]@.len()
    }

    /// Columns of every layer table.
    pub open spec fn spec_cols(self) -> nat {
        self.layers@[0]@[0]@.len()
    }

    /// Deep view of the layer stack.
    pub open spec fn layers_view(self) -> Seq<Seq<Seq<Action>>> {
        self.layers@.map_values(|l: Vec<Vec<Action>>| l@.map_values(|r: Vec<Action>| r@))
    }

    /// The mutable state as mathematics.
    pub open spec fn model(self) -> LayoutModel {
        LayoutModel {
            pressed: self.pressed@,
            taps: self.taps@,
            pending_update: self.pending_update,
        }
    }

    /// At least one layer, and every layer a full rows-by-columns table.
    pub open spec fn wf(self) -> bool {
        &&& self.layers@.len() >= 1
        &&& self.spec_rows() >= 1
        &&& forall|l: int|
            0 <= l < self.layers@.len() ==> (#[trigger] self.layers@[l])@.len()
                == self.spec_rows()
        &&& forall|l: int, r: int|
            0 <= l < self.layers@.len() && 0 <= r < self.layers@[l]@.len() ==> (
            #[trigger] self.layers@[l]@[r])@.len() == self.spec_cols()
    }

    /// A fresh engine over the given layer stack: nothing held, no tap
    /// queued, the update flag unarmed.
    pub fn new(layers: Vec<Vec<Vec<Action>>>) -> (e: LayoutEngine)
        ensures
            e.layers == layers,
            e.model() == (LayoutModel {
                pressed: Seq::<PressedKey>::empty(),
                taps: Seq::<u8>::empty(),
                pending_update: false,
            }),
    {
        LayoutEngine { layers, pressed: Vec::new(), taps: Vec::new(), pending_update: false }
    }

    /// Whether some held key keeps layer `l` active.
    fn layer_active(&self, l: usize) -> (r: bool)
        ensures
            r == spec_layer_active(self.pressed@, l as int),
    {
        let n = self.pressed.len();
        let mut k: usize = 0;
        while k < n
            invariant
                n == self.pressed@.len(),
                k <= n,
                forall|a: int|
                    0 <= a < k ==> !((#[trigger] self.pressed@[a]).kind
                        matches PressedKind::HeldLayer(x) && x == l),
            decreases n - k,
        {
            match self.pressed[k].kind {
                PressedKind::HeldLayer(x) => {
                    if x == l {
                        return true;
                    }
                },
                _ => {},
            }
            k = k + 1;
        }
        false
    }

    /// Index of the first held key at (`row`, `col`), if any.
    fn find_pressed(&self, row: u8, col: u8) -> (r: Option<usize>)
        ensures
            match r {
                Some(i) => spec_find_from(self.pressed@, row, col, 0) == i as int && i
                    < self.pressed@.len(),
                None => spec_find_from(self.pressed@, row, col, 0) == -1,
            },
    {
        let n = self.pressed.len();
        let mut k: usize = 0;
        while k < n
            invariant
                n == self.pressed@.len(),
                k <= n,
                spec_find_from(self.pressed@, row, col, 0) == spec_find_from(
                    self.pressed@,
                    row,
                    col,
                    k as int,
                ),
            decreases n - k,
        {
            let e = self.pressed[k];
            if e.row == row && e.col == col {
                return Some(k);
            }
            k = k + 1;
        }
        None
    }

    /// Resolve a position through the layer stack: topmost active layer with
    /// a defined action wins.
    pub fn resolve(&self, row: u8, col: u8) -> (a: Action)
        requires
            self.wf(),
            (row as int) < self.spec_rows(),
            (col as int) < self.spec_cols(),
        ensures
            a == spec_resolve(self.layers_view(), self.pressed@, row as int, col as int),
    {
        let ghost lv = self.layers_view();
        let n = self.layers.len();
        let mut l: usize = n;
        while l > 0
            invariant
                self.wf(),
                n == self.layers@.len(),
                n == lv.len(),
                lv == self.layers_view(),
                l <= n,
                (row as int) < self.spec_rows(),
                (col as int) < self.spec_cols(),
                spec_resolve(lv, self.pressed@, row as int, col as int) == spec_resolve_from(
                    lv,
                    self.pressed@,
                    l as int - 1,
                    row as int,
                    col as int,
                ),
            decreases l,
        {
            l = l - 1;
            let active = l == 0 || self.layer_active(l);
            proof {
                assert(lv[l as int] == self.layers@[l as int]@.map_values(|r: Vec<Action>| r@));
                assert(lv[l as int][row as int] == self.layers@[l as int]@[row as int]@);
            }
            if active {
                let a = self.layers[l][row as usize][col as usize];
                if !matches!(a, Action::Trans) {
                    return a;
                }
            }
        }
        Action::NoOp
    }

    /// Record one debounced press or release. Behaves exactly as
    /// `spec_event`; the layer stack never changes.
    pub fn event(&mut self, ev: KeyEvent)
        requires
            old(self).wf(),
            (ev.row as int) < old(self).spec_rows(),
            (ev.col as int) < old(self).spec_cols(),
        ensures
            final(self).layers == old(self).layers,
            final(self).wf(),
            final(self).model() == spec_event(old(self).layers_view(), old(self).model(), ev),
    {
        if ev.pressed {
            match self.find_pressed(ev.row, ev.col) {
                Some(_) => {},
                None => {
                    let a = self.resolve(ev.row, ev.col);
                    match a {
                        Action::Trans => {},
                        Action::NoOp => {},
                        Action::Key(k) => {
                            self.pressed.push(
                                PressedKey { row: ev.row, col: ev.col, kind: PressedKind::Held(k) },
                            );
                        },
                        Action::Layer(l) => {
                            self.pressed.push(
                                PressedKey {
                                    row: ev.row,
                                    col: ev.col,
                                    kind: PressedKind::HeldLayer(l),
                                },
                            );
                        },
                        Action::HoldTap { hold, tap, timeout } => {
                            self.pressed.push(
                                PressedKey {
                                    row: ev.row,
                                    col: ev.col,
                                    kind: PressedKind::Pending { hold, tap, timeout, elapsed: 0 },
                                },
                            );
                        },
                        Action::UpdateMode => {
                            self.pressed.push(
                                PressedKey {
                                    row: ev.row,
                                    col: ev.col,
                                    kind: PressedKind::HeldUpdate,
                                },
                            );
                        },
                    }
                },
            }
        } else {
            match self.find_pressed(ev.row, ev.col) {
                None => {},
                Some(i) => {
                    let e = self.pressed[i];
                    self.pressed.remove(i);
                    match e.kind {
                        PressedKind::HeldUpdate => {
                            self.pending_update = true;
                        },
                        PressedKind::Pending { tap, .. } => {
                            self.taps.push(tap);
                        },
                        _ => {},
                    }
                },
            }
        }
    }

    /// Advance one tick: resolve elapsed tap-hold timers, return the active
    /// keycodes and whether the bootloader handoff fires now, and clear the
    /// tap queue and the update flag. Behaves exactly as `spec_tick`.
    pub fn tick(&mut self) -> (out: TickOut)
        requires
            old(self).wf(),
        ensures
            final(self).layers == old(self).layers,
            final(self).wf(),
            final(self).model() == spec_tick(old(self).model()).0,
            out.keycodes@ == spec_tick(old(self).model()).1.keys,
            out.update == spec_tick(old(self).model()).1.update,
    {
        let ghost m0 = self.model();
        let n = self.pressed.len();
        let mut k: usize = 0;
        while k < n
            invariant
                n == self.pressed@.len(),
                k <= n,
                self.layers == old(self).layers,
                self.taps == old(self).taps,
                self.pending_update == old(self).pending_update,
                forall|a: int|
                    k <= a < n ==> #[trigger] self.pressed@[a] == m0.pressed[a],
                forall|a: int|
                    0 <= a < k ==> #[trigger] self.pressed@[a] == spec_advance_entry(m0.pressed[a]),
                m0 == old(self).model(),
            decreases n - k,
        {
            let e = self.pressed[k];
            match e.kind {
                PressedKind::Pending { hold, tap, timeout, elapsed } => {
                    if timeout == 0 || elapsed >= timeout - 1 {
                        match hold {
                            HoldKind::HoldLayer(l) => {
                                self.pressed[k] = PressedKey {
                                    row: e.row,
                                    col: e.col,
                                    kind: PressedKind::HeldLayer(l),
                                };
                            },
                            HoldKind::HoldKey(h) => {
                                self.pressed[k] = PressedKey {
                                    row: e.row,
                                    col: e.col,
                                    kind: PressedKind::Held(h),
                                };
                            },
                        }
                    } else {
                        self.pressed[k] = PressedKey {
                            row: e.row,
                            col: e.col,
                            kind: PressedKind::Pending {
                                hold,
                                tap,
                                timeout,
                                elapsed: elapsed + 1,
                            },
                        };
                    }
                },
                _ => {},
            }
            k = k + 1;
        }
        proof {
            assert(self.pressed@ =~= m0.pressed.map_values(|e: PressedKey| spec_advance_entry(e)));
        }
        let ghost adv = self.pressed@;
        let mut keys: Vec<u8> = Vec::new();
        let mut k2: usize = 0;
        proof {
            assert(keys@ + spec_held_keys_from(adv, 0) =~= spec_held_keys_from(adv, 0));
        }
        while k2 < n
            invariant
                n == self.pressed@.len(),
                adv == self.pressed@,
                k2 <= n,
                keys@ + spec_held_keys_from(adv, k2 as int) == spec_held_keys_from(adv, 0),
            decreases n - k2,
        {
            match self.pressed[k2].kind {
                PressedKind::Held(kc) => {
                    keys.push(kc);
                },
                _ => {},
            }
            proof {
                assert(keys@ + spec_held_keys_from(adv, k2 + 1) =~= spec_held_keys_from(adv, 0));
            }
            k2 = k2 + 1;
        }
        proof {
            assert(spec_held_keys_from(adv, n as int) =~= Seq::<u8>::empty());
            assert(keys@ =~= spec_held_keys_from(adv, 0));
        }
        keys.append(&mut self.taps);
        let update = self.pending_update;
        self.pending_update = false;
        proof {
            assert(self.taps@ =~= Seq::<u8>::empty());
        }
        TickOut { keycodes: keys, update }
    }
}

} // verus!
