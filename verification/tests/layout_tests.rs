use keycore::debounce::KeyEvent;
use keycore::layout::{layers_cover_grid, Action, HoldKind, LayoutEngine};

const KEY_A: u8 = 0x04;
const KEY_B: u8 = 0x05;
const KEY_C: u8 = 0x06;

fn press(row: u8, col: u8) -> KeyEvent {
    KeyEvent { row, col, pressed: true }
}

fn release(row: u8, col: u8) -> KeyEvent {
    KeyEvent { row, col, pressed: false }
}

/// One row, three columns, two layers:
///   base:    [layer-shift to 1,  'A',      'C']
///   layer 1: [transparent,       'B',      transparent]
fn two_layer_engine() -> LayoutEngine {
    let layers = vec![
        vec![vec![Action::Layer(1), Action::Key(KEY_A), Action::Key(KEY_C)]],
        vec![vec![Action::Trans, Action::Key(KEY_B), Action::Trans]],
    ];
    LayoutEngine::new(layers)
}

#[test]
fn layer_shift_selects_upper_layer_and_release_reverts() {
    let mut e = two_layer_engine();
    // pressing layer-shift then P yields the upper layer's action for P
    e.event(press(0, 0));
    e.event(press(0, 1));
    let out = e.tick();
    assert_eq!(out.keycodes, vec![KEY_B]);
    // releasing P then the shift reverts subsequent presses to the base layer
    e.event(release(0, 1));
    e.event(release(0, 0));
    let out = e.tick();
    assert_eq!(out.keycodes, Vec::<u8>::new());
    e.event(press(0, 1));
    let out = e.tick();
    assert_eq!(out.keycodes, vec![KEY_A]);
}

#[test]
fn transparent_position_falls_through_to_base() {
    let mut e = two_layer_engine();
    e.event(press(0, 0));
    e.event(press(0, 2));
    let out = e.tick();
    // layer 1 is active but leaves column 2 transparent: base 'C' wins
    assert_eq!(out.keycodes, vec![KEY_C]);
}

#[test]
fn key_resolved_at_press_survives_layer_release() {
    let mut e = two_layer_engine();
    e.event(press(0, 0));
    e.event(press(0, 1)); // resolves to 'B'
    e.event(release(0, 0)); // shift released while 'B' still held
    let out = e.tick();
    assert_eq!(out.keycodes, vec![KEY_B]);
}

#[test]
fn taphold_released_early_taps() {
    let layers = vec![vec![vec![
        Action::HoldTap { hold: HoldKind::HoldLayer(1), tap: KEY_A, timeout: 3 },
        Action::Key(KEY_B),
    ]], vec![vec![Action::Trans, Action::Trans]]];
    let mut e = LayoutEngine::new(layers);
    e.event(press(0, 0));
    let out = e.tick();
    assert_eq!(out.keycodes, Vec::<u8>::new()); // still undecided
    e.event(release(0, 0)); // released within the timeout: tap
    let out = e.tick();
    assert_eq!(out.keycodes, vec![KEY_A]); // tap fires for one tick
    let out = e.tick();
    assert_eq!(out.keycodes, Vec::<u8>::new());
}

#[test]
fn taphold_held_past_timeout_holds() {
    let layers = vec![
        vec![vec![
            Action::HoldTap { hold: HoldKind::HoldLayer(1), tap: KEY_A, timeout: 3 },
            Action::Key(KEY_B),
        ]],
        vec![vec![Action::Trans, Action::Key(KEY_C)]],
    ];
    let mut e = LayoutEngine::new(layers);
    e.event(press(0, 0));
    e.tick();
    e.tick();
    e.tick(); // timeout reached: resolves as the hold action (layer 1)
    e.event(press(0, 1));
    let out = e.tick();
    assert_eq!(out.keycodes, vec![KEY_C]);
}

#[test]
fn update_mode_fires_on_release_only_and_only_once() {
    let layers = vec![vec![vec![Action::UpdateMode, Action::Key(KEY_A)]]];
    let mut e = LayoutEngine::new(layers);
    e.event(press(0, 0));
    let out = e.tick();
    assert!(!out.update); // pressing alone does nothing
    let out = e.tick();
    assert!(!out.update);
    e.event(release(0, 0));
    let out = e.tick();
    assert!(out.update); // the release fires it
    let out = e.tick();
    assert!(!out.update); // and exactly once
}

#[test]
fn noop_stops_fallthrough() {
    let layers = vec![
        vec![vec![Action::Layer(1), Action::Key(KEY_A)]],
        vec![vec![Action::Trans, Action::NoOp]],
    ];
    let mut e = LayoutEngine::new(layers);
    e.event(press(0, 0));
    e.event(press(0, 1)); // layer 1 defines NoOp: no key, no fallthrough
    let out = e.tick();
    assert_eq!(out.keycodes, Vec::<u8>::new());
}

#[test]
fn layers_cover_grid_checks_shape() {
    let good = vec![vec![vec![Action::NoOp, Action::NoOp]]];
    assert!(layers_cover_grid(&good, 1, 2));
    assert!(!layers_cover_grid(&good, 1, 3));
    assert!(!layers_cover_grid(&good, 2, 2));
    let empty: Vec<Vec<Vec<Action>>> = Vec::new();
    assert!(!layers_cover_grid(&empty, 1, 1));
    let ragged = vec![vec![vec![Action::NoOp, Action::NoOp]], vec![vec![Action::NoOp]]];
    assert!(!layers_cover_grid(&ragged, 1, 2));
}
