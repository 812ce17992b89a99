use keycore::config::{sample_or_rest, KeyboardConfig};
use keycore::debounce::{CellState, Debouncer, KeyEvent};

fn test_config() -> KeyboardConfig {
    KeyboardConfig {
        north_down: false,
        actuation_threshold: 100,
        release_threshold: 50,
        ignore_below: 20,
        recalibration_rate: 1000,
        num_multiplexers: 1,
        max_channels: 1,
        usb_vid: 0x1234,
        usb_pid: 0x5678,
    }
}

fn one_tick(d: &mut Debouncer, raw: u16) -> Vec<KeyEvent> {
    d.events(&vec![vec![raw]])
}

#[test]
fn noise_below_ignore_emits_nothing() {
    let mut d = Debouncer::new(test_config(), 5, 500);
    let mut total = 0;
    for raw in [500u16, 510, 519, 481, 505, 515, 490, 500, 519, 481] {
        total += one_tick(&mut d, raw).len();
    }
    assert_eq!(total, 0);
    assert_eq!(d.cells[0][0].state, CellState::Idle);
}

#[test]
fn ramp_held_past_window_presses_exactly_once() {
    let mut d = Debouncer::new(test_config(), 5, 500);
    let mut events: Vec<(usize, bool)> = Vec::new();
    for tick in 0..8 {
        for e in one_tick(&mut d, 650) {
            events.push((tick, e.pressed));
        }
    }
    // one press, at the tick that completes the 5-tick window
    assert_eq!(events, vec![(4, true)]);
    assert_eq!(d.cells[0][0].state, CellState::Actuated);
}

#[test]
fn single_tick_spike_emits_nothing() {
    let mut d = Debouncer::new(test_config(), 5, 500);
    let mut total = 0;
    total += one_tick(&mut d, 650).len();
    total += one_tick(&mut d, 500).len();
    total += one_tick(&mut d, 500).len();
    assert_eq!(total, 0);
    assert_eq!(d.cells[0][0].state, CellState::Idle);
    assert_eq!(d.cells[0][0].baseline, 500);
}

#[test]
fn release_held_past_window_releases_exactly_once() {
    let mut d = Debouncer::new(test_config(), 5, 500);
    for _ in 0..5 {
        one_tick(&mut d, 650);
    }
    assert_eq!(d.cells[0][0].state, CellState::Actuated);
    let mut events: Vec<(usize, bool)> = Vec::new();
    for tick in 0..8 {
        // deviation 20 is under the release threshold of 50
        for e in one_tick(&mut d, 520) {
            events.push((tick, e.pressed));
        }
    }
    assert_eq!(events, vec![(4, false)]);
    assert_eq!(d.cells[0][0].state, CellState::Idle);
}

#[test]
fn equal_thresholds_boundary_holds_the_press() {
    let mut cfg = test_config();
    cfg.release_threshold = 100; // equal to actuation_threshold
    let mut d = Debouncer::new(cfg, 5, 500);
    let mut events: Vec<bool> = Vec::new();
    // deviation exactly on both thresholds, held
    for _ in 0..20 {
        for e in one_tick(&mut d, 600) {
            events.push(e.pressed);
        }
    }
    // one press, then a defined, non-oscillating hold
    assert_eq!(events, vec![true]);
    assert_eq!(d.cells[0][0].state, CellState::Actuated);
}

#[test]
fn recalibration_nudges_idle_baseline() {
    let mut cfg = test_config();
    cfg.recalibration_rate = 10;
    let mut d = Debouncer::new(cfg, 5, 500);
    // deviation 30: over the noise floor but far under actuation, so the
    // cell stays idle and, after 10 idle ticks, recalibrates
    for _ in 0..10 {
        assert_eq!(one_tick(&mut d, 530).len(), 0);
    }
    assert_eq!(d.cells[0][0].baseline, 515);
    assert_eq!(d.cells[0][0].state, CellState::Idle);
}

#[test]
fn held_key_never_recalibrates() {
    let mut cfg = test_config();
    cfg.recalibration_rate = 10;
    let mut d = Debouncer::new(cfg, 5, 500);
    // hold the key far past the recalibration period
    for _ in 0..50 {
        one_tick(&mut d, 650);
    }
    assert_eq!(d.cells[0][0].state, CellState::Actuated);
    assert_eq!(d.cells[0][0].baseline, 500);
}

#[test]
fn north_down_presses_on_decreasing_values() {
    let mut cfg = test_config();
    cfg.north_down = true;
    let mut d = Debouncer::new(cfg, 5, 500);
    let mut events: Vec<bool> = Vec::new();
    for _ in 0..6 {
        for e in one_tick(&mut d, 350) {
            events.push(e.pressed);
        }
    }
    assert_eq!(events, vec![true]);
    // increasing values never press
    let mut d2 = Debouncer::new(cfg, 5, 500);
    let mut total = 0;
    for _ in 0..6 {
        total += one_tick(&mut d2, 650).len();
    }
    assert_eq!(total, 0);
}

#[test]
fn events_come_in_scan_order() {
    let mut cfg = test_config();
    cfg.num_multiplexers = 2;
    cfg.max_channels = 2;
    let mut d = Debouncer::new(cfg, 1, 500);
    // window of 1: every cell presses on the first tick
    let evs = d.events(&vec![vec![650, 650], vec![650, 650]]);
    let positions: Vec<(u8, u8)> = evs.iter().map(|e| (e.row, e.col)).collect();
    assert_eq!(positions, vec![(0, 0), (0, 1), (1, 0), (1, 1)]);
    assert!(evs.iter().all(|e| e.pressed));
}

#[test]
fn missing_sample_reads_as_rest() {
    assert_eq!(sample_or_rest(None, 500), 500);
    assert_eq!(sample_or_rest(Some(7), 500), 7);
}
