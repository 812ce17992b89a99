use keycore::config::KeyboardConfig;
use keycore::layout::Action;
use keycore::report::HidReport;
use keycore::sched::{Keyboard, Outbox, RetryPolicy};

const KEY_A: u8 = 0x04;
const KEY_B: u8 = 0x05;

fn test_config() -> KeyboardConfig {
    KeyboardConfig {
        north_down: false,
        actuation_threshold: 100,
        release_threshold: 50,
        ignore_below: 20,
        recalibration_rate: 1000,
        num_multiplexers: 1,
        max_channels: 2,
        usb_vid: 0x1234,
        usb_pid: 0x5678,
    }
}

fn base_layers() -> Vec<Vec<Vec<Action>>> {
    vec![vec![vec![Action::Key(KEY_A), Action::Key(KEY_B)]]]
}

#[test]
fn pipeline_reports_a_debounced_press() {
    let mut k = Keyboard::try_new(test_config(), 2, 500, base_layers()).unwrap();
    // held press on channel 0, channel 1 at rest
    let held = vec![vec![650u16, 500]];
    let r1 = k.tick(&held);
    assert_eq!(r1.report.keys, Vec::<u8>::new()); // within the chatter window
    let r2 = k.tick(&held);
    assert_eq!(r2.report.keys, vec![KEY_A]); // confirmed on the 2nd tick
    assert!(!r2.enter_update);
    let r3 = k.tick(&held);
    assert_eq!(r3.report.keys, vec![KEY_A]); // still held
    assert_eq!(r3.report.to_bytes(), vec![0, 0, KEY_A, 0, 0, 0, 0, 0]);
}

#[test]
fn pipeline_fires_update_once_on_release() {
    let layers = vec![vec![vec![Action::UpdateMode, Action::Key(KEY_B)]]];
    let mut k = Keyboard::try_new(test_config(), 2, 500, layers).unwrap();
    let held = vec![vec![650u16, 500]];
    let rest = vec![vec![500u16, 500]];
    assert!(!k.tick(&held).enter_update);
    assert!(!k.tick(&held).enter_update); // press confirmed: still nothing
    assert!(!k.tick(&held).enter_update);
    assert!(!k.tick(&rest).enter_update); // release within chatter window
    assert!(k.tick(&rest).enter_update); // confirmed release: fires now
    assert!(!k.tick(&rest).enter_update); // and never again
}

#[test]
fn ten_simultaneous_keys_cap_at_six_end_to_end() {
    let mut cfg = test_config();
    cfg.max_channels = 10;
    let layers = vec![vec![(4u8..14).map(Action::Key).collect::<Vec<Action>>()]];
    let mut k = Keyboard::try_new(cfg, 1, 500, layers).unwrap();
    let all_pressed = vec![vec![650u16; 10]];
    let r = k.tick(&all_pressed);
    // first 6 in scan order win; the 4 extras are dropped deterministically
    assert_eq!(r.report.keys, vec![4, 5, 6, 7, 8, 9]);
    let r2 = k.tick(&all_pressed);
    assert_eq!(r2.report.keys, vec![4, 5, 6, 7, 8, 9]);
}

#[test]
fn try_new_rejects_bad_shapes_and_configs() {
    assert!(Keyboard::try_new(test_config(), 0, 500, base_layers()).is_none());
    let mut bad = test_config();
    bad.release_threshold = 200; // more demanding than actuation
    assert!(Keyboard::try_new(bad, 2, 500, base_layers()).is_none());
    let ragged = vec![vec![vec![Action::Key(KEY_A)]]]; // 1 column, grid has 2
    assert!(Keyboard::try_new(test_config(), 2, 500, ragged).is_none());
    assert!(Keyboard::try_new(test_config(), 2, 500, base_layers()).is_some());
}

#[test]
fn outbox_holds_latest_report_and_drains_once() {
    let mut o = Outbox::new();
    assert_eq!(o.take(), None);
    o.publish(HidReport { modifiers: 1, keys: vec![4] });
    o.publish(HidReport { modifiers: 2, keys: vec![5] });
    let got = o.take().unwrap();
    assert_eq!(got.modifiers, 2);
    assert_eq!(got.keys, vec![5]);
    assert_eq!(o.take(), None);
}

#[test]
fn serial_retry_is_bounded() {
    let p = RetryPolicy { max_attempts: 3 };
    assert!(p.should_retry(0, 0));
    assert!(p.should_retry(2, 0));
    assert!(!p.should_retry(3, 0)); // attempts exhausted
    assert!(!p.should_retry(0, 8)); // something was written
}
