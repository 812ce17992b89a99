use keycore::report::{encode, HidReport};

#[test]
fn ten_keys_cap_at_first_six() {
    let keys: Vec<u8> = (4..14).collect();
    let r = encode(&keys);
    assert_eq!(r.keys, vec![4, 5, 6, 7, 8, 9]); // first 6 in order, rest dropped
    assert_eq!(r.modifiers, 0);
}

#[test]
fn duplicates_collapse() {
    let r = encode(&vec![4, 4, 5, 4, 5]);
    assert_eq!(r.keys, vec![4, 5]);
}

#[test]
fn modifiers_accumulate_as_bits() {
    let r = encode(&vec![0xE0, 4, 0xE1, 0xE7]);
    assert_eq!(r.modifiers, 0b1000_0011);
    assert_eq!(r.keys, vec![4]);
}

#[test]
fn null_keycode_is_dropped() {
    let r = encode(&vec![0, 4, 0]);
    assert_eq!(r.keys, vec![4]);
}

#[test]
fn empty_input_empty_report() {
    let r = encode(&Vec::new());
    assert_eq!(r.modifiers, 0);
    assert_eq!(r.keys, Vec::<u8>::new());
}

#[test]
fn wire_format_is_boot_keyboard() {
    let r = encode(&vec![0xE1, 4, 5]);
    let b = r.to_bytes();
    assert_eq!(b, vec![0b10, 0, 4, 5, 0, 0, 0, 0]);
}

#[test]
fn empty_report_wire_format() {
    let r = HidReport::empty();
    assert_eq!(r.to_bytes(), vec![0, 0, 0, 0, 0, 0, 0, 0]);
}
