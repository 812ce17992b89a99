//! Boot-keyboard HID report encoding.
//!
//! A pure function from the engine's active keycode list to the fixed-format
//! report: modifier keycodes accumulate into the modifier bitmask, every
//! other keycode is deduplicated and capped at the boot-keyboard limit of 6.
//! The cap is deterministic — the first 6 distinct keycodes in engine
//! iteration order win and the rest are dropped, by design, not as an error.

use vstd::prelude::*;

verus! {

/// HID keycodes 0xE0..=0xE7 are the eight modifiers; they live in the
/// report's bitmask, not in its keycode slots.
pub open spec fn spec_is_modifier(k: u8) -> bool {
    0xe0 <= k <= 0xe7
}

/// The modifier's bit in the report bitmask.
pub open spec fn spec_modifier_bit(k: u8) -> u8 {
    (1u8 << ((k - 0xe0) as u8)) as u8
}

/// Left-to-right accumulation of a keycode list into (modifier bitmask,
/// keycode slots): a modifier sets its bit; zero, a duplicate, or any
/// keycode past the sixth slot is dropped; everything else takes the next
/// slot. This is the whole behaviour of the encoder.
pub open spec fn spec_encode_acc(s: Seq<u8>, mods: u8, keys: Seq<u8>) -> (u8, Seq<u8>)
    decreases s.len(),
{
    if s.len() <= 0 {
        (mods, keys)
    } else {
        let k = s[0];
        if spec_is_modifier(k) {
            spec_encode_acc(s.drop_first(), mods | spec_modifier_bit(k), keys)
        } else if k == 0 || keys.contains(k) || keys.len() >= 6 {
            spec_encode_acc(s.drop_first(), mods, keys)
        } else {
            spec_encode_acc(s.drop_first(), mods, keys.push(k))
        }
    }
}

/// The report a keycode list encodes to.
pub open spec fn spec_encode(s: Seq<u8>) -> (u8, Seq<u8>) {
    spec_encode_acc(s, 0, Seq::empty())
}

/// No keycode appears in two slots.
pub open spec fn spec_no_dups(s: Seq<u8>) -> bool {
    forall|i: int, j: int| 0 <= i < j < s.len() ==> #[trigger] s[i] != #[trigger] s[j]
}

/// However many keys are active at once, the encoder fills at most 6 slots,
/// never a duplicate, never a modifier or the null keycode.
pub proof fn lemma_encode_bounded(s: Seq<u8>, mods: u8, keys: Seq<u8>)
    requires
        keys.len() <= 6,
        spec_no_dups(keys),
        forall|i: int| 0 <= i < keys.len() ==> !spec_is_modifier(#[trigger] keys[i]) && keys[i] != 0,
    ensures
        spec_encode_acc(s, mods, keys).1.len() <= 6,
        spec_no_dups(spec_encode_acc(s, mods, keys).1),
        forall|i: int|
            0 <= i < spec_encode_acc(s, mods, keys).1.len() ==> !spec_is_modifier(
                #[trigger] spec_encode_acc(s, mods, keys).1[i],
            ) && spec_encode_acc(s, mods, keys).1[i] != 0,
    decreases s.len(),
{
    if s.len() > 0 {
        let k = s[0];
        if spec_is_modifier(k) {
            lemma_encode_bounded(s.drop_first(), mods | spec_modifier_bit(k), keys);
        } else if k == 0 || keys.contains(k) || keys.len() >= 6 {
            lemma_encode_bounded(s.drop_first(), mods, keys);
        } else {
            let keys2 = keys.push(k);
            assert forall|i: int, j: int|
                0 <= i < j < keys2.len() implies #[trigger] keys2[i] != #[trigger] keys2[j] by {
                if j == keys2.len() - 1 {
                    assert(!keys.contains(k));
                    assert(keys2[i] == keys[i]);
                }
            }
            lemma_encode_bounded(s.drop_first(), mods, keys2);
        }
    }
}

/// A boot-keyboard report: the modifier bitmask and up to 6 distinct
/// non-modifier keycodes, in the order they were accepted.
#[derive(PartialEq, Eq, Debug)]
pub struct HidReport {
    pub modifiers: u8,
    pub keys: Vec<u8>,
}

impl HidReport {
    /// A well-formed report never exceeds the boot-keyboard limit.
    pub open spec fn wf(self) -> bool {
        &&& self.keys@.len() <= 6
        &&& spec_no_dups(self.keys@)
    }

    /// The empty report: no modifier, no key.
    pub fn empty() -> (r: HidReport)
        ensures
            r.wf(),
            r.modifiers == 0,
            r.keys@ == Seq::<u8>::empty(),
    {
        HidReport { modifiers: 0, keys: Vec::new() }
    }

    /// The 8-byte wire form: modifier byte, reserved zero byte, then the 6
    /// keycode slots, unused slots zero.
    pub fn to_bytes(&self) -> (b: Vec<u8>)
        requires
            self.wf(),
        ensures
            b@.len() == 8,
            b@[0] == self.modifiers,
            b@[1] == 0,
            forall|i: int|
                0 <= i < 6 ==> b@[2 + i] == (if i < self.keys@.len() {
                    self.keys@[i]
                } else {
                    0
                }),
    {
        let mut b: Vec<u8> = Vec::new();
        b.push(self.modifiers);
        b.push(0);
        b.push(if self.keys.len() > 0 { self.keys[0] } else { 0 });
        b.push(if self.keys.len() > 1 { self.keys[1] } else { 0 });
        b.push(if self.keys.len() > 2 { self.keys[2] } else { 0 });
        b.push(if self.keys.len() > 3 { self.keys[3] } else { 0 });
        b.push(if self.keys.len() > 4 { self.keys[4] } else { 0 });
        b.push(if self.keys.len() > 5 { self.keys[5] } else { 0 });
        b
    }
}

/// Whether `v` holds `k`.
fn vec_contains(v: &Vec<u8>, k: u8) -> (r: bool)
    ensures
        r == v@.contains(k),
{
    let n = v.len();
    let mut i: usize = 0;
    while i < n
        invariant
            n == v@.len(),
            i <= n,
            forall|j: int| 0 <= j < i ==> v@[j] != k,
        decreases n - i,
    {
        if v[i] == k {
            return true;
        }
        i = i + 1;
    }
    false
}

/// Encode the engine's active keycodes into a report. Deduplicates, caps at
/// 6 non-modifier keys — first 6 in iteration order win, extras are dropped
/// silently — and accumulates modifier bits separately, exactly as
/// `spec_encode` says.
pub fn encode(keycodes: &Vec<u8>) -> (r: HidReport)
    ensures
        r.modifiers == spec_encode(keycodes@).0,
        r.keys@ == spec_encode(keycodes@).1,
        r.wf(),
{
    let s = keycodes;
    let n = s.len();
    let mut mods: u8 = 0;
    let mut keys: Vec<u8> = Vec::new();
    let mut i: usize = 0;
    proof {
        assert(s@.skip(0) =~= s@);
    }
    while i < n
        invariant
            n == s@.len(),
            i <= n,
            spec_encode(s@) == spec_encode_acc(s@.skip(i as int), mods, keys@),
        decreases n - i,
    {
        let k = s[i];
        proof {
            assert(s@.skip(i as int)[0] == s@[i as int]);
            assert(s@.skip(i as int).drop_first() =~= s@.skip(i + 1));
        }
        if k >= 0xe0 && k <= 0xe7 {
            mods = mods | (1u8 << (k - 0xe0));
        } else if k == 0 || vec_contains(&keys, k) || keys.len() >= 6 {
        } else {
            keys.push(k);
        }
        i = i + 1;
    }
    proof {
        assert(s@.skip(n as int) =~= Seq::<u8>::empty());
        lemma_encode_bounded(s@, 0, Seq::empty());
    }
    HidReport { modifiers: mods, keys }
}

} // verus!
