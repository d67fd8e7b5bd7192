//! Per-cycle decision of the capture-state enforcer.
//!
//! The enforcer thread repeatedly reads the capture switch of every channel
//! of the mixer control and compares the readings with the shared desired
//! capture state. The decision of one cycle is pure: given the per-channel
//! readings and the desired value, either write the desired value to every
//! channel, or leave the hardware alone. Waiting for hardware change
//! notifications and reopening a stale handle are the caller's concern.

use vstd::prelude::*;

verus! {

/// The unanimous value of a sequence of per-channel readings: `Some(v)` when
/// the sequence is non-empty and every reading equals `v`, `None` when the
/// readings disagree or there are none.
pub open spec fn unanimous_spec(s: Seq<bool>) -> Option<bool> {
    if s.len() > 0 && (forall|i: int| 0 <= i < s.len() ==> #[trigger] s[i] == s[0]) {
        Some(s[0])
    } else {
        None
    }
}

/// The write an enforcer cycle performs: `Some(v)` directs the caller to set
/// the capture switch of every channel to `v`; `None` means no write.
pub open spec fn correction_spec(readings: Seq<bool>, desired: bool) -> Option<bool> {
    match unanimous_spec(readings) {
        Some(v) => if v != desired {
            Some(desired)
        } else {
            None
        },
        None => None,
    }
}

/// Overall state reported by the channels: the unanimous value, or `None`
/// when the channels disagree (the state is treated as indeterminate, e.g.
/// mid-change by an external mixer tool) or nothing could be read.
pub fn unanimous_capture_state(readings: &Vec<bool>) -> (r: Option<bool>)
    ensures
        r == unanimous_spec(readings@),
{
    if readings.len() == 0 {
        return None;
    }
    let first = readings[0];
    let mut i: usize = 1;
    while i < readings.len()
        invariant
            1 <= i <= readings@.len(),
            forall|j: int| 0 <= j < i ==> #[trigger] readings@[j] == readings@[0],
            first == readings@[0],
        decreases readings@.len() - i,
    {
        if readings[i] != first {
            return None;
        }
        i += 1;
    }
    Some(first)
}

/// One enforcer cycle's decision. Returns `Some(desired)` exactly when the
/// channels unanimously report the opposite of the desired state; the caller
/// then writes `desired` to every channel. Disagreeing channels, or channels
/// already in agreement with the intent, cause no write. The desired state
/// itself is never changed here: the enforcer only corrects hardware drift.
pub fn plan_correction(readings: &Vec<bool>, desired: bool) -> (r: Option<bool>)
    ensures
        r == correction_spec(readings@, desired),
        unanimous_spec(readings@) == Some(!desired) ==> r == Some(desired),
        unanimous_spec(readings@) is None ==> r is None,
        unanimous_spec(readings@) == Some(desired) ==> r is None,
{
    match unanimous_capture_state(readings) {
        Some(actual) => {
            if actual != desired {
                Some(desired)
            } else {
                None
            }
        },
        None => None,
    }
}

} // verus!
