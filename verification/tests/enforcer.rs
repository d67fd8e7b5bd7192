use push_to_talk::enforcer::{plan_correction, unanimous_capture_state};

#[test]
fn unanimous_readings_report_their_value() {
    assert_eq!(unanimous_capture_state(&vec![true, true, true]), Some(true));
    assert_eq!(unanimous_capture_state(&vec![false, false]), Some(false));
    assert_eq!(unanimous_capture_state(&vec![true]), Some(true));
}

#[test]
fn disagreeing_readings_are_indeterminate() {
    assert_eq!(unanimous_capture_state(&vec![true, false]), None);
    assert_eq!(unanimous_capture_state(&vec![false, true, false]), None);
}

#[test]
fn no_readings_are_indeterminate() {
    assert_eq!(unanimous_capture_state(&Vec::new()), None);
}

#[test]
fn unanimous_drift_is_corrected_to_the_desired_value() {
    // Every channel reports unmuted while the intent is muted: write the
    // intent to every channel.
    assert_eq!(plan_correction(&vec![true, true], false), Some(false));
    // And the other way round.
    assert_eq!(plan_correction(&vec![false, false, false], true), Some(true));
}

#[test]
fn disagreeing_channels_cause_no_write() {
    assert_eq!(plan_correction(&vec![true, false], false), None);
    assert_eq!(plan_correction(&vec![true, false], true), None);
}

#[test]
fn agreement_with_the_intent_causes_no_write() {
    assert_eq!(plan_correction(&vec![true, true], true), None);
    assert_eq!(plan_correction(&vec![false, false], false), None);
}
