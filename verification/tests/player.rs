use forgotten_walls::player::{
    forced_run, madness_phase, screamer_fires, stamina_change, ForcedRun, MadnessPhase, StaminaChange,
};

#[test]
fn stamina_rules() {
    assert_eq!(stamina_change(true, true, true), StaminaChange::Drain);
    assert_eq!(stamina_change(true, true, false), StaminaChange::Hold);
    assert_eq!(stamina_change(false, true, false), StaminaChange::RegenWalk);
    assert_eq!(stamina_change(true, false, true), StaminaChange::RegenIdle);
    assert_eq!(stamina_change(false, false, true), StaminaChange::RegenIdle);
}

#[test]
fn forced_run_needs_running_on_empty() {
    assert_eq!(forced_run(true, true, true), ForcedRun(true));
    assert_eq!(forced_run(true, true, false), ForcedRun(false));
    assert_eq!(forced_run(false, true, true), ForcedRun(false));
    assert_eq!(forced_run(true, false, true), ForcedRun(false));
}

#[test]
fn madness_rules() {
    assert_eq!(madness_phase(true, ForcedRun(true), true), MadnessPhase::Frozen);
    assert_eq!(madness_phase(false, ForcedRun(true), true), MadnessPhase::Building);
    assert_eq!(madness_phase(false, ForcedRun(true), false), MadnessPhase::Easing);
    assert_eq!(madness_phase(false, ForcedRun(false), true), MadnessPhase::Easing);
    assert!(screamer_fires(MadnessPhase::Building, true, false));
    assert!(screamer_fires(MadnessPhase::Building, false, true));
    assert!(!screamer_fires(MadnessPhase::Building, false, false));
    assert!(!screamer_fires(MadnessPhase::Easing, true, true));
    assert!(!screamer_fires(MadnessPhase::Frozen, true, true));
}
