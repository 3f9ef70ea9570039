//! The player's stamina rules, the forced run on an empty bar, and when
//! madness builds, eases or triggers a screamer.

use vstd::prelude::*;

verus! {

/// Raised while the player runs on an empty stamina bar; madness builds
/// while it is up.
#[derive(Debug, Clone, Copy, PartialEq, Eq, Structural)]
pub struct ForcedRun(pub bool);

/// How the stamina bar changes this frame.
#[derive(Debug, Clone, Copy, PartialEq, Eq, Structural)]
pub enum StaminaChange {
    /// Running with stamina left: the bar drains.
    Drain,
    /// Walking: the bar refills slowly.
    RegenWalk,
    /// Standing: the bar refills faster.
    RegenIdle,
    /// Running on an empty bar: nothing left to drain.
    Hold,
}

/// The player wants to run: the run key is held while moving.
pub open spec fn wants_run(shift: bool, moving: bool) -> bool {
    shift && moving
}

/// The stamina rule: running drains the bar while anything is left; not
/// running refills it, faster when standing still.
pub fn stamina_change(shift: bool, moving: bool, stamina_left: bool) -> (change: StaminaChange)
    ensures
        wants_run(shift, moving) && stamina_left ==> change == StaminaChange::Drain,
        wants_run(shift, moving) && !stamina_left ==> change == StaminaChange::Hold,
        !wants_run(shift, moving) && moving ==> change == StaminaChange::RegenWalk,
        !wants_run(shift, moving) && !moving ==> change == StaminaChange::RegenIdle,
{
    let run = shift && moving;
    if run && stamina_left {
        StaminaChange::Drain
    } else if !run {
        if moving {
            StaminaChange::RegenWalk
        } else {
            StaminaChange::RegenIdle
        }
    } else {
        StaminaChange::Hold
    }
}

/// The forced run: the player keeps running once the bar is empty.
pub fn forced_run(shift: bool, moving: bool, stamina_empty: bool) -> (f: ForcedRun)
    ensures
        f.0 == (wants_run(shift, moving) && stamina_empty),
{
    ForcedRun(shift && moving && stamina_empty)
}

/// What madness does this frame.
#[derive(Debug, Clone, Copy, PartialEq, Eq, Structural)]
pub enum MadnessPhase {
    /// A screamer is on screen: nothing changes.
    Frozen,
    /// Forced run after the cooldown: madness builds and the random
    /// screamer timer runs.
    Building,
    /// Rest: madness eases and the random timer is dropped.
    Easing,
}

/// The madness rule of one frame.
pub fn madness_phase(screamer_active: bool, forced: ForcedRun, cooldown_over: bool) -> (phase: MadnessPhase)
    ensures
        screamer_active ==> phase == MadnessPhase::Frozen,
        !screamer_active && forced.0 && cooldown_over ==> phase == MadnessPhase::Building,
        !screamer_active && !(forced.0 && cooldown_over) ==> phase == MadnessPhase::Easing,
{
    if screamer_active {
        MadnessPhase::Frozen
    } else if forced.0 && cooldown_over {
        MadnessPhase::Building
    } else {
        MadnessPhase::Easing
    }
}

/// While madness builds, a screamer fires once madness reaches its
/// threshold or the random forced-run timer has run out.
pub fn screamer_fires(phase: MadnessPhase, at_threshold: bool, random_timer_done: bool) -> (fire: bool)
    ensures
        fire == (phase == MadnessPhase::Building && (at_threshold || random_timer_done)),
{
    match phase {
        MadnessPhase::Building => at_threshold || random_timer_done,
        _ => false,
    }
}

} // verus!
