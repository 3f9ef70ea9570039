//! The decisions of the stalker ("the Fade") of the second and third
//! acts: patrol, stare, hunt, flee from the torch, and the catch.

use vstd::prelude::*;

use crate::game::GameState;

verus! {

/// The stalker's behaviour.
#[derive(Debug, Clone, Copy, PartialEq, Eq, Structural)]
pub enum MonsterState {
    /// Wanders the corridors (second act).
    Patrol,
    /// Runs the player down (third act).
    Chasing,
    /// Flees from the direct torch beam.
    Retreating,
}

/// The pace the stalker moves at.
#[derive(Debug, Clone, Copy, PartialEq, Eq, Structural)]
pub enum MonsterPace {
    Patrol,
    Chase,
    Retreat,
}

/// How the stalker moves this frame.
#[derive(Debug, Clone, Copy, PartialEq, Eq, Structural)]
pub enum MonsterMove {
    /// Away from the player, facing away.
    FleeFromPlayer,
    /// Toward the player, facing the player.
    ChasePlayer,
    /// Stand still, facing the player.
    StareAtPlayer,
    /// Pick a new random patrol target.
    NewPatrolTarget,
    /// Walk toward the current patrol target.
    WalkToPatrolTarget,
    /// Stay put.
    Hold,
}

/// What the stalker perceives this frame.
#[derive(Debug, Clone, Copy, PartialEq, Eq, Structural)]
pub struct MonsterSenses {
    /// The lit torch points at it, in range, with no wall between.
    pub lit: bool,
    /// Its state timer has run past the retreat time.
    pub retreat_time_up: bool,
    /// The player is within staring distance.
    pub player_near: bool,
    /// Its state timer has run past the re-path time, or it reached its
    /// patrol target.
    pub repath_due: bool,
    /// The player is within catching distance and the catch cooldown is
    /// over.
    pub can_catch: bool,
}

/// The decision of one frame.
#[derive(Debug, Clone, Copy, PartialEq, Eq, Structural)]
pub struct MonsterStep {
    pub state: MonsterState,
    /// The pace kept for the next frame.
    pub pace: MonsterPace,
    /// The pace of this frame's movement (before a catch changes it).
    pub move_pace: MonsterPace,
    pub movement: MonsterMove,
    /// The state timer starts again from zero.
    pub reset_timer: bool,
    /// The stalker caught the player: madness boils over and the catch
    /// cooldown starts.
    pub caught: bool,
}

/// A freshly placed stalker patrols, at patrol pace.
pub fn spawned_monster() -> (start: (MonsterState, MonsterPace))
    ensures
        start == (MonsterState::Patrol, MonsterPace::Patrol),
{
    (MonsterState::Patrol, MonsterPace::Patrol)
}

/// The state after the torch check: a lit stalker that is not already
/// fleeing starts to flee.
pub open spec fn after_light(state: MonsterState, lit: bool) -> MonsterState {
    if lit && state != MonsterState::Retreating { MonsterState::Retreating } else { state }
}

/// The state the behaviour leads to, before any catch.
pub open spec fn behaviour_state(state: MonsterState, act: GameState, s: MonsterSenses) -> MonsterState {
    let lit_now = s.lit && state != MonsterState::Retreating;
    match after_light(state, s.lit) {
        MonsterState::Retreating => if s.retreat_time_up && !lit_now {
            if act is Act3_TheReactor { MonsterState::Chasing } else { MonsterState::Patrol }
        } else {
            MonsterState::Retreating
        },
        MonsterState::Chasing => if act is Act3_TheReactor { MonsterState::Chasing } else { MonsterState::Patrol },
        MonsterState::Patrol => if act is Act3_TheReactor { MonsterState::Chasing } else { MonsterState::Patrol },
    }
}

/// Whether the state timer starts again, before any catch: when the torch
/// starts a flight, when a flight ends, when the state changes between
/// hunt and patrol, and when a patrol picks a new target.
pub open spec fn resets_timer(state: MonsterState, act: GameState, s: MonsterSenses) -> bool {
    let lit_now = s.lit && state != MonsterState::Retreating;
    ||| lit_now
    ||| match after_light(state, s.lit) {
        MonsterState::Retreating => s.retreat_time_up && !lit_now,
        MonsterState::Chasing => !(act is Act3_TheReactor),
        MonsterState::Patrol => act is Act3_TheReactor || (!s.player_near && s.repath_due),
    }
}

/// The pace of this frame's movement: the torch and the hunt set their
/// paces, a patrol walks at patrol pace, otherwise the pace is kept.
pub open spec fn movement_pace(state: MonsterState, pace: MonsterPace, act: GameState, lit: bool) -> MonsterPace {
    if lit && state != MonsterState::Retreating {
        MonsterPace::Retreat
    } else {
        match state {
            MonsterState::Retreating => pace,
            MonsterState::Chasing => if act is Act3_TheReactor { MonsterPace::Chase } else { pace },
            MonsterState::Patrol => MonsterPace::Patrol,
        }
    }
}

/// One frame of the stalker in the second or third act. The torch comes
/// first: a lit stalker that is not fleeing starts fleeing. Then by state:
/// a fleeing stalker runs off until its retreat time is up, then hunts (third
/// act) or patrols (second); a chasing one hunts in the third act and
/// falls back to patrol otherwise; a patrolling one starts hunting in the
/// third act, stares at a nearby player in the second, and otherwise walks
/// its patrol, picking a new target when due. Whatever the state, a catch
/// turns it to flee. Outside those two acts it does nothing.
pub fn monster_step(state: MonsterState, pace: MonsterPace, act: GameState, senses: MonsterSenses) -> (step: MonsterStep)
    ensures
        !(act is Act2_TheInsanity || act is Act3_TheReactor) ==> step == (MonsterStep {
            state, pace, move_pace: pace, movement: MonsterMove::Hold, reset_timer: false, caught: false,
        }),
        (act is Act2_TheInsanity || act is Act3_TheReactor) ==> {
            &&& step.caught == senses.can_catch
            &&& step.move_pace == movement_pace(state, pace, act, senses.lit)
            &&& !senses.can_catch ==> step.pace == step.move_pace
            &&& senses.can_catch ==> step.state == MonsterState::Retreating && step.pace == MonsterPace::Retreat
                && step.reset_timer
            &&& !senses.can_catch ==> step.state == behaviour_state(state, act, senses)
            &&& !senses.can_catch ==> step.reset_timer == resets_timer(state, act, senses)
            &&& after_light(state, senses.lit) == MonsterState::Retreating ==> step.movement == MonsterMove::FleeFromPlayer
            &&& after_light(state, senses.lit) == MonsterState::Chasing ==> step.movement == (if act is Act3_TheReactor {
                MonsterMove::ChasePlayer } else { MonsterMove::Hold })
            &&& after_light(state, senses.lit) == MonsterState::Patrol ==> step.movement == (
                if act is Act3_TheReactor { MonsterMove::Hold }
                else if senses.player_near { MonsterMove::StareAtPlayer }
                else if senses.repath_due { MonsterMove::NewPatrolTarget }
                else { MonsterMove::WalkToPatrolTarget })
        },
        // Under the direct beam, a stalker that was not fleeing flees.
        (act is Act2_TheInsanity || act is Act3_TheReactor) && senses.lit && state != MonsterState::Retreating
            ==> step.state == MonsterState::Retreating && step.movement == MonsterMove::FleeFromPlayer,
        // A flight keeps the pace it began with until something else happens.
        (act is Act2_TheInsanity || act is Act3_TheReactor) && state == MonsterState::Retreating && !senses.can_catch
            ==> step.move_pace == pace && step.pace == pace,
        // A catch sends it off at retreat pace, whatever it was doing.
        (act is Act2_TheInsanity || act is Act3_TheReactor) && senses.can_catch
            ==> step.pace == MonsterPace::Retreat && step.state == MonsterState::Retreating,
        // The stalker never patrols in the reactor act and never hunts in the second.
        act is Act3_TheReactor ==> step.state != MonsterState::Patrol,
        act is Act2_TheInsanity ==> step.state != MonsterState::Chasing,
{
    let is_act3 = match act {
        GameState::Act3_TheReactor => true,
        _ => false,
    };
    let is_act2 = match act {
        GameState::Act2_TheInsanity => true,
        _ => false,
    };
    if !is_act2 && !is_act3 {
        return MonsterStep { state, pace, move_pace: pace, movement: MonsterMove::Hold, reset_timer: false, caught: false };
    }
    let mut state = state;
    let mut pace = pace;
    let mut reset_timer = false;
    let mut timer_up = senses.retreat_time_up;
    let not_fleeing = match state {
        MonsterState::Retreating => false,
        _ => true,
    };
    if senses.lit && not_fleeing {
        state = MonsterState::Retreating;
        reset_timer = true;
        timer_up = false;
        pace = MonsterPace::Retreat;
    }
    let movement = match state {
        MonsterState::Retreating => {
            if timer_up {
                state = if is_act3 { MonsterState::Chasing } else { MonsterState::Patrol };
                reset_timer = true;
            }
            MonsterMove::FleeFromPlayer
        },
        MonsterState::Chasing => {
            if !is_act3 {
                state = MonsterState::Patrol;
                reset_timer = true;
                MonsterMove::Hold
            } else {
                pace = MonsterPace::Chase;
                MonsterMove::ChasePlayer
            }
        },
        MonsterState::Patrol => {
            pace = MonsterPace::Patrol;
            if is_act3 {
                state = MonsterState::Chasing;
                reset_timer = true;
                MonsterMove::Hold
            } else if senses.player_near {
                MonsterMove::StareAtPlayer
            } else if senses.repath_due {
                reset_timer = true;
                MonsterMove::NewPatrolTarget
            } else {
                MonsterMove::WalkToPatrolTarget
            }
        },
    };
    let move_pace = pace;
    if senses.can_catch {
        state = MonsterState::Retreating;
        reset_timer = true;
        pace = MonsterPace::Retreat;
    }
    MonsterStep { state, pace, move_pace, movement, reset_timer, caught: senses.can_catch }
}

/// Paces over frames: the torch sets the retreat pace on the frame a
/// flight starts, and a fleeing stalker keeps the pace it has for as long as
/// it flees; a hunt in the reactor act runs at chase pace and a patrol at
/// patrol pace.
pub proof fn lemma_flight_keeps_its_pace(state: MonsterState, pace: MonsterPace, act: GameState, lit: bool)
    requires
        act is Act2_TheInsanity || act is Act3_TheReactor,
    ensures
        state != MonsterState::Retreating && lit ==> movement_pace(state, pace, act, lit) == MonsterPace::Retreat,
        state == MonsterState::Retreating ==> movement_pace(state, pace, act, lit) == pace,
        state == MonsterState::Retreating ==>
            movement_pace(state, movement_pace(state, pace, act, lit), act, lit) == pace,
        state == MonsterState::Chasing && !lit && act is Act3_TheReactor
            ==> movement_pace(state, pace, act, lit) == MonsterPace::Chase,
        state == MonsterState::Patrol && !lit ==> movement_pace(state, pace, act, lit) == MonsterPace::Patrol,
{
}

} // verus!
