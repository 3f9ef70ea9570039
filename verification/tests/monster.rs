use forgotten_walls::game::GameState;
use forgotten_walls::monster::{monster_step, spawned_monster, MonsterMove, MonsterPace, MonsterSenses, MonsterState};

fn senses(lit: bool, retreat_time_up: bool, player_near: bool, repath_due: bool, can_catch: bool) -> MonsterSenses {
    MonsterSenses { lit, retreat_time_up, player_near, repath_due, can_catch }
}

const CALM: MonsterSenses = MonsterSenses {
    lit: false,
    retreat_time_up: false,
    player_near: false,
    repath_due: false,
    can_catch: false,
};

#[test]
fn the_torch_drives_it_off() {
    for act in [GameState::Act2_TheInsanity, GameState::Act3_TheReactor] {
        for state in [MonsterState::Patrol, MonsterState::Chasing] {
            let s = monster_step(state, MonsterPace::Patrol, act, senses(true, true, true, true, false));
            assert_eq!(s.state, MonsterState::Retreating);
            assert_eq!(s.movement, MonsterMove::FleeFromPlayer);
            assert_eq!(s.pace, MonsterPace::Retreat);
            assert!(s.reset_timer);
            assert!(!s.caught);
        }
    }
}

#[test]
fn retreat_ends_in_patrol_or_hunt() {
    let s = monster_step(MonsterState::Retreating, MonsterPace::Retreat, GameState::Act2_TheInsanity,
        senses(false, true, false, false, false));
    assert_eq!(s.state, MonsterState::Patrol);
    assert_eq!(s.movement, MonsterMove::FleeFromPlayer);
    assert!(s.reset_timer);
    let s = monster_step(MonsterState::Retreating, MonsterPace::Retreat, GameState::Act3_TheReactor,
        senses(false, true, false, false, false));
    assert_eq!(s.state, MonsterState::Chasing);
    let s = monster_step(MonsterState::Retreating, MonsterPace::Retreat, GameState::Act3_TheReactor, CALM);
    assert_eq!(s.state, MonsterState::Retreating);
    assert!(!s.reset_timer);
}

#[test]
fn second_act_patrol() {
    let act = GameState::Act2_TheInsanity;
    let stare = monster_step(MonsterState::Patrol, MonsterPace::Patrol, act, senses(false, false, true, true, false));
    assert_eq!(stare.movement, MonsterMove::StareAtPlayer);
    assert_eq!(stare.state, MonsterState::Patrol);
    let repath = monster_step(MonsterState::Patrol, MonsterPace::Patrol, act, senses(false, false, false, true, false));
    assert_eq!(repath.movement, MonsterMove::NewPatrolTarget);
    assert!(repath.reset_timer);
    let walk = monster_step(MonsterState::Patrol, MonsterPace::Retreat, act, CALM);
    assert_eq!(walk.movement, MonsterMove::WalkToPatrolTarget);
    assert_eq!(walk.pace, MonsterPace::Patrol);
    let chase = monster_step(MonsterState::Chasing, MonsterPace::Chase, act, CALM);
    assert_eq!(chase.state, MonsterState::Patrol);
    assert_eq!(chase.movement, MonsterMove::Hold);
}

#[test]
fn third_act_hunt() {
    let act = GameState::Act3_TheReactor;
    let start = monster_step(MonsterState::Patrol, MonsterPace::Patrol, act, CALM);
    assert_eq!(start.state, MonsterState::Chasing);
    assert_eq!(start.movement, MonsterMove::Hold);
    let hunt = monster_step(MonsterState::Chasing, MonsterPace::Patrol, act, CALM);
    assert_eq!(hunt.state, MonsterState::Chasing);
    assert_eq!(hunt.movement, MonsterMove::ChasePlayer);
    assert_eq!(hunt.pace, MonsterPace::Chase);
}

#[test]
fn a_catch_always_ends_in_retreat() {
    for act in [GameState::Act2_TheInsanity, GameState::Act3_TheReactor] {
        for state in [MonsterState::Patrol, MonsterState::Chasing, MonsterState::Retreating] {
            let s = monster_step(state, MonsterPace::Chase, act, senses(false, false, false, false, true));
            assert!(s.caught);
            assert_eq!(s.state, MonsterState::Retreating);
            assert_ne!(s.move_pace, MonsterPace::Retreat);
            assert_eq!(s.pace, MonsterPace::Retreat);
            assert!(s.reset_timer);
        }
    }
}

#[test]
fn nothing_happens_outside_the_stalker_acts() {
    for act in [GameState::MainMenu, GameState::Act1_TheDescent, GameState::GameOver] {
        let s = monster_step(MonsterState::Chasing, MonsterPace::Chase, act, senses(true, true, true, true, true));
        assert_eq!(s.state, MonsterState::Chasing);
        assert_eq!(s.movement, MonsterMove::Hold);
        assert!(!s.caught && !s.reset_timer);
    }
}

#[test]
fn a_new_stalker_patrols() {
    assert_eq!(spawned_monster(), (MonsterState::Patrol, MonsterPace::Patrol));
}
