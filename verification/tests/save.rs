use forgotten_walls::game::{GameProgress, GameState};
use forgotten_walls::save::{
    act_from_save_number, heard_cassettes, keepsake_collected, restore_heard_cassettes, restore_progress,
    save_act_number, TapeState,
};

#[test]
fn act_numbers_round_trip() {
    for (state, n) in [
        (GameState::Act1_TheDescent, 1u8),
        (GameState::Act2_TheInsanity, 2),
        (GameState::Act3_TheReactor, 3),
    ] {
        assert_eq!(save_act_number(state), Some(n));
        assert_eq!(act_from_save_number(n), Some(state));
    }
    for state in [GameState::MainMenu, GameState::GameOver, GameState::GameWon] {
        assert_eq!(save_act_number(state), None);
    }
}

#[test]
fn unknown_act_numbers_are_refused() {
    assert_eq!(act_from_save_number(0), None);
    assert_eq!(act_from_save_number(4), None);
    assert_eq!(act_from_save_number(255), None);
}

#[test]
fn heard_tapes_round_trip() {
    let tapes = vec![
        TapeState { lore_index: 2, was_played: true },
        TapeState { lore_index: 0, was_played: false },
        TapeState { lore_index: 1, was_played: true },
    ];
    let heard = heard_cassettes(&tapes);
    assert_eq!(heard, vec![2, 1]);
    let mut fresh: Vec<TapeState> = tapes.iter().map(|t| TapeState { was_played: false, ..*t }).collect();
    restore_heard_cassettes(&mut fresh, &heard);
    assert_eq!(fresh, tapes);
}

#[test]
fn restoring_never_unhears_a_tape() {
    let mut tapes = vec![
        TapeState { lore_index: 0, was_played: true },
        TapeState { lore_index: 1, was_played: false },
    ];
    restore_heard_cassettes(&mut tapes, &vec![]);
    assert!(tapes[0].was_played && !tapes[1].was_played);
}

#[test]
fn keepsakes_already_found() {
    let done = vec![0, 3];
    assert!(keepsake_collected(&done, 3));
    assert!(keepsake_collected(&done, 0));
    assert!(!keepsake_collected(&done, 1));
    assert!(!keepsake_collected(&vec![], 4));
}

#[test]
fn progress_is_restored_and_capped() {
    let mut p = GameProgress::default();
    let remove = restore_progress(&mut p, 3, 2, 5);
    assert_eq!(p.collected, 3);
    assert_eq!(p.quest_items, 2);
    assert_eq!(remove, 3);
    let mut p = GameProgress::default();
    let remove = restore_progress(&mut p, 9, 5, 5);
    assert_eq!(p.collected, 5);
    assert_eq!(remove, 5);
    let mut p = GameProgress::default();
    let remove = restore_progress(&mut p, 1, 0, 0);
    assert_eq!(p.collected, 1);
    assert_eq!(remove, 0);
}
