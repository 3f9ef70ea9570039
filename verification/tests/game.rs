use forgotten_walls::game::{
    collect_fragments, elevator_outcome, end_screen_text, game_input_allowed, in_act, in_end,
    lever_pulled, menu_starts_game, reactor_meltdown, record_keepsake, setting_label, shows_meltdown_bar, EndingKind, GameProgress, GameSettings,
    GameState, SettingsAction, FRAGMENT_COUNT, QUEST_COUNT,
};

const ALL: [GameState; 6] = [
    GameState::MainMenu,
    GameState::Act1_TheDescent,
    GameState::Act2_TheInsanity,
    GameState::Act3_TheReactor,
    GameState::GameOver,
    GameState::GameWon,
];

#[test]
fn acts_and_endings_are_told_apart() {
    let acts = [false, true, true, true, false, false];
    let ends = [false, false, false, false, true, true];
    for (i, s) in ALL.iter().enumerate() {
        assert_eq!(in_act(*s), acts[i]);
        assert_eq!(in_end(*s), ends[i]);
        assert_eq!(game_input_allowed(*s, false), acts[i]);
        assert!(!game_input_allowed(*s, true));
    }
}

#[test]
fn default_state_and_progress() {
    assert_eq!(GameState::default(), GameState::MainMenu);
    let p = GameProgress::default();
    assert_eq!(p.collected, 0);
    assert_eq!(p.total, 5);
    assert_eq!(p.quest_items, 0);
    assert_eq!(p.ending, None);
    assert_eq!(FRAGMENT_COUNT, 5);
    assert_eq!(QUEST_COUNT, 5);
}

#[test]
fn all_keepsakes_redeem() {
    let mut p = GameProgress { quest_items: 5, ..GameProgress::default() };
    assert_eq!(elevator_outcome(&mut p), GameState::GameWon);
    assert_eq!(p.ending, None);
    let mut p = GameProgress { quest_items: 7, ..GameProgress::default() };
    assert_eq!(elevator_outcome(&mut p), GameState::GameWon);
}

#[test]
fn missing_keepsakes_absorb() {
    let mut p = GameProgress { quest_items: 4, collected: 5, ..GameProgress::default() };
    assert_eq!(elevator_outcome(&mut p), GameState::GameOver);
    assert_eq!(p.ending, Some(EndingKind::Absorbed));
    assert_eq!(p.quest_items, 4);
    assert_eq!(p.collected, 5);
}

#[test]
fn meltdown_loses_the_run() {
    let mut p = GameProgress { quest_items: 5, ..GameProgress::default() };
    assert_eq!(reactor_meltdown(&mut p), GameState::GameOver);
    assert_eq!(p.ending, Some(EndingKind::Timeout));
    assert_eq!(p.quest_items, 5);
}

#[test]
fn fragments_in_reach_are_taken() {
    let mut p = GameProgress::default();
    let pick = collect_fragments(&mut p, false, &vec![false, true, false, true, false]);
    assert_eq!(pick.taken, vec![1, 3]);
    assert_eq!(p.collected, 2);
    assert!(!pick.start_transition);
}

#[test]
fn last_fragment_starts_the_reactor_transition() {
    let mut p = GameProgress { collected: 4, ..GameProgress::default() };
    let pick = collect_fragments(&mut p, false, &vec![true]);
    assert_eq!(pick.taken, vec![0]);
    assert_eq!(p.collected, 5);
    assert!(pick.start_transition);
}

#[test]
fn no_pickup_while_transition_pending_or_done() {
    let mut p = GameProgress { collected: 2, ..GameProgress::default() };
    let pick = collect_fragments(&mut p, true, &vec![true, true]);
    assert!(pick.taken.is_empty());
    assert_eq!(p.collected, 2);
    assert!(!pick.start_transition);
    let mut p = GameProgress { collected: 5, ..GameProgress::default() };
    let pick = collect_fragments(&mut p, false, &vec![true]);
    assert!(pick.taken.is_empty());
    assert_eq!(p.collected, 5);
    assert!(!pick.start_transition);
}

#[test]
fn settings_toggle_and_label() {
    let mut s = GameSettings::default();
    assert!(s.film_grain && s.vignette);
    assert_eq!(setting_label(SettingsAction::ToggleGrain, &s), "FILM GRAIN: ON");
    assert_eq!(setting_label(SettingsAction::ToggleVignette, &s), "VIGNETTE: ON");
    s.toggle(SettingsAction::ToggleGrain);
    assert!(!s.film_grain && s.vignette);
    assert_eq!(setting_label(SettingsAction::ToggleGrain, &s), "FILM GRAIN: OFF");
    s.toggle(SettingsAction::ToggleVignette);
    assert!(!s.vignette);
    assert_eq!(setting_label(SettingsAction::ToggleVignette, &s), "VIGNETTE: OFF");
    s.toggle(SettingsAction::ToggleGrain);
    assert!(s.film_grain);
}

#[test]
fn menu_start_keys_and_clicks() {
    assert!(menu_starts_game(true, false, false, false));
    assert!(menu_starts_game(false, true, false, true));
    assert!(menu_starts_game(false, false, true, false));
    assert!(!menu_starts_game(false, false, true, true));
    assert!(!menu_starts_game(false, false, false, false));
}

#[test]
fn ending_screens() {
    let won = end_screen_text(GameState::GameWon, Some(EndingKind::Timeout));
    assert_eq!(won.title, "REDEMPTION");
    assert!(won.body.contains("Forgive me, Misha"));
    assert!(!won.show_keepsakes);
    let heart = end_screen_text(GameState::GameOver, Some(EndingKind::HeartDeath));
    assert_eq!(heart.title, "YOU DIED");
    assert_eq!(heart.body, "Your heart gave out in the dark.");
    assert!(heart.show_keepsakes);
    let timeout = end_screen_text(GameState::GameOver, Some(EndingKind::Timeout));
    assert_eq!(timeout.title, "THE REACTOR BLEW");
    let absorbed = end_screen_text(GameState::GameOver, Some(EndingKind::Absorbed));
    assert_eq!(absorbed.title, "ABSORBED");
    let unknown = end_screen_text(GameState::GameOver, None);
    assert_eq!(unknown.title, "ABSORBED");
    assert!(unknown.show_keepsakes);
}

#[test]
fn keepsakes_count_once() {
    let mut p = GameProgress::default();
    let mut found = Vec::new();
    assert!(record_keepsake(&mut p, &mut found, 2));
    assert!(record_keepsake(&mut p, &mut found, 0));
    assert!(!record_keepsake(&mut p, &mut found, 2));
    assert_eq!(found, vec![2, 0]);
    assert_eq!(p.quest_items, 2);
}

#[test]
fn the_lever_is_pulled_once() {
    assert!(lever_pulled(false, true, false));
    assert!(!lever_pulled(true, true, false));
    assert!(!lever_pulled(false, false, false));
    assert!(!lever_pulled(false, true, true));
}

#[test]
fn the_meltdown_bar_shows_in_the_reactor_act_only() {
    for s in ALL {
        assert_eq!(shows_meltdown_bar(s), s == GameState::Act3_TheReactor);
    }
}
