use forgotten_walls::game::GameState;
use forgotten_walls::story::{
    act_intro, ambient_track, cassette_lore, cassette_track, next_ambient_index, pick_cassette,
    pick_screamer, screamer_files, TapeNearby,
};
use rand::rngs::StdRng;
use rand::SeedableRng;

#[test]
fn tapes_repeat_every_three() {
    assert_eq!(cassette_track(0), "audio/cassette1.mp3");
    assert_eq!(cassette_track(2), "audio/cassette3.mp3");
    assert_eq!(cassette_track(4), "audio/cassette2.mp3");
    assert_eq!(cassette_lore(1).0, "TAPE 2/3 - ORDERLY GRIMM, DAY 27");
    assert_eq!(cassette_lore(3).0, "TAPE 1/3 - DR. VELSKAYA, DAY 12");
    assert!(cassette_lore(5).1.starts_with("It wears the dark"));
}

#[test]
fn a_tape_plays_once() {
    let t = |was_played, in_reach| TapeNearby { was_played, in_reach };
    assert_eq!(pick_cassette(&vec![t(true, true), t(false, false), t(false, true)]), Some(2));
    assert_eq!(pick_cassette(&vec![t(true, true)]), None);
    assert_eq!(pick_cassette(&vec![t(false, true), t(false, true)]), Some(0));
    assert_eq!(pick_cassette(&vec![]), None);
}

#[test]
fn screamer_pairs_share_their_number() {
    assert_eq!(screamer_files(0), ("screamers/skrimer1.png", "audio/scream1.mp3"));
    assert_eq!(screamer_files(1), ("screamers/skrimer2.png", "audio/scream2.mp3"));
    assert_eq!(screamer_files(2), ("screamers/skrimer3.png", "audio/scream3.mp3"));
}

#[test]
fn random_screamer_is_one_of_three() {
    let mut seen = [false; 3];
    let mut rng = StdRng::seed_from_u64(11);
    for _ in 0..200 {
        let i = pick_screamer(&mut rng);
        assert!(i < 3);
        seen[i] = true;
    }
    assert_eq!(seen, [true, true, true]);
}

#[test]
fn act_intros() {
    assert_eq!(act_intro(GameState::Act1_TheDescent).unwrap().0, "ACT 1 - THE DESCENT");
    assert_eq!(act_intro(GameState::Act2_TheInsanity).unwrap().0, "ACT 2 - REJECTION");
    assert!(act_intro(GameState::Act3_TheReactor).unwrap().1.starts_with("Three minutes to meltdown"));
    assert_eq!(act_intro(GameState::MainMenu), None);
    assert_eq!(act_intro(GameState::GameWon), None);
}

#[test]
fn ambient_tracks_alternate() {
    assert_eq!(ambient_track(0), "audio/ambient1.mp3");
    assert_eq!(ambient_track(1), "audio/ambient2.mp3");
    assert_eq!(next_ambient_index(0), 1);
    assert_eq!(next_ambient_index(1), 0);
    assert_eq!(ambient_track(next_ambient_index(next_ambient_index(0))), "audio/ambient1.mp3");
}
