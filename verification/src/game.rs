//! The run's rules: the game states, the progress through the three acts,
//! the endings and the menu settings.

use vstd::prelude::*;
use vstd::string::StringExecFns;

verus! {

/// How many echo fragments the second act asks for.
pub const FRAGMENT_COUNT: usize = 5;
/// How many keepsakes of the brother are hidden over the three acts.
pub const QUEST_COUNT: usize = 5;

/// The global states of the game: the menu, the three acts, two endings.
#[allow(non_camel_case_types)]
#[derive(Debug, Clone, Copy, PartialEq, Eq, Structural, Hash)]
pub enum GameState {
    /// The main menu.
    MainMenu,
    /// Act 1: the descent, the generator lever.
    Act1_TheDescent,
    /// Act 2: darkness, madness, the echo fragments, the tapes.
    Act2_TheInsanity,
    /// Act 3: the reactor countdown, the hunt, the lift.
    Act3_TheReactor,
    /// A losing ending: the heart, the reactor or the absorption.
    GameOver,
    /// The winning ending: redemption.
    GameWon,
}

impl Default for GameState {
    fn default() -> (s: Self)
        ensures
            s == GameState::MainMenu,
    {
        GameState::MainMenu
    }
}

/// How a lost run ended.
#[derive(Debug, Clone, Copy, PartialEq, Eq, Structural, Hash)]
pub enum EndingKind {
    /// The heart gave out.
    HeartDeath,
    /// The reactor blew before the lift was reached.
    Timeout,
    /// The lift was entered without all keepsakes.
    Absorbed,
}

/// The run's progress: echo fragments, keepsakes and the ending.
#[derive(Debug, Clone, Copy, PartialEq, Eq, Structural)]
pub struct GameProgress {
    pub collected: u32,
    pub total: u32,
    /// Keepsakes found so far.
    pub quest_items: u32,
    /// How the run ended, once it has.
    pub ending: Option<EndingKind>,
}

impl Default for GameProgress {
    fn default() -> (p: Self)
        ensures
            p.collected == 0,
            p.total == FRAGMENT_COUNT,
            p.quest_items == 0,
            p.ending is None,
    {
        GameProgress { collected: 0, total: FRAGMENT_COUNT as u32, quest_items: 0, ending: None }
    }
}

/// One of the three playable acts.
pub open spec fn is_act(state: GameState) -> bool {
    state is Act1_TheDescent || state is Act2_TheInsanity || state is Act3_TheReactor
}

/// One of the two ending screens.
pub open spec fn is_end(state: GameState) -> bool {
    state is GameOver || state is GameWon
}

/// An act is being played.
pub fn in_act(state: GameState) -> (r: bool)
    ensures
        r == is_act(state),
{
    match state {
        GameState::Act1_TheDescent | GameState::Act2_TheInsanity | GameState::Act3_TheReactor => true,
        _ => false,
    }
}

/// An ending screen is shown.
pub fn in_end(state: GameState) -> (r: bool)
    ensures
        r == is_end(state),
{
    match state {
        GameState::GameOver | GameState::GameWon => true,
        _ => false,
    }
}

/// The reactor's meltdown bar is on the HUD in the reactor act only.
pub fn shows_meltdown_bar(act: GameState) -> (shown: bool)
    ensures
        shown == (act is Act3_TheReactor),
{
    match act {
        GameState::Act3_TheReactor => true,
        _ => false,
    }
}

/// The player may act: an act is running and no screamer holds the screen.
pub fn game_input_allowed(state: GameState, screamer_active: bool) -> (r: bool)
    ensures
        r == (is_act(state) && !screamer_active),
{
    in_act(state) && !screamer_active
}

/// The two toggles of the menu's settings.
#[derive(Debug, Clone, Copy, PartialEq, Eq, Structural)]
pub enum SettingsAction {
    ToggleGrain,
    ToggleVignette,
}

/// Settings chosen in the menu; they live for the whole session.
#[derive(Debug, Clone, Copy, PartialEq, Eq, Structural)]
pub struct GameSettings {
    /// Film grain over the picture.
    pub film_grain: bool,
    /// Dark vignette at the screen edges.
    pub vignette: bool,
}

impl Default for GameSettings {
    fn default() -> (s: Self)
        ensures
            s.film_grain,
            s.vignette,
    {
        GameSettings { film_grain: true, vignette: true }
    }
}

/// The label of a settings button: the setting's name, `": "`, then
/// `ON` or `OFF`.
pub open spec fn setting_label_text(action: SettingsAction, settings: GameSettings) -> Seq<char> {
    let (name, on) = match action {
        SettingsAction::ToggleGrain => ("FILM GRAIN"@, settings.film_grain),
        SettingsAction::ToggleVignette => ("VIGNETTE"@, settings.vignette),
    };
    name + ": "@ + if on { "ON"@ } else { "OFF"@ }
}

impl GameSettings {
    /// A press on a settings button flips its setting and only that one.
    pub fn toggle(&mut self, action: SettingsAction)
        ensures
            action is ToggleGrain ==> final(self).film_grain == !old(self).film_grain
                && final(self).vignette == old(self).vignette,
            action is ToggleVignette ==> final(self).vignette == !old(self).vignette
                && final(self).film_grain == old(self).film_grain,
    {
        match action {
            SettingsAction::ToggleGrain => {
                self.film_grain = !self.film_grain;
            },
            SettingsAction::ToggleVignette => {
                self.vignette = !self.vignette;
            },
        }
    }
}

/// The label of a settings button, such as `FILM GRAIN: ON`.
pub fn setting_label(action: SettingsAction, settings: &GameSettings) -> (label: String)
    ensures
        label@ == setting_label_text(action, *settings),
{
    let (name, on) = match action {
        SettingsAction::ToggleGrain => ("FILM GRAIN", settings.film_grain),
        SettingsAction::ToggleVignette => ("VIGNETTE", settings.vignette),
    };
    let mut label = String::from_str(name);
    label.append(": ");
    if on {
        label.append("ON");
    } else {
        label.append("OFF");
    }
    label
}


/// Whether a key or click in the main menu starts a new run: Enter or
/// Space always do; a left click does unless it lands on a settings button.
pub fn menu_starts_game(enter: bool, space: bool, left_click: bool, over_button: bool) -> (r: bool)
    ensures
        r == (enter || space || (left_click && !over_button)),
{
    if enter || space {
        return true;
    }
    left_click && !over_button
}

/// The player stepped into the lift: with every keepsake found the run is
/// won; otherwise it is lost by absorption, which is recorded.
pub fn elevator_outcome(progress: &mut GameProgress) -> (next: GameState)
    ensures
        old(progress).quest_items >= QUEST_COUNT ==> next == GameState::GameWon
            && *final(progress) == *old(progress),
        old(progress).quest_items < QUEST_COUNT ==> next == GameState::GameOver
            && *final(progress) == (GameProgress { ending: Some(EndingKind::Absorbed), ..*old(progress) }),
{
    if progress.quest_items as usize >= QUEST_COUNT {
        GameState::GameWon
    } else {
        progress.ending = Some(EndingKind::Absorbed);
        GameState::GameOver
    }
}

/// The reactor countdown reached zero: the run is lost to the heat.
pub fn reactor_meltdown(progress: &mut GameProgress) -> (next: GameState)
    ensures
        next == GameState::GameOver,
        *final(progress) == (GameProgress { ending: Some(EndingKind::Timeout), ..*old(progress) }),
{
    progress.ending = Some(EndingKind::Timeout);
    GameState::GameOver
}

/// What one frame of fragment pickup did: which fragments (by position in
/// the list handed in) were taken, and whether the last one was taken so
/// that the countdown to the reactor act starts.
pub struct FragmentPickup {
    pub taken: Vec<usize>,
    pub start_transition: bool,
}

/// How many of the flags are set.
pub open spec fn reach_count(s: Seq<bool>) -> nat
    decreases s.len(),
{
    if s.len() == 0 {
        0
    } else {
        reach_count(s.drop_last()) + if s.last() { 1nat } else { 0nat }
    }
}

/// Fragment pickup in the second act. Nothing happens while an act
/// transition is pending or once all fragments are in; otherwise every
/// fragment within reach is taken and counted, and when the count reaches
/// the total the transition to the reactor act begins.
pub fn collect_fragments(progress: &mut GameProgress, transition_pending: bool, in_reach: &Vec<bool>) -> (pickup: FragmentPickup)
    requires
        old(progress).collected + in_reach@.len() <= u32::MAX,
    ensures
        pickup.taken@.len() <= in_reach@.len(),
        transition_pending || old(progress).collected >= old(progress).total ==> {
            &&& *final(progress) == *old(progress)
            &&& pickup.taken@.len() == 0
            &&& !pickup.start_transition
        },
        !(transition_pending || old(progress).collected >= old(progress).total) ==> {
            &&& (forall|i: usize| #![trigger pickup.taken@.contains(i)] #![trigger in_reach@[i as int]]
                pickup.taken@.contains(i) <==> i < in_reach@.len() && in_reach@[i as int])
            &&& (forall|i: int, j: int| 0 <= i < j < pickup.taken@.len() ==> pickup.taken@[i] < pickup.taken@[j])
            &&& pickup.taken@.len() == reach_count(in_reach@)
            &&& *final(progress) == (GameProgress {
                collected: (old(progress).collected + pickup.taken@.len()) as u32,
                ..*old(progress)
            })
            &&& pickup.start_transition == (final(progress).collected >= final(progress).total)
        },
{
    let mut taken: Vec<usize> = Vec::new();
    if transition_pending || progress.collected >= progress.total {
        return FragmentPickup { taken, start_transition: false };
    }
    let ghost start = *progress;
    let mut i: usize = 0;
    while i < in_reach.len()
        invariant
            i <= in_reach@.len(),
            start.collected + in_reach@.len() <= u32::MAX,
            *progress == (GameProgress { collected: (start.collected + taken@.len()) as u32, ..start }),
            taken@.len() <= i,
            taken@.len() == reach_count(in_reach@.take(i as int)),
            forall|k: int| #![trigger taken@[k]] 0 <= k < taken@.len() ==> taken@[k] < i,
            forall|k: usize| taken@.contains(k) <==> k < i && in_reach@[k as int],
            forall|a: int, b: int| 0 <= a < b < taken@.len() ==> taken@[a] < taken@[b],
        decreases in_reach@.len() - i,
    {
        assert(in_reach@.take(i + 1).drop_last() =~= in_reach@.take(i as int));
        if in_reach[i] {
            let ghost before = taken@;
            taken.push(i);
            progress.collected = progress.collected + 1;
            assert forall|k: usize| taken@.contains(k) <==> k < i + 1 && in_reach@[k as int] by {
                if k < i + 1 && in_reach@[k as int] {
                    if k < i {
                        let j = before.index_of(k);
                        assert(taken@[j] == k);
                    } else {
                        assert(taken@[taken@.len() - 1] == k);
                    }
                }
                if taken@.contains(k) {
                    let j = taken@.index_of(k);
                    if j < before.len() {
                        assert(before[j] == taken@[j]);
                        assert(before.contains(k));
                    }
                }
            }
        } else {
            assert forall|k: usize| taken@.contains(k) <==> k < i + 1 && in_reach@[k as int] by {
                if taken@.contains(k) {
                    let j = taken@.index_of(k);
                    assert(taken@[j] < i);
                }
            }
        }
        i = i + 1;
    }
    assert(in_reach@.take(in_reach@.len() as int) =~= in_reach@);
    let start_transition = progress.collected >= progress.total;
    FragmentPickup { taken, start_transition }
}

/// The texts of an ending screen. The keepsake count is shown on the
/// losing screens only.
pub struct EndScreenText {
    pub title: &'static str,
    pub body: &'static str,
    pub show_keepsakes: bool,
}

/// The title of the ending screen.
pub open spec fn end_title(won: bool, ending: Option<EndingKind>) -> Seq<char> {
    if won {
        "REDEMPTION"@
    } else {
        match ending {
            Some(EndingKind::HeartDeath) => "YOU DIED"@,
            Some(EndingKind::Timeout) => "THE REACTOR BLEW"@,
            _ => "ABSORBED"@,
        }
    }
}

/// The body text of the ending screen.
pub open spec fn end_body(won: bool, ending: Option<EndingKind>) -> Seq<char> {
    if won {
        "You hold the light steady and speak: \"I won't run anymore. Forgive me, Misha.\" The shadow melts into a small smiling boy - and is gone. The lift rises into bright dawn. You are free."@
    } else {
        match ending {
            Some(EndingKind::HeartDeath) => "Your heart gave out in the dark."@,
            Some(EndingKind::Timeout) => "White heat takes the bunker. You never reached the lift."@,
            _ => "Black hands unfold from the dark lift. Without all five keepsakes, guilt keeps its hold - and the shadow drags you down the shaft."@,
        }
    }
}

/// The losing ending a screen shows: the recorded one, absorption when none
/// is recorded.
pub open spec fn loss_shown(ending: Option<EndingKind>) -> EndingKind {
    match ending {
        Some(k) => k,
        None => EndingKind::Absorbed,
    }
}

/// Every ending has its own title and its own text: the winning screen
/// shares neither with a losing one, and two losing screens share a title
/// or a text exactly when they show the same ending.
pub proof fn lemma_each_ending_has_its_own_text(e1: Option<EndingKind>, e2: Option<EndingKind>)
    ensures
        end_title(true, e1) != end_title(false, e2),
        end_body(true, e1) != end_body(false, e2),
        (end_title(false, e1) == end_title(false, e2)) <==> (loss_shown(e1) == loss_shown(e2)),
        (end_body(false, e1) == end_body(false, e2)) <==> (loss_shown(e1) == loss_shown(e2)),
{
    reveal_strlit("REDEMPTION");
    reveal_strlit("YOU DIED");
    reveal_strlit("THE REACTOR BLEW");
    reveal_strlit("ABSORBED");
    reveal_strlit("You hold the light steady and speak: \"I won't run anymore. Forgive me, Misha.\" The shadow melts into a small smiling boy - and is gone. The lift rises into bright dawn. You are free.");
    reveal_strlit("Your heart gave out in the dark.");
    reveal_strlit("White heat takes the bunker. You never reached the lift.");
    reveal_strlit("Black hands unfold from the dark lift. Without all five keepsakes, guilt keeps its hold - and the shadow drags you down the shaft.");
    assert("YOU DIED"@[0] != "ABSORBED"@[0]);
    assert("REDEMPTION"@.len() == 10);
    assert("YOU DIED"@.len() == 8);
    assert("THE REACTOR BLEW"@.len() == 16);
    assert("ABSORBED"@.len() == 8);
    assert("You hold the light steady and speak: \"I won't run anymore. Forgive me, Misha.\" The shadow melts into a small smiling boy - and is gone. The lift rises into bright dawn. You are free."@.len() == 182);
    assert("Your heart gave out in the dark."@.len() == 32);
    assert("White heat takes the bunker. You never reached the lift."@.len() == 56);
    assert("Black hands unfold from the dark lift. Without all five keepsakes, guilt keeps its hold - and the shadow drags you down the shaft."@.len() == 130);
}

/// The texts of the ending screen for `state`: the winning text on
/// `GameWon`, otherwise the text of the recorded ending (absorption when
/// none is recorded).
pub fn end_screen_text(state: GameState, ending: Option<EndingKind>) -> (t: EndScreenText)
    ensures
        t.title@ == end_title(state is GameWon, ending),
        t.body@ == end_body(state is GameWon, ending),
        t.show_keepsakes == !(state is GameWon),
{
    let won = match state {
        GameState::GameWon => true,
        _ => false,
    };
    if won {
        EndScreenText {
            title: "REDEMPTION",
            body: "You hold the light steady and speak: \"I won't run anymore. Forgive me, Misha.\" The shadow melts into a small smiling boy - and is gone. The lift rises into bright dawn. You are free.",
            show_keepsakes: false,
        }
    } else {
        match ending {
            Some(EndingKind::HeartDeath) => EndScreenText {
                title: "YOU DIED",
                body: "Your heart gave out in the dark.",
                show_keepsakes: true,
            },
            Some(EndingKind::Timeout) => EndScreenText {
                title: "THE REACTOR BLEW",
                body: "White heat takes the bunker. You never reached the lift.",
                show_keepsakes: true,
            },
            _ => EndScreenText {
                title: "ABSORBED",
                body: "Black hands unfold from the dark lift. Without all five keepsakes, guilt keeps its hold - and the shadow drags you down the shaft.",
                show_keepsakes: true,
            },
        }
    }
}


/// A keepsake was picked up. The first pickup of a keepsake records it
/// among those found and counts it; a keepsake already recorded changes
/// nothing. Returns whether it was new.
pub fn record_keepsake(progress: &mut GameProgress, found: &mut Vec<usize>, index: usize) -> (new: bool)
    requires
        old(progress).quest_items < u32::MAX,
    ensures
        new == !old(found)@.contains(index),
        new ==> final(found)@ == old(found)@.push(index)
            && *final(progress) == (GameProgress { quest_items: (old(progress).quest_items + 1) as u32, ..*old(progress) }),
        !new ==> final(found)@ == old(found)@ && *final(progress) == *old(progress),
{
    let mut i: usize = 0;
    while i < found.len()
        invariant
            i <= found@.len(),
            forall|k: int| 0 <= k < i ==> found@[k] != index,
        decreases found@.len() - i,
    {
        if found[i] == index {
            assert(found@[i as int] == index);
            return false;
        }
        i = i + 1;
    }
    found.push(index);
    progress.quest_items = progress.quest_items + 1;
    true
}


/// The use key at the generator lever: an unpulled lever within reach is
/// pulled, unless an act change is already pending; pulling it starts the
/// change to the second act.
pub fn lever_pulled(already_pulled: bool, in_reach: bool, transition_pending: bool) -> (pull: bool)
    ensures
        pull == (!already_pulled && in_reach && !transition_pending),
{
    !already_pulled && in_reach && !transition_pending
}

} // verus!
