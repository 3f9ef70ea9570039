//! The story's texts and files: the tapes and their subtitles, the act
//! intros, the screamer image-and-sound pairs and the ambient tracks.

use rand::rngs::StdRng;
use vstd::prelude::*;

use crate::game::GameState;
use crate::rng::gen_range_i32;

verus! {

/// The recordings of the tapes (paths inside `assets/`).
pub open spec fn tape_track(i: int) -> Seq<char> {
    if i == 0 {
        "audio/cassette1.mp3"@
    } else if i == 1 {
        "audio/cassette2.mp3"@
    } else {
        "audio/cassette3.mp3"@
    }
}

/// The subtitle title of a recording.
pub open spec fn tape_title(i: int) -> Seq<char> {
    if i == 0 {
        "TAPE 1/3 - DR. VELSKAYA, DAY 12"@
    } else if i == 1 {
        "TAPE 2/3 - ORDERLY GRIMM, DAY 27"@
    } else {
        "TAPE 3/3 - UNKNOWN VOICE, DAY 40"@
    }
}

/// The subtitle text of a recording.
pub open spec fn tape_text(i: int) -> Seq<char> {
    if i == 0 {
        "The walls breathe when the lights die. I counted four breaths between the flickers. Whatever you do - do not let your torch go out."@
    } else if i == 1 {
        "Batteries drain faster near the east cells. As if something down there is thirsty. We stopped going there alone."@
    } else {
        "It wears the dark like skin. It cannot stand the light, but it has learned to wait. It is very, very patient. And so close now."@
    }
}

/// The recording played by the tape of lore index `lore` (the three
/// recordings repeat).
pub fn cassette_track(lore: usize) -> (path: &'static str)
    ensures
        path@ == tape_track(lore as int % 3),
{
    let i = lore % 3;
    if i == 0 {
        "audio/cassette1.mp3"
    } else if i == 1 {
        "audio/cassette2.mp3"
    } else {
        "audio/cassette3.mp3"
    }
}

/// The subtitle (title, text) of the tape of lore index `lore`.
pub fn cassette_lore(lore: usize) -> (subtitle: (&'static str, &'static str))
    ensures
        subtitle.0@ == tape_title(lore as int % 3),
        subtitle.1@ == tape_text(lore as int % 3),
{
    let i = lore % 3;
    if i == 0 {
        (
            "TAPE 1/3 - DR. VELSKAYA, DAY 12",
            "The walls breathe when the lights die. I counted four breaths between the flickers. Whatever you do - do not let your torch go out.",
        )
    } else if i == 1 {
        (
            "TAPE 2/3 - ORDERLY GRIMM, DAY 27",
            "Batteries drain faster near the east cells. As if something down there is thirsty. We stopped going there alone.",
        )
    } else {
        (
            "TAPE 3/3 - UNKNOWN VOICE, DAY 40",
            "It wears the dark like skin. It cannot stand the light, but it has learned to wait. It is very, very patient. And so close now.",
        )
    }
}

/// A tape as the use key sees it.
#[derive(Debug, Clone, Copy, PartialEq, Eq, Structural)]
pub struct TapeNearby {
    pub was_played: bool,
    /// Within reach of the use key.
    pub in_reach: bool,
}

/// The tape a press of the use key plays: the first one within reach that
/// was never played. A tape plays once.
pub fn pick_cassette(tapes: &Vec<TapeNearby>) -> (pick: Option<usize>)
    ensures
        pick matches Some(i) ==> i < tapes@.len() && tapes@[i as int].in_reach && !tapes@[i as int].was_played
            && forall|k: int| 0 <= k < i ==> !(#[trigger] tapes@[k]).in_reach || tapes@[k].was_played,
        pick is None ==> forall|k: int| 0 <= k < tapes@.len() ==> !(#[trigger] tapes@[k]).in_reach || tapes@[k].was_played,
{
    let mut i: usize = 0;
    while i < tapes.len()
        invariant
            i <= tapes@.len(),
            forall|k: int| 0 <= k < i ==> !(#[trigger] tapes@[k]).in_reach || tapes@[k].was_played,
        decreases tapes@.len() - i,
    {
        if !tapes[i].was_played && tapes[i].in_reach {
            return Some(i);
        }
        i = i + 1;
    }
    None
}

/// The intro subtitle (title, text) shown when an act begins.
pub open spec fn act_intro_text(act: GameState) -> Option<(Seq<char>, Seq<char>)> {
    match act {
        GameState::Act1_TheDescent => Some(("ACT 1 - THE DESCENT"@,
            "Sector G. The blast door seals behind you. Find the generator lever and get the lights back."@)),
        GameState::Act2_TheInsanity => Some(("ACT 2 - REJECTION"@,
            "Only the red emergency light remains. Collect 5 echo fragments. Do not let your torch die."@)),
        GameState::Act3_TheReactor => Some(("ACT 3 - THE REACTOR"@,
            "Three minutes to meltdown. All lights are dead. Reach the lift - and hold your light on the shadow."@)),
        _ => None,
    }
}

/// The intro subtitle of an act; none outside the acts.
pub fn act_intro(act: GameState) -> (intro: Option<(&'static str, &'static str)>)
    ensures
        intro is None <==> act_intro_text(act) is None,
        intro matches Some(t) ==> act_intro_text(act) == Some((t.0@, t.1@)),
{
    match act {
        GameState::Act1_TheDescent => Some(("ACT 1 - THE DESCENT",
            "Sector G. The blast door seals behind you. Find the generator lever and get the lights back.")),
        GameState::Act2_TheInsanity => Some(("ACT 2 - REJECTION",
            "Only the red emergency light remains. Collect 5 echo fragments. Do not let your torch die.")),
        GameState::Act3_TheReactor => Some(("ACT 3 - THE REACTOR",
            "Three minutes to meltdown. All lights are dead. Reach the lift - and hold your light on the shadow.")),
        _ => None,
    }
}

/// How many screamer image-and-sound pairs there are.
pub const SCREAMER_PAIRS: usize = 3;

/// The screamer image of pair `i` (path inside `assets/`).
pub open spec fn screamer_image(i: int) -> Seq<char> {
    if i == 0 {
        "screamers/skrimer1.png"@
    } else if i == 1 {
        "screamers/skrimer2.png"@
    } else {
        "screamers/skrimer3.png"@
    }
}

/// The screamer sound of pair `i` (path inside `assets/`).
pub open spec fn screamer_sound(i: int) -> Seq<char> {
    if i == 0 {
        "audio/scream1.mp3"@
    } else if i == 1 {
        "audio/scream2.mp3"@
    } else {
        "audio/scream3.mp3"@
    }
}

/// The files of screamer pair `index`: the image and the sound with the
/// same number.
pub fn screamer_files(index: usize) -> (files: (&'static str, &'static str))
    requires
        index < SCREAMER_PAIRS,
    ensures
        files.0@ == screamer_image(index as int),
        files.1@ == screamer_sound(index as int),
{
    if index == 0 {
        ("screamers/skrimer1.png", "audio/scream1.mp3")
    } else if index == 1 {
        ("screamers/skrimer2.png", "audio/scream2.mp3")
    } else {
        ("screamers/skrimer3.png", "audio/scream3.mp3")
    }
}

/// A random screamer pair: an index below [`SCREAMER_PAIRS`].
pub fn pick_screamer(rng: &mut StdRng) -> (index: usize)
    ensures
        index < SCREAMER_PAIRS,
{
    let i = gen_range_i32(rng, 0, 3);
    i as usize
}

/// The ambient tracks of the acts, played in turn (paths inside `assets/`).
pub fn ambient_track(index: usize) -> (path: &'static str)
    ensures
        index % 2 == 0 ==> path@ == "audio/ambient1.mp3"@,
        index % 2 == 1 ==> path@ == "audio/ambient2.mp3"@,
{
    if index % 2 == 0 {
        "audio/ambient1.mp3"
    } else {
        "audio/ambient2.mp3"
    }
}

/// The ambient track after `index`: the two tracks alternate.
pub fn next_ambient_index(index: usize) -> (next: usize)
    ensures
        next == (index + 1) % 2,
{
    (index % 2 + 1) % 2
}

} // verus!
