//! Save-file bookkeeping: the act number stored in a save, and how a
//! loaded save is laid over a freshly generated level.

use vstd::prelude::*;

use crate::game::{GameProgress, GameState};

verus! {

/// The act number a save stores for a game state: 1, 2 or 3 for the acts,
/// none otherwise (only acts can be saved).
pub open spec fn act_number(state: GameState) -> Option<u8> {
    match state {
        GameState::Act1_TheDescent => Some(1u8),
        GameState::Act2_TheInsanity => Some(2u8),
        GameState::Act3_TheReactor => Some(3u8),
        _ => None,
    }
}

/// The act a stored act number stands for; unknown numbers stand for none.
pub open spec fn act_of_number(n: u8) -> Option<GameState> {
    if n == 1 {
        Some(GameState::Act1_TheDescent)
    } else if n == 2 {
        Some(GameState::Act2_TheInsanity)
    } else if n == 3 {
        Some(GameState::Act3_TheReactor)
    } else {
        None
    }
}

/// The act number to write into a save, or `None` when no act is running.
pub fn save_act_number(state: GameState) -> (n: Option<u8>)
    ensures
        n == act_number(state),
{
    match state {
        GameState::Act1_TheDescent => Some(1),
        GameState::Act2_TheInsanity => Some(2),
        GameState::Act3_TheReactor => Some(3),
        _ => None,
    }
}

/// The act to enter for a loaded save, or `None` for an unknown act number
/// (the save is then refused).
pub fn act_from_save_number(n: u8) -> (act: Option<GameState>)
    ensures
        act == act_of_number(n),
{
    match n {
        1 => Some(GameState::Act1_TheDescent),
        2 => Some(GameState::Act2_TheInsanity),
        3 => Some(GameState::Act3_TheReactor),
        _ => None,
    }
}

/// Loading the act number saved for an act enters that same act; a number
/// that loads as an act is the number that act saves as.
pub proof fn lemma_act_number_round_trip(state: GameState, n: u8)
    ensures
        act_number(state) matches Some(k) ==> act_of_number(k) == Some(state),
        act_of_number(n) matches Some(s) ==> act_number(s) == Some(n),
{
}

/// A story tape as saved: which recording, and whether it was heard.
#[derive(Debug, Clone, Copy, PartialEq, Eq, Structural)]
pub struct TapeState {
    pub lore_index: usize,
    pub was_played: bool,
}

/// The recordings of the heard tapes, in tape order.
pub open spec fn heard_lore(tapes: Seq<TapeState>) -> Seq<usize>
    decreases tapes.len(),
{
    if tapes.len() == 0 {
        Seq::empty()
    } else {
        let rest = heard_lore(tapes.drop_last());
        if tapes.last().was_played { rest.push(tapes.last().lore_index) } else { rest }
    }
}

/// The tapes after loading: a tape counts as heard when it was, or when
/// its recording is among those the save lists.
pub open spec fn tapes_restored(tapes: Seq<TapeState>, heard: Seq<usize>) -> Seq<TapeState> {
    tapes.map_values(|t: TapeState| TapeState {
        lore_index: t.lore_index,
        was_played: t.was_played || heard.contains(t.lore_index),
    })
}

/// The recordings of the heard tapes, to store in a save.
pub fn heard_cassettes(tapes: &Vec<TapeState>) -> (heard: Vec<usize>)
    ensures
        heard@ == heard_lore(tapes@),
{
    let mut heard: Vec<usize> = Vec::new();
    let mut i: usize = 0;
    while i < tapes.len()
        invariant
            i <= tapes@.len(),
            heard@ == heard_lore(tapes@.take(i as int)),
        decreases tapes@.len() - i,
    {
        assert(tapes@.take(i + 1).drop_last() =~= tapes@.take(i as int));
        if tapes[i].was_played {
            heard.push(tapes[i].lore_index);
        }
        i = i + 1;
    }
    assert(tapes@.take(tapes@.len() as int) =~= tapes@);
    heard
}

/// Marks as heard every tape whose recording the save lists.
pub fn restore_heard_cassettes(tapes: &mut Vec<TapeState>, heard: &Vec<usize>)
    ensures
        final(tapes)@ == tapes_restored(old(tapes)@, heard@),
{
    let ghost start = tapes@;
    let mut i: usize = 0;
    while i < tapes.len()
        invariant
            i <= tapes@.len(),
            tapes@.len() == start.len(),
            forall|k: int| 0 <= k < i ==> #[trigger] tapes@[k] == tapes_restored(start, heard@)[k],
            forall|k: int| i <= k < tapes@.len() ==> #[trigger] tapes@[k] == start[k],
        decreases tapes@.len() - i,
    {
        let t = tapes[i];
        let mut found = false;
        let mut j: usize = 0;
        while j < heard.len()
            invariant
                j <= heard@.len(),
                found == (exists|k: int| 0 <= k < j && heard@[k] == t.lore_index),
            decreases heard@.len() - j,
        {
            if heard[j] == t.lore_index {
                found = true;
            }
            j = j + 1;
        }
        proof {
            if found {
                let k = choose|k: int| 0 <= k < heard@.len() && heard@[k] == t.lore_index;
                assert(heard@.contains(t.lore_index));
            }
        }
        tapes[i] = TapeState { lore_index: t.lore_index, was_played: t.was_played || found };
        i = i + 1;
    }
    assert(tapes@ =~= tapes_restored(start, heard@));
}

proof fn lemma_heard_lore_contains(tapes: Seq<TapeState>, lore: usize)
    ensures
        heard_lore(tapes).contains(lore) <==> exists|k: int| 0 <= k < tapes.len()
            && (#[trigger] tapes[k]).was_played && tapes[k].lore_index == lore,
    decreases tapes.len(),
{
    if tapes.len() > 0 {
        let rest = tapes.drop_last();
        lemma_heard_lore_contains(rest, lore);
        if heard_lore(rest).contains(lore) {
            let k = choose|k: int| 0 <= k < rest.len() && (#[trigger] rest[k]).was_played && rest[k].lore_index == lore;
            assert(tapes[k] == rest[k]);
        }
        if exists|k: int| 0 <= k < tapes.len() && (#[trigger] tapes[k]).was_played && tapes[k].lore_index == lore {
            let k = choose|k: int| 0 <= k < tapes.len() && (#[trigger] tapes[k]).was_played && tapes[k].lore_index == lore;
            if k < rest.len() {
                assert(rest[k] == tapes[k]);
            } else {
                assert(heard_lore(tapes) == heard_lore(rest).push(lore));
                assert(heard_lore(tapes)[heard_lore(tapes).len() - 1] == lore);
            }
        }
        if tapes.last().was_played {
            let r = heard_lore(rest);
            assert forall|x: usize| r.push(tapes.last().lore_index).contains(x) <==> r.contains(x) || x == tapes.last().lore_index by {
                if r.push(tapes.last().lore_index).contains(x) {
                    let k = r.push(tapes.last().lore_index).index_of(x);
                    if k < r.len() {
                        assert(r[k] == x);
                    }
                }
                if r.contains(x) {
                    let k = r.index_of(x);
                    assert(r.push(tapes.last().lore_index)[k] == x);
                }
                if x == tapes.last().lore_index {
                    assert(r.push(tapes.last().lore_index)[r.len() as int] == x);
                }
            }
        }
    }
}

/// Saving which tapes were heard and loading that list back onto the same
/// tapes gives back exactly the tapes, when no two tapes hold the same
/// recording.
pub proof fn lemma_heard_cassettes_round_trip(tapes: Seq<TapeState>)
    requires
        forall|i: int, j: int| 0 <= i < j < tapes.len() ==> (#[trigger] tapes[i]).lore_index != (#[trigger] tapes[j]).lore_index,
    ensures
        tapes_restored(tapes, heard_lore(tapes)) == tapes,
{
    assert forall|i: int| 0 <= i < tapes.len() implies #[trigger] tapes_restored(tapes, heard_lore(tapes))[i] == tapes[i] by {
        lemma_heard_lore_contains(tapes, tapes[i].lore_index);
        if heard_lore(tapes).contains(tapes[i].lore_index) {
            let k = choose|k: int| 0 <= k < tapes.len() && (#[trigger] tapes[k]).was_played
                && tapes[k].lore_index == tapes[i].lore_index;
            if k < i {
                assert(tapes[k].lore_index != tapes[i].lore_index);
            } else if k > i {
                assert(tapes[i].lore_index != tapes[k].lore_index);
            }
        }
    }
    assert(tapes_restored(tapes, heard_lore(tapes)) =~= tapes);
}

/// Whether the save lists keepsake `index` as already found (it is then
/// not placed again).
pub fn keepsake_collected(quests_done: &Vec<usize>, index: usize) -> (r: bool)
    ensures
        r == quests_done@.contains(index),
{
    let mut i: usize = 0;
    while i < quests_done.len()
        invariant
            i <= quests_done@.len(),
            forall|k: int| 0 <= k < i ==> quests_done@[k] != index,
        decreases quests_done@.len() - i,
    {
        if quests_done[i] == index {
            assert(quests_done@[i as int] == index);
            return true;
        }
        i = i + 1;
    }
    false
}

/// Lays the saved counters over the fresh run: the fragment count is
/// capped by the total, the keepsake count is taken as saved. Returns how
/// many of the `fragments_present` fragments of the fresh level must go,
/// so that only the ones still to find remain.
pub fn restore_progress(progress: &mut GameProgress, saved_collected: u32, saved_quest_items: u32,
    fragments_present: usize) -> (remove: usize)
    ensures
        final(progress).collected == if saved_collected < old(progress).total { saved_collected } else { old(progress).total },
        final(progress).quest_items == saved_quest_items,
        final(progress).total == old(progress).total,
        final(progress).ending == old(progress).ending,
        remove == if fragments_present > final(progress).total - final(progress).collected {
            fragments_present - (final(progress).total - final(progress).collected)
        } else {
            0
        },
{
    progress.collected = if saved_collected < progress.total { saved_collected } else { progress.total };
    progress.quest_items = saved_quest_items;
    let keep = progress.total - progress.collected;
    if fragments_present > keep as usize {
        fragments_present - keep as usize
    } else {
        0
    }
}

} // verus!
