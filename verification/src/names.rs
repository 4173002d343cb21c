//! The display names of the players: for each identifier the name it had in the latest
//! match, and the players of a roster that an aggregate knows nothing of.

use crate::aggregate::NS2Stats;
use crate::input_types::{GameStats, PlayerStat, SteamId};
use crate::keyed::{keyed, lemma_keyed_push, lemma_keyed_update};
use vstd::prelude::*;

verus! {

/// The names after the first `upto` players of a match: each player's name replaces the
/// name that the identifier had before.
pub open spec fn with_players(
    names: Map<SteamId, Seq<char>>,
    players: Seq<PlayerStat>,
    upto: int,
) -> Map<SteamId, Seq<char>>
    decreases upto,
{
    if upto <= 0 {
        names
    } else {
        with_players(names, players, upto - 1).insert(
            players[upto - 1].steam_id,
            players[upto - 1].player_name@,
        )
    }
}

/// The names after a sequence of matches: for each identifier the name of the last
/// match in which it played.
pub open spec fn names_of(games: Seq<GameStats>) -> Map<SteamId, Seq<char>>
    decreases games.len(),
{
    if games.len() == 0 {
        Map::empty()
    } else {
        with_players(
            names_of(games.drop_last()),
            games.last().player_stats@,
            games.last().player_stats.len() as int,
        )
    }
}

/// The identifiers of a list of names.
pub open spec fn name_ids(list: Seq<(SteamId, String)>) -> Seq<SteamId> {
    list.map_values(|e: (SteamId, String)| e.0)
}

/// The names of a list of names.
pub open spec fn name_texts(list: Seq<(SteamId, String)>) -> Seq<Seq<char>> {
    list.map_values(|e: (SteamId, String)| e.1@)
}

/// A list of names as a map from the identifiers.
pub open spec fn names_view(list: Seq<(SteamId, String)>) -> Map<SteamId, Seq<char>> {
    keyed(name_ids(list), name_texts(list))
}

/// The position of `id` in a list of names.
fn find_name(list: &Vec<(SteamId, String)>, id: SteamId) -> (r: Option<usize>)
    ensures
        r matches Some(i) ==> i < list.len() && list[i as int].0 == id,
        r is None ==> !name_ids(list@).contains(id),
{
    let mut i: usize = 0;
    while i < list.len()
        invariant
            i <= list.len(),
            forall|k: int| 0 <= k < i ==> (#[trigger] list[k]).0 != id,
        decreases list.len() - i,
    {
        if list[i].0 == id {
            return Some(i);
        }
        i += 1;
    }
    None
}

/// The display names of the players of the matches, each identifier once: the name it
/// had in the last match in which it played.
pub fn player_names(games: &Vec<GameStats>) -> (list: Vec<(SteamId, String)>)
    ensures
        name_ids(list@).no_duplicates(),
        names_view(list@) == names_of(games@),
{
    let mut list: Vec<(SteamId, String)> = Vec::new();
    let mut g: usize = 0;
    while g < games.len()
        invariant
            g <= games.len(),
            name_ids(list@).no_duplicates(),
            names_view(list@) == names_of(games@.take(g as int)),
        decreases games.len() - g,
    {
        let players = &games[g].player_stats;
        let ghost start = names_of(games@.take(g as int));
        proof {
            assert(games@.take(g + 1).drop_last() =~= games@.take(g as int));
        }
        let mut i: usize = 0;
        while i < players.len()
            invariant
                i <= players.len(),
                name_ids(list@).no_duplicates(),
                names_view(list@) == with_players(start, players@, i as int),
            decreases players.len() - i,
        {
            let id = players[i].steam_id;
            let name = players[i].player_name.clone();
            let ghost before = list@;
            let ghost text = name@;
            match find_name(&list, id) {
                Some(at) => {
                    list.set(at, (id, name));
                    proof {
                        assert(name_ids(list@) =~= name_ids(before));
                        lemma_keyed_update(name_ids(before), name_texts(before), at as int, text);
                    }
                },
                None => {
                    list.push((id, name));
                    proof {
                        assert(name_ids(list@) =~= name_ids(before).push(id));
                        lemma_keyed_push(name_ids(before), name_texts(before), id, text);
                    }
                },
            }
            i += 1;
        }
        g += 1;
    }
    proof {
        assert(games@.take(g as int) =~= games@);
    }
    list
}

/// The players of the roster of whom the snapshot holds nothing, in the order of the
/// roster.
pub fn unknown_players(stats: &NS2Stats, roster: &Vec<SteamId>) -> (unknown: Vec<SteamId>)
    ensures
        unknown@ == roster@.filter(|id: SteamId| !stats@.players.dom().contains(id)),
{
    let ghost pred = |id: SteamId| !stats@.players.dom().contains(id);
    let mut unknown: Vec<SteamId> = Vec::new();
    let mut i: usize = 0;
    proof {
        reveal(Seq::filter);
    }
    while i < roster.len()
        invariant
            i <= roster.len(),
            pred == |id: SteamId| !stats@.players.dom().contains(id),
            unknown@ == roster@.take(i as int).filter(pred),
        decreases roster.len() - i,
    {
        proof {
            assert(roster@.take(i + 1) =~= roster@.take(i as int).push(roster[i as int]));
            roster@.take(i as int).lemma_filter_push(roster[i as int], pred);
        }
        if stats.user(roster[i]).is_err() {
            unknown.push(roster[i]);
        }
        i += 1;
    }
    proof {
        assert(roster@.take(i as int) =~= roster@);
    }
    unknown
}

} // verus!
