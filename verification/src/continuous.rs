//! Snapshots over time: the matches of a range of dates, and the numbers after each of
//! them.

use crate::aggregate::{
    all_well_formed, are_well_formed, compute_totals, lemma_compute_prefix_fits, NS2Stats,
};
use crate::error::Error;
use crate::input_types::GameStats;
use vstd::prelude::*;

verus! {

/// One end of a range of dates.
#[derive(Clone, Copy, Debug, PartialEq, Eq, Structural)]
pub enum DateBound {
    /// The range reaches to this date, the date itself included.
    Included(u32),
    /// The range has no end on this side.
    Unbounded,
}

/// A range of dates in Unix time; an end that is not given is open.
#[derive(Clone, Copy, Debug, PartialEq, Eq, Structural)]
pub struct DateQuery {
    pub from: Option<u32>,
    pub to: Option<u32>,
}

impl DateQuery {
    /// Whether `date` lies in the range.
    pub open spec fn holds(self, date: u32) -> bool {
        &&& (self.from matches Some(from) ==> from <= date)
        &&& (self.to matches Some(to) ==> date <= to)
    }

    /// The two ends of the range.
    pub fn to_range_bounds(self) -> (r: (DateBound, DateBound))
        ensures
            r.0 == match self.from {
                Some(bound) => DateBound::Included(bound),
                None => DateBound::Unbounded,
            },
            r.1 == match self.to {
                Some(bound) => DateBound::Included(bound),
                None => DateBound::Unbounded,
            },
    {
        (
            match self.from {
                Some(bound) => DateBound::Included(bound),
                None => DateBound::Unbounded,
            },
            match self.to {
                Some(bound) => DateBound::Included(bound),
                None => DateBound::Unbounded,
            },
        )
    }

    /// Whether `date` lies in the range.
    pub fn contains(self, date: u32) -> (r: bool)
        ensures
            r == self.holds(date),
    {
        let (from, to) = self.to_range_bounds();
        let late_enough = match from {
            DateBound::Included(bound) => bound <= date,
            DateBound::Unbounded => true,
        };
        let early_enough = match to {
            DateBound::Included(bound) => date <= bound,
            DateBound::Unbounded => true,
        };
        late_enough && early_enough
    }

    /// Keeps the matches whose date lies in the range, in their order.
    pub fn select(self, games: Vec<GameStats>) -> (kept: Vec<GameStats>)
        ensures
            kept@ == games@.filter(|g: GameStats| self.holds(g.round_info.round_date)),
    {
        let ghost all = games@;
        let ghost pred = |g: GameStats| self.holds(g.round_info.round_date);
        let mut kept: Vec<GameStats> = Vec::new();
        proof {
            reveal(Seq::filter);
        }
        for game in it: games
            invariant
                it.seq() == all,
                pred == |g: GameStats| self.holds(g.round_info.round_date),
                kept@ == all.take(it.index() as int).filter(pred),
        {
            proof {
                assert(all.take(it.index() + 1) =~= all.take(it.index() as int).push(game));
                all.take(it.index() as int).lemma_filter_push(game, pred);
            }
            if self.contains(game.round_info.round_date) {
                kept.push(game);
            }
        }
        proof {
            assert(all.take(all.len() as int) =~= all);
        }
        kept
    }
}

/// `list` holds, for each of the matches, its date and the numbers of the matches up to
/// and including it.
pub open spec fn is_continuous(games: Seq<GameStats>, list: Seq<(u32, NS2Stats)>) -> bool {
    &&& list.len() == games.len()
    &&& forall|i: int|
        0 <= i < list.len() ==> {
            &&& (#[trigger] list[i]).0 == games[i].round_info.round_date
            &&& list[i].1@ == compute_totals(games.take(i + 1))
        }
}

/// The numbers after each of the matches in turn, each with the date of its match.
/// Records whose players are not in order are refused with `MalformedRecord`;
/// `CounterOverflow` says that 32 bits cannot hold one of the numbers of all the matches.
pub fn continuous_stats(games: &Vec<GameStats>) -> (r: Result<Vec<(u32, NS2Stats)>, Error>)
    ensures
        r is Ok <==> all_well_formed(games@) && compute_totals(games@).fits(),
        r matches Ok(list) ==> is_continuous(games@, list@),
        r matches Err(e) ==> e == if all_well_formed(games@) {
            Error::CounterOverflow
        } else {
            Error::MalformedRecord
        },
{
    if !are_well_formed(games) {
        return Err(Error::MalformedRecord);
    }
    let mut list: Vec<(u32, NS2Stats)> = Vec::new();
    let mut acc = NS2Stats::new();
    let mut i: usize = 0;
    while i < games.len()
        invariant
            i <= games.len(),
            acc@ == compute_totals(games@.take(i as int)),
            acc@.fits(),
            all_well_formed(games@),
            list.len() == i,
            forall|k: int|
                0 <= k < i ==> {
                    &&& (#[trigger] list[k]).0 == games[k].round_info.round_date
                    &&& list[k].1@ == compute_totals(games@.take(k + 1))
                },
        decreases games.len() - i,
    {
        proof {
            assert(games@.take(i + 1).drop_last() =~= games@.take(i as int));
            if compute_totals(games@).fits() {
                lemma_compute_prefix_fits(games@, i as int);
                lemma_compute_prefix_fits(games@, i + 1);
            }
        }
        let one = match NS2Stats::of_game(&games[i]) {
            Ok(s) => s,
            Err(e) => {
                return Err(e);
            },
        };
        acc = match acc.merge(&one) {
            Ok(s) => s,
            Err(e) => {
                return Err(e);
            },
        };
        list.push((games[i].round_info.round_date, acc.duplicate()));
        i += 1;
    }
    proof {
        assert(games@.take(i as int) =~= games@);
    }
    Ok(list)
}

} // verus!
