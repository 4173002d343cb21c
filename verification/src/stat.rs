//! A counter kept three times over: in total and for each side.

use crate::input_types::Team;
use vstd::prelude::*;

verus! {

/// One number in total, for the marines and for the aliens.
#[derive(Clone, Copy, Debug, PartialEq, Eq)]
pub struct Stat<T> {
    pub total: T,
    pub marines: T,
    pub aliens: T,
}

/// A quotient of two counts, kept as its two parts: the library never divides. A zero
/// denominator stands for a quotient that has no finite value.
#[derive(Clone, Copy, Debug, PartialEq, Eq, Structural)]
pub struct Ratio {
    pub num: u64,
    pub den: u64,
}

impl Stat<nat> {
    /// Nothing counted.
    pub open spec fn zero() -> Stat<nat> {
        Stat { total: 0, marines: 0, aliens: 0 }
    }

    /// `n` counted for `team`.
    pub open spec fn credit(team: Team, n: nat) -> Stat<nat> {
        match team {
            Team::Marines => Stat { total: n, marines: n, aliens: 0 },
            Team::Aliens => Stat { total: n, marines: 0, aliens: n },
        }
    }

    /// `marines` counted for the marines and `aliens` for the aliens.
    pub open spec fn sides(marines: nat, aliens: nat) -> Stat<nat> {
        Stat { total: marines + aliens, marines, aliens }
    }

    /// The sum of two counters, side by side.
    pub open spec fn plus(self, other: Stat<nat>) -> Stat<nat> {
        Stat {
            total: self.total + other.total,
            marines: self.marines + other.marines,
            aliens: self.aliens + other.aliens,
        }
    }

    /// The total is what the two sides have together.
    pub open spec fn consistent(self) -> bool {
        self.total == self.marines + self.aliens
    }

    /// Each of the three numbers can be held in 32 bits.
    pub open spec fn fits(self) -> bool {
        self.total <= u32::MAX && self.marines <= u32::MAX && self.aliens <= u32::MAX
    }
}

impl View for Stat<u32> {
    type V = Stat<nat>;

    open spec fn view(&self) -> Stat<nat> {
        Stat { total: self.total as nat, marines: self.marines as nat, aliens: self.aliens as nat }
    }
}

impl Stat<u32> {
    /// A counter that has counted nothing.
    pub fn new() -> (r: Stat<u32>)
        ensures
            r@ == Stat::<nat>::zero(),
    {
        Stat { total: 0, marines: 0, aliens: 0 }
    }

    /// A counter with `marines` for the marines and `aliens` for the aliens, or `None`
    /// where their sum is too large.
    pub fn of_sides(marines: u32, aliens: u32) -> (r: Option<Stat<u32>>)
        ensures
            r is Some <==> marines + aliens <= u32::MAX,
            r matches Some(s) ==> s@ == Stat::sides(marines as nat, aliens as nat),
    {
        match marines.checked_add(aliens) {
            Some(total) => Some(Stat { total, marines, aliens }),
            None => None,
        }
    }

    /// Counts `n` more for `team`, and so in total.
    pub fn add(&mut self, team: Team, n: u32)
        requires
            old(self)@.plus(Stat::credit(team, n as nat)).fits(),
        ensures
            final(self)@ == old(self)@.plus(Stat::credit(team, n as nat)),
    {
        self.total = self.total + n;
        match team {
            Team::Aliens => {
                self.aliens = self.aliens + n;
            },
            Team::Marines => {
                self.marines = self.marines + n;
            },
        }
    }

    /// Counts `n` more for `team` where the counter can hold it; says whether it did.
    pub fn try_add(&mut self, team: Team, n: u32) -> (done: bool)
        ensures
            done <==> old(self)@.plus(Stat::credit(team, n as nat)).fits(),
            done ==> final(self)@ == old(self)@.plus(Stat::credit(team, n as nat)),
            !done ==> *final(self) == *old(self),
    {
        let side = match team {
            Team::Aliens => self.aliens,
            Team::Marines => self.marines,
        };
        if n > u32::MAX - self.total || n > u32::MAX - side {
            return false;
        }
        self.add(team, n);
        true
    }

    /// The sum of two counters, or `None` where one of its numbers is too large.
    pub fn sum(&self, other: &Stat<u32>) -> (r: Option<Stat<u32>>)
        ensures
            r is Some <==> self@.plus(other@).fits(),
            r matches Some(s) ==> s@ == self@.plus(other@),
    {
        let total = self.total.checked_add(other.total);
        let marines = self.marines.checked_add(other.marines);
        let aliens = self.aliens.checked_add(other.aliens);
        match (total, marines, aliens) {
            (Some(total), Some(marines), Some(aliens)) => Some(Stat { total, marines, aliens }),
            _ => None,
        }
    }
}

/// Counting for a side keeps the total equal to the two sides together.
pub proof fn lemma_credit_consistent(s: Stat<nat>, team: Team, n: nat)
    requires
        s.consistent(),
    ensures
        s.plus(Stat::credit(team, n)).consistent(),
{
}

impl<T: Copy> Stat<T> {
    /// The counter that `f` makes of each of the three numbers.
    pub fn map<U, F: Fn(T) -> U>(self, f: F) -> (r: Stat<U>)
        requires
            call_requires(f, (self.total,)),
            call_requires(f, (self.marines,)),
            call_requires(f, (self.aliens,)),
        ensures
            call_ensures(f, (self.total,), r.total),
            call_ensures(f, (self.marines,), r.marines),
            call_ensures(f, (self.aliens,), r.aliens),
    {
        Stat { total: f(self.total), marines: f(self.marines), aliens: f(self.aliens) }
    }

    /// Two counters as one counter of pairs.
    pub fn zip<U: Copy>(self, other: Stat<U>) -> (r: Stat<(T, U)>)
        ensures
            r.total == (self.total, other.total),
            r.marines == (self.marines, other.marines),
            r.aliens == (self.aliens, other.aliens),
    {
        Stat {
            total: (self.total, other.total),
            marines: (self.marines, other.marines),
            aliens: (self.aliens, other.aliens),
        }
    }
}

/// The quotient of two counts.
pub open spec fn ratio(num: int, den: int) -> Ratio {
    Ratio { num: num as u64, den: den as u64 }
}

/// The quotients of two counters, side by side.
pub open spec fn ratios(num: Stat<int>, den: Stat<int>) -> Stat<Ratio> {
    Stat {
        total: ratio(num.total, den.total),
        marines: ratio(num.marines, den.marines),
        aliens: ratio(num.aliens, den.aliens),
    }
}

/// The quotient of two counts.
pub fn ratio_of(pair: (u64, u64)) -> (r: Ratio)
    ensures
        r == ratio(pair.0 as int, pair.1 as int),
{
    Ratio { num: pair.0, den: pair.1 }
}

} // verus!
