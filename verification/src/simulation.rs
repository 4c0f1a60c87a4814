//! The score of a match between two engines.

use crate::decimal::{decimal_digits, push_decimal};
use vstd::prelude::*;

verus! {

#[derive(Clone, Copy, PartialEq, Eq, Debug, Default, Structural)]
pub struct MatchScore {
    pub wins: u64,
    pub draws: u64,
    pub losses: u64,
}

impl MatchScore {
    pub open spec fn games(self) -> nat {
        (self.wins + self.draws + self.losses) as nat
    }

    /// The score as it is shown: wins, losses and draws.
    pub open spec fn text(self) -> Seq<char> {
        "+"@ + decimal_digits(self.wins as nat) + "-"@ + decimal_digits(self.losses as nat) + "="@
            + decimal_digits(self.draws as nat)
    }

    pub fn to_string(&self) -> (s: String)
        ensures
            s@ == self.text(),
    {
        let mut s = String::from_str("+");
        push_decimal(&mut s, self.wins as u128);
        s.append("-");
        push_decimal(&mut s, self.losses as u128);
        s.append("=");
        push_decimal(&mut s, self.draws as u128);
        s
    }

    pub fn num_games(self) -> (n: u64)
        requires
            self.games() <= u64::MAX,
        ensures
            n == self.games(),
    {
        self.wins + self.draws + self.losses
    }
}

} // verus!
