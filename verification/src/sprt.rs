//! The sequential probability ratio test: the tally of game pairs that it
//! works on, and what follows from its outcome.

use crate::counting::count;
use crate::game::{GameRecord, GameResult};
use vstd::prelude::*;

verus! {

/// The tally of game pairs. A pair is two games from the same opening with
/// the colours exchanged; it is named by what the engine that had black
/// first made of it: two wins, a win and a draw, a win and a loss, two draws,
/// a draw and a loss, two losses.
#[derive(Clone, Copy, Debug, PartialEq, Eq, Structural)]
pub struct PentanomialResult {
    pub ww: usize,
    pub wd: usize,
    pub wl: usize,
    pub dd: usize,
    pub dl: usize,
    pub ll: usize,
}

/// The kinds of game pairs.
#[derive(Clone, Copy, Debug, PartialEq, Eq, Structural)]
pub enum PairCategory {
    WW,
    WD,
    WL,
    DD,
    DL,
    LL,
}

/// The kind of a pair, from the results of its two games in the order in
/// which they were scheduled.
pub open spec fn pair_category(first: GameResult, second: GameResult) -> PairCategory {
    match (first, second) {
        (GameResult::WhiteWin, GameResult::BlackWin) => PairCategory::LL,
        (GameResult::WhiteWin, GameResult::Draw) => PairCategory::DL,
        (GameResult::Draw, GameResult::BlackWin) => PairCategory::DL,
        (GameResult::WhiteWin, GameResult::WhiteWin) => PairCategory::WL,
        (GameResult::BlackWin, GameResult::BlackWin) => PairCategory::WL,
        (GameResult::Draw, GameResult::Draw) => PairCategory::DD,
        (GameResult::BlackWin, GameResult::Draw) => PairCategory::WD,
        (GameResult::Draw, GameResult::WhiteWin) => PairCategory::WD,
        (GameResult::BlackWin, GameResult::WhiteWin) => PairCategory::WW,
    }
}

pub fn categorize(first: GameResult, second: GameResult) -> (c: PairCategory)
    ensures
        c == pair_category(first, second),
{
    match (first, second) {
        (GameResult::WhiteWin, GameResult::BlackWin) => PairCategory::LL,
        (GameResult::WhiteWin, GameResult::Draw) => PairCategory::DL,
        (GameResult::Draw, GameResult::BlackWin) => PairCategory::DL,
        (GameResult::WhiteWin, GameResult::WhiteWin) => PairCategory::WL,
        (GameResult::BlackWin, GameResult::BlackWin) => PairCategory::WL,
        (GameResult::Draw, GameResult::Draw) => PairCategory::DD,
        (GameResult::BlackWin, GameResult::Draw) => PairCategory::WD,
        (GameResult::Draw, GameResult::WhiteWin) => PairCategory::WD,
        (GameResult::BlackWin, GameResult::WhiteWin) => PairCategory::WW,
    }
}

/// Whether both games of pair `k`, the rounds `2k` and `2k + 1`, have been
/// played.
pub open spec fn pair_played(finished: Seq<Option<GameRecord>>, k: nat) -> bool {
    2 * k + 1 < finished.len() && finished[2 * k as int] is Some && finished[2 * k + 1 as int] is Some
}

/// The pairs that have been played.
pub open spec fn is_pair(finished: Seq<Option<GameRecord>>) -> spec_fn(nat) -> bool {
    |k: nat| pair_played(finished, k)
}

/// The pairs of the given kind that have been played.
pub open spec fn is_pair_of(finished: Seq<Option<GameRecord>>, category: PairCategory) -> spec_fn(
    nat,
) -> bool {
    |k: nat|
        pair_played(finished, k) && pair_category(
            finished[2 * k as int]->0.counted(),
            finished[2 * k + 1 as int]->0.counted(),
        ) == category
}

impl PentanomialResult {
    /// The number of pairs of a kind.
    pub open spec fn of(self, category: PairCategory) -> nat {
        (match category {
            PairCategory::WW => self.ww,
            PairCategory::WD => self.wd,
            PairCategory::WL => self.wl,
            PairCategory::DD => self.dd,
            PairCategory::DL => self.dl,
            PairCategory::LL => self.ll,
        }) as nat
    }

    /// The number of pairs in the tally.
    pub open spec fn pairs(self) -> nat {
        (self.ww + self.wd + self.wl + self.dd + self.dl + self.ll) as nat
    }

    /// The tally holds the pairs of each kind that have been played, and no
    /// others.
    pub open spec fn is_tally_of(self, finished: Seq<Option<GameRecord>>) -> bool {
        &&& forall|c: PairCategory|
            #[trigger] self.of(c) == count(is_pair_of(finished, c), finished.len() / 2)
        &&& self.pairs() == count(is_pair(finished), finished.len() / 2)
    }

    /// The tally of the pairs that have been played. A game without a
    /// result counts as a draw; a pair of which a game is missing does not
    /// count.
    pub fn tally(finished: &Vec<Option<GameRecord>>) -> (result: PentanomialResult)
        ensures
            result.is_tally_of(finished@),
    {
        let mut result = PentanomialResult { ww: 0, wd: 0, wl: 0, dd: 0, dl: 0, ll: 0 };
        let pairs = finished.len() / 2;
        let mut k: usize = 0;
        while k < pairs
            invariant
                k <= pairs,
                finished@.len() <= usize::MAX,
                pairs == finished@.len() / 2,
                forall|c: PairCategory|
                    #[trigger] result.of(c) == count(is_pair_of(finished@, c), k as nat),
                result.pairs() == count(is_pair(finished@), k as nat),
                result.pairs() <= k,
            decreases pairs - k,
        {
            let ghost before = result;
            assert(2 * k + 1 < finished@.len());
            match (&finished[2 * k], &finished[2 * k + 1]) {
                (Some(first), Some(second)) => {
                    let r1 = match first.game_result {
                        Some(r) => r,
                        None => GameResult::Draw,
                    };
                    let r2 = match second.game_result {
                        Some(r) => r,
                        None => GameResult::Draw,
                    };
                    match categorize(r1, r2) {
                        PairCategory::WW => {
                            result.ww += 1;
                        },
                        PairCategory::WD => {
                            result.wd += 1;
                        },
                        PairCategory::WL => {
                            result.wl += 1;
                        },
                        PairCategory::DD => {
                            result.dd += 1;
                        },
                        PairCategory::DL => {
                            result.dl += 1;
                        },
                        PairCategory::LL => {
                            result.ll += 1;
                        },
                    }
                },
                _ => {},
            }
            proof {
                assert forall|c: PairCategory| #[trigger]
                    result.of(c) == count(is_pair_of(finished@, c), (k + 1) as nat) by {
                    assert(before.of(c) == count(is_pair_of(finished@, c), k as nat));
                }
            }
            k += 1;
        }
        result
    }
}

/// What the test has come to.
#[derive(Clone, Copy, Debug, PartialEq, Eq, Structural)]
pub enum SprtVerdict {
    /// The ratio lies between the bounds: the games go on.
    Continue,
    /// The ratio has fallen to the lower bound: the engine under test is not
    /// the stronger one.
    Failed,
    /// The ratio has risen to the upper bound: the engine under test is the
    /// stronger one.
    Passed,
}

impl SprtVerdict {
    /// The verdict, from how the ratio compares with the two bounds. The
    /// lower bound is looked at first.
    pub fn from_bounds(at_or_below_lower: bool, at_or_above_upper: bool) -> (v: SprtVerdict)
        ensures
            v == if at_or_below_lower {
                SprtVerdict::Failed
            } else if at_or_above_upper {
                SprtVerdict::Passed
            } else {
                SprtVerdict::Continue
            },
    {
        if at_or_below_lower {
            SprtVerdict::Failed
        } else if at_or_above_upper {
            SprtVerdict::Passed
        } else {
            SprtVerdict::Continue
        }
    }

    /// Whether the tournament is to stop.
    pub fn stops(self) -> (b: bool)
        ensures
            b == (self != SprtVerdict::Continue),
    {
        match self {
            SprtVerdict::Continue => false,
            _ => true,
        }
    }
}

} // verus!
