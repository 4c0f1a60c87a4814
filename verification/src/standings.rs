//! How the finished games add up: who has beaten whom how often.

use crate::counting::count;
use crate::game::{GameRecord, GameResult, ScheduledGame};
use crate::simulation::MatchScore;
use crate::sprt::PentanomialResult;
use crate::tournament::TournamentType;
use vstd::prelude::*;

verus! {

/// The sum of the numbers of a table.
pub open spec fn sum(s: Seq<u64>) -> nat
    decreases s.len(),
{
    if s.len() == 0 {
        0
    } else {
        sum(s.drop_last()) + s.last() as nat
    }
}

pub proof fn lemma_sum_zeros(s: Seq<u64>)
    requires
        forall|i: int| 0 <= i < s.len() ==> s[i] == 0,
    ensures
        sum(s) == 0,
    decreases s.len(),
{
    if s.len() > 0 {
        lemma_sum_zeros(s.drop_last());
    }
}

/// A table with one of its numbers changed.
pub proof fn lemma_sum_update(s: Seq<u64>, k: int, v: u64)
    requires
        0 <= k < s.len(),
    ensures
        sum(s.update(k, v)) == sum(s) - s[k] + v,
    decreases s.len(),
{
    if k == s.len() - 1 {
        assert(s.update(k, v).drop_last() == s.drop_last());
    } else {
        assert(s.update(k, v).drop_last() == s.drop_last().update(k, v));
        lemma_sum_update(s.drop_last(), k, v);
    }
}

/// The result of round `r` as the standings count it, where the round has
/// been played and is on the schedule.
pub open spec fn round_result(
    schedule: Seq<ScheduledGame>,
    finished: Seq<Option<GameRecord>>,
    r: nat,
) -> Option<GameResult> {
    if r < schedule.len() && r < finished.len() {
        match finished[r as int] {
            Some(g) => Some(g.counted()),
            None => None,
        }
    } else {
        None
    }
}

/// The rounds that have been played.
pub open spec fn is_played(schedule: Seq<ScheduledGame>, finished: Seq<Option<GameRecord>>)
    -> spec_fn(nat) -> bool {
    |r: nat| round_result(schedule, finished, r) is Some
}

/// The rounds that have ended with the given result.
pub open spec fn has_result(
    schedule: Seq<ScheduledGame>,
    finished: Seq<Option<GameRecord>>,
    result: GameResult,
) -> spec_fn(nat) -> bool {
    |r: nat| round_result(schedule, finished, r) == Some(result)
}

/// The rounds that have ended with the given result with engine `i` as
/// white and engine `j` as black.
pub open spec fn has_result_between(
    schedule: Seq<ScheduledGame>,
    finished: Seq<Option<GameRecord>>,
    result: GameResult,
    i: nat,
    j: nat,
) -> spec_fn(nat) -> bool {
    |r: nat|
        round_result(schedule, finished, r) == Some(result) && schedule[r as int].white_engine_id.0
            == i && schedule[r as int].black_engine_id.0 == j
}

/// How often engine `i` has beaten engine `j` in the first `n` rounds, with
/// either colour.
pub open spec fn wins_of(
    schedule: Seq<ScheduledGame>,
    finished: Seq<Option<GameRecord>>,
    i: nat,
    j: nat,
    n: nat,
) -> nat {
    count(has_result_between(schedule, finished, GameResult::WhiteWin, i, j), n) + count(
        has_result_between(schedule, finished, GameResult::BlackWin, j, i),
        n,
    )
}

/// The draws of engine `i` against engine `j` in the first `n` rounds, with
/// either colour. A draw of an engine against itself counts for both of its
/// sides.
pub open spec fn draws_of(
    schedule: Seq<ScheduledGame>,
    finished: Seq<Option<GameRecord>>,
    i: nat,
    j: nat,
    n: nat,
) -> nat {
    count(has_result_between(schedule, finished, GameResult::Draw, i, j), n) + count(
        has_result_between(schedule, finished, GameResult::Draw, j, i),
        n,
    )
}

/// The sum of the first `n` numbers of a row.
pub open spec fn sum_to(f: spec_fn(nat) -> nat, n: nat) -> nat
    decreases n,
{
    if n == 0 {
        0
    } else {
        sum_to(f, (n - 1) as nat) + f((n - 1) as nat)
    }
}

/// The wins of engine `i` against each engine in the first `n` rounds.
pub open spec fn wins_row(
    schedule: Seq<ScheduledGame>,
    finished: Seq<Option<GameRecord>>,
    i: nat,
    n: nat,
) -> spec_fn(nat) -> nat {
    |j: nat| wins_of(schedule, finished, i, j, n)
}

/// The wins of each engine against all of the `engines` engines in the first
/// `n` rounds.
pub open spec fn wins_rows(
    schedule: Seq<ScheduledGame>,
    finished: Seq<Option<GameRecord>>,
    engines: nat,
    n: nat,
) -> spec_fn(nat) -> nat {
    |i: nat| sum_to(wins_row(schedule, finished, i, n), engines)
}

/// The wins of all engines against all engines in the first `n` rounds,
/// added up.
pub open spec fn all_wins_of(
    schedule: Seq<ScheduledGame>,
    finished: Seq<Option<GameRecord>>,
    engines: nat,
    n: nat,
) -> nat {
    sum_to(wins_rows(schedule, finished, engines, n), engines)
}

/// The games that have been played.
pub open spec fn is_some_game() -> spec_fn(Option<GameRecord>) -> bool {
    |g: Option<GameRecord>| g is Some
}

/// The number of games that have been played.
pub open spec fn num_played(finished: Seq<Option<GameRecord>>) -> nat {
    finished.filter(is_some_game()).len()
}

/// Every round of the schedule has engines below `engines` on both sides.
pub open spec fn engines_in_range(schedule: Seq<ScheduledGame>, engines: nat) -> bool {
    forall|r: int|
        0 <= r < schedule.len() ==> (#[trigger] schedule[r]).white_engine_id.0 < engines
            && schedule[r].black_engine_id.0 < engines
}

proof fn lemma_sum_to_add(
    f: spec_fn(nat) -> nat,
    g: spec_fn(nat) -> nat,
    h: spec_fn(nat) -> nat,
    n: nat,
)
    requires
        forall|i: nat| i < n ==> #[trigger] h(i) == f(i) + g(i),
    ensures
        sum_to(h, n) == sum_to(f, n) + sum_to(g, n),
    decreases n,
{
    if n > 0 {
        lemma_sum_to_add(f, g, h, (n - 1) as nat);
    }
}

/// A row that holds one number and nothing else adds up to that number.
proof fn lemma_sum_to_point(f: spec_fn(nat) -> nat, n: nat, at: nat, v: nat)
    requires
        forall|i: nat|
            i < n ==> #[trigger] f(i) == if i == at {
                v
            } else {
                0
            },
    ensures
        sum_to(f, n) == if at < n {
            v
        } else {
            0
        },
    decreases n,
{
    if n > 0 {
        lemma_sum_to_point(f, (n - 1) as nat, at, v);
    }
}

/// Every game that has been won is a win of one engine against another: the
/// wins of all engines against all engines are the wins of white and the
/// wins of black.
pub proof fn lemma_all_wins(
    schedule: Seq<ScheduledGame>,
    finished: Seq<Option<GameRecord>>,
    engines: nat,
    n: nat,
)
    requires
        engines_in_range(schedule, engines),
    ensures
        all_wins_of(schedule, finished, engines, n) == count(
            has_result(schedule, finished, GameResult::WhiteWin),
            n,
        ) + count(has_result(schedule, finished, GameResult::BlackWin), n),
    decreases n,
{
    if n == 0 {
        let rows = wins_rows(schedule, finished, engines, 0);
        assert forall|i: nat| i < engines implies #[trigger] rows(i) == 0 by {
            lemma_sum_to_point(wins_row(schedule, finished, i, 0), engines, engines, 0);
        }
        lemma_sum_to_point(rows, engines, engines, 0);
    } else {
        let m = (n - 1) as nat;
        lemma_all_wins(schedule, finished, engines, m);
        let result = round_result(schedule, finished, m);
        let won = result == Some(GameResult::WhiteWin) || result == Some(GameResult::BlackWin);
        let white = schedule[m as int].white_engine_id.0 as nat;
        let black = schedule[m as int].black_engine_id.0 as nat;
        let winner = if result == Some(GameResult::WhiteWin) {
            white
        } else {
            black
        };
        let loser = if result == Some(GameResult::WhiteWin) {
            black
        } else {
            white
        };
        let gain: nat = if won {
            1
        } else {
            0
        };
        let rows = wins_rows(schedule, finished, engines, n);
        let rows_before = wins_rows(schedule, finished, engines, m);
        let step = |i: nat|
            if i == winner {
                gain
            } else {
                0nat
            };
        assert forall|i: nat| i < engines implies #[trigger] rows(i) == rows_before(i) + step(
            i,
        ) by {
            let row = wins_row(schedule, finished, i, n);
            let row_before = wins_row(schedule, finished, i, m);
            let here = |j: nat|
                if j == loser {
                    step(i)
                } else {
                    0nat
                };
            assert forall|j: nat| j < engines implies #[trigger] row(j) == row_before(j) + here(
                j,
            ) by {
                let as_white = has_result_between(
                    schedule,
                    finished,
                    GameResult::WhiteWin,
                    i,
                    j,
                );
                let as_black = has_result_between(
                    schedule,
                    finished,
                    GameResult::BlackWin,
                    j,
                    i,
                );
                assert(count(as_white, n) == count(as_white, m) + if as_white(m) {
                    1nat
                } else {
                    0nat
                });
                assert(count(as_black, n) == count(as_black, m) + if as_black(m) {
                    1nat
                } else {
                    0nat
                });
            }
            lemma_sum_to_add(row_before, here, row, engines);
            lemma_sum_to_point(here, engines, loser, step(i));
        }
        lemma_sum_to_add(rows_before, step, rows, engines);
        lemma_sum_to_point(step, engines, winner, gain);
    }
}

/// A game that has been played has been won by white, won by black, or
/// drawn.
pub proof fn lemma_played_by_result(
    schedule: Seq<ScheduledGame>,
    finished: Seq<Option<GameRecord>>,
    n: nat,
)
    ensures
        count(is_played(schedule, finished), n) == count(
            has_result(schedule, finished, GameResult::WhiteWin),
            n,
        ) + count(has_result(schedule, finished, GameResult::BlackWin), n) + count(
            has_result(schedule, finished, GameResult::Draw),
            n,
        ),
    decreases n,
{
    if n > 0 {
        lemma_played_by_result(schedule, finished, (n - 1) as nat);
    }
}

/// The rounds that have been played are the games that are there.
pub proof fn lemma_played_are_finished(
    schedule: Seq<ScheduledGame>,
    finished: Seq<Option<GameRecord>>,
    n: nat,
)
    requires
        n <= finished.len() <= schedule.len(),
    ensures
        count(is_played(schedule, finished), n) == num_played(finished.take(n as int)),
    decreases n,
{
    reveal(Seq::filter);
    if n > 0 {
        lemma_played_are_finished(schedule, finished, (n - 1) as nat);
        assert(finished.take(n as int).drop_last() == finished.take(n - 1));
    }
}

/// Wins and draws add up to the games that have been played: where every
/// round has engines of the tournament on both sides, the wins of all engines
/// against all engines and the games that were drawn or have no result are
/// together the games that have been played. Where there is a place for the
/// game of every round, these are the games that are there.
pub proof fn lemma_wins_and_draws_are_the_games_played(
    schedule: Seq<ScheduledGame>,
    finished: Seq<Option<GameRecord>>,
    engines: nat,
)
    requires
        engines_in_range(schedule, engines),
    ensures
        all_wins_of(schedule, finished, engines, schedule.len()) + count(
            has_result(schedule, finished, GameResult::Draw),
            schedule.len(),
        ) == count(is_played(schedule, finished), schedule.len()),
        finished.len() == schedule.len() ==> count(
            is_played(schedule, finished),
            schedule.len(),
        ) == num_played(finished),
{
    lemma_all_wins(schedule, finished, engines, schedule.len());
    lemma_played_by_result(schedule, finished, schedule.len());
    if finished.len() == schedule.len() {
        lemma_played_are_finished(schedule, finished, schedule.len());
        assert(finished.take(schedule.len() as int) == finished);
    }
}

/// The standings of a tournament of `engines` engines.
#[derive(Debug)]
pub struct Standings {
    pub engines: usize,
    /// Each engine's number of wins against each other engine, row by row.
    pub engine_wins: Vec<u64>,
    /// Each engine's number of draws against each other engine, row by row.
    pub engine_draws: Vec<u64>,
    pub white_wins: u64,
    pub black_wins: u64,
    pub draws: u64,
}

impl Standings {
    pub open spec fn engines(&self) -> nat {
        self.engines as nat
    }

    pub open spec fn spec_wins(&self, i: nat, j: nat) -> nat {
        self.engine_wins@[i * self.engines + j] as nat
    }

    pub open spec fn spec_draws(&self, i: nat, j: nat) -> nat {
        self.engine_draws@[i * self.engines + j] as nat
    }

    /// The wins of all engines against all engines, added up.
    pub open spec fn all_wins(&self) -> nat {
        sum(self.engine_wins@)
    }

    /// The draws of all engines against all engines, added up.
    pub open spec fn all_draws(&self) -> nat {
        sum(self.engine_draws@)
    }

    pub open spec fn spec_white_wins(&self) -> nat {
        self.white_wins as nat
    }

    pub open spec fn spec_black_wins(&self) -> nat {
        self.black_wins as nat
    }

    pub open spec fn spec_drawn(&self) -> nat {
        self.draws as nat
    }

    /// The tables have a place for every pair of engines.
    pub open spec fn wf(&self) -> bool {
        &&& self.engines * self.engines <= usize::MAX
        &&& self.engine_wins@.len() == self.engines * self.engines
        &&& self.engine_draws@.len() == self.engines * self.engines
        &&& 2 * (self.white_wins + self.black_wins + self.draws) <= u64::MAX
        &&& sum(self.engine_wins@) == self.white_wins + self.black_wins
        &&& sum(self.engine_draws@) == 2 * self.draws
        &&& forall|k: int|
            0 <= k < self.engine_wins@.len() ==> self.engine_wins@[k] <= self.white_wins
                + self.black_wins
        &&& forall|k: int|
            0 <= k < self.engine_draws@.len() ==> self.engine_draws@[k] <= 2 * self.draws
    }

    /// The number of games that have been played.
    pub open spec fn spec_played(&self) -> nat {
        self.spec_white_wins() + self.spec_black_wins() + self.spec_drawn()
    }

    /// The standings hold what the played games of the schedule add up to:
    /// for every pair of engines the wins and draws of the one against the
    /// other, and the wins of white, the wins of black and the draws in all.
    /// Every played game is a win of one engine against another, or a draw.
    pub open spec fn is_tally_of(
        &self,
        engines: nat,
        schedule: Seq<ScheduledGame>,
        finished: Seq<Option<GameRecord>>,
    ) -> bool {
        &&& self.engines() == engines
        &&& forall|i: nat, j: nat|
            i < engines && j < engines ==> #[trigger] self.spec_wins(i, j) == wins_of(
                schedule,
                finished,
                i,
                j,
                schedule.len(),
            )
        &&& forall|i: nat, j: nat|
            i < engines && j < engines ==> #[trigger] self.spec_draws(i, j) == draws_of(
                schedule,
                finished,
                i,
                j,
                schedule.len(),
            )
        &&& self.spec_white_wins() == count(
            has_result(schedule, finished, GameResult::WhiteWin),
            schedule.len(),
        )
        &&& self.spec_black_wins() == count(
            has_result(schedule, finished, GameResult::BlackWin),
            schedule.len(),
        )
        &&& self.spec_drawn() == count(
            has_result(schedule, finished, GameResult::Draw),
            schedule.len(),
        )
        &&& self.spec_played() == count(is_played(schedule, finished), schedule.len())
        &&& self.all_wins() + self.spec_drawn() == self.spec_played()
        &&& self.all_wins() == self.spec_white_wins() + self.spec_black_wins()
        &&& self.all_draws() == 2 * self.spec_drawn()
    }
}

proof fn lemma_cell(n: int, i: int, j: int)
    requires
        0 <= i < n,
        0 <= j < n,
    ensures
        0 <= i * n <= i * n + j < n * n,
        (i * n + j) / n == i,
        (i * n + j) % n == j,
{
    assert(0 <= i * n <= i * n + j < n * n) by (nonlinear_arith)
        requires
            0 <= i < n,
            0 <= j < n,
    ;
    vstd::arithmetic::div_mod::lemma_fundamental_div_mod_converse(i * n + j, n, i, j);
}

fn zeros(len: usize) -> (v: Vec<u64>)
    ensures
        v@.len() == len,
        forall|i: int| 0 <= i < len ==> v@[i] == 0,
{
    let mut v: Vec<u64> = Vec::new();
    while v.len() < len
        invariant
            v@.len() <= len,
            forall|i: int| 0 <= i < v@.len() ==> v@[i] == 0,
        decreases len - v@.len(),
    {
        v.push(0);
    }
    v
}

impl Standings {
    /// Adds up the games that have been played. Round `r` of the schedule
    /// counts where `finished` holds a game for it; a game without a result
    /// counts as a draw.
    #[verifier::rlimit(50)]
    pub fn tally(
        engines: usize,
        schedule: &Vec<ScheduledGame>,
        finished: &Vec<Option<GameRecord>>,
    ) -> (s: Standings)
        requires
            engines * engines <= usize::MAX,
            2 * schedule@.len() <= u64::MAX,
            forall|r: int|
                0 <= r < schedule@.len() ==> (#[trigger] schedule@[r]).white_engine_id.0 < engines
                    && schedule@[r].black_engine_id.0 < engines,
        ensures
            s.wf(),
            s.is_tally_of(engines as nat, schedule@, finished@),
    {
        let mut s = Standings {
            engines,
            engine_wins: zeros(engines * engines),
            engine_draws: zeros(engines * engines),
            white_wins: 0,
            black_wins: 0,
            draws: 0,
        };
        proof {
            lemma_sum_zeros(s.engine_wins@);
            lemma_sum_zeros(s.engine_draws@);
        }
        let ghost sch = schedule@;
        let ghost fin = finished@;
        let n = schedule.len();
        let mut r: usize = 0;
        proof {
            assert forall|i: nat, j: nat| i < engines && j < engines implies s.engine_wins@[i
                * engines + j] == #[trigger] wins_of(sch, fin, i, j, 0) by {
                lemma_cell(engines as int, i as int, j as int);
            }
            assert forall|i: nat, j: nat| i < engines && j < engines implies s.engine_draws@[i
                * engines + j] == #[trigger] draws_of(sch, fin, i, j, 0) by {
                lemma_cell(engines as int, i as int, j as int);
            }
        }
        while r < n
            invariant
                r <= n,
                2 * n <= u64::MAX,
                n == schedule@.len(),
                sch == schedule@,
                fin == finished@,
                s.engines == engines,
                engines * engines <= usize::MAX,
                forall|r: int|
                    0 <= r < schedule@.len() ==> (#[trigger] schedule@[r]).white_engine_id.0
                        < engines && schedule@[r].black_engine_id.0 < engines,
                s.engine_wins@.len() == engines * engines,
                s.engine_draws@.len() == engines * engines,
                s.white_wins + s.black_wins + s.draws <= r,
                forall|k: int|
                    0 <= k < s.engine_wins@.len() ==> s.engine_wins@[k] <= s.white_wins
                        + s.black_wins,
                forall|k: int|
                    0 <= k < s.engine_draws@.len() ==> s.engine_draws@[k] <= 2 * s.draws,
                forall|i: nat, j: nat|
                    i < engines && j < engines ==> s.engine_wins@[i * engines + j] == #[trigger] wins_of(
                        sch,
                        fin,
                        i,
                        j,
                        r as nat,
                    ),
                forall|i: nat, j: nat|
                    i < engines && j < engines ==> s.engine_draws@[i * engines + j] == #[trigger] draws_of(
                        sch,
                        fin,
                        i,
                        j,
                        r as nat,
                    ),
                s.white_wins == count(has_result(sch, fin, GameResult::WhiteWin), r as nat),
                s.black_wins == count(has_result(sch, fin, GameResult::BlackWin), r as nat),
                s.draws == count(has_result(sch, fin, GameResult::Draw), r as nat),
                s.white_wins + s.black_wins + s.draws == count(is_played(sch, fin), r as nat),
                sum(s.engine_wins@) == s.white_wins + s.black_wins,
                sum(s.engine_draws@) == 2 * s.draws,
            decreases n - r,
        {
            let white = schedule[r].white_engine_id.0;
            let black = schedule[r].black_engine_id.0;
            let ghost old_wins = s.engine_wins@;
            let ghost old_draws = s.engine_draws@;
            let ghost result = round_result(sch, fin, r as nat);
            proof {
                lemma_cell(engines as int, white as int, black as int);
                lemma_cell(engines as int, black as int, white as int);
            }
            let wb = white * engines + black;
            let bw = black * engines + white;
            if r < finished.len() {
                match &finished[r] {
                    Some(game) => {
                        match game.game_result {
                            Some(GameResult::WhiteWin) => {
                                proof {
                                    lemma_sum_update(old_wins, wb as int, (old_wins[wb as int] + 1) as u64);
                                }
                                s.engine_wins.set(wb, s.engine_wins[wb] + 1);
                                s.white_wins += 1;
                            },
                            Some(GameResult::BlackWin) => {
                                proof {
                                    lemma_sum_update(old_wins, bw as int, (old_wins[bw as int] + 1) as u64);
                                }
                                s.engine_wins.set(bw, s.engine_wins[bw] + 1);
                                s.black_wins += 1;
                            },
                            _ => {
                                proof {
                                    lemma_sum_update(old_draws, wb as int, (old_draws[wb as int] + 1) as u64);
                                    lemma_sum_update(
                                        old_draws.update(wb as int, (old_draws[wb as int] + 1) as u64),
                                        bw as int,
                                        (old_draws.update(wb as int, (old_draws[wb as int] + 1) as u64)[bw as int]
                                            + 1) as u64,
                                    );
                                }
                                s.engine_draws.set(wb, s.engine_draws[wb] + 1);
                                s.engine_draws.set(bw, s.engine_draws[bw] + 1);
                                s.draws += 1;
                            },
                        }
                    },
                    None => {},
                }
            }
            proof {
                assert forall|i: nat, j: nat| i < engines && j < engines implies s.engine_wins@[i
                    * engines + j] == #[trigger] wins_of(sch, fin, i, j, (r + 1) as nat) by {
                    lemma_cell(engines as int, i as int, j as int);
                    let k = i * engines + j;
                    assert(wins_of(sch, fin, i, j, r as nat) == old_wins[k as int]);
                    assert(k == wb <==> (i == white && j == black));
                    assert(k == bw <==> (i == black && j == white));
                }
                assert forall|i: nat, j: nat| i < engines && j < engines implies s.engine_draws@[i
                    * engines + j] == #[trigger] draws_of(sch, fin, i, j, (r + 1) as nat) by {
                    lemma_cell(engines as int, i as int, j as int);
                    let k = i * engines + j;
                    assert(draws_of(sch, fin, i, j, r as nat) == old_draws[k as int]);
                    assert(k == wb <==> (i == white && j == black));
                    assert(k == bw <==> (i == black && j == white));
                }
            }
            r += 1;
        }
        s
    }

    /// How often engine `i` has beaten engine `j`.
    pub fn wins(&self, i: usize, j: usize) -> (n: u64)
        requires
            self.wf(),
            i < self.engines(),
            j < self.engines(),
        ensures
            n == self.spec_wins(i as nat, j as nat),
    {
        proof {
            lemma_cell(self.engines as int, i as int, j as int);
        }
        self.engine_wins[i * self.engines + j]
    }

    /// How often engine `i` has drawn with engine `j`.
    pub fn draws_between(&self, i: usize, j: usize) -> (n: u64)
        requires
            self.wf(),
            i < self.engines(),
            j < self.engines(),
        ensures
            n == self.spec_draws(i as nat, j as nat),
    {
        proof {
            lemma_cell(self.engines as int, i as int, j as int);
        }
        self.engine_draws[i * self.engines + j]
    }

    /// How often engine `i` has lost to engine `j`: as often as `j` has
    /// beaten `i`.
    pub fn losses(&self, i: usize, j: usize) -> (n: u64)
        requires
            self.wf(),
            i < self.engines(),
            j < self.engines(),
        ensures
            n == self.spec_wins(j as nat, i as nat),
    {
        self.wins(j, i)
    }

    pub fn white_wins(&self) -> (n: u64)
        ensures
            n == self.spec_white_wins(),
    {
        self.white_wins
    }

    pub fn black_wins(&self) -> (n: u64)
        ensures
            n == self.spec_black_wins(),
    {
        self.black_wins
    }

    pub fn draws(&self) -> (n: u64)
        ensures
            n == self.spec_drawn(),
    {
        self.draws
    }

    /// The number of games that have been played.
    pub fn played(&self) -> (n: u64)
        requires
            self.wf(),
        ensures
            n == self.spec_played(),
    {
        self.white_wins + self.black_wins + self.draws
    }

    /// The score of engine `i` against engine `j`.
    pub fn head_to_head(&self, i: usize, j: usize) -> (score: MatchScore)
        requires
            self.wf(),
            i < self.engines(),
            j < self.engines(),
        ensures
            score == self.score_between(i as nat, j as nat),
            score.wins == self.spec_wins(i as nat, j as nat),
            score.draws == self.spec_draws(i as nat, j as nat),
            score.losses == self.spec_wins(j as nat, i as nat),
    {
        MatchScore {
            wins: self.wins(i, j),
            draws: self.draws_between(i, j),
            losses: self.wins(j, i),
        }
    }
}

/// A table with the numbers at the places that are not kept set to 0.
pub open spec fn masked(s: Seq<u64>, keep: spec_fn(int) -> bool) -> Seq<u64> {
    Seq::new(s.len(), |k: int| if keep(k) {
        s[k]
    } else {
        0u64
    })
}

/// The places of a table of `n` rows that hold what engine `i` has made
/// against the other engines: its row, without the place where it meets
/// itself.
pub open spec fn row_of(n: nat, i: nat) -> spec_fn(int) -> bool {
    |k: int| k / (n as int) == i && k % (n as int) != i
}

/// The places of a table of `n` rows that hold what the other engines have
/// made against engine `i`: its column, without the place where it meets
/// itself.
pub open spec fn column_of(n: nat, i: nat) -> spec_fn(int) -> bool {
    |k: int| k % (n as int) == i && k / (n as int) != i
}

proof fn lemma_sum_take(t: Seq<u64>, k: int)
    requires
        0 <= k < t.len(),
    ensures
        sum(t.take(k + 1)) == sum(t.take(k)) + t[k],
{
    assert(t.take(k + 1).drop_last() == t.take(k));
}

proof fn lemma_sum_take_le(t: Seq<u64>, k: int)
    requires
        0 <= k <= t.len(),
    ensures
        sum(t.take(k)) <= sum(t),
    decreases t.len() - k,
{
    if k == t.len() {
        assert(t.take(k) == t);
    } else {
        lemma_sum_take(t, k);
        lemma_sum_take_le(t, k + 1);
    }
}

/// A run of a table that holds nothing but one number adds that number to
/// the sum.
proof fn lemma_sum_run(t: Seq<u64>, a: int, b: int, p: int)
    requires
        0 <= a <= b <= t.len(),
        forall|k: int| a <= k < b && k != p ==> t[k] == 0,
    ensures
        sum(t.take(b)) == sum(t.take(a)) + if a <= p < b {
            t[p] as nat
        } else {
            0nat
        },
    decreases b - a,
{
    if a < b {
        lemma_sum_run(t, a, b - 1, p);
        lemma_sum_take(t, b - 1);
    }
}

proof fn lemma_masked_le(s: Seq<u64>, keep: spec_fn(int) -> bool)
    ensures
        sum(masked(s, keep)) <= sum(s),
    decreases s.len(),
{
    if s.len() > 0 {
        lemma_masked_le(s.drop_last(), keep);
        assert(masked(s, keep).drop_last() == masked(s.drop_last(), keep));
    }
}

/// What is reported of the standings, by the shape of the tournament.
#[derive(Debug, PartialEq, Eq)]
pub enum ScoreReport {
    /// The score of the first engine of each pair against the second.
    HeadToHead(Vec<(usize, usize, MatchScore)>),
    /// The score of each engine against all the others.
    Table(Vec<MatchScore>),
    /// The score of the engine under test against the base engine, and the
    /// tally of game pairs.
    Sprt(MatchScore, PentanomialResult),
    Nothing,
}

impl Standings {
    /// The score of engine `i` against engine `j`.
    pub open spec fn score_between(&self, i: nat, j: nat) -> MatchScore {
        MatchScore {
            wins: self.spec_wins(i, j) as u64,
            draws: self.spec_draws(i, j) as u64,
            losses: self.spec_wins(j, i) as u64,
        }
    }

    /// The score of engine `i` against all the other engines.
    pub open spec fn score_against_others(&self, i: nat) -> MatchScore {
        MatchScore {
            wins: sum(masked(self.engine_wins@, row_of(self.engines(), i))) as u64,
            draws: sum(masked(self.engine_draws@, row_of(self.engines(), i))) as u64,
            losses: sum(masked(self.engine_wins@, column_of(self.engines(), i))) as u64,
        }
    }

    /// The results of an engine against every engine except itself.
    pub fn against_others(&self, id: usize) -> (score: MatchScore)
        requires
            self.wf(),
            id < self.engines(),
        ensures
            score == self.score_against_others(id as nat),
            score.wins == sum(masked(self.engine_wins@, row_of(self.engines(), id as nat))),
            score.draws == sum(masked(self.engine_draws@, row_of(self.engines(), id as nat))),
            score.losses == sum(masked(self.engine_wins@, column_of(self.engines(), id as nat))),
    {
        let n = self.engines;
        let ghost row = masked(self.engine_wins@, row_of(n as nat, id as nat));
        let ghost draw_row = masked(self.engine_draws@, row_of(n as nat, id as nat));
        let ghost column = masked(self.engine_wins@, column_of(n as nat, id as nat));
        let mut wins: u64 = 0;
        let mut draws: u64 = 0;
        let mut losses: u64 = 0;
        let mut j: usize = 0;
        proof {
            lemma_masked_le(self.engine_wins@, row_of(n as nat, id as nat));
            lemma_masked_le(self.engine_draws@, row_of(n as nat, id as nat));
            lemma_masked_le(self.engine_wins@, column_of(n as nat, id as nat));
            lemma_cell(n as int, id as int, 0);
            assert forall|k: int| 0 <= k < id * n implies row[k] == 0 && draw_row[k] == 0 by {
                assert(k / (n as int) < id) by (nonlinear_arith)
                    requires
                        0 <= k < id * n,
                        n > 0,
                ;
            }
            lemma_sum_run(row, 0, id * n, -1);
            lemma_sum_run(draw_row, 0, id * n, -1);
            assert(row.take(0) == Seq::<u64>::empty());
            assert(draw_row.take(0) == Seq::<u64>::empty());
            assert(column.take(0) == Seq::<u64>::empty());
            assert(0 * n == 0) by (nonlinear_arith);
        }
        while j < n
            invariant
                j <= n,
                n == self.engines,
                id < n,
                self.wf(),
                row == masked(self.engine_wins@, row_of(n as nat, id as nat)),
                draw_row == masked(self.engine_draws@, row_of(n as nat, id as nat)),
                column == masked(self.engine_wins@, column_of(n as nat, id as nat)),
                sum(row) <= sum(self.engine_wins@),
                sum(draw_row) <= sum(self.engine_draws@),
                sum(column) <= sum(self.engine_wins@),
                wins == sum(row.take(id * n + j)),
                draws == sum(draw_row.take(id * n + j)),
                losses == sum(column.take(j * n)),
            decreases n - j,
        {
            proof {
                lemma_cell(n as int, id as int, j as int);
                lemma_cell(n as int, j as int, id as int);
                lemma_cell(n as int, j as int, 0);
                lemma_sum_take(row, id * n + j);
                lemma_sum_take(draw_row, id * n + j);
                lemma_sum_take_le(row, id * n + j + 1);
                lemma_sum_take_le(draw_row, id * n + j + 1);
                assert((j + 1) * n == j * n + n) by (nonlinear_arith);
                assert(j * n + n <= n * n) by (nonlinear_arith)
                    requires
                        j < n,
                ;
                assert forall|k: int| j * n <= k < j * n + n && k != j * n + id implies column[k]
                    == 0 by {
                    lemma_cell(n as int, j as int, k - j * n);
                }
                lemma_sum_run(column, j * n, j * n + n, j * n + id);
                lemma_sum_take_le(column, j * n + n);
            }
            if j != id {
                wins = wins + self.engine_wins[id * n + j];
                draws = draws + self.engine_draws[id * n + j];
                losses = losses + self.engine_wins[j * n + id];
            }
            j += 1;
        }
        proof {
            lemma_cell(n as int, id as int, 0);
            assert(id * n + n <= n * n) by (nonlinear_arith)
                requires
                    id < n,
            ;
            assert forall|k: int| id * n + n <= k < n * n implies row[k] == 0 && draw_row[k]
                == 0 by {
                assert(k / (n as int) > id) by (nonlinear_arith)
                    requires
                        id * n + n <= k,
                        n > 0,
                ;
            }
            lemma_sum_run(row, id * n + n, n * n, -1);
            lemma_sum_run(draw_row, id * n + n, n * n, -1);
            assert(row.take(n * n) == row);
            assert(draw_row.take(n * n) == draw_row);
            assert(column.take(n * n) == column);
        }
        MatchScore { wins, draws, losses }
    }

    /// What is shown of the standings: head to head for two engines, the
    /// challengers against the champion in a gauntlet, the engine under test
    /// against the base engine in a test, and else for each engine its score
    /// against the others, which there are none of where an engine is alone.
    pub fn report(&self, tournament_type: TournamentType, penta: PentanomialResult) -> (r:
        ScoreReport)
        requires
            self.wf(),
            tournament_type.wf(),
            self.engines() == tournament_type.engines(),
        ensures
            match tournament_type {
                TournamentType::RoundRobin(2) => r matches ScoreReport::HeadToHead(v) && v@
                    == seq![(0usize, 1usize, self.score_between(0, 1))],
                TournamentType::Gauntlet(num_challengers) => r matches ScoreReport::HeadToHead(v)
                    && v@.len() == num_challengers && forall|k: int|
                    0 <= k < num_challengers ==> #[trigger] v@[k] == (
                        (k + 1) as usize,
                        0usize,
                        self.score_between((k + 1) as nat, 0),
                    ),
                TournamentType::RoundRobin(num_engines) => r matches ScoreReport::Table(v) && v@.len()
                    == num_engines && forall|k: int|
                    0 <= k < num_engines ==> #[trigger] v@[k] == self.score_against_others(
                        k as nat,
                    ),
                TournamentType::BookTest(num_engines) => if num_engines >= 2 {
                    r matches ScoreReport::Table(v) && v@.len() == num_engines && forall|k: int|
                        0 <= k < num_engines ==> #[trigger] v@[k] == self.score_against_others(
                            k as nat,
                        )
                } else {
                    r == ScoreReport::Nothing
                },
                TournamentType::Sprt => r == ScoreReport::Sprt(self.score_between(1, 0), penta),
            },
    {
        match tournament_type {
            TournamentType::RoundRobin(2) => {
                let mut v: Vec<(usize, usize, MatchScore)> = Vec::new();
                v.push((0, 1, self.head_to_head(0, 1)));
                assert(v@ =~= seq![(0usize, 1usize, self.score_between(0, 1))]);
                ScoreReport::HeadToHead(v)
            },
            TournamentType::Gauntlet(num_challengers) => {
                let mut v: Vec<(usize, usize, MatchScore)> = Vec::new();
                let mut k: usize = 0;
                while k < num_challengers
                    invariant
                        k <= num_challengers,
                        self.wf(),
                        self.engines() == num_challengers + 1,
                        v@.len() == k,
                        forall|i: int|
                            0 <= i < k ==> #[trigger] v@[i] == (
                                (i + 1) as usize,
                                0usize,
                                self.score_between((i + 1) as nat, 0),
                            ),
                    decreases num_challengers - k,
                {
                    v.push((k + 1, 0, self.head_to_head(k + 1, 0)));
                    k += 1;
                }
                ScoreReport::HeadToHead(v)
            },
            TournamentType::RoundRobin(num_engines) => ScoreReport::Table(self.table()),
            TournamentType::BookTest(num_engines) => if num_engines >= 2 {
                ScoreReport::Table(self.table())
            } else {
                ScoreReport::Nothing
            },
            TournamentType::Sprt => ScoreReport::Sprt(self.head_to_head(1, 0), penta),
        }
    }

    /// The score of each engine against all the others.
    pub fn table(&self) -> (v: Vec<MatchScore>)
        requires
            self.wf(),
        ensures
            v@.len() == self.engines(),
            forall|k: int|
                0 <= k < self.engines() ==> #[trigger] v@[k] == self.score_against_others(k as nat),
    {
        let mut v: Vec<MatchScore> = Vec::new();
        let mut id: usize = 0;
        while id < self.engines
            invariant
                id <= self.engines,
                self.wf(),
                v@.len() == id,
                forall|k: int| 0 <= k < id ==> #[trigger] v@[k] == self.score_against_others(k as nat),
            decreases self.engines - id,
        {
            v.push(self.against_others(id));
            id += 1;
        }
        v
    }
}

} // verus!
