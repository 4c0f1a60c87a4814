//! The tournament: who plays whom in which round, which round is played next,
//! and how the finished games add up.

use crate::game::{GameRecord, ScheduledGame, ScheduledGameView};
use crate::openings::Opening;
use crate::pairing::lemma_roles_in_range;
use crate::sprt::PentanomialResult;
use crate::standings::{is_some_game, num_played, Standings};
use vstd::prelude::*;

verus! {

/// The shapes a tournament can have.
#[derive(Clone, Copy, Debug, PartialEq, Eq, Structural)]
pub enum TournamentType {
    /// One champion against the given number of challengers.
    Gauntlet(usize),
    /// Every engine against every other, with the given number of engines.
    RoundRobin(usize),
    /// Every engine against every engine, itself included.
    BookTest(usize),
    /// Two engines, until the test decides.
    Sprt,
}

/// An engine of the tournament, counted from 0.
#[derive(Clone, Copy, Debug, PartialEq, Eq, Structural)]
pub struct EngineId(pub usize);

impl TournamentType {
    /// The shape has the engines it needs, and its numbers fit the machine:
    /// a gauntlet has a challenger, a round robin two engines, a book test
    /// one.
    pub open spec fn wf(self) -> bool {
        match self {
            TournamentType::Gauntlet(num_challengers) => 1 <= num_challengers && num_challengers
                * 2 <= usize::MAX,
            TournamentType::RoundRobin(num_engines) => 2 <= num_engines && num_engines * (
            num_engines - 1) <= usize::MAX,
            TournamentType::BookTest(num_engines) => 1 <= num_engines && num_engines * num_engines
                <= usize::MAX,
            TournamentType::Sprt => true,
        }
    }

    pub open spec fn engines(self) -> nat {
        match self {
            TournamentType::Gauntlet(num_challengers) => (num_challengers + 1) as nat,
            TournamentType::RoundRobin(num_engines) => num_engines as nat,
            TournamentType::BookTest(num_engines) => num_engines as nat,
            TournamentType::Sprt => 2,
        }
    }

    /// The number of games after which every pairing has been played with
    /// both colours.
    pub open spec fn period(self) -> nat {
        match self {
            TournamentType::Gauntlet(num_challengers) => (num_challengers * 2) as nat,
            TournamentType::RoundRobin(num_engines) => (num_engines * (num_engines - 1)) as nat,
            TournamentType::BookTest(num_engines) => (num_engines * num_engines) as nat,
            TournamentType::Sprt => 2,
        }
    }

    /// The engine that plays white in round `r`.
    pub open spec fn white(self, r: nat) -> nat {
        let r = r as int;
        match self {
            TournamentType::Gauntlet(c) => if (r / (c as int)) % 2 == 0 {
                0
            } else {
                (r % (c as int) + 1) as nat
            },
            TournamentType::RoundRobin(n) => ((r / (n - 1)) % (n as int)) as nat,
            TournamentType::BookTest(n) => ((r / (n as int)) % (n as int)) as nat,
            TournamentType::Sprt => (r % 2) as nat,
        }
    }

    /// The engine that plays black in round `r`.
    pub open spec fn black(self, r: nat) -> nat {
        let r = r as int;
        match self {
            TournamentType::Gauntlet(c) => if (r / (c as int)) % 2 == 1 {
                0
            } else {
                (r % (c as int) + 1) as nat
            },
            TournamentType::RoundRobin(n) => ((r + (r % (n * (n - 1))) / (n as int) + 1) % (
            n as int)) as nat,
            TournamentType::BookTest(n) => (r % (n as int)) as nat,
            TournamentType::Sprt => ((r + 1) % 2) as nat,
        }
    }

    pub fn num_engines(self) -> (n: usize)
        requires
            self.wf(),
        ensures
            n == self.engines(),
    {
        match self {
            TournamentType::Gauntlet(num_challengers) => num_challengers + 1,
            TournamentType::RoundRobin(num_engines) => num_engines,
            TournamentType::BookTest(num_engines) => num_engines,
            TournamentType::Sprt => 2,
        }
    }

    /// Number of games before every pair of opponents has played a round
    pub fn alignment(self) -> (a: usize)
        requires
            self.wf(),
        ensures
            a == self.period(),
            a > 0,
    {
        match self {
            TournamentType::Gauntlet(num_challengers) => num_challengers * 2,
            TournamentType::RoundRobin(num_engines) => {
                assert(num_engines * (num_engines - 1) > 0) by (nonlinear_arith)
                    requires
                        num_engines >= 2,
                ;
                num_engines * (num_engines - 1)
            },
            TournamentType::BookTest(num_engines) => {
                assert(num_engines * num_engines > 0) by (nonlinear_arith)
                    requires
                        num_engines >= 1,
                ;
                num_engines * num_engines
            },
            TournamentType::Sprt => 2,
        }
    }
}

/// What a tournament is set up with.
#[derive(Debug)]
pub struct TournamentSettings {
    pub size: usize,
    pub concurrency: usize,
    pub num_games: usize,
    pub openings: Vec<Opening>,
    pub openings_start_index: usize,
    pub tournament_type: TournamentType,
}

impl TournamentSettings {
    /// The settings can be scheduled: the shape is in order, there is an
    /// opening to start from, and the round numbers fit the machine.
    pub open spec fn wf(&self) -> bool {
        &&& self.tournament_type.wf()
        &&& self.openings@.len() > 0
        &&& self.openings_start_index + self.num_games + self.tournament_type.period()
            <= usize::MAX
    }

    /// The opening of round `r`: each is played for a whole period, then the
    /// next one follows, and behind the last the first.
    pub open spec fn opening_index(&self, r: nat) -> nat {
        ((self.openings_start_index + (r as int) / (self.tournament_type.period() as int)) % (
        self.openings@.len() as int)) as nat
    }

    /// The game of round `r`.
    pub open spec fn game(&self, r: nat) -> ScheduledGameView {
        ScheduledGameView {
            round_number: r,
            opening: self.openings@[self.opening_index(r) as int]@,
            white_engine_id: self.tournament_type.white(r),
            black_engine_id: self.tournament_type.black(r),
            size: self.size as nat,
        }
    }

    /// The games of the tournament, in the order of their rounds.
    pub fn schedule(&self) -> (games: Vec<ScheduledGame>)
        requires
            self.wf(),
        ensures
            games@.len() == self.num_games,
            forall|r: int| 0 <= r < self.num_games ==> (#[trigger] games@[r])@ == self.game(r as nat),
            forall|r: int|
                0 <= r < self.num_games ==> (#[trigger] games@[r]).white_engine_id.0
                    < self.tournament_type.engines() && games@[r].black_engine_id.0
                    < self.tournament_type.engines(),
    {
        let alignment = self.tournament_type.alignment();
        let mut games: Vec<ScheduledGame> = Vec::new();
        let mut round_number: usize = 0;
        while round_number < self.num_games
            invariant
                self.wf(),
                alignment == self.tournament_type.period(),
                alignment > 0,
                round_number <= self.num_games,
                games@.len() == round_number,
                forall|r: int| 0 <= r < round_number ==> (#[trigger] games@[r])@ == self.game(r as nat),
                forall|r: int|
                    0 <= r < round_number ==> (#[trigger] games@[r]).white_engine_id.0
                        < self.tournament_type.engines() && games@[r].black_engine_id.0
                        < self.tournament_type.engines(),
            decreases self.num_games - round_number,
        {
            proof {
                lemma_roles_in_range(self.tournament_type, round_number as nat);
            }
            let block = round_number / alignment;
            assert(block <= round_number) by (nonlinear_arith)
                requires
                    block == round_number / alignment,
                    alignment > 0,
            ;
            let opening = self.openings[(self.openings_start_index + block)
                % self.openings.len()].clone();
            let (white, black) = match self.tournament_type {
                TournamentType::Gauntlet(num_challengers) => {
                    let challenger = (round_number % num_challengers) + 1;
                    if (round_number / num_challengers) % 2 == 0 {
                        (0, challenger)
                    } else {
                        (challenger, 0)
                    }
                },
                TournamentType::BookTest(num_engines) => (
                    (round_number / num_engines) % num_engines,
                    round_number % num_engines,
                ),
                TournamentType::RoundRobin(num_engines) => {
                    let shift = (round_number % alignment) / num_engines;
                    assert(shift < alignment) by (nonlinear_arith)
                        requires
                            shift == (round_number % alignment) / num_engines,
                            alignment > 0,
                            num_engines >= 2,
                    ;
                    (
                        (round_number / (num_engines - 1)) % num_engines,
                        (round_number + shift + 1) % num_engines,
                    )
                },
                TournamentType::Sprt => (round_number % 2, (round_number + 1) % 2),
            };
            games.push(
                ScheduledGame {
                    round_number,
                    opening,
                    white_engine_id: EngineId(white),
                    black_engine_id: EngineId(black),
                    size: self.size,
                },
            );
            round_number += 1;
        }
        games
    }
}

/// The games of a tournament and how far they have been handed out.
#[derive(Debug)]
pub struct GamesSchedule {
    pub scheduled_games: Vec<ScheduledGame>,
    pub next_game_id: usize,
}

/// A tournament under way: its schedule, and the games that have been
/// played, each at the place of its round.
#[derive(Debug)]
pub struct Tournament {
    pub games_schedule: GamesSchedule,
    pub finished_games: Vec<Option<GameRecord>>,
    pub tournament_type: TournamentType,
}

impl Tournament {
    /// There is a place for the game of every round, and every round has
    /// engines of the tournament on both sides.
    pub open spec fn wf(&self) -> bool {
        &&& self.tournament_type.wf()
        &&& self.finished_games@.len() == self.games_schedule.scheduled_games@.len()
        &&& self.games_schedule.next_game_id <= self.games_schedule.scheduled_games@.len()
        &&& forall|r: int|
            0 <= r < self.games_schedule.scheduled_games@.len() ==> (
            #[trigger] self.games_schedule.scheduled_games@[r]).white_engine_id.0
                < self.tournament_type.engines()
                && self.games_schedule.scheduled_games@[r].black_engine_id.0
                < self.tournament_type.engines()
    }

    /// Sets a tournament up: all games scheduled, none handed out, none
    /// played.
    pub fn new(settings: TournamentSettings) -> (t: Tournament)
        requires
            settings.wf(),
        ensures
            t.wf(),
            t.tournament_type == settings.tournament_type,
            t.games_schedule.next_game_id == 0,
            t.games_schedule.scheduled_games@.len() == settings.num_games,
            forall|r: int|
                0 <= r < settings.num_games ==> (
                #[trigger] t.games_schedule.scheduled_games@[r])@ == settings.game(r as nat),
            forall|r: int| 0 <= r < settings.num_games ==> (#[trigger] t.finished_games@[r]) is None,
    {
        let scheduled_games = settings.schedule();
        let mut finished_games: Vec<Option<GameRecord>> = Vec::new();
        while finished_games.len() < settings.num_games
            invariant
                finished_games@.len() <= settings.num_games,
                forall|r: int| 0 <= r < finished_games@.len() ==> (#[trigger] finished_games@[r]) is None,
            decreases settings.num_games - finished_games@.len(),
        {
            finished_games.push(None);
        }
        Tournament {
            games_schedule: GamesSchedule { scheduled_games, next_game_id: 0 },
            finished_games,
            tournament_type: settings.tournament_type,
        }
    }

    /// Hands out the next game that has not been handed out yet. Every game
    /// is handed out once, in the order of the rounds.
    pub fn next_unplayed_game(&mut self) -> (g: Option<ScheduledGame>)
        requires
            old(self).wf(),
        ensures
            final(self).wf(),
            final(self).tournament_type == old(self).tournament_type,
            final(self).finished_games == old(self).finished_games,
            final(self).games_schedule.scheduled_games == old(self).games_schedule.scheduled_games,
            old(self).games_schedule.next_game_id < old(self).games_schedule.scheduled_games@.len()
                ==> (g matches Some(x) && x@ == old(self).games_schedule.scheduled_games@[old(
                self,
            ).games_schedule.next_game_id as int]@ && final(self).games_schedule.next_game_id
                == old(self).games_schedule.next_game_id + 1),
            old(self).games_schedule.next_game_id >= old(self).games_schedule.scheduled_games@.len()
                ==> g is None && final(self).games_schedule.next_game_id == old(
                self,
            ).games_schedule.next_game_id,
    {
        if self.games_schedule.next_game_id < self.games_schedule.scheduled_games.len() {
            let game = self.games_schedule.scheduled_games[self.games_schedule.next_game_id].clone();
            self.games_schedule.next_game_id += 1;
            Some(game)
        } else {
            None
        }
    }

    /// What a worker takes up next. It looks at the shutdown flag first:
    /// once the tournament is being shut down no game is handed out any more,
    /// and the games that are left stay where they are. Else the worker
    /// claims the next game that has not been handed out.
    pub fn next_game_to_play(&mut self, shutting_down: bool) -> (g: Option<ScheduledGame>)
        requires
            old(self).wf(),
        ensures
            final(self).wf(),
            final(self).tournament_type == old(self).tournament_type,
            final(self).finished_games == old(self).finished_games,
            final(self).games_schedule.scheduled_games == old(self).games_schedule.scheduled_games,
            ({
                let before = old(self).games_schedule.next_game_id;
                let after = final(self).games_schedule.next_game_id;
                let games = old(self).games_schedule.scheduled_games@;
                if shutting_down {
                    g is None && after == before
                } else if before < games.len() {
                    g matches Some(x) && x@ == games[before as int]@ && after == before + 1
                } else {
                    g is None && after == before
                }
            }),
    {
        if shutting_down {
            None
        } else {
            self.next_unplayed_game()
        }
    }

    /// Puts a game that has been played at the place of its round.
    pub fn record_game(&mut self, round_number: usize, game: GameRecord)
        requires
            old(self).wf(),
            round_number < old(self).finished_games@.len(),
        ensures
            final(self).wf(),
            final(self).tournament_type == old(self).tournament_type,
            final(self).games_schedule == old(self).games_schedule,
            final(self).finished_games@ == old(self).finished_games@.update(
                round_number as int,
                Some(game),
            ),
    {
        self.finished_games.set(round_number, Some(game));
    }

    /// The number of games that have been played.
    pub fn num_finished(&self) -> (n: usize)
        ensures
            n == num_played(self.finished_games@),
    {
        let ghost played = is_some_game();
        let mut n: usize = 0;
        let mut i: usize = 0;
        proof {
            reveal(Seq::filter);
            assert(self.finished_games@.take(0) == Seq::<Option<GameRecord>>::empty());
        }
        while i < self.finished_games.len()
            invariant
                i <= self.finished_games@.len(),
                n <= i,
                played == is_some_game(),
                n == self.finished_games@.take(i as int).filter(played).len(),
            decreases self.finished_games@.len() - i,
        {
            proof {
                reveal(Seq::filter);
                assert(self.finished_games@.take(i + 1).drop_last() == self.finished_games@.take(
                    i as int,
                ));
            }
            if self.finished_games[i].is_some() {
                n += 1;
            }
            i += 1;
        }
        assert(self.finished_games@.take(i as int) == self.finished_games@);
        n
    }

    /// The standings after the games that have been played.
    pub fn score(&self) -> (s: Standings)
        requires
            self.wf(),
            self.tournament_type.engines() * self.tournament_type.engines() <= usize::MAX,
            2 * self.games_schedule.scheduled_games@.len() <= u64::MAX,
        ensures
            s.wf(),
            s.engines() == self.tournament_type.engines(),
            s.is_tally_of(
                self.tournament_type.engines(),
                self.games_schedule.scheduled_games@,
                self.finished_games@,
            ),
    {
        Standings::tally(
            self.tournament_type.num_engines(),
            &self.games_schedule.scheduled_games,
            &self.finished_games,
        )
    }

    /// The tally of the game pairs that have been played.
    pub fn sprt_penta_stats(&self) -> (result: PentanomialResult)
        ensures
            result.is_tally_of(self.finished_games@),
    {
        PentanomialResult::tally(&self.finished_games)
    }
}

} // verus!
