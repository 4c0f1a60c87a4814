use racetrack::game::{GameRecord, GameResult, ScheduledGame};
use racetrack::openings::Opening;
use racetrack::simulation::MatchScore;
use racetrack::sprt::{categorize, PairCategory, PentanomialResult, SprtVerdict};
use racetrack::standings::{ScoreReport, Standings};
use racetrack::stats;
use racetrack::tournament::{EngineId, Tournament, TournamentSettings, TournamentType};

fn scheduled(round_number: usize, white: usize, black: usize) -> ScheduledGame {
    ScheduledGame {
        round_number,
        opening: Opening {
            root_position: None,
            moves: vec![],
        },
        white_engine_id: EngineId(white),
        black_engine_id: EngineId(black),
        size: 5,
    }
}

fn ended(game_result: Option<GameResult>) -> Option<GameRecord> {
    Some(GameRecord {
        start_position: None,
        moves: vec![],
        game_result,
        tags: vec![],
    })
}

const W: Option<GameResult> = Some(GameResult::WhiteWin);
const B: Option<GameResult> = Some(GameResult::BlackWin);
const D: Option<GameResult> = Some(GameResult::Draw);

#[test]
fn wins_and_draws_add_up_to_the_games_played() {
    let schedule = vec![
        scheduled(0, 0, 1),
        scheduled(1, 1, 0),
        scheduled(2, 0, 2),
        scheduled(3, 2, 0),
        scheduled(4, 1, 2),
        scheduled(5, 2, 1),
        scheduled(6, 1, 1),
        scheduled(7, 2, 2),
        scheduled(8, 0, 1),
    ];
    let finished = vec![
        ended(W),
        ended(W),
        None,
        ended(B),
        ended(D),
        ended(None),
        ended(D),
        ended(W),
    ];
    let standings = Standings::tally(3, &schedule, &finished);
    assert_eq!(standings.played(), 7);
    assert_eq!(standings.white_wins(), 3);
    assert_eq!(standings.black_wins(), 1);
    assert_eq!(standings.draws(), 3);
    let all_wins: u64 = standings.engine_wins.iter().sum();
    assert_eq!(all_wins + standings.draws(), standings.played());
    let all_draws: u64 = standings.engine_draws.iter().sum();
    assert_eq!(all_draws, 2 * standings.draws());

    assert_eq!(standings.wins(0, 1), 1);
    assert_eq!(standings.wins(1, 0), 1);
    assert_eq!(standings.wins(0, 2), 1);
    assert_eq!(standings.wins(2, 0), 0);
    assert_eq!(standings.wins(2, 2), 1);
    assert_eq!(standings.losses(2, 0), 1);
    assert_eq!(standings.losses(2, 2), 1);
    assert_eq!(standings.draws_between(1, 2), 2);
    assert_eq!(standings.draws_between(2, 1), 2);
    assert_eq!(standings.draws_between(1, 1), 2);
    assert_eq!(standings.draws_between(0, 1), 0);
    assert_eq!(
        standings.head_to_head(0, 2),
        MatchScore {
            wins: 1,
            draws: 0,
            losses: 0
        }
    );
    assert_eq!(
        standings.head_to_head(2, 1),
        MatchScore {
            wins: 0,
            draws: 2,
            losses: 0
        }
    );
}

#[test]
fn an_empty_tournament_has_empty_standings() {
    let standings = Standings::tally(2, &vec![], &vec![]);
    assert_eq!(standings.played(), 0);
    assert_eq!(standings.engine_wins, vec![0, 0, 0, 0]);
    assert_eq!(standings.engine_draws, vec![0, 0, 0, 0]);
}

#[test]
fn a_tournament_keeps_score() {
    let mut tournament = Tournament::new(TournamentSettings {
        size: 5,
        concurrency: 2,
        num_games: 4,
        openings: vec![Opening {
            root_position: None,
            moves: vec![],
        }],
        openings_start_index: 0,
        tournament_type: TournamentType::Sprt,
    });
    assert_eq!(tournament.num_finished(), 0);
    tournament.record_game(2, ended(B).unwrap());
    tournament.record_game(0, ended(W).unwrap());
    assert_eq!(tournament.num_finished(), 2);
    let standings = tournament.score();
    assert_eq!(standings.wins(0, 1), 1);
    assert_eq!(standings.wins(1, 0), 1);
    assert_eq!(standings.played(), 2);
    assert_eq!(tournament.sprt_penta_stats().ww, 0);
    tournament.record_game(1, ended(B).unwrap());
    assert_eq!(
        tournament.sprt_penta_stats(),
        PentanomialResult {
            ww: 0,
            wd: 0,
            wl: 0,
            dd: 0,
            dl: 0,
            ll: 1
        }
    );
    tournament.record_game(3, ended(W).unwrap());
    assert_eq!(tournament.sprt_penta_stats().ww, 1);
    assert_eq!(tournament.num_finished(), 4);
    assert_eq!(tournament.score().wins(0, 1), 2);
    assert_eq!(tournament.score().wins(1, 0), 2);
}

#[test]
fn pairs_are_sorted_by_what_came_of_them() {
    assert_eq!(
        categorize(GameResult::WhiteWin, GameResult::BlackWin),
        PairCategory::LL
    );
    assert_eq!(
        categorize(GameResult::WhiteWin, GameResult::Draw),
        PairCategory::DL
    );
    assert_eq!(
        categorize(GameResult::Draw, GameResult::BlackWin),
        PairCategory::DL
    );
    assert_eq!(
        categorize(GameResult::WhiteWin, GameResult::WhiteWin),
        PairCategory::WL
    );
    assert_eq!(
        categorize(GameResult::BlackWin, GameResult::BlackWin),
        PairCategory::WL
    );
    assert_eq!(
        categorize(GameResult::Draw, GameResult::Draw),
        PairCategory::DD
    );
    assert_eq!(
        categorize(GameResult::BlackWin, GameResult::Draw),
        PairCategory::WD
    );
    assert_eq!(
        categorize(GameResult::Draw, GameResult::WhiteWin),
        PairCategory::WD
    );
    assert_eq!(
        categorize(GameResult::BlackWin, GameResult::WhiteWin),
        PairCategory::WW
    );
}

#[test]
fn only_whole_pairs_are_counted() {
    let finished = vec![
        ended(W),
        ended(B),
        ended(W),
        None,
        None,
        ended(D),
        ended(None),
        ended(D),
        ended(B),
        ended(W),
        ended(B),
        ended(None),
        ended(W),
    ];
    assert_eq!(
        PentanomialResult::tally(&finished),
        PentanomialResult {
            ww: 1,
            wd: 1,
            wl: 0,
            dd: 1,
            dl: 0,
            ll: 1
        }
    );
    assert_eq!(
        PentanomialResult::tally(&vec![ended(W)]),
        PentanomialResult {
            ww: 0,
            wd: 0,
            wl: 0,
            dd: 0,
            dl: 0,
            ll: 0
        }
    );
}

#[test]
fn the_test_stops_at_a_bound() {
    assert_eq!(SprtVerdict::from_bounds(false, false), SprtVerdict::Continue);
    assert_eq!(SprtVerdict::from_bounds(true, false), SprtVerdict::Failed);
    assert_eq!(SprtVerdict::from_bounds(false, true), SprtVerdict::Passed);
    assert_eq!(SprtVerdict::from_bounds(true, true), SprtVerdict::Failed);
    assert!(!SprtVerdict::Continue.stops());
    assert!(SprtVerdict::Failed.stops());
    assert!(SprtVerdict::Passed.stops());
}

#[test]
fn tallies_are_counted_by_rising_score() {
    let score = MatchScore {
        wins: 3,
        draws: 4,
        losses: 5,
    };
    assert_eq!(score.num_games(), 12);
    assert_eq!(score.to_string(), "+3-5=4");
    let trinomial = stats::TrinomialResult { w: 3, d: 4, l: 5 };
    assert_eq!(trinomial.to_vec(), vec![5, 4, 3]);
    assert_eq!(trinomial.count(), 12);
    assert_eq!(trinomial.to_string(), "+3-5=4");
    let pentanomial = stats::PentanomialResult {
        ll: 485,
        dl: 1923,
        dd: 2000,
        wl: 942,
        wd: 1937,
        ww: 594,
    };
    assert_eq!(pentanomial.to_vec(), vec![485, 1923, 2942, 1937, 594]);
    assert_eq!(pentanomial.count(), 7881);
    assert_eq!(pentanomial.to_string(), "[485, 1923, 2942, 1937, 594]");
}

fn penta() -> PentanomialResult {
    PentanomialResult {
        ww: 1,
        wd: 2,
        wl: 3,
        dd: 4,
        dl: 5,
        ll: 6,
    }
}

fn three_engines() -> Standings {
    let schedule = vec![
        scheduled(0, 0, 1),
        scheduled(1, 1, 0),
        scheduled(2, 0, 2),
        scheduled(3, 2, 0),
        scheduled(4, 1, 2),
        scheduled(5, 2, 1),
        scheduled(6, 1, 1),
        scheduled(7, 2, 2),
        scheduled(8, 0, 0),
    ];
    let finished = vec![
        ended(W),
        ended(W),
        ended(D),
        ended(B),
        ended(D),
        ended(None),
        ended(D),
        ended(W),
        ended(B),
    ];
    Standings::tally(3, &schedule, &finished)
}

#[test]
fn an_engine_is_scored_against_the_others() {
    let standings = three_engines();
    assert_eq!(
        standings.against_others(0),
        MatchScore {
            wins: 2,
            draws: 1,
            losses: 1
        }
    );
    assert_eq!(
        standings.against_others(1),
        MatchScore {
            wins: 1,
            draws: 2,
            losses: 1
        }
    );
    assert_eq!(
        standings.against_others(2),
        MatchScore {
            wins: 0,
            draws: 3,
            losses: 1
        }
    );
}

#[test]
fn the_shape_decides_what_is_shown() {
    let standings = three_engines();
    assert_eq!(
        standings.report(TournamentType::RoundRobin(3), penta()),
        ScoreReport::Table(vec![
            standings.against_others(0),
            standings.against_others(1),
            standings.against_others(2)
        ])
    );
    assert_eq!(
        standings.report(TournamentType::BookTest(3), penta()),
        standings.report(TournamentType::RoundRobin(3), penta())
    );
    assert_eq!(
        standings.report(TournamentType::Gauntlet(2), penta()),
        ScoreReport::HeadToHead(vec![
            (1, 0, standings.head_to_head(1, 0)),
            (2, 0, standings.head_to_head(2, 0))
        ])
    );

    let schedule = vec![scheduled(0, 0, 1), scheduled(1, 1, 0), scheduled(2, 0, 1)];
    let two = Standings::tally(2, &schedule, &vec![ended(B), ended(D), ended(W)]);
    let under_test = MatchScore {
        wins: 1,
        draws: 1,
        losses: 1,
    };
    assert_eq!(
        two.report(TournamentType::RoundRobin(2), penta()),
        ScoreReport::HeadToHead(vec![(0, 1, under_test)])
    );
    assert_eq!(
        two.report(TournamentType::Sprt, penta()),
        ScoreReport::Sprt(under_test, penta())
    );
    assert_eq!(
        two.report(TournamentType::BookTest(2), penta()),
        ScoreReport::Table(vec![under_test, under_test])
    );

    let alone = Standings::tally(1, &vec![scheduled(0, 0, 0)], &vec![ended(W)]);
    assert_eq!(
        alone.report(TournamentType::BookTest(1), penta()),
        ScoreReport::Nothing
    );
}
