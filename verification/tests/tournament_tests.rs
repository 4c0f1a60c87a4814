use racetrack::game::ScheduledGame;
use racetrack::openings::Opening;
use racetrack::tournament::{EngineId, Tournament, TournamentSettings, TournamentType};

fn square_name(i: usize) -> String {
    let file = (b'a' + (i % 6) as u8) as char;
    format!("{}{}", file, i / 6 + 1)
}

fn dummy_tournament(num_games: usize, tournament_type: TournamentType) -> TournamentSettings {
    TournamentSettings {
        size: 6,
        concurrency: 1,
        num_games,
        openings: (0..36)
            .map(|i| Opening {
                root_position: None,
                moves: vec![square_name(i)],
            })
            .collect(),
        openings_start_index: 0,
        tournament_type,
    }
}

#[test]
fn two_engines_round_robin_test() {
    let head_to_head_settings = dummy_tournament(12, TournamentType::RoundRobin(2));

    let head_to_head_games = head_to_head_settings.schedule();

    // Check game #1
    assert_eq!(
        head_to_head_games[0],
        ScheduledGame {
            round_number: 0,
            opening: Opening {
                root_position: None,
                moves: vec![square_name(0)],
            },
            white_engine_id: EngineId(0),
            black_engine_id: EngineId(1),
            size: 6
        }
    );

    // Check game #2
    assert_eq!(
        head_to_head_games[1],
        ScheduledGame {
            round_number: 1,
            opening: Opening {
                root_position: None,
                moves: vec![square_name(0)],
            },
            white_engine_id: EngineId(1),
            black_engine_id: EngineId(0),
            size: 6
        }
    );

    // Engine #1 has white half the time
    assert_eq!(
        head_to_head_games
            .iter()
            .filter(|game| game.white_engine_id == EngineId(0))
            .count(),
        head_to_head_games.len() / 2
    );

    // 6 different openings are played in the 12 games
    let mut openings: Vec<_> = head_to_head_games
        .iter()
        .map(|game| game.opening.clone())
        .collect();
    openings.dedup();
    assert_eq!(openings.len(), 6);
}

#[test]
fn double_gauntlet_test() {
    let gauntlet_settings = dummy_tournament(24, TournamentType::Gauntlet(2));
    let gauntlet_games = gauntlet_settings.schedule();

    // 3 different openings are played in the 24 games
    let mut openings: Vec<_> = gauntlet_games
        .iter()
        .map(|game| game.opening.clone())
        .collect();
    openings.dedup();
    assert_eq!(openings.len(), 6);

    // The champion plays white in game #1 and #2
    assert_eq!(gauntlet_games[0].white_engine_id, EngineId(0));
    assert_eq!(gauntlet_games[1].white_engine_id, EngineId(0));

    // The challengers take turns playing black
    assert_eq!(gauntlet_games[0].black_engine_id, EngineId(1));
    assert_eq!(gauntlet_games[1].black_engine_id, EngineId(2));

    // The champion plays in half the games
    assert!(gauntlet_games
        .iter()
        .all(|game| game.white_engine_id == EngineId(0) || game.black_engine_id == EngineId(0)));

    // The champion plays white in half the games
    assert_eq!(
        gauntlet_games
            .iter()
            .filter(|game| game.white_engine_id == EngineId(0))
            .count(),
        gauntlet_games.len() / 2
    );

    // The challengers play white in 1/4 the games each
    assert_eq!(
        gauntlet_games
            .iter()
            .filter(|game| game.white_engine_id == EngineId(1))
            .count(),
        gauntlet_games.len() / 4
    );
}

#[test]
fn round_robin_three_engines_test() {
    let round_robin_settings = dummy_tournament(60, TournamentType::RoundRobin(3));
    let round_robin_games = round_robin_settings.schedule();

    assert_eq!(round_robin_games.len(), 60);

    // An engine should never play itself
    for game in round_robin_games.iter() {
        assert_ne!(
            game.white_engine_id, game.black_engine_id,
            "Game #{}: {:?} vs {:?}",
            game.round_number, game.white_engine_id, game.black_engine_id
        )
    }

    // Engine 1 plays white in 1/3 of games
    assert_eq!(
        round_robin_games
            .iter()
            .filter(|game| game.white_engine_id == EngineId(0))
            .count(),
        round_robin_games.len() / 3
    );

    // Engine 1 plays in 2/3 of games
    assert_eq!(
        round_robin_games
            .iter()
            .filter(
                |game| game.white_engine_id == EngineId(0) || game.black_engine_id == EngineId(0)
            )
            .count(),
        2 * round_robin_games.len() / 3,
        "{:?}",
        round_robin_games
    );
}

#[test]
fn round_robin_n_engines_test() {
    for num_engines in 2..=6 {
        let round_robin_settings = dummy_tournament(60, TournamentType::RoundRobin(num_engines));
        let round_robin_games = round_robin_settings.schedule();

        assert_eq!(round_robin_games.len(), 60);

        // An engine should never play itself
        for game in round_robin_games.iter() {
            assert_ne!(
                game.white_engine_id, game.black_engine_id,
                "Game #{}: {:?} vs {:?}",
                game.round_number, game.white_engine_id, game.black_engine_id
            )
        }

        for id in 0..num_engines {
            // Each engine plays white in 1/n of games
            assert_eq!(
                round_robin_games
                    .iter()
                    .filter(|game| game.white_engine_id == EngineId(id))
                    .count(),
                round_robin_games.len() / num_engines
            );

            // Engine 1 plays in 2/n of games
            assert_eq!(
                round_robin_games
                    .iter()
                    .filter(|game| game.white_engine_id == EngineId(id)
                        || game.black_engine_id == EngineId(id))
                    .count(),
                2 * round_robin_games.len() / num_engines,
                "{:?}",
                round_robin_games
            );
        }
    }
}

#[test]
fn book_test_one_engine_test() {
    let book_test_settings = dummy_tournament(60, TournamentType::BookTest(1));
    let book_test_games = book_test_settings.schedule();

    assert_eq!(book_test_games.len(), 60);

    // Openings are unique
    for game in book_test_games.iter().skip(1).take(10) {
        assert_ne!(game.opening, book_test_games[0].opening);
    }

    // The engine always plays itself
    for game in book_test_games.iter() {
        assert_eq!(game.white_engine_id, EngineId(0));
        assert_eq!(game.black_engine_id, EngineId(0));
    }
}

#[test]
fn book_test_n_engines_test() {
    for num_engines in 1..=5 {
        let book_test_settings = dummy_tournament(3600, TournamentType::BookTest(num_engines));
        let book_test_games = book_test_settings.schedule();

        assert_eq!(book_test_games.len(), 3600);

        for id in 0..num_engines {
            // Each engine plays white in 1/n of games
            assert_eq!(
                book_test_games
                    .iter()
                    .filter(|game| game.white_engine_id == EngineId(id))
                    .count(),
                book_test_games.len() / num_engines
            );

            // Each engine plays in (1 + 2 * (n - 1))/n^2 of games
            assert_eq!(
                book_test_games
                    .iter()
                    .filter(|game| game.white_engine_id == EngineId(id)
                        || game.black_engine_id == EngineId(id))
                    .count(),
                book_test_games.len() * (2 * num_engines - 1) / (num_engines * num_engines),
                "{} engines",
                num_engines
            );
        }
    }
}

fn two_openings(num_games: usize, tournament_type: TournamentType) -> TournamentSettings {
    TournamentSettings {
        size: 5,
        concurrency: 1,
        num_games,
        openings: vec![
            Opening {
                root_position: None,
                moves: vec!["a1".to_string()],
            },
            Opening {
                root_position: Some("x5/x5/x5/x5/x5 1 1".to_string()),
                moves: vec![],
            },
        ],
        openings_start_index: 0,
        tournament_type,
    }
}

fn pairings(games: &[ScheduledGame]) -> Vec<(usize, usize)> {
    games
        .iter()
        .map(|game| (game.white_engine_id.0, game.black_engine_id.0))
        .collect()
}

fn opening_numbers(settings: &TournamentSettings, games: &[ScheduledGame]) -> Vec<usize> {
    games
        .iter()
        .map(|game| {
            settings
                .openings
                .iter()
                .position(|opening| *opening == game.opening)
                .unwrap()
        })
        .collect()
}

#[test]
fn head_to_head_schedule() {
    let settings = two_openings(4, TournamentType::RoundRobin(2));
    let games = settings.schedule();
    assert_eq!(pairings(&games), vec![(0, 1), (1, 0), (0, 1), (1, 0)]);
    assert_eq!(opening_numbers(&settings, &games), vec![0, 0, 1, 1]);
    let rounds: Vec<usize> = games.iter().map(|game| game.round_number).collect();
    assert_eq!(rounds, vec![0, 1, 2, 3]);
    assert!(games.iter().all(|game| game.size == 5));
}

#[test]
fn sprt_schedule_is_head_to_head() {
    let settings = two_openings(6, TournamentType::Sprt);
    let games = settings.schedule();
    assert_eq!(
        pairings(&games),
        vec![(0, 1), (1, 0), (0, 1), (1, 0), (0, 1), (1, 0)]
    );
    assert_eq!(opening_numbers(&settings, &games), vec![0, 0, 1, 1, 0, 0]);
}

#[test]
fn gauntlet_schedule() {
    let settings = two_openings(8, TournamentType::Gauntlet(2));
    let games = settings.schedule();
    assert_eq!(
        pairings(&games),
        vec![
            (0, 1),
            (0, 2),
            (1, 0),
            (2, 0),
            (0, 1),
            (0, 2),
            (1, 0),
            (2, 0)
        ]
    );
    assert_eq!(
        opening_numbers(&settings, &games),
        vec![0, 0, 0, 0, 1, 1, 1, 1]
    );
}

#[test]
fn round_robin_schedule_of_three() {
    let settings = two_openings(6, TournamentType::RoundRobin(3));
    let games = settings.schedule();
    assert_eq!(
        pairings(&games),
        vec![(0, 1), (0, 2), (1, 0), (1, 2), (2, 0), (2, 1)]
    );
}

#[test]
fn book_test_schedule_of_two() {
    let settings = two_openings(5, TournamentType::BookTest(2));
    let games = settings.schedule();
    assert_eq!(
        pairings(&games),
        vec![(0, 0), (0, 1), (1, 0), (1, 1), (0, 0)]
    );
    assert_eq!(opening_numbers(&settings, &games), vec![0, 0, 0, 0, 1]);
}

#[test]
fn openings_start_where_they_are_told_to() {
    let mut settings = dummy_tournament(6, TournamentType::RoundRobin(2));
    settings.openings_start_index = 35;
    let games = settings.schedule();
    assert_eq!(opening_numbers(&settings, &games), vec![35, 35, 0, 0, 1, 1]);
}

#[test]
fn shapes_have_their_engines_and_periods() {
    assert_eq!(TournamentType::Gauntlet(3).num_engines(), 4);
    assert_eq!(TournamentType::Gauntlet(3).alignment(), 6);
    assert_eq!(TournamentType::RoundRobin(4).num_engines(), 4);
    assert_eq!(TournamentType::RoundRobin(4).alignment(), 12);
    assert_eq!(TournamentType::BookTest(3).num_engines(), 3);
    assert_eq!(TournamentType::BookTest(3).alignment(), 9);
    assert_eq!(TournamentType::Sprt.num_engines(), 2);
    assert_eq!(TournamentType::Sprt.alignment(), 2);
}

#[test]
fn games_are_handed_out_once_and_in_order() {
    let mut tournament = Tournament::new(two_openings(3, TournamentType::Sprt));
    assert_eq!(tournament.finished_games, vec![None, None, None]);
    let rounds: Vec<usize> = std::iter::from_fn(|| tournament.next_unplayed_game())
        .map(|game| game.round_number)
        .collect();
    assert_eq!(rounds, vec![0, 1, 2]);
    assert_eq!(tournament.next_unplayed_game(), None);
    assert_eq!(tournament.games_schedule.next_game_id, 3);
}

#[test]
fn no_game_is_played_once_the_tournament_shuts_down() {
    let mut tournament = Tournament::new(two_openings(4, TournamentType::Sprt));
    assert_eq!(
        tournament.next_game_to_play(false).map(|game| game.round_number),
        Some(0)
    );
    assert_eq!(tournament.next_game_to_play(true), None);
    assert_eq!(tournament.next_game_to_play(true), None);
    assert_eq!(tournament.games_schedule.next_game_id, 1);
    assert_eq!(
        tournament.next_game_to_play(false).map(|game| game.round_number),
        Some(1)
    );
    assert_eq!(tournament.games_schedule.next_game_id, 2);
}

#[test]
fn no_game_is_left_after_the_last() {
    let mut tournament = Tournament::new(two_openings(1, TournamentType::Sprt));
    assert_eq!(
        tournament.next_game_to_play(false).map(|game| game.round_number),
        Some(0)
    );
    assert_eq!(tournament.next_game_to_play(false), None);
    assert_eq!(tournament.next_game_to_play(true), None);
    assert_eq!(tournament.games_schedule.next_game_id, 1);
}
