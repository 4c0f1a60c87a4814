use racetrack::driver::{
    Action, Event, GameDriver, IoFailure, MoveVerdict, Phase, Player, PositionStatus,
};
use racetrack::game::{forfeit_win_str, Color, GameRecord, GameResult, RecordedMove, ScheduledGame};
use racetrack::notation::Date;
use racetrack::openings::Opening;
use racetrack::tournament::EngineId;

fn player(name: &str, seconds: u64, increment_ms: u64) -> Player {
    Player {
        name: name.to_string(),
        game_time: seconds * 1000,
        increment: increment_ms,
    }
}

fn game(round_number: usize, opening: Opening) -> ScheduledGame {
    ScheduledGame {
        round_number,
        opening,
        white_engine_id: EngineId(0),
        black_engine_id: EngineId(1),
        size: 5,
    }
}

fn from_start() -> Opening {
    Opening {
        root_position: None,
        moves: vec![],
    }
}

fn to_move(side_to_move: Color) -> PositionStatus {
    PositionStatus {
        side_to_move,
        result: None,
    }
}

fn today() -> Date {
    Date {
        year: 2024,
        month: 2,
        day: 29,
    }
}

fn lines(lines: &[&str]) -> Vec<String> {
    lines.iter().map(|line| line.to_string()).collect()
}

fn tag<'a>(record: &'a GameRecord, key: &str) -> Option<&'a str> {
    record
        .tags
        .iter()
        .find(|(k, _)| k == key)
        .map(|(_, v)| v.as_str())
}

/// Takes the driver through the announcement of the game, up to the first
/// position that is sent.
fn start(
    opening: Opening,
    white: Player,
    black: Player,
    status: PositionStatus,
) -> (GameDriver, Action) {
    let (mut driver, action) = GameDriver::new(game(0, opening), white, black, None, status);
    assert_eq!(
        action,
        Action::Send {
            to: Color::White,
            lines: lines(&["teinewgame 5", "isready"])
        }
    );
    assert_eq!(
        driver.step(Event::Written),
        Action::Send {
            to: Color::Black,
            lines: lines(&["teinewgame 5", "isready"])
        }
    );
    assert_eq!(
        driver.step(Event::Written),
        Action::Read { from: Color::White }
    );
    assert_eq!(
        driver.step(Event::Line("something else\n".to_string())),
        Action::Read { from: Color::White }
    );
    assert_eq!(
        driver.step(Event::Line("readyok\n".to_string())),
        Action::Read { from: Color::Black }
    );
    assert_eq!(
        driver.step(Event::Line("readyok now".to_string())),
        Action::Read { from: Color::Black }
    );
    let action = driver.step(Event::Line("  readyok \r\n".to_string()));
    (driver, action)
}

fn played(lan: &str, side_to_move: Color, elapsed_ms: u128) -> Event {
    Event::Checked(MoveVerdict::Played {
        lan: lan.to_string(),
        status: to_move(side_to_move),
        elapsed: elapsed_ms * 1_000_000,
    })
}

#[test]
fn a_game_is_played() {
    let (mut driver, action) = start(
        from_start(),
        player("tiltak", 60, 600),
        player("topaz", 60, 600),
        to_move(Color::White),
    );
    assert_eq!(
        action,
        Action::Send {
            to: Color::White,
            lines: lines(&[
                "position startpos moves ",
                "go wtime 60000 btime 60000 winc 600 binc 600"
            ])
        }
    );
    assert_eq!(
        driver.step(Event::Written),
        Action::Read { from: Color::White }
    );
    assert_eq!(
        driver.step(Event::Line("info depth 3 score cp 35 pv a1 b2\n".to_string())),
        Action::Read { from: Color::White }
    );
    assert_eq!(
        driver.step(Event::Line("info depth 4 score mate 1\n".to_string())),
        Action::Read { from: Color::White }
    );
    assert_eq!(
        driver.step(Event::Line("information\n".to_string())),
        Action::Read { from: Color::White }
    );
    assert_eq!(
        driver.step(Event::Line("bestmove a1 ponder b2\n".to_string())),
        Action::Check {
            mv: "a1".to_string()
        }
    );
    assert_eq!(
        driver.step(played("a1", Color::Black, 1_234)),
        Action::Send {
            to: Color::Black,
            lines: lines(&[
                "position startpos moves a1 ",
                "go wtime 59366 btime 60000 winc 600 binc 600"
            ])
        }
    );
    assert_eq!(
        driver.moves,
        vec![RecordedMove {
            mv: "a1".to_string(),
            comment: "+0.35/3 1.23s".to_string()
        }]
    );
    assert_eq!(
        driver.step(Event::Written),
        Action::Read { from: Color::Black }
    );
    assert_eq!(
        driver.step(Event::Line("info score cp 120 depth 11".to_string())),
        Action::Read { from: Color::Black }
    );
    assert_eq!(
        driver.step(Event::Line("bestmove e5".to_string())),
        Action::Check {
            mv: "e5".to_string()
        }
    );
    assert_eq!(
        driver.step(played("e5", Color::White, 5)),
        Action::Send {
            to: Color::White,
            lines: lines(&[
                "position startpos moves a1 e5 ",
                "go wtime 59366 btime 60595 winc 600 binc 600"
            ])
        }
    );
    assert_eq!(driver.moves[1].comment, "-1.20/11 0.01s");
    assert_eq!(
        driver.step(Event::Written),
        Action::Read { from: Color::White }
    );
    assert_eq!(
        driver.step(Event::Line("bestmove b1".to_string())),
        Action::Check {
            mv: "b1".to_string()
        }
    );
    assert_eq!(
        driver.step(Event::Checked(MoveVerdict::Played {
            lan: "b1".to_string(),
            status: PositionStatus {
                side_to_move: Color::Black,
                result: Some(GameResult::WhiteWin)
            },
            elapsed: 0,
        })),
        Action::Done
    );
    assert!(driver.is_finished());
    assert_eq!(driver.step(Event::Written), Action::Done);
    let record = driver.into_record(today());
    assert_eq!(record.start_position, None);
    assert_eq!(record.game_result, Some(GameResult::WhiteWin));
    assert_eq!(record.moves.len(), 3);
    assert_eq!(record.moves[2].comment, "");
    let tags: Vec<(&str, &str)> = record
        .tags
        .iter()
        .map(|(k, v)| (k.as_str(), v.as_str()))
        .collect();
    assert_eq!(
        tags,
        vec![
            ("Site", "Racetrack"),
            ("Player1", "tiltak"),
            ("Player2", "topaz"),
            ("Round", "1"),
            ("Size", "5"),
            ("Date", "2024.02.29"),
            ("Clock", "1:00 +0.6"),
        ]
    );
}

#[test]
fn an_opening_is_played_before_the_engines() {
    let opening = Opening {
        root_position: Some("x5/x5/x5/x5/x5 1 1".to_string()),
        moves: vec!["a1".to_string(), "e5".to_string(), "c3".to_string()],
    };
    let (driver, action) = start(
        opening,
        player("one", 10, 0),
        player("two", 20, 100),
        to_move(Color::Black),
    );
    assert_eq!(
        action,
        Action::Send {
            to: Color::Black,
            lines: lines(&[
                "position tps x5/x5/x5/x5/x5 1 1 moves a1 e5 c3 ",
                "go wtime 10000 btime 20000 winc 0 binc 100"
            ])
        }
    );
    assert_eq!(driver.moves.len(), 3);
    assert!(driver.moves.iter().all(|mv| mv.comment.is_empty()));
    let record = driver.into_record(today());
    assert_eq!(
        record.start_position,
        Some("x5/x5/x5/x5/x5 1 1".to_string())
    );
    assert_eq!(tag(&record, "Clock"), Some("0:10 +0.0 vs 0:20 +0.1"));
}

#[test]
fn a_final_position_ends_the_game_at_once() {
    let (driver, action) = start(
        from_start(),
        player("one", 10, 0),
        player("two", 10, 0),
        PositionStatus {
            side_to_move: Color::White,
            result: Some(GameResult::Draw),
        },
    );
    assert_eq!(action, Action::Done);
    let record = driver.into_record(today());
    assert_eq!(record.game_result, Some(GameResult::Draw));
    assert_eq!(tag(&record, "Termination"), None);
}

#[test]
fn a_game_that_is_too_long_ends_without_a_result() {
    let opening = Opening {
        root_position: None,
        moves: (0..1000).map(|i| format!("m{}", i)).collect(),
    };
    let (mut driver, action) = start(
        opening,
        player("one", 10, 0),
        player("two", 10, 0),
        to_move(Color::White),
    );
    assert!(matches!(action, Action::Send { to: Color::White, .. }));
    assert_eq!(
        driver.step(Event::Written),
        Action::Read { from: Color::White }
    );
    assert_eq!(
        driver.step(Event::Line("bestmove a1".to_string())),
        Action::Check {
            mv: "a1".to_string()
        }
    );
    assert_eq!(driver.step(played("a1", Color::Black, 1)), Action::Done);
    let record = driver.into_record(today());
    assert_eq!(record.game_result, None);
    assert_eq!(record.moves.len(), 1001);
    assert_eq!(tag(&record, "Termination"), Some("max length reached"));
}

#[test]
fn a_game_of_a_thousand_moves_goes_on() {
    let opening = Opening {
        root_position: None,
        moves: (0..999).map(|i| format!("m{}", i)).collect(),
    };
    let (mut driver, _) = start(
        opening,
        player("one", 10, 0),
        player("two", 10, 0),
        to_move(Color::White),
    );
    driver.step(Event::Written);
    driver.step(Event::Line("bestmove a1".to_string()));
    assert!(matches!(
        driver.step(played("a1", Color::Black, 1)),
        Action::Send { to: Color::Black, .. }
    ));
    assert_eq!(driver.moves.len(), 1000);
}

#[test]
fn a_move_that_takes_too_long_loses_on_time() {
    let (mut driver, _) = start(
        from_start(),
        player("one", 1, 5_000),
        player("two", 1, 5_000),
        to_move(Color::White),
    );
    driver.step(Event::Written);
    driver.step(Event::Line("bestmove a1".to_string()));
    let action = driver.step(Event::Checked(MoveVerdict::Played {
        lan: "a1".to_string(),
        status: PositionStatus {
            side_to_move: Color::Black,
            result: Some(GameResult::WhiteWin),
        },
        elapsed: 1_000_000_001,
    }));
    assert_eq!(action, Action::Done);
    let record = driver.into_record(today());
    assert_eq!(record.game_result, Some(GameResult::BlackWin));
    assert_eq!(tag(&record, "Termination"), Some("Black wins on time"));
    assert_eq!(record.moves.len(), 1);
}

#[test]
fn a_move_that_takes_all_the_time_is_in_time() {
    let (mut driver, _) = start(
        from_start(),
        player("one", 1, 250),
        player("two", 1, 250),
        to_move(Color::Black),
    );
    driver.step(Event::Written);
    driver.step(Event::Line("bestmove a1".to_string()));
    assert_eq!(
        driver.step(played("a1", Color::White, 1_000)),
        Action::Send {
            to: Color::White,
            lines: lines(&[
                "position startpos moves a1 ",
                "go wtime 1000 btime 250 winc 250 binc 250"
            ])
        }
    );
    driver.step(Event::Written);
    driver.step(Event::Line("bestmove b1".to_string()));
    assert_eq!(driver.step(played("b1", Color::Black, 1_001)), Action::Done);
    let record = driver.into_record(today());
    assert_eq!(record.game_result, Some(GameResult::BlackWin));
    assert_eq!(tag(&record, "Termination"), Some("Black wins on time"));
}

#[test]
fn black_loses_on_time_too() {
    let (mut driver, _) = start(
        from_start(),
        player("one", 1, 0),
        player("two", 1, 0),
        to_move(Color::Black),
    );
    driver.step(Event::Written);
    driver.step(Event::Line("bestmove a1".to_string()));
    assert_eq!(driver.step(played("a1", Color::White, 2_000)), Action::Done);
    let record = driver.into_record(today());
    assert_eq!(record.game_result, Some(GameResult::WhiteWin));
    assert_eq!(tag(&record, "Termination"), Some("White wins on time"));
}

#[test]
fn a_crash_is_a_loss_and_the_engine_is_started_again() {
    let (mut driver, _) = start(
        from_start(),
        player("one", 10, 0),
        player("two", 10, 0),
        to_move(Color::White),
    );
    assert_eq!(
        driver.step(Event::Written),
        Action::Read { from: Color::White }
    );
    assert_eq!(
        driver.step(Event::Failed(IoFailure::Disconnected)),
        Action::Restart {
            engine: Color::White
        }
    );
    assert_eq!(driver.phase, Phase::Restarting);
    assert_eq!(driver.step(Event::Restarted), Action::Done);
    let record = driver.into_record(today());
    assert_eq!(record.game_result, Some(GameResult::BlackWin));
    assert_eq!(
        tag(&record, "Termination"),
        Some("White disconnected or crashed")
    );
    assert!(record.moves.is_empty());
}

#[test]
fn a_crash_while_the_position_is_sent_is_a_loss() {
    let (mut driver, _) = start(
        from_start(),
        player("one", 10, 0),
        player("two", 10, 0),
        to_move(Color::Black),
    );
    assert_eq!(
        driver.step(Event::Failed(IoFailure::Disconnected)),
        Action::Restart {
            engine: Color::Black
        }
    );
    assert_eq!(driver.step(Event::Restarted), Action::Done);
    let record = driver.into_record(today());
    assert_eq!(record.game_result, Some(GameResult::WhiteWin));
    assert_eq!(
        tag(&record, "Termination"),
        Some("Black disconnected or crashed")
    );
}

#[test]
fn an_engine_that_cannot_be_started_again_ends_the_game() {
    let (mut driver, _) = start(
        from_start(),
        player("one", 10, 0),
        player("two", 10, 0),
        to_move(Color::White),
    );
    driver.step(Event::Written);
    driver.step(Event::Failed(IoFailure::Disconnected));
    assert_eq!(
        driver.step(Event::Failed(IoFailure::Other)),
        Action::Abort
    );
    assert_eq!(driver.phase, Phase::Failed);
    assert_eq!(driver.step(Event::Restarted), Action::Abort);
}

#[test]
fn any_other_failure_ends_the_game() {
    let (mut driver, _) = start(
        from_start(),
        player("one", 10, 0),
        player("two", 10, 0),
        to_move(Color::White),
    );
    driver.step(Event::Written);
    assert_eq!(driver.step(Event::Failed(IoFailure::Other)), Action::Abort);
    assert!(!driver.is_finished());
}

#[test]
fn a_failure_before_the_game_ends_it() {
    let (mut driver, _) = GameDriver::new(
        game(0, from_start()),
        player("one", 10, 0),
        player("two", 10, 0),
        None,
        to_move(Color::White),
    );
    assert_eq!(
        driver.step(Event::Failed(IoFailure::Disconnected)),
        Action::Abort
    );
}

#[test]
fn an_event_out_of_turn_ends_the_game() {
    let (mut driver, _) = start(
        from_start(),
        player("one", 10, 0),
        player("two", 10, 0),
        to_move(Color::White),
    );
    assert_eq!(driver.step(Event::Restarted), Action::Abort);
}

#[test]
fn a_malformed_move_is_a_loss() {
    let (mut driver, _) = start(
        from_start(),
        player("one", 10, 0),
        player("two", 10, 0),
        to_move(Color::White),
    );
    driver.step(Event::Written);
    assert_eq!(
        driver.step(Event::Line("bestmove".to_string())),
        Action::Check { mv: String::new() }
    );
    assert_eq!(
        driver.step(Event::Checked(MoveVerdict::Malformed)),
        Action::Done
    );
    let record = driver.into_record(today());
    assert_eq!(record.game_result, Some(GameResult::BlackWin));
    assert_eq!(
        tag(&record, "Termination"),
        Some("White sent a malformed move")
    );
}

#[test]
fn an_illegal_move_is_a_loss() {
    let (mut driver, _) = start(
        from_start(),
        player("one", 10, 0),
        player("two", 10, 0),
        to_move(Color::Black),
    );
    driver.step(Event::Written);
    driver.step(Event::Line("bestmove a1".to_string()));
    assert_eq!(
        driver.step(Event::Checked(MoveVerdict::Illegal)),
        Action::Done
    );
    let record = driver.into_record(today());
    assert_eq!(record.game_result, Some(GameResult::WhiteWin));
    assert_eq!(
        tag(&record, "Termination"),
        Some("Black made an illegal move")
    );
}

#[test]
fn scores_are_written_as_white_sees_them() {
    for (mover, cp, elapsed_ns, comment) in [
        (Color::White, 0, 0u128, "+0.00/0 0.00s"),
        (Color::Black, 0, 4_999_999, "-0.00/0 0.00s"),
        (Color::White, -5, 5_000_000, "-0.05/0 0.01s"),
        (Color::Black, -5, 995_000_000, "+0.05/0 1.00s"),
        (Color::White, 12_345, 61_234_000_000, "+123.45/0 61.23s"),
        (Color::Black, 100, 10_000_000, "-1.00/0 0.01s"),
        (Color::White, i64::MIN, 1, "-92233720368547758.08/0 0.00s"),
        (Color::Black, i64::MAX, 1, "-92233720368547758.07/0 0.00s"),
    ] {
        let (mut driver, _) = start(
            from_start(),
            player("one", 100, 0),
            player("two", 100, 0),
            to_move(mover),
        );
        driver.step(Event::Written);
        driver.step(Event::Line(format!("info score cp {}", cp)));
        driver.step(Event::Line("bestmove a1".to_string()));
        driver.step(Event::Checked(MoveVerdict::Played {
            lan: "a1".to_string(),
            status: to_move(mover.opponent()),
            elapsed: elapsed_ns,
        }));
        assert_eq!(driver.moves[0].comment, comment);
    }
}

#[test]
fn the_last_report_is_forgotten_with_the_next_move() {
    let (mut driver, _) = start(
        from_start(),
        player("one", 100, 0),
        player("two", 100, 0),
        to_move(Color::White),
    );
    driver.step(Event::Written);
    driver.step(Event::Line("info score cp 10 depth 2".to_string()));
    driver.step(Event::Line("info score cp 20 depth 3".to_string()));
    driver.step(Event::Line("info score cp x depth 4".to_string()));
    driver.step(Event::Line("bestmove a1".to_string()));
    driver.step(played("a1", Color::Black, 0));
    driver.step(Event::Written);
    driver.step(Event::Line("bestmove b1".to_string()));
    driver.step(played("b1", Color::White, 0));
    assert_eq!(driver.moves[0].comment, "+0.20/3 0.00s");
    assert_eq!(driver.moves[1].comment, "");
}

#[test]
fn the_record_names_round_komi_and_termination() {
    let (mut driver, _) = GameDriver::new(
        ScheduledGame {
            round_number: 41,
            opening: from_start(),
            white_engine_id: EngineId(1),
            black_engine_id: EngineId(0),
            size: 6,
        },
        player("b", 180, 3_000),
        player("a", 180, 3_000),
        Some("2.5".to_string()),
        to_move(Color::White),
    );
    assert_eq!(driver.step(Event::Failed(IoFailure::Other)), Action::Abort);
    let record = driver.into_record(Date {
        year: 987,
        month: 11,
        day: 1,
    });
    let tags: Vec<(&str, &str)> = record
        .tags
        .iter()
        .map(|(k, v)| (k.as_str(), v.as_str()))
        .collect();
    assert_eq!(
        tags,
        vec![
            ("Site", "Racetrack"),
            ("Player1", "b"),
            ("Player2", "a"),
            ("Round", "42"),
            ("Size", "6"),
            ("Date", "987.11.01"),
            ("Clock", "3:00 +3.0"),
            ("Komi", "2.5"),
        ]
    );
}

#[test]
fn forfeits_and_results_are_written_down() {
    assert_eq!(forfeit_win_str(Color::White), "1-0");
    assert_eq!(forfeit_win_str(Color::Black), "0-1");
    assert_eq!(GameResult::WhiteWin.to_str(), "1-0");
    assert_eq!(GameResult::BlackWin.to_str(), "0-1");
    assert_eq!(GameResult::Draw.to_str(), "1/2-1/2");
    assert_eq!(Color::White.opponent(), Color::Black);
    assert_eq!(Color::Black.opponent(), Color::White);
    assert_eq!(Color::White.to_str(), "White");
    let placeholder = GameRecord::placeholder();
    assert_eq!(
        placeholder,
        GameRecord {
            start_position: None,
            moves: vec![],
            game_result: None,
            tags: vec![]
        }
    );
}

#[test]
fn a_record_is_dated_today() {
    let (driver, _) = start(
        from_start(),
        player("one", 10, 0),
        player("two", 10, 0),
        PositionStatus {
            side_to_move: Color::White,
            result: Some(GameResult::BlackWin),
        },
    );
    let record = driver.into_record_of_today();
    assert_eq!(record.game_result, Some(GameResult::BlackWin));
    let date = tag(&record, "Date").unwrap();
    let parts: Vec<u32> = date.split('.').map(|part| part.parse().unwrap()).collect();
    assert_eq!(parts.len(), 3);
    assert!(parts[0] >= 2024);
    assert!((1..=12).contains(&parts[1]));
    assert!((1..=31).contains(&parts[2]));
    assert_eq!(date.len(), 10);
    assert_eq!(record.tags.len(), 7);
}
