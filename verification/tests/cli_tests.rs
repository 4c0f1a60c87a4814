use racetrack::cli::{
    book_format_for, engine_builder, engine_builders, eq_ignoring_case, format_name, is_aligned, parse_engine,
    parse_sprt_options, required_engines, tournament_type_for, CliEngine, CliError, CliErrorKind,
    SprtOptions,
};
use racetrack::engine::EngineBuilder;
use racetrack::openings::{
    arrange_book, opening_from_move_list_line, openings_from_fen, openings_from_move_list,
    BookFormat, Opening,
};
use racetrack::tournament::TournamentType;

fn args(args: &[&str]) -> Vec<String> {
    args.iter().map(|arg| arg.to_string()).collect()
}

fn error(kind: CliErrorKind, argument: &str) -> Result<CliEngine, CliError> {
    Err(CliError {
        kind,
        argument: argument.to_string(),
    })
}

#[test]
fn an_engine_is_described_by_its_arguments() {
    assert_eq!(
        parse_engine(&args(&[
            "path=taktician",
            "arg=tei -multi-cut -table-mem 512000000",
            "tc=60+0.6"
        ])),
        Ok(CliEngine {
            path: "taktician".to_string(),
            cli_args: Some("tei -multi-cut -table-mem 512000000".to_string()),
            time: 60_000,
            increment: 600,
            tei_settings: vec![],
        })
    );
    assert_eq!(
        parse_engine(&args(&["path=topaz", "option.NN=topaz.txt", "tc=180+3"])),
        Ok(CliEngine {
            path: "topaz".to_string(),
            cli_args: None,
            time: 180_000,
            increment: 3_000,
            tei_settings: vec![("NN".to_string(), "topaz.txt".to_string())],
        })
    );
    assert_eq!(
        parse_engine(&args(&["tc=1", "option.a=b=c", "option.=", "path="])),
        Ok(CliEngine {
            path: String::new(),
            cli_args: None,
            time: 1_000,
            increment: 0,
            tei_settings: vec![
                ("a".to_string(), "b=c".to_string()),
                (String::new(), String::new())
            ],
        })
    );
}

#[test]
fn what_is_wrong_with_an_engine_is_said() {
    assert_eq!(
        parse_engine(&args(&["path=a", "tc"])),
        error(CliErrorKind::ExpectedKeyValue, "tc")
    );
    assert_eq!(
        parse_engine(&args(&["path=a", "option.Threads=1", "option.threads=2"])),
        error(CliErrorKind::DuplicateOption, "threads")
    );
    assert_eq!(
        parse_engine(&args(&["option.halfkomi=2"])),
        error(CliErrorKind::ReservedOption, "halfkomi")
    );
    assert_eq!(
        parse_engine(&args(&["path=a", "path=b"])),
        error(CliErrorKind::DuplicatePath, "b")
    );
    assert_eq!(
        parse_engine(&args(&["arg=a", "arg=b"])),
        error(CliErrorKind::DuplicateArg, "b")
    );
    assert_eq!(
        parse_engine(&args(&["tc=1", "tc=2"])),
        error(CliErrorKind::DuplicateTc, "2")
    );
    assert_eq!(
        parse_engine(&args(&["time=1"])),
        error(CliErrorKind::UnknownArgument, "time=1")
    );
    assert_eq!(
        parse_engine(&args(&["options.a=1"])),
        error(CliErrorKind::UnknownArgument, "options.a=1")
    );
    assert_eq!(
        parse_engine(&args(&["tc=1"])),
        error(CliErrorKind::MissingPath, "")
    );
    assert_eq!(
        parse_engine(&args(&[])),
        error(CliErrorKind::MissingPath, "")
    );
    assert_eq!(
        parse_engine(&args(&["path=a"])),
        error(CliErrorKind::MissingTc, "a")
    );
    assert_eq!(
        parse_engine(&args(&["path=a", "tc=abc"])),
        error(CliErrorKind::InvalidTc, "abc")
    );
    assert_eq!(
        parse_engine(&args(&["path=a", "nonsense", "path=b"])),
        error(CliErrorKind::ExpectedKeyValue, "nonsense")
    );
}

#[test]
fn letters_are_compared_without_their_case() {
    assert!(eq_ignoring_case("HalfKomi", "halfkomi"));
    assert!(eq_ignoring_case("", ""));
    assert!(eq_ignoring_case("a-Z_09", "A-z_09"));
    assert!(!eq_ignoring_case("abc", "abd"));
    assert!(!eq_ignoring_case("abc", "ab"));
    assert!(!eq_ignoring_case("[", "{"));
    assert!(!eq_ignoring_case("@", "`"));
    assert!(!eq_ignoring_case("Ä", "ä"));
}

#[test]
fn the_format_decides_the_shape() {
    assert_eq!(
        tournament_type_for("gauntlet", 3),
        Ok(TournamentType::Gauntlet(2))
    );
    assert_eq!(
        tournament_type_for("round-robin", 2),
        Ok(TournamentType::RoundRobin(2))
    );
    assert_eq!(
        tournament_type_for("book-test", 1),
        Ok(TournamentType::BookTest(1))
    );
    assert_eq!(tournament_type_for("sprt", 2), Ok(TournamentType::Sprt));
    for (format, engines) in [
        ("gauntlet", 2),
        ("round-robin", 1),
        ("book-test", 0),
        ("sprt", 1),
        ("sprt", 3),
    ] {
        assert_eq!(
            tournament_type_for(format, engines),
            Err(CliError {
                kind: CliErrorKind::WrongEngineCount,
                argument: format.to_string()
            })
        );
    }
    assert_eq!(
        tournament_type_for("swiss", 8),
        Err(CliError {
            kind: CliErrorKind::UnsupportedFormat,
            argument: "swiss".to_string()
        })
    );
    assert_eq!(required_engines("gauntlet"), 3);
    assert_eq!(required_engines("round-robin"), 2);
    assert_eq!(required_engines("sprt"), 2);
    assert_eq!(required_engines("book-test"), 1);
    assert_eq!(format_name(TournamentType::RoundRobin(4)), "round robin");
    assert_eq!(format_name(TournamentType::Gauntlet(4)), "gauntlet");
    assert_eq!(format_name(TournamentType::BookTest(4)), "book-test");
    assert_eq!(format_name(TournamentType::Sprt), "sprt");
}

#[test]
fn games_are_aligned_with_the_period() {
    assert!(is_aligned(2000, TournamentType::RoundRobin(2)));
    assert!(!is_aligned(7, TournamentType::Sprt));
    assert!(is_aligned(24, TournamentType::Gauntlet(3)));
    assert!(!is_aligned(24, TournamentType::BookTest(5)));
    assert!(is_aligned(0, TournamentType::BookTest(5)));
}

#[test]
fn books_have_formats() {
    assert_eq!(book_format_for("move-list"), Some(BookFormat::MoveList));
    assert_eq!(book_format_for("tps"), Some(BookFormat::Fen));
    assert_eq!(book_format_for("ptn"), Some(BookFormat::Pgn));
    assert_eq!(book_format_for("pgn"), None);
}

#[test]
fn the_komi_is_the_last_setting_of_an_engine() {
    let engine = CliEngine {
        path: "tiltak".to_string(),
        cli_args: Some("tei".to_string()),
        time: 60_000,
        increment: 600,
        tei_settings: vec![("Threads".to_string(), "2".to_string())],
    };
    assert_eq!(
        engine_builder(&engine, -3),
        EngineBuilder {
            path: "tiltak".to_string(),
            args: Some("tei".to_string()),
            desired_uci_options: vec![
                ("Threads".to_string(), "2".to_string()),
                ("HalfKomi".to_string(), "-3".to_string())
            ],
            game_time: 60_000,
            increment: 600,
        }
    );
    assert_eq!(
        engine_builder(&engine, 0).desired_uci_options[1].1,
        "0"
    );
    let other = CliEngine {
        path: "topaz".to_string(),
        cli_args: None,
        time: 1_000,
        increment: 0,
        tei_settings: vec![],
    };
    assert_eq!(
        engine_builders(&vec![engine, other], 5),
        vec![
            EngineBuilder {
                path: "tiltak".to_string(),
                args: Some("tei".to_string()),
                desired_uci_options: vec![
                    ("Threads".to_string(), "2".to_string()),
                    ("HalfKomi".to_string(), "5".to_string())
                ],
                game_time: 60_000,
                increment: 600,
            },
            EngineBuilder {
                path: "topaz".to_string(),
                args: None,
                desired_uci_options: vec![("HalfKomi".to_string(), "5".to_string())],
                game_time: 1_000,
                increment: 0,
            },
        ]
    );
}

#[test]
fn a_move_list_holds_an_opening_on_each_line() {
    let lines = vec![
        "a1 e5  c3".to_string(),
        String::new(),
        "  b2\t".to_string(),
    ];
    assert_eq!(
        openings_from_move_list(&lines),
        vec![
            Opening {
                root_position: None,
                moves: vec!["a1".to_string(), "e5".to_string(), "c3".to_string()]
            },
            Opening {
                root_position: None,
                moves: vec![]
            },
            Opening {
                root_position: None,
                moves: vec!["b2".to_string()]
            },
        ]
    );
}

#[test]
fn a_book_of_positions_holds_one_on_each_line() {
    let lines = vec![
        "x5/x5/x5/x5/x5 1 1".to_string(),
        "   ".to_string(),
        String::new(),
        " 2,x4/x5/x5/x5/x5 2 1".to_string(),
    ];
    assert_eq!(
        openings_from_fen(&lines),
        vec![
            Opening {
                root_position: Some("x5/x5/x5/x5/x5 1 1".to_string()),
                moves: vec![]
            },
            Opening {
                root_position: Some(" 2,x4/x5/x5/x5/x5 2 1".to_string()),
                moves: vec![]
            },
        ]
    );
}

#[test]
fn an_opening_is_written_as_it_is_read() {
    let opening = opening_from_move_list_line("  a1\te5   c3 ");
    assert_eq!(opening.to_move_list_line(), "a1 e5 c3");
    assert_eq!(
        opening_from_move_list_line(&opening.to_move_list_line()),
        opening
    );
    assert_eq!(opening_from_move_list_line("").to_move_list_line(), "");
}

fn numbered_openings() -> Vec<Opening> {
    (0..200)
        .map(|i| Opening {
            root_position: None,
            moves: vec![i.to_string()],
        })
        .collect()
}

#[test]
fn a_book_is_played_as_it_is_unless_it_is_shuffled() {
    let mut book = numbered_openings();
    arrange_book(&mut book, false);
    assert_eq!(book, numbered_openings());
}

#[test]
fn a_shuffled_book_holds_the_same_openings() {
    let mut book = numbered_openings();
    arrange_book(&mut book, true);
    assert_ne!(book, numbered_openings());
    book.sort_by_key(|opening| opening.moves[0].parse::<usize>().unwrap());
    assert_eq!(book, numbered_openings());
}

fn sprt_error(kind: CliErrorKind, argument: &str) -> Result<SprtOptions, CliError> {
    Err(CliError {
        kind,
        argument: argument.to_string(),
    })
}

#[test]
fn a_test_is_described_by_its_arguments() {
    assert_eq!(
        parse_sprt_options(&args(&["elo0=0", "elo1=5"])),
        Ok(SprtOptions {
            elo0: "0".to_string(),
            elo1: "5".to_string(),
            alpha: "0.05".to_string(),
            beta: "0.05".to_string(),
        })
    );
    assert_eq!(
        parse_sprt_options(&args(&["beta=0.1", "elo1=2.5", "alpha=", "elo0=-2.5"])),
        Ok(SprtOptions {
            elo0: "-2.5".to_string(),
            elo1: "2.5".to_string(),
            alpha: String::new(),
            beta: "0.1".to_string(),
        })
    );
}

#[test]
fn what_is_wrong_with_a_test_is_said() {
    assert_eq!(
        parse_sprt_options(&args(&["elo1=5"])),
        sprt_error(CliErrorKind::MissingElo0, "")
    );
    assert_eq!(
        parse_sprt_options(&args(&["elo0=5"])),
        sprt_error(CliErrorKind::MissingElo1, "")
    );
    assert_eq!(
        parse_sprt_options(&args(&[])),
        sprt_error(CliErrorKind::MissingElo0, "")
    );
    assert_eq!(
        parse_sprt_options(&args(&["elo0=0", "elo0=1"])),
        sprt_error(CliErrorKind::DuplicateElo0, "1")
    );
    assert_eq!(
        parse_sprt_options(&args(&["elo1=0", "elo1=1"])),
        sprt_error(CliErrorKind::DuplicateElo1, "1")
    );
    assert_eq!(
        parse_sprt_options(&args(&["alpha=0", "alpha=1"])),
        sprt_error(CliErrorKind::DuplicateAlpha, "1")
    );
    assert_eq!(
        parse_sprt_options(&args(&["beta=0", "beta=1"])),
        sprt_error(CliErrorKind::DuplicateBeta, "1")
    );
    assert_eq!(
        parse_sprt_options(&args(&["elo0=0", "elo2=1"])),
        sprt_error(CliErrorKind::UnknownArgument, "elo2=1")
    );
    assert_eq!(
        parse_sprt_options(&args(&["elo0"])),
        sprt_error(CliErrorKind::ExpectedKeyValue, "elo0")
    );
}
