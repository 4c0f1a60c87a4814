use racetrack::engine::{is_readyok, Engine, EngineBuilder, ShutdownStep};
use racetrack::uci::{UciErrorKind, UciOption, UciOptionType};

fn builder(settings: &[(&str, &str)]) -> EngineBuilder {
    EngineBuilder {
        path: "engines/tiltak".to_string(),
        args: Some("  tei  -multi-cut -table-mem 512000000 ".to_string()),
        desired_uci_options: settings
            .iter()
            .map(|(name, value)| (name.to_string(), value.to_string()))
            .collect(),
        game_time: 60_000,
        increment: 600,
    }
}

fn shaken(settings: &[(&str, &str)], declarations: &[&str]) -> Engine {
    let mut engine = builder(settings).init();
    for line in declarations {
        assert_eq!(engine.handshake(line), Ok(false));
    }
    assert_eq!(engine.handshake("teiok\n"), Ok(true));
    engine
}

#[test]
fn the_arguments_are_the_words_of_the_argument_string() {
    assert_eq!(
        builder(&[]).arguments(),
        vec!["tei", "-multi-cut", "-table-mem", "512000000"]
    );
    let mut none = builder(&[]);
    none.args = None;
    assert_eq!(none.arguments(), Vec::<String>::new());
}

#[test]
fn an_engine_starts_without_options() {
    let builder = builder(&[("HalfKomi", "4")]);
    let engine = builder.init();
    assert_eq!(engine.name(), "engines/tiltak");
    assert_eq!(engine.builder(), &builder);
    assert!(engine.options.is_empty());
    assert_eq!(builder.clone(), builder);
}

#[test]
fn the_handshake_collects_the_options() {
    let engine = shaken(
        &[],
        &[
            "id name Tiltak",
            "",
            "option name Threads type spin default 1 min 1 max 64\n",
            "optional extras",
            "option name HalfKomi type spin default 0 min -10 max 10",
        ],
    );
    assert_eq!(
        engine.options,
        vec![
            UciOption {
                name: "Threads".to_string(),
                option_type: UciOptionType::Spin(1, 1, 64)
            },
            UciOption {
                name: "HalfKomi".to_string(),
                option_type: UciOptionType::Spin(0, -10, 10)
            },
        ]
    );
}

#[test]
fn an_engine_without_komi_supports_none() {
    let engine = shaken(&[], &["option name Threads type spin default 1 min 1 max 64"]);
    assert_eq!(
        engine.options[1],
        UciOption {
            name: "HalfKomi".to_string(),
            option_type: UciOptionType::Spin(0, 0, 0)
        }
    );
    assert!(engine.supports_option_value("HalfKomi", "0"));
    assert!(!engine.supports_option_value("HalfKomi", "4"));
}

#[test]
fn a_declaration_that_cannot_be_read_is_an_error() {
    let mut engine = builder(&[]).init();
    let err = engine.handshake("option name Threads type spin").unwrap_err();
    assert_eq!(err.kind, UciErrorKind::ParseError);
    assert!(engine.options.is_empty());
}

#[test]
fn settings_are_checked_against_the_declarations() {
    let declarations = [
        "option name Threads type spin default 1 min 1 max 64",
        "option name Ponder type check default false",
        "option name Threads type string default x",
    ];
    let engine = shaken(&[("Threads", "8"), ("Ponder", "true")], &declarations);
    assert!(engine.supports_options_from_builder());
    assert!(engine.supports_option_value("Threads", "64"));
    assert!(!engine.supports_option_value("Threads", "65"));
    assert!(!engine.supports_option_value("threads", "8"));
    assert!(!engine.supports_option_value("Hash", "8"));

    let engine = shaken(&[("Threads", "8"), ("Ponder", "maybe")], &declarations);
    assert!(!engine.supports_options_from_builder());
    let engine = shaken(&[("HalfKomi", "0")], &declarations);
    assert!(engine.supports_options_from_builder());
    let engine = shaken(&[("HalfKomi", "2")], &declarations);
    assert!(!engine.supports_options_from_builder());
}

#[test]
fn only_what_changes_is_written_to_the_engine() {
    let mut engine = shaken(
        &[("Threads", "8"), ("Ponder", "false"), ("HalfKomi", "0"), ("Threads", "8")],
        &[
            "option name Threads type spin default 1 min 1 max 64",
            "option name Ponder type check default false",
        ],
    );
    assert!(engine.supports_options_from_builder());
    assert_eq!(
        engine.set_options_from_builder(),
        vec!["setoption name Threads value 8", "isready"]
    );
    assert_eq!(engine.options[0].option_type, UciOptionType::Spin(8, 1, 64));
    assert_eq!(engine.set_options_from_builder(), vec!["isready"]);
}

#[test]
fn an_option_is_set_once() {
    let mut engine = shaken(
        &[],
        &["option name Style type combo default Solid var Solid var Risky"],
    );
    assert_eq!(engine.set_option("Style", "Solid"), None);
    assert_eq!(
        engine.set_option("Style", "Risky"),
        Some("setoption name Style value Risky".to_string())
    );
    assert_eq!(engine.set_option("Style", "Risky"), None);
    assert_eq!(
        engine.options[0].option_type,
        UciOptionType::Combo(
            "Risky".to_string(),
            vec!["Solid".to_string(), "Risky".to_string()]
        )
    );
}

#[test]
fn the_komi_of_a_record_comes_from_the_settings() {
    assert_eq!(builder(&[]).komi(), None);
    assert_eq!(builder(&[("HalfKomi", "0")]).komi(), None);
    assert_eq!(builder(&[("HalfKomi", "4")]).komi(), Some("2".to_string()));
    assert_eq!(
        builder(&[("Threads", "2"), ("HalfKomi", "-5"), ("HalfKomi", "4")]).komi(),
        Some("-2.5".to_string())
    );
    assert_eq!(builder(&[("HalfKomi", "lots")]).komi(), None);
    assert_eq!(builder(&[("HalfKomi", "128")]).komi(), None);
    assert_eq!(builder(&[("halfkomi", "4")]).komi(), None);
}

#[test]
fn a_builder_describes_its_player() {
    let player = builder(&[]).player();
    assert_eq!(player.name, "engines/tiltak");
    assert_eq!(player.game_time, 60_000);
    assert_eq!(player.increment, 600);
}

#[test]
fn an_engine_is_shut_down_step_by_step() {
    assert_eq!(ShutdownStep::Probe.next(false), ShutdownStep::Exited);
    assert_eq!(ShutdownStep::Probe.next(true), ShutdownStep::Quit);
    assert_eq!(ShutdownStep::Quit.next(false), ShutdownStep::Exited);
    assert_eq!(ShutdownStep::Quit.next(true), ShutdownStep::Kill);
    assert_eq!(ShutdownStep::Kill.next(true), ShutdownStep::Exited);
    assert_eq!(ShutdownStep::Kill.next(false), ShutdownStep::Exited);
    assert_eq!(ShutdownStep::Exited.next(true), ShutdownStep::Exited);
}

#[test]
fn an_engine_is_ready_when_it_says_so() {
    assert!(is_readyok("readyok"));
    assert!(is_readyok("  readyok\r\n"));
    assert!(!is_readyok("readyok readyok"));
    assert!(!is_readyok("ready ok"));
    assert!(!is_readyok(""));
    assert!(!is_readyok("Readyok"));
}
