use racetrack::uci::parser;
use racetrack::uci::{UciErrorKind, UciOption, UciOptionType};
use std::time::Duration;

#[test]
fn parse_check_option_description() {
    let option_string = "option name hard mode type check default false";

    assert_eq!(
        parser::parse_option(option_string).unwrap(),
        UciOption {
            name: "hard mode".to_string(),
            option_type: UciOptionType::Check(false)
        }
    )
}

#[test]
fn parse_spin_option_description() {
    let option_string = "option name Threads type spin min 1 max 256 default 1";

    assert_eq!(
        parser::parse_option(option_string).unwrap(),
        UciOption {
            name: "Threads".to_string(),
            option_type: UciOptionType::Spin(1, 1, 256)
        }
    )
}

#[test]
fn parse_var_option_description() {
    let option_string =
        "option name Chess Variant type combo var Normal Chess var Crazyhouse default Normal Chess";

    assert_eq!(
        parser::parse_option(option_string).unwrap(),
        UciOption {
            name: "Chess Variant".to_string(),
            option_type: UciOptionType::Combo(
                "Normal Chess".to_string(),
                vec!["Normal Chess".to_string(), "Crazyhouse".to_string()]
            )
        }
    )
}

#[test]
fn parse_empty_default() {
    let option_string = "option name NalimovPath type string default <empty>";

    assert_eq!(
        parser::parse_option(option_string).unwrap(),
        UciOption {
            name: "NalimovPath".to_string(),
            option_type: UciOptionType::String("".to_string())
        }
    )
}

#[test]
fn parse_option_description_without_name() {
    let option_string = "option Threads type spin min 1 max 256 default 1";

    assert!(parser::parse_option(option_string).is_err())
}

fn durations(tc: (u64, u64)) -> (Duration, Duration) {
    (Duration::from_millis(tc.0), Duration::from_millis(tc.1))
}

#[test]
fn parse_tc_test() {
    assert_eq!(
        durations(parser::parse_tc("60+0.6").unwrap()),
        (Duration::from_secs(60), Duration::from_millis(600))
    );
    assert_eq!(
        durations(parser::parse_tc("0.5+0.1").unwrap()),
        (Duration::from_millis(500), Duration::from_millis(100))
    );
}

#[test]
fn parse_tc_without_increment() {
    assert_eq!(parser::parse_tc("5").unwrap(), (5_000, 0));
    assert_eq!(parser::parse_tc("5.").unwrap(), (5_000, 0));
    assert_eq!(parser::parse_tc(".25").unwrap(), (250, 0));
}

#[test]
fn parse_tc_rounds_to_the_nearest_millisecond() {
    assert_eq!(parser::parse_tc("0.0004").unwrap(), (0, 0));
    assert_eq!(parser::parse_tc("0.0005").unwrap(), (1, 0));
    assert_eq!(parser::parse_tc("1.23456+0.9996").unwrap(), (1_235, 1_000));
}

#[test]
fn parse_tc_saturates() {
    assert_eq!(
        parser::parse_tc("99999999999999999999999999").unwrap(),
        (u64::MAX, 0)
    );
    assert_eq!(
        parser::parse_tc("18446744073709551.615").unwrap(),
        (u64::MAX, 0)
    );
    assert_eq!(
        parser::parse_tc("18446744073709551.614").unwrap(),
        (u64::MAX - 1, 0)
    );
}

#[test]
fn parse_tc_rejects_what_is_not_a_time() {
    for input in ["abc", "", "+", "1+", "+1", ".", "1.2.3", "-5", "1e3", "60 +1", "1+x"] {
        let err = parser::parse_tc(input).unwrap_err();
        assert_eq!(err.kind, UciErrorKind::ParseError);
        assert_eq!(err.desc, format!("Couldn't parse tc \"{}\"", input));
        assert_eq!(err.source, None);
    }
}

#[test]
fn parse_tc_reads_no_further_than_the_increment() {
    assert_eq!(parser::parse_tc("60+0.6+junk").unwrap(), (60_000, 600));
}

#[test]
fn parse_option_errors() {
    let err = parser::parse_option("option Threads type spin").unwrap_err();
    assert_eq!(err.kind, UciErrorKind::ParseError);
    assert_eq!(
        err.desc,
        "Invalid start of option description. Expected \"name\", got \"Threads\""
    );

    let err = parser::parse_option("option name type spin").unwrap_err();
    assert_eq!(err.kind, UciErrorKind::InvalidOption);
    assert_eq!(
        err.desc,
        "Got option string without a name \"option name type spin\""
    );

    let err = parser::parse_option("option name A B").unwrap_err();
    assert_eq!(err.kind, UciErrorKind::InvalidOption);
    assert_eq!(err.desc, "Expected 1 type for option \"A B\", got 0");

    let err = parser::parse_option("option name A type spin spin").unwrap_err();
    assert_eq!(err.desc, "Expected 1 type for option \"A\", got 2");

    let err = parser::parse_option("option name A type spin default x min 1 max 2").unwrap_err();
    assert_eq!(err.kind, UciErrorKind::ParseError);
    assert_eq!(err.desc, "Couldn't parse default for option \"A\"");
    assert_eq!(err.source, Some("invalid digit found in string".to_string()));
    assert_eq!(
        err.to_string(),
        "Uci parser error. Couldn't parse default for option \"A\". Caused by: invalid digit found in string"
    );

    let err = parser::parse_option("option name A type spin default 1 max 2").unwrap_err();
    assert_eq!(
        err.source,
        Some("cannot parse integer from empty string".to_string())
    );

    let err = parser::parse_option(
        "option name A type spin default 99999999999999999999 min 1 max 2",
    )
    .unwrap_err();
    assert_eq!(
        err.source,
        Some("number too large to fit in target type".to_string())
    );

    let err = parser::parse_option("option name A type check default maybe").unwrap_err();
    assert_eq!(
        err.source,
        Some("provided string was not `true` or `false`".to_string())
    );

    let err = parser::parse_option("option name A type string default <empty> x").unwrap_err();
    assert_eq!(
        err.desc,
        "Wrong default value <empty> x for A. Cannot both be empty and non-empty"
    );

    let err = parser::parse_option("option name A type slider").unwrap_err();
    assert_eq!(err.desc, "Option A has invalid type slider");
}

#[test]
fn parse_option_of_every_type() {
    assert_eq!(
        parser::parse_option("option  name\tClear Hash   type button").unwrap(),
        UciOption {
            name: "Clear Hash".to_string(),
            option_type: UciOptionType::Button
        }
    );
    assert_eq!(
        parser::parse_option("option name HalfKomi type spin default -4 min -10 max +10").unwrap(),
        UciOption {
            name: "HalfKomi".to_string(),
            option_type: UciOptionType::Spin(-4, -10, 10)
        }
    );
    assert_eq!(
        parser::parse_option("option name Book type string default my book.bin").unwrap(),
        UciOption {
            name: "Book".to_string(),
            option_type: UciOptionType::String("my book.bin".to_string())
        }
    );
    assert_eq!(
        parser::parse_option("option name Style type combo default Solid var Solid var var Risky")
            .unwrap(),
        UciOption {
            name: "Style".to_string(),
            option_type: UciOptionType::Combo(
                "Solid".to_string(),
                vec!["Solid".to_string(), "".to_string(), "Risky".to_string()]
            )
        }
    );
}

#[test]
fn parse_info_line() {
    let info = parser::parse_info_string(
        "info depth 12 seldepth 20 time 1500 nodes 123456 nps 82304 score cp -35 pv a1 b2 c3 hashfull 12",
    )
    .unwrap();
    assert_eq!(info.depth, 12);
    assert_eq!(info.seldepth, 20);
    assert_eq!(info.time, 1500);
    assert_eq!(info.nodes, 123456);
    assert_eq!(info.nps, 82304);
    assert_eq!(info.cp_score, -35);
    assert_eq!(info.pv, vec!["a1".to_string(), "b2".to_string(), "c3".to_string()]);
}

#[test]
fn parse_info_line_errors() {
    let err = parser::parse_info_string("info depth 3").unwrap_err();
    assert_eq!(err.kind, UciErrorKind::MissingField);
    assert_eq!(err.desc, "Info string had no score");

    let err = parser::parse_info_string("info score mate 3").unwrap_err();
    assert_eq!(err.kind, UciErrorKind::ParseError);
    assert_eq!(err.desc, "Invalid score");

    let err = parser::parse_info_string("info score").unwrap_err();
    assert_eq!(err.desc, "Invalid score");

    let err = parser::parse_info_string("info score cp").unwrap_err();
    assert_eq!(err.desc, "No cp score");

    let err = parser::parse_info_string("info score cp 1x").unwrap_err();
    assert_eq!(err.desc, "Failed to parse cp score \"1x\"");
    assert_eq!(err.source, Some("invalid digit found in string".to_string()));

    let err = parser::parse_info_string("info score cp 1 depth 70000").unwrap_err();
    assert_eq!(err.desc, "Failed to parse depth \"70000\"");
    assert_eq!(
        err.source,
        Some("number too large to fit in target type".to_string())
    );

    let err = parser::parse_info_string("info score cp 1 depth").unwrap_err();
    assert_eq!(err.desc, "Did not receive a value for key \"depth\"");

    let err = parser::parse_info_string("info score cp 1 nodes -1").unwrap_err();
    assert_eq!(err.desc, "Failed to parse nodes");

    let err = parser::parse_info_string("info pv a1 score cp 1 pv b1").unwrap_err();
    assert_eq!(err.desc, "Received multiple PVs");

    let err = parser::parse_info_string("info score cp 1 time -9223372036854775809").unwrap_err();
    assert_eq!(
        err.source,
        Some("number too small to fit in target type".to_string())
    );
}

#[test]
fn parse_info_line_passes_over_unknown_words() {
    let info = parser::parse_info_string("info foo bar pv score cp 7 multipv 1 baz").unwrap();
    assert_eq!(info.cp_score, 7);
    assert!(info.pv.is_empty());
    assert_eq!(info.depth, 0);
}

#[test]
fn option_values() {
    let check = UciOptionType::Check(false);
    assert!(check.value_is_supported("true"));
    assert!(!check.value_is_supported("yes"));

    let mut spin = UciOptionType::Spin(0, -10, 10);
    assert!(spin.value_is_supported("-10"));
    assert!(spin.value_is_supported("+3"));
    assert!(!spin.value_is_supported("11"));
    assert!(!spin.value_is_supported("x"));
    spin.set_value("4");
    assert_eq!(spin, UciOptionType::Spin(4, -10, 10));
    assert_eq!(spin.get_value(), "4");

    let mut combo = UciOptionType::Combo("a".to_string(), vec!["a".to_string(), "b c".to_string()]);
    assert!(combo.value_is_supported("b c"));
    assert!(!combo.value_is_supported("b"));
    combo.set_value("b c");
    assert_eq!(combo.get_value(), "b c");

    assert!(!UciOptionType::Button.value_is_supported(""));
    assert!(UciOptionType::String(String::new()).value_is_supported("anything"));

    let mut check = UciOptionType::Check(false);
    check.set_value("true");
    assert_eq!(check, UciOptionType::Check(true));
    assert_eq!(check.get_value(), "true");
    assert_eq!(UciOptionType::Spin(-7, -10, 0).get_value(), "-7");
}
