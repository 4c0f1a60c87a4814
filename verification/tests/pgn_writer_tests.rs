use racetrack::pgn_writer::PgnWriter;

#[test]
fn games_are_written_in_the_order_of_their_rounds() {
    let mut writer: PgnWriter<&str> = PgnWriter::new();
    assert_eq!(writer.submit_game(0, "zero"), vec![(0, "zero")]);
    assert_eq!(writer.submit_game(2, "two"), vec![]);
    assert_eq!(writer.num_pending(), 1);
    assert_eq!(writer.next_game_number(), 1);
    assert_eq!(writer.submit_game(1, "one"), vec![(1, "one"), (2, "two")]);
    assert_eq!(writer.submit_game(3, "three"), vec![(3, "three")]);
    assert_eq!(writer.num_pending(), 0);
    assert_eq!(writer.next_game_number(), 4);
}

#[test]
fn games_wait_for_the_first_round() {
    let mut writer: PgnWriter<u32> = PgnWriter::new();
    assert_eq!(writer.submit_game(3, 30), vec![]);
    assert_eq!(writer.submit_game(1, 10), vec![]);
    assert_eq!(writer.submit_game(4, 40), vec![]);
    assert_eq!(writer.submit_game(2, 20), vec![]);
    assert_eq!(writer.num_pending(), 4);
    assert_eq!(
        writer.submit_game(0, 0),
        vec![(0, 0), (1, 10), (2, 20), (3, 30), (4, 40)]
    );
    assert_eq!(writer.next_game_number(), 5);
}

#[test]
fn a_round_that_is_submitted_again_is_held_back() {
    let mut writer: PgnWriter<&str> = PgnWriter::new();
    assert_eq!(writer.submit_game(1, "first"), vec![]);
    assert_eq!(writer.submit_game(1, "second"), vec![]);
    assert_eq!(writer.submit_game(0, "zero"), vec![(0, "zero"), (1, "first")]);
    assert_eq!(writer.num_pending(), 1);
    assert_eq!(writer.next_game_number(), 2);
}

#[test]
fn nothing_is_written_behind_a_round_that_is_missing() {
    let mut writer: PgnWriter<&str> = PgnWriter::new();
    let mut written = vec![];
    for (round, game) in [(4, "four"), (1, "one"), (0, "zero"), (3, "three")] {
        written.extend(writer.submit_game(round, game));
    }
    assert_eq!(written, vec![(0, "zero"), (1, "one")]);
    assert_eq!(writer.next_game_number(), 2);
    assert_eq!(writer.num_pending(), 2);
    written.extend(writer.submit_game(2, "two"));
    assert_eq!(
        written,
        vec![(0, "zero"), (1, "one"), (2, "two"), (3, "three"), (4, "four")]
    );
    assert_eq!(writer.num_pending(), 0);
}
