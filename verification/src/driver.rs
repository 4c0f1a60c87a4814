//! Driving a game between two engines: what is sent to them, what is made of
//! their answers, how the clocks run, and how the game ends.
//!
//! The driver does not talk to the engines itself. It says what is to be
//! done next, and is told what came of it.

use crate::decimal::{decimal_digits, push_decimal};
use crate::engine::{is_ready_line, is_readyok};
use crate::game::{
    Color, GameRecord, GameRecordView, GameResult, RecordedMove, RecordedMoveView, ScheduledGame,
    ScheduledGameView,
};
use crate::notation::{
    clock_tag, clock_tag_string, date_string, date_text, hundredths, push_hundredths, round_to,
    rounded, Date,
};
use crate::text::{chars_of, has_prefix, span_is, span_string, split_words, starts_with, words};
use crate::uci::parser::{info_of, parse_info_string};
use crate::uci::{texts, UciInfo, UciInfoView};
use vstd::prelude::*;

verus! {

/// One of the two engines of a game: its name and its time control, in
/// milliseconds.
#[derive(Debug, PartialEq, Eq)]
pub struct Player {
    pub name: String,
    pub game_time: u64,
    pub increment: u64,
}

pub ghost struct PlayerView {
    pub name: Seq<char>,
    pub game_time: nat,
    pub increment: nat,
}

impl View for Player {
    type V = PlayerView;

    open spec fn view(&self) -> PlayerView {
        PlayerView {
            name: self.name@,
            game_time: self.game_time as nat,
            increment: self.increment as nat,
        }
    }
}

/// What the position says of the game: who is to move, and the result where
/// the game is over.
#[derive(Clone, Copy, Debug, PartialEq, Eq, Structural)]
pub struct PositionStatus {
    pub side_to_move: Color,
    pub result: Option<GameResult>,
}

/// How talking to an engine has failed.
#[derive(Clone, Copy, Debug, PartialEq, Eq, Structural)]
pub enum IoFailure {
    /// The engine has closed its end: it has crashed or left.
    Disconnected,
    Other,
}

/// What has come of checking a move against the position.
#[derive(Debug, PartialEq, Eq)]
pub enum MoveVerdict {
    /// The text is no move.
    Malformed,
    /// The move cannot be played in the position.
    Illegal,
    /// The move has been played.
    Played {
        /// The move in long algebraic notation.
        lan: String,
        /// The position after the move.
        status: PositionStatus,
        /// The time the engine has taken, in nanoseconds.
        elapsed: u128,
    },
}

pub ghost enum MoveVerdictView {
    Malformed,
    Illegal,
    Played { lan: Seq<char>, status: PositionStatus, elapsed: nat },
}

impl View for MoveVerdict {
    type V = MoveVerdictView;

    open spec fn view(&self) -> MoveVerdictView {
        match self {
            MoveVerdict::Malformed => MoveVerdictView::Malformed,
            MoveVerdict::Illegal => MoveVerdictView::Illegal,
            MoveVerdict::Played { lan, status, elapsed } => MoveVerdictView::Played {
                lan: lan@,
                status: *status,
                elapsed: *elapsed as nat,
            },
        }
    }
}

/// What has come of the last action.
#[derive(Debug, PartialEq, Eq)]
pub enum Event {
    /// The lines have been written.
    Written,
    /// A line has been read.
    Line(String),
    /// Writing or reading has failed.
    Failed(IoFailure),
    /// The move has been checked.
    Checked(MoveVerdict),
    /// The engine has been started again.
    Restarted,
}

pub ghost enum EventView {
    Written,
    Line(Seq<char>),
    Failed(IoFailure),
    Checked(MoveVerdictView),
    Restarted,
}

impl View for Event {
    type V = EventView;

    open spec fn view(&self) -> EventView {
        match self {
            Event::Written => EventView::Written,
            Event::Line(l) => EventView::Line(l@),
            Event::Failed(f) => EventView::Failed(*f),
            Event::Checked(v) => EventView::Checked(v@),
            Event::Restarted => EventView::Restarted,
        }
    }
}

/// What is to be done next.
#[derive(Debug, PartialEq, Eq)]
pub enum Action {
    /// Write the lines to the engine that plays the colour.
    Send { to: Color, lines: Vec<String> },
    /// Read a line from the engine that plays the colour.
    Read { from: Color },
    /// Stop the clock, and check the move against the position.
    Check { mv: String },
    /// Start the engine that plays the colour again.
    Restart { engine: Color },
    /// The game is over.
    Done,
    /// The game cannot go on.
    Abort,
}

pub ghost enum ActionView {
    Send { to: Color, lines: Seq<Seq<char>> },
    Read { from: Color },
    Check { mv: Seq<char> },
    Restart { engine: Color },
    Done,
    Abort,
}

impl View for Action {
    type V = ActionView;

    open spec fn view(&self) -> ActionView {
        match self {
            Action::Send { to, lines } => ActionView::Send { to: *to, lines: texts(lines@) },
            Action::Read { from } => ActionView::Read { from: *from },
            Action::Check { mv } => ActionView::Check { mv: mv@ },
            Action::Restart { engine } => ActionView::Restart { engine: *engine },
            Action::Done => ActionView::Done,
            Action::Abort => ActionView::Abort,
        }
    }
}

/// Where the driver stands: what it has asked for last.
#[derive(Clone, Copy, Debug, PartialEq, Eq, Structural)]
pub enum Phase {
    /// The new game is being announced to the engine of the colour.
    SendingNewGame(Color),
    /// The engine of the colour is to say that it is ready.
    AwaitingReady(Color),
    /// The position is being sent to the engine that is to move.
    SendingPosition,
    /// The engine that is to move is thinking.
    AwaitingMove,
    /// The move of the engine is being checked.
    CheckingMove,
    /// The engine that was to move is being started again.
    Restarting,
    Finished,
    Failed,
}

/// The longest game that is played on, in half-moves.
pub const MAX_GAME_LENGTH: usize = 1000;

/// The largest increment of a clock, in nanoseconds.
pub open spec fn max_increment() -> nat {
    18_446_744_073_709_551_615_000_000
}

pub struct GameDriver {
    pub game: ScheduledGame,
    pub white: Player,
    pub black: Player,
    /// The komi as it is written in the game's record, where it is not 0.
    pub komi: Option<String>,
    /// The moves that have been played, those of the opening first, in long
    /// algebraic notation.
    pub moves: Vec<RecordedMove>,
    pub status: PositionStatus,
    /// The time that white has left, in nanoseconds.
    pub white_time: u128,
    /// The time that black has left, in nanoseconds.
    pub black_time: u128,
    /// What the engine that is to move has reported last.
    pub last_info: Option<UciInfo>,
    pub phase: Phase,
    pub result: Option<GameResult>,
    pub termination: String,
}

pub ghost struct DriverView {
    pub game: ScheduledGameView,
    pub white: PlayerView,
    pub black: PlayerView,
    pub komi: Option<Seq<char>>,
    pub moves: Seq<RecordedMoveView>,
    pub status: PositionStatus,
    pub white_time: nat,
    pub black_time: nat,
    pub last_info: Option<UciInfoView>,
    pub phase: Phase,
    pub result: Option<GameResult>,
    pub termination: Seq<char>,
}

pub open spec fn moves_view(moves: Seq<RecordedMove>) -> Seq<RecordedMoveView> {
    Seq::new(moves.len(), |i: int| moves[i]@)
}

impl View for GameDriver {
    type V = DriverView;

    open spec fn view(&self) -> DriverView {
        DriverView {
            game: self.game@,
            white: self.white@,
            black: self.black@,
            komi: match self.komi {
                Some(k) => Some(k@),
                None => None,
            },
            moves: moves_view(self.moves@),
            status: self.status,
            white_time: self.white_time as nat,
            black_time: self.black_time as nat,
            last_info: match self.last_info {
                Some(i) => Some(i@),
                None => None,
            },
            phase: self.phase,
            result: self.result,
            termination: self.termination@,
        }
    }
}

/// The moves written one after the other, a blank behind each.
pub open spec fn moves_text(moves: Seq<RecordedMoveView>) -> Seq<char>
    decreases moves.len(),
{
    if moves.len() == 0 {
        Seq::empty()
    } else {
        moves_text(moves.drop_last()) + moves.last().mv + seq![' ']
    }
}

/// The line that tells an engine the position: where the game started, and
/// all moves since.
pub open spec fn position_text(root: Option<Seq<char>>, moves: Seq<RecordedMoveView>) -> Seq<char> {
    match root {
        None => "position startpos moves "@ + moves_text(moves),
        Some(tps) => "position tps "@ + tps + " moves "@ + moves_text(moves),
    }
}

/// The line that tells an engine to move, with the clocks of both sides in
/// whole milliseconds. The clocks are given in nanoseconds, the increments in
/// milliseconds.
pub open spec fn go_text(white_time: nat, black_time: nat, white_inc: nat, black_inc: nat) -> Seq<
    char,
> {
    "go wtime "@ + decimal_digits(white_time / 1_000_000) + " btime "@ + decimal_digits(
        black_time / 1_000_000,
    ) + " winc "@ + decimal_digits(white_inc) + " binc "@ + decimal_digits(black_inc)
}

/// The line that announces a new game on a board of the given size.
pub open spec fn new_game_text(size: nat) -> Seq<char> {
    "teinewgame "@ + decimal_digits(size)
}

pub open spec fn new_game_lines(size: nat) -> Seq<Seq<char>> {
    seq![new_game_text(size), "isready"@]
}

/// The score of an engine as it is written in a comment: in pawns with two
/// decimals and a sign, seen from white. A score of 0 by black is written
/// with a minus sign.
pub open spec fn score_text(cp_score: int, mover: Color) -> Seq<char> {
    let negative = match mover {
        Color::White => cp_score < 0,
        Color::Black => cp_score >= 0,
    };
    let size = if cp_score < 0 {
        (-cp_score) as nat
    } else {
        cp_score as nat
    };
    (if negative {
        seq!['-']
    } else {
        seq!['+']
    }) + hundredths(size)
}

/// The comment that goes with a move: the score and the depth that the
/// engine reported last, and the seconds it took, with two decimals. There is
/// none where the engine has reported nothing.
pub open spec fn comment_text(info: Option<UciInfoView>, mover: Color, elapsed: nat) -> Seq<char> {
    match info {
        Some(i) => score_text(i.cp_score as int, mover) + seq!['/'] + decimal_digits(
            i.depth as nat,
        ) + seq![' '] + hundredths(rounded(elapsed, 10_000_000)) + seq!['s'],
        None => Seq::empty(),
    }
}

/// The move that a `bestmove` line names: its second word, or nothing.
pub open spec fn best_move(line: Seq<char>) -> Seq<char> {
    if words(line).len() > 1 {
        words(line)[1]
    } else {
        Seq::empty()
    }
}

/// Whether a line is one in which an engine reports on its thinking.
pub open spec fn is_info_line(line: Seq<char>) -> bool {
    has_prefix(line, "info"@) && words(line).len() > 0 && words(line)[0] == "info"@
}

impl DriverView {
    /// The side that is to move.
    pub open spec fn mover(self) -> Color {
        self.status.side_to_move
    }

    pub open spec fn clock(self, color: Color) -> nat {
        match color {
            Color::White => self.white_time,
            Color::Black => self.black_time,
        }
    }

    pub open spec fn increment(self, color: Color) -> nat {
        match color {
            Color::White => self.white.increment,
            Color::Black => self.black.increment,
        }
    }

    pub open spec fn with_clock(self, color: Color, time: nat) -> DriverView {
        match color {
            Color::White => DriverView { white_time: time, ..self },
            Color::Black => DriverView { black_time: time, ..self },
        }
    }

    /// The clocks show no more than the base time and an increment for
    /// every move.
    pub open spec fn clocks_wf(self) -> bool {
        &&& self.white.increment <= u64::MAX
        &&& self.black.increment <= u64::MAX
        &&& self.white_time <= (self.moves.len() + 1) * max_increment()
        &&& self.black_time <= (self.moves.len() + 1) * max_increment()
    }

    /// The clocks are in order, and while an engine is asked for a move the
    /// game is not longer than the longest game.
    pub open spec fn wf(self) -> bool {
        &&& self.clocks_wf()
        &&& (self.phase == Phase::SendingPosition || self.phase == Phase::AwaitingMove
            || self.phase == Phase::CheckingMove || self.phase == Phase::Restarting)
            ==> self.moves.len() <= MAX_GAME_LENGTH
    }

    /// The game is over, with the given result and the given words on how it
    /// ended.
    pub open spec fn finished(self, result: Option<GameResult>, termination: Seq<char>) -> (
        DriverView,
        ActionView,
    ) {
        (DriverView { phase: Phase::Finished, result, termination, ..self }, ActionView::Done)
    }

    /// The game cannot go on.
    pub open spec fn aborted(self) -> (DriverView, ActionView) {
        (DriverView { phase: Phase::Failed, ..self }, ActionView::Abort)
    }

    /// The side that is to move loses by forfeit.
    pub open spec fn forfeited(self, how: Seq<char>) -> (DriverView, ActionView) {
        self.finished(
            Some(GameResult::win_for(self.mover().other())),
            self.mover().name() + how,
        )
    }

    /// The next turn: the game ends where it has become too long or the
    /// position is final; else the engine that is to move is sent the
    /// position and the clocks.
    pub open spec fn turn(self) -> (DriverView, ActionView) {
        if self.moves.len() > MAX_GAME_LENGTH {
            self.finished(None, "max length reached"@)
        } else if self.status.result is Some {
            self.finished(self.status.result, Seq::empty())
        } else {
            (
                DriverView { phase: Phase::SendingPosition, last_info: None, ..self },
                ActionView::Send {
                    to: self.mover(),
                    lines: seq![
                        position_text(self.game.opening.root_position, self.moves),
                        go_text(
                            self.white_time,
                            self.black_time,
                            self.white.increment,
                            self.black.increment,
                        ),
                    ],
                },
            )
        }
    }

    /// After a move of the side that was to move: the move is written down
    /// with its comment; where it took longer than the side had left the
    /// side loses on time, else its clock is set back by the time taken and
    /// forward by the increment, and the next turn begins.
    pub open spec fn played(self, lan: Seq<char>, status: PositionStatus, elapsed: nat) -> (
        DriverView,
        ActionView,
    ) {
        let mover = self.mover();
        let moved = DriverView {
            moves: self.moves.push(
                RecordedMoveView { mv: lan, comment: comment_text(self.last_info, mover, elapsed) },
            ),
            status,
            ..self
        };
        if elapsed <= self.clock(mover) {
            moved.with_clock(
                mover,
                (self.clock(mover) - elapsed + self.increment(mover) * 1_000_000) as nat,
            ).turn()
        } else {
            moved.finished(
                Some(GameResult::win_for(mover.other())),
                mover.other().name() + " wins on time"@,
            )
        }
    }

    /// What a line of the engine that is thinking leads to: a `bestmove` line
    /// to the check of its move, any other line to the next line. A report on
    /// the thinking that can be read is kept for the comment.
    pub open spec fn heard(self, line: Seq<char>) -> (DriverView, ActionView) {
        if has_prefix(line, "bestmove"@) {
            (
                DriverView { phase: Phase::CheckingMove, ..self },
                ActionView::Check { mv: best_move(line) },
            )
        } else if is_info_line(line) && info_of(line) is Ok {
            (
                DriverView { last_info: Some(info_of(line)->Ok_0), ..self },
                ActionView::Read { from: self.mover() },
            )
        } else {
            (self, ActionView::Read { from: self.mover() })
        }
    }

    /// The state after an event, and what is to be done next.
    pub open spec fn step(self, event: EventView) -> (DriverView, ActionView) {
        match self.phase {
            Phase::SendingNewGame(color) => match event {
                EventView::Written => match color {
                    Color::White => (
                        DriverView { phase: Phase::SendingNewGame(Color::Black), ..self },
                        ActionView::Send {
                            to: Color::Black,
                            lines: new_game_lines(self.game.size),
                        },
                    ),
                    Color::Black => (
                        DriverView { phase: Phase::AwaitingReady(Color::White), ..self },
                        ActionView::Read { from: Color::White },
                    ),
                },
                _ => self.aborted(),
            },
            Phase::AwaitingReady(color) => match event {
                EventView::Line(line) => if is_ready_line(line) {
                    match color {
                        Color::White => (
                            DriverView { phase: Phase::AwaitingReady(Color::Black), ..self },
                            ActionView::Read { from: Color::Black },
                        ),
                        Color::Black => self.turn(),
                    }
                } else {
                    (self, ActionView::Read { from: color })
                },
                _ => self.aborted(),
            },
            Phase::SendingPosition => match event {
                EventView::Written => (
                    DriverView { phase: Phase::AwaitingMove, ..self },
                    ActionView::Read { from: self.mover() },
                ),
                EventView::Failed(IoFailure::Disconnected) => (
                    DriverView { phase: Phase::Restarting, ..self },
                    ActionView::Restart { engine: self.mover() },
                ),
                _ => self.aborted(),
            },
            Phase::AwaitingMove => match event {
                EventView::Line(line) => self.heard(line),
                EventView::Failed(IoFailure::Disconnected) => (
                    DriverView { phase: Phase::Restarting, ..self },
                    ActionView::Restart { engine: self.mover() },
                ),
                _ => self.aborted(),
            },
            Phase::CheckingMove => match event {
                EventView::Checked(MoveVerdictView::Malformed) => self.forfeited(
                    " sent a malformed move"@,
                ),
                EventView::Checked(MoveVerdictView::Illegal) => self.forfeited(
                    " made an illegal move"@,
                ),
                EventView::Checked(MoveVerdictView::Played { lan, status, elapsed }) => self.played(
                    lan,
                    status,
                    elapsed,
                ),
                _ => self.aborted(),
            },
            Phase::Restarting => match event {
                EventView::Restarted => self.forfeited(" disconnected or crashed"@),
                _ => self.aborted(),
            },
            Phase::Finished => (self, ActionView::Done),
            Phase::Failed => (self, ActionView::Abort),
        }
    }
}

/// The moves of an opening, as the moves of a game: none has a comment.
pub open spec fn opening_moves(moves: Seq<Seq<char>>) -> Seq<RecordedMoveView> {
    Seq::new(moves.len(), |i: int| RecordedMoveView { mv: moves[i], comment: Seq::empty() })
}

/// The driver of a game before anything has been sent: the moves of the
/// opening have been played, and both clocks show the base time.
pub open spec fn start_of(
    game: ScheduledGameView,
    white: PlayerView,
    black: PlayerView,
    komi: Option<Seq<char>>,
    status: PositionStatus,
) -> DriverView {
    DriverView {
        game,
        white,
        black,
        komi,
        moves: opening_moves(game.opening.moves),
        status,
        white_time: white.game_time * 1_000_000,
        black_time: black.game_time * 1_000_000,
        last_info: None,
        phase: Phase::SendingNewGame(Color::White),
        result: None,
        termination: Seq::empty(),
    }
}

/// The tags of a game's record: where and between whom it was played, its
/// round counted from 1, the size of the board, the day, the clocks, the komi
/// where there is one, and how the game ended where there is something to
/// say of it.
pub open spec fn tags_of(d: DriverView, date: Date) -> Seq<(Seq<char>, Seq<char>)> {
    let tags = seq![
        ("Site"@, "Racetrack"@),
        ("Player1"@, d.white.name),
        ("Player2"@, d.black.name),
        ("Round"@, decimal_digits(d.game.round_number + 1)),
        ("Size"@, decimal_digits(d.game.size)),
        ("Date"@, date_text(date)),
        (
            "Clock"@,
            clock_tag(d.white.game_time, d.white.increment, d.black.game_time, d.black.increment),
        ),
    ];
    let tags = match d.komi {
        Some(k) => tags.push(("Komi"@, k)),
        None => tags,
    };
    if d.termination.len() > 0 {
        tags.push(("Termination"@, d.termination))
    } else {
        tags
    }
}

/// The record of a game as the driver has it.
pub open spec fn record_of(d: DriverView, date: Date) -> GameRecordView {
    GameRecordView {
        start_position: d.game.opening.root_position,
        moves: d.moves,
        game_result: d.result,
        tags: tags_of(d, date),
    }
}

fn position_string(root: &Option<String>, moves: &Vec<RecordedMove>) -> (s: String)
    ensures
        s@ == position_text(
            match root {
                Some(p) => Some(p@),
                None => None,
            },
            moves_view(moves@),
        ),
{
    let mut s = match root {
        None => String::from_str("position startpos moves "),
        Some(tps) => {
            let mut s = String::from_str("position tps ");
            s.append(tps.as_str());
            s.append(" moves ");
            s
        },
    };
    let ghost head = s@;
    let mut i: usize = 0;
    proof {
        reveal_strlit(" ");
        assert(" "@ =~= seq![' ']);
        assert(moves_view(moves@).take(0) =~= Seq::<RecordedMoveView>::empty());
    }
    while i < moves.len()
        invariant
            i <= moves.len(),
            " "@ == seq![' '],
            s@ == head + moves_text(moves_view(moves@).take(i as int)),
        decreases moves.len() - i,
    {
        proof {
            let all = moves_view(moves@);
            assert(all.take(i + 1).drop_last() =~= all.take(i as int));
            assert(all.take(i + 1).last() == moves@[i as int]@);
        }
        s.append(moves[i].mv.as_str());
        s.append(" ");
        i += 1;
    }
    assert(moves_view(moves@).take(moves.len() as int) =~= moves_view(moves@));
    s
}

fn go_string(white_time: u128, black_time: u128, white_inc: u64, black_inc: u64) -> (s: String)
    ensures
        s@ == go_text(white_time as nat, black_time as nat, white_inc as nat, black_inc as nat),
{
    let mut s = String::from_str("go wtime ");
    push_decimal(&mut s, white_time / 1_000_000);
    s.append(" btime ");
    push_decimal(&mut s, black_time / 1_000_000);
    s.append(" winc ");
    push_decimal(&mut s, white_inc as u128);
    s.append(" binc ");
    push_decimal(&mut s, black_inc as u128);
    s
}

fn new_game_lines_vec(size: usize) -> (lines: Vec<String>)
    ensures
        texts(lines@) == new_game_lines(size as nat),
{
    let mut first = String::from_str("teinewgame ");
    push_decimal(&mut first, size as u128);
    let mut lines: Vec<String> = Vec::new();
    lines.push(first);
    lines.push(String::from_str("isready"));
    assert(texts(lines@) =~= new_game_lines(size as nat));
    lines
}

fn comment_string(info: &Option<UciInfo>, mover: Color, elapsed: u128) -> (s: String)
    ensures
        s@ == comment_text(
            match info {
                Some(i) => Some(i@),
                None => None,
            },
            mover,
            elapsed as nat,
        ),
{
    match info {
        None => String::new(),
        Some(i) => {
            proof {
                reveal_strlit("-");
                reveal_strlit("+");
                reveal_strlit("/");
                reveal_strlit(" ");
                reveal_strlit("s");
                assert("-"@ =~= seq!['-']);
                assert("+"@ =~= seq!['+']);
                assert("/"@ =~= seq!['/']);
                assert(" "@ =~= seq![' ']);
                assert("s"@ =~= seq!['s']);
            }
            let negative = match mover {
                Color::White => i.cp_score < 0,
                Color::Black => i.cp_score >= 0,
            };
            let size: u128 = if i.cp_score < 0 {
                (-(i.cp_score as i128)) as u128
            } else {
                i.cp_score as u128
            };
            let mut s = if negative {
                String::from_str("-")
            } else {
                String::from_str("+")
            };
            push_hundredths(&mut s, size);
            s.append("/");
            push_decimal(&mut s, i.depth as u128);
            s.append(" ");
            push_hundredths(&mut s, round_to(elapsed, 10_000_000));
            s.append("s");
            assert(s@ =~= comment_text(Some(i@), mover, elapsed as nat));
            s
        },
    }
}

impl GameDriver {
    /// Sets the driver of a game up, and says what is to be done first: the
    /// new game is announced to white.
    pub fn new(
        game: ScheduledGame,
        white: Player,
        black: Player,
        komi: Option<String>,
        status: PositionStatus,
    ) -> (r: (GameDriver, Action))
        ensures
            r.0@ == start_of(
                game@,
                white@,
                black@,
                match komi {
                    Some(k) => Some(k@),
                    None => None,
                },
                status,
            ),
            r.0@.wf(),
            r.1@ == (ActionView::Send { to: Color::White, lines: new_game_lines(game.size as nat) }),
    {
        let mut moves: Vec<RecordedMove> = Vec::new();
        let mut i: usize = 0;
        while i < game.opening.moves.len()
            invariant
                i <= game.opening.moves@.len(),
                moves@.len() == i,
                forall|j: int|
                    0 <= j < i ==> (#[trigger] moves@[j])@ == (RecordedMoveView {
                        mv: game.opening.moves@[j]@,
                        comment: Seq::empty(),
                    }),
            decreases game.opening.moves@.len() - i,
        {
            moves.push(RecordedMove { mv: game.opening.moves[i].clone(), comment: String::new() });
            i += 1;
        }
        assert(moves_view(moves@) =~= opening_moves(game@.opening.moves));
        let lines = new_game_lines_vec(game.size);
        let white_time = (white.game_time as u128) * 1_000_000;
        let black_time = (black.game_time as u128) * 1_000_000;
        let driver = GameDriver {
            game,
            white,
            black,
            komi,
            moves,
            status,
            white_time,
            black_time,
            last_info: None,
            phase: Phase::SendingNewGame(Color::White),
            result: None,
            termination: String::new(),
        };
        (driver, Action::Send { to: Color::White, lines })
    }

    fn finish(&mut self, result: Option<GameResult>, termination: String) -> (a: Action)
        ensures
            (final(self)@, a@) == old(self)@.finished(result, termination@),
    {
        self.phase = Phase::Finished;
        self.result = result;
        self.termination = termination;
        Action::Done
    }

    fn abort(&mut self) -> (a: Action)
        ensures
            (final(self)@, a@) == old(self)@.aborted(),
    {
        self.phase = Phase::Failed;
        Action::Abort
    }

    fn forfeit(&mut self, how: &str) -> (a: Action)
        ensures
            (final(self)@, a@) == old(self)@.forfeited(how@),
    {
        let mover = self.status.side_to_move;
        let mut termination = String::from_str(mover.to_str());
        termination.append(how);
        let winner = match mover.opponent() {
            Color::White => GameResult::WhiteWin,
            Color::Black => GameResult::BlackWin,
        };
        self.finish(Some(winner), termination)
    }

    fn turn(&mut self) -> (a: Action)
        requires
            old(self)@.clocks_wf(),
        ensures
            (final(self)@, a@) == old(self)@.turn(),
            final(self)@.wf(),
    {
        if self.moves.len() > MAX_GAME_LENGTH {
            self.finish(None, String::from_str("max length reached"))
        } else if self.status.result.is_some() {
            let result = self.status.result;
            self.finish(result, String::new())
        } else {
            let mut lines: Vec<String> = Vec::new();
            lines.push(position_string(&self.game.opening.root_position, &self.moves));
            lines.push(
                go_string(
                    self.white_time,
                    self.black_time,
                    self.white.increment,
                    self.black.increment,
                ),
            );
            self.phase = Phase::SendingPosition;
            self.last_info = None;
            assert(texts(lines@) =~= seq![
                position_text(old(self)@.game.opening.root_position, old(self)@.moves),
                go_text(
                    old(self)@.white_time,
                    old(self)@.black_time,
                    old(self)@.white.increment,
                    old(self)@.black.increment,
                ),
            ]);
            Action::Send { to: self.status.side_to_move, lines }
        }
    }

    fn played(&mut self, lan: String, status: PositionStatus, elapsed: u128) -> (a: Action)
        requires
            old(self)@.wf(),
            old(self)@.phase == Phase::CheckingMove,
        ensures
            (final(self)@, a@) == old(self)@.played(lan@, status, elapsed as nat),
            final(self)@.wf(),
    {
        let mover = self.status.side_to_move;
        let comment = comment_string(&self.last_info, mover, elapsed);
        self.moves.push(RecordedMove { mv: lan, comment });
        self.status = status;
        assert(moves_view(self.moves@) =~= old(self)@.moves.push(
            RecordedMoveView {
                mv: lan@,
                comment: comment_text(old(self)@.last_info, mover, elapsed as nat),
            },
        ));
        let clock = match mover {
            Color::White => self.white_time,
            Color::Black => self.black_time,
        };
        if elapsed <= clock {
            match mover {
                Color::White => {
                    self.white_time = clock - elapsed + (self.white.increment as u128) * 1_000_000;
                },
                Color::Black => {
                    self.black_time = clock - elapsed + (self.black.increment as u128) * 1_000_000;
                },
            }
            self.turn()
        } else {
            let mut termination = String::from_str(mover.opponent().to_str());
            termination.append(" wins on time");
            let winner = match mover.opponent() {
                Color::White => GameResult::WhiteWin,
                Color::Black => GameResult::BlackWin,
            };
            self.finish(Some(winner), termination)
        }
    }

    fn heard(&mut self, line: &str) -> (a: Action)
        requires
            old(self)@.wf(),
            old(self)@.phase == Phase::AwaitingMove,
        ensures
            (final(self)@, a@) == old(self)@.heard(line@),
            final(self)@.wf(),
    {
        let chars = chars_of(line);
        if starts_with(&chars, "bestmove") {
            let spans = split_words(&chars);
            let mv = if spans.len() > 1 {
                span_string(line, spans[1])
            } else {
                String::new()
            };
            self.phase = Phase::CheckingMove;
            return Action::Check { mv };
        }
        if starts_with(&chars, "info") {
            let spans = split_words(&chars);
            if spans.len() > 0 && span_is(&chars, spans[0], "info") {
                match parse_info_string(line) {
                    Ok(info) => {
                        self.last_info = Some(info);
                    },
                    Err(_) => {},
                }
            }
        }
        Action::Read { from: self.status.side_to_move }
    }

    /// Takes what has come of the last action, and says what is to be done
    /// next. An event that does not answer the last action ends the game as
    /// one that cannot go on.
    pub fn step(&mut self, event: Event) -> (a: Action)
        requires
            old(self)@.wf(),
        ensures
            (final(self)@, a@) == old(self)@.step(event@),
            final(self)@.wf(),
    {
        match self.phase {
            Phase::SendingNewGame(color) => match event {
                Event::Written => match color {
                    Color::White => {
                        self.phase = Phase::SendingNewGame(Color::Black);
                        Action::Send { to: Color::Black, lines: new_game_lines_vec(self.game.size) }
                    },
                    Color::Black => {
                        self.phase = Phase::AwaitingReady(Color::White);
                        Action::Read { from: Color::White }
                    },
                },
                _ => self.abort(),
            },
            Phase::AwaitingReady(color) => match event {
                Event::Line(line) => {
                    if is_readyok(line.as_str()) {
                        match color {
                            Color::White => {
                                self.phase = Phase::AwaitingReady(Color::Black);
                                Action::Read { from: Color::Black }
                            },
                            Color::Black => self.turn(),
                        }
                    } else {
                        Action::Read { from: color }
                    }
                },
                _ => self.abort(),
            },
            Phase::SendingPosition => match event {
                Event::Written => {
                    self.phase = Phase::AwaitingMove;
                    Action::Read { from: self.status.side_to_move }
                },
                Event::Failed(IoFailure::Disconnected) => {
                    self.phase = Phase::Restarting;
                    Action::Restart { engine: self.status.side_to_move }
                },
                _ => self.abort(),
            },
            Phase::AwaitingMove => match event {
                Event::Line(line) => self.heard(line.as_str()),
                Event::Failed(IoFailure::Disconnected) => {
                    self.phase = Phase::Restarting;
                    Action::Restart { engine: self.status.side_to_move }
                },
                _ => self.abort(),
            },
            Phase::CheckingMove => match event {
                Event::Checked(MoveVerdict::Malformed) => self.forfeit(" sent a malformed move"),
                Event::Checked(MoveVerdict::Illegal) => self.forfeit(" made an illegal move"),
                Event::Checked(MoveVerdict::Played { lan, status, elapsed }) => self.played(
                    lan,
                    status,
                    elapsed,
                ),
                _ => self.abort(),
            },
            Phase::Restarting => match event {
                Event::Restarted => self.forfeit(" disconnected or crashed"),
                _ => self.abort(),
            },
            Phase::Finished => Action::Done,
            Phase::Failed => Action::Abort,
        }
    }

    /// Whether the game is over.
    pub fn is_finished(&self) -> (b: bool)
        ensures
            b == (self@.phase == Phase::Finished),
    {
        match self.phase {
            Phase::Finished => true,
            _ => false,
        }
    }

    /// The record of the game, dated today.
    pub fn into_record_of_today(self) -> (record: GameRecord)
        ensures
            exists|date: Date| date.in_calendar() && record@ == record_of(self@, date),
    {
        let date = Date::today();
        self.into_record(date)
    }

    /// The record of the game, with the day on which it ended.
    pub fn into_record(self, date: Date) -> (record: GameRecord)
        ensures
            record@ == record_of(self@, date),
    {
        let mut tags: Vec<(String, String)> = Vec::new();
        tags.push((String::from_str("Site"), String::from_str("Racetrack")));
        tags.push((String::from_str("Player1"), self.white.name));
        tags.push((String::from_str("Player2"), self.black.name));
        let mut round = String::new();
        push_decimal(&mut round, self.game.round_number as u128 + 1);
        tags.push((String::from_str("Round"), round));
        let mut size = String::new();
        push_decimal(&mut size, self.game.size as u128);
        tags.push((String::from_str("Size"), size));
        tags.push((String::from_str("Date"), date_string(date)));
        tags.push(
            (
                String::from_str("Clock"),
                clock_tag_string(
                    self.white.game_time,
                    self.white.increment,
                    self.black.game_time,
                    self.black.increment,
                ),
            ),
        );
        match self.komi {
            Some(k) => {
                tags.push((String::from_str("Komi"), k));
            },
            None => {},
        }
        if self.termination.as_str().unicode_len() > 0 {
            tags.push((String::from_str("Termination"), self.termination));
        }
        let record = GameRecord {
            start_position: self.game.opening.root_position,
            moves: self.moves,
            game_result: self.result,
            tags,
        };
        assert(record@.tags =~= tags_of(self@, date));
        assert(record@.moves =~= self@.moves);
        record
    }
}

/// A game that has become longer than the longest game ends without a
/// result when the next turn comes, and its record says why.
pub proof fn lemma_longest_game(d: DriverView)
    requires
        d.moves.len() > MAX_GAME_LENGTH,
    ensures
        d.turn().1 == ActionView::Done,
        d.turn().0.phase == Phase::Finished,
        d.turn().0.result is None,
        d.turn().0.termination == "max length reached"@,
        forall|date: Date|
            #[trigger] tags_of(d.turn().0, date).last() == ("Termination"@, "max length reached"@),
{
    reveal_strlit("max length reached");
}

/// A move that has taken longer than its side had left loses the game on
/// time, whatever the move and whatever it leads to: the other side wins, and
/// the record says so.
pub proof fn lemma_loss_on_time(
    d: DriverView,
    lan: Seq<char>,
    status: PositionStatus,
    elapsed: nat,
)
    requires
        d.phase == Phase::CheckingMove,
        elapsed > d.clock(d.mover()),
    ensures
        ({
            let (after, action) = d.step(
                EventView::Checked(MoveVerdictView::Played { lan, status, elapsed }),
            );
            &&& action == ActionView::Done
            &&& after.phase == Phase::Finished
            &&& after.result == Some(GameResult::win_for(d.mover().other()))
            &&& after.termination == d.mover().other().name() + " wins on time"@
            &&& after.moves.len() == d.moves.len() + 1
            &&& after.moves.last().mv == lan
        }),
{
}

} // verus!
