//! A single game: what is scheduled, and how it is driven to its end.

use crate::openings::{Opening, OpeningView};
use crate::tournament::EngineId;
use vstd::prelude::*;

verus! {

/// The two sides of a game.
#[derive(Clone, Copy, Debug, PartialEq, Eq, Structural)]
pub enum Color {
    White,
    Black,
}

impl Color {
    pub open spec fn other(self) -> Color {
        match self {
            Color::White => Color::Black,
            Color::Black => Color::White,
        }
    }

    /// The other side.
    pub fn opponent(self) -> (c: Color)
        ensures
            c == self.other(),
    {
        match self {
            Color::White => Color::Black,
            Color::Black => Color::White,
        }
    }

    pub open spec fn name(self) -> Seq<char> {
        match self {
            Color::White => "White"@,
            Color::Black => "Black"@,
        }
    }

    /// The name of the side, as it is written in a game's record.
    pub fn to_str(self) -> (s: &'static str)
        ensures
            s@ == self.name(),
    {
        match self {
            Color::White => "White",
            Color::Black => "Black",
        }
    }
}

/// How a game has ended.
#[derive(Clone, Copy, Debug, PartialEq, Eq, Structural)]
pub enum GameResult {
    WhiteWin,
    BlackWin,
    Draw,
}

impl GameResult {
    /// The result for the side that wins where the other side forfeits.
    pub open spec fn win_for(color: Color) -> GameResult {
        match color {
            Color::White => GameResult::WhiteWin,
            Color::Black => GameResult::BlackWin,
        }
    }

    pub open spec fn notation(self) -> Seq<char> {
        match self {
            GameResult::WhiteWin => "1-0"@,
            GameResult::BlackWin => "0-1"@,
            GameResult::Draw => "1/2-1/2"@,
        }
    }

    /// The result as it is written behind the moves of a game.
    pub fn to_str(self) -> (s: &'static str)
        ensures
            s@ == self.notation(),
    {
        match self {
            GameResult::WhiteWin => "1-0",
            GameResult::BlackWin => "0-1",
            GameResult::Draw => "1/2-1/2",
        }
    }
}

/// How the game is written down that `color` wins by forfeit.
pub fn forfeit_win_str(color: Color) -> (s: &'static str)
    ensures
        s@ == GameResult::win_for(color).notation(),
{
    match color {
        Color::White => "1-0",
        Color::Black => "0-1",
    }
}

/// A move of a game with the comment that goes with it.
#[derive(Clone, Debug, PartialEq, Eq)]
pub struct RecordedMove {
    pub mv: String,
    pub comment: String,
}

pub ghost struct RecordedMoveView {
    pub mv: Seq<char>,
    pub comment: Seq<char>,
}

impl View for RecordedMove {
    type V = RecordedMoveView;

    open spec fn view(&self) -> RecordedMoveView {
        RecordedMoveView { mv: self.mv@, comment: self.comment@ }
    }
}

pub ghost struct GameRecordView {
    pub start_position: Option<Seq<char>>,
    pub moves: Seq<RecordedMoveView>,
    pub game_result: Option<GameResult>,
    pub tags: Seq<(Seq<char>, Seq<char>)>,
}

/// A game as it is written down: where it started, its moves, its result if
/// it has one, and its tags.
#[derive(Clone, Debug, PartialEq, Eq)]
pub struct GameRecord {
    pub start_position: Option<String>,
    pub moves: Vec<RecordedMove>,
    pub game_result: Option<GameResult>,
    pub tags: Vec<(String, String)>,
}

impl View for GameRecord {
    type V = GameRecordView;

    open spec fn view(&self) -> GameRecordView {
        GameRecordView {
            start_position: match self.start_position {
                Some(p) => Some(p@),
                None => None,
            },
            moves: Seq::new(self.moves@.len(), |i: int| self.moves@[i]@),
            game_result: self.game_result,
            tags: Seq::new(self.tags@.len(), |i: int| (self.tags@[i].0@, self.tags@[i].1@)),
        }
    }
}

impl GameRecord {
    /// The result as the standings count it: a game without a result is a
    /// draw.
    pub open spec fn counted(&self) -> GameResult {
        match self.game_result {
            Some(r) => r,
            None => GameResult::Draw,
        }
    }

    /// The record that stands for a game that could not be played: no moves,
    /// no result, no tags.
    pub fn placeholder() -> (g: GameRecord)
        ensures
            g.start_position is None,
            g.moves@.len() == 0,
            g.game_result is None,
            g.tags@.len() == 0,
    {
        GameRecord {
            start_position: None,
            moves: Vec::new(),
            game_result: None,
            tags: Vec::new(),
        }
    }
}

/// A game that is to be played: its round, its opening and who plays which
/// colour.
#[derive(Debug, PartialEq, Eq)]
pub struct ScheduledGame {
    pub round_number: usize,
    pub opening: Opening,
    pub white_engine_id: EngineId,
    pub black_engine_id: EngineId,
    pub size: usize,
}

pub ghost struct ScheduledGameView {
    pub round_number: nat,
    pub opening: OpeningView,
    pub white_engine_id: nat,
    pub black_engine_id: nat,
    pub size: nat,
}

impl View for ScheduledGame {
    type V = ScheduledGameView;

    open spec fn view(&self) -> ScheduledGameView {
        ScheduledGameView {
            round_number: self.round_number as nat,
            opening: self.opening@,
            white_engine_id: self.white_engine_id.0 as nat,
            black_engine_id: self.black_engine_id.0 as nat,
            size: self.size as nat,
        }
    }
}

impl Clone for ScheduledGame {
    fn clone(&self) -> (r: Self)
        ensures
            r@ == self@,
    {
        ScheduledGame {
            round_number: self.round_number,
            opening: self.opening.clone(),
            white_engine_id: EngineId(self.white_engine_id.0),
            black_engine_id: EngineId(self.black_engine_id.0),
            size: self.size,
        }
    }
}

} // verus!
