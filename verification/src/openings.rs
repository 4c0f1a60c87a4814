//! Openings: the position a game starts from and the moves that are played
//! before the engines take over.

use crate::text::{
    char_is_space, chars_of, is_space, join_words, lemma_words_are_words, lemma_words_of_joined,
    span_string, spans_text, split_words, words,
};
use crate::uci::texts;
use rand::seq::SliceRandom;
use vstd::prelude::*;

verus! {

/// The formats in which a book of openings can be written.
#[derive(Clone, Copy, Debug, PartialEq, Eq, Structural)]
pub enum BookFormat {
    Pgn,
    Fen,
    MoveList,
}

/// An opening. The root position is written in TPS; where there is none the
/// game starts from the initial position. The moves are in the notation of
/// whoever made the opening.
#[derive(Debug, PartialEq, Eq)]
pub struct Opening {
    pub root_position: Option<String>,
    pub moves: Vec<String>,
}

pub ghost struct OpeningView {
    pub root_position: Option<Seq<char>>,
    pub moves: Seq<Seq<char>>,
}

impl View for Opening {
    type V = OpeningView;

    open spec fn view(&self) -> OpeningView {
        OpeningView {
            root_position: match self.root_position {
                Some(p) => Some(p@),
                None => None,
            },
            moves: texts(self.moves@),
        }
    }
}

/// A copy of a vector of strings.
pub fn clone_strings(v: &Vec<String>) -> (r: Vec<String>)
    ensures
        r@ == v@,
{
    let mut r: Vec<String> = Vec::new();
    let mut i: usize = 0;
    while i < v.len()
        invariant
            i <= v.len(),
            r@ == v@.take(i as int),
        decreases v.len() - i,
    {
        r.push(v[i].clone());
        i += 1;
    }
    assert(v@.take(v.len() as int) == v@);
    r
}

impl Clone for Opening {
    fn clone(&self) -> (r: Self)
        ensures
            r@ == self@,
    {
        Opening {
            root_position: match &self.root_position {
                Some(p) => Some(p.clone()),
                None => None,
            },
            moves: clone_strings(&self.moves),
        }
    }
}

/// Puts the openings in a random order, by `shuffle` of `rand`'s
/// `SliceRandom` with the random number generator of the thread. Which order
/// comes out is left open. What is taken on trust is that the openings are
/// those that were there, each as often as before: the shuffle does nothing
/// but exchange them.
#[verifier::external_body]
fn shuffle(openings: &mut Vec<Opening>)
    ensures
        final(openings)@.to_multiset() == old(openings)@.to_multiset(),
{
    openings.shuffle(&mut rand::thread_rng());
}

/// Puts a book in the order in which its openings are played: as they are,
/// or shuffled where that is asked for.
pub fn arrange_book(openings: &mut Vec<Opening>, shuffle_book: bool)
    ensures
        final(openings)@.to_multiset() == old(openings)@.to_multiset(),
        final(openings)@.len() == old(openings)@.len(),
        !shuffle_book ==> final(openings)@ == old(openings)@,
{
    if shuffle_book {
        shuffle(openings);
        proof {
            old(openings)@.to_multiset_ensures();
            openings@.to_multiset_ensures();
        }
    }
}

/// The opening that a line of a move list stands for: its words are the
/// moves, played from the initial position.
pub open spec fn move_list_opening(line: Seq<char>) -> OpeningView {
    OpeningView { root_position: None, moves: words(line) }
}

/// An opening that has been read from a line of a move list and is written
/// out again reads as the same opening.
pub proof fn lemma_move_list_round_trip(line: Seq<char>)
    ensures
        move_list_opening(join_words(move_list_opening(line).moves)) == move_list_opening(line),
{
    lemma_words_are_words(line);
    lemma_words_of_joined(words(line));
}

impl Opening {
    /// The moves of the opening as a line of a move list.
    pub fn to_move_list_line(&self) -> (line: String)
        ensures
            line@ == join_words(self@.moves),
    {
        let mut line = String::new();
        let mut i: usize = 0;
        proof {
            reveal_strlit(" ");
            assert(" "@ =~= seq![' ']);
            assert(texts(self.moves@).take(0) =~= Seq::<Seq<char>>::empty());
        }
        while i < self.moves.len()
            invariant
                i <= self.moves@.len(),
                " "@ == seq![' '],
                line@ == join_words(texts(self.moves@).take(i as int)),
            decreases self.moves@.len() - i,
        {
            proof {
                let all = texts(self.moves@);
                assert(all.take(i + 1).drop_last() =~= all.take(i as int));
                assert(all.take(i + 1).last() == self.moves@[i as int]@);
            }
            if i > 0 {
                line.append(" ");
            }
            line.append(self.moves[i].as_str());
            i += 1;
        }
        assert(texts(self.moves@).take(i as int) =~= texts(self.moves@));
        line
    }
}

/// Whether a text holds nothing but white space.
pub open spec fn is_blank(line: Seq<char>) -> bool {
    forall|i: int| 0 <= i < line.len() ==> is_space(#[trigger] line[i])
}

/// Reads one line of a move list.
pub fn opening_from_move_list_line(line: &str) -> (o: Opening)
    ensures
        o@ == move_list_opening(line@),
{
    let chars = chars_of(line);
    let spans = split_words(&chars);
    let mut moves: Vec<String> = Vec::new();
    let mut i: usize = 0;
    while i < spans.len()
        invariant
            i <= spans.len(),
            chars@ == line@,
            crate::text::spans_within(spans@, chars@.len()),
            moves@.len() == i,
            forall|j: int|
                0 <= j < i ==> moves@[j]@ == line@.subrange(
                    spans@[j].start as int,
                    spans@[j].end as int,
                ),
        decreases spans.len() - i,
    {
        moves.push(span_string(line, spans[i]));
        i += 1;
    }
    assert(texts(moves@) =~= spans_text(line@, spans@));
    Opening { root_position: None, moves }
}

/// Reads a book written as a list of moves, one opening on each line.
pub fn openings_from_move_list(lines: &Vec<String>) -> (openings: Vec<Opening>)
    ensures
        openings@.len() == lines@.len(),
        forall|i: int|
            0 <= i < lines@.len() ==> (#[trigger] openings@[i])@ == move_list_opening(lines@[i]@),
{
    let mut openings: Vec<Opening> = Vec::new();
    let mut i: usize = 0;
    while i < lines.len()
        invariant
            i <= lines.len(),
            openings@.len() == i,
            forall|j: int|
                0 <= j < i ==> (#[trigger] openings@[j])@ == move_list_opening(lines@[j]@),
        decreases lines.len() - i,
    {
        openings.push(opening_from_move_list_line(lines[i].as_str()));
        i += 1;
    }
    openings
}

/// The lines of a book of positions that hold a position: those that are not
/// blank.
pub open spec fn position_lines(lines: Seq<Seq<char>>) -> Seq<Seq<char>> {
    lines.filter(|l: Seq<char>| !is_blank(l))
}

fn line_is_blank(line: &str) -> (b: bool)
    ensures
        b == is_blank(line@),
{
    let chars = chars_of(line);
    let mut i: usize = 0;
    while i < chars.len()
        invariant
            i <= chars.len(),
            chars@ == line@,
            forall|j: int| 0 <= j < i ==> is_space(#[trigger] line@[j]),
        decreases chars.len() - i,
    {
        if !char_is_space(chars[i]) {
            return false;
        }
        i += 1;
    }
    true
}

/// Reads a book written as positions in TPS, one on each line. Blank lines
/// are passed over; no moves follow a position.
pub fn openings_from_fen(lines: &Vec<String>) -> (openings: Vec<Opening>)
    ensures
        openings@.len() == position_lines(texts(lines@)).len(),
        forall|i: int|
            0 <= i < openings@.len() ==> (#[trigger] openings@[i])@ == (OpeningView {
                root_position: Some(position_lines(texts(lines@))[i]),
                moves: Seq::empty(),
            }),
{
    let mut openings: Vec<Opening> = Vec::new();
    let mut i: usize = 0;
    let ghost all = texts(lines@);
    let ghost keep = |l: Seq<char>| !is_blank(l);
    assert(all.take(0).filter(keep) == Seq::<Seq<char>>::empty()) by {
        reveal(Seq::filter);
    }
    while i < lines.len()
        invariant
            i <= lines.len(),
            all == texts(lines@),
            keep == (|l: Seq<char>| !is_blank(l)),
            openings@.len() == all.take(i as int).filter(keep).len(),
            forall|j: int|
                0 <= j < openings@.len() ==> (#[trigger] openings@[j])@ == (OpeningView {
                    root_position: Some(all.take(i as int).filter(keep)[j]),
                    moves: Seq::empty(),
                }),
        decreases lines.len() - i,
    {
        proof {
            assert(all.take(i + 1).drop_last() == all.take(i as int));
            assert(all.take(i + 1).last() == lines@[i as int]@);
            reveal(Seq::filter);
        }
        if !line_is_blank(lines[i].as_str()) {
            let o = Opening { root_position: Some(lines[i].clone()), moves: Vec::new() };
            assert(o@.moves =~= Seq::empty());
            openings.push(o);
        }
        i += 1;
    }
    assert(all.take(lines.len() as int) == all);
    openings
}

} // verus!
